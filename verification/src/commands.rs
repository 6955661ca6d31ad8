//! What the application's commands decide: request parameters, the provider
//! list shown to the user, the stored configuration and its sealed keys,
//! prompt templates by name, and the retry budget of a request.
use vstd::prelude::*;
use vstd::utf8::encode_utf8;
use crate::api::ApiConfig;
use crate::base64::{base64, encoded_len};
use crate::dpapi::{
    bytes_result, opened_text,
    decrypt_string, decrypted_text, decrypts_to, encrypt_string, encrypts_to, sealed_text,
    text_result,
};
use crate::prompt::{
    build_prompt, default_punctuation_template, default_transcription_template, prompt_text,
    punctuation_system_text, polish_system_text, PromptTemplate,
};
use crate::provider::{
    detect_provider, get_providers, has_prefix, known_providers, provider_entry, provider_for_key,
    copy_strings, strings_view, ProviderEntry, ServiceProvider,
};
use crate::text::{concat, skip_chars, starts_with, str_eq};

verus! {

/// API parameters as the user interface sends them.
#[derive(Debug)]
pub struct ApiParams {
    pub base_url: String,
    pub api_key: String,
    pub model: String,
    pub language: Option<String>,
}

impl From<ApiParams> for ApiConfig {
    fn from(params: ApiParams) -> (c: Self) {
        ApiConfig {
            base_url: params.base_url,
            api_key: params.api_key,
            model: params.model,
            language: params.language,
        }
    }
}

impl vstd::std_specs::convert::FromSpecImpl<ApiParams> for ApiConfig {
    open spec fn obeys_from_spec() -> bool {
        true
    }

    open spec fn from_spec(params: ApiParams) -> Self {
        ApiConfig {
            base_url: params.base_url,
            api_key: params.api_key,
            model: params.model,
            language: params.language,
        }
    }
}

/// A provider as the user interface receives it.
#[derive(Debug, Clone)]
pub struct ProviderInfo {
    pub id: String,
    pub name: String,
    pub base_url: String,
    pub key_prefix: String,
    pub asr_models: Vec<String>,
    pub chat_models: Vec<String>,
}

impl From<crate::provider::ProviderInfo> for ProviderInfo {
    fn from(info: crate::provider::ProviderInfo) -> (p: Self) {
        ProviderInfo {
            id: info.id,
            name: info.name,
            base_url: info.base_url,
            key_prefix: info.key_prefix,
            asr_models: info.asr_models,
            chat_models: info.chat_models,
        }
    }
}

impl vstd::std_specs::convert::FromSpecImpl<crate::provider::ProviderInfo> for ProviderInfo {
    open spec fn obeys_from_spec() -> bool {
        true
    }

    open spec fn from_spec(info: crate::provider::ProviderInfo) -> Self {
        ProviderInfo {
            id: info.id,
            name: info.name,
            base_url: info.base_url,
            key_prefix: info.key_prefix,
            asr_models: info.asr_models,
            chat_models: info.chat_models,
        }
    }
}

/// The view of a provider as the user interface receives it.
pub open spec fn info_entry(p: ProviderInfo) -> ProviderEntry {
    ProviderEntry {
        id: p.id@,
        name: p.name@,
        base_url: p.base_url@,
        key_prefix: p.key_prefix@,
        asr_models: strings_view(p.asr_models@),
        chat_models: strings_view(p.chat_models@),
    }
}

/// All providers, for the user interface.
pub fn provider_list() -> (v: Vec<ProviderInfo>)
    ensures
        v@.map_values(|p: ProviderInfo| info_entry(p)) == known_providers(),
{
    let all = get_providers();
    let mut v: Vec<ProviderInfo> = Vec::new();
    let mut i: usize = 0;
    while i < all.len()
        invariant
            i <= all@.len(),
            all@.map_values(|p: crate::provider::ProviderInfo| provider_entry(p)) == known_providers(),
            v@.len() == i,
            forall|j: int| 0 <= j < i ==> info_entry(#[trigger] v@[j]) == provider_entry(all@[j]),
        decreases all@.len() - i,
    {
        let p = all[i].copy();
        v.push(ProviderInfo::from(p));
        i = i + 1;
    }
    proof {
        assert forall|j: int| 0 <= j < v@.len() implies v@.map_values(
            |p: ProviderInfo| info_entry(p),
        )[j] == known_providers()[j] by {
            assert(all@.map_values(|p: crate::provider::ProviderInfo| provider_entry(p))[j]
                == provider_entry(all@[j]));
        }
        assert(v@.map_values(|p: ProviderInfo| info_entry(p)) =~= known_providers());
    }
    v
}

/// The position, in the provider list, of the provider guessed from a key;
/// the first provider when the guess has no entry of its own.
pub open spec fn provider_index_for_key(api_key: Seq<char>) -> int {
    match provider_for_key(api_key) {
        ServiceProvider::MimoTokenPlan => 1,
        _ => 0,
    }
}

/// The provider entry for an API key: the listed provider whose id matches
/// the guessed provider, or the first one.
pub fn provider_info_for_key(api_key: &str) -> (p: ProviderInfo)
    ensures
        info_entry(p) == known_providers()[provider_index_for_key(api_key@)],
{
    let svc = detect_provider(api_key);
    let all = provider_list();
    assert(known_providers().len() == 3);
    assert(all@.len() == 3);
    assert(all@.map_values(|p: ProviderInfo| info_entry(p))[0] == info_entry(all@[0]));
    assert(all@.map_values(|p: ProviderInfo| info_entry(p))[1] == info_entry(all@[1]));
    assert(all@.map_values(|p: ProviderInfo| info_entry(p))[2] == info_entry(all@[2]));
    proof {
        reveal_strlit("mimo-api");
        reveal_strlit("mimo-token-plan");
        reveal_strlit("deepseek");
    }
    let mut i: usize = 0;
    while i < all.len()
        invariant
            i <= all@.len(),
            all@.len() == 3,
            svc == provider_for_key(api_key@),
            all@.map_values(|p: ProviderInfo| info_entry(p)) == known_providers(),
            info_entry(all@[0]) == known_providers()[0],
            info_entry(all@[1]) == known_providers()[1],
            info_entry(all@[2]) == known_providers()[2],
            i <= provider_index_for_key(api_key@),
        decreases all@.len() - i,
    {
        proof {
            reveal_strlit("mimo-api");
            reveal_strlit("mimo-token-plan");
            reveal_strlit("deepseek");
        }
        let id = all[i].id.as_str();
        let hit = match svc {
            ServiceProvider::MimoApi => str_eq(id, "mimo-api"),
            ServiceProvider::MimoTokenPlan => str_eq(id, "mimo-token-plan"),
            _ => false,
        };
        if hit {
            proof {
                assert("mimo-api"@.len() == 8);
                assert("mimo-token-plan"@.len() == 15);
                assert(known_providers()[0].id == "mimo-api"@);
                assert(info_entry(all@[i as int]).id == all@[i as int].id@);
                assert(i as int == provider_index_for_key(api_key@));
            }
            return all[i].clone_info();
        }
        i = i + 1;
    }
    all[0].clone_info()
}

impl ProviderInfo {
    /// A copy of this entry.
    pub fn clone_info(&self) -> (c: Self)
        ensures
            info_entry(c) == info_entry(*self),
    {
        ProviderInfo {
            id: self.id.clone(),
            name: self.name.clone(),
            base_url: self.base_url.clone(),
            key_prefix: self.key_prefix.clone(),
            asr_models: copy_strings(&self.asr_models),
            chat_models: copy_strings(&self.chat_models),
        }
    }
}

// ---------------------------------------------------------------------
// Prompt templates by name
// ---------------------------------------------------------------------

/// The template named by the user interface: `transcription` or
/// `punctuation`; any other name is an error naming it.
pub fn default_prompt_template(template_type: &str) -> (r: Result<PromptTemplate, String>)
    ensures
        match r {
            Ok(t) => {
                &&& template_type@ == "transcription"@ || template_type@ == "punctuation"@
                &&& template_type@ == "transcription"@ ==> t.system@ == polish_system_text()
                    && t.user_prefix@ == "请润色以下语音转文字结果："@
                &&& template_type@ == "punctuation"@ ==> t.system@ == punctuation_system_text()
                    && t.user_prefix@ == "请为以下文本添加标点："@
                &&& t.user_suffix@.len() == 0
            },
            Err(e) => template_type@ != "transcription"@ && template_type@ != "punctuation"@ && e@
                == "未知模板类型: "@ + template_type@,
        },
{
    proof {
        reveal_strlit("transcription");
        reveal_strlit("punctuation");
    }
    if str_eq(template_type, "transcription") {
        let t = default_transcription_template();
        assert(template_type@ != "punctuation"@) by {
            reveal_strlit("transcription");
            reveal_strlit("punctuation");
            assert("transcription"@.len() == 13);
        }
        Ok(t)
    } else if str_eq(template_type, "punctuation") {
        let t = default_punctuation_template();
        assert(template_type@ != "transcription"@) by {
            reveal_strlit("transcription");
            reveal_strlit("punctuation");
            assert("transcription"@.len() == 13);
        }
        Ok(t)
    } else {
        Err(concat("未知模板类型: ", template_type))
    }
}

/// The system prompt of a chat: the given system text put through a template
/// with no prefix, suffix or input (so a non-empty text gains a blank line).
pub fn chat_system_prompt(system_prompt: String) -> (p: String)
    ensures
        p@ == prompt_text(system_prompt@, seq![], seq![], seq![]),
{
    proof {
        reveal_strlit("");
    }
    let template = PromptTemplate {
        system: system_prompt,
        user_prefix: String::new(),
        user_suffix: String::new(),
    };
    build_prompt(&template, "")
}

// ---------------------------------------------------------------------
// Stored configuration
// ---------------------------------------------------------------------

/// The application's configuration as it is stored.
#[derive(Debug, Clone)]
pub struct AppConfig {
    pub provider: String,
    pub base_url: String,
    pub api_key: String,
    pub transcription_model: String,
    pub polish_model: String,
    pub theme: String,
    pub polish_prompt: String,
    /// Keys saved for each provider id.
    pub provider_keys: Vec<(String, String)>,
}

/// The default polishing instruction.
pub open spec fn polish_prompt_text() -> Seq<char> {
    "给你以下语音转写结果，理解内容，根据相关领域的正确内容和相关术语、知识，联系上下文勘误部分转文字错误，去掉口语化表达的语气词，要求只对每句话做修饰，每句话都要输出，不简略，根据原文的内容，智能切分长段落"@
}

/// The default polishing instruction.
pub fn default_polish_prompt() -> (s: String)
    ensures
        s@ == polish_prompt_text(),
{
    String::from_str(
        "给你以下语音转写结果，理解内容，根据相关领域的正确内容和相关术语、知识，联系上下文勘误部分转文字错误，去掉口语化表达的语气词，要求只对每句话做修饰，每句话都要输出，不简略，根据原文的内容，智能切分长段落",
    )
}

impl Default for AppConfig {
    fn default() -> (c: Self)
        ensures
            c.provider@ == "mimo-api"@,
            c.base_url@ == "https://api.xiaomimimo.com/v1"@,
            c.api_key@.len() == 0,
            c.transcription_model@ == "mimo-v2.5-asr"@,
            c.polish_model@ == "mimo-v2.5"@,
            c.theme@ == "system"@,
            c.polish_prompt@ == polish_prompt_text(),
            c.provider_keys@.len() == 0,
            unique_key_names(c),
    {
        AppConfig {
            provider: String::from_str("mimo-api"),
            base_url: String::from_str("https://api.xiaomimimo.com/v1"),
            api_key: String::new(),
            transcription_model: String::from_str("mimo-v2.5-asr"),
            polish_model: String::from_str("mimo-v2.5"),
            theme: String::from_str("system"),
            polish_prompt: default_polish_prompt(),
            provider_keys: Vec::new(),
        }
    }
}

/// The marker in front of a sealed key.
pub open spec fn sealed_marker() -> Seq<char> {
    "ENC:"@
}

/// How a key is saved, given the result of storing it (`encrypt_string`):
/// an empty key stays empty; otherwise the marker and the stored text.
pub open spec fn saved_key(plain: Seq<char>, stored: Result<Seq<char>, Seq<char>>) -> Result<
    Seq<char>,
    Seq<char>,
> {
    if plain.len() == 0 {
        Ok(plain)
    } else {
        match stored {
            Ok(t) => Ok(sealed_marker() + t),
            Err(e) => Err(e),
        }
    }
}

/// How a saved key is loaded, given the result of reading back the text
/// after the marker (`decrypt_string`): a key without the marker is kept; a
/// marked key becomes the recovered text, or empty text when recovery fails.
pub open spec fn loaded_key(saved: Seq<char>, opened: Result<Seq<char>, Seq<char>>) -> Seq<char> {
    if has_prefix(saved, sealed_marker()) {
        match opened {
            Ok(t) => t,
            Err(_) => seq![],
        }
    } else {
        saved
    }
}

/// `r` is what saving `plain` can give with the sealing service `encrypt`.
pub open spec fn saves_to<F: Fn(&[u8]) -> Result<Vec<u8>, String>>(
    encrypt: F,
    plain: Seq<char>,
    r: Result<Seq<char>, Seq<char>>,
) -> bool {
    exists|t: Result<Seq<char>, Seq<char>>|
        #![trigger encrypts_to(encrypt, plain, t)]
        encrypts_to(encrypt, plain, t) && r == saved_key(plain, t)
}

/// `r` is what loading `saved` can give with the unsealing service `decrypt`.
pub open spec fn loads_to<F: Fn(&[u8]) -> Result<Vec<u8>, String>>(
    decrypt: F,
    saved: Seq<char>,
    r: Seq<char>,
) -> bool {
    if has_prefix(saved, sealed_marker()) {
        exists|t: Result<Seq<char>, Seq<char>>|
            #![trigger decrypts_to(decrypt, saved.skip(4), t)]
            decrypts_to(decrypt, saved.skip(4), t) && r == loaded_key(saved, t)
    } else {
        r == saved
    }
}

/// The saved form of one key.
pub fn seal_key<F: Fn(&[u8]) -> Result<Vec<u8>, String>>(value: &str, encrypt: &F) -> (r: Result<
    String,
    String,
>)
    requires
        forall|b: &[u8]| #[trigger] call_requires(*encrypt, (b,)),
    ensures
        saves_to(*encrypt, value@, text_result(r)),
{
    if value.is_empty() {
        assert(encrypts_to(*encrypt, value@, Ok::<Seq<char>, Seq<char>>(seq![])));
        return Ok(value.to_owned());
    }
    let stored = encrypt_string(value, encrypt);
    let r = match stored {
        Ok(t) => Ok(concat("ENC:", t.as_str())),
        Err(e) => Err(e),
    };
    assert(encrypts_to(*encrypt, value@, text_result(stored)));
    r
}

/// The loaded form of one saved key.
pub fn open_key<F: Fn(&[u8]) -> Result<Vec<u8>, String>>(value: &str, decrypt: &F) -> (r: String)
    requires
        forall|b: &[u8]| #[trigger] call_requires(*decrypt, (b,)),
    ensures
        loads_to(*decrypt, value@, r@),
{
    proof {
        reveal_strlit("ENC:");
    }
    if starts_with(value, "ENC:") {
        let rest = skip_chars(value, 4);
        let opened = decrypt_string(rest.as_str(), decrypt);
        assert(rest@ == value@.skip(4));
        assert(decrypts_to(*decrypt, value@.skip(4), text_result(opened)));
        match opened {
            Ok(t) => t,
            Err(_) => String::new(),
        }
    } else {
        value.to_owned()
    }
}

/// Whether `after` differs from `before` at most in its keys.
pub open spec fn same_settings(before: AppConfig, after: AppConfig) -> bool {
    &&& after.provider@ == before.provider@
    &&& after.base_url@ == before.base_url@
    &&& after.transcription_model@ == before.transcription_model@
    &&& after.polish_model@ == before.polish_model@
    &&& after.theme@ == before.theme@
    &&& after.polish_prompt@ == before.polish_prompt@
    &&& after.provider_keys@.len() == before.provider_keys@.len()
    &&& forall|i: int|
        0 <= i < before.provider_keys@.len() ==> (#[trigger] after.provider_keys@[i]).0@
            == before.provider_keys@[i].0@
}

/// No two provider keys are saved under the same provider name (as in a map
/// from provider names to keys).
pub open spec fn unique_key_names(c: AppConfig) -> bool {
    forall|i: int, j: int|
        0 <= i < j < c.provider_keys@.len() ==> (#[trigger] c.provider_keys@[i]).0@
            != (#[trigger] c.provider_keys@[j]).0@
}

/// `saved` is what saving `config` can give with the sealing service
/// `encrypt`: the same settings, and the API key and every provider key in
/// their saved forms.
pub open spec fn saves_config_to<F: Fn(&[u8]) -> Result<Vec<u8>, String>>(
    encrypt: F,
    config: AppConfig,
    saved: AppConfig,
) -> bool {
    &&& same_settings(config, saved)
    &&& saves_to(encrypt, config.api_key@, Ok(saved.api_key@))
    &&& forall|i: int|
        0 <= i < config.provider_keys@.len() ==> saves_to(
            encrypt,
            config.provider_keys@[i].1@,
            Ok(#[trigger] saved.provider_keys@[i].1@),
        )
}

/// `loaded` is what loading `saved` can give with the unsealing service
/// `decrypt`: the same settings, and the API key and every provider key in
/// their loaded forms.
pub open spec fn loads_config_to<F: Fn(&[u8]) -> Result<Vec<u8>, String>>(
    decrypt: F,
    saved: AppConfig,
    loaded: AppConfig,
) -> bool {
    &&& same_settings(saved, loaded)
    &&& loads_to(decrypt, saved.api_key@, loaded.api_key@)
    &&& forall|i: int|
        0 <= i < saved.provider_keys@.len() ==> loads_to(
            decrypt,
            saved.provider_keys@[i].1@,
            (#[trigger] loaded.provider_keys@[i]).1@,
        )
}

/// Whether two configurations hold the same text in every field and the same
/// provider keys under the same names, in the same order.
pub open spec fn same_config(a: AppConfig, b: AppConfig) -> bool {
    &&& a.provider@ == b.provider@
    &&& a.base_url@ == b.base_url@
    &&& a.api_key@ == b.api_key@
    &&& a.transcription_model@ == b.transcription_model@
    &&& a.polish_model@ == b.polish_model@
    &&& a.theme@ == b.theme@
    &&& a.polish_prompt@ == b.polish_prompt@
    &&& a.provider_keys@.len() == b.provider_keys@.len()
    &&& forall|i: int|
        0 <= i < a.provider_keys@.len() ==> (#[trigger] a.provider_keys@[i]).0@
            == b.provider_keys@[i].0@ && a.provider_keys@[i].1@ == b.provider_keys@[i].1@
}

/// A sealing and an unsealing service that undo each other (the platform's
/// data protection, used by the same user): every successful sealing gives
/// non-empty bytes, and unsealing those bytes gives back the bytes that were
/// sealed.
pub open spec fn services_invert<
    F: Fn(&[u8]) -> Result<Vec<u8>, String>,
    G: Fn(&[u8]) -> Result<Vec<u8>, String>,
>(encrypt: F, decrypt: G) -> bool {
    forall|b: &[u8], r: Result<Vec<u8>, String>|
        #[trigger] call_ensures(encrypt, (b,), r) && r is Ok ==> {
            &&& r->Ok_0@.len() > 0
            &&& forall|b2: &[u8], r2: Result<Vec<u8>, String>|
                #[trigger] call_ensures(decrypt, (b2,), r2) && b2@ == r->Ok_0@ ==> (r2 is Ok
                    && r2->Ok_0@ == b@)
        }
}

/// The configuration to save: the API key and every provider key replaced by
/// its saved form; the first failure to seal a key is returned instead.
pub fn protect_config<F: Fn(&[u8]) -> Result<Vec<u8>, String>>(
    config: &AppConfig,
    encrypt: &F,
) -> (r: Result<AppConfig, String>)
    requires
        forall|b: &[u8]| #[trigger] call_requires(*encrypt, (b,)),
    ensures
        match r {
            Ok(saved) => {
                &&& saves_config_to(*encrypt, *config, saved)
                &&& unique_key_names(*config) ==> unique_key_names(saved)
            },
            Err(e) => {
                ||| saves_to(*encrypt, config.api_key@, Err(e@))
                ||| exists|i: int|
                    0 <= i < config.provider_keys@.len() && saves_to(
                        *encrypt,
                        #[trigger] config.provider_keys@[i].1@,
                        Err(e@),
                    )
            },
        },
{
    let api_key = seal_key(config.api_key.as_str(), encrypt)?;
    let mut keys: Vec<(String, String)> = Vec::new();
    let mut i: usize = 0;
    while i < config.provider_keys.len()
        invariant
            forall|b: &[u8]| #[trigger] call_requires(*encrypt, (b,)),
            i <= config.provider_keys@.len(),
            keys@.len() == i,
            forall|j: int|
                0 <= j < i ==> (#[trigger] keys@[j]).0@ == config.provider_keys@[j].0@ && saves_to(
                    *encrypt,
                    config.provider_keys@[j].1@,
                    Ok(keys@[j].1@),
                ),
        decreases config.provider_keys@.len() - i,
    {
        let name = config.provider_keys[i].0.clone();
        let sealed = seal_key(config.provider_keys[i].1.as_str(), encrypt);
        match sealed {
            Ok(v) => {
                keys.push((name, v));
            },
            Err(e) => {
                assert(saves_to(*encrypt, config.provider_keys@[i as int].1@, Err(e@)));
                return Err(e);
            },
        }
        i = i + 1;
    }
    Ok(
        AppConfig {
            provider: config.provider.clone(),
            base_url: config.base_url.clone(),
            api_key,
            transcription_model: config.transcription_model.clone(),
            polish_model: config.polish_model.clone(),
            theme: config.theme.clone(),
            polish_prompt: config.polish_prompt.clone(),
            provider_keys: keys,
        },
    )
}

/// The configuration as loaded: the API key and every provider key replaced
/// by its loaded form.
pub fn restore_config<F: Fn(&[u8]) -> Result<Vec<u8>, String>>(
    config: &AppConfig,
    decrypt: &F,
) -> (loaded: AppConfig)
    requires
        forall|b: &[u8]| #[trigger] call_requires(*decrypt, (b,)),
    ensures
        loads_config_to(*decrypt, *config, loaded),
        unique_key_names(*config) ==> unique_key_names(loaded),
{
    let api_key = open_key(config.api_key.as_str(), decrypt);
    let mut keys: Vec<(String, String)> = Vec::new();
    let mut i: usize = 0;
    while i < config.provider_keys.len()
        invariant
            forall|b: &[u8]| #[trigger] call_requires(*decrypt, (b,)),
            i <= config.provider_keys@.len(),
            keys@.len() == i,
            forall|j: int|
                0 <= j < i ==> (#[trigger] keys@[j]).0@ == config.provider_keys@[j].0@ && loads_to(
                    *decrypt,
                    config.provider_keys@[j].1@,
                    keys@[j].1@,
                ),
        decreases config.provider_keys@.len() - i,
    {
        let name = config.provider_keys[i].0.clone();
        let v = open_key(config.provider_keys[i].1.as_str(), decrypt);
        keys.push((name, v));
        i = i + 1;
    }
    AppConfig {
        provider: config.provider.clone(),
        base_url: config.base_url.clone(),
        api_key,
        transcription_model: config.transcription_model.clone(),
        polish_model: config.polish_model.clone(),
        theme: config.theme.clone(),
        polish_prompt: config.polish_prompt.clone(),
        provider_keys: keys,
    }
}

/// Law: a key saved with a sealing service and loaded with an unsealing
/// service that returns the bytes that were sealed comes back unchanged; an
/// empty key is saved and loaded as empty.
pub proof fn lemma_key_roundtrip(
    plain: Seq<char>,
    sealed: Seq<u8>,
    open: spec_fn(Seq<u8>) -> Result<Seq<u8>, Seq<char>>,
)
    requires
        plain.len() > 0 ==> sealed.len() > 0 && open(sealed) == Ok::<Seq<u8>, Seq<char>>(
            encode_utf8(plain),
        ),
    ensures
        plain.len() == 0 ==> saved_key(plain, Ok(seq![])) == Ok::<Seq<char>, Seq<char>>(plain)
            && loaded_key(plain, Err(seq![])) == plain,
        plain.len() > 0 ==> {
            let stored = sealed_text(plain, Ok(sealed));
            &&& stored == Ok::<Seq<char>, Seq<char>>(base64(sealed))
            &&& saved_key(plain, stored) == Ok::<Seq<char>, Seq<char>>(
                sealed_marker() + base64(sealed),
            )
            &&& has_prefix(sealed_marker() + base64(sealed), sealed_marker())
            &&& (sealed_marker() + base64(sealed)).skip(4) == base64(sealed)
            &&& loaded_key(sealed_marker() + base64(sealed), decrypted_text(base64(sealed), open))
                == plain
        },
{
    reveal_strlit("ENC:");
    if plain.len() > 0 {
        crate::dpapi::lemma_secret_roundtrip(plain, sealed, open);
        let s = sealed_marker() + base64(sealed);
        assert(s.take(4) =~= sealed_marker());
        assert(s.skip(4) =~= base64(sealed));
    } else {
        assert(!has_prefix(plain, sealed_marker()));
    }
}

/// Law: a key saved with a sealing service and loaded with an unsealing
/// service that undoes it comes back unchanged.
pub proof fn lemma_key_service_roundtrip<
    F: Fn(&[u8]) -> Result<Vec<u8>, String>,
    G: Fn(&[u8]) -> Result<Vec<u8>, String>,
>(encrypt: F, decrypt: G, plain: Seq<char>, saved: Seq<char>, loaded: Seq<char>)
    requires
        services_invert(encrypt, decrypt),
        saves_to(encrypt, plain, Ok(saved)),
        loads_to(decrypt, saved, loaded),
    ensures
        loaded == plain,
{
    reveal_strlit("ENC:");
    let t = choose|t: Result<Seq<char>, Seq<char>>|
        #![trigger encrypts_to(encrypt, plain, t)]
        encrypts_to(encrypt, plain, t) && Ok::<Seq<char>, Seq<char>>(saved) == saved_key(plain, t);
    if plain.len() == 0 {
        assert(saved.len() == 0);
        assert(!has_prefix(saved, sealed_marker()));
    } else {
        let (b, c) = choose|b: &[u8], c: Result<Vec<u8>, String>|
            #![trigger call_ensures(encrypt, (b,), c)]
            b@ == encode_utf8(plain) && call_ensures(encrypt, (b,), c) && t == sealed_text(
                plain,
                bytes_result(c),
            );
        assert(c is Ok);
        let v = c->Ok_0@;
        assert(v.len() > 0);
        assert(saved == sealed_marker() + base64(v));
        crate::base64::lemma_base64_len(v);
        crate::base64::lemma_base64_roundtrip(v);
        assert(saved.take(4) =~= sealed_marker());
        assert(saved.skip(4) =~= base64(v));
        assert(has_prefix(saved, sealed_marker()));
        let t2 = choose|t2: Result<Seq<char>, Seq<char>>|
            #![trigger decrypts_to(decrypt, saved.skip(4), t2)]
            decrypts_to(decrypt, saved.skip(4), t2) && loaded == loaded_key(saved, t2);
        assert(base64(v).len() > 0) by {
            assert(encoded_len(v.len()) >= 4) by (nonlinear_arith)
                requires
                    v.len() > 0,
                    encoded_len(v.len()) == (v.len() + 2) / 3 * 4,
            ;
        }
        let (b2, c2) = choose|b2: &[u8], c2: Result<Vec<u8>, String>|
            #![trigger call_ensures(decrypt, (b2,), c2)]
            b2@ == v && call_ensures(decrypt, (b2,), c2) && t2 == opened_text(bytes_result(c2));
        assert(c2 is Ok && c2->Ok_0@ == b@);
        vstd::utf8::encode_utf8_valid_utf8(plain);
        vstd::utf8::encode_utf8_decode_utf8(plain);
    }
}

/// Law: a configuration saved with a sealing service and loaded back with an
/// unsealing service that undoes it is the configuration that was saved:
/// every setting, the API key, and every provider key under its name.
pub proof fn lemma_config_roundtrip<
    F: Fn(&[u8]) -> Result<Vec<u8>, String>,
    G: Fn(&[u8]) -> Result<Vec<u8>, String>,
>(encrypt: F, decrypt: G, config: AppConfig, saved: AppConfig, loaded: AppConfig)
    requires
        services_invert(encrypt, decrypt),
        saves_config_to(encrypt, config, saved),
        loads_config_to(decrypt, saved, loaded),
    ensures
        same_config(loaded, config),
{
    lemma_key_service_roundtrip(encrypt, decrypt, config.api_key@, saved.api_key@, loaded.api_key@);
    assert forall|i: int| 0 <= i < loaded.provider_keys@.len() implies (
    #[trigger] loaded.provider_keys@[i]).0@ == config.provider_keys@[i].0@
        && loaded.provider_keys@[i].1@ == config.provider_keys@[i].1@ by {
        assert(saves_to(encrypt, config.provider_keys@[i].1@, Ok(saved.provider_keys@[i].1@)));
        assert(loads_to(decrypt, saved.provider_keys@[i].1@, loaded.provider_keys@[i].1@));
        lemma_key_service_roundtrip(
            encrypt,
            decrypt,
            config.provider_keys@[i].1@,
            saved.provider_keys@[i].1@,
            loaded.provider_keys@[i].1@,
        );
    }
}

// ---------------------------------------------------------------------
// Retries
// ---------------------------------------------------------------------

/// Attempts at each audio slice's transcription.
pub const TRANSCRIBE_ATTEMPTS: u32 = 3;

/// Seconds to wait before another attempt at a slice.
pub const TRANSCRIBE_RETRY_DELAY_SECS: u64 = 2;

/// Attempts at a chat request.
pub const CHAT_ATTEMPTS: u32 = 3;

/// Seconds to wait before another attempt at a chat request.
pub const CHAT_RETRY_DELAY_SECS: u64 = 3;

/// How many attempts a request has had, and how many it may have.
pub struct RetryBudget {
    made: u32,
    limit: u32,
}

impl RetryBudget {
    /// Attempts made so far.
    pub closed spec fn attempts_made(&self) -> nat {
        self.made as nat
    }

    /// Attempts allowed.
    pub closed spec fn attempts_allowed(&self) -> nat {
        self.limit as nat
    }

    /// A budget of `limit` attempts, none made.
    pub fn new(limit: u32) -> (b: Self)
        ensures
            b.attempts_made() == 0,
            b.attempts_allowed() == limit,
    {
        RetryBudget { made: 0, limit }
    }

    /// Whether another attempt may be made.
    pub fn may_attempt(&self) -> (b: bool)
        ensures
            b == (self.attempts_made() < self.attempts_allowed()),
    {
        self.made < self.limit
    }

    /// Records an attempt; it must be allowed.
    pub fn record_attempt(&mut self)
        requires
            old(self).attempts_made() < old(self).attempts_allowed(),
        ensures
            final(self).attempts_made() == old(self).attempts_made() + 1,
            final(self).attempts_allowed() == old(self).attempts_allowed(),
            final(self).attempts_made() <= final(self).attempts_allowed(),
    {
        self.made = self.made + 1;
    }

    /// Whether a wait comes before the next attempt: every attempt after the
    /// first is preceded by one.
    pub fn waits_before_next(&self) -> (b: bool)
        ensures
            b == (self.attempts_made() > 0),
    {
        self.made > 0
    }
}

} // verus!
