//! The API providers the application knows.
use vstd::prelude::*;
use crate::text::starts_with;

verus! {

/// An API provider.
#[derive(Debug, Clone)]
pub enum ServiceProvider {
    MimoApi,
    MimoTokenPlan,
    DeepSeek,
}

/// The display name of a provider.
pub open spec fn provider_name(p: ServiceProvider) -> Seq<char> {
    match p {
        ServiceProvider::MimoApi => "MiMo API"@,
        ServiceProvider::MimoTokenPlan => "MiMo Token Plan"@,
        ServiceProvider::DeepSeek => "DeepSeek"@,
    }
}

impl ServiceProvider {
    /// The display name of this provider.
    pub fn display_name(&self) -> (s: String)
        ensures
            s@ == provider_name(*self),
    {
        match self {
            ServiceProvider::MimoApi => String::from_str("MiMo API"),
            ServiceProvider::MimoTokenPlan => String::from_str("MiMo Token Plan"),
            ServiceProvider::DeepSeek => String::from_str("DeepSeek"),
        }
    }
}

/// A provider's settings as the user interface lists them.
#[derive(Debug, Clone)]
pub struct ProviderInfo {
    pub id: String,
    pub name: String,
    pub base_url: String,
    pub key_prefix: String,
    pub asr_models: Vec<String>,
    pub chat_models: Vec<String>,
}

impl ProviderInfo {
    /// A copy of this entry.
    pub fn copy(&self) -> (c: Self)
        ensures
            provider_entry(c) == provider_entry(*self),
    {
        ProviderInfo {
            id: self.id.clone(),
            name: self.name.clone(),
            base_url: self.base_url.clone(),
            key_prefix: self.key_prefix.clone(),
            asr_models: copy_strings(&self.asr_models),
            chat_models: copy_strings(&self.chat_models),
        }
    }
}

/// A copy of a list of strings.
pub fn copy_strings(v: &Vec<String>) -> (c: Vec<String>)
    ensures
        strings_view(c@) == strings_view(v@),
{
    let mut c: Vec<String> = Vec::new();
    let mut i: usize = 0;
    while i < v.len()
        invariant
            i <= v@.len(),
            c@.len() == i,
            forall|j: int| 0 <= j < i ==> #[trigger] c@[j]@ == v@[j]@,
        decreases v@.len() - i,
    {
        c.push(v[i].clone());
        i = i + 1;
    }
    assert(strings_view(c@) =~= strings_view(v@));
    c
}

/// The view of a list of strings.
pub open spec fn strings_view(v: Seq<String>) -> Seq<Seq<char>> {
    v.map_values(|s: String| s@)
}

/// The abstract content of a provider entry.
pub struct ProviderEntry {
    pub id: Seq<char>,
    pub name: Seq<char>,
    pub base_url: Seq<char>,
    pub key_prefix: Seq<char>,
    pub asr_models: Seq<Seq<char>>,
    pub chat_models: Seq<Seq<char>>,
}

/// The view of a provider entry.
pub open spec fn provider_entry(p: ProviderInfo) -> ProviderEntry {
    ProviderEntry {
        id: p.id@,
        name: p.name@,
        base_url: p.base_url@,
        key_prefix: p.key_prefix@,
        asr_models: strings_view(p.asr_models@),
        chat_models: strings_view(p.chat_models@),
    }
}

/// The providers, in the order they are offered.
pub open spec fn known_providers() -> Seq<ProviderEntry> {
    seq![
        ProviderEntry {
            id: "mimo-api"@,
            name: "MiMo API"@,
            base_url: "https://api.xiaomimimo.com/v1"@,
            key_prefix: "sk-"@,
            asr_models: seq!["mimo-v2.5-asr"@],
            chat_models: seq!["mimo-v2.5"@, "mimo-v2.5-pro"@],
        },
        ProviderEntry {
            id: "mimo-token-plan"@,
            name: "MiMo Token Plan"@,
            base_url: "https://token-plan-cn.xiaomimimo.com/v1"@,
            key_prefix: "tp-"@,
            asr_models: seq!["mimo-v2.5-asr"@],
            chat_models: seq!["mimo-v2.5"@, "mimo-v2.5-pro"@],
        },
        ProviderEntry {
            id: "deepseek"@,
            name: "DeepSeek"@,
            base_url: "https://api.deepseek.com"@,
            key_prefix: "sk-"@,
            asr_models: seq![],
            chat_models: seq!["deepseek-v4-pro"@, "deepseek-v4-flash"@],
        },
    ]
}

/// Whether `s` starts with `p`.
pub open spec fn has_prefix(s: Seq<char>, p: Seq<char>) -> bool {
    p.len() <= s.len() && s.take(p.len() as int) == p
}

/// The provider guessed from a key: `tp-` keys belong to the token plan; all
/// others (`sk-` keys of DeepSeek cannot be told apart) to the MiMo API.
pub open spec fn provider_for_key(api_key: Seq<char>) -> ServiceProvider {
    if has_prefix(api_key, "tp-"@) {
        ServiceProvider::MimoTokenPlan
    } else {
        ServiceProvider::MimoApi
    }
}

/// Guesses the provider from an API key's prefix.
pub fn detect_provider(api_key: &str) -> (p: ServiceProvider)
    ensures
        p == provider_for_key(api_key@),
{
    if starts_with(api_key, "tp-") {
        ServiceProvider::MimoTokenPlan
    } else if starts_with(api_key, "sk-") {
        ServiceProvider::MimoApi
    } else {
        ServiceProvider::MimoApi
    }
}

/// A vector of one model name.
fn one_name(a: &str) -> (v: Vec<String>)
    ensures
        strings_view(v@) == seq![a@],
{
    let mut v: Vec<String> = Vec::new();
    v.push(a.to_owned());
    assert(strings_view(v@) =~= seq![a@]);
    v
}

/// A vector of two model names.
fn two_names(a: &str, b: &str) -> (v: Vec<String>)
    ensures
        strings_view(v@) == seq![a@, b@],
{
    let mut v: Vec<String> = Vec::new();
    v.push(a.to_owned());
    v.push(b.to_owned());
    assert(strings_view(v@) =~= seq![a@, b@]);
    v
}

/// All providers.
pub fn get_providers() -> (v: Vec<ProviderInfo>)
    ensures
        v@.map_values(|p: ProviderInfo| provider_entry(p)) == known_providers(),
{
    let mimo = ProviderInfo {
        id: String::from_str("mimo-api"),
        name: String::from_str("MiMo API"),
        base_url: String::from_str("https://api.xiaomimimo.com/v1"),
        key_prefix: String::from_str("sk-"),
        asr_models: one_name("mimo-v2.5-asr"),
        chat_models: two_names("mimo-v2.5", "mimo-v2.5-pro"),
    };
    let plan = ProviderInfo {
        id: String::from_str("mimo-token-plan"),
        name: String::from_str("MiMo Token Plan"),
        base_url: String::from_str("https://token-plan-cn.xiaomimimo.com/v1"),
        key_prefix: String::from_str("tp-"),
        asr_models: one_name("mimo-v2.5-asr"),
        chat_models: two_names("mimo-v2.5", "mimo-v2.5-pro"),
    };
    let deepseek = ProviderInfo {
        id: String::from_str("deepseek"),
        name: String::from_str("DeepSeek"),
        base_url: String::from_str("https://api.deepseek.com"),
        key_prefix: String::from_str("sk-"),
        asr_models: Vec::new(),
        chat_models: two_names("deepseek-v4-pro", "deepseek-v4-flash"),
    };
    let mut v: Vec<ProviderInfo> = Vec::new();
    v.push(mimo);
    v.push(plan);
    v.push(deepseek);
    assert(strings_view(v@[0].asr_models@) =~= seq!["mimo-v2.5-asr"@]);
    assert(strings_view(v@[0].chat_models@) =~= seq!["mimo-v2.5"@, "mimo-v2.5-pro"@]);
    assert(strings_view(v@[1].asr_models@) =~= seq!["mimo-v2.5-asr"@]);
    assert(strings_view(v@[1].chat_models@) =~= seq!["mimo-v2.5"@, "mimo-v2.5-pro"@]);
    assert(strings_view(v@[2].asr_models@) =~= Seq::<Seq<char>>::empty());
    assert(strings_view(v@[2].chat_models@) =~= seq!["deepseek-v4-pro"@, "deepseek-v4-flash"@]);
    assert(v@.map_values(|p: ProviderInfo| provider_entry(p)) =~= known_providers());
    v
}

} // verus!
