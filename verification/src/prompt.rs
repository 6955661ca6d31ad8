//! Prompt templates for the polishing step.
use vstd::prelude::*;

verus! {

/// A prompt template: a system text, and text put before and after the
/// user's input.
#[derive(Debug, Clone)]
pub struct PromptTemplate {
    pub system: String,
    pub user_prefix: String,
    pub user_suffix: String,
}

/// The system text of the default template.
pub open spec fn polish_system_text() -> Seq<char> {
    "你是一个专业的文本润色助手。请对用户提供的语音转文字结果进行润色，修正错别字、调整语序、补充标点，使其更加通顺自然。保持原意不变，不要添加额外内容。"@
}

/// The system text of the punctuation template.
pub open spec fn punctuation_system_text() -> Seq<char> {
    "你是一个文本处理助手。请为用户提供的文本补充适当的标点符号，使其更易阅读。只添加标点，不要修改文本内容。"@
}

/// The prompt built from a template and an input: the system text and a blank
/// line, the prefix and a line break, the input, then a line break and the
/// suffix; each of system, prefix and suffix only when it is not empty.
pub open spec fn prompt_text(
    system: Seq<char>,
    prefix: Seq<char>,
    input: Seq<char>,
    suffix: Seq<char>,
) -> Seq<char> {
    (if system.len() > 0 {
        system + "\n\n"@
    } else {
        seq![]
    }) + (if prefix.len() > 0 {
        prefix + "\n"@
    } else {
        seq![]
    }) + input + (if suffix.len() > 0 {
        "\n"@ + suffix
    } else {
        seq![]
    })
}

impl Default for PromptTemplate {
    fn default() -> (t: Self)
        ensures
            t.system@ == polish_system_text(),
            t.user_prefix@.len() == 0,
            t.user_suffix@.len() == 0,
    {
        PromptTemplate {
            system: String::from_str(
                "你是一个专业的文本润色助手。请对用户提供的语音转文字结果进行润色，修正错别字、调整语序、补充标点，使其更加通顺自然。保持原意不变，不要添加额外内容。",
            ),
            user_prefix: String::new(),
            user_suffix: String::new(),
        }
    }
}

/// Builds the full prompt for an input.
pub fn build_prompt(template: &PromptTemplate, user_input: &str) -> (p: String)
    ensures
        p@ == prompt_text(
            template.system@,
            template.user_prefix@,
            user_input@,
            template.user_suffix@,
        ),
{
    let mut prompt = String::new();
    if !template.system.as_str().is_empty() {
        prompt.append(template.system.as_str());
        prompt.append("\n\n");
    }
    if !template.user_prefix.as_str().is_empty() {
        prompt.append(template.user_prefix.as_str());
        prompt.append("\n");
    }
    prompt.append(user_input);
    if !template.user_suffix.as_str().is_empty() {
        prompt.append("\n");
        prompt.append(template.user_suffix.as_str());
    }
    assert(prompt@ =~= prompt_text(
        template.system@,
        template.user_prefix@,
        user_input@,
        template.user_suffix@,
    ));
    prompt
}

/// The default template for polishing a transcript.
pub fn default_transcription_template() -> (t: PromptTemplate)
    ensures
        t.system@ == polish_system_text(),
        t.user_prefix@ == "请润色以下语音转文字结果："@,
        t.user_suffix@.len() == 0,
{
    PromptTemplate {
        system: String::from_str(
            "你是一个专业的文本润色助手。请对用户提供的语音转文字结果进行润色，修正错别字、调整语序、补充标点，使其更加通顺自然。保持原意不变，不要添加额外内容。",
        ),
        user_prefix: String::from_str("请润色以下语音转文字结果："),
        user_suffix: String::new(),
    }
}

/// The default template for restoring punctuation.
pub fn default_punctuation_template() -> (t: PromptTemplate)
    ensures
        t.system@ == punctuation_system_text(),
        t.user_prefix@ == "请为以下文本添加标点："@,
        t.user_suffix@.len() == 0,
{
    PromptTemplate {
        system: String::from_str(
            "你是一个文本处理助手。请为用户提供的文本补充适当的标点符号，使其更易阅读。只添加标点，不要修改文本内容。",
        ),
        user_prefix: String::from_str("请为以下文本添加标点："),
        user_suffix: String::new(),
    }
}

/// Whether `s` begins with `p`.
pub open spec fn begins_with(s: Seq<char>, p: Seq<char>) -> bool {
    p.len() <= s.len() && s.take(p.len() as int) == p
}

/// Whether `s` ends with `p`.
pub open spec fn ends_with(s: Seq<char>, p: Seq<char>) -> bool {
    p.len() <= s.len() && s.skip(s.len() - p.len()) == p
}

/// Law: how a prompt is laid out. A non-empty system text comes first,
/// followed by a blank line; the input comes after the prefix and its line
/// break (when there is a prefix), and is followed only by a line break and
/// the suffix (when there is one); nothing else is added, so the length is
/// the sum of the parts.
pub proof fn lemma_prompt_layout(
    system: Seq<char>,
    prefix: Seq<char>,
    input: Seq<char>,
    suffix: Seq<char>,
)
    ensures
        system.len() > 0 ==> begins_with(prompt_text(system, prefix, input, suffix), system + "\n\n"@),
        system.len() == 0 && prefix.len() > 0 ==> begins_with(
            prompt_text(system, prefix, input, suffix),
            prefix + "\n"@,
        ),
        system.len() == 0 && prefix.len() == 0 ==> begins_with(
            prompt_text(system, prefix, input, suffix),
            input,
        ),
        suffix.len() == 0 && prefix.len() > 0 ==> ends_with(
            prompt_text(system, prefix, input, suffix),
            prefix + "\n"@ + input,
        ),
        suffix.len() == 0 ==> ends_with(prompt_text(system, prefix, input, suffix), input),
        suffix.len() > 0 ==> ends_with(
            prompt_text(system, prefix, input, suffix),
            input + "\n"@ + suffix,
        ),
        suffix.len() > 0 && prefix.len() > 0 ==> ends_with(
            prompt_text(system, prefix, input, suffix),
            prefix + "\n"@ + input + "\n"@ + suffix,
        ),
        prompt_text(system, prefix, input, suffix).len() == (if system.len() > 0 {
            system.len() + 2
        } else {
            0
        }) + (if prefix.len() > 0 {
            prefix.len() + 1
        } else {
            0
        }) + input.len() + (if suffix.len() > 0 {
            suffix.len() + 1
        } else {
            0
        }),
{
    reveal_strlit("\n\n");
    reveal_strlit("\n");
    let p = prompt_text(system, prefix, input, suffix);
    let a = if system.len() > 0 { system + "\n\n"@ } else { seq![] };
    let b = if prefix.len() > 0 { prefix + "\n"@ } else { seq![] };
    let c = if suffix.len() > 0 { "\n"@ + suffix } else { seq![] };
    assert(p == a + b + input + c);
    assert(p.take(a.len() as int) =~= a);
    assert((a + b + input + c).take((a + b).len() as int) =~= a + b);
    if system.len() == 0 {
        assert(a =~= Seq::<char>::empty());
        assert(p =~= b + input + c);
        assert(p.take(b.len() as int) =~= b);
        if prefix.len() == 0 {
            assert(b =~= Seq::<char>::empty());
            assert(p =~= input + c);
            assert(p.take(input.len() as int) =~= input);
        }
    }
    assert(p.skip(p.len() - c.len()) =~= c);
    assert(p.skip(p.len() - (input + c).len()) =~= input + c);
    assert(p.skip(p.len() - (b + input + c).len()) =~= b + input + c);
    if suffix.len() == 0 {
        assert(c =~= Seq::<char>::empty());
        assert(input + c =~= input);
        assert(b + input + c =~= b + input);
    } else {
        assert(input + c =~= input + "\n"@ + suffix);
        assert(b + input + c =~= b + input + "\n"@ + suffix);
    }
}

} // verus!
