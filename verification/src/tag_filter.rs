//! Streaming tag filter for model output: `<think>...</think>` blocks are
//! dropped whole, other tags such as `<chinese>` lose only the tag itself,
//! and a tag split across chunks is buffered until it is complete.
use vstd::prelude::*;
use vstd::utf8::is_ascii_chars;
use crate::text::{
    ascii_lower, is_white_space, trim_end, trim_start, word_len,
    chars_of, first_word, first_word_chars, lacks, lowercase, push_char, str_eq, to_lowercase,
    trim, trim_chars,
};

verus! {

/// The abstract state of a filter.
pub struct FilterState {
    /// Inside a `<think>` block, whose text is dropped.
    pub skipping: bool,
    /// The characters of the tag being collected.
    pub tag_buf: Seq<char>,
    /// A tag is being collected.
    pub in_tag: bool,
    /// The tag being collected began with `</` (inside a skipped block).
    pub in_close_tag: bool,
    /// The name of the block being skipped.
    pub skip_tag: Seq<char>,
}

/// The state of a new filter.
pub open spec fn initial_state() -> FilterState {
    FilterState {
        skipping: false,
        tag_buf: seq![],
        in_tag: false,
        in_close_tag: false,
        skip_tag: seq![],
    }
}

/// The lowercased name of an opening tag `<name ...>`: the first word between
/// the brackets; `None` when there is no word.
pub open spec fn open_tag_name(tag: Seq<char>) -> Option<Seq<char>> {
    if tag.len() >= 2 && tag[0] == '<' && tag.last() == '>' {
        match first_word(tag.subrange(1, tag.len() - 1)) {
            Some(w) => {
                let n = lowercase(trim(w));
                if n.len() == 0 {
                    None
                } else {
                    Some(n)
                }
            },
            None => None,
        }
    } else {
        None
    }
}

/// The lowercased, trimmed name of a closing tag `</name>`; `None` when it
/// is empty.
pub open spec fn close_tag_name(tag: Seq<char>) -> Option<Seq<char>> {
    if tag.len() >= 3 && tag[0] == '<' && tag[1] == '/' && tag.last() == '>' {
        let n = lowercase(trim(tag.subrange(2, tag.len() - 1)));
        if n.len() == 0 {
            None
        } else {
            Some(n)
        }
    } else {
        None
    }
}

/// The state after `ch` begins a new tag.
pub open spec fn start_tag(s: FilterState) -> FilterState {
    FilterState { tag_buf: seq!['<'], in_tag: true, in_close_tag: false, ..s }
}

/// The state after the tag being collected is dropped.
pub open spec fn end_tag(s: FilterState) -> FilterState {
    FilterState { tag_buf: seq![], in_tag: false, ..s }
}

/// One character of input: the next state and what is output.
pub open spec fn step(s: FilterState, ch: char) -> (FilterState, Seq<char>) {
    if !s.skipping {
        if ch == '<' {
            (start_tag(s), seq![])
        } else if s.in_tag {
            let buf = s.tag_buf.push(ch);
            if ch == '>' {
                match open_tag_name(buf) {
                    Some(name) => if name == "think"@ {
                        (FilterState { skipping: true, skip_tag: name, ..end_tag(s) }, seq![])
                    } else {
                        (end_tag(s), seq![])
                    },
                    None => match close_tag_name(buf) {
                        Some(_) => (end_tag(s), seq![]),
                        None => (end_tag(s), buf),
                    },
                }
            } else {
                (FilterState { tag_buf: buf, ..s }, seq![])
            }
        } else {
            (s, seq![ch])
        }
    } else {
        if ch == '<' {
            (start_tag(s), seq![])
        } else if s.in_tag {
            let buf = s.tag_buf.push(ch);
            if ch == '/' && buf == "</"@ {
                (FilterState { tag_buf: buf, in_close_tag: true, ..s }, seq![])
            } else if ch == '>' && s.in_close_tag {
                if close_tag_name(buf) == Some(s.skip_tag) {
                    (FilterState { skipping: false, skip_tag: seq![], ..end_tag(s) }, seq![])
                } else {
                    (end_tag(s), seq![])
                }
            } else {
                (FilterState { tag_buf: buf, ..s }, seq![])
            }
        } else {
            (s, seq![])
        }
    }
}

/// The state and output after a sequence of characters, one at a time.
pub open spec fn run(s: FilterState, input: Seq<char>) -> (FilterState, Seq<char>)
    decreases input.len(),
{
    if input.len() == 0 {
        (s, seq![])
    } else {
        let (s1, o1) = run(s, input.drop_last());
        let (s2, o2) = step(s1, input.last());
        (s2, o1 + o2)
    }
}

/// The end-of-chunk tidying: a buffer left outside a tag is dropped.
pub open spec fn tidy(s: FilterState) -> FilterState {
    if !s.in_tag && s.tag_buf.len() > 0 {
        FilterState { tag_buf: seq![], ..s }
    } else {
        s
    }
}

/// The state and output after one chunk of input.
pub open spec fn process_chunk(s: FilterState, input: Seq<char>) -> (FilterState, Seq<char>) {
    let (s1, o) = run(s, input);
    (tidy(s1), o)
}

/// The states a filter can be in: outside a tag nothing is buffered.
pub open spec fn inv(s: FilterState) -> bool {
    !s.in_tag ==> s.tag_buf.len() == 0
}

/// Filter mode.
pub enum FilterMode {
    /// Output text.
    Normal,
    /// Drop text (inside a `<think>` block).
    SkipContent,
}

/// The fields of a filter.
struct FilterFields {
    mode: FilterMode,
    tag_buf: String,
    in_tag: bool,
    in_close_tag: bool,
    skip_tag: String,
}

impl FilterFields {
    /// The abstract state these fields hold.
    spec fn fstate(&self) -> FilterState {
        FilterState {
            skipping: self.mode is SkipContent,
            tag_buf: self.tag_buf@,
            in_tag: self.in_tag,
            in_close_tag: self.in_close_tag,
            skip_tag: self.skip_tag@,
        }
    }

    /// The fields of a new filter.
    fn empty() -> (f: Self)
        ensures
            f.fstate() == initial_state(),
    {
        FilterFields {
            mode: FilterMode::Normal,
            tag_buf: String::new(),
            in_tag: false,
            in_close_tag: false,
            skip_tag: String::new(),
        }
    }
}

/// A streaming tag filter. It is always in a state that `inv` admits.
pub struct TagFilter {
    fields: FilterFields,
}

impl TagFilter {
    /// The abstract state of this filter.
    pub closed spec fn state(&self) -> FilterState {
        self.fields.fstate()
    }

    #[verifier::type_invariant]
    spec fn reachable(&self) -> bool {
        inv(self.state())
    }

    /// A filter in its initial state.
    pub fn new() -> (f: Self)
        ensures
            f.state() == initial_state(),
            inv(f.state()),
    {
        TagFilter { fields: FilterFields::empty() }
    }

    /// Filters one chunk of text, returning what passes.
    pub fn process(&mut self, input: &str) -> (output: String)
        ensures
            (final(self).state(), output@) == process_chunk(old(self).state(), input@),
            inv(final(self).state()),
    {
        proof {
            use_type_invariant(&*self);
        }
        let mut f = FilterFields::empty();
        std::mem::swap(&mut f, &mut self.fields);
        let chars = chars_of(input);
        let mut output = String::new();
        let ghost s0 = f.fstate();
        let mut i: usize = 0;
        while i < chars.len()
            invariant
                chars@ == input@,
                i <= chars@.len(),
                (f.fstate(), output@) == run(s0, chars@.take(i as int)),
            decreases chars@.len() - i,
        {
            let ch = chars[i];
            let ghost before = f.fstate();
            let ghost out_before = output@;
            assert(chars@.take(i + 1).drop_last() == chars@.take(i as int));
            assert(chars@.take(i + 1).last() == ch);
            match f.mode {
                FilterMode::Normal => {
                    if ch == '<' {
                        f.tag_buf = String::new();
                        push_char(&mut f.tag_buf, ch);
                        f.in_tag = true;
                        f.in_close_tag = false;
                    } else if f.in_tag {
                        push_char(&mut f.tag_buf, ch);
                        if ch == '>' {
                            f.in_tag = false;
                            let tag = f.tag_buf.clone();
                            match Self::parse_tag(tag.as_str(), false) {
                                Some(name) => {
                                    if str_eq(name.as_str(), "think") {
                                        f.mode = FilterMode::SkipContent;
                                        f.skip_tag = name;
                                        f.tag_buf = String::new();
                                    } else {
                                        f.tag_buf = String::new();
                                    }
                                },
                                None => {
                                    match Self::parse_tag(tag.as_str(), true) {
                                        Some(_) => {
                                            f.tag_buf = String::new();
                                        },
                                        None => {
                                            output.append(f.tag_buf.as_str());
                                            f.tag_buf = String::new();
                                        },
                                    }
                                },
                            }
                        }
                    } else {
                        push_char(&mut output, ch);
                    }
                },
                FilterMode::SkipContent => {
                    if ch == '<' {
                        f.tag_buf = String::new();
                        push_char(&mut f.tag_buf, ch);
                        f.in_tag = true;
                        f.in_close_tag = false;
                    } else if f.in_tag {
                        push_char(&mut f.tag_buf, ch);
                        if ch == '/' && str_eq(f.tag_buf.as_str(), "</") {
                            f.in_close_tag = true;
                        } else if ch == '>' && f.in_close_tag {
                            f.in_tag = false;
                            match Self::parse_tag(f.tag_buf.as_str(), true) {
                                Some(name) => {
                                    if name == f.skip_tag {
                                        f.mode = FilterMode::Normal;
                                        f.skip_tag = String::new();
                                    }
                                },
                                None => {},
                            }
                            f.tag_buf = String::new();
                        }
                    }
                },
            }
            assert(f.fstate().skipping == step(before, ch).0.skipping);
            assert(f.fstate().in_tag == step(before, ch).0.in_tag);
            assert(f.fstate().in_close_tag == step(before, ch).0.in_close_tag);
            assert(f.fstate().tag_buf =~= step(before, ch).0.tag_buf);
            assert(f.fstate().skip_tag =~= step(before, ch).0.skip_tag);
            assert(output@ =~= out_before + step(before, ch).1);
            i = i + 1;
        }
        assert(chars@.take(chars@.len() as int) == chars@);
        if !f.in_tag && !f.tag_buf.as_str().is_empty() {
            f.tag_buf = String::new();
        }
        proof {
            lemma_run_inv(s0, input@);
        }
        self.fields = f;
        output
    }

    /// The lowercased name of a tag: an opening tag `<name ...>` when `close`
    /// is false, a closing tag `</name>` when it is true.
    pub fn parse_tag(tag: &str, close: bool) -> (r: Option<String>)
        ensures
            match r {
                Some(n) => (if close {
                    close_tag_name(tag@)
                } else {
                    open_tag_name(tag@)
                }) == Some(n@),
                None => (if close {
                    close_tag_name(tag@)
                } else {
                    open_tag_name(tag@)
                }) is None,
            },
    {
        let v = chars_of(tag);
        let n = v.len();
        if close {
            if n >= 3 && v[0] == '<' && v[1] == '/' && v[n - 1] == '>' {
                let content = trim_chars(&v, 2, n - 1);
                let name = to_lowercase(content.as_str());
                if name.as_str().is_empty() {
                    None
                } else {
                    Some(name)
                }
            } else {
                None
            }
        } else {
            if n >= 2 && v[0] == '<' && v[n - 1] == '>' {
                match first_word_chars(&v, 1, n - 1) {
                    Some(w) => {
                        let wv = chars_of(w.as_str());
                        let t = trim_chars(&wv, 0, wv.len());
                        assert(wv@.subrange(0, wv@.len() as int) == wv@);
                        let name = to_lowercase(t.as_str());
                        if name.as_str().is_empty() {
                            None
                        } else {
                            Some(name)
                        }
                    },
                    None => None,
                }
            } else {
                None
            }
        }
    }
}

/// Running over `a + b` is running over `a`, then over `b` from where `a`
/// left off.
pub proof fn lemma_run_append(s: FilterState, a: Seq<char>, b: Seq<char>)
    ensures
        run(s, a + b) == (run(run(s, a).0, b).0, run(s, a).1 + run(run(s, a).0, b).1),
    decreases b.len(),
{
    if b.len() == 0 {
        assert(a + b =~= a);
        assert(run(s, a).1 + Seq::<char>::empty() =~= run(s, a).1);
    } else {
        lemma_run_append(s, a, b.drop_last());
        assert((a + b).drop_last() =~= a + b.drop_last());
        assert((a + b).last() == b.last());
        let (s1, o1) = run(s, a);
        let (s2, o2) = run(s1, b.drop_last());
        let (s3, o3) = step(s2, b.last());
        assert(o1 + o2 + o3 =~= o1 + (o2 + o3));
    }
}

proof fn lemma_step_inv(s: FilterState, ch: char)
    requires
        inv(s),
    ensures
        inv(step(s, ch).0),
{
}

proof fn lemma_run_inv(s: FilterState, a: Seq<char>)
    requires
        inv(s),
    ensures
        inv(run(s, a).0),
    decreases a.len(),
{
    if a.len() > 0 {
        lemma_run_inv(s, a.drop_last());
        lemma_step_inv(run(s, a.drop_last()).0, a.last());
    }
}

/// A new filter is in a reachable state.
pub proof fn lemma_initial_inv()
    ensures
        inv(initial_state()),
{
}

/// Law: filtering a stream chunk by chunk gives the same state and the same
/// text as filtering the chunks joined, wherever the chunk boundaries fall
/// (a tag split across chunks is handled as if it were whole).
pub proof fn lemma_process_chunks(s: FilterState, a: Seq<char>, b: Seq<char>)
    requires
        inv(s),
    ensures
        inv(process_chunk(s, a).0),
        process_chunk(process_chunk(s, a).0, b).0 == process_chunk(s, a + b).0,
        process_chunk(s, a).1 + process_chunk(process_chunk(s, a).0, b).1 == process_chunk(
            s,
            a + b,
        ).1,
{
    lemma_run_inv(s, a);
    let s1 = run(s, a).0;
    assert(tidy(s1) == s1);
    lemma_run_append(s, a, b);
    lemma_run_inv(s, a + b);
}

/// Law: outside tags and outside a skipped block, text without `<` passes
/// unchanged and leaves the state as it was.
pub proof fn lemma_plain_text_passes(s: FilterState, a: Seq<char>)
    requires
        inv(s),
        !s.skipping,
        !s.in_tag,
        lacks(a, '<'),
    ensures
        process_chunk(s, a) == (s, a),
    decreases a.len(),
{
    if a.len() > 0 {
        assert(lacks(a.drop_last(), '<'));
        lemma_plain_text_passes(s, a.drop_last());
        assert(a.last() != '<');
        assert(a.drop_last().push(a.last()) =~= a);
    }
}

/// Law: inside a skipped block, text without `<` is dropped and leaves the
/// state as it was.
pub proof fn lemma_skipped_text_dropped(s: FilterState, a: Seq<char>)
    requires
        inv(s),
        s.skipping,
        !s.in_tag,
        lacks(a, '<'),
    ensures
        process_chunk(s, a) == (s, Seq::<char>::empty()),
    decreases a.len(),
{
    if a.len() > 0 {
        assert(lacks(a.drop_last(), '<'));
        lemma_skipped_text_dropped(s, a.drop_last());
        assert(a.last() != '<');
        assert(Seq::<char>::empty() + Seq::<char>::empty() =~= Seq::<char>::empty());
    }
}

/// Whether no character of `w` is white space, `<` or `>`.
pub open spec fn is_plain_word(w: Seq<char>) -> bool {
    forall|i: int| 0 <= i < w.len() ==> !is_white_space(#[trigger] w[i]) && w[i] != '<' && w[i]
        != '>'
}

proof fn lemma_plain_word(w: Seq<char>)
    requires
        is_plain_word(w),
    ensures
        trim_start(w) == w,
        trim_end(w) == w,
        word_len(w) == w.len(),
        w.len() > 0 ==> first_word(w) == Some(w),
        trim(w) == w,
    decreases w.len(),
{
    if w.len() > 0 {
        assert(is_plain_word(w.drop_first()));
        lemma_plain_word(w.drop_first());
        assert(!is_white_space(w[0]));
        assert(!is_white_space(w.last()));
        assert(w.take(w.len() as int) =~= w);
    }
}

proof fn lemma_collect_tag(s: FilterState, w: Seq<char>)
    requires
        s.in_tag,
        !s.skipping || s.tag_buf.len() >= 2,
        is_plain_word(w),
    ensures
        run(s, w) == (FilterState { tag_buf: s.tag_buf + w, ..s }, Seq::<char>::empty()),
    decreases w.len(),
{
    reveal_strlit("</");
    if w.len() == 0 {
        assert(s.tag_buf + w =~= s.tag_buf);
    } else {
        assert(is_plain_word(w.drop_last()));
        lemma_collect_tag(s, w.drop_last());
        assert(w[w.len() - 1] != '<' && w[w.len() - 1] != '>');
        assert(s.tag_buf + w.drop_last() + seq![w.last()] =~= s.tag_buf + w);
        let buf = (s.tag_buf + w.drop_last()).push(w.last());
        assert(buf.len() >= 3 ==> buf != "</"@);
        assert(buf =~= s.tag_buf + w);
        assert(Seq::<char>::empty() + Seq::<char>::empty() =~= Seq::<char>::empty());
    }
}

/// Law: a `<think> ... </think>` block whose text holds no `<` is dropped
/// whole from plain text, and the filter is back outside any block.
pub proof fn lemma_think_block_dropped(s: FilterState, x: Seq<char>)
    requires
        inv(s),
        !s.skipping,
        !s.in_tag,
        lacks(x, '<'),
    ensures
        process_chunk(
            s,
            seq!['<'] + "think"@ + seq!['>'] + x + seq!['<', '/'] + "think"@ + seq!['>'],
        ) == (
            FilterState {
                skipping: false,
                tag_buf: seq![],
                in_tag: false,
                in_close_tag: true,
                skip_tag: seq![],
            },
            Seq::<char>::empty(),
        ),
{
    reveal_strlit("think");
    reveal_strlit("</");
    let t = "think"@;
    assert(t =~= seq!['t', 'h', 'i', 'n', 'k']);
    assert(is_plain_word(t));
    lemma_plain_word(t);
    assert(is_ascii_chars(t));
    assert(ascii_lower(t) =~= t);
    let e = Seq::<char>::empty();
    // "<think" collected
    let s1 = start_tag(s);
    assert(run(s, seq!['<']) == (s1, e)) by {
        assert(seq!['<'].drop_last() =~= e);
        assert(run(s, e) == (s, e));
        assert(seq!['<'].last() == '<');
        assert(e + e =~= e);
    }
    lemma_collect_tag(s1, t);
    let s2 = FilterState { tag_buf: seq!['<'] + t, ..s1 };
    // ">" enters the skipped block
    let open = (seq!['<'] + t).push('>');
    assert(open.subrange(1, open.len() - 1) =~= t);
    assert(open_tag_name(open) == Some(t));
    let s3 = FilterState { skipping: true, skip_tag: t, ..end_tag(s2) };
    assert(run(s2, seq!['>']) == (s3, e)) by {
        assert(seq!['>'].drop_last() =~= e);
        assert(run(s2, e) == (s2, e));
        assert(seq!['>'].last() == '>');
        assert(s2.tag_buf.push('>') =~= open);
        assert(e + e =~= e);
    }
    // the block's text
    lemma_skipped_text_dropped(s3, x);
    lemma_run_inv(s3, x);
    assert(run(s3, x) == (s3, e));
    // "</think" collected
    let s4 = FilterState { tag_buf: seq!['<', '/'], in_close_tag: true, ..start_tag(s3) };
    assert(run(s3, seq!['<', '/']) == (s4, e)) by {
        assert(seq!['<', '/'].drop_last() =~= seq!['<']);
        assert(seq!['<'].drop_last() =~= e);
        assert(run(s3, e) == (s3, e));
        assert(seq!['<'].last() == '<');
        assert(run(s3, seq!['<']) == (start_tag(s3), e));
        assert(seq!['<', '/'].last() == '/');
        assert(seq!['<'].push('/') =~= "</"@);
        assert("</"@ =~= seq!['<', '/']);
        assert(start_tag(s3).tag_buf.push('/') =~= seq!['<', '/']);
        assert(step(start_tag(s3), '/') == (s4, e));
        assert(e + e =~= e);
    }
    lemma_collect_tag(s4, t);
    let s5 = FilterState { tag_buf: seq!['<', '/'] + t, ..s4 };
    // ">" leaves the block
    let close = (seq!['<', '/'] + t).push('>');
    assert(close.subrange(2, close.len() - 1) =~= t);
    assert(close_tag_name(close) == Some(t));
    assert(run(s5, seq!['>']) == (
        FilterState { skipping: false, skip_tag: seq![], ..end_tag(s5) },
        e,
    )) by {
        assert(seq!['>'].drop_last() =~= e);
        assert(run(s5, e) == (s5, e));
        assert(seq!['>'].last() == '>');
        assert(s5.tag_buf.push('>') =~= close);
        assert(e + e =~= e);
        assert(close.len() >= 3 && close != "</"@);
    }
    // joining the pieces
    let p1 = seq!['<'];
    let p2 = p1 + t;
    let p3 = p2 + seq!['>'];
    let p4 = p3 + x;
    let p5 = p4 + seq!['<', '/'];
    let p6 = p5 + t;
    let p7 = p6 + seq!['>'];
    lemma_run_append(s, p1, t);
    lemma_run_append(s, p2, seq!['>']);
    lemma_run_append(s, p3, x);
    lemma_run_append(s, p4, seq!['<', '/']);
    lemma_run_append(s, p5, t);
    lemma_run_append(s, p6, seq!['>']);
    assert(e + e =~= e);
}

proof fn lemma_single(s: FilterState, ch: char)
    ensures
        run(s, seq![ch]) == step(s, ch),
{
    assert(seq![ch].drop_last() =~= Seq::<char>::empty());
    assert(run(s, Seq::<char>::empty()) == (s, Seq::<char>::empty()));
    assert(seq![ch].last() == ch);
    assert(Seq::<char>::empty() + step(s, ch).1 =~= step(s, ch).1);
}

/// A complete tag `<w>` met outside any block is dropped.
proof fn lemma_tag_dropped(s: FilterState, w: Seq<char>)
    requires
        !s.skipping,
        w.len() > 0,
        is_plain_word(w),
        is_ascii_chars(w),
        ascii_lower(w) != "think"@,
    ensures
        run(s, seq!['<'] + w + seq!['>']) == (
            FilterState { tag_buf: seq![], in_tag: false, in_close_tag: false, ..s },
            Seq::<char>::empty(),
        ),
{
    let e = Seq::<char>::empty();
    lemma_plain_word(w);
    let s1 = start_tag(s);
    lemma_single(s, '<');
    lemma_collect_tag(s1, w);
    let s2 = FilterState { tag_buf: seq!['<'] + w, ..s1 };
    let open = (seq!['<'] + w).push('>');
    assert(open.subrange(1, open.len() - 1) =~= w);
    assert(ascii_lower(w).len() == w.len());
    assert(open_tag_name(open) == Some(ascii_lower(w)));
    lemma_single(s2, '>');
    assert(s2.tag_buf.push('>') =~= open);
    assert(run(s2, seq!['>']) == (end_tag(s2), e));
    lemma_run_append(s, seq!['<'], w);
    lemma_run_append(s, seq!['<'] + w, seq!['>']);
    assert(e + e + e =~= e);
}

/// Law: around text without `<`, an opening tag `<w>` and its closing tag
/// `</w>` are dropped and the text between them is kept, for any ASCII tag
/// name other than `think` (in any case).
pub proof fn lemma_tag_stripped(s: FilterState, w: Seq<char>, x: Seq<char>)
    requires
        inv(s),
        !s.skipping,
        !s.in_tag,
        w.len() > 0,
        is_plain_word(w),
        is_ascii_chars(w),
        ascii_lower(w) != "think"@,
        lacks(x, '<'),
    ensures
        process_chunk(s, seq!['<'] + w + seq!['>'] + x + seq!['<', '/'] + w + seq!['>']).1 == x,
{
    reveal_strlit("think");
    let e = Seq::<char>::empty();
    let opening = seq!['<'] + w + seq!['>'];
    lemma_tag_dropped(s, w);
    let s3 = FilterState { tag_buf: seq![], in_tag: false, in_close_tag: false, ..s };
    lemma_plain_text_passes(s3, x);
    lemma_run_inv(s3, x);
    assert(tidy(run(s3, x).0) == run(s3, x).0);
    assert(run(s3, x) == (s3, x));
    let sw = seq!['/'] + w;
    assert(is_plain_word(sw)) by {
        assert forall|i: int| 0 <= i < sw.len() implies !is_white_space(#[trigger] sw[i]) && sw[i]
            != '<' && sw[i] != '>' by {
            if i > 0 {
                assert(sw[i] == w[i - 1]);
            }
        }
    }
    assert(is_ascii_chars(sw)) by {
        assert forall|i: int| 0 <= i < sw.len() implies '\0' <= #[trigger] sw[i] <= '\u{7f}' by {
            if i > 0 {
                assert(sw[i] == w[i - 1]);
            }
        }
    }
    assert(ascii_lower(sw)[0] == '/');
    assert(ascii_lower(sw) != "think"@);
    lemma_tag_dropped(s3, sw);
    let closing = seq!['<'] + sw + seq!['>'];
    assert(opening + x + closing =~= seq!['<'] + w + seq!['>'] + x + seq!['<', '/'] + w + seq![
        '>',
    ]);
    lemma_run_append(s, opening, x);
    lemma_run_append(s, opening + x, closing);
    assert(e + x + e =~= x);
}

// ---------------------------------------------------------------------
// What a new filter outputs, tag by tag
// ---------------------------------------------------------------------

/// The first position at or after `from` that holds `<` (or `>` as well,
/// when `stop_gt`); the length of `t` when there is none.
pub open spec fn next_mark(t: Seq<char>, from: int, stop_gt: bool) -> int
    decreases t.len() - from,
{
    if from >= t.len() {
        t.len() as int
    } else if t[from] == '<' || (stop_gt && t[from] == '>') {
        from
    } else {
        next_mark(t, from + 1, stop_gt)
    }
}

/// `next_mark` is a position of a mark (or the end) with no mark before it.
pub proof fn lemma_next_mark(t: Seq<char>, from: int, stop_gt: bool)
    requires
        0 <= from <= t.len(),
    ensures
        from <= next_mark(t, from, stop_gt) <= t.len(),
        forall|k: int|
            from <= k < next_mark(t, from, stop_gt) ==> #[trigger] t[k] != '<' && !(stop_gt
                && t[k] == '>'),
        next_mark(t, from, stop_gt) < t.len() ==> (t[next_mark(t, from, stop_gt)] == '<' || (
        stop_gt && t[next_mark(t, from, stop_gt)] == '>')),
    decreases t.len() - from,
{
    if from < t.len() && !(t[from] == '<' || (stop_gt && t[from] == '>')) {
        lemma_next_mark(t, from + 1, stop_gt);
    }
}

/// What a filter outside any tag and any `<think>` block outputs for the
/// text `t`: a character other than `<` is output; `<` begins a tag, which
/// runs to the next `>`; a tag cut short by another `<` is dropped, and one
/// that the text does not complete is held back (nothing more is output);
/// a complete `<think ...>` tag begins a block whose text is dropped (see
/// `after_block`); any other tag with a name is dropped; a tag without a
/// name (such as `<>` or `< >`) is output as it is.
pub open spec fn filtered(t: Seq<char>) -> Seq<char>
    decreases t.len(),
{
    if t.len() == 0 {
        seq![]
    } else if t[0] != '<' {
        seq![t[0]] + filtered(t.skip(1))
    } else {
        proof {
            lemma_next_mark(t, 1, true);
        }
        let j = next_mark(t, 1, true);
        if j >= t.len() {
            seq![]
        } else if t[j] == '<' {
            filtered(t.skip(j))
        } else {
            let tag = t.take(j + 1);
            match open_tag_name(tag) {
                Some(n) => if n == "think"@ {
                    after_block(t.skip(j + 1))
                } else {
                    filtered(t.skip(j + 1))
                },
                None => match close_tag_name(tag) {
                    Some(_) => filtered(t.skip(j + 1)),
                    None => tag + filtered(t.skip(j + 1)),
                },
            }
        }
    }
}

/// What a filter inside a `<think>` block, outside any tag, outputs for the
/// text `t`: nothing until a closing tag `</...>` whose name is `think`,
/// then `filtered` of what follows it. Inside the block only a tag that
/// begins with `</` can end at `>`; any tag is cut short by another `<`.
pub open spec fn after_block(t: Seq<char>) -> Seq<char>
    decreases t.len(),
{
    if t.len() == 0 {
        seq![]
    } else if t[0] != '<' {
        after_block(t.skip(1))
    } else if t.len() >= 2 && t[1] == '/' {
        proof {
            lemma_next_mark(t, 2, true);
        }
        let j = next_mark(t, 2, true);
        if j >= t.len() {
            seq![]
        } else if t[j] == '<' {
            after_block(t.skip(j))
        } else if close_tag_name(t.take(j + 1)) == Some("think"@) {
            filtered(t.skip(j + 1))
        } else {
            after_block(t.skip(j + 1))
        }
    } else {
        proof {
            lemma_next_mark(t, 1, false);
        }
        let j = next_mark(t, 1, false);
        if j >= t.len() {
            seq![]
        } else {
            after_block(t.skip(j))
        }
    }
}

proof fn lemma_collect_normal(s: FilterState, u: Seq<char>)
    requires
        !s.skipping,
        s.in_tag,
        lacks(u, '<'),
        lacks(u, '>'),
    ensures
        run(s, u) == (FilterState { tag_buf: s.tag_buf + u, ..s }, Seq::<char>::empty()),
    decreases u.len(),
{
    if u.len() == 0 {
        assert(s.tag_buf + u =~= s.tag_buf);
    } else {
        lemma_collect_normal(s, u.drop_last());
        assert(u[u.len() - 1] != '<' && u[u.len() - 1] != '>');
        assert((s.tag_buf + u.drop_last()).push(u.last()) =~= s.tag_buf + u);
        assert(Seq::<char>::empty() + Seq::<char>::empty() =~= Seq::<char>::empty());
    }
}

proof fn lemma_collect_skipped(s: FilterState, u: Seq<char>)
    requires
        s.skipping,
        s.in_tag,
        s.tag_buf.len() >= 1,
        s.tag_buf.len() == 1 && u.len() > 0 ==> u[0] != '/',
        lacks(u, '<'),
        s.in_close_tag ==> lacks(u, '>'),
    ensures
        run(s, u) == (FilterState { tag_buf: s.tag_buf + u, ..s }, Seq::<char>::empty()),
    decreases u.len(),
{
    reveal_strlit("</");
    if u.len() == 0 {
        assert(s.tag_buf + u =~= s.tag_buf);
    } else {
        lemma_collect_skipped(s, u.drop_last());
        assert(u[u.len() - 1] != '<');
        let buf = (s.tag_buf + u.drop_last()).push(u.last());
        assert(buf =~= s.tag_buf + u);
        if buf.len() == 2 {
            assert(u.len() == 1);
            assert(buf[1] == u[0]);
        }
        assert(buf != "</"@ || u.last() != '/');
        assert(Seq::<char>::empty() + Seq::<char>::empty() =~= Seq::<char>::empty());
    }
}

proof fn lemma_split_run(s: FilterState, t: Seq<char>, k: int)
    requires
        0 <= k <= t.len(),
    ensures
        run(s, t) == (
            run(run(s, t.take(k)).0, t.skip(k)).0,
            run(s, t.take(k)).1 + run(run(s, t.take(k)).0, t.skip(k)).1,
        ),
{
    assert(t.take(k) + t.skip(k) =~= t);
    lemma_run_append(s, t.take(k), t.skip(k));
}

proof fn lemma_direct(s: FilterState, t: Seq<char>)
    requires
        s.in_tag ==> t.len() > 0 && t[0] == '<',
        s.skipping ==> s.skip_tag == "think"@,
    ensures
        run(s, t).1 == if s.skipping {
            after_block(t)
        } else {
            filtered(t)
        },
    decreases t.len(),
{
    reveal_strlit("</");
    let e = Seq::<char>::empty();
    if t.len() == 0 {
    } else if t[0] != '<' {
        lemma_split_run(s, t, 1);
        assert(t.take(1) =~= seq![t[0]]);
        lemma_single(s, t[0]);
        lemma_direct(s, t.skip(1));
        assert(e + run(s, t.skip(1)).1 =~= run(s, t.skip(1)).1);
    } else if !s.skipping {
        lemma_next_mark(t, 1, true);
        let j = next_mark(t, 1, true);
        let s1 = start_tag(s);
        let u = t.subrange(1, j);
        assert(lacks(u, '<') && lacks(u, '>')) by {
            assert forall|i: int| 0 <= i < u.len() implies u[i] != '<' && u[i] != '>' by {
                assert(u[i] == t[1 + i]);
            }
        }
        lemma_collect_normal(s1, u);
        let s2 = FilterState { tag_buf: s1.tag_buf + u, ..s1 };
        assert(seq!['<'] + u =~= t.take(j));
        lemma_run_append(s, seq!['<'], u);
        lemma_single(s, '<');
        assert(run(s, t.take(j)) == (s2, e)) by {
            assert(e + e =~= e);
        }
        assert(s2.tag_buf =~= t.take(j));
        lemma_split_run(s, t, j);
        if j >= t.len() {
            assert(t.skip(j).len() == 0);
            assert(e + e =~= e);
        } else if t[j] == '<' {
            lemma_direct(s2, t.skip(j));
            assert(e + run(s2, t.skip(j)).1 =~= run(s2, t.skip(j)).1);
        } else {
            let rest = t.skip(j);
            lemma_split_run(s2, rest, 1);
            assert(rest.take(1) =~= seq!['>']);
            lemma_single(s2, '>');
            assert(s2.tag_buf.push('>') =~= t.take(j + 1));
            assert(rest.skip(1) =~= t.skip(j + 1));
            let s3 = step(s2, '>').0;
            assert(!s3.in_tag);
            lemma_direct(s3, t.skip(j + 1));
            assert(e + (step(s2, '>').1 + run(s3, t.skip(j + 1)).1) =~= step(s2, '>').1 + run(
                s3,
                t.skip(j + 1),
            ).1);
        }
    } else if t.len() >= 2 && t[1] == '/' {
        lemma_next_mark(t, 2, true);
        let j = next_mark(t, 2, true);
        let s1 = start_tag(s);
        let s1b = FilterState { tag_buf: seq!['<', '/'], in_close_tag: true, ..s1 };
        assert(seq!['<'].push('/') =~= "</"@);
        assert("</"@ =~= seq!['<', '/']);
        lemma_single(s, '<');
        lemma_single(s1, '/');
        assert(s1.tag_buf.push('/') =~= seq!['<', '/']);
        assert(step(s1, '/') == (s1b, e));
        let u = t.subrange(2, j);
        assert(lacks(u, '<') && lacks(u, '>')) by {
            assert forall|i: int| 0 <= i < u.len() implies u[i] != '<' && u[i] != '>' by {
                assert(u[i] == t[2 + i]);
            }
        }
        lemma_collect_skipped(s1b, u);
        let s2 = FilterState { tag_buf: seq!['<', '/'] + u, ..s1b };
        assert(t.take(j) =~= seq!['<'] + seq!['/'] + u);
        lemma_run_append(s, seq!['<'], seq!['/']);
        lemma_run_append(s, seq!['<'] + seq!['/'], u);
        assert(seq!['<'] + seq!['/'] =~= seq!['<', '/']);
        assert(run(s, t.take(j)) == (s2, e)) by {
            assert(e + e =~= e);
            assert(e + e + e =~= e);
        }
        assert(s2.tag_buf =~= t.take(j));
        lemma_split_run(s, t, j);
        if j >= t.len() {
            assert(t.skip(j).len() == 0);
            assert(e + e =~= e);
        } else if t[j] == '<' {
            lemma_direct(s2, t.skip(j));
            assert(e + run(s2, t.skip(j)).1 =~= run(s2, t.skip(j)).1);
        } else {
            let rest = t.skip(j);
            lemma_split_run(s2, rest, 1);
            assert(rest.take(1) =~= seq!['>']);
            lemma_single(s2, '>');
            assert(s2.tag_buf.push('>') =~= t.take(j + 1));
            assert(s2.tag_buf.push('>').len() >= 3);
            assert(rest.skip(1) =~= t.skip(j + 1));
            let s3 = step(s2, '>').0;
            assert(step(s2, '>').1 == e);
            lemma_direct(s3, t.skip(j + 1));
            assert(e + (e + run(s3, t.skip(j + 1)).1) =~= run(s3, t.skip(j + 1)).1);
        }
    } else {
        lemma_next_mark(t, 1, false);
        let j = next_mark(t, 1, false);
        let s1 = start_tag(s);
        let u = t.subrange(1, j);
        assert(lacks(u, '<')) by {
            assert forall|i: int| 0 <= i < u.len() implies u[i] != '<' by {
                assert(u[i] == t[1 + i]);
            }
        }
        assert(u.len() > 0 ==> u[0] == t[1]);
        lemma_collect_skipped(s1, u);
        let s2 = FilterState { tag_buf: s1.tag_buf + u, ..s1 };
        lemma_run_append(s, seq!['<'], u);
        lemma_single(s, '<');
        assert(seq!['<'] + u =~= t.take(j));
        assert(run(s, t.take(j)) == (s2, e)) by {
            assert(e + e =~= e);
        }
        lemma_split_run(s, t, j);
        if j >= t.len() {
            assert(t.skip(j).len() == 0);
            assert(e + e =~= e);
        } else {
            lemma_direct(s2, t.skip(j));
            assert(e + run(s2, t.skip(j)).1 =~= run(s2, t.skip(j)).1);
        }
    }
}

/// Law: what a new filter outputs for a whole text handed to it in one chunk
/// is `filtered` of the text.
pub proof fn lemma_new_filter_output(t: Seq<char>)
    ensures
        process_chunk(initial_state(), t).1 == filtered(t),
{
    lemma_direct(initial_state(), t);
}

} // verus!
