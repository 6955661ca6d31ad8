//! Decoding of a server-sent-events answer stream: bytes arrive in chunks,
//! are cut into lines, `data: ` lines carry JSON events (or `[DONE]`), and the
//! text of each event goes through the tag filter before it is emitted.
use vstd::prelude::*;
use crate::api::{ApiError, Usage, delta_content, stream_delta, token_count_text, total_tokens, usage_tokens, ChatCompletionResponse};
use crate::tag_filter::{initial_state, process_chunk, FilterState, TagFilter};
use crate::text::{chars_of, decimal, decode_utf8_lossy, starts_with, str_eq, skip_chars, trim, trim_chars, utf8_lossy};

verus! {

/// The index of the first line break in `s`, or -1 when there is none.
pub open spec fn newline_index(s: Seq<char>) -> int
    decreases s.len(),
{
    if s.len() == 0 {
        -1
    } else if s[0] == '\n' {
        0
    } else if newline_index(s.drop_first()) >= 0 {
        1 + newline_index(s.drop_first())
    } else {
        -1
    }
}

/// The complete lines of a buffer, each trimmed, in order.
pub open spec fn complete_lines(s: Seq<char>) -> Seq<Seq<char>>
    decreases s.len(),
{
    let k = newline_index(s);
    if 0 <= k < s.len() {
        seq![trim(s.take(k))] + complete_lines(s.skip(k + 1))
    } else {
        seq![]
    }
}

/// What is left of a buffer after its complete lines: the text after the
/// last line break.
pub open spec fn pending_text(s: Seq<char>) -> Seq<char>
    decreases s.len(),
{
    let k = newline_index(s);
    if 0 <= k < s.len() {
        pending_text(s.skip(k + 1))
    } else {
        s
    }
}

proof fn lemma_newline_index(s: Seq<char>)
    ensures
        -1 <= newline_index(s) < s.len(),
        newline_index(s) >= 0 ==> s[newline_index(s)] == '\n',
        forall|j: int| 0 <= j < newline_index(s) ==> s[j] != '\n',
        newline_index(s) == -1 ==> forall|j: int| 0 <= j < s.len() ==> s[j] != '\n',
    decreases s.len(),
{
    if s.len() > 0 {
        lemma_newline_index(s.drop_first());
        if s[0] != '\n' {
            assert forall|j: int| 0 <= j < newline_index(s) implies s[j] != '\n' by {
                if j > 0 {
                    assert(s[j] == s.drop_first()[j - 1]);
                }
            }
            if newline_index(s) == -1 {
                assert forall|j: int| 0 <= j < s.len() implies s[j] != '\n' by {
                    if j > 0 {
                        assert(s[j] == s.drop_first()[j - 1]);
                    }
                }
            }
        }
    }
}

proof fn lemma_newline_index_unique(s: Seq<char>, k: int)
    requires
        0 <= k < s.len(),
        s[k] == '\n',
        forall|j: int| 0 <= j < k ==> s[j] != '\n',
    ensures
        newline_index(s) == k,
    decreases s.len(),
{
    if k > 0 {
        assert forall|j: int| 0 <= j < k - 1 implies s.drop_first()[j] != '\n' by {
            assert(s.drop_first()[j] == s[j + 1]);
        }
        lemma_newline_index_unique(s.drop_first(), k - 1);
    }
}

proof fn lemma_no_newline(s: Seq<char>)
    requires
        forall|j: int| 0 <= j < s.len() ==> s[j] != '\n',
    ensures
        newline_index(s) == -1,
    decreases s.len(),
{
    if s.len() > 0 {
        assert forall|j: int| 0 <= j < s.len() - 1 implies s.drop_first()[j] != '\n' by {
            assert(s.drop_first()[j] == s[j + 1]);
        }
        lemma_no_newline(s.drop_first());
    }
}

/// Law: the lines of a stream do not depend on how it was cut into chunks.
/// Taking the complete lines of `u + b` gives the lines of `u`, then those of
/// what was pending after `u` followed by `b`; what stays pending is the same.
pub proof fn lemma_lines_append(u: Seq<char>, b: Seq<char>)
    ensures
        complete_lines(u + b) == complete_lines(u) + complete_lines(pending_text(u) + b),
        pending_text(u + b) == pending_text(pending_text(u) + b),
    decreases u.len(),
{
    lemma_newline_index(u);
    let k = newline_index(u);
    if 0 <= k < u.len() {
        lemma_newline_index(u + b);
        assert((u + b)[k] == '\n');
        assert forall|j: int| 0 <= j < k implies (u + b)[j] != '\n' by {
            assert((u + b)[j] == u[j]);
        }
        lemma_newline_index_unique(u + b, k);
        assert((u + b).take(k) =~= u.take(k));
        assert((u + b).skip(k + 1) =~= u.skip(k + 1) + b);
        lemma_lines_append(u.skip(k + 1), b);
        assert(seq![trim(u.take(k))] + complete_lines(u.skip(k + 1)) + complete_lines(
            pending_text(u.skip(k + 1)) + b,
        ) =~= seq![trim(u.take(k))] + (complete_lines(u.skip(k + 1)) + complete_lines(
            pending_text(u.skip(k + 1)) + b,
        )));
    } else {
        assert(pending_text(u) == u);
        assert(complete_lines(u) =~= Seq::<Seq<char>>::empty());
        assert(Seq::<Seq<char>>::empty() + complete_lines(u + b) =~= complete_lines(u + b));
    }
}

/// What a line of the stream is.
pub enum SseLine {
    /// Not an event line (empty, or not starting with `data: `).
    Skip,
    /// `data: [DONE]`: the stream is complete.
    Done,
    /// The payload of a `data: ` line.
    Data(String),
}

/// The kind of a (trimmed) line.
pub open spec fn line_kind(line: Seq<char>) -> SseLineKind {
    if line.len() == 0 {
        SseLineKind::Skip
    } else if line.len() >= 6 && line.take(6) == "data: "@ {
        if line.skip(6) == "[DONE]"@ {
            SseLineKind::Done
        } else {
            SseLineKind::Data(line.skip(6))
        }
    } else {
        SseLineKind::Skip
    }
}

/// The view of `SseLine`.
pub enum SseLineKind {
    Skip,
    Done,
    Data(Seq<char>),
}

/// The view of a classified line.
pub open spec fn sse_line_view(l: SseLine) -> SseLineKind {
    match l {
        SseLine::Skip => SseLineKind::Skip,
        SseLine::Done => SseLineKind::Done,
        SseLine::Data(d) => SseLineKind::Data(d@),
    }
}

/// Classifies a line of the stream.
pub fn classify_line(line: &str) -> (r: SseLine)
    ensures
        sse_line_view(r) == line_kind(line@),
{
    proof {
        reveal_strlit("data: ");
    }
    if line.is_empty() {
        return SseLine::Skip;
    }
    if starts_with(line, "data: ") {
        let data = skip_chars(line, 6);
        if str_eq(data.as_str(), "[DONE]") {
            SseLine::Done
        } else {
            SseLine::Data(data)
        }
    } else {
        SseLine::Skip
    }
}

/// An event to emit: its name and its payload.
pub struct Emission {
    pub event: String,
    pub payload: String,
}

/// The view of an emission.
pub open spec fn emission_view(e: Emission) -> (Seq<char>, Seq<char>) {
    (e.event@, e.payload@)
}

/// The event that carries a token count.
pub open spec fn token_event() -> Seq<char> {
    "token-update"@
}

/// What one decoded stream event does: its text (if any) goes through the
/// filter and is emitted under `chunk_event` when something is left; a token
/// count (if any) is emitted as `token-update` with its decimal digits.
pub open spec fn response_effect(
    s: FilterState,
    chunk_event: Seq<char>,
    r: ChatCompletionResponse,
) -> (FilterState, Seq<(Seq<char>, Seq<char>)>) {
    let (s1, text_events) = match delta_content(r) {
        Some(t) => {
            let (s1, out) = process_chunk(s, t);
            (
                s1,
                if out.len() > 0 {
                    seq![(chunk_event, out)]
                } else {
                    Seq::<(Seq<char>, Seq<char>)>::empty()
                },
            )
        },
        None => (s, Seq::<(Seq<char>, Seq<char>)>::empty()),
    };
    let token_events = match total_tokens(r) {
        Some(n) => seq![(token_event(), decimal(n as nat))],
        None => Seq::<(Seq<char>, Seq<char>)>::empty(),
    };
    (s1, text_events + token_events)
}

/// What a `data:` line leads to.
pub enum DataLine {
    /// The events to emit.
    Events(Vec<Emission>),
    /// Nothing.
    Skip,
    /// The stream cannot be parsed (`ApiError::ParseError`).
    Failed(ApiError),
}

/// The view of `DataLine`: the events, nothing, the message of a parse
/// failure, or a failure of another kind.
pub enum DataLineView {
    Events(Seq<(Seq<char>, Seq<char>)>),
    Skip,
    ParseFailed(Seq<char>),
    OtherFailure,
}

/// The view of what a data line leads to.
pub open spec fn data_line_view(d: DataLine) -> DataLineView {
    match d {
        DataLine::Events(v) => DataLineView::Events(v@.map_values(|e: Emission| emission_view(e))),
        DataLine::Skip => DataLineView::Skip,
        DataLine::Failed(ApiError::ParseError(m)) => DataLineView::ParseFailed(m@),
        DataLine::Failed(_) => DataLineView::OtherFailure,
    }
}

/// The view of a parse result: the answer event, or the parser's message.
pub open spec fn parsed_view(p: Result<ChatCompletionResponse, String>) -> Result<
    ChatCompletionResponse,
    Seq<char>,
> {
    match p {
        Ok(r) => Ok(r),
        Err(m) => Err(m@),
    }
}

/// What the payload `data` of a `data:` line leads to, given the answer
/// event parsed from it or the parser's message: a parsed event has the
/// effect `response_effect`; a payload that is blank is skipped; any other
/// payload that does not parse fails the stream with the parser's message
/// when `fail_on_bad_event` (a transcription stream, which then falls back
/// to a plain request), and is skipped otherwise (a chat stream).
pub open spec fn data_effect(
    s: FilterState,
    chunk_event: Seq<char>,
    data: Seq<char>,
    parsed: Result<ChatCompletionResponse, Seq<char>>,
    fail_on_bad_event: bool,
) -> (FilterState, DataLineView) {
    match parsed {
        Ok(r) => {
            let (s1, events) = response_effect(s, chunk_event, r);
            (s1, DataLineView::Events(events))
        },
        Err(m) => if fail_on_bad_event && trim(data).len() > 0 {
            (s, DataLineView::ParseFailed(m))
        } else {
            (s, DataLineView::Skip)
        },
    }
}

/// Whether the first choice of an answer event carries streamed text.
pub open spec fn has_delta_text(r: ChatCompletionResponse) -> bool {
    r.choices@.len() > 0 && (r.choices@[0].delta matches Some(d) && d.content is Some)
}

/// Law: an event that reports a total token count yields, as its last
/// emission, `token-update` with the decimal digits of the count, whether
/// or not it carries text; before it there is at most one emission, of text
/// under `chunk_event`. An event that reports no count yields at most that
/// text emission. An event without text leaves the filter as it was and
/// yields only the token count, if any.
pub proof fn lemma_response_events(s: FilterState, chunk_event: Seq<char>, r: ChatCompletionResponse)
    ensures
        match r.usage {
            Some(Usage { total_tokens: Some(n) }) => {
                &&& 1 <= response_effect(s, chunk_event, r).1.len() <= 2
                &&& response_effect(s, chunk_event, r).1.last() == ("token-update"@, decimal(
                    n as nat,
                ))
                &&& forall|i: int|
                    0 <= i < response_effect(s, chunk_event, r).1.len() - 1 ==> (
                    #[trigger] response_effect(s, chunk_event, r).1[i]).0 == chunk_event
            },
            _ => {
                &&& response_effect(s, chunk_event, r).1.len() <= 1
                &&& forall|i: int|
                    0 <= i < response_effect(s, chunk_event, r).1.len() ==> (
                    #[trigger] response_effect(s, chunk_event, r).1[i]).0 == chunk_event
            },
        },
        !has_delta_text(r) ==> {
            &&& response_effect(s, chunk_event, r).0 == s
            &&& response_effect(s, chunk_event, r).1.len() == (if r.usage matches Some(
                Usage { total_tokens: Some(_) },
            ) {
                1int
            } else {
                0
            })
        },
{
    reveal_strlit("token-update");
    let e = Seq::<(Seq<char>, Seq<char>)>::empty();
    let (s1, text_events) = match delta_content(r) {
        Some(t) => {
            let (s1, out) = process_chunk(s, t);
            (s1, if out.len() > 0 { seq![(chunk_event, out)] } else { e })
        },
        None => (s, e),
    };
    if !has_delta_text(r) {
        assert(delta_content(r) is None);
    }
    match r.usage {
        Some(Usage { total_tokens: Some(n) }) => {
            assert(response_effect(s, chunk_event, r).1 == text_events + seq![
                (token_event(), decimal(n as nat)),
            ]);
        },
        _ => {
            assert(response_effect(s, chunk_event, r).1 == text_events + e);
            assert(text_events + e =~= text_events);
        },
    }
}

/// The decoder of one answer stream.
pub struct SseDecoder {
    buffer: String,
    filter: TagFilter,
}

impl SseDecoder {
    /// Text received but not yet cut into lines.
    pub closed spec fn pending(&self) -> Seq<char> {
        self.buffer@
    }

    /// The state of the tag filter.
    pub closed spec fn filter_state(&self) -> FilterState {
        self.filter.state()
    }

    /// A decoder at the start of a stream.
    pub fn new() -> (d: Self)
        ensures
            d.pending().len() == 0,
            d.filter_state() == initial_state(),
    {
        SseDecoder { buffer: String::new(), filter: TagFilter::new() }
    }

    /// Takes in one chunk of the stream, decoded as UTF-8 with invalid
    /// sequences replaced.
    pub fn push_bytes(&mut self, chunk: &[u8])
        ensures
            final(self).pending() == old(self).pending() + utf8_lossy(chunk@),
            final(self).filter_state() == old(self).filter_state(),
    {
        let text = decode_utf8_lossy(chunk);
        self.buffer.append(text.as_str());
    }

    /// Takes in text of the stream.
    pub fn push_text(&mut self, text: &str)
        ensures
            final(self).pending() == old(self).pending() + text@,
            final(self).filter_state() == old(self).filter_state(),
    {
        self.buffer.append(text);
    }

    /// Removes the complete lines from the buffer and returns them, trimmed.
    pub fn take_lines(&mut self) -> (lines: Vec<String>)
        ensures
            lines@.map_values(|l: String| l@) == complete_lines(old(self).pending()),
            final(self).pending() == pending_text(old(self).pending()),
            final(self).filter_state() == old(self).filter_state(),
    {
        let v = chars_of(self.buffer.as_str());
        let ghost b = v@;
        let mut lines: Vec<String> = Vec::new();
        let mut start: usize = 0;
        let mut i: usize = 0;
        proof {
            assert(b.skip(0) =~= b);
        }
        while i < v.len()
            invariant
                v@ == b,
                start <= i <= v@.len(),
                forall|j: int| start <= j < i ==> b[j] != '\n',
                lines@.map_values(|l: String| l@) + complete_lines(b.skip(start as int))
                    == complete_lines(b),
                pending_text(b.skip(start as int)) == pending_text(b),
            decreases v@.len() - i,
        {
            if v[i] == '\n' {
                let ghost rest = b.skip(start as int);
                proof {
                    assert forall|j: int| 0 <= j < i - start implies rest[j] != '\n' by {
                        assert(rest[j] == b[start + j]);
                    }
                    assert(rest[i - start] == '\n');
                    lemma_newline_index_unique(rest, i - start);
                    assert(rest.take(i - start) =~= b.subrange(start as int, i as int));
                    assert(rest.skip(i - start + 1) =~= b.skip(i + 1));
                }
                let line = trim_chars(&v, start, i);
                let ghost before = lines@.map_values(|l: String| l@);
                lines.push(line);
                proof {
                    assert(lines@.map_values(|l: String| l@) =~= before.push(line@));
                    assert(before + complete_lines(rest) =~= before.push(line@) + complete_lines(
                        b.skip(i + 1),
                    ));
                }
                start = i + 1;
            }
            i = i + 1;
        }
        let ghost rest = b.skip(start as int);
        proof {
            assert forall|j: int| 0 <= j < rest.len() implies rest[j] != '\n' by {
                assert(rest[j] == b[start + j]);
            }
            lemma_no_newline(rest);
            assert(complete_lines(rest) =~= Seq::<Seq<char>>::empty());
            assert(lines@.map_values(|l: String| l@) + Seq::<Seq<char>>::empty() =~= lines@.map_values(
                |l: String| l@,
            ));
        }
        self.buffer = crate::text::string_from_chars(&v, start, v.len());
        assert(b.subrange(start as int, b.len() as int) =~= rest);
        lines
    }

    /// The events to emit for one decoded stream event.
    pub fn on_response(&mut self, chunk_event: &str, resp: &ChatCompletionResponse) -> (events: Vec<
        Emission,
    >)
        ensures
            (final(self).filter_state(), events@.map_values(|e: Emission| emission_view(e)))
                == response_effect(old(self).filter_state(), chunk_event@, *resp),
            final(self).pending() == old(self).pending(),
    {
        let mut events: Vec<Emission> = Vec::new();
        match stream_delta(resp) {
            Some(text) => {
                let filtered = self.filter.process(text.as_str());
                if !filtered.as_str().is_empty() {
                    events.push(Emission { event: chunk_event.to_owned(), payload: filtered });
                }
            },
            None => {},
        }
        let ghost text_events = events@.map_values(|e: Emission| emission_view(e));
        match usage_tokens(resp) {
            Some(n) => {
                events.push(
                    Emission { event: String::from_str("token-update"), payload: token_count_text(n) },
                );
            },
            None => {},
        }
        let ghost expected = response_effect(old(self).filter_state(), chunk_event@, *resp);
        assert(text_events =~= expected.1.take(text_events.len() as int));
        assert(events@.map_values(|e: Emission| emission_view(e)) =~= expected.1);
        events
    }
    /// What the payload `data` of a `data:` line leads to, given the answer
    /// event parsed from it or the parser's message.
    pub fn on_data(
        &mut self,
        chunk_event: &str,
        data: &str,
        parsed: Result<ChatCompletionResponse, String>,
        fail_on_bad_event: bool,
    ) -> (r: DataLine)
        ensures
            (final(self).filter_state(), data_line_view(r)) == data_effect(
                old(self).filter_state(),
                chunk_event@,
                data@,
                parsed_view(parsed),
                fail_on_bad_event,
            ),
            final(self).pending() == old(self).pending(),
    {
        match parsed {
            Ok(resp) => {
                let events = self.on_response(chunk_event, &resp);
                DataLine::Events(events)
            },
            Err(m) => {
                let v = chars_of(data);
                let t = trim_chars(&v, 0, v.len());
                assert(v@.subrange(0, v@.len() as int) =~= data@);
                if fail_on_bad_event && !t.as_str().is_empty() {
                    DataLine::Failed(ApiError::ParseError(m))
                } else {
                    DataLine::Skip
                }
            },
        }
    }
}

} // verus!
