//! Decisions of the Messages-API client: which stop reasons count as a
//! finished response, which statuses are retried, the user-facing error
//! strings (with their stable machine-detectable markers), the SSE line
//! buffer, and the classification of one stream event.

use vstd::prelude::*;
use vstd::utf8::{decode_utf8, valid_utf8};


use crate::json::{field, get, get_str, parse_json_opt, parsed, str_field, Json, JsonView};
use crate::text::{chars_of, concat2, owned, push_str, str_eq, str_starts_with, string_of, trim, trim_chars, starts_with};

verus! {

/// Prefix marking a rejected API key (the frontend matches on it).
pub const INVALID_API_KEY_MARKER: &'static str = "EttaError:api_key";

/// Prefix marking a stream the user cancelled (the frontend swallows it).
pub const STREAM_CANCELLED_MARKER: &'static str = "EttaError:cancelled";

/// The Err a cancelled stream resolves with.
pub fn cancelled_error() -> (r: String)
    ensures
        r@ == "EttaError:cancelled"@ + ": the stream was cancelled"@,
{
    concat2("EttaError:cancelled", ": the stream was cancelled")
}

/// Cancel-aware failure mapping: when the user's cancel raced a failure, the
/// caller sees the marked cancelled error; otherwise the failure itself.
pub fn or_cancelled(cancelled: bool, err: String) -> (r: String)
    ensures
        cancelled ==> r@ == "EttaError:cancelled"@ + ": the stream was cancelled"@,
        !cancelled ==> r == err,
{
    if cancelled {
        cancelled_error()
    } else {
        err
    }
}

/// The pause before the one retry of a transient failure, in milliseconds.
pub const RETRY_DELAY_MS: u64 = 1500;

/// 429 and every 5xx status are transient and worth one retry.
pub open spec fn retryable(status: u16) -> bool {
    status == 429 || (500 <= status <= 599)
}

/// Transient statuses worth ONE retry: rate limiting and server errors.
pub fn is_retryable_status(status: u16) -> (b: bool)
    ensures
        b == retryable(status),
{
    status == 429 || (500 <= status && status <= 599)
}

/// How an HTTP status renders (`reqwest::StatusCode`'s `Display`: the code and
/// its canonical reason).
pub uninterp spec fn status_text(status: u16) -> Seq<char>;

/// `reqwest::StatusCode::from_u16(status)` formatted with `{}`.
#[verifier::external_body]
fn status_display(status: u16) -> (r: String)
    requires
        100 <= status <= 999,
    ensures
        r@ == status_text(status),
{
    format!("{}", reqwest::StatusCode::from_u16(status).unwrap())
}

pub open spec fn status_error_msg(status: u16) -> Seq<char> {
    if status == 401 || status == 403 {
        "EttaError:api_key"@ + ": the API key was rejected — update it in Settings"@
    } else {
        "the model returned an error ("@ + status_text(status) + ")"@
    }
}

/// Map a non-2xx Messages-endpoint status to the user-facing error: 401/403
/// carry the invalid-key marker; everything else stays generic.
pub fn status_error(status: u16) -> (r: String)
    requires
        100 <= status <= 999,
    ensures
        r@ == status_error_msg(status),
{
    if status == 401 || status == 403 {
        concat2("EttaError:api_key", ": the API key was rejected — update it in Settings")
    } else {
        let t = status_display(status);
        let mut v = chars_of("the model returned an error (");
        push_str(&mut v, t.as_str());
        push_str(&mut v, ")");
        string_of(v.as_slice())
    }
}

pub open spec fn truncated_msg() -> Seq<char> {
    "the model stream ended unexpectedly — please try again"@
}

pub open spec fn cut_off_msg() -> Seq<char> {
    "the model response was cut off — please try again"@
}

pub open spec fn unfinished_msg() -> Seq<char> {
    "the model did not finish its response — please try again"@
}

/// Only a clean `end_turn` / `stop_sequence` ends a usable response.
pub open spec fn stop_reason_verdict(reason: Option<Seq<char>>) -> Result<(), Seq<char>> {
    match reason {
        None => Err(truncated_msg()),
        Some(r) => if r == "end_turn"@ || r == "stop_sequence"@ {
            Ok(())
        } else if r == "max_tokens"@ {
            Err(cut_off_msg())
        } else {
            Err(unfinished_msg())
        },
    }
}

/// Reject output the model did not finish cleanly. A missing stop reason means
/// the response ended early, so it is an error too.
pub fn check_stop_reason(stop_reason: Option<&str>) -> (r: Result<(), String>)
    ensures
        match r {
            Ok(()) => stop_reason_verdict(
                match stop_reason {
                    Some(s) => Some(s@),
                    None => None,
                },
            ) is Ok,
            Err(e) => stop_reason_verdict(
                match stop_reason {
                    Some(s) => Some(s@),
                    None => None,
                },
            ) == Err::<(), Seq<char>>(e@),
        },
{
    match stop_reason {
        None => Err(owned("the model stream ended unexpectedly — please try again")),
        Some(s) => {
            if str_eq(s, "end_turn") || str_eq(s, "stop_sequence") {
                Ok(())
            } else if str_eq(s, "max_tokens") {
                Err(owned("the model response was cut off — please try again"))
            } else {
                Err(owned("the model did not finish its response — please try again"))
            }
        },
    }
}

/// How bytes decode with replacement characters (std `String::from_utf8_lossy`).
pub uninterp spec fn utf8_lossy(bytes: Seq<u8>) -> Seq<char>;

/// `String::from_utf8_lossy`: valid UTF-8 decodes exactly; invalid sequences
/// become U+FFFD.
#[verifier::external_body]
fn decode_lossy(bytes: &[u8]) -> (r: String)
    ensures
        r@ == utf8_lossy(bytes@),
        valid_utf8(bytes@) ==> r@ == decode_utf8(bytes@),
{
    String::from_utf8_lossy(bytes).into_owned()
}

/// Byte buffer that yields complete, `\n`-terminated lines. Bytes are held
/// undecoded until a whole line exists, so a character split across network
/// chunks is decoded intact.
pub struct SseLineBuffer {
    pub buf: Vec<u8>,
}

impl SseLineBuffer {
    pub fn new() -> (b: Self)
        ensures
            b.buf@ == Seq::<u8>::empty(),
    {
        SseLineBuffer { buf: Vec::new() }
    }

    /// Hold more incoming bytes.
    pub fn push(&mut self, bytes: &[u8])
        ensures
            final(self).buf@ == old(self).buf@ + bytes@,
    {
        let mut i: usize = 0;
        let ghost start = self.buf@;
        while i < bytes.len()
            invariant
                i <= bytes@.len(),
                self.buf@ == start + bytes@.take(i as int),
            decreases bytes.len() - i,
        {
            self.buf.push(bytes[i]);
            i = i + 1;
            assert(self.buf@ =~= start + bytes@.take(i as int));
        }
        assert(bytes@.take(bytes@.len() as int) =~= bytes@);
    }

    /// The next complete line (decoded, trimmed), or None until one is available.
    pub fn next_line(&mut self) -> (r: Option<String>)
        ensures
            match r {
                None => final(self).buf@ == old(self).buf@ && !old(self).buf@.contains(10u8),
                Some(line) => exists|nl: int|
                    0 <= nl < old(self).buf@.len() && old(self).buf@[nl] == 10u8 && (forall|j: int|
                        0 <= j < nl ==> old(self).buf@[j] != 10u8) && line@ == trim(
                        utf8_lossy(old(self).buf@.take(nl + 1)),
                    ) && final(self).buf@ == old(self).buf@.skip(nl + 1),
            },
    {
        let mut nl: usize = 0;
        while nl < self.buf.len() && self.buf[nl] != 10u8
            invariant
                nl <= self.buf@.len(),
                forall|j: int| 0 <= j < nl ==> self.buf@[j] != 10u8,
            decreases self.buf.len() - nl,
        {
            nl = nl + 1;
        }
        if nl == self.buf.len() {
            return None;
        }
        let ghost before = self.buf@;
        let mut line: Vec<u8> = Vec::new();
        let mut rest: Vec<u8> = Vec::new();
        let mut i: usize = 0;
        while i < self.buf.len()
            invariant
                self.buf@ == before,
                nl < before.len(),
                i <= before.len(),
                line@ == before.take(if i <= nl + 1 { i as int } else { nl + 1 }),
                rest@ == (if i <= nl + 1 { Seq::<u8>::empty() } else { before.subrange(nl + 1, i as int) }),
            decreases self.buf.len() - i,
        {
            if i <= nl {
                line.push(self.buf[i]);
                assert(line@ =~= before.take(i + 1));
            } else {
                rest.push(self.buf[i]);
                assert(rest@ =~= before.subrange(nl + 1, i + 1));
            }
            i = i + 1;
        }
        assert(rest@ =~= before.skip(nl + 1));
        self.buf = rest;
        let text = decode_lossy(line.as_slice());
        let chars = chars_of(text.as_str());
        let t = trim_chars(&chars);
        Some(string_of(t.as_slice()))
    }
}

/// The payload of one SSE line: the text after `data:`, trimmed; None for
/// lines that carry no event (no `data:` prefix, empty, or `[DONE]`).
pub open spec fn sse_payload_of(line: Seq<char>) -> Option<Seq<char>> {
    if !starts_with(line, "data:"@) {
        None
    } else {
        let d = trim(line.skip(5));
        if d.len() == 0 || d == "[DONE]"@ {
            None
        } else {
            Some(d)
        }
    }
}

/// Extract the event payload from one SSE line.
pub fn sse_payload(line: &str) -> (r: Option<String>)
    ensures
        match r {
            Some(d) => sse_payload_of(line@) == Some(d@),
            None => sse_payload_of(line@) is None,
        },
{
    if !str_starts_with(line, "data:") {
        return None;
    }
    proof {
        reveal_strlit("data:");
    }
    let cs = chars_of(line);
    let mut rest: Vec<char> = Vec::new();
    let mut i: usize = 5;
    while i < cs.len()
        invariant
            5 <= cs@.len(),
            5 <= i <= cs@.len(),
            rest@ == cs@.subrange(5, i as int),
        decreases cs.len() - i,
    {
        rest.push(cs[i]);
        i = i + 1;
        assert(rest@ =~= cs@.subrange(5, i as int));
    }
    assert(rest@ =~= line@.skip(5));
    let d = trim_chars(&rest);
    let ds = string_of(d.as_slice());
    if d.len() == 0 || str_eq(ds.as_str(), "[DONE]") {
        None
    } else {
        Some(ds)
    }
}

/// The text of a `content_block_delta` event, if that is what `v` is.
pub open spec fn delta_text_of(v: JsonView) -> Option<Seq<char>> {
    if str_field(v, "type"@) == Some("content_block_delta"@) {
        match field(v, "delta"@) {
            Some(d) => str_field(d, "text"@),
            None => None,
        }
    } else {
        None
    }
}

/// The delta text of a payload text: None unless it parses as a
/// `content_block_delta` event with a string `delta.text`.
pub open spec fn payload_delta_text(data: Seq<char>) -> Option<Seq<char>> {
    match parsed(data) {
        Some(v) => delta_text_of(v),
        None => None,
    }
}

/// Extract the text from a parsed `content_block_delta` event, if present.
pub fn delta_text(v: &Json) -> (r: Option<String>)
    ensures
        match r {
            Some(t) => delta_text_of(v@) == Some(t@),
            None => delta_text_of(v@) is None,
        },
{
    let ty = match get_str(v, "type") {
        Some(t) => t,
        None => return None,
    };
    if !str_eq(ty, "content_block_delta") {
        return None;
    }
    let d = match get(v, "delta") {
        Some(d) => d,
        None => return None,
    };
    match get_str(d, "text") {
        Some(t) => Some(owned(t)),
        None => None,
    }
}

/// Extract the text from a `content_block_delta` payload, if present.
pub fn parse_delta_text(data: &str) -> (r: Option<String>)
    ensures
        match r {
            Some(t) => payload_delta_text(data@) == Some(t@),
            None => payload_delta_text(data@) is None,
        },
{
    match parse_json_opt(data) {
        Some(v) => delta_text(&v),
        None => None,
    }
}

/// One classified SSE data payload.
#[derive(Debug, Clone, PartialEq)]
pub enum StreamEvent {
    /// Text to append (`content_block_delta`).
    Delta(String),
    /// An in-band error event, with its detail.
    Error(String),
    /// `message_delta` carrying the final stop reason.
    StopReason(String),
    /// Anything else.
    Other,
}

/// The abstract content of a stream event.
pub enum EventView {
    Delta(Seq<char>),
    Error(Seq<char>),
    StopReason(Seq<char>),
    Other,
}

impl View for StreamEvent {
    type V = EventView;

    open spec fn view(&self) -> EventView {
        match self {
            StreamEvent::Delta(t) => EventView::Delta(t@),
            StreamEvent::Error(t) => EventView::Error(t@),
            StreamEvent::StopReason(t) => EventView::StopReason(t@),
            StreamEvent::Other => EventView::Other,
        }
    }
}

/// The error detail of an `error` event.
pub open spec fn error_detail_of(v: JsonView) -> Seq<char> {
    match field(v, "error"@) {
        Some(e) => match str_field(e, "message"@) {
            Some(m) => m,
            None => "unknown stream error"@,
        },
        None => "unknown stream error"@,
    }
}

/// How a parsed stream payload is classified.
pub open spec fn classify_of(v: JsonView) -> EventView {
    match delta_text_of(v) {
        Some(t) => EventView::Delta(t),
        None => if str_field(v, "type"@) == Some("error"@) {
            EventView::Error(error_detail_of(v))
        } else if str_field(v, "type"@) == Some("message_delta"@) {
            match field(v, "delta"@) {
                Some(d) => match str_field(d, "stop_reason"@) {
                    Some(r) => EventView::StopReason(r),
                    None => EventView::Other,
                },
                None => EventView::Other,
            }
        } else {
            EventView::Other
        },
    }
}

/// How a payload text is classified: text that does not parse is `Other`.
pub open spec fn classify_payload(data: Seq<char>) -> EventView {
    match parsed(data) {
        Some(v) => classify_of(v),
        None => EventView::Other,
    }
}

/// Classify one parsed SSE data payload.
pub fn classify_event(v: &Json) -> (ev: StreamEvent)
    ensures
        ev@ == classify_of(v@),
{
    if let Some(text) = delta_text(v) {
        return StreamEvent::Delta(text);
    }
    match get_str(v, "type") {
        Some(t) => {
            if str_eq(t, "error") {
                let detail = match get(v, "error") {
                    Some(e) => match get_str(e, "message") {
                        Some(m) => owned(m),
                        None => owned("unknown stream error"),
                    },
                    None => owned("unknown stream error"),
                };
                StreamEvent::Error(detail)
            } else if str_eq(t, "message_delta") {
                match get(v, "delta") {
                    Some(d) => match get_str(d, "stop_reason") {
                        Some(r) => StreamEvent::StopReason(owned(r)),
                        None => StreamEvent::Other,
                    },
                    None => StreamEvent::Other,
                }
            } else {
                StreamEvent::Other
            }
        },
        None => StreamEvent::Other,
    }
}

/// Classify one SSE data payload.
pub fn classify_stream_event(data: &str) -> (ev: StreamEvent)
    ensures
        ev@ == classify_payload(data@),
{
    match parse_json_opt(data) {
        Some(v) => classify_event(&v),
        None => StreamEvent::Other,
    }
}

/// The `text` of a cached `{ "text": ... }` payload.
pub open spec fn cached_text_of(payload: Seq<char>) -> Option<Seq<char>> {
    match parsed(payload) {
        Some(v) => str_field(v, "text"@),
        None => None,
    }
}

/// Pull the `text` field out of a cached `{ "text": ... }` payload.
pub fn extract_cached_text(payload_json: &str) -> (r: Option<String>)
    ensures
        match r {
            Some(t) => cached_text_of(payload_json@) == Some(t@),
            None => cached_text_of(payload_json@) is None,
        },
{
    match parse_json_opt(payload_json) {
        Some(v) => match get_str(&v, "text") {
            Some(t) => Some(owned(t)),
            None => None,
        },
        None => None,
    }
}

// ---- Consuming a stream ----

/// The index of the first newline byte in `b` (`b.len()` when none).
pub open spec fn first_newline(b: Seq<u8>, i: int) -> int
    decreases b.len() - i,
{
    if i < 0 || i >= b.len() {
        b.len() as int
    } else if b[i] == 10u8 {
        i
    } else {
        first_newline(b, i + 1)
    }
}

/// What one complete line does to a stream: nothing, a text delta, a stop
/// reason, or a mid-stream failure.
pub enum LineEffect {
    Ignore,
    Delta(Seq<char>),
    Stop(Seq<char>),
    Fail,
}

pub open spec fn line_effect(line: Seq<char>) -> LineEffect {
    match sse_payload_of(line) {
        None => LineEffect::Ignore,
        Some(d) => match classify_payload(d) {
            EventView::Delta(t) => LineEffect::Delta(t),
            EventView::Error(_) => LineEffect::Fail,
            EventView::StopReason(r) => LineEffect::Stop(r),
            EventView::Other => LineEffect::Ignore,
        },
    }
}

/// The state of a stream being consumed: undecoded bytes, the text so far,
/// and the last stop reason seen.
pub struct StreamView {
    pub pending: Seq<u8>,
    pub text: Seq<char>,
    pub stop: Option<Seq<char>>,
}

/// Drain every complete line of `st.pending`: the deltas emitted (in order)
/// and either the new state or the failure (a mid-stream error event stops
/// the draining; the deltas before it were already emitted).
pub open spec fn drained(st: StreamView) -> (Seq<Seq<char>>, Option<StreamView>)
    decreases st.pending.len(),
{
    let nl = first_newline(st.pending, 0);
    if nl >= st.pending.len() {
        (Seq::empty(), Some(st))
    } else {
        proof {
            lemma_first_newline(st.pending, 0);
        }
        let line = trim(utf8_lossy(st.pending.take(nl + 1)));
        let rest = st.pending.skip(nl + 1);
        match line_effect(line) {
            LineEffect::Fail => (Seq::empty(), None),
            LineEffect::Delta(t) => {
                let (ds, o) = drained(StreamView { pending: rest, text: st.text + t, stop: st.stop });
                (seq![t] + ds, o)
            },
            LineEffect::Stop(r) => drained(StreamView { pending: rest, text: st.text, stop: Some(r) }),
            LineEffect::Ignore => drained(StreamView { pending: rest, text: st.text, stop: st.stop }),
        }
    }
}

/// What handling one network chunk produced: the deltas to emit, and the
/// error when the stream failed.
#[derive(Debug, Clone, PartialEq)]
pub struct ChunkOutcome {
    pub deltas: Vec<String>,
    pub error: Option<String>,
}

/// Consumes a Messages SSE byte stream chunk by chunk.
pub struct SseConsumer {
    buf: SseLineBuffer,
    text: Vec<char>,
    stop_reason: Option<String>,
}

impl SseConsumer {
    pub closed spec fn view(&self) -> StreamView {
        StreamView {
            pending: self.buf.buf@,
            text: self.text@,
            stop: match self.stop_reason {
                Some(r) => Some(r@),
                None => None,
            },
        }
    }

    /// A consumer that has seen nothing.
    pub fn new() -> (c: Self)
        ensures
            c@.pending == Seq::<u8>::empty(),
            c@.text == Seq::<char>::empty(),
            c@.stop is None,
    {
        SseConsumer { buf: SseLineBuffer::new(), text: Vec::new(), stop_reason: None }
    }

    /// Handle the next network chunk. `cancelled` is the user's cancel flag as
    /// read on its arrival: a cancel ends the stream; otherwise every complete
    /// line is handled and the text deltas are returned in order. A mid-stream
    /// error event fails the stream (the deltas before it were emitted).
    pub fn on_chunk(&mut self, cancelled: bool, bytes: &[u8]) -> (out: ChunkOutcome)
        ensures
            cancelled ==> out.deltas@.len() == 0 && (out.error matches Some(e) && e@
                == "EttaError:cancelled"@ + ": the stream was cancelled"@),
            !cancelled ==> ({
                let (ds, o) = drained(
                    StreamView {
                        pending: old(self)@.pending + bytes@,
                        text: old(self)@.text,
                        stop: old(self)@.stop,
                    },
                );
                &&& crate::contract::strings_view(out.deltas@) == ds
                &&& match o {
                    Some(st) => out.error is None && final(self)@ == st,
                    None => out.error matches Some(e) && e@ == "the model reported an error mid-stream"@,
                }
            }),
    {
        if cancelled {
            return ChunkOutcome { deltas: Vec::new(), error: Some(cancelled_error()) };
        }
        self.buf.push(bytes);
        let ghost start = self@;
        assert(start == StreamView {
            pending: old(self)@.pending + bytes@,
            text: old(self)@.text,
            stop: old(self)@.stop,
        });
        let mut deltas: Vec<String> = Vec::new();
        assert(crate::contract::strings_view(deltas@) =~= Seq::<Seq<char>>::empty());
        loop
            invariant
                !cancelled,
                start == (StreamView {
                    pending: old(self)@.pending + bytes@,
                    text: old(self)@.text,
                    stop: old(self)@.stop,
                }),
                drained(start).1 == drained(self@).1,
                drained(start).0 == crate::contract::strings_view(deltas@) + drained(self@).0,
            ensures
                drained(start).1 == Some(self@),
                drained(start).0 == crate::contract::strings_view(deltas@),
            decreases self@.pending.len(),
        {
            let ghost before = self@;
            let ghost nl = first_newline(before.pending, 0);
            proof {
                lemma_first_newline(before.pending, 0);
            }
            let line = match self.buf.next_line() {
                Some(l) => l,
                None => {
                    proof {
                        if nl < before.pending.len() {
                            assert(before.pending.contains(10u8)) by {
                                assert(before.pending[nl] == 10u8);
                            }
                        }
                        assert(self@ == before);
                        assert(drained(before).0 =~= Seq::<Seq<char>>::empty());
                        assert(crate::contract::strings_view(deltas@) + Seq::<Seq<char>>::empty()
                            =~= crate::contract::strings_view(deltas@));
                    }
                    break;
                },
            };
            proof {
                let n2 = choose|n2: int|
                    0 <= n2 < before.pending.len() && before.pending[n2] == 10u8 && (forall|j: int|
                        0 <= j < n2 ==> before.pending[j] != 10u8) && line@ == trim(
                        utf8_lossy(before.pending.take(n2 + 1)),
                    ) && self.buf.buf@ == before.pending.skip(n2 + 1);
                if n2 < nl {
                    assert(before.pending[n2] != 10u8);
                } else if n2 > nl {
                    assert(before.pending[nl] != 10u8);
                }
                assert(line@ == trim(utf8_lossy(before.pending.take(nl + 1))));
                assert(self@.pending == before.pending.skip(nl + 1));
            }
            match sse_payload(line.as_str()) {
                None => {},
                Some(data) => {
                    let ev = classify_stream_event(data.as_str());
                    match ev {
                        StreamEvent::Delta(t) => {
                            let ghost d0 = deltas@;
                            push_str(&mut self.text, t.as_str());
                            let ghost tv = t@;
                            deltas.push(t);
                            assert(crate::contract::strings_view(deltas@) =~= crate::contract::strings_view(d0).push(tv));
                            assert(crate::contract::strings_view(d0).push(tv) + drained(self@).0
                                =~= crate::contract::strings_view(d0) + (seq![tv] + drained(self@).0));
                        },
                        StreamEvent::Error(_) => {
                            assert(drained(before).1 is None);
                            assert(drained(before).0 =~= Seq::<Seq<char>>::empty());
                            assert(crate::contract::strings_view(deltas@) + Seq::<Seq<char>>::empty()
                                =~= crate::contract::strings_view(deltas@));
                            return ChunkOutcome { deltas, error: Some(owned("the model reported an error mid-stream")) };
                        },
                        StreamEvent::StopReason(r) => {
                            self.stop_reason = Some(r);
                        },
                        StreamEvent::Other => {},
                    }
                },
            }
        }
        ChunkOutcome { deltas, error: None }
    }

    /// The error a failed network read ends the stream with (the marked
    /// cancel error when the user's cancel raced the failure).
    pub fn on_read_failure(cancelled: bool) -> (e: String)
        ensures
            cancelled ==> e@ == "EttaError:cancelled"@ + ": the stream was cancelled"@,
            !cancelled ==> e@ == "the model stream was interrupted"@,
    {
        or_cancelled(cancelled, owned("the model stream was interrupted"))
    }

    /// The end of the stream: the whole text when the model finished cleanly,
    /// else the stop-reason error (a stream that ends with no stop reason was
    /// cut short).
    pub fn finish(self) -> (r: Result<String, String>)
        ensures
            match r {
                Ok(t) => stop_reason_verdict(self@.stop) is Ok && t@ == self@.text,
                Err(e) => stop_reason_verdict(self@.stop) == Err::<(), Seq<char>>(e@),
            },
    {
        let reason: Option<&str> = match &self.stop_reason {
            Some(r) => Some(r.as_str()),
            None => None,
        };
        match check_stop_reason(reason) {
            Ok(()) => Ok(string_of(self.text.as_slice())),
            Err(e) => Err(e),
        }
    }
}

/// Feed `more` bytes after a drain's outcome: the deltas of both drains, and
/// the final state (None once a mid-stream error ended the stream).
pub open spec fn then_drained(first: (Seq<Seq<char>>, Option<StreamView>), more: Seq<u8>) -> (
    Seq<Seq<char>>,
    Option<StreamView>,
) {
    match first.1 {
        None => (first.0, None),
        Some(s) => {
            let (d2, o2) = drained(StreamView { pending: s.pending + more, text: s.text, stop: s.stop });
            (first.0 + d2, o2)
        },
    }
}

proof fn lemma_first_newline_extend(b: Seq<u8>, c: Seq<u8>, i: int)
    requires
        0 <= i <= b.len(),
        first_newline(b, i) < b.len(),
    ensures
        first_newline(b + c, i) == first_newline(b, i),
    decreases b.len() - i,
{
    assert((b + c)[i] == b[i]);
    if b[i] != 10u8 {
        lemma_first_newline_extend(b, c, i + 1);
    }
}

/// Where a network chunk boundary falls does not matter: draining pending
/// bytes `x` and then `more`, or `x + more` at once, emits the same deltas and
/// reaches the same state. (So a character split across chunks decodes whole:
/// lines are decoded only once complete.)
pub proof fn lemma_drained_chunking(st: StreamView, more: Seq<u8>)
    ensures
        drained(StreamView { pending: st.pending + more, text: st.text, stop: st.stop }) == then_drained(
            drained(st),
            more,
        ),
    decreases st.pending.len(),
{
    let x = st.pending;
    let xm = x + more;
    let big = StreamView { pending: xm, text: st.text, stop: st.stop };
    lemma_first_newline(x, 0);
    let nl = first_newline(x, 0);
    if nl >= x.len() {
        assert(drained(st) == (Seq::<Seq<char>>::empty(), Some(st)));
        assert(Seq::<Seq<char>>::empty() + drained(big).0 =~= drained(big).0);
    } else {
        lemma_first_newline_extend(x, more, 0);
        lemma_first_newline(xm, 0);
        assert(xm.take(nl + 1) =~= x.take(nl + 1));
        assert(xm.skip(nl + 1) =~= x.skip(nl + 1) + more);
        let line = trim(utf8_lossy(x.take(nl + 1)));
        let rest = x.skip(nl + 1);
        match line_effect(line) {
            LineEffect::Fail => {},
            LineEffect::Delta(t) => {
                let next = StreamView { pending: rest, text: st.text + t, stop: st.stop };
                lemma_drained_chunking(next, more);
                let (ds, o) = drained(next);
                match o {
                    Some(s2) => {
                        let d2 = drained(StreamView { pending: s2.pending + more, text: s2.text, stop: s2.stop }).0;
                        assert(seq![t] + (ds + d2) =~= (seq![t] + ds) + d2);
                    },
                    None => {},
                }
            },
            LineEffect::Stop(r) => {
                lemma_drained_chunking(StreamView { pending: rest, text: st.text, stop: Some(r) }, more);
            },
            LineEffect::Ignore => {
                lemma_drained_chunking(StreamView { pending: rest, text: st.text, stop: st.stop }, more);
            },
        }
    }
}

/// `first_newline` is the position of the first newline at or after `i`.
pub proof fn lemma_first_newline(b: Seq<u8>, i: int)
    requires
        0 <= i <= b.len(),
    ensures
        i <= first_newline(b, i) <= b.len(),
        first_newline(b, i) < b.len() ==> b[first_newline(b, i)] == 10u8,
        forall|j: int| i <= j < first_newline(b, i) ==> b[j] != 10u8,
    decreases b.len() - i,
{
    if i < b.len() && b[i] != 10u8 {
        lemma_first_newline(b, i + 1);
    }
}

} // verus!
