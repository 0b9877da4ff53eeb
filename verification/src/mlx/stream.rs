//! Reading a stream of server-sent events.

use vstd::prelude::*;
use vstd::string::*;

use crate::json;
use crate::mlx::retry;
use crate::mlx::retry::read_setting;
use crate::text;
use crate::text::{number, same, strip_prefix, trim};

verus! {

/// How many bytes of an unfinished line are kept where nothing else is said.
pub const MAX_SSE_BUFFER: usize = 8388608;

/// A smaller limit is not accepted.
pub const MIN_SSE_BUFFER: usize = 1024;

/// How long the stream may pause, in seconds, where nothing else is said.
pub const STREAM_DEFAULT_IDLE_SECS: u64 = 60;

/// One step of an answer: a piece of text, or its end.
#[derive(Debug)]
pub struct MlxStreamDelta {
    pub token: String,
    pub finished: bool,
}

/// What an `MlxStreamDelta` holds.
#[verifier::ext_equal]
pub struct DeltaView {
    pub token: Seq<char>,
    pub finished: bool,
}

impl MlxStreamDelta {
    pub open spec fn view(&self) -> DeltaView {
        DeltaView { token: self.token@, finished: self.finished }
    }
}

pub open spec fn opt_delta(o: Option<MlxStreamDelta>) -> Option<DeltaView> {
    match o {
        Some(d) => Some(d@),
        None => None,
    }
}

// ---------------------------------------------------------------------------
// Lines
// ---------------------------------------------------------------------------

/// The content that a message carries: `choices[0].delta.content`, where it is a text.
pub open spec fn content_in(j: json::Json) -> Option<Seq<char>> {
    json::as_text(
        json::under(json::under(json::at(json::under(j, "choices"@), 0), "delta"@), "content"@),
    )
}

/// The step that a content stands for; an empty one is none.
pub open spec fn content_delta(content: Option<Seq<char>>) -> Option<DeltaView> {
    match content {
        Some(s) => if s.len() > 0 {
            Some(DeltaView { token: s, finished: false })
        } else {
            None
        },
        None => None,
    }
}

/// The step that a line stands for. A line without the prefix, or whose data is not JSON, is none.
pub open spec fn line_delta(line: Seq<char>) -> Option<DeltaView> {
    if !"data: "@.is_prefix_of(line) {
        None
    } else {
        let data = line.skip("data: "@.len() as int);
        if data == "[DONE]"@ {
            Some(DeltaView { token: Seq::empty(), finished: true })
        } else {
            match json::json_read(data) {
                Some(j) => content_delta(content_in(j)),
                None => None,
            }
        }
    }
}

/// The step that a content stands for.
pub fn delta_of_content(content: Option<String>) -> (r: Option<MlxStreamDelta>)
    ensures
        opt_delta(r) == content_delta(text::opt_text(content)),
{
    match content {
        Some(token) => if token.as_str().is_empty() {
            None
        } else {
            Some(MlxStreamDelta { token, finished: false })
        },
        None => None,
    }
}

/// The step that a line of the stream stands for.
pub fn parse_sse_line(line: &str) -> (r: Option<MlxStreamDelta>)
    ensures
        opt_delta(r) == line_delta(line@),
{
    let data = match strip_prefix(line, "data: ") {
        Some(d) => d,
        None => return None,
    };
    if same(data.as_str(), "[DONE]") {
        return Some(MlxStreamDelta { token: String::new(), finished: true });
    }
    match json::read(data.as_str()) {
        Some(v) => delta_of_content(
            json::text_of(
                json::get(json::get(json::get_at(json::get(&v, "choices"), 0), "delta"), "content"),
            ),
        ),
        None => None,
    }
}

// ---------------------------------------------------------------------------
// Bytes
// ---------------------------------------------------------------------------

/// What `String::from_utf8_lossy` makes of bytes.
pub uninterp spec fn lossy(bytes: Seq<u8>) -> Seq<char>;

/// Calls `String::from_utf8_lossy`: the result follows from the bytes alone, and valid UTF-8 is
/// decoded as it stands. What stands for invalid bytes is left open.
#[verifier::external_body]
fn decode_lossy(bytes: &Vec<u8>) -> (r: String)
    ensures
        r@ == lossy(bytes@),
        vstd::utf8::valid_utf8(bytes@) ==> r@ == vstd::utf8::decode_utf8(bytes@),
{
    String::from_utf8_lossy(bytes).into_owned()
}

/// The position of the first line feed; the length where there is none.
pub open spec fn line_end(b: Seq<u8>) -> int
    decreases b.len(),
{
    if b.len() == 0 {
        0
    } else if b[0] == 10 {
        0
    } else {
        1 + line_end(b.skip(1))
    }
}

/// The step that the bytes of a line stand for.
pub open spec fn bytes_delta(line: Seq<u8>) -> Option<DeltaView> {
    line_delta(text::trimmed(lossy(line)))
}

/// The first step in the finished lines, and the bytes after the line that holds it.
pub open spec fn drained(b: Seq<u8>) -> (Option<DeltaView>, Seq<u8>)
    decreases b.len(),
{
    let end = line_end(b);
    if 0 <= end < b.len() {
        match bytes_delta(b.take(end)) {
            Some(d) => (Some(d), b.skip(end + 1)),
            None => drained(b.skip(end + 1)),
        }
    } else {
        (None, b)
    }
}

/// The last step of a stream that has ended: from the finished lines, or else from the line that
/// was cut off.
pub open spec fn ended(b: Seq<u8>) -> (Option<DeltaView>, Seq<u8>) {
    let d = drained(b);
    if d.0 is Some {
        d
    } else {
        let tail = text::trimmed(lossy(d.1));
        if tail.len() > 0 {
            (line_delta(tail), Seq::empty())
        } else {
            (None, d.1)
        }
    }
}

/// What the stream brings.
#[derive(Debug)]
pub enum StreamEvent {
    /// Some bytes.
    Chunk(Vec<u8>),
    /// A failure to read.
    Failed(String),
    /// Its end.
    Eof,
    /// Nothing, for too long.
    Stalled,
}

/// What comes of it.
#[derive(Debug)]
pub enum StreamStep {
    /// A step of the answer.
    Emit(MlxStreamDelta),
    /// The stream is broken.
    Fail(String),
    /// More is needed.
    More,
    /// The answer is complete.
    End,
}

/// What a `StreamEvent` holds.
pub enum EventView {
    Chunk(Seq<u8>),
    Failed(Seq<char>),
    Eof,
    Stalled,
}

/// What a `StreamStep` holds.
#[verifier::ext_equal]
pub enum StepView {
    Emit(DeltaView),
    Fail(Seq<char>),
    More,
    End,
}

impl StreamEvent {
    pub open spec fn view(&self) -> EventView {
        match *self {
            StreamEvent::Chunk(b) => EventView::Chunk(b@),
            StreamEvent::Failed(s) => EventView::Failed(s@),
            StreamEvent::Eof => EventView::Eof,
            StreamEvent::Stalled => EventView::Stalled,
        }
    }
}

impl StreamStep {
    pub open spec fn view(&self) -> StepView {
        match *self {
            StreamStep::Emit(d) => StepView::Emit(d@),
            StreamStep::Fail(s) => StepView::Fail(s@),
            StreamStep::More => StepView::More,
            StreamStep::End => StepView::End,
        }
    }
}

/// What comes of an event, and the bytes that are kept.
pub open spec fn stream_step(
    b: Seq<u8>,
    event: EventView,
    cap: nat,
    idle_secs: nat,
) -> (StepView, Seq<u8>) {
    match event {
        EventView::Chunk(chunk) => {
            let d = drained(b + chunk);
            match d.0 {
                Some(delta) => (StepView::Emit(delta), d.1),
                None => if d.1.len() > cap {
                    (
                        StepView::Fail(
                            "SSE buffer 残留超限 ("@ + text::decimal(cap) + " 字节) 无完整行"@,
                        ),
                        Seq::empty(),
                    )
                } else {
                    (StepView::More, d.1)
                },
            }
        },
        EventView::Failed(e) => (StepView::Fail("SSE 读取出错: "@ + e), b),
        EventView::Eof => {
            let d = ended(b);
            match d.0 {
                Some(delta) => (StepView::Emit(delta), d.1),
                None => (StepView::End, d.1),
            }
        },
        EventView::Stalled => (
            StepView::Fail(
                "SSE 流 stall：超过 "@ + text::decimal(idle_secs)
                    + "s 未见下一 chunk（FUSION_MLX_STREAM_IDLE_SECS 可调）"@,
            ),
            b,
        ),
    }
}

/// The bytes that were read and not yet used.
#[derive(Debug)]
pub struct SseBuffer {
    bytes: Vec<u8>,
}

proof fn lemma_line_end(b: Seq<u8>)
    ensures
        0 <= line_end(b) <= b.len(),
        line_end(b) < b.len() ==> b[line_end(b)] == 10,
        forall|i: int| 0 <= i < line_end(b) ==> b[i] != 10,
    decreases b.len(),
{
    if b.len() > 0 && b[0] != 10 {
        let rest = b.skip(1);
        lemma_line_end(rest);
        assert forall|i: int| 0 <= i < line_end(b) implies b[i] != 10 by {
            if i > 0 {
                assert(b[i] == rest[i - 1]);
            }
        }
    }
}

proof fn lemma_line_end_is(b: Seq<u8>, at: int)
    requires
        0 <= at <= b.len(),
        at < b.len() ==> b[at] == 10,
        forall|i: int| 0 <= i < at ==> b[i] != 10,
    ensures
        line_end(b) == at,
{
    lemma_line_end(b);
    let e = line_end(b);
    if e < at {
        assert(b[e] != 10);
    } else if at < e {
        assert(b[at] != 10);
    }
}

impl SseBuffer {
    pub closed spec fn view(&self) -> Seq<u8> {
        self.bytes@
    }

    /// No bytes.
    pub fn new() -> (r: Self)
        ensures
            r@ == Seq::<u8>::empty(),
    {
        SseBuffer { bytes: Vec::new() }
    }

    fn split_line(&mut self) -> (r: Option<Vec<u8>>)
        ensures
            match r {
                Some(line) => line_end(old(self)@) < old(self)@.len() && line@ == old(self)@.take(
                    line_end(old(self)@),
                ) && final(self)@ == old(self)@.skip(line_end(old(self)@) + 1),
                None => line_end(old(self)@) == old(self)@.len() && final(self)@ == old(self)@,
            },
    {
        let ghost b = self.bytes@;
        let mut i: usize = 0;
        while i < self.bytes.len() && self.bytes[i] != 10
            invariant
                i <= self.bytes@.len(),
                b == self.bytes@,
                forall|k: int| 0 <= k < i ==> b[k] != 10,
            decreases self.bytes.len() - i,
        {
            i = i + 1;
        }
        proof {
            lemma_line_end_is(b, i as int);
        }
        if i >= self.bytes.len() {
            return None;
        }
        let rest = self.bytes.split_off(i + 1);
        let mut line: Vec<u8> = Vec::new();
        core::mem::swap(&mut line, &mut self.bytes);
        self.bytes = rest;
        line.pop();
        proof {
            assert(line@ =~= b.take(i as int));
            assert(self.bytes@ =~= b.skip(i + 1));
        }
        Some(line)
    }

    /// Takes the first step out of the finished lines.
    fn drain(&mut self) -> (r: Option<MlxStreamDelta>)
        ensures
            opt_delta(r) == drained(old(self)@).0,
            final(self)@ == drained(old(self)@).1,
    {
        proof {
            lemma_line_end(self@);
        }
        let mut next = self.split_line();
        let ghost mut before = old(self)@;
        while next.is_some()
            invariant
                drained(old(self)@) == drained(before),
                0 <= line_end(before) <= before.len(),
                match next {
                    Some(line) => line_end(before) < before.len() && line@ == before.take(
                        line_end(before),
                    ) && self@ == before.skip(line_end(before) + 1),
                    None => line_end(before) == before.len() && self@ == before,
                },
            decreases before.len(),
        {
            match next {
                Some(line) => {
                    let s = trim(decode_lossy(&line).as_str());
                    match parse_sse_line(s.as_str()) {
                        Some(d) => return Some(d),
                        None => {},
                    }
                },
                None => {},
            }
            proof {
                before = self@;
                lemma_line_end(before);
            }
            next = self.split_line();
        }
        None
    }

    /// What comes of an event.
    pub fn step(&mut self, event: StreamEvent, cap: usize, idle_secs: u64) -> (r: StreamStep)
        ensures
            r@ == stream_step(old(self)@, event@, cap as nat, idle_secs as nat).0,
            final(self)@ == stream_step(old(self)@, event@, cap as nat, idle_secs as nat).1,
    {
        match event {
            StreamEvent::Chunk(chunk) => {
                let ghost before = self.bytes@;
                let mut more = chunk;
                self.bytes.append(&mut more);
                match self.drain() {
                    Some(d) => StreamStep::Emit(d),
                    None => if self.bytes.len() > cap {
                        self.bytes = Vec::new();
                        StreamStep::Fail(
                            "SSE buffer 残留超限 (".to_owned().concat(
                                number(cap as u64).as_str(),
                            ).concat(" 字节) 无完整行"),
                        )
                    } else {
                        StreamStep::More
                    },
                }
            },
            StreamEvent::Failed(e) => StreamStep::Fail(
                "SSE 读取出错: ".to_owned().concat(e.as_str()),
            ),
            StreamEvent::Eof => {
                match self.drain() {
                    Some(d) => StreamStep::Emit(d),
                    None => {
                        let tail = trim(decode_lossy(&self.bytes).as_str());
                        if tail.as_str().is_empty() {
                            StreamStep::End
                        } else {
                            self.bytes = Vec::new();
                            match parse_sse_line(tail.as_str()) {
                                Some(d) => StreamStep::Emit(d),
                                None => StreamStep::End,
                            }
                        }
                    },
                }
            },
            StreamEvent::Stalled => StreamStep::Fail(
                "SSE 流 stall：超过 ".to_owned().concat(number(idle_secs).as_str()).concat(
                    "s 未见下一 chunk（FUSION_MLX_STREAM_IDLE_SECS 可调）",
                ),
            ),
        }
    }
}

/// How many bytes of an unfinished line are kept: the setting, where it is large enough; else the
/// default.
pub fn sse_buffer_cap(value: &Option<String>) -> (r: usize)
    ensures
        r == retry::setting(
            text::opt_text(*value),
            MIN_SSE_BUFFER as int,
            usize::MAX as int,
            MAX_SSE_BUFFER as int,
        ),
{
    read_setting(value, MIN_SSE_BUFFER as u64, usize::MAX as u64, MAX_SSE_BUFFER as u64) as usize
}

/// How long the stream may pause, in seconds.
pub fn stream_idle_secs(value: &Option<String>) -> (r: u64)
    ensures
        r == retry::setting(
            text::opt_text(*value),
            0,
            u64::MAX as int,
            STREAM_DEFAULT_IDLE_SECS as int,
        ),
{
    read_setting(value, 0, u64::MAX, STREAM_DEFAULT_IDLE_SECS)
}

// ---------------------------------------------------------------------------
// Laws
// ---------------------------------------------------------------------------

/// All steps in the finished lines.
pub open spec fn all_steps(b: Seq<u8>) -> Seq<DeltaView>
    decreases b.len(),
{
    let end = line_end(b);
    if 0 <= end < b.len() {
        (match bytes_delta(b.take(end)) {
            Some(d) => seq![d],
            None => Seq::empty(),
        }) + all_steps(b.skip(end + 1))
    } else {
        Seq::empty()
    }
}

/// The bytes after the last finished line.
pub open spec fn unfinished(b: Seq<u8>) -> Seq<u8>
    decreases b.len(),
{
    let end = line_end(b);
    if 0 <= end < b.len() {
        unfinished(b.skip(end + 1))
    } else {
        b
    }
}

/// How the bytes are cut into chunks does not matter: what a first chunk leaves unfinished, read
/// together with the next, gives the same steps as both read at once. No character is damaged by a
/// cut, since only finished lines are decoded.
pub proof fn law_chunks_do_not_matter(a: Seq<u8>, b: Seq<u8>)
    ensures
        all_steps(a + b) == all_steps(a) + all_steps(unfinished(a) + b),
        unfinished(a + b) == unfinished(unfinished(a) + b),
    decreases a.len(),
{
    lemma_line_end(a);
    let end = line_end(a);
    if end < a.len() {
        lemma_line_end_is(a + b, end);
        assert((a + b).take(end) =~= a.take(end));
        assert((a + b).skip(end + 1) =~= a.skip(end + 1) + b);
        law_chunks_do_not_matter(a.skip(end + 1), b);
        assert(all_steps(a + b) =~= all_steps(a) + all_steps(unfinished(a) + b));
    } else {
        assert(all_steps(a) + all_steps(a + b) =~= all_steps(a + b));
    }
}

/// Taking steps out one at a time gives all steps of the finished lines, in order.
pub proof fn law_draining_takes_the_first_step(b: Seq<u8>)
    ensures
        match drained(b).0 {
            Some(d) => all_steps(b) == seq![d] + all_steps(drained(b).1) && unfinished(b)
                == unfinished(drained(b).1),
            None => all_steps(b).len() == 0 && drained(b).1 == unfinished(b),
        },
    decreases b.len(),
{
    lemma_line_end(b);
    let end = line_end(b);
    if end < b.len() {
        if bytes_delta(b.take(end)) is None {
            law_draining_takes_the_first_step(b.skip(end + 1));
            assert(all_steps(b) =~= all_steps(b.skip(end + 1)));
        }
    }
}

/// The end of a stream loses nothing: as long as a finished line holds a step, that step comes out,
/// and once none does, the line that was cut off is read as it stands.
pub proof fn law_end_loses_nothing(b: Seq<u8>, cap: nat, idle_secs: nat)
    ensures
        all_steps(b).len() > 0 ==> stream_step(b, EventView::Eof, cap, idle_secs).0
            == StepView::Emit(all_steps(b)[0]),
        all_steps(b).len() == 0 ==> stream_step(b, EventView::Eof, cap, idle_secs).0
            == (match line_delta(text::trimmed(lossy(unfinished(b)))) {
            Some(d) => StepView::Emit(d),
            None => StepView::End,
        }),
{
    law_draining_takes_the_first_step(b);
    if all_steps(b).len() == 0 {
        let tail = text::trimmed(lossy(unfinished(b)));
        if tail.len() == 0 {
            reveal_strlit("data: ");
            assert(line_delta(tail) is None);
        }
    }
}

/// A line that ends the answer is recognised whatever came before it.
pub proof fn law_done_line_finishes()
    ensures
        line_delta("data: [DONE]"@) == Some(DeltaView { token: Seq::empty(), finished: true }),
{
    reveal_strlit("data: [DONE]");
    reveal_strlit("data: ");
    reveal_strlit("[DONE]");
    assert("data: "@ =~= "data: [DONE]"@.subrange(0, 6));
    assert("data: [DONE]"@.skip(6) =~= "[DONE]"@);
}

/// What was read too long without a line, a failed read and a stalled stream fail; everything else
/// goes on or ends.
pub proof fn law_streams_fail_for_a_reason(
    b: Seq<u8>,
    chunk: Seq<u8>,
    e: Seq<char>,
    cap: nat,
    idle_secs: nat,
)
    ensures
        ({
            let d = drained(b + chunk);
            let step = stream_step(b, EventView::Chunk(chunk), cap, idle_secs);
            &&& step.0 is Fail <==> d.0 is None && d.1.len() > cap
            &&& step.0 is Emit <==> d.0 is Some
            &&& d.0 matches Some(delta) ==> step == (StepView::Emit(delta), d.1)
            &&& step.0 is More ==> step.1 == d.1 && step.1.len() <= cap
        }),
        stream_step(b, EventView::Failed(e), cap, idle_secs).0 is Fail,
        stream_step(b, EventView::Failed(e), cap, idle_secs).1 == b,
        stream_step(b, EventView::Stalled, cap, idle_secs).0 is Fail,
        stream_step(b, EventView::Eof, cap, idle_secs).0 is Emit || stream_step(
            b,
            EventView::Eof,
            cap,
            idle_secs,
        ).0 is End,
{
}

} // verus!
