//! The frames in which a streamed answer is handed on.

use vstd::prelude::*;
use vstd::string::*;

use crate::codegen::wrap;
use crate::json;
use crate::json::quote;
use crate::mlx::stream;
use crate::mlx::stream::{DeltaView, MlxStreamDelta};
use crate::text;

verus! {

pub open spec fn ndjson_delta(token: Seq<char>) -> Seq<char> {
    "{\"token\":"@ + json::quoted(token) + ",\"type\":\"delta\"}"@
}

pub open spec fn ndjson_done() -> Seq<char> {
    "{\"finish_reason\":\"stop\",\"type\":\"chat_done\"}"@
}

pub open spec fn ndjson_error(message: Seq<char>) -> Seq<char> {
    "{\"message\":"@ + json::quoted(message) + ",\"type\":\"error\"}"@
}

/// A piece of an answer, as one line of JSON.
pub fn ndjson_frame_delta(token: &str) -> (r: String)
    ensures
        r@ == ndjson_delta(token@),
{
    wrap("{\"token\":", quote(token).as_str(), ",\"type\":\"delta\"}")
}

/// The end of an answer, as one line of JSON.
pub fn ndjson_frame_done() -> (r: String)
    ensures
        r@ == ndjson_done(),
{
    "{\"finish_reason\":\"stop\",\"type\":\"chat_done\"}".to_owned()
}

/// A failure, as one line of JSON.
pub fn ndjson_frame_error(message: &str) -> (r: String)
    ensures
        r@ == ndjson_error(message@),
{
    wrap("{\"message\":", quote(message).as_str(), ",\"type\":\"error\"}")
}

/// The data of a frame that carries a piece of an answer.
pub open spec fn delta_data(token: Seq<char>) -> Seq<char> {
    json::delta_text(json::quoted(token))
}

/// A piece of an answer, as a server-sent event: one line, which reads as that piece, and an empty
/// line.
pub fn sse_frame_delta(token: &str) -> (r: String)
    ensures
        r@ == "data: "@ + delta_data(token@) + "\n\n"@,
        !("data: "@ + delta_data(token@)).contains('\n'),
        stream::line_delta("data: "@ + delta_data(token@)) == stream::content_delta(Some(token@)),
{
    proof {
        law_frames_are_one_line(token@, '\n');
        reveal_strlit("data: ");
        lemma_avoids("data: "@, delta_data(token@), Seq::empty(), '\n');
        assert("data: "@ + delta_data(token@) + Seq::empty() =~= "data: "@ + delta_data(token@));
    }
    let data = wrap(
        "{\"choices\":[{\"delta\":{\"content\":",
        quote(token).as_str(),
        "},\"index\":0}]}",
    );
    proof {
        lemma_delta_reads_back(token@);
    }
    wrap("data: ", data.as_str(), "\n\n")
}

pub open spec fn sse_done() -> Seq<char> {
    "data: {\"choices\":[{\"delta\":{},\"finish_reason\":\"stop\",\"index\":0}]}\n\ndata: [DONE]\n\n"@
}

/// The end of an answer, as server-sent events.
pub fn sse_frame_done() -> (r: String)
    ensures
        r@ == sse_done(),
{
    "data: {\"choices\":[{\"delta\":{},\"finish_reason\":\"stop\",\"index\":0}]}\n\ndata: [DONE]\n\n".to_owned()
}

/// The data of a frame that carries a failure.
pub open spec fn error_data(message: Seq<char>) -> Seq<char> {
    "{\"error\":{\"message\":"@ + json::quoted(message) + "}}"@
}

/// A failure, as a server-sent event.
pub fn sse_frame_error(message: &str) -> (r: String)
    ensures
        r@ == "data: "@ + error_data(message@) + "\n\n"@,
{
    let data = wrap("{\"error\":{\"message\":", quote(message).as_str(), "}}");
    wrap("data: ", data.as_str(), "\n\n")
}

// ---------------------------------------------------------------------------
// Streams
// ---------------------------------------------------------------------------

/// How the frames are written.
#[derive(Debug, Clone, Copy, PartialEq, Eq, Structural)]
pub enum StreamFormat {
    Ndjson,
    Sse,
}

/// What is printed for a step of a stream, and whether the stream is over.
#[derive(Debug)]
pub struct Frame {
    pub output: String,
    pub over: bool,
}

/// What is printed for a piece of an answer; an empty piece prints nothing.
pub open spec fn delta_output(format: StreamFormat, delta: DeltaView) -> Seq<char> {
    if delta.finished {
        match format {
            StreamFormat::Ndjson => ndjson_done() + "\n"@,
            StreamFormat::Sse => sse_done(),
        }
    } else if delta.token.len() == 0 {
        Seq::empty()
    } else {
        match format {
            StreamFormat::Ndjson => ndjson_delta(delta.token) + "\n"@,
            StreamFormat::Sse => "data: "@ + delta_data(delta.token) + "\n\n"@,
        }
    }
}

/// What is printed for a failure.
pub open spec fn error_output(format: StreamFormat, message: Seq<char>) -> Seq<char> {
    match format {
        StreamFormat::Ndjson => ndjson_error(message) + "\n"@,
        StreamFormat::Sse => "data: "@ + error_data(message) + "\n\n"@,
    }
}

/// The frame for a step of a stream: a piece of the answer, or a failure, which ends it.
pub fn frame_for(format: StreamFormat, item: &Result<MlxStreamDelta, String>) -> (r: Frame)
    ensures
        match *item {
            Ok(d) => r.output@ == delta_output(format, d@) && r.over == d.finished,
            Err(e) => r.output@ == error_output(format, e@) && r.over,
        },
{
    match item {
        Ok(d) => {
            let output = if d.finished {
                match format {
                    StreamFormat::Ndjson => ndjson_frame_done().concat("\n"),
                    StreamFormat::Sse => sse_frame_done(),
                }
            } else if d.token.as_str().is_empty() {
                String::new()
            } else {
                match format {
                    StreamFormat::Ndjson => ndjson_frame_delta(d.token.as_str()).concat("\n"),
                    StreamFormat::Sse => sse_frame_delta(d.token.as_str()),
                }
            };
            Frame { output, over: d.finished }
        },
        Err(e) => {
            let output = match format {
                StreamFormat::Ndjson => ndjson_frame_error(e.as_str()).concat("\n"),
                StreamFormat::Sse => sse_frame_error(e.as_str()),
            };
            Frame { output, over: true }
        },
    }
}

// ---------------------------------------------------------------------------
// Laws
// ---------------------------------------------------------------------------

/// Whatever the piece of text in it, a frame is one line: nothing in it breaks the line.
pub proof fn law_frames_are_one_line(content: Seq<char>, bad: char)
    requires
        bad == '\n' || bad == '\r',
    ensures
        !delta_data(content).contains(bad),
        !error_data(content).contains(bad),
        !ndjson_delta(content).contains(bad),
        !ndjson_error(content).contains(bad),
        !ndjson_done().contains(bad),
{
    json::law_string_stays_on_its_line(content, bad);
    let b = json::quoted(content);
    reveal_strlit("{\"choices\":[{\"delta\":{\"content\":");
    reveal_strlit("},\"index\":0}]}");
    lemma_avoids("{\"choices\":[{\"delta\":{\"content\":"@, b, "},\"index\":0}]}"@, bad);
    reveal_strlit("{\"error\":{\"message\":");
    reveal_strlit("}}");
    lemma_avoids("{\"error\":{\"message\":"@, b, "}}"@, bad);
    reveal_strlit("{\"token\":");
    reveal_strlit(",\"type\":\"delta\"}");
    lemma_avoids("{\"token\":"@, b, ",\"type\":\"delta\"}"@, bad);
    reveal_strlit("{\"message\":");
    reveal_strlit(",\"type\":\"error\"}");
    lemma_avoids("{\"message\":"@, b, ",\"type\":\"error\"}"@, bad);
    reveal_strlit("{\"finish_reason\":\"stop\",\"type\":\"chat_done\"}");
}

proof fn lemma_avoids(a: Seq<char>, b: Seq<char>, c: Seq<char>, bad: char)
    requires
        !a.contains(bad),
        !b.contains(bad),
        !c.contains(bad),
    ensures
        !(a + b + c).contains(bad),
{
    let d = a + b + c;
    if d.contains(bad) {
        let k = choose|k: int| 0 <= k < d.len() && d[k] == bad;
        if k < a.len() {
            assert(a[k] == bad);
        } else if k < a.len() + b.len() {
            assert(b[k - a.len()] == bad);
        } else {
            assert(c[k - a.len() - b.len()] == bad);
        }
    }
}

proof fn lemma_delta_reads_back(token: Seq<char>)
    requires
        json::json_read(delta_data(token)) == Some(json::delta_object(token)),
    ensures
        stream::line_delta("data: "@ + delta_data(token)) == stream::content_delta(Some(token)),
{
    let data = delta_data(token);
    let line = "data: "@ + data;
    reveal_strlit("{\"choices\":[{\"delta\":{\"content\":");
    reveal_strlit("[DONE]");
    reveal_strlit("delta");
    reveal_strlit("index");
    assert("data: "@ =~= line.subrange(0, "data: "@.len() as int));
    assert(line.skip("data: "@.len() as int) =~= data);
    assert(data[0] == '{');
    assert("[DONE]"@[0] == '[');
    assert("delta"@[0] != "index"@[0]);
}

/// A piece of an answer, and a failure, stand in their frames as quoted text; an empty piece has no
/// frame, and every frame ends its line.
pub proof fn law_frames_carry_their_text(format: StreamFormat, token: Seq<char>, message: Seq<char>)
    ensures
        ({
            let piece = delta_output(format, DeltaView { token, finished: false });
            &&& token.len() == 0 <==> piece.len() == 0
            &&& token.len() > 0 ==> text::occurs(piece, json::quoted(token)) && piece.last() == '\n'
        }),
        text::occurs(error_output(format, message), json::quoted(message)),
        error_output(format, message).last() == '\n',
{
    reveal_strlit("\n");
    reveal_strlit("\n\n");
    let q = json::quoted(token);
    let m = json::quoted(message);
    let nothing = Seq::<char>::empty();
    match format {
        StreamFormat::Ndjson => {
            text::lemma_occurs_between(
                "{\"token\":"@,
                q,
                ",\"type\":\"delta\"}"@ + "\n"@,
            );
            assert("{\"token\":"@ + q + (",\"type\":\"delta\"}"@ + "\n"@) =~= ndjson_delta(token)
                + "\n"@);
            text::lemma_occurs_between(
                "{\"message\":"@,
                m,
                ",\"type\":\"error\"}"@ + "\n"@,
            );
            assert("{\"message\":"@ + m + (",\"type\":\"error\"}"@ + "\n"@) =~= ndjson_error(
                message,
            ) + "\n"@);
        },
        StreamFormat::Sse => {
            text::lemma_occurs_between(
                "{\"choices\":[{\"delta\":{\"content\":"@,
                q,
                "},\"index\":0}]}"@,
            );
            text::lemma_occurs_within("data: "@, delta_data(token), "\n\n"@, q);
            text::lemma_occurs_between("{\"error\":{\"message\":"@, m, "}}"@);
            text::lemma_occurs_within("data: "@, error_data(message), "\n\n"@, m);
        },
    }
}

/// The kind of a line of JSON is told by what it ends in, so that a piece, the end and a failure are
/// never taken for each other.
pub proof fn law_kinds_of_lines_are_told_apart(token: Seq<char>, message: Seq<char>)
    ensures
        (",\"type\":\"delta\"}"@).is_suffix_of(ndjson_delta(token)),
        (",\"type\":\"chat_done\"}"@).is_suffix_of(ndjson_done()),
        (",\"type\":\"error\"}"@).is_suffix_of(ndjson_error(message)),
        ndjson_delta(token) != ndjson_done(),
        ndjson_error(message) != ndjson_done(),
        ndjson_delta(token) != ndjson_error(message),
{
    reveal_strlit(",\"type\":\"delta\"}");
    reveal_strlit(",\"type\":\"chat_done\"}");
    reveal_strlit(",\"type\":\"error\"}");
    reveal_strlit("{\"token\":");
    reveal_strlit("{\"message\":");
    reveal_strlit("{\"finish_reason\":\"stop\",\"type\":\"chat_done\"}");
    let d = ndjson_delta(token);
    let e = ndjson_error(message);
    let o = ndjson_done();
    let dt = ",\"type\":\"delta\"}"@;
    let et = ",\"type\":\"error\"}"@;
    let ot = ",\"type\":\"chat_done\"}"@;
    assert(dt =~= d.subrange(d.len() - dt.len(), d.len() as int));
    assert(et =~= e.subrange(e.len() - et.len(), e.len() as int));
    assert(ot =~= o.subrange(o.len() - ot.len(), o.len() as int));
    assert(d[d.len() - 3] == 'a');
    assert(e[e.len() - 3] == 'r');
    assert(o[o.len() - 3] == 'e');
    assert(d[2] == 't' && e[2] == 'm' && o[2] == 'f') by {
        assert(d[2] == "{\"token\":"@[2]);
        assert(e[2] == "{\"message\":"@[2]);
    }
}

} // verus!
