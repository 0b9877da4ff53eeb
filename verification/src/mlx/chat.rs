//! Conversations: the messages that are sent and the pieces that come back.

use vstd::prelude::*;
use vstd::string::*;

use crate::codegen::wrap;
use crate::design_system;
use crate::design_system::DesignSystem;
use crate::text;
use crate::text::{chars_of, same, slice, trim};

verus! {

/// One message of a conversation.
#[derive(Debug)]
pub struct MlxChatMessage {
    pub role: String,
    pub content: String,
}

/// What an `MlxChatMessage` holds.
#[verifier::ext_equal]
pub struct MessageView {
    pub role: Seq<char>,
    pub content: Seq<char>,
}

impl MlxChatMessage {
    pub open spec fn view(&self) -> MessageView {
        MessageView { role: self.role@, content: self.content@ }
    }
}

pub open spec fn message_views(s: Seq<MlxChatMessage>) -> Seq<MessageView> {
    s.map_values(|m: MlxChatMessage| m@)
}

pub open spec fn message(role: Seq<char>, content: Seq<char>) -> MessageView {
    MessageView { role, content }
}

impl Clone for MlxChatMessage {
    fn clone(&self) -> (r: Self)
        ensures
            r@ == self@,
    {
        MlxChatMessage { role: self.role.clone(), content: self.content.clone() }
    }
}

fn push_message(all: &mut Vec<MlxChatMessage>, role: &str, content: &str)
    ensures
        message_views(final(all)@) == message_views(old(all)@).push(message(role@, content@)),
{
    all.push(MlxChatMessage { role: role.to_owned(), content: content.to_owned() });
    proof {
        assert(message_views(all@) =~= message_views(old(all)@).push(message(role@, content@)));
    }
}

/// A question with instructions.
pub fn single_turn(system_prompt: &str, user_message: &str) -> (r: Vec<MlxChatMessage>)
    ensures
        message_views(r@) == seq![
            message("system"@, system_prompt@),
            message("user"@, user_message@),
        ],
{
    let mut out: Vec<MlxChatMessage> = Vec::new();
    push_message(&mut out, "system", system_prompt);
    push_message(&mut out, "user", user_message);
    proof {
        assert(message_views(out@) =~= seq![
            message("system"@, system_prompt@),
            message("user"@, user_message@),
        ]);
    }
    out
}

/// A conversation: the instructions where they are not blank, what was said, and the new question.
pub open spec fn conversation(
    system: Seq<char>,
    history: Seq<MessageView>,
    user: Seq<char>,
) -> Seq<MessageView> {
    (if text::trimmed(system).len() > 0 {
        seq![message("system"@, system)]
    } else {
        Seq::empty()
    }) + history + seq![message("user"@, user)]
}

/// The messages of a conversation.
pub fn fold_history(system: &str, history: &Vec<MlxChatMessage>, user: &str) -> (r: Vec<
    MlxChatMessage,
>)
    ensures
        message_views(r@) == conversation(system@, message_views(history@), user@),
{
    let mut out: Vec<MlxChatMessage> = Vec::new();
    if !trim(system).as_str().is_empty() {
        push_message(&mut out, "system", system);
    }
    let ghost head = message_views(out@);
    let ghost views = message_views(history@);
    proof {
        if text::trimmed(system@).len() > 0 {
            assert(head =~= seq![message("system"@, system@)]);
        } else {
            assert(head =~= Seq::empty());
        }
        assert(head + views.take(0) =~= head);
    }
    let mut i: usize = 0;
    while i < history.len()
        invariant
            i <= history@.len(),
            views == message_views(history@),
            message_views(out@) == head + views.take(i as int),
        decreases history.len() - i,
    {
        let ghost before = message_views(out@);
        push_message(&mut out, history[i].role.as_str(), history[i].content.as_str());
        proof {
            text::lemma_take_step(views, i as int);
            assert(before.push(views[i as int]) =~= head + views.take(i + 1));
        }
        i = i + 1;
    }
    let ghost before = message_views(out@);
    push_message(&mut out, "user", user);
    proof {
        text::lemma_take_all(views);
        assert(message_views(out@) =~= before + seq![message("user"@, user@)]);
    }
    out
}

/// The answer among the choices that the service gives: the first, or a failure where there is
/// none.
pub fn first_choice(contents: Vec<String>) -> (r: Result<String, String>)
    ensures
        match r {
            Ok(s) => contents@.len() > 0 && s@ == contents@[0]@,
            Err(e) => contents@.len() == 0 && e@ == "fusion-mlx 返回空 choices"@,
        },
{
    if contents.len() > 0 {
        Ok(contents[0].clone())
    } else {
        Err("fusion-mlx 返回空 choices".to_owned())
    }
}

// ---------------------------------------------------------------------------
// Pieces
// ---------------------------------------------------------------------------

/// The position after the first line feed; the length where there is none.
pub open spec fn first_line_len(s: Seq<char>) -> int
    decreases s.len(),
{
    if s.len() == 0 {
        0
    } else if s[0] == '\n' {
        1
    } else {
        1 + first_line_len(s.skip(1))
    }
}

/// The lines of a text, each with its line feed.
pub open spec fn line_chunks(s: Seq<char>) -> Seq<Seq<char>>
    decreases s.len(),
{
    if s.len() == 0 || first_line_len(s) <= 0 || first_line_len(s) > s.len() {
        Seq::empty()
    } else {
        seq![s.take(first_line_len(s))] + line_chunks(s.skip(first_line_len(s)))
    }
}

proof fn lemma_first_line(s: Seq<char>)
    requires
        s.len() > 0,
    ensures
        0 < first_line_len(s) <= s.len(),
        forall|i: int| 0 <= i < first_line_len(s) - 1 ==> s[i] != '\n',
        s[first_line_len(s) - 1] != '\n' ==> first_line_len(s) == s.len(),
    decreases s.len(),
{
    if s[0] != '\n' && s.len() > 1 {
        let rest = s.skip(1);
        lemma_first_line(rest);
        assert forall|i: int| 0 <= i < first_line_len(s) - 1 implies s[i] != '\n' by {
            if i > 0 {
                assert(s[i] == rest[i - 1]);
            }
        }
        assert(s[first_line_len(s) - 1] == rest[first_line_len(rest) - 1]);
    } else if s[0] != '\n' {
        assert(s.skip(1).len() == 0);
        reveal_with_fuel(first_line_len, 2);
    }
}

proof fn lemma_first_line_is(s: Seq<char>, n: int)
    requires
        0 < n <= s.len(),
        forall|i: int| 0 <= i < n - 1 ==> s[i] != '\n',
        s[n - 1] == '\n' || n == s.len(),
    ensures
        first_line_len(s) == n,
{
    lemma_first_line(s);
    let m = first_line_len(s);
    if m < n {
        assert(s[m - 1] != '\n');
    } else if n < m {
        assert(s[n - 1] != '\n');
    }
}

/// The pieces of an answer: its lines, each with its line feed.
pub fn text_chunks(answer: &str) -> (r: Vec<String>)
    ensures
        text::texts(r@) == line_chunks(answer@),
{
    let cs = chars_of(answer);
    let mut out: Vec<String> = Vec::new();
    let mut from: usize = 0;
    proof {
        assert(answer@.skip(0) =~= answer@);
        assert(text::texts(out@) + line_chunks(answer@) =~= line_chunks(answer@));
    }
    while from < cs.len()
        invariant
            from <= cs@.len(),
            cs@ == answer@,
            line_chunks(answer@) == text::texts(out@) + line_chunks(answer@.skip(from as int)),
        decreases cs.len() - from,
    {
        let ghost rest = answer@.skip(from as int);
        let mut to: usize = from;
        while to < cs.len() && cs[to] != '\n'
            invariant
                from <= to <= cs@.len(),
                cs@ == answer@,
                rest == answer@.skip(from as int),
                forall|k: int| 0 <= k < to - from ==> rest[k] != '\n',
            decreases cs.len() - to,
        {
            proof {
                assert(rest[to - from] == cs@[to as int]);
            }
            to = to + 1;
        }
        if to < cs.len() {
            proof {
                assert(rest[to - from] == '\n');
            }
            to = to + 1;
        }
        proof {
            lemma_first_line_is(rest, to - from);
            assert(rest.take(to - from) =~= cs@.subrange(from as int, to as int));
            assert(rest.skip(to - from) =~= answer@.skip(to as int));
        }
        let ghost before = text::texts(out@);
        let chunk = slice(&cs, from, to);
        out.push(chunk);
        proof {
            assert(text::texts(out@) =~= before.push(chunk@));
            assert(before + (seq![chunk@] + line_chunks(answer@.skip(to as int))) =~= before.push(
                chunk@,
            ) + line_chunks(answer@.skip(to as int)));
        }
        from = to;
    }
    proof {
        assert(text::texts(out@) + Seq::<Seq<char>>::empty() =~= text::texts(out@));
    }
    out
}

/// Why an answer ends.
#[derive(Debug, Clone, Copy, PartialEq, Eq, Structural)]
pub enum StopReason {
    /// All was said.
    EndTurn,
}

/// One step of an answer that is handed out in pieces.
#[derive(Debug)]
pub enum ChatDelta {
    TextDelta(String),
    Done { stop_reason: StopReason },
    Error(String),
}

/// What a `ChatDelta` holds.
#[verifier::ext_equal]
pub enum ChatDeltaView {
    TextDelta(Seq<char>),
    Done { stop_reason: StopReason },
    Error(Seq<char>),
}

impl ChatDelta {
    pub open spec fn view(&self) -> ChatDeltaView {
        match *self {
            ChatDelta::TextDelta(s) => ChatDeltaView::TextDelta(s@),
            ChatDelta::Done { stop_reason } => ChatDeltaView::Done { stop_reason },
            ChatDelta::Error(s) => ChatDeltaView::Error(s@),
        }
    }
}

pub open spec fn delta_views(s: Seq<ChatDelta>) -> Seq<ChatDeltaView> {
    s.map_values(|d: ChatDelta| d@)
}

/// The steps of an answer: its lines and the end, or the failure alone.
pub open spec fn answer_deltas(answer: Result<Seq<char>, Seq<char>>) -> Seq<ChatDeltaView> {
    match answer {
        Ok(s) => line_chunks(s).map_values(|c: Seq<char>| ChatDeltaView::TextDelta(c)).push(
            ChatDeltaView::Done { stop_reason: StopReason::EndTurn },
        ),
        Err(e) => seq![ChatDeltaView::Error(e)],
    }
}

/// What is asked of a provider.
#[derive(Debug)]
pub struct ChatRequest {
    pub system_prompt: String,
    pub user_message: String,
    pub history: Vec<MlxChatMessage>,
    pub max_output_tokens: u32,
    pub model: Option<String>,
}

/// What is sent to the service.
#[derive(Debug)]
pub struct ChatCall {
    pub model: String,
    pub messages: Vec<MlxChatMessage>,
    pub max_tokens: u32,
}

/// Answers requests through the service, by a usual model where none is asked for.
#[derive(Debug)]
pub struct FusionMlxChatProvider {
    pub default_model: String,
}

impl FusionMlxChatProvider {
    pub fn new(default_model: &str) -> (r: Self)
        ensures
            r.default_model@ == default_model@,
    {
        FusionMlxChatProvider { default_model: default_model.to_owned() }
    }

    /// The name that the provider is shown by.
    pub fn provider_label(&self) -> (r: &'static str)
        ensures
            r@ == "fusion-mlx (local)"@,
    {
        "fusion-mlx (local)"
    }

    /// What is sent for a request: to the model that it names, or else to the usual one.
    pub fn call_for(&self, request: &ChatRequest) -> (r: ChatCall)
        ensures
            r.model@ == match request.model {
                Some(m) => m@,
                None => self.default_model@,
            },
            message_views(r.messages@) == conversation(
                request.system_prompt@,
                message_views(request.history@),
                request.user_message@,
            ),
            r.max_tokens == request.max_output_tokens,
    {
        let model = match &request.model {
            Some(m) => m.clone(),
            None => self.default_model.clone(),
        };
        ChatCall {
            model,
            messages: fold_history(
                request.system_prompt.as_str(),
                &request.history,
                request.user_message.as_str(),
            ),
            max_tokens: request.max_output_tokens,
        }
    }

    /// The steps in which an answer is handed out.
    pub fn send(&self, answer: Result<String, String>) -> (r: Vec<ChatDelta>)
        ensures
            delta_views(r@) == answer_deltas(
                match answer {
                    Ok(s) => Ok(s@),
                    Err(e) => Err(e@),
                },
            ),
    {
        let mut out: Vec<ChatDelta> = Vec::new();
        match answer {
            Ok(s) => {
                let chunks = text_chunks(s.as_str());
                let ghost views = line_chunks(s@);
                let mut i: usize = 0;
                while i < chunks.len()
                    invariant
                        i <= chunks@.len(),
                        views == text::texts(chunks@),
                        out@.len() == i,
                        forall|k: int|
                            0 <= k < i ==> (#[trigger] out@[k])@ == ChatDeltaView::TextDelta(views[k]),
                    decreases chunks.len() - i,
                {
                    out.push(ChatDelta::TextDelta(chunks[i].clone()));
                    i = i + 1;
                }
                out.push(ChatDelta::Done { stop_reason: StopReason::EndTurn });
                proof {
                    assert(delta_views(out@) =~= answer_deltas(Ok(s@)));
                }
            },
            Err(e) => {
                let ghost why = e@;
                out.push(ChatDelta::Error(e));
                proof {
                    assert(delta_views(out@) =~= answer_deltas(Err(why)));
                }
            },
        }
        out
    }
}

// ---------------------------------------------------------------------------
// Input
// ---------------------------------------------------------------------------

/// Why there is nothing to send.
#[derive(Debug)]
pub enum ChatInputError {
    /// There are no messages and no instructions.
    NoMessages,
    /// A message has a role that the service does not know.
    BadRole(String),
}

/// The instructions, followed by the context where there is one.
pub open spec fn with_context(system: Seq<char>, context: Option<Seq<char>>) -> Seq<char> {
    match context {
        Some(c) => if system.len() == 0 {
            c
        } else {
            system + "\n\n--- 以下为参考上下文 ---\n"@ + c
        },
        None => system,
    }
}

/// The roles that the service knows.
pub open spec fn is_role(role: Seq<char>) -> bool {
    role == "system"@ || role == "user"@ || role == "assistant"@
}

/// The messages with the instructions in front, where there are any.
pub open spec fn with_system(system: Seq<char>, messages: Seq<MessageView>) -> Seq<MessageView> {
    if system.len() > 0 {
        seq![message("system"@, system)] + messages
    } else {
        messages
    }
}

/// The instructions, followed by the context where there is one.
pub fn add_context(system: &str, context: &Option<String>) -> (r: String)
    ensures
        r@ == with_context(system@, text::opt_text(*context)),
{
    match context {
        Some(c) => if system.is_empty() {
            c.clone()
        } else {
            wrap(system, "\n\n--- 以下为参考上下文 ---\n", c.as_str())
        },
        None => system.to_owned(),
    }
}

/// The messages to send: the instructions in front where there are any. No messages at all, or one
/// with an unknown role, are refused.
pub fn prepare_messages(system: &str, messages: Vec<MlxChatMessage>) -> (r: Result<
    Vec<MlxChatMessage>,
    ChatInputError,
>)
    ensures
        ({
            let all = with_system(system@, message_views(messages@));
            match r {
                Ok(v) => all.len() > 0 && message_views(v@) == all && forall|i: int|
                    0 <= i < all.len() ==> is_role((#[trigger] all[i]).role),
                Err(ChatInputError::NoMessages) => all.len() == 0,
                Err(ChatInputError::BadRole(role)) => exists|i: int|
                    0 <= i < all.len() && (#[trigger] all[i]).role == role@ && !is_role(role@)
                        && forall|k: int| 0 <= k < i ==> is_role((#[trigger] all[k]).role),
            }
        }),
{
    let mut out = messages;
    let ghost given = message_views(messages@);
    if !system.is_empty() {
        out.insert(0, MlxChatMessage { role: "system".to_owned(), content: system.to_owned() });
        proof {
            assert(message_views(out@) =~= seq![message("system"@, system@)] + given);
        }
    }
    let ghost all = message_views(out@);
    if out.len() == 0 {
        return Err(ChatInputError::NoMessages);
    }
    let mut i: usize = 0;
    while i < out.len()
        invariant
            i <= out@.len(),
            all == message_views(out@),
            all == with_system(system@, given),
            given == message_views(messages@),
            forall|k: int| 0 <= k < i ==> is_role((#[trigger] all[k]).role),
        decreases out.len() - i,
    {
        let role = out[i].role.as_str();
        proof {
            assert(all[i as int].role == role@);
        }
        if !(same(role, "system") || same(role, "user") || same(role, "assistant")) {
            return Err(ChatInputError::BadRole(role.to_owned()));
        }
        i = i + 1;
    }
    Ok(out)
}

/// The value of the authorization header: the key where it is not blank.
pub fn bearer_token(key: &Option<String>) -> (r: Option<String>)
    ensures
        match *key {
            Some(k) => if text::trimmed(k@).len() > 0 {
                r is Some && r->0@ == "Bearer "@ + text::trimmed(k@)
            } else {
                r is None
            },
            None => r is None,
        },
{
    match key {
        Some(k) => {
            let trimmed = trim(k.as_str());
            if trimmed.as_str().is_empty() {
                None
            } else {
                Some("Bearer ".to_owned().concat(trimmed.as_str()))
            }
        },
        None => None,
    }
}

// ---------------------------------------------------------------------------
// Images
// ---------------------------------------------------------------------------

/// What `base64`'s standard engine decodes a text to; `None` where it is not base64.
pub uninterp spec fn base64_decoded(text: Seq<char>) -> Option<Seq<u8>>;

/// Calls `Engine::decode` of `base64`'s standard engine: whether it succeeds and what it gives
/// follow from the text alone.
#[verifier::external_body]
fn decode_base64(text: &str) -> (r: Option<Vec<u8>>)
    ensures
        match r {
            Some(b) => base64_decoded(text@) == Some(b@),
            None => base64_decoded(text@) is None,
        },
{
    base64::Engine::decode(&base64::engine::general_purpose::STANDARD, text).ok()
}

/// What `base64`'s standard engine encodes bytes to.
pub uninterp spec fn base64_encoded(bytes: Seq<u8>) -> Seq<char>;

/// Calls `Engine::encode` of `base64`'s standard engine: the text follows from the bytes alone, and
/// the same engine decodes it to them.
#[verifier::external_body]
fn encode_base64(bytes: &Vec<u8>) -> (r: String)
    ensures
        r@ == base64_encoded(bytes@),
        base64_decoded(r@) == Some(bytes@),
{
    base64::Engine::encode(&base64::engine::general_purpose::STANDARD, bytes)
}

/// An image in base64, from which it can be had back.
pub fn encode_image(bytes: &Vec<u8>) -> (r: String)
    ensures
        r@ == base64_encoded(bytes@),
        base64_decoded(r@) == Some(bytes@),
{
    encode_base64(bytes)
}

/// The first sixteen bytes of a text, where a character ends there; else all of it.
pub open spec fn head(s: Seq<char>) -> Seq<char> {
    let b = vstd::utf8::encode_utf8(s);
    if b.len() >= 16 && vstd::utf8::is_char_boundary(b, 16) {
        vstd::utf8::decode_utf8(b.subrange(0, 16))
    } else {
        s
    }
}

/// The bytes begin with the given ones.
pub open spec fn begins(b: Seq<u8>, with: Seq<u8>) -> bool {
    with.is_prefix_of(b)
}

/// The format of an image, by its first bytes; an unknown one is taken for PNG.
pub open spec fn mime_of(b: Seq<u8>) -> Seq<char> {
    if begins(b, seq![0x89u8, 0x50, 0x4e, 0x47]) {
        "image/png"@
    } else if begins(b, seq![0xffu8, 0xd8, 0xff]) {
        "image/jpeg"@
    } else if b.len() >= 12 && begins(b, seq![0x52u8, 0x49, 0x46, 0x46]) && b.subrange(8, 12)
        == seq![0x57u8, 0x45, 0x42, 0x50] {
        "image/webp"@
    } else if begins(b, seq![0x47u8, 0x49, 0x46, 0x38, 0x39, 0x61]) || begins(
        b,
        seq![0x47u8, 0x49, 0x46, 0x38, 0x37, 0x61],
    ) {
        "image/gif"@
    } else {
        "image/png"@
    }
}

fn starts_at(b: &Vec<u8>, at: usize, with: &Vec<u8>) -> (r: bool)
    ensures
        r == (at + with@.len() <= b@.len() && b@.subrange(at as int, at + with@.len()) == with@),
{
    if at > b.len() || with.len() > b.len() - at {
        return false;
    }
    let mut i: usize = 0;
    while i < with.len()
        invariant
            i <= with@.len(),
            at + with.len() <= b.len(),
            forall|k: int| 0 <= k < i ==> b@[at + k] == with@[k],
        decreases with.len() - i,
    {
        if b[at + i] != with[i] {
            proof {
                assert(b@.subrange(at as int, at + with@.len())[i as int] != with@[i as int]);
            }
            return false;
        }
        i = i + 1;
    }
    proof {
        assert(b@.subrange(at as int, at + with@.len()) =~= with@);
    }
    true
}

/// The format of an image, by its first bytes.
pub fn image_mime(b: &Vec<u8>) -> (r: &'static str)
    ensures
        r@ == mime_of(b@),
{
    let png: Vec<u8> = vec![0x89, 0x50, 0x4e, 0x47];
    let jpeg: Vec<u8> = vec![0xff, 0xd8, 0xff];
    let riff: Vec<u8> = vec![0x52, 0x49, 0x46, 0x46];
    let webp: Vec<u8> = vec![0x57, 0x45, 0x42, 0x50];
    let gif89: Vec<u8> = vec![0x47, 0x49, 0x46, 0x38, 0x39, 0x61];
    let gif87: Vec<u8> = vec![0x47, 0x49, 0x46, 0x38, 0x37, 0x61];
    proof {
        assert(png@ =~= seq![0x89u8, 0x50, 0x4e, 0x47]);
        assert(jpeg@ =~= seq![0xffu8, 0xd8, 0xff]);
        assert(riff@ =~= seq![0x52u8, 0x49, 0x46, 0x46]);
        assert(webp@ =~= seq![0x57u8, 0x45, 0x42, 0x50]);
        assert(gif89@ =~= seq![0x47u8, 0x49, 0x46, 0x38, 0x39, 0x61]);
        assert(gif87@ =~= seq![0x47u8, 0x49, 0x46, 0x38, 0x37, 0x61]);
    }
    if starts_at(b, 0, &png) {
        "image/png"
    } else if starts_at(b, 0, &jpeg) {
        "image/jpeg"
    } else if b.len() >= 12 && starts_at(b, 0, &riff) && starts_at(b, 8, &webp) {
        "image/webp"
    } else if starts_at(b, 0, &gif89) || starts_at(b, 0, &gif87) {
        "image/gif"
    } else {
        "image/png"
    }
}

/// The format of an image that is given in base64.
pub fn detect_image_mime(image_base64: &str) -> (r: &'static str)
    ensures
        r@ == mime_of(
            match base64_decoded(head(image_base64@)) {
                Some(b) => b,
                None => Seq::empty(),
            },
        ),
{
    let bytes = image_base64.as_bytes();
    let start = if bytes.len() >= 16 && image_base64.is_char_boundary(16) {
        let (front, _) = image_base64.split_at(16);
        proof {
            vstd::utf8::encode_utf8_decode_utf8(front@);
        }
        front
    } else {
        image_base64
    };
    let decoded = match decode_base64(start) {
        Some(b) => b,
        None => Vec::new(),
    };
    image_mime(&decoded)
}

/// The image as a data URL.
pub fn image_data_url(mime: &str, image_base64: &str) -> (r: String)
    ensures
        r@ == "data:"@ + mime@ + ";base64,"@ + image_base64@,
{
    wrap("data:", mime, ";base64,").concat(image_base64)
}

// ---------------------------------------------------------------------------
// Requests
// ---------------------------------------------------------------------------

/// The instructions for drawing a page.
pub const PAGE_PROMPT: &'static str =
    "你是 fusion-design UI 生成器。输出严格 JSON：{\"page\":{...}}。只输出 JSON，禁止额外文字。page 含 width/height（默认 1440×900），nodes 列表每项 {id,kind(rect|circle|text|image|group),x,y,w,h,text?,fill?,stroke?}。";

/// The instructions for drawing a page whose text is shown while it comes.
pub const STREAM_PROMPT: &'static str =
    "你是 fusion-design UI 生成器。根据用户描述，输出严格 JSON：{\"page\":{...}}。只输出 JSON。";

/// The instructions for changing one node.
pub const NODE_EDIT_PROMPT: &'static str =
    "你是 fusion-design 局部编辑器。输入一个节点 JSON 和编辑指令，输出修改后的节点 JSON（保持原字段，仅变更指令涉及的字段）。只输出 JSON。";

/// The instructions for changing several nodes.
pub const NODES_EDIT_PROMPT: &'static str =
    "你是 fusion-design 本地编辑器。输入多个节点的 JSON 数组和编辑指令，输出修改后的节点 JSON 数组（保持原字段，仅变更指令涉及的字段）。只输出 JSON 数组。";

/// What is asked for a page whose text is shown while it comes.
pub fn stream_request(prompt: &str, page_name: &str) -> (r: String)
    ensures
        r@ == "描述："@ + prompt@ + "\n生成页面「"@ + page_name@ + "」对应的 UI 布局。"@,
{
    wrap("描述：", prompt, "\n生成页面「").concat(page_name).concat("」对应的 UI 布局。")
}

/// What is asked for a page.
pub fn page_request(page_name: &str, prompt: &str) -> (r: String)
    ensures
        r@ == "生成页面「"@ + page_name@ + "」。需求："@ + prompt@,
{
    wrap("生成页面「", page_name, "」。需求：").concat(prompt)
}

/// What is asked for a page after a sketch.
pub fn sketch_request(hint: &str, page_name: &str) -> (r: String)
    ensures
        r@ == "补充说明："@ + hint@ + "\n请根据上方草图图片生成页面「"@ + page_name@
            + "」对应的 UI 布局。"@,
{
    wrap("补充说明：", hint, "\n请根据上方草图图片生成页面「").concat(page_name).concat(
        "」对应的 UI 布局。",
    )
}

/// What is asked for a page after a sketch that could not be read.
pub fn missing_sketch_request(path: &str, error: &str, hint: &str, page_name: &str) -> (r: String)
    ensures
        r@ == "草图路径："@ + path@ + "（无法读取："@ + error@ + "）\n补充说明："@ + hint@
            + "\n生成页面「"@ + page_name@ + "」对应的 UI 布局。"@,
{
    wrap("草图路径：", path, "（无法读取：").concat(error).concat("）\n补充说明：").concat(
        hint,
    ).concat("\n生成页面「").concat(page_name).concat("」对应的 UI 布局。")
}

/// What is asked for a page after a screenshot.
pub fn screenshot_request(hint: &str, page_name: &str) -> (r: String)
    ensures
        r@ == "补充说明："@ + hint@ + "\n生成页面「"@ + page_name@ + "」对应的 UI 布局。"@,
{
    wrap("补充说明：", hint, "\n生成页面「").concat(page_name).concat("」对应的 UI 布局。")
}

/// What is asked for a change to one node.
pub fn node_edit_request(node_json: &str, instruction: &str) -> (r: String)
    ensures
        r@ == "节点："@ + node_json@ + "\n指令："@ + instruction@,
{
    wrap("节点：", node_json, "\n指令：").concat(instruction)
}

/// What is asked for a change to several nodes.
pub fn nodes_edit_request(nodes_json: &str, instruction: &str) -> (r: String)
    ensures
        r@ == "选中节点：\n"@ + nodes_json@ + "\n\n编辑指令："@ + instruction@,
{
    wrap("选中节点：\n", nodes_json, "\n\n编辑指令：").concat(instruction)
}

/// A wish in a given style.
pub fn styled_prompt(prompt: &str, style: &str) -> (r: String)
    ensures
        r@ == prompt@ + "（风格："@ + style@ + "）"@,
{
    wrap(prompt, "（风格：", style).concat("）")
}

/// What is said of a design system to the service.
pub fn token_prompt_fragment(system: Option<&DesignSystem>) -> (r: Option<String>)
    ensures
        match system {
            Some(s) => r is Some && r->0@ == "当前设计系统 Token（CSS Custom Properties）：\n"@
                + design_system::custom_properties(s@.tokens)
                + "\n\n生成的 UI 必须使用这些 CSS 变量。"@,
            None => r is None,
        },
{
    match system {
        Some(s) => Some(
            wrap(
                "当前设计系统 Token（CSS Custom Properties）：\n",
                s.to_css_custom_properties().as_str(),
                "\n\n生成的 UI 必须使用这些 CSS 变量。",
            ),
        ),
        None => None,
    }
}

// ---------------------------------------------------------------------------
// Laws
// ---------------------------------------------------------------------------

proof fn lemma_flatten_front(first: Seq<char>, rest: Seq<Seq<char>>)
    ensures
        text::flattened(seq![first] + rest) == first + text::flattened(rest),
    decreases rest.len(),
{
    let all = seq![first] + rest;
    if rest.len() == 0 {
        assert(all =~= seq![first]);
        assert(all.drop_last() =~= Seq::empty());
        reveal_with_fuel(text::flattened, 2);
        assert(text::flattened(all) =~= first + text::flattened(rest));
    } else {
        lemma_flatten_front(first, rest.drop_last());
        assert(all.drop_last() =~= seq![first] + rest.drop_last());
        assert(text::flattened(all) =~= first + text::flattened(rest));
    }
}

/// The pieces of an answer, one after the other, are the answer; none is empty, and an empty
/// answer has none.
pub proof fn law_chunks_make_up_the_answer(s: Seq<char>)
    ensures
        text::flattened(line_chunks(s)) == s,
        forall|i: int| 0 <= i < line_chunks(s).len() ==> (#[trigger] line_chunks(s)[i]).len() > 0,
        s.len() == 0 ==> line_chunks(s).len() == 0,
    decreases s.len(),
{
    if s.len() > 0 {
        lemma_first_line(s);
        let n = first_line_len(s);
        let rest = s.skip(n);
        law_chunks_make_up_the_answer(rest);
        lemma_flatten_front(s.take(n), line_chunks(rest));
        assert(s.take(n) + rest =~= s);
        let all = line_chunks(s);
        assert forall|i: int| 0 <= i < all.len() implies (#[trigger] all[i]).len() > 0 by {
            if i > 0 {
                assert(all[i] == line_chunks(rest)[i - 1]);
            }
        }
    }
}

/// No message of the history is lost: it stands in the conversation, in order, before the new
/// question.
pub proof fn law_history_is_kept(system: Seq<char>, history: Seq<MessageView>, user: Seq<char>)
    ensures
        conversation(system, history, user).last() == message("user"@, user),
        history.is_suffix_of(conversation(system, history, user).drop_last()),
{
    let all = conversation(system, history, user);
    let front = all.drop_last();
    assert(history =~= front.subrange(front.len() - history.len(), front.len() as int));
}

/// The instructions come first, where they are not blank, in the role of the system.
pub proof fn law_instructions_come_first(system: Seq<char>, history: Seq<MessageView>, user: Seq<char>)
    ensures
        ({
            let all = conversation(system, history, user);
            &&& text::trimmed(system).len() > 0 ==> all.len() == history.len() + 2 && all[0].role
                == "system"@ && all[0].content == system
            &&& text::trimmed(system).len() == 0 ==> all.len() == history.len() + 1
            &&& all.last().role == "user"@ && all.last().content == user
        }),
        ({
            let all = with_system(system, history);
            &&& system.len() > 0 ==> all.len() == history.len() + 1 && all[0].role == "system"@
                && all[0].content == system && all.skip(1) == history
            &&& system.len() == 0 ==> all == history
        }),
{
    let all = with_system(system, history);
    if system.len() > 0 {
        assert(all.skip(1) =~= history);
    }
}

/// A piece of an answer is a line: it ends at its line feed, and only the last one may have none.
pub proof fn law_pieces_are_lines(s: Seq<char>, i: int)
    requires
        0 <= i < line_chunks(s).len(),
    ensures
        ({
            let piece = line_chunks(s)[i];
            &&& forall|k: int| 0 <= k < piece.len() - 1 ==> piece[k] != '\n'
            &&& piece.last() != '\n' ==> i == line_chunks(s).len() - 1
        }),
    decreases s.len(),
{
    lemma_first_line(s);
    let n = first_line_len(s);
    let rest = s.skip(n);
    if i > 0 {
        assert(line_chunks(s)[i] == line_chunks(rest)[i - 1]);
        law_pieces_are_lines(rest, i - 1);
    } else {
        assert(line_chunks(s)[0] == s.take(n));
        if s[n - 1] != '\n' {
            assert(rest.len() == 0);
            assert(line_chunks(rest).len() == 0);
        }
    }
}

/// An answer is handed on line by line and ended once, at its end; a failure is told alone.
pub proof fn law_answer_is_ended_once(s: Seq<char>, e: Seq<char>, i: int)
    ensures
        ({
            let steps = answer_deltas(Ok(s));
            &&& steps.len() == line_chunks(s).len() + 1
            &&& steps.last() == ChatDeltaView::Done { stop_reason: StopReason::EndTurn }
            &&& 0 <= i < steps.len() - 1 ==> steps[i] == ChatDeltaView::TextDelta(line_chunks(s)[i])
        }),
        answer_deltas(Err(e)) == seq![ChatDeltaView::Error(e)],
{
}

/// The context stands behind the instructions, both as they are; one alone stands alone.
pub proof fn law_context_follows_the_instructions(system: Seq<char>, context: Seq<char>)
    ensures
        with_context(system, None) == system,
        with_context(Seq::empty(), Some(context)) == context,
        system.is_prefix_of(with_context(system, Some(context))) || system.len() == 0,
        context.is_suffix_of(with_context(system, Some(context))),
{
    let all = with_context(system, Some(context));
    if system.len() > 0 {
        assert(system =~= all.subrange(0, system.len() as int));
    }
    assert(context =~= all.subrange(all.len() - context.len(), all.len() as int));
}

/// There are three roles: those who instruct, ask and answer.
pub proof fn law_roles_are_known(role: Seq<char>)
    ensures
        is_role("system"@) && is_role("user"@) && is_role("assistant"@),
        is_role(role) ==> role == "system"@ || role == "user"@ || role == "assistant"@,
{
}

/// An image is known by the bytes that the files of its format begin with, whatever follows them.
pub proof fn law_images_are_known_by_their_first_bytes(rest: Seq<u8>, size: Seq<u8>)
    requires
        size.len() == 4,
    ensures
        mime_of(seq![0x89u8, 0x50, 0x4e, 0x47] + rest) == "image/png"@,
        mime_of(seq![0xffu8, 0xd8, 0xff] + rest) == "image/jpeg"@,
        mime_of(seq![0x47u8, 0x49, 0x46, 0x38, 0x39, 0x61] + rest) == "image/gif"@,
        mime_of(seq![0x47u8, 0x49, 0x46, 0x38, 0x37, 0x61] + rest) == "image/gif"@,
        mime_of(
            seq![0x52u8, 0x49, 0x46, 0x46] + size + seq![0x57u8, 0x45, 0x42, 0x50] + rest,
        ) == "image/webp"@,
{
    let png = seq![0x89u8, 0x50, 0x4e, 0x47];
    let jpeg = seq![0xffu8, 0xd8, 0xff];
    let riff = seq![0x52u8, 0x49, 0x46, 0x46];
    let webp = seq![0x57u8, 0x45, 0x42, 0x50];
    let gif9 = seq![0x47u8, 0x49, 0x46, 0x38, 0x39, 0x61];
    let gif7 = seq![0x47u8, 0x49, 0x46, 0x38, 0x37, 0x61];
    assert(png =~= (png + rest).subrange(0, 4));
    lemma_other_start(png, jpeg + rest);
    assert(jpeg =~= (jpeg + rest).subrange(0, 3));
    lemma_other_start(png, gif9 + rest);
    lemma_other_start(jpeg, gif9 + rest);
    lemma_other_start(riff, gif9 + rest);
    assert(gif9 =~= (gif9 + rest).subrange(0, 6));
    lemma_other_start(png, gif7 + rest);
    lemma_other_start(jpeg, gif7 + rest);
    lemma_other_start(riff, gif7 + rest);
    assert(gif7 =~= (gif7 + rest).subrange(0, 6));
    let image = riff + size + webp + rest;
    lemma_other_start(png, image);
    lemma_other_start(jpeg, image);
    assert(riff =~= image.subrange(0, 4));
    assert(image.subrange(8, 12) =~= webp);
}

proof fn lemma_other_start(start: Seq<u8>, b: Seq<u8>)
    requires
        start.len() > 0,
        b.len() > 0,
        start[0] != b[0],
    ensures
        !begins(b, start),
{
    if begins(b, start) {
        assert(start[0] == b.subrange(0, start.len() as int)[0]);
    }
}

} // verus!
