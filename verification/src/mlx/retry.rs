//! Retrying: which failures pass, how long to wait, when to give up.

use vstd::arithmetic::power2::{
    lemma2_to64, lemma_pow2_strictly_increases, lemma_pow2_unfold, pow2,
};
use vstd::prelude::*;
use vstd::string::*;

use crate::codegen::wrap;
use crate::text;
use crate::text::{number, parse_unsigned, trim};

verus! {

/// The first wait, in milliseconds.
pub const RETRY_BACKOFF_BASE_MS: u64 = 500;

/// No wait is longer, in milliseconds.
pub const RETRY_MAX_BACKOFF_MS: u64 = 8000;

/// How often a request is tried where nothing else is said.
pub const RETRY_DEFAULT_MAX_ATTEMPTS: u32 = 4;

/// How long a request is retried, in seconds, where nothing else is said.
pub const RETRY_DEFAULT_DEADLINE_SECS: u64 = 300;

// ---------------------------------------------------------------------------
// Settings
// ---------------------------------------------------------------------------

/// The number that a setting holds, where it is one within the limits; else the default.
pub open spec fn setting(value: Option<Seq<char>>, least: int, most: int, default: int) -> int {
    match value {
        Some(s) => match text::unsigned_value(text::trimmed(s)) {
            Some(n) => if least <= n <= most {
                n
            } else {
                default
            },
            None => default,
        },
        None => default,
    }
}

pub(crate) fn read_setting(value: &Option<String>, least: u64, most: u64, default: u64) -> (r: u64)
    ensures
        r == setting(text::opt_text(*value), least as int, most as int, default as int),
{
    match value {
        Some(s) => match parse_unsigned(trim(s.as_str()).as_str(), most) {
            Some(n) => if n >= least {
                n
            } else {
                default
            },
            None => default,
        },
        None => default,
    }
}

/// How often a request is tried: the setting, where it is at least one; else the default.
pub fn retry_max_attempts(value: &Option<String>) -> (r: u32)
    ensures
        r == setting(
            text::opt_text(*value),
            1,
            u32::MAX as int,
            RETRY_DEFAULT_MAX_ATTEMPTS as int,
        ),
        r >= 1,
{
    read_setting(value, 1, u32::MAX as u64, RETRY_DEFAULT_MAX_ATTEMPTS as u64) as u32
}

/// How long a request is retried, in seconds.
pub fn retry_deadline_secs(value: &Option<String>) -> (r: u64)
    ensures
        r == setting(
            text::opt_text(*value),
            0,
            u64::MAX as int,
            RETRY_DEFAULT_DEADLINE_SECS as int,
        ),
{
    read_setting(value, 0, u64::MAX, RETRY_DEFAULT_DEADLINE_SECS)
}

// ---------------------------------------------------------------------------
// Waiting
// ---------------------------------------------------------------------------

/// The status says that the model is being loaded: a later try may succeed.
pub open spec fn is_transient(code: u16) -> bool {
    code == 502 || code == 503
}

/// The status says that the request succeeded.
pub open spec fn is_success(code: u16) -> bool {
    200 <= code <= 299
}

/// How long to wait after a failed try, in milliseconds: twice as long each time, up to the limit.
pub open spec fn backoff(attempt: nat) -> int {
    let ms = RETRY_BACKOFF_BASE_MS * pow2(attempt);
    if ms < RETRY_MAX_BACKOFF_MS {
        ms
    } else {
        RETRY_MAX_BACKOFF_MS as int
    }
}

/// Whether a failure with the status may pass.
pub fn is_transient_status(code: u16) -> (r: bool)
    ensures
        r == is_transient(code),
{
    code == 502 || code == 503
}

/// How long to wait after a failed try, in milliseconds.
pub fn backoff_delay(attempt: u32) -> (r: u64)
    ensures
        r == backoff(attempt as nat),
{
    proof {
        lemma2_to64();
        if attempt > 4 {
            lemma_pow2_strictly_increases(4, attempt as nat);
        }
    }
    if attempt == 0 {
        500
    } else if attempt == 1 {
        1000
    } else if attempt == 2 {
        2000
    } else if attempt == 3 {
        4000
    } else {
        8000
    }
}

// ---------------------------------------------------------------------------
// Tries
// ---------------------------------------------------------------------------

/// What came of sending a request.
#[derive(Debug, Clone, Copy, PartialEq, Eq, Structural)]
pub enum Reply {
    /// The service answered with a status.
    Status(u16),
    /// The service could not be reached.
    Unreachable,
}

/// What to do after a reply.
#[derive(Debug, Clone, Copy, PartialEq, Eq, Structural)]
pub enum Step {
    /// The answer can be read.
    Read,
    /// Wait so many milliseconds, then try again.
    Wait(u64),
    /// Give up: the service answered with a status that will not pass, or did so too often.
    Refused(u16),
    /// Give up: the service could not be reached.
    Unreachable,
}

/// The tries of one request.
#[derive(Debug, Clone, Copy)]
pub struct Tries {
    attempt: u32,
    max: u32,
}

/// What follows a reply to try number `attempt`, counted from zero, of `max`.
pub open spec fn next_step(reply: Reply, attempt: nat, max: nat) -> Step {
    match reply {
        Reply::Status(code) => if is_success(code) {
            Step::Read
        } else if is_transient(code) && attempt + 1 < max {
            Step::Wait(backoff(attempt) as u64)
        } else {
            Step::Refused(code)
        },
        Reply::Unreachable => if attempt + 1 < max {
            Step::Wait(backoff(attempt) as u64)
        } else {
            Step::Unreachable
        },
    }
}

impl Tries {
    /// How many tries were made.
    pub closed spec fn made(&self) -> nat {
        self.attempt as nat
    }

    /// How many tries may be made.
    pub closed spec fn limit(&self) -> nat {
        self.max as nat
    }

    /// A try may be made.
    pub open spec fn wf(&self) -> bool {
        self.made() < self.limit()
    }

    /// The tries of a new request.
    pub fn new(max: u32) -> (r: Tries)
        requires
            max >= 1,
        ensures
            r.wf(),
            r.made() == 0,
            r.limit() == max,
    {
        Tries { attempt: 0, max }
    }

    /// How many tries were made.
    pub fn count(&self) -> (r: u32)
        ensures
            r == self.made(),
    {
        self.attempt
    }

    /// How many tries may be made.
    pub fn max(&self) -> (r: u32)
        ensures
            r == self.limit(),
    {
        self.max
    }

    /// What follows a reply. After a wait there is one more try to be made.
    pub fn after(&mut self, reply: Reply) -> (r: Step)
        requires
            old(self).wf(),
        ensures
            r == next_step(reply, old(self).made(), old(self).limit()),
            final(self).limit() == old(self).limit(),
            r is Wait ==> final(self).wf() && final(self).made() == old(self).made() + 1,
            r !is Wait ==> *final(self) == *old(self),
    {
        let attempt = self.attempt;
        let step = match reply {
            Reply::Status(code) => if code >= 200 && code <= 299 {
                Step::Read
            } else if is_transient_status(code) && attempt + 1 < self.max {
                Step::Wait(backoff_delay(attempt))
            } else {
                Step::Refused(code)
            },
            Reply::Unreachable => if attempt + 1 < self.max {
                Step::Wait(backoff_delay(attempt))
            } else {
                Step::Unreachable
            },
        };
        match step {
            Step::Wait(_) => {
                self.attempt = attempt + 1;
            },
            _ => {},
        }
        step
    }
}

// ---------------------------------------------------------------------------
// Messages
// ---------------------------------------------------------------------------

/// The tries so far, as `n/m`.
pub open spec fn tries_label(n: nat, max: nat) -> Seq<char> {
    "（尝试 "@ + text::decimal(n) + "/"@ + text::decimal(max) + " 次）"@
}

fn label(n: u32, max: u32) -> (r: String)
    ensures
        r@ == tries_label(n as nat, max as nat),
{
    wrap("（尝试 ", number(n as u64).as_str(), "/").concat(number(max as u64).as_str()).concat(
        " 次）",
    )
}

/// Says that the service refused a request for good.
pub fn refused_message(code: u16, tries: &Tries) -> (r: String)
    requires
        tries.wf(),
    ensures
        r@ == "fusion-mlx HTTP "@ + text::decimal(code as nat) + tries_label(
            tries.made() + 1,
            tries.limit(),
        ),
{
    wrap(
        "fusion-mlx HTTP ",
        number(code as u64).as_str(),
        label(tries.attempt + 1, tries.max).as_str(),
    )
}

/// Says that the service could not be reached.
pub fn unreachable_message(streaming: bool, tries: &Tries, error: &str) -> (r: String)
    requires
        tries.wf(),
    ensures
        r@ == (if streaming {
            "SSE 请求失败"@
        } else {
            "fusion-mlx 连接失败"@
        }) + tries_label(tries.made() + 1, tries.limit()) + ": "@ + error@,
{
    let what = if streaming {
        "SSE 请求失败"
    } else {
        "fusion-mlx 连接失败"
    };
    wrap(what, label(tries.attempt + 1, tries.max).as_str(), ": ").concat(error)
}

/// Says that the time for retrying is over.
pub fn deadline_message(streaming: bool, tries: &Tries, deadline: &str) -> (r: String)
    ensures
        r@ == (if streaming {
            "fusion-mlx 建连重试超过总 deadline "@
        } else {
            "fusion-mlx 重试超过总 deadline "@
        }) + deadline@ + tries_label(tries.made(), tries.limit()),
{
    let what = if streaming {
        "fusion-mlx 建连重试超过总 deadline "
    } else {
        "fusion-mlx 重试超过总 deadline "
    };
    wrap(what, deadline, label(tries.attempt, tries.max).as_str())
}

// ---------------------------------------------------------------------------
// Laws
// ---------------------------------------------------------------------------

/// Waits never get shorter, and none is longer than the limit.
pub proof fn law_waits_grow_up_to_the_limit(i: nat, j: nat)
    requires
        i <= j,
    ensures
        RETRY_BACKOFF_BASE_MS <= backoff(i) <= backoff(j) <= RETRY_MAX_BACKOFF_MS,
{
    lemma2_to64();
    if i < j {
        lemma_pow2_strictly_increases(i, j);
    }
    if i > 0 {
        lemma_pow2_strictly_increases(0, i);
    }
}

/// A status that will not pass ends the tries at once.
pub proof fn law_permanent_status_is_not_retried(code: u16, attempt: nat, max: nat)
    requires
        !is_success(code),
        !is_transient(code),
    ensures
        next_step(Reply::Status(code), attempt, max) == Step::Refused(code),
{
}

/// Every request that the service cannot fulfil for reasons of its own making, 400 to 499, is
/// refused at once.
pub proof fn law_client_errors_are_permanent(code: u16, attempt: nat, max: nat)
    requires
        400 <= code <= 499,
    ensures
        next_step(Reply::Status(code), attempt, max) == Step::Refused(code),
{
}

/// With a single try nothing is retried.
pub proof fn law_single_try_never_waits(reply: Reply)
    ensures
        next_step(reply, 0, 1) !is Wait,
{
}

/// The waits that a series of replies leads to, from the given try on.
pub open spec fn waits(replies: Seq<Reply>, attempt: nat, max: nat) -> nat
    decreases replies.len(),
{
    if replies.len() == 0 {
        0
    } else {
        match next_step(replies[0], attempt, max) {
            Step::Wait(_) => 1 + waits(replies.skip(1), attempt + 1, max),
            _ => 0,
        }
    }
}

/// Whatever the service answers, a request is tried no more often than the limit: there are fewer
/// waits than tries.
pub proof fn law_tries_are_limited(replies: Seq<Reply>, attempt: nat, max: nat)
    requires
        attempt < max,
    ensures
        attempt + waits(replies, attempt, max) < max,
    decreases replies.len(),
{
    if replies.len() > 0 && next_step(replies[0], attempt, max) is Wait {
        law_tries_are_limited(replies.skip(1), attempt + 1, max);
    }
}

/// Each wait is twice the one before it, from half a second up to the limit of eight.
pub proof fn law_waits_double(i: nat)
    ensures
        backoff(0) == 500,
        backoff(i + 1) == if 2 * backoff(i) < 8000 {
            2 * backoff(i)
        } else {
            8000
        },
{
    lemma2_to64();
    lemma_pow2_unfold(i + 1);
}

/// A success is read; a status of 502 or 503, and a service that cannot be reached, are tried again
/// after the wait that is due, as long as tries are left; everything else ends the request.
pub proof fn law_replies_are_told_apart(code: u16, attempt: nat, max: nat)
    ensures
        200 <= code < 300 <==> next_step(Reply::Status(code), attempt, max) == Step::Read,
        (code == 502 || code == 503) && attempt + 1 < max <==> next_step(
            Reply::Status(code),
            attempt,
            max,
        ) is Wait,
        next_step(Reply::Status(code), attempt, max) matches Step::Wait(ms) ==> ms == backoff(
            attempt,
        ),
        next_step(Reply::Status(code), attempt, max) matches Step::Refused(c) ==> c == code,
        next_step(Reply::Status(code), attempt, max) != Step::Unreachable,
        attempt + 1 < max <==> next_step(Reply::Unreachable, attempt, max) is Wait,
        next_step(Reply::Unreachable, attempt, max) matches Step::Wait(ms) ==> ms == backoff(
            attempt,
        ),
        attempt + 1 >= max <==> next_step(Reply::Unreachable, attempt, max) == Step::Unreachable,
{
    law_waits_grow_up_to_the_limit(attempt, attempt);
}

/// A number within the limits is taken as it is written, with or without white space around it;
/// without a number, or with one beyond the limits, the default is taken.
pub proof fn law_setting_is_read(n: nat, least: int, most: int, default: int, other: Seq<char>)
    ensures
        setting(Some(text::decimal(n)), least, most, default) == if least <= n <= most {
            n as int
        } else {
            default
        },
        setting(None, least, most, default) == default,
        text::unsigned_value(text::trimmed(other)) is None ==> setting(
            Some(other),
            least,
            most,
            default,
        ) == default,
        least <= default <= most ==> least <= setting(Some(other), least, most, default) <= most,
{
    text::law_decimal_is_read(n);
    let s = text::decimal(n);
    assert('0' <= s[0] && s[0] <= '9');
    assert('0' <= s[s.len() - 1] && s[s.len() - 1] <= '9');
    text::lemma_trimmed_same(s);
}

} // verus!
