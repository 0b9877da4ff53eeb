//! Whether the service is up, and whether it can answer.

use vstd::prelude::*;
use vstd::string::*;

use crate::codegen::wrap;
use crate::json;
use crate::mlx::retry;
use crate::mlx::retry::{Reply, Step, Tries};
use crate::text;
use crate::text::number;

verus! {

/// What is known of the service.
#[derive(Debug)]
pub struct HealthStatus {
    pub available: bool,
    pub model: Option<String>,
    pub gpu: Option<String>,
    pub auth_ok: Option<bool>,
    pub models: Vec<String>,
    pub status: Option<String>,
}

/// What a `HealthStatus` holds.
#[verifier::ext_equal]
pub struct HealthView {
    pub available: bool,
    pub model: Option<Seq<char>>,
    pub gpu: Option<Seq<char>>,
    pub auth_ok: Option<bool>,
    pub models: Seq<Seq<char>>,
    pub status: Option<Seq<char>>,
}

impl HealthStatus {
    pub open spec fn view(&self) -> HealthView {
        HealthView {
            available: self.available,
            model: text::opt_text(self.model),
            gpu: text::opt_text(self.gpu),
            auth_ok: self.auth_ok,
            models: text::texts(self.models@),
            status: text::opt_text(self.status),
        }
    }
}

/// The ids in a list of models; entries without a textual id do not count.
pub open spec fn ids_in(items: Seq<json::Json>) -> Seq<Seq<char>>
    decreases items.len(),
{
    if items.len() == 0 {
        Seq::empty()
    } else {
        let rest = ids_in(items.drop_last());
        match json::as_text(json::under(items.last(), "id"@)) {
            Some(id) => rest.push(id),
            None => rest,
        }
    }
}

/// The ids of the models that an answer lists.
pub open spec fn models_listed(answer: Option<json::Json>) -> Seq<Seq<char>> {
    match answer {
        Some(j) => match json::under(j, "data"@) {
            json::Json::Array(items) => ids_in(items),
            _ => Seq::empty(),
        },
        None => Seq::empty(),
    }
}

/// What an answer to the question for models tells: a service that lists none is reachable, but
/// cannot answer.
pub open spec fn answered_health(
    code: u16,
    label: Seq<char>,
    models: Seq<Seq<char>>,
) -> HealthView {
    if retry::is_success(code) {
        if models.len() > 0 {
            HealthView {
                available: true,
                model: Some(models[0]),
                gpu: None,
                auth_ok: Some(true),
                models,
                status: Some(
                    "可用（"@ + text::decimal(models.len()) + " 个模型，首个 "@ + models[0] + "）"@,
                ),
            }
        } else {
            HealthView {
                available: false,
                model: None,
                gpu: None,
                auth_ok: Some(true),
                models,
                status: Some(
                    "可达但无模型——gateway 列表为空或 MLX 未加载，generate 将 502"@,
                ),
            }
        }
    } else if code == 401 || code == 403 {
        HealthView {
            available: false,
            model: None,
            gpu: None,
            auth_ok: Some(false),
            models: Seq::empty(),
            status: Some(
                "鉴权失败（"@ + label + "）：FUSION_MLX_API_KEY 缺失或无效"@,
            ),
        }
    } else {
        HealthView {
            available: false,
            model: None,
            gpu: None,
            auth_ok: None,
            models: Seq::empty(),
            status: Some("MLX 返回 "@ + label),
        }
    }
}

/// What a service that could not be reached tells.
pub open spec fn unreachable_health(error: Seq<char>) -> HealthView {
    HealthView {
        available: false,
        model: None,
        gpu: None,
        auth_ok: None,
        models: Seq::empty(),
        status: Some("不可达："@ + error),
    }
}

/// The ids of the models that the text of an answer lists.
pub fn models_in(body: &str) -> (r: Vec<String>)
    ensures
        text::texts(r@) == models_listed(json::json_read(body@)),
{
    let mut out: Vec<String> = Vec::new();
    proof {
        assert(text::texts(out@) =~= Seq::empty());
    }
    let value = match json::read(body) {
        Some(v) => v,
        None => return out,
    };
    let items = match json::items_of(json::get(&value, "data")) {
        Some(items) => items,
        None => return out,
    };
    let ghost views = json::json_contents(items@);
    let mut i: usize = 0;
    while i < items.len()
        invariant
            i <= items@.len(),
            views == json::json_contents(items@),
            text::texts(out@) == ids_in(views.take(i as int)),
        decreases items.len() - i,
    {
        let ghost before = text::texts(out@);
        proof {
            text::lemma_take_step(views, i as int);
        }
        match json::text_of(json::get(&items[i], "id")) {
            Some(id) => {
                out.push(id);
                proof {
                    assert(text::texts(out@) =~= before.push(id@));
                }
            },
            None => {},
        }
        i = i + 1;
    }
    proof {
        text::lemma_take_all(views);
    }
    out
}

/// What an answer to the question for models tells. `label` is the status as it is shown.
pub fn health_from_answer(code: u16, label: &str, models: Vec<String>) -> (r: HealthStatus)
    ensures
        r@ == answered_health(code, label@, text::texts(models@)),
{
    let ghost views = text::texts(models@);
    if code >= 200 && code <= 299 {
        if models.len() > 0 {
            let first = models[0].clone();
            proof {
                assert(views[0] == first@);
            }
            let status = wrap("可用（", number(models.len() as u64).as_str(), " 个模型，首个 ").concat(
                first.as_str(),
            ).concat("）");
            HealthStatus {
                available: true,
                model: Some(first),
                gpu: None,
                auth_ok: Some(true),
                models,
                status: Some(status),
            }
        } else {
            HealthStatus {
                available: false,
                model: None,
                gpu: None,
                auth_ok: Some(true),
                models,
                status: Some(
                    "可达但无模型——gateway 列表为空或 MLX 未加载，generate 将 502".to_owned(),
                ),
            }
        }
    } else {
        let none: Vec<String> = Vec::new();
        proof {
            assert(text::texts(none@) =~= Seq::empty());
        }
        if code == 401 || code == 403 {
            HealthStatus {
                available: false,
                model: None,
                gpu: None,
                auth_ok: Some(false),
                models: none,
                status: Some(
                    wrap("鉴权失败（", label, "）：FUSION_MLX_API_KEY 缺失或无效"),
                ),
            }
        } else {
            HealthStatus {
                available: false,
                model: None,
                gpu: None,
                auth_ok: None,
                models: none,
                status: Some("MLX 返回 ".to_owned().concat(label)),
            }
        }
    }
}

/// What a service that could not be reached tells.
pub fn health_unreachable(error: &str) -> (r: HealthStatus)
    ensures
        r@ == unreachable_health(error@),
{
    let none: Vec<String> = Vec::new();
    proof {
        assert(text::texts(none@) =~= Seq::empty());
    }
    HealthStatus {
        available: false,
        model: None,
        gpu: None,
        auth_ok: None,
        models: none,
        status: Some("不可达：".to_owned().concat(error)),
    }
}

// ---------------------------------------------------------------------------
// The probe
// ---------------------------------------------------------------------------

/// Whether the service really answers.
#[derive(Debug)]
pub struct GenerateProbeStatus {
    pub model_loaded: bool,
    pub available: bool,
    pub status: Option<String>,
    pub http_code: Option<u16>,
}

/// What a `GenerateProbeStatus` holds.
#[verifier::ext_equal]
pub struct ProbeView {
    pub model_loaded: bool,
    pub available: bool,
    pub status: Option<Seq<char>>,
    pub http_code: Option<u16>,
}

impl GenerateProbeStatus {
    pub open spec fn view(&self) -> ProbeView {
        ProbeView {
            model_loaded: self.model_loaded,
            available: self.available,
            status: text::opt_text(self.status),
            http_code: self.http_code,
        }
    }
}

/// What to do after a reply to the probe.
#[derive(Debug)]
pub enum ProbeStep {
    /// Wait so many milliseconds, then try again.
    Wait(u64),
    /// The probe is over.
    Done(GenerateProbeStatus),
}

/// What a `ProbeStep` holds.
#[verifier::ext_equal]
pub enum ProbeStepView {
    Wait(u64),
    Done(ProbeView),
}

impl ProbeStep {
    pub open spec fn view(&self) -> ProbeStepView {
        match *self {
            ProbeStep::Wait(ms) => ProbeStepView::Wait(ms),
            ProbeStep::Done(s) => ProbeStepView::Done(s@),
        }
    }
}

pub open spec fn failed_probe(status: Seq<char>, code: Option<u16>) -> ProbeView {
    ProbeView { model_loaded: false, available: false, status: Some(status), http_code: code }
}

/// The reason that an answer gives for a failure.
pub open spec fn reason_given(answer: Option<json::Json>) -> Seq<char> {
    match answer {
        Some(j) => match json::as_text(json::under(json::under(j, "error"@), "message"@)) {
            Some(m) => m,
            None => "无错误体"@,
        },
        None => "无错误体"@,
    }
}

/// What follows a reply to the probe. Only an answer shows that the model is loaded.
pub open spec fn probe_step(
    reply: Reply,
    attempt: nat,
    max: nat,
    model: Seq<char>,
    detail: Seq<char>,
) -> ProbeStepView {
    match retry::next_step(reply, attempt, max) {
        Step::Wait(ms) => ProbeStepView::Wait(ms),
        Step::Read => ProbeStepView::Done(
            ProbeView {
                model_loaded: true,
                available: true,
                status: Some(
                    "推理探针通过（模型 "@ + model + " 已加载，尝试 "@ + text::decimal(attempt + 1)
                        + "/"@ + text::decimal(max) + " 次）"@,
                ),
                http_code: Some(reply->Status_0),
            },
        ),
        Step::Refused(code) => ProbeStepView::Done(
            failed_probe(
                if retry::is_transient(code) {
                    "模型未加载（"@ + text::decimal(code as nat) + " "@ + detail + "）：重试 "@
                        + text::decimal(max) + " 次仍 502/503，generate 失败"@
                } else if code == 401 || code == 403 {
                    "鉴权失败（"@ + text::decimal(code as nat)
                        + "）：FUSION_MLX_API_KEY 无效"@
                } else {
                    "generate 返回 "@ + text::decimal(code as nat)
                },
                Some(code),
            ),
        ),
        Step::Unreachable => ProbeStepView::Done(
            failed_probe(
                "generate 请求失败（重试 "@ + text::decimal(max) + " 次）："@ + detail,
                None,
            ),
        ),
    }
}

fn failed(status: String, code: Option<u16>) -> (r: ProbeStep)
    ensures
        r@ == ProbeStepView::Done(failed_probe(status@, code)),
{
    ProbeStep::Done(
        GenerateProbeStatus {
            model_loaded: false,
            available: false,
            status: Some(status),
            http_code: code,
        },
    )
}

/// The reason that the text of an answer gives for a failure.
pub fn error_reason(body: &str) -> (r: String)
    ensures
        r@ == reason_given(json::json_read(body@)),
{
    match json::read(body) {
        Some(v) => match json::text_of(json::get(json::get(&v, "error"), "message")) {
            Some(m) => m,
            None => "无错误体".to_owned(),
        },
        None => "无错误体".to_owned(),
    }
}

/// What follows a reply to the probe. `detail` is the reason that the answer gives, or why the
/// service could not be reached.
pub fn probe_after(tries: &mut Tries, reply: Reply, model: &str, detail: &str) -> (r: ProbeStep)
    requires
        old(tries).wf(),
    ensures
        r@ == probe_step(reply, old(tries).made(), old(tries).limit(), model@, detail@),
        final(tries).limit() == old(tries).limit(),
        r@ is Wait ==> final(tries).wf() && final(tries).made() == old(tries).made() + 1,
        r@ is Done ==> *final(tries) == *old(tries),
{
    let attempt = tries.count();
    let max = tries.max();
    match tries.after(reply) {
        Step::Wait(ms) => ProbeStep::Wait(ms),
        Step::Read => {
            let code: Option<u16> = match reply {
                Reply::Status(c) => Some(c),
                Reply::Unreachable => None,
            };
            ProbeStep::Done(
                GenerateProbeStatus {
                    model_loaded: true,
                    available: true,
                    status: Some(
                        wrap("推理探针通过（模型 ", model, " 已加载，尝试 ").concat(
                            number(attempt as u64 + 1).as_str(),
                        ).concat("/").concat(number(max as u64).as_str()).concat(" 次）"),
                    ),
                    http_code: code,
                },
            )
        },
        Step::Refused(code) => {
            let shown = number(code as u64);
            let status = if retry::is_transient_status(code) {
                wrap("模型未加载（", shown.as_str(), " ").concat(detail).concat("）：重试 ").concat(
                    number(max as u64).as_str(),
                ).concat(" 次仍 502/503，generate 失败")
            } else if code == 401 || code == 403 {
                wrap("鉴权失败（", shown.as_str(), "）：FUSION_MLX_API_KEY 无效")
            } else {
                "generate 返回 ".to_owned().concat(shown.as_str())
            };
            failed(status, Some(code))
        },
        Step::Unreachable => failed(
            wrap("generate 请求失败（重试 ", number(max as u64).as_str(), " 次）：").concat(detail),
            None,
        ),
    }
}

/// The outcome of a probe whose time is over.
pub fn probe_deadline(tries: &Tries, deadline: &str) -> (r: GenerateProbeStatus)
    ensures
        r@ == failed_probe(
            "推理探针重试超过总 deadline "@ + deadline@ + retry::tries_label(
                tries.made(),
                tries.limit(),
            ),
            None,
        ),
{
    let label = wrap("（尝试 ", number(tries.count() as u64).as_str(), "/").concat(
        number(tries.max() as u64).as_str(),
    ).concat(" 次）");
    GenerateProbeStatus {
        model_loaded: false,
        available: false,
        status: Some(wrap("推理探针重试超过总 deadline ", deadline, label.as_str())),
        http_code: None,
    }
}

// ---------------------------------------------------------------------------
// Verdicts
// ---------------------------------------------------------------------------

/// Why a service is not to be used: its key was not accepted, or it has no model.
pub open spec fn unusable(h: HealthView) -> Option<Seq<char>> {
    if h.auth_ok == Some(true) && h.available {
        None
    } else {
        Some(
            match h.status {
                Some(s) => "❌ fusion-mlx 不可用："@ + s,
                None => "❌ fusion-mlx 不可用"@,
            },
        )
    }
}

/// Why the probe failed.
pub open spec fn unloaded(p: ProbeView) -> Option<Seq<char>> {
    if p.available {
        None
    } else {
        Some(
            match p.status {
                Some(s) => "❌ fusion-mlx 不可用："@ + s,
                None => "❌ fusion-mlx 推理探针失败"@,
            },
        )
    }
}

/// Says why a service is not to be used.
pub fn require_usable(status: &HealthStatus) -> (r: Result<(), String>)
    ensures
        match unusable(status@) {
            Some(why) => r is Err && r->Err_0@ == why,
            None => r is Ok,
        },
{
    let accepted = match status.auth_ok {
        Some(ok) => ok,
        None => false,
    };
    if accepted && status.available {
        return Ok(());
    }
    match &status.status {
        Some(s) => Err("❌ fusion-mlx 不可用：".to_owned().concat(s.as_str())),
        None => Err("❌ fusion-mlx 不可用".to_owned()),
    }
}

/// Says why the probe failed.
pub fn require_loaded(probe: &GenerateProbeStatus) -> (r: Result<(), String>)
    ensures
        match unloaded(probe@) {
            Some(why) => r is Err && r->Err_0@ == why,
            None => r is Ok,
        },
{
    if probe.available {
        return Ok(());
    }
    match &probe.status {
        Some(s) => Err("❌ fusion-mlx 不可用：".to_owned().concat(s.as_str())),
        None => Err("❌ fusion-mlx 推理探针失败".to_owned()),
    }
}

// ---------------------------------------------------------------------------
// Laws
// ---------------------------------------------------------------------------

/// A service is available exactly where it answers with success and lists a model.
pub proof fn law_available_means_models(code: u16, label: Seq<char>, models: Seq<Seq<char>>)
    ensures
        answered_health(code, label, models).available <==> retry::is_success(code)
            && models.len() > 0,
        !unreachable_health(label).available,
{
}

/// A refused key shows as such, and in no other way.
pub proof fn law_refused_key_is_told_apart(code: u16, label: Seq<char>, models: Seq<Seq<char>>)
    ensures
        answered_health(code, label, models).auth_ok == Some(false) <==> code == 401 || code
            == 403,
{
}

/// The probe sees through a service that only claims to be up: whatever the reply, it reports a
/// loaded model only after an answer that succeeded.
pub proof fn law_probe_believes_answers_only(
    reply: Reply,
    attempt: nat,
    max: nat,
    model: Seq<char>,
    detail: Seq<char>,
)
    ensures
        probe_step(reply, attempt, max, model, detail) matches ProbeStepView::Done(p) ==> (
        p.model_loaded <==> (reply matches Reply::Status(code) && retry::is_success(code))) && (
        p.available == p.model_loaded),
{
}

/// A service that answers is told with the models it lists, the first of them in front; one that
/// lists none, or does not succeed, names no model.
pub proof fn law_health_names_the_first_model(code: u16, label: Seq<char>, models: Seq<Seq<char>>)
    ensures
        ({
            let h = answered_health(code, label, models);
            &&& h.available ==> h.model == Some(models[0]) && h.models == models
            &&& !h.available ==> h.model is None && h.models.len() == 0
            &&& h.auth_ok == Some(true) <==> 200 <= code < 300
            &&& h.auth_ok is None <==> !(200 <= code < 300) && code != 401 && code != 403
            &&& h.status is Some
        }),
        unreachable_health(label).model is None && unreachable_health(label).auth_ok is None,
        unreachable_health(label).models.len() == 0,
{
}

/// What the status of a service says goes into the words: the label of the answer, or the error.
pub proof fn law_health_tells_why(code: u16, label: Seq<char>, error: Seq<char>)
    ensures
        !(200 <= code < 300) ==> text::occurs(
            answered_health(code, label, Seq::empty()).status->0,
            label,
        ),
        text::occurs(unreachable_health(error).status->0, error),
{
    text::lemma_occurs_last("不可达："@, error);
    text::lemma_occurs_last("MLX 返回 "@, label);
    text::lemma_occurs_between(
        "鉴权失败（"@,
        label,
        "）：FUSION_MLX_API_KEY 缺失或无效"@,
    );
}

/// The ids are listed in their order, and entries without one are passed over.
pub proof fn law_ids_keep_their_order(a: Seq<json::Json>, b: Seq<json::Json>, j: json::Json)
    ensures
        ids_in(a + b) == ids_in(a) + ids_in(b),
        ids_in(seq![j]) == match json::as_text(json::under(j, "id"@)) {
            Some(id) => seq![id],
            None => Seq::empty(),
        },
        json::under(j, "data"@) == json::Json::Array(a) ==> models_listed(Some(j)) == ids_in(a),
        models_listed(None).len() == 0,
    decreases b.len(),
{
    assert(seq![j].drop_last() =~= Seq::<json::Json>::empty());
    assert(ids_in(Seq::<json::Json>::empty()) == Seq::<Seq<char>>::empty());
    assert(ids_in(seq![j]) =~= match json::as_text(json::under(j, "id"@)) {
        Some(id) => seq![id],
        None => Seq::empty(),
    });
    if b.len() == 0 {
        assert(a + b =~= a);
        assert(ids_in(a) + ids_in(b) =~= ids_in(a));
    } else {
        law_ids_keep_their_order(a, b.drop_last(), j);
        assert((a + b).drop_last() =~= a + b.drop_last());
        assert((a + b).last() == b.last());
        assert(ids_in(a + b) =~= ids_in(a) + ids_in(b));
    }
}

/// A service may be used exactly where it answered with success and listed a model; a probe is
/// passed exactly where the model answered.
pub proof fn law_only_working_services_are_used(
    code: u16,
    label: Seq<char>,
    models: Seq<Seq<char>>,
    p: ProbeView,
)
    ensures
        unusable(answered_health(code, label, models)) is None <==> 200 <= code < 300 && models.len()
            > 0,
        unusable(unreachable_health(label)) is Some,
        unloaded(p) is None <==> p.available,
{
}

/// The verdict holds what the status says.
pub proof fn law_verdict_tells_the_status(h: HealthView, p: ProbeView)
    ensures
        unusable(h) is Some && h.status is Some ==> text::occurs(unusable(h)->0, h.status->0),
        unloaded(p) is Some && p.status is Some ==> text::occurs(unloaded(p)->0, p.status->0),
{
    let start = "❌ fusion-mlx 不可用："@;
    if let Some(s) = h.status {
        text::lemma_occurs_last(start, s);
    }
    if let Some(s) = p.status {
        text::lemma_occurs_last(start, s);
    }
}

/// The probe waits where a request waits, tells the status of the answer, and none where there was no
/// answer.
pub proof fn law_probe_tells_the_status(
    reply: Reply,
    attempt: nat,
    max: nat,
    model: Seq<char>,
    detail: Seq<char>,
)
    ensures
        ({
            let step = probe_step(reply, attempt, max, model, detail);
            &&& step is Wait <==> retry::next_step(reply, attempt, max) is Wait
            &&& step matches ProbeStepView::Wait(ms) ==> ms == retry::backoff(attempt)
            &&& step matches ProbeStepView::Done(p) ==> p.http_code == match reply {
                Reply::Status(code) => Some(code),
                Reply::Unreachable => None,
            }
        }),
{
    retry::law_waits_grow_up_to_the_limit(attempt, attempt);
}

/// The reason is the message of the error in the answer, where there is one.
pub proof fn law_reason_is_the_message(j: json::Json, m: Seq<char>)
    requires
        json::as_text(json::under(json::under(j, "error"@), "message"@)) == Some(m),
    ensures
        reason_given(Some(j)) == m,
        reason_given(None) == "无错误体"@,
{
}

} // verus!
