//! Messages to the neighbouring programs, which pass through files.

use vstd::prelude::*;
use vstd::string::*;

use crate::codegen::wrap;
use crate::json;
use crate::num::{Num, NumView};
use crate::text;
use crate::text::{number, number_wide, same, split, starts_with};

pub mod templates;

verus! {

/// The largest message that is read, in bytes.
pub const MAX_IPC_FILE: u64 = 8_388_608;

/// The program that a message is for.
#[derive(Debug)]
pub enum EcosystemTarget {
    FusionCode,
    FusionKB,
    FusionCLI,
    Custom(String),
}

/// The directory of the messages for a program.
pub open spec fn target_dir(t: EcosystemTarget) -> Seq<char> {
    match t {
        EcosystemTarget::FusionCode => "fusion-code"@,
        EcosystemTarget::FusionKB => "fusion-kb"@,
        EcosystemTarget::FusionCLI => "fusion-cli"@,
        EcosystemTarget::Custom(name) => name@,
    }
}

impl EcosystemTarget {
    /// The directory of the messages for the program.
    pub fn ipc_dir(&self) -> (r: String)
        ensures
            r@ == target_dir(*self),
    {
        match self {
            EcosystemTarget::FusionCode => "fusion-code".to_owned(),
            EcosystemTarget::FusionKB => "fusion-kb".to_owned(),
            EcosystemTarget::FusionCLI => "fusion-cli".to_owned(),
            EcosystemTarget::Custom(name) => name.clone(),
        }
    }
}

// ---------------------------------------------------------------------------
// Paths
// ---------------------------------------------------------------------------

/// Why a directory for messages is refused.
#[derive(Debug)]
pub enum SubpathError {
    Empty,
    Absolute(String),
    ParentDir(String),
    Outside(String),
}

/// What a `SubpathError` holds.
#[verifier::ext_equal]
pub enum SubpathErrorView {
    Empty,
    Absolute(Seq<char>),
    ParentDir(Seq<char>),
    Outside(Seq<char>),
}

impl SubpathError {
    pub open spec fn view(&self) -> SubpathErrorView {
        match *self {
            SubpathError::Empty => SubpathErrorView::Empty,
            SubpathError::Absolute(s) => SubpathErrorView::Absolute(s@),
            SubpathError::ParentDir(s) => SubpathErrorView::ParentDir(s@),
            SubpathError::Outside(s) => SubpathErrorView::Outside(s@),
        }
    }
}

impl SubpathError {
    /// The error in words.
    pub fn message(&self) -> (r: String)
        ensures
            r@ == match self@ {
                SubpathErrorView::Empty => "IPC 子路径为空"@,
                SubpathErrorView::Absolute(s) => "IPC 子路径不允许绝对路径: "@ + s,
                SubpathErrorView::ParentDir(s) => "IPC 子路径不允许 `..` 组件: "@ + s,
                SubpathErrorView::Outside(s) => "IPC 子路径逃出基目录: "@ + s,
            },
    {
        match self {
            SubpathError::Empty => "IPC 子路径为空".to_owned(),
            SubpathError::Absolute(s) => "IPC 子路径不允许绝对路径: ".to_owned().concat(s.as_str()),
            SubpathError::ParentDir(s) => "IPC 子路径不允许 `..` 组件: ".to_owned().concat(
                s.as_str(),
            ),
            SubpathError::Outside(s) => "IPC 子路径逃出基目录: ".to_owned().concat(s.as_str()),
        }
    }
}

/// A segment of the path leads upward.
pub open spec fn leads_upward(sub: Seq<char>) -> bool {
    text::split_on(sub, '/').contains(".."@)
}

/// Why a directory below the base is refused by what is written alone.
pub open spec fn written_fault(sub: Seq<char>) -> Option<SubpathErrorView> {
    if sub.len() == 0 {
        Some(SubpathErrorView::Empty)
    } else if sub[0] == '/' {
        Some(SubpathErrorView::Absolute(sub))
    } else if leads_upward(sub) {
        Some(SubpathErrorView::ParentDir(sub))
    } else {
        None
    }
}

/// The segments that count: empty ones do not, and `.` only in front.
pub open spec fn counted(segments: Seq<Seq<char>>) -> Seq<Seq<char>>
    decreases segments.len(),
{
    if segments.len() == 0 {
        Seq::empty()
    } else {
        let rest = counted(segments.drop_last());
        let s = segments.last();
        if s.len() == 0 || (s == "."@ && segments.len() > 1) {
            rest
        } else {
            rest.push(s)
        }
    }
}

/// The parts of a path; that of an absolute one begin with the root.
pub open spec fn path_parts(path: Seq<char>) -> Seq<Seq<char>> {
    (if path.len() > 0 && path[0] == '/' {
        seq!["/"@]
    } else {
        Seq::empty()
    }) + counted(text::split_on(path, '/'))
}

/// The path begins with all parts of the base.
pub open spec fn is_below(base: Seq<char>, path: Seq<char>) -> bool {
    path_parts(base).is_prefix_of(path_parts(path))
}

/// The base and a path below it, as far as they are followed to where they are.
pub open spec fn resolved_view(resolved: Option<(String, String)>) -> Option<
    (Seq<char>, Seq<char>),
> {
    match resolved {
        Some((base, path)) => Some((base@, path@)),
        None => None,
    }
}

/// The path stays below the base: as the two are resolved, or, where they are not, as they are
/// written.
pub open spec fn contained(
    base: Seq<char>,
    path: Seq<char>,
    resolved: Option<(Seq<char>, Seq<char>)>,
) -> bool {
    match resolved {
        Some((b, p)) => is_below(b, p),
        None => is_below(base, path),
    }
}

/// Why a directory below the base is refused.
pub open spec fn subpath_fault(
    base: Seq<char>,
    sub: Seq<char>,
    resolved: Option<(Seq<char>, Seq<char>)>,
) -> Option<SubpathErrorView> {
    if written_fault(sub) is Some {
        written_fault(sub)
    } else if contained(base, text::path_in(base, sub), resolved) {
        None
    } else {
        Some(SubpathErrorView::Outside(sub))
    }
}

fn parts_of(path: &str) -> (r: Vec<String>)
    ensures
        text::texts(r@) == path_parts(path@),
{
    let mut out: Vec<String> = Vec::new();
    let cs = text::chars_of(path);
    if cs.len() > 0 && cs[0] == '/' {
        out.push("/".to_owned());
    }
    let ghost front = text::texts(out@);
    let segments = split(path, '/');
    let ghost views = text::split_on(path@, '/');
    proof {
        if path@.len() > 0 && path@[0] == '/' {
            assert(front =~= seq!["/"@]);
        } else {
            assert(front =~= Seq::empty());
        }
        assert(front + counted(views.take(0)) =~= front);
    }
    let mut i: usize = 0;
    while i < segments.len()
        invariant
            i <= segments@.len(),
            text::texts(segments@) == views,
            text::texts(out@) == front + counted(views.take(i as int)),
        decreases segments.len() - i,
    {
        let ghost before = text::texts(out@);
        let segment = segments[i].as_str();
        proof {
            text::lemma_take_step(views, i as int);
            assert(views[i as int] == segment@);
        }
        if !(segment.is_empty() || (i > 0 && same(segment, "."))) {
            out.push(segments[i].clone());
            proof {
                assert(text::texts(out@) =~= before.push(segment@));
                assert(before.push(segment@) =~= front + counted(views.take(i as int)).push(
                    segment@,
                ));
            }
        }
        i = i + 1;
    }
    proof {
        text::lemma_take_all(views);
    }
    out
}

fn begins_with(parts: &Vec<String>, front: &Vec<String>) -> (r: bool)
    ensures
        r == text::texts(front@).is_prefix_of(text::texts(parts@)),
{
    let ghost p = text::texts(parts@);
    let ghost f = text::texts(front@);
    if front.len() > parts.len() {
        return false;
    }
    let mut i: usize = 0;
    while i < front.len()
        invariant
            i <= front@.len() <= parts@.len(),
            p == text::texts(parts@),
            f == text::texts(front@),
            forall|k: int| 0 <= k < i ==> #[trigger] f[k] == p[k],
        decreases front.len() - i,
    {
        if !same(front[i].as_str(), parts[i].as_str()) {
            proof {
                assert(p.subrange(0, f.len() as int)[i as int] == p[i as int]);
                assert(f[i as int] != p[i as int]);
            }
            return false;
        }
        proof {
            assert(f[i as int] == p[i as int]);
        }
        i = i + 1;
    }
    proof {
        assert(f =~= p.subrange(0, f.len() as int));
    }
    true
}

/// Whether a path stays below a base. Where both could be followed to where they are, `resolved`
/// holds them so, and decides.
pub fn stays_below(base: &str, path: &str, resolved: &Option<(String, String)>) -> (r: bool)
    ensures
        r == contained(base@, path@, resolved_view(*resolved)),
{
    match resolved {
        Some((b, p)) => begins_with(&parts_of(p.as_str()), &parts_of(b.as_str())),
        None => begins_with(&parts_of(path), &parts_of(base)),
    }
}

/// The directory below the base, or why it is refused: it is empty, absolute, leads upward or lies
/// outside. Where both the base and the directory could be followed to where they are, `resolved`
/// holds the two so.
pub fn sanitize_ipc_subpath(base: &str, sub: &str, resolved: &Option<(String, String)>) -> (r:
    Result<String, SubpathError>)
    ensures
        match subpath_fault(base@, sub@, resolved_view(*resolved)) {
            Some(e) => r is Err && r->Err_0@ == e,
            None => r is Ok && r->Ok_0@ == text::path_in(base@, sub@) && is_below(
                base@,
                r->Ok_0@,
            ),
        },
{
    match check_subpath(sub) {
        Ok(_) => {},
        Err(e) => return Err(e),
    }
    let joined = text::join_path(base, sub);
    proof {
        law_joined_path_is_below(base@, sub@);
    }
    if stays_below(base, joined.as_str(), resolved) {
        Ok(joined)
    } else {
        Err(SubpathError::Outside(sub.to_owned()))
    }
}

/// Refuses a directory that is written as one that does not stay below a base: an empty or absolute
/// one, or one with a segment that leads upward.
pub fn check_subpath(sub: &str) -> (r: Result<(), SubpathError>)
    ensures
        match written_fault(sub@) {
            Some(e) => r is Err && r->Err_0@ == e,
            None => r is Ok,
        },
{
    if sub.is_empty() {
        return Err(SubpathError::Empty);
    }
    proof {
        reveal_strlit("/");
        if sub@[0] == '/' {
            assert("/"@ =~= sub@.subrange(0, 1));
        }
    }
    if starts_with(sub, "/") {
        proof {
            assert(sub@.subrange(0, 1)[0] == sub@[0]);
        }
        return Err(SubpathError::Absolute(sub.to_owned()));
    }
    let segments = split(sub, '/');
    let ghost views = text::split_on(sub@, '/');
    let mut i: usize = 0;
    while i < segments.len()
        invariant
            i <= segments@.len(),
            text::texts(segments@) == views,
            views == text::split_on(sub@, '/'),
            sub@.len() > 0,
            sub@[0] != '/',
            forall|k: int| 0 <= k < i ==> #[trigger] views[k] != ".."@,
        decreases segments.len() - i,
    {
        proof {
            assert(views[i as int] == segments@[i as int]@);
        }
        if same(segments[i].as_str(), "..") {
            return Err(SubpathError::ParentDir(sub.to_owned()));
        }
        i = i + 1;
    }
    Ok(())
}

/// The name of a message: when it was written, by which process, and the how-manieth of that
/// process it is.
pub open spec fn message_name(stamp: nat, pid: nat, seq: nat) -> Seq<char> {
    text::decimal(stamp) + "_"@ + text::decimal(pid) + "_"@ + text::decimal(seq) + ".json"@
}

/// The name of a message.
pub fn message_file_name(stamp: u128, pid: u32, seq: u64) -> (r: String)
    ensures
        r@ == message_name(stamp as nat, pid as nat, seq as nat),
{
    wrap(number_wide(stamp).as_str(), "_", number(pid as u64).as_str()).concat("_").concat(
        number(seq).as_str(),
    ).concat(".json")
}

/// The name that a message has while it is being written.
pub fn unfinished_file_name(stamp: u128, pid: u32, seq: u64) -> (r: String)
    ensures
        r@ == message_name(stamp as nat, pid as nat, seq as nat) + ".tmp."@ + text::decimal(
            pid as nat,
        ) + "."@ + text::decimal(seq as nat),
{
    message_file_name(stamp, pid, seq).concat(".tmp.").concat(number(pid as u64).as_str()).concat(
        ".",
    ).concat(number(seq).as_str())
}

/// The names of the files that hold a component's code, as HTML and as React.
pub fn code_file_names(component: &str) -> (r: (String, String))
    ensures
        r.0@ == component@ + ".html"@,
        r.1@ == component@ + ".tsx"@,
{
    (component.to_owned().concat(".html"), component.to_owned().concat(".tsx"))
}

/// Whether a message of the size is read.
pub fn ipc_size_allowed(len: u64) -> (r: bool)
    ensures
        r == (len <= MAX_IPC_FILE),
{
    len <= MAX_IPC_FILE
}

// ---------------------------------------------------------------------------
// Changes of style
// ---------------------------------------------------------------------------

/// A change to a node.
#[derive(Debug)]
pub struct MutateNodeCommand {
    pub node_id: String,
    pub x: Option<Num>,
    pub y: Option<Num>,
    pub w: Option<Num>,
    pub h: Option<Num>,
    pub fill: Option<String>,
    pub stroke: Option<String>,
    pub radius: Option<Num>,
    pub opacity: Option<Num>,
}

/// What a `MutateNodeCommand` holds.
#[verifier::ext_equal]
pub struct CommandView {
    pub node_id: Seq<char>,
    pub x: Option<NumView>,
    pub y: Option<NumView>,
    pub w: Option<NumView>,
    pub h: Option<NumView>,
    pub fill: Option<Seq<char>>,
    pub stroke: Option<Seq<char>>,
    pub radius: Option<NumView>,
    pub opacity: Option<NumView>,
}

impl MutateNodeCommand {
    pub open spec fn view(&self) -> CommandView {
        CommandView {
            node_id: self.node_id@,
            x: crate::canvas::opt_num(self.x),
            y: crate::canvas::opt_num(self.y),
            w: crate::canvas::opt_num(self.w),
            h: crate::canvas::opt_num(self.h),
            fill: text::opt_text(self.fill),
            stroke: text::opt_text(self.stroke),
            radius: crate::canvas::opt_num(self.radius),
            opacity: crate::canvas::opt_num(self.opacity),
        }
    }
}

pub open spec fn command_views(s: Seq<MutateNodeCommand>) -> Seq<CommandView> {
    s.map_values(|c: MutateNodeCommand| c@)
}

/// The change that an item describes; one that names no node is none.
pub open spec fn command_of(j: json::Json) -> Option<CommandView> {
    match json::as_text(json::under(j, "node_id"@)) {
        Some(node_id) => Some(
            CommandView {
                node_id,
                x: json::as_number(json::under(j, "x"@)),
                y: json::as_number(json::under(j, "y"@)),
                w: json::as_number(json::under(j, "w"@)),
                h: json::as_number(json::under(j, "h"@)),
                fill: json::as_text(json::under(j, "fill"@)),
                stroke: json::as_text(json::under(j, "stroke"@)),
                radius: json::as_number(json::under(j, "radius"@)),
                opacity: json::as_number(json::under(j, "opacity"@)),
            },
        ),
        None => None,
    }
}

/// The changes that a list of items describes; what describes none is left out.
pub open spec fn commands_of(items: Seq<json::Json>) -> Seq<CommandView>
    decreases items.len(),
{
    if items.len() == 0 {
        Seq::empty()
    } else {
        let rest = commands_of(items.drop_last());
        match command_of(items.last()) {
            Some(c) => rest.push(c),
            None => rest,
        }
    }
}

/// The changes that a message carries.
pub open spec fn changes_in(action: Seq<char>, payload: Option<json::Json>) -> Seq<CommandView> {
    if action == "style-change"@ {
        match payload {
            Some(j) => match json::under(j, "mutations"@) {
                json::Json::Array(items) => commands_of(items),
                _ => Seq::empty(),
            },
            None => Seq::empty(),
        }
    } else {
        Seq::empty()
    }
}

fn parse_mutate_command(v: &serde_json::Value) -> (r: Option<MutateNodeCommand>)
    ensures
        match r {
            Some(c) => command_of(json::json_content(*v)) == Some(c@),
            None => command_of(json::json_content(*v)) is None,
        },
{
    match json::text_of(json::get(v, "node_id")) {
        Some(node_id) => Some(
            MutateNodeCommand {
                node_id,
                x: json::number_of(json::get(v, "x")),
                y: json::number_of(json::get(v, "y")),
                w: json::number_of(json::get(v, "w")),
                h: json::number_of(json::get(v, "h")),
                fill: json::text_of(json::get(v, "fill")),
                stroke: json::text_of(json::get(v, "stroke")),
                radius: json::number_of(json::get(v, "radius")),
                opacity: json::number_of(json::get(v, "opacity")),
            },
        ),
        None => None,
    }
}

/// The changes that a message carries: only one about styles carries any. The payload is JSON.
pub fn code_changes(action: &str, payload: &str) -> (r: Vec<MutateNodeCommand>)
    ensures
        command_views(r@) == changes_in(action@, json::json_read(payload@)),
{
    let mut out: Vec<MutateNodeCommand> = Vec::new();
    proof {
        assert(command_views(out@) =~= Seq::empty());
    }
    if !same(action, "style-change") {
        return out;
    }
    let value = match json::read(payload) {
        Some(v) => v,
        None => return out,
    };
    let items = match json::items_of(json::get(&value, "mutations")) {
        Some(items) => items,
        None => return out,
    };
    let ghost views = json::json_contents(items@);
    let mut i: usize = 0;
    while i < items.len()
        invariant
            i <= items@.len(),
            views == json::json_contents(items@),
            command_views(out@) == commands_of(views.take(i as int)),
        decreases items.len() - i,
    {
        let ghost before = command_views(out@);
        proof {
            text::lemma_take_step(views, i as int);
        }
        match parse_mutate_command(&items[i]) {
            Some(c) => {
                out.push(c);
                proof {
                    assert(command_views(out@) =~= before.push(c@));
                }
            },
            None => {},
        }
        i = i + 1;
    }
    proof {
        text::lemma_take_all(views);
    }
    out
}

// ---------------------------------------------------------------------------
// Training
// ---------------------------------------------------------------------------

/// The program that trains models.
#[derive(Debug)]
pub struct TrainerClient {
    pub bin: String,
}

/// The options that all kinds of training share.
pub open spec fn shared_args(
    dataset: Seq<char>,
    model: Seq<char>,
    config: Option<Seq<char>>,
) -> Seq<Seq<char>> {
    seq!["--dataset"@, dataset, "--model"@, model] + (match config {
        Some(c) => seq!["--config"@, c],
        None => Seq::empty(),
    })
}

fn add_shared(args: &mut Vec<String>, dataset: &str, model: &str, config: &Option<String>)
    ensures
        text::texts(final(args)@) == text::texts(old(args)@) + shared_args(
            dataset@,
            model@,
            text::opt_text(*config),
        ),
{
    args.push("--dataset".to_owned());
    args.push(dataset.to_owned());
    args.push("--model".to_owned());
    args.push(model.to_owned());
    match config {
        Some(c) => {
            args.push("--config".to_owned());
            args.push(c.clone());
        },
        None => {},
    }
    proof {
        assert(text::texts(args@) =~= text::texts(old(args)@) + shared_args(
            dataset@,
            model@,
            text::opt_text(*config),
        ));
    }
}

impl TrainerClient {
    /// The program: the one that the environment names, or the one of this name on the search path.
    pub fn resolve_bin(named: &Option<String>) -> (r: String)
        ensures
            r@ == match *named {
                Some(b) => b@,
                None => "fusion-trainer"@,
            },
    {
        match named {
            Some(b) => b.clone(),
            None => "fusion-trainer".to_owned(),
        }
    }

    /// The program that the environment names, or the one on the search path.
    pub fn new(named: &Option<String>) -> (r: TrainerClient)
        ensures
            r.bin@ == match *named {
                Some(b) => b@,
                None => "fusion-trainer"@,
            },
    {
        TrainerClient { bin: Self::resolve_bin(named) }
    }

    /// A given program.
    pub fn with_bin(bin: &str) -> (r: TrainerClient)
        ensures
            r.bin@ == bin@,
    {
        TrainerClient { bin: bin.to_owned() }
    }

    /// Why nothing is run where the program does not exist.
    pub fn missing_message(&self) -> (r: String)
        ensures
            r@ == "fusion-trainer CLI 未找到: "@ + self.bin@
                + " (请安装 fusion-trainer 或设置 FUSION_TRAINER_BIN)"@,
    {
        wrap(
            "fusion-trainer CLI 未找到: ",
            self.bin.as_str(),
            " (请安装 fusion-trainer 或设置 FUSION_TRAINER_BIN)",
        )
    }

    /// The arguments of supervised training.
    pub fn run_sft(&self, dataset: &str, model: &str, config: &Option<String>) -> (r: Vec<String>)
        ensures
            text::texts(r@) == seq!["sft"@] + shared_args(dataset@, model@, text::opt_text(*config)),
    {
        let mut args: Vec<String> = Vec::new();
        args.push("sft".to_owned());
        proof {
            assert(text::texts(args@) =~= seq!["sft"@]);
        }
        add_shared(&mut args, dataset, model, config);
        args
    }

    /// The arguments of reinforcement training with the method.
    pub fn run_rlsl(
        &self,
        method: &str,
        dataset: &str,
        model: &str,
        config: &Option<String>,
    ) -> (r: Vec<String>)
        ensures
            text::texts(r@) == seq!["rlsl"@, "--method"@, method@] + shared_args(
                dataset@,
                model@,
                text::opt_text(*config),
            ),
    {
        let mut args: Vec<String> = Vec::new();
        args.push("rlsl".to_owned());
        args.push("--method".to_owned());
        args.push(method.to_owned());
        proof {
            assert(text::texts(args@) =~= seq!["rlsl"@, "--method"@, method@]);
        }
        add_shared(&mut args, dataset, model, config);
        args
    }

    /// The arguments for a method by name, or why there is none.
    pub fn args_for_method(
        &self,
        method: &str,
        dataset: &str,
        model: &str,
        config: &Option<String>,
    ) -> (r: Result<Vec<String>, String>)
        ensures
            ({
                let shared = shared_args(dataset@, model@, text::opt_text(*config));
                match r {
                    Ok(args) => (method@ == "grpo"@ && text::texts(args@) == seq![
                        "rlsl"@,
                        "--method"@,
                        "grpo"@,
                    ] + shared) || (method@ == "sft"@ && text::texts(args@) == seq!["sft"@]
                        + shared),
                    Err(e) => method@ != "grpo"@ && method@ != "sft"@ && e@
                        == "不支持的 --method: "@ + method@ + " (仅 sft|grpo)"@,
                }
            }),
    {
        if same(method, "grpo") {
            Ok(self.run_rlsl("grpo", dataset, model, config))
        } else if same(method, "sft") {
            Ok(self.run_sft(dataset, model, config))
        } else {
            Err(wrap("不支持的 --method: ", method, " (仅 sft|grpo)"))
        }
    }
}

// ---------------------------------------------------------------------------
// Laws
// ---------------------------------------------------------------------------

/// How many directories below its start a path leads after its first `n` segments.
pub open spec fn depth_after(segments: Seq<Seq<char>>, n: int) -> int
    decreases n,
{
    if n <= 0 {
        0
    } else {
        depth_after(segments, n - 1) + (if segments[n - 1] == ".."@ {
            -1int
        } else if segments[n - 1].len() == 0 || segments[n - 1] == "."@ {
            0int
        } else {
            1int
        })
    }
}

/// A directory that is accepted stays below the base: however far its segments are followed, they
/// never lead above it.
pub proof fn law_accepted_path_stays_below(
    base: Seq<char>,
    sub: Seq<char>,
    resolved: Option<(Seq<char>, Seq<char>)>,
    n: int,
)
    requires
        subpath_fault(base, sub, resolved) is None,
        0 <= n <= text::split_on(sub, '/').len(),
    ensures
        depth_after(text::split_on(sub, '/'), n) >= 0,
        is_below(base, text::path_in(base, sub)),
        resolved matches Some((b, p)) ==> is_below(b, p),
    decreases n,
{
    law_joined_path_is_below(base, sub);
    if n > 0 {
        law_accepted_path_stays_below(base, sub, resolved, n - 1);
        assert(text::split_on(sub, '/')[n - 1] != ".."@);
    }
}

/// A directory that is written as one below the base lies below it; only what the two resolve to can
/// lead outside.
pub proof fn law_joined_path_is_below(base: Seq<char>, sub: Seq<char>)
    requires
        written_fault(sub) is None,
    ensures
        is_below(base, text::path_in(base, sub)),
{
    let path = text::path_in(base, sub);
    let segments = text::split_on(path, '/');
    reveal_strlit("/");
    if base.len() == 0 {
        assert(counted(text::split_on(base, '/')) =~= Seq::empty()) by {
            reveal_with_fuel(counted, 2);
            assert(text::split_on(base, '/') =~= seq![Seq::<char>::empty()]);
        }
        assert(path_parts(base) =~= Seq::empty());
        assert(path_parts(base) =~= path_parts(path).subrange(0, 0));
    } else {
        let front = if base.last() == '/' {
            base.drop_last()
        } else {
            base
        };
        assert(path =~= front.push('/') + sub);
        lemma_split_joins(front, sub, '/');
        let f = text::split_on(front, '/');
        assert(segments.take(f.len() as int) =~= f);
        lemma_counted_grows(segments, f.len() as int);
        assert(path[0] == base[0]);
        if base.last() == '/' {
            let all = text::split_on(base, '/');
            assert(all.drop_last() =~= f);
            assert(all.last().len() == 0);
        }
        assert(counted(text::split_on(base, '/')) == counted(f));
        let c = counted(f);
        assert(path_parts(base) =~= path_parts(path).subrange(0, path_parts(base).len() as int))
            by {
            let root = if base[0] == '/' {
                seq!["/"@]
            } else {
                Seq::<Seq<char>>::empty()
            };
            assert(c =~= counted(segments).subrange(0, c.len() as int));
            assert forall|k: int| 0 <= k < c.len() implies c[k] == counted(segments)[k] by {
                assert(counted(segments).subrange(0, c.len() as int)[k] == c[k]);
            }
            assert(path_parts(base) == root + c);
            assert(path_parts(path) == root + counted(segments));
        }
    }
}

proof fn lemma_counted_grows(segments: Seq<Seq<char>>, n: int)
    requires
        0 <= n <= segments.len(),
    ensures
        counted(segments.take(n)).is_prefix_of(counted(segments)),
    decreases segments.len() - n,
{
    if n < segments.len() {
        lemma_counted_grows(segments, n + 1);
        text::lemma_take_step(segments, n);
        let a = counted(segments.take(n));
        let b = counted(segments.take(n + 1));
        let c = counted(segments);
        assert(a =~= b.subrange(0, a.len() as int));
        assert(b =~= c.subrange(0, b.len() as int));
        assert forall|k: int| 0 <= k < a.len() implies a[k] == c[k] by {
            assert(b.subrange(0, a.len() as int)[k] == b[k]);
            assert(c.subrange(0, b.len() as int)[k] == c[k]);
        }
        assert(a =~= c.subrange(0, a.len() as int));
    } else {
        text::lemma_take_all(segments);
        assert(counted(segments) =~= counted(segments).subrange(0, counted(segments).len() as int));
    }
}

proof fn lemma_split_joins(front: Seq<char>, rest: Seq<char>, c: char)
    ensures
        text::split_on(front.push(c) + rest, c) == text::split_on(front, c) + text::split_on(
            rest,
            c,
        ),
    decreases rest.len(),
{
    let s = front.push(c) + rest;
    let f = text::split_on(front, c);
    if rest.len() == 0 {
        assert(rest =~= Seq::empty());
        assert(s =~= front.push(c));
        assert(s.drop_last() =~= front);
        assert(f.push(Seq::empty()) =~= f + seq![Seq::<char>::empty()]);
    } else {
        let init = rest.drop_last();
        lemma_split_joins(front, init, c);
        assert(s.drop_last() =~= front.push(c) + init);
        text::lemma_split_nonempty(init, c);
        let r = text::split_on(init, c);
        assert((f + r).last() == r.last());
        if rest.last() == c {
            assert((f + r).push(Seq::empty()) =~= f + r.push(Seq::empty()));
        } else {
            assert((f + r).update((f + r).len() - 1, r.last().push(rest.last())) =~= f + r.update(
                r.len() - 1,
                r.last().push(rest.last()),
            ));
        }
    }
}

/// The number that decimal digits stand for gives the digits back.
proof fn lemma_decimal_value(n: nat)
    ensures
        text::all_digits(text::decimal(n)),
        text::digits_value(text::decimal(n)) == n,
        text::decimal(n).len() > 0,
    decreases n,
{
    let d = text::decimal(n);
    if n < 10 {
        assert(d.drop_last() =~= Seq::empty());
        reveal_with_fuel(text::digits_value, 2);
    } else {
        lemma_decimal_value(n / 10);
        assert(d.drop_last() =~= text::decimal(n / 10));
        assert forall|i: int| 0 <= i < d.len() implies '0' <= #[trigger] d[i] && d[i] <= '9' by {
            if i < d.len() - 1 {
                assert(d[i] == text::decimal(n / 10)[i]);
            }
        }
    }
}

/// A text up to a character that it does not hold is found again.
proof fn lemma_split_at_mark(a: Seq<char>, b: Seq<char>, x: Seq<char>, y: Seq<char>, mark: char)
    requires
        !a.contains(mark),
        !b.contains(mark),
        a + seq![mark] + x == b + seq![mark] + y,
    ensures
        a == b,
        x == y,
{
    let s = a + seq![mark] + x;
    let t = b + seq![mark] + y;
    assert(s[a.len() as int] == mark);
    assert(t[b.len() as int] == mark);
    if a.len() < b.len() {
        assert(t[a.len() as int] == b[a.len() as int]);
        assert(b.contains(mark));
    } else if b.len() < a.len() {
        assert(s[b.len() as int] == a[b.len() as int]);
        assert(a.contains(mark));
    }
    assert forall|i: int| 0 <= i < a.len() implies a[i] == b[i] by {
        assert(s[i] == a[i]);
        assert(t[i] == b[i]);
    }
    assert(a =~= b);
    assert(s.len() == a.len() + 1 + x.len());
    assert(t.len() == b.len() + 1 + y.len());
    assert forall|i: int| 0 <= i < x.len() implies x[i] == y[i] by {
        assert(s[a.len() + 1 + i] == x[i]);
        assert(t[b.len() + 1 + i] == y[i]);
    }
    assert(x =~= y);
}

/// No two messages share a name: where the names are equal, so are the time, the process and the
/// count.
pub proof fn law_message_names_are_distinct(
    stamp: nat,
    pid: nat,
    seq: nat,
    other_stamp: nat,
    other_pid: nat,
    other_seq: nat,
)
    requires
        message_name(stamp, pid, seq) == message_name(other_stamp, other_pid, other_seq),
    ensures
        stamp == other_stamp,
        pid == other_pid,
        seq == other_seq,
{
    reveal_strlit("_");
    reveal_strlit(".json");
    lemma_decimal_value(stamp);
    lemma_decimal_value(pid);
    lemma_decimal_value(seq);
    lemma_decimal_value(other_stamp);
    lemma_decimal_value(other_pid);
    lemma_decimal_value(other_seq);
    let (a, b, c) = (text::decimal(stamp), text::decimal(pid), text::decimal(seq));
    let (d, e, f) = (
        text::decimal(other_stamp),
        text::decimal(other_pid),
        text::decimal(other_seq),
    );
    assert("_"@ =~= seq!['_']);
    let end = ".json"@.skip(1);
    assert(".json"@ =~= seq!['.'] + end);
    let first = seq!['_'];
    assert(message_name(stamp, pid, seq) =~= a + first + (b + first + (c + seq!['.'] + end)));
    assert(message_name(other_stamp, other_pid, other_seq) =~= d + first + (e + first + (f
        + seq!['.'] + end)));
    lemma_split_at_mark(
        a,
        d,
        b + first + (c + seq!['.'] + end),
        e + first + (f + seq!['.'] + end),
        '_',
    );
    lemma_split_at_mark(b, e, c + seq!['.'] + end, f + seq!['.'] + end, '_');
    lemma_split_at_mark(c, f, end, end, '.');
}

/// Every item that describes a change is kept, and there are no more changes than items.
pub proof fn law_valid_changes_are_kept(items: Seq<json::Json>, i: int)
    requires
        0 <= i < items.len(),
        command_of(items[i]) is Some,
    ensures
        commands_of(items).contains(command_of(items[i])->0),
        commands_of(items).len() <= items.len(),
    decreases items.len(),
{
    let front = items.drop_last();
    let rest = commands_of(front);
    let c = command_of(items[i])->0;
    lemma_no_more_commands(front);
    if i < items.len() - 1 {
        law_valid_changes_are_kept(front, i);
        let k = choose|k: int| 0 <= k < rest.len() && rest[k] == c;
        assert(commands_of(items)[k] == c);
    } else {
        assert(commands_of(items)[rest.len() as int] == c);
    }
}

proof fn lemma_no_more_commands(items: Seq<json::Json>)
    ensures
        commands_of(items).len() <= items.len(),
    decreases items.len(),
{
    if items.len() > 0 {
        lemma_no_more_commands(items.drop_last());
    }
}

/// The programs have directories of their own.
pub proof fn law_programs_have_their_own_directories(name: String)
    ensures
        target_dir(EcosystemTarget::FusionCode) == "fusion-code"@,
        target_dir(EcosystemTarget::FusionKB) == "fusion-kb"@,
        target_dir(EcosystemTarget::FusionCLI) == "fusion-cli"@,
        target_dir(EcosystemTarget::FusionCode) != target_dir(EcosystemTarget::FusionKB),
        target_dir(EcosystemTarget::FusionCode) != target_dir(EcosystemTarget::FusionCLI),
        target_dir(EcosystemTarget::FusionKB) != target_dir(EcosystemTarget::FusionCLI),
        target_dir(EcosystemTarget::Custom(name)) == name@,
{
    reveal_strlit("fusion-code");
    reveal_strlit("fusion-kb");
    reveal_strlit("fusion-cli");
    assert("fusion-code"@.len() == 11 && "fusion-kb"@.len() == 9 && "fusion-cli"@.len() == 10);
}

/// A change takes each of its values from the entry of that name, and needs the name of a node only.
pub proof fn law_change_takes_values_by_name(j: json::Json)
    ensures
        command_of(j) is Some <==> json::as_text(json::under(j, "node_id"@)) is Some,
        command_of(j) matches Some(c) ==> {
            &&& json::as_text(json::under(j, "node_id"@)) == Some(c.node_id)
            &&& json::as_number(json::under(j, "x"@)) == c.x
            &&& json::as_number(json::under(j, "y"@)) == c.y
            &&& json::as_number(json::under(j, "w"@)) == c.w
            &&& json::as_number(json::under(j, "h"@)) == c.h
            &&& json::as_text(json::under(j, "fill"@)) == c.fill
            &&& json::as_text(json::under(j, "stroke"@)) == c.stroke
            &&& json::as_number(json::under(j, "radius"@)) == c.radius
            &&& json::as_number(json::under(j, "opacity"@)) == c.opacity
        },
{
}

/// The changes of two lists together are those of the first and then those of the second.
pub proof fn law_changes_keep_their_order(a: Seq<json::Json>, b: Seq<json::Json>)
    ensures
        commands_of(a + b) == commands_of(a) + commands_of(b),
    decreases b.len(),
{
    if b.len() == 0 {
        assert(a + b =~= a);
        assert(commands_of(a) + commands_of(b) =~= commands_of(a));
    } else {
        law_changes_keep_their_order(a, b.drop_last());
        assert((a + b).drop_last() =~= a + b.drop_last());
        assert((a + b).last() == b.last());
        assert(commands_of(a + b) =~= commands_of(a) + commands_of(b));
    }
}

/// Only a message that changes styles changes anything, by the list that it carries.
pub proof fn law_only_style_changes_count(action: Seq<char>, payload: Option<json::Json>)
    ensures
        changes_in(action, payload).len() > 0 ==> action == "style-change"@ && payload is Some,
        action == "style-change"@ ==> (payload matches Some(j) ==> (json::under(j, "mutations"@)
            matches json::Json::Array(items) ==> changes_in(action, payload) == commands_of(items))),
{
}

/// Each option of a training stands in front of its own value, and a configuration is named only
/// where there is one.
pub proof fn law_options_stand_before_their_values(
    dataset: Seq<char>,
    model: Seq<char>,
    config: Option<Seq<char>>,
)
    ensures
        ({
            let args = shared_args(dataset, model, config);
            &&& args[0] == "--dataset"@ && args[1] == dataset
            &&& args[2] == "--model"@ && args[3] == model
            &&& config matches Some(c) ==> args.len() == 6 && args[4] == "--config"@ && args[5] == c
            &&& config is None ==> args.len() == 4
        }),
{
}

/// A path is refused for what is written in it where it is empty, absolute, or leads upward at any of
/// its segments, and for nothing else.
pub proof fn law_written_paths_are_refused_for_a_reason(sub: Seq<char>, i: int)
    ensures
        written_fault(sub) == Some(SubpathErrorView::Empty) <==> sub.len() == 0,
        "/"@.is_prefix_of(sub) <==> written_fault(sub) == Some(SubpathErrorView::Absolute(sub)),
        0 <= i < text::split_on(sub, '/').len() && text::split_on(sub, '/')[i] == ".."@
            ==> written_fault(sub) is Some,
        written_fault(sub) == Some(SubpathErrorView::ParentDir(sub)) ==> text::split_on(
            sub,
            '/',
        ).contains(".."@),
        written_fault(sub) matches Some(SubpathErrorView::Outside(_)) ==> false,
{
    reveal_strlit("/");
    if sub.len() > 0 && sub[0] == '/' {
        assert("/"@ =~= sub.subrange(0, 1));
    }
    if "/"@.is_prefix_of(sub) {
        assert("/"@[0] == sub.subrange(0, 1)[0]);
    }
}

/// The name of a message is three words: when it was written, by which process, and the how-manieth
/// it is, with its extension.
pub proof fn law_message_name_says_when_and_by_whom(stamp: nat, pid: nat, seq: nat)
    ensures
        text::split_on(message_name(stamp, pid, seq), '_') == seq![
            text::decimal(stamp),
            text::decimal(pid),
            text::decimal(seq) + ".json"@,
        ],
{
    reveal_strlit("_");
    reveal_strlit(".json");
    let a = text::decimal(stamp);
    let b = text::decimal(pid);
    let c = text::decimal(seq);
    lemma_no_underscore(stamp);
    lemma_no_underscore(pid);
    lemma_no_underscore(seq);
    let end = c + ".json"@;
    assert(!end.contains('_')) by {
        if end.contains('_') {
            let i = choose|i: int| 0 <= i < end.len() && end[i] == '_';
            if i < c.len() {
                assert(c[i] == '_');
            } else {
                assert(".json"@[i - c.len()] == '_');
            }
        }
    }
    let nothing = Seq::<char>::empty();
    assert(nothing + a =~= a);
    text::lemma_split_tail(nothing, a, '_');
    assert(text::split_on(nothing, '_') =~= seq![nothing]);
    assert(text::split_on(a, '_') =~= seq![a]);
    text::lemma_split_more(a, b, '_');
    text::lemma_split_more(a + seq!['_'] + b, end, '_');
    assert(message_name(stamp, pid, seq) =~= a + seq!['_'] + b + seq!['_'] + end);
    assert(seq![a].push(b).push(end) =~= seq![a, b, end]);
}

proof fn lemma_no_underscore(n: nat)
    ensures
        !text::decimal(n).contains('_'),
{
    text::law_decimal_is_read(n);
    let d = text::decimal(n);
    if d.contains('_') {
        let i = choose|i: int| 0 <= i < d.len() && d[i] == '_';
        assert('0' <= d[i] && d[i] <= '9');
    }
}

} // verus!
