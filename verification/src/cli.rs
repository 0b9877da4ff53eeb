//! What the command line decides: reading input, choosing styles and models, and explaining
//! failures.

use vstd::prelude::*;
use vstd::string::*;

use crate::canvas::{CanvasError, PenDocument};
use crate::codegen;
use crate::codegen::tokens;
use crate::codegen::tokens::resolve_tokens;
use crate::codegen::{document_code, CodegenTarget};
use crate::design_system;
use crate::design_system::{DesignSystemRegistry, RegistryView, Theme};
use crate::export::{ExportError, ExportErrorView};
use crate::text;
use crate::text::{contains, lower, number, same, trim};

verus! {

/// The most that is read, in bytes.
pub const STDIN_READ_CAP: usize = 52_428_800;

// ---------------------------------------------------------------------------
// Input
// ---------------------------------------------------------------------------

/// What `std::string::FromUtf8Error` says of bytes that are no UTF-8.
pub uninterp spec fn utf8_fault(bytes: Seq<u8>) -> Seq<char>;

/// Calls `String::from_utf8`: the text, where the bytes are UTF-8, and else what its error says, which
/// follows from the bytes alone.
#[verifier::external_body]
fn from_utf8(bytes: Vec<u8>) -> (r: Result<String, String>)
    ensures
        match r {
            Ok(s) => vstd::utf8::valid_utf8(bytes@) && s@ == vstd::utf8::decode_utf8(bytes@),
            Err(e) => !vstd::utf8::valid_utf8(bytes@) && e@ == utf8_fault(bytes@),
        },
{
    String::from_utf8(bytes).map_err(|e| e.to_string())
}

/// The bytes are no text; the reason says what is wrong, and where.
#[derive(Debug)]
pub struct NotUtf8 {
    pub reason: String,
}

impl NotUtf8 {
    /// The error in words, for standard input.
    pub fn message(&self) -> (r: String)
        ensures
            r@ == "stdin 输入非 UTF-8: "@ + self.reason@,
    {
        "stdin 输入非 UTF-8: ".to_owned().concat(self.reason.as_str())
    }
}

/// The text that the bytes are. They are looked at together, so that it does not matter where they
/// were cut while they were read.
pub fn decode_stdin_bytes(buf: Vec<u8>) -> (r: Result<String, NotUtf8>)
    ensures
        match r {
            Ok(s) => vstd::utf8::valid_utf8(buf@) && s@ == vstd::utf8::decode_utf8(buf@),
            Err(e) => !vstd::utf8::valid_utf8(buf@) && e.reason@ == utf8_fault(buf@),
        },
{
    match from_utf8(buf) {
        Ok(s) => Ok(s),
        Err(reason) => Err(NotUtf8 { reason }),
    }
}

/// Adds what was read and says whether there may be more: with too much, reading stops.
pub fn take_chunk(buf: &mut Vec<u8>, chunk: &mut Vec<u8>) -> (r: bool)
    ensures
        final(buf)@ == old(buf)@ + old(chunk)@,
        final(chunk)@.len() == 0,
        r == (final(buf)@.len() <= STDIN_READ_CAP),
{
    buf.append(chunk);
    buf.len() <= STDIN_READ_CAP
}

/// Whether a file of the size is read.
pub fn file_size_allowed(len: u64) -> (r: bool)
    ensures
        r == (len <= STDIN_READ_CAP),
{
    len <= STDIN_READ_CAP as u64
}

// ---------------------------------------------------------------------------
// Backups
// ---------------------------------------------------------------------------

/// A change to the three backups, of which `bak` is the newest.
#[derive(Debug, Clone, Copy, PartialEq, Eq, Structural)]
pub enum BackupMove {
    /// `bak.2` is removed.
    DropOldest,
    /// `bak.1` becomes `bak.2`.
    SecondToThird,
    /// `bak` becomes `bak.1`.
    FirstToSecond,
}

/// The backups: what stands in `bak`, `bak.1` and `bak.2`.
#[verifier::ext_equal]
pub struct Backups {
    pub first: Option<Seq<u8>>,
    pub second: Option<Seq<u8>>,
    pub third: Option<Seq<u8>>,
}

/// The backups after a change.
pub open spec fn moved(b: Backups, m: BackupMove) -> Backups {
    match m {
        BackupMove::DropOldest => Backups { third: None, ..b },
        BackupMove::SecondToThird => Backups { second: None, third: b.second, ..b },
        BackupMove::FirstToSecond => Backups { first: None, second: b.first, ..b },
    }
}

/// The backups after several changes.
pub open spec fn all_moved(b: Backups, ms: Seq<BackupMove>) -> Backups
    decreases ms.len(),
{
    if ms.len() == 0 {
        b
    } else {
        moved(all_moved(b, ms.drop_last()), ms.last())
    }
}

/// The changes that make room for a new backup.
pub open spec fn rotation(first: bool, second: bool, third: bool) -> Seq<BackupMove> {
    (if third {
        seq![BackupMove::DropOldest]
    } else {
        Seq::empty()
    }) + (if second {
        seq![BackupMove::SecondToThird]
    } else {
        Seq::empty()
    }) + (if first {
        seq![BackupMove::FirstToSecond]
    } else {
        Seq::empty()
    })
}

/// The changes that make room for a new backup, given which backups exist.
pub fn rotate_backup(first: bool, second: bool, third: bool) -> (r: Vec<BackupMove>)
    ensures
        r@ == rotation(first, second, third),
{
    let mut out: Vec<BackupMove> = Vec::new();
    if third {
        out.push(BackupMove::DropOldest);
    }
    if second {
        out.push(BackupMove::SecondToThird);
    }
    if first {
        out.push(BackupMove::FirstToSecond);
    }
    proof {
        assert(out@ =~= rotation(first, second, third));
    }
    out
}

// ---------------------------------------------------------------------------
// Choices
// ---------------------------------------------------------------------------

/// The styles with a usual one added, where there is room and it is not there.
pub open spec fn topped_up(styles: Seq<Seq<char>>, usual: Seq<char>) -> Seq<Seq<char>> {
    if styles.len() >= 3 || styles.contains(usual) {
        styles
    } else {
        styles.push(usual)
    }
}

/// The three styles: those that were asked for, and usual ones where there are too few.
pub open spec fn picked_styles(asked: Seq<Seq<char>>) -> Seq<Seq<char>> {
    if asked.len() >= 3 {
        asked.take(3)
    } else {
        topped_up(topped_up(topped_up(asked, "极简风"@), "卡片风"@), "深色风"@)
    }
}

fn top_up(styles: &mut Vec<String>, usual: &str)
    ensures
        text::texts(final(styles)@) == topped_up(text::texts(old(styles)@), usual@),
{
    let ghost views = text::texts(styles@);
    if styles.len() >= 3 {
        return;
    }
    match text::position(styles, usual) {
        Some(k) => {
            proof {
                assert(views[k as int] == usual@);
            }
        },
        None => {
            proof {
                assert(!views.contains(usual@));
            }
            styles.push(usual.to_owned());
            proof {
                assert(text::texts(styles@) =~= views.push(usual@));
            }
        },
    }
}

/// What was asked for; nothing where nothing was.
pub open spec fn asked_styles(styles: Option<Vec<String>>) -> Seq<Seq<char>> {
    match styles {
        Some(s) => text::texts(s@),
        None => Seq::empty(),
    }
}

/// The three styles of a comparison: those that were asked for come first, usual ones fill up.
pub fn pick_multi_variant_styles(styles: Option<Vec<String>>) -> (r: [String; 3])
    ensures
        text::texts(r@) == picked_styles(asked_styles(styles)),
{
    let mut out: Vec<String> = Vec::new();
    let ghost asked = asked_styles(styles);
    match &styles {
        Some(s) => {
            let mut i: usize = 0;
            while i < s.len() && i < 3
                invariant
                    i <= s@.len(),
                    i <= 3,
                    asked == text::texts(s@),
                    out@.len() == i,
                    forall|k: int| 0 <= k < i ==> (#[trigger] out@[k])@ == asked[k],
                decreases s.len() - i,
            {
                out.push(s[i].clone());
                i = i + 1;
            }
            proof {
                assert(text::texts(out@) =~= (if asked.len() >= 3 {
                    asked.take(3)
                } else {
                    asked
                }));
            }
        },
        None => {
            proof {
                assert(text::texts(out@) =~= asked);
            }
        },
    }
    top_up(&mut out, "极简风");
    top_up(&mut out, "卡片风");
    top_up(&mut out, "深色风");
    let ghost all = text::texts(out@);
    proof {
        lemma_three_styles(asked);
        assert(all == picked_styles(asked));
        assert(out@.len() == all.len());
    }
    let third = out.remove(2);
    let second = out.remove(1);
    let first = out.remove(0);
    let r: [String; 3] = [first, second, third];
    proof {
        assert(text::texts(r@) =~= all);
    }
    r
}

proof fn lemma_three_styles(asked: Seq<Seq<char>>)
    ensures
        picked_styles(asked).len() == 3,
        asked.len() <= 3 ==> asked.is_prefix_of(picked_styles(asked)),
{
    reveal_strlit("极简风");
    reveal_strlit("卡片风");
    reveal_strlit("深色风");
    let a = "极简风"@;
    let b = "卡片风"@;
    let c = "深色风"@;
    assert(a[0] != b[0] && b[0] != c[0] && a[0] != c[0]);
    let one = topped_up(asked, a);
    let two = topped_up(one, b);
    let three = topped_up(two, c);
    if asked.len() < 3 {
        if asked.len() == 0 {
            assert(one =~= seq![a]);
            assert(two =~= seq![a, b]);
            assert(three =~= seq![a, b, c]);
        } else if asked.len() == 1 {
            assert(asked =~= seq![asked[0]]);
            if asked[0] == a {
                assert(asked.contains(a));
                assert(two =~= seq![a, b]);
            } else {
                assert(one =~= seq![asked[0], a]);
                if asked[0] == b {
                    assert(one[0] == b);
                    assert(one.contains(b));
                    assert(two =~= one);
                } else {
                    assert(two =~= seq![asked[0], a, b]);
                }
            }
            if two.len() == 2 {
                assert(two[0] != c && two[1] != c);
                assert(!two.contains(c));
            }
        } else {
            assert(asked =~= seq![asked[0], asked[1]]);
            if asked.contains(a) && asked.contains(b) {
                assert(two == asked);
                assert(!asked.contains(c));
            }
        }
        assert(asked.is_prefix_of(three)) by {
            assert(asked =~= three.subrange(0, asked.len() as int));
        }
    } else if asked.len() == 3 {
        assert(asked =~= picked_styles(asked).subrange(0, 3));
    }
}

/// The registry that a document is rendered with.
pub open spec fn registry_for(active: Option<Seq<char>>) -> RegistryView {
    let systems = design_system::with_builtins(Seq::empty());
    RegistryView {
        systems,
        active_id: match active {
            Some(id) => if design_system::find_system(systems, id) is Some {
                Some(id)
            } else {
                None
            },
            None => None,
        },
        theme: Theme::Light,
    }
}

/// The registry for a document: the built-in systems, with the one that the document names in use.
pub fn build_registry(doc: &PenDocument) -> (r: DesignSystemRegistry)
    ensures
        r.wf(),
        r@ == registry_for(doc@.active_design_system),
{
    let mut reg = DesignSystemRegistry::new();
    reg.register_builtin();
    match &doc.active_design_system {
        Some(id) => {
            let _ = reg.activate(id.as_str());
        },
        None => {},
    }
    reg
}

/// The code of a document, in which each reference to a token of the system that the document names
/// is resolved.
pub fn codegen(doc: &PenDocument, target: CodegenTarget) -> (r: String)
    ensures
        codegen::is_code_of(
            r@,
            tokens::resolved_document(
                design_system::active_system(registry_for(doc@.active_design_system)),
                doc@,
            ),
            target,
        ),
{
    document_code(&resolve_tokens(doc, &build_registry(doc)), target)
}

/// The model that is probed: the one that was asked for, else the one that the environment names,
/// else the first that the service lists.
pub open spec fn model_to_probe(
    asked: Seq<char>,
    named: Option<Seq<char>>,
    listed: Option<Seq<char>>,
) -> Seq<char> {
    if text::trimmed(asked).len() > 0 {
        text::trimmed(asked)
    } else {
        match named {
            Some(m) if text::trimmed(m).len() > 0 => text::trimmed(m),
            _ => match listed {
                Some(m) => m,
                None => "default"@,
            },
        }
    }
}

/// The model that is probed.
pub fn probe_model(asked: &str, named: &Option<String>, listed: &Option<String>) -> (r: String)
    ensures
        r@ == model_to_probe(asked@, text::opt_text(*named), text::opt_text(*listed)),
{
    let model = trim(asked);
    if !model.as_str().is_empty() {
        return model;
    }
    match named {
        Some(m) => {
            let model = trim(m.as_str());
            if !model.as_str().is_empty() {
                return model;
            }
        },
        None => {},
    }
    match listed {
        Some(m) => m.clone(),
        None => "default".to_owned(),
    }
}

/// Whether logging to a file is switched off.
pub fn should_disable_file(value: &Option<String>) -> (r: bool)
    ensures
        r == match *value {
            Some(v) => v@ == "1"@ || text::ascii_lower(v@) == "true"@,
            None => false,
        },
{
    match value {
        Some(v) => same(v.as_str(), "1") || same(lower(v.as_str()).as_str(), "true"),
        None => false,
    }
}

/// The directory for logs that the environment names; an empty name is none.
pub fn log_dir_override(value: &Option<String>) -> (r: Option<String>)
    ensures
        text::opt_text(r) == match *value {
            Some(v) => if v@.len() > 0 {
                Some(v@)
            } else {
                None
            },
            None => None,
        },
{
    match value {
        Some(v) => if v.as_str().is_empty() {
            None
        } else {
            Some(v.clone())
        },
        None => None,
    }
}

// ---------------------------------------------------------------------------
// Failures
// ---------------------------------------------------------------------------

/// What went wrong, and what can be done.
#[derive(Debug)]
pub struct Advice {
    pub category: String,
    pub hint: String,
}

/// What an `Advice` holds.
#[verifier::ext_equal]
pub struct AdviceView {
    pub category: Seq<char>,
    pub hint: Seq<char>,
}

impl Advice {
    pub open spec fn view(&self) -> AdviceView {
        AdviceView { category: self.category@, hint: self.hint@ }
    }
}

fn advice(category: &str, hint: &str) -> (r: Advice)
    ensures
        r@ == (AdviceView { category: category@, hint: hint@ }),
{
    Advice { category: category.to_owned(), hint: hint.to_owned() }
}

/// Advice on a failed export.
pub open spec fn export_advice(e: ExportErrorView) -> AdviceView {
    match e {
        ExportErrorView::UnsupportedFormat(_) => AdviceView {
            category: "导出格式不支持"@,
            hint: "检查 --format 参数，支持 html/svg/png/pdf/json"@,
        },
        ExportErrorView::BatchPartial { count, .. } => AdviceView {
            category: "批量导出部分失败"@,
            hint: text::decimal(count) + " 个页面导出失败，详见日志中失败清单；已导出文件保留"@,
        },
        ExportErrorView::RenderFailed(_) => AdviceView {
            category: "渲染失败"@,
            hint: "检查画布尺寸/元素是否合法；PDF 需系统 CJK 字体"@,
        },
        ExportErrorView::Io(_) => AdviceView {
            category: "文件 IO 错误"@,
            hint: "检查输出目录权限与磁盘空间"@,
        },
        ExportErrorView::Serialize(_) => AdviceView {
            category: "序列化错误"@,
            hint: "检查文档数据结构完整性"@,
        },
    }
}

/// Advice on a document that something is wrong with.
pub open spec fn canvas_advice(e: CanvasError) -> AdviceView {
    match e {
        CanvasError::NodeNotFound => AdviceView {
            category: "节点未找到"@,
            hint: "检查操作的目标 node id 是否存在于当前文档"@,
        },
        CanvasError::PageNotFound => AdviceView {
            category: "页面未找到"@,
            hint: "检查操作的目标 page id 是否存在于当前文档"@,
        },
        CanvasError::ParseError => AdviceView {
            category: "文档解析失败"@,
            hint: "检查 .fusiondesign 文件是否为合法 JSON 且符合 schema"@,
        },
        CanvasError::DepthExceeded | CanvasError::NodeTotalExceeded => AdviceView {
            category: "文档超限"@,
            hint: "输入 .fusiondesign 节点嵌套过深或过多，检查文件是否损坏"@,
        },
        CanvasError::SchemaVersion => AdviceView {
            category: "文档 schema 版本不支持"@,
            hint: "文件由更高版本 fusion-design 生成，请升级本程序或用旧版打开"@,
        },
    }
}

/// Advice on a failure that is known by its message alone.
pub open spec fn message_advice(msg: Seq<char>) -> AdviceView {
    if text::occurs(msg, "HTTP 401"@) || text::occurs(msg, "Unauthorized"@) {
        AdviceView {
            category: "鉴权失败"@,
            hint:
                "检查 FUSION_MLX_API_KEY 是否为 gateway master_key 或 fusion-mlx backend key"@,
        }
    } else if text::occurs(msg, "HTTP 404"@) || text::occurs(msg, "connection refused"@) {
        AdviceView {
            category: "服务不可达"@,
            hint:
                "确认 fusion-mlx(11434)/gateway(11432) 已启动；FUSION_MLX_BASE_URL 指向正确端点"@,
        }
    } else if text::occurs(msg, "HTTP 5"@) || text::occurs(msg, "502"@) {
        AdviceView {
            category: "上游服务错误"@,
            hint: "fusion-mlx/gateway 临时不可用，检查模型是否已加载后重试"@,
        }
    } else if text::occurs(msg, "Empty choices"@) || text::occurs(msg, "空 choices"@) {
        AdviceView {
            category: "模型返回空"@,
            hint: "模型未产出内容，检查模型名与 max_tokens 设置"@,
        }
    } else {
        AdviceView {
            category: "运行错误"@,
            hint: "详见上方日志；可设 RUST_LOG=debug 获取更多细节"@,
        }
    }
}

/// Advice on a failed export.
pub fn advise_on_export(e: &ExportError) -> (r: Advice)
    ensures
        r@ == export_advice(e@),
{
    match e {
        ExportError::UnsupportedFormat(_) => advice(
            "导出格式不支持",
            "检查 --format 参数，支持 html/svg/png/pdf/json",
        ),
        ExportError::BatchPartial { count, .. } => Advice {
            category: "批量导出部分失败".to_owned(),
            hint: number(*count as u64).concat(
                " 个页面导出失败，详见日志中失败清单；已导出文件保留",
            ),
        },
        ExportError::RenderFailed(_) => advice(
            "渲染失败",
            "检查画布尺寸/元素是否合法；PDF 需系统 CJK 字体",
        ),
        ExportError::Io(_) => advice("文件 IO 错误", "检查输出目录权限与磁盘空间"),
        ExportError::Serialize(_) => advice("序列化错误", "检查文档数据结构完整性"),
    }
}

/// Advice on a document that something is wrong with.
pub fn advise_on_canvas(e: CanvasError) -> (r: Advice)
    ensures
        r@ == canvas_advice(e),
{
    match e {
        CanvasError::NodeNotFound => advice(
            "节点未找到",
            "检查操作的目标 node id 是否存在于当前文档",
        ),
        CanvasError::PageNotFound => advice(
            "页面未找到",
            "检查操作的目标 page id 是否存在于当前文档",
        ),
        CanvasError::ParseError => advice(
            "文档解析失败",
            "检查 .fusiondesign 文件是否为合法 JSON 且符合 schema",
        ),
        CanvasError::DepthExceeded | CanvasError::NodeTotalExceeded => advice(
            "文档超限",
            "输入 .fusiondesign 节点嵌套过深或过多，检查文件是否损坏",
        ),
        CanvasError::SchemaVersion => advice(
            "文档 schema 版本不支持",
            "文件由更高版本 fusion-design 生成，请升级本程序或用旧版打开",
        ),
    }
}

/// Advice on a failure that is known by its message alone.
pub fn advise_on_message(msg: &str) -> (r: Advice)
    ensures
        r@ == message_advice(msg@),
{
    if contains(msg, "HTTP 401") || contains(msg, "Unauthorized") {
        advice(
            "鉴权失败",
            "检查 FUSION_MLX_API_KEY 是否为 gateway master_key 或 fusion-mlx backend key",
        )
    } else if contains(msg, "HTTP 404") || contains(msg, "connection refused") {
        advice(
            "服务不可达",
            "确认 fusion-mlx(11434)/gateway(11432) 已启动；FUSION_MLX_BASE_URL 指向正确端点",
        )
    } else if contains(msg, "HTTP 5") || contains(msg, "502") {
        advice(
            "上游服务错误",
            "fusion-mlx/gateway 临时不可用，检查模型是否已加载后重试",
        )
    } else if contains(msg, "Empty choices") || contains(msg, "空 choices") {
        advice("模型返回空", "模型未产出内容，检查模型名与 max_tokens 设置")
    } else {
        advice("运行错误", "详见上方日志；可设 RUST_LOG=debug 获取更多细节")
    }
}

// ---------------------------------------------------------------------------
// Laws
// ---------------------------------------------------------------------------

/// There are always three styles, and up to three that were asked for are all among them, first
/// and in their order.
pub proof fn law_asked_styles_come_first(asked: Seq<Seq<char>>)
    ensures
        picked_styles(asked).len() == 3,
        asked.len() <= 3 ==> asked.is_prefix_of(picked_styles(asked)),
        asked.len() >= 3 ==> picked_styles(asked) == asked.take(3),
{
    lemma_three_styles(asked);
}

proof fn lemma_one_more_move(b: Backups, ms: Seq<BackupMove>, m: BackupMove)
    ensures
        all_moved(b, ms.push(m)) == moved(all_moved(b, ms), m),
{
    assert(ms.push(m).drop_last() =~= ms);
}

/// The rotation leaves the first place free and keeps the two newest backups, in their order.
pub proof fn law_rotation_keeps_the_newest(b: Backups)
    ensures
        all_moved(b, rotation(b.first is Some, b.second is Some, b.third is Some)) == (Backups {
            first: None,
            second: b.first,
            third: b.second,
        }),
{
    let none = Seq::<BackupMove>::empty();
    let one = if b.third is Some {
        none.push(BackupMove::DropOldest)
    } else {
        none
    };
    let two = if b.second is Some {
        one.push(BackupMove::SecondToThird)
    } else {
        one
    };
    let three = if b.first is Some {
        two.push(BackupMove::FirstToSecond)
    } else {
        two
    };
    lemma_one_more_move(b, none, BackupMove::DropOldest);
    lemma_one_more_move(b, one, BackupMove::SecondToThird);
    lemma_one_more_move(b, two, BackupMove::FirstToSecond);
    assert(rotation(b.first is Some, b.second is Some, b.third is Some) =~= three);
}

/// The model that was asked for is probed, else the one that the environment names, else the one that
/// the service lists first; white space names none.
pub proof fn law_asked_model_comes_first(asked: Seq<char>, named: Seq<char>, listed: Option<Seq<char>>)
    ensures
        text::trimmed(asked).len() > 0 ==> model_to_probe(asked, Some(named), listed)
            == text::trimmed(asked) && model_to_probe(asked, None, listed) == text::trimmed(asked),
        text::trimmed(asked).len() == 0 && text::trimmed(named).len() > 0 ==> model_to_probe(
            asked,
            Some(named),
            listed,
        ) == text::trimmed(named),
        text::trimmed(asked).len() == 0 && text::trimmed(named).len() == 0 ==> model_to_probe(
            asked,
            Some(named),
            listed,
        ) == model_to_probe(asked, None, listed),
        text::trimmed(asked).len() == 0 ==> (listed matches Some(m) ==> model_to_probe(
            asked,
            None,
            listed,
        ) == m),
{
}

/// No style is there twice unless it was asked for twice.
pub proof fn law_usual_styles_are_not_repeated(asked: Seq<Seq<char>>)
    requires
        asked.no_duplicates(),
    ensures
        picked_styles(asked).no_duplicates(),
{
    let a = topped_up(asked, "极简风"@);
    let b = topped_up(a, "卡片风"@);
    lemma_topped_up(asked, "极简风"@);
    lemma_topped_up(a, "卡片风"@);
    lemma_topped_up(b, "深色风"@);
}

proof fn lemma_topped_up(styles: Seq<Seq<char>>, usual: Seq<char>)
    requires
        styles.no_duplicates(),
    ensures
        topped_up(styles, usual).no_duplicates(),
{
    if !styles.contains(usual) {
        assert forall|i: int| 0 <= i < styles.len() implies #[trigger] styles[i] != usual by {
            assert(styles.contains(styles[i]));
        }
    }
}

/// A document that names a known system is rendered with it, in the light theme; one that names none,
/// or an unknown one, is rendered with none.
pub proof fn law_named_system_is_in_use(id: Seq<char>)
    ensures
        design_system::active_system(registry_for(None)) is None,
        design_system::active_system(registry_for(Some(id))) == design_system::find_system(
            design_system::with_builtins(Seq::empty()),
            id,
        ),
        registry_for(Some(id)).theme == Theme::Light,
{
}

/// A refused key is told apart from everything else, then a service that cannot be found, then one that
/// fails, then an empty answer; any other failure gets the general advice.
pub proof fn law_failures_are_told_apart_by_their_words(msg: Seq<char>)
    ensures
        ({
            let refused = text::occurs(msg, "HTTP 401"@) || text::occurs(msg, "Unauthorized"@);
            let missing = text::occurs(msg, "HTTP 404"@) || text::occurs(
                msg,
                "connection refused"@,
            );
            let failing = text::occurs(msg, "HTTP 5"@) || text::occurs(msg, "502"@);
            let empty = text::occurs(msg, "Empty choices"@) || text::occurs(msg, "空 choices"@);
            let said = message_advice(msg).category;
            &&& refused ==> said == "鉴权失败"@
            &&& !refused && missing ==> said == "服务不可达"@
            &&& !refused && !missing && failing ==> said == "上游服务错误"@
            &&& !refused && !missing && !failing && empty ==> said == "模型返回空"@
            &&& !refused && !missing && !failing && !empty ==> said == "运行错误"@
        }),
{
}

} // verus!
