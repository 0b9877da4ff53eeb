//! What can be mended without asking: token references, blank attributes and default names.

use vstd::prelude::*;
use vstd::string::*;

use crate::canvas;
use crate::canvas::{
    DocumentView, LayoutMode, LayoutView, NodeKind, NodeView, PageView, PenDocument, PenNode,
    StyleView,
};
use crate::codegen::wrap;
use crate::design_system::{DesignSystem, SystemView};
use crate::lint;
use crate::lint::detectors;
use crate::lint::detectors::{blank, default_name, refers_to};
use crate::lint::{build_numeric_token_map, build_token_map, find_token, LintRule, Linter, LinterView};
use crate::num;
use crate::text;
use crate::text::{chars_of, or_empty, slice};

verus! {

/// One thing that was mended.
#[derive(Debug)]
pub struct FixDetail {
    pub rule: LintRule,
    pub node_id: String,
    pub action: String,
    pub before: String,
    pub after: String,
}

/// What a `FixDetail` holds.
#[verifier::ext_equal]
pub struct FixView {
    pub rule: LintRule,
    pub node_id: Seq<char>,
    pub action: Seq<char>,
    pub before: Seq<char>,
    pub after: Seq<char>,
}

impl FixDetail {
    pub open spec fn view(&self) -> FixView {
        FixView {
            rule: self.rule,
            node_id: self.node_id@,
            action: self.action@,
            before: self.before@,
            after: self.after@,
        }
    }
}

pub open spec fn fix_views(s: Seq<FixDetail>) -> Seq<FixView> {
    s.map_values(|d: FixDetail| d@)
}

/// What mending a document came to.
#[derive(Debug)]
pub struct FixResult {
    pub fixes_applied: usize,
    pub fixes_skipped: usize,
    pub details: Vec<FixDetail>,
}

impl FixResult {
    /// Every fix is told of once.
    pub open spec fn wf(&self) -> bool {
        self.fixes_applied == self.details@.len()
    }
}

// ---------------------------------------------------------------------------
// What is mended
// ---------------------------------------------------------------------------

/// The tokens by their colours and texts, and by their numbers.
pub struct Tokens {
    pub styles: Seq<(Seq<char>, Seq<char>)>,
    pub numbers: Seq<(Seq<char>, Seq<char>)>,
}

/// The tokens of a system.
pub open spec fn tokens_of(s: SystemView) -> Tokens {
    Tokens { styles: lint::keyed(s.tokens, false), numbers: lint::keyed(s.tokens, true) }
}

/// The tokens of two maps.
pub open spec fn tokens_in(styles: Seq<(String, String)>, numbers: Seq<(String, String)>) -> Tokens {
    Tokens { styles: canvas::pair_views(styles), numbers: canvas::pair_views(numbers) }
}

/// The node with a token behind one more of its attributes.
pub open spec fn with_token(n: NodeView, key: Seq<char>, token: Seq<char>) -> NodeView {
    NodeView { style: StyleView { refs: n.style.refs.push((key, token)), ..n.style }, ..n }
}

/// A token is put behind an attribute that has none.
pub open spec fn token_fix(
    n: NodeView,
    key: Seq<char>,
    token: Option<Seq<char>>,
    rule: LintRule,
    action: Seq<char>,
    before: Seq<char>,
) -> Option<(NodeView, FixView)> {
    match token {
        Some(name) => if detectors::has_ref(n, key) {
            None
        } else {
            Some(
                (
                    with_token(n, key, name),
                    FixView { rule, node_id: n.id, action, before, after: name },
                ),
            )
        },
        None => None,
    }
}

pub open spec fn fill_fix(n: NodeView, t: Tokens) -> Option<(NodeView, FixView)> {
    match n.style.fill {
        Some(fill) => token_fix(
            n,
            "fill"@,
            lint::token_for(t.styles, fill),
            LintRule::TokenInconsistency,
            "fill→token_ref"@,
            fill,
        ),
        None => None,
    }
}

pub open spec fn stroke_fix(n: NodeView, t: Tokens) -> Option<(NodeView, FixView)> {
    match n.style.stroke {
        Some(stroke) => token_fix(
            n,
            "stroke"@,
            lint::token_for(t.styles, stroke),
            LintRule::TokenInconsistency,
            "stroke→token_ref"@,
            stroke,
        ),
        None => None,
    }
}

/// A gap that is not zero gets a token; a grid's is looked up by that between its columns.
pub open spec fn gap_fix(n: NodeView, t: Tokens) -> Option<(NodeView, FixView)> {
    match n.style.layout {
        LayoutView::Flex(p) => if detectors::not_zero(p.gap.bits) {
            token_fix(
                n,
                "gap"@,
                lint::token_for(t.numbers, p.gap.text),
                LintRule::HardcodedSpacing,
                "gap→token_ref"@,
                p.gap.text,
            )
        } else {
            None
        },
        LayoutView::Grid(g) => if detectors::not_zero(g.column_gap.bits) || detectors::not_zero(
            g.row_gap.bits,
        ) {
            token_fix(
                n,
                "gap"@,
                lint::token_for(t.numbers, g.column_gap.text),
                LintRule::HardcodedSpacing,
                "grid_gap→token_ref"@,
                "("@ + g.column_gap.text + ", "@ + g.row_gap.text + ")"@,
            )
        } else {
            None
        },
        LayoutView::Free => None,
    }
}

pub open spec fn font_size_fix(n: NodeView, t: Tokens) -> Option<(NodeView, FixView)> {
    match n.style.font_size {
        Some(s) => if num::positive(s.bits) {
            token_fix(
                n,
                "font_size"@,
                lint::token_for(t.numbers, s.text),
                LintRule::HardcodedFontSize,
                "font_size→token_ref"@,
                s.text,
            )
        } else {
            None
        },
        None => None,
    }
}

/// A blank fill is taken away.
pub open spec fn blank_fill_fix(n: NodeView) -> Option<(NodeView, FixView)> {
    if detectors::is_blank(n.style.fill) {
        Some(
            (
                NodeView { style: StyleView { fill: None, ..n.style }, ..n },
                FixView {
                    rule: LintRule::EmptyEffects,
                    node_id: n.id,
                    action: "remove_empty_fill"@,
                    before: n.style.fill->0,
                    after: "None"@,
                },
            ),
        )
    } else {
        None
    }
}

/// A blank stroke is taken away.
pub open spec fn blank_stroke_fix(n: NodeView) -> Option<(NodeView, FixView)> {
    if detectors::is_blank(n.style.stroke) {
        Some(
            (
                NodeView { style: StyleView { stroke: None, ..n.style }, ..n },
                FixView {
                    rule: LintRule::EmptyEffects,
                    node_id: n.id,
                    action: "remove_empty_stroke"@,
                    before: n.style.stroke->0,
                    after: "None"@,
                },
            ),
        )
    } else {
        None
    }
}

pub open spec fn kind_name(k: NodeKind) -> Seq<char> {
    match k {
        NodeKind::Rect => "rect"@,
        NodeKind::Circle => "circle"@,
        NodeKind::Text => "text"@,
        NodeKind::Image => "image"@,
        NodeKind::Group => "group"@,
    }
}

/// The name that a node gets: what it draws, and the first eight characters of its id.
pub open spec fn auto_name(n: NodeView) -> Seq<char> {
    kind_name(n.kind) + "_"@ + n.id.take(
        if n.id.len() < 8 {
            n.id.len() as int
        } else {
            8
        },
    )
}

/// A default name is replaced.
pub open spec fn name_fix(n: NodeView) -> Option<(NodeView, FixView)> {
    if detectors::is_default_name(n.name) {
        Some(
            (
                NodeView { name: auto_name(n), ..n },
                FixView {
                    rule: LintRule::UnnamedNode,
                    node_id: n.id,
                    action: "auto_name"@,
                    before: n.name,
                    after: auto_name(n),
                },
            ),
        )
    } else {
        None
    }
}

/// The node, and what was mended so far, after one step.
pub open spec fn stepped(
    st: (NodeView, Seq<FixView>),
    fix: Option<(NodeView, FixView)>,
) -> (NodeView, Seq<FixView>) {
    match fix {
        Some((n, f)) => (n, st.1.push(f)),
        None => st,
    }
}

/// What is mended in a node itself, step after step.
pub open spec fn own_fixes(
    n: NodeView,
    t: Tokens,
    fixes: Seq<FixView>,
) -> (NodeView, Seq<FixView>) {
    let a = stepped((n, fixes), fill_fix(n, t));
    let b = stepped(a, stroke_fix(a.0, t));
    let c = stepped(b, gap_fix(b.0, t));
    let d = stepped(c, font_size_fix(c.0, t));
    let e = stepped(d, blank_fill_fix(d.0));
    let f = stepped(e, blank_stroke_fix(e.0));
    stepped(f, name_fix(f.0))
}

/// What is mended in a node and in all that is inside it.
pub open spec fn fixed_node(
    n: NodeView,
    t: Tokens,
    fixes: Seq<FixView>,
) -> (NodeView, Seq<FixView>)
    decreases n,
{
    let own = own_fixes(n, t, fixes);
    let below = fixed_nodes(n.children, t, own.1);
    (NodeView { children: below.0, ..own.0 }, below.1)
}

pub open spec fn fixed_nodes(
    ns: Seq<NodeView>,
    t: Tokens,
    fixes: Seq<FixView>,
) -> (Seq<NodeView>, Seq<FixView>)
    decreases ns,
{
    if ns.len() == 0 {
        (Seq::empty(), fixes)
    } else {
        let rest = fixed_nodes(ns.drop_last(), t, fixes);
        let last = fixed_node(ns.last(), t, rest.1);
        (rest.0.push(last.0), last.1)
    }
}

pub open spec fn fixed_pages(
    ps: Seq<PageView>,
    t: Tokens,
    fixes: Seq<FixView>,
) -> (Seq<PageView>, Seq<FixView>)
    decreases ps.len(),
{
    if ps.len() == 0 {
        (Seq::empty(), fixes)
    } else {
        let rest = fixed_pages(ps.drop_last(), t, fixes);
        let last = fixed_nodes(ps.last().nodes, t, rest.1);
        (rest.0.push(PageView { nodes: last.0, ..ps.last() }), last.1)
    }
}

/// The document after mending, and what was mended.
pub open spec fn fixed_document(
    d: DocumentView,
    s: SystemView,
) -> (DocumentView, Seq<FixView>) {
    let pages = fixed_pages(d.pages, tokens_of(s), Seq::empty());
    (DocumentView { pages: pages.0, ..d }, pages.1)
}

// ---------------------------------------------------------------------------
// Mending
// ---------------------------------------------------------------------------

fn add_detail(
    details: &mut Vec<FixDetail>,
    rule: LintRule,
    id: &str,
    action: &str,
    before: &str,
    after: &str,
)
    ensures
        fix_views(final(details)@) == fix_views(old(details)@).push(
            FixView { rule, node_id: id@, action: action@, before: before@, after: after@ },
        ),
{
    details.push(
        FixDetail {
            rule,
            node_id: id.to_owned(),
            action: action.to_owned(),
            before: before.to_owned(),
            after: after.to_owned(),
        },
    );
    proof {
        assert(fix_views(details@) =~= fix_views(old(details)@).push(
            FixView { rule, node_id: id@, action: action@, before: before@, after: after@ },
        ));
    }
}

fn put_token(
    node: &mut PenNode,
    key: &str,
    token: Option<String>,
    rule: LintRule,
    action: &str,
    before: &str,
    details: &mut Vec<FixDetail>,
)
    ensures
        (final(node)@, fix_views(final(details)@)) == stepped(
            (old(node)@, fix_views(old(details)@)),
            token_fix(old(node)@, key@, text::opt_text(token), rule, action@, before@),
        ),
        final(node).children == old(node).children,
{
    match token {
        Some(name) => {
            if !refers_to(node, key) {
                let ghost start = node@;
                add_detail(details, rule, node.id.as_str(), action, before, name.as_str());
                node.style.design_token_refs.push((key.to_owned(), name));
                proof {
                    assert(node@.style.refs =~= start.style.refs.push((key@, name@)));
                }
            }
        },
        None => {},
    }
}

fn mend_fill(node: &mut PenNode, styles: &Vec<(String, String)>, details: &mut Vec<FixDetail>, t:
    Ghost<Tokens>)
    requires
        t@.styles == canvas::pair_views(styles@),
    ensures
        (final(node)@, fix_views(final(details)@)) == stepped(
            (old(node)@, fix_views(old(details)@)),
            fill_fix(old(node)@, t@),
        ),
        final(node).children == old(node).children,
{
    match canvas::clone_opt_text(&node.style.fill) {
        Some(fill) => put_token(
            node,
            "fill",
            find_token(styles, fill.as_str()),
            LintRule::TokenInconsistency,
            "fill→token_ref",
            fill.as_str(),
            details,
        ),
        None => {},
    }
}

fn mend_stroke(
    node: &mut PenNode,
    styles: &Vec<(String, String)>,
    details: &mut Vec<FixDetail>,
    t: Ghost<Tokens>,
)
    requires
        t@.styles == canvas::pair_views(styles@),
    ensures
        (final(node)@, fix_views(final(details)@)) == stepped(
            (old(node)@, fix_views(old(details)@)),
            stroke_fix(old(node)@, t@),
        ),
        final(node).children == old(node).children,
{
    match canvas::clone_opt_text(&node.style.stroke) {
        Some(stroke) => put_token(
            node,
            "stroke",
            find_token(styles, stroke.as_str()),
            LintRule::TokenInconsistency,
            "stroke→token_ref",
            stroke.as_str(),
            details,
        ),
        None => {},
    }
}

fn mend_gap(node: &mut PenNode, numbers: &Vec<(String, String)>, details: &mut Vec<FixDetail>, t:
    Ghost<Tokens>)
    requires
        t@.numbers == canvas::pair_views(numbers@),
    ensures
        (final(node)@, fix_views(final(details)@)) == stepped(
            (old(node)@, fix_views(old(details)@)),
            gap_fix(old(node)@, t@),
        ),
        final(node).children == old(node).children,
{
    let layout = node.style.layout.clone();
    match &layout {
        LayoutMode::Flex(p) => {
            if !p.gap.is_zero() {
                put_token(
                    node,
                    "gap",
                    find_token(numbers, p.gap.text.as_str()),
                    LintRule::HardcodedSpacing,
                    "gap→token_ref",
                    p.gap.text.as_str(),
                    details,
                )
            }
        },
        LayoutMode::Grid(g) => {
            if !g.gap.0.is_zero() || !g.gap.1.is_zero() {
                let before = wrap("(", g.gap.0.text.as_str(), ", ").concat(
                    g.gap.1.text.as_str(),
                ).concat(")");
                put_token(
                    node,
                    "gap",
                    find_token(numbers, g.gap.0.text.as_str()),
                    LintRule::HardcodedSpacing,
                    "grid_gap→token_ref",
                    before.as_str(),
                    details,
                )
            }
        },
        LayoutMode::Free => {},
    }
}

fn mend_font_size(
    node: &mut PenNode,
    numbers: &Vec<(String, String)>,
    details: &mut Vec<FixDetail>,
    t: Ghost<Tokens>,
)
    requires
        t@.numbers == canvas::pair_views(numbers@),
    ensures
        (final(node)@, fix_views(final(details)@)) == stepped(
            (old(node)@, fix_views(old(details)@)),
            font_size_fix(old(node)@, t@),
        ),
        final(node).children == old(node).children,
{
    match canvas::clone_opt_num(&node.style.font_size) {
        Some(s) => {
            if s.is_positive() {
                put_token(
                    node,
                    "font_size",
                    find_token(numbers, s.text.as_str()),
                    LintRule::HardcodedFontSize,
                    "font_size→token_ref",
                    s.text.as_str(),
                    details,
                )
            }
        },
        None => {},
    }
}

fn mend_blanks(node: &mut PenNode, details: &mut Vec<FixDetail>)
    ensures
        ({
            let a = stepped(
                (old(node)@, fix_views(old(details)@)),
                blank_fill_fix(old(node)@),
            );
            (final(node)@, fix_views(final(details)@)) == stepped(a, blank_stroke_fix(a.0))
        }),
        final(node).children == old(node).children,
{
    if blank(&node.style.fill) {
        let before = or_empty(&node.style.fill);
        add_detail(
            details,
            LintRule::EmptyEffects,
            node.id.as_str(),
            "remove_empty_fill",
            before.as_str(),
            "None",
        );
        node.style.fill = None;
    }
    if blank(&node.style.stroke) {
        let before = or_empty(&node.style.stroke);
        add_detail(
            details,
            LintRule::EmptyEffects,
            node.id.as_str(),
            "remove_empty_stroke",
            before.as_str(),
            "None",
        );
        node.style.stroke = None;
    }
}

fn mend_name(node: &mut PenNode, details: &mut Vec<FixDetail>)
    ensures
        (final(node)@, fix_views(final(details)@)) == stepped(
            (old(node)@, fix_views(old(details)@)),
            name_fix(old(node)@),
        ),
        final(node).children == old(node).children,
{
    if default_name(node.name.as_str()) {
        let kind = match node.kind {
            NodeKind::Rect => "rect",
            NodeKind::Circle => "circle",
            NodeKind::Text => "text",
            NodeKind::Image => "image",
            NodeKind::Group => "group",
        };
        let cs = chars_of(node.id.as_str());
        let n: usize = if cs.len() < 8 {
            cs.len()
        } else {
            8
        };
        proof {
            assert(cs@.subrange(0, n as int) =~= node@.id.take(n as int));
        }
        let new_name = wrap(kind, "_", slice(&cs, 0, n).as_str());
        add_detail(
            details,
            LintRule::UnnamedNode,
            node.id.as_str(),
            "auto_name",
            node.name.as_str(),
            new_name.as_str(),
        );
        node.name = new_name;
    }
}

fn apply_tokens_to_node(
    node: &mut PenNode,
    styles: &Vec<(String, String)>,
    numbers: &Vec<(String, String)>,
    details: &mut Vec<FixDetail>,
    t: Ghost<Tokens>,
)
    requires
        t@.styles == canvas::pair_views(styles@),
        t@.numbers == canvas::pair_views(numbers@),
    ensures
        (final(node)@, fix_views(final(details)@)) == fixed_node(
            old(node)@,
            t@,
            fix_views(old(details)@),
        ),
    decreases *old(node),
{
    mend_fill(node, styles, details, t);
    mend_stroke(node, styles, details, t);
    mend_gap(node, numbers, details, t);
    mend_font_size(node, numbers, details, t);
    mend_blanks(node, details);
    mend_name(node, details);
    let ghost own = node@;
    let ghost start = fix_views(details@);
    let ghost before = old(node)@.children;
    let mut i: usize = 0;
    proof {
        assert(own.children == before);
        assert(own.children.take(0) =~= fixed_nodes(before.take(0), t@, start).0);
    }
    while i < node.children.len()
        invariant
            i <= node.children@.len(),
            t@.styles == canvas::pair_views(styles@),
            t@.numbers == canvas::pair_views(numbers@),
            node.children@.len() == old(node).children@.len(),
            before == old(node)@.children,
            forall|k: int|
                i <= k < node.children@.len() ==> node.children@[k] == old(node).children@[k],
            node@ == (NodeView { children: node@.children, ..own }),
            node@.children.take(i as int) == fixed_nodes(before.take(i as int), t@, start).0,
            fix_views(details@) == fixed_nodes(before.take(i as int), t@, start).1,
        decreases node.children.len() - i,
    {
        let ghost seen = node@.children;
        apply_tokens_to_node(&mut node.children[i], styles, numbers, details, t);
        proof {
            text::lemma_take_step(before, i as int);
            let now = node@.children;
            assert(now.take(i + 1) =~= seen.take(i as int).push(now[i as int]));
        }
        i = i + 1;
    }
    proof {
        text::lemma_take_all(before);
        text::lemma_take_all(node@.children);
    }
}

fn mend_nodes(
    nodes: &mut Vec<PenNode>,
    styles: &Vec<(String, String)>,
    numbers: &Vec<(String, String)>,
    details: &mut Vec<FixDetail>,
    t: Ghost<Tokens>,
)
    requires
        t@.styles == canvas::pair_views(styles@),
        t@.numbers == canvas::pair_views(numbers@),
    ensures
        (canvas::node_views(final(nodes)@), fix_views(final(details)@)) == fixed_nodes(
            canvas::node_views(old(nodes)@),
            t@,
            fix_views(old(details)@),
        ),
{
    let ghost before = canvas::node_views(nodes@);
    let ghost start = fix_views(details@);
    let mut i: usize = 0;
    proof {
        assert(before.take(0) =~= fixed_nodes(before.take(0), t@, start).0);
    }
    while i < nodes.len()
        invariant
            i <= nodes@.len(),
            t@.styles == canvas::pair_views(styles@),
            t@.numbers == canvas::pair_views(numbers@),
            nodes@.len() == before.len(),
            before == canvas::node_views(old(nodes)@),
            forall|k: int| i <= k < nodes@.len() ==> nodes@[k] == old(nodes)@[k],
            canvas::node_views(nodes@).take(i as int) == fixed_nodes(
                before.take(i as int),
                t@,
                start,
            ).0,
            fix_views(details@) == fixed_nodes(before.take(i as int), t@, start).1,
        decreases nodes.len() - i,
    {
        let ghost seen = canvas::node_views(nodes@);
        apply_tokens_to_node(&mut nodes[i], styles, numbers, details, t);
        proof {
            text::lemma_take_step(before, i as int);
            let now = canvas::node_views(nodes@);
            assert(now.take(i + 1) =~= seen.take(i as int).push(now[i as int]));
        }
        i = i + 1;
    }
    proof {
        text::lemma_take_all(before);
        text::lemma_take_all(canvas::node_views(nodes@));
    }
}

/// Mends the nodes and all that is inside them, and adds what was done to the result.
pub fn apply_tokens_to_nodes(
    nodes: &mut Vec<PenNode>,
    token_map: &Vec<(String, String)>,
    numeric_map: &Vec<(String, String)>,
    result: &mut FixResult,
)
    requires
        old(result).wf(),
    ensures
        final(result).wf(),
        final(result).fixes_skipped == old(result).fixes_skipped,
        (canvas::node_views(final(nodes)@), fix_views(final(result).details@)) == fixed_nodes(
            canvas::node_views(old(nodes)@),
            tokens_in(token_map@, numeric_map@),
            fix_views(old(result).details@),
        ),
{
    let ghost t = tokens_in(token_map@, numeric_map@);
    mend_nodes(nodes, token_map, numeric_map, &mut result.details, Ghost(t));
    result.fixes_applied = result.details.len();
}

/// Mends a document after a design system.
pub fn apply_tokens_to_document(doc: &mut PenDocument, system: &DesignSystem) -> (r: FixResult)
    ensures
        (final(doc)@, fix_views(r.details@)) == fixed_document(old(doc)@, system@),
        r.fixes_applied == r.details@.len(),
        r.fixes_skipped == 0,
{
    let styles = build_token_map(system);
    let numbers = build_numeric_token_map(system);
    let ghost t = tokens_of(system@);
    let ghost before = doc@.pages;
    let mut result = FixResult { fixes_applied: 0, fixes_skipped: 0, details: Vec::new() };
    let mut i: usize = 0;
    proof {
        assert(fix_views(result.details@) =~= Seq::empty());
        assert(before.take(0) =~= fixed_pages(before.take(0), t, Seq::empty()).0);
    }
    while i < doc.pages.len()
        invariant
            i <= doc.pages@.len(),
            t == tokens_in(styles@, numbers@),
            result.wf(),
            result.fixes_skipped == 0,
            before == old(doc)@.pages,
            doc.pages@.len() == before.len(),
            doc@ == (DocumentView { pages: doc@.pages, ..old(doc)@ }),
            forall|k: int| i <= k < doc.pages@.len() ==> doc.pages@[k] == old(doc).pages@[k],
            doc@.pages.take(i as int) == fixed_pages(before.take(i as int), t, Seq::empty()).0,
            fix_views(result.details@) == fixed_pages(before.take(i as int), t, Seq::empty()).1,
        decreases doc.pages.len() - i,
    {
        let ghost seen = doc@.pages;
        apply_tokens_to_nodes(&mut doc.pages[i].nodes, &styles, &numbers, &mut result);
        proof {
            text::lemma_take_step(before, i as int);
            let now = doc@.pages;
            assert(now.take(i + 1) =~= seen.take(i as int).push(now[i as int]));
            assert(before[i as int] == old(doc).pages@[i as int]@);
        }
        i = i + 1;
    }
    proof {
        text::lemma_take_all(before);
        text::lemma_take_all(doc@.pages);
    }
    result
}

impl Linter {
    /// Mends a document after the linter's design system; without one the document stays as it is
    /// and the step counts as skipped.
    pub fn auto_fix(&self, doc: &mut PenDocument) -> (r: FixResult)
        ensures
            match self@.system {
                Some(s) => (final(doc)@, fix_views(r.details@)) == fixed_document(old(doc)@, s)
                    && r.fixes_skipped == 0,
                None => final(doc)@ == old(doc)@ && r.details@.len() == 0 && r.fixes_skipped == 1,
            },
            r.fixes_applied == r.details@.len(),
    {
        match &self.design_system {
            Some(system) => apply_tokens_to_document(doc, system),
            None => FixResult { fixes_applied: 0, fixes_skipped: 1, details: Vec::new() },
        }
    }
}

// ---------------------------------------------------------------------------
// Laws
// ---------------------------------------------------------------------------

/// The references that were there stay, each at its place.
spec fn refs_kept(a: NodeView, b: NodeView) -> bool {
    a.style.refs.is_prefix_of(b.style.refs)
}

proof fn lemma_ref_stays(a: NodeView, b: NodeView, key: Seq<char>)
    requires
        refs_kept(a, b),
        detectors::has_ref(a, key),
    ensures
        detectors::has_ref(b, key),
{
    let i = choose|i: int| 0 <= i < a.style.refs.len() && (#[trigger] a.style.refs[i]).0 == key;
    assert(b.style.refs[i] == a.style.refs[i]);
}

/// A step leaves all but names, blank colours and references as it was.
spec fn like(a: NodeView, b: NodeView) -> bool {
    &&& refs_kept(a, b)
    &&& b.id == a.id
    &&& b.kind == a.kind
    &&& b.children == a.children
    &&& b.style.layout == a.style.layout
    &&& b.style.font_size == a.style.font_size
    &&& b.style.fill == a.style.fill || b.style.fill is None
    &&& b.style.stroke == a.style.stroke || b.style.stroke is None
}

proof fn lemma_token_step(
    n: NodeView,
    fixes: Seq<FixView>,
    key: Seq<char>,
    token: Option<Seq<char>>,
    rule: LintRule,
    action: Seq<char>,
    before: Seq<char>,
)
    ensures
        ({
            let r = stepped((n, fixes), token_fix(n, key, token, rule, action, before));
            &&& like(n, r.0)
            &&& r.0.name == n.name
            &&& r.0.style.fill == n.style.fill
            &&& r.0.style.stroke == n.style.stroke
            &&& token is Some ==> detectors::has_ref(r.0, key)
        }),
{
    let r = stepped((n, fixes), token_fix(n, key, token, rule, action, before));
    if token_fix(n, key, token, rule, action, before) is Some {
        assert(r.0.style.refs[n.style.refs.len() as int].0 == key);
    }
    assert(n.style.refs =~= r.0.style.refs.subrange(0, n.style.refs.len() as int));
}

proof fn lemma_like_transitive(a: NodeView, b: NodeView, c: NodeView)
    requires
        like(a, b),
        like(b, c),
    ensures
        like(a, c),
{
    assert(a.style.refs =~= c.style.refs.subrange(0, a.style.refs.len() as int)) by {
        assert forall|i: int| 0 <= i < a.style.refs.len() implies a.style.refs[i]
            == c.style.refs[i] by {
            assert(a.style.refs[i] == b.style.refs.subrange(0, a.style.refs.len() as int)[i]);
            assert(b.style.refs[i] == c.style.refs.subrange(0, b.style.refs.len() as int)[i]);
        }
    }
}

/// The name that a node gets is no default name.
proof fn lemma_auto_name(n: NodeView)
    ensures
        !detectors::is_default_name(auto_name(n)),
{
    reveal_strlit("rect");
    reveal_strlit("circle");
    reveal_strlit("text");
    reveal_strlit("image");
    reveal_strlit("group");
    reveal_strlit("Rect");
    reveal_strlit("Text");
    reveal_strlit("Circle");
    reveal_strlit("Image");
    reveal_strlit("Group");
    let name = auto_name(n);
    assert(name[0] == kind_name(n.kind)[0]);
    assert(name[0] == 'r' || name[0] == 'c' || name[0] == 't' || name[0] == 'i' || name[0] == 'g');
    assert("Rect"@[0] == 'R');
    assert("Text"@[0] == 'T');
    assert("Circle"@[0] == 'C');
    assert("Image"@[0] == 'I');
    assert("Group"@[0] == 'G');
}

/// What holds of a node after its steps.
proof fn lemma_own_fixes(n: NodeView, t: Tokens, fixes: Seq<FixView>)
    ensures
        ({
            let m = own_fixes(n, t, fixes).0;
            &&& like(n, m)
            &&& fill_fix(m, t) is None
            &&& stroke_fix(m, t) is None
            &&& gap_fix(m, t) is None
            &&& font_size_fix(m, t) is None
            &&& blank_fill_fix(m) is None
            &&& blank_stroke_fix(m) is None
            &&& name_fix(m) is None
        }),
{
    let a = stepped((n, fixes), fill_fix(n, t));
    let b = stepped(a, stroke_fix(a.0, t));
    let c = stepped(b, gap_fix(b.0, t));
    let d = stepped(c, font_size_fix(c.0, t));
    let e = stepped(d, blank_fill_fix(d.0));
    let f = stepped(e, blank_stroke_fix(e.0));
    let m = stepped(f, name_fix(f.0)).0;
    assert(like(n, a.0) && a.0.style.fill == n.style.fill && a.0.style.stroke == n.style.stroke
        && (n.style.fill is Some && lint::token_for(t.styles, n.style.fill->0) is Some
        ==> detectors::has_ref(a.0, "fill"@))) by {
        match n.style.fill {
            Some(fill) => lemma_token_step(
                n,
                fixes,
                "fill"@,
                lint::token_for(t.styles, fill),
                LintRule::TokenInconsistency,
                "fill→token_ref"@,
                fill,
            ),
            None => {
                assert(n.style.refs =~= n.style.refs.subrange(0, n.style.refs.len() as int));
            },
        }
    }
    assert(like(a.0, b.0) && b.0.style.fill == n.style.fill && b.0.style.stroke == n.style.stroke
        && (n.style.stroke is Some && lint::token_for(t.styles, n.style.stroke->0) is Some
        ==> detectors::has_ref(b.0, "stroke"@))) by {
        match a.0.style.stroke {
            Some(stroke) => lemma_token_step(
                a.0,
                a.1,
                "stroke"@,
                lint::token_for(t.styles, stroke),
                LintRule::TokenInconsistency,
                "stroke→token_ref"@,
                stroke,
            ),
            None => {
                assert(a.0.style.refs =~= a.0.style.refs.subrange(0, a.0.style.refs.len() as int));
            },
        }
    }
    assert(like(b.0, c.0) && c.0.style.fill == n.style.fill && c.0.style.stroke == n.style.stroke
        && (gap_fix(c.0, t) is None)) by {
        assert(b.0.style.refs =~= b.0.style.refs.subrange(0, b.0.style.refs.len() as int));
        match b.0.style.layout {
            LayoutView::Flex(p) => {
                lemma_token_step(
                    b.0,
                    b.1,
                    "gap"@,
                    lint::token_for(t.numbers, p.gap.text),
                    LintRule::HardcodedSpacing,
                    "gap→token_ref"@,
                    p.gap.text,
                );
            },
            LayoutView::Grid(g) => {
                lemma_token_step(
                    b.0,
                    b.1,
                    "gap"@,
                    lint::token_for(t.numbers, g.column_gap.text),
                    LintRule::HardcodedSpacing,
                    "grid_gap→token_ref"@,
                    "("@ + g.column_gap.text + ", "@ + g.row_gap.text + ")"@,
                );
            },
            LayoutView::Free => {},
        }
    }
    assert(like(c.0, d.0) && d.0.style.fill == n.style.fill && d.0.style.stroke == n.style.stroke
        && (font_size_fix(d.0, t) is None)) by {
        assert(c.0.style.refs =~= c.0.style.refs.subrange(0, c.0.style.refs.len() as int));
        match c.0.style.font_size {
            Some(s) => lemma_token_step(
                c.0,
                c.1,
                "font_size"@,
                lint::token_for(t.numbers, s.text),
                LintRule::HardcodedFontSize,
                "font_size→token_ref"@,
                s.text,
            ),
            None => {},
        }
    }
    assert(d.0.style.refs =~= d.0.style.refs.subrange(0, d.0.style.refs.len() as int));
    assert(like(d.0, m));
    lemma_auto_name(f.0);
    lemma_like_transitive(n, a.0, b.0);
    lemma_like_transitive(n, b.0, c.0);
    lemma_like_transitive(n, c.0, d.0);
    lemma_like_transitive(n, d.0, m);
    lemma_like_transitive(c.0, d.0, m);
    lemma_like_transitive(b.0, c.0, m);
    lemma_like_transitive(a.0, b.0, m);
    if detectors::has_ref(a.0, "fill"@) {
        lemma_ref_stays(a.0, m, "fill"@);
    }
    if detectors::has_ref(b.0, "stroke"@) {
        lemma_ref_stays(b.0, m, "stroke"@);
    }
    if detectors::has_ref(c.0, "gap"@) {
        lemma_ref_stays(c.0, m, "gap"@);
    }
    if detectors::has_ref(d.0, "font_size"@) {
        lemma_ref_stays(d.0, m, "font_size"@);
    }
}

/// Mending a node leaves the token references that it had: each stays at its place.
pub proof fn law_references_are_kept(n: NodeView, t: Tokens, fixes: Seq<FixView>)
    ensures
        n.style.refs.is_prefix_of(fixed_node(n, t, fixes).0.style.refs),
{
    lemma_own_fixes(n, t, fixes);
}

/// Mending nodes that were mended with the same tokens leaves the nodes and what was told of them as
/// they are.
pub proof fn law_mended_nodes_stay(ns: Seq<NodeView>, t: Tokens, fixes: Seq<FixView>)
    ensures
        ({
            let once = fixed_nodes(ns, t, fixes);
            fixed_nodes(once.0, t, once.1) == once
        }),
{
    lemma_nodes_fixed(ns, t, fixes, fixed_nodes(ns, t, fixes).1);
}

/// Mending what was mended changes nothing and reports nothing.
pub proof fn law_fixing_twice_is_fixing_once(d: DocumentView, s: SystemView)
    ensures
        fixed_document(fixed_document(d, s).0, s) == (
            fixed_document(d, s).0,
            Seq::<FixView>::empty(),
        ),
{
    lemma_pages_fixed(d.pages, tokens_of(s), Seq::empty(), Seq::empty());
}

/// A mended node bears no default name and has no blank fill or stroke, and nothing is reported of
/// a font size or of a gap for which the design system has a token.
pub proof fn law_mended_node_is_clean(n: NodeView, t: Tokens, fixes: Seq<FixView>)
    ensures
        ({
            let m = fixed_node(n, t, fixes).0;
            &&& detectors::unnamed_node(m).len() == 0
            &&& !detectors::is_blank(m.style.fill)
            &&& !detectors::is_blank(m.style.stroke)
            &&& (m.style.font_size matches Some(size) && lint::token_for(t.numbers, size.text)
                is Some) ==> detectors::hardcoded_font_size(m).len() == 0
            &&& (m.style.layout matches LayoutView::Grid(g) && lint::token_for(
                t.numbers,
                g.column_gap.text,
            ) is Some) ==> detectors::hardcoded_spacing(m).len() == 0
        }),
{
    lemma_own_fixes(n, t, fixes);
    let own = own_fixes(n, t, fixes).0;
    let m = fixed_node(n, t, fixes).0;
    assert forall|key: Seq<char>| #[trigger] detectors::has_ref(m, key) == detectors::has_ref(
        own,
        key,
    ) by {}
    assert(font_size_fix(m, t) is None);
    assert(gap_fix(m, t) is None);
}

/// Checking a mended document finds no default names.
pub proof fn law_mended_document_has_no_default_names(d: DocumentView, s: SystemView)
    ensures
        lint::page_findings(names_only(), fixed_document(d, s).0.pages).len() == 0,
{
    lemma_pages_named(d.pages, tokens_of(s), Seq::empty());
}

/// The check for default names alone.
pub open spec fn names_only() -> LinterView {
    LinterView { rules: seq![LintRule::UnnamedNode], system: None }
}

proof fn lemma_names_only(n: NodeView, around: Option<Seq<char>>, ns: Seq<NodeView>)
    ensures
        lint::node_findings(names_only(), names_only().rules, n, around)
            == detectors::unnamed_node(n),
        lint::sibling_findings(names_only(), ns).len() == 0,
{
    let rules = names_only().rules;
    reveal_with_fuel(lint::node_findings, 2);
    assert(rules.drop_last() =~= Seq::empty());
    assert(rules.last() == LintRule::UnnamedNode);
    assert(Seq::<lint::ViolationView>::empty() + detectors::unnamed_node(n)
        =~= detectors::unnamed_node(n));
    assert(!rules.contains(LintRule::OverlappingNodes));
    assert(!rules.contains(LintRule::LayoutInconsistency));
}

proof fn lemma_node_named(n: NodeView, t: Tokens, fixes: Seq<FixView>, around: Option<Seq<char>>)
    ensures
        lint::tree_findings(names_only(), fixed_node(n, t, fixes).0, around).len() == 0,
    decreases n,
{
    let m = fixed_node(n, t, fixes).0;
    law_mended_node_is_clean(n, t, fixes);
    lemma_names_only(m, around, m.children);
    lemma_nodes_named(n.children, t, own_fixes(n, t, fixes).1, m.style.fill);
}

proof fn lemma_nodes_named(
    ns: Seq<NodeView>,
    t: Tokens,
    fixes: Seq<FixView>,
    around: Option<Seq<char>>,
)
    ensures
        lint::list_findings(names_only(), fixed_nodes(ns, t, fixes).0, around).len() == 0,
    decreases ns,
{
    if ns.len() > 0 {
        let rest = fixed_nodes(ns.drop_last(), t, fixes);
        lemma_nodes_named(ns.drop_last(), t, fixes, around);
        lemma_node_named(ns.last(), t, rest.1, around);
        assert(fixed_nodes(ns, t, fixes).0.drop_last() =~= rest.0);
    }
}

proof fn lemma_pages_named(ps: Seq<PageView>, t: Tokens, fixes: Seq<FixView>)
    ensures
        lint::page_findings(names_only(), fixed_pages(ps, t, fixes).0).len() == 0,
    decreases ps.len(),
{
    if ps.len() > 0 {
        let rest = fixed_pages(ps.drop_last(), t, fixes);
        let last = fixed_nodes(ps.last().nodes, t, rest.1).0;
        lemma_pages_named(ps.drop_last(), t, fixes);
        lemma_nodes_named(ps.last().nodes, t, rest.1, None);
        lemma_names_only(ps.last().nodes[0], None, last);
        assert(fixed_pages(ps, t, fixes).0.drop_last() =~= rest.0);
    }
}

proof fn lemma_node_fixed(n: NodeView, t: Tokens, fixes: Seq<FixView>, other: Seq<FixView>)
    ensures
        fixed_node(fixed_node(n, t, fixes).0, t, other) == (fixed_node(n, t, fixes).0, other),
    decreases n,
{
    let own = own_fixes(n, t, fixes);
    lemma_own_fixes(n, t, fixes);
    lemma_nodes_fixed(n.children, t, own.1, other);
    let m = fixed_node(n, t, fixes).0;
    // the steps look at nothing inside the node
    assert(own_fixes(m, t, other) == (m, other)) by {
        assert(m.style == own.0.style && m.name == own.0.name && m.id == own.0.id);
        assert forall|key: Seq<char>| #[trigger] detectors::has_ref(m, key)
            == detectors::has_ref(own.0, key) by {}
        assert(fill_fix(m, t) is None);
        assert(stroke_fix(m, t) is None);
        assert(gap_fix(m, t) is None);
        assert(font_size_fix(m, t) is None);
        assert(blank_fill_fix(m) is None);
        assert(blank_stroke_fix(m) is None);
        assert(name_fix(m) is None);
    }
}

proof fn lemma_nodes_fixed(
    ns: Seq<NodeView>,
    t: Tokens,
    fixes: Seq<FixView>,
    other: Seq<FixView>,
)
    ensures
        fixed_nodes(fixed_nodes(ns, t, fixes).0, t, other) == (
            fixed_nodes(ns, t, fixes).0,
            other,
        ),
    decreases ns,
{
    if ns.len() > 0 {
        let rest = fixed_nodes(ns.drop_last(), t, fixes);
        lemma_nodes_fixed(ns.drop_last(), t, fixes, other);
        lemma_node_fixed(ns.last(), t, rest.1, other);
        assert(fixed_nodes(ns, t, fixes).0.drop_last() =~= rest.0);
    }
}

proof fn lemma_pages_fixed(
    ps: Seq<PageView>,
    t: Tokens,
    fixes: Seq<FixView>,
    other: Seq<FixView>,
)
    ensures
        fixed_pages(fixed_pages(ps, t, fixes).0, t, other) == (
            fixed_pages(ps, t, fixes).0,
            other,
        ),
    decreases ps.len(),
{
    if ps.len() > 0 {
        let rest = fixed_pages(ps.drop_last(), t, fixes);
        lemma_pages_fixed(ps.drop_last(), t, fixes, other);
        lemma_nodes_fixed(ps.last().nodes, t, rest.1, other);
        assert(fixed_pages(ps, t, fixes).0.drop_last() =~= rest.0);
    }
}

} // verus!
