//! References to tokens, replaced by the colours that they stand for.

use vstd::prelude::*;

use crate::canvas;
use crate::canvas::{DocumentView, NodeView, PageView, PenDocument, PenNode, StyleView};
use crate::design_system;
use crate::design_system::{DesignSystemRegistry, SystemView};
use crate::export::util;
use crate::export::util::resolve_color_var;
use crate::text;
use crate::text::{starts_with, trim};

verus! {

/// The colour is written as a reference to a token.
pub open spec fn refers(color: Option<Seq<char>>) -> bool {
    color matches Some(c) && "token:"@.is_prefix_of(text::trimmed(c))
}

/// The colour that a reference stands for in the system; another colour, and a reference that the
/// system does not know, stays.
pub open spec fn resolved_color(system: Option<SystemView>, color: Option<Seq<char>>) -> Option<
    Seq<char>,
> {
    if refers(color) {
        util::resolved_opt(system, color)
    } else {
        color
    }
}

/// The node with the references in its fill and stroke resolved, and in those of all nodes inside
/// it.
pub open spec fn resolved_node(system: Option<SystemView>, n: NodeView) -> NodeView
    decreases n,
{
    NodeView {
        style: StyleView {
            fill: resolved_color(system, n.style.fill),
            stroke: resolved_color(system, n.style.stroke),
            ..n.style
        },
        children: resolved_nodes(system, n.children),
        ..n
    }
}

/// The nodes, each resolved.
pub open spec fn resolved_nodes(system: Option<SystemView>, ns: Seq<NodeView>) -> Seq<NodeView>
    decreases ns,
{
    if ns.len() == 0 {
        Seq::empty()
    } else {
        resolved_nodes(system, ns.drop_last()).push(resolved_node(system, ns.last()))
    }
}

/// The document with all its nodes resolved.
pub open spec fn resolved_document(system: Option<SystemView>, d: DocumentView) -> DocumentView {
    DocumentView {
        pages: d.pages.map_values(
            |p: PageView| PageView { nodes: resolved_nodes(system, p.nodes), ..p },
        ),
        ..d
    }
}

fn resolve_color(color: &Option<String>, reg: &DesignSystemRegistry) -> (r: Option<String>)
    ensures
        text::opt_text(r) == resolved_color(
            design_system::active_system(reg@),
            text::opt_text(*color),
        ),
{
    match color {
        Some(c) => if starts_with(trim(c.as_str()).as_str(), "token:") {
            resolve_color_var(color, reg)
        } else {
            Some(c.clone())
        },
        None => None,
    }
}

fn resolve_nodes(nodes: &mut Vec<PenNode>, reg: &DesignSystemRegistry)
    ensures
        canvas::node_views(final(nodes)@) == resolved_nodes(
            design_system::active_system(reg@),
            canvas::node_views(old(nodes)@),
        ),
    decreases old(nodes)@,
{
    let ghost system = design_system::active_system(reg@);
    let ghost start = nodes@;
    let ghost views = canvas::node_views(nodes@);
    let mut i: usize = 0;
    while i < nodes.len()
        invariant
            i <= nodes@.len(),
            system == design_system::active_system(reg@),
            start == old(nodes)@,
            views == canvas::node_views(start),
            nodes@.len() == start.len(),
            forall|k: int| i <= k < nodes@.len() ==> nodes@[k] == start[k],
            canvas::node_views(nodes@).take(i as int) == resolved_nodes(
                system,
                views.take(i as int),
            ),
        decreases nodes.len() - i,
    {
        let ghost seen = canvas::node_views(nodes@);
        let fill = resolve_color(&nodes[i].style.fill, reg);
        let stroke = resolve_color(&nodes[i].style.stroke, reg);
        nodes[i].style.fill = fill;
        nodes[i].style.stroke = stroke;
        resolve_nodes(&mut nodes[i].children, reg);
        proof {
            text::lemma_take_step(views, i as int);
            let now = canvas::node_views(nodes@);
            assert(now[i as int] =~= resolved_node(system, views[i as int]));
            assert(now.take(i + 1) =~= seen.take(i as int).push(now[i as int]));
        }
        i = i + 1;
    }
    proof {
        text::lemma_take_all(views);
        text::lemma_take_all(canvas::node_views(nodes@));
    }
}

/// The document with each reference to a token of the system in use, at any depth, replaced by the
/// colour that it stands for.
pub fn resolve_tokens(doc: &PenDocument, reg: &DesignSystemRegistry) -> (r: PenDocument)
    ensures
        r@ == resolved_document(design_system::active_system(reg@), doc@),
{
    let ghost system = design_system::active_system(reg@);
    let mut out = doc.clone();
    let ghost start = out.pages@;
    let ghost goal = resolved_document(system, doc@).pages;
    let mut i: usize = 0;
    while i < out.pages.len()
        invariant
            i <= out.pages@.len(),
            system == design_system::active_system(reg@),
            canvas::page_views(start) == doc@.pages,
            goal == resolved_document(system, doc@).pages,
            out.pages@.len() == start.len(),
            out@ == (DocumentView { pages: out@.pages, ..doc@ }),
            forall|k: int| i <= k < out.pages@.len() ==> out.pages@[k] == start[k],
            forall|k: int| 0 <= k < i ==> out@.pages[k] == #[trigger] goal[k],
        decreases out.pages.len() - i,
    {
        let ghost seen = out@.pages;
        resolve_nodes(&mut out.pages[i].nodes, reg);
        proof {
            assert(canvas::page_views(start)[i as int] == start[i as int]@);
            assert(out@.pages[i as int] =~= goal[i as int]);
            assert forall|k: int| 0 <= k < i + 1 implies out@.pages[k] == #[trigger] goal[k] by {
                if k < i {
                    assert(out@.pages[k] == seen[k]);
                }
            }
        }
        i = i + 1;
    }
    proof {
        assert(out@.pages =~= goal);
    }
    out
}

// ---------------------------------------------------------------------------
// Laws
// ---------------------------------------------------------------------------

/// A reference that the system knows is replaced by what it stands for.
pub proof fn law_known_reference_is_replaced(system: Option<SystemView>, name: Seq<char>)
    requires
        text::trimmed("token:"@ + name) == "token:"@ + name,
        text::trimmed(name) == name,
        util::token_color(system, name) is Some,
    ensures
        resolved_color(system, Some("token:"@ + name)) == util::token_color(system, name),
{
    let v = "token:"@ + name;
    reveal_strlit("token:");
    reveal_strlit("var(--");
    assert("token:"@ =~= v.subrange(0, "token:"@.len() as int));
    assert(v.skip("token:"@.len() as int) =~= name);
    assert(v[0] == 't');
    if "var(--"@.is_prefix_of(v) {
        assert(v.subrange(0, 6)[0] == v[0]);
    }
}

/// No colour of the nodes, at any depth, is a reference.
pub open spec fn free_of_references(ns: Seq<NodeView>) -> bool
    decreases ns,
{
    forall|i: int|
        0 <= i < ns.len() ==> !refers((#[trigger] ns[i]).style.fill) && !refers(
            ns[i].style.stroke,
        ) && free_of_references(ns[i].children)
}

/// Nodes without references stay as they are.
pub proof fn law_plain_nodes_are_kept(system: Option<SystemView>, ns: Seq<NodeView>)
    requires
        free_of_references(ns),
    ensures
        resolved_nodes(system, ns) == ns,
    decreases ns,
{
    if ns.len() > 0 {
        let init = ns.drop_last();
        let last = ns[ns.len() - 1];
        assert forall|i: int| 0 <= i < init.len() implies !refers(
            (#[trigger] init[i]).style.fill,
        ) && !refers(init[i].style.stroke) && free_of_references(init[i].children) by {
            assert(init[i] == ns[i]);
        }
        law_plain_nodes_are_kept(system, init);
        law_plain_nodes_are_kept(system, last.children);
        assert(resolved_node(system, last) =~= last);
        assert(init.push(last) =~= ns);
    }
}

/// Resolving adds no node and loses none, at any depth.
pub proof fn law_no_node_is_lost(system: Option<SystemView>, ns: Seq<NodeView>)
    ensures
        resolved_nodes(system, ns).len() == ns.len(),
        canvas::node_count(resolved_nodes(system, ns)) == canvas::node_count(ns),
        canvas::levels(resolved_nodes(system, ns)) == canvas::levels(ns),
    decreases ns,
{
    if ns.len() > 0 {
        law_no_node_is_lost(system, ns.drop_last());
        law_no_node_is_lost(system, ns.last().children);
        let all = resolved_nodes(system, ns);
        assert(all.drop_last() =~= resolved_nodes(system, ns.drop_last()));
        assert(all.last() == resolved_node(system, ns.last()));
        assert(all.last().children == resolved_nodes(system, ns.last().children));
    }
}

/// Only the colors of a node are resolved, each for itself: everything else of it stays, and the nodes
/// inside it are resolved in the same way.
pub proof fn law_only_colors_are_resolved(system: Option<SystemView>, n: NodeView, i: int)
    ensures
        ({
            let r = resolved_node(system, n);
            &&& r.style.fill == resolved_color(system, n.style.fill)
            &&& r.style.stroke == resolved_color(system, n.style.stroke)
            &&& n == (NodeView {
                style: StyleView { fill: n.style.fill, stroke: n.style.stroke, ..r.style },
                children: n.children,
                ..r
            })
            &&& r.children.len() == n.children.len()
            &&& 0 <= i < n.children.len() ==> r.children[i] == resolved_node(system, n.children[i])
        }),
{
    lemma_resolved_at(system, n.children, i);
}

proof fn lemma_resolved_at(system: Option<SystemView>, ns: Seq<NodeView>, i: int)
    ensures
        resolved_nodes(system, ns).len() == ns.len(),
        0 <= i < ns.len() ==> resolved_nodes(system, ns)[i] == resolved_node(system, ns[i]),
    decreases ns.len(),
{
    if ns.len() > 0 {
        lemma_resolved_at(system, ns.drop_last(), i);
    }
}

/// A document keeps its pages in their order, each with its id, name and size, and its nodes
/// resolved.
pub proof fn law_pages_are_resolved(system: Option<SystemView>, d: DocumentView, i: int)
    requires
        0 <= i < d.pages.len(),
    ensures
        ({
            let r = resolved_document(system, d);
            &&& r.pages.len() == d.pages.len()
            &&& r.pages[i].nodes == resolved_nodes(system, d.pages[i].nodes)
            &&& d.pages[i] == (PageView { nodes: d.pages[i].nodes, ..r.pages[i] })
            &&& d == (DocumentView { pages: d.pages, ..r })
        }),
{
}

/// Only what is written as a reference is replaced, by what it stands for.
pub proof fn law_only_references_are_replaced(system: Option<SystemView>, c: Seq<char>)
    ensures
        !"token:"@.is_prefix_of(text::trimmed(c)) ==> resolved_color(system, Some(c)) == Some(c),
        "token:"@.is_prefix_of(text::trimmed(c)) ==> resolved_color(system, Some(c)) == Some(
            util::resolved_color(system, c),
        ),
        resolved_color(system, None) is None,
{
}

} // verus!
