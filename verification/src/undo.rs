//! Undo and redo by the differences between two states of a document.

use vstd::prelude::*;
use vstd::string::*;

use crate::canvas;
use crate::canvas::{
    eq_node, DocumentView, NodeView, Page, PageView, PenDocument, PenNode,
};
use crate::text;
use crate::text::same;

verus! {

/// One node before and after a change.
#[derive(Debug)]
pub struct NodeChange {
    pub node_id: String,
    pub old: PenNode,
    pub new: PenNode,
}

/// What a `NodeChange` holds.
#[verifier::ext_equal]
pub struct ChangeView {
    pub node_id: Seq<char>,
    pub old: NodeView,
    pub new: NodeView,
}

impl NodeChange {
    pub open spec fn view(&self) -> ChangeView {
        ChangeView { node_id: self.node_id@, old: self.old@, new: self.new@ }
    }
}

/// The nodes without those that bear `id`, at any depth.
pub open spec fn without_id(ns: Seq<NodeView>, id: Seq<char>) -> Seq<NodeView>
    decreases ns,
{
    if ns.len() == 0 {
        Seq::empty()
    } else {
        let rest = without_id(ns.drop_last(), id);
        if ns.last().id == id {
            rest
        } else {
            rest.push(NodeView { children: without_id(ns.last().children, id), ..ns.last() })
        }
    }
}

fn remove_node_by_id(nodes: &mut Vec<PenNode>, id: &str)
    ensures
        canvas::node_views(final(nodes)@) == without_id(canvas::node_views(old(nodes)@), id@),
    decreases old(nodes)@,
{
    let ghost start = nodes@;
    let ghost views = canvas::node_views(nodes@);
    let ghost mut seen: int = 0;
    let mut i: usize = 0;
    while i < nodes.len()
        invariant
            i <= nodes@.len(),
            0 <= seen <= start.len(),
            start == old(nodes)@,
            views == canvas::node_views(start),
            nodes@.len() - i == start.len() - seen,
            forall|k: int| i <= k < nodes@.len() ==> nodes@[k] == start[k - i + seen],
            canvas::node_views(nodes@).take(i as int) == without_id(views.take(seen), id@),
        decreases nodes.len() - i,
    {
        proof {
            text::lemma_take_step(views, seen);
        }
        if same(nodes[i].id.as_str(), id) {
            nodes.remove(i);
        } else {
            remove_node_by_id(&mut nodes[i].children, id);
            i = i + 1;
        }
        proof { seen = seen + 1; }
    }
    proof {
        text::lemma_take_all(views);
        text::lemma_take_all(canvas::node_views(nodes@));
    }
}

/// The nodes with the one that bears `id` replaced: on each level the first of them, and, up to
/// it, those inside the nodes before it.
pub open spec fn with_replaced(ns: Seq<NodeView>, id: Seq<char>, new: NodeView) -> Seq<NodeView>
    decreases ns,
{
    if ns.len() == 0 {
        Seq::empty()
    } else if ns[0].id == id {
        seq![new] + ns.skip(1)
    } else {
        seq![NodeView { children: with_replaced(ns[0].children, id, new), ..ns[0] }]
            + with_replaced(ns.skip(1), id, new)
    }
}

fn replace_node_by_id(nodes: &mut Vec<PenNode>, id: &str, replacement: &PenNode)
    ensures
        canvas::node_views(final(nodes)@) == with_replaced(
            canvas::node_views(old(nodes)@),
            id@,
            replacement@,
        ),
    decreases old(nodes)@,
{
    let ghost start = nodes@;
    let ghost views = canvas::node_views(nodes@);
    let mut i: usize = 0;
    proof {
        assert(views.skip(0) =~= views);
        assert(views.take(0) + with_replaced(views, id@, replacement@) =~= with_replaced(
            views,
            id@,
            replacement@,
        ));
    }
    while i < nodes.len()
        invariant
            i <= nodes@.len(),
            start == old(nodes)@,
            views == canvas::node_views(start),
            nodes@.len() == start.len(),
            forall|k: int| i <= k < nodes@.len() ==> nodes@[k] == start[k],
            with_replaced(views, id@, replacement@) == canvas::node_views(nodes@).take(i as int)
                + with_replaced(views.skip(i as int), id@, replacement@),
        decreases nodes.len() - i,
    {
        let ghost before = canvas::node_views(nodes@);
        let ghost rest = views.skip(i as int);
        proof {
            assert(rest[0] == views[i as int]);
            assert(rest.skip(1) =~= views.skip(i + 1));
        }
        if same(nodes[i].id.as_str(), id) {
            let new = replacement.copy();
            nodes.set(i, new);
            proof {
                assert(canvas::node_views(nodes@) =~= before.take(i as int) + (seq![replacement@]
                    + views.skip(i + 1)));
            }
            return;
        }
        replace_node_by_id(&mut nodes[i].children, id, replacement);
        i = i + 1;
        proof {
            let now = canvas::node_views(nodes@);
            assert(now.take(i as int) =~= before.take(i - 1) + seq![now[i - 1]]);
            assert(with_replaced(rest, id@, replacement@) == seq![now[i - 1]] + with_replaced(
                views.skip(i as int),
                id@,
                replacement@,
            ));
            assert(with_replaced(views, id@, replacement@) =~= now.take(i as int) + with_replaced(
                views.skip(i as int),
                id@,
                replacement@,
            ));
        }
    }
    proof {
        text::lemma_take_all(canvas::node_views(nodes@));
        assert(canvas::node_views(nodes@) + Seq::<NodeView>::empty() =~= canvas::node_views(
            nodes@,
        ));
    }
}

// ---------------------------------------------------------------------------
// Differences
// ---------------------------------------------------------------------------

/// The difference between two states of a page: nodes that came, nodes that went, nodes that
/// changed.
#[derive(Debug)]
pub struct UndoDelta {
    pub page_id: String,
    pub added: Vec<PenNode>,
    pub deleted: Vec<PenNode>,
    pub modified: Vec<NodeChange>,
}

/// What an `UndoDelta` holds.
#[verifier::ext_equal]
pub struct DeltaView {
    pub page_id: Seq<char>,
    pub added: Seq<NodeView>,
    pub deleted: Seq<NodeView>,
    pub modified: Seq<ChangeView>,
}

pub open spec fn change_views(s: Seq<NodeChange>) -> Seq<ChangeView> {
    s.map_values(|c: NodeChange| c@)
}

impl UndoDelta {
    pub open spec fn view(&self) -> DeltaView {
        DeltaView {
            page_id: self.page_id@,
            added: canvas::node_views(self.added@),
            deleted: canvas::node_views(self.deleted@),
            modified: change_views(self.modified@),
        }
    }
}

/// The nodes of the first page.
pub open spec fn first_nodes(d: DocumentView) -> Seq<NodeView> {
    if d.pages.len() > 0 {
        d.pages[0].nodes
    } else {
        Seq::empty()
    }
}

/// The id of the first page.
pub open spec fn first_page_id(d: DocumentView) -> Seq<char> {
    if d.pages.len() > 0 {
        d.pages[0].id
    } else {
        Seq::empty()
    }
}

/// The last of the nodes that bears `id`.
pub open spec fn find(ns: Seq<NodeView>, id: Seq<char>) -> Option<NodeView>
    decreases ns.len(),
{
    if ns.len() == 0 {
        None
    } else if ns.last().id == id {
        Some(ns.last())
    } else {
        find(ns.drop_last(), id)
    }
}

/// The nodes whose ids occur nowhere among the others.
pub open spec fn missing_from(ns: Seq<NodeView>, others: Seq<NodeView>) -> Seq<NodeView>
    decreases ns.len(),
{
    if ns.len() == 0 {
        Seq::empty()
    } else {
        let rest = missing_from(ns.drop_last(), others);
        if find(others, ns.last().id) is None {
            rest.push(ns.last())
        } else {
            rest
        }
    }
}

/// The changes from the old nodes to those of the new ones that bear the same ids but differ.
pub open spec fn changes(old: Seq<NodeView>, new: Seq<NodeView>) -> Seq<ChangeView>
    decreases new.len(),
{
    if new.len() == 0 {
        Seq::empty()
    } else {
        let rest = changes(old, new.drop_last());
        let n = new.last();
        match find(old, n.id) {
            Some(o) => if canvas::same_node(o, n) {
                rest
            } else {
                rest.push(ChangeView { node_id: n.id, old: o, new: n })
            },
            None => rest,
        }
    }
}

/// The difference from one document to another, on the first page.
pub open spec fn delta_between(old: DocumentView, new: DocumentView) -> DeltaView {
    DeltaView {
        page_id: first_page_id(new),
        added: missing_from(first_nodes(new), first_nodes(old)),
        deleted: missing_from(first_nodes(old), first_nodes(new)),
        modified: changes(first_nodes(old), first_nodes(new)),
    }
}

/// The nodes without any that bears an id of the given ones.
pub open spec fn removed_all(ns: Seq<NodeView>, gone: Seq<NodeView>) -> Seq<NodeView>
    decreases gone.len(),
{
    if gone.len() == 0 {
        ns
    } else {
        without_id(removed_all(ns, gone.drop_last()), gone.last().id)
    }
}

/// The nodes with each change made, or, backwards, taken back.
pub open spec fn replaced_all(
    ns: Seq<NodeView>,
    changes: Seq<ChangeView>,
    forward: bool,
) -> Seq<NodeView>
    decreases changes.len(),
{
    if changes.len() == 0 {
        ns
    } else {
        let c = changes.last();
        with_replaced(
            replaced_all(ns, changes.drop_last(), forward),
            c.node_id,
            if forward {
                c.new
            } else {
                c.old
            },
        )
    }
}

/// The nodes after the difference was made.
pub open spec fn applied(d: DeltaView, ns: Seq<NodeView>) -> Seq<NodeView> {
    replaced_all(removed_all(ns, d.deleted), d.modified, true) + d.added
}

/// The nodes after the difference was taken back.
pub open spec fn reversed(d: DeltaView, ns: Seq<NodeView>) -> Seq<NodeView> {
    replaced_all(removed_all(ns, d.added), d.modified, false) + d.deleted
}

/// The position of the first page with the given id; the number of pages where there is none.
pub open spec fn page_index(ps: Seq<PageView>, id: Seq<char>) -> int
    decreases ps.len(),
{
    if ps.len() == 0 {
        0
    } else if ps[0].id == id {
        0
    } else {
        1 + page_index(ps.skip(1), id)
    }
}

/// The document with the nodes of the difference's page as given; a document without that page
/// stays as it is.
pub open spec fn with_page_nodes(
    d: DeltaView,
    doc: DocumentView,
    forward: bool,
) -> DocumentView {
    let i = page_index(doc.pages, d.page_id);
    if i < doc.pages.len() {
        let nodes = doc.pages[i].nodes;
        let after = if forward {
            applied(d, nodes)
        } else {
            reversed(d, nodes)
        };
        DocumentView {
            pages: doc.pages.update(i, PageView { nodes: after, ..doc.pages[i] }),
            ..doc
        }
    } else {
        doc
    }
}

fn find_by_id(nodes: &Vec<PenNode>, id: &str) -> (r: Option<usize>)
    ensures
        match r {
            Some(i) => i < nodes@.len() && find(canvas::node_views(nodes@), id@) == Some(
                nodes@[i as int]@,
            ),
            None => find(canvas::node_views(nodes@), id@) is None,
        },
{
    let ghost views = canvas::node_views(nodes@);
    let mut i: usize = nodes.len();
    proof {
        text::lemma_take_all(views);
    }
    while i > 0
        invariant
            i <= nodes@.len(),
            views == canvas::node_views(nodes@),
            find(views, id@) == find(views.take(i as int), id@),
        decreases i,
    {
        proof {
            text::lemma_take_step(views, i - 1);
        }
        if same(nodes[i - 1].id.as_str(), id) {
            return Some(i - 1);
        }
        i = i - 1;
    }
    None
}

fn nodes_missing_from(nodes: &Vec<PenNode>, others: &Vec<PenNode>) -> (r: Vec<PenNode>)
    ensures
        canvas::node_views(r@) == missing_from(
            canvas::node_views(nodes@),
            canvas::node_views(others@),
        ),
{
    let ghost views = canvas::node_views(nodes@);
    let ghost other_views = canvas::node_views(others@);
    let mut out: Vec<PenNode> = Vec::new();
    let mut i: usize = 0;
    proof {
        assert(canvas::node_views(out@) =~= Seq::empty());
    }
    while i < nodes.len()
        invariant
            i <= nodes@.len(),
            views == canvas::node_views(nodes@),
            other_views == canvas::node_views(others@),
            canvas::node_views(out@) == missing_from(views.take(i as int), other_views),
        decreases nodes.len() - i,
    {
        let ghost before = canvas::node_views(out@);
        proof {
            text::lemma_take_step(views, i as int);
        }
        if find_by_id(others, nodes[i].id.as_str()).is_none() {
            out.push(nodes[i].copy());
            proof {
                assert(canvas::node_views(out@) =~= before.push(views[i as int]));
            }
        }
        i = i + 1;
    }
    proof {
        text::lemma_take_all(views);
    }
    out
}

fn changed_nodes(old: &Vec<PenNode>, new: &Vec<PenNode>) -> (r: Vec<NodeChange>)
    ensures
        change_views(r@) == changes(canvas::node_views(old@), canvas::node_views(new@)),
{
    let ghost olds = canvas::node_views(old@);
    let ghost news = canvas::node_views(new@);
    let mut out: Vec<NodeChange> = Vec::new();
    let mut i: usize = 0;
    proof {
        assert(change_views(out@) =~= Seq::empty());
    }
    while i < new.len()
        invariant
            i <= new@.len(),
            olds == canvas::node_views(old@),
            news == canvas::node_views(new@),
            change_views(out@) == changes(olds, news.take(i as int)),
        decreases new.len() - i,
    {
        let ghost before = change_views(out@);
        proof {
            text::lemma_take_step(news, i as int);
        }
        match find_by_id(old, new[i].id.as_str()) {
            Some(k) => {
                if !eq_node(&old[k], &new[i]) {
                    let change = NodeChange {
                        node_id: new[i].id.clone(),
                        old: old[k].copy(),
                        new: new[i].copy(),
                    };
                    let ghost c = change@;
                    out.push(change);
                    proof {
                        assert(change_views(out@) =~= before.push(c));
                    }
                }
            },
            None => {},
        }
        i = i + 1;
    }
    proof {
        text::lemma_take_all(news);
    }
    out
}

fn find_page(pages: &Vec<Page>, id: &str) -> (r: usize)
    ensures
        r <= pages@.len(),
        r == page_index(canvas::page_views(pages@), id@),
{
    let ghost views = canvas::page_views(pages@);
    let mut i: usize = 0;
    proof {
        assert(views.skip(0) =~= views);
    }
    while i < pages.len() && !same(pages[i].id.as_str(), id)
        invariant
            i <= pages@.len(),
            views == canvas::page_views(pages@),
            page_index(views, id@) == i + page_index(views.skip(i as int), id@),
        decreases pages.len() - i,
    {
        proof {
            assert(views.skip(i as int)[0] == views[i as int]);
            assert(views.skip(i as int).skip(1) =~= views.skip(i + 1));
        }
        i = i + 1;
    }
    proof {
        if i < pages@.len() {
            assert(views.skip(i as int)[0] == views[i as int]);
        }
    }
    i
}

fn remove_all(nodes: &mut Vec<PenNode>, gone: &Vec<PenNode>)
    ensures
        canvas::node_views(final(nodes)@) == removed_all(
            canvas::node_views(old(nodes)@),
            canvas::node_views(gone@),
        ),
{
    let ghost start = canvas::node_views(nodes@);
    let ghost views = canvas::node_views(gone@);
    let mut i: usize = 0;
    while i < gone.len()
        invariant
            i <= gone@.len(),
            views == canvas::node_views(gone@),
            canvas::node_views(nodes@) == removed_all(start, views.take(i as int)),
        decreases gone.len() - i,
    {
        remove_node_by_id(nodes, gone[i].id.as_str());
        proof {
            text::lemma_take_step(views, i as int);
        }
        i = i + 1;
    }
    proof {
        text::lemma_take_all(views);
    }
}

fn replace_all(nodes: &mut Vec<PenNode>, changes: &Vec<NodeChange>, forward: bool)
    ensures
        canvas::node_views(final(nodes)@) == replaced_all(
            canvas::node_views(old(nodes)@),
            change_views(changes@),
            forward,
        ),
{
    let ghost start = canvas::node_views(nodes@);
    let ghost views = change_views(changes@);
    let mut i: usize = 0;
    while i < changes.len()
        invariant
            i <= changes@.len(),
            views == change_views(changes@),
            canvas::node_views(nodes@) == replaced_all(start, views.take(i as int), forward),
        decreases changes.len() - i,
    {
        let c = &changes[i];
        let replacement = if forward {
            &c.new
        } else {
            &c.old
        };
        replace_node_by_id(nodes, c.node_id.as_str(), replacement);
        proof {
            text::lemma_take_step(views, i as int);
        }
        i = i + 1;
    }
    proof {
        text::lemma_take_all(views);
    }
}

fn push_all(nodes: &mut Vec<PenNode>, more: &Vec<PenNode>)
    ensures
        canvas::node_views(final(nodes)@) == canvas::node_views(old(nodes)@)
            + canvas::node_views(more@),
{
    let ghost start = canvas::node_views(nodes@);
    let ghost views = canvas::node_views(more@);
    let mut i: usize = 0;
    proof {
        assert(start + views.take(0) =~= start);
    }
    while i < more.len()
        invariant
            i <= more@.len(),
            views == canvas::node_views(more@),
            canvas::node_views(nodes@) == start + views.take(i as int),
        decreases more.len() - i,
    {
        let ghost before = canvas::node_views(nodes@);
        nodes.push(more[i].copy());
        proof {
            text::lemma_take_step(views, i as int);
            assert(canvas::node_views(nodes@) =~= before.push(views[i as int]));
            assert(before.push(views[i as int]) =~= start + views.take(i + 1));
        }
        i = i + 1;
    }
    proof {
        text::lemma_take_all(views);
    }
}

impl UndoDelta {
    /// The difference from `old` to `new`, on the first page.
    pub fn compute(old: &PenDocument, new: &PenDocument) -> (r: Self)
        ensures
            r@ == delta_between(old@, new@),
    {
        let none: Vec<PenNode> = Vec::new();
        proof {
            assert(canvas::node_views(none@) =~= Seq::empty());
        }
        let old_nodes = if old.pages.len() > 0 {
            &old.pages[0].nodes
        } else {
            &none
        };
        let new_nodes = if new.pages.len() > 0 {
            &new.pages[0].nodes
        } else {
            &none
        };
        let page_id = if new.pages.len() > 0 {
            new.pages[0].id.clone()
        } else {
            String::new()
        };
        UndoDelta {
            page_id,
            added: nodes_missing_from(new_nodes, old_nodes),
            deleted: nodes_missing_from(old_nodes, new_nodes),
            modified: changed_nodes(old_nodes, new_nodes),
        }
    }

    /// Makes the difference in a document.
    pub fn apply(&self, doc: &mut PenDocument)
        ensures
            final(doc)@ == with_page_nodes(self@, old(doc)@, true),
    {
        let ghost before = doc@;
        let i = find_page(&doc.pages, self.page_id.as_str());
        if i < doc.pages.len() {
            remove_all(&mut doc.pages[i].nodes, &self.deleted);
            replace_all(&mut doc.pages[i].nodes, &self.modified, true);
            push_all(&mut doc.pages[i].nodes, &self.added);
            proof {
                assert(doc@.pages =~= with_page_nodes(self@, before, true).pages);
            }
        }
    }

    /// Takes the difference back in a document.
    pub fn apply_reverse(&self, doc: &mut PenDocument)
        ensures
            final(doc)@ == with_page_nodes(self@, old(doc)@, false),
    {
        let ghost before = doc@;
        let i = find_page(&doc.pages, self.page_id.as_str());
        if i < doc.pages.len() {
            remove_all(&mut doc.pages[i].nodes, &self.added);
            replace_all(&mut doc.pages[i].nodes, &self.modified, false);
            push_all(&mut doc.pages[i].nodes, &self.deleted);
            proof {
                assert(doc@.pages =~= with_page_nodes(self@, before, false).pages);
            }
        }
    }
}

// ---------------------------------------------------------------------------
// The stack
// ---------------------------------------------------------------------------

/// Differences further back than this cannot be undone.
pub const MAX_UNDO_LEVELS: usize = 50;

/// A document with the differences that led to it and those that were taken back.
#[derive(Debug)]
pub struct UndoRedoStack {
    current: PenDocument,
    undo_stack: Vec<UndoDelta>,
    redo_stack: Vec<UndoDelta>,
}

/// What an `UndoRedoStack` holds; the last difference of each list is the next to be used.
#[verifier::ext_equal]
pub struct StackView {
    pub current: DocumentView,
    pub undo: Seq<DeltaView>,
    pub redo: Seq<DeltaView>,
}

pub open spec fn delta_views(s: Seq<UndoDelta>) -> Seq<DeltaView> {
    s.map_values(|d: UndoDelta| d@)
}

/// The differences with one more; the oldest leaves where there are too many.
pub open spec fn pushed(undo: Seq<DeltaView>, d: DeltaView) -> Seq<DeltaView> {
    if undo.len() >= MAX_UNDO_LEVELS {
        undo.push(d).skip(1)
    } else {
        undo.push(d)
    }
}

/// The stack after a difference was made.
pub open spec fn stack_pushed(s: StackView, d: DeltaView) -> StackView {
    StackView {
        current: with_page_nodes(d, s.current, true),
        undo: pushed(s.undo, d),
        redo: Seq::empty(),
    }
}

/// The stack after the last difference was taken back.
pub open spec fn stack_undone(s: StackView) -> StackView {
    if s.undo.len() == 0 {
        s
    } else {
        StackView {
            current: with_page_nodes(s.undo.last(), s.current, false),
            undo: s.undo.drop_last(),
            redo: s.redo.push(s.undo.last()),
        }
    }
}

/// The stack after the difference that was taken back last was made again.
pub open spec fn stack_redone(s: StackView) -> StackView {
    if s.redo.len() == 0 {
        s
    } else {
        StackView {
            current: with_page_nodes(s.redo.last(), s.current, true),
            undo: s.undo.push(s.redo.last()),
            redo: s.redo.drop_last(),
        }
    }
}

impl UndoRedoStack {
    pub closed spec fn view(&self) -> StackView {
        StackView {
            current: self.current@,
            undo: delta_views(self.undo_stack@),
            redo: delta_views(self.redo_stack@),
        }
    }

    /// A stack with nothing to undo or redo.
    pub fn new(doc: PenDocument) -> (r: Self)
        ensures
            r@ == (StackView { current: doc@, undo: Seq::empty(), redo: Seq::empty() }),
    {
        let r = UndoRedoStack { current: doc, undo_stack: Vec::new(), redo_stack: Vec::new() };
        proof {
            assert(delta_views(r.undo_stack@) =~= Seq::empty());
            assert(delta_views(r.redo_stack@) =~= Seq::empty());
        }
        r
    }

    /// A stack as it was when it was taken apart.
    pub fn from_parts(
        current: PenDocument,
        undo_stack: Vec<UndoDelta>,
        redo_stack: Vec<UndoDelta>,
    ) -> (r: Self)
        ensures
            r@ == (StackView {
                current: current@,
                undo: delta_views(undo_stack@),
                redo: delta_views(redo_stack@),
            }),
    {
        UndoRedoStack { current, undo_stack, redo_stack }
    }

    /// Takes the stack apart: the document, the differences that led to it and those that were
    /// taken back.
    pub fn into_parts(self) -> (r: (PenDocument, Vec<UndoDelta>, Vec<UndoDelta>))
        ensures
            self@ == (StackView {
                current: r.0@,
                undo: delta_views(r.1@),
                redo: delta_views(r.2@),
            }),
    {
        (self.current, self.undo_stack, self.redo_stack)
    }

    /// The document as it stands.
    pub fn current(&self) -> (r: &PenDocument)
        ensures
            r@ == self@.current,
    {
        &self.current
    }

    /// Makes a difference; what was taken back before can no longer be made again.
    pub fn push(&mut self, delta: UndoDelta)
        ensures
            final(self)@ == stack_pushed(old(self)@, delta@),
    {
        delta.apply(&mut self.current);
        self.undo_stack.push(delta);
        if self.undo_stack.len() > MAX_UNDO_LEVELS {
            self.undo_stack.remove(0);
        }
        self.redo_stack = Vec::new();
        proof {
            assert(delta_views(self.undo_stack@) =~= pushed(old(self)@.undo, delta@));
            assert(delta_views(self.redo_stack@) =~= Seq::empty());
        }
    }

    /// Takes the last difference back and gives the document; `None` where there is none.
    pub fn undo(&mut self) -> (r: Option<PenDocument>)
        ensures
            final(self)@ == stack_undone(old(self)@),
            match r {
                Some(doc) => old(self)@.undo.len() > 0 && doc@ == stack_undone(
                    old(self)@,
                ).current,
                None => old(self)@.undo.len() == 0,
            },
    {
        match self.undo_stack.pop() {
            Some(delta) => {
                delta.apply_reverse(&mut self.current);
                self.redo_stack.push(delta);
                proof {
                    assert(delta_views(self.undo_stack@) =~= old(self)@.undo.drop_last());
                    assert(delta_views(self.redo_stack@) =~= old(self)@.redo.push(delta@));
                }
                Some(self.current.clone())
            },
            None => {
                None
            },
        }
    }

    /// Makes the difference that was taken back last again; `None` where there is none.
    pub fn redo(&mut self) -> (r: Option<PenDocument>)
        ensures
            final(self)@ == stack_redone(old(self)@),
            match r {
                Some(doc) => old(self)@.redo.len() > 0 && doc@ == stack_redone(
                    old(self)@,
                ).current,
                None => old(self)@.redo.len() == 0,
            },
    {
        match self.redo_stack.pop() {
            Some(delta) => {
                delta.apply(&mut self.current);
                self.undo_stack.push(delta);
                proof {
                    assert(delta_views(self.redo_stack@) =~= old(self)@.redo.drop_last());
                    assert(delta_views(self.undo_stack@) =~= old(self)@.undo.push(delta@));
                }
                Some(self.current.clone())
            },
            None => {
                None
            },
        }
    }
}

// ---------------------------------------------------------------------------
// Laws
// ---------------------------------------------------------------------------

/// Some node, at any depth, bears `id`.
pub open spec fn holds_id(ns: Seq<NodeView>, id: Seq<char>) -> bool
    decreases ns,
{
    exists|i: int|
        0 <= i < ns.len() && ((#[trigger] ns[i]).id == id || holds_id(ns[i].children, id))
}

/// No two nodes of the level bear the same id.
pub open spec fn distinct_ids(ns: Seq<NodeView>) -> bool {
    forall|i: int, j: int|
        0 <= i < j < ns.len() ==> (#[trigger] ns[i]).id != (#[trigger] ns[j]).id
}

/// The nodes can be told apart by their ids: no two of them bear the same one, and none of their
/// ids occurs again further inside. A page whose ids are distinct at every depth is such a list.
pub open spec fn told_apart(ns: Seq<NodeView>) -> bool {
    &&& distinct_ids(ns)
    &&& forall|i: int, j: int|
        0 <= i < ns.len() && 0 <= j < ns.len() ==> !#[trigger] holds_id(ns[i].children, ns[j].id)
}

/// Two documents that show the same page, in each of which its nodes can be told apart. A node may
/// move from one level to another between them.
pub open spec fn comparable(old: DocumentView, new: DocumentView) -> bool {
    &&& old.pages.len() > 0
    &&& new.pages.len() > 0
    &&& old.pages[0].id == new.pages[0].id
    &&& told_apart(old.pages[0].nodes)
    &&& told_apart(new.pages[0].nodes)
}

/// No id that both lists bear occurs inside a node of `ns`.
spec fn clear_of(ns: Seq<NodeView>, a: Seq<NodeView>, b: Seq<NodeView>) -> bool {
    forall|i: int, id: Seq<char>|
        0 <= i < ns.len() && find(a, id) is Some && find(b, id) is Some
            ==> !#[trigger] holds_id(ns[i].children, id)
}

/// The nodes for which the condition holds.
pub open spec fn select(ns: Seq<NodeView>, p: spec_fn(NodeView) -> bool) -> Seq<NodeView>
    decreases ns.len(),
{
    if ns.len() == 0 {
        Seq::empty()
    } else if p(ns.last()) {
        select(ns.drop_last(), p).push(ns.last())
    } else {
        select(ns.drop_last(), p)
    }
}

/// The nodes whose ids occur among the others, in their order.
pub open spec fn common(ns: Seq<NodeView>, others: Seq<NodeView>) -> Seq<NodeView> {
    select(ns, |n: NodeView| find(others, n.id) is Some)
}

proof fn lemma_select_members(ns: Seq<NodeView>, p: spec_fn(NodeView) -> bool)
    ensures
        forall|k: int|
            0 <= k < select(ns, p).len() ==> ns.contains(#[trigger] select(ns, p)[k]) && p(
                select(ns, p)[k],
            ),
    decreases ns.len(),
{
    if ns.len() > 0 {
        let init = ns.drop_last();
        lemma_select_members(init, p);
        assert forall|k: int| 0 <= k < select(ns, p).len() implies ns.contains(
            #[trigger] select(ns, p)[k],
        ) && p(select(ns, p)[k]) by {
            if k < select(init, p).len() {
                assert(select(ns, p)[k] == select(init, p)[k]);
                let i = choose|i: int| 0 <= i < init.len() && init[i] == select(init, p)[k];
                assert(ns[i] == select(ns, p)[k]);
            } else {
                assert(ns[ns.len() - 1] == select(ns, p)[k]);
            }
        }
    }
}

proof fn lemma_select_finds(ns: Seq<NodeView>, p: spec_fn(NodeView) -> bool, n: NodeView)
    requires
        ns.contains(n),
        p(n),
    ensures
        select(ns, p).contains(n),
    decreases ns.len(),
{
    let i = choose|i: int| 0 <= i < ns.len() && ns[i] == n;
    let all = select(ns, p);
    let rest = select(ns.drop_last(), p);
    if i == ns.len() - 1 {
        assert(all[all.len() - 1] == n);
    } else {
        assert(ns.drop_last()[i] == n);
        lemma_select_finds(ns.drop_last(), p, n);
        let k = choose|k: int| 0 <= k < rest.len() && rest[k] == n;
        assert(all[k] == n);
    }
}

proof fn lemma_select_same(
    ns: Seq<NodeView>,
    p: spec_fn(NodeView) -> bool,
    q: spec_fn(NodeView) -> bool,
)
    requires
        forall|i: int| 0 <= i < ns.len() ==> p(#[trigger] ns[i]) == q(ns[i]),
    ensures
        select(ns, p) == select(ns, q),
    decreases ns.len(),
{
    if ns.len() > 0 {
        let init = ns.drop_last();
        assert forall|i: int| 0 <= i < init.len() implies p(#[trigger] init[i]) == q(init[i]) by {
            assert(init[i] == ns[i]);
        }
        lemma_select_same(init, p, q);
        assert(ns.last() == ns[ns.len() - 1]);
    }
}

proof fn lemma_select_twice(
    ns: Seq<NodeView>,
    p: spec_fn(NodeView) -> bool,
    q: spec_fn(NodeView) -> bool,
)
    ensures
        select(select(ns, p), q) == select(ns, |n: NodeView| p(n) && q(n)),
    decreases ns.len(),
{
    if ns.len() > 0 {
        lemma_select_twice(ns.drop_last(), p, q);
        if p(ns.last()) {
            assert(select(ns, p).drop_last() =~= select(ns.drop_last(), p));
        }
    }
}

proof fn lemma_select_append(
    a: Seq<NodeView>,
    b: Seq<NodeView>,
    p: spec_fn(NodeView) -> bool,
)
    ensures
        select(a + b, p) == select(a, p) + select(b, p),
    decreases b.len(),
{
    if b.len() == 0 {
        assert(a + b =~= a);
        assert(select(a, p) + select(b, p) =~= select(a, p));
    } else {
        lemma_select_append(a, b.drop_last(), p);
        assert((a + b).drop_last() =~= a + b.drop_last());
        assert((a + b).last() == b.last());
        assert(select(a + b, p) =~= select(a, p) + select(b, p));
    }
}

proof fn lemma_select_all(ns: Seq<NodeView>, p: spec_fn(NodeView) -> bool)
    requires
        forall|i: int| 0 <= i < ns.len() ==> p(#[trigger] ns[i]),
    ensures
        select(ns, p) == ns,
    decreases ns.len(),
{
    if ns.len() > 0 {
        let init = ns.drop_last();
        assert forall|i: int| 0 <= i < init.len() implies p(#[trigger] init[i]) by {
            assert(init[i] == ns[i]);
        }
        lemma_select_all(init, p);
        assert(ns.last() == ns[ns.len() - 1]);
        assert(init.push(ns.last()) =~= ns);
    }
}

proof fn lemma_select_none(ns: Seq<NodeView>, p: spec_fn(NodeView) -> bool)
    requires
        forall|i: int| 0 <= i < ns.len() ==> !p(#[trigger] ns[i]),
    ensures
        select(ns, p) == Seq::<NodeView>::empty(),
    decreases ns.len(),
{
    if ns.len() > 0 {
        let init = ns.drop_last();
        assert forall|i: int| 0 <= i < init.len() implies !p(#[trigger] init[i]) by {
            assert(init[i] == ns[i]);
        }
        lemma_select_none(init, p);
        assert(ns.last() == ns[ns.len() - 1]);
    }
}

proof fn lemma_select_distinct(ns: Seq<NodeView>, p: spec_fn(NodeView) -> bool)
    requires
        distinct_ids(ns),
    ensures
        distinct_ids(select(ns, p)),
    decreases ns.len(),
{
    if ns.len() > 0 {
        let init = ns.drop_last();
        lemma_select_distinct(init, p);
        lemma_select_members(init, p);
        if p(ns.last()) {
            let all = select(ns, p);
            assert forall|i: int, j: int| 0 <= i < j < all.len() implies (#[trigger] all[i]).id != (
            #[trigger] all[j]).id by {
                assert(all[i] == select(init, p)[i]);
                if j < select(init, p).len() {
                    assert(all[j] == select(init, p)[j]);
                } else {
                    let k = choose|k: int| 0 <= k < init.len() && init[k] == select(init, p)[i];
                    assert(ns[k] == all[i]);
                    assert(ns[ns.len() - 1] == all[j]);
                }
            }
        }
    }
}

proof fn lemma_find(ns: Seq<NodeView>, id: Seq<char>)
    ensures
        match find(ns, id) {
            Some(n) => n.id == id && ns.contains(n),
            None => forall|i: int| 0 <= i < ns.len() ==> (#[trigger] ns[i]).id != id,
        },
    decreases ns.len(),
{
    if ns.len() > 0 {
        lemma_find(ns.drop_last(), id);
        if ns.last().id == id {
            assert(ns[ns.len() - 1] == ns.last());
        } else {
            match find(ns.drop_last(), id) {
                Some(n) => {
                    let i = choose|i: int|
                        0 <= i < ns.drop_last().len() && ns.drop_last()[i] == n;
                    assert(ns[i] == n);
                },
                None => {
                    assert forall|i: int| 0 <= i < ns.len() implies (#[trigger] ns[i]).id != id by {
                        if i < ns.len() - 1 {
                            assert(ns.drop_last()[i] == ns[i]);
                        }
                    }
                },
            }
        }
    }
}

proof fn lemma_find_member(ns: Seq<NodeView>, i: int)
    requires
        0 <= i < ns.len(),
    ensures
        find(ns, ns[i].id) is Some,
        distinct_ids(ns) ==> find(ns, ns[i].id) == Some(ns[i]),
{
    lemma_find(ns, ns[i].id);
    match find(ns, ns[i].id) {
        Some(n) => {
            let k = choose|k: int| 0 <= k < ns.len() && ns[k] == n;
            if distinct_ids(ns) {
                if k < i {
                    assert(ns[k].id != ns[i].id);
                } else if i < k {
                    assert(ns[i].id != ns[k].id);
                }
            }
        },
        None => {},
    }
}

proof fn lemma_missing(ns: Seq<NodeView>, others: Seq<NodeView>, id: Seq<char>)
    ensures
        find(missing_from(ns, others), id) is Some <==> find(ns, id) is Some && find(
            others,
            id,
        ) is None,
        forall|k: int|
            0 <= k < missing_from(ns, others).len() ==> ns.contains(
                #[trigger] missing_from(ns, others)[k],
            ) && find(others, missing_from(ns, others)[k].id) is None,
    decreases ns.len(),
{
    if ns.len() > 0 {
        let init = ns.drop_last();
        let all = missing_from(ns, others);
        let rest = missing_from(init, others);
        lemma_missing(init, others, id);
        if find(others, ns.last().id) is None {
            assert(all.drop_last() =~= rest);
        }
        assert forall|k: int| 0 <= k < all.len() implies ns.contains(#[trigger] all[k]) && find(
            others,
            all[k].id,
        ) is None by {
            if k < rest.len() {
                assert(all[k] == rest[k]);
                let i = choose|i: int| 0 <= i < init.len() && init[i] == rest[k];
                assert(ns[i] == all[k]);
            } else {
                assert(ns[ns.len() - 1] == all[k]);
            }
        }
    }
}

proof fn lemma_changes(old: Seq<NodeView>, new: Seq<NodeView>)
    ensures
        forall|k: int|
            0 <= k < changes(old, new).len() ==> {
                let c = #[trigger] changes(old, new)[k];
                &&& c.new.id == c.node_id
                &&& c.old.id == c.node_id
                &&& new.contains(c.new)
                &&& old.contains(c.old)
                &&& find(old, c.node_id) == Some(c.old)
                &&& !canvas::same_node(c.old, c.new)
            },
    decreases new.len(),
{
    if new.len() > 0 {
        let init = new.drop_last();
        let all = changes(old, new);
        let rest = changes(old, init);
        lemma_changes(old, init);
        lemma_find(old, new.last().id);
        assert forall|k: int| 0 <= k < all.len() implies {
            let c = #[trigger] all[k];
            &&& c.new.id == c.node_id
            &&& c.old.id == c.node_id
            &&& new.contains(c.new)
            &&& old.contains(c.old)
            &&& find(old, c.node_id) == Some(c.old)
            &&& !canvas::same_node(c.old, c.new)
        } by {
            if k < rest.len() {
                assert(all[k] == rest[k]);
                let i = choose|i: int| 0 <= i < init.len() && init[i] == rest[k].new;
                assert(new[i] == all[k].new);
            } else {
                assert(new[new.len() - 1] == new.last());
            }
        }
    }
}

proof fn lemma_without_absent(ns: Seq<NodeView>, id: Seq<char>)
    requires
        !holds_id(ns, id),
    ensures
        without_id(ns, id) == ns,
    decreases ns,
{
    if ns.len() > 0 {
        let init = ns.drop_last();
        assert(ns[ns.len() - 1] == ns.last());
        if holds_id(init, id) {
            let i = choose|i: int|
                0 <= i < init.len() && ((#[trigger] init[i]).id == id || holds_id(
                    init[i].children,
                    id,
                ));
            assert(ns[i] == init[i]);
        }
        lemma_without_absent(init, id);
        lemma_without_absent(ns.last().children, id);
        assert(init.push(ns.last()) =~= ns);
    }
}

proof fn lemma_without_selects(ns: Seq<NodeView>, id: Seq<char>)
    requires
        forall|i: int| 0 <= i < ns.len() ==> !holds_id((#[trigger] ns[i]).children, id),
    ensures
        without_id(ns, id) == select(ns, |n: NodeView| n.id != id),
    decreases ns.len(),
{
    if ns.len() > 0 {
        let init = ns.drop_last();
        assert forall|i: int| 0 <= i < init.len() implies !holds_id(
            (#[trigger] init[i]).children,
            id,
        ) by {
            assert(ns[i] == init[i]);
        }
        lemma_without_selects(init, id);
        assert(ns[ns.len() - 1] == ns.last());
        lemma_without_absent(ns.last().children, id);
    }
}

proof fn lemma_removed_selects(ns: Seq<NodeView>, gone: Seq<NodeView>)
    requires
        forall|i: int, k: int|
            0 <= i < ns.len() && 0 <= k < gone.len() ==> !#[trigger] holds_id(
                ns[i].children,
                gone[k].id,
            ),
    ensures
        removed_all(ns, gone) == select(ns, |n: NodeView| find(gone, n.id) is None),
    decreases gone.len(),
{
    let p = |n: NodeView| find(gone, n.id) is None;
    if gone.len() == 0 {
        lemma_select_all(ns, p);
    } else {
        let init = gone.drop_last();
        let last = gone[gone.len() - 1];
        assert(gone.last() == last);
        assert forall|i: int, k: int| 0 <= i < ns.len() && 0 <= k < init.len() implies !#[trigger]
            holds_id(ns[i].children, init[k].id) by {
            assert(gone[k] == init[k]);
            assert(!holds_id(ns[i].children, gone[k].id));
        }
        lemma_removed_selects(ns, init);
        let q = |n: NodeView| find(init, n.id) is None;
        let r = |n: NodeView| n.id != last.id;
        let left = select(ns, q);
        lemma_select_members(ns, q);
        assert forall|i: int| 0 <= i < left.len() implies !holds_id(
            (#[trigger] left[i]).children,
            last.id,
        ) by {
            let k = choose|k: int| 0 <= k < ns.len() && ns[k] == left[i];
            assert(!holds_id(ns[k].children, gone[gone.len() - 1].id));
        }
        lemma_without_selects(left, last.id);
        lemma_select_twice(ns, q, r);
        lemma_select_same(ns, |n: NodeView| q(n) && r(n), p);
    }
}

proof fn lemma_replaced_absent(ns: Seq<NodeView>, id: Seq<char>, new: NodeView)
    requires
        !holds_id(ns, id),
    ensures
        with_replaced(ns, id, new) == ns,
    decreases ns,
{
    if ns.len() > 0 {
        let rest = ns.skip(1);
        assert(ns[0].id != id && !holds_id(ns[0].children, id));
        if holds_id(rest, id) {
            let i = choose|i: int|
                0 <= i < rest.len() && ((#[trigger] rest[i]).id == id || holds_id(
                    rest[i].children,
                    id,
                ));
            assert(ns[i + 1] == rest[i]);
        }
        lemma_replaced_absent(rest, id, new);
        lemma_replaced_absent(ns[0].children, id, new);
        assert(seq![ns[0]] + rest =~= ns);
    }
}

/// The node, or the one that takes its place.
spec fn swapped(n: NodeView, id: Seq<char>, new: NodeView) -> NodeView {
    if n.id == id {
        new
    } else {
        n
    }
}

proof fn lemma_replaced_maps(ns: Seq<NodeView>, id: Seq<char>, new: NodeView)
    requires
        distinct_ids(ns),
        forall|i: int| 0 <= i < ns.len() ==> !holds_id((#[trigger] ns[i]).children, id),
    ensures
        with_replaced(ns, id, new).len() == ns.len(),
        forall|i: int|
            0 <= i < ns.len() ==> (#[trigger] with_replaced(ns, id, new)[i]) == swapped(
                ns[i],
                id,
                new,
            ),
    decreases ns.len(),
{
    if ns.len() > 0 {
        let rest = ns.skip(1);
        if ns[0].id == id {
            assert forall|i: int| 0 <= i < ns.len() implies (
            #[trigger] with_replaced(ns, id, new)[i]) == swapped(ns[i], id, new) by {
                if i > 0 {
                    assert(ns[0].id != ns[i].id);
                    assert(rest[i - 1] == ns[i]);
                }
            }
        } else {
            assert forall|i: int, j: int| 0 <= i < j < rest.len() implies (
            #[trigger] rest[i]).id != (#[trigger] rest[j]).id by {
                assert(ns[i + 1].id != ns[j + 1].id);
            }
            assert forall|i: int| 0 <= i < rest.len() implies !holds_id(
                (#[trigger] rest[i]).children,
                id,
            ) by {
                assert(rest[i] == ns[i + 1]);
            }
            lemma_replaced_maps(rest, id, new);
            lemma_replaced_absent(ns[0].children, id, new);
            assert forall|i: int| 0 <= i < ns.len() implies (
            #[trigger] with_replaced(ns, id, new)[i]) == swapped(ns[i], id, new) by {
                if i > 0 {
                    assert(rest[i - 1] == ns[i]);
                    assert(with_replaced(rest, id, new)[i - 1] == swapped(ns[i], id, new));
                }
            }
        }
    }
}

/// The node after the changes that speak of it.
spec fn amended(n: NodeView, changes: Seq<ChangeView>, forward: bool) -> NodeView
    decreases changes.len(),
{
    if changes.len() == 0 {
        n
    } else {
        let c = changes.last();
        swapped(
            amended(n, changes.drop_last(), forward),
            c.node_id,
            if forward {
                c.new
            } else {
                c.old
            },
        )
    }
}

/// What every change of a difference between `old` and `new` is.
spec fn sound(changes: Seq<ChangeView>, old: Seq<NodeView>, new: Seq<NodeView>) -> bool {
    forall|k: int|
        0 <= k < changes.len() ==> {
            let c = #[trigger] changes[k];
            &&& c.new.id == c.node_id
            &&& c.old.id == c.node_id
            &&& new.contains(c.new)
            &&& old.contains(c.old)
            &&& find(old, c.node_id) == Some(c.old)
        }
}

proof fn lemma_replaced_amends(
    ns: Seq<NodeView>,
    changes: Seq<ChangeView>,
    forward: bool,
    old: Seq<NodeView>,
    new: Seq<NodeView>,
)
    requires
        distinct_ids(ns),
        clear_of(ns, old, new),
        clear_of(old, old, new),
        clear_of(new, old, new),
        sound(changes, old, new),
    ensures
        replaced_all(ns, changes, forward) == ns.map_values(
            |n: NodeView| amended(n, changes, forward),
        ),
        forall|i: int|
            0 <= i < ns.len() ==> amended(#[trigger] ns[i], changes, forward).id == ns[i].id,
        clear_of(replaced_all(ns, changes, forward), old, new),
    decreases changes.len(),
{
    let f = |n: NodeView| amended(n, changes, forward);
    if changes.len() == 0 {
        assert(ns.map_values(f) =~= ns);
    } else {
        let init = changes.drop_last();
        let c = changes[changes.len() - 1];
        assert(changes.last() == c);
        assert forall|k: int| 0 <= k < init.len() implies {
            let c = #[trigger] init[k];
            &&& c.new.id == c.node_id
            &&& c.old.id == c.node_id
            &&& new.contains(c.new)
            &&& old.contains(c.old)
            &&& find(old, c.node_id) == Some(c.old)
        } by {
            assert(changes[k] == init[k]);
        }
        lemma_replaced_amends(ns, init, forward, old, new);
        let half = replaced_all(ns, init, forward);
        let g = |n: NodeView| amended(n, init, forward);
        assert(half =~= ns.map_values(g));
        assert forall|i: int, j: int| 0 <= i < j < half.len() implies (#[trigger] half[i]).id != (
        #[trigger] half[j]).id by {
            assert(half[i] == amended(ns[i], init, forward));
            assert(half[j] == amended(ns[j], init, forward));
            assert(ns[i].id != ns[j].id);
        }
        assert forall|i: int| 0 <= i < half.len() implies !holds_id(
            (#[trigger] half[i]).children,
            c.node_id,
        ) by {
            let k = choose|k: int| 0 <= k < new.len() && new[k] == c.new;
            lemma_find_member(new, k);
            assert(!holds_id(half[i].children, c.node_id));
        }
        let by = if forward {
            c.new
        } else {
            c.old
        };
        lemma_replaced_maps(half, c.node_id, by);
        let whole = replaced_all(ns, changes, forward);
        assert forall|i: int| 0 <= i < ns.len() implies amended(
            #[trigger] ns[i],
            changes,
            forward,
        ).id == ns[i].id && whole[i] == amended(ns[i], changes, forward) by {
            assert(half[i] == amended(ns[i], init, forward));
            assert(whole[i] == swapped(half[i], c.node_id, by));
        }
        assert(whole =~= ns.map_values(f));
        assert forall|i: int, id: Seq<char>|
            0 <= i < whole.len() && find(old, id) is Some && find(new, id) is Some
            implies !#[trigger] holds_id(whole[i].children, id) by {
            assert(whole[i] == swapped(half[i], c.node_id, by));
            if half[i].id == c.node_id {
                if forward {
                    let k = choose|k: int| 0 <= k < new.len() && new[k] == c.new;
                    assert(!holds_id(new[k].children, id));
                } else {
                    let k = choose|k: int| 0 <= k < old.len() && old[k] == c.old;
                    assert(!holds_id(old[k].children, id));
                }
            } else {
                assert(!holds_id(half[i].children, id));
            }
        }
    }
}

/// Some change speaks of the id.
spec fn touches(changes: Seq<ChangeView>, id: Seq<char>) -> bool {
    exists|k: int| 0 <= k < changes.len() && (#[trigger] changes[k]).node_id == id
}

proof fn lemma_amended_value(
    m: NodeView,
    n: NodeView,
    changes: Seq<ChangeView>,
    forward: bool,
)
    requires
        m.id == n.id,
        forall|k: int|
            0 <= k < changes.len() ==> (#[trigger] changes[k]).new.id == changes[k].node_id
                && changes[k].old.id == changes[k].node_id,
        forall|k: int|
            0 <= k < changes.len() && (#[trigger] changes[k]).node_id == n.id ==> changes[k].old
                == n,
    ensures
        !touches(changes, n.id) ==> amended(m, changes, forward) == m,
        touches(changes, n.id) && !forward ==> amended(m, changes, forward) == n,
        amended(m, changes, forward).id == n.id,
    decreases changes.len(),
{
    if changes.len() > 0 {
        let init = changes.drop_last();
        assert(changes.last() == changes[changes.len() - 1]);
        assert forall|k: int| 0 <= k < init.len() implies (#[trigger] init[k]).new.id
            == init[k].node_id && init[k].old.id == init[k].node_id by {
            assert(changes[k] == init[k]);
        }
        assert forall|k: int|
            0 <= k < init.len() && (#[trigger] init[k]).node_id == n.id implies init[k].old
            == n by {
            assert(changes[k] == init[k]);
        }
        lemma_amended_value(m, n, init, forward);
        if touches(init, n.id) {
            let k = choose|k: int| 0 <= k < init.len() && (#[trigger] init[k]).node_id == n.id;
            assert(changes[k].node_id == n.id);
        }
        if touches(changes, n.id) && changes.last().node_id != n.id {
            let k = choose|k: int|
                0 <= k < changes.len() && (#[trigger] changes[k]).node_id == n.id;
            assert(init[k].node_id == n.id);
        }
    }
}

proof fn lemma_subset_clear(
    part: Seq<NodeView>,
    ns: Seq<NodeView>,
    a: Seq<NodeView>,
    b: Seq<NodeView>,
)
    requires
        clear_of(ns, a, b),
        forall|k: int| 0 <= k < part.len() ==> ns.contains(#[trigger] part[k]),
    ensures
        clear_of(part, a, b),
{
    assert forall|i: int, id: Seq<char>|
        0 <= i < part.len() && find(a, id) is Some && find(b, id) is Some
        implies !#[trigger] holds_id(part[i].children, id) by {
        let k = choose|k: int| 0 <= k < ns.len() && ns[k] == part[i];
        assert(!holds_id(ns[k].children, id));
    }
}

proof fn lemma_told_apart_clear(old: Seq<NodeView>, new: Seq<NodeView>)
    requires
        told_apart(old),
        told_apart(new),
    ensures
        clear_of(old, old, new),
        clear_of(new, old, new),
{
    assert forall|i: int, id: Seq<char>|
        0 <= i < old.len() && find(old, id) is Some && find(new, id) is Some
        implies !#[trigger] holds_id(old[i].children, id) by {
        lemma_find(old, id);
        let j = choose|j: int| 0 <= j < old.len() && old[j] == find(old, id)->0;
        assert(!holds_id(old[i].children, old[j].id));
    }
    assert forall|i: int, id: Seq<char>|
        0 <= i < new.len() && find(old, id) is Some && find(new, id) is Some
        implies !#[trigger] holds_id(new[i].children, id) by {
        lemma_find(new, id);
        let j = choose|j: int| 0 <= j < new.len() && new[j] == find(new, id)->0;
        assert(!holds_id(new[i].children, new[j].id));
    }
}

/// Equal nodes hold the same ids.
proof fn lemma_same_holds(a: NodeView, b: NodeView, id: Seq<char>)
    requires
        canvas::same_node(a, b),
        holds_id(a.children, id),
    ensures
        holds_id(b.children, id),
    decreases a,
{
    let i = choose|i: int|
        0 <= i < a.children.len() && ((#[trigger] a.children[i]).id == id || holds_id(
            a.children[i].children,
            id,
        ));
    assert(canvas::same_node(a.children[i], b.children[i]));
    if a.children[i].id != id {
        lemma_same_holds(a.children[i], b.children[i], id);
    }
    assert(b.children[i].id == id || holds_id(b.children[i].children, id));
}

/// A node that stays, as the new list has it: as it was where the two are equal.
pub open spec fn brought_forward(n: NodeView, new: Seq<NodeView>) -> NodeView {
    match find(new, n.id) {
        Some(t) => if canvas::same_node(n, t) {
            n
        } else {
            t
        },
        None => n,
    }
}

proof fn lemma_amended_is_new(old: Seq<NodeView>, new: Seq<NodeView>, at: int)
    requires
        distinct_ids(old),
        distinct_ids(new),
        0 <= at < old.len(),
        find(new, old[at].id) is Some,
    ensures
        amended(old[at], changes(old, new), true) == brought_forward(old[at], new),
{
    let all = changes(old, new);
    let n = old[at];
    let target = find(new, n.id)->0;
    lemma_changes(old, new);
    lemma_find_member(old, at);
    lemma_find(new, n.id);
    let to = choose|to: int| 0 <= to < new.len() && new[to] == target;
    assert forall|k: int| 0 <= k < all.len() && (#[trigger] all[k]).node_id == target.id implies
        all[k].new == target by {
        let j = choose|j: int| 0 <= j < new.len() && new[j] == all[k].new;
        lemma_find_member(new, j);
        lemma_find_member(new, to);
    }
    lemma_amended_forward(n, target, all);
    if touches(all, target.id) {
        let k = choose|k: int| 0 <= k < all.len() && (#[trigger] all[k]).node_id == target.id;
        assert(all[k].old == n && all[k].new == target);
    } else if !canvas::same_node(n, target) {
        lemma_changes_touch(old, new, to);
    }
}

/// What making a difference gives, whether the nodes that go stand in their places or at the end.
proof fn lemma_applied(
    old: Seq<NodeView>,
    new: Seq<NodeView>,
    d: DeltaView,
    at_end: bool,
)
    requires
        told_apart(old),
        told_apart(new),
        d.added == missing_from(new, old),
        d.deleted == missing_from(old, new),
        d.modified == changes(old, new),
    ensures
        applied(d, if at_end { common(old, new) + d.deleted } else { old }) == common(
            old,
            new,
        ).map_values(|n: NodeView| brought_forward(n, new)) + d.added,
        replaced_all(common(old, new), d.modified, true) == common(old, new).map_values(
            |n: NodeView| brought_forward(n, new),
        ),
{
    let kept = common(old, new);
    let p = |n: NodeView| find(new, n.id) is Some;
    let q = |n: NodeView| find(d.deleted, n.id) is None;
    lemma_told_apart_clear(old, new);
    lemma_select_members(old, p);
    lemma_select_distinct(old, p);
    lemma_subset_clear(kept, old, old, new);
    lemma_missing(old, new, Seq::empty());
    let start = if at_end {
        kept + d.deleted
    } else {
        old
    };
    assert forall|i: int| 0 <= i < start.len() implies old.contains(#[trigger] start[i]) by {
        if at_end {
            if i < kept.len() {
                assert(start[i] == kept[i]);
            } else {
                assert(start[i] == d.deleted[i - kept.len()]);
            }
        }
    }
    assert forall|i: int, k: int| 0 <= i < start.len() && 0 <= k < d.deleted.len() implies
        !#[trigger] holds_id(start[i].children, d.deleted[k].id) by {
        let x = choose|x: int| 0 <= x < old.len() && old[x] == start[i];
        let y = choose|y: int| 0 <= y < old.len() && old[y] == d.deleted[k];
        assert(!holds_id(old[x].children, old[y].id));
    }
    lemma_removed_selects(start, d.deleted);
    assert forall|i: int| 0 <= i < old.len() implies p(#[trigger] old[i]) == q(old[i]) by {
        lemma_find_member(old, i);
        lemma_missing(old, new, old[i].id);
    }
    assert(removed_all(start, d.deleted) == kept) by {
        if at_end {
            lemma_select_append(kept, d.deleted, q);
            assert forall|i: int| 0 <= i < kept.len() implies q(#[trigger] kept[i]) by {
                lemma_missing(old, new, kept[i].id);
            }
            lemma_select_all(kept, q);
            assert forall|i: int| 0 <= i < d.deleted.len() implies !q(
                #[trigger] d.deleted[i],
            ) by {
                lemma_find_member(d.deleted, i);
            }
            lemma_select_none(d.deleted, q);
            assert(kept + Seq::<NodeView>::empty() =~= kept);
        } else {
            lemma_select_same(old, p, q);
        }
    }
    lemma_changes(old, new);
    lemma_replaced_amends(kept, d.modified, true, old, new);
    assert forall|i: int| 0 <= i < kept.len() implies amended(
        #[trigger] kept[i],
        d.modified,
        true,
    ) == brought_forward(kept[i], new) by {
        let k = choose|k: int| 0 <= k < old.len() && old[k] == kept[i];
        lemma_amended_is_new(old, new, k);
    }
    assert(replaced_all(kept, d.modified, true) =~= kept.map_values(
        |n: NodeView| brought_forward(n, new),
    ));
}

/// What taking a difference back gives: the nodes that stayed, then those that come back.
proof fn lemma_reversed(old: Seq<NodeView>, new: Seq<NodeView>, d: DeltaView)
    requires
        told_apart(old),
        told_apart(new),
        d.added == missing_from(new, old),
        d.deleted == missing_from(old, new),
        d.modified == changes(old, new),
    ensures
        reversed(d, applied(d, old)) == common(old, new) + d.deleted,
{
    let kept = common(old, new);
    let p = |n: NodeView| find(new, n.id) is Some;
    let f = |n: NodeView| brought_forward(n, new);
    let b = |n: NodeView| amended(n, d.modified, false);
    let changed = kept.map_values(f);
    lemma_told_apart_clear(old, new);
    lemma_select_members(old, p);
    lemma_select_distinct(old, p);
    lemma_subset_clear(kept, old, old, new);
    lemma_changes(old, new);
    lemma_applied(old, new, d, false);
    lemma_replaced_amends(kept, d.modified, true, old, new);
    assert(replaced_all(kept, d.modified, true) =~= changed);
    lemma_missing(new, old, Seq::empty());
    let q = |n: NodeView| find(d.added, n.id) is None;
    assert forall|i: int| 0 <= i < kept.len() implies (#[trigger] changed[i]).id == kept[i].id by {
        lemma_find(new, kept[i].id);
    }
    let made = changed + d.added;
    assert forall|i: int, k: int| 0 <= i < made.len() && 0 <= k < d.added.len() implies
        !#[trigger] holds_id(made[i].children, d.added[k].id) by {
        let y = choose|y: int| 0 <= y < new.len() && new[y] == d.added[k];
        if i < changed.len() {
            assert(made[i] == changed[i]);
            let n = kept[i];
            assert(p(n));
            lemma_find(new, n.id);
            let t = find(new, n.id)->0;
            let x = choose|x: int| 0 <= x < new.len() && new[x] == t;
            assert(!holds_id(new[x].children, new[y].id));
            if canvas::same_node(n, t) && holds_id(n.children, new[y].id) {
                lemma_same_holds(n, t, new[y].id);
            }
        } else {
            assert(made[i] == d.added[i - changed.len()]);
            let x = choose|x: int| 0 <= x < new.len() && new[x] == made[i];
            assert(!holds_id(new[x].children, new[y].id));
        }
    }
    lemma_removed_selects(made, d.added);
    assert(removed_all(made, d.added) == changed) by {
        lemma_select_append(changed, d.added, q);
        assert forall|i: int| 0 <= i < changed.len() implies q(#[trigger] changed[i]) by {
            let k = choose|k: int| 0 <= k < old.len() && old[k] == kept[i];
            lemma_find_member(old, k);
            lemma_missing(new, old, kept[i].id);
        }
        lemma_select_all(changed, q);
        assert forall|i: int| 0 <= i < d.added.len() implies !q(#[trigger] d.added[i]) by {
            lemma_find_member(d.added, i);
        }
        lemma_select_none(d.added, q);
        assert(changed + Seq::<NodeView>::empty() =~= changed);
    }
    assert forall|i: int, j: int| 0 <= i < j < changed.len() implies (#[trigger] changed[i]).id
        != (#[trigger] changed[j]).id by {
        assert(kept[i].id != kept[j].id);
    }
    lemma_replaced_amends(changed, d.modified, false, old, new);
    assert forall|i: int| 0 <= i < kept.len() implies b(f(#[trigger] kept[i])) == kept[i] by {
        let n = kept[i];
        assert(changed[i].id == n.id);
        let k = choose|k: int| 0 <= k < old.len() && old[k] == n;
        lemma_find_member(old, k);
        lemma_amended_is_new(old, new, k);
        assert forall|k: int|
            0 <= k < d.modified.len() && (#[trigger] d.modified[k]).node_id
                == n.id implies d.modified[k].old == n by {}
        lemma_amended_value(n, n, d.modified, true);
        lemma_amended_value(f(n), n, d.modified, false);
    }
    assert(changed.map_values(b) =~= kept);
}

proof fn lemma_partition(ns: Seq<NodeView>, others: Seq<NodeView>)
    ensures
        common(ns, others).to_multiset().add(missing_from(ns, others).to_multiset())
            == ns.to_multiset(),
        missing_from(ns, others).len() == 0 ==> common(ns, others) == ns,
    decreases ns.len(),
{
    if ns.len() > 0 {
        let init = ns.drop_last();
        lemma_partition(init, others);
        vstd::seq_lib::to_multiset_build(init, ns.last());
        assert(init.push(ns.last()) =~= ns);
        vstd::seq_lib::to_multiset_build(common(init, others), ns.last());
        vstd::seq_lib::to_multiset_build(missing_from(init, others), ns.last());
        assert(common(ns, others).to_multiset().add(missing_from(ns, others).to_multiset())
            =~= ns.to_multiset());
    } else {
        assert(common(ns, others) =~= ns);
        assert(missing_from(ns, others) =~= ns);
        ns.to_multiset_ensures();
        assert(ns.to_multiset().len() == 0);
        assert(ns.to_multiset() =~= vstd::multiset::Multiset::empty());
        assert(common(ns, others).to_multiset().add(missing_from(ns, others).to_multiset())
            =~= ns.to_multiset());
    }
}

/// Taking a difference back after it was made restores the document: every page but the first is
/// as it was, and the first holds the same nodes: those that had stayed, in their old order, then
/// those that had gone. Where none had gone the document is the old one.
pub proof fn law_undo_restores(old: DocumentView, new: DocumentView)
    requires
        comparable(old, new),
    ensures
        ({
            let d = delta_between(old, new);
            let back = with_page_nodes(d, with_page_nodes(d, old, true), false);
            let o = old.pages[0].nodes;
            let n = new.pages[0].nodes;
            &&& back == DocumentView {
                pages: old.pages.update(
                    0,
                    PageView { nodes: common(o, n) + missing_from(o, n), ..old.pages[0] },
                ),
                ..old
            }
            &&& back.pages[0].nodes.to_multiset() == o.to_multiset()
            &&& d.deleted.len() == 0 ==> back == old
        }),
{
    let d = delta_between(old, new);
    let o = old.pages[0].nodes;
    let n = new.pages[0].nodes;
    let made = with_page_nodes(d, old, true);
    let back = with_page_nodes(d, made, false);
    lemma_reversed(o, n, d);
    lemma_partition(o, n);
    vstd::seq_lib::lemma_multiset_commutative(common(o, n), d.deleted);
    assert(made.pages[0].nodes == applied(d, o));
    assert(back.pages =~= old.pages.update(
        0,
        PageView { nodes: common(o, n) + d.deleted, ..old.pages[0] },
    ));
    if d.deleted.len() == 0 {
        assert(common(o, n) + d.deleted =~= o);
        assert(back.pages =~= old.pages);
    }
}

/// Making a difference again after it was taken back gives what making it had given.
pub proof fn law_redo_reapplies(old: DocumentView, new: DocumentView)
    requires
        comparable(old, new),
    ensures
        ({
            let d = delta_between(old, new);
            let made = with_page_nodes(d, old, true);
            with_page_nodes(d, with_page_nodes(d, made, false), true) == made
        }),
{
    let d = delta_between(old, new);
    let o = old.pages[0].nodes;
    let n = new.pages[0].nodes;
    let made = with_page_nodes(d, old, true);
    let back = with_page_nodes(d, made, false);
    lemma_reversed(o, n, d);
    lemma_applied(o, n, d, false);
    lemma_applied(o, n, d, true);
    assert(back.pages[0].nodes == common(o, n) + d.deleted);
    assert(with_page_nodes(d, back, true).pages =~= made.pages);
}

/// The last node with an id in two lists, one after the other.
proof fn lemma_find_append(x: Seq<NodeView>, y: Seq<NodeView>, id: Seq<char>)
    ensures
        find(x + y, id) == match find(y, id) {
            Some(n) => Some(n),
            None => find(x, id),
        },
    decreases y.len(),
{
    if y.len() > 0 {
        assert((x + y).drop_last() =~= x + y.drop_last());
        assert((x + y).last() == y.last());
        lemma_find_append(x, y.drop_last(), id);
    } else {
        assert(x + y =~= x);
    }
}

/// Changes that all lead to one node turn a node into it.
proof fn lemma_amended_forward(m: NodeView, n: NodeView, changes: Seq<ChangeView>)
    requires
        m.id == n.id,
        forall|k: int|
            0 <= k < changes.len() ==> (#[trigger] changes[k]).new.id == changes[k].node_id,
        forall|k: int|
            0 <= k < changes.len() && (#[trigger] changes[k]).node_id == n.id ==> changes[k].new
                == n,
    ensures
        touches(changes, n.id) ==> amended(m, changes, true) == n,
        !touches(changes, n.id) ==> amended(m, changes, true) == m,
    decreases changes.len(),
{
    if changes.len() > 0 {
        let init = changes.drop_last();
        assert(changes.last() == changes[changes.len() - 1]);
        assert forall|k: int| 0 <= k < init.len() implies (#[trigger] init[k]).new.id
            == init[k].node_id by {
            assert(changes[k] == init[k]);
        }
        assert forall|k: int|
            0 <= k < init.len() && (#[trigger] init[k]).node_id == n.id implies init[k].new
            == n by {
            assert(changes[k] == init[k]);
        }
        lemma_amended_forward(m, n, init);
        if touches(init, n.id) {
            let k = choose|k: int| 0 <= k < init.len() && (#[trigger] init[k]).node_id == n.id;
            assert(changes[k].node_id == n.id);
        }
        if touches(changes, n.id) && changes.last().node_id != n.id {
            let k = choose|k: int|
                0 <= k < changes.len() && (#[trigger] changes[k]).node_id == n.id;
            assert(init[k].node_id == n.id);
        }
    }
}

/// A node that differs from the one with its id is spoken of.
proof fn lemma_changes_touch(old: Seq<NodeView>, new: Seq<NodeView>, i: int)
    requires
        0 <= i < new.len(),
        find(old, new[i].id) matches Some(o) && !canvas::same_node(o, new[i]),
    ensures
        touches(changes(old, new), new[i].id),
    decreases new.len(),
{
    let all = changes(old, new);
    let rest = changes(old, new.drop_last());
    if i == new.len() - 1 {
        assert(all[all.len() - 1].node_id == new[i].id);
    } else {
        assert(new.drop_last()[i] == new[i]);
        lemma_changes_touch(old, new.drop_last(), i);
        let k = choose|k: int| 0 <= k < rest.len() && (#[trigger] rest[k]).node_id == new[i].id;
        assert(all[k] == rest[k]);
    }
}

/// Making the difference between two documents gives the nodes of the new one: those that stay, in
/// their old order and as the new document has them, then those that come.
pub proof fn law_difference_leads_to_the_new_nodes(old: DocumentView, new: DocumentView)
    requires
        comparable(old, new),
    ensures
        ({
            let o = old.pages[0].nodes;
            let n = new.pages[0].nodes;
            with_page_nodes(delta_between(old, new), old, true) == DocumentView {
                pages: old.pages.update(
                    0,
                    PageView {
                        nodes: common(o, n).map_values(|m: NodeView| brought_forward(m, n))
                            + missing_from(n, o),
                        ..old.pages[0]
                    },
                ),
                ..old
            }
        }),
{
    lemma_applied(
        old.pages[0].nodes,
        new.pages[0].nodes,
        delta_between(old, new),
        false,
    );
}

/// The ids of the nodes and of all that is inside them.
pub open spec fn ids_in(ns: Seq<NodeView>) -> Seq<Seq<char>>
    decreases ns,
{
    if ns.len() == 0 {
        Seq::empty()
    } else {
        ids_in(ns.drop_last()).push(ns.last().id) + ids_in(ns.last().children)
    }
}

/// Two documents that show the same page, on which, in each, no id occurs twice at any depth.
pub open spec fn distinctly_named(old: DocumentView, new: DocumentView) -> bool {
    &&& old.pages.len() > 0
    &&& new.pages.len() > 0
    &&& old.pages[0].id == new.pages[0].id
    &&& ids_in(old.pages[0].nodes).no_duplicates()
    &&& ids_in(new.pages[0].nodes).no_duplicates()
}

proof fn lemma_ids_in(ns: Seq<NodeView>, id: Seq<char>)
    ensures
        holds_id(ns, id) == ids_in(ns).contains(id),
    decreases ns,
{
    if ns.len() > 0 {
        let init = ns.drop_last();
        let last = ns[ns.len() - 1];
        let a = ids_in(init);
        let b = ids_in(last.children);
        let all = a.push(last.id) + b;
        assert(ids_in(ns) == all);
        lemma_ids_in(init, id);
        lemma_ids_in(last.children, id);
        if holds_id(ns, id) {
            let i = choose|i: int|
                0 <= i < ns.len() && ((#[trigger] ns[i]).id == id || holds_id(
                    ns[i].children,
                    id,
                ));
            if i < init.len() {
                assert(init[i] == ns[i]);
                let k = choose|k: int| 0 <= k < a.len() && a[k] == id;
                assert(all[k] == id);
            } else if last.id == id {
                assert(all[a.len() as int] == id);
            } else {
                let k = choose|k: int| 0 <= k < b.len() && b[k] == id;
                assert(all[a.len() + 1 + k] == id);
            }
        }
        if all.contains(id) {
            let k = choose|k: int| 0 <= k < all.len() && all[k] == id;
            if k < a.len() {
                assert(a[k] == id);
                let i = choose|i: int|
                    0 <= i < init.len() && ((#[trigger] init[i]).id == id || holds_id(
                        init[i].children,
                        id,
                    ));
                assert(ns[i] == init[i]);
            } else if k > a.len() {
                assert(b[k - a.len() - 1] == id);
                assert(holds_id(ns[ns.len() - 1].children, id));
            } else {
                assert(ns[ns.len() - 1].id == id);
            }
        }
    }
}

/// Nodes whose ids are distinct at every depth can be told apart.
pub proof fn law_distinct_ids_tell_apart(ns: Seq<NodeView>)
    requires
        ids_in(ns).no_duplicates(),
    ensures
        told_apart(ns),
    decreases ns.len(),
{
    if ns.len() > 0 {
        let init = ns.drop_last();
        let last = ns[ns.len() - 1];
        let a = ids_in(init);
        let b = ids_in(last.children);
        let all = a.push(last.id) + b;
        assert(ids_in(ns) == all);
        assert forall|i: int, j: int| 0 <= i < a.len() && 0 <= j < a.len() && i != j implies a[i]
            != a[j] by {
            assert(all[i] == a[i] && all[j] == a[j]);
        }
        law_distinct_ids_tell_apart(init);
        assert(all[a.len() as int] == last.id);
        assert forall|id: Seq<char>| a.contains(id) implies id != last.id && !b.contains(id) by {
            let i = choose|i: int| 0 <= i < a.len() && a[i] == id;
            assert(all[i] == id);
            if b.contains(id) {
                let k = choose|k: int| 0 <= k < b.len() && b[k] == id;
                assert(all[a.len() + 1 + k] == id);
            }
        }
        assert(!b.contains(last.id)) by {
            if b.contains(last.id) {
                let k = choose|k: int| 0 <= k < b.len() && b[k] == last.id;
                assert(all[a.len() + 1 + k] == last.id);
            }
        }
        assert forall|i: int| 0 <= i < init.len() implies a.contains((#[trigger] init[i]).id) by {
            assert(holds_id(init, init[i].id));
            lemma_ids_in(init, init[i].id);
        }
        assert forall|i: int, j: int| 0 <= i < j < ns.len() implies (#[trigger] ns[i]).id != (
        #[trigger] ns[j]).id by {
            assert(init[i] == ns[i]);
            if j < init.len() {
                assert(init[j] == ns[j]);
            }
        }
        assert forall|i: int, j: int| 0 <= i < ns.len() && 0 <= j < ns.len() implies !#[trigger]
            holds_id(ns[i].children, ns[j].id) by {
            let id = ns[j].id;
            if i < init.len() {
                assert(init[i] == ns[i]);
                if j < init.len() {
                    assert(init[j] == ns[j]);
                    assert(!holds_id(init[i].children, init[j].id));
                } else if holds_id(ns[i].children, id) {
                    assert(holds_id(init, id));
                    lemma_ids_in(init, id);
                }
            } else {
                lemma_ids_in(last.children, id);
                if j < init.len() {
                    assert(init[j] == ns[j]);
                }
            }
        }
    }
}

/// The new nodes in the order in which making the difference leaves them: those that stayed in
/// their old order, then those that came.
pub open spec fn rearranged(o: Seq<NodeView>, n: Seq<NodeView>) -> Seq<NodeView> {
    common(o, n).map_values(|m: NodeView| find(n, m.id)->0) + missing_from(n, o)
}

/// Each node is the one at the same place in the other list, or equal to it.
pub open spec fn equal_nodes(a: Seq<NodeView>, b: Seq<NodeView>) -> bool {
    a.len() == b.len() && forall|i: int|
        0 <= i < a.len() ==> (#[trigger] a[i] == b[i] || canvas::same_node(a[i], b[i]))
}

proof fn lemma_missing_selects(ns: Seq<NodeView>, others: Seq<NodeView>)
    ensures
        missing_from(ns, others) == select(ns, |n: NodeView| find(others, n.id) is None),
    decreases ns.len(),
{
    if ns.len() > 0 {
        lemma_missing_selects(ns.drop_last(), others);
    }
}

proof fn lemma_rearranged(o: Seq<NodeView>, n: Seq<NodeView>)
    requires
        distinct_ids(o),
        distinct_ids(n),
    ensures
        rearranged(o, n).to_multiset() == n.to_multiset(),
{
    let kept = common(o, n);
    let p = |m: NodeView| find(n, m.id) is Some;
    let q = |m: NodeView| find(o, m.id) is None;
    let stayed = kept.map_values(|m: NodeView| find(n, m.id)->0);
    let came = missing_from(n, o);
    let all = rearranged(o, n);
    lemma_select_members(o, p);
    lemma_select_distinct(o, p);
    lemma_missing_selects(n, o);
    lemma_select_members(n, q);
    lemma_select_distinct(n, q);
    assert forall|i: int| 0 <= i < kept.len() implies (#[trigger] stayed[i]).id == kept[i].id
        && n.contains(stayed[i]) && find(o, kept[i].id) is Some by {
        assert(p(kept[i]));
        lemma_find(n, kept[i].id);
        let k = choose|k: int| 0 <= k < o.len() && o[k] == kept[i];
        lemma_find_member(o, k);
    }
    assert forall|i: int, j: int| 0 <= i < all.len() && 0 <= j < all.len() && i != j implies all[i]
        != all[j] by {
        if i < stayed.len() && j < stayed.len() {
            assert(all[i] == stayed[i] && all[j] == stayed[j]);
            if i < j {
                assert(kept[i].id != kept[j].id);
            } else {
                assert(kept[j].id != kept[i].id);
            }
        } else if i >= stayed.len() && j >= stayed.len() {
            let x = i - stayed.len();
            let y = j - stayed.len();
            assert(all[i] == came[x] && all[j] == came[y]);
            if x < y {
                assert(came[x].id != came[y].id);
            } else {
                assert(came[y].id != came[x].id);
            }
        } else if i < stayed.len() {
            assert(all[i] == stayed[i] && all[j] == came[j - stayed.len()]);
            assert(q(came[j - stayed.len()]));
        } else {
            assert(all[j] == stayed[j] && all[i] == came[i - stayed.len()]);
            assert(q(came[i - stayed.len()]));
        }
    }
    assert forall|i: int, j: int| 0 <= i < n.len() && 0 <= j < n.len() && i != j implies n[i]
        != n[j] by {
        if i < j {
            assert(n[i].id != n[j].id);
        } else {
            assert(n[j].id != n[i].id);
        }
    }
    all.to_multiset_ensures();
    n.to_multiset_ensures();
    all.lemma_multiset_has_no_duplicates();
    n.lemma_multiset_has_no_duplicates();
    assert forall|m: NodeView| all.to_multiset().count(m) == n.to_multiset().count(m) by {
        if all.contains(m) {
            let i = choose|i: int| 0 <= i < all.len() && all[i] == m;
            if i < stayed.len() {
                assert(all[i] == stayed[i]);
            } else {
                assert(all[i] == came[i - stayed.len()]);
            }
        }
        if n.contains(m) {
            let j = choose|j: int| 0 <= j < n.len() && n[j] == m;
            lemma_find_member(n, j);
            lemma_find(o, m.id);
            match find(o, m.id) {
                Some(w) => {
                    lemma_select_finds(o, p, w);
                    let i = choose|i: int| 0 <= i < kept.len() && kept[i] == w;
                    assert(stayed[i] == m);
                    assert(all[i] == m);
                },
                None => {
                    lemma_select_finds(n, q, m);
                    let i = choose|i: int| 0 <= i < came.len() && came[i] == m;
                    assert(all[stayed.len() + i] == m);
                },
            }
        }
        assert(all.to_multiset().contains(m) == all.contains(m));
        assert(n.to_multiset().contains(m) == n.contains(m));
    }
    assert(all.to_multiset() =~= n.to_multiset());
}

/// Making the difference to a new document, on pages whose ids are distinct at every depth, gives
/// the new page's nodes, rearranged: those that stayed in their old order, each in its new version,
/// then those that came. All else of the document is as it was.
pub proof fn law_apply_gives_the_new_page(old: DocumentView, new: DocumentView)
    requires
        distinctly_named(old, new),
    ensures
        ({
            let made = with_page_nodes(delta_between(old, new), old, true);
            let o = old.pages[0].nodes;
            let n = new.pages[0].nodes;
            &&& made == DocumentView {
                pages: old.pages.update(
                    0,
                    PageView { nodes: made.pages[0].nodes, ..old.pages[0] },
                ),
                ..old
            }
            &&& equal_nodes(made.pages[0].nodes, rearranged(o, n))
            &&& rearranged(o, n).to_multiset() == n.to_multiset()
        }),
{
    let o = old.pages[0].nodes;
    let n = new.pages[0].nodes;
    let p = |m: NodeView| find(n, m.id) is Some;
    law_distinct_ids_tell_apart(o);
    law_distinct_ids_tell_apart(n);
    law_difference_leads_to_the_new_nodes(old, new);
    lemma_rearranged(o, n);
    lemma_select_members(o, p);
    let made = with_page_nodes(delta_between(old, new), old, true).pages[0].nodes;
    let kept = common(o, n);
    assert forall|i: int| 0 <= i < made.len() implies (#[trigger] made[i] == rearranged(o, n)[i]
        || canvas::same_node(made[i], rearranged(o, n)[i])) by {
        if i < kept.len() {
            assert(p(kept[i]));
            assert(made[i] == brought_forward(kept[i], n));
        }
    }
}

/// Taking that difference back gives the old page's nodes: those that had stayed in their old
/// order, then those that had gone. All else of the document is as it was, and where no node had
/// gone all of it is.
pub proof fn law_apply_reverse_gives_the_old_page(old: DocumentView, new: DocumentView)
    requires
        distinctly_named(old, new),
    ensures
        ({
            let d = delta_between(old, new);
            let back = with_page_nodes(d, with_page_nodes(d, old, true), false);
            let o = old.pages[0].nodes;
            let n = new.pages[0].nodes;
            &&& back == DocumentView {
                pages: old.pages.update(
                    0,
                    PageView { nodes: common(o, n) + d.deleted, ..old.pages[0] },
                ),
                ..old
            }
            &&& (common(o, n) + d.deleted).to_multiset() == o.to_multiset()
            &&& d.deleted.len() == 0 ==> back == old
        }),
{
    law_distinct_ids_tell_apart(old.pages[0].nodes);
    law_distinct_ids_tell_apart(new.pages[0].nodes);
    law_undo_restores(old, new);
}

/// After the difference between two documents was made, a node is found by an id where the new
/// document has one, and it is that node or equal to it.
pub proof fn law_new_nodes_are_found(old: DocumentView, new: DocumentView, id: Seq<char>)
    requires
        comparable(old, new),
    ensures
        ({
            let made = with_page_nodes(delta_between(old, new), old, true);
            match (find(first_nodes(made), id), find(first_nodes(new), id)) {
                (Some(m), Some(n)) => m == n || canvas::same_node(m, n),
                (None, None) => true,
                _ => false,
            }
        }),
{
    let d = delta_between(old, new);
    let o = old.pages[0].nodes;
    let n = new.pages[0].nodes;
    let kept = common(o, n);
    let p = |m: NodeView| find(n, m.id) is Some;
    let changed = kept.map_values(|m: NodeView| brought_forward(m, n));
    law_difference_leads_to_the_new_nodes(old, new);
    lemma_select_members(o, p);
    lemma_missing(n, o, id);
    lemma_find_append(changed, d.added, id);
    lemma_find(d.added, id);
    lemma_find(changed, id);
    lemma_find(n, id);
    lemma_find(o, id);
    assert forall|i: int| 0 <= i < kept.len() implies (#[trigger] changed[i]).id == kept[i].id by {
        lemma_find(n, kept[i].id);
    }
    match find(d.added, id) {
        Some(a) => {
            let i = choose|i: int| 0 <= i < n.len() && n[i] == a;
            lemma_find_member(n, i);
        },
        None => match find(changed, id) {
            Some(m) => {
                let i = choose|i: int| 0 <= i < changed.len() && changed[i] == m;
                assert(p(kept[i]));
            },
            None => {
                if find(n, id) is Some && find(o, id) is Some {
                    let was = find(o, id)->0;
                    lemma_select_finds(o, p, was);
                    let i = choose|i: int| 0 <= i < kept.len() && kept[i] == was;
                    assert(changed[i].id == id);
                }
            },
        },
    }
}

/// A change the other way.
pub open spec fn turned(c: ChangeView) -> ChangeView {
    ChangeView { node_id: c.node_id, old: c.new, new: c.old }
}

proof fn lemma_changes_hold(old: Seq<NodeView>, new: Seq<NodeView>, i: int)
    requires
        0 <= i < new.len(),
        find(old, new[i].id) matches Some(o) && !canvas::same_node(o, new[i]),
    ensures
        changes(old, new).contains(
            ChangeView { node_id: new[i].id, old: find(old, new[i].id)->0, new: new[i] },
        ),
    decreases new.len(),
{
    let all = changes(old, new);
    let rest = changes(old, new.drop_last());
    let c = ChangeView { node_id: new[i].id, old: find(old, new[i].id)->0, new: new[i] };
    if i == new.len() - 1 {
        assert(all[all.len() - 1] == c);
    } else {
        assert(new.drop_last()[i] == new[i]);
        lemma_changes_hold(old, new.drop_last(), i);
        let k = choose|k: int| 0 <= k < rest.len() && rest[k] == c;
        assert(all[k] == c);
    }
}

proof fn lemma_changes_distinct(old: Seq<NodeView>, new: Seq<NodeView>)
    requires
        distinct_ids(new),
    ensures
        changes(old, new).no_duplicates(),
    decreases new.len(),
{
    if new.len() > 0 {
        let init = new.drop_last();
        assert forall|i: int, j: int| 0 <= i < j < init.len() implies (#[trigger] init[i]).id != (
        #[trigger] init[j]).id by {
            assert(new[i].id != new[j].id);
        }
        lemma_changes_distinct(old, init);
        lemma_changes(old, init);
        let rest = changes(old, init);
        assert forall|k: int| 0 <= k < rest.len() implies (#[trigger] rest[k]).node_id
            != new.last().id by {
            let i = choose|i: int| 0 <= i < init.len() && init[i] == rest[k].new;
            assert(new[i].id != new[new.len() - 1].id);
        }
    }
}

proof fn lemma_turned_is_change(
    old: Seq<NodeView>,
    new: Seq<NodeView>,
    c: ChangeView,
)
    requires
        distinct_ids(old),
        distinct_ids(new),
        changes(old, new).contains(c),
    ensures
        changes(new, old).contains(turned(c)),
{
    lemma_changes(old, new);
    let k = choose|k: int| 0 <= k < changes(old, new).len() && changes(old, new)[k] == c;
    let i = choose|i: int| 0 <= i < old.len() && old[i] == c.old;
    let j = choose|j: int| 0 <= j < new.len() && new[j] == c.new;
    lemma_find_member(new, j);
    if canvas::same_node(c.new, c.old) {
        canvas::law_equality_is_mutual(c.new, c.old);
    }
    lemma_changes_hold(new, old, i);
}

/// The difference from one document to another is that of the way back turned round: what came
/// goes, what went comes, and each change leads back.
pub proof fn law_way_back_is_turned_round(a: DocumentView, b: DocumentView)
    requires
        distinct_ids(first_nodes(a)),
        distinct_ids(first_nodes(b)),
    ensures
        delta_between(b, a).added == delta_between(a, b).deleted,
        delta_between(b, a).deleted == delta_between(a, b).added,
        delta_between(b, a).modified.to_multiset() == delta_between(a, b).modified.map_values(
            |c: ChangeView| turned(c),
        ).to_multiset(),
{
    let x = first_nodes(a);
    let y = first_nodes(b);
    let there = changes(x, y).map_values(|c: ChangeView| turned(c));
    let back = changes(y, x);
    lemma_changes_distinct(x, y);
    lemma_changes_distinct(y, x);
    assert forall|i: int, j: int| 0 <= i < there.len() && 0 <= j < there.len() && i != j implies
        there[i] != there[j] by {
        let l = changes(x, y)[i];
        let r = changes(x, y)[j];
        assert(l != r);
        assert(turned(turned(l)) == l && turned(turned(r)) == r);
    }
    there.to_multiset_ensures();
    back.to_multiset_ensures();
    there.lemma_multiset_has_no_duplicates();
    back.lemma_multiset_has_no_duplicates();
    assert forall|c: ChangeView| there.to_multiset().count(c) == back.to_multiset().count(c) by {
        if there.contains(c) {
            let k = choose|k: int| 0 <= k < there.len() && there[k] == c;
            assert(changes(x, y).contains(changes(x, y)[k]));
            lemma_turned_is_change(x, y, changes(x, y)[k]);
        }
        if back.contains(c) {
            lemma_turned_is_change(y, x, c);
            let k = choose|k: int| 0 <= k < changes(x, y).len() && changes(x, y)[k] == turned(c);
            assert(there[k] == c);
        }
        assert(there.to_multiset().contains(c) == there.contains(c));
        assert(back.to_multiset().contains(c) == back.contains(c));
    }
    assert(there.to_multiset() =~= back.to_multiset());
}

/// A document does not differ from itself.
pub proof fn law_no_difference_to_itself(a: DocumentView)
    requires
        distinct_ids(first_nodes(a)),
        forall|i: int|
            0 <= i < first_nodes(a).len() ==> canvas::holds_numbers(#[trigger] first_nodes(a)[i]),
    ensures
        delta_between(a, a).added.len() == 0,
        delta_between(a, a).deleted.len() == 0,
        delta_between(a, a).modified.len() == 0,
{
    let ns = first_nodes(a);
    lemma_missing(ns, ns, Seq::empty());
    lemma_changes(ns, ns);
    let m = missing_from(ns, ns);
    if m.len() > 0 {
        let i = choose|i: int| 0 <= i < ns.len() && ns[i] == m[0];
        lemma_find_member(ns, i);
    }
    let c = changes(ns, ns);
    if c.len() > 0 {
        let i = choose|i: int| 0 <= i < ns.len() && ns[i] == c[0].new;
        lemma_find_member(ns, i);
        canvas::law_node_equals_itself(ns[i]);
    }
}

/// After a push, undo goes back one difference and redo makes it again; a push leaves nothing to
/// redo, and at no time are there more differences to undo than the limit.
pub proof fn law_stack_moves(s: StackView, d: DeltaView)
    requires
        s.undo.len() <= MAX_UNDO_LEVELS,
    ensures
        stack_pushed(s, d).redo.len() == 0,
        stack_pushed(s, d).undo.len() <= MAX_UNDO_LEVELS,
        stack_pushed(s, d).undo.last() == d,
        stack_undone(stack_pushed(s, d)).current == with_page_nodes(
            d,
            with_page_nodes(d, s.current, true),
            false,
        ),
        stack_redone(stack_undone(stack_pushed(s, d))).undo == stack_pushed(s, d).undo,
        stack_redone(stack_undone(stack_pushed(s, d))).redo == stack_pushed(s, d).redo,
{
    let p = stack_pushed(s, d);
    assert(p.undo.last() == d);
    assert(p.undo.drop_last().push(d) =~= p.undo);
    assert(stack_undone(p).redo.drop_last() =~= p.redo);
}

/// Where there are too many differences the oldest leaves, and all others stay in their order.
pub proof fn law_oldest_difference_leaves(undo: Seq<DeltaView>, d: DeltaView)
    ensures
        pushed(undo, d).last() == d,
        undo.len() < MAX_UNDO_LEVELS ==> pushed(undo, d).drop_last() == undo,
        undo.len() == MAX_UNDO_LEVELS ==> pushed(undo, d).drop_last() == undo.skip(1),
{
    if undo.len() < MAX_UNDO_LEVELS {
        assert(pushed(undo, d).drop_last() =~= undo);
    } else if undo.len() == MAX_UNDO_LEVELS {
        assert(pushed(undo, d).drop_last() =~= undo.skip(1));
    }
}

/// With nothing to undo or to redo nothing changes; else the last difference moves from the one list
/// to the other.
pub proof fn law_differences_move_between_the_lists(s: StackView)
    ensures
        s.undo.len() == 0 ==> stack_undone(s) == s,
        s.redo.len() == 0 ==> stack_redone(s) == s,
        s.undo.len() > 0 ==> stack_undone(s).undo == s.undo.drop_last() && stack_undone(
            s,
        ).redo.last() == s.undo.last() && stack_undone(s).redo.drop_last() == s.redo,
        s.redo.len() > 0 ==> stack_redone(s).redo == s.redo.drop_last() && stack_redone(
            s,
        ).undo.last() == s.redo.last() && stack_redone(s).undo.drop_last() == s.undo,
{
    if s.undo.len() > 0 {
        assert(stack_undone(s).redo.drop_last() =~= s.redo);
    }
    if s.redo.len() > 0 {
        assert(stack_redone(s).undo.drop_last() =~= s.undo);
    }
}

} // verus!
