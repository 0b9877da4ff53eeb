//! The design document: pages of nodes, each with a style and a layout.

use vstd::prelude::*;

use crate::num;
use crate::num::{num_eq, Num, NumView};
use crate::text;
use crate::text::same;

verus! {

/// What a node draws.
#[derive(Debug, Clone, Copy, PartialEq, Eq, Structural)]
pub enum NodeKind {
    Rect,
    Circle,
    Text,
    Image,
    Group,
}

/// The axis along which a flex container lays out its children.
#[derive(Debug, Clone, Copy, PartialEq, Eq, Structural)]
pub enum FlexDirection {
    Row,
    RowReverse,
    Column,
    ColumnReverse,
}

/// How children stand across the main axis.
#[derive(Debug, Clone, Copy, PartialEq, Eq, Structural)]
pub enum AlignItems {
    Start,
    Center,
    End,
    Stretch,
}

/// How children are spread along the main axis.
#[derive(Debug, Clone, Copy, PartialEq, Eq, Structural)]
pub enum JustifyContent {
    Start,
    Center,
    End,
    SpaceBetween,
    SpaceAround,
    SpaceEvenly,
}

/// Whether children may stand on more than one line.
#[derive(Debug, Clone, Copy, PartialEq, Eq, Structural)]
pub enum FlexWrap {
    NoWrap,
    Wrap,
}

/// The space between a container's edge and its children.
#[derive(Debug)]
pub struct Padding {
    pub top: Num,
    pub right: Num,
    pub bottom: Num,
    pub left: Num,
}

/// A flex container.
#[derive(Debug)]
pub struct FlexParams {
    pub direction: FlexDirection,
    pub gap: Num,
    pub align_items: AlignItems,
    pub justify_content: JustifyContent,
    pub wrap: FlexWrap,
    pub padding: Padding,
}

/// The size of one grid track.
#[derive(Debug)]
pub enum TrackSizing {
    Fixed(Num),
    Auto,
    Flex(Num),
    Percent(Num),
}

/// A grid container; the gap is that between columns, then that between rows.
#[derive(Debug)]
pub struct GridParams {
    pub columns: Vec<TrackSizing>,
    pub rows: Vec<TrackSizing>,
    pub gap: (Num, Num),
}

/// How a node places its children.
#[derive(Debug)]
pub enum LayoutMode {
    Free,
    Flex(FlexParams),
    Grid(GridParams),
}

/// How a node looks. A token reference names, for a style attribute, the design token behind it.
#[derive(Debug)]
pub struct NodeStyle {
    pub fill: Option<String>,
    pub stroke: Option<String>,
    pub stroke_width: Option<Num>,
    pub radius: Option<Num>,
    pub opacity: Option<Num>,
    pub font_size: Option<Num>,
    pub font_family: Option<String>,
    pub layout: LayoutMode,
    pub design_token_refs: Vec<(String, String)>,
}

/// What arithmetic on a node's numbers gives: the far edges of its box, the width that its text
/// needs, what is left of its rotation after whole steps of fifteen degrees, the rotation with one
/// decimal, the contrast between its fill and that of the node around it (whose text has one decimal
/// too), the middle of its box and half of the shorter side.
#[derive(Debug)]
pub struct Measure {
    pub right: Num,
    pub bottom: Num,
    pub text_width: Num,
    pub rotation_rest: Num,
    pub rotation_label: String,
    pub contrast: Num,
    pub center_x: Num,
    pub center_y: Num,
    pub half_side: Num,
}

/// A node of the drawing, with the nodes inside it.
#[derive(Debug)]
pub struct PenNode {
    pub id: String,
    pub kind: NodeKind,
    pub name: String,
    pub x: Num,
    pub y: Num,
    pub w: Num,
    pub h: Num,
    pub style: NodeStyle,
    pub text: Option<String>,
    pub children: Vec<PenNode>,
    pub rotation: Num,
    pub z_index: i32,
    pub measure: Measure,
}

/// One page.
#[derive(Debug)]
pub struct Page {
    pub id: String,
    pub name: String,
    pub width: Num,
    pub height: Num,
    pub nodes: Vec<PenNode>,
}

/// A whole document.
#[derive(Debug)]
pub struct PenDocument {
    pub schema_version: u32,
    pub pages: Vec<Page>,
    pub active_design_system: Option<String>,
}

// ---------------------------------------------------------------------------
// What they hold
// ---------------------------------------------------------------------------

/// What a `Padding` holds.
pub struct PaddingView {
    pub top: NumView,
    pub right: NumView,
    pub bottom: NumView,
    pub left: NumView,
}

/// What a `FlexParams` holds.
pub struct FlexView {
    pub direction: FlexDirection,
    pub gap: NumView,
    pub align_items: AlignItems,
    pub justify_content: JustifyContent,
    pub wrap: FlexWrap,
    pub padding: PaddingView,
}

/// What a `TrackSizing` holds.
pub enum TrackView {
    Fixed(NumView),
    Auto,
    Flex(NumView),
    Percent(NumView),
}

/// What a `GridParams` holds.
#[verifier::ext_equal]
pub struct GridView {
    pub columns: Seq<TrackView>,
    pub rows: Seq<TrackView>,
    pub column_gap: NumView,
    pub row_gap: NumView,
}

/// What a `LayoutMode` holds.
#[verifier::ext_equal]
pub enum LayoutView {
    Free,
    Flex(FlexView),
    Grid(GridView),
}

/// What a `NodeStyle` holds.
#[verifier::ext_equal]
pub struct StyleView {
    pub fill: Option<Seq<char>>,
    pub stroke: Option<Seq<char>>,
    pub stroke_width: Option<NumView>,
    pub radius: Option<NumView>,
    pub opacity: Option<NumView>,
    pub font_size: Option<NumView>,
    pub font_family: Option<Seq<char>>,
    pub layout: LayoutView,
    pub refs: Seq<(Seq<char>, Seq<char>)>,
}

/// What a `Measure` holds.
#[verifier::ext_equal]
pub struct MeasureView {
    pub right: NumView,
    pub bottom: NumView,
    pub text_width: NumView,
    pub rotation_rest: NumView,
    pub rotation_label: Seq<char>,
    pub contrast: NumView,
    pub center_x: NumView,
    pub center_y: NumView,
    pub half_side: NumView,
}

/// What a `PenNode` holds.
#[verifier::ext_equal]
pub struct NodeView {
    pub id: Seq<char>,
    pub kind: NodeKind,
    pub name: Seq<char>,
    pub x: NumView,
    pub y: NumView,
    pub w: NumView,
    pub h: NumView,
    pub style: StyleView,
    pub text: Option<Seq<char>>,
    pub children: Seq<NodeView>,
    pub rotation: NumView,
    pub z_index: i32,
    pub measure: MeasureView,
}

/// What a `Page` holds.
#[verifier::ext_equal]
pub struct PageView {
    pub id: Seq<char>,
    pub name: Seq<char>,
    pub width: NumView,
    pub height: NumView,
    pub nodes: Seq<NodeView>,
}

/// What a `PenDocument` holds.
#[verifier::ext_equal]
pub struct DocumentView {
    pub schema_version: u32,
    pub pages: Seq<PageView>,
    pub active_design_system: Option<Seq<char>>,
}

pub open spec fn opt_num(o: Option<Num>) -> Option<NumView> {
    match o {
        Some(n) => Some(n@),
        None => None,
    }
}

impl Padding {
    pub open spec fn view(&self) -> PaddingView {
        PaddingView {
            top: self.top@,
            right: self.right@,
            bottom: self.bottom@,
            left: self.left@,
        }
    }
}

impl FlexParams {
    pub open spec fn view(&self) -> FlexView {
        FlexView {
            direction: self.direction,
            gap: self.gap@,
            align_items: self.align_items,
            justify_content: self.justify_content,
            wrap: self.wrap,
            padding: self.padding@,
        }
    }
}

impl TrackSizing {
    pub open spec fn view(&self) -> TrackView {
        match *self {
            TrackSizing::Fixed(n) => TrackView::Fixed(n@),
            TrackSizing::Auto => TrackView::Auto,
            TrackSizing::Flex(n) => TrackView::Flex(n@),
            TrackSizing::Percent(n) => TrackView::Percent(n@),
        }
    }
}

pub open spec fn track_views(s: Seq<TrackSizing>) -> Seq<TrackView> {
    s.map_values(|t: TrackSizing| t@)
}

impl GridParams {
    pub open spec fn view(&self) -> GridView {
        GridView {
            columns: track_views(self.columns@),
            rows: track_views(self.rows@),
            column_gap: self.gap.0@,
            row_gap: self.gap.1@,
        }
    }
}

impl LayoutMode {
    pub open spec fn view(&self) -> LayoutView {
        match *self {
            LayoutMode::Free => LayoutView::Free,
            LayoutMode::Flex(p) => LayoutView::Flex(p@),
            LayoutMode::Grid(g) => LayoutView::Grid(g@),
        }
    }
}

pub open spec fn pair_views(s: Seq<(String, String)>) -> Seq<(Seq<char>, Seq<char>)> {
    s.map_values(|p: (String, String)| (p.0@, p.1@))
}

impl NodeStyle {
    pub open spec fn view(&self) -> StyleView {
        StyleView {
            fill: text::opt_text(self.fill),
            stroke: text::opt_text(self.stroke),
            stroke_width: opt_num(self.stroke_width),
            radius: opt_num(self.radius),
            opacity: opt_num(self.opacity),
            font_size: opt_num(self.font_size),
            font_family: text::opt_text(self.font_family),
            layout: self.layout@,
            refs: pair_views(self.design_token_refs@),
        }
    }
}

impl Measure {
    pub open spec fn view(&self) -> MeasureView {
        MeasureView {
            right: self.right@,
            bottom: self.bottom@,
            text_width: self.text_width@,
            rotation_rest: self.rotation_rest@,
            rotation_label: self.rotation_label@,
            contrast: self.contrast@,
            center_x: self.center_x@,
            center_y: self.center_y@,
            half_side: self.half_side@,
        }
    }
}

impl PenNode {
    pub open spec fn view(&self) -> NodeView
        decreases self,
    {
        NodeView {
            id: self.id@,
            kind: self.kind,
            name: self.name@,
            x: self.x@,
            y: self.y@,
            w: self.w@,
            h: self.h@,
            style: self.style@,
            text: text::opt_text(self.text),
            children: node_views(self.children@),
            rotation: self.rotation@,
            z_index: self.z_index,
            measure: self.measure@,
        }
    }
}

/// What the nodes hold, one by one.
pub open spec fn node_views(s: Seq<PenNode>) -> Seq<NodeView>
    decreases s,
{
    Seq::new(
        s.len(),
        |i: int|
            if 0 <= i < s.len() {
                s[i].view()
            } else {
                arbitrary()
            },
    )
}

impl Page {
    pub open spec fn view(&self) -> PageView {
        PageView {
            id: self.id@,
            name: self.name@,
            width: self.width@,
            height: self.height@,
            nodes: node_views(self.nodes@),
        }
    }
}

pub open spec fn page_views(s: Seq<Page>) -> Seq<PageView> {
    s.map_values(|p: Page| p@)
}

impl PenDocument {
    pub open spec fn view(&self) -> DocumentView {
        DocumentView {
            schema_version: self.schema_version,
            pages: page_views(self.pages@),
            active_design_system: text::opt_text(self.active_design_system),
        }
    }
}

/// How many nodes there are, at all depths.
pub open spec fn node_count(ns: Seq<NodeView>) -> nat
    decreases ns,
{
    if ns.len() == 0 {
        0
    } else {
        node_count(ns.drop_last()) + 1 + node_count(ns.last().children)
    }
}

/// How many levels of nodes there are: none without nodes, one where no node holds another.
pub open spec fn levels(ns: Seq<NodeView>) -> nat
    decreases ns,
{
    if ns.len() == 0 {
        0
    } else {
        let rest = levels(ns.drop_last());
        let last = 1 + levels(ns.last().children);
        if last > rest {
            last
        } else {
            rest
        }
    }
}

/// How many levels of nodes the page with the most of them has.
pub open spec fn page_levels(ps: Seq<PageView>) -> nat
    decreases ps.len(),
{
    if ps.len() == 0 {
        0
    } else {
        let rest = page_levels(ps.drop_last());
        let last = levels(ps.last().nodes);
        if last > rest {
            last
        } else {
            rest
        }
    }
}

/// How many nodes there are on all pages.
pub open spec fn page_nodes(ps: Seq<PageView>) -> nat
    decreases ps.len(),
{
    if ps.len() == 0 {
        0
    } else {
        page_nodes(ps.drop_last()) + node_count(ps.last().nodes)
    }
}

/// Why a document is not taken in: its nodes are nested too deeply, or there are too many.
pub open spec fn limit_fault(d: DocumentView) -> Option<CanvasError> {
    if page_levels(d.pages) > MAX_NODE_DEPTH {
        Some(CanvasError::DepthExceeded)
    } else if page_nodes(d.pages) > MAX_NODES {
        Some(CanvasError::NodeTotalExceeded)
    } else {
        None
    }
}

// ---------------------------------------------------------------------------
// Limits
// ---------------------------------------------------------------------------

/// The most levels that the nodes of a document may be nested in.
pub const MAX_NODE_DEPTH: usize = 64;

/// The most nodes that a document may hold.
pub const MAX_NODES: usize = 100_000;

/// What can be wrong with a document.
#[derive(Debug, Clone, Copy, PartialEq, Eq, Structural)]
pub enum CanvasError {
    NodeNotFound,
    PageNotFound,
    ParseError,
    DepthExceeded,
    NodeTotalExceeded,
    SchemaVersion,
}

proof fn lemma_levels_grow(ns: Seq<NodeView>, i: int)
    requires
        0 <= i < ns.len(),
    ensures
        levels(ns) >= 1 + levels(ns[i].children),
    decreases ns.len(),
{
    if i < ns.len() - 1 {
        lemma_levels_grow(ns.drop_last(), i);
        assert(ns.drop_last()[i] == ns[i]);
    }
}

fn deeper_than(nodes: &Vec<PenNode>, limit: usize) -> (r: bool)
    ensures
        r == (levels(node_views(nodes@)) > limit),
    decreases limit,
{
    let ghost views = node_views(nodes@);
    if limit == 0 {
        proof {
            if views.len() > 0 {
                lemma_levels_grow(views, 0);
            }
        }
        return nodes.len() > 0;
    }
    let mut i: usize = 0;
    while i < nodes.len()
        invariant
            i <= nodes@.len(),
            limit > 0,
            views == node_views(nodes@),
            levels(views.take(i as int)) <= limit,
        decreases nodes.len() - i,
    {
        proof {
            text::lemma_take_step(views, i as int);
            lemma_levels_grow(views, i as int);
        }
        if deeper_than(&nodes[i].children, limit - 1) {
            return true;
        }
        i = i + 1;
    }
    proof {
        text::lemma_take_all(views);
    }
    false
}

proof fn lemma_count_grows(ns: Seq<NodeView>, i: int)
    requires
        0 <= i <= ns.len(),
    ensures
        node_count(ns.take(i)) <= node_count(ns),
    decreases ns.len() - i,
{
    if i < ns.len() {
        lemma_count_grows(ns, i + 1);
        text::lemma_take_step(ns, i);
    } else {
        text::lemma_take_all(ns);
    }
}

/// What is left of the room after the nodes took theirs; `None` where it does not suffice.
fn room_after(nodes: &Vec<PenNode>, room: usize) -> (r: Option<usize>)
    ensures
        match r {
            Some(left) => node_count(node_views(nodes@)) + left == room,
            None => node_count(node_views(nodes@)) > room,
        },
    decreases room,
{
    let ghost views = node_views(nodes@);
    let mut left: usize = room;
    let mut i: usize = 0;
    while i < nodes.len()
        invariant
            i <= nodes@.len(),
            left <= room,
            views == node_views(nodes@),
            node_count(views.take(i as int)) + left == room,
        decreases nodes.len() - i,
    {
        proof {
            text::lemma_take_step(views, i as int);
            lemma_count_grows(views, i + 1);
        }
        if left == 0 {
            return None;
        }
        match room_after(&nodes[i].children, left - 1) {
            Some(l) => left = l,
            None => return None,
        }
        i = i + 1;
    }
    proof {
        text::lemma_take_all(views);
    }
    Some(left)
}

proof fn lemma_pages_grow(ps: Seq<PageView>, i: int)
    requires
        0 <= i <= ps.len(),
    ensures
        page_levels(ps.take(i)) <= page_levels(ps),
        page_nodes(ps.take(i)) <= page_nodes(ps),
    decreases ps.len() - i,
{
    if i < ps.len() {
        lemma_pages_grow(ps, i + 1);
        text::lemma_take_step(ps, i);
    } else {
        text::lemma_take_all(ps);
    }
}

/// Refuses a document whose nodes are nested too deeply, or that holds too many.
pub fn check_limits(doc: &PenDocument) -> (r: Result<(), CanvasError>)
    ensures
        match limit_fault(doc@) {
            Some(e) => r == Err::<(), CanvasError>(e),
            None => r is Ok,
        },
{
    let ghost views = doc@.pages;
    let mut i: usize = 0;
    while i < doc.pages.len()
        invariant
            i <= doc.pages@.len(),
            views == doc@.pages,
            page_levels(views.take(i as int)) <= MAX_NODE_DEPTH,
        decreases doc.pages.len() - i,
    {
        proof {
            text::lemma_take_step(views, i as int);
            lemma_pages_grow(views, i + 1);
            assert(views[i as int] == doc.pages@[i as int]@);
        }
        if deeper_than(&doc.pages[i].nodes, MAX_NODE_DEPTH) {
            return Err(CanvasError::DepthExceeded);
        }
        i = i + 1;
    }
    proof {
        text::lemma_take_all(views);
    }
    let mut left: usize = MAX_NODES;
    let mut j: usize = 0;
    while j < doc.pages.len()
        invariant
            j <= doc.pages@.len(),
            views == doc@.pages,
            page_levels(views) <= MAX_NODE_DEPTH,
            page_nodes(views.take(j as int)) + left == MAX_NODES,
        decreases doc.pages.len() - j,
    {
        proof {
            text::lemma_take_step(views, j as int);
            lemma_pages_grow(views, j + 1);
            assert(views[j as int] == doc.pages@[j as int]@);
        }
        match room_after(&doc.pages[j].nodes, left) {
            Some(l) => left = l,
            None => return Err(CanvasError::NodeTotalExceeded),
        }
        j = j + 1;
    }
    proof {
        text::lemma_take_all(views);
    }
    Ok(())
}

/// A document that is taken in holds no node that is nested too deeply, on any page.
pub proof fn law_accepted_document_is_shallow(d: DocumentView, i: int)
    requires
        limit_fault(d) is None,
        0 <= i < d.pages.len(),
    ensures
        levels(d.pages[i].nodes) <= MAX_NODE_DEPTH,
        node_count(d.pages[i].nodes) <= MAX_NODES,
{
    lemma_pages_grow(d.pages, i + 1);
    text::lemma_take_step(d.pages, i);
}

// ---------------------------------------------------------------------------
// Copies
// ---------------------------------------------------------------------------

/// A copy of an optional number.
pub fn clone_opt_num(o: &Option<Num>) -> (r: Option<Num>)
    ensures
        opt_num(r) == opt_num(*o),
{
    match o {
        Some(n) => Some(n.copy()),
        None => None,
    }
}

/// A copy of an optional string.
pub fn clone_opt_text(o: &Option<String>) -> (r: Option<String>)
    ensures
        r == *o,
{
    match o {
        Some(s) => Some(s.clone()),
        None => None,
    }
}

/// A copy of a list of pairs.
pub fn clone_pairs(v: &Vec<(String, String)>) -> (r: Vec<(String, String)>)
    ensures
        r@ == v@,
{
    let mut out: Vec<(String, String)> = Vec::new();
    let mut i: usize = 0;
    while i < v.len()
        invariant
            i <= v@.len(),
            out@ == v@.take(i as int),
        decreases v.len() - i,
    {
        out.push((v[i].0.clone(), v[i].1.clone()));
        proof {
            text::lemma_take_step(v@, i as int);
        }
        i = i + 1;
    }
    proof {
        text::lemma_take_all(v@);
    }
    out
}

impl Clone for Padding {
    fn clone(&self) -> (r: Self)
        ensures
            r@ == self@,
    {
        Padding {
            top: self.top.copy(),
            right: self.right.copy(),
            bottom: self.bottom.copy(),
            left: self.left.copy(),
        }
    }
}

impl Clone for FlexParams {
    fn clone(&self) -> (r: Self)
        ensures
            r@ == self@,
    {
        FlexParams {
            direction: self.direction,
            gap: self.gap.copy(),
            align_items: self.align_items,
            justify_content: self.justify_content,
            wrap: self.wrap,
            padding: self.padding.clone(),
        }
    }
}

impl Clone for TrackSizing {
    fn clone(&self) -> (r: Self)
        ensures
            r@ == self@,
    {
        match self {
            TrackSizing::Fixed(n) => TrackSizing::Fixed(n.copy()),
            TrackSizing::Auto => TrackSizing::Auto,
            TrackSizing::Flex(n) => TrackSizing::Flex(n.copy()),
            TrackSizing::Percent(n) => TrackSizing::Percent(n.copy()),
        }
    }
}

fn clone_tracks(v: &Vec<TrackSizing>) -> (r: Vec<TrackSizing>)
    ensures
        track_views(r@) == track_views(v@),
{
    let mut out: Vec<TrackSizing> = Vec::new();
    let mut i: usize = 0;
    while i < v.len()
        invariant
            i <= v@.len(),
            track_views(out@) == track_views(v@).take(i as int),
        decreases v.len() - i,
    {
        out.push(v[i].clone());
        proof {
            text::lemma_take_step(track_views(v@), i as int);
            assert(track_views(out@) =~= track_views(v@).take(i + 1));
        }
        i = i + 1;
    }
    proof {
        text::lemma_take_all(track_views(v@));
    }
    out
}

impl Clone for GridParams {
    fn clone(&self) -> (r: Self)
        ensures
            r@ == self@,
    {
        GridParams {
            columns: clone_tracks(&self.columns),
            rows: clone_tracks(&self.rows),
            gap: (self.gap.0.copy(), self.gap.1.copy()),
        }
    }
}

impl Clone for LayoutMode {
    fn clone(&self) -> (r: Self)
        ensures
            r@ == self@,
    {
        match self {
            LayoutMode::Free => LayoutMode::Free,
            LayoutMode::Flex(p) => LayoutMode::Flex(p.clone()),
            LayoutMode::Grid(g) => LayoutMode::Grid(g.clone()),
        }
    }
}

impl Clone for NodeStyle {
    fn clone(&self) -> (r: Self)
        ensures
            r@ == self@,
    {
        NodeStyle {
            fill: clone_opt_text(&self.fill),
            stroke: clone_opt_text(&self.stroke),
            stroke_width: clone_opt_num(&self.stroke_width),
            radius: clone_opt_num(&self.radius),
            opacity: clone_opt_num(&self.opacity),
            font_size: clone_opt_num(&self.font_size),
            font_family: clone_opt_text(&self.font_family),
            layout: self.layout.clone(),
            design_token_refs: clone_pairs(&self.design_token_refs),
        }
    }
}

impl Clone for Measure {
    fn clone(&self) -> (r: Self)
        ensures
            r@ == self@,
    {
        Measure {
            right: self.right.copy(),
            bottom: self.bottom.copy(),
            text_width: self.text_width.copy(),
            rotation_rest: self.rotation_rest.copy(),
            rotation_label: self.rotation_label.clone(),
            contrast: self.contrast.copy(),
            center_x: self.center_x.copy(),
            center_y: self.center_y.copy(),
            half_side: self.half_side.copy(),
        }
    }
}

impl PenNode {
    /// A copy of the node and of all that is inside it.
    pub fn copy(&self) -> (r: PenNode)
        ensures
            r@ == self@,
        decreases self,
    {
        let mut children: Vec<PenNode> = Vec::new();
        let mut i: usize = 0;
        while i < self.children.len()
            invariant
                i <= self.children@.len(),
                node_views(children@) == node_views(self.children@).take(i as int),
            decreases self.children.len() - i,
        {
            let child = self.children[i].copy();
            children.push(child);
            proof {
                text::lemma_take_step(node_views(self.children@), i as int);
                assert(node_views(children@) =~= node_views(self.children@).take(i + 1));
            }
            i = i + 1;
        }
        proof {
            text::lemma_take_all(node_views(self.children@));
        }
        PenNode {
            id: self.id.clone(),
            kind: self.kind,
            name: self.name.clone(),
            x: self.x.copy(),
            y: self.y.copy(),
            w: self.w.copy(),
            h: self.h.copy(),
            style: self.style.clone(),
            text: clone_opt_text(&self.text),
            children,
            rotation: self.rotation.copy(),
            z_index: self.z_index,
            measure: self.measure.clone(),
        }
    }
}

impl Clone for PenNode {
    fn clone(&self) -> (r: Self)
        ensures
            r@ == self@,
    {
        self.copy()
    }
}

/// A copy of a list of nodes.
pub fn clone_nodes(v: &Vec<PenNode>) -> (r: Vec<PenNode>)
    ensures
        node_views(r@) == node_views(v@),
{
    let mut out: Vec<PenNode> = Vec::new();
    let mut i: usize = 0;
    while i < v.len()
        invariant
            i <= v@.len(),
            node_views(out@) == node_views(v@).take(i as int),
        decreases v.len() - i,
    {
        out.push(v[i].copy());
        proof {
            text::lemma_take_step(node_views(v@), i as int);
            assert(node_views(out@) =~= node_views(v@).take(i + 1));
        }
        i = i + 1;
    }
    proof {
        text::lemma_take_all(node_views(v@));
    }
    out
}

impl Clone for Page {
    fn clone(&self) -> (r: Self)
        ensures
            r@ == self@,
    {
        Page {
            id: self.id.clone(),
            name: self.name.clone(),
            width: self.width.copy(),
            height: self.height.copy(),
            nodes: clone_nodes(&self.nodes),
        }
    }
}

impl Clone for PenDocument {
    fn clone(&self) -> (r: Self)
        ensures
            r@ == self@,
    {
        let mut pages: Vec<Page> = Vec::new();
        let mut i: usize = 0;
        while i < self.pages.len()
            invariant
                i <= self.pages@.len(),
                page_views(pages@) == page_views(self.pages@).take(i as int),
            decreases self.pages.len() - i,
        {
            pages.push(self.pages[i].clone());
            proof {
                text::lemma_take_step(page_views(self.pages@), i as int);
                assert(page_views(pages@) =~= page_views(self.pages@).take(i + 1));
            }
            i = i + 1;
        }
        proof {
            text::lemma_take_all(page_views(self.pages@));
        }
        PenDocument {
            schema_version: self.schema_version,
            pages,
            active_design_system: clone_opt_text(&self.active_design_system),
        }
    }
}

// ---------------------------------------------------------------------------
// Equality
// ---------------------------------------------------------------------------

/// The numbers are equal, or neither is there.
pub open spec fn same_opt_num(a: Option<NumView>, b: Option<NumView>) -> bool {
    match (a, b) {
        (Some(x), Some(y)) => num::equal(x.bits, y.bits),
        (None, None) => true,
        _ => false,
    }
}

/// The lists hold the same pairs; the order does not matter.
pub open spec fn same_pairs(
    a: Seq<(Seq<char>, Seq<char>)>,
    b: Seq<(Seq<char>, Seq<char>)>,
) -> bool {
    &&& a.len() == b.len()
    &&& forall|i: int| 0 <= i < a.len() ==> b.contains(#[trigger] a[i])
    &&& forall|i: int| 0 <= i < b.len() ==> a.contains(#[trigger] b[i])
}

pub open spec fn same_track(a: TrackView, b: TrackView) -> bool {
    match (a, b) {
        (TrackView::Fixed(x), TrackView::Fixed(y)) => num::equal(x.bits, y.bits),
        (TrackView::Auto, TrackView::Auto) => true,
        (TrackView::Flex(x), TrackView::Flex(y)) => num::equal(x.bits, y.bits),
        (TrackView::Percent(x), TrackView::Percent(y)) => num::equal(x.bits, y.bits),
        _ => false,
    }
}

pub open spec fn same_tracks(a: Seq<TrackView>, b: Seq<TrackView>) -> bool {
    a.len() == b.len() && forall|i: int|
        0 <= i < a.len() ==> #[trigger] same_track(a[i], b[i])
}

pub open spec fn same_layout(a: LayoutView, b: LayoutView) -> bool {
    match (a, b) {
        (LayoutView::Free, LayoutView::Free) => true,
        (LayoutView::Flex(p), LayoutView::Flex(q)) => {
            &&& p.direction == q.direction
            &&& num::equal(p.gap.bits, q.gap.bits)
            &&& p.align_items == q.align_items
            &&& p.justify_content == q.justify_content
            &&& p.wrap == q.wrap
            &&& num::equal(p.padding.top.bits, q.padding.top.bits)
            &&& num::equal(p.padding.right.bits, q.padding.right.bits)
            &&& num::equal(p.padding.bottom.bits, q.padding.bottom.bits)
            &&& num::equal(p.padding.left.bits, q.padding.left.bits)
        },
        (LayoutView::Grid(g), LayoutView::Grid(h)) => {
            &&& same_tracks(g.columns, h.columns)
            &&& same_tracks(g.rows, h.rows)
            &&& num::equal(g.column_gap.bits, h.column_gap.bits)
            &&& num::equal(g.row_gap.bits, h.row_gap.bits)
        },
        _ => false,
    }
}

pub open spec fn same_style(a: StyleView, b: StyleView) -> bool {
    &&& a.fill == b.fill
    &&& a.stroke == b.stroke
    &&& same_opt_num(a.stroke_width, b.stroke_width)
    &&& same_opt_num(a.radius, b.radius)
    &&& same_opt_num(a.opacity, b.opacity)
    &&& same_opt_num(a.font_size, b.font_size)
    &&& a.font_family == b.font_family
    &&& same_layout(a.layout, b.layout)
    &&& same_pairs(a.refs, b.refs)
}

/// The nodes are equal, leaving out what stands inside them; measures follow from the rest.
pub open spec fn same_surface(a: NodeView, b: NodeView) -> bool {
    &&& a.id == b.id
    &&& a.kind == b.kind
    &&& a.name == b.name
    &&& num::equal(a.x.bits, b.x.bits)
    &&& num::equal(a.y.bits, b.y.bits)
    &&& num::equal(a.w.bits, b.w.bits)
    &&& num::equal(a.h.bits, b.h.bits)
    &&& same_style(a.style, b.style)
    &&& a.text == b.text
    &&& num::equal(a.rotation.bits, b.rotation.bits)
    &&& a.z_index == b.z_index
    &&& a.children.len() == b.children.len()
}

/// The nodes are equal: texts by their characters, numbers as numbers, children in order.
pub open spec fn same_node(a: NodeView, b: NodeView) -> bool
    decreases a,
{
    &&& same_surface(a, b)
    &&& forall|i: int|
        0 <= i < a.children.len() ==> same_node(#[trigger] a.children[i], b.children[i])
}

fn eq_opt_text(a: &Option<String>, b: &Option<String>) -> (r: bool)
    ensures
        r == (text::opt_text(*a) == text::opt_text(*b)),
{
    match (a, b) {
        (Some(x), Some(y)) => same(x.as_str(), y.as_str()),
        (None, None) => true,
        _ => false,
    }
}

fn eq_opt_num(a: &Option<Num>, b: &Option<Num>) -> (r: bool)
    ensures
        r == same_opt_num(opt_num(*a), opt_num(*b)),
{
    match (a, b) {
        (Some(x), Some(y)) => num_eq(x.bits, y.bits),
        (None, None) => true,
        _ => false,
    }
}

fn has_pair(v: &Vec<(String, String)>, key: &str, value: &str) -> (r: bool)
    ensures
        r == pair_views(v@).contains((key@, value@)),
{
    let mut i: usize = 0;
    while i < v.len()
        invariant
            i <= v@.len(),
            forall|k: int| 0 <= k < i ==> #[trigger] pair_views(v@)[k] != (key@, value@),
        decreases v.len() - i,
    {
        if same(v[i].0.as_str(), key) && same(v[i].1.as_str(), value) {
            proof {
                assert(pair_views(v@)[i as int] == (key@, value@));
            }
            return true;
        }
        i = i + 1;
    }
    false
}

fn has_pairs(v: &Vec<(String, String)>, pairs: &Vec<(String, String)>) -> (r: bool)
    ensures
        r == forall|i: int|
            0 <= i < pairs@.len() ==> pair_views(v@).contains(#[trigger] pair_views(pairs@)[i]),
{
    let mut i: usize = 0;
    while i < pairs.len()
        invariant
            i <= pairs@.len(),
            forall|k: int|
                0 <= k < i ==> pair_views(v@).contains(#[trigger] pair_views(pairs@)[k]),
        decreases pairs.len() - i,
    {
        if !has_pair(v, pairs[i].0.as_str(), pairs[i].1.as_str()) {
            proof {
                assert(!pair_views(v@).contains(pair_views(pairs@)[i as int]));
            }
            return false;
        }
        i = i + 1;
    }
    true
}

fn eq_pairs(a: &Vec<(String, String)>, b: &Vec<(String, String)>) -> (r: bool)
    ensures
        r == same_pairs(pair_views(a@), pair_views(b@)),
{
    a.len() == b.len() && has_pairs(b, a) && has_pairs(a, b)
}

fn eq_track(a: &TrackSizing, b: &TrackSizing) -> (r: bool)
    ensures
        r == same_track(a@, b@),
{
    match (a, b) {
        (TrackSizing::Fixed(x), TrackSizing::Fixed(y)) => num_eq(x.bits, y.bits),
        (TrackSizing::Auto, TrackSizing::Auto) => true,
        (TrackSizing::Flex(x), TrackSizing::Flex(y)) => num_eq(x.bits, y.bits),
        (TrackSizing::Percent(x), TrackSizing::Percent(y)) => num_eq(x.bits, y.bits),
        _ => false,
    }
}

fn eq_tracks(a: &Vec<TrackSizing>, b: &Vec<TrackSizing>) -> (r: bool)
    ensures
        r == same_tracks(track_views(a@), track_views(b@)),
{
    if a.len() != b.len() {
        return false;
    }
    let mut i: usize = 0;
    while i < a.len()
        invariant
            i <= a@.len(),
            a@.len() == b@.len(),
            forall|k: int|
                0 <= k < i ==> #[trigger] same_track(track_views(a@)[k], track_views(b@)[k]),
        decreases a.len() - i,
    {
        if !eq_track(&a[i], &b[i]) {
            proof {
                assert(!same_track(track_views(a@)[i as int], track_views(b@)[i as int]));
            }
            return false;
        }
        i = i + 1;
    }
    true
}

fn eq_layout(a: &LayoutMode, b: &LayoutMode) -> (r: bool)
    ensures
        r == same_layout(a@, b@),
{
    match (a, b) {
        (LayoutMode::Free, LayoutMode::Free) => true,
        (LayoutMode::Flex(p), LayoutMode::Flex(q)) => {
            p.direction == q.direction && num_eq(p.gap.bits, q.gap.bits) && p.align_items
                == q.align_items && p.justify_content == q.justify_content && p.wrap == q.wrap
                && num_eq(p.padding.top.bits, q.padding.top.bits) && num_eq(
                p.padding.right.bits,
                q.padding.right.bits,
            ) && num_eq(p.padding.bottom.bits, q.padding.bottom.bits) && num_eq(
                p.padding.left.bits,
                q.padding.left.bits,
            )
        },
        (LayoutMode::Grid(g), LayoutMode::Grid(h)) => {
            eq_tracks(&g.columns, &h.columns) && eq_tracks(&g.rows, &h.rows) && num_eq(
                g.gap.0.bits,
                h.gap.0.bits,
            ) && num_eq(g.gap.1.bits, h.gap.1.bits)
        },
        _ => false,
    }
}

fn eq_style(a: &NodeStyle, b: &NodeStyle) -> (r: bool)
    ensures
        r == same_style(a@, b@),
{
    eq_opt_text(&a.fill, &b.fill) && eq_opt_text(&a.stroke, &b.stroke) && eq_opt_num(
        &a.stroke_width,
        &b.stroke_width,
    ) && eq_opt_num(&a.radius, &b.radius) && eq_opt_num(&a.opacity, &b.opacity) && eq_opt_num(
        &a.font_size,
        &b.font_size,
    ) && eq_opt_text(&a.font_family, &b.font_family) && eq_layout(&a.layout, &b.layout) && eq_pairs(
        &a.design_token_refs,
        &b.design_token_refs,
    )
}

fn eq_surface(a: &PenNode, b: &PenNode) -> (r: bool)
    ensures
        r == same_surface(a@, b@),
{
    same(a.id.as_str(), b.id.as_str()) && a.kind == b.kind && same(
        a.name.as_str(),
        b.name.as_str(),
    ) && num_eq(a.x.bits, b.x.bits) && num_eq(a.y.bits, b.y.bits) && num_eq(a.w.bits, b.w.bits)
        && num_eq(a.h.bits, b.h.bits) && eq_style(&a.style, &b.style) && eq_opt_text(
        &a.text,
        &b.text,
    ) && num_eq(a.rotation.bits, b.rotation.bits) && a.z_index == b.z_index && a.children.len()
        == b.children.len()
}

/// Whether two nodes are equal.
pub fn eq_node(a: &PenNode, b: &PenNode) -> (r: bool)
    ensures
        r == same_node(a@, b@),
    decreases a,
{
    if !eq_surface(a, b) {
        return false;
    }
    let mut i: usize = 0;
    while i < a.children.len()
        invariant
            i <= a.children@.len(),
            a.children@.len() == b.children@.len(),
            same_surface(a@, b@),
            forall|k: int|
                0 <= k < i ==> same_node(#[trigger] a@.children[k], b@.children[k]),
        decreases a.children.len() - i,
    {
        if !eq_node(&a.children[i], &b.children[i]) {
            proof {
                assert(!same_node(a@.children[i as int], b@.children[i as int]));
            }
            return false;
        }
        i = i + 1;
    }
    true
}

proof fn lemma_tracks_are_mutual(a: Seq<TrackView>, b: Seq<TrackView>)
    requires
        same_tracks(a, b),
    ensures
        same_tracks(b, a),
{
    assert forall|i: int| 0 <= i < b.len() implies #[trigger] same_track(b[i], a[i]) by {
        assert(same_track(a[i], b[i]));
    }
}

/// A node that equals another is equalled by it.
pub proof fn law_equality_is_mutual(a: NodeView, b: NodeView)
    requires
        same_node(a, b),
    ensures
        same_node(b, a),
    decreases a,
{
    match (a.style.layout, b.style.layout) {
        (LayoutView::Grid(g), LayoutView::Grid(h)) => {
            lemma_tracks_are_mutual(g.columns, h.columns);
            lemma_tracks_are_mutual(g.rows, h.rows);
        },
        _ => {},
    }
    assert(same_surface(b, a));
    assert forall|i: int| 0 <= i < b.children.len() implies same_node(
        #[trigger] b.children[i],
        a.children[i],
    ) by {
        assert(same_node(a.children[i], b.children[i]));
        law_equality_is_mutual(a.children[i], b.children[i]);
    }
}

pub open spec fn opt_is_number(o: Option<NumView>) -> bool {
    match o {
        Some(n) => !num::is_nan(n.bits),
        None => true,
    }
}

pub open spec fn tracks_are_numbers(ts: Seq<TrackView>) -> bool {
    forall|i: int|
        0 <= i < ts.len() ==> match #[trigger] ts[i] {
            TrackView::Fixed(x) => !num::is_nan(x.bits),
            TrackView::Auto => true,
            TrackView::Flex(x) => !num::is_nan(x.bits),
            TrackView::Percent(x) => !num::is_nan(x.bits),
        }
}

pub open spec fn layout_is_numbers(l: LayoutView) -> bool {
    match l {
        LayoutView::Free => true,
        LayoutView::Flex(p) => {
            &&& !num::is_nan(p.gap.bits)
            &&& !num::is_nan(p.padding.top.bits)
            &&& !num::is_nan(p.padding.right.bits)
            &&& !num::is_nan(p.padding.bottom.bits)
            &&& !num::is_nan(p.padding.left.bits)
        },
        LayoutView::Grid(g) => {
            &&& tracks_are_numbers(g.columns)
            &&& tracks_are_numbers(g.rows)
            &&& !num::is_nan(g.column_gap.bits)
            &&& !num::is_nan(g.row_gap.bits)
        },
    }
}

/// Whatever the node holds as a number is one; so it is inside the node.
pub open spec fn holds_numbers(n: NodeView) -> bool
    decreases n,
{
    &&& !num::is_nan(n.x.bits)
    &&& !num::is_nan(n.y.bits)
    &&& !num::is_nan(n.w.bits)
    &&& !num::is_nan(n.h.bits)
    &&& !num::is_nan(n.rotation.bits)
    &&& opt_is_number(n.style.stroke_width)
    &&& opt_is_number(n.style.radius)
    &&& opt_is_number(n.style.opacity)
    &&& opt_is_number(n.style.font_size)
    &&& layout_is_numbers(n.style.layout)
    &&& forall|i: int| 0 <= i < n.children.len() ==> holds_numbers(#[trigger] n.children[i])
}

/// A node equals itself, unless what should be a number is none.
pub proof fn law_node_equals_itself(n: NodeView)
    requires
        holds_numbers(n),
    ensures
        same_node(n, n),
    decreases n,
{
    assert(same_surface(n, n));
    assert forall|i: int| 0 <= i < n.children.len() implies same_node(
        #[trigger] n.children[i],
        n.children[i],
    ) by {
        assert(holds_numbers(n.children[i]));
        law_node_equals_itself(n.children[i]);
    }
}

// ---------------------------------------------------------------------------
// What counting and comparing come to
// ---------------------------------------------------------------------------

/// Nodes are counted each once with all that is inside them, and a level is added by each node around
/// others.
pub proof fn law_nodes_are_counted(a: Seq<NodeView>, b: Seq<NodeView>, n: NodeView)
    ensures
        node_count(a + b) == node_count(a) + node_count(b),
        node_count(seq![n]) == 1 + node_count(n.children),
        levels(seq![n]) == 1 + levels(n.children),
        levels(a + b) == if levels(a) > levels(b) {
            levels(a)
        } else {
            levels(b)
        },
        node_count(a) >= a.len(),
        node_count(a) >= levels(a),
{
    lemma_counts_join(a, b);
    assert(seq![n].drop_last() =~= Seq::<NodeView>::empty());
    assert(node_count(Seq::<NodeView>::empty()) == 0);
    assert(levels(Seq::<NodeView>::empty()) == 0);
    lemma_count_bounds(a);
}

proof fn lemma_counts_join(a: Seq<NodeView>, b: Seq<NodeView>)
    ensures
        node_count(a + b) == node_count(a) + node_count(b),
        levels(a + b) == if levels(a) > levels(b) {
            levels(a)
        } else {
            levels(b)
        },
    decreases b.len(),
{
    if b.len() == 0 {
        assert(a + b =~= a);
    } else {
        lemma_counts_join(a, b.drop_last());
        assert((a + b).drop_last() =~= a + b.drop_last());
        assert((a + b).last() == b.last());
    }
}

proof fn lemma_count_bounds(a: Seq<NodeView>)
    ensures
        node_count(a) >= a.len(),
        node_count(a) >= levels(a),
    decreases a,
{
    if a.len() > 0 {
        lemma_count_bounds(a.drop_last());
        lemma_count_bounds(a.last().children);
    }
}

/// A document is refused for its depth exactly where a page is nested too deeply, and for its size
/// only where none is and the nodes of all pages are too many.
pub proof fn law_documents_are_refused_for_a_reason(d: DocumentView)
    ensures
        limit_fault(d) == Some(CanvasError::DepthExceeded) <==> exists|i: int|
            0 <= i < d.pages.len() && levels((#[trigger] d.pages[i]).nodes) > MAX_NODE_DEPTH,
        limit_fault(d) == Some(CanvasError::NodeTotalExceeded) <==> page_nodes(d.pages) > MAX_NODES
            && forall|i: int|
            0 <= i < d.pages.len() ==> levels((#[trigger] d.pages[i]).nodes) <= MAX_NODE_DEPTH,
        limit_fault(d) is None || limit_fault(d) == Some(CanvasError::DepthExceeded) || limit_fault(
            d,
        ) == Some(CanvasError::NodeTotalExceeded),
{
    lemma_deepest_page(d.pages);
}

proof fn lemma_deepest_page(ps: Seq<PageView>)
    ensures
        page_levels(ps) > MAX_NODE_DEPTH <==> exists|i: int|
            0 <= i < ps.len() && levels((#[trigger] ps[i]).nodes) > MAX_NODE_DEPTH,
    decreases ps.len(),
{
    if ps.len() > 0 {
        let front = ps.drop_last();
        lemma_deepest_page(front);
        if page_levels(ps) > MAX_NODE_DEPTH {
            if page_levels(front) > MAX_NODE_DEPTH {
                let i = choose|i: int|
                    0 <= i < front.len() && levels((#[trigger] front[i]).nodes) > MAX_NODE_DEPTH;
                assert(levels(ps[i].nodes) > MAX_NODE_DEPTH);
            } else {
                assert(levels(ps[ps.len() - 1].nodes) > MAX_NODE_DEPTH);
            }
        }
        if exists|i: int|
            0 <= i < ps.len() && levels((#[trigger] ps[i]).nodes) > MAX_NODE_DEPTH {
            let i = choose|i: int|
                0 <= i < ps.len() && levels((#[trigger] ps[i]).nodes) > MAX_NODE_DEPTH;
            if i < front.len() {
                assert(front[i] == ps[i]);
            }
        }
    }
}

/// Nodes that are equal say the same in everything: no difference in what they are, where they stand,
/// how they are painted or what is inside them is passed over.
pub proof fn law_equal_nodes_say_the_same(a: NodeView, b: NodeView, i: int)
    requires
        same_node(a, b),
    ensures
        a.id == b.id && a.kind == b.kind && a.name == b.name && a.text == b.text,
        num::equal(a.x.bits, b.x.bits) && num::equal(a.y.bits, b.y.bits),
        num::equal(a.w.bits, b.w.bits) && num::equal(a.h.bits, b.h.bits),
        num::equal(a.rotation.bits, b.rotation.bits) && a.z_index == b.z_index,
        a.style.fill == b.style.fill && a.style.stroke == b.style.stroke,
        a.style.font_family == b.style.font_family,
        same_opt_num(a.style.stroke_width, b.style.stroke_width),
        same_opt_num(a.style.radius, b.style.radius),
        same_opt_num(a.style.opacity, b.style.opacity),
        same_opt_num(a.style.font_size, b.style.font_size),
        same_layout(a.style.layout, b.style.layout),
        same_pairs(a.style.refs, b.style.refs),
        a.children.len() == b.children.len(),
        0 <= i < a.children.len() ==> same_node(a.children[i], b.children[i]),
{
}

/// Layouts that are equal are of one kind, with the same parameters each.
pub proof fn law_equal_layouts_say_the_same(a: LayoutView, b: LayoutView)
    requires
        same_layout(a, b),
    ensures
        a is Free <==> b is Free,
        a is Flex <==> b is Flex,
        a is Grid <==> b is Grid,
        match (a, b) {
            (LayoutView::Flex(p), LayoutView::Flex(q)) => {
                &&& p.direction == q.direction && p.wrap == q.wrap
                &&& p.align_items == q.align_items && p.justify_content == q.justify_content
                &&& num::equal(p.gap.bits, q.gap.bits)
                &&& num::equal(p.padding.top.bits, q.padding.top.bits)
                &&& num::equal(p.padding.right.bits, q.padding.right.bits)
                &&& num::equal(p.padding.bottom.bits, q.padding.bottom.bits)
                &&& num::equal(p.padding.left.bits, q.padding.left.bits)
            },
            (LayoutView::Grid(g), LayoutView::Grid(h)) => {
                &&& g.columns.len() == h.columns.len() && g.rows.len() == h.rows.len()
                &&& num::equal(g.column_gap.bits, h.column_gap.bits)
                &&& num::equal(g.row_gap.bits, h.row_gap.bits)
            },
            _ => true,
        },
{
}

} // verus!
