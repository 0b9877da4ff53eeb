//! What mending promises.

use vstd::prelude::*;

use crate::canvas::{DocumentView, LayoutView, NodeView, PageView, StyleView};
use crate::design_system::SystemView;
use crate::lint;
use crate::lint::detectors;
use crate::lint::fix;
use crate::lint::fix::{FixView, Tokens};
use crate::lint::rules;
use crate::lint::LintRule;
use crate::num;
use crate::text;

verus! {

/// The token that stands for the value under a key which the node has no reference for.
spec fn missing_token(n: NodeView, key: Seq<char>, token: Option<Seq<char>>) -> Option<Seq<char>> {
    if detectors::has_ref(n, key) {
        None
    } else {
        token
    }
}

spec fn style_token(t: Tokens, value: Option<Seq<char>>) -> Option<Seq<char>> {
    match value {
        Some(v) => lint::token_for(t.styles, v),
        None => None,
    }
}

/// The text by which a gap finds its token.
pub open spec fn gap_text(l: LayoutView) -> Option<Seq<char>> {
    match l {
        LayoutView::Flex(p) => if num::equal(p.gap.bits, num::ZERO) {
            None
        } else {
            Some(p.gap.text)
        },
        LayoutView::Grid(g) => if num::equal(g.column_gap.bits, num::ZERO) && num::equal(
            g.row_gap.bits,
            num::ZERO,
        ) {
            None
        } else {
            Some(g.column_gap.text)
        },
        LayoutView::Free => None,
    }
}

/// The text by which a font size finds its token.
pub open spec fn size_text(n: NodeView) -> Option<Seq<char>> {
    match n.style.font_size {
        Some(s) => if num::positive(s.bits) {
            Some(s.text)
        } else {
            None
        },
        None => None,
    }
}

spec fn number_token(t: Tokens, value: Option<Seq<char>>) -> Option<Seq<char>> {
    match value {
        Some(v) => lint::token_for(t.numbers, v),
        None => None,
    }
}

spec fn entry(key: Seq<char>, token: Option<Seq<char>>) -> Seq<(Seq<char>, Seq<char>)> {
    match token {
        Some(name) => seq![(key, name)],
        None => Seq::empty(),
    }
}

proof fn lemma_keys()
    ensures
        "fill"@ != "stroke"@ && "fill"@ != "gap"@ && "fill"@ != "font_size"@,
        "stroke"@ != "gap"@ && "stroke"@ != "font_size"@,
        "gap"@ != "font_size"@,
{
    reveal_strlit("fill");
    reveal_strlit("stroke");
    reveal_strlit("gap");
    reveal_strlit("font_size");
    assert("fill"@.len() == 4 && "stroke"@.len() == 6 && "gap"@.len() == 3 && "font_size"@.len() == 9);
}

proof fn lemma_ref_added(n: NodeView, key: Seq<char>, token: Seq<char>, other: Seq<char>)
    ensures
        detectors::has_ref(fix::with_token(n, key, token), other) <==> detectors::has_ref(n, other)
            || key == other,
{
    let m = fix::with_token(n, key, token);
    if detectors::has_ref(n, other) {
        let i = choose|i: int|
            0 <= i < n.style.refs.len() && (#[trigger] n.style.refs[i]).0 == other;
        assert(m.style.refs[i].0 == other);
    }
    if key == other {
        assert(m.style.refs[n.style.refs.len() as int].0 == other);
    }
    if detectors::has_ref(m, other) && key != other {
        let i = choose|i: int|
            0 <= i < m.style.refs.len() && (#[trigger] m.style.refs[i]).0 == other;
        assert(n.style.refs[i].0 == other);
    }
}

/// All of a node but its references.
spec fn same_but_refs(a: NodeView, b: NodeView) -> bool {
    b == (NodeView { style: StyleView { refs: b.style.refs, ..a.style }, ..a })
}

/// The node after the four steps that put tokens behind its attributes.
spec fn with_tokens(n: NodeView, t: Tokens) -> NodeView {
    NodeView {
        style: StyleView {
            refs: n.style.refs + entry(
                "fill"@,
                missing_token(n, "fill"@, style_token(t, n.style.fill)),
            ) + entry("stroke"@, missing_token(n, "stroke"@, style_token(t, n.style.stroke)))
                + entry(
                "gap"@,
                missing_token(n, "gap"@, number_token(t, gap_text(n.style.layout))),
            ) + entry("font_size"@, missing_token(n, "font_size"@, number_token(t, size_text(n)))),
            ..n.style
        },
        ..n
    }
}

proof fn lemma_one_step(
    st: (NodeView, Seq<FixView>),
    step: Option<(NodeView, FixView)>,
    key: Seq<char>,
    token: Option<Seq<char>>,
    other: Seq<char>,
)
    requires
        match missing_token(st.0, key, token) {
            Some(name) => step matches Some(f) && f.0 == fix::with_token(st.0, key, name),
            None => step is None,
        },
    ensures
        fix::stepped(st, step).0.style.refs == st.0.style.refs + entry(
            key,
            missing_token(st.0, key, token),
        ),
        same_but_refs(st.0, fix::stepped(st, step).0),
        other != key ==> detectors::has_ref(fix::stepped(st, step).0, other) == detectors::has_ref(
            st.0,
            other,
        ),
{
    let r = fix::stepped(st, step).0;
    match missing_token(st.0, key, token) {
        Some(name) => {
            lemma_ref_added(st.0, key, name, other);
            assert(r.style.refs =~= st.0.style.refs + entry(key, Some(name)));
        },
        None => {
            assert(r.style.refs =~= st.0.style.refs + entry(key, None));
        },
    }
}

proof fn lemma_token_steps(n: NodeView, t: Tokens, fixes: Seq<FixView>)
    ensures
        ({
            let a = fix::stepped((n, fixes), fix::fill_fix(n, t));
            let b = fix::stepped(a, fix::stroke_fix(a.0, t));
            let c = fix::stepped(b, fix::gap_fix(b.0, t));
            let d = fix::stepped(c, fix::font_size_fix(c.0, t));
            d.0 == with_tokens(n, t)
        }),
{
    lemma_keys();
    let a = fix::stepped((n, fixes), fix::fill_fix(n, t));
    let b = fix::stepped(a, fix::stroke_fix(a.0, t));
    let c = fix::stepped(b, fix::gap_fix(b.0, t));
    let d = fix::stepped(c, fix::font_size_fix(c.0, t));
    let fill = style_token(t, n.style.fill);
    let stroke = style_token(t, n.style.stroke);
    let gap = number_token(t, gap_text(n.style.layout));
    let size = number_token(t, size_text(n));
    lemma_one_step((n, fixes), fix::fill_fix(n, t), "fill"@, fill, "stroke"@);
    lemma_one_step((n, fixes), fix::fill_fix(n, t), "fill"@, fill, "gap"@);
    lemma_one_step((n, fixes), fix::fill_fix(n, t), "fill"@, fill, "font_size"@);
    lemma_one_step(a, fix::stroke_fix(a.0, t), "stroke"@, stroke, "gap"@);
    lemma_one_step(a, fix::stroke_fix(a.0, t), "stroke"@, stroke, "font_size"@);
    lemma_one_step(b, fix::gap_fix(b.0, t), "gap"@, gap, "font_size"@);
    lemma_one_step(c, fix::font_size_fix(c.0, t), "font_size"@, size, "fill"@);
    assert(d.0.style.refs =~= with_tokens(n, t).style.refs);
}

// ---------------------------------------------------------------------------
// Laws
// ---------------------------------------------------------------------------

/// The node has the token behind the attribute.
pub open spec fn bears(n: NodeView, key: Seq<char>, token: Seq<char>) -> bool {
    n.style.refs.contains((key, token))
}

/// Mending a node puts behind each of its attributes the token that stands for the value, where there
/// is one and the attribute has none behind it yet; and no other references come.
pub proof fn law_tokens_are_put_behind_their_attributes(
    n: NodeView,
    t: Tokens,
    fixes: Seq<FixView>,
    key: Seq<char>,
    token: Seq<char>,
)
    requires
        !detectors::has_ref(n, key),
    ensures
        bears(fix::fixed_node(n, t, fixes).0, key, token) <==> {
            ||| key == "fill"@ && n.style.fill is Some && lint::token_for(
                t.styles,
                n.style.fill->0,
            ) == Some(token)
            ||| key == "stroke"@ && n.style.stroke is Some && lint::token_for(
                t.styles,
                n.style.stroke->0,
            ) == Some(token)
            ||| key == "gap"@ && gap_text(n.style.layout) is Some && lint::token_for(
                t.numbers,
                gap_text(n.style.layout)->0,
            ) == Some(token)
            ||| key == "font_size"@ && size_text(n) is Some && lint::token_for(
                t.numbers,
                size_text(n)->0,
            ) == Some(token)
        },
{
    lemma_keys();
    lemma_token_steps(n, t, fixes);
    let m = fix::fixed_node(n, t, fixes).0;
    let a = entry("fill"@, missing_token(n, "fill"@, style_token(t, n.style.fill)));
    let b = entry("stroke"@, missing_token(n, "stroke"@, style_token(t, n.style.stroke)));
    let c = entry("gap"@, missing_token(n, "gap"@, number_token(t, gap_text(n.style.layout))));
    let d = entry("font_size"@, missing_token(n, "font_size"@, number_token(t, size_text(n))));
    let r = n.style.refs;
    assert(m.style.refs == r + a + b + c + d);
    let x = (key, token);
    assert(!r.contains(x)) by {
        if r.contains(x) {
            let i = choose|i: int| 0 <= i < r.len() && r[i] == x;
            assert(n.style.refs[i].0 == key);
        }
    }
    lemma_in(r, a, x);
    lemma_in(r + a, b, x);
    lemma_in(r + a + b, c, x);
    lemma_in(r + a + b + c, d, x);
    lemma_in_entry("fill"@, missing_token(n, "fill"@, style_token(t, n.style.fill)), x);
    lemma_in_entry("stroke"@, missing_token(n, "stroke"@, style_token(t, n.style.stroke)), x);
    lemma_in_entry(
        "gap"@,
        missing_token(n, "gap"@, number_token(t, gap_text(n.style.layout))),
        x,
    );
    lemma_in_entry("font_size"@, missing_token(n, "font_size"@, number_token(t, size_text(n))), x);
}

proof fn lemma_in(
    a: Seq<(Seq<char>, Seq<char>)>,
    b: Seq<(Seq<char>, Seq<char>)>,
    x: (Seq<char>, Seq<char>),
)
    ensures
        (a + b).contains(x) <==> a.contains(x) || b.contains(x),
{
    if a.contains(x) {
        let i = choose|i: int| 0 <= i < a.len() && a[i] == x;
        assert((a + b)[i] == x);
    }
    if b.contains(x) {
        let i = choose|i: int| 0 <= i < b.len() && b[i] == x;
        assert((a + b)[a.len() + i] == x);
    }
    if (a + b).contains(x) {
        let i = choose|i: int| 0 <= i < (a + b).len() && (a + b)[i] == x;
        if i < a.len() {
            assert(a[i] == x);
        } else {
            assert(b[i - a.len()] == x);
        }
    }
}

proof fn lemma_in_entry(key: Seq<char>, token: Option<Seq<char>>, x: (Seq<char>, Seq<char>))
    ensures
        entry(key, token).contains(x) <==> (token matches Some(name) && x == (key, name)),
{
    if let Some(name) = token {
        assert(entry(key, token)[0] == (key, name));
    }
}

/// With the tokens of a system: a stroke or fill that some token stands for gets such a token behind
/// it, and a reference that comes is that of a token which stands for the node's own value.
pub proof fn law_colors_get_tokens_that_stand_for_them(
    n: NodeView,
    s: SystemView,
    fixes: Seq<FixView>,
    token: Seq<char>,
)
    ensures
        ({
            let m = fix::fixed_node(n, fix::tokens_of(s), fixes).0;
            &&& rules::has_token(s, n.style.stroke) ==> detectors::has_ref(m, "stroke"@)
            &&& rules::has_token(s, n.style.fill) ==> detectors::has_ref(m, "fill"@)
            &&& !detectors::has_ref(n, "stroke"@) && bears(m, "stroke"@, token) ==> exists|i: int|
                0 <= i < s.tokens.len() && (#[trigger] s.tokens[i]).name == token && n.style.stroke
                    is Some && rules::stands_for(s.tokens[i], n.style.stroke->0)
            &&& !detectors::has_ref(n, "fill"@) && bears(m, "fill"@, token) ==> exists|i: int|
                0 <= i < s.tokens.len() && (#[trigger] s.tokens[i]).name == token && n.style.fill
                    is Some && rules::stands_for(s.tokens[i], n.style.fill->0)
        }),
{
    let t = fix::tokens_of(s);
    let m = fix::fixed_node(n, t, fixes).0;
    lemma_keys();
    fix::law_references_are_kept(n, t, fixes);
    if let Some(v) = n.style.stroke {
        rules::law_token_found_stands_for_the_text(s.tokens, v);
        if lint::token_for(t.styles, v) is Some && !detectors::has_ref(n, "stroke"@) {
            let name = lint::token_for(t.styles, v)->0;
            law_tokens_are_put_behind_their_attributes(n, t, fixes, "stroke"@, name);
            lemma_bears(m, "stroke"@, name);
        }
    }
    if let Some(v) = n.style.fill {
        rules::law_token_found_stands_for_the_text(s.tokens, v);
        if lint::token_for(t.styles, v) is Some && !detectors::has_ref(n, "fill"@) {
            let name = lint::token_for(t.styles, v)->0;
            law_tokens_are_put_behind_their_attributes(n, t, fixes, "fill"@, name);
            lemma_bears(m, "fill"@, name);
        }
    }
    lemma_refs_stay(n, m, "stroke"@);
    lemma_refs_stay(n, m, "fill"@);
    if !detectors::has_ref(n, "stroke"@) {
        law_tokens_are_put_behind_their_attributes(n, t, fixes, "stroke"@, token);
    }
    if !detectors::has_ref(n, "fill"@) {
        law_tokens_are_put_behind_their_attributes(n, t, fixes, "fill"@, token);
    }
}

proof fn lemma_bears(n: NodeView, key: Seq<char>, token: Seq<char>)
    requires
        bears(n, key, token),
    ensures
        detectors::has_ref(n, key),
{
    let i = choose|i: int| 0 <= i < n.style.refs.len() && n.style.refs[i] == (key, token);
    assert(n.style.refs[i].0 == key);
}

proof fn lemma_refs_stay(n: NodeView, m: NodeView, key: Seq<char>)
    requires
        n.style.refs.is_prefix_of(m.style.refs),
    ensures
        detectors::has_ref(n, key) ==> detectors::has_ref(m, key),
{
    if detectors::has_ref(n, key) {
        let i = choose|i: int|
            0 <= i < n.style.refs.len() && (#[trigger] n.style.refs[i]).0 == key;
        assert(m.style.refs.subrange(0, n.style.refs.len() as int)[i] == m.style.refs[i]);
        assert(m.style.refs[i].0 == key);
    }
}

/// Mending changes nothing else: a node keeps its place, size, kind, text and depth, its colours
/// unless they are blank, and its name unless it is a default one, which makes room for the node's
/// kind and the start of its id.
pub proof fn law_mending_keeps_the_rest(n: NodeView, t: Tokens, fixes: Seq<FixView>)
    ensures
        ({
            let m = fix::fixed_node(n, t, fixes).0;
            &&& m.id == n.id
            &&& m.kind == n.kind
            &&& m.x == n.x && m.y == n.y && m.w == n.w && m.h == n.h
            &&& m.rotation == n.rotation && m.z_index == n.z_index
            &&& m.text == n.text
            &&& m.style.layout == n.style.layout
            &&& m.style.stroke_width == n.style.stroke_width
            &&& m.style.radius == n.style.radius
            &&& m.style.opacity == n.style.opacity
            &&& m.style.font_size == n.style.font_size
            &&& m.style.font_family == n.style.font_family
            &&& m.style.fill == (if n.style.fill matches Some(f) && text::trimmed(f).len() == 0 {
                None
            } else {
                n.style.fill
            })
            &&& m.style.stroke == (if n.style.stroke matches Some(s) && text::trimmed(s).len()
                == 0 {
                None
            } else {
                n.style.stroke
            })
            &&& !detectors::is_default_name(n.name) ==> m.name == n.name
            &&& detectors::is_default_name(n.name) ==> {
                &&& text::occurs(m.name, "_"@)
                &&& n.id.len() <= 8 ==> m.name.skip(m.name.len() - n.id.len()) == n.id
                &&& n.id.len() > 8 ==> m.name.skip(m.name.len() - 8) == n.id.take(8)
            }
            &&& m.children.len() == n.children.len()
        }),
{
    lemma_token_steps(n, t, fixes);
    lemma_lengths(n.children, t, fix::own_fixes(n, t, fixes).1);
    let m = fix::fixed_node(n, t, fixes).0;
    let w = with_tokens(n, t);
    if detectors::is_default_name(n.name) {
        let k = fix::kind_name(n.kind);
        let part = n.id.take(
            if n.id.len() < 8 {
                n.id.len() as int
            } else {
                8
            },
        );
        assert(m.name == k + "_"@ + part);
        reveal_strlit("_");
        text::lemma_occurs_between(k, "_"@, part);
        assert(m.name.skip(m.name.len() - part.len()) =~= part);
        if n.id.len() <= 8 {
            assert(part =~= n.id);
        }
    }
}

proof fn lemma_lengths(ns: Seq<NodeView>, t: Tokens, fixes: Seq<FixView>)
    ensures
        fix::fixed_nodes(ns, t, fixes).0.len() == ns.len(),
    decreases ns.len(),
{
    if ns.len() > 0 {
        lemma_lengths(ns.drop_last(), t, fixes);
    }
}

proof fn lemma_own_alone(n: NodeView, t: Tokens, a: Seq<FixView>, b: Seq<FixView>)
    ensures
        fix::own_fixes(n, t, a).0 == fix::own_fixes(n, t, b).0,
{
    lemma_token_steps(n, t, a);
    lemma_token_steps(n, t, b);
}

/// How a node is mended does not depend on what was mended before, and each node inside it is mended
/// as it would be alone.
pub proof fn law_nodes_are_mended_alone(n: NodeView, t: Tokens, a: Seq<FixView>, b: Seq<FixView>)
    ensures
        fix::fixed_node(n, t, a).0 == fix::fixed_node(n, t, b).0,
        forall|i: int|
            0 <= i < n.children.len() ==> fix::fixed_node(n, t, a).0.children[i]
                == #[trigger] fix::fixed_node(n.children[i], t, b).0,
    decreases n,
{
    lemma_own_alone(n, t, a, b);
    law_lists_are_mended_alone(n.children, t, fix::own_fixes(n, t, a).1, b);
    law_lists_are_mended_alone(n.children, t, fix::own_fixes(n, t, b).1, b);
    let x = fix::fixed_node(n, t, a).0.children;
    let y = fix::fixed_node(n, t, b).0.children;
    assert forall|i: int| 0 <= i < n.children.len() implies x[i] == #[trigger] fix::fixed_node(
        n.children[i],
        t,
        b,
    ).0 && x[i] == y[i] by {
        assert(fix::fixed_nodes(n.children, t, fix::own_fixes(n, t, a).1).0[i] == fix::fixed_node(
            n.children[i],
            t,
            b,
        ).0);
    }
    assert forall|i: int| 0 <= i < x.len() implies x[i] == y[i] by {
        assert(x[i] == fix::fixed_node(n.children[i], t, b).0);
    }
    assert(x =~= y);
}

/// In a list, too, each node is mended as it would be alone.
pub proof fn law_lists_are_mended_alone(ns: Seq<NodeView>, t: Tokens, a: Seq<FixView>, b: Seq<FixView>)
    ensures
        fix::fixed_nodes(ns, t, a).0.len() == ns.len(),
        forall|i: int|
            0 <= i < ns.len() ==> fix::fixed_nodes(ns, t, a).0[i] == #[trigger] fix::fixed_node(
                ns[i],
                t,
                b,
            ).0,
    decreases ns,
{
    if ns.len() > 0 {
        let init = ns.drop_last();
        let rest = fix::fixed_nodes(init, t, a);
        law_lists_are_mended_alone(init, t, a, b);
        law_nodes_are_mended_alone(ns.last(), t, rest.1, b);
        let all = fix::fixed_nodes(ns, t, a).0;
        assert forall|i: int| 0 <= i < ns.len() implies all[i] == #[trigger] fix::fixed_node(
            ns[i],
            t,
            b,
        ).0 by {
            if i < init.len() {
                assert(init[i] == ns[i]);
                assert(all[i] == rest.0[i]);
                assert(rest.0[i] == fix::fixed_node(init[i], t, b).0);
            }
        }
    }
}

/// Every node of every page is mended with the tokens of the system; the pages keep the rest.
pub proof fn law_every_page_is_mended(d: DocumentView, s: SystemView, k: int, i: int)
    requires
        0 <= k < d.pages.len(),
        0 <= i < d.pages[k].nodes.len(),
    ensures
        ({
            let m = fix::fixed_document(d, s).0;
            &&& m.pages.len() == d.pages.len()
            &&& m.pages[k].nodes.len() == d.pages[k].nodes.len()
            &&& m.pages[k].nodes[i] == fix::fixed_node(
                d.pages[k].nodes[i],
                fix::tokens_of(s),
                Seq::empty(),
            ).0
            &&& m.pages[k].id == d.pages[k].id && m.pages[k].name == d.pages[k].name
            &&& m.pages[k].width == d.pages[k].width && m.pages[k].height == d.pages[k].height
            &&& m.schema_version == d.schema_version
            &&& m.active_design_system == d.active_design_system
        }),
{
    lemma_pages_mended(d.pages, fix::tokens_of(s), Seq::empty(), k, i);
}

proof fn lemma_pages_mended(ps: Seq<PageView>, t: Tokens, fixes: Seq<FixView>, k: int, i: int)
    requires
        0 <= k < ps.len(),
        0 <= i < ps[k].nodes.len(),
    ensures
        ({
            let m = fix::fixed_pages(ps, t, fixes).0;
            &&& m.len() == ps.len()
            &&& m[k].nodes.len() == ps[k].nodes.len()
            &&& m[k].nodes[i] == fix::fixed_node(ps[k].nodes[i], t, Seq::empty()).0
            &&& m[k] == PageView { nodes: m[k].nodes, ..ps[k] }
        }),
    decreases ps.len(),
{
    let init = ps.drop_last();
    let rest = fix::fixed_pages(init, t, fixes);
    lemma_page_lengths(ps, t, fixes);
    lemma_page_lengths(init, t, fixes);
    if k < init.len() {
        assert(init[k] == ps[k]);
        lemma_pages_mended(init, t, fixes, k, i);
        assert(fix::fixed_pages(ps, t, fixes).0[k] == rest.0[k]);
    } else {
        law_lists_are_mended_alone(ps[k].nodes, t, rest.1, Seq::empty());
        assert(fix::fixed_nodes(ps[k].nodes, t, rest.1).0[i] == fix::fixed_node(
            ps[k].nodes[i],
            t,
            Seq::empty(),
        ).0);
    }
}

proof fn lemma_page_lengths(ps: Seq<PageView>, t: Tokens, fixes: Seq<FixView>)
    ensures
        fix::fixed_pages(ps, t, fixes).0.len() == ps.len(),
    decreases ps.len(),
{
    if ps.len() > 0 {
        lemma_page_lengths(ps.drop_last(), t, fixes);
    }
}

/// What is told of a node that is mended comes behind what was told before and bears the id of the
/// node; a node of which nothing is told stays as it is.
pub proof fn law_fixes_are_told(n: NodeView, t: Tokens, fixes: Seq<FixView>)
    ensures
        ({
            let told = fix::own_fixes(n, t, fixes).1;
            &&& fixes.is_prefix_of(told)
            &&& forall|i: int| fixes.len() <= i < told.len() ==> (#[trigger] told[i]).node_id == n.id
            &&& told.len() == fixes.len() ==> fix::own_fixes(n, t, fixes).0 == n
        }),
{
    let a = fix::stepped((n, fixes), fix::fill_fix(n, t));
    let b = fix::stepped(a, fix::stroke_fix(a.0, t));
    let c = fix::stepped(b, fix::gap_fix(b.0, t));
    let d = fix::stepped(c, fix::font_size_fix(c.0, t));
    let e = fix::stepped(d, fix::blank_fill_fix(d.0));
    let f = fix::stepped(e, fix::blank_stroke_fix(e.0));
    let g = fix::stepped(f, fix::name_fix(f.0));
    assert(fixes =~= g.1.subrange(0, fixes.len() as int));
}

/// The fill, and so the stroke, is told of exactly where it gets a token.
pub proof fn law_token_fixes_are_told(n: NodeView, t: Tokens, name: Seq<char>)
    ensures
        (n.style.fill is Some && !detectors::has_ref(n, "fill"@) && lint::token_for(
            t.styles,
            n.style.fill->0,
        ) == Some(name)) ==> (fix::fill_fix(n, t) matches Some(f) && f.1.before == n.style.fill->0
            && f.1.after == name && text::occurs(f.1.action, "fill"@)),
        (n.style.stroke is Some && !detectors::has_ref(n, "stroke"@) && lint::token_for(
            t.styles,
            n.style.stroke->0,
        ) == Some(name)) ==> (fix::stroke_fix(n, t) matches Some(f) && f.1.before
            == n.style.stroke->0 && f.1.after == name && text::occurs(f.1.action, "stroke"@)),
{
    reveal_strlit("fill");
    reveal_strlit("stroke");
    reveal_strlit("fill→token_ref");
    reveal_strlit("stroke→token_ref");
    assert("fill→token_ref"@.subrange(0, 4) =~= "fill"@);
    assert(text::occurs_at("fill→token_ref"@, "fill"@, 0));
    assert("stroke→token_ref"@.subrange(0, 6) =~= "stroke"@);
    assert(text::occurs_at("stroke→token_ref"@, "stroke"@, 0));
}

/// A name that is replaced is told with the name before and the name after, and a blank attribute that
/// is taken away with what it held, each by the rule that it breaks.
pub proof fn law_other_fixes_are_told(n: NodeView)
    ensures
        detectors::is_default_name(n.name) <==> fix::name_fix(n) is Some,
        fix::name_fix(n) matches Some((m, told)) ==> told.rule == LintRule::UnnamedNode
            && told.before == n.name && told.after == m.name && told.node_id == n.id && n
            == (NodeView { name: n.name, ..m }),
        detectors::is_blank(n.style.fill) <==> fix::blank_fill_fix(n) is Some,
        fix::blank_fill_fix(n) matches Some((m, told)) ==> told.rule == LintRule::EmptyEffects
            && told.before == n.style.fill->0 && told.after == "None"@ && told.action
            == "remove_empty_fill"@ && m.style.fill is None && m.style.stroke == n.style.stroke,
        detectors::is_blank(n.style.stroke) <==> fix::blank_stroke_fix(n) is Some,
        fix::blank_stroke_fix(n) matches Some((m, told)) ==> told.rule == LintRule::EmptyEffects
            && told.before == n.style.stroke->0 && told.after == "None"@ && told.action
            == "remove_empty_stroke"@ && m.style.stroke is None && m.style.fill == n.style.fill,
{
}

/// A gap or a font size that gets a token is told with its number before and the token after.
pub proof fn law_number_fixes_are_told(n: NodeView, t: Tokens)
    ensures
        fix::gap_fix(n, t) matches Some((m, told)) ==> told.rule == LintRule::HardcodedSpacing
            && bears(m, "gap"@, told.after) && (n.style.layout matches LayoutView::Flex(p)
            ==> told.before == p.gap.text),
        fix::font_size_fix(n, t) matches Some((m, told)) ==> told.rule
            == LintRule::HardcodedFontSize && bears(m, "font_size"@, told.after) && told.before
            == n.style.font_size->0.text,
{
    if let Some((m, told)) = fix::gap_fix(n, t) {
        assert(m.style.refs.last() == ("gap"@, told.after));
    }
    if let Some((m, told)) = fix::font_size_fix(n, t) {
        assert(m.style.refs.last() == ("font_size"@, told.after));
    }
}

} // verus!
