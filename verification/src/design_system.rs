//! Design systems: named sets of tokens, their inheritance, and the registry that holds them.

use vstd::prelude::*;
use vstd::string::*;

use crate::canvas::clone_opt_text;
use crate::codegen::wrap;
use crate::css;
use crate::css::sanitize_css_value;
use crate::num::{Num, NumView};
use crate::text;
use crate::text::{join, replace_char, same, starts_with, strip_prefix};

verus! {

/// A chain of token references is followed no further than this.
pub const MAX_REFERENCE_DEPTH: u32 = 64;

/// A system with more tokens is not imported.
pub const MAX_IMPORT_TOKENS: usize = 10000;

/// A system with a longer token value, in bytes, is not imported.
pub const MAX_TOKEN_STR_LEN: usize = 4096;

/// What a token stands for. A string that begins with `token:` refers to another token.
#[derive(Debug)]
pub enum TokenValue {
    Color(String),
    Number(Num),
    Shadow(String),
    String(String),
}

/// What a `TokenValue` holds.
#[verifier::ext_equal]
pub enum ValueView {
    Color(Seq<char>),
    Number(NumView),
    Shadow(Seq<char>),
    Text(Seq<char>),
}

/// One token. The reading is what a string value reads as where it is the text of a number,
/// written as numbers print.
#[derive(Debug)]
pub struct Token {
    pub name: String,
    pub value: TokenValue,
    pub description: String,
    pub reading: Option<String>,
}

/// What a `Token` holds.
#[verifier::ext_equal]
pub struct TokenView {
    pub name: Seq<char>,
    pub value: ValueView,
    pub description: Seq<char>,
    pub reading: Option<Seq<char>>,
}

/// A named set of tokens, those that a dark theme overrides, and the system it inherits from.
#[derive(Debug)]
pub struct DesignSystem {
    pub id: String,
    pub name: String,
    pub tokens: Vec<Token>,
    pub dark_tokens: Option<Vec<Token>>,
    pub extends: Option<String>,
}

/// What a `DesignSystem` holds.
#[verifier::ext_equal]
pub struct SystemView {
    pub id: Seq<char>,
    pub name: Seq<char>,
    pub tokens: Seq<TokenView>,
    pub dark_tokens: Option<Seq<TokenView>>,
    pub extends: Option<Seq<char>>,
}

/// The theme in which a system is shown.
#[derive(Debug, Clone, Copy, PartialEq, Eq, Structural)]
pub enum Theme {
    Light,
    Dark,
}

impl Default for Theme {
    fn default() -> (r: Self)
        ensures
            r == Theme::Light,
    {
        Theme::Light
    }
}

impl TokenValue {
    pub open spec fn view(&self) -> ValueView {
        match *self {
            TokenValue::Color(s) => ValueView::Color(s@),
            TokenValue::Number(n) => ValueView::Number(n@),
            TokenValue::Shadow(s) => ValueView::Shadow(s@),
            TokenValue::String(s) => ValueView::Text(s@),
        }
    }
}

impl Token {
    pub open spec fn view(&self) -> TokenView {
        TokenView {
            name: self.name@,
            value: self.value@,
            description: self.description@,
            reading: text::opt_text(self.reading),
        }
    }
}

pub open spec fn token_views(s: Seq<Token>) -> Seq<TokenView> {
    s.map_values(|t: Token| t@)
}

pub open spec fn opt_token_views(o: Option<Vec<Token>>) -> Option<Seq<TokenView>> {
    match o {
        Some(v) => Some(token_views(v@)),
        None => None,
    }
}

impl DesignSystem {
    pub open spec fn view(&self) -> SystemView {
        SystemView {
            id: self.id@,
            name: self.name@,
            tokens: token_views(self.tokens@),
            dark_tokens: opt_token_views(self.dark_tokens),
            extends: text::opt_text(self.extends),
        }
    }
}

pub open spec fn system_views(s: Seq<DesignSystem>) -> Seq<SystemView> {
    s.map_values(|d: DesignSystem| d@)
}

// ---------------------------------------------------------------------------
// What the operations mean
// ---------------------------------------------------------------------------

/// The value is written as a reference to another token.
pub open spec fn refers(v: ValueView) -> bool {
    v matches ValueView::Text(s) && "token:"@.is_prefix_of(s)
}

/// The name of the token that the value refers to; a reference to nothing has none.
pub open spec fn target(v: ValueView) -> Option<Seq<char>> {
    match v {
        ValueView::Text(s) => if "token:"@.is_prefix_of(s) && s.len() > "token:"@.len() {
            Some(s.skip("token:"@.len() as int))
        } else {
            None
        },
        _ => None,
    }
}

/// The value in a style sheet; a reference becomes a variable.
pub open spec fn css_value(v: ValueView) -> Seq<char> {
    match v {
        ValueView::Color(s) => css::sanitized(s, "transparent"@),
        ValueView::Number(n) => n.text + "px"@,
        ValueView::Shadow(s) => css::sanitized(s, "transparent"@),
        ValueView::Text(s) => if "token:"@.is_prefix_of(s) {
            "var(--"@ + s.skip("token:"@.len() as int) + ")"@
        } else {
            css::sanitized(s, ""@)
        },
    }
}

/// The last of the tokens that bears the name.
pub open spec fn last_named(ts: Seq<TokenView>, name: Seq<char>) -> Option<TokenView>
    decreases ts.len(),
{
    if ts.len() == 0 {
        None
    } else if ts.last().name == name {
        Some(ts.last())
    } else {
        last_named(ts.drop_last(), name)
    }
}

/// The first of the tokens that bears the name.
pub open spec fn first_named(ts: Seq<TokenView>, name: Seq<char>) -> Option<TokenView>
    decreases ts.len(),
{
    if ts.len() == 0 {
        None
    } else if ts[0].name == name {
        Some(ts[0])
    } else {
        first_named(ts.skip(1), name)
    }
}

/// The value that a reference ends at, and the targets that were passed. The chain stops at the
/// limit, at a target that was passed before and at one that does not exist; the reference at
/// which it stops stands in the result.
pub open spec fn followed(
    ts: Seq<TokenView>,
    v: ValueView,
    visited: Seq<Seq<char>>,
    depth: nat,
) -> (Seq<char>, Seq<Seq<char>>)
    decreases MAX_REFERENCE_DEPTH - depth,
{
    match target(v) {
        Some(name) => if depth >= MAX_REFERENCE_DEPTH || visited.contains(name) {
            (css_value(v), visited)
        } else {
            match last_named(ts, name) {
                Some(t) => followed(ts, t.value, visited.push(name), depth + 1),
                None => (css_value(v), visited.push(name)),
            }
        },
        None => (css_value(v), visited),
    }
}

/// The declaration of one token; dots in its name become hyphens.
pub open spec fn declaration(ts: Seq<TokenView>, t: TokenView) -> Seq<char> {
    "  --"@ + t.name.map_values(|c: char| if c == '.' { '-' } else { c }) + ": "@ + followed(
        ts,
        t.value,
        Seq::empty(),
        0,
    ).0 + ";"@
}

/// The declarations of all tokens, as one rule.
pub open spec fn custom_properties(ts: Seq<TokenView>) -> Seq<char> {
    text::joined(
        seq![":root {"@] + ts.map_values(|t: TokenView| declaration(ts, t)) + seq!["}"@],
        "\n"@,
    )
}

/// No token before position `i` bears the same name as the one there.
pub open spec fn is_first(ts: Seq<TokenView>, i: int) -> bool {
    forall|k: int| 0 <= k < i ==> (#[trigger] ts[k]).name != ts[i].name
}

/// The tokens whose names occur nowhere among the others.
pub open spec fn new_names(ts: Seq<TokenView>, others: Seq<TokenView>) -> Seq<TokenView>
    decreases ts.len(),
{
    if ts.len() == 0 {
        Seq::empty()
    } else {
        let rest = new_names(ts.drop_last(), others);
        if last_named(others, ts.last().name) is None {
            rest.push(ts.last())
        } else {
            rest
        }
    }
}

/// The base tokens in their order, each with what the overlay has for its name, then the tokens
/// that only the overlay has.
pub open spec fn overlaid(base: Seq<TokenView>, over: Seq<TokenView>) -> Seq<TokenView> {
    Seq::new(
        base.len(),
        |i: int|
            if is_first(base, i) {
                last_named(base + over, base[i].name)->0
            } else {
                base[i]
            },
    ) + new_names(over, base)
}

/// The tokens of a system in a theme.
pub open spec fn themed(s: SystemView, theme: Theme) -> Seq<TokenView> {
    match theme {
        Theme::Light => s.tokens,
        Theme::Dark => overlaid(
            s.tokens,
            match s.dark_tokens {
                Some(dark) => dark,
                None => Seq::empty(),
            },
        ),
    }
}

/// A system over its parent; what comes out inherits from nothing.
pub open spec fn merged(s: SystemView, parent: SystemView) -> SystemView {
    SystemView {
        id: s.id,
        name: s.name,
        tokens: overlaid(parent.tokens, s.tokens),
        dark_tokens: match (parent.dark_tokens, s.dark_tokens) {
            (Some(p), Some(d)) => Some(overlaid(p, d)),
            (Some(p), None) => Some(p),
            (None, Some(d)) => Some(d),
            (None, None) => None,
        },
        extends: None,
    }
}

/// The system with the given id.
pub open spec fn find_system(ss: Seq<SystemView>, id: Seq<char>) -> Option<SystemView>
    decreases ss.len(),
{
    if ss.len() == 0 {
        None
    } else if ss[0].id == id {
        Some(ss[0])
    } else {
        find_system(ss.skip(1), id)
    }
}

/// No two systems have the same id.
pub open spec fn distinct_systems(ss: Seq<SystemView>) -> bool {
    forall|i: int, j: int|
        0 <= i < j < ss.len() ==> (#[trigger] ss[i]).id != (#[trigger] ss[j]).id
}

/// What following the inheritance of a system comes to.
#[verifier::ext_equal]
pub enum Resolution {
    Found(SystemView),
    NotFound(Seq<char>),
    Circular { id: Seq<char>, chain: Seq<Seq<char>> },
}

/// The system with the given id over all that it inherits from. A chain that comes back to an id
/// is circular. One that does not is no longer than there are systems, so that the length is never
/// what ends it.
pub open spec fn resolution(
    ss: Seq<SystemView>,
    id: Seq<char>,
    visited: Seq<Seq<char>>,
) -> Resolution
    decreases ss.len() + 1 - visited.len(),
{
    if visited.contains(id) || visited.len() > ss.len() {
        Resolution::Circular { id, chain: visited }
    } else {
        match find_system(ss, id) {
            None => Resolution::NotFound(id),
            Some(s) => match s.extends {
                None => Resolution::Found(SystemView { extends: None, ..s }),
                Some(parent) => match resolution(ss, parent, visited.push(id)) {
                    Resolution::Found(p) => Resolution::Found(merged(s, p)),
                    other => other,
                },
            },
        }
    }
}

/// The systems with one more, or with one in the place of that with the same id.
pub open spec fn with_system(ss: Seq<SystemView>, s: SystemView) -> Seq<SystemView>
    decreases ss.len(),
{
    if ss.len() == 0 {
        seq![s]
    } else if ss[0].id == s.id {
        seq![s] + ss.skip(1)
    } else {
        seq![ss[0]] + with_system(ss.skip(1), s)
    }
}

/// The systems with one more where none has its id.
pub open spec fn with_missing(ss: Seq<SystemView>, s: SystemView) -> Seq<SystemView> {
    if find_system(ss, s.id) is None {
        ss.push(s)
    } else {
        ss
    }
}

/// The length in bytes of a value's text.
pub open spec fn value_bytes(v: ValueView) -> nat {
    match v {
        ValueView::Color(s) => vstd::utf8::encode_utf8(s).len(),
        ValueView::Shadow(s) => vstd::utf8::encode_utf8(s).len(),
        ValueView::Text(s) => vstd::utf8::encode_utf8(s).len(),
        ValueView::Number(_) => 0,
    }
}

/// The length of the first value that is too long.
pub open spec fn first_too_long(ts: Seq<TokenView>) -> Option<nat>
    decreases ts.len(),
{
    if ts.len() == 0 {
        None
    } else if value_bytes(ts[0].value) > MAX_TOKEN_STR_LEN {
        Some(value_bytes(ts[0].value))
    } else {
        first_too_long(ts.skip(1))
    }
}

/// Why a list of tokens is not imported.
pub open spec fn import_fault(ts: Seq<TokenView>) -> Option<ImportFault> {
    if ts.len() > MAX_IMPORT_TOKENS {
        Some(ImportFault::TooMany(ts.len()))
    } else {
        match first_too_long(ts) {
            Some(n) => Some(ImportFault::TooLong(n)),
            None => None,
        }
    }
}

/// Why a system is not imported: its tokens are looked at first, then those of its dark theme.
pub open spec fn system_fault(s: SystemView) -> Option<ImportFault> {
    match import_fault(s.tokens) {
        Some(f) => Some(f),
        None => match s.dark_tokens {
            Some(dark) => import_fault(dark),
            None => None,
        },
    }
}

/// What can be wrong with a system to be imported.
pub enum ImportFault {
    TooMany(nat),
    TooLong(nat),
}

// ---------------------------------------------------------------------------
// Values and tokens
// ---------------------------------------------------------------------------

impl Clone for TokenValue {
    fn clone(&self) -> (r: Self)
        ensures
            r@ == self@,
    {
        match self {
            TokenValue::Color(s) => TokenValue::Color(s.clone()),
            TokenValue::Number(n) => TokenValue::Number(n.copy()),
            TokenValue::Shadow(s) => TokenValue::Shadow(s.clone()),
            TokenValue::String(s) => TokenValue::String(s.clone()),
        }
    }
}

impl Clone for Token {
    fn clone(&self) -> (r: Self)
        ensures
            r@ == self@,
    {
        Token {
            name: self.name.clone(),
            value: self.value.clone(),
            description: self.description.clone(),
            reading: clone_opt_text(&self.reading),
        }
    }
}

fn clone_tokens(v: &Vec<Token>) -> (r: Vec<Token>)
    ensures
        token_views(r@) == token_views(v@),
{
    let mut out: Vec<Token> = Vec::new();
    let mut i: usize = 0;
    while i < v.len()
        invariant
            i <= v@.len(),
            token_views(out@) == token_views(v@).take(i as int),
        decreases v.len() - i,
    {
        out.push(v[i].clone());
        proof {
            text::lemma_take_step(token_views(v@), i as int);
            assert(token_views(out@) =~= token_views(v@).take(i + 1));
        }
        i = i + 1;
    }
    proof {
        text::lemma_take_all(token_views(v@));
    }
    out
}

fn clone_opt_tokens(o: &Option<Vec<Token>>) -> (r: Option<Vec<Token>>)
    ensures
        opt_token_views(r) == opt_token_views(*o),
{
    match o {
        Some(v) => Some(clone_tokens(v)),
        None => None,
    }
}

impl Clone for DesignSystem {
    fn clone(&self) -> (r: Self)
        ensures
            r@ == self@,
    {
        DesignSystem {
            id: self.id.clone(),
            name: self.name.clone(),
            tokens: clone_tokens(&self.tokens),
            dark_tokens: clone_opt_tokens(&self.dark_tokens),
            extends: clone_opt_text(&self.extends),
        }
    }
}

impl TokenValue {
    /// The value in a style sheet.
    pub fn to_css_value(&self) -> (r: String)
        ensures
            r@ == css_value(self@),
    {
        match self {
            TokenValue::Color(s) => sanitize_css_value(s.as_str(), "transparent"),
            TokenValue::Number(n) => n.text.clone().concat("px"),
            TokenValue::Shadow(s) => sanitize_css_value(s.as_str(), "transparent"),
            TokenValue::String(s) => match strip_prefix(s.as_str(), "token:") {
                Some(name) => wrap("var(--", name.as_str(), ")"),
                None => sanitize_css_value(s.as_str(), ""),
            },
        }
    }

    /// Whether the value refers to another token.
    pub fn is_reference(&self) -> (r: bool)
        ensures
            r == refers(self@),
    {
        match self {
            TokenValue::String(s) => starts_with(s.as_str(), "token:"),
            _ => false,
        }
    }

    /// The name of the token that the value refers to.
    pub fn reference_target(&self) -> (r: Option<String>)
        ensures
            text::opt_text(r) == target(self@),
    {
        match self {
            TokenValue::String(s) => match strip_prefix(s.as_str(), "token:") {
                Some(name) => if name.as_str().is_empty() {
                    None
                } else {
                    Some(name)
                },
                None => None,
            },
            _ => None,
        }
    }
}

fn find_last(tokens: &Vec<Token>, name: &str) -> (r: Option<usize>)
    ensures
        match r {
            Some(i) => i < tokens@.len() && last_named(token_views(tokens@), name@) == Some(
                tokens@[i as int]@,
            ),
            None => last_named(token_views(tokens@), name@) is None,
        },
{
    let ghost views = token_views(tokens@);
    let mut i: usize = tokens.len();
    proof {
        text::lemma_take_all(views);
    }
    while i > 0
        invariant
            i <= tokens@.len(),
            views == token_views(tokens@),
            last_named(views, name@) == last_named(views.take(i as int), name@),
        decreases i,
    {
        proof {
            text::lemma_take_step(views, i - 1);
        }
        if same(tokens[i - 1].name.as_str(), name) {
            return Some(i - 1);
        }
        i = i - 1;
    }
    None
}

fn follow(tokens: &Vec<Token>, value: &TokenValue, visited: &mut Vec<String>, depth: u32) -> (r:
    String)
    requires
        depth <= MAX_REFERENCE_DEPTH,
    ensures
        r@ == followed(
            token_views(tokens@),
            value@,
            text::texts(old(visited)@),
            depth as nat,
        ).0,
        text::texts(final(visited)@) == followed(
            token_views(tokens@),
            value@,
            text::texts(old(visited)@),
            depth as nat,
        ).1,
    decreases MAX_REFERENCE_DEPTH - depth,
{
    match value.reference_target() {
        Some(name) => {
            let passed = text::position(visited, name.as_str()).is_some();
            proof {
                if passed {
                    let i = choose|i: int| 0 <= i < visited@.len() && visited@[i]@ == name@;
                    assert(text::texts(visited@)[i] == name@);
                } else if text::texts(visited@).contains(name@) {
                    let i = choose|i: int|
                        0 <= i < text::texts(visited@).len() && text::texts(visited@)[i] == name@;
                    assert(visited@[i]@ == name@);
                }
            }
            if depth >= MAX_REFERENCE_DEPTH || passed {
                return value.to_css_value();
            }
            let found = find_last(tokens, name.as_str());
            let ghost before = text::texts(visited@);
            visited.push(name);
            proof {
                assert(text::texts(visited@) =~= before.push(name@));
            }
            match found {
                Some(i) => follow(tokens, &tokens[i].value, visited, depth + 1),
                None => value.to_css_value(),
            }
        },
        None => value.to_css_value(),
    }
}

fn properties_of(tokens: &Vec<Token>) -> (r: String)
    ensures
        r@ == custom_properties(token_views(tokens@)),
{
    let ghost views = token_views(tokens@);
    let ghost f = |t: TokenView| declaration(views, t);
    let mut lines: Vec<String> = vec![":root {".to_owned()];
    proof {
        assert(text::texts(lines@) =~= seq![":root {"@] + views.map_values(f).take(0));
    }
    let mut i: usize = 0;
    while i < tokens.len()
        invariant
            i <= tokens@.len(),
            views == token_views(tokens@),
            f == (|t: TokenView| declaration(views, t)),
            text::texts(lines@) == seq![":root {"@] + views.map_values(f).take(i as int),
        decreases tokens.len() - i,
    {
        let mut visited: Vec<String> = Vec::new();
        proof {
            assert(text::texts(visited@) =~= Seq::empty());
        }
        let resolved = follow(tokens, &tokens[i].value, &mut visited, 0);
        let line = wrap(
            "  --",
            replace_char(tokens[i].name.as_str(), '.', '-').as_str(),
            ": ",
        ).concat(resolved.as_str()).concat(";");
        let ghost before = text::texts(lines@);
        lines.push(line);
        proof {
            assert(line@ == declaration(views, views[i as int]));
            text::lemma_take_step(views.map_values(f), i as int);
            assert(text::texts(lines@) =~= before.push(line@));
            assert(before.push(line@) =~= seq![":root {"@] + views.map_values(f).take(i + 1));
        }
        i = i + 1;
    }
    let ghost before = text::texts(lines@);
    lines.push("}".to_owned());
    proof {
        text::lemma_take_all(views.map_values(f));
        assert(text::texts(lines@) =~= before + seq!["}"@]);
    }
    join(&lines, "\n")
}

fn first_at(tokens: &Vec<Token>, at: usize) -> (r: bool)
    requires
        at < tokens@.len(),
    ensures
        r == is_first(token_views(tokens@), at as int),
{
    let ghost views = token_views(tokens@);
    let mut k: usize = 0;
    while k < at
        invariant
            k <= at < tokens@.len(),
            views == token_views(tokens@),
            forall|j: int| 0 <= j < k ==> (#[trigger] views[j]).name != views[at as int].name,
        decreases at - k,
    {
        if same(tokens[k].name.as_str(), tokens[at].name.as_str()) {
            proof {
                assert(views[k as int].name == views[at as int].name);
            }
            return false;
        }
        k = k + 1;
    }
    true
}

proof fn lemma_last_in_both(base: Seq<TokenView>, over: Seq<TokenView>, name: Seq<char>)
    ensures
        last_named(base + over, name) == match last_named(over, name) {
            Some(t) => Some(t),
            None => last_named(base, name),
        },
    decreases over.len(),
{
    if over.len() == 0 {
        assert(base + over =~= base);
    } else {
        lemma_last_in_both(base, over.drop_last(), name);
        assert((base + over).drop_last() =~= base + over.drop_last());
        assert((base + over).last() == over.last());
    }
}

proof fn lemma_last_named(ts: Seq<TokenView>, name: Seq<char>)
    ensures
        match last_named(ts, name) {
            Some(t) => t.name == name,
            None => forall|i: int| 0 <= i < ts.len() ==> (#[trigger] ts[i]).name != name,
        },
    decreases ts.len(),
{
    if ts.len() > 0 {
        lemma_last_named(ts.drop_last(), name);
        assert forall|i: int| 0 <= i < ts.len() && last_named(ts, name) is None implies (
        #[trigger] ts[i]).name != name by {
            if i < ts.len() - 1 {
                assert(ts.drop_last()[i] == ts[i]);
            }
        }
    }
}

/// The base tokens in their order, each with what the overlay has for its name, then the tokens
/// that only the overlay has.
pub fn overlay_tokens(base: &Vec<Token>, overlay: &Vec<Token>) -> (r: Vec<Token>)
    ensures
        token_views(r@) == overlaid(token_views(base@), token_views(overlay@)),
{
    let ghost b = token_views(base@);
    let ghost o = token_views(overlay@);
    let ghost head = overlaid(b, o).take(b.len() as int);
    let mut out: Vec<Token> = Vec::new();
    let mut i: usize = 0;
    proof {
        assert(token_views(out@) =~= head.take(0));
    }
    while i < base.len()
        invariant
            i <= base@.len(),
            b == token_views(base@),
            o == token_views(overlay@),
            head == overlaid(b, o).take(b.len() as int),
            token_views(out@) == head.take(i as int),
        decreases base.len() - i,
    {
        let ghost before = token_views(out@);
        let name = base[i].name.as_str();
        let token = if first_at(base, i) {
            proof {
                lemma_last_in_both(b, o, name@);
                lemma_last_named(b, name@);
                assert(b[i as int].name == name@);
            }
            match find_last(overlay, name) {
                Some(k) => overlay[k].clone(),
                None => match find_last(base, name) {
                    Some(k) => base[k].clone(),
                    None => base[i].clone(),
                },
            }
        } else {
            base[i].clone()
        };
        proof {
            assert(token@ == head[i as int]);
            text::lemma_take_step(head, i as int);
        }
        out.push(token);
        proof {
            assert(token_views(out@) =~= before.push(token@));
        }
        i = i + 1;
    }
    proof {
        text::lemma_take_all(head);
    }
    let mut j: usize = 0;
    proof {
        assert(head + new_names(o.take(0), b) =~= head);
    }
    while j < overlay.len()
        invariant
            j <= overlay@.len(),
            b == token_views(base@),
            o == token_views(overlay@),
            token_views(out@) == head + new_names(o.take(j as int), b),
        decreases overlay.len() - j,
    {
        let ghost before = token_views(out@);
        proof {
            text::lemma_take_step(o, j as int);
        }
        if find_last(base, overlay[j].name.as_str()).is_none() {
            out.push(overlay[j].clone());
            proof {
                assert(token_views(out@) =~= before.push(o[j as int]));
                assert(before.push(o[j as int]) =~= head + new_names(o.take(j as int), b).push(
                    o[j as int],
                ));
            }
        }
        j = j + 1;
    }
    proof {
        text::lemma_take_all(o);
        assert(overlaid(b, o) =~= head + new_names(o, b));
    }
    out
}

impl DesignSystem {
    /// The tokens as custom properties of a style sheet, with references followed.
    pub fn to_css_custom_properties(&self) -> (r: String)
        ensures
            r@ == custom_properties(self@.tokens),
    {
        properties_of(&self.tokens)
    }

    /// The value that a reference ends at. The targets passed on the way are added to `visited`.
    pub fn resolve_reference(&self, value: &TokenValue, visited: &mut Vec<String>) -> (r: String)
        ensures
            r@ == followed(self@.tokens, value@, text::texts(old(visited)@), 0).0,
            text::texts(final(visited)@) == followed(
                self@.tokens,
                value@,
                text::texts(old(visited)@),
                0,
            ).1,
    {
        follow(&self.tokens, value, visited, 0)
    }

    /// The tokens of a theme as custom properties; the dark theme overrides the light one.
    pub fn to_css_custom_properties_for_theme(&self, theme: Theme) -> (r: String)
        ensures
            r@ == custom_properties(themed(self@, theme)),
    {
        match theme {
            Theme::Light => properties_of(&self.tokens),
            Theme::Dark => {
                let none: Vec<Token> = Vec::new();
                proof {
                    assert(token_views(none@) =~= Seq::empty());
                }
                let dark = match &self.dark_tokens {
                    Some(dark) => dark,
                    None => &none,
                };
                properties_of(&overlay_tokens(&self.tokens, dark))
            },
        }
    }

    /// The system over its parent.
    pub fn merge_parent(&self, parent: &DesignSystem) -> (r: DesignSystem)
        ensures
            r@ == merged(self@, parent@),
    {
        let dark_tokens = match (&parent.dark_tokens, &self.dark_tokens) {
            (Some(p), Some(d)) => Some(overlay_tokens(p, d)),
            (Some(p), None) => Some(clone_tokens(p)),
            (None, Some(d)) => Some(clone_tokens(d)),
            (None, None) => None,
        };
        DesignSystem {
            id: self.id.clone(),
            name: self.name.clone(),
            tokens: overlay_tokens(&parent.tokens, &self.tokens),
            dark_tokens,
            extends: None,
        }
    }
}

// ---------------------------------------------------------------------------
// The registry
// ---------------------------------------------------------------------------

/// A system with the id is already registered.
#[derive(Debug)]
pub struct DuplicateError(pub String);

/// No system has the id.
#[derive(Debug)]
pub struct NotFoundError(pub String);

/// Why a system could not be resolved.
#[derive(Debug)]
pub enum ResolveError {
    NotFound(String),
    Circular { id: String, chain: Vec<String> },
}

/// Why a system was not imported.
#[derive(Debug)]
pub enum ImportError {
    TooManyTokens(usize),
    ValueTooLong(usize),
}

/// The registered systems, the one in use and the theme. No two systems have the same id.
#[derive(Debug)]
pub struct DesignSystemRegistry {
    systems: Vec<DesignSystem>,
    active_id: Option<String>,
    active_theme: Theme,
}

/// What a `DesignSystemRegistry` holds.
#[verifier::ext_equal]
pub struct RegistryView {
    pub systems: Seq<SystemView>,
    pub active_id: Option<Seq<char>>,
    pub theme: Theme,
}

/// The systems after the built-in ones were registered.
pub open spec fn with_builtins(ss: Seq<SystemView>) -> Seq<SystemView> {
    with_missing(with_missing(with_missing(ss, apple_hig()), minimal_dashboard()), robot_sim())
}

/// The system in use.
pub open spec fn active_system(r: RegistryView) -> Option<SystemView> {
    match r.active_id {
        Some(id) => find_system(r.systems, id),
        None => None,
    }
}

proof fn lemma_find_system(ss: Seq<SystemView>, id: Seq<char>)
    ensures
        match find_system(ss, id) {
            Some(s) => s.id == id && ss.contains(s),
            None => forall|i: int| 0 <= i < ss.len() ==> (#[trigger] ss[i]).id != id,
        },
    decreases ss.len(),
{
    if ss.len() > 0 {
        let rest = ss.skip(1);
        lemma_find_system(rest, id);
        if ss[0].id != id {
            match find_system(rest, id) {
                Some(s) => {
                    let i = choose|i: int| 0 <= i < rest.len() && rest[i] == s;
                    assert(ss[i + 1] == s);
                },
                None => {
                    assert forall|i: int| 0 <= i < ss.len() implies (#[trigger] ss[i]).id != id by {
                        if i > 0 {
                            assert(rest[i - 1] == ss[i]);
                        }
                    }
                },
            }
        }
    }
}

proof fn lemma_with_system(ss: Seq<SystemView>, s: SystemView, at: int)
    requires
        0 <= at <= ss.len(),
        forall|i: int| 0 <= i < at ==> (#[trigger] ss[i]).id != s.id,
        at < ss.len() ==> ss[at].id == s.id,
    ensures
        with_system(ss, s) == if at < ss.len() {
            ss.update(at, s)
        } else {
            ss.push(s)
        },
    decreases ss.len(),
{
    if ss.len() == 0 {
        assert(with_system(ss, s) =~= ss.push(s));
    } else if at == 0 {
        assert(with_system(ss, s) =~= ss.update(0, s));
    } else {
        let rest = ss.skip(1);
        assert forall|i: int| 0 <= i < at - 1 implies (#[trigger] rest[i]).id != s.id by {
            assert(ss[i + 1] == rest[i]);
        }
        lemma_with_system(rest, s, at - 1);
        if at < ss.len() {
            assert(with_system(ss, s) =~= ss.update(at, s));
        } else {
            assert(with_system(ss, s) =~= ss.push(s));
        }
    }
}

/// Distinct ids that all belong to systems are no more than there are systems.
proof fn lemma_chain_is_short(ss: Seq<SystemView>, chain: Seq<Seq<char>>)
    requires
        chain.no_duplicates(),
        forall|i: int| 0 <= i < chain.len() ==> find_system(ss, #[trigger] chain[i]) is Some,
    ensures
        chain.len() <= ss.len(),
{
    let ids = ss.map_values(|s: SystemView| s.id);
    assert forall|id: Seq<char>| chain.to_set().contains(id) implies ids.to_set().contains(id) by {
        let i = choose|i: int| 0 <= i < chain.len() && chain[i] == id;
        lemma_find_system(ss, chain[i]);
        let s = find_system(ss, chain[i])->0;
        let k = choose|k: int| 0 <= k < ss.len() && ss[k] == s;
        assert(ids[k] == id);
    }
    chain.unique_seq_to_set();
    ids.lemma_cardinality_of_set();
    vstd::seq_lib::seq_to_set_is_finite(ids);
    vstd::set_lib::lemma_len_subset(chain.to_set(), ids.to_set());
}

impl DesignSystemRegistry {
    pub closed spec fn view(&self) -> RegistryView {
        RegistryView {
            systems: system_views(self.systems@),
            active_id: text::opt_text(self.active_id),
            theme: self.active_theme,
        }
    }

    /// No two systems have the same id.
    pub open spec fn wf(&self) -> bool {
        distinct_systems(self@.systems)
    }

    fn index_of(&self, id: &str) -> (r: Option<usize>)
        ensures
            match r {
                Some(i) => i < self.systems@.len() && self@.systems[i as int].id == id@
                    && find_system(self@.systems, id@) == Some(self.systems@[i as int]@)
                    && forall|k: int| 0 <= k < i ==> (#[trigger] self@.systems[k]).id != id@,
                None => find_system(self@.systems, id@) is None,
            },
    {
        let ghost views = self@.systems;
        let mut i: usize = 0;
        proof {
            assert(views.skip(0) =~= views);
        }
        while i < self.systems.len()
            invariant
                i <= self.systems@.len(),
                views == self@.systems,
                find_system(views, id@) == find_system(views.skip(i as int), id@),
                forall|k: int| 0 <= k < i ==> (#[trigger] views[k]).id != id@,
            decreases self.systems.len() - i,
        {
            proof {
                assert(views.skip(i as int)[0] == views[i as int]);
                assert(views.skip(i as int).skip(1) =~= views.skip(i + 1));
            }
            if same(self.systems[i].id.as_str(), id) {
                return Some(i);
            }
            i = i + 1;
        }
        None
    }

    /// A registry without systems, in the light theme.
    pub fn new() -> (r: Self)
        ensures
            r.wf(),
            r@ == (RegistryView { systems: Seq::empty(), active_id: None, theme: Theme::Light }),
    {
        let r = DesignSystemRegistry {
            systems: Vec::new(),
            active_id: None,
            active_theme: Theme::Light,
        };
        proof {
            assert(r@.systems =~= Seq::empty());
        }
        r
    }

    /// Registers a system; one whose id is taken is refused.
    pub fn register(&mut self, system: DesignSystem) -> (r: Result<(), DuplicateError>)
        requires
            old(self).wf(),
        ensures
            final(self).wf(),
            match r {
                Ok(_) => find_system(old(self)@.systems, system@.id) is None && final(self)@ == (
                RegistryView { systems: old(self)@.systems.push(system@), ..old(self)@ }),
                Err(e) => find_system(old(self)@.systems, system@.id) is Some && e.0@ == system@.id
                    && final(self)@ == old(self)@,
            },
    {
        if self.index_of(system.id.as_str()).is_some() {
            return Err(DuplicateError(system.id));
        }
        proof {
            lemma_find_system(self@.systems, system@.id);
        }
        self.systems.push(system);
        proof {
            assert(self@.systems =~= old(self)@.systems.push(system@));
        }
        Ok(())
    }

    /// Puts a system in use; an unknown one is refused.
    pub fn activate(&mut self, id: &str) -> (r: Result<(), NotFoundError>)
        requires
            old(self).wf(),
        ensures
            final(self).wf(),
            match r {
                Ok(_) => find_system(old(self)@.systems, id@) is Some && final(self)@ == (
                RegistryView { active_id: Some(id@), ..old(self)@ }),
                Err(e) => find_system(old(self)@.systems, id@) is None && e.0@ == id@
                    && final(self)@ == old(self)@,
            },
    {
        if self.index_of(id).is_none() {
            return Err(NotFoundError(id.to_owned()));
        }
        self.active_id = Some(id.to_owned());
        Ok(())
    }

    /// Switches the theme.
    pub fn activate_theme(&mut self, theme: Theme)
        requires
            old(self).wf(),
        ensures
            final(self).wf(),
            final(self)@ == (RegistryView { theme, ..old(self)@ }),
    {
        self.active_theme = theme;
    }

    /// The theme.
    pub fn current_theme(&self) -> (r: Theme)
        ensures
            r == self@.theme,
    {
        self.active_theme
    }

    /// The system in use.
    pub fn active(&self) -> (r: Option<&DesignSystem>)
        ensures
            match r {
                Some(s) => active_system(self@) == Some(s@),
                None => active_system(self@) is None,
            },
    {
        match &self.active_id {
            Some(id) => self.get(id.as_str()),
            None => None,
        }
    }

    /// The ids of the systems.
    pub fn list(&self) -> (r: Vec<String>)
        ensures
            text::texts(r@) == self@.systems.map_values(|s: SystemView| s.id),
    {
        let ghost f = |s: SystemView| s.id;
        let mut out: Vec<String> = Vec::new();
        let mut i: usize = 0;
        while i < self.systems.len()
            invariant
                i <= self.systems@.len(),
                out@.len() == i,
                forall|k: int| 0 <= k < i ==> (#[trigger] out@[k])@ == self@.systems[k].id,
            decreases self.systems.len() - i,
        {
            out.push(self.systems[i].id.clone());
            i = i + 1;
        }
        proof {
            assert(text::texts(out@) =~= self@.systems.map_values(f));
        }
        out
    }

    /// The system with the given id.
    pub fn get(&self, id: &str) -> (r: Option<&DesignSystem>)
        ensures
            match r {
                Some(s) => find_system(self@.systems, id@) == Some(s@),
                None => find_system(self@.systems, id@) is None,
            },
    {
        match self.index_of(id) {
            Some(i) => Some(&self.systems[i]),
            None => None,
        }
    }

    /// The system with the given id over all that it inherits from.
    pub fn resolve(&self, id: &str) -> (r: Result<DesignSystem, ResolveError>)
        ensures
            match resolution(self@.systems, id@, Seq::empty()) {
                Resolution::Found(s) => r is Ok && r->Ok_0@ == s,
                Resolution::NotFound(n) => r matches Err(ResolveError::NotFound(name)) && name@
                    == n,
                Resolution::Circular { id: at, chain: c } => r matches Err(
                    ResolveError::Circular { id, chain },
                ) && id@ == at && text::texts(chain@) == c,
            },
    {
        let mut visited: Vec<String> = Vec::new();
        proof {
            assert(text::texts(visited@) =~= Seq::empty());
        }
        self.resolve_inner(id, &mut visited)
    }

    fn resolve_inner(&self, id: &str, visited: &mut Vec<String>) -> (r: Result<
        DesignSystem,
        ResolveError,
    >)
        requires
            text::texts(old(visited)@).no_duplicates(),
            forall|i: int|
                0 <= i < old(visited)@.len() ==> find_system(
                    self@.systems,
                    #[trigger] text::texts(old(visited)@)[i],
                ) is Some,
        ensures
            match resolution(self@.systems, id@, text::texts(old(visited)@)) {
                Resolution::Found(s) => r is Ok && r->Ok_0@ == s,
                Resolution::NotFound(n) => r matches Err(ResolveError::NotFound(name)) && name@
                    == n,
                Resolution::Circular { id: at, chain: c } => r matches Err(
                    ResolveError::Circular { id, chain },
                ) && id@ == at && text::texts(chain@) == c,
            },
        decreases self@.systems.len() + 1 - old(visited)@.len(),
    {
        let ghost chain = text::texts(visited@);
        proof {
            lemma_chain_is_short(self@.systems, chain);
        }
        let passed = text::position(visited, id).is_some();
        proof {
            if passed {
                let i = choose|i: int| 0 <= i < visited@.len() && visited@[i]@ == id@;
                assert(chain[i] == id@);
            } else if chain.contains(id@) {
                let i = choose|i: int| 0 <= i < chain.len() && chain[i] == id@;
                assert(visited@[i]@ == id@);
            }
        }
        if passed {
            return Err(
                ResolveError::Circular { id: id.to_owned(), chain: text::clone_texts(visited) },
            );
        }
        let system = match self.get(id) {
            Some(s) => s,
            None => return Err(ResolveError::NotFound(id.to_owned())),
        };
        visited.push(id.to_owned());
        proof {
            assert(text::texts(visited@) =~= chain.push(id@));
            lemma_chain_is_short(self@.systems, chain.push(id@));
        }
        match &system.extends {
            Some(parent) => {
                match self.resolve_inner(parent.as_str(), visited) {
                    Ok(p) => Ok(system.merge_parent(&p)),
                    Err(e) => Err(e),
                }
            },
            None => {
                let mut out = system.clone();
                out.extends = None;
                Ok(out)
            },
        }
    }

    fn add_missing(&mut self, system: DesignSystem)
        requires
            old(self).wf(),
        ensures
            final(self).wf(),
            final(self)@ == (RegistryView {
                systems: with_missing(old(self)@.systems, system@),
                ..old(self)@
            }),
    {
        let _ = self.register(system);
    }

    /// Registers the built-in systems, but for those whose ids are taken.
    pub fn register_builtin(&mut self)
        requires
            old(self).wf(),
        ensures
            final(self).wf(),
            final(self)@ == (RegistryView {
                systems: with_builtins(old(self)@.systems),
                ..old(self)@
            }),
    {
        self.add_missing(builtin_apple_hig());
        self.add_missing(builtin_minimal_dashboard());
        self.add_missing(builtin_robot_sim());
    }

    /// The value of a token of the system in use.
    pub fn lookup(&self, token_name: &str) -> (r: Option<&TokenValue>)
        ensures
            match active_system(self@) {
                Some(s) => match first_named(s.tokens, token_name@) {
                    Some(t) => r is Some && r->0@ == t.value,
                    None => r is None,
                },
                None => r is None,
            },
    {
        let system = match self.active() {
            Some(s) => s,
            None => return None,
        };
        let ghost views = token_views(system.tokens@);
        let mut i: usize = 0;
        proof {
            assert(views.skip(0) =~= views);
        }
        while i < system.tokens.len()
            invariant
                i <= system.tokens@.len(),
                views == token_views(system.tokens@),
                active_system(self@) == Some(system@),
                first_named(views, token_name@) == first_named(
                    views.skip(i as int),
                    token_name@,
                ),
            decreases system.tokens.len() - i,
        {
            proof {
                assert(views.skip(i as int)[0] == views[i as int]);
                assert(views.skip(i as int).skip(1) =~= views.skip(i + 1));
            }
            if same(system.tokens[i].name.as_str(), token_name) {
                return Some(&system.tokens[i].value);
            }
            i = i + 1;
        }
        None
    }

    /// Takes a system in, in the place of one with the same id. One with too many tokens or with
    /// too long a value is refused.
    pub fn import(&mut self, system: DesignSystem) -> (r: Result<(), ImportError>)
        requires
            old(self).wf(),
        ensures
            final(self).wf(),
            match system_fault(system@) {
                None => r is Ok && final(self)@ == (RegistryView {
                    systems: with_system(old(self)@.systems, system@),
                    ..old(self)@
                }),
                Some(ImportFault::TooMany(n)) => r matches Err(ImportError::TooManyTokens(k)) && k
                    == n && final(self)@ == old(self)@,
                Some(ImportFault::TooLong(n)) => r matches Err(ImportError::ValueTooLong(k)) && k
                    == n && final(self)@ == old(self)@,
            },
    {
        match validate_tokens(&system.tokens) {
            Ok(_) => {},
            Err(e) => return Err(e),
        }
        match &system.dark_tokens {
            Some(dark) => match validate_tokens(dark) {
                Ok(_) => {},
                Err(e) => return Err(e),
            },
            None => {},
        }
        let ghost before = self@.systems;
        match self.index_of(system.id.as_str()) {
            Some(i) => {
                proof {
                    lemma_with_system(before, system@, i as int);
                }
                self.systems.set(i, system);
                proof {
                    assert(self@.systems =~= before.update(i as int, system@));
                }
            },
            None => {
                proof {
                    lemma_find_system(before, system@.id);
                    lemma_with_system(before, system@, before.len() as int);
                }
                self.systems.push(system);
                proof {
                    assert(self@.systems =~= before.push(system@));
                }
            },
        }
        Ok(())
    }
}

impl Default for DesignSystemRegistry {
    fn default() -> (r: Self)
        ensures
            r.wf(),
            r@ == (RegistryView { systems: Seq::empty(), active_id: None, theme: Theme::Light }),
    {
        DesignSystemRegistry::new()
    }
}

/// Refuses a value whose text is too long.
pub fn validate_token_value(v: &TokenValue) -> (r: Result<(), ImportError>)
    ensures
        match r {
            Ok(_) => value_bytes(v@) <= MAX_TOKEN_STR_LEN,
            Err(ImportError::ValueTooLong(n)) => n == value_bytes(v@) && n > MAX_TOKEN_STR_LEN,
            Err(_) => false,
        },
{
    let n: usize = match v {
        TokenValue::Color(s) => s.as_str().as_bytes().len(),
        TokenValue::Shadow(s) => s.as_str().as_bytes().len(),
        TokenValue::String(s) => s.as_str().as_bytes().len(),
        TokenValue::Number(_) => 0,
    };
    if n > MAX_TOKEN_STR_LEN {
        Err(ImportError::ValueTooLong(n))
    } else {
        Ok(())
    }
}

fn validate_tokens(tokens: &Vec<Token>) -> (r: Result<(), ImportError>)
    ensures
        match import_fault(token_views(tokens@)) {
            None => r is Ok,
            Some(ImportFault::TooMany(n)) => r matches Err(ImportError::TooManyTokens(k)) && k == n,
            Some(ImportFault::TooLong(n)) => r matches Err(ImportError::ValueTooLong(k)) && k == n,
        },
{
    if tokens.len() > MAX_IMPORT_TOKENS {
        return Err(ImportError::TooManyTokens(tokens.len()));
    }
    let ghost views = token_views(tokens@);
    let mut i: usize = 0;
    proof {
        assert(views.skip(0) =~= views);
    }
    while i < tokens.len()
        invariant
            i <= tokens@.len() <= MAX_IMPORT_TOKENS,
            views == token_views(tokens@),
            first_too_long(views) == first_too_long(views.skip(i as int)),
        decreases tokens.len() - i,
    {
        proof {
            assert(views.skip(i as int)[0] == views[i as int]);
            assert(views.skip(i as int).skip(1) =~= views.skip(i + 1));
        }
        match validate_token_value(&tokens[i].value) {
            Ok(_) => {},
            Err(e) => return Err(e),
        }
        i = i + 1;
    }
    Ok(())
}

// ---------------------------------------------------------------------------
// The built-in systems
// ---------------------------------------------------------------------------

pub open spec fn color_token(name: Seq<char>, color: Seq<char>, about: Seq<char>) -> TokenView {
    TokenView { name, value: ValueView::Color(color), description: about, reading: None }
}

pub open spec fn number_token(
    name: Seq<char>,
    bits: u64,
    number: Seq<char>,
    about: Seq<char>,
) -> TokenView {
    TokenView {
        name,
        value: ValueView::Number(NumView { bits, text: number }),
        description: about,
        reading: None,
    }
}

pub open spec fn apple_hig() -> SystemView {
    SystemView {
        id: "apple-hig"@,
        name: "Apple HIG"@,
        tokens: seq![
            color_token("color.bg"@, "#F2F2F7"@, "系统背景"@),
            color_token("color.fg"@, "#1C1C1E"@, "主前景"@),
            color_token("color.accent"@, "#007AFF"@, "系统强调色"@),
            number_token("font.size.body"@, 0x4031_0000_0000_0000, "17"@, "正文字号"@),
            number_token("radius.card"@, 0x4024_0000_0000_0000, "10"@, "卡片圆角"@),
        ],
        dark_tokens: Some(
            seq![
                color_token("color.bg"@, "#1C1C1E"@, "暗色背景"@),
                color_token("color.fg"@, "#F2F2F7"@, "暗色前景"@),
                color_token("color.accent"@, "#0A84FF"@, "暗色强调"@),
                number_token("font.size.body"@, 0x4031_0000_0000_0000, "17"@, "正文字号"@),
                number_token("radius.card"@, 0x4024_0000_0000_0000, "10"@, "卡片圆角"@),
            ],
        ),
        extends: None,
    }
}

pub open spec fn minimal_dashboard() -> SystemView {
    SystemView {
        id: "minimal-dashboard"@,
        name: "极简后台"@,
        tokens: seq![
            color_token("color.bg"@, "#FFFFFF"@, "纯白背景"@),
            color_token("color.fg"@, "#374151"@, "深灰前景"@),
            color_token("color.accent"@, "#10B981"@, "绿色强调"@),
            number_token("font.size.body"@, 0x402c_0000_0000_0000, "14"@, "正文字号"@),
            number_token("radius.card"@, 0x4018_0000_0000_0000, "6"@, "卡片圆角"@),
        ],
        dark_tokens: None,
        extends: None,
    }
}

pub open spec fn robot_sim_light() -> Seq<TokenView> {
    seq![
        color_token("color.bg"@, "#0F1115"@, "控制台深色背景"@),
        color_token("color.surface"@, "#1A1F26"@, "面板/卡片表面"@),
        color_token("color.fg"@, "#E6EDF3"@, "主前景（高对比浅色）"@),
        color_token("color.muted"@, "#7D8590"@, "次要文本/标注"@),
        color_token("color.accent"@, "#2F81F7"@, "主交互强调（蓝）"@),
        color_token("color.success"@, "#3FB950"@, "运行正常/在线"@),
        color_token("color.warning"@, "#D29922"@, "告警/阈值临近"@),
        color_token("color.danger"@, "#F85149"@, "故障/急停/离线"@),
        number_token(
            "font.size.body"@,
            0x402a_0000_0000_0000,
            "13"@,
            "正文字号（紧凑工程界面）"@,
        ),
        number_token(
            "font.size.mono"@,
            0x4028_0000_0000_0000,
            "12"@,
            "遥测/日志等宽数据字号"@,
        ),
        TokenView {
            name: "font.mono"@,
            value: ValueView::Text("SF Mono, Menlo, monospace"@),
            description: "等宽字体族（遥测/坐标/日志）"@,
            reading: None,
        },
        number_token("radius.panel"@, 0x4010_0000_0000_0000, "4"@, "面板圆角（锐利工程风）"@),
        number_token("spacing.gauge"@, 0x4020_0000_0000_0000, "8"@, "仪表/控件间距基准"@),
        TokenView {
            name: "shadow.panel"@,
            value: ValueView::Shadow("0 1px 0 rgba(0,0,0,0.4)"@),
            description: "面板内阴影（深色浮起）"@,
            reading: None,
        },
    ]
}

pub open spec fn robot_sim_dark() -> Seq<TokenView> {
    seq![
        color_token("color.bg"@, "#010409"@, "夜间极深背景"@),
        color_token("color.surface"@, "#0D1117"@, "夜间面板表面"@),
        color_token("color.fg"@, "#F0F6FC"@, "夜间高对比前景"@),
        color_token("color.accent"@, "#1F6FEB"@, "夜间强调"@),
        color_token("color.success"@, "#238636"@, "夜间运行正常"@),
        color_token("color.danger"@, "#DA3633"@, "夜间故障"@),
        number_token("font.size.body"@, 0x402a_0000_0000_0000, "13"@, "正文字号"@),
        number_token("radius.panel"@, 0x4010_0000_0000_0000, "4"@, "面板圆角"@),
    ]
}

pub open spec fn robot_sim() -> SystemView {
    SystemView {
        id: "robot-sim"@,
        name: "机器人仿真控制台"@,
        tokens: robot_sim_light(),
        dark_tokens: Some(robot_sim_dark()),
        extends: None,
    }
}

fn color(name: &str, value: &str, about: &str) -> (r: Token)
    ensures
        r@ == color_token(name@, value@, about@),
{
    Token {
        name: name.to_owned(),
        value: TokenValue::Color(value.to_owned()),
        description: about.to_owned(),
        reading: None,
    }
}

fn number(name: &str, bits: u64, digits: &str, about: &str) -> (r: Token)
    ensures
        r@ == number_token(name@, bits, digits@, about@),
{
    Token {
        name: name.to_owned(),
        value: TokenValue::Number(Num { bits, text: digits.to_owned() }),
        description: about.to_owned(),
        reading: None,
    }
}

/// The system after Apple's guidelines.
pub fn builtin_apple_hig() -> (r: DesignSystem)
    ensures
        r@ == apple_hig(),
{
    let tokens: Vec<Token> = vec![
        color("color.bg", "#F2F2F7", "系统背景"),
        color("color.fg", "#1C1C1E", "主前景"),
        color("color.accent", "#007AFF", "系统强调色"),
        number("font.size.body", 0x4031_0000_0000_0000, "17", "正文字号"),
        number("radius.card", 0x4024_0000_0000_0000, "10", "卡片圆角"),
    ];
    let dark: Vec<Token> = vec![
        color("color.bg", "#1C1C1E", "暗色背景"),
        color("color.fg", "#F2F2F7", "暗色前景"),
        color("color.accent", "#0A84FF", "暗色强调"),
        number("font.size.body", 0x4031_0000_0000_0000, "17", "正文字号"),
        number("radius.card", 0x4024_0000_0000_0000, "10", "卡片圆角"),
    ];
    proof {
        assert(token_views(tokens@) =~= apple_hig().tokens);
        assert(token_views(dark@) =~= apple_hig().dark_tokens->0);
    }
    DesignSystem {
        id: "apple-hig".to_owned(),
        name: "Apple HIG".to_owned(),
        tokens,
        dark_tokens: Some(dark),
        extends: None,
    }
}

/// The system for plain dashboards.
pub fn builtin_minimal_dashboard() -> (r: DesignSystem)
    ensures
        r@ == minimal_dashboard(),
{
    let tokens: Vec<Token> = vec![
        color("color.bg", "#FFFFFF", "纯白背景"),
        color("color.fg", "#374151", "深灰前景"),
        color("color.accent", "#10B981", "绿色强调"),
        number("font.size.body", 0x402c_0000_0000_0000, "14", "正文字号"),
        number("radius.card", 0x4018_0000_0000_0000, "6", "卡片圆角"),
    ];
    proof {
        assert(token_views(tokens@) =~= minimal_dashboard().tokens);
    }
    DesignSystem {
        id: "minimal-dashboard".to_owned(),
        name: "极简后台".to_owned(),
        tokens,
        dark_tokens: None,
        extends: None,
    }
}

/// The system for robot simulation consoles.
pub fn builtin_robot_sim() -> (r: DesignSystem)
    ensures
        r@ == robot_sim(),
{
    let tokens: Vec<Token> = vec![
        color("color.bg", "#0F1115", "控制台深色背景"),
        color("color.surface", "#1A1F26", "面板/卡片表面"),
        color("color.fg", "#E6EDF3", "主前景（高对比浅色）"),
        color("color.muted", "#7D8590", "次要文本/标注"),
        color("color.accent", "#2F81F7", "主交互强调（蓝）"),
        color("color.success", "#3FB950", "运行正常/在线"),
        color("color.warning", "#D29922", "告警/阈值临近"),
        color("color.danger", "#F85149", "故障/急停/离线"),
        number("font.size.body", 0x402a_0000_0000_0000, "13", "正文字号（紧凑工程界面）"),
        number("font.size.mono", 0x4028_0000_0000_0000, "12", "遥测/日志等宽数据字号"),
        Token {
            name: "font.mono".to_owned(),
            value: TokenValue::String("SF Mono, Menlo, monospace".to_owned()),
            description: "等宽字体族（遥测/坐标/日志）".to_owned(),
            reading: None,
        },
        number("radius.panel", 0x4010_0000_0000_0000, "4", "面板圆角（锐利工程风）"),
        number("spacing.gauge", 0x4020_0000_0000_0000, "8", "仪表/控件间距基准"),
        Token {
            name: "shadow.panel".to_owned(),
            value: TokenValue::Shadow("0 1px 0 rgba(0,0,0,0.4)".to_owned()),
            description: "面板内阴影（深色浮起）".to_owned(),
            reading: None,
        },
    ];
    let dark: Vec<Token> = vec![
        color("color.bg", "#010409", "夜间极深背景"),
        color("color.surface", "#0D1117", "夜间面板表面"),
        color("color.fg", "#F0F6FC", "夜间高对比前景"),
        color("color.accent", "#1F6FEB", "夜间强调"),
        color("color.success", "#238636", "夜间运行正常"),
        color("color.danger", "#DA3633", "夜间故障"),
        number("font.size.body", 0x402a_0000_0000_0000, "13", "正文字号"),
        number("radius.panel", 0x4010_0000_0000_0000, "4", "面板圆角"),
    ];
    proof {
        assert(token_views(tokens@) =~= robot_sim_light());
        assert(token_views(dark@) =~= robot_sim_dark());
    }
    DesignSystem {
        id: "robot-sim".to_owned(),
        name: "机器人仿真控制台".to_owned(),
        tokens,
        dark_tokens: Some(dark),
        extends: None,
    }
}

// ---------------------------------------------------------------------------
// Laws
// ---------------------------------------------------------------------------

proof fn lemma_missing_keeps(ss: Seq<SystemView>, s: SystemView, id: Seq<char>)
    ensures
        find_system(ss, id) is Some ==> find_system(with_missing(ss, s), id) == find_system(ss, id),
        find_system(with_missing(ss, s), s.id) is Some,
    decreases ss.len(),
{
    lemma_find_push(ss, s, id);
    lemma_find_push(ss, s, s.id);
}

proof fn lemma_find_push(ss: Seq<SystemView>, s: SystemView, id: Seq<char>)
    ensures
        find_system(ss.push(s), id) == if find_system(ss, id) is Some {
            find_system(ss, id)
        } else if s.id == id {
            Some(s)
        } else {
            None
        },
    decreases ss.len(),
{
    reveal_with_fuel(find_system, 2);
    if ss.len() > 0 {
        lemma_find_push(ss.skip(1), s, id);
        assert(ss.push(s).skip(1) =~= ss.skip(1).push(s));
    } else {
        assert(ss.push(s).skip(1) =~= Seq::empty());
    }
}

/// Registering the built-in systems leaves every system that was there as it was.
pub proof fn law_builtins_overwrite_nothing(ss: Seq<SystemView>, id: Seq<char>)
    requires
        find_system(ss, id) is Some,
    ensures
        find_system(with_builtins(ss), id) == find_system(ss, id),
{
    let a = with_missing(ss, apple_hig());
    let b = with_missing(a, minimal_dashboard());
    lemma_missing_keeps(ss, apple_hig(), id);
    lemma_missing_keeps(a, minimal_dashboard(), id);
    lemma_missing_keeps(b, robot_sim(), id);
}

/// Registering the built-in systems again changes nothing.
pub proof fn law_builtins_are_idempotent(ss: Seq<SystemView>)
    ensures
        with_builtins(with_builtins(ss)) == with_builtins(ss),
{
    let a = with_missing(ss, apple_hig());
    let b = with_missing(a, minimal_dashboard());
    let c = with_missing(b, robot_sim());
    lemma_missing_keeps(ss, apple_hig(), apple_hig().id);
    lemma_missing_keeps(a, minimal_dashboard(), apple_hig().id);
    lemma_missing_keeps(b, robot_sim(), apple_hig().id);
    lemma_missing_keeps(a, minimal_dashboard(), minimal_dashboard().id);
    lemma_missing_keeps(b, robot_sim(), minimal_dashboard().id);
    lemma_missing_keeps(b, robot_sim(), robot_sim().id);
}

/// What a resolved system comes to inherits from nothing and keeps its id.
pub proof fn law_resolved_system_stands_alone(
    ss: Seq<SystemView>,
    id: Seq<char>,
    visited: Seq<Seq<char>>,
)
    ensures
        resolution(ss, id, visited) matches Resolution::Found(s) ==> s.extends is None && s.id
            == id,
{
    lemma_find_system(ss, id);
}

/// Each of the named systems inherits from the one named after it, the last from `next`, and none
/// is named twice.
pub open spec fn inherits_along(
    ss: Seq<SystemView>,
    chain: Seq<Seq<char>>,
    next: Seq<char>,
) -> bool {
    &&& chain.no_duplicates()
    &&& forall|i: int|
        0 <= i < chain.len() ==> (find_system(ss, #[trigger] chain[i]) matches Some(s) && s.extends
            == Some(if i + 1 < chain.len() {
            chain[i + 1]
        } else {
            next
        }))
}

proof fn lemma_circle_from(ss: Seq<SystemView>, chain: Seq<Seq<char>>, back: Seq<char>, k: int)
    requires
        inherits_along(ss, chain, back),
        chain.contains(back),
        0 <= k <= chain.len(),
    ensures
        resolution(
            ss,
            if k < chain.len() {
                chain[k]
            } else {
                back
            },
            chain.take(k),
        ) == (Resolution::Circular { id: back, chain }),
    decreases chain.len() - k,
{
    lemma_chain_is_short(ss, chain);
    if k < chain.len() {
        assert(!chain.take(k).contains(chain[k]));
        assert(chain.take(k).push(chain[k]) =~= chain.take(k + 1));
        lemma_circle_from(ss, chain, back, k + 1);
    } else {
        assert(chain.take(k) =~= chain);
    }
}

proof fn lemma_circular_after(ss: Seq<SystemView>, id: Seq<char>, visited: Seq<Seq<char>>)
    requires
        inherits_along(ss, visited, id),
    ensures
        resolution(ss, id, visited) matches Resolution::Circular { id: back, chain } ==> {
            &&& chain.len() > 0
            &&& chain[0] == (if visited.len() > 0 {
                visited[0]
            } else {
                id
            })
            &&& inherits_along(ss, chain, back)
            &&& chain.contains(back)
        },
    decreases ss.len() + 1 - visited.len(),
{
    lemma_chain_is_short(ss, visited);
    if !visited.contains(id) {
        if let Some(s) = find_system(ss, id) {
            if let Some(parent) = s.extends {
                let longer = visited.push(id);
                assert forall|i: int| 0 <= i < longer.len() implies (find_system(
                    ss,
                    #[trigger] longer[i],
                ) matches Some(s) && s.extends == Some(if i + 1 < longer.len() {
                    longer[i + 1]
                } else {
                    parent
                })) by {
                    if i < visited.len() {
                        assert(longer[i] == visited[i]);
                    }
                }
                lemma_chain_is_short(ss, longer);
                lemma_circular_after(ss, parent, longer);
            }
        }
    }
}

/// Systems that inherit from each other in a circle cannot be resolved: the system that the chain
/// comes back to is reported, with all that were passed.
pub proof fn law_circle_is_reported(ss: Seq<SystemView>, chain: Seq<Seq<char>>, back: Seq<char>)
    requires
        inherits_along(ss, chain, back),
        chain.contains(back),
    ensures
        resolution(ss, chain[0], Seq::empty()) == (Resolution::Circular { id: back, chain }),
{
    lemma_circle_from(ss, chain, back, 0);
    assert(chain.take(0) =~= Seq::empty());
}

/// Nothing but a circle is reported as one: the reported chain starts where it was asked for, each
/// of its systems inherits from the next, and the last from one that was passed before.
pub proof fn law_only_circles_are_reported(ss: Seq<SystemView>, id: Seq<char>)
    ensures
        resolution(ss, id, Seq::empty()) matches Resolution::Circular { id: back, chain } ==> {
            &&& chain.len() > 0
            &&& chain[0] == id
            &&& inherits_along(ss, chain, back)
            &&& chain.contains(back)
        },
{
    lemma_circular_after(ss, id, Seq::empty());
}

pub(crate) proof fn lemma_first_named(ts: Seq<TokenView>, name: Seq<char>, at: int)
    requires
        0 <= at < ts.len(),
        ts[at].name == name,
        forall|i: int| 0 <= i < at ==> (#[trigger] ts[i]).name != name,
    ensures
        first_named(ts, name) == Some(ts[at]),
    decreases ts.len(),
{
    if at > 0 {
        let rest = ts.skip(1);
        assert forall|i: int| 0 <= i < at - 1 implies (#[trigger] rest[i]).name != name by {
            assert(rest[i] == ts[i + 1]);
        }
        lemma_first_named(rest, name, at - 1);
    }
}

/// The position of the first token with the name.
proof fn lemma_first_position(ts: Seq<TokenView>, name: Seq<char>) -> (at: int)
    requires
        last_named(ts, name) is Some,
    ensures
        0 <= at < ts.len(),
        ts[at].name == name,
        is_first(ts, at),
    decreases ts.len(),
{
    if last_named(ts.drop_last(), name) is Some {
        let at = lemma_first_position(ts.drop_last(), name);
        assert(ts[at] == ts.drop_last()[at]);
        assert forall|k: int| 0 <= k < at implies (#[trigger] ts[k]).name != ts[at].name by {
            assert(ts.drop_last()[k] == ts[k]);
        }
        at
    } else {
        lemma_last_named(ts.drop_last(), name);
        assert forall|k: int| 0 <= k < ts.len() - 1 implies (#[trigger] ts[k]).name != name by {
            assert(ts.drop_last()[k] == ts[k]);
        }
        ts.len() - 1
    }
}

/// Where a name is found in the base, it is found in the overlaid tokens, at the same place, with
/// the value that the overlay has for it, or, without one, with that of the base.
pub proof fn law_overlay_wins(base: Seq<TokenView>, over: Seq<TokenView>, name: Seq<char>)
    requires
        last_named(base, name) is Some,
    ensures
        first_named(overlaid(base, over), name) == match last_named(over, name) {
            Some(t) => Some(t),
            None => last_named(base, name),
        },
{
    let all = overlaid(base, over);
    let at = lemma_first_position(base, name);
    lemma_last_in_both(base, over, name);
    lemma_last_named(over, name);
    lemma_last_named(base, name);
    assert(all[at] == last_named(base + over, name)->0);
    assert forall|i: int| 0 <= i < at implies (#[trigger] all[i]).name != name by {
        lemma_last_in_both(base, over, base[i].name);
        lemma_last_named(over, base[i].name);
        lemma_last_named(base, base[i].name);
        assert(base[i].name != name);
    }
    lemma_first_named(all, name, at);
}

/// A token whose name the base does not have is added: nothing of the overlay is lost.
pub proof fn law_overlay_adds_new_names(base: Seq<TokenView>, over: Seq<TokenView>, i: int)
    requires
        0 <= i < over.len(),
        last_named(base, over[i].name) is None,
    ensures
        overlaid(base, over).contains(over[i]),
{
    lemma_new_name_kept(over, base, i);
    let k = choose|k: int|
        0 <= k < new_names(over, base).len() && new_names(over, base)[k] == over[i];
    assert(overlaid(base, over)[base.len() + k] == over[i]);
}

proof fn lemma_new_name_kept(ts: Seq<TokenView>, others: Seq<TokenView>, i: int)
    requires
        0 <= i < ts.len(),
        last_named(others, ts[i].name) is None,
    ensures
        new_names(ts, others).contains(ts[i]),
    decreases ts.len(),
{
    let rest = new_names(ts.drop_last(), others);
    if i == ts.len() - 1 {
        assert(new_names(ts, others)[rest.len() as int] == ts[i]);
    } else {
        lemma_new_name_kept(ts.drop_last(), others, i);
        let k = choose|k: int| 0 <= k < rest.len() && rest[k] == ts[i];
        assert(new_names(ts, others)[k] == ts[i]);
    }
}

/// An overlay whose names the base all has adds no token: there are as many as in the base.
pub proof fn law_overriding_adds_nothing(base: Seq<TokenView>, over: Seq<TokenView>)
    requires
        forall|i: int| 0 <= i < over.len() ==> last_named(base, (#[trigger] over[i]).name) is Some,
    ensures
        overlaid(base, over).len() == base.len(),
{
    lemma_no_new_names(over, base);
}

proof fn lemma_no_new_names(ts: Seq<TokenView>, others: Seq<TokenView>)
    requires
        forall|i: int| 0 <= i < ts.len() ==> last_named(others, (#[trigger] ts[i]).name) is Some,
    ensures
        new_names(ts, others).len() == 0,
    decreases ts.len(),
{
    if ts.len() > 0 {
        assert forall|i: int| 0 <= i < ts.drop_last().len() implies last_named(
            others,
            (#[trigger] ts.drop_last()[i]).name,
        ) is Some by {
            assert(ts.drop_last()[i] == ts[i]);
        }
        lemma_no_new_names(ts.drop_last(), others);
        assert(ts[ts.len() - 1] == ts.last());
    }
}

/// A reference whose target holds a value of its own stands for that value.
pub proof fn law_reference_stands_for_its_target(
    ts: Seq<TokenView>,
    v: ValueView,
    name: Seq<char>,
    t: TokenView,
)
    requires
        target(v) == Some(name),
        last_named(ts, name) == Some(t),
        target(t.value) is None,
    ensures
        followed(ts, v, Seq::empty(), 0).0 == css_value(t.value),
{
    reveal_with_fuel(followed, 2);
}

/// Following references ends, and the result is the sheet value of the last reference or value
/// that was reached: of the one given or of a token's.
pub proof fn law_following_ends_at_a_value(
    ts: Seq<TokenView>,
    v: ValueView,
    visited: Seq<Seq<char>>,
    depth: nat,
)
    ensures
        followed(ts, v, visited, depth).0 == css_value(v) || exists|i: int|
            0 <= i < ts.len() && followed(ts, v, visited, depth).0 == css_value(
                (#[trigger] ts[i]).value,
            ),
    decreases MAX_REFERENCE_DEPTH - depth,
{
    match target(v) {
        Some(name) => if !(depth >= MAX_REFERENCE_DEPTH || visited.contains(name)) {
            match last_named(ts, name) {
                Some(t) => {
                    law_following_ends_at_a_value(ts, t.value, visited.push(name), depth + 1);
                    lemma_last_is_member(ts, name);
                    let k = choose|k: int| 0 <= k < ts.len() && ts[k] == t;
                    assert(ts[k].value == t.value);
                },
                None => {},
            }
        },
        None => {},
    }
}

proof fn lemma_last_is_member(ts: Seq<TokenView>, name: Seq<char>)
    requires
        last_named(ts, name) is Some,
    ensures
        ts.contains(last_named(ts, name)->0),
    decreases ts.len(),
{
    if ts.last().name == name {
        assert(ts[ts.len() - 1] == ts.last());
    } else {
        lemma_last_is_member(ts.drop_last(), name);
        let t = last_named(ts, name)->0;
        let k = choose|k: int| 0 <= k < ts.drop_last().len() && ts.drop_last()[k] == t;
        assert(ts[k] == t);
    }
}

/// No two of the tokens bear the same name.
pub open spec fn names_distinct(ts: Seq<TokenView>) -> bool {
    forall|i: int, j: int|
        0 <= i < j < ts.len() ==> (#[trigger] ts[i]).name != (#[trigger] ts[j]).name
}

proof fn lemma_found_first(ts: Seq<TokenView>, name: Seq<char>)
    ensures
        match first_named(ts, name) {
            Some(t) => t.name == name && exists|i: int|
                0 <= i < ts.len() && ts[i] == t && is_first(ts, i),
            None => forall|i: int| 0 <= i < ts.len() ==> (#[trigger] ts[i]).name != name,
        },
        first_named(ts, name) is Some == last_named(ts, name) is Some,
{
    lemma_last_named(ts, name);
    if last_named(ts, name) is Some {
        let at = lemma_first_position(ts, name);
        lemma_first_named(ts, name, at);
    } else {
        lemma_not_found(ts, name);
    }
}

proof fn lemma_not_found(ts: Seq<TokenView>, name: Seq<char>)
    requires
        forall|i: int| 0 <= i < ts.len() ==> (#[trigger] ts[i]).name != name,
    ensures
        first_named(ts, name) is None,
    decreases ts.len(),
{
    if ts.len() > 0 {
        let rest = ts.skip(1);
        assert forall|i: int| 0 <= i < rest.len() implies (#[trigger] rest[i]).name != name by {
            assert(rest[i] == ts[i + 1]);
        }
        assert(ts[0].name != name);
        lemma_not_found(rest, name);
    }
}

proof fn lemma_first_is_last(ts: Seq<TokenView>, name: Seq<char>)
    requires
        names_distinct(ts),
    ensures
        first_named(ts, name) == last_named(ts, name),
    decreases ts.len(),
{
    lemma_last_named(ts, name);
    lemma_found_first(ts, name);
    if ts.len() > 0 {
        if ts.last().name == name {
            lemma_first_named(ts, name, ts.len() - 1);
        } else {
            let init = ts.drop_last();
            assert forall|i: int, j: int| 0 <= i < j < init.len() implies (#[trigger] init[i]).name
                != (#[trigger] init[j]).name by {
                assert(ts[i].name != ts[j].name);
            }
            lemma_first_is_last(init, name);
            lemma_found_first(init, name);
            match first_named(init, name) {
                Some(t) => {
                    let at = choose|at: int| 0 <= at < init.len() && init[at] == t && is_first(
                        init,
                        at,
                    );
                    assert(ts[at] == t);
                    assert forall|i: int| 0 <= i < at implies (#[trigger] ts[i]).name != name by {
                        assert(init[i] == ts[i]);
                    }
                    lemma_first_named(ts, name, at);
                },
                None => {},
            }
        }
    }
}

/// Tokens of the overlay whose names the base lacks keep their order.
proof fn lemma_new_names_first(ts: Seq<TokenView>, others: Seq<TokenView>, name: Seq<char>)
    requires
        last_named(others, name) is None,
        names_distinct(ts),
    ensures
        first_named(new_names(ts, others), name) == first_named(ts, name),
{
    lemma_new_names_distinct(ts, others);
    lemma_first_is_last(ts, name);
    lemma_first_is_last(new_names(ts, others), name);
    lemma_new_names_last(ts, others, name);
}

proof fn lemma_new_names_distinct(ts: Seq<TokenView>, others: Seq<TokenView>)
    requires
        names_distinct(ts),
    ensures
        names_distinct(new_names(ts, others)),
        forall|k: int|
            0 <= k < new_names(ts, others).len() ==> ts.contains(
                #[trigger] new_names(ts, others)[k],
            ),
    decreases ts.len(),
{
    if ts.len() > 0 {
        let init = ts.drop_last();
        let rest = new_names(init, others);
        let all = new_names(ts, others);
        assert forall|i: int, j: int| 0 <= i < j < init.len() implies (#[trigger] init[i]).name != (
        #[trigger] init[j]).name by {
            assert(ts[i].name != ts[j].name);
        }
        lemma_new_names_distinct(init, others);
        assert forall|k: int| 0 <= k < all.len() implies ts.contains(#[trigger] all[k]) by {
            if k < rest.len() {
                assert(all[k] == rest[k]);
                let i = choose|i: int| 0 <= i < init.len() && init[i] == rest[k];
                assert(ts[i] == all[k]);
            } else {
                assert(ts[ts.len() - 1] == all[k]);
            }
        }
        assert forall|i: int, j: int| 0 <= i < j < all.len() implies (#[trigger] all[i]).name != (
        #[trigger] all[j]).name by {
            assert(all[i] == rest[i]);
            if j < rest.len() {
                assert(all[j] == rest[j]);
            } else {
                let k = choose|k: int| 0 <= k < init.len() && init[k] == rest[i];
                assert(ts[k].name != ts[ts.len() - 1].name);
            }
        }
    }
}

proof fn lemma_new_names_last(ts: Seq<TokenView>, others: Seq<TokenView>, name: Seq<char>)
    requires
        last_named(others, name) is None,
    ensures
        last_named(new_names(ts, others), name) == last_named(ts, name),
    decreases ts.len(),
{
    if ts.len() > 0 {
        lemma_new_names_last(ts.drop_last(), others, name);
        if last_named(others, ts.last().name) is None {
            assert(new_names(ts, others).drop_last() =~= new_names(ts.drop_last(), others));
        }
    }
}

/// Under a name the overlaid tokens hold what the overlay has, and without it what the base has.
pub proof fn law_overlay_is_found_first(base: Seq<TokenView>, over: Seq<TokenView>, name: Seq<char>)
    requires
        names_distinct(over),
    ensures
        first_named(over, name) is Some ==> first_named(overlaid(base, over), name) == first_named(
            over,
            name,
        ),
        first_named(over, name) is None ==> first_named(overlaid(base, over), name) == last_named(
            base,
            name,
        ),
{
    lemma_first_is_last(over, name);
    if last_named(base, name) is Some {
        law_overlay_wins(base, over, name);
    } else {
        let all = overlaid(base, over);
        let added = new_names(over, base);
        lemma_last_named(base, name);
        lemma_new_names_first(over, base, name);
        lemma_found_first(added, name);
        assert forall|i: int| 0 <= i < base.len() implies (#[trigger] all[i]).name != name by {
            lemma_last_in_both(base, over, base[i].name);
            lemma_last_named(over, base[i].name);
            lemma_last_named(base, base[i].name);
            assert(base[i].name != name);
        }
        match first_named(added, name) {
            Some(t) => {
                let k = choose|k: int| 0 <= k < added.len() && added[k] == t && is_first(added, k);
                assert(all[base.len() + k] == t);
                assert forall|i: int| 0 <= i < base.len() + k implies (#[trigger] all[i]).name
                    != name by {
                    if i >= base.len() {
                        assert(all[i] == added[i - base.len()]);
                    }
                }
                lemma_first_named(all, name, base.len() + k);
            },
            None => {
                assert forall|i: int| 0 <= i < all.len() implies (#[trigger] all[i]).name
                    != name by {
                    if i >= base.len() {
                        assert(all[i] == added[i - base.len()]);
                    }
                }
                lemma_not_found(all, name);
            },
        }
    }
}

/// What a system says itself holds in the system that it resolves to, whatever it inherits from: of
/// its tokens and of those of its dark theme.
pub proof fn law_own_tokens_win(
    ss: Seq<SystemView>,
    id: Seq<char>,
    visited: Seq<Seq<char>>,
    name: Seq<char>,
)
    requires
        find_system(ss, id) is Some,
        resolution(ss, id, visited) is Found,
        names_distinct(find_system(ss, id)->0.tokens),
        find_system(ss, id)->0.dark_tokens matches Some(d) ==> names_distinct(d),
    ensures
        ({
            let own = find_system(ss, id)->0;
            let r = resolution(ss, id, visited)->Found_0;
            &&& r.name == own.name
            &&& first_named(own.tokens, name) is Some ==> first_named(r.tokens, name)
                == first_named(own.tokens, name)
            &&& own.dark_tokens is Some ==> r.dark_tokens is Some
            &&& own.dark_tokens matches Some(d) ==> (first_named(d, name) is Some ==> first_named(
                r.dark_tokens->0,
                name,
            ) == first_named(d, name))
        }),
{
    let own = find_system(ss, id)->0;
    if let Some(parent) = own.extends {
        let p = resolution(ss, parent, visited.push(id))->Found_0;
        law_overlay_is_found_first(p.tokens, own.tokens, name);
        match (p.dark_tokens, own.dark_tokens) {
            (Some(pd), Some(d)) => law_overlay_is_found_first(pd, d, name),
            _ => {},
        }
    }
}

/// What a system does not say itself, it has from the system that it inherits from; without one it is
/// as it stands.
pub proof fn law_parent_fills_in(
    ss: Seq<SystemView>,
    id: Seq<char>,
    visited: Seq<Seq<char>>,
    name: Seq<char>,
)
    requires
        find_system(ss, id) is Some,
        resolution(ss, id, visited) is Found,
        names_distinct(find_system(ss, id)->0.tokens),
        find_system(ss, id)->0.dark_tokens matches Some(d) ==> names_distinct(d),
    ensures
        ({
            let own = find_system(ss, id)->0;
            let r = resolution(ss, id, visited)->Found_0;
            match own.extends {
                Some(parent) => resolution(ss, parent, visited.push(id)) matches Resolution::Found(
                    p,
                ) && {
                    &&& first_named(own.tokens, name) is None ==> first_named(r.tokens, name)
                        == last_named(p.tokens, name)
                    &&& own.dark_tokens is None ==> r.dark_tokens == p.dark_tokens
                    &&& p.dark_tokens is None ==> r.dark_tokens == own.dark_tokens
                    &&& own.dark_tokens is Some && p.dark_tokens is Some && first_named(
                        own.dark_tokens->0,
                        name,
                    ) is None ==> first_named(r.dark_tokens->0, name) == last_named(
                        p.dark_tokens->0,
                        name,
                    )
                },
                None => r == own,
            }
        }),
{
    let own = find_system(ss, id)->0;
    if let Some(parent) = own.extends {
        let p = resolution(ss, parent, visited.push(id))->Found_0;
        law_overlay_is_found_first(p.tokens, own.tokens, name);
        match (p.dark_tokens, own.dark_tokens) {
            (Some(pd), Some(d)) => law_overlay_is_found_first(pd, d, name),
            _ => {},
        }
    }
}

/// In the dark theme a token of that theme stands for the one of the same name; all others are those
/// of the light one.
pub proof fn law_dark_theme_overrides(s: SystemView, name: Seq<char>)
    requires
        s.dark_tokens matches Some(d) ==> names_distinct(d),
    ensures
        themed(s, Theme::Light) == s.tokens,
        s.dark_tokens matches Some(d) ==> (first_named(d, name) is Some ==> first_named(
            themed(s, Theme::Dark),
            name,
        ) == first_named(d, name)),
        (s.dark_tokens matches Some(d) ==> first_named(d, name) is None) ==> first_named(
            themed(s, Theme::Dark),
            name,
        ) == last_named(s.tokens, name),
{
    match s.dark_tokens {
        Some(d) => law_overlay_is_found_first(s.tokens, d, name),
        None => {
            lemma_not_found(Seq::empty(), name);
            law_overlay_is_found_first(s.tokens, Seq::empty(), name);
        },
    }
}

/// Every token is declared, by its name with hyphens and the value that its references end at.
pub proof fn law_every_token_is_declared(ts: Seq<TokenView>, i: int)
    requires
        0 <= i < ts.len(),
    ensures
        text::occurs(
            custom_properties(ts),
            "--"@ + ts[i].name.map_values(|c: char| if c == '.' { '-' } else { c }) + ": "@
                + followed(ts, ts[i].value, Seq::empty(), 0).0 + ";"@,
        ),
{
    let lines = seq![":root {"@] + ts.map_values(|t: TokenView| declaration(ts, t)) + seq!["}"@];
    let name = ts[i].name.map_values(|c: char| if c == '.' { '-' } else { c });
    let value = followed(ts, ts[i].value, Seq::empty(), 0).0;
    let wanted = "--"@ + name + ": "@ + value + ";"@;
    let line = lines[i + 1];
    assert(line == declaration(ts, ts[i]));
    reveal_strlit("  --");
    reveal_strlit("--");
    assert(line =~= "  --"@.take(2) + wanted + Seq::<char>::empty());
    text::lemma_occurs_between("  --"@.take(2), wanted, Seq::empty());
    text::lemma_joined_holds(lines, "\n"@, i + 1, wanted);
}

/// A value is written by its kind: a safe color, shadow or text as it stands, a number in pixels, and
/// a reference as the variable of that name.
pub proof fn law_values_are_written_by_kind(s: Seq<char>, n: NumView, name: Seq<char>)
    ensures
        css::is_safe(s) ==> css_value(ValueView::Color(s)) == s && css_value(ValueView::Shadow(s))
            == s,
        css::is_safe(s) && !"token:"@.is_prefix_of(s) ==> css_value(ValueView::Text(s)) == s,
        css_value(ValueView::Number(n)) == n.text + "px"@,
        css_value(ValueView::Text("token:"@ + name)) == "var(--"@ + name + ")"@,
{
    if css::is_safe(s) {
        css::law_safe_value_is_kept(s, "transparent"@);
        css::law_safe_value_is_kept(s, ""@);
    }
    let t = "token:"@ + name;
    assert("token:"@ =~= t.subrange(0, "token:"@.len() as int));
    assert(t.skip("token:"@.len() as int) =~= name);
}

/// A reference names what stands behind its mark; other values refer to nothing.
pub proof fn law_reference_names_its_target(name: Seq<char>, v: ValueView)
    ensures
        name.len() > 0 ==> target(ValueView::Text("token:"@ + name)) == Some(name),
        refers(ValueView::Text("token:"@ + name)),
        target(ValueView::Text("token:"@)) is None,
        target(v) is Some ==> refers(v),
        v is Color || v is Number || v is Shadow ==> !refers(v) && target(v) is None,
{
    let t = "token:"@ + name;
    assert("token:"@ =~= t.subrange(0, "token:"@.len() as int));
    assert(t.skip("token:"@.len() as int) =~= name);
}

/// A system that was taken in is found under its id, in the place of one that was there before, and
/// the others are found as they were.
pub proof fn law_taken_system_is_found(ss: Seq<SystemView>, s: SystemView, other: Seq<char>)
    ensures
        find_system(with_system(ss, s), s.id) == Some(s),
        other != s.id ==> find_system(with_system(ss, s), other) == find_system(ss, other),
        with_system(ss, s).len() == if find_system(ss, s.id) is Some {
            ss.len()
        } else {
            ss.len() + 1
        },
    decreases ss.len(),
{
    let r = with_system(ss, s);
    if ss.len() == 0 {
        assert(r[0] == s);
        assert(r.skip(1) =~= Seq::<SystemView>::empty());
        assert(find_system(r.skip(1), other) is None);
    } else if ss[0].id == s.id {
        assert(r[0] == s);
        assert(r.skip(1) =~= ss.skip(1));
    } else {
        law_taken_system_is_found(ss.skip(1), s, other);
        assert(r[0] == ss[0]);
        assert(r.skip(1) =~= with_system(ss.skip(1), s));
    }
}

/// What is found bears the id that was asked for, and nothing is found only where no system bears
/// it.
pub proof fn law_systems_are_found_by_id(ss: Seq<SystemView>, id: Seq<char>, i: int)
    ensures
        find_system(ss, id) matches Some(s) ==> s.id == id && ss.contains(s),
        0 <= i < ss.len() && ss[i].id == id ==> find_system(ss, id) is Some,
        distinct_systems(ss) && 0 <= i < ss.len() ==> find_system(ss, ss[i].id) == Some(ss[i]),
{
    lemma_find_system(ss, id);
    if distinct_systems(ss) && 0 <= i < ss.len() {
        lemma_find_system(ss, ss[i].id);
        let s = find_system(ss, ss[i].id)->0;
        let k = choose|k: int| 0 <= k < ss.len() && ss[k] == s;
        if k < i {
            assert(ss[k].id != ss[i].id);
        } else if i < k {
            assert(ss[i].id != ss[k].id);
        }
    }
}

/// A system may be taken in exactly where neither theme has too many tokens or too long a value.
pub proof fn law_only_small_systems_are_taken_in(s: SystemView)
    ensures
        system_fault(s) is None <==> small_enough(s.tokens) && (s.dark_tokens matches Some(dark)
            ==> small_enough(dark)),
        s.tokens.len() > MAX_IMPORT_TOKENS ==> system_fault(s) == Some(
            ImportFault::TooMany(s.tokens.len()),
        ),
{
    lemma_too_long(s.tokens);
    if let Some(dark) = s.dark_tokens {
        lemma_too_long(dark);
    }
}

/// There are not too many tokens, and none of them has too long a value.
pub open spec fn small_enough(ts: Seq<TokenView>) -> bool {
    ts.len() <= MAX_IMPORT_TOKENS && forall|i: int|
        0 <= i < ts.len() ==> value_bytes((#[trigger] ts[i]).value) <= MAX_TOKEN_STR_LEN
}

proof fn lemma_too_long(ts: Seq<TokenView>)
    ensures
        first_too_long(ts) is None <==> forall|i: int|
            0 <= i < ts.len() ==> value_bytes((#[trigger] ts[i]).value) <= MAX_TOKEN_STR_LEN,
        first_too_long(ts) matches Some(n) ==> n > MAX_TOKEN_STR_LEN,
    decreases ts.len(),
{
    if ts.len() > 0 {
        let rest = ts.skip(1);
        lemma_too_long(rest);
        if first_too_long(ts) is None {
            assert forall|i: int| 0 <= i < ts.len() implies value_bytes((#[trigger] ts[i]).value)
                <= MAX_TOKEN_STR_LEN by {
                if i > 0 {
                    assert(rest[i - 1] == ts[i]);
                }
            }
        } else if value_bytes(ts[0].value) <= MAX_TOKEN_STR_LEN {
            let i = choose|i: int|
                0 <= i < rest.len() && value_bytes((#[trigger] rest[i]).value) > MAX_TOKEN_STR_LEN;
            assert(ts[i + 1] == rest[i]);
        }
    }
}

/// The texts count for the length of a value, in bytes, and a number has none.
pub proof fn law_texts_have_a_length(s: Seq<char>, n: NumView)
    ensures
        value_bytes(ValueView::Color(s)) == vstd::utf8::encode_utf8(s).len(),
        value_bytes(ValueView::Shadow(s)) == value_bytes(ValueView::Color(s)),
        value_bytes(ValueView::Text(s)) == value_bytes(ValueView::Color(s)),
        value_bytes(ValueView::Number(n)) == 0,
{
}

/// The system in use is the one under the id that was activated; without one none is in use.
pub proof fn law_activated_system_is_in_use(r: RegistryView)
    ensures
        active_system(r) matches Some(s) ==> r.active_id == Some(s.id) && r.systems.contains(s),
        r.active_id is None ==> active_system(r) is None,
        r.active_id matches Some(id) ==> (active_system(r) is None <==> forall|i: int|
            0 <= i < r.systems.len() ==> (#[trigger] r.systems[i]).id != id),
{
    if let Some(id) = r.active_id {
        lemma_find_system(r.systems, id);
    }
}

/// The built-in systems have ids of their own, inherit from nothing, and are found once they are
/// registered where nothing was before.
pub proof fn law_built_in_systems_are_found()
    ensures
        find_system(with_builtins(Seq::empty()), apple_hig().id) == Some(apple_hig()),
        find_system(with_builtins(Seq::empty()), minimal_dashboard().id) == Some(
            minimal_dashboard(),
        ),
        find_system(with_builtins(Seq::empty()), robot_sim().id) == Some(robot_sim()),
        with_builtins(Seq::empty()).len() == 3,
        apple_hig().extends is None && minimal_dashboard().extends is None && robot_sim().extends
            is None,
{
    lemma_built_in_ids();
    lemma_three_systems(apple_hig(), minimal_dashboard(), robot_sim());
}

proof fn lemma_built_in_ids()
    ensures
        apple_hig().id != minimal_dashboard().id,
        apple_hig().id != robot_sim().id,
        minimal_dashboard().id != robot_sim().id,
{
    reveal_strlit("apple-hig");
    reveal_strlit("minimal-dashboard");
    reveal_strlit("robot-sim");
    assert(apple_hig().id[0] != minimal_dashboard().id[0]);
}

proof fn lemma_three_systems(a: SystemView, b: SystemView, c: SystemView)
    requires
        a.id != b.id,
        a.id != c.id,
        b.id != c.id,
    ensures
        ({
            let all = with_missing(with_missing(with_missing(Seq::empty(), a), b), c);
            &&& all.len() == 3
            &&& find_system(all, a.id) == Some(a)
            &&& find_system(all, b.id) == Some(b)
            &&& find_system(all, c.id) == Some(c)
        }),
{
    let none = Seq::<SystemView>::empty();
    let one = with_missing(none, a);
    assert(find_system(none, a.id) is None);
    assert(one =~= seq![a]);
    lemma_find_system(one, b.id);
    lemma_find_system(one, a.id);
    let two = with_missing(one, b);
    assert(find_system(one, b.id) is None) by {
        if let Some(s) = find_system(one, b.id) {
            let i = choose|i: int| 0 <= i < one.len() && one[i] == s;
            assert(one[i] == a);
        }
    }
    assert(two =~= seq![a, b]);
    lemma_find_system(two, c.id);
    assert(find_system(two, c.id) is None) by {
        if let Some(s) = find_system(two, c.id) {
            let i = choose|i: int| 0 <= i < two.len() && two[i] == s;
            assert(two[i] == a || two[i] == b);
        }
    }
    let all = with_missing(two, c);
    assert(all =~= seq![a, b, c]);
    law_systems_are_found_by_id(all, a.id, 0);
    law_systems_are_found_by_id(all, b.id, 1);
    law_systems_are_found_by_id(all, c.id, 2);
}

} // verus!
