//! Design systems as they are shared: each value is a text or a number.

use vstd::prelude::*;
use vstd::string::*;

use crate::canvas::clone_opt_text;
use crate::css;
use crate::design_system;
use crate::design_system::{
    DesignSystem, DesignSystemRegistry, ImportError, ImportFault, RegistryView, SystemView, Token,
    TokenValue, TokenView, ValueView,
};
use crate::num::{Num, NumView};
use crate::text;
use crate::text::starts_with;

verus! {

/// A value as it is shared.
#[derive(Debug)]
pub enum SharedValue {
    Text(String),
    Number(Num),
}

/// A token as it is shared.
#[derive(Debug)]
pub struct SharedToken {
    pub name: String,
    pub value: SharedValue,
    pub description: String,
}

/// A design system as it is shared.
#[derive(Debug)]
pub struct SharedSystem {
    pub id: String,
    pub name: String,
    pub tokens: Vec<SharedToken>,
    pub dark_tokens: Option<Vec<SharedToken>>,
    pub extends: Option<String>,
}

/// What a `SharedValue` holds.
#[verifier::ext_equal]
pub enum SharedValueView {
    Text(Seq<char>),
    Number(NumView),
}

/// What a `SharedToken` holds.
#[verifier::ext_equal]
pub struct SharedTokenView {
    pub name: Seq<char>,
    pub value: SharedValueView,
    pub description: Seq<char>,
}

/// What a `SharedSystem` holds.
#[verifier::ext_equal]
pub struct SharedSystemView {
    pub id: Seq<char>,
    pub name: Seq<char>,
    pub tokens: Seq<SharedTokenView>,
    pub dark_tokens: Option<Seq<SharedTokenView>>,
    pub extends: Option<Seq<char>>,
}

impl SharedValue {
    pub open spec fn view(&self) -> SharedValueView {
        match *self {
            SharedValue::Text(s) => SharedValueView::Text(s@),
            SharedValue::Number(n) => SharedValueView::Number(n@),
        }
    }
}

impl SharedToken {
    pub open spec fn view(&self) -> SharedTokenView {
        SharedTokenView {
            name: self.name@,
            value: self.value@,
            description: self.description@,
        }
    }
}

pub open spec fn shared_views(s: Seq<SharedToken>) -> Seq<SharedTokenView> {
    s.map_values(|t: SharedToken| t@)
}

pub open spec fn opt_shared_views(o: Option<Vec<SharedToken>>) -> Option<Seq<SharedTokenView>> {
    match o {
        Some(v) => Some(shared_views(v@)),
        None => None,
    }
}

impl SharedSystem {
    pub open spec fn view(&self) -> SharedSystemView {
        SharedSystemView {
            id: self.id@,
            name: self.name@,
            tokens: shared_views(self.tokens@),
            dark_tokens: opt_shared_views(self.dark_tokens),
            extends: text::opt_text(self.extends),
        }
    }
}

pub open spec fn opt_shared_system(o: Option<SharedSystem>) -> Option<SharedSystemView> {
    match o {
        Some(s) => Some(s@),
        None => None,
    }
}

// ---------------------------------------------------------------------------
// What is written and what is read
// ---------------------------------------------------------------------------

/// The value as it is shared.
pub open spec fn shared_value(v: ValueView) -> SharedValueView {
    match v {
        ValueView::Color(s) => SharedValueView::Text(s),
        ValueView::Number(n) => SharedValueView::Number(n),
        ValueView::Shadow(s) => SharedValueView::Text(s),
        ValueView::Text(s) => SharedValueView::Text(s),
    }
}

/// The value that a shared one is read as: a text is a reference where it is written as one, and
/// else a colour.
pub open spec fn read_value(v: SharedValueView) -> ValueView {
    match v {
        SharedValueView::Text(s) => if "token:"@.is_prefix_of(s) {
            ValueView::Text(s)
        } else {
            ValueView::Color(s)
        },
        SharedValueView::Number(n) => ValueView::Number(n),
    }
}

pub open spec fn shared_token(t: TokenView) -> SharedTokenView {
    SharedTokenView { name: t.name, value: shared_value(t.value), description: t.description }
}

pub open spec fn read_token(t: SharedTokenView) -> TokenView {
    TokenView {
        name: t.name,
        value: read_value(t.value),
        description: t.description,
        reading: None,
    }
}

pub open spec fn shared_tokens(ts: Seq<TokenView>) -> Seq<SharedTokenView> {
    ts.map_values(|t: TokenView| shared_token(t))
}

pub open spec fn read_tokens(ts: Seq<SharedTokenView>) -> Seq<TokenView> {
    ts.map_values(|t: SharedTokenView| read_token(t))
}

/// The system as it is shared.
pub open spec fn shared_system(s: SystemView) -> SharedSystemView {
    SharedSystemView {
        id: s.id,
        name: s.name,
        tokens: shared_tokens(s.tokens),
        dark_tokens: match s.dark_tokens {
            Some(d) => Some(shared_tokens(d)),
            None => None,
        },
        extends: s.extends,
    }
}

/// The system that a shared one is read as.
pub open spec fn read_system(s: SharedSystemView) -> SystemView {
    SystemView {
        id: s.id,
        name: s.name,
        tokens: read_tokens(s.tokens),
        dark_tokens: match s.dark_tokens {
            Some(d) => Some(read_tokens(d)),
            None => None,
        },
        extends: s.extends,
    }
}

// ---------------------------------------------------------------------------
// Writing and reading
// ---------------------------------------------------------------------------

impl TokenValue {
    /// The value as it is shared.
    pub fn shared(&self) -> (r: SharedValue)
        ensures
            r@ == shared_value(self@),
    {
        match self {
            TokenValue::Color(s) => SharedValue::Text(s.clone()),
            TokenValue::Number(n) => SharedValue::Number(n.copy()),
            TokenValue::Shadow(s) => SharedValue::Text(s.clone()),
            TokenValue::String(s) => SharedValue::Text(s.clone()),
        }
    }

    /// The value that a shared one is read as.
    pub fn from_shared(v: &SharedValue) -> (r: TokenValue)
        ensures
            r@ == read_value(v@),
    {
        match v {
            SharedValue::Text(s) => if starts_with(s.as_str(), "token:") {
                TokenValue::String(s.clone())
            } else {
                TokenValue::Color(s.clone())
            },
            SharedValue::Number(n) => TokenValue::Number(n.copy()),
        }
    }
}

fn share_tokens(tokens: &Vec<Token>) -> (r: Vec<SharedToken>)
    ensures
        shared_views(r@) == shared_tokens(design_system::token_views(tokens@)),
{
    let mut out: Vec<SharedToken> = Vec::new();
    let mut i: usize = 0;
    while i < tokens.len()
        invariant
            i <= tokens@.len(),
            out@.len() == i,
            forall|k: int| 0 <= k < i ==> (#[trigger] out@[k])@ == shared_token(tokens@[k]@),
        decreases tokens.len() - i,
    {
        let t = &tokens[i];
        out.push(
            SharedToken {
                name: t.name.clone(),
                value: t.value.shared(),
                description: t.description.clone(),
            },
        );
        i = i + 1;
    }
    proof {
        assert(shared_views(out@) =~= shared_tokens(design_system::token_views(tokens@)));
    }
    out
}

fn take_tokens(tokens: &Vec<SharedToken>) -> (r: Vec<Token>)
    ensures
        design_system::token_views(r@) == read_tokens(shared_views(tokens@)),
{
    let mut out: Vec<Token> = Vec::new();
    let mut i: usize = 0;
    while i < tokens.len()
        invariant
            i <= tokens@.len(),
            out@.len() == i,
            forall|k: int| 0 <= k < i ==> (#[trigger] out@[k])@ == read_token(tokens@[k]@),
        decreases tokens.len() - i,
    {
        let t = &tokens[i];
        out.push(
            Token {
                name: t.name.clone(),
                value: TokenValue::from_shared(&t.value),
                description: t.description.clone(),
                reading: None,
            },
        );
        i = i + 1;
    }
    proof {
        assert(design_system::token_views(out@) =~= read_tokens(shared_views(tokens@)));
    }
    out
}

impl DesignSystem {
    /// The system as it is shared.
    pub fn shared(&self) -> (r: SharedSystem)
        ensures
            r@ == shared_system(self@),
    {
        SharedSystem {
            id: self.id.clone(),
            name: self.name.clone(),
            tokens: share_tokens(&self.tokens),
            dark_tokens: match &self.dark_tokens {
                Some(d) => Some(share_tokens(d)),
                None => None,
            },
            extends: clone_opt_text(&self.extends),
        }
    }

    /// The system that a shared one is read as.
    pub fn from_shared(s: &SharedSystem) -> (r: DesignSystem)
        ensures
            r@ == read_system(s@),
    {
        DesignSystem {
            id: s.id.clone(),
            name: s.name.clone(),
            tokens: take_tokens(&s.tokens),
            dark_tokens: match &s.dark_tokens {
                Some(d) => Some(take_tokens(d)),
                None => None,
            },
            extends: clone_opt_text(&s.extends),
        }
    }
}

impl DesignSystemRegistry {
    /// The system in use, as it is shared.
    pub fn export_shared(&self) -> (r: Option<SharedSystem>)
        ensures
            opt_shared_system(r) == match design_system::active_system(self@) {
                Some(s) => Some(shared_system(s)),
                None => None,
            },
    {
        match self.active() {
            Some(s) => Some(s.shared()),
            None => None,
        }
    }

    /// Takes a shared system in, in the place of one with the same id. One with too many tokens or
    /// with too long a value is refused.
    pub fn import_shared(&mut self, shared: &SharedSystem) -> (r: Result<(), ImportError>)
        requires
            old(self).wf(),
        ensures
            final(self).wf(),
            match design_system::system_fault(read_system(shared@)) {
                None => r is Ok && final(self)@ == (RegistryView {
                    systems: design_system::with_system(
                        old(self)@.systems,
                        read_system(shared@),
                    ),
                    ..old(self)@
                }),
                Some(ImportFault::TooMany(n)) => r matches Err(ImportError::TooManyTokens(k)) && k
                    == n && final(self)@ == old(self)@,
                Some(ImportFault::TooLong(n)) => r matches Err(ImportError::ValueTooLong(k)) && k
                    == n && final(self)@ == old(self)@,
            },
    {
        self.import(DesignSystem::from_shared(shared))
    }
}

// ---------------------------------------------------------------------------
// Laws
// ---------------------------------------------------------------------------

/// The kind of the value can be told from what is shared: it is a number, a reference, or a colour
/// that is not written as a reference.
pub open spec fn tells_its_kind(v: ValueView) -> bool {
    match v {
        ValueView::Number(_) => true,
        ValueView::Color(s) => !"token:"@.is_prefix_of(s),
        ValueView::Text(s) => "token:"@.is_prefix_of(s),
        ValueView::Shadow(_) => false,
    }
}

/// The values of all the tokens tell their kinds; none is a text that reads as a number.
pub open spec fn tokens_tell(ts: Seq<TokenView>) -> bool {
    forall|i: int|
        0 <= i < ts.len() ==> tells_its_kind((#[trigger] ts[i]).value) && ts[i].reading is None
}

pub open spec fn system_tells(s: SystemView) -> bool {
    tokens_tell(s.tokens) && match s.dark_tokens {
        Some(d) => tokens_tell(d),
        None => true,
    }
}

/// Such a system comes back from sharing as it was.
pub proof fn law_shared_system_reads_back(s: SystemView)
    requires
        system_tells(s),
    ensures
        read_system(shared_system(s)) == s,
{
    assert(read_tokens(shared_tokens(s.tokens)) =~= s.tokens);
    match s.dark_tokens {
        Some(d) => {
            assert(read_tokens(shared_tokens(d)) =~= d);
        },
        None => {},
    }
}

/// The system in use of one registry, shared and taken in by another, is found there as it was;
/// what was found there under other ids stays.
pub proof fn law_shared_system_is_found(
    from: RegistryView,
    to: Seq<SystemView>,
    s: SystemView,
    other: Seq<char>,
)
    requires
        design_system::active_system(from) == Some(s),
        system_tells(s),
        design_system::system_fault(s) is None,
    ensures
        design_system::system_fault(read_system(shared_system(s))) is None,
        design_system::find_system(
            design_system::with_system(to, read_system(shared_system(s))),
            s.id,
        ) == Some(s),
        other != s.id ==> design_system::find_system(
            design_system::with_system(to, read_system(shared_system(s))),
            other,
        ) == design_system::find_system(to, other),
{
    law_shared_system_reads_back(s);
    lemma_found_after(to, s, other);
}

proof fn lemma_found_after(ss: Seq<SystemView>, s: SystemView, other: Seq<char>)
    ensures
        design_system::find_system(design_system::with_system(ss, s), s.id) == Some(s),
        other != s.id ==> design_system::find_system(design_system::with_system(ss, s), other)
            == design_system::find_system(ss, other),
    decreases ss.len(),
{
    let after = design_system::with_system(ss, s);
    if ss.len() == 0 {
        reveal_with_fuel(design_system::find_system, 2);
        assert(after[0] == s);
        assert(after.skip(1).len() == 0);
    } else if ss[0].id == s.id {
        assert(after[0] == s);
        assert(after.skip(1) =~= ss.skip(1));
    } else {
        lemma_found_after(ss.skip(1), s, other);
        assert(after[0] == ss[0]);
        assert(after.skip(1) =~= design_system::with_system(ss.skip(1), s));
    }
}

/// A reference stays a reference to the same token.
pub proof fn law_shared_reference_stays(v: ValueView)
    requires
        design_system::refers(v),
    ensures
        read_value(shared_value(v)) == v,
        design_system::target(read_value(shared_value(v))) == design_system::target(v),
{
}

/// Whatever its kind, a value looks the same in a style sheet after sharing, but for a colour or
/// shadow that is written as a reference and a text that is dangerous.
pub proof fn law_shared_value_looks_the_same(v: ValueView)
    requires
        v matches ValueView::Color(s) ==> !"token:"@.is_prefix_of(s),
        v matches ValueView::Shadow(s) ==> !"token:"@.is_prefix_of(s),
        v matches ValueView::Text(s) ==> "token:"@.is_prefix_of(s) || (!css::is_dangerous(s)
            && !css::is_dangerous(css::without_meta(s))),
    ensures
        design_system::css_value(read_value(shared_value(v))) == design_system::css_value(v),
{
}

} // verus!
