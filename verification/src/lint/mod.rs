//! Checks of a document against design rules, and what can be mended without asking.

use vstd::prelude::*;
use vstd::string::*;

use crate::canvas;
use crate::canvas::{NodeView, PageView, PenDocument, PenNode};
use crate::design_system;
use crate::design_system::{DesignSystem, SystemView, TokenValue, TokenView, ValueView};
use crate::text;
use crate::text::{same, starts_with};

pub mod color;
pub mod detectors;
pub mod fix;
pub mod mended;
pub mod messages;
pub mod rules;

verus! {

/// The rules.
#[derive(Debug, Clone, Copy, PartialEq, Eq, Structural)]
pub enum LintRule {
    ContrastCheck,
    UnlabeledInput,
    TextEffects,
    AbnormalRotation,
    EmptyEffects,
    TokenInconsistency,
    UnnamedNode,
    TextOverflow,
    OverlappingNodes,
    HardcodedSpacing,
    HardcodedFontSize,
    MissingInteractionState,
    LayoutInconsistency,
}

/// How grave a violation is.
#[derive(Debug, Clone, Copy, PartialEq, Eq, Structural)]
pub enum LintSeverity {
    Error,
    Warning,
    Info,
}

/// A place where a document breaks a rule.
#[derive(Debug)]
pub struct LintViolation {
    pub rule: LintRule,
    pub node_id: String,
    pub message: String,
    pub suggestion: String,
    pub severity: LintSeverity,
}

/// What a `LintViolation` holds.
#[verifier::ext_equal]
pub struct ViolationView {
    pub rule: LintRule,
    pub node_id: Seq<char>,
    pub message: Seq<char>,
    pub suggestion: Seq<char>,
    pub severity: LintSeverity,
}

impl LintViolation {
    pub open spec fn view(&self) -> ViolationView {
        ViolationView {
            rule: self.rule,
            node_id: self.node_id@,
            message: self.message@,
            suggestion: self.suggestion@,
            severity: self.severity,
        }
    }
}

pub open spec fn violation_views(s: Seq<LintViolation>) -> Seq<ViolationView> {
    s.map_values(|v: LintViolation| v@)
}

/// How many violations there are, in all and of each severity, and in how many nodes.
#[derive(Debug, Clone, Copy, PartialEq, Eq, Structural)]
pub struct LintStats {
    pub total_nodes: usize,
    pub total_violations: usize,
    pub errors: usize,
    pub warnings: usize,
    pub infos: usize,
}

/// What linting a document came to.
#[derive(Debug)]
pub struct LintResult {
    pub violations: Vec<LintViolation>,
    pub stats: LintStats,
}

impl LintRule {
    pub open spec fn spec_name(self) -> Seq<char> {
        match self {
            LintRule::ContrastCheck => "contrast_check"@,
            LintRule::UnlabeledInput => "unlabeled_input"@,
            LintRule::TextEffects => "text_effects"@,
            LintRule::AbnormalRotation => "abnormal_rotation"@,
            LintRule::EmptyEffects => "empty_effects"@,
            LintRule::TokenInconsistency => "token_inconsistency"@,
            LintRule::UnnamedNode => "unnamed_node"@,
            LintRule::TextOverflow => "text_overflow"@,
            LintRule::OverlappingNodes => "overlapping_nodes"@,
            LintRule::HardcodedSpacing => "hardcoded_spacing"@,
            LintRule::HardcodedFontSize => "hardcoded_font_size"@,
            LintRule::MissingInteractionState => "missing_interaction_state"@,
            LintRule::LayoutInconsistency => "layout_inconsistency"@,
        }
    }

    pub open spec fn spec_description(self) -> Seq<char> {
        match self {
            LintRule::ContrastCheck => "前景色与背景色对比度不足，影响可读性"@,
            LintRule::UnlabeledInput => "输入控件缺少标签（label/placeholder）"@,
            LintRule::TextEffects => "文本节点使用了特效（渐变等），影响可读性"@,
            LintRule::AbnormalRotation => "节点旋转角度异常（超过90°或非15°倍数）"@,
            LintRule::EmptyEffects => "节点声明了样式但参数为空，属于冗余"@,
            LintRule::TokenInconsistency => "样式值未使用设计系统 Token，存在不一致风险"@,
            LintRule::UnnamedNode => "节点使用默认名称，缺少语义标识"@,
            LintRule::TextOverflow => "文本节点尺寸为零，内容将溢出"@,
            LintRule::OverlappingNodes => "同级节点边界框重叠，可能导致遮挡"@,
            LintRule::HardcodedSpacing => "间距值未引用设计 Token，维护性差"@,
            LintRule::HardcodedFontSize => "字号未引用设计 Token，维护性差"@,
            LintRule::MissingInteractionState => "交互控件缺少 hover/active 状态定义"@,
            LintRule::LayoutInconsistency => "同级节点布局模式不一致"@,
        }
    }

    /// The name of the rule.
    pub fn name(&self) -> (r: &'static str)
        ensures
            r@ == self.spec_name(),
    {
        match self {
            LintRule::ContrastCheck => "contrast_check",
            LintRule::UnlabeledInput => "unlabeled_input",
            LintRule::TextEffects => "text_effects",
            LintRule::AbnormalRotation => "abnormal_rotation",
            LintRule::EmptyEffects => "empty_effects",
            LintRule::TokenInconsistency => "token_inconsistency",
            LintRule::UnnamedNode => "unnamed_node",
            LintRule::TextOverflow => "text_overflow",
            LintRule::OverlappingNodes => "overlapping_nodes",
            LintRule::HardcodedSpacing => "hardcoded_spacing",
            LintRule::HardcodedFontSize => "hardcoded_font_size",
            LintRule::MissingInteractionState => "missing_interaction_state",
            LintRule::LayoutInconsistency => "layout_inconsistency",
        }
    }

    /// What the rule looks for.
    pub fn description(&self) -> (r: &'static str)
        ensures
            r@ == self.spec_description(),
    {
        match self {
            LintRule::ContrastCheck => "前景色与背景色对比度不足，影响可读性",
            LintRule::UnlabeledInput => "输入控件缺少标签（label/placeholder）",
            LintRule::TextEffects => "文本节点使用了特效（渐变等），影响可读性",
            LintRule::AbnormalRotation => "节点旋转角度异常（超过90°或非15°倍数）",
            LintRule::EmptyEffects => "节点声明了样式但参数为空，属于冗余",
            LintRule::TokenInconsistency => "样式值未使用设计系统 Token，存在不一致风险",
            LintRule::UnnamedNode => "节点使用默认名称，缺少语义标识",
            LintRule::TextOverflow => "文本节点尺寸为零，内容将溢出",
            LintRule::OverlappingNodes => "同级节点边界框重叠，可能导致遮挡",
            LintRule::HardcodedSpacing => "间距值未引用设计 Token，维护性差",
            LintRule::HardcodedFontSize => "字号未引用设计 Token，维护性差",
            LintRule::MissingInteractionState => "交互控件缺少 hover/active 状态定义",
            LintRule::LayoutInconsistency => "同级节点布局模式不一致",
        }
    }

    /// All rules.
    pub fn all() -> (r: Vec<LintRule>)
        ensures
            r@ == all_rules(),
    {
        let r: Vec<LintRule> = vec![
            LintRule::ContrastCheck,
            LintRule::UnlabeledInput,
            LintRule::TextEffects,
            LintRule::AbnormalRotation,
            LintRule::EmptyEffects,
            LintRule::TokenInconsistency,
            LintRule::UnnamedNode,
            LintRule::TextOverflow,
            LintRule::OverlappingNodes,
            LintRule::HardcodedSpacing,
            LintRule::HardcodedFontSize,
            LintRule::MissingInteractionState,
            LintRule::LayoutInconsistency,
        ];
        proof {
            assert(r@ =~= all_rules());
        }
        r
    }
}

/// All rules, in the order in which they are applied.
pub open spec fn all_rules() -> Seq<LintRule> {
    seq![
        LintRule::ContrastCheck,
        LintRule::UnlabeledInput,
        LintRule::TextEffects,
        LintRule::AbnormalRotation,
        LintRule::EmptyEffects,
        LintRule::TokenInconsistency,
        LintRule::UnnamedNode,
        LintRule::TextOverflow,
        LintRule::OverlappingNodes,
        LintRule::HardcodedSpacing,
        LintRule::HardcodedFontSize,
        LintRule::MissingInteractionState,
        LintRule::LayoutInconsistency,
    ]
}

// ---------------------------------------------------------------------------
// Tokens by their values
// ---------------------------------------------------------------------------

/// The value of a token under which a style finds it; references and shadows have none.
pub open spec fn style_key(t: TokenView) -> Option<Seq<char>> {
    match t.value {
        ValueView::Color(s) => Some(s),
        ValueView::Text(s) => if "token:"@.is_prefix_of(s) {
            None
        } else {
            Some(s)
        },
        _ => None,
    }
}

/// The number of a token under which a size finds it: that of a number, or what a text reads as.
pub open spec fn number_key(t: TokenView) -> Option<Seq<char>> {
    match t.value {
        ValueView::Number(n) => Some(n.text),
        ValueView::Text(s) => if "token:"@.is_prefix_of(s) {
            None
        } else {
            t.reading
        },
        _ => None,
    }
}

/// The tokens that have a key, with their names.
pub open spec fn keyed(ts: Seq<TokenView>, numbers: bool) -> Seq<(Seq<char>, Seq<char>)>
    decreases ts.len(),
{
    if ts.len() == 0 {
        Seq::empty()
    } else {
        let rest = keyed(ts.drop_last(), numbers);
        let key = if numbers {
            number_key(ts.last())
        } else {
            style_key(ts.last())
        };
        match key {
            Some(k) => rest.push((k, ts.last().name)),
            None => rest,
        }
    }
}

/// The name of the last token with the key.
pub open spec fn token_for(
    map: Seq<(Seq<char>, Seq<char>)>,
    key: Seq<char>,
) -> Option<Seq<char>>
    decreases map.len(),
{
    if map.len() == 0 {
        None
    } else if map.last().0 == key {
        Some(map.last().1)
    } else {
        token_for(map.drop_last(), key)
    }
}

fn keyed_tokens(system: &DesignSystem, numbers: bool) -> (r: Vec<(String, String)>)
    ensures
        canvas::pair_views(r@) == keyed(system@.tokens, numbers),
{
    let ghost views = system@.tokens;
    let mut out: Vec<(String, String)> = Vec::new();
    let mut i: usize = 0;
    proof {
        assert(canvas::pair_views(out@) =~= Seq::empty());
    }
    while i < system.tokens.len()
        invariant
            i <= system.tokens@.len(),
            views == system@.tokens,
            canvas::pair_views(out@) == keyed(views.take(i as int), numbers),
        decreases system.tokens.len() - i,
    {
        let token = &system.tokens[i];
        proof {
            text::lemma_take_step(views, i as int);
            assert(views[i as int] == token@);
        }
        let key: Option<String> = match &token.value {
            TokenValue::Color(s) => if numbers {
                None
            } else {
                Some(s.clone())
            },
            TokenValue::Number(n) => if numbers {
                Some(n.text.clone())
            } else {
                None
            },
            TokenValue::Shadow(_) => None,
            TokenValue::String(s) => if starts_with(s.as_str(), "token:") {
                None
            } else if numbers {
                canvas::clone_opt_text(&token.reading)
            } else {
                Some(s.clone())
            },
        };
        let ghost before = canvas::pair_views(out@);
        match key {
            Some(k) => {
                let name = token.name.clone();
                out.push((k, name));
                proof {
                    assert(canvas::pair_views(out@) =~= before.push((k@, name@)));
                }
            },
            None => {},
        }
        i = i + 1;
    }
    proof {
        text::lemma_take_all(views);
    }
    out
}

/// The tokens by their colours and texts.
pub fn build_token_map(system: &DesignSystem) -> (r: Vec<(String, String)>)
    ensures
        canvas::pair_views(r@) == keyed(system@.tokens, false),
{
    keyed_tokens(system, false)
}

/// The tokens by their numbers.
pub fn build_numeric_token_map(system: &DesignSystem) -> (r: Vec<(String, String)>)
    ensures
        canvas::pair_views(r@) == keyed(system@.tokens, true),
{
    keyed_tokens(system, true)
}

/// The name of the last token with the key.
pub fn find_token(map: &Vec<(String, String)>, key: &str) -> (r: Option<String>)
    ensures
        text::opt_text(r) == token_for(canvas::pair_views(map@), key@),
{
    let ghost views = canvas::pair_views(map@);
    let mut i: usize = map.len();
    proof {
        text::lemma_take_all(views);
    }
    while i > 0
        invariant
            i <= map@.len(),
            views == canvas::pair_views(map@),
            token_for(views, key@) == token_for(views.take(i as int), key@),
        decreases i,
    {
        proof {
            text::lemma_take_step(views, i - 1);
        }
        if same(map[i - 1].0.as_str(), key) {
            return Some(map[i - 1].1.clone());
        }
        i = i - 1;
    }
    None
}

// ---------------------------------------------------------------------------
// The linter
// ---------------------------------------------------------------------------

/// The rules to apply, and the design system to hold a document against.
#[derive(Debug)]
pub struct Linter {
    pub rules: Vec<LintRule>,
    pub design_system: Option<DesignSystem>,
}

/// What a `Linter` holds.
#[verifier::ext_equal]
pub struct LinterView {
    pub rules: Seq<LintRule>,
    pub system: Option<SystemView>,
}

/// What one rule finds in one node; the rules about siblings find nothing there.
pub open spec fn rule_findings(
    l: LinterView,
    rule: LintRule,
    n: NodeView,
    around: Option<Seq<char>>,
) -> Seq<ViolationView> {
    match rule {
        LintRule::ContrastCheck => detectors::contrast(n, around),
        LintRule::UnlabeledInput => detectors::unlabeled_input(n),
        LintRule::TextEffects => detectors::text_effects(n),
        LintRule::AbnormalRotation => detectors::abnormal_rotation(n),
        LintRule::EmptyEffects => detectors::empty_effects(n),
        LintRule::TokenInconsistency => detectors::token_inconsistency(n, l.system),
        LintRule::UnnamedNode => detectors::unnamed_node(n),
        LintRule::TextOverflow => detectors::text_overflow(n),
        LintRule::OverlappingNodes => Seq::empty(),
        LintRule::HardcodedSpacing => detectors::hardcoded_spacing(n),
        LintRule::HardcodedFontSize => detectors::hardcoded_font_size(n),
        LintRule::MissingInteractionState => detectors::missing_interaction_state(n),
        LintRule::LayoutInconsistency => Seq::empty(),
    }
}

/// What the rules find in one node, rule by rule.
pub open spec fn node_findings(
    l: LinterView,
    rules: Seq<LintRule>,
    n: NodeView,
    around: Option<Seq<char>>,
) -> Seq<ViolationView>
    decreases rules.len(),
{
    if rules.len() == 0 {
        Seq::empty()
    } else {
        node_findings(l, rules.drop_last(), n, around) + rule_findings(
            l,
            rules.last(),
            n,
            around,
        )
    }
}

/// What the rules about siblings find; each set of siblings is looked at once.
pub open spec fn sibling_findings(l: LinterView, ns: Seq<NodeView>) -> Seq<ViolationView> {
    (if l.rules.contains(LintRule::OverlappingNodes) {
        detectors::overlapping_nodes(ns)
    } else {
        Seq::empty()
    }) + (if l.rules.contains(LintRule::LayoutInconsistency) {
        detectors::layout_inconsistency(ns)
    } else {
        Seq::empty()
    })
}

/// What the rules find in a node and in all that is inside it.
pub open spec fn tree_findings(
    l: LinterView,
    n: NodeView,
    around: Option<Seq<char>>,
) -> Seq<ViolationView>
    decreases n,
{
    node_findings(l, l.rules, n, around) + (sibling_findings(l, n.children) + list_findings(
        l,
        n.children,
        n.style.fill,
    ))
}

/// What the rules find in nodes and in all that is inside them.
pub open spec fn list_findings(
    l: LinterView,
    ns: Seq<NodeView>,
    around: Option<Seq<char>>,
) -> Seq<ViolationView>
    decreases ns,
{
    if ns.len() == 0 {
        Seq::empty()
    } else {
        list_findings(l, ns.drop_last(), around) + tree_findings(l, ns.last(), around)
    }
}

/// What the rules find in a list of pages.
pub open spec fn page_findings(l: LinterView, ps: Seq<PageView>) -> Seq<ViolationView>
    decreases ps.len(),
{
    if ps.len() == 0 {
        Seq::empty()
    } else {
        page_findings(l, ps.drop_last()) + (sibling_findings(l, ps.last().nodes) + list_findings(
            l,
            ps.last().nodes,
            None,
        ))
    }
}

/// How many nodes there are on the pages.
pub open spec fn page_node_count(ps: Seq<PageView>) -> nat
    decreases ps.len(),
{
    if ps.len() == 0 {
        0
    } else {
        page_node_count(ps.drop_last()) + canvas::node_count(ps.last().nodes)
    }
}

/// How many of the violations have the severity.
pub open spec fn severity_count(vs: Seq<ViolationView>, s: LintSeverity) -> nat
    decreases vs.len(),
{
    if vs.len() == 0 {
        0
    } else {
        severity_count(vs.drop_last(), s) + (if vs.last().severity == s {
            1nat
        } else {
            0nat
        })
    }
}

/// The number, or the largest that a counter holds.
pub open spec fn counted(n: nat) -> int {
    if n > usize::MAX {
        usize::MAX as int
    } else {
        n as int
    }
}

/// Adds violations to those that were found.
pub(crate) fn extend(all: &mut Vec<LintViolation>, more: Vec<LintViolation>)
    ensures
        violation_views(final(all)@) == violation_views(old(all)@) + violation_views(more@),
{
    let mut rest = more;
    all.append(&mut rest);
    proof {
        assert(violation_views(all@) =~= violation_views(old(all)@) + violation_views(more@));
    }
}

proof fn lemma_found_one_more(
    a: Seq<ViolationView>,
    b: Seq<ViolationView>,
    c: Seq<ViolationView>,
)
    ensures
        a + b + c == a + (b + c),
{
    assert(a + b + c =~= a + (b + c));
}

fn count_severity(vs: &Vec<LintViolation>, s: LintSeverity) -> (r: usize)
    ensures
        r == severity_count(violation_views(vs@), s),
{
    let ghost views = violation_views(vs@);
    let mut n: usize = 0;
    let mut i: usize = 0;
    while i < vs.len()
        invariant
            i <= vs@.len(),
            views == violation_views(vs@),
            n <= i,
            n == severity_count(views.take(i as int), s),
        decreases vs.len() - i,
    {
        proof {
            text::lemma_take_step(views, i as int);
        }
        if vs[i].severity == s {
            n = n + 1;
        }
        i = i + 1;
    }
    proof {
        text::lemma_take_all(views);
    }
    n
}

fn bump(n: usize) -> (r: usize)
    ensures
        r == if n < usize::MAX {
            n + 1
        } else {
            n as int
        },
{
    if n < usize::MAX {
        n + 1
    } else {
        n
    }
}

impl LintResult {
    /// A result without violations.
    pub fn empty() -> (r: Self)
        ensures
            r.violations@.len() == 0,
            r.stats == (LintStats {
                total_nodes: 0,
                total_violations: 0,
                errors: 0,
                warnings: 0,
                infos: 0,
            }),
    {
        LintResult {
            violations: Vec::new(),
            stats: LintStats {
                total_nodes: 0,
                total_violations: 0,
                errors: 0,
                warnings: 0,
                infos: 0,
            },
        }
    }
}

impl Linter {
    pub open spec fn view(&self) -> LinterView {
        LinterView {
            rules: self.rules@,
            system: match self.design_system {
                Some(s) => Some(s@),
                None => None,
            },
        }
    }

    /// A linter with all rules and no design system.
    pub fn new() -> (r: Self)
        ensures
            r@ == (LinterView { rules: all_rules(), system: None }),
    {
        Linter { rules: LintRule::all(), design_system: None }
    }

    /// A linter with the given rules and no design system.
    pub fn with_rules(rules: Vec<LintRule>) -> (r: Self)
        ensures
            r@ == (LinterView { rules: rules@, system: None }),
    {
        Linter { rules, design_system: None }
    }

    /// The linter with a design system to hold documents against.
    pub fn with_design_system(self, system: DesignSystem) -> (r: Self)
        ensures
            r@ == (LinterView { system: Some(system@), ..self@ }),
    {
        Linter { rules: self.rules, design_system: Some(system) }
    }

    fn has_rule(&self, rule: LintRule) -> (r: bool)
        ensures
            r == self@.rules.contains(rule),
    {
        let mut i: usize = 0;
        while i < self.rules.len()
            invariant
                i <= self.rules@.len(),
                forall|k: int| 0 <= k < i ==> self.rules@[k] != rule,
            decreases self.rules.len() - i,
        {
            if self.rules[i] == rule {
                return true;
            }
            i = i + 1;
        }
        false
    }

    /// Applies the rules to a document.
    pub fn lint(&self, doc: &PenDocument) -> (r: LintResult)
        ensures
            violation_views(r.violations@) == page_findings(self@, doc@.pages),
            r.stats.total_nodes == counted(page_node_count(doc@.pages)),
            r.stats.total_violations == r.violations@.len(),
            r.stats.errors == severity_count(
                page_findings(self@, doc@.pages),
                LintSeverity::Error,
            ),
            r.stats.warnings == severity_count(
                page_findings(self@, doc@.pages),
                LintSeverity::Warning,
            ),
            r.stats.infos == severity_count(
                page_findings(self@, doc@.pages),
                LintSeverity::Info,
            ),
    {
        let mut violations: Vec<LintViolation> = Vec::new();
        let mut total: usize = 0;
        let mut i: usize = 0;
        proof {
            assert(violation_views(violations@) =~= Seq::empty());
        }
        while i < doc.pages.len()
            invariant
                i <= doc.pages@.len(),
                violation_views(violations@) == page_findings(self@, doc@.pages.take(i as int)),
                total == counted(page_node_count(doc@.pages.take(i as int))),
            decreases doc.pages.len() - i,
        {
            let found = self.lint_list(&doc.pages[i].nodes, &None, &mut total);
            extend(&mut violations, found);
            proof {
                text::lemma_take_step(doc@.pages, i as int);
            }
            i = i + 1;
        }
        proof {
            text::lemma_take_all(doc@.pages);
            law_severities_add_up(violation_views(violations@));
        }
        let errors = count_severity(&violations, LintSeverity::Error);
        let warnings = count_severity(&violations, LintSeverity::Warning);
        let infos = count_severity(&violations, LintSeverity::Info);
        let total_violations = violations.len();
        LintResult {
            violations,
            stats: LintStats { total_nodes: total, total_violations, errors, warnings, infos },
        }
    }

    /// What the rules find in siblings and in all that is inside them; they are added to `total`.
    fn lint_list(&self, nodes: &Vec<PenNode>, around: &Option<String>, total: &mut usize) -> (r:
        Vec<LintViolation>)
        ensures
            violation_views(r@) == sibling_findings(self@, canvas::node_views(nodes@))
                + list_findings(self@, canvas::node_views(nodes@), text::opt_text(*around)),
            forall|n: nat|
                *old(total) == #[trigger] counted(n) ==> *final(total) == counted(
                    n + canvas::node_count(canvas::node_views(nodes@)),
                ),
        decreases nodes,
    {
        let ghost start = *total;
        let ghost views = canvas::node_views(nodes@);
        let ghost outer = text::opt_text(*around);
        let mut out = self.lint_siblings(nodes);
        let ghost siblings = violation_views(out@);
        let mut i: usize = 0;
        proof {
            assert(siblings + list_findings(self@, views.take(0), outer) =~= siblings);
        }
        while i < nodes.len()
            invariant
                i <= nodes@.len(),
                views == canvas::node_views(nodes@),
                outer == text::opt_text(*around),
                violation_views(out@) == siblings + list_findings(
                    self@,
                    views.take(i as int),
                    outer,
                ),
                forall|n: nat|
                    start == #[trigger] counted(n) ==> *total == counted(
                        n + canvas::node_count(views.take(i as int)),
                    ),
            decreases nodes.len() - i,
        {
            let ghost so_far = *total;
            let ghost found = violation_views(out@);
            let more = self.lint_tree(&nodes[i], around, total);
            extend(&mut out, more);
            proof {
                text::lemma_take_step(views, i as int);
                lemma_found_one_more(
                    siblings,
                    list_findings(self@, views.take(i as int), outer),
                    tree_findings(self@, views[i as int], outer),
                );
                assert forall|n: nat| start == #[trigger] counted(n) implies *total == counted(
                    n + canvas::node_count(views.take(i + 1)),
                ) by {
                    assert(so_far == counted(n + canvas::node_count(views.take(i as int))));
                }
            }
            i = i + 1;
        }
        proof {
            text::lemma_take_all(views);
        }
        out
    }

    /// What the rules find in a node and in all that is inside it; its nodes are added to `total`.
    fn lint_tree(&self, node: &PenNode, around: &Option<String>, total: &mut usize) -> (r: Vec<
        LintViolation,
    >)
        ensures
            violation_views(r@) == tree_findings(self@, node@, text::opt_text(*around)),
            forall|n: nat|
                *old(total) == #[trigger] counted(n) ==> *final(total) == counted(
                    n + 1 + canvas::node_count(node@.children),
                ),
        decreases node,
    {
        let ghost start = *total;
        *total = bump(*total);
        let ghost one_more = *total;
        let mut out = self.lint_node(node, around);
        let below = self.lint_list(&node.children, &node.style.fill, total);
        extend(&mut out, below);
        proof {
            assert forall|n: nat| start == #[trigger] counted(n) implies *total == counted(
                n + 1 + canvas::node_count(node@.children),
            ) by {
                assert(one_more == counted(n + 1));
            }
        }
        out
    }

    fn lint_siblings(&self, siblings: &Vec<PenNode>) -> (r: Vec<LintViolation>)
        ensures
            violation_views(r@) == sibling_findings(self@, canvas::node_views(siblings@)),
    {
        let mut out: Vec<LintViolation> = if self.has_rule(LintRule::OverlappingNodes) {
            detectors::check_overlapping_nodes(siblings)
        } else {
            Vec::new()
        };
        let more: Vec<LintViolation> = if self.has_rule(LintRule::LayoutInconsistency) {
            detectors::check_layout_inconsistency(siblings)
        } else {
            Vec::new()
        };
        let ghost first = violation_views(out@);
        let ghost second = violation_views(more@);
        proof {
            if !self@.rules.contains(LintRule::OverlappingNodes) {
                assert(first =~= Seq::empty());
            }
            if !self@.rules.contains(LintRule::LayoutInconsistency) {
                assert(second =~= Seq::empty());
            }
        }
        extend(&mut out, more);
        out
    }

    fn apply_rule(&self, rule: LintRule, node: &PenNode, around: &Option<String>) -> (r: Vec<
        LintViolation,
    >)
        ensures
            violation_views(r@) == rule_findings(self@, rule, node@, text::opt_text(*around)),
    {
        let out: Vec<LintViolation> = match rule {
            LintRule::ContrastCheck => detectors::check_contrast(node, around),
            LintRule::UnlabeledInput => detectors::check_unlabeled_input(node),
            LintRule::TextEffects => detectors::check_text_effects(node),
            LintRule::AbnormalRotation => detectors::check_abnormal_rotation(node),
            LintRule::EmptyEffects => detectors::check_empty_effects(node),
            LintRule::TokenInconsistency => detectors::check_token_inconsistency(
                node,
                &self.design_system,
            ),
            LintRule::UnnamedNode => detectors::check_unnamed_node(node),
            LintRule::TextOverflow => detectors::check_text_overflow(node),
            LintRule::OverlappingNodes => Vec::new(),
            LintRule::HardcodedSpacing => detectors::check_hardcoded_spacing(node),
            LintRule::HardcodedFontSize => detectors::check_hardcoded_font_size(node),
            LintRule::MissingInteractionState => detectors::check_missing_interaction_state(node),
            LintRule::LayoutInconsistency => Vec::new(),
        };
        proof {
            assert(violation_views(out@) =~= rule_findings(
                self@,
                rule,
                node@,
                text::opt_text(*around),
            ));
        }
        out
    }

    fn lint_node(&self, node: &PenNode, around: &Option<String>) -> (r: Vec<LintViolation>)
        ensures
            violation_views(r@) == node_findings(
                self@,
                self@.rules,
                node@,
                text::opt_text(*around),
            ),
    {
        let mut out: Vec<LintViolation> = Vec::new();
        let mut i: usize = 0;
        proof {
            assert(violation_views(out@) =~= Seq::empty());
        }
        while i < self.rules.len()
            invariant
                i <= self.rules@.len(),
                violation_views(out@) == node_findings(
                    self@,
                    self@.rules.take(i as int),
                    node@,
                    text::opt_text(*around),
                ),
            decreases self.rules.len() - i,
        {
            let more = self.apply_rule(self.rules[i], node, around);
            extend(&mut out, more);
            proof {
                text::lemma_take_step(self@.rules, i as int);
            }
            i = i + 1;
        }
        proof {
            text::lemma_take_all(self@.rules);
        }
        out
    }
}

impl Default for Linter {
    fn default() -> (r: Self)
        ensures
            r@ == (LinterView { rules: all_rules(), system: None }),
    {
        Linter::new()
    }
}

// ---------------------------------------------------------------------------
// Laws
// ---------------------------------------------------------------------------

/// Every violation is an error, a warning or an information, and is counted once.
pub proof fn law_severities_add_up(vs: Seq<ViolationView>)
    ensures
        severity_count(vs, LintSeverity::Error) + severity_count(vs, LintSeverity::Warning)
            + severity_count(vs, LintSeverity::Info) == vs.len(),
    decreases vs.len(),
{
    if vs.len() > 0 {
        law_severities_add_up(vs.drop_last());
    }
}

/// The rules are all different.
pub proof fn law_rules_are_distinct()
    ensures
        all_rules().no_duplicates(),
        all_rules().len() == 13,
        forall|r: LintRule| all_rules().contains(r),
{
    assert forall|r: LintRule| all_rules().contains(r) by {
        let i: int = match r {
            LintRule::ContrastCheck => 0,
            LintRule::UnlabeledInput => 1,
            LintRule::TextEffects => 2,
            LintRule::AbnormalRotation => 3,
            LintRule::EmptyEffects => 4,
            LintRule::TokenInconsistency => 5,
            LintRule::UnnamedNode => 6,
            LintRule::TextOverflow => 7,
            LintRule::OverlappingNodes => 8,
            LintRule::HardcodedSpacing => 9,
            LintRule::HardcodedFontSize => 10,
            LintRule::MissingInteractionState => 11,
            LintRule::LayoutInconsistency => 12,
        };
        assert(all_rules()[i] == r);
    }
}

} // verus!
