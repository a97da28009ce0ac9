//! Capture of a cell's top-level `set` and `show` rules: Typst's VM
//! evaluates each expression, and the walk here decides, rule by rule, what
//! is kept for later cells, what is only warned about, and how the rest of
//! the cell is styled by each rule.

use crate::modes::SourceMode;
use crate::persist::{
    filter_persistent_styles, lemma_filtered_keeps_no_page_sizing, persistent_entries, persists,
    style_key,
};
use ecow::EcoVec;
use typst::diag::{At, SourceDiagnostic};
use typst::foundations::{Content, Recipe, Style, Styles, Value};
use typst::syntax::ast::{AstNode, CodeBlock, Expr, SetRule, ShowRule};
use typst::syntax::{Span, SyntaxNode};
use typst::utils::LazyHash;
use typst_eval::{Eval, FlowEvent, Vm};
use vstd::prelude::*;

verus! {

#[verifier::external_type_specification]
#[verifier::external_body]
pub struct ExVm<'a>(Vm<'a>);

#[verifier::external_type_specification]
#[verifier::external_body]
pub struct ExExpr<'a>(Expr<'a>);

#[verifier::external_type_specification]
#[verifier::external_body]
pub struct ExSetRule<'a>(SetRule<'a>);

#[verifier::external_type_specification]
#[verifier::external_body]
pub struct ExShowRule<'a>(ShowRule<'a>);

#[verifier::external_type_specification]
#[verifier::external_body]
pub struct ExCodeBlock<'a>(CodeBlock<'a>);

#[verifier::external_type_specification]
#[verifier::external_body]
pub struct ExSyntaxNode(SyntaxNode);

#[verifier::external_type_specification]
#[verifier::external_body]
pub struct ExSpan(Span);

#[verifier::external_type_specification]
#[verifier::external_body]
pub struct ExStyles(Styles);

#[verifier::external_type_specification]
#[verifier::external_body]
pub struct ExStyle(Style);

#[verifier::external_type_specification]
#[verifier::external_body]
#[verifier::reject_recursive_types(T)]
pub struct ExLazyHash<T: ?Sized>(LazyHash<T>);

#[verifier::external_type_specification]
#[verifier::external_body]
pub struct ExValue(Value);

#[verifier::external_type_specification]
#[verifier::external_body]
pub struct ExContent(Content);

#[verifier::external_type_specification]
#[verifier::external_body]
pub struct ExRecipe(Recipe);

#[verifier::external_type_specification]
#[verifier::external_body]
pub struct ExSourceDiagnostic(SourceDiagnostic);

#[verifier::external_type_specification]
#[verifier::external_body]
pub struct ExFlowEvent(FlowEvent);

#[verifier::external_type_specification]
#[verifier::external_body]
#[verifier::reject_recursive_types(T)]
pub struct ExEcoVec<T>(EcoVec<T>);

/// The errors of a failed evaluation.
pub type Diagnostics = EcoVec<SourceDiagnostic>;

/// The entries of `styles`, in order.
pub uninterp spec fn style_entries(styles: Styles) -> Seq<LazyHash<Style>>;

/// Whether `root` is markup: `SyntaxNode::cast` to `Markup` succeeds.
pub uninterp spec fn is_markup(root: SyntaxNode) -> bool;

/// Whether `root` is code: `SyntaxNode::cast` to `Code` succeeds.
pub uninterp spec fn is_code(root: SyntaxNode) -> bool;

/// `typst::foundations::ops::join` of two values, its error placed at `span`.
pub uninterp spec fn joined(lhs: Value, rhs: Value, span: Span) -> Result<Value, Diagnostics>;

/// `Value::display`: a value as content.
pub uninterp spec fn displayed(value: Value) -> Content;

/// `Value::Content` holding `content`.
pub uninterp spec fn as_content(content: Content) -> Value;

/// Whether a value is a label (`Value::Label`).
pub uninterp spec fn label_value(value: Value) -> bool;

/// `Content::spanned`: the content placed at `span`.
pub uninterp spec fn spanned_at(content: Content, span: Span) -> Content;

/// `Content::sequence` of the pieces, in order.
pub uninterp spec fn content_sequence(pieces: Seq<Content>) -> Content;

/// `Content::styled_with_map`: the content styled with `styles`.
pub uninterp spec fn styled_map(content: Content, styles: Styles) -> Content;

/// The errors `SourceDiagnostic::error` makes of `message`, without a place
/// in a source.
pub uninterp spec fn single_error(message: Seq<char>) -> Diagnostics;

// ---------------------------------------------------------------------------
// What is kept of each rule.

/// How a walk captures rules.
#[derive(Debug, Clone, Copy, PartialEq, Eq, Structural)]
pub enum CapturePolicy {
    /// Nothing is kept.
    Off,
    /// Setup code: every rule is kept as it is.
    Local,
    /// A cell of the REPL or of the mode-directive notebook: set rules are
    /// kept through the style filter, anonymous show rules stay in the cell
    /// with a warning, other show rules are kept.
    Persistent,
    /// A cell of a notebook session: set rules are kept through the style
    /// filter, every show rule is kept, and the rules inside code blocks are
    /// captured too, each block in a scope of its own.
    Cells,
}

/// A rule the walk reached.
#[derive(Debug, Clone, Copy, PartialEq, Eq, Structural)]
pub enum RuleKind {
    SetRule,
    /// A show rule; `anonymous` when it has no selector (`show: ...`).
    ShowRule { anonymous: bool },
}

/// What capture does with a rule.
#[derive(Debug, Clone, Copy, PartialEq, Eq, Structural)]
pub enum CaptureMove {
    /// The rule stays in its cell.
    Nothing,
    /// The rule's styles are kept as they are.
    Keep,
    /// The rule's styles are kept once the style filter has run on them.
    KeepFiltered,
    /// The rule stays in its cell, with a warning saying so.
    Warn,
}

pub open spec fn capture_move(policy: CapturePolicy, rule: RuleKind) -> CaptureMove {
    match policy {
        CapturePolicy::Off => CaptureMove::Nothing,
        CapturePolicy::Local => CaptureMove::Keep,
        CapturePolicy::Persistent => match rule {
            RuleKind::SetRule => CaptureMove::KeepFiltered,
            RuleKind::ShowRule { anonymous } => if anonymous {
                CaptureMove::Warn
            } else {
                CaptureMove::Keep
            },
        },
        CapturePolicy::Cells => match rule {
            RuleKind::SetRule => CaptureMove::KeepFiltered,
            RuleKind::ShowRule { .. } => CaptureMove::Keep,
        },
    }
}

/// What `policy` does with `rule`.
pub fn rule_move(policy: CapturePolicy, rule: RuleKind) -> (m: CaptureMove)
    ensures
        m == capture_move(policy, rule),
{
    match policy {
        CapturePolicy::Off => CaptureMove::Nothing,
        CapturePolicy::Local => CaptureMove::Keep,
        CapturePolicy::Persistent => match rule {
            RuleKind::SetRule => CaptureMove::KeepFiltered,
            RuleKind::ShowRule { anonymous } => if anonymous {
                CaptureMove::Warn
            } else {
                CaptureMove::Keep
            },
        },
        CapturePolicy::Cells => match rule {
            RuleKind::SetRule => CaptureMove::KeepFiltered,
            RuleKind::ShowRule { .. } => CaptureMove::Keep,
        },
    }
}

/// The warning given for an anonymous show rule that stays in its cell.
pub fn anonymous_show_warning() -> (w: &'static str)
    ensures
        w@ == anonymous_show_text(),
{
    "jupytypst: anonymous `show: ...` rules are cell-local and are not persisted"
}

pub open spec fn anonymous_show_text() -> Seq<char> {
    "jupytypst: anonymous `show: ...` rules are cell-local and are not persisted"@
}

/// A rule the walk reached, and what it did with it: `given` is what the
/// rule gives (a set rule's styles, or a show rule's recipe as styles),
/// `kept` the piece of styles kept for later cells, if any.
pub struct CapturedRule {
    pub rule: RuleKind,
    pub action: CaptureMove,
    pub given: Styles,
    pub kept: Option<Styles>,
}

/// Whether `action` keeps the rule's styles.
pub open spec fn keeps(action: CaptureMove) -> bool {
    action == CaptureMove::Keep || action == CaptureMove::KeepFiltered
}

/// The pieces of styles that `rules` kept, in order.
pub open spec fn kept_pieces(rules: Seq<CapturedRule>) -> Seq<Styles>
    decreases rules.len(),
{
    if rules.len() == 0 {
        Seq::empty()
    } else {
        match rules.last().kept {
            Some(p) => kept_pieces(rules.drop_last()).push(p),
            None => kept_pieces(rules.drop_last()),
        }
    }
}

/// The warnings that `rules` give, in order.
pub open spec fn rule_warnings(rules: Seq<CapturedRule>) -> Seq<Seq<char>>
    decreases rules.len(),
{
    if rules.len() == 0 {
        Seq::empty()
    } else if rules.last().action == CaptureMove::Warn {
        rule_warnings(rules.drop_last()).push(anonymous_show_text())
    } else {
        rule_warnings(rules.drop_last())
    }
}

/// Whether `r` was handled as `policy` says: its styles kept as they are,
/// kept as `filter` returned them when given them, or not kept.
pub open spec fn handled<F: Fn(Styles) -> Styles>(r: CapturedRule, policy: CapturePolicy, filter: F) -> bool {
    &&& r.action == capture_move(policy, r.rule)
    &&& match r.action {
        CaptureMove::Keep => r.kept == Some(r.given),
        CaptureMove::KeepFiltered => r.kept is Some && filter.ensures((r.given,), r.kept->Some_0),
        _ => r.kept is None,
    }
}

/// Whether every rule in `rules` was handled as `policy` says.
pub open spec fn follows_policy<F: Fn(Styles) -> Styles>(
    rules: Seq<CapturedRule>,
    policy: CapturePolicy,
    filter: F,
) -> bool {
    forall|k: int| 0 <= k < rules.len() ==> #[trigger] handled(rules[k], policy, filter)
}

/// How many of `rules` are anonymous show rules.
pub open spec fn anonymous_shows(rules: Seq<CapturedRule>) -> nat
    decreases rules.len(),
{
    if rules.len() == 0 {
        0
    } else {
        anonymous_shows(rules.drop_last()) + if rules.last().rule == (RuleKind::ShowRule {
            anonymous: true,
        }) {
            1nat
        } else {
            0nat
        }
    }
}

/// What each policy keeps of the rules a walk reached: `Off` keeps none and
/// warns of none; `Local` and `Cells` keep every one and warn of none;
/// `Persistent` keeps every rule but the anonymous show rules, and warns once
/// of each of those.
pub proof fn lemma_policy_keeps<F: Fn(Styles) -> Styles>(
    rules: Seq<CapturedRule>,
    policy: CapturePolicy,
    filter: F,
)
    requires
        follows_policy(rules, policy, filter),
    ensures
        policy == CapturePolicy::Off ==> kept_pieces(rules).len() == 0 && rule_warnings(rules).len()
            == 0,
        policy == CapturePolicy::Local || policy == CapturePolicy::Cells ==> kept_pieces(rules).len()
            == rules.len() && rule_warnings(rules).len() == 0,
        policy == CapturePolicy::Persistent ==> kept_pieces(rules).len() + anonymous_shows(rules)
            == rules.len() && rule_warnings(rules).len() == anonymous_shows(rules),
    decreases rules.len(),
{
    if rules.len() > 0 {
        let rest = rules.drop_last();
        assert forall|k: int| 0 <= k < rest.len() implies #[trigger] handled(rest[k], policy, filter) by {
            assert(rest[k] == rules[k]);
        }
        lemma_policy_keeps(rest, policy, filter);
        let last = rules.last();
        assert(handled(rules[rules.len() - 1], policy, filter));
        match last.rule {
            RuleKind::SetRule => {},
            RuleKind::ShowRule { anonymous } => {},
        }
    }
}

/// The entries of `pieces` applied one after another onto no styles: each
/// piece's entries go before those of the pieces that came earlier.
pub open spec fn stacked(pieces: Seq<Styles>) -> Seq<LazyHash<Style>>
    decreases pieces.len(),
{
    if pieces.len() == 0 {
        Seq::empty()
    } else {
        style_entries(pieces.last()) + stacked(pieces.drop_last())
    }
}

/// The styles a walk keeps for later cells, one piece per kept rule, and a
/// record of every rule it reached.
pub struct CapturedStyles {
    pieces: Vec<Styles>,
    log: Ghost<Seq<CapturedRule>>,
}

impl CapturedStyles {
    /// Each rule reached, in order, with what was done with it.
    pub closed spec fn rules(&self) -> Seq<CapturedRule> {
        self.log@
    }

    /// The pieces of styles kept, in order.
    pub closed spec fn pieces(&self) -> Seq<Styles> {
        self.pieces@
    }

    /// The pieces are those the recorded rules kept.
    pub open spec fn wf(&self) -> bool {
        self.pieces() == kept_pieces(self.rules())
    }

    /// Nothing captured yet.
    pub fn new() -> (c: Self)
        ensures
            c.wf(),
            c.rules() == Seq::<CapturedRule>::empty(),
    {
        CapturedStyles { pieces: Vec::new(), log: Ghost(Seq::empty()) }
    }

    /// Records `rule`, handled by `action`, which gave `given` and keeps `piece`.
    fn record(&mut self, rule: RuleKind, action: CaptureMove, given: Ghost<Styles>, piece: Option<Styles>)
        requires
            old(self).wf(),
        ensures
            final(self).wf(),
            final(self).rules() == old(self).rules().push(
                CapturedRule { rule, action, given: given@, kept: piece },
            ),
    {
        let ghost entry = CapturedRule { rule, action, given: given@, kept: piece };
        let ghost rules = self.log@.push(entry);
        assert(rules.drop_last() =~= self.log@);
        match piece {
            Some(p) => self.pieces.push(p),
            None => {},
        }
        self.log = Ghost(rules);
    }

    /// The kept styles, applied in the order their rules came.
    pub fn into_styles(self) -> (styles: Styles)
        ensures
            style_entries(styles) == stacked(self.pieces()),
    {
        let ghost all = self.pieces@;
        let n = self.pieces.len();
        let mut styles = empty_styles();
        let mut pieces = self.pieces;
        let mut k: usize = 0;
        assert(all.subrange(0, 0) =~= Seq::<Styles>::empty());
        assert(pieces@ =~= all.subrange(0, all.len() as int));
        while pieces.len() > 0
            invariant
                k + pieces.len() == all.len(),
                all.len() == n,
                pieces@ == all.subrange(k as int, all.len() as int),
                style_entries(styles) == stacked(all.subrange(0, k as int)),
            decreases pieces.len(),
        {
            let piece = pieces.remove(0);
            proof {
                assert(all.subrange(0, k + 1).drop_last() =~= all.subrange(0, k as int));
                assert(piece == all[k as int]);
            }
            apply_styles(&mut styles, piece);
            k = k + 1;
            proof {
                assert(pieces@ =~= all.subrange(k as int, all.len() as int));
            }
        }
        assert(all.subrange(0, k as int) =~= all);
        styles
    }
}

// ---------------------------------------------------------------------------
// Top-level expressions.

/// A top-level expression, told apart by what a walk does with it; each
/// holds the expression itself too.
pub enum TopLevel<'a> {
    SetItem(Expr<'a>, SetRule<'a>),
    ShowItem(Expr<'a>, ShowRule<'a>),
    BlockItem(Expr<'a>, CodeBlock<'a>),
    OtherItem(Expr<'a>),
}

/// The kinds of top-level expressions.
#[derive(Debug, Clone, Copy, PartialEq, Eq, Structural)]
pub enum TopLevelKind {
    SetRule,
    ShowRule,
    CodeBlock,
    Other,
}

pub open spec fn kind_of(t: TopLevel) -> TopLevelKind {
    match t {
        TopLevel::SetItem(..) => TopLevelKind::SetRule,
        TopLevel::ShowItem(..) => TopLevelKind::ShowRule,
        TopLevel::BlockItem(..) => TopLevelKind::CodeBlock,
        TopLevel::OtherItem(..) => TopLevelKind::Other,
    }
}

pub open spec fn kinds<'a>(items: Seq<TopLevel<'a>>) -> Seq<TopLevelKind> {
    items.map_values(|t: TopLevel<'a>| kind_of(t))
}

/// For the rules among `kinds`, in order, whether each is a set rule.
pub open spec fn walked_rules(kinds: Seq<TopLevelKind>) -> Seq<bool>
    decreases kinds.len(),
{
    if kinds.len() == 0 {
        Seq::empty()
    } else {
        let rest = walked_rules(kinds.drop_last());
        match kinds.last() {
            TopLevelKind::SetRule => rest.push(true),
            TopLevelKind::ShowRule => rest.push(false),
            _ => rest,
        }
    }
}

pub open spec fn is_set(r: CapturedRule) -> bool {
    r.rule == RuleKind::SetRule
}

pub open spec fn rule_sets(rules: Seq<CapturedRule>) -> Seq<bool> {
    rules.map_values(|r: CapturedRule| is_set(r))
}

proof fn lemma_walked_rules_append(a: Seq<TopLevelKind>, b: Seq<TopLevelKind>)
    ensures
        walked_rules(a + b) == walked_rules(a) + walked_rules(b),
    decreases b.len(),
{
    if b.len() == 0 {
        assert(a + b =~= a);
        assert(walked_rules(b) =~= Seq::<bool>::empty());
        assert(walked_rules(a) + walked_rules(b) =~= walked_rules(a));
    } else {
        lemma_walked_rules_append(a, b.drop_last());
        assert((a + b).drop_last() =~= a + b.drop_last());
        assert((a + b).last() == b.last());
        let ra = walked_rules(a);
        let rb = walked_rules(b.drop_last());
        assert((ra + rb).push(true) =~= ra + rb.push(true));
        assert((ra + rb).push(false) =~= ra + rb.push(false));
    }
}

proof fn lemma_rule_warnings_append(a: Seq<CapturedRule>, b: Seq<CapturedRule>)
    ensures
        rule_warnings(a + b) == rule_warnings(a) + rule_warnings(b),
        kept_pieces(a + b) == kept_pieces(a) + kept_pieces(b),
    decreases b.len(),
{
    if b.len() == 0 {
        assert(a + b =~= a);
        assert(rule_warnings(a) + rule_warnings(b) =~= rule_warnings(a));
        assert(kept_pieces(a) + kept_pieces(b) =~= kept_pieces(a));
    } else {
        lemma_rule_warnings_append(a, b.drop_last());
        assert((a + b).drop_last() =~= a + b.drop_last());
        assert((a + b).last() == b.last());
        let wa = rule_warnings(a);
        let wb = rule_warnings(b.drop_last());
        assert((wa + wb).push(anonymous_show_text()) =~= wa + wb.push(anonymous_show_text()));
        let pa = kept_pieces(a);
        let pb = kept_pieces(b.drop_last());
        match b.last().kept {
            Some(p) => {
                assert((pa + pb).push(p) =~= pa + pb.push(p));
            },
            None => {},
        }
    }
}

// ---------------------------------------------------------------------------
// The walk.

/// The rules recorded after `before`, in `after`.
pub open spec fn added(before: Seq<CapturedRule>, after: Seq<CapturedRule>) -> Seq<CapturedRule> {
    after.subrange(before.len() as int, after.len() as int)
}

/// `after` extends the record `before` with rules handled as `policy` says
/// (with `filter` as the style filter), and the warnings grew by exactly the
/// warnings of those rules.
pub open spec fn extends<F: Fn(Styles) -> Styles>(
    policy: CapturePolicy,
    filter: F,
    before: Seq<CapturedRule>,
    after: Seq<CapturedRule>,
    warnings_before: Seq<Seq<char>>,
    warnings_after: Seq<Seq<char>>,
) -> bool {
    &&& before.len() <= after.len()
    &&& after.subrange(0, before.len() as int) == before
    &&& follows_policy(added(before, after), policy, filter)
    &&& warnings_after == warnings_before + rule_warnings(added(before, after))
}

/// What a walk over `items[start..end]` promises of the rules: the record
/// grew as `extends` says and, where code blocks are not walked into, the
/// rules it grew by are the set and show rules of `items[start..end]`, in
/// order.
pub open spec fn walk_captures<'a, F: Fn(Styles) -> Styles>(
    items: Seq<TopLevel<'a>>,
    start: int,
    end: int,
    policy: CapturePolicy,
    filter: F,
    before: Seq<CapturedRule>,
    after: Seq<CapturedRule>,
    warnings_before: Seq<Seq<char>>,
    warnings_after: Seq<Seq<char>>,
) -> bool {
    &&& 0 <= start <= end <= items.len()
    &&& extends(policy, filter, before, after, warnings_before, warnings_after)
    &&& policy != CapturePolicy::Cells ==> rule_sets(added(before, after)) == walked_rules(
        kinds(items.subrange(start, end)),
    )
}

/// What one expression of a code walk contributed to the walk's value.
pub enum CodeStep {
    /// The expression's value, as Typst evaluated it.
    Plain { value: Value, span: Span },
    /// A set rule with `styles`, styling `tail`, the value of the rest of the
    /// code; `rule` is where the walk recorded the rule.
    SetStyled { styles: Styles, tail: Value, span: Span, rule: int },
    /// A show rule's recipe applied by Typst to the rest of the code, giving `styled`.
    ShowStyled { styled: Content, span: Span },
}

/// The value a step contributes.
pub open spec fn step_value(step: CodeStep) -> Value {
    match step {
        CodeStep::Plain { value, .. } => value,
        CodeStep::SetStyled { styles, tail, .. } => as_content(styled_map(displayed(tail), styles)),
        CodeStep::ShowStyled { styled, .. } => as_content(styled),
    }
}

pub open spec fn step_span(step: CodeStep) -> Span {
    match step {
        CodeStep::Plain { span, .. } => span,
        CodeStep::SetStyled { span, .. } => span,
        CodeStep::ShowStyled { span, .. } => span,
    }
}

/// The values of `steps` joined in order onto `init`, each join's error at
/// its step's span; the first failing join ends it.
pub open spec fn joined_steps(init: Value, steps: Seq<CodeStep>) -> Result<Value, Diagnostics>
    decreases steps.len(),
{
    if steps.len() == 0 {
        Ok(init)
    } else {
        match joined_steps(init, steps.drop_last()) {
            Ok(acc) => joined(acc, step_value(steps.last()), step_span(steps.last())),
            Err(e) => Err(e),
        }
    }
}

/// Whether `step` is what an expression of kind `kind` contributes.
pub open spec fn code_step_fits(step: CodeStep, kind: TopLevelKind) -> bool {
    match step {
        CodeStep::Plain { .. } => kind == TopLevelKind::CodeBlock || kind == TopLevelKind::Other,
        CodeStep::SetStyled { .. } => kind == TopLevelKind::SetRule,
        CodeStep::ShowStyled { .. } => kind == TopLevelKind::ShowRule,
    }
}

/// What a code walk evaluated: the value it started from (`none`) and each
/// expression's contribution.
pub struct CodeTrace {
    pub init: Value,
    pub steps: Seq<CodeStep>,
    /// Where the walk recorded each top-level set and show rule it walked.
    pub rules: Seq<int>,
}

/// `own` picks out of `rules`, from index `from` on and in increasing order,
/// one rule for each entry of `sets`: a set rule where the entry is `true`,
/// a show rule where it is `false`.
pub open spec fn own_rules(rules: Seq<CapturedRule>, own: Seq<int>, from: int, sets: Seq<bool>) -> bool {
    &&& own.len() == sets.len()
    &&& forall|k: int|
        0 <= k < own.len() ==> from <= #[trigger] own[k] < rules.len() && is_set(rules[own[k]])
            == sets[k]
    &&& forall|k1: int, k2: int| 0 <= k1 < k2 < own.len() ==> own[k1] < own[k2]
}

/// Each set-rule step styles the rest with exactly the styles that its set
/// rule, recorded in `rules` from index `from` on, evaluated to.
pub open spec fn code_steps_given(rules: Seq<CapturedRule>, from: int, steps: Seq<CodeStep>) -> bool {
    forall|k: int|
        0 <= k < steps.len() ==> match #[trigger] steps[k] {
            CodeStep::SetStyled { styles, rule, .. } => from <= rule < rules.len() && rules[rule].rule
                == RuleKind::SetRule && rules[rule].given == styles,
            _ => true,
        }
}

/// Each set-rule step styles the rest with exactly the styles that its set
/// rule, recorded in `rules` from index `from` on, evaluated to.
pub open spec fn markup_steps_given(rules: Seq<CapturedRule>, from: int, steps: Seq<MarkupStep>) -> bool {
    forall|k: int|
        0 <= k < steps.len() ==> match #[trigger] steps[k] {
            MarkupStep::SetStyled { styles, rule, .. } => from <= rule < rules.len() && rules[rule].rule
                == RuleKind::SetRule && rules[rule].given == styles,
            _ => true,
        }
}

proof fn lemma_own_grow(rules: Seq<CapturedRule>, rules2: Seq<CapturedRule>, own: Seq<int>, from: int, sets: Seq<bool>)
    requires
        0 <= from,
        own_rules(rules, own, from, sets),
        rules.len() <= rules2.len(),
        rules2.subrange(0, rules.len() as int) == rules,
    ensures
        own_rules(rules2, own, from, sets),
{
    assert forall|k: int| 0 <= k < own.len() implies from <= #[trigger] own[k] < rules2.len() && is_set(
        rules2[own[k]],
    ) == sets[k] by {
        assert(from <= own[k] < rules.len() && is_set(rules[own[k]]) == sets[k]);
        assert(rules2[own[k]] == rules2.subrange(0, rules.len() as int)[own[k]]);
    }
}

proof fn lemma_steps_grow(rules: Seq<CapturedRule>, rules2: Seq<CapturedRule>, from: int, steps: Seq<CodeStep>)
    requires
        0 <= from,
        code_steps_given(rules, from, steps),
        rules.len() <= rules2.len(),
        rules2.subrange(0, rules.len() as int) == rules,
    ensures
        code_steps_given(rules2, from, steps),
{
    assert forall|k: int| 0 <= k < steps.len() implies match #[trigger] steps[k] {
        CodeStep::SetStyled { styles, rule, .. } => from <= rule < rules2.len() && rules2[rule].rule
            == RuleKind::SetRule && rules2[rule].given == styles,
        _ => true,
    } by {
        match steps[k] {
            CodeStep::SetStyled { styles, rule, .. } => {
                assert(from <= rule < rules.len() && rules[rule].rule == RuleKind::SetRule && rules[rule].given == styles);
                assert(rules2[rule] == rules2.subrange(0, rules.len() as int)[rule]);
            },
            _ => {},
        }
    }
}

proof fn lemma_markup_steps_grow(rules: Seq<CapturedRule>, rules2: Seq<CapturedRule>, from: int, steps: Seq<MarkupStep>)
    requires
        0 <= from,
        markup_steps_given(rules, from, steps),
        rules.len() <= rules2.len(),
        rules2.subrange(0, rules.len() as int) == rules,
    ensures
        markup_steps_given(rules2, from, steps),
{
    assert forall|k: int| 0 <= k < steps.len() implies match #[trigger] steps[k] {
        MarkupStep::SetStyled { styles, rule, .. } => from <= rule < rules2.len() && rules2[rule].rule
            == RuleKind::SetRule && rules2[rule].given == styles,
        _ => true,
    } by {
        match steps[k] {
            MarkupStep::SetStyled { styles, rule, .. } => {
                assert(from <= rule < rules.len() && rules[rule].rule == RuleKind::SetRule && rules[rule].given == styles);
                assert(rules2[rule] == rules2.subrange(0, rules.len() as int)[rule]);
            },
            _ => {},
        }
    }
}

proof fn lemma_own_push(rules: Seq<CapturedRule>, own: Seq<int>, from: int, sets: Seq<bool>, i: int, b: bool)
    requires
        own_rules(rules, own, from, sets),
        forall|k: int| 0 <= k < own.len() ==> #[trigger] own[k] < i,
        from <= i < rules.len(),
        is_set(rules[i]) == b,
    ensures
        own_rules(rules, own.push(i), from, sets.push(b)),
{
    let o = own.push(i);
    assert forall|k: int| 0 <= k < o.len() implies from <= #[trigger] o[k] < rules.len() && is_set(
        rules[o[k]],
    ) == sets.push(b)[k] by {
        if k < own.len() {
            assert(o[k] == own[k]);
        }
    }
    assert forall|k1: int, k2: int| 0 <= k1 < k2 < o.len() implies o[k1] < o[k2] by {
        if k2 < own.len() {
            assert(o[k1] == own[k1] && o[k2] == own[k2]);
        } else {
            assert(o[k1] == own[k1]);
            assert(own[k1] < i);
        }
    }
}

proof fn lemma_own_concat(
    rules: Seq<CapturedRule>,
    own1: Seq<int>,
    sets1: Seq<bool>,
    own2: Seq<int>,
    sets2: Seq<bool>,
    from: int,
    mid: int,
)
    requires
        own_rules(rules, own1, from, sets1),
        own_rules(rules, own2, mid, sets2),
        forall|k: int| 0 <= k < own1.len() ==> #[trigger] own1[k] < mid,
        from <= mid,
    ensures
        own_rules(rules, own1 + own2, from, sets1 + sets2),
{
    let o = own1 + own2;
    let t = sets1 + sets2;
    assert forall|k: int| 0 <= k < o.len() implies from <= #[trigger] o[k] < rules.len() && is_set(
        rules[o[k]],
    ) == t[k] by {
        if k < own1.len() {
            assert(o[k] == own1[k] && t[k] == sets1[k]);
        } else {
            assert(o[k] == own2[k - own1.len()] && t[k] == sets2[k - own1.len()]);
        }
    }
    assert forall|k1: int, k2: int| 0 <= k1 < k2 < o.len() implies o[k1] < o[k2] by {
        if k2 < own1.len() {
            assert(o[k1] == own1[k1] && o[k2] == own1[k2]);
        } else if k1 < own1.len() {
            assert(o[k1] == own1[k1] && o[k2] == own2[k2 - own1.len()]);
            assert(own1[k1] < mid);
            assert(mid <= own2[k2 - own1.len()]);
        } else {
            assert(o[k1] == own2[k1 - own1.len()] && o[k2] == own2[k2 - own1.len()]);
        }
    }
}

/// What one expression of a markup walk contributed to the walk's content.
pub enum MarkupStep {
    /// The expression's value, as Typst evaluated it.
    Plain { value: Value, span: Span },
    /// A set rule with `styles`, styling `tail`, the content of the rest;
    /// `rule` is where the walk recorded the rule.
    SetStyled { styles: Styles, tail: Content, rule: int },
    /// A show rule's recipe applied by Typst to the rest, giving `styled`.
    ShowStyled { styled: Content },
}

/// Whether `step` is what an expression of kind `kind` contributes.
pub open spec fn markup_step_fits(step: MarkupStep, kind: TopLevelKind) -> bool {
    match step {
        MarkupStep::Plain { .. } => kind == TopLevelKind::CodeBlock || kind == TopLevelKind::Other,
        MarkupStep::SetStyled { .. } => kind == TopLevelKind::SetRule,
        MarkupStep::ShowStyled { .. } => kind == TopLevelKind::ShowRule,
    }
}

/// The pieces of content that `steps` give, in order: a value shown at its
/// span unless it is a label, and each rule's styled rest.
pub open spec fn markup_pieces(steps: Seq<MarkupStep>) -> Seq<Content>
    decreases steps.len(),
{
    if steps.len() == 0 {
        Seq::empty()
    } else {
        let rest = markup_pieces(steps.drop_last());
        match steps.last() {
            MarkupStep::Plain { value, span } => if label_value(value) {
                rest
            } else {
                rest.push(spanned_at(displayed(value), span))
            },
            MarkupStep::SetStyled { styles, tail, .. } => rest.push(styled_map(tail, styles)),
            MarkupStep::ShowStyled { styled } => rest.push(styled),
        }
    }
}

proof fn lemma_extends_refl<F: Fn(Styles) -> Styles>(
    policy: CapturePolicy,
    filter: F,
    rules: Seq<CapturedRule>,
    ws: Seq<Seq<char>>,
)
    ensures
        extends(policy, filter, rules, rules, ws, ws),
        added(rules, rules) == Seq::<CapturedRule>::empty(),
{
    assert(rules.subrange(0, rules.len() as int) =~= rules);
    assert(added(rules, rules) =~= Seq::<CapturedRule>::empty());
    assert(ws + Seq::<Seq<char>>::empty() =~= ws);
}

proof fn lemma_extends_trans<F: Fn(Styles) -> Styles>(
    policy: CapturePolicy,
    filter: F,
    a: Seq<CapturedRule>,
    b: Seq<CapturedRule>,
    c: Seq<CapturedRule>,
    wa: Seq<Seq<char>>,
    wb: Seq<Seq<char>>,
    wc: Seq<Seq<char>>,
)
    requires
        extends(policy, filter, a, b, wa, wb),
        extends(policy, filter, b, c, wb, wc),
    ensures
        extends(policy, filter, a, c, wa, wc),
        added(a, c) == added(a, b) + added(b, c),
{
    assert(c.subrange(0, a.len() as int) =~= b.subrange(0, a.len() as int));
    assert(added(a, c) =~= added(a, b) + added(b, c));
    lemma_rule_warnings_append(added(a, b), added(b, c));
    assert(wc =~= wa + rule_warnings(added(a, c)));
    assert forall|k: int| 0 <= k < added(a, c).len() implies #[trigger] handled(
        added(a, c)[k],
        policy,
        filter,
    ) by {
        if k < added(a, b).len() {
            assert(added(a, c)[k] == added(a, b)[k]);
        } else {
            assert(added(a, c)[k] == added(b, c)[k - added(a, b).len()]);
        }
    }
}

proof fn lemma_extends_push<F: Fn(Styles) -> Styles>(
    policy: CapturePolicy,
    filter: F,
    a: Seq<CapturedRule>,
    b: Seq<CapturedRule>,
    wa: Seq<Seq<char>>,
    wb: Seq<Seq<char>>,
    r: CapturedRule,
    wc: Seq<Seq<char>>,
)
    requires
        extends(policy, filter, a, b, wa, wb),
        handled(r, policy, filter),
        wc == (if r.action == CaptureMove::Warn {
            wb.push(anonymous_show_text())
        } else {
            wb
        }),
    ensures
        extends(policy, filter, a, b.push(r), wa, wc),
        added(a, b.push(r)) == added(a, b).push(r),
{
    assert(added(a, b.push(r)) =~= added(a, b).push(r));
    assert(b.push(r).subrange(0, a.len() as int) =~= b.subrange(0, a.len() as int));
    assert(added(a, b).push(r).drop_last() =~= added(a, b));
    if r.action == CaptureMove::Warn {
        assert(wc =~= wa + rule_warnings(added(a, b.push(r))));
    }
    assert forall|k: int| 0 <= k < added(a, b.push(r)).len() implies #[trigger] handled(
        added(a, b.push(r))[k],
        policy,
        filter,
    ) by {
        if k < added(a, b).len() {
            assert(added(a, b.push(r))[k] == added(a, b)[k]);
        }
    }
}

proof fn lemma_kinds_step<'a>(items: Seq<TopLevel<'a>>, start: int, at: int)
    requires
        0 <= start <= at < items.len(),
    ensures
        walked_rules(kinds(items.subrange(start, at + 1))) == match kind_of(items[at]) {
            TopLevelKind::SetRule => walked_rules(kinds(items.subrange(start, at))).push(true),
            TopLevelKind::ShowRule => walked_rules(kinds(items.subrange(start, at))).push(false),
            _ => walked_rules(kinds(items.subrange(start, at))),
        },
{
    let k = kinds(items.subrange(start, at + 1));
    assert(k.drop_last() =~= kinds(items.subrange(start, at)));
    assert(k.last() == kind_of(items[at]));
}

proof fn lemma_kinds_split<'a>(items: Seq<TopLevel<'a>>, start: int, mid: int, end: int)
    requires
        0 <= start <= mid <= end <= items.len(),
    ensures
        walked_rules(kinds(items.subrange(start, end))) == walked_rules(
            kinds(items.subrange(start, mid)),
        ) + walked_rules(kinds(items.subrange(mid, end))),
{
    assert(kinds(items.subrange(start, end)) =~= kinds(items.subrange(start, mid)) + kinds(
        items.subrange(mid, end),
    ));
    lemma_walked_rules_append(kinds(items.subrange(start, mid)), kinds(items.subrange(mid, end)));
}

/// Records a set rule with `styles` as `policy` says: kept as they are,
/// kept as `filter` returns them, or not kept.
fn capture_set<F: Fn(Styles) -> Styles>(
    policy: CapturePolicy,
    filter: &F,
    captured: &mut CapturedStyles,
    styles: &Styles,
) -> (rule: Ghost<CapturedRule>)
    requires
        old(captured).wf(),
        forall|s: Styles| #[trigger] filter.requires((s,)),
    ensures
        final(captured).wf(),
        final(captured).rules() == old(captured).rules().push(rule@),
        rule@.rule == RuleKind::SetRule,
        rule@.given == *styles,
        handled(rule@, policy, *filter),
{
    let action = rule_move(policy, RuleKind::SetRule);
    let ghost given = *styles;
    let piece = match action {
        CaptureMove::Keep => Some(clone_styles(styles)),
        CaptureMove::KeepFiltered => Some(filter(clone_styles(styles))),
        _ => None,
    };
    captured.record(RuleKind::SetRule, action, Ghost(given), piece);
    Ghost(CapturedRule { rule: RuleKind::SetRule, action, given, kept: piece })
}

/// Records a show rule with `recipe` as `policy` says: its recipe kept as
/// styles, warned about, or not kept.
fn capture_show<F: Fn(Styles) -> Styles>(
    policy: CapturePolicy,
    filter: &F,
    captured: &mut CapturedStyles,
    warnings: &mut Vec<String>,
    recipe: &Recipe,
) -> (rule: Ghost<CapturedRule>)
    requires
        old(captured).wf(),
    ensures
        rule@.rule matches RuleKind::ShowRule { .. },
        handled(rule@, policy, *filter),
        final(captured).wf(),
        final(captured).rules() == old(captured).rules().push(rule@),
        final(warnings).deep_view() == (if rule@.action == CaptureMove::Warn {
            old(warnings).deep_view().push(anonymous_show_text())
        } else {
            old(warnings).deep_view()
        }),
{
    let kind = RuleKind::ShowRule { anonymous: recipe_is_anonymous(recipe) };
    let action = rule_move(policy, kind);
    let given = recipe_styles(recipe);
    let ghost g = given;
    let piece = match action {
        CaptureMove::Keep | CaptureMove::KeepFiltered => Some(given),
        CaptureMove::Warn => {
            let ghost before = warnings.deep_view();
            let w = anonymous_show_warning().to_string();
            warnings.push(w);
            assert(warnings.deep_view() =~= before.push(anonymous_show_text()));
            None
        },
        CaptureMove::Nothing => None,
    };
    captured.record(kind, action, Ghost(g), piece);
    Ghost(CapturedRule { rule: kind, action, given: g, kept: piece })
}

/// The top-level expressions `exprs`, told apart.
fn classify_all<'a>(exprs: &Vec<Expr<'a>>) -> (items: Vec<TopLevel<'a>>)
    ensures
        items.len() == exprs.len(),
{
    let mut items: Vec<TopLevel<'a>> = Vec::new();
    let mut i: usize = 0;
    while i < exprs.len()
        invariant
            i <= exprs.len(),
            items.len() == i,
        decreases exprs.len() - i,
    {
        items.push(top_level(&exprs[i]));
        i += 1;
    }
    items
}

/// The error for code blocks nested deeper than a walk's bound.
pub open spec fn nesting_error() -> Diagnostics {
    single_error("code blocks are nested too deeply"@)
}

proof fn lemma_markup_step<'a>(items: Seq<TopLevel<'a>>, start: int, steps: Seq<MarkupStep>, step: MarkupStep)
    requires
        0 <= start,
        start + steps.len() < items.len(),
        forall|k: int| 0 <= k < steps.len() ==> #[trigger] markup_step_fits(steps[k], kind_of(items[start + k])),
        markup_step_fits(step, kind_of(items[start + steps.len()])),
    ensures
        forall|k: int| 0 <= k < steps.push(step).len() ==> #[trigger] markup_step_fits(
            steps.push(step)[k],
            kind_of(items[start + k]),
        ),
        steps.push(step).drop_last() == steps,
        steps.push(step).last() == step,
        forall|rules: Seq<CapturedRule>, from: int|
            markup_steps_given(rules, from, steps) && markup_steps_given(rules, from, seq![step])
                ==> #[trigger] markup_steps_given(rules, from, steps.push(step)),
{
    assert forall|rules: Seq<CapturedRule>, from: int|
        markup_steps_given(rules, from, steps) && markup_steps_given(rules, from, seq![step])
            implies #[trigger] markup_steps_given(rules, from, steps.push(step)) by {
        assert forall|k: int| 0 <= k < steps.push(step).len() implies match #[trigger] steps.push(step)[k] {
            MarkupStep::SetStyled { styles, rule, .. } => from <= rule < rules.len() && rules[rule].rule
                == RuleKind::SetRule && rules[rule].given == styles,
            _ => true,
        } by {
            if k < steps.len() {
                assert(steps.push(step)[k] == steps[k]);
            } else {
                assert(steps.push(step)[k] == seq![step][0]);
            }
        }
    }
    assert(steps.push(step).drop_last() =~= steps);
    assert forall|k: int| 0 <= k < steps.push(step).len() implies #[trigger] markup_step_fits(
        steps.push(step)[k],
        kind_of(items[start + k]),
    ) by {
        if k < steps.len() {
            assert(steps.push(step)[k] == steps[k]);
        }
    }
}

/// Evaluates the code expressions `items[start..]` in order, joining their
/// values, and captures their top-level rules as `policy` says.
///
/// A set rule's styles, and a show rule's recipe, style the value of the
/// rest of the code, which is evaluated first. The walk stops at the first
/// error, and after the expression that leaves a `break`, `continue` or
/// `return` pending; a flow that was pending on entry is put back when the
/// walk ends normally. Under `CapturePolicy::Cells` the rules inside code
/// blocks are captured too, each block in a scope of its own; `depth` bounds
/// how deep blocks nest, and the walk fails once they nest deeper (a bound no
/// smaller than the source's length in bytes is never reached, since each
/// level of nesting takes a byte of its own).
///
/// Besides the value, gives the end of the items whose rules were captured,
/// and what each walked expression contributed.
pub fn eval_code_capture<'a, 'v, F: Fn(Styles) -> Styles>(
    vm: &mut Vm<'v>,
    items: &Vec<TopLevel<'a>>,
    start: usize,
    policy: CapturePolicy,
    filter: &F,
    captured: &mut CapturedStyles,
    warnings: &mut Vec<String>,
    depth: usize,
) -> (r: (Result<Value, Diagnostics>, usize, Ghost<CodeTrace>))
    requires
        start <= items.len(),
        old(captured).wf(),
        forall|s: Styles| #[trigger] filter.requires((s,)),
    ensures
        final(captured).wf(),
        walk_captures(
            items@,
            start as int,
            r.1 as int,
            policy,
            *filter,
            old(captured).rules(),
            final(captured).rules(),
            old(warnings).deep_view(),
            final(warnings).deep_view(),
        ),
        r.0 is Ok ==> r.0 == joined_steps(r.2@.init, r.2@.steps),
        own_rules(
            final(captured).rules(),
            r.2@.rules,
            old(captured).rules().len() as int,
            walked_rules(kinds(items@.subrange(start as int, r.1 as int))),
        ),
        code_steps_given(final(captured).rules(), old(captured).rules().len() as int, r.2@.steps),
        r.2@.steps.len() <= r.1 - start,
        forall|k: int| 0 <= k < r.2@.steps.len() ==> #[trigger] code_step_fits(r.2@.steps[k], kind_of(items@[start + k])),
        start == items.len() ==> r.0 == Ok::<Value, Diagnostics>(r.2@.init) && r.1 == start,
        policy == CapturePolicy::Cells && depth == 0 && start < items.len() && kind_of(items@[start as int])
            == TopLevelKind::CodeBlock ==> r.0 == Err::<Value, Diagnostics>(nesting_error()) && r.1
            == start,
    decreases depth, items.len() - start,
{
    let ghost rules0 = captured.rules();
    let ghost warnings0 = warnings.deep_view();
    proof {
        lemma_extends_refl(policy, *filter, rules0, warnings0);
        assert(kinds(items@.subrange(start as int, start as int)) =~= Seq::<TopLevelKind>::empty());
        assert(walked_rules(Seq::<TopLevelKind>::empty()) =~= Seq::<bool>::empty());
        assert(rule_sets(Seq::<CapturedRule>::empty()) =~= Seq::<bool>::empty());
    }
    let flow = take_flow(vm);
    let mut output = none_value();
    let ghost init = output;
    let ghost mut steps: Seq<CodeStep> = Seq::empty();
    let ghost mut own: Seq<int> = Seq::empty();
    let ghost mut entered = false;
    let mut pos = start;
    while pos < items.len()
        invariant_except_break
            steps.len() == pos - start,
        invariant
            start <= pos <= items.len(),
            captured.wf(),
            rules0 == old(captured).rules(),
            warnings0 == old(warnings).deep_view(),
            forall|s: Styles| #[trigger] filter.requires((s,)),
            walk_captures(
                items@,
                start as int,
                pos as int,
                policy,
                *filter,
                rules0,
                captured.rules(),
                warnings0,
                warnings.deep_view(),
            ),
            joined_steps(init, steps) == Ok::<Value, Diagnostics>(output),
            own_rules(
                captured.rules(),
                own,
                rules0.len() as int,
                walked_rules(kinds(items@.subrange(start as int, pos as int))),
            ),
            code_steps_given(captured.rules(), rules0.len() as int, steps),
            pos == start ==> steps.len() == 0,
            !entered ==> pos == start,
            steps.len() <= pos - start,
            forall|k: int| 0 <= k < steps.len() ==> #[trigger] code_step_fits(steps[k], kind_of(items@[start + k])),
            policy == CapturePolicy::Cells && depth == 0 && start < items.len() && kind_of(
                items@[start as int],
            ) == TopLevelKind::CodeBlock ==> !entered,
        ensures
            !(policy == CapturePolicy::Cells && depth == 0 && start < items.len() && kind_of(
                items@[start as int],
            ) == TopLevelKind::CodeBlock),
        decreases items.len() - pos,
    {
        let at = pos;
        let ghost mid = captured.rules();
        let ghost wmid = warnings.deep_view();
        proof {
            lemma_kinds_step(items@, start as int, at as int);
        }
        pos = pos + 1;
        proof {
            entered = true;
        }
        let (value, span, step, walked_rest) = match &items[at] {
            TopLevel::SetItem(expr, set) => {
                let span = expr_span(expr);
                let styles = match eval_set(vm, set) {
                    Ok(s) => s,
                    Err(e) => return (Err(e), at, Ghost(CodeTrace { init, steps, rules: own })),
                };
                let rule = capture_set(policy, filter, captured, &styles);
                let ghost index = mid.len() as int;
                proof {
                    lemma_extends_push(policy, *filter, rules0, mid, warnings0, wmid, rule@, wmid);
                    assert(rule_sets(added(rules0, captured.rules())) =~= rule_sets(added(rules0, mid)).push(true));
                    assert(captured.rules().subrange(0, mid.len() as int) =~= mid);
                    lemma_own_grow(mid, captured.rules(), own, rules0.len() as int, walked_rules(kinds(items@.subrange(start as int, at as int))));
                    lemma_steps_grow(mid, captured.rules(), rules0.len() as int, steps);
                    lemma_own_push(captured.rules(), own, rules0.len() as int, walked_rules(kinds(items@.subrange(start as int, at as int))), index, true);
                    own = own.push(index);
                }
                if flow_pending(vm) {
                    break;
                }
                let ghost rules1 = captured.rules();
                let ghost w1 = warnings.deep_view();
                let (tail, end, tr) = eval_code_capture(vm, items, pos, policy, filter, captured, warnings, depth);
                proof {
                    lemma_extends_trans(policy, *filter, rules0, rules1, captured.rules(), warnings0, w1, warnings.deep_view());
                    lemma_kinds_split(items@, start as int, pos as int, end as int);
                    assert(rule_sets(added(rules0, captured.rules())) =~= rule_sets(added(rules0, rules1)) + rule_sets(added(rules1, captured.rules())));
                    lemma_own_grow(rules1, captured.rules(), own, rules0.len() as int, walked_rules(kinds(items@.subrange(start as int, pos as int))));
                    lemma_steps_grow(rules1, captured.rules(), rules0.len() as int, steps);
                    lemma_own_concat(captured.rules(), own, walked_rules(kinds(items@.subrange(start as int, pos as int))), tr@.rules, walked_rules(kinds(items@.subrange(pos as int, end as int))), rules0.len() as int, rules1.len() as int);
                    own = own + tr@.rules;
                    assert(captured.rules()[index] == captured.rules().subrange(0, rules1.len() as int)[index]);
                    assert(rules1[index] == rule@);
                }
                pos = end;
                let tail = match tail {
                    Ok(v) => v,
                    Err(e) => return (Err(e), pos, Ghost(CodeTrace { init, steps, rules: own })),
                };
                let ghost step = CodeStep::SetStyled { styles, tail, span, rule: index };
                (content_value(styled_with_map(display(tail), styles)), span, Ghost(step), true)
            },
            TopLevel::ShowItem(expr, show) => {
                let span = expr_span(expr);
                let recipe = match eval_show(vm, show) {
                    Ok(r) => r,
                    Err(e) => return (Err(e), at, Ghost(CodeTrace { init, steps, rules: own })),
                };
                let rule = capture_show(policy, filter, captured, warnings, &recipe);
                let ghost index = mid.len() as int;
                proof {
                    lemma_extends_push(policy, *filter, rules0, mid, warnings0, wmid, rule@, warnings.deep_view());
                    assert(rule_sets(added(rules0, captured.rules())) =~= rule_sets(added(rules0, mid)).push(false));
                    assert(captured.rules().subrange(0, mid.len() as int) =~= mid);
                    lemma_own_grow(mid, captured.rules(), own, rules0.len() as int, walked_rules(kinds(items@.subrange(start as int, at as int))));
                    lemma_steps_grow(mid, captured.rules(), rules0.len() as int, steps);
                    lemma_own_push(captured.rules(), own, rules0.len() as int, walked_rules(kinds(items@.subrange(start as int, at as int))), index, false);
                    own = own.push(index);
                }
                if flow_pending(vm) {
                    break;
                }
                let ghost rules1 = captured.rules();
                let ghost w1 = warnings.deep_view();
                let (tail, end, tr) = eval_code_capture(vm, items, pos, policy, filter, captured, warnings, depth);
                proof {
                    lemma_extends_trans(policy, *filter, rules0, rules1, captured.rules(), warnings0, w1, warnings.deep_view());
                    lemma_kinds_split(items@, start as int, pos as int, end as int);
                    assert(rule_sets(added(rules0, captured.rules())) =~= rule_sets(added(rules0, rules1)) + rule_sets(added(rules1, captured.rules())));
                    lemma_own_grow(rules1, captured.rules(), own, rules0.len() as int, walked_rules(kinds(items@.subrange(start as int, pos as int))));
                    lemma_steps_grow(rules1, captured.rules(), rules0.len() as int, steps);
                    lemma_own_concat(captured.rules(), own, walked_rules(kinds(items@.subrange(start as int, pos as int))), tr@.rules, walked_rules(kinds(items@.subrange(pos as int, end as int))), rules0.len() as int, rules1.len() as int);
                    own = own + tr@.rules;
                }
                pos = end;
                let tail = match tail {
                    Ok(v) => v,
                    Err(e) => return (Err(e), pos, Ghost(CodeTrace { init, steps, rules: own })),
                };
                let styled = match styled_with_recipe(vm, display(tail), recipe) {
                    Ok(c) => c,
                    Err(e) => return (Err(e), pos, Ghost(CodeTrace { init, steps, rules: own })),
                };
                let ghost step = CodeStep::ShowStyled { styled, span };
                (content_value(styled), span, Ghost(step), true)
            },
            TopLevel::BlockItem(expr, block) => {
                let span = expr_span(expr);
                if policy == CapturePolicy::Cells {
                    if depth == 0 {
                        return (Err(source_error("code blocks are nested too deeply")), at, Ghost(CodeTrace { init, steps, rules: own }));
                    }
                    let inner = classify_all(&block_exprs(block));
                    let entered = enter_scope(vm);
                    let (r, _, _) = eval_code_capture(vm, &inner, 0, policy, filter, captured, warnings, depth - 1);
                    exit_scope(vm, entered);
                    proof {
                        lemma_extends_trans(policy, *filter, rules0, mid, captured.rules(), warnings0, wmid, warnings.deep_view());
                        lemma_own_grow(mid, captured.rules(), own, rules0.len() as int, walked_rules(kinds(items@.subrange(start as int, at as int))));
                        lemma_steps_grow(mid, captured.rules(), rules0.len() as int, steps);
                    }
                    match r {
                        Ok(v) => (v, span, Ghost(CodeStep::Plain { value: v, span }), false),
                        Err(e) => return (Err(e), pos, Ghost(CodeTrace { init, steps, rules: own })),
                    }
                } else {
                    match eval_block(vm, block) {
                        Ok(v) => (v, span, Ghost(CodeStep::Plain { value: v, span }), false),
                        Err(e) => return (Err(e), at, Ghost(CodeTrace { init, steps, rules: own })),
                    }
                }
            },
            TopLevel::OtherItem(expr) => {
                let span = expr_span(expr);
                match eval_expr(vm, expr) {
                    Ok(v) => (v, span, Ghost(CodeStep::Plain { value: v, span }), false),
                    Err(e) => return (Err(e), at, Ghost(CodeTrace { init, steps, rules: own })),
                }
            },
        };
        let ghost before = output;
        assert(step_value(step@) == value && step_span(step@) == span);
        output = match join_values(output, value, span) {
            Ok(v) => v,
            Err(e) => return (Err(e), pos, Ghost(CodeTrace { init, steps, rules: own })),
        };
        proof {
            let next = steps.push(step@);
            assert(next.drop_last() =~= steps);
            assert forall|k: int| 0 <= k < next.len() implies #[trigger] code_step_fits(
                next[k],
                kind_of(items@[start + k]),
            ) by {
                if k < steps.len() {
                    assert(next[k] == steps[k]);
                }
            }
            assert forall|k: int| 0 <= k < next.len() implies match #[trigger] next[k] {
                CodeStep::SetStyled { styles, rule, .. } => rules0.len() <= rule < captured.rules().len()
                    && captured.rules()[rule].rule == RuleKind::SetRule && captured.rules()[rule].given
                    == styles,
                _ => true,
            } by {
                if k < steps.len() {
                    assert(next[k] == steps[k]);
                }
            }
            steps = next;
        }
        // After a rule, the rest was walked by the walk that the rule styles.
        if walked_rest || flow_pending(vm) {
            break;
        }
    }
    match flow {
        Some(f) => restore_flow(vm, f),
        None => {},
    }
    (Ok(output), pos, Ghost(CodeTrace { init, steps, rules: own }))
}

/// Evaluates the markup expressions `items[start..]` in order, collecting
/// their content, and captures their top-level rules as `policy` says.
///
/// A set rule's styles, and a show rule's recipe, style the content of the
/// rest of the markup, which is evaluated first; labels add no content. The
/// walk stops at the first error, and after the expression that leaves a
/// `break`, `continue` or `return` pending; a flow that was pending on entry
/// is put back when the walk ends normally. Code blocks are evaluated as any
/// other expression.
///
/// Besides the content, gives the end of the items whose rules were
/// captured, and what each walked expression contributed.
pub fn eval_markup_capture<'a, 'v, F: Fn(Styles) -> Styles>(
    vm: &mut Vm<'v>,
    items: &Vec<TopLevel<'a>>,
    start: usize,
    policy: CapturePolicy,
    filter: &F,
    captured: &mut CapturedStyles,
    warnings: &mut Vec<String>,
) -> (r: (Result<Content, Diagnostics>, usize, Ghost<Seq<MarkupStep>>))
    requires
        start <= items.len(),
        old(captured).wf(),
        forall|s: Styles| #[trigger] filter.requires((s,)),
    ensures
        final(captured).wf(),
        start <= r.1 <= items.len(),
        extends(
            policy,
            *filter,
            old(captured).rules(),
            final(captured).rules(),
            old(warnings).deep_view(),
            final(warnings).deep_view(),
        ),
        rule_sets(added(old(captured).rules(), final(captured).rules())) == walked_rules(
            kinds(items@.subrange(start as int, r.1 as int)),
        ),
        r.0 is Ok ==> r.0 == Ok::<Content, Diagnostics>(content_sequence(markup_pieces(r.2@))),
        markup_steps_given(final(captured).rules(), old(captured).rules().len() as int, r.2@),
        r.2@.len() <= r.1 - start,
        forall|k: int| 0 <= k < r.2@.len() ==> #[trigger] markup_step_fits(r.2@[k], kind_of(items@[start + k])),
        start == items.len() ==> r.0 == Ok::<Content, Diagnostics>(
            content_sequence(Seq::<Content>::empty()),
        ) && r.1 == start,
    decreases items.len() - start,
{
    let ghost rules0 = captured.rules();
    let ghost warnings0 = warnings.deep_view();
    proof {
        lemma_extends_refl(policy, *filter, rules0, warnings0);
        assert(kinds(items@.subrange(start as int, start as int)) =~= Seq::<TopLevelKind>::empty());
        assert(walked_rules(Seq::<TopLevelKind>::empty()) =~= Seq::<bool>::empty());
        assert(rule_sets(Seq::<CapturedRule>::empty()) =~= Seq::<bool>::empty());
    }
    let flow = take_flow(vm);
    let mut output: Vec<Content> = Vec::new();
    let ghost mut steps: Seq<MarkupStep> = Seq::empty();
    let mut pos = start;
    while pos < items.len()
        invariant_except_break
            steps.len() == pos - start,
        invariant
            start <= pos <= items.len(),
            captured.wf(),
            rules0 == old(captured).rules(),
            warnings0 == old(warnings).deep_view(),
            forall|s: Styles| #[trigger] filter.requires((s,)),
            extends(policy, *filter, rules0, captured.rules(), warnings0, warnings.deep_view()),
            rule_sets(added(rules0, captured.rules())) == walked_rules(
                kinds(items@.subrange(start as int, pos as int)),
            ),
            output@ == markup_pieces(steps),
            markup_steps_given(captured.rules(), rules0.len() as int, steps),
            pos == start ==> steps.len() == 0,
            steps.len() <= pos - start,
            forall|k: int| 0 <= k < steps.len() ==> #[trigger] markup_step_fits(steps[k], kind_of(items@[start + k])),
        decreases items.len() - pos,
    {
        let at = pos;
        let ghost mid = captured.rules();
        let ghost wmid = warnings.deep_view();
        proof {
            lemma_kinds_step(items@, start as int, at as int);
        }
        pos = pos + 1;
        let walked_rest = match &items[at] {
            TopLevel::SetItem(_, set) => {
                let styles = match eval_set(vm, set) {
                    Ok(s) => s,
                    Err(e) => return (Err(e), at, Ghost(steps)),
                };
                let rule = capture_set(policy, filter, captured, &styles);
                let ghost index = mid.len() as int;
                proof {
                    lemma_extends_push(policy, *filter, rules0, mid, warnings0, wmid, rule@, wmid);
                    assert(rule_sets(added(rules0, captured.rules())) =~= rule_sets(added(rules0, mid)).push(true));
                    assert(captured.rules().subrange(0, mid.len() as int) =~= mid);
                    lemma_markup_steps_grow(mid, captured.rules(), rules0.len() as int, steps);
                }
                if flow_pending(vm) {
                    break;
                }
                let ghost rules1 = captured.rules();
                let ghost w1 = warnings.deep_view();
                let (tail, end, _) = eval_markup_capture(vm, items, pos, policy, filter, captured, warnings);
                proof {
                    lemma_extends_trans(policy, *filter, rules0, rules1, captured.rules(), warnings0, w1, warnings.deep_view());
                    lemma_kinds_split(items@, start as int, pos as int, end as int);
                    assert(rule_sets(added(rules0, captured.rules())) =~= rule_sets(added(rules0, rules1)) + rule_sets(added(rules1, captured.rules())));
                    lemma_markup_steps_grow(rules1, captured.rules(), rules0.len() as int, steps);
                    assert(captured.rules()[index] == captured.rules().subrange(0, rules1.len() as int)[index]);
                    assert(rules1[index] == rule@);
                }
                pos = end;
                let tail = match tail {
                    Ok(c) => c,
                    Err(e) => return (Err(e), pos, Ghost(steps)),
                };
                let ghost step = MarkupStep::SetStyled { styles, tail, rule: index };
                output.push(styled_with_map(tail, styles));
                proof {
                    lemma_markup_step(items@, start as int, steps, step);
                    steps = steps.push(step);
                }
                true
            },
            TopLevel::ShowItem(_, show) => {
                let recipe = match eval_show(vm, show) {
                    Ok(r) => r,
                    Err(e) => return (Err(e), at, Ghost(steps)),
                };
                let rule = capture_show(policy, filter, captured, warnings, &recipe);
                proof {
                    lemma_extends_push(policy, *filter, rules0, mid, warnings0, wmid, rule@, warnings.deep_view());
                    assert(rule_sets(added(rules0, captured.rules())) =~= rule_sets(added(rules0, mid)).push(false));
                    assert(captured.rules().subrange(0, mid.len() as int) =~= mid);
                    lemma_markup_steps_grow(mid, captured.rules(), rules0.len() as int, steps);
                }
                if flow_pending(vm) {
                    break;
                }
                let ghost rules1 = captured.rules();
                let ghost w1 = warnings.deep_view();
                let (tail, end, _) = eval_markup_capture(vm, items, pos, policy, filter, captured, warnings);
                proof {
                    lemma_extends_trans(policy, *filter, rules0, rules1, captured.rules(), warnings0, w1, warnings.deep_view());
                    lemma_kinds_split(items@, start as int, pos as int, end as int);
                    assert(rule_sets(added(rules0, captured.rules())) =~= rule_sets(added(rules0, rules1)) + rule_sets(added(rules1, captured.rules())));
    lemma_markup_steps_grow(rules1, captured.rules(), rules0.len() as int, steps);
                }
                pos = end;
                let tail = match tail {
                    Ok(c) => c,
                    Err(e) => return (Err(e), pos, Ghost(steps)),
                };
                let styled = match styled_with_recipe(vm, tail, recipe) {
                    Ok(c) => c,
                    Err(e) => return (Err(e), pos, Ghost(steps)),
                };
                output.push(styled);
                proof {
                    lemma_markup_step(items@, start as int, steps, MarkupStep::ShowStyled { styled });
                    steps = steps.push(MarkupStep::ShowStyled { styled });
                }
                true
            },
            TopLevel::BlockItem(expr, _) | TopLevel::OtherItem(expr) => {
                let value = match eval_expr(vm, expr) {
                    Ok(v) => v,
                    Err(e) => return (Err(e), at, Ghost(steps)),
                };
                let span = expr_span(expr);
                let ghost v = value;
                if !is_label(&value) {
                    output.push(spanned(display(value), span));
                }
                proof {
                    lemma_markup_step(items@, start as int, steps, MarkupStep::Plain { value: v, span });
                    steps = steps.push(MarkupStep::Plain { value: v, span });
                }
                false
            },
        };
        // After a rule, the rest was walked by the walk that the rule styles.
        if walked_rest || flow_pending(vm) {
            break;
        }
    }
    match flow {
        Some(f) => restore_flow(vm, f),
        None => {},
    }
    (Ok(sequence(output)), pos, Ghost(steps))
}

/// Evaluates a notebook session's parsed cell, `root`, read in `mode`, and
/// captures its rules as `CapturePolicy::Cells` says.
///
/// In code mode `root` is the cell wrapped in a code block: the body of
/// the first code block among its markup is walked, and it is an error when
/// `root` is no markup or holds no code block. In markup mode it is an
/// error when `root` is no markup.
pub fn eval_source_capture<'a, 'v, F: Fn(Styles) -> Styles>(
    vm: &mut Vm<'v>,
    root: &'a SyntaxNode,
    mode: SourceMode,
    filter: &F,
    captured: &mut CapturedStyles,
) -> (r: Result<Value, Diagnostics>)
    requires
        old(captured).wf(),
        forall|s: Styles| #[trigger] filter.requires((s,)),
    ensures
        final(captured).wf(),
        old(captured).rules().is_prefix_of(final(captured).rules()),
        follows_policy(added(old(captured).rules(), final(captured).rules()), CapturePolicy::Cells, *filter),
        !is_markup(*root) ==> r == Err::<Value, Diagnostics>(single_error(match mode {
            SourceMode::Code => "failed to parse wrapped Typst code"@,
            SourceMode::Markup => "failed to parse Typst markup"@,
        })) && final(captured).rules() == old(captured).rules(),
{
    let mut warnings: Vec<String> = Vec::new();
    let exprs = match markup_exprs(root) {
        Some(e) => e,
        None => {
            proof {
                lemma_extends_refl(CapturePolicy::Cells, *filter, captured.rules(), warnings.deep_view());
            }
            return match mode {
                SourceMode::Code => Err(source_error("failed to parse wrapped Typst code")),
                SourceMode::Markup => Err(source_error("failed to parse Typst markup")),
            };
        },
    };
    let items = classify_all(&exprs);
    match mode {
        SourceMode::Code => {
            let mut i: usize = 0;
            while i < items.len()
                invariant
                    i <= items.len(),
                    captured.wf(),
                    captured.rules() == old(captured).rules(),
                    forall|s: Styles| #[trigger] filter.requires((s,)),
                    is_markup(*root),
                decreases items.len() - i,
            {
                match &items[i] {
                    TopLevel::BlockItem(_, block) => {
                        let body = classify_all(&block_exprs(block));
                        let (r, _, _) = eval_code_capture(
                            vm,
                            &body,
                            0,
                            CapturePolicy::Cells,
                            filter,
                            captured,
                            &mut warnings,
                            node_len(root),
                        );
                        return r;
                    },
                    _ => {},
                }
                i += 1;
            }
            proof {
                lemma_extends_refl(CapturePolicy::Cells, *filter, captured.rules(), warnings.deep_view());
            }
            Err(source_error("failed to find wrapped Typst code body"))
        },
        SourceMode::Markup => {
            let (r, _, _) = eval_markup_capture(
                vm,
                &items,
                0,
                CapturePolicy::Cells,
                filter,
                captured,
                &mut warnings,
            );
            match r {
                Ok(c) => Ok(content_value(c)),
                Err(e) => Err(e),
            }
        },
    }
}

/// Evaluates the parsed code `root` and captures its top-level rules as
/// `policy` says, with `filter_persistent_styles` as the style filter; it is
/// an error when `root` is no code.
pub fn eval_code_root_capture<'a, 'v>(
    vm: &mut Vm<'v>,
    root: &'a SyntaxNode,
    policy: CapturePolicy,
    captured: &mut CapturedStyles,
    warnings: &mut Vec<String>,
) -> (r: Result<Value, Diagnostics>)
    requires
        old(captured).wf(),
    ensures
        final(captured).wf(),
        extends(
            policy,
            filter_persistent_styles,
            old(captured).rules(),
            final(captured).rules(),
            old(warnings).deep_view(),
            final(warnings).deep_view(),
        ),
        !is_code(*root) ==> r == Err::<Value, Diagnostics>(single_error("failed to parse Typst code"@))
            && final(captured).rules() == old(captured).rules(),
{
    let filter = filter_persistent_styles;
    let exprs = match code_exprs(root) {
        Some(e) => e,
        None => {
            proof {
                lemma_extends_refl(policy, filter, captured.rules(), warnings.deep_view());
            }
            return Err(source_error("failed to parse Typst code"));
        },
    };
    let items = classify_all(&exprs);
    let (r, _, _) = eval_code_capture(vm, &items, 0, policy, &filter, captured, warnings, node_len(root));
    r
}

/// With the persistence filter, every set rule kept for later cells is kept
/// through it: its kept styles are its own styles without the page's paper,
/// width or height, and none of them sets those.
pub proof fn lemma_kept_set_rules_drop_page_sizing(rules: Seq<CapturedRule>, policy: CapturePolicy)
    requires
        follows_policy(rules, policy, filter_persistent_styles),
        policy == CapturePolicy::Persistent || policy == CapturePolicy::Cells,
    ensures
        forall|k: int|
            0 <= k < rules.len() && #[trigger] rules[k].rule == RuleKind::SetRule ==> {
                &&& rules[k].kept is Some
                &&& style_entries(rules[k].kept->Some_0) == persistent_entries(
                    style_entries(rules[k].given),
                )
                &&& forall|e: int|
                    0 <= e < style_entries(rules[k].kept->Some_0).len() ==> persists(
                        style_key(#[trigger] style_entries(rules[k].kept->Some_0)[e]),
                    )
            },
{
    assert forall|k: int|
        0 <= k < rules.len() && #[trigger] rules[k].rule == RuleKind::SetRule implies {
            &&& rules[k].kept is Some
            &&& style_entries(rules[k].kept->Some_0) == persistent_entries(
                style_entries(rules[k].given),
            )
            &&& forall|e: int|
                0 <= e < style_entries(rules[k].kept->Some_0).len() ==> persists(
                    style_key(#[trigger] style_entries(rules[k].kept->Some_0)[e]),
                )
        } by {
        assert(handled(rules[k], policy, filter_persistent_styles));
        lemma_filtered_keeps_no_page_sizing(style_entries(rules[k].given));
    }
}

// ---------------------------------------------------------------------------
// Calls into Typst.

/// Tells the variants of `typst::syntax::ast::Expr` that a walk treats
/// apart: set rules, show rules, code blocks, and everything else.
#[verifier::external_body]
fn top_level<'a>(expr: &Expr<'a>) -> TopLevel<'a> {
    let expr = *expr;
    match expr {
        Expr::SetRule(set) => TopLevel::SetItem(expr, set),
        Expr::ShowRule(show) => TopLevel::ShowItem(expr, show),
        Expr::CodeBlock(block) => TopLevel::BlockItem(expr, block),
        _ => TopLevel::OtherItem(expr),
    }
}

/// `CodeBlock::body` and the expressions of that code, in order.
#[verifier::external_body]
fn block_exprs<'a>(block: &CodeBlock<'a>) -> Vec<Expr<'a>> {
    block.body().exprs().collect()
}

/// `SyntaxNode::cast` to markup, and its expressions in order; `None` when
/// the node is no markup.
#[verifier::external_body]
fn markup_exprs<'a>(root: &'a SyntaxNode) -> (r: Option<Vec<Expr<'a>>>)
    ensures
        r is Some == is_markup(*root),
{
    match root.cast::<typst::syntax::ast::Markup>() {
        Some(markup) => Some(markup.exprs().collect()),
        None => None,
    }
}

/// `SyntaxNode::cast` to code, and its expressions in order; `None` when
/// the node is no code.
#[verifier::external_body]
fn code_exprs<'a>(root: &'a SyntaxNode) -> (r: Option<Vec<Expr<'a>>>)
    ensures
        r is Some == is_code(*root),
{
    match root.cast::<typst::syntax::ast::Code>() {
        Some(code) => Some(code.exprs().collect()),
        None => None,
    }
}

/// `SyntaxNode::len`: the length of the node's text in bytes.
#[verifier::external_body]
fn node_len(root: &SyntaxNode) -> usize {
    root.len()
}

/// `AstNode::span` of an expression.
#[verifier::external_body]
fn expr_span(expr: &Expr<'_>) -> Span {
    expr.span()
}

/// Evaluates a set rule (`Eval for SetRule`) to its styles.
#[verifier::external_body]
fn eval_set(vm: &mut Vm<'_>, set: &SetRule<'_>) -> Result<Styles, Diagnostics> {
    set.eval(vm)
}

/// Evaluates a show rule (`Eval for ShowRule`) to its recipe.
#[verifier::external_body]
fn eval_show(vm: &mut Vm<'_>, show: &ShowRule<'_>) -> Result<Recipe, Diagnostics> {
    show.eval(vm)
}

/// Evaluates a code block (`Eval for CodeBlock`), in a scope of its own.
#[verifier::external_body]
fn eval_block(vm: &mut Vm<'_>, block: &CodeBlock<'_>) -> Result<Value, Diagnostics> {
    block.eval(vm)
}

/// Evaluates an expression (`Eval for Expr`).
#[verifier::external_body]
fn eval_expr(vm: &mut Vm<'_>, expr: &Expr<'_>) -> Result<Value, Diagnostics> {
    expr.eval(vm)
}

/// Whether a control-flow event (`break`, `continue`, `return`) is pending
/// in the VM: `vm.flow.is_some()`.
#[verifier::external_body]
fn flow_pending(vm: &Vm<'_>) -> bool {
    vm.flow.is_some()
}

/// Takes the VM's pending control-flow event out: `vm.flow.take()`.
#[verifier::external_body]
fn take_flow(vm: &mut Vm<'_>) -> Option<FlowEvent> {
    vm.flow.take()
}

/// Puts a control-flow event back into the VM: `vm.flow = Some(flow)`.
#[verifier::external_body]
fn restore_flow(vm: &mut Vm<'_>, flow: FlowEvent) {
    vm.flow = Some(flow);
}

/// Proof that a scope was entered and not yet left.
struct EnteredScope {
    _private: (),
}

/// `Scopes::enter` on the VM's scopes.
#[verifier::external_body]
fn enter_scope(vm: &mut Vm<'_>) -> EnteredScope {
    vm.scopes.enter();
    EnteredScope { _private: () }
}

/// `Scopes::exit` on the VM's scopes, which panics when no scope was
/// entered. It takes the `EnteredScope` that `enter_scope` gave; Typst's
/// evaluation leaves at least the scopes it found, so that scope is still
/// there to leave.
#[verifier::external_body]
fn exit_scope(vm: &mut Vm<'_>, _entered: EnteredScope) {
    vm.scopes.exit();
}

/// Whether a recipe has no selector: `Recipe::selector` is `None`.
#[verifier::external_body]
fn recipe_is_anonymous(recipe: &Recipe) -> bool {
    recipe.selector().is_none()
}

/// The styles that hold a recipe: `Styles::from(Style::from(recipe))`.
#[verifier::external_body]
fn recipe_styles(recipe: &Recipe) -> Styles {
    Style::from(recipe.clone()).into()
}

/// `Styles::clone`: the same styles (a second handle on the same list).
#[verifier::external_body]
fn clone_styles(styles: &Styles) -> (r: Styles)
    ensures
        r == *styles,
{
    styles.clone()
}

/// `Styles::new`: no styles.
#[verifier::external_body]
fn empty_styles() -> (r: Styles)
    ensures
        style_entries(r) == Seq::<LazyHash<Style>>::empty(),
{
    Styles::new()
}

/// `Styles::apply`: the entries of `outer` go before those `styles` held.
#[verifier::external_body]
fn apply_styles(styles: &mut Styles, outer: Styles)
    ensures
        style_entries(*final(styles)) == style_entries(outer) + style_entries(*old(styles)),
{
    styles.apply(outer)
}

/// `Value::None`.
#[verifier::external_body]
fn none_value() -> Value {
    Value::None
}

/// `Value::Content`.
#[verifier::external_body]
fn content_value(content: Content) -> (r: Value)
    ensures
        r == as_content(content),
{
    Value::Content(content)
}

/// Whether a value is a label (`Value::Label`).
#[verifier::external_body]
fn is_label(value: &Value) -> (b: bool)
    ensures
        b == label_value(*value),
{
    matches!(value, Value::Label(_))
}

/// `Value::display`: the value as content.
#[verifier::external_body]
fn display(value: Value) -> (r: Content)
    ensures
        r == displayed(value),
{
    value.display()
}

/// `Content::spanned`.
#[verifier::external_body]
fn spanned(content: Content, span: Span) -> (r: Content)
    ensures
        r == spanned_at(content, span),
{
    content.spanned(span)
}

/// `Content::sequence` of the pieces, in order.
#[verifier::external_body]
fn sequence(pieces: Vec<Content>) -> (r: Content)
    ensures
        r == content_sequence(pieces@),
{
    Content::sequence(pieces)
}

/// `Content::styled_with_map`.
#[verifier::external_body]
fn styled_with_map(content: Content, styles: Styles) -> (r: Content)
    ensures
        r == styled_map(content, styles),
{
    content.styled_with_map(styles)
}

/// `Content::styled_with_recipe` with the VM's engine and context.
#[verifier::external_body]
fn styled_with_recipe(vm: &mut Vm<'_>, content: Content, recipe: Recipe) -> Result<Content, Diagnostics> {
    content.styled_with_recipe(&mut vm.engine, vm.context, recipe)
}

/// `typst::foundations::ops::join` of two values, its error placed at `span`.
#[verifier::external_body]
fn join_values(lhs: Value, rhs: Value, span: Span) -> (r: Result<Value, Diagnostics>)
    ensures
        r == joined(lhs, rhs, span),
{
    typst::foundations::ops::join(lhs, rhs).at(span)
}

/// A single error (`SourceDiagnostic::error`) without a place in a source.
#[verifier::external_body]
fn source_error(message: &str) -> (r: Diagnostics)
    ensures
        r == single_error(message@),
{
    [SourceDiagnostic::error(Span::detached(), message)].into_iter().collect()
}

} // verus!
