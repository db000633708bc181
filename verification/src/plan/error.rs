//! Plan errors and their message contracts.
//!
//! Errors are structured data with a rendering of the full contract: agents
//! read these messages, so every promised field is present: the goal with
//! argument names, every declared mode with its cost, the bindings at the
//! failure point, and the minimal unlock sets.

use crate::plan::logic::DerivedId;
use crate::plan::mode::CostClass;
use crate::text::{
    cat3, concatenated, join_strings, join_strs, joined, push_repeated, repeated, str_texts, texts,
};
use vstd::prelude::*;
use vstd::string::{StrSliceExecFns, StringExecFns};
use vstd::utf8::encode_utf8;

verus! {

/// Where an unsatisfiable goal lives in the planner input, so that the
/// language layer can map the error back to a source span: the owning derived
/// predicate, the rule index within it, and the goal's index in that rule's
/// body. Not part of the rendered message.
#[derive(Clone, Copy, Debug, PartialEq, Eq, Structural)]
pub struct GoalLocation {
    pub predicate: DerivedId,
    pub rule_index: usize,
    pub source_index: usize,
}

/// One access-path alternative in a `RAQL0301` listing.
#[derive(Clone, Debug, PartialEq, Eq)]
pub struct ModeAlternative {
    /// `call_edge(+Caller, -, -, -)`: the mode over the goal's own argument
    /// names.
    pub signature: String,
    /// Short operator label (`by-caller`), `derived` or `builtin`.
    pub via: String,
    pub cost: Option<CostClass>,
    pub is_scan: bool,
    /// The mode exists but `deny_scans` excluded it.
    pub denied: bool,
}

/// The `RAQL0301` payload.
#[derive(Clone, Debug, PartialEq, Eq)]
pub struct UnsatisfiableGoal {
    /// The offending goal with argument names: `call_edge(Caller, ...)`.
    pub goal: String,
    /// Argument names bound at the failure point, in argument order.
    pub bound: Vec<String>,
    /// Every declared mode or supported pattern of the goal's predicate.
    pub alternatives: Vec<ModeAlternative>,
    /// Minimal sets of additional argument bindings that would unblock the
    /// goal, cheapest mode first.
    pub unlock_sets: Vec<Vec<String>>,
    /// Seed predicates from the catalog that can bind a `Def` from scratch
    /// (rendered as the `e.g. via ...` hint).
    pub seed_hint: Vec<&'static str>,
    /// True when a scan mode would have satisfied the goal but scans are
    /// denied for this request.
    pub scans_denied: bool,
    /// Where the goal lives in the planner input (`None` for the query, which
    /// no derived predicate owns).
    pub location: Option<GoalLocation>,
}

#[derive(Clone, Debug, PartialEq, Eq)]
pub enum PlanError {
    /// `RAQL0301`: no satisfiable access path for a goal, under any body
    /// ordering.
    UnsatisfiableModes(Box<UnsatisfiableGoal>),
    /// `RAQL0310`: the plan requires a scan and the request denies scans.
    ScanDenied { predicate: String, cost: CostClass },
    /// `RAQL0311`: a goal under `not` reaches a scan after demand
    /// propagation.
    ScanUnderNegation { goal: String, cost: CostClass },
    /// `RAQL0302`: the predicate exists but is disabled.
    PredicateDisabled { predicate: String },
    /// `RAQL0303`: a mode assertion on a derived predicate is not inferable
    /// from its rules.
    DeclaredModeNotInferable { predicate: String, mode: String },
    /// `RAQL0304`: malformed planner input (unknown predicate name or arity
    /// mismatch): a language-layer fault, reported defensively.
    MalformedInput { detail: String },
}

/// The mathematical content of a [`ModeAlternative`].
#[verifier::ext_equal]
pub struct AlternativeView {
    pub signature: Seq<char>,
    pub via: Seq<char>,
    pub cost: Option<CostClass>,
    pub is_scan: bool,
    pub denied: bool,
}

/// The mathematical content of an [`UnsatisfiableGoal`].
#[verifier::ext_equal]
pub struct UnsatisfiableView {
    pub goal: Seq<char>,
    pub bound: Seq<Seq<char>>,
    pub alternatives: Seq<AlternativeView>,
    pub unlock_sets: Seq<Seq<Seq<char>>>,
    pub seed_hint: Seq<Seq<char>>,
    pub scans_denied: bool,
    pub location: Option<GoalLocation>,
}

/// The mathematical content of a [`PlanError`].
#[verifier::ext_equal]
pub enum PlanErrorView {
    UnsatisfiableModes(UnsatisfiableView),
    ScanDenied { predicate: Seq<char>, cost: CostClass },
    ScanUnderNegation { goal: Seq<char>, cost: CostClass },
    PredicateDisabled { predicate: Seq<char> },
    DeclaredModeNotInferable { predicate: Seq<char>, mode: Seq<char> },
    MalformedInput { detail: Seq<char> },
}

impl View for ModeAlternative {
    type V = AlternativeView;

    open spec fn view(&self) -> AlternativeView {
        AlternativeView {
            signature: self.signature@,
            via: self.via@,
            cost: self.cost,
            is_scan: self.is_scan,
            denied: self.denied,
        }
    }
}

/// The views of a list of alternatives.
pub open spec fn alternative_views(items: Seq<ModeAlternative>) -> Seq<AlternativeView> {
    items.map_values(|alt: ModeAlternative| alt@)
}

/// The views of a list of name lists.
pub open spec fn text_lists(items: Seq<Vec<String>>) -> Seq<Seq<Seq<char>>> {
    items.map_values(|names: Vec<String>| texts(names@))
}

impl View for UnsatisfiableGoal {
    type V = UnsatisfiableView;

    open spec fn view(&self) -> UnsatisfiableView {
        UnsatisfiableView {
            goal: self.goal@,
            bound: texts(self.bound@),
            alternatives: alternative_views(self.alternatives@),
            unlock_sets: text_lists(self.unlock_sets@),
            seed_hint: str_texts(self.seed_hint@),
            scans_denied: self.scans_denied,
            location: self.location,
        }
    }
}

impl View for PlanError {
    type V = PlanErrorView;

    open spec fn view(&self) -> PlanErrorView {
        match *self {
            PlanError::UnsatisfiableModes(goal) => PlanErrorView::UnsatisfiableModes((*goal)@),
            PlanError::ScanDenied { predicate, cost } => PlanErrorView::ScanDenied {
                predicate: predicate@,
                cost,
            },
            PlanError::ScanUnderNegation { goal, cost } => PlanErrorView::ScanUnderNegation {
                goal: goal@,
                cost,
            },
            PlanError::PredicateDisabled { predicate } => PlanErrorView::PredicateDisabled {
                predicate: predicate@,
            },
            PlanError::DeclaredModeNotInferable {
                predicate,
                mode,
            } => PlanErrorView::DeclaredModeNotInferable { predicate: predicate@, mode: mode@ },
            PlanError::MalformedInput { detail } => PlanErrorView::MalformedInput {
                detail: detail@,
            },
        }
    }
}

/// The length of a text in bytes.
pub open spec fn byte_len(text: Seq<char>) -> nat {
    encode_utf8(text).len()
}

/// The widest signature of a listing, in bytes.
pub open spec fn listing_width(alternatives: Seq<AlternativeView>) -> nat
    decreases alternatives.len(),
{
    if alternatives.len() == 0 {
        0
    } else {
        let rest = listing_width(alternatives.drop_last());
        let last = byte_len(alternatives.last().signature);
        if last > rest {
            last
        } else {
            rest
        }
    }
}

/// `text` followed by as many spaces as bring it to `width` characters.
pub open spec fn padded(text: Seq<char>, width: nat) -> Seq<char> {
    text + repeated(
        ' ',
        if text.len() < width {
            (width - text.len()) as nat
        } else {
            0
        },
    )
}

/// One line of the listing of supported access paths.
pub open spec fn alternative_line(alt: AlternativeView, index: int, width: nat) -> Seq<char> {
    (if index == 0 {
        "  supported: "@
    } else {
        "             "@
    }) + padded(alt.signature, width) + "   "@ + alt.via + (match alt.cost {
        Some(cost) => "  ["@ + cost.label() + "]"@,
        None => ""@,
    }) + (if alt.denied {
        "  (denied: --no-scan)"@
    } else {
        ""@
    }) + "\n"@
}

/// The listing of supported access paths, one line each.
pub open spec fn listing(alternatives: Seq<AlternativeView>) -> Seq<char> {
    let width = listing_width(alternatives);
    concatenated(
        Seq::new(alternatives.len(), |i: int| alternative_line(alternatives[i], i, width)),
    )
}

/// The advice that closes the message.
pub open spec fn fix_text(goal: UnsatisfiableView) -> Seq<char> {
    (if goal.unlock_sets.len() == 0 {
        "no additional bindings can unblock this goal"@
    } else {
        "bind "@ + joined(
            goal.unlock_sets.map_values(|set: Seq<Seq<char>>| joined(set, "+"@)),
            " or "@,
        ) + " first"@ + (if goal.seed_hint.len() == 0 {
            ""@
        } else {
            " (e.g. via "@ + joined(goal.seed_hint, "/"@) + ")"@
        })
    }) + (if goal.scans_denied {
        ", or allow scans"@
    } else {
        ""@
    })
}

/// The rendering of `RAQL0301`.
pub open spec fn unsatisfiable_text(goal: UnsatisfiableView) -> Seq<char> {
    "error[RAQL0301]: no satisfiable access path for `"@ + goal.goal + "`\n"@ + "  bound here: "@ + (
    if goal.bound.len() == 0 {
        "(none)"@
    } else {
        joined(goal.bound, ", "@)
    }) + "\n"@ + listing(goal.alternatives) + "  fix: "@ + fix_text(goal)
}

impl PlanErrorView {
    /// The stable code of the error.
    pub open spec fn code_text(self) -> Seq<char> {
        match self {
            PlanErrorView::UnsatisfiableModes(_) => "RAQL0301"@,
            PlanErrorView::ScanDenied { .. } => "RAQL0310"@,
            PlanErrorView::ScanUnderNegation { .. } => "RAQL0311"@,
            PlanErrorView::PredicateDisabled { .. } => "RAQL0302"@,
            PlanErrorView::DeclaredModeNotInferable { .. } => "RAQL0303"@,
            PlanErrorView::MalformedInput { .. } => "RAQL0304"@,
        }
    }

    /// The rendered message.
    pub open spec fn text(self) -> Seq<char> {
        match self {
            PlanErrorView::UnsatisfiableModes(goal) => unsatisfiable_text(goal),
            PlanErrorView::ScanDenied { predicate, cost } => {
                "error[RAQL0310]: plan requires the scan `"@ + predicate + "` ["@ + cost.label()
                    + "], denied by --no-scan"@
            },
            PlanErrorView::ScanUnderNegation { goal, cost } => {
                "error[RAQL0311]: `"@ + goal + "` is demanded under `not` but reaches a scan ["@
                    + cost.label() + "] — negated goals must be scan-free (SPEC §8.5)"@
            },
            PlanErrorView::PredicateDisabled { predicate } => {
                "error[RAQL0302]: predicate `"@ + predicate
                    + "` is disabled — no honest RA-native operator exists yet (SPEC §4.3); see `raql capabilities`"@
            },
            PlanErrorView::DeclaredModeNotInferable { predicate, mode } => {
                "error[RAQL0303]: declared mode `"@ + predicate + mode
                    + "` is not inferable from its rules (SPEC §9.1)"@
            },
            PlanErrorView::MalformedInput { detail } => {
                "error[RAQL0304]: malformed planner input: "@ + detail
            },
        }
    }
}

impl PlanError {
    pub fn code(&self) -> (r: &'static str)
        ensures
            r@ == self@.code_text(),
    {
        match self {
            PlanError::UnsatisfiableModes(_) => "RAQL0301",
            PlanError::ScanDenied { .. } => "RAQL0310",
            PlanError::ScanUnderNegation { .. } => "RAQL0311",
            PlanError::PredicateDisabled { .. } => "RAQL0302",
            PlanError::DeclaredModeNotInferable { .. } => "RAQL0303",
            PlanError::MalformedInput { .. } => "RAQL0304",
        }
    }

    /// The rendered message.
    pub fn to_text(&self) -> (r: String)
        ensures
            r@ == self@.text(),
    {
        match self {
            PlanError::UnsatisfiableModes(goal) => render_unsatisfiable(goal),
            PlanError::ScanDenied { predicate, cost } => {
                let mut out = "error[RAQL0310]: plan requires the scan `".to_owned();
                out.append(predicate.as_str());
                out.append("` [");
                out.append(cost.name());
                out.append("], denied by --no-scan");
                out
            },
            PlanError::ScanUnderNegation { goal, cost } => {
                let mut out = "error[RAQL0311]: `".to_owned();
                out.append(goal.as_str());
                out.append("` is demanded under `not` but reaches a scan [");
                out.append(cost.name());
                out.append("] — negated goals must be scan-free (SPEC §8.5)");
                out
            },
            PlanError::PredicateDisabled { predicate } => {
                let mut out = "error[RAQL0302]: predicate `".to_owned();
                out.append(predicate.as_str());
                out.append(
                    "` is disabled — no honest RA-native operator exists yet (SPEC §4.3); see `raql capabilities`",
                );
                out
            },
            PlanError::DeclaredModeNotInferable { predicate, mode } => {
                let mut out = "error[RAQL0303]: declared mode `".to_owned();
                out.append(predicate.as_str());
                out.append(mode.as_str());
                out.append("` is not inferable from its rules (SPEC §9.1)");
                out
            },
            PlanError::MalformedInput { detail } => {
                let mut out = "error[RAQL0304]: malformed planner input: ".to_owned();
                out.append(detail.as_str());
                out
            },
        }
    }
}

/// The widest signature of a listing, in bytes.
fn signature_width(alternatives: &Vec<ModeAlternative>) -> (r: usize)
    ensures
        r == listing_width(alternative_views(alternatives@)),
{
    let mut width: usize = 0;
    let mut i: usize = 0;
    while i < alternatives.len()
        invariant
            i <= alternatives@.len(),
            width == listing_width(alternative_views(alternatives@).take(i as int)),
        decreases alternatives.len() - i,
    {
        let bytes: usize = alternatives[i].signature.as_str().as_bytes().len();
        proof {
            let longer = alternative_views(alternatives@).take(i + 1);
            assert(longer.drop_last() =~= alternative_views(alternatives@).take(i as int));
            assert(longer.last() == alternatives@[i as int]@);
        }
        if bytes > width {
            width = bytes;
        }
        i += 1;
    }
    assert(alternative_views(alternatives@).take(i as int) =~= alternative_views(alternatives@));
    width
}

/// `text` brought to `width` characters with spaces.
fn pad(text: &str, width: usize) -> (r: String)
    ensures
        r@ == padded(text@, width as nat),
{
    let count: usize = text.unicode_len();
    let missing: usize = if count < width {
        width - count
    } else {
        0
    };
    let mut out = text.to_owned();
    push_repeated(&mut out, ' ', missing);
    out
}

/// The cost of an alternative, where it has one.
fn cost_suffix(cost: Option<CostClass>) -> (r: String)
    ensures
        r@ == match cost {
            Some(class) => "  ["@ + class.label() + "]"@,
            None => ""@,
        },
{
    match cost {
        Some(class) => cat3("  [", class.name(), "]"),
        None => "".to_owned(),
    }
}

/// One line of the listing.
fn render_alternative(alt: &ModeAlternative, index: usize, width: usize) -> (r: String)
    ensures
        r@ == alternative_line(alt@, index as int, width as nat),
{
    let label = if index == 0 {
        "  supported: "
    } else {
        "             "
    };
    let denied = if alt.denied {
        "  (denied: --no-scan)"
    } else {
        ""
    };
    let mut line = label.to_owned();
    line.append(pad(alt.signature.as_str(), width).as_str());
    line.append("   ");
    line.append(alt.via.as_str());
    line.append(cost_suffix(alt.cost).as_str());
    line.append(denied);
    line.append("\n");
    line
}

/// Appends the advice that closes the message.
fn push_fix(out: &mut String, goal: &UnsatisfiableGoal)
    ensures
        final(out)@ == old(out)@ + fix_text(goal@),
{
    let ghost start = out@;
    if goal.unlock_sets.len() == 0 {
        out.append("no additional bindings can unblock this goal");
    } else {
        let mut sets: Vec<String> = Vec::new();
        let mut i: usize = 0;
        while i < goal.unlock_sets.len()
            invariant
                i <= goal.unlock_sets@.len(),
                sets@.len() == i,
                forall|j: int|
                    0 <= j < i ==> (#[trigger] sets@[j])@ == joined(
                        texts(goal.unlock_sets@[j]@),
                        "+"@,
                    ),
            decreases goal.unlock_sets.len() - i,
        {
            sets.push(join_strings(&goal.unlock_sets[i], "+"));
            i += 1;
        }
        assert(texts(sets@) =~= goal@.unlock_sets.map_values(
            |set: Seq<Seq<char>>| joined(set, "+"@),
        ));
        out.append("bind ");
        out.append(join_strings(&sets, " or ").as_str());
        out.append(" first");
        if goal.seed_hint.len() == 0 {
            out.append("");
        } else {
            out.append(" (e.g. via ");
            out.append(join_strs(goal.seed_hint.as_slice(), "/").as_str());
            out.append(")");
        }
    }
    if goal.scans_denied {
        out.append(", or allow scans");
    } else {
        out.append("");
    }
    assert(out@ =~= start + fix_text(goal@));
}

/// The rendering of `RAQL0301`.
fn render_unsatisfiable(goal: &UnsatisfiableGoal) -> (r: String)
    ensures
        r@ == unsatisfiable_text(goal@),
{
    let mut out = "error[RAQL0301]: no satisfiable access path for `".to_owned();
    out.append(goal.goal.as_str());
    out.append("`\n");
    out.append("  bound here: ");
    if goal.bound.len() == 0 {
        out.append("(none)");
    } else {
        out.append(join_strings(&goal.bound, ", ").as_str());
    }
    out.append("\n");
    let ghost start = out@;
    let width: usize = signature_width(&goal.alternatives);
    let ghost lines = Seq::new(
        goal@.alternatives.len(),
        |i: int| alternative_line(goal@.alternatives[i], i, width as nat),
    );
    let mut i: usize = 0;
    assert(lines.take(0) =~= Seq::<Seq<char>>::empty());
    assert(out@ =~= start + concatenated(lines.take(0)));
    while i < goal.alternatives.len()
        invariant
            i <= goal.alternatives@.len(),
            lines == Seq::new(
                goal@.alternatives.len(),
                |i: int| alternative_line(goal@.alternatives[i], i, width as nat),
            ),
            out@ == start + concatenated(lines.take(i as int)),
        decreases goal.alternatives.len() - i,
    {
        out.append(render_alternative(&goal.alternatives[i], i, width).as_str());
        proof {
            let longer = lines.take(i + 1);
            assert(longer.drop_last() =~= lines.take(i as int));
            assert(out@ =~= start + concatenated(longer));
        }
        i += 1;
    }
    assert(lines.take(i as int) =~= lines);
    out.append("  fix: ");
    push_fix(&mut out, goal);
    assert(out@ =~= unsatisfiable_text(goal@));
    out
}

} // verus!
