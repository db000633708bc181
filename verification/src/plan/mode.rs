//! Binding modes and access paths.

use crate::plan::operator::OperatorId;
use crate::text::joined;
use vstd::prelude::*;
use vstd::string::StringExecFns;

verus! {

/// Declared asymptotic cost band of an access path. Honest bands for planning
/// and explain output, not measurements.
#[derive(Clone, Copy, Debug, PartialEq, Eq, PartialOrd, Ord, Hash, Structural)]
pub enum CostClass {
    /// Constant-time projection of an already-interned value.
    C0,
    /// Definition-local work: one body or item traversal, one path walk.
    C1,
    /// Name-bounded search: symbol index or text-prefiltered reference search.
    C2,
    /// Crate-wide enumeration.
    C3,
    /// Workspace-wide enumeration or scan composition.
    C4,
}

impl CostClass {
    /// Position in the order of cost bands.
    pub open spec fn rank(self) -> int {
        match self {
            CostClass::C0 => 0,
            CostClass::C1 => 1,
            CostClass::C2 => 2,
            CostClass::C3 => 3,
            CostClass::C4 => 4,
        }
    }

    /// The rendered label.
    pub open spec fn label(self) -> Seq<char> {
        match self {
            CostClass::C0 => "C0"@,
            CostClass::C1 => "C1"@,
            CostClass::C2 => "C2"@,
            CostClass::C3 => "C3"@,
            CostClass::C4 => "C4"@,
        }
    }

    /// The dearer of two cost bands.
    pub open spec fn max_of(self, other: CostClass) -> CostClass {
        if self.rank() < other.rank() {
            other
        } else {
            self
        }
    }

    pub fn name(self) -> (r: &'static str)
        ensures
            r@ == self.label(),
    {
        match self {
            CostClass::C0 => "C0",
            CostClass::C1 => "C1",
            CostClass::C2 => "C2",
            CostClass::C3 => "C3",
            CostClass::C4 => "C4",
        }
    }

    fn level(self) -> (r: u8)
        ensures
            r == self.rank(),
    {
        match self {
            CostClass::C0 => 0,
            CostClass::C1 => 1,
            CostClass::C2 => 2,
            CostClass::C3 => 3,
            CostClass::C4 => 4,
        }
    }

    /// Whether this band is strictly cheaper than `other`.
    pub fn less_than(self, other: CostClass) -> (r: bool)
        ensures
            r == (self.rank() < other.rank()),
    {
        self.level() < other.level()
    }

    /// The dearer of two cost bands.
    pub fn dearer(self, other: CostClass) -> (r: CostClass)
        ensures
            r == self.max_of(other),
    {
        if self.level() < other.level() {
            other
        } else {
            self
        }
    }
}

/// Binding state of one argument position within a mode.
#[derive(Clone, Copy, Debug, PartialEq, Eq, Structural)]
pub enum Binding {
    /// `+`: must be bound when the goal runs.
    Bound,
    /// `-`: the operator binds it.
    Free,
}

/// The positions that a declared binding sequence requires to be bound.
pub open spec fn required(bindings: Seq<Binding>) -> Seq<bool> {
    bindings.map_values(|b: Binding| b is Bound)
}

/// Every argument that `need` binds is bound in `have`, over the positions
/// that both have.
pub open spec fn covered(need: Seq<bool>, have: Seq<bool>) -> bool {
    forall|i: int| 0 <= i < need.len() && i < have.len() && #[trigger] need[i] ==> have[i]
}

/// There is something to bind, and nothing is bound.
pub open spec fn unseeded(flags: Seq<bool>) -> bool {
    flags.len() > 0 && forall|i: int| 0 <= i < flags.len() ==> !#[trigger] flags[i]
}

/// The `+` or `-` mark of one position.
pub open spec fn mark(bound: bool) -> Seq<char> {
    if bound {
        "+"@
    } else {
        "-"@
    }
}

/// The comma-separated marks of a pattern, as in `+,-`.
pub open spec fn marks(flags: Seq<bool>) -> Seq<char> {
    joined(flags.map_values(|b: bool| mark(b)), ","@)
}

/// The lexicographic order of patterns, an unbound position before a bound
/// one and a prefix before what extends it.
pub open spec fn pattern_lt(a: Seq<bool>, b: Seq<bool>) -> bool
    decreases a.len(),
{
    if b.len() == 0 {
        false
    } else if a.len() == 0 {
        true
    } else if a[0] != b[0] {
        b[0]
    } else {
        pattern_lt(a.drop_first(), b.drop_first())
    }
}

/// Patterns are totally ordered.
pub proof fn lemma_pattern_order_total(a: Seq<bool>, b: Seq<bool>)
    ensures
        a == b || pattern_lt(a, b) || pattern_lt(b, a),
        !(pattern_lt(a, b) && pattern_lt(b, a)),
        !pattern_lt(a, a),
    decreases a.len(),
{
    if a.len() > 0 {
        if b.len() > 0 && a[0] == b[0] {
            lemma_pattern_order_total(a.drop_first(), b.drop_first());
            if a.drop_first() == b.drop_first() {
                assert(a =~= seq![a[0]] + a.drop_first());
                assert(b =~= seq![b[0]] + b.drop_first());
            }
        }
        lemma_pattern_order_total(a.drop_first(), a.drop_first());
    } else if b.len() == 0 {
        assert(a =~= b);
    }
}

/// The order of patterns is transitive.
pub proof fn lemma_pattern_order_transitive(a: Seq<bool>, b: Seq<bool>, c: Seq<bool>)
    requires
        pattern_lt(a, b),
        pattern_lt(b, c),
    ensures
        pattern_lt(a, c),
    decreases a.len(),
{
    if a.len() > 0 && a[0] == b[0] && b[0] == c[0] {
        lemma_pattern_order_transitive(a.drop_first(), b.drop_first(), c.drop_first());
    }
}

/// Which arguments of a goal are bound at some point: the observed binding
/// state the planner keys on (demand specializations, derived support sets,
/// satisfiability checks). Distinct from [`ModeDef::pattern`], which is a
/// declared requirement over [`Binding`].
#[derive(Debug, PartialEq, Eq, PartialOrd, Ord, Hash)]
pub struct Pattern(Vec<bool>);

impl From<Vec<bool>> for Pattern {
    fn from(bound: Vec<bool>) -> (r: Pattern)
        ensures
            r@ == bound@,
    {
        Pattern(bound)
    }
}

impl vstd::std_specs::convert::FromSpecImpl<Vec<bool>> for Pattern {
    open spec fn obeys_from_spec() -> bool {
        true
    }

    closed spec fn from_spec(bound: Vec<bool>) -> Pattern {
        Pattern(bound)
    }
}

impl View for Pattern {
    type V = Seq<bool>;

    closed spec fn view(&self) -> Seq<bool> {
        self.0@
    }
}

impl Clone for Pattern {
    fn clone(&self) -> (r: Pattern)
        ensures
            r@ == self@,
    {
        let mut flags: Vec<bool> = Vec::new();
        let mut i: usize = 0;
        while i < self.0.len()
            invariant
                i <= self.0@.len(),
                flags@ == self.0@.take(i as int),
            decreases self.0.len() - i,
        {
            flags.push(self.0[i]);
            i += 1;
            assert(flags@ =~= self.0@.take(i as int));
        }
        assert(flags@ =~= self.0@);
        Pattern(flags)
    }
}

/// Position `i` of the pattern numbered `mask`: the bit of weight `2^i`.
pub open spec fn mask_bit(mask: nat, i: nat) -> bool
    decreases i,
{
    if i == 0 {
        mask % 2 == 1
    } else {
        mask_bit(mask / 2, (i - 1) as nat)
    }
}

/// The pattern numbered `mask` of an arity.
pub open spec fn mask_pattern(mask: nat, arity: nat) -> Seq<bool> {
    Seq::new(arity, |i: int| mask_bit(mask, i as nat))
}

/// Two to the power of an arity: the number of its patterns.
pub open spec fn pattern_count(arity: nat) -> nat
    decreases arity,
{
    if arity == 0 {
        1
    } else {
        2 * pattern_count((arity - 1) as nat)
    }
}

/// The number of a pattern: the sum of the weights of its bound positions.
pub open spec fn pattern_number(flags: Seq<bool>) -> nat
    decreases flags.len(),
{
    if flags.len() == 0 {
        0
    } else {
        (if flags[0] {
            1nat
        } else {
            0nat
        }) + 2 * pattern_number(flags.drop_first())
    }
}

/// Every pattern of an arity has a number below the number of patterns, and
/// is the pattern with that number.
pub proof fn lemma_pattern_number(flags: Seq<bool>)
    ensures
        pattern_number(flags) < pattern_count(flags.len()),
        mask_pattern(pattern_number(flags), flags.len()) == flags,
    decreases flags.len(),
{
    if flags.len() > 0 {
        let rest = flags.drop_first();
        lemma_pattern_number(rest);
        let n = pattern_number(flags);
        assert(n / 2 == pattern_number(rest));
        assert forall|i: int| 0 <= i < flags.len() implies mask_bit(n, i as nat) == flags[i] by {
            if i > 0 {
                assert(mask_bit(n, i as nat) == mask_bit(pattern_number(rest), (i - 1) as nat));
                assert(mask_pattern(pattern_number(rest), rest.len())[i - 1] == rest[i - 1]);
            }
        }
    }
    assert(mask_pattern(pattern_number(flags), flags.len()) =~= flags);
}

proof fn lemma_pattern_count_bound(arity: nat)
    requires
        arity <= 16,
    ensures
        pattern_count(arity) <= 65536,
{
    reveal_with_fuel(pattern_count, 17);
}

impl Pattern {
    pub fn new(bound: Vec<bool>) -> (r: Pattern)
        ensures
            r@ == bound@,
    {
        Pattern(bound)
    }

    /// Lowers a declared binding sequence: `Bound` positions are bound.
    pub fn from_bindings(bindings: &[Binding]) -> (r: Pattern)
        ensures
            r@ == required(bindings@),
    {
        let mut flags: Vec<bool> = Vec::new();
        let mut i: usize = 0;
        while i < bindings.len()
            invariant
                i <= bindings@.len(),
                flags@ == required(bindings@.take(i as int)),
            decreases bindings.len() - i,
        {
            flags.push(bindings[i] == Binding::Bound);
            i += 1;
            assert(flags@ =~= required(bindings@.take(i as int)));
        }
        assert(bindings@.take(i as int) =~= bindings@);
        Pattern(flags)
    }

    /// Every pattern of the given arity, in the order of their numbers.
    pub fn all(arity: usize) -> (r: Vec<Pattern>)
        requires
            arity <= 16,
        ensures
            r@.len() == pattern_count(arity as nat),
            forall|mask: int|
                0 <= mask < r@.len() ==> (#[trigger] r@[mask])@ == mask_pattern(
                    mask as nat,
                    arity as nat,
                ),
    {
        proof {
            lemma_pattern_count_bound(arity as nat);
        }
        let mut count: u32 = 1;
        let mut k: usize = 0;
        while k < arity
            invariant
                k <= arity <= 16,
                count == pattern_count(k as nat),
                count <= 65536,
            decreases arity - k,
        {
            proof {
                lemma_pattern_count_bound((k + 1) as nat);
            }
            count = count * 2;
            k += 1;
        }
        let mut out: Vec<Pattern> = Vec::new();
        let mut mask: u32 = 0;
        while mask < count
            invariant
                mask <= count,
                out@.len() == mask,
                forall|m: int|
                    0 <= m < mask ==> (#[trigger] out@[m])@ == mask_pattern(m as nat, arity as nat),
            decreases count - mask,
        {
            let mut flags: Vec<bool> = Vec::new();
            let mut rest: u32 = mask;
            let mut i: usize = 0;
            while i < arity
                invariant
                    i <= arity,
                    flags@.len() == i,
                    forall|j: int|
                        0 <= j < i ==> #[trigger] flags@[j] == mask_bit(mask as nat, j as nat),
                    forall|j: nat|
                        #![trigger mask_bit(rest as nat, j)]
                        mask_bit(rest as nat, j) == mask_bit(mask as nat, (i + j) as nat),
                decreases arity - i,
            {
                assert(mask_bit(rest as nat, 0) == mask_bit(mask as nat, i as nat));
                flags.push(rest % 2 == 1);
                assert forall|j: nat|
                    #![trigger mask_bit((rest / 2) as nat, j)]
                    mask_bit((rest / 2) as nat, j) == mask_bit(mask as nat, (i + 1 + j) as nat) by {
                    assert(mask_bit(rest as nat, (j + 1) as nat) == mask_bit(
                        mask as nat,
                        (i + (j + 1)) as nat,
                    ));
                }
                rest = rest / 2;
                i += 1;
            }
            assert(flags@ =~= mask_pattern(mask as nat, arity as nat));
            out.push(Pattern(flags));
            mask += 1;
        }
        out
    }

    pub fn arity(&self) -> (r: usize)
        ensures
            r == self@.len(),
    {
        self.0.len()
    }

    pub fn is_bound(&self, index: usize) -> (r: bool)
        requires
            index < self@.len(),
        ensures
            r == self@[index as int],
    {
        self.0[index]
    }

    /// Whether each argument is bound, in order.
    pub fn iter(&self) -> (r: std::slice::Iter<'_, bool>)
        ensures
            vstd::std_specs::iter::IteratorSpec::remaining(&r).unref() == self@,
    {
        self.0.iter()
    }

    pub fn flags(&self) -> (r: &Vec<bool>)
        ensures
            r@ == self@,
    {
        &self.0
    }

    /// Nothing bound, and there is something to bind: calling a derived
    /// predicate under this pattern is a scan of it.
    pub fn is_unseeded(&self) -> (r: bool)
        ensures
            r == unseeded(self@),
    {
        let mut i: usize = 0;
        while i < self.0.len()
            invariant
                i <= self.0@.len(),
                forall|j: int| 0 <= j < i ==> !#[trigger] self.0@[j],
            decreases self.0.len() - i,
        {
            if self.0[i] {
                return false;
            }
            i += 1;
        }
        self.0.len() > 0
    }

    /// Every argument this pattern binds is bound in `other`.
    pub fn subset_of(&self, other: &Pattern) -> (r: bool)
        ensures
            r == covered(self@, other@),
    {
        let mut i: usize = 0;
        while i < self.0.len() && i < other.0.len()
            invariant
                i <= self.0@.len(),
                i <= other.0@.len(),
                forall|j: int| 0 <= j < i && #[trigger] self.0@[j] ==> other.0@[j],
            decreases self.0.len() - i,
        {
            if self.0[i] && !other.0[i] {
                return false;
            }
            i += 1;
        }
        true
    }

    /// Whether the two patterns are the same.
    pub fn same(&self, other: &Pattern) -> (r: bool)
        ensures
            r == (self@ == other@),
    {
        if self.0.len() != other.0.len() {
            return false;
        }
        let mut i: usize = 0;
        while i < self.0.len()
            invariant
                i <= self.0@.len(),
                self.0@.len() == other.0@.len(),
                forall|j: int| 0 <= j < i ==> self.0@[j] == other.0@[j],
            decreases self.0.len() - i,
        {
            if self.0[i] != other.0[i] {
                return false;
            }
            i += 1;
        }
        assert(self@ =~= other@);
        true
    }

    /// Whether this pattern comes before `other`.
    pub fn before(&self, other: &Pattern) -> (r: bool)
        ensures
            r == pattern_lt(self@, other@),
    {
        let mut i: usize = 0;
        assert(self@.skip(0) =~= self@);
        assert(other@.skip(0) =~= other@);
        while i < self.0.len() && i < other.0.len() && self.0[i] == other.0[i]
            invariant
                i <= self.0@.len(),
                i <= other.0@.len(),
                pattern_lt(self@, other@) == pattern_lt(self@.skip(i as int), other@.skip(i as int)),
            decreases self.0.len() - i,
        {
            proof {
                assert(self@.skip(i as int).drop_first() =~= self@.skip(i + 1));
                assert(other@.skip(i as int).drop_first() =~= other@.skip(i + 1));
            }
            i += 1;
        }
        if i == other.0.len() {
            false
        } else if i == self.0.len() {
            true
        } else {
            other.0[i]
        }
    }

    /// The `(+,-)` rendering, as used in explain output and plan errors.
    pub fn render(&self) -> (r: String)
        ensures
            r@ == "("@ + marks(self@) + ")"@,
    {
        let mut out = "(".to_owned();
        out.append(self.render_marks().as_str());
        out.append(")");
        out
    }

    /// The `+,-` rendering without the parentheses.
    pub fn render_marks(&self) -> (r: String)
        ensures
            r@ == marks(self@),
    {
        let ghost parts = self@.map_values(|b: bool| mark(b));
        let mut out = String::new();
        let mut i: usize = 0;
        while i < self.0.len()
            invariant
                i <= self.0@.len(),
                parts == self.0@.map_values(|b: bool| mark(b)),
                out@ == joined(parts.take(i as int), ","@),
            decreases self.0.len() - i,
        {
            if i > 0 {
                out.append(",");
            }
            if self.0[i] {
                out.append("+");
            } else {
                out.append("-");
            }
            proof {
                let longer = parts.take(i + 1);
                assert(longer.drop_last() =~= parts.take(i as int));
                assert(longer.last() == mark(self.0@[i as int]));
                assert(out@ =~= joined(longer, ","@));
            }
            i += 1;
        }
        assert(parts.take(i as int) =~= parts);
        out
    }
}

/// Whether an access path is a keyed lookup or an explicit enumeration. Scans
/// are declared modes, never inferred, never a fallback.
#[derive(Clone, Copy, Debug, PartialEq, Eq, Structural)]
pub enum AccessKind {
    Keyed,
    Scan,
}

/// One supported binding mode of a predicate.
#[derive(Clone, Copy, Debug, PartialEq, Eq)]
pub struct ModeDef {
    /// One entry per predicate argument, in declaration order.
    pub pattern: &'static [Binding],
    pub cost: CostClass,
    pub access: AccessKind,
    pub operator: OperatorId,
    /// Host primitives this access path is built on (capabilities output).
    pub ra_primitives: &'static [&'static str],
    /// Completeness caveats of this access path beyond the predicate's own,
    /// such as a seed index that cannot surface some of the predicate's
    /// domain. Empty for most modes.
    pub caveats: &'static [&'static str],
}

impl ModeDef {
    /// This mode's `+` set is a subset of `bound`.
    pub open spec fn admits(&self, bound: Seq<bool>) -> bool {
        covered(required(self.pattern@), bound)
    }

    /// Whether this mode's `+` set is a subset of `bound`.
    pub fn satisfied_by(&self, bound: &Pattern) -> (r: bool)
        ensures
            r == self.admits(bound@),
    {
        Pattern::from_bindings(self.pattern).subset_of(bound)
    }
}

} // verus!
