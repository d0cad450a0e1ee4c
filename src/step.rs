use vstd::prelude::*;
use crate::version::Version;

verus! {

broadcast use vstd::seq_lib::group_to_multiset_ensures;

/// How a SQL script is meant to run.
#[derive(Debug, Clone, Copy, PartialEq, Eq, Structural)]
pub enum StepKind {
    /// A script with no reverse.
    Simple,
    /// The forward half of a reversible script.
    ReversibleUp,
    /// The reverse half of a reversible script; never executed.
    ReversibleDown,
}

impl StepKind {
    /// Whether this is a down script, which the engine never runs.
    pub fn is_down(&self) -> (r: bool)
        ensures
            r == (*self is ReversibleDown),
    {
        match self {
            StepKind::ReversibleDown => true,
            _ => false,
        }
    }
}

/// A declarative migration: a SQL script with its version and checksum.
#[derive(Debug, Clone)]
pub struct SqlStep {
    pub version: Version,
    pub description: String,
    pub checksum: Vec<u8>,
    pub kind: StepKind,
}

/// An imperative migration. It is known by its `name`; `operation` is what runs it.
#[derive(Debug, Clone)]
pub struct CodeStep<C> {
    pub version: Version,
    pub name: String,
    pub operation: C,
}

/// A record of the SQL history table: a script that was applied, with its checksum then.
#[derive(Debug, Clone)]
pub struct AppliedSql {
    pub version: Version,
    pub checksum: Vec<u8>,
}

/// One entry of the ordered stream of steps: the family, the step's index in its
/// family's collection, and its version.
#[derive(Debug, Clone, Copy, PartialEq, Eq, Structural)]
pub enum NextStep {
    Sql { index: usize, version: Version },
    Code { index: usize, version: Version },
}

impl NextStep {
    pub open spec fn version_of(self) -> i64 {
        match self {
            NextStep::Sql { version, .. } => version.0,
            NextStep::Code { version, .. } => version.0,
        }
    }

    pub open spec fn index_of(self) -> usize {
        match self {
            NextStep::Sql { index, .. } => index,
            NextStep::Code { index, .. } => index,
        }
    }

    /// Strict order of the stream: by version, and at equal version SQL before code.
    pub open spec fn precedes(self, other: NextStep) -> bool {
        self.version_of() < other.version_of() || (self.version_of() == other.version_of()
            && self is Sql && other is Code)
    }

    /// Whether `self` may stand before `other` in a sorted stream.
    pub open spec fn not_after(self, other: NextStep) -> bool {
        !other.precedes(self)
    }

    /// Whether this entry is a SQL script.
    pub fn is_sql(&self) -> (r: bool)
        ensures
            r == (*self is Sql),
    {
        match self {
            NextStep::Sql { .. } => true,
            NextStep::Code { .. } => false,
        }
    }

    /// The version of the step this entry stands for.
    pub fn version(&self) -> (r: Version)
        ensures
            r.0 == self.version_of(),
    {
        match self {
            NextStep::Sql { version, .. } => *version,
            NextStep::Code { version, .. } => *version,
        }
    }

    /// Whether `self` strictly precedes `other` in stream order.
    pub fn goes_before(&self, other: &NextStep) -> (r: bool)
        ensures
            r == self.precedes(*other),
    {
        let a = self.version().value();
        let b = other.version().value();
        a < b || (a == b && self.is_sql() && !other.is_sql())
    }

    /// The index of the step this entry stands for, in its family's collection.
    pub fn index(&self) -> (r: usize)
        ensures
            r == self.index_of(),
    {
        match self {
            NextStep::Sql { index, .. } => *index,
            NextStep::Code { index, .. } => *index,
        }
    }

    /// Compares two entries in stream order; two entries of one family at one
    /// version compare equal.
    pub fn compare(&self, other: &NextStep) -> (r: std::cmp::Ordering)
        ensures
            (r is Less) == self.precedes(*other),
            (r is Greater) == other.precedes(*self),
    {
        let a = self.version().value();
        let b = other.version().value();
        if a < b {
            std::cmp::Ordering::Less
        } else if a > b {
            std::cmp::Ordering::Greater
        } else if self.is_sql() == other.is_sql() {
            std::cmp::Ordering::Equal
        } else if self.is_sql() {
            std::cmp::Ordering::Less
        } else {
            std::cmp::Ordering::Greater
        }
    }
}

/// Whether every entry may stand before every later one.
pub open spec fn is_sorted(s: Seq<NextStep>) -> bool {
    forall|i: int, j: int| 0 <= i < j < s.len() ==> #[trigger] s[i].not_after(#[trigger] s[j])
}

/// Whether every entry strictly precedes every later one.
pub open spec fn is_strictly_sorted(s: Seq<NextStep>) -> bool {
    forall|i: int, j: int| 0 <= i < j < s.len() ==> #[trigger] s[i].precedes(#[trigger] s[j])
}

/// Sorts entries into stream order, keeping entries that compare equal in their order.
pub fn sort_steps(steps: Vec<NextStep>) -> (r: Vec<NextStep>)
    ensures
        is_sorted(r@),
        r@.to_multiset() =~= steps@.to_multiset(),
{
    let mut out: Vec<NextStep> = Vec::new();
    let mut i: usize = 0;
    while i < steps.len()
        invariant
            i <= steps.len(),
            is_sorted(out@),
            out@.to_multiset() =~= steps@.subrange(0, i as int).to_multiset(),
        decreases steps.len() - i,
    {
        let x = steps[i];
        let mut j: usize = out.len();
        while j > 0 && x.goes_before(&out[j - 1])
            invariant
                j <= out.len(),
                forall|k: int| j <= k < out.len() ==> x.precedes(#[trigger] out@[k]),
            decreases j,
        {
            j = j - 1;
        }
        proof {
            assert(steps@.subrange(0, i + 1) =~= steps@.subrange(0, i as int).push(x));
        }
        let ghost before = out@;
        out.insert(j, x);
        proof {
            assert forall|a: int, b: int| 0 <= a < b < out@.len() implies #[trigger] out@[a].not_after(
                #[trigger] out@[b],
            ) by {
                if b == j {
                    if a < j - 1 {
                        assert(before[a].not_after(before[j - 1]));
                    }
                } else if a == j {
                    assert(x.precedes(before[b - 1]));
                } else if a < j && b > j {
                    if j > 0 {
                        assert(before[a].not_after(before[j - 1]) || a == j - 1);
                    }
                    assert(x.precedes(before[b - 1]));
                } else if a > j {
                    assert(before[a - 1].not_after(before[b - 1]));
                }
            }
        }
        i = i + 1;
    }
    proof {
        assert(steps@.subrange(0, steps@.len() as int) =~= steps@);
    }
    out
}

} // verus!
