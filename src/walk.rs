use vstd::prelude::*;
use crate::registry::Migrator;
use crate::status::{ErrorModel, FailureModel, Outcome, StatusModel};
use crate::step::{AppliedSql, NextStep};

verus! {

/// Name of the distinguished code step that imports a legacy database. Its
/// bookkeeping lives in the legacy source, not in the database being migrated.
pub const LEGACY_IMPORT_NAME: &'static str = "InitializeFromSqlite";

/// Which database holds a code step's bookkeeping.
#[derive(Debug, Clone, Copy, PartialEq, Eq, Structural)]
pub enum Route {
    /// The database being migrated.
    Main,
    /// The legacy source.
    Legacy,
}

/// What a walk must do at one entry of the stream.
#[derive(Debug, Clone, Copy, PartialEq, Eq, Structural)]
pub enum StepClass {
    /// Nothing: a down script, a script applied with its checksum, or a legacy import
    /// with no legacy source.
    Pass,
    /// The SQL script has no record: it is pending.
    Pending,
    /// The SQL script's record carries another checksum.
    Mismatch,
    /// The code step's record must be looked up in the given database.
    Check(Route),
}

/// Index of the first record of `applied`, from `i` on, that carries version `v`.
pub open spec fn first_applied_from(applied: Seq<AppliedSql>, v: i64, i: int) -> Option<int>
    decreases applied.len() - i,
{
    if i < 0 || i >= applied.len() {
        None
    } else if applied[i].version.0 == v {
        Some(i)
    } else {
        first_applied_from(applied, v, i + 1)
    }
}

/// Index of the first record of `applied` that carries version `v`.
pub open spec fn first_applied(applied: Seq<AppliedSql>, v: i64) -> Option<int> {
    first_applied_from(applied, v, 0)
}

/// The version of the last record of the SQL history, if there is one.
pub open spec fn last_applied(applied: Seq<AppliedSql>) -> Option<i64> {
    if applied.len() == 0 {
        None
    } else {
        Some(applied.last().version.0)
    }
}

/// What a walk must do at entry `pos` of `plan`, given the SQL history `applied`
/// loaded for the walk. A dry walk looks up every code step in the main database.
pub open spec fn classify<C, L>(
    reg: Migrator<C, L>,
    plan: Seq<NextStep>,
    applied: Seq<AppliedSql>,
    dry: bool,
    pos: int,
) -> StepClass {
    match plan[pos] {
        NextStep::Sql { index, version } => {
            let s = reg.sql()[index as int];
            if s.kind is ReversibleDown {
                StepClass::Pass
            } else {
                match first_applied(applied, version.0) {
                    None => StepClass::Pending,
                    Some(a) => if applied[a].checksum@ == s.checksum@ {
                        StepClass::Pass
                    } else {
                        StepClass::Mismatch
                    },
                }
            }
        },
        NextStep::Code { index, .. } => {
            if dry {
                StepClass::Check(Route::Main)
            } else if reg.code()[index as int].name@ == LEGACY_IMPORT_NAME@ {
                if reg.legacy() is Some {
                    StepClass::Check(Route::Legacy)
                } else {
                    StepClass::Pass
                }
            } else {
                StepClass::Check(Route::Main)
            }
        },
    }
}

/// What a walk reports when the SQL script at `pos` does not match its record.
/// A dry walk fails hard; an applying walk reports a failed status.
pub open spec fn mismatch_outcome<C, L>(
    reg: Migrator<C, L>,
    plan: Seq<NextStep>,
    applied: Seq<AppliedSql>,
    dry: bool,
    pos: int,
) -> Outcome {
    let s = reg.sql()[plan[pos].index_of() as int];
    let v = plan[pos].version_of();
    let actual = applied[first_applied(applied, v)->Some_0].checksum@;
    if dry {
        Outcome::Error(ErrorModel::ChecksumMismatch { version: v, description: s.description@ })
    } else {
        Outcome::Done(
            StatusModel::Failed(
                v,
                FailureModel::ChecksumMismatch {
                    description: s.description@,
                    expected: s.checksum@,
                    actual,
                },
            ),
        )
    }
}

/// The bookkeeping tables of a database, and of the legacy source.
pub struct History {
    /// The version of a SQL script that started and never finished, if any.
    pub dirty: Option<i64>,
    /// The SQL history, in the order the database lists it.
    pub sql: Seq<AppliedSql>,
    /// The names of the code steps recorded in the database.
    pub code: Set<Seq<char>>,
    /// The names of the code steps recorded in the legacy source.
    pub legacy: Set<Seq<char>>,
}

impl History {
    /// Whether the code step `name` is recorded in the database that `route` names.
    pub open spec fn has(self, route: Route, name: Seq<char>) -> bool {
        match route {
            Route::Main => self.code.contains(name),
            Route::Legacy => self.legacy.contains(name),
        }
    }

    /// The history after recording the code step `name` in the database that `route` names.
    pub open spec fn mark(self, route: Route, name: Seq<char>) -> History {
        match route {
            Route::Main => History { code: self.code.insert(name), ..self },
            Route::Legacy => History { legacy: self.legacy.insert(name), ..self },
        }
    }

    /// The history after applying a SQL script.
    pub open spec fn apply(self, version: i64, checksum: Vec<u8>) -> History {
        History {
            sql: self.sql.push(AppliedSql { version: crate::version::Version(version), checksum }),
            ..self
        }
    }
}

/// One walk over `plan` from entry `pos`, `last` being the version of the last entry
/// walked over, against the history `h` of a database whose SQL history was `applied`
/// when the walk began. A dry walk stops at the first pending step and changes nothing;
/// an applying walk applies every pending step, in order, and records it.
pub open spec fn walk<C, L>(
    reg: Migrator<C, L>,
    plan: Seq<NextStep>,
    applied: Seq<AppliedSql>,
    dry: bool,
    h: History,
    pos: int,
    last: i64,
) -> (History, Outcome)
    decreases plan.len() - pos,
{
    if pos < 0 || pos >= plan.len() {
        (h, Outcome::Done(StatusModel::UpToDate(last)))
    } else {
        let v = plan[pos].version_of();
        let i = plan[pos].index_of() as int;
        match classify(reg, plan, applied, dry, pos) {
            StepClass::Pass => walk(reg, plan, applied, dry, h, pos + 1, v),
            StepClass::Pending => if dry {
                (h, Outcome::Done(StatusModel::Todo(last_applied(applied), v)))
            } else {
                walk(reg, plan, applied, dry, h.apply(v, reg.sql()[i].checksum), pos + 1, v)
            },
            StepClass::Mismatch => (h, mismatch_outcome(reg, plan, applied, dry, pos)),
            StepClass::Check(route) => {
                let name = reg.code()[i].name@;
                if h.has(route, name) {
                    walk(reg, plan, applied, dry, h, pos + 1, v)
                } else if dry {
                    (h, Outcome::Done(StatusModel::Todo(last_applied(applied), v)))
                } else {
                    walk(reg, plan, applied, dry, h.mark(route, name), pos + 1, v)
                }
            },
        }
    }
}

/// The index of the first record of `applied` that carries version `v`.
pub fn find_applied(applied: &Vec<AppliedSql>, v: i64) -> (r: Option<usize>)
    ensures
        r matches Some(i) ==> i < applied@.len() && first_applied(applied@, v) == Some(i as int),
        r is None ==> first_applied(applied@, v) is None,
{
    let mut i: usize = 0;
    while i < applied.len()
        invariant
            i <= applied.len(),
            first_applied(applied@, v) == first_applied_from(applied@, v, i as int),
        decreases applied.len() - i,
    {
        if applied[i].version.0 == v {
            return Some(i);
        }
        i = i + 1;
    }
    None
}

/// Whether `name` is the name of the legacy import step.
pub fn is_legacy_import(name: &String) -> (r: bool)
    ensures
        r == (name@ == LEGACY_IMPORT_NAME@),
{
    let legacy = LEGACY_IMPORT_NAME.to_owned();
    *name == legacy
}

/// Whether two checksums are equal byte for byte.
pub fn same_checksum(a: &Vec<u8>, b: &Vec<u8>) -> (r: bool)
    ensures
        r == (a@ == b@),
{
    if a.len() != b.len() {
        return false;
    }
    let mut i: usize = 0;
    while i < a.len()
        invariant
            a@.len() == b@.len(),
            i <= a.len(),
            forall|k: int| 0 <= k < i ==> a@[k] == b@[k],
        decreases a.len() - i,
    {
        if a[i] != b[i] {
            return false;
        }
        i = i + 1;
    }
    assert(a@ =~= b@);
    true
}

/// What a walk must do at entry `pos` of `plan`.
pub fn classify_step<C, L>(
    reg: &Migrator<C, L>,
    plan: &Vec<NextStep>,
    applied: &Vec<AppliedSql>,
    dry: bool,
    pos: usize,
) -> (r: StepClass)
    requires
        pos < plan@.len(),
        reg.refers(plan@[pos as int], i64::MAX),
    ensures
        r == classify(*reg, plan@, applied@, dry, pos as int),
{
    match plan[pos] {
        NextStep::Sql { index, version } => {
            let s = &reg.sql_steps()[index];
            if s.kind.is_down() {
                StepClass::Pass
            } else {
                match find_applied(applied, version.0) {
                    None => StepClass::Pending,
                    Some(a) => if same_checksum(&applied[a].checksum, &s.checksum) {
                        StepClass::Pass
                    } else {
                        StepClass::Mismatch
                    },
                }
            }
        },
        NextStep::Code { index, .. } => {
            if dry {
                StepClass::Check(Route::Main)
            } else if is_legacy_import(&reg.code_steps()[index].name) {
                if reg.has_legacy_source() {
                    StepClass::Check(Route::Legacy)
                } else {
                    StepClass::Pass
                }
            } else {
                StepClass::Check(Route::Main)
            }
        },
    }
}

} // verus!
