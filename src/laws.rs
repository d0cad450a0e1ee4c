use vstd::prelude::*;
use crate::model::{migrate_model, status_model};
use crate::registry::Migrator;
use crate::status::{ErrorModel, Outcome, StatusModel};
use crate::step::NextStep;
use crate::version::{MAX_VERSION, MIN_VERSION};
use crate::walk::{classify, first_applied, first_applied_from, walk, History, StepClass, LEGACY_IMPORT_NAME};
use crate::session::LockStrategy;
use crate::step::AppliedSql;

verus! {

/// Whether a dry walk over `h` passes entry `i` of `plan` without finding work.
pub open spec fn dry_satisfied<C, L>(reg: Migrator<C, L>, plan: Seq<NextStep>, h: History, i: int) -> bool {
    match classify(reg, plan, h.sql, true, i) {
        StepClass::Pass => true,
        StepClass::Check(_) => h.code.contains(reg.code()[plan[i].index_of() as int].name@),
        _ => false,
    }
}

/// A dry walk changes no history.
pub proof fn lemma_dry_walk_keeps_history<C, L>(
    reg: Migrator<C, L>,
    plan: Seq<NextStep>,
    applied: Seq<crate::step::AppliedSql>,
    h: History,
    pos: int,
    last: i64,
)
    ensures
        walk(reg, plan, applied, true, h, pos, last).0 == h,
    decreases plan.len() - pos,
{
    if 0 <= pos < plan.len() {
        lemma_dry_walk_keeps_history(reg, plan, applied, h, pos + 1, plan[pos].version_of());
    }
}

proof fn lemma_dry_walk_stops_at_mismatch<C, L>(
    reg: Migrator<C, L>,
    plan: Seq<NextStep>,
    h: History,
    pos: int,
    last: i64,
    k: int,
)
    requires
        0 <= pos <= k < plan.len(),
        classify(reg, plan, h.sql, true, k) is Mismatch,
    ensures
        !(walk(reg, plan, h.sql, true, h, pos, last).1 matches Outcome::Done(StatusModel::UpToDate(_))),
    decreases k - pos,
{
    if pos < k {
        lemma_dry_walk_stops_at_mismatch(reg, plan, h, pos + 1, plan[pos].version_of(), k);
    }
}

proof fn lemma_dry_walk_reports_mismatch<C, L>(
    reg: Migrator<C, L>,
    plan: Seq<NextStep>,
    h: History,
    pos: int,
    last: i64,
    k: int,
)
    requires
        0 <= pos <= k < plan.len(),
        classify(reg, plan, h.sql, true, k) is Mismatch,
        forall|i: int| pos <= i < k ==> dry_satisfied(reg, plan, h, i),
    ensures
        walk(reg, plan, h.sql, true, h, pos, last).1 == Outcome::Error(
            ErrorModel::ChecksumMismatch {
                version: plan[k].version_of(),
                description: reg.sql()[plan[k].index_of() as int].description@,
            },
        ),
    decreases k - pos,
{
    if pos < k {
        assert(dry_satisfied(reg, plan, h, pos));
        lemma_dry_walk_reports_mismatch(reg, plan, h, pos + 1, plan[pos].version_of(), k);
    }
}

/// Whether entry `k` of `plan` is a SQL script, not a down script, whose first record in
/// `h` carries another checksum than the script.
pub open spec fn tampered_at<C, L>(reg: Migrator<C, L>, plan: Seq<NextStep>, h: History, k: int) -> bool {
    let s = reg.sql()[plan[k].index_of() as int];
    &&& 0 <= k < plan.len()
    &&& plan[k] is Sql
    &&& !(s.kind is ReversibleDown)
    &&& first_applied(h.sql, plan[k].version_of()) matches Some(j)
    &&& h.sql[j].checksum@ != s.checksum@
}

/// At equal version, a SQL script comes before a code step in the ordered stream, so
/// it is applied first.
pub proof fn sql_goes_before_code_at_equal_version<C, L>(
    reg: Migrator<C, L>,
    up_to: i64,
    plan: Seq<NextStep>,
    i: int,
    j: int,
)
    requires
        reg.is_plan(up_to, plan),
        0 <= i < plan.len(),
        0 <= j < plan.len(),
        plan[i] is Sql,
        plan[j] is Code,
        plan[i].version_of() == plan[j].version_of(),
    ensures
        i < j,
{
    if j < i {
        assert(plan[j].precedes(plan[i]));
    }
}

/// A history whose record of an applied SQL script carries another checksum than the
/// registered script is never reported up to date.
pub proof fn tampered_checksum_is_never_up_to_date<C, L>(
    reg: Migrator<C, L>,
    plan: Seq<NextStep>,
    h: History,
    k: int,
)
    requires
        reg.is_plan(MAX_VERSION, plan),
        tampered_at(reg, plan, h, k),
    ensures
        !(status_model(reg, plan, h) matches Outcome::Done(StatusModel::UpToDate(_))),
{
    assert(reg.refers(plan[k], MAX_VERSION));
    if h.dirty is None {
        lemma_dry_walk_stops_at_mismatch(reg, plan, h, 0, MIN_VERSION, k);
    }
}

/// When every step before it is recorded, a SQL script whose record carries another
/// checksum makes the status a checksum error that names the script's version and
/// description.
pub proof fn tampered_checksum_is_reported<C, L>(
    reg: Migrator<C, L>,
    plan: Seq<NextStep>,
    h: History,
    k: int,
)
    requires
        reg.is_plan(MAX_VERSION, plan),
        h.dirty is None,
        tampered_at(reg, plan, h, k),
        forall|i: int| 0 <= i < k ==> dry_satisfied(reg, plan, h, i),
    ensures
        status_model(reg, plan, h) == Outcome::Error(
            ErrorModel::ChecksumMismatch {
                version: plan[k].version_of(),
                description: reg.sql()[plan[k].index_of() as int].description@,
            },
        ),
{
    assert(reg.refers(plan[k], MAX_VERSION));
    lemma_dry_walk_reports_mismatch(reg, plan, h, 0, MIN_VERSION, k);
}

/// The history of a database that nothing was ever applied to.
pub open spec fn fresh_history() -> History {
    History { dirty: None, sql: Seq::empty(), code: Set::empty(), legacy: Set::empty() }
}

/// The versions that the records of a SQL history carry.
pub open spec fn recorded_versions(s: Seq<AppliedSql>) -> Set<i64> {
    Set::new(|v: i64| exists|j: int| 0 <= j < s.len() && (#[trigger] s[j]).version.0 == v)
}

/// Whether entry `k` of `plan` is a SQL script that is run (not a down script).
pub open spec fn runnable_sql_entry<C, L>(reg: Migrator<C, L>, plan: Seq<NextStep>, k: int) -> bool {
    plan[k] is Sql && !(reg.sql()[plan[k].index_of() as int].kind is ReversibleDown)
}

/// The versions of the SQL scripts that are run, among entries `pos..` of `plan`.
pub open spec fn runnable_versions_from<C, L>(reg: Migrator<C, L>, plan: Seq<NextStep>, pos: int) -> Set<i64> {
    Set::new(
        |v: i64|
            exists|k: int|
                pos <= k < plan.len() && #[trigger] runnable_sql_entry(reg, plan, k) && plan[k].version_of()
                    == v,
    )
}

/// The name of the code step that entry `k` of `plan` stands for.
pub open spec fn entry_name<C, L>(reg: Migrator<C, L>, plan: Seq<NextStep>, k: int) -> Seq<char> {
    reg.code()[plan[k].index_of() as int].name@
}

/// The names of the code steps among entries `pos..` of `plan` that `legacy` says are,
/// or are not, the legacy import.
pub open spec fn code_names_from<C, L>(reg: Migrator<C, L>, plan: Seq<NextStep>, pos: int, legacy: bool) -> Set<Seq<char>> {
    Set::new(
        |n: Seq<char>|
            exists|k: int|
                pos <= k < plan.len() && plan[k] is Code && #[trigger] entry_name(reg, plan, k) == n
                    && (n == LEGACY_IMPORT_NAME@) == legacy,
    )
}

/// Whether record `rec` is the record of a SQL script that is run, among entries `pos..`.
pub open spec fn record_of_entry_from<C, L>(reg: Migrator<C, L>, plan: Seq<NextStep>, pos: int, rec: AppliedSql) -> bool {
    exists|k: int|
        pos <= k < plan.len() && #[trigger] runnable_sql_entry(reg, plan, k) && plan[k].version_of()
            == rec.version.0 && reg.sql()[plan[k].index_of() as int].checksum == rec.checksum
}

proof fn lemma_apply_walk_from_empty<C, L>(
    reg: Migrator<C, L>,
    plan: Seq<NextStep>,
    h: History,
    pos: int,
    last: i64,
)
    requires
        0 <= pos <= plan.len(),
        forall|k: int| 0 <= k < plan.len() ==> reg.refers(#[trigger] plan[k], MAX_VERSION),
        reg.legacy() is None ==> code_names_from(reg, plan, pos, true) =~= Set::empty(),
    ensures
        ({
            let (f, r) = walk(reg, plan, Seq::empty(), false, h, pos, last);
            &&& r matches Outcome::Done(StatusModel::UpToDate(_))
            &&& recorded_versions(f.sql) =~= recorded_versions(h.sql) + runnable_versions_from(reg, plan, pos)
            &&& forall|j: int| 0 <= j < f.sql.len() ==> (j < h.sql.len() && f.sql[j] == h.sql[j])
                || record_of_entry_from(reg, plan, pos, #[trigger] f.sql[j])
            &&& f.code =~= h.code + code_names_from(reg, plan, pos, false)
            &&& f.legacy =~= h.legacy + code_names_from(reg, plan, pos, true)
            &&& f.dirty == h.dirty
        }),
    decreases plan.len() - pos,
{
    let e: Seq<AppliedSql> = Seq::empty();
    if pos == plan.len() {
        assert(runnable_versions_from(reg, plan, pos) =~= Set::empty());
        assert(code_names_from(reg, plan, pos, false) =~= Set::empty());
        assert(code_names_from(reg, plan, pos, true) =~= Set::empty());
    } else {
        let v = plan[pos].version_of();
        let i = plan[pos].index_of() as int;
        assert(reg.refers(plan[pos], MAX_VERSION));
        let next_names_main = code_names_from(reg, plan, pos + 1, false);
        let next_names_legacy = code_names_from(reg, plan, pos + 1, true);
        if reg.legacy() is None {
            assert(code_names_from(reg, plan, pos + 1, true) =~= Set::empty()) by {
                assert forall|n: Seq<char>| !(#[trigger] code_names_from(reg, plan, pos + 1, true).contains(n)) by {
                    if code_names_from(reg, plan, pos + 1, true).contains(n) {
                        let k = choose|k: int|
                            pos + 1 <= k < plan.len() && plan[k] is Code && #[trigger] entry_name(reg, plan, k) == n
                                && (n == LEGACY_IMPORT_NAME@) == true;
                        assert(code_names_from(reg, plan, pos, true).contains(n));
                    }
                }
            }
        }
        match classify(reg, plan, e, false, pos) {
            StepClass::Pass => {
                lemma_apply_walk_from_empty(reg, plan, h, pos + 1, v);
                assert(runnable_versions_from(reg, plan, pos) =~= runnable_versions_from(reg, plan, pos + 1)) by {
                    assert forall|w: i64| runnable_versions_from(reg, plan, pos).contains(w) implies runnable_versions_from(reg, plan, pos + 1).contains(w) by {
                        let k = choose|k: int| pos <= k < plan.len() && #[trigger] runnable_sql_entry(reg, plan, k) && plan[k].version_of() == w;
                        assert(k != pos);
                    }
                }
                assert forall|rec: AppliedSql| record_of_entry_from(reg, plan, pos + 1, rec) implies record_of_entry_from(reg, plan, pos, rec) by {
                    let k = choose|k: int| pos + 1 <= k < plan.len() && #[trigger] runnable_sql_entry(reg, plan, k) && plan[k].version_of() == rec.version.0 && reg.sql()[plan[k].index_of() as int].checksum == rec.checksum;
                    assert(runnable_sql_entry(reg, plan, k));
                }
                assert(code_names_from(reg, plan, pos, false) =~= next_names_main) by {
                    assert forall|n: Seq<char>| code_names_from(reg, plan, pos, false).contains(n) implies next_names_main.contains(n) by {
                        let k = choose|k: int| pos <= k < plan.len() && plan[k] is Code && #[trigger] entry_name(reg, plan, k) == n && (n == LEGACY_IMPORT_NAME@) == false;
                        assert(k != pos);
                        assert(entry_name(reg, plan, k) == n);
                    }
                }
                assert(code_names_from(reg, plan, pos, true) =~= next_names_legacy) by {
                    assert forall|n: Seq<char>| code_names_from(reg, plan, pos, true).contains(n) implies next_names_legacy.contains(n) by {
                        let k = choose|k: int| pos <= k < plan.len() && plan[k] is Code && #[trigger] entry_name(reg, plan, k) == n && (n == LEGACY_IMPORT_NAME@) == true;
                        if k == pos {
                            assert(reg.legacy() is None);
                            assert(code_names_from(reg, plan, pos, true).contains(n));
                        }
                        assert(entry_name(reg, plan, k) == n);
                    }
                }
            },
            StepClass::Pending => {
                let h2 = h.apply(v, reg.sql()[i].checksum);
                lemma_apply_walk_from_empty(reg, plan, h2, pos + 1, v);
                assert(runnable_sql_entry(reg, plan, pos));
                assert(recorded_versions(h2.sql) =~= recorded_versions(h.sql).insert(v)) by {
                    assert(h2.sql[h.sql.len() as int].version.0 == v);
                    assert forall|w: i64| recorded_versions(h2.sql).contains(w) implies recorded_versions(h.sql).insert(w).contains(w) && (w == v || recorded_versions(h.sql).contains(w)) by {
                        let j = choose|j: int| 0 <= j < h2.sql.len() && (#[trigger] h2.sql[j]).version.0 == w;
                        if j < h.sql.len() {
                            assert(h.sql[j] == h2.sql[j]);
                        }
                    }
                    assert forall|w: i64| recorded_versions(h.sql).contains(w) implies recorded_versions(h2.sql).contains(w) by {
                        let j = choose|j: int| 0 <= j < h.sql.len() && (#[trigger] h.sql[j]).version.0 == w;
                        assert(h2.sql[j] == h.sql[j]);
                    }
                }
                assert(runnable_versions_from(reg, plan, pos) =~= runnable_versions_from(reg, plan, pos + 1).insert(v)) by {
                    assert forall|w: i64| runnable_versions_from(reg, plan, pos).contains(w) implies runnable_versions_from(reg, plan, pos + 1).insert(v).contains(w) by {
                        let k = choose|k: int| pos <= k < plan.len() && #[trigger] runnable_sql_entry(reg, plan, k) && plan[k].version_of() == w;
                        if k != pos {
                            assert(runnable_versions_from(reg, plan, pos + 1).contains(w));
                        }
                    }
                    assert forall|w: i64| runnable_versions_from(reg, plan, pos + 1).contains(w) implies runnable_versions_from(reg, plan, pos).contains(w) by {
                        let k = choose|k: int| pos + 1 <= k < plan.len() && #[trigger] runnable_sql_entry(reg, plan, k) && plan[k].version_of() == w;
                    }
                }
                let (f, r) = walk(reg, plan, e, false, h2, pos + 1, v);
                assert forall|j: int| 0 <= j < f.sql.len() implies (j < h.sql.len() && f.sql[j] == h.sql[j])
                    || record_of_entry_from(reg, plan, pos, #[trigger] f.sql[j]) by {
                    if j < h2.sql.len() && f.sql[j] == h2.sql[j] {
                        if j == h.sql.len() {
                            assert(runnable_sql_entry(reg, plan, pos));
                        } else {
                            assert(h2.sql[j] == h.sql[j]);
                        }
                    } else {
                        let rec = f.sql[j];
                        let k = choose|k: int| pos + 1 <= k < plan.len() && #[trigger] runnable_sql_entry(reg, plan, k) && plan[k].version_of() == rec.version.0 && reg.sql()[plan[k].index_of() as int].checksum == rec.checksum;
                        assert(runnable_sql_entry(reg, plan, k));
                    }
                }
                assert(code_names_from(reg, plan, pos, false) =~= next_names_main) by {
                    assert forall|n: Seq<char>| code_names_from(reg, plan, pos, false).contains(n) implies next_names_main.contains(n) by {
                        let k = choose|k: int| pos <= k < plan.len() && plan[k] is Code && #[trigger] entry_name(reg, plan, k) == n && (n == LEGACY_IMPORT_NAME@) == false;
                        assert(entry_name(reg, plan, k) == n);
                    }
                }
                assert(code_names_from(reg, plan, pos, true) =~= next_names_legacy) by {
                    assert forall|n: Seq<char>| code_names_from(reg, plan, pos, true).contains(n) implies next_names_legacy.contains(n) by {
                        let k = choose|k: int| pos <= k < plan.len() && plan[k] is Code && #[trigger] entry_name(reg, plan, k) == n && (n == LEGACY_IMPORT_NAME@) == true;
                        assert(entry_name(reg, plan, k) == n);
                    }
                }
            },
            StepClass::Mismatch => {
                assert(false);
            },
            StepClass::Check(route) => {
                let name = reg.code()[i].name@;
                let h2 = if h.has(route, name) { h } else { h.mark(route, name) };
                lemma_apply_walk_from_empty(reg, plan, h2, pos + 1, v);
                assert(entry_name(reg, plan, pos) == name);
                assert(runnable_versions_from(reg, plan, pos) =~= runnable_versions_from(reg, plan, pos + 1)) by {
                    assert forall|w: i64| runnable_versions_from(reg, plan, pos).contains(w) implies runnable_versions_from(reg, plan, pos + 1).contains(w) by {
                        let k = choose|k: int| pos <= k < plan.len() && #[trigger] runnable_sql_entry(reg, plan, k) && plan[k].version_of() == w;
                        assert(k != pos);
                    }
                }
                assert forall|rec: AppliedSql| record_of_entry_from(reg, plan, pos + 1, rec) implies record_of_entry_from(reg, plan, pos, rec) by {
                    let k = choose|k: int| pos + 1 <= k < plan.len() && #[trigger] runnable_sql_entry(reg, plan, k) && plan[k].version_of() == rec.version.0 && reg.sql()[plan[k].index_of() as int].checksum == rec.checksum;
                    assert(runnable_sql_entry(reg, plan, k));
                }
                if route is Main {
                    assert(code_names_from(reg, plan, pos, false) =~= next_names_main.insert(name)) by {
                        assert forall|n: Seq<char>| code_names_from(reg, plan, pos, false).contains(n) implies next_names_main.insert(name).contains(n) by {
                            let k = choose|k: int| pos <= k < plan.len() && plan[k] is Code && #[trigger] entry_name(reg, plan, k) == n && (n == LEGACY_IMPORT_NAME@) == false;
                            if k != pos {
                                assert(next_names_main.contains(n));
                            }
                        }
                        assert forall|n: Seq<char>| next_names_main.contains(n) implies code_names_from(reg, plan, pos, false).contains(n) by {
                            let k = choose|k: int| pos + 1 <= k < plan.len() && plan[k] is Code && #[trigger] entry_name(reg, plan, k) == n && (n == LEGACY_IMPORT_NAME@) == false;
                        }
                    }
                    assert(code_names_from(reg, plan, pos, true) =~= next_names_legacy) by {
                        assert forall|n: Seq<char>| code_names_from(reg, plan, pos, true).contains(n) implies next_names_legacy.contains(n) by {
                            let k = choose|k: int| pos <= k < plan.len() && plan[k] is Code && #[trigger] entry_name(reg, plan, k) == n && (n == LEGACY_IMPORT_NAME@) == true;
                            assert(entry_name(reg, plan, k) == n);
                        }
                    }
                } else {
                    assert(code_names_from(reg, plan, pos, true) =~= next_names_legacy.insert(name)) by {
                        assert forall|n: Seq<char>| code_names_from(reg, plan, pos, true).contains(n) implies next_names_legacy.insert(name).contains(n) by {
                            let k = choose|k: int| pos <= k < plan.len() && plan[k] is Code && #[trigger] entry_name(reg, plan, k) == n && (n == LEGACY_IMPORT_NAME@) == true;
                            if k != pos {
                                assert(next_names_legacy.contains(n));
                            }
                        }
                        assert forall|n: Seq<char>| next_names_legacy.contains(n) implies code_names_from(reg, plan, pos, true).contains(n) by {
                            let k = choose|k: int| pos + 1 <= k < plan.len() && plan[k] is Code && #[trigger] entry_name(reg, plan, k) == n && (n == LEGACY_IMPORT_NAME@) == true;
                        }
                    }
                    assert(code_names_from(reg, plan, pos, false) =~= next_names_main) by {
                        assert forall|n: Seq<char>| code_names_from(reg, plan, pos, false).contains(n) implies next_names_main.contains(n) by {
                            let k = choose|k: int| pos <= k < plan.len() && plan[k] is Code && #[trigger] entry_name(reg, plan, k) == n && (n == LEGACY_IMPORT_NAME@) == false;
                            assert(entry_name(reg, plan, k) == n);
                        }
                    }
                }
            },
        }
    }
}

proof fn lemma_dry_walk_on_fresh<C, L>(reg: Migrator<C, L>, plan: Seq<NextStep>, pos: int, last: i64)
    requires
        0 <= pos <= plan.len(),
        forall|k: int| 0 <= k < plan.len() ==> reg.refers(#[trigger] plan[k], MAX_VERSION),
    ensures
        ({
            let r = walk(reg, plan, Seq::empty(), true, fresh_history(), pos, last).1;
            &&& (r matches Outcome::Done(StatusModel::UpToDate(_)) || r matches Outcome::Done(
                StatusModel::Todo(_, _),
            ))
            &&& (r matches Outcome::Done(StatusModel::UpToDate(_))) ==> runnable_versions_from(reg, plan, pos)
                =~= Set::empty() && code_names_from(reg, plan, pos, false) =~= Set::empty()
                && code_names_from(reg, plan, pos, true) =~= Set::empty()
        }),
    decreases plan.len() - pos,
{
    if pos < plan.len() {
        assert(reg.refers(plan[pos], MAX_VERSION));
        lemma_dry_walk_on_fresh(reg, plan, pos + 1, plan[pos].version_of());
        let r = walk(reg, plan, Seq::empty(), true, fresh_history(), pos, last).1;
        if r matches Outcome::Done(StatusModel::UpToDate(_)) {
            assert(classify(reg, plan, Seq::empty(), true, pos) is Pass);
            assert forall|w: i64| !(#[trigger] runnable_versions_from(reg, plan, pos).contains(w)) by {
                if runnable_versions_from(reg, plan, pos).contains(w) {
                    let k = choose|k: int| pos <= k < plan.len() && #[trigger] runnable_sql_entry(reg, plan, k) && plan[k].version_of() == w;
                    assert(runnable_versions_from(reg, plan, pos + 1).contains(w));
                }
            }
            assert forall|n: Seq<char>| !(#[trigger] code_names_from(reg, plan, pos, false).contains(n)) by {
                if code_names_from(reg, plan, pos, false).contains(n) {
                    let k = choose|k: int| pos <= k < plan.len() && plan[k] is Code && #[trigger] entry_name(reg, plan, k) == n && (n == LEGACY_IMPORT_NAME@) == false;
                    assert(code_names_from(reg, plan, pos + 1, false).contains(n));
                }
            }
            assert forall|n: Seq<char>| !(#[trigger] code_names_from(reg, plan, pos, true).contains(n)) by {
                if code_names_from(reg, plan, pos, true).contains(n) {
                    let k = choose|k: int| pos <= k < plan.len() && plan[k] is Code && #[trigger] entry_name(reg, plan, k) == n && (n == LEGACY_IMPORT_NAME@) == true;
                    assert(code_names_from(reg, plan, pos + 1, true).contains(n));
                }
            }
        }
    } else {
        assert(runnable_versions_from(reg, plan, pos) =~= Set::empty());
        assert(code_names_from(reg, plan, pos, false) =~= Set::empty());
        assert(code_names_from(reg, plan, pos, true) =~= Set::empty());
    }
}

/// Whether the registry holds a SQL script of version `v`, at or below `up_to`, that runs.
pub open spec fn registered_runnable_sql<C, L>(reg: Migrator<C, L>, up_to: i64, v: i64) -> bool {
    exists|i: int|
        0 <= i < reg.sql().len() && (#[trigger] reg.sql()[i]).version.0 == v && v <= up_to
            && !(reg.sql()[i].kind is ReversibleDown)
}

/// Whether the registry holds a code step named `n`, at or below `up_to`.
pub open spec fn registered_code_name<C, L>(reg: Migrator<C, L>, up_to: i64, n: Seq<char>) -> bool {
    exists|i: int|
        0 <= i < reg.code().len() && (#[trigger] reg.code()[i]).version.0 <= up_to && reg.code()[i].name@
            == n
}

/// Migrating a database that nothing was applied to, up to `up_to`, reports it up to
/// date and records exactly the registered steps at or below `up_to`, but the down
/// scripts: each SQL script with its checksum, each code step in the database, and the
/// legacy import in the legacy source. (A legacy import with no legacy source set is
/// passed over and recorded nowhere, so such a step is left out here.)
pub proof fn fresh_migration_records_exactly_the_steps<C, L>(
    reg: Migrator<C, L>,
    plan: Seq<NextStep>,
    lock: Option<LockStrategy>,
    up_to: i64,
)
    requires
        reg.wf(),
        reg.is_plan(up_to, plan),
        lock is Some,
        reg.legacy() is None ==> !registered_code_name(reg, up_to, LEGACY_IMPORT_NAME@),
    ensures
        ({
            let (h, r) = migrate_model(reg, plan, lock, up_to, fresh_history());
            &&& r matches Outcome::Done(StatusModel::UpToDate(_))
            &&& forall|v: i64| #[trigger] recorded_versions(h.sql).contains(v) <==> registered_runnable_sql(reg, up_to, v)
            &&& forall|j: int| 0 <= j < h.sql.len() ==> exists|i: int|
                0 <= i < reg.sql().len() && (#[trigger] reg.sql()[i]).version == (#[trigger] h.sql[j]).version
                    && reg.sql()[i].checksum == h.sql[j].checksum && reg.sql()[i].version.0 <= up_to
                    && !(reg.sql()[i].kind is ReversibleDown)
            &&& forall|n: Seq<char>| #[trigger] h.code.contains(n) <==> (registered_code_name(reg, up_to, n) && n != LEGACY_IMPORT_NAME@)
            &&& forall|n: Seq<char>| #[trigger] h.legacy.contains(n) <==> (registered_code_name(reg, up_to, n) && n == LEGACY_IMPORT_NAME@)
        }),
{
    let f = fresh_history();
    assert(forall|k: int| 0 <= k < plan.len() ==> reg.refers(#[trigger] plan[k], MAX_VERSION)) by {
        assert forall|k: int| 0 <= k < plan.len() implies reg.refers(#[trigger] plan[k], MAX_VERSION) by {
            assert(reg.refers(plan[k], up_to));
        }
    }
    // the plan's sets are the registry's sets
    assert forall|v: i64| #[trigger] runnable_versions_from(reg, plan, 0).contains(v) <==> registered_runnable_sql(reg, up_to, v) by {
        if runnable_versions_from(reg, plan, 0).contains(v) {
            let k = choose|k: int| 0 <= k < plan.len() && #[trigger] runnable_sql_entry(reg, plan, k) && plan[k].version_of() == v;
            assert(reg.refers(plan[k], up_to));
            let i = plan[k].index_of() as int;
            assert(reg.sql()[i].version.0 == v);
        }
        if registered_runnable_sql(reg, up_to, v) {
            let i = choose|i: int| 0 <= i < reg.sql().len() && (#[trigger] reg.sql()[i]).version.0 == v && v <= up_to && !(reg.sql()[i].kind is ReversibleDown);
            assert(plan.contains(NextStep::Sql { index: i as usize, version: reg.sql()[i].version }));
            let k = choose|k: int| 0 <= k < plan.len() && plan[k] == NextStep::Sql { index: i as usize, version: reg.sql()[i].version };
            assert(runnable_sql_entry(reg, plan, k));
        }
    }
    assert forall|n: Seq<char>, legacy: bool| #[trigger] code_names_from(reg, plan, 0, legacy).contains(n) <==> (registered_code_name(reg, up_to, n) && (n == LEGACY_IMPORT_NAME@) == legacy) by {
        if code_names_from(reg, plan, 0, legacy).contains(n) {
            let k = choose|k: int| 0 <= k < plan.len() && plan[k] is Code && #[trigger] entry_name(reg, plan, k) == n && (n == LEGACY_IMPORT_NAME@) == legacy;
            assert(reg.refers(plan[k], up_to));
            let i = plan[k].index_of() as int;
            assert(reg.code()[i].name@ == n);
        }
        if registered_code_name(reg, up_to, n) && (n == LEGACY_IMPORT_NAME@) == legacy {
            let i = choose|i: int| 0 <= i < reg.code().len() && (#[trigger] reg.code()[i]).version.0 <= up_to && reg.code()[i].name@ == n;
            assert(plan.contains(NextStep::Code { index: i as usize, version: reg.code()[i].version }));
            let k = choose|k: int| 0 <= k < plan.len() && plan[k] == NextStep::Code { index: i as usize, version: reg.code()[i].version };
            assert(entry_name(reg, plan, k) == n);
        }
    }
    if reg.legacy() is None {
        assert(code_names_from(reg, plan, 0, true) =~= Set::empty()) by {
            assert forall|n: Seq<char>| !(#[trigger] code_names_from(reg, plan, 0, true).contains(n)) by {
                if code_names_from(reg, plan, 0, true).contains(n) {
                    assert(registered_code_name(reg, up_to, n));
                }
            }
        }
    }
    lemma_dry_walk_on_fresh(reg, plan, 0, MIN_VERSION);
    assert(f.sql =~= Seq::<AppliedSql>::empty());
    let (h, r) = migrate_model(reg, plan, lock, up_to, f);
    if walk(reg, plan, f.sql, true, f, 0, MIN_VERSION).1 matches Outcome::Done(StatusModel::UpToDate(_)) {
        assert(h == f);
        assert forall|v: i64| #[trigger] recorded_versions(h.sql).contains(v) <==> registered_runnable_sql(reg, up_to, v) by {
            assert(!runnable_versions_from(reg, plan, 0).contains(v));
        }
        assert forall|n: Seq<char>| #[trigger] h.code.contains(n) <==> (registered_code_name(reg, up_to, n) && n != LEGACY_IMPORT_NAME@) by {
            assert(!code_names_from(reg, plan, 0, false).contains(n));
        }
        assert forall|n: Seq<char>| #[trigger] h.legacy.contains(n) <==> (registered_code_name(reg, up_to, n) && n == LEGACY_IMPORT_NAME@) by {
            assert(!code_names_from(reg, plan, 0, true).contains(n));
        }
    } else {
        lemma_apply_walk_from_empty(reg, plan, f, 0, MIN_VERSION);
        assert(recorded_versions(f.sql) =~= Set::empty());
        assert forall|v: i64| #[trigger] recorded_versions(h.sql).contains(v) <==> registered_runnable_sql(reg, up_to, v) by {
            assert(recorded_versions(h.sql).contains(v) == runnable_versions_from(reg, plan, 0).contains(v));
        }
        assert forall|j: int| 0 <= j < h.sql.len() implies exists|i: int|
                0 <= i < reg.sql().len() && (#[trigger] reg.sql()[i]).version == (#[trigger] h.sql[j]).version
                    && reg.sql()[i].checksum == h.sql[j].checksum && reg.sql()[i].version.0 <= up_to
                    && !(reg.sql()[i].kind is ReversibleDown) by {
            let rec = h.sql[j];
            assert(record_of_entry_from(reg, plan, 0, rec));
            let k = choose|k: int| 0 <= k < plan.len() && #[trigger] runnable_sql_entry(reg, plan, k) && plan[k].version_of() == rec.version.0 && reg.sql()[plan[k].index_of() as int].checksum == rec.checksum;
            assert(reg.refers(plan[k], up_to));
            let i = plan[k].index_of() as int;
            assert(reg.sql()[i].version == rec.version);
        }
        assert forall|n: Seq<char>| #[trigger] h.code.contains(n) <==> (registered_code_name(reg, up_to, n) && n != LEGACY_IMPORT_NAME@) by {
            assert(h.code.contains(n) == code_names_from(reg, plan, 0, false).contains(n));
        }
        assert forall|n: Seq<char>| #[trigger] h.legacy.contains(n) <==> (registered_code_name(reg, up_to, n) && n == LEGACY_IMPORT_NAME@) by {
            assert(h.legacy.contains(n) == code_names_from(reg, plan, 0, true).contains(n));
        }
    }
}

proof fn lemma_first_applied_from(s: Seq<AppliedSql>, v: i64, i: int)
    requires
        0 <= i,
    ensures
        first_applied_from(s, v, i) is None <==> forall|j: int| i <= j < s.len() ==> (#[trigger] s[j]).version.0 != v,
        first_applied_from(s, v, i) matches Some(j) ==> i <= j < s.len() && s[j].version.0 == v
            && forall|l: int| i <= l < j ==> (#[trigger] s[l]).version.0 != v,
    decreases s.len() - i,
{
    if i < s.len() {
        lemma_first_applied_from(s, v, i + 1);
    }
}

/// Whether the first record of version `v` in `s` is at `j`.
proof fn lemma_first_applied_at(s: Seq<AppliedSql>, v: i64, j: int)
    requires
        0 <= j < s.len(),
        s[j].version.0 == v,
        forall|l: int| 0 <= l < j ==> (#[trigger] s[l]).version.0 != v,
    ensures
        first_applied(s, v) == Some(j),
{
    lemma_first_applied_from(s, v, 0);
    match first_applied(s, v) {
        Some(k) => {
            if k < j {
                assert(s[k].version.0 != v);
            } else if k > j {
                assert(s[j].version.0 != v);
            }
        },
        None => {
            assert(s[j].version.0 != v);
        },
    }
}

/// Whether the records of `h` are the first records of `f`, and the code records of
/// `h` are among those of `f`.
pub open spec fn extends(f: History, h: History) -> bool {
    &&& h.sql.len() <= f.sql.len()
    &&& forall|j: int| 0 <= j < h.sql.len() ==> #[trigger] f.sql[j] == h.sql[j]
    &&& h.code.subset_of(f.code)
    &&& h.legacy.subset_of(f.legacy)
    &&& f.dirty == h.dirty
}

proof fn lemma_first_applied_kept(f: Seq<AppliedSql>, h: Seq<AppliedSql>, v: i64)
    requires
        h.len() <= f.len(),
        forall|j: int| 0 <= j < h.len() ==> #[trigger] f[j] == h[j],
        first_applied(h, v) is Some,
    ensures
        first_applied(f, v) == first_applied(h, v),
{
    lemma_first_applied_from(h, v, 0);
    let j = first_applied(h, v)->Some_0;
    assert forall|l: int| 0 <= l < j implies (#[trigger] f[l]).version.0 != v by {
        assert(f[l] == h[l]);
    }
    assert(f[j] == h[j]);
    lemma_first_applied_at(f, v, j);
}

/// Whether an applying walk over `h`, with the history `h.sql` loaded, passes entry `k`
/// of `plan` without work.
pub open spec fn satisfied<C, L>(reg: Migrator<C, L>, plan: Seq<NextStep>, h: History, k: int) -> bool {
    match classify(reg, plan, h.sql, false, k) {
        StepClass::Pass => true,
        StepClass::Check(route) => h.has(route, entry_name(reg, plan, k)),
        _ => false,
    }
}

proof fn lemma_satisfied_kept<C, L>(reg: Migrator<C, L>, plan: Seq<NextStep>, h: History, f: History, k: int)
    requires
        0 <= k < plan.len(),
        satisfied(reg, plan, h, k),
        extends(f, h),
    ensures
        satisfied(reg, plan, f, k),
{
    if plan[k] is Sql {
        let v = plan[k].version_of();
        if first_applied(h.sql, v) is Some {
            lemma_first_applied_kept(f.sql, h.sql, v);
            let j = first_applied(h.sql, v)->Some_0;
            lemma_first_applied_from(h.sql, v, 0);
            assert(f.sql[j] == h.sql[j]);
        }
    }
}

/// Whether `plan` is strictly sorted and refers to steps of the registry.
pub open spec fn sound_plan<C, L>(reg: Migrator<C, L>, plan: Seq<NextStep>) -> bool {
    &&& crate::step::is_strictly_sorted(plan)
    &&& forall|k: int| 0 <= k < plan.len() ==> reg.refers(#[trigger] plan[k], MAX_VERSION)
}

/// Whether each record that `f` adds to `h` carries the version of a SQL script among
/// entries `pos..` of `plan`.
pub open spec fn new_records_from_entries(plan: Seq<NextStep>, pos: int, h: History, f: History) -> bool {
    forall|j: int| h.sql.len() <= j < f.sql.len() ==> sql_entry_version_from(plan, pos, #[trigger] f.sql[j].version.0)
}

/// Whether a SQL script of version `v` stands among entries `pos..` of `plan`.
pub open spec fn sql_entry_version_from(plan: Seq<NextStep>, pos: int, v: i64) -> bool {
    exists|k: int| pos <= k < plan.len() && #[trigger] plan[k] is Sql && plan[k].version_of() == v
}

proof fn lemma_new_records_widen(plan: Seq<NextStep>, pos: int, h: History, f: History)
    requires
        new_records_from_entries(plan, pos + 1, h, f),
    ensures
        new_records_from_entries(plan, pos, h, f),
{
    assert forall|j: int| h.sql.len() <= j < f.sql.len() implies sql_entry_version_from(plan, pos, #[trigger] f.sql[j].version.0) by {
        assert(sql_entry_version_from(plan, pos + 1, f.sql[j].version.0));
        let k = choose|k: int| pos + 1 <= k < plan.len() && #[trigger] plan[k] is Sql && plan[k].version_of() == f.sql[j].version.0;
        assert(pos <= k < plan.len() && plan[k] is Sql && plan[k].version_of() == f.sql[j].version.0);
    }
}

proof fn lemma_apply_walk_completes<C, L>(
    reg: Migrator<C, L>,
    plan: Seq<NextStep>,
    applied: Seq<AppliedSql>,
    h: History,
    pos: int,
    last: i64,
)
    requires
        sound_plan(reg, plan),
        0 <= pos <= plan.len(),
        applied.len() <= h.sql.len(),
        forall|j: int| 0 <= j < applied.len() ==> #[trigger] h.sql[j] == applied[j],
        forall|j: int, k: int|
            applied.len() <= j < h.sql.len() && pos <= k < plan.len() && plan[k] is Sql
                ==> (#[trigger] h.sql[j]).version.0 < (#[trigger] plan[k]).version_of(),
    ensures
        ({
            let (f, r) = walk(reg, plan, applied, false, h, pos, last);
            &&& extends(f, h)
            &&& (r matches Outcome::Done(StatusModel::UpToDate(_))) ==> forall|k: int|
                pos <= k < plan.len() ==> satisfied(reg, plan, f, k)
            &&& !(r matches Outcome::Done(StatusModel::UpToDate(_))) ==> exists|q: int|
                pos <= q < plan.len() && (forall|k: int| pos <= k < q ==> satisfied(reg, plan, f, k))
                    && #[trigger] classify(reg, plan, f.sql, false, q) is Mismatch
            &&& new_records_from_entries(plan, pos, h, f)
            &&& !h.code.contains(LEGACY_IMPORT_NAME@) ==> !f.code.contains(LEGACY_IMPORT_NAME@)
        }),
    decreases plan.len() - pos,
{
    if pos < plan.len() {
        let v = plan[pos].version_of();
        let i = plan[pos].index_of() as int;
        assert(reg.refers(plan[pos], MAX_VERSION));
        match classify(reg, plan, applied, false, pos) {
            StepClass::Pass => {
                lemma_apply_walk_completes(reg, plan, applied, h, pos + 1, v);
                let (f, r) = walk(reg, plan, applied, false, h, pos + 1, v);
                if plan[pos] is Sql && first_applied(applied, v) is Some {
                    lemma_first_applied_kept(h.sql, applied, v);
                    lemma_first_applied_kept(f.sql, h.sql, v);
                    let j = first_applied(applied, v)->Some_0;
                    lemma_first_applied_from(applied, v, 0);
                    assert(f.sql[j] == h.sql[j]);
                }
                assert(satisfied(reg, plan, f, pos));
                if !(r matches Outcome::Done(StatusModel::UpToDate(_))) {
                    let q = choose|q: int| pos + 1 <= q < plan.len() && (forall|k: int| pos + 1 <= k < q ==> satisfied(reg, plan, f, k))
                        && #[trigger] classify(reg, plan, f.sql, false, q) is Mismatch;
                    assert(classify(reg, plan, f.sql, false, q) is Mismatch);
                    assert(forall|k: int| pos <= k < q ==> satisfied(reg, plan, f, k));
                }
                lemma_new_records_widen(plan, pos, h, f);
            },
            StepClass::Mismatch => {
                let f = h;
                assert(new_records_from_entries(plan, pos, h, f));
                if plan[pos] is Sql {
                    lemma_first_applied_kept(h.sql, applied, v);
                    let j = first_applied(applied, v)->Some_0;
                    lemma_first_applied_from(applied, v, 0);
                    assert(h.sql[j] == applied[j]);
                }
                assert(classify(reg, plan, f.sql, false, pos) is Mismatch);
                assert(new_records_from_entries(plan, pos, h, f));
            },
            StepClass::Pending => {
                assert(plan[pos] is Sql);
                let h2 = h.apply(v, reg.sql()[i].checksum);
                assert forall|j: int, k: int|
                    applied.len() <= j < h2.sql.len() && pos + 1 <= k < plan.len() && plan[k] is Sql
                        implies (#[trigger] h2.sql[j]).version.0 < (#[trigger] plan[k]).version_of() by {
                    if j < h.sql.len() {
                        assert(h2.sql[j] == h.sql[j]);
                    } else {
                        assert(plan[pos].precedes(plan[k]));
                    }
                }
                lemma_apply_walk_completes(reg, plan, applied, h2, pos + 1, v);
                let (f, r) = walk(reg, plan, applied, false, h2, pos + 1, v);
                lemma_first_applied_from(applied, v, 0);
                assert forall|l: int| 0 <= l < h.sql.len() implies (#[trigger] h2.sql[l]).version.0 != v by {
                    assert(h2.sql[l] == h.sql[l]);
                    if l < applied.len() {
                        assert(h.sql[l] == applied[l]);
                    }
                }
                lemma_first_applied_at(h2.sql, v, h.sql.len() as int);
                lemma_first_applied_kept(f.sql, h2.sql, v);
                assert(f.sql[h.sql.len() as int] == h2.sql[h.sql.len() as int]);
                assert(satisfied(reg, plan, f, pos));
                assert forall|j: int| 0 <= j < h.sql.len() implies #[trigger] f.sql[j] == h.sql[j] by {
                    assert(f.sql[j] == h2.sql[j]);
                }
                assert forall|j: int| h.sql.len() <= j < f.sql.len() implies sql_entry_version_from(plan, pos, #[trigger] f.sql[j].version.0) by {
                    if j == h.sql.len() {
                        assert(f.sql[j].version.0 == plan[pos].version_of());
                    } else {
                        assert(sql_entry_version_from(plan, pos + 1, f.sql[j].version.0));
                        let k = choose|k: int| pos + 1 <= k < plan.len() && #[trigger] plan[k] is Sql && plan[k].version_of() == f.sql[j].version.0;
                        assert(pos <= k < plan.len() && plan[k] is Sql && plan[k].version_of() == f.sql[j].version.0);
                    }
                }
                if !(r matches Outcome::Done(StatusModel::UpToDate(_))) {
                    let q = choose|q: int| pos + 1 <= q < plan.len() && (forall|k: int| pos + 1 <= k < q ==> satisfied(reg, plan, f, k))
                        && #[trigger] classify(reg, plan, f.sql, false, q) is Mismatch;
                    assert(classify(reg, plan, f.sql, false, q) is Mismatch);
                    assert(forall|k: int| pos <= k < q ==> satisfied(reg, plan, f, k));
                }
                assert(new_records_from_entries(plan, pos, h, f));
            },
            StepClass::Check(route) => {
                let name = reg.code()[i].name@;
                let h2 = if h.has(route, name) { h } else { h.mark(route, name) };
                lemma_apply_walk_completes(reg, plan, applied, h2, pos + 1, v);
                let (f, r) = walk(reg, plan, applied, false, h2, pos + 1, v);
                assert(entry_name(reg, plan, pos) == name);
                assert(satisfied(reg, plan, f, pos));
                if !(r matches Outcome::Done(StatusModel::UpToDate(_))) {
                    let q = choose|q: int| pos + 1 <= q < plan.len() && (forall|k: int| pos + 1 <= k < q ==> satisfied(reg, plan, f, k))
                        && #[trigger] classify(reg, plan, f.sql, false, q) is Mismatch;
                    assert(classify(reg, plan, f.sql, false, q) is Mismatch);
                    assert(forall|k: int| pos <= k < q ==> satisfied(reg, plan, f, k));
                }
                lemma_new_records_widen(plan, pos, h, f);
            },
        }
    } else {
        assert(new_records_from_entries(plan, pos, h, h));
    }
}

proof fn lemma_apply_walk_over_satisfied<C, L>(
    reg: Migrator<C, L>,
    plan: Seq<NextStep>,
    h: History,
    pos: int,
    last: i64,
)
    requires
        0 <= pos <= plan.len(),
        forall|k: int| pos <= k < plan.len() ==> satisfied(reg, plan, h, k),
    ensures
        walk(reg, plan, h.sql, false, h, pos, last).0 == h,
        walk(reg, plan, h.sql, false, h, pos, last).1 matches Outcome::Done(StatusModel::UpToDate(_)),
    decreases plan.len() - pos,
{
    if pos < plan.len() {
        assert(satisfied(reg, plan, h, pos));
        lemma_apply_walk_over_satisfied(reg, plan, h, pos + 1, plan[pos].version_of());
    }
}

proof fn lemma_dry_walk_over_satisfied<C, L>(
    reg: Migrator<C, L>,
    plan: Seq<NextStep>,
    h: History,
    pos: int,
    last: i64,
)
    requires
        0 <= pos <= plan.len(),
        forall|k: int| pos <= k < plan.len() ==> satisfied(reg, plan, h, k),
    ensures
        walk(reg, plan, h.sql, true, h, pos, last).1 matches Outcome::Done(StatusModel::UpToDate(_))
            || walk(reg, plan, h.sql, true, h, pos, last).1 matches Outcome::Done(StatusModel::Todo(_, _)),
    decreases plan.len() - pos,
{
    if pos < plan.len() {
        assert(satisfied(reg, plan, h, pos));
        lemma_dry_walk_over_satisfied(reg, plan, h, pos + 1, plan[pos].version_of());
    }
}

/// After a migration that ends up to date, a second migration to the same version also
/// ends up to date, and records nothing more.
pub proof fn migration_is_idempotent<C, L>(
    reg: Migrator<C, L>,
    plan: Seq<NextStep>,
    lock: Option<LockStrategy>,
    up_to: i64,
    h: History,
)
    requires
        reg.is_plan(up_to, plan),
        migrate_model(reg, plan, lock, up_to, h).1 matches Outcome::Done(StatusModel::UpToDate(_)),
    ensures
        ({
            let h1 = migrate_model(reg, plan, lock, up_to, h).0;
            &&& migrate_model(reg, plan, lock, up_to, h1).0 == h1
            &&& migrate_model(reg, plan, lock, up_to, h1).1 matches Outcome::Done(StatusModel::UpToDate(_))
        }),
{
    assert forall|k: int| 0 <= k < plan.len() implies reg.refers(#[trigger] plan[k], MAX_VERSION) by {
        assert(reg.refers(plan[k], up_to));
    }
    let dry = walk(reg, plan, h.sql, true, h, 0, MIN_VERSION).1;
    if !(dry matches Outcome::Done(StatusModel::UpToDate(_))) {
        lemma_apply_walk_completes(reg, plan, h.sql, h, 0, MIN_VERSION);
        let h1 = migrate_model(reg, plan, lock, up_to, h).0;
        lemma_dry_walk_over_satisfied(reg, plan, h1, 0, MIN_VERSION);
        lemma_apply_walk_over_satisfied(reg, plan, h1, 0, MIN_VERSION);
    }
}

proof fn lemma_walk_split<C, L>(
    reg: Migrator<C, L>,
    plan: Seq<NextStep>,
    n: int,
    applied: Seq<AppliedSql>,
    dry: bool,
    h: History,
    pos: int,
    last: i64,
)
    requires
        0 <= pos <= n <= plan.len(),
    ensures
        ({
            let w = walk(reg, plan.take(n), applied, dry, h, pos, last);
            walk(reg, plan, applied, dry, h, pos, last) == match w.1 {
                Outcome::Done(StatusModel::UpToDate(l)) => walk(reg, plan, applied, dry, w.0, n, l),
                _ => w,
            }
        }),
    decreases n - pos,
{
    let p1 = plan.take(n);
    if pos < n {
        assert(p1[pos] == plan[pos]);
        assert(classify(reg, p1, applied, dry, pos) == classify(reg, plan, applied, dry, pos));
        assert(crate::walk::mismatch_outcome(reg, p1, applied, dry, pos) == crate::walk::mismatch_outcome(reg, plan, applied, dry, pos));
        let v = plan[pos].version_of();
        let i = plan[pos].index_of() as int;
        let h2 = match classify(reg, plan, applied, dry, pos) {
            StepClass::Pending => h.apply(v, reg.sql()[i].checksum),
            StepClass::Check(route) => if h.has(route, reg.code()[i].name@) { h } else { h.mark(route, reg.code()[i].name@) },
            _ => h,
        };
        lemma_walk_split(reg, plan, n, applied, dry, h2, pos + 1, v);
    }
}

proof fn lemma_walk_history_ignores_last<C, L>(
    reg: Migrator<C, L>,
    plan: Seq<NextStep>,
    applied: Seq<AppliedSql>,
    dry: bool,
    h: History,
    pos: int,
    a: i64,
    b: i64,
)
    ensures
        walk(reg, plan, applied, dry, h, pos, a).0 == walk(reg, plan, applied, dry, h, pos, b).0,
    decreases plan.len() - pos,
{
    if 0 <= pos < plan.len() {
        let v = plan[pos].version_of();
        let i = plan[pos].index_of() as int;
        let h2 = match classify(reg, plan, applied, dry, pos) {
            StepClass::Pending => h.apply(v, reg.sql()[i].checksum),
            StepClass::Check(route) => if h.has(route, reg.code()[i].name@) { h } else { h.mark(route, reg.code()[i].name@) },
            _ => h,
        };
        lemma_walk_history_ignores_last(reg, plan, applied, dry, h2, pos + 1, v, v);
    }
}

proof fn lemma_apply_walk_same_records<C, L>(
    reg: Migrator<C, L>,
    plan: Seq<NextStep>,
    a: Seq<AppliedSql>,
    b: Seq<AppliedSql>,
    h: History,
    pos: int,
    last: i64,
)
    requires
        forall|k: int|
            pos <= k < plan.len() && #[trigger] plan[k] is Sql ==> first_applied(a, plan[k].version_of())
                == first_applied(b, plan[k].version_of()) && (first_applied(a, plan[k].version_of()) matches Some(j)
                ==> a[j] == b[j]),
    ensures
        walk(reg, plan, a, false, h, pos, last) == walk(reg, plan, b, false, h, pos, last),
    decreases plan.len() - pos,
{
    if 0 <= pos < plan.len() {
        assert(classify(reg, plan, a, false, pos) == classify(reg, plan, b, false, pos));
        if classify(reg, plan, a, false, pos) is Mismatch {
            assert(crate::walk::mismatch_outcome(reg, plan, a, false, pos) == crate::walk::mismatch_outcome(reg, plan, b, false, pos));
        }
        let v = plan[pos].version_of();
        let i = plan[pos].index_of() as int;
        let h2 = match classify(reg, plan, a, false, pos) {
            StepClass::Pending => h.apply(v, reg.sql()[i].checksum),
            StepClass::Check(route) => if h.has(route, reg.code()[i].name@) { h } else { h.mark(route, reg.code()[i].name@) },
            _ => h,
        };
        lemma_apply_walk_same_records(reg, plan, a, b, h2, pos + 1, v);
    }
}

proof fn lemma_apply_walk_skip<C, L>(
    reg: Migrator<C, L>,
    plan: Seq<NextStep>,
    h: History,
    pos: int,
    n: int,
    last: i64,
)
    requires
        0 <= pos <= n <= plan.len(),
        forall|k: int| pos <= k < n ==> satisfied(reg, plan, h, k),
    ensures
        walk(reg, plan, h.sql, false, h, pos, last).0 == walk(reg, plan, h.sql, false, h, n, last).0,
    decreases n - pos,
{
    if pos < n {
        assert(satisfied(reg, plan, h, pos));
        lemma_apply_walk_skip(reg, plan, h, pos + 1, n, plan[pos].version_of());
        lemma_walk_history_ignores_last(reg, plan, h.sql, false, h, n, last, plan[pos].version_of());
    }
}

proof fn lemma_apply_walk_stops<C, L>(
    reg: Migrator<C, L>,
    plan: Seq<NextStep>,
    h: History,
    pos: int,
    q: int,
    last: i64,
)
    requires
        0 <= pos <= q < plan.len(),
        forall|k: int| pos <= k < q ==> satisfied(reg, plan, h, k),
        classify(reg, plan, h.sql, false, q) is Mismatch,
    ensures
        walk(reg, plan, h.sql, false, h, pos, last).0 == h,
    decreases q - pos,
{
    if pos < q {
        assert(satisfied(reg, plan, h, pos));
        lemma_apply_walk_stops(reg, plan, h, pos + 1, q, plan[pos].version_of());
    }
}

proof fn lemma_no_pending_means_no_change<C, L>(
    reg: Migrator<C, L>,
    plan: Seq<NextStep>,
    h: History,
    pos: int,
    last: i64,
)
    requires
        0 <= pos,
        !h.code.contains(LEGACY_IMPORT_NAME@),
        !(walk(reg, plan, h.sql, true, h, pos, last).1 matches Outcome::Done(StatusModel::Todo(_, _))),
    ensures
        walk(reg, plan, h.sql, false, h, pos, last).0 == h,
    decreases plan.len() - pos,
{
    if pos < plan.len() {
        let v = plan[pos].version_of();
        if classify(reg, plan, h.sql, true, pos) is Pass || classify(reg, plan, h.sql, true, pos) is Check {
            lemma_no_pending_means_no_change(reg, plan, h, pos + 1, v);
        }
    }
}

/// Whether `n` entries begin `p2` and form `p1`, and every later entry of `p2` is above
/// version `v1`.
pub open spec fn plan_prefix(p1: Seq<NextStep>, p2: Seq<NextStep>, v1: i64) -> bool {
    &&& p1.len() <= p2.len()
    &&& p1 == p2.take(p1.len() as int)
    &&& forall|k: int| p1.len() <= k < p2.len() ==> (#[trigger] p2[k]).version_of() > v1
}

proof fn lemma_plan_prefix<C, L>(reg: Migrator<C, L>, p1: Seq<NextStep>, p2: Seq<NextStep>, v1: i64, v2: i64)
    requires
        reg.wf(),
        reg.is_plan(v1, p1),
        reg.is_plan(v2, p2),
        v1 <= v2,
    ensures
        plan_prefix(p1, p2, v1),
{
    // every entry of p1 is an entry of p2, and every entry of p2 at or below v1 one of p1
    assert forall|x: NextStep| p1.contains(x) implies p2.contains(x) by {
        let k = choose|k: int| 0 <= k < p1.len() && p1[k] == x;
        assert(reg.refers(p1[k], v1));
        match x {
            NextStep::Sql { index, version } => {
                assert(reg.sql()[index as int].version.0 <= v2);
                assert((index as int) as usize == index);
            },
            NextStep::Code { index, version } => {
                assert(reg.code()[index as int].version.0 <= v2);
                assert((index as int) as usize == index);
            },
        }
    }
    assert forall|x: NextStep| p2.contains(x) && x.version_of() <= v1 implies p1.contains(x) by {
        let k = choose|k: int| 0 <= k < p2.len() && p2[k] == x;
        assert(reg.refers(p2[k], v2));
        match x {
            NextStep::Sql { index, version } => {
                assert(reg.sql()[index as int].version.0 <= v1);
                assert((index as int) as usize == index);
            },
            NextStep::Code { index, version } => {
                assert(reg.code()[index as int].version.0 <= v1);
                assert((index as int) as usize == index);
            },
        }
    }
    lemma_plan_prefix_from(reg, p1, p2, v1, v2, 0);
    assert(p1 =~= p2.take(p1.len() as int));
    assert forall|k: int| p1.len() <= k < p2.len() implies (#[trigger] p2[k]).version_of() > v1 by {
        if p2[k].version_of() <= v1 {
            assert(p2.contains(p2[k]));
            let m = choose|m: int| 0 <= m < p1.len() && p1[m] == p2[k];
            assert(p2[m] == p1[m]);
            assert(p2[m].precedes(p2[k]));
        }
    }
}

proof fn lemma_plan_prefix_from<C, L>(
    reg: Migrator<C, L>,
    p1: Seq<NextStep>,
    p2: Seq<NextStep>,
    v1: i64,
    v2: i64,
    k: int,
)
    requires
        0 <= k <= p1.len(),
        crate::step::is_strictly_sorted(p1),
        crate::step::is_strictly_sorted(p2),
        forall|k: int| 0 <= k < p1.len() ==> (#[trigger] p1[k]).version_of() <= v1,
        forall|x: NextStep| p1.contains(x) ==> p2.contains(x),
        forall|x: NextStep| p2.contains(x) && x.version_of() <= v1 ==> p1.contains(x),
        k <= p2.len(),
        forall|j: int| 0 <= j < k ==> p1[j] == p2[j],
    ensures
        p1.len() <= p2.len(),
        forall|j: int| 0 <= j < p1.len() ==> p1[j] == p2[j],
    decreases p1.len() - k,
{
    if k < p1.len() {
        let x = p1[k];
        assert(p1.contains(x));
        let m = choose|m: int| 0 <= m < p2.len() && p2[m] == x;
        if m < k {
            assert(p1[m] == p2[m]);
            assert(p1[m].precedes(p1[k]));
        } else if m > k {
            let y = p2[k];
            assert(y.precedes(x));
            assert(y.version_of() <= v1);
            assert(p2.contains(y));
            let m2 = choose|m2: int| 0 <= m2 < p1.len() && p1[m2] == y;
            if m2 < k {
                assert(p2[m2] == p1[m2]);
                assert(p2[m2].precedes(p2[k]));
            } else if m2 == k {
                assert(y == x);
            } else {
                assert(p1[k].precedes(p1[m2]));
            }
        }
        lemma_plan_prefix_from(reg, p1, p2, v1, v2, k + 1);
    }
}

/// Migrating up to `v1` and then up to `v2`, where `v1 <= v2`, leaves the same history
/// as migrating up to `v2` at once. (The database's own code records must not name the
/// legacy import, whose record lives in the legacy source: the engine never writes it
/// there.)
pub proof fn migration_is_monotone<C, L>(
    reg: Migrator<C, L>,
    plan1: Seq<NextStep>,
    plan2: Seq<NextStep>,
    lock: Option<LockStrategy>,
    v1: i64,
    v2: i64,
    h: History,
)
    requires
        reg.wf(),
        reg.is_plan(v1, plan1),
        reg.is_plan(v2, plan2),
        v1 <= v2,
        !h.code.contains(LEGACY_IMPORT_NAME@),
    ensures
        migrate_model(reg, plan2, lock, v2, migrate_model(reg, plan1, lock, v1, h).0).0
            == migrate_model(reg, plan2, lock, v2, h).0,
{
    lemma_plan_prefix(reg, plan1, plan2, v1, v2);
    let n = plan1.len() as int;
    assert(plan2.take(n) == plan1);
    assert forall|k: int| 0 <= k < plan2.len() implies reg.refers(#[trigger] plan2[k], MAX_VERSION) by {
        assert(reg.refers(plan2[k], v2));
    }
    assert forall|k: int| 0 <= k < plan1.len() implies reg.refers(#[trigger] plan1[k], MAX_VERSION) by {
        assert(reg.refers(plan1[k], v1));
    }
    if h.dirty is None && lock is Some {
        let d1 = walk(reg, plan1, h.sql, true, h, 0, MIN_VERSION);
        lemma_walk_split(reg, plan2, n, h.sql, true, h, 0, MIN_VERSION);
        if d1.1 matches Outcome::Done(StatusModel::Todo(_, _)) {
            lemma_walk_split(reg, plan2, n, h.sql, false, h, 0, MIN_VERSION);
            lemma_apply_walk_completes(reg, plan1, h.sql, h, 0, MIN_VERSION);
            let (h1, r1) = walk(reg, plan1, h.sql, false, h, 0, MIN_VERSION);
            assert(migrate_model(reg, plan1, lock, v1, h).0 == h1);
            lemma_dry_walk_keeps_history(reg, plan2, h1.sql, h1, 0, MIN_VERSION);
            let d2 = walk(reg, plan2, h1.sql, true, h1, 0, MIN_VERSION);
            assert forall|k: int| 0 <= k < n && satisfied(reg, plan1, h1, k) implies #[trigger] satisfied(reg, plan2, h1, k) by {
                assert(plan1[k] == plan2[k]);
            }
            match r1 {
                Outcome::Done(StatusModel::UpToDate(l)) => {
                    // the rest of plan2 sees the same records in both histories
                    assert forall|k: int|
                        n <= k < plan2.len() && #[trigger] plan2[k] is Sql implies first_applied(h.sql, plan2[k].version_of())
                            == first_applied(h1.sql, plan2[k].version_of()) && (first_applied(h.sql, plan2[k].version_of()) matches Some(j)
                            ==> h.sql[j] == h1.sql[j]) by {
                        let v = plan2[k].version_of();
                        lemma_first_applied_from(h.sql, v, 0);
                        lemma_first_applied_from(h1.sql, v, 0);
                        if first_applied(h.sql, v) is Some {
                            lemma_first_applied_kept(h1.sql, h.sql, v);
                        } else {
                            assert forall|j: int| 0 <= j < h1.sql.len() implies (#[trigger] h1.sql[j]).version.0 != v by {
                                if j < h.sql.len() {
                                    assert(h1.sql[j] == h.sql[j]);
                                } else {
                                    assert(sql_entry_version_from(plan1, 0, h1.sql[j].version.0));
                                    let m = choose|m: int| 0 <= m < plan1.len() && #[trigger] plan1[m] is Sql && plan1[m].version_of() == h1.sql[j].version.0;
                                    assert(reg.refers(plan1[m], v1));
                                }
                            }
                        }
                    }
                    lemma_apply_walk_same_records(reg, plan2, h.sql, h1.sql, h1, n, l);
                    lemma_apply_walk_skip(reg, plan2, h1, 0, n, MIN_VERSION);
                    lemma_walk_history_ignores_last(reg, plan2, h1.sql, false, h1, n, l, MIN_VERSION);
                    if !(d2.1 matches Outcome::Done(StatusModel::Todo(_, _))) {
                        lemma_no_pending_means_no_change(reg, plan2, h1, 0, MIN_VERSION);
                    }
                },
                _ => {
                    let q = choose|q: int| 0 <= q < plan1.len() && (forall|k: int| 0 <= k < q ==> satisfied(reg, plan1, h1, k))
                        && #[trigger] classify(reg, plan1, h1.sql, false, q) is Mismatch;
                    assert(classify(reg, plan1, h1.sql, false, q) == classify(reg, plan2, h1.sql, false, q)) by {
                        assert(plan1[q] == plan2[q]);
                    }
                    assert(forall|k: int| 0 <= k < q ==> satisfied(reg, plan2, h1, k));
                    lemma_apply_walk_stops(reg, plan2, h1, 0, q, MIN_VERSION);
                },
            }
        }
    }
}

} // verus!
