use vstd::prelude::*;
use std::collections::HashSet;
use crate::status::{ErrorModel, MigrationError};
use crate::step::{is_strictly_sorted, sort_steps, is_sorted, CodeStep, NextStep, SqlStep};
use crate::version::Version;

verus! {

broadcast use vstd::std_specs::hash::group_hash_axioms, vstd::seq_lib::group_to_multiset_ensures;

/// Whether no version occurs twice.
pub open spec fn distinct_versions(s: Seq<Version>) -> bool {
    forall|i: int, j: int| 0 <= i < j < s.len() ==> s[i] != s[j]
}

/// Whether `v` is the first version of `s` that is seen a second time.
pub open spec fn first_repeated(s: Seq<Version>, v: i64) -> bool {
    exists|i: int, j: int|
        0 <= i < j < s.len() && s[i] == s[j] && distinct_versions(s.subrange(0, j)) && s[j].0 == v
}

/// Checks that no version occurs twice. On failure the error names the first version
/// that is seen a second time.
pub fn check_duplicates(versions: &Vec<Version>) -> (r: Result<(), MigrationError>)
    ensures
        r is Ok <==> distinct_versions(versions@),
        r matches Err(e) ==> e@ matches ErrorModel::DuplicateVersion(v) && first_repeated(versions@, v),
{
    let mut seen: HashSet<i64> = HashSet::new();
    let mut k: usize = 0;
    while k < versions.len()
        invariant
            k <= versions.len(),
            distinct_versions(versions@.subrange(0, k as int)),
            forall|x: i64| #[trigger] seen@.contains(x) <==> exists|i: int|
                0 <= i < k && versions@[i].0 == x,
        decreases versions.len() - k,
    {
        let v = versions[k];
        let ghost old_seen = seen@;
        let fresh = seen.insert(v.0);
        if !fresh {
            let ghost i = choose|i: int| 0 <= i < k && versions@[i].0 == v.0;
            assert(versions@.subrange(0, k as int)[i] == versions@[i]);
            return Err(MigrationError::DuplicateVersion(v));
        }
        proof {
            let pre = versions@.subrange(0, k + 1);
            let low = versions@.subrange(0, k as int);
            assert forall|i: int, j: int| 0 <= i < j < pre.len() implies #[trigger] pre[i] != #[trigger] pre[j] by {
                if j < k {
                    assert(low[i] == pre[i] && low[j] == pre[j]);
                } else if pre[i] == pre[j] {
                    assert(old_seen.contains(versions@[i].0));
                }
            }
            assert forall|x: i64| #[trigger] seen@.contains(x) <==> exists|i: int|
                0 <= i < k + 1 && versions@[i].0 == x by {
                if x == v.0 {
                    assert(versions@[k as int].0 == x);
                }
            }
        }
        k = k + 1;
    }
    assert(versions@.subrange(0, versions@.len() as int) =~= versions@);
    Ok(())
}

/// The registry of steps: SQL scripts and code steps, each family without repeated
/// versions, and the legacy source to import from, if any.
pub struct Migrator<C, L> {
    sql_steps: Vec<SqlStep>,
    code_steps: Vec<CodeStep<C>>,
    legacy_source: Option<L>,
}

/// The versions of a collection of SQL scripts, in order.
pub open spec fn sql_versions(s: Seq<SqlStep>) -> Seq<Version> {
    s.map_values(|x: SqlStep| x.version)
}

/// The versions of a collection of code steps, in order.
pub open spec fn code_versions<C>(s: Seq<CodeStep<C>>) -> Seq<Version> {
    s.map_values(|x: CodeStep<C>| x.version)
}

impl<C, L> Migrator<C, L> {
    pub closed spec fn sql(&self) -> Seq<SqlStep> {
        self.sql_steps@
    }

    pub closed spec fn code(&self) -> Seq<CodeStep<C>> {
        self.code_steps@
    }

    pub closed spec fn legacy(&self) -> Option<L> {
        self.legacy_source
    }

    /// Neither family repeats a version.
    pub open spec fn wf(&self) -> bool {
        &&& distinct_versions(sql_versions(self.sql()))
        &&& distinct_versions(code_versions(self.code()))
        &&& self.sql().len() <= usize::MAX
        &&& self.code().len() <= usize::MAX
    }

    /// Whether an entry of the stream stands for a registered step at or below `up_to`.
    pub open spec fn refers(&self, s: NextStep, up_to: i64) -> bool {
        match s {
            NextStep::Sql { index, version } => index < self.sql().len() && self.sql()[index as int].version
                == version && version.0 <= up_to,
            NextStep::Code { index, version } => index < self.code().len()
                && self.code()[index as int].version == version && version.0 <= up_to,
        }
    }

    /// Whether `plan` is the ordered stream of the registered steps at or below `up_to`:
    /// each exactly once, by version, SQL before code at equal version.
    pub open spec fn is_plan(&self, up_to: i64, plan: Seq<NextStep>) -> bool {
        &&& is_strictly_sorted(plan)
        &&& forall|k: int| 0 <= k < plan.len() ==> self.refers(#[trigger] plan[k], up_to)
        &&& forall|i: int|
            0 <= i < self.sql().len() && #[trigger] self.sql()[i].version.0 <= up_to ==> plan.contains(
                NextStep::Sql { index: i as usize, version: self.sql()[i].version },
            )
        &&& forall|i: int|
            0 <= i < self.code().len() && #[trigger] self.code()[i].version.0 <= up_to
                ==> plan.contains(NextStep::Code { index: i as usize, version: self.code()[i].version })
    }

    /// Builds a registry over the given SQL scripts, with no code step and no legacy source.
    pub fn new(sql_steps: Vec<SqlStep>) -> (r: Result<Self, MigrationError>)
        ensures
            r is Ok <==> distinct_versions(sql_versions(sql_steps@)),
            r matches Ok(m) ==> m.wf() && m.sql() == sql_steps@ && m.code().len() == 0
                && m.legacy() is None,
            r matches Err(e) ==> e@ matches ErrorModel::DuplicateVersion(v) && first_repeated(
                sql_versions(sql_steps@),
                v,
            ),
    {
        let mut versions: Vec<Version> = Vec::new();
        let mut i: usize = 0;
        while i < sql_steps.len()
            invariant
                i <= sql_steps.len(),
                versions@ =~= sql_versions(sql_steps@.subrange(0, i as int)),
            decreases sql_steps.len() - i,
        {
            versions.push(sql_steps[i].version);
            i = i + 1;
        }
        assert(sql_steps@.subrange(0, sql_steps@.len() as int) =~= sql_steps@);
        match check_duplicates(&versions) {
            Ok(()) => {
                let _ = sql_steps.len();
                let m = Migrator { sql_steps, code_steps: Vec::new(), legacy_source: None };
                assert(code_versions(m.code()) =~= Seq::<Version>::empty());
                Ok(m)
            },
            Err(e) => Err(e),
        }
    }

    /// Installs the code steps; on a repeated version the registry is left as it was.
    pub fn set_rust_migrations(&mut self, steps: Vec<CodeStep<C>>) -> (r: Result<(), MigrationError>)
        requires
            old(self).wf(),
        ensures
            r is Ok <==> distinct_versions(code_versions(steps@)),
            r is Ok ==> final(self).code() == steps@,
            r is Err ==> final(self).code() == old(self).code(),
            r matches Err(e) ==> e@ matches ErrorModel::DuplicateVersion(v) && first_repeated(
                code_versions(steps@),
                v,
            ),
            final(self).sql() == old(self).sql(),
            final(self).legacy() == old(self).legacy(),
            final(self).wf(),
    {
        let mut versions: Vec<Version> = Vec::new();
        let mut i: usize = 0;
        while i < steps.len()
            invariant
                i <= steps.len(),
                versions@ =~= code_versions(steps@.subrange(0, i as int)),
            decreases steps.len() - i,
        {
            versions.push(steps[i].version);
            i = i + 1;
        }
        assert(steps@.subrange(0, steps@.len() as int) =~= steps@);
        match check_duplicates(&versions) {
            Ok(()) => {
                let _ = steps.len();
                self.code_steps = steps;
                Ok(())
            },
            Err(e) => Err(e),
        }
    }

    /// Sets or clears the legacy source to import from.
    pub fn set_legacy_sqlite_database(&mut self, source: Option<L>)
        ensures
            final(self).legacy() == source,
            final(self).sql() == old(self).sql(),
            final(self).code() == old(self).code(),
    {
        self.legacy_source = source;
    }

    /// The registered SQL scripts.
    pub fn sql_steps(&self) -> (r: &Vec<SqlStep>)
        ensures
            r@ == self.sql(),
    {
        &self.sql_steps
    }

    /// The registered code steps.
    pub fn code_steps(&self) -> (r: &Vec<CodeStep<C>>)
        ensures
            r@ == self.code(),
    {
        &self.code_steps
    }

    /// The legacy source, if one is set.
    pub fn legacy_source(&self) -> (r: &Option<L>)
        ensures
            *r == self.legacy(),
    {
        &self.legacy_source
    }

    /// Whether a legacy source is set.
    pub fn has_legacy_source(&self) -> (r: bool)
        ensures
            r == self.legacy() is Some,
    {
        self.legacy_source.is_some()
    }

    /// The ordered stream of the registered steps at or below `up_to`.
    pub fn ordered_steps(&self, up_to: Version) -> (r: Vec<NextStep>)
        requires
            self.wf(),
        ensures
            self.is_plan(up_to.0, r@),
    {
        let mut cand: Vec<NextStep> = Vec::new();
        let mut i: usize = 0;
        while i < self.sql_steps.len()
            invariant
                self.wf(),
                i <= self.sql_steps.len(),
                cand@.no_duplicates(),
                forall|k: int| 0 <= k < cand@.len() ==> self.refers(#[trigger] cand@[k], up_to.0),
                forall|k: int| 0 <= k < cand@.len() ==> (#[trigger] cand@[k]) is Sql && cand@[k].index_of() < i,
                forall|j: int|
                    0 <= j < i && #[trigger] self.sql()[j].version.0 <= up_to.0 ==> cand@.contains(
                        NextStep::Sql { index: j as usize, version: self.sql()[j].version },
                    ),
            decreases self.sql_steps.len() - i,
        {
            let v = self.sql_steps[i].version;
            if v.0 <= up_to.0 {
                let ghost before = cand@;
                let x = NextStep::Sql { index: i, version: v };
                cand.push(x);
                assert(cand@[cand@.len() - 1] == x);
                assert forall|j: int|
                    0 <= j < i + 1 && #[trigger] self.sql()[j].version.0 <= up_to.0 implies cand@.contains(
                        NextStep::Sql { index: j as usize, version: self.sql()[j].version },
                    ) by {
                    if j < i {
                        let w = choose|w: int| 0 <= w < before.len() && before[w] == NextStep::Sql { index: j as usize, version: self.sql()[j].version };
                        assert(cand@[w] == before[w]);
                    }
                }
            }
            i = i + 1;
        }
        let mut i: usize = 0;
        while i < self.code_steps.len()
            invariant
                self.wf(),
                i <= self.code_steps.len(),
                cand@.no_duplicates(),
                forall|k: int| 0 <= k < cand@.len() ==> self.refers(#[trigger] cand@[k], up_to.0),
                forall|k: int| 0 <= k < cand@.len() ==> (#[trigger] cand@[k]) is Code ==> cand@[k].index_of() < i,
                forall|j: int|
                    0 <= j < self.sql().len() && #[trigger] self.sql()[j].version.0 <= up_to.0 ==> cand@.contains(
                        NextStep::Sql { index: j as usize, version: self.sql()[j].version },
                    ),
                forall|j: int|
                    0 <= j < i && #[trigger] self.code()[j].version.0 <= up_to.0 ==> cand@.contains(
                        NextStep::Code { index: j as usize, version: self.code()[j].version },
                    ),
            decreases self.code_steps.len() - i,
        {
            let v = self.code_steps[i].version;
            if v.0 <= up_to.0 {
                let ghost before = cand@;
                let x = NextStep::Code { index: i, version: v };
                cand.push(x);
                assert(cand@[cand@.len() - 1] == x);
                assert forall|j: int|
                    0 <= j < self.sql().len() && #[trigger] self.sql()[j].version.0 <= up_to.0 implies cand@.contains(
                        NextStep::Sql { index: j as usize, version: self.sql()[j].version },
                    ) by {
                    let w = choose|w: int| 0 <= w < before.len() && before[w] == NextStep::Sql { index: j as usize, version: self.sql()[j].version };
                    assert(cand@[w] == before[w]);
                }
                assert forall|j: int|
                    0 <= j < i + 1 && #[trigger] self.code()[j].version.0 <= up_to.0 implies cand@.contains(
                        NextStep::Code { index: j as usize, version: self.code()[j].version },
                    ) by {
                    if j < i {
                        let w = choose|w: int| 0 <= w < before.len() && before[w] == NextStep::Code { index: j as usize, version: self.code()[j].version };
                        assert(cand@[w] == before[w]);
                    }
                }
            }
            i = i + 1;
        }
        let ghost c = cand@;
        let r = sort_steps(cand);
        proof {
            c.lemma_multiset_has_no_duplicates();
            r@.lemma_multiset_has_no_duplicates_conv();
            assert forall|k: int| 0 <= k < r@.len() implies self.refers(#[trigger] r@[k], up_to.0) by {
                assert(r@.to_multiset().count(r@[k]) > 0);
                assert(c.contains(r@[k]));
            }
            assert forall|a: int, b: int| 0 <= a < b < r@.len() implies #[trigger] r@[a].precedes(
                #[trigger] r@[b],
            ) by {
                assert(r@[a].not_after(r@[b]));
                assert(self.refers(r@[a], up_to.0));
                assert(self.refers(r@[b], up_to.0));
                if !r@[a].precedes(r@[b]) {
                    match r@[a] {
                        NextStep::Sql { index, .. } => {
                            assert(sql_versions(self.sql())[index as int] == self.sql()[index as int].version);
                            assert(sql_versions(self.sql())[r@[b].index_of() as int] == self.sql()[r@[b].index_of() as int].version);
                        },
                        NextStep::Code { index, .. } => {
                            assert(code_versions(self.code())[index as int] == self.code()[index as int].version);
                            assert(code_versions(self.code())[r@[b].index_of() as int] == self.code()[r@[b].index_of() as int].version);
                        },
                    }
                }
            }
            assert forall|j: int|
                0 <= j < self.sql().len() && #[trigger] self.sql()[j].version.0 <= up_to.0 implies r@.contains(
                    NextStep::Sql { index: j as usize, version: self.sql()[j].version },
                ) by {
                assert(c.to_multiset().count(NextStep::Sql { index: j as usize, version: self.sql()[j].version }) > 0);
            }
            assert forall|j: int|
                0 <= j < self.code().len() && #[trigger] self.code()[j].version.0 <= up_to.0 implies r@.contains(
                    NextStep::Code { index: j as usize, version: self.code()[j].version },
                ) by {
                assert(c.to_multiset().count(NextStep::Code { index: j as usize, version: self.code()[j].version }) > 0);
            }
        }
        r
    }
}

} // verus!
