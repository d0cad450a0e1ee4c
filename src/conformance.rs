use vstd::prelude::*;
use crate::laws::lemma_dry_walk_keeps_history;
use crate::model::{drive, migrate_model, respond, status_model};
use crate::registry::Migrator;
use crate::session::{
    advance, conclude, initial, resume_model, step_over, ActionModel, EventModel, Purpose,
    SessionModel, Waiting, LockStrategy,
};
use crate::status::{Outcome, StatusModel};
use crate::step::NextStep;
use crate::version::{MAX_VERSION, MIN_VERSION};
use crate::walk::{classify, walk, History, StepClass};

verus! {

/// Whether two sessions agree on all that decides what follows the end of a walk.
pub open spec fn same_frame(a: SessionModel, b: SessionModel) -> bool {
    &&& a.purpose == b.purpose
    &&& a.up_to == b.up_to
    &&& a.lock == b.lock
    &&& a.plan == b.plan
    &&& a.phase == b.phase
    &&& a.held == b.held
}

proof fn lemma_drive_more_fuel<C, L>(reg: Migrator<C, L>, m: SessionModel, a: ActionModel, h: History, f1: nat, f2: nat)
    requires
        drive(reg, m, a, h, f1) is Some,
        f1 <= f2,
    ensures
        drive(reg, m, a, h, f2) == drive(reg, m, a, h, f1),
    decreases f1,
{
    if !(a is Finish) {
        let (h2, ev) = respond(reg, h, a);
        let (m2, a2) = resume_model(reg, m, ev);
        lemma_drive_more_fuel(reg, m2, a2, h2, (f1 - 1) as nat, (f2 - 1) as nat);
    }
}

proof fn lemma_conclude_frame<C, L>(reg: Migrator<C, L>, m1: SessionModel, m2: SessionModel, r: Outcome, h: History, fuel: nat)
    requires
        same_frame(m1, m2),
    ensures
        drive(reg, conclude(m1, r).0, conclude(m1, r).1, h, fuel) == drive(reg, conclude(m2, r).0, conclude(m2, r).1, h, fuel),
{
    reveal_with_fuel(drive, 4);
    let (n1, a1) = conclude(m1, r);
    let (n2, a2) = conclude(m2, r);
    assert(a1 == a2);
    if !(a1 is Finish) && fuel > 0 {
        let (k1, b1) = resume_model(reg, n1, EventModel::Completed);
        let (k2, b2) = resume_model(reg, n2, EventModel::Completed);
        assert(b1 == b2);
        if a1 is Lock && fuel > 1 {
            let ev = EventModel::Loaded(h.dirty, h.sql);
            let (j1, c1) = resume_model(reg, k1, ev);
            let (j2, c2) = resume_model(reg, k2, ev);
            match h.dirty {
                Some(d) => {
                    assert(c1 == c2);
                    if fuel > 2 {
                        assert(drive(reg, j1, c1, h, (fuel - 2) as nat) == drive(reg, j2, c2, h, (fuel - 2) as nat)) by {
                            let (i1, e1) = resume_model(reg, j1, EventModel::Completed);
                            let (i2, e2) = resume_model(reg, j2, EventModel::Completed);
                            assert(e1 == e2);
                        }
                    }
                },
                None => {
                    assert(SessionModel { applied: h.sql, pos: 0, last: MIN_VERSION, ..k1 } == SessionModel {
                        applied: h.sql,
                        pos: 0,
                        last: MIN_VERSION,
                        ..k2
                    });
                },
            }
        }
    }
}

/// Whether the plan's entries refer to steps of the registry.
pub open spec fn plan_refers<C, L>(reg: Migrator<C, L>, plan: Seq<NextStep>) -> bool {
    forall|k: int| 0 <= k < plan.len() ==> reg.refers(#[trigger] plan[k], MAX_VERSION)
}

proof fn lemma_advance_follows_walk<C, L>(
    reg: Migrator<C, L>,
    m: SessionModel,
    target: SessionModel,
    h: History,
    fuel: nat,
)
    requires
        m.phase is Planning || m.phase is Applying,
        0 <= m.pos <= m.plan.len(),
        plan_refers(reg, m.plan),
        same_frame(m, target),
        ({
            let (h2, r) = walk(reg, m.plan, m.applied, m.phase is Planning, h, m.pos, m.last);
            drive(reg, conclude(target, r).0, conclude(target, r).1, h2, fuel) is Some
        }),
    ensures
        ({
            let (h2, r) = walk(reg, m.plan, m.applied, m.phase is Planning, h, m.pos, m.last);
            drive(reg, advance(reg, m).0, advance(reg, m).1, h, fuel + 2 * (m.plan.len() - m.pos) as nat)
                == drive(reg, conclude(target, r).0, conclude(target, r).1, h2, fuel)
        }),
    decreases m.plan.len() - m.pos,
{
    let dry = m.phase is Planning;
    let (h2, r) = walk(reg, m.plan, m.applied, dry, h, m.pos, m.last);
    let goal = drive(reg, conclude(target, r).0, conclude(target, r).1, h2, fuel);
    let extra = 2 * (m.plan.len() - m.pos) as nat;
    reveal_with_fuel(drive, 3);
    if m.pos >= m.plan.len() {
        lemma_conclude_frame(reg, m, target, r, h2, fuel);
    } else {
        let v = m.plan[m.pos].version_of();
        let i = m.plan[m.pos].index_of();
        assert(reg.refers(m.plan[m.pos], MAX_VERSION));
        let next = step_over(m);
        assert(same_frame(next, target));
        match classify(reg, m.plan, m.applied, dry, m.pos) {
            StepClass::Pass => {
                lemma_advance_follows_walk(reg, next, target, h, fuel);
                let f1 = fuel + 2 * (m.plan.len() - m.pos - 1) as nat;
                lemma_drive_more_fuel(reg, advance(reg, next).0, advance(reg, next).1, h, f1, fuel + extra);
                    assert(drive(reg, advance(reg, m).0, advance(reg, m).1, h, fuel + extra) == goal);
            },
            StepClass::Pending => {
                if dry {
                    lemma_conclude_frame(reg, m, target, r, h2, fuel);
                    lemma_drive_more_fuel(reg, conclude(m, r).0, conclude(m, r).1, h, fuel, fuel + extra);
                    assert(drive(reg, advance(reg, m).0, advance(reg, m).1, h, fuel + extra) == goal);
                } else {
                    let hs = h.apply(v, reg.sql()[i as int].checksum);
                    let ms = SessionModel { waiting: Waiting::Sql, ..m };
                    assert(step_over(ms) == next);
                    assert(respond(reg, h, ActionModel::ApplySql(i)) == (hs, EventModel::Completed));
                    lemma_advance_follows_walk(reg, next, target, hs, fuel);
                    let f1 = fuel + 2 * (m.plan.len() - m.pos - 1) as nat;
                    lemma_drive_more_fuel(reg, advance(reg, next).0, advance(reg, next).1, hs, f1, (fuel + extra - 1) as nat);
                    assert(drive(reg, advance(reg, m).0, advance(reg, m).1, h, fuel + extra) == goal);
                }
            },
            StepClass::Mismatch => {
                lemma_conclude_frame(reg, m, target, r, h2, fuel);
                lemma_drive_more_fuel(reg, conclude(m, r).0, conclude(m, r).1, h, fuel, fuel + extra);
                    assert(drive(reg, advance(reg, m).0, advance(reg, m).1, h, fuel + extra) == goal);
            },
            StepClass::Check(route) => {
                let name = reg.code()[i as int].name@;
                let mc = SessionModel { waiting: Waiting::Check(route), ..m };
                assert(step_over(mc) == next);
                if h.has(route, name) {
                    lemma_advance_follows_walk(reg, next, target, h, fuel);
                    let f1 = fuel + 2 * (m.plan.len() - m.pos - 1) as nat;
                    lemma_drive_more_fuel(reg, advance(reg, next).0, advance(reg, next).1, h, f1, (fuel + extra - 1) as nat);
                    assert(drive(reg, advance(reg, m).0, advance(reg, m).1, h, fuel + extra) == goal);
                } else if dry {
                    lemma_conclude_frame(reg, mc, target, r, h2, fuel);
                    lemma_drive_more_fuel(reg, conclude(mc, r).0, conclude(mc, r).1, h, fuel, (fuel + extra - 1) as nat);
                    assert(drive(reg, advance(reg, m).0, advance(reg, m).1, h, fuel + extra) == goal);
                } else {
                    let hm = h.mark(route, name);
                    let mr = SessionModel { waiting: Waiting::Run(route), ..m };
                    assert(step_over(mr) == next);
                    lemma_advance_follows_walk(reg, next, target, hm, fuel);
                    let f1 = fuel + 2 * (m.plan.len() - m.pos - 1) as nat;
                    lemma_drive_more_fuel(reg, advance(reg, next).0, advance(reg, next).1, hm, f1, (fuel + extra - 2) as nat);
                    assert(drive(reg, advance(reg, m).0, advance(reg, m).1, h, fuel + extra) == goal);
                }
            },
        }
    }
}

/// A session that migrates up to `up_to` over the ordered stream `plan`, driven against a
/// database with history `h` on which every operation succeeds, finishes with the
/// history and the result that `migrate_model` gives.
pub proof fn migrating_session_follows_model<C, L>(
    reg: Migrator<C, L>,
    plan: Seq<NextStep>,
    lock: Option<LockStrategy>,
    up_to: i64,
    h: History,
    fuel: nat,
)
    requires
        plan_refers(reg, plan),
        fuel >= 4 * plan.len() + 4,
    ensures
        drive(reg, initial(Purpose::Migrate, up_to, lock, plan), ActionModel::LoadHistory, h, fuel)
            == Some(migrate_model(reg, plan, lock, up_to, h)),
{
    reveal_with_fuel(drive, 3);
    let m_init = initial(Purpose::Migrate, up_to, lock, plan);
    let n = plan.len() as nat;
    if h.dirty is None {
        let m0 = SessionModel { applied: h.sql, pos: 0, last: MIN_VERSION, ..m_init };
        assert(resume_model(reg, m_init, EventModel::Loaded(h.dirty, h.sql)) == advance(reg, m0));
        lemma_dry_walk_keeps_history(reg, plan, h.sql, h, 0, MIN_VERSION);
        let r_dry = walk(reg, plan, h.sql, true, h, 0, MIN_VERSION).1;
        let tail: nat = if r_dry matches Outcome::Done(StatusModel::Todo(_, _)) && lock is Some {
            2 * n + 3
        } else {
            0
        };
        if r_dry matches Outcome::Done(StatusModel::Todo(_, _)) && lock is Some {
            let (m_lock, a_lock) = conclude(m0, r_dry);
            let (m_app, a_app) = resume_model(reg, m_lock, EventModel::Completed);
            assert(a_app == ActionModel::LoadHistory);
            let m_a0 = SessionModel { applied: h.sql, pos: 0, last: MIN_VERSION, ..m_app };
            assert(resume_model(reg, m_app, EventModel::Loaded(h.dirty, h.sql)) == advance(reg, m_a0));
            let (h_app, r_app) = walk(reg, plan, h.sql, false, h, 0, MIN_VERSION);
            assert(drive(reg, conclude(m_a0, r_app).0, conclude(m_a0, r_app).1, h_app, 1) == Some((h_app, r_app)));
            lemma_advance_follows_walk(reg, m_a0, m_a0, h, 1);
            assert(drive(reg, advance(reg, m_a0).0, advance(reg, m_a0).1, h, 1 + 2 * n) == Some((h_app, r_app)));
            assert(drive(reg, m_app, a_app, h, 2 + 2 * n) == Some((h_app, r_app)));
            assert(drive(reg, m_lock, a_lock, h, 3 + 2 * n) == Some((h_app, r_app)));
        }
        assert(drive(reg, conclude(m0, r_dry).0, conclude(m0, r_dry).1, h, tail) == Some(migrate_model(reg, plan, lock, up_to, h)));
        lemma_advance_follows_walk(reg, m0, m0, h, tail);
        lemma_drive_more_fuel(reg, advance(reg, m0).0, advance(reg, m0).1, h, tail + 2 * n, (fuel - 1) as nat);
    }
}

/// A status session over the ordered stream `plan`, driven against a database with
/// history `h` on which every operation succeeds, finishes with the result that
/// `status_model` gives and changes nothing.
pub proof fn status_session_follows_model<C, L>(
    reg: Migrator<C, L>,
    plan: Seq<NextStep>,
    lock: Option<LockStrategy>,
    h: History,
    fuel: nat,
)
    requires
        plan_refers(reg, plan),
        fuel >= 2 * plan.len() + 1,
    ensures
        drive(reg, initial(Purpose::Status, MAX_VERSION, lock, plan), ActionModel::LoadHistory, h, fuel)
            == Some((h, status_model(reg, plan, h))),
{
    reveal_with_fuel(drive, 3);
    let m_init = initial(Purpose::Status, MAX_VERSION, lock, plan);
    let n = plan.len() as nat;
    if h.dirty is None {
        let m0 = SessionModel { applied: h.sql, pos: 0, last: MIN_VERSION, ..m_init };
        assert(resume_model(reg, m_init, EventModel::Loaded(h.dirty, h.sql)) == advance(reg, m0));
        lemma_dry_walk_keeps_history(reg, plan, h.sql, h, 0, MIN_VERSION);
        let r_dry = walk(reg, plan, h.sql, true, h, 0, MIN_VERSION).1;
        assert(drive(reg, conclude(m0, r_dry).0, conclude(m0, r_dry).1, h, 0) == Some((h, status_model(reg, plan, h))));
        lemma_advance_follows_walk(reg, m0, m0, h, 0);
        lemma_drive_more_fuel(reg, advance(reg, m0).0, advance(reg, m0).1, h, 2 * n, (fuel - 1) as nat);
    }
}

} // verus!
