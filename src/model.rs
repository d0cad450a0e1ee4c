use vstd::prelude::*;
use crate::registry::Migrator;
use crate::session::{resume_model, ActionModel, EventModel, LockStrategy, SessionModel};
use crate::status::{ErrorModel, FailureModel, Outcome, StatusModel};
use crate::step::NextStep;
use crate::version::MIN_VERSION;
use crate::walk::{walk, History};

verus! {

/// What a status session reports for a database with history `h`, `plan` being the
/// ordered stream of all registered steps.
pub open spec fn status_model<C, L>(reg: Migrator<C, L>, plan: Seq<NextStep>, h: History) -> Outcome {
    match h.dirty {
        Some(d) => Outcome::Done(StatusModel::Failed(d, FailureModel::DirtyVersion)),
        None => walk(reg, plan, h.sql, true, h, 0, MIN_VERSION).1,
    }
}

/// The history and the result of a migration up to `up_to` of a database with history
/// `h`, `plan` being the ordered stream of the steps at or below `up_to` and `lock` the
/// backend's exclusive-access primitive, when every operation on the database succeeds.
/// A dry walk plans; if something is pending, the lock is taken, the history is read
/// again, and an applying walk runs.
pub open spec fn migrate_model<C, L>(
    reg: Migrator<C, L>,
    plan: Seq<NextStep>,
    lock: Option<LockStrategy>,
    up_to: i64,
    h: History,
) -> (History, Outcome) {
    match h.dirty {
        Some(d) => (h, Outcome::Error(ErrorModel::PreviouslyFailed(d, FailureModel::DirtyVersion))),
        None => match walk(reg, plan, h.sql, true, h, 0, MIN_VERSION).1 {
            Outcome::Error(e) => (h, Outcome::Error(e)),
            Outcome::Done(StatusModel::Failed(v, f)) => (
                h,
                Outcome::Error(ErrorModel::PreviouslyFailed(v, f)),
            ),
            Outcome::Done(StatusModel::UpToDate(_)) => (h, Outcome::Done(StatusModel::UpToDate(up_to))),
            Outcome::Done(StatusModel::Todo(_, _)) => match lock {
                None => (h, Outcome::Error(ErrorModel::LockUnavailable)),
                Some(_) => walk(reg, plan, h.sql, false, h, 0, MIN_VERSION),
            },
        },
    }
}

/// What a database with history `h` answers to action `a`, when the operation succeeds,
/// and its history afterwards. Code steps are taken not to touch the bookkeeping tables.
pub open spec fn respond<C, L>(reg: Migrator<C, L>, h: History, a: ActionModel) -> (History, EventModel) {
    match a {
        ActionModel::LoadHistory => (h, EventModel::Loaded(h.dirty, h.sql)),
        ActionModel::ApplySql(i) => (
            h.apply(reg.sql()[i as int].version.0, reg.sql()[i as int].checksum),
            EventModel::Completed,
        ),
        ActionModel::CheckCode(i, route) => (
            h,
            EventModel::Checked(h.has(route, reg.code()[i as int].name@)),
        ),
        ActionModel::RunCode(i, route) => (h.mark(route, reg.code()[i as int].name@), EventModel::Completed),
        _ => (h, EventModel::Completed),
    }
}

/// A session in state `m` that asked for `a`, driven for at most `fuel` further actions
/// against a database with history `h` on which every operation succeeds: the history
/// and the result when the session finishes.
pub open spec fn drive<C, L>(reg: Migrator<C, L>, m: SessionModel, a: ActionModel, h: History, fuel: nat) -> Option<(History, Outcome)>
    decreases fuel,
{
    match a {
        ActionModel::Finish(r) => Some((h, r)),
        _ => if fuel == 0 {
            None
        } else {
            let (h2, ev) = respond(reg, h, a);
            let (m2, a2) = resume_model(reg, m, ev);
            drive(reg, m2, a2, h2, (fuel - 1) as nat)
        },
    }
}

} // verus!
