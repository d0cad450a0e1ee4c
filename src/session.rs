use vstd::prelude::*;
use crate::registry::Migrator;
use crate::status::{
    outcome_of, ErrorModel, FailureModel, MigrationError, MigrationFailure, MigrationStatus,
    Outcome, StatusModel,
};
use crate::step::{AppliedSql, NextStep};
use crate::version::{Version, MIN_VERSION};
use crate::walk::{
    classify, classify_step, find_applied, last_applied, mismatch_outcome, Route, StepClass,
};

verus! {

/// What a session is run for.
#[derive(Debug, Clone, Copy, PartialEq, Eq, Structural)]
pub enum Purpose {
    /// Report the status; change nothing.
    Status,
    /// Bring the database up to the target version.
    Migrate,
}

/// How a backend is held exclusively while steps are applied.
#[derive(Debug, Clone, Copy, PartialEq, Eq, Structural)]
pub enum LockStrategy {
    /// The embedded single-file engine: switch the locking mode to exclusive, then back
    /// to normal and close the connection.
    ExclusivePragma,
    /// The server-backed engine: take and release the driver's advisory lock.
    AdvisoryLock,
}

/// The exclusive-access primitive of the backend that reports `backend_name`; none for
/// a backend the engine does not know.
pub fn lock_strategy(backend_name: &String) -> (r: Option<LockStrategy>)
    ensures
        r == (if backend_name@ == "SQLite"@ {
            Some(LockStrategy::ExclusivePragma)
        } else if backend_name@ == "PostgreSQL"@ {
            Some(LockStrategy::AdvisoryLock)
        } else {
            None
        }),
{
    let sqlite = "SQLite".to_owned();
    let postgres = "PostgreSQL".to_owned();
    if *backend_name == sqlite {
        Some(LockStrategy::ExclusivePragma)
    } else if *backend_name == postgres {
        Some(LockStrategy::AdvisoryLock)
    } else {
        None
    }
}

/// Stage of a session.
#[derive(Debug, Clone, Copy, PartialEq, Eq, Structural)]
pub enum Phase {
    /// The dry walk that decides whether anything is to be done.
    Planning,
    /// Taking the exclusive lock.
    Locking,
    /// The walk that applies the pending steps.
    Applying,
    /// Releasing the exclusive lock.
    Unlocking,
    /// The session has given its result.
    Finished,
}

/// What the session waits to hear about.
#[derive(Debug, Clone, Copy, PartialEq, Eq, Structural)]
pub enum Waiting {
    /// The history to be loaded.
    Load,
    /// A SQL script to be applied.
    Sql,
    /// A code step's record to be looked up.
    Check(Route),
    /// A code step to be run and recorded.
    Run(Route),
    /// The lock to be taken.
    Lock,
    /// The lock to be released.
    Unlock,
    /// Nothing: the session is over.
    Nothing,
}

/// What the driver of a session must do next.
#[derive(Debug)]
pub enum Action {
    /// Create the SQL history table if absent, then read the dirty version and the SQL
    /// history; answer with `Event::Loaded`.
    LoadHistory,
    /// Apply the SQL script with this index, recording it; answer with `Event::Completed`.
    ApplySql(usize),
    /// Look up whether the code step with this index is recorded in the database named
    /// by the route; answer with `Event::Checked`.
    CheckCode(usize, Route),
    /// Run the code step with this index, then record it in the database named by the
    /// route; answer with `Event::Completed`.
    RunCode(usize, Route),
    /// Take the exclusive lock; answer with `Event::Completed`.
    Lock(LockStrategy),
    /// Release the exclusive lock; answer with `Event::Completed`.
    Unlock(LockStrategy),
    /// The session is over with this result.
    Finish(Result<MigrationStatus, MigrationError>),
}

/// What the driver reports back.
#[derive(Debug)]
pub enum Event {
    /// The dirty version, if any, and the SQL history as the database lists it.
    Loaded(Option<Version>, Vec<AppliedSql>),
    /// The action was carried out.
    Completed,
    /// The answer to a lookup.
    Checked(bool),
    /// The action failed; the driver keeps the cause.
    Failed,
}

/// Mathematical form of an [`Action`].
pub enum ActionModel {
    LoadHistory,
    ApplySql(usize),
    CheckCode(usize, Route),
    RunCode(usize, Route),
    Lock(LockStrategy),
    Unlock(LockStrategy),
    Finish(Outcome),
}

/// Mathematical form of an [`Event`].
pub enum EventModel {
    Loaded(Option<i64>, Seq<AppliedSql>),
    Completed,
    Checked(bool),
    Failed,
}

impl View for Action {
    type V = ActionModel;

    open spec fn view(&self) -> ActionModel {
        match self {
            Action::LoadHistory => ActionModel::LoadHistory,
            Action::ApplySql(i) => ActionModel::ApplySql(*i),
            Action::CheckCode(i, r) => ActionModel::CheckCode(*i, *r),
            Action::RunCode(i, r) => ActionModel::RunCode(*i, *r),
            Action::Lock(s) => ActionModel::Lock(*s),
            Action::Unlock(s) => ActionModel::Unlock(*s),
            Action::Finish(r) => ActionModel::Finish(outcome_of(*r)),
        }
    }
}

impl View for Event {
    type V = EventModel;

    open spec fn view(&self) -> EventModel {
        match self {
            Event::Loaded(d, a) => EventModel::Loaded(
                match d {
                    Some(v) => Some(v.0),
                    None => None,
                },
                a@,
            ),
            Event::Completed => EventModel::Completed,
            Event::Checked(b) => EventModel::Checked(*b),
            Event::Failed => EventModel::Failed,
        }
    }
}

/// One run of the engine against one database: a planning walk and, when a migration
/// is asked for and something is pending, a locked applying walk. The session decides;
/// its driver performs each action and reports the event.
pub struct Session {
    purpose: Purpose,
    up_to: Version,
    lock: Option<LockStrategy>,
    plan: Vec<NextStep>,
    phase: Phase,
    applied: Vec<AppliedSql>,
    pos: usize,
    last: Version,
    waiting: Waiting,
    held: Option<Result<MigrationStatus, MigrationError>>,
}

/// Mathematical form of a [`Session`].
pub struct SessionModel {
    pub purpose: Purpose,
    pub up_to: i64,
    pub lock: Option<LockStrategy>,
    pub plan: Seq<NextStep>,
    pub phase: Phase,
    pub applied: Seq<AppliedSql>,
    pub pos: int,
    pub last: i64,
    pub waiting: Waiting,
    pub held: Option<Outcome>,
}

impl View for Session {
    type V = SessionModel;

    closed spec fn view(&self) -> SessionModel {
        SessionModel {
            purpose: self.purpose,
            up_to: self.up_to.0,
            lock: self.lock,
            plan: self.plan@,
            phase: self.phase,
            applied: self.applied@,
            pos: self.pos as int,
            last: self.last.0,
            waiting: self.waiting,
            held: match self.held {
                Some(r) => Some(outcome_of(r)),
                None => None,
            },
        }
    }
}

/// The session is over with result `r`.
pub open spec fn finish(m: SessionModel, r: Outcome) -> (SessionModel, ActionModel) {
    (SessionModel { phase: Phase::Finished, waiting: Waiting::Nothing, ..m }, ActionModel::Finish(r))
}

/// What follows a walk that ended with `r`. After planning, a status session reports
/// `r`; a migrating session fails on a failed history, reports up to date at the
/// target when nothing is pending, and otherwise takes the lock. After applying, the
/// lock is released before `r` is reported.
pub open spec fn conclude(m: SessionModel, r: Outcome) -> (SessionModel, ActionModel) {
    if m.phase is Planning {
        if m.purpose is Status {
            finish(m, r)
        } else {
            match r {
                Outcome::Done(StatusModel::Failed(v, f)) => finish(
                    m,
                    Outcome::Error(ErrorModel::PreviouslyFailed(v, f)),
                ),
                Outcome::Done(StatusModel::UpToDate(_)) => finish(
                    m,
                    Outcome::Done(StatusModel::UpToDate(m.up_to)),
                ),
                Outcome::Done(StatusModel::Todo(_, _)) => match m.lock {
                    Some(s) => (
                        SessionModel { phase: Phase::Locking, waiting: Waiting::Lock, ..m },
                        ActionModel::Lock(s),
                    ),
                    None => finish(m, Outcome::Error(ErrorModel::LockUnavailable)),
                },
                Outcome::Error(e) => finish(m, Outcome::Error(e)),
            }
        }
    } else {
        match m.lock {
            Some(s) => (
                SessionModel {
                    phase: Phase::Unlocking,
                    waiting: Waiting::Unlock,
                    held: Some(r),
                    ..m
                },
                ActionModel::Unlock(s),
            ),
            None => finish(m, r),
        }
    }
}

/// The session after walking over entry `pos` of the plan.
pub open spec fn step_over(m: SessionModel) -> SessionModel {
    SessionModel { pos: m.pos + 1, last: m.plan[m.pos].version_of(), waiting: Waiting::Load, ..m }
}

/// The walk goes on from entry `m.pos`: it passes over what needs no work and stops at
/// the first entry that needs the database, or ends.
pub open spec fn advance<C, L>(reg: Migrator<C, L>, m: SessionModel) -> (SessionModel, ActionModel)
    decreases m.plan.len() - m.pos,
{
    let dry = m.phase is Planning;
    if m.pos < 0 || m.pos >= m.plan.len() {
        conclude(m, Outcome::Done(StatusModel::UpToDate(m.last)))
    } else {
        let v = m.plan[m.pos].version_of();
        let i = m.plan[m.pos].index_of();
        match classify(reg, m.plan, m.applied, dry, m.pos) {
            StepClass::Pass => advance(reg, step_over(m)),
            StepClass::Pending => if dry {
                conclude(m, Outcome::Done(StatusModel::Todo(last_applied(m.applied), v)))
            } else {
                (SessionModel { waiting: Waiting::Sql, ..m }, ActionModel::ApplySql(i))
            },
            StepClass::Mismatch => conclude(m, mismatch_outcome(reg, m.plan, m.applied, dry, m.pos)),
            StepClass::Check(route) => (
                SessionModel { waiting: Waiting::Check(route), ..m },
                ActionModel::CheckCode(i, route),
            ),
        }
    }
}

/// What follows a failed action, or an event that does not answer the action: a held
/// lock is released, and the session ends interrupted.
pub open spec fn interrupt(m: SessionModel) -> (SessionModel, ActionModel) {
    if m.phase is Applying && m.lock is Some {
        (
            SessionModel {
                phase: Phase::Unlocking,
                waiting: Waiting::Unlock,
                held: Some(Outcome::Error(ErrorModel::Interrupted)),
                ..m
            },
            ActionModel::Unlock(m.lock->Some_0),
        )
    } else {
        finish(m, Outcome::Error(ErrorModel::Interrupted))
    }
}

/// The next state and action of a session on event `ev`.
pub open spec fn resume_model<C, L>(reg: Migrator<C, L>, m: SessionModel, ev: EventModel) -> (
    SessionModel,
    ActionModel,
) {
    match (m.waiting, ev) {
        (Waiting::Load, EventModel::Loaded(dirty, applied)) => match dirty {
            Some(d) => conclude(m, Outcome::Done(StatusModel::Failed(d, FailureModel::DirtyVersion))),
            None => advance(reg, SessionModel { applied, pos: 0, last: MIN_VERSION, ..m }),
        },
        (Waiting::Sql, EventModel::Completed) => advance(reg, step_over(m)),
        (Waiting::Run(_), EventModel::Completed) => advance(reg, step_over(m)),
        (Waiting::Check(route), EventModel::Checked(present)) => if present {
            advance(reg, step_over(m))
        } else if m.phase is Planning {
            conclude(
                m,
                Outcome::Done(StatusModel::Todo(last_applied(m.applied), m.plan[m.pos].version_of())),
            )
        } else {
            (
                SessionModel { waiting: Waiting::Run(route), ..m },
                ActionModel::RunCode(m.plan[m.pos].index_of(), route),
            )
        },
        (Waiting::Lock, EventModel::Completed) => (
            SessionModel { phase: Phase::Applying, waiting: Waiting::Load, ..m },
            ActionModel::LoadHistory,
        ),
        (Waiting::Unlock, EventModel::Completed) => finish(SessionModel { held: None, ..m }, m.held->Some_0),
        _ => interrupt(m),
    }
}

/// The state in which a session begins.
pub open spec fn initial(purpose: Purpose, up_to: i64, lock: Option<LockStrategy>, plan: Seq<NextStep>) -> SessionModel {
    SessionModel {
        purpose,
        up_to,
        lock,
        plan,
        phase: Phase::Planning,
        applied: Seq::empty(),
        pos: 0,
        last: MIN_VERSION,
        waiting: Waiting::Load,
        held: None,
    }
}

impl Session {
    /// The session is consistent with the registry it walks.
    pub open spec fn inv<C, L>(&self, reg: Migrator<C, L>) -> bool {
        let m = self@;
        &&& self.plan_ok(reg)
        &&& (m.waiting is Load || m.waiting is Sql || m.waiting is Check || m.waiting is Run)
            ==> (m.phase is Planning || m.phase is Applying)
        &&& m.waiting is Sql ==> m.pos < m.plan.len() && m.plan[m.pos] is Sql
        &&& m.waiting is Check ==> m.pos < m.plan.len() && m.plan[m.pos] is Code
        &&& m.waiting is Run ==> m.pos < m.plan.len() && m.plan[m.pos] is Code
        &&& m.waiting is Unlock ==> m.held is Some && m.lock is Some
        &&& m.waiting is Lock ==> m.lock is Some
        &&& (m.phase is Applying || m.phase is Unlocking) ==> m.lock is Some
        &&& (m.phase is Finished <==> m.waiting is Nothing)
        &&& (m.waiting is Lock <==> m.phase is Locking)
    }

    /// The plan refers to steps of the registry, and the walk stands within it.
    pub open spec fn plan_ok<C, L>(&self, reg: Migrator<C, L>) -> bool {
        let m = self@;
        &&& forall|k: int| 0 <= k < m.plan.len() ==> reg.refers(#[trigger] m.plan[k], i64::MAX)
        &&& 0 <= m.pos <= m.plan.len()
    }

    /// Whether the session has given its result.
    pub fn is_finished(&self) -> (r: bool)
        ensures
            r == (self@.phase is Finished),
    {
        match self.phase {
            Phase::Finished => true,
            _ => false,
        }
    }

    /// Begins a session over the steps of `reg` at or below `up_to`. `lock` is how the
    /// backend is held exclusively, if the engine knows one. The first action is to
    /// load the history.
    pub fn start<C, L>(reg: &Migrator<C, L>, purpose: Purpose, up_to: Version, lock: Option<LockStrategy>) -> (r: (Session, Action))
        requires
            reg.wf(),
        ensures
            reg.is_plan(up_to.0, r.0@.plan),
            r.0@ == initial(purpose, up_to.0, lock, r.0@.plan),
            r.1@ == ActionModel::LoadHistory,
            r.0.inv(*reg),
    {
        let plan = reg.ordered_steps(up_to);
        let s = Session {
            purpose,
            up_to,
            lock,
            plan,
            phase: Phase::Planning,
            applied: Vec::new(),
            pos: 0,
            last: Version(MIN_VERSION),
            waiting: Waiting::Load,
            held: None,
        };
        assert(s@.applied =~= Seq::<AppliedSql>::empty());
        (s, Action::LoadHistory)
    }

    fn finish<C, L>(&mut self, reg: &Migrator<C, L>, r: Result<MigrationStatus, MigrationError>) -> (a: Action)
        requires
            old(self).plan_ok(*reg),
        ensures
            (final(self)@, a@) == finish(old(self)@, outcome_of(r)),
            final(self).inv(*reg),
    {
        self.phase = Phase::Finished;
        self.waiting = Waiting::Nothing;
        Action::Finish(r)
    }

    fn conclude<C, L>(&mut self, reg: &Migrator<C, L>, r: Result<MigrationStatus, MigrationError>) -> (a: Action)
        requires
            old(self).inv(*reg),
            old(self)@.phase is Planning || old(self)@.phase is Applying,
            !(old(self)@.waiting is Unlock),
        ensures
            (final(self)@, a@) == conclude(old(self)@, outcome_of(r)),
            final(self).inv(*reg),
    {
        match self.phase {
            Phase::Planning => {
                match self.purpose {
                    Purpose::Status => self.finish(reg, r),
                    Purpose::Migrate => match r {
                        Ok(MigrationStatus::Failed(v, f)) => self.finish(reg, 
                            Err(MigrationError::PreviouslyFailed(v, f)),
                        ),
                        Ok(MigrationStatus::UpToDate(_)) => {
                            let up_to = self.up_to;
                            self.finish(reg, Ok(MigrationStatus::UpToDate(up_to)))
                        },
                        Ok(MigrationStatus::Todo(_, _)) => match self.lock {
                            Some(s) => {
                                self.phase = Phase::Locking;
                                self.waiting = Waiting::Lock;
                                Action::Lock(s)
                            },
                            None => self.finish(reg, Err(MigrationError::LockUnavailable)),
                        },
                        Err(e) => self.finish(reg, Err(e)),
                    },
                }
            },
            _ => match self.lock {
                Some(s) => {
                    self.phase = Phase::Unlocking;
                    self.waiting = Waiting::Unlock;
                    self.held = Some(r);
                    Action::Unlock(s)
                },
                None => self.finish(reg, r),
            },
        }
    }

    fn mismatch<C, L>(&self, reg: &Migrator<C, L>) -> (r: Result<MigrationStatus, MigrationError>)
        requires
            self.inv(*reg),
            self@.pos < self@.plan.len(),
            classify(*reg, self@.plan, self@.applied, self@.phase is Planning, self@.pos) is Mismatch,
        ensures
            outcome_of(r) == mismatch_outcome(*reg, self@.plan, self@.applied, self@.phase is Planning, self@.pos),
    {
        let step = self.plan[self.pos];
        assert(reg.refers(self@.plan[self@.pos], i64::MAX));
        let v = step.version();
        let s = &reg.sql_steps()[step.index()];
        let a = find_applied(&self.applied, v.0);
        let a = match a {
            Some(a) => a,
            None => 0,
        };
        match self.phase {
            Phase::Planning => Err(
                MigrationError::ChecksumMismatch { version: v, description: s.description.clone() },
            ),
            _ => Ok(
                MigrationStatus::Failed(
                    v,
                    MigrationFailure::ChecksumMismatch {
                        description: s.description.clone(),
                        expected: copy_bytes(&s.checksum),
                        actual: copy_bytes(&self.applied[a].checksum),
                    },
                ),
            ),
        }
    }

    fn advance<C, L>(&mut self, reg: &Migrator<C, L>) -> (a: Action)
        requires
            old(self).inv(*reg),
            old(self)@.phase is Planning || old(self)@.phase is Applying,
            old(self)@.waiting is Load,
        ensures
            (final(self)@, a@) == advance(*reg, old(self)@),
            final(self).inv(*reg),
    {
        let dry = match self.phase {
            Phase::Planning => true,
            _ => false,
        };
        while self.pos < self.plan.len()
            invariant
                self.inv(*reg),
                self@.phase == old(self)@.phase,
                self@.waiting is Load,
                dry == (self@.phase is Planning),
                advance(*reg, self@) == advance(*reg, old(self)@),
            decreases self.plan.len() - self.pos,
        {
            let step = self.plan[self.pos];
            assert(reg.refers(self@.plan[self@.pos as int], i64::MAX));
            let v = step.version();
            let i = step.index();
            match classify_step(reg, &self.plan, &self.applied, dry, self.pos) {
                StepClass::Pass => {
                    self.step_over();
                },
                StepClass::Pending => {
                    if dry {
                        let last = last_applied_version(&self.applied);
                        return self.conclude(reg, Ok(MigrationStatus::Todo(last, v)));
                    } else {
                        self.waiting = Waiting::Sql;
                        return Action::ApplySql(i);
                    }
                },
                StepClass::Mismatch => {
                    let r = self.mismatch(reg);
                    return self.conclude(reg, r);
                },
                StepClass::Check(route) => {
                    self.waiting = Waiting::Check(route);
                    return Action::CheckCode(i, route);
                },
            }
        }
        let last = self.last;
        self.conclude(reg, Ok(MigrationStatus::UpToDate(last)))
    }

    fn step_over(&mut self)
        requires
            old(self)@.pos < old(self)@.plan.len(),
        ensures
            final(self)@ == step_over(old(self)@),
    {
        let n = self.plan.len();
        assert(self.pos < n);
        self.last = self.plan[self.pos].version();
        self.pos = self.pos + 1;
        self.waiting = Waiting::Load;
    }

    fn interrupt<C, L>(&mut self, reg: &Migrator<C, L>) -> (a: Action)
        requires
            old(self).inv(*reg),
            !(old(self)@.phase is Finished),
        ensures
            (final(self)@, a@) == interrupt(old(self)@),
            final(self).inv(*reg),
    {
        match (self.phase, self.lock) {
            (Phase::Applying, Some(s)) => {
                self.phase = Phase::Unlocking;
                self.waiting = Waiting::Unlock;
                self.held = Some(Err(MigrationError::Interrupted));
                Action::Unlock(s)
            },
            _ => self.finish(reg, Err(MigrationError::Interrupted)),
        }
    }

    /// Hands the session the event that answers its last action, and returns the next
    /// action.
    pub fn resume<C, L>(&mut self, reg: &Migrator<C, L>, ev: Event) -> (a: Action)
        requires
            old(self).inv(*reg),
            !(old(self)@.phase is Finished),
        ensures
            (final(self)@, a@) == resume_model(*reg, old(self)@, ev@),
            final(self).inv(*reg),
    {
        match (self.waiting, ev) {
            (Waiting::Load, Event::Loaded(dirty, applied)) => match dirty {
                Some(d) => self.conclude(reg, Ok(MigrationStatus::Failed(d, MigrationFailure::DirtyVersion))),
                None => {
                    self.applied = applied;
                    self.pos = 0;
                    self.last = Version(MIN_VERSION);
                    self.advance(reg)
                },
            },
            (Waiting::Sql, Event::Completed) | (Waiting::Run(_), Event::Completed) => {
                self.step_over();
                self.advance(reg)
            },
            (Waiting::Check(route), Event::Checked(present)) => {
                if present {
                    self.step_over();
                    self.advance(reg)
                } else {
                    match self.phase {
                        Phase::Planning => {
                            let last = last_applied_version(&self.applied);
                            let v = self.plan[self.pos].version();
                            self.conclude(reg, Ok(MigrationStatus::Todo(last, v)))
                        },
                        _ => {
                            self.waiting = Waiting::Run(route);
                            Action::RunCode(self.plan[self.pos].index(), route)
                        },
                    }
                }
            },
            (Waiting::Lock, Event::Completed) => {
                self.phase = Phase::Applying;
                self.waiting = Waiting::Load;
                Action::LoadHistory
            },
            (Waiting::Unlock, Event::Completed) => {
                let r = self.held.take();
                match r {
                    Some(r) => self.finish(reg, r),
                    None => self.finish(reg, Err(MigrationError::Interrupted)),
                }
            },
            _ => self.interrupt(reg),
        }
    }
}

/// The version of the last record of the SQL history, if there is one.
pub fn last_applied_version(applied: &Vec<AppliedSql>) -> (r: Option<Version>)
    ensures
        (match r {
            Some(v) => Some(v.0),
            None => None,
        }) == last_applied(applied@),
{
    if applied.len() == 0 {
        None
    } else {
        Some(applied[applied.len() - 1].version)
    }
}

/// A copy of a byte string.
fn copy_bytes(b: &Vec<u8>) -> (r: Vec<u8>)
    ensures
        r@ == b@,
{
    let mut out: Vec<u8> = Vec::new();
    let mut i: usize = 0;
    while i < b.len()
        invariant
            i <= b.len(),
            out@ =~= b@.subrange(0, i as int),
        decreases b.len() - i,
    {
        out.push(b[i]);
        i = i + 1;
    }
    out
}

} // verus!
