use vstd::prelude::*;
use crate::policy::{Policy, PolicyError, enforce_policy, admissible, granted, refusal_of};
use tokio_util::sync::CancellationToken;

verus! {

#[verifier::external_type_specification]
#[verifier::external_body]
pub struct ExCancellationToken(CancellationToken);

/// Relies on `CancellationToken::new`: a fresh signal that has not fired.
pub assume_specification[ CancellationToken::new ]() -> CancellationToken;

/// Relies on `CancellationToken::cancel`: fires the signal; firing twice is harmless.
pub assume_specification[ CancellationToken::cancel ](t: &CancellationToken);

/// Relies on `CancellationToken::clone`: a second handle on the same signal,
/// holding the same shared node as the first.
pub assume_specification[ <CancellationToken as Clone>::clone ](t: &CancellationToken) -> (r: CancellationToken)
    ensures
        r == *t,
;

/// Relies on `uuid::Uuid::new_v4` and its hyphenated text form: a random id.
#[verifier::external_body]
fn fresh_execution_id() -> String {
    uuid::Uuid::new_v4().to_string()
}

/// Relies on `chrono::Utc::now` and `DateTime::to_rfc3339`: the current time as text.
#[verifier::external_body]
fn now_rfc3339() -> String {
    chrono::Utc::now().to_rfc3339()
}

/// Where a task is in its life.
#[derive(Clone, Copy, Debug, PartialEq, Eq, Structural)]
pub enum ExecutionState {
    Queued,
    Running,
    Completed,
    Cancelled,
    Failed,
}

/// The name under which a state is reported.
pub open spec fn state_name(s: ExecutionState) -> Seq<char> {
    match s {
        ExecutionState::Queued => "Queued"@,
        ExecutionState::Running => "Running"@,
        ExecutionState::Completed => "Completed"@,
        ExecutionState::Cancelled => "Cancelled"@,
        ExecutionState::Failed => "Failed"@,
    }
}

/// Queued and Running tasks are active: they hold the single slot.
pub open spec fn is_active(s: ExecutionState) -> bool {
    s == ExecutionState::Queued || s == ExecutionState::Running
}

/// Completed, Cancelled and Failed are final: nothing leaves them.
pub open spec fn is_terminal(s: ExecutionState) -> bool {
    !is_active(s)
}

/// The moves of the life cycle: Queued to Running, Running to a final state.
pub open spec fn transition_allowed(from: ExecutionState, to: ExecutionState) -> bool {
    (from == ExecutionState::Queued && to == ExecutionState::Running)
        || (from == ExecutionState::Running && is_terminal(to))
}

impl ExecutionState {
    /// The name under which this state is reported.
    pub fn name(&self) -> (r: String)
        ensures
            r@ == state_name(*self),
    {
        match self {
            ExecutionState::Queued => "Queued".to_string(),
            ExecutionState::Running => "Running".to_string(),
            ExecutionState::Completed => "Completed".to_string(),
            ExecutionState::Cancelled => "Cancelled".to_string(),
            ExecutionState::Failed => "Failed".to_string(),
        }
    }
}

/// Why a control operation was refused.
#[derive(Clone, Copy, Debug, PartialEq, Eq, Structural)]
pub enum ExecError {
    /// The requested policy asks for a capability this build does not grant.
    PolicyViolation(PolicyError),
    /// Another task is already queued or running.
    Conflict,
    /// The id chosen for a new task is already taken.
    DuplicateId,
    /// No task has this id.
    NotFound,
    /// The task is not in a state that allows the operation.
    InvalidState,
}

/// One accepted unit of work and what has become of it.
pub struct Execution {
    pub id: String,
    pub prompt: String,
    pub policy: Policy,
    pub state: ExecutionState,
    pub start_time: String,
    pub result: Option<String>,
    pub error: Option<String>,
    pub cancel_token: CancellationToken,
}

/// A point-in-time copy of a task, as reported to callers and subscribers.
#[derive(Clone, Debug)]
pub struct ExecutionStatus {
    pub id: String,
    pub state: String,
    pub result: Option<String>,
    pub error: Option<String>,
    pub start_time: String,
}

impl ExecutionStatus {
    /// Whether this snapshot belongs to the task with id `id`.
    pub fn concerns(&self, id: &str) -> (r: bool)
        ensures
            r == (self.id@ == id@),
    {
        let key = id.to_string();
        self.id == key
    }
}

/// The text an optional string holds.
pub open spec fn opt_view(o: Option<String>) -> Option<Seq<char>> {
    match o {
        Some(s) => Some(s@),
        None => None,
    }
}

/// `s` is a faithful snapshot of `e`.
pub open spec fn snapshot_of(s: ExecutionStatus, e: Execution) -> bool {
    &&& s.id@ == e.id@
    &&& s.state@ == state_name(e.state)
    &&& opt_view(s.result) == opt_view(e.result)
    &&& opt_view(s.error) == opt_view(e.error)
    &&& s.start_time@ == e.start_time@
}

fn copy_opt(o: &Option<String>) -> (r: Option<String>)
    ensures
        opt_view(r) == opt_view(*o),
{
    match o {
        Some(s) => Some(s.clone()),
        None => None,
    }
}

impl Execution {
    /// A snapshot of the execution.
    pub fn status(&self) -> (r: ExecutionStatus)
        ensures
            snapshot_of(r, *self),
    {
        ExecutionStatus {
            id: self.id.clone(),
            state: self.state.name(),
            result: copy_opt(&self.result),
            error: copy_opt(&self.error),
            start_time: self.start_time.clone(),
        }
    }
}

/// The registry of tasks and the marker of the one that is active.
///
/// At most one task is Queued or Running at any time, and the marker names it.
pub struct ExecutionManager {
    executions: Vec<Execution>,
    current: Option<String>,
}

impl ExecutionManager {
    /// The tasks, in the order they were started.
    pub closed spec fn tasks(&self) -> Seq<Execution> {
        self.executions@
    }

    /// The id of the active task, if any.
    pub closed spec fn active(&self) -> Option<Seq<char>> {
        opt_view(self.current)
    }

    /// Some task has the id `id`.
    pub open spec fn has_id(&self, id: Seq<char>) -> bool {
        exists|i: int| 0 <= i < self.tasks().len() && #[trigger] self.tasks()[i].id@ == id
    }

    /// The position of the task with id `id`.
    pub open spec fn pos(&self, id: Seq<char>) -> int {
        choose|i: int| 0 <= i < self.tasks().len() && #[trigger] self.tasks()[i].id@ == id
    }

    /// Some task is Queued or Running.
    pub open spec fn any_active(&self) -> bool {
        exists|i: int| 0 <= i < self.tasks().len() && is_active(#[trigger] self.tasks()[i].state)
    }

    /// Ids are unique, every active task is the marked one, and the marked
    /// task exists and is active.
    pub open spec fn wf(&self) -> bool {
        &&& forall|i: int, j: int|
            0 <= i < self.tasks().len() && 0 <= j < self.tasks().len() && i != j
                ==> #[trigger] self.tasks()[i].id@ != #[trigger] self.tasks()[j].id@
        &&& forall|i: int|
            0 <= i < self.tasks().len() && is_active(#[trigger] self.tasks()[i].state)
                ==> self.active() == Some(self.tasks()[i].id@)
        &&& self.active() is Some ==> self.has_id(self.active()->0) && is_active(
            self.tasks()[self.pos(self.active()->0)].state,
        )
    }

    proof fn lemma_pos(&self, i: int, id: Seq<char>)
        requires
            self.wf(),
            0 <= i < self.tasks().len(),
            self.tasks()[i].id@ == id,
        ensures
            self.has_id(id),
            self.pos(id) == i,
    {
        assert(self.has_id(id));
    }

    /// An empty registry with no active task.
    pub fn new() -> (r: Self)
        ensures
            r.wf(),
            r.tasks().len() == 0,
            r.active() is None,
    {
        ExecutionManager { executions: Vec::new(), current: None }
    }

    fn find_index(&self, id: &String) -> (r: Option<usize>)
        ensures
            r is None <==> !self.has_id(id@),
            r is Some ==> r->0 < self.tasks().len() && self.tasks()[r->0 as int].id@ == id@,
    {
        let mut i: usize = 0;
        while i < self.executions.len()
            invariant
                i <= self.executions@.len(),
                forall|k: int| 0 <= k < i ==> #[trigger] self.executions@[k].id@ != id@,
            decreases self.executions@.len() - i,
        {
            if self.executions[i].id == *id {
                return Some(i);
            }
            i = i + 1;
        }
        assert(!self.has_id(id@)) by {
            if self.has_id(id@) {
                let k = choose|k: int| 0 <= k < self.tasks().len() && #[trigger] self.tasks()[k].id@ == id@;
                assert(self.executions@[k].id@ != id@);
            }
        }
        None
    }

    /// Whether some task is Queued or Running.
    pub fn has_active(&self) -> (r: bool)
        requires
            self.wf(),
        ensures
            r == self.any_active(),
            r == (self.active() is Some),
    {
        proof {
            if self.active() is Some {
                let p = self.pos(self.active()->0);
                assert(is_active(self.tasks()[p].state));
            }
        }
        self.current.is_some()
    }

    /// Starts a task with the id `id`, created at `start_time`.
    ///
    /// The policy is enforced first: a refused policy creates nothing. Then
    /// the start is refused while another task is active, and when `id` is
    /// taken. Otherwise the task is added as Queued and becomes the active one.
    pub fn start_execution_with(
        &mut self,
        id: String,
        start_time: String,
        prompt: String,
        policy: Policy,
    ) -> (r: Result<String, ExecError>)
        requires
            old(self).wf(),
        ensures
            final(self).wf(),
            !admissible(policy) <==> r == Err::<String, ExecError>(
                ExecError::PolicyViolation(refusal_of(policy)),
            ),
            admissible(policy) && old(self).any_active() <==> r == Err::<String, ExecError>(
                ExecError::Conflict,
            ),
            admissible(policy) && !old(self).any_active() && old(self).has_id(id@) <==> r == Err::<
                String,
                ExecError,
            >(ExecError::DuplicateId),
            r is Ok <==> admissible(policy) && !old(self).any_active() && !old(self).has_id(id@),
            r is Err ==> final(self).tasks() == old(self).tasks() && final(self).active() == old(
                self,
            ).active(),
            r is Ok ==> {
                &&& r->Ok_0@ == id@
                &&& final(self).tasks().len() == old(self).tasks().len() + 1
                &&& final(self).tasks().subrange(0, old(self).tasks().len() as int) == old(
                    self,
                ).tasks()
                &&& final(self).tasks().last().id@ == id@
                &&& final(self).tasks().last().prompt@ == prompt@
                &&& final(self).tasks().last().policy == granted(policy)
                &&& final(self).tasks().last().state == ExecutionState::Queued
                &&& final(self).tasks().last().start_time@ == start_time@
                &&& final(self).tasks().last().result is None
                &&& final(self).tasks().last().error is None
                &&& final(self).active() == Some(id@)
            },
    {
        let granted = match enforce_policy(policy) {
            Ok(p) => p,
            Err(e) => {
                return Err(ExecError::PolicyViolation(e));
            },
        };
        if self.has_active() {
            return Err(ExecError::Conflict);
        }
        if self.find_index(&id).is_some() {
            return Err(ExecError::DuplicateId);
        }
        let execution = Execution {
            id: id.clone(),
            prompt,
            policy: granted,
            state: ExecutionState::Queued,
            start_time,
            result: None,
            error: None,
            cancel_token: CancellationToken::new(),
        };
        let ghost before = self.executions@;
        self.executions.push(execution);
        self.current = Some(id.clone());
        proof {
            assert(self.executions@.subrange(0, before.len() as int) =~= before);
            assert forall|i: int|
                0 <= i < self.tasks().len() && is_active(#[trigger] self.tasks()[i].state) implies self.active()
                == Some(self.tasks()[i].id@) by {
                if i < before.len() {
                    assert(is_active(before[i].state));
                    assert(false);
                }
            }
            let last = before.len() as int;
            assert(self.tasks()[last].id@ == id@);
            assert(self.has_id(id@));
            let p = self.pos(id@);
            if p != last {
                assert(before[p].id@ == id@);
                assert(false);
            }
        }
        Ok(id)
    }

    /// Starts a task under a fresh random id, stamped with the current time.
    ///
    /// The start is refused for a policy that asks for networking or
    /// telemetry, and while another task is active; nothing is created then.
    pub fn start_execution(&mut self, prompt: String, policy: Policy) -> (r: Result<String, ExecError>)
        requires
            old(self).wf(),
        ensures
            final(self).wf(),
            !admissible(policy) <==> r == Err::<String, ExecError>(
                ExecError::PolicyViolation(refusal_of(policy)),
            ),
            admissible(policy) && old(self).any_active() <==> r == Err::<String, ExecError>(
                ExecError::Conflict,
            ),
            admissible(policy) && !old(self).any_active() ==> (r is Ok || r == Err::<String, ExecError>(
                ExecError::DuplicateId,
            )),
            admissible(policy) && !old(self).any_active() && old(self).tasks().len() == 0 ==> r is Ok,
            r is Err ==> final(self).tasks() == old(self).tasks() && final(self).active() == old(
                self,
            ).active(),
            r is Ok ==> {
                &&& !old(self).has_id(r->Ok_0@)
                &&& final(self).tasks().len() == old(self).tasks().len() + 1
                &&& final(self).tasks().subrange(0, old(self).tasks().len() as int) == old(
                    self,
                ).tasks()
                &&& final(self).tasks().last().id@ == r->Ok_0@
                &&& final(self).tasks().last().prompt@ == prompt@
                &&& final(self).tasks().last().policy == granted(policy)
                &&& final(self).tasks().last().state == ExecutionState::Queued
                &&& final(self).tasks().last().result is None
                &&& final(self).tasks().last().error is None
                &&& final(self).active() == Some(r->Ok_0@)
            },
    {
        let id = fresh_execution_id();
        let start_time = now_rfc3339();
        self.start_execution_with(id, start_time, prompt, policy)
    }

    /// A snapshot of the task with id `id`, if there is one.
    pub fn get_execution(&self, id: &str) -> (r: Option<ExecutionStatus>)
        requires
            self.wf(),
        ensures
            r is Some <==> self.has_id(id@),
            r is Some ==> snapshot_of(r->0, self.tasks()[self.pos(id@)]),
    {
        let key = id.to_string();
        match self.find_index(&key) {
            Some(i) => {
                proof { self.lemma_pos(i as int, id@); }
                Some(self.executions[i].status())
            },
            None => None,
        }
    }

    /// The state of the task with id `id`, if there is one.
    pub fn state_of(&self, id: &str) -> (r: Option<ExecutionState>)
        requires
            self.wf(),
        ensures
            r is Some <==> self.has_id(id@),
            r is Some ==> r->0 == self.tasks()[self.pos(id@)].state,
    {
        let key = id.to_string();
        match self.find_index(&key) {
            Some(i) => {
                proof { self.lemma_pos(i as int, id@); }
                Some(self.executions[i].state)
            },
            None => None,
        }
    }

    /// A handle on the cancellation signal of the task with id `id`, for the
    /// code that runs it to race against.
    pub fn cancel_handle(&self, id: &str) -> (r: Option<CancellationToken>)
        requires
            self.wf(),
        ensures
            r is Some <==> self.has_id(id@),
            r is Some ==> r->0 == self.tasks()[self.pos(id@)].cancel_token,
    {
        let key = id.to_string();
        match self.find_index(&key) {
            Some(i) => {
                proof { self.lemma_pos(i as int, id@); }
                Some(self.executions[i].cancel_token.clone())
            },
            None => None,
        }
    }

    /// Cancels the task with id `id`, which must be Running.
    ///
    /// On success the task's signal fires, the task becomes Cancelled, the
    /// active marker is cleared, and the snapshot to publish is returned.
    /// Otherwise nothing changes.
    pub fn cancel_execution(&mut self, id: &str) -> (r: Result<ExecutionStatus, ExecError>)
        requires
            old(self).wf(),
        ensures
            final(self).wf(),
            !old(self).has_id(id@) <==> r == Err::<ExecutionStatus, ExecError>(ExecError::NotFound),
            old(self).has_id(id@) && old(self).tasks()[old(self).pos(id@)].state
                != ExecutionState::Running <==> r == Err::<ExecutionStatus, ExecError>(
                ExecError::InvalidState,
            ),
            r is Ok <==> old(self).has_id(id@) && old(self).tasks()[old(self).pos(id@)].state
                == ExecutionState::Running,
            r is Err ==> final(self).tasks() == old(self).tasks() && final(self).active() == old(
                self,
            ).active(),
            r is Ok ==> {
                let p = old(self).pos(id@);
                &&& final(self).tasks() == old(self).tasks().update(
                    p,
                    (Execution { state: ExecutionState::Cancelled, ..old(self).tasks()[p] }),
                )
                &&& final(self).active() is None
                &&& snapshot_of(r->Ok_0, final(self).tasks()[p])
            },
    {
        let key = id.to_string();
        let i = match self.find_index(&key) {
            Some(i) => i,
            None => {
                return Err(ExecError::NotFound);
            },
        };
        proof { self.lemma_pos(i as int, id@); }
        if self.executions[i].state != ExecutionState::Running {
            return Err(ExecError::InvalidState);
        }
        self.executions[i].cancel_token.cancel();
        self.executions[i].state = ExecutionState::Cancelled;
        self.current = None;
        proof {
            assert forall|k: int|
                0 <= k < self.tasks().len() && is_active(#[trigger] self.tasks()[k].state) implies self.active()
                == Some(self.tasks()[k].id@) by {
                if k != i {
                    assert(is_active(old(self).tasks()[k].state));
                    assert(old(self).tasks()[k].id@ != old(self).tasks()[i as int].id@);
                }
            }
        }
        let status = self.executions[i].status();
        Ok(status)
    }

    /// Records the outcome of the task with id `id`: its new state, result
    /// and error.
    ///
    /// Only the moves of the life cycle are applied (Queued to Running,
    /// Running to a final state); any other request, or an unknown id, changes
    /// nothing and yields `None`. A move out of Running clears the active
    /// marker. An applied move yields the snapshot to publish.
    pub fn update_execution(
        &mut self,
        id: &str,
        state: ExecutionState,
        result: Option<String>,
        error: Option<String>,
    ) -> (r: Option<ExecutionStatus>)
        requires
            old(self).wf(),
        ensures
            final(self).wf(),
            r is Some <==> old(self).has_id(id@) && transition_allowed(
                old(self).tasks()[old(self).pos(id@)].state,
                state,
            ),
            r is None ==> final(self).tasks() == old(self).tasks() && final(self).active() == old(
                self,
            ).active(),
            r is Some ==> {
                let p = old(self).pos(id@);
                &&& final(self).tasks() == old(self).tasks().update(
                    p,
                    (Execution { state: state, result: result, error: error, ..old(self).tasks()[p] }),
                )
                &&& final(self).active() == (if state == ExecutionState::Running {
                    old(self).active()
                } else {
                    None
                })
                &&& snapshot_of(r->0, final(self).tasks()[p])
            },
    {
        let key = id.to_string();
        let i = match self.find_index(&key) {
            Some(i) => i,
            None => {
                return None;
            },
        };
        proof { self.lemma_pos(i as int, id@); }
        let from = self.executions[i].state;
        let allowed = match from {
            ExecutionState::Queued => state == ExecutionState::Running,
            ExecutionState::Running => state != ExecutionState::Queued && state
                != ExecutionState::Running,
            _ => false,
        };
        if !allowed {
            return None;
        }
        self.executions[i].state = state;
        self.executions[i].result = result;
        self.executions[i].error = error;
        if state != ExecutionState::Running {
            self.current = None;
        }
        proof {
            assert(old(self).active() == Some(old(self).tasks()[i as int].id@));
            assert forall|k: int|
                0 <= k < self.tasks().len() && is_active(#[trigger] self.tasks()[k].state) implies self.active()
                == Some(self.tasks()[k].id@) by {
                if k != i {
                    assert(is_active(old(self).tasks()[k].state));
                    assert(old(self).tasks()[k].id@ != old(self).tasks()[i as int].id@);
                }
            }
            if self.active() is Some {
                assert(self.tasks()[i as int].id@ == id@);
                assert(self.has_id(id@));
                let p = self.pos(id@);
                if p != i {
                    assert(old(self).tasks()[p].id@ == id@);
                    assert(false);
                }
            }
        }
        let status = self.executions[i].status();
        Some(status)
    }

    /// Single flight: in a well-formed registry at most one task is Queued or
    /// Running, and one is exactly when the active marker is set, so that
    /// every start made while it is set is refused with a conflict.
    pub proof fn lemma_single_flight(&self)
        requires
            self.wf(),
        ensures
            forall|i: int, j: int|
                0 <= i < self.tasks().len() && 0 <= j < self.tasks().len() && is_active(
                    #[trigger] self.tasks()[i].state,
                ) && is_active(#[trigger] self.tasks()[j].state) ==> i == j,
            self.any_active() <==> self.active() is Some,
    {
        if self.active() is Some {
            let p = self.pos(self.active()->0);
            assert(is_active(self.tasks()[p].state));
        }
    }
}

} // verus!
