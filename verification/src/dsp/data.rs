//! Errors of the transforms, and the state machine of a background job.
//!
//! A job runs on a worker that announces each state it enters. The owner
//! polls: it hands every pending announcement to [`AsyncDspData::update_status`]
//! and performs the [`JobAction`] that comes back.

use vstd::prelude::*;
use vstd::string::StringExecFns;

verus! {

/// An error of a transform, with the message to show.
#[derive(Debug)]
pub struct DspErr {
    msg: String,
}

impl View for DspErr {
    type V = Seq<char>;

    closed spec fn view(&self) -> Seq<char> {
        self.msg@
    }
}

impl DspErr {
    /// An error that carries `msg`.
    pub fn new(msg: &str) -> (err: Self)
        ensures
            err@ == msg@,
    {
        Self { msg: String::from_str(msg) }
    }

    /// The message of the error.
    pub fn message(&self) -> (msg: String)
        ensures
            msg@ == self@,
    {
        self.msg.clone()
    }
}

/// Where a job stands.
#[derive(Debug, Clone, Copy, PartialEq, Eq, Structural)]
pub enum AsyncDspDataState {
    Created,
    Normalizing,
    Processing,
    Failed,
    Finished,
}

impl AsyncDspDataState {
    /// Whether no other state can follow this one.
    pub open spec fn is_terminal(self) -> bool {
        self is Failed || self is Finished
    }

    /// Whether no other state can follow this one.
    pub fn is_final(&self) -> (terminal: bool)
        ensures
            terminal == self.is_terminal(),
    {
        match self {
            AsyncDspDataState::Failed | AsyncDspDataState::Finished => true,
            _ => false,
        }
    }
}

/// What the owner of a job has to do after a poll.
#[derive(Debug, Clone, Copy, PartialEq, Eq, Structural)]
pub enum JobAction {
    /// Nothing: poll again later.
    Wait,
    /// The worker has finished: take its value and hand it to
    /// [`AsyncDspData::load_results`].
    Collect,
    /// The worker has failed: surface its error.
    Abort,
}

/// The state a job is in after the announcements `pending` were applied in
/// order to `state`. A terminal state absorbs whatever follows it.
pub open spec fn drained(state: AsyncDspDataState, pending: Seq<AsyncDspDataState>)
    -> AsyncDspDataState
    decreases pending.len(),
{
    if pending.len() == 0 || state.is_terminal() {
        state
    } else {
        drained(pending[0], pending.skip(1))
    }
}

/// The action owed once a poll has brought a job to `state`.
pub open spec fn action_for(changed: bool, state: AsyncDspDataState) -> JobAction {
    if !changed {
        JobAction::Wait
    } else {
        match state {
            AsyncDspDataState::Finished => JobAction::Collect,
            AsyncDspDataState::Failed => JobAction::Abort,
            _ => JobAction::Wait,
        }
    }
}

/// The state a worker announces after `current`: normalization comes first
/// where it was asked for, the transform follows, and a step that did not
/// succeed ends the job as failed.
pub open spec fn worker_successor(current: AsyncDspDataState, normalize: bool, succeeded: bool)
    -> AsyncDspDataState {
    match current {
        AsyncDspDataState::Created => if normalize {
            AsyncDspDataState::Normalizing
        } else {
            AsyncDspDataState::Processing
        },
        AsyncDspDataState::Normalizing => if succeeded {
            AsyncDspDataState::Processing
        } else {
            AsyncDspDataState::Failed
        },
        AsyncDspDataState::Processing => if succeeded {
            AsyncDspDataState::Finished
        } else {
            AsyncDspDataState::Failed
        },
        AsyncDspDataState::Failed => AsyncDspDataState::Failed,
        AsyncDspDataState::Finished => AsyncDspDataState::Finished,
    }
}

/// Every state that a worker announces when each of its steps succeeds.
pub open spec fn successful_trace(normalize: bool) -> Seq<AsyncDspDataState> {
    if normalize {
        seq![
            AsyncDspDataState::Normalizing,
            AsyncDspDataState::Processing,
            AsyncDspDataState::Finished,
        ]
    } else {
        seq![AsyncDspDataState::Processing, AsyncDspDataState::Finished]
    }
}

/// The state that a worker announces next.
///
/// `current` is the state it announced last (`Created` before the first
/// announcement) and `succeeded` tells whether the work it did in that state
/// went through. In `Normalizing` that work is the normalization pass, in
/// `Processing` the transform.
pub fn next_worker_state(current: AsyncDspDataState, normalize: bool, succeeded: bool) -> (next:
    AsyncDspDataState)
    ensures
        next == worker_successor(current, normalize, succeeded),
{
    match current {
        AsyncDspDataState::Created => if normalize {
            AsyncDspDataState::Normalizing
        } else {
            AsyncDspDataState::Processing
        },
        AsyncDspDataState::Normalizing | AsyncDspDataState::Processing => if !succeeded {
            AsyncDspDataState::Failed
        } else if current == AsyncDspDataState::Normalizing {
            AsyncDspDataState::Processing
        } else {
            AsyncDspDataState::Finished
        },
        AsyncDspDataState::Failed => AsyncDspDataState::Failed,
        AsyncDspDataState::Finished => AsyncDspDataState::Finished,
    }
}

/// The owner's side of a background job: the last state it has seen and,
/// once the job has finished, the value the worker produced.
pub struct AsyncDspData<T> {
    state: AsyncDspDataState,
    data: Option<T>,
}

impl<T> AsyncDspData<T> {
    /// The last state that the owner has seen.
    pub closed spec fn spec_state(&self) -> AsyncDspDataState {
        self.state
    }

    /// The value of the finished job, once it was collected.
    pub closed spec fn spec_data(&self) -> Option<T> {
        self.data
    }

    /// A value is held only by a finished job.
    pub open spec fn wf(&self) -> bool {
        self.spec_data() is Some ==> self.spec_state() is Finished
    }

    /// The owner's side of a job that was just started.
    pub fn new() -> (job: Self)
        ensures
            job.wf(),
            job.spec_state() is Created,
            job.spec_data() is None,
    {
        Self { state: AsyncDspDataState::Created, data: None }
    }

    /// Applies every pending announcement, in the order given, and tells
    /// whether any of them was applied and what the owner has to do now.
    ///
    /// Announcements that follow a terminal state are ignored.
    pub fn update_status(&mut self, pending: &[AsyncDspDataState]) -> (report: (bool, JobAction))
        requires
            old(self).wf(),
        ensures
            final(self).wf(),
            final(self).spec_state() == drained(old(self).spec_state(), pending@),
            final(self).spec_data() == old(self).spec_data(),
            report.0 <==> !old(self).spec_state().is_terminal() && pending@.len() > 0,
            report.1 == action_for(report.0, final(self).spec_state()),
    {
        let mut update_needed = false;
        let mut i: usize = 0;
        proof {
            assert(pending@.skip(0) =~= pending@);
        }
        while i < pending.len() && !self.state.is_final()
            invariant
                i <= pending.len(),
                self.wf(),
                i == 0 ==> self.spec_state() == old(self).spec_state(),
                self.spec_data() == old(self).spec_data(),
                drained(self.spec_state(), pending@.skip(i as int)) == drained(
                    old(self).spec_state(),
                    pending@,
                ),
                update_needed <==> i > 0,
                i > 0 ==> !old(self).spec_state().is_terminal(),
            decreases pending.len() - i,
        {
            proof {
                assert(pending@.skip(i as int).skip(1) =~= pending@.skip(i as int + 1));
            }
            self.state = pending[i];
            update_needed = true;
            i += 1;
        }
        let action = if !update_needed {
            JobAction::Wait
        } else {
            match self.state {
                AsyncDspDataState::Finished => JobAction::Collect,
                AsyncDspDataState::Failed => JobAction::Abort,
                _ => JobAction::Wait,
            }
        };
        (update_needed, action)
    }

    /// The last state that the owner has seen.
    pub fn state(&mut self) -> (state: AsyncDspDataState)
        ensures
            state == old(self).spec_state(),
            *final(self) == *old(self),
    {
        self.state
    }

    /// The value of the finished job, if it was collected.
    pub fn data(&mut self) -> (data: Option<&mut T>)
        ensures
            old(self).spec_data() is None ==> data is None && *final(self) == *old(self),
            old(self).spec_data() matches Some(value) ==> data is Some && *data.unwrap() == value
                && final(self).spec_data() == Some(*final(data.unwrap()))
                && final(self).spec_state() == old(self).spec_state(),
    {
        self.data.as_mut()
    }

    /// Takes over the value that the worker of a finished job produced.
    pub fn load_results(&mut self, value: T)
        requires
            old(self).spec_state() is Finished,
            old(self).spec_data() is None,
        ensures
            final(self).wf(),
            final(self).spec_state() is Finished,
            final(self).spec_data() == Some(value),
    {
        self.data = Some(value);
    }
}

/// However the announcements of a worker are split over two polls, the owner
/// ends in the state that one poll with all of them gives.
pub proof fn lemma_batching_is_invisible(
    state: AsyncDspDataState,
    first: Seq<AsyncDspDataState>,
    second: Seq<AsyncDspDataState>,
)
    ensures
        drained(drained(state, first), second) == drained(state, first + second),
    decreases first.len(),
{
    if first.len() == 0 {
        assert(first + second =~= second);
        if state.is_terminal() {
            lemma_terminal_absorbs(state, second);
        }
    } else if state.is_terminal() {
        lemma_terminal_absorbs(state, second);
    } else {
        assert((first + second).skip(1) =~= first.skip(1) + second);
        lemma_batching_is_invisible(first[0], first.skip(1), second);
    }
}

/// A terminal state stays whatever is announced after it.
pub proof fn lemma_terminal_absorbs(state: AsyncDspDataState, pending: Seq<AsyncDspDataState>)
    requires
        state.is_terminal(),
    ensures
        drained(state, pending) == state,
{
}

/// A job whose every step succeeds is seen to pass through the states of
/// [`successful_trace`] one after the other, each being the worker's successor
/// of the one before, and to end finished: after the first `seen`
/// announcements the owner is in the state announced last.
pub proof fn lemma_successful_job_is_observed_in_order(normalize: bool, seen: int)
    requires
        0 < seen <= successful_trace(normalize).len(),
    ensures
        drained(AsyncDspDataState::Created, successful_trace(normalize).take(seen))
            == successful_trace(normalize)[seen - 1],
        successful_trace(normalize)[seen - 1] == worker_successor(
            if seen == 1 {
                AsyncDspDataState::Created
            } else {
                successful_trace(normalize)[seen - 2]
            },
            normalize,
            true,
        ),
        successful_trace(normalize).last() is Finished,
{
    let trace = successful_trace(normalize);
    let prefix = trace.take(seen);
    reveal_with_fuel(drained, 5);
    assert(prefix.len() == seen);
    assert(prefix[0] == trace[0]);
    assert(prefix.skip(1).len() == seen - 1);
    if seen >= 2 {
        assert(prefix.skip(1)[0] == trace[1]);
        assert(prefix.skip(1).skip(1).len() == seen - 2);
        if seen >= 3 {
            assert(prefix.skip(1).skip(1)[0] == trace[2]);
            assert(prefix.skip(1).skip(1).skip(1).len() == 0);
        }
    }
}

} // verus!
