use audeye::dsp::{next_worker_state, AsyncDspData, AsyncDspDataState, JobAction};

use AsyncDspDataState::{Created, Failed, Finished, Normalizing, Processing};

/// The states that a worker announces, one after the other, when the work
/// it does in the states of `failing` does not succeed.
fn announcements(normalize: bool, failing: &[AsyncDspDataState]) -> Vec<AsyncDspDataState> {
    let mut announced = Vec::new();
    let mut state = Created;
    while !state.is_final() {
        state = next_worker_state(state, normalize, !failing.contains(&state));
        announced.push(state);
    }
    announced
}

/// The states that an owner is seen in when it polls after each
/// announcement.
fn observed(announced: &[AsyncDspDataState]) -> Vec<AsyncDspDataState> {
    let mut job: AsyncDspData<u32> = AsyncDspData::new();
    let mut states = vec![job.state()];
    for state in announced {
        let (changed, _) = job.update_status(&[*state]);
        assert!(changed);
        states.push(job.state());
    }
    states
}

#[test]
fn job_without_normalization_is_created_processing_finished() {
    let announced = announcements(false, &[]);
    assert_eq!(announced, vec![Processing, Finished]);
    assert_eq!(observed(&announced), vec![Created, Processing, Finished]);
}

#[test]
fn job_with_normalization_is_created_normalizing_processing_finished() {
    let announced = announcements(true, &[]);
    assert_eq!(announced, vec![Normalizing, Processing, Finished]);
    assert_eq!(observed(&announced), vec![Created, Normalizing, Processing, Finished]);
}

#[test]
fn failure_ends_the_job() {
    assert_eq!(announcements(true, &[Normalizing]), vec![Normalizing, Failed]);
    assert_eq!(announcements(true, &[Processing]), vec![Normalizing, Processing, Failed]);
    assert_eq!(announcements(false, &[Processing]), vec![Processing, Failed]);
    assert_eq!(announcements(false, &[Normalizing]), vec![Processing, Finished]);
    assert_eq!(next_worker_state(Failed, true, true), Failed);
    assert_eq!(next_worker_state(Finished, false, false), Finished);
}

#[test]
fn new_job_is_created_and_empty() {
    let mut job: AsyncDspData<String> = AsyncDspData::new();
    assert_eq!(job.state(), Created);
    assert!(job.data().is_none());
    assert_eq!(job.update_status(&[]), (false, JobAction::Wait));
    assert_eq!(job.state(), Created);
}

#[test]
fn poll_drains_every_pending_announcement_in_order() {
    let mut job: AsyncDspData<u32> = AsyncDspData::new();
    assert_eq!(job.update_status(&[Normalizing, Processing]), (true, JobAction::Wait));
    assert_eq!(job.state(), Processing);
    assert_eq!(job.update_status(&[]), (false, JobAction::Wait));
    assert_eq!(job.update_status(&[Finished]), (true, JobAction::Collect));
    assert_eq!(job.state(), Finished);

    let mut at_once: AsyncDspData<u32> = AsyncDspData::new();
    assert_eq!(
        at_once.update_status(&[Normalizing, Processing, Finished]),
        (true, JobAction::Collect)
    );
    assert_eq!(at_once.state(), Finished);
}

#[test]
fn terminal_state_absorbs_what_follows() {
    let mut job: AsyncDspData<u32> = AsyncDspData::new();
    assert_eq!(job.update_status(&[Processing, Failed, Finished]), (true, JobAction::Abort));
    assert_eq!(job.state(), Failed);
    assert_eq!(job.update_status(&[Processing]), (false, JobAction::Wait));
    assert_eq!(job.state(), Failed);

    let mut done: AsyncDspData<u32> = AsyncDspData::new();
    assert_eq!(done.update_status(&[Finished, Processing]), (true, JobAction::Collect));
    assert_eq!(done.update_status(&[Failed]), (false, JobAction::Wait));
    assert_eq!(done.state(), Finished);
}

#[test]
fn finished_job_takes_the_value_of_its_worker() {
    let mut job: AsyncDspData<Vec<u8>> = AsyncDspData::new();
    let (_, action) = job.update_status(&[Processing, Finished]);
    assert_eq!(action, JobAction::Collect);
    assert!(job.data().is_none());
    job.load_results(vec![1, 2, 3]);
    assert_eq!(job.state(), Finished);
    assert_eq!(job.data().map(|data| data.len()), Some(3));
    job.data().unwrap().push(4);
    assert_eq!(job.data(), Some(&mut vec![1, 2, 3, 4]));
    assert_eq!(job.update_status(&[Processing]), (false, JobAction::Wait));
    assert_eq!(job.data(), Some(&mut vec![1, 2, 3, 4]));
}

#[test]
fn batching_does_not_change_the_outcome() {
    let announced = [Normalizing, Processing, Finished, Failed];
    for split in 0..=announced.len() {
        let mut job: AsyncDspData<u32> = AsyncDspData::new();
        job.update_status(&announced[..split]);
        job.update_status(&announced[split..]);
        assert_eq!(job.state(), Finished);
    }
}
