//! The decisions of the background worker loop. The loop itself, which
//! sleeps and runs the transcription engine, lives with the application.
use vstd::prelude::*;
use crate::queue::{completed, failed_once, lemma_task_index_of, task_has_id, task_index_of, BackgroundTask, QueueError, TaskQueue, TaskStatus};
use crate::records::{has_id, index_of, RecordStore, Transcription, TranscriptionStatus};

verus! {

/// What the recorder is doing.
#[derive(PartialEq, Eq, Structural, Clone, Copy, Debug)]
pub enum RecordingState {
    Idle,
    Recording,
    Processing,
}

/// What the worker does next.
#[derive(PartialEq, Eq, Structural, Clone, Copy, Debug)]
pub enum WorkerAction {
    /// Leave the loop.
    Stop,
    /// Sleep this many seconds, then decide again.
    Wait { seconds: u64 },
    /// Claim the next task.
    Claim,
}

/// Seconds to wait while the queue is paused.
pub const PAUSED_WAIT_SECS: u64 = 1;
/// Seconds to wait while a recording is under way.
pub const RECORDING_WAIT_SECS: u64 = 2;
/// Seconds to wait when there was nothing to claim.
pub const IDLE_WAIT_SECS: u64 = 5;

/// The worker's next step: stop once stopped; wait while paused or while
/// the recorder is busy; claim otherwise.
pub fn next_worker_action(running: bool, paused: bool, recording: RecordingState) -> (r: WorkerAction)
    ensures
        !running ==> r == WorkerAction::Stop,
        running && paused ==> r == (WorkerAction::Wait { seconds: PAUSED_WAIT_SECS }),
        running && !paused && recording != RecordingState::Idle ==> r == (WorkerAction::Wait {
            seconds: RECORDING_WAIT_SECS,
        }),
        running && !paused && recording == RecordingState::Idle ==> r == WorkerAction::Claim,
{
    if !running {
        WorkerAction::Stop
    } else if paused {
        WorkerAction::Wait { seconds: PAUSED_WAIT_SECS }
    } else if recording != RecordingState::Idle {
        WorkerAction::Wait { seconds: RECORDING_WAIT_SECS }
    } else {
        WorkerAction::Claim
    }
}

/// The worker's step after a claim: work on the task it got, or wait.
pub fn after_claim(claimed: &Option<BackgroundTask>) -> (r: WorkerAction)
    ensures
        claimed is Some ==> r == WorkerAction::Claim,
        claimed is None ==> r == (WorkerAction::Wait { seconds: IDLE_WAIT_SECS }),
{
    match claimed {
        Some(_) => WorkerAction::Claim,
        None => WorkerAction::Wait { seconds: IDLE_WAIT_SECS },
    }
}

/// Records how the execution of task `task_id` ended: with the produced
/// text, the task is completed and its record made complete in one step;
/// with an error, the task is retried or failed. The task's new status is
/// returned.
pub fn finish_task(
    queue: &mut TaskQueue,
    records: &mut RecordStore,
    task_id: &str,
    outcome: Result<String, String>,
    now: i64,
) -> (r: Result<TaskStatus, QueueError>)
    requires
        old(queue).wf(),
        old(records).wf(),
    ensures
        final(queue).wf(),
        final(records).wf(),
        r is Ok <==> task_has_id(old(queue)@, task_id@),
        r is Err ==> r == Err::<TaskStatus, QueueError>(QueueError::TaskNotFound) && final(queue)@
            == old(queue)@ && final(records)@ == old(records)@,
        r is Ok ==> {
            let k = task_index_of(old(queue)@, task_id@);
            let tid = old(queue)@[k].transcription_id@;
            &&& outcome is Ok ==> r == Ok::<TaskStatus, QueueError>(TaskStatus::Completed)
                && final(queue)@ == old(queue)@.update(k, completed(old(queue)@[k], now))
            &&& outcome matches Ok(text) ==> (has_id(old(records)@, tid) ==> final(records)@
                == old(records)@.update(
                index_of(old(records)@, tid),
                Transcription {
                    status: TranscriptionStatus::Complete,
                    transcription_text: Some(text),
                    transcribed_at: Some(now),
                    error_message: None,
                    ..old(records)@[index_of(old(records)@, tid)]
                },
            ))
            &&& outcome is Ok && !has_id(old(records)@, tid) ==> final(records)@ == old(records)@
            &&& outcome matches Err(e) ==> final(queue)@ == old(queue)@.update(
                k,
                failed_once(old(queue)@[k], e),
            ) && final(records)@ == old(records)@ && r == Ok::<TaskStatus, QueueError>(
                final(queue)@[k].status,
            )
        },
{
    proof {
        lemma_task_index_of(queue@, task_id@);
    }
    match outcome {
        Ok(text) => match queue.complete_task(records, task_id, text, now) {
            Ok(()) => Ok(TaskStatus::Completed),
            Err(e) => Err(e),
        },
        Err(e) => queue.record_failure(task_id, e),
    }
}

} // verus!
