//! The download worker: how it works through the queue of selected models
//! and what it reports while doing so.

use vstd::prelude::*;
use crate::model::Model;
use crate::transfer::{run_model, run_post, ModelRun};
use crate::tui::DownloadEvent;

verus! {

/// How many of `runs` ended with the model downloaded.
pub open spec fn successes(runs: Seq<ModelRun>) -> nat
    decreases runs.len(),
{
    if runs.len() == 0 {
        0
    } else {
        successes(runs.drop_last()) + if runs.last().success {
            1nat
        } else {
            0nat
        }
    }
}

/// How the worker got through its queue.
pub struct QueueRun {
    /// What became of each model it took, in the order taken.
    pub runs: Vec<ModelRun>,
    /// The events it reported, in the order reported.
    pub events: Vec<DownloadEvent>,
    /// Models downloaded.
    pub completed: usize,
    /// Models that ended failed.
    pub failed: usize,
    /// Whether it stopped before the end of the queue because cancellation
    /// was requested.
    pub cancelled: bool,
}

/// The model taken `k`-th (counted from 0) from a queue worked from its
/// end.
pub open spec fn taken(queue: Seq<(usize, Model)>, k: int) -> Model {
    queue[queue.len() - 1 - k].1
}

/// What `run_queue` guarantees: the models are taken from the end of the
/// queue; each one taken is reported by a start and then by exactly one
/// finish carrying its outcome; the last report is the summary, whose
/// counts are the models downloaded and the models failed; every model is
/// taken unless cancellation stops the worker early.
pub open spec fn queue_post(queue: Seq<(usize, Model)>, worker_id: usize, r: QueueRun) -> bool {
    let n = r.runs@.len() as int;
    &&& n <= queue.len()
    &&& n < queue.len() ==> r.cancelled
    &&& r.events@.len() == 2 * n + 1
    &&& forall|k: int|
        #![trigger r.runs@[k]]
        0 <= k < n ==> {
            &&& run_post(r.runs@[k])
            &&& r.events@[2 * k] matches DownloadEvent::Start { worker_id: w, filename } && w == worker_id
                && filename@ == taken(queue, k).filename@
            &&& r.events@[2 * k + 1] matches DownloadEvent::ModelFinished {
                worker_id: w,
                filename,
                success,
                error_msg,
            } && w == worker_id && filename@ == taken(queue, k).filename@ && success == r.runs@[k].success
                && error_msg == r.runs@[k].error
        }
    &&& r.events@[2 * n] matches DownloadEvent::AllComplete { completed, failed } && completed
        == r.completed && failed == r.failed
    &&& r.completed == successes(r.runs@)
    &&& r.completed + r.failed == n
}

fn clone_error(e: &Option<String>) -> (r: Option<String>)
    ensures
        r == *e,
{
    match e {
        Some(s) => Some(s.clone()),
        None => None,
    }
}

/// Works through `queue` from its end, as the download worker does: takes
/// the last model; stops if cancellation was requested (dropping that
/// model); otherwise reports its start, runs its attempts (`run_model`,
/// `download` being called with the model's position in the queue and the
/// attempt number), and reports its finish with the outcome. At the end it
/// reports the summary of models downloaded and failed. Each report goes to
/// `report` and is kept, in order, in the result.
pub fn run_queue<D, C, W, S>(
    queue: Vec<(usize, Model)>,
    worker_id: usize,
    download: &D,
    cancelled: &C,
    wait: &W,
    report: &S,
) -> (r: QueueRun) where
    D: Fn(usize, u64) -> Result<(), String>,
    C: Fn() -> bool,
    W: Fn(u64),
    S: Fn(DownloadEvent),

    requires
        forall|p: usize, a: u64| download.requires((p, a)),
        cancelled.requires(()),
        forall|secs: u64| wait.requires((secs,)),
        forall|e: DownloadEvent| report.requires((e,)),
    ensures
        queue_post(queue@, worker_id, r),
        r.cancelled ==> cancelled.ensures((), true),
        forall|k: int, j: int|
            0 <= k < r.runs@.len() && 0 <= j < r.runs@[k].results@.len() ==> download.ensures(
                ((queue@.len() - 1 - k) as usize, (j + 1) as u64),
                #[trigger] r.runs@[k].results@[j],
            ),
{
    let ghost q = queue@;
    let total = queue.len();
    let mut rest = queue;
    let mut runs: Vec<ModelRun> = Vec::new();
    let mut events: Vec<DownloadEvent> = Vec::new();
    let mut completed: usize = 0;
    let mut failed: usize = 0;
    let mut stop = false;
    while rest.len() > 0 && !stop
        invariant
            forall|p: usize, a: u64| download.requires((p, a)),
            cancelled.requires(()),
            forall|secs: u64| wait.requires((secs,)),
            forall|e: DownloadEvent| report.requires((e,)),
            total == q.len(),
            runs@.len() <= q.len(),
            !stop ==> rest@ == q.take(q.len() - runs@.len()),
            stop ==> runs@.len() < q.len(),
            events@.len() == 2 * runs@.len(),
            forall|k: int|
                #![trigger runs@[k]]
                0 <= k < runs@.len() ==> {
                    &&& run_post(runs@[k])
                    &&& events@[2 * k] matches DownloadEvent::Start { worker_id: w, filename } && w
                        == worker_id && filename@ == taken(q, k).filename@
                    &&& events@[2 * k + 1] matches DownloadEvent::ModelFinished {
                        worker_id: w,
                        filename,
                        success,
                        error_msg,
                    } && w == worker_id && filename@ == taken(q, k).filename@ && success
                        == runs@[k].success && error_msg == runs@[k].error
                },
            completed == successes(runs@),
            completed + failed == runs@.len(),
            stop ==> cancelled.ensures((), true),
            forall|k: int, j: int|
                0 <= k < runs@.len() && 0 <= j < runs@[k].results@.len() ==> download.ensures(
                    ((q.len() - 1 - k) as usize, (j + 1) as u64),
                    #[trigger] runs@[k].results@[j],
                ),
        decreases rest@.len(),
    {
        let ghost k = runs@.len() as int;
        let item = rest.pop();
        match item {
            Some((_index, m)) => {
                assert(m == taken(q, k));
                let pos = rest.len();
                let asked = cancelled();
                if asked {
                    stop = true;
                } else {
                    report(DownloadEvent::Start { worker_id, filename: m.filename.clone() });
                    events.push(DownloadEvent::Start { worker_id, filename: m.filename.clone() });
                    let attempt_call = |a: u64| -> (res: Result<(), String>)
                        requires
                            download.requires((pos, a)),
                        ensures
                            download.ensures((pos, a), res),
                        { download(pos, a) };
                    let run = run_model(&attempt_call, cancelled, wait);
                    report(
                        DownloadEvent::ModelFinished {
                            worker_id,
                            filename: m.filename.clone(),
                            success: run.success,
                            error_msg: clone_error(&run.error),
                        },
                    );
                    events.push(
                        DownloadEvent::ModelFinished {
                            worker_id,
                            filename: m.filename.clone(),
                            success: run.success,
                            error_msg: clone_error(&run.error),
                        },
                    );
                    if run.success {
                        completed = completed + 1;
                    } else {
                        failed = failed + 1;
                    }
                    let ghost before = runs@;
                    let ghost this_run = run;
                    assert forall|j: int| 0 <= j < this_run.results@.len() implies download.ensures(
                        ((q.len() - 1 - k) as usize, (j + 1) as u64),
                        #[trigger] this_run.results@[j],
                    ) by {
                        assert(attempt_call.ensures(((j + 1) as u64,), this_run.results@[j]));
                    }
                    runs.push(run);
                    assert(runs@.drop_last() =~= before);
                    assert forall|kk: int, j: int|
                        0 <= kk < runs@.len() && 0 <= j < runs@[kk].results@.len() implies download.ensures(
                        ((q.len() - 1 - kk) as usize, (j + 1) as u64),
                        #[trigger] runs@[kk].results@[j],
                    ) by {
                        if kk < before.len() {
                            assert(runs@[kk] == before[kk]);
                        } else {
                            assert(runs@[kk] == this_run);
                        }
                    }
                    assert(rest@ =~= q.take(q.len() - runs@.len()));
                }
            },
            None => {
                stop = true;
            },
        }
    }
    report(DownloadEvent::AllComplete { completed, failed });
    events.push(DownloadEvent::AllComplete { completed, failed });
    QueueRun { runs, events, completed, failed, cancelled: stop }
}

} // verus!
