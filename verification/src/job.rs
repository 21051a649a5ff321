//! The pollable job handle behind the foreign interface.
//!
//! One update run is wrapped as a background job. The process spawns a
//! worker for the run and keeps, beside the worker's handle, a state value
//! of type [`UpdatePoll`]: `Running` until the worker's done flag is
//! observed, then `Complete` with the worker's result, then `Drained` once
//! the result has been taken. The decisions of the poll, status and result
//! calls are made here; the caller only performs the join, the channel read
//! and the pointer bookkeeping.

use vstd::prelude::*;

use crate::download::DownloadProgress;
use crate::dstore::DownloadedPdsc;
use crate::error::UpdateError;

verus! {

/// The list of materialized descriptor paths handed across the foreign
/// interface; consumers pop paths off its end one by one.
#[derive(Debug)]
pub struct UpdateReturn(pub Vec<String>);

impl UpdateReturn {
    /// The paths, newest-pushed last.
    pub open spec fn view(self) -> Seq<String> {
        self.0@
    }

    /// Wraps an already-built list of paths.
    pub fn from_vec(inner: Vec<String>) -> (r: UpdateReturn)
        ensures
            r@ == inner@,
    {
        UpdateReturn(inner)
    }

    /// The paths of the rows a finished run materialized, in order.
    pub fn from_inserted(frm: Vec<DownloadedPdsc>) -> (r: UpdateReturn)
        ensures
            r@.len() == frm@.len(),
            forall|i: int| 0 <= i < frm@.len() ==> (#[trigger] r@[i])@ == frm@[i].path@,
    {
        let n = frm.len();
        let mut out: Vec<String> = Vec::new();
        let mut rest = frm;
        let mut k: usize = 0;
        let ghost orig = rest@;
        while rest.len() > 0
            invariant
                n == orig.len(),
                k + rest@.len() == orig.len(),
                rest@ == orig.subrange(k as int, orig.len() as int),
                out@.len() == k,
                forall|i: int| 0 <= i < k ==> (#[trigger] out@[i])@ == orig[i].path@,
            decreases rest@.len(),
        {
            let d = rest.remove(0);
            proof {
                assert(d == orig[k as int]) by {
                    assert(orig.subrange(k as int, orig.len() as int)[0] == orig[k as int]);
                }
                assert(rest@ =~= orig.subrange(k + 1, orig.len() as int));
            }
            out.push(d.into_pathbuf());
            k = k + 1;
        }
        UpdateReturn(out)
    }

    /// Read access for callers that walk the list without consuming it.
    pub fn iter(&self) -> (r: &Vec<String>)
        ensures
            r@ == self@,
    {
        &self.0
    }

    /// Appends a path, as the foreign push call does.
    pub fn push(&mut self, path: String)
        ensures
            final(self)@ == old(self)@.push(path),
    {
        self.0.push(path);
    }

    /// Destructively pops from the end, as the foreign next call does;
    /// `None` signals exhaustion.
    pub fn pop(&mut self) -> (r: Option<String>)
        ensures
            old(self)@.len() == 0 ==> r is None && final(self)@ == old(self)@,
            old(self)@.len() > 0 ==> r == Some(old(self)@.last()) && final(self)@ == old(
                self,
            )@.drop_last(),
    {
        self.0.pop()
    }
}

/// One progress report in the shape the foreign interface hands out: the
/// announcement of the file count (`is_size`, with `size` the count), or
/// the completion of one file.
pub struct DownloadUpdate {
    pub is_size: bool,
    pub size: usize,
}

#[verifier::external_type_specification]
#[verifier::external_body]
#[verifier::reject_recursive_types(T)]
pub struct ExSender<T>(std::sync::mpsc::Sender<T>);

/// Relies on std's mpsc `Sender::send`: it never blocks, and fails only
/// when the receiver is gone — progress reports are fire-and-forget, as
/// the run must not stall or abort when nobody listens.
#[verifier::external_body]
fn send_update(s: &std::sync::mpsc::Sender<DownloadUpdate>, u: DownloadUpdate) {
    let _ = s.send(u);
}

/// Relies on std's mpsc `Sender::clone`: a clone feeds the same receiver.
#[verifier::external_body]
fn clone_sender(s: &std::sync::mpsc::Sender<DownloadUpdate>) -> std::sync::mpsc::Sender<
    DownloadUpdate,
> {
    s.clone()
}

/// The worker's end of the progress channel: each report the pipeline
/// fires is sent to whoever polls the job for status.
pub struct DownloadSender(pub std::sync::mpsc::Sender<DownloadUpdate>);

impl DownloadSender {
    /// Wraps the sending end of the channel the job hands its reports to.
    pub fn from_sender(from: std::sync::mpsc::Sender<DownloadUpdate>) -> DownloadSender {
        DownloadSender(from)
    }
}

impl DownloadProgress for DownloadSender {
    fn size(&self, files: usize) {
        send_update(&self.0, DownloadUpdate { is_size: true, size: files });
    }

    fn progress(&self, _bytes: usize) {
    }

    fn complete(&self) {
        send_update(&self.0, DownloadUpdate { is_size: false, size: 0 });
    }

    fn for_file(&self, _file: &str) -> Self {
        DownloadSender(clone_sender(&self.0))
    }
}

/// Where one job stands. `Running` is left at most once, `Complete` is
/// entered at most once, and `Drained` is terminal.
pub enum UpdatePoll {
    /// The worker has not been observed done yet.
    Running,
    /// The worker has been joined; its result is waiting to be taken.
    Complete(Result<UpdateReturn, UpdateError>),
    /// The result has been taken; nothing more will come.
    Drained,
}

impl UpdatePoll {
    /// Whether the state is still `Running`; only then may the caller read
    /// the done flag and the status channel.
    pub fn is_running(&self) -> (r: bool)
        ensures
            r == (self is Running),
    {
        match self {
            UpdatePoll::Running => true,
            _ => false,
        }
    }

    /// The poll decision. `done` is the worker's done flag as just
    /// observed; `joined` is the worker's result, which the caller must
    /// obtain (by joining the worker, a crash becoming `WorkerPanic`)
    /// exactly when a running job's flag is set. Returns what poll reports
    /// — `true` once the job is no longer running — and the next state.
    pub fn poll_transition(self, done: bool, joined: Option<Result<UpdateReturn, UpdateError>>)
        -> (r: (bool, UpdatePoll))
        requires
            (self is Running && done) <==> joined is Some,
        ensures
            match self {
                UpdatePoll::Running => {
                    if done {
                        &&& r.0 == true
                        &&& match joined {
                            Some(res) => r.1 == UpdatePoll::Complete(res),
                            None => false,
                        }
                    } else {
                        r.0 == false && r.1 is Running
                    }
                },
                UpdatePoll::Complete(res) => r.0 == true && r.1 == UpdatePoll::Complete(res),
                UpdatePoll::Drained => r.0 == true && r.1 is Drained,
            },
    {
        match self {
            UpdatePoll::Running => {
                if done {
                    match joined {
                        Some(res) => (true, UpdatePoll::Complete(res)),
                        None => vstd::pervasive::unreached(),
                    }
                } else {
                    (false, UpdatePoll::Running)
                }
            },
            UpdatePoll::Complete(res) => (true, UpdatePoll::Complete(res)),
            UpdatePoll::Drained => (true, UpdatePoll::Drained),
        }
    }

    /// The result decision: a `Complete` job gives up its result and
    /// drains; any other state gives nothing and stays. The result is
    /// therefore handed out at most once.
    pub fn take_result(self) -> (r: (Option<Result<UpdateReturn, UpdateError>>, UpdatePoll))
        ensures
            match self {
                UpdatePoll::Running => r.0 is None && r.1 is Running,
                UpdatePoll::Complete(res) => r.0 == Some(res) && r.1 is Drained,
                UpdatePoll::Drained => r.0 is None && r.1 is Drained,
            },
    {
        match self {
            UpdatePoll::Running => (None, UpdatePoll::Running),
            UpdatePoll::Complete(res) => (Some(res), UpdatePoll::Drained),
            UpdatePoll::Drained => (None, UpdatePoll::Drained),
        }
    }

    /// The status decision: only a running job reads the progress channel;
    /// a complete or drained one hands out nothing.
    pub fn can_poll_status(&self) -> (r: bool)
        ensures
            r == (self is Running),
    {
        self.is_running()
    }
}

/// One observable step of the job handle: staying put (polls and status
/// reads that change nothing), the one join that completes a running job,
/// or the one take that drains a complete job. These are exactly the
/// transitions the operations above allow.
pub open spec fn job_step(s1: UpdatePoll, s2: UpdatePoll) -> bool {
    ||| s1 == s2
    ||| (s1 is Running && s2 is Complete)
    ||| (s1 is Complete && s2 is Drained)
}

/// Once a job has left `Running`, it never runs again.
pub proof fn lemma_job_never_reruns(t: Seq<UpdatePoll>, i: int, j: int)
    requires
        forall|k: int| 0 <= k < t.len() - 1 ==> #[trigger] job_step(t[k], t[k + 1]),
        0 <= i <= j < t.len(),
        !(t[i] is Running),
    ensures
        !(t[j] is Running),
    decreases j - i,
{
    if i < j {
        assert(job_step(t[i], t[i + 1]));
        lemma_job_never_reruns(t, i + 1, j);
    }
}

/// Once a job is `Drained`, it stays `Drained`.
pub proof fn lemma_drained_is_terminal(t: Seq<UpdatePoll>, i: int, j: int)
    requires
        forall|k: int| 0 <= k < t.len() - 1 ==> #[trigger] job_step(t[k], t[k + 1]),
        0 <= i <= j < t.len(),
        t[i] is Drained,
    ensures
        t[j] is Drained,
    decreases j - i,
{
    if i < j {
        assert(job_step(t[i], t[i + 1]));
        lemma_drained_is_terminal(t, i + 1, j);
    }
}

/// A job completes at most once: after the step that enters `Complete`,
/// no later step enters it anew — anything `Complete` later was already
/// `Complete` the moment before.
pub proof fn lemma_complete_at_most_once(t: Seq<UpdatePoll>, i: int, j: int)
    requires
        forall|k: int| 0 <= k < t.len() - 1 ==> #[trigger] job_step(t[k], t[k + 1]),
        0 <= i < j < t.len() - 1,
        !(t[i] is Complete),
        t[i + 1] is Complete,
    ensures
        t[j + 1] is Complete ==> t[j] is Complete,
{
    assert(job_step(t[i], t[i + 1]));
    assert(t[i] is Running);
    lemma_job_never_reruns(t, i + 1, j);
    assert(job_step(t[j], t[j + 1]));
}

/// The result is taken at most once: after the step that drains the job,
/// it is never `Complete` again, so no later step can hand a result out.
pub proof fn lemma_result_taken_at_most_once(t: Seq<UpdatePoll>, i: int, j: int)
    requires
        forall|k: int| 0 <= k < t.len() - 1 ==> #[trigger] job_step(t[k], t[k + 1]),
        0 <= i < j < t.len(),
        t[i] is Complete,
        t[i + 1] is Drained,
    ensures
        !(t[j] is Complete),
{
    lemma_drained_is_terminal(t, i + 1, j);
}

} // verus!
