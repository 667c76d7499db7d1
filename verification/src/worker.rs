//! The render engine's core: a render job steps through a queue snapshot
//! one command at a time, yielding one progress message per processed
//! command and exactly one terminal message. The surrounding execution
//! context (a thread and its channels) lives outside; everything it
//! decides and reports is computed and proved here.
//!
//! One request is in flight at a time: the engine keeps no queue of
//! pending requests, and the caller submits a new render only after
//! observing the previous request's terminal message.

use vstd::prelude::*;
use crate::error::ErrorKind;
use crate::queue::{CommandQueue, FilterCommand, exec_rel, no_enabled_jpeg, valid_cmds};
use crate::raster::Image;

verus! {

/// One message from the engine to its caller.
///
/// - `Progress(n)`: `n` commands of the running render are processed
///   (disabled ones count: the total equals the queue length).
/// - `Finished(img)`: the terminal message of a successful request.
/// - `Error(kind)`: the terminal message of a failed request.
#[derive(Debug)]
pub enum WorkerResult {
    Progress(usize),
    Finished(Image),
    Error(ErrorKind),
}

/// A running render over an owned queue snapshot: later mutation of the
/// source queue cannot affect it. `cur` holds the image after `pos`
/// processed commands, and becomes `None` once the terminal message has
/// been yielded.
pub struct RenderJob {
    pub cmds: Vec<FilterCommand>,
    pub cur: Option<Image>,
    pub pos: usize,
    pub base: Ghost<Image>,
}

impl RenderJob {
    /// The job's invariant: the position is inside the snapshot, the
    /// running image is well-formed, and finishing the remaining
    /// commands from it yields an outcome of the whole queue over the
    /// base image.
    pub open spec fn wf(self) -> bool {
        &&& valid_cmds(self.cmds@)
        &&& self.pos <= self.cmds@.len()
        &&& (self.cur matches Some(c) ==> c.wf())
        &&& (self.cur matches Some(c) ==> forall|out: Option<Image>|
            exec_rel(self.cmds@.skip(self.pos as int), c, out) ==> exec_rel(
                self.cmds@,
                self.base@,
                out,
            ))
    }

    /// Whether the terminal message has been yielded.
    pub open spec fn done(self) -> bool {
        self.cur is None
    }

    /// Whether the terminal message has been yielded.
    pub fn done_exec(&self) -> (r: bool)
        ensures
            r == self.done(),
    {
        self.cur.is_none()
    }

    /// Start a render over a snapshot of the queue and an owned image.
    pub fn new(queue: &CommandQueue, img: Image) -> (r: Self)
        requires
            queue.wf(),
            img.wf(),
        ensures
            r.wf(),
            !r.done(),
            r.cmds@ == queue@,
            r.pos == 0,
            r.base@ == img,
            r.cur == Some(img),
    {
        let cmds = queue.queue.clone();
        assert(cmds@ =~= queue@);
        let r = RenderJob { cmds, cur: Some(img), pos: 0, base: Ghost(img) };
        proof {
            assert(r.cmds@.skip(0) =~= r.cmds@);
        }
        r
    }

    /// Process one command, or yield the terminal message; `None` once
    /// the job is done.
    pub fn step(&mut self) -> (r: Option<WorkerResult>)
        requires
            old(self).wf(),
        ensures
            final(self).wf(),
            final(self).cmds@ == old(self).cmds@,
            final(self).base@ == old(self).base@,
            match r {
                None => old(self).done() && *final(self) == *old(self),
                Some(msg) => !old(self).done() && match msg {
                    WorkerResult::Progress(p) => {
                        &&& old(self).pos < old(self).cmds@.len()
                        &&& p == old(self).pos + 1
                        &&& final(self).pos == old(self).pos + 1
                        &&& !final(self).done()
                    },
                    WorkerResult::Finished(o) => {
                        &&& old(self).pos == old(self).cmds@.len()
                        &&& o.wf()
                        &&& exec_rel(old(self).cmds@, old(self).base@, Some(o))
                        &&& final(self).done()
                        &&& final(self).pos == old(self).pos
                    },
                    WorkerResult::Error(e) => {
                        &&& old(self).pos < old(self).cmds@.len()
                        &&& e == ErrorKind::FilterError
                        &&& exec_rel(old(self).cmds@, old(self).base@, None)
                        &&& !no_enabled_jpeg(old(self).cmds@)
                        &&& final(self).done()
                        &&& final(self).pos == old(self).pos
                    },
                },
            },
    {
        let taken = self.cur.take();
        match taken {
            None => None,
            Some(img0) => {
                let ghost cmds = self.cmds@;
                let ghost pos = self.pos as int;
                if self.pos < self.cmds.len() {
                    let c = self.cmds[self.pos];
                    proof {
                        assert(cmds.skip(pos)[0] == cmds[pos]);
                        assert(cmds.skip(pos).drop_first() =~= cmds.skip(pos + 1));
                    }
                    match c.execute(img0) {
                        Ok(o) => {
                            proof {
                                assert forall|out: Option<Image>|
                                    exec_rel(cmds.skip(pos + 1), o, out) implies exec_rel(
                                    cmds,
                                    self.base@,
                                    out,
                                ) by {
                                    assert(exec_rel(cmds.skip(pos), img0, out));
                                }
                            }
                            self.cur = Some(o);
                            self.pos = self.pos + 1;
                            Some(WorkerResult::Progress(self.pos))
                        },
                        Err(e) => {
                            proof {
                                assert(exec_rel(cmds.skip(pos), img0, None));
                                assert(!no_enabled_jpeg(cmds));
                            }
                            Some(WorkerResult::Error(e))
                        },
                    }
                } else {
                    proof {
                        assert(cmds.skip(pos) =~= Seq::<FilterCommand>::empty());
                        assert(exec_rel(cmds.skip(pos), img0, Some(img0)));
                    }
                    Some(WorkerResult::Finished(img0))
                }
            },
        }
    }
}

/// Run a whole render and collect its messages in order: one
/// `Progress(i)` per processed command, then exactly one terminal
/// message. On success the message list is `Progress(1)` through
/// `Progress(n)` followed by `Finished`; a failure at a command cuts the
/// progress short and ends in `Error` instead. A queue with no enabled
/// JPEG compression always succeeds.
pub fn run_render(queue: &CommandQueue, img: Image) -> (msgs: Vec<WorkerResult>)
    requires
        queue.wf(),
        img.wf(),
    ensures
        msgs@.len() >= 1,
        forall|i: int| 0 <= i < msgs@.len() - 1 ==> msgs@[i] == WorkerResult::Progress((i + 1) as usize),
        match msgs@.last() {
            WorkerResult::Progress(_) => false,
            WorkerResult::Finished(o) => {
                &&& msgs@.len() == queue@.len() + 1
                &&& o.wf()
                &&& exec_rel(queue@, img, Some(o))
            },
            WorkerResult::Error(e) => {
                &&& e == ErrorKind::FilterError
                &&& msgs@.len() <= queue@.len()
                &&& exec_rel(queue@, img, None)
            },
        },
        no_enabled_jpeg(queue@) ==> msgs@.last() is Finished,
{
    let mut job = RenderJob::new(queue, img);
    let mut msgs: Vec<WorkerResult> = Vec::new();
    let n = job.cmds.len();
    while !job.done_exec()
        invariant
            job.wf(),
            job.cmds@ == queue@,
            job.base@ == img,
            n == queue@.len(),
            !job.done() ==> msgs@.len() == job.pos,
            !job.done() ==> forall|i: int| 0 <= i < msgs@.len() ==> msgs@[i]
                == WorkerResult::Progress((i + 1) as usize),
            job.done() ==> ({
                &&& msgs@.len() >= 1
                &&& forall|i: int| 0 <= i < msgs@.len() - 1 ==> msgs@[i] == WorkerResult::Progress(
                    (i + 1) as usize,
                )
                &&& match msgs@.last() {
                    WorkerResult::Progress(_) => false,
                    WorkerResult::Finished(o) => {
                        &&& msgs@.len() == queue@.len() + 1
                        &&& o.wf()
                        &&& exec_rel(queue@, img, Some(o))
                    },
                    WorkerResult::Error(e) => {
                        &&& e == ErrorKind::FilterError
                        &&& msgs@.len() <= queue@.len()
                        &&& exec_rel(queue@, img, None)
                    },
                }
                &&& (no_enabled_jpeg(queue@) ==> msgs@.last() is Finished)
            }),
        decreases job.cmds@.len() - job.pos + (if job.done() {
            0int
        } else {
            1int
        }),
    {
        match job.step() {
            Some(msg) => {
                msgs.push(msg);
            },
            None => {
            },
        }
    }
    msgs
}

} // verus!
