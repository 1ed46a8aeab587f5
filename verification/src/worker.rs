//! The verified model of the worker pool: a fixed worker count, the shared
//! task queue, and the termination protocol.  The connection layer wraps
//! the model in a lock, spawns the threads, and runs each worker's loop:
//! draw the next entry, run a job, exit on the termination signal.

use vstd::prelude::*;

verus! {

/// The error of asking for a pool with no workers.
#[derive(Debug)]
pub struct PoolCreationErr;

/// One entry of the task queue: a job for the next idle worker, or the
/// signal that tells one worker to exit.
pub enum PoolMessage<J> {
    NewJob(J),
    Terminate,
}

/// The jobs among the queue entries, in queue order.
pub open spec fn spec_jobs_of<J>(q: Seq<PoolMessage<J>>) -> Seq<J>
    decreases q.len(),
{
    if q.len() == 0 {
        Seq::empty()
    } else {
        let rest = spec_jobs_of(q.drop_first());
        match q[0] {
            PoolMessage::NewJob(j) => seq![j] + rest,
            PoolMessage::Terminate => rest,
        }
    }
}

/// Appending one entry appends its job, if it carries one.
proof fn lemma_jobs_of_push<J>(q: Seq<PoolMessage<J>>, m: PoolMessage<J>)
    ensures
        spec_jobs_of(q.push(m)) == match m {
            PoolMessage::NewJob(j) => spec_jobs_of(q) + seq![j],
            PoolMessage::Terminate => spec_jobs_of(q),
        },
    decreases q.len(),
{
    if q.len() == 0 {
        let qq = q.push(m);
        assert(qq.len() == 1);
        assert(qq[0] == m);
        assert(qq.drop_first() =~= Seq::<PoolMessage<J>>::empty());
        assert(spec_jobs_of(qq.drop_first()) =~= Seq::<J>::empty());
        match m {
            PoolMessage::NewJob(j) => {
                assert(qq[0] == PoolMessage::NewJob(j));
                assert(spec_jobs_of(qq) == seq![j] + spec_jobs_of(qq.drop_first()));
                assert(spec_jobs_of(qq) =~= spec_jobs_of(q) + seq![j]);
            },
            PoolMessage::Terminate => {
                assert(spec_jobs_of(qq) =~= spec_jobs_of(q));
            },
        }
    } else {
        assert(q.push(m).drop_first() =~= q.drop_first().push(m));
        lemma_jobs_of_push(q.drop_first(), m);
        assert(q.push(m)[0] == q[0]);
        match q[0] {
            PoolMessage::NewJob(j0) => {
                match m {
                    PoolMessage::NewJob(j) => {
                        assert(spec_jobs_of(q.push(m)) =~= spec_jobs_of(q) + seq![j]);
                    },
                    PoolMessage::Terminate => {
                        assert(spec_jobs_of(q.push(m)) =~= spec_jobs_of(q));
                    },
                }
            },
            PoolMessage::Terminate => {},
        }
    }
}

/// The pool model: how many workers share the queue, what the queue
/// holds, and ghost records of every job submitted and every job drawn.
pub struct ThreadPool<J> {
    size: usize,
    queue: Vec<PoolMessage<J>>,
    submitted: Ghost<Seq<J>>,
    drawn: Ghost<Seq<J>>,
}

impl<J> ThreadPool<J> {
    /// The number of workers the pool was made with.
    pub closed spec fn spec_size(&self) -> usize {
        self.size
    }

    /// The queue contents, oldest first.
    pub closed spec fn spec_queue(&self) -> Seq<PoolMessage<J>> {
        self.queue@
    }

    /// Every job ever submitted, in submission order.
    pub closed spec fn spec_submitted(&self) -> Seq<J> {
        self.submitted@
    }

    /// Every job ever drawn by a worker, in draw order.
    pub closed spec fn spec_drawn(&self) -> Seq<J> {
        self.drawn@
    }

    /// The submitted jobs are exactly the drawn jobs followed by the jobs
    /// still queued: nothing is lost, duplicated or invented.
    pub open spec fn wf(&self) -> bool {
        self.spec_submitted() == self.spec_drawn() + spec_jobs_of(self.spec_queue())
    }

    /// A pool of `size` workers; `size == 0` is refused and creates
    /// nothing.
    pub fn new(size: usize) -> (r: Result<ThreadPool<J>, PoolCreationErr>)
        ensures
            size == 0 <==> r is Err,
            r matches Ok(p) ==> {
                &&& p.wf()
                &&& p.spec_size() == size
                &&& p.spec_queue() == Seq::<PoolMessage<J>>::empty()
                &&& p.spec_submitted() == Seq::<J>::empty()
                &&& p.spec_drawn() == Seq::<J>::empty()
            },
    {
        if size == 0 {
            return Err(PoolCreationErr);
        }
        let p = ThreadPool {
            size,
            queue: Vec::new(),
            submitted: Ghost(Seq::empty()),
            drawn: Ghost(Seq::empty()),
        };
        proof {
            assert(p.spec_submitted() =~= p.spec_drawn() + spec_jobs_of(p.spec_queue()));
        }
        Ok(p)
    }

    /// The number of workers.
    pub fn size(&self) -> (r: usize)
        ensures
            r == self.spec_size(),
    {
        self.size
    }

    /// How many entries wait in the queue.
    pub fn queue_len(&self) -> (r: usize)
        ensures
            r == self.spec_queue().len(),
    {
        self.queue.len()
    }

    /// Enqueue a job for whichever worker next becomes idle.
    pub fn execute(&mut self, job: J)
        requires
            old(self).wf(),
        ensures
            final(self).wf(),
            final(self).spec_queue() == old(self).spec_queue().push(PoolMessage::NewJob(job)),
            final(self).spec_submitted() == old(self).spec_submitted().push(job),
            final(self).spec_drawn() == old(self).spec_drawn(),
            final(self).spec_size() == old(self).spec_size(),
    {
        let ghost j = job;
        proof {
            lemma_jobs_of_push(self.queue@, PoolMessage::NewJob(j));
        }
        self.queue.push(PoolMessage::NewJob(job));
        proof {
            self.submitted@ = self.submitted@.push(j);
            assert(self.spec_submitted() =~= self.spec_drawn() + spec_jobs_of(self.spec_queue()));
        }
    }

    /// Draw the next queue entry: the front of the queue, removed, or
    /// nothing when the queue is idle.
    pub fn next_message(&mut self) -> (r: Option<PoolMessage<J>>)
        requires
            old(self).wf(),
        ensures
            final(self).wf(),
            final(self).spec_size() == old(self).spec_size(),
            final(self).spec_submitted() == old(self).spec_submitted(),
            match r {
                None => {
                    &&& old(self).spec_queue().len() == 0
                    &&& final(self).spec_queue() == old(self).spec_queue()
                    &&& final(self).spec_drawn() == old(self).spec_drawn()
                },
                Some(m) => {
                    &&& old(self).spec_queue().len() > 0
                    &&& m == old(self).spec_queue()[0]
                    &&& final(self).spec_queue() == old(self).spec_queue().drop_first()
                    &&& final(self).spec_drawn() == match m {
                        PoolMessage::NewJob(j) => old(self).spec_drawn().push(j),
                        PoolMessage::Terminate => old(self).spec_drawn(),
                    }
                },
            },
    {
        if self.queue.len() == 0 {
            return None;
        }
        let m = self.queue.remove(0);
        proof {
            assert(old(self).spec_queue().subrange(1, old(self).spec_queue().len() as int)
                =~= old(self).spec_queue().drop_first());
        }
        match &m {
            PoolMessage::NewJob(j) => {
                proof {
                    self.drawn@ = self.drawn@.push(*j);
                    assert(self.spec_submitted() =~= self.spec_drawn() + spec_jobs_of(
                        self.spec_queue(),
                    ));
                }
            },
            PoolMessage::Terminate => {
                proof {
                    assert(self.spec_submitted() =~= self.spec_drawn() + spec_jobs_of(
                        self.spec_queue(),
                    ));
                }
            },
        }
        Some(m)
    }

    /// Queue one termination signal per worker; a worker that draws one
    /// exits, so after all are drawn the pool's threads can be joined.
    pub fn shutdown(&mut self)
        requires
            old(self).wf(),
        ensures
            final(self).wf(),
            final(self).spec_size() == old(self).spec_size(),
            final(self).spec_submitted() == old(self).spec_submitted(),
            final(self).spec_drawn() == old(self).spec_drawn(),
            final(self).spec_queue() == old(self).spec_queue() + Seq::new(
                old(self).spec_size() as nat,
                |i: int| PoolMessage::Terminate,
            ),
    {
        let n = self.size;
        let mut i: usize = 0;
        proof {
            assert(self.spec_queue() =~= old(self).spec_queue() + Seq::new(
                0,
                |k: int| PoolMessage::<J>::Terminate,
            ));
        }
        while i < n
            invariant
                n == self.spec_size(),
                0 <= i <= n,
                self.wf(),
                self.spec_size() == old(self).spec_size(),
                self.spec_submitted() == old(self).spec_submitted(),
                self.spec_drawn() == old(self).spec_drawn(),
                self.spec_queue() == old(self).spec_queue() + Seq::new(
                    i as nat,
                    |k: int| PoolMessage::<J>::Terminate,
                ),
            decreases n - i,
        {
            proof {
                lemma_jobs_of_push(self.queue@, PoolMessage::<J>::Terminate);
            }
            self.queue.push(PoolMessage::Terminate);
            proof {
                assert(self.spec_queue() =~= old(self).spec_queue() + Seq::new(
                    (i + 1) as nat,
                    |k: int| PoolMessage::<J>::Terminate,
                ));
            }
            i += 1;
        }
    }
}

/// Law: what the workers have drawn is always a prefix of what was
/// submitted, in submission order: no job is drawn twice or invented.
pub proof fn lemma_drawn_prefix<J>(p: &ThreadPool<J>)
    requires
        p.wf(),
    ensures
        p.spec_drawn().len() <= p.spec_submitted().len(),
        p.spec_drawn() == p.spec_submitted().take(p.spec_drawn().len() as int),
{
    assert(p.spec_drawn() =~= p.spec_submitted().take(p.spec_drawn().len() as int));
}

/// Law: once the queue holds no more jobs, every submitted job has been
/// drawn exactly once, in submission order.
pub proof fn lemma_drained<J>(p: &ThreadPool<J>)
    requires
        p.wf(),
        spec_jobs_of(p.spec_queue()).len() == 0,
    ensures
        p.spec_drawn() == p.spec_submitted(),
{
    assert(p.spec_drawn() =~= p.spec_submitted());
}

} // verus!
