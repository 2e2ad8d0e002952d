//! The queue of background loading jobs, served by priority.

use vstd::prelude::*;

verus! {

/// A loading job: its priority and the number under which its work is kept.
#[derive(Clone, Copy, Debug)]
pub struct Job {
    pub priority: i32,
    pub id: u64,
}

impl PartialEq for Job {
    fn eq(&self, other: &Job) -> (r: bool) {
        self.priority == other.priority
    }
}

impl vstd::std_specs::cmp::PartialEqSpecImpl for Job {
    open spec fn obeys_eq_spec() -> bool {
        true
    }

    open spec fn eq_spec(&self, other: &Job) -> bool {
        self.priority == other.priority
    }
}

impl Eq for Job {

}

impl PartialOrd for Job {
    fn partial_cmp(&self, other: &Job) -> (r: Option<core::cmp::Ordering>) {
        if self.priority < other.priority {
            Some(core::cmp::Ordering::Less)
        } else if self.priority > other.priority {
            Some(core::cmp::Ordering::Greater)
        } else {
            Some(core::cmp::Ordering::Equal)
        }
    }
}

impl vstd::std_specs::cmp::PartialOrdSpecImpl for Job {
    open spec fn obeys_partial_cmp_spec() -> bool {
        true
    }

    open spec fn partial_cmp_spec(&self, other: &Job) -> Option<core::cmp::Ordering> {
        if self.priority < other.priority {
            Some(core::cmp::Ordering::Less)
        } else if self.priority > other.priority {
            Some(core::cmp::Ordering::Greater)
        } else {
            Some(core::cmp::Ordering::Equal)
        }
    }
}

impl Job {
    /// Orders jobs by priority alone.
    pub fn cmp(&self, other: &Job) -> (r: core::cmp::Ordering)
        ensures
            (r == core::cmp::Ordering::Less) == (self.priority < other.priority),
            (r == core::cmp::Ordering::Greater) == (self.priority > other.priority),
            (r == core::cmp::Ordering::Equal) == (self.priority == other.priority),
    {
        if self.priority < other.priority {
            core::cmp::Ordering::Less
        } else if self.priority > other.priority {
            core::cmp::Ordering::Greater
        } else {
            core::cmp::Ordering::Equal
        }
    }
}

/// Pending loading jobs; the one with the highest priority is served first.
#[derive(Debug)]
pub struct AssetManager {
    queue: Vec<Job>,
}

impl View for AssetManager {
    type V = Seq<Job>;

    closed spec fn view(&self) -> Seq<Job> {
        self.queue@
    }
}

impl AssetManager {
    /// A manager with no pending job.
    pub fn new() -> (r: Self)
        ensures
            r@ == Seq::<Job>::empty(),
    {
        AssetManager { queue: Vec::new() }
    }

    /// The number of pending jobs.
    pub fn len(&self) -> (r: usize)
        ensures
            r == self@.len(),
    {
        self.queue.len()
    }

    /// Adds a pending job.
    pub fn push(&mut self, job: Job)
        ensures
            final(self)@ == old(self)@.push(job),
    {
        self.queue.push(job);
    }

    /// Takes out a pending job of the highest priority; `None` if none is pending.
    pub fn pop(&mut self) -> (r: Option<Job>)
        ensures
            r is None <==> old(self)@.len() == 0,
            r is None ==> final(self)@ == old(self)@,
            r is Some ==> exists|i: int|
                0 <= i < old(self)@.len() && old(self)@[i] == r->0 && final(self)@ == old(
                    self,
                )@.remove(i),
            r is Some ==> forall|j: int|
                0 <= j < old(self)@.len() ==> #[trigger] old(self)@[j].priority <= r->0.priority,
    {
        if self.queue.len() == 0 {
            return None;
        }
        let mut best: usize = 0;
        let mut i: usize = 1;
        while i < self.queue.len()
            invariant
                self@ == old(self)@,
                0 < self@.len(),
                best < i <= self@.len(),
                forall|j: int| 0 <= j < i ==> #[trigger] self@[j].priority <= self@[best as int].priority,
            decreases self@.len() - i,
        {
            if self.queue[i].priority > self.queue[best].priority {
                best = i;
            }
            i += 1;
        }
        let job = self.queue.remove(best);
        Some(job)
    }
}

} // verus!
