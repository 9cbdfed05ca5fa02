//! The crawl frontier: a stack of pending URLs plus the set of URLs
//! already handed out for processing, and the bounded pool of fetch
//! slots.  A URL is marked visited at the moment it is popped for
//! processing, so re-discovering a URL that is done or in flight is a
//! no-op, and no URL is ever processed twice.

use vstd::prelude::*;
use vstd::set_lib::lemma_len_subset;

use crate::text::lemma_contains_push;
use crate::text::vec_contains_string;

verus! {

/// The frontier's pending stack and visited set.  The ghost `enqueued`
/// sequence records every URL that was ever placed on the stack (the
/// seed and each discovered link), so that the at-most-once law can be
/// stated against everything the crawl has seen.
pub struct Frontier {
    queue: Vec<String>,
    visited: Vec<String>,
    enqueued: Ghost<Seq<Seq<char>>>,
}

impl Frontier {
    /// The URLs already dequeued for processing, in processing order.
    pub closed spec fn visited_urls(&self) -> Seq<Seq<char>> {
        self.visited.deep_view()
    }

    /// The pending URLs; the one to process next is last.
    pub closed spec fn pending_urls(&self) -> Seq<Seq<char>> {
        self.queue.deep_view()
    }

    /// Every URL ever enqueued.
    pub closed spec fn enqueued_urls(&self) -> Seq<Seq<char>> {
        self.enqueued@
    }

    /// No URL is recorded visited twice, and nothing is visited or
    /// pending that was never enqueued.
    pub closed spec fn wf(&self) -> bool {
        &&& self.visited_urls().no_duplicates()
        &&& forall|i: int|
            0 <= i < self.visited_urls().len() ==> self.enqueued_urls().contains(
                self.visited_urls()[i],
            )
        &&& forall|i: int|
            0 <= i < self.pending_urls().len() ==> self.enqueued_urls().contains(
                self.pending_urls()[i],
            )
    }

    /// A fresh frontier holding only the seed URL.
    pub fn new(seed: String) -> (f: Frontier)
        ensures
            f.wf(),
            f.visited_urls() == Seq::<Seq<char>>::empty(),
            f.pending_urls() == seq![seed@],
            f.enqueued_urls() == seq![seed@],
    {
        let ghost e = seq![seed@];
        let mut queue: Vec<String> = Vec::new();
        queue.push(seed);
        let f = Frontier { queue, visited: Vec::new(), enqueued: Ghost(e) };
        proof {
            assert(f.pending_urls() =~= e);
            assert(f.visited_urls() =~= Seq::<Seq<char>>::empty());
        }
        f
    }

    /// Pops pending URLs until one not yet visited appears, marks it
    /// visited at that very moment, and hands it out.  The stack order
    /// is fixed: the URL handed out is the most recently pushed pending
    /// one after a suffix of already-visited entries is discarded, and
    /// exactly the prefix before it stays pending.  Yields nothing once
    /// everything pending was already visited, which empties the stack
    /// and ends the crawl.
    pub fn pop_next(&mut self) -> (r: Option<String>)
        requires
            old(self).wf(),
        ensures
            final(self).wf(),
            final(self).enqueued_urls() == old(self).enqueued_urls(),
            (match r {
                Some(u) => {
                    &&& !old(self).visited_urls().contains(u@)
                    &&& final(self).pending_urls().len() < old(self).pending_urls().len()
                    &&& u@ == old(self).pending_urls()[final(self).pending_urls().len() as int]
                    &&& final(self).pending_urls() == old(self).pending_urls().take(
                        final(self).pending_urls().len() as int,
                    )
                    &&& forall|j: int|
                        final(self).pending_urls().len() < j < old(self).pending_urls().len()
                            ==> old(self).visited_urls().contains(old(self).pending_urls()[j])
                    &&& final(self).visited_urls() == old(self).visited_urls().push(u@)
                },
                None => {
                    &&& final(self).visited_urls() == old(self).visited_urls()
                    &&& final(self).pending_urls() == Seq::<Seq<char>>::empty()
                    &&& forall|i: int|
                        0 <= i < old(self).pending_urls().len() ==> old(
                            self,
                        ).visited_urls().contains(old(self).pending_urls()[i])
                },
            }),
    {
        let ghost orig = *self;
        proof {
            assert(orig.pending_urls().take(orig.pending_urls().len() as int) =~= orig.pending_urls());
        }
        loop
            invariant
                orig == *old(self),
                self.wf(),
                self.visited_urls() == orig.visited_urls(),
                self.enqueued_urls() == orig.enqueued_urls(),
                self.pending_urls().len() <= orig.pending_urls().len(),
                self.pending_urls() == orig.pending_urls().take(self.pending_urls().len() as int),
                forall|j: int|
                    self.pending_urls().len() <= j < orig.pending_urls().len() ==> orig.visited_urls().contains(
                        orig.pending_urls()[j],
                    ),
                orig.wf(),
            decreases self.pending_urls().len(),
        {
            let ghost before = *self;
            match self.queue.pop() {
                None => {
                    proof {
                        assert(self.pending_urls() =~= Seq::<Seq<char>>::empty());
                    }
                    return None;
                },
                Some(u) => {
                    proof {
                        let bp = before.pending_urls();
                        let k = bp.len() as int - 1;
                        assert(bp == orig.pending_urls().take(bp.len() as int));
                        assert(bp.last() == u@);
                        assert(orig.pending_urls().take(bp.len() as int)[k] == orig.pending_urls()[k]);
                        assert(orig.pending_urls()[k] == u@);
                        assert(self.pending_urls() =~= bp.drop_last());
                        assert(self.pending_urls().len() == k);
                        assert(self.pending_urls() =~= orig.pending_urls().take(k));
                        assert(orig.pending_urls().contains(u@));
                    }
                    if vec_contains_string(&self.visited, &u) {
                    } else {
                        let ghost old_visited = self.visited_urls();
                        self.visited.push(u.clone());
                        proof {
                            assert(self.visited_urls() =~= old_visited.push(u@));
                            assert(orig.pending_urls().contains(u@));
                            assert(self.visited_urls().no_duplicates()) by {
                                assert(forall|i: int|
                                    0 <= i < old_visited.len() ==> self.visited_urls()[i]
                                        == old_visited[i]);
                                assert(!old_visited.contains(u@));
                            }
                        }
                        return Some(u);
                    }
                },
            }
        }
    }

    /// Pushes a discovered URL unless it was already visited; tells
    /// whether it was pushed.  A URL merely pending may be pushed again;
    /// the visited check at pop time keeps it from being processed
    /// twice.
    pub fn push_if_unvisited(&mut self, url: String) -> (pushed: bool)
        requires
            old(self).wf(),
        ensures
            final(self).wf(),
            pushed == !old(self).visited_urls().contains(url@),
            final(self).visited_urls() == old(self).visited_urls(),
            (if pushed {
                &&& final(self).pending_urls() == old(self).pending_urls().push(url@)
                &&& final(self).enqueued_urls() == old(self).enqueued_urls().push(url@)
            } else {
                &&& final(self).pending_urls() == old(self).pending_urls()
                &&& final(self).enqueued_urls() == old(self).enqueued_urls()
            }),
    {
        if vec_contains_string(&self.visited, &url) {
            false
        } else {
            let ghost old_pending = self.pending_urls();
            let ghost old_enqueued = self.enqueued_urls();
            proof {
                self.enqueued@ = self.enqueued@.push(url@);
            }
            self.queue.push(url);
            proof {
                assert(self.pending_urls() =~= old_pending.push(url@));
                assert(self.enqueued_urls() == old_enqueued.push(url@));
                assert forall|i: int|
                    0 <= i < self.visited_urls().len() implies self.enqueued_urls().contains(
                    self.visited_urls()[i],
                ) by {
                    lemma_contains_push(old_enqueued, url@, self.visited_urls()[i]);
                }
                assert forall|i: int|
                    0 <= i < self.pending_urls().len() implies self.enqueued_urls().contains(
                    self.pending_urls()[i],
                ) by {
                    if i < old_pending.len() {
                        assert(self.pending_urls()[i] == old_pending[i]);
                        lemma_contains_push(old_enqueued, url@, old_pending[i]);
                    } else {
                        assert(self.pending_urls()[i] == url@);
                        assert(self.enqueued_urls().last() == url@);
                    }
                }
            }
            true
        }
    }
}

/// Law: every URL is processed at most once.  The visited set never
/// holds a URL twice, so its cardinality equals the number of URLs
/// handed out and never exceeds the number of distinct URLs ever
/// enqueued.
pub proof fn lemma_visited_at_most_once(f: &Frontier)
    requires
        f.wf(),
    ensures
        f.visited_urls().no_duplicates(),
        f.visited_urls().to_set().len() == f.visited_urls().len(),
        f.visited_urls().to_set().len() <= f.enqueued_urls().to_set().len(),
{
    broadcast use vstd::seq_lib::group_seq_lib_default;

    f.visited_urls().unique_seq_to_set();
    assert(f.visited_urls().to_set() <= f.enqueued_urls().to_set()) by {
        assert forall|u: Seq<char>| f.visited_urls().to_set().contains(u) implies f.enqueued_urls(
        ).to_set().contains(u) by {
            assert(f.visited_urls().contains(u));
            let i = choose|i: int| 0 <= i < f.visited_urls().len() && f.visited_urls()[i] == u;
            assert(f.enqueued_urls().contains(u));
        }
    }
    lemma_len_subset(f.visited_urls().to_set(), f.enqueued_urls().to_set());
}

/// The bounded pool of fetch slots: the counting-semaphore state the
/// crawl controller holds a permit from around each fetch-and-extract
/// cycle.  Its well-formedness is the concurrency-cap law: the slots in
/// use never exceed the cap.
pub struct ConnectionPool {
    active: usize,
    limit: usize,
}

impl ConnectionPool {
    /// How many fetch-and-extract cycles hold a slot right now.
    pub closed spec fn active_count(&self) -> int {
        self.active as int
    }

    /// The configured cap on concurrently in-flight cycles.
    pub closed spec fn limit(&self) -> int {
        self.limit as int
    }

    /// Law: at no point are more cycles in flight than the cap allows.
    pub closed spec fn wf(&self) -> bool {
        self.active_count() <= self.limit()
    }

    /// A fresh pool with every slot free.
    pub fn new(limit: usize) -> (p: ConnectionPool)
        ensures
            p.wf(),
            p.active_count() == 0,
            p.limit() == limit,
    {
        ConnectionPool { active: 0, limit }
    }

    /// Takes a slot when one is free; tells whether one was taken.  A
    /// caller that gets `false` must wait for a release before fetching.
    pub fn try_acquire(&mut self) -> (ok: bool)
        requires
            old(self).wf(),
        ensures
            final(self).wf(),
            final(self).limit() == old(self).limit(),
            ok == (old(self).active_count() < old(self).limit()),
            final(self).active_count() == (if ok {
                old(self).active_count() + 1
            } else {
                old(self).active_count()
            }),
    {
        if self.active < self.limit {
            self.active = self.active + 1;
            true
        } else {
            false
        }
    }

    /// Returns a slot once a fetch-and-extract cycle has finished.
    pub fn release(&mut self)
        requires
            old(self).wf(),
            old(self).active_count() > 0,
        ensures
            final(self).wf(),
            final(self).limit() == old(self).limit(),
            final(self).active_count() == old(self).active_count() - 1,
    {
        self.active = self.active - 1;
    }
}

/// One slot transition of a run: a fetch-and-extract cycle asking for a
/// slot, or returning the one it holds.
pub enum SlotStep {
    Acquire,
    Release,
}

/// Replays a run's slot transitions from an all-free pool with the
/// given cap, exactly as `try_acquire` and `release` move the count: an
/// acquire takes effect only while a slot is free, a release only while
/// one is held.
pub open spec fn slots_in_flight(cap: int, steps: Seq<SlotStep>) -> int
    decreases steps.len(),
{
    if steps.len() == 0 {
        0
    } else {
        let prev = slots_in_flight(cap, steps.drop_last());
        match steps.last() {
            SlotStep::Acquire => if prev < cap {
                prev + 1
            } else {
                prev
            },
            SlotStep::Release => if prev > 0 {
                prev - 1
            } else {
                prev
            },
        }
    }
}

/// Law: the concurrency cap holds over a whole run — after every
/// prefix of every sequence of slot transitions, the cycles holding a
/// slot number at least zero and at most the cap.
pub proof fn lemma_run_respects_cap(cap: int, steps: Seq<SlotStep>)
    requires
        cap >= 0,
    ensures
        0 <= slots_in_flight(cap, steps) <= cap,
    decreases steps.len(),
{
    if steps.len() > 0 {
        lemma_run_respects_cap(cap, steps.drop_last());
    }
}

} // verus!
