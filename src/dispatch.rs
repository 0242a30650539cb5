use vstd::prelude::*;
use crate::supervise::WaitEvent;

verus! {

/// Events waiting for each child, by pid: at most one queue per pid.
pub type QueuesView = Seq<(i32, Seq<WaitEvent>)>;

/// Number of events waiting over all children.
pub open spec fn total(s: QueuesView) -> int
    decreases s.len(),
{
    if s.len() == 0 {
        0
    } else {
        total(s.drop_last()) + s.last().1.len()
    }
}

pub open spec fn index_of(s: QueuesView, pid: i32) -> int
    decreases s.len(),
{
    if s.len() == 0 {
        -1
    } else if s.last().0 == pid {
        s.len() - 1
    } else {
        index_of(s.drop_last(), pid)
    }
}

/// The queues after `ev` arrives for `pid`: appended to its queue, which is
/// created if the child has none yet.
pub open spec fn deliver_spec(s: QueuesView, pid: i32, ev: WaitEvent) -> QueuesView {
    let i = index_of(s, pid);
    if i < 0 {
        s.push((pid, seq![ev]))
    } else {
        s.update(i, (pid, s[i].1.push(ev)))
    }
}

/// The queues after a series of deliveries, in order.
pub open spec fn deliver_all(s: QueuesView, evs: Seq<(i32, WaitEvent)>) -> QueuesView
    decreases evs.len(),
{
    if evs.len() == 0 {
        s
    } else {
        deliver_spec(deliver_all(s, evs.drop_last()), evs.last().0, evs.last().1)
    }
}

proof fn lemma_index_of(s: QueuesView, pid: i32)
    ensures
        -1 <= index_of(s, pid) < s.len(),
        index_of(s, pid) >= 0 ==> s[index_of(s, pid)].0 == pid,
        index_of(s, pid) < 0 ==> forall|j: int| 0 <= j < s.len() ==> s[j].0 != pid,
    decreases s.len(),
{
    if s.len() > 0 {
        lemma_index_of(s.drop_last(), pid);
        if index_of(s, pid) < 0 {
            assert forall|j: int| 0 <= j < s.len() implies #[trigger] s[j].0 != pid by {
                if j < s.len() - 1 {
                    assert(s[j] == s.drop_last()[j]);
                }
            }
        }
    }
}

proof fn lemma_total_update(s: QueuesView, i: int, x: (i32, Seq<WaitEvent>))
    requires
        0 <= i < s.len(),
    ensures
        total(s.update(i, x)) == total(s) - s[i].1.len() + x.1.len(),
    decreases s.len(),
{
    if i == s.len() - 1 {
        assert(s.update(i, x).drop_last() =~= s.drop_last());
    } else {
        lemma_total_update(s.drop_last(), i, x);
        assert(s.update(i, x).drop_last() =~= s.drop_last().update(i, x));
    }
}

proof fn lemma_total_deliver(s: QueuesView, pid: i32, ev: WaitEvent)
    ensures
        total(deliver_spec(s, pid, ev)) == total(s) + 1,
{
    lemma_index_of(s, pid);
    let i = index_of(s, pid);
    if i < 0 {
        assert(s.push((pid, seq![ev])).drop_last() =~= s);
    } else {
        lemma_total_update(s, i, (pid, s[i].1.push(ev)));
    }
}

/// No event is dropped: after any series of deliveries, the queues hold
/// exactly as many more events as were delivered.
pub proof fn lemma_no_event_dropped(s: QueuesView, evs: Seq<(i32, WaitEvent)>)
    ensures
        total(deliver_all(s, evs)) == total(s) + evs.len(),
    decreases evs.len(),
{
    if evs.len() > 0 {
        lemma_no_event_dropped(s, evs.drop_last());
        lemma_total_deliver(deliver_all(s, evs.drop_last()), evs.last().0, evs.last().1);
    }
}

/// The waiter's mailboxes: state changes of each child, kept in the order the
/// kernel reported them until the child's supervisor takes them.
#[derive(Debug)]
pub struct WaitQueues {
    queues: Vec<(i32, Vec<WaitEvent>)>,
}

impl WaitQueues {
    pub closed spec fn spec_queues(&self) -> QueuesView {
        self.queues@.map_values(|q: (i32, Vec<WaitEvent>)| (q.0, q.1@))
    }

    pub fn new() -> (r: WaitQueues)
        ensures
            r.spec_queues().len() == 0,
    {
        let r = WaitQueues { queues: Vec::new() };
        assert(r.spec_queues() =~= Seq::empty());
        r
    }

    fn find(&self, pid: i32) -> (r: Option<usize>)
        ensures
            r is None <==> index_of(self.spec_queues(), pid) < 0,
            r is Some ==> r->Some_0 == index_of(self.spec_queues(), pid),
    {
        let mut i: usize = self.queues.len();
        assert(self.spec_queues().subrange(0, i as int) =~= self.spec_queues());
        while i > 0
            invariant
                i <= self.queues@.len(),
                index_of(self.spec_queues(), pid) == index_of(
                    self.spec_queues().subrange(0, i as int),
                    pid,
                ),
            decreases i,
        {
            let ghost pre = self.spec_queues().subrange(0, i as int);
            assert(pre.drop_last() =~= self.spec_queues().subrange(0, i - 1));
            assert(pre.last() == self.spec_queues()[i - 1]);
            if self.queues[i - 1].0 == pid {
                return Some(i - 1);
            }
            i = i - 1;
        }
        None
    }

    /// Records `ev` for child `pid`.
    pub fn deliver(&mut self, pid: i32, ev: WaitEvent)
        ensures
            final(self).spec_queues() == deliver_spec(old(self).spec_queues(), pid, ev),
            total(final(self).spec_queues()) == total(old(self).spec_queues()) + 1,
    {
        proof {
            lemma_total_deliver(self.spec_queues(), pid, ev);
            lemma_index_of(self.spec_queues(), pid);
            assert(self.queues@.len() == self.spec_queues().len());
        }
        match self.find(pid) {
            Some(i) => {
                let mut q: Vec<WaitEvent> = Vec::new();
                let mut j: usize = 0;
                while j < self.queues[i].1.len()
                    invariant
                        i < self.queues@.len(),
                        j <= self.queues@[i as int].1@.len(),
                        q@ == self.queues@[i as int].1@.subrange(0, j as int),
                    decreases self.queues@[i as int].1@.len() - j,
                {
                    q.push(self.queues[i].1[j]);
                    j = j + 1;
                    assert(q@ =~= self.queues@[i as int].1@.subrange(0, j as int));
                }
                assert(q@ =~= self.queues@[i as int].1@);
                q.push(ev);
                self.queues.set(i, (pid, q));
                proof {
                    assert(self.spec_queues() =~= deliver_spec(old(self).spec_queues(), pid, ev));
                }
            },
            None => {
                let q: Vec<WaitEvent> = vec![ev];
                assert(q@ =~= seq![ev]);
                self.queues.push((pid, q));
                proof {
                    assert(self.spec_queues() =~= deliver_spec(old(self).spec_queues(), pid, ev));
                }
            },
        }
    }

    /// Takes every event waiting for `pid`, oldest first.
    pub fn take_all(&mut self, pid: i32) -> (r: Vec<WaitEvent>)
        ensures
            index_of(old(self).spec_queues(), pid) < 0 ==> r@.len() == 0 && final(self).spec_queues()
                == old(self).spec_queues(),
            index_of(old(self).spec_queues(), pid) >= 0 ==> {
                let i = index_of(old(self).spec_queues(), pid);
                &&& r@ == old(self).spec_queues()[i].1
                &&& final(self).spec_queues() == old(self).spec_queues().update(
                    i,
                    (pid, Seq::<WaitEvent>::empty()),
                )
            },
            total(final(self).spec_queues()) == total(old(self).spec_queues()) - r@.len(),
    {
        proof {
            lemma_index_of(self.spec_queues(), pid);
        }
        match self.find(pid) {
            Some(i) => {
                let ghost old_q = self.spec_queues();
                let mut entry: (i32, Vec<WaitEvent>) = (pid, Vec::new());
                self.queues.set_and_swap(i, &mut entry);
                proof {
                    lemma_total_update(old_q, i as int, (pid, Seq::<WaitEvent>::empty()));
                    assert(self.spec_queues() =~= old_q.update(
                        i as int,
                        (pid, Seq::<WaitEvent>::empty()),
                    ));
                }
                entry.1
            },
            None => Vec::new(),
        }
    }

    /// Forgets child `pid` once it is gone, with any events still queued.
    pub fn remove(&mut self, pid: i32)
        ensures
            index_of(old(self).spec_queues(), pid) < 0 ==> final(self).spec_queues() == old(
                self,
            ).spec_queues(),
            index_of(old(self).spec_queues(), pid) >= 0 ==> final(self).spec_queues() == old(
                self,
            ).spec_queues().remove(index_of(old(self).spec_queues(), pid)),
    {
        proof {
            lemma_index_of(self.spec_queues(), pid);
        }
        match self.find(pid) {
            Some(i) => {
                let _gone = self.queues.remove(i);
                assert(self.spec_queues() =~= old(self).spec_queues().remove(i as int));
            },
            None => {},
        }
    }
}

} // verus!
