//! The monitor fan-out registry: the process-wide set of monitor
//! subscribers, each with an outbound queue.  Every command line the
//! engine executes is handed to `broadcast`, which appends it to the
//! queue of every live subscriber and prunes the ones whose session has
//! gone away; a subscriber is pruned only lazily, on the next fan-out
//! after its session detached.

use vstd::prelude::*;

verus! {

/// Spec image of one subscriber: its handle, whether its session is still
/// attached, and the messages queued for it, oldest first.
#[verifier::ext_equal]
pub struct SubscriberModel {
    pub id: u64,
    pub open: bool,
    pub queue: Seq<Seq<char>>,
}

/// One registered subscriber.
struct Subscriber {
    id: u64,
    open: bool,
    queue: Vec<String>,
}

impl View for Subscriber {
    type V = SubscriberModel;

    closed spec fn view(&self) -> SubscriberModel {
        SubscriberModel {
            id: self.id,
            open: self.open,
            queue: self.queue@.map_values(|s: String| s@),
        }
    }
}

/// The spec images of a run of subscribers.
spec fn models(s: Seq<Subscriber>) -> Seq<SubscriberModel> {
    s.map_values(|x: Subscriber| x@)
}

/// A subscriber with the message delivered at the end of its queue.
pub open spec fn deliver(x: SubscriberModel, m: Seq<char>) -> SubscriberModel {
    SubscriberModel { id: x.id, open: x.open, queue: x.queue.push(m) }
}

/// One fan-out pass over a run of subscribers: every attached subscriber
/// keeps its place and receives the message; every detached one is
/// dropped.
pub open spec fn fanout(s: Seq<SubscriberModel>, m: Seq<char>) -> Seq<SubscriberModel>
    decreases s.len(),
{
    if s.len() == 0 {
        Seq::empty()
    } else {
        (if s[0].open {
            seq![deliver(s[0], m)]
        } else {
            Seq::empty()
        }) + fanout(s.drop_first(), m)
    }
}

/// A run of subscribers with the one holding `id` (if any) marked
/// detached.
pub open spec fn detach_model(s: Seq<SubscriberModel>, id: u64) -> Seq<SubscriberModel> {
    s.map_values(
        |x: SubscriberModel|
            if x.id == id {
                SubscriberModel { id: x.id, open: false, queue: x.queue }
            } else {
                x
            },
    )
}

/// A run of subscribers with the queue of the one holding `id` (if any)
/// drained.
pub open spec fn drain_model(s: Seq<SubscriberModel>, id: u64) -> Seq<SubscriberModel> {
    s.map_values(
        |x: SubscriberModel|
            if x.id == id {
                SubscriberModel { id: x.id, open: x.open, queue: Seq::empty() }
            } else {
                x
            },
    )
}

/// The queue of the subscriber holding `id`, or the empty run when no
/// subscriber holds it.
pub open spec fn queue_of(s: Seq<SubscriberModel>, id: u64) -> Seq<Seq<char>>
    decreases s.len(),
{
    if s.len() == 0 {
        Seq::empty()
    } else if s[0].id == id {
        s[0].queue
    } else {
        queue_of(s.drop_first(), id)
    }
}

/// Pairwise-distinct subscriber handles.
pub open spec fn distinct_ids(s: Seq<SubscriberModel>) -> bool {
    forall|p: int, q: int| 0 <= p < q < s.len() ==> s[p].id != s[q].id
}

/// `fanout` appends the message to a run's last subscriber exactly when
/// that subscriber is attached.
proof fn lemma_fanout_snoc(s: Seq<SubscriberModel>, x: SubscriberModel, m: Seq<char>)
    ensures
        fanout(s.push(x), m) == fanout(s, m) + (if x.open {
            seq![deliver(x, m)]
        } else {
            Seq::<SubscriberModel>::empty()
        }),
    decreases s.len(),
{
    if s.len() == 0 {
        assert(s.push(x).drop_first() =~= s);
        assert(fanout(s.push(x), m) =~= fanout(s, m) + (if x.open {
            seq![deliver(x, m)]
        } else {
            Seq::<SubscriberModel>::empty()
        }));
    } else {
        assert(s.push(x).drop_first() =~= s.drop_first().push(x));
        lemma_fanout_snoc(s.drop_first(), x, m);
        assert(fanout(s.push(x), m) =~= fanout(s, m) + (if x.open {
            seq![deliver(x, m)]
        } else {
            Seq::<SubscriberModel>::empty()
        }));
    }
}

/// Every subscriber a fan-out pass keeps is attached, and carries the
/// handle of one of the attached subscribers it started from.
proof fn lemma_fanout_ids(s: Seq<SubscriberModel>, m: Seq<char>)
    ensures
        forall|j: int|
            0 <= j < fanout(s, m).len() ==> fanout(s, m)[j].open && exists|i: int|
                0 <= i < s.len() && s[i].open && fanout(s, m)[j].id == s[i].id,
    decreases s.len(),
{
    if s.len() > 0 {
        lemma_fanout_ids(s.drop_first(), m);
        assert forall|j: int| 0 <= j < fanout(s, m).len() implies fanout(s, m)[j].open && exists|
            i: int,
        | 0 <= i < s.len() && s[i].open && fanout(s, m)[j].id == s[i].id by {
            let head: Seq<SubscriberModel> = if s[0].open {
                seq![deliver(s[0], m)]
            } else {
                Seq::empty()
            };
            if j < head.len() {
                assert(s[0].open && fanout(s, m)[j].id == s[0].id);
                assert(exists|i: int| 0 <= i < s.len() && s[i].open && fanout(s, m)[j].id == s[i].id);
            } else {
                let j2 = j - head.len();
                assert(fanout(s, m)[j] == fanout(s.drop_first(), m)[j2]);
                let i2 = choose|i2: int|
                    0 <= i2 < s.drop_first().len() && s.drop_first()[i2].open && fanout(
                        s.drop_first(),
                        m,
                    )[j2].id == s.drop_first()[i2].id;
                assert(s.drop_first()[i2] == s[i2 + 1]);
                assert(0 <= i2 + 1 < s.len() && s[i2 + 1].open && fanout(s, m)[j].id == s[i2
                    + 1].id);
                assert(exists|i: int| 0 <= i < s.len() && s[i].open && fanout(s, m)[j].id == s[i].id);
            }
        }
    }
}

/// A fan-out pass keeps subscriber handles pairwise distinct.
proof fn lemma_fanout_distinct(s: Seq<SubscriberModel>, m: Seq<char>)
    requires
        distinct_ids(s),
    ensures
        distinct_ids(fanout(s, m)),
    decreases s.len(),
{
    if s.len() > 0 {
        assert(distinct_ids(s.drop_first())) by {
            assert(forall|p: int, q: int|
                0 <= p < q < s.drop_first().len() ==> s.drop_first()[p] == s[p + 1]
                    && s.drop_first()[q] == s[q + 1]);
        }
        lemma_fanout_distinct(s.drop_first(), m);
        lemma_fanout_ids(s.drop_first(), m);
        let head: Seq<SubscriberModel> = if s[0].open {
            seq![deliver(s[0], m)]
        } else {
            Seq::empty()
        };
        assert forall|p: int, q: int|
            0 <= p < q < fanout(s, m).len() implies fanout(s, m)[p].id != fanout(s, m)[q].id by {
            if p >= head.len() {
                assert(fanout(s, m)[p] == fanout(s.drop_first(), m)[p - head.len()]);
                assert(fanout(s, m)[q] == fanout(s.drop_first(), m)[q - head.len()]);
            } else {
                assert(fanout(s, m)[p].id == s[0].id);
                assert(fanout(s, m)[q] == fanout(s.drop_first(), m)[q - head.len()]);
                let i2 = choose|i2: int|
                    0 <= i2 < s.drop_first().len() && fanout(s.drop_first(), m)[q - head.len()].id
                        == s.drop_first()[i2].id;
                assert(s.drop_first()[i2] == s[i2 + 1]);
            }
        }
    }
}

/// The monitor registry: the live set of subscribers, mutated only under
/// the process lock that its owner wraps around it.
pub struct MonitorRegistry {
    next_id: u64,
    subs: Vec<Subscriber>,
}

impl View for MonitorRegistry {
    type V = Seq<SubscriberModel>;

    closed spec fn view(&self) -> Seq<SubscriberModel> {
        models(self.subs@)
    }
}

impl MonitorRegistry {
    /// Subscriber handles are pairwise distinct and below the next free
    /// handle.
    #[verifier::type_invariant]
    spec fn wf(self) -> bool {
        distinct_ids(models(self.subs@)) && forall|i: int|
            0 <= i < self.subs@.len() ==> self.subs@[i]@.id < self.next_id
    }

    /// How many handles have been issued so far.
    pub closed spec fn issued(&self) -> u64 {
        self.next_id
    }

    /// A fresh registry, with no subscriber.
    pub fn new() -> (r: MonitorRegistry)
        ensures
            r@ == Seq::<SubscriberModel>::empty(),
            r.issued() == 0,
    {
        let r = MonitorRegistry { next_id: 0, subs: Vec::new() };
        proof {
            assert(r@ =~= Seq::<SubscriberModel>::empty());
        }
        r
    }

    /// How many subscribers the registry holds, detached ones included
    /// until the next fan-out pass prunes them.
    pub fn subscriber_count(&self) -> (n: usize)
        ensures
            n == self@.len(),
    {
        self.subs.len()
    }

    /// Whether a fresh handle is still available.
    pub fn can_subscribe(&self) -> (r: bool)
        ensures
            r == (self.issued() < u64::MAX),
    {
        self.next_id < u64::MAX
    }

    /// Registers a fresh subscriber, attached and with an empty queue,
    /// and hands back its handle, distinct from every earlier one.
    pub fn subscribe(&mut self) -> (id: u64)
        requires
            old(self).issued() < u64::MAX,
        ensures
            final(self)@ == old(self)@.push(
                SubscriberModel { id, open: true, queue: Seq::empty() },
            ),
            final(self).issued() == old(self).issued() + 1,
            forall|j: int| 0 <= j < old(self)@.len() ==> old(self)@[j].id != id,
    {
        proof {
            use_type_invariant(&*self);
        }
        let id = self.next_id;
        let mut subs: Vec<Subscriber> = Vec::new();
        std::mem::swap(&mut subs, &mut self.subs);
        subs.push(Subscriber { id, open: true, queue: Vec::new() });
        self.next_id = id + 1;
        proof {
            assert forall|j: int| 0 <= j < subs@.len() implies models(subs@)[j] == subs@[j]@ by {}
            assert forall|p: int, q: int|
                0 <= p < q < subs@.len() implies models(subs@)[p].id != models(subs@)[q].id by {
                if q < subs@.len() - 1 {
                    assert(models(old(self).subs@)[p] == old(self).subs@[p]@);
                    assert(models(old(self).subs@)[q] == old(self).subs@[q]@);
                } else {
                    assert(models(old(self).subs@)[p] == old(self).subs@[p]@);
                }
            }
            assert forall|j: int| 0 <= j < subs@.len() implies models(subs@)[j].id
                < self.next_id by {
                if j < subs@.len() - 1 {
                    assert(models(old(self).subs@)[j] == old(self).subs@[j]@);
                }
            }
        }
        std::mem::swap(&mut subs, &mut self.subs);
        proof {
            assert(final(self)@ =~~= old(self)@.push(
                SubscriberModel { id, open: true, queue: Seq::empty() },
            ));
        }
        id
    }

    /// The position of the subscriber holding `id`, if one does.
    fn find(&self, id: u64) -> (r: Option<usize>)
        ensures
            match r {
                Some(i) => i < self.subs@.len() && self.subs@[i as int]@.id == id,
                None => forall|j: int| 0 <= j < self.subs@.len() ==> self.subs@[j]@.id != id,
            },
    {
        let n = self.subs.len();
        let mut i: usize = 0;
        while i < n
            invariant
                0 <= i <= n,
                n == self.subs@.len(),
                forall|j: int| 0 <= j < i ==> self.subs@[j]@.id != id,
            decreases n - i,
        {
            if self.subs[i].id == id {
                return Some(i);
            }
            i += 1;
        }
        None
    }

    /// Marks the subscriber holding `id` as detached: its session is
    /// gone, and the next fan-out pass will prune it.
    pub fn detach(&mut self, id: u64)
        ensures
            final(self)@ == detach_model(old(self)@, id),
            final(self).issued() == old(self).issued(),
    {
        proof {
            use_type_invariant(&*self);
            assert(forall|j: int|
                0 <= j < old(self)@.len() ==> old(self)@[j] == old(self).subs@[j]@);
        }
        match self.find(id) {
            Some(i) => {
                let ghost pre = self.subs@;
                let mut subs: Vec<Subscriber> = Vec::new();
                std::mem::swap(&mut subs, &mut self.subs);
                let mut x = subs.remove(i);
                x.open = false;
                subs.insert(i, x);
                proof {
                    assert(forall|j: int| 0 <= j < pre.len() && j != i ==> subs@[j] == pre[j]);
                    assert(subs@[i as int]@.id == pre[i as int]@.id);
                    assert forall|p: int, q: int|
                        0 <= p < q < subs@.len() implies models(subs@)[p].id != models(
                        subs@,
                    )[q].id by {
                        assert(models(pre)[p] == pre[p]@);
                        assert(models(pre)[q] == pre[q]@);
                        assert(models(subs@)[p] == subs@[p]@);
                        assert(models(subs@)[q] == subs@[q]@);
                    }
                    assert(forall|j: int|
                        0 <= j < subs@.len() ==> subs@[j]@.id < self.next_id);
                }
                std::mem::swap(&mut subs, &mut self.subs);
                proof {
                    assert forall|j: int|
                        0 <= j < pre.len() && j != i implies pre[j]@.id != id by {
                        assert(models(pre)[j] == pre[j]@);
                        assert(models(pre)[i as int] == pre[i as int]@);
                    }
                    assert(final(self)@ =~~= detach_model(old(self)@, id));
                }
            },
            None => {
                proof {
                    assert(final(self)@ =~~= detach_model(old(self)@, id));
                }
            },
        }
    }

    /// Drains and hands over the queued messages of the subscriber
    /// holding `id`, oldest first.
    pub fn take(&mut self, id: u64) -> (msgs: Vec<String>)
        ensures
            final(self)@ == drain_model(old(self)@, id),
            final(self).issued() == old(self).issued(),
            msgs@.map_values(|s: String| s@) == queue_of(old(self)@, id),
    {
        proof {
            use_type_invariant(&*self);
            assert(forall|j: int|
                0 <= j < old(self)@.len() ==> old(self)@[j] == old(self).subs@[j]@);
        }
        match self.find(id) {
            Some(i) => {
                let ghost pre = self.subs@;
                let mut subs: Vec<Subscriber> = Vec::new();
                std::mem::swap(&mut subs, &mut self.subs);
                let mut x = subs.remove(i);
                let mut msgs: Vec<String> = Vec::new();
                std::mem::swap(&mut msgs, &mut x.queue);
                subs.insert(i, x);
                proof {
                    assert(forall|j: int| 0 <= j < pre.len() && j != i ==> subs@[j] == pre[j]);
                    assert(subs@[i as int]@.id == pre[i as int]@.id);
                    assert forall|p: int, q: int|
                        0 <= p < q < subs@.len() implies models(subs@)[p].id != models(
                        subs@,
                    )[q].id by {
                        assert(models(pre)[p] == pre[p]@);
                        assert(models(pre)[q] == pre[q]@);
                        assert(models(subs@)[p] == subs@[p]@);
                        assert(models(subs@)[q] == subs@[q]@);
                    }
                    assert(forall|j: int|
                        0 <= j < subs@.len() ==> subs@[j]@.id < self.next_id);
                }
                std::mem::swap(&mut subs, &mut self.subs);
                proof {
                    assert forall|j: int|
                        0 <= j < pre.len() && j != i implies pre[j]@.id != id by {
                        assert(models(pre)[j] == pre[j]@);
                        assert(models(pre)[i as int] == pre[i as int]@);
                    }
                    assert(final(self)@ =~~= drain_model(old(self)@, id));
                    lemma_queue_of_at(old(self)@, id, i as int);
                    assert(old(self)@[i as int] == pre[i as int]@);
                    assert(msgs@.map_values(|s: String| s@) == queue_of(old(self)@, id));
                }
                msgs
            },
            None => {
                let msgs: Vec<String> = Vec::new();
                proof {
                    assert(final(self)@ =~~= drain_model(old(self)@, id));
                    lemma_queue_of_absent(old(self)@, id);
                    assert(msgs@.map_values(|s: String| s@) =~= queue_of(old(self)@, id));
                }
                msgs
            },
        }
    }

    /// One fan-out pass: appends the command line to every attached
    /// subscriber's queue, in registration order, and prunes every
    /// detached one — the sole cleanup mechanism.
    pub fn broadcast(&mut self, msg: &str)
        ensures
            final(self)@ == fanout(old(self)@, msg@),
            final(self).issued() == old(self).issued(),
    {
        proof {
            use_type_invariant(&*self);
            assert(forall|j: int|
                0 <= j < old(self)@.len() ==> old(self)@[j] == old(self).subs@[j]@);
        }
        let mut subs: Vec<Subscriber> = Vec::new();
        std::mem::swap(&mut subs, &mut self.subs);
        let ghost orig = models(subs@);
        let mut kept: Vec<Subscriber> = Vec::new();
        let ghost mut donev: Seq<SubscriberModel> = Seq::empty();
        proof {
            assert(models(kept@) =~= fanout(donev, msg@));
            assert(orig =~= donev + models(subs@));
            assert forall|p: int, q: int|
                0 <= p < q < subs@.len() implies subs@[p]@.id != subs@[q]@.id by {
                assert(models(subs@)[p] == subs@[p]@);
                assert(models(subs@)[q] == subs@[q]@);
            }
            assert forall|i: int| 0 <= i < subs@.len() implies subs@[i]@.id < self.next_id by {}
        }
        while subs.len() > 0
            invariant
                orig == donev + models(subs@),
                models(kept@) == fanout(donev, msg@),
                forall|i: int| 0 <= i < subs@.len() ==> subs@[i]@.id < self.next_id,
                forall|i: int| 0 <= i < kept@.len() ==> kept@[i]@.id < self.next_id,
                forall|p: int, q: int| 0 <= p < q < kept@.len() ==> kept@[p]@.id != kept@[q]@.id,
                forall|p: int, q: int|
                    0 <= p < kept@.len() && 0 <= q < subs@.len() ==> kept@[p]@.id != subs@[q]@.id,
                forall|p: int, q: int| 0 <= p < q < subs@.len() ==> subs@[p]@.id != subs@[q]@.id,
            decreases subs@.len(),
        {
            let ghost pre_vec = subs@;
            let mut x = subs.remove(0);
            let ghost xm = x@;
            proof {
                assert(models(pre_vec) =~= models(subs@).insert(0, xm)) by {
                    assert(forall|j: int|
                        0 <= j < subs@.len() ==> subs@[j] == pre_vec[j + 1] && models(subs@)[j]
                            == subs@[j]@ && models(pre_vec)[j + 1] == pre_vec[j + 1]@);
                    assert(models(pre_vec)[0] == xm);
                }
                assert(models(pre_vec) =~= seq![xm] + models(subs@));
                lemma_fanout_snoc(donev, xm, msg@);
                assert(forall|q: int| 0 <= q < subs@.len() ==> subs@[q]@.id != xm.id);
            }
            if x.open {
                x.queue.push(msg.to_owned());
                proof {
                    assert(x@.queue =~= xm.queue.push(msg@));
                    assert(x@ =~= deliver(xm, msg@));
                    assert(x@ == deliver(xm, msg@));
                }
                kept.push(x);
                proof {
                    assert(models(kept@) =~= fanout(donev.push(xm), msg@)) by {
                        assert(forall|j: int|
                            0 <= j < kept@.len() ==> models(kept@)[j] == kept@[j]@);
                        assert(models(kept@.drop_last()) =~= models(kept@).drop_last()) by {
                            assert(forall|j: int|
                                0 <= j < kept@.len() - 1 ==> models(kept@.drop_last())[j] == kept@
                                    .drop_last()[j]@ && kept@.drop_last()[j] == kept@[j]);
                        }
                    }
                }
            } else {
                proof {
                    assert(models(kept@) =~= fanout(donev.push(xm), msg@));
                }
            }
            proof {
                donev = donev.push(xm);
                assert(orig =~= donev + models(subs@));
                assert(models(kept@) == fanout(donev, msg@));
            }
        }
        proof {
            assert(models(subs@) =~= Seq::<SubscriberModel>::empty());
            assert(orig =~= donev);
            assert(forall|p: int, q: int|
                0 <= p < q < kept@.len() ==> models(kept@)[p] == kept@[p]@ && models(kept@)[q]
                    == kept@[q]@);
            assert(distinct_ids(models(kept@)));
        }
        std::mem::swap(&mut kept, &mut self.subs);
        proof {
            assert(final(self)@ == fanout(orig, msg@));
        }
    }
}

/// With distinct handles, the queue looked up by handle is the queue at
/// the handle's position.
proof fn lemma_queue_of_at(s: Seq<SubscriberModel>, id: u64, i: int)
    requires
        distinct_ids(s),
        0 <= i < s.len(),
        s[i].id == id,
    ensures
        queue_of(s, id) == s[i].queue,
    decreases s.len(),
{
    if i > 0 {
        assert(s[0].id != id);
        assert(s.drop_first()[i - 1] == s[i]);
        lemma_queue_of_at(s.drop_first(), id, i - 1);
    }
}

/// A handle no subscriber holds looks up the empty queue.
proof fn lemma_queue_of_absent(s: Seq<SubscriberModel>, id: u64)
    requires
        forall|j: int| 0 <= j < s.len() ==> s[j].id != id,
    ensures
        queue_of(s, id) == Seq::<Seq<char>>::empty(),
    decreases s.len(),
{
    if s.len() > 0 {
        lemma_queue_of_absent(s.drop_first(), id);
    }
}

/// The registry contents after a run of fan-out passes, oldest message
/// first.
pub open spec fn fanout_all(s: Seq<SubscriberModel>, msgs: Seq<Seq<char>>) -> Seq<SubscriberModel>
    decreases msgs.len(),
{
    if msgs.len() == 0 {
        s
    } else {
        fanout_all(fanout(s, msgs[0]), msgs.drop_first())
    }
}

/// An attached subscriber survives one fan-out pass, with the message
/// delivered.
proof fn lemma_fanout_keeps_open(s: Seq<SubscriberModel>, m: Seq<char>, i: int)
    requires
        0 <= i < s.len(),
        s[i].open,
    ensures
        exists|j: int| 0 <= j < fanout(s, m).len() && fanout(s, m)[j] == deliver(s[i], m),
    decreases s.len(),
{
    if i == 0 {
        assert(fanout(s, m)[0] == deliver(s[0], m));
    } else {
        assert(s.drop_first()[i - 1] == s[i]);
        lemma_fanout_keeps_open(s.drop_first(), m, i - 1);
        let j2 = choose|j2: int|
            0 <= j2 < fanout(s.drop_first(), m).len() && fanout(s.drop_first(), m)[j2] == deliver(
                s[i],
                m,
            );
        let head: Seq<SubscriberModel> = if s[0].open {
            seq![deliver(s[0], m)]
        } else {
            Seq::empty()
        };
        assert(fanout(s, m)[j2 + head.len()] == deliver(s[i], m));
    }
}

/// Law: a subscriber that is attached when a run of command lines is
/// broadcast, one fan-out pass each, receives every one of them,
/// appended to its queue in execution order — however many other
/// subscribers there are, and whatever their pace or state.
pub proof fn lemma_monitor_receives_all(s: Seq<SubscriberModel>, msgs: Seq<Seq<char>>, i: int)
    requires
        0 <= i < s.len(),
        s[i].open,
    ensures
        exists|j: int|
            0 <= j < fanout_all(s, msgs).len() && fanout_all(s, msgs)[j] == (SubscriberModel {
                id: s[i].id,
                open: true,
                queue: s[i].queue + msgs,
            }),
    decreases msgs.len(),
{
    if msgs.len() == 0 {
        assert(s[i].queue + msgs =~= s[i].queue);
        assert(fanout_all(s, msgs)[i] == s[i]);
        assert(s[i] == (SubscriberModel { id: s[i].id, open: true, queue: s[i].queue + msgs }));
    } else {
        lemma_fanout_keeps_open(s, msgs[0], i);
        let s1 = fanout(s, msgs[0]);
        let j1 = choose|j1: int| 0 <= j1 < s1.len() && s1[j1] == deliver(s[i], msgs[0]);
        lemma_monitor_receives_all(s1, msgs.drop_first(), j1);
        assert(s1[j1].queue + msgs.drop_first() =~= s[i].queue + msgs);
        assert(fanout_all(s, msgs) == fanout_all(s1, msgs.drop_first()));
        let j = choose|j: int|
            0 <= j < fanout_all(s1, msgs.drop_first()).len() && fanout_all(s1, msgs.drop_first())[j]
                == (SubscriberModel {
                id: s1[j1].id,
                open: true,
                queue: s1[j1].queue + msgs.drop_first(),
            });
        assert(fanout_all(s, msgs)[j] == (SubscriberModel {
            id: s[i].id,
            open: true,
            queue: s[i].queue + msgs,
        }));
    }
}

/// How many subscribers of a run are attached.
pub open spec fn count_open(s: Seq<SubscriberModel>) -> int
    decreases s.len(),
{
    if s.len() == 0 {
        0
    } else {
        (if s[0].open {
            1int
        } else {
            0int
        }) + count_open(s.drop_first())
    }
}

/// A fan-out pass keeps exactly the attached subscribers.
proof fn lemma_fanout_len(s: Seq<SubscriberModel>, m: Seq<char>)
    ensures
        fanout(s, m).len() == count_open(s),
    decreases s.len(),
{
    if s.len() > 0 {
        lemma_fanout_len(s.drop_first(), m);
    }
}

/// Detaching a handle held by nobody changes nothing.
proof fn lemma_detach_noop(s: Seq<SubscriberModel>, id: u64)
    requires
        forall|j: int| 0 <= j < s.len() ==> s[j].id != id,
    ensures
        detach_model(s, id) == s,
{
    assert(detach_model(s, id) =~= s);
}

/// Detaching an attached subscriber lowers the attached count by one.
proof fn lemma_detach_count(s: Seq<SubscriberModel>, id: u64, i: int)
    requires
        distinct_ids(s),
        0 <= i < s.len(),
        s[i].id == id,
        s[i].open,
    ensures
        count_open(detach_model(s, id)) == count_open(s) - 1,
    decreases s.len(),
{
    let d = detach_model(s, id);
    assert(d.drop_first() =~= detach_model(s.drop_first(), id)) by {
        assert(forall|j: int| 0 <= j < s.len() - 1 ==> s.drop_first()[j] == s[j + 1]);
    }
    if i == 0 {
        assert(!d[0].open);
        assert(forall|j: int| 0 <= j < s.drop_first().len() ==> s.drop_first()[j].id != id);
        lemma_detach_noop(s.drop_first(), id);
        assert(count_open(d) == count_open(s.drop_first()));
    } else {
        assert(d[0] == s[0]);
        assert(s.drop_first()[i - 1] == s[i]);
        assert(forall|p: int, q: int|
            0 <= p < q < s.drop_first().len() ==> s.drop_first()[p] == s[p + 1]
                && s.drop_first()[q] == s[q + 1]);
        lemma_detach_count(s.drop_first(), id, i - 1);
    }
}

/// Every subscriber of a run is attached.
proof fn lemma_count_all_open(s: Seq<SubscriberModel>)
    requires
        forall|j: int| 0 <= j < s.len() ==> s[j].open,
    ensures
        count_open(s) == s.len(),
    decreases s.len(),
{
    if s.len() > 0 {
        lemma_count_all_open(s.drop_first());
    }
}

/// Law: when every subscriber is attached and one session goes away, the
/// fan-out pass that follows its detach prunes exactly that subscriber:
/// the count drops by one, and no subscriber with its handle remains, so
/// nothing further is ever queued for it.
pub proof fn lemma_detached_subscriber_pruned(
    s: Seq<SubscriberModel>,
    id: u64,
    i: int,
    m: Seq<char>,
)
    requires
        distinct_ids(s),
        forall|j: int| 0 <= j < s.len() ==> s[j].open,
        0 <= i < s.len(),
        s[i].id == id,
    ensures
        fanout(detach_model(s, id), m).len() == s.len() - 1,
        forall|j: int|
            0 <= j < fanout(detach_model(s, id), m).len() ==> fanout(detach_model(s, id), m)[j].id
                != id,
{
    let d = detach_model(s, id);
    lemma_fanout_len(d, m);
    lemma_detach_count(s, id, i);
    lemma_count_all_open(s);
    lemma_fanout_ids(d, m);
    assert forall|j: int|
        0 <= j < fanout(d, m).len() implies fanout(d, m)[j].id != id by {
        let i0 = choose|i0: int|
            0 <= i0 < d.len() && d[i0].open && fanout(d, m)[j].id == d[i0].id;
        if d[i0].id == id {
            assert(d[i0] == s[i0] || !d[i0].open);
            assert(s[i0].id == id);
            assert(i0 == i);
        }
    }
}

/// The command name and its arguments joined with single spaces: the line
/// the execution hook hands to the registry for every command the engine
/// runs.
pub open spec fn joined(parts: Seq<Seq<char>>) -> Seq<char>
    decreases parts.len(),
{
    if parts.len() == 0 {
        Seq::empty()
    } else if parts.len() == 1 {
        parts[0]
    } else {
        joined(parts.drop_last()) + seq![' '] + parts.last()
    }
}

/// Formats one executed command for the monitor feed.
pub fn command_line_of(parts: &Vec<String>) -> (r: String)
    ensures
        r@ == joined(parts@.map_values(|s: String| s@)),
{
    let ghost ms = parts@.map_values(|s: String| s@);
    let mut out = String::new();
    let n = parts.len();
    let mut i: usize = 0;
    while i < n
        invariant
            0 <= i <= n,
            n == parts@.len(),
            ms == parts@.map_values(|s: String| s@),
            out@ == joined(ms.take(i as int)),
        decreases n - i,
    {
        if i > 0 {
            out.append(" ");
        }
        out.append(parts[i].as_str());
        i += 1;
        proof {
            reveal_strlit(" ");
            assert(ms.take(i as int).drop_last() =~= ms.take(i - 1));
            assert(ms.take(i as int).last() == parts@[i - 1]@);
            if i > 1 {
                assert(out@ =~= joined(ms.take(i - 1)) + seq![' '] + ms.take(i as int).last());
            } else {
                assert(out@ =~= ms.take(1)[0]);
            }
        }
    }
    proof {
        assert(ms.take(n as int) =~= ms);
    }
    out
}

} // verus!
