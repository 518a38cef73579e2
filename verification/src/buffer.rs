//! The message buffer: the rendezvous between payloads that have arrived and
//! receive requests that are outstanding, keyed by the full frame metadata.

use vstd::prelude::*;

use crate::metadata::Message;

verus! {

/// What a receive request leads to.
#[derive(Debug)]
pub enum ReceiveOutcome {
    /// The payload had already arrived; here it is.
    Delivered(Vec<u8>),
    /// Nothing arrived yet; the request is parked until the payload comes.
    Parked,
    /// A request for the same metadata is already parked: a programmer error,
    /// the new request is dropped.
    AlreadyWaiting,
}

/// What an arrived payload leads to.
#[derive(Debug)]
pub enum ArrivalOutcome {
    /// A parked request waited for it; hand the payload over.
    Woken(Vec<u8>),
    /// Nobody asked yet; the payload is held.
    Stored,
    /// A payload with the same metadata was already held: the new one
    /// replaces it, which the caller should report.
    Replaced,
}

/// The last position at which a metadata key occurs in a list, if any.
pub open spec fn find_meta<T>(entries: Seq<(Message, T)>, metadata: Message) -> Option<int>
    decreases entries.len(),
{
    if entries.len() == 0 {
        None
    } else if entries.last().0 == metadata {
        Some(entries.len() - 1)
    } else {
        find_meta(entries.drop_last(), metadata)
    }
}

proof fn lemma_find_meta_at<T>(entries: Seq<(Message, T)>, metadata: Message, j: int)
    requires
        0 <= j < entries.len(),
        entries[j].0 == metadata,
        forall|k: int| j < k < entries.len() ==> (#[trigger] entries[k]).0 != metadata,
    ensures
        find_meta(entries, metadata) == Some(j),
    decreases entries.len(),
{
    if j < entries.len() - 1 {
        assert(entries.drop_last()[j] == entries[j]);
        assert(forall|k: int| j < k < entries.len() - 1 ==> (#[trigger] entries.drop_last()[k])
            == entries[k]);
        lemma_find_meta_at(entries.drop_last(), metadata, j);
    }
}

proof fn lemma_find_meta_props<T>(entries: Seq<(Message, T)>, metadata: Message)
    requires
        find_meta(entries, metadata) is Some,
    ensures
        0 <= find_meta(entries, metadata)->Some_0 < entries.len(),
        entries[find_meta(entries, metadata)->Some_0].0 == metadata,
    decreases entries.len(),
{
    if entries.len() > 0 && entries.last().0 != metadata {
        lemma_find_meta_props(entries.drop_last(), metadata);
        assert(entries.drop_last()[find_meta(entries.drop_last(), metadata)->Some_0]
            == entries[find_meta(entries, metadata)->Some_0]);
    }
}

proof fn lemma_find_meta_absent<T>(entries: Seq<(Message, T)>, metadata: Message)
    requires
        forall|k: int| 0 <= k < entries.len() ==> (#[trigger] entries[k]).0 != metadata,
    ensures
        find_meta(entries, metadata) is None,
    decreases entries.len(),
{
    if entries.len() > 0 {
        assert(forall|k: int| 0 <= k < entries.len() - 1 ==> (#[trigger] entries.drop_last()[k])
            == entries[k]);
        lemma_find_meta_absent(entries.drop_last(), metadata);
    }
}

/// No two entries carry the same metadata.
pub open spec fn meta_unique<T>(entries: Seq<(Message, T)>) -> bool {
    forall|i: int, j: int|
        0 <= i < j < entries.len() ==> (#[trigger] entries[i]).0 != (#[trigger] entries[j]).0
}

/// The buffer's two sides: payloads that arrived before anyone asked, and
/// the metadata of requests parked awaiting arrival.
pub struct MessageBuffer {
    pending: Vec<(Message, Vec<u8>)>,
    waiters: Vec<(Message, ())>,
}

impl MessageBuffer {
    /// At most one held payload and at most one parked request per metadata.
    pub open spec fn wf(&self) -> bool {
        meta_unique(self.spec_pending()) && meta_unique(self.spec_waiters())
    }

    /// The held payloads.
    pub closed spec fn spec_pending(&self) -> Seq<(Message, Seq<u8>)> {
        self.pending@.map_values(|e: (Message, Vec<u8>)| (e.0, e.1@))
    }

    /// The parked requests.
    pub closed spec fn spec_waiters(&self) -> Seq<(Message, ())> {
        self.waiters@
    }

    /// An empty buffer.
    pub fn new() -> (r: MessageBuffer)
        ensures
            r.wf(),
            r.spec_pending() == Seq::<(Message, Seq<u8>)>::empty(),
            r.spec_waiters() == Seq::<(Message, ())>::empty(),
    {
        let r = MessageBuffer { pending: Vec::new(), waiters: Vec::new() };
        proof {
            assert(r.spec_pending() =~= Seq::<(Message, Seq<u8>)>::empty());
        }
        r
    }

    /// Ask for the payload of one message: deliver it if it already arrived,
    /// else park the request — unless one is already parked for the same
    /// metadata, which is a programmer error.
    pub fn request(&mut self, metadata: Message) -> (r: ReceiveOutcome)
        requires
            old(self).wf(),
        ensures
            final(self).wf(),
            match find_meta(old(self).spec_pending(), metadata) {
                Some(j) => {
                    &&& (r matches ReceiveOutcome::Delivered(data) && data@ == old(
                        self,
                    ).spec_pending()[j].1)
                    &&& final(self).spec_pending() == old(self).spec_pending().remove(j)
                    &&& final(self).spec_waiters() == old(self).spec_waiters()
                },
                None => {
                    &&& final(self).spec_pending() == old(self).spec_pending()
                    &&& if find_meta(old(self).spec_waiters(), metadata) is Some {
                        r is AlreadyWaiting && final(self).spec_waiters() == old(
                            self,
                        ).spec_waiters()
                    } else {
                        r is Parked && final(self).spec_waiters() == old(
                            self,
                        ).spec_waiters().push((metadata, ()))
                    }
                },
            },
    {
        let ghost pending0 = self.spec_pending();
        match self.find_pending(metadata) {
            Some(j) => {
                let ghost before = self.pending@;
                let (_, data) = self.pending.remove(j);
                proof {
                    assert forall|k: int|
                        0 <= k < self.spec_pending().len() implies self.spec_pending()[k]
                        == pending0.remove(j as int)[k] by {
                        let k0: int = if k < j {
                            k
                        } else {
                            k + 1
                        };
                        assert(self.pending@[k] == before[k0]);
                    }
                    assert(self.spec_pending() =~= pending0.remove(j as int));
                    lemma_remove_meta_unique(pending0, j as int);
                }
                ReceiveOutcome::Delivered(data)
            },
            None => {
                match self.find_waiter(metadata) {
                    Some(_) => ReceiveOutcome::AlreadyWaiting,
                    None => {
                        let ghost before = self.waiters@;
                        self.waiters.push((metadata, ()));
                        proof {
                            assert(self.waiters@.drop_last() == before);
                            assert forall|a: int, b: int|
                                0 <= a < b < self.waiters@.len() implies (
                            #[trigger] self.waiters@[a]).0 != (
                            #[trigger] self.waiters@[b]).0 by {
                                if b == self.waiters@.len() - 1 {
                                    lemma_find_meta_none(before, metadata);
                                }
                            }
                        }
                        ReceiveOutcome::Parked
                    },
                }
            },
        }
    }

    /// Record an arrived payload: wake the parked request for it if one is
    /// parked, else hold the payload — replacing an already held payload with
    /// the same metadata, which the caller should report.
    pub fn arrived(&mut self, metadata: Message, data: Vec<u8>) -> (r: ArrivalOutcome)
        requires
            old(self).wf(),
        ensures
            final(self).wf(),
            match find_meta(old(self).spec_waiters(), metadata) {
                Some(j) => {
                    &&& (r matches ArrivalOutcome::Woken(handed) && handed@ == data@)
                    &&& final(self).spec_waiters() == old(self).spec_waiters().remove(j)
                    &&& final(self).spec_pending() == old(self).spec_pending()
                },
                None => {
                    &&& final(self).spec_waiters() == old(self).spec_waiters()
                    &&& match find_meta(old(self).spec_pending(), metadata) {
                        Some(j) => r is Replaced && final(self).spec_pending() == old(
                            self,
                        ).spec_pending().update(j, (metadata, data@)),
                        None => r is Stored && final(self).spec_pending() == old(
                            self,
                        ).spec_pending().push((metadata, data@)),
                    }
                },
            },
    {
        let ghost pending0 = self.spec_pending();
        let ghost datav = data@;
        match self.find_waiter(metadata) {
            Some(j) => {
                let ghost before = self.waiters@;
                let _ = self.waiters.remove(j);
                proof {
                    assert(self.waiters@ =~= before.remove(j as int));
                    lemma_remove_meta_unique(before, j as int);
                }
                ArrivalOutcome::Woken(data)
            },
            None => {
                match self.find_pending(metadata) {
                    Some(j) => {
                        let ghost before = self.pending@;
                        let _ = self.pending.remove(j);
                        self.pending.insert(j, (metadata, data));
                        proof {
                            assert(self.pending@ =~= before.update(
                                j as int,
                                self.pending@[j as int],
                            ));
                            assert forall|k: int|
                                0 <= k < self.spec_pending().len() implies self.spec_pending()[k]
                                == pending0.update(j as int, (metadata, datav))[k] by {
                                if k != j {
                                    assert(self.pending@[k] == before[k]);
                                }
                            }
                            assert(self.spec_pending() =~= pending0.update(
                                j as int,
                                (metadata, datav),
                            ));
                            lemma_find_meta_props(pending0, metadata);
                            assert(pending0[j as int].0 == metadata);
                            assert forall|a: int, b: int|
                                0 <= a < b < self.spec_pending().len() implies (
                            #[trigger] self.spec_pending()[a]).0 != (
                            #[trigger] self.spec_pending()[b]).0 by {
                                assert(self.spec_pending()[a].0 == pending0[a].0);
                                assert(self.spec_pending()[b].0 == pending0[b].0);
                            }
                        }
                        ArrivalOutcome::Replaced
                    },
                    None => {
                        let ghost before = self.pending@;
                        self.pending.push((metadata, data));
                        proof {
                            assert(self.pending@.drop_last() == before);
                            assert(self.spec_pending() =~= pending0.push((metadata, datav)));
                            lemma_find_meta_none(pending0, metadata);
                            assert forall|a: int, b: int|
                                0 <= a < b < self.spec_pending().len() implies (
                            #[trigger] self.spec_pending()[a]).0 != (
                            #[trigger] self.spec_pending()[b]).0 by {
                                if b < self.spec_pending().len() - 1 {
                                    assert(self.spec_pending()[a] == pending0[a]);
                                    assert(self.spec_pending()[b] == pending0[b]);
                                } else {
                                    assert(self.spec_pending()[a] == pending0[a]);
                                }
                            }
                        }
                        ArrivalOutcome::Stored
                    },
                }
            },
        }
    }

    /// Locate a held payload by metadata.
    fn find_pending(&self, metadata: Message) -> (r: Option<usize>)
        ensures
            match r {
                Some(j) => find_meta(self.spec_pending(), metadata) == Some(j as int) && j
                    < self.spec_pending().len(),
                None => find_meta(self.spec_pending(), metadata) is None,
            },
    {
        let mut idx: Option<usize> = None;
        let mut m: usize = 0;
        while m < self.pending.len()
            invariant
                m <= self.pending@.len(),
                self.spec_pending().len() == self.pending@.len(),
                forall|k: int|
                    0 <= k < self.pending@.len() ==> (#[trigger] self.spec_pending()[k]).0
                        == self.pending@[k].0,
                match idx {
                    Some(w) => w < m && self.spec_pending()[w as int].0 == metadata
                        && forall|k: int|
                        w < k < m ==> (#[trigger] self.spec_pending()[k]).0 != metadata,
                    None => forall|k: int|
                        0 <= k < m ==> (#[trigger] self.spec_pending()[k]).0 != metadata,
                },
            decreases self.pending@.len() - m,
        {
            if self.pending[m].0 == metadata {
                idx = Some(m);
            }
            m = m + 1;
        }
        proof {
            match idx {
                Some(w) => lemma_find_meta_at(self.spec_pending(), metadata, w as int),
                None => lemma_find_meta_absent(self.spec_pending(), metadata),
            }
        }
        idx
    }

    /// Locate a parked request by metadata.
    fn find_waiter(&self, metadata: Message) -> (r: Option<usize>)
        ensures
            match r {
                Some(j) => find_meta(self.spec_waiters(), metadata) == Some(j as int) && j
                    < self.spec_waiters().len(),
                None => find_meta(self.spec_waiters(), metadata) is None,
            },
    {
        let mut idx: Option<usize> = None;
        let mut m: usize = 0;
        while m < self.waiters.len()
            invariant
                m <= self.waiters@.len(),
                match idx {
                    Some(w) => w < m && self.waiters@[w as int].0 == metadata && forall|k: int|
                        w < k < m ==> (#[trigger] self.waiters@[k]).0 != metadata,
                    None => forall|k: int|
                        0 <= k < m ==> (#[trigger] self.waiters@[k]).0 != metadata,
                },
            decreases self.waiters@.len() - m,
        {
            if self.waiters[m].0 == metadata {
                idx = Some(m);
            }
            m = m + 1;
        }
        proof {
            match idx {
                Some(w) => lemma_find_meta_at(self.spec_waiters(), metadata, w as int),
                None => lemma_find_meta_absent(self.spec_waiters(), metadata),
            }
        }
        idx
    }
}

proof fn lemma_remove_meta_unique<T>(entries: Seq<(Message, T)>, j: int)
    requires
        0 <= j < entries.len(),
        meta_unique(entries),
    ensures
        meta_unique(entries.remove(j)),
{
    assert forall|a: int, b: int|
        0 <= a < b < entries.remove(j).len() implies (#[trigger] entries.remove(j)[a]).0 != (
    #[trigger] entries.remove(j)[b]).0 by {
        let a0: int = if a < j {
            a
        } else {
            a + 1
        };
        let b0: int = if b < j {
            b
        } else {
            b + 1
        };
        assert(entries.remove(j)[a] == entries[a0]);
        assert(entries.remove(j)[b] == entries[b0]);
    }
}

proof fn lemma_find_meta_none<T>(entries: Seq<(Message, T)>, metadata: Message)
    requires
        find_meta(entries, metadata) is None,
    ensures
        forall|k: int| 0 <= k < entries.len() ==> (#[trigger] entries[k]).0 != metadata,
    decreases entries.len(),
{
    if entries.len() > 0 {
        lemma_find_meta_none(entries.drop_last(), metadata);
        assert(forall|k: int| 0 <= k < entries.len() - 1 ==> (#[trigger] entries[k])
            == entries.drop_last()[k]);
    }
}

} // verus!
