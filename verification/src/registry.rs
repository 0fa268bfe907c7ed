use vstd::prelude::*;

use crate::event::Event;

verus! {

/// The handle paired with `id`, scanning from the front of the list.
pub open spec fn assoc_find<H>(s: Seq<(u64, H)>, id: u64) -> Option<H>
    decreases s.len(),
{
    if s.len() == 0 {
        None
    } else if s[0].0 == id {
        Some(s[0].1)
    } else {
        assoc_find(s.drop_first(), id)
    }
}

/// The server's addressing table: a mapping from connection identity to the
/// send handle born with it. Entries are added when the consumer absorbs an
/// accept event; a failed send never removes one. Stored as a list of pairs
/// with pairwise-distinct identities and viewed as a map.
pub struct Registry<H> {
    entries: Vec<(u64, H)>,
}

impl<H> View for Registry<H> {
    type V = Map<u64, H>;

    closed spec fn view(&self) -> Map<u64, H> {
        Map::new(
            |id: u64| assoc_find(self.entries@, id) is Some,
            |id: u64| assoc_find(self.entries@, id).unwrap(),
        )
    }
}

proof fn lemma_find_present<H>(s: Seq<(u64, H)>, id: u64, i: int)
    requires
        0 <= i < s.len(),
        s[i].0 == id,
        forall|j: int| 0 <= j < i ==> s[j].0 != id,
    ensures
        assoc_find(s, id) == Some(s[i].1),
    decreases i,
{
    if i > 0 {
        lemma_find_present(s.drop_first(), id, i - 1);
    }
}

proof fn lemma_find_absent<H>(s: Seq<(u64, H)>, id: u64)
    requires
        forall|j: int| 0 <= j < s.len() ==> s[j].0 != id,
    ensures
        assoc_find(s, id) is None,
    decreases s.len(),
{
    if s.len() > 0 {
        lemma_find_absent(s.drop_first(), id);
    }
}

proof fn lemma_find_update_other<H>(s: Seq<(u64, H)>, i: int, e: (u64, H), k: u64)
    requires
        0 <= i < s.len(),
        s[i].0 == e.0,
        k != e.0,
    ensures
        assoc_find(s.update(i, e), k) == assoc_find(s, k),
    decreases s.len(),
{
    if i == 0 {
        assert(s.update(0, e).drop_first() =~= s.drop_first());
    } else {
        assert(s.update(i, e).drop_first() =~= s.drop_first().update(i - 1, e));
        lemma_find_update_other(s.drop_first(), i - 1, e, k);
    }
}

proof fn lemma_find_push_other<H>(s: Seq<(u64, H)>, e: (u64, H), k: u64)
    requires
        k != e.0,
    ensures
        assoc_find(s.push(e), k) == assoc_find(s, k),
    decreases s.len(),
{
    if s.len() == 0 {
        assert(s.push(e)[0] == e);
        assert(s.push(e).drop_first() =~= Seq::<(u64, H)>::empty());
        assert(assoc_find(s.push(e), k) == assoc_find(Seq::<(u64, H)>::empty(), k));
    } else {
        assert(s.push(e)[0] == s[0]);
        assert(s.push(e).drop_first() =~= s.drop_first().push(e));
        lemma_find_push_other(s.drop_first(), e, k);
    }
}

impl<H> Registry<H> {
    /// Identities are pairwise distinct.
    pub closed spec fn wf(self) -> bool {
        forall|i: int, j: int|
            0 <= i < j < self.entries@.len() ==> self.entries@[i].0 != self.entries@[j].0
    }

    /// An empty registry.
    pub fn new() -> (r: Self)
        ensures
            r.wf(),
            r@ == Map::<u64, H>::empty(),
    {
        let r = Registry { entries: Vec::new() };
        proof {
            assert(r@ =~= Map::<u64, H>::empty());
        }
        r
    }

    /// The handle registered under `id`, if any.
    pub fn get(&self, id: u64) -> (r: Option<&H>)
        requires
            self.wf(),
        ensures
            match r {
                Some(h) => self@.contains_key(id) && self@[id] == *h,
                None => !self@.contains_key(id),
            },
    {
        let n = self.entries.len();
        let mut i: usize = 0;
        while i < n
            invariant
                0 <= i <= n,
                n == self.entries@.len(),
                forall|j: int| 0 <= j < i ==> self.entries@[j].0 != id,
            decreases n - i,
        {
            if self.entries[i].0 == id {
                proof {
                    lemma_find_present(self.entries@, id, i as int);
                }
                return Some(&self.entries[i].1);
            }
            i += 1;
        }
        proof {
            lemma_find_absent(self.entries@, id);
        }
        None
    }

    /// Register `handle` under `id`, replacing any previous entry.
    pub fn insert(&mut self, id: u64, handle: H)
        requires
            old(self).wf(),
        ensures
            final(self).wf(),
            final(self)@ == old(self)@.insert(id, handle),
    {
        let ghost s0 = self.entries@;
        let n = self.entries.len();
        let mut i: usize = 0;
        while i < n
            invariant
                0 <= i <= n,
                n == self.entries@.len(),
                self.entries@ == s0,
                s0 == old(self).entries@,
                old(self).wf(),
                forall|j: int| 0 <= j < i ==> self.entries@[j].0 != id,
            decreases n - i,
        {
            if self.entries[i].0 == id {
                self.entries.set(i, (id, handle));
                proof {
                    let s1 = self.entries@;
                    assert(s1 == s0.update(i as int, (id, handle)));
                    assert(forall|j: int| 0 <= j < s1.len() ==> (#[trigger] s1[j]).0 == s0[j].0);
                    assert(self.wf());
                    lemma_find_present(s1, id, i as int);
                    assert forall|k: u64| k != id implies assoc_find(s1, k) == assoc_find(
                        s0,
                        k,
                    ) by {
                        lemma_find_update_other(s0, i as int, (id, handle), k);
                    }
                    assert(self@ =~= old(self)@.insert(id, handle));
                }
                return ;
            }
            i += 1;
        }
        self.entries.push((id, handle));
        proof {
            let s1 = self.entries@;
            assert(s1 == s0.push((id, handle)));
            assert(forall|j: int| 0 <= j < s0.len() ==> s0[j].0 != id);
            assert(self.wf());
            lemma_find_present(s1, id, s0.len() as int);
            assert forall|k: u64| k != id implies assoc_find(s1, k) == assoc_find(s0, k) by {
                lemma_find_push_other(s0, (id, handle), k);
            }
            assert(self@ =~= old(self)@.insert(id, handle));
        }
    }

    /// Every registered identity, each exactly once.
    pub fn ids(&self) -> (r: Vec<u64>)
        requires
            self.wf(),
        ensures
            r@.no_duplicates(),
            forall|j: int| 0 <= j < r@.len() ==> self@.contains_key(#[trigger] r@[j]),
            forall|id: u64| self@.contains_key(id) ==> r@.contains(id),
    {
        let n = self.entries.len();
        let mut r: Vec<u64> = Vec::new();
        let mut i: usize = 0;
        while i < n
            invariant
                0 <= i <= n,
                n == self.entries@.len(),
                self.wf(),
                r@.len() == i,
                forall|j: int| 0 <= j < i ==> r@[j] == self.entries@[j].0,
            decreases n - i,
        {
            r.push(self.entries[i].0);
            i += 1;
        }
        proof {
            let s = self.entries@;
            assert forall|j: int| 0 <= j < r@.len() implies self@.contains_key(
                #[trigger] r@[j],
            ) by {
                lemma_find_present(s, s[j].0, j);
            }
            assert forall|id: u64| self@.contains_key(id) implies r@.contains(id) by {
                lemma_find_some_at(s, id);
                let j = choose|j: int| 0 <= j < s.len() && s[j].0 == id;
                assert(r@[j] == id);
            }
        }
        r
    }

    /// Absorb one bridge event: an accept event registers its handle, a data
    /// event is handed back for delivery and leaves the registry unchanged.
    pub fn apply(&mut self, ev: Event<H>) -> (r: Option<(u64, Vec<u8>)>)
        requires
            old(self).wf(),
        ensures
            final(self).wf(),
            match ev {
                Event::Conn { id, handle } => r is None && final(self)@ == old(self)@.insert(
                    id,
                    handle,
                ),
                Event::Data { id, bytes } => final(self)@ == old(self)@ && (r matches Some(d)
                    && d.0 == id && d.1@ == bytes@),
            },
    {
        match ev {
            Event::Conn { id, handle } => {
                self.insert(id, handle);
                None
            },
            Event::Data { id, bytes } => Some((id, bytes)),
        }
    }
}

proof fn lemma_find_some_at<H>(s: Seq<(u64, H)>, id: u64)
    requires
        assoc_find(s, id) is Some,
    ensures
        exists|j: int| 0 <= j < s.len() && s[j].0 == id,
    decreases s.len(),
{
    if s.len() > 0 && s[0].0 != id {
        lemma_find_some_at(s.drop_first(), id);
        let j = choose|j: int| 0 <= j < s.drop_first().len() && s.drop_first()[j].0 == id;
        assert(s[j + 1].0 == id);
    }
}

} // verus!
