//! The store that mirrors the compositor's heads and modes.
use vstd::prelude::*;

use crate::head::{base_identity, head_identity, WlBaseHead, WlBaseMode, WlGenericId, WlHead, WlMode};

verus! {

/// A head as the store keeps it: its modes and current mode are the
/// protocol ids of mode objects.
#[derive(Debug)]
pub struct StoreHead {
    pub base: WlBaseHead,
    pub current_mode: Option<u64>,
    pub modes: Vec<u64>,
    pub id: WlGenericId,
    pub foreign: u64,
}

/// A mode as the store keeps it.
#[derive(Clone, Copy, Debug)]
pub struct StoreMode {
    pub base: WlBaseMode,
    pub id: WlGenericId,
    pub foreign: u64,
}

/// Why a store lookup failed.
#[derive(Clone, Copy, Debug, PartialEq, Eq, Structural)]
pub enum WlStoreError {
    HeadNotFound { head_id: u64 },
    /// No owning head is recorded for the mode being released.
    ReleaseOutputMode { mode_id: u64 },
    ModeNotFound { mode_id: u64 },
    UnknownStoreKey { key: WlGenericId },
}

/// Heads and modes keyed by the protocol ids of their objects, each with a
/// stable id of the store's own, handed out in increasing order.
#[derive(Debug)]
pub struct WlStore {
    heads: Vec<StoreHead>,
    modes: Vec<StoreMode>,
    mode_owner: Vec<(u64, u64)>,
    id_counter: usize,
}

/// `s` with every `m` taken out.
pub open spec fn without(s: Seq<u64>, m: u64) -> Seq<u64>
    decreases s.len(),
{
    if s.len() == 0 {
        s
    } else if s.last() == m {
        without(s.drop_last(), m)
    } else {
        without(s.drop_last(), m).push(s.last())
    }
}

proof fn lemma_push_contains(p: Seq<u64>, l: u64, x: u64)
    ensures
        p.push(l).contains(x) <==> (p.contains(x) || l == x),
{
    if p.contains(x) {
        let i = choose|i: int| 0 <= i < p.len() && p[i] == x;
        assert(p.push(l)[i] == x);
    }
    if l == x {
        assert(p.push(l)[p.len() as int] == x);
    }
    if p.push(l).contains(x) {
        let i = choose|i: int| 0 <= i < p.len() + 1 && p.push(l)[i] == x;
        if i < p.len() {
            assert(p[i] == x);
        }
    }
}

proof fn lemma_without(s: Seq<u64>, m: u64)
    ensures
        forall|x: u64| #[trigger] without(s, m).contains(x) <==> (s.contains(x) && x != m),
    decreases s.len(),
{
    if s.len() > 0 {
        let p = s.drop_last();
        lemma_without(p, m);
        assert(s =~= p.push(s.last()));
        assert forall|x: u64| #[trigger] without(s, m).contains(x) <==> (s.contains(x) && x != m) by {
            lemma_push_contains(p, s.last(), x);
            assert(s.contains(x) <==> (p.contains(x) || s.last() == x));
            assert(without(p, m).contains(x) <==> (p.contains(x) && x != m));
            if s.last() != m {
                lemma_push_contains(without(p, m), s.last(), x);
                assert(without(s, m) == without(p, m).push(s.last()));
            } else {
                assert(without(s, m) == without(p, m));
            }
        }
    }
}

/// The protocol id of the first head, from position `i` on, that has the
/// store id `key`.
pub open spec fn head_foreign_from(hs: Seq<StoreHead>, key: WlGenericId, i: nat) -> Option<u64>
    decreases hs.len() - i,
{
    if i >= hs.len() {
        None
    } else if hs[i as int].id == key {
        Some(hs[i as int].foreign)
    } else {
        head_foreign_from(hs, key, i + 1)
    }
}

/// The protocol id of the first mode, from position `i` on, that has the
/// store id `key`.
pub open spec fn mode_foreign_from(ms: Seq<StoreMode>, key: WlGenericId, i: nat) -> Option<u64>
    decreases ms.len() - i,
{
    if i >= ms.len() {
        None
    } else if ms[i as int].id == key {
        Some(ms[i as int].foreign)
    } else {
        mode_foreign_from(ms, key, i + 1)
    }
}

/// A head id is found exactly when some head has it.
pub proof fn lemma_head_foreign_from(hs: Seq<StoreHead>, key: WlGenericId, i: nat)
    ensures
        head_foreign_from(hs, key, i) is Some <==> exists|j: int| i <= j < hs.len() && (#[trigger] hs[j]).id == key,
    decreases hs.len() - i,
{
    if i < hs.len() {
        lemma_head_foreign_from(hs, key, i + 1);
        if hs[i as int].id != key {
            assert forall|j: int| i <= j < hs.len() && (#[trigger] hs[j]).id == key implies i + 1 <= j by {}
        }
    }
}

/// A mode id is found exactly when some mode has it.
pub proof fn lemma_mode_foreign_from(ms: Seq<StoreMode>, key: WlGenericId, i: nat)
    ensures
        mode_foreign_from(ms, key, i) is Some <==> exists|j: int| i <= j < ms.len() && (#[trigger] ms[j]).id == key,
    decreases ms.len() - i,
{
    if i < ms.len() {
        lemma_mode_foreign_from(ms, key, i + 1);
        if ms[i as int].id != key {
            assert forall|j: int| i <= j < ms.len() && (#[trigger] ms[j]).id == key implies i + 1 <= j by {}
        }
    }
}

pub open spec fn keys_unique_heads(hs: Seq<StoreHead>) -> bool {
    forall|i: int, j: int| 0 <= i < j < hs.len() ==> hs[i].foreign != hs[j].foreign
}

pub open spec fn keys_unique_modes(ms: Seq<StoreMode>) -> bool {
    forall|i: int, j: int| 0 <= i < j < ms.len() ==> ms[i].foreign != ms[j].foreign
}

pub open spec fn keys_unique_owners(os: Seq<(u64, u64)>) -> bool {
    forall|i: int, j: int| 0 <= i < j < os.len() ==> os[i].0 != os[j].0
}

impl WlStore {
    pub closed spec fn heads_spec(&self) -> Seq<StoreHead> {
        self.heads@
    }

    pub closed spec fn modes_spec(&self) -> Seq<StoreMode> {
        self.modes@
    }

    /// Which head each mode belongs to, as pairs of protocol ids.
    pub closed spec fn owners_spec(&self) -> Seq<(u64, u64)> {
        self.mode_owner@
    }

    /// The last id handed out.
    pub closed spec fn counter_spec(&self) -> usize {
        self.id_counter
    }

    /// Every protocol id names at most one head, one mode and one owner.
    pub open spec fn wf(&self) -> bool {
        &&& keys_unique_heads(self.heads_spec())
        &&& keys_unique_modes(self.modes_spec())
        &&& keys_unique_owners(self.owners_spec())
    }

    pub open spec fn has_head(&self, f: u64) -> bool {
        exists|i: int| 0 <= i < self.heads_spec().len() && (#[trigger] self.heads_spec()[i]).foreign == f
    }

    /// A copy of the mode with protocol id `f`.
    pub open spec fn mode_copy(&self, f: u64) -> WlMode {
        let k = choose|k: int| 0 <= k < self.modes_spec().len() && (#[trigger] self.modes_spec()[k]).foreign == f;
        WlMode { base: self.modes_spec()[k].base, id: self.modes_spec()[k].id }
    }

    /// Copies of the modes with the protocol ids `ids` that the store knows,
    /// in order.
    pub open spec fn mode_copies(&self, ids: Seq<u64>) -> Seq<WlMode>
        decreases ids.len(),
    {
        if ids.len() == 0 {
            Seq::empty()
        } else {
            let prev = self.mode_copies(ids.drop_last());
            if self.has_mode(ids.last()) {
                prev.push(self.mode_copy(ids.last()))
            } else {
                prev
            }
        }
    }

    /// `hs` is a snapshot of the store's heads: each with its id and
    /// attributes, copies of its known modes in order, and a copy of its
    /// current mode.
    pub open spec fn is_snapshot(&self, hs: Seq<WlHead>) -> bool {
        &&& hs.len() == self.heads_spec().len()
        &&& forall|i: int|
            0 <= i < hs.len() ==> {
                &&& (#[trigger] hs[i]).id == self.heads_spec()[i].id
                &&& hs[i].base == self.heads_spec()[i].base
                &&& hs[i].modes@ == self.mode_copies(self.heads_spec()[i].modes@)
                &&& hs[i].current_mode == match self.heads_spec()[i].current_mode {
                    Some(m) => Some(self.mode_copy(m)),
                    None => None,
                }
            }
    }

    /// Every head's current mode is a mode the store knows.
    pub open spec fn exportable(&self) -> bool {
        forall|i: int|
            0 <= i < self.heads_spec().len() ==> match (#[trigger] self.heads_spec()[i]).current_mode {
                Some(m) => self.has_mode(m),
                None => true,
            }
    }

    /// Some mode of the store has the id `id`.
    pub open spec fn knows_mode_id(&self, id: WlGenericId) -> bool {
        exists|k: int| 0 <= k < self.modes_spec().len() && (#[trigger] self.modes_spec()[k]).id == id
    }

    /// Some head of the store has the id `id`.
    pub open spec fn knows_head_id(&self, id: WlGenericId) -> bool {
        exists|k: int| 0 <= k < self.heads_spec().len() && (#[trigger] self.heads_spec()[k]).id == id
    }

    /// An owning head is recorded for the mode `m`.
    pub open spec fn has_owner(&self, m: u64) -> bool {
        exists|j: int| 0 <= j < self.owners_spec().len() && (#[trigger] self.owners_spec()[j]).0 == m
    }

    /// The position of the owner entry of `m`.
    pub open spec fn owner_index(&self, m: u64) -> int {
        choose|j: int| 0 <= j < self.owners_spec().len() && (#[trigger] self.owners_spec()[j]).0 == m
    }

    /// The owning head recorded for `m`.
    pub open spec fn owner_of(&self, m: u64) -> u64 {
        self.owners_spec()[self.owner_index(m)].1
    }

    pub open spec fn has_mode(&self, f: u64) -> bool {
        exists|i: int| 0 <= i < self.modes_spec().len() && (#[trigger] self.modes_spec()[i]).foreign == f
    }

    pub fn new() -> (r: WlStore)
        ensures
            r.wf(),
            r.heads_spec().len() == 0,
            r.modes_spec().len() == 0,
            r.owners_spec().len() == 0,
            r.counter_spec() == 0,
    {
        WlStore { heads: Vec::new(), modes: Vec::new(), mode_owner: Vec::new(), id_counter: 0 }
    }

    pub fn heads_count(&self) -> (r: usize)
        ensures
            r == self.heads_spec().len(),
    {
        self.heads.len()
    }

    fn find_head(&self, f: u64) -> (r: Option<usize>)
        ensures
            r is None ==> !self.has_head(f),
            r matches Some(i) ==> i < self.heads_spec().len() && self.heads_spec()[i as int].foreign == f,
    {
        let mut i: usize = 0;
        while i < self.heads.len()
            invariant
                i <= self.heads@.len(),
                forall|j: int| 0 <= j < i ==> self.heads@[j].foreign != f,
            decreases self.heads@.len() - i,
        {
            if self.heads[i].foreign == f {
                return Some(i);
            }
            i += 1;
        }
        None
    }

    fn find_mode(&self, f: u64) -> (r: Option<usize>)
        ensures
            r is None ==> !self.has_mode(f),
            r matches Some(i) ==> i < self.modes_spec().len() && self.modes_spec()[i as int].foreign == f,
    {
        let mut i: usize = 0;
        while i < self.modes.len()
            invariant
                i <= self.modes@.len(),
                forall|j: int| 0 <= j < i ==> self.modes@[j].foreign != f,
            decreases self.modes@.len() - i,
        {
            if self.modes[i].foreign == f {
                return Some(i);
            }
            i += 1;
        }
        None
    }

    fn find_owner(&self, m: u64) -> (r: Option<usize>)
        ensures
            r is None ==> forall|j: int| 0 <= j < self.mode_owner@.len() ==> self.mode_owner@[j].0 != m,
            r matches Some(i) ==> i < self.mode_owner@.len() && self.mode_owner@[i as int].0 == m,
    {
        let mut i: usize = 0;
        while i < self.mode_owner.len()
            invariant
                i <= self.mode_owner@.len(),
                forall|j: int| 0 <= j < i ==> self.mode_owner@[j].0 != m,
            decreases self.mode_owner@.len() - i,
        {
            if self.mode_owner[i].0 == m {
                return Some(i);
            }
            i += 1;
        }
        None
    }

    fn new_store_id(&mut self) -> (r: WlGenericId)
        requires
            old(self).counter_spec() < usize::MAX,
        ensures
            r.0 == old(self).counter_spec() + 1,
            final(self).counter_spec() == r.0,
            final(self).heads_spec() == old(self).heads_spec(),
            final(self).modes_spec() == old(self).modes_spec(),
            final(self).owners_spec() == old(self).owners_spec(),
    {
        self.id_counter = self.id_counter + 1;
        WlGenericId(self.id_counter)
    }

    /// Records a new head with default attributes and no modes. A head with
    /// the same protocol id is replaced.
    pub fn insert_head(&mut self, foreign: u64)
        requires
            old(self).wf(),
            old(self).counter_spec() < usize::MAX,
        ensures
            final(self).wf(),
            final(self).counter_spec() == old(self).counter_spec() + 1,
            final(self).modes_spec() == old(self).modes_spec(),
            final(self).owners_spec() == old(self).owners_spec(),
            old(self).has_head(foreign) ==> final(self).heads_spec().len() == old(self).heads_spec().len(),
            !old(self).has_head(foreign) ==> final(self).heads_spec().len() == old(self).heads_spec().len() + 1,
            exists|i: int|
                0 <= i < final(self).heads_spec().len() && {
                    let h = #[trigger] final(self).heads_spec()[i];
                    &&& h.foreign == foreign
                    &&& h.id.0 == final(self).counter_spec()
                    &&& h.modes@.len() == 0
                    &&& h.current_mode is None
                },
            forall|i: int|
                0 <= i < old(self).heads_spec().len() && old(self).heads_spec()[i].foreign != foreign
                    ==> #[trigger] final(self).heads_spec()[i] == old(self).heads_spec()[i],
    {
        let id = self.new_store_id();
        let h = StoreHead {
            base: WlBaseHead::new(),
            current_mode: None,
            modes: Vec::new(),
            id,
            foreign,
        };
        match self.find_head(foreign) {
            Some(i) => {
                self.heads.set(i, h);
                proof {
                    assert(final(self).heads_spec()[i as int].foreign == foreign);
                }
            },
            None => {
                self.heads.push(h);
                proof {
                    let n = self.heads@.len() - 1;
                    assert(self.heads@[n].foreign == foreign);
                }
            },
        }
    }

    /// Records a mode of the head `head_foreign`, appending it to the head's
    /// modes. Fails, changing nothing, where the head is unknown.
    pub fn insert_mode(&mut self, head_foreign: u64, mode_foreign: u64) -> (r: Result<(), WlStoreError>)
        requires
            old(self).wf(),
            old(self).counter_spec() < usize::MAX,
        ensures
            final(self).wf(),
            r is Err <==> !old(self).has_head(head_foreign),
            r is Err ==> r == Err::<(), WlStoreError>(WlStoreError::HeadNotFound { head_id: head_foreign })
                && final(self).heads_spec() == old(self).heads_spec()
                && final(self).modes_spec() == old(self).modes_spec()
                && final(self).owners_spec() == old(self).owners_spec(),
            r is Ok ==> {
                &&& final(self).has_mode(mode_foreign)
                &&& final(self).heads_spec().len() == old(self).heads_spec().len()
                &&& forall|i: int|
                    0 <= i < old(self).heads_spec().len() ==> {
                        let (o, n) = (old(self).heads_spec()[i], #[trigger] final(self).heads_spec()[i]);
                        &&& n.foreign == o.foreign
                        &&& n.id == o.id
                        &&& n.base == o.base
                        &&& n.current_mode == o.current_mode
                        &&& n.modes@ == if o.foreign == head_foreign {
                            o.modes@.push(mode_foreign)
                        } else {
                            o.modes@
                        }
                    }
                &&& exists|k: int|
                    0 <= k < final(self).owners_spec().len() && #[trigger] final(self).owners_spec()[k]
                        == (mode_foreign, head_foreign)
            },
    {
        let hi = match self.find_head(head_foreign) {
            None => {
                return Err(WlStoreError::HeadNotFound { head_id: head_foreign });
            },
            Some(hi) => hi,
        };
        let id = self.new_store_id();
        let m = StoreMode { base: WlBaseMode::new(), id, foreign: mode_foreign };
        let mi = match self.find_mode(mode_foreign) {
            Some(mi) => {
                self.modes.set(mi, m);
                proof {
                    assert forall|a: int, b: int|
                        0 <= a < b < self.modes@.len() implies self.modes@[a].foreign
                        != self.modes@[b].foreign by {
                        assert(self.modes@[a].foreign == old(self).modes@[a].foreign);
                        assert(self.modes@[b].foreign == old(self).modes@[b].foreign);
                    }
                }
                mi
            },
            None => {
                self.modes.push(m);
                proof {
                    assert forall|a: int, b: int|
                        0 <= a < b < self.modes@.len() implies self.modes@[a].foreign
                        != self.modes@[b].foreign by {
                        assert(self.modes@[a] == old(self).modes@[a]);
                        if b < old(self).modes@.len() {
                            assert(self.modes@[b] == old(self).modes@[b]);
                        } else {
                            assert(old(self).modes_spec()[a].foreign != mode_foreign);
                        }
                    }
                }
                self.modes.len() - 1
            },
        };
        let ghost owners0 = self.mode_owner@;
        let k = match self.find_owner(mode_foreign) {
            Some(k) => {
                self.mode_owner.set(k, (mode_foreign, head_foreign));
                proof {
                    assert forall|a: int, b: int|
                        0 <= a < b < self.mode_owner@.len() implies self.mode_owner@[a].0
                        != self.mode_owner@[b].0 by {
                        assert(self.mode_owner@[a].0 == old(self).mode_owner@[a].0);
                        assert(self.mode_owner@[b].0 == old(self).mode_owner@[b].0);
                    }
                }
                k
            },
            None => {
                self.mode_owner.push((mode_foreign, head_foreign));
                proof {
                    assert forall|a: int, b: int|
                        0 <= a < b < self.mode_owner@.len() implies self.mode_owner@[a].0
                        != self.mode_owner@[b].0 by {
                        assert(self.mode_owner@[a] == old(self).mode_owner@[a]);
                        if b < old(self).mode_owner@.len() {
                            assert(self.mode_owner@[b] == old(self).mode_owner@[b]);
                        } else {
                            assert(owners0[a].0 != mode_foreign);
                        }
                    }
                }
                self.mode_owner.len() - 1
            },
        };
        proof {
            assert(self.modes_spec()[mi as int].foreign == mode_foreign);
            assert(self.owners_spec()[k as int] == (mode_foreign, head_foreign));
        }
        let ghost mid = self.heads@;
        let mut modes = self.heads[hi].modes.clone();
        proof {
            assert(modes@ =~= self.heads@[hi as int].modes@);
        }
        modes.push(mode_foreign);
        self.heads[hi].modes = modes;
        proof {
            assert(mid == old(self).heads@);
            assert forall|a: int, b: int|
                0 <= a < b < self.heads@.len() implies self.heads@[a].foreign
                != self.heads@[b].foreign by {
                assert(self.heads@[a].foreign == mid[a].foreign);
                assert(self.heads@[b].foreign == mid[b].foreign);
            }
            assert(self.modes_spec()[mi as int].foreign == mode_foreign);
            assert(self.has_mode(mode_foreign));
            assert(self.owners_spec()[k as int] == (mode_foreign, head_foreign));
            assert forall|i: int| 0 <= i < old(self).heads_spec().len() implies {
                let (o, n) = (old(self).heads_spec()[i], #[trigger] self.heads_spec()[i]);
                &&& n.foreign == o.foreign
                &&& n.id == o.id
                &&& n.base == o.base
                &&& n.current_mode == o.current_mode
                &&& n.modes@ == if o.foreign == head_foreign {
                    o.modes@.push(mode_foreign)
                } else {
                    o.modes@
                }
            } by {
                if i != hi {
                    assert(self.heads@[i] == mid[i]);
                    if old(self).heads@[i].foreign == head_foreign {
                        assert(old(self).heads@[hi as int].foreign == head_foreign);
                    }
                }
            }
        }
        Ok(())
    }

    /// Forgets the mode `mode_foreign`: every head loses it from its modes and
    /// from its current mode, and the mode's record goes. Fails where no
    /// owning head is recorded for the mode, or the owner is unknown.
    pub fn remove_mode(&mut self, mode_foreign: u64) -> (r: Result<(), WlStoreError>)
        requires
            old(self).wf(),
        ensures
            final(self).wf(),
            !old(self).has_owner(mode_foreign) ==> r == Err::<(), WlStoreError>(
                WlStoreError::ReleaseOutputMode { mode_id: mode_foreign },
            ),
            old(self).has_owner(mode_foreign) && !old(self).has_head(old(self).owner_of(mode_foreign)) ==> r == Err::<
                (),
                WlStoreError,
            >(WlStoreError::HeadNotFound { head_id: old(self).owner_of(mode_foreign) }),
            r is Ok <==> old(self).has_owner(mode_foreign) && old(self).has_head(old(self).owner_of(mode_foreign)),
            r is Err ==> final(self).heads_spec() == old(self).heads_spec() && final(self).modes_spec()
                == old(self).modes_spec() && final(self).owners_spec() == old(self).owners_spec()
                && final(self).counter_spec() == old(self).counter_spec(),
            final(self).counter_spec() == old(self).counter_spec(),
            r is Ok ==> {
                &&& final(self).heads_spec().len() == old(self).heads_spec().len()
                &&& forall|i: int|
                    0 <= i < old(self).heads_spec().len() ==> {
                        let (o, n) = (old(self).heads_spec()[i], #[trigger] final(self).heads_spec()[i]);
                        &&& n.foreign == o.foreign
                        &&& n.id == o.id
                        &&& n.base == o.base
                        &&& n.modes@ == without(o.modes@, mode_foreign)
                        &&& n.current_mode == if o.current_mode == Some(mode_foreign) {
                            None
                        } else {
                            o.current_mode
                        }
                    }
                &&& !final(self).has_mode(mode_foreign)
                &&& forall|i: int|
                    0 <= i < final(self).heads_spec().len() ==> !(#[trigger] final(self).heads_spec()[i]).modes@.contains(
                        mode_foreign,
                    ) && final(self).heads_spec()[i].current_mode != Some(mode_foreign)
                &&& !final(self).has_owner(mode_foreign)
                &&& forall|j: int|
                    0 <= j < old(self).owners_spec().len() && old(self).owners_spec()[j].0 != mode_foreign
                        ==> final(self).owners_spec().contains(#[trigger] old(self).owners_spec()[j])
                &&& forall|j: int|
                    0 <= j < final(self).owners_spec().len() ==> old(self).owners_spec().contains(
                        #[trigger] final(self).owners_spec()[j],
                    )
                &&& forall|j: int|
                    0 <= j < old(self).modes_spec().len() && old(self).modes_spec()[j].foreign != mode_foreign
                        ==> final(self).modes_spec().contains(#[trigger] old(self).modes_spec()[j])
            },
    {
        let ghost owners0 = self.mode_owner@;
        let k = match self.find_owner(mode_foreign) {
            None => {
                return Err(WlStoreError::ReleaseOutputMode { mode_id: mode_foreign });
            },
            Some(k) => k,
        };
        let owner = self.mode_owner[k].1;
        proof {
            assert(self.owners_spec()[k as int].0 == mode_foreign);
            let j = self.owner_index(mode_foreign);
            assert(j == k) by {
                assert(self.mode_owner@[j].0 == mode_foreign);
            }
        }
        if self.find_head(owner).is_none() {
            return Err(WlStoreError::HeadNotFound { head_id: owner });
        }
        self.mode_owner.remove(k);
        proof {
            assert forall|a: int, b: int|
                0 <= a < b < self.mode_owner@.len() implies self.mode_owner@[a].0
                != self.mode_owner@[b].0 by {
                let (a2, b2) = (if a < k { a } else { a + 1 }, if b < k { b } else { b + 1 });
                assert(self.mode_owner@[a] == old(self).mode_owner@[a2]);
                assert(self.mode_owner@[b] == old(self).mode_owner@[b2]);
            }
            assert forall|j: int|
                0 <= j < old(self).owners_spec().len() && old(self).owners_spec()[j].0 != mode_foreign
                    implies self.mode_owner@.contains(#[trigger] old(self).owners_spec()[j]) by {
                let j2 = if j < k { j } else { j - 1 };
                assert(j != k);
                assert(self.mode_owner@[j2] == old(self).mode_owner@[j]);
            }
            assert forall|j: int| 0 <= j < self.mode_owner@.len() implies old(self).owners_spec().contains(
                #[trigger] self.mode_owner@[j],
            ) by {
                let j2 = if j < k { j } else { j + 1 };
                assert(self.mode_owner@[j] == old(self).mode_owner@[j2]);
            }
            assert forall|j: int| 0 <= j < self.mode_owner@.len() implies self.mode_owner@[j].0 != mode_foreign by {
                let j2 = if j < k { j } else { j + 1 };
                assert(self.mode_owner@[j] == old(self).mode_owner@[j2]);
            }
        }
        let ghost before = self.heads@;
        let ghost owners1 = self.mode_owner@;
        let mut i: usize = 0;
        while i < self.heads.len()
            invariant
                self.heads@.len() == before.len(),
                keys_unique_heads(before),
                self.modes@ == old(self).modes@,
                self.id_counter == old(self).id_counter,
                keys_unique_modes(self.modes@),
                keys_unique_owners(self.mode_owner@),
                owners1 == self.mode_owner@,
                i <= before.len(),
                forall|j: int|
                    0 <= j < before.len() ==> (#[trigger] self.heads@[j]).foreign == before[j].foreign
                        && self.heads@[j].id == before[j].id && self.heads@[j].base == before[j].base,
                forall|j: int|
                    0 <= j < i ==> !(#[trigger] self.heads@[j]).modes@.contains(mode_foreign) && self.heads@[j].current_mode != Some(mode_foreign),
                forall|j: int|
                    0 <= j < i ==> (#[trigger] self.heads@[j]).modes@ == without(before[j].modes@, mode_foreign)
                        && self.heads@[j].current_mode == if before[j].current_mode == Some(mode_foreign) {
                            None
                        } else {
                            before[j].current_mode
                        },
                forall|j: int|
                    i <= j < before.len() ==> (#[trigger] self.heads@[j]).modes@ == before[j].modes@
                        && self.heads@[j].current_mode == before[j].current_mode,
            decreases before.len() - i,
        {
            if self.heads[i].current_mode == Some(mode_foreign) {
                self.heads[i].current_mode = None;
            }
            let mut kept: Vec<u64> = Vec::new();
            let mut j: usize = 0;
            let ghost ms = self.heads@[i as int].modes@;
            while j < self.heads[i].modes.len()
                invariant
                    i < self.heads@.len(),
                    ms == self.heads@[i as int].modes@,
                    j <= ms.len(),
                    kept@ == without(ms.subrange(0, j as int), mode_foreign),
                decreases ms.len() - j,
            {
                let x = self.heads[i].modes[j];
                proof {
                    assert(ms.subrange(0, j + 1).drop_last() =~= ms.subrange(0, j as int));
                }
                if x != mode_foreign {
                    kept.push(x);
                }
                j += 1;
            }
            proof {
                assert(ms.subrange(0, ms.len() as int) =~= ms);
                lemma_without(ms, mode_foreign);
            }
            self.heads[i].modes = kept;
            i += 1;
        }
        if let Some(mi) = self.find_mode(mode_foreign) {
            self.modes.remove(mi);
            proof {
                assert forall|a: int, b: int|
                    0 <= a < b < self.modes@.len() implies self.modes@[a].foreign
                    != self.modes@[b].foreign by {
                    let (a2, b2) = (if a < mi { a } else { a + 1 }, if b < mi { b } else { b + 1 });
                    assert(self.modes@[a] == old(self).modes@[a2]);
                    assert(self.modes@[b] == old(self).modes@[b2]);
                }
                assert forall|a: int| 0 <= a < self.modes@.len() implies self.modes@[a].foreign
                    != mode_foreign by {
                    let a2 = if a < mi { a } else { a + 1 };
                    assert(self.modes@[a] == old(self).modes@[a2]);
                }
                assert forall|j: int|
                    0 <= j < old(self).modes_spec().len() && old(self).modes_spec()[j].foreign != mode_foreign
                        implies self.modes@.contains(#[trigger] old(self).modes_spec()[j]) by {
                    assert(j != mi);
                    let j2 = if j < mi { j } else { j - 1 };
                    assert(self.modes@[j2] == old(self).modes@[j]);
                }
            }
        }
        Ok(())
    }

    /// Forgets the head `head_foreign`; its modes are expected to have gone
    /// before it.
    pub fn remove_head(&mut self, head_foreign: u64)
        requires
            old(self).wf(),
        ensures
            final(self).wf(),
            !final(self).has_head(head_foreign),
            forall|i: int|
                0 <= i < old(self).heads_spec().len() && old(self).heads_spec()[i].foreign != head_foreign
                    ==> exists|j: int|
                    0 <= j < final(self).heads_spec().len() && #[trigger] final(self).heads_spec()[j]
                        == old(self).heads_spec()[i],
    {
        if let Some(i) = self.find_head(head_foreign) {
            self.heads.remove(i);
            proof {
                assert forall|a: int, b: int|
                    0 <= a < b < self.heads@.len() implies self.heads@[a].foreign
                    != self.heads@[b].foreign by {
                    let (a2, b2) = (if a < i { a } else { a + 1 }, if b < i { b } else { b + 1 });
                    assert(self.heads@[a] == old(self).heads@[a2]);
                    assert(self.heads@[b] == old(self).heads@[b2]);
                }
                assert forall|a: int| 0 <= a < self.heads@.len() implies self.heads@[a].foreign
                    != head_foreign by {
                    let a2 = if a < i { a } else { a + 1 };
                    assert(self.heads@[a] == old(self).heads@[a2]);
                }
                assert forall|a: int|
                    0 <= a < old(self).heads_spec().len() && old(self).heads_spec()[a].foreign
                        != head_foreign implies exists|j: int|
                    0 <= j < self.heads@.len() && #[trigger] self.heads@[j]
                        == old(self).heads_spec()[a] by {
                    let j = if a < i { a } else { a - 1 };
                    assert(self.heads@[j] == old(self).heads@[a]);
                }
            }
        }
    }
}

impl WlStore {
    /// The head with protocol id `head_foreign`.
    pub fn head(&self, head_foreign: u64) -> (r: Result<&StoreHead, WlStoreError>)
        ensures
            r is Err <==> !self.has_head(head_foreign),
            r matches Ok(h) ==> h.foreign == head_foreign && self.heads_spec().contains(*h),
            r is Err ==> r == Err::<&StoreHead, WlStoreError>(WlStoreError::HeadNotFound { head_id: head_foreign }),
    {
        match self.find_head(head_foreign) {
            Some(i) => {
                proof {
                    assert(self.heads_spec()[i as int] == self.heads@[i as int]);
                }
                Ok(&self.heads[i])
            },
            None => Err(WlStoreError::HeadNotFound { head_id: head_foreign }),
        }
    }

    /// The protocol id of the head the store gave the id `key`.
    pub fn head_foreign_of(&self, key: WlGenericId) -> (r: Result<u64, WlStoreError>)
        ensures
            r == match head_foreign_from(self.heads_spec(), key, 0) {
                Some(f) => Ok::<u64, WlStoreError>(f),
                None => Err(WlStoreError::UnknownStoreKey { key }),
            },
            r matches Ok(f) ==> exists|i: int|
                0 <= i < self.heads_spec().len() && (#[trigger] self.heads_spec()[i]).id == key
                    && self.heads_spec()[i].foreign == f,
            r is Err ==> r == Err::<u64, WlStoreError>(WlStoreError::UnknownStoreKey { key })
                && forall|i: int| 0 <= i < self.heads_spec().len() ==> (#[trigger] self.heads_spec()[i]).id != key,
    {
        let mut i: usize = 0;
        while i < self.heads.len()
            invariant
                i <= self.heads@.len(),
                forall|j: int| 0 <= j < i ==> self.heads@[j].id != key,
                head_foreign_from(self.heads_spec(), key, 0) == head_foreign_from(self.heads_spec(), key, i as nat),
            decreases self.heads@.len() - i,
        {
            if self.heads[i].id == key {
                proof {
                    assert(self.heads_spec()[i as int].id == key);
                }
                return Ok(self.heads[i].foreign);
            }
            i += 1;
        }
        Err(WlStoreError::UnknownStoreKey { key })
    }

    /// The protocol id of the mode the store gave the id `key`.
    pub fn mode_foreign_of(&self, key: WlGenericId) -> (r: Result<u64, WlStoreError>)
        ensures
            r == match mode_foreign_from(self.modes_spec(), key, 0) {
                Some(f) => Ok::<u64, WlStoreError>(f),
                None => Err(WlStoreError::UnknownStoreKey { key }),
            },
            r matches Ok(f) ==> exists|i: int|
                0 <= i < self.modes_spec().len() && (#[trigger] self.modes_spec()[i]).id == key
                    && self.modes_spec()[i].foreign == f,
            r is Err ==> r == Err::<u64, WlStoreError>(WlStoreError::UnknownStoreKey { key })
                && forall|i: int| 0 <= i < self.modes_spec().len() ==> (#[trigger] self.modes_spec()[i]).id != key,
    {
        let mut i: usize = 0;
        while i < self.modes.len()
            invariant
                i <= self.modes@.len(),
                forall|j: int| 0 <= j < i ==> self.modes@[j].id != key,
                mode_foreign_from(self.modes_spec(), key, 0) == mode_foreign_from(self.modes_spec(), key, i as nat),
            decreases self.modes@.len() - i,
        {
            if self.modes[i].id == key {
                proof {
                    assert(self.modes_spec()[i as int].id == key);
                }
                return Ok(self.modes[i].foreign);
            }
            i += 1;
        }
        Err(WlStoreError::UnknownStoreKey { key })
    }

    /// Replaces what the head `head_foreign` reports.
    pub fn set_head_base(&mut self, head_foreign: u64, base: WlBaseHead) -> (r: Result<(), WlStoreError>)
        requires
            old(self).wf(),
        ensures
            final(self).wf(),
            r is Err <==> !old(self).has_head(head_foreign),
            final(self).modes_spec() == old(self).modes_spec(),
            final(self).heads_spec().len() == old(self).heads_spec().len(),
            forall|i: int|
                0 <= i < old(self).heads_spec().len() ==> {
                    let (o, n) = (old(self).heads_spec()[i], #[trigger] final(self).heads_spec()[i]);
                    &&& n.foreign == o.foreign
                    &&& n.id == o.id
                    &&& n.modes@ == o.modes@
                    &&& n.current_mode == o.current_mode
                    &&& n.base == if o.foreign == head_foreign {
                        base
                    } else {
                        o.base
                    }
                },
    {
        match self.find_head(head_foreign) {
            None => Err(WlStoreError::HeadNotFound { head_id: head_foreign }),
            Some(i) => {
                let ghost mid = self.heads@;
                self.heads[i].base = base;
                proof {
                    assert forall|a: int, b: int|
                        0 <= a < b < self.heads@.len() implies self.heads@[a].foreign
                        != self.heads@[b].foreign by {
                        assert(self.heads@[a].foreign == mid[a].foreign);
                        assert(self.heads@[b].foreign == mid[b].foreign);
                    }
                    assert forall|j: int| 0 <= j < mid.len() && j != i implies mid[j].foreign
                        != head_foreign by {
                        assert(mid[i as int].foreign == head_foreign);
                    }
                }
                Ok(())
            },
        }
    }

    /// Sets which mode the head `head_foreign` currently uses.
    pub fn set_current_mode(&mut self, head_foreign: u64, mode: Option<u64>) -> (r: Result<(), WlStoreError>)
        requires
            old(self).wf(),
        ensures
            final(self).wf(),
            r is Err <==> !old(self).has_head(head_foreign),
            final(self).modes_spec() == old(self).modes_spec(),
            final(self).heads_spec().len() == old(self).heads_spec().len(),
            forall|i: int|
                0 <= i < old(self).heads_spec().len() ==> {
                    let (o, n) = (old(self).heads_spec()[i], #[trigger] final(self).heads_spec()[i]);
                    &&& n.foreign == o.foreign
                    &&& n.id == o.id
                    &&& n.modes@ == o.modes@
                    &&& n.base == o.base
                    &&& n.current_mode == if o.foreign == head_foreign {
                        mode
                    } else {
                        o.current_mode
                    }
                },
    {
        match self.find_head(head_foreign) {
            None => Err(WlStoreError::HeadNotFound { head_id: head_foreign }),
            Some(i) => {
                let ghost mid = self.heads@;
                self.heads[i].current_mode = mode;
                proof {
                    assert forall|a: int, b: int|
                        0 <= a < b < self.heads@.len() implies self.heads@[a].foreign
                        != self.heads@[b].foreign by {
                        assert(self.heads@[a].foreign == mid[a].foreign);
                        assert(self.heads@[b].foreign == mid[b].foreign);
                    }
                    assert forall|j: int| 0 <= j < mid.len() && j != i implies mid[j].foreign
                        != head_foreign by {
                        assert(mid[i as int].foreign == head_foreign);
                    }
                }
                Ok(())
            },
        }
    }

    /// Replaces what the mode `mode_foreign` reports.
    pub fn set_mode_base(&mut self, mode_foreign: u64, base: WlBaseMode) -> (r: Result<(), WlStoreError>)
        requires
            old(self).wf(),
        ensures
            final(self).wf(),
            r is Err <==> !old(self).has_mode(mode_foreign),
            final(self).heads_spec() == old(self).heads_spec(),
            final(self).modes_spec().len() == old(self).modes_spec().len(),
            forall|i: int|
                0 <= i < old(self).modes_spec().len() ==> #[trigger] final(self).modes_spec()[i] == if old(
                    self,
                ).modes_spec()[i].foreign == mode_foreign {
                    StoreMode { base, ..old(self).modes_spec()[i] }
                } else {
                    old(self).modes_spec()[i]
                },
    {
        match self.find_mode(mode_foreign) {
            None => Err(WlStoreError::ModeNotFound { mode_id: mode_foreign }),
            Some(i) => {
                let ghost mid = self.modes@;
                let old_mode = self.modes[i];
                self.modes.set(i, StoreMode { base, ..old_mode });
                proof {
                    assert forall|a: int, b: int|
                        0 <= a < b < self.modes@.len() implies self.modes@[a].foreign
                        != self.modes@[b].foreign by {
                        assert(self.modes@[a].foreign == mid[a].foreign);
                        assert(self.modes@[b].foreign == mid[b].foreign);
                    }
                    assert forall|j: int| 0 <= j < mid.len() && j != i implies mid[j].foreign
                        != mode_foreign by {
                        assert(mid[i as int].foreign == mode_foreign);
                    }
                }
                Ok(())
            },
        }
    }

    /// A copy of the mode with protocol id `f`.
    fn export_mode(&self, f: u64) -> (r: Option<WlMode>)
        requires
            self.wf(),
        ensures
            r matches Some(m) ==> m == self.mode_copy(f),
            r is None ==> !self.has_mode(f),
            r matches Some(m) ==> exists|i: int|
                0 <= i < self.modes_spec().len() && (#[trigger] self.modes_spec()[i]).foreign == f
                    && m == (WlMode { base: self.modes_spec()[i].base, id: self.modes_spec()[i].id }),
    {
        match self.find_mode(f) {
            None => None,
            Some(i) => {
                proof {
                    assert(self.modes_spec()[i as int] == self.modes@[i as int]);
                    let k = choose|k: int| 0 <= k < self.modes_spec().len() && (#[trigger] self.modes_spec()[k]).foreign == f;
                    if k != i {
                        if k < i {
                            assert(self.modes_spec()[k].foreign != self.modes_spec()[i as int].foreign);
                        } else {
                            assert(self.modes_spec()[i as int].foreign != self.modes_spec()[k].foreign);
                        }
                    }
                }
                Some(WlMode { base: self.modes[i].base, id: self.modes[i].id })
            },
        }
    }

    /// A snapshot of every head with copies of its modes that the store
    /// holds. Fails where a head's current mode is unknown.
    pub fn export(&self) -> (r: Result<Vec<WlHead>, WlStoreError>)
        requires
            self.wf(),
        ensures
            r is Ok <==> self.exportable(),
            r matches Ok(hs) ==> self.is_snapshot(hs@),
            r matches Ok(hs) ==> {
                &&& hs@.len() == self.heads_spec().len()
                &&& forall|i: int|
                    0 <= i < hs@.len() ==> {
                        &&& (#[trigger] hs@[i]).id == self.heads_spec()[i].id
                        &&& hs@[i].base == self.heads_spec()[i].base
                        &&& head_identity(hs@[i]) == base_identity(self.heads_spec()[i].id, &self.heads_spec()[i].base)
                        &&& hs@[i].modes@.len() <= self.heads_spec()[i].modes@.len()
                        &&& (hs@[i].current_mode is Some <==> self.heads_spec()[i].current_mode is Some)
                        &&& forall|j: int| 0 <= j < hs@[i].modes@.len() ==> self.knows_mode_id(#[trigger] hs@[i].modes@[j].id)
                        &&& hs@[i].modes@ == self.mode_copies(self.heads_spec()[i].modes@)
                        &&& hs@[i].current_mode == match self.heads_spec()[i].current_mode {
                            Some(m) => Some(self.mode_copy(m)),
                            None => None,
                        }
                    }
            },
    {
        let mut out: Vec<WlHead> = Vec::new();
        let mut i: usize = 0;
        while i < self.heads.len()
            invariant
                i <= self.heads@.len(),
                self.wf(),
                out@.len() == i,
                forall|j: int| 0 <= j < i ==> match (#[trigger] self.heads_spec()[j]).current_mode {
                    Some(m) => self.has_mode(m),
                    None => true,
                },
                forall|j: int|
                    0 <= j < i ==> {
                        &&& (#[trigger] out@[j]).id == self.heads_spec()[j].id
                        &&& out@[j].base == self.heads_spec()[j].base
                        &&& out@[j].modes@.len() <= self.heads_spec()[j].modes@.len()
                        &&& (out@[j].current_mode is Some <==> self.heads_spec()[j].current_mode is Some)
                        &&& forall|q: int| 0 <= q < out@[j].modes@.len() ==> self.knows_mode_id(#[trigger] out@[j].modes@[q].id)
                        &&& out@[j].modes@ == self.mode_copies(self.heads_spec()[j].modes@)
                        &&& out@[j].current_mode == match self.heads_spec()[j].current_mode {
                            Some(m) => Some(self.mode_copy(m)),
                            None => None,
                        }
                    },
            decreases self.heads@.len() - i,
        {
            let h = &self.heads[i];
            let current = match h.current_mode {
                None => None,
                Some(cm) => match self.export_mode(cm) {
                    None => {
                        proof {
                            assert(self.heads_spec()[i as int].current_mode == Some(cm));
                        }
                        return Err(WlStoreError::ModeNotFound { mode_id: cm });
                    },
                    Some(m) => Some(m),
                },
            };
            let mut modes: Vec<WlMode> = Vec::new();
            let mut j: usize = 0;
            while j < h.modes.len()
                invariant
                    j <= h.modes@.len(),
                    modes@.len() <= j,
                    forall|q: int| 0 <= q < modes@.len() ==> self.knows_mode_id(#[trigger] modes@[q].id),
                    self.wf(),
                    i < self.heads@.len(),
                    h == &self.heads_spec()[i as int],
                    modes@ == self.mode_copies(h.modes@.subrange(0, j as int)),
                decreases h.modes@.len() - j,
            {
                proof {
                    assert(h.modes@.subrange(0, j + 1).drop_last() =~= h.modes@.subrange(0, j as int));
                }
                if let Some(m) = self.export_mode(h.modes[j]) {
                    let ghost prev = modes@;
                    modes.push(m);
                    proof {
                        let k = choose|k: int| 0 <= k < self.modes_spec().len() && (#[trigger] self.modes_spec()[k]).foreign == h.modes@[j as int]
                            && m == (WlMode { base: self.modes_spec()[k].base, id: self.modes_spec()[k].id });
                        assert(self.knows_mode_id(m.id));
                        assert forall|q: int| 0 <= q < modes@.len() implies self.knows_mode_id(#[trigger] modes@[q].id) by {
                            if q < prev.len() {
                                assert(modes@[q] == prev[q]);
                            }
                        }
                    }
                }
                j += 1;
            }
            proof {
                assert(h.modes@.subrange(0, h.modes@.len() as int) =~= h.modes@);
            }
            out.push(WlHead { base: h.base.clone(), current_mode: current, modes, id: h.id });
            proof {
                assert(self.heads_spec()[i as int] == self.heads@[i as int]);
            }
            i += 1;
        }
        Ok(out)
    }
}

impl WlStore {
    /// The last id handed out.
    pub fn last_id(&self) -> (r: usize)
        ensures
            r == self.counter_spec(),
    {
        self.id_counter
    }

    /// What the mode `mode_foreign` reports.
    pub fn mode_base(&self, mode_foreign: u64) -> (r: Option<WlBaseMode>)
        ensures
            r is None <==> !self.has_mode(mode_foreign),
    {
        match self.find_mode(mode_foreign) {
            Some(i) => {
                proof {
                    assert(self.modes_spec()[i as int].foreign == mode_foreign);
                }
                Some(self.modes[i].base)
            },
            None => None,
        }
    }
}

} // verus!
