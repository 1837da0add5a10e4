//! Participant identities, the balance tables (confirmed and reserved amounts)
//! and the worker registry.
use vstd::prelude::*;

verus! {

/// A participant or worker, by the bytes of its principal.
#[derive(Clone, Debug)]
pub struct Identity {
    pub bytes: Vec<u8>,
}

impl View for Identity {
    type V = Seq<u8>;

    open spec fn view(&self) -> Seq<u8> {
        self.bytes@
    }
}

impl Identity {
    /// The identity with these principal bytes.
    pub fn new(bytes: Vec<u8>) -> (r: Identity)
        ensures
            r@ == bytes@,
    {
        Identity { bytes }
    }

    /// Whether two identities are the same principal.
    pub fn same(&self, other: &Identity) -> (r: bool)
        ensures
            r == (self@ == other@),
    {
        if self.bytes.len() != other.bytes.len() {
            return false;
        }
        let mut i: usize = 0;
        while i < self.bytes.len()
            invariant
                i <= self.bytes@.len(),
                self.bytes@.len() == other.bytes@.len(),
                forall|j: int| 0 <= j < i ==> self.bytes@[j] == other.bytes@[j],
            decreases self.bytes@.len() - i,
        {
            if self.bytes[i] != other.bytes[i] {
                return false;
            }
            i = i + 1;
        }
        assert(self@ =~= other@);
        true
    }

    /// A copy with the same bytes.
    pub fn copy(&self) -> (r: Identity)
        ensures
            r@ == self@,
    {
        Identity { bytes: self.bytes.clone() }
    }
}

/// The views of a list of identities.
pub open spec fn keys_of(ids: Seq<Identity>) -> Seq<Seq<u8>> {
    ids.map_values(|i: Identity| i@)
}

/// Index of the entry for `who` in `ids`, if there is one.
fn position_of(ids: &Vec<Identity>, who: &Identity) -> (r: Option<usize>)
    ensures
        r is None ==> !keys_of(ids@).contains(who@),
        r matches Some(i) ==> i < ids@.len() && keys_of(ids@)[i as int] == who@,
{
    let mut i: usize = 0;
    while i < ids.len()
        invariant
            i <= ids@.len(),
            forall|j: int| 0 <= j < i ==> keys_of(ids@)[j] != who@,
        decreases ids@.len() - i,
    {
        if ids[i].same(who) {
            return Some(i);
        }
        i = i + 1;
    }
    None
}

/// Unsigned amounts per participant; an absent participant holds 0.
pub struct Balances {
    ids: Vec<Identity>,
    amounts: Vec<u64>,
    table: Ghost<Map<Seq<u8>, u64>>,
}

/// The amount that `m` gives `k`, 0 where it gives none.
pub open spec fn amount_in(m: Map<Seq<u8>, u64>, k: Seq<u8>) -> u64 {
    if m.contains_key(k) {
        m[k]
    } else {
        0
    }
}

impl View for Balances {
    type V = Map<Seq<u8>, u64>;

    closed spec fn view(&self) -> Map<Seq<u8>, u64> {
        self.table@
    }
}

impl Balances {
    /// One entry per participant, and the ghost table agrees with the entries.
    pub closed spec fn wf(&self) -> bool {
        let keys = keys_of(self.ids@);
        &&& self.ids@.len() == self.amounts@.len()
        &&& forall|i: int, j: int|
            0 <= i < keys.len() && 0 <= j < keys.len() && i != j ==> keys[i] != keys[j]
        &&& forall|k: Seq<u8>| #[trigger] self.table@.contains_key(k) <==> keys.contains(k)
        &&& forall|i: int|
            0 <= i < keys.len() ==> self.table@[#[trigger] keys[i]] == self.amounts@[i]
    }

    /// Amount held by `k`.
    pub open spec fn amount_of(&self, k: Seq<u8>) -> u64 {
        amount_in(self@, k)
    }

    pub fn new() -> (r: Balances)
        ensures
            r.wf(),
            r@ == Map::<Seq<u8>, u64>::empty(),
    {
        Balances { ids: Vec::new(), amounts: Vec::new(), table: Ghost(Map::empty()) }
    }

    /// Amount held by `who`.
    pub fn get(&self, who: &Identity) -> (r: u64)
        requires
            self.wf(),
        ensures
            r == self.amount_of(who@),
    {
        match position_of(&self.ids, who) {
            Some(i) => self.amounts[i],
            None => 0,
        }
    }

    /// Sets the amount held by `who` to `v`.
    pub fn set(&mut self, who: &Identity, v: u64)
        requires
            old(self).wf(),
        ensures
            final(self).wf(),
            final(self)@ == old(self)@.insert(who@, v),
    {
        let ghost keys0 = keys_of(self.ids@);
        match position_of(&self.ids, who) {
            Some(i) => {
                self.amounts.set(i, v);
                self.table = Ghost(self.table@.insert(who@, v));
                proof {
                    let keys = keys_of(self.ids@);
                    assert(keys == keys0);
                    assert forall|j: int| 0 <= j < keys.len() implies self.table@[#[trigger] keys[j]]
                        == self.amounts@[j] by {
                        if j != i {
                            assert(keys[j] != keys[i as int]);
                        }
                    }
                    assert forall|k: Seq<u8>| #[trigger] self.table@.contains_key(k) <==> keys.contains(k) by {
                        if k == who@ {
                            assert(keys[i as int] == k);
                        }
                    }
                }
            },
            None => {
                self.ids.push(who.copy());
                self.amounts.push(v);
                self.table = Ghost(self.table@.insert(who@, v));
                proof {
                    let keys = keys_of(self.ids@);
                    let n = keys0.len() as int;
                    assert(keys =~= keys0.push(who@));
                    assert forall|j: int| 0 <= j < keys.len() implies self.table@[#[trigger] keys[j]]
                        == self.amounts@[j] by {
                        if j < n {
                            assert(keys[j] == keys0[j]);
                            assert(keys0.contains(keys0[j]));
                        }
                    }
                    assert forall|k: Seq<u8>| #[trigger] self.table@.contains_key(k) <==> keys.contains(k) by {
                        if k == who@ {
                            assert(keys[n] == k);
                        } else if keys.contains(k) {
                            let j = choose|j: int| 0 <= j < keys.len() && keys[j] == k;
                            assert(keys0[j] == k);
                        } else if keys0.contains(k) {
                            let j = choose|j: int| 0 <= j < keys0.len() && keys0[j] == k;
                            assert(keys[j] == k);
                        }
                    }
                    assert forall|a: int, b: int|
                        0 <= a < keys.len() && 0 <= b < keys.len() && a != b implies keys[a]
                        != keys[b] by {
                        if a < n && b < n {
                            assert(keys[a] == keys0[a] && keys[b] == keys0[b]);
                        } else if a < n {
                            assert(keys0.contains(keys0[a]));
                        } else if b < n {
                            assert(keys0.contains(keys0[b]));
                        }
                    }
                }
            },
        }
    }

    /// Number of participants with an entry.
    pub fn len(&self) -> (r: usize)
        requires
            self.wf(),
        ensures
            r == self@.dom().len(),
    {
        proof {
            self.lemma_dom_len();
        }
        self.ids.len()
    }

    proof fn lemma_dom_len(&self)
        requires
            self.wf(),
        ensures
            self@.dom().len() == self.ids@.len(),
    {
        let keys = keys_of(self.ids@);
        assert(keys.no_duplicates());
        keys.unique_seq_to_set();
        assert(self@.dom() =~= keys.to_set());
    }

    /// The participant of entry `i` and the amount it holds.
    pub fn entry_at(&self, i: usize) -> (r: (Identity, u64))
        requires
            self.wf(),
            i < self@.dom().len(),
        ensures
            self@.contains_key(r.0@),
            r.1 == self@[r.0@],
    {
        proof {
            self.lemma_dom_len();
        }
        let ghost keys = keys_of(self.ids@);
        assert(keys[i as int] == self.ids@[i as int]@);
        assert(keys.contains(keys[i as int]));
        (self.ids[i].copy(), self.amounts[i])
    }

    /// Adds `amount` to what `who` holds, saturating at `u64::MAX`.
    pub fn credit(&mut self, who: &Identity, amount: u64)
        requires
            old(self).wf(),
        ensures
            final(self).wf(),
            final(self)@ == old(self)@.insert(
                who@,
                sat_add(old(self).amount_of(who@), amount),
            ),
    {
        let cur = self.get(who);
        self.set(who, cur.saturating_add(amount));
    }

    /// Takes `amount` from what `who` holds, stopping at zero.
    pub fn debit(&mut self, who: &Identity, amount: u64)
        requires
            old(self).wf(),
        ensures
            final(self).wf(),
            final(self)@ == old(self)@.insert(
                who@,
                sat_sub(old(self).amount_of(who@), amount),
            ),
    {
        let cur = self.get(who);
        self.set(who, cur.saturating_sub(amount));
    }
}

/// `a + b`, capped at `u64::MAX`.
pub open spec fn sat_add(a: u64, b: u64) -> u64 {
    if a + b > u64::MAX {
        u64::MAX
    } else {
        (a + b) as u64
    }
}

/// `a - b`, stopping at zero.
pub open spec fn sat_sub(a: u64, b: u64) -> u64 {
    if a < b {
        0
    } else {
        (a - b) as u64
    }
}

/// Which owner each registered worker belongs to.
pub struct Registry {
    workers: Vec<Identity>,
    owners: Vec<Identity>,
}

impl View for Registry {
    type V = Seq<(Seq<u8>, Seq<u8>)>;

    /// Registered (worker, owner) pairs, in order of registration.
    closed spec fn view(&self) -> Seq<(Seq<u8>, Seq<u8>)> {
        Seq::new(self.workers@.len(), |i: int| (self.workers@[i]@, self.owners@[i]@))
    }
}

/// Whether `w` is registered in the pairs `reg`.
pub open spec fn is_registered(reg: Seq<(Seq<u8>, Seq<u8>)>, w: Seq<u8>) -> bool {
    exists|i: int| 0 <= i < reg.len() && (#[trigger] reg[i]).0 == w
}

/// The owner of the first registration of `w` (registered workers only).
pub open spec fn owner_in(reg: Seq<(Seq<u8>, Seq<u8>)>, w: Seq<u8>) -> Seq<u8>
    decreases reg.len(),
{
    if reg.len() == 0 {
        Seq::empty()
    } else if reg[0].0 == w {
        reg[0].1
    } else {
        owner_in(reg.drop_first(), w)
    }
}

/// The workers registered to `owner`, in order of registration.
pub open spec fn workers_owned(reg: Seq<(Seq<u8>, Seq<u8>)>, owner: Seq<u8>) -> Seq<Seq<u8>>
    decreases reg.len(),
{
    if reg.len() == 0 {
        Seq::empty()
    } else {
        let w = workers_owned(reg.drop_last(), owner);
        if reg.last().1 == owner {
            w.push(reg.last().0)
        } else {
            w
        }
    }
}

impl Registry {
    /// Every registered worker has an owner.
    pub closed spec fn wf(&self) -> bool {
        self.workers@.len() == self.owners@.len()
    }

    pub fn new() -> (r: Registry)
        ensures
            r.wf(),
            r@ == Seq::<(Seq<u8>, Seq<u8>)>::empty(),
    {
        let r = Registry { workers: Vec::new(), owners: Vec::new() };
        assert(r@ =~= Seq::<(Seq<u8>, Seq<u8>)>::empty());
        r
    }

    /// Records that `worker` belongs to `owner`.
    pub fn register(&mut self, worker: Identity, owner: Identity)
        requires
            old(self).wf(),
        ensures
            final(self).wf(),
            final(self)@ == old(self)@.push((worker@, owner@)),
    {
        let ghost w = worker@;
        let ghost o = owner@;
        self.workers.push(worker);
        self.owners.push(owner);
        assert(self@ =~= old(self)@.push((w, o)));
    }

    /// Number of registrations.
    pub fn len(&self) -> (r: usize)
        requires
            self.wf(),
        ensures
            r == self@.len(),
    {
        self.workers.len()
    }

    /// The worker of registration `i`.
    pub fn worker_at(&self, i: usize) -> (r: Identity)
        requires
            self.wf(),
            i < self@.len(),
        ensures
            r@ == self@[i as int].0,
    {
        self.workers[i].copy()
    }

    /// The owner of registration `i`.
    pub fn owner_at(&self, i: usize) -> (r: Identity)
        requires
            self.wf(),
            i < self@.len(),
        ensures
            r@ == self@[i as int].1,
    {
        self.owners[i].copy()
    }

    /// Whether `worker` is registered.
    pub fn contains(&self, worker: &Identity) -> (r: bool)
        requires
            self.wf(),
        ensures
            r == is_registered(self@, worker@),
    {
        match position_of(&self.workers, worker) {
            Some(i) => {
                assert(self@[i as int].0 == worker@);
                true
            },
            None => {
                assert forall|i: int| 0 <= i < self@.len() implies (#[trigger] self@[i]).0
                    != worker@ by {
                    assert(keys_of(self.workers@)[i] == self.workers@[i]@);
                }
                false
            },
        }
    }

    /// The owner of a registered `worker`, `None` if it is not registered.
    pub fn owner_of(&self, worker: &Identity) -> (r: Option<Identity>)
        requires
            self.wf(),
        ensures
            r is Some <==> is_registered(self@, worker@),
            r matches Some(o) ==> o@ == owner_in(self@, worker@),
    {
        let mut i: usize = 0;
        assert(self@.subrange(0, self@.len() as int) =~= self@);
        while i < self.workers.len()
            invariant
                self.wf(),
                i <= self@.len(),
                forall|j: int| 0 <= j < i ==> (#[trigger] self@[j]).0 != worker@,
                owner_in(self@, worker@) == owner_in(self@.subrange(i as int, self@.len() as int), worker@),
            decreases self@.len() - i,
        {
            let ghost rest = self@.subrange(i as int, self@.len() as int);
            if self.workers[i].same(worker) {
                assert(self@[i as int].0 == worker@);
                assert(rest[0] == self@[i as int]);
                return Some(self.owners[i].copy());
            }
            assert(rest.drop_first() =~= self@.subrange(i + 1, self@.len() as int));
            i = i + 1;
        }
        None
    }

    /// The workers registered to `owner`, in order of registration.
    pub fn workers_of(&self, owner: &Identity) -> (r: Vec<Identity>)
        requires
            self.wf(),
        ensures
            keys_of(r@) == workers_owned(self@, owner@),
    {
        let mut r: Vec<Identity> = Vec::new();
        let mut i: usize = 0;
        assert(self@.take(0) =~= Seq::<(Seq<u8>, Seq<u8>)>::empty());
        assert(keys_of(r@) =~= Seq::<Seq<u8>>::empty());
        while i < self.workers.len()
            invariant
                self.wf(),
                i <= self@.len(),
                keys_of(r@) == workers_owned(self@.take(i as int), owner@),
            decreases self@.len() - i,
        {
            let ghost r0 = r@;
            let ghost next = self@.take(i + 1);
            assert(next.drop_last() =~= self@.take(i as int));
            assert(next.last() == self@[i as int]);
            if self.owners[i].same(owner) {
                r.push(self.workers[i].copy());
                assert(keys_of(r@) =~= keys_of(r0).push(self@[i as int].0));
            }
            i = i + 1;
        }
        assert(self@.take(i as int) =~= self@);
        r
    }
}

} // verus!
