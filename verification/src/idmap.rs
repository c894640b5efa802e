//! A map from identifiers to values, kept as two parallel vectors in
//! strictly increasing order of identifier, so that walking it is
//! deterministic and follows the identifiers.

use vstd::prelude::*;

verus! {

/// A finite map keyed by 128-bit identifiers.
#[derive(Debug)]
pub struct IdMap<V> {
    ids: Vec<u128>,
    items: Vec<V>,
}

/// Each identifier is smaller than the next.
pub open spec fn increasing(ids: Seq<u128>) -> bool {
    forall|i: int, j: int| 0 <= i < j < ids.len() ==> ids[i] < ids[j]
}

/// The place of `id` in `ids`; meaningful where `ids` holds it.
pub open spec fn place_of(ids: Seq<u128>, id: u128) -> int {
    choose|i: int| 0 <= i < ids.len() && ids[i] == id
}

/// Increasing sequences that hold the same identifiers are the same.
pub proof fn lemma_same_ids(a: Seq<u128>, b: Seq<u128>)
    requires
        increasing(a),
        increasing(b),
        forall|id: u128| a.contains(id) <==> b.contains(id),
    ensures
        a == b,
    decreases a.len(),
{
    if a.len() == 0 {
        if b.len() > 0 {
            assert(b.contains(b[0]));
        }
        assert(a =~= b);
    } else {
        let top = a.last();
        assert(a.contains(top));
        assert(b.contains(top));
        let p = choose|p: int| 0 <= p < b.len() && b[p] == top;
        if p < b.len() - 1 {
            let above = b.last();
            assert(b[p] < above);
            assert(b.contains(above));
            assert(a.contains(above));
            let q = choose|q: int| 0 <= q < a.len() && a[q] == above;
            if q < a.len() - 1 {
                assert(a[q] < a[a.len() - 1]);
            }
        }
        let a0 = a.drop_last();
        let b0 = b.drop_last();
        assert forall|id: u128| a0.contains(id) <==> b0.contains(id) by {
            if a0.contains(id) {
                let i = choose|i: int| 0 <= i < a0.len() && a0[i] == id;
                assert(a[i] == id);
                assert(a[i] < top);
                assert(a.contains(id));
                let j = choose|j: int| 0 <= j < b.len() && b[j] == id;
                assert(j != b.len() - 1);
                assert(b0[j] == id);
            }
            if b0.contains(id) {
                let j = choose|j: int| 0 <= j < b0.len() && b0[j] == id;
                assert(b[j] == id);
                assert(b[j] < b[b.len() - 1]);
                assert(b.contains(id));
                let i = choose|i: int| 0 <= i < a.len() && a[i] == id;
                assert(i != a.len() - 1);
                assert(a0[i] == id);
            }
        }
        lemma_same_ids(a0, b0);
        assert(a =~= a0.push(top));
        assert(b =~= b0.push(top));
    }
}

/// An increasing sequence whose identifiers all occur in another increasing
/// sequence is no longer than that one.
pub proof fn lemma_no_longer(part: Seq<u128>, whole: Seq<u128>)
    requires
        increasing(part),
        increasing(whole),
        forall|i: int| 0 <= i < part.len() ==> whole.contains(#[trigger] part[i]),
    ensures
        part.len() <= whole.len(),
    decreases whole.len(),
{
    if part.len() > 0 {
        let top = part.last();
        assert(whole.contains(top));
        let p = choose|p: int| 0 <= p < whole.len() && whole[p] == top;
        let rest = part.drop_last();
        let below = whole.drop_last();
        assert forall|i: int| 0 <= i < rest.len() implies below.contains(#[trigger] rest[i]) by {
            assert(rest[i] == part[i]);
            assert(part[i] < top);
            assert(whole.contains(part[i]));
            let q = choose|q: int| 0 <= q < whole.len() && whole[q] == part[i];
            if q == whole.len() - 1 {
                if p < q {
                    assert(whole[p] < whole[q]);
                }
            }
            assert(below[q] == part[i]);
        }
        lemma_no_longer(rest, below);
    }
}

/// In an increasing sequence an identifier has one place only.
pub proof fn lemma_place(ids: Seq<u128>, i: int)
    requires
        increasing(ids),
        0 <= i < ids.len(),
    ensures
        place_of(ids, ids[i]) == i,
        ids.contains(ids[i]),
{
    let p = place_of(ids, ids[i]);
    assert(0 <= p < ids.len() && ids[p] == ids[i]);
    if p < i {
        assert(ids[p] < ids[i]);
    }
    if i < p {
        assert(ids[i] < ids[p]);
    }
}

impl<V> IdMap<V> {
    /// The identifiers held, in increasing order.
    pub closed spec fn ids(&self) -> Seq<u128> {
        self.ids@
    }

    /// The values held, each at the place of its identifier.
    pub closed spec fn items(&self) -> Seq<V> {
        self.items@
    }

    /// The representation invariant.
    pub open spec fn wf(&self) -> bool {
        &&& self.ids().len() == self.items().len()
        &&& increasing(self.ids())
    }

    /// The map that the two sequences stand for.
    pub open spec fn view(&self) -> Map<u128, V> {
        Map::new(
            |id: u128| self.ids().contains(id),
            |id: u128| self.items()[place_of(self.ids(), id)],
        )
    }

    /// The entry at place `i` is an entry of the map.
    pub proof fn lemma_entry(&self, i: int)
        requires
            self.wf(),
            0 <= i < self.ids().len(),
        ensures
            self@.contains_key(self.ids()[i]),
            self@[self.ids()[i]] == self.items()[i],
    {
        lemma_place(self.ids(), i);
    }

    /// Every key of the map has a place.
    pub proof fn lemma_key(&self, id: u128)
        requires
            self.wf(),
            self@.contains_key(id),
        ensures
            0 <= place_of(self.ids(), id) < self.ids().len(),
            self.ids()[place_of(self.ids(), id)] == id,
            self@[id] == self.items()[place_of(self.ids(), id)],
    {
        assert(self.ids().contains(id));
    }

    /// Maps with the same keys hold them at the same places.
    pub proof fn lemma_aligned<W>(&self, other: &IdMap<W>)
        requires
            self.wf(),
            other.wf(),
            self@.dom() == other@.dom(),
        ensures
            self.ids() == other.ids(),
    {
        assert forall|id: u128| self.ids().contains(id) <==> other.ids().contains(id) by {
            assert(self@.contains_key(id) == self.ids().contains(id));
            assert(other@.contains_key(id) == other.ids().contains(id));
            assert(self@.dom().contains(id) <==> other@.dom().contains(id));
        }
        lemma_same_ids(self.ids(), other.ids());
    }

    /// An empty map.
    pub fn new() -> (map: Self)
        ensures
            map.wf(),
            map@ == Map::<u128, V>::empty(),
            map.ids().len() == 0,
    {
        let map = IdMap { ids: Vec::new(), items: Vec::new() };
        assert(map@ =~= Map::<u128, V>::empty());
        map
    }

    /// Number of entries.
    pub fn len(&self) -> (n: usize)
        requires
            self.wf(),
        ensures
            n == self.ids().len(),
    {
        self.ids.len()
    }

    /// The identifier at place `i`.
    pub fn id_at(&self, i: usize) -> (id: u128)
        requires
            self.wf(),
            i < self.ids().len(),
        ensures
            id == self.ids()[i as int],
            self@.contains_key(id),
    {
        proof {
            self.lemma_entry(i as int);
        }
        self.ids[i]
    }

    /// The value at place `i`.
    pub fn item_at(&self, i: usize) -> (item: &V)
        requires
            self.wf(),
            i < self.ids().len(),
        ensures
            *item == self.items()[i as int],
            *item == self@[self.ids()[i as int]],
    {
        proof {
            self.lemma_entry(i as int);
        }
        &self.items[i]
    }

    /// First place whose identifier is not below `id`.
    fn slot(&self, id: u128) -> (i: usize)
        requires
            self.wf(),
        ensures
            i <= self.ids().len(),
            forall|j: int| 0 <= j < i ==> self.ids()[j] < id,
            i < self.ids().len() ==> self.ids()[i as int] >= id,
    {
        let mut lo: usize = 0;
        let mut hi: usize = self.ids.len();
        while lo < hi
            invariant
                self.wf(),
                lo <= hi <= self.ids().len(),
                forall|j: int| 0 <= j < lo ==> self.ids()[j] < id,
                hi < self.ids().len() ==> self.ids()[hi as int] >= id,
            decreases hi - lo,
        {
            let mid: usize = lo + (hi - lo) / 2;
            if self.ids[mid] < id {
                lo = mid + 1;
            } else {
                hi = mid;
            }
        }
        lo
    }

    /// The place of `id`, if the map holds it.
    pub fn find(&self, id: u128) -> (place: Option<usize>)
        requires
            self.wf(),
        ensures
            match place {
                Some(i) => i < self.ids().len() && self.ids()[i as int] == id
                    && self@.contains_key(id) && self@[id] == self.items()[i as int],
                None => !self@.contains_key(id),
            },
    {
        let i: usize = self.slot(id);
        if i < self.ids.len() && self.ids[i] == id {
            proof {
                self.lemma_entry(i as int);
            }
            Some(i)
        } else {
            proof {
                if self.ids().contains(id) {
                    let p = place_of(self.ids(), id);
                    assert(self.ids()[p] == id);
                    if p < i {
                        assert(self.ids()[p] < id);
                    } else if p > i {
                        assert(self.ids()[i as int] < self.ids()[p]);
                    }
                }
            }
            None
        }
    }

    /// Whether the map holds `id`.
    pub fn contains_key(&self, id: u128) -> (held: bool)
        requires
            self.wf(),
        ensures
            held == self@.contains_key(id),
    {
        self.find(id).is_some()
    }

    /// The value of `id`, if the map holds it.
    pub fn get(&self, id: u128) -> (item: Option<&V>)
        requires
            self.wf(),
        ensures
            match item {
                Some(v) => self@.contains_key(id) && *v == self@[id],
                None => !self@.contains_key(id),
            },
    {
        match self.find(id) {
            Some(i) => Some(&self.items[i]),
            None => None,
        }
    }

    /// Replaces the value at place `i`.
    pub fn set_at(&mut self, i: usize, item: V)
        requires
            old(self).wf(),
            i < old(self).ids().len(),
        ensures
            final(self).wf(),
            final(self).ids() == old(self).ids(),
            final(self).items() == old(self).items().update(i as int, item),
            final(self)@ == old(self)@.insert(old(self).ids()[i as int], item),
    {
        let ghost old_ids = self.ids();
        let ghost old_map = self@;
        let ghost id = old_ids[i as int];
        let mut item = item;
        let ghost put = item;
        std::mem::swap(&mut self.items[i], &mut item);
        proof {
            assert forall|k: u128|
                old_map.insert(id, put).contains_key(k) implies #[trigger] self@.contains_key(k)
                && self@[k] == old_map.insert(id, put)[k] by {
                if k != id {
                    assert(old_ids.contains(k));
                    let p = place_of(old_ids, k);
                    assert(old_ids[p] == k);
                    assert(p != i);
                } else {
                    lemma_place(old_ids, i as int);
                }
            }
            assert(self@ =~= old_map.insert(id, put));
        }
    }

    /// Puts `item` under `id` and hands back what was there before.
    pub fn insert(&mut self, id: u128, item: V) -> (before: Option<V>)
        requires
            old(self).wf(),
        ensures
            final(self).wf(),
            final(self)@ == old(self)@.insert(id, item),
            match before {
                Some(v) => old(self)@.contains_key(id) && v == old(self)@[id]
                    && final(self).ids() == old(self).ids(),
                None => !old(self)@.contains_key(id)
                    && final(self).ids().len() == old(self).ids().len() + 1,
            },
    {
        let i: usize = self.slot(id);
        let ghost old_ids = self.ids();
        let ghost old_items = self.items();
        let ghost old_map = self@;
        if i < self.ids.len() && self.ids[i] == id {
            proof {
                self.lemma_entry(i as int);
            }
            let mut item = item;
            let ghost put = item;
            std::mem::swap(&mut self.items[i], &mut item);
            proof {
                assert(self.items() == old_items.update(i as int, put));
                assert forall|k: u128|
                    old_map.insert(id, put).contains_key(k) implies #[trigger] self@.contains_key(k)
                    && self@[k] == old_map.insert(id, put)[k] by {
                    if k != id {
                        assert(old_ids.contains(k));
                        let p = place_of(old_ids, k);
                        assert(old_ids[p] == k);
                        assert(p != i);
                    } else {
                        lemma_place(old_ids, i as int);
                    }
                }
                assert(self@ =~= old_map.insert(id, put));
            }
            Some(item)
        } else {
            proof {
                if old_ids.contains(id) {
                    let p = place_of(old_ids, id);
                    assert(old_ids[p] == id);
                    if p < i {
                        assert(old_ids[p] < id);
                    } else if p > i {
                        assert(old_ids[i as int] < old_ids[p]);
                    }
                }
            }
            self.ids.insert(i, id);
            self.items.insert(i, item);
            proof {
                let new_ids = self.ids();
                let new_items = self.items();
                assert(new_ids == old_ids.insert(i as int, id));
                assert(new_items == old_items.insert(i as int, item));
                assert(increasing(new_ids)) by {
                    assert forall|a: int, b: int| 0 <= a < b < new_ids.len() implies new_ids[a]
                        < new_ids[b] by {
                        if a < i && b > i {
                            assert(old_ids[a] < id);
                            assert(old_ids[b - 1] >= old_ids[i as int]);
                        } else if a < i && b < i {
                        } else if a == i {
                            assert(new_ids[b] == old_ids[b - 1]);
                            if b - 1 > i {
                                assert(old_ids[i as int] < old_ids[b - 1]);
                            }
                        } else if b == i {
                        } else {
                            assert(new_ids[a] == old_ids[a - 1]);
                            assert(new_ids[b] == old_ids[b - 1]);
                        }
                    }
                }
                assert forall|k: u128|
                    old_map.insert(id, item).contains_key(k) implies
                        #[trigger] self@.contains_key(k)
                    && self@[k] == old_map.insert(id, item)[k] by {
                    if k != id {
                        assert(old_ids.contains(k));
                        let p = place_of(old_ids, k);
                        assert(old_ids[p] == k);
                        let q = if p < i { p } else { p + 1 };
                        assert(new_ids[q] == k);
                        lemma_place(new_ids, q);
                    } else {
                        assert(new_ids[i as int] == id);
                        lemma_place(new_ids, i as int);
                    }
                }
                assert forall|k: u128|
                    self@.contains_key(k) implies
                        #[trigger] old_map.insert(id, item).contains_key(k) by {
                    assert(new_ids.contains(k));
                    let q = place_of(new_ids, k);
                    assert(new_ids[q] == k);
                    if q < i {
                        assert(old_ids[q] == k);
                    } else if q > i {
                        assert(old_ids[q - 1] == k);
                    }
                }
                assert(self@ =~= old_map.insert(id, item));
            }
            None
        }
    }

    /// Takes `id` out of the map and hands back its value.
    pub fn remove(&mut self, id: u128) -> (before: Option<V>)
        requires
            old(self).wf(),
        ensures
            final(self).wf(),
            final(self)@ == old(self)@.remove(id),
            match before {
                Some(v) => old(self)@.contains_key(id) && v == old(self)@[id],
                None => !old(self)@.contains_key(id),
            },
    {
        let ghost old_ids = self.ids();
        let ghost old_items = self.items();
        let ghost old_map = self@;
        match self.find(id) {
            Some(i) => {
                self.ids.remove(i);
                let item = self.items.remove(i);
                proof {
                    let new_ids = self.ids();
                    assert(new_ids == old_ids.remove(i as int));
                    assert(self.items() == old_items.remove(i as int));
                    assert(increasing(new_ids)) by {
                        assert forall|a: int, b: int| 0 <= a < b < new_ids.len() implies new_ids[a]
                            < new_ids[b] by {
                            let a0 = if a < i { a } else { a + 1 };
                            let b0 = if b < i { b } else { b + 1 };
                            assert(new_ids[a] == old_ids[a0]);
                            assert(new_ids[b] == old_ids[b0]);
                        }
                    }
                    assert forall|k: u128|
                        old_map.remove(id).contains_key(k) implies #[trigger] self@.contains_key(k)
                        && self@[k] == old_map.remove(id)[k] by {
                        assert(old_ids.contains(k));
                        let p = place_of(old_ids, k);
                        assert(old_ids[p] == k);
                        assert(p != i);
                        let q = if p < i { p } else { p - 1 };
                        assert(new_ids[q] == k);
                        lemma_place(new_ids, q);
                    }
                    assert forall|k: u128|
                        self@.contains_key(k) implies
                            #[trigger] old_map.remove(id).contains_key(k) by {
                        assert(new_ids.contains(k));
                        let q = place_of(new_ids, k);
                        assert(new_ids[q] == k);
                        let p = if q < i { q } else { q + 1 };
                        assert(old_ids[p] == k);
                        lemma_place(old_ids, p);
                        lemma_place(old_ids, i as int);
                    }
                    assert(self@ =~= old_map.remove(id));
                }
                Some(item)
            },
            None => {
                assert(self@ =~= old_map.remove(id));
                None
            },
        }
    }
}

} // verus!
