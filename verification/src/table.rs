//! Per-stream state by stream id.

use std::collections::BTreeMap;
use vstd::prelude::*;

verus! {

use vstd::std_specs::iter::IteratorSpec;

broadcast use vstd::std_specs::btree::group_btree_axioms;

/// What is kept for each stream that is live.
#[derive(Debug)]
pub struct Table<V> {
    map: BTreeMap<u32, V>,
}

/// Ids in increasing order.
pub open spec fn increasing(ids: Seq<u32>) -> bool {
    forall|i: int, j: int| 0 <= i < j < ids.len() ==> ids[i] < ids[j]
}

/// `ids` are the keys of `m` above a bound, in increasing order.
pub open spec fn selected<V>(ids: Seq<u32>, m: Map<u32, V>, above: int) -> bool {
    &&& increasing(ids)
    &&& forall|id: u32| ids.contains(id) <==> m.contains_key(id) && id > above
}

/// The keys of `m` above a bound, in increasing order.
pub open spec fn sorted_ids<V>(m: Map<u32, V>, above: int) -> Seq<u32> {
    choose|ids: Seq<u32>| selected(ids, m, above)
}

proof fn lemma_increasing_unique(a: Seq<u32>, b: Seq<u32>)
    requires
        increasing(a),
        increasing(b),
        forall|x: u32| a.contains(x) <==> b.contains(x),
    ensures
        a == b,
    decreases a.len(),
{
    if a.len() == 0 {
        if b.len() > 0 {
            assert(b.contains(b[0]));
        }
        assert(a =~= b);
    } else {
        assert(a.contains(a[0]));
        assert(b.len() > 0);
        let x = a.last();
        let y = b.last();
        assert(a.contains(x));
        assert(b.contains(y));
        assert(x == y) by {
            let i = choose|i: int| 0 <= i < b.len() && b[i] == x;
            let j = choose|j: int| 0 <= j < a.len() && a[j] == y;
            assert(i < b.len() - 1 ==> b[i] < b[b.len() - 1]);
            assert(j < a.len() - 1 ==> a[j] < a[a.len() - 1]);
        }
        let c = a.drop_last();
        let d = b.drop_last();
        assert forall|v: u32| c.contains(v) <==> d.contains(v) by {
            if c.contains(v) {
                let i = choose|i: int| 0 <= i < c.len() && c[i] == v;
                assert(a[i] == v && a[i] < x);
                assert(a.contains(v));
                let j = choose|j: int| 0 <= j < b.len() && b[j] == v;
                assert(d[j] == v);
            }
            if d.contains(v) {
                let i = choose|i: int| 0 <= i < d.len() && d[i] == v;
                assert(b[i] == v && b[i] < y);
                assert(b.contains(v));
                let j = choose|j: int| 0 <= j < a.len() && a[j] == v;
                assert(c[j] == v);
            }
        }
        lemma_increasing_unique(c, d);
        assert(a =~= c.push(x));
        assert(b =~= d.push(y));
    }
}

/// The keys of a finite map above a bound can be listed in increasing order.
pub proof fn lemma_sorted_exists<V>(m: Map<u32, V>, above: int)
    ensures
        selected(sorted_ids(m, above), m, above),
{
    let ids = list_from(m, above, 0x1_0000_0000);
    lemma_list_from(m, above, 0x1_0000_0000);
    assert(selected(ids, m, above));
}

/// The keys of `m` above a bound and below `n`, in increasing order.
spec fn list_from<V>(m: Map<u32, V>, above: int, n: nat) -> Seq<u32>
    decreases n,
{
    if n == 0 {
        Seq::empty()
    } else {
        let k = (n - 1) as u32;
        let rest = list_from(m, above, (n - 1) as nat);
        if m.contains_key(k) && k > above {
            rest.push(k)
        } else {
            rest
        }
    }
}

proof fn lemma_list_from<V>(m: Map<u32, V>, above: int, n: nat)
    requires
        n <= 0x1_0000_0000,
    ensures
        increasing(list_from(m, above, n)),
        forall|i: int| 0 <= i < list_from(m, above, n).len() ==> #[trigger] list_from(m, above, n)[i] < n,
        forall|id: u32|
            list_from(m, above, n).contains(id) <==> m.contains_key(id) && id > above && id < n,
    decreases n,
{
    if n > 0 {
        let k = (n - 1) as u32;
        let rest = list_from(m, above, (n - 1) as nat);
        let all = list_from(m, above, n);
        lemma_list_from(m, above, (n - 1) as nat);
        assert forall|id: u32| all.contains(id) <==> m.contains_key(id) && id > above && id < n by {
            if rest.contains(id) {
                let i = choose|i: int| 0 <= i < rest.len() && rest[i] == id;
                assert(all[i] == id);
            }
            if all.contains(id) {
                let i = choose|i: int| 0 <= i < all.len() && all[i] == id;
                if i < rest.len() {
                    assert(rest[i] == id);
                }
            }
            if id == k && m.contains_key(k) && k > above {
                assert(all[rest.len() as int] == k);
            }
        }
    }
}

/// There is only one way to list keys in increasing order.
pub proof fn lemma_sorted_ids<V>(ids: Seq<u32>, m: Map<u32, V>, above: int)
    requires
        selected(ids, m, above),
    ensures
        ids == sorted_ids(m, above),
{
    lemma_increasing_unique(ids, sorted_ids(m, above));
}

/// `x` is one of the first `n` of `keys`.
spec fn among(keys: Seq<u32>, n: int, x: u32) -> bool {
    exists|k: int| 0 <= k < n && keys[k] == x
}

impl<V: Copy> Table<V> {
    /// What is kept for each id.
    pub closed spec fn view(self) -> Map<u32, V> {
        self.map@
    }

    /// An empty table.
    pub fn new() -> (r: Self)
        ensures
            r@ == Map::<u32, V>::empty(),
    {
        Table { map: BTreeMap::new() }
    }

    /// What is kept for `id`.
    pub fn get(&self, id: u32) -> (r: Option<V>)
        ensures
            match r {
                Some(v) => self@.contains_key(id) && self@[id] == v,
                None => !self@.contains_key(id),
            },
    {
        match self.map.get(&id) {
            Some(v) => Some(*v),
            None => None,
        }
    }

    /// Keeps `v` for `id`.
    pub fn put(&mut self, id: u32, v: V)
        ensures
            final(self)@ == old(self)@.insert(id, v),
    {
        let _ = self.map.insert(id, v);
    }

    /// Forgets `id`; gives back what was kept for it.
    pub fn remove(&mut self, id: u32) -> (r: Option<V>)
        ensures
            final(self)@ == old(self)@.remove(id),
            match r {
                Some(v) => old(self)@.contains_key(id) && old(self)@[id] == v,
                None => !old(self)@.contains_key(id),
            },
    {
        let r = self.map.remove(&id);
        r
    }

    /// The number of ids.
    pub fn len(&self) -> (r: usize)
        ensures
            r == self@.len(),
            self@.dom().finite(),
    {
        self.map.len()
    }

    /// The ids above a bound, in increasing order.
    pub fn ids_above(&self, above: i64) -> (r: Vec<u32>)
        ensures
            selected(r@, self@, above as int),
            r@ == sorted_ids(self@, above as int),
    {
        let mut r: Vec<u32> = Vec::new();
        let ghost refs = vstd::std_specs::btree::spec_keys_iter(&self.map).remaining();
        let ghost keys = refs.unref();
        assert(keys.to_set() == self@.dom());
        for id in it: self.map.keys()
            invariant
                refs == it.seq(),
                keys == refs.unref(),
                refs.no_duplicates(),
                increasing(r@),
                forall|i: int| 0 <= i < r@.len() ==> #[trigger] r@[i] > above,
                forall|i: int| 0 <= i < r@.len() ==> among(keys, it.index(), #[trigger] r@[i]),
                forall|k: int|
                    0 <= k < it.index() && keys[k] > above ==> r@.contains(#[trigger] keys[k]),
        {
            let ghost now = it.index();
            assert(keys[now] == *id);
            let ghost before = r@;
            if (*id as i64) > above {
                assert(!r@.contains(*id)) by {
                    if r@.contains(*id) {
                        let i = choose|i: int| 0 <= i < r@.len() && r@[i] == *id;
                        assert(among(keys, now, r@[i]));
                        let k = choose|k: int| 0 <= k < now && keys[k] == r@[i];
                        assert(refs[k] == refs[now]);
                    }
                }
                insert_sorted(&mut r, *id);
            }
            assert forall|i: int| 0 <= i < r@.len() implies among(
                keys,
                now + 1,
                #[trigger] r@[i],
            ) && r@[i] > above by {
                assert(r@.contains(r@[i]));
                if before.contains(r@[i]) {
                    let j = choose|j: int| 0 <= j < before.len() && before[j] == r@[i];
                    assert(among(keys, now, before[j]));
                } else {
                    assert(keys[now] == r@[i]);
                }
            }
            assert forall|k: int| 0 <= k < now + 1 && keys[k] > above implies r@.contains(
                #[trigger] keys[k],
            ) by {
                if k < now {
                    assert(before.contains(keys[k]));
                }
            }
        }
        proof {
            assert forall|id: u32| r@.contains(id) <==> self@.contains_key(id) && id > above by {
                if r@.contains(id) {
                    let i = choose|i: int| 0 <= i < r@.len() && r@[i] == id;
                    assert(among(keys, keys.len() as int, r@[i]));
                    assert(keys.contains(id));
                    assert(keys.to_set().contains(id));
                }
                if self@.contains_key(id) {
                    assert(keys.to_set().contains(id));
                    assert(keys.contains(id));
                    let k = choose|k: int| 0 <= k < keys.len() && keys[k] == id;
                    assert(id > above ==> r@.contains(keys[k]));
                }
            }
            lemma_sorted_ids(r@, self@, above as int);
        }
        r
    }
}

/// Inserts `id` into increasing ids.
fn insert_sorted(ids: &mut Vec<u32>, id: u32)
    requires
        increasing(old(ids)@),
        !old(ids)@.contains(id),
    ensures
        increasing(final(ids)@),
        forall|x: u32| final(ids)@.contains(x) <==> old(ids)@.contains(x) || x == id,
{
    let mut pos: usize = ids.len();
    while pos > 0 && ids[pos - 1] > id
        invariant
            pos <= ids@.len(),
            increasing(ids@),
            forall|k: int| pos <= k < ids@.len() ==> ids@[k] > id,
        decreases pos,
    {
        pos -= 1;
    }
    let ghost before = ids@;
    assert(pos > 0 ==> before[pos - 1] != id) by {
        if pos > 0 && before[pos - 1] == id {
            assert(before.contains(id));
        }
    }
    ids.insert(pos, id);
    let ghost after = ids@;
    proof {
        assert forall|x: u32| after.contains(x) <==> before.contains(x) || x == id by {
            if before.contains(x) {
                let k = choose|k: int| 0 <= k < before.len() && before[k] == x;
                assert(after[if k < pos { k } else { k + 1 }] == x);
            }
            assert(after[pos as int] == id);
            if after.contains(x) {
                let k = choose|k: int| 0 <= k < after.len() && after[k] == x;
                if k < pos {
                    assert(before[k] == x);
                } else if k > pos {
                    assert(before[k - 1] == x);
                }
            }
        }
    }
}

} // verus!
