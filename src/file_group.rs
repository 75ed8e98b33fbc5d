//! Chunks that bundle the whole chunk table entries of several small files
//! under one synthetic chunk id.
use crate::chunk_id::{FILE_GROUP_CHUNK_ID_OFFSET, MANIFEST_CHUNK_ID_OFFSET};
use std::collections::BTreeMap;
use vstd::std_specs::cmp::OrdSpec;
use vstd::std_specs::iter::IteratorSpec;
use vstd::prelude::*;

verus! {

broadcast use {vstd::std_specs::btree::group_btree_axioms, vstd::laws_cmp::group_laws_cmp};

/// A chunk id at the transport level mapped to the chunk table indices it bundles.
#[derive(Clone, Debug, Default, PartialEq, Eq)]
pub struct FileGroupChunks(BTreeMap<u32, Vec<u32>>);

impl View for FileGroupChunks {
    type V = Map<u32, Seq<u32>>;

    closed spec fn view(&self) -> Map<u32, Seq<u32>> {
        self.0@.map_values(|v: Vec<u32>| v@)
    }
}

/// Whether the file groups `m` fit a chunk table of `chunk_table_len` entries:
/// every id lies in the file group range, every index they refer to is in
/// range, and no index is referred to twice, within one group or across groups.
pub open spec fn fits_chunk_table(m: Map<u32, Seq<u32>>, chunk_table_len: int) -> bool {
    &&& forall|k: u32|
        #[trigger] m.contains_key(k) ==> FILE_GROUP_CHUNK_ID_OFFSET <= k < MANIFEST_CHUNK_ID_OFFSET
    &&& forall|k: u32, i: int|
        m.contains_key(k) && 0 <= i < m[k].len() ==> #[trigger] m[k][i] < chunk_table_len
    &&& forall|k1: u32, i1: int, k2: u32, i2: int|
        m.contains_key(k1) && m.contains_key(k2) && 0 <= i1 < m[k1].len() && 0 <= i2 < m[k2].len()
            && (k1 != k2 || i1 != i2) ==> #[trigger] m[k1][i1] != #[trigger] m[k2][i2]
}

/// File groups that fit a chunk table are disjoint: two different groups
/// share no chunk table index, and every index they hold is in range.
pub proof fn lemma_fitting_groups_disjoint(
    m: Map<u32, Seq<u32>>,
    chunk_table_len: int,
    k1: u32,
    k2: u32,
    x: u32,
)
    requires
        fits_chunk_table(m, chunk_table_len),
        m.contains_key(k1),
        m.contains_key(k2),
        k1 != k2,
        m[k1].contains(x),
    ensures
        !m[k2].contains(x),
        x < chunk_table_len,
{
    let i1 = choose|i: int| 0 <= i < m[k1].len() && m[k1][i] == x;
    assert(m[k1][i1] < chunk_table_len);
    if m[k2].contains(x) {
        let i2 = choose|i: int| 0 <= i < m[k2].len() && m[k2][i] == x;
        assert(m[k1][i1] != m[k2][i2]);
    }
}

/// Whether (a1, b1) comes before (a2, b2) in the order in which the groups are walked.
spec fn before(a1: int, b1: int, a2: int, b2: int) -> bool {
    a1 < a2 || (a1 == a2 && b1 < b2)
}

fn copy_indices(v: &Vec<u32>) -> (r: Vec<u32>)
    ensures
        r@ == v@,
{
    let mut r: Vec<u32> = Vec::new();
    let mut i: usize = 0;
    while i < v.len()
        invariant
            i <= v@.len(),
            r@ == v@.subrange(0, i as int),
        decreases v@.len() - i,
    {
        r.push(v[i]);
        i = i + 1;
        assert(r@ =~= v@.subrange(0, i as int));
    }
    assert(v@.subrange(0, i as int) =~= v@);
    r
}

impl FileGroupChunks {
    pub fn new(value: BTreeMap<u32, Vec<u32>>) -> (r: Self)
        ensures
            r@ == value@.map_values(|v: Vec<u32>| v@),
    {
        FileGroupChunks(value)
    }

    /// The number of file group chunks.
    pub fn len(&self) -> (r: usize)
        ensures
            r == self@.len(),
    {
        proof {
            assert(self@.dom() =~= self.0@.dom());
        }
        self.0.len()
    }

    /// Whether there is no file group chunk.
    pub fn is_empty(&self) -> (r: bool)
        ensures
            r == (self@.len() == 0),
    {
        proof {
            assert(self@.dom() =~= self.0@.dom());
        }
        self.0.is_empty()
    }

    /// The chunk ids of the file group chunks, in ascending order.
    pub fn keys(&self) -> (r: Vec<u32>)
        ensures
            r@.to_set() == self@.dom(),
            forall|i: int, j: int| 0 <= i < j < r@.len() ==> r@[i] < r@[j],
    {
        let mut v: Vec<u32> = Vec::new();
        let entries = self.0.iter();
        let ghost all = entries.remaining();
        for kv in it: entries
            invariant
                all == it.seq(),
                v@ == it.seq().subrange(0, it.index() as int).map_values(|kv: (&u32, &Vec<u32>)| *kv.0),
        {
            let (k, _) = kv;
            v.push(*k);
            assert(v@ =~= it.seq().subrange(0, it.index() + 1).map_values(|kv: (&u32, &Vec<u32>)| *kv.0));
        }
        proof {
            assert(v@ =~= all.map_values(|kv: (&u32, &Vec<u32>)| *kv.0));
            assert(vstd::std_specs::btree::increasing_seq(v@));
            vstd::std_specs::btree::axiom_increasing_seq_meaning(v@);
            assert forall|i: int, j: int| 0 <= i < j < v@.len() implies v@[i] < v@[j] by {
                assert(v@[i].cmp_spec(&v@[j]) is Less);
            }
            assert forall|x: u32| v@.to_set().contains(x) <==> self@.dom().contains(x) by {
                if v@.to_set().contains(x) {
                    let i = choose|i: int| 0 <= i < v@.len() && v@[i] == x;
                    assert(self.0@.contains_key(*all[i].0));
                }
                if self@.dom().contains(x) {
                    assert(self.0@.contains_key(x));
                    assert(all.contains((&x, &self.0@[x])));
                    let i = choose|i: int| 0 <= i < all.len() && all[i] == (&x, &self.0@[x]);
                    assert(v@[i] == x);
                }
            }
            assert(v@.to_set() =~= self@.dom());
        }
        v
    }

    /// The chunk table indices bundled under `chunk_id`, if it is a file group chunk.
    pub fn get(&self, chunk_id: &u32) -> (r: Option<&Vec<u32>>)
        ensures
            r is Some <==> self@.contains_key(*chunk_id),
            r matches Some(v) ==> v@ == self@[*chunk_id],
    {
        self.0.get(chunk_id)
    }

    /// The file group chunks and the chunk table indices of each, in ascending
    /// order of chunk id.
    pub fn iter(&self) -> (r: Vec<(u32, Vec<u32>)>)
        ensures
            r@.len() == self@.len(),
            forall|i: int| 0 <= i < r@.len() ==> #[trigger] self@.contains_key(r@[i].0) && self@[r@[i].0] == r@[i].1@,
            forall|k: u32| self@.contains_key(k) ==> exists|i: int| 0 <= i < r@.len() && #[trigger] r@[i].0 == k,
            forall|i: int, j: int| 0 <= i < j < r@.len() ==> r@[i].0 < r@[j].0,
    {
        let ks = self.keys();
        let mut r: Vec<(u32, Vec<u32>)> = Vec::new();
        let mut i: usize = 0;
        while i < ks.len()
            invariant
                i <= ks@.len(),
                r@.len() == i,
                ks@.to_set() == self@.dom(),
                forall|a: int, b: int| 0 <= a < b < ks@.len() ==> ks@[a] < ks@[b],
                forall|a: int| 0 <= a < i ==> r@[a].0 == ks@[a] && self@.contains_key(r@[a].0) && self@[r@[a].0] == r@[a].1@,
            decreases ks@.len() - i,
        {
            let k = ks[i];
            proof {
                assert(ks@.to_set().contains(k));
            }
            let v = self.get(&k).unwrap();
            let ghost prev = r@;
            r.push((k, copy_indices(v)));
            proof {
                assert forall|a: int| 0 <= a < i + 1 implies r@[a].0 == ks@[a] && self@.contains_key(r@[a].0) && self@[r@[a].0] == r@[a].1@ by {
                    if a < i {
                        assert(r@[a] == prev[a]);
                    }
                }
            }
            i = i + 1;
        }
        proof {
            assert(ks@.no_duplicates()) by {
                assert forall|a: int, b: int| 0 <= a < ks@.len() && 0 <= b < ks@.len() && a != b
                    implies ks@[a] != ks@[b] by {
                    if a < b {
                        assert(ks@[a] < ks@[b]);
                    } else {
                        assert(ks@[b] < ks@[a]);
                    }
                }
            }
            ks@.unique_seq_to_set();
            assert forall|a: int| 0 <= a < r@.len() implies #[trigger] self@.contains_key(r@[a].0)
                && self@[r@[a].0] == r@[a].1@ by {
                assert(r@[a].0 == ks@[a]);
            }
            assert forall|a: int, b: int| 0 <= a < b < r@.len() implies r@[a].0 < r@[b].0 by {
                assert(r@[a].0 == ks@[a]);
                assert(r@[b].0 == ks@[b]);
            }
            assert forall|k: u32| self@.contains_key(k) implies exists|i: int| 0 <= i < r@.len() && #[trigger] r@[i].0 == k by {
                assert(ks@.to_set().contains(k));
                let a = choose|a: int| 0 <= a < ks@.len() && ks@[a] == k;
                assert(r@[a].0 == k);
            }
        }
        r
    }

    /// The largest chunk id of a file group chunk; `None` where there is none.
    pub fn last_chunk_id(&self) -> (r: Option<u32>)
        ensures
            r is None <==> self@.len() == 0,
            r matches Some(k) ==> self@.contains_key(k) && forall|k2: u32| #[trigger] self@.contains_key(k2) ==> k2 <= k,
    {
        let ks = self.keys();
        if ks.len() == 0 {
            proof {
                assert(ks@.to_set() =~= Set::empty());
                assert(self@.dom() =~= Set::empty());
            }
            None
        } else {
            let k = ks[ks.len() - 1];
            proof {
                assert(ks@.to_set().contains(k));
                assert(self@.dom() =~= self.0@.dom());
                assert(self@.dom().finite());
                assert(self@.dom().len() > 0);
                assert forall|k2: u32| #[trigger] self@.contains_key(k2) implies k2 <= k by {
                    assert(ks@.to_set().contains(k2));
                }
            }
            Some(k)
        }
    }

    /// Whether these file groups fit a chunk table of `chunk_table_len` entries.
    pub fn fits(&self, chunk_table_len: usize) -> (r: bool)
        ensures
            r == fits_chunk_table(self@, chunk_table_len as int),
    {
        let ghost n = chunk_table_len as int;
        let mut seen: Vec<bool> = Vec::new();
        while seen.len() < chunk_table_len
            invariant
                seen@.len() <= n,
                n == chunk_table_len,
                forall|x: int| 0 <= x < seen@.len() ==> !seen@[x],
            decreases n - seen@.len(),
        {
            seen.push(false);
        }
        let ghost mut owner: Seq<(int, int)> = Seq::new(n as nat, |x: int| (0int, 0int));
        let e = self.iter();
        let ghost m = self@;
        let mut a: usize = 0;
        while a < e.len()
            invariant
                m == self@,
                n == chunk_table_len,
                seen@.len() == n,
                owner.len() == n,
                a <= e@.len(),
                e@.len() == m.len(),
                forall|i: int| 0 <= i < e@.len() ==> #[trigger] m.contains_key(e@[i].0) && m[e@[i].0] == e@[i].1@,
                forall|k: u32| m.contains_key(k) ==> exists|i: int| 0 <= i < e@.len() && #[trigger] e@[i].0 == k,
                forall|i: int, j: int| 0 <= i < j < e@.len() ==> e@[i].0 < e@[j].0,
                forall|a1: int| 0 <= a1 < a ==> FILE_GROUP_CHUNK_ID_OFFSET <= #[trigger] e@[a1].0 < MANIFEST_CHUNK_ID_OFFSET,
                forall|a1: int, b1: int| 0 <= a1 < a && 0 <= b1 < e@[a1].1@.len() ==> #[trigger] e@[a1].1@[b1] < n && seen@[e@[a1].1@[b1] as int],
                forall|x: int| 0 <= x < n && #[trigger] seen@[x] ==> 0 <= owner[x].0 < a && 0 <= owner[x].1 < e@[owner[x].0].1@.len() && e@[owner[x].0].1@[owner[x].1] == x,
                forall|a1: int, b1: int, a2: int, b2: int|
                    0 <= a1 < a && 0 <= a2 < a && 0 <= b1 < e@[a1].1@.len() && 0 <= b2 < e@[a2].1@.len() && (a1 != a2 || b1 != b2)
                    ==> #[trigger] e@[a1].1@[b1] != #[trigger] e@[a2].1@[b2],
            decreases e@.len() - a,
        {
            let k = e[a].0;
            if k < FILE_GROUP_CHUNK_ID_OFFSET || k >= MANIFEST_CHUNK_ID_OFFSET {
                proof {
                    assert(m.contains_key(e@[a as int].0));
                }
                return false;
            }
            let group = &e[a].1;
            let mut b: usize = 0;
            while b < group.len()
                invariant
                    m == self@,
                    n == chunk_table_len,
                    seen@.len() == n,
                    owner.len() == n,
                    a < e@.len(),
                    group == e@[a as int].1,
                    b <= group@.len(),
                    forall|i: int| 0 <= i < e@.len() ==> #[trigger] m.contains_key(e@[i].0) && m[e@[i].0] == e@[i].1@,
                    forall|i: int, j: int| 0 <= i < j < e@.len() ==> e@[i].0 < e@[j].0,
                    forall|a1: int, b1: int| 0 <= a1 <= a && 0 <= b1 < e@[a1].1@.len() && before(a1, b1, a as int, b as int) ==> #[trigger] e@[a1].1@[b1] < n && seen@[e@[a1].1@[b1] as int],
                    forall|x: int| 0 <= x < n && #[trigger] seen@[x] ==> 0 <= owner[x].0 <= a && 0 <= owner[x].1 < e@[owner[x].0].1@.len() && before(owner[x].0, owner[x].1, a as int, b as int) && e@[owner[x].0].1@[owner[x].1] == x,
                    forall|a1: int, b1: int, a2: int, b2: int|
                        0 <= a1 <= a && 0 <= a2 <= a && 0 <= b1 < e@[a1].1@.len() && 0 <= b2 < e@[a2].1@.len() && (a1 != a2 || b1 != b2)
                        && before(a1, b1, a as int, b as int) && before(a2, b2, a as int, b as int)
                        ==> #[trigger] e@[a1].1@[b1] != #[trigger] e@[a2].1@[b2],
                decreases group@.len() - b,
            {
                let x = group[b];
                if x as usize >= chunk_table_len {
                    proof {
                        assert(m.contains_key(e@[a as int].0));
                        assert(m[e@[a as int].0][b as int] == x);
                    }
                    return false;
                }
                if seen[x as usize] {
                    proof {
                        let a1 = owner[x as int].0;
                        let b1 = owner[x as int].1;
                        let k1 = e@[a1].0;
                        let k2 = e@[a as int].0;
                        assert(m.contains_key(k1));
                        assert(m.contains_key(k2));
                        assert(m[k1][b1] == x);
                        assert(m[k2][b as int] == x);
                        if a1 < a {
                            assert(k1 < k2);
                        }
                    }
                    return false;
                }
                seen.set(x as usize, true);
                proof {
                    owner = owner.update(x as int, (a as int, b as int));
                }
                b = b + 1;
            }
            a = a + 1;
        }
        proof {
            assert forall|k1: u32, i1: int, k2: u32, i2: int|
                m.contains_key(k1) && m.contains_key(k2) && 0 <= i1 < m[k1].len() && 0 <= i2 < m[k2].len()
                    && (k1 != k2 || i1 != i2) implies #[trigger] m[k1][i1] != #[trigger] m[k2][i2] by {
                let a1 = choose|i: int| 0 <= i < e@.len() && #[trigger] e@[i].0 == k1;
                let a2 = choose|i: int| 0 <= i < e@.len() && #[trigger] e@[i].0 == k2;
                assert(m[k1] == e@[a1].1@);
                assert(m[k2] == e@[a2].1@);
                assert(e@[a1].1@[i1] != e@[a2].1@[i2]);
            }
            assert forall|k: u32, i: int| m.contains_key(k) && 0 <= i < m[k].len() implies #[trigger] m[k][i] < n by {
                let a1 = choose|j: int| 0 <= j < e@.len() && #[trigger] e@[j].0 == k;
                assert(m[k] == e@[a1].1@);
                assert(e@[a1].1@[i] < n);
            }
            assert forall|k: u32| #[trigger] m.contains_key(k) implies FILE_GROUP_CHUNK_ID_OFFSET <= k < MANIFEST_CHUNK_ID_OFFSET by {
                let a1 = choose|j: int| 0 <= j < e@.len() && #[trigger] e@[j].0 == k;
                assert(FILE_GROUP_CHUNK_ID_OFFSET <= e@[a1].0 < MANIFEST_CHUNK_ID_OFFSET);
            }
        }
        true
    }
}

} // verus!
