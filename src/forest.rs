//! Grouping of centroid bins while a BVH node is split: a disjoint-set
//! forest over bin indices, and the cutting of a key-sorted sequence into
//! runs of equal keys.

use vstd::prelude::*;

verus! {

/// Parents stay in range, and every non-root has a smaller ghost level than
/// its parent, all levels lying in `0..=bound`.
pub open spec fn forest_wf(parent: Seq<usize>, level: Seq<int>, bound: int) -> bool {
    &&& parent.len() == level.len()
    &&& forall|i: int| 0 <= i < parent.len() ==> #[trigger] parent[i] < parent.len()
    &&& forall|i: int| 0 <= i < level.len() ==> 0 <= #[trigger] level[i] <= bound
    &&& forall|i: int|
        0 <= i < parent.len() && #[trigger] parent[i] != i ==> level[parent[i] as int] > level[i]
}

/// The root reached from `i` by following parents.
pub open spec fn root_of(parent: Seq<usize>, level: Seq<int>, bound: int, i: int) -> int
    decreases bound - level[i],
    when forest_wf(parent, level, bound) && 0 <= i < parent.len()
{
    if parent[i] == i {
        i
    } else {
        root_of(parent, level, bound, parent[i] as int)
    }
}

proof fn lemma_root(parent: Seq<usize>, level: Seq<int>, bound: int, i: int)
    requires
        forest_wf(parent, level, bound),
        0 <= i < parent.len(),
    ensures
        0 <= root_of(parent, level, bound, i) < parent.len(),
        parent[root_of(parent, level, bound, i)] == root_of(parent, level, bound, i),
        parent[i] != i ==> level[root_of(parent, level, bound, i)] > level[i],
    decreases bound - level[i],
{
    if parent[i] != i {
        let p = parent[i] as int;
        assert(parent[i] < parent.len());
        lemma_root(parent, level, bound, p);
    }
}

proof fn lemma_compress_keeps_roots(
    parent: Seq<usize>,
    level: Seq<int>,
    bound: int,
    i: int,
    r: int,
    j: int,
)
    requires
        forest_wf(parent, level, bound),
        0 <= i < parent.len(),
        r == root_of(parent, level, bound, i),
        forest_wf(parent.update(i, r as usize), level, bound),
        0 <= j < parent.len(),
    ensures
        root_of(parent.update(i, r as usize), level, bound, j) == root_of(parent, level, bound, j),
    decreases bound - level[j],
{
    let p2 = parent.update(i, r as usize);
    lemma_root(parent, level, bound, i);
    if j == i {
        if r != i {
            assert(p2[r] == parent[r]);
            assert(root_of(p2, level, bound, r) == r);
            assert(root_of(p2, level, bound, i) == root_of(p2, level, bound, r));
        } else {
            assert(p2 =~= parent);
        }
    } else {
        assert(p2[j] == parent[j]);
        if parent[j] != j {
            assert(parent[j] < parent.len());
            lemma_compress_keeps_roots(parent, level, bound, i, r, parent[j] as int);
            assert(root_of(p2, level, bound, j) == root_of(p2, level, bound, parent[j] as int));
        }
    }
}

proof fn lemma_link_roots(
    parent: Seq<usize>,
    level: Seq<int>,
    bound: int,
    c: int,
    r: int,
    level2: Seq<int>,
    bound2: int,
    j: int,
)
    requires
        forest_wf(parent, level, bound),
        0 <= c < parent.len(),
        0 <= r < parent.len(),
        c != r,
        parent[c] == c,
        parent[r] == r,
        forest_wf(parent.update(c, r as usize), level2, bound2),
        forall|k: int| 0 <= k < level.len() && k != r ==> level2[k] == level[k],
        0 <= j < parent.len(),
    ensures
        root_of(parent.update(c, r as usize), level2, bound2, j) == if root_of(
            parent,
            level,
            bound,
            j,
        ) == c {
            r
        } else {
            root_of(parent, level, bound, j)
        },
    decreases bound2 - level2[j],
{
    let p2 = parent.update(c, r as usize);
    if j != c {
        assert(p2[j] == parent[j]);
        if parent[j] != j {
            assert(parent[j] < parent.len());
            lemma_link_roots(parent, level, bound, c, r, level2, bound2, parent[j] as int);
            assert(root_of(p2, level2, bound2, j) == root_of(p2, level2, bound2, parent[j] as int));
        }
    } else {
        assert(p2[r] == r);
        assert(root_of(p2, level2, bound2, r) == r);
        assert(root_of(p2, level2, bound2, c) == root_of(p2, level2, bound2, r));
    }
}

/// A disjoint-set forest over the indices `0..n`.
pub struct BinForest {
    parent: Vec<usize>,
    level: Ghost<Seq<int>>,
    bound: Ghost<int>,
}

impl BinForest {
    pub closed spec fn wf(&self) -> bool {
        forest_wf(self.parent@, self.level@, self.bound@)
    }

    /// Number of elements.
    pub closed spec fn spec_len(&self) -> int {
        self.parent@.len() as int
    }

    /// The representative of the set holding `i`.
    pub closed spec fn root(&self, i: int) -> int {
        root_of(self.parent@, self.level@, self.bound@, i)
    }

    /// `n` singleton sets.
    pub fn new(n: usize) -> (r: BinForest)
        ensures
            r.wf(),
            r.spec_len() == n,
            forall|i: int| 0 <= i < n ==> #[trigger] r.root(i) == i,
    {
        let mut parent: Vec<usize> = Vec::new();
        let mut i: usize = 0;
        while i < n
            invariant
                i <= n,
                parent@.len() == i,
                forall|k: int| 0 <= k < i ==> #[trigger] parent@[k] == k,
            decreases n - i,
        {
            parent.push(i);
            i = i + 1;
        }
        let r = BinForest { parent, level: Ghost(Seq::new(n as nat, |k: int| 0int)), bound: Ghost(0) };
        assert forall|i: int| 0 <= i < n implies #[trigger] r.root(i) == i by {
            assert(r.parent@[i] == i);
        }
        r
    }

    /// Number of elements.
    pub fn len(&self) -> (r: usize)
        ensures
            r == self.spec_len(),
    {
        self.parent.len()
    }

    /// True when `i` represents its set.
    pub fn is_root(&self, i: usize) -> (r: bool)
        requires
            self.wf(),
            i < self.spec_len(),
        ensures
            r == (self.root(i as int) == i),
    {
        proof {
            lemma_root(self.parent@, self.level@, self.bound@, i as int);
        }
        self.parent[i] == i
    }

    /// The representative of `i`'s set. Every element on the way gets the
    /// representative as its parent; no set changes.
    pub fn find(&mut self, i: usize) -> (r: usize)
        requires
            old(self).wf(),
            i < old(self).spec_len(),
        ensures
            final(self).wf(),
            final(self).spec_len() == old(self).spec_len(),
            r == old(self).root(i as int),
            forall|k: int| 0 <= k < old(self).spec_len() ==> #[trigger] final(self).root(k) == old(
                self,
            ).root(k),
    {
        let ghost lv = self.level@;
        let ghost b = self.bound@;
        let mut r = i;
        while self.parent[r] != r
            invariant
                forest_wf(self.parent@, lv, b),
                self.level@ == lv,
                self.bound@ == b,
                r < self.parent@.len(),
                root_of(self.parent@, lv, b, r as int) == root_of(self.parent@, lv, b, i as int),
                i < self.parent@.len(),
            decreases b - lv[r as int],
        {
            proof {
                assert(self.parent@[r as int] < self.parent@.len());
            }
            r = self.parent[r];
        }
        let ghost p0 = self.parent@;
        proof {
            assert(root_of(p0, lv, b, r as int) == r);
        }
        let mut j = i;
        while self.parent[j] != j
            invariant
                forest_wf(self.parent@, lv, b),
                self.level@ == lv,
                self.bound@ == b,
                self.parent@.len() == p0.len(),
                j < self.parent@.len(),
                r < self.parent@.len(),
                root_of(self.parent@, lv, b, j as int) == r,
                forall|k: int|
                    0 <= k < p0.len() ==> #[trigger] root_of(self.parent@, lv, b, k) == root_of(
                        p0,
                        lv,
                        b,
                        k,
                    ),
            decreases b - lv[j as int],
        {
            let next = self.parent[j];
            let ghost p1 = self.parent@;
            proof {
                lemma_root(p1, lv, b, j as int);
                assert(p1[j as int] < p1.len());
                let p2 = p1.update(j as int, r);
                assert forall|k: int| 0 <= k < p2.len() && #[trigger] p2[k] != k implies lv[p2[k] as int]
                    > lv[k] by {
                    if k != j {
                        assert(p2[k] == p1[k]);
                    }
                }
                assert(forest_wf(p2, lv, b));
                assert forall|k: int| 0 <= k < p0.len() implies #[trigger] root_of(p2, lv, b, k)
                    == root_of(p0, lv, b, k) by {
                    lemma_compress_keeps_roots(p1, lv, b, j as int, r as int, k);
                }
                assert(root_of(p1, lv, b, next as int) == r);
            }
            self.parent.set(j, r);
            j = next;
        }
        r
    }

    /// Joins the set represented by `child` into the set represented by
    /// `parent`.
    pub fn union(&mut self, child: usize, parent: usize)
        requires
            old(self).wf(),
            child < old(self).spec_len(),
            parent < old(self).spec_len(),
            old(self).root(child as int) == child,
            old(self).root(parent as int) == parent,
            child != parent,
        ensures
            final(self).wf(),
            final(self).spec_len() == old(self).spec_len(),
            forall|k: int|
                0 <= k < old(self).spec_len() ==> #[trigger] final(self).root(k) == if old(self).root(
                    k,
                ) == child {
                    parent as int
                } else {
                    old(self).root(k)
                },
    {
        let ghost p = self.parent@;
        let ghost lv = self.level@;
        let ghost b = self.bound@;
        proof {
            lemma_root(p, lv, b, child as int);
            lemma_root(p, lv, b, parent as int);
        }
        let ghost top = if lv[parent as int] > lv[child as int] {
            lv[parent as int]
        } else {
            lv[child as int] + 1
        };
        let ghost lv2 = lv.update(parent as int, top);
        let ghost b2 = if b > top {
            b
        } else {
            top
        };
        self.parent.set(child, parent);
        self.level = Ghost(lv2);
        self.bound = Ghost(b2);
        proof {
            let p2 = self.parent@;
            assert(p2 == p.update(child as int, parent));
            assert forall|k: int| 0 <= k < p2.len() && #[trigger] p2[k] != k implies lv2[p2[k] as int]
                > lv2[k] by {
                if k != child {
                    assert(p2[k] == p[k]);
                    assert(p[k] < p.len());
                }
            }
            assert forall|k: int| 0 <= k < p2.len() implies #[trigger] p2[k] < p2.len() by {
                if k != child {
                    assert(p2[k] == p[k]);
                }
            }
            assert forall|k: int| 0 <= k < lv2.len() implies 0 <= #[trigger] lv2[k] <= b2 by {}
            assert(forest_wf(p2, lv2, b2));
            assert forall|k: int| 0 <= k < p.len() implies #[trigger] root_of(p2, lv2, b2, k) == if root_of(
                p,
                lv,
                b,
                k,
            ) == child {
                parent as int
            } else {
                root_of(p, lv, b, k)
            } by {
                lemma_link_roots(p, lv, b, child as int, parent as int, lv2, b2, k);
            }
        }
    }
}

/// Splits `0..keys.len()` into maximal runs of equal keys, in order. Each
/// run is `(start, end)`, half open.
pub fn run_ranges(keys: &Vec<usize>) -> (r: Vec<(usize, usize)>)
    ensures
        keys@.len() == 0 <==> r@.len() == 0,
        r@.len() > 0 ==> r@[0].0 == 0 && r@[r@.len() - 1].1 == keys@.len(),
        forall|k: int| 0 <= k < r@.len() ==> (#[trigger] r@[k]).0 < r@[k].1,
        forall|k: int| 0 <= k < r@.len() - 1 ==> (#[trigger] r@[k]).1 == r@[k + 1].0,
        forall|k: int, t: int|
            0 <= k < r@.len() && (#[trigger] r@[k]).0 <= t < r@[k].1 ==> #[trigger] keys@[t]
                == keys@[r@[k].0 as int],
        forall|k: int|
            0 <= k < r@.len() && (#[trigger] r@[k]).1 < keys@.len() ==> keys@[r@[k].1 as int]
                != keys@[r@[k].1 - 1],
{
    let n = keys.len();
    let mut r: Vec<(usize, usize)> = Vec::new();
    let mut start: usize = 0;
    while start < n
        invariant
            n == keys@.len(),
            start <= n,
            start == 0 <==> r@.len() == 0,
            r@.len() > 0 ==> r@[0].0 == 0 && r@[r@.len() - 1].1 == start,
            forall|k: int| 0 <= k < r@.len() ==> (#[trigger] r@[k]).0 < r@[k].1,
            forall|k: int| 0 <= k < r@.len() - 1 ==> (#[trigger] r@[k]).1 == r@[k + 1].0,
            forall|k: int, t: int|
                0 <= k < r@.len() && (#[trigger] r@[k]).0 <= t < r@[k].1 ==> #[trigger] keys@[t]
                    == keys@[r@[k].0 as int],
            forall|k: int|
                0 <= k < r@.len() && (#[trigger] r@[k]).1 < n ==> keys@[r@[k].1 as int]
                    != keys@[r@[k].1 - 1],
            start > 0 && start < n ==> keys@[start as int] != keys@[start - 1],
        decreases n - start,
    {
        let key = keys[start];
        let mut end = start + 1;
        while end < n && keys[end] == key
            invariant
                n == keys@.len(),
                start < end <= n,
                key == keys@[start as int],
                forall|t: int| start <= t < end ==> #[trigger] keys@[t] == key,
            decreases n - end,
        {
            end = end + 1;
        }
        r.push((start, end));
        start = end;
    }
    r
}

} // verus!
