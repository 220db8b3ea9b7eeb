//! The aggregation table: per extension key, how many files were folded in
//! and the sum of their sizes.

use vstd::prelude::*;

verus! {

/// Count and total size of the files folded in under one key.
#[derive(Clone, Copy, Debug, PartialEq, Eq, Structural)]
pub struct FileStats {
    pub fcount: u64,
    pub fsize: u64,
}

/// The abstract value of a `FileStats`: (count, total bytes).
pub open spec fn stats_view(s: FileStats) -> (nat, nat) {
    (s.fcount as nat, s.fsize as nat)
}

/// No key stands twice in a sequence of rows.
pub open spec fn keys_unique(s: Seq<(String, FileStats)>) -> bool {
    forall|i: int, j: int|
        0 <= i < s.len() && 0 <= j < s.len() && s[i].0@ == s[j].0@ ==> i == j
}

/// Some row of `s` has key `k`.
pub open spec fn has_key(s: Seq<(String, FileStats)>, k: Seq<char>) -> bool {
    exists|i: int| 0 <= i < s.len() && s[i].0@ == k
}

/// The mapping from key to (count, total) that a sequence of rows with
/// unique keys stands for.
pub open spec fn rows_map(s: Seq<(String, FileStats)>) -> Map<Seq<char>, (nat, nat)> {
    Map::new(
        |k: Seq<char>| has_key(s, k),
        |k: Seq<char>| stats_view(s[choose|i: int| 0 <= i < s.len() && s[i].0@ == k].1),
    )
}

/// The table after one file of `size` bytes is folded in under `k`: one more
/// file and `size` more bytes for `k`, a fresh entry where `k` was absent.
pub open spec fn fold_spec(m: Map<Seq<char>, (nat, nat)>, k: Seq<char>, size: nat) -> Map<
    Seq<char>,
    (nat, nat),
> {
    if m.contains_key(k) {
        m.insert(k, (m[k].0 + 1, m[k].1 + size))
    } else {
        m.insert(k, (1, size))
    }
}

/// The table after each `(key, size)` pair of `folds` is folded in, in order.
pub open spec fn fold_all(m: Map<Seq<char>, (nat, nat)>, folds: Seq<(Seq<char>, nat)>) -> Map<
    Seq<char>,
    (nat, nat),
>
    decreases folds.len(),
{
    if folds.len() == 0 {
        m
    } else {
        fold_spec(fold_all(m, folds.drop_last()), folds.last().0, folds.last().1)
    }
}

/// In a sequence with unique keys, the row at `i` is what the map holds for
/// its key.
pub proof fn lemma_rows_map_at(s: Seq<(String, FileStats)>, i: int)
    requires
        keys_unique(s),
        0 <= i < s.len(),
    ensures
        rows_map(s).contains_key(s[i].0@),
        rows_map(s)[s[i].0@] == stats_view(s[i].1),
{
    assert(has_key(s, s[i].0@));
}

/// Putting a row with a new key at any position of a sequence with unique
/// keys adds that key to the map and keeps the keys unique.
pub proof fn lemma_rows_map_insert(s: Seq<(String, FileStats)>, j: int, x: (String, FileStats))
    requires
        keys_unique(s),
        !has_key(s, x.0@),
        0 <= j <= s.len(),
    ensures
        keys_unique(s.insert(j, x)),
        rows_map(s.insert(j, x)) == rows_map(s).insert(x.0@, stats_view(x.1)),
{
    let t = s.insert(j, x);
    assert forall|a: int, b: int|
        0 <= a < t.len() && 0 <= b < t.len() && t[a].0@ == t[b].0@ implies a == b by {
        let sa = if a < j { a } else { a - 1 };
        let sb = if b < j { b } else { b - 1 };
        if a != j && b != j {
            assert(t[a] == s[sa] && t[b] == s[sb]);
        } else if a == j && b != j {
            assert(t[b] == s[sb]);
        } else if a != j && b == j {
            assert(t[a] == s[sa]);
        }
    }
    let m = rows_map(s).insert(x.0@, stats_view(x.1));
    assert forall|k: Seq<char>| #[trigger] has_key(t, k) == m.contains_key(k) by {
        if has_key(t, k) {
            let a = choose|a: int| 0 <= a < t.len() && t[a].0@ == k;
            if a < j {
                assert(s[a] == t[a]);
            } else if a > j {
                assert(s[a - 1] == t[a]);
            }
        }
        if has_key(s, k) {
            let a = choose|a: int| 0 <= a < s.len() && s[a].0@ == k;
            if a < j {
                assert(t[a] == s[a]);
            } else {
                assert(t[a + 1] == s[a]);
            }
        }
        if k == x.0@ {
            assert(t[j] == x);
        }
    }
    assert forall|k: Seq<char>| #[trigger] rows_map(t).contains_key(k) implies rows_map(t)[k]
        == m[k] by {
        let a = choose|a: int| 0 <= a < t.len() && t[a].0@ == k;
        lemma_rows_map_at(t, a);
        if a < j {
            assert(t[a] == s[a]);
            lemma_rows_map_at(s, a);
        } else if a > j {
            assert(t[a] == s[a - 1]);
            lemma_rows_map_at(s, a - 1);
        } else {
            assert(t[a] == x);
        }
    }
    assert(rows_map(t) =~= m);
}

/// The per-key aggregate of the files folded in so far.
pub struct AggregationTable {
    rows: Vec<(String, FileStats)>,
}

impl View for AggregationTable {
    type V = Map<Seq<char>, (nat, nat)>;

    closed spec fn view(&self) -> Map<Seq<char>, (nat, nat)> {
        rows_map(self.rows@)
    }
}

impl AggregationTable {
    /// The rows of the table, in the order in which their keys first came.
    pub closed spec fn rows_spec(&self) -> Seq<(String, FileStats)> {
        self.rows@
    }

    /// Keys are unique and every entry counts at least one file.
    pub open spec fn wf(&self) -> bool {
        &&& keys_unique(self.rows_spec())
        &&& forall|k: Seq<char>| #[trigger] self@.contains_key(k) ==> self@[k].0 >= 1
    }

    /// Whether folding `size` bytes in under `k` keeps the entry's count and
    /// total within `u64`.
    pub open spec fn can_fold_spec(&self, k: Seq<char>, size: nat) -> bool {
        self@.contains_key(k) ==> (self@[k].0 + 1 <= u64::MAX && self@[k].1 + size <= u64::MAX)
    }

    /// An empty table.
    pub fn new() -> (r: AggregationTable)
        ensures
            r.wf(),
            r@ == Map::<Seq<char>, (nat, nat)>::empty(),
    {
        let r = AggregationTable { rows: Vec::new() };
        assert(r@ =~= Map::<Seq<char>, (nat, nat)>::empty());
        r
    }

    /// Number of distinct keys.
    pub fn len(&self) -> (r: usize)
        requires
            self.wf(),
        ensures
            r == self@.len(),
    {
        proof { self.lemma_len(); }
        self.rows.len()
    }

    proof fn lemma_len(&self)
        requires
            self.wf(),
        ensures
            self@.len() == self.rows@.len(),
    {
        let s = self.rows@;
        let idx = Set::new(|i: int| 0 <= i < s.len());
        assert(idx =~= vstd::set_lib::set_int_range(0, s.len() as int));
        vstd::set_lib::lemma_int_range(0, s.len() as int);
        let f = |i: int| s[i].0@;
        assert forall|k: Seq<char>| #[trigger] self@.dom().contains(k) == idx.map(f).contains(
            k,
        ) by {
            if self@.dom().contains(k) {
                let a = choose|a: int| 0 <= a < s.len() && s[a].0@ == k;
                assert(idx.contains(a) && f(a) == k);
            }
        }
        assert(self@.dom() =~= idx.map(f));
        assert(vstd::relations::injective_on(f, idx)) by {
            assert forall|a: int, b: int| idx.contains(a) && idx.contains(b) && #[trigger] f(a)
                == #[trigger] f(b) implies a == b by {}
        }
        vstd::set_lib::lemma_map_size(idx, idx.map(f), f);
    }

    /// Where the row of `key` stands, if there is one.
    fn find(&self, key: &String) -> (r: Option<usize>)
        requires
            self.wf(),
        ensures
            match r {
                Some(i) => i < self.rows@.len() && self.rows@[i as int].0@ == key@,
                None => !self@.contains_key(key@),
            },
    {
        let mut i: usize = 0;
        while i < self.rows.len()
            invariant
                i <= self.rows@.len(),
                forall|j: int| 0 <= j < i ==> self.rows@[j].0@ != key@,
            decreases self.rows@.len() - i,
        {
            if self.rows[i].0 == *key {
                return Some(i);
            }
            i += 1;
        }
        None
    }

    /// What the table holds for `key`: count and total, or `None` where no
    /// file was folded in under it.
    pub fn get(&self, key: &String) -> (r: Option<FileStats>)
        requires
            self.wf(),
        ensures
            match r {
                Some(st) => self@.contains_key(key@) && self@[key@] == stats_view(st),
                None => !self@.contains_key(key@),
            },
    {
        match self.find(key) {
            Some(i) => {
                proof { lemma_rows_map_at(self.rows@, i as int); }
                Some(self.rows[i].1)
            },
            None => None,
        }
    }

    /// Whether `fold(key, size)` keeps the entry of `key` within `u64`.
    pub fn can_fold(&self, key: &String, size: u64) -> (r: bool)
        requires
            self.wf(),
        ensures
            r == self.can_fold_spec(key@, size as nat),
    {
        match self.get(key) {
            Some(st) => st.fcount < u64::MAX && st.fsize <= u64::MAX - size,
            None => true,
        }
    }

    /// Folds one file of `size` bytes in under `key`: its count grows by one
    /// and its total by `size`, from zero where `key` is new.
    pub fn fold(&mut self, key: String, size: u64)
        requires
            old(self).wf(),
            old(self).can_fold_spec(key@, size as nat),
        ensures
            final(self).wf(),
            final(self)@ == fold_spec(old(self)@, key@, size as nat),
    {
        let ghost k = key@;
        match self.find(&key) {
            Some(i) => {
                let ghost s = self.rows@;
                proof { lemma_rows_map_at(s, i as int); }
                let st = self.rows[i].1;
                let nst = FileStats { fcount: st.fcount + 1, fsize: st.fsize + size };
                self.rows[i] = (key, nst);
                proof {
                    let t = self.rows@;
                    assert(t =~= s.update(i as int, t[i as int]));
                    assert forall|a: int, b: int|
                        0 <= a < t.len() && 0 <= b < t.len() && t[a].0@ == t[b].0@ implies a
                        == b by {
                        assert(t[a].0@ == s[a].0@ && t[b].0@ == s[b].0@);
                    }
                    let m = fold_spec(rows_map(s), k, size as nat);
                    assert forall|q: Seq<char>| #[trigger] has_key(t, q) == has_key(s, q) by {
                        if has_key(t, q) {
                            let a = choose|a: int| 0 <= a < t.len() && t[a].0@ == q;
                            assert(s[a].0@ == q);
                        }
                        if has_key(s, q) {
                            let a = choose|a: int| 0 <= a < s.len() && s[a].0@ == q;
                            assert(t[a].0@ == q);
                        }
                    }
                    assert forall|q: Seq<char>| #[trigger] rows_map(t).contains_key(q) implies
                        rows_map(t)[q] == m[q] by {
                        let a = choose|a: int| 0 <= a < t.len() && t[a].0@ == q;
                        lemma_rows_map_at(t, a);
                        if a != i {
                            lemma_rows_map_at(s, a);
                        }
                    }
                    assert(rows_map(t) =~= m);
                }
            },
            None => {
                let ghost s = self.rows@;
                let nst = FileStats { fcount: 1, fsize: size };
                self.rows.push((key, nst));
                proof {
                    assert(!has_key(s, k));
                    assert(s.insert(s.len() as int, (key, nst)) =~= self.rows@);
                    lemma_rows_map_insert(s, s.len() as int, (key, nst));
                    assert(rows_map(self.rows@) =~= fold_spec(rows_map(s), k, size as nat));
                }
            },
        }
    }

    /// The rows of the table, in the order in which their keys first came.
    pub fn into_rows(self) -> (r: Vec<(String, FileStats)>)
        requires
            self.wf(),
        ensures
            keys_unique(r@),
            rows_map(r@) == self@,
    {
        self.rows
    }
}

/// Folding the same `(key, size)` pair `n` times into a table without that
/// key gives count `n` and total `n * size` for it, and leaves the other
/// keys alone.
pub proof fn lemma_fold_repeated(
    m: Map<Seq<char>, (nat, nat)>,
    k: Seq<char>,
    size: nat,
    n: nat,
)
    requires
        !m.contains_key(k),
    ensures
        n > 0 ==> fold_all(m, Seq::new(n, |i: int| (k, size))).contains_key(k),
        n > 0 ==> fold_all(m, Seq::new(n, |i: int| (k, size)))[k] == (n, n * size),
        fold_all(m, Seq::new(n, |i: int| (k, size))).remove(k) == m.remove(k),
    decreases n,
{
    let folds = Seq::new(n, |i: int| (k, size));
    if n > 0 {
        let prev = Seq::new((n - 1) as nat, |i: int| (k, size));
        assert(folds.drop_last() =~= prev);
        lemma_fold_repeated(m, k, size, (n - 1) as nat);
        let pm = fold_all(m, prev);
        if n == 1 {
            assert(pm == m);
        }
        assert((n - 1) as nat * size + size == n * size) by (nonlinear_arith)
            requires
                n >= 1,
        ;
        assert(fold_all(m, folds).remove(k) =~= pm.remove(k));
    } else {
        assert(fold_all(m, folds) == m);
    }
}

/// The sum of the sizes of a sequence of folds.
pub open spec fn sum_sizes(folds: Seq<(Seq<char>, nat)>) -> nat
    decreases folds.len(),
{
    if folds.len() == 0 {
        0
    } else {
        sum_sizes(folds.drop_last()) + folds.last().1
    }
}

/// Folds that all go to one key, in whatever order they are made, leave that
/// key with one count per fold and the sum of their sizes: no fold is lost.
pub proof fn lemma_fold_same_key(m: Map<Seq<char>, (nat, nat)>, k: Seq<char>, folds: Seq<(Seq<char>, nat)>)
    requires
        !m.contains_key(k),
        folds.len() > 0,
        forall|i: int| 0 <= i < folds.len() ==> #[trigger] folds[i].0 == k,
    ensures
        fold_all(m, folds).contains_key(k),
        fold_all(m, folds)[k] == (folds.len(), sum_sizes(folds)),
    decreases folds.len(),
{
    if folds.len() > 1 {
        let prev = folds.drop_last();
        assert forall|i: int| 0 <= i < prev.len() implies #[trigger] prev[i].0 == k by {
            assert(prev[i] == folds[i]);
        }
        lemma_fold_same_key(m, k, prev);
        assert(folds.last().0 == k);
    } else {
        assert(folds.drop_last().len() == 0);
        assert(fold_all(m, folds.drop_last()) == m);
        assert(folds.last() == folds[0]);
        assert(sum_sizes(folds.drop_last()) == 0);
    }
}

/// Two folds give the same table in either order, for distinct keys and for
/// the same key alike.
pub proof fn lemma_fold_commutes(
    m: Map<Seq<char>, (nat, nat)>,
    k1: Seq<char>,
    s1: nat,
    k2: Seq<char>,
    s2: nat,
)
    ensures
        fold_spec(fold_spec(m, k1, s1), k2, s2) == fold_spec(fold_spec(m, k2, s2), k1, s1),
{
    assert(fold_spec(fold_spec(m, k1, s1), k2, s2) =~= fold_spec(fold_spec(m, k2, s2), k1, s1));
}

} // verus!
