//! A stable merge sort over index sequences, parameterised by a "sorts no later than" relation.
//! The spec functions are the definition every sorting contract in the crate is stated against;
//! `merge_sort_indices` computes exactly that sequence.
use vstd::prelude::*;
use vstd::relations::*;
use vstd::multiset::Multiset;

verus! {

/// Merges two sequences, preferring the left one on ties (which is what makes the sort stable).
pub open spec fn merge_by(l: Seq<usize>, r: Seq<usize>, le: spec_fn(usize, usize) -> bool) -> Seq<usize>
    decreases l.len() + r.len(),
{
    if l.len() == 0 {
        r
    } else if r.len() == 0 {
        l
    } else if le(l[0], r[0]) {
        seq![l[0]] + merge_by(l.drop_first(), r, le)
    } else {
        seq![r[0]] + merge_by(l, r.drop_first(), le)
    }
}

/// Top-down stable merge sort of `s` by `le`.
pub open spec fn msort_by(s: Seq<usize>, le: spec_fn(usize, usize) -> bool) -> Seq<usize>
    decreases s.len(),
{
    if s.len() <= 1 {
        s
    } else {
        let m = s.len() / 2;
        merge_by(msort_by(s.take(m as int), le), msort_by(s.skip(m as int), le), le)
    }
}

/// `0, 1, .., n - 1`.
pub open spec fn iota(n: nat) -> Seq<usize> {
    Seq::new(n, |i: int| i as usize)
}

/// `le` decides every pair and chains.
pub open spec fn total_preorder(le: spec_fn(usize, usize) -> bool) -> bool {
    &&& forall|a: usize, b: usize| #[trigger] le(a, b) || le(b, a)
    &&& forall|a: usize, b: usize, c: usize| #![trigger le(a, b), le(b, c)] le(a, b) && le(b, c) ==> le(a, c)
}

proof fn lemma_merge_step(l: Seq<usize>, r: Seq<usize>, le: spec_fn(usize, usize) -> bool)
    requires
        l.len() > 0,
        r.len() > 0,
    ensures
        le(l[0], r[0]) ==> merge_by(l, r, le) == seq![l[0]] + merge_by(l.drop_first(), r, le),
        !le(l[0], r[0]) ==> merge_by(l, r, le) == seq![r[0]] + merge_by(l, r.drop_first(), le),
{
}

fn merge_exec<F: Fn(usize, usize) -> bool>(
    l: &Vec<usize>,
    r: &Vec<usize>,
    le_exec: &F,
    Ghost(le): Ghost<spec_fn(usize, usize) -> bool>,
) -> (out: Vec<usize>)
    requires
        forall|a: usize, b: usize| le_exec.requires((a, b)),
        forall|a: usize, b: usize, x: bool| le_exec.ensures((a, b), x) ==> x == le(a, b),
    ensures
        out@ == merge_by(l@, r@, le),
{
    let mut out: Vec<usize> = Vec::new();
    let mut i: usize = 0;
    let mut j: usize = 0;
    assert(l@.skip(0) =~= l@);
    assert(r@.skip(0) =~= r@);
    while i < l.len() || j < r.len()
        invariant
            i <= l@.len(),
            j <= r@.len(),
            forall|a: usize, b: usize| le_exec.requires((a, b)),
            forall|a: usize, b: usize, x: bool| le_exec.ensures((a, b), x) ==> x == le(a, b),
            out@ + merge_by(l@.skip(i as int), r@.skip(j as int), le) == merge_by(l@, r@, le),
        decreases l@.len() + r@.len() - i - j,
    {
        let ghost ls = l@.skip(i as int);
        let ghost rs = r@.skip(j as int);
        if i == l.len() {
            assert(ls.len() == 0);
            out.push(r[j]);
            assert(rs.drop_first() =~= r@.skip(j + 1));
            assert(merge_by(ls, rs.drop_first(), le) == rs.drop_first());
            assert(out@ + rs.drop_first() =~= out@.drop_last() + rs);
            j = j + 1;
        } else if j == r.len() {
            assert(rs.len() == 0);
            out.push(l[i]);
            assert(ls.drop_first() =~= l@.skip(i + 1));
            assert(out@ + ls.drop_first() =~= out@.drop_last() + ls);
            i = i + 1;
        } else {
            let a = l[i];
            let b = r[j];
            let take_left = le_exec(a, b);
            proof {
                lemma_merge_step(ls, rs, le);
            }
            if take_left {
                out.push(a);
                assert(ls.drop_first() =~= l@.skip(i + 1));
                assert(out@ + merge_by(ls.drop_first(), rs, le) =~= out@.drop_last() + (seq![a]
                    + merge_by(ls.drop_first(), rs, le)));
                i = i + 1;
            } else {
                out.push(b);
                assert(rs.drop_first() =~= r@.skip(j + 1));
                assert(out@ + merge_by(ls, rs.drop_first(), le) =~= out@.drop_last() + (seq![b]
                    + merge_by(ls, rs.drop_first(), le)));
                j = j + 1;
            }
        }
    }
    assert(l@.skip(i as int) =~= Seq::<usize>::empty());
    assert(r@.skip(j as int) =~= Seq::<usize>::empty());
    assert(out@ + Seq::<usize>::empty() =~= out@);
    out
}

fn sort_slice<F: Fn(usize, usize) -> bool>(
    s: &Vec<usize>,
    le_exec: &F,
    Ghost(le): Ghost<spec_fn(usize, usize) -> bool>,
) -> (out: Vec<usize>)
    requires
        forall|a: usize, b: usize| le_exec.requires((a, b)),
        forall|a: usize, b: usize, x: bool| le_exec.ensures((a, b), x) ==> x == le(a, b),
    ensures
        out@ == msort_by(s@, le),
    decreases s@.len(),
{
    if s.len() <= 1 {
        return s.clone();
    }
    let m = s.len() / 2;
    let mut left: Vec<usize> = Vec::new();
    let mut right: Vec<usize> = Vec::new();
    let mut k: usize = 0;
    while k < s.len()
        invariant
            k <= s@.len(),
            m == s@.len() / 2,
            k <= m ==> left@ == s@.take(k as int) && right@.len() == 0,
            k > m ==> left@ == s@.take(m as int) && right@ == s@.subrange(m as int, k as int),
        decreases s@.len() - k,
    {
        if k < m {
            left.push(s[k]);
            assert(s@.take(k + 1) =~= s@.take(k as int).push(s@[k as int]));
        } else {
            right.push(s[k]);
            assert(s@.subrange(m as int, k + 1) =~= s@.subrange(m as int, k as int).push(s@[k as int]));
            if k == m {
                assert(right@ =~= s@.subrange(m as int, k + 1));
            }
        }
        k = k + 1;
    }
    assert(right@ =~= s@.skip(m as int));
    let ls = sort_slice(&left, le_exec, Ghost(le));
    let rs = sort_slice(&right, le_exec, Ghost(le));
    merge_exec(&ls, &rs, le_exec, Ghost(le))
}

/// Stable merge sort of the indices `0..n` by `le_exec`, which decides `le`.
pub fn merge_sort_indices<F: Fn(usize, usize) -> bool>(
    n: usize,
    le_exec: &F,
    Ghost(le): Ghost<spec_fn(usize, usize) -> bool>,
) -> (out: Vec<usize>)
    requires
        forall|a: usize, b: usize| le_exec.requires((a, b)),
        forall|a: usize, b: usize, x: bool| le_exec.ensures((a, b), x) ==> x == le(a, b),
    ensures
        out@ == msort_by(iota(n as nat), le),
{
    let mut s: Vec<usize> = Vec::new();
    let mut i: usize = 0;
    while i < n
        invariant
            i <= n,
            s@ == iota(i as nat),
        decreases n - i,
    {
        s.push(i);
        assert(s@ =~= iota((i + 1) as nat));
        i = i + 1;
    }
    sort_slice(&s, le_exec, Ghost(le))
}


/// Every element of `merge_by(l, r)` comes from `l` or `r`, and the element counts add up.
pub proof fn lemma_merge_multiset(l: Seq<usize>, r: Seq<usize>, le: spec_fn(usize, usize) -> bool)
    ensures
        merge_by(l, r, le).to_multiset() == l.to_multiset().add(r.to_multiset()),
        merge_by(l, r, le).len() == l.len() + r.len(),
    decreases l.len() + r.len(),
{
    broadcast use vstd::seq_lib::group_to_multiset_ensures;
    broadcast use vstd::multiset::group_multiset_axioms;

    if l.len() == 0 {
        assert(l.to_multiset() =~= Multiset::empty());
        assert(r.to_multiset() =~= l.to_multiset().add(r.to_multiset()));
    } else if r.len() == 0 {
        assert(r.to_multiset() =~= Multiset::empty());
        assert(l.to_multiset() =~= l.to_multiset().add(r.to_multiset()));
    } else if le(l[0], r[0]) {
        lemma_merge_multiset(l.drop_first(), r, le);
        let m = merge_by(l.drop_first(), r, le);
        vstd::seq_lib::lemma_multiset_commutative(seq![l[0]], m);
        assert(l =~= seq![l[0]] + l.drop_first());
        vstd::seq_lib::lemma_multiset_commutative(seq![l[0]], l.drop_first());
        assert(merge_by(l, r, le).to_multiset() =~= l.to_multiset().add(r.to_multiset()));
    } else {
        lemma_merge_multiset(l, r.drop_first(), le);
        let m = merge_by(l, r.drop_first(), le);
        vstd::seq_lib::lemma_multiset_commutative(seq![r[0]], m);
        assert(r =~= seq![r[0]] + r.drop_first());
        vstd::seq_lib::lemma_multiset_commutative(seq![r[0]], r.drop_first());
        assert(merge_by(l, r, le).to_multiset() =~= l.to_multiset().add(r.to_multiset()));
    }
}

/// Sorting permutes: the multiset of indices is unchanged.
pub proof fn lemma_msort_multiset(s: Seq<usize>, le: spec_fn(usize, usize) -> bool)
    ensures
        msort_by(s, le).to_multiset() == s.to_multiset(),
        msort_by(s, le).len() == s.len(),
    decreases s.len(),
{
    if s.len() > 1 {
        let m = s.len() / 2;
        lemma_msort_multiset(s.take(m as int), le);
        lemma_msort_multiset(s.skip(m as int), le);
        lemma_merge_multiset(msort_by(s.take(m as int), le), msort_by(s.skip(m as int), le), le);
        assert(s =~= s.take(m as int) + s.skip(m as int));
        vstd::seq_lib::lemma_multiset_commutative(s.take(m as int), s.skip(m as int));
    }
}

/// `x` sorts no later than every element of `s`.
pub open spec fn le_all(le: spec_fn(usize, usize) -> bool, x: usize, s: Seq<usize>) -> bool {
    forall|i: int| 0 <= i < s.len() ==> #[trigger] le(x, s[i])
}

proof fn lemma_merge_le_all(l: Seq<usize>, r: Seq<usize>, le: spec_fn(usize, usize) -> bool, x: usize)
    requires
        le_all(le, x, l),
        le_all(le, x, r),
    ensures
        le_all(le, x, merge_by(l, r, le)),
    decreases l.len() + r.len(),
{
    if l.len() > 0 && r.len() > 0 {
        if le(l[0], r[0]) {
            lemma_merge_le_all(l.drop_first(), r, le, x);
            let m = merge_by(l.drop_first(), r, le);
            assert forall|i: int| 0 <= i < m.len() + 1 implies #[trigger] le(x, (seq![l[0]] + m)[i]) by {
                if i > 0 {
                    assert((seq![l[0]] + m)[i] == m[i - 1]);
                }
            }
        } else {
            lemma_merge_le_all(l, r.drop_first(), le, x);
            let m = merge_by(l, r.drop_first(), le);
            assert forall|i: int| 0 <= i < m.len() + 1 implies #[trigger] le(x, (seq![r[0]] + m)[i]) by {
                if i > 0 {
                    assert((seq![r[0]] + m)[i] == m[i - 1]);
                }
            }
        }
    }
}

proof fn lemma_sorted_head(s: Seq<usize>, le: spec_fn(usize, usize) -> bool)
    requires
        s.len() > 0,
        sorted_by(s, le),
    ensures
        le_all(le, s[0], s.drop_first()),
        sorted_by(s.drop_first(), le),
{
    assert forall|i: int| 0 <= i < s.drop_first().len() implies #[trigger] le(s[0], s.drop_first()[i]) by {
        assert(s.drop_first()[i] == s[i + 1]);
    }
    assert forall|i: int, j: int| 0 <= i < j < s.drop_first().len() implies #[trigger] le(s.drop_first()[i], s.drop_first()[j]) by {
        assert(s.drop_first()[i] == s[i + 1]);
        assert(s.drop_first()[j] == s[j + 1]);
    }
}

proof fn lemma_le_all_chain(le: spec_fn(usize, usize) -> bool, x: usize, y: usize, s: Seq<usize>)
    requires
        total_preorder(le),
        le(x, y),
        le_all(le, y, s),
    ensures
        le_all(le, x, s),
{
    assert forall|i: int| 0 <= i < s.len() implies #[trigger] le(x, s[i]) by {
        assert(le(x, y) && le(y, s[i]));
    }
}

proof fn lemma_cons_sorted(le: spec_fn(usize, usize) -> bool, x: usize, s: Seq<usize>)
    requires
        le_all(le, x, s),
        sorted_by(s, le),
    ensures
        sorted_by(seq![x] + s, le),
{
    let t = seq![x] + s;
    assert forall|i: int, j: int| 0 <= i < j < t.len() implies #[trigger] le(t[i], t[j]) by {
        assert(t[j] == s[j - 1]);
        if i > 0 {
            assert(t[i] == s[i - 1]);
        }
    }
}

/// Merging two sorted sequences under a total preorder gives a sorted sequence.
pub proof fn lemma_merge_sorted(l: Seq<usize>, r: Seq<usize>, le: spec_fn(usize, usize) -> bool)
    requires
        total_preorder(le),
        sorted_by(l, le),
        sorted_by(r, le),
    ensures
        sorted_by(merge_by(l, r, le), le),
    decreases l.len() + r.len(),
{
    if l.len() > 0 && r.len() > 0 {
        lemma_sorted_head(l, le);
        lemma_sorted_head(r, le);
        if le(l[0], r[0]) {
            lemma_merge_sorted(l.drop_first(), r, le);
            lemma_le_all_chain(le, l[0], r[0], r.drop_first());
            assert forall|i: int| 0 <= i < r.len() implies #[trigger] le(l[0], r[i]) by {
                if i > 0 {
                    assert(r[i] == r.drop_first()[i - 1]);
                }
            }
            lemma_merge_le_all(l.drop_first(), r, le, l[0]);
            lemma_cons_sorted(le, l[0], merge_by(l.drop_first(), r, le));
        } else {
            assert(le(r[0], l[0]));
            lemma_merge_sorted(l, r.drop_first(), le);
            lemma_le_all_chain(le, r[0], l[0], l.drop_first());
            assert forall|i: int| 0 <= i < l.len() implies #[trigger] le(r[0], l[i]) by {
                if i > 0 {
                    assert(l[i] == l.drop_first()[i - 1]);
                }
            }
            lemma_merge_le_all(l, r.drop_first(), le, r[0]);
            lemma_cons_sorted(le, r[0], merge_by(l, r.drop_first(), le));
        }
    }
}

/// Under a total preorder, the merge sort's output is sorted.
pub proof fn lemma_msort_sorted(s: Seq<usize>, le: spec_fn(usize, usize) -> bool)
    requires
        total_preorder(le),
    ensures
        sorted_by(msort_by(s, le), le),
    decreases s.len(),
{
    if s.len() > 1 {
        let m = s.len() / 2;
        lemma_msort_sorted(s.take(m as int), le);
        lemma_msort_sorted(s.skip(m as int), le);
        lemma_merge_sorted(msort_by(s.take(m as int), le), msort_by(s.skip(m as int), le), le);
    }
}


/// The sort key of index `a`: its key, or past every key when `a` is out of range.
pub open spec fn ext_key(keys: Seq<u64>, a: usize) -> int {
    if a < keys.len() {
        keys[a as int] as int
    } else {
        u64::MAX as int + 1
    }
}

/// Index `a` sorts no later than `b` when its key is no larger.
pub open spec fn key_le(keys: Seq<u64>) -> spec_fn(usize, usize) -> bool {
    |a: usize, b: usize| ext_key(keys, a) <= ext_key(keys, b)
}

pub proof fn lemma_key_le_total(keys: Seq<u64>)
    ensures
        total_preorder(key_le(keys)),
{
    let le = key_le(keys);
    assert forall|a: usize, b: usize| #[trigger] le(a, b) || le(b, a) by {}
    assert forall|a: usize, b: usize, c: usize| #![trigger le(a, b), le(b, c)] le(a, b) && le(b, c) implies le(a, c) by {
    }
}

/// Stable ascending order of `0..keys.len()` by key.
pub fn sort_indices_by_keys(keys: &Vec<u64>) -> (out: Vec<usize>)
    ensures
        out@ == msort_by(iota(keys@.len()), key_le(keys@)),
{
    let ghost le = key_le(keys@);
    let n = keys.len();
    let f = |a: usize, b: usize| -> (r: bool)
        ensures
            r == key_le(keys@)(a, b),
        {
            if a < n && b < n {
                keys[a] <= keys[b]
            } else {
                b >= n
            }
        };
    merge_sort_indices(n, &f, Ghost(le))
}


/// The sort key of index `a` among signed keys: its key, or past every key when out of range.
pub open spec fn ext_skey(keys: Seq<i128>, a: usize) -> int {
    if a < keys.len() {
        keys[a as int] as int
    } else {
        i128::MAX as int + 1
    }
}

/// Index `a` sorts no later than `b` when its signed key is no larger.
pub open spec fn skey_le(keys: Seq<i128>) -> spec_fn(usize, usize) -> bool {
    |a: usize, b: usize| ext_skey(keys, a) <= ext_skey(keys, b)
}

pub proof fn lemma_skey_le_total(keys: Seq<i128>)
    ensures
        total_preorder(skey_le(keys)),
{
    let le = skey_le(keys);
    assert forall|a: usize, b: usize| #[trigger] le(a, b) || le(b, a) by {}
    assert forall|a: usize, b: usize, c: usize| #![trigger le(a, b), le(b, c)] le(a, b) && le(b, c) implies le(a, c) by {
    }
}

/// Stable ascending order of `0..keys.len()` by signed key.
pub fn sort_indices_by_signed_keys(keys: &Vec<i128>) -> (out: Vec<usize>)
    ensures
        out@ == msort_by(iota(keys@.len()), skey_le(keys@)),
{
    let ghost le = skey_le(keys@);
    let n = keys.len();
    let f = |a: usize, b: usize| -> (r: bool)
        ensures
            r == skey_le(keys@)(a, b),
        {
            if a < n && b < n {
                keys[a] <= keys[b]
            } else {
                b >= n
            }
        };
    merge_sort_indices(n, &f, Ghost(le))
}


/// Sorting never invents an index: every output index was an input index below `n`.
pub proof fn lemma_msort_in_range(s: Seq<usize>, le: spec_fn(usize, usize) -> bool, n: nat)
    requires
        forall|j: int| 0 <= j < s.len() ==> s[j] < n,
    ensures
        forall|j: int| 0 <= j < msort_by(s, le).len() ==> msort_by(s, le)[j] < n,
{
    broadcast use vstd::seq_lib::group_to_multiset_ensures;

    lemma_msort_multiset(s, le);
    let t = msort_by(s, le);
    assert forall|j: int| 0 <= j < t.len() implies t[j] < n by {
        assert(t.to_multiset().count(t[j]) > 0);
        assert(s.contains(t[j]));
    }
}

/// `iota(n)` holds only indices below `n`.
pub proof fn lemma_iota_in_range(n: nat)
    ensures
        forall|j: int| 0 <= j < iota(n).len() ==> iota(n)[j] < n,
{
}


/// `ord` lists each position below `n` exactly once.
pub open spec fn is_permutation(ord: Seq<usize>, n: nat) -> bool {
    &&& ord.len() == n
    &&& forall|i: int| 0 <= i < ord.len() ==> (#[trigger] ord[i]) < n
    &&& forall|i: int, j: int| 0 <= i < j < ord.len() ==> ord[i] != ord[j]
}

/// The elements of `v` rearranged so that position `i` holds `v[ord[i]]`; nothing is copied.
pub fn permute<T>(v: Vec<T>, ord: &Vec<usize>) -> (r: Vec<T>)
    requires
        is_permutation(ord@, v@.len()),
    ensures
        r@.len() == v@.len(),
        forall|i: int| 0 <= i < r@.len() ==> r@[i] == v@[ord@[i] as int],
{
    let ghost orig = v@;
    let n = v.len();
    let mut v = v;
    let mut slots: Vec<Option<T>> = Vec::new();
    while v.len() > 0
        invariant
            v@.len() + slots@.len() == n,
            n == orig.len(),
            v@ == orig.take(v@.len() as int),
            forall|k: int| 0 <= k < slots@.len() ==> #[trigger] slots@[k] == Some(orig[n - 1 - k]),
        decreases v@.len(),
    {
        let x = v.pop().unwrap();
        slots.push(Some(x));
        assert(v@ =~= orig.take(v@.len() as int));
    }
    let mut out: Vec<T> = Vec::new();
    let mut i: usize = 0;
    while i < n
        invariant
            i <= n,
            n == orig.len(),
            slots@.len() == n,
            is_permutation(ord@, n as nat),
            out@.len() == i,
            forall|q: int| 0 <= q < i ==> out@[q] == orig[ord@[q] as int],
            forall|k: int| 0 <= k < n ==> (#[trigger] slots@[k] is Some) == !(exists|q: int| 0 <= q < i && ord@[q] == n - 1 - k),
            forall|k: int| 0 <= k < n && #[trigger] slots@[k] is Some ==> slots@[k] == Some(orig[n - 1 - k]),
        decreases n - i,
    {
        let o = ord[i];
        let k = n - 1 - o;
        let mut tmp: Option<T> = None;
        proof {
            assert(ord@[i as int] == o);
            assert(!(exists|q: int| 0 <= q < i && ord@[q] == o)) by {
                if exists|q: int| 0 <= q < i && ord@[q] == o {
                    let q = choose|q: int| 0 <= q < i && ord@[q] == o;
                    assert(ord@[q] != ord@[i as int]);
                }
            }
            assert(n - 1 - k == o);
            assert(slots@[k as int] is Some);
        }
        let ghost before = slots@;
        std::mem::swap(&mut slots[k], &mut tmp);
        match tmp {
            Some(x) => {
                out.push(x);
            },
            None => {
                assert(false);
            },
        }
        proof {
            assert forall|kk: int| 0 <= kk < n implies (#[trigger] slots@[kk] is Some) == !(exists|q: int| 0 <= q < i + 1 && ord@[q] == n - 1 - kk) by {
                if kk != k {
                    assert(slots@[kk] == before[kk]);
                    if exists|q: int| 0 <= q < i + 1 && ord@[q] == n - 1 - kk {
                        let q = choose|q: int| 0 <= q < i + 1 && ord@[q] == n - 1 - kk;
                        if q == i {
                            assert(false);
                        }
                    }
                } else {
                    assert(ord@[i as int] == n - 1 - kk);
                }
            }
            assert forall|kk: int| 0 <= kk < n && #[trigger] slots@[kk] is Some implies slots@[kk] == Some(orig[n - 1 - kk]) by {
                if kk != k {
                    assert(slots@[kk] == before[kk]);
                }
            }
        }
        i = i + 1;
    }
    out
}

/// Sorting `0..n` gives each position below `n` exactly once.
pub proof fn lemma_msort_permutation(n: nat, le: spec_fn(usize, usize) -> bool)
    requires
        n <= usize::MAX + 1,
    ensures
        is_permutation(msort_by(iota(n), le), n),
{
    broadcast use vstd::seq_lib::group_to_multiset_ensures;

    let s = iota(n);
    let t = msort_by(s, le);
    lemma_msort_multiset(s, le);
    lemma_iota_in_range(n);
    lemma_msort_in_range(s, le, n);
    assert(s.no_duplicates()) by {
        assert forall|i: int, j: int| 0 <= i < s.len() && 0 <= j < s.len() && i != j implies s[i] != s[j] by {}
    }
    s.lemma_multiset_has_no_duplicates();
    t.lemma_multiset_has_no_duplicates_conv();
}

} // verus!
