//! The order directory listings are shown in: directories first, then by
//! lower-cased name, ties kept in the order the entries were read.
use vstd::prelude::*;

verus! {

/// `a` sorts before `b` as `str`'s `Ord` has it: the first character that
/// differs decides (UTF-8 byte order is code-point order), and a proper
/// prefix comes first.
pub open spec fn chars_lt(a: Seq<char>, b: Seq<char>) -> bool
    decreases a.len(),
{
    if a.len() == 0 {
        b.len() > 0
    } else if b.len() == 0 {
        false
    } else if a[0] != b[0] {
        a[0] < b[0]
    } else {
        chars_lt(a.drop_first(), b.drop_first())
    }
}

/// A sort key: whether the entry is a directory, and its folded name.
pub type SortKey = (bool, Seq<char>);

/// The entry with key `a` is listed before the one with key `b`:
/// directories come first, and within each group the smaller name.
pub open spec fn before(a: SortKey, b: SortKey) -> bool {
    (a.0 && !b.0) || (a.0 == b.0 && chars_lt(a.1, b.1))
}

/// Where the entry `i` settles when it is inserted into `ord` from the back:
/// it moves left past every entry it sorts before.
pub open spec fn settle(ord: Seq<usize>, keys: Seq<SortKey>, i: usize, p: nat) -> nat
    decreases p,
{
    if p > 0 && p <= ord.len() && before(keys[i as int], keys[ord[p - 1] as int]) {
        settle(ord, keys, i, (p - 1) as nat)
    } else {
        p
    }
}

/// The order of the first `n` entries: each entry in turn is inserted
/// after every entry it does not sort before (a stable insertion sort).
pub open spec fn insertion_order(keys: Seq<SortKey>, n: nat) -> Seq<usize>
    decreases n,
{
    if n == 0 {
        seq![]
    } else {
        let o = insertion_order(keys, (n - 1) as nat);
        o.insert(settle(o, keys, (n - 1) as usize, o.len()) as int, (n - 1) as usize)
    }
}

/// The positions of the entries with the given keys, in listing order.
pub open spec fn listing_order(keys: Seq<SortKey>) -> Seq<usize> {
    insertion_order(keys, keys.len())
}

/// `ord` lists the positions `0..n` once each, in order of their keys, and
/// positions with equal keys in increasing order.
pub open spec fn orders(ord: Seq<usize>, keys: Seq<SortKey>, n: nat) -> bool {
    &&& ord.len() == n
    &&& forall|a: int| 0 <= a < ord.len() ==> #[trigger] ord[a] < n
    &&& forall|a: int, b: int| 0 <= a < b < ord.len() ==> ord[a] != ord[b]
    &&& forall|a: int, b: int|
        0 <= a < b < ord.len() ==> !before(keys[ord[b] as int], keys[ord[a] as int])
    &&& forall|a: int, b: int|
        0 <= a < b < ord.len() && !before(keys[ord[a] as int], keys[ord[b] as int]) ==> ord[a]
            < ord[b]
}

/// `ord` lists all the positions of `keys` once each, sorted by key, and
/// positions with equal keys in increasing order.
pub open spec fn sorts(ord: Seq<usize>, keys: Seq<SortKey>) -> bool {
    orders(ord, keys, keys.len())
}

/// No name sorts before itself.
pub proof fn lemma_chars_lt_irreflexive(a: Seq<char>)
    ensures
        !chars_lt(a, a),
    decreases a.len(),
{
    if a.len() > 0 {
        lemma_chars_lt_irreflexive(a.drop_first());
    }
}

/// The order of names is transitive.
pub proof fn lemma_chars_lt_transitive(a: Seq<char>, b: Seq<char>, c: Seq<char>)
    requires
        chars_lt(a, b),
        chars_lt(b, c),
    ensures
        chars_lt(a, c),
    decreases a.len(),
{
    if a.len() > 0 && b.len() > 0 && c.len() > 0 && a[0] == b[0] && b[0] == c[0] {
        lemma_chars_lt_transitive(a.drop_first(), b.drop_first(), c.drop_first());
    }
}

/// Of two different names, one sorts before the other.
pub proof fn lemma_chars_lt_total(a: Seq<char>, b: Seq<char>)
    ensures
        a == b || chars_lt(a, b) || chars_lt(b, a),
    decreases a.len(),
{
    if a.len() > 0 && b.len() > 0 {
        if a[0] == b[0] {
            lemma_chars_lt_total(a.drop_first(), b.drop_first());
            if a.drop_first() == b.drop_first() {
                assert(a =~= seq![a[0]] + a.drop_first());
                assert(b =~= seq![b[0]] + b.drop_first());
            }
        }
    } else if a.len() == 0 && b.len() == 0 {
        assert(a =~= b);
    }
}

/// `before` is a strict weak order: irreflexive, and "not before" chains.
pub proof fn lemma_before_order(a: SortKey, b: SortKey, c: SortKey)
    ensures
        !before(a, a),
        before(a, b) ==> !before(b, a),
        !before(a, b) && !before(b, c) ==> !before(a, c),
        before(a, b) && before(b, c) ==> before(a, c),
{
    lemma_chars_lt_irreflexive(a.1);
    if before(a, b) && before(b, a) {
        if a.0 == b.0 {
            lemma_chars_lt_transitive(a.1, b.1, a.1);
        }
    }
    if before(a, b) && before(b, c) && a.0 == c.0 && b.0 == a.0 {
        lemma_chars_lt_transitive(a.1, b.1, c.1);
    }
    if !before(a, b) && !before(b, c) && before(a, c) {
        lemma_chars_lt_total(a.1, b.1);
        lemma_chars_lt_total(b.1, c.1);
        if a.0 == b.0 && b.0 == c.0 {
            if chars_lt(b.1, a.1) && chars_lt(c.1, b.1) {
                lemma_chars_lt_transitive(c.1, b.1, a.1);
                lemma_chars_lt_transitive(a.1, c.1, a.1);
                lemma_chars_lt_irreflexive(a.1);
            } else if chars_lt(b.1, a.1) {
                lemma_chars_lt_transitive(b.1, a.1, c.1);
            } else if chars_lt(c.1, b.1) {
                lemma_chars_lt_transitive(a.1, c.1, b.1);
            }
        }
    }
}

/// Whether `a` sorts before `b` (see `chars_lt`).
pub fn chars_less(a: &[char], b: &[char]) -> (r: bool)
    ensures
        r == chars_lt(a@, b@),
{
    let mut i: usize = 0;
    assert(a@.skip(0) =~= a@ && b@.skip(0) =~= b@);
    loop
        invariant
            i <= a@.len(),
            i <= b@.len(),
            chars_lt(a@, b@) == chars_lt(a@.skip(i as int), b@.skip(i as int)),
        decreases a@.len() - i,
    {
        if i == a.len() {
            return i < b.len();
        }
        if i == b.len() {
            return false;
        }
        if a[i] != b[i] {
            return a[i] < b[i];
        }
        assert(a@.skip(i as int).drop_first() =~= a@.skip(i + 1));
        assert(b@.skip(i as int).drop_first() =~= b@.skip(i + 1));
        i = i + 1;
    }
}

/// The keys of entries given by their directory flags and folded names.
pub open spec fn keys_of(dirs: Seq<bool>, names: Seq<Vec<char>>) -> Seq<SortKey> {
    Seq::new(dirs.len(), |i: int| (dirs[i], names[i]@))
}

/// The positions `0..n` of entries with the given directory flags and
/// folded names, in listing order.
pub fn order_by_keys(dirs: &Vec<bool>, names: &Vec<Vec<char>>) -> (r: Vec<usize>)
    requires
        dirs@.len() == names@.len(),
    ensures
        r@ == listing_order(keys_of(dirs@, names@)),
{
    let ghost keys = keys_of(dirs@, names@);
    let mut out: Vec<usize> = Vec::new();
    let mut i: usize = 0;
    while i < dirs.len()
        invariant
            i <= dirs@.len(),
            dirs@.len() == names@.len(),
            keys == keys_of(dirs@, names@),
            out@ == insertion_order(keys, i as nat),
            out@.len() == i,
        decreases dirs@.len() - i,
    {
        proof {
            lemma_insertion_order_len(keys, i as nat);
            lemma_insertion_order_bounded(keys, i as nat);
        }
        let mut p = out.len();
        while p > 0 && before_at(dirs, names, i, out[p - 1])
            invariant
                0 <= p <= out@.len(),
                i < dirs@.len(),
                dirs@.len() == names@.len(),
                keys == keys_of(dirs@, names@),
                forall|k: int| 0 <= k < out@.len() ==> #[trigger] out@[k] < i,
                settle(out@, keys, i, out@.len()) == settle(out@, keys, i, p as nat),
            decreases p,
        {
            p = p - 1;
        }
        proof { lemma_settle_bound(out@, keys, i, out@.len()); }
        out.insert(p, i);
        i = i + 1;
    }
    out
}

fn before_at(dirs: &Vec<bool>, names: &Vec<Vec<char>>, i: usize, j: usize) -> (r: bool)
    requires
        dirs@.len() == names@.len(),
        i < dirs@.len(),
        j < dirs@.len(),
    ensures
        r == before(keys_of(dirs@, names@)[i as int], keys_of(dirs@, names@)[j as int]),
{
    (dirs[i] && !dirs[j]) || (dirs[i] == dirs[j] && chars_less(names[i].as_slice(), names[j].as_slice()))
}

proof fn lemma_insertion_order_len(keys: Seq<SortKey>, n: nat)
    ensures
        insertion_order(keys, n).len() == n,
    decreases n,
{
    if n > 0 {
        let o = insertion_order(keys, (n - 1) as nat);
        lemma_insertion_order_len(keys, (n - 1) as nat);
        lemma_settle_bound(o, keys, (n - 1) as usize, o.len());
        o.insert_ensures(settle(o, keys, (n - 1) as usize, o.len()) as int, (n - 1) as usize);
    }
}

proof fn lemma_insertion_order_bounded(keys: Seq<SortKey>, n: nat)
    ensures
        forall|k: int| 0 <= k < insertion_order(keys, n).len() ==> #[trigger] insertion_order(keys, n)[k] < n,
    decreases n,
{
    if n > 0 {
        let o = insertion_order(keys, (n - 1) as nat);
        lemma_insertion_order_bounded(keys, (n - 1) as nat);
        lemma_settle_bound(o, keys, (n - 1) as usize, o.len());
        o.insert_ensures(settle(o, keys, (n - 1) as usize, o.len()) as int, (n - 1) as usize);
        let r = insertion_order(keys, n);
        let p = settle(o, keys, (n - 1) as usize, o.len()) as int;
        assert forall|k: int| 0 <= k < r.len() implies #[trigger] r[k] < n by {
            if k < p {
            } else if k == p {
            } else {
                assert(r[k] == o[k - 1]);
            }
        }
    }
}

proof fn lemma_insertion_order_complete(keys: Seq<SortKey>, n: nat, i: int)
    requires
        0 <= i < n,
        n <= usize::MAX + 1,
    ensures
        insertion_order(keys, n).contains(i as usize),
    decreases n,
{
    let o = insertion_order(keys, (n - 1) as nat);
    let p = settle(o, keys, (n - 1) as usize, o.len()) as int;
    lemma_insertion_order_len(keys, (n - 1) as nat);
    lemma_settle_bound(o, keys, (n - 1) as usize, o.len());
    o.insert_ensures(p, (n - 1) as usize);
    let r = insertion_order(keys, n);
    if i == n - 1 {
        assert(r[p] == (n - 1) as usize);
    } else {
        lemma_insertion_order_complete(keys, (n - 1) as nat, i);
        let w = choose|w: int| 0 <= w < o.len() && o[w] == i as usize;
        if w < p {
            assert(r[w] == o[w]);
        } else {
            assert(r[w + 1] == o[w]);
        }
    }
}

/// Every entry has its place in the listing order.
pub proof fn lemma_listing_order_complete(keys: Seq<SortKey>, i: int)
    requires
        0 <= i < keys.len(),
        keys.len() <= usize::MAX,
    ensures
        listing_order(keys).contains(i as usize),
{
    lemma_insertion_order_complete(keys, keys.len(), i);
}

proof fn lemma_settle_bound(ord: Seq<usize>, keys: Seq<SortKey>, i: usize, p: nat)
    ensures
        settle(ord, keys, i, p) <= p,
        p <= ord.len() ==> (forall|q: int|
            settle(ord, keys, i, p) <= q < p ==> before(keys[i as int], keys[#[trigger] ord[q] as int])),
        p <= ord.len() && settle(ord, keys, i, p) > 0 ==> !before(
            keys[i as int],
            keys[ord[settle(ord, keys, i, p) - 1] as int],
        ),
    decreases p,
{
    if p > 0 && p <= ord.len() && before(keys[i as int], keys[ord[p - 1] as int]) {
        lemma_settle_bound(ord, keys, i, (p - 1) as nat);
    }
}

/// The listing order puts every entry exactly once, directories before
/// files, each group by lower-cased name, and entries with equal keys in
/// the order they were read.
pub proof fn lemma_listing_order_sorts(keys: Seq<SortKey>)
    requires
        keys.len() <= usize::MAX,
    ensures
        sorts(listing_order(keys), keys),
{
    lemma_insertion_order_sorts(keys, keys.len());
}

proof fn lemma_insertion_order_sorts(keys: Seq<SortKey>, n: nat)
    requires
        n <= keys.len(),
        keys.len() <= usize::MAX,
    ensures
        orders(insertion_order(keys, n), keys, n),
    decreases n,
{
    lemma_insertion_order_len(keys, n);
    lemma_insertion_order_bounded(keys, n);
    if n > 0 {
        let m = (n - 1) as nat;
        let i = m as usize;
        let o = insertion_order(keys, m);
        lemma_insertion_order_sorts(keys, m);
        let p = settle(o, keys, i, o.len());
        lemma_settle_bound(o, keys, i, o.len());
        lemma_insert_orders(o, keys, i, p as int);
    }
}

proof fn lemma_insert_orders(o: Seq<usize>, keys: Seq<SortKey>, i: usize, p: int)
    requires
        i < keys.len(),
        orders(o, keys, i as nat),
        0 <= p <= o.len(),
        forall|q: int| p <= q < o.len() ==> before(keys[i as int], keys[#[trigger] o[q] as int]),
        p > 0 ==> !before(keys[i as int], keys[o[p - 1] as int]),
    ensures
        orders(o.insert(p, i), keys, (i + 1) as nat),
{
    let r = o.insert(p, i);
    o.insert_ensures(p, i);
    assert forall|k: int| 0 <= k < r.len() implies #[trigger] r[k] == (if k < p {
        o[k]
    } else if k == p {
        i
    } else {
        o[k - 1]
    }) by {}
    lemma_insert_distinct(o, keys, i, p);
    lemma_insert_sorted(o, keys, i, p);
    lemma_insert_stable(o, keys, i, p);
}

proof fn lemma_insert_distinct(o: Seq<usize>, keys: Seq<SortKey>, i: usize, p: int)
    requires
        orders(o, keys, i as nat),
        0 <= p <= o.len(),
    ensures
        forall|a: int, b: int| 0 <= a < b < o.insert(p, i).len() ==> o.insert(p, i)[a] != o.insert(p, i)[b],
{
    let r = o.insert(p, i);
    o.insert_ensures(p, i);
    assert forall|a: int, b: int| 0 <= a < b < r.len() implies r[a] != r[b] by {
        if a < p && b < p {
            assert(o[a] != o[b]);
        } else if a < p && b == p {
            assert(o[a] < i);
        } else if a < p {
            assert(r[b] == o[b - 1]);
            assert(o[a] != o[b - 1]);
        } else if a == p {
            assert(r[b] == o[b - 1]);
            assert(o[b - 1] < i);
        } else {
            assert(r[a] == o[a - 1] && r[b] == o[b - 1]);
            assert(o[a - 1] != o[b - 1]);
        }
    }
}

proof fn lemma_insert_sorted(o: Seq<usize>, keys: Seq<SortKey>, i: usize, p: int)
    requires
        i < keys.len(),
        orders(o, keys, i as nat),
        0 <= p <= o.len(),
        forall|q: int| p <= q < o.len() ==> before(keys[i as int], keys[#[trigger] o[q] as int]),
        p > 0 ==> !before(keys[i as int], keys[o[p - 1] as int]),
    ensures
        forall|a: int, b: int|
            0 <= a < b < o.insert(p, i).len() ==> !before(
                keys[o.insert(p, i)[b] as int],
                keys[o.insert(p, i)[a] as int],
            ),
{
    let r = o.insert(p, i);
    o.insert_ensures(p, i);
    assert forall|a: int, b: int| 0 <= a < b < r.len() implies !before(
        keys[r[b] as int],
        keys[r[a] as int],
    ) by {
        if a < p && b < p {
            assert(!before(keys[o[b] as int], keys[o[a] as int]));
        } else if a < p && b == p {
            if a < p - 1 {
                assert(!before(keys[o[p - 1] as int], keys[o[a] as int]));
                lemma_before_order(keys[i as int], keys[o[p - 1] as int], keys[o[a] as int]);
            }
        } else if a < p {
            assert(r[b] == o[b - 1]);
            assert(!before(keys[o[b - 1] as int], keys[o[a] as int]));
        } else if a == p {
            assert(r[b] == o[b - 1]);
            assert(before(keys[i as int], keys[o[b - 1] as int]));
            lemma_before_order(keys[i as int], keys[o[b - 1] as int], keys[i as int]);
        } else {
            assert(r[a] == o[a - 1] && r[b] == o[b - 1]);
            assert(!before(keys[o[b - 1] as int], keys[o[a - 1] as int]));
        }
    }
}

proof fn lemma_insert_stable(o: Seq<usize>, keys: Seq<SortKey>, i: usize, p: int)
    requires
        i < keys.len(),
        orders(o, keys, i as nat),
        0 <= p <= o.len(),
        forall|q: int| p <= q < o.len() ==> before(keys[i as int], keys[#[trigger] o[q] as int]),
    ensures
        forall|a: int, b: int|
            0 <= a < b < o.insert(p, i).len() && !before(
                keys[o.insert(p, i)[a] as int],
                keys[o.insert(p, i)[b] as int],
            ) ==> o.insert(p, i)[a] < o.insert(p, i)[b],
{
    let r = o.insert(p, i);
    o.insert_ensures(p, i);
    assert forall|a: int, b: int|
        0 <= a < b < r.len() && !before(keys[r[a] as int], keys[r[b] as int]) implies r[a]
        < r[b] by {
        if a < p && b < p {
        } else if a < p && b == p {
            assert(o[a] < i);
        } else if a < p {
            assert(r[b] == o[b - 1]);
        } else if a == p {
            assert(r[b] == o[b - 1]);
            assert(before(keys[i as int], keys[o[b - 1] as int]));
        } else {
            assert(r[a] == o[a - 1] && r[b] == o[b - 1]);
        }
    }
}

} // verus!
