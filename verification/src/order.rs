//! Stable sorting by sequence number.

use vstd::prelude::*;

verus! {

/// A value that carries a sequence number.
pub trait Sequenced: Copy {
    /// The sequence number.
    spec fn key(self) -> u64;

    /// The sequence number.
    fn sequence_number(&self) -> (r: u64)
        ensures
            r == self.key(),
    ;
}

/// `x` put into the ordered sequence `s`, behind everything whose key is not
/// larger.
pub open spec fn insert_by<T>(s: Seq<T>, x: T, key: spec_fn(T) -> u64) -> Seq<T>
    decreases s.len(),
{
    if s.len() == 0 || key(s.last()) <= key(x) {
        s.push(x)
    } else {
        insert_by(s.drop_last(), x, key).push(s.last())
    }
}

/// The elements of `s` in ascending order of their keys; those with equal keys
/// stay in the order they have in `s`.
pub open spec fn sort_by<T>(s: Seq<T>, key: spec_fn(T) -> u64) -> Seq<T>
    decreases s.len(),
{
    if s.len() == 0 {
        s
    } else {
        insert_by(sort_by(s.drop_last(), key), s.last(), key)
    }
}

/// Whether the keys of `s` ascend.
pub open spec fn ascending<T>(s: Seq<T>, key: spec_fn(T) -> u64) -> bool {
    forall|i: int, j: int| 0 <= i <= j < s.len() ==> key(#[trigger] s[i]) <= key(#[trigger] s[j])
}

/// The elements of `s` whose key is `k`, in order.
pub open spec fn with_key<T>(s: Seq<T>, key: spec_fn(T) -> u64, k: u64) -> Seq<T>
    decreases s.len(),
{
    if s.len() == 0 {
        s
    } else if key(s.last()) == k {
        with_key(s.drop_last(), key, k).push(s.last())
    } else {
        with_key(s.drop_last(), key, k)
    }
}

proof fn lemma_with_key_push<T>(s: Seq<T>, x: T, key: spec_fn(T) -> u64, k: u64)
    ensures
        with_key(s.push(x), key, k) == if key(x) == k {
            with_key(s, key, k).push(x)
        } else {
            with_key(s, key, k)
        },
{
    assert(s.push(x).drop_last() =~= s);
}

proof fn lemma_with_key_add<T>(a: Seq<T>, b: Seq<T>, key: spec_fn(T) -> u64, k: u64)
    ensures
        with_key(a + b, key, k) == with_key(a, key, k) + with_key(b, key, k),
    decreases b.len(),
{
    if b.len() == 0 {
        assert(a + b =~= a);
        assert(with_key(a, key, k) + with_key(b, key, k) =~= with_key(a, key, k));
    } else {
        lemma_with_key_add(a, b.drop_last(), key, k);
        assert((a + b).drop_last() =~= a + b.drop_last());
        assert(with_key(a + b, key, k) =~= with_key(a, key, k) + with_key(b, key, k));
    }
}

/// What is left of `s` under one key has that key and stood in `s`.
proof fn lemma_with_key_elements<T>(s: Seq<T>, key: spec_fn(T) -> u64, k: u64)
    ensures
        with_key(s, key, k).len() == 0 <==> (forall|i: int|
            0 <= i < s.len() ==> key(#[trigger] s[i]) != k),
        with_key(s, key, k).len() > 0 ==> key(with_key(s, key, k).last()) == k,
    decreases s.len(),
{
    if s.len() > 0 {
        let t = s.drop_last();
        lemma_with_key_elements(t, key, k);
        if key(s.last()) == k {
            assert(key(s[s.len() - 1]) == k);
        } else {
            if with_key(t, key, k).len() == 0 {
                assert forall|i: int| 0 <= i < s.len() implies key(#[trigger] s[i]) != k by {
                    if i < t.len() {
                        assert(s[i] == t[i]);
                    }
                }
            } else {
                let j = choose|j: int| 0 <= j < t.len() && key(#[trigger] t[j]) == k;
                assert(key(s[j]) == k);
            }
        }
    }
}

proof fn lemma_insert_by<T>(s: Seq<T>, x: T, key: spec_fn(T) -> u64)
    requires
        ascending(s, key),
    ensures
        ascending(insert_by(s, x, key), key),
        insert_by(s, x, key).len() == s.len() + 1,
        insert_by(s, x, key).to_multiset() == s.to_multiset().insert(x),
        forall|i: int|
            0 <= i < insert_by(s, x, key).len() ==> #[trigger] insert_by(s, x, key)[i] == x
                || s.contains(insert_by(s, x, key)[i]),
        forall|k: u64| #[trigger]
            with_key(insert_by(s, x, key), key, k) == with_key(s.push(x), key, k),
    decreases s.len(),
{
    broadcast use vstd::seq_lib::group_to_multiset_ensures;

    let r = insert_by(s, x, key);
    if s.len() == 0 || key(s.last()) <= key(x) {
        assert forall|i: int| 0 <= i < r.len() implies #[trigger] r[i] == x || s.contains(r[i]) by {
            if i < s.len() {
                assert(r[i] == s[i]);
            }
        }
    } else {
        let t = s.drop_last();
        lemma_insert_by(t, x, key);
        let q = insert_by(t, x, key);
        assert(t.push(s.last()) =~= s);
        assert forall|i: int| 0 <= i < r.len() implies #[trigger] r[i] == x || s.contains(r[i]) by {
            if i < q.len() {
                assert(r[i] == q[i]);
                if q[i] != x {
                    let j = t.index_of(q[i]);
                    assert(s[j] == q[i]);
                }
            } else {
                assert(r[i] == s[s.len() - 1]);
            }
        }
        assert forall|i: int, j: int| 0 <= i <= j < r.len() implies key(#[trigger] r[i]) <= key(
            #[trigger] r[j],
        ) by {
            if j < q.len() {
                assert(r[i] == q[i] && r[j] == q[j]);
            } else if i < q.len() {
                assert(r[i] == q[i]);
                if q[i] != x {
                    let m = t.index_of(q[i]);
                    assert(s[m] == q[i]);
                    assert(key(s[m]) <= key(s[s.len() - 1]));
                }
            }
        }
        assert forall|k: u64| #[trigger] with_key(r, key, k) == with_key(s.push(x), key, k) by {
            lemma_with_key_push(q, s.last(), key, k);
            lemma_with_key_push(t, x, key, k);
            lemma_with_key_push(t, s.last(), key, k);
            lemma_with_key_push(s, x, key, k);
            assert(with_key(q, key, k) == with_key(t.push(x), key, k));
        }
        assert(r.to_multiset() =~= s.to_multiset().insert(x)) by {
            assert(q.to_multiset() == t.to_multiset().insert(x));
            assert(t.push(s.last()).to_multiset() =~= t.to_multiset().insert(s.last()));
            assert(q.push(s.last()).to_multiset() =~= q.to_multiset().insert(s.last()));
            assert(t.to_multiset().insert(x).insert(s.last()) =~= t.to_multiset().insert(
                s.last(),
            ).insert(x));
        }
    }
}

/// Sorting orders the elements by key, keeps each of them as often as it stood
/// there, and keeps the order among those with equal keys.
pub proof fn lemma_sort_by<T>(s: Seq<T>, key: spec_fn(T) -> u64)
    ensures
        ascending(sort_by(s, key), key),
        sort_by(s, key).to_multiset() == s.to_multiset(),
        sort_by(s, key).len() == s.len(),
        forall|k: u64| #[trigger] with_key(sort_by(s, key), key, k) == with_key(s, key, k),
    decreases s.len(),
{
    broadcast use vstd::seq_lib::group_to_multiset_ensures;

    if s.len() > 0 {
        let t = s.drop_last();
        lemma_sort_by(t, key);
        let q = sort_by(t, key);
        lemma_insert_by(q, s.last(), key);
        assert(t.push(s.last()) =~= s);
        assert(t.push(s.last()).to_multiset() =~= t.to_multiset().insert(s.last()));
        assert forall|k: u64| #[trigger] with_key(sort_by(s, key), key, k) == with_key(
            s,
            key,
            k,
        ) by {
            lemma_with_key_push(q, s.last(), key, k);
            lemma_with_key_push(t, s.last(), key, k);
            assert(with_key(q, key, k) == with_key(t, key, k));
        }
    }
}

/// Two ordered sequences with the same elements under each key are equal.
pub proof fn lemma_ordered_unique<T>(a: Seq<T>, b: Seq<T>, key: spec_fn(T) -> u64)
    requires
        ascending(a, key),
        ascending(b, key),
        forall|k: u64| #[trigger] with_key(a, key, k) == with_key(b, key, k),
    ensures
        a == b,
    decreases a.len(),
{
    if a.len() == 0 {
        if b.len() > 0 {
            let k = key(b[0]);
            lemma_with_key_elements(b, key, k);
            lemma_with_key_elements(a, key, k);
            assert(with_key(a, key, k) == with_key(b, key, k));
            assert(false);
        }
        assert(a =~= b);
    } else if b.len() == 0 {
        let k = key(a[0]);
        lemma_with_key_elements(a, key, k);
        lemma_with_key_elements(b, key, k);
        assert(with_key(a, key, k) == with_key(b, key, k));
        assert(false);
    } else {
        let ka = key(a.last());
        let kb = key(b.last());
        lemma_with_key_elements(a, key, ka);
        lemma_with_key_elements(b, key, ka);
        lemma_with_key_elements(a, key, kb);
        lemma_with_key_elements(b, key, kb);
        assert(with_key(a, key, ka) == with_key(b, key, ka));
        assert(with_key(a, key, kb) == with_key(b, key, kb));
        assert(key(a[a.len() - 1]) == ka);
        assert(key(b[b.len() - 1]) == kb);
        let i = choose|i: int| 0 <= i < b.len() && key(#[trigger] b[i]) == ka;
        let j = choose|j: int| 0 <= j < a.len() && key(#[trigger] a[j]) == kb;
        assert(key(b[i]) <= key(b[b.len() - 1]));
        assert(key(a[j]) <= key(a[a.len() - 1]));
        assert(ka == kb);
        assert(a.last() == b.last());
        let a1 = a.drop_last();
        let b1 = b.drop_last();
        assert forall|k: u64| #[trigger] with_key(a1, key, k) == with_key(b1, key, k) by {
            assert(with_key(a, key, k) == with_key(b, key, k));
            if k == ka {
                assert(with_key(a1, key, k) =~= with_key(a, key, k).drop_last());
                assert(with_key(b1, key, k) =~= with_key(b, key, k).drop_last());
            }
        }
        lemma_ordered_unique(a1, b1, key);
        assert(a =~= a1.push(a.last()));
        assert(b =~= b1.push(b.last()));
    }
}

/// Sorting an ordered sequence changes nothing.
pub proof fn lemma_sort_ordered<T>(s: Seq<T>, key: spec_fn(T) -> u64)
    requires
        ascending(s, key),
    ensures
        sort_by(s, key) == s,
{
    lemma_sort_by(s, key);
    lemma_ordered_unique(sort_by(s, key), s, key);
}

/// The sequence number of a value, as a sort key.
pub open spec fn by_sequence<T: Sequenced>() -> spec_fn(T) -> u64 {
    |t: T| t.key()
}

/// Merges two ordered runs; of equal keys those of `a` come first.
fn merge<T: Sequenced>(a: &Vec<T>, b: &Vec<T>) -> (r: Vec<T>)
    requires
        ascending(a@, by_sequence::<T>()),
        ascending(b@, by_sequence::<T>()),
    ensures
        ascending(r@, by_sequence::<T>()),
        forall|k: u64| #[trigger]
            with_key(r@, by_sequence::<T>(), k) == with_key(a@ + b@, by_sequence::<T>(), k),
{
    let ghost key = by_sequence::<T>();
    let mut r: Vec<T> = Vec::new();
    let mut i: usize = 0;
    let mut j: usize = 0;
    proof {
        assert forall|k: u64| #[trigger]
            with_key(r@, key, k) == with_key(a@.take(0), key, k) + with_key(b@.take(0), key, k) by {
            assert(with_key(r@, key, k) =~= with_key(a@.take(0), key, k) + with_key(
                b@.take(0),
                key,
                k,
            ));
        }
    }
    while i < a.len() || j < b.len()
        invariant
            i <= a.len(),
            j <= b.len(),
            key == by_sequence::<T>(),
            ascending(a@, key),
            ascending(b@, key),
            ascending(r@, key),
            forall|m: int, n: int|
                0 <= m < r.len() && i <= n < a.len() ==> key(#[trigger] r@[m]) <= key(
                    #[trigger] a@[n],
                ),
            forall|m: int, n: int|
                0 <= m < r.len() && j <= n < b.len() ==> key(#[trigger] r@[m]) <= key(
                    #[trigger] b@[n],
                ),
            forall|m: int, n: int|
                0 <= m < j && i <= n < a.len() ==> key(#[trigger] b@[m]) < key(#[trigger] a@[n]),
            forall|k: u64| #[trigger]
                with_key(r@, key, k) == with_key(a@.take(i as int), key, k) + with_key(
                    b@.take(j as int),
                    key,
                    k,
                ),
        decreases (a.len() - i) + (b.len() - j),
    {
        let from_a: bool = if i >= a.len() {
            false
        } else if j >= b.len() {
            true
        } else {
            a[i].sequence_number() <= b[j].sequence_number()
        };
        let ghost old_r = r@;
        if from_a {
            let x: T = a[i];
            r.push(x);
            proof {
                assert(a@.take(i + 1) =~= a@.take(i as int).push(x));
                assert forall|k: u64| #[trigger]
                    with_key(r@, key, k) == with_key(a@.take(i + 1), key, k) + with_key(
                        b@.take(j as int),
                        key,
                        k,
                    ) by {
                    assert(with_key(old_r, key, k) == with_key(a@.take(i as int), key, k)
                        + with_key(b@.take(j as int), key, k));
                    lemma_with_key_push(old_r, x, key, k);
                    lemma_with_key_push(a@.take(i as int), x, key, k);
                    if key(x) == k {
                        lemma_with_key_elements(b@.take(j as int), key, k);
                        assert forall|m: int| 0 <= m < b@.take(j as int).len() implies key(
                            #[trigger] b@.take(j as int)[m],
                        ) != k by {
                            assert(key(b@[m]) < key(a@[i as int]));
                        }
                    }
                    assert(with_key(r@, key, k) =~= with_key(a@.take(i + 1), key, k) + with_key(
                        b@.take(j as int),
                        key,
                        k,
                    ));
                }
            }
            i += 1;
        } else {
            let x: T = b[j];
            r.push(x);
            proof {
                assert(b@.take(j + 1) =~= b@.take(j as int).push(x));
                assert forall|k: u64| #[trigger]
                    with_key(r@, key, k) == with_key(a@.take(i as int), key, k) + with_key(
                        b@.take(j + 1),
                        key,
                        k,
                    ) by {
                    assert(with_key(old_r, key, k) == with_key(a@.take(i as int), key, k)
                        + with_key(b@.take(j as int), key, k));
                    lemma_with_key_push(old_r, x, key, k);
                    lemma_with_key_push(b@.take(j as int), x, key, k);
                    assert(with_key(r@, key, k) =~= with_key(a@.take(i as int), key, k) + with_key(
                        b@.take(j + 1),
                        key,
                        k,
                    ));
                }
                assert forall|m: int, n: int| 0 <= m < j + 1 && i <= n < a.len() implies key(
                    #[trigger] b@[m],
                ) < key(#[trigger] a@[n]) by {
                    assert(key(a@[i as int]) <= key(a@[n]));
                }
            }
            j += 1;
        }
    }
    proof {
        assert(a@.take(i as int) =~= a@);
        assert(b@.take(j as int) =~= b@);
        assert forall|k: u64| #[trigger] with_key(r@, key, k) == with_key(a@ + b@, key, k) by {
            lemma_with_key_add(a@, b@, key, k);
        }
    }
    r
}

/// The values in ascending order of their sequence numbers; those with equal
/// numbers keep their order.
pub fn sort_by_sequence<T: Sequenced>(v: Vec<T>) -> (r: Vec<T>)
    ensures
        r@ == sort_by(v@, by_sequence::<T>()),
    decreases v.len(),
{
    let ghost key = by_sequence::<T>();
    if v.len() <= 1 {
        proof {
            assert(ascending(v@, key));
            lemma_sort_ordered(v@, key);
        }
        return v;
    }
    let mid: usize = v.len() / 2;
    let ghost whole = v@;
    let mut front = v;
    let back = front.split_off(mid);
    let ghost fr = front@;
    let ghost ba = back@;
    assert(fr + ba =~= whole);
    let a = sort_by_sequence(front);
    let b = sort_by_sequence(back);
    proof {
        lemma_sort_by(fr, key);
        lemma_sort_by(ba, key);
    }
    let r = merge(&a, &b);
    proof {
        lemma_sort_by(whole, key);
        assert forall|k: u64| #[trigger]
            with_key(r@, key, k) == with_key(sort_by(whole, key), key, k) by {
            lemma_with_key_add(a@, b@, key, k);
            lemma_with_key_add(fr, ba, key, k);
            assert(with_key(r@, key, k) == with_key(a@ + b@, key, k));
            assert(with_key(a@, key, k) == with_key(fr, key, k));
            assert(with_key(b@, key, k) == with_key(ba, key, k));
        }
        lemma_ordered_unique(r@, sort_by(whole, key), key);
    }
    r
}

} // verus!
