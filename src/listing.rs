use vstd::prelude::*;
use vstd::utf8::encode_utf8;
use crate::models::Transaction;

verus! {

broadcast use vstd::seq_lib::to_multiset_insert;

/// `a` and `b` agree on their first `i` bytes.
pub open spec fn common_prefix(a: Seq<u8>, b: Seq<u8>, i: int) -> bool {
    &&& 0 <= i <= a.len()
    &&& i <= b.len()
    &&& forall|k: int| 0 <= k < i ==> a[k] == b[k]
}

/// At position `i`, after a common prefix, `a` is smaller than `b` or ends first.
pub open spec fn lt_at(a: Seq<u8>, b: Seq<u8>, i: int) -> bool {
    &&& common_prefix(a, b, i)
    &&& ((i < a.len() && i < b.len() && a[i] < b[i]) || (i == a.len() && i < b.len()))
}

/// `a` comes strictly before `b` in byte-wise lexicographic order.
pub open spec fn bytes_lt(a: Seq<u8>, b: Seq<u8>) -> bool {
    exists|i: int| lt_at(a, b, i)
}

/// The bytes by which transactions are ordered in time.
pub open spec fn datetime_key(t: Transaction) -> Seq<u8> {
    encode_utf8(t.datetime@)
}

/// `x` is listed before `y`: it is later, or equally timed and recorded first.
pub open spec fn listed_before(x: Transaction, y: Transaction) -> bool {
    bytes_lt(datetime_key(y), datetime_key(x)) || (datetime_key(x) == datetime_key(y) && x.id < y.id)
}

/// Newest first: later `datetime` first, ties in identifier order.
pub open spec fn newest_first(s: Seq<Transaction>) -> bool {
    forall|i: int, j: int| 0 <= i < j < s.len() ==> listed_before(#[trigger] s[i], #[trigger] s[j])
}

pub proof fn lemma_bytes_lt_irreflexive(a: Seq<u8>)
    ensures
        !bytes_lt(a, a),
{
}

pub proof fn lemma_bytes_lt_transitive(a: Seq<u8>, b: Seq<u8>, c: Seq<u8>)
    requires
        bytes_lt(a, b),
        bytes_lt(b, c),
    ensures
        bytes_lt(a, c),
{
    let i = choose|i: int| lt_at(a, b, i);
    let j = choose|j: int| lt_at(b, c, j);
    if i <= j {
        assert(lt_at(a, c, i));
    } else {
        assert(lt_at(a, c, j));
    }
}

/// Byte-wise lexicographic comparison: `a` strictly before `b`.
pub fn bytes_less(a: &[u8], b: &[u8]) -> (r: bool)
    ensures
        r == bytes_lt(a@, b@),
{
    let mut i: usize = 0;
    while i < a.len() && i < b.len() && a[i] == b[i]
        invariant
            common_prefix(a@, b@, i as int),
        decreases a.len() - i,
    {
        i += 1;
    }
    let r = if i < a.len() && i < b.len() {
        a[i] < b[i]
    } else {
        i == a.len() && i < b.len()
    };
    proof {
        if r {
            assert(lt_at(a@, b@, i as int));
        } else if bytes_lt(a@, b@) {
            let j = choose|j: int| lt_at(a@, b@, j);
            if j < i {
                assert(a@[j] == b@[j]);
            } else if j > i {
                assert(a@[i as int] == b@[i as int]);
            }
        }
    }
    r
}

/// Orders transactions by time: `x` is listed before `y`.
pub fn is_listed_before(x: &Transaction, y: &Transaction) -> (r: bool)
    ensures
        r == listed_before(*x, *y),
{
    let kx = x.datetime.as_str().as_bytes();
    let ky = y.datetime.as_str().as_bytes();
    if bytes_less(ky, kx) {
        return true;
    }
    if bytes_less(kx, ky) {
        return false;
    }
    proof {
        if kx@ != ky@ {
            lemma_bytes_total(kx@, ky@);
        }
    }
    x.id < y.id
}

/// Two different byte strings are ordered one way or the other.
pub proof fn lemma_bytes_total(a: Seq<u8>, b: Seq<u8>)
    requires
        a != b,
    ensures
        bytes_lt(a, b) || bytes_lt(b, a),
{
    let n = if a.len() <= b.len() { a.len() as int } else { b.len() as int };
    if forall|k: int| 0 <= k < n ==> a[k] == b[k] {
        if a.len() < b.len() {
            assert(lt_at(a, b, n));
        } else if b.len() < a.len() {
            assert(lt_at(b, a, n));
        } else {
            assert(a =~= b);
        }
    } else {
        let d = lemma_first_difference(a, b, n);
        if a[d] < b[d] {
            assert(lt_at(a, b, d));
        } else {
            assert(lt_at(b, a, d));
        }
    }
}

/// The first position below `n` where `a` and `b` differ, given one.
proof fn lemma_first_difference(a: Seq<u8>, b: Seq<u8>, n: int) -> (d: int)
    requires
        0 <= n <= a.len(),
        n <= b.len(),
        exists|k: int| 0 <= k < n && a[k] != b[k],
    ensures
        0 <= d < n,
        a[d] != b[d],
        forall|k: int| 0 <= k < d ==> a[k] == b[k],
    decreases n,
{
    if forall|k: int| 0 <= k < n - 1 ==> a[k] == b[k] {
        n - 1
    } else {
        lemma_first_difference(a, b, n - 1)
    }
}

/// Inserts `t` into `r`, kept newest first; `t` was recorded after every row of `r`.
pub fn insert_newest_first(r: &mut Vec<Transaction>, t: Transaction)
    requires
        newest_first(old(r)@),
        forall|k: int| 0 <= k < old(r)@.len() ==> #[trigger] old(r)@[k].id < t.id,
    ensures
        newest_first(final(r)@),
        final(r)@.to_multiset() == old(r)@.to_multiset().insert(t),
        forall|k: int| 0 <= k < final(r)@.len() ==> #[trigger] final(r)@[k].id <= t.id,
{
    let mut p: usize = 0;
    while p < r.len() && !is_listed_before(&t, &r[p])
        invariant
            p <= r.len(),
            forall|k: int| 0 <= k < p ==> !listed_before(t, #[trigger] r@[k]),
        decreases r.len() - p,
    {
        p += 1;
    }
    let ghost s = r@;
    proof {
        // every row before `p` is listed before `t`
        assert forall|k: int| 0 <= k < p implies listed_before(#[trigger] s[k], t) by {
            let a = datetime_key(s[k]);
            let b = datetime_key(t);
            assert(!listed_before(t, s[k]));
            assert(s[k].id < t.id);
            if a != b {
                lemma_bytes_total(a, b);
            }
        }
        // `t` is listed before every row from `p` on
        assert forall|k: int| p <= k < s.len() implies listed_before(t, #[trigger] s[k]) by {
            assert(listed_before(t, s[p as int]));
            if k > p {
                assert(listed_before(s[p as int], s[k]));
                let kt = datetime_key(t);
                let kp = datetime_key(s[p as int]);
                let kk = datetime_key(s[k]);
                if bytes_lt(kp, kt) && bytes_lt(kk, kp) {
                    lemma_bytes_lt_transitive(kk, kp, kt);
                }
            }
        }
    }
    r.insert(p, t);
    proof {
        let s2 = r@;
        assert forall|i: int, j: int| 0 <= i < j < s2.len() implies listed_before(#[trigger] s2[i], #[trigger] s2[j]) by {
            let oi = if i < p { i } else { i - 1 };
            let oj = if j < p { j } else { j - 1 };
            if i != p && j != p {
                assert(s2[i] == s[oi] && s2[j] == s[oj]);
                assert(listed_before(s[oi], s[oj]));
            }
        }
        assert forall|k: int| 0 <= k < s2.len() implies #[trigger] s2[k].id <= t.id by {
            if k < p {
                assert(s2[k] == s[k]);
            } else if k > p {
                assert(s2[k] == s[k - 1]);
            }
        }
    }
}

} // verus!
