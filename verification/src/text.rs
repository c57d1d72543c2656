//! Text helpers shared by the JSON and signature code: the byte order in
//! which Rust compares strings, a verified sort of strings by that order,
//! and the digits used when numbers and bytes are written out as text.
use vstd::prelude::*;
use vstd::relations::*;
use vstd::seq_lib::*;
use vstd::utf8::*;
use vstd::string::StringSliceAdditionalSpecFns;

verus! {

broadcast use vstd::string::group_string_axioms;

/// Lexicographic order on byte strings (the order of `[u8]`'s `Ord`):
/// `a <= b`.
pub open spec fn bytes_le(a: Seq<u8>, b: Seq<u8>) -> bool
    decreases a.len(),
{
    if a.len() == 0 {
        true
    } else if b.len() == 0 {
        false
    } else if a[0] != b[0] {
        a[0] < b[0]
    } else {
        bytes_le(a.drop_first(), b.drop_first())
    }
}

/// The order in which Rust's `String` compares keys: byte-wise on their
/// UTF-8 encoding.
pub open spec fn key_le(a: Seq<char>, b: Seq<char>) -> bool {
    bytes_le(encode_utf8(a), encode_utf8(b))
}

/// `key_le` as a relation.
pub open spec fn key_order() -> spec_fn(Seq<char>, Seq<char>) -> bool {
    |a: Seq<char>, b: Seq<char>| key_le(a, b)
}

/// The characters of each string of a sequence.
pub open spec fn views(v: Seq<String>) -> Seq<Seq<char>> {
    v.map_values(|s: String| s@)
}

/// The keys in ascending order.
pub open spec fn sorted_keys(keys: Seq<Seq<char>>) -> Seq<Seq<char>> {
    keys.sort_by(key_order())
}

proof fn lemma_bytes_le_reflexive(a: Seq<u8>)
    ensures
        bytes_le(a, a),
    decreases a.len(),
{
    if a.len() > 0 {
        lemma_bytes_le_reflexive(a.drop_first());
    }
}

proof fn lemma_bytes_le_antisymmetric(a: Seq<u8>, b: Seq<u8>)
    requires
        bytes_le(a, b),
        bytes_le(b, a),
    ensures
        a == b,
    decreases a.len(),
{
    if a.len() > 0 && b.len() > 0 {
        lemma_bytes_le_antisymmetric(a.drop_first(), b.drop_first());
        assert(a =~= seq![a[0]] + a.drop_first());
        assert(b =~= seq![b[0]] + b.drop_first());
    }
}

proof fn lemma_bytes_le_transitive(a: Seq<u8>, b: Seq<u8>, c: Seq<u8>)
    requires
        bytes_le(a, b),
        bytes_le(b, c),
    ensures
        bytes_le(a, c),
    decreases a.len(),
{
    if a.len() > 0 && b.len() > 0 && c.len() > 0 {
        if a[0] == b[0] && b[0] == c[0] {
            lemma_bytes_le_transitive(a.drop_first(), b.drop_first(), c.drop_first());
        }
    }
}

proof fn lemma_bytes_le_total(a: Seq<u8>, b: Seq<u8>)
    ensures
        bytes_le(a, b) || bytes_le(b, a),
    decreases a.len(),
{
    if a.len() > 0 && b.len() > 0 && a[0] == b[0] {
        lemma_bytes_le_total(a.drop_first(), b.drop_first());
    }
}

/// The key order is a total order on strings.
pub proof fn lemma_key_order_total()
    ensures
        total_ordering(key_order()),
{
    broadcast use encode_utf8_decode_utf8;

    let r = key_order();
    assert forall|x: Seq<char>| #[trigger] r(x, x) by {
        lemma_bytes_le_reflexive(encode_utf8(x));
    }
    assert forall|x: Seq<char>, y: Seq<char>| #[trigger] r(x, y) && #[trigger] r(y, x) implies x
        == y by {
        lemma_bytes_le_antisymmetric(encode_utf8(x), encode_utf8(y));
        assert(decode_utf8(encode_utf8(x)) == x);
        assert(decode_utf8(encode_utf8(y)) == y);
    }
    assert forall|x: Seq<char>, y: Seq<char>, z: Seq<char>|
        #[trigger] r(x, y) && #[trigger] r(y, z) implies r(x, z) by {
        lemma_bytes_le_transitive(encode_utf8(x), encode_utf8(y), encode_utf8(z));
    }
    assert forall|x: Seq<char>, y: Seq<char>| #[trigger] r(x, y) || #[trigger] r(y, x) by {
        lemma_bytes_le_total(encode_utf8(x), encode_utf8(y));
    }
}

/// A sequence that is ordered by key and holds the same keys as `keys` is
/// `sorted_keys(keys)`.
pub proof fn lemma_sorted_keys_unique(keys: Seq<Seq<char>>, s: Seq<Seq<char>>)
    requires
        sorted_by(s, key_order()),
        s.to_multiset() == keys.to_multiset(),
    ensures
        s == sorted_keys(keys),
{
    lemma_key_order_total();
    keys.lemma_sort_by_ensures(key_order());
    lemma_sorted_unique(s, sorted_keys(keys), key_order());
}

/// Compares two byte strings in lexicographic order.
pub fn bytes_le_exec(a: &[u8], b: &[u8]) -> (r: bool)
    ensures
        r == bytes_le(a@, b@),
{
    let mut i: usize = 0;
    assert(a@.skip(0) =~= a@);
    assert(b@.skip(0) =~= b@);
    while i < a.len() && i < b.len()
        invariant
            i <= a@.len(),
            i <= b@.len(),
            bytes_le(a@, b@) == bytes_le(a@.skip(i as int), b@.skip(i as int)),
        decreases a@.len() - i,
    {
        assert(a@.skip(i as int).drop_first() =~= a@.skip(i + 1));
        assert(b@.skip(i as int).drop_first() =~= b@.skip(i + 1));
        if a[i] != b[i] {
            return a[i] < b[i];
        }
        i = i + 1;
    }
    i == a.len()
}

/// Compares two strings in the order of Rust's `String` (`a <= b`).
pub fn key_le_exec(a: &str, b: &str) -> (r: bool)
    ensures
        r == key_le(a@, b@),
{
    bytes_le_exec(a.as_bytes(), b.as_bytes())
}

/// Sorts strings in the order of Rust's `String` by insertion.
pub fn sort_strings(keys: Vec<String>) -> (sorted: Vec<String>)
    ensures
        views(sorted@) == sorted_keys(views(keys@)),
{
    let ghost all = views(keys@);
    let mut out: Vec<String> = Vec::new();
    let mut i: usize = 0;
    proof {
        lemma_key_order_total();
        assert(views(out@) =~= Seq::<Seq<char>>::empty());
        assert(all.take(0) =~= Seq::<Seq<char>>::empty());
    }
    while i < keys.len()
        invariant
            i <= keys@.len(),
            all == views(keys@),
            total_ordering(key_order()),
            sorted_by(views(out@), key_order()),
            views(out@).to_multiset() == all.take(i as int).to_multiset(),
        decreases keys@.len() - i,
    {
        let k = keys[i].clone();
        let mut p: usize = 0;
        while p < out.len() && key_le_exec(out[p].as_str(), k.as_str())
            invariant
                p <= out@.len(),
                forall|j: int| 0 <= j < p ==> key_le(#[trigger] out@[j]@, k@),
            decreases out@.len() - p,
        {
            p = p + 1;
        }
        let ghost before = views(out@);
        out.insert(p, k);
        proof {
            let after = views(out@);
            assert(after =~= before.insert(p as int, k@));
            to_multiset_insert(before, p as int, k@);
            assert(all.take(i + 1) =~= all.take(i as int).push(k@));
            to_multiset_build(all.take(i as int), k@);
            assert forall|a: int, b: int| 0 <= a < b < after.len() implies #[trigger] key_order()(
                after[a],
                after[b],
            ) by {
                let r = key_order();
                if b < p {
                    assert(r(before[a], before[b]));
                } else if b == p {
                    assert(key_le(out@[a]@, k@));
                } else if a < p {
                    assert(key_le(before[a], k@));
                    if b - 1 > p as int {
                        assert(r(before[p as int], before[b - 1]));
                        assert(!key_le(before[p as int], k@));
                        assert(r(before[p as int], k@) || r(k@, before[p as int]));
                    } else {
                        assert(!key_le(before[p as int], k@));
                        assert(r(before[p as int], k@) || r(k@, before[p as int]));
                    }
                } else if a == p {
                    assert(!key_le(before[p as int], k@));
                    assert(r(before[p as int], k@) || r(k@, before[p as int]));
                    if b - 1 > p as int {
                        assert(r(before[p as int], before[b - 1]));
                    }
                } else {
                    assert(r(before[a - 1], before[b - 1]));
                }
            }
        }
        i = i + 1;
    }
    proof {
        assert(all.take(keys@.len() as int) =~= all);
        lemma_sorted_keys_unique(all, views(out@));
    }
    out
}

} // verus!

verus! {

/// A lower-case hexadecimal digit.
pub open spec fn is_lower_hex_digit(c: char) -> bool {
    ('0' <= c && c <= '9') || ('a' <= c && c <= 'f')
}

/// Compares two byte strings for equality.
pub fn bytes_eq(a: &[u8], b: &[u8]) -> (r: bool)
    ensures
        r == (a@ == b@),
{
    if a.len() != b.len() {
        return false;
    }
    let mut i: usize = 0;
    while i < a.len()
        invariant
            i <= a@.len(),
            a@.len() == b@.len(),
            forall|j: int| 0 <= j < i ==> a@[j] == b@[j],
        decreases a@.len() - i,
    {
        if a[i] != b[i] {
            return false;
        }
        i = i + 1;
    }
    assert(a@ =~= b@);
    true
}

/// Compares two strings for equality.
pub fn str_eq(a: &str, b: &str) -> (r: bool)
    ensures
        r == (a@ == b@),
{
    proof {
        broadcast use encode_utf8_decode_utf8;
        assert(decode_utf8(a.spec_bytes()) == a@);
        assert(decode_utf8(b.spec_bytes()) == b@);
    }
    bytes_eq(a.as_bytes(), b.as_bytes())
}

/// The one-character text of digit `d` (hexadecimal above nine).
pub fn digit_str(d: usize) -> (s: &'static str)
    requires
        d < 16,
    ensures
        s@ == seq![crate::json::digit_char(d as nat)],
{
    let digits = "0123456789abcdef";
    proof {
        reveal_strlit("0123456789abcdef");
    }
    digits.substring_ascii(d, d + 1)
}

} // verus!

verus! {

proof fn lemma_bytes_lt_at(x: Seq<u8>, y: Seq<u8>, i: int)
    requires
        0 <= i < x.len(),
        i < y.len(),
        forall|j: int| 0 <= j < i ==> x[j] == y[j],
        x[i] < y[i],
    ensures
        bytes_le(x, y),
    decreases i,
{
    if i > 0 {
        assert(x[0] == y[0]);
        assert forall|j: int| 0 <= j < i - 1 implies x.drop_first()[j] == y.drop_first()[j] by {
            assert(x[j + 1] == y[j + 1]);
        }
        lemma_bytes_lt_at(x.drop_first(), y.drop_first(), i - 1);
    }
}

/// Two ASCII keys that agree before position `i` and differ there in
/// increasing order are in key order.
pub proof fn lemma_key_lt_at(a: Seq<char>, b: Seq<char>, i: int)
    requires
        is_ascii_chars(a),
        is_ascii_chars(b),
        0 <= i < a.len(),
        i < b.len(),
        forall|j: int| 0 <= j < i ==> a[j] == b[j],
        (a[i] as int) < (b[i] as int),
    ensures
        key_le(a, b),
        a != b,
{
    broadcast use is_ascii_chars_encode_utf8, is_ascii_chars_nat_bound;

    let x = encode_utf8(a);
    let y = encode_utf8(b);
    assert forall|j: int| 0 <= j < i implies x[j] == y[j] by {
        assert(a[j] as u8 == x[j]);
        assert(b[j] as u8 == y[j]);
    }
    assert(a[i] as u8 == x[i]);
    assert(b[i] as u8 == y[i]);
    lemma_bytes_lt_at(x, y, i);
}

/// Keys of which each is in key order with, and different from, the next
/// are sorted and distinct.
pub proof fn lemma_strictly_sorted(t: Seq<Seq<char>>)
    requires
        forall|k: int| 0 <= k < t.len() - 1 ==> key_le(#[trigger] t[k], t[k + 1]) && t[k] != t[k + 1],
    ensures
        sorted_by(t, key_order()),
        t.no_duplicates(),
    decreases t.len(),
{
    lemma_key_order_total();
    let r = key_order();
    if t.len() > 1 {
        let p = t.drop_last();
        assert forall|k: int| 0 <= k < p.len() - 1 implies key_le(#[trigger] p[k], p[k + 1]) && p[k]
            != p[k + 1] by {
            assert(key_le(t[k], t[k + 1]) && t[k] != t[k + 1]);
        }
        lemma_strictly_sorted(p);
        let n = t.len() - 1;
        assert(key_le(t[n - 1], t[n]) && t[n - 1] != t[n]);
        assert(r(t[n - 1], t[n]));
        assert forall|i: int, j: int| 0 <= i < j < t.len() implies #[trigger] r(t[i], t[j]) by {
            if j < n {
                assert(r(p[i], p[j]));
            } else if i < n - 1 {
                assert(r(p[i], p[n - 1]));
            }
        }
        assert forall|i: int, j: int| 0 <= i < t.len() && 0 <= j < t.len() && i != j implies t[i]
            != t[j] by {
            if i < n && j < n {
                assert(p[i] != p[j]);
            } else {
                let a = if i < j { i } else { j };
                if a < n - 1 {
                    assert(r(t[a], t[n - 1]));
                    if t[a] == t[n] {
                        assert(r(t[n - 1], t[a]));
                    }
                }
            }
        }
    }
}

} // verus!
