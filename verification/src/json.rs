//! JSON values as the protocol carries them, and their canonical text: the
//! form in which values take part in message signatures (object keys in
//! byte order, no whitespace, strings between plain double quotes).
use vstd::prelude::*;
use vstd::seq_lib::group_to_multiset_ensures;
use crate::text::{
    digit_str, key_order, lemma_key_order_total, lemma_sorted_keys_unique, sort_strings, sorted_keys,
    str_eq, views,
};

verus! {

broadcast use vstd::string::group_string_axioms;

/// A JSON number.
#[derive(Debug)]
pub enum JsonNumber {
    /// A non-negative integer.
    PosInt(u64),
    /// A negative integer.
    NegInt(i64),
    /// A floating-point number, held by the text it is written as.
    Float(String),
}

/// A JSON value.
#[derive(Debug)]
pub enum JsonValue {
    Null,
    Bool(bool),
    Number(JsonNumber),
    String(String),
    Array(Vec<JsonValue>),
    Object(JsonObject),
}

/// A JSON object: members with distinct keys.
#[derive(Debug)]
pub struct JsonObject {
    entries: Vec<(String, JsonValue)>,
}

/// The digit for `d` (hexadecimal above nine, in lower case).
pub open spec fn digit_char(d: nat) -> char {
    if d < 10 {
        (48 + d) as char
    } else {
        (87 + d) as char
    }
}

/// The decimal digits of `n`.
pub open spec fn decimal(n: nat) -> Seq<char>
    decreases n,
{
    if n < 10 {
        seq![digit_char(n)]
    } else {
        decimal(n / 10).push(digit_char(n % 10))
    }
}

/// A decimal digit.
pub open spec fn is_decimal_digit(c: char) -> bool {
    '0' <= c && c <= '9'
}

/// The number that a string of decimal digits stands for.
pub open spec fn digits_value(s: Seq<char>) -> int
    decreases s.len(),
{
    if s.len() == 0 {
        0
    } else {
        digits_value(s.drop_last()) * 10 + (s.last() as int - 48)
    }
}

proof fn lemma_decimal(n: nat)
    ensures
        decimal(n).len() > 0,
        forall|i: int| 0 <= i < decimal(n).len() ==> is_decimal_digit(#[trigger] decimal(n)[i]),
        digits_value(decimal(n)) == n,
        n > 0 ==> decimal(n)[0] != '0',
    decreases n,
{
    assert(digit_char(n % 10) as int == 48 + n % 10);
    if n < 10 {
        assert(decimal(n).drop_last() =~= Seq::<char>::empty());
        assert(digits_value(Seq::<char>::empty()) == 0);
    }
    if n >= 10 {
        let q = n / 10;
        let r = n % 10;
        lemma_decimal(q);
        let d = decimal(n);
        assert(d == decimal(q).push(digit_char(r)));
        assert(d.drop_last() =~= decimal(q));
        assert(n == q * 10 + r);
        assert(d.last() == digit_char(r));
        assert forall|i: int| 0 <= i < d.len() implies is_decimal_digit(#[trigger] d[i]) by {
            if i < d.len() - 1 {
                assert(d[i] == decimal(q)[i]);
            }
        }
        assert(d[0] == decimal(q)[0]);
    }
}

/// A non-negative integer is written in ordinary decimal notation: digits
/// only, which read back as the number, with no leading zero.
pub proof fn law_positive_integer_text(n: u64)
    ensures
        number_text(JsonNumber::PosInt(n)).len() > 0,
        forall|i: int|
            0 <= i < number_text(JsonNumber::PosInt(n)).len() ==> is_decimal_digit(
                #[trigger] number_text(JsonNumber::PosInt(n))[i],
            ),
        digits_value(number_text(JsonNumber::PosInt(n))) == n,
        n > 0 ==> number_text(JsonNumber::PosInt(n))[0] != '0',
{
    lemma_decimal(n as nat);
}

/// A negative integer is written as `-` and the decimal digits of its
/// magnitude, with no leading zero.
pub proof fn law_negative_integer_text(i: i64)
    requires
        i < 0,
    ensures
        number_text(JsonNumber::NegInt(i)).len() > 1,
        number_text(JsonNumber::NegInt(i))[0] == '-',
        forall|k: int|
            1 <= k < number_text(JsonNumber::NegInt(i)).len() ==> is_decimal_digit(
                #[trigger] number_text(JsonNumber::NegInt(i))[k],
            ),
        digits_value(number_text(JsonNumber::NegInt(i)).drop_first()) == -i,
        number_text(JsonNumber::NegInt(i))[1] != '0',
{
    let m = (-i) as nat;
    lemma_decimal(m);
    let t = number_text(JsonNumber::NegInt(i));
    assert(t.drop_first() =~= decimal(m));
    assert forall|k: int| 1 <= k < t.len() implies is_decimal_digit(#[trigger] t[k]) by {
        assert(t[k] == decimal(m)[k - 1]);
    }
}

/// How a number is written.
pub open spec fn number_text(n: JsonNumber) -> Seq<char> {
    match n {
        JsonNumber::PosInt(u) => decimal(u as nat),
        JsonNumber::NegInt(i) => if i < 0 {
            seq!['-'] + decimal((-i) as nat)
        } else {
            decimal(i as nat)
        },
        JsonNumber::Float(s) => s@,
    }
}

/// `s` between double quotes.
pub open spec fn quoted(s: Seq<char>) -> Seq<char> {
    seq!['"'] + s + seq!['"']
}

/// `i` is the first position of `entries` whose key is `k`.
pub open spec fn first_key_at(entries: Seq<(String, JsonValue)>, k: Seq<char>, i: int) -> bool {
    &&& 0 <= i < entries.len()
    &&& entries[i].0@ == k
    &&& forall|j: int| 0 <= j < i ==> (#[trigger] entries[j]).0@ != k
}

/// The position of the first member whose key is `k`, or -1.
pub open spec fn key_index(entries: Seq<(String, JsonValue)>, k: Seq<char>) -> int {
    if exists|i: int| first_key_at(entries, k, i) {
        choose|i: int| first_key_at(entries, k, i)
    } else {
        -1
    }
}

/// The value stored under `k`.
pub open spec fn lookup(entries: Seq<(String, JsonValue)>, k: Seq<char>) -> Option<JsonValue> {
    let i = key_index(entries, k);
    if 0 <= i < entries.len() {
        Some(entries[i].1)
    } else {
        None
    }
}

/// The keys of the members, in the order they are stored.
pub open spec fn entry_keys(entries: Seq<(String, JsonValue)>) -> Seq<Seq<char>> {
    entries.map_values(|e: (String, JsonValue)| e.0@)
}

/// The canonical text of a value: `null`, `true` or `false`; a number's
/// text; a string between double quotes as it stands; an array's items in
/// order, separated by commas, between brackets; an object's members in the
/// byte order of their keys (see `canonical_object`).
pub open spec fn canonical(v: JsonValue) -> Seq<char>
    decreases v, 0nat,
{
    match v {
        JsonValue::Null => seq!['n', 'u', 'l', 'l'],
        JsonValue::Bool(b) => if b {
            seq!['t', 'r', 'u', 'e']
        } else {
            seq!['f', 'a', 'l', 's', 'e']
        },
        JsonValue::Number(n) => number_text(n),
        JsonValue::String(s) => quoted(s@),
        JsonValue::Array(items) => seq!['['] + canonical_items(items@, items@.len()) + seq![']'],
        JsonValue::Object(o) => canonical_object(o),
    }
}

/// The canonical text of an object: `"key":value` for each key in byte
/// order, separated by commas, between braces (see `lemma_canonical_object`).
pub closed spec fn canonical_object(o: JsonObject) -> Seq<char>
    decreases o, 0nat,
{
    seq!['{'] + canonical_members(o.entries@, sorted_keys(entry_keys(o.entries@))) + seq!['}']
}

/// What the canonical text of an object is, in terms of its members.
pub proof fn lemma_canonical_object(o: JsonObject)
    ensures
        canonical_object(o) == seq!['{'] + canonical_members(
            o.members(),
            sorted_keys(entry_keys(o.members())),
        ) + seq!['}'],
{
}

/// The canonical texts of the first `n` items, separated by commas.
pub open spec fn canonical_items(items: Seq<JsonValue>, n: nat) -> Seq<char>
    decreases items, n,
{
    if n == 0 || n > items.len() {
        seq![]
    } else if n == 1 {
        canonical(items[0])
    } else {
        canonical_items(items, (n - 1) as nat) + seq![','] + canonical(items[n - 1])
    }
}

/// The member `k` of an object in canonical text.
pub open spec fn canonical_member(entries: Seq<(String, JsonValue)>, k: Seq<char>) -> Seq<char>
    decreases entries, 0nat,
{
    let i = key_index(entries, k);
    quoted(k) + seq![':'] + if 0 <= i < entries.len() {
        canonical(entries[i].1)
    } else {
        seq![]
    }
}

/// The members named by `keys`, in that order, separated by commas.
pub open spec fn canonical_members(entries: Seq<(String, JsonValue)>, keys: Seq<Seq<char>>) -> Seq<
    char,
>
    decreases entries, keys.len() + 1,
{
    if keys.len() == 0 {
        seq![]
    } else if keys.len() == 1 {
        canonical_member(entries, keys[0])
    } else {
        canonical_members(entries, keys.drop_last()) + seq![','] + canonical_member(
            entries,
            keys.last(),
        )
    }
}


/// No two members share a key.
pub open spec fn distinct_keys(entries: Seq<(String, JsonValue)>) -> bool {
    forall|i: int, j: int|
        0 <= i < j < entries.len() ==> (#[trigger] entries[i]).0@ != (#[trigger] entries[j]).0@
}

/// The first position of a key is unique.
pub proof fn lemma_key_index_at(entries: Seq<(String, JsonValue)>, k: Seq<char>, i: int)
    requires
        first_key_at(entries, k, i),
    ensures
        key_index(entries, k) == i,
{
    let c = key_index(entries, k);
    assert(first_key_at(entries, k, c));
    if c < i {
        assert(entries[c].0@ != k);
    } else if c > i {
        assert(entries[i].0@ != k);
    }
}

/// A key that no member has has no position.
pub proof fn lemma_key_index_absent(entries: Seq<(String, JsonValue)>, k: Seq<char>)
    requires
        forall|j: int| 0 <= j < entries.len() ==> (#[trigger] entries[j]).0@ != k,
    ensures
        key_index(entries, k) == -1,
{
    if exists|i: int| first_key_at(entries, k, i) {
        let i = choose|i: int| first_key_at(entries, k, i);
        assert(entries[i].0@ == k);
    }
}

/// With distinct keys, the member at `i` is the one found under its key.
pub proof fn lemma_lookup_at(entries: Seq<(String, JsonValue)>, k: Seq<char>, i: int)
    requires
        distinct_keys(entries),
        0 <= i < entries.len(),
        entries[i].0@ == k,
    ensures
        lookup(entries, k) == Some(entries[i].1),
{
    assert forall|j: int| 0 <= j < i implies (#[trigger] entries[j]).0@ != k by {
        assert(entries[j].0@ != entries[i].0@);
    }
    lemma_key_index_at(entries, k, i);
}

/// A key that no member has is not found.
pub proof fn lemma_lookup_absent(entries: Seq<(String, JsonValue)>, k: Seq<char>)
    requires
        forall|j: int| 0 <= j < entries.len() ==> (#[trigger] entries[j]).0@ != k,
    ensures
        lookup(entries, k) is None,
{
    lemma_key_index_absent(entries, k);
}

impl JsonObject {
    /// The members in the order they are stored.
    pub closed spec fn members(self) -> Seq<(String, JsonValue)> {
        self.entries@
    }

    /// Keys are distinct.
    #[verifier::type_invariant]
    pub closed spec fn wf(self) -> bool {
        distinct_keys(self.entries@)
    }

    /// The value stored under `k`.
    pub open spec fn get_spec(self, k: Seq<char>) -> Option<JsonValue> {
        lookup(self.members(), k)
    }

    /// An empty object.
    pub fn new() -> (o: JsonObject)
        ensures
            o.members() == Seq::<(String, JsonValue)>::empty(),
    {
        JsonObject { entries: Vec::new() }
    }

    /// The number of members.
    pub fn len(&self) -> (n: usize)
        ensures
            n == self.members().len(),
    {
        self.entries.len()
    }

    /// The members in the order they are stored.
    pub fn entries(&self) -> (r: &[(String, JsonValue)])
        ensures
            r@ == self.members(),
    {
        self.entries.as_slice()
    }

    /// The position of the member whose key is `key`.
    fn position(&self, key: &str) -> (r: Option<usize>)
        ensures
            match r {
                Some(i) => first_key_at(self.members(), key@, i as int) && key_index(
                    self.members(),
                    key@,
                ) == i,
                None => key_index(self.members(), key@) == -1 && forall|j: int|
                    0 <= j < self.members().len() ==> (#[trigger] self.members()[j]).0@ != key@,
            },
    {
        let mut i: usize = 0;
        while i < self.entries.len()
            invariant
                i <= self.entries@.len(),
                forall|j: int| 0 <= j < i ==> (#[trigger] self.entries@[j]).0@ != key@,
            decreases self.entries@.len() - i,
        {
            if str_eq(self.entries[i].0.as_str(), key) {
                proof {
                    lemma_key_index_at(self.entries@, key@, i as int);
                }
                return Some(i);
            }
            i = i + 1;
        }
        proof {
            lemma_key_index_absent(self.entries@, key@);
        }
        None
    }

    /// Whether a member has key `key`.
    pub fn contains_key(&self, key: &str) -> (r: bool)
        ensures
            r == (self.get_spec(key@) is Some),
    {
        self.position(key).is_some()
    }

    /// The value stored under `key`.
    pub fn get(&self, key: &str) -> (r: Option<&JsonValue>)
        ensures
            match r {
                Some(v) => self.get_spec(key@) == Some(*v),
                None => self.get_spec(key@) is None,
            },
    {
        match self.position(key) {
            Some(i) => Some(&self.entries[i].1),
            None => None,
        }
    }

    /// Stores `value` under `key`, replacing (and returning) the value the key
    /// had.
    pub fn insert(&mut self, key: String, value: JsonValue) -> (prev: Option<JsonValue>)
        ensures
            ({
                let i = key_index(old(self).members(), key@);
                if i >= 0 {
                    &&& final(self).members() == old(self).members().update(i, (key, value))
                    &&& prev == Some(old(self).members()[i].1)
                } else {
                    &&& final(self).members() == old(self).members().push((key, value))
                    &&& prev is None
                }
            }),
            prev == old(self).get_spec(key@),
            final(self).get_spec(key@) == Some(value),
            forall|k: Seq<char>| k != key@ ==> #[trigger] final(self).get_spec(k) == old(self).get_spec(
                k,
            ),
    {
        proof {
            use_type_invariant(&*self);
        }
        let found = self.position(key.as_str());
        let mut entries: Vec<(String, JsonValue)> = Vec::new();
        std::mem::swap(&mut entries, &mut self.entries);
        let ghost es = entries@;
        match found {
            Some(i) => {
                let (_, old_value) = entries.remove(i);
                proof {
                    assert forall|j: int| 0 <= j < entries@.len() implies (
                    #[trigger] entries@[j]).0@ != key@ by {
                        if j < i {
                            assert(es[j] == entries@[j]);
                        } else {
                            assert(es[j + 1] == entries@[j]);
                        }
                    }
                }
                entries.insert(i, (key, value));
                assert(entries@ =~= es.update(i as int, (key, value)));
                self.entries = entries;
                proof {
                    let ns = self.entries@;
                    lemma_lookup_at(es, key@, i as int);
                    lemma_lookup_at(ns, key@, i as int);
                    assert forall|k: Seq<char>| k != key@ implies #[trigger] lookup(ns, k) == lookup(
                        es,
                        k,
                    ) by {
                        if exists|j: int| 0 <= j < es.len() && es[j].0@ == k {
                            let j = choose|j: int| 0 <= j < es.len() && es[j].0@ == k;
                            lemma_lookup_at(es, k, j);
                            lemma_lookup_at(ns, k, j);
                        } else {
                            lemma_lookup_absent(es, k);
                            assert forall|j: int| 0 <= j < ns.len() implies (
                            #[trigger] ns[j]).0@ != k by {
                                if j != i {
                                    assert(ns[j] == es[j]);
                                }
                            }
                            lemma_lookup_absent(ns, k);
                        }
                    }
                }
                Some(old_value)
            },
            None => {
                entries.push((key, value));
                self.entries = entries;
                proof {
                    let ns = self.entries@;
                    lemma_lookup_absent(es, key@);
                    lemma_lookup_at(ns, key@, es.len() as int);
                    assert forall|k: Seq<char>| k != key@ implies #[trigger] lookup(ns, k) == lookup(
                        es,
                        k,
                    ) by {
                        if exists|j: int| 0 <= j < es.len() && es[j].0@ == k {
                            let j = choose|j: int| 0 <= j < es.len() && es[j].0@ == k;
                            lemma_lookup_at(es, k, j);
                            lemma_lookup_at(ns, k, j);
                        } else {
                            lemma_lookup_absent(es, k);
                            assert forall|j: int| 0 <= j < ns.len() implies (
                            #[trigger] ns[j]).0@ != k by {
                                if j < es.len() {
                                    assert(ns[j] == es[j]);
                                }
                            }
                            lemma_lookup_absent(ns, k);
                        }
                    }
                }
                None
            },
        }
    }
}

impl JsonValue {
    /// Whether the value is `null`.
    pub fn is_null(&self) -> (r: bool)
        ensures
            r == (*self is Null),
    {
        match self {
            JsonValue::Null => true,
            _ => false,
        }
    }
}

/// The text of a string value is the string between double quotes.
pub proof fn lemma_canonical_string(s: String)
    ensures
        canonical(JsonValue::String(s)) == quoted(s@),
{
}

/// A member of an object in canonical text depends only on the value found
/// under its key.
proof fn lemma_canonical_member(entries: Seq<(String, JsonValue)>, k: Seq<char>)
    ensures
        canonical_member(entries, k) == quoted(k) + seq![':'] + match lookup(entries, k) {
            Some(v) => canonical(v),
            None => seq![],
        },
{
}

/// Rendering the same keys of two objects that agree on every key gives the
/// same text.
proof fn lemma_canonical_members_agree(
    e1: Seq<(String, JsonValue)>,
    e2: Seq<(String, JsonValue)>,
    keys: Seq<Seq<char>>,
)
    requires
        forall|k: Seq<char>| #[trigger] lookup(e1, k) == lookup(e2, k),
    ensures
        canonical_members(e1, keys) == canonical_members(e2, keys),
    decreases keys.len(),
{
    if keys.len() > 0 {
        lemma_canonical_members_agree(e1, e2, keys.drop_last());
        lemma_canonical_member(e1, keys.last());
        lemma_canonical_member(e2, keys.last());
        lemma_canonical_member(e1, keys[0]);
        lemma_canonical_member(e2, keys[0]);
        assert(lookup(e1, keys.last()) == lookup(e2, keys.last()));
        assert(lookup(e1, keys[0]) == lookup(e2, keys[0]));
    }
}

/// The keys of an object with distinct keys: a key occurs once exactly when
/// something is stored under it.
proof fn lemma_entry_keys(entries: Seq<(String, JsonValue)>)
    requires
        distinct_keys(entries),
    ensures
        entry_keys(entries).no_duplicates(),
        forall|k: Seq<char>| #[trigger] entry_keys(entries).contains(k) <==> lookup(entries, k) is Some,
{
    let ks = entry_keys(entries);
    assert forall|i: int, j: int| 0 <= i < ks.len() && 0 <= j < ks.len() && i != j implies ks[i]
        != ks[j] by {
        if i < j {
            assert(entries[i].0@ != entries[j].0@);
        } else {
            assert(entries[j].0@ != entries[i].0@);
        }
    }
    assert forall|k: Seq<char>| #[trigger] ks.contains(k) <==> lookup(entries, k) is Some by {
        if ks.contains(k) {
            let i = choose|i: int| 0 <= i < ks.len() && ks[i] == k;
            lemma_lookup_at(entries, k, i);
        } else {
            assert forall|j: int| 0 <= j < entries.len() implies (#[trigger] entries[j]).0@ != k by {
                assert(ks[j] == entries[j].0@);
            }
            lemma_lookup_absent(entries, k);
        }
    }
}

/// Canonical text does not depend on the order in which an object's members
/// were stored: two objects that hold the same value under every key are
/// written alike.
pub proof fn law_canonical_ignores_member_order(o1: JsonObject, o2: JsonObject)
    requires
        o1.wf(),
        o2.wf(),
        forall|k: Seq<char>| #[trigger] o1.get_spec(k) == o2.get_spec(k),
    ensures
        canonical(JsonValue::Object(o1)) == canonical(JsonValue::Object(o2)),
{
    broadcast use group_to_multiset_ensures;

    let e1 = o1.entries@;
    let e2 = o2.entries@;
    assert forall|k: Seq<char>| #[trigger] lookup(e1, k) == lookup(e2, k) by {
        assert(o1.get_spec(k) == o2.get_spec(k));
    }
    let k1 = entry_keys(e1);
    let k2 = entry_keys(e2);
    lemma_entry_keys(e1);
    lemma_entry_keys(e2);
    k1.lemma_multiset_has_no_duplicates();
    k2.lemma_multiset_has_no_duplicates();
    assert forall|k: Seq<char>| k1.to_multiset().count(k) == k2.to_multiset().count(k) by {
        assert(k1.contains(k) == k2.contains(k));
        if k1.contains(k) {
            assert(k1.to_multiset().contains(k));
            assert(k2.to_multiset().contains(k));
        }
    }
    assert(k1.to_multiset() =~= k2.to_multiset());
    lemma_key_order_total();
    k1.lemma_sort_by_ensures(key_order());
    lemma_sorted_keys_unique(k2, sorted_keys(k1));
    lemma_canonical_members_agree(e1, e2, sorted_keys(k1));
}

/// Appends the decimal digits of `n` to `out`.
fn append_decimal(out: &mut String, n: u64)
    ensures
        final(out)@ == old(out)@ + decimal(n as nat),
    decreases n,
{
    if n >= 10 {
        append_decimal(out, n / 10);
    }
    let d: u64 = n % 10;
    out.append(digit_str(d as usize));
}

/// The text of a number.
fn number_string(n: &JsonNumber) -> (s: String)
    ensures
        s@ == number_text(*n),
{
    match n {
        JsonNumber::PosInt(u) => {
            let mut s = String::new();
            append_decimal(&mut s, *u);
            s
        },
        JsonNumber::NegInt(i) => {
            let mut s = String::new();
            if *i < 0 {
                proof {
                    reveal_strlit("-");
                }
                s.append("-");
                let m: u64 = ((-(*i + 1)) as u64) + 1;
                append_decimal(&mut s, m);
            } else {
                let m: u64 = *i as u64;
                append_decimal(&mut s, m);
            }
            s
        },
        JsonNumber::Float(t) => t.clone(),
    }
}

/// Writes `value` as canonical JSON text: object members in the byte order
/// of their keys, array items in order, separated by commas without spaces;
/// strings are placed between double quotes as they stand.
pub fn serialize_json_canonical(value: &JsonValue) -> (s: String)
    ensures
        s@ == canonical(*value),
    decreases value,
{
    proof {
        reveal_strlit("null");
        reveal_strlit("true");
        reveal_strlit("false");
        reveal_strlit("\"");
        reveal_strlit("[");
        reveal_strlit("]");
        reveal_strlit("{");
        reveal_strlit("}");
        reveal_strlit(",");
        reveal_strlit("\":");
    }
    match value {
        JsonValue::Null => String::from_str("null"),
        JsonValue::Bool(b) => if *b {
            String::from_str("true")
        } else {
            String::from_str("false")
        },
        JsonValue::Number(n) => number_string(n),
        JsonValue::String(t) => {
            let mut s = String::from_str("\"");
            s.append(t.as_str());
            s.append("\"");
            s
        },
        JsonValue::Array(arr) => {
            let mut s = String::from_str("[");
            let mut i: usize = 0;
            while i < arr.len()
                invariant
                    i <= arr@.len(),
                    *value == JsonValue::Array(*arr),
                    s@ == seq!['['] + canonical_items(arr@, i as nat),
                decreases arr@.len() - i,
            {
                proof {
                    reveal_strlit(",");
                }
                if i > 0 {
                    s.append(",");
                }
                assert(decreases_to!(*value => value->Array_0));
                assert(decreases_to!(*arr => arr@));
                assert(decreases_to!(arr@ => arr@[i as int]));
                let item = serialize_json_canonical(&arr[i]);
                s.append(item.as_str());
                assert(canonical_items(arr@, (i + 1) as nat) == if i == 0 {
                    canonical(arr@[0])
                } else {
                    canonical_items(arr@, i as nat) + seq![','] + canonical(arr@[i as int])
                });
                assert(s@ =~= seq!['['] + canonical_items(arr@, (i + 1) as nat));
                i = i + 1;
            }
            s.append("]");
            s
        },
        JsonValue::Object(obj) => {
            let ghost es = obj.entries@;
            let mut keys: Vec<String> = Vec::new();
            let mut j: usize = 0;
            while j < obj.entries.len()
                invariant
                    j <= es.len(),
                    es == obj.entries@,
                    views(keys@) =~= entry_keys(es).take(j as int),
                decreases es.len() - j,
            {
                let k = obj.entries[j].0.clone();
                let ghost old_keys = keys@;
                keys.push(k);
                assert(views(keys@) =~= views(old_keys).push(k@));
                assert(entry_keys(es).take(j + 1) =~= entry_keys(es).take(j as int).push(k@));
                j = j + 1;
            }
            assert(entry_keys(es).take(es.len() as int) =~= entry_keys(es));
            let sorted = sort_strings(keys);
            let ghost ks = views(sorted@);
            let mut s = String::from_str("{");
            let mut i: usize = 0;
            while i < sorted.len()
                invariant
                    i <= sorted@.len(),
                    es == obj.entries@,
                    *value == JsonValue::Object(*obj),
                    ks == views(sorted@),
                    s@ == seq!['{'] + canonical_members(es, ks.take(i as int)),
                decreases sorted@.len() - i,
            {
                proof {
                    reveal_strlit(",");
                    reveal_strlit("\"");
                    reveal_strlit("\":");
                }
                if i > 0 {
                    s.append(",");
                }
                let ghost with_sep = s@;
                s.append("\"");
                s.append(sorted[i].as_str());
                s.append("\":");
                let ghost k = ks[i as int];
                assert(k == sorted@[i as int]@);
                match obj.position(sorted[i].as_str()) {
                    Some(p) => {
                        assert(decreases_to!(*value => value->Object_0));
                        assert(decreases_to!(*obj => obj.entries));
                        assert(decreases_to!(obj.entries => es));
                        assert(decreases_to!(es => es[p as int]));
                        assert(decreases_to!(es[p as int] => es[p as int].1));
                        let member = serialize_json_canonical(&obj.entries[p].1);
                        s.append(member.as_str());
                    },
                    None => {},
                }
                assert(s@ =~= with_sep + canonical_member(es, k));
                assert(ks.take(i + 1).drop_last() =~= ks.take(i as int));
                assert(ks.take(i + 1).last() == k);
                assert(s@ =~= seq!['{'] + canonical_members(es, ks.take(i + 1)));
                i = i + 1;
            }
            assert(ks.take(sorted@.len() as int) =~= ks);
            s.append("}");
            s
        },
    }
}

} // verus!
