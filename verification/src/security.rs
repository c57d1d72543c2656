//! Secrets and message signatures: the SHA-256 hash of a connection
//! secret, the PBKDF2 key of a channel, and the HMAC-SHA256 signature over a
//! message's fixed set of fields in canonical form.
use vstd::prelude::*;
use vstd::string::StringSliceAdditionalSpecFns;
use vstd::utf8::{encode_utf8, is_ascii_chars};
use vstd::seq_lib::group_to_multiset_ensures;
use crate::json::{
    canonical, digit_char, lemma_canonical_string, quoted, serialize_json_canonical, JsonObject,
    JsonValue,
};
use crate::text::{
    digit_str, is_lower_hex_digit, key_order, lemma_key_lt_at, lemma_key_order_total, lemma_sorted_keys_unique,
    lemma_strictly_sorted, sort_strings, sorted_keys, str_eq, views,
};
use pbkdf2::hmac::{Hmac, Mac};
use sha2::{Digest, Sha256};

verus! {

broadcast use vstd::string::group_string_axioms;

/// The SHA-256 digest of `data`.
pub uninterp spec fn sha256(data: Seq<u8>) -> Seq<u8>;

/// The HMAC-SHA256 code of `msg` under `key`.
pub uninterp spec fn hmac_sha256(key: Seq<u8>, msg: Seq<u8>) -> Seq<u8>;

/// The PBKDF2 key of `len` bytes derived from `password` and `salt` with
/// HMAC-SHA256 as PRF and `rounds` iterations.
pub uninterp spec fn pbkdf2_hmac_sha256(password: Seq<u8>, salt: Seq<u8>, rounds: u32, len: nat) -> Seq<u8>;

/// `sha2::Sha256` over `data`: its digest, which is 32 bytes long.
#[verifier::external_body]
fn sha256_digest(data: &[u8]) -> (d: Vec<u8>)
    ensures
        d@ == sha256(data@),
        d@.len() == 32,
{
    let mut hasher = Sha256::new();
    hasher.update(data);
    hasher.finalize().to_vec()
}

/// `hmac::Hmac<Sha256>` keyed with `key` over `msg`: the 32-byte code. HMAC
/// accepts a key of any length, so creating it does not fail.
#[verifier::external_body]
fn hmac_sha256_code(key: &[u8], msg: &[u8]) -> (c: Vec<u8>)
    ensures
        c@ == hmac_sha256(key@, msg@),
        c@.len() == 32,
{
    let mut mac = <Hmac<Sha256> as Mac>::new_from_slice(key).expect(
        "HMAC can take key of any size",
    );
    mac.update(msg);
    mac.finalize().into_bytes().to_vec()
}

/// `pbkdf2::pbkdf2::<Hmac<Sha256>>` filling a buffer of `len` bytes. It
/// fails only where the PRF refuses the password as key, which HMAC never
/// does. The buffer is filled in 32-byte blocks whose number `i + 1` is a
/// `u32`, so it holds at most 2^32 - 1 of them.
#[verifier::external_body]
fn pbkdf2_sha256_key(password: &[u8], salt: &[u8], rounds: u32, len: usize) -> (k: Vec<u8>)
    requires
        len <= 0x1f_ffff_ffe0,
    ensures
        k@ == pbkdf2_hmac_sha256(password@, salt@, rounds, len as nat),
        k@.len() == len,
{
    let mut key = vec![0u8; len];
    pbkdf2::pbkdf2::<Hmac<Sha256>>(password, salt, rounds, &mut key).expect(
        "PBKDF2 derivation failed",
    );
    key
}

/// Lower-case hexadecimal text of `bytes`, two digits per byte.
pub open spec fn hex_lower(bytes: Seq<u8>) -> Seq<char>
    decreases bytes.len(),
{
    if bytes.len() == 0 {
        seq![]
    } else {
        hex_lower(bytes.drop_last()) + seq![
            digit_char((bytes.last() / 16) as nat),
            digit_char((bytes.last() % 16) as nat),
        ]
    }
}

/// Writes `bytes` as lower-case hexadecimal text, two digits per byte.
pub fn hex_encode(bytes: &[u8]) -> (s: String)
    ensures
        s@ == hex_lower(bytes@),
{
    let mut s = String::new();
    let mut i: usize = 0;
    while i < bytes.len()
        invariant
            i <= bytes@.len(),
            s@ == hex_lower(bytes@.take(i as int)),
        decreases bytes@.len() - i,
    {
        let b = bytes[i];
        let hi: u8 = b / 16;
        let lo: u8 = b % 16;
        s.append(digit_str(hi as usize));
        s.append(digit_str(lo as usize));
        assert(bytes@.take(i + 1).drop_last() =~= bytes@.take(i as int));
        assert(s@ =~= hex_lower(bytes@.take(i + 1)));
        i = i + 1;
    }
    assert(bytes@.take(bytes@.len() as int) =~= bytes@);
    s
}

/// The SHA-256 hash of a secret's UTF-8 bytes, in lower-case hexadecimal.
pub fn hash_secret(secret: &str) -> (h: String)
    ensures
        h@ == hex_lower(sha256(secret.spec_bytes())),
        h@.len() == 64,
        forall|i: int| 0 <= i < 64 ==> is_lower_hex_digit(#[trigger] h@[i]),
{
    let digest = sha256_digest(secret.as_bytes());
    let h = hex_encode(digest.as_slice());
    proof {
        lemma_hex_lower_len(digest@);
    }
    h
}

/// Hex text has two digits per byte, each a lower-case hexadecimal digit.
pub proof fn lemma_hex_lower_len(bytes: Seq<u8>)
    ensures
        hex_lower(bytes).len() == 2 * bytes.len(),
        forall|i: int| 0 <= i < hex_lower(bytes).len() ==> is_lower_hex_digit(#[trigger] hex_lower(bytes)[i]),
    decreases bytes.len(),
{
    if bytes.len() > 0 {
        lemma_hex_lower_len(bytes.drop_last());
        let hi = (bytes.last() / 16) as nat;
        let lo = (bytes.last() % 16) as nat;
        assert(is_lower_hex_digit(digit_char(hi)));
        assert(is_lower_hex_digit(digit_char(lo)));
        let prev = hex_lower(bytes.drop_last());
        assert forall|i: int| 0 <= i < hex_lower(bytes).len() implies is_lower_hex_digit(#[trigger] hex_lower(bytes)[i]) by {
            if i < prev.len() {
                assert(hex_lower(bytes)[i] == prev[i]);
            }
        }
    }
}

/// The number of PBKDF2 iterations that derive a channel key.
pub const KEY_ROUNDS: u32 = 100_000;

/// The length in bytes of a channel key.
pub const KEY_LEN: usize = 32;

/// The 32-byte channel key derived from a secret and a salt with PBKDF2
/// (HMAC-SHA256, 100 000 rounds).
pub fn derive_key(secret: &str, salt: &[u8]) -> (key: Vec<u8>)
    ensures
        key@ == pbkdf2_hmac_sha256(secret.spec_bytes(), salt@, KEY_ROUNDS, KEY_LEN as nat),
        key@.len() == KEY_LEN,
{
    pbkdf2_sha256_key(secret.as_bytes(), salt, KEY_ROUNDS, KEY_LEN)
}

/// The message fields that a signature covers.
pub open spec fn signed_fields() -> Seq<Seq<char>> {
    seq![
        "sender_id"@,
        "channel"@,
        "event"@,
        "data"@,
        "timestamp"@,
        "request_id"@,
        "target_id"@,
        "is_stream"@,
        "is_final"@,
        "origin_server_id"@,
        "challenge"@,
        "sub_name"@,
    ]
}

/// The part that field `k` contributes to the signed text: `k:value` with
/// the value in canonical form, unless the field is absent or null.
pub open spec fn signed_part(msg: JsonObject, k: Seq<char>) -> Option<Seq<char>> {
    match msg.get_spec(k) {
        Some(v) => if v is Null {
            None
        } else {
            Some(k + seq![':'] + canonical(v))
        },
        None => None,
    }
}

/// The parts of the fields `keys`, in that order.
pub open spec fn signed_parts(msg: JsonObject, keys: Seq<Seq<char>>) -> Seq<Seq<char>>
    decreases keys.len(),
{
    if keys.len() == 0 {
        seq![]
    } else {
        let rest = signed_parts(msg, keys.drop_last());
        match signed_part(msg, keys.last()) {
            Some(p) => rest.push(p),
            None => rest,
        }
    }
}

/// The parts joined by `|`.
pub open spec fn join_bar(parts: Seq<Seq<char>>) -> Seq<char>
    decreases parts.len(),
{
    if parts.len() == 0 {
        seq![]
    } else if parts.len() == 1 {
        parts[0]
    } else {
        join_bar(parts.drop_last()) + seq!['|'] + parts.last()
    }
}

/// The text that a signature covers: the parts of the signed fields in the
/// byte order of their names, joined by `|`.
pub open spec fn signing_text(msg: JsonObject) -> Seq<char> {
    join_bar(signed_parts(msg, sorted_keys(signed_fields())))
}

/// The signature of a message under `key`.
pub open spec fn signature_of(key: Seq<u8>, msg: JsonObject) -> Seq<char> {
    hex_lower(hmac_sha256(key, encode_utf8(signing_text(msg))))
}

/// The parts of two messages agree on keys on which their signed parts agree.
proof fn lemma_signed_parts_agree(m1: JsonObject, m2: JsonObject, keys: Seq<Seq<char>>)
    requires
        forall|i: int| 0 <= i < keys.len() ==> signed_part(m1, #[trigger] keys[i]) == signed_part(m2, keys[i]),
    ensures
        signed_parts(m1, keys) == signed_parts(m2, keys),
    decreases keys.len(),
{
    if keys.len() > 0 {
        assert(signed_part(m1, keys[keys.len() - 1]) == signed_part(m2, keys[keys.len() - 1]));
        lemma_signed_parts_agree(m1, m2, keys.drop_last());
    }
}

/// A signature covers only the signed fields, and only their values where
/// they are not null: two messages that agree on those are signed alike, so
/// fields such as `signature`, `metadata`, `path`, `server_id` or `mode` can
/// change without changing it, and a null field counts as an absent one.
pub proof fn law_signature_covers_signed_fields_only(key: Seq<u8>, m1: JsonObject, m2: JsonObject)
    requires
        forall|k: Seq<char>| #[trigger] signed_fields().contains(k) ==> signed_part(m1, k) == signed_part(m2, k),
    ensures
        signature_of(key, m1) == signature_of(key, m2),
{
    let ks = sorted_keys(signed_fields());
    lemma_key_order_total();
    signed_fields().lemma_sort_by_ensures(key_order());
    assert forall|i: int| 0 <= i < ks.len() implies signed_part(m1, #[trigger] ks[i]) == signed_part(m2, ks[i]) by {
        assert(ks.contains(ks[i]));
        assert(signed_fields().contains(ks[i]));
    }
    lemma_signed_parts_agree(m1, m2, ks);
}

/// `needle` occurs in `hay` at position `i`.
pub open spec fn occurs_at(hay: Seq<char>, needle: Seq<char>, i: int) -> bool {
    0 <= i && i + needle.len() <= hay.len() && hay.subrange(i, i + needle.len()) == needle
}

proof fn lemma_parts_contain(msg: JsonObject, keys: Seq<Seq<char>>, k: Seq<char>, p: Seq<char>)
    requires
        keys.contains(k),
        signed_part(msg, k) == Some(p),
    ensures
        signed_parts(msg, keys).contains(p),
    decreases keys.len(),
{
    let rest = keys.drop_last();
    if keys.last() == k {
        assert(signed_parts(msg, keys) == signed_parts(msg, rest).push(p));
        assert(signed_parts(msg, keys)[signed_parts(msg, rest).len() as int] == p);
    } else {
        let j = choose|j: int| 0 <= j < keys.len() && keys[j] == k;
        assert(rest[j] == k);
        lemma_parts_contain(msg, rest, k, p);
        let i = choose|i: int| 0 <= i < signed_parts(msg, rest).len() && signed_parts(msg, rest)[i] == p;
        let q = signed_parts(msg, rest);
        match signed_part(msg, keys.last()) {
            Some(x) => {
                assert(signed_parts(msg, keys) == q.push(x));
                assert(q.push(x)[i] == p);
            },
            None => {},
        }
    }
}

proof fn lemma_join_contains(parts: Seq<Seq<char>>, j: int)
    requires
        0 <= j < parts.len(),
    ensures
        exists|i: int| occurs_at(join_bar(parts), parts[j], i),
    decreases parts.len(),
{
    if parts.len() == 1 {
        assert(join_bar(parts) == parts[0]);
        assert(join_bar(parts).subrange(0, parts[0].len() as int) =~= parts[0]);
        assert(occurs_at(join_bar(parts), parts[j], 0));
    } else {
        let rest = parts.drop_last();
        let pre = join_bar(rest);
        let whole = join_bar(parts);
        assert(whole == pre + seq!['|'] + parts.last());
        if j == parts.len() - 1 {
            let i: int = pre.len() as int + 1;
            assert(whole.subrange(i, i + parts[j].len()) =~= parts[j]);
            assert(occurs_at(whole, parts[j], i));
        } else {
            assert(rest[j] == parts[j]);
            lemma_join_contains(rest, j);
            let i = choose|i: int| occurs_at(pre, rest[j], i);
            assert(whole.subrange(i, i + parts[j].len()) =~= pre.subrange(i, i + parts[j].len()));
            assert(occurs_at(whole, parts[j], i));
        }
    }
}

/// Every signed field that a message holds with a value other than null is
/// signed: its `name:value` text, with the value in canonical form, occurs
/// in the signed text (whatever the value is, `false` and `0` included).
pub proof fn law_signed_field_is_signed(msg: JsonObject, k: Seq<char>, v: JsonValue)
    requires
        signed_fields().contains(k),
        msg.get_spec(k) == Some(v),
        !(v is Null),
    ensures
        exists|i: int| occurs_at(signing_text(msg), k + seq![':'] + canonical(v), i),
{
    broadcast use group_to_multiset_ensures;

    let ks = sorted_keys(signed_fields());
    lemma_key_order_total();
    signed_fields().lemma_sort_by_ensures(key_order());
    assert(signed_fields().to_multiset().count(k) > 0);
    assert(ks.to_multiset().count(k) > 0);
    assert(ks.contains(k));
    let p = k + seq![':'] + canonical(v);
    assert(signed_part(msg, k) == Some(p));
    lemma_parts_contain(msg, ks, k, p);
    let parts = signed_parts(msg, ks);
    let j = choose|j: int| 0 <= j < parts.len() && parts[j] == p;
    lemma_join_contains(parts, j);
    assert(signing_text(msg) == join_bar(parts));
    let i = choose|i: int| occurs_at(join_bar(parts), parts[j], i);
    assert(occurs_at(signing_text(msg), p, i));
}

/// The parts of a message whose only signed part is `p`, for key `k0`: `p`
/// once for each time `k0` is among the keys.
proof fn lemma_signed_parts_single(msg: JsonObject, keys: Seq<Seq<char>>, k0: Seq<char>, p: Seq<char>)
    requires
        signed_part(msg, k0) == Some(p),
        forall|k: Seq<char>| k != k0 ==> #[trigger] signed_part(msg, k) is None,
    ensures
        signed_parts(msg, keys).len() == keys.to_multiset().count(k0),
        forall|i: int| 0 <= i < signed_parts(msg, keys).len() ==> #[trigger] signed_parts(msg, keys)[i] == p,
    decreases keys.len(),
{
    broadcast use group_to_multiset_ensures;
    broadcast use vstd::multiset::group_multiset_axioms;

    if keys.len() == 0 {
        assert(keys.to_multiset() =~= vstd::multiset::Multiset::empty());
    } else {
        lemma_signed_parts_single(msg, keys.drop_last(), k0, p);
        assert(keys =~= keys.drop_last().push(keys.last()));
        assert(keys.to_multiset() == keys.drop_last().to_multiset().insert(keys.last()));
    }
}

/// The signed fields in the byte order of their names.
pub open spec fn signed_fields_in_order() -> Seq<Seq<char>> {
    seq![
        "challenge"@,
        "channel"@,
        "data"@,
        "event"@,
        "is_final"@,
        "is_stream"@,
        "origin_server_id"@,
        "request_id"@,
        "sender_id"@,
        "sub_name"@,
        "target_id"@,
        "timestamp"@,
    ]
}

/// The order in which a signature takes the signed fields, and that no
/// field is named twice.
pub proof fn lemma_signed_field_order()
    ensures
        sorted_keys(signed_fields()) == signed_fields_in_order(),
        signed_fields_in_order().no_duplicates(),
{
    broadcast use group_to_multiset_ensures;
    broadcast use vstd::multiset::group_multiset_axioms;

    reveal_strlit("sender_id");
    reveal_strlit("channel");
    reveal_strlit("event");
    reveal_strlit("data");
    reveal_strlit("timestamp");
    reveal_strlit("request_id");
    reveal_strlit("target_id");
    reveal_strlit("is_stream");
    reveal_strlit("is_final");
    reveal_strlit("origin_server_id");
    reveal_strlit("challenge");
    reveal_strlit("sub_name");
    let t = signed_fields_in_order();
    assert forall|k: int| 0 <= k < 12 implies is_ascii_chars(#[trigger] t[k]) by {}
    lemma_key_lt_at(t[0], t[1], 3);
    lemma_key_lt_at(t[1], t[2], 0);
    lemma_key_lt_at(t[2], t[3], 0);
    lemma_key_lt_at(t[3], t[4], 0);
    lemma_key_lt_at(t[4], t[5], 3);
    lemma_key_lt_at(t[5], t[6], 0);
    lemma_key_lt_at(t[6], t[7], 0);
    lemma_key_lt_at(t[7], t[8], 0);
    lemma_key_lt_at(t[8], t[9], 1);
    lemma_key_lt_at(t[9], t[10], 0);
    lemma_key_lt_at(t[10], t[11], 1);
    lemma_strictly_sorted(t);
    let s = signed_fields();
    let place = seq![8int, 1, 3, 2, 11, 7, 10, 5, 4, 6, 0, 9];
    assert forall|i: int| 0 <= i < 12 implies s[i] == t[#[trigger] place[i]] && 0 <= place[i] < 12 by {}
    assert forall|i: int, j: int| 0 <= i < 12 && 0 <= j < 12 && i != j implies s[i] != s[j] by {
        assert(s[i] == t[place[i]]);
        assert(s[j] == t[place[j]]);
        assert(place[i] != place[j]);
    }
    assert(s.no_duplicates());
    assert forall|x: Seq<char>| t.contains(x) <==> s.contains(x) by {
        if t.contains(x) {
            let k = choose|k: int| 0 <= k < t.len() && t[k] == x;
            let i = choose|i: int| 0 <= i < 12 && place[i] == k;
            assert(s[i] == x);
        }
        if s.contains(x) {
            let i = choose|i: int| 0 <= i < s.len() && s[i] == x;
            assert(t[place[i]] == x);
        }
    }
    t.lemma_multiset_has_no_duplicates();
    s.lemma_multiset_has_no_duplicates();
    assert forall|x: Seq<char>| t.to_multiset().count(x) == s.to_multiset().count(x) by {
        if t.contains(x) {
            assert(t.to_multiset().contains(x));
            assert(s.to_multiset().contains(x));
        }
    }
    assert(t.to_multiset() =~= s.to_multiset());
    lemma_sorted_keys_unique(signed_fields(), t);
}

/// The signed text of a message that holds only a string `challenge` field.
pub proof fn lemma_signing_text_of_challenge(msg: JsonObject, c: String)
    requires
        msg.members().len() == 1,
        msg.members()[0].0@ == "challenge"@,
        msg.members()[0].1 == JsonValue::String(c),
    ensures
        signing_text(msg) == "challenge"@ + seq![':'] + quoted(c@),
{
    broadcast use group_to_multiset_ensures;
    broadcast use vstd::multiset::group_multiset_axioms;

    let es = msg.members();
    let k0 = "challenge"@;
    let p = k0 + seq![':'] + quoted(c@);
    assert(crate::json::first_key_at(es, k0, 0));
    crate::json::lemma_key_index_at(es, k0, 0);
    lemma_canonical_string(c);
    assert(signed_part(msg, k0) == Some(p));
    assert forall|k: Seq<char>| k != k0 implies #[trigger] signed_part(msg, k) is None by {
        assert forall|j: int| 0 <= j < es.len() implies (#[trigger] es[j]).0@ != k by {
            assert(j == 0);
        }
        crate::json::lemma_lookup_absent(es, k);
    }
    let ks = sorted_keys(signed_fields());
    lemma_signed_field_order();
    ks.lemma_multiset_has_no_duplicates();
    assert(ks[0] == k0);
    assert(ks.to_multiset().count(k0) == 1);
    lemma_signed_parts_single(msg, ks, k0, p);
    let parts = signed_parts(msg, ks);
    assert(parts.len() == 1);
    assert(parts[0] == p);
}

/// The names of the signed fields, in the order of their byte strings.
fn signed_field_names() -> (names: Vec<String>)
    ensures
        views(names@) == sorted_keys(signed_fields()),
{
    let mut names: Vec<String> = Vec::new();
    names.push(String::from_str("sender_id"));
    names.push(String::from_str("channel"));
    names.push(String::from_str("event"));
    names.push(String::from_str("data"));
    names.push(String::from_str("timestamp"));
    names.push(String::from_str("request_id"));
    names.push(String::from_str("target_id"));
    names.push(String::from_str("is_stream"));
    names.push(String::from_str("is_final"));
    names.push(String::from_str("origin_server_id"));
    names.push(String::from_str("challenge"));
    names.push(String::from_str("sub_name"));
    assert(views(names@) =~= signed_fields());
    sort_strings(names)
}

/// The text that a signature covers: the signed fields that the message
/// holds and that are not null, as `name:value` with the value in canonical
/// form, in the byte order of their names, joined by `|`.
pub fn signing_payload(msg: &JsonObject) -> (s: String)
    ensures
        s@ == signing_text(*msg),
{
    let names = signed_field_names();
    let ghost ks = views(names@);
    let mut s = String::new();
    let ghost mut parts: Seq<Seq<char>> = seq![];
    let mut any = false;
    let mut i: usize = 0;
    while i < names.len()
        invariant
            i <= names@.len(),
            ks == views(names@),
            any == (parts.len() > 0),
            parts == signed_parts(*msg, ks.take(i as int)),
            s@ == join_bar(parts),
        decreases names@.len() - i,
    {
        proof {
            reveal_strlit("|");
            reveal_strlit(":");
        }
        let ghost k = ks[i as int];
        assert(ks.take(i + 1).drop_last() =~= ks.take(i as int));
        assert(ks.take(i + 1).last() == k);
        match msg.get(names[i].as_str()) {
            Some(v) => {
                if !v.is_null() {
                    if any {
                        s.append("|");
                    }
                    any = true;
                    s.append(names[i].as_str());
                    s.append(":");
                    let text = serialize_json_canonical(v);
                    s.append(text.as_str());
                    proof {
                        let p = k + seq![':'] + canonical(*v);
                        assert(parts.push(p).drop_last() =~= parts);
                        parts = parts.push(p);
                        assert(s@ =~= join_bar(parts));
                    }
                }
            },
            None => {},
        }
        i = i + 1;
    }
    assert(ks.take(names@.len() as int) =~= ks);
    s
}

/// Signs a message: the HMAC-SHA256 under `key` of its signed fields in
/// canonical form (see `signing_text`), in lower-case hexadecimal.
pub fn compute_signature(key: &[u8], msg: &JsonObject) -> (sig: String)
    ensures
        sig@ == signature_of(key@, *msg),
        sig@.len() == 64,
        forall|i: int| 0 <= i < 64 ==> is_lower_hex_digit(#[trigger] sig@[i]),
{
    let text = signing_payload(msg);
    let code = hmac_sha256_code(key, text.as_str().as_bytes());
    let sig = hex_encode(code.as_slice());
    proof {
        lemma_hex_lower_len(code@);
    }
    sig
}

/// Whether `signature` is the signature of `msg` under `key`.
pub fn verify_signature(key: &[u8], msg: &JsonObject, signature: &str) -> (ok: bool)
    ensures
        ok == (signature_of(key@, *msg) == signature@),
{
    let expected = compute_signature(key, msg);
    str_eq(expected.as_str(), signature)
}

} // verus!
