//! Bencoded values as the engine reads them, and decoding of bencoded bytes.
use vstd::prelude::*;

verus! {

/// A bencoded value. A dictionary is a list of entries with distinct keys.
#[derive(Debug)]
pub enum BValue {
    Bytes(Vec<u8>),
    Int(i64),
    List(Vec<BValue>),
    Dict(Vec<(Vec<u8>, BValue)>),
}

#[verifier::external_type_specification]
#[verifier::external_body]
pub struct ExBencodeValue(serde_bencode::value::Value);

/// Text of bytes read as UTF-8 with invalid sequences replaced, the result of
/// `String::from_utf8_lossy`.
pub uninterp spec fn utf8_lossy(b: Seq<u8>) -> Seq<char>;

/// `String::from_utf8_lossy(b)` as an owned string: every valid sequence
/// gives its character and every invalid one U+FFFD, so the text is empty
/// exactly when the bytes are.
#[verifier::external_body]
pub(crate) fn lossy_string(b: &[u8]) -> (r: String)
    ensures
        r@ == utf8_lossy(b@),
        r@.len() == 0 <==> b@.len() == 0,
{
    String::from_utf8_lossy(b).to_string()
}

/// Converts a value decoded by `serde_bencode` into a `BValue`, variant for
/// variant; dictionary entries come in the order in which the decoder's hash
/// map yields them.
#[verifier::external_body]
fn bvalue_from(v: serde_bencode::value::Value) -> BValue {
    match v {
        serde_bencode::value::Value::Bytes(b) => BValue::Bytes(b),
        serde_bencode::value::Value::Int(i) => BValue::Int(i),
        serde_bencode::value::Value::List(l) => BValue::List(l.into_iter().map(bvalue_from).collect()),
        serde_bencode::value::Value::Dict(d) => BValue::Dict(
            d.into_iter().map(|(k, x)| (k, bvalue_from(x))).collect(),
        ),
    }
}

/// What `serde_bencode` decodes from bytes: the value (its dictionaries
/// with their entries in one fixed order), or the text of the error.
pub uninterp spec fn bencode_decode(data: Seq<u8>) -> Result<BValue, Seq<char>>;

/// The position of the first entry with key `k`, or -1.
pub open spec fn key_index(entries: Seq<(Vec<u8>, BValue)>, k: Seq<u8>) -> int
    decreases entries.len(),
{
    if entries.len() == 0 {
        -1
    } else if entries[0].0@ == k {
        0
    } else {
        let r = key_index(entries.subrange(1, entries.len() as int), k);
        if r < 0 {
            -1
        } else {
            r + 1
        }
    }
}

/// Whether `a` is `b` with the entries of its dictionaries possibly in
/// another order, looking at the items (or entries) `from..` of `a`: equal
/// byte strings and integers, lists of the same length whose items are
/// alike, and dictionaries with the same keys where each entry of `a` is
/// alike the first entry of `b` with its key.
pub open spec fn alike_from(a: BValue, b: BValue, from: int) -> bool
    decreases a, match a {
        BValue::List(x) => x@.len() - from,
        BValue::Dict(d) => d@.len() - from,
        _ => 0,
    },
    via alike_from_decreases
{
    match (a, b) {
        (BValue::Bytes(x), BValue::Bytes(y)) => x@ == y@,
        (BValue::Int(x), BValue::Int(y)) => x == y,
        (BValue::List(xs), BValue::List(ys)) => {
            &&& xs@.len() == ys@.len()
            &&& (0 <= from < xs@.len() ==> alike_from(xs@[from], ys@[from], 0) && alike_from(a, b, from + 1))
        },
        (BValue::Dict(da), BValue::Dict(db)) => {
            &&& forall|j: int| 0 <= j < db@.len() ==> key_index(da@, #[trigger] db@[j].0@) >= 0
            &&& (0 <= from < da@.len() ==> {
                let k = key_index(db@, da@[from].0@);
                &&& k >= 0
                &&& alike_from(da@[from].1, db@[k].1, 0)
                &&& alike_from(a, b, from + 1)
            })
        },
        _ => false,
    }
}

#[via_fn]
proof fn alike_from_decreases(a: BValue, b: BValue, from: int) {
    broadcast use vstd::std_specs::vec::axiom_vec_index_decreases;

    match a {
        BValue::List(x) => {
            if 0 <= from < x@.len() {
                assert(decreases_to!(x => x[from]));
            }
        },
        BValue::Dict(d) => {
            if 0 <= from < d@.len() {
                assert(decreases_to!(d => d[from]));
                assert(decreases_to!(a => d@[from].1));
            }
        },
        _ => {},
    }
}

/// Whether `a` is `b` up to the order of dictionary entries.
pub open spec fn alike(a: BValue, b: BValue) -> bool {
    alike_from(a, b, 0)
}

/// `dict_lookup` finds the entry at `key_index`.
pub proof fn lemma_lookup_index(entries: Seq<(Vec<u8>, BValue)>, k: Seq<u8>)
    ensures
        -1 <= key_index(entries, k) < entries.len(),
        key_index(entries, k) >= 0 ==> entries[key_index(entries, k)].0@ == k
            && dict_lookup(entries, k) == Some(entries[key_index(entries, k)].1),
        key_index(entries, k) < 0 ==> dict_lookup(entries, k) is None && forall|j: int|
            0 <= j < entries.len() ==> entries[j].0@ != k,
    decreases entries.len(),
{
    if entries.len() > 0 && entries[0].0@ != k {
        let rest = entries.subrange(1, entries.len() as int);
        lemma_lookup_index(rest, k);
        assert forall|j: int| 1 <= j < entries.len() implies entries[j] == rest[j - 1] by {}
    }
}

/// The items (or entries) `from..` of alike lists (or dictionaries) are alike.
pub proof fn lemma_alike_parts(a: BValue, b: BValue, from: int)
    requires
        0 <= from,
        alike_from(a, b, from),
    ensures
        a matches BValue::List(xs) ==> b matches BValue::List(ys) && xs@.len() == ys@.len() && forall|i: int|
            from <= i < xs@.len() ==> alike(#[trigger] xs@[i], ys@[i]),
        a matches BValue::Dict(da) ==> b matches BValue::Dict(db) && (forall|j: int|
            0 <= j < db@.len() ==> key_index(da@, #[trigger] db@[j].0@) >= 0) && forall|i: int|
            from <= i < da@.len() ==> key_index(db@, #[trigger] da@[i].0@) >= 0 && alike(
                da@[i].1,
                db@[key_index(db@, da@[i].0@)].1,
            ),
    decreases match a {
        BValue::List(x) => x@.len() - from,
        BValue::Dict(d) => d@.len() - from,
        _ => 0,
    },
{
    match a {
        BValue::List(xs) => {
            if from < xs@.len() {
                lemma_alike_parts(a, b, from + 1);
            }
        },
        BValue::Dict(da) => {
            if from < da@.len() {
                lemma_alike_parts(a, b, from + 1);
            }
        },
        _ => {},
    }
}

/// Looking a key up in alike dictionaries finds alike values, or nothing
/// in both.
pub proof fn lemma_alike_lookup(da: Vec<(Vec<u8>, BValue)>, db: Vec<(Vec<u8>, BValue)>, k: Seq<u8>)
    requires
        alike(BValue::Dict(da), BValue::Dict(db)),
    ensures
        match (dict_lookup(da@, k), dict_lookup(db@, k)) {
            (None, None) => true,
            (Some(x), Some(y)) => alike(x, y),
            _ => false,
        },
{
    lemma_alike_parts(BValue::Dict(da), BValue::Dict(db), 0);
    lemma_lookup_index(da@, k);
    lemma_lookup_index(db@, k);
    let i = key_index(da@, k);
    let j = key_index(db@, k);
    if j >= 0 {
        assert(key_index(da@, db@[j].0@) >= 0);
    }
    if i >= 0 {
        assert(key_index(db@, da@[i].0@) >= 0);
    }
}

/// Decodes bencoded bytes (`serde_bencode::from_bytes` into its generic
/// value). The decoder keeps a dictionary in a hash map, so the entries come
/// in the order in which the map yields them: the value is the named one up
/// to that order. An error is the decoder's message.
#[verifier::external_body]
pub(crate) fn bdecode(data: &[u8]) -> (r: Result<BValue, String>)
    ensures
        match bencode_decode(data@) {
            Ok(v) => r matches Ok(x) && alike(x, v),
            Err(m) => r matches Err(e) && e@ == m,
        },
{
    match serde_bencode::from_bytes::<serde_bencode::value::Value>(data) {
        Ok(v) => Ok(bvalue_from(v)),
        Err(e) => Err(e.to_string()),
    }
}

/// The value stored under `key` in a dictionary's entries (the first such entry).
pub open spec fn dict_lookup(entries: Seq<(Vec<u8>, BValue)>, key: Seq<u8>) -> Option<BValue>
    decreases entries.len(),
{
    if entries.len() == 0 {
        None
    } else if entries[0].0@ == key {
        Some(entries[0].1)
    } else {
        dict_lookup(entries.subrange(1, entries.len() as int), key)
    }
}

pub(crate) fn bytes_eq(a: &[u8], b: &[u8]) -> (r: bool)
    ensures
        r == (a@ == b@),
{
    if a.len() != b.len() {
        return false;
    }
    let mut i: usize = 0;
    while i < a.len()
        invariant
            a@.len() == b@.len(),
            i <= a@.len(),
            forall|j: int| 0 <= j < i ==> a@[j] == b@[j],
        decreases a@.len() - i,
    {
        if a[i] != b[i] {
            return false;
        }
        i = i + 1;
    }
    assert(a@ =~= b@);
    true
}

/// The value under `key` in a dictionary's entries.
pub fn dict_get<'a>(entries: &'a Vec<(Vec<u8>, BValue)>, key: &[u8]) -> (r: Option<&'a BValue>)
    ensures
        match dict_lookup(entries@, key@) {
            Some(v) => r == Some(&v),
            None => r is None,
        },
{
    let mut i: usize = 0;
    assert(entries@.subrange(0, entries@.len() as int) =~= entries@);
    while i < entries.len()
        invariant
            i <= entries@.len(),
            dict_lookup(entries@, key@) == dict_lookup(entries@.subrange(i as int, entries@.len() as int), key@),
        decreases entries@.len() - i,
    {
        let ghost rest = entries@.subrange(i as int, entries@.len() as int);
        assert(rest.subrange(1, rest.len() as int) =~= entries@.subrange(i + 1, entries@.len() as int));
        if bytes_eq(entries[i].0.as_slice(), key) {
            return Some(&entries[i].1);
        }
        i = i + 1;
    }
    None
}

} // verus!
