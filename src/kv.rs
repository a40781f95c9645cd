//! Insertion-ordered maps from `indexmap`, seen as sequences of entries, and
//! the lookups that the typed conversions make in them.
use vstd::prelude::*;
use indexmap::IndexMap;
use crate::errors::{int_error, missing_key, missing_key_error, ErrorView, VmfResult};
use crate::text::{int_in_range, is_one, parse_signed, parse_unsigned, str_is_one};

verus! {

#[verifier::external_type_specification]
#[verifier::external_body]
#[verifier::reject_recursive_types(K)]
#[verifier::reject_recursive_types(V)]
#[verifier::reject_recursive_types(S)]
pub struct ExIndexMap<K, V, S>(IndexMap<K, V, S>);

/// The entries of a string map, in the map's order.
pub uninterp spec fn kv_entries(m: IndexMap<String, String>) -> Seq<(Seq<char>, Seq<char>)>;

/// The entries of a map from names to integer lists, in the map's order.
pub uninterp spec fn list_entries(m: IndexMap<String, Vec<i32>>) -> Seq<(Seq<char>, Seq<i32>)>;

/// The position of the first entry with key `k`, or -1.
pub open spec fn key_index<V>(s: Seq<(Seq<char>, V)>, k: Seq<char>) -> int
    decreases s.len(),
{
    if s.len() == 0 {
        -1
    } else {
        let j = key_index(s.drop_last(), k);
        if j >= 0 {
            j
        } else if s.last().0 == k {
            s.len() - 1
        } else {
            -1
        }
    }
}

/// The value stored under `k`.
pub open spec fn lookup(s: Seq<(Seq<char>, Seq<char>)>, k: Seq<char>) -> Option<Seq<char>> {
    let i = key_index(s, k);
    if i >= 0 {
        Some(s[i].1)
    } else {
        None
    }
}

/// The entries after inserting `(k, v)`: an existing key keeps its place and
/// takes the new value; a new key goes last.
pub open spec fn after_insert<V>(s: Seq<(Seq<char>, V)>, k: Seq<char>, v: V) -> Seq<(Seq<char>, V)> {
    let i = key_index(s, k);
    if i >= 0 {
        s.update(i, (k, v))
    } else {
        s.push((k, v))
    }
}

/// The entries after removing `k` by moving the last entry into its place.
pub open spec fn after_swap_remove<V>(s: Seq<(Seq<char>, V)>, k: Seq<char>) -> Seq<(Seq<char>, V)> {
    let i = key_index(s, k);
    if i >= 0 {
        s.update(i, s.last()).drop_last()
    } else {
        s
    }
}

/// The entries after removing `k` and shifting the later ones down.
pub open spec fn after_shift_remove<V>(s: Seq<(Seq<char>, V)>, k: Seq<char>) -> Seq<(Seq<char>, V)> {
    let i = key_index(s, k);
    if i >= 0 {
        s.remove(i)
    } else {
        s
    }
}

pub proof fn lemma_key_index<V>(s: Seq<(Seq<char>, V)>, k: Seq<char>)
    ensures
        -1 <= key_index(s, k) < s.len(),
        key_index(s, k) >= 0 ==> s[key_index(s, k)].0 == k,
        key_index(s, k) >= 0 ==> forall|j: int| 0 <= j < key_index(s, k) ==> s[j].0 != k,
        key_index(s, k) < 0 ==> forall|j: int| 0 <= j < s.len() ==> s[j].0 != k,
    decreases s.len(),
{
    if s.len() > 0 {
        let t = s.drop_last();
        lemma_key_index(t, k);
        assert(forall|j: int| 0 <= j < t.len() ==> t[j] == s[j]);
    }
}

/// Relies on `IndexMap::new`: a new map holds no entries.
#[verifier::external_body]
pub(crate) fn kv_new() -> (r: IndexMap<String, String>)
    ensures
        kv_entries(r) == Seq::<(Seq<char>, Seq<char>)>::empty(),
{
    IndexMap::new()
}

/// Relies on `IndexMap::insert`: an existing key keeps its place and gets the
/// new value, whose old value is returned; a new key is inserted last.
#[verifier::external_body]
pub(crate) fn kv_insert(m: &mut IndexMap<String, String>, k: String, v: String) -> (r: Option<String>)
    ensures
        kv_entries(*final(m)) == after_insert(kv_entries(*old(m)), k@, v@),
        match lookup(kv_entries(*old(m)), k@) {
            Some(o) => r matches Some(x) && x@ == o,
            None => r is None,
        },
{
    m.insert(k, v)
}

/// Relies on `IndexMap::get`: the value stored under an equal key.
#[verifier::external_body]
pub(crate) fn kv_get<'a>(m: &'a IndexMap<String, String>, k: &str) -> (r: Option<&'a String>)
    ensures
        match lookup(kv_entries(*m), k@) {
            Some(v) => r matches Some(x) && x@ == v,
            None => r is None,
        },
{
    m.get(k)
}

/// Relies on `IndexMap::swap_remove`: removes the entry of `k` by moving the
/// last entry into its place, and returns the removed value.
#[verifier::external_body]
pub(crate) fn kv_swap_remove(m: &mut IndexMap<String, String>, k: &str) -> (r: Option<String>)
    ensures
        kv_entries(*final(m)) == after_swap_remove(kv_entries(*old(m)), k@),
        match lookup(kv_entries(*old(m)), k@) {
            Some(v) => r matches Some(x) && x@ == v,
            None => r is None,
        },
{
    m.swap_remove(k)
}

/// Relies on `IndexMap::shift_remove`: removes the entry of `k`, keeping the
/// order of the others, and returns the removed value.
#[verifier::external_body]
pub(crate) fn kv_shift_remove(m: &mut IndexMap<String, String>, k: &str) -> (r: Option<String>)
    ensures
        kv_entries(*final(m)) == after_shift_remove(kv_entries(*old(m)), k@),
        match lookup(kv_entries(*old(m)), k@) {
            Some(v) => r matches Some(x) && x@ == v,
            None => r is None,
        },
{
    m.shift_remove(k)
}

/// Relies on `IndexMap::len`: the number of entries.
#[verifier::external_body]
pub(crate) fn kv_len(m: &IndexMap<String, String>) -> (r: usize)
    ensures
        r == kv_entries(*m).len(),
{
    m.len()
}

/// Relies on `IndexMap::get_index`: the entry at a position in the order.
#[verifier::external_body]
pub(crate) fn kv_get_index<'a>(m: &'a IndexMap<String, String>, i: usize) -> (r: (&'a String, &'a String))
    requires
        i < kv_entries(*m).len(),
    ensures
        (r.0@, r.1@) == kv_entries(*m)[i as int],
{
    m.get_index(i).unwrap()
}

/// Relies on `IndexMap::new`: a new map holds no entries.
#[verifier::external_body]
pub(crate) fn list_new() -> (r: IndexMap<String, Vec<i32>>)
    ensures
        list_entries(r) == Seq::<(Seq<char>, Seq<i32>)>::empty(),
{
    IndexMap::new()
}

/// Relies on `IndexMap::insert`: an existing key keeps its place and gets the
/// new value; a new key is inserted last.
#[verifier::external_body]
pub(crate) fn list_insert(m: &mut IndexMap<String, Vec<i32>>, k: String, v: Vec<i32>)
    ensures
        list_entries(*final(m)) == after_insert(list_entries(*old(m)), k@, v@),
{
    m.insert(k, v);
}

/// Relies on `IndexMap::len`: the number of entries.
#[verifier::external_body]
pub(crate) fn list_len(m: &IndexMap<String, Vec<i32>>) -> (r: usize)
    ensures
        r == list_entries(*m).len(),
{
    m.len()
}

/// Relies on `IndexMap::get_index`: the entry at a position in the order.
#[verifier::external_body]
pub(crate) fn list_get_index<'a>(m: &'a IndexMap<String, Vec<i32>>, i: usize) -> (r: (&'a String, &'a Vec<i32>))
    requires
        i < list_entries(*m).len(),
    ensures
        (r.0@, r.1@) == list_entries(*m)[i as int],
{
    m.get_index(i).unwrap()
}

/// The value of a required key.
pub fn get_key_ref<'a>(m: &'a IndexMap<String, String>, key: &str) -> (r: VmfResult<&'a String>)
    ensures
        match lookup(kv_entries(*m), key@) {
            Some(v) => r matches Ok(x) && x@ == v,
            None => r matches Err(e) && e@ == missing_key(key@),
        },
{
    match kv_get(m, key) {
        Some(v) => Ok(v),
        None => Err(missing_key_error(key)),
    }
}

/// A copy of the value of an optional key.
pub fn get_owned(m: &IndexMap<String, String>, key: &str) -> (r: Option<String>)
    ensures
        match lookup(kv_entries(*m), key@) {
            Some(v) => r matches Some(x) && x@ == v,
            None => r is None,
        },
{
    match kv_get(m, key) {
        Some(v) => Some(v.clone()),
        None => None,
    }
}

/// Whether the value of `key` is present and is the text "1".
pub fn key_is_one(m: &IndexMap<String, String>, key: &str) -> (r: bool)
    ensures
        r == (lookup(kv_entries(*m), key@) == Some(seq!['1'])),
{
    match kv_get(m, key) {
        Some(v) => crate::text::str_is_one(v.as_str()),
        None => false,
    }
}

} // verus!

verus! {

/// Reading a required integer field of a type with range `lo..=hi`.
pub open spec fn int_field(s: Seq<(Seq<char>, Seq<char>)>, key: Seq<char>, lo: int, hi: int) -> Result<int, ErrorView> {
    match lookup(s, key) {
        None => Err(missing_key(key)),
        Some(v) => match int_in_range(v, lo, hi) {
            Some(n) => Ok(n),
            None => Err(ErrorView::ParseInt { key, text: v }),
        },
    }
}

/// Reading an optional integer field: absent and malformed both give `None`.
pub open spec fn opt_int_field(s: Seq<(Seq<char>, Seq<char>)>, key: Seq<char>, lo: int, hi: int) -> Option<int> {
    match lookup(s, key) {
        None => None,
        Some(v) => int_in_range(v, lo, hi),
    }
}

/// Reading a required flag: only the text "1" is true.
pub open spec fn flag_field(s: Seq<(Seq<char>, Seq<char>)>, key: Seq<char>) -> Result<bool, ErrorView> {
    match lookup(s, key) {
        None => Err(missing_key(key)),
        Some(v) => Ok(is_one(v)),
    }
}

/// Reading a required text field.
pub open spec fn text_field(s: Seq<(Seq<char>, Seq<char>)>, key: Seq<char>) -> Result<Seq<char>, ErrorView> {
    match lookup(s, key) {
        None => Err(missing_key(key)),
        Some(v) => Ok(v),
    }
}

/// Reads a required signed integer field within `min..=max`.
pub fn signed_field(m: &IndexMap<String, String>, key: &str, min: i64, max: i64) -> (r: VmfResult<i64>)
    requires
        min < 0 <= max,
        min > i64::MIN,
    ensures
        match r {
            Ok(n) => int_field(kv_entries(*m), key@, min as int, max as int) == Ok::<int, ErrorView>(n as int),
            Err(e) => int_field(kv_entries(*m), key@, min as int, max as int) == Err::<int, ErrorView>(e@),
        },
{
    let v = get_key_ref(m, key)?;
    match parse_signed(v.as_str(), min, max) {
        Some(n) => Ok(n),
        None => Err(int_error(key, v.as_str())),
    }
}

/// Reads a required unsigned integer field no larger than `max`.
pub fn unsigned_field(m: &IndexMap<String, String>, key: &str, max: u64) -> (r: VmfResult<u64>)
    ensures
        match r {
            Ok(n) => int_field(kv_entries(*m), key@, 0, max as int) == Ok::<int, ErrorView>(n as int),
            Err(e) => int_field(kv_entries(*m), key@, 0, max as int) == Err::<int, ErrorView>(e@),
        },
{
    let v = get_key_ref(m, key)?;
    match parse_unsigned(v.as_str(), max) {
        Some(n) => Ok(n),
        None => Err(int_error(key, v.as_str())),
    }
}

/// Reads an optional signed integer field within `min..=max`.
pub fn opt_signed_field(m: &IndexMap<String, String>, key: &str, min: i64, max: i64) -> (r: Option<i64>)
    requires
        min < 0 <= max,
        min > i64::MIN,
    ensures
        match opt_int_field(kv_entries(*m), key@, min as int, max as int) {
            Some(n) => r == Some(n as i64),
            None => r is None,
        },
{
    match kv_get(m, key) {
        Some(v) => parse_signed(v.as_str(), min, max),
        None => None,
    }
}

/// Reads an optional unsigned integer field no larger than `max`.
pub fn opt_unsigned_field(m: &IndexMap<String, String>, key: &str, max: u64) -> (r: Option<u64>)
    ensures
        match opt_int_field(kv_entries(*m), key@, 0, max as int) {
            Some(n) => r == Some(n as u64),
            None => r is None,
        },
{
    match kv_get(m, key) {
        Some(v) => parse_unsigned(v.as_str(), max),
        None => None,
    }
}

/// Reads a required flag.
pub fn flag_of(m: &IndexMap<String, String>, key: &str) -> (r: VmfResult<bool>)
    ensures
        match r {
            Ok(b) => flag_field(kv_entries(*m), key@) == Ok::<bool, ErrorView>(b),
            Err(e) => flag_field(kv_entries(*m), key@) == Err::<bool, ErrorView>(e@),
        },
{
    let v = get_key_ref(m, key)?;
    Ok(str_is_one(v.as_str()))
}

/// A copy of a required text field.
pub fn text_of(m: &IndexMap<String, String>, key: &str) -> (r: VmfResult<String>)
    ensures
        match r {
            Ok(s) => text_field(kv_entries(*m), key@) == Ok::<Seq<char>, ErrorView>(s@),
            Err(e) => text_field(kv_entries(*m), key@) == Err::<Seq<char>, ErrorView>(e@),
        },
{
    let v = get_key_ref(m, key)?;
    Ok(v.clone())
}

/// Adds an entry under a key that the map does not hold yet.
pub fn push_entry(m: &mut IndexMap<String, String>, k: &str, v: String)
    requires
        lookup(kv_entries(*old(m)), k@) is None,
    ensures
        kv_entries(*final(m)) == kv_entries(*old(m)).push((k@, v@)),
{
    kv_insert(m, k.to_string(), v);
}

} // verus!

verus! {

/// A key that no entry holds is absent from the lookups.
pub proof fn lemma_absent(s: Seq<(Seq<char>, Seq<char>)>, k: Seq<char>)
    requires
        forall|j: int| 0 <= j < s.len() ==> s[j].0 != k,
    ensures
        lookup(s, k) is None,
{
    lemma_key_index(s, k);
}

} // verus!

verus! {

/// Relies on `IndexMap`'s `Clone`, which copies every entry; nothing is
/// stated of the copy, so that derived `Clone` impls may call it.
pub assume_specification<K, V, S>[ <IndexMap<K, V, S> as Clone>::clone ](m: &IndexMap<K, V, S>) -> IndexMap<K, V, S>
    where
        K: Clone,
        V: Clone,
        S: Clone,
;

} // verus!
