//! The calls this library makes into outside crates, with the contracts
//! that the rest of the library relies on.
use vstd::prelude::*;
use vstd::string::StringSliceAdditionalSpecFns;
use vstd::utf8::valid_utf8;

use crate::wire::parse_varint;
use dup_indexer::{DupIndexer, DupIndexerRefs};

verus! {

/// buffa's decoding error, carried only as far as the library maps it.
#[verifier::external_type_specification]
#[verifier::external_body]
pub struct ExDecodeError(buffa::DecodeError);

/// Reads a length-prefixed UTF-8 string field payload from `bytes[start..end]`
/// with `buffa::types::borrow_str`.
///
/// Trusted: that buffa reads the varint length prefix exactly as
/// [`parse_varint`] states (ten bytes at most, the tenth holding only the
/// 64th bit), fails when fewer bytes than the length follow, and otherwise
/// returns the following bytes as a `str` exactly when they are well-formed
/// UTF-8 (the Unicode 3.9 rule that `valid_utf8` states).
#[verifier::external_body]
pub(crate) fn borrow_str_at<'a>(bytes: &'a [u8], start: usize, end: usize) -> (r: Result<&'a str, buffa::DecodeError>)
    requires
        start <= end <= bytes@.len(),
    ensures
        ({
            let t = bytes@.subrange(start as int, end as int);
            match parse_varint(t) {
                Some((l, n)) => if n + l <= t.len() {
                    let p = t.subrange(n as int, (n + l) as int);
                    &&& valid_utf8(p) ==> (r matches Ok(s) && s.spec_bytes() == p)
                    &&& !valid_utf8(p) ==> r is Err
                } else {
                    r is Err
                },
                None => r is Err,
            }
        }),
{
    let mut cur = &bytes[start..end];
    buffa::types::borrow_str(&mut cur)
}

/// How many bytes of `rest` are left once `buffa::encoding::skip_field_depth`
/// has skipped the contents of group `num` at its start, end tag included,
/// with groups nesting at most `depth` deep; `None` where it refuses them.
pub uninterp spec fn skipped_group_rest(rest: Seq<u8>, num: u32, depth: u32) -> Option<nat>;

/// Skips the group `num` whose contents start at `pos`, up to and with its
/// end tag, with `buffa::encoding::skip_field_depth` and a start-group tag
/// for `num`: how many bytes of `s[pos..end]` are left after it.
///
/// Trusted: that the result is [`skipped_group_rest`] of those bytes, and
/// that no more bytes are left than there were, as buffa only reads forward.
#[verifier::external_body]
pub(crate) fn skip_group(s: &[u8], pos: usize, end: usize, num: u32, depth: u32) -> (r: Option<usize>)
    requires
        pos <= end <= s@.len(),
        1 <= num <= 536870911,
    ensures
        (r is Some) == (skipped_group_rest(s@.subrange(pos as int, end as int), num, depth) is Some),
        r matches Some(k) ==> k == skipped_group_rest(s@.subrange(pos as int, end as int), num, depth)->Some_0
            && k <= end - pos,
{
    let tag = buffa::encoding::Tag::new(num, buffa::encoding::WireType::StartGroup);
    let mut cur = &s[pos..end];
    match buffa::encoding::skip_field_depth(tag, &mut cur, depth) {
        Ok(()) => Some(cur.len()),
        Err(_) => None,
    }
}

/// Widens a `u32` index with `usize_cast::IntoUsize::into_usize`.
///
/// Trusted: that the conversion keeps the value (the crate only provides it
/// where `usize` has at least 32 bits).
#[verifier::external_body]
pub(crate) fn u32_to_usize(v: u32) -> (r: usize)
    ensures
        r == v,
{
    usize_cast::IntoUsize::into_usize(v)
}


/// dup-indexer's interning table of owned values.
#[verifier::external_type_specification]
#[verifier::external_body]
#[verifier::reject_recursive_types(T)]
#[verifier::reject_recursive_types(S)]
pub struct ExDupIndexer<T, S>(DupIndexer<T, S>);

/// A key table: dup-indexer's `DupIndexerRefs<String>`, which interns keys
/// looked up by reference. That type's parameter is bound by a trait of the
/// crate, so it cannot be declared as an outside type; the table is held
/// here instead.
#[verifier::external_body]
#[derive(Debug)]
pub struct KeyTable {
    table: DupIndexerRefs<String>,
}

/// The hasher that dup-indexer's tables are built with.
#[verifier::external_type_specification]
#[verifier::external_body]
pub struct ExTableHasher(dup_indexer::DefaultHashBuilder);

/// The keys a key table holds, in the order they were first inserted.
pub uninterp spec fn interned_keys(d: KeyTable) -> Seq<Seq<char>>;

/// The encoded values a value table holds, in the order they were first inserted.
pub uninterp spec fn interned_values(d: DupIndexer<Vec<u8>>) -> Seq<Seq<u8>>;

/// An empty key table, from `DupIndexerRefs::new`.
#[verifier::external_body]
pub(crate) fn new_key_table() -> (r: KeyTable)
    ensures
        interned_keys(r) == Seq::<Seq<char>>::empty(),
{
    KeyTable { table: DupIndexerRefs::new() }
}

/// Inserts a key with `DupIndexerRefs::insert_ref` and returns its index.
///
/// Trusted: a key already in the table leaves it unchanged and gives the
/// index it was stored at; a new key is stored after the others and gives
/// the table's former length.
#[verifier::external_body]
pub(crate) fn intern_key(d: &mut KeyTable, key: &str) -> (r: usize)
    ensures
        interned_keys(*old(d)).contains(key@) ==> interned_keys(*final(d)) == interned_keys(*old(d))
            && r < interned_keys(*old(d)).len() && interned_keys(*old(d))[r as int] == key@,
        !interned_keys(*old(d)).contains(key@) ==> interned_keys(*final(d)) == interned_keys(
            *old(d),
        ).push(key@) && r == interned_keys(*old(d)).len(),
{
    d.table.insert_ref(key)
}

/// The keys of a table, in order, from `DupIndexerRefs::into_vec`.
#[verifier::external_body]
pub(crate) fn key_table_into_vec(d: KeyTable) -> (r: Vec<String>)
    ensures
        r@.len() == interned_keys(d).len(),
        forall|i: int| 0 <= i < r@.len() ==> (#[trigger] r@[i])@ == interned_keys(d)[i],
{
    d.table.into_vec()
}

/// An empty value table, from `DupIndexer::new`.
#[verifier::external_body]
pub(crate) fn new_value_table() -> (r: DupIndexer<Vec<u8>>)
    ensures
        interned_values(r) == Seq::<Seq<u8>>::empty(),
{
    DupIndexer::new()
}

/// Inserts an encoded value with `DupIndexer::insert` and returns its index.
///
/// Trusted: bytes already in the table leave it unchanged and give the index
/// they were stored at; new bytes are stored after the others and give the
/// table's former length.
#[verifier::external_body]
pub(crate) fn intern_value(d: &mut DupIndexer<Vec<u8>>, value: Vec<u8>) -> (r: usize)
    ensures
        interned_values(*old(d)).contains(value@) ==> interned_values(*final(d)) == interned_values(
            *old(d),
        ) && r < interned_values(*old(d)).len() && interned_values(*old(d))[r as int] == value@,
        !interned_values(*old(d)).contains(value@) ==> interned_values(*final(d)) == interned_values(
            *old(d),
        ).push(value@) && r == interned_values(*old(d)).len(),
{
    d.insert(value)
}


/// The capacity of a vector, from `Vec::capacity`: the number of elements it
/// can hold without reallocating.
///
/// Trusted: that this is at least its length, as the elements it holds fit.
/// How much more it is, is what the allocator gave, and is not stated.
#[verifier::external_body]
pub(crate) fn vec_capacity<T>(v: &Vec<T>) -> (r: usize)
    ensures
        r >= v@.len(),
{
    v.capacity()
}

} // verus!
