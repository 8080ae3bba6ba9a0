//! Sets of cache keys.

use crate::text;
use dashmap::DashSet;
use vstd::prelude::*;

verus! {

/// `dashmap::DashSet`.
#[verifier::external_type_specification]
#[verifier::external_body]
#[verifier::reject_recursive_types(K)]
#[verifier::reject_recursive_types(S)]
pub struct ExDashSet<K, S>(DashSet<K, S>);

/// The keys that a set holds.
pub uninterp spec fn key_set(s: DashSet<String>) -> Set<Seq<char>>;

/// Whether a set has so many keys.
pub open spec fn has_count(s: Set<Seq<char>>, n: nat) -> bool {
    s.finite() && s.len() == n
}

/// `DashSet::new` makes a set without keys.
#[verifier::external_body]
pub(crate) fn no_keys() -> (out: DashSet<String>)
    ensures
        key_set(out).is_empty(),
{
    DashSet::new()
}

/// `DashSet::insert` adds a key, and tells whether it is new.
#[verifier::external_body]
pub(crate) fn insert(s: &mut DashSet<String>, key: String) -> (out: bool)
    ensures
        key_set(*final(s)) == key_set(*old(s)).insert(key@),
        out == !key_set(*old(s)).contains(key@),
{
    s.insert(key)
}

/// `DashSet::contains` tells whether a key is in the set.
#[verifier::external_body]
pub(crate) fn contains(s: &DashSet<String>, key: &str) -> (out: bool)
    ensures
        out == key_set(*s).contains(key@),
{
    s.contains(key)
}

/// `DashSet::len` counts the keys, of which there are finitely many.
#[verifier::external_body]
pub(crate) fn count(s: &DashSet<String>) -> (out: usize)
    ensures
        has_count(key_set(*s), out as nat),
{
    s.len()
}

/// Whether a list holds each of some keys exactly once, and nothing else.
pub open spec fn enumerates(list: Seq<Seq<char>>, keys: Set<Seq<char>>) -> bool {
    list.no_duplicates() && list.to_set() == keys
}

/// `DashSet::iter` walks all the keys, each once. Their order is left open.
#[verifier::external_body]
pub(crate) fn all(s: &DashSet<String>) -> (out: Vec<String>)
    ensures
        enumerates(text::texts(out@), key_set(*s)),
{
    s.iter().map(|key| key.clone()).collect()
}

} // verus!
