//! Tables from one text to another, shared across the calls of a session.
//!
//! The table itself is the `dashmap` crate's. It can be changed through a shared
//! reference; here it is only ever changed through an exclusive one, so that
//! what a table holds is a matter of what was done to it in order.
use vstd::prelude::*;

verus! {

/// The `dashmap` crate's map.
#[verifier::external_type_specification]
#[verifier::external_body]
#[verifier::reject_recursive_types(K)]
#[verifier::reject_recursive_types(V)]
#[verifier::reject_recursive_types(S)]
pub struct ExDashMap<K, V, S>(dashmap::DashMap<K, V, S>);

/// What a table holds.
pub uninterp spec fn contents(table: dashmap::DashMap<String, String>) -> Map<Seq<char>, Seq<char>>;

/// `DashMap::new`: a table that holds nothing.
#[verifier::external_body]
pub(crate) fn empty() -> (r: dashmap::DashMap<String, String>)
    ensures
        contents(r).dom() == Set::<Seq<char>>::empty(),
{
    dashmap::DashMap::new()
}

/// `DashMap::insert`: the key stands for the value, whatever it stood for before.
#[verifier::external_body]
pub(crate) fn insert(table: &mut dashmap::DashMap<String, String>, key: &str, value: &str)
    ensures
        contents(*final(table)) == contents(*old(table)).insert(key@, value@),
{
    table.insert(key.to_string(), value.to_string());
}

/// `DashMap::get`: the value the key stands for, copied.
#[verifier::external_body]
pub(crate) fn get(table: &dashmap::DashMap<String, String>, key: &str) -> (r: Option<String>)
    ensures
        match r {
            Some(v) => contents(*table).dom().contains(key@) && contents(*table)[key@] == v@,
            None => !contents(*table).dom().contains(key@),
        },
{
    table.get(key).map(|entry| entry.value().clone())
}

/// `DashMap::remove`: the key stands for nothing any more. Says whether it did.
#[verifier::external_body]
pub(crate) fn remove(table: &mut dashmap::DashMap<String, String>, key: &str) -> (r: bool)
    ensures
        contents(*final(table)) == contents(*old(table)).remove(key@),
        r == contents(*old(table)).dom().contains(key@),
{
    table.remove(key).is_some()
}

/// Whether the pairs are all the keys of a map with their values, each once.
pub open spec fn lists(pairs: Seq<(String, String)>, map: Map<Seq<char>, Seq<char>>) -> bool {
    &&& forall|i: int|
        0 <= i < pairs.len() ==> map.dom().contains((#[trigger] pairs[i]).0@) && map[pairs[i].0@]
            == pairs[i].1@
    &&& forall|i: int, j: int|
        0 <= i < j < pairs.len() ==> (#[trigger] pairs[i]).0@ != (#[trigger] pairs[j]).0@
    &&& forall|key: Seq<char>| #[trigger]
        map.dom().contains(key) ==> exists|i: int|
            0 <= i < pairs.len() && (#[trigger] pairs[i]).0@ == key
}

/// `DashMap::iter`: every key with its value, copied, each once. The order is
/// open: it depends on how the keys were hashed.
#[verifier::external_body]
pub(crate) fn pairs(table: &dashmap::DashMap<String, String>) -> (r: Vec<(String, String)>)
    ensures
        lists(r@, contents(*table)),
{
    table.iter().map(|entry| (entry.key().clone(), entry.value().clone())).collect()
}

} // verus!
