//! The shared maps of the server, kept in `dashmap::DashMap`s: what each of them holds, and what
//! its methods do to that.
//!
//! A map is changed through an exclusive reference, so that what it holds is a property of its
//! value.
use vstd::prelude::*;

use crate::net::SocketAddr;
use crate::tunnel::{AgentEntry, BindEntry};

verus! {

/// `dashmap::DashMap`, a hash map.
#[verifier::external_type_specification]
#[verifier::external_body]
#[verifier::reject_recursive_types(K)]
#[verifier::reject_recursive_types(V)]
#[verifier::reject_recursive_types(S)]
pub struct ExDashMap<K, V, S>(dashmap::DashMap<K, V, S>);

// ---------------------------------------------------------------------------------------------
// Numbers by text
// ---------------------------------------------------------------------------------------------

/// What a map from text to numbers holds.
pub uninterp spec fn numbers(map: dashmap::DashMap<String, u64>) -> Map<Seq<char>, u64>;

/// `DashMap::new`: an empty map.
#[verifier::external_body]
pub(crate) fn numbers_new() -> (res: dashmap::DashMap<String, u64>)
    ensures
        numbers(res) == (Map::<Seq<char>, u64>::empty()),
{
    dashmap::DashMap::new()
}

/// `DashMap::insert`: the key now has the value, whatever it had before.
#[verifier::external_body]
pub(crate) fn numbers_insert(map: &mut dashmap::DashMap<String, u64>, key: String, value: u64)
    ensures
        numbers(*final(map)) == numbers(*old(map)).insert(key@, value),
{
    map.insert(key, value);
}

/// `DashMap::get`: the value of the key.
#[verifier::external_body]
pub(crate) fn numbers_get(map: &dashmap::DashMap<String, u64>, key: &str) -> (res: Option<u64>)
    ensures
        res == numbers(*map).get(key@),
{
    map.get(key).map(|entry| *entry.value())
}

/// `DashMap::remove`: the key is gone.
#[verifier::external_body]
pub(crate) fn numbers_remove(map: &mut dashmap::DashMap<String, u64>, key: &str)
    ensures
        numbers(*final(map)) == numbers(*old(map)).remove(key@),
{
    map.remove(key);
}

/// `DashMap::len`: how many keys there are.
#[verifier::external_body]
pub(crate) fn numbers_len(map: &dashmap::DashMap<String, u64>) -> (res: usize)
    ensures
        res == numbers(*map).dom().len(),
{
    map.len()
}

/// `DashMap::iter`: each key once, with its value. Nothing is said of the order.
#[verifier::external_body]
pub(crate) fn numbers_items(map: &dashmap::DashMap<String, u64>) -> (res: Vec<(String, u64)>)
    ensures
        lists(res@, numbers(*map)),
{
    map.iter().map(|entry| (entry.key().clone(), *entry.value())).collect()
}

/// Whether a list holds each key of a map once, with its value, and nothing else.
pub open spec fn lists(items: Seq<(String, u64)>, map: Map<Seq<char>, u64>) -> bool {
    &&& forall|i: int|
        0 <= i < items.len() ==> map.contains_pair((#[trigger] items[i]).0@, items[i].1)
    &&& forall|key: Seq<char>| #[trigger]
        map.dom().contains(key) ==> exists|i: int| 0 <= i < items.len() && items[i].0@ == key
    &&& forall|i: int, j: int|
        0 <= i < j < items.len() ==> (#[trigger] items[i]).0@ != (#[trigger] items[j]).0@
}

// ---------------------------------------------------------------------------------------------
// Waiters by request number
// ---------------------------------------------------------------------------------------------

/// Which request numbers wait, each with the handle of its waiter.
pub uninterp spec fn requests(map: dashmap::DashMap<u32, u64>) -> Map<u32, u64>;

/// `DashMap::new`: an empty map.
#[verifier::external_body]
pub(crate) fn requests_new() -> (res: dashmap::DashMap<u32, u64>)
    ensures
        requests(res) == (Map::<u32, u64>::empty()),
{
    dashmap::DashMap::new()
}

/// `DashMap::insert`: the key now has the value, whatever it had before.
#[verifier::external_body]
pub(crate) fn requests_insert(map: &mut dashmap::DashMap<u32, u64>, key: u32, value: u64)
    ensures
        requests(*final(map)) == requests(*old(map)).insert(key, value),
{
    map.insert(key, value);
}

/// `DashMap::contains_key`: whether the key has a value.
#[verifier::external_body]
pub(crate) fn requests_contain(map: &dashmap::DashMap<u32, u64>, key: u32) -> (res: bool)
    ensures
        res == requests(*map).contains_key(key),
{
    map.contains_key(&key)
}

/// `DashMap::remove`: the key is gone, and its value is handed out.
#[verifier::external_body]
pub(crate) fn requests_remove(map: &mut dashmap::DashMap<u32, u64>, key: u32) -> (res: Option<u64>)
    ensures
        requests(*final(map)) == requests(*old(map)).remove(key),
        res == requests(*old(map)).get(key),
{
    map.remove(&key).map(|entry| entry.1)
}

/// `DashMap::clear`: nothing is left.
#[verifier::external_body]
pub(crate) fn requests_clear(map: &mut dashmap::DashMap<u32, u64>)
    ensures
        requests(*final(map)) == (Map::<u32, u64>::empty()),
{
    map.clear();
}

// ---------------------------------------------------------------------------------------------
// Waiters by token
// ---------------------------------------------------------------------------------------------

/// Which tokens wait, each with the handle of its waiter.
pub uninterp spec fn opens(map: dashmap::DashMap<[u8; 16], u64>) -> Map<[u8; 16], u64>;

/// `DashMap::new`: an empty map.
#[verifier::external_body]
pub(crate) fn opens_new() -> (res: dashmap::DashMap<[u8; 16], u64>)
    ensures
        opens(res) == (Map::<[u8; 16], u64>::empty()),
{
    dashmap::DashMap::new()
}

/// `DashMap::insert`: the key now has the value, whatever it had before.
#[verifier::external_body]
pub(crate) fn opens_insert(map: &mut dashmap::DashMap<[u8; 16], u64>, key: [u8; 16], value: u64)
    ensures
        opens(*final(map)) == opens(*old(map)).insert(key, value),
{
    map.insert(key, value);
}

/// `DashMap::contains_key`: whether the key has a value.
#[verifier::external_body]
pub(crate) fn opens_contain(map: &dashmap::DashMap<[u8; 16], u64>, key: &[u8; 16]) -> (res: bool)
    ensures
        res == opens(*map).contains_key(*key),
{
    map.contains_key(key)
}

/// `DashMap::remove`: the key is gone, and its value is handed out.
#[verifier::external_body]
pub(crate) fn opens_remove(map: &mut dashmap::DashMap<[u8; 16], u64>, key: &[u8; 16]) -> (res:
    Option<u64>)
    ensures
        opens(*final(map)) == opens(*old(map)).remove(*key),
        res == opens(*old(map)).get(*key),
{
    map.remove(key).map(|entry| entry.1)
}

/// `DashMap::clear`: nothing is left.
#[verifier::external_body]
pub(crate) fn opens_clear(map: &mut dashmap::DashMap<[u8; 16], u64>)
    ensures
        opens(*final(map)) == (Map::<[u8; 16], u64>::empty()),
{
    map.clear();
}

// ---------------------------------------------------------------------------------------------
// Agents by name
// ---------------------------------------------------------------------------------------------

/// Which agents are connected.
pub uninterp spec fn agents(map: dashmap::DashMap<String, AgentEntry>) -> Map<Seq<char>, AgentEntry>;

/// `DashMap::new`: an empty map.
#[verifier::external_body]
pub(crate) fn agents_new() -> (res: dashmap::DashMap<String, AgentEntry>)
    ensures
        agents(res) == (Map::<Seq<char>, AgentEntry>::empty()),
{
    dashmap::DashMap::new()
}

/// `DashMap::insert`: the key now has the value, whatever it had before.
#[verifier::external_body]
pub(crate) fn agents_insert(
    map: &mut dashmap::DashMap<String, AgentEntry>,
    key: String,
    value: AgentEntry,
)
    ensures
        agents(*final(map)) == agents(*old(map)).insert(key@, value),
{
    map.insert(key, value);
}

/// `DashMap::contains_key`: whether the key has a value.
#[verifier::external_body]
pub(crate) fn agents_contain(map: &dashmap::DashMap<String, AgentEntry>, key: &str) -> (res: bool)
    ensures
        res == agents(*map).contains_key(key@),
{
    map.contains_key(key)
}

/// `DashMap::remove`: the key is gone, and its value is handed out.
#[verifier::external_body]
pub(crate) fn agents_remove(map: &mut dashmap::DashMap<String, AgentEntry>, key: &str) -> (res:
    Option<AgentEntry>)
    ensures
        agents(*final(map)) == agents(*old(map)).remove(key@),
        res == agents(*old(map)).get(key@),
{
    map.remove(key).map(|entry| entry.1)
}

/// `DashMap::iter`: each key once. Nothing is said of the order.
#[verifier::external_body]
pub(crate) fn agents_keys(map: &dashmap::DashMap<String, AgentEntry>) -> (res: Vec<String>)
    ensures
        forall|i: int| 0 <= i < res@.len() ==> agents(*map).contains_key((#[trigger] res@[i])@),
        forall|key: Seq<char>| #[trigger]
            agents(*map).contains_key(key) ==> exists|i: int|
                0 <= i < res@.len() && res@[i]@ == key,
        forall|i: int, j: int|
            0 <= i < j < res@.len() ==> (#[trigger] res@[i])@ != (#[trigger] res@[j])@,
{
    map.iter().map(|entry| entry.key().clone()).collect()
}

// ---------------------------------------------------------------------------------------------
// Open ports
// ---------------------------------------------------------------------------------------------

/// Which ports are open.
pub uninterp spec fn binds(map: dashmap::DashMap<u16, BindEntry>) -> Map<u16, BindEntry>;

/// `DashMap::new`: an empty map.
#[verifier::external_body]
pub(crate) fn binds_new() -> (res: dashmap::DashMap<u16, BindEntry>)
    ensures
        binds(res) == (Map::<u16, BindEntry>::empty()),
{
    dashmap::DashMap::new()
}

/// `DashMap::insert`: the key now has the value, whatever it had before.
#[verifier::external_body]
pub(crate) fn binds_insert(map: &mut dashmap::DashMap<u16, BindEntry>, key: u16, value: BindEntry)
    ensures
        binds(*final(map)) == binds(*old(map)).insert(key, value),
{
    map.insert(key, value);
}

/// `DashMap::contains_key`: whether the key has a value.
#[verifier::external_body]
pub(crate) fn binds_contain(map: &dashmap::DashMap<u16, BindEntry>, key: u16) -> (res: bool)
    ensures
        res == binds(*map).contains_key(key),
{
    map.contains_key(&key)
}

/// `DashMap::remove`: the key is gone, and its value is handed out.
#[verifier::external_body]
pub(crate) fn binds_remove(map: &mut dashmap::DashMap<u16, BindEntry>, key: u16) -> (res: Option<
    BindEntry,
>)
    ensures
        binds(*final(map)) == binds(*old(map)).remove(key),
        res == binds(*old(map)).get(key),
{
    map.remove(&key).map(|entry| entry.1)
}

/// `DashMap::iter`: each key once. Nothing is said of the order.
#[verifier::external_body]
pub(crate) fn binds_keys(map: &dashmap::DashMap<u16, BindEntry>) -> (res: Vec<u16>)
    ensures
        forall|i: int| 0 <= i < res@.len() ==> binds(*map).contains_key(#[trigger] res@[i]),
        forall|key: u16| #[trigger] binds(*map).contains_key(key) ==> res@.contains(key),
        res@.no_duplicates(),
{
    map.iter().map(|entry| *entry.key()).collect()
}

// ---------------------------------------------------------------------------------------------
// Resolved names
// ---------------------------------------------------------------------------------------------

/// Which names were resolved, each to its address and at its time.
pub uninterp spec fn names(map: dashmap::DashMap<String, (SocketAddr, u64)>) -> Map<
    Seq<char>,
    (SocketAddr, u64),
>;

/// `DashMap::new`: an empty map.
#[verifier::external_body]
pub(crate) fn names_new() -> (res: dashmap::DashMap<String, (SocketAddr, u64)>)
    ensures
        names(res) == (Map::<Seq<char>, (SocketAddr, u64)>::empty()),
{
    dashmap::DashMap::new()
}

/// `DashMap::insert`: the key now has the value, whatever it had before.
#[verifier::external_body]
pub(crate) fn names_insert(
    map: &mut dashmap::DashMap<String, (SocketAddr, u64)>,
    key: String,
    value: (SocketAddr, u64),
)
    ensures
        names(*final(map)) == names(*old(map)).insert(key@, value),
{
    map.insert(key, value);
}

/// `DashMap::get`: the value of the key.
#[verifier::external_body]
pub(crate) fn names_get(map: &dashmap::DashMap<String, (SocketAddr, u64)>, key: &str) -> (res:
    Option<(SocketAddr, u64)>)
    ensures
        res == names(*map).get(key@),
{
    map.get(key).map(|entry| *entry.value())
}

/// `DashMap::remove`: the key is gone.
#[verifier::external_body]
pub(crate) fn names_remove(map: &mut dashmap::DashMap<String, (SocketAddr, u64)>, key: &str)
    ensures
        names(*final(map)) == names(*old(map)).remove(key@),
{
    map.remove(key);
}

} // verus!
