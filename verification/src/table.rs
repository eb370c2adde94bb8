//! The table of listeners, a `DashMap` from event names to listeners, and
//! the ids that new listeners get.

use crate::listener::{views, AsyncListener};
use dashmap::DashMap;
use uuid::Uuid;
use vstd::prelude::*;

verus! {

#[verifier::external_type_specification]
#[verifier::external_body]
#[verifier::reject_recursive_types(K)]
#[verifier::reject_recursive_types(V)]
#[verifier::reject_recursive_types(S)]
pub struct ExDashMap<K, V, S>(DashMap<K, V, S>);

/// What a table holds: for each event name, the views of its listeners in
/// the order the table keeps them.
pub uninterp spec fn listener_table(m: DashMap<String, Vec<AsyncListener>>) -> Map<
    Seq<char>,
    Seq<(Seq<char>, Option<u64>)>,
>;

/// `DashMap::new`: a table that holds no event.
#[verifier::external_body]
pub(crate) fn table_new() -> (m: DashMap<String, Vec<AsyncListener>>)
    ensures
        listener_table(m) =~= Map::empty(),
{
    DashMap::new()
}

/// `DashMap::clone`: a second table holding copies of the same entries.
#[verifier::external_body]
pub(crate) fn table_clone(m: &DashMap<String, Vec<AsyncListener>>) -> (r: DashMap<
    String,
    Vec<AsyncListener>,
>)
    ensures
        listener_table(r) == listener_table(*m),
{
    m.clone()
}

/// `DashMap::remove`: takes the entry of `key` out of the table and hands
/// back its key and listeners; `None` where the table had no entry for it.
#[verifier::external_body]
pub(crate) fn table_remove(m: &mut DashMap<String, Vec<AsyncListener>>, key: &str) -> (r: Option<
    (String, Vec<AsyncListener>),
>)
    ensures
        r is Some <==> listener_table(*old(m)).dom().contains(key@),
        r matches Some(kv) ==> kv.0@ == key@ && views(kv.1@) == listener_table(*old(m))[key@],
        listener_table(*final(m)) == listener_table(*old(m)).remove(key@),
{
    m.remove(key)
}

/// `DashMap::insert`: makes `value` the listeners of `key`, and hands back
/// those it replaced, if the table had an entry for `key`.
#[verifier::external_body]
pub(crate) fn table_insert(
    m: &mut DashMap<String, Vec<AsyncListener>>,
    key: String,
    value: Vec<AsyncListener>,
) -> (r: Option<Vec<AsyncListener>>)
    ensures
        listener_table(*final(m)) == listener_table(*old(m)).insert(key@, views(value@)),
        r is Some <==> listener_table(*old(m)).dom().contains(key@),
        r matches Some(v) ==> views(v@) == listener_table(*old(m))[key@],
{
    m.insert(key, value)
}

/// `DashMap::get`, with the listeners it finds copied out of the entry.
#[verifier::external_body]
pub(crate) fn table_get(m: &DashMap<String, Vec<AsyncListener>>, key: &str) -> (r: Option<
    Vec<AsyncListener>,
>)
    ensures
        r is Some <==> listener_table(*m).dom().contains(key@),
        r matches Some(v) ==> views(v@) == listener_table(*m)[key@],
{
    m.get(key).map(|entry| entry.value().clone())
}

/// `DashMap::iter`, with the key of each entry copied out: each event of
/// the table once. The order follows the table's shards and hashes, which
/// rest on a hasher seeded per process; no clause speaks of it.
#[verifier::external_body]
pub(crate) fn table_events(m: &DashMap<String, Vec<AsyncListener>>) -> (keys: Vec<String>)
    ensures
        forall|i: int| 0 <= i < keys.len() ==> listener_table(*m).dom().contains(#[trigger] keys@[i]@),
        forall|e: Seq<char>|
            #[trigger] listener_table(*m).dom().contains(e) ==> exists|i: int|
                0 <= i < keys.len() && keys@[i]@ == e,
        forall|i: int, j: int| 0 <= i < j < keys.len() ==> keys@[i]@ != keys@[j]@,
{
    m.iter().map(|entry| entry.key().clone()).collect()
}

/// A lower-case hexadecimal digit.
pub open spec fn is_lower_hex_digit(c: char) -> bool {
    ('0' <= c && c <= '9') || ('a' <= c && c <= 'f')
}

/// The hyphenated lower-case text of a version 4 UUID: 36 characters,
/// hyphens at places 8, 13, 18 and 23, lower-case hexadecimal digits
/// elsewhere, the version digit `4` at place 14 and the variant digit, one
/// of `8`, `9`, `a`, `b`, at place 19.
pub open spec fn is_uuid_v4_text(s: Seq<char>) -> bool {
    &&& s.len() == 36
    &&& forall|i: int|
        0 <= i < 36 ==> if i == 8 || i == 13 || i == 18 || i == 23 {
            s[i] == '-'
        } else {
            is_lower_hex_digit(#[trigger] s[i])
        }
    &&& s[14] == '4'
    &&& (s[19] == '8' || s[19] == '9' || s[19] == 'a' || s[19] == 'b')
}

/// `Uuid::new_v4`, written out by `to_string`: a random id in the
/// hyphenated lower-case form of a version 4 UUID. Which id comes back
/// rests on the operating system's random source, so nothing is said of
/// two ids differing; the call panics where that source fails, which
/// nothing here rules out.
#[verifier::external_body]
pub(crate) fn fresh_listener_id() -> (id: String)
    ensures
        is_uuid_v4_text(id@),
{
    Uuid::new_v4().to_string()
}

} // verus!
