//! The server's two maps: documents by address, and settings by name.

use crate::document::{rope_shown, rope_text};
use crate::json::{Json, JsonModel};
use dashmap::DashMap;
use ropey::Rope;
use vstd::prelude::*;

verus! {

/// `dashmap::DashMap`: a map. What the two maps of the server hold is named by
/// [`documents_held`], [`documents_shown`] and [`params_held`].
#[verifier::external_type_specification]
#[verifier::external_body]
#[verifier::reject_recursive_types(K)]
#[verifier::reject_recursive_types(V)]
#[verifier::reject_recursive_types(S)]
pub struct ExDashMap<K, V, S>(DashMap<K, V, S>);

/// The texts of the documents that a map holds.
pub uninterp spec fn documents_held(map: DashMap<String, Rope>) -> Map<Seq<char>, Seq<char>>;

/// What the documents that a map holds show of their lines.
pub uninterp spec fn documents_shown(map: DashMap<String, Rope>) -> Map<
    Seq<char>,
    Seq<Option<Seq<char>>>,
>;

/// The values of the settings that a map holds.
pub uninterp spec fn params_held(map: DashMap<String, Json>) -> Map<Seq<char>, JsonModel>;

/// `DashMap::new`: a map without documents.
#[verifier::external_body]
pub(crate) fn no_documents() -> (r: DashMap<String, Rope>)
    ensures
        forall|key: Seq<char>| !documents_held(r).contains_key(key),
        forall|key: Seq<char>| !documents_shown(r).contains_key(key),
{
    DashMap::new()
}

/// `DashMap::insert`: the document at `key` is the one given; the others stay.
#[verifier::external_body]
pub(crate) fn insert_document(map: &mut DashMap<String, Rope>, key: String, value: Rope)
    ensures
        documents_held(*final(map)) == documents_held(*old(map)).insert(key@, rope_text(value)),
        documents_shown(*final(map)) == documents_shown(*old(map)).insert(key@, rope_shown(value)),
{
    map.insert(key, value);
}

/// `DashMap::get`: a copy of the document at `key`, where there is one. A copy of a rope shares its
/// text and the pieces it is kept in.
#[verifier::external_body]
pub(crate) fn get_document(map: &DashMap<String, Rope>, key: &str) -> (r: Option<Rope>)
    ensures
        r is Some <==> documents_held(*map).contains_key(key@),
        r is Some <==> documents_shown(*map).contains_key(key@),
        r matches Some(rope) ==> rope_text(rope) == documents_held(*map)[key@],
        r matches Some(rope) ==> rope_shown(rope) == documents_shown(*map)[key@],
{
    match map.get(key) {
        Some(held) => Some(held.value().clone()),
        None => None,
    }
}

/// `DashMap::new`: a map without settings.
#[verifier::external_body]
pub(crate) fn no_params() -> (r: DashMap<String, Json>)
    ensures
        forall|key: Seq<char>| !params_held(r).contains_key(key),
{
    DashMap::new()
}

/// `DashMap::insert`: the setting at `key` is the one given; the others stay.
#[verifier::external_body]
pub(crate) fn insert_param(map: &mut DashMap<String, Json>, key: String, value: Json)
    ensures
        params_held(*final(map)) == params_held(*old(map)).insert(key@, value@),
{
    map.insert(key, value);
}

/// `DashMap::get`: a copy of the setting at `key`, where there is one.
#[verifier::external_body]
pub(crate) fn get_param(map: &DashMap<String, Json>, key: &str) -> (r: Option<Json>)
    ensures
        r is Some <==> params_held(*map).contains_key(key@),
        r matches Some(value) ==> value@ == params_held(*map)[key@],
{
    match map.get(key) {
        Some(held) => Some(held.value().clone()),
        None => None,
    }
}

} // verus!
