//! The settings as one JSON object, key to string value, built with
//! serde_json's object map.

use vstd::prelude::*;
use crate::db::{settings_view, SqlSetting};
use crate::table::{has_key, index_of, keys_unique, lemma_index_of_unique, lookup, RowView};

verus! {

#[verifier::external_type_specification]
#[verifier::external_body]
pub struct ExJsonValue(serde_json::Value);

#[verifier::external_type_specification]
#[verifier::external_body]
#[verifier::reject_recursive_types(K)]
#[verifier::reject_recursive_types(V)]
pub struct ExJsonMap<K, V>(serde_json::Map<K, V>);

/// A JSON object: member names to JSON values.
pub type JsonObject = serde_json::Map<String, serde_json::Value>;

/// Member names to string values, as the contracts see them.
pub type Members = Map<Seq<char>, Seq<char>>;

/// The members of a JSON object map whose value is a JSON string, with that
/// string.
pub uninterp spec fn string_members(m: JsonObject) -> Members;

/// Relies on serde_json::Map::new: a map with no members.
#[verifier::external_body]
fn empty_object() -> (m: JsonObject)
    ensures
        string_members(m) == Members::empty(),
{
    serde_json::Map::new()
}

/// Relies on serde_json::Map::insert: `k` now holds the JSON string `v`,
/// replacing what it held; the other members stay.
#[verifier::external_body]
fn insert_string(m: &mut JsonObject, k: String, v: String)
    ensures
        string_members(*final(m)) == string_members(*old(m)).insert(k@, v@),
{
    m.insert(k, serde_json::Value::String(v));
}

/// The object that writing each row in turn makes: a later row with a key
/// seen before replaces its value.
pub open spec fn object_of(s: Seq<RowView>) -> Members
    decreases s.len(),
{
    if s.len() == 0 {
        Map::empty()
    } else {
        object_of(s.drop_last()).insert(s.last().0, s.last().1)
    }
}

/// The string value of member `k`, if it has one.
pub open spec fn member(m: Members, k: Seq<char>) -> Option<Seq<char>> {
    if m.contains_key(k) {
        Some(m[k])
    } else {
        None
    }
}

/// Where keys are unique, each member of the object is the value stored under
/// its key, and the object has no other members.
pub proof fn lemma_object_of_unique(s: Seq<RowView>)
    requires
        keys_unique(s),
    ensures
        forall|k: Seq<char>| #[trigger] member(object_of(s), k) == lookup(s, k),
    decreases s.len(),
{
    if s.len() == 0 {
        assert forall|k: Seq<char>| #[trigger] member(object_of(s), k) == lookup(s, k) by {}
    } else {
        let f = s.drop_last();
        let n = s.len() - 1;
        assert(keys_unique(f));
        lemma_object_of_unique(f);
        lemma_index_of_unique(s, n);
        assert forall|k: Seq<char>| #[trigger] member(object_of(s), k) == lookup(s, k) by {
            assert(member(object_of(f), k) == lookup(f, k));
            if k != s[n].0 {
                if has_key(s, k) {
                    let i = index_of(s, k);
                    assert(s[i].0 == k);
                    assert(i < n);
                    assert(f[i].0 == k);
                    lemma_index_of_unique(f, i);
                    lemma_index_of_unique(s, i);
                }
                if has_key(f, k) {
                    let i = index_of(f, k);
                    assert(f[i].0 == k);
                    assert(s[i].0 == k);
                }
            }
        }
    }
}

/// The settings as a JSON object: each key holds its value as a JSON string.
pub fn settings_json(settings: &Vec<SqlSetting>) -> (m: JsonObject)
    ensures
        string_members(m) == object_of(settings_view(settings@)),
        keys_unique(settings_view(settings@)) ==> forall|k: Seq<char>|
            #[trigger] member(string_members(m), k) == lookup(settings_view(settings@), k),
{
    let ghost s = settings_view(settings@);
    let mut m = empty_object();
    let mut i: usize = 0;
    while i < settings.len()
        invariant
            s == settings_view(settings@),
            0 <= i <= settings@.len(),
            string_members(m) == object_of(s.take(i as int)),
        decreases settings@.len() - i,
    {
        let k = settings[i].key.clone();
        let v = settings[i].value.clone();
        assert(s.take(i + 1).drop_last() =~= s.take(i as int));
        assert(s[i as int] == (k@, v@));
        insert_string(&mut m, k, v);
        i = i + 1;
    }
    assert(s.take(i as int) =~= s);
    proof {
        if keys_unique(s) {
            lemma_object_of_unique(s);
        }
    }
    m
}

} // verus!
