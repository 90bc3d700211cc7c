//! The settings that a client sends.

use crate::json::{
    as_text, last_of_a_name_counts, member, text_array, text_array_read_back, JsonModel, MemberModel,
};
use crate::path::starts_with;
use crate::workspace::{innermost, innermost_root_wins};
use vstd::prelude::*;

verus! {

/// The setting `key`, where there is one.
pub open spec fn setting(params: Map<Seq<char>, JsonModel>, key: Seq<char>) -> Option<JsonModel> {
    if params.contains_key(key) {
        Some(params[key])
    } else {
        None
    }
}

/// The text of the setting `key`; empty where there is none or it is no text.
pub open spec fn text_setting(params: Map<Seq<char>, JsonModel>, key: Seq<char>) -> Seq<char> {
    match setting(params, key) {
        Some(JsonModel::Text(text)) => text,
        _ => Seq::empty(),
    }
}

/// Whether the setting `key` is `true`.
pub open spec fn is_on(params: Map<Seq<char>, JsonModel>, key: Seq<char>) -> bool {
    setting(params, key) == Some(JsonModel::Bool(true))
}

/// The directories that the client works in.
pub open spec fn roots_of(params: Map<Seq<char>, JsonModel>) -> Seq<Seq<char>> {
    match setting(params, "roots"@) {
        Some(JsonModel::Array(items)) => items.filter_map(|j: JsonModel| as_text(j)),
        _ => Seq::empty(),
    }
}

/// The settings with other directories to work in.
pub open spec fn with_roots(params: Map<Seq<char>, JsonModel>, roots: Seq<Seq<char>>) -> Map<
    Seq<char>,
    JsonModel,
> {
    params.insert("roots"@, text_array(roots))
}

/// The directory to run the linter in where there is no document: the one that was asked for,
/// else the first that the client works in.
pub open spec fn root_dir(params: Map<Seq<char>, JsonModel>) -> Seq<char> {
    let asked = text_setting(params, "root"@);
    if asked.len() > 0 {
        asked
    } else if roots_of(params).len() > 0 {
        roots_of(params)[0]
    } else {
        Seq::empty()
    }
}

/// The directory to run the linter in for the file `path`: the one that was asked for, else the
/// innermost that holds the file, else the one for no document.
pub open spec fn root_dir_for(params: Map<Seq<char>, JsonModel>, path: Seq<char>) -> Seq<char> {
    let asked = text_setting(params, "root"@);
    if asked.len() > 0 {
        asked
    } else {
        match innermost(roots_of(params), path) {
            Some(root) => root,
            None => root_dir(params),
        }
    }
}

/// The settings with those of an object put in.
pub open spec fn merged(params: Map<Seq<char>, JsonModel>, members: Seq<MemberModel>) -> Map<
    Seq<char>,
    JsonModel,
>
    decreases members.len(),
{
    if members.len() == 0 {
        params
    } else {
        merged(params, members.drop_last()).insert(members.last().key, members.last().value)
    }
}

/// The settings once a client has sent `sent`: an object is put in, all else is passed over.
pub open spec fn after(params: Map<Seq<char>, JsonModel>, sent: Option<JsonModel>) -> Map<
    Seq<char>,
    JsonModel,
> {
    match sent {
        Some(JsonModel::Object(members)) => merged(params, members),
        _ => params,
    }
}

/// The settings in what a client pushed: the object below `vale` where there is one, else the
/// object itself.
pub open spec fn unwrapped(pushed: JsonModel) -> Option<JsonModel> {
    match pushed {
        JsonModel::Object(members) => match member(members, "vale"@) {
            Some(JsonModel::Object(inner)) => Some(JsonModel::Object(inner)),
            _ => Some(pushed),
        },
        _ => None,
    }
}

/// Directories that were set are read back.
pub proof fn roots_are_read_back(params: Map<Seq<char>, JsonModel>, roots: Seq<Seq<char>>)
    ensures
        roots_of(with_roots(params, roots)) == roots,
{
    text_array_read_back(roots);
}

/// Settings that were sent are read back, the later of two with one name; the others stay.
pub proof fn settings_are_read_back(
    params: Map<Seq<char>, JsonModel>,
    members: Seq<MemberModel>,
    key: Seq<char>,
)
    ensures
        setting(merged(params, members), key) == match member(members, key) {
            Some(value) => Some(value),
            None => setting(params, key),
        },
    decreases members.len(),
{
    if members.len() > 0 {
        settings_are_read_back(params, members.drop_last(), key);
    }
}

/// The directories that a client opens stay until a setting `roots` takes their place.
pub proof fn opened_roots_stay(
    params: Map<Seq<char>, JsonModel>,
    roots: Seq<Seq<char>>,
    sent: Option<JsonModel>,
)
    requires
        sent matches Some(JsonModel::Object(members)) ==> member(members, "roots"@) is None,
    ensures
        roots_of(after(with_roots(params, roots), sent)) == roots,
{
    let opened = with_roots(params, roots);
    roots_are_read_back(params, roots);
    if let Some(JsonModel::Object(members)) = sent {
        settings_are_read_back(opened, members, "roots"@);
    }
}

/// Settings come to the same whether a client sends them as they are or below `vale`.
pub proof fn scoped_settings_count_alike(params: Map<Seq<char>, JsonModel>, members: Seq<MemberModel>)
    requires
        !(member(members, "vale"@) is Some && member(members, "vale"@)->0 is Object),
    ensures
        after(
            params,
            unwrapped(
                JsonModel::Object(
                    seq![MemberModel { key: "vale"@, value: JsonModel::Object(members) }],
                ),
            ),
        ) == after(params, unwrapped(JsonModel::Object(members))),
{
    let outer = seq![MemberModel { key: "vale"@, value: JsonModel::Object(members) }];
    assert(outer.last() == outer[0]);
    assert(member(outer, "vale"@) == Some(JsonModel::Object(members)));
}

/// A directory that was asked for is where the linter runs, for every file.
pub proof fn asked_for_root_wins(params: Map<Seq<char>, JsonModel>, path: Seq<char>)
    requires
        text_setting(params, "root"@).len() > 0,
    ensures
        root_dir(params) == text_setting(params, "root"@),
        root_dir_for(params, path) == text_setting(params, "root"@),
{
}

/// A setting is what the settings hold under its name, and its text is that of a text and empty of
/// anything else; it is on only where it is `true`.
pub proof fn settings_are_what_they_hold(params: Map<Seq<char>, JsonModel>, key: Seq<char>)
    ensures
        !params.contains_key(key) ==> setting(params, key) is None && text_setting(
            params,
            key,
        ).len() == 0 && !is_on(params, key),
        params.contains_key(key) ==> setting(params, key) == Some(params[key]),
        params.contains_key(key) ==> match params[key] {
            JsonModel::Text(text) => text_setting(params, key) == text && !is_on(params, key),
            JsonModel::Bool(b) => text_setting(params, key).len() == 0 && is_on(params, key) == b,
            _ => text_setting(params, key).len() == 0 && !is_on(params, key),
        },
{
}

/// The directories to work in are the texts of the setting `roots`, in their order, where it is an
/// array; setting them changes no other setting.
pub proof fn roots_are_the_texts_of_their_setting(
    params: Map<Seq<char>, JsonModel>,
    front: Seq<JsonModel>,
    item: JsonModel,
    roots: Seq<Seq<char>>,
    key: Seq<char>,
)
    ensures
        !params.contains_key("roots"@) ==> roots_of(params).len() == 0,
        params.contains_key("roots"@) && !(params["roots"@] is Array) ==> roots_of(params).len()
            == 0,
        roots_of(params.insert("roots"@, JsonModel::Array(Seq::empty()))).len() == 0,
        roots_of(params.insert("roots"@, JsonModel::Array(front.push(item)))) == match item {
            JsonModel::Text(text) => roots_of(
                params.insert("roots"@, JsonModel::Array(front)),
            ).push(text),
            _ => roots_of(params.insert("roots"@, JsonModel::Array(front))),
        },
        key != "roots"@ ==> setting(with_roots(params, roots), key) == setting(params, key),
{
    let f = |j: JsonModel| as_text(j);
    assert(front.push(item).drop_last() =~= front);
    assert(Seq::<JsonModel>::empty().filter_map(f) =~= Seq::<Seq<char>>::empty());
    if let JsonModel::Text(text) = item {
        assert(front.push(item).filter_map(f) =~= front.filter_map(f).push(text));
    }
}

/// With no directory asked for, the linter runs for a file in the folder of the workspace that holds
/// it and lies in every other that does, wherever that stands among the folders; and in the first
/// folder only where none holds the file.
pub proof fn linter_runs_in_the_folder_that_holds_the_file(
    params: Map<Seq<char>, JsonModel>,
    path: Seq<char>,
)
    requires
        text_setting(params, "root"@).len() == 0,
    ensures
        (exists|i: int|
            0 <= i < roots_of(params).len() && starts_with(path, #[trigger] roots_of(params)[i]))
            ==> {
            &&& roots_of(params).contains(root_dir_for(params, path))
            &&& starts_with(path, root_dir_for(params, path))
            &&& Some(root_dir_for(params, path)) == innermost(roots_of(params), path)
            &&& forall|i: int|
                0 <= i < roots_of(params).len() && starts_with(path, #[trigger] roots_of(params)[i])
                    ==> starts_with(root_dir_for(params, path), roots_of(params)[i])
        },
        (forall|i: int|
            0 <= i < roots_of(params).len() ==> !starts_with(path, #[trigger] roots_of(params)[i]))
            ==> {
            &&& roots_of(params).len() > 0 ==> root_dir_for(params, path) == roots_of(params)[0]
            &&& roots_of(params).len() == 0 ==> root_dir_for(params, path).len() == 0
        },
        roots_of(params).len() > 0 ==> root_dir(params) == roots_of(params)[0],
        roots_of(params).len() == 0 ==> root_dir(params).len() == 0,
{
    innermost_root_wins(roots_of(params), path);
}

/// Settings that are sent take the place of those with their names, the last of a name counts, and
/// no other setting changes; what is no object changes nothing.
pub proof fn only_what_is_sent_changes(
    params: Map<Seq<char>, JsonModel>,
    sent: Option<JsonModel>,
    key: Seq<char>,
)
    ensures
        !(sent is Some && sent->0 is Object) ==> after(params, sent) == params,
        sent is Some && sent->0 is Object ==> {
            let members = sent->0->Object_0;
            &&& (forall|i: int| 0 <= i < members.len() ==> (#[trigger] members[i]).key != key)
                ==> setting(after(params, sent), key) == setting(params, key)
            &&& forall|i: int|
                0 <= i < members.len() && (#[trigger] members[i]).key == key && (forall|j: int|
                    i < j < members.len() ==> (#[trigger] members[j]).key != key) ==> setting(
                    after(params, sent),
                    key,
                ) == Some(members[i].value)
        },
{
    if sent is Some && sent->0 is Object {
        let members = sent->0->Object_0;
        settings_are_read_back(params, members, key);
        last_of_a_name_counts(members, key);
    }
}

/// What a client pushed is its settings, unless it holds an object below `vale`: then that is. What
/// is no object is none.
pub proof fn pushed_settings_may_lie_below_a_name(pushed: JsonModel)
    ensures
        !(pushed is Object) ==> unwrapped(pushed) is None,
        pushed is Object ==> match member(pushed->Object_0, "vale"@) {
            Some(JsonModel::Object(inner)) => unwrapped(pushed) == Some(JsonModel::Object(inner)),
            _ => unwrapped(pushed) == Some(pushed),
        },
{
}

} // verus!
