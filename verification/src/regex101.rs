//! Rules on regex101.com, where their patterns can be tried.

use crate::json::{object_members, Json, JsonModel, Member, MemberModel};
use crate::text::glued;
use vstd::prelude::*;

verus! {

/// What the site answers to an upload.
#[derive(Debug)]
pub struct Regex101Session {
    pub version_delete_code: String,
    pub regex_delete_code: String,
    pub permalink_fragment: String,
    pub version: i32,
    pub is_library_entry: bool,
}

/// Where patterns are uploaded.
pub const UPLOADS: &'static str = "https://regex101.com/api/regex";

/// A member whose value is a text.
pub open spec fn text_member(key: Seq<char>, value: Seq<char>) -> MemberModel {
    MemberModel { key, value: JsonModel::Text(value) }
}

/// A member whose value is a text.
fn member_of(key: &str, value: &str) -> (r: Member)
    ensures
        r@ == text_member(key@, value@),
{
    Member { key: key.to_owned(), value: Json::Text(value.to_owned()) }
}

/// What is uploaded of a pattern.
///
/// The substitutions and unit tests are empty, but the site asks for them.
pub fn upload_body(pattern: &str) -> (r: Json)
    ensures
        r@ == JsonModel::Object(
            seq![
                text_member("regex"@, pattern@),
                text_member("flags"@, "gm"@),
                text_member("testString"@, "Enter your test content here."@),
                text_member("flavor"@, "pcre2"@),
                text_member("delimiter"@, "/"@),
                text_member("substitution"@, ""@),
                text_member("listSubstitution"@, ""@),
                MemberModel { key: "unitTests"@, value: JsonModel::Array(Seq::empty()) },
            ],
        ),
{
    let none: Vec<Json> = Vec::new();
    let tests = Member { key: "unitTests".to_owned(), value: Json::Array(none) };
    let members: Vec<Member> = vec![
        member_of("regex", pattern),
        member_of("flags", "gm"),
        member_of("testString", "Enter your test content here."),
        member_of("flavor", "pcre2"),
        member_of("delimiter", "/"),
        member_of("substitution", ""),
        member_of("listSubstitution", ""),
        tests,
    ];
    proof {
        object_members(members);
        assert(Json::Array(none)@->Array_0 =~= Seq::<JsonModel>::empty());
        assert(members@.map_values(|m: Member| m@) =~= seq![
            text_member("regex"@, pattern@),
            text_member("flags"@, "gm"@),
            text_member("testString"@, "Enter your test content here."@),
            text_member("flavor"@, "pcre2"@),
            text_member("delimiter"@, "/"@),
            text_member("substitution"@, ""@),
            text_member("listSubstitution"@, ""@),
            MemberModel { key: "unitTests"@, value: JsonModel::Array(Seq::empty()) },
        ]);
    }
    Json::Object(members)
}

/// The page of an upload.
pub fn session_page(session: &Regex101Session) -> (r: String)
    ensures
        r@ == "https://regex101.com/r/"@ + session.permalink_fragment@,
{
    glued("https://regex101.com/r/", session.permalink_fragment.as_str())
}

/// A member has its name and its text.
pub proof fn text_members_have_name_and_text(key: Seq<char>, value: Seq<char>)
    ensures
        text_member(key, value).key == key,
        text_member(key, value).value == JsonModel::Text(value),
{
}

} // verus!
