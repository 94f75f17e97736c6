//! The metadata files kept in a group's `.meta` directory: `group.json` for
//! the group itself and `repo.json` for each repository, each holding a
//! description and the time it was created.
use vstd::prelude::*;
use crate::git_output::opt_view;

verus! {

/// The plain value of a JSON object's members: each a key with a string,
/// or `None` for `null`.
pub type MembersView = Seq<(Seq<char>, Option<Seq<char>>)>;

/// What `serde_json::to_string_pretty` gives for the JSON object made by
/// inserting these members, in order, into a `serde_json::Map`.
pub uninterp spec fn pretty_json_object(members: MembersView) -> Seq<char>;

/// What reading `text` as a JSON document gives for its member `key`: the
/// member's text when the document is an object whose member `key` is a
/// string, else `None`.
pub uninterp spec fn json_string_member(text: Seq<char>, key: Seq<char>) -> Option<Seq<char>>;

/// The plain value of a list of members.
pub open spec fn members_view(members: Seq<(String, Option<String>)>) -> MembersView {
    members.map_values(|m: (String, Option<String>)| (m.0@, opt_view(m.1)))
}

/// `serde_json::to_string_pretty` of the object whose members are inserted
/// in order, each a string or `null`; it cannot fail for such a value.
#[verifier::external_body]
fn json_pretty(members: &Vec<(String, Option<String>)>) -> (r: String)
    ensures
        r@ == pretty_json_object(members_view(members@)),
{
    let mut map = serde_json::Map::new();
    for (key, value) in members.iter() {
        let v = match value {
            Some(text) => serde_json::Value::String(text.clone()),
            None => serde_json::Value::Null,
        };
        map.insert(key.clone(), v);
    }
    serde_json::to_string_pretty(&serde_json::Value::Object(map)).unwrap_or_default()
}

/// `serde_json::from_str::<serde_json::Value>(text)`, then the member `key`
/// when it is a string.
#[verifier::external_body]
fn json_member(text: &str, key: &str) -> (r: Option<String>)
    ensures
        opt_view(r) == json_string_member(text@, key@),
{
    match serde_json::from_str::<serde_json::Value>(text) {
        Ok(v) => match v.get(key) {
            Some(serde_json::Value::String(s)) => Some(s.clone()),
            _ => None,
        },
        Err(_) => None,
    }
}

/// `chrono::Utc::now().to_rfc3339()`. The time is read from the clock, so
/// nothing is stated of it.
#[verifier::external_body]
fn now_rfc3339() -> (r: String) {
    chrono::Utc::now().to_rfc3339()
}

/// A plain optional string slice.
pub open spec fn opt_str(o: Option<&str>) -> Option<Seq<char>> {
    match o {
        Some(s) => Some(s@),
        None => None,
    }
}

/// A metadata file as it is written: the pretty-printed JSON object with
/// the members `description` (`null` when there is none) and `created_at`.
pub open spec fn meta_text(description: Option<Seq<char>>, created_at: Seq<char>) -> Seq<char> {
    pretty_json_object(seq![("description"@, description), ("created_at"@, Some(created_at))])
}

/// The text of a metadata file for a description, created at `created_at`.
pub fn meta_json(description: Option<&str>, created_at: &str) -> (r: String)
    ensures
        r@ == meta_text(opt_str(description), created_at@),
{
    let d = match description {
        Some(text) => Some(String::from_str(text)),
        None => None,
    };
    let members = vec![
        (String::from_str("description"), d),
        (String::from_str("created_at"), Some(String::from_str(created_at))),
    ];
    assert(members_view(members@) =~= seq![
        ("description"@, opt_str(description)),
        ("created_at"@, Some(created_at@)),
    ]);
    json_pretty(&members)
}

/// The text of a new metadata file for a description, created now.
pub fn new_meta_json(description: Option<&str>) -> (r: String)
    ensures
        exists|t: Seq<char>|
            r@ == #[trigger] meta_text(opt_str(description), t),
{
    let now = now_rfc3339();
    meta_json(description, now.as_str())
}

/// The description a group page shows: the `description` member of its
/// `group.json` when the file could be read (`file`) and holds one.
pub fn meta_description(file: Option<&str>) -> (r: Option<String>)
    ensures
        opt_view(r) == match file {
            Some(t) => json_string_member(t@, "description"@),
            None => None,
        },
{
    match file {
        Some(t) => json_member(t, "description"),
        None => None,
    }
}

} // verus!
