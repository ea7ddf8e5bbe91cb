//! The header of a bulk operation.

use crate::utils::json::{get_member, member, Json, JsonView};
use vstd::prelude::*;

verus! {

/// The member `name` of an object, where it is text.
pub open spec fn text_member(v: JsonView, name: Seq<char>) -> Option<Seq<char>> {
    match member(v, name) {
        Some(JsonView::Text(s)) => Some(s),
        _ => None,
    }
}

/// What the header says of one action: `None` where it does not name the action with an
/// object, else the index and the id that the object names, where it names both as text.
pub open spec fn action_target(
    v: JsonView,
    action: Seq<char>,
) -> Option<Option<(Seq<char>, Seq<char>)>> {
    match member(v, action) {
        Some(JsonView::Object(m)) => Some(
            match (
                text_member(JsonView::Object(m), "_index"@),
                text_member(JsonView::Object(m), "_id"@),
            ) {
                (Some(index), Some(id)) => Some((index, id)),
                _ => None,
            },
        ),
        _ => None,
    }
}

/// The action, the index and the document id of a bulk header: those of the first of `create`,
/// `index` and `update` that the header names with an object.
pub open spec fn bulk_index(v: JsonView) -> Option<(Seq<char>, Seq<char>, Seq<char>)> {
    match action_target(v, "create"@) {
        Some(Some((index, id))) => Some(("create"@, index, id)),
        Some(None) => None,
        None => match action_target(v, "index"@) {
            Some(Some((index, id))) => Some(("index"@, index, id)),
            Some(None) => None,
            None => match action_target(v, "update"@) {
                Some(Some((index, id))) => Some(("update"@, index, id)),
                _ => None,
            },
        },
    }
}

fn get_text(v: &Json, name: &str) -> (r: Option<String>)
    ensures
        match text_member(v@, name@) {
            Some(s) => r matches Some(found) && found@ == s,
            None => r is None,
        },
{
    match get_member(v, name) {
        Some(Json::String(s)) => Some(s.clone()),
        _ => None,
    }
}

fn target_of(v: &Json, action: &str) -> (r: Option<Option<(String, String)>>)
    ensures
        match action_target(v@, action@) {
            Some(Some((index, id))) => r matches Some(Some(found)) && found.0@ == index && found.1@
                == id,
            Some(None) => r == Some(None::<(String, String)>),
            None => r is None,
        },
{
    match get_member(v, action) {
        Some(inner) => match inner {
            Json::Object(m) => {
                let index = get_text(inner, "_index");
                let id = get_text(inner, "_id");
                match (index, id) {
                    (Some(index), Some(id)) => Some(Some((index, id))),
                    _ => Some(None),
                }
            },
            _ => None,
        },
        None => None,
    }
}

/// Reads the header of a bulk operation: the action, the index and the document id.
pub fn parse_bulk_index(v: &Json) -> (r: Option<(String, String, String)>)
    ensures
        match bulk_index(v@) {
            Some((action, index, id)) => r matches Some(found) && found.0@ == action && found.1@
                == index && found.2@ == id,
            None => r is None,
        },
{
    match target_of(v, "create") {
        Some(Some((index, id))) => { return Some(("create".to_owned(), index, id)); },
        Some(None) => { return None; },
        None => {},
    }
    match target_of(v, "index") {
        Some(Some((index, id))) => { return Some(("index".to_owned(), index, id)); },
        Some(None) => { return None; },
        None => {},
    }
    match target_of(v, "update") {
        Some(Some((index, id))) => Some(("update".to_owned(), index, id)),
        _ => None,
    }
}

} // verus!
