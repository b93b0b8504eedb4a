//! A post, read from JSON field by field.

use vstd::prelude::*;

use crate::context::{index_of_text, parse_number};
use crate::json::{Json, JsonValue};
use crate::names::str_eq;

verus! {

/// A post.
#[derive(Debug, PartialEq, Eq)]
pub struct Post {
    pub user_id: u64,
    pub id: u64,
    pub title: String,
    pub body: String,
}

/// The fields of a post.
#[derive(Clone, Copy, Debug, PartialEq, Eq, Structural)]
pub enum PostField {
    UserId,
    Id,
    Title,
    Body,
    Unknown,
}

/// Why a value is no post.
#[derive(Clone, Copy, Debug, PartialEq, Eq, Structural)]
pub enum PostError {
    /// The value is no object.
    NotAnObject,
    /// A field occurs twice.
    DuplicateField(PostField),
    /// A field has a value of the wrong type.
    InvalidType(PostField),
    /// A field does not occur.
    MissingField(PostField),
}

/// The field that a key names; `Unknown` for any other key.
pub open spec fn field_of(key: Seq<char>) -> PostField {
    if key == "user_id"@ {
        PostField::UserId
    } else if key == "id"@ {
        PostField::Id
    } else if key == "title"@ {
        PostField::Title
    } else if key == "body"@ {
        PostField::Body
    } else {
        PostField::Unknown
    }
}

/// The fields of a post read so far.
pub ghost struct Partial {
    pub user_id: Option<u64>,
    pub id: Option<u64>,
    pub title: Option<Seq<char>>,
    pub body: Option<Seq<char>>,
}

/// The number that a JSON value holds: a number written with digits only
/// that fits 64 bits.
pub open spec fn number_of(v: JsonValue) -> Option<u64> {
    match v {
        JsonValue::Number(text) => match index_of_text(text) {
            Some(n) => if n <= u64::MAX {
                Some(n as u64)
            } else {
                None
            },
            None => None,
        },
        _ => None,
    }
}

/// The text that a JSON value holds.
pub open spec fn text_of(v: JsonValue) -> Option<Seq<char>> {
    match v {
        JsonValue::String(s) => Some(s),
        _ => None,
    }
}

/// Reading one entry: the field it names must not have been read before,
/// and its value must be of the field's type. An entry with any other key
/// is passed over.
pub open spec fn read_entry(partial: Partial, entry: (Seq<char>, JsonValue)) -> Result<
    Partial,
    PostError,
> {
    match field_of(entry.0) {
        PostField::UserId => if partial.user_id is Some {
            Err(PostError::DuplicateField(PostField::UserId))
        } else {
            match number_of(entry.1) {
                Some(n) => Ok(Partial { user_id: Some(n), ..partial }),
                None => Err(PostError::InvalidType(PostField::UserId)),
            }
        },
        PostField::Id => if partial.id is Some {
            Err(PostError::DuplicateField(PostField::Id))
        } else {
            match number_of(entry.1) {
                Some(n) => Ok(Partial { id: Some(n), ..partial }),
                None => Err(PostError::InvalidType(PostField::Id)),
            }
        },
        PostField::Title => if partial.title is Some {
            Err(PostError::DuplicateField(PostField::Title))
        } else {
            match text_of(entry.1) {
                Some(t) => Ok(Partial { title: Some(t), ..partial }),
                None => Err(PostError::InvalidType(PostField::Title)),
            }
        },
        PostField::Body => if partial.body is Some {
            Err(PostError::DuplicateField(PostField::Body))
        } else {
            match text_of(entry.1) {
                Some(t) => Ok(Partial { body: Some(t), ..partial }),
                None => Err(PostError::InvalidType(PostField::Body)),
            }
        },
        PostField::Unknown => Ok(partial),
    }
}

/// Reading the entries one after the other, up to the first error.
pub open spec fn read_entries(entries: Seq<(Seq<char>, JsonValue)>) -> Result<Partial, PostError>
    decreases entries.len(),
{
    if entries.len() == 0 {
        Ok(Partial { user_id: None, id: None, title: None, body: None })
    } else {
        match read_entries(entries.drop_last()) {
            Ok(partial) => read_entry(partial, entries.last()),
            Err(e) => Err(e),
        }
    }
}

/// The post that a JSON value holds: an object with the four fields of a
/// post, each once. The first field that is missing, in the order
/// `user_id`, `id`, `title`, `body`, is the one reported.
pub open spec fn post_of(v: JsonValue) -> Result<(u64, u64, Seq<char>, Seq<char>), PostError> {
    match v {
        JsonValue::Object(entries) => match read_entries(entries) {
            Err(e) => Err(e),
            Ok(partial) => if partial.user_id is None {
                Err(PostError::MissingField(PostField::UserId))
            } else if partial.id is None {
                Err(PostError::MissingField(PostField::Id))
            } else if partial.title is None {
                Err(PostError::MissingField(PostField::Title))
            } else if partial.body is None {
                Err(PostError::MissingField(PostField::Body))
            } else {
                Ok((partial.user_id->0, partial.id->0, partial.title->0, partial.body->0))
            },
        },
        _ => Err(PostError::NotAnObject),
    }
}

/// Once an entry is in error, the entries after it change nothing.
proof fn lemma_read_entries_stop(entries: Seq<(Seq<char>, JsonValue)>, upto: int)
    requires
        0 <= upto <= entries.len(),
    ensures
        read_entries(entries.take(upto)) is Err ==> read_entries(entries) == read_entries(
            entries.take(upto),
        ),
    decreases entries.len() - upto,
{
    if upto < entries.len() {
        assert(entries.take(upto + 1).drop_last() =~= entries.take(upto));
        lemma_read_entries_stop(entries, upto + 1);
    } else {
        assert(entries.take(upto) =~= entries);
    }
}

impl PostField {
    /// The field that a key names.
    pub fn from_key(key: &str) -> (r: PostField)
        ensures
            r == field_of(key@),
    {
        if str_eq(key, "user_id") {
            PostField::UserId
        } else if str_eq(key, "id") {
            PostField::Id
        } else if str_eq(key, "title") {
            PostField::Title
        } else if str_eq(key, "body") {
            PostField::Body
        } else {
            PostField::Unknown
        }
    }
}

fn number_in(v: &Json) -> (r: Option<u64>)
    ensures
        r == number_of(v@),
{
    match v {
        Json::Number(text) => parse_number(text.as_str()),
        _ => None,
    }
}

impl Post {
    /// Reads a post from a JSON value.
    pub fn from_json(v: &Json) -> (r: Result<Post, PostError>)
        ensures
            match post_of(v@) {
                Ok((user_id, id, title, body)) => r matches Ok(post) && post.user_id == user_id
                    && post.id == id && post.title@ == title && post.body@ == body,
                Err(e) => r == Err::<Post, PostError>(e),
            },
    {
        let entries = match v {
            Json::Object(entries) => entries,
            _ => {
                return Err(PostError::NotAnObject);
            },
        };
        let ghost all = v@->Object_0;
        let mut user_id: Option<u64> = None;
        let mut id: Option<u64> = None;
        let mut title: Option<String> = None;
        let mut body: Option<String> = None;
        let mut i: usize = 0;
        assert(all.take(0) =~= Seq::<(Seq<char>, JsonValue)>::empty());
        while i < entries.len()
            invariant
                i <= entries.len(),
                all == Json::Object(*entries)@->Object_0,
                v@ == JsonValue::Object(all),
                read_entries(all.take(i as int)) == Ok::<Partial, PostError>(
                    Partial {
                        user_id,
                        id,
                        title: match title {
                            Some(t) => Some(t@),
                            None => None,
                        },
                        body: match body {
                            Some(t) => Some(t@),
                            None => None,
                        },
                    },
                ),
            decreases entries.len() - i,
        {
            let entry = &entries[i];
            proof {
                let next = all.take(i + 1);
                assert(next.drop_last() =~= all.take(i as int));
                assert(next.last() == (entry.0@, entry.1@));
                lemma_read_entries_stop(all, i + 1);
            }
            match PostField::from_key(entry.0.as_str()) {
                PostField::UserId => {
                    if user_id.is_some() {
                        return Err(PostError::DuplicateField(PostField::UserId));
                    }
                    match number_in(&entry.1) {
                        Some(n) => {
                            user_id = Some(n);
                        },
                        None => {
                            return Err(PostError::InvalidType(PostField::UserId));
                        },
                    }
                },
                PostField::Id => {
                    if id.is_some() {
                        return Err(PostError::DuplicateField(PostField::Id));
                    }
                    match number_in(&entry.1) {
                        Some(n) => {
                            id = Some(n);
                        },
                        None => {
                            return Err(PostError::InvalidType(PostField::Id));
                        },
                    }
                },
                PostField::Title => {
                    if title.is_some() {
                        return Err(PostError::DuplicateField(PostField::Title));
                    }
                    match &entry.1 {
                        Json::String(t) => {
                            title = Some(t.clone());
                        },
                        _ => {
                            return Err(PostError::InvalidType(PostField::Title));
                        },
                    }
                },
                PostField::Body => {
                    if body.is_some() {
                        return Err(PostError::DuplicateField(PostField::Body));
                    }
                    match &entry.1 {
                        Json::String(t) => {
                            body = Some(t.clone());
                        },
                        _ => {
                            return Err(PostError::InvalidType(PostField::Body));
                        },
                    }
                },
                PostField::Unknown => {},
            }
            i += 1;
        }
        assert(all.take(entries.len() as int) =~= all);
        let user_id = match user_id {
            Some(n) => n,
            None => {
                return Err(PostError::MissingField(PostField::UserId));
            },
        };
        let id = match id {
            Some(n) => n,
            None => {
                return Err(PostError::MissingField(PostField::Id));
            },
        };
        let title = match title {
            Some(t) => t,
            None => {
                return Err(PostError::MissingField(PostField::Title));
            },
        };
        let body = match body {
            Some(t) => t,
            None => {
                return Err(PostError::MissingField(PostField::Body));
            },
        };
        Ok(Post { user_id, id, title, body })
    }
}

} // verus!
