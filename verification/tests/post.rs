use tailcall::json::Json;
use tailcall::post::{Post, PostError, PostField};

fn read(text: &str) -> Result<Post, PostError> {
    Post::from_json(&Json::parse(text).unwrap())
}

#[test]
fn test_posts() {
    let entries: Vec<String> = (1..=100)
        .map(|id| {
            format!(
                r#"{{"user_id": {}, "id": {}, "title": "title {}", "body": "body\nof {}", "extra": [1, 2]}}"#,
                (id - 1) / 10 + 1,
                id,
                id,
                id
            )
        })
        .collect();
    let json = format!("[{}]", entries.join(","));
    let posts: Vec<Post> = match Json::parse(&json).unwrap() {
        Json::Array(items) => items.iter().map(|item| Post::from_json(item).unwrap()).collect(),
        _ => panic!("no list"),
    };

    assert_eq!(posts.len(), 100);
    assert_eq!(posts[99], Post { user_id: 10, id: 100, title: "title 100".into(), body: "body\nof 100".into() });
    assert_eq!(posts[0].user_id, 1);
}

#[test]
fn posts_in_any_order_of_fields() {
    assert_eq!(
        read(r#"{"body": "b", "title": "t", "id": 2, "unknown": null, "user_id": 18446744073709551615}"#),
        Ok(Post { user_id: u64::MAX, id: 2, title: "t".into(), body: "b".into() })
    );
}

#[test]
fn what_is_no_post() {
    assert_eq!(read("[]"), Err(PostError::NotAnObject));
    assert_eq!(read("7"), Err(PostError::NotAnObject));
    assert_eq!(read("{}"), Err(PostError::MissingField(PostField::UserId)));
    assert_eq!(read(r#"{"user_id": 1}"#), Err(PostError::MissingField(PostField::Id)));
    assert_eq!(read(r#"{"user_id": 1, "id": 1}"#), Err(PostError::MissingField(PostField::Title)));
    assert_eq!(read(r#"{"user_id": 1, "id": 1, "title": ""}"#), Err(PostError::MissingField(PostField::Body)));
    assert_eq!(read(r#"{"id": "1"}"#), Err(PostError::InvalidType(PostField::Id)));
    assert_eq!(read(r#"{"id": -1}"#), Err(PostError::InvalidType(PostField::Id)));
    assert_eq!(read(r#"{"id": 1.5}"#), Err(PostError::InvalidType(PostField::Id)));
    assert_eq!(read(r#"{"user_id": 18446744073709551616}"#), Err(PostError::InvalidType(PostField::UserId)));
    assert_eq!(read(r#"{"title": 1}"#), Err(PostError::InvalidType(PostField::Title)));
    assert_eq!(read(r#"{"body": null}"#), Err(PostError::InvalidType(PostField::Body)));
    // the first fault is the one reported
    assert_eq!(read(r#"{"title": 1, "body": 2}"#), Err(PostError::InvalidType(PostField::Title)));
}

#[test]
fn a_field_that_occurs_twice() {
    let twice = |key: &str, value: Json| {
        Json::Object(vec![(key.to_string(), value.clone()), ("x".to_string(), Json::Null), (key.to_string(), value)])
    };
    assert_eq!(Post::from_json(&twice("id", Json::Number("1".into()))), Err(PostError::DuplicateField(PostField::Id)));
    assert_eq!(Post::from_json(&twice("user_id", Json::Number("1".into()))), Err(PostError::DuplicateField(PostField::UserId)));
    assert_eq!(Post::from_json(&twice("title", Json::String("t".into()))), Err(PostError::DuplicateField(PostField::Title)));
    assert_eq!(Post::from_json(&twice("body", Json::String("b".into()))), Err(PostError::DuplicateField(PostField::Body)));
    assert!(matches!(Post::from_json(&twice("other", Json::Null)), Err(PostError::MissingField(PostField::UserId))));
}

#[test]
fn keys_of_fields() {
    assert_eq!(PostField::from_key("user_id"), PostField::UserId);
    assert_eq!(PostField::from_key("id"), PostField::Id);
    assert_eq!(PostField::from_key("title"), PostField::Title);
    assert_eq!(PostField::from_key("body"), PostField::Body);
    assert_eq!(PostField::from_key("userId"), PostField::Unknown);
    assert_eq!(PostField::from_key(""), PostField::Unknown);
}
