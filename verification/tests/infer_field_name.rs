use tailcall::config::{Config, Field, Grpc, Http, Resolver, Type, Upstream};
use tailcall::infer_field_name::{
    examples, generate, next_delay, pick_name, prompt, question_for, rename_field, Answer,
    FieldLocation, InferError, InferFieldName, Progress, Question,
};
use tailcall::json::{Json, JsonError};
use tailcall::names::NameSet;
use tailcall::template::{Method, Mustache};

fn http(path: &str, method: Method, base_url: Option<&str>) -> Field {
    Field {
        type_of: "T".into(),
        resolver: Some(Resolver::Http(Http {
            path: path.into(),
            method,
            query: vec![],
            base_url: base_url.map(|b| b.to_string()),
            headers: vec![],
            body: None,
            batch_key: vec![],
        })),
        ..Default::default()
    }
}

fn grpc(method: &str, base_url: Option<&str>) -> Field {
    Field {
        type_of: "T".into(),
        resolver: Some(Resolver::Grpc(Grpc { method: method.into(), base_url: base_url.map(|b| b.to_string()), ..Default::default() })),
        ..Default::default()
    }
}

fn plain() -> Field {
    Field { type_of: "String".into(), ..Default::default() }
}

fn config(base_url: Option<&str>, types: Vec<(&str, Vec<(&str, Field)>)>) -> Config {
    Config {
        upstream: Upstream { base_url: base_url.map(|b| b.to_string()) },
        types: types
            .into_iter()
            .map(|(k, fields)| {
                (
                    k.to_string(),
                    Type { fields: fields.into_iter().map(|(n, f)| (n.to_string(), f)).collect(), ..Default::default() },
                )
            })
            .collect(),
        ..Default::default()
    }
}

fn answer(names: &[&str]) -> Result<Answer, InferError> {
    Ok(Answer { suggestions: names.iter().map(|n| n.to_string()).collect() })
}

fn question(url: &str, method: &str) -> Question {
    Question { url: url.into(), method: method.into() }
}

#[test]
fn test_to_chat_request_conversion() {
    let question = Question {
        url: "https://jsonplaceholder.typicode.com/posts".to_string(),
        method: "GET".to_string(),
    };
    assert_eq!(
        question.to_json_text(),
        Ok(r#"{"url":"https://jsonplaceholder.typicode.com/posts","method":"GET"}"#.to_string())
    );
}

#[test]
fn test_chat_response_parse() {
    let answer = Answer::try_from(Some(
        "{\"suggestions\":[\"posts\",\"postList\",\"articles\",\"articlesList\",\"entries\"]}",
    ))
    .unwrap();
    assert_eq!(answer.suggestions, vec!["posts", "postList", "articles", "articlesList", "entries"]);
}

#[test]
fn responses_that_are_no_answer() {
    assert_eq!(Answer::try_from(None), Err(InferError::EmptyResponse));
    assert_eq!(Answer::try_from(Some("")), Err(InferError::Serde(JsonError::Parse)));
    assert_eq!(Answer::try_from(Some("sure!")), Err(InferError::Serde(JsonError::Parse)));
    assert_eq!(Answer::try_from(Some("[]")), Err(InferError::Serde(JsonError::Parse)));
    assert_eq!(Answer::try_from(Some("{}")), Err(InferError::Serde(JsonError::Parse)));
    assert_eq!(Answer::try_from(Some(r#"{"suggestions": "a"}"#)), Err(InferError::Serde(JsonError::Parse)));
    assert_eq!(Answer::try_from(Some(r#"{"suggestions": ["a", 1]}"#)), Err(InferError::Serde(JsonError::Parse)));
    assert_eq!(
        Answer::try_from(Some(r#"{"other": 1, "suggestions": []}"#)),
        Ok(Answer { suggestions: vec![] })
    );
    assert_eq!(Answer::from_json(&Json::Null), None);
}

#[test]
fn questions_for_fields() {
    let with_base = config(Some("http://base"), vec![]);
    let without = config(None, vec![]);
    assert_eq!(question_for(&with_base, &plain()), Ok(None));
    assert_eq!(
        question_for(&with_base, &http("/posts", Method::GET, None)),
        Ok(Some(question("http://base/posts", "GET")))
    );
    assert_eq!(
        question_for(&with_base, &http("/posts", Method::DELETE, Some("http://own"))),
        Ok(Some(question("http://own", "DELETE")))
    );
    assert_eq!(
        question_for(&without, &http("/posts", Method::GET, None)),
        Err(InferError::Message("Base URL is required for HTTP resolver".into()))
    );
    assert_eq!(
        question_for(&with_base, &grpc("news.NewsService.GetNews", None)),
        Ok(Some(question("http://base", "news.NewsService.GetNews")))
    );
    assert_eq!(
        question_for(&without, &grpc("m", Some("http://own"))),
        Ok(Some(question("http://own", "m")))
    );
    assert_eq!(
        question_for(&without, &grpc("m", None)),
        Err(InferError::Message("Base URL is required for gRPC resolver".into()))
    );
    let js = Field { resolver: Some(Resolver::Js { name: "f".into() }), ..plain() };
    assert_eq!(
        question_for(&with_base, &js),
        Err(InferError::Message("Unsupported for other resolvers".into()))
    );
}

#[test]
fn the_first_free_suggestion_is_picked() {
    let ty = Type { fields: vec![("posts".into(), plain()), ("a".into(), plain())], ..Default::default() };
    let mut visited = NameSet::new();
    visited.insert("postList".into());
    let suggestions: Vec<String> = ["posts", "postList", "articles", "entries"].iter().map(|s| s.to_string()).collect();
    assert_eq!(pick_name(&suggestions, &ty, &visited), Some("articles".to_string()));
    assert_eq!(pick_name(&suggestions[..2].to_vec(), &ty, &visited), None);
    assert_eq!(pick_name(&vec![], &ty, &visited), None);
}

#[test]
fn delays_grow() {
    assert_eq!(next_delay(3), 18);
    assert_eq!(next_delay(18), 648);
    assert_eq!(next_delay(29), 29 * 58);
    assert_eq!(next_delay(30), 1800);
    assert_eq!(next_delay(648), 38880);
    assert_eq!(next_delay(0), 0);
    assert_eq!(next_delay(u64::MAX / 60), (u64::MAX / 60) * 60);
    assert_eq!(next_delay(u64::MAX / 60 + 1), u64::MAX);
    assert_eq!(next_delay(u64::MAX), u64::MAX);
}

fn sample() -> Config {
    config(
        Some("http://base"),
        vec![
            ("Query", vec![("f1", http("/posts", Method::GET, None)), ("title", plain()), ("f2", http("/users", Method::GET, None))]),
            ("Mutation", vec![("f3", grpc("svc.Add", None))]),
        ],
    )
}

fn mapping(progress: Progress) -> Vec<(String, FieldLocation)> {
    match progress {
        Progress::Done(mapping) => mapping,
        other => panic!("not done: {:?}", other),
    }
}

fn location(name: &str, owner: &str) -> FieldLocation {
    FieldLocation { new_field_name: name.into(), owner: owner.into() }
}

#[test]
fn generate_asks_field_by_field() {
    let config = sample();
    let mut answers = vec![];
    let mut asked = vec![];
    let outcome = loop {
        match generate(&config, &answers) {
            Progress::Ask { question, wait } => {
                assert_eq!(wait, None);
                asked.push(question.url.clone());
                answers.push(match asked.len() {
                    1 => answer(&["title", "posts", "articles"]),
                    2 => answer(&["posts", "users"]),
                    _ => answer(&["posts"]),
                });
            }
            other => break other,
        }
    };
    assert_eq!(asked, vec!["http://base/posts", "http://base/users", "http://base"]);
    assert_eq!(
        mapping(outcome),
        vec![
            // `title` is a field of the type already
            ("f1".to_string(), location("posts", "Query")),
            // `posts` was given to another field of the type
            ("f2".to_string(), location("users", "Query")),
            // in another type the name is free again
            ("f3".to_string(), location("posts", "Mutation")),
        ]
    );
}

#[test]
fn generate_waits_after_a_failure_of_the_model() {
    let config = sample();
    let failed = || Err(InferError::GenAI("overloaded".into()));
    let ask = |answers: &Vec<Result<Answer, InferError>>| match generate(&config, answers) {
        Progress::Ask { question, wait } => (question.url, wait),
        other => panic!("unexpected {:?}", other),
    };
    let mut answers = vec![];
    assert_eq!(ask(&answers), ("http://base/posts".to_string(), None));
    answers.push(failed());
    assert_eq!(ask(&answers), ("http://base/posts".to_string(), Some(3)));
    answers.push(failed());
    assert_eq!(ask(&answers), ("http://base/posts".to_string(), Some(18)));
    answers.push(failed());
    assert_eq!(ask(&answers), ("http://base/posts".to_string(), Some(648)));
    // any other failure is followed by the same question at once
    answers.push(Err(InferError::EmptyResponse));
    assert_eq!(ask(&answers), ("http://base/posts".to_string(), None));
    // an answer of which nothing is free settles the field without a name
    answers.push(answer(&["title"]));
    assert_eq!(ask(&answers), ("http://base/users".to_string(), None));
    // for the next field the wait starts over
    answers.push(failed());
    assert_eq!(ask(&answers), ("http://base/users".to_string(), Some(3)));
    answers.push(answer(&["users"]));
    answers.push(answer(&[]));
    assert_eq!(mapping(generate(&config, &answers)), vec![("f2".to_string(), location("users", "Query"))]);
}

#[test]
fn generate_fails_for_a_field_that_cannot_be_asked_about() {
    let config = config(None, vec![("Query", vec![("ok", http("/a", Method::GET, Some("http://own"))), ("bad", http("/b", Method::GET, None))])]);
    assert!(matches!(generate(&config, &vec![]), Progress::Ask { .. }));
    assert!(matches!(
        generate(&config, &vec![answer(&["a"])]),
        Progress::Failed(InferError::Message(m)) if m == "Base URL is required for HTTP resolver"
    ));
    assert_eq!(mapping(generate(&Config::default(), &vec![])), vec![]);
}

#[test]
fn transform_renames_the_fields() {
    let infer = InferFieldName::new("model".into(), Some("SECRET-REDACTED".into()));
    assert_eq!(infer.model, "model");
    assert_eq!(infer.secret, Some("SECRET-REDACTED".to_string()));
    let renamed = infer.transform(
        sample(),
        &vec![
            ("f1".to_string(), location("posts", "Query")),
            ("f3".to_string(), location("add", "Mutation")),
            ("posts".to_string(), location("articles", "Query")),
            ("gone".to_string(), location("x", "Query")),
            ("f2".to_string(), location("x", "Nowhere")),
        ],
    );
    let names = |config: &Config, owner: &str| -> Vec<String> {
        config.find_type(owner).unwrap().fields.iter().map(|(k, _)| k.clone()).collect()
    };
    assert_eq!(names(&renamed, "Query"), vec!["articles", "title", "f2"]);
    assert_eq!(names(&renamed, "Mutation"), vec!["add"]);
    assert_eq!(renamed.find_type("Query").unwrap().fields[0].1, sample().find_type("Query").unwrap().fields[0].1);
    let mut config = sample();
    rename_field(&mut config, "title", "headline", "Query");
    assert_eq!(names(&config, "Query"), vec!["f1", "headline", "f2"]);
}

#[test]
fn the_examples_shown_to_the_model() {
    let shown = examples();
    let expected = Json::parse(
        r#"{
            "input1": {"url": "https://jsonplaceholder.typicode.com/posts", "method": "GET"},
            "input2": {"url": "https://jsonplaceholder.typicode.com/posts", "method": "POST"},
            "input3": {"url": "https://jsonplaceholder.typicode.com/posts/1", "method": "DELETE"},
            "output1": {"suggestions": ["posts", "postList", "articles", "articlesList", "entries"]},
            "output2": {"suggestions": ["createPost", "createArticle", "createEntry", "createNewPost", "createNewArticle"]},
            "output3": {"suggestions": ["deletePost", "removePost", "removePostById", "deleteEntry", "deleteEntryById"]},
            "count": 5
        }"#,
    )
    .unwrap();
    assert_eq!(shown, expected);
}

#[test]
fn the_prompt_is_the_template_filled_from_the_examples() {
    let template =
        Mustache::parse("Give {{count}} names. {{input2.method}} {{input3.url}} -> {{output3.suggestions.1}}");
    assert_eq!(
        prompt(&template),
        "Give 5 names. POST https://jsonplaceholder.typicode.com/posts/1 -> removePost"
    );
    assert_eq!(prompt(&Mustache::parse("plain")), "plain");
    assert_eq!(prompt(&Mustache::parse("[{{missing}}]")), "[]");
}
