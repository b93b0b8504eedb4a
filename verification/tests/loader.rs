use tailcall::context::EvalContext;
use tailcall::eval::EvalError;
use tailcall::ir::{CacheKey, DataLoaderId, IO};
use tailcall::json::Json;
use tailcall::loader::{batch_request, batch_shares, batch_url, partition, Loader};
use tailcall::request::{fingerprint_of, Request, Route};
use tailcall::template::{GroupBy, HttpRequestTemplate, Method, Mustache};

fn json(text: &str) -> Json {
    Json::parse(text).unwrap()
}

fn keys(from: usize, upto: usize) -> Vec<String> {
    (from..upto).map(|k| k.to_string()).collect()
}

#[test]
fn n_plus_one_elimination() {
    // 50 users ask for their posts within one window
    let mut loader = Loader::new(100);
    let mut calls = 0;
    for key in keys(1, 51) {
        if loader.load(key).is_some() {
            calls += 1;
        }
    }
    let batch = loader.flush();
    calls += 1;
    assert_eq!(calls, 1);
    assert_eq!(batch, keys(1, 51));
    assert_eq!(loader.pending_len(), 0);
    // the one response is split by userId
    let posts: Vec<String> = (1..=50)
        .flat_map(|user| vec![
            format!(r#"{{"userId": {}, "title": "first of {}"}}"#, user, user),
            format!(r#"{{"userId": {}, "title": "second of {}"}}"#, user, user),
        ])
        .collect();
    let response = json(&format!("[{}]", posts.join(",")));
    let shares = partition(&response, &vec!["userId".to_string()], &batch, true).unwrap();
    assert_eq!(shares.len(), 50);
    for (i, share) in shares.iter().enumerate() {
        let user = i + 1;
        assert_eq!(
            *share,
            json(&format!(
                r#"[{{"userId": {u}, "title": "first of {u}"}}, {{"userId": {u}, "title": "second of {u}"}}]"#,
                u = user
            ))
        );
    }
}

#[test]
fn batches_are_cut_at_the_largest_size() {
    // 25 keys with at most 10 in a batch make 3 calls
    let mut loader = Loader::new(10);
    let mut batches = vec![];
    for key in keys(0, 25) {
        if let Some(batch) = loader.load(key) {
            batches.push(batch);
        }
    }
    assert_eq!(loader.pending_len(), 5);
    batches.push(loader.flush());
    assert_eq!(batches.len(), 3);
    assert_eq!(batches[0], keys(0, 10));
    assert_eq!(batches[1], keys(10, 20));
    assert_eq!(batches[2], keys(20, 25));
    // 20 keys make exactly 2, and nothing is left at the close of the window
    let mut loader = Loader::new(10);
    let full: Vec<Vec<String>> = keys(0, 20).into_iter().filter_map(|k| loader.load(k)).collect();
    assert_eq!(full.len(), 2);
    assert_eq!(loader.flush(), Vec::<String>::new());
    // batches of one
    let mut loader = Loader::new(1);
    assert_eq!(loader.load("a".into()), Some(vec!["a".to_string()]));
    assert_eq!(loader.load("a".into()), Some(vec!["a".to_string()]));
}

#[test]
fn identical_keys_share_a_slot() {
    let mut loader = Loader::new(3);
    assert_eq!(loader.load("a".into()), None);
    assert_eq!(loader.load("a".into()), None);
    assert_eq!(loader.load("b".into()), None);
    assert_eq!(loader.pending_len(), 2);
    assert_eq!(loader.load("c".into()), Some(vec!["a".to_string(), "b".to_string(), "c".to_string()]));
    assert_eq!(loader.pending_len(), 0);
}

#[test]
fn loader_without_limit_sends_at_the_close_of_the_window() {
    let mut loader = Loader::new(0);
    for key in keys(0, 1000) {
        assert_eq!(loader.load(key), None);
    }
    assert_eq!(loader.flush().len(), 1000);
}

#[test]
fn partition_by_key() {
    let response = json(
        r#"[{"id": 1, "v": "a"}, {"id": "2", "v": "b"}, {"id": 1, "v": "c"}, {"x": 1}, 5, {"id": true, "v": "d"}]"#,
    );
    let by = vec!["id".to_string()];
    let wanted = vec!["1".to_string(), "2".to_string(), "3".to_string(), "true".to_string()];
    assert_eq!(
        partition(&response, &by, &wanted, true),
        Ok(vec![
            json(r#"[{"id": 1, "v": "a"}, {"id": 1, "v": "c"}]"#),
            json(r#"[{"id": "2", "v": "b"}]"#),
            // a key without element is null, also where a list is expected
            Json::Null,
            json(r#"[{"id": true, "v": "d"}]"#),
        ])
    );
    assert_eq!(
        partition(&response, &by, &wanted, false),
        Ok(vec![
            json(r#"{"id": 1, "v": "a"}"#),
            json(r#"{"id": "2", "v": "b"}"#),
            Json::Null,
            json(r#"{"id": true, "v": "d"}"#),
        ])
    );
}

#[test]
fn partition_by_a_nested_path() {
    let response = json(r#"[{"user": {"id": 7}, "n": 1}, {"user": {"id": 8}, "n": 2}]"#);
    let by = vec!["user".to_string(), "id".to_string()];
    assert_eq!(
        partition(&response, &by, &vec!["8".to_string(), "7".to_string()], false),
        Ok(vec![json(r#"{"user": {"id": 8}, "n": 2}"#), json(r#"{"user": {"id": 7}, "n": 1}"#)])
    );
    assert_eq!(partition(&response, &by, &vec![], true), Ok(vec![]));
}

#[test]
fn partition_of_what_is_no_list() {
    let by = vec!["id".to_string()];
    let wanted = vec!["1".to_string()];
    assert_eq!(partition(&json(r#"{"id": 1}"#), &by, &wanted, true), Err(EvalError::BatchPartition));
    assert_eq!(partition(&Json::Null, &by, &wanted, false), Err(EvalError::BatchPartition));
}

fn posts_call(dl_id: Option<usize>, dedupe: bool) -> IO {
    IO::Http {
        req_template: HttpRequestTemplate {
            method: Method::GET,
            root_url: Mustache::parse("http://upstream/posts"),
            query: vec![
                ("sort".to_string(), Mustache::parse("asc")),
                ("userId".to_string(), Mustache::parse("{{value.id}}")),
            ],
            headers: vec![],
            body: None,
        },
        group_by: Some(GroupBy { path: vec!["userId".to_string()], key: Some("userId".to_string()) }),
        dl_id: dl_id.map(DataLoaderId::new),
        http_filter: None,
        is_list: true,
        dedupe,
        is_dependent: true,
    }
}

#[test]
fn a_call_takes_the_way_of_its_loader_first() {
    let args = Json::Null;
    let none: Vec<(String, String)> = vec![];
    let user = json(r#"{"id": 7}"#);
    let ctx = EvalContext { args: &args, value: Some(&user), vars: &none, env: &none, headers: &none };
    // bound to a loader: through the loader, whether it collapses calls or not
    assert_eq!(posts_call(Some(3), false).route(&ctx), Route::Loader(3));
    assert_eq!(posts_call(Some(3), true).route(&ctx), Route::Loader(3));
    assert_eq!(posts_call(Some(3), true).loader(), Some(3));
    // no loader: through the table of identical calls, under the fingerprint
    let call = posts_call(None, true);
    let key = call.cache_key(&ctx).unwrap().as_u64();
    assert_eq!(call.route(&ctx), Route::Dedupe(key));
    let text: Vec<char> = "http\nGET\nhttp://upstream/posts?sort=asc&userId=7".chars().collect();
    assert_eq!(key, fingerprint_of(&text));
    assert_eq!(key, call.to_request(&ctx).unwrap().fingerprint().as_u64());
    // neither: straight
    assert_eq!(posts_call(None, false).route(&ctx), Route::Direct);
    assert_eq!(posts_call(None, false).loader(), None);
    // a script call is never collapsed and has no loader
    assert_eq!(IO::Js { name: "f".to_string() }.route(&ctx), Route::Direct);
}

#[test]
fn the_key_under_which_a_call_joins_a_batch() {
    let args = Json::Null;
    let none: Vec<(String, String)> = vec![];
    let user = json(r#"{"id": 7}"#);
    let ctx = EvalContext { args: &args, value: Some(&user), vars: &none, env: &none, headers: &none };
    assert_eq!(
        posts_call(Some(0), false).batch_key(&ctx),
        Some(("userId".to_string(), "7".to_string()))
    );
    // without a name the parameter is `id`
    let by_id = |query: Vec<(&str, &str)>| IO::Http {
        req_template: HttpRequestTemplate {
            method: Method::GET,
            root_url: Mustache::parse("http://upstream/users"),
            query: query.into_iter().map(|(k, v)| (k.to_string(), Mustache::parse(v))).collect(),
            headers: vec![],
            body: None,
        },
        group_by: Some(GroupBy { path: vec!["id".to_string()], key: None }),
        dl_id: None,
        http_filter: None,
        is_list: false,
        dedupe: false,
        is_dependent: true,
    };
    assert_eq!(
        by_id(vec![("id", "{{value.id}}"), ("id", "second")]).batch_key(&ctx),
        Some(("id".to_string(), "7".to_string()))
    );
    // no such parameter, or no grouping: no key
    assert_eq!(by_id(vec![("userId", "{{value.id}}")]).batch_key(&ctx), None);
    assert_eq!(IO::Js { name: "f".to_string() }.batch_key(&ctx), None);
}

#[test]
fn the_url_of_a_batch() {
    let keys = |list: &[&str]| list.iter().map(|k| k.to_string()).collect::<Vec<String>>();
    assert_eq!(
        batch_url("http://upstream/posts", "userId", &keys(&["1", "2", "3"])),
        "http://upstream/posts?userId=1&userId=2&userId=3"
    );
    assert_eq!(
        batch_url("http://upstream/posts?userId=1", "userId", &keys(&["2", "3"])),
        "http://upstream/posts?userId=1&userId=2&userId=3"
    );
    assert_eq!(batch_url("http://upstream/posts", "id", &keys(&["9"])), "http://upstream/posts?id=9");
    assert_eq!(batch_url("http://upstream/posts", "id", &keys(&[])), "http://upstream/posts");
    assert_eq!(batch_url("", "", &keys(&["", ""])), "?=&=");
}

fn get(url: &str) -> Request {
    Request::Http {
        method: Method::GET,
        url: url.to_string(),
        headers: vec![("x-trace".to_string(), "t".to_string())],
        body: None,
    }
}

#[test]
fn the_one_request_of_a_batch() {
    let keys: Vec<String> = vec!["1".into(), "2".into(), "3".into()];
    let call = posts_call(Some(0), false);
    // the first request carries the first key; the others are added to it
    assert_eq!(
        batch_request(&call, "userId", get("http://upstream/posts?sort=asc&userId=1"), &keys),
        Ok(get("http://upstream/posts?sort=asc&userId=1&userId=2&userId=3"))
    );
    assert_eq!(
        batch_request(&call, "userId", get("http://upstream/posts"), &keys),
        Ok(get("http://upstream/posts?userId=2&userId=3"))
    );
    // a batch of one key, or of none, is the first request as it is
    assert_eq!(
        batch_request(&call, "userId", get("http://upstream/posts?userId=1"), &vec!["1".to_string()]),
        Ok(get("http://upstream/posts?userId=1"))
    );
    assert_eq!(
        batch_request(&call, "userId", get("http://upstream/posts?userId=1"), &vec![]),
        Ok(get("http://upstream/posts?userId=1"))
    );
    // a call that says nothing of how the response is split cannot be batched
    let ungrouped = IO::Http {
        req_template: HttpRequestTemplate {
            method: Method::GET,
            root_url: Mustache::parse("http://upstream/posts"),
            query: vec![],
            headers: vec![],
            body: None,
        },
        group_by: None,
        dl_id: Some(DataLoaderId::new(0)),
        http_filter: None,
        is_list: true,
        dedupe: false,
        is_dependent: false,
    };
    assert_eq!(
        batch_request(&ungrouped, "userId", get("http://upstream/posts"), &keys),
        Err(EvalError::BatchPartition)
    );
    assert_eq!(
        batch_request(&IO::Js { name: "f".into() }, "id", get("http://upstream/posts"), &keys),
        Err(EvalError::BatchPartition)
    );
    // nor can a first request that is no HTTP request
    let script = Request::Js { name: "f".to_string(), value: Json::Null };
    assert_eq!(batch_request(&call, "userId", script, &keys), Err(EvalError::BatchPartition));
}

#[test]
fn the_shares_of_a_batch() {
    let keys: Vec<String> = vec!["1".into(), "2".into(), "9".into()];
    let response = json(r#"[{"userId": 2, "t": "a"}, {"userId": 1, "t": "b"}, {"userId": 2, "t": "c"}]"#);
    // the call expects lists
    assert_eq!(
        batch_shares(&posts_call(Some(0), false), &response, &keys),
        Ok(vec![
            json(r#"[{"userId": 1, "t": "b"}]"#),
            json(r#"[{"userId": 2, "t": "a"}, {"userId": 2, "t": "c"}]"#),
            Json::Null,
        ])
    );
    assert_eq!(
        batch_shares(&posts_call(Some(0), false), &response, &keys),
        partition(&response, &vec!["userId".to_string()], &keys, true)
    );
    assert_eq!(
        batch_shares(&IO::Js { name: "f".into() }, &response, &keys),
        Err(EvalError::BatchPartition)
    );
    assert_eq!(
        batch_shares(&posts_call(Some(0), false), &json(r#"{"userId": 1}"#), &keys),
        partition(&json(r#"{"userId": 1}"#), &vec!["userId".to_string()], &keys, true)
    );
}
