use tailcall::auth::{Auth, Provider};
use tailcall::cache::CacheStore;
use tailcall::context::{parse_index, parse_number, EvalContext};
use tailcall::discriminator::Discriminator;
use tailcall::eval::{attempt, eval, key_of, EvalError, Session, Step};
use tailcall::ir::{Cache, CacheKey, IrId, MapLookup, IO, IR};
use tailcall::json::Json;
use tailcall::request::{fingerprint_of, Request, Response};
use tailcall::template::{
    DynamicValue, GraphqlRequestTemplate, GrpcRequestTemplate, HttpRequestTemplate, Method,
    Mustache, OperationType,
};

fn json(text: &str) -> Json {
    Json::parse(text).unwrap()
}

fn path(parts: &[&str]) -> Vec<String> {
    parts.iter().map(|p| p.to_string()).collect()
}

fn pairs(list: &[(&str, &str)]) -> Vec<(String, String)> {
    list.iter().map(|(k, v)| (k.to_string(), v.to_string())).collect()
}

fn http_io(url: &str) -> IO {
    IO::Http {
        req_template: HttpRequestTemplate {
            method: Method::GET,
            root_url: Mustache::parse(url),
            query: vec![],
            headers: vec![],
            body: None,
        },
        group_by: None,
        dl_id: None,
        http_filter: None,
        is_list: false,
        dedupe: false,
        is_dependent: false,
    }
}

fn session(answers: Vec<Result<Json, EvalError>>) -> Session {
    Session { store: CacheStore::new(16), now: 0, answers, used: 0, deferred: vec![] }
}

struct World {
    args: Json,
    vars: Vec<(String, String)>,
    env: Vec<(String, String)>,
    headers: Vec<(String, String)>,
}

fn world() -> World {
    World {
        args: json(r#"{"id": 7, "filter": {"tags": ["a", "b"]}, "name": "x y"}"#),
        vars: pairs(&[("v", "var-value")]),
        env: pairs(&[("KEY", "secret")]),
        headers: pairs(&[("X-Trace", "t1")]),
    }
}

fn ctx<'a>(w: &'a World, value: Option<&'a Json>) -> EvalContext<'a> {
    EvalContext { args: &w.args, value, vars: &w.vars, env: &w.env, headers: &w.headers }
}

fn done(step: Step) -> Result<Json, EvalError> {
    match step {
        Step::Done(r) => r,
        other => panic!("not done: {:?}", other),
    }
}

#[test]
fn path_value_reads_each_root() {
    let w = world();
    let parent = json(r#"{"userId": 3, "list": [{"a": 1}, {"a": 2}]}"#);
    let c = ctx(&w, Some(&parent));
    assert_eq!(c.path_value(&path(&["args", "id"])), Some(json("7")));
    assert_eq!(c.path_value(&path(&["args", "filter", "tags", "1"])), Some(json("\"b\"")));
    assert_eq!(c.path_value(&path(&["args"])), Some(w.args.clone()));
    assert_eq!(c.path_value(&path(&["value", "userId"])), Some(json("3")));
    assert_eq!(c.path_value(&path(&["value", "list", "1", "a"])), Some(json("2")));
    assert_eq!(c.path_value(&path(&["vars", "v"])), Some(Json::String("var-value".into())));
    assert_eq!(c.path_value(&path(&["env", "KEY"])), Some(Json::String("secret".into())));
    assert_eq!(c.path_value(&path(&["headers", "X-Trace"])), Some(Json::String("t1".into())));
}

#[test]
fn path_value_of_what_is_absent() {
    let w = world();
    let c = ctx(&w, None);
    assert_eq!(c.path_value(&path(&[])), None);
    assert_eq!(c.path_value(&path(&["nothing"])), None);
    assert_eq!(c.path_value(&path(&["args", "missing"])), None);
    assert_eq!(c.path_value(&path(&["args", "id", "deeper"])), None);
    assert_eq!(c.path_value(&path(&["args", "filter", "tags", "2"])), None);
    assert_eq!(c.path_value(&path(&["args", "filter", "tags", "x"])), None);
    assert_eq!(c.path_value(&path(&["value", "userId"])), None);
    assert_eq!(c.path_value(&path(&["vars"])), None);
    assert_eq!(c.path_value(&path(&["vars", "v", "w"])), None);
    assert_eq!(c.path_value(&path(&["env", "NONE"])), None);
    assert_eq!(c.path_value(&path(&["headers", "x-trace"])), None);
}

#[test]
fn numbers_in_paths() {
    assert_eq!(parse_index("0"), Some(0));
    assert_eq!(parse_index("007"), Some(7));
    assert_eq!(parse_index("120"), Some(120));
    assert_eq!(parse_index(""), None);
    assert_eq!(parse_index("-1"), None);
    assert_eq!(parse_index("1a"), None);
    assert_eq!(parse_number("18446744073709551615"), Some(u64::MAX));
    assert_eq!(parse_number("18446744073709551616"), None);
    assert_eq!(parse_number("99999999999999999999999"), None);
}

#[test]
fn context_path_that_is_absent_is_null() {
    let w = world();
    let c = ctx(&w, None);
    let mut s = session(vec![]);
    for segs in [vec![], path(&["args", "nope"]), path(&["value", "id"]), path(&["other"])] {
        let ir = IR::ContextPath(segs);
        assert_eq!(done(eval(&ir, &c, &mut s)), Ok(Json::Null));
    }
    let ir = IR::ContextPath(path(&["args", "id"]));
    assert_eq!(done(eval(&ir, &c, &mut s)), Ok(json("7")));
    assert_eq!(s.used, 0);
}

#[test]
fn dynamic_value_is_rendered() {
    let w = world();
    let parent = json(r#"{"n": 5}"#);
    let c = ctx(&w, Some(&parent));
    let ir = IR::Dynamic(DynamicValue::Object(vec![
        ("a".into(), DynamicValue::Mustache(Mustache::parse("{{.args.id}}"))),
        ("b".into(), DynamicValue::Mustache(Mustache::parse("id-{{.args.id}}"))),
        ("c".into(), DynamicValue::Array(vec![DynamicValue::Mustache(Mustache::parse("{{.value.n}}"))])),
        ("d".into(), DynamicValue::Value(json("[true]"))),
        ("e".into(), DynamicValue::Mustache(Mustache::parse("{{.args.filter}}"))),
        ("f".into(), DynamicValue::Mustache(Mustache::parse("{{.args.gone}}"))),
    ]));
    let mut s = session(vec![]);
    assert_eq!(
        done(eval(&ir, &c, &mut s)),
        Ok(json(r#"{"a": 7, "b": "id-7", "c": [5], "d": [true], "e": {"tags": ["a", "b"]}, "f": ""}"#))
    );
}

#[test]
fn mustache_render_fills_holes() {
    let w = world();
    let c = ctx(&w, None);
    assert_eq!(Mustache::parse("/u/{{.args.id}}/{{.args.name}}").render(&c), "/u/7/x y");
    assert_eq!(Mustache::parse("{{.env.KEY}}-{{.vars.v}}-{{.headers.X-Trace}}").render(&c), "secret-var-value-t1");
    assert_eq!(Mustache::parse("[{{.value.id}}]").render(&c), "[]");
    assert_eq!(Mustache::parse("{{.args.filter.tags}}").render(&c), r#"["a","b"]"#);
}

#[test]
fn path_selects_in_the_result() {
    let w = world();
    let c = ctx(&w, None);
    let inner = IR::Dynamic(DynamicValue::Value(json(r#"{"data": {"items": [10, 20]}}"#)));
    let mut s = session(vec![]);
    let ir = IR::Path(Box::new(inner.clone()), path(&["data", "items", "1"]));
    assert_eq!(done(eval(&ir, &c, &mut s)), Ok(json("20")));
    let ir = IR::Path(Box::new(inner.clone()), path(&["data", "missing"]));
    assert_eq!(done(eval(&ir, &c, &mut s)), Ok(Json::Null));
    let ir = IR::Path(Box::new(inner), vec![]);
    assert_eq!(done(eval(&ir, &c, &mut s)), Ok(json(r#"{"data": {"items": [10, 20]}}"#)));
}

#[test]
fn pipe_binds_the_left_result_as_value() {
    let w = world();
    let c = ctx(&w, None);
    // the right side reads `.value`, which only the pipe sets
    let right = IR::ContextPath(path(&["value", "id"]));
    let mut s = session(vec![Ok(json(r#"{"id": 42}"#))]);
    let ir = IR::IO(http_io("http://upstream/user")).pipe(right.clone());
    assert_eq!(done(eval(&ir, &c, &mut s)), Ok(json("42")));
    assert_eq!(s.used, 1);
    // alone, the right side sees no value
    assert_eq!(done(eval(&right, &c, &mut s)), Ok(Json::Null));
}

#[test]
fn pipe_does_not_evaluate_the_right_side_before_the_left_has_a_value() {
    let w = world();
    let c = ctx(&w, None);
    let ir = IR::IO(http_io("http://upstream/a")).pipe(IR::IO(http_io("http://upstream/b/{{.value.id}}")));
    let mut s = session(vec![]);
    match eval(&ir, &c, &mut s) {
        Step::NeedIo { io, value } => {
            assert_eq!(io.to_request(&c), Ok(http_request("http://upstream/a")));
            assert_eq!(value, None);
        }
        other => panic!("unexpected {:?}", other),
    }
    // the left side fails: the right side is not asked for
    let mut s = session(vec![Err(EvalError::UpstreamStatus { code: 500 })]);
    assert_eq!(done(eval(&ir, &c, &mut s)), Err(EvalError::UpstreamStatus { code: 500 }));
    assert_eq!(s.used, 1);
    // the left side has a value: the right side is asked for with it
    let mut s = session(vec![Ok(json(r#"{"id": 9}"#))]);
    match eval(&ir, &c, &mut s) {
        Step::NeedIo { io, value } => {
            assert_eq!(value, Some(json(r#"{"id": 9}"#)));
            let bound = value.unwrap();
            assert_eq!(io.to_request(&c.with_value(&bound)), Ok(http_request("http://upstream/b/9")));
        }
        other => panic!("unexpected {:?}", other),
    }
    assert_eq!(s.used, 1);
}

fn http_request(url: &str) -> Request {
    Request::Http { method: Method::GET, url: url.to_string(), headers: vec![], body: None }
}

#[test]
fn protect_denies() {
    let w = world();
    let c = ctx(&w, None);
    let auth = Auth::Provider(Provider::Basic { htpasswd: "admin:pw".into() });
    let protected = IR::Protect(auth.clone(), Box::new(IR::Service("secret".into())));
    // nothing is known of the credentials yet
    let mut s = session(vec![]);
    match eval(&protected, &c, &mut s) {
        Step::NeedAuth(a) => assert_eq!(*a, auth),
        other => panic!("unexpected {:?}", other),
    }
    // they are refused
    let mut s = session(vec![Err(EvalError::Unauthorized)]);
    assert_eq!(done(eval(&protected, &c, &mut s)), Err(EvalError::Unauthorized));
    // a sibling that is not protected still resolves
    assert_eq!(done(eval(&IR::Service("open".into()), &c, &mut s)), Ok(Json::String("open".into())));
    // any refusal is reported as unauthorized
    let mut s = session(vec![Err(EvalError::Timeout)]);
    assert_eq!(done(eval(&protected, &c, &mut s)), Err(EvalError::Unauthorized));
    // they are accepted
    let mut s = session(vec![Ok(Json::Null)]);
    assert_eq!(done(eval(&protected, &c, &mut s)), Ok(Json::String("secret".into())));
    assert_eq!(s.used, 1);
}

#[test]
fn map_looks_the_key_up() {
    let w = world();
    let c = ctx(&w, None);
    let table = |input: &str| {
        IR::MapLookup(MapLookup {
            input: Box::new(IR::Dynamic(DynamicValue::Value(json(input)))),
            map: pairs(&[("a", "Alpha"), ("1", "One"), ("true", "Yes")]),
        })
    };
    let mut s = session(vec![]);
    assert_eq!(done(eval(&table("\"a\""), &c, &mut s)), Ok(Json::String("Alpha".into())));
    assert_eq!(done(eval(&table("1"), &c, &mut s)), Ok(Json::String("One".into())));
    assert_eq!(done(eval(&table("true"), &c, &mut s)), Ok(Json::String("Yes".into())));
    assert_eq!(done(eval(&table("\"b\""), &c, &mut s)), Err(EvalError::MapKeyMissing));
    assert_eq!(done(eval(&table("null"), &c, &mut s)), Err(EvalError::MapKeyMissing));
    assert_eq!(done(eval(&table("[\"a\"]"), &c, &mut s)), Err(EvalError::MapKeyMissing));
    assert_eq!(key_of(&json("false")), Some("false".to_string()));
    assert_eq!(key_of(&json("{}")), None);
}

#[test]
fn discriminate_tags_the_value() {
    let w = world();
    let c = ctx(&w, None);
    let d = |field: Option<&str>| Discriminator {
        name: "Animal".into(),
        types: vec!["Cat".into(), "Dog".into()],
        typename_field: field.map(|f| f.to_string()),
    };
    let of = |d: Discriminator, v: &str| IR::Discriminate(d, Box::new(IR::Dynamic(DynamicValue::Value(json(v)))));
    let mut s = session(vec![]);
    assert_eq!(
        done(eval(&of(d(Some("kind")), r#"{"kind": "Cat", "n": 1}"#), &c, &mut s)),
        Ok(json(r#"{"kind": "Cat", "n": 1, "__typename": "Cat"}"#))
    );
    assert_eq!(
        done(eval(&of(d(None), r#"{"__typename": "Dog", "n": 1}"#), &c, &mut s)),
        Ok(json(r#"{"__typename": "Dog", "n": 1}"#))
    );
    assert_eq!(
        done(eval(&of(d(Some("kind")), r#"[{"kind": "Dog", "__typename": "x"}, null]"#), &c, &mut s)),
        Ok(json(r#"[{"kind": "Dog", "__typename": "Dog"}, null]"#))
    );
    assert_eq!(done(eval(&of(d(None), "null"), &c, &mut s)), Ok(Json::Null));
    for bad in [r#"{"kind": "Bird"}"#, r#"{"n": 1}"#, r#"{"kind": 3}"#, "3", r#"[{"kind": "Cat"}, 1]"#] {
        assert_eq!(done(eval(&of(d(Some("kind")), bad), &c, &mut s)), Err(EvalError::DiscriminatorFailed));
    }
    assert_eq!(d(None).tag(json(r#"{"__typename": "Cat"}"#)), Some(json(r#"{"__typename": "Cat"}"#)));
    assert_eq!(d(None).tag(json("1")), None);
}

#[test]
fn entity_dispatches_on_the_typename() {
    let w = world();
    let entity = IR::Entity(vec![
        ("User".into(), IR::ContextPath(path(&["value", "id"]))),
        ("Post".into(), IR::Service("post".into())),
    ]);
    let mut s = session(vec![]);
    let user = json(r#"{"__typename": "User", "id": 7}"#);
    assert_eq!(done(eval(&entity, &ctx(&w, Some(&user)), &mut s)), Ok(json("7")));
    let post = json(r#"{"__typename": "Post"}"#);
    assert_eq!(done(eval(&entity, &ctx(&w, Some(&post)), &mut s)), Ok(Json::String("post".into())));
    for absent in [r#"{"__typename": "Other"}"#, r#"{"id": 1}"#, r#"{"__typename": 1}"#, "3"] {
        let v = json(absent);
        assert_eq!(done(eval(&entity, &ctx(&w, Some(&v)), &mut s)), Ok(Json::Null));
    }
    assert_eq!(done(eval(&entity, &ctx(&w, None), &mut s)), Ok(Json::Null));
}

#[test]
fn service_and_deferred() {
    let w = world();
    let c = ctx(&w, None);
    let mut s = session(vec![]);
    assert_eq!(done(eval(&IR::Service("type Query".into()), &c, &mut s)), Ok(Json::String("type Query".into())));
    let deferred = IR::Deferred {
        id: IrId::new(5),
        label: Some("later".into()),
        ir: Box::new(IR::IO(http_io("http://upstream/slow"))),
        path: vec![],
    };
    assert_eq!(done(eval(&deferred, &c, &mut s)), Ok(Json::Null));
    assert_eq!(done(eval(&deferred, &c, &mut s)), Ok(Json::Null));
    assert_eq!(s.deferred, vec![5, 5]);
    assert_eq!(s.used, 0);
}

#[test]
fn io_reads_the_next_answer() {
    let w = world();
    let c = ctx(&w, None);
    let io = IR::IO(http_io("http://upstream/a"));
    let mut s = session(vec![Ok(json("1")), Err(EvalError::Timeout), Err(EvalError::DeserializeFailed)]);
    assert_eq!(done(eval(&io, &c, &mut s)), Ok(json("1")));
    assert_eq!(done(eval(&io, &c, &mut s)), Err(EvalError::Timeout));
    assert_eq!(done(eval(&io, &c, &mut s)), Err(EvalError::DeserializeFailed));
    assert!(matches!(eval(&io, &c, &mut s), Step::NeedIo { .. }));
    assert_eq!(s.used, 3);
}

#[test]
fn cache_ttl() {
    let w = world();
    let c = ctx(&w, None);
    let field = IR::Cache(Cache { max_age: 1000, io: Box::new(http_io("http://upstream/a")) });
    let mut s = session(vec![Ok(json("\"first\""))]);
    // the first query makes the call
    s.now = 0;
    assert_eq!(done(eval(&field, &c, &mut s)), Ok(json("\"first\"")));
    assert_eq!(s.used, 1);
    // 500 ms later the value is served without a call
    s.now = 500;
    assert_eq!(done(eval(&field, &c, &mut s)), Ok(json("\"first\"")));
    assert_eq!(s.used, 1);
    s.now = 999;
    assert_eq!(done(eval(&field, &c, &mut s)), Ok(json("\"first\"")));
    assert_eq!(s.used, 1);
    // at 1500 ms the entry has expired: a second call is needed
    s.now = 1500;
    assert!(matches!(eval(&field, &c, &mut s), Step::NeedIo { .. }));
    s.answers.push(Ok(json("\"second\"")));
    assert_eq!(done(eval(&field, &c, &mut s)), Ok(json("\"second\"")));
    assert_eq!(s.used, 2);
    s.now = 2499;
    assert_eq!(done(eval(&field, &c, &mut s)), Ok(json("\"second\"")));
    assert_eq!(s.used, 2);
}

#[test]
fn cache_expires_exactly_at_max_age() {
    let w = world();
    let c = ctx(&w, None);
    let field = IR::Cache(Cache { max_age: 10, io: Box::new(http_io("http://upstream/a")) });
    let mut s = session(vec![Ok(json("1"))]);
    s.now = 100;
    assert_eq!(done(eval(&field, &c, &mut s)), Ok(json("1")));
    s.now = 109;
    assert_eq!(done(eval(&field, &c, &mut s)), Ok(json("1")));
    s.now = 110;
    assert!(matches!(eval(&field, &c, &mut s), Step::NeedIo { .. }));
    assert_eq!(s.store.len(), 0);
}

#[test]
fn cache_never_stores_errors_and_nothing_for_age_zero() {
    let w = world();
    let c = ctx(&w, None);
    let field = IR::Cache(Cache { max_age: 1000, io: Box::new(http_io("http://upstream/a")) });
    let mut s = session(vec![Err(EvalError::UpstreamIo), Ok(json("2"))]);
    assert_eq!(done(eval(&field, &c, &mut s)), Err(EvalError::UpstreamIo));
    assert_eq!(s.store.len(), 0);
    assert_eq!(done(eval(&field, &c, &mut s)), Ok(json("2")));
    assert_eq!(s.store.len(), 1);

    let uncached = IR::Cache(Cache { max_age: 0, io: Box::new(http_io("http://upstream/b")) });
    let mut s = session(vec![Ok(json("1")), Ok(json("2"))]);
    assert_eq!(done(eval(&uncached, &c, &mut s)), Ok(json("1")));
    assert_eq!(done(eval(&uncached, &c, &mut s)), Ok(json("2")));
    assert_eq!(s.store.len(), 0);
}

#[test]
fn cache_is_keyed_by_the_rendered_request() {
    let w = world();
    let field = IR::Cache(Cache { max_age: 1000, io: Box::new(http_io("http://upstream/u/{{.value.id}}")) });
    let one = json(r#"{"id": 1}"#);
    let two = json(r#"{"id": 2}"#);
    let mut s = session(vec![Ok(json("\"one\"")), Ok(json("\"two\""))]);
    assert_eq!(done(eval(&field, &ctx(&w, Some(&one)), &mut s)), Ok(json("\"one\"")));
    assert_eq!(done(eval(&field, &ctx(&w, Some(&two)), &mut s)), Ok(json("\"two\"")));
    assert_eq!(done(eval(&field, &ctx(&w, Some(&one)), &mut s)), Ok(json("\"one\"")));
    assert_eq!(s.used, 2);
    // a script call has no fingerprint and is never cached
    let js = IR::Cache(Cache { max_age: 1000, io: Box::new(IO::Js { name: "f".into() }) });
    let mut s = session(vec![Ok(json("1")), Ok(json("2"))]);
    assert_eq!(done(eval(&js, &ctx(&w, None), &mut s)), Ok(json("1")));
    assert_eq!(done(eval(&js, &ctx(&w, None), &mut s)), Ok(json("2")));
}

#[test]
fn store_keeps_the_most_recently_used() {
    let mut store = CacheStore::new(2);
    store.insert(1, json("1"), 0, 100);
    store.insert(2, json("2"), 0, 100);
    assert_eq!(store.get(1, 10), Some(json("1")));
    // 2 is now the least recently used and leaves
    store.insert(3, json("3"), 10, 100);
    assert_eq!(store.len(), 2);
    assert_eq!(store.get(2, 10), None);
    assert_eq!(store.get(1, 10), Some(json("1")));
    assert_eq!(store.get(3, 10), Some(json("3")));
    // a new value for a key takes the place of the old one
    store.insert(1, json("11"), 20, 5);
    assert_eq!(store.len(), 2);
    assert_eq!(store.get(1, 24), Some(json("11")));
    assert_eq!(store.get(1, 25), None);
    assert_eq!(store.len(), 1);
    // no capacity, nothing stored
    let mut none = CacheStore::new(0);
    none.insert(1, json("1"), 0, 100);
    assert_eq!(none.get(1, 0), None);
    // an expiry beyond what can be counted is the last moment
    let mut late = CacheStore::new(1);
    late.insert(1, json("1"), u64::MAX - 1, 100);
    assert_eq!(late.get(1, u64::MAX - 1), Some(json("1")));
    assert_eq!(late.get(1, u64::MAX), None);
}

fn expected_fingerprint(text: &str) -> u64 {
    let mut h: u128 = 14695981039346656037;
    for c in text.chars() {
        h = (h * 1099511628211 + c as u128) % (1u128 << 64);
    }
    h as u64
}

#[test]
fn requests_and_their_fingerprints() {
    let w = world();
    let parent = json(r#"{"id": 3}"#);
    let c = ctx(&w, Some(&parent));
    assert_eq!(fingerprint_of(&vec![]), 14695981039346656037);
    assert_eq!(fingerprint_of(&vec!['a']), expected_fingerprint("a"));
    assert_eq!(fingerprint_of(&vec!['a']), 12638153115695167552u64);
    assert_eq!(fingerprint_of(&vec!['a', 'b']), 590790720448369954u64);

    let template = HttpRequestTemplate {
        method: Method::POST,
        root_url: Mustache::parse("http://upstream/users/{{.value.id}}"),
        query: vec![("q".into(), Mustache::parse("{{.args.id}}")), ("r".into(), Mustache::parse("z"))],
        headers: vec![("authorization".into(), Mustache::parse("Bearer {{.env.KEY}}"))],
        body: Some(DynamicValue::Object(vec![("id".into(), DynamicValue::Mustache(Mustache::parse("{{.args.id}}")))])),
    };
    let request = template.to_request(&c).unwrap();
    assert_eq!(
        request,
        Request::Http {
            method: Method::POST,
            url: "http://upstream/users/3?q=7&r=z".into(),
            headers: pairs(&[("authorization", "Bearer secret")]),
            body: Some(r#"{"id":7}"#.into()),
        }
    );
    let canonical = "http\nPOST\nhttp://upstream/users/3?q=7&r=z\nauthorization=Bearer secret\n{\"id\":7}";
    assert_eq!(request.fingerprint().as_u64(), expected_fingerprint(canonical));

    let io = IO::Http {
        req_template: template,
        group_by: None,
        dl_id: None,
        http_filter: None,
        is_list: false,
        dedupe: false,
        is_dependent: true,
    };
    assert_eq!(io.cache_key(&c).map(|k| k.as_u64()), Some(expected_fingerprint(canonical)));
    // another parent value, another fingerprint
    let other = json(r#"{"id": 4}"#);
    assert_ne!(io.cache_key(&ctx(&w, Some(&other))).map(|k| k.as_u64()), io.cache_key(&c).map(|k| k.as_u64()));
    assert_eq!(IO::Js { name: "f".into() }.cache_key(&c).map(|k| k.as_u64()), None);
    assert_eq!(
        IO::Js { name: "f".into() }.to_request(&c),
        Ok(Request::Js { name: "f".into(), value: parent.clone() })
    );
    assert_eq!(
        Request::Js { name: "f".into(), value: Json::Null }.fingerprint().as_u64(),
        expected_fingerprint("js\nf")
    );
}

#[test]
fn graphql_and_grpc_requests() {
    let w = world();
    let c = ctx(&w, None);
    let graphql = GraphqlRequestTemplate {
        url: "http://upstream/graphql".into(),
        operation_type: OperationType::Query,
        operation_name: "user".into(),
        operation_arguments: vec![("id".into(), Mustache::parse("{{.args.id}}"))],
        headers: vec![],
        selection: Some(Mustache::parse("{ id name }")),
    };
    let request = graphql.to_request(&c);
    assert_eq!(
        request,
        Request::GraphQL {
            url: "http://upstream/graphql".into(),
            operation_type: OperationType::Query,
            operation_name: "user".into(),
            arguments: pairs(&[("id", "7")]),
            headers: vec![],
            selection: Some("{ id name }".into()),
        }
    );
    assert_eq!(
        request.fingerprint().as_u64(),
        expected_fingerprint("graphql\nquery\nhttp://upstream/graphql\nuser\nid=7\n{ id name }")
    );
    let grpc = GrpcRequestTemplate {
        url: Mustache::parse("http://upstream"),
        headers: vec![("x".into(), Mustache::parse("{{.vars.v}}"))],
        body: Some(DynamicValue::Mustache(Mustache::parse("{{.args.name}}"))),
        service: "news.NewsService".into(),
        method: "GetNews".into(),
    };
    let request = grpc.to_request(&c).unwrap();
    assert_eq!(
        request,
        Request::Grpc {
            url: "http://upstream".into(),
            service: "news.NewsService".into(),
            method: "GetNews".into(),
            headers: pairs(&[("x", "var-value")]),
            body: Some("x y".into()),
        }
    );
    assert_eq!(
        request.fingerprint().as_u64(),
        expected_fingerprint("grpc\nhttp://upstream\nnews.NewsService\nGetNews\nx=var-value\nx y")
    );
    let bad = GrpcRequestTemplate {
        url: Mustache::parse("u"),
        headers: vec![],
        body: Some(DynamicValue::Value(Json::Number("nan".into()))),
        service: "s".into(),
        method: "m".into(),
    };
    assert_eq!(bad.to_request(&c), Err(()));
}

#[test]
fn attempt_replays_from_the_cache_as_it_was() {
    let w = world();
    let c = ctx(&w, None);
    let field = IR::Pipe(
        Box::new(IR::Cache(Cache { max_age: 1000, io: Box::new(http_io("http://upstream/a")) })),
        Box::new(IR::IO(http_io("http://upstream/b/{{value.id}}"))),
    );
    let store = CacheStore::new(16);
    // nothing is known yet: the cached call is needed
    let (step, first) = attempt(&field, &c, &store, 10, vec![]);
    assert!(matches!(step, Step::NeedIo { .. }));
    assert_eq!(first.used, 0);
    // with its answer the second call is needed, for the value that the first gave
    let (step, second) = attempt(&field, &c, &store, 10, vec![Ok(json(r#"{"id": 4}"#))]);
    match step {
        Step::NeedIo { io, value } => {
            assert_eq!(value, Some(json(r#"{"id": 4}"#)));
            let inner = EvalContext { value: value.as_ref(), ..c };
            assert_eq!(io.to_request(&inner), Ok(http_request("http://upstream/b/4")));
        }
        other => panic!("no call: {:?}", other),
    }
    assert_eq!(second.used, 1);
    // with both answers the field is resolved, and both answers were read in order
    let answers = vec![Ok(json(r#"{"id": 4}"#)), Ok(json("\"b4\""))];
    let (step, third) = attempt(&field, &c, &store, 10, answers);
    assert_eq!(done(step), Ok(json("\"b4\"")));
    assert_eq!(third.used, 2);
    // the store that was handed in is as it was; the session's store holds the entry
    assert_eq!(store.len(), 0);
    assert_eq!(third.store.len(), 1);
    // from the new store the cached call needs no answer any more
    let (step, fourth) = attempt(&field, &c, &third.store, 20, vec![Ok(json("\"again\""))]);
    assert_eq!(done(step), Ok(json("\"again\"")));
    assert_eq!(fourth.used, 1);
}

#[test]
fn a_cloned_store_serves_what_the_first_holds() {
    let mut store = CacheStore::new(2);
    store.insert(7, json("\"seven\""), 0, 100);
    let mut copy = store.clone();
    assert_eq!(copy.len(), 1);
    assert_eq!(copy.get(7, 50), Some(json("\"seven\"")));
    assert_eq!(copy.get(7, 100), None);
    // the first is untouched by what the copy did
    assert_eq!(store.get(7, 50), Some(json("\"seven\"")));
}

fn answer(status: u16, body: &str) -> Response {
    Response { status, body: body.to_string() }
}

#[test]
fn answers_are_read_by_the_kind_of_call() {
    let call = http_io("http://upstream/a");
    assert_eq!(call.read(&answer(200, r#"{"id": 1}"#)), Ok(json(r#"{"id": 1}"#)));
    assert_eq!(call.read(&answer(299, "[1, 2]")), Ok(json("[1, 2]")));
    assert_eq!(call.read(&answer(204, "null")), Ok(Json::Null));
    // a status that is no success, whatever the body holds
    assert_eq!(call.read(&answer(404, r#"{"id": 1}"#)), Err(EvalError::UpstreamStatus { code: 404 }));
    assert_eq!(call.read(&answer(199, "1")), Err(EvalError::UpstreamStatus { code: 199 }));
    assert_eq!(call.read(&answer(300, "1")), Err(EvalError::UpstreamStatus { code: 300 }));
    assert_eq!(call.read(&answer(0, "1")), Err(EvalError::UpstreamStatus { code: 0 }));
    assert_eq!(call.read(&answer(500, "not json")), Err(EvalError::UpstreamStatus { code: 500 }));
    // a body that is no JSON
    assert_eq!(call.read(&answer(200, "not json")), Err(EvalError::DeserializeFailed));
    assert_eq!(call.read(&answer(200, "")), Err(EvalError::DeserializeFailed));
    assert!(call.succeeds(200) && call.succeeds(299) && !call.succeeds(300) && !call.succeeds(199));
    // a call that expects a list
    let list = IO::Http {
        req_template: HttpRequestTemplate {
            method: Method::GET,
            root_url: Mustache::parse("http://upstream/list"),
            query: vec![],
            headers: vec![],
            body: None,
        },
        group_by: None,
        dl_id: None,
        http_filter: None,
        is_list: true,
        dedupe: false,
        is_dependent: false,
    };
    assert_eq!(list.read(&answer(200, "[]")), Ok(json("[]")));
    assert_eq!(list.read(&answer(200, r#"[{"id": 1}]"#)), Ok(json(r#"[{"id": 1}]"#)));
    assert_eq!(list.read(&answer(200, r#"{"id": 1}"#)), Err(EvalError::DeserializeFailed));
    assert_eq!(list.read(&answer(200, "null")), Err(EvalError::DeserializeFailed));
    assert_eq!(list.read(&answer(503, "[]")), Err(EvalError::UpstreamStatus { code: 503 }));
    // gRPC succeeds with the status 0
    let grpc = IO::Grpc {
        req_template: GrpcRequestTemplate {
            url: Mustache::parse("http://upstream"),
            headers: vec![],
            body: None,
            service: "news.NewsService".into(),
            method: "GetNews".into(),
        },
        group_by: None,
        dl_id: None,
        dedupe: false,
    };
    assert_eq!(grpc.read(&answer(0, r#"{"news": []}"#)), Ok(json(r#"{"news": []}"#)));
    assert_eq!(grpc.read(&answer(200, r#"{"news": []}"#)), Err(EvalError::UpstreamStatus { code: 200 }));
    assert_eq!(grpc.read(&answer(14, "")), Err(EvalError::UpstreamStatus { code: 14 }));
    // a script call has no status
    let script = IO::Js { name: "f".to_string() };
    assert_eq!(script.read(&answer(0, "7")), Ok(json("7")));
    assert_eq!(script.read(&answer(500, "[7]")), Ok(json("[7]")));
    assert_eq!(script.read(&answer(200, "{")), Err(EvalError::DeserializeFailed));
}
