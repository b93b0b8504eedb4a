use tailcall::ir::{Cache, DataLoaderId, IoId, IrId, MapLookup, IO, IR};
use tailcall::json::Json;
use tailcall::template::{DynamicValue, HttpRequestTemplate, Method, Mustache};

fn http(path: &str) -> IO {
    IO::Http {
        req_template: HttpRequestTemplate {
            method: Method::GET,
            root_url: Mustache::parse(path),
            query: vec![],
            headers: vec![],
            body: None,
        },
        group_by: None,
        dl_id: None,
        http_filter: None,
        is_list: false,
        dedupe: true,
        is_dependent: false,
    }
}

fn url_of(io: &IO) -> String {
    match io {
        IO::Http { req_template, .. } => req_template.root_url.to_string(),
        _ => panic!("not an http call"),
    }
}

fn sample() -> IR {
    IR::Pipe(
        Box::new(IR::IO(http("http://upstream/users"))),
        Box::new(IR::Entity(vec![
            ("User".to_string(), IR::Path(Box::new(IR::IO(http("http://upstream/a"))), vec!["data".to_string()])),
            ("Post".to_string(), IR::Cache(Cache { max_age: 5, io: Box::new(http("http://upstream/b")) })),
            ("None".to_string(), IR::Service("sdl".to_string())),
        ])),
    )
}

/// The calls of a tree, from left to right, each with the age of its cache.
fn calls(ir: &IR, out: &mut Vec<(String, Option<u64>)>) {
    match ir {
        IR::IO(io) => out.push((url_of(io), None)),
        IR::Cache(c) => out.push((url_of(&c.io), Some(c.max_age))),
        IR::Path(e, _) | IR::Protect(_, e) | IR::Discriminate(_, e) => calls(e, out),
        IR::MapLookup(m) => calls(&m.input, out),
        IR::Pipe(a, b) => {
            calls(a, out);
            calls(b, out);
        }
        IR::Entity(entries) => entries.iter().for_each(|(_, e)| calls(e, out)),
        IR::Deferred { ir, .. } => calls(ir, out),
        IR::Dynamic(_) | IR::ContextPath(_) | IR::Service(_) => {}
    }
}

#[test]
fn ids_hand_back_what_they_were_made_of() {
    assert_eq!(IrId::new(7).as_u64(), 7);
    assert_eq!(IrId::new(1234).to_string(), "1234");
    assert_eq!(IrId::new(0).to_string(), "0");
    assert_eq!(DataLoaderId::new(3).as_usize(), 3);
    assert_eq!(IoId::new(u64::MAX).as_u64(), u64::MAX);
}

#[test]
fn io_flags() {
    let mut io = http("http://upstream");
    assert!(io.dedupe());
    assert!(!io.is_dependent());
    if let IO::Http { is_dependent, dedupe, .. } = &mut io {
        *is_dependent = true;
        *dedupe = false;
    }
    assert!(io.is_dependent());
    assert!(!io.dedupe());
    let js = IO::Js { name: "hook".to_string() };
    assert!(!js.is_dependent());
    assert!(!js.dedupe());
    assert_eq!(js.to_string(), "Js");
    assert_eq!(http("x").to_string(), "Http");
}

#[test]
fn kinds_of_resolvers() {
    assert_eq!(IR::Service("x".into()).to_string(), "Service");
    assert_eq!(IR::IO(IO::Js { name: "f".into() }).to_string(), "Js");
    assert_eq!(IR::ContextPath(vec![]).to_string(), "ContextPath");
    assert_eq!(
        IR::MapLookup(MapLookup { input: Box::new(IR::Service("x".into())), map: vec![] }).to_string(),
        "Map"
    );
}

#[test]
fn pipe_puts_left_before_right() {
    let piped = IR::Service("a".into()).pipe(IR::Service("b".into()));
    match piped {
        IR::Pipe(a, b) => {
            assert!(matches!(*a, IR::Service(ref s) if s == "a"));
            assert!(matches!(*b, IR::Service(ref s) if s == "b"));
        }
        _ => panic!("not a pipe"),
    }
}

#[test]
fn modify_without_substitution_is_identity() {
    let before = sample();
    let mut found = vec![];
    calls(&before, &mut found);
    let after = before.modify(&mut |_: &IR| None);
    let mut kept = vec![];
    calls(&after, &mut kept);
    assert_eq!(found, kept);
    assert_eq!(
        kept,
        vec![
            ("http://upstream/users".to_string(), None),
            ("http://upstream/a".to_string(), None),
            ("http://upstream/b".to_string(), Some(5)),
        ]
    );
    match after {
        IR::Pipe(_, b) => match *b {
            IR::Entity(entries) => {
                let names: Vec<&str> = entries.iter().map(|(k, _)| k.as_str()).collect();
                assert_eq!(names, vec!["User", "Post", "None"]);
            }
            _ => panic!("not an entity"),
        },
        _ => panic!("not a pipe"),
    }
}

#[test]
fn modify_visits_every_node_children_first() {
    let mut seen = vec![];
    let after = sample().modify(&mut |ir: &IR| {
        seen.push(match ir {
            IR::IO(io) => url_of(io),
            other => other.to_string(),
        });
        None
    });
    assert_eq!(
        seen,
        vec![
            "http://upstream/users",
            "http://upstream/a",
            "Path",
            "http://upstream/b",
            "Cache",
            "Service",
            "Entity",
            "Pipe",
        ]
    );
    assert!(matches!(after, IR::Pipe(_, _)));
}

#[test]
fn modify_offers_a_node_rebuilt_over_its_rewritten_children() {
    // the service is replaced first; the path is then offered over the new service
    let tree = IR::Path(Box::new(IR::Service("old".into())), vec!["a".to_string()]);
    let after = tree.modify(&mut |ir: &IR| match ir {
        IR::Path(child, _) => Some(IR::ContextPath(vec![match &**child {
            IR::Service(sdl) => format!("seen {}", sdl),
            _ => "seen another node".to_string(),
        }])),
        IR::Service(_) => Some(IR::Service("new".into())),
        _ => None,
    });
    match after {
        IR::ContextPath(path) => assert_eq!(path, vec!["seen new".to_string()]),
        other => panic!("not the substitute: {:?}", other),
    }
    // a substitute for a child stays below a parent that the modifier declines
    let tree = IR::Path(Box::new(IR::Service("old".into())), vec!["a".to_string()]);
    let after = tree.modify(&mut |ir: &IR| match ir {
        IR::Service(_) => Some(IR::IO(http("http://upstream/substitute"))),
        _ => None,
    });
    match after {
        IR::Path(inner, path) => {
            assert_eq!(path, vec!["a".to_string()]);
            assert!(matches!(*inner, IR::IO(ref io) if url_of(io) == "http://upstream/substitute"));
        }
        other => panic!("not a path: {:?}", other),
    }
    // a substitute is not itself rewritten: the modifier has seen what stands below it
    let mut offered = 0;
    let after = sample().modify(&mut |ir: &IR| {
        offered += 1;
        match ir {
            IR::Pipe(_, _) => Some(IR::IO(http("http://upstream/whole"))),
            _ => None,
        }
    });
    assert_eq!(offered, 8);
    assert!(matches!(after, IR::IO(ref io) if url_of(io) == "http://upstream/whole"));
}

#[test]
fn modify_keeps_a_rewritten_call_cached() {
    let cached = IR::Cache(Cache { max_age: 9, io: Box::new(http("http://upstream/old")) });
    let after = cached.modify(&mut |ir: &IR| match ir {
        IR::IO(_) => Some(IR::IO(http("http://upstream/new"))),
        _ => None,
    });
    let mut found = vec![];
    calls(&after, &mut found);
    assert_eq!(found, vec![("http://upstream/new".to_string(), Some(9))]);

    // a substitute that is no call takes the place of the cache
    let cached = IR::Cache(Cache { max_age: 9, io: Box::new(http("http://upstream/old")) });
    let after = cached.modify(&mut |ir: &IR| match ir {
        IR::IO(_) => Some(IR::Service("gone".into())),
        _ => None,
    });
    assert!(matches!(after, IR::Service(_)));
}

#[test]
fn wrap_caches_every_call() {
    let wrapped = Cache::wrap(1000, sample());
    let mut found = vec![];
    calls(&wrapped, &mut found);
    assert_eq!(
        found,
        vec![
            ("http://upstream/users".to_string(), Some(1000)),
            ("http://upstream/a".to_string(), Some(1000)),
            ("http://upstream/b".to_string(), Some(1000)),
        ]
    );
}

#[test]
fn wrap_is_idempotent_and_keeps_the_rest() {
    let once = Cache::wrap(7, sample());
    let mut first = vec![];
    calls(&once, &mut first);
    let twice = Cache::wrap(7, once);
    let mut second = vec![];
    calls(&twice, &mut second);
    assert_eq!(first, second);
    match twice {
        IR::Pipe(a, b) => {
            assert!(matches!(*a, IR::Cache(_)));
            match *b {
                IR::Entity(entries) => {
                    assert_eq!(entries.len(), 3);
                    assert!(matches!(entries[0].1, IR::Path(_, _)));
                    assert!(matches!(entries[1].1, IR::Cache(_)));
                    assert!(matches!(entries[2].1, IR::Service(_)));
                }
                _ => panic!("not an entity"),
            }
        }
        _ => panic!("not a pipe"),
    }
}

#[test]
fn wrap_leaves_what_has_no_call() {
    let ir = IR::Dynamic(DynamicValue::Value(Json::Bool(true)));
    assert!(matches!(Cache::wrap(1, ir), IR::Dynamic(DynamicValue::Value(Json::Bool(true)))));
    let ir = IR::Deferred {
        id: IrId::new(1),
        label: None,
        ir: Box::new(IR::IO(http("http://upstream/later"))),
        path: vec![],
    };
    match Cache::wrap(3, ir) {
        IR::Deferred { ir, .. } => assert!(matches!(*ir, IR::Cache(Cache { max_age: 3, .. }))),
        _ => panic!("not deferred"),
    }
}

#[test]
fn clone_copies_the_tree() {
    let copy = sample().clone();
    let mut a = vec![];
    let mut b = vec![];
    calls(&sample(), &mut a);
    calls(&copy, &mut b);
    assert_eq!(a, b);
}

#[test]
fn fingerprints_are_compared_by_their_number() {
    assert_eq!(IoId::new(7), IoId::new(7));
    assert_ne!(IoId::new(7), IoId::new(8));
    let mut seen = std::collections::HashSet::new();
    assert!(seen.insert(IoId::new(7)));
    assert!(!seen.insert(IoId::new(7)));
}
