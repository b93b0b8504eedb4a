use tailcall::depends::{any_references, references};
use tailcall::ir::IO;
use tailcall::json::Json;
use tailcall::template::{
    DynamicValue, GraphqlRequestTemplate, GrpcRequestTemplate, HttpRequestTemplate, Method,
    Mustache, OperationType,
};

fn pairs(list: &[(&str, &str)]) -> Vec<(String, Mustache)> {
    list.iter().map(|(k, v)| (k.to_string(), Mustache::parse(v))).collect()
}

fn http(url: &str, query: &[(&str, &str)], headers: &[(&str, &str)], body: Option<DynamicValue>) -> HttpRequestTemplate {
    HttpRequestTemplate {
        method: Method::GET,
        root_url: Mustache::parse(url),
        query: pairs(query),
        headers: pairs(headers),
        body,
    }
}

fn http_io(req_template: HttpRequestTemplate, is_dependent: bool) -> IO {
    IO::Http {
        req_template,
        group_by: None,
        dl_id: None,
        http_filter: None,
        is_list: false,
        dedupe: true,
        is_dependent,
    }
}

fn hole(text: &str) -> DynamicValue {
    DynamicValue::Mustache(Mustache::parse(text))
}

#[test]
fn dynamic_values_that_read_a_root() {
    assert!(!references(&DynamicValue::Value(Json::String("{{value.id}}".into())), "value"));
    assert!(references(&hole("{{value.id}}"), "value"));
    assert!(references(&hole("a {{.value}} b"), "value"));
    assert!(!references(&hole("{{args.value}}"), "value"));
    assert!(!references(&hole("value"), "value"));
    let nested = DynamicValue::Object(vec![
        ("a".to_string(), DynamicValue::Value(Json::Null)),
        (
            "b".to_string(),
            DynamicValue::Array(vec![hole("{{args.x}}"), DynamicValue::Object(vec![("c".to_string(), hole("{{value.y}}"))])]),
        ),
    ]);
    assert!(references(&nested, "value"));
    assert!(references(&nested, "args"));
    assert!(!references(&nested, "env"));
    assert!(!references(&DynamicValue::Object(vec![]), "value"));
    assert!(!references(&DynamicValue::Array(vec![]), "value"));
}

#[test]
fn templates_among_pairs() {
    assert!(!any_references(&pairs(&[]), "value"));
    assert!(!any_references(&pairs(&[("value", "x"), ("b", "{{args.value}}")]), "value"));
    assert!(any_references(&pairs(&[("a", "x"), ("b", "{{value.id}}")]), "value"));
}

#[test]
fn request_templates_that_read_the_parent() {
    assert!(!http("http://u/posts", &[], &[], None).reads("value"));
    assert!(http("http://u/posts/{{value.id}}", &[], &[], None).reads("value"));
    assert!(http("http://u/posts", &[("userId", "{{.value.id}}")], &[], None).reads("value"));
    assert!(http("http://u/posts", &[], &[("x-user", "{{value.id}}")], None).reads("value"));
    assert!(http("http://u/posts", &[], &[], Some(hole("{{value}}"))).reads("value"));
    assert!(!http("http://u/posts/{{args.id}}", &[("a", "{{env.A}}")], &[], Some(hole("{{vars.v}}"))).reads("value"));
    assert!(http("http://u/posts/{{args.id}}", &[], &[], None).reads("args"));

    let graphql = |arguments: &[(&str, &str)], selection: Option<&str>| GraphqlRequestTemplate {
        url: "http://u/graphql".into(),
        operation_type: OperationType::Query,
        operation_name: "posts".into(),
        operation_arguments: pairs(arguments),
        headers: vec![],
        selection: selection.map(Mustache::parse),
    };
    assert!(!graphql(&[("id", "{{args.id}}")], Some("{ id }")).reads("value"));
    assert!(graphql(&[("id", "{{value.id}}")], None).reads("value"));
    assert!(graphql(&[], Some("{ {{value.fields}} }")).reads("value"));

    let grpc = |url: &str, body: Option<DynamicValue>| GrpcRequestTemplate {
        url: Mustache::parse(url),
        headers: vec![],
        body,
        service: "news.NewsService".into(),
        method: "GetNews".into(),
    };
    assert!(!grpc("http://u", None).reads("value"));
    assert!(grpc("http://u", Some(hole("{{value.id}}"))).reads("value"));
    assert!(grpc("http://{{value.host}}", None).reads("value"));
}

#[test]
fn calls_are_marked_as_their_templates_show() {
    // marked dependent although nothing reads the parent: the mark goes
    let marked = http_io(http("http://u/posts/{{args.id}}", &[], &[], None), true).mark_dependent();
    assert!(!marked.is_dependent());
    assert!(marked.dedupe());
    // not marked although the query reads the parent: the mark is set
    let marked = http_io(http("http://u/posts", &[("userId", "{{value.id}}")], &[], None), false).mark_dependent();
    assert!(marked.is_dependent());
    match &marked {
        IO::Http { req_template, is_list, dedupe, .. } => {
            assert_eq!(*req_template, http("http://u/posts", &[("userId", "{{value.id}}")], &[], None));
            assert!(!*is_list);
            assert!(*dedupe);
        }
        other => panic!("another call: {:?}", other),
    }
    let graphql = IO::GraphQL {
        req_template: GraphqlRequestTemplate {
            url: "http://u/graphql".into(),
            operation_type: OperationType::Query,
            operation_name: "user".into(),
            operation_arguments: pairs(&[("id", "{{value.userId}}")]),
            headers: vec![],
            selection: None,
        },
        field_name: "user".into(),
        batch: false,
        dl_id: None,
        dedupe: false,
        is_dependent: false,
    };
    assert!(graphql.mark_dependent().is_dependent());
    // a script call never depends, a gRPC call always
    assert!(!IO::Js { name: "f".into() }.mark_dependent().is_dependent());
    let grpc = IO::Grpc {
        req_template: GrpcRequestTemplate {
            url: Mustache::parse("http://u"),
            headers: vec![],
            body: None,
            service: "s".into(),
            method: "m".into(),
        },
        group_by: None,
        dl_id: None,
        dedupe: false,
    };
    assert!(grpc.mark_dependent().is_dependent());
}
