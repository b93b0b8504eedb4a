use tailcall::cache::CacheStore;
use tailcall::config::{Arg, Config, Enum, Field, Http, KeyValue, Resolver, Type, Union};
use tailcall::context::EvalContext;
use tailcall::eval::{eval, Session, Step};
use tailcall::from_openapi::{
    name_from_ref_path, schema_to_primitive_type, schema_type_to_string, ConfigType, OpenApiError,
    OpenApiToConfigConverter, TypeName,
};
use tailcall::ir::{IO, IR};
use tailcall::json::Json;
use tailcall::openapi::{
    Components, MediaType, Operation, Parameter, ParameterRef, PathItem, Response, ResponseRef,
    Schema, SchemaRef, SchemaType, Spec,
};
use tailcall::pattern::{arg_reference, name_of_match};
use tailcall::request::Request;
use tailcall::template::{HttpRequestTemplate, Method, Mustache};

fn schema() -> Schema {
    Schema {
        schema_type: None,
        enum_values: vec![],
        items: None,
        properties: vec![],
        all_of: vec![],
        any_of: vec![],
        one_of: vec![],
        required: vec![],
        description: None,
        additional_properties: false,
    }
}

fn of_type(t: SchemaType) -> Schema {
    Schema { schema_type: Some(t), ..schema() }
}

fn given(s: Schema) -> SchemaRef {
    SchemaRef::Object(Box::new(s))
}

fn to(name: &str) -> SchemaRef {
    SchemaRef::Ref { ref_path: format!("#/components/schemas/{}", name) }
}

fn object(properties: Vec<(&str, SchemaRef)>, required: &[&str]) -> Schema {
    Schema {
        schema_type: Some(SchemaType::Object),
        properties: properties.into_iter().map(|(k, v)| (k.to_string(), v)).collect(),
        required: required.iter().map(|r| r.to_string()).collect(),
        ..schema()
    }
}

fn list_of(items: SchemaRef) -> Schema {
    Schema { schema_type: Some(SchemaType::Array), items: Some(Box::new(items)), ..schema() }
}

fn string_enum(values: &[&str]) -> Schema {
    Schema { enum_values: values.iter().map(|v| Some(v.to_string())).collect(), ..of_type(SchemaType::String) }
}

fn no_operations() -> PathItem {
    PathItem { get: None, head: None, options: None, trace: None, put: None, post: None, delete: None, patch: None }
}

fn parameter(name: &str, t: SchemaType, required: Option<bool>) -> ParameterRef {
    ParameterRef::Object(Parameter { name: name.into(), required, schema: Some(of_type(t)), param_type: None })
}

fn returning(id: &str, parameters: Vec<ParameterRef>, output: Option<SchemaRef>) -> Operation {
    Operation {
        operation_id: Some(id.into()),
        description: None,
        parameters,
        responses: vec![(
            "200".into(),
            ResponseRef::Object(Response { content: vec![("application/json".into(), MediaType { schema: output })] }),
        )],
    }
}

fn spec(paths: Vec<(&str, PathItem)>, schemas: Vec<(&str, SchemaRef)>) -> Spec {
    Spec {
        paths: paths.into_iter().map(|(k, v)| (k.to_string(), v)).collect(),
        components: Some(Components {
            schemas: schemas.into_iter().map(|(k, v)| (k.to_string(), v)).collect(),
            parameters: vec![],
            responses: vec![],
        }),
        servers: vec!["http://upstream".into()],
    }
}

fn field(type_of: &str, list: bool, required: bool) -> Field {
    Field { type_of: type_of.into(), list, required, ..Default::default() }
}

fn ty(fields: Vec<(&str, Field)>) -> Type {
    Type { fields: fields.into_iter().map(|(k, f)| (k.to_string(), f)).collect(), ..Default::default() }
}

fn http(path: &str, method: Method, query: &[&str]) -> Option<Resolver> {
    Some(Resolver::Http(Http {
        path: path.into(),
        method,
        query: query.iter().map(|k| KeyValue { key: k.to_string(), value: format!("{{{{args.{}}}}}", k) }).collect(),
        base_url: None,
        headers: vec![],
        body: None,
        batch_key: vec![],
    }))
}

fn posts_spec() -> Spec {
    spec(
        vec![(
            "/posts/{id}",
            PathItem {
                get: Some(returning("posts", vec![parameter("id", SchemaType::Integer, Some(true))], Some(to("post")))),
                ..no_operations()
            },
        )],
        vec![(
            "post",
            given(object(
                vec![("id", given(of_type(SchemaType::Integer))), ("title", given(of_type(SchemaType::String)))],
                &["id"],
            )),
        )],
    )
}

#[test]
fn test_config_from_openapi_spec() {
    let document = posts_spec();
    let config = OpenApiToConfigConverter::new("Query", &document).convert().unwrap();
    // type Query { posts(id: Int!): Post }
    assert_eq!(
        config,
        Config {
            upstream: tailcall::config::Upstream { base_url: Some("http://upstream".into()) },
            schema: tailcall::config::RootSchema { query: Some("Query".into()), mutation: None, subscription: None },
            types: vec![
                (
                    "Query".into(),
                    ty(vec![(
                        "posts",
                        Field {
                            type_of: "Post".into(),
                            args: vec![("id".into(), Arg { type_of: "Int".into(), required: true, ..Default::default() })],
                            resolver: http("/posts/{{args.id}}", Method::GET, &[]),
                            ..Default::default()
                        }
                    )])
                ),
                ("Post".into(), ty(vec![("id", field("Int", false, true)), ("title", field("String", false, false))])),
            ],
            ..Default::default()
        }
    );
    // { posts(id: 1) { id title } } returns what the upstream has for /posts/1
    let http = match &config.find_type("Query").unwrap().fields[0].1.resolver {
        Some(Resolver::Http(http)) => http.clone(),
        _ => panic!("no http resolver"),
    };
    let resolver = IR::IO(IO::Http {
        req_template: HttpRequestTemplate {
            method: http.method,
            root_url: Mustache::parse(&format!("{}{}", config.upstream.base_url.clone().unwrap(), http.path)),
            query: vec![],
            headers: vec![],
            body: None,
        },
        group_by: None,
        dl_id: None,
        http_filter: None,
        is_list: false,
        dedupe: false,
        is_dependent: false,
    });
    let args = Json::parse(r#"{"id": 1}"#).unwrap();
    let none = vec![];
    let ctx = EvalContext { args: &args, value: None, vars: &none, env: &none, headers: &none };
    let mut session = Session { store: CacheStore::new(0), now: 0, answers: vec![], used: 0, deferred: vec![] };
    match eval(&resolver, &ctx, &mut session) {
        Step::NeedIo { io, .. } => assert_eq!(
            io.to_request(&ctx),
            Ok(Request::Http { method: Method::GET, url: "http://upstream/posts/1".into(), headers: vec![], body: None })
        ),
        other => panic!("unexpected {:?}", other),
    }
    let upstream = Json::parse(r#"{"id": 1, "title": "first"}"#).unwrap();
    session.answers.push(Ok(upstream.clone()));
    assert!(matches!(eval(&resolver, &ctx, &mut session), Step::Done(Ok(v)) if v == upstream));
}

#[test]
fn arguments_that_the_path_does_not_name_are_query_parameters() {
    let document = spec(
        vec![
            (
                "/users/{userId}/posts/{post_id}",
                PathItem {
                    post: Some(returning(
                        "list-user-posts",
                        vec![
                            parameter("userId", SchemaType::Integer, Some(true)),
                            parameter("limit", SchemaType::Number, None),
                            parameter("post_id", SchemaType::String, Some(false)),
                            ParameterRef::Object(Parameter {
                                name: "tags".into(),
                                required: None,
                                schema: Some(list_of(given(of_type(SchemaType::String)))),
                                param_type: None,
                            }),
                        ],
                        Some(given(list_of(to("post")))),
                    )),
                    delete: Some(returning("never", vec![], Some(to("post")))),
                    ..no_operations()
                },
            ),
            // without arguments the path stays as it is
            ("/raw/{x}", PathItem { head: Some(returning("raw", vec![], Some(given(of_type(SchemaType::Boolean))))), ..no_operations() }),
            // an operation that returns nothing with a schema gives no field
            ("/nothing", PathItem { get: Some(returning("nothing", vec![], None)), ..no_operations() }),
        ],
        // a schema of a scalar type defines nothing
        vec![("post", given(of_type(SchemaType::String)))],
    );
    let config = OpenApiToConfigConverter::new("Query", &document).convert().unwrap();
    let arg = |t: &str, list: bool, required: bool| Arg { type_of: t.into(), list, required, ..Default::default() };
    assert_eq!(
        config.types,
        vec![(
            "Query".to_string(),
            ty(vec![
                (
                    "listUserPosts",
                    Field {
                        type_of: "Post".into(),
                        list: true,
                        args: vec![
                            ("userId".into(), arg("Int", false, true)),
                            ("limit".into(), arg("Int", false, false)),
                            ("post_id".into(), arg("String", false, false)),
                            ("tags".into(), arg("String", true, false)),
                        ],
                        resolver: http("/users/{{args.userId}}/posts/{{args.post_id}}", Method::POST, &["limit", "tags"]),
                        ..Default::default()
                    }
                ),
                ("raw", Field { type_of: "Boolean".into(), resolver: http("/raw/{x}", Method::HEAD, &[]), ..Default::default() }),
            ])
        )]
    );
}

#[test]
fn schemas_become_types_unions_and_enums() {
    let document = spec(
        vec![],
        vec![
            (
                "user",
                given(Schema {
                    description: Some("A user".into()),
                    ..object(
                        vec![
                            ("name", given(Schema { description: Some("The name".into()), ..of_type(SchemaType::String) })),
                            ("friends", given(list_of(to("user")))),
                            ("role", given(string_enum(&["ADMIN", "GUEST"]))),
                            ("address", given(object(vec![("city", given(of_type(SchemaType::String)))], &[]))),
                            ("meta", given(Schema { additional_properties: true, ..schema() })),
                            ("pet", to("pet")),
                            ("anything", given(schema())),
                            ("scores", given(list_of(given(of_type(SchemaType::Number))))),
                        ],
                        &["name", "pet"],
                    )
                }),
            ),
            ("pet", given(Schema { one_of: vec![to("cat"), given(of_type(SchemaType::String))], any_of: vec![to("dog")], ..schema() })),
            ("cat", given(Schema { all_of: vec![to("animal"), given(object(vec![("lives", given(of_type(SchemaType::Integer)))], &["lives"]))], ..schema() })),
            ("dog", given(object(vec![("bark", given(of_type(SchemaType::Boolean)))], &[]))),
            ("animal", given(object(vec![("legs", given(of_type(SchemaType::Integer)))], &["legs"]))),
            ("color", given(string_enum(&["RED", "GREEN", "RED"]))),
            ("alias", to("dog")),
            ("nothing", given(of_type(SchemaType::Integer))),
        ],
    );
    let config = OpenApiToConfigConverter::new("Query", &document).convert().unwrap();
    let names: Vec<&str> = config.types.iter().map(|(k, _)| k.as_str()).collect();
    assert_eq!(names, vec!["Query", "User", "Cat", "Dog", "Animal", "Alias", "Type1", "Type2", "Type3"]);
    assert_eq!(
        config.find_type("User"),
        Some(&Type {
            doc: Some("A user".into()),
            ..ty(vec![
                ("name", Field { doc: Some("The name".into()), ..field("String", false, true) }),
                ("friends", field("User", true, false)),
                ("role", field("Type0", false, false)),
                ("address", field("Type1", false, false)),
                ("meta", field("JSON", false, false)),
                ("pet", field("Pet", false, true)),
                ("anything", field("JSON", false, false)),
                ("scores", field("Int", true, false)),
            ])
        })
    );
    // what a schema takes over comes first, and says nothing of what it describes
    assert_eq!(config.find_type("Cat"), Some(&ty(vec![("legs", field("Int", false, true)), ("lives", field("Int", false, true))])));
    assert_eq!(config.find_type("Alias"), config.find_type("Dog"));
    // every member of a union is set to await its definition, named or not
    assert_eq!(
        config.unions,
        vec![("Pet".to_string(), Union { types: vec!["Dog".into(), "Cat".into(), "String".into()], doc: None })]
    );
    assert_eq!(
        config.enums,
        vec![
            ("Color".to_string(), Enum { variants: vec!["RED".into(), "GREEN".into()], doc: None }),
            ("Type0".to_string(), Enum { variants: vec!["ADMIN".into(), "GUEST".into()], doc: None }),
        ]
    );
    // the schemas given in place: the role, the address, then the three members of the union,
    // of which the string defines nothing and takes no number
    assert_eq!(config.find_type("Type1"), Some(&ty(vec![("city", field("String", false, false))])));
    assert_eq!(config.find_type("Type2"), config.find_type("Dog"));
    assert_eq!(config.find_type("Type3"), config.find_type("Cat"));
}

#[test]
fn faults_of_documents() {
    let convert = |document: &Spec| OpenApiToConfigConverter::new("Query", document).convert();
    let mut document = posts_spec();
    document.components = None;
    assert_eq!(convert(&document), Err(OpenApiError::MissingComponents));

    let with_path = |item: PathItem| spec(vec![("/p/{id}", item)], vec![("post", given(of_type(SchemaType::String)))]);
    assert_eq!(convert(&with_path(no_operations())), Err(OpenApiError::NoOperation));
    let mut operation = returning("op", vec![], Some(to("post")));
    operation.responses.clear();
    assert_eq!(convert(&with_path(PathItem { get: Some(operation), ..no_operations() })), Err(OpenApiError::NoResponse));
    let mut operation = returning("op", vec![], Some(to("post")));
    operation.operation_id = None;
    assert_eq!(convert(&with_path(PathItem { get: Some(operation), ..no_operations() })), Err(OpenApiError::MissingOperationId));
    let operation = returning("op", vec![], Some(to("missing")));
    assert_eq!(convert(&with_path(PathItem { get: Some(operation), ..no_operations() })), Err(OpenApiError::Unresolved));
    let operation = returning(
        "op",
        vec![ParameterRef::Object(Parameter { name: "p".into(), required: None, schema: None, param_type: None })],
        Some(to("post")),
    );
    assert_eq!(convert(&with_path(PathItem { get: Some(operation), ..no_operations() })), Err(OpenApiError::MissingSchema));
    let operation = returning("op", vec![ParameterRef::Ref { ref_path: "#/components/parameters/none".into() }], Some(to("post")));
    assert_eq!(convert(&with_path(PathItem { get: Some(operation), ..no_operations() })), Err(OpenApiError::Unresolved));
    let operation = returning("op", vec![], Some(given(list_of(given(list_of(given(schema())))))));
    assert_eq!(convert(&with_path(PathItem { get: Some(operation), ..no_operations() })), Err(OpenApiError::NestedList));
    // a response that cannot be found gives no field, and is no fault
    let mut operation = returning("op", vec![], Some(to("post")));
    operation.responses[0].1 = ResponseRef::Ref { ref_path: "#/components/responses/none".into() };
    assert_eq!(convert(&with_path(PathItem { get: Some(operation), ..no_operations() })).map(|c| c.types.len()), Ok(1));

    let with_schema = |s: SchemaRef| spec(vec![], vec![("s", s)]);
    assert_eq!(convert(&with_schema(to("nowhere"))), Err(OpenApiError::Unresolved));
    assert_eq!(convert(&with_schema(SchemaRef::Ref { ref_path: "s".into() })), Err(OpenApiError::Unresolved));
    // a reference that leads back to itself stands for nothing
    assert_eq!(convert(&with_schema(to("s"))), Err(OpenApiError::Unresolved));
    assert_eq!(
        convert(&with_schema(given(Schema { enum_values: vec![Some("A".into()), None], ..schema() }))),
        Err(OpenApiError::NonStringEnum)
    );
    assert_eq!(
        convert(&with_schema(given(Schema { all_of: vec![to("s")], ..schema() }))),
        Err(OpenApiError::Unresolved)
    );
    assert_eq!(
        convert(&with_schema(given(object(vec![("p", to("gone"))], &[])))),
        Err(OpenApiError::Unresolved)
    );
}

#[test]
fn names_of_schema_types() {
    assert_eq!(schema_type_to_string(&SchemaType::Boolean), "Boolean");
    assert_eq!(schema_type_to_string(&SchemaType::Integer), "Int");
    assert_eq!(schema_type_to_string(&SchemaType::Number), "Int");
    assert_eq!(schema_type_to_string(&SchemaType::String), "String");
    assert_eq!(schema_type_to_string(&SchemaType::Array), "Array");
    assert_eq!(schema_type_to_string(&SchemaType::Object), "Object");
    assert_eq!(schema_to_primitive_type(&SchemaType::Array), None);
    assert_eq!(schema_to_primitive_type(&SchemaType::Object), None);
    assert_eq!(schema_to_primitive_type(&SchemaType::Number), Some("Int".to_string()));
    assert_eq!(name_from_ref_path(&to("user_profile")), Some("UserProfile".to_string()));
    assert_eq!(name_from_ref_path(&SchemaRef::Ref { ref_path: "plain".into() }), Some("Plain".to_string()));
    assert_eq!(name_from_ref_path(&given(schema())), None);
}

#[test]
fn type_names() {
    let name = TypeName::Name("A".into());
    assert_eq!(name.name(), Some("A".to_string()));
    assert!(name.is_flat());
    assert_eq!(name.into_tuple(), (false, "A".to_string()));
    let list = TypeName::ListOf(Box::new(TypeName::Name("A".into())));
    assert_eq!(list.name(), None);
    assert!(list.is_flat());
    assert_eq!(list.into_tuple(), (true, "A".to_string()));
    let nested = TypeName::ListOf(Box::new(TypeName::ListOf(Box::new(TypeName::Name("A".into())))));
    assert!(!nested.is_flat());
}

#[test]
fn schema_types_step_by_step() {
    let document = spec(vec![], vec![("color", given(string_enum(&["RED"]))), ("via", to("color"))]);
    let mut converter = OpenApiToConfigConverter::new("Query", &document);
    assert_eq!(converter.query, "Query");
    let colors = list_of(to("color"));
    let plain = object(vec![], &[]);
    let inline = object(vec![("a", given(of_type(SchemaType::String)))], &[]);
    let nested = list_of(given(list_of(given(of_type(SchemaType::Object)))));
    // the items of a list that are an enum of strings await their definition
    assert_eq!(converter.get_schema_type(&colors, None), Ok(TypeName::ListOf(Box::new(TypeName::Name("Type0".into())))));
    assert_eq!(converter.get_schema_type(&plain, Some("Known".into())), Ok(TypeName::Name("Known".into())));
    assert_eq!(converter.get_schema_type(&plain, None), Ok(TypeName::Name("JSON".into())));
    assert_eq!(converter.get_schema_type(&inline, None), Ok(TypeName::Name("Type1".into())));
    assert_eq!(
        converter.get_schema_type(&nested, None),
        Ok(TypeName::ListOf(Box::new(TypeName::ListOf(Box::new(TypeName::Name("JSON".into()))))))
    );
    assert_eq!(converter.inline_types.len(), 2);
    assert!(converter.can_define_type(&inline));
    assert!(!converter.can_define_type(&plain));
    assert!(matches!(converter.define_type(&plain), Ok(None)));
    assert!(matches!(converter.define_type(&inline), Ok(Some(ConfigType::Type(_)))));
    assert_eq!(converter.define_inline_types(), Ok(()));
    assert_eq!(converter.inline_types.len(), 0);
    assert!(!converter.inline_types_frozen);
    assert_eq!(converter.enums[0].0, "Type0");
    assert_eq!(converter.types[0].0, "Type1");
    // while the awaiting schemas are defined, new ones are set aside under the same name
    converter.inline_types_frozen = true;
    assert_eq!(converter.insert_inline_type(&inline), "Type0");
    assert_eq!(converter.insert_inline_type(&inline), "Type0");
    assert_eq!(converter.inline_types_other.len(), 2);
    assert_eq!(converter.inline_types.len(), 0);
}

#[test]
fn path_parameters() {
    assert_eq!(name_of_match("{id}"), "id");
    assert_eq!(name_of_match("{}"), "");
    assert_eq!(name_of_match("x"), "x");
    assert_eq!(arg_reference("{user_id}"), "{{args.user_id}}");
}

#[test]
fn no_name_is_defined_twice_and_query_is_always_there() {
    // two schemas whose names are one in Pascal case: the later one stands
    let document = spec(
        vec![],
        vec![
            ("post", given(object(vec![("id", given(of_type(SchemaType::Integer)))], &[]))),
            ("Post", given(object(vec![("title", given(of_type(SchemaType::String)))], &[]))),
            ("query", given(object(vec![("n", given(of_type(SchemaType::Integer)))], &[]))),
        ],
    );
    let config = OpenApiToConfigConverter::new("Query", &document).convert().unwrap();
    let names: Vec<&str> = config.types.iter().map(|(k, _)| k.as_str()).collect();
    assert_eq!(names, vec!["Query", "Post"]);
    assert_eq!(config.types[1].1, ty(vec![("title", field("String", false, false))]));
    // the schema named like the query type has taken its place
    assert_eq!(config.types[0].1, ty(vec![("n", field("Int", false, false))]));
    assert_eq!(config.schema.query, Some("Query".to_string()));
    // nothing of the server is set
    assert_eq!(config.server, tailcall::config::Server::default());
    assert_eq!(config.schema.mutation, None);
    assert_eq!(config.schema.subscription, None);
    // a document without paths and schemas still has the query type
    let config = OpenApiToConfigConverter::new("Query", &spec(vec![], vec![])).convert().unwrap();
    assert_eq!(config.schema.query, Some("Query".to_string()));
    assert_eq!(config.types, vec![("Query".to_string(), ty(vec![]))]);
}
