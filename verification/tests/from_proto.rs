use tailcall::config::{Arg, Config, Enum, Field, Grpc, Resolver, Tag, Type, Union};
use tailcall::config_module::ConfigModule;
use tailcall::from_proto::{
    add_member, convert_primitive_type, from_proto, get_input_type, get_output_type,
    graphql_type_from_ref, primitive_type, Context, GeneratorError,
};
use tailcall::graphql_type::{Entity, GraphQLName, GraphQLType};
use tailcall::proto::{
    EnumDescriptor, EnumValueDescriptor, FieldDescriptor, FieldType, FileDescriptor,
    FileDescriptorSet, Label, MessageDescriptor, MethodDescriptor, ServiceDescriptor,
};

fn scalar(name: &str, field_type: FieldType) -> FieldDescriptor {
    FieldDescriptor { name: name.into(), label: Label::Optional, field_type, type_ref: None, oneof_index: None }
}

fn reference(name: &str, field_type: FieldType, to: &str) -> FieldDescriptor {
    FieldDescriptor { type_ref: Some(to.into()), ..scalar(name, field_type) }
}

fn message(name: &str, field: Vec<FieldDescriptor>) -> MessageDescriptor {
    MessageDescriptor { name: name.into(), field, nested_type: vec![], enum_type: vec![], oneof_count: 0, map_entry: false }
}

fn enumeration(name: &str, values: &[&str]) -> EnumDescriptor {
    EnumDescriptor { name: name.into(), value: values.iter().map(|v| EnumValueDescriptor { name: v.to_string() }).collect() }
}

fn method(name: &str, input: &str, output: &str) -> MethodDescriptor {
    MethodDescriptor { name: name.into(), input_type: input.into(), output_type: output.into() }
}

fn file(
    package: &str,
    message_type: Vec<MessageDescriptor>,
    enum_type: Vec<EnumDescriptor>,
    service: Vec<ServiceDescriptor>,
) -> FileDescriptorSet {
    FileDescriptorSet {
        file: vec![FileDescriptor { name: format!("{}.proto", package), package: package.into(), message_type, enum_type, service }],
    }
}

fn news(package: &str) -> FileDescriptorSet {
    let p = if package.is_empty() { String::new() } else { format!(".{}", package) };
    file(
        package,
        vec![
            message(
                "News",
                vec![
                    scalar("id", FieldType::Int32),
                    scalar("title", FieldType::String),
                    scalar("post_image", FieldType::String),
                    reference("status", FieldType::Enum, &format!("{}.Status", p)),
                    FieldDescriptor { label: Label::Repeated, ..scalar("tags", FieldType::String) },
                ],
            ),
            message("NewsId", vec![scalar("id", FieldType::Int32)]),
            message(
                "NewsList",
                vec![FieldDescriptor { label: Label::Repeated, ..reference("news", FieldType::Message, &format!("{}.News", p)) }],
            ),
            message("Unused", vec![scalar("x", FieldType::Bool)]),
        ],
        vec![enumeration("Status", &["PUBLISHED", "DRAFT", "DRAFT"])],
        vec![ServiceDescriptor {
            name: "NewsService".into(),
            method: vec![
                method("GetAllNews", ".google.protobuf.Empty", &format!("{}.NewsList", p)),
                method("GetNews", &format!("{}.NewsId", p), &format!("{}.News", p)),
                method("DeleteNews", &format!("{}.NewsId", p), ".google.protobuf.Empty"),
            ],
        }],
    )
}

fn greetings(package: &str) -> FileDescriptorSet {
    file(
        package,
        vec![
            message("HelloRequest", vec![scalar("name", FieldType::String)]),
            message("HelloReply", vec![scalar("message", FieldType::String)]),
        ],
        vec![],
        vec![ServiceDescriptor {
            name: "Greeter".into(),
            method: vec![method("SayHello", &format!(".{}.HelloRequest", package), &format!(".{}.HelloReply", package))],
        }],
    )
}

fn field(type_of: &str, list: bool, required: bool) -> Field {
    Field { type_of: type_of.into(), list, required, ..Default::default() }
}

fn object(id: &str, fields: Vec<(&str, Field)>) -> Type {
    Type {
        fields: fields.into_iter().map(|(k, f)| (k.to_string(), f)).collect(),
        tag: Some(Tag { id: id.into() }),
        ..Default::default()
    }
}

fn grpc_field(type_of: &str, arg: Option<(&str, &str)>, method: &str) -> Field {
    Field {
        type_of: type_of.into(),
        required: true,
        args: arg
            .iter()
            .map(|(k, t)| (k.to_string(), Arg { type_of: t.to_string(), required: true, ..Default::default() }))
            .collect(),
        resolver: Some(Resolver::Grpc(Grpc {
            body: arg.map(|(k, _)| format!("{{{{.args.{}}}}}", k)),
            method: method.into(),
            ..Default::default()
        })),
        ..Default::default()
    }
}

fn type_names(config: &Config) -> Vec<&str> {
    config.types.iter().map(|(k, _)| k.as_str()).collect()
}

#[test]
fn test_from_proto() {
    let config = from_proto(&vec![news("news"), greetings("greetings_a.b"), greetings("greetings_b.c")], "Query").unwrap();
    assert_eq!(config.schema.query, Some("Query".to_string()));
    assert_eq!(config.schema.mutation, None);
    // what nothing refers to is gone
    assert_eq!(
        type_names(&config),
        vec![
            "news__News",
            "news__NewsId",
            "news__NewsList",
            "Query",
            "greetings_a_b__HelloRequest",
            "greetings_a_b__HelloReply",
            "greetings_b_c__HelloRequest",
            "greetings_b_c__HelloReply",
        ]
    );
    assert_eq!(
        config.find_type("news__News"),
        Some(&object(
            "news.News",
            vec![
                ("id", field("Int", false, false)),
                ("title", field("String", false, false)),
                ("postImage", field("String", false, false)),
                ("status", field("news__Status", false, false)),
                ("tags", field("String", true, true)),
            ]
        ))
    );
    assert_eq!(
        config.find_type("news__NewsList"),
        Some(&object("news.NewsList", vec![("news", field("news__News", true, true))]))
    );
    assert_eq!(
        config.enums,
        vec![("news__Status".to_string(), Enum { variants: vec!["PUBLISHED".into(), "DRAFT".into()], doc: None })]
    );
    assert_eq!(
        config.find_type("Query"),
        Some(&Type {
            fields: vec![
                (
                    "news__NewsService__GetAllNews".to_string(),
                    grpc_field("news__NewsList", None, "news.NewsService.GetAllNews")
                ),
                (
                    "news__NewsService__GetNews".to_string(),
                    grpc_field("news__News", Some(("newsId", "news__NewsId")), "news.NewsService.GetNews")
                ),
                (
                    "news__NewsService__DeleteNews".to_string(),
                    grpc_field("Empty", Some(("newsId", "news__NewsId")), "news.NewsService.DeleteNews")
                ),
                (
                    "greetings_a_b__Greeter__SayHello".to_string(),
                    grpc_field(
                        "greetings_a_b__HelloReply",
                        Some(("helloRequest", "greetings_a_b__HelloRequest")),
                        "greetings_a.b.Greeter.SayHello"
                    )
                ),
                (
                    "greetings_b_c__Greeter__SayHello".to_string(),
                    grpc_field(
                        "greetings_b_c__HelloReply",
                        Some(("helloRequest", "greetings_b_c__HelloRequest")),
                        "greetings_b.c.Greeter.SayHello"
                    )
                ),
            ],
            ..Default::default()
        })
    );
    // a type that is used as input and as output is both
    let module = ConfigModule::from(config);
    assert!(module.input_types.contains("news__NewsId"));
    assert!(module.output_types.contains("news__News"));
}

#[test]
fn test_from_proto_no_pkg_file() {
    let config = from_proto(&vec![news("")], "Query").unwrap();
    assert_eq!(type_names(&config), vec!["News", "NewsId", "NewsList", "Query"]);
    assert_eq!(config.find_type("News").unwrap().tag, Some(Tag { id: "News".into() }));
    assert_eq!(config.find_type("News").unwrap().fields[3].1.type_of, "Status");
    let query = config.find_type("Query").unwrap();
    assert_eq!(
        query.fields[1],
        ("NewsService__GetNews".to_string(), grpc_field("News", Some(("newsId", "NewsId")), "NewsService.GetNews"))
    );
}

#[test]
fn test_from_proto_no_service_file() {
    let mut set = news("news");
    set.file[0].service.clear();
    let config = from_proto(&vec![set], "Query").unwrap();
    // without a service there is no query type, and nothing is in use
    assert_eq!(config.schema.query, None);
    assert_eq!(type_names(&config), Vec::<&str>::new());
    assert_eq!(config.enums.len(), 1);
}

#[test]
fn test_greetings_proto_file() {
    let config = from_proto(&vec![greetings("greetings")], "Query").unwrap();
    assert_eq!(type_names(&config), vec!["greetings__HelloRequest", "greetings__HelloReply", "Query"]);
    assert_eq!(
        config.find_type("greetings__HelloRequest"),
        Some(&object("greetings.HelloRequest", vec![("name", field("String", false, false))]))
    );
    assert_eq!(
        config.find_type("Query").unwrap().fields,
        vec![(
            "greetings__Greeter__SayHello".to_string(),
            grpc_field("greetings__HelloReply", Some(("helloRequest", "greetings__HelloRequest")), "greetings.Greeter.SayHello")
        )]
    );
    // the query type can have another name
    let config = from_proto(&vec![greetings("greetings")], "Root").unwrap();
    assert_eq!(config.schema.query, Some("Root".to_string()));
    assert_eq!(type_names(&config), vec!["greetings__HelloRequest", "greetings__HelloReply", "Root"]);
}

#[test]
fn test_config_from_sdl() {
    let set = FileDescriptorSet {
        file: news("news")
            .file
            .into_iter()
            .chain(greetings("greetings_a.b").file)
            .chain(greetings("greetings_b.c").file)
            .collect(),
    };

    let set1 = news("news");
    let set2 = greetings("greetings_a.b");
    let set3 = greetings("greetings_b.c");

    let actual = from_proto(&vec![set], "Query").unwrap();
    let expected = from_proto(&vec![set1, set2, set3], "Query").unwrap();

    assert_eq!(actual, expected);
}

#[test]
fn test_required_types() {
    let person = file(
        "person",
        vec![message(
            "Person",
            vec![
                FieldDescriptor { label: Label::Required, ..scalar("name", FieldType::String) },
                FieldDescriptor { label: Label::Required, ..scalar("id", FieldType::Int32) },
                scalar("email", FieldType::String),
                FieldDescriptor { label: Label::Repeated, ..reference("phone", FieldType::Message, ".person.PhoneNumber") },
                FieldDescriptor { label: Label::Repeated, ..scalar("stats", FieldType::Message) },
            ],
        ), message("PhoneNumber", vec![FieldDescriptor { label: Label::Required, ..scalar("number", FieldType::String) }])],
        vec![],
        vec![ServiceDescriptor { name: "PersonService".into(), method: vec![method("GetPerson", "", ".person.Person")] }],
    );
    let config = from_proto(&vec![person], "Query").unwrap();
    assert_eq!(
        config.find_type("person__Person"),
        Some(&object(
            "person.Person",
            vec![
                ("name", field("String", false, true)),
                ("id", field("Int", false, true)),
                ("email", field("String", false, false)),
                ("phone", field("person__PhoneNumber", true, true)),
                // a message without a type is free-form: neither a list nor required
                ("stats", field("JSON", false, false)),
            ]
        ))
    );
    assert_eq!(
        config.find_type("Query").unwrap().fields,
        vec![("person__PersonService__GetPerson".to_string(), grpc_field("person__Person", None, "person.PersonService.GetPerson"))]
    );
}

#[test]
fn test_movies() {
    let movies = file(
        "movies",
        vec![
            message(
                "Movie",
                vec![
                    scalar("name", FieldType::String),
                    scalar("year", FieldType::Int32),
                    scalar("rating", FieldType::Float),
                    scalar("budget", FieldType::Double),
                    scalar("views", FieldType::Uint64),
                    scalar("released", FieldType::Bool),
                    scalar("poster", FieldType::Bytes),
                    scalar("delta", FieldType::Sint32),
                    reference("genre", FieldType::Enum, ".movies.Genre"),
                    FieldDescriptor { label: Label::Repeated, ..scalar("cast", FieldType::String) },
                ],
            ),
            message("SearchByCastRequest", vec![scalar("castName", FieldType::String)]),
        ],
        vec![enumeration("Genre", &["DRAMA", "ACTION"])],
        vec![ServiceDescriptor {
            name: "MovieService".into(),
            method: vec![method("SearchMoviesByCast", ".movies.SearchByCastRequest", ".movies.Movie")],
        }],
    );
    let config = from_proto(&vec![movies], "Query").unwrap();
    let movie = config.find_type("movies__Movie").unwrap();
    let types: Vec<(&str, &str)> = movie.fields.iter().map(|(k, f)| (k.as_str(), f.type_of.as_str())).collect();
    assert_eq!(
        types,
        vec![
            ("name", "String"),
            ("year", "Int"),
            ("rating", "Float"),
            ("budget", "Float"),
            ("views", "Int"),
            ("released", "Boolean"),
            ("poster", "String"),
            ("delta", "sint32"),
            ("genre", "movies__Genre"),
            ("cast", "String"),
        ]
    );
    assert_eq!(
        config.find_type("Query").unwrap().fields[0].1.args,
        vec![(
            "searchByCastRequest".to_string(),
            Arg { type_of: "movies__SearchByCastRequest".into(), required: true, ..Default::default() }
        )]
    );
}

#[test]
fn test_nested_types() {
    let mut outer = message("Result", vec![reference("inner", FieldType::Message, ".nested.Result.Nested")]);
    let mut nested = message("Nested", vec![reference("kind", FieldType::Enum, ".nested.Result.Nested.Kind")]);
    nested.enum_type = vec![enumeration("Kind", &["A"])];
    nested.nested_type = vec![
        message("Deep", vec![scalar("n", FieldType::Int64)]),
        MessageDescriptor { map_entry: true, ..message("InfoEntry", vec![scalar("key", FieldType::String)]) },
    ];
    outer.nested_type = vec![nested];
    let set = file(
        "nested",
        vec![outer],
        vec![],
        vec![ServiceDescriptor { name: "S".into(), method: vec![method("Get", "", ".nested.Result")] }],
    );
    // before what is not in use is taken out
    let all = Context::new("Query")
        .append_msg_type(&set.file[0].message_type)
        .unwrap();
    assert_eq!(all.namespace, Vec::<String>::new());
    assert_eq!(type_names(&all.config), vec!["Result__Nested__Deep", "Result__Nested", "Result"]);
    assert_eq!(all.config.enums[0].0, "Result__Nested__Kind");

    let config = from_proto(&vec![set], "Query").unwrap();
    // a reference names the type by what follows its last dot, in the package before it
    assert_eq!(
        config.find_type("nested__Result"),
        Some(&object("nested.Result", vec![("inner", field("nested_Result__Nested", false, false))]))
    );
    assert_eq!(type_names(&config), vec!["nested__Result", "Query"]);
    assert_eq!(config.enums[0].0, "nested__Result__Nested__Kind");
}

#[test]
fn test_oneof_types() {
    let mut request = message(
        "Request",
        vec![
            scalar("usual", FieldType::String),
            FieldDescriptor { oneof_index: Some(0), ..scalar("payload", FieldType::String) },
            FieldDescriptor { oneof_index: Some(0), ..scalar("flag", FieldType::Bool) },
            FieldDescriptor { oneof_index: Some(1), ..scalar("count", FieldType::Int32) },
        ],
    );
    request.oneof_count = 2;
    let set = file(
        "oneof",
        vec![request, message("Response", vec![scalar("usual", FieldType::Int32)])],
        vec![],
        vec![ServiceDescriptor {
            name: "OneOfService".into(),
            method: vec![method("GetOneOf", ".oneof.Request", ".oneof.Response")],
        }],
    );
    let config = from_proto(&vec![set], "Query").unwrap();
    let usual = ("usual", field("String", false, false));
    let payload = ("payload", field("String", false, true));
    let flag = ("flag", field("Boolean", false, true));
    let count = ("count", field("Int", false, true));
    let of = |fields: Vec<(&str, Field)>| object("oneof.Request", fields);
    let expected = vec![
        ("oneof__Request__Var__Var".to_string(), of(vec![usual.clone()])),
        ("oneof__Request__Var__Var0".to_string(), of(vec![usual.clone(), count.clone()])),
        ("oneof__Request__Var0__Var".to_string(), of(vec![usual.clone(), payload.clone()])),
        ("oneof__Request__Var0__Var0".to_string(), of(vec![usual.clone(), payload.clone(), count.clone()])),
        ("oneof__Request__Var1__Var".to_string(), of(vec![usual.clone(), flag.clone()])),
        ("oneof__Request__Var1__Var0".to_string(), of(vec![usual.clone(), flag.clone(), count.clone()])),
    ];
    let found: Vec<(String, Type)> = config.types.iter().filter(|(k, _)| k.starts_with("oneof__Request")).cloned().collect();
    assert_eq!(found, expected);
    assert_eq!(
        config.unions,
        vec![(
            "oneof__Request".to_string(),
            Union { types: expected.iter().map(|(k, _)| k.clone()).collect(), doc: None }
        )]
    );
}

#[test]
fn insert_oneofs_without_oneofs_is_one_type() {
    let base = object("m", vec![("a", field("Int", false, false))]);
    let ctx = Context::new("Query").insert_oneofs("M".into(), base.clone(), vec![]);
    assert_eq!(ctx.config.types, vec![("M".to_string(), base)]);
    assert_eq!(ctx.config.unions, vec![("M".to_string(), Union { types: vec!["M".into()], doc: None })]);
}

#[test]
fn insert_type_replaces_a_type_of_the_same_name() {
    let a = object("a", vec![]);
    let b = object("b", vec![]);
    let ctx = Context::new("Q").insert_type("T".into(), a.clone()).insert_type("U".into(), a).insert_type("T".into(), b.clone());
    assert_eq!(ctx.query, "Q");
    assert_eq!(type_names(&ctx.config), vec!["T", "U"]);
    assert_eq!(ctx.config.find_type("T"), Some(&b));
}

#[test]
fn faults_of_generation() {
    let bad_field = file("p", vec![message("M", vec![reference("f", FieldType::Message, "p.Other")])], vec![], vec![]);
    assert_eq!(from_proto(&vec![bad_field], "Query"), Err(GeneratorError::NotFullyQualified("p.Other".into())));
    let bad_input = file("p", vec![], vec![], vec![ServiceDescriptor { name: "S".into(), method: vec![method("m", "In", ".p.Out")] }]);
    assert_eq!(from_proto(&vec![bad_input], "Query"), Err(GeneratorError::NotFullyQualified("In".into())));
    let bad_output = file("p", vec![], vec![], vec![ServiceDescriptor { name: "S".into(), method: vec![method("m", "", "Out")] }]);
    assert_eq!(from_proto(&vec![bad_output], "Query"), Err(GeneratorError::NotFullyQualified("Out".into())));
    let bad_oneof = file(
        "p",
        vec![message("M", vec![FieldDescriptor { oneof_index: Some(0), ..scalar("f", FieldType::Bool) }])],
        vec![],
        vec![],
    );
    assert_eq!(from_proto(&vec![bad_oneof], "Query"), Err(GeneratorError::OneofOutOfRange("f".into())));
}

#[test]
fn references_to_types() {
    assert_eq!(
        graphql_type_from_ref(".news.v1.News"),
        Ok(GraphQLType { package: vec!["news.v1".into()], name: "News".into() })
    );
    assert_eq!(graphql_type_from_ref(".News"), Ok(GraphQLType { package: vec![], name: "News".into() }));
    assert_eq!(graphql_type_from_ref("."), Ok(GraphQLType { package: vec![], name: "".into() }));
    assert_eq!(graphql_type_from_ref("news.News"), Err(GeneratorError::NotFullyQualified("news.News".into())));
    assert_eq!(graphql_type_from_ref(""), Err(GeneratorError::NotFullyQualified("".into())));
    assert_eq!(get_input_type(""), Ok(None));
    assert_eq!(get_input_type(".google.protobuf.Empty"), Ok(None));
    assert_eq!(get_input_type(".a.B"), Ok(Some(GraphQLType { package: vec!["a".into()], name: "B".into() })));
    assert_eq!(get_input_type("B"), Err(GeneratorError::NotFullyQualified("B".into())));
    assert_eq!(get_output_type(".google.protobuf.Empty"), Ok(GraphQLType::new("Empty")));
    assert_eq!(get_output_type(".a.B"), Ok(GraphQLType { package: vec!["a".into()], name: "B".into() }));
    assert_eq!(get_output_type(""), Err(GeneratorError::NotFullyQualified("".into())));
}

#[test]
fn scalars_for_proto_types() {
    for (proto, graphql) in [
        ("TYPE_DOUBLE", "Float"),
        ("TYPE_FLOAT", "Float"),
        ("TYPE_INT32", "Int"),
        ("TYPE_INT64", "Int"),
        ("TYPE_FIXED32", "Int"),
        ("TYPE_FIXED64", "Int"),
        ("TYPE_UINT32", "Int"),
        ("TYPE_UINT64", "Int"),
        ("TYPE_BOOL", "Boolean"),
        ("TYPE_STRING", "String"),
        ("TYPE_BYTES", "String"),
        ("TYPE_MESSAGE", "JSON"),
        ("type_String", "String"),
        ("TYPE_SFIXED32", "sfixed32"),
        // without the prefix the name is handed back as it was given
        ("Double", "Double"),
        ("double", "Float"),
        ("STRING", "STRING"),
        ("", ""),
    ] {
        assert_eq!(convert_primitive_type(proto), graphql, "{}", proto);
    }
    assert_eq!(primitive_type("type_bool", "ignored"), "Boolean");
    assert_eq!(primitive_type("other", "Other"), "Other");
    assert_eq!(FieldType::Sint64.as_str_name(), "TYPE_SINT64");
}

#[test]
fn names_of_generated_items() {
    let name = |entity: Entity, package: &[&str], name: &str| GraphQLName {
        source: GraphQLType { package: package.iter().map(|p| p.to_string()).collect(), name: name.into() },
        entity,
    };
    assert_eq!(name(Entity::ObjectType, &["a.b", "", "C"], "D").to_string(), "a_b__C__D");
    assert_eq!(name(Entity::ObjectType, &["a.b", "", "C"], "D").id(), "a.b.C.D");
    assert_eq!(name(Entity::Enum, &[], "E").to_string(), "E");
    assert_eq!(name(Entity::Method, &["p", "Svc"], "Do").to_string(), "p__Svc__Do");
    assert_eq!(name(Entity::EnumVariant, &["p"], "ON_HOLD").to_string(), "ON_HOLD");
    assert_eq!(name(Entity::Field, &["p"], "post_image").to_string(), "postImage");
    assert_eq!(name(Entity::Field, &["p"], "HelloRequest").to_string(), "helloRequest");
    assert_eq!(GraphQLType::new("x").push("p").extend(&vec!["q".into(), "r".into()]).package, vec!["p", "q", "r"]);
    assert_eq!(GraphQLType::new("x").into_field(), name(Entity::Field, &[], "x"));
    assert_eq!(GraphQLType::new("x").into_enum().entity, Entity::Enum);
    assert_eq!(GraphQLType::new("x").into_enum_variant().entity, Entity::EnumVariant);
    assert_eq!(GraphQLType::new("x").into_method().entity, Entity::Method);
    assert_eq!(GraphQLType::new("x").into_object_type().entity, Entity::ObjectType);
}

#[test]
fn members_are_kept_once() {
    let mut names = vec![];
    add_member(&mut names, "a".into());
    add_member(&mut names, "b".into());
    add_member(&mut names, "a".into());
    assert_eq!(names, vec!["a", "b"]);
}

#[test]
fn unused_types_are_those_no_root_reaches() {
    let config = Config {
        schema: tailcall::config::RootSchema { query: Some("Query".into()), mutation: None, subscription: None },
        types: vec![
            ("Query".into(), object("q", vec![("a", field("U", false, false))])),
            ("A".into(), object("a", vec![("b", field("B", false, false))])),
            ("B".into(), object("b", vec![("a", field("A", false, false))])),
            ("C".into(), object("c", vec![])),
            ("D".into(), object("d", vec![("c", field("C", false, false))])),
        ],
        unions: vec![
            ("U".into(), Union { types: vec!["A".into(), "Scalar".into()], doc: None }),
            ("V".into(), Union { types: vec!["C".into()], doc: None }),
        ],
        ..Default::default()
    };
    let mut used = tailcall::unused::used_types(&config).to_vec();
    used.sort();
    assert_eq!(used, vec!["A", "B", "Query", "Scalar", "U"]);
    let unused = config.unused_types();
    let mut names = unused.to_vec();
    names.sort();
    assert_eq!(names, vec!["C", "D", "V"]);
    let pruned = config.remove_types(&unused);
    assert_eq!(type_names(&pruned), vec!["Query", "A", "B"]);
    assert_eq!(pruned.unions.len(), 1);
}

fn distinct(names: Vec<&str>) -> bool {
    let mut sorted = names.clone();
    sorted.sort();
    sorted.dedup();
    sorted.len() == names.len()
}

#[test]
fn no_name_is_generated_twice() {
    // the same file twice, in one set and in two: every item stands once
    let once = from_proto(&vec![news("news")], "Query").unwrap();
    let twice = from_proto(&vec![news("news"), news("news")], "Query").unwrap();
    assert_eq!(twice, once);
    assert!(distinct(twice.types.iter().map(|(k, _)| k.as_str()).collect()));
    assert!(distinct(twice.unions.iter().map(|(k, _)| k.as_str()).collect()));
    assert!(distinct(twice.enums.iter().map(|(k, _)| k.as_str()).collect()));
    // a message that is declared twice in a file gives one type, the later one
    let set = file(
        "a",
        vec![
            message("M", vec![scalar("first", FieldType::String)]),
            message("M", vec![scalar("second", FieldType::Int32)]),
        ],
        vec![enumeration("E", &["X"]), enumeration("E", &["Y"])],
        vec![ServiceDescriptor { name: "S".into(), method: vec![method("Get", ".a.M", ".a.M")] }],
    );
    let config = from_proto(&vec![set], "Query").unwrap();
    assert!(distinct(config.types.iter().map(|(k, _)| k.as_str()).collect()));
    assert!(distinct(config.enums.iter().map(|(k, _)| k.as_str()).collect()));
    assert_eq!(config.enums.len(), 1);
    assert_eq!(config.enums[0].1.variants, vec!["Y".to_string()]);
    // nothing else is set
    assert_eq!(config.server, tailcall::config::Server::default());
    assert_eq!(config.upstream.base_url, None);
    assert_eq!(config.schema.mutation, None);
    assert_eq!(config.schema.subscription, None);
}
