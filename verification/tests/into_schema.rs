use tailcall::blueprint::{
    Blueprint, Definition, EnumTypeDefinition, EnumValueDefinition, FieldDefinition,
    InputFieldDefinition, InputObjectTypeDefinition, InterfaceTypeDefinition,
    ObjectTypeDefinition, ScalarTypeDefinition, SchemaDefinition, Type, UnionTypeDefinition,
};
use tailcall::cache::CacheStore;
use tailcall::context::EvalContext;
use tailcall::eval::{EvalError, Session};
use tailcall::into_schema::{
    create, entity_resolver, field_value, resolve_entities, resolve_field, to_type, to_type_ref,
    Entities, FieldValue, Resolution, SchemaField, SchemaInput, SchemaType, TypeRef,
};
use tailcall::ir::{IO, IR};
use tailcall::json::Json;

fn json(text: &str) -> Json {
    Json::parse(text).unwrap()
}

fn named(name: &str, non_null: bool) -> Type {
    Type::NamedType { name: name.into(), non_null }
}

fn list(of_type: Type, non_null: bool) -> Type {
    Type::ListType { of_type: Box::new(of_type), non_null }
}

fn r_named(name: &str) -> TypeRef {
    TypeRef::Named(name.into())
}

fn non_null(t: TypeRef) -> TypeRef {
    TypeRef::NonNull(Box::new(t))
}

fn field(name: &str, of_type: Type, resolver: Option<IR>) -> FieldDefinition {
    FieldDefinition { name: name.into(), args: vec![], of_type, resolver, description: None }
}

fn session(answers: Vec<Result<Json, EvalError>>) -> Session {
    Session { store: CacheStore::new(4), now: 0, answers, used: 0, deferred: vec![] }
}

fn user_definition() -> Definition {
    Definition::ObjectTypeDefinition(ObjectTypeDefinition {
        name: "User".into(),
        fields: vec![
            field("id", named("ID", true), None),
            FieldDefinition {
                args: vec![InputFieldDefinition { name: "first".into(), of_type: named("Int", false), description: None }],
                description: Some("The posts".into()),
                ..field("posts", list(named("Post", true), true), Some(IR::Service("x".into())))
            },
        ],
        description: None,
        implements: vec!["Node".into()],
    })
}

#[test]
fn type_refs() {
    assert_eq!(to_type_ref(&named("A", false)), r_named("A"));
    assert_eq!(to_type_ref(&named("A", true)), non_null(r_named("A")));
    assert_eq!(to_type_ref(&list(named("A", false), false)), TypeRef::List(Box::new(r_named("A"))));
    assert_eq!(
        to_type_ref(&list(list(named("A", true), false), true)),
        non_null(TypeRef::List(Box::new(TypeRef::List(Box::new(non_null(r_named("A")))))))
    );
}

#[test]
fn types_to_register() {
    assert_eq!(
        to_type(&user_definition()),
        SchemaType::Object {
            name: "User".into(),
            fields: vec![
                SchemaField { name: "id".into(), type_ref: non_null(r_named("ID")), description: None, arguments: vec![] },
                SchemaField {
                    name: "posts".into(),
                    type_ref: non_null(TypeRef::List(Box::new(non_null(r_named("Post"))))),
                    description: Some("The posts".into()),
                    arguments: vec![SchemaInput { name: "first".into(), type_ref: r_named("Int") }],
                },
            ],
            implements: vec!["Node".into()],
        }
    );
    assert_eq!(
        to_type(&Definition::InterfaceTypeDefinition(InterfaceTypeDefinition {
            name: "Node".into(),
            fields: vec![field("id", named("ID", true), None)],
            description: None,
        })),
        SchemaType::Interface { name: "Node".into(), fields: vec![SchemaInput { name: "id".into(), type_ref: non_null(r_named("ID")) }] }
    );
    assert_eq!(
        to_type(&Definition::InputObjectTypeDefinition(InputObjectTypeDefinition {
            name: "Filter".into(),
            fields: vec![InputFieldDefinition { name: "tags".into(), of_type: list(named("String", false), false), description: None }],
            description: None,
        })),
        SchemaType::InputObject {
            name: "Filter".into(),
            fields: vec![SchemaInput { name: "tags".into(), type_ref: TypeRef::List(Box::new(r_named("String"))) }]
        }
    );
    assert_eq!(
        to_type(&Definition::ScalarTypeDefinition(ScalarTypeDefinition { name: "Date".into(), description: Some("A day".into()) })),
        SchemaType::Scalar { name: "Date".into(), description: Some("A day".into()) }
    );
    assert_eq!(
        to_type(&Definition::EnumTypeDefinition(EnumTypeDefinition {
            name: "Role".into(),
            enum_values: vec![
                EnumValueDefinition { name: "ADMIN".into(), description: None },
                EnumValueDefinition { name: "GUEST".into(), description: Some("x".into()) }
            ],
            description: None,
        })),
        SchemaType::Enum { name: "Role".into(), items: vec!["ADMIN".into(), "GUEST".into()] }
    );
    assert_eq!(
        to_type(&Definition::UnionTypeDefinition(UnionTypeDefinition {
            name: "Pet".into(),
            types: vec!["Cat".into(), "Dog".into()],
            description: None,
        })),
        SchemaType::Union { name: "Pet".into(), possible_types: vec!["Cat".into(), "Dog".into()] }
    );
}

#[test]
fn plan_of_a_blueprint() {
    let blueprint = Blueprint {
        definitions: vec![
            user_definition(),
            Definition::ScalarTypeDefinition(ScalarTypeDefinition { name: "Date".into(), description: None }),
        ],
        schema: SchemaDefinition { query: "Query".into(), mutation: Some("Mutation".into()) },
        entity_resolvers: vec![],
    };
    assert_eq!(blueprint.query(), "Query");
    assert_eq!(blueprint.mutation(), Some("Mutation".to_string()));
    let plan = create(&blueprint);
    assert_eq!(plan.query, "Query");
    assert_eq!(plan.mutation, Some("Mutation".to_string()));
    assert!(!plan.federation);
    assert_eq!(plan.types.len(), 2);
    assert_eq!(plan.types[0], to_type(&user_definition()));
    assert!(matches!(plan.types[1], SchemaType::Scalar { .. }));
    let federated = Blueprint { entity_resolvers: vec![("User".into(), None)], definitions: vec![], ..blueprint };
    assert!(create(&federated).federation);
}

#[test]
fn fields_without_resolver_read_the_parent() {
    let args = Json::Null;
    let none = vec![];
    let parent = json(r#"{"id": 7, "tags": ["a"]}"#);
    let ctx = EvalContext { args: &args, value: Some(&parent), vars: &none, env: &none, headers: &none };
    let mut s = session(vec![]);
    let id = field("id", named("ID", true), None);
    assert!(matches!(resolve_field(&id, &ctx, &mut s), Resolution::Done(Ok(Some(FieldValue::Value(v)))) if v == json("7")));
    // a list of the parent is handed over as it is
    let tags = field("tags", list(named("String", false), false), None);
    assert!(matches!(resolve_field(&tags, &ctx, &mut s), Resolution::Done(Ok(Some(FieldValue::Value(v)))) if v == json(r#"["a"]"#)));
    let missing = field("missing", named("ID", false), None);
    assert!(matches!(resolve_field(&missing, &ctx, &mut s), Resolution::Done(Ok(None))));
    let orphan = EvalContext { value: None, ..ctx };
    assert!(matches!(resolve_field(&missing, &orphan, &mut s), Resolution::Done(Ok(None))));
    // what must be there and is not fails the field
    assert!(matches!(
        resolve_field(&id, &orphan, &mut s),
        Resolution::Done(Err(EvalError::PathNotFound))
    ));
    let required = field("missing", list(named("ID", false), true), None);
    assert!(matches!(
        resolve_field(&required, &ctx, &mut s),
        Resolution::Done(Err(EvalError::PathNotFound))
    ));
}

#[test]
fn a_non_null_field_that_resolves_to_null_fails() {
    let args = json(r#"{"a": null, "b": 1}"#);
    let none = vec![];
    let parent = json(r#"{"id": null}"#);
    let ctx = EvalContext { args: &args, value: Some(&parent), vars: &none, env: &none, headers: &none };
    let mut s = session(vec![]);
    let path = |p: &[&str]| IR::ContextPath(p.iter().map(|x| x.to_string()).collect());
    // no resolver, and the parent has null under the name
    let id = field("id", named("ID", true), None);
    assert!(matches!(resolve_field(&id, &ctx, &mut s), Resolution::Done(Err(EvalError::PathNotFound))));
    let id = field("id", named("ID", false), None);
    assert!(matches!(
        resolve_field(&id, &ctx, &mut s),
        Resolution::Done(Ok(Some(FieldValue::Value(Json::Null))))
    ));
    // a resolver that finds nothing, or null
    let absent = field("x", named("Int", true), Some(path(&["args", "zzz"])));
    assert!(matches!(resolve_field(&absent, &ctx, &mut s), Resolution::Done(Err(EvalError::PathNotFound))));
    let null = field("x", named("Int", true), Some(path(&["args", "a"])));
    assert!(matches!(resolve_field(&null, &ctx, &mut s), Resolution::Done(Err(EvalError::PathNotFound))));
    let there = field("x", named("Int", true), Some(path(&["args", "b"])));
    assert!(matches!(
        resolve_field(&there, &ctx, &mut s),
        Resolution::Done(Ok(Some(FieldValue::Value(v)))) if v == json("1")
    ));
    let nullable = field("x", named("Int", false), Some(path(&["args", "zzz"])));
    assert!(matches!(
        resolve_field(&nullable, &ctx, &mut s),
        Resolution::Done(Ok(Some(FieldValue::Value(Json::Null))))
    ));
    // an error of the resolver stays what it is
    let failing = field("x", named("Int", true), Some(IR::IO(IO::Js { name: "f".into() })));
    let mut s = session(vec![Err(EvalError::Timeout), Ok(Json::Null)]);
    assert!(matches!(resolve_field(&failing, &ctx, &mut s), Resolution::Done(Err(EvalError::Timeout))));
    assert!(matches!(resolve_field(&failing, &ctx, &mut s), Resolution::Done(Err(EvalError::PathNotFound))));
    assert!(named("A", true).is_non_null());
    assert!(!list(named("A", true), false).is_non_null());
}

#[test]
fn fields_with_resolver_are_evaluated() {
    let args = Json::Null;
    let none = vec![];
    let ctx = EvalContext { args: &args, value: None, vars: &none, env: &none, headers: &none };
    let call = field("posts", list(named("Post", false), false), Some(IR::IO(IO::Js { name: "posts".into() })));
    assert!(matches!(resolve_field(&call, &ctx, &mut session(vec![])), Resolution::NeedIo { .. }));
    let mut s = session(vec![Ok(json(r#"[{"id": 1}, {"id": 2}]"#)), Ok(json(r#"{"id": 1}"#)), Err(EvalError::Timeout)]);
    assert!(matches!(
        resolve_field(&call, &ctx, &mut s),
        Resolution::Done(Ok(Some(FieldValue::List(items)))) if items == vec![json(r#"{"id": 1}"#), json(r#"{"id": 2}"#)]
    ));
    assert!(matches!(
        resolve_field(&call, &ctx, &mut s),
        Resolution::Done(Ok(Some(FieldValue::Value(v)))) if v == json(r#"{"id": 1}"#)
    ));
    assert!(matches!(resolve_field(&call, &ctx, &mut s), Resolution::Done(Err(EvalError::Timeout))));
    assert_eq!(field_value(json("[]")), FieldValue::List(vec![]));
    assert_eq!(field_value(Json::Null), FieldValue::Value(Json::Null));
}

fn resolvers() -> Vec<(String, Option<IR>)> {
    vec![
        ("User".into(), Some(IR::ContextPath(vec!["value".into(), "id".into()]))),
        ("Plain".into(), None),
        ("Remote".into(), Some(IR::IO(IO::Js { name: "remote".into() }))),
    ]
}

#[test]
fn apollo_entity_resolver() {
    let resolvers = resolvers();
    let args = Json::Null;
    let none = vec![];
    let ctx = EvalContext { args: &args, value: None, vars: &none, env: &none, headers: &none };
    // _entities(representations: [{"__typename": "User", "id": 7}])
    let representations = vec![json(r#"{"__typename": "User", "id": 7}"#)];
    assert!(matches!(entity_resolver(&resolvers, &representations[0]), Ok(Some(IR::ContextPath(_)))));
    let mut s = session(vec![]);
    assert!(matches!(
        resolve_entities(&resolvers, &representations, &ctx, &mut s),
        Entities::Done(Ok(values)) if values == vec![FieldValue::Value(json("7"))]
    ));
}

#[test]
fn entities_one_after_the_other() {
    let resolvers = resolvers();
    let args = Json::Null;
    let none = vec![];
    let ctx = EvalContext { args: &args, value: None, vars: &none, env: &none, headers: &none };
    let representations = vec![
        json(r#"{"__typename": "User", "id": 1}"#),
        json(r#"{"__typename": "Plain"}"#),
        json(r#"{"__typename": "Unknown"}"#),
        json(r#"{"__typename": "Remote", "id": 3}"#),
        json(r#"{"__typename": "User", "id": 4}"#),
    ];
    match resolve_entities(&resolvers, &representations, &ctx, &mut session(vec![])) {
        Entities::NeedIo { value, .. } => assert_eq!(value, Some(json(r#"{"__typename": "Remote", "id": 3}"#))),
        other => panic!("unexpected {:?}", other),
    }
    let mut s = session(vec![Ok(json(r#"["r"]"#))]);
    assert!(matches!(
        resolve_entities(&resolvers, &representations, &ctx, &mut s),
        Entities::Done(Ok(values)) if values == vec![
            FieldValue::Value(json("1")),
            FieldValue::Value(Json::Null),
            FieldValue::Value(Json::Null),
            FieldValue::List(vec![json("\"r\"")]),
            FieldValue::Value(json("4")),
        ]
    ));
    // a type without resolver, or one that is not known, gives null in its place
    let unknown = vec![json(r#"{"__typename": "Unknown"}"#)];
    assert!(matches!(
        resolve_entities(&resolvers, &unknown, &ctx, &mut session(vec![])),
        Entities::Done(Ok(values)) if values == vec![FieldValue::Value(Json::Null)]
    ));
    assert!(matches!(
        resolve_entities(&resolvers, &representations, &ctx, &mut session(vec![Err(EvalError::UpstreamIo)])),
        Entities::Done(Err(EvalError::UpstreamIo))
    ));
    assert!(matches!(resolve_entities(&resolvers, &vec![], &ctx, &mut session(vec![])), Entities::Done(Ok(values)) if values.is_empty()));
}

#[test]
fn representations_that_are_malformed() {
    let resolvers = resolvers();
    assert!(matches!(entity_resolver(&resolvers, &json("3")), Err(EvalError::DeserializeFailed)));
    assert!(matches!(entity_resolver(&resolvers, &json(r#"{"__typename": 3}"#)), Err(EvalError::DeserializeFailed)));
    assert!(matches!(entity_resolver(&resolvers, &json(r#"{"id": 3}"#)), Err(EvalError::PathNotFound)));
    assert!(matches!(entity_resolver(&resolvers, &json(r#"{"__typename": "Plain"}"#)), Ok(None)));
    assert!(matches!(entity_resolver(&resolvers, &json(r#"{"__typename": "Other"}"#)), Ok(None)));
    let args = Json::Null;
    let none = vec![];
    let ctx = EvalContext { args: &args, value: None, vars: &none, env: &none, headers: &none };
    let representations = vec![json(r#"{"__typename": "User", "id": 1}"#), json("[]"), json(r#"{"__typename": "Remote"}"#)];
    let mut s = session(vec![]);
    assert!(matches!(
        resolve_entities(&resolvers, &representations, &ctx, &mut s),
        Entities::Done(Err(EvalError::DeserializeFailed))
    ));
}
