use tailcall::config::{Arg, Config, Field, RootSchema, Type, Union};
use tailcall::config_module::{
    get_input_types, get_output_types, is_scalar, recurse_type, ConfigModule, Content, Extensions,
    JwkSet, ProtoMetadata,
};
use tailcall::names::NameSet;
use tailcall::proto::{FileDescriptor, FileDescriptorSet};

fn descriptor_set(name: &str) -> FileDescriptorSet {
    FileDescriptorSet {
        file: vec![FileDescriptor {
            name: name.to_string(),
            package: "greetings".to_string(),
            message_type: vec![],
            enum_type: vec![],
            service: vec![],
        }],
    }
}

fn names(set: &NameSet) -> Vec<String> {
    let mut v = set.to_vec();
    v.sort();
    v
}

fn field(type_of: &str) -> Field {
    Field { type_of: type_of.to_string(), ..Default::default() }
}

fn field_with_arg(type_of: &str, arg: &str, arg_type: &str) -> Field {
    Field {
        type_of: type_of.to_string(),
        args: vec![(arg.to_string(), Arg { type_of: arg_type.to_string(), ..Default::default() })],
        ..Default::default()
    }
}

fn ty(fields: Vec<(&str, Field)>) -> Type {
    Type { fields: fields.into_iter().map(|(k, f)| (k.to_string(), f)).collect(), ..Default::default() }
}

fn sample_config() -> Config {
    Config {
        schema: RootSchema { query: Some("Query".into()), mutation: Some("Mutation".into()), subscription: None },
        types: vec![
            ("Query".into(), ty(vec![("user", field_with_arg("User", "id", "Int")), ("posts", field("Post"))])),
            ("Mutation".into(), ty(vec![("addPost", field_with_arg("Post", "post", "PostInput"))])),
            ("User".into(), ty(vec![("name", field("String")), ("address", field("Address"))])),
            ("Post".into(), ty(vec![("title", field("String"))])),
            ("Address".into(), ty(vec![("city", field("String"))])),
            ("PostInput".into(), ty(vec![("title", field("String")), ("author", field("AuthorInput"))])),
            ("AuthorInput".into(), ty(vec![("name", field("String")), ("friend", field("AuthorInput"))])),
            ("Node".into(), Type { interface: true, ..ty(vec![("id", field("ID"))]) }),
            ("Empty".into(), ty(vec![])),
        ],
        ..Default::default()
    }
}

#[test]
fn grpc_file_descriptor_set_none() {
    let extensions1 = Extensions::default();
    let extensions2 = Extensions::default();

    assert_eq!(extensions1.merge_right(extensions2).grpc_file_descriptor_set, None);
}

#[test]
fn grpc_file_descriptor_set_single() {
    let greetings_path = "src/grpc/tests/proto/greetings.proto";

    let extensions1 = Extensions {
        grpc_file_descriptor_set: Some(descriptor_set(greetings_path)),
        ..Default::default()
    };
    let extensions2 = Extensions::default();

    assert_eq!(
        extensions1.merge_right(extensions2).grpc_file_descriptor_set,
        Some(descriptor_set(greetings_path))
    );

    let extensions1 = Extensions::default();
    let extensions2 = Extensions {
        grpc_file_descriptor_set: Some(descriptor_set(greetings_path)),
        ..Default::default()
    };

    assert_eq!(
        extensions1.merge_right(extensions2).grpc_file_descriptor_set,
        Some(descriptor_set(greetings_path))
    );
}

#[test]
fn grpc_file_descriptor_set_both() {
    let greetings_path = "src/grpc/tests/proto/greetings.proto";
    let news_path = "src/grpc/tests/proto/news.proto";

    let extensions1 = Extensions {
        grpc_file_descriptor_set: Some(descriptor_set(greetings_path)),
        ..Default::default()
    };
    let extensions2 = Extensions {
        grpc_file_descriptor_set: Some(descriptor_set(news_path)),
        ..Default::default()
    };

    assert_eq!(
        extensions1.merge_right(extensions2).grpc_file_descriptor_set,
        Some(FileDescriptorSet {
            file: descriptor_set(greetings_path)
                .file
                .into_iter()
                .chain(descriptor_set(news_path).file)
                .collect()
        })
    );
}

#[test]
fn extensions_merge_the_rest() {
    let left = Extensions {
        script: Some("left".into()),
        cert: vec![vec![1]],
        keys: vec![vec![9]],
        htpasswd: vec![Content { id: None, content: "a:b".into() }],
        ..Default::default()
    };
    let right = Extensions {
        script: None,
        cert: vec![vec![2], vec![3]],
        keys: vec![],
        jwks: vec![Content { id: Some("k".into()), content: JwkSet { keys: vec!["{}".into()] } }],
        ..Default::default()
    };
    let merged = left.merge_right(right);
    assert_eq!(merged.script, Some("left".to_string()));
    assert_eq!(merged.cert, vec![vec![1], vec![2], vec![3]]);
    assert_eq!(merged.keys, vec![vec![9]]);
    assert_eq!(merged.htpasswd.len(), 1);
    assert_eq!(merged.jwks.len(), 1);
    assert!(merged.has_auth());

    let left = Extensions { script: Some("left".into()), keys: vec![vec![9]], ..Default::default() };
    let right = Extensions { script: Some("right".into()), keys: vec![vec![7]], ..Default::default() };
    let merged = left.merge_right(right);
    assert_eq!(merged.script, Some("right".to_string()));
    assert_eq!(merged.keys, vec![vec![7]]);
    assert!(!merged.has_auth());
}

#[test]
fn add_proto_collects_the_files() {
    let mut extensions = Extensions::default();
    assert_eq!(extensions.get_file_descriptor_set(), None);
    extensions.add_proto(ProtoMetadata { descriptor_set: descriptor_set("a.proto"), path: "a.proto".into() });
    assert_eq!(extensions.get_file_descriptor_set(), Some(&descriptor_set("a.proto")));
    extensions.add_proto(ProtoMetadata { descriptor_set: descriptor_set("b.proto"), path: "b.proto".into() });
    let files: Vec<&str> = extensions.get_file_descriptor_set().unwrap().file.iter().map(|f| f.name.as_str()).collect();
    assert_eq!(files, vec!["a.proto", "b.proto"]);
}

#[test]
fn input_types_are_what_arguments_reach() {
    let config = sample_config();
    let inputs = get_input_types(&config);
    // `Int` is a scalar and no root; what `PostInput` reaches includes the scalars of its fields
    assert_eq!(names(&inputs), vec!["AuthorInput", "PostInput", "String"]);
    assert!(is_scalar("Int"));
    assert!(is_scalar("JSON"));
    assert!(!is_scalar("PostInput"));
    assert!(!is_scalar("int"));
}

#[test]
fn arguments_of_interfaces_are_no_inputs() {
    let config = Config {
        types: vec![
            ("Node".into(), Type { interface: true, ..ty(vec![("find", field_with_arg("Node", "by", "Filter"))]) }),
            ("Filter".into(), ty(vec![("n", field("Int"))])),
        ],
        ..Default::default()
    };
    assert!(get_input_types(&config).is_empty());
}

#[test]
fn output_types_are_the_roots_and_the_types_of_fields() {
    let config = sample_config();
    let inputs = get_input_types(&config);
    let outputs = get_output_types(&config, &inputs);
    // the fields of the input types and of the type without fields do not count
    assert_eq!(names(&outputs), vec!["Address", "ID", "Mutation", "Post", "Query", "String", "User"]);
    let none = get_output_types(&config, &NameSet::new());
    assert_eq!(
        names(&none),
        vec!["Address", "AuthorInput", "ID", "Mutation", "Post", "Query", "String", "User"]
    );
}

#[test]
fn recurse_type_follows_fields_once() {
    let config = sample_config();
    let mut types = NameSet::new();
    recurse_type(&config, "PostInput", &mut types);
    assert_eq!(names(&types), vec!["AuthorInput", "String"]);
    // what is known already is not passed through again
    let mut types = NameSet::new();
    types.insert("AuthorInput".into());
    types.insert("Seen".into());
    recurse_type(&config, "PostInput", &mut types);
    assert_eq!(names(&types), vec!["AuthorInput", "Seen", "String"]);
    let mut types = NameSet::new();
    types.insert("Address".into());
    recurse_type(&config, "User", &mut types);
    assert_eq!(names(&types), vec!["Address", "String"]);
    let mut types = NameSet::new();
    recurse_type(&config, "Unknown", &mut types);
    assert!(types.is_empty());
}

#[test]
fn config_module_from_config() {
    let module = ConfigModule::from(sample_config());
    assert_eq!(module.config, sample_config());
    assert_eq!(names(&module.input_types), vec!["AuthorInput", "PostInput", "String"]);
    assert_eq!(module.output_types.len(), 7);
    assert!(!module.extensions.has_auth());
    let empty = ConfigModule::default();
    assert!(empty.input_types.is_empty());
    assert!(empty.output_types.is_empty());
    assert_eq!(empty.config, Config::default());
}

#[test]
fn config_modules_merge() {
    let left = ConfigModule::from(sample_config());
    let right = ConfigModule::from(Config {
        schema: RootSchema { query: Some("Root".into()), mutation: None, subscription: None },
        types: vec![
            ("Root".into(), ty(vec![("x", field_with_arg("X", "in", "XInput"))])),
            ("Post".into(), ty(vec![("body", field("String"))])),
        ],
        unions: vec![("U".into(), Union { types: vec!["X".into()], doc: None })],
        ..Default::default()
    });
    let merged = left.merge_right(right);
    assert_eq!(merged.config.schema.query, Some("Root".to_string()));
    assert_eq!(merged.config.schema.mutation, Some("Mutation".to_string()));
    let type_names: Vec<&str> = merged.config.types.iter().map(|(k, _)| k.as_str()).collect();
    assert_eq!(
        type_names,
        vec!["Query", "Mutation", "User", "Post", "Address", "PostInput", "AuthorInput", "Node", "Empty", "Root"]
    );
    assert_eq!(merged.config.find_type("Post"), Some(&ty(vec![("body", field("String"))])));
    assert_eq!(merged.config.find_type("Nope"), None);
    assert_eq!(merged.config.unions.len(), 1);
    assert_eq!(names(&merged.input_types), vec!["AuthorInput", "PostInput", "String", "XInput"]);
    assert!(merged.output_types.contains("X"));
    assert!(merged.output_types.contains("User"));
}

#[test]
fn name_sets() {
    let mut set = NameSet::new();
    assert!(set.is_empty());
    assert!(set.insert("a".into()));
    assert!(!set.insert("a".into()));
    assert!(set.insert("b".into()));
    assert_eq!(set.len(), 2);
    assert!(set.contains("a"));
    assert!(!set.contains("c"));
    assert_eq!(set.to_vec(), vec!["a", "b"]);
    let mut other = NameSet::new();
    other.insert("b".into());
    other.insert("c".into());
    set.extend(&other);
    assert_eq!(set.to_vec(), vec!["a", "b", "c"]);
    assert_eq!(set.clone().to_vec(), vec!["a", "b", "c"]);
}

fn all_distinct(names: Vec<&str>) -> bool {
    let mut sorted = names.clone();
    sorted.sort();
    sorted.dedup();
    sorted.len() == names.len()
}

#[test]
fn merging_keeps_every_name_once() {
    let left = Config {
        types: vec![("A".into(), ty(vec![("x", field("Int"))])), ("B".into(), ty(vec![]))],
        unions: vec![("U".into(), Union { types: vec!["A".into()], doc: None })],
        ..Default::default()
    };
    let right = Config {
        types: vec![("B".into(), ty(vec![("y", field("Int"))])), ("C".into(), ty(vec![])), ("A".into(), ty(vec![]))],
        unions: vec![("U".into(), Union { types: vec!["B".into()], doc: None }), ("V".into(), Union { types: vec![], doc: None })],
        ..Default::default()
    };
    let merged = left.merge_right(right);
    let names: Vec<&str> = merged.types.iter().map(|(k, _)| k.as_str()).collect();
    assert_eq!(names, vec!["A", "B", "C"]);
    assert!(all_distinct(names));
    assert_eq!(merged.types[0].1, ty(vec![]));
    assert_eq!(merged.types[1].1, ty(vec![("y", field("Int"))]));
    let unions: Vec<&str> = merged.unions.iter().map(|(k, _)| k.as_str()).collect();
    assert_eq!(unions, vec!["U", "V"]);
    assert_eq!(merged.unions[0].1.types, vec!["B".to_string()]);
}
