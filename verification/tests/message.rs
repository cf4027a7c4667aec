use pbjsonrpc_build::descriptor::{
    DescriptorSet, FieldDescriptor, FieldKind, FileDescriptor, MessageDeclaration,
    MethodDescriptor, Package, ServiceDeclaration, ServiceDescriptor, TypePath,
};
use pbjsonrpc_build::message::{
    field_type, find, first_dangling_reference, is_message, plain_field_type, reference_path,
    resolve_field, resolve_message, resolve_method, resolve_service, Dangling, Field,
    FieldModifier, FieldType, Message, ScalarType,
};

fn path(package: &str, names: &[&str]) -> TypePath {
    let mut path = TypePath::new(Package::new(package));
    for name in names {
        path = path.child(name);
    }
    path
}

fn scalar(name: &str, scalar: ScalarType, repeated: bool) -> FieldDescriptor {
    FieldDescriptor { name: name.to_string(), kind: FieldKind::Scalar(scalar), repeated }
}

fn reference(name: &str, target: &str, repeated: bool) -> FieldDescriptor {
    FieldDescriptor {
        name: name.to_string(),
        kind: FieldKind::Reference(target.to_string()),
        repeated,
    }
}

fn message(name: &str, fields: Vec<FieldDescriptor>) -> MessageDeclaration {
    MessageDeclaration {
        name: name.to_string(),
        fields,
        nested: Vec::new(),
        enums: Vec::new(),
        map_entry: false,
    }
}

fn method(name: &str, input: &str, output: &str, streaming: bool) -> MethodDescriptor {
    MethodDescriptor {
        name: name.to_string(),
        input_type: input.to_string(),
        output_type: output.to_string(),
        server_streaming: streaming,
    }
}

fn registry() -> DescriptorSet {
    let mut holder = message(
        "Holder",
        vec![
            scalar("id", ScalarType::U64, false),
            reference("labels", ".test.Holder.LabelsEntry", true),
            reference("kind", ".test.Kind", false),
            reference("items", ".test.Item", true),
            reference("stamp", ".google.protobuf.Timestamp", false),
        ],
    );
    holder.nested.push(MessageDeclaration {
        name: "LabelsEntry".to_string(),
        fields: vec![
            scalar("key", ScalarType::String, false),
            reference("value", ".test.Item", false),
        ],
        nested: Vec::new(),
        enums: Vec::new(),
        map_entry: true,
    });
    let mut set = DescriptorSet::new();
    set.register_file_descriptor(FileDescriptor {
        package: "test".to_string(),
        messages: vec![holder, message("Item", vec![scalar("n", ScalarType::I32, false)])],
        enums: vec!["Kind".to_string()],
        services: vec![ServiceDeclaration {
            name: "Api".to_string(),
            methods: vec![method("Get", ".test.Item", ".test.Holder", false)],
        }],
    });
    set
}

#[test]
fn find_gives_the_first_entry_of_that_name() {
    let mut set = registry();
    assert_eq!(find(&set, ".test.Holder"), Some(0));
    assert_eq!(find(&set, ".test.Holder.LabelsEntry"), Some(1));
    assert_eq!(find(&set, ".test.Item"), Some(2));
    assert_eq!(find(&set, ".test.Kind"), Some(3));
    assert_eq!(find(&set, ".test.Api"), Some(4));
    assert_eq!(find(&set, ".test.Missing"), None);
    assert_eq!(find(&set, "test.Item"), None);
    assert_eq!(find(&set, ".test"), None);
    set.register_enums(&path("test", &[]), &vec!["Item".to_string()]);
    assert_eq!(find(&set, ".test.Item"), Some(2));
}

#[test]
fn reference_path_takes_the_last_segment_as_the_type() {
    assert_eq!(reference_path(".x.y.Z"), path("x.y", &["Z"]));
    assert_eq!(reference_path("x.Z"), path("x", &["Z"]));
    assert_eq!(reference_path(".Z"), path("", &["Z"]));
    assert_eq!(reference_path("."), path("", &[]));
    assert_eq!(reference_path(""), path("", &[]));
}

#[test]
fn plain_field_type_looks_the_name_up() {
    let set = registry();
    assert_eq!(
        plain_field_type(&set, &FieldKind::Scalar(ScalarType::Bool)),
        FieldType::Scalar(ScalarType::Bool)
    );
    assert_eq!(
        plain_field_type(&set, &FieldKind::Reference(".test.Kind".to_string())),
        FieldType::Enum(path("test", &["Kind"]))
    );
    assert_eq!(
        plain_field_type(&set, &FieldKind::Reference(".test.Item".to_string())),
        FieldType::Message(path("test", &["Item"]))
    );
    assert_eq!(
        plain_field_type(&set, &FieldKind::Reference(".test.Holder.LabelsEntry".to_string())),
        FieldType::Message(path("test", &["Holder", "LabelsEntry"]))
    );
    assert_eq!(
        plain_field_type(&set, &FieldKind::Reference(".test.Api".to_string())),
        FieldType::Message(path("test", &["Api"]))
    );
}

#[test]
fn field_type_of_an_unregistered_name_spells_its_path() {
    let set = registry();
    assert_eq!(
        field_type(&set, &FieldKind::Reference(".google.protobuf.Timestamp".to_string())),
        FieldType::Message(path("google.protobuf", &["Timestamp"]))
    );
}

#[test]
fn field_type_of_a_map_entry_is_a_map() {
    let set = registry();
    assert_eq!(
        field_type(&set, &FieldKind::Reference(".test.Holder.LabelsEntry".to_string())),
        FieldType::MapOf(
            ScalarType::String,
            Box::new(FieldType::Message(path("test", &["Item"])))
        )
    );
}

#[test]
fn field_type_of_a_marked_message_that_is_no_entry_is_a_message() {
    let entry = |name: &str, fields: Vec<FieldDescriptor>| MessageDeclaration {
        name: name.to_string(),
        fields,
        nested: Vec::new(),
        enums: Vec::new(),
        map_entry: true,
    };
    let mut set = DescriptorSet::new();
    set.register_file_descriptor(FileDescriptor {
        package: "m".to_string(),
        messages: vec![
            entry("One", vec![scalar("key", ScalarType::String, false)]),
            entry(
                "Keyed",
                vec![reference("key", ".m.One", false), scalar("value", ScalarType::I32, false)],
            ),
            entry(
                "Three",
                vec![
                    scalar("key", ScalarType::String, false),
                    scalar("value", ScalarType::I32, false),
                    scalar("more", ScalarType::I32, false),
                ],
            ),
            entry(
                "Loop",
                vec![scalar("key", ScalarType::I64, false), reference("value", ".m.Loop", false)],
            ),
        ],
        enums: Vec::new(),
        services: Vec::new(),
    });
    for name in ["One", "Keyed", "Three"] {
        assert_eq!(
            field_type(&set, &FieldKind::Reference(format!(".m.{}", name))),
            FieldType::Message(path("m", &[name]))
        );
    }
    assert_eq!(
        field_type(&set, &FieldKind::Reference(".m.Loop".to_string())),
        FieldType::MapOf(ScalarType::I64, Box::new(FieldType::Message(path("m", &["Loop"]))))
    );
}

#[test]
fn resolve_field_keeps_name_and_modifier() {
    let set = registry();
    assert_eq!(
        resolve_field(&set, &scalar("count", ScalarType::I32, true)),
        Field {
            name: "count".to_string(),
            field_type: FieldType::Scalar(ScalarType::I32),
            field_modifier: FieldModifier::Repeated,
        }
    );
    assert_eq!(
        resolve_field(&set, &reference("kind", ".test.Kind", false)),
        Field {
            name: "kind".to_string(),
            field_type: FieldType::Enum(path("test", &["Kind"])),
            field_modifier: FieldModifier::Singular,
        }
    );
}

#[test]
fn resolve_message_lists_the_fields_in_order() {
    let set = registry();
    let holder = resolve_message(&set, ".test.Holder").unwrap();
    assert_eq!(holder.path, path("test", &["Holder"]));
    let names: Vec<&str> = holder.all_fields().iter().map(|f| f.name.as_str()).collect();
    assert_eq!(names, vec!["id", "labels", "kind", "items", "stamp"]);
    assert_eq!(holder.fields[0].field_type, FieldType::Scalar(ScalarType::U64));
    assert_eq!(
        holder.fields[1].field_type,
        FieldType::MapOf(
            ScalarType::String,
            Box::new(FieldType::Message(path("test", &["Item"])))
        )
    );
    assert_eq!(holder.fields[1].field_modifier, FieldModifier::Repeated);
    assert_eq!(holder.fields[3].field_type, FieldType::Message(path("test", &["Item"])));
    assert_eq!(holder.fields[3].field_modifier, FieldModifier::Repeated);
    assert_eq!(holder.fields[4].field_modifier, FieldModifier::Singular);
}

#[test]
fn resolve_message_wants_a_registered_message() {
    let set = registry();
    assert_eq!(resolve_message(&set, ".test.Missing"), None);
    assert_eq!(resolve_message(&set, ".test.Kind"), None);
    assert_eq!(resolve_message(&set, ".test.Api"), None);
    assert_eq!(resolve_message(&set, "test.Item"), None);
    assert_eq!(
        resolve_message(&set, ".test.Item"),
        Some(Message {
            path: path("test", &["Item"]),
            fields: vec![Field {
                name: "n".to_string(),
                field_type: FieldType::Scalar(ScalarType::I32),
                field_modifier: FieldModifier::Singular,
            }],
        })
    );
}

#[test]
fn resolve_method_attaches_input_and_output() {
    let set = registry();
    let resolved = resolve_method(&set, &method("Watch", ".test.Item", ".test.Holder", true)).unwrap();
    assert_eq!(resolved.name, "Watch");
    assert!(resolved.is_stream);
    assert_eq!(resolved.input.path, path("test", &["Item"]));
    assert_eq!(resolved.output.path, path("test", &["Holder"]));
    assert_eq!(resolved.output.fields.len(), 5);
    assert!(!resolve_method(&set, &method("Get", ".test.Item", ".test.Item", false)).unwrap().is_stream);
}

#[test]
fn resolve_method_fails_on_a_missing_side() {
    let set = registry();
    assert_eq!(resolve_method(&set, &method("A", ".test.Missing", ".test.Item", false)), None);
    assert_eq!(resolve_method(&set, &method("B", ".test.Item", ".test.Missing", false)), None);
    assert_eq!(resolve_method(&set, &method("C", ".test.Kind", ".test.Item", false)), None);
}

#[test]
fn resolve_service_keeps_the_order_of_methods() {
    let set = registry();
    let service = ServiceDescriptor {
        methods: vec![
            method("First", ".test.Item", ".test.Holder", false),
            method("Second", ".test.Holder", ".test.Item", true),
            method("Third", ".test.Item", ".test.Item", false),
        ],
    };
    let resolved = resolve_service(&set, &path("test", &["Api"]), &service).unwrap();
    assert_eq!(resolved.path, path("test", &["Api"]));
    let names: Vec<&str> = resolved.methods.iter().map(|m| m.name.as_str()).collect();
    assert_eq!(names, vec!["First", "Second", "Third"]);
}

#[test]
fn resolve_service_fails_as_a_whole() {
    let set = registry();
    for broken in 0..3 {
        let mut methods = vec![
            method("First", ".test.Item", ".test.Holder", false),
            method("Second", ".test.Holder", ".test.Item", true),
            method("Third", ".test.Item", ".test.Item", false),
        ];
        methods[broken].output_type = ".test.Gone".to_string();
        let service = ServiceDescriptor { methods };
        assert_eq!(resolve_service(&set, &path("test", &["Api"]), &service), None);
    }
}

#[test]
fn resolve_service_without_methods() {
    let set = registry();
    let resolved =
        resolve_service(&set, &path("test", &["Empty"]), &ServiceDescriptor { methods: Vec::new() })
            .unwrap();
    assert!(resolved.methods.is_empty());
}

#[test]
fn is_message_wants_a_message_under_the_name() {
    let set = registry();
    assert!(is_message(&set, ".test.Item"));
    assert!(is_message(&set, ".test.Holder.LabelsEntry"));
    assert!(!is_message(&set, ".test.Kind"));
    assert!(!is_message(&set, ".test.Api"));
    assert!(!is_message(&set, ".test.Missing"));
}

#[test]
fn first_dangling_reference_names_the_first_missing_type() {
    let set = registry();
    let service = |methods: Vec<MethodDescriptor>| ServiceDescriptor { methods };
    assert_eq!(first_dangling_reference(&set, &service(Vec::new())), None);
    assert_eq!(
        first_dangling_reference(
            &set,
            &service(vec![method("Fine", ".test.Item", ".test.Holder", false)])
        ),
        None
    );
    assert_eq!(
        first_dangling_reference(
            &set,
            &service(vec![
                method("Fine", ".test.Item", ".test.Holder", false),
                method("Out", ".test.Item", ".test.NoOut", false),
                method("In", ".test.NoIn", ".test.Item", false),
            ])
        ),
        Some(Dangling { method: "Out".to_string(), missing: ".test.NoOut".to_string() })
    );
    assert_eq!(
        first_dangling_reference(
            &set,
            &service(vec![method("Both", ".test.NoIn", ".test.NoOut", false)])
        ),
        Some(Dangling { method: "Both".to_string(), missing: ".test.NoIn".to_string() })
    );
    assert_eq!(
        first_dangling_reference(
            &set,
            &service(vec![method("Enum", ".test.Item", ".test.Kind", false)])
        ),
        Some(Dangling { method: "Enum".to_string(), missing: ".test.Kind".to_string() })
    );
}

#[test]
fn rust_names_are_in_snake_case() {
    let set = registry();
    let resolved = resolve_method(&set, &method("GetItemByID", ".test.Item", ".test.Item", false)).unwrap();
    assert_eq!(resolved.rust_method_name(), "get_item_by_id");
    let field = resolve_field(&set, &scalar("userName", ScalarType::String, false));
    assert_eq!(field.rust_field_name(), "user_name");
}
