use pbjsonrpc_build::descriptor::{
    Descriptor, DescriptorSet, FieldDescriptor, FieldKind, FileDescriptor, FileDescriptorSet,
    MessageDeclaration, MethodDescriptor, Package, ServiceDeclaration, TypePath, LABEL_REPEATED,
};
use pbjsonrpc_build::message::ScalarType;

fn path(package: &str, names: &[&str]) -> TypePath {
    let mut path = TypePath::new(Package::new(package));
    for name in names {
        path = path.child(name);
    }
    path
}

fn message(name: &str, nested: Vec<MessageDeclaration>, enums: &[&str]) -> MessageDeclaration {
    MessageDeclaration {
        name: name.to_string(),
        fields: vec![FieldDescriptor {
            name: "id".to_string(),
            kind: FieldKind::Scalar(ScalarType::U64),
            repeated: false,
        }],
        nested,
        enums: enums.iter().map(|s| s.to_string()).collect(),
        map_entry: false,
    }
}

fn service(name: &str) -> ServiceDeclaration {
    ServiceDeclaration {
        name: name.to_string(),
        methods: vec![MethodDescriptor {
            name: "Get".to_string(),
            input_type: ".a.In".to_string(),
            output_type: ".a.Out".to_string(),
            server_streaming: false,
        }],
    }
}

fn names(set: &DescriptorSet) -> Vec<String> {
    (0..set.len()).map(|i| set.get(i).0.full_name()).collect()
}

#[test]
fn package_path_splits_the_name() {
    let package = Package::new("test.common");
    assert_eq!(package.name(), "test.common");
    assert_eq!(package.path(), vec!["test".to_string(), "common".to_string()]);
    assert_eq!(Package::new("").path(), Vec::<String>::new());
}

#[test]
fn package_same_as_compares_names() {
    assert!(Package::new("a.b").same_as(&Package::new("a.b")));
    assert!(!Package::new("a.b").same_as(&Package::new("a")));
    assert!(Package::new("a.b").clone().same_as(&Package::new("a.b")));
}

#[test]
fn type_path_child_appends_a_name() {
    let root = TypePath::new(Package::new("test.common"));
    assert!(root.path().is_empty());
    let inner = root.child("Outer").child("Inner");
    assert_eq!(inner.package().name(), "test.common");
    assert_eq!(inner.path(), &vec!["Outer".to_string(), "Inner".to_string()]);
    assert_eq!(
        inner.segments(),
        vec!["test".to_string(), "common".to_string(), "Outer".to_string(), "Inner".to_string()]
    );
    assert_eq!(inner.full_name(), ".test.common.Outer.Inner");
    assert_eq!(inner.clone().full_name(), ".test.common.Outer.Inner");
}

#[test]
fn full_name_without_package() {
    assert_eq!(path("", &["Foo"]).full_name(), ".Foo");
    assert_eq!(path("", &[]).full_name(), ".");
}

#[test]
fn prefix_match_counts_the_segments_covered() {
    let p = path("test.common", &["Outer", "Inner"]);
    assert_eq!(p.prefix_match("."), Some(0));
    assert_eq!(p.prefix_match(".test"), Some(1));
    assert_eq!(p.prefix_match(".test.common"), Some(2));
    assert_eq!(p.prefix_match(".test.common.Outer"), Some(3));
    assert_eq!(p.prefix_match(".test.common.Outer.Inner"), Some(4));
}

#[test]
fn prefix_match_needs_the_leading_dot() {
    let p = path("test.common", &["Outer"]);
    assert_eq!(p.prefix_match(""), None);
    assert_eq!(p.prefix_match("test"), None);
    assert_eq!(p.prefix_match("test.common"), None);
}

#[test]
fn prefix_match_compares_whole_segments() {
    let p = path("test.common", &["Outer"]);
    assert_eq!(p.prefix_match(".te"), None);
    assert_eq!(p.prefix_match(".test.comm"), None);
    assert_eq!(p.prefix_match(".test.common.Out"), None);
    assert_eq!(p.prefix_match(".test.common.Outer.Inner"), None);
    assert_eq!(p.prefix_match(".other"), None);
    assert_eq!(p.prefix_match(".test."), None);
    assert_eq!(p.prefix_match(".Test"), None);
}

#[test]
fn is_named_wants_every_segment() {
    let p = path("test.common", &["Outer"]);
    assert!(p.is_named(".test.common.Outer"));
    assert!(!p.is_named(".test.common"));
    assert!(!p.is_named("test.common.Outer"));
    assert!(!p.is_named(".test.common.Outer.Inner"));
}

#[test]
fn matches_any_tries_every_prefix() {
    let p = path("test.common", &["Outer"]);
    assert!(p.matches_any(&vec![".other".to_string(), ".test".to_string()]));
    assert!(!p.matches_any(&vec![".other".to_string(), "test".to_string()]));
    assert!(!p.matches_any(&Vec::new()));
}

#[test]
fn scalar_from_number_follows_the_descriptor_format() {
    assert_eq!(ScalarType::from_number(1), Some(ScalarType::F64));
    assert_eq!(ScalarType::from_number(2), Some(ScalarType::F32));
    assert_eq!(ScalarType::from_number(3), Some(ScalarType::I64));
    assert_eq!(ScalarType::from_number(4), Some(ScalarType::U64));
    assert_eq!(ScalarType::from_number(5), Some(ScalarType::I32));
    assert_eq!(ScalarType::from_number(6), Some(ScalarType::U64));
    assert_eq!(ScalarType::from_number(7), Some(ScalarType::U32));
    assert_eq!(ScalarType::from_number(8), Some(ScalarType::Bool));
    assert_eq!(ScalarType::from_number(9), Some(ScalarType::String));
    assert_eq!(ScalarType::from_number(12), Some(ScalarType::Bytes));
    assert_eq!(ScalarType::from_number(13), Some(ScalarType::U32));
    assert_eq!(ScalarType::from_number(15), Some(ScalarType::I32));
    assert_eq!(ScalarType::from_number(16), Some(ScalarType::I64));
    assert_eq!(ScalarType::from_number(17), Some(ScalarType::I32));
    assert_eq!(ScalarType::from_number(18), Some(ScalarType::I64));
}

#[test]
fn scalar_from_number_knows_no_other_number() {
    for number in [0, 10, 11, 14, 19, -1, i32::MAX, i32::MIN] {
        assert_eq!(ScalarType::from_number(number), None);
    }
}

#[test]
fn field_kind_prefers_the_reference() {
    let kind = FieldKind::declared(Some(5), Some(".a.B".to_string()));
    assert!(matches!(kind, Some(FieldKind::Reference(name)) if name == ".a.B"));
    let kind = FieldKind::declared(None, Some(".a.B".to_string()));
    assert!(matches!(kind, Some(FieldKind::Reference(name)) if name == ".a.B"));
}

#[test]
fn field_kind_reads_the_scalar_number() {
    assert!(matches!(
        FieldKind::declared(Some(9), None),
        Some(FieldKind::Scalar(ScalarType::String))
    ));
    assert!(FieldKind::declared(Some(11), None).is_none());
    assert!(FieldKind::declared(None, None).is_none());
}

#[test]
fn field_descriptor_reads_the_label() {
    let kind = FieldKind::declared(Some(5), None);
    let field = FieldDescriptor::declared("x".to_string(), Some(LABEL_REPEATED), kind).unwrap();
    assert_eq!(field.name, "x");
    assert!(field.repeated);
    let kind = FieldKind::declared(Some(5), None);
    assert!(!FieldDescriptor::declared("x".to_string(), Some(1), kind).unwrap().repeated);
    let kind = FieldKind::declared(Some(5), None);
    assert!(!FieldDescriptor::declared("x".to_string(), None, kind).unwrap().repeated);
    assert!(FieldDescriptor::declared("x".to_string(), Some(3), None).is_none());
}

#[test]
fn register_file_descriptor_walks_the_file_in_order() {
    let file = FileDescriptor {
        package: "a.b".to_string(),
        messages: vec![
            message(
                "Outer",
                vec![message("Inner", vec![message("Deep", Vec::new(), &[])], &["Mode"])],
                &["Kind", "Color"],
            ),
            message("Second", Vec::new(), &[]),
        ],
        enums: vec!["Top".to_string()],
        services: vec![service("Api"), service("Admin")],
    };
    let mut set = DescriptorSet::new();
    assert_eq!(set.len(), 0);
    set.register_file_descriptor(file);
    assert_eq!(
        names(&set),
        vec![
            ".a.b.Outer",
            ".a.b.Outer.Kind",
            ".a.b.Outer.Color",
            ".a.b.Outer.Inner",
            ".a.b.Outer.Inner.Mode",
            ".a.b.Outer.Inner.Deep",
            ".a.b.Second",
            ".a.b.Top",
            ".a.b.Api",
            ".a.b.Admin",
        ]
    );
    assert!(matches!(set.get(0).1, Descriptor::Message(m) if m.fields.len() == 1 && !m.map_entry));
    assert!(matches!(set.get(1).1, Descriptor::Enum));
    assert!(matches!(set.get(7).1, Descriptor::Enum));
    assert!(matches!(set.get(8).1, Descriptor::Service(s) if s.methods[0].name == "Get"));
    for i in 0..set.len() {
        assert_eq!(set.get(i).0.package().name(), "a.b");
    }
}

#[test]
fn registering_a_path_twice_keeps_both_entries() {
    let mut set = DescriptorSet::new();
    for _ in 0..2 {
        set.register_file_descriptor(FileDescriptor {
            package: "a".to_string(),
            messages: vec![message("M", Vec::new(), &[])],
            enums: Vec::new(),
            services: Vec::new(),
        });
    }
    assert_eq!(names(&set), vec![".a.M", ".a.M"]);
}

#[test]
fn register_descriptors_takes_the_files_in_order() {
    let file = |package: &str, name: &str| FileDescriptor {
        package: package.to_string(),
        messages: vec![message(name, Vec::new(), &[])],
        enums: Vec::new(),
        services: Vec::new(),
    };
    let mut set = DescriptorSet::new();
    set.register_descriptors(FileDescriptorSet {
        file: vec![file("a", "A"), file("b", "B"), file("", "C")],
    });
    assert_eq!(names(&set), vec![".a.A", ".b.B", ".C"]);
    set.register_descriptors(FileDescriptorSet { file: Vec::new() });
    assert_eq!(set.len(), 3);
}

#[test]
fn register_descriptor_adds_at_the_end() {
    let mut set = DescriptorSet::new();
    set.register_descriptor(path("a", &["X"]), Descriptor::Enum);
    set.register_enums(&path("a", &["X"]), &vec!["Y".to_string()]);
    set.register_services(&path("a", &[]), &vec![service("S")]);
    set.register_message(&path("a", &[]), &message("M", Vec::new(), &[]));
    assert_eq!(names(&set), vec![".a.X", ".a.X.Y", ".a.S", ".a.M"]);
}
