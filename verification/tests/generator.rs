use pbjsonrpc_build::descriptor::{Package, TypePath};
use pbjsonrpc_build::generator::service::{
    arguments, passed_as_list, write_argument, write_declaration, write_method,
};
use pbjsonrpc_build::generator::{
    generate_service, write_jsonrpsee_end, write_jsonrpsee_start, Indent,
};
use pbjsonrpc_build::message::{
    Field, FieldModifier, FieldType, Message, Method, ScalarType, Service,
};
use pbjsonrpc_build::resolver::Resolver;

fn path(package: &str, names: &[&str]) -> TypePath {
    let mut path = TypePath::new(Package::new(package));
    for name in names {
        path = path.child(name);
    }
    path
}

fn field(name: &str, field_type: FieldType, field_modifier: FieldModifier) -> Field {
    Field { name: name.to_string(), field_type, field_modifier }
}

fn request() -> Message {
    Message {
        path: path("test.common", &["Request"]),
        fields: vec![
            field("x", FieldType::Scalar(ScalarType::I32), FieldModifier::Singular),
            field("y", FieldType::Scalar(ScalarType::String), FieldModifier::Repeated),
        ],
    }
}

fn reply() -> Message {
    Message { path: path("test.common", &["Reply"]), fields: Vec::new() }
}

fn empty() -> Message {
    Message {
        path: path("google.protobuf", &["Empty"]),
        fields: vec![field("x", FieldType::Scalar(ScalarType::I32), FieldModifier::Singular)],
    }
}

fn method(name: &str, input: Message, output: Message, is_stream: bool) -> Method {
    Method { name: name.to_string(), input, output, is_stream }
}

fn strings(items: &[&str]) -> Vec<String> {
    items.iter().map(|s| s.to_string()).collect()
}

#[test]
fn indent_writes_four_blanks_for_each_level() {
    let mut text = String::from("|");
    Indent(0).fmt(&mut text);
    assert_eq!(text, "|");
    Indent(1).fmt(&mut text);
    assert_eq!(text, "|    ");
    Indent(2).fmt(&mut text);
    assert_eq!(text, "|            ");
}

#[test]
fn start_names_the_roles() {
    let cases = [
        (true, true, "#[jsonrpsee::proc_macros::rpc(server, client)]\npub trait Api {\n"),
        (true, false, "#[jsonrpsee::proc_macros::rpc(server)]\npub trait Api {\n"),
        (false, true, "#[jsonrpsee::proc_macros::rpc(client)]\npub trait Api {\n"),
        (false, false, "#[jsonrpsee::proc_macros::rpc()]\npub trait Api {\n"),
    ];
    for (server, client, expected) in cases {
        let mut text = String::new();
        write_jsonrpsee_start(0, "Api", &mut text, server, client);
        assert_eq!(text, expected);
    }
}

#[test]
fn start_and_end_indent_each_line_and_append() {
    let mut text = String::from("// head\n");
    write_jsonrpsee_start(1, "Api", &mut text, true, false);
    write_jsonrpsee_end(1, &mut text);
    write_jsonrpsee_end(0, &mut text);
    assert_eq!(
        text,
        "// head\n    #[jsonrpsee::proc_macros::rpc(server)]\n    pub trait Api {\n    }\n}\n"
    );
}

#[test]
fn write_argument_wraps_in_option() {
    assert_eq!(write_argument("x", "i32", false), "x: Option<i32>");
    assert_eq!(write_argument("y", "String", true), "y: Option<Vec<String>>");
}

#[test]
fn passed_as_list_wants_repeated_and_no_map() {
    let map = || {
        FieldType::MapOf(ScalarType::String, Box::new(FieldType::Scalar(ScalarType::I32)))
    };
    let scalar = || FieldType::Scalar(ScalarType::I32);
    assert!(passed_as_list(&field("a", scalar(), FieldModifier::Repeated)));
    assert!(!passed_as_list(&field("a", scalar(), FieldModifier::Singular)));
    assert!(!passed_as_list(&field("a", map(), FieldModifier::Repeated)));
    assert!(!passed_as_list(&field("a", map(), FieldModifier::Singular)));
    assert!(passed_as_list(&field(
        "a",
        FieldType::Message(path("a", &["B"])),
        FieldModifier::Repeated
    )));
}

#[test]
fn unfolded_arguments_follow_the_fields() {
    let externs = Vec::new();
    let package = Package::new("test.common");
    let resolver = Resolver::new(&externs, &package, false);
    let unary = method("Call", request(), reply(), false);
    assert_eq!(
        arguments(&resolver, &unary, true),
        strings(&["x: Option<i32>", "y: Option<Vec<String>>"])
    );
}

#[test]
fn unfolded_arguments_name_fields_in_snake_case_and_keep_maps_whole() {
    let externs = Vec::new();
    let package = Package::new("test.common");
    let resolver = Resolver::new(&externs, &package, false);
    let input = Message {
        path: path("test.common", &["Request"]),
        fields: vec![
            field(
                "userLabels",
                FieldType::MapOf(
                    ScalarType::String,
                    Box::new(FieldType::Message(path("test.common", &["Reply"]))),
                ),
                FieldModifier::Repeated,
            ),
            field(
                "Items",
                FieldType::Message(path("other", &["Item"])),
                FieldModifier::Repeated,
            ),
            field("kind", FieldType::Enum(path("test.common", &["Kind"])), FieldModifier::Singular),
        ],
    };
    assert_eq!(
        arguments(&resolver, &method("Call", input, reply(), false), true),
        strings(&[
            "user_labels: Option<std::collections::HashMap<String, Reply>>",
            "items: Option<Vec<super::super::other::Item>>",
            "kind: Option<Kind>",
        ])
    );
}

#[test]
fn unfolded_arguments_of_a_message_without_fields() {
    let externs = Vec::new();
    let package = Package::new("test.common");
    let resolver = Resolver::new(&externs, &package, false);
    assert_eq!(
        arguments(&resolver, &method("Call", reply(), reply(), false), true),
        Vec::<String>::new()
    );
}

#[test]
fn folded_arguments_are_the_whole_input() {
    let externs = Vec::new();
    let package = Package::new("test.common");
    let resolver = Resolver::new(&externs, &package, false);
    let unary = method("Call", request(), reply(), false);
    assert_eq!(arguments(&resolver, &unary, false), strings(&["args: Option<Request>"]));
}

#[test]
fn well_known_input_is_never_unfolded() {
    let externs = vec![(".google.protobuf".to_string(), "::pbjson_types".to_string())];
    let package = Package::new("test.common");
    let resolver = Resolver::new(&externs, &package, false);
    let unary = method("Call", empty(), reply(), false);
    for unfold_args in [true, false] {
        assert_eq!(
            arguments(&resolver, &unary, unfold_args),
            strings(&["args: Option<::pbjson_types::Empty>"])
        );
    }
    let nearly = Message { path: path("google.protobuffer", &["Empty"]), fields: Vec::new() };
    assert_eq!(
        arguments(&resolver, &method("Call", nearly, reply(), false), true),
        Vec::<String>::new()
    );
}

#[test]
fn unary_declaration() {
    let mut text = String::new();
    write_declaration(1, "say_hello", &strings(&["a: Option<A>", "b: Option<B>"]), "Reply", false, &mut text);
    assert_eq!(
        text,
        "    #[method(name = \"say_hello\")]\n    async fn say_hello(&self, a: Option<A>, b: Option<B>) -> jsonrpsee::core::RpcResult<Reply>;\n"
    );
}

#[test]
fn unary_declaration_keeps_a_sub_prefix() {
    let mut text = String::new();
    write_declaration(0, "sub_foo", &strings(&[]), "Reply", false, &mut text);
    assert_eq!(
        text,
        "#[method(name = \"sub_foo\")]\nasync fn sub_foo(&self, ) -> jsonrpsee::core::RpcResult<Reply>;\n"
    );
}

#[test]
fn subscription_declared_as_sub_foo() {
    let mut text = String::new();
    write_declaration(0, "sub_foo", &strings(&["args: Option<Request>"]), "Reply", true, &mut text);
    assert_eq!(
        text,
        "#[subscription(name = \"sub_foo\", unsubscribe = \"unsub_foo\", item = Reply)]\nasync fn foo(&self, args: Option<Request>)-> jsonrpsee::core::SubscriptionResult;\n"
    );
}

#[test]
fn subscription_declared_without_the_prefix() {
    let mut text = String::from("x");
    write_declaration(2, "watch", &strings(&[]), "Reply", true, &mut text);
    assert_eq!(
        text,
        "x        #[subscription(name = \"sub_watch\", unsubscribe = \"unsub_watch\", item = Reply)]\n        async fn watch(&self, )-> jsonrpsee::core::SubscriptionResult;\n"
    );
}

#[test]
fn write_method_converts_the_name_and_resolves_the_types() {
    let externs = Vec::new();
    let package = Package::new("test.common");
    let resolver = Resolver::new(&externs, &package, false);
    let mut text = String::new();
    write_method(&resolver, 2, &method("SayHello", request(), reply(), false), &mut text, true);
    assert_eq!(
        text,
        "        #[method(name = \"say_hello\")]\n        async fn say_hello(&self, x: Option<i32>, y: Option<Vec<String>>) -> jsonrpsee::core::RpcResult<Reply>;\n"
    );
    let mut text = String::new();
    write_method(&resolver, 0, &method("SubFoo", request(), reply(), true), &mut text, false);
    assert_eq!(
        text,
        "#[subscription(name = \"sub_foo\", unsubscribe = \"unsub_foo\", item = Reply)]\nasync fn foo(&self, args: Option<Request>)-> jsonrpsee::core::SubscriptionResult;\n"
    );
}

#[test]
fn generate_service_declares_each_method_in_order() {
    let externs = Vec::new();
    let package = Package::new("test.common");
    let resolver = Resolver::new(&externs, &package, false);
    let names = ["Zeta", "Alpha", "Mid", "Alpha2"];
    let service = Service {
        path: path("test.common", &["greeter_api"]),
        methods: names.iter().map(|n| method(n, request(), reply(), false)).collect(),
    };
    let mut text = String::new();
    generate_service(&resolver, &service, &mut text, false, true, false);
    let lines: Vec<&str> = text.lines().collect();
    assert_eq!(lines.len(), 3 + 2 * names.len());
    assert_eq!(lines[0], "#[jsonrpsee::proc_macros::rpc(server)]");
    assert_eq!(lines[1], "pub trait GreeterApi {");
    assert_eq!(lines[2], "        #[method(name = \"zeta\")]");
    assert_eq!(lines[4], "        #[method(name = \"alpha\")]");
    assert_eq!(lines[6], "        #[method(name = \"mid\")]");
    assert_eq!(lines[8], "        #[method(name = \"alpha2\")]");
    assert_eq!(
        lines[9],
        "        async fn alpha2(&self, args: Option<Request>) -> jsonrpsee::core::RpcResult<Reply>;"
    );
    assert_eq!(lines[10], "}");
    assert_eq!(text.matches("async fn ").count(), names.len());
}

#[test]
fn generate_service_without_methods() {
    let externs = Vec::new();
    let package = Package::new("test.common");
    let resolver = Resolver::new(&externs, &package, false);
    let service = Service { path: path("test.common", &["Api"]), methods: Vec::new() };
    let mut text = String::from("before\n");
    generate_service(&resolver, &service, &mut text, true, false, true);
    assert_eq!(text, "before\n#[jsonrpsee::proc_macros::rpc(client)]\npub trait Api {\n}\n");
}
