//! One trait for each service, one declaration for each method.

use crate::descriptor::TypePathView;
use crate::generator::{
    indent_text, trait_end, trait_start, write_jsonrpsee_end, write_jsonrpsee_start, Indent,
};
use crate::message::{Field, FieldModifier, FieldType, FieldTypeView, FieldView, Method, MethodView,
    Service, ServiceView};
use crate::naming::snake_case;
use crate::resolver::{Resolver, ResolverView};
use crate::text::{join, joined, lemma_deep_view_empty, lemma_deep_view_push, strip_prefix, stripped};
use vstd::prelude::*;

verus! {

/// Whether a type belongs to the well-known types of Protocol Buffers, which
/// are always passed whole.
pub open spec fn is_foreign(path: TypePathView) -> bool {
    path.prefix_match(".google.protobuf"@) is Some
}

/// Whether a field is passed as a list: it is repeated, and not a map.
pub open spec fn is_list(field: FieldView) -> bool {
    field.field_modifier == FieldModifier::Repeated && !(field.field_type is MapOf)
}

/// One argument: its name, and its type inside `Option`, or inside
/// `Option<Vec<..>>` for a list.
pub open spec fn argument(name: Seq<char>, type_text: Seq<char>, as_list: bool) -> Seq<char> {
    if as_list {
        name + ": Option<Vec<"@ + type_text + ">>"@
    } else {
        name + ": Option<"@ + type_text + ">"@
    }
}

/// The argument that stands for one field of the input message.
pub open spec fn field_argument(resolver: ResolverView, field: FieldView) -> Seq<char> {
    argument(snake_case(field.name), resolver.field_type(field.field_type), is_list(field))
}

/// The arguments of a method. Unfolded, there is one for each direct field of
/// the input message, in order. Otherwise, and always for a well-known input
/// type, there is the single argument `args` that holds the whole input.
pub open spec fn method_arguments(resolver: ResolverView, method: MethodView, unfold_args: bool) -> Seq<
    Seq<char>,
> {
    if unfold_args && !is_foreign(method.input.path) {
        Seq::new(
            method.input.fields.len(),
            |i: int| field_argument(resolver, method.input.fields[i]),
        )
    } else {
        seq![argument("args"@, resolver.rust_type(method.input.path), false)]
    }
}

/// The name under which a subscription is called: the method's name without a
/// leading `sub_`.
pub open spec fn subscription_name(name: Seq<char>) -> Seq<char> {
    stripped(name, "sub_"@)
}

/// The two lines that declare a call with one answer.
pub open spec fn unary_text(indent: nat, name: Seq<char>, args: Seq<char>, output: Seq<char>) -> Seq<
    char,
> {
    indent_text(indent) + "#[method(name = \""@ + name + "\")]\n"@ + indent_text(indent)
        + "async fn "@ + name + "(&self, "@ + args + ") -> jsonrpsee::core::RpcResult<"@ + output
        + ">;\n"@
}

/// The two lines that declare a subscription. With `base` the method's name
/// without a leading `sub_`, it is subscribed to as `sub_` and `base`,
/// unsubscribed from as `unsub_` and `base`, and called as `base`; its items
/// are of the output type.
pub open spec fn subscription_text(
    indent: nat,
    name: Seq<char>,
    args: Seq<char>,
    output: Seq<char>,
) -> Seq<char> {
    indent_text(indent) + "#[subscription(name = \"sub_"@ + subscription_name(name)
        + "\", unsubscribe = \"unsub_"@ + subscription_name(name) + "\", item = "@ + output
        + ")]\n"@ + indent_text(indent) + "async fn "@ + subscription_name(name) + "(&self, "@
        + args + ")-> jsonrpsee::core::SubscriptionResult;\n"@
}

/// The declaration of a method from its Rust name, its arguments and its
/// output type.
pub open spec fn declaration(
    indent: nat,
    name: Seq<char>,
    args: Seq<Seq<char>>,
    output: Seq<char>,
    is_stream: bool,
) -> Seq<char> {
    if is_stream {
        subscription_text(indent, name, joined(args, ", "@), output)
    } else {
        unary_text(indent, name, joined(args, ", "@), output)
    }
}

/// The declaration of `method`: its name in snake case, its arguments, and the
/// Rust type of its output.
pub open spec fn method_text(
    resolver: ResolverView,
    indent: nat,
    method: MethodView,
    unfold_args: bool,
) -> Seq<char> {
    declaration(
        indent,
        snake_case(method.name),
        method_arguments(resolver, method, unfold_args),
        resolver.rust_type(method.output.path),
        method.is_stream,
    )
}

/// The declarations of `methods`, one for each and in their order.
pub open spec fn method_texts(
    resolver: ResolverView,
    indent: nat,
    methods: Seq<MethodView>,
    unfold_args: bool,
) -> Seq<Seq<char>> {
    Seq::new(methods.len(), |i: int| method_text(resolver, indent, methods[i], unfold_args))
}

/// The trait of a service: its opening, the declarations of its methods one
/// after another, and its closing.
pub open spec fn service_text(
    resolver: ResolverView,
    service: ServiceView,
    unfold_args: bool,
    server: bool,
    client: bool,
) -> Seq<char> {
    trait_start(0, resolver.rust_type(service.path), server, client) + method_texts(
        resolver,
        2,
        service.methods,
        unfold_args,
    ).flatten() + trait_end(0)
}

/// Writes one argument.
pub fn write_argument(name: &str, type_text: &str, as_list: bool) -> (text: String)
    ensures
        text@ == argument(name@, type_text@, as_list),
{
    let mut text = String::from_str(name);
    if as_list {
        text.append(": Option<Vec<");
        text.append(type_text);
        text.append(">>");
    } else {
        text.append(": Option<");
        text.append(type_text);
        text.append(">");
    }
    text
}

/// Whether `field` is passed as a list.
pub fn passed_as_list(field: &Field) -> (as_list: bool)
    ensures
        as_list == is_list(field@),
{
    match field.field_modifier {
        FieldModifier::Repeated => match field.field_type {
            FieldType::MapOf(..) => false,
            _ => true,
        },
        FieldModifier::Singular => false,
    }
}

/// The arguments of `method`, as `unfold_args` asks.
pub fn arguments(resolver: &Resolver<'_>, method: &Method, unfold_args: bool) -> (args: Vec<String>)
    ensures
        args.deep_view() == method_arguments(resolver@, method@, unfold_args),
{
    let need_unfold_args = unfold_args && method.input.path.prefix_match(
        ".google.protobuf",
    ).is_none();
    let mut args: Vec<String> = Vec::new();
    if !need_unfold_args {
        let whole = write_argument("args", resolver.rust_type(&method.input.path).as_str(), false);
        args.push(whole);
        assert(args.deep_view() == seq![whole@]);
        return args;
    }
    let fields = method.input.all_fields();
    let ghost wanted = method_arguments(resolver@, method@, unfold_args);
    let mut i: usize = 0;
    proof {
        lemma_deep_view_empty(args);
    }
    while i < fields.len()
        invariant
            i <= fields.len(),
            fields.deep_view() == method@.input.fields,
            wanted == method_arguments(resolver@, method@, unfold_args),
            wanted.len() == fields.len(),
            forall|j: int|
                0 <= j < wanted.len() ==> wanted[j] == field_argument(
                    resolver@,
                    #[trigger] method@.input.fields[j],
                ),
            args.deep_view() == wanted.take(i as int),
        decreases fields.len() - i,
    {
        let field = &fields[i];
        assert(field@ == method@.input.fields[i as int]);
        let name = field.rust_field_name();
        let type_text = resolver.field_type(&field.field_type);
        let item = write_argument(name.as_str(), type_text.as_str(), passed_as_list(field));
        let ghost before = args;
        args.push(item);
        proof {
            lemma_deep_view_push(before, args, item);
            assert(wanted.take(i + 1) == wanted.take(i as int).push(wanted[i as int]));
        }
        i += 1;
    }
    assert(wanted.take(fields.len() as int) == wanted);
    args
}

/// Appends to `writer` the declaration of a method, given its Rust name, its
/// arguments and the Rust type of its output.
pub fn write_declaration(
    indent: usize,
    name: &str,
    args: &Vec<String>,
    output: &str,
    is_stream: bool,
    writer: &mut String,
)
    ensures
        final(writer)@ == old(writer)@ + declaration(
            indent as nat,
            name@,
            args.deep_view(),
            output@,
            is_stream,
        ),
{
    let list = join(args, ", ");
    let mut lines = String::new();
    if is_stream {
        let base = strip_prefix(name, "sub_");
        Indent(indent).fmt(&mut lines);
        lines.append("#[subscription(name = \"sub_");
        lines.append(base);
        lines.append("\", unsubscribe = \"unsub_");
        lines.append(base);
        lines.append("\", item = ");
        lines.append(output);
        lines.append(")]\n");
        Indent(indent).fmt(&mut lines);
        lines.append("async fn ");
        lines.append(base);
        lines.append("(&self, ");
        lines.append(list.as_str());
        lines.append(")-> jsonrpsee::core::SubscriptionResult;\n");
    } else {
        Indent(indent).fmt(&mut lines);
        lines.append("#[method(name = \"");
        lines.append(name);
        lines.append("\")]\n");
        Indent(indent).fmt(&mut lines);
        lines.append("async fn ");
        lines.append(name);
        lines.append("(&self, ");
        lines.append(list.as_str());
        lines.append(") -> jsonrpsee::core::RpcResult<");
        lines.append(output);
        lines.append(">;\n");
    }
    assert(lines@ == declaration(indent as nat, name@, args.deep_view(), output@, is_stream));
    writer.append(lines.as_str());
}

/// Appends the declaration of `method` to `writer`.
pub fn write_method(
    resolver: &Resolver<'_>,
    indent: usize,
    method: &Method,
    writer: &mut String,
    unfold_args: bool,
)
    ensures
        final(writer)@ == old(writer)@ + method_text(resolver@, indent as nat, method@, unfold_args),
{
    let name = method.rust_method_name();
    let args = arguments(resolver, method, unfold_args);
    let output = resolver.rust_type(&method.output.path);
    write_declaration(indent, name.as_str(), &args, output.as_str(), method.is_stream, writer);
}

/// Appends the trait of `service` to `writer`: one declaration for each of its
/// methods, in the order of their declaration.
pub fn generate_service(
    resolver: &Resolver<'_>,
    service: &Service,
    writer: &mut String,
    unfold_args: bool,
    server: bool,
    client: bool,
)
    ensures
        final(writer)@ == old(writer)@ + service_text(
            resolver@,
            service@,
            unfold_args,
            server,
            client,
        ),
{
    let rust_type = resolver.rust_type(&service.path);
    let ghost start = writer@ + trait_start(0, rust_type@, server, client);
    let ghost texts = method_texts(resolver@, 2, service@.methods, unfold_args);
    write_jsonrpsee_start(0, rust_type.as_str(), writer, server, client);
    let mut i: usize = 0;
    assert(texts.take(0).flatten() == Seq::<char>::empty());
    assert(start + Seq::<char>::empty() == start);
    while i < service.methods.len()
        invariant
            i <= service.methods.len(),
            texts == method_texts(resolver@, 2, service@.methods, unfold_args),
            writer@ == start + texts.take(i as int).flatten(),
        decreases service.methods.len() - i,
    {
        let ghost before = writer@;
        write_method(resolver, 2, &service.methods[i], writer, unfold_args);
        proof {
            assert(service.methods[i as int]@ == service@.methods[i as int]);
            assert(texts.take(i + 1) == texts.take(i as int).push(texts[i as int]));
            texts.take(i as int).lemma_flatten_push(texts[i as int]);
            assert(writer@ == start + (texts.take(i as int).flatten() + texts[i as int]));
        }
        i += 1;
    }
    assert(texts.take(service.methods.len() as int) == texts);
    write_jsonrpsee_end(0, writer);
}

/// Without unfolding, and always for a well-known input type, a method has
/// exactly one argument: `args`, which holds the whole input, resolved.
pub proof fn lemma_whole_input_is_one_argument(
    resolver: ResolverView,
    method: MethodView,
    unfold_args: bool,
)
    requires
        !unfold_args || is_foreign(method.input.path),
    ensures
        method_arguments(resolver, method, unfold_args).len() == 1,
        method_arguments(resolver, method, unfold_args)[0] == "args: Option<"@
            + resolver.rust_type(method.input.path) + ">"@,
{
    assert("args"@ + ": Option<"@ =~= "args: Option<"@) by {
        reveal_strlit("args");
        reveal_strlit(": Option<");
        reveal_strlit("args: Option<");
    }
}

/// Unfolded, a method has one argument for each direct field of its input, in
/// the order of the fields: the field's name in snake case with its type
/// inside `Option`, and inside `Option<Vec<..>>` where the field is repeated
/// and not a map.
pub proof fn lemma_unfolded_arguments(resolver: ResolverView, method: MethodView)
    requires
        !is_foreign(method.input.path),
    ensures
        method_arguments(resolver, method, true).len() == method.input.fields.len(),
        forall|i: int|
            0 <= i < method.input.fields.len() ==> #[trigger] method_arguments(
                resolver,
                method,
                true,
            )[i] == snake_case(method.input.fields[i].name) + (if is_list(
                method.input.fields[i],
            ) {
                ": Option<Vec<"@
            } else {
                ": Option<"@
            }) + resolver.field_type(method.input.fields[i].field_type) + (if is_list(
                method.input.fields[i],
            ) {
                ">>"@
            } else {
                ">"@
            }),
{
}

/// A subscription declared as `sub_` and a name is called by that name.
pub proof fn lemma_subscription_name(base: Seq<char>)
    ensures
        subscription_name("sub_"@ + base) == base,
{
    assert(("sub_"@ + base).skip("sub_"@.len() as int) =~= base);
}

/// The trait of a service holds one declaration for each of its methods, in
/// their order, between its opening and its closing.
pub proof fn lemma_service_declares_each_method(
    resolver: ResolverView,
    service: ServiceView,
    unfold_args: bool,
    server: bool,
    client: bool,
)
    ensures
        method_texts(resolver, 2, service.methods, unfold_args).len() == service.methods.len(),
        forall|i: int|
            0 <= i < service.methods.len() ==> #[trigger] method_texts(
                resolver,
                2,
                service.methods,
                unfold_args,
            )[i] == method_text(resolver, 2, service.methods[i], unfold_args),
        service_text(resolver, service, unfold_args, server, client) == trait_start(
            0,
            resolver.rust_type(service.path),
            server,
            client,
        ) + method_texts(resolver, 2, service.methods, unfold_args).flatten() + trait_end(0),
{
}

/// One more method at the end of a service adds its declaration, and nothing
/// else, after the declarations of the others.
pub proof fn lemma_one_more_method(
    resolver: ResolverView,
    service: ServiceView,
    method: MethodView,
    unfold_args: bool,
    server: bool,
    client: bool,
)
    ensures
        service_text(
            resolver,
            ServiceView { path: service.path, methods: service.methods.push(method) },
            unfold_args,
            server,
            client,
        ) == trait_start(0, resolver.rust_type(service.path), server, client) + method_texts(
            resolver,
            2,
            service.methods,
            unfold_args,
        ).flatten() + method_text(resolver, 2, method, unfold_args) + trait_end(0),
{
    let texts = method_texts(resolver, 2, service.methods, unfold_args);
    let more = method_texts(resolver, 2, service.methods.push(method), unfold_args);
    assert(more == texts.push(method_text(resolver, 2, method, unfold_args)));
    texts.lemma_flatten_push(method_text(resolver, 2, method, unfold_args));
}

/// The trait of a service without methods is its opening and its closing.
pub proof fn lemma_no_method(
    resolver: ResolverView,
    service: ServiceView,
    unfold_args: bool,
    server: bool,
    client: bool,
)
    requires
        service.methods.len() == 0,
    ensures
        service_text(resolver, service, unfold_args, server, client) == trait_start(
            0,
            resolver.rust_type(service.path),
            server,
            client,
        ) + trait_end(0),
{
    assert(method_texts(resolver, 2, service.methods, unfold_args).flatten() == Seq::<
        char,
    >::empty());
}

} // verus!
