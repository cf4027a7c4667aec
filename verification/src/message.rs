//! Services, methods, messages and fields as the generator reads them.

use crate::descriptor::{
    Descriptor, DescriptorSet, DescriptorView, EntryView, FieldDescriptor, FieldDescriptorView,
    FieldKind, FieldKindView, MethodDescriptor, MethodDescriptorView, Package, ServiceDescriptor,
    TypePath, TypePathView,
};
use crate::naming::{snake_case, to_snake_case};
use crate::resolver::enclosing;
use crate::text::{
    dot_segments, join, joined, lemma_deep_view_empty, lemma_deep_view_push, split_segments,
    strip_prefix, stripped,
};
use vstd::prelude::*;

verus! {

/// A scalar type of Protocol Buffers, by the Rust type that holds it.
#[derive(Clone, Copy, Debug, PartialEq, Eq, Structural)]
pub enum ScalarType {
    F64,
    F32,
    I32,
    I64,
    U32,
    U64,
    Bool,
    String,
    Bytes,
}

/// The scalar type that stands behind a type number of a field descriptor;
/// `None` for the numbers of groups, messages and enums, and for any number
/// that the descriptor format does not define.
pub open spec fn scalar_of_number(number: int) -> Option<ScalarType> {
    if number == 1 {
        Some(ScalarType::F64)
    } else if number == 2 {
        Some(ScalarType::F32)
    } else if number == 3 || number == 16 || number == 18 {
        Some(ScalarType::I64)
    } else if number == 5 || number == 15 || number == 17 {
        Some(ScalarType::I32)
    } else if number == 4 || number == 6 {
        Some(ScalarType::U64)
    } else if number == 13 || number == 7 {
        Some(ScalarType::U32)
    } else if number == 8 {
        Some(ScalarType::Bool)
    } else if number == 9 {
        Some(ScalarType::String)
    } else if number == 12 {
        Some(ScalarType::Bytes)
    } else {
        None
    }
}

impl ScalarType {
    /// The scalar type that stands behind a type number of a field descriptor.
    pub fn from_number(number: i32) -> (scalar: Option<ScalarType>)
        ensures
            scalar == scalar_of_number(number as int),
    {
        match number {
            1 => Some(ScalarType::F64),
            2 => Some(ScalarType::F32),
            3 | 16 | 18 => Some(ScalarType::I64),
            5 | 15 | 17 => Some(ScalarType::I32),
            4 | 6 => Some(ScalarType::U64),
            13 | 7 => Some(ScalarType::U32),
            8 => Some(ScalarType::Bool),
            9 => Some(ScalarType::String),
            12 => Some(ScalarType::Bytes),
            _ => None,
        }
    }

    /// The Rust type, as text.
    pub open spec fn rust_type_text(self) -> Seq<char> {
        match self {
            ScalarType::F64 => "f64"@,
            ScalarType::F32 => "f32"@,
            ScalarType::I32 => "i32"@,
            ScalarType::I64 => "i64"@,
            ScalarType::U32 => "u32"@,
            ScalarType::U64 => "u64"@,
            ScalarType::Bool => "bool"@,
            ScalarType::String => "String"@,
            ScalarType::Bytes => "Vec<u8>"@,
        }
    }

    /// The Rust type.
    pub fn rust_type(&self) -> (name: &'static str)
        ensures
            name@ == self.rust_type_text(),
    {
        match self {
            ScalarType::F64 => "f64",
            ScalarType::F32 => "f32",
            ScalarType::I32 => "i32",
            ScalarType::I64 => "i64",
            ScalarType::U32 => "u32",
            ScalarType::U64 => "u64",
            ScalarType::Bool => "bool",
            ScalarType::String => "String",
            ScalarType::Bytes => "Vec<u8>",
        }
    }
}

/// What a field type says.
#[verifier::ext_equal]
pub enum FieldTypeView {
    Scalar(ScalarType),
    Enum(TypePathView),
    Message(TypePathView),
    MapOf(ScalarType, Box<FieldTypeView>),
}

/// The type of a field's value.
#[derive(Debug, PartialEq, Eq)]
pub enum FieldType {
    Scalar(ScalarType),
    Enum(TypePath),
    Message(TypePath),
    MapOf(ScalarType, Box<FieldType>),
}

/// What `field_type` says.
pub open spec fn field_type_view(field_type: FieldType) -> FieldTypeView
    decreases field_type,
{
    match field_type {
        FieldType::Scalar(scalar) => FieldTypeView::Scalar(scalar),
        FieldType::Enum(path) => FieldTypeView::Enum(path@),
        FieldType::Message(path) => FieldTypeView::Message(path@),
        FieldType::MapOf(key, value) => FieldTypeView::MapOf(key, Box::new(field_type_view(*value))),
    }
}

impl View for FieldType {
    type V = FieldTypeView;

    open spec fn view(&self) -> FieldTypeView {
        field_type_view(*self)
    }
}

impl DeepView for FieldType {
    type V = FieldTypeView;

    open spec fn deep_view(&self) -> FieldTypeView {
        self@
    }
}

/// Whether a field holds one value or a list of them.
#[derive(Clone, Copy, Debug, PartialEq, Eq, Structural)]
pub enum FieldModifier {
    Singular,
    Repeated,
}

/// What a field says.
#[verifier::ext_equal]
pub struct FieldView {
    pub name: Seq<char>,
    pub field_type: FieldTypeView,
    pub field_modifier: FieldModifier,
}

/// A field of a message.
#[derive(Debug, PartialEq, Eq)]
pub struct Field {
    pub name: String,
    pub field_type: FieldType,
    pub field_modifier: FieldModifier,
}

impl View for Field {
    type V = FieldView;

    open spec fn view(&self) -> FieldView {
        FieldView {
            name: self.name@,
            field_type: self.field_type@,
            field_modifier: self.field_modifier,
        }
    }
}

impl DeepView for Field {
    type V = FieldView;

    open spec fn deep_view(&self) -> FieldView {
        self@
    }
}

impl Field {
    /// The name of the field in generated code: the declared name in snake case.
    pub fn rust_field_name(&self) -> (name: String)
        ensures
            name@ == snake_case(self@.name),
    {
        to_snake_case(self.name.as_str())
    }
}

/// What a message says.
#[verifier::ext_equal]
pub struct MessageView {
    pub path: TypePathView,
    pub fields: Seq<FieldView>,
}

/// A message type with its direct fields, in the order of their declaration.
#[derive(Debug, PartialEq, Eq)]
pub struct Message {
    pub path: TypePath,
    pub fields: Vec<Field>,
}

impl View for Message {
    type V = MessageView;

    open spec fn view(&self) -> MessageView {
        MessageView { path: self.path@, fields: self.fields.deep_view() }
    }
}

impl DeepView for Message {
    type V = MessageView;

    open spec fn deep_view(&self) -> MessageView {
        self@
    }
}

impl Message {
    /// The direct fields, in the order of their declaration.
    pub fn all_fields(&self) -> (fields: &Vec<Field>)
        ensures
            fields.deep_view() == self@.fields,
    {
        &self.fields
    }
}

/// What a method says.
#[verifier::ext_equal]
pub struct MethodView {
    pub name: Seq<char>,
    pub input: MessageView,
    pub output: MessageView,
    pub is_stream: bool,
}

/// A method of a service, with its input and output messages.
#[derive(Debug, PartialEq, Eq)]
pub struct Method {
    pub name: String,
    pub input: Message,
    pub output: Message,
    pub is_stream: bool,
}

impl View for Method {
    type V = MethodView;

    open spec fn view(&self) -> MethodView {
        MethodView {
            name: self.name@,
            input: self.input@,
            output: self.output@,
            is_stream: self.is_stream,
        }
    }
}

impl DeepView for Method {
    type V = MethodView;

    open spec fn deep_view(&self) -> MethodView {
        self@
    }
}

impl Method {
    /// The name of the method in generated code: the declared name in snake
    /// case.
    pub fn rust_method_name(&self) -> (name: String)
        ensures
            name@ == snake_case(self@.name),
    {
        to_snake_case(self.name.as_str())
    }
}

/// What a service says.
#[verifier::ext_equal]
pub struct ServiceView {
    pub path: TypePathView,
    pub methods: Seq<MethodView>,
}

/// A service with its methods, in the order of their declaration.
#[derive(Debug, PartialEq, Eq)]
pub struct Service {
    pub path: TypePath,
    pub methods: Vec<Method>,
}

impl View for Service {
    type V = ServiceView;

    open spec fn view(&self) -> ServiceView {
        ServiceView { path: self.path@, methods: self.methods.deep_view() }
    }
}

impl DeepView for Service {
    type V = ServiceView;

    open spec fn deep_view(&self) -> ServiceView {
        self@
    }
}

/// The index of the first entry whose path `name` names, where there is one.
pub open spec fn find_type(entries: Seq<EntryView>, name: Seq<char>) -> Option<int>
    decreases entries.len(),
{
    if entries.len() == 0 {
        None
    } else {
        match find_type(entries.drop_last(), name) {
            Some(index) => Some(index),
            None => if entries.last().0.is_named(name) {
                Some(entries.len() - 1)
            } else {
                None
            },
        }
    }
}

/// `find_type` gives the first entry that `name` names, and `None` only where
/// it names none.
pub proof fn lemma_find_type(entries: Seq<EntryView>, name: Seq<char>)
    ensures
        match find_type(entries, name) {
            Some(index) => {
                &&& 0 <= index < entries.len()
                &&& entries[index].0.is_named(name)
                &&& forall|j: int| 0 <= j < index ==> !(#[trigger] entries[j]).0.is_named(name)
            },
            None => forall|j: int| 0 <= j < entries.len() ==> !(#[trigger] entries[j]).0.is_named(
                name,
            ),
        },
    decreases entries.len(),
{
    if entries.len() > 0 {
        lemma_find_type(entries.drop_last(), name);
        assert(forall|j: int|
            0 <= j < entries.len() - 1 ==> entries.drop_last()[j] == #[trigger] entries[j]);
    }
}

/// The path taken for a type that the registry does not hold: the last segment
/// of its name is the type, the segments before it are the package.
pub open spec fn path_of_reference(name: Seq<char>) -> TypePathView {
    let segments = dot_segments(stripped(name, "."@));
    TypePathView {
        package: joined(enclosing(segments), "."@),
        path: if segments.len() == 0 {
            segments
        } else {
            seq![segments.last()]
        },
    }
}

/// The type of a value given by `kind`, maps apart: a scalar; the enum or the
/// message that the registry holds under the name; or, for a name that it does
/// not hold, a message at the path that the name spells.
pub open spec fn plain_type(entries: Seq<EntryView>, kind: FieldKindView) -> FieldTypeView {
    match kind {
        FieldKindView::Scalar(scalar) => FieldTypeView::Scalar(scalar),
        FieldKindView::Reference(name) => match find_type(entries, name) {
            Some(index) => if entries[index].1 is Enum {
                FieldTypeView::Enum(entries[index].0)
            } else {
                FieldTypeView::Message(entries[index].0)
            },
            None => FieldTypeView::Message(path_of_reference(name)),
        },
    }
}

/// Whether a registered descriptor is the entry type of a map: a message
/// marked so, with a scalar key and a value.
pub open spec fn is_map_entry(descriptor: DescriptorView) -> bool {
    &&& descriptor matches DescriptorView::Message { fields, map_entry }
    &&& map_entry
    &&& fields.len() == 2
    &&& fields[0].kind is Scalar
}

/// The type of a field declared with `kind`. A reference to the entry type of
/// a map is a map from the entry's key to its value; any other is a plain type.
pub open spec fn field_type_of(entries: Seq<EntryView>, kind: FieldKindView) -> FieldTypeView {
    match kind {
        FieldKindView::Reference(name) => match find_type(entries, name) {
            Some(index) => if is_map_entry(entries[index].1) {
                FieldTypeView::MapOf(
                    entries[index].1->Message_fields[0].kind->Scalar_0,
                    Box::new(plain_type(entries, entries[index].1->Message_fields[1].kind)),
                )
            } else {
                plain_type(entries, kind)
            },
            None => plain_type(entries, kind),
        },
        FieldKindView::Scalar(_) => plain_type(entries, kind),
    }
}

/// A declared field with its type looked up.
pub open spec fn resolved_field(entries: Seq<EntryView>, field: FieldDescriptorView) -> FieldView {
    FieldView {
        name: field.name,
        field_type: field_type_of(entries, field.kind),
        field_modifier: if field.repeated {
            FieldModifier::Repeated
        } else {
            FieldModifier::Singular
        },
    }
}

/// The fields of a message with their types looked up, in their order.
pub open spec fn resolved_fields(
    entries: Seq<EntryView>,
    fields: Seq<FieldDescriptorView>,
) -> Seq<FieldView> {
    Seq::new(fields.len(), |i: int| resolved_field(entries, fields[i]))
}

/// The message that `name` names: the first entry under that name, where it is
/// a message.
pub open spec fn resolved_message(entries: Seq<EntryView>, name: Seq<char>) -> Option<MessageView> {
    match find_type(entries, name) {
        Some(index) => match entries[index].1 {
            DescriptorView::Message { fields, map_entry } => Some(
                MessageView { path: entries[index].0, fields: resolved_fields(entries, fields) },
            ),
            _ => None,
        },
        None => None,
    }
}

/// A declared method with its input and output looked up; `None` where the
/// registry lacks either. A method streams where the server does.
pub open spec fn resolved_method(entries: Seq<EntryView>, method: MethodDescriptorView) -> Option<
    MethodView,
> {
    match (
        resolved_message(entries, method.input_type),
        resolved_message(entries, method.output_type),
    ) {
        (Some(input), Some(output)) => Some(
            MethodView { name: method.name, input, output, is_stream: method.server_streaming },
        ),
        _ => None,
    }
}

/// A service with every method looked up, in their order; `None` where one
/// method's input or output is missing from the registry.
pub open spec fn resolved_service(
    entries: Seq<EntryView>,
    path: TypePathView,
    methods: Seq<MethodDescriptorView>,
) -> Option<ServiceView> {
    if forall|i: int| 0 <= i < methods.len() ==> (#[trigger] resolved_method(
        entries,
        methods[i],
    )) is Some {
        Some(
            ServiceView {
                path,
                methods: Seq::new(
                    methods.len(),
                    |i: int| resolved_method(entries, methods[i])->Some_0,
                ),
            },
        )
    } else {
        None
    }
}

/// Finds the first entry whose path `name` names.
pub fn find(descriptors: &DescriptorSet, name: &str) -> (found: Option<usize>)
    ensures
        match found {
            Some(index) => index < descriptors@.len() && find_type(descriptors@, name@) == Some(
                index as int,
            ),
            None => find_type(descriptors@, name@) is None,
        },
{
    let mut i: usize = 0;
    while i < descriptors.len()
        invariant
            i <= descriptors@.len(),
            forall|j: int| 0 <= j < i ==> !(#[trigger] descriptors@[j]).0.is_named(name@),
        decreases descriptors@.len() - i,
    {
        let (path, _) = descriptors.get(i);
        if path.is_named(name) {
            proof {
                lemma_find_type(descriptors@, name@);
            }
            return Some(i);
        }
        i += 1;
    }
    proof {
        lemma_find_type(descriptors@, name@);
    }
    None
}

/// The path taken for a type that the registry does not hold.
pub fn reference_path(name: &str) -> (path: TypePath)
    ensures
        path@ == path_of_reference(name@),
{
    let mut segments = split_segments(strip_prefix(name, "."));
    let ghost all = segments.deep_view();
    let mut leaf: Vec<String> = Vec::new();
    proof {
        lemma_deep_view_empty(leaf);
    }
    match segments.pop() {
        Some(last) => {
            let ghost before = leaf;
            leaf.push(last);
            proof {
                lemma_deep_view_push(before, leaf, last);
                assert(segments.deep_view() == all.drop_last());
                assert(leaf.deep_view() == seq![all.last()]);
            }
        },
        None => {
            assert(segments.deep_view() == all);
        },
    }
    let package = join(&segments, ".");
    TypePath { package: Package::new(package.as_str()), path: leaf }
}

/// The type of a value given by `kind`, maps apart.
pub fn plain_field_type(descriptors: &DescriptorSet, kind: &FieldKind) -> (field_type: FieldType)
    ensures
        field_type@ == plain_type(descriptors@, kind@),
{
    match kind {
        FieldKind::Scalar(scalar) => FieldType::Scalar(*scalar),
        FieldKind::Reference(name) => match find(descriptors, name.as_str()) {
            Some(index) => {
                let (path, descriptor) = descriptors.get(index);
                match descriptor {
                    Descriptor::Enum => FieldType::Enum(path.clone()),
                    _ => FieldType::Message(path.clone()),
                }
            },
            None => FieldType::Message(reference_path(name.as_str())),
        },
    }
}

/// The type of a field declared with `kind`.
pub fn field_type(descriptors: &DescriptorSet, kind: &FieldKind) -> (field_type: FieldType)
    ensures
        field_type@ == field_type_of(descriptors@, kind@),
{
    if let FieldKind::Reference(name) = kind {
        if let Some(index) = find(descriptors, name.as_str()) {
            let (_, descriptor) = descriptors.get(index);
            if let Descriptor::Message(message) = descriptor {
                if message.map_entry && message.fields.len() == 2 {
                    assert(message.fields[0]@ == descriptors@[index as int].1->Message_fields[0]);
                    assert(message.fields[1]@ == descriptors@[index as int].1->Message_fields[1]);
                    if let FieldKind::Scalar(key) = &message.fields[0].kind {
                        let value = plain_field_type(descriptors, &message.fields[1].kind);
                        return FieldType::MapOf(*key, Box::new(value));
                    }
                }
            }
        }
    }
    plain_field_type(descriptors, kind)
}

/// Looks up the type of a declared field.
pub fn resolve_field(descriptors: &DescriptorSet, field: &FieldDescriptor) -> (resolved: Field)
    ensures
        resolved@ == resolved_field(descriptors@, field@),
{
    Field {
        name: field.name.clone(),
        field_type: field_type(descriptors, &field.kind),
        field_modifier: if field.repeated {
            FieldModifier::Repeated
        } else {
            FieldModifier::Singular
        },
    }
}

/// Looks up the message that `name` names, with the types of its fields.
pub fn resolve_message(descriptors: &DescriptorSet, name: &str) -> (resolved: Option<Message>)
    ensures
        resolved.deep_view() == resolved_message(descriptors@, name@),
{
    let index = match find(descriptors, name) {
        Some(index) => index,
        None => {
            return None;
        },
    };
    let (path, descriptor) = descriptors.get(index);
    let message = match descriptor {
        Descriptor::Message(message) => message,
        _ => {
            return None;
        },
    };
    let ghost wanted = resolved_fields(descriptors@, message.fields.deep_view());
    let mut fields: Vec<Field> = Vec::new();
    let mut i: usize = 0;
    proof {
        lemma_deep_view_empty(fields);
    }
    while i < message.fields.len()
        invariant
            i <= message.fields.len(),
            wanted == resolved_fields(descriptors@, message.fields.deep_view()),
            fields.deep_view() == wanted.take(i as int),
        decreases message.fields.len() - i,
    {
        let ghost before = fields;
        let item = resolve_field(descriptors, &message.fields[i]);
        fields.push(item);
        proof {
            lemma_deep_view_push(before, fields, item);
            assert(wanted.take(i + 1) == wanted.take(i as int).push(wanted[i as int]));
        }
        i += 1;
    }
    assert(wanted.take(message.fields.len() as int) == wanted);
    Some(Message { path: path.clone(), fields })
}

/// Looks up the input and the output of a declared method.
pub fn resolve_method(descriptors: &DescriptorSet, method: &MethodDescriptor) -> (resolved: Option<
    Method,
>)
    ensures
        resolved.deep_view() == resolved_method(descriptors@, method@),
{
    let input = match resolve_message(descriptors, method.input_type.as_str()) {
        Some(input) => input,
        None => {
            return None;
        },
    };
    let output = match resolve_message(descriptors, method.output_type.as_str()) {
        Some(output) => output,
        None => {
            return None;
        },
    };
    Some(Method { name: method.name.clone(), input, output, is_stream: method.server_streaming })
}

/// Looks up every method of the service registered at `path`. One method whose
/// input or output the registry lacks leaves the whole service unresolved.
pub fn resolve_service(
    descriptors: &DescriptorSet,
    path: &TypePath,
    service: &ServiceDescriptor,
) -> (resolved: Option<Service>)
    ensures
        resolved.deep_view() == resolved_service(descriptors@, path@, service.methods.deep_view()),
{
    let ghost declared = service.methods.deep_view();
    let mut methods: Vec<Method> = Vec::new();
    let mut i: usize = 0;
    proof {
        lemma_deep_view_empty(methods);
    }
    while i < service.methods.len()
        invariant
            i <= service.methods.len(),
            declared == service.methods.deep_view(),
            methods@.len() == i,
            forall|j: int|
                0 <= j < i ==> resolved_method(descriptors@, #[trigger] declared[j]) == Some(
                    methods.deep_view()[j],
                ),
        decreases service.methods.len() - i,
    {
        let ghost before = methods;
        match resolve_method(descriptors, &service.methods[i]) {
            Some(method) => {
                methods.push(method);
                proof {
                    lemma_deep_view_push(before, methods, method);
                }
            },
            None => {
                assert(resolved_method(descriptors@, declared[i as int]) is None);
                return None;
            },
        }
        i += 1;
    }
    let resolved = Service { path: path.clone(), methods };
    proof {
        assert forall|j: int| 0 <= j < declared.len() implies (#[trigger] resolved_method(
            descriptors@,
            declared[j],
        )) is Some by {}
        assert(resolved@.methods == resolved_service(
            descriptors@,
            path@,
            declared,
        )->Some_0.methods);
    }
    Some(resolved)
}

/// The type that keeps `method` from resolving: its input where the registry
/// holds no message under that name, else its output where it holds none.
pub open spec fn missing_type(entries: Seq<EntryView>, method: MethodDescriptorView) -> Option<
    Seq<char>,
> {
    if resolved_message(entries, method.input_type) is None {
        Some(method.input_type)
    } else if resolved_message(entries, method.output_type) is None {
        Some(method.output_type)
    } else {
        None
    }
}

/// The index of the first of `methods` that does not resolve.
pub open spec fn first_dangling_index(
    entries: Seq<EntryView>,
    methods: Seq<MethodDescriptorView>,
) -> Option<int>
    decreases methods.len(),
{
    if methods.len() == 0 {
        None
    } else {
        match first_dangling_index(entries, methods.drop_last()) {
            Some(index) => Some(index),
            None => if missing_type(entries, methods.last()) is Some {
                Some(methods.len() - 1)
            } else {
                None
            },
        }
    }
}

/// What a dangling reference says.
#[verifier::ext_equal]
pub struct DanglingView {
    pub method: Seq<char>,
    pub missing: Seq<char>,
}

/// Why a service does not resolve: the declared name of its first method that
/// names a type which the registry does not hold as a message, and that name.
#[derive(Debug, PartialEq, Eq)]
pub struct Dangling {
    pub method: String,
    pub missing: String,
}

impl View for Dangling {
    type V = DanglingView;

    open spec fn view(&self) -> DanglingView {
        DanglingView { method: self.method@, missing: self.missing@ }
    }
}

impl DeepView for Dangling {
    type V = DanglingView;

    open spec fn deep_view(&self) -> DanglingView {
        self@
    }
}

/// Why the service with `methods` does not resolve, where it does not.
pub open spec fn first_dangling(
    entries: Seq<EntryView>,
    methods: Seq<MethodDescriptorView>,
) -> Option<DanglingView> {
    match first_dangling_index(entries, methods) {
        Some(index) => Some(
            DanglingView {
                method: methods[index].name,
                missing: missing_type(entries, methods[index])->Some_0,
            },
        ),
        None => None,
    }
}

/// `first_dangling_index` gives the first method that does not resolve, and
/// `None` only where every method resolves.
pub proof fn lemma_first_dangling_index(
    entries: Seq<EntryView>,
    methods: Seq<MethodDescriptorView>,
)
    ensures
        match first_dangling_index(entries, methods) {
            Some(index) => {
                &&& 0 <= index < methods.len()
                &&& missing_type(entries, methods[index]) is Some
                &&& forall|j: int|
                    0 <= j < index ==> missing_type(entries, #[trigger] methods[j]) is None
            },
            None => forall|j: int|
                0 <= j < methods.len() ==> missing_type(entries, #[trigger] methods[j]) is None,
        },
    decreases methods.len(),
{
    if methods.len() > 0 {
        lemma_first_dangling_index(entries, methods.drop_last());
        assert(forall|j: int|
            0 <= j < methods.len() - 1 ==> methods.drop_last()[j] == #[trigger] methods[j]);
    }
}

/// A service has a dangling reference exactly where it does not resolve.
pub proof fn lemma_dangling_iff_unresolved(
    entries: Seq<EntryView>,
    path: TypePathView,
    methods: Seq<MethodDescriptorView>,
)
    ensures
        first_dangling(entries, methods) is Some <==> resolved_service(
            entries,
            path,
            methods,
        ) is None,
{
    lemma_first_dangling_index(entries, methods);
    match first_dangling_index(entries, methods) {
        Some(index) => {
            assert(resolved_method(entries, methods[index]) is None);
        },
        None => {
            assert forall|i: int| 0 <= i < methods.len() implies (#[trigger] resolved_method(
                entries,
                methods[i],
            )) is Some by {
                assert(missing_type(entries, methods[i]) is None);
            }
        },
    }
}

/// Whether the registry holds a message under `name`.
pub fn is_message(descriptors: &DescriptorSet, name: &str) -> (held: bool)
    ensures
        held == resolved_message(descriptors@, name@) is Some,
{
    match find(descriptors, name) {
        Some(index) => {
            let (_, descriptor) = descriptors.get(index);
            match descriptor {
                Descriptor::Message(_) => true,
                _ => false,
            }
        },
        None => false,
    }
}

/// Says why `service` does not resolve, where it does not.
pub fn first_dangling_reference(descriptors: &DescriptorSet, service: &ServiceDescriptor) -> (found:
    Option<Dangling>)
    ensures
        found.deep_view() == first_dangling(descriptors@, service.methods.deep_view()),
{
    let ghost declared = service.methods.deep_view();
    let mut i: usize = 0;
    while i < service.methods.len()
        invariant
            i <= service.methods.len(),
            declared == service.methods.deep_view(),
            forall|j: int|
                0 <= j < i ==> missing_type(descriptors@, #[trigger] declared[j]) is None,
        decreases service.methods.len() - i,
    {
        let method = &service.methods[i];
        assert(method@ == declared[i as int]);
        let missing = if !is_message(descriptors, method.input_type.as_str()) {
            Some(method.input_type.clone())
        } else if !is_message(descriptors, method.output_type.as_str()) {
            Some(method.output_type.clone())
        } else {
            None
        };
        match missing {
            Some(missing) => {
                proof {
                    lemma_first_dangling_index(descriptors@, declared);
                }
                return Some(Dangling { method: method.name.clone(), missing });
            },
            None => {},
        }
        i += 1;
    }
    proof {
        lemma_first_dangling_index(descriptors@, declared);
    }
    None
}

} // verus!
