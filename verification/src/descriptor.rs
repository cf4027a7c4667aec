//! Packages, type paths and the registry of descriptors.

use crate::message::{scalar_of_number, ScalarType};
use crate::text::{
    dot_pieces, dot_segments, join, joined, lemma_deep_view_empty, lemma_deep_view_push,
    lemma_dot_pieces_hold_no_dot, lemma_dot_pieces_of_joined, lemma_joined_dot_pieces,
    lemma_joined_is_empty, split_segments,
};
use vstd::prelude::*;

verus! {

/// A Protocol Buffers package, held by its dotted name. Its view is that name.
#[derive(Debug, PartialEq, Eq)]
pub struct Package {
    pub name: String,
}

impl View for Package {
    type V = Seq<char>;

    open spec fn view(&self) -> Seq<char> {
        self.name@
    }
}

impl DeepView for Package {
    type V = Seq<char>;

    open spec fn deep_view(&self) -> Seq<char> {
        self@
    }
}

impl Clone for Package {
    fn clone(&self) -> (copy: Self)
        ensures
            copy@ == self@,
    {
        Package { name: self.name.clone() }
    }
}

impl Package {
    /// The package with the dotted name `name`.
    pub fn new(name: &str) -> (package: Self)
        ensures
            package@ == name@,
    {
        Package { name: String::from_str(name) }
    }

    /// The dotted name.
    pub fn name(&self) -> (name: &str)
        ensures
            name@ == self@,
    {
        self.name.as_str()
    }

    /// The segments of the dotted name; the unnamed package has none.
    pub fn path(&self) -> (segments: Vec<String>)
        ensures
            segments.deep_view() == dot_segments(self@),
    {
        split_segments(self.name.as_str())
    }

    /// Whether two packages have the same name.
    pub fn same_as(&self, other: &Package) -> (same: bool)
        ensures
            same == (self@ == other@),
    {
        self.name == other.name
    }
}

/// What a type path says: the package's dotted name, then the names of the
/// enclosing types and of the type itself, outermost first.
#[verifier::ext_equal]
pub struct TypePathView {
    pub package: Seq<char>,
    pub path: Seq<Seq<char>>,
}

impl TypePathView {
    /// Every segment of the full name: those of the package, then those of the type.
    pub open spec fn segments(self) -> Seq<Seq<char>> {
        dot_segments(self.package) + self.path
    }

    /// The fully-qualified name: a dot before each segment, or a lone dot where
    /// there is no segment.
    pub open spec fn full_name(self) -> Seq<char> {
        seq!['.'] + joined(self.segments(), seq!['.'])
    }

    /// A prefix matches when it starts with a dot and the segments after that dot
    /// are the leading segments of this path; the result is their number. A lone
    /// dot matches every path, with no segment.
    pub open spec fn prefix_match(self, prefix: Seq<char>) -> Option<nat> {
        if prefix.len() > 0 && prefix[0] == '.' && dot_segments(prefix.skip(1)).is_prefix_of(
            self.segments(),
        ) {
            Some(dot_segments(prefix.skip(1)).len())
        } else {
            None
        }
    }

    /// Whether `name`, a dot and then dotted segments, names exactly this path.
    pub open spec fn is_named(self, name: Seq<char>) -> bool {
        self.prefix_match(name) == Some(self.segments().len())
    }

    /// The path of the type `name` declared directly inside this one.
    pub open spec fn child(self, name: Seq<char>) -> TypePathView {
        TypePathView { package: self.package, path: self.path.push(name) }
    }

    /// Whether any of `prefixes` matches.
    pub open spec fn matches_any(self, prefixes: Seq<Seq<char>>) -> bool {
        exists|i: int| 0 <= i < prefixes.len() && (#[trigger] self.prefix_match(prefixes[i])) is Some
    }
}

/// Whether a name can stand as one segment of a dotted name: it is not empty
/// and holds no dot.
pub open spec fn is_segment(name: Seq<char>) -> bool {
    name.len() > 0 && !name.contains('.')
}

/// A name names a path only if it is the path's full name.
pub proof fn lemma_named_by_full_name_only(path: TypePathView, name: Seq<char>)
    requires
        path.is_named(name),
    ensures
        name == path.full_name(),
{
    let rest = name.skip(1);
    assert(dot_segments(rest) == path.segments());
    if rest.len() > 0 {
        lemma_joined_dot_pieces(rest);
    }
    assert("."@ == seq!['.']) by {
        reveal_strlit(".");
    }
    assert(name == seq!['.'] + rest);
}

/// The full name of a path names it, where the names of the types on the path
/// can stand as segments.
pub proof fn lemma_full_name_names_the_path(path: TypePathView)
    requires
        forall|i: int| 0 <= i < path.path.len() ==> is_segment(#[trigger] path.path[i]),
    ensures
        path.is_named(path.full_name()),
{
    let segments = path.segments();
    let body = joined(segments, seq!['.']);
    assert(path.full_name().skip(1) == body);
    if segments.len() > 0 {
        let outer = dot_segments(path.package);
        if path.package.len() > 0 {
            lemma_dot_pieces_hold_no_dot(path.package);
        }
        assert forall|i: int| 0 <= i < segments.len() implies !(#[trigger] segments[i]).contains(
            '.',
        ) by {
            if i < outer.len() {
                assert(segments[i] == outer[i]);
                if outer[i].contains('.') {
                    let j = choose|j: int| 0 <= j < outer[i].len() && outer[i][j] == '.';
                    assert(dot_pieces(path.package)[i][j] != '.');
                }
            } else {
                assert(segments[i] == path.path[i - outer.len()]);
            }
        }
        lemma_dot_pieces_of_joined(segments);
        if body.len() == 0 {
            lemma_joined_is_empty(segments, seq!['.']);
            if path.path.len() > 0 {
                assert(segments[segments.len() - 1] == path.path[path.path.len() - 1]);
                assert(is_segment(path.path[path.path.len() - 1]));
            } else {
                assert(segments == outer);
                lemma_joined_dot_pieces(path.package);
            }
            assert(false);
        }
        assert(dot_segments(body) == segments);
    } else {
        assert(body.len() == 0);
    }
    assert(path.full_name()[0] == '.');
    assert(dot_segments(path.full_name().skip(1)).is_prefix_of(segments));
}

/// The fully-qualified path of a message, enum or service.
#[derive(Debug, PartialEq, Eq)]
pub struct TypePath {
    pub package: Package,
    pub path: Vec<String>,
}

impl View for TypePath {
    type V = TypePathView;

    open spec fn view(&self) -> TypePathView {
        TypePathView { package: self.package@, path: self.path.deep_view() }
    }
}

impl DeepView for TypePath {
    type V = TypePathView;

    open spec fn deep_view(&self) -> TypePathView {
        self@
    }
}

/// A copy of a list of strings.
fn clone_strings(list: &Vec<String>) -> (copy: Vec<String>)
    ensures
        copy.deep_view() == list.deep_view(),
{
    let mut copy: Vec<String> = Vec::new();
    let mut i: usize = 0;
    while i < list.len()
        invariant
            i <= list.len(),
            copy.deep_view() == list.deep_view().take(i as int),
        decreases list.len() - i,
    {
        let ghost before = copy;
        let item = list[i].clone();
        copy.push(item);
        proof {
            lemma_deep_view_push(before, copy, item);
            assert(list.deep_view().take(i + 1) == list.deep_view().take(i as int).push(item@));
        }
        i += 1;
    }
    assert(list.deep_view().take(list.len() as int) == list.deep_view());
    copy
}

/// Whether `prefix` is made of the leading items of `list`.
fn starts_with(list: &Vec<String>, prefix: &Vec<String>) -> (found: bool)
    ensures
        found == prefix.deep_view().is_prefix_of(list.deep_view()),
{
    if prefix.len() > list.len() {
        return false;
    }
    let mut i: usize = 0;
    while i < prefix.len()
        invariant
            i <= prefix.len() <= list.len(),
            forall|j: int| 0 <= j < i ==> prefix.deep_view()[j] == list.deep_view()[j],
        decreases prefix.len() - i,
    {
        if prefix[i] != list[i] {
            assert(prefix.deep_view()[i as int] != list.deep_view()[i as int]);
            return false;
        }
        i += 1;
    }
    true
}

impl Clone for TypePath {
    fn clone(&self) -> (copy: Self)
        ensures
            copy@ == self@,
    {
        TypePath { package: self.package.clone(), path: clone_strings(&self.path) }
    }
}

impl TypePath {
    /// The path of a package itself, before any type is named.
    pub fn new(package: Package) -> (path: Self)
        ensures
            path@ == (TypePathView { package: package@, path: Seq::empty() }),
    {
        let path: Vec<String> = Vec::new();
        proof {
            lemma_deep_view_empty(path);
        }
        TypePath { package, path }
    }

    /// The package.
    pub fn package(&self) -> (package: &Package)
        ensures
            package@ == self@.package,
    {
        &self.package
    }

    /// The names of the enclosing types and of the type itself.
    pub fn path(&self) -> (path: &Vec<String>)
        ensures
            path.deep_view() == self@.path,
    {
        &self.path
    }

    /// The path of the type `name` declared directly inside this one.
    pub fn child(&self, name: &str) -> (child: Self)
        ensures
            child@ == self@.child(name@),
    {
        let mut path = clone_strings(&self.path);
        let ghost before = path;
        let last = String::from_str(name);
        path.push(last);
        proof {
            lemma_deep_view_push(before, path, last);
        }
        TypePath { package: self.package.clone(), path }
    }

    /// Every segment of the full name.
    pub fn segments(&self) -> (segments: Vec<String>)
        ensures
            segments.deep_view() == self@.segments(),
    {
        let mut segments = self.package.path();
        let mut i: usize = 0;
        while i < self.path.len()
            invariant
                i <= self.path.len(),
                segments.deep_view() == dot_segments(self.package@) + self.path.deep_view().take(
                    i as int,
                ),
            decreases self.path.len() - i,
        {
            let ghost before = segments;
            let item = self.path[i].clone();
            segments.push(item);
            proof {
                lemma_deep_view_push(before, segments, item);
                assert(self.path.deep_view().take(i + 1) == self.path.deep_view().take(
                    i as int,
                ).push(item@));
            }
            i += 1;
        }
        assert(self.path.deep_view().take(self.path.len() as int) == self.path.deep_view());
        segments
    }

    /// The fully-qualified name, with a dot before each segment.
    pub fn full_name(&self) -> (name: String)
        ensures
            name@ == self@.full_name(),
    {
        let mut name = String::from_str(".");
        proof {
            reveal_strlit(".");
            assert("."@ == seq!['.']);
        }
        let body = join(&self.segments(), ".");
        name.append(body.as_str());
        name
    }

    /// Matches `prefix` against this path and gives the number of segments it covers.
    pub fn prefix_match(&self, prefix: &str) -> (matched: Option<usize>)
        ensures
            match matched {
                Some(n) => self@.prefix_match(prefix@) == Some(n as nat),
                None => self@.prefix_match(prefix@) is None,
            },
    {
        let len = prefix.unicode_len();
        if len == 0 {
            return None;
        }
        if prefix.get_char(0) != '.' {
            return None;
        }
        let wanted = split_segments(prefix.substring_char(1, len));
        let segments = self.segments();
        if starts_with(&segments, &wanted) {
            Some(wanted.len())
        } else {
            None
        }
    }

    /// Whether `name` names exactly this path.
    pub fn is_named(&self, name: &str) -> (named: bool)
        ensures
            named == self@.is_named(name@),
    {
        match self.prefix_match(name) {
            Some(n) => n == self.segments().len(),
            None => false,
        }
    }

    /// Whether any of `prefixes` matches this path.
    pub fn matches_any(&self, prefixes: &Vec<String>) -> (found: bool)
        ensures
            found == self@.matches_any(prefixes.deep_view()),
    {
        let mut i: usize = 0;
        while i < prefixes.len()
            invariant
                i <= prefixes.len(),
                forall|j: int| 0 <= j < i ==> (#[trigger] self@.prefix_match(
                    prefixes.deep_view()[j],
                )) is None,
            decreases prefixes.len() - i,
        {
            if self.prefix_match(prefixes[i].as_str()).is_some() {
                assert(self@.prefix_match(prefixes.deep_view()[i as int]) is Some);
                return true;
            }
            i += 1;
        }
        false
    }
}

/// What the declared type of a field says.
#[verifier::ext_equal]
pub enum FieldKindView {
    Scalar(ScalarType),
    Reference(Seq<char>),
}

/// The declared type of a field: a scalar, or a message or enum given by its
/// fully-qualified name.
#[derive(Debug, PartialEq, Eq)]
pub enum FieldKind {
    Scalar(ScalarType),
    Reference(String),
}

impl View for FieldKind {
    type V = FieldKindView;

    open spec fn view(&self) -> FieldKindView {
        match self {
            FieldKind::Scalar(scalar) => FieldKindView::Scalar(*scalar),
            FieldKind::Reference(name) => FieldKindView::Reference(name@),
        }
    }
}

/// The number that a field descriptor gives to the label `repeated`.
pub const LABEL_REPEATED: i32 = 3;

impl FieldKind {
    /// The declared type of a field from what its descriptor holds: the name of
    /// a message or enum where there is one, else the scalar behind the type
    /// number. `None` where there is no name and the number is missing or is
    /// not that of a scalar.
    pub fn declared(number: Option<i32>, reference: Option<String>) -> (kind: Option<FieldKind>)
        ensures
            kind.deep_view() == match reference {
                Some(name) => Some(FieldKindView::Reference(name@)),
                None => match number {
                    Some(n) => match scalar_of_number(n as int) {
                        Some(scalar) => Some(FieldKindView::Scalar(scalar)),
                        None => None,
                    },
                    None => None,
                },
            },
    {
        match reference {
            Some(name) => Some(FieldKind::Reference(name)),
            None => match number {
                Some(n) => match ScalarType::from_number(n) {
                    Some(scalar) => Some(FieldKind::Scalar(scalar)),
                    None => None,
                },
                None => None,
            },
        }
    }
}

impl DeepView for FieldKind {
    type V = FieldKindView;

    open spec fn deep_view(&self) -> FieldKindView {
        self@
    }
}

impl Clone for FieldKind {
    fn clone(&self) -> (copy: Self)
        ensures
            copy@ == self@,
    {
        match self {
            FieldKind::Scalar(scalar) => FieldKind::Scalar(*scalar),
            FieldKind::Reference(name) => FieldKind::Reference(name.clone()),
        }
    }
}

/// What a declared field says.
#[verifier::ext_equal]
pub struct FieldDescriptorView {
    pub name: Seq<char>,
    pub kind: FieldKindView,
    pub repeated: bool,
}

/// A field as a message declares it.
#[derive(Debug, PartialEq, Eq)]
pub struct FieldDescriptor {
    pub name: String,
    pub kind: FieldKind,
    pub repeated: bool,
}

impl View for FieldDescriptor {
    type V = FieldDescriptorView;

    open spec fn view(&self) -> FieldDescriptorView {
        FieldDescriptorView { name: self.name@, kind: self.kind@, repeated: self.repeated }
    }
}

impl DeepView for FieldDescriptor {
    type V = FieldDescriptorView;

    open spec fn deep_view(&self) -> FieldDescriptorView {
        self@
    }
}

impl FieldDescriptor {
    /// A field from what its descriptor holds: it is repeated where its label
    /// says so. `None` where `kind` is.
    pub fn declared(name: String, label: Option<i32>, kind: Option<FieldKind>) -> (field: Option<
        FieldDescriptor,
    >)
        ensures
            field.deep_view() == match kind {
                Some(kind) => Some(
                    FieldDescriptorView {
                        name: name@,
                        kind: kind@,
                        repeated: label == Some(LABEL_REPEATED),
                    },
                ),
                None => None,
            },
    {
        let repeated = match label {
            Some(label) => label == LABEL_REPEATED,
            None => false,
        };
        match kind {
            Some(kind) => Some(FieldDescriptor { name, kind, repeated }),
            None => None,
        }
    }
}

impl Clone for FieldDescriptor {
    fn clone(&self) -> (copy: Self)
        ensures
            copy@ == self@,
    {
        FieldDescriptor {
            name: self.name.clone(),
            kind: self.kind.clone(),
            repeated: self.repeated,
        }
    }
}

/// What a declared method says.
#[verifier::ext_equal]
pub struct MethodDescriptorView {
    pub name: Seq<char>,
    pub input_type: Seq<char>,
    pub output_type: Seq<char>,
    pub server_streaming: bool,
}

/// A method as a service declares it: its input and output are given by their
/// fully-qualified names.
#[derive(Debug, PartialEq, Eq)]
pub struct MethodDescriptor {
    pub name: String,
    pub input_type: String,
    pub output_type: String,
    pub server_streaming: bool,
}

impl View for MethodDescriptor {
    type V = MethodDescriptorView;

    open spec fn view(&self) -> MethodDescriptorView {
        MethodDescriptorView {
            name: self.name@,
            input_type: self.input_type@,
            output_type: self.output_type@,
            server_streaming: self.server_streaming,
        }
    }
}

impl DeepView for MethodDescriptor {
    type V = MethodDescriptorView;

    open spec fn deep_view(&self) -> MethodDescriptorView {
        self@
    }
}

impl Clone for MethodDescriptor {
    fn clone(&self) -> (copy: Self)
        ensures
            copy@ == self@,
    {
        MethodDescriptor {
            name: self.name.clone(),
            input_type: self.input_type.clone(),
            output_type: self.output_type.clone(),
            server_streaming: self.server_streaming,
        }
    }
}

/// A copy of a list of fields.
fn clone_fields(list: &Vec<FieldDescriptor>) -> (copy: Vec<FieldDescriptor>)
    ensures
        copy.deep_view() == list.deep_view(),
{
    let mut copy: Vec<FieldDescriptor> = Vec::new();
    let mut i: usize = 0;
    while i < list.len()
        invariant
            i <= list.len(),
            copy.deep_view() == list.deep_view().take(i as int),
        decreases list.len() - i,
    {
        let ghost before = copy;
        let item = list[i].clone();
        copy.push(item);
        proof {
            lemma_deep_view_push(before, copy, item);
            assert(list.deep_view().take(i + 1) == list.deep_view().take(i as int).push(item@));
        }
        i += 1;
    }
    assert(list.deep_view().take(list.len() as int) == list.deep_view());
    copy
}

/// A copy of a list of methods.
fn clone_methods(list: &Vec<MethodDescriptor>) -> (copy: Vec<MethodDescriptor>)
    ensures
        copy.deep_view() == list.deep_view(),
{
    let mut copy: Vec<MethodDescriptor> = Vec::new();
    let mut i: usize = 0;
    while i < list.len()
        invariant
            i <= list.len(),
            copy.deep_view() == list.deep_view().take(i as int),
        decreases list.len() - i,
    {
        let ghost before = copy;
        let item = list[i].clone();
        copy.push(item);
        proof {
            lemma_deep_view_push(before, copy, item);
            assert(list.deep_view().take(i + 1) == list.deep_view().take(i as int).push(item@));
        }
        i += 1;
    }
    assert(list.deep_view().take(list.len() as int) == list.deep_view());
    copy
}

/// What a declared message says.
#[verifier::ext_equal]
pub struct MessageDeclarationView {
    pub name: Seq<char>,
    pub fields: Seq<FieldDescriptorView>,
    pub nested: Seq<MessageDeclarationView>,
    pub enums: Seq<Seq<char>>,
    pub map_entry: bool,
}

/// A message as a schema file declares it, with the messages and the names of
/// the enums declared inside it. `map_entry` marks the entry type that stands
/// behind a map field.
#[derive(Debug, PartialEq, Eq)]
pub struct MessageDeclaration {
    pub name: String,
    pub fields: Vec<FieldDescriptor>,
    pub nested: Vec<MessageDeclaration>,
    pub enums: Vec<String>,
    pub map_entry: bool,
}

/// What `message` says.
pub open spec fn message_declaration_view(message: MessageDeclaration) -> MessageDeclarationView
    decreases message,
{
    MessageDeclarationView {
        name: message.name@,
        fields: message.fields.deep_view(),
        nested: Seq::new(
            message.nested@.len(),
            |i: int|
                if 0 <= i < message.nested@.len() {
                    message_declaration_view(message.nested@[i])
                } else {
                    arbitrary()
                },
        ),
        enums: message.enums.deep_view(),
        map_entry: message.map_entry,
    }
}

impl View for MessageDeclaration {
    type V = MessageDeclarationView;

    open spec fn view(&self) -> MessageDeclarationView {
        message_declaration_view(*self)
    }
}

impl DeepView for MessageDeclaration {
    type V = MessageDeclarationView;

    open spec fn deep_view(&self) -> MessageDeclarationView {
        self@
    }
}

/// What a declared service says.
#[verifier::ext_equal]
pub struct ServiceDeclarationView {
    pub name: Seq<char>,
    pub methods: Seq<MethodDescriptorView>,
}

/// A service as a schema file declares it.
#[derive(Debug, PartialEq, Eq)]
pub struct ServiceDeclaration {
    pub name: String,
    pub methods: Vec<MethodDescriptor>,
}

impl View for ServiceDeclaration {
    type V = ServiceDeclarationView;

    open spec fn view(&self) -> ServiceDeclarationView {
        ServiceDeclarationView { name: self.name@, methods: self.methods.deep_view() }
    }
}

impl DeepView for ServiceDeclaration {
    type V = ServiceDeclarationView;

    open spec fn deep_view(&self) -> ServiceDeclarationView {
        self@
    }
}

/// What a schema file says.
#[verifier::ext_equal]
pub struct FileDescriptorView {
    pub package: Seq<char>,
    pub messages: Seq<MessageDeclarationView>,
    pub enums: Seq<Seq<char>>,
    pub services: Seq<ServiceDeclarationView>,
}

/// One decoded schema file: its package and what it declares at the top level.
#[derive(Debug, PartialEq, Eq)]
pub struct FileDescriptor {
    pub package: String,
    pub messages: Vec<MessageDeclaration>,
    pub enums: Vec<String>,
    pub services: Vec<ServiceDeclaration>,
}

impl View for FileDescriptor {
    type V = FileDescriptorView;

    open spec fn view(&self) -> FileDescriptorView {
        FileDescriptorView {
            package: self.package@,
            messages: self.messages.deep_view(),
            enums: self.enums.deep_view(),
            services: self.services.deep_view(),
        }
    }
}

impl DeepView for FileDescriptor {
    type V = FileDescriptorView;

    open spec fn deep_view(&self) -> FileDescriptorView {
        self@
    }
}

/// A decoded set of schema files.
#[derive(Debug, PartialEq, Eq)]
pub struct FileDescriptorSet {
    pub file: Vec<FileDescriptor>,
}

impl View for FileDescriptorSet {
    type V = Seq<FileDescriptorView>;

    open spec fn view(&self) -> Seq<FileDescriptorView> {
        self.file.deep_view()
    }
}

/// What a registered descriptor says.
#[verifier::ext_equal]
pub enum DescriptorView {
    Message { fields: Seq<FieldDescriptorView>, map_entry: bool },
    Enum,
    Service { methods: Seq<MethodDescriptorView> },
}

/// A registered message: its direct fields, in the order of their declaration.
#[derive(Debug, PartialEq, Eq)]
pub struct MessageDescriptor {
    pub fields: Vec<FieldDescriptor>,
    pub map_entry: bool,
}

/// A registered service: its methods, in the order of their declaration.
#[derive(Debug, PartialEq, Eq)]
pub struct ServiceDescriptor {
    pub methods: Vec<MethodDescriptor>,
}

/// What the registry holds for one type path.
#[derive(Debug, PartialEq, Eq)]
pub enum Descriptor {
    Message(MessageDescriptor),
    Enum,
    Service(ServiceDescriptor),
}

impl View for Descriptor {
    type V = DescriptorView;

    open spec fn view(&self) -> DescriptorView {
        match self {
            Descriptor::Message(message) => DescriptorView::Message {
                fields: message.fields.deep_view(),
                map_entry: message.map_entry,
            },
            Descriptor::Enum => DescriptorView::Enum,
            Descriptor::Service(service) => DescriptorView::Service {
                methods: service.methods.deep_view(),
            },
        }
    }
}

impl DeepView for Descriptor {
    type V = DescriptorView;

    open spec fn deep_view(&self) -> DescriptorView {
        self@
    }
}

/// A type path with what is registered for it.
pub type EntryView = (TypePathView, DescriptorView);

/// The entries that the enums `names`, declared inside `parent`, add.
pub open spec fn enum_entries(parent: TypePathView, names: Seq<Seq<char>>) -> Seq<EntryView> {
    Seq::new(names.len(), |i: int| (parent.child(names[i]), DescriptorView::Enum))
}

/// The entries that the services `services` of the package `parent` add.
pub open spec fn service_entries(
    parent: TypePathView,
    services: Seq<ServiceDeclarationView>,
) -> Seq<EntryView> {
    Seq::new(
        services.len(),
        |i: int|
            (
                parent.child(services[i].name),
                DescriptorView::Service { methods: services[i].methods },
            ),
    )
}

/// The entries that `message`, declared inside `parent`, adds: the message
/// itself, the enums declared inside it, then what the messages declared
/// inside it add, each in the order of declaration.
pub open spec fn message_entries(parent: TypePathView, message: MessageDeclarationView) -> Seq<
    EntryView,
>
    decreases message, 1int,
{
    seq![
        (
            parent.child(message.name),
            DescriptorView::Message { fields: message.fields, map_entry: message.map_entry },
        ),
    ] + enum_entries(parent.child(message.name), message.enums) + messages_entries(
        parent.child(message.name),
        message.nested,
    )
}

/// What `messages`, declared inside `parent`, add one after another.
pub open spec fn messages_entries(
    parent: TypePathView,
    messages: Seq<MessageDeclarationView>,
) -> Seq<EntryView>
    decreases messages, 0int,
{
    if messages.len() == 0 {
        Seq::empty()
    } else {
        messages_entries(parent, messages.drop_last()) + message_entries(parent, messages.last())
    }
}

/// The entries that a schema file adds: its messages with all that they hold,
/// its enums, then its services.
pub open spec fn file_entries(file: FileDescriptorView) -> Seq<EntryView> {
    let root = TypePathView { package: file.package, path: Seq::empty() };
    messages_entries(root, file.messages) + enum_entries(root, file.enums) + service_entries(
        root,
        file.services,
    )
}

/// The entries that a set of schema files adds, file after file.
pub open spec fn set_entries(files: Seq<FileDescriptorView>) -> Seq<EntryView>
    decreases files.len(),
{
    if files.len() == 0 {
        Seq::empty()
    } else {
        set_entries(files.drop_last()) + file_entries(files.last())
    }
}

/// The registry: every registered type path with its descriptor, in the order
/// of registration. Nothing is looked up or removed when a path is registered
/// again: it then stands twice.
#[derive(Debug, PartialEq, Eq)]
pub struct DescriptorSet {
    pub entries: Vec<(TypePath, Descriptor)>,
}

impl View for DescriptorSet {
    type V = Seq<EntryView>;

    open spec fn view(&self) -> Seq<EntryView> {
        self.entries.deep_view()
    }
}

impl DescriptorSet {
    /// The empty registry.
    pub fn new() -> (set: Self)
        ensures
            set@ == Seq::<EntryView>::empty(),
    {
        let entries: Vec<(TypePath, Descriptor)> = Vec::new();
        proof {
            lemma_deep_view_empty(entries);
        }
        DescriptorSet { entries }
    }

    /// How many entries are registered.
    pub fn len(&self) -> (len: usize)
        ensures
            len == self@.len(),
    {
        self.entries.len()
    }

    /// The entry at `index`, in the order of registration.
    pub fn get(&self, index: usize) -> (entry: (&TypePath, &Descriptor))
        requires
            index < self@.len(),
        ensures
            entry.0@ == self@[index as int].0,
            entry.1@ == self@[index as int].1,
    {
        let entry = &self.entries[index];
        (&entry.0, &entry.1)
    }

    /// Adds one entry at the end.
    pub fn register_descriptor(&mut self, path: TypePath, descriptor: Descriptor)
        ensures
            final(self)@ == old(self)@.push((path@, descriptor@)),
    {
        let ghost before = self.entries;
        self.entries.push((path, descriptor));
        proof {
            lemma_deep_view_push(before, self.entries, (path, descriptor));
        }
    }

    /// Registers the enums `names`, declared inside `parent`.
    pub fn register_enums(&mut self, parent: &TypePath, names: &Vec<String>)
        ensures
            final(self)@ == old(self)@ + enum_entries(parent@, names.deep_view()),
    {
        let ghost start = self@;
        let ghost added = enum_entries(parent@, names.deep_view());
        let mut i: usize = 0;
        assert(start + added.take(0) == start);
        while i < names.len()
            invariant
                i <= names.len(),
                added == enum_entries(parent@, names.deep_view()),
                self@ == start + added.take(i as int),
            decreases names.len() - i,
        {
            self.register_descriptor(parent.child(names[i].as_str()), Descriptor::Enum);
            assert(added.take(i + 1) == added.take(i as int).push(added[i as int]));
            i += 1;
        }
        assert(added.take(names.len() as int) == added);
    }

    /// Registers the services `services` of the package `parent`.
    pub fn register_services(&mut self, parent: &TypePath, services: &Vec<ServiceDeclaration>)
        ensures
            final(self)@ == old(self)@ + service_entries(parent@, services.deep_view()),
    {
        let ghost start = self@;
        let ghost added = service_entries(parent@, services.deep_view());
        let mut i: usize = 0;
        assert(start + added.take(0) == start);
        while i < services.len()
            invariant
                i <= services.len(),
                added == service_entries(parent@, services.deep_view()),
                self@ == start + added.take(i as int),
            decreases services.len() - i,
        {
            let service = &services[i];
            self.register_descriptor(
                parent.child(service.name.as_str()),
                Descriptor::Service(ServiceDescriptor { methods: clone_methods(&service.methods) }),
            );
            assert(added.take(i + 1) == added.take(i as int).push(added[i as int]));
            i += 1;
        }
        assert(added.take(services.len() as int) == added);
    }

    /// Registers `message`, declared inside `parent`, with all that it holds.
    pub fn register_message(&mut self, parent: &TypePath, message: &MessageDeclaration)
        ensures
            final(self)@ == old(self)@ + message_entries(parent@, message@),
        decreases message,
    {
        let ghost start = self@;
        let path = parent.child(message.name.as_str());
        self.register_descriptor(
            path.clone(),
            Descriptor::Message(
                MessageDescriptor {
                    fields: clone_fields(&message.fields),
                    map_entry: message.map_entry,
                },
            ),
        );
        self.register_enums(&path, &message.enums);
        let ghost held = self@;
        let ghost nested = message@.nested;
        let mut i: usize = 0;
        assert(nested.take(0) == Seq::<MessageDeclarationView>::empty());
        assert(held + messages_entries(path@, nested.take(0)) == held);
        while i < message.nested.len()
            invariant
                i <= message.nested.len(),
                nested == message@.nested,
                nested.len() == message.nested.len(),
                self@ == held + messages_entries(path@, nested.take(i as int)),
            decreases message.nested.len() - i,
        {
            assert(nested.take(i + 1).drop_last() == nested.take(i as int));
            assert(nested.take(i + 1).last() == message.nested[i as int]@);
            self.register_message(&path, &message.nested[i]);
            i += 1;
        }
        assert(nested.take(message.nested.len() as int) == nested);
    }

    /// Registers every type that a schema file declares.
    pub fn register_file_descriptor(&mut self, file: FileDescriptor)
        ensures
            final(self)@ == old(self)@ + file_entries(file@),
    {
        let ghost start = self@;
        let root = TypePath::new(Package::new(file.package.as_str()));
        let ghost messages = file@.messages;
        let mut i: usize = 0;
        assert(messages.take(0) == Seq::<MessageDeclarationView>::empty());
        assert(start + messages_entries(root@, messages.take(0)) == start);
        while i < file.messages.len()
            invariant
                i <= file.messages.len(),
                messages == file@.messages,
                self@ == start + messages_entries(root@, messages.take(i as int)),
            decreases file.messages.len() - i,
        {
            assert(messages.take(i + 1).drop_last() == messages.take(i as int));
            assert(messages.take(i + 1).last() == file.messages[i as int]@);
            self.register_message(&root, &file.messages[i]);
            i += 1;
        }
        assert(messages.take(file.messages.len() as int) == messages);
        self.register_enums(&root, &file.enums);
        self.register_services(&root, &file.services);
    }

    /// Registers every file of a decoded set, in order.
    pub fn register_descriptors(&mut self, set: FileDescriptorSet)
        ensures
            final(self)@ == old(self)@ + set_entries(set@),
    {
        let ghost start = self@;
        let ghost files = set@;
        let mut files_left = set.file;
        let mut i: usize = 0;
        assert(start + set_entries(files.take(0)) == start);
        while i < files_left.len()
            invariant
                i <= files_left.len(),
                files.len() == files_left.len(),
                forall|j: int| i <= j < files.len() ==> files_left[j]@ == files[j],
                self@ == start + set_entries(files.take(i as int)),
            decreases files_left.len() - i,
        {
            assert(files.take(i + 1).drop_last() == files.take(i as int));
            let mut file = FileDescriptor {
                package: String::new(),
                messages: Vec::new(),
                enums: Vec::new(),
                services: Vec::new(),
            };
            std::mem::swap(&mut file, &mut files_left[i]);
            self.register_file_descriptor(file);
            i += 1;
        }
        assert(files.take(files.len() as int) == files);
    }
}

} // verus!
