//! From a type path to the Rust path that names the type in generated code.

use crate::descriptor::{Package, TypePath, TypePathView};
use crate::message::{FieldType, FieldTypeView};
use crate::naming::{snake_case, snake_cases, to_snake_case, to_upper_camel_case, upper_camel_case};
use crate::text::{dot_segments, lemma_deep_view_empty, lemma_deep_view_push, repeated};
use vstd::prelude::*;

verus! {

/// `segments`, each behind a `::`.
pub open spec fn path_tail(segments: Seq<Seq<char>>) -> Seq<char>
    decreases segments.len(),
{
    if segments.len() == 0 {
        Seq::empty()
    } else {
        path_tail(segments.drop_last()) + "::"@ + segments.last()
    }
}

/// `modules`, each before a `::`.
pub open spec fn module_prefix(modules: Seq<Seq<char>>) -> Seq<char>
    decreases modules.len(),
{
    if modules.len() == 0 {
        Seq::empty()
    } else {
        module_prefix(modules.drop_last()) + modules.last() + "::"@
    }
}

/// The path that climbs `supers` modules, descends through `modules` and ends
/// in `name`.
pub open spec fn qualified(supers: nat, modules: Seq<Seq<char>>, name: Seq<char>) -> Seq<char> {
    repeated("super::"@, supers) + module_prefix(modules) + name
}

/// What the first entry of `table` whose prefix matches `path` makes of it: the
/// entry's Rust path, then the segments that the prefix does not cover, each
/// behind a `::`. `None` where no entry matches.
pub open spec fn extern_type(table: Seq<(Seq<char>, Seq<char>)>, path: TypePathView) -> Option<
    Seq<char>,
>
    decreases table.len(),
{
    if table.len() == 0 {
        None
    } else {
        match path.prefix_match(table.first().0) {
            Some(n) => Some(table.first().1 + path_tail(path.segments().skip(n as int))),
            None => extern_type(table.drop_first(), path),
        }
    }
}

/// The types that enclose the last one of `path`.
pub open spec fn enclosing(path: Seq<Seq<char>>) -> Seq<Seq<char>> {
    if path.len() == 0 {
        path
    } else {
        path.drop_last()
    }
}

/// What a resolver holds.
#[verifier::ext_equal]
pub struct ResolverView {
    pub extern_types: Seq<(Seq<char>, Seq<char>)>,
    pub package: Seq<char>,
    pub retain_enum_prefix: bool,
}

impl ResolverView {
    /// How many modules lie between the code generated for this resolver's
    /// package and the root, where `path` has to be reached from the root.
    pub open spec fn supers(self, path: TypePathView) -> nat {
        if path.package == self.package {
            0
        } else {
            dot_segments(self.package).len()
        }
    }

    /// The declared names of the modules to go through to reach the type of
    /// `path`: its package, unless that is this resolver's own, then the types
    /// that enclose it.
    pub open spec fn modules(self, path: TypePathView) -> Seq<Seq<char>> {
        if path.package == self.package {
            enclosing(path.path)
        } else {
            dot_segments(path.package) + enclosing(path.path)
        }
    }

    /// The Rust name of the type itself, empty where `path` names no type.
    pub open spec fn leaf_name(self, path: TypePathView) -> Seq<char> {
        if path.path.len() == 0 {
            Seq::empty()
        } else {
            upper_camel_case(path.path.last())
        }
    }

    /// The Rust path of the type at `path`. The first extern entry that matches
    /// decides. Without one, a type of this resolver's package is named from
    /// that package's module, and any other type through `super` up to the root
    /// and down through its own package; modules are in snake case, the type in
    /// upper camel case.
    pub open spec fn rust_type(self, path: TypePathView) -> Seq<char> {
        match extern_type(self.extern_types, path) {
            Some(found) => found,
            None => qualified(
                self.supers(path),
                snake_cases(self.modules(path)),
                self.leaf_name(path),
            ),
        }
    }

    /// The Rust type of a field's value.
    pub open spec fn field_type(self, field_type: FieldTypeView) -> Seq<char>
        decreases field_type,
    {
        match field_type {
            FieldTypeView::Scalar(scalar) => scalar.rust_type_text(),
            FieldTypeView::Enum(path) => self.rust_type(path),
            FieldTypeView::Message(path) => self.rust_type(path),
            FieldTypeView::MapOf(key, value) => "std::collections::HashMap<"@
                + key.rust_type_text() + ", "@ + self.field_type(*value) + ">"@,
        }
    }
}

/// The segments of `segments` from index `from` on, each behind a `::`.
pub fn write_path_tail(segments: &Vec<String>, from: usize) -> (text: String)
    requires
        from <= segments.len(),
    ensures
        text@ == path_tail(segments.deep_view().skip(from as int)),
{
    let mut text = String::new();
    let mut i: usize = from;
    let ghost all = segments.deep_view();
    assert(all.subrange(from as int, from as int) == Seq::<Seq<char>>::empty());
    while i < segments.len()
        invariant
            from <= i <= segments.len(),
            all == segments.deep_view(),
            text@ == path_tail(all.subrange(from as int, i as int)),
        decreases segments.len() - i,
    {
        assert(all.subrange(from as int, i + 1).drop_last() == all.subrange(
            from as int,
            i as int,
        ));
        text.append("::");
        text.append(segments[i].as_str());
        i += 1;
    }
    assert(all.subrange(from as int, segments.len() as int) == all.skip(from as int));
    text
}

/// Writes the path that climbs `supers` modules, descends through `modules` and
/// ends in `name`.
pub fn write_qualified(supers: usize, modules: &Vec<String>, name: &str) -> (text: String)
    ensures
        text@ == qualified(supers as nat, modules.deep_view(), name@),
{
    let mut text = String::new();
    let mut i: usize = 0;
    while i < supers
        invariant
            i <= supers,
            text@ == repeated("super::"@, i as nat),
        decreases supers - i,
    {
        text.append("super::");
        i += 1;
    }
    let ghost climbed = text@;
    let ghost all = modules.deep_view();
    let mut j: usize = 0;
    assert(all.take(0) == Seq::<Seq<char>>::empty());
    assert(climbed + Seq::<char>::empty() == climbed);
    while j < modules.len()
        invariant
            j <= modules.len(),
            all == modules.deep_view(),
            text@ == climbed + module_prefix(all.take(j as int)),
        decreases modules.len() - j,
    {
        assert(all.take(j + 1).drop_last() == all.take(j as int));
        let ghost before = text@;
        text.append(modules[j].as_str());
        text.append("::");
        assert(text@ == climbed + module_prefix(all.take(j + 1))) by {
            assert(text@ == before + all[j as int] + "::"@);
            assert(module_prefix(all.take(j + 1)) == module_prefix(all.take(j as int))
                + all[j as int] + "::"@);
        }
        j += 1;
    }
    assert(all.take(modules.len() as int) == all);
    text.append(name);
    text
}

/// Each name of `names` in snake case.
pub fn to_snake_cases(names: &Vec<String>) -> (converted: Vec<String>)
    ensures
        converted.deep_view() == snake_cases(names.deep_view()),
{
    let mut converted: Vec<String> = Vec::new();
    let mut i: usize = 0;
    while i < names.len()
        invariant
            i <= names.len(),
            converted.deep_view() == snake_cases(names.deep_view().take(i as int)),
        decreases names.len() - i,
    {
        let ghost before = converted;
        let item = to_snake_case(names[i].as_str());
        converted.push(item);
        proof {
            lemma_deep_view_push(before, converted, item);
            assert(snake_cases(names.deep_view().take(i + 1)) == snake_cases(
                names.deep_view().take(i as int),
            ).push(item@));
        }
        i += 1;
    }
    assert(names.deep_view().take(names.len() as int) == names.deep_view());
    converted
}

/// Names the Rust types of one package's generated code.
#[derive(Debug)]
pub struct Resolver<'a> {
    /// Protocol Buffers prefixes with the Rust paths that stand for them; the
    /// first that matches wins.
    pub extern_types: &'a Vec<(String, String)>,
    /// The package whose code is generated.
    pub package: &'a Package,
    /// Whether enum variants keep the enum's name as a prefix.
    pub retain_enum_prefix: bool,
}

impl<'a> View for Resolver<'a> {
    type V = ResolverView;

    open spec fn view(&self) -> ResolverView {
        ResolverView {
            extern_types: self.extern_types.deep_view(),
            package: self.package@,
            retain_enum_prefix: self.retain_enum_prefix,
        }
    }
}

impl<'a> Resolver<'a> {
    /// A resolver for the code of `package`.
    pub fn new(
        extern_types: &'a Vec<(String, String)>,
        package: &'a Package,
        retain_enum_prefix: bool,
    ) -> (resolver: Self)
        ensures
            resolver@ == (ResolverView {
                extern_types: extern_types.deep_view(),
                package: package@,
                retain_enum_prefix,
            }),
    {
        Resolver { extern_types, package, retain_enum_prefix }
    }

    /// Whether enum variants keep the enum's name as a prefix.
    pub fn retain_enum_prefix(&self) -> (retain: bool)
        ensures
            retain == self@.retain_enum_prefix,
    {
        self.retain_enum_prefix
    }

    /// The Rust path that the extern entries give to `path`, where one matches.
    pub fn extern_type(&self, path: &TypePath) -> (found: Option<String>)
        ensures
            found.deep_view() == extern_type(self@.extern_types, path@),
    {
        let ghost table = self.extern_types.deep_view();
        let mut i: usize = 0;
        assert(table.skip(0) == table);
        while i < self.extern_types.len()
            invariant
                i <= self.extern_types.len(),
                table == self.extern_types.deep_view(),
                extern_type(table, path@) == extern_type(table.skip(i as int), path@),
            decreases self.extern_types.len() - i,
        {
            let ghost rest = table.skip(i as int);
            assert(rest.drop_first() == table.skip(i + 1));
            assert(rest.first() == table[i as int]);
            let entry = &self.extern_types[i];
            assert(entry.deep_view() == table[i as int]);
            match path.prefix_match(entry.0.as_str()) {
                Some(n) => {
                    let segments = path.segments();
                    let mut text = entry.1.clone();
                    let tail = write_path_tail(&segments, n);
                    text.append(tail.as_str());
                    return Some(text);
                },
                None => {},
            }
            i += 1;
        }
        None
    }

    /// The Rust path of the type at `path`.
    pub fn rust_type(&self, path: &TypePath) -> (text: String)
        ensures
            text@ == self@.rust_type(path@),
    {
        match self.extern_type(path) {
            Some(found) => {
                return found;
            },
            None => {},
        }
        let same = path.package.same_as(self.package);
        let supers: usize = if same {
            0
        } else {
            self.package.path().len()
        };
        let mut modules: Vec<String> = if same {
            Vec::new()
        } else {
            path.package.path()
        };
        proof {
            if same {
                lemma_deep_view_empty(modules);
            }
        }
        let ghost outer = modules.deep_view();
        let count = path.path.len();
        let mut i: usize = 0;
        assert(path@.path.take(0) == Seq::<Seq<char>>::empty());
        assert(outer + Seq::<Seq<char>>::empty() == outer);
        while i + 1 < count
            invariant
                count == path.path.len(),
                i <= count,
                count == 0 ==> i == 0,
                count > 0 ==> i < count,
                modules.deep_view() == outer + path@.path.take(i as int),
            decreases count - i,
        {
            let ghost before = modules;
            let item = path.path[i].clone();
            modules.push(item);
            proof {
                lemma_deep_view_push(before, modules, item);
                assert(path@.path.take(i + 1) == path@.path.take(i as int).push(item@));
            }
            i += 1;
        }
        proof {
            if count > 0 {
                assert(path@.path.take(i as int) == path@.path.drop_last());
            }
            assert(modules.deep_view() == self@.modules(path@));
        }
        let name = if count == 0 {
            String::new()
        } else {
            to_upper_camel_case(path.path[count - 1].as_str())
        };
        let converted = to_snake_cases(&modules);
        write_qualified(supers, &converted, name.as_str())
    }

    /// The Rust type of a field's value.
    pub fn field_type(&self, field_type: &FieldType) -> (text: String)
        ensures
            text@ == self@.field_type(field_type@),
        decreases field_type,
    {
        match field_type {
            FieldType::Scalar(scalar) => String::from_str(scalar.rust_type()),
            FieldType::Enum(path) => self.rust_type(path),
            FieldType::Message(path) => self.rust_type(path),
            FieldType::MapOf(key, value) => {
                let mut text = String::from_str("std::collections::HashMap<");
                text.append(key.rust_type());
                text.append(", ");
                let inner = self.field_type(value);
                text.append(inner.as_str());
                text.append(">");
                text
            },
        }
    }
}

} // verus!
