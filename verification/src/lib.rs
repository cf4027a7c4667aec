//! Generation of `jsonrpsee` service traits from Protocol Buffers descriptors.
//!
//! A [`Builder`] collects decoded schema files and options, and
//! [`Builder::generate`] gives, for each package among the selected types, the
//! text of one trait for each of its services.

use crate::descriptor::{
    file_entries, set_entries, Descriptor, DescriptorSet, DescriptorView, EntryView,
    FileDescriptor, FileDescriptorSet, Package, TypePath, TypePathView,
};
use crate::generator::service::{generate_service, service_text};
use crate::message::{
    first_dangling, first_dangling_reference, resolve_service, resolved_service,
};
use crate::resolver::{Resolver, ResolverView};
use crate::text::{lemma_deep_view_empty, lemma_deep_view_push};
use vstd::prelude::*;

pub mod descriptor;
pub mod generator;
pub mod message;
pub mod naming;
pub mod proofs;
pub mod resolver;
pub mod text;

verus! {

/// Whether code is generated for the type at `path`: some prefix of `prefixes`
/// matches it, and none of `exclude`.
pub open spec fn is_selected(
    path: TypePathView,
    prefixes: Seq<Seq<char>>,
    exclude: Seq<Seq<char>>,
) -> bool {
    path.matches_any(prefixes) && !path.matches_any(exclude)
}

/// The selected entries of a registry, in its order.
pub open spec fn selection(
    entries: Seq<EntryView>,
    prefixes: Seq<Seq<char>>,
    exclude: Seq<Seq<char>>,
) -> Seq<EntryView>
    decreases entries.len(),
{
    if entries.len() == 0 {
        Seq::empty()
    } else if is_selected(entries.last().0, prefixes, exclude) {
        selection(entries.drop_last(), prefixes, exclude).push(entries.last())
    } else {
        selection(entries.drop_last(), prefixes, exclude)
    }
}

/// The output for one package: its name, and the generated text.
pub type GroupView = (Seq<char>, Seq<char>);

/// The name of the file that holds the code generated for `package`.
pub open spec fn file_name(package: Seq<char>) -> Seq<char> {
    package + ".jsonrpc.rs"@
}

/// What a builder holds.
#[verifier::ext_equal]
pub struct BuilderView {
    pub descriptors: Seq<EntryView>,
    pub exclude: Seq<Seq<char>>,
    pub out_dir: Option<Seq<char>>,
    pub extern_paths: Seq<(Seq<char>, Seq<char>)>,
    pub retain_enum_prefix: bool,
    pub unfold_args: bool,
}

impl BuilderView {
    /// The resolver used for the code of `package`.
    pub open spec fn resolver(self, package: Seq<char>) -> ResolverView {
        ResolverView {
            extern_types: self.extern_paths,
            package,
            retain_enum_prefix: self.retain_enum_prefix,
        }
    }

    /// The text that one entry adds to its package's output: for a service
    /// whose methods all resolve, its trait for server and client; nothing for a
    /// service that refers to a type that is not registered, nor for a message
    /// or an enum.
    pub open spec fn entry_text(self, entry: EntryView) -> Seq<char> {
        match entry.1 {
            DescriptorView::Service { methods } => match resolved_service(
                self.descriptors,
                entry.0,
                methods,
            ) {
                Some(service) => service_text(
                    self.resolver(entry.0.package),
                    service,
                    self.unfold_args,
                    true,
                    true,
                ),
                None => Seq::empty(),
            },
            _ => Seq::empty(),
        }
    }

    /// The output for `entries`: neighbours of one package share a group, which
    /// holds their texts one after another; an entry of another package than
    /// the one before it starts a new group.
    pub open spec fn grouped(self, entries: Seq<EntryView>) -> Seq<GroupView>
        decreases entries.len(),
    {
        if entries.len() == 0 {
            Seq::empty()
        } else {
            let before = self.grouped(entries.drop_last());
            let entry = entries.last();
            if before.len() > 0 && before.last().0 == entry.0.package {
                before.drop_last().push(
                    (before.last().0, before.last().1 + self.entry_text(entry)),
                )
            } else {
                before.push((entry.0.package, self.entry_text(entry)))
            }
        }
    }

    /// The services among `entries` that are left out because one of their
    /// methods names a type which the registry does not hold as a message, each
    /// with that method and that type, in order.
    pub open spec fn skipped(self, entries: Seq<EntryView>) -> Seq<SkippedView>
        decreases entries.len(),
    {
        if entries.len() == 0 {
            Seq::empty()
        } else {
            let before = self.skipped(entries.drop_last());
            match entries.last().1 {
                DescriptorView::Service { methods } => match first_dangling(
                    self.descriptors,
                    methods,
                ) {
                    Some(dangling) => before.push(
                        SkippedView {
                            service: entries.last().0,
                            method: dangling.method,
                            missing: dangling.missing,
                        },
                    ),
                    None => before,
                },
                _ => before,
            }
        }
    }

    /// What `generate` gives for the prefixes `prefixes`.
    pub open spec fn generated(self, prefixes: Seq<Seq<char>>) -> Seq<GroupView> {
        self.grouped(selection(self.descriptors, prefixes, self.exclude))
    }
}

/// What a skipped service says.
#[verifier::ext_equal]
pub struct SkippedView {
    pub service: TypePathView,
    pub method: Seq<char>,
    pub missing: Seq<char>,
}

/// A selected service for which nothing is written: its path, the declared
/// name of its first method that names a type which the registry does not hold
/// as a message, and the name of that type.
#[derive(Debug, PartialEq, Eq)]
pub struct Skipped {
    pub service: TypePath,
    pub method: String,
    pub missing: String,
}

impl View for Skipped {
    type V = SkippedView;

    open spec fn view(&self) -> SkippedView {
        SkippedView { service: self.service@, method: self.method@, missing: self.missing@ }
    }
}

impl DeepView for Skipped {
    type V = SkippedView;

    open spec fn deep_view(&self) -> SkippedView {
        self@
    }
}

/// Why no code could be written.
#[derive(Debug, Clone, Copy, PartialEq, Eq, Structural)]
pub enum Error {
    /// No output directory was configured, and none was offered in its place.
    MissingOutDir,
}

impl Error {
    /// The error in words.
    pub fn message(&self) -> (text: String)
        ensures
            text@ == "no output directory is set"@,
    {
        String::from_str("no output directory is set")
    }
}

/// Collects schema files and options, and generates the service traits.
#[derive(Debug)]
pub struct Builder {
    descriptors: DescriptorSet,
    exclude: Vec<String>,
    out_dir: Option<String>,
    extern_paths: Vec<(String, String)>,
    retain_enum_prefix: bool,
    unfold_args: bool,
}

impl View for Builder {
    type V = BuilderView;

    closed spec fn view(&self) -> BuilderView {
        BuilderView {
            descriptors: self.descriptors@,
            exclude: self.exclude.deep_view(),
            out_dir: self.out_dir.deep_view(),
            extern_paths: self.extern_paths.deep_view(),
            retain_enum_prefix: self.retain_enum_prefix,
            unfold_args: self.unfold_args,
        }
    }
}

/// The group that is still being written, if any, as a list.
pub open spec fn pending(current: Option<(Package, String)>) -> Seq<GroupView> {
    match current {
        Some(group) => seq![(group.0@, group.1@)],
        None => Seq::empty(),
    }
}

impl Default for Builder {
    fn default() -> (builder: Self)
        ensures
            builder@ == (BuilderView {
                descriptors: Seq::empty(),
                exclude: Seq::empty(),
                out_dir: None,
                extern_paths: Seq::empty(),
                retain_enum_prefix: false,
                unfold_args: false,
            }),
    {
        Builder::new()
    }
}

impl Builder {
    /// A builder with nothing registered and every option off.
    pub fn new() -> (builder: Self)
        ensures
            builder@ == (BuilderView {
                descriptors: Seq::empty(),
                exclude: Seq::empty(),
                out_dir: None,
                extern_paths: Seq::empty(),
                retain_enum_prefix: false,
                unfold_args: false,
            }),
    {
        let exclude: Vec<String> = Vec::new();
        let extern_paths: Vec<(String, String)> = Vec::new();
        proof {
            lemma_deep_view_empty(exclude);
            lemma_deep_view_empty(extern_paths);
        }
        Builder {
            descriptors: DescriptorSet::new(),
            exclude,
            out_dir: None,
            extern_paths,
            retain_enum_prefix: false,
            unfold_args: false,
        }
    }

    /// Sets the directory where the generated files are written.
    pub fn out_dir(&mut self, path: &str) -> (builder: &mut Self)
        ensures
            builder@ == (BuilderView { out_dir: Some(path@), ..old(self)@ }),
            *final(self) == *final(builder),
    {
        self.out_dir = Some(String::from_str(path));
        self
    }

    /// Registers every file of a decoded descriptor set, in order.
    pub fn register_descriptors(&mut self, descriptors: FileDescriptorSet) -> (builder: &mut Self)
        ensures
            builder@ == (BuilderView {
                descriptors: old(self)@.descriptors + set_entries(descriptors@),
                ..old(self)@
            }),
            *final(self) == *final(builder),
    {
        self.descriptors.register_descriptors(descriptors);
        self
    }

    /// Registers every type that a decoded schema file declares.
    pub fn register_file_descriptor(&mut self, file: FileDescriptor) -> (builder: &mut Self)
        ensures
            builder@ == (BuilderView {
                descriptors: old(self)@.descriptors + file_entries(file@),
                ..old(self)@
            }),
            *final(self) == *final(builder),
    {
        self.descriptors.register_file_descriptor(file);
        self
    }

    /// Adds prefixes of types for which no code is generated.
    pub fn exclude(&mut self, prefixes: Vec<String>) -> (builder: &mut Self)
        ensures
            builder@ == (BuilderView {
                exclude: old(self)@.exclude + prefixes.deep_view(),
                ..old(self)@
            }),
            *final(self) == *final(builder),
    {
        let mut prefixes = prefixes;
        let ghost added = prefixes.deep_view();
        let ghost before = self.exclude.deep_view();
        self.exclude.append(&mut prefixes);
        assert(self.exclude.deep_view() == before + added);
        self
    }

    /// Keeps the enum's name as a prefix of its variants' names.
    pub fn retain_enum_prefix(&mut self) -> (builder: &mut Self)
        ensures
            builder@ == (BuilderView { retain_enum_prefix: true, ..old(self)@ }),
            *final(self) == *final(builder),
    {
        self.retain_enum_prefix = true;
        self
    }

    /// Declares that the package or type `proto_path` is provided elsewhere,
    /// under the Rust path `rust_path`. Of several entries that match a type,
    /// the one declared first decides.
    pub fn extern_path(&mut self, proto_path: &str, rust_path: &str) -> (builder: &mut Self)
        ensures
            builder@ == (BuilderView {
                extern_paths: old(self)@.extern_paths.push((proto_path@, rust_path@)),
                ..old(self)@
            }),
            *final(self) == *final(builder),
    {
        let ghost before = self.extern_paths;
        let entry = (String::from_str(proto_path), String::from_str(rust_path));
        self.extern_paths.push(entry);
        proof {
            lemma_deep_view_push(before, self.extern_paths, entry);
        }
        self
    }

    /// Passes the fields of a method's input as separate arguments.
    pub fn unfold_args(&mut self) -> (builder: &mut Self)
        ensures
            builder@ == (BuilderView { unfold_args: true, ..old(self)@ }),
            *final(self) == *final(builder),
    {
        self.unfold_args = true;
        self
    }

    /// The directory to write to: the one configured, else `fallback`; an error
    /// where there is neither.
    pub fn output_dir(&self, fallback: Option<String>) -> (dir: Result<String, Error>)
        ensures
            match self@.out_dir {
                Some(configured) => dir.is_ok() && dir.unwrap()@ == configured,
                None => match fallback {
                    Some(given) => dir.is_ok() && dir.unwrap()@ == given@,
                    None => dir == Err::<String, Error>(Error::MissingOutDir),
                },
            },
    {
        match &self.out_dir {
            Some(configured) => Ok(configured.clone()),
            None => match fallback {
                Some(given) => Ok(given),
                None => Err(Error::MissingOutDir),
            },
        }
    }

    /// The name of the file that holds the code generated for `package`.
    pub fn file_name(package: &Package) -> (name: String)
        ensures
            name@ == file_name(package@),
    {
        let mut name = String::from_str(package.name());
        name.append(".jsonrpc.rs");
        name
    }

    /// Generates the code for every registered type that a prefix of `prefixes`
    /// matches and no excluded prefix does. The result holds one group for each
    /// run of neighbouring selected types of one package, in the order of the
    /// registry, with the package and the text generated for it: the trait of
    /// each service whose methods all resolve, for server and client.
    pub fn generate(&self, prefixes: &Vec<String>) -> (groups: Vec<(Package, String)>)
        ensures
            groups.deep_view() == self@.generated(prefixes.deep_view()),
    {
        let ghost entries = self@.descriptors;
        let ghost wanted = prefixes.deep_view();
        let ghost exclude = self@.exclude;
        let mut groups: Vec<(Package, String)> = Vec::new();
        let mut current: Option<(Package, String)> = None;
        let mut i: usize = 0;
        proof {
            lemma_deep_view_empty(groups);
            assert(entries.take(0) == Seq::<EntryView>::empty());
            assert(groups.deep_view() + pending(current) == Seq::<GroupView>::empty());
        }
        while i < self.descriptors.len()
            invariant
                i <= entries.len(),
                entries == self@.descriptors,
                entries == self.descriptors@,
                wanted == prefixes.deep_view(),
                exclude == self@.exclude,
                exclude == self.exclude.deep_view(),
                current is None ==> groups@.len() == 0,
                self@.grouped(selection(entries.take(i as int), wanted, exclude))
                    == groups.deep_view() + pending(current),
            decreases entries.len() - i,
        {
            let ghost chosen = selection(entries.take(i as int), wanted, exclude);
            assert(entries.take(i + 1).drop_last() == entries.take(i as int));
            assert(entries.take(i + 1).last() == entries[i as int]);
            let (type_path, descriptor) = self.descriptors.get(i);
            if type_path.matches_any(prefixes) && !type_path.matches_any(&self.exclude) {
                assert(chosen.push(entries[i as int]).drop_last() == chosen);
                let ghost done = groups.deep_view();
                let ghost held = groups;
                let ghost open = current;
                let mut text = String::new();
                let mut package = type_path.package().clone();
                match current {
                    Some(group) => {
                        if group.0.same_as(type_path.package()) {
                            package = group.0;
                            text = group.1;
                            proof {
                                assert((done + pending(open)).drop_last() == done);
                            }
                        } else {
                            groups.push(group);
                            proof {
                                lemma_deep_view_push(held, groups, group);
                                assert(groups.deep_view() == done + pending(open));
                            }
                        }
                    },
                    None => {
                        assert(done + pending(open) == Seq::<GroupView>::empty());
                    },
                }
                let ghost start = text@;
                let resolver = Resolver::new(
                    &self.extern_paths,
                    type_path.package(),
                    self.retain_enum_prefix,
                );
                assert(resolver@ == self@.resolver(entries[i as int].0.package));
                match descriptor {
                    Descriptor::Service(service) => {
                        match resolve_service(&self.descriptors, type_path, service) {
                            Some(resolved) => {
                                generate_service(
                                    &resolver,
                                    &resolved,
                                    &mut text,
                                    self.unfold_args,
                                    true,
                                    true,
                                );
                            },
                            None => {},
                        }
                    },
                    _ => {},
                }
                assert(text@ == start + self@.entry_text(entries[i as int]));
                current = Some((package, text));
            }
            i += 1;
        }
        assert(entries.take(entries.len() as int) == entries);
        match current {
            Some(group) => {
                let ghost held = groups;
                groups.push(group);
                proof {
                    lemma_deep_view_push(held, groups, group);
                }
            },
            None => {},
        }
        groups
    }

    /// The selected services for which `generate` writes nothing, each with the
    /// reason, in the order of the registry.
    pub fn skipped_services(&self, prefixes: &Vec<String>) -> (skipped: Vec<Skipped>)
        ensures
            skipped.deep_view() == self@.skipped(
                selection(self@.descriptors, prefixes.deep_view(), self@.exclude),
            ),
    {
        let ghost entries = self@.descriptors;
        let ghost wanted = prefixes.deep_view();
        let ghost exclude = self@.exclude;
        let mut skipped: Vec<Skipped> = Vec::new();
        let mut i: usize = 0;
        proof {
            lemma_deep_view_empty(skipped);
            assert(entries.take(0) == Seq::<EntryView>::empty());
        }
        while i < self.descriptors.len()
            invariant
                i <= entries.len(),
                entries == self@.descriptors,
                entries == self.descriptors@,
                wanted == prefixes.deep_view(),
                exclude == self@.exclude,
                exclude == self.exclude.deep_view(),
                skipped.deep_view() == self@.skipped(
                    selection(entries.take(i as int), wanted, exclude),
                ),
            decreases entries.len() - i,
        {
            let ghost chosen = selection(entries.take(i as int), wanted, exclude);
            assert(entries.take(i + 1).drop_last() == entries.take(i as int));
            assert(entries.take(i + 1).last() == entries[i as int]);
            let (type_path, descriptor) = self.descriptors.get(i);
            if type_path.matches_any(prefixes) && !type_path.matches_any(&self.exclude) {
                assert(chosen.push(entries[i as int]).drop_last() == chosen);
                if let Descriptor::Service(service) = descriptor {
                    if let Some(dangling) = first_dangling_reference(&self.descriptors, service) {
                        let ghost before = skipped;
                        let item = Skipped {
                            service: type_path.clone(),
                            method: dangling.method,
                            missing: dangling.missing,
                        };
                        skipped.push(item);
                        proof {
                            lemma_deep_view_push(before, skipped, item);
                        }
                    }
                }
            }
            i += 1;
        }
        assert(entries.take(entries.len() as int) == entries);
        skipped
    }
}

} // verus!
