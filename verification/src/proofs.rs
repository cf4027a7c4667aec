//! What holds of the output of [`Builder::generate`](crate::Builder::generate),
//! over its model [`BuilderView::generated`].

use crate::descriptor::{
    enum_entries, file_entries, message_entries, messages_entries, service_entries, set_entries,
    DescriptorView, EntryView, FileDescriptorView, MessageDeclarationView, TypePathView,
};
use crate::message::{lemma_dangling_iff_unresolved, resolved_service};
use crate::descriptor::Package;
use crate::{is_selected, selection, Builder, BuilderView, GroupView};
use vstd::prelude::*;
use vstd::utf8::encode_utf8;

verus! {

/// The packages of a list of groups, in its order.
pub open spec fn group_packages(groups: Seq<GroupView>) -> Seq<Seq<char>> {
    Seq::new(groups.len(), |i: int| groups[i].0)
}

/// The texts of a list of groups, in its order.
pub open spec fn group_texts(groups: Seq<GroupView>) -> Seq<Seq<char>> {
    Seq::new(groups.len(), |i: int| groups[i].1)
}

/// The packages of a list of entries, in its order.
pub open spec fn entry_packages(entries: Seq<EntryView>) -> Seq<Seq<char>> {
    Seq::new(entries.len(), |i: int| entries[i].0.package)
}

/// The texts that the entries of a list add, in its order.
pub open spec fn entry_texts(builder: BuilderView, entries: Seq<EntryView>) -> Seq<Seq<char>> {
    Seq::new(entries.len(), |i: int| builder.entry_text(entries[i]))
}

/// Whether the entries of each package stand together: between two entries of
/// one package there is none of another.
pub open spec fn contiguous(entries: Seq<EntryView>) -> bool {
    forall|i: int, j: int, k: int|
        0 <= i < j < k < entries.len() && (#[trigger] entries[i]).0.package == (
        #[trigger] entries[k]).0.package ==> (#[trigger] entries[j]).0.package
            == entries[i].0.package
}

/// Where each selected entry stands in the registry: the positions rise, so
/// the selected entries are entries of the registry, each taken once and in the
/// registry's order.
pub proof fn lemma_selection_positions(
    entries: Seq<EntryView>,
    prefixes: Seq<Seq<char>>,
    exclude: Seq<Seq<char>>,
) -> (at: Seq<int>)
    ensures
        at.len() == selection(entries, prefixes, exclude).len(),
        forall|a: int|
            0 <= a < at.len() ==> 0 <= #[trigger] at[a] < entries.len() && entries[at[a]]
                == selection(entries, prefixes, exclude)[a] && is_selected(
                entries[at[a]].0,
                prefixes,
                exclude,
            ),
        forall|a: int, b: int| 0 <= a < b < at.len() ==> #[trigger] at[a] < #[trigger] at[b],
    decreases entries.len(),
{
    if entries.len() == 0 {
        Seq::empty()
    } else {
        let before = lemma_selection_positions(entries.drop_last(), prefixes, exclude);
        if is_selected(entries.last().0, prefixes, exclude) {
            before.push(entries.len() - 1)
        } else {
            before
        }
    }
}

/// Every entry of the registry that is selected stands among the selected
/// entries.
pub proof fn lemma_selected_entry_is_kept(
    entries: Seq<EntryView>,
    prefixes: Seq<Seq<char>>,
    exclude: Seq<Seq<char>>,
    i: int,
)
    requires
        0 <= i < entries.len(),
        is_selected(entries[i].0, prefixes, exclude),
    ensures
        selection(entries, prefixes, exclude).contains(entries[i]),
    decreases entries.len(),
{
    let kept = selection(entries, prefixes, exclude);
    if i == entries.len() - 1 {
        assert(kept[kept.len() - 1] == entries[i]);
    } else {
        lemma_selected_entry_is_kept(entries.drop_last(), prefixes, exclude, i);
        let before = selection(entries.drop_last(), prefixes, exclude);
        let a = choose|a: int| 0 <= a < before.len() && before[a] == entries.drop_last()[i];
        assert(kept[a] == entries[i]);
    }
}

/// Where the entries of each package stand together in the registry, they do
/// so among the selected entries.
pub proof fn lemma_selection_stays_contiguous(
    entries: Seq<EntryView>,
    prefixes: Seq<Seq<char>>,
    exclude: Seq<Seq<char>>,
)
    requires
        contiguous(entries),
    ensures
        contiguous(selection(entries, prefixes, exclude)),
{
    let kept = selection(entries, prefixes, exclude);
    let at = lemma_selection_positions(entries, prefixes, exclude);
    assert forall|i: int, j: int, k: int|
        0 <= i < j < k < kept.len() && (#[trigger] kept[i]).0.package == (
        #[trigger] kept[k]).0.package implies (#[trigger] kept[j]).0.package
        == kept[i].0.package by {
        assert(at[i] < at[j] < at[k]);
        assert(entries[at[i]].0.package == entries[at[k]].0.package);
        assert(entries[at[j]].0.package == entries[at[i]].0.package);
    }
}

/// Of entries whose packages stand together, the groups have pairwise
/// different packages, which are those of the entries, and the last group is
/// that of the last entry.
pub proof fn lemma_grouped_packages(builder: BuilderView, entries: Seq<EntryView>)
    requires
        contiguous(entries),
    ensures
        group_packages(builder.grouped(entries)).no_duplicates(),
        forall|package: Seq<char>|
            group_packages(builder.grouped(entries)).contains(package) <==> entry_packages(
                entries,
            ).contains(package),
        entries.len() > 0 ==> builder.grouped(entries).len() > 0 && builder.grouped(
            entries,
        ).last().0 == entries.last().0.package,
    decreases entries.len(),
{
    let after = builder.grouped(entries);
    let names = group_packages(after);
    let packages = entry_packages(entries);
    if entries.len() == 0 {
        assert(names.len() == 0);
        assert(packages.len() == 0);
    } else {
        let earlier = entries.drop_last();
        let entry = entries.last();
        let last = entries.len() - 1;
        assert forall|i: int, j: int, k: int|
            0 <= i < j < k < earlier.len() && (#[trigger] earlier[i]).0.package == (
            #[trigger] earlier[k]).0.package implies (#[trigger] earlier[j]).0.package
            == earlier[i].0.package by {
            assert(entries[i].0.package == entries[k].0.package);
            assert(entries[j].0.package == entries[i].0.package);
        }
        lemma_grouped_packages(builder, earlier);
        let before = builder.grouped(earlier);
        let names_before = group_packages(before);
        let packages_before = entry_packages(earlier);
        assert(packages.drop_last() == packages_before);
        assert(packages.last() == entry.0.package);
        assert forall|package: Seq<char>|
            packages.contains(package) <==> (packages_before.contains(package) || package
                == entry.0.package) by {
            if packages.contains(package) {
                let i = choose|i: int| 0 <= i < packages.len() && packages[i] == package;
                if i < last {
                    assert(packages_before[i] == package);
                }
            }
            if packages_before.contains(package) {
                let i = choose|i: int|
                    0 <= i < packages_before.len() && packages_before[i] == package;
                assert(packages[i] == package);
            }
            if package == entry.0.package {
                assert(packages[last] == package);
            }
        }
        if before.len() > 0 && before.last().0 == entry.0.package {
            assert(names == names_before);
            assert(names_before[names_before.len() - 1] == entry.0.package);
            assert(names_before.contains(entry.0.package));
        } else {
            assert(names == names_before.push(entry.0.package));
            if names_before.contains(entry.0.package) {
                assert(packages_before.contains(entry.0.package));
                let i = choose|i: int|
                    0 <= i < packages_before.len() && packages_before[i] == entry.0.package;
                assert(before.last().0 == earlier.last().0.package);
                assert(i < last - 1);
                assert(entries[i].0.package == entries[last].0.package);
                assert(entries[last - 1].0.package == entries[i].0.package);
                assert(false);
            }
            assert forall|package: Seq<char>|
                names.contains(package) <==> (names_before.contains(package) || package
                    == entry.0.package) by {
                if names.contains(package) {
                    let i = choose|i: int| 0 <= i < names.len() && names[i] == package;
                    if i < names_before.len() {
                        assert(names_before[i] == package);
                    }
                }
                if names_before.contains(package) {
                    let i = choose|i: int|
                        0 <= i < names_before.len() && names_before[i] == package;
                    assert(names[i] == package);
                }
                if package == entry.0.package {
                    assert(names[names.len() - 1] == package);
                }
            }
        }
    }
}

/// There are as many groups in the output as there are different packages
/// among the selected entries, provided that the selected entries of each
/// package stand together in the registry.
pub proof fn lemma_one_group_per_package(builder: BuilderView, prefixes: Seq<Seq<char>>)
    requires
        contiguous(selection(builder.descriptors, prefixes, builder.exclude)),
    ensures
        builder.generated(prefixes).len() == entry_packages(
            selection(builder.descriptors, prefixes, builder.exclude),
        ).to_set().len(),
{
    let kept = selection(builder.descriptors, prefixes, builder.exclude);
    let names = group_packages(builder.generated(prefixes));
    lemma_grouped_packages(builder, kept);
    names.unique_seq_to_set();
    assert(names.to_set() =~= entry_packages(kept).to_set());
}

/// Generating twice from the same registry, options and prefixes gives the
/// same groups for the same packages, and in each the same text, byte for
/// byte.
pub proof fn lemma_generate_is_repeatable(
    builder: Builder,
    prefixes: Vec<String>,
    first: Vec<(Package, String)>,
    second: Vec<(Package, String)>,
)
    requires
        first.deep_view() == builder@.generated(prefixes.deep_view()),
        second.deep_view() == builder@.generated(prefixes.deep_view()),
    ensures
        first.len() == second.len(),
        forall|i: int|
            0 <= i < first.len() ==> {
                &&& (#[trigger] first[i]).0@ == second[i].0@
                &&& first[i].1@ == second[i].1@
                &&& encode_utf8(first[i].1@) == encode_utf8(second[i].1@)
            },
{
    assert(first.deep_view().len() == first.len());
    assert(second.deep_view().len() == second.len());
    assert forall|i: int| 0 <= i < first.len() implies {
        &&& (#[trigger] first[i]).0@ == second[i].0@
        &&& first[i].1@ == second[i].1@
        &&& encode_utf8(first[i].1@) == encode_utf8(second[i].1@)
    } by {
        assert(first.deep_view()[i] == (first[i].0@, first[i].1@));
        assert(second.deep_view()[i] == (second[i].0@, second[i].1@));
    }
}

/// An entry that an excluded prefix matches adds nothing to the output,
/// whatever else matches it: the output is that of the other entries.
pub proof fn lemma_excluded_entry_is_dropped(
    builder: BuilderView,
    entries: Seq<EntryView>,
    prefixes: Seq<Seq<char>>,
    i: int,
)
    requires
        0 <= i < entries.len(),
        entries[i].0.matches_any(builder.exclude),
    ensures
        selection(entries, prefixes, builder.exclude) == selection(
            entries.remove(i),
            prefixes,
            builder.exclude,
        ),
        builder.grouped(selection(entries, prefixes, builder.exclude)) == builder.grouped(
            selection(entries.remove(i), prefixes, builder.exclude),
        ),
    decreases entries.len(),
{
    if i == entries.len() - 1 {
        assert(entries.remove(i) == entries.drop_last());
    } else {
        lemma_excluded_entry_is_dropped(builder, entries.drop_last(), prefixes, i);
        assert(entries.remove(i).drop_last() == entries.drop_last().remove(i));
        assert(entries.remove(i).last() == entries.last());
    }
}

/// A path matches one of two lists of prefixes put together where it matches
/// one of either.
pub proof fn lemma_matches_any_of_both(
    path: TypePathView,
    prefixes: Seq<Seq<char>>,
    extra: Seq<Seq<char>>,
)
    ensures
        path.matches_any(prefixes + extra) <==> path.matches_any(prefixes) || path.matches_any(
            extra,
        ),
{
    let both = prefixes + extra;
    if path.matches_any(both) {
        let i = choose|i: int|
            0 <= i < both.len() && (#[trigger] path.prefix_match(both[i])) is Some;
        if i < prefixes.len() {
            assert(path.prefix_match(prefixes[i]) is Some);
        } else {
            assert(path.prefix_match(extra[i - prefixes.len()]) is Some);
        }
    }
    if path.matches_any(prefixes) {
        let i = choose|i: int|
            0 <= i < prefixes.len() && (#[trigger] path.prefix_match(prefixes[i])) is Some;
        assert(path.prefix_match(both[i]) is Some);
    }
    if path.matches_any(extra) {
        let i = choose|i: int|
            0 <= i < extra.len() && (#[trigger] path.prefix_match(extra[i])) is Some;
        assert(path.prefix_match(both[i + prefixes.len()]) is Some);
    }
}

/// Prefixes that match only what other prefixes match already change nothing:
/// an entry that several prefixes match is selected once.
pub proof fn lemma_overlapping_prefixes_select_once(
    entries: Seq<EntryView>,
    prefixes: Seq<Seq<char>>,
    extra: Seq<Seq<char>>,
    exclude: Seq<Seq<char>>,
)
    requires
        forall|i: int|
            0 <= i < entries.len() && (#[trigger] entries[i]).0.matches_any(extra)
                ==> entries[i].0.matches_any(prefixes),
    ensures
        selection(entries, prefixes + extra, exclude) == selection(entries, prefixes, exclude),
    decreases entries.len(),
{
    if entries.len() > 0 {
        let earlier = entries.drop_last();
        assert forall|i: int|
            0 <= i < earlier.len() && (#[trigger] earlier[i]).0.matches_any(
                extra,
            ) implies earlier[i].0.matches_any(prefixes) by {
            assert(earlier[i] == entries[i]);
        }
        lemma_overlapping_prefixes_select_once(earlier, prefixes, extra, exclude);
        lemma_matches_any_of_both(entries.last().0, prefixes, extra);
        assert(entries.last() == entries[entries.len() - 1]);
    }
}

/// The output for prefixes that overlap is the output without the overlap: no
/// trait is written twice.
pub proof fn lemma_overlapping_prefixes_generate_once(
    builder: BuilderView,
    prefixes: Seq<Seq<char>>,
    extra: Seq<Seq<char>>,
)
    requires
        forall|i: int|
            0 <= i < builder.descriptors.len() && (#[trigger] builder.descriptors[i]).0.matches_any(
                extra,
            ) ==> builder.descriptors[i].0.matches_any(prefixes),
    ensures
        builder.generated(prefixes + extra) == builder.generated(prefixes),
{
    lemma_overlapping_prefixes_select_once(builder.descriptors, prefixes, extra, builder.exclude);
}

/// A service that names a type which the registry does not hold adds no text.
pub proof fn lemma_dangling_service_adds_nothing(builder: BuilderView, entry: EntryView)
    requires
        entry.1 is Service,
        resolved_service(builder.descriptors, entry.0, entry.1->Service_methods) is None,
    ensures
        builder.entry_text(entry) == Seq::<char>::empty(),
{
}

/// The services reported as skipped are those that add no text for want of a
/// type, and no others: a service is reported exactly where it does not
/// resolve.
pub proof fn lemma_skipped_iff_unresolved(builder: BuilderView, entry: EntryView)
    requires
        entry.1 is Service,
    ensures
        builder.skipped(seq![entry]).len() == 1 <==> resolved_service(
            builder.descriptors,
            entry.0,
            entry.1->Service_methods,
        ) is None,
        builder.skipped(seq![entry]).len() == 0 <==> resolved_service(
            builder.descriptors,
            entry.0,
            entry.1->Service_methods,
        ) is Some,
{
    lemma_dangling_iff_unresolved(builder.descriptors, entry.0, entry.1->Service_methods);
    assert(seq![entry].drop_last() == Seq::<EntryView>::empty());
    assert(builder.skipped(seq![entry].drop_last()).len() == 0);
}

/// The texts of the groups, one after another, are the texts of the entries,
/// one after another: each entry's text stands in the output once and in the
/// registry's order, whatever the entries before it added.
pub proof fn lemma_groups_hold_every_text(builder: BuilderView, entries: Seq<EntryView>)
    ensures
        group_texts(builder.grouped(entries)).flatten() == entry_texts(builder, entries).flatten(),
    decreases entries.len(),
{
    let after = group_texts(builder.grouped(entries));
    let texts = entry_texts(builder, entries);
    if entries.len() == 0 {
        assert(after == Seq::<Seq<char>>::empty());
        assert(texts == Seq::<Seq<char>>::empty());
    } else {
        let earlier = entries.drop_last();
        let before = builder.grouped(earlier);
        let text = builder.entry_text(entries.last());
        lemma_groups_hold_every_text(builder, earlier);
        let all_before = entry_texts(builder, earlier).flatten();
        assert(texts.flatten() == all_before + text) by {
            assert(texts == entry_texts(builder, earlier).push(text));
            entry_texts(builder, earlier).lemma_flatten_push(text);
        }
        if before.len() > 0 && before.last().0 == entries.last().0.package {
            let shorter = group_texts(before).drop_last();
            let open = before.last().1;
            assert(all_before == shorter.flatten() + open) by {
                assert(group_texts(before) == shorter.push(open));
                shorter.lemma_flatten_push(open);
            }
            assert(after.flatten() == shorter.flatten() + (open + text)) by {
                assert(after == shorter.push(open + text));
                shorter.lemma_flatten_push(open + text);
            }
            assert(shorter.flatten() + (open + text) == shorter.flatten() + open + text);
        } else {
            assert(after.flatten() == all_before + text) by {
                assert(after == group_texts(before).push(text));
                group_texts(before).lemma_flatten_push(text);
            }
        }
    }
}

/// Whether every entry of a list is of the package `package`.
pub open spec fn all_of_package(entries: Seq<EntryView>, package: Seq<char>) -> bool {
    forall|i: int| 0 <= i < entries.len() ==> (#[trigger] entries[i]).0.package == package
}

/// Two lists of entries of one package, put together, are of that package.
pub proof fn lemma_all_of_package_together(
    first: Seq<EntryView>,
    second: Seq<EntryView>,
    package: Seq<char>,
)
    requires
        all_of_package(first, package),
        all_of_package(second, package),
    ensures
        all_of_package(first + second, package),
{
    let both = first + second;
    assert forall|i: int| 0 <= i < both.len() implies (#[trigger] both[i]).0.package
        == package by {
        if i < first.len() {
            assert(both[i] == first[i]);
        } else {
            assert(both[i] == second[i - first.len()]);
        }
    }
}

/// Every entry that a message adds is of the package of the path that the
/// message is declared in.
pub proof fn lemma_message_entries_package(parent: TypePathView, message: MessageDeclarationView)
    ensures
        all_of_package(message_entries(parent, message), parent.package),
    decreases message, 1int,
{
    let path = parent.child(message.name);
    let own = seq![
        (path, DescriptorView::Message { fields: message.fields, map_entry: message.map_entry }),
    ];
    lemma_messages_entries_package(path, message.nested);
    lemma_all_of_package_together(own, enum_entries(path, message.enums), parent.package);
    lemma_all_of_package_together(
        own + enum_entries(path, message.enums),
        messages_entries(path, message.nested),
        parent.package,
    );
}

/// Every entry that messages add is of the package of the path that they are
/// declared in.
pub proof fn lemma_messages_entries_package(
    parent: TypePathView,
    messages: Seq<MessageDeclarationView>,
)
    ensures
        all_of_package(messages_entries(parent, messages), parent.package),
    decreases messages, 0int,
{
    if messages.len() > 0 {
        lemma_messages_entries_package(parent, messages.drop_last());
        lemma_message_entries_package(parent, messages.last());
        lemma_all_of_package_together(
            messages_entries(parent, messages.drop_last()),
            message_entries(parent, messages.last()),
            parent.package,
        );
    }
}

/// Every entry that a schema file adds is of the file's package, so the
/// entries of one file stand together.
pub proof fn lemma_file_entries_stand_together(file: FileDescriptorView)
    ensures
        all_of_package(file_entries(file), file.package),
        contiguous(file_entries(file)),
{
    let root = TypePathView { package: file.package, path: Seq::empty() };
    lemma_messages_entries_package(root, file.messages);
    lemma_all_of_package_together(
        messages_entries(root, file.messages),
        enum_entries(root, file.enums),
        file.package,
    );
    lemma_all_of_package_together(
        messages_entries(root, file.messages) + enum_entries(root, file.enums),
        service_entries(root, file.services),
        file.package,
    );
}

/// Whether the files of each package stand together in a set: between two
/// files of one package there is none of another.
pub open spec fn files_stand_together(files: Seq<FileDescriptorView>) -> bool {
    forall|i: int, j: int, k: int|
        0 <= i < j < k < files.len() && (#[trigger] files[i]).package == (
        #[trigger] files[k]).package ==> (#[trigger] files[j]).package == files[i].package
}

/// Whether every file behind a file of `package` is of that package.
pub open spec fn files_end_with(files: Seq<FileDescriptorView>, package: Seq<char>) -> bool {
    forall|i: int, j: int|
        0 <= i < j < files.len() && (#[trigger] files[i]).package == package ==> (
        #[trigger] files[j]).package == package
}

/// Whether every entry behind an entry of `package` is of that package.
pub open spec fn entries_end_with(entries: Seq<EntryView>, package: Seq<char>) -> bool {
    forall|i: int, j: int|
        0 <= i < j < entries.len() && (#[trigger] entries[i]).0.package == package ==> (
        #[trigger] entries[j]).0.package == package
}

/// Each entry that a set of files adds is of the package of one of the files.
pub proof fn lemma_set_entry_has_a_file(files: Seq<FileDescriptorView>, i: int) -> (at: int)
    requires
        0 <= i < set_entries(files).len(),
    ensures
        0 <= at < files.len(),
        files[at].package == set_entries(files)[i].0.package,
    decreases files.len(),
{
    let earlier = set_entries(files.drop_last());
    if i < earlier.len() {
        let at = lemma_set_entry_has_a_file(files.drop_last(), i);
        assert(files.drop_last()[at] == files[at]);
        at
    } else {
        lemma_file_entries_stand_together(files.last());
        assert(set_entries(files)[i] == file_entries(files.last())[i - earlier.len()]);
        files.len() - 1
    }
}

/// Where every file behind a file of a package is of that package, so is
/// every entry behind an entry of it.
pub proof fn lemma_set_entries_end_with(files: Seq<FileDescriptorView>, package: Seq<char>)
    requires
        files_end_with(files, package),
    ensures
        entries_end_with(set_entries(files), package),
    decreases files.len(),
{
    if files.len() > 0 {
        let last = files.len() - 1;
        let earlier = set_entries(files.drop_last());
        let added = file_entries(files.last());
        let all = set_entries(files);
        assert forall|i: int, j: int|
            0 <= i < j < files.drop_last().len() && (#[trigger] files.drop_last()[i]).package
                == package implies (#[trigger] files.drop_last()[j]).package == package by {
            assert(files[i].package == package);
            assert(files[j].package == package);
        }
        lemma_set_entries_end_with(files.drop_last(), package);
        lemma_file_entries_stand_together(files.last());
        assert forall|i: int, j: int|
            0 <= i < j < all.len() && (#[trigger] all[i]).0.package == package implies (
        #[trigger] all[j]).0.package == package by {
            if j < earlier.len() {
                assert(earlier[i] == all[i] && earlier[j] == all[j]);
            } else {
                assert(all[j] == added[j - earlier.len()]);
                if i < earlier.len() {
                    assert(earlier[i] == all[i]);
                    let at = lemma_set_entry_has_a_file(files.drop_last(), i);
                    assert(files[at].package == package);
                    assert(files[last].package == package);
                } else {
                    assert(all[i] == added[i - earlier.len()]);
                }
            }
        }
    }
}

/// Entries of one package behind entries that stand together and end with
/// that package, where they hold it at all, stand together with them.
pub proof fn lemma_contiguous_with_more(
    first: Seq<EntryView>,
    second: Seq<EntryView>,
    package: Seq<char>,
)
    requires
        contiguous(first),
        entries_end_with(first, package),
        all_of_package(second, package),
    ensures
        contiguous(first + second),
{
    let both = first + second;
    assert forall|i: int, j: int, k: int|
        0 <= i < j < k < both.len() && (#[trigger] both[i]).0.package == (
        #[trigger] both[k]).0.package implies (#[trigger] both[j]).0.package
        == both[i].0.package by {
        if k < first.len() {
            assert(both[i] == first[i] && both[j] == first[j] && both[k] == first[k]);
        } else {
            assert(both[k] == second[k - first.len()]);
            if j >= first.len() {
                assert(both[j] == second[j - first.len()]);
            } else {
                assert(both[i] == first[i] && both[j] == first[j]);
            }
        }
    }
}

/// Where the files of each package stand together in a set, so do the entries
/// that the set adds.
pub proof fn lemma_set_entries_stand_together(files: Seq<FileDescriptorView>)
    requires
        files_stand_together(files),
    ensures
        contiguous(set_entries(files)),
    decreases files.len(),
{
    if files.len() > 0 {
        let last = files.len() - 1;
        let earlier = files.drop_last();
        let package = files.last().package;
        assert forall|i: int, j: int, k: int|
            0 <= i < j < k < earlier.len() && (#[trigger] earlier[i]).package == (
            #[trigger] earlier[k]).package implies (#[trigger] earlier[j]).package
            == earlier[i].package by {
            assert(files[i].package == files[k].package);
            assert(files[j].package == files[i].package);
        }
        lemma_set_entries_stand_together(earlier);
        assert forall|i: int, j: int|
            0 <= i < j < earlier.len() && (#[trigger] earlier[i]).package == package implies (
        #[trigger] earlier[j]).package == package by {
            assert(files[i].package == files[last].package);
            assert(files[j].package == files[i].package);
        }
        lemma_set_entries_end_with(earlier, package);
        lemma_file_entries_stand_together(files.last());
        lemma_contiguous_with_more(set_entries(earlier), file_entries(files.last()), package);
    }
}

/// A builder that holds nothing but one set of files, whose files of each
/// package stand together, writes one group for each package among the
/// selected entries.
pub proof fn lemma_one_group_per_package_of_a_set(
    builder: BuilderView,
    files: Seq<FileDescriptorView>,
    prefixes: Seq<Seq<char>>,
)
    requires
        builder.descriptors == set_entries(files),
        files_stand_together(files),
    ensures
        builder.generated(prefixes).len() == entry_packages(
            selection(builder.descriptors, prefixes, builder.exclude),
        ).to_set().len(),
{
    lemma_set_entries_stand_together(files);
    lemma_selection_stays_contiguous(builder.descriptors, prefixes, builder.exclude);
    lemma_one_group_per_package(builder, prefixes);
}

} // verus!
