//! Laws of application catalogs: which files count, and how applications are arranged.

use vstd::prelude::*;

use crate::desktop::application::{ApplicationCategory, ApplicationModel};
use crate::desktop::catalog;
use crate::desktop::catalog::{FileModel, Gathering};
use crate::text;

verus! {

/// A file whose identifier was seen before changes nothing but what was seen: it is neither
/// listed nor counted as left out.
pub proof fn law_shadowed_files_are_ignored(
    gathered: Gathering,
    file: FileModel,
    locales: Seq<Seq<char>>,
    desktops: Seq<Seq<char>>,
)
    requires
        file.desktop_id matches Some(id) && gathered.seen.contains(id),
    ensures
        gathered.with_file(file, locales, desktops) == gathered,
{
    assert(gathered.seen.insert(file.desktop_id->Some_0) == gathered.seen);
}

/// A file either adds one application at the end, or is counted as left out, or is shadowed by
/// one that was seen before; a file without an identifier is left out, and so is one that cannot
/// be read.
pub proof fn law_files_are_listed_or_left_out(
    gathered: Gathering,
    file: FileModel,
    locales: Seq<Seq<char>>,
    desktops: Seq<Seq<char>>,
)
    requires
        gathered.skipped < usize::MAX,
    ensures
        ({
            let after = gathered.with_file(file, locales, desktops);
            let listed = after.applications.len() == gathered.applications.len() + 1
                && after.applications.drop_last() == gathered.applications && after.skipped
                == gathered.skipped;
            let left_out = after.applications == gathered.applications && after.skipped
                == gathered.skipped + 1;
            let shadowed = file.desktop_id matches Some(id) && gathered.seen.contains(id);
            &&& shadowed || listed || left_out
            &&& file.desktop_id is None ==> left_out && after.seen == gathered.seen
            &&& file.source is None && !shadowed ==> left_out
            &&& file.desktop_id matches Some(id) ==> after.seen == gathered.seen.insert(id)
            &&& after.remaining == gathered.remaining
        }),
{
    let after = gathered.with_file(file, locales, desktops);
    if after.applications.len() > gathered.applications.len() {
        assert(after.applications.drop_last() == gathered.applications);
    }
}

/// Looking at one more file does not change the number of files that may be looked at.
proof fn lemma_files_keep_the_limit(
    gathered: Gathering,
    files: Seq<FileModel>,
    locales: Seq<Seq<char>>,
    desktops: Seq<Seq<char>>,
)
    ensures
        gathered.with_files(files, locales, desktops).remaining == gathered.remaining,
    decreases files.len(),
{
    if files.len() > 0 {
        lemma_files_keep_the_limit(gathered, files.drop_last(), locales, desktops);
    }
}

/// A directory uses up one place for each of its files, as far as there are places, and its files
/// beyond them are not looked at. Four thousand and ninety-six files are looked at in all.
pub proof fn law_the_number_of_files_is_limited(
    gathered: Gathering,
    files: Seq<FileModel>,
    more: Seq<FileModel>,
    locales: Seq<Seq<char>>,
    desktops: Seq<Seq<char>>,
)
    ensures
        Gathering::start().remaining == 4_096,
        files.len() <= gathered.remaining ==> gathered.with_directory(
            files,
            locales,
            desktops,
        ).remaining == gathered.remaining - files.len(),
        files.len() >= gathered.remaining ==> gathered.with_directory(
            files,
            locales,
            desktops,
        ).remaining == 0,
        files.len() == gathered.remaining ==> gathered.with_directory(
            files + more,
            locales,
            desktops,
        ) == gathered.with_directory(files, locales, desktops),
{
    let taken = gathered.taken(files);
    let start = Gathering { remaining: (gathered.remaining - taken.len()) as nat, ..gathered };
    lemma_files_keep_the_limit(start, taken, locales, desktops);
    if files.len() == gathered.remaining {
        assert((files + more).take(files.len() as int) == files);
        if more.len() == 0 {
            assert(files + more == files);
        }
    }
}

/// Each group has the applications of its own category alone, and two neighbouring groups differ
/// in category.
pub proof fn law_groups_are_of_one_category(list: Seq<ApplicationModel>)
    ensures
        forall|i: int, j: int|
            0 <= i < catalog::grouped(list).len() && 0 <= j < catalog::grouped(
                list,
            )[i].applications.len() ==> (#[trigger] catalog::grouped(
                list,
            )[i].applications[j]).category == catalog::grouped(list)[i].category,
        forall|i: int, j: int|
            0 <= i && j == i + 1 && j < catalog::grouped(list).len() ==> (
            #[trigger] catalog::grouped(list)[i]).category != (#[trigger] catalog::grouped(
                list,
            )[j]).category,
    decreases list.len(),
{
    if list.len() > 0 {
        law_groups_are_of_one_category(list.drop_last());
    }
}

/// In a list that is in order, applications of an earlier category come first: Accessories,
/// Development, Education, Games, Graphics, Internet, Multimedia, Office, Science, System and
/// then the rest.
pub proof fn law_categories_are_in_order(list: Seq<ApplicationModel>, i: int, j: int)
    requires
        catalog::is_sorted(list),
        0 <= i < j < list.len(),
    ensures
        list[i].category == ApplicationCategory::Other ==> list[j].category
            == ApplicationCategory::Other,
        list[j].category == ApplicationCategory::Accessories ==> list[i].category
            == ApplicationCategory::Accessories,
        !(list[i].category == ApplicationCategory::Development && list[j].category
            == ApplicationCategory::Accessories),
        !(list[i].category == ApplicationCategory::Education && list[j].category
            == ApplicationCategory::Development),
        !(list[i].category == ApplicationCategory::Games && list[j].category
            == ApplicationCategory::Education),
        !(list[i].category == ApplicationCategory::Graphics && list[j].category
            == ApplicationCategory::Games),
        !(list[i].category == ApplicationCategory::Internet && list[j].category
            == ApplicationCategory::Graphics),
        !(list[i].category == ApplicationCategory::Multimedia && list[j].category
            == ApplicationCategory::Internet),
        !(list[i].category == ApplicationCategory::Office && list[j].category
            == ApplicationCategory::Multimedia),
        !(list[i].category == ApplicationCategory::Science && list[j].category
            == ApplicationCategory::Office),
        !(list[i].category == ApplicationCategory::System && list[j].category
            == ApplicationCategory::Science),
        !(list[i].category == ApplicationCategory::Other && list[j].category
            == ApplicationCategory::System),
{
    assert(!catalog::ranks_before(list[j], list[i]));
}

/// Of two texts that agree up to some place, the one that ends there, or has the character with
/// the smaller code point there, comes first.
pub proof fn law_texts_are_ordered_by_their_first_difference(
    left: Seq<char>,
    right: Seq<char>,
    place: int,
)
    requires
        0 <= place <= left.len(),
        place <= right.len(),
        left.take(place) == right.take(place),
    ensures
        place == left.len() && place < right.len() ==> text::precedes(left, right)
            && !text::precedes(right, left),
        place < left.len() && place < right.len() && left[place] < right[place]
            ==> text::precedes(left, right) && !text::precedes(right, left),
        place == left.len() && place == right.len() ==> !text::precedes(left, right),
    decreases place,
{
    if place > 0 {
        assert(left[0] == left.take(place)[0]);
        assert(right[0] == right.take(place)[0]);
        assert(left.skip(1).take(place - 1) == left.take(place).skip(1));
        assert(right.skip(1).take(place - 1) == right.take(place).skip(1));
        law_texts_are_ordered_by_their_first_difference(left.skip(1), right.skip(1), place - 1);
        if place < left.len() && place < right.len() {
            assert(left.skip(1)[place - 1] == left[place]);
            assert(right.skip(1)[place - 1] == right[place]);
        }
    }
}

/// In a list that is in order, applications of one category are ordered by their names without
/// regard to case, then by their names, and then by their identifiers.
pub proof fn law_names_are_in_order(list: Seq<ApplicationModel>, i: int, j: int)
    requires
        catalog::is_sorted(list),
        0 <= i < j < list.len(),
        list[i].category == list[j].category,
    ensures
        !text::precedes(catalog::lowercase(list[j].name), catalog::lowercase(list[i].name)),
        catalog::lowercase(list[i].name) == catalog::lowercase(list[j].name) ==> !text::precedes(
            list[j].name,
            list[i].name,
        ),
        list[i].name == list[j].name ==> !text::precedes(list[j].desktop_id, list[i].desktop_id),
{
    assert(!catalog::ranks_before(list[j], list[i]));
}

} // verus!
