//! The catalog of visible applications.

use vstd::prelude::*;

use crate::desktop::application;
use crate::desktop::application::{ApplicationCategory, ApplicationModel, DesktopApplication};
use crate::desktop::command;
use crate::desktop::entry;
use crate::desktop::entry::DesktopEntry;
use crate::text;
use crate::text::{characters, chars_come_before, same_chars};

verus! {

/// Maximum number of desktop files that are looked at.
pub const MAX_DESKTOP_FILES: usize = 4_096;

/// Maximum depth below an applications directory that is looked at.
pub const MAX_DIRECTORY_DEPTH: usize = 8;

/// Text in lower case by Unicode's rules.
pub uninterp spec fn lowercase(value: Seq<char>) -> Seq<char>;

/// `str::to_lowercase` gives the lower-case form of a text by Unicode's rules. The contract
/// names it, because the rules are tables, and says what it is for ASCII text.
pub assume_specification[ str::to_lowercase ](value: &str) -> (lower: String)
    ensures
        lower@ == lowercase(value@),
        vstd::utf8::is_ascii_chars(value@) ==> lower@ == text::lower(value@),
;

/// Whether an application comes before another: by category, then by name whatever its case,
/// then by name, then by identifier.
pub open spec fn ranks_before(left: ApplicationModel, right: ApplicationModel) -> bool {
    let left_folded = lowercase(left.name);
    let right_folded = lowercase(right.name);
    ||| left.category.order() < right.category.order()
    ||| left.category.order() == right.category.order() && text::precedes(
        left_folded,
        right_folded,
    )
    ||| left.category.order() == right.category.order() && left_folded == right_folded
        && text::precedes(left.name, right.name)
    ||| left.category.order() == right.category.order() && left.name == right.name
        && text::precedes(left.desktop_id, right.desktop_id)
}

/// Whether applications are in order.
pub open spec fn is_sorted(list: Seq<ApplicationModel>) -> bool {
    forall|i: int, j: int|
        0 <= i < j < list.len() ==> !ranks_before(#[trigger] list[j], #[trigger] list[i])
}

/// Whether a list holds the same applications as another, in order.
pub open spec fn sorts(applications: Seq<ApplicationModel>, list: Seq<ApplicationModel>) -> bool {
    is_sorted(list) && list.to_multiset() == applications.to_multiset()
}

/// Applications of one category.
pub ghost struct GroupModel {
    pub category: ApplicationCategory,
    pub applications: Seq<ApplicationModel>,
}

/// A list cut where the category changes.
pub open spec fn grouped(list: Seq<ApplicationModel>) -> Seq<GroupModel>
    decreases list.len(),
{
    if list.len() == 0 {
        Seq::empty()
    } else {
        let before = grouped(list.drop_last());
        let last = list.last();
        if before.len() > 0 && before.last().category == last.category {
            before.drop_last().push(
                GroupModel {
                    category: last.category,
                    applications: before.last().applications.push(last),
                },
            )
        } else {
            before.push(GroupModel { category: last.category, applications: seq![last] })
        }
    }
}

/// The number of applications in groups.
pub open spec fn count_of(groups: Seq<GroupModel>) -> nat
    decreases groups.len(),
{
    if groups.len() == 0 {
        0
    } else {
        count_of(groups.drop_last()) + groups.last().applications.len()
    }
}

/// What is known of a desktop file.
pub ghost struct FileModel {
    pub desktop_id: Option<Seq<char>>,
    pub path: Option<Seq<char>>,
    pub source: Option<Seq<char>>,
    pub available: bool,
}

/// The application of a desktop file.
pub open spec fn file_application(
    file: FileModel,
    desktop_id: Seq<char>,
    locales: Seq<Seq<char>>,
    desktops: Seq<Seq<char>>,
) -> Option<ApplicationModel> {
    match file.source {
        Some(source) => match entry::entry_values(source) {
            Some(values) => application::application_of(
                values,
                desktop_id,
                file.path,
                locales,
                desktops,
                file.available,
            ),
            None => None,
        },
        None => None,
    }
}

/// A count with one more, as far as a number goes.
pub open spec fn one_more(count: usize) -> usize {
    if count < usize::MAX {
        (count + 1) as usize
    } else {
        count
    }
}

/// What has been gathered from desktop files.
pub ghost struct Gathering {
    /// The identifiers that were seen.
    pub seen: Set<Seq<char>>,
    /// The applications that were found.
    pub applications: Seq<ApplicationModel>,
    /// The number of files that were left out.
    pub skipped: usize,
    /// The number of files that are still looked at.
    pub remaining: nat,
}

impl Gathering {
    /// Before any file.
    pub open spec fn start() -> Gathering {
        Gathering {
            seen: Set::empty(),
            applications: Seq::empty(),
            skipped: 0,
            remaining: MAX_DESKTOP_FILES as nat,
        }
    }

    /// Once a file was found to hold an application or none.
    pub open spec fn with_application(self, application: Option<ApplicationModel>) -> Gathering {
        match application {
            Some(application) => Gathering {
                applications: self.applications.push(application),
                ..self
            },
            None => Gathering { skipped: one_more(self.skipped), ..self },
        }
    }

    /// Once an identifier was offered. A file without one is left out.
    pub open spec fn with_id(self, desktop_id: Option<Seq<char>>) -> Gathering {
        match desktop_id {
            Some(desktop_id) => Gathering { seen: self.seen.insert(desktop_id), ..self },
            None => Gathering { skipped: one_more(self.skipped), ..self },
        }
    }

    /// Whether a file with an identifier is read: the first file with it is.
    pub open spec fn admits(self, desktop_id: Option<Seq<char>>) -> bool {
        match desktop_id {
            Some(desktop_id) => !self.seen.contains(desktop_id),
            None => false,
        }
    }

    /// Once a file was looked at.
    pub open spec fn with_file(
        self,
        file: FileModel,
        locales: Seq<Seq<char>>,
        desktops: Seq<Seq<char>>,
    ) -> Gathering {
        let next = self.with_id(file.desktop_id);
        if self.admits(file.desktop_id) {
            next.with_application(
                file_application(file, file.desktop_id->Some_0, locales, desktops),
            )
        } else {
            next
        }
    }

    /// Once files were looked at.
    pub open spec fn with_files(
        self,
        files: Seq<FileModel>,
        locales: Seq<Seq<char>>,
        desktops: Seq<Seq<char>>,
    ) -> Gathering
        decreases files.len(),
    {
        if files.len() == 0 {
            self
        } else {
            self.with_files(files.drop_last(), locales, desktops).with_file(
                files.last(),
                locales,
                desktops,
            )
        }
    }

    /// The files of a directory that are looked at.
    pub open spec fn taken(self, files: Seq<FileModel>) -> Seq<FileModel> {
        if files.len() <= self.remaining {
            files
        } else {
            files.take(self.remaining as int)
        }
    }

    /// Once a directory was looked at.
    pub open spec fn with_directory(
        self,
        files: Seq<FileModel>,
        locales: Seq<Seq<char>>,
        desktops: Seq<Seq<char>>,
    ) -> Gathering {
        let taken = self.taken(files);
        Gathering { remaining: (self.remaining - taken.len()) as nat, ..self }.with_files(
            taken,
            locales,
            desktops,
        )
    }

    /// Once directories were looked at, the most important one first.
    pub open spec fn with_directories(
        self,
        directories: Seq<Seq<FileModel>>,
        locales: Seq<Seq<char>>,
        desktops: Seq<Seq<char>>,
    ) -> Gathering
        decreases directories.len(),
    {
        if directories.len() == 0 {
            self
        } else {
            self.with_directories(directories.drop_last(), locales, desktops).with_directory(
                directories.last(),
                locales,
                desktops,
            )
        }
    }
}

/// What a catalog holds.
pub ghost struct CatalogModel {
    pub groups: Seq<GroupModel>,
    pub skipped: usize,
}

/// Whether a catalog arranges what was gathered.
pub open spec fn arranges(gathered: Gathering, catalog: CatalogModel) -> bool {
    &&& catalog.skipped == gathered.skipped
    &&& exists|list: Seq<ApplicationModel>| #[trigger]
        sorts(gathered.applications, list) && catalog.groups == grouped(list)
}

/// Applications grouped into one conventional category.
#[derive(Clone, Debug, PartialEq, Eq)]
pub struct ApplicationGroup {
    /// Category represented by this group.
    pub category: ApplicationCategory,
    /// Applications ordered by localized name and stable desktop identifier.
    pub applications: Vec<DesktopApplication>,
}

/// What applications are.
pub open spec fn application_models(applications: Seq<DesktopApplication>) -> Seq<
    ApplicationModel,
> {
    Seq::new(applications.len(), |i: int| applications[i]@)
}

impl View for ApplicationGroup {
    type V = GroupModel;

    open spec fn view(&self) -> GroupModel {
        GroupModel {
            category: self.category,
            applications: application_models(self.applications@),
        }
    }
}

/// What groups hold.
pub open spec fn group_models(groups: Seq<ApplicationGroup>) -> Seq<GroupModel> {
    Seq::new(groups.len(), |i: int| groups[i]@)
}

/// Complete visible application catalog.
#[derive(Clone, Debug, PartialEq, Eq)]
pub struct ApplicationCatalog {
    groups: Vec<ApplicationGroup>,
    skipped_files: usize,
}

impl View for ApplicationCatalog {
    type V = CatalogModel;

    closed spec fn view(&self) -> CatalogModel {
        CatalogModel { groups: group_models(self.groups@), skipped: self.skipped_files }
    }
}

impl Default for ApplicationCatalog {
    /// No applications.
    fn default() -> (catalog: Self)
        ensures
            catalog@ == (CatalogModel { groups: Seq::empty(), skipped: 0 }),
    {
        let groups: Vec<ApplicationGroup> = Vec::new();
        assert(group_models(groups@) =~= Seq::empty());
        ApplicationCatalog { groups, skipped_files: 0 }
    }
}

/// A desktop file, as far as it could be read.
#[derive(Clone, Debug, PartialEq, Eq)]
pub struct DesktopFile {
    /// Its identifier, unless its path is no text.
    pub desktop_id: Option<String>,
    /// Its path, where that is text.
    pub path: Option<String>,
    /// Its contents, unless they cannot be read or are too long.
    pub source: Option<String>,
    /// Whether the program that it tries is there.
    pub available: bool,
}

impl View for DesktopFile {
    type V = FileModel;

    open spec fn view(&self) -> FileModel {
        FileModel {
            desktop_id: text::maybe(self.desktop_id),
            path: text::maybe(self.path),
            source: text::maybe(self.source),
            available: self.available,
        }
    }
}

/// What files are.
pub open spec fn file_models(files: Seq<DesktopFile>) -> Seq<FileModel> {
    Seq::new(files.len(), |i: int| files[i]@)
}

/// What the files of directories are.
pub open spec fn directory_models(directories: Seq<Vec<DesktopFile>>) -> Seq<Seq<FileModel>> {
    Seq::new(directories.len(), |i: int| file_models(directories[i]@))
}

/// Gathers applications file by file, so that a file that another one shadows is never read.
pub struct CatalogBuilder {
    seen: Vec<String>,
    applications: Vec<DesktopApplication>,
    skipped_files: usize,
    remaining: usize,
}

impl View for CatalogBuilder {
    type V = Gathering;

    closed spec fn view(&self) -> Gathering {
        Gathering {
            seen: text::lines_of(self.seen@).to_set(),
            applications: application_models(self.applications@),
            skipped: self.skipped_files,
            remaining: self.remaining as nat,
        }
    }
}

impl CatalogBuilder {
    /// Starts without applications.
    #[must_use]
    pub fn new() -> (builder: Self)
        ensures
            builder@ == Gathering::start(),
    {
        let builder = CatalogBuilder {
            seen: Vec::new(),
            applications: Vec::new(),
            skipped_files: 0,
            remaining: MAX_DESKTOP_FILES,
        };
        assert(builder@.seen =~= Set::empty());
        assert(builder@.applications =~= Seq::empty());
        builder
    }

    /// Returns the number of files that are still looked at.
    #[must_use]
    pub fn remaining(&self) -> (remaining: usize)
        ensures
            remaining == self@.remaining,
    {
        self.remaining
    }

    /// Records that a directory has a number of files.
    pub fn enter_directory(&mut self, files: usize)
        ensures
            final(self)@ == (Gathering {
                remaining: if files <= old(self)@.remaining {
                    (old(self)@.remaining - files) as nat
                } else {
                    0
                },
                ..old(self)@
            }),
    {
        self.remaining = self.remaining.saturating_sub(files);
    }

    /// Offers the identifier of a file, and returns whether the file should be read.
    pub fn offer(&mut self, desktop_id: Option<&str>) -> (admitted: bool)
        ensures
            admitted == old(self)@.admits(command::given(desktop_id)),
            final(self)@ == old(self)@.with_id(command::given(desktop_id)),
    {
        let id = match desktop_id {
            Some(desktop_id) => desktop_id.to_owned(),
            None => {
                self.skipped_files = self.skipped_files.saturating_add(1);
                return false;
            },
        };
        let ghost before = text::lines_of(self.seen@);
        let mut index: usize = 0;
        while index < self.seen.len()
            invariant
                index <= self.seen.len(),
                *self == *old(self),
                before == text::lines_of(self.seen@),
                command::given(desktop_id) == Some(id@),
                forall|i: int| 0 <= i < index ==> before[i] != id@,
            decreases self.seen.len() - index,
        {
            assert(before[index as int] == self.seen@[index as int]@);
            if self.seen[index] == id {
                assert(before.to_set().contains(id@));
                assert(before.to_set().insert(id@) =~= before.to_set());
                return false;
            }
            index = index + 1;
        }
        assert(!before.contains(id@));
        let ghost added = id@;
        self.seen.push(id);
        proof {
            let after = text::lines_of(self.seen@);
            assert(after =~= before.push(added));
            assert forall|wanted: Seq<char>|
                after.to_set().contains(wanted) == before.to_set().insert(added).contains(
                    wanted,
                ) by {
                if before.contains(wanted) {
                    let i = choose|i: int| 0 <= i < before.len() && before[i] == wanted;
                    assert(after[i] == wanted);
                }
                if wanted == added {
                    assert(after[before.len() as int] == wanted);
                }
            }
            assert(after.to_set() =~= before.to_set().insert(added));
        }
        true
    }

    /// Adds the application of a file that was read; one without an application is left out.
    pub fn add_application(&mut self, application: Option<DesktopApplication>)
        ensures
            final(self)@ == old(self)@.with_application(
                match application {
                    Some(application) => Some(application@),
                    None => None,
                },
            ),
    {
        match application {
            Some(application) => {
                let ghost before = self.applications@;
                self.applications.push(application);
                assert(application_models(self.applications@) =~= application_models(before).push(
                    application@,
                ));
            },
            None => {
                self.skipped_files = self.skipped_files.saturating_add(1);
            },
        }
    }

    fn add_file(&mut self, file: &DesktopFile, locales: &[String], desktops: &[String])
        ensures
            final(self)@ == old(self)@.with_file(
                file@,
                text::lines_of(locales@),
                text::lines_of(desktops@),
            ),
    {
        let desktop_id = match &file.desktop_id {
            Some(desktop_id) => Some(desktop_id.as_str()),
            None => None,
        };
        if self.offer(desktop_id) {
            if let Some(desktop_id) = &file.desktop_id {
                let path = match &file.path {
                    Some(path) => Some(path.as_str()),
                    None => None,
                };
                let application = match &file.source {
                    Some(source) => match DesktopEntry::parse(source.as_str()) {
                        Some(entry) => entry.application(
                            desktop_id.clone(),
                            path,
                            locales,
                            desktops,
                            file.available,
                        ),
                        None => None,
                    },
                    None => None,
                };
                self.add_application(application);
            }
        }
    }

    fn add_directory(&mut self, files: &Vec<DesktopFile>, locales: &[String], desktops: &[String])
        ensures
            final(self)@ == old(self)@.with_directory(
                file_models(files@),
                text::lines_of(locales@),
                text::lines_of(desktops@),
            ),
    {
        let ghost all = file_models(files@);
        let ghost taken = self@.taken(all);
        let ghost wanted = (text::lines_of(locales@), text::lines_of(desktops@));
        let limit: usize = if files.len() <= self.remaining {
            files.len()
        } else {
            self.remaining
        };
        self.enter_directory(limit);
        let ghost start = self@;
        let mut index: usize = 0;
        assert(taken.take(0) =~= Seq::empty());
        while index < limit
            invariant
                index <= limit <= files.len(),
                taken.len() == limit,
                forall|i: int| 0 <= i < limit ==> #[trigger] taken[i] == files@[i]@,
                wanted == (text::lines_of(locales@), text::lines_of(desktops@)),
                self@ == start.with_files(taken.take(index as int), wanted.0, wanted.1),
            decreases limit - index,
        {
            assert(taken.take(index + 1).drop_last() =~= taken.take(index as int));
            assert(taken.take(index + 1).last() == taken[index as int]);
            self.add_file(&files[index], locales, desktops);
            index = index + 1;
        }
        assert(taken.take(index as int) =~= taken);
    }

    /// Arranges the applications that were found.
    #[must_use]
    pub fn finish(self) -> (catalog: ApplicationCatalog)
        ensures
            arranges(self@, catalog@),
    {
        let skipped_files = self.skipped_files;
        let sorted = sort_applications(self.applications);
        let ghost list = application_models(sorted@);
        let groups = group_applications(sorted);
        assert(sorts(self@.applications, list));
        ApplicationCatalog { groups, skipped_files }
    }
}

/// An application and the keys that it is ordered by.
struct Ranked {
    application: DesktopApplication,
    folded: Vec<char>,
    name: Vec<char>,
    id: Vec<char>,
}

impl Ranked {
    spec fn wf(self) -> bool {
        &&& self.folded@ == lowercase(self.application.name@)
        &&& self.name@ == self.application.name@
        &&& self.id@ == self.application.desktop_id@
    }

    fn new(application: DesktopApplication) -> (ranked: Self)
        ensures
            ranked.wf(),
            ranked.application == application,
    {
        let folded = characters(application.name.as_str().to_lowercase().as_str());
        let name = characters(application.name.as_str());
        let id = characters(application.desktop_id.as_str());
        Ranked { application, folded, name, id }
    }

    fn ranks_before(&self, other: &Self) -> (r: bool)
        requires
            self.wf(),
            other.wf(),
        ensures
            r == ranks_before(self.application@, other.application@),
    {
        let left = self.application.category.place();
        let right = other.application.category.place();
        if left != right {
            return left < right;
        }
        proof {
            text::lemma_precedes(self.folded@, other.folded@, other.folded@);
            text::lemma_precedes(self.name@, other.name@, other.name@);
            text::lemma_precedes(self.folded@, self.folded@, self.folded@);
            text::lemma_precedes(self.name@, self.name@, self.name@);
        }
        if !same_chars(self.folded.as_slice(), other.folded.as_slice()) {
            return chars_come_before(self.folded.as_slice(), other.folded.as_slice());
        }
        if !same_chars(self.name.as_slice(), other.name.as_slice()) {
            return chars_come_before(self.name.as_slice(), other.name.as_slice());
        }
        chars_come_before(self.id.as_slice(), other.id.as_slice())
    }
}

spec fn ranked_models(list: Seq<Ranked>) -> Seq<ApplicationModel> {
    Seq::new(list.len(), |i: int| list[i].application@)
}

/// Of three applications, the one in the middle tells the other two apart as well.
proof fn lemma_rank(left: ApplicationModel, middle: ApplicationModel, right: ApplicationModel)
    ensures
        ranks_before(left, right) ==> ranks_before(left, middle) || ranks_before(middle, right),
        !(ranks_before(left, middle) && ranks_before(middle, left)),
{
    let a = lowercase(left.name);
    let b = lowercase(middle.name);
    let c = lowercase(right.name);
    text::lemma_precedes(a, b, c);
    text::lemma_precedes(b, a, c);
    text::lemma_precedes(b, c, a);
    text::lemma_precedes(a, c, b);
    text::lemma_precedes(c, b, a);
    text::lemma_precedes(left.name, middle.name, right.name);
    text::lemma_precedes(middle.name, left.name, right.name);
    text::lemma_precedes(middle.name, right.name, left.name);
    text::lemma_precedes(left.name, right.name, middle.name);
    text::lemma_precedes(right.name, middle.name, left.name);
    text::lemma_precedes(left.desktop_id, middle.desktop_id, right.desktop_id);
    text::lemma_precedes(middle.desktop_id, left.desktop_id, right.desktop_id);
    text::lemma_precedes(middle.desktop_id, right.desktop_id, left.desktop_id);
    text::lemma_precedes(left.desktop_id, right.desktop_id, middle.desktop_id);
    text::lemma_precedes(right.desktop_id, middle.desktop_id, left.desktop_id);
}

/// Puts one more element into a multiset.
proof fn lemma_inserted(list: Seq<ApplicationModel>, place: int, added: ApplicationModel)
    requires
        0 <= place <= list.len(),
    ensures
        list.insert(place, added).to_multiset() == list.to_multiset().insert(added),
{
    broadcast use vstd::seq_lib::group_to_multiset_ensures;

    let after = list.insert(place, added);
    assert(after.remove(place) =~= list);
    assert(after[place] == added);
    assert(after.remove(place).to_multiset() == after.to_multiset().remove(added));
    assert(after.to_multiset().contains(added)) by {
        assert(after.contains(added));
    }
    assert(after.to_multiset() =~= list.to_multiset().insert(added));
}

/// Puts applications in order.
fn sort_applications(applications: Vec<DesktopApplication>) -> (sorted: Vec<DesktopApplication>)
    ensures
        sorts(application_models(applications@), application_models(sorted@)),
{
    broadcast use vstd::seq_lib::group_to_multiset_ensures;

    let ghost all = application_models(applications@);
    let mut rest = applications;
    let mut list: Vec<Ranked> = Vec::new();
    assert(ranked_models(list@) =~= Seq::empty());
    assert(all.skip(all.len() as int) =~= Seq::empty());
    while rest.len() > 0
        invariant
            application_models(rest@) =~= all.take(rest@.len() as int),
            rest@.len() <= all.len(),
            forall|i: int| 0 <= i < list@.len() ==> (#[trigger] list@[i]).wf(),
            is_sorted(ranked_models(list@)),
            ranked_models(list@).to_multiset() == all.skip(rest@.len() as int).to_multiset(),
        decreases rest.len(),
    {
        let ghost count = rest@.len() as int;
        assert(application_models(rest@)[count - 1] == all[count - 1]);
        let application = match rest.pop() {
            Some(application) => application,
            None => return Vec::new(),
        };
        let ghost added = application@;
        assert(added == all[count - 1]);
        insert_ranked(&mut list, application);
        proof {
            assert(all.skip(count - 1) =~= all.skip(count).insert(0, added));
            lemma_inserted(all.skip(count), 0, added);
            assert(application_models(rest@) =~= all.take(rest@.len() as int));
        }
    }
    assert(all.skip(0) =~= all);
    unranked(list)
}

/// Puts an application where it belongs in a list in order, behind those of the same rank.
fn insert_ranked(list: &mut Vec<Ranked>, application: DesktopApplication)
    requires
        forall|i: int| 0 <= i < old(list)@.len() ==> (#[trigger] old(list)@[i]).wf(),
        is_sorted(ranked_models(old(list)@)),
    ensures
        forall|i: int| 0 <= i < final(list)@.len() ==> (#[trigger] final(list)@[i]).wf(),
        is_sorted(ranked_models(final(list)@)),
        ranked_models(final(list)@).to_multiset() == ranked_models(
            old(list)@,
        ).to_multiset().insert(application@),
{
    let ghost before = list@;
    let ghost models = ranked_models(before);
    let ghost added = application@;
    let ranked = Ranked::new(application);
    let mut place: usize = list.len();
    while place > 0 && ranked.ranks_before(&list[place - 1])
        invariant
            place <= list@.len(),
            list@ == before,
            models == ranked_models(before),
            ranked.wf(),
            ranked.application@ == added,
            forall|i: int| 0 <= i < list@.len() ==> (#[trigger] list@[i]).wf(),
            forall|i: int| place <= i < models.len() ==> ranks_before(added, #[trigger] models[i]),
        decreases place,
    {
        assert(models[place - 1] == before[place - 1].application@);
        place = place - 1;
    }
    list.insert(place, ranked);
    proof {
        let after = ranked_models(list@);
        assert(after =~= models.insert(place as int, added));
        lemma_inserted(models, place as int, added);
        if place > 0 {
            assert(models[place - 1] == before[place - 1].application@);
        }
        assert forall|i: int, j: int| 0 <= i < j < after.len() implies !ranks_before(
            #[trigger] after[j],
            #[trigger] after[i],
        ) by {
            if i < place && j < place {
                assert(!ranks_before(models[j], models[i]));
            } else if i > place {
                assert(!ranks_before(models[j - 1], models[i - 1]));
            } else if i == place {
                assert(ranks_before(added, models[j - 1]));
                lemma_rank(added, models[j - 1], added);
            } else if j == place {
                if i < place - 1 {
                    assert(!ranks_before(models[place - 1], models[i]));
                    lemma_rank(added, models[place - 1], models[i]);
                }
            } else {
                assert(!ranks_before(models[j - 1], models[i]));
            }
        }
    }
}

/// The applications of a list.
fn unranked(list: Vec<Ranked>) -> (applications: Vec<DesktopApplication>)
    ensures
        application_models(applications@) == ranked_models(list@),
{
    let ghost all = ranked_models(list@);
    let mut rest = list;
    let mut reversed: Vec<DesktopApplication> = Vec::new();
    while rest.len() > 0
        invariant
            rest@.len() + reversed@.len() == all.len(),
            ranked_models(rest@) =~= all.take(rest@.len() as int),
            forall|i: int|
                0 <= i < reversed@.len() ==> (#[trigger] reversed@[i])@ == all[all.len() - 1 - i],
        decreases rest.len(),
    {
        let ghost count = rest@.len() as int;
        assert(ranked_models(rest@)[count - 1] == all[count - 1]);
        if let Some(ranked) = rest.pop() {
            reversed.push(ranked.application);
            assert(ranked_models(rest@) =~= all.take(rest@.len() as int));
        }
    }
    let mut applications: Vec<DesktopApplication> = Vec::new();
    while reversed.len() > 0
        invariant
            applications@.len() + reversed@.len() == all.len(),
            forall|i: int|
                0 <= i < reversed@.len() ==> (#[trigger] reversed@[i])@ == all[all.len() - 1 - i],
            forall|i: int| 0 <= i < applications@.len() ==> (#[trigger] applications@[i])@ == all[i],
        decreases reversed.len(),
    {
        let ghost count = reversed@.len() as int;
        assert(reversed@[count - 1]@ == all[all.len() - count]);
        if let Some(application) = reversed.pop() {
            applications.push(application);
        }
    }
    assert(application_models(applications@) =~= all);
    applications
}

/// Cuts a list of applications where the category changes.
fn group_applications(applications: Vec<DesktopApplication>) -> (groups: Vec<ApplicationGroup>)
    ensures
        group_models(groups@) == grouped(application_models(applications@)),
{
    let ghost all = application_models(applications@);
    let mut rest = applications;
    let mut reversed: Vec<DesktopApplication> = Vec::new();
    while rest.len() > 0
        invariant
            rest@.len() + reversed@.len() == all.len(),
            application_models(rest@) =~= all.take(rest@.len() as int),
            forall|i: int|
                0 <= i < reversed@.len() ==> (#[trigger] reversed@[i])@ == all[all.len() - 1 - i],
        decreases rest.len(),
    {
        let ghost count = rest@.len() as int;
        assert(application_models(rest@)[count - 1] == all[count - 1]);
        if let Some(application) = rest.pop() {
            reversed.push(application);
            assert(application_models(rest@) =~= all.take(rest@.len() as int));
        }
    }
    let mut groups: Vec<ApplicationGroup> = Vec::new();
    let ghost mut done: int = 0;
    assert(group_models(groups@) =~= grouped(all.take(0)));
    while reversed.len() > 0
        invariant
            done + reversed@.len() == all.len(),
            0 <= done,
            forall|i: int|
                0 <= i < reversed@.len() ==> (#[trigger] reversed@[i])@ == all[all.len() - 1 - i],
            group_models(groups@) == grouped(all.take(done)),
        decreases reversed.len(),
    {
        let ghost count = reversed@.len() as int;
        assert(reversed@[count - 1]@ == all[all.len() - count]);
        assert(all.take(done + 1).drop_last() =~= all.take(done));
        let ghost before = groups@;
        if let Some(application) = reversed.pop() {
            let ghost added = application@;
            let category = application.category;
            assert(added == all[done]);
            let joins = groups.len() > 0 && groups[groups.len() - 1].category == category;
            assert(groups@.len() > 0 ==> group_models(before).last() == groups@.last()@);
            if joins {
                if let Some(group) = groups.pop() {
                    let ghost members = group.applications@;
                    let mut applications = group.applications;
                    applications.push(application);
                    assert(application_models(applications@) =~= application_models(members).push(
                        added,
                    ));
                    groups.push(ApplicationGroup { category, applications });
                }
                assert(group_models(groups@) =~= grouped(all.take(done + 1)));
            } else {
                let applications: Vec<DesktopApplication> = vec![application];
                assert(application_models(applications@) =~= seq![added]);
                groups.push(ApplicationGroup { category, applications });
                assert(group_models(groups@) =~= grouped(all.take(done + 1)));
            }
        }
        proof {
            done = done + 1;
        }
    }
    assert(all.take(done) =~= all);
    groups
}

impl ApplicationCatalog {
    /// Builds a catalog from the desktop files of explicit application directories.
    ///
    /// Directories are ordered from highest to lowest precedence. Of files with the same
    /// identifier the first one counts.
    #[must_use]
    pub fn from_directories(
        directories: &[Vec<DesktopFile>],
        locales: &[String],
        desktops: &[String],
    ) -> (catalog: Self)
        ensures
            arranges(
                Gathering::start().with_directories(
                    directory_models(directories@),
                    text::lines_of(locales@),
                    text::lines_of(desktops@),
                ),
                catalog@,
            ),
    {
        let ghost all = directory_models(directories@);
        let ghost wanted = (text::lines_of(locales@), text::lines_of(desktops@));
        let mut builder = CatalogBuilder::new();
        let mut index: usize = 0;
        assert(all.take(0) =~= Seq::empty());
        while index < directories.len()
            invariant
                index <= directories.len(),
                all == directory_models(directories@),
                wanted == (text::lines_of(locales@), text::lines_of(desktops@)),
                builder@ == Gathering::start().with_directories(
                    all.take(index as int),
                    wanted.0,
                    wanted.1,
                ),
            decreases directories.len() - index,
        {
            assert(all.take(index + 1).drop_last() =~= all.take(index as int));
            assert(all.take(index + 1).last() == file_models(directories@[index as int]@));
            builder.add_directory(&directories[index], locales, desktops);
            index = index + 1;
        }
        assert(all.take(index as int) =~= all);
        builder.finish()
    }

    /// Returns ordered, non-empty application groups.
    #[must_use]
    pub fn groups(&self) -> (groups: &[ApplicationGroup])
        ensures
            group_models(groups@) == self@.groups,
    {
        self.groups.as_slice()
    }

    /// Returns the number of hidden, unavailable, or invalid files omitted.
    #[must_use]
    pub fn skipped_files(&self) -> (skipped: usize)
        ensures
            skipped == self@.skipped,
    {
        self.skipped_files
    }

    /// Returns the number of visible applications.
    #[must_use]
    pub fn application_count(&self) -> (count: usize)
        ensures
            count == if count_of(self@.groups) <= usize::MAX {
                count_of(self@.groups)
            } else {
                usize::MAX as nat
            },
    {
        let ghost all = group_models(self.groups@);
        let mut count: usize = 0;
        let mut index: usize = 0;
        assert(all.take(0) =~= Seq::empty());
        while index < self.groups.len()
            invariant
                index <= self.groups.len(),
                all == group_models(self.groups@),
                count == if count_of(all.take(index as int)) <= usize::MAX {
                    count_of(all.take(index as int))
                } else {
                    usize::MAX as nat
                },
            decreases self.groups.len() - index,
        {
            assert(all.take(index + 1).drop_last() =~= all.take(index as int));
            assert(all.take(index + 1).last() == self.groups@[index as int]@);
            count = count.saturating_add(self.groups[index].applications.len());
            index = index + 1;
        }
        assert(all.take(index as int) =~= all);
        count
    }
}

/// Grouping loses no application, and no group is empty.
pub proof fn law_no_application_is_lost(list: Seq<ApplicationModel>)
    ensures
        count_of(grouped(list)) == list.len(),
        forall|i: int|
            0 <= i < grouped(list).len() ==> (#[trigger] grouped(list)[i]).applications.len() > 0,
    decreases list.len(),
{
    if list.len() > 0 {
        law_no_application_is_lost(list.drop_last());
        let before = grouped(list.drop_last());
        let after = grouped(list);
        if before.len() > 0 && before.last().category == list.last().category {
            assert(after.drop_last() =~= before.drop_last());
        } else {
            assert(after.drop_last() =~= before);
        }
    }
}

/// The groups of a list in order come by category, each category once.
pub proof fn law_groups_are_in_category_order(list: Seq<ApplicationModel>)
    requires
        is_sorted(list),
    ensures
        forall|i: int, j: int|
            0 <= i < j < grouped(list).len() ==> (#[trigger] grouped(list)[i]).category.order() < (
            #[trigger] grouped(list)[j]).category.order(),
        grouped(list).len() > 0 <==> list.len() > 0,
        list.len() > 0 ==> grouped(list).last().category == list.last().category,
    decreases list.len(),
{
    if list.len() > 0 {
        let rest = list.drop_last();
        assert forall|i: int, j: int| 0 <= i < j < rest.len() implies !ranks_before(
            #[trigger] rest[j],
            #[trigger] rest[i],
        ) by {
            assert(!ranks_before(list[j], list[i]));
        }
        law_groups_are_in_category_order(rest);
        let before = grouped(rest);
        let after = grouped(list);
        if rest.len() > 0 {
            assert(!ranks_before(list[list.len() - 1], list[list.len() - 2]));
            let last = before.len() - 1;
            assert forall|i: int, j: int| 0 <= i < j < after.len() implies (
            #[trigger] after[i]).category.order() < (#[trigger] after[j]).category.order() by {
                if before.last().category == list.last().category {
                    assert(before[i].category.order() < before[j].category.order());
                } else if j < before.len() {
                    assert(before[i].category.order() < before[j].category.order());
                } else if i < last {
                    assert(before[i].category.order() < before[last].category.order());
                }
            }
        }
    }
}

/// A file whose identifier was seen before changes nothing: the first one wins.
pub proof fn law_first_file_wins(
    gathered: Gathering,
    file: FileModel,
    locales: Seq<Seq<char>>,
    desktops: Seq<Seq<char>>,
)
    requires
        file.desktop_id is Some,
        gathered.seen.contains(file.desktop_id->Some_0),
    ensures
        gathered.with_file(file, locales, desktops) == gathered,
{
    assert(gathered.seen.insert(file.desktop_id->Some_0) =~= gathered.seen);
}

/// Files add at most one application each, and are taken from what is still looked at.
proof fn lemma_files_are_bounded(
    gathered: Gathering,
    files: Seq<FileModel>,
    locales: Seq<Seq<char>>,
    desktops: Seq<Seq<char>>,
)
    ensures
        gathered.with_files(files, locales, desktops).applications.len()
            <= gathered.applications.len() + files.len(),
        gathered.with_files(files, locales, desktops).remaining == gathered.remaining,
    decreases files.len(),
{
    if files.len() > 0 {
        lemma_files_are_bounded(gathered, files.drop_last(), locales, desktops);
    }
}

/// However many directories there are, no more files are looked at than the limit allows.
pub proof fn law_catalogs_are_bounded(
    gathered: Gathering,
    directories: Seq<Seq<FileModel>>,
    locales: Seq<Seq<char>>,
    desktops: Seq<Seq<char>>,
)
    ensures
        ({
            let after = gathered.with_directories(directories, locales, desktops);
            after.applications.len() + after.remaining <= gathered.applications.len()
                + gathered.remaining
        }),
    decreases directories.len(),
{
    if directories.len() > 0 {
        law_catalogs_are_bounded(gathered, directories.drop_last(), locales, desktops);
        let before = gathered.with_directories(directories.drop_last(), locales, desktops);
        let taken = before.taken(directories.last());
        let left = Gathering { remaining: (before.remaining - taken.len()) as nat, ..before };
        lemma_files_are_bounded(left, taken, locales, desktops);
    }
}

/// Whether no two applications have the same identifier.
pub open spec fn distinct_ids(list: Seq<ApplicationModel>) -> bool {
    forall|i: int, j: int|
        0 <= i < j < list.len() ==> (#[trigger] list[i]).desktop_id != (
        #[trigger] list[j]).desktop_id
}

impl Gathering {
    /// Whether the applications that were found have different identifiers, all of which were
    /// seen.
    pub open spec fn is_distinct(self) -> bool {
        &&& distinct_ids(self.applications)
        &&& forall|i: int|
            0 <= i < self.applications.len() ==> self.seen.contains(
                (#[trigger] self.applications[i]).desktop_id,
            )
    }
}

/// Files add applications with different identifiers only.
proof fn lemma_files_stay_distinct(
    gathered: Gathering,
    files: Seq<FileModel>,
    locales: Seq<Seq<char>>,
    desktops: Seq<Seq<char>>,
)
    requires
        gathered.is_distinct(),
    ensures
        gathered.with_files(files, locales, desktops).is_distinct(),
    decreases files.len(),
{
    if files.len() > 0 {
        lemma_files_stay_distinct(gathered, files.drop_last(), locales, desktops);
        let before = gathered.with_files(files.drop_last(), locales, desktops);
        let after = before.with_file(files.last(), locales, desktops);
        assert forall|i: int| 0 <= i < after.applications.len() implies after.seen.contains(
            (#[trigger] after.applications[i]).desktop_id,
        ) by {
            if i < before.applications.len() {
                assert(before.seen.contains(before.applications[i].desktop_id));
            }
        }
        assert forall|i: int, j: int| 0 <= i < j < after.applications.len() implies (
        #[trigger] after.applications[i]).desktop_id != (
        #[trigger] after.applications[j]).desktop_id by {
            assert(before.seen.contains(before.applications[i].desktop_id));
            if j < before.applications.len() {
                assert(before.applications[i].desktop_id != before.applications[j].desktop_id);
            }
        }
    }
}

/// Directories add applications with different identifiers only.
proof fn lemma_directories_stay_distinct(
    gathered: Gathering,
    directories: Seq<Seq<FileModel>>,
    locales: Seq<Seq<char>>,
    desktops: Seq<Seq<char>>,
)
    requires
        gathered.is_distinct(),
    ensures
        gathered.with_directories(directories, locales, desktops).is_distinct(),
    decreases directories.len(),
{
    if directories.len() > 0 {
        lemma_directories_stay_distinct(gathered, directories.drop_last(), locales, desktops);
        let before = gathered.with_directories(directories.drop_last(), locales, desktops);
        let taken = before.taken(directories.last());
        let left = Gathering { remaining: (before.remaining - taken.len()) as nat, ..before };
        lemma_files_stay_distinct(left, taken, locales, desktops);
    }
}

/// The applications of groups, one group after the other.
pub open spec fn listed(groups: Seq<GroupModel>) -> Seq<ApplicationModel>
    decreases groups.len(),
{
    if groups.len() == 0 {
        Seq::empty()
    } else {
        listed(groups.drop_last()) + groups.last().applications
    }
}

/// Grouping keeps the applications and their order.
pub proof fn law_grouping_keeps_the_order(list: Seq<ApplicationModel>)
    ensures
        listed(grouped(list)) == list,
    decreases list.len(),
{
    if list.len() > 0 {
        law_grouping_keeps_the_order(list.drop_last());
        let before = grouped(list.drop_last());
        let after = grouped(list);
        if before.len() > 0 && before.last().category == list.last().category {
            assert(after.drop_last() =~= before.drop_last());
            assert(listed(after) =~= listed(before).push(list.last()));
        } else {
            assert(after.drop_last() =~= before);
            assert(listed(after) =~= listed(before).push(list.last()));
        }
        assert(list =~= list.drop_last().push(list.last()));
    } else {
        assert(listed(grouped(list)) =~= list);
    }
}

/// Putting applications in another order keeps their identifiers apart.
proof fn lemma_sorting_keeps_identifiers_apart(
    before: Seq<ApplicationModel>,
    after: Seq<ApplicationModel>,
)
    requires
        distinct_ids(before),
        before.to_multiset() == after.to_multiset(),
    ensures
        distinct_ids(after),
{
    broadcast use vstd::seq_lib::group_to_multiset_ensures;

    assert(before.no_duplicates()) by {
        assert forall|i: int, j: int|
            0 <= i < before.len() && 0 <= j < before.len() && i != j implies before[i]
            != before[j] by {
            if i < j {
                assert(before[i].desktop_id != before[j].desktop_id);
            } else {
                assert(before[j].desktop_id != before[i].desktop_id);
            }
        }
    }
    before.lemma_multiset_has_no_duplicates();
    after.lemma_multiset_has_no_duplicates_conv();
    assert forall|i: int, j: int| 0 <= i < j < after.len() implies (
    #[trigger] after[i]).desktop_id != (#[trigger] after[j]).desktop_id by {
        assert(after.to_multiset().contains(after[i]));
        assert(after.to_multiset().contains(after[j]));
        assert(before.contains(after[i]) && before.contains(after[j]));
        let p = choose|p: int| 0 <= p < before.len() && before[p] == after[i];
        let q = choose|q: int| 0 <= q < before.len() && before[q] == after[j];
        assert(after[i] != after[j]);
        if p < q {
            assert(before[p].desktop_id != before[q].desktop_id);
        } else {
            assert(before[q].desktop_id != before[p].desktop_id);
        }
    }
}

/// No identifier occurs twice in a catalog, in one group or in two, whatever the directories hold.
pub proof fn law_identifiers_stay_distinct(
    directories: Seq<Seq<FileModel>>,
    locales: Seq<Seq<char>>,
    desktops: Seq<Seq<char>>,
    catalog: CatalogModel,
)
    requires
        arranges(Gathering::start().with_directories(directories, locales, desktops), catalog),
    ensures
        distinct_ids(listed(catalog.groups)),
{
    let gathered = Gathering::start().with_directories(directories, locales, desktops);
    lemma_directories_stay_distinct(Gathering::start(), directories, locales, desktops);
    let list = choose|list: Seq<ApplicationModel>| #[trigger]
        sorts(gathered.applications, list) && catalog.groups == grouped(list);
    lemma_sorting_keeps_identifiers_apart(gathered.applications, list);
    law_grouping_keeps_the_order(list);
}

/// Applications with different identifiers can be put in order in one way only.
pub proof fn law_order_is_determined(left: Seq<ApplicationModel>, right: Seq<ApplicationModel>)
    requires
        is_sorted(left),
        is_sorted(right),
        left.to_multiset() == right.to_multiset(),
        distinct_ids(left),
    ensures
        left == right,
    decreases left.len(),
{
    broadcast use vstd::seq_lib::group_to_multiset_ensures;

    assert(left.to_multiset().len() == left.len());
    assert(right.to_multiset().len() == right.len());
    if left.len() > 0 {
        let first = left[0];
        let other = right[0];
        assert(right.contains(first)) by {
            assert(left.contains(first));
            assert(left.to_multiset().contains(first));
        }
        assert(left.contains(other)) by {
            assert(right.contains(other));
            assert(right.to_multiset().contains(other));
        }
        let j = choose|j: int| 0 <= j < right.len() && right[j] == first;
        let k = choose|k: int| 0 <= k < left.len() && left[k] == other;
        if k > 0 {
            assert(!ranks_before(left[k], left[0]));
            if j > 0 {
                assert(!ranks_before(right[j], right[0]));
            }
            text::lemma_precedes(lowercase(first.name), lowercase(other.name), other.name);
            text::lemma_precedes(first.name, other.name, other.name);
            text::lemma_precedes(first.desktop_id, other.desktop_id, other.desktop_id);
            assert(left[0].desktop_id != left[k].desktop_id);
        }
        let left_rest = left.remove(0);
        let right_rest = right.remove(0);
        assert forall|a: int, b: int| 0 <= a < b < left_rest.len() implies !ranks_before(
            #[trigger] left_rest[b],
            #[trigger] left_rest[a],
        ) && left_rest[a].desktop_id != left_rest[b].desktop_id by {
            assert(!ranks_before(left[b + 1], left[a + 1]));
        }
        assert forall|a: int, b: int| 0 <= a < b < right_rest.len() implies !ranks_before(
            #[trigger] right_rest[b],
            #[trigger] right_rest[a],
        ) by {
            assert(!ranks_before(right[b + 1], right[a + 1]));
        }
        law_order_is_determined(left_rest, right_rest);
        assert(left =~= seq![left[0]] + left_rest);
        assert(right =~= seq![right[0]] + right_rest);
    } else {
        assert(left =~= right);
    }
}

} // verus!
