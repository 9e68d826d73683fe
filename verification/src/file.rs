//! The resource gateway: where a resource lies, what a directory lists, and
//! what a delete or an upload may do.

use crate::config::{distinct_names, Config};
use crate::filelist::{
    ascending, lemma_sorted_by_name, sorted_by_name, FileList, FileListItem, ItemView, ListView,
};
use crate::path::{
    below_root, is_safe_path, is_safe_segment, lemma_location_is_below_root,
    lemma_root_only_at_empty_path, locate, locate_first, location, push_segment, safe_path,
    safe_segment, with_segment,
};
use crate::status::Failure;
use crate::text::{ends_with, text_eq};
use crate::uri::{child_uri, lemma_uri_of_child, resource_uri, uri_of};
use vstd::prelude::*;

verus! {

/// One entry of a directory as the filesystem reports it.
#[derive(Clone, Debug, PartialEq, Eq)]
pub struct DirEntry {
    pub name: String,
    pub dir: bool,
}

/// A directory entry, as a value.
pub struct EntryView {
    pub name: Seq<char>,
    pub dir: bool,
}

impl DeepView for DirEntry {
    type V = EntryView;

    open spec fn deep_view(&self) -> EntryView {
        EntryView { name: self.name@, dir: self.dir }
    }
}

/// Whether a name marks a hidden entry: it starts with a dot.
pub open spec fn hidden(name: Seq<char>) -> bool {
    name.len() > 0 && name[0] == '.'
}

/// Whether a name marks a hidden entry.
pub fn is_hidden(name: &str) -> (is: bool)
    ensures
        is == hidden(name@),
{
    !name.is_empty() && name.get_char(0) == '.'
}

/// The location of a resource: the category's root with the path's segments
/// behind. There is none if the catalog does not hold the category or a
/// segment of the path is not safe.
pub open spec fn resolved(config: Config, filetype: Seq<char>, segments: Seq<Seq<char>>) -> Option<
    Seq<char>,
> {
    match config.root_of(filetype) {
        Some(root) => if safe_path(segments) {
            Some(location(root, segments))
        } else {
            None
        },
        None => None,
    }
}

/// Finds the location of a resource.
pub fn resolve(config: &Config, filetype: &str, segments: &Vec<String>) -> (path: Option<String>)
    ensures
        path.deep_view() == resolved(*config, filetype@, segments.deep_view()),
        path matches Some(path) ==> below_root(config.root_of(filetype@)->0, path@),
{
    match config.filetype_path(filetype) {
        Some(root) => {
            if is_safe_path(segments) {
                proof {
                    lemma_location_is_below_root(root@, segments.deep_view());
                }
                Some(locate(root.as_str(), segments))
            } else {
                None
            }
        },
        None => None,
    }
}

/// The listing entry for a directory entry found at `segments` in `filetype`.
pub open spec fn item_of(filetype: Seq<char>, segments: Seq<Seq<char>>, entry: EntryView) -> ItemView {
    ItemView { name: entry.name, uri: uri_of(filetype, segments.push(entry.name)), dir: entry.dir }
}

/// The listing entries for the directory entries that are not hidden, in the
/// order of the directory entries.
pub open spec fn visible_items(
    filetype: Seq<char>,
    segments: Seq<Seq<char>>,
    entries: Seq<EntryView>,
) -> Seq<ItemView>
    decreases entries.len(),
{
    if entries.len() == 0 {
        Seq::empty()
    } else {
        let earlier = visible_items(filetype, segments, entries.drop_last());
        if hidden(entries.last().name) {
            earlier
        } else {
            earlier.push(item_of(filetype, segments, entries.last()))
        }
    }
}

/// The listing of a directory: one entry for each directory entry that is not
/// hidden, in ascending order of the names.
pub open spec fn listing_of(
    filetype: Seq<char>,
    segments: Seq<Seq<char>>,
    entries: Seq<EntryView>,
) -> ListView {
    ListView { filetype, items: sorted_by_name(visible_items(filetype, segments, entries)) }
}

/// Lists a directory from the entries that the filesystem reports for it.
pub fn list_directory(filetype: &str, segments: &Vec<String>, entries: &Vec<DirEntry>) -> (list:
    FileList)
    ensures
        list@ == listing_of(filetype@, segments.deep_view(), entries.deep_view()),
        ascending(list@.items),
{
    let base = resource_uri(filetype, segments);
    let ghost all = entries.deep_view();
    let mut items: Vec<FileListItem> = Vec::new();
    let mut i: usize = 0;
    assert(items.deep_view() =~= visible_items(filetype@, segments.deep_view(), all.take(0)));
    while i < entries.len()
        invariant
            i <= entries.len(),
            all == entries.deep_view(),
            base@ == uri_of(filetype@, segments.deep_view()),
            items.deep_view() == visible_items(
                filetype@,
                segments.deep_view(),
                all.take(i as int),
            ),
        decreases entries.len() - i,
    {
        let ghost before = items.deep_view();
        let entry = &entries[i];
        proof {
            assert(all.take(i + 1).drop_last() =~= all.take(i as int));
            assert(all.take(i + 1).last() == entry.deep_view());
            lemma_uri_of_child(filetype@, segments.deep_view(), entry.name@);
        }
        if !is_hidden(entry.name.as_str()) {
            let item = FileListItem {
                name: String::from_str(entry.name.as_str()),
                uri: child_uri(base.as_str(), entry.name.as_str()),
                dir: entry.dir,
            };
            let ghost view = item.deep_view();
            items.push(item);
            assert(items.deep_view() =~= before.push(view));
        }
        i += 1;
    }
    assert(all.take(entries.len() as int) =~= all);
    FileList::new_sorted(filetype, items)
}

/// The listing entry for a category.
pub open spec fn category_item(name: Seq<char>) -> ItemView {
    ItemView { name, uri: uri_of(name, Seq::empty()), dir: true }
}

/// The listing entries for a sequence of category names.
pub open spec fn category_items(names: Seq<Seq<char>>) -> Seq<ItemView> {
    Seq::new(names.len(), |i: int| category_item(names[i]))
}

/// The listing of all categories of the catalog, in ascending order of their
/// names. Each is a directory at the root of its own category.
pub fn get_filetypes(config: &Config) -> (list: FileList)
    ensures
        list@.filetype == "filetypes"@,
        list@.items == sorted_by_name(
            category_items(distinct_names(config.filetype_paths.deep_view())),
        ),
        ascending(list@.items),
{
    let names = config.filetypelist();
    let none: Vec<String> = Vec::new();
    assert(none.deep_view() =~= Seq::<Seq<char>>::empty());
    let mut items: Vec<FileListItem> = Vec::new();
    let mut i: usize = 0;
    while i < names.len()
        invariant
            i <= names.len(),
            none.deep_view() == Seq::<Seq<char>>::empty(),
            items.deep_view() == category_items(names.deep_view().take(i as int)),
        decreases names.len() - i,
    {
        let ghost before = items.deep_view();
        let item = FileListItem {
            name: String::from_str(names[i].as_str()),
            uri: resource_uri(names[i].as_str(), &none),
            dir: true,
        };
        let ghost view = item.deep_view();
        items.push(item);
        assert(items.deep_view() =~= category_items(names.deep_view().take(i + 1))) by {
            assert(names.deep_view().take(i + 1)[i as int] == names[i as int]@);
            assert(items.deep_view() =~= before.push(view));
        }
        i += 1;
    }
    assert(names.deep_view().take(names.len() as int) =~= names.deep_view());
    FileList::new_sorted("filetypes", items)
}

/// What the filesystem holds at a location.
#[derive(Clone, Debug, PartialEq, Eq)]
pub enum Found {
    /// A directory with these entries.
    Directory(Vec<DirEntry>),
    /// A file.
    File,
    /// Nothing.
    Missing,
}

/// What the filesystem holds at a location, as a value.
pub enum FoundView {
    Directory(Seq<EntryView>),
    File,
    Missing,
}

impl View for Found {
    type V = FoundView;

    open spec fn view(&self) -> FoundView {
        match self {
            Found::Directory(entries) => FoundView::Directory(entries.deep_view()),
            Found::File => FoundView::File,
            Found::Missing => FoundView::Missing,
        }
    }
}

/// What a retrieval answers with.
#[derive(Clone, Debug, PartialEq, Eq)]
pub enum FileGet {
    /// The listing of a directory, as a document.
    JsonListing(FileList),
    /// The listing of a directory, to be rendered as a page.
    HtmlListing(FileList),
    /// The bytes of the file at this location.
    File(String),
    /// The bytes of the package archive at this location.
    Archive(String),
}

/// What a retrieval answers with, as a value.
pub enum FileGetView {
    JsonListing(ListView),
    HtmlListing(ListView),
    File(Seq<char>),
    Archive(Seq<char>),
}

impl DeepView for FileGet {
    type V = FileGetView;

    open spec fn deep_view(&self) -> FileGetView {
        self@
    }
}

impl View for FileGet {
    type V = FileGetView;

    open spec fn view(&self) -> FileGetView {
        match self {
            FileGet::JsonListing(list) => FileGetView::JsonListing(list@),
            FileGet::HtmlListing(list) => FileGetView::HtmlListing(list@),
            FileGet::File(path) => FileGetView::File(path@),
            FileGet::Archive(path) => FileGetView::Archive(path@),
        }
    }
}

/// The ending of the name of a package archive.
pub open spec fn archive_ending() -> Seq<char> {
    ".rnbopack"@
}

/// Whether the resource at `segments` is a package archive by its name.
pub open spec fn names_archive(segments: Seq<Seq<char>>) -> bool {
    segments.len() > 0 && archive_ending().is_suffix_of(segments.last())
}

/// What a retrieval answers with. A resource that cannot be located, or at
/// whose location nothing is found, gives `None`. A directory gives its
/// listing, as a document or as a page as the caller asks. A file gives its
/// location: as an archive if its name ends like one, in either mode.
pub open spec fn retrieval(
    config: Config,
    filetype: Seq<char>,
    segments: Seq<Seq<char>>,
    found: FoundView,
    json: bool,
) -> Option<FileGetView> {
    match resolved(config, filetype, segments) {
        None => None,
        Some(path) => match found {
            FoundView::Missing => None,
            FoundView::Directory(entries) => if json {
                Some(FileGetView::JsonListing(listing_of(filetype, segments, entries)))
            } else {
                Some(FileGetView::HtmlListing(listing_of(filetype, segments, entries)))
            },
            FoundView::File => if names_archive(segments) {
                Some(FileGetView::Archive(path))
            } else {
                Some(FileGetView::File(path))
            },
        },
    }
}

/// Answers a retrieval, given what the filesystem holds at the resource's
/// location.
pub fn get_impl(
    config: &Config,
    filetype: &str,
    subdirs: &Vec<String>,
    found: &Found,
    json: bool,
) -> (answer: Option<FileGet>)
    ensures
        answer.deep_view() == retrieval(
            *config,
            filetype@,
            subdirs.deep_view(),
            found@,
            json,
        ),
{
    let path = match resolve(config, filetype, subdirs) {
        Some(path) => path,
        None => {
            return None;
        },
    };
    match found {
        Found::Missing => None,
        Found::Directory(entries) => {
            let list = list_directory(filetype, subdirs, entries);
            if json {
                Some(FileGet::JsonListing(list))
            } else {
                Some(FileGet::HtmlListing(list))
            }
        },
        Found::File => {
            let n = subdirs.len();
            if n > 0 && ends_with(subdirs[n - 1].as_str(), ".rnbopack") {
                assert(subdirs.deep_view().last() == subdirs[n - 1]@);
                Some(FileGet::Archive(path))
            } else {
                assert(n > 0 ==> subdirs.deep_view().last() == subdirs[n - 1]@);
                Some(FileGet::File(path))
            }
        },
    }
}

/// Answers a retrieval whose caller asks for a page.
pub fn get_html(config: &Config, filetype: &str, subdirs: &Vec<String>, found: &Found) -> (answer:
    Option<FileGet>)
    ensures
        answer.deep_view() == retrieval(
            *config,
            filetype@,
            subdirs.deep_view(),
            found@,
            false,
        ),
{
    get_impl(config, filetype, subdirs, found, false)
}

/// Answers a retrieval whose caller asks for a document.
pub fn get_json(config: &Config, filetype: &str, subdirs: &Vec<String>, found: &Found) -> (answer:
    Option<FileGet>)
    ensures
        answer.deep_view() == retrieval(
            *config,
            filetype@,
            subdirs.deep_view(),
            found@,
            true,
        ),
{
    get_impl(config, filetype, subdirs, found, true)
}

/// What a delete is to remove.
#[derive(Clone, Debug, PartialEq, Eq)]
pub enum Removal {
    /// The directory at this location, with all that is in it.
    Tree(String),
    /// The file at this location.
    File(String),
}

/// What a delete is to remove, as a value.
pub enum RemovalView {
    Tree(Seq<char>),
    File(Seq<char>),
}

impl View for Removal {
    type V = RemovalView;

    open spec fn view(&self) -> RemovalView {
        match self {
            Removal::Tree(path) => RemovalView::Tree(path@),
            Removal::File(path) => RemovalView::File(path@),
        }
    }
}

/// What a delete may do. It is forbidden in a category that may not be
/// changed, and on the root of any category, which is the empty path. A path
/// with a segment that is not safe names nothing. Otherwise the resource at
/// the path is removed: as a tree if the filesystem holds a directory there,
/// else as a file.
pub open spec fn deletion(
    config: Config,
    filetype: Seq<char>,
    segments: Seq<Seq<char>>,
    is_dir: bool,
) -> Result<RemovalView, Failure> {
    match config.deleteable_root_of(filetype) {
        None => Err(Failure::Forbidden),
        Some(root) => if segments.len() == 0 {
            Err(Failure::Forbidden)
        } else if !safe_path(segments) {
            Err(Failure::NotFound)
        } else if is_dir {
            Ok(RemovalView::Tree(location(root, segments)))
        } else {
            Ok(RemovalView::File(location(root, segments)))
        },
    }
}

/// The removal of a result, as a value.
pub open spec fn removal_view(result: Result<Removal, Failure>) -> Result<RemovalView, Failure> {
    match result {
        Ok(removal) => Ok(removal@),
        Err(failure) => Err(failure),
    }
}

/// Decides a delete, given whether the filesystem holds a directory at the
/// resource's location.
pub fn delete(config: &Config, filetype: &str, name: &Vec<String>, is_dir: bool) -> (result: Result<
    Removal,
    Failure,
>)
    ensures
        removal_view(result) == deletion(*config, filetype@, name.deep_view(), is_dir),
{
    let root = match config.deleteable_filetype_path(filetype) {
        Some(root) => root,
        None => {
            return Err(Failure::Forbidden);
        },
    };
    if name.len() == 0 {
        return Err(Failure::Forbidden);
    }
    if !is_safe_path(name) {
        return Err(Failure::NotFound);
    }
    let path = locate(root.as_str(), name);
    if is_dir {
        Ok(Removal::Tree(path))
    } else {
        Ok(Removal::File(path))
    }
}

/// The outcome of a delete once the filesystem has acted: done, with the
/// status of an empty answer, or `NotFound` if it could not remove the
/// resource.
pub fn deleted(removed: bool) -> (outcome: Result<u16, Failure>)
    ensures
        outcome == if removed {
            Ok::<u16, Failure>(204)
        } else {
            Err::<u16, Failure>(Failure::NotFound)
        },
{
    if removed {
        Ok(204)
    } else {
        Err(Failure::NotFound)
    }
}

/// Where an upload is written: the file's location, and the directory that
/// has to exist before.
#[derive(Clone, Debug, PartialEq, Eq)]
pub struct Destination {
    pub dir: String,
    pub path: String,
}

/// Where an upload is written, as a value.
pub struct DestinationView {
    pub dir: Seq<char>,
    pub path: Seq<char>,
}

impl View for Destination {
    type V = DestinationView;

    open spec fn view(&self) -> DestinationView {
        DestinationView { dir: self.dir@, path: self.path@ }
    }
}

/// What an upload is to do next.
#[derive(Clone, Debug, PartialEq, Eq)]
pub enum UploadStep {
    /// Make the directory and write the file.
    Write(Destination),
    /// Ask the device for its version first.
    QueryVersion,
}

/// What an upload is to do next, as a value.
pub enum UploadStepView {
    Write(DestinationView),
    QueryVersion,
}

impl View for UploadStep {
    type V = UploadStepView;

    open spec fn view(&self) -> UploadStepView {
        match self {
            UploadStep::Write(destination) => UploadStepView::Write(destination@),
            UploadStep::QueryVersion => UploadStepView::QueryVersion,
        }
    }
}

/// The segment that stands for the device's live version.
pub open spec fn current_token() -> Seq<char> {
    "current"@
}

/// The place of the resource at `segments` below `root`, which are not
/// empty: its location, and as directory the location of its parent.
pub open spec fn destination(root: Seq<char>, segments: Seq<Seq<char>>) -> DestinationView {
    DestinationView {
        dir: location(root, segments.drop_last()),
        path: location(root, segments),
    }
}

/// What an upload is to do. It is a bad request in a category that the
/// catalog does not hold. A path that starts with `current` must be
/// `current` and one safe file name, and then needs the device's version;
/// any other shape is a bad request. Any other path must be safe and not
/// empty, and is written below the category's root.
pub open spec fn upload_plan(config: Config, filetype: Seq<char>, segments: Seq<Seq<char>>) -> Result<
    UploadStepView,
    Failure,
> {
    match config.root_of(filetype) {
        None => Err(Failure::BadRequest),
        Some(root) => if segments.len() > 0 && segments[0] == current_token() {
            if segments.len() == 2 && safe_segment(segments[1]) {
                Ok(UploadStepView::QueryVersion)
            } else {
                Err(Failure::BadRequest)
            }
        } else if segments.len() == 0 || !safe_path(segments) {
            Err(Failure::BadRequest)
        } else {
            Ok(UploadStepView::Write(destination(root, segments)))
        },
    }
}

/// The step of a result, as a value.
pub open spec fn step_view(result: Result<UploadStep, Failure>) -> Result<UploadStepView, Failure> {
    match result {
        Ok(step) => Ok(step@),
        Err(failure) => Err(failure),
    }
}

/// The destination of a result, as a value.
pub open spec fn destination_view(result: Result<Destination, Failure>) -> Result<
    DestinationView,
    Failure,
> {
    match result {
        Ok(destination) => Ok(destination@),
        Err(failure) => Err(failure),
    }
}

/// Decides what an upload is to do.
pub fn upload(config: &Config, filetype: &str, name: &Vec<String>) -> (result: Result<
    UploadStep,
    Failure,
>)
    ensures
        step_view(result) == upload_plan(*config, filetype@, name.deep_view()),
{
    let root = match config.filetype_path(filetype) {
        Some(root) => root,
        None => {
            return Err(Failure::BadRequest);
        },
    };
    let n = name.len();
    assert(n > 0 ==> name.deep_view()[0] == name[0]@);
    if n > 0 && text_eq(name[0].as_str(), "current") {
        assert(n == 2 ==> name.deep_view()[1] == name[1]@);
        if n == 2 && is_safe_segment(name[1].as_str()) {
            return Ok(UploadStep::QueryVersion);
        }
        return Err(Failure::BadRequest);
    }
    if n == 0 || !is_safe_path(name) {
        return Err(Failure::BadRequest);
    }
    assert(name.deep_view().take(n - 1) =~= name.deep_view().drop_last());
    let dir = locate_first(root.as_str(), name, n - 1);
    let path = locate(root.as_str(), name);
    Ok(UploadStep::Write(Destination { dir, path }))
}

/// Where an upload under `current` is written once the device has answered
/// the version query. Without an answer, or with a version that is no safe
/// segment, the device has failed the upload. Otherwise the version takes
/// the place of `current`. A request that needs no version is decided as
/// without one.
pub open spec fn versioned_upload(
    config: Config,
    filetype: Seq<char>,
    segments: Seq<Seq<char>>,
    version: Option<Seq<char>>,
) -> Result<DestinationView, Failure> {
    match upload_plan(config, filetype, segments) {
        Err(failure) => Err(failure),
        Ok(UploadStepView::Write(destination)) => Ok(destination),
        Ok(UploadStepView::QueryVersion) => match version {
            Some(version) => if safe_segment(version) {
                Ok(destination(config.root_of(filetype)->0, seq![version, segments[1]]))
            } else {
                Err(Failure::DependencyFailure)
            },
            None => Err(Failure::DependencyFailure),
        },
    }
}

/// Decides where an upload is written, given the device's answer to the
/// version query: `None` if the query failed.
pub fn upload_current(
    config: &Config,
    filetype: &str,
    name: &Vec<String>,
    version: Option<&str>,
) -> (result: Result<Destination, Failure>)
    ensures
        destination_view(result) == versioned_upload(
            *config,
            filetype@,
            name.deep_view(),
            version.deep_view(),
        ),
{
    match upload(config, filetype, name) {
        Err(failure) => Err(failure),
        Ok(UploadStep::Write(destination)) => Ok(destination),
        Ok(UploadStep::QueryVersion) => {
            let root = match config.filetype_path(filetype) {
                Some(root) => root,
                None => {
                    return Err(Failure::BadRequest);
                },
            };
            match version {
                Some(version) => {
                    if !is_safe_segment(version) {
                        return Err(Failure::DependencyFailure);
                    }
                    let mut dir = String::from_str(root.as_str());
                    push_segment(&mut dir, version);
                    let mut path = String::from_str(dir.as_str());
                    assert(name.deep_view()[1] == name[1]@);
                    push_segment(&mut path, name[1].as_str());
                    proof {
                        let segments = seq![version@, name[1]@];
                        assert(segments.drop_last() =~= seq![version@]);
                        assert(seq![version@].drop_last() =~= Seq::<Seq<char>>::empty());
                        assert(location(root@, Seq::<Seq<char>>::empty()) == root@);
                        assert(seq![version@].last() == version@);
                        assert(location(root@, seq![version@]) == with_segment(root@, version@));
                        assert(segments.last() == name[1]@);
                    }
                    Ok(Destination { dir, path })
                },
                None => Err(Failure::DependencyFailure),
            }
        },
    }
}

/// The outcome of an upload once the filesystem has acted: created, with
/// its status, or an I/O failure if the directory could not be made or the
/// file not written.
pub fn uploaded(made_dir: bool, written: bool) -> (outcome: Result<u16, Failure>)
    ensures
        outcome == if made_dir && written {
            Ok::<u16, Failure>(201)
        } else {
            Err::<u16, Failure>(Failure::IoFailure)
        },
{
    if made_dir && written {
        Ok(201)
    } else {
        Err(Failure::IoFailure)
    }
}

/// The visible items of two runs of entries, one behind the other, are the
/// visible items of the first with those of the second behind.
pub proof fn lemma_visible_items_of_both(
    filetype: Seq<char>,
    segments: Seq<Seq<char>>,
    first: Seq<EntryView>,
    second: Seq<EntryView>,
)
    ensures
        visible_items(filetype, segments, first + second) == visible_items(
            filetype,
            segments,
            first,
        ) + visible_items(filetype, segments, second),
    decreases second.len(),
{
    if second.len() == 0 {
        assert(first + second =~= first);
        assert(visible_items(filetype, segments, first) + Seq::<ItemView>::empty()
            =~= visible_items(filetype, segments, first));
    } else {
        let both = first + second;
        assert(both.drop_last() =~= first + second.drop_last());
        assert(both.last() == second.last());
        lemma_visible_items_of_both(filetype, segments, first, second.drop_last());
        let a = visible_items(filetype, segments, first);
        let b = visible_items(filetype, segments, second.drop_last());
        if !hidden(second.last().name) {
            let item = item_of(filetype, segments, second.last());
            assert((a + b).push(item) =~= a + b.push(item));
        }
    }
}

/// An item is among the visible items exactly if it is the item of an entry
/// that is not hidden.
pub proof fn lemma_visible_items_hold(
    filetype: Seq<char>,
    segments: Seq<Seq<char>>,
    entries: Seq<EntryView>,
    item: ItemView,
)
    ensures
        visible_items(filetype, segments, entries).contains(item) <==> exists|i: int|
            0 <= i < entries.len() && !hidden((#[trigger] entries[i]).name) && item == item_of(
                filetype,
                segments,
                entries[i],
            ),
    decreases entries.len(),
{
    if entries.len() > 0 {
        let earlier = entries.drop_last();
        let last = entries.last();
        lemma_visible_items_hold(filetype, segments, earlier, item);
        let before = visible_items(filetype, segments, earlier);
        let all = visible_items(filetype, segments, entries);
        if all.contains(item) {
            let k = choose|k: int| 0 <= k < all.len() && all[k] == item;
            if k < before.len() {
                assert(before[k] == item);
                let i = choose|i: int|
                    0 <= i < earlier.len() && !hidden((#[trigger] earlier[i]).name) && item
                        == item_of(filetype, segments, earlier[i]);
                assert(entries[i] == earlier[i]);
            } else {
                assert(entries[entries.len() - 1] == last);
            }
        }
        if exists|i: int|
            0 <= i < entries.len() && !hidden((#[trigger] entries[i]).name) && item == item_of(
                filetype,
                segments,
                entries[i],
            ) {
            let i = choose|i: int|
                0 <= i < entries.len() && !hidden((#[trigger] entries[i]).name) && item
                    == item_of(filetype, segments, entries[i]);
            if i < earlier.len() {
                assert(earlier[i] == entries[i]);
                let k = choose|k: int| 0 <= k < before.len() && before[k] == item;
                assert(all[k] == item);
            } else {
                assert(all[all.len() - 1] == item);
            }
        }
    }
}

/// A listing holds the direct children that are handed in and no others,
/// leaves out the hidden ones, and ascends by name: an item is in the listing
/// exactly if it is the item of an entry that is not hidden.
pub proof fn lemma_listing_shows_visible_entries(
    filetype: Seq<char>,
    segments: Seq<Seq<char>>,
    entries: Seq<EntryView>,
)
    ensures
        ascending(listing_of(filetype, segments, entries).items),
        forall|item: ItemView|
            #[trigger] listing_of(filetype, segments, entries).items.contains(item)
                <==> exists|i: int|
                0 <= i < entries.len() && !hidden((#[trigger] entries[i]).name) && item
                    == item_of(filetype, segments, entries[i]),
        forall|item: ItemView|
            #[trigger] listing_of(filetype, segments, entries).items.contains(item) ==> !hidden(
                item.name,
            ),
{
    broadcast use vstd::seq_lib::group_to_multiset_ensures;

    let visible = visible_items(filetype, segments, entries);
    let items = listing_of(filetype, segments, entries).items;
    lemma_sorted_by_name(visible);
    assert forall|item: ItemView| #[trigger] items.contains(item) <==> exists|i: int|
        0 <= i < entries.len() && !hidden((#[trigger] entries[i]).name) && item == item_of(
            filetype,
            segments,
            entries[i],
        ) by {
        lemma_visible_items_hold(filetype, segments, entries, item);
        assert(items.contains(item) <==> items.to_multiset().count(item) > 0);
        assert(visible.contains(item) <==> visible.to_multiset().count(item) > 0);
    }
}

/// Taking one entry out of a directory takes its item out of the listing and
/// leaves every other item in it; taking out a hidden entry changes nothing.
pub proof fn lemma_listing_without_entry(
    filetype: Seq<char>,
    segments: Seq<Seq<char>>,
    entries: Seq<EntryView>,
    at: int,
)
    requires
        0 <= at < entries.len(),
    ensures
        listing_of(filetype, segments, entries.remove(at)).items.to_multiset() == if hidden(
            entries[at].name,
        ) {
            listing_of(filetype, segments, entries).items.to_multiset()
        } else {
            listing_of(filetype, segments, entries).items.to_multiset().remove(
                item_of(filetype, segments, entries[at]),
            )
        },
{
    broadcast use vstd::seq_lib::group_to_multiset_ensures;

    let first = entries.take(at);
    let one = seq![entries[at]];
    let second = entries.skip(at + 1);
    assert(entries =~= first + one + second);
    assert(entries.remove(at) =~= first + second);
    lemma_visible_items_of_both(filetype, segments, first, one);
    lemma_visible_items_of_both(filetype, segments, first + one, second);
    lemma_visible_items_of_both(filetype, segments, first, second);
    let a = visible_items(filetype, segments, first);
    let b = visible_items(filetype, segments, second);
    let m = visible_items(filetype, segments, one);
    assert(one.drop_last() =~= Seq::<EntryView>::empty());
    assert(one.last() == entries[at]);
    assert(visible_items(filetype, segments, one.drop_last()) =~= Seq::<ItemView>::empty());
    lemma_sorted_by_name(visible_items(filetype, segments, entries));
    lemma_sorted_by_name(visible_items(filetype, segments, entries.remove(at)));
    if hidden(entries[at].name) {
        assert(m =~= Seq::<ItemView>::empty());
        assert(a + m + b =~= a + b);
    } else {
        let item = item_of(filetype, segments, entries[at]);
        assert(m =~= Seq::<ItemView>::empty().push(item));
        vstd::seq_lib::lemma_multiset_commutative(a, m);
        vstd::seq_lib::lemma_multiset_commutative(a + m, b);
        vstd::seq_lib::lemma_multiset_commutative(a, b);
        assert(m.to_multiset() =~= vstd::multiset::Multiset::<ItemView>::empty().insert(item));
        assert((a + b).to_multiset() =~= (a + m + b).to_multiset().remove(item));
    }
}

/// No resource is located above its category's root: every location that a
/// path resolves to lies below the root of the category.
pub proof fn lemma_resolved_lies_below_root(
    config: Config,
    filetype: Seq<char>,
    segments: Seq<Seq<char>>,
)
    ensures
        resolved(config, filetype, segments) matches Some(path) ==> below_root(
            config.root_of(filetype)->0,
            path,
        ),
{
    if resolved(config, filetype, segments) is Some {
        lemma_location_is_below_root(config.root_of(filetype)->0, segments);
    }
}

/// A delete that goes ahead removes exactly the resource that a retrieval of
/// the same path finds, and never a category's root.
pub proof fn lemma_delete_removes_the_resource(
    config: Config,
    filetype: Seq<char>,
    segments: Seq<Seq<char>>,
    is_dir: bool,
)
    ensures
        match deletion(config, filetype, segments, is_dir) {
            Ok(RemovalView::Tree(path)) => is_dir && resolved(config, filetype, segments) == Some(
                path,
            ) && Some(path) != config.root_of(filetype),
            Ok(RemovalView::File(path)) => !is_dir && resolved(config, filetype, segments) == Some(
                path,
            ) && Some(path) != config.root_of(filetype),
            Err(_) => true,
        },
{
    if deletion(config, filetype, segments, is_dir) is Ok {
        lemma_root_only_at_empty_path(config.root_of(filetype)->0, segments);
    }
}

/// A delete in a category that may not be changed is forbidden, whatever the
/// path: it names nothing to remove.
pub proof fn lemma_fixed_category_forbids_delete(
    config: Config,
    filetype: Seq<char>,
    segments: Seq<Seq<char>>,
    is_dir: bool,
)
    requires
        !config.deleteable(filetype),
    ensures
        deletion(config, filetype, segments, is_dir) == Err::<RemovalView, Failure>(
            Failure::Forbidden,
        ),
        Failure::Forbidden.code() == 403,
{
}

/// A delete of a category's root is forbidden, also where the category may be
/// changed: the empty path is refused, and no safe path but the empty one
/// leads to the root.
pub proof fn lemma_root_delete_is_forbidden(
    config: Config,
    filetype: Seq<char>,
    segments: Seq<Seq<char>>,
    is_dir: bool,
)
    requires
        resolved(config, filetype, segments) == config.root_of(filetype),
    ensures
        deletion(config, filetype, segments, is_dir) == Err::<RemovalView, Failure>(
            Failure::Forbidden,
        ),
{
    if config.root_of(filetype) is Some {
        lemma_root_only_at_empty_path(config.root_of(filetype)->0, segments);
    }
}

/// An upload is written where a retrieval of the same path looks: the file's
/// location is the resolved location of the path, it lies directly in the
/// directory that is made first, and a retrieval that finds a file there
/// answers with that location.
pub proof fn lemma_upload_then_retrieve(
    config: Config,
    filetype: Seq<char>,
    segments: Seq<Seq<char>>,
    json: bool,
)
    ensures
        upload_plan(config, filetype, segments) matches Ok(UploadStepView::Write(to)) ==> {
            &&& resolved(config, filetype, segments) == Some(to.path)
            &&& to.dir == location(config.root_of(filetype)->0, segments.drop_last())
            &&& to.path == with_segment(to.dir, segments.last())
            &&& retrieval(config, filetype, segments, FoundView::File, json) == Some(
                if names_archive(segments) {
                    FileGetView::Archive(to.path)
                } else {
                    FileGetView::File(to.path)
                },
            )
        },
{
}

} // verus!
