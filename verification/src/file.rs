//! The workbin loader's pure logic: directory handles, the uploadable
//! filter, and the naming of listed files.

use vstd::prelude::*;

use crate::resource::Resource;
use crate::util::{rfc3339_millis, spec_append_extension, spec_sanitise};

verus! {

/// One record of the portal's file and directory listings.
#[derive(Clone, Debug)]
pub struct FileEntry {
    pub id: String,
    pub name: String,
    pub file_name: Option<String>,
    pub allow_upload: Option<bool>,
    pub creator_name: Option<String>,
    pub creator_user_id: Option<String>,
    pub last_updated_date: String,
}

/// The mathematical content of a listing record.
pub struct FileEntryView {
    pub id: Seq<char>,
    pub name: Seq<char>,
    pub file_name: Option<Seq<char>>,
    pub allow_upload: Option<bool>,
    pub creator_name: Option<Seq<char>>,
    pub creator_user_id: Option<Seq<char>>,
    pub last_updated_date: Seq<char>,
}

impl View for FileEntry {
    type V = FileEntryView;

    open spec fn view(&self) -> FileEntryView {
        FileEntryView {
            id: self.id@,
            name: self.name@,
            file_name: match self.file_name {
                Some(f) => Some(f@),
                None => None,
            },
            allow_upload: self.allow_upload,
            creator_name: match self.creator_name {
                Some(c) => Some(c@),
                None => None,
            },
            creator_user_id: match self.creator_user_id {
                Some(c) => Some(c@),
                None => None,
            },
            last_updated_date: self.last_updated_date@,
        }
    }
}

/// A directory of a module's workbin.
pub struct DirectoryHandle {
    pub id: String,
    pub path: String,
    pub allow_upload: bool,
}

/// The mathematical content of a directory handle.
pub struct DirectoryHandleView {
    pub id: Seq<char>,
    pub path: Seq<char>,
    pub allow_upload: bool,
}

impl View for DirectoryHandle {
    type V = DirectoryHandleView;

    open spec fn view(&self) -> DirectoryHandleView {
        DirectoryHandleView { id: self.id@, path: self.path@, allow_upload: self.allow_upload }
    }
}

/// A downloadable workbin file.
#[derive(Clone, Debug)]
pub struct File {
    pub id: String,
    pub path: String,
    pub last_updated: i64,
}

/// The mathematical content of a workbin file.
pub struct FileView {
    pub id: Seq<char>,
    pub path: Seq<char>,
    pub last_updated: int,
}

impl View for File {
    type V = FileView;

    open spec fn view(&self) -> FileView {
        FileView { id: self.id@, path: self.path@, last_updated: self.last_updated as int }
    }
}

impl Resource for File {
    open spec fn id_spec(&self) -> Seq<char> {
        self.id@
    }

    open spec fn path_spec(&self) -> Seq<char> {
        self.path@
    }

    open spec fn updated_spec(&self) -> int {
        self.last_updated as int
    }

    fn id(&self) -> (r: &str) {
        self.id.as_str()
    }

    fn path(&self) -> (r: &String) {
        &self.path
    }

    fn last_updated(&self) -> (r: i64) {
        self.last_updated
    }

    fn set_path(&mut self, p: String) {
        self.path = p;
    }
}

/// Joining a relative path and a child name: a separator goes between,
/// unless the path is empty.
pub open spec fn spec_path_join(dir: Seq<char>, name: Seq<char>) -> Seq<char> {
    if dir.len() == 0 {
        name
    } else {
        dir + seq!['/'] + name
    }
}

/// Join a relative path and a child name.
pub fn path_join(dir: &str, name: &str) -> (r: String)
    ensures
        r@ == spec_path_join(dir@, name@),
{
    let mut r = String::new();
    r.append(dir);
    if dir.unicode_len() > 0 {
        r.push('/');
    }
    r.append(name);
    proof {
        assert(r@ =~= spec_path_join(dir@, name@));
    }
    r
}

/// The data required of an API listing: `Some` carries the listing, and a
/// missing payload is the portal's type-mismatch failure.
pub fn require_api_data<T>(data: Option<T>) -> (r: Result<T, crate::Error>)
    ensures
        match data {
            Some(v) => r == Result::<T, crate::Error>::Ok(v),
            None => r == Result::<T, crate::Error>::Err(
                "Invalid API response from server: type mismatch",
            ),
        },
{
    match data {
        Some(v) => Ok(v),
        None => Err("Invalid API response from server: type mismatch"),
    }
}

/// The filename a listed file is stored under.  Ordinarily it is the
/// sanitized download name; in an uploadable ("submission") folder the
/// creator's display name is prepended with ` - `, or, when names are
/// regularized, the creator's identifier replaces the stem of the download
/// name.
pub open spec fn spec_file_display_name(
    dir_allow_upload: bool,
    regularize: bool,
    e: FileEntryView,
) -> Seq<char> {
    let base = match e.file_name {
        Some(f) => f,
        None => e.name,
    };
    if dir_allow_upload {
        if regularize {
            let creator = match e.creator_user_id {
                Some(c) => c,
                None => "Unknown"@,
            };
            spec_sanitise(spec_append_extension(creator, base))
        } else {
            let creator = match e.creator_name {
                Some(c) => c,
                None => "Unknown"@,
            };
            spec_sanitise(creator + " - "@ + base)
        }
    } else {
        spec_sanitise(base)
    }
}

fn file_display_name(dir_allow_upload: bool, regularize: bool, e: &FileEntry) -> (r: String)
    ensures
        r@ == spec_file_display_name(dir_allow_upload, regularize, e@),
{
    let base: &str = match &e.file_name {
        Some(f) => f.as_str(),
        None => e.name.as_str(),
    };
    if dir_allow_upload {
        if regularize {
            let creator: &str = match &e.creator_user_id {
                Some(c) => c.as_str(),
                None => "Unknown",
            };
            let named = crate::util::append_extension(creator, base);
            crate::util::sanitise_filename(named.as_str())
        } else {
            let creator: &str = match &e.creator_name {
                Some(c) => c.as_str(),
                None => "Unknown",
            };
            let mut named = String::new();
            named.append(creator);
            named.append(" - ");
            named.append(base);
            proof {
                assert(named@ =~= (match e@.creator_name {
                    Some(c) => c,
                    None => "Unknown"@,
                }) + " - "@ + (match e@.file_name {
                    Some(f) => f,
                    None => e@.name,
                }));
            }
            crate::util::sanitise_filename(named.as_str())
        }
    } else {
        crate::util::sanitise_filename(base)
    }
}

impl DirectoryHandle {
    /// The handle of a module's workbin root, which never allows uploads.
    pub fn new(id: String, path: String) -> (r: DirectoryHandle)
        ensures
            r@.id == id@,
            r@.path == path@,
            r@.allow_upload == false,
    {
        DirectoryHandle { id, path, allow_upload: false }
    }

    /// The files of this directory's listing: each entry becomes a file
    /// under this directory, named by `spec_file_display_name`, carrying its
    /// server id and its parsed last-updated time.  An entry whose time does
    /// not parse fails the whole listing.
    pub fn files_from_entries(&self, entries: &Vec<FileEntry>, regularize: bool) -> (r: Result<
        Vec<File>,
        crate::Error,
    >)
        ensures
            match r {
                Ok(files) => files@.len() == entries@.len() && forall|i: int|
                    0 <= i < entries@.len() ==> (#[trigger] files@[i])@.id == entries@[i]@.id
                        && files@[i]@.path == spec_path_join(
                        self@.path,
                        spec_file_display_name(self@.allow_upload, regularize, entries@[i]@),
                    ) && Some(files@[i]@.last_updated) == rfc3339_millis(
                        entries@[i]@.last_updated_date,
                    ),
                Err(e) => e == "Failed to parse last updated time" && exists|i: int|
                    0 <= i < entries@.len() && rfc3339_millis(
                        (#[trigger] entries@[i])@.last_updated_date,
                    ) is None,
            },
    {
        let mut files: Vec<File> = Vec::new();
        let mut i: usize = 0;
        while i < entries.len()
            invariant
                0 <= i <= entries@.len(),
                files@.len() == i,
                forall|k: int|
                    0 <= k < i ==> (#[trigger] files@[k])@.id == entries@[k]@.id && files@[k]@.path
                        == spec_path_join(
                        self@.path,
                        spec_file_display_name(self@.allow_upload, regularize, entries@[k]@),
                    ) && Some(files@[k]@.last_updated) == rfc3339_millis(
                        entries@[k]@.last_updated_date,
                    ),
            decreases entries@.len() - i,
        {
            let e = &entries[i];
            let updated = match crate::util::parse_time(e.last_updated_date.as_str()) {
                Some(t) => t,
                None => {
                    return Err("Failed to parse last updated time");
                },
            };
            let name = file_display_name(self.allow_upload, regularize, e);
            let path = path_join(self.path.as_str(), name.as_str());
            files.push(File { id: e.id.clone(), path, last_updated: updated });
            i = i + 1;
        }
        Ok(files)
    }

    /// The subdirectories this directory's listing descends into: every
    /// entry, unless uploadable folders are excluded and the entry allows
    /// uploads.  A child's path gains the sanitized entry name.
    pub fn child_directories(&self, entries: &Vec<FileEntry>, include_uploadable: bool) -> (r:
        Vec<DirectoryHandle>)
        ensures
            r@.map_values(|d: DirectoryHandle| d@) == spec_child_dirs(
                self@.path,
                include_uploadable,
                entries@.map_values(|e: FileEntry| e@),
            ),
    {
        let mut out: Vec<DirectoryHandle> = Vec::new();
        let mut i: usize = 0;
        proof {
            assert(entries@.map_values(|e: FileEntry| e@).subrange(0, 0) =~= Seq::<
                FileEntryView,
            >::empty());
            assert(out@.map_values(|d: DirectoryHandle| d@) =~= spec_child_dirs(
                self@.path,
                include_uploadable,
                entries@.map_values(|e: FileEntry| e@).subrange(0, 0),
            ));
        }
        while i < entries.len()
            invariant
                0 <= i <= entries@.len(),
                out@.map_values(|d: DirectoryHandle| d@) == spec_child_dirs(
                    self@.path,
                    include_uploadable,
                    entries@.map_values(|e: FileEntry| e@).subrange(0, i as int),
                ),
            decreases entries@.len() - i,
        {
            let ghost evs = entries@.map_values(|e: FileEntry| e@);
            let ghost pre = out@;
            let e = &entries[i];
            let keep = include_uploadable || !(match e.allow_upload {
                Some(b) => b,
                None => false,
            });
            if keep {
                let name = crate::util::sanitise_filename(e.name.as_str());
                let path = path_join(self.path.as_str(), name.as_str());
                out.push(
                    DirectoryHandle {
                        id: e.id.clone(),
                        path,
                        allow_upload: match e.allow_upload {
                            Some(b) => b,
                            None => false,
                        },
                    },
                );
            }
            proof {
                assert(evs.subrange(0, i + 1).drop_last() =~= evs.subrange(0, i as int));
                assert(evs.subrange(0, i + 1).last() == evs[i as int]);
                assert(evs[i as int] == entries@[i as int]@);
                assert(out@.map_values(|d: DirectoryHandle| d@) =~= spec_child_dirs(
                    self@.path,
                    include_uploadable,
                    evs.subrange(0, i + 1),
                ));
            }
            i = i + 1;
        }
        proof {
            assert(entries@.map_values(|e: FileEntry| e@).subrange(
                0,
                entries@.len() as int,
            ) =~= entries@.map_values(|e: FileEntry| e@));
        }
        out
    }
}

/// The subdirectory handles a listing yields, in listing order.
pub open spec fn spec_child_dirs(
    parent: Seq<char>,
    include_uploadable: bool,
    entries: Seq<FileEntryView>,
) -> Seq<DirectoryHandleView>
    decreases entries.len(),
{
    if entries.len() == 0 {
        Seq::<DirectoryHandleView>::empty()
    } else {
        let rest = spec_child_dirs(parent, include_uploadable, entries.drop_last());
        let e = entries.last();
        let uploads = match e.allow_upload {
            Some(b) => b,
            None => false,
        };
        if include_uploadable || !uploads {
            rest.push(
                DirectoryHandleView {
                    id: e.id,
                    path: spec_path_join(parent, spec_sanitise(e.name)),
                    allow_upload: uploads,
                },
            )
        } else {
            rest
        }
    }
}

} // verus!
