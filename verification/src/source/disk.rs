//! World size on disk.
//!
//! Walking a world folder is slow — a busy overworld is hundreds of thousands
//! of files — so it runs on its own long interval. The caller lists each
//! directory; a [`Walk`] decides what the listing adds up to and which
//! directory comes next.

use vstd::prelude::*;

use crate::clock::{system_now, unix_seconds};
use crate::config::WorldConfig;
use crate::metrics::{DiskUsage, WorldUsage};
use crate::source::parse::strings_view;
use crate::text::chars_of;

verus! {

/// What `Path::file_name` gives for a path written as `path`.
pub uninterp spec fn path_file_name(path: Seq<char>) -> Option<Seq<char>>;

/// The last component of `path`, from `Path::file_name`, as text.
#[verifier::external_body]
fn file_name(path: &str) -> (r: Option<String>)
    ensures
        match (r, path_file_name(path@)) {
            (Some(got), Some(want)) => got@ == want,
            (None, None) => true,
            _ => false,
        },
{
    std::path::Path::new(path).file_name().map(|name| name.to_string_lossy().into_owned())
}

/// The name a world is shown under: the configured one, else its folder's
/// name, else its whole path.
pub open spec fn world_name_of(world: WorldConfig) -> Seq<char> {
    match world.name {
        Some(name) => name@,
        None => match path_file_name(world.path@) {
            Some(leaf) => leaf,
            None => world.path@,
        },
    }
}

/// The name `world` is shown under.
pub fn world_name(world: &WorldConfig) -> (r: String)
    ensures
        r@ == world_name_of(*world),
{
    match &world.name {
        Some(name) => name.clone(),
        None => match file_name(world.path.as_str()) {
            Some(leaf) => leaf,
            None => world.path.clone(),
        },
    }
}

/// One item of a directory listing.
#[derive(Debug, Clone, PartialEq, Eq)]
pub enum Entry {
    /// Its type could not be read.
    Unreadable,
    /// A symbolic link, which is never followed: a world linked into itself,
    /// or into the rest of the filesystem, cannot send the walk into a loop.
    Link,
    /// A directory, by its path.
    Directory(String),
    /// Anything else, with its size when its metadata could be read.
    File(Option<u64>),
}

/// `a + b`, held within `u64`.
pub open spec fn sum_within(a: u64, b: u64) -> u64 {
    if a + b > u64::MAX {
        u64::MAX
    } else {
        (a + b) as u64
    }
}

/// Totals after taking in `entries` on top of `bytes`, `files`, and `partial`.
pub open spec fn taken_in(entries: Seq<Entry>, bytes: u64, files: u64, partial: bool) -> (u64, u64, bool)
    decreases entries.len(),
{
    if entries.len() == 0 {
        (bytes, files, partial)
    } else {
        let (b, f, p) = taken_in(entries.drop_last(), bytes, files, partial);
        match entries.last() {
            Entry::Unreadable => (b, f, true),
            Entry::Link => (b, f, p),
            Entry::Directory(_) => (b, f, p),
            Entry::File(Some(size)) => (sum_within(b, size), sum_within(f, 1), p),
            Entry::File(None) => (b, f, true),
        }
    }
}

/// The directories among `entries`, in order.
pub open spec fn subdirectories(entries: Seq<Entry>) -> Seq<Seq<char>>
    decreases entries.len(),
{
    if entries.len() == 0 {
        Seq::empty()
    } else {
        let before = subdirectories(entries.drop_last());
        match entries.last() {
            Entry::Directory(path) => before.push(path@),
            _ => before,
        }
    }
}

/// A depth-first walk of a directory tree, summing the sizes of the files in
/// it and noting whether anything was skipped.
pub struct Walk {
    root: String,
    pending: Vec<String>,
    bytes: u64,
    files: u64,
    partial: bool,
}

/// What a [`Walk`] holds, as plain values.
pub struct WalkState {
    pub root: Seq<char>,
    /// Directories still to list; the last is listed next.
    pub pending: Seq<Seq<char>>,
    pub bytes: u64,
    pub files: u64,
    pub partial: bool,
}

impl View for Walk {
    type V = WalkState;

    closed spec fn view(&self) -> WalkState {
        WalkState {
            root: self.root@,
            pending: strings_view(self.pending@),
            bytes: self.bytes,
            files: self.files,
            partial: self.partial,
        }
    }
}

impl Walk {
    /// A walk that starts at `root`.
    pub fn new(root: String) -> (r: Walk)
        ensures
            r@.root == root@,
            r@.pending == seq![root@],
            r@.bytes == 0 && r@.files == 0 && !r@.partial,
    {
        let mut pending: Vec<String> = Vec::new();
        pending.push(root.clone());
        let r = Walk { root, pending, bytes: 0, files: 0, partial: false };
        assert(r@.pending =~= seq![r@.root]);
        r
    }

    /// The next directory to list, taken off the pending ones.
    pub fn next(&mut self) -> (r: Option<String>)
        ensures
            final(self)@.root == old(self)@.root,
            final(self)@.bytes == old(self)@.bytes,
            final(self)@.files == old(self)@.files,
            final(self)@.partial == old(self)@.partial,
            old(self)@.pending.len() == 0 ==> r is None && final(self)@.pending == old(self)@.pending,
            old(self)@.pending.len() > 0 ==> (r matches Some(directory) && directory@
                == old(self)@.pending.last() && final(self)@.pending == old(self)@.pending.drop_last()),
    {
        let r = self.pending.pop();
        proof {
            if old(self).pending@.len() > 0 {
                assert(strings_view(self.pending@) =~= strings_view(old(self).pending@).drop_last());
            } else {
                assert(strings_view(self.pending@) =~= strings_view(old(self).pending@));
            }
        }
        r
    }

    /// `directory` could not be listed. A root that is not there at all is an
    /// empty world rather than a partial read; anything else was skipped.
    pub fn unreadable(&mut self, directory: &str, root_exists: bool)
        ensures
            final(self)@.root == old(self)@.root,
            final(self)@.pending == old(self)@.pending,
            final(self)@.bytes == old(self)@.bytes,
            final(self)@.files == old(self)@.files,
            final(self)@.partial == (old(self)@.partial || directory@ != old(self)@.root || root_exists),
    {
        let root = chars_of(self.root.as_str());
        let here = chars_of(directory);
        let same = crate::metrics::same_chars(&root, &here);
        self.partial = self.partial || !same || root_exists;
    }

    /// The listing of the directory last taken: files are counted, directories
    /// queued, links passed over, and anything unreadable marks the walk
    /// partial.
    pub fn listed(&mut self, entries: Vec<Entry>)
        ensures
            final(self)@.root == old(self)@.root,
            final(self)@.pending == old(self)@.pending + subdirectories(entries@),
            (final(self)@.bytes, final(self)@.files, final(self)@.partial) == taken_in(
                entries@,
                old(self)@.bytes,
                old(self)@.files,
                old(self)@.partial,
            ),
    {
        let mut i: usize = 0;
        while i < entries.len()
            invariant
                i <= entries@.len(),
                self@.root == old(self)@.root,
                self@.pending == old(self)@.pending + subdirectories(entries@.take(i as int)),
                (self@.bytes, self@.files, self@.partial) == taken_in(
                    entries@.take(i as int),
                    old(self)@.bytes,
                    old(self)@.files,
                    old(self)@.partial,
                ),
            decreases entries@.len() - i,
        {
            proof {
                assert(entries@.take(i + 1).drop_last() =~= entries@.take(i as int));
            }
            let ghost before = self.pending@;
            match &entries[i] {
                Entry::Unreadable => {
                    self.partial = true;
                },
                Entry::Link => {},
                Entry::Directory(path) => {
                    self.pending.push(path.clone());
                    proof {
                        assert(strings_view(self.pending@) =~= strings_view(before).push(path@));
                    }
                },
                Entry::File(Some(size)) => {
                    self.bytes = self.bytes.saturating_add(*size);
                    self.files = self.files.saturating_add(1);
                },
                Entry::File(None) => {
                    self.partial = true;
                },
            }
            i += 1;
        }
        assert(entries@.take(i as int) =~= entries@);
    }

    /// Total bytes, file count, and whether anything was skipped.
    pub fn totals(&self) -> (r: (u64, u64, bool))
        ensures
            r == (self@.bytes, self@.files, self@.partial),
    {
        (self.bytes, self.files, self.partial)
    }
}

/// A world's footprint from its walks: the whole folder, and the `region/`,
/// `entities/`, and `poi/` folders in it. Folia and Paper split a dimension's
/// chunk data across those, and knowing which one has grown is what tells an
/// operator where to look: runaway `entities/` is a mob problem, runaway
/// `region/` is a map problem.
pub fn measure(
    world: &WorldConfig,
    whole: (u64, u64, bool),
    region_bytes: u64,
    entity_bytes: u64,
    poi_bytes: u64,
) -> (r: WorldUsage)
    ensures
        r.name@ == world_name_of(*world),
        r.path@ == world.path@,
        r.bytes == whole.0 && r.files == whole.1 && r.partial == whole.2,
        r.region_bytes == region_bytes && r.entity_bytes == entity_bytes && r.poi_bytes == poi_bytes,
{
    WorldUsage {
        name: world_name(world),
        path: world.path.clone(),
        bytes: whole.0,
        files: whole.1,
        region_bytes,
        entity_bytes,
        poi_bytes,
        partial: whole.2,
    }
}

/// A mounted filesystem: its mount point split into path components, the
/// mount point's length as the system spells it, and its free and total bytes.
#[derive(Debug, Clone)]
pub struct Mount {
    pub components: Vec<String>,
    pub name_length: usize,
    pub available: u64,
    pub total: u64,
}

/// Whether the path with components `path` lies under the mount point with
/// components `mount`, comparing whole components.
pub open spec fn lies_under(path: Seq<Seq<char>>, mount: Seq<Seq<char>>) -> bool {
    mount.len() <= path.len() && path.take(mount.len() as int) == mount
}

/// The mount among the first `n` of `mounts` that holds `path`, the one with
/// the longest mount point winning and, among equals, the later one.
pub open spec fn holding_mount(path: Seq<Seq<char>>, mounts: Seq<Mount>, n: int) -> Option<int>
    decreases n,
{
    if n <= 0 {
        None
    } else {
        let before = holding_mount(path, mounts, n - 1);
        let here = mounts[n - 1];
        if lies_under(path, strings_view(here.components@)) && (match before {
            Some(b) => here.name_length >= mounts[b].name_length,
            None => true,
        }) {
            Some(n - 1)
        } else {
            before
        }
    }
}

fn under(path: &Vec<String>, mount: &Vec<String>) -> (r: bool)
    ensures
        r == lies_under(strings_view(path@), strings_view(mount@)),
{
    if mount.len() > path.len() {
        return false;
    }
    let mut i: usize = 0;
    while i < mount.len()
        invariant
            i <= mount.len() <= path.len(),
            forall|j: int| 0 <= j < i ==> path@[j]@ == mount@[j]@,
        decreases mount.len() - i,
    {
        let a = chars_of(path[i].as_str());
        let b = chars_of(mount[i].as_str());
        if !crate::metrics::same_chars(&a, &b) {
            proof {
                assert(strings_view(path@).take(mount@.len() as int)[i as int] != strings_view(mount@)[i as int]);
            }
            return false;
        }
        i += 1;
    }
    assert(strings_view(path@).take(mount@.len() as int) =~= strings_view(mount@));
    true
}

/// Free and total bytes of the filesystem holding the path whose components
/// are `path`. Several mount points can be prefixes of the same path; the
/// longest one is the filesystem the path actually sits on.
pub fn free_space(path: &Vec<String>, mounts: &Vec<Mount>) -> (r: Option<(u64, u64)>)
    ensures
        match holding_mount(strings_view(path@), mounts@, mounts@.len() as int) {
            Some(k) => r == Some((mounts@[k].available, mounts@[k].total)),
            None => r is None,
        },
{
    let mut best: Option<usize> = None;
    let mut i: usize = 0;
    while i < mounts.len()
        invariant
            i <= mounts@.len(),
            match holding_mount(strings_view(path@), mounts@, i as int) {
                Some(k) => best matches Some(b) && b == k && 0 <= k < i,
                None => best is None,
            },
        decreases mounts@.len() - i,
    {
        if under(path, &mounts[i].components) {
            let wins = match best {
                Some(b) => mounts[i].name_length >= mounts[b].name_length,
                None => true,
            };
            if wins {
                best = Some(i);
            }
        }
        i += 1;
    }
    match best {
        Some(b) => Some((mounts[b].available, mounts[b].total)),
        None => None,
    }
}

/// The finished scan of every world: `free` is the space left on the
/// filesystem of the first world found on disk, and the scan is stamped with
/// the current time.
pub fn scan(worlds: Vec<WorldUsage>, free: Option<(u64, u64)>) -> (r: DiskUsage)
    ensures
        r.worlds@ == worlds@,
        r.free == free,
        r.scanned_at is Some,
        !r.scanning,
{
    let now = system_now();
    DiskUsage { worlds, free, scanned_at: Some(unix_seconds(&now)), scanning: false }
}

} // verus!
