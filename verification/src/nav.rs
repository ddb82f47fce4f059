//! The navigation engine: the volume list, the active volume and path, and
//! the index-addressable snapshot of the most recent directory scan.
//!
//! The state is one value threaded through all operations.  Reading a
//! directory or probing the filesystem stays outside; the engine is handed
//! listings as plain entries and publishes snapshots as plain paths.

use vstd::prelude::*;

use crate::paths::parent_or_self;
use crate::paths::parent_path;
use crate::text::sorted_strings;

verus! {

/// One member of a directory listing: its full path and whether it is a
/// directory.
pub struct Entry {
    pub path: String,
    pub is_dir: bool,
}

/// The rejection modes of `change_dir`.
#[derive(Clone, Copy, Debug, PartialEq, Eq, Structural)]
pub enum ChangeDirError {
    /// The requested index has no snapshot entry.
    IndexOutOfRange,
    /// The snapshot entry at the requested index is a file.
    NotADirectory,
}

impl ChangeDirError {
    /// The numeric code reported to the UI layer.
    pub fn code(&self) -> (r: i8)
        ensures
            *self is IndexOutOfRange ==> r == -1i8,
            *self is NotADirectory ==> r == -2i8,
    {
        match self {
            ChangeDirError::IndexOutOfRange => -1,
            ChangeDirError::NotADirectory => -2,
        }
    }
}

/// The paths of the entries, in order.
pub open spec fn paths_of(s: Seq<Entry>) -> Seq<String> {
    s.map_values(|e: Entry| e.path)
}

/// The paths of the directory entries, in order.
pub open spec fn dir_paths(s: Seq<Entry>) -> Seq<String>
    decreases s.len(),
{
    if s.len() == 0 {
        Seq::empty()
    } else {
        let rest = dir_paths(s.drop_last());
        if s.last().is_dir {
            rest.push(s.last().path)
        } else {
            rest
        }
    }
}

/// The paths of the file (non-directory) entries, in order.
pub open spec fn file_paths(s: Seq<Entry>) -> Seq<String>
    decreases s.len(),
{
    if s.len() == 0 {
        Seq::empty()
    } else {
        let rest = file_paths(s.drop_last());
        if s.last().is_dir {
            rest
        } else {
            rest.push(s.last().path)
        }
    }
}

/// Pushing one entry onto a listing extends exactly one of its two
/// partitions, by that entry's path.
proof fn lemma_partition_push(s: Seq<Entry>, e: Entry)
    ensures
        e.is_dir ==> dir_paths(s.push(e)) == dir_paths(s).push(e.path),
        e.is_dir ==> file_paths(s.push(e)) == file_paths(s),
        !e.is_dir ==> file_paths(s.push(e)) == file_paths(s).push(e.path),
        !e.is_dir ==> dir_paths(s.push(e)) == dir_paths(s),
{
    assert(s.push(e).drop_last() =~= s);
    assert(s.push(e).last() == e);
    if e.is_dir {
        assert(dir_paths(s.push(e)) =~= dir_paths(s).push(e.path));
        assert(file_paths(s.push(e)) =~= file_paths(s));
    } else {
        assert(file_paths(s.push(e)) =~= file_paths(s).push(e.path));
        assert(dir_paths(s.push(e)) =~= dir_paths(s));
    }
}

/// Where a listing splits at `c` into a directory prefix and a file
/// suffix, the partitions have lengths `c` and `len - c`.
proof fn lemma_partition_len_split(s: Seq<Entry>, c: int)
    requires
        0 <= c <= s.len(),
        forall|i: int| 0 <= i < c ==> s[i].is_dir,
        forall|i: int| c <= i < s.len() ==> !s[i].is_dir,
    ensures
        dir_paths(s).len() == c,
        file_paths(s).len() == s.len() - c,
    decreases s.len(),
{
    if s.len() > 0 {
        if s.last().is_dir {
            lemma_partition_len_split(s.drop_last(), c - 1);
        } else {
            lemma_partition_len_split(s.drop_last(), c);
        }
    }
}

/// The mathematical view of the navigation state.
pub struct NavView {
    /// The published volume list.
    pub drives: Seq<String>,
    /// The active index into `drives`.
    pub active_drive: int,
    /// The active directory path.
    pub active_path: String,
    /// The snapshot of the last scan.
    pub entries: Seq<Entry>,
    /// The cached navigable-prefix length of the snapshot.
    pub sub_dir_count: int,
}

impl NavView {
    /// Structural invariant.  When a snapshot exists, its head is a
    /// directory (the synthetic parent entry); the navigable prefix of
    /// `sub_dir_count` directory entries precedes all file entries; and each
    /// group past the head is sorted ascending.  The active volume index
    /// stays inside the volume list whenever the list is non-empty.
    pub open spec fn wf(self) -> bool {
        &&& 0 <= self.sub_dir_count <= self.entries.len()
        &&& (self.entries.len() == 0 ==> self.sub_dir_count == 0)
        &&& (self.entries.len() > 0 ==> 1 <= self.sub_dir_count)
        &&& (forall|i: int| 0 <= i < self.sub_dir_count ==> self.entries[i].is_dir)
        &&& (forall|i: int|
            self.sub_dir_count <= i < self.entries.len() ==> !self.entries[i].is_dir)
        &&& (self.entries.len() > 0 ==> sorted_strings(
            paths_of(self.entries.subrange(1, self.sub_dir_count)),
        ))
        &&& (self.entries.len() > 0 ==> sorted_strings(
            paths_of(self.entries.subrange(self.sub_dir_count, self.entries.len() as int)),
        ))
        &&& (if self.drives.len() == 0 {
            self.active_drive == 0
        } else {
            0 <= self.active_drive < self.drives.len()
        })
    }
}

/// In every well-formed state, the cached subdirectory count equals the
/// number of directory entries in the snapshot (the synthetic parent
/// included), and the remaining entries are exactly the file entries.
pub proof fn lemma_count_counts_directories(v: NavView)
    requires
        v.wf(),
    ensures
        v.sub_dir_count == dir_paths(v.entries).len(),
        v.entries.len() - v.sub_dir_count == file_paths(v.entries).len(),
{
    lemma_partition_len_split(v.entries, v.sub_dir_count);
}

/// The navigation session state.
pub struct Navigator {
    drives: Vec<String>,
    active_drive: usize,
    active_path: String,
    dir_entries: Vec<Entry>,
    sub_dir_count: usize,
}

impl View for Navigator {
    type V = NavView;

    closed spec fn view(&self) -> NavView {
        NavView {
            drives: self.drives@,
            active_drive: self.active_drive as int,
            active_path: self.active_path,
            entries: self.dir_entries@,
            sub_dir_count: self.sub_dir_count as int,
        }
    }
}

impl Navigator {
    /// A fresh session: the given volume list, volume 0 active, an empty
    /// path, and no snapshot.
    pub fn new(drives: Vec<String>) -> (nav: Navigator)
        ensures
            nav@.wf(),
            nav@.drives == drives@,
            nav@.active_drive == 0,
            nav@.active_path@ == Seq::<char>::empty(),
            nav@.entries == Seq::<Entry>::empty(),
            nav@.sub_dir_count == 0,
    {
        let nav = Navigator {
            drives,
            active_drive: 0,
            active_path: String::new(),
            dir_entries: Vec::new(),
            sub_dir_count: 0,
        };
        proof {
            assert(nav@.entries =~= Seq::<Entry>::empty());
        }
        nav
    }

    /// Switches the active volume.  A requested index inside the volume
    /// list is committed exactly; an out-of-range one silently falls back
    /// to volume 0.  The active path is reset to the committed volume's
    /// root.  The snapshot and its count are untouched.
    pub fn change_drive(&mut self, chg_num: usize) -> (new_num: usize)
        requires
            old(self)@.wf(),
            old(self)@.drives.len() > 0,
        ensures
            final(self)@.wf(),
            new_num == if chg_num < old(self)@.drives.len() {
                chg_num as int
            } else {
                0
            },
            final(self)@.active_drive == new_num,
            final(self)@.active_path == old(self)@.drives[new_num as int],
            final(self)@.drives == old(self)@.drives,
            final(self)@.entries == old(self)@.entries,
            final(self)@.sub_dir_count == old(self)@.sub_dir_count,
    {
        let new_num: usize = if chg_num < self.drives.len() {
            chg_num
        } else {
            0
        };
        self.active_drive = new_num;
        self.active_path = self.drives[new_num].clone();
        new_num
    }

    /// Moves the active path to the snapshot entry at `chg_num`.  An index
    /// with no snapshot entry is rejected with `IndexOutOfRange`; a file
    /// entry with `NotADirectory`; either rejection leaves the state
    /// unchanged.  On success only the active path changes — the snapshot
    /// stays as it was (stale) until the next scan.
    pub fn change_dir(&mut self, chg_num: usize) -> (r: Result<(), ChangeDirError>)
        requires
            old(self)@.wf(),
        ensures
            final(self)@.wf(),
            final(self)@.drives == old(self)@.drives,
            final(self)@.active_drive == old(self)@.active_drive,
            final(self)@.entries == old(self)@.entries,
            final(self)@.sub_dir_count == old(self)@.sub_dir_count,
            chg_num >= old(self)@.entries.len() ==> r == Err::<(), ChangeDirError>(
                ChangeDirError::IndexOutOfRange,
            ) && final(self)@.active_path == old(self)@.active_path,
            chg_num < old(self)@.entries.len() && !old(self)@.entries[chg_num as int].is_dir ==> r
                == Err::<(), ChangeDirError>(ChangeDirError::NotADirectory)
                && final(self)@.active_path == old(self)@.active_path,
            chg_num < old(self)@.entries.len() && old(self)@.entries[chg_num as int].is_dir ==> r
                == Ok::<(), ChangeDirError>(()) && final(self)@.active_path == old(
                self,
            )@.entries[chg_num as int].path,
    {
        if chg_num >= self.dir_entries.len() {
            return Err(ChangeDirError::IndexOutOfRange);
        }
        if !self.dir_entries[chg_num].is_dir {
            return Err(ChangeDirError::NotADirectory);
        }
        self.active_path = self.dir_entries[chg_num].path.clone();
        Ok(())
    }

    /// Publishes a fresh snapshot of the active path and returns its paths.
    ///
    /// The caller reads the directory and hands in one entry per member
    /// whose metadata could be read (unreadable members are omitted, best
    /// effort).  The snapshot replaces the previous one wholesale: first
    /// the synthetic parent entry (the active path's parent, or the path
    /// itself at a filesystem root), then the directory entries sorted
    /// ascending, then the file entries sorted ascending.  The cached
    /// subdirectory count becomes the number of directory entries plus one
    /// for the parent.  Volume list, active volume and active path are
    /// untouched.
    pub fn scan_dir(&mut self, listing: Vec<Entry>) -> (snapshot: Vec<String>)
        requires
            old(self)@.wf(),
        ensures
            final(self)@.wf(),
            final(self)@.drives == old(self)@.drives,
            final(self)@.active_drive == old(self)@.active_drive,
            final(self)@.active_path == old(self)@.active_path,
            final(self)@.entries.len() == listing@.len() + 1,
            final(self)@.sub_dir_count == dir_paths(listing@).len() + 1,
            final(self)@.entries[0].is_dir,
            final(self)@.entries[0].path@ == match parent_path(old(self)@.active_path@) {
                Some(p) => p,
                None => old(self)@.active_path@,
            },
            forall|i: int|
                1 <= i < final(self)@.sub_dir_count ==> final(self)@.entries[i].is_dir,
            forall|i: int|
                final(self)@.sub_dir_count <= i < final(self)@.entries.len()
                    ==> !final(self)@.entries[i].is_dir,
            paths_of(final(self)@.entries.subrange(1, final(self)@.sub_dir_count)).to_multiset()
                == dir_paths(listing@).to_multiset(),
            sorted_strings(paths_of(final(self)@.entries.subrange(1, final(self)@.sub_dir_count))),
            paths_of(
                final(self)@.entries.subrange(
                    final(self)@.sub_dir_count,
                    final(self)@.entries.len() as int,
                ),
            ).to_multiset() == file_paths(listing@).to_multiset(),
            sorted_strings(
                paths_of(
                    final(self)@.entries.subrange(
                        final(self)@.sub_dir_count,
                        final(self)@.entries.len() as int,
                    ),
                ),
            ),
            snapshot@ == paths_of(final(self)@.entries),
    {
        let mut dirs: Vec<String> = Vec::new();
        let mut files: Vec<String> = Vec::new();
        let mut i: usize = 0;
        proof {
            assert(listing@.subrange(0, 0) =~= Seq::<Entry>::empty());
            assert(dirs@ =~= dir_paths(listing@.subrange(0, 0)));
            assert(files@ =~= file_paths(listing@.subrange(0, 0)));
        }
        while i < listing.len()
            invariant
                i <= listing@.len(),
                dirs@.len() + files@.len() == i,
                dirs@ == dir_paths(listing@.subrange(0, i as int)),
                files@ == file_paths(listing@.subrange(0, i as int)),
            decreases listing@.len() - i,
        {
            let ghost prefix = listing@.subrange(0, i as int);
            let p = listing[i].path.clone();
            if listing[i].is_dir {
                dirs.push(p);
            } else {
                files.push(p);
            }
            proof {
                lemma_partition_push(prefix, listing@[i as int]);
                assert(listing@.subrange(0, i as int + 1) =~= prefix.push(listing@[i as int]));
            }
            i = i + 1;
        }
        proof {
            assert(listing@.subrange(0, listing@.len() as int) =~= listing@);
        }
        let sorted_dirs = crate::text::sort_strings(&dirs);
        let sorted_files = crate::text::sort_strings(&files);

        let head = parent_or_self(self.active_path.as_str());
        let mut snap: Vec<Entry> = Vec::new();
        snap.push(Entry { path: head, is_dir: true });
        let ghost head_entry = snap@[0];

        let mut k: usize = 0;
        while k < sorted_dirs.len()
            invariant
                k <= sorted_dirs@.len(),
                snap@.len() == 1 + k,
                snap@[0] == head_entry,
                forall|j: int|
                    1 <= j < snap@.len() ==> snap@[j].is_dir && snap@[j].path == sorted_dirs@[j
                        - 1],
            decreases sorted_dirs@.len() - k,
        {
            snap.push(Entry { path: sorted_dirs[k].clone(), is_dir: true });
            k = k + 1;
        }

        let count: usize = snap.len();
        let ghost dirs_part = snap@;
        let mut m: usize = 0;
        while m < sorted_files.len()
            invariant
                m <= sorted_files@.len(),
                snap@.len() == dirs_part.len() + m,
                dirs_part.len() == count as int,
                count as int == 1 + sorted_dirs@.len(),
                dirs_part[0] == head_entry,
                forall|j: int|
                    1 <= j < dirs_part.len() ==> dirs_part[j].is_dir && dirs_part[j].path
                        == sorted_dirs@[j - 1],
                forall|j: int| 0 <= j < dirs_part.len() ==> snap@[j] == dirs_part[j],
                forall|j: int|
                    dirs_part.len() <= j < snap@.len() ==> !snap@[j].is_dir && snap@[j].path
                        == sorted_files@[j - dirs_part.len()],
            decreases sorted_files@.len() - m,
        {
            snap.push(Entry { path: sorted_files[m].clone(), is_dir: false });
            m = m + 1;
        }

        self.dir_entries = snap;
        self.sub_dir_count = count;

        let mut listing_out: Vec<String> = Vec::new();
        let mut q: usize = 0;
        while q < self.dir_entries.len()
            invariant
                q <= self.dir_entries@.len(),
                listing_out@.len() == q,
                forall|j: int| 0 <= j < q ==> listing_out@[j] == self.dir_entries@[j].path,
            decreases self.dir_entries@.len() - q,
        {
            listing_out.push(self.dir_entries[q].path.clone());
            q = q + 1;
        }

        proof {
            let es = self.dir_entries@;
            assert(es.len() == count as int + sorted_files@.len());
            assert forall|j: int|
                1 <= j < count as int implies es[j].is_dir && es[j].path == sorted_dirs@[j
                - 1] by {
                assert(es[j] == dirs_part[j]);
                assert(dirs_part[j].is_dir && dirs_part[j].path == sorted_dirs@[j - 1]);
            }
            assert(es[0] == dirs_part[0]);
            assert(paths_of(es.subrange(1, count as int)) =~= sorted_dirs@);
            assert(paths_of(es.subrange(count as int, es.len() as int)) =~= sorted_files@);
            assert(listing_out@ =~= paths_of(es));
        }
        listing_out
    }

    /// The cached subdirectory count of the last scan: the length of the
    /// snapshot's navigable prefix (its directory entries, the synthetic
    /// parent included).
    pub fn count_sub_dir(&self) -> (r: usize)
        ensures
            r == self@.sub_dir_count,
    {
        self.sub_dir_count
    }

    /// The active directory path.
    pub fn current_path(&self) -> (r: &String)
        ensures
            *r == self@.active_path,
    {
        &self.active_path
    }

    /// The active volume index.
    pub fn active_volume(&self) -> (r: usize)
        ensures
            r == self@.active_drive,
    {
        self.active_drive
    }

    /// The published volume list.
    pub fn volume_list(&self) -> (r: &Vec<String>)
        ensures
            r@ == self@.drives,
    {
        &self.drives
    }

    /// The current snapshot.
    pub fn snapshot_entries(&self) -> (r: &Vec<Entry>)
        ensures
            r@ == self@.entries,
    {
        &self.dir_entries
    }
}

} // verus!

