use vstd::prelude::*;
use crate::sorting::{SortKey, is_stable_order, stable_order};
use crate::text::chars_of;

verus! {

/// What the file system reports about one directory entry.
pub struct DirEntryInfo {
    /// The file name, when it is valid UTF-8.
    pub name: Option<String>,
    /// The extension of the path (the part after the last `.` of a file name
    /// that does not start with it), when there is one and it is valid UTF-8.
    pub extension: Option<String>,
    /// The full path, for display and for opening the file.
    pub path: String,
    /// The entry's metadata, `None` when it could not be read.
    pub metadata: Option<EntryMetadata>,
}

/// Metadata of a directory entry.
pub struct EntryMetadata {
    /// Last modification time in nanoseconds relative to the Unix epoch,
    /// `None` when the platform cannot report it.
    pub modified: Option<i128>,
    /// Size in bytes.
    pub size: u64,
}

/// Metadata for a file entry surfaced to the pickers.
pub struct FileEntry {
    pub name: String,
    pub path: String,
    /// Last modification time in nanoseconds relative to the Unix epoch
    /// (the epoch itself when the platform could not report it).
    pub modified: i128,
    pub size: u64,
}

impl SortKey for FileEntry {
    /// Newest first.
    open spec fn precedes(&self, other: &Self) -> bool {
        self.modified >= other.modified
    }

    proof fn lemma_precedes_reflexive(a: &Self) {
    }

    proof fn lemma_precedes_transitive(a: &Self, b: &Self, c: &Self) {
    }

    proof fn lemma_precedes_total(a: &Self, b: &Self) {
    }

    fn precedes_exec(&self, other: &Self) -> (r: bool) {
        self.modified >= other.modified
    }
}

/// An entry is listed when its extension is exactly `extension`, its
/// metadata could be read and its name is valid UTF-8.
pub open spec fn is_listed(e: DirEntryInfo, extension: Seq<char>) -> bool {
    &&& e.extension matches Some(x) && x@ == extension
    &&& e.metadata is Some
    &&& e.name is Some
}

/// The picker entry made from a listed directory entry; a missing
/// modification time counts as the epoch.
pub open spec fn entry_of(e: DirEntryInfo) -> FileEntry {
    FileEntry {
        name: e.name->0,
        path: e.path,
        modified: match e.metadata->0.modified {
            Some(t) => t,
            None => 0,
        },
        size: e.metadata->0.size,
    }
}

/// The listed entries, in directory order.
pub open spec fn listed_entries(entries: Seq<DirEntryInfo>, extension: Seq<char>) -> Seq<FileEntry>
    decreases entries.len(),
{
    if entries.len() == 0 {
        Seq::empty()
    } else {
        let rest = listed_entries(entries.drop_last(), extension);
        if is_listed(entries.last(), extension) {
            rest.push(entry_of(entries.last()))
        } else {
            rest
        }
    }
}

/// `files` is `listed` arranged newest first, entries with equal times kept
/// in directory order.
pub open spec fn is_newest_first(listed: Seq<FileEntry>, files: Seq<FileEntry>) -> bool {
    exists|order: Seq<usize>|
        #![trigger is_stable_order(listed, order)]
        is_stable_order(listed, order) && files == order.map_values(|i: usize| listed[i as int])
}

fn copy_entry(e: &FileEntry) -> (r: FileEntry)
    ensures
        r == *e,
{
    FileEntry { name: e.name.clone(), path: e.path.clone(), modified: e.modified, size: e.size }
}

/// The entries of a directory listing whose extension is `extension`, newest first.
pub fn list_files_with_extension(entries: &Vec<DirEntryInfo>, extension: &str) -> (files: Vec<
    FileEntry,
>)
    ensures
        is_newest_first(listed_entries(entries@, extension@), files@),
{
    let ext = chars_of(extension);
    let mut kept: Vec<FileEntry> = Vec::new();
    let mut i: usize = 0;
    while i < entries.len()
        invariant
            i <= entries.len(),
            ext@ == extension@,
            kept@ == listed_entries(entries@.take(i as int), extension@),
        decreases entries.len() - i,
    {
        let e = &entries[i];
        assert(entries@.take(i + 1).drop_last() =~= entries@.take(i as int));
        let matches_ext = match &e.extension {
            Some(x) => {
                let xs = chars_of(x.as_str());
                crate::text::chars_equal(&xs, &ext)
            },
            None => false,
        };
        if matches_ext {
            match (&e.metadata, &e.name) {
                (Some(meta), Some(name)) => {
                    let modified: i128 = match meta.modified {
                        Some(t) => t,
                        None => 0,
                    };
                    kept.push(
                        FileEntry {
                            name: name.clone(),
                            path: e.path.clone(),
                            modified,
                            size: meta.size,
                        },
                    );
                },
                _ => {},
            }
        }
        i = i + 1;
    }
    assert(entries@.take(entries.len() as int) =~= entries@);
    let order = stable_order(&kept);
    let mut files: Vec<FileEntry> = Vec::new();
    let mut j: usize = 0;
    while j < order.len()
        invariant
            j <= order.len(),
            is_stable_order(kept@, order@),
            files@ == order@.take(j as int).map_values(|i: usize| kept@[i as int]),
        decreases order.len() - j,
    {
        files.push(copy_entry(&kept[order[j]]));
        assert(order@.take(j + 1).map_values(|i: usize| kept@[i as int]) =~= order@.take(
            j as int,
        ).map_values(|i: usize| kept@[i as int]).push(kept@[order@[j as int] as int]));
        j = j + 1;
    }
    assert(order@.take(order.len() as int) =~= order@);
    files
}

/// The CSV snapshots of a directory listing, newest first.
pub fn list_csv_files(entries: &Vec<DirEntryInfo>) -> (files: Vec<FileEntry>)
    ensures
        is_newest_first(listed_entries(entries@, "csv"@), files@),
{
    list_files_with_extension(entries, "csv")
}

/// The JSON presets of a directory listing, newest first.
pub fn list_json_files(entries: &Vec<DirEntryInfo>) -> (files: Vec<FileEntry>)
    ensures
        is_newest_first(listed_entries(entries@, "json"@), files@),
{
    list_files_with_extension(entries, "json")
}

/// Law: a listing is sorted newest first, and every listed file carries the
/// requested extension's entry (it is one of the listed directory entries).
pub proof fn lemma_listing_sorted_newest_first(listed: Seq<FileEntry>, files: Seq<FileEntry>)
    requires
        is_newest_first(listed, files),
    ensures
        files.len() == listed.len(),
        forall|i: int, j: int| 0 <= i < j < files.len() ==> files[i].modified >= files[j].modified,
        forall|i: int| 0 <= i < files.len() ==> listed.contains(#[trigger] files[i]),
{
    let order = choose|order: Seq<usize>| #![trigger is_stable_order(listed, order)]
        is_stable_order(listed, order) && files == order.map_values(|i: usize| listed[i as int]);
    assert forall|i: int, j: int| 0 <= i < j < files.len() implies files[i].modified
        >= files[j].modified by {
        assert(listed[order[i] as int].precedes(&listed[order[j] as int]));
    }
    assert forall|i: int| 0 <= i < files.len() implies listed.contains(#[trigger] files[i]) by {
        assert(listed[order[i] as int] == files[i]);
    }
}

} // verus!

verus! {

/// Law: a directory entry is listed exactly when its extension is the
/// requested one, its metadata could be read and its name is readable; the
/// listed file keeps the entry's name, path and size, and its modification
/// time (the epoch when the platform gave none).
pub proof fn lemma_listed_entry(e: DirEntryInfo, extension: Seq<char>)
    ensures
        is_listed(e, extension) <==> (e.extension is Some && e.extension->0@ == extension && e.metadata is Some
            && e.name is Some),
        is_listed(e, extension) ==> entry_of(e).name == e.name->0 && entry_of(e).path == e.path && entry_of(e).size
            == e.metadata->0.size && entry_of(e).modified == (if e.metadata->0.modified is Some {
            e.metadata->0.modified->0
        } else {
            0
        }),
{
}

/// Law: the listing holds the listed entries of the directory, in directory
/// order before sorting: an entry is kept exactly when it is listed.
pub proof fn lemma_listed_entries(entries: Seq<DirEntryInfo>, extension: Seq<char>)
    ensures
        listed_entries(entries, extension).len() <= entries.len(),
        forall|i: int| 0 <= i < entries.len() && is_listed(entries[i], extension) ==> listed_entries(
            entries,
            extension,
        ).contains(#[trigger] entry_of(entries[i])),
    decreases entries.len(),
{
    if entries.len() > 0 {
        let init = entries.drop_last();
        lemma_listed_entries(init, extension);
        let l0 = listed_entries(init, extension);
        let l = listed_entries(entries, extension);
        assert forall|i: int| 0 <= i < entries.len() && is_listed(entries[i], extension) implies l.contains(
            #[trigger] entry_of(entries[i]),
        ) by {
            if i < init.len() {
                assert(entries[i] == init[i]);
                let k = choose|k: int| 0 <= k < l0.len() && l0[k] == entry_of(init[i]);
                if is_listed(entries.last(), extension) {
                    assert(l[k] == l0[k]);
                }
            } else {
                assert(l[l0.len() as int] == entry_of(entries[i]));
            }
        }
    }
}

} // verus!
