//! The directory-scan engine.
//!
//! A scan consumes a snapshot of a directory hierarchy ([`FsNode`]) together
//! with two ignore sets of bare names, and produces a tree of
//! [`DirectoryObject`] nodes. At each level, entries are classified in
//! enumeration order: surviving files are tallied immediately into the
//! level's totals, while surviving subdirectories are queued and expanded
//! only after the level is finalized, last discovered first. A directory
//! that cannot be listed degrades to an empty node; a surviving file whose
//! size is unknown aborts the whole scan.

use crate::size_format::bytes_to_best_size;
use crate::size_format::spec_size_display;
use crate::text::contains_string;
use crate::text::join_path;
use crate::utils::spec_split_file_name;
use crate::utils::split_file_name;
use vstd::prelude::*;

verus! {

/// A snapshot of what one filesystem path points at.
pub enum FsNode {
    /// A directory that could be listed, with its entries in enumeration
    /// order.
    Directory(Vec<FsEntry>),
    /// A directory (or other non-file entry) that cannot be listed.
    UnreadableDirectory,
    /// A regular file and its size in bytes.
    File(u64),
    /// A regular file whose size could not be read.
    FileWithoutMetadata,
}

/// One named entry of a directory listing.
pub struct FsEntry {
    pub name: String,
    pub node: FsNode,
}

/// The one fatal scan failure: a surviving file's size could not be read.
#[derive(Debug, PartialEq, Eq, Structural)]
pub enum ScanError {
    MetadataUnavailable,
}

/// One non-ignored file of a scanned directory.
#[derive(Debug)]
pub struct FileObject {
    pub full_name: String,
    pub name: String,
    pub ending: String,
    pub path: String,
    pub size: u64,
    pub size_string: String,
}

/// One scanned directory: its surviving files and subdirectories, and the
/// aggregates over its direct files only.
#[derive(Debug)]
pub struct DirectoryObject {
    pub directories: Vec<DirectoryObject>,
    pub files: Vec<FileObject>,
    pub name: String,
    pub path: String,
    pub size: u64,
    pub size_string: String,
    pub file_count: u64,
}

/// The mathematical shadow of a [`FileObject`].
#[verifier::ext_equal]
pub struct FileModel {
    pub full_name: Seq<char>,
    pub name: Seq<char>,
    pub ending: Seq<char>,
    pub path: Seq<char>,
    pub size: u64,
    pub size_string: Seq<char>,
}

/// The mathematical shadow of a [`DirectoryObject`].
#[verifier::ext_equal]
pub struct DirModel {
    pub directories: Seq<DirModel>,
    pub files: Seq<FileModel>,
    pub name: Seq<char>,
    pub path: Seq<char>,
    pub size: nat,
    pub size_string: Seq<char>,
    pub file_count: nat,
}

/// The model of a file object.
pub open spec fn file_view(f: FileObject) -> FileModel {
    FileModel {
        full_name: f.full_name@,
        name: f.name@,
        ending: f.ending@,
        path: f.path@,
        size: f.size,
        size_string: f.size_string@,
    }
}

/// The models of a vector of file objects.
pub open spec fn files_view(v: Seq<FileObject>) -> Seq<FileModel> {
    Seq::new(v.len(), |i: int| file_view(v[i]))
}

/// The model of a directory object, recursively.
pub open spec fn dir_view(d: DirectoryObject) -> DirModel
    decreases d, 0int,
{
    DirModel {
        directories: dirs_view_prefix(d.directories@, d.directories@.len() as int),
        files: files_view(d.files@),
        name: d.name@,
        path: d.path@,
        size: d.size as nat,
        size_string: d.size_string@,
        file_count: d.file_count as nat,
    }
}

/// The models of the first `i` directory objects of a vector.
pub open spec fn dirs_view_prefix(v: Seq<DirectoryObject>, i: int) -> Seq<DirModel>
    decreases v, i,
{
    if i <= 0 || i > v.len() {
        Seq::empty()
    } else {
        dirs_view_prefix(v, i - 1).push(dir_view(v[i - 1]))
    }
}

/// The models of a vector of directory objects.
pub open spec fn dirs_view(v: Seq<DirectoryObject>) -> Seq<DirModel> {
    dirs_view_prefix(v, v.len() as int)
}

/// The prefix models line up with the vector: one model per directory
/// object, in order.
pub proof fn lemma_dirs_view_prefix(v: Seq<DirectoryObject>, i: int)
    requires
        0 <= i <= v.len(),
    ensures
        dirs_view_prefix(v, i).len() == i,
        forall|k: int| 0 <= k < i ==> dirs_view_prefix(v, i)[k] == dir_view(v[k]),
    decreases i,
{
    if i > 0 {
        lemma_dirs_view_prefix(v, i - 1);
    }
}

/// A prefix model ignores elements past the prefix: pushing onto the vector
/// leaves it unchanged.
proof fn lemma_dirs_view_prefix_push(v: Seq<DirectoryObject>, d: DirectoryObject, i: int)
    requires
        0 <= i <= v.len(),
    ensures
        dirs_view_prefix(v.push(d), i) == dirs_view_prefix(v, i),
    decreases i,
{
    if i > 0 {
        lemma_dirs_view_prefix_push(v, d, i - 1);
        assert(v.push(d)[i - 1] == v[i - 1]);
    }
}

/// The model of a scan result.
pub open spec fn scan_result_view(r: Result<DirectoryObject, ScanError>) -> Result<
    DirModel,
    ScanError,
> {
    match r {
        Ok(d) => Ok(dir_view(d)),
        Err(e) => Err(e),
    }
}

/// Whether an entry is a subdirectory (listable or not).
pub open spec fn entry_is_dir(e: FsEntry) -> bool {
    e.node is Directory || e.node is UnreadableDirectory
}

/// The model of one surviving file, derived from its bare name, its size
/// and the path of the directory that holds it.
pub open spec fn spec_file(parent_path: Seq<char>, name: Seq<char>, size: u64) -> FileModel {
    FileModel {
        full_name: name,
        name: spec_split_file_name(name).0,
        ending: spec_split_file_name(name).1,
        path: parent_path + seq!['/'] + name,
        size,
        size_string: spec_size_display(size as nat),
    }
}

/// The surviving files among the first `i` entries, in enumeration order.
pub open spec fn level_files(
    entries: Seq<FsEntry>,
    path: Seq<char>,
    ignored_files: Seq<Seq<char>>,
    i: int,
) -> Seq<FileModel>
    decreases i,
{
    if i <= 0 {
        Seq::empty()
    } else {
        let rest = level_files(entries, path, ignored_files, i - 1);
        let e = entries[i - 1];
        if e.node is File && !ignored_files.contains(e.name@) {
            rest.push(spec_file(path, e.name@, e.node->File_0))
        } else {
            rest
        }
    }
}

/// The sum of the surviving files' sizes among the first `i` entries.
pub open spec fn level_total(entries: Seq<FsEntry>, ignored_files: Seq<Seq<char>>, i: int) -> nat
    decreases i,
{
    if i <= 0 {
        0
    } else {
        let e = entries[i - 1];
        level_total(entries, ignored_files, i - 1) + (
        if e.node is File && !ignored_files.contains(e.name@) {
            e.node->File_0 as nat
        } else {
            0
        })
    }
}

/// No surviving file of the level lacks its size.
pub open spec fn level_meta_ok(entries: Seq<FsEntry>, ignored_files: Seq<Seq<char>>) -> bool {
    forall|k: int|
        0 <= k < entries.len() ==> !(#[trigger] entries[k].node is FileWithoutMetadata
            && !ignored_files.contains(entries[k].name@))
}

/// The indices of the surviving subdirectories among the first `i` entries,
/// in enumeration order.
pub open spec fn level_pending(
    entries: Seq<FsEntry>,
    ignored_directories: Seq<Seq<char>>,
    i: int,
) -> Seq<int>
    decreases i,
{
    if i <= 0 {
        Seq::empty()
    } else {
        let rest = level_pending(entries, ignored_directories, i - 1);
        let e = entries[i - 1];
        if entry_is_dir(e) && !ignored_directories.contains(e.name@) {
            rest.push(i - 1)
        } else {
            rest
        }
    }
}

/// The degenerate node a scan returns for a path that cannot be listed.
pub open spec fn spec_degraded(name: Seq<char>, path: Seq<char>) -> DirModel {
    DirModel {
        directories: Seq::empty(),
        files: Seq::empty(),
        name,
        path,
        size: 0,
        size_string: spec_size_display(0),
        file_count: 0,
    }
}

/// What scanning one node yields: a listable directory is classified level
/// by level, anything else degrades to an empty node.
pub open spec fn spec_scan(
    name: Seq<char>,
    path: Seq<char>,
    node: FsNode,
    ignored_directories: Seq<Seq<char>>,
    ignored_files: Seq<Seq<char>>,
) -> Result<DirModel, ScanError>
    decreases node, 1int,
{
    match node {
        FsNode::Directory(entries) => {
            if !level_meta_ok(entries@, ignored_files) {
                Err(ScanError::MetadataUnavailable)
            } else {
                let n = entries@.len() as int;
                match spec_scan_pending(
                    entries@,
                    level_pending(entries@, ignored_directories, n),
                    path,
                    ignored_directories,
                    ignored_files,
                ) {
                    Err(e) => Err(e),
                    Ok(subdirs) => {
                        let total = level_total(entries@, ignored_files, n);
                        let files = level_files(entries@, path, ignored_files, n);
                        Ok(
                            DirModel {
                                directories: subdirs,
                                files,
                                name,
                                path,
                                size: total,
                                size_string: spec_size_display(total),
                                file_count: files.len(),
                            },
                        )
                    },
                }
            }
        },
        _ => Ok(spec_degraded(name, path)),
    }
}

/// Scans the pending subdirectories as a stack: the last collected index is
/// expanded first, and each resulting subtree is appended in that order.
pub open spec fn spec_scan_pending(
    entries: Seq<FsEntry>,
    pending: Seq<int>,
    path: Seq<char>,
    ignored_directories: Seq<Seq<char>>,
    ignored_files: Seq<Seq<char>>,
) -> Result<Seq<DirModel>, ScanError>
    decreases entries, pending.len(),
{
    if pending.len() == 0 {
        Ok(Seq::empty())
    } else {
        let j = pending.last();
        if 0 <= j < entries.len() {
            let e = entries[j];
            match spec_scan(
                e.name@,
                path + seq!['/'] + e.name@,
                e.node,
                ignored_directories,
                ignored_files,
            ) {
                Err(err) => Err(err),
                Ok(d) => {
                    match spec_scan_pending(
                        entries,
                        pending.drop_last(),
                        path,
                        ignored_directories,
                        ignored_files,
                    ) {
                        Err(err) => Err(err),
                        Ok(ds) => Ok(seq![d] + ds),
                    }
                },
            }
        } else {
            Ok(Seq::empty())
        }
    }
}

/// The sum of all direct file sizes among the first `i` entries, ignored or
/// not.
pub open spec fn all_files_total(entries: Seq<FsEntry>, i: int) -> nat
    decreases i,
{
    if i <= 0 {
        0
    } else {
        all_files_total(entries, i - 1) + (
        if entries[i - 1].node is File {
            entries[i - 1].node->File_0 as nat
        } else {
            0
        })
    }
}

/// Every directory level of the snapshot has direct file sizes whose sum
/// fits in a machine word; the bound a scan needs to tally without
/// overflow.
pub open spec fn files_sum_ok(node: FsNode) -> bool
    decreases node,
{
    match node {
        FsNode::Directory(entries) => {
            &&& all_files_total(entries@, entries@.len() as int) <= u64::MAX
            &&& forall|k: int|
                0 <= k < entries@.len() ==> files_sum_ok(#[trigger] entries@[k].node)
        },
        _ => true,
    }
}

impl FileObject {
    /// Builds a file record from its name parts, path and size; the display
    /// size is derived from the byte count.
    pub fn new(full_name: &String, name: &String, ending: String, path: String, size: u64) -> (r:
        FileObject)
        ensures
            r.full_name@ == full_name@,
            r.name@ == name@,
            r.ending@ == ending@,
            r.path@ == path@,
            r.size == size,
            r.size_string@ == spec_size_display(size as nat),
    {
        FileObject {
            full_name: full_name.clone(),
            name: name.clone(),
            ending,
            path,
            size,
            size_string: bytes_to_best_size(size),
        }
    }
}

impl DirectoryObject {
    /// Builds an empty directory record with no children and zero totals.
    pub fn new(name: &String, path: &String) -> (r: DirectoryObject)
        ensures
            r.directories@.len() == 0,
            r.files@.len() == 0,
            r.name@ == name@,
            r.path@ == path@,
            r.size == 0,
            r.size_string@ == Seq::<char>::empty(),
            r.file_count == 0,
    {
        DirectoryObject {
            directories: Vec::new(),
            files: Vec::new(),
            name: name.clone(),
            path: path.clone(),
            size: 0,
            size_string: String::new(),
            file_count: 0,
        }
    }

    /// Appends a scanned subdirectory.
    pub fn add_directory(&mut self, directory: DirectoryObject)
        ensures
            final(self).directories@ == old(self).directories@.push(directory),
            final(self).files == old(self).files,
            final(self).name == old(self).name,
            final(self).path == old(self).path,
            final(self).size == old(self).size,
            final(self).size_string == old(self).size_string,
            final(self).file_count == old(self).file_count,
    {
        self.directories.push(directory);
    }

    /// Appends a scanned file.
    pub fn add_file(&mut self, file: FileObject)
        ensures
            final(self).files@ == old(self).files@.push(file),
            final(self).directories == old(self).directories,
            final(self).name == old(self).name,
            final(self).path == old(self).path,
            final(self).size == old(self).size,
            final(self).size_string == old(self).size_string,
            final(self).file_count == old(self).file_count,
    {
        self.files.push(file);
    }
}

/// The tally over surviving files never exceeds the tally over all files.
proof fn lemma_level_total_le_all(
    entries: Seq<FsEntry>,
    ignored_files: Seq<Seq<char>>,
    i: int,
)
    ensures
        level_total(entries, ignored_files, i) <= all_files_total(entries, i),
    decreases i,
{
    if i > 0 {
        lemma_level_total_le_all(entries, ignored_files, i - 1);
    }
}

/// The tally over all files grows with the prefix.
proof fn lemma_all_files_total_monotone(entries: Seq<FsEntry>, i: int, j: int)
    requires
        i <= j,
    ensures
        all_files_total(entries, i) <= all_files_total(entries, j),
    decreases j - i,
{
    if i < j {
        lemma_all_files_total_monotone(entries, i, j - 1);
    }
}

/// Scans one snapshot node into a directory record, carrying the name and
/// the path the node was reached by.
fn scan_at(
    name: String,
    path: String,
    node: &FsNode,
    ignored_directories: &Vec<String>,
    ignored_files: &Vec<String>,
) -> (r: Result<DirectoryObject, ScanError>)
    requires
        files_sum_ok(*node),
    ensures
        scan_result_view(r) == spec_scan(
            name@,
            path@,
            *node,
            ignored_directories.deep_view(),
            ignored_files.deep_view(),
        ),
    decreases *node,
{
    let ghost igdv = ignored_directories.deep_view();
    let ghost igfv = ignored_files.deep_view();
    match node {
        FsNode::Directory(entries) => {
            let ghost es = entries@;
            proof {
                assert(*node == FsNode::Directory(*entries));
            }
            let n = entries.len();
            let mut files: Vec<FileObject> = Vec::new();
            let mut pending: Vec<usize> = Vec::new();
            let mut total: u64 = 0;
            let mut count: u64 = 0;
            let mut i: usize = 0;
            while i < n
                invariant
                    n == es.len(),
                    es == entries@,
                    *node == FsNode::Directory(*entries),
                    i <= n,
                    all_files_total(es, es.len() as int) <= u64::MAX,
                    files_view(files@) == level_files(es, path@, igfv, i as int),
                    total as nat == level_total(es, igfv, i as int),
                    count as nat == level_files(es, path@, igfv, i as int).len(),
                    pending@.map_values(|u: usize| u as int) == level_pending(es, igdv, i as int),
                    forall|k: int| 0 <= k < pending@.len() ==> pending@[k] < n,
                    forall|k: int|
                        0 <= k < i ==> !(#[trigger] es[k].node is FileWithoutMetadata
                            && !igfv.contains(es[k].name@)),
                    igdv == ignored_directories.deep_view(),
                    igfv == ignored_files.deep_view(),
                decreases n - i,
            {
                let e = &entries[i];
                match &e.node {
                    FsNode::File(size) => {
                        if !contains_string(ignored_files, &e.name) {
                            proof {
                                lemma_level_total_le_all(es, igfv, i + 1 as int);
                                lemma_all_files_total_monotone(es, i + 1 as int, n as int);
                                lemma_level_files_len(es, path@, igfv, i + 1 as int);
                            }
                            total = total + *size;
                            count = count + 1;
                            let (stem, ending) = split_file_name(e.name.as_str());
                            let file_path = join_path(&path, &e.name);
                            let fo = FileObject::new(&e.name, &stem, ending, file_path, *size);
                            proof {
                                assert(file_view(fo) =~= spec_file(path@, e.name@, *size));
                            }
                            files.push(fo);
                            proof {
                                assert(files_view(files@) =~= level_files(
                                    es,
                                    path@,
                                    igfv,
                                    i + 1 as int,
                                ));
                            }
                        }
                    },
                    FsNode::FileWithoutMetadata => {
                        if !contains_string(ignored_files, &e.name) {
                            proof {
                                assert(!level_meta_ok(es, igfv)) by {
                                    assert(es[i as int].node is FileWithoutMetadata
                                        && !igfv.contains(es[i as int].name@));
                                }
                            }
                            return Err(ScanError::MetadataUnavailable);
                        }
                    },
                    _ => {
                        if !contains_string(ignored_directories, &e.name) {
                            pending.push(i);
                            proof {
                                assert(pending@.map_values(|u: usize| u as int) =~= level_pending(
                                    es,
                                    igdv,
                                    i + 1 as int,
                                ));
                            }
                        }
                    },
                }
                i = i + 1;
            }

            let size_string = bytes_to_best_size(total);

            let ghost full_pending = level_pending(es, igdv, n as int);
            let mut directories: Vec<DirectoryObject> = Vec::new();
            proof {
                assert(dirs_view(directories@) + spec_seq_or_empty(
                    spec_scan_pending(es, full_pending, path@, igdv, igfv),
                ) =~= spec_seq_or_empty(spec_scan_pending(es, full_pending, path@, igdv, igfv)));
            }
            while pending.len() > 0
                invariant
                    n == es.len(),
                    es == entries@,
                    *node == FsNode::Directory(*entries),
                    files_sum_ok(*node),
                    level_meta_ok(es, igfv),
                    full_pending == level_pending(es, igdv, n as int),
                    forall|k: int| 0 <= k < pending@.len() ==> pending@[k] < n,
                    igdv == ignored_directories.deep_view(),
                    igfv == ignored_files.deep_view(),
                    (match spec_scan_pending(
                        es,
                        pending@.map_values(|u: usize| u as int),
                        path@,
                        igdv,
                        igfv,
                    ) {
                        Ok(ds) => spec_scan_pending(es, full_pending, path@, igdv, igfv) == Ok::<
                            Seq<DirModel>,
                            ScanError,
                        >(dirs_view(directories@) + ds),
                        Err(e) => spec_scan_pending(es, full_pending, path@, igdv, igfv) == Err::<
                            Seq<DirModel>,
                            ScanError,
                        >(e),
                    }),
                decreases pending@.len(),
            {
                let ghost pi = pending@.map_values(|u: usize| u as int);
                let j = match pending.pop() {
                    Some(j) => j,
                    None => {
                        proof {
                            assert(false);
                        }
                        0
                    },
                };
                proof {
                    assert(pi.last() == j as int);
                    assert(pending@.map_values(|u: usize| u as int) =~= pi.drop_last());
                }
                let e = &entries[j];
                let child_name = e.name.clone();
                let child_path = join_path(&path, &e.name);
                proof {
                    assert(files_sum_ok(es[j as int].node));
                    assert(decreases_to!(*node => es[j as int].node));
                }
                match scan_at(child_name, child_path, &e.node, ignored_directories, ignored_files) {
                    Err(err) => {
                        return Err(err);
                    },
                    Ok(d) => {
                        proof {
                            let old_dirs = directories@;
                            lemma_dirs_view_prefix_push(old_dirs, d, old_dirs.len() as int);
                            assert(dirs_view(old_dirs.push(d)) =~= dirs_view(old_dirs).push(
                                dir_view(d),
                            )) by {
                                lemma_dirs_view_prefix(old_dirs, old_dirs.len() as int);
                                lemma_dirs_view_prefix(
                                    old_dirs.push(d),
                                    old_dirs.push(d).len() as int,
                                );
                            }
                        }
                        let ghost pre_push = dirs_view(directories@);
                        directories.push(d);
                        proof {
                            if spec_scan_pending(es, pi.drop_last(), path@, igdv, igfv) is Ok {
                                let ds2 = spec_scan_pending(
                                    es,
                                    pi.drop_last(),
                                    path@,
                                    igdv,
                                    igfv,
                                )->Ok_0;
                                assert(pre_push + (seq![dir_view(d)] + ds2) =~= (pre_push.push(
                                    dir_view(d),
                                )) + ds2);
                            }
                        }
                    },
                }
            }

            proof {
                assert(pending@.map_values(|u: usize| u as int) =~= Seq::<int>::empty());
                assert(dirs_view(directories@) + Seq::<DirModel>::empty() =~= dirs_view(
                    directories@,
                ));
            }

            let d = DirectoryObject {
                directories,
                files,
                name,
                path,
                size: total,
                size_string,
                file_count: count,
            };
            proof {
                let m = spec_scan(d.name@, d.path@, *node, igdv, igfv);
                assert(m is Ok);
                assert(dir_view(d) =~= m->Ok_0);
            }
            Ok(d)
        },
        _ => {
            let d = DirectoryObject {
                directories: Vec::new(),
                files: Vec::new(),
                name,
                path,
                size: 0,
                size_string: bytes_to_best_size(0),
                file_count: 0,
            };
            proof {
                assert(dir_view(d) =~= spec_degraded(d.name@, d.path@));
            }
            Ok(d)
        },
    }
}

/// The payload of an ok scan of pending subdirectories, or the empty
/// sequence for a failed one.
spec fn spec_seq_or_empty(r: Result<Seq<DirModel>, ScanError>) -> Seq<DirModel> {
    match r {
        Ok(ds) => ds,
        Err(_) => Seq::empty(),
    }
}

/// Scans a snapshot of the directory hierarchy at `root_path` into a tree,
/// excluding entries whose bare names occur in the respective ignore set.
/// The root's own name is left empty, to be derived from the path when the
/// tree is displayed.
pub fn scan(
    root_path: &str,
    node: &FsNode,
    ignored_directories: &Vec<String>,
    ignored_files: &Vec<String>,
) -> (r: Result<DirectoryObject, ScanError>)
    requires
        files_sum_ok(*node),
    ensures
        scan_result_view(r) == spec_scan(
            Seq::<char>::empty(),
            root_path@,
            *node,
            ignored_directories.deep_view(),
            ignored_files.deep_view(),
        ),
{
    scan_at(String::new(), root_path.to_owned(), node, ignored_directories, ignored_files)
}

/// Decides whether every directory level of a snapshot has direct file
/// sizes whose sum fits in a machine word, so that a scan can tally them.
pub fn fs_sizes_fit(node: &FsNode) -> (b: bool)
    ensures
        b == files_sum_ok(*node),
    decreases *node,
{
    match node {
        FsNode::Directory(entries) => {
            let ghost es = entries@;
            proof {
                assert(*node == FsNode::Directory(*entries));
            }
            let n = entries.len();
            let mut acc: u64 = 0;
            let mut i: usize = 0;
            while i < n
                invariant
                    n == es.len(),
                    es == entries@,
                    *node == FsNode::Directory(*entries),
                    i <= n,
                    acc as nat == all_files_total(es, i as int),
                decreases n - i,
            {
                let e = &entries[i];
                match &e.node {
                    FsNode::File(size) => {
                        if *size > u64::MAX - acc {
                            proof {
                                lemma_all_files_total_monotone(es, i + 1 as int, n as int);
                            }
                            return false;
                        }
                        acc = acc + *size;
                    },
                    _ => {},
                }
                i = i + 1;
            }
            let mut i: usize = 0;
            while i < n
                invariant
                    n == es.len(),
                    es == entries@,
                    *node == FsNode::Directory(*entries),
                    i <= n,
                    all_files_total(es, n as int) <= u64::MAX,
                    forall|k: int| 0 <= k < i ==> files_sum_ok(#[trigger] es[k].node),
                decreases n - i,
            {
                let e = &entries[i];
                proof {
                    assert(decreases_to!(*node => es[i as int].node)) by {
                        assert(decreases_to!(*node => (*node)->Directory_0));
                        assert(decreases_to!((*node)->Directory_0 => es));
                        assert(decreases_to!(es => es[i as int]));
                        assert(decreases_to!(es[i as int] => es[i as int].node));
                    }
                }
                if !fs_sizes_fit(&e.node) {
                    return false;
                }
                i = i + 1;
            }
            true
        },
        _ => true,
    }
}

/// The sum of the sizes of the first `i` file models.
pub open spec fn files_size_sum(files: Seq<FileModel>, i: int) -> nat
    decreases i,
{
    if i <= 0 {
        0
    } else {
        files_size_sum(files, i - 1) + files[i - 1].size as nat
    }
}

/// A directory model is well formed when its size is the sum of its direct
/// files' sizes, its file count is the number of its direct files, and all
/// its subdirectories are well formed; subdirectory aggregates are never
/// rolled up.
pub open spec fn dir_wf(d: DirModel) -> bool
    decreases d,
{
    &&& d.size == files_size_sum(d.files, d.files.len() as int)
    &&& d.file_count == d.files.len()
    &&& forall|k: int| 0 <= k < d.directories.len() ==> dir_wf(#[trigger] d.directories[k])
}

/// A prefix sum ignores elements past the prefix.
proof fn lemma_files_size_sum_push(files: Seq<FileModel>, f: FileModel, i: int)
    requires
        0 <= i <= files.len(),
    ensures
        files_size_sum(files.push(f), i) == files_size_sum(files, i),
    decreases i,
{
    if i > 0 {
        lemma_files_size_sum_push(files, f, i - 1);
        assert(files.push(f)[i - 1] == files[i - 1]);
    }
}

/// The tally a scan keeps while classifying a level equals the sum of the
/// sizes of the files it has kept.
proof fn lemma_level_files_sum(
    entries: Seq<FsEntry>,
    path: Seq<char>,
    ignored_files: Seq<Seq<char>>,
    i: int,
)
    ensures
        files_size_sum(
            level_files(entries, path, ignored_files, i),
            level_files(entries, path, ignored_files, i).len() as int,
        ) == level_total(entries, ignored_files, i),
    decreases i,
{
    if i > 0 {
        lemma_level_files_sum(entries, path, ignored_files, i - 1);
        let prev = level_files(entries, path, ignored_files, i - 1);
        let e = entries[i - 1];
        if e.node is File && !ignored_files.contains(e.name@) {
            let f = spec_file(path, e.name@, e.node->File_0);
            lemma_files_size_sum_push(prev, f, prev.len() as int);
        }
    }
}

/// Every tree a scan returns satisfies the aggregate invariants: each
/// directory's size is the sum of its direct files' sizes and its count is
/// the number of its direct files ([`dir_wf`]).
pub proof fn lemma_scan_well_formed(
    name: Seq<char>,
    path: Seq<char>,
    node: FsNode,
    ignored_directories: Seq<Seq<char>>,
    ignored_files: Seq<Seq<char>>,
)
    ensures
        spec_scan(name, path, node, ignored_directories, ignored_files) matches Ok(d)
            ==> dir_wf(d),
    decreases node, 1int,
{
    if node is Directory {
        let entries = node->Directory_0;
        let n = entries@.len() as int;
        if level_meta_ok(entries@, ignored_files) {
            lemma_level_files_sum(entries@, path, ignored_files, n);
            lemma_scan_pending_well_formed(
                entries@,
                level_pending(entries@, ignored_directories, n),
                path,
                ignored_directories,
                ignored_files,
            );
        }
    }
}

/// Every subtree produced while expanding pending subdirectories is well
/// formed.
proof fn lemma_scan_pending_well_formed(
    entries: Seq<FsEntry>,
    pending: Seq<int>,
    path: Seq<char>,
    ignored_directories: Seq<Seq<char>>,
    ignored_files: Seq<Seq<char>>,
)
    ensures
        spec_scan_pending(entries, pending, path, ignored_directories, ignored_files) matches Ok(
            ds,
        ) ==> forall|k: int| 0 <= k < ds.len() ==> dir_wf(#[trigger] ds[k]),
    decreases entries, pending.len(),
{
    if pending.len() > 0 {
        let j = pending.last();
        if 0 <= j < entries.len() {
            let e = entries[j];
            lemma_scan_well_formed(
                e.name@,
                path + seq!['/'] + e.name@,
                e.node,
                ignored_directories,
                ignored_files,
            );
            lemma_scan_pending_well_formed(
                entries,
                pending.drop_last(),
                path,
                ignored_directories,
                ignored_files,
            );
        }
    }
}

/// No ignored bare name appears anywhere in a directory model: not among
/// its files, not among its subdirectories, and not below them.
pub open spec fn no_ignored(
    d: DirModel,
    ignored_directories: Seq<Seq<char>>,
    ignored_files: Seq<Seq<char>>,
) -> bool
    decreases d,
{
    &&& forall|k: int|
        0 <= k < d.files.len() ==> !ignored_files.contains(#[trigger] d.files[k].full_name)
    &&& forall|k: int|
        0 <= k < d.directories.len() ==> !ignored_directories.contains(
            #[trigger] d.directories[k].name,
        )
    &&& forall|k: int|
        0 <= k < d.directories.len() ==> no_ignored(
            #[trigger] d.directories[k],
            ignored_directories,
            ignored_files,
        )
}

/// Every index a level queues points at a surviving subdirectory: in range,
/// directory-like, and not ignored.
proof fn lemma_level_pending_members(
    entries: Seq<FsEntry>,
    ignored_directories: Seq<Seq<char>>,
    i: int,
)
    requires
        i <= entries.len(),
    ensures
        forall|k: int|
            0 <= k < level_pending(entries, ignored_directories, i).len() ==> {
                let j = #[trigger] level_pending(entries, ignored_directories, i)[k];
                &&& 0 <= j < i
                &&& entry_is_dir(entries[j])
                &&& !ignored_directories.contains(entries[j].name@)
            },
    decreases i,
{
    if i > 0 {
        lemma_level_pending_members(entries, ignored_directories, i - 1);
    }
}

/// Every file a level keeps survived the filter: its full name is not
/// ignored.
proof fn lemma_level_files_members(
    entries: Seq<FsEntry>,
    path: Seq<char>,
    ignored_files: Seq<Seq<char>>,
    i: int,
)
    ensures
        forall|k: int|
            0 <= k < level_files(entries, path, ignored_files, i).len() ==> !ignored_files.contains(
                #[trigger] level_files(entries, path, ignored_files, i)[k].full_name,
            ),
    decreases i,
{
    if i > 0 {
        lemma_level_files_members(entries, path, ignored_files, i - 1);
        let prev = level_files(entries, path, ignored_files, i - 1);
        let cur = level_files(entries, path, ignored_files, i);
        let e = entries[i - 1];
        if e.node is File && !ignored_files.contains(e.name@) {
            let f = spec_file(path, e.name@, e.node->File_0);
            assert(cur == prev.push(f));
            assert forall|k: int| 0 <= k < cur.len() implies !ignored_files.contains(
                cur[k].full_name,
            ) by {
                if k < prev.len() {
                    assert(cur[k] == prev[k]);
                } else {
                    assert(cur[k] == f);
                }
            }
        }
    }
}

/// A scanned node keeps the name it was reached by.
proof fn lemma_scan_keeps_name(
    name: Seq<char>,
    path: Seq<char>,
    node: FsNode,
    ignored_directories: Seq<Seq<char>>,
    ignored_files: Seq<Seq<char>>,
)
    ensures
        spec_scan(name, path, node, ignored_directories, ignored_files) matches Ok(d) ==> d.name
            == name,
{
}

/// A file or directory whose bare name is ignored never appears anywhere in
/// a scanned tree.
pub proof fn lemma_scan_no_ignored(
    name: Seq<char>,
    path: Seq<char>,
    node: FsNode,
    ignored_directories: Seq<Seq<char>>,
    ignored_files: Seq<Seq<char>>,
)
    ensures
        spec_scan(name, path, node, ignored_directories, ignored_files) matches Ok(d)
            ==> no_ignored(d, ignored_directories, ignored_files),
    decreases node, 1int,
{
    if node is Directory {
        let entries = node->Directory_0;
        let n = entries@.len() as int;
        if level_meta_ok(entries@, ignored_files) {
            lemma_level_files_members(entries@, path, ignored_files, n);
            lemma_level_pending_members(entries@, ignored_directories, n);
            let pending = level_pending(entries@, ignored_directories, n);
            lemma_scan_pending_no_ignored(
                entries@,
                pending,
                path,
                ignored_directories,
                ignored_files,
            );
            let r = spec_scan(name, path, node, ignored_directories, ignored_files);
            if r is Ok {
                let d = r->Ok_0;
                let pr = spec_scan_pending(
                    entries@,
                    pending,
                    path,
                    ignored_directories,
                    ignored_files,
                );
                assert(pr is Ok && d.directories == pr->Ok_0);
                assert(d.files == level_files(entries@, path, ignored_files, n));
                assert(no_ignored(d, ignored_directories, ignored_files));
            }
        }
    }
}

/// Every subtree produced while expanding surviving subdirectories is free
/// of ignored names, and carries a surviving name itself.
proof fn lemma_scan_pending_no_ignored(
    entries: Seq<FsEntry>,
    pending: Seq<int>,
    path: Seq<char>,
    ignored_directories: Seq<Seq<char>>,
    ignored_files: Seq<Seq<char>>,
)
    requires
        forall|k: int|
            0 <= k < pending.len() ==> {
                let j = #[trigger] pending[k];
                &&& 0 <= j < entries.len()
                &&& !ignored_directories.contains(entries[j].name@)
            },
    ensures
        spec_scan_pending(entries, pending, path, ignored_directories, ignored_files) matches Ok(
            ds,
        ) ==> (forall|k: int|
            0 <= k < ds.len() ==> !ignored_directories.contains(#[trigger] ds[k].name)),
        spec_scan_pending(entries, pending, path, ignored_directories, ignored_files) matches Ok(
            ds,
        ) ==> (forall|k: int|
            0 <= k < ds.len() ==> no_ignored(#[trigger] ds[k], ignored_directories, ignored_files)),
    decreases entries, pending.len(),
{
    if pending.len() > 0 {
        let j = pending.last();
        assert(0 <= j < entries.len());
        let e = entries[j];
        let child_path = path + seq!['/'] + e.name@;
        lemma_scan_no_ignored(e.name@, child_path, e.node, ignored_directories, ignored_files);
        lemma_scan_keeps_name(e.name@, child_path, e.node, ignored_directories, ignored_files);
        lemma_scan_pending_no_ignored(
            entries,
            pending.drop_last(),
            path,
            ignored_directories,
            ignored_files,
        );
    }
}

/// Two snapshot nodes agree except possibly inside subdirectories whose
/// bare names are ignored.
pub open spec fn eq_mod_ignored(a: FsNode, b: FsNode, ignored_directories: Seq<Seq<char>>) -> bool
    decreases a, 1int,
{
    match (a, b) {
        (FsNode::Directory(ea), FsNode::Directory(eb)) => {
            &&& ea@.len() == eb@.len()
            &&& (forall|k: int|
                0 <= k < ea@.len() ==> entry_eq_mod_ignored(
                    #[trigger] ea@[k],
                    eb@[k],
                    ignored_directories,
                ))
        },
        _ => a == b,
    }
}

/// Two directory entries agree except possibly inside an ignored
/// subdirectory: same name, and either both are subdirectories under an
/// ignored name (contents free), or their nodes agree in the same way.
pub open spec fn entry_eq_mod_ignored(
    x: FsEntry,
    y: FsEntry,
    ignored_directories: Seq<Seq<char>>,
) -> bool
    decreases x, 2int,
{
    &&& x.name == y.name
    &&& {
        ||| (ignored_directories.contains(x.name@) && entry_is_dir(x) && entry_is_dir(y))
        ||| eq_mod_ignored(x.node, y.node, ignored_directories)
    }
}

/// Related levels classify identically: same surviving files, same tally,
/// same pending queue, and the same metadata verdict.
proof fn lemma_level_eq_mod_ignored(
    ea: Seq<FsEntry>,
    eb: Seq<FsEntry>,
    path: Seq<char>,
    ignored_directories: Seq<Seq<char>>,
    ignored_files: Seq<Seq<char>>,
    i: int,
)
    requires
        ea.len() == eb.len(),
        i <= ea.len(),
        forall|k: int|
            0 <= k < ea.len() ==> entry_eq_mod_ignored(#[trigger] ea[k], eb[k], ignored_directories),
    ensures
        level_files(ea, path, ignored_files, i) == level_files(eb, path, ignored_files, i),
        level_total(ea, ignored_files, i) == level_total(eb, ignored_files, i),
        level_pending(ea, ignored_directories, i) == level_pending(eb, ignored_directories, i),
    decreases i,
{
    if i > 0 {
        lemma_level_eq_mod_ignored(ea, eb, path, ignored_directories, ignored_files, i - 1);
        let x = ea[i - 1];
        let y = eb[i - 1];
        assert(entry_eq_mod_ignored(x, y, ignored_directories));
        if !(ignored_directories.contains(x.name@) && entry_is_dir(x) && entry_is_dir(y)) {
            assert(eq_mod_ignored(x.node, y.node, ignored_directories));
            if !(x.node is Directory && y.node is Directory) {
                assert(x.node == y.node);
            }
        }
    }
}

/// Related levels agree on whether any surviving file lacks its size.
proof fn lemma_level_meta_eq_mod_ignored(
    ea: Seq<FsEntry>,
    eb: Seq<FsEntry>,
    ignored_directories: Seq<Seq<char>>,
    ignored_files: Seq<Seq<char>>,
)
    requires
        ea.len() == eb.len(),
        forall|k: int|
            0 <= k < ea.len() ==> entry_eq_mod_ignored(#[trigger] ea[k], eb[k], ignored_directories),
    ensures
        level_meta_ok(ea, ignored_files) == level_meta_ok(eb, ignored_files),
{
    assert forall|k: int| 0 <= k < ea.len() implies (#[trigger] ea[k].node is FileWithoutMetadata
        <==> eb[k].node is FileWithoutMetadata) && ea[k].name == eb[k].name by {
        let x = ea[k];
        let y = eb[k];
        assert(entry_eq_mod_ignored(x, y, ignored_directories));
        if !(ignored_directories.contains(x.name@) && entry_is_dir(x) && entry_is_dir(y)) {
            assert(eq_mod_ignored(x.node, y.node, ignored_directories));
            if !(x.node is Directory && y.node is Directory) {
                assert(x.node == y.node);
            }
        }
    }
    assert(level_meta_ok(ea, ignored_files) == level_meta_ok(eb, ignored_files)) by {
        if level_meta_ok(ea, ignored_files) {
            assert forall|k: int|
                0 <= k < eb.len() implies !(#[trigger] eb[k].node is FileWithoutMetadata
                && !ignored_files.contains(eb[k].name@)) by {
                assert(!(ea[k].node is FileWithoutMetadata && !ignored_files.contains(
                    ea[k].name@,
                )));
            }
        }
        if level_meta_ok(eb, ignored_files) {
            assert forall|k: int|
                0 <= k < ea.len() implies !(#[trigger] ea[k].node is FileWithoutMetadata
                && !ignored_files.contains(ea[k].name@)) by {
                assert(!(eb[k].node is FileWithoutMetadata && !ignored_files.contains(
                    eb[k].name@,
                )));
            }
        }
    }
}

/// An ignored directory is never descended into: scanning two snapshots
/// that differ only inside subdirectories with ignored names yields the
/// same tree, whatever those subdirectories hold.
pub proof fn lemma_scan_skips_ignored_contents(
    name: Seq<char>,
    path: Seq<char>,
    a: FsNode,
    b: FsNode,
    ignored_directories: Seq<Seq<char>>,
    ignored_files: Seq<Seq<char>>,
)
    requires
        eq_mod_ignored(a, b, ignored_directories),
    ensures
        spec_scan(name, path, a, ignored_directories, ignored_files) == spec_scan(
            name,
            path,
            b,
            ignored_directories,
            ignored_files,
        ),
    decreases a, 1int,
{
    if a is Directory && b is Directory {
        let ea = a->Directory_0;
        let eb = b->Directory_0;
        let n = ea@.len() as int;
        lemma_level_meta_eq_mod_ignored(ea@, eb@, ignored_directories, ignored_files);
        if level_meta_ok(ea@, ignored_files) {
            lemma_level_eq_mod_ignored(
                ea@,
                eb@,
                path,
                ignored_directories,
                ignored_files,
                n,
            );
            lemma_level_pending_members(ea@, ignored_directories, n);
            lemma_scan_pending_eq_mod_ignored(
                ea@,
                eb@,
                level_pending(ea@, ignored_directories, n),
                path,
                ignored_directories,
                ignored_files,
            );
        }
    } else {
        assert(a == b);
    }
}

/// Expanding the same pending queue over related levels yields the same
/// subtrees.
proof fn lemma_scan_pending_eq_mod_ignored(
    ea: Seq<FsEntry>,
    eb: Seq<FsEntry>,
    pending: Seq<int>,
    path: Seq<char>,
    ignored_directories: Seq<Seq<char>>,
    ignored_files: Seq<Seq<char>>,
)
    requires
        ea.len() == eb.len(),
        forall|k: int|
            0 <= k < ea.len() ==> entry_eq_mod_ignored(#[trigger] ea[k], eb[k], ignored_directories),
        forall|k: int|
            0 <= k < pending.len() ==> {
                let j = #[trigger] pending[k];
                &&& 0 <= j < ea.len()
                &&& !ignored_directories.contains(ea[j].name@)
            },
    ensures
        spec_scan_pending(ea, pending, path, ignored_directories, ignored_files)
            == spec_scan_pending(eb, pending, path, ignored_directories, ignored_files),
    decreases ea, pending.len(),
{
    if pending.len() > 0 {
        let j = pending.last();
        assert(0 <= j < ea.len());
        let x = ea[j];
        let y = eb[j];
        assert(entry_eq_mod_ignored(x, y, ignored_directories));
        assert(eq_mod_ignored(x.node, y.node, ignored_directories));
        lemma_scan_skips_ignored_contents(
            x.name@,
            path + seq!['/'] + x.name@,
            x.node,
            y.node,
            ignored_directories,
            ignored_files,
        );
        lemma_scan_pending_eq_mod_ignored(
            ea,
            eb,
            pending.drop_last(),
            path,
            ignored_directories,
            ignored_files,
        );
    }
}

/// Scanning is a function of the snapshot and the ignore sets alone: two
/// scans of the same unchanged snapshot yield identical trees, names, sizes
/// and counts. Enumeration order is part of the snapshot, so it is
/// preserved as well.
pub proof fn lemma_scan_deterministic(
    name: Seq<char>,
    path: Seq<char>,
    node1: FsNode,
    node2: FsNode,
    ignored_directories: Seq<Seq<char>>,
    ignored_files: Seq<Seq<char>>,
)
    requires
        node1 == node2,
    ensures
        spec_scan(name, path, node1, ignored_directories, ignored_files) == spec_scan(
            name,
            path,
            node2,
            ignored_directories,
            ignored_files,
        ),
{
}

/// The number of surviving files never exceeds the prefix length.
proof fn lemma_level_files_len(
    entries: Seq<FsEntry>,
    path: Seq<char>,
    ignored_files: Seq<Seq<char>>,
    i: int,
)
    requires
        i >= 0,
    ensures
        level_files(entries, path, ignored_files, i).len() <= i,
    decreases i,
{
    if i > 0 {
        lemma_level_files_len(entries, path, ignored_files, i - 1);
    }
}

} // verus!
