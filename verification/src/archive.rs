//! The archive of a package: which entries it gets, in which order, and how
//! each is stored. The format wants the file that names it first and
//! uncompressed; every directory is entered by itself, so that an empty one
//! is kept, and within a directory the files come before the directories.

use crate::error::ComposeError;
use crate::listing::{lemma_listings_view, listings_view, Listed, Listing};
use crate::path::{path_diff_of, rendered, FilePath, PathDiff};
use crate::tmpfile::TmpDir;
use vstd::prelude::*;

verus! {

/// How an entry is stored.
#[derive(Debug, Clone, Copy, PartialEq, Eq)]
pub enum Compression {
    /// As it is.
    Stored,
    /// Compressed.
    Deflated,
}

/// An entry of the archive.
#[derive(Debug)]
pub enum ArchiveEntry {
    /// The file at `from`, under `name`.
    File { name: String, from: FilePath, method: Compression },
    /// A directory, under `name`.
    Directory { name: String },
}

/// What an entry of the archive is.
pub ghost enum Packed {
    File { name: Seq<char>, from: Seq<Seq<char>>, method: Compression },
    Directory { name: Seq<char> },
}

impl View for ArchiveEntry {
    type V = Packed;

    open spec fn view(&self) -> Packed {
        match self {
            ArchiveEntry::File { name, from, method } => Packed::File {
                name: name@,
                from: from@,
                method: *method,
            },
            ArchiveEntry::Directory { name } => Packed::Directory { name: name@ },
        }
    }
}

/// The views of a list of entries.
pub open spec fn entries_view(entries: Seq<ArchiveEntry>) -> Seq<Packed> {
    Seq::new(entries.len(), |i: int| entries[i]@)
}

/// The entry of the file at `path`, named by its path from `root`; none
/// where there is no such path.
pub open spec fn packed_file(root: Seq<Seq<char>>, path: Seq<Seq<char>>, method: Compression) -> Option<
    Seq<Packed>,
> {
    match path_diff_of(root, path) {
        Some(rel) => Some(seq![Packed::File { name: rendered(rel), from: path, method }]),
        None => None,
    }
}

/// One list of entries behind another, where both are there.
pub open spec fn both(first: Option<Seq<Packed>>, second: Option<Seq<Packed>>) -> Option<
    Seq<Packed>,
> {
    match (first, second) {
        (Some(a), Some(b)) => Some(a + b),
        _ => None,
    }
}

/// The entries of a listing, each named by its path from `root`: a file is
/// compressed; a directory is entered itself, then its files in the order
/// of the listing, then its directories in that order, each with all it
/// holds. There are none where something has no path from `root`.
pub open spec fn packed(listed: Listed, root: Seq<Seq<char>>) -> Option<Seq<Packed>>
    decreases listed, 0nat,
{
    match listed {
        Listed::File(path) => packed_file(root, path, Compression::Deflated),
        Listed::Dir(path, entries) => match path_diff_of(root, path) {
            Some(rel) => both(
                both(
                    Some(seq![Packed::Directory { name: rendered(rel) }]),
                    files_packed(entries, root, entries.len()),
                ),
                dirs_packed(entries, root, entries.len()),
            ),
            None => None,
        },
    }
}

/// The entries of the files among the first `n` of `entries`.
pub open spec fn files_packed(entries: Seq<Listed>, root: Seq<Seq<char>>, n: nat) -> Option<
    Seq<Packed>,
>
    decreases n,
{
    if n == 0 || n > entries.len() {
        Some(Seq::empty())
    } else {
        match entries[n - 1] {
            Listed::File(path) => both(
                files_packed(entries, root, (n - 1) as nat),
                packed_file(root, path, Compression::Deflated),
            ),
            Listed::Dir(_, _) => files_packed(entries, root, (n - 1) as nat),
        }
    }
}

/// The entries of the directories among the first `n` of `entries`, each
/// with all it holds.
pub open spec fn dirs_packed(entries: Seq<Listed>, root: Seq<Seq<char>>, n: nat) -> Option<
    Seq<Packed>,
>
    decreases entries, n,
{
    if n == 0 || n > entries.len() {
        Some(Seq::empty())
    } else {
        match entries[n - 1] {
            Listed::File(_) => dirs_packed(entries, root, (n - 1) as nat),
            Listed::Dir(_, _) => both(
                dirs_packed(entries, root, (n - 1) as nat),
                packed(entries[n - 1], root),
            ),
        }
    }
}

/// The entries of the archive of a staging tree: the file that names the
/// format, uncompressed, then the descriptor directory, then the content
/// directory, each with all it holds.
pub open spec fn archive_of(
    root: Seq<Seq<char>>,
    mimetype: Seq<Seq<char>>,
    meta_inf: Listed,
    oebps: Listed,
) -> Option<Seq<Packed>> {
    both(
        both(packed_file(root, mimetype, Compression::Stored), packed(meta_inf, root)),
        packed(oebps, root),
    )
}

/// What planning entries returns: the entries, or the refusal of a path that
/// cannot be named from `root`.
pub open spec fn planned(
    expected: Option<Seq<Packed>>,
    before: Seq<Packed>,
    after: Seq<Packed>,
    root: Seq<Seq<char>>,
    result: Result<(), ComposeError>,
) -> bool {
    match result {
        Ok(()) => expected is Some && after == before + expected->0,
        Err(e) => expected is None && (e matches ComposeError::Unrelated(a, _) && a@ == root),
    }
}

fn plan_file(out: &mut Vec<ArchiveEntry>, root: &FilePath, path: &FilePath, method: Compression) -> (result:
    Result<(), ComposeError>)
    ensures
        planned(
            packed_file(root@, path@, method),
            entries_view(old(out)@),
            entries_view(final(out)@),
            root@,
            result,
        ),
{
    match FilePath::path_diff(root, path) {
        Some(rel) => {
            let ghost before = entries_view(out@);
            let entry = ArchiveEntry::File { name: rel.to_string(), from: path.clone(), method };
            out.push(entry);
            assert(entries_view(out@) == before.push(entry@));
            assert(before.push(entry@) == before + seq![entry@]);
            Ok(())
        },
        None => Err(ComposeError::Unrelated(root.clone(), path.clone())),
    }
}

fn plan_files(out: &mut Vec<ArchiveEntry>, root: &FilePath, entries: &Vec<Listing>) -> (result:
    Result<(), ComposeError>)
    ensures
        planned(
            files_packed(listings_view(entries@), root@, entries@.len() as nat),
            entries_view(old(out)@),
            entries_view(final(out)@),
            root@,
            result,
        ),
{
    let ghost listed = listings_view(entries@);
    let ghost before = entries_view(out@);
    proof {
        lemma_listings_view(entries@);
        assert(before + Seq::<Packed>::empty() == before);
    }
    let mut i: usize = 0;
    while i < entries.len()
        invariant
            i <= entries.len(),
            listed == listings_view(entries@),
            listed.len() == entries@.len(),
            forall|k: int| 0 <= k < entries@.len() ==> listed[k] == (#[trigger] entries@[k])@,
            before == entries_view(old(out)@),
            files_packed(listed, root@, i as nat) is Some,
            entries_view(out@) == before + files_packed(listed, root@, i as nat)->0,
        decreases entries.len() - i,
    {
        match &entries[i] {
            Listing::File(path) => {
                let ghost so_far = files_packed(listed, root@, i as nat)->0;
                match plan_file(out, root, path, Compression::Deflated) {
                    Ok(()) => {
                        let ghost one = packed_file(root@, path@, Compression::Deflated)->0;
                        assert(before + so_far + one == before + (so_far + one));
                    },
                    Err(e) => {
                        proof {
                            lemma_files_packed_none(listed, root@, (i + 1) as nat, listed.len());
                        }
                        return Err(e);
                    },
                }
            },
            Listing::Dir(_, _) => {},
        }
        i += 1;
    }
    Ok(())
}

/// Once a file cannot be named, neither can the files of any longer list.
pub proof fn lemma_files_packed_none(entries: Seq<Listed>, root: Seq<Seq<char>>, n: nat, m: nat)
    requires
        n <= m <= entries.len(),
        files_packed(entries, root, n) is None,
    ensures
        files_packed(entries, root, m) is None,
    decreases m - n,
{
    if n < m {
        lemma_files_packed_none(entries, root, n, (m - 1) as nat);
    }
}

/// Once a directory cannot be named, neither can the directories of any
/// longer list.
pub proof fn lemma_dirs_packed_none(entries: Seq<Listed>, root: Seq<Seq<char>>, n: nat, m: nat)
    requires
        n <= m <= entries.len(),
        dirs_packed(entries, root, n) is None,
    ensures
        dirs_packed(entries, root, m) is None,
    decreases m - n,
{
    if n < m {
        lemma_dirs_packed_none(entries, root, n, (m - 1) as nat);
    }
}

fn plan_dirs(out: &mut Vec<ArchiveEntry>, root: &FilePath, entries: &Vec<Listing>) -> (result:
    Result<(), ComposeError>)
    ensures
        planned(
            dirs_packed(listings_view(entries@), root@, entries@.len() as nat),
            entries_view(old(out)@),
            entries_view(final(out)@),
            root@,
            result,
        ),
    decreases entries,
{
    let ghost listed = listings_view(entries@);
    let ghost before = entries_view(out@);
    proof {
        lemma_listings_view(entries@);
        assert(before + Seq::<Packed>::empty() == before);
    }
    let mut i: usize = 0;
    while i < entries.len()
        invariant
            i <= entries.len(),
            listed == listings_view(entries@),
            listed.len() == entries@.len(),
            forall|k: int| 0 <= k < entries@.len() ==> listed[k] == (#[trigger] entries@[k])@,
            before == entries_view(old(out)@),
            dirs_packed(listed, root@, i as nat) is Some,
            entries_view(out@) == before + dirs_packed(listed, root@, i as nat)->0,
        decreases entries.len() - i,
    {
        match &entries[i] {
            Listing::File(_) => {},
            Listing::Dir(_, _) => {
                let ghost so_far = dirs_packed(listed, root@, i as nat)->0;
                match plan_listing(out, root, &entries[i]) {
                    Ok(()) => {
                        let ghost one = packed(listed[i as int], root@)->0;
                        assert(before + so_far + one == before + (so_far + one));
                    },
                    Err(e) => {
                        proof {
                            lemma_dirs_packed_none(listed, root@, (i + 1) as nat, listed.len());
                        }
                        return Err(e);
                    },
                }
            },
        }
        i += 1;
    }
    Ok(())
}

/// Plans the entries of a listing behind those of `out`: see `packed`.
pub fn plan_listing(out: &mut Vec<ArchiveEntry>, root: &FilePath, listing: &Listing) -> (result:
    Result<(), ComposeError>)
    ensures
        planned(
            packed(listing@, root@),
            entries_view(old(out)@),
            entries_view(final(out)@),
            root@,
            result,
        ),
    decreases listing,
{
    match listing {
        Listing::File(path) => plan_file(out, root, path, Compression::Deflated),
        Listing::Dir(path, entries) => {
            let rel = match FilePath::path_diff(root, path) {
                Some(rel) => rel,
                None => {
                    return Err(ComposeError::Unrelated(root.clone(), path.clone()));
                },
            };
            proof {
                lemma_listings_view(entries@);
            }
            let ghost before = entries_view(out@);
            let entry = ArchiveEntry::Directory { name: rel.to_string() };
            out.push(entry);
            assert(entries_view(out@) == before.push(entry@));
            assert(before.push(entry@) == before + seq![entry@]);
            match plan_files(out, root, entries) {
                Ok(()) => {},
                Err(e) => {
                    return Err(e);
                },
            }
            let ghost files = files_packed(listings_view(entries@), root@, entries@.len() as nat)->0;
            match plan_dirs(out, root, entries) {
                Ok(()) => {},
                Err(e) => {
                    return Err(e);
                },
            }
            let ghost dirs = dirs_packed(listings_view(entries@), root@, entries@.len() as nat)->0;
            assert(before + seq![entry@] + files + dirs == before + (seq![entry@] + files + dirs));
            Ok(())
        },
    }
}

/// Plans the archive of the staging tree `tmp_dir`, of which `meta_inf` and
/// `oebps` list the two directories.
pub fn archive_plan(tmp_dir: &TmpDir, meta_inf: &Listing, oebps: &Listing) -> (result: Result<
    Vec<ArchiveEntry>,
    ComposeError,
>)
    ensures
        match result {
            Ok(entries) => archive_of(tmp_dir.path@, tmp_dir.mimetype.0@, meta_inf@, oebps@)
                == Some(entries_view(entries@)),
            Err(e) => archive_of(tmp_dir.path@, tmp_dir.mimetype.0@, meta_inf@, oebps@) is None && (
            e matches ComposeError::Unrelated(a, _) && a@ == tmp_dir.path@),
        },
{
    let mut out: Vec<ArchiveEntry> = Vec::new();
    assert(entries_view(out@) == Seq::<Packed>::empty());
    match plan_file(&mut out, &tmp_dir.path, &tmp_dir.mimetype.0, Compression::Stored) {
        Ok(()) => {},
        Err(e) => {
            return Err(e);
        },
    }
    let ghost first = packed_file(tmp_dir.path@, tmp_dir.mimetype.0@, Compression::Stored)->0;
    assert(Seq::<Packed>::empty() + first == first);
    match plan_listing(&mut out, &tmp_dir.path, meta_inf) {
        Ok(()) => {},
        Err(e) => {
            return Err(e);
        },
    }
    match plan_listing(&mut out, &tmp_dir.path, oebps) {
        Ok(()) => {},
        Err(e) => {
            return Err(e);
        },
    }
    Ok(out)
}

} // verus!
