//! What was found in the file system: a file, or a directory with what it
//! holds. The library is handed such a listing and never looks itself.

use crate::error::ComposeError;
use crate::load::{source_of, Source, SourceView};
use crate::order::{positions, sort_positions, sorted_order};
use crate::path::{file_name_of, FilePath};
use vstd::prelude::*;

verus! {

/// A file, or a directory with its entries in the order in which the file
/// system gave them.
#[derive(Debug)]
pub enum Listing {
    File(FilePath),
    Dir(FilePath, Vec<Listing>),
}

/// What a listing is.
pub ghost enum Listed {
    File(Seq<Seq<char>>),
    Dir(Seq<Seq<char>>, Seq<Listed>),
}

/// The views of a list of listings.
pub open spec fn listings_view(entries: Seq<Listing>) -> Seq<Listed>
    decreases entries,
{
    if entries.len() == 0 {
        Seq::empty()
    } else {
        listings_view(entries.drop_last()).push(entries.last()@)
    }
}

impl View for Listing {
    type V = Listed;

    open spec fn view(&self) -> Listed
        decreases self,
    {
        match self {
            Listing::File(path) => Listed::File(path@),
            Listing::Dir(path, entries) => Listed::Dir(path@, listings_view(entries@)),
        }
    }
}

/// The view of a list of listings holds the view of each, in order.
pub proof fn lemma_listings_view(entries: Seq<Listing>)
    ensures
        listings_view(entries).len() == entries.len(),
        forall|i: int|
            0 <= i < entries.len() ==> listings_view(entries)[i] == (#[trigger] entries[i])@,
    decreases entries.len(),
{
    if entries.len() > 0 {
        lemma_listings_view(entries.drop_last());
        assert(listings_view(entries) == listings_view(entries.drop_last()).push(entries.last()@));
        assert forall|i: int| 0 <= i < entries.len() implies listings_view(entries)[i] == (
        #[trigger] entries[i])@ by {
            if i < entries.len() - 1 {
                assert(entries.drop_last()[i] == entries[i]);
            }
        }
    }
}

impl Listing {
    /// Where the file or directory lies.
    pub fn path(&self) -> (path: &FilePath)
        ensures
            path@ == place_of(self@),
    {
        match self {
            Listing::File(path) => path,
            Listing::Dir(path, _) => path,
        }
    }
}

/// Where a listed file or directory lies.
pub open spec fn place_of(listed: Listed) -> Seq<Seq<char>> {
    match listed {
        Listed::File(path) => path,
        Listed::Dir(path, _) => path,
    }
}

/// The name of a listed file or directory: the last component of its path.
pub open spec fn name_of(listed: Listed) -> Seq<char> {
    if place_of(listed).len() > 0 {
        place_of(listed).last()
    } else {
        Seq::empty()
    }
}

/// The names of `entries`.
pub open spec fn names_of(entries: Seq<Listed>) -> Seq<Seq<char>> {
    Seq::new(entries.len(), |i: int| name_of(entries[i]))
}

/// Why a listing gives no source files.
pub ghost enum NoSource {
    /// The path of a file has no file name.
    NotAFile(Seq<Seq<char>>),
}

/// The source files of a listing: the file itself, or the source files of
/// the entries of the directory, with the entries taken in the order of
/// their names. The first file whose path has no file name ends the search.
pub open spec fn sources_of(listed: Listed) -> Result<Seq<SourceView>, NoSource>
    decreases listed, 0nat,
{
    match listed {
        Listed::File(path) => if file_name_of(path) is Some {
            Ok(seq![source_of(path)])
        } else {
            Err(NoSource::NotAFile(path))
        },
        Listed::Dir(_, entries) => sources_in(
            entries,
            sorted_order(names_of(entries), entries.len()),
            entries.len(),
        ),
    }
}

/// The source files of the first `n` of the entries at the positions `order`.
pub open spec fn sources_in(entries: Seq<Listed>, order: Seq<int>, n: nat) -> Result<
    Seq<SourceView>,
    NoSource,
>
    decreases entries, n,
{
    if n == 0 || n > order.len() {
        Ok(Seq::empty())
    } else {
        match sources_in(entries, order, (n - 1) as nat) {
            Ok(before) => {
                let at = order[n - 1];
                if 0 <= at < entries.len() {
                    match sources_of(entries[at]) {
                        Ok(more) => Ok(before + more),
                        Err(e) => Err(e),
                    }
                } else {
                    Ok(before)
                }
            },
            Err(e) => Err(e),
        }
    }
}

/// Once a file has ended the search, the entries behind it change nothing.
pub proof fn lemma_sources_in_stops(entries: Seq<Listed>, order: Seq<int>, n: nat, m: nat)
    requires
        n <= m <= order.len(),
        sources_in(entries, order, n) is Err,
    ensures
        sources_in(entries, order, m) == sources_in(entries, order, n),
    decreases m - n,
{
    if n < m {
        lemma_sources_in_stops(entries, order, n, (m - 1) as nat);
    }
}

fn append_sources(out: &mut Vec<Source>, more: Vec<Source>)
    ensures
        crate::data::sources_view(final(out)@) == crate::data::sources_view(old(out)@)
            + crate::data::sources_view(more@),
{
    let ghost all = more@;
    let ghost views = crate::data::sources_view(more@);
    assert(crate::data::sources_view(out@) + views.take(0) == crate::data::sources_view(out@));
    for source in it: more
        invariant
            it.seq() == all,
            views == crate::data::sources_view(all),
            crate::data::sources_view(out@) == crate::data::sources_view(old(out)@) + views.take(
                it.index() as int,
            ),
    {
        let ghost before = crate::data::sources_view(out@);
        let ghost done = it.index() as int;
        out.push(source);
        assert(crate::data::sources_view(out@) == before.push(source@));
        assert(views.take(done + 1) == views.take(done).push(source@));
    }
    assert(views.take(all.len() as int) == views);
}

fn gather(entries: &Vec<Listing>) -> (result: Result<Vec<Source>, ComposeError>)
    ensures
        match result {
            Ok(sources) => sources_in(
                listings_view(entries@),
                sorted_order(names_of(listings_view(entries@)), entries@.len()),
                entries@.len(),
            ) == Ok::<Seq<SourceView>, NoSource>(crate::data::sources_view(sources@)),
            Err(e) => {
                let found = sources_in(
                    listings_view(entries@),
                    sorted_order(names_of(listings_view(entries@)), entries@.len()),
                    entries@.len(),
                );
                found is Err && (e matches ComposeError::NotAFile(p) && NoSource::NotAFile(p@)
                    == found->Err_0)
            },
        },
    decreases entries,
{
    let ghost listed = listings_view(entries@);
    proof {
        lemma_listings_view(entries@);
    }
    let mut names: Vec<String> = Vec::new();
    let mut i: usize = 0;
    while i < entries.len()
        invariant
            i <= entries.len(),
            listed == listings_view(entries@),
            listed.len() == entries@.len(),
            forall|k: int| 0 <= k < entries@.len() ==> listed[k] == (#[trigger] entries@[k])@,
            names.deep_view() == names_of(listed).take(i as int),
        decreases entries.len() - i,
    {
        let path = entries[i].path();
        let name = if path.len() > 0 {
            path.part(path.len() - 1).clone()
        } else {
            String::new()
        };
        let ghost before = names.deep_view();
        names.push(name);
        assert(names.deep_view() == before.push(name@));
        assert(names_of(listed).take(i + 1) == names_of(listed).take(i as int).push(
            name_of(listed[i as int]),
        ));
        i += 1;
    }
    assert(names_of(listed).take(entries@.len() as int) == names_of(listed));
    let order = sort_positions(&names);
    let ghost positions = positions(order@);
    let mut sources: Vec<Source> = Vec::new();
    let mut k: usize = 0;
    assert(crate::data::sources_view(sources@) == Seq::<SourceView>::empty());
    while k < order.len()
        invariant
            k <= order.len(),
            order@.len() == entries@.len(),
            listed == listings_view(entries@),
            listed.len() == entries@.len(),
            forall|j: int| 0 <= j < entries@.len() ==> listed[j] == (#[trigger] entries@[j])@,
            forall|j: int| 0 <= j < order@.len() ==> (#[trigger] order@[j]) < entries@.len(),
            positions == crate::order::positions(order@),
            positions == sorted_order(names_of(listed), entries@.len() as nat),
            sources_in(listed, positions, k as nat) == Ok::<Seq<SourceView>, NoSource>(
                crate::data::sources_view(sources@),
            ),
        decreases order.len() - k,
    {
        let at = order[k];
        assert(positions[k as int] == at);
        match Source::try_from_path_buf(&entries[at]) {
            Ok(more) => {
                append_sources(&mut sources, more);
            },
            Err(e) => {
                proof {
                    lemma_sources_in_stops(listed, positions, (k + 1) as nat, order@.len() as nat);
                }
                return Err(e);
            },
        }
        k += 1;
    }
    Ok(sources)
}

impl Source {
    /// The source files of a listing: the file itself, or all files in and
    /// below the directory, the entries of each directory in the order of
    /// their names.
    pub fn try_from_path_buf(value: &Listing) -> (result: Result<Vec<Source>, ComposeError>)
        ensures
            match result {
                Ok(sources) => sources_of(value@) == Ok::<Seq<SourceView>, NoSource>(
                    crate::data::sources_view(sources@),
                ),
                Err(e) => sources_of(value@) is Err && (e matches ComposeError::NotAFile(p)
                    && NoSource::NotAFile(p@) == sources_of(value@)->Err_0),
            },
        decreases value,
    {
        match value {
            Listing::File(path) => {
                match Source::try_from(path, true, true) {
                    Ok(source) => {
                        let mut sources: Vec<Source> = Vec::new();
                        sources.push(source);
                        assert(crate::data::sources_view(sources@) == seq![source@]);
                        Ok(sources)
                    },
                    Err(e) => Err(e),
                }
            },
            Listing::Dir(_, entries) => {
                proof {
                    lemma_listings_view(entries@);
                }
                gather(entries)
            },
        }
    }
}

} // verus!
