//! One sorting pass over a snapshot of the watched directory: which files go
//! to which category folder, and whether a partial download held it back.
use vstd::prelude::*;
use crate::settle::{extension, extension_of, is_in_flight, is_marker, FileEntry};
use crate::table::{category_from, category_of, ClassificationTable};

verus! {

/// How a sorting pass ended.
#[derive(PartialEq, Eq, Structural, Clone, Copy, Debug)]
pub enum SortOutcome {
    /// Every file of the listing was given a destination.
    Completed,
    /// A download still in progress was met; the files after it were left
    /// for a later pass.
    Deferred,
}

/// A file to move into a category folder of the watched directory.
pub struct PlannedMove {
    pub file_name: String,
    pub category: String,
}

impl View for PlannedMove {
    type V = (Seq<char>, Seq<char>);

    open spec fn view(&self) -> Self::V {
        (self.file_name@, self.category@)
    }
}

/// What one pass decided: the moves, in listing order, and how it ended.
pub struct SortPlan {
    pub moves: Vec<PlannedMove>,
    pub outcome: SortOutcome,
}

/// The listing as plain values.
pub open spec fn listing_view(entries: Seq<FileEntry>) -> Seq<(Seq<char>, bool)> {
    entries.map_values(|e: FileEntry| e@)
}

/// The moves as plain values.
pub open spec fn moves_view(moves: Seq<PlannedMove>) -> Seq<(Seq<char>, Seq<char>)> {
    moves.map_values(|m: PlannedMove| m@)
}

/// The moves for the first `n` entries of a listing: each file goes to the
/// category that claims its extension; directories are passed over.
pub open spec fn moves_upto(
    t: Seq<(Seq<char>, Seq<Seq<char>>)>,
    es: Seq<(Seq<char>, bool)>,
    n: int,
) -> Seq<(Seq<char>, Seq<char>)>
    decreases n,
{
    if n <= 0 {
        Seq::empty()
    } else {
        let prev = moves_upto(t, es, n - 1);
        let e = es[n - 1];
        if e.1 {
            prev
        } else {
            prev.push((e.0, category_of(t, extension_of(e.0))))
        }
    }
}

/// The index of the first marker at or after `i`, or the listing's length.
pub open spec fn stop_from(es: Seq<(Seq<char>, bool)>, i: int) -> int
    decreases es.len() - i,
{
    if i < 0 || i >= es.len() {
        es.len() as int
    } else if is_marker(es[i]) {
        i
    } else {
        stop_from(es, i + 1)
    }
}

/// Where a pass over `es` stops: at the first marker, or at the end.
pub open spec fn stop_index(es: Seq<(Seq<char>, bool)>) -> int {
    stop_from(es, 0)
}

/// Whether a pass over `es` is held back by a download in progress.
pub open spec fn is_deferred(es: Seq<(Seq<char>, bool)>) -> bool {
    stop_index(es) < es.len()
}

/// The moves that a pass over `es` makes: those of the entries before it stops.
pub open spec fn planned_moves(
    t: Seq<(Seq<char>, Seq<Seq<char>>)>,
    es: Seq<(Seq<char>, bool)>,
) -> Seq<(Seq<char>, Seq<char>)> {
    moves_upto(t, es, stop_index(es))
}

/// No marker among the first `n` entries.
pub open spec fn marker_free(es: Seq<(Seq<char>, bool)>, n: int) -> bool {
    forall|k: int| 0 <= k < n ==> !is_marker(#[trigger] es[k])
}

/// Decides one sorting pass over a listing, taken in its order: each file is
/// planned into the category that claims its extension ("Other" where none
/// does), directories are left alone, and the first download still in
/// progress ends the pass as deferred, with nothing planned for the entries
/// from it on.
pub fn plan_pass(table: &ClassificationTable, entries: &Vec<FileEntry>) -> (r: SortPlan)
    ensures
        moves_view(r.moves@) == planned_moves(table@, listing_view(entries@)),
        (r.outcome == SortOutcome::Deferred) == is_deferred(listing_view(entries@)),
{
    let ghost es = listing_view(entries@);
    let mut moves: Vec<PlannedMove> = Vec::new();
    let mut i: usize = 0;
    while i < entries.len()
        invariant
            i <= entries@.len(),
            es == listing_view(entries@),
            stop_from(es, i as int) == stop_index(es),
            moves_view(moves@) == moves_upto(table@, es, i as int),
        decreases entries@.len() - i,
    {
        let entry = &entries[i];
        if !entry.is_dir {
            let ext = extension(entry.name.as_str());
            if is_in_flight(&ext) {
                assert(is_marker(es[i as int]));
                return SortPlan { moves, outcome: SortOutcome::Deferred };
            }
            let category = table.category_for(&ext);
            moves.push(PlannedMove { file_name: entry.name.clone(), category });
            assert(moves_view(moves@) =~= moves_upto(table@, es, i + 1));
        } else {
            assert(moves_view(moves@) =~= moves_upto(table@, es, i + 1));
        }
        i = i + 1;
    }
    SortPlan { moves, outcome: SortOutcome::Completed }
}

proof fn lemma_stop_at_least(es: Seq<(Seq<char>, bool)>, i: int)
    requires
        0 <= i <= es.len(),
    ensures
        i <= stop_from(es, i) <= es.len(),
    decreases es.len() - i,
{
    if i < es.len() && !is_marker(es[i]) {
        lemma_stop_at_least(es, i + 1);
    }
}

proof fn lemma_stop_skips_prefix(es: Seq<(Seq<char>, bool)>, i: int)
    requires
        0 <= i <= es.len(),
        marker_free(es, i),
    ensures
        stop_from(es, 0) == stop_from(es, i),
    decreases i,
{
    if i > 0 {
        lemma_stop_skips_prefix(es, i - 1);
        assert(!is_marker(es[i - 1]));
    }
}

proof fn lemma_moves_keep(t: Seq<(Seq<char>, Seq<Seq<char>>)>, es: Seq<(Seq<char>, bool)>, k: int, n: int)
    requires
        0 <= k < n <= es.len(),
        !es[k].1,
    ensures
        moves_upto(t, es, n).contains((es[k].0, category_of(t, extension_of(es[k].0)))),
    decreases n,
{
    let m = (es[k].0, category_of(t, extension_of(es[k].0)));
    if n == k + 1 {
        assert(moves_upto(t, es, n).last() == m);
    } else {
        lemma_moves_keep(t, es, k, n - 1);
        let prev = moves_upto(t, es, n - 1);
        let j = choose|j: int| 0 <= j < prev.len() && prev[j] == m;
        assert(moves_upto(t, es, n)[j] == m);
    }
}

proof fn lemma_moves_of_prefix(
    t: Seq<(Seq<char>, Seq<Seq<char>>)>,
    es: Seq<(Seq<char>, bool)>,
    fs: Seq<(Seq<char>, bool)>,
    n: int,
)
    requires
        0 <= n <= es.len(),
        n <= fs.len(),
        es.take(n) == fs.take(n),
    ensures
        moves_upto(t, es, n) == moves_upto(t, fs, n),
    decreases n,
{
    if n > 0 {
        assert(es.take(n - 1) =~= fs.take(n - 1)) by {
            assert(es.take(n - 1) =~= es.take(n).take(n - 1));
            assert(fs.take(n - 1) =~= fs.take(n).take(n - 1));
        }
        assert(es[n - 1] == es.take(n)[n - 1]);
        assert(fs[n - 1] == fs.take(n)[n - 1]);
        lemma_moves_of_prefix(t, es, fs, n - 1);
    }
}

proof fn lemma_dirs_only(t: Seq<(Seq<char>, Seq<Seq<char>>)>, es: Seq<(Seq<char>, bool)>, n: int)
    requires
        0 <= n <= es.len(),
        forall|k: int| 0 <= k < es.len() ==> (#[trigger] es[k]).1,
    ensures
        moves_upto(t, es, n) == Seq::<(Seq<char>, Seq<char>)>::empty(),
        marker_free(es, n),
    decreases n,
{
    if n > 0 {
        lemma_dirs_only(t, es, n - 1);
    }
}

proof fn lemma_sole_claim(t: Seq<(Seq<char>, Seq<Seq<char>>)>, ext: Seq<char>, c: int, i: int)
    requires
        0 <= i <= c < t.len(),
        t[c].1.contains(ext),
        forall|j: int| 0 <= j < t.len() && j != c ==> !(#[trigger] t[j]).1.contains(ext),
    ensures
        category_from(t, ext, i) == t[c].0,
    decreases c - i,
{
    if i < c {
        lemma_sole_claim(t, ext, c, i + 1);
    }
}

proof fn lemma_no_claim(t: Seq<(Seq<char>, Seq<Seq<char>>)>, ext: Seq<char>, i: int)
    requires
        0 <= i <= t.len(),
        forall|j: int| 0 <= j < t.len() ==> !(#[trigger] t[j]).1.contains(ext),
    ensures
        category_from(t, ext, i) == "Other"@,
    decreases t.len() - i,
{
    if i < t.len() {
        lemma_no_claim(t, ext, i + 1);
    }
}

/// A file listed before any download in progress, whose extension exactly
/// one category claims, is moved into that category's folder.
pub proof fn lemma_sole_category_destination(
    t: Seq<(Seq<char>, Seq<Seq<char>>)>,
    es: Seq<(Seq<char>, bool)>,
    k: int,
    c: int,
)
    requires
        0 <= k < es.len(),
        !es[k].1,
        marker_free(es, k + 1),
        0 <= c < t.len(),
        t[c].1.contains(extension_of(es[k].0)),
        forall|j: int| 0 <= j < t.len() && j != c ==> !(#[trigger] t[j]).1.contains(extension_of(es[k].0)),
    ensures
        planned_moves(t, es).contains((es[k].0, t[c].0)),
{
    lemma_sole_claim(t, extension_of(es[k].0), c, 0);
    lemma_stop_skips_prefix(es, k + 1);
    lemma_stop_at_least(es, k + 1);
    lemma_moves_keep(t, es, k, stop_index(es));
}

/// A file listed before any download in progress, whose extension no
/// category claims, is moved into the folder "Other".
pub proof fn lemma_unclaimed_goes_to_other(
    t: Seq<(Seq<char>, Seq<Seq<char>>)>,
    es: Seq<(Seq<char>, bool)>,
    k: int,
)
    requires
        0 <= k < es.len(),
        !es[k].1,
        marker_free(es, k + 1),
        forall|j: int| 0 <= j < t.len() ==> !(#[trigger] t[j]).1.contains(extension_of(es[k].0)),
    ensures
        planned_moves(t, es).contains((es[k].0, "Other"@)),
{
    lemma_no_claim(t, extension_of(es[k].0), 0);
    lemma_stop_skips_prefix(es, k + 1);
    lemma_stop_at_least(es, k + 1);
    lemma_moves_keep(t, es, k, stop_index(es));
}

/// A listing that holds a download in progress defers the pass, and what the
/// pass moves is decided by the entries before the first such download alone:
/// whatever follows it, nothing listed after it is moved.
pub proof fn lemma_marker_defers(
    t: Seq<(Seq<char>, Seq<Seq<char>>)>,
    es: Seq<(Seq<char>, bool)>,
    k: int,
)
    requires
        0 <= k < es.len(),
        is_marker(es[k]),
        marker_free(es, k),
    ensures
        is_deferred(es),
        planned_moves(t, es) == moves_upto(t, es.take(k), k),
{
    lemma_stop_skips_prefix(es, k);
    assert(es.take(k) =~= es.take(k).take(k));
    lemma_moves_of_prefix(t, es, es.take(k), k);
}

/// Once a pass has completed and every move succeeded, the listing holds
/// only directories: what was there before and the category folders. A pass
/// over it completes and moves nothing.
pub proof fn lemma_rerun_moves_nothing(
    t: Seq<(Seq<char>, Seq<Seq<char>>)>,
    es: Seq<(Seq<char>, bool)>,
    folders: Seq<Seq<char>>,
)
    requires
        !is_deferred(es),
    ensures
        ({
            let after = es.filter(|e: (Seq<char>, bool)| e.1) + folders.map_values(
                |f: Seq<char>| (f, true),
            );
            planned_moves(t, after) == Seq::<(Seq<char>, Seq<char>)>::empty() && !is_deferred(after)
        }),
{
    let after = es.filter(|e: (Seq<char>, bool)| e.1) + folders.map_values(|f: Seq<char>| (f, true));
    let kept = es.filter(|e: (Seq<char>, bool)| e.1);
    assert forall|k: int| 0 <= k < after.len() implies (#[trigger] after[k]).1 by {
        if k < kept.len() {
            es.lemma_filter_pred(|e: (Seq<char>, bool)| e.1, k);
        }
    }
    lemma_dirs_only(t, after, after.len() as int);
    lemma_stop_skips_prefix(after, after.len() as int);
}

/// A pass over an empty listing completes and moves nothing.
pub proof fn lemma_empty_listing(t: Seq<(Seq<char>, Seq<Seq<char>>)>)
    ensures
        planned_moves(t, Seq::empty()) == Seq::<(Seq<char>, Seq<char>)>::empty(),
        !is_deferred(Seq::empty()),
{
}

} // verus!
