//! What a search finds on a given disk.
//!
//! A disk is taken as the listing that each directory gives. The result of a
//! search is defined over it round by round, without any bookkeeping, and a
//! [`SearchState`] that is always handed the disk's own listings is shown to
//! end with exactly that result.

use crate::gitseek::{
    classify, has_marker, kept, lemma_children_are_kept, lemma_each_listing_is_progress, DirKind,
    EntryView, SearchState,
};
use vstd::prelude::*;

verus! {

/// The repository roots among `frontier`, in order.
pub open spec fn roots_of(frontier: Seq<DirKind>) -> Seq<Seq<char>>
    decreases frontier.len(),
{
    if frontier.len() == 0 {
        Seq::empty()
    } else {
        let before = roots_of(frontier.drop_last());
        match frontier.last() {
            DirKind::GitDir(d) => before.push(d),
            DirKind::NormalDir(_) => before,
        }
    }
}

/// What the plain directories among `frontier` are classified into, in
/// order. Repository roots contribute nothing: they are not entered.
pub open spec fn expand(
    disk: spec_fn(Seq<char>) -> Seq<EntryView>,
    ignore: Seq<Seq<char>>,
    frontier: Seq<DirKind>,
) -> Seq<DirKind>
    decreases frontier.len(),
{
    if frontier.len() == 0 {
        Seq::empty()
    } else {
        let before = expand(disk, ignore, frontier.drop_last());
        match frontier.last() {
            DirKind::NormalDir(d) => before + classify(d, disk(d), ignore),
            DirKind::GitDir(_) => before,
        }
    }
}

/// The directories of round `r`. Round 0 holds the start directory alone,
/// not yet classified; round `r + 1` is the classification of the plain
/// directories of round `r`. Level `k` of the search is round `k + 1`.
pub open spec fn round(
    disk: spec_fn(Seq<char>) -> Seq<EntryView>,
    ignore: Seq<Seq<char>>,
    start: Seq<char>,
    r: nat,
) -> Seq<DirKind>
    decreases r,
{
    if r == 0 {
        seq![DirKind::NormalDir(start)]
    } else {
        expand(disk, ignore, round(disk, ignore, start, (r - 1) as nat))
    }
}

/// The repository roots of the first `rounds` rounds, round after round.
pub open spec fn found_in(
    disk: spec_fn(Seq<char>) -> Seq<EntryView>,
    ignore: Seq<Seq<char>>,
    start: Seq<char>,
    rounds: nat,
) -> Seq<Seq<char>>
    decreases rounds,
{
    if rounds == 0 {
        Seq::empty()
    } else {
        found_in(disk, ignore, start, (rounds - 1) as nat) + roots_of(
            round(disk, ignore, start, (rounds - 1) as nat),
        )
    }
}

/// The number of rounds of a search of depth `max_depth`: the round of the
/// start directory and `max_depth + 1` levels.
pub open spec fn rounds_of(max_depth: int) -> nat {
    if max_depth < 0 {
        1
    } else {
        (max_depth + 2) as nat
    }
}

/// What a search of depth `max_depth` from `start` finds on `disk`: the
/// repository roots of levels 0 to `max_depth`, in the order of discovery.
pub open spec fn search_result(
    disk: spec_fn(Seq<char>) -> Seq<EntryView>,
    start: Seq<char>,
    max_depth: int,
    ignore: Seq<Seq<char>>,
) -> Seq<Seq<char>> {
    found_in(disk, ignore, start, rounds_of(max_depth))
}

/// The state after `steps` listings, each the disk's listing of the
/// directory that the search wanted; a finished search stays as it is.
pub open spec fn run(
    disk: spec_fn(Seq<char>) -> Seq<EntryView>,
    s: SearchState,
    steps: nat,
) -> SearchState
    decreases steps,
{
    if steps == 0 {
        s
    } else {
        match s.wanted() {
            Some(d) => run(disk, s.supply(disk(d)), (steps - 1) as nat),
            None => s,
        }
    }
}

/// The state is one that a search of `total` rounds from `start` can be in
/// on `disk`: it stands in round `total - rounds_left`, its frontier is that
/// round, and what it has gathered and recorded is what the part of the
/// frontier dealt with gives.
pub open spec fn agrees(
    disk: spec_fn(Seq<char>) -> Seq<EntryView>,
    start: Seq<char>,
    total: nat,
    s: SearchState,
) -> bool {
    let r = (total - s.rounds_left) as nat;
    let done = s.frontier.subrange(0, s.pos as int);
    &&& s.rounds_left <= total
    &&& if s.rounds_left == 0 {
        s.found == found_in(disk, s.ignore, start, total)
    } else {
        &&& s.pos <= s.frontier.len()
        &&& s.frontier == round(disk, s.ignore, start, r)
        &&& s.next == expand(disk, s.ignore, done)
        &&& s.found == found_in(disk, s.ignore, start, r) + roots_of(done)
    }
}

/// Running on without a listing keeps a state in agreement with the disk.
pub proof fn lemma_settle_agrees(
    disk: spec_fn(Seq<char>) -> Seq<EntryView>,
    start: Seq<char>,
    total: nat,
    s: SearchState,
)
    requires
        agrees(disk, start, total, s),
    ensures
        agrees(disk, start, total, s.settle()),
        s.settle().settled(),
        s.settle().ignore == s.ignore,
    decreases s.rounds_left, s.frontier.len() - s.pos,
{
    if s.rounds_left == 0 {
    } else if s.pos < s.frontier.len() {
        let done = s.frontier.subrange(0, s.pos as int);
        let more = s.frontier.subrange(0, s.pos as int + 1);
        assert(more.drop_last() =~= done);
        assert(more.last() == s.frontier[s.pos as int]);
        match s.frontier[s.pos as int] {
            DirKind::GitDir(d) => {
                let t = SearchState { pos: s.pos + 1, found: s.found.push(d), ..s };
                let r = (total - s.rounds_left) as nat;
                assert(t.found =~= found_in(disk, s.ignore, start, r) + roots_of(more));
                lemma_settle_agrees(disk, start, total, t);
            },
            DirKind::NormalDir(_) => {},
        }
    } else {
        let r = (total - s.rounds_left) as nat;
        let t = SearchState {
            rounds_left: (s.rounds_left - 1) as nat,
            frontier: s.next,
            pos: 0,
            next: Seq::empty(),
            ..s
        };
        assert(s.frontier.subrange(0, s.pos as int) =~= s.frontier);
        assert(t.frontier.subrange(0, 0) =~= Seq::<DirKind>::empty());
        assert(t.frontier == round(disk, s.ignore, start, r + 1));
        assert(s.found == found_in(disk, s.ignore, start, r + 1));
        assert(t.found =~= found_in(disk, s.ignore, start, r + 1) + roots_of(
            Seq::<DirKind>::empty(),
        ));
        lemma_settle_agrees(disk, start, total, t);
    }
}

/// A search starts in agreement with every disk.
pub proof fn lemma_initial_agrees(
    disk: spec_fn(Seq<char>) -> Seq<EntryView>,
    start: Seq<char>,
    max_depth: int,
    ignore: Seq<Seq<char>>,
)
    ensures
        agrees(disk, start, rounds_of(max_depth), SearchState::initial(start, max_depth, ignore)),
{
    let s = SearchState::initial(start, max_depth, ignore);
    assert(s.frontier.subrange(0, 0) =~= Seq::<DirKind>::empty());
    assert(s.found =~= found_in(disk, ignore, start, 0) + roots_of(Seq::<DirKind>::empty()));
}

/// Handing a search the disk's listing of the directory that it wanted
/// keeps it in agreement with the disk.
pub proof fn lemma_supply_agrees(
    disk: spec_fn(Seq<char>) -> Seq<EntryView>,
    start: Seq<char>,
    total: nat,
    s: SearchState,
)
    requires
        agrees(disk, start, total, s),
        s.wanted() is Some,
    ensures
        agrees(disk, start, total, s.supply(disk(s.wanted()->0))),
        s.supply(disk(s.wanted()->0)).ignore == s.ignore,
{
    let d = s.wanted()->0;
    let fed = SearchState {
        pos: s.pos + 1,
        next: s.next + classify(d, disk(d), s.ignore),
        ..s
    };
    let done = s.frontier.subrange(0, s.pos as int);
    let more = s.frontier.subrange(0, s.pos as int + 1);
    assert(more.drop_last() =~= done);
    assert(more.last() == DirKind::NormalDir(d));
    lemma_settle_agrees(disk, start, total, fed);
}

/// A run on a disk keeps a search in agreement with it.
pub proof fn lemma_run_agrees(
    disk: spec_fn(Seq<char>) -> Seq<EntryView>,
    start: Seq<char>,
    total: nat,
    s: SearchState,
    steps: nat,
)
    requires
        agrees(disk, start, total, s),
    ensures
        agrees(disk, start, total, run(disk, s, steps)),
        run(disk, s, steps).ignore == s.ignore,
    decreases steps,
{
    if steps > 0 && s.wanted() is Some {
        lemma_supply_agrees(disk, start, total, s);
        lemma_run_agrees(disk, start, total, s.supply(disk(s.wanted()->0)), (steps - 1) as nat);
    }
}

/// A search that was handed the disk's own listings and has finished has
/// recorded exactly the repository roots of the start round and of the
/// `max_depth + 1` levels after it, in the order of discovery. The result
/// depends on the disk and the parameters alone: two searches of one disk
/// end with the same roots.
pub proof fn lemma_finished_run_is_search_result(
    disk: spec_fn(Seq<char>) -> Seq<EntryView>,
    start: Seq<char>,
    max_depth: int,
    ignore: Seq<Seq<char>>,
    steps: nat,
)
    requires
        run(disk, SearchState::initial(start, max_depth, ignore), steps).finished(),
    ensures
        run(disk, SearchState::initial(start, max_depth, ignore), steps).found == search_result(
            disk,
            start,
            max_depth,
            ignore,
        ),
{
    lemma_initial_agrees(disk, start, max_depth, ignore);
    lemma_run_agrees(
        disk,
        start,
        rounds_of(max_depth),
        SearchState::initial(start, max_depth, ignore),
        steps,
    );
}

/// A run on a disk ends: some number of listings brings the search to its
/// end, however the tree is shaped. The proof gives that number.
pub proof fn lemma_run_ends(disk: spec_fn(Seq<char>) -> Seq<EntryView>, s: SearchState) -> (steps:
    nat)
    requires
        s.settled(),
        s.pos <= s.frontier.len(),
    ensures
        run(disk, s, steps).finished(),
    decreases s.rounds_left, s.frontier.len() - s.pos,
{
    if s.finished() {
        0
    } else {
        let d = s.wanted()->0;
        lemma_each_listing_is_progress(s, disk(d));
        let rest = lemma_run_ends(disk, s.supply(disk(d)));
        rest + 1
    }
}

/// On every disk a search comes to its end, and ends with the repository
/// roots of the start round and of the `max_depth + 1` levels after it.
pub proof fn lemma_search_ends_with_its_result(
    disk: spec_fn(Seq<char>) -> Seq<EntryView>,
    start: Seq<char>,
    max_depth: int,
    ignore: Seq<Seq<char>>,
) -> (steps: nat)
    ensures
        run(disk, SearchState::initial(start, max_depth, ignore), steps).finished(),
        run(disk, SearchState::initial(start, max_depth, ignore), steps).found == search_result(
            disk,
            start,
            max_depth,
            ignore,
        ),
{
    let steps = lemma_run_ends(disk, SearchState::initial(start, max_depth, ignore));
    lemma_finished_run_is_search_result(disk, start, max_depth, ignore, steps);
    steps
}

/// A search of depth 0 finds the start directory, if that is a repository
/// root, and nothing else: the directories below it are classified, but
/// what they are classified into belongs to a level that is never run.
pub proof fn lemma_depth_zero_inspects_the_start_alone(
    disk: spec_fn(Seq<char>) -> Seq<EntryView>,
    start: Seq<char>,
    ignore: Seq<Seq<char>>,
)
    ensures
        search_result(disk, start, 0, ignore) == roots_of(classify(start, disk(start), ignore)),
{
    let r0 = round(disk, ignore, start, 0);
    let none = Seq::<DirKind>::empty();
    assert(r0.drop_last() =~= none);
    assert(r0.last() == DirKind::NormalDir(start));
    assert(expand(disk, ignore, none) =~= none);
    assert(roots_of(none) =~= Seq::<Seq<char>>::empty());
    assert(expand(disk, ignore, r0) =~= classify(start, disk(start), ignore));
    assert(round(disk, ignore, start, 1) == expand(disk, ignore, r0));
    assert(roots_of(r0) =~= Seq::<Seq<char>>::empty());
    assert(found_in(disk, ignore, start, 0) =~= Seq::<Seq<char>>::empty());
    assert(found_in(disk, ignore, start, 1) =~= found_in(disk, ignore, start, 0) + roots_of(r0));
    assert(found_in(disk, ignore, start, 2) =~= roots_of(round(disk, ignore, start, 1)));
}

/// One more level of depth adds the repository roots of exactly one more
/// round, behind those found before: a search of depth `max_depth` runs
/// `max_depth + 1` levels.
pub proof fn lemma_each_depth_adds_one_level(
    disk: spec_fn(Seq<char>) -> Seq<EntryView>,
    start: Seq<char>,
    max_depth: int,
    ignore: Seq<Seq<char>>,
)
    requires
        max_depth >= 0,
    ensures
        rounds_of(max_depth) == max_depth + 2,
        search_result(disk, start, max_depth, ignore) == search_result(
            disk,
            start,
            max_depth - 1,
            ignore,
        ) + roots_of(round(disk, ignore, start, (max_depth + 1) as nat)),
{
}

/// A plain directory that is the path of an entry on the disk which
/// survived the filter: a directory whose base name is not ignored.
pub open spec fn is_kept_entry(
    disk: spec_fn(Seq<char>) -> Seq<EntryView>,
    ignore: Seq<Seq<char>>,
    item: DirKind,
) -> bool {
    exists|d: Seq<char>, j: int|
        0 <= j < disk(d).len() && kept(#[trigger] disk(d)[j], ignore) && item
            == DirKind::NormalDir(disk(d)[j].path)
}

/// Whatever a frontier is expanded into, each plain directory in it is an
/// entry that survived the filter.
pub proof fn lemma_expand_hands_on_kept_entries(
    disk: spec_fn(Seq<char>) -> Seq<EntryView>,
    ignore: Seq<Seq<char>>,
    frontier: Seq<DirKind>,
)
    ensures
        forall|k: int|
            0 <= k < expand(disk, ignore, frontier).len() && (#[trigger] expand(
                disk,
                ignore,
                frontier,
            )[k]) is NormalDir ==> is_kept_entry(disk, ignore, expand(disk, ignore, frontier)[k]),
    decreases frontier.len(),
{
    if frontier.len() > 0 {
        let shorter = frontier.drop_last();
        lemma_expand_hands_on_kept_entries(disk, ignore, shorter);
        let before = expand(disk, ignore, shorter);
        match frontier.last() {
            DirKind::NormalDir(d) => {
                let added = classify(d, disk(d), ignore);
                lemma_children_are_kept(disk(d), ignore);
                assert forall|k: int|
                    0 <= k < (before + added).len() && (#[trigger] (before
                        + added)[k]) is NormalDir implies is_kept_entry(
                    disk,
                    ignore,
                    (before + added)[k],
                ) by {
                    if k >= before.len() {
                        let i = k - before.len();
                        assert((before + added)[k] == added[i]);
                        assert(!has_marker(disk(d), ignore));
                        let j = choose|j: int|
                            0 <= j < disk(d).len() && kept(#[trigger] disk(d)[j], ignore)
                                && added[i] == DirKind::NormalDir(disk(d)[j].path);
                        assert(kept(disk(d)[j], ignore));
                    } else {
                        assert((before + added)[k] == before[k]);
                    }
                }
            },
            DirKind::GitDir(_) => {},
        }
    }
}

/// At every level, each plain directory that the search holds is an entry
/// that survived the filter: a directory whose base name is ignored is
/// never listed, so nothing below it is found through it.
pub proof fn lemma_every_level_holds_kept_entries(
    disk: spec_fn(Seq<char>) -> Seq<EntryView>,
    ignore: Seq<Seq<char>>,
    start: Seq<char>,
    r: nat,
)
    requires
        r >= 1,
    ensures
        forall|k: int|
            0 <= k < round(disk, ignore, start, r).len() && (#[trigger] round(
                disk,
                ignore,
                start,
                r,
            )[k]) is NormalDir ==> is_kept_entry(disk, ignore, round(disk, ignore, start, r)[k]),
{
    lemma_expand_hands_on_kept_entries(disk, ignore, round(disk, ignore, start, (r - 1) as nat));
}

/// A start directory without entries gives no result at any depth.
pub proof fn lemma_empty_start_has_no_result(
    disk: spec_fn(Seq<char>) -> Seq<EntryView>,
    start: Seq<char>,
    max_depth: int,
    ignore: Seq<Seq<char>>,
)
    requires
        disk(start).len() == 0,
    ensures
        search_result(disk, start, max_depth, ignore).len() == 0,
{
    lemma_rounds_after_empty_start(disk, start, ignore, rounds_of(max_depth));
}

/// After an empty start directory every round is empty and nothing is found.
proof fn lemma_rounds_after_empty_start(
    disk: spec_fn(Seq<char>) -> Seq<EntryView>,
    start: Seq<char>,
    ignore: Seq<Seq<char>>,
    r: nat,
)
    requires
        disk(start).len() == 0,
    ensures
        r >= 1 ==> round(disk, ignore, start, r).len() == 0,
        found_in(disk, ignore, start, r).len() == 0,
    decreases r,
{
    let none = Seq::<DirKind>::empty();
    assert(expand(disk, ignore, none) =~= none);
    assert(roots_of(none).len() == 0);
    if r == 1 {
        let r0 = round(disk, ignore, start, 0);
        assert(r0.drop_last() =~= none);
        assert(r0.last() == DirKind::NormalDir(start));
        assert(!has_marker(disk(start), ignore));
        assert(classify(start, disk(start), ignore).len() == 0);
        assert(roots_of(r0).len() == 0);
        assert(found_in(disk, ignore, start, 0).len() == 0);
    } else if r > 1 {
        lemma_rounds_after_empty_start(disk, start, ignore, (r - 1) as nat);
        assert(round(disk, ignore, start, (r - 1) as nat) =~= none);
    }
}

/// Each of the roots of a frontier stands in it as a repository root.
pub proof fn lemma_roots_stand_in_frontier(frontier: Seq<DirKind>)
    ensures
        forall|k: int|
            0 <= k < roots_of(frontier).len() ==> frontier.contains(
                DirKind::GitDir(#[trigger] roots_of(frontier)[k]),
            ),
    decreases frontier.len(),
{
    if frontier.len() > 0 {
        let shorter = frontier.drop_last();
        lemma_roots_stand_in_frontier(shorter);
        assert forall|k: int| 0 <= k < roots_of(frontier).len() implies frontier.contains(
            DirKind::GitDir(#[trigger] roots_of(frontier)[k]),
        ) by {
            if k < roots_of(shorter).len() {
                let item = DirKind::GitDir(roots_of(shorter)[k]);
                assert(shorter.contains(item));
                let i = choose|i: int| 0 <= i < shorter.len() && shorter[i] == item;
                assert(frontier[i] == item);
            } else {
                assert(frontier[frontier.len() - 1] == frontier.last());
            }
        }
    }
}

/// A repository root that a frontier is expanded into was a plain directory
/// of that frontier: a root is found only by listing it.
pub proof fn lemma_expanded_roots_were_plain(
    disk: spec_fn(Seq<char>) -> Seq<EntryView>,
    ignore: Seq<Seq<char>>,
    frontier: Seq<DirKind>,
)
    ensures
        forall|k: int|
            0 <= k < expand(disk, ignore, frontier).len() ==> (#[trigger] expand(
                disk,
                ignore,
                frontier,
            )[k] matches DirKind::GitDir(d) ==> frontier.contains(DirKind::NormalDir(d))),
    decreases frontier.len(),
{
    if frontier.len() > 0 {
        let shorter = frontier.drop_last();
        lemma_expanded_roots_were_plain(disk, ignore, shorter);
        let before = expand(disk, ignore, shorter);
        let whole = expand(disk, ignore, frontier);
        assert forall|k: int| 0 <= k < whole.len() implies (#[trigger] whole[k] matches DirKind::GitDir(
            d,
        ) ==> frontier.contains(DirKind::NormalDir(d))) by {
            if let DirKind::GitDir(d) = whole[k] {
                if k < before.len() {
                    assert(whole[k] == before[k]);
                    assert(shorter.contains(DirKind::NormalDir(d)));
                    let i = choose|i: int|
                        0 <= i < shorter.len() && shorter[i] == DirKind::NormalDir(d);
                    assert(frontier[i] == DirKind::NormalDir(d));
                } else {
                    match frontier.last() {
                        DirKind::NormalDir(e) => {
                            let added = classify(e, disk(e), ignore);
                            lemma_children_are_kept(disk(e), ignore);
                            assert(whole[k] == added[k - before.len()]);
                            assert(has_marker(disk(e), ignore));
                            assert(d == e);
                            assert(frontier[frontier.len() - 1] == DirKind::NormalDir(d));
                        },
                        DirKind::GitDir(_) => {},
                    }
                }
            }
        }
    }
}

/// Every repository root that a search finds is the start directory or an
/// entry that survived the filter: a directory whose base name is ignored
/// is never among the results, at whatever level it lies.
pub proof fn lemma_results_are_kept_entries(
    disk: spec_fn(Seq<char>) -> Seq<EntryView>,
    start: Seq<char>,
    ignore: Seq<Seq<char>>,
    rounds: nat,
)
    ensures
        forall|k: int|
            0 <= k < found_in(disk, ignore, start, rounds).len() ==> {
                let p = #[trigger] found_in(disk, ignore, start, rounds)[k];
                p == start || is_kept_entry(disk, ignore, DirKind::NormalDir(p))
            },
    decreases rounds,
{
    if rounds > 0 {
        let r = (rounds - 1) as nat;
        lemma_results_are_kept_entries(disk, start, ignore, r);
        let before = found_in(disk, ignore, start, r);
        let level = round(disk, ignore, start, r);
        let added = roots_of(level);
        lemma_roots_stand_in_frontier(level);
        assert forall|k: int| 0 <= k < (before + added).len() implies {
            let p = #[trigger] (before + added)[k];
            p == start || is_kept_entry(disk, ignore, DirKind::NormalDir(p))
        } by {
            if k >= before.len() {
                let p = added[k - before.len()];
                assert((before + added)[k] == p);
                assert(level.contains(DirKind::GitDir(p)));
                let i = choose|i: int| 0 <= i < level.len() && level[i] == DirKind::GitDir(p);
                if r > 0 {
                    let above = round(disk, ignore, start, (r - 1) as nat);
                    lemma_expanded_roots_were_plain(disk, ignore, above);
                    assert(expand(disk, ignore, above)[i] == DirKind::GitDir(p));
                    assert(above.contains(DirKind::NormalDir(p)));
                    let j = choose|j: int|
                        0 <= j < above.len() && above[j] == DirKind::NormalDir(p);
                    if r > 1 {
                        lemma_every_level_holds_kept_entries(
                            disk,
                            ignore,
                            start,
                            (r - 1) as nat,
                        );
                        assert(round(disk, ignore, start, (r - 1) as nat)[j] is NormalDir);
                    } else {
                        assert(above[j] == DirKind::NormalDir(start));
                    }
                }
            } else {
                assert((before + added)[k] == before[k]);
            }
        }
    }
}

} // verus!
