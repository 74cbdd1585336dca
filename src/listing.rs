//! What a whole listing produces, stated over the events of a scan.
use vstd::prelude::*;

use crate::path::{child_of, is_child_of, is_entry_name, lemma_child_of_injective};
use crate::scan::{lemma_run_append, lemma_run_single, run, EventView, ItemView, Phase};

verus! {

/// The event that reports one entry of a directory or the failure to read one.
pub open spec fn is_entry_outcome(e: EventView) -> bool {
    e is Entry || e is EntryFailed
}

/// The element that the scan of `dir` yields for an entry outcome.
pub open spec fn item_for(dir: Seq<u8>, e: EventView) -> ItemView
    recommends
        is_entry_outcome(e),
{
    match e {
        EventView::Entry(n) => ItemView::Path(child_of(dir, n)),
        EventView::EntryFailed(c) => ItemView::EntryFailed(dir, c),
        _ => arbitrary(),
    }
}

/// The events of reading a directory that opens and then reports `outcomes`.
pub open spec fn read_events(outcomes: Seq<EventView>) -> Seq<EventView> {
    seq![EventView::Opened] + outcomes + seq![EventView::End]
}

/// The outcomes of reading the entries called `names`, in that order.
pub open spec fn entry_events(names: Seq<Seq<u8>>) -> Seq<EventView> {
    names.map_values(|n: Seq<u8>| EventView::Entry(n))
}

/// The paths among the elements `items`.
pub open spec fn paths_of(items: Seq<ItemView>) -> Set<Seq<u8>> {
    Set::new(|p: Seq<u8>| exists|i: int| 0 <= i < items.len() && items[i] == ItemView::Path(p))
}

/// An ended scan yields nothing more, whatever it is told.
pub proof fn lemma_exhausted_stays(dir: Seq<u8>, evs: Seq<EventView>)
    ensures
        run(dir, Phase::Exhausted, evs) == (Phase::Exhausted, Seq::<ItemView>::empty()),
    decreases evs.len(),
{
    if evs.len() > 0 {
        lemma_exhausted_stays(dir, evs.drop_first());
        assert(Seq::<ItemView>::empty() + Seq::<ItemView>::empty() =~= Seq::<ItemView>::empty());
    }
}

/// While producing, each entry outcome yields exactly its own element.
pub proof fn lemma_outcomes(dir: Seq<u8>, evs: Seq<EventView>)
    requires
        forall|i: int| 0 <= i < evs.len() ==> is_entry_outcome(#[trigger] evs[i]),
    ensures
        run(dir, Phase::Producing, evs) == (
            Phase::Producing,
            evs.map_values(|e: EventView| item_for(dir, e)),
        ),
    decreases evs.len(),
{
    if evs.len() > 0 {
        let rest = evs.drop_first();
        assert forall|i: int| 0 <= i < rest.len() implies is_entry_outcome(#[trigger] rest[i]) by {
            assert(rest[i] == evs[i + 1]);
        }
        lemma_outcomes(dir, rest);
        assert(is_entry_outcome(evs[0]));
        assert(seq![item_for(dir, evs[0])] + rest.map_values(|e: EventView| item_for(dir, e))
            =~= evs.map_values(|e: EventView| item_for(dir, e)));
    }
}

/// A directory that opens and reports entry outcomes yields one element per
/// outcome, in order, and then ends.
pub proof fn lemma_read(dir: Seq<u8>, outcomes: Seq<EventView>)
    requires
        forall|i: int| 0 <= i < outcomes.len() ==> is_entry_outcome(#[trigger] outcomes[i]),
    ensures
        run(dir, Phase::NotStarted, read_events(outcomes)) == (
            Phase::Exhausted,
            outcomes.map_values(|e: EventView| item_for(dir, e)),
        ),
{
    let first = seq![EventView::Opened];
    let last = seq![EventView::End];
    lemma_run_single(dir, Phase::NotStarted, EventView::Opened);
    lemma_outcomes(dir, outcomes);
    lemma_run_single(dir, Phase::Producing, EventView::End);
    lemma_run_append(dir, Phase::NotStarted, first, outcomes);
    lemma_run_append(dir, Phase::NotStarted, first + outcomes, last);
    let items = outcomes.map_values(|e: EventView| item_for(dir, e));
    assert(Seq::<ItemView>::empty() + items =~= items);
    assert(items + Seq::<ItemView>::empty() =~= items);
}

/// A directory of distinct entries that stay put while it is read yields
/// exactly one path per entry, in the order read: each a direct child of
/// the directory, none failed, none twice, none left out.
pub proof fn law_stable_directory_listing(dir: Seq<u8>, names: Seq<Seq<u8>>)
    requires
        forall|i: int| 0 <= i < names.len() ==> is_entry_name(#[trigger] names[i]),
        names.no_duplicates(),
    ensures
        run(dir, Phase::NotStarted, read_events(entry_events(names))).0 == Phase::Exhausted,
        run(dir, Phase::NotStarted, read_events(entry_events(names))).1.len() == names.len(),
        forall|i: int|
            0 <= i < names.len() ==> #[trigger] run(
                dir,
                Phase::NotStarted,
                read_events(entry_events(names)),
            ).1[i] == ItemView::Path(child_of(dir, names[i])),
        forall|i: int|
            0 <= i < names.len() ==> is_child_of(dir, #[trigger] child_of(dir, names[i])),
        forall|i: int, j: int|
            0 <= i < names.len() && 0 <= j < names.len() && i != j ==> run(
                dir,
                Phase::NotStarted,
                read_events(entry_events(names)),
            ).1[i] != run(dir, Phase::NotStarted, read_events(entry_events(names))).1[j],
{
    let evs = entry_events(names);
    assert forall|i: int| 0 <= i < evs.len() implies is_entry_outcome(#[trigger] evs[i]) by {}
    lemma_read(dir, evs);
    let out = run(dir, Phase::NotStarted, read_events(evs)).1;
    assert forall|i: int| 0 <= i < names.len() implies #[trigger] out[i] == ItemView::Path(
        child_of(dir, names[i]),
    ) by {
        assert(evs[i] == EventView::Entry(names[i]));
    }
    assert forall|i: int|
        0 <= i < names.len() implies is_child_of(dir, #[trigger] child_of(dir, names[i])) by {
        assert(is_entry_name(names[i]));
    }
    assert forall|i: int, j: int|
        0 <= i < names.len() && 0 <= j < names.len() && i != j implies out[i] != out[j] by {
        assert(out[i] == ItemView::Path(child_of(dir, names[i])));
        assert(out[j] == ItemView::Path(child_of(dir, names[j])));
        lemma_child_of_injective(dir, names[i], names[j]);
    }
}

/// A directory with no entries yields no element and the listing ends
/// without failure.
pub proof fn law_empty_directory(dir: Seq<u8>)
    ensures
        run(dir, Phase::NotStarted, read_events(entry_events(Seq::empty()))) == (
            Phase::Exhausted,
            Seq::<ItemView>::empty(),
        ),
{
    let evs = entry_events(Seq::<Seq<u8>>::empty());
    assert(evs =~= Seq::<EventView>::empty());
    lemma_read(dir, evs);
    assert(evs.map_values(|e: EventView| item_for(dir, e)) =~= Seq::<ItemView>::empty());
}

/// An entry that cannot be read yields one failed element, with the
/// directory as its context, and the entries after it are still listed.
pub proof fn law_unreadable_entry_does_not_end_listing(
    dir: Seq<u8>,
    before: Seq<EventView>,
    cause: Seq<char>,
    after: Seq<EventView>,
)
    requires
        forall|i: int| 0 <= i < before.len() ==> is_entry_outcome(#[trigger] before[i]),
        forall|i: int| 0 <= i < after.len() ==> is_entry_outcome(#[trigger] after[i]),
    ensures
        run(
            dir,
            Phase::NotStarted,
            read_events(before + seq![EventView::EntryFailed(cause)] + after),
        ) == (
            Phase::Exhausted,
            before.map_values(|e: EventView| item_for(dir, e)) + seq![
                ItemView::EntryFailed(dir, cause),
            ] + after.map_values(|e: EventView| item_for(dir, e)),
        ),
{
    let mid = seq![EventView::EntryFailed(cause)];
    let all = before + mid + after;
    assert forall|i: int| 0 <= i < all.len() implies is_entry_outcome(#[trigger] all[i]) by {
        if i < before.len() {
            assert(all[i] == before[i]);
        } else if i > before.len() {
            assert(all[i] == after[i - before.len() - 1]);
        }
    }
    lemma_read(dir, all);
    assert(all.map_values(|e: EventView| item_for(dir, e)) =~= before.map_values(
        |e: EventView| item_for(dir, e),
    ) + seq![ItemView::EntryFailed(dir, cause)] + after.map_values(
        |e: EventView| item_for(dir, e),
    ));
}

/// A directory that cannot be opened yields exactly one element, the
/// failure with its kind, and the listing ends there whatever follows.
pub proof fn law_open_failure_reported(dir: Seq<u8>, kind: crate::scan::OpenErrorKind, rest: Seq<EventView>)
    ensures
        run(dir, Phase::NotStarted, seq![EventView::OpenFailed(kind)] + rest) == (
            Phase::Exhausted,
            seq![ItemView::OpenFailed(kind)],
        ),
{
    let first = seq![EventView::OpenFailed(kind)];
    lemma_run_single(dir, Phase::NotStarted, EventView::OpenFailed(kind));
    lemma_exhausted_stays(dir, rest);
    lemma_run_append(dir, Phase::NotStarted, first, rest);
    assert(seq![ItemView::OpenFailed(kind)] + Seq::<ItemView>::empty() =~= seq![
        ItemView::OpenFailed(kind),
    ]);
}

/// Two listings of the same entries, in whatever order they are read, yield
/// the same set of paths.
pub proof fn law_same_entries_same_paths(dir: Seq<u8>, names1: Seq<Seq<u8>>, names2: Seq<Seq<u8>>)
    requires
        names1.to_set() == names2.to_set(),
    ensures
        paths_of(run(dir, Phase::NotStarted, read_events(entry_events(names1))).1) == paths_of(
            run(dir, Phase::NotStarted, read_events(entry_events(names2))).1,
        ),
{
    lemma_paths_of_listing(dir, names1);
    lemma_paths_of_listing(dir, names2);
    let s1 = paths_of(run(dir, Phase::NotStarted, read_events(entry_events(names1))).1);
    let s2 = paths_of(run(dir, Phase::NotStarted, read_events(entry_events(names2))).1);
    assert forall|p: Seq<u8>| s1.contains(p) implies s2.contains(p) by {
        let n = choose|n: Seq<u8>| names1.contains(n) && p == child_of(dir, n);
        assert(names1.to_set().contains(n));
        assert(names2.to_set().contains(n));
    }
    assert forall|p: Seq<u8>| s2.contains(p) implies s1.contains(p) by {
        let n = choose|n: Seq<u8>| names2.contains(n) && p == child_of(dir, n);
        assert(names2.to_set().contains(n));
        assert(names1.to_set().contains(n));
    }
    assert(s1 =~= s2);
}

/// The paths of a listing are those of the names read.
pub proof fn lemma_paths_of_listing(dir: Seq<u8>, names: Seq<Seq<u8>>)
    ensures
        forall|p: Seq<u8>|
            #[trigger] paths_of(run(dir, Phase::NotStarted, read_events(entry_events(names))).1).contains(p)
                <==> exists|n: Seq<u8>| names.contains(n) && p == child_of(dir, n),
{
    let evs = entry_events(names);
    assert forall|i: int| 0 <= i < evs.len() implies is_entry_outcome(#[trigger] evs[i]) by {}
    lemma_read(dir, evs);
    let out = run(dir, Phase::NotStarted, read_events(evs)).1;
    assert forall|p: Seq<u8>|
        #[trigger] paths_of(out).contains(p) <==> exists|n: Seq<u8>| names.contains(n) && p == child_of(dir, n) by {
        if paths_of(out).contains(p) {
            let i = choose|i: int| 0 <= i < out.len() && out[i] == ItemView::Path(p);
            assert(evs[i] == EventView::Entry(names[i]));
            assert(names.contains(names[i]));
        }
        if exists|n: Seq<u8>| names.contains(n) && p == child_of(dir, n) {
            let n = choose|n: Seq<u8>| names.contains(n) && p == child_of(dir, n);
            let i = choose|i: int| 0 <= i < names.len() && names[i] == n;
            assert(evs[i] == EventView::Entry(names[i]));
            assert(out[i] == ItemView::Path(p));
        }
    }
}

} // verus!
