//! The scan of one directory: a forward-only state machine that turns what
//! the operating system reports while a directory is read into the sequence
//! of results handed to the consumer.
use vstd::prelude::*;

use crate::path::{child_of, child_path};

verus! {

/// Why a directory could not be opened for listing.
#[derive(Clone, Copy, Debug, PartialEq, Eq, Structural)]
pub enum OpenErrorKind {
    NotFound,
    NotADirectory,
    PermissionDenied,
    Other,
}

/// An entry that could not be read, with the directory being listed as its
/// context and the cause as the operating system described it.
#[derive(Debug)]
pub struct EntryError {
    pub dir: Vec<u8>,
    pub cause: String,
}

/// A failed element of a listing.
#[derive(Debug)]
pub enum ListError {
    /// The directory itself could not be opened; nothing else is listed.
    Open(OpenErrorKind),
    /// One entry could not be read; the listing goes on after it.
    Entry(EntryError),
}

/// Where a scan stands. It only moves forward and never starts over.
#[derive(Clone, Copy, Debug, PartialEq, Eq, Structural)]
pub enum Phase {
    NotStarted,
    Producing,
    Exhausted,
}

/// What the operating system reported at one point of reading a directory.
#[derive(Debug)]
pub enum Event {
    /// The directory was opened for reading.
    Opened,
    /// The directory could not be opened.
    OpenFailed(OpenErrorKind),
    /// The next entry, by its name.
    Entry(Vec<u8>),
    /// The next entry could not be read, for the cause given.
    EntryFailed(String),
    /// No entries are left.
    End,
}

/// What the consumer of a scan gets for one event.
#[derive(Debug)]
pub enum Action {
    /// Nothing is produced.
    Nothing,
    /// One element of the listing is produced.
    Yield(Result<Vec<u8>, ListError>),
    /// The listing is over.
    Finish,
}

/// The mathematical value of an [`Event`].
pub enum EventView {
    Opened,
    OpenFailed(OpenErrorKind),
    Entry(Seq<u8>),
    EntryFailed(Seq<char>),
    End,
}

/// The mathematical value of one element of a listing.
pub enum ItemView {
    /// A path that was found.
    Path(Seq<u8>),
    /// The directory could not be opened.
    OpenFailed(OpenErrorKind),
    /// An entry of the directory (first field) failed for a cause (second).
    EntryFailed(Seq<u8>, Seq<char>),
}

/// The mathematical value of an [`Action`].
pub enum ActionView {
    Nothing,
    Yield(ItemView),
    Finish,
}

impl View for Event {
    type V = EventView;

    open spec fn view(&self) -> EventView {
        match self {
            Event::Opened => EventView::Opened,
            Event::OpenFailed(k) => EventView::OpenFailed(*k),
            Event::Entry(n) => EventView::Entry(n@),
            Event::EntryFailed(c) => EventView::EntryFailed(c@),
            Event::End => EventView::End,
        }
    }
}

/// The mathematical value of one element of a listing.
pub open spec fn item_view(r: Result<Vec<u8>, ListError>) -> ItemView {
    match r {
        Ok(p) => ItemView::Path(p@),
        Err(ListError::Open(k)) => ItemView::OpenFailed(k),
        Err(ListError::Entry(e)) => ItemView::EntryFailed(e.dir@, e.cause@),
    }
}

impl View for Action {
    type V = ActionView;

    open spec fn view(&self) -> ActionView {
        match self {
            Action::Nothing => ActionView::Nothing,
            Action::Yield(r) => ActionView::Yield(item_view(*r)),
            Action::Finish => ActionView::Finish,
        }
    }
}

/// One move of the scan of `dir`: the phase after event `ev` in phase `ph`,
/// and what the consumer gets.
///
/// Opening moves to producing; a failed open is reported as one element and
/// ends the scan. While producing, each entry yields its path inside `dir`,
/// each unreadable entry yields a failure and the scan goes on, and the end
/// of the entries ends it. An ended scan stays ended. An event that cannot
/// come in a phase changes nothing.
pub open spec fn step_spec(dir: Seq<u8>, ph: Phase, ev: EventView) -> (Phase, ActionView) {
    match ph {
        Phase::NotStarted => match ev {
            EventView::Opened => (Phase::Producing, ActionView::Nothing),
            EventView::OpenFailed(k) => (
                Phase::Exhausted,
                ActionView::Yield(ItemView::OpenFailed(k)),
            ),
            _ => (Phase::NotStarted, ActionView::Nothing),
        },
        Phase::Producing => match ev {
            EventView::Entry(n) => (Phase::Producing, ActionView::Yield(ItemView::Path(child_of(dir, n)))),
            EventView::EntryFailed(c) => (
                Phase::Producing,
                ActionView::Yield(ItemView::EntryFailed(dir, c)),
            ),
            EventView::End => (Phase::Exhausted, ActionView::Finish),
            _ => (Phase::Producing, ActionView::Nothing),
        },
        Phase::Exhausted => (Phase::Exhausted, ActionView::Finish),
    }
}

/// The elements that an action hands to the consumer: one or none.
pub open spec fn yielded(a: ActionView) -> Seq<ItemView> {
    match a {
        ActionView::Yield(i) => seq![i],
        _ => Seq::empty(),
    }
}

/// The phase reached and the elements produced when the scan of `dir`, in
/// phase `ph`, takes the events `evs` in order.
pub open spec fn run(dir: Seq<u8>, ph: Phase, evs: Seq<EventView>) -> (Phase, Seq<ItemView>)
    decreases evs.len(),
{
    if evs.len() == 0 {
        (ph, Seq::empty())
    } else {
        let (p1, a) = step_spec(dir, ph, evs[0]);
        let (p2, rest) = run(dir, p1, evs.drop_first());
        (p2, yielded(a) + rest)
    }
}

/// The scan of one directory.
pub struct Scan {
    dir: Vec<u8>,
    phase: Phase,
}

impl Scan {
    /// The directory being listed.
    pub closed spec fn dir_spec(&self) -> Seq<u8> {
        self.dir@
    }

    /// Where the scan stands.
    pub closed spec fn phase_spec(&self) -> Phase {
        self.phase
    }

    /// A scan of `dir` that has not started.
    pub fn new(dir: Vec<u8>) -> (r: Scan)
        ensures
            r.dir_spec() == dir@,
            r.phase_spec() == Phase::NotStarted,
    {
        Scan { dir, phase: Phase::NotStarted }
    }

    /// Takes one event: moves the scan on and says what the consumer gets.
    pub fn step(&mut self, ev: &Event) -> (a: Action)
        ensures
            final(self).dir_spec() == old(self).dir_spec(),
            (final(self).phase_spec(), a@) == step_spec(old(self).dir_spec(), old(self).phase_spec(), ev@),
    {
        match self.phase {
            Phase::NotStarted => match ev {
                Event::Opened => {
                    self.phase = Phase::Producing;
                    Action::Nothing
                },
                Event::OpenFailed(k) => {
                    self.phase = Phase::Exhausted;
                    Action::Yield(Err(ListError::Open(*k)))
                },
                _ => Action::Nothing,
            },
            Phase::Producing => match ev {
                Event::Entry(n) => Action::Yield(Ok(child_path(&self.dir, n))),
                Event::EntryFailed(c) => {
                    let dir = self.dir.clone();
                    assert(dir@ =~= self.dir@);
                    Action::Yield(Err(ListError::Entry(EntryError { dir, cause: c.clone() })))
                },
                Event::End => {
                    self.phase = Phase::Exhausted;
                    Action::Finish
                },
                _ => Action::Nothing,
            },
            Phase::Exhausted => Action::Finish,
        }
    }

    /// Where the scan stands.
    pub fn phase(&self) -> (r: Phase)
        ensures
            r == self.phase_spec(),
    {
        self.phase
    }

    /// The directory being listed.
    pub fn dir(&self) -> (r: &Vec<u8>)
        ensures
            r@ == self.dir_spec(),
    {
        &self.dir
    }
}

/// The scan of `dir` from its start over the events `evs`.
pub open spec fn run_from_start(dir: Seq<u8>, evs: Seq<Event>) -> (Phase, Seq<ItemView>) {
    run(dir, Phase::NotStarted, evs.map_values(|e: Event| e@))
}

/// Running over `a` then `b` is running over `a` and going on from where
/// that left off.
pub proof fn lemma_run_append(dir: Seq<u8>, ph: Phase, a: Seq<EventView>, b: Seq<EventView>)
    ensures
        run(dir, ph, a + b) == (
            run(dir, run(dir, ph, a).0, b).0,
            run(dir, ph, a).1 + run(dir, run(dir, ph, a).0, b).1,
        ),
    decreases a.len(),
{
    if a.len() == 0 {
        assert(a + b =~= b);
        assert(run(dir, ph, a).1 + run(dir, ph, b).1 =~= run(dir, ph, b).1);
    } else {
        let (p1, act) = step_spec(dir, ph, a[0]);
        assert((a + b).drop_first() =~= a.drop_first() + b);
        lemma_run_append(dir, p1, a.drop_first(), b);
        let r = run(dir, p1, a.drop_first());
        let t = run(dir, r.0, b);
        assert(yielded(act) + (r.1 + t.1) =~= (yielded(act) + r.1) + t.1);
    }
}

/// Running over one event is taking one step.
pub proof fn lemma_run_single(dir: Seq<u8>, ph: Phase, e: EventView)
    ensures
        run(dir, ph, seq![e]) == (step_spec(dir, ph, e).0, yielded(step_spec(dir, ph, e).1)),
{
    let p1 = step_spec(dir, ph, e).0;
    assert(seq![e].drop_first() =~= Seq::<EventView>::empty());
    assert(run(dir, p1, Seq::<EventView>::empty()) == (p1, Seq::<ItemView>::empty()));
    assert(yielded(step_spec(dir, ph, e).1) + Seq::<ItemView>::empty() =~= yielded(
        step_spec(dir, ph, e).1,
    ));
}

/// Runs the scan of `dir` from its start over `events`, in order, and
/// collects what it produces: the phase reached and the elements yielded.
pub fn list_from_events(dir: Vec<u8>, events: &Vec<Event>) -> (r: (
    Phase,
    Vec<Result<Vec<u8>, ListError>>,
))
    ensures
        r.0 == run_from_start(dir@, events@).0,
        r.1@.map_values(|x: Result<Vec<u8>, ListError>| item_view(x)) == run_from_start(
            dir@,
            events@,
        ).1,
{
    let ghost d = dir@;
    let ghost evs = events@.map_values(|e: Event| e@);
    let mut scan = Scan::new(dir);
    let mut out: Vec<Result<Vec<u8>, ListError>> = Vec::new();
    let mut i: usize = 0;
    assert(evs.take(0) =~= Seq::<EventView>::empty());
    assert(out@.map_values(|x: Result<Vec<u8>, ListError>| item_view(x)) =~= Seq::<
        ItemView,
    >::empty());
    while i < events.len()
        invariant
            i <= events@.len(),
            evs == events@.map_values(|e: Event| e@),
            scan.dir_spec() == d,
            scan.phase_spec() == run(d, Phase::NotStarted, evs.take(i as int)).0,
            out@.map_values(|x: Result<Vec<u8>, ListError>| item_view(x)) == run(
                d,
                Phase::NotStarted,
                evs.take(i as int),
            ).1,
        decreases events@.len() - i,
    {
        let ghost before = scan;
        let ghost prev = out@;
        let a = scan.step(&events[i]);
        proof {
            let e = seq![evs[i as int]];
            assert(evs.take(i + 1) =~= evs.take(i as int) + e);
            lemma_run_append(d, Phase::NotStarted, evs.take(i as int), e);
            assert(evs[i as int] == events@[i as int]@);
            lemma_run_single(d, before.phase_spec(), evs[i as int]);
        }
        match a {
            Action::Yield(x) => {
                out.push(x);
                assert(out@.map_values(|x: Result<Vec<u8>, ListError>| item_view(x)) =~= prev.map_values(
                    |x: Result<Vec<u8>, ListError>| item_view(x),
                ) + seq![item_view(x)]);
            },
            _ => {
                assert(prev.map_values(|x: Result<Vec<u8>, ListError>| item_view(x)) + Seq::<
                    ItemView,
                >::empty() =~= prev.map_values(|x: Result<Vec<u8>, ListError>| item_view(x)));
            },
        }
        i = i + 1;
    }
    assert(evs.take(i as int) =~= evs);
    (scan.phase(), out)
}

} // verus!
