//! The order of a tracker's work: a dose that is over ends before the next
//! message is handled, and a running session stops before the next one starts.

use crate::doses;
use crate::doses::{interval_ending, DoseRuntime, DoseView};
use crate::effects;
use crate::effects::{live_windows, StoredWindow};
use crate::intervals;
use crate::lifecycle::{activate, finish_stop, SessionClosing, SessionOpening};
use crate::lists;
use crate::records::TrackingSession;
use crate::regime::RuntimeView;
use crate::session::{ActiveSession, SessionState};
use crate::text;
use vstd::prelude::*;

verus! {

/// A message that may be handled: every dose that is over by now has ended.
#[derive(Debug, PartialEq, Eq)]
pub struct Ready<M> {
    pub message: M,
    /// Whether any dose ended.
    pub swept: bool,
    /// The context intervals that end with them, each with the instant it
    /// ends at, in the order they end.
    pub endings: Vec<(i64, i64)>,
}

/// The interval an ended dose closes in the running session, and when: its
/// own, where it is open, at the dose's own end.
pub open spec fn ending_of(dose: DoseView, state: SessionState) -> Option<(i64, i64)> {
    match (dose.interval_id, state) {
        (Some(id), SessionState::Active(active)) => if intervals::interval_ids(
            active.intervals@.open,
        ).contains(id) {
            Some((id, dose.ends_at()))
        } else {
            None
        },
        _ => None,
    }
}

/// The intervals some ended doses close, in order.
pub open spec fn endings_of(ended: Seq<DoseView>, state: SessionState) -> Seq<(i64, i64)>
    decreases ended.len(),
{
    if ended.len() == 0 {
        Seq::empty()
    } else {
        let earlier = endings_of(ended.drop_last(), state);
        match ending_of(ended.last(), state) {
            Some(ending) => earlier.push(ending),
            None => earlier,
        }
    }
}

/// The doses that are over by an instant, in the order they ended.
pub open spec fn over_in_order(running: Seq<DoseView>, now: i64) -> Seq<DoseView> {
    lists::ordered(running.filter(doses::over_by(now)), doses::end_of())
}

/// Make a message ready to be handled: end every dose that is over by now, so
/// that nothing in it is priced or stamped under one.
pub fn before_message<M>(
    doses: &mut DoseRuntime,
    state: &SessionState,
    now: i64,
    message: M,
) -> (ready: Ready<M>)
    ensures
        ready.message == message,
        final(doses)@ == old(doses)@.filter(doses::lasting(now)),
        forall|i: int| 0 <= i < final(doses)@.len() ==> (#[trigger] final(doses)@[i]).ends_at() > now,
        ready.swept == exists|i: int|
            0 <= i < old(doses)@.len() && (#[trigger] old(doses)@[i]).ends_at() <= now,
        ready.endings@ == endings_of(over_in_order(old(doses)@, now), *state),
{
    let ghost before = doses@;
    let swept = doses.any_over(now);
    let ended = doses.sweep(now);
    let ghost over = text::views(ended@);
    let mut endings: Vec<(i64, i64)> = Vec::new();
    if let SessionState::Active(active) = state {
        let mut i: usize = 0;
        assert(over.take(0) =~= Seq::empty());
        while i < ended.len()
            invariant
                i <= ended.len(),
                over == text::views(ended@),
                *state == SessionState::Active(*active),
                endings@ == endings_of(over.take(i as int), *state),
            decreases ended.len() - i,
        {
            proof {
                let next = over.take(i as int + 1);
                assert(next.drop_last() =~= over.take(i as int));
                assert(next.last() == ended@[i as int]@);
            }
            if let Some(ending) = interval_ending(&ended[i], &active.intervals) {
                endings.push(ending);
            }
            i += 1;
        }
        assert(over.take(over.len() as int) =~= over);
    } else {
        proof {
            nothing_ends_when_idle(over, *state);
        }
        assert(endings@ =~= Seq::empty());
    }
    proof {
        lists::filter_kept(before, doses::lasting(now));
        assert forall|i: int| 0 <= i < doses@.len() implies (#[trigger] doses@[i]).ends_at()
            > now by {
            assert((doses::lasting(now))(doses@[i]));
        }
    }
    Ready { message, swept, endings }
}

proof fn nothing_ends_when_idle(ended: Seq<DoseView>, state: SessionState)
    requires
        state is Idle,
    ensures
        endings_of(ended, state) == Seq::<(i64, i64)>::empty(),
    decreases ended.len(),
{
    if ended.len() > 0 {
        nothing_ends_when_idle(ended.drop_last(), state);
    }
}

proof fn its_ending_is_among(ended: Seq<DoseView>, state: SessionState, at: int)
    requires
        0 <= at < ended.len(),
        ending_of(ended[at], state) is Some,
    ensures
        endings_of(ended, state).contains(ending_of(ended[at], state)->0),
    decreases ended.len(),
{
    let ending = ending_of(ended[at], state)->0;
    let all = endings_of(ended, state);
    let rest = ended.drop_last();
    if at == ended.len() - 1 {
        assert(all[all.len() - 1] == ending);
    } else {
        assert(rest[at] == ended[at]);
        its_ending_is_among(rest, state, at);
        let earlier = endings_of(rest, state);
        let k = choose|k: int| 0 <= k < earlier.len() && earlier[k] == ending;
        assert(all[k] == ending);
    }
}

/// No message meets a dose that is over: before it is handled the dose has
/// left the running ones, its open interval ends at the dose's own end, and
/// the reload speed in effect does not count it.
pub proof fn no_message_meets_an_ended_dose(
    running: Seq<DoseView>,
    state: SessionState,
    now: i64,
    dose: DoseView,
)
    requires
        running.contains(dose),
        dose.ends_at() <= now,
    ensures
        ({
            let after = running.filter(doses::lasting(now));
            &&& !after.contains(dose)
            &&& forall|i: int| 0 <= i < after.len() ==> (#[trigger] after[i]).ends_at() > now
            &&& ending_of(dose, state) is Some ==> endings_of(
                over_in_order(running, now),
                state,
            ).contains((dose.interval_id->0, dose.ends_at()))
            &&& !(doses::speeding(now))(dose)
            &&& !after.filter(doses::speeding(now)).contains(dose)
        }),
{
    let keep = doses::lasting(now);
    let over = doses::over_by(now);
    let after = running.filter(keep);
    lists::filter_kept(running, keep);
    lists::filter_kept(running, over);
    lists::filter_kept(after, doses::speeding(now));
    assert forall|i: int| 0 <= i < after.len() implies (#[trigger] after[i]).ends_at() > now by {
        assert(keep(after[i]));
    }
    let k = choose|k: int| 0 <= k < running.len() && running[k] == dose;
    assert(over(running[k]));
    let ended = running.filter(over);
    let ordered = over_in_order(running, now);
    lists::ordering_only_interleaves(ended, doses::end_of(), doses::end_of(), 0);
    assert(ended.contains(dose));
    ended.to_multiset_ensures();
    ordered.to_multiset_ensures();
    assert(ordered.to_multiset().count(dose) > 0);
    assert(ordered.contains(dose));
    let at = choose|at: int| 0 <= at < ordered.len() && ordered[at] == dose;
    if ending_of(dose, state) is Some {
        its_ending_is_among(ordered, state, at);
    }
}

/// Why a session's readout is to be drawn again.
#[derive(Clone, Copy, Debug, PartialEq, Eq, Structural)]
pub enum SessionReason {
    Started,
    Stopped,
}

impl SessionReason {
    /// What listeners read.
    pub open spec fn word(self) -> Seq<char> {
        match self {
            SessionReason::Started => "started"@,
            SessionReason::Stopped => "stopped"@,
        }
    }

    /// What listeners read.
    pub fn as_str(self) -> (word: &'static str)
        ensures
            word@ == self.word(),
    {
        match self {
            SessionReason::Started => "started",
            SessionReason::Stopped => "stopped",
        }
    }
}

/// What listeners are told about a session's life.
#[derive(Debug, PartialEq, Eq)]
pub enum SessionNotice {
    Started(String),
    Stopped(String),
    Updated(String, SessionReason),
}

/// A notice as contracts read it.
pub enum NoticeView {
    Started(Seq<char>),
    Stopped(Seq<char>),
    Updated(Seq<char>, SessionReason),
}

impl View for SessionNotice {
    type V = NoticeView;

    open spec fn view(&self) -> NoticeView {
        match *self {
            SessionNotice::Started(id) => NoticeView::Started(id@),
            SessionNotice::Stopped(id) => NoticeView::Stopped(id@),
            SessionNotice::Updated(id, reason) => NoticeView::Updated(id@, reason),
        }
    }
}

/// What a start does next.
#[derive(Clone, Copy, Debug, PartialEq, Eq, Structural)]
pub enum StartStep {
    /// A session runs: stop it first.
    StopFirst,
    /// None runs: store the new one and begin it.
    Begin,
}

impl StartStep {
    /// What a start does next in a state.
    pub open spec fn of(state: SessionState) -> StartStep {
        if state is Active {
            StartStep::StopFirst
        } else {
            StartStep::Begin
        }
    }
}

/// What a start does next: a session that runs is stopped first.
pub fn next_start_step(state: &SessionState) -> (step: StartStep)
    ensures
        step == StartStep::of(*state),
{
    if state.is_active() {
        StartStep::StopFirst
    } else {
        StartStep::Begin
    }
}

/// What stopping a session comes to: once everything is stored the session is
/// gone and its end is told; a stop that could not be stored leaves it live
/// and tells nothing.
pub open spec fn ended(
    before: SessionState,
    closing: SessionClosing,
    stored: bool,
    after: SessionState,
    told: Seq<NoticeView>,
) -> bool {
    if stored {
        after is Idle && told == seq![
            NoticeView::Stopped(closing.session@.id),
            NoticeView::Updated(closing.session@.id, SessionReason::Stopped),
        ]
    } else {
        after == before && told == Seq::<NoticeView>::empty()
    }
}

/// Stop a session and say what listeners are to be told.
pub fn end_session<E>(
    state: &mut SessionState,
    closing: SessionClosing,
    written: Result<(), E>,
) -> (outcome: Result<(TrackingSession, Vec<SessionNotice>), E>)
    ensures
        match (written, outcome) {
            (Ok(_), Ok((session, told))) => session == closing.session && ended(
                *old(state),
                closing,
                true,
                *final(state),
                text::views(told@),
            ),
            (Err(error), Err(given)) => error == given && ended(
                *old(state),
                closing,
                false,
                *final(state),
                Seq::empty(),
            ),
            _ => false,
        },
{
    let id = closing.session.id.clone();
    match finish_stop(state, closing, written) {
        Ok(session) => {
            let mut told: Vec<SessionNotice> = Vec::new();
            told.push(SessionNotice::Stopped(id.clone()));
            told.push(SessionNotice::Updated(id, SessionReason::Stopped));
            assert(text::views(told@) =~= seq![
                NoticeView::Stopped(closing.session@.id),
                NoticeView::Updated(closing.session@.id, SessionReason::Stopped),
            ]);
            Ok((session, told))
        },
        Err(error) => Err(error),
    }
}

/// What beginning a session comes to: once its row is stored it runs, fresh
/// but for what it was opened with and the stored effect windows that still
/// tick, and its start is told; a row that could not be stored leaves the
/// state as it was and tells nothing.
pub open spec fn begun(
    before: SessionState,
    opening: SessionOpening,
    windows: Seq<StoredWindow>,
    now: i64,
    stored: bool,
    after: SessionState,
    told: Seq<NoticeView>,
) -> bool {
    if stored {
        &&& match after {
            SessionState::Active(active) => active.wf() && active.starts(
                opening.session,
                opening.facets,
                opening.outfit.looters,
                text::views(opening.outfit.carried@),
                effects::in_opening_order(
                    text::views(windows).filter(effects::still_live(now as int)),
                ),
                opening.outfit.declared_mob,
            ),
            SessionState::Idle => false,
        }
        &&& told == seq![
            NoticeView::Started(opening.session@.id),
            NoticeView::Updated(opening.session@.id, SessionReason::Started),
        ]
    } else {
        after == before && told == Seq::<NoticeView>::empty()
    }
}

/// Take the stored effect windows that still tick at an instant into a
/// session: an effect paid for before it goes on.
pub fn restore_windows(active: &mut ActiveSession, windows: &Vec<StoredWindow>, now: i64)
    ensures
        final(active).attribution@ == (RuntimeView {
            windows: effects::in_opening_order(
                text::views(windows@).filter(effects::still_live(now as int)),
            ),
            ..old(active).attribution@
        }),
        *final(active) == (ActiveSession {
            attribution: final(active).attribution,
            ..*old(active)
        }),
        old(active).wf() ==> final(active).wf(),
{
    active.attribution.set_effect_windows(live_windows(windows, now));
}

/// Begin a session whose row was to be stored, where none runs, and say what
/// listeners are to be told.
pub fn begin_session<E>(
    state: &mut SessionState,
    opening: SessionOpening,
    windows: &Vec<StoredWindow>,
    now: i64,
    inserted: Result<(), E>,
) -> (outcome: Result<(TrackingSession, Vec<SessionNotice>), E>)
    requires
        StartStep::of(*old(state)) == StartStep::Begin,
    ensures
        match (inserted, outcome) {
            (Ok(_), Ok((session, told))) => session@ == opening.session@ && begun(
                *old(state),
                opening,
                windows@,
                now,
                true,
                *final(state),
                text::views(told@),
            ),
            (Err(error), Err(given)) => error == given && begun(
                *old(state),
                opening,
                windows@,
                now,
                false,
                *final(state),
                Seq::empty(),
            ),
            _ => false,
        },
{
    match inserted {
        Ok(_) => {
            let session = opening.session.clone();
            let mut told: Vec<SessionNotice> = Vec::new();
            told.push(SessionNotice::Started(session.id.clone()));
            told.push(SessionNotice::Updated(session.id.clone(), SessionReason::Started));
            assert(text::views(told@) =~= seq![
                NoticeView::Started(opening.session@.id),
                NoticeView::Updated(opening.session@.id, SessionReason::Started),
            ]);
            activate(state, opening.session, opening.facets, opening.outfit);
            if let SessionState::Active(active) = state {
                restore_windows(active, windows, now);
            }
            Ok((session, told))
        },
        Err(error) => Err(error),
    }
}

/// A running session stops before the next one starts: the start asks for the
/// stop first, both ends of the stop are told before both ends of the start,
/// and the new session has nothing of the old. Where the new one's row could
/// not be stored no session runs, and no start is told.
pub proof fn a_running_session_stops_before_the_next_starts(
    before: SessionState,
    closing: SessionClosing,
    between: SessionState,
    stop_told: Seq<NoticeView>,
    opening: SessionOpening,
    windows: Seq<StoredWindow>,
    now: i64,
    stored: bool,
    after: SessionState,
    start_told: Seq<NoticeView>,
)
    requires
        before is Active,
        ended(before, closing, true, between, stop_told),
        begun(between, opening, windows, now, stored, after, start_told),
    ensures
        StartStep::of(before) == StartStep::StopFirst,
        StartStep::of(between) == StartStep::Begin,
        stored ==> {
            &&& after is Active
            &&& stop_told + start_told == seq![
                NoticeView::Stopped(closing.session@.id),
                NoticeView::Updated(closing.session@.id, SessionReason::Stopped),
                NoticeView::Started(opening.session@.id),
                NoticeView::Updated(opening.session@.id, SessionReason::Started),
            ]
        },
        !stored ==> {
            &&& after is Idle
            &&& stop_told + start_told == seq![
                NoticeView::Stopped(closing.session@.id),
                NoticeView::Updated(closing.session@.id, SessionReason::Stopped),
            ]
        },
{
    assert(!stored ==> stop_told + start_told =~= stop_told);
}

} // verus!
