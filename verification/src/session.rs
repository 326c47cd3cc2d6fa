//! The session engine: one time-bounded play session per invoking user,
//! owned by the identity that started it. Entry looks the owner's record
//! up, creating it idempotently when absent and reconciling the cached
//! identity when present. Each later step takes the next observed event —
//! an interaction or the inactivity timeout — and decides: apply the
//! atomic increment and re-render, ignore a non-owner interaction, or
//! terminate. The boundary layer runs the blocking loop and performs the
//! render and delete requests the step hands back.

use vstd::prelude::*;

use crate::events::{ActionTag, EventView, SessionEvent};
use crate::record::{
    LiveIdentity, RecordView, StoreError, counter_of, has_id, index_of_id, lemma_index_of_id,
    lemma_same_ids, wf_seq,
};
use crate::reconcile::{reconcile, spec_reconcile};
use crate::store::{ScoreStore, lemma_spec_increment, new_record_view, spec_increment};

verus! {

/// Lifecycle of a play session. `Terminating` is transient: every
/// terminating step requests the message deletion and completes the
/// transition, so the state observed after a step is `Active` or
/// `Closed`. No path leads back to `Active`.
#[derive(Clone, Copy, Debug, PartialEq, Eq, Structural)]
pub enum SessionState {
    Active,
    Terminating,
    Closed,
}

/// One play session: the only identity permitted to drive it, the
/// last-known counter value kept purely for rendering between store
/// round-trips, and the lifecycle state.
pub struct PlaySession {
    pub owner_id: String,
    pub counter_snapshot: i64,
    pub state: SessionState,
}

/// Mathematical image of a play session.
pub struct SessionView {
    pub owner_id: Seq<char>,
    pub counter_snapshot: int,
    pub state: SessionState,
}

impl View for PlaySession {
    type V = SessionView;

    open spec fn view(&self) -> SessionView {
        SessionView {
            owner_id: self.owner_id@,
            counter_snapshot: self.counter_snapshot as int,
            state: self.state,
        }
    }
}

/// What the boundary layer must do after a step: delete the session's
/// message, acknowledge the interaction without further effect, re-render
/// with the authoritative counter (and acknowledge), or surface a store
/// failure.
#[derive(Clone, Copy, Debug, PartialEq, Eq, Structural)]
pub enum SessionEffect {
    DeleteMessage,
    Acknowledge,
    Render { counter: i64 },
    Fail { error: StoreError },
}

/// Mathematical image of a step effect.
pub enum EffectView {
    DeleteMessage,
    Acknowledge,
    Render { counter: int },
    Fail { error: StoreError },
}

impl View for SessionEffect {
    type V = EffectView;

    open spec fn view(&self) -> EffectView {
        match self {
            SessionEffect::DeleteMessage => EffectView::DeleteMessage,
            SessionEffect::Acknowledge => EffectView::Acknowledge,
            SessionEffect::Render { counter } => EffectView::Render { counter: *counter as int },
            SessionEffect::Fail { error } => EffectView::Fail { error: *error },
        }
    }
}

/// The complete outcome of one step: the session, the store, and the
/// effect handed to the boundary layer.
pub struct StepResult {
    pub session: SessionView,
    pub store: Seq<RecordView>,
    pub effect: EffectView,
}

/// The session state machine, one event at a time. The inactivity timeout
/// and any owner action other than an increment terminate the session and
/// request exactly one message deletion; a non-owner interaction is
/// acknowledged and ignored — a deliberate no-op, not an error; an owner
/// increment applies the store's atomic increment and re-renders with the
/// authoritative post-increment value, never a locally-computed one. A
/// store lookup failure surfaces the error and ends the session.
pub open spec fn spec_session_step(sess: SessionView, s: Seq<RecordView>, ev: EventView) -> StepResult {
    match ev {
        EventView::Timeout => StepResult {
            session: SessionView { state: SessionState::Closed, ..sess },
            store: s,
            effect: EffectView::DeleteMessage,
        },
        EventView::Interaction { actor_id, action } => {
            if actor_id != sess.owner_id {
                StepResult { session: sess, store: s, effect: EffectView::Acknowledge }
            } else if action == ActionTag::Increment {
                if has_id(s, sess.owner_id) {
                    let c = counter_of(s, sess.owner_id) + 1;
                    StepResult {
                        session: SessionView { counter_snapshot: c, ..sess },
                        store: spec_increment(s, sess.owner_id),
                        effect: EffectView::Render { counter: c },
                    }
                } else {
                    StepResult {
                        session: SessionView { state: SessionState::Closed, ..sess },
                        store: s,
                        effect: EffectView::Fail { error: StoreError::NotFound },
                    }
                }
            } else {
                StepResult {
                    session: SessionView { state: SessionState::Closed, ..sess },
                    store: s,
                    effect: EffectView::DeleteMessage,
                }
            }
        },
    }
}

/// Session entry: look the owner's record up; create it (idempotently,
/// with a zero counter) when absent, reconcile the cached identity fields
/// against the live snapshot when present. The returned session is
/// `Active` and its snapshot is the owner's authoritative counter, ready
/// for the initial render.
pub fn start_session(store: &mut ScoreStore, owner_id: &String, live: &LiveIdentity) -> (sess:
    PlaySession)
    requires
        old(store).wf(),
    ensures
        final(store).wf(),
        sess.state == SessionState::Active,
        sess@.owner_id == owner_id@,
        has_id(final(store)@, owner_id@),
        final(store)@ == if has_id(old(store)@, owner_id@) {
            spec_reconcile(old(store)@, owner_id@, live@)
        } else {
            old(store)@.push(new_record_view(owner_id@, live@.username, live@.avatar_url))
        },
        sess@.counter_snapshot == counter_of(final(store)@, owner_id@),
        counter_of(final(store)@, owner_id@) == if has_id(old(store)@, owner_id@) {
            counter_of(old(store)@, owner_id@)
        } else {
            0
        },
{
    match store.find_by_user_id(owner_id) {
        None => {
            store.create_if_absent(owner_id, &live.username, &live.avatar_url);
            PlaySession {
                owner_id: owner_id.clone(),
                counter_snapshot: 0,
                state: SessionState::Active,
            }
        },
        Some(u) => {
            let ghost s0 = store@;
            proof {
                lemma_index_of_id(s0, owner_id@);
            }
            let counter = u.counter;
            reconcile(store, owner_id, live);
            proof {
                let s2 = final(store)@;
                assert(forall|j: int| 0 <= j < s0.len() ==> s2[j].user_id == s0[j].user_id);
                lemma_same_ids(s0, s2, owner_id@);
                assert(counter_of(s2, owner_id@) == counter_of(s0, owner_id@));
            }
            PlaySession {
                owner_id: owner_id.clone(),
                counter_snapshot: counter,
                state: SessionState::Active,
            }
        },
    }
}

/// One turn of the event loop of an `Active` session; the outcome is
/// exactly `spec_session_step` on the observed event. A terminating event
/// leaves the session `Closed` and requests the message deletion exactly
/// once: no later step can run, since a step requires an `Active` session.
pub fn session_step(session: &mut PlaySession, store: &mut ScoreStore, event: SessionEvent) -> (eff:
    SessionEffect)
    requires
        old(session).state == SessionState::Active,
        old(store).wf(),
        event@ matches EventView::Interaction { actor_id, action } && actor_id == old(
            session,
        )@.owner_id && action == ActionTag::Increment && has_id(old(store)@, old(session)@.owner_id)
            ==> counter_of(old(store)@, old(session)@.owner_id) < i64::MAX,
    ensures
        final(store).wf(),
        final(session)@ == spec_session_step(old(session)@, old(store)@, event@).session,
        final(store)@ == spec_session_step(old(session)@, old(store)@, event@).store,
        eff@ == spec_session_step(old(session)@, old(store)@, event@).effect,
{
    match event {
        SessionEvent::Timeout => {
            session.state = SessionState::Closed;
            SessionEffect::DeleteMessage
        },
        SessionEvent::Interaction { actor_id, action } => {
            if actor_id != session.owner_id {
                SessionEffect::Acknowledge
            } else if action == ActionTag::Increment {
                match store.increment_counter(&session.owner_id) {
                    Ok(n) => {
                        session.counter_snapshot = n;
                        SessionEffect::Render { counter: n }
                    },
                    Err(error) => {
                        session.state = SessionState::Closed;
                        SessionEffect::Fail { error }
                    },
                }
            } else {
                session.state = SessionState::Closed;
                SessionEffect::DeleteMessage
            }
        },
    }
}

/// A store operation against the real backend failed for infrastructural
/// reasons mid-session: surface the error and end the session cleanly,
/// with no automatic retry.
pub fn close_on_store_failure(session: &mut PlaySession, error: StoreError) -> (eff: SessionEffect)
    requires
        old(session).state == SessionState::Active,
    ensures
        final(session)@ == (SessionView { state: SessionState::Closed, ..old(session)@ }),
        eff == (SessionEffect::Fail { error }),
        final(session).state == SessionState::Closed,
{
    session.state = SessionState::Closed;
    SessionEffect::Fail { error }
}

/// The event is an increment interaction originating from the session
/// owner.
pub open spec fn is_owner_increment(ev: EventView, owner: Seq<char>) -> bool {
    ev matches EventView::Interaction { actor_id, action } && actor_id == owner && action
        == ActionTag::Increment
}

/// The event is an interaction originating from some other identity.
pub open spec fn is_foreign(ev: EventView, owner: Seq<char>) -> bool {
    ev matches EventView::Interaction { actor_id, action } && actor_id != owner
}

/// The number of owner-originated increment events in a sequence.
pub open spec fn count_owner_increments(evs: Seq<EventView>, owner: Seq<char>) -> int
    decreases evs.len(),
{
    if evs.len() == 0 {
        0
    } else {
        (if is_owner_increment(evs[0], owner) {
            1int
        } else {
            0int
        }) + count_owner_increments(evs.drop_first(), owner)
    }
}

/// A whole run of the session state machine over a sequence of observed
/// events; the effect reported is that of the last step (`Acknowledge`
/// for the empty run).
pub open spec fn run_session(sess: SessionView, s: Seq<RecordView>, evs: Seq<EventView>) -> StepResult
    decreases evs.len(),
{
    if evs.len() == 0 {
        StepResult { session: sess, store: s, effect: EffectView::Acknowledge }
    } else {
        let r = spec_session_step(sess, s, evs[0]);
        run_session(r.session, r.store, evs.drop_first())
    }
}

/// Law: for every sequence of events made of owner-originated increments
/// and non-owner interactions, delivered to one active session with no
/// store failures, the final authoritative counter equals the initial
/// counter plus the number of owner increments — the interleaved
/// non-owner events have zero effect on the session, the store and every
/// other record, and the session stays `Active` with its snapshot equal
/// to the last authoritative value it rendered.
pub proof fn lemma_session_counter_accumulates(
    sess: SessionView,
    s: Seq<RecordView>,
    evs: Seq<EventView>,
)
    requires
        sess.state == SessionState::Active,
        wf_seq(s),
        has_id(s, sess.owner_id),
        forall|k: int|
            0 <= k < evs.len() ==> is_owner_increment(evs[k], sess.owner_id) || is_foreign(
                evs[k],
                sess.owner_id,
            ),
    ensures
        count_owner_increments(evs, sess.owner_id) >= 0,
        run_session(sess, s, evs).session.state == SessionState::Active,
        run_session(sess, s, evs).session.owner_id == sess.owner_id,
        wf_seq(run_session(sess, s, evs).store),
        has_id(run_session(sess, s, evs).store, sess.owner_id),
        run_session(sess, s, evs).store.len() == s.len(),
        index_of_id(run_session(sess, s, evs).store, sess.owner_id) == index_of_id(
            s,
            sess.owner_id,
        ),
        counter_of(run_session(sess, s, evs).store, sess.owner_id) == counter_of(s, sess.owner_id)
            + count_owner_increments(evs, sess.owner_id),
        forall|j: int|
            0 <= j < s.len() && j != index_of_id(s, sess.owner_id) ==> run_session(
                sess,
                s,
                evs,
            ).store[j] == s[j],
        run_session(sess, s, evs).session.counter_snapshot == if count_owner_increments(
            evs,
            sess.owner_id,
        ) == 0 {
            sess.counter_snapshot
        } else {
            counter_of(s, sess.owner_id) + count_owner_increments(evs, sess.owner_id)
        },
    decreases evs.len(),
{
    if evs.len() == 0 {
    } else {
        let ev = evs[0];
        let r = spec_session_step(sess, s, ev);
        if is_owner_increment(ev, sess.owner_id) {
            lemma_spec_increment(s, sess.owner_id);
            lemma_session_counter_accumulates(r.session, r.store, evs.drop_first());
            let n_rest = count_owner_increments(evs.drop_first(), sess.owner_id);
            assert(count_owner_increments(evs, sess.owner_id) == 1 + n_rest);
            assert(r.session.counter_snapshot == counter_of(s, sess.owner_id) + 1);
            assert(counter_of(r.store, sess.owner_id) == counter_of(s, sess.owner_id) + 1);
            assert(run_session(sess, s, evs) == run_session(r.session, r.store, evs.drop_first()));
        } else {
            assert(is_foreign(ev, sess.owner_id));
            assert(r.session == sess && r.store == s);
            lemma_session_counter_accumulates(sess, s, evs.drop_first());
        }
    }
}

} // verus!
