//! The persisted record type, its mathematical view, and the spec-level
//! vocabulary shared by the store, the session engine and the leaderboard:
//! lookup by user id, well-formedness of a record sequence, and the error
//! taxonomy of store operations.

use vstd::prelude::*;

verus! {

/// One persisted record per distinct user who has ever played or synced.
/// `user_id` is the unique, immutable key; `username` and `avatar_url` are
/// best-effort caches of the upstream identity; `counter` is the score,
/// created at zero and mutated only by single-step atomic increments.
pub struct UserScore {
    pub user_id: String,
    pub username: String,
    pub avatar_url: String,
    pub counter: i64,
}

/// Mathematical image of a stored record: character sequences for the
/// string fields and an unbounded integer for the counter.
pub struct RecordView {
    pub user_id: Seq<char>,
    pub username: Seq<char>,
    pub avatar_url: Seq<char>,
    pub counter: int,
}

impl View for UserScore {
    type V = RecordView;

    open spec fn view(&self) -> RecordView {
        RecordView {
            user_id: self.user_id@,
            username: self.username@,
            avatar_url: self.avatar_url@,
            counter: self.counter as int,
        }
    }
}

impl UserScore {
    /// Field-exact copy of a record.
    pub fn duplicate(&self) -> (r: UserScore)
        ensures
            r@ == self@,
    {
        UserScore {
            user_id: self.user_id.clone(),
            username: self.username.clone(),
            avatar_url: self.avatar_url.clone(),
            counter: self.counter,
        }
    }
}

/// An authoritative identity snapshot resolved from the upstream provider,
/// handed in by the boundary layer when a session starts or a sync is
/// requested.
pub struct LiveIdentity {
    pub username: String,
    pub avatar_url: String,
}

/// Mathematical image of a live identity snapshot.
pub struct LiveIdentityView {
    pub username: Seq<char>,
    pub avatar_url: Seq<char>,
}

impl View for LiveIdentity {
    type V = LiveIdentityView;

    open spec fn view(&self) -> LiveIdentityView {
        LiveIdentityView { username: self.username@, avatar_url: self.avatar_url@ }
    }
}

/// Outcomes of store operations that do not succeed.
/// `NotFound`: a point lookup found no record. `AlreadyExists`: a create
/// raced with a concurrent create for the same key. `StoreUnavailable`:
/// an infrastructural failure of the real backend; the in-memory model
/// never produces it, but the session engine must react to it when the
/// boundary layer reports one.
#[derive(Clone, Copy, Debug, PartialEq, Eq, Structural)]
pub enum StoreError {
    NotFound,
    AlreadyExists,
    StoreUnavailable,
}

/// The two cached identity fields a targeted single-field update may touch.
#[derive(Clone, Copy, Debug, PartialEq, Eq, Structural)]
pub enum Field {
    Username,
    AvatarUrl,
}

/// The mathematical image of a sequence of records.
pub open spec fn views_of(s: Seq<UserScore>) -> Seq<RecordView> {
    s.map_values(|u: UserScore| u@)
}

/// Some record in `s` carries the key `id`.
pub open spec fn has_id(s: Seq<RecordView>, id: Seq<char>) -> bool {
    exists|i: int| 0 <= i < s.len() && s[i].user_id == id
}

/// The index of the record keyed by `id`; meaningful only when `has_id`
/// holds, and unique under `wf_seq`.
pub open spec fn index_of_id(s: Seq<RecordView>, id: Seq<char>) -> int {
    choose|i: int| 0 <= i < s.len() && s[i].user_id == id
}

/// The counter stored for `id`; meaningful only when `has_id` holds.
pub open spec fn counter_of(s: Seq<RecordView>, id: Seq<char>) -> int {
    s[index_of_id(s, id)].counter
}

/// Store invariant: at most one record per user id.
pub open spec fn wf_seq(s: Seq<RecordView>) -> bool {
    forall|i: int, j: int| 0 <= i < j < s.len() ==> s[i].user_id != s[j].user_id
}

/// Under the store invariant, `index_of_id` is the one position that
/// carries `id`.
pub proof fn lemma_index_of_id(s: Seq<RecordView>, id: Seq<char>)
    requires
        wf_seq(s),
        has_id(s, id),
    ensures
        0 <= index_of_id(s, id) < s.len(),
        s[index_of_id(s, id)].user_id == id,
        forall|j: int| 0 <= j < s.len() && s[j].user_id == id ==> j == index_of_id(s, id),
{
    let i = index_of_id(s, id);
    assert(0 <= i < s.len() && s[i].user_id == id);
    assert forall|j: int| 0 <= j < s.len() && s[j].user_id == id implies j == i by {
        if j < i {
            assert(s[j].user_id != s[i].user_id);
        } else if i < j {
            assert(s[i].user_id != s[j].user_id);
        }
    }
}

/// Two record sequences that agree on every key agree on `has_id` and
/// `index_of_id` for every id.
pub proof fn lemma_same_ids(s1: Seq<RecordView>, s2: Seq<RecordView>, id: Seq<char>)
    requires
        s1.len() == s2.len(),
        forall|j: int| 0 <= j < s1.len() ==> s1[j].user_id == s2[j].user_id,
        wf_seq(s1),
    ensures
        wf_seq(s2),
        has_id(s1, id) == has_id(s2, id),
        has_id(s1, id) ==> index_of_id(s1, id) == index_of_id(s2, id),
{
    assert(wf_seq(s2));
    if has_id(s1, id) {
        let i = index_of_id(s1, id);
        assert(0 <= i < s1.len() && s1[i].user_id == id);
        assert(s2[i].user_id == id);
        assert(has_id(s2, id));
        lemma_index_of_id(s1, id);
        lemma_index_of_id(s2, id);
    } else if has_id(s2, id) {
        let i = index_of_id(s2, id);
        assert(0 <= i < s2.len() && s2[i].user_id == id);
        assert(s1[i].user_id == id);
        assert(has_id(s1, id));
    }
}

} // verus!
