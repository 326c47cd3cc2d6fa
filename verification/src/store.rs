//! The score store: an in-memory model of the persisted record set, keyed
//! by user id, offering the atomic operations the engines rely on — point
//! lookup, idempotent creation, single-step atomic increment, targeted
//! field update, and an unconditional identity overwrite. Each operation's
//! contract pins the whole new record sequence, so the store-level laws
//! (no lost increments, idempotent creation) are proved from them.

use vstd::prelude::*;

use crate::record::{
    Field, RecordView, StoreError, UserScore, counter_of, has_id, index_of_id, lemma_index_of_id,
    lemma_same_ids, wf_seq,
};

verus! {

/// The record a create inserts for a previously-unseen user: the given
/// identity fields and a counter of zero.
pub open spec fn new_record_view(id: Seq<char>, username: Seq<char>, avatar_url: Seq<char>) -> RecordView {
    RecordView { user_id: id, username, avatar_url, counter: 0 }
}

/// What the create-if-absent path leaves in the store: unchanged when the
/// key is already present, one fresh record with counter zero otherwise.
pub open spec fn spec_create_if_absent(
    s: Seq<RecordView>,
    id: Seq<char>,
    username: Seq<char>,
    avatar_url: Seq<char>,
) -> Seq<RecordView> {
    if has_id(s, id) {
        s
    } else {
        s.push(new_record_view(id, username, avatar_url))
    }
}

/// What one atomic increment leaves in the store: the record keyed by `id`
/// with its counter one higher, every other record untouched; a no-op when
/// the key is absent.
pub open spec fn spec_increment(s: Seq<RecordView>, id: Seq<char>) -> Seq<RecordView> {
    if has_id(s, id) {
        let i = index_of_id(s, id);
        s.update(i, RecordView { counter: s[i].counter + 1, ..s[i] })
    } else {
        s
    }
}

/// What a targeted single-field update leaves in the record keyed by `id`.
pub open spec fn spec_update_field(
    s: Seq<RecordView>,
    id: Seq<char>,
    field: Field,
    value: Seq<char>,
) -> Seq<RecordView> {
    let i = index_of_id(s, id);
    match field {
        Field::Username => s.update(i, RecordView { username: value, ..s[i] }),
        Field::AvatarUrl => s.update(i, RecordView { avatar_url: value, ..s[i] }),
    }
}

/// What the unconditional identity overwrite leaves in the record keyed by
/// `id`: both cached identity fields replaced, the key re-written to
/// itself, the counter untouched.
pub open spec fn spec_overwrite_identity(
    s: Seq<RecordView>,
    id: Seq<char>,
    username: Seq<char>,
    avatar_url: Seq<char>,
) -> Seq<RecordView> {
    let i = index_of_id(s, id);
    s.update(i, RecordView { user_id: id, username, avatar_url, counter: s[i].counter })
}

/// One atomic increment keeps the invariant, keeps every key in place,
/// and raises exactly the addressed counter by one.
pub proof fn lemma_spec_increment(s: Seq<RecordView>, id: Seq<char>)
    requires
        wf_seq(s),
        has_id(s, id),
    ensures
        wf_seq(spec_increment(s, id)),
        spec_increment(s, id).len() == s.len(),
        has_id(spec_increment(s, id), id),
        index_of_id(spec_increment(s, id), id) == index_of_id(s, id),
        counter_of(spec_increment(s, id), id) == counter_of(s, id) + 1,
        forall|j: int| 0 <= j < s.len() ==> spec_increment(s, id)[j].user_id == s[j].user_id,
        forall|j: int|
            0 <= j < s.len() && j != index_of_id(s, id) ==> spec_increment(s, id)[j] == s[j],
{
    lemma_index_of_id(s, id);
    let s2 = spec_increment(s, id);
    assert(forall|j: int| 0 <= j < s.len() ==> s2[j].user_id == s[j].user_id);
    lemma_same_ids(s, s2, id);
}

/// The number of `true` tags in a sequence of booleans.
pub open spec fn count_tag(tags: Seq<bool>, v: bool) -> int
    decreases tags.len(),
{
    if tags.len() == 0 {
        0
    } else {
        (if tags[0] == v {
            1int
        } else {
            0int
        }) + count_tag(tags.drop_first(), v)
    }
}

/// The store after a run of atomic increments for one user, each tagged
/// with the session that issued it (`true` for one session, `false` for
/// the other); the store's behaviour does not depend on the tag.
pub open spec fn run_increments(s: Seq<RecordView>, id: Seq<char>, tags: Seq<bool>) -> Seq<
    RecordView,
>
    decreases tags.len(),
{
    if tags.len() == 0 {
        s
    } else {
        run_increments(spec_increment(s, id), id, tags.drop_first())
    }
}

/// Law: increments for one user are serialized by the store's atomic
/// increment and none is lost or double-counted. For every interleaving
/// of two concurrent sessions of the same user — a tag sequence saying
/// which session issued each successful increment — the total counter
/// delta equals the number of increments, which is the sum of the two
/// sessions' individually-observed counts; every other record is left
/// untouched.
pub proof fn lemma_no_lost_increments(s: Seq<RecordView>, id: Seq<char>, tags: Seq<bool>)
    requires
        wf_seq(s),
        has_id(s, id),
    ensures
        wf_seq(run_increments(s, id, tags)),
        has_id(run_increments(s, id, tags), id),
        run_increments(s, id, tags).len() == s.len(),
        index_of_id(run_increments(s, id, tags), id) == index_of_id(s, id),
        counter_of(run_increments(s, id, tags), id) == counter_of(s, id) + tags.len(),
        count_tag(tags, true) + count_tag(tags, false) == tags.len(),
        forall|j: int|
            0 <= j < s.len() && j != index_of_id(s, id) ==> run_increments(s, id, tags)[j] == s[j],
    decreases tags.len(),
{
    if tags.len() == 0 {
    } else {
        lemma_spec_increment(s, id);
        lemma_no_lost_increments(spec_increment(s, id), id, tags.drop_first());
    }
}

/// Law: the create-if-absent path is idempotent. For a previously-unseen
/// user id, applying it twice (as two racing sessions would) leaves the
/// same store as applying it once: exactly one record carries the id, its
/// counter is zero, and everything else is untouched.
pub proof fn lemma_create_if_absent_idempotent(
    s: Seq<RecordView>,
    id: Seq<char>,
    username: Seq<char>,
    avatar_url: Seq<char>,
)
    requires
        wf_seq(s),
        !has_id(s, id),
    ensures
        spec_create_if_absent(spec_create_if_absent(s, id, username, avatar_url), id, username, avatar_url)
            == spec_create_if_absent(s, id, username, avatar_url),
        wf_seq(spec_create_if_absent(s, id, username, avatar_url)),
        has_id(spec_create_if_absent(s, id, username, avatar_url), id),
        counter_of(spec_create_if_absent(s, id, username, avatar_url), id) == 0,
        spec_create_if_absent(s, id, username, avatar_url).len() == s.len() + 1,
        forall|j: int| 0 <= j < s.len() ==> spec_create_if_absent(s, id, username, avatar_url)[j] == s[j],
{
    let s1 = spec_create_if_absent(s, id, username, avatar_url);
    assert(s1 == s.push(new_record_view(id, username, avatar_url)));
    assert(s1[s.len() as int].user_id == id);
    assert(has_id(s1, id));
    assert forall|i: int, j: int| 0 <= i < j < s1.len() implies s1[i].user_id != s1[j].user_id by {
        if j < s.len() {
        } else {
            assert(s1[j].user_id == id);
            assert(s1[i] == s[i]);
        }
    }
    lemma_index_of_id(s1, id);
    assert(index_of_id(s1, id) == s.len());
}

/// The persisted record set, modelled in memory: one `UserScore` per user,
/// in stable (insertion) iteration order.
pub struct ScoreStore {
    records: Vec<UserScore>,
}

impl View for ScoreStore {
    type V = Seq<RecordView>;

    closed spec fn view(&self) -> Seq<RecordView> {
        self.records@.map_values(|u: UserScore| u@)
    }
}

impl ScoreStore {
    /// Store invariant: at most one record per user id.
    pub open spec fn wf(&self) -> bool {
        wf_seq(self@)
    }

    /// An empty store.
    pub fn new() -> (s: ScoreStore)
        ensures
            s@.len() == 0,
            s.wf(),
    {
        let s = ScoreStore { records: Vec::new() };
        proof {
            assert(s@ =~= Seq::<RecordView>::empty());
        }
        s
    }

    /// The number of records, as the real store reports it.
    pub fn count_all(&self) -> (n: usize)
        ensures
            n == self@.len(),
    {
        self.records.len()
    }

    /// A field-exact copy of the record at a position of the iteration
    /// order.
    pub fn record_at(&self, i: usize) -> (r: UserScore)
        requires
            i < self@.len(),
        ensures
            r@ == self@[i as int],
    {
        self.records[i].duplicate()
    }

    /// The position of the record keyed by `id`, if any.
    fn find_index(&self, id: &String) -> (r: Option<usize>)
        requires
            self.wf(),
        ensures
            match r {
                Some(i) => has_id(self@, id@) && i == index_of_id(self@, id@) && i < self@.len(),
                None => !has_id(self@, id@),
            },
    {
        let mut i: usize = 0;
        while i < self.records.len()
            invariant
                self.wf(),
                i <= self@.len(),
                self@.len() == self.records@.len(),
                forall|j: int| 0 <= j < i ==> self@[j].user_id != id@,
            decreases self@.len() - i,
        {
            if self.records[i].user_id == *id {
                proof {
                    assert(self@[i as int].user_id == id@);
                    lemma_index_of_id(self@, id@);
                }
                return Some(i);
            }
            i += 1;
        }
        proof {
            assert(!has_id(self@, id@)) by {
                if has_id(self@, id@) {
                    let w = choose|w: int| 0 <= w < self@.len() && self@[w].user_id == id@;
                    assert(self@[w].user_id != id@);
                }
            }
        }
        None
    }

    /// Point lookup by the unique key; no ordering guarantee.
    pub fn find_by_user_id(&self, id: &String) -> (r: Option<UserScore>)
        requires
            self.wf(),
        ensures
            match r {
                Some(u) => has_id(self@, id@) && u@ == self@[index_of_id(self@, id@)],
                None => !has_id(self@, id@),
            },
    {
        match self.find_index(id) {
            Some(i) => Some(self.records[i].duplicate()),
            None => None,
        }
    }

    /// Inserts a fresh record with a zero counter. Reports `AlreadyExists`
    /// when a record for `id` already landed; the caller must treat that
    /// as success (idempotent creation), not propagate it.
    pub fn create_user(&mut self, id: &String, username: &String, avatar_url: &String) -> (r: Result<
        (),
        StoreError,
    >)
        requires
            old(self).wf(),
        ensures
            final(self).wf(),
            match r {
                Ok(()) => !has_id(old(self)@, id@) && final(self)@ == old(self)@.push(
                    new_record_view(id@, username@, avatar_url@),
                ),
                Err(e) => e == StoreError::AlreadyExists && has_id(old(self)@, id@) && final(self)@ == old(self)@,
            },
    {
        match self.find_index(id) {
            Some(_) => Err(StoreError::AlreadyExists),
            None => {
                let u = UserScore {
                    user_id: id.clone(),
                    username: username.clone(),
                    avatar_url: avatar_url.clone(),
                    counter: 0,
                };
                proof {
                    assert(u@ == new_record_view(id@, username@, avatar_url@));
                }
                self.records.push(u);
                proof {
                    assert(final(self)@ =~= old(self)@.push(
                        new_record_view(id@, username@, avatar_url@),
                    ));
                    assert forall|i: int, j: int|
                        0 <= i < j < final(self)@.len() implies final(self)@[i].user_id != final(self)@[j].user_id by {
                        if j < old(self)@.len() {
                        } else {
                            assert(final(self)@[j].user_id == id@);
                            assert(final(self)@[i] == old(self)@[i]);
                        }
                    }
                }
                Ok(())
            },
        }
    }

    /// The create-if-absent path: creation that collapses a concurrent
    /// duplicate create into success. Returns whether a record was created.
    pub fn create_if_absent(&mut self, id: &String, username: &String, avatar_url: &String) -> (created:
        bool)
        requires
            old(self).wf(),
        ensures
            final(self).wf(),
            final(self)@ == spec_create_if_absent(old(self)@, id@, username@, avatar_url@),
            created == !has_id(old(self)@, id@),
            has_id(final(self)@, id@),
            counter_of(final(self)@, id@) == if has_id(old(self)@, id@) {
                counter_of(old(self)@, id@)
            } else {
                0
            },
    {
        match self.create_user(id, username, avatar_url) {
            Ok(()) => {
                proof {
                    let s2 = final(self)@;
                    assert(s2[s2.len() - 1].user_id == id@);
                    assert(has_id(s2, id@));
                    lemma_index_of_id(s2, id@);
                }
                true
            },
            Err(_) => {
                false
            },
        }
    }

    /// The single-step atomic increment: adds one to the stored counter
    /// and returns the post-increment value, in one store-side operation.
    /// `NotFound` when no record carries `id`.
    pub fn increment_counter(&mut self, id: &String) -> (r: Result<i64, StoreError>)
        requires
            old(self).wf(),
            has_id(old(self)@, id@) ==> counter_of(old(self)@, id@) < i64::MAX,
        ensures
            final(self).wf(),
            match r {
                Ok(n) => has_id(old(self)@, id@) && n == counter_of(old(self)@, id@) + 1 && final(self)@ == spec_increment(old(self)@, id@) && has_id(final(self)@, id@)
                    && counter_of(final(self)@, id@) == n,
                Err(e) => e == StoreError::NotFound && !has_id(old(self)@, id@) && final(self)@
                    == old(self)@,
            },
    {
        match self.find_index(id) {
            None => Err(StoreError::NotFound),
            Some(i) => {
                proof {
                    lemma_index_of_id(old(self)@, id@);
                }
                let mut u = self.records[i].duplicate();
                u.counter = u.counter + 1;
                let n = u.counter;
                let ghost uv = u@;
                self.records[i] = u;
                proof {
                    let s1 = old(self)@;
                    assert(final(self)@ =~= s1.update(i as int, uv));
                    assert(uv == RecordView { counter: s1[i as int].counter + 1, ..s1[i as int] });
                    assert(final(self)@ == spec_increment(s1, id@));
                    assert(wf_seq(final(self)@));
                    lemma_spec_increment(s1, id@);
                }
                Ok(n)
            },
        }
    }

    /// The targeted single-field update used by the reconciler: replaces
    /// one cached identity field, touching neither the key nor the counter.
    pub fn update_field(&mut self, id: &String, field: Field, value: &String) -> (r: Result<
        (),
        StoreError,
    >)
        requires
            old(self).wf(),
        ensures
            final(self).wf(),
            match r {
                Ok(()) => has_id(old(self)@, id@) && final(self)@ == spec_update_field(
                    old(self)@,
                    id@,
                    field,
                    value@,
                ),
                Err(e) => e == StoreError::NotFound && !has_id(old(self)@, id@) && final(self)@
                    == old(self)@,
            },
    {
        match self.find_index(id) {
            None => Err(StoreError::NotFound),
            Some(i) => {
                proof {
                    lemma_index_of_id(old(self)@, id@);
                }
                let mut u = self.records[i].duplicate();
                match field {
                    Field::Username => {
                        u.username = value.clone();
                    },
                    Field::AvatarUrl => {
                        u.avatar_url = value.clone();
                    },
                }
                let ghost uv = u@;
                self.records[i] = u;
                proof {
                    let s1 = old(self)@;
                    assert(final(self)@ =~= s1.update(i as int, uv));
                    assert(final(self)@ == spec_update_field(s1, id@, field, value@));
                    assert(wf_seq(final(self)@));
                }
                Ok(())
            },
        }
    }

    /// The unconditional overwrite behind the explicit sync entry point:
    /// force-writes both cached identity fields and redundantly re-writes
    /// the key. Never touches the counter. Must not be invoked
    /// automatically.
    pub fn overwrite_identity(&mut self, id: &String, username: &String, avatar_url: &String) -> (r:
        Result<(), StoreError>)
        requires
            old(self).wf(),
        ensures
            final(self).wf(),
            match r {
                Ok(()) => has_id(old(self)@, id@) && final(self)@ == spec_overwrite_identity(
                    old(self)@,
                    id@,
                    username@,
                    avatar_url@,
                ),
                Err(e) => e == StoreError::NotFound && !has_id(old(self)@, id@) && final(self)@
                    == old(self)@,
            },
    {
        match self.find_index(id) {
            None => Err(StoreError::NotFound),
            Some(i) => {
                proof {
                    lemma_index_of_id(old(self)@, id@);
                }
                let c = self.records[i].counter;
                let u = UserScore {
                    user_id: id.clone(),
                    username: username.clone(),
                    avatar_url: avatar_url.clone(),
                    counter: c,
                };
                let ghost uv = u@;
                self.records[i] = u;
                proof {
                    let s1 = old(self)@;
                    assert(final(self)@ =~= s1.update(i as int, uv));
                    assert(final(self)@ == spec_overwrite_identity(s1, id@, username@, avatar_url@));
                    assert forall|a: int, b: int|
                        0 <= a < b < final(self)@.len() implies final(self)@[a].user_id != final(self)@[b].user_id by {
                        assert(s1[i as int].user_id == id@);
                    }
                }
                Ok(())
            },
        }
    }

    /// Lookup by the cached display name, in iteration order. The cache
    /// may be stale and names are not unique, so the first match — or no
    /// match at all for a user whose upstream name changed since the last
    /// sync — is an accepted, documented limitation, not a defect.
    pub fn find_by_username(&self, name: &String) -> (r: Option<UserScore>)
        ensures
            match r {
                Some(u) => first_with_username(self@, name@) < self@.len() && u@ == self@[
                    first_with_username(self@, name@)
                ],
                None => forall|i: int| 0 <= i < self@.len() ==> self@[i].username != name@,
            },
    {
        let mut i: usize = 0;
        while i < self.records.len()
            invariant
                i <= self@.len(),
                self@.len() == self.records@.len(),
                forall|j: int| 0 <= j < i ==> self@[j].username != name@,
            decreases self@.len() - i,
        {
            if self.records[i].username == *name {
                proof {
                    lemma_first_with_username(self@, name@);
                    let f = first_with_username(self@, name@);
                    assert(self@[i as int].username == name@);
                    if f < i {
                        assert(self@[f].username == name@);
                    }
                }
                return Some(self.records[i].duplicate());
            }
            i += 1;
        }
        None
    }
}

/// The position of the first record carrying the cached display name
/// `name`, or the length of the sequence when none does.
pub open spec fn first_with_username(s: Seq<RecordView>, name: Seq<char>) -> int
    decreases s.len(),
{
    if s.len() == 0 {
        0
    } else if s[0].username == name {
        0
    } else {
        1 + first_with_username(s.drop_first(), name)
    }
}

/// `first_with_username` is in range, matches when in range, and nothing
/// before it matches.
pub proof fn lemma_first_with_username(s: Seq<RecordView>, name: Seq<char>)
    ensures
        0 <= first_with_username(s, name) <= s.len(),
        first_with_username(s, name) < s.len() ==> s[first_with_username(s, name)].username
            == name,
        forall|k: int| 0 <= k < first_with_username(s, name) ==> s[k].username != name,
    decreases s.len(),
{
    if s.len() == 0 {
    } else if s[0].username == name {
    } else {
        lemma_first_with_username(s.drop_first(), name);
        let f = first_with_username(s, name);
        assert forall|k: int| 0 <= k < f implies s[k].username != name by {
            if k > 0 {
                assert(s.drop_first()[k - 1] == s[k]);
            }
        }
    }
}

} // verus!
