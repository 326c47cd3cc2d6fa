//! The identity reconciler: given the stored record of a user and the
//! authoritative live identity snapshot, it issues the minimal corrective
//! writes — one targeted update per stale cached field, none when nothing
//! diverged, and never a write to the counter. A separate, explicit sync
//! entry point force-writes all mutable identity fields unconditionally
//! (creating the record first if it is absent); it is the only
//! unconditional-overwrite path and must not be invoked automatically.

use vstd::prelude::*;

use crate::record::{
    Field, LiveIdentity, LiveIdentityView, RecordView, counter_of, has_id, index_of_id,
    lemma_index_of_id, lemma_same_ids, wf_seq,
};
use crate::store::{ScoreStore, spec_create_if_absent, spec_overwrite_identity};

verus! {

/// The store after one reconciliation pass: the record keyed by `id` with
/// both cached identity fields set to the live snapshot, everything else
/// untouched. Setting an already-matching field changes nothing, so this
/// is the result whether zero, one or two corrective writes were issued.
pub open spec fn spec_reconcile(s: Seq<RecordView>, id: Seq<char>, live: LiveIdentityView) -> Seq<
    RecordView,
> {
    let i = index_of_id(s, id);
    s.update(
        i,
        RecordView { username: live.username, avatar_url: live.avatar_url, ..s[i] },
    )
}

/// The store after the explicit sync entry point: the record created with
/// the live identity if it was absent, then all mutable identity fields
/// force-written from the snapshot.
pub open spec fn spec_sync(s: Seq<RecordView>, id: Seq<char>, live: LiveIdentityView) -> Seq<
    RecordView,
> {
    spec_overwrite_identity(
        spec_create_if_absent(s, id, live.username, live.avatar_url),
        id,
        live.username,
        live.avatar_url,
    )
}

/// One reconciliation pass for the stored record keyed by `id` against the
/// live snapshot. Issues a targeted update for each cached field that
/// diverged — the two checks are independent and both may fire — and
/// returns which fields were written. Never touches the counter or the
/// key, and leaves every other record alone.
pub fn reconcile(store: &mut ScoreStore, id: &String, live: &LiveIdentity) -> (wrote: (bool, bool))
    requires
        old(store).wf(),
        has_id(old(store)@, id@),
    ensures
        final(store).wf(),
        final(store)@ == spec_reconcile(old(store)@, id@, live@),
        wrote.0 == (old(store)@[index_of_id(old(store)@, id@)].username != live@.username),
        wrote.1 == (old(store)@[index_of_id(old(store)@, id@)].avatar_url != live@.avatar_url),
        final(store)@[index_of_id(old(store)@, id@)].counter == old(store)@[index_of_id(
            old(store)@,
            id@,
        )].counter,
        forall|j: int|
            0 <= j < old(store)@.len() && j != index_of_id(old(store)@, id@) ==> final(store)@[j]
                == old(store)@[j],
{
    let ghost s0 = store@;
    let ghost i = index_of_id(s0, id@);
    proof {
        lemma_index_of_id(s0, id@);
    }
    let stored = match store.find_by_user_id(id) {
        Some(u) => u,
        None => {
            proof {
                assert(false);
            }
            vstd::pervasive::unreached()
        },
    };
    let wrote_username = stored.username != live.username;
    if wrote_username {
        let r = store.update_field(id, Field::Username, &live.username);
        proof {
            if r is Err {
                assert(false);
            }
        }
    }
    let ghost s1 = store@;
    proof {
        assert(s1.len() == s0.len());
        assert(forall|j: int| 0 <= j < s0.len() ==> s1[j].user_id == s0[j].user_id);
        lemma_same_ids(s0, s1, id@);
        lemma_index_of_id(s1, id@);
    }
    let wrote_avatar = stored.avatar_url != live.avatar_url;
    if wrote_avatar {
        let r = store.update_field(id, Field::AvatarUrl, &live.avatar_url);
        proof {
            if r is Err {
                assert(false);
            }
        }
    }
    proof {
        let s2 = final(store)@;
        assert(s2 =~= spec_reconcile(s0, id@, live@));
    }
    (wrote_username, wrote_avatar)
}

/// Law: reconciliation is a no-op when the stored fields already match
/// the live snapshot — the store is left exactly as it was.
pub proof fn lemma_reconcile_noop(s: Seq<RecordView>, id: Seq<char>, live: LiveIdentityView)
    requires
        wf_seq(s),
        has_id(s, id),
        s[index_of_id(s, id)].username == live.username,
        s[index_of_id(s, id)].avatar_url == live.avatar_url,
    ensures
        spec_reconcile(s, id, live) == s,
{
    lemma_index_of_id(s, id);
    let i = index_of_id(s, id);
    assert(spec_reconcile(s, id, live)[i] == s[i]);
    assert(spec_reconcile(s, id, live) =~= s);
}

/// The explicit sync entry point: repairs a record whose cached fields a
/// manual inspection found inconsistent. Creates the record (idempotently,
/// with a zero counter) if it is absent, then force-writes username,
/// avatar reference and — redundantly — the key itself from the live
/// snapshot. The counter is never touched. Returns whether a record had
/// to be created.
pub fn sync_account(store: &mut ScoreStore, id: &String, live: &LiveIdentity) -> (created: bool)
    requires
        old(store).wf(),
    ensures
        final(store).wf(),
        final(store)@ == spec_sync(old(store)@, id@, live@),
        created == !has_id(old(store)@, id@),
        has_id(final(store)@, id@),
        counter_of(final(store)@, id@) == if has_id(old(store)@, id@) {
            counter_of(old(store)@, id@)
        } else {
            0
        },
{
    let created = store.create_if_absent(id, &live.username, &live.avatar_url);
    let ghost s1 = store@;
    let r = store.overwrite_identity(id, &live.username, &live.avatar_url);
    proof {
        if r is Err {
            assert(false);
        }
        lemma_index_of_id(s1, id@);
        assert(final(store)@[index_of_id(s1, id@)].user_id == id@);
        let s2 = final(store)@;
        assert(forall|j: int| 0 <= j < s1.len() ==> s2[j].user_id == s1[j].user_id);
        lemma_same_ids(s1, s2, id@);
        assert(counter_of(s2, id@) == counter_of(s1, id@));
    }
    created
}

} // verus!
