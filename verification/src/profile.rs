//! The profile view: a user looks their own record up by their stable id —
//! never by name, so a just-changed upstream name cannot make their own
//! account look broken — or someone else's by cached display name, which
//! may be stale or ambiguous. A missing record is a user-visible
//! "not found" outcome, not a crash.

use vstd::prelude::*;

use crate::record::{StoreError, has_id, index_of_id};
use crate::store::{ScoreStore, first_with_username};

verus! {

/// A render-ready profile: the record's cached fields, and whether the
/// subject is the viewer — in which case the renderer shows the viewer's
/// live avatar instead of the cached reference.
pub struct ProfileView {
    pub username: String,
    pub counter: i64,
    pub avatar_url: String,
    pub use_live_avatar: bool,
}

/// Looks a profile up: by the viewer's own id when no username is given,
/// by cached display name otherwise (first match in iteration order — an
/// accepted, documented limitation when names went stale or collide).
/// Returns `NotFound` exactly when the lookup finds nothing.
pub fn lookup_profile(
    store: &ScoreStore,
    viewer_id: &String,
    viewer_name: &String,
    username: Option<&String>,
) -> (r: Result<ProfileView, StoreError>)
    requires
        store.wf(),
    ensures
        (match r {
            Ok(p) => {
                let rec = match username {
                    Some(name) => store@[first_with_username(store@, name@)],
                    None => store@[index_of_id(store@, viewer_id@)],
                };
                &&& (match username {
                    Some(name) => first_with_username(store@, name@) < store@.len(),
                    None => has_id(store@, viewer_id@),
                })
                &&& p.username@ == rec.username
                &&& p.counter as int == rec.counter
                &&& p.avatar_url@ == rec.avatar_url
                &&& p.use_live_avatar == (rec.username == viewer_name@)
            },
            Err(e) => {
                &&& e == StoreError::NotFound
                &&& (match username {
                    Some(name) => forall|i: int|
                        0 <= i < store@.len() ==> store@[i].username != name@,
                    None => !has_id(store@, viewer_id@),
                })
            },
        }),
{
    let found = match username {
        Some(name) => store.find_by_username(name),
        None => store.find_by_user_id(viewer_id),
    };
    match found {
        None => Err(StoreError::NotFound),
        Some(u) => {
            let use_live_avatar = u.username == *viewer_name;
            Ok(
                ProfileView {
                    username: u.username,
                    counter: u.counter,
                    avatar_url: u.avatar_url,
                    use_live_avatar,
                },
            )
        },
    }
}

} // verus!
