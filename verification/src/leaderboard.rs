//! The leaderboard engine: a deterministic, stable ordering of all records
//! by counter in either direction, a page of up to ten entries with
//! decorative medal markers on the first three page positions, and the
//! viewer's global rank — the position of the first record carrying the
//! viewer's counter value when all records are ordered descending. Rank is
//! therefore by counter value, not by record identity: users tied on the
//! counter report the same rank — an accepted quirk, kept deliberately.

use vstd::prelude::*;

use crate::events::{ActionTag, Direction, EventView, SessionEvent};
use crate::record::{
    RecordView, UserScore, counter_of, has_id, lemma_index_of_id, views_of,
};
use crate::store::ScoreStore;

verus! {

/// Strict precedence of counters under a sort direction: whether a record
/// with counter `a` must come strictly before one with counter `b`.
pub open spec fn precedes(d: Direction, a: int, b: int) -> bool {
    match d {
        Direction::Descending => a > b,
        Direction::Ascending => a < b,
    }
}

/// Non-strict order of counters under a sort direction.
pub open spec fn ordered(d: Direction, a: int, b: int) -> bool {
    match d {
        Direction::Descending => a >= b,
        Direction::Ascending => a <= b,
    }
}

/// The sequence is sorted by counter in direction `d`.
pub open spec fn sorted_by(d: Direction, s: Seq<RecordView>) -> bool {
    forall|i: int, j: int| 0 <= i <= j < s.len() ==> ordered(d, s[i].counter, s[j].counter)
}

/// Insertion of one record into a sorted sequence: it lands before the
/// first element it strictly precedes, hence after every element it ties
/// with — which keeps the stable (insertion) iteration order among ties.
pub open spec fn insert_by(d: Direction, x: RecordView, s: Seq<RecordView>) -> Seq<RecordView>
    decreases s.len(),
{
    if s.len() == 0 {
        seq![x]
    } else if precedes(d, x.counter, s[0].counter) {
        seq![x] + s
    } else {
        seq![s[0]] + insert_by(d, x, s.drop_first())
    }
}

/// Stable insertion sort of the records by counter in direction `d`; the
/// deterministic ordering every leaderboard query returns.
pub open spec fn sort_by(d: Direction, s: Seq<RecordView>) -> Seq<RecordView>
    decreases s.len(),
{
    if s.len() == 0 {
        Seq::empty()
    } else {
        insert_by(d, s.last(), sort_by(d, s.drop_last()))
    }
}

/// Inserting adds one element; every element of the result is the
/// inserted record or one of the originals, and every original stays.
pub proof fn lemma_insert_by_elems(d: Direction, x: RecordView, s: Seq<RecordView>)
    ensures
        insert_by(d, x, s).len() == s.len() + 1,
        insert_by(d, x, s).contains(x),
        forall|k: int|
            0 <= k < insert_by(d, x, s).len() ==> #[trigger] insert_by(d, x, s)[k] == x
                || s.contains(insert_by(d, x, s)[k]),
        forall|y: RecordView| s.contains(y) ==> #[trigger] insert_by(d, x, s).contains(y),
    decreases s.len(),
{
    let r = insert_by(d, x, s);
    if s.len() == 0 {
        assert(r[0] == x);
    } else if precedes(d, x.counter, s[0].counter) {
        assert(r[0] == x);
        assert forall|k: int| 0 <= k < r.len() implies #[trigger] r[k] == x || s.contains(r[k]) by {
            if k > 0 {
                assert(r[k] == s[k - 1]);
                assert(s.contains(s[k - 1]));
            }
        }
        assert forall|y: RecordView| s.contains(y) implies #[trigger] r.contains(y) by {
            let k = choose|k: int| 0 <= k < s.len() && s[k] == y;
            assert(r[k + 1] == y);
        }
    } else {
        lemma_insert_by_elems(d, x, s.drop_first());
        let rr = insert_by(d, x, s.drop_first());
        assert(r == seq![s[0]] + rr);
        let m0 = choose|m: int| 0 <= m < rr.len() && rr[m] == x;
        assert(r[m0 + 1] == x);
        assert(r.contains(x));
        assert forall|k: int| 0 <= k < r.len() implies #[trigger] r[k] == x || s.contains(r[k]) by {
            if k == 0 {
                assert(r[0] == s[0]);
                assert(s.contains(s[0]));
            } else {
                assert(r[k] == rr[k - 1]);
                if rr[k - 1] != x {
                    assert(s.drop_first().contains(rr[k - 1]));
                    let m = choose|m: int|
                        0 <= m < s.drop_first().len() && s.drop_first()[m] == rr[k - 1];
                    assert(s.drop_first()[m] == s[m + 1]);
                    assert(s.contains(r[k]));
                }
            }
        }
        assert forall|y: RecordView| s.contains(y) implies #[trigger] r.contains(y) by {
            let k = choose|k: int| 0 <= k < s.len() && s[k] == y;
            if k == 0 {
                assert(r[0] == y);
            } else {
                assert(s.drop_first()[k - 1] == s[k]);
                assert(s.drop_first().contains(y));
                assert(rr.contains(y));
                let m = choose|m: int| 0 <= m < rr.len() && rr[m] == y;
                assert(r[m + 1] == y);
            }
        }
    }
}

/// Inserting into a sorted sequence keeps it sorted.
pub proof fn lemma_insert_by_sorted(d: Direction, x: RecordView, s: Seq<RecordView>)
    requires
        sorted_by(d, s),
    ensures
        sorted_by(d, insert_by(d, x, s)),
    decreases s.len(),
{
    let r = insert_by(d, x, s);
    if s.len() == 0 {
    } else if precedes(d, x.counter, s[0].counter) {
        assert forall|i: int, j: int| 0 <= i <= j < r.len() implies ordered(
            d,
            r[i].counter,
            r[j].counter,
        ) by {
            if i == 0 && j > 0 {
                assert(r[j] == s[j - 1]);
                assert(ordered(d, s[0].counter, s[j - 1].counter));
            } else if i > 0 {
                assert(r[i] == s[i - 1] && r[j] == s[j - 1]);
            }
        }
    } else {
        assert(s.drop_first().len() == s.len() - 1);
        assert forall|i: int, j: int|
            0 <= i <= j < s.drop_first().len() implies ordered(
            d,
            s.drop_first()[i].counter,
            s.drop_first()[j].counter,
        ) by {
            assert(s.drop_first()[i] == s[i + 1] && s.drop_first()[j] == s[j + 1]);
        }
        lemma_insert_by_sorted(d, x, s.drop_first());
        lemma_insert_by_elems(d, x, s.drop_first());
        let rr = insert_by(d, x, s.drop_first());
        assert forall|i: int, j: int| 0 <= i <= j < r.len() implies ordered(
            d,
            r[i].counter,
            r[j].counter,
        ) by {
            if i == 0 && j > 0 {
                assert(r[j] == rr[j - 1]);
                if rr[j - 1] == x {
                    assert(ordered(d, s[0].counter, x.counter));
                } else {
                    assert(s.drop_first().contains(rr[j - 1]));
                    let m = choose|m: int|
                        0 <= m < s.drop_first().len() && s.drop_first()[m] == rr[j - 1];
                    assert(s.drop_first()[m] == s[m + 1]);
                    assert(ordered(d, s[0].counter, s[m + 1].counter));
                }
            } else if i > 0 {
                assert(r[i] == rr[i - 1] && r[j] == rr[j - 1]);
            }
        }
    }
}

/// The sort keeps length and every record of the original sequence.
pub proof fn lemma_sort_by_elems(d: Direction, s: Seq<RecordView>)
    ensures
        sort_by(d, s).len() == s.len(),
        forall|y: RecordView| s.contains(y) ==> #[trigger] sort_by(d, s).contains(y),
    decreases s.len(),
{
    if s.len() == 0 {
    } else {
        lemma_sort_by_elems(d, s.drop_last());
        lemma_insert_by_elems(d, s.last(), sort_by(d, s.drop_last()));
        let r = sort_by(d, s);
        assert forall|y: RecordView| s.contains(y) implies #[trigger] r.contains(y) by {
            let k = choose|k: int| 0 <= k < s.len() && s[k] == y;
            if k == s.len() - 1 {
                assert(y == s.last());
            } else {
                assert(s.drop_last()[k] == s[k]);
                assert(s.drop_last().contains(y));
                assert(sort_by(d, s.drop_last()).contains(y));
            }
        }
    }
}

/// The sort sorts.
pub proof fn lemma_sort_by_sorted(d: Direction, s: Seq<RecordView>)
    ensures
        sorted_by(d, sort_by(d, s)),
    decreases s.len(),
{
    if s.len() == 0 {
    } else {
        lemma_sort_by_sorted(d, s.drop_last());
        lemma_insert_by_sorted(d, s.last(), sort_by(d, s.drop_last()));
    }
}

/// Whether a record with counter `a` must come strictly before one with
/// counter `b` under direction `d`.
fn counter_precedes(d: Direction, a: i64, b: i64) -> (r: bool)
    ensures
        r == precedes(d, a as int, b as int),
{
    match d {
        Direction::Descending => a > b,
        Direction::Ascending => a < b,
    }
}

/// Inserts a copy of a record into an already-sorted vector at the
/// position the stable insertion sort assigns it.
fn insert_sorted(v: &mut Vec<UserScore>, d: Direction, x: UserScore)
    ensures
        views_of(final(v)@) == insert_by(d, x@, views_of(old(v)@)),
{
    let ghost s = views_of(old(v)@);
    proof {
        assert(s.skip(0) =~= s);
        assert(s.take(0) + insert_by(d, x@, s.skip(0)) =~= insert_by(d, x@, s));
    }
    let mut i: usize = 0;
    while i < v.len() && !counter_precedes(d, x.counter, v[i].counter)
        invariant
            i <= v@.len(),
            v@ == old(v)@,
            s == views_of(v@),
            s.len() == v@.len(),
            insert_by(d, x@, s) == s.take(i as int) + insert_by(d, x@, s.skip(i as int)),
        decreases v@.len() - i,
    {
        proof {
            let tail = s.skip(i as int);
            assert(tail[0] == s[i as int]);
            assert(s[i as int] == v@[i as int]@);
            assert(!precedes(d, x@.counter, tail[0].counter));
            assert(tail.drop_first() =~= s.skip(i as int + 1));
            assert(insert_by(d, x@, tail) == seq![s[i as int]] + insert_by(
                d,
                x@,
                s.skip(i as int + 1),
            ));
            assert(s.take(i as int) + (seq![s[i as int]] + insert_by(d, x@, s.skip(i as int + 1)))
                =~= s.take(i as int + 1) + insert_by(d, x@, s.skip(i as int + 1)));
        }
        i += 1;
    }
    proof {
        let tail = s.skip(i as int);
        if i < v@.len() {
            assert(tail[0] == s[i as int]);
            assert(precedes(d, x@.counter, tail[0].counter));
            assert(insert_by(d, x@, tail) == seq![x@] + tail);
        } else {
            assert(tail =~= Seq::<RecordView>::empty());
            assert(insert_by(d, x@, tail) == seq![x@] + tail);
        }
    }
    let ghost i0 = i as int;
    v.insert(i, x);
    proof {
        assert(views_of(final(v)@) =~= s.take(i0) + (seq![x@] + s.skip(i0)));
    }
}

/// A sorted copy of every record, by counter in direction `d`: the
/// deterministic ordering behind every leaderboard query, with ties kept
/// in store iteration order.
pub fn sorted_records(store: &ScoreStore, d: Direction) -> (r: Vec<UserScore>)
    ensures
        views_of(r@) == sort_by(d, store@),
{
    let mut out: Vec<UserScore> = Vec::new();
    let mut i: usize = 0;
    let n = store.count_all();
    proof {
        assert(views_of(out@) =~= Seq::<RecordView>::empty());
        assert(store@.take(0) =~= Seq::<RecordView>::empty());
    }
    while i < n
        invariant
            i <= n,
            n == store@.len(),
            views_of(out@) == sort_by(d, store@.take(i as int)),
        decreases n - i,
    {
        let u = store.record_at(i);
        proof {
            let t = store@.take(i as int + 1);
            assert(t.drop_last() =~= store@.take(i as int));
            assert(t.last() == store@[i as int]);
        }
        insert_sorted(&mut out, d, u);
        i += 1;
    }
    proof {
        assert(store@.take(n as int) =~= store@);
    }
    out
}

/// The records of one leaderboard page: the sorted sequence, `skip`
/// positions dropped, then at most `n` records taken.
pub open spec fn spec_top_n(s: Seq<RecordView>, d: Direction, n: int, skip: int) -> Seq<RecordView>
    recommends
        0 <= n,
        0 <= skip,
{
    let sorted = sort_by(d, s);
    let lo = if skip <= sorted.len() {
        skip
    } else {
        sorted.len() as int
    };
    let hi = if skip + n <= sorted.len() {
        skip + n
    } else {
        sorted.len() as int
    };
    sorted.subrange(lo, hi)
}

/// The position of the first record carrying counter value `c`, or the
/// length of the sequence when none does.
pub open spec fn first_counter_index(s: Seq<RecordView>, c: int) -> int
    decreases s.len(),
{
    if s.len() == 0 {
        0
    } else if s[0].counter == c {
        0
    } else {
        1 + first_counter_index(s.drop_first(), c)
    }
}

/// `first_counter_index` is in range, matches when in range, and nothing
/// before it matches.
pub proof fn lemma_first_counter_index(s: Seq<RecordView>, c: int)
    ensures
        0 <= first_counter_index(s, c) <= s.len(),
        first_counter_index(s, c) < s.len() ==> s[first_counter_index(s, c)].counter == c,
        forall|k: int| 0 <= k < first_counter_index(s, c) ==> s[k].counter != c,
    decreases s.len(),
{
    if s.len() == 0 {
    } else if s[0].counter == c {
    } else {
        lemma_first_counter_index(s.drop_first(), c);
        let f = first_counter_index(s, c);
        assert forall|k: int| 0 <= k < f implies s[k].counter != c by {
            if k > 0 {
                assert(s.drop_first()[k - 1] == s[k]);
            }
        }
    }
}

/// The viewer's reported rank is one more than the position of the first
/// record carrying the viewer's counter value in the descending ordering
/// of all records, or unranked when the viewer has no record. Rank is by
/// counter value, not by record identity: tied users share the earliest
/// tied position.
pub open spec fn rank_matches(s: Seq<RecordView>, id: Seq<char>, rank: Option<usize>) -> bool {
    match rank {
        Some(k) => has_id(s, id) && k as int == first_counter_index(
            sort_by(Direction::Descending, s),
            counter_of(s, id),
        ) + 1,
        None => !has_id(s, id),
    }
}

impl ScoreStore {
    /// Up to `n` records ordered by counter in the requested direction,
    /// the first `skip` of them dropped.
    pub fn top_n(&self, direction: Direction, n: usize, skip: usize) -> (r: Vec<UserScore>)
        ensures
            views_of(r@) == spec_top_n(self@, direction, n as int, skip as int),
    {
        let sorted = sorted_records(self, direction);
        proof {
            lemma_sort_by_elems(direction, self@);
        }
        let len = sorted.len();
        let lo = if skip < len {
            skip
        } else {
            len
        };
        let rem = len - lo;
        let take_n = if n < rem {
            n
        } else {
            rem
        };
        let hi = lo + take_n;
        let ghost sv = views_of(sorted@);
        let mut out: Vec<UserScore> = Vec::new();
        proof {
            assert(views_of(out@) =~= sv.subrange(lo as int, lo as int));
        }
        let mut j: usize = lo;
        while j < hi
            invariant
                lo <= j <= hi <= sorted@.len(),
                sv == views_of(sorted@),
                sv.len() == sorted@.len(),
                views_of(out@) == sv.subrange(lo as int, j as int),
            decreases hi - j,
        {
            let u = sorted[j].duplicate();
            out.push(u);
            proof {
                assert(views_of(out@) =~= sv.subrange(lo as int, j as int).push(sv[j as int]));
                assert(sv.subrange(lo as int, j as int).push(sv[j as int]) =~= sv.subrange(
                    lo as int,
                    j as int + 1,
                ));
            }
            j += 1;
        }
        proof {
            assert(views_of(out@) == sv.subrange(lo as int, hi as int));
            assert(views_of(out@) =~= spec_top_n(self@, direction, n as int, skip as int));
        }
        out
    }

    /// Every record, ordered by descending counter: the full scan behind
    /// the viewer-rank computation.
    pub fn all_ordered_by_counter_desc(&self) -> (r: Vec<UserScore>)
        ensures
            views_of(r@) == sort_by(Direction::Descending, self@),
    {
        sorted_records(self, Direction::Descending)
    }

    /// The viewer's 1-based global rank: the position of the first record
    /// whose counter equals the viewer's stored counter when all records
    /// are ordered descending; unranked when the viewer has no record.
    pub fn compute_rank(&self, viewer_id: &String) -> (r: Option<usize>)
        requires
            self.wf(),
        ensures
            rank_matches(self@, viewer_id@, r),
    {
        let target = match self.find_by_user_id(viewer_id) {
            None => {
                return None;
            },
            Some(u) => u,
        };
        let sorted = self.all_ordered_by_counter_desc();
        let ghost sv = views_of(sorted@);
        proof {
            lemma_sort_by_elems(Direction::Descending, self@);
            lemma_index_of_id(self@, viewer_id@);
            assert(self@.contains(target@));
            assert(sv.contains(target@));
        }
        let ghost w = choose|w: int| 0 <= w < sv.len() && sv[w] == target@;
        let c = target.counter;
        let n = sorted.len();
        let mut j: usize = 0;
        while sorted[j].counter != c
            invariant
                sv == views_of(sorted@),
                sv.len() == sorted@.len(),
                sv.len() == n as int,
                0 <= j <= w < sv.len(),
                sv[w].counter == c as int,
                forall|k: int| 0 <= k < j ==> sv[k].counter != c as int,
            decreases w - j,
        {
            proof {
                assert(sv[j as int].counter != c as int);
                assert(j < w);
            }
            j += 1;
        }
        proof {
            let f = first_counter_index(sv, c as int);
            lemma_first_counter_index(sv, c as int);
            assert(sv[j as int].counter == c as int);
            if j < f {
                assert(sv[j as int].counter != c as int);
            } else if f < j {
                assert(f < sv.len());
                assert(sv[f].counter != c as int);
            }
            assert(j as int == f);
        }
        Some(j + 1)
    }
}

/// The page length of a rendered leaderboard.
pub const PAGE_SIZE: usize = 10;

/// The decorative marker of the first three page positions.
#[derive(Clone, Copy, Debug, PartialEq, Eq, Structural)]
pub enum Medal {
    Gold,
    Silver,
    Bronze,
}

/// The marker assigned to a page position: the first three positions of
/// the returned page get one — page positions, not global ranks.
pub open spec fn medal_for(pos: int) -> Option<Medal> {
    if pos == 0 {
        Some(Medal::Gold)
    } else if pos == 1 {
        Some(Medal::Silver)
    } else if pos == 2 {
        Some(Medal::Bronze)
    } else {
        None
    }
}

/// One rendered leaderboard row.
pub struct LeaderboardEntry {
    pub medal: Option<Medal>,
    pub username: String,
    pub counter: i64,
    pub avatar_url: String,
}

/// Mathematical image of a leaderboard row.
pub struct EntryView {
    pub medal: Option<Medal>,
    pub username: Seq<char>,
    pub counter: int,
    pub avatar_url: Seq<char>,
}

impl View for LeaderboardEntry {
    type V = EntryView;

    open spec fn view(&self) -> EntryView {
        EntryView {
            medal: self.medal,
            username: self.username@,
            counter: self.counter as int,
            avatar_url: self.avatar_url@,
        }
    }
}

/// The mathematical image of a sequence of rendered rows.
pub open spec fn entry_views_of(s: Seq<LeaderboardEntry>) -> Seq<EntryView> {
    s.map_values(|e: LeaderboardEntry| e@)
}

/// The rows of a rendered page: the first page of the sorted records,
/// each row carrying its page position's marker.
pub open spec fn spec_entries(s: Seq<RecordView>, d: Direction) -> Seq<EntryView> {
    spec_top_n(s, d, PAGE_SIZE as int, 0).map(
        |i: int, r: RecordView|
            EntryView {
                medal: medal_for(i),
                username: r.username,
                counter: r.counter,
                avatar_url: r.avatar_url,
            },
    )
}

/// A render-ready leaderboard: the direction it was computed in, up to
/// ten rows, and the viewer's global rank.
pub struct LeaderboardView {
    pub sort_direction: Direction,
    pub entries: Vec<LeaderboardEntry>,
    pub viewer_rank: Option<usize>,
}

/// The full two-query leaderboard computation: one page of records in the
/// requested direction, and the viewer's rank among all records.
pub fn render_top(store: &ScoreStore, direction: Direction, viewer_id: &String) -> (view:
    LeaderboardView)
    requires
        store.wf(),
    ensures
        view.sort_direction == direction,
        entry_views_of(view.entries@) == spec_entries(store@, direction),
        rank_matches(store@, viewer_id@, view.viewer_rank),
{
    let page = store.top_n(direction, PAGE_SIZE, 0);
    let ghost pv = views_of(page@);
    let ghost ev = spec_entries(store@, direction);
    let mut entries: Vec<LeaderboardEntry> = Vec::new();
    let mut i: usize = 0;
    while i < page.len()
        invariant
            i <= page@.len(),
            pv == views_of(page@),
            pv.len() == page@.len(),
            ev == spec_entries(store@, direction),
            pv == spec_top_n(store@, direction, PAGE_SIZE as int, 0),
            ev.len() == pv.len(),
            entries@.len() == i,
            forall|k: int| 0 <= k < i ==> entries@[k]@ == ev[k],
        decreases page@.len() - i,
    {
        let medal = if i == 0 {
            Some(Medal::Gold)
        } else if i == 1 {
            Some(Medal::Silver)
        } else if i == 2 {
            Some(Medal::Bronze)
        } else {
            None
        };
        let u = page[i].duplicate();
        let entry = LeaderboardEntry {
            medal,
            username: u.username,
            counter: u.counter,
            avatar_url: u.avatar_url,
        };
        proof {
            assert(entry@ == ev[i as int]);
        }
        entries.push(entry);
        i += 1;
    }
    proof {
        assert(entry_views_of(entries@) =~= ev);
    }
    let viewer_rank = store.compute_rank(viewer_id);
    LeaderboardView { sort_direction: direction, entries, viewer_rank }
}

/// The opposite sort direction.
pub open spec fn opposite_of(d: Direction) -> Direction {
    match d {
        Direction::Ascending => Direction::Descending,
        Direction::Descending => Direction::Ascending,
    }
}

/// The direction a toggle switches a view to.
pub fn toggle_direction(d: Direction) -> (r: Direction)
    ensures
        r == opposite_of(d),
{
    match d {
        Direction::Ascending => Direction::Descending,
        Direction::Descending => Direction::Ascending,
    }
}

/// Law: leaderboard ranking is self-consistent. Descending entries carry
/// non-increasing counters and ascending entries non-decreasing ones, on
/// every page.
pub proof fn lemma_top_n_sorted(s: Seq<RecordView>, d: Direction, n: int, skip: int)
    requires
        0 <= n,
        0 <= skip,
    ensures
        forall|i: int, j: int|
            0 <= i <= j < spec_top_n(s, d, n, skip).len() ==> ordered(
                d,
                spec_top_n(s, d, n, skip)[i].counter,
                spec_top_n(s, d, n, skip)[j].counter,
            ),
{
    lemma_sort_by_sorted(d, s);
}

/// Law: the rows of a rendered page are sorted in its direction —
/// non-increasing counters descending, non-decreasing ascending.
pub proof fn lemma_entries_sorted(s: Seq<RecordView>, d: Direction)
    ensures
        forall|i: int, j: int|
            0 <= i <= j < spec_entries(s, d).len() ==> ordered(
                d,
                spec_entries(s, d)[i].counter,
                spec_entries(s, d)[j].counter,
            ),
{
    lemma_top_n_sorted(s, d, PAGE_SIZE as int, 0);
}

/// Law: toggling the sort direction twice yields the original rendering —
/// the same rows in the same order. The viewer rank is computed over the
/// descending ordering whatever the view's direction, so it never moves.
pub proof fn lemma_toggle_twice(s: Seq<RecordView>, d: Direction)
    ensures
        opposite_of(opposite_of(d)) == d,
        spec_entries(s, opposite_of(opposite_of(d))) == spec_entries(s, d),
{
}

/// What one turn of a leaderboard view's event loop decides.
pub enum LeaderboardOutcome {
    Rendered(LeaderboardView),
    Ignored,
    Ended,
}

/// One turn of a leaderboard view's event loop: a dedicated
/// sort-direction event re-runs the full two-query computation in the
/// requested direction — from any identity, as the view is public; the
/// inactivity timeout ends the view; any other interaction is ignored.
/// The rank shown stays that of the identity that opened the view.
pub fn leaderboard_step(store: &ScoreStore, viewer_id: &String, event: &SessionEvent) -> (r:
    LeaderboardOutcome)
    requires
        store.wf(),
    ensures
        (match event@ {
            EventView::Timeout => r is Ended,
            EventView::Interaction { actor_id, action } => match action {
                ActionTag::SortToggle(d) => r matches LeaderboardOutcome::Rendered(v)
                    && v.sort_direction == d && entry_views_of(v.entries@) == spec_entries(
                    store@,
                    d,
                ) && rank_matches(store@, viewer_id@, v.viewer_rank),
                _ => r is Ignored,
            },
        }),
{
    match event {
        SessionEvent::Timeout => LeaderboardOutcome::Ended,
        SessionEvent::Interaction { actor_id: _, action } => match action {
            ActionTag::SortToggle(d) => LeaderboardOutcome::Rendered(
                render_top(store, *d, viewer_id),
            ),
            _ => LeaderboardOutcome::Ignored,
        },
    }
}

} // verus!
