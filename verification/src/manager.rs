//! The session lifecycle manager: owns the session store and the
//! active-index (app name to the identity of its currently running
//! session), applies Started/Stopped camera events, exposes pause, resume
//! and query operations, and performs startup crash recovery. At most one
//! running session is indexed per app name, and the index always points at
//! `Running` rows of the store.

use vstd::prelude::*;
use crate::parser::{ev_app, ev_ts, CameraEvent};
use crate::session::{closed_session, Session, SessionModel, SessionStatus};
use crate::store::{row_id_ok, store_wf, rows_model, sorted_by_start_desc, SessionStore, StoreModel};
use crate::timefmt::TS_MAX;
use vstd::map::Map;

verus! {

/// Mathematical model of the manager: the store's model, the tracking
/// flag, and the active-index as a map from app name to session identity.
pub ghost struct ManagerModel {
    pub store: StoreModel,
    pub tracking: bool,
    pub active: Map<Seq<char>, int>,
}

/// No two index entries share an app name.
pub open spec fn keys_distinct(v: Seq<(String, i64)>) -> bool {
    forall|i: int, j: int| 0 <= i < j < v.len() ==> v[i].0@ != v[j].0@
}

/// The map an association list denotes; later entries win.
pub open spec fn assoc_map(v: Seq<(String, i64)>) -> Map<Seq<char>, int>
    decreases v.len(),
{
    if v.len() == 0 {
        Map::empty()
    } else {
        assoc_map(v.drop_last()).insert(v.last().0@, v.last().1 as int)
    }
}

/// Membership and lookup of the denoted map, in terms of the entries.
pub proof fn lemma_assoc_map(v: Seq<(String, i64)>)
    ensures
        forall|k: Seq<char>|
            #[trigger] assoc_map(v).dom().contains(k) <==> exists|i: int|
                0 <= i < v.len() && (#[trigger] v[i]).0@ == k,
        keys_distinct(v) ==> forall|i: int|
            0 <= i < v.len() ==> assoc_map(v)[(#[trigger] v[i]).0@] == v[i].1 as int,
    decreases v.len(),
{
    if v.len() > 0 {
        lemma_assoc_map(v.drop_last());
        assert forall|k: Seq<char>| #[trigger]
            assoc_map(v).dom().contains(k) implies exists|i: int|
            0 <= i < v.len() && (#[trigger] v[i]).0@ == k by {
            if k == v.last().0@ {
                assert(v[v.len() - 1].0@ == k);
            } else {
                assert(assoc_map(v) == assoc_map(v.drop_last()).insert(
                    v.last().0@,
                    v.last().1 as int,
                ));
                assert(assoc_map(v.drop_last()).dom().contains(k));
                let i = choose|i: int|
                    0 <= i < v.drop_last().len() && (#[trigger] v.drop_last()[i]).0@ == k;
                assert(v.drop_last()[i] == v[i]);
                assert(v[i].0@ == k);
            }
        }
        assert forall|k: Seq<char>|
            (exists|i: int| 0 <= i < v.len() && (#[trigger] v[i]).0@ == k) implies #[trigger]
            assoc_map(v).dom().contains(k) by {
            let i = choose|i: int| 0 <= i < v.len() && v[i].0@ == k;
            if i < v.len() - 1 {
                assert(v.drop_last()[i].0@ == k);
            }
        }
        if keys_distinct(v) {
            assert(keys_distinct(v.drop_last()));
            assert forall|i: int|
                0 <= i < v.len() implies assoc_map(v)[(#[trigger] v[i]).0@] == v[i].1 as int by {
                if i < v.len() - 1 {
                    assert(v.drop_last()[i] == v[i]);
                    assert(v[i].0@ != v.last().0@);
                }
            }
        }
    }
}

/// Appending an entry inserts its binding.
proof fn lemma_assoc_push(v: Seq<(String, i64)>, e: (String, i64))
    ensures
        assoc_map(v.push(e)) == assoc_map(v).insert(e.0@, e.1 as int),
{
    assert(v.push(e).drop_last() =~= v);
    assert(v.push(e).last() == e);
}

/// Removing the entry at `i` removes its binding, when keys are distinct.
proof fn lemma_assoc_remove(v: Seq<(String, i64)>, i: int)
    requires
        keys_distinct(v),
        0 <= i < v.len(),
    ensures
        assoc_map(v.remove(i)) == assoc_map(v).remove(v[i].0@),
        keys_distinct(v.remove(i)),
    decreases v.len(),
{
    lemma_assoc_map(v);
    lemma_assoc_map(v.drop_last());
    let k = v[i].0@;
    if i == v.len() - 1 {
        assert(v.remove(i) =~= v.drop_last());
        assert(!assoc_map(v.drop_last()).dom().contains(k)) by {
            if assoc_map(v.drop_last()).dom().contains(k) {
                let j = choose|j: int|
                    0 <= j < v.drop_last().len() && v.drop_last()[j].0@ == k;
                assert(v[j].0@ == v[i].0@);
            }
        }
        assert(assoc_map(v.drop_last()) =~= assoc_map(v).remove(k));
    } else {
        assert(keys_distinct(v.drop_last()));
        lemma_assoc_remove(v.drop_last(), i);
        assert(v.remove(i).drop_last() =~= v.drop_last().remove(i));
        assert(v.remove(i).last() == v.last());
        assert(assoc_map(v.remove(i)) == assoc_map(v.drop_last().remove(i)).insert(
            v.last().0@,
            v.last().1 as int,
        ));
        assert(v[i].0@ != v.last().0@);
        assert(assoc_map(v.drop_last()).remove(k).insert(v.last().0@, v.last().1 as int)
            =~= assoc_map(v.drop_last()).insert(v.last().0@, v.last().1 as int).remove(k));
        assert(keys_distinct(v.remove(i))) by {
            assert forall|a: int, b: int|
                0 <= a < b < v.remove(i).len() implies v.remove(i)[a].0@ != v.remove(i)[b].0@ by {
                let a0 = if a < i { a } else { a + 1 };
                let b0 = if b < i { b } else { b + 1 };
                assert(v.remove(i)[a] == v[a0] && v.remove(i)[b] == v[b0]);
            }
        }
    }
}

/// A store row recording a currently running session of `app` under
/// identity `id`.
pub open spec fn row_active_at(r: SessionModel, app: Seq<char>, id: int) -> bool {
    r.id == Some(id) && r.app_name == app && r.status == SessionStatus::Running
}

/// Some store row records a running session of `app` under identity `id`.
pub open spec fn active_entry_ok(rows: Seq<SessionModel>, app: Seq<char>, id: int) -> bool {
    exists|i: int| 0 <= i < rows.len() && row_active_at(#[trigger] rows[i], app, id)
}

/// The manager invariant: a well-formed store, and every index entry
/// backed by a `Running` row with the matching app name and identity.
pub open spec fn mgr_inv(m: ManagerModel) -> bool {
    &&& store_wf(m.store)
    &&& forall|a: Seq<char>|
        #[trigger] m.active.dom().contains(a) ==> active_entry_ok(m.store.rows, a, m.active[a])
}

/// `rows` with the row of identity `id` (if any) closed at `t`.
pub open spec fn close_id(rows: Seq<SessionModel>, id: int, t: int) -> Seq<SessionModel> {
    Seq::new(
        rows.len(),
        |i: int|
            if rows[i].id == Some(id) {
                closed_session(rows[i], t)
            } else {
                rows[i]
            },
    )
}

/// A fresh `Running` row.
pub open spec fn new_running_session(app: Seq<char>, start: int, id: int) -> SessionModel {
    SessionModel {
        id: Some(id),
        app_name: app,
        start_time: start,
        end_time: None,
        duration_secs: None,
        status: SessionStatus::Running,
    }
}

/// Effect of `start_session`: when the app already had an indexed running
/// session, that session is first closed at `now`; then a fresh `Running`
/// row for the app is appended under the returned identity, and the index
/// maps the app to it.
pub open spec fn start_session_post(
    pre: ManagerModel,
    post: ManagerModel,
    app: Seq<char>,
    now: int,
    ret: int,
) -> bool {
    let base = if pre.active.dom().contains(app) {
        close_id(pre.store.rows, pre.active[app], now)
    } else {
        pre.store.rows
    };
    &&& ret == pre.store.next_id
    &&& post.store.rows == base.push(new_running_session(app, now, ret))
    &&& post.store.next_id == pre.store.next_id + 1
    &&& post.active == pre.active.insert(app, ret)
    &&& post.tracking == pre.tracking
}

/// Effect of `end_session_for_app`: `closed` says whether the app had an
/// indexed running session; when it had, that session's row is closed at
/// `now` and the index entry removed; when it had not, nothing changes.
pub open spec fn end_session_post(
    pre: ManagerModel,
    post: ManagerModel,
    app: Seq<char>,
    now: int,
    closed: bool,
) -> bool {
    &&& closed == pre.active.dom().contains(app)
    &&& if closed {
        &&& post.store.rows == close_id(pre.store.rows, pre.active[app], now)
        &&& post.store.next_id == pre.store.next_id
        &&& post.active == pre.active.remove(app)
        &&& post.tracking == pre.tracking
    } else {
        post == pre
    }
}

/// The row identity is bound by some entry of the index.
pub open spec fn id_in_active(active: Map<Seq<char>, int>, oid: Option<int>) -> bool {
    match oid {
        Some(id) => exists|a: Seq<char>| #[trigger] active.dom().contains(a) && active[a] == id,
        None => false,
    }
}

/// Rows-only effect of closing every indexed session at `now`: indexed
/// rows are closed, all others untouched, none added or removed.
pub open spec fn closes_all_indexed(pre: ManagerModel, post: ManagerModel, now: int) -> bool {
    &&& post.store.next_id == pre.store.next_id
    &&& post.store.rows.len() == pre.store.rows.len()
    &&& forall|i: int|
        0 <= i < pre.store.rows.len() && id_in_active(
            pre.active,
            (#[trigger] pre.store.rows[i]).id,
        ) ==> post.store.rows[i] == closed_session(pre.store.rows[i], now)
    &&& forall|i: int|
        0 <= i < pre.store.rows.len() && !id_in_active(
            pre.active,
            (#[trigger] pre.store.rows[i]).id,
        ) ==> post.store.rows[i] == pre.store.rows[i]
}

/// Effect of startup recovery: every `Running` row is closed at `now` -
/// whatever run left it open - and everything else is untouched.
pub open spec fn recover_post(pre: ManagerModel, post: ManagerModel, now: int) -> bool {
    &&& post.store.next_id == pre.store.next_id
    &&& post.store.rows.len() == pre.store.rows.len()
    &&& post.active == pre.active
    &&& post.tracking == pre.tracking
    &&& forall|i: int|
        0 <= i < pre.store.rows.len() && (#[trigger] pre.store.rows[i]).status
            == SessionStatus::Running ==> post.store.rows[i] == closed_session(
            pre.store.rows[i],
            now,
        )
    &&& forall|i: int|
        0 <= i < pre.store.rows.len() && (#[trigger] pre.store.rows[i]).status
            != SessionStatus::Running ==> post.store.rows[i] == pre.store.rows[i]
}

/// The session lifecycle manager.
pub struct SessionManager {
    store: SessionStore,
    tracking: bool,
    active: Vec<(String, i64)>,
}

impl View for SessionManager {
    type V = ManagerModel;

    closed spec fn view(&self) -> ManagerModel {
        ManagerModel {
            store: self.store@,
            tracking: self.tracking,
            active: assoc_map(self.active@),
        }
    }
}

/// Position of the entry for `app` in the index, if any.
fn assoc_index_of(v: &Vec<(String, i64)>, app: &str) -> (r: Option<usize>)
    ensures
        match r {
            Some(i) => i < v@.len() && v@[i as int].0@ == app@,
            None => forall|i: int| 0 <= i < v@.len() ==> (#[trigger] v@[i]).0@ != app@,
        },
{
    let n = v.len();
    let mut i: usize = 0;
    while i < n
        invariant
            n == v@.len(),
            i <= n,
            forall|j: int| 0 <= j < i ==> (#[trigger] v@[j]).0@ != app@,
        decreases n - i,
    {
        if crate::text::str_eq(v[i].0.as_str(), app) {
            return Some(i);
        }
        i = i + 1;
    }
    None
}

impl SessionManager {
    /// Internal representation is consistent: index keys distinct, and the
    /// manager invariant holds of the model.
    pub closed spec fn wf(&self) -> bool {
        &&& keys_distinct(self.active@)
        &&& mgr_inv(self@)
    }

    /// Well-formedness of the manager means the invariant of its model.
    pub proof fn lemma_wf_inv(&self)
        requires
            self.wf(),
        ensures
            mgr_inv(self@),
    {
    }

    /// A manager over the given store, with tracking off and an empty
    /// active-index.
    pub fn new(store: SessionStore) -> (r: SessionManager)
        requires
            store_wf(store@),
        ensures
            r.wf(),
            r@.store == store@,
            r@.tracking == false,
            r@.active == Map::<Seq<char>, int>::empty(),
    {
        SessionManager { store, tracking: false, active: Vec::new() }
    }

    /// The identity the index binds for `app`, if any.
    fn active_lookup(&self, app: &str) -> (r: Option<i64>)
        requires
            self.wf(),
        ensures
            match r {
                Some(id) => self@.active.dom().contains(app@) && self@.active[app@] == id as int,
                None => !self@.active.dom().contains(app@),
            },
    {
        proof {
            lemma_assoc_map(self.active@);
        }
        match assoc_index_of(&self.active, app) {
            Some(i) => Some(self.active[i].1),
            None => None,
        }
    }

    /// Starts a new session for `app_name` at `now` and returns its
    /// identity. When the app already has an indexed running session, that
    /// session is closed first - a new Started event is treated as the
    /// implicit end of the previous one for the same app, since the log
    /// stream can drop a Stopped line under load. Other apps' sessions are
    /// untouched.
    pub fn start_session(&mut self, app_name: String, now: i64) -> (id: i64)
        requires
            old(self).wf(),
            0 <= now <= TS_MAX,
            old(self)@.store.next_id < i64::MAX as int,
        ensures
            final(self).wf(),
            start_session_post(old(self)@, final(self)@, app_name@, now as int, id as int),
    {
        proof {
            lemma_assoc_map(self.active@);
        }
        let existing = self.active_lookup(app_name.as_str());
        if let Some(eid) = existing {
            let _ = self.store.update_session(eid, now);
            let ghost pre_active = self.active@;
            match assoc_index_of(&self.active, app_name.as_str()) {
                Some(i) => {
                    let _ = self.active.remove(i);
                    proof {
                        lemma_assoc_remove(pre_active, i as int);
                    }
                },
                None => {
                    proof {
                        assert(false);
                    }
                },
            }
            proof {
                assert(self@.store.rows =~= close_id(
                    old(self)@.store.rows,
                    eid as int,
                    now as int,
                ));
            }
        }
        let ghost mid = self@;
        let ghost mid_active_vec = self.active@;
        let session = Session::new(app_name.clone(), now);
        let id = self.store.insert_session(&session);
        self.active.push((app_name, id));
        proof {
            lemma_assoc_push(mid_active_vec, self.active@.last());
            let app = self.active@.last().0@;
            let pre = old(self)@;
            assert(self@.store.rows == mid.store.rows.push(
                new_running_session(app, now as int, id as int),
            ));
            // The active map ends as an insert over the map before the call.
            lemma_assoc_map(mid_active_vec);
            if pre.active.dom().contains(app) {
                assert(self@.active =~= pre.active.insert(app, id as int));
            } else {
                assert(mid.active =~= pre.active);
                assert(self@.active =~= pre.active.insert(app, id as int));
            }
            // Index keys stay distinct: the app's entry, if any, was removed.
            assert forall|i: int, j: int|
                0 <= i < j < self.active@.len() implies self.active@[i].0@
                != self.active@[j].0@ by {
                if j == self.active@.len() - 1 {
                    if mid_active_vec[i].0@ == app {
                        lemma_assoc_map(mid_active_vec);
                        assert(mid.active.dom().contains(app));
                    }
                }
            }
            // Every index entry is still backed by a running row.
            assert forall|a: Seq<char>| #[trigger]
                self@.active.dom().contains(a) implies active_entry_ok(
                self@.store.rows,
                a,
                self@.active[a],
            ) by {
                let rows = self@.store.rows;
                if a == app {
                    assert(row_active_at(rows[rows.len() - 1], app, id as int));
                } else {
                    assert(pre.active.dom().contains(a));
                    let w = choose|w: int|
                        0 <= w < pre.store.rows.len() && row_active_at(
                            #[trigger] pre.store.rows[w],
                            a,
                            pre.active[a],
                        );
                    if pre.active.dom().contains(app) {
                        // The closed row cannot be this entry's row: ids are
                        // unique and the apps differ.
                        let eid = pre.active[app];
                        if pre.store.rows[w].id == Some(eid) {
                            let u = choose|u: int|
                                0 <= u < pre.store.rows.len() && row_active_at(
                                    #[trigger] pre.store.rows[u],
                                    app,
                                    eid,
                                );
                            assert(pre.store.rows[u].id == pre.store.rows[w].id);
                            assert(u == w);
                        }
                        assert(mid.store.rows[w] == pre.store.rows[w]);
                    }
                    assert(rows[w] == pre.store.rows[w]);
                    assert(row_active_at(rows[w], a, self@.active[a]));
                }
            }
        }
        id
    }

    /// Ends the indexed running session of `app_name`, closing its row at
    /// `now` and dropping the index entry; returns whether a session was
    /// actually closed. An app with no indexed session is a no-op, not an
    /// error: nothing is mutated and `false` comes back.
    pub fn end_session_for_app(&mut self, app_name: &str, now: i64) -> (closed: bool)
        requires
            old(self).wf(),
            0 <= now <= TS_MAX,
        ensures
            final(self).wf(),
            end_session_post(old(self)@, final(self)@, app_name@, now as int, closed),
    {
        proof {
            lemma_assoc_map(self.active@);
        }
        let existing = self.active_lookup(app_name);
        match existing {
            Some(eid) => {
                let _ = self.store.update_session(eid, now);
                let ghost pre_active = self.active@;
                match assoc_index_of(&self.active, app_name) {
                    Some(i) => {
                        let _ = self.active.remove(i);
                        proof {
                            lemma_assoc_remove(pre_active, i as int);
                        }
                    },
                    None => {
                        proof {
                            assert(false);
                        }
                    },
                }
                proof {
                    let pre = old(self)@;
                    let app = app_name@;
                    assert(self@.store.rows =~= close_id(
                        pre.store.rows,
                        eid as int,
                        now as int,
                    ));
                    assert forall|a: Seq<char>| #[trigger]
                        self@.active.dom().contains(a) implies active_entry_ok(
                        self@.store.rows,
                        a,
                        self@.active[a],
                    ) by {
                        assert(pre.active.dom().contains(a) && a != app);
                        let w = choose|w: int|
                            0 <= w < pre.store.rows.len() && row_active_at(
                                #[trigger] pre.store.rows[w],
                                a,
                                pre.active[a],
                            );
                        if pre.store.rows[w].id == Some(eid as int) {
                            let u = choose|u: int|
                                0 <= u < pre.store.rows.len() && row_active_at(
                                    #[trigger] pre.store.rows[u],
                                    app,
                                    eid as int,
                                );
                            assert(pre.store.rows[u].id == pre.store.rows[w].id);
                            assert(u == w);
                        }
                        assert(self@.store.rows[w] == pre.store.rows[w]);
                        assert(row_active_at(self@.store.rows[w], a, self@.active[a]));
                    }
                }
                true
            },
            None => false,
        }
    }

    /// Closes every indexed running session at `now` and empties the
    /// index; used by pause, resume and shutdown. Closing one session
    /// cannot block closing the rest.
    pub fn end_all_active_sessions(&mut self, now: i64)
        requires
            old(self).wf(),
            0 <= now <= TS_MAX,
        ensures
            final(self).wf(),
            closes_all_indexed(old(self)@, final(self)@, now as int),
            final(self)@.active == Map::<Seq<char>, int>::empty(),
            final(self)@.tracking == old(self)@.tracking,
    {
        proof {
            lemma_assoc_map(self.active@);
        }
        let n = self.active.len();
        let ghost pre = old(self)@;
        let ghost entries = self.active@;
        let mut k: usize = 0;
        while k < n
            invariant
                0 <= now <= TS_MAX,
                n == entries.len(),
                k <= n,
                self.active@ == entries,
                keys_distinct(entries),
                self@.active == pre.active,
                self@.tracking == pre.tracking,
                self@.store.next_id == pre.store.next_id,
                self@.store.rows.len() == pre.store.rows.len(),
                store_wf(self@.store),
                mgr_inv(pre),
                pre.store == old(self)@.store,
                pre.active == assoc_map(entries),
                forall|i: int|
                    0 <= i < pre.store.rows.len() && (exists|l: int|
                        0 <= l < k && (#[trigger] pre.store.rows[i]).id == Some(
                            entries[l].1 as int,
                        )) ==> self@.store.rows[i] == closed_session(
                        pre.store.rows[i],
                        now as int,
                    ),
                forall|i: int|
                    0 <= i < pre.store.rows.len() && !(exists|l: int|
                        0 <= l < k && (#[trigger] pre.store.rows[i]).id == Some(
                            entries[l].1 as int,
                        )) ==> self@.store.rows[i] == pre.store.rows[i],
            decreases n - k,
        {
            let id = self.active[k].1;
            let ghost before = self@.store.rows;
            let _ = self.store.update_session(id, now);
            proof {
                assert forall|i: int|
                    0 <= i < pre.store.rows.len() && (exists|l: int|
                        0 <= l < k + 1 && (#[trigger] pre.store.rows[i]).id == Some(
                            entries[l].1 as int,
                        )) implies self@.store.rows[i] == closed_session(
                    pre.store.rows[i],
                    now as int,
                ) by {
                    let l = choose|l: int|
                        0 <= l < k + 1 && pre.store.rows[i].id == Some(entries[l].1 as int);
                    if pre.store.rows[i].id == Some(id as int) {
                        if before[i] == pre.store.rows[i] {
                        } else {
                            // already closed at `now`; closing again is the same
                            assert(before[i] == closed_session(pre.store.rows[i], now as int));
                            assert(before[i].id == pre.store.rows[i].id);
                            assert(self@.store.rows[i] == closed_session(before[i], now as int));
                            assert(closed_session(before[i], now as int) == closed_session(
                                pre.store.rows[i],
                                now as int,
                            ));
                        }
                    } else {
                        assert(l < k);
                        assert(before[i] == closed_session(pre.store.rows[i], now as int));
                        assert(before[i].id == pre.store.rows[i].id);
                    }
                }
                assert forall|i: int|
                    0 <= i < pre.store.rows.len() && !(exists|l: int|
                        0 <= l < k + 1 && (#[trigger] pre.store.rows[i]).id == Some(
                            entries[l].1 as int,
                        )) implies self@.store.rows[i] == pre.store.rows[i] by {
                    assert(pre.store.rows[i].id != Some(entries[k as int].1 as int));
                    assert(before[i] == pre.store.rows[i]);
                    assert(before[i].id != Some(id as int));
                }
            }
            k = k + 1;
        }
        self.active.clear();
        proof {
            lemma_assoc_map(entries);
            assert forall|i: int|
                0 <= i < pre.store.rows.len() implies ((exists|l: int|
                0 <= l < n && (#[trigger] pre.store.rows[i]).id == Some(entries[l].1 as int))
                <==> id_in_active(pre.active, pre.store.rows[i].id)) by {
                match pre.store.rows[i].id {
                    Some(rid) => {
                        if exists|l: int|
                            0 <= l < n && pre.store.rows[i].id == Some(entries[l].1 as int) {
                            let l = choose|l: int|
                                0 <= l < n && pre.store.rows[i].id == Some(entries[l].1 as int);
                            assert(assoc_map(entries).dom().contains(entries[l].0@));
                            assert(assoc_map(entries)[entries[l].0@] == entries[l].1 as int);
                        }
                        if id_in_active(pre.active, pre.store.rows[i].id) {
                            let a = choose|a: Seq<char>|
                                #[trigger] pre.active.dom().contains(a) && pre.active[a] == rid;
                            let l = choose|l: int| 0 <= l < entries.len() && entries[l].0@ == a;
                            assert(assoc_map(entries)[entries[l].0@] == entries[l].1 as int);
                            assert(pre.store.rows[i].id == Some(entries[l].1 as int));
                        }
                    },
                    None => {},
                }
            }
        }
    }

    /// Whether any session is currently indexed as running.
    pub fn has_active_sessions(&self) -> (r: bool)
        requires
            self.wf(),
        ensures
            r == exists|a: Seq<char>| #[trigger] self@.active.dom().contains(a),
    {
        proof {
            lemma_assoc_map(self.active@);
            if self.active@.len() > 0 {
                assert(self@.active.dom().contains(self.active@[0].0@));
            }
        }
        !self.active.is_empty()
    }

    /// Closes all active sessions, then turns tracking off.
    pub fn pause_tracking(&mut self, now: i64)
        requires
            old(self).wf(),
            0 <= now <= TS_MAX,
        ensures
            final(self).wf(),
            closes_all_indexed(old(self)@, final(self)@, now as int),
            final(self)@.active == Map::<Seq<char>, int>::empty(),
            final(self)@.tracking == false,
    {
        self.end_all_active_sessions(now);
        self.tracking = false;
    }

    /// Closes all active sessions, then turns tracking on.
    pub fn resume_tracking(&mut self, now: i64)
        requires
            old(self).wf(),
            0 <= now <= TS_MAX,
        ensures
            final(self).wf(),
            closes_all_indexed(old(self)@, final(self)@, now as int),
            final(self)@.active == Map::<Seq<char>, int>::empty(),
            final(self)@.tracking == true,
    {
        self.end_all_active_sessions(now);
        self.tracking = true;
    }

    /// Whether another session identity can still be assigned, i.e.
    /// whether `start_session` may be called.
    pub fn can_assign_id(&self) -> (r: bool)
        ensures
            r == (self@.store.next_id < i64::MAX as int),
    {
        self.store.can_assign_id()
    }

    /// Whether tracking is on.
    pub fn is_tracking(&self) -> (r: bool)
        ensures
            r == self@.tracking,
    {
        self.tracking
    }

    /// All sessions, most-recent-start-first.
    pub fn get_all_sessions(&self) -> (r: Vec<Session>)
        ensures
            rows_model(r@).to_multiset() == self@.store.rows.to_multiset(),
            sorted_by_start_desc(rows_model(r@)),
    {
        self.store.get_all_sessions()
    }

    /// The running sessions, most-recent-start-first.
    pub fn get_active_sessions(&self) -> (r: Vec<Session>)
        ensures
            sorted_by_start_desc(rows_model(r@)),
            forall|m: SessionModel|
                #[trigger] rows_model(r@).to_multiset().count(m) == if m.status
                    == SessionStatus::Running {
                    self@.store.rows.to_multiset().count(m)
                } else {
                    0
                },
    {
        self.store.get_active_sessions()
    }

    /// Startup recovery: closes, at `now`, every row still marked
    /// `Running` - a session the previous process run never ended, whether
    /// by crash or forced quit. Runs once, before tracking starts and
    /// before the active-index is populated.
    pub fn recover_orphaned_sessions(&mut self, now: i64)
        requires
            old(self).wf(),
            0 <= now <= TS_MAX,
            old(self)@.active == Map::<Seq<char>, int>::empty(),
        ensures
            final(self).wf(),
            recover_post(old(self)@, final(self)@, now as int),
    {
        self.store.close_all_running(now);
    }

    /// Routes one camera event into the session state: a Started event
    /// opens a session for its app (returning the new identity), a Stopped
    /// event closes the app's indexed session if it has one.
    pub fn apply_event(&mut self, event: &CameraEvent) -> (r: Option<i64>)
        requires
            old(self).wf(),
            0 <= ev_ts(*event) <= TS_MAX as int,
            old(self)@.store.next_id < i64::MAX as int,
        ensures
            final(self).wf(),
            match *event {
                CameraEvent::Started { .. } => match r {
                    Some(id) => start_session_post(
                        old(self)@,
                        final(self)@,
                        ev_app(*event),
                        ev_ts(*event),
                        id as int,
                    ),
                    None => false,
                },
                CameraEvent::Stopped { .. } => r is None && end_session_post(
                    old(self)@,
                    final(self)@,
                    ev_app(*event),
                    ev_ts(*event),
                    old(self)@.active.dom().contains(ev_app(*event)),
                ),
            },
    {
        match event {
            CameraEvent::Started { app_name, timestamp } => {
                Some(self.start_session(app_name.clone(), *timestamp))
            },
            CameraEvent::Stopped { app_name, timestamp } => {
                let _ = self.end_session_for_app(app_name.as_str(), *timestamp);
                None
            },
        }
    }
}

/// Session overlap: starting a session twice for the same app without an
/// intervening end closes the first session before opening the second.
/// Starting from a manager with no rows or index entry for the app, the
/// store afterwards holds exactly two more rows for that app: the first,
/// `Completed` with the second start as its end time, and the second,
/// `Running`; no other row mentions the app.
pub proof fn lemma_session_overlap(
    pre: ManagerModel,
    mid: ManagerModel,
    post: ManagerModel,
    app: Seq<char>,
    t1: int,
    t2: int,
    id1: int,
    id2: int,
)
    requires
        mgr_inv(pre),
        !pre.active.dom().contains(app),
        forall|i: int| 0 <= i < pre.store.rows.len() ==> (#[trigger] pre.store.rows[i]).app_name
            != app,
        start_session_post(pre, mid, app, t1, id1),
        start_session_post(mid, post, app, t2, id2),
    ensures
        post.store.rows.len() == pre.store.rows.len() + 2,
        id1 != id2,
        post.store.rows[post.store.rows.len() - 2] == closed_session(
            new_running_session(app, t1, id1),
            t2,
        ),
        post.store.rows[post.store.rows.len() - 2].status == SessionStatus::Completed,
        post.store.rows[post.store.rows.len() - 2].end_time == Some(t2),
        post.store.rows.last() == new_running_session(app, t2, id2),
        post.store.rows.last().status == SessionStatus::Running,
        forall|i: int|
            0 <= i < post.store.rows.len() - 2 ==> (#[trigger] post.store.rows[i]).app_name
                != app,
{
    let row1 = new_running_session(app, t1, id1);
    assert(mid.store.rows == pre.store.rows.push(row1));
    assert(mid.active.dom().contains(app) && mid.active[app] == id1);
    let base = close_id(mid.store.rows, id1, t2);
    assert(post.store.rows == base.push(new_running_session(app, t2, id2)));
    let n = pre.store.rows.len() as int;
    assert forall|i: int| 0 <= i < n implies base[i] == pre.store.rows[i] by {
        assert(mid.store.rows[i] == pre.store.rows[i]);
        assert(row_id_ok(pre.store.rows[i], pre.store.next_id));
        assert(pre.store.rows[i].id != Some(id1));
    }
    assert(mid.store.rows[n] == row1);
    assert(base[n] == closed_session(row1, t2));
    assert(post.store.rows[post.store.rows.len() - 2] == closed_session(row1, t2));
}

/// Recovery: after `recover_orphaned_sessions`, no row is left `Running` -
/// every orphaned row is now `Completed` with the recovery time as its end
/// time and a duration of at least zero - and no row was added or lost.
pub proof fn lemma_recovery_closes_orphans(pre: ManagerModel, post: ManagerModel, now: int)
    requires
        mgr_inv(pre),
        recover_post(pre, post, now),
    ensures
        post.store.rows.len() == pre.store.rows.len(),
        forall|i: int|
            0 <= i < post.store.rows.len() ==> (#[trigger] post.store.rows[i]).status
                == SessionStatus::Completed || pre.store.rows[i].status != SessionStatus::Running,
        forall|i: int|
            0 <= i < pre.store.rows.len() && (#[trigger] pre.store.rows[i]).status
                == SessionStatus::Running ==> post.store.rows[i].end_time == Some(now)
                && (match post.store.rows[i].duration_secs {
                Some(d) => d >= 0,
                None => false,
            }),
{
    assert forall|i: int|
        0 <= i < pre.store.rows.len() && (#[trigger] pre.store.rows[i]).status
            == SessionStatus::Running implies post.store.rows[i].end_time == Some(now) && (
    match post.store.rows[i].duration_secs {
        Some(d) => d >= 0,
        None => false,
    }) by {
        assert(post.store.rows[i] == closed_session(pre.store.rows[i], now));
    }
}

/// Every `Running` row of the store is indexed under its app name. This
/// holds from recovery on and is preserved by every session operation; it
/// is what makes the index a faithful cache of the running sessions.
pub open spec fn running_rows_indexed(m: ManagerModel) -> bool {
    forall|i: int|
        0 <= i < m.store.rows.len() && (#[trigger] m.store.rows[i]).status
            == SessionStatus::Running ==> m.active.dom().contains(m.store.rows[i].app_name)
            && m.store.rows[i].id == Some(m.active[m.store.rows[i].app_name])
}

/// At most one running session per app name: when every running row is
/// indexed, no two running rows can share an app name, because the index
/// binds each app name to a single identity and identities are unique.
pub proof fn lemma_at_most_one_running(m: ManagerModel)
    requires
        mgr_inv(m),
        running_rows_indexed(m),
    ensures
        forall|i: int, j: int|
            0 <= i < j < m.store.rows.len() && (#[trigger] m.store.rows[i]).status
                == SessionStatus::Running && (#[trigger] m.store.rows[j]).status
                == SessionStatus::Running ==> m.store.rows[i].app_name
                != m.store.rows[j].app_name,
{
    assert forall|i: int, j: int|
        0 <= i < j < m.store.rows.len() && (#[trigger] m.store.rows[i]).status
            == SessionStatus::Running && (#[trigger] m.store.rows[j]).status
            == SessionStatus::Running implies m.store.rows[i].app_name
        != m.store.rows[j].app_name by {
        if m.store.rows[i].app_name == m.store.rows[j].app_name {
            assert(m.store.rows[i].id == m.store.rows[j].id);
        }
    }
}

/// Recovery establishes the indexing invariant: it leaves no row
/// `Running` at all, and the index is still empty.
pub proof fn lemma_recovery_establishes_indexing(
    pre: ManagerModel,
    post: ManagerModel,
    now: int,
)
    requires
        recover_post(pre, post, now),
        pre.active == Map::<Seq<char>, int>::empty(),
    ensures
        running_rows_indexed(post),
{
    assert forall|i: int|
        0 <= i < post.store.rows.len() implies (#[trigger] post.store.rows[i]).status
        != SessionStatus::Running by {
        if pre.store.rows[i].status == SessionStatus::Running {
            assert(post.store.rows[i] == closed_session(pre.store.rows[i], now));
        } else {
            assert(post.store.rows[i] == pre.store.rows[i]);
        }
    }
}

/// Starting a session preserves the indexing invariant: the new row is
/// indexed under its app, the app's previous row (if any) is closed, and
/// every other running row keeps its entry.
pub proof fn lemma_start_session_preserves_indexing(
    pre: ManagerModel,
    post: ManagerModel,
    app: Seq<char>,
    now: int,
    ret: int,
)
    requires
        mgr_inv(pre),
        running_rows_indexed(pre),
        start_session_post(pre, post, app, now, ret),
    ensures
        running_rows_indexed(post),
{
    let base = if pre.active.dom().contains(app) {
        close_id(pre.store.rows, pre.active[app], now)
    } else {
        pre.store.rows
    };
    let nr = new_running_session(app, now, ret);
    assert(post.store.rows == base.push(nr));
    assert forall|i: int|
        0 <= i < post.store.rows.len() && (#[trigger] post.store.rows[i]).status
            == SessionStatus::Running implies post.active.dom().contains(
        post.store.rows[i].app_name,
    ) && post.store.rows[i].id == Some(post.active[post.store.rows[i].app_name]) by {
        if i == post.store.rows.len() - 1 {
            assert(post.store.rows[i] == nr);
        } else {
            assert(post.store.rows[i] == base[i]);
            if pre.active.dom().contains(app) {
                let eid = pre.active[app];
                if pre.store.rows[i].id == Some(eid) {
                    assert(base[i] == closed_session(pre.store.rows[i], now));
                    assert(base[i].status != SessionStatus::Running);
                } else {
                    assert(base[i] == pre.store.rows[i]);
                    assert(pre.store.rows[i].status == SessionStatus::Running);
                    // The row's app cannot be the started app: that app's
                    // running row carries the closed identity.
                    if pre.store.rows[i].app_name == app {
                        assert(pre.store.rows[i].id == Some(eid));
                    }
                }
            } else {
                assert(base[i] == pre.store.rows[i]);
                if pre.store.rows[i].status == SessionStatus::Running {
                    assert(pre.active.dom().contains(pre.store.rows[i].app_name));
                    assert(pre.store.rows[i].app_name != app);
                }
            }
        }
    }
}

/// Ending an app's session preserves the indexing invariant: only that
/// app's row loses its `Running` status, and only its entry is dropped.
pub proof fn lemma_end_session_preserves_indexing(
    pre: ManagerModel,
    post: ManagerModel,
    app: Seq<char>,
    now: int,
    closed: bool,
)
    requires
        mgr_inv(pre),
        running_rows_indexed(pre),
        end_session_post(pre, post, app, now, closed),
    ensures
        running_rows_indexed(post),
{
    if closed {
        let eid = pre.active[app];
        assert forall|i: int|
            0 <= i < post.store.rows.len() && (#[trigger] post.store.rows[i]).status
                == SessionStatus::Running implies post.active.dom().contains(
            post.store.rows[i].app_name,
        ) && post.store.rows[i].id == Some(post.active[post.store.rows[i].app_name]) by {
            if pre.store.rows[i].id == Some(eid) {
                assert(post.store.rows[i] == closed_session(pre.store.rows[i], now));
                assert(post.store.rows[i].status != SessionStatus::Running);
            } else {
                assert(post.store.rows[i] == pre.store.rows[i]);
                if pre.store.rows[i].app_name == app {
                    assert(pre.store.rows[i].id == Some(eid));
                }
            }
        }
    }
}

/// Closing all indexed sessions leaves no running row at all: every
/// running row was indexed, and every indexed row gets closed.
pub proof fn lemma_end_all_leaves_nothing_running(
    pre: ManagerModel,
    post: ManagerModel,
    now: int,
)
    requires
        mgr_inv(pre),
        running_rows_indexed(pre),
        closes_all_indexed(pre, post, now),
    ensures
        forall|i: int|
            0 <= i < post.store.rows.len() ==> (#[trigger] post.store.rows[i]).status
                != SessionStatus::Running,
{
    assert forall|i: int|
        0 <= i < post.store.rows.len() implies (#[trigger] post.store.rows[i]).status
        != SessionStatus::Running by {
        if pre.store.rows[i].status == SessionStatus::Running {
            assert(pre.active.dom().contains(pre.store.rows[i].app_name));
            assert(id_in_active(pre.active, pre.store.rows[i].id));
            assert(post.store.rows[i] == closed_session(pre.store.rows[i], now));
        } else {
            if id_in_active(pre.active, pre.store.rows[i].id) {
                assert(post.store.rows[i] == closed_session(pre.store.rows[i], now));
            } else {
                assert(post.store.rows[i] == pre.store.rows[i]);
            }
        }
    }
}

/// Ending a session for an app with no indexed running session reports
/// that no session was closed and mutates nothing.
pub proof fn lemma_end_session_no_active(
    pre: ManagerModel,
    post: ManagerModel,
    app: Seq<char>,
    now: int,
    closed: bool,
)
    requires
        end_session_post(pre, post, app, now, closed),
        !pre.active.dom().contains(app),
    ensures
        !closed,
        post == pre,
{
}

} // verus!
