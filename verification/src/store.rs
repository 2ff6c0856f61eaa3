//! The session store: an in-memory table mirroring the persisted
//! single-table schema `sessions(id autoincrement, app_name, start_time,
//! end_time, duration_secs, status)`. Row identities are assigned on
//! insert and never reused; queries return rows most-recent-start-first.
//! Durable persistence shuttles rows in and out of this table through
//! their string form (`SessionDto`).

use vstd::prelude::*;
use crate::session::{
    closed_session, valid_session, Session, SessionModel, SessionStatus,
};
use crate::timefmt::TS_MAX;
use vstd::pervasive::VecAdditionalExecFns;
use vstd::multiset::Multiset;

verus! {

broadcast use vstd::seq_lib::group_to_multiset_ensures;

/// Mathematical model of the store: the rows in insertion order and the
/// next identity to assign.
pub ghost struct StoreModel {
    pub rows: Seq<SessionModel>,
    pub next_id: int,
}

/// The models of a vector of sessions.
pub open spec fn rows_model(v: Seq<Session>) -> Seq<SessionModel> {
    v.map_values(|s: Session| s@)
}

/// A row's identity is assigned and smaller than the next to assign.
pub open spec fn row_id_ok(s: SessionModel, next_id: int) -> bool {
    match s.id {
        Some(i) => 1 <= i < next_id,
        None => false,
    }
}

/// The store invariant: every row valid with an assigned identity below
/// `next_id`, and no two rows sharing an identity.
pub open spec fn store_wf(m: StoreModel) -> bool {
    &&& 1 <= m.next_id <= i64::MAX as int
    &&& (forall|i: int| 0 <= i < m.rows.len() ==> valid_session(#[trigger] m.rows[i]))
    &&& (forall|i: int| 0 <= i < m.rows.len() ==> row_id_ok(#[trigger] m.rows[i], m.next_id))
    &&& (forall|i: int, j: int| 0 <= i < j < m.rows.len() ==> m.rows[i].id != m.rows[j].id)
}

/// Rows ordered most-recent-start-first.
pub open spec fn sorted_by_start_desc(rows: Seq<SessionModel>) -> bool {
    forall|i: int, j: int| 0 <= i < j < rows.len() ==> rows[i].start_time >= rows[j].start_time
}

/// The in-memory sessions table.
pub struct SessionStore {
    rows: Vec<Session>,
    next_id: i64,
}

impl View for SessionStore {
    type V = StoreModel;

    closed spec fn view(&self) -> StoreModel {
        StoreModel { rows: rows_model(self.rows@), next_id: self.next_id as int }
    }
}

/// Copies a vector of sessions, row models preserved.
fn clone_rows(v: &Vec<Session>) -> (r: Vec<Session>)
    ensures
        rows_model(r@) == rows_model(v@),
{
    let mut out: Vec<Session> = Vec::new();
    let n = v.len();
    let mut i: usize = 0;
    while i < n
        invariant
            n == v@.len(),
            i <= n,
            out@.len() == i,
            forall|j: int| 0 <= j < i ==> out@[j]@ == v@[j]@,
        decreases n - i,
    {
        out.push(v[i].clone());
        i = i + 1;
    }
    proof {
        assert(rows_model(out@) =~= rows_model(v@));
    }
    out
}

/// Sorts sessions most-recent-start-first. The result is a permutation of
/// the input: same rows, same multiplicities.
fn sort_sessions_desc(v: Vec<Session>) -> (r: Vec<Session>)
    ensures
        rows_model(r@).to_multiset() == rows_model(v@).to_multiset(),
        sorted_by_start_desc(rows_model(r@)),
{
    let ghost orig = rows_model(v@);
    let mut src = v;
    let mut out: Vec<Session> = Vec::new();
    while src.len() > 0
        invariant
            rows_model(out@).to_multiset().add(rows_model(src@).to_multiset())
                =~= orig.to_multiset(),
            sorted_by_start_desc(rows_model(out@)),
            forall|i: int, j: int|
                0 <= i < out@.len() && 0 <= j < src@.len() ==> out@[i]@.start_time
                    >= src@[j]@.start_time,
        decreases src.len(),
    {
        let n = src.len();
        let mut best: usize = 0;
        let mut k: usize = 1;
        while k < n
            invariant
                n == src@.len(),
                0 < n,
                best < k <= n || (best == 0 && k <= n),
                best < n,
                forall|l: int| 0 <= l < k ==> src@[l]@.start_time <= src@[best as int]@.start_time,
            decreases n - k,
        {
            if src[k].start_time > src[best].start_time {
                best = k;
            }
            k = k + 1;
        }
        let ghost pre_src = rows_model(src@);
        let ghost pre_out = rows_model(out@);
        let ghost picked = pre_src[best as int];
        let row = src.remove(best);
        out.push(row);
        proof {
            assert(rows_model(src@) =~= pre_src.remove(best as int));
            assert(rows_model(out@) =~= pre_out.push(picked));
            assert(pre_src.contains(picked)) by {
                assert(pre_src[best as int] == picked);
            }
            assert(pre_src.to_multiset().count(picked) > 0);
            assert(rows_model(out@).to_multiset() =~= pre_out.to_multiset().insert(picked));
            assert(rows_model(src@).to_multiset() =~= pre_src.to_multiset().remove(picked));
            assert(rows_model(out@).to_multiset().add(rows_model(src@).to_multiset())
                =~= orig.to_multiset());
        }
    }
    proof {
        assert(rows_model(src@).to_multiset() =~= Multiset::<SessionModel>::empty());
        assert(rows_model(out@).to_multiset().add(Multiset::empty()) =~= rows_model(
            out@,
        ).to_multiset());
    }
    out
}

impl SessionStore {
    /// An empty store; the first identity to assign is 1, as the
    /// autoincrement schema does.
    pub fn new() -> (r: SessionStore)
        ensures
            r@.rows.len() == 0,
            r@.next_id == 1,
            store_wf(r@),
    {
        SessionStore { rows: Vec::new(), next_id: 1 }
    }

    /// Inserts a new session, assigning it the next identity; returns that
    /// identity. The row is appended unchanged but for the identity.
    pub fn insert_session(&mut self, session: &Session) -> (id: i64)
        requires
            store_wf(old(self)@),
            valid_session(session@),
            session@.id is None,
            old(self)@.next_id < i64::MAX as int,
        ensures
            store_wf(final(self)@),
            id as int == old(self)@.next_id,
            final(self)@.next_id == old(self)@.next_id + 1,
            final(self)@.rows == old(self)@.rows.push(
                SessionModel { id: Some(id as int), ..session@ },
            ),
    {
        let id = self.next_id;
        self.next_id = self.next_id + 1;
        let mut row = session.clone();
        row.id = Some(id);
        self.rows.push(row);
        proof {
            assert(self@.rows =~= old(self)@.rows.push(
                SessionModel { id: Some(id as int), ..session@ },
            ));
        }
        id
    }

    /// Closes the row with the given identity at `end_time`: sets its end
    /// time, duration and `Completed` status; every other row is left
    /// untouched. Returns whether such a row existed.
    pub fn update_session(&mut self, id: i64, end_time: i64) -> (found: bool)
        requires
            store_wf(old(self)@),
            0 <= end_time <= TS_MAX,
        ensures
            store_wf(final(self)@),
            final(self)@.next_id == old(self)@.next_id,
            final(self)@.rows.len() == old(self)@.rows.len(),
            found == (exists|i: int|
                0 <= i < old(self)@.rows.len() && (#[trigger] old(self)@.rows[i]).id == Some(
                    id as int,
                )),
            forall|i: int|
                0 <= i < old(self)@.rows.len() && (#[trigger] old(self)@.rows[i]).id != Some(
                    id as int,
                ) ==> final(self)@.rows[i] == old(self)@.rows[i],
            forall|i: int|
                0 <= i < old(self)@.rows.len() && (#[trigger] old(self)@.rows[i]).id == Some(
                    id as int,
                ) ==> final(self)@.rows[i] == closed_session(old(self)@.rows[i], end_time as int),
    {
        let n = self.rows.len();
        let mut i: usize = 0;
        while i < n
            invariant
                store_wf(old(self)@),
                0 <= end_time <= TS_MAX,
                n == self.rows@.len(),
                i <= n,
                self@.next_id == old(self)@.next_id,
                self@.rows.len() == old(self)@.rows.len(),
                *self == *old(self),
                forall|j: int|
                    0 <= j < i ==> (#[trigger] old(self)@.rows[j]).id != Some(id as int),
            decreases n - i,
        {
            let hit = match self.rows[i].id {
                Some(x) => x == id,
                None => false,
            };
            if hit {
                proof {
                    assert(old(self)@.rows[i as int] == self.rows@[i as int]@);
                }
                let mut row = self.rows[i].clone();
                row.close(end_time);
                self.rows.set(i, row);
                proof {
                    assert forall|j: int|
                        0 <= j < old(self)@.rows.len() && (#[trigger] old(self)@.rows[j]).id
                            != Some(id as int) implies self@.rows[j] == old(self)@.rows[j] by {
                        assert(self.rows@[j]@ == old(self).rows@[j]@);
                    }
                    assert(self@.rows[i as int] == closed_session(
                        old(self)@.rows[i as int],
                        end_time as int,
                    ));
                    assert forall|j: int|
                        0 <= j < old(self)@.rows.len() && (#[trigger] old(self)@.rows[j]).id
                            == Some(id as int) implies self@.rows[j] == closed_session(
                        old(self)@.rows[j],
                        end_time as int,
                    ) by {
                        if j != i {
                            assert(old(self)@.rows[j].id != old(self)@.rows[i as int].id);
                        }
                    }
                    assert forall|j: int|
                        0 <= j < self@.rows.len() implies valid_session(#[trigger] self@.rows[j])
                            && row_id_ok(self@.rows[j], self@.next_id) by {
                        assert(valid_session(old(self)@.rows[j]));
                        if old(self)@.rows[j].id == Some(id as int) {
                            assert(self@.rows[j] == closed_session(
                                old(self)@.rows[j],
                                end_time as int,
                            ));
                        }
                    }
                    assert forall|j: int, k: int|
                        0 <= j < k < self@.rows.len() implies self@.rows[j].id
                        != self@.rows[k].id by {
                        assert(self@.rows[j].id == old(self)@.rows[j].id);
                        assert(self@.rows[k].id == old(self)@.rows[k].id);
                    }
                    assert(store_wf(self@));
                }
                return true;
            }
            i = i + 1;
        }
        false
    }

    /// Closes every `Running` row at `now`; used by startup recovery to
    /// complete sessions orphaned by an unclean shutdown.
    pub fn close_all_running(&mut self, now: i64)
        requires
            store_wf(old(self)@),
            0 <= now <= TS_MAX,
        ensures
            store_wf(final(self)@),
            final(self)@.next_id == old(self)@.next_id,
            final(self)@.rows.len() == old(self)@.rows.len(),
            forall|i: int|
                0 <= i < old(self)@.rows.len() && (#[trigger] old(self)@.rows[i]).status
                    == SessionStatus::Running ==> final(self)@.rows[i] == closed_session(
                    old(self)@.rows[i],
                    now as int,
                ),
            forall|i: int|
                0 <= i < old(self)@.rows.len() && (#[trigger] old(self)@.rows[i]).status
                    != SessionStatus::Running ==> final(self)@.rows[i] == old(self)@.rows[i],
    {
        let n = self.rows.len();
        let mut i: usize = 0;
        while i < n
            invariant
                0 <= now <= TS_MAX,
                n == self.rows@.len(),
                i <= n,
                self@.next_id == old(self)@.next_id,
                self@.rows.len() == old(self)@.rows.len(),
                store_wf(self@),
                forall|j: int|
                    i <= j < n ==> #[trigger] self@.rows[j] == old(self)@.rows[j],
                forall|j: int|
                    0 <= j < i && (#[trigger] old(self)@.rows[j]).status == SessionStatus::Running
                        ==> self@.rows[j] == closed_session(old(self)@.rows[j], now as int),
                forall|j: int|
                    0 <= j < i && (#[trigger] old(self)@.rows[j]).status != SessionStatus::Running
                        ==> self@.rows[j] == old(self)@.rows[j],
            decreases n - i,
        {
            let is_running = matches!(self.rows[i].status, SessionStatus::Running);
            if is_running {
                let ghost pre = self@.rows;
                let mut row = self.rows[i].clone();
                row.close(now);
                self.rows.set(i, row);
                proof {
                    assert forall|j: int| 0 <= j < n && j != i implies #[trigger] self@.rows[j]
                        == pre[j] by {
                        assert(self.rows@[j]@ == pre[j]);
                    }
                    assert(self@.rows[i as int] == closed_session(pre[i as int], now as int));
                }
            }
            i = i + 1;
        }
    }

    /// All rows, ordered most-recent-start-first: a sorted permutation of
    /// the table.
    pub fn get_all_sessions(&self) -> (r: Vec<Session>)
        ensures
            rows_model(r@).to_multiset() == self@.rows.to_multiset(),
            sorted_by_start_desc(rows_model(r@)),
    {
        sort_sessions_desc(clone_rows(&self.rows))
    }

    /// The `Running` rows, ordered most-recent-start-first: exactly the
    /// rows whose status is `Running`, with their multiplicities.
    pub fn get_active_sessions(&self) -> (r: Vec<Session>)
        ensures
            sorted_by_start_desc(rows_model(r@)),
            forall|m: SessionModel|
                #[trigger] rows_model(r@).to_multiset().count(m) == if m.status
                    == SessionStatus::Running {
                    self@.rows.to_multiset().count(m)
                } else {
                    0
                },
    {
        let n = self.rows.len();
        let mut running: Vec<Session> = Vec::new();
        let mut i: usize = 0;
        while i < n
            invariant
                n == self.rows@.len(),
                i <= n,
                forall|m: SessionModel|
                    #[trigger] rows_model(running@).to_multiset().count(m) == if m.status
                        == SessionStatus::Running {
                        self@.rows.subrange(0, i as int).to_multiset().count(m)
                    } else {
                        0
                    },
            decreases n - i,
        {
            let ghost pre = rows_model(running@);
            let ghost prefix = self@.rows.subrange(0, i as int);
            let ghost cur = self@.rows[i as int];
            proof {
                assert(cur == self.rows@[i as int]@);
                assert(self@.rows.subrange(0, i + 1) =~= prefix.push(cur));
                assert(self@.rows.subrange(0, i + 1).to_multiset() =~= prefix.to_multiset()
                    .insert(cur));
            }
            if matches!(self.rows[i].status, SessionStatus::Running) {
                running.push(self.rows[i].clone());
                proof {
                    assert(rows_model(running@) =~= pre.push(cur));
                    assert(rows_model(running@).to_multiset() =~= pre.to_multiset().insert(cur));
                }
            }
            i = i + 1;
        }
        proof {
            assert(self@.rows.subrange(0, n as int) =~= self@.rows);
        }
        sort_sessions_desc(running)
    }

    /// The most recently started `Running` row, if any.
    pub fn get_active_session(&self) -> (r: Option<Session>)
        ensures
            match r {
                Some(s) => {
                    &&& s@.status == SessionStatus::Running
                    &&& self@.rows.contains(s@)
                    &&& forall|i: int|
                        0 <= i < self@.rows.len() && (#[trigger] self@.rows[i]).status
                            == SessionStatus::Running ==> self@.rows[i].start_time
                            <= s@.start_time
                },
                None => forall|i: int|
                    0 <= i < self@.rows.len() ==> (#[trigger] self@.rows[i]).status
                        != SessionStatus::Running,
            },
    {
        let n = self.rows.len();
        let mut found: Option<usize> = None;
        let mut i: usize = 0;
        while i < n
            invariant
                n == self.rows@.len(),
                i <= n,
                match found {
                    Some(b) => {
                        &&& b < i
                        &&& self@.rows[b as int].status == SessionStatus::Running
                        &&& forall|j: int|
                            0 <= j < i && (#[trigger] self@.rows[j]).status
                                == SessionStatus::Running ==> self@.rows[j].start_time
                                <= self@.rows[b as int].start_time
                    },
                    None => forall|j: int|
                        0 <= j < i ==> (#[trigger] self@.rows[j]).status
                            != SessionStatus::Running,
                },
            decreases n - i,
        {
            if matches!(self.rows[i].status, SessionStatus::Running) {
                let better = match found {
                    Some(b) => self.rows[i].start_time > self.rows[b].start_time,
                    None => true,
                };
                if better {
                    found = Some(i);
                }
            }
            i = i + 1;
        }
        match found {
            Some(b) => {
                let row = self.rows[b].clone();
                proof {
                    assert(self@.rows[b as int] == row@);
                }
                Some(row)
            },
            None => None,
        }
    }

    /// Rebuilds a store from previously persisted rows. A row is kept when
    /// it is valid, carries an identity in `[1, i64::MAX)` not already
    /// kept; any other row is skipped so one bad row cannot block loading
    /// the rest. When the input is already well-formed every row is kept,
    /// in order.
    pub fn from_rows(rows: Vec<Session>) -> (r: SessionStore)
        ensures
            store_wf(r@),
            r@.rows.len() <= rows_model(rows@).len(),
            forall|i: int|
                0 <= i < r@.rows.len() ==> rows_model(rows@).contains(#[trigger] r@.rows[i]),
            clean_rows(rows_model(rows@)) ==> r@.rows == rows_model(rows@),
    {
        let n = rows.len();
        let mut store = SessionStore { rows: Vec::new(), next_id: 1 };
        let mut i: usize = 0;
        while i < n
            invariant
                n == rows@.len(),
                i <= n,
                store_wf(store@),
                store@.rows.len() <= i,
                forall|j: int|
                    0 <= j < store@.rows.len() ==> rows_model(rows@).contains(
                        #[trigger] store@.rows[j],
                    ),
                clean_rows(rows_model(rows@)) ==> store@.rows == rows_model(rows@).subrange(
                    0,
                    i as int,
                ),
            decreases n - i,
        {
            let ghost pre = store@.rows;
            let row = &rows[i];
            let id_ok = match row.id {
                Some(id) => 1 <= id && id < i64::MAX && !store.has_id(id),
                None => false,
            };
            if id_ok && row.is_valid() {
                let id = match row.id {
                    Some(id) => id,
                    None => 1,
                };
                let copy = row.clone();
                store.rows.push(copy);
                if id >= store.next_id {
                    store.next_id = id + 1;
                }
                proof {
                    assert(store@.rows =~= pre.push(rows@[i as int]@));
                    assert(rows_model(rows@)[i as int] == rows@[i as int]@);
                    assert forall|j: int, k: int|
                        0 <= j < k < store@.rows.len() implies store@.rows[j].id
                        != store@.rows[k].id by {}
                }
            } else {
                proof {
                    if clean_rows(rows_model(rows@)) {
                        let m = rows_model(rows@)[i as int];
                        assert(valid_session(m) && match m.id {
                            Some(v) => 1 <= v < i64::MAX as int,
                            None => false,
                        });
                        if id_ok {
                        } else {
                            let id = m.id->0;
                            if exists|j: int|
                                0 <= j < pre.len() && (#[trigger] pre[j]).id == Some(id) {
                                let j = choose|j: int|
                                    0 <= j < pre.len() && (#[trigger] pre[j]).id == Some(id);
                                assert(rows_model(rows@)[j] == pre[j]);
                                assert(false);
                            }
                        }
                    }
                }
            }
            proof {
                if clean_rows(rows_model(rows@)) {
                    assert(store@.rows =~= rows_model(rows@).subrange(0, i + 1));
                }
            }
            i = i + 1;
        }
        proof {
            if clean_rows(rows_model(rows@)) {
                assert(rows_model(rows@).subrange(0, n as int) =~= rows_model(rows@));
            }
        }
        store
    }

    /// Whether another identity can still be assigned.
    pub fn can_assign_id(&self) -> (r: bool)
        ensures
            r == (self@.next_id < i64::MAX as int),
    {
        self.next_id < i64::MAX
    }

    /// Whether some row already carries this identity.
    fn has_id(&self, id: i64) -> (r: bool)
        ensures
            r == (exists|i: int|
                0 <= i < self@.rows.len() && (#[trigger] self@.rows[i]).id == Some(id as int)),
    {
        let n = self.rows.len();
        let mut i: usize = 0;
        while i < n
            invariant
                n == self.rows@.len(),
                i <= n,
                forall|j: int|
                    0 <= j < i ==> (#[trigger] self@.rows[j]).id != Some(id as int),
            decreases n - i,
        {
            let hit = match self.rows[i].id {
                Some(x) => x == id,
                None => false,
            };
            if hit {
                proof {
                    assert(self@.rows[i as int] == self.rows@[i as int]@);
                    assert(self@.rows[i as int].id == Some(id as int));
                }
                return true;
            }
            i = i + 1;
        }
        false
    }
}

/// Every row valid, with an identity in `[1, i64::MAX)`, no identity used
/// twice: the shape rows written by this library always have.
pub open spec fn clean_rows(rows: Seq<SessionModel>) -> bool {
    &&& (forall|i: int| 0 <= i < rows.len() ==> valid_session(#[trigger] rows[i]))
    &&& (forall|i: int|
        0 <= i < rows.len() ==> match (#[trigger] rows[i]).id {
            Some(v) => 1 <= v < i64::MAX as int,
            None => false,
        })
    &&& (forall|i: int, j: int| 0 <= i < j < rows.len() ==> rows[i].id != rows[j].id)
}

} // verus!
