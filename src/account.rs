//! The accounts relation and the two writes that carry its rules: insertion,
//! which refuses a second row for a username, and the conditional score
//! update, which writes only a score at least the stored one.
use vstd::prelude::*;

verus! {

/// An account row. Times are seconds since the Unix epoch.
pub struct User {
    pub username: String,
    pub email: String,
    pub created: u64,
    pub modified: u64,
    pub banned: bool,
    pub score: u64,
    pub hash: String,
}

/// The contents of an account row.
pub struct UserView {
    pub username: Seq<char>,
    pub email: Seq<char>,
    pub created: u64,
    pub modified: u64,
    pub banned: bool,
    pub score: u64,
    pub hash: Seq<char>,
}

impl View for User {
    type V = UserView;

    open spec fn view(&self) -> UserView {
        UserView {
            username: self.username@,
            email: self.email@,
            created: self.created,
            modified: self.modified,
            banned: self.banned,
            score: self.score,
            hash: self.hash@,
        }
    }
}

impl User {
    /// A copy of this row.
    pub fn copy(&self) -> (r: User)
        ensures
            r@ == self@,
    {
        User {
            username: self.username.clone(),
            email: self.email.clone(),
            created: self.created,
            modified: self.modified,
            banned: self.banned,
            score: self.score,
            hash: self.hash.clone(),
        }
    }
}

/// Why the store refused a write.
#[derive(Clone, Copy, Debug, PartialEq, Eq, Structural)]
pub enum StoreError {
    /// A row with that username exists already.
    UniqueViolation,
}

/// No two rows share a username.
pub open spec fn names_unique(rows: Seq<UserView>) -> bool {
    forall|i: int, j: int| 0 <= i < rows.len() && 0 <= j < rows.len() && i != j
        ==> #[trigger] rows[i].username != #[trigger] rows[j].username
}

/// Some row has username `name`.
pub open spec fn has_user(rows: Seq<UserView>, name: Seq<char>) -> bool {
    exists|i: int| 0 <= i < rows.len() && #[trigger] rows[i].username == name
}

/// The row a new account starts as.
pub open spec fn new_row(username: Seq<char>, email: Seq<char>, hash: Seq<char>, now: u64) -> UserView {
    UserView { username, email, created: now, modified: now, banned: false, score: 0, hash }
}

/// The conditional write applies: the row for `name` exists, is not banned,
/// and its score is at most `new_score`.
pub open spec fn cas_applies(rows: Seq<UserView>, name: Seq<char>, new_score: u64) -> bool {
    exists|i: int| 0 <= i < rows.len() && #[trigger] rows[i].username == name && !rows[i].banned && rows[i].score <= new_score
}

/// The rows after `UPDATE SET score = new_score WHERE username = name AND
/// banned = FALSE AND score <= new_score` at time `now`.
pub open spec fn cas_rows(rows: Seq<UserView>, name: Seq<char>, new_score: u64, now: u64) -> Seq<UserView> {
    Seq::new(rows.len(), |i: int|
        if rows[i].username == name && !rows[i].banned && rows[i].score <= new_score {
            UserView { score: new_score, modified: now, ..rows[i] }
        } else {
            rows[i]
        })
}

/// Index `j` stands somewhere in `order`.
pub open spec fn lists(order: Seq<usize>, j: int) -> bool {
    exists|k: int| 0 <= k < order.len() && #[trigger] order[k] == j
}

/// `order` lists every row index exactly once, highest score first.
pub open spec fn ranked(rows: Seq<UserView>, order: Seq<usize>) -> bool {
    &&& order.len() == rows.len()
    &&& forall|k: int| 0 <= k < order.len() ==> #[trigger] order[k] < rows.len()
    &&& forall|a: int, b: int| 0 <= a < order.len() && 0 <= b < order.len() && a != b ==> #[trigger] order[a] != #[trigger] order[b]
    &&& forall|j: int| 0 <= j < rows.len() ==> #[trigger] lists(order, j)
    &&& forall|a: int, b: int| 0 <= a < b < order.len() ==> rows[#[trigger] order[a] as int].score >= rows[#[trigger] order[b] as int].score
}

/// The accounts, one row per username.
pub struct AccountStore {
    pub rows: Vec<User>,
}

impl View for AccountStore {
    type V = Seq<UserView>;

    open spec fn view(&self) -> Seq<UserView> {
        self.rows@.map_values(|u: User| u@)
    }
}

impl AccountStore {
    pub open spec fn wf(&self) -> bool {
        names_unique(self@)
    }

    /// A store with no accounts.
    pub fn new() -> (r: AccountStore)
        ensures
            r@ == Seq::<UserView>::empty(),
            r.wf(),
    {
        let r = AccountStore { rows: Vec::new() };
        assert(r@ =~= Seq::<UserView>::empty());
        r
    }

    /// Index of the row for `name`.
    pub fn position(&self, name: &String) -> (r: Option<usize>)
        ensures
            match r {
                Some(i) => i < self@.len() && self@[i as int].username == name@,
                None => !has_user(self@, name@),
            },
    {
        let mut i: usize = 0;
        while i < self.rows.len()
            invariant
                i <= self.rows@.len(),
                forall|k: int| 0 <= k < i ==> #[trigger] self@[k].username != name@,
            decreases self.rows@.len() - i,
        {
            if self.rows[i].username == *name {
                return Some(i);
            }
            i = i + 1;
        }
        None
    }

    /// A copy of the row for `name`, if there is one.
    pub fn fetch(&self, name: &String) -> (r: Option<User>)
        ensures
            match r {
                Some(u) => exists|i: int| 0 <= i < self@.len() && #[trigger] self@[i] == u@ && u@.username == name@,
                None => !has_user(self@, name@),
            },
    {
        match self.position(name) {
            Some(i) => Some(self.rows[i].copy()),
            None => None,
        }
    }

    /// Inserts the row for a new account, unless a row for `username` exists.
    pub fn insert_user(&mut self, username: String, email: String, hash: String, now: u64) -> (r: Result<(), StoreError>)
        requires
            old(self).wf(),
        ensures
            final(self).wf(),
            has_user(old(self)@, username@) ==> r == Err::<(), StoreError>(StoreError::UniqueViolation) && final(self)@ == old(self)@,
            !has_user(old(self)@, username@) ==> r is Ok && final(self)@ == old(self)@.push(new_row(username@, email@, hash@, now)),
    {
        match self.position(&username) {
            Some(_) => Err(StoreError::UniqueViolation),
            None => {
                let row = User { username, email, created: now, modified: now, banned: false, score: 0, hash };
                let ghost v = row@;
                self.rows.push(row);
                assert(self@ =~= old(self)@.push(v));
                assert(names_unique(self@)) by {
                    assert forall|i: int, j: int| 0 <= i < self@.len() && 0 <= j < self@.len() && i != j
                        implies #[trigger] self@[i].username != #[trigger] self@[j].username by {
                        if i == old(self)@.len() {
                            assert(old(self)@[j].username != v.username);
                        } else if j == old(self)@.len() {
                            assert(old(self)@[i].username != v.username);
                        }
                    }
                }
                Ok(())
            },
        }
    }

    /// The row indices ordered by score, highest first.
    pub fn ranking(&self) -> (r: Vec<usize>)
        ensures
            ranked(self@, r@),
    {
        let n = self.rows.len();
        let mut order: Vec<usize> = Vec::new();
        let mut i: usize = 0;
        while i < n
            invariant
                n == self@.len(),
                i <= n,
                order@.len() == i,
                forall|k: int| 0 <= k < order@.len() ==> #[trigger] order@[k] < i,
                forall|a: int, b: int| 0 <= a < order@.len() && 0 <= b < order@.len() && a != b ==> #[trigger] order@[a] != #[trigger] order@[b],
                forall|j: int| 0 <= j < i ==> #[trigger] lists(order@, j),
                forall|a: int, b: int| 0 <= a < b < order@.len() ==> self@[#[trigger] order@[a] as int].score >= self@[#[trigger] order@[b] as int].score,
            decreases n - i,
        {
            let s = self.rows[i].score;
            let mut p: usize = 0;
            while p < order.len() && self.rows[order[p]].score >= s
                invariant
                    n == self@.len(),
                    i < n,
                    order@.len() == i,
                    p <= order@.len(),
                    forall|k: int| 0 <= k < order@.len() ==> #[trigger] order@[k] < i,
                    forall|k: int| 0 <= k < p ==> self@[#[trigger] order@[k] as int].score >= s,
                decreases order@.len() - p,
            {
                p = p + 1;
            }
            let ghost old_order = order@;
            order.insert(p, i);
            proof {
                assert(order@ == old_order.insert(p as int, i));
                assert forall|k: int| p < k < order@.len() implies self@[#[trigger] order@[k] as int].score < s by {
                    assert(order@[k] == old_order[k - 1]);
                    assert(self@[old_order[p as int] as int].score < s);
                    if k - 1 > p {
                        assert(self@[old_order[p as int] as int].score >= self@[old_order[k - 1] as int].score);
                    }
                }
                assert forall|j: int| 0 <= j < i + 1 implies #[trigger] lists(order@, j) by {
                    if j == i {
                        assert(order@[p as int] == j);
                    } else {
                        assert(lists(old_order, j));
                        let k0 = choose|k: int| 0 <= k < old_order.len() && #[trigger] old_order[k] == j;
                        if k0 < p {
                            assert(order@[k0] == j);
                        } else {
                            assert(order@[k0 + 1] == j);
                        }
                    }
                }
                assert forall|a: int, b: int| 0 <= a < order@.len() && 0 <= b < order@.len() && a != b
                    implies #[trigger] order@[a] != #[trigger] order@[b] by {
                    let oa = if a < p { a } else { a - 1 };
                    let ob = if b < p { b } else { b - 1 };
                    if a != p && b != p {
                        assert(order@[a] == old_order[oa] && order@[b] == old_order[ob]);
                    }
                }
                assert forall|a: int, b: int| 0 <= a < b < order@.len()
                    implies self@[#[trigger] order@[a] as int].score >= self@[#[trigger] order@[b] as int].score by {
                    if a < p && b < p {
                        assert(order@[a] == old_order[a] && order@[b] == old_order[b]);
                    } else if a < p && b == p {
                        assert(order@[a] == old_order[a]);
                    } else if a < p {
                        assert(order@[a] == old_order[a] && order@[b] == old_order[b - 1]);
                    } else if a > p {
                        assert(order@[a] == old_order[a - 1] && order@[b] == old_order[b - 1]);
                    }
                }
            }
            i = i + 1;
        }
        order
    }

    /// The conditional score write: sets the score of the row for `name` to
    /// `new_score` only if that row is not banned and its score is at most
    /// `new_score`, in one step, and returns
    /// how many rows it changed.
    pub fn cas_score(&mut self, name: &String, new_score: u64, now: u64) -> (r: u64)
        requires
            old(self).wf(),
        ensures
            final(self).wf(),
            final(self)@ == cas_rows(old(self)@, name@, new_score, now),
            r == (if cas_applies(old(self)@, name@, new_score) { 1u64 } else { 0u64 }),
    {
        match self.position(name) {
            None => {
                assert(self@ =~= cas_rows(self@, name@, new_score, now));
                0
            },
            Some(i) => {
                if !self.rows[i].banned && self.rows[i].score <= new_score {
                    let mut row = self.rows.remove(i);
                    row.score = new_score;
                    row.modified = now;
                    self.rows.insert(i, row);
                    assert forall|k: int| 0 <= k < self@.len() && k != i implies self@[k].username != name@ by {
                        assert(old(self)@[k].username != old(self)@[i as int].username);
                    }
                    assert(self@ =~= cas_rows(old(self)@, name@, new_score, now));
                    1
                } else {
                    assert forall|k: int| 0 <= k < self@.len() && k != i implies self@[k].username != name@ by {
                        assert(old(self)@[k].username != old(self)@[i as int].username);
                    }
                    assert(self@ =~= cas_rows(self@, name@, new_score, now));
                    0
                }
            },
        }
    }
}


/// The conditional write on an existing account in good standing with score
/// `S` applies exactly when the new score is at least `S`; it then stores the
/// new score, otherwise the score stays; either way the score does not
/// decrease.
pub proof fn lemma_cas_monotone(rows: Seq<UserView>, i: int, new_score: u64, now: u64)
    requires
        names_unique(rows),
        0 <= i < rows.len(),
        !rows[i].banned,
    ensures
        cas_applies(rows, rows[i].username, new_score) == (new_score >= rows[i].score),
        cas_rows(rows, rows[i].username, new_score, now)[i].score
            == (if new_score >= rows[i].score { new_score } else { rows[i].score }),
        cas_rows(rows, rows[i].username, new_score, now)[i].score >= rows[i].score,
        new_score >= rows[i].score ==> cas_rows(rows, rows[i].username, new_score, now)[i].modified == now,
        cas_rows(rows, rows[i].username, new_score, now)[i].username == rows[i].username,
        cas_rows(rows, rows[i].username, new_score, now)[i].banned == rows[i].banned,
        cas_rows(rows, rows[i].username, new_score, now).len() == rows.len(),
        forall|k: int| 0 <= k < rows.len() && k != i ==> #[trigger] cas_rows(rows, rows[i].username, new_score, now)[k] == rows[k],
        names_unique(cas_rows(rows, rows[i].username, new_score, now)),
{
    let n = rows[i].username;
    assert forall|k: int| 0 <= k < rows.len() && k != i implies #[trigger] cas_rows(rows, n, new_score, now)[k] == rows[k] by {
        assert(rows[k].username != rows[i].username);
    }
    if cas_applies(rows, n, new_score) {
        let k = choose|k: int| 0 <= k < rows.len() && #[trigger] rows[k].username == n && !rows[k].banned && rows[k].score <= new_score;
        assert(k == i);
    }
    let after = cas_rows(rows, n, new_score, now);
    assert forall|x: int, y: int| 0 <= x < after.len() && 0 <= y < after.len() && x != y
        implies #[trigger] after[x].username != #[trigger] after[y].username by {
        assert(after[x].username == rows[x].username && after[y].username == rows[y].username);
    }
}

/// Two conditional writes of `a` and `b` to one account in good standing, in
/// either order, leave the highest of the stored score, `a` and `b`; and once
/// the higher of the two has landed, the lower one is refused.
pub proof fn lemma_cas_race(rows: Seq<UserView>, i: int, a: u64, b: u64, t1: u64, t2: u64)
    requires
        names_unique(rows),
        0 <= i < rows.len(),
        !rows[i].banned,
    ensures
        ({
            let n = rows[i].username;
            let s = rows[i].score;
            let top = if s >= a && s >= b { s } else if a >= b { a } else { b };
            &&& cas_rows(cas_rows(rows, n, a, t1), n, b, t2)[i].score == top
            &&& cas_rows(cas_rows(rows, n, b, t1), n, a, t2)[i].score == top
            &&& (b < a && s <= a) ==> !cas_applies(cas_rows(rows, n, a, t1), n, b)
        }),
{
    let n = rows[i].username;
    lemma_cas_monotone(rows, i, a, t1);
    lemma_cas_monotone(rows, i, b, t1);
    let ra = cas_rows(rows, n, a, t1);
    let rb = cas_rows(rows, n, b, t1);
    assert(ra[i].username == n && rb[i].username == n && !ra[i].banned && !rb[i].banned);
    lemma_cas_monotone(ra, i, b, t2);
    lemma_cas_monotone(rb, i, a, t2);
}

/// Of two registrations of one new username, whichever the store takes
/// first is inserted (the name is free) and the other then finds the name
/// taken, with the store still holding one row per username.
pub proof fn lemma_duplicate_registration(rows: Seq<UserView>, first: UserView, second: UserView)
    requires
        names_unique(rows),
        first.username == second.username,
        !has_user(rows, first.username),
    ensures
        has_user(rows.push(first), second.username),
        names_unique(rows.push(first)),
{
    let r = rows.push(first);
    assert(r[rows.len() as int].username == second.username);
    assert forall|x: int, y: int| 0 <= x < r.len() && 0 <= y < r.len() && x != y
        implies #[trigger] r[x].username != #[trigger] r[y].username by {
        if x == rows.len() {
            assert(rows[y].username != first.username);
        } else if y == rows.len() {
            assert(rows[x].username != first.username);
        }
    }
}


/// The rows after the conditional writes `writes` (each a new score and the
/// time of its write) to the account `name`, in the order the store applied
/// them.
pub open spec fn apply_writes(rows: Seq<UserView>, name: Seq<char>, writes: Seq<(u64, u64)>) -> Seq<UserView>
    decreases writes.len(),
{
    if writes.len() == 0 {
        rows
    } else {
        let w = writes.last();
        cas_rows(apply_writes(rows, name, writes.drop_last()), name, w.0, w.1)
    }
}

/// The highest of `s` and every score in `writes`.
pub open spec fn highest(s: u64, writes: Seq<(u64, u64)>) -> u64
    decreases writes.len(),
{
    if writes.len() == 0 {
        s
    } else {
        let h = highest(s, writes.drop_last());
        if writes.last().0 > h { writes.last().0 } else { h }
    }
}

proof fn lemma_highest_bounds(s: u64, writes: Seq<(u64, u64)>)
    ensures
        highest(s, writes) >= s,
        forall|k: int| 0 <= k < writes.len() ==> highest(s, writes) >= #[trigger] writes[k].0,
    decreases writes.len(),
{
    if writes.len() > 0 {
        lemma_highest_bounds(s, writes.drop_last());
        assert forall|k: int| 0 <= k < writes.len() implies highest(s, writes) >= #[trigger] writes[k].0 by {
            if k < writes.len() - 1 {
                assert(writes[k] == writes.drop_last()[k]);
            }
        }
    }
}

/// However the store orders any number of conditional writes to one account
/// in good standing, it ends at the highest of its old score and all the
/// written scores: no accepted score is lost, and the score never falls
/// below one that was accepted.
pub proof fn lemma_cas_writes(rows: Seq<UserView>, i: int, writes: Seq<(u64, u64)>)
    requires
        names_unique(rows),
        0 <= i < rows.len(),
        !rows[i].banned,
    ensures
        ({
            let after = apply_writes(rows, rows[i].username, writes);
            &&& after.len() == rows.len()
            &&& names_unique(after)
            &&& after[i].username == rows[i].username
            &&& !after[i].banned
            &&& after[i].score == highest(rows[i].score, writes)
            &&& after[i].score >= rows[i].score
            &&& forall|k: int| 0 <= k < writes.len() ==> after[i].score >= #[trigger] writes[k].0
        }),
    decreases writes.len(),
{
    lemma_highest_bounds(rows[i].score, writes);
    if writes.len() > 0 {
        let n = rows[i].username;
        lemma_cas_writes(rows, i, writes.drop_last());
        let before = apply_writes(rows, n, writes.drop_last());
        lemma_cas_monotone(before, i, writes.last().0, writes.last().1);
    }
}

} // verus!
