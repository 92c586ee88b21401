//! Poll state: configuration, the blackout set, and the map from
//! respondent to committed response, with the atomic update operations.

use vstd::prelude::*;
use vstd::map::*;
use crate::dates::{allowed_day, candidate_dates_ok, count_true, enumerate_days, MAX_DAY};
use crate::response::Response;

verus! {

/// An opaque handle to a rendered message location.
#[derive(Clone, Copy, PartialEq, Eq, Structural, Debug)]
pub struct Surface {
    pub message_id: u64,
    pub channel_id: u64,
}

/// The committed dates of `u`, read from the respondent list: the last
/// entry for `u` decides (entries are kept unique, so at most one exists).
pub open spec fn lookup(rs: Seq<(u64, Response)>, u: u64) -> Option<Seq<u64>>
    decreases rs.len(),
{
    if rs.len() == 0 {
        None
    } else if rs.last().0 == u {
        Some(rs.last().1.dates@)
    } else {
        lookup(rs.drop_last(), u)
    }
}

/// The respondent list as a map from respondent to committed dates.
pub open spec fn response_map(rs: Seq<(u64, Response)>) -> Map<u64, Seq<u64>> {
    Map::new(|u: u64| lookup(rs, u) is Some, |u: u64| lookup(rs, u)->Some_0)
}

/// No respondent occurs twice in the list.
pub open spec fn keys_unique(rs: Seq<(u64, Response)>) -> bool {
    forall|i: int, j: int| 0 <= i < j < rs.len() ==> rs[i].0 != rs[j].0
}

proof fn lemma_lookup_push(rs: Seq<(u64, Response)>, p: (u64, Response), u: u64)
    ensures
        lookup(rs.push(p), u) == (if p.0 == u {
            Some(p.1.dates@)
        } else {
            lookup(rs, u)
        }),
{
    assert(rs.push(p).drop_last() =~= rs);
    assert(rs.push(p).last() == p);
}

proof fn lemma_lookup_absent(rs: Seq<(u64, Response)>, u: u64)
    requires
        forall|i: int| 0 <= i < rs.len() ==> (#[trigger] rs[i]).0 != u,
    ensures
        lookup(rs, u) is None,
    decreases rs.len(),
{
    if rs.len() > 0 {
        assert(rs.last() == rs[rs.len() - 1]);
        lemma_lookup_absent(rs.drop_last(), u);
    }
}

proof fn lemma_lookup_found(rs: Seq<(u64, Response)>, i: int, u: u64)
    requires
        keys_unique(rs),
        0 <= i < rs.len(),
        rs[i].0 == u,
    ensures
        lookup(rs, u) == Some(rs[i].1.dates@),
    decreases rs.len(),
{
    if i == rs.len() - 1 {
        assert(rs.last() == rs[i]);
    } else {
        assert(rs.last().0 != u);
        assert(rs.drop_last()[i] == rs[i]);
        lemma_lookup_found(rs.drop_last(), i, u);
    }
}

proof fn lemma_lookup_remove(rs: Seq<(u64, Response)>, i: int, u: u64)
    requires
        keys_unique(rs),
        0 <= i < rs.len(),
    ensures
        lookup(rs.remove(i), u) == (if rs[i].0 == u {
            None::<Seq<u64>>
        } else {
            lookup(rs, u)
        }),
    decreases rs.len(),
{
    if i == rs.len() - 1 {
        assert(rs.remove(i) =~= rs.drop_last());
        if rs[i].0 == u {
            assert(forall|j: int|
                0 <= j < rs.drop_last().len() ==> (#[trigger] rs.drop_last()[j]).0 != u);
            lemma_lookup_absent(rs.drop_last(), u);
        }
    } else {
        assert(rs.remove(i).last() == rs.last());
        assert(rs.remove(i).drop_last() =~= rs.drop_last().remove(i));
        assert(keys_unique(rs.drop_last()));
        assert(rs.drop_last()[i] == rs[i]);
        lemma_lookup_remove(rs.drop_last(), i, u);
        if rs.last().0 != u {
            assert(lookup(rs, u) == lookup(rs.drop_last(), u));
        }
    }
}

proof fn lemma_response_map_insert(
    rs0: Seq<(u64, Response)>,
    rs2: Seq<(u64, Response)>,
    u: u64,
    ds: Seq<u64>,
)
    requires
        forall|v: u64| #[trigger] lookup(rs2, v) == (if v == u {
            Some(ds)
        } else {
            lookup(rs0, v)
        }),
    ensures
        response_map(rs2) =~= response_map(rs0).insert(u, ds),
{
}

proof fn lemma_response_map_remove(rs0: Seq<(u64, Response)>, rs2: Seq<(u64, Response)>, u: u64)
    requires
        forall|v: u64| #[trigger] lookup(rs2, v) == (if v == u {
            None::<Seq<u64>>
        } else {
            lookup(rs0, v)
        }),
    ensures
        response_map(rs2) =~= response_map(rs0).remove(u),
{
}

/// One mutation of the respondent map, as a value: what `add_response`
/// and `delete_response` do to the map view, by their contracts.
pub enum ResponseOp {
    Commit { user: u64, dates: Seq<u64> },
    Remove { user: u64 },
}

/// The respondent an operation belongs to.
pub open spec fn op_user(op: ResponseOp) -> u64 {
    match op {
        ResponseOp::Commit { user, dates } => user,
        ResponseOp::Remove { user } => user,
    }
}

/// One operation applied to the map.
pub open spec fn apply_op(m: Map<u64, Seq<u64>>, op: ResponseOp) -> Map<u64, Seq<u64>> {
    match op {
        ResponseOp::Commit { user, dates } => m.insert(user, dates),
        ResponseOp::Remove { user } => m.remove(user),
    }
}

/// A sequence of operations applied in order.
pub open spec fn apply_ops(m: Map<u64, Seq<u64>>, ops: Seq<ResponseOp>) -> Map<u64, Seq<u64>>
    decreases ops.len(),
{
    if ops.len() == 0 {
        m
    } else {
        apply_op(apply_ops(m, ops.drop_last()), ops.last())
    }
}

/// The last operation in the sequence that belongs to `u`, if any.
pub open spec fn last_op_of(ops: Seq<ResponseOp>, u: u64) -> Option<ResponseOp>
    decreases ops.len(),
{
    if ops.len() == 0 {
        None
    } else if op_user(ops.last()) == u {
        Some(ops.last())
    } else {
        last_op_of(ops.drop_last(), u)
    }
}

/// After any sequence of commits and removals, each respondent's entry
/// is decided by that respondent's own last operation alone: the dates
/// of their last commit, absence after their last removal, their prior
/// entry when they made none.  Other respondents' operations, in any
/// interleaving, neither lose, change, nor duplicate the entry.
pub proof fn lemma_last_writer_wins(m: Map<u64, Seq<u64>>, ops: Seq<ResponseOp>, u: u64)
    ensures
        match last_op_of(ops, u) {
            Some(op) => match op {
                ResponseOp::Commit { user, dates } => apply_ops(m, ops).dom().contains(u)
                    && apply_ops(m, ops)[u] == dates,
                ResponseOp::Remove { user } => !apply_ops(m, ops).dom().contains(u),
            },
            None => (apply_ops(m, ops).dom().contains(u) <==> m.dom().contains(u)) && (
            m.dom().contains(u) ==> apply_ops(m, ops)[u] == m[u]),
        },
    decreases ops.len(),
{
    if ops.len() > 0 {
        lemma_last_writer_wins(m, ops.drop_last(), u);
    }
}

/// One poll: its immutable configuration and its mutable aggregate state.
pub struct Scheduler {
    pub owner: u64,
    pub title: String,
    pub dates: Vec<u64>,
    pub blackout_dates: Vec<u64>,
    pub group: Option<u64>,
    pub message: Surface,
    pub repost_message: Option<Surface>,
    pub responses: Vec<(u64, Response)>,
    pub closed: bool,
}

impl Scheduler {
    /// Well-formedness: candidate dates are distinct, in the range the
    /// date renderer accepts; the blackout set and every committed
    /// response hold candidate dates only, without duplicates; and there
    /// is at most one committed response per respondent.
    pub open spec fn wf(&self) -> bool {
        &&& self.dates@.no_duplicates()
        &&& forall|i: int| 0 <= i < self.dates@.len() ==> 1 <= #[trigger] self.dates@[i] <= MAX_DAY
        &&& self.blackout_dates@.no_duplicates()
        &&& forall|i: int|
            0 <= i < self.blackout_dates@.len() ==> self.dates@.contains(
                #[trigger] self.blackout_dates@[i],
            )
        &&& keys_unique(self.responses@)
        &&& forall|i: int| 0 <= i < self.responses@.len() ==> (#[trigger] self.responses@[i]).1.wf()
        &&& forall|i: int, j: int|
            0 <= i < self.responses@.len() && 0 <= j < self.responses@[i].1.dates@.len()
                ==> self.dates@.contains(#[trigger] self.responses@[i].1.dates@[j])
    }

    /// Create a poll.  The candidate dates are the first days strictly
    /// after `today`, advanced by `skip` whole weeks, whose weekday is
    /// enabled in `days`, and their count is `limit` rounded down to a
    /// multiple of the number of enabled weekdays.
    pub fn new(
        owner: u64,
        group: Option<u64>,
        message: Surface,
        limit: i64,
        skip: Option<i64>,
        title: &str,
        days: Vec<bool>,
        today: u64,
    ) -> (s: Scheduler)
        requires
            days@.len() == 7,
            count_true(days@) >= 1,
            0 <= limit <= 10000,
            skip is Some ==> 0 <= skip->0 <= 10000,
            1 <= today <= 2000000,
        ensures
            s.wf(),
            s.owner == owner,
            s.group == group,
            s.message == message,
            s.title@ == title@,
            s.closed == false,
            s.repost_message is None,
            s.blackout_dates@ =~= Seq::<u64>::empty(),
            s.responses@ =~= Seq::<(u64, Response)>::empty(),
            s.dates@.len() == limit as int - limit as int % count_true(days@),
            candidate_dates_ok(
                s.dates@,
                today + 1 + 7 * (if skip is Some {
                    skip->0
                } else {
                    0
                }),
                days@,
            ),
    {
        let k = crate::dates::count_allowed(&days);
        proof {
            let ki = k as int;
            let li = limit as int;
            assert(1 <= ki <= 7);
            vstd::arithmetic::div_mod::lemma_mod_division_less_than_divisor(li, ki);
            assert(0 <= li % ki < ki);
            if li < ki {
                vstd::arithmetic::div_mod::lemma_small_mod(li as nat, ki as nat);
                assert(li % ki == li);
            }
            assert(li % ki <= li);
        }
        let n: u64 = (limit - limit % (k as i64)) as u64;
        let start: u64 = match skip {
            Some(w) => today + 1 + 7 * (w as u64),
            None => today + 1,
        };
        proof {
            assert(n <= 10000);
            assert(start <= 2000000 + 1 + 70000);
            assert(start + 7 * n + 7 <= MAX_DAY);
        }
        let dates = enumerate_days(start, &days, n);
        Scheduler {
            owner,
            title: title.to_owned(),
            dates,
            blackout_dates: Vec::new(),
            group,
            message,
            repost_message: None,
            responses: Vec::new(),
            closed: false,
        }
    }

    /// The identity of the poll's primary surface.
    pub fn get_id(&self) -> (r: u64)
        ensures
            r == self.message.message_id,
    {
        self.message.message_id
    }

    /// The identity of the repost surface, if one is set.
    pub fn get_repost(&self) -> (r: Option<u64>)
        ensures
            match r {
                Some(id) => self.repost_message is Some && id
                    == self.repost_message->0.message_id,
                None => self.repost_message is None,
            },
    {
        match self.repost_message {
            Some(m) => Some(m.message_id),
            None => None,
        }
    }

    fn find_user(&self, user: u64) -> (r: Option<usize>)
        ensures
            match r {
                Some(i) => i < self.responses@.len() && self.responses@[i as int].0 == user,
                None => forall|j: int|
                    0 <= j < self.responses@.len() ==> (#[trigger] self.responses@[j]).0 != user,
            },
    {
        let mut i: usize = 0;
        while i < self.responses.len()
            invariant
                i <= self.responses@.len(),
                forall|j: int| 0 <= j < i ==> (#[trigger] self.responses@[j]).0 != user,
            decreases self.responses@.len() - i,
        {
            if self.responses[i].0 == user {
                return Some(i);
            }
            i = i + 1;
        }
        None
    }

    /// The committed response of `user`, if any, as a fresh value.
    pub fn committed_response(&self, user: u64) -> (r: Option<Response>)
        requires
            self.wf(),
        ensures
            match r {
                Some(resp) => {
                    &&& lookup(self.responses@, user) == Some(resp.dates@)
                    &&& resp.wf()
                    &&& forall|j: int|
                        0 <= j < resp.dates@.len() ==> self.dates@.contains(
                            #[trigger] resp.dates@[j],
                        )
                },
                None => lookup(self.responses@, user) is None,
            },
    {
        match self.find_user(user) {
            Some(i) => {
                proof {
                    lemma_lookup_found(self.responses@, i as int, user);
                }
                Some(self.responses[i].1.duplicate())
            },
            None => {
                proof {
                    lemma_lookup_absent(self.responses@, user);
                }
                None
            },
        }
    }

    /// Commit `response` as `user`'s response, replacing any earlier one.
    pub fn add_response(&mut self, user: u64, response: Response)
        requires
            old(self).wf(),
            !old(self).closed,
            response.wf(),
            forall|j: int|
                0 <= j < response.dates@.len() ==> old(self).dates@.contains(
                    #[trigger] response.dates@[j],
                ),
        ensures
            final(self).wf(),
            response_map(final(self).responses@) == response_map(old(self).responses@).insert(
                user,
                response.dates@,
            ),
            lookup(final(self).responses@, user) == Some(response.dates@),
            forall|v: u64|
                v != user ==> #[trigger] lookup(final(self).responses@, v) == lookup(
                    old(self).responses@,
                    v,
                ),
            final(self).dates == old(self).dates,
            final(self).blackout_dates == old(self).blackout_dates,
            final(self).owner == old(self).owner,
            final(self).title == old(self).title,
            final(self).group == old(self).group,
            final(self).message == old(self).message,
            final(self).repost_message == old(self).repost_message,
            final(self).closed == old(self).closed,
    {
        let ghost rs0 = self.responses@;
        let found = self.find_user(user);
        match found {
            Some(i) => {
                self.responses.remove(i);
                proof {
                    assert forall|v: u64| #[trigger]
                        lookup(self.responses@, v) == (if v == user {
                            None::<Seq<u64>>
                        } else {
                            lookup(rs0, v)
                        }) by {
                        lemma_lookup_remove(rs0, i as int, v);
                    }
                    assert(keys_unique(self.responses@)) by {
                        assert(forall|a: int, b: int|
                            0 <= a < b < self.responses@.len() ==> self.responses@[a].0
                                != self.responses@[b].0);
                    }
                }
            },
            None => {
                proof {
                    lemma_lookup_absent(rs0, user);
                }
            },
        }
        let ghost rs1 = self.responses@;
        self.responses.push((user, response));
        proof {
            assert forall|v: u64| #[trigger]
                lookup(self.responses@, v) == (if v == user {
                    Some(response.dates@)
                } else {
                    lookup(rs0, v)
                }) by {
                lemma_lookup_push(rs1, (user, response), v);
            }
            lemma_response_map_insert(rs0, self.responses@, user, response.dates@);
        }
    }

    /// Remove `user`'s committed response, if any.
    pub fn delete_response(&mut self, user: u64)
        requires
            old(self).wf(),
            !old(self).closed,
        ensures
            final(self).wf(),
            response_map(final(self).responses@) == response_map(old(self).responses@).remove(
                user,
            ),
            lookup(final(self).responses@, user) is None,
            forall|v: u64|
                v != user ==> #[trigger] lookup(final(self).responses@, v) == lookup(
                    old(self).responses@,
                    v,
                ),
            final(self).dates == old(self).dates,
            final(self).blackout_dates == old(self).blackout_dates,
            final(self).owner == old(self).owner,
            final(self).title == old(self).title,
            final(self).group == old(self).group,
            final(self).message == old(self).message,
            final(self).repost_message == old(self).repost_message,
            final(self).closed == old(self).closed,
    {
        let ghost rs0 = self.responses@;
        let found = self.find_user(user);
        match found {
            Some(i) => {
                self.responses.remove(i);
                proof {
                    assert forall|v: u64| #[trigger]
                        lookup(self.responses@, v) == (if v == user {
                            None::<Seq<u64>>
                        } else {
                            lookup(rs0, v)
                        }) by {
                        lemma_lookup_remove(rs0, i as int, v);
                    }
                }
            },
            None => {
                proof {
                    lemma_lookup_absent(rs0, user);
                    assert forall|v: u64| #[trigger]
                        lookup(self.responses@, v) == (if v == user {
                            None::<Seq<u64>>
                        } else {
                            lookup(rs0, v)
                        }) by {
                    }
                }
            },
        }
        proof {
            lemma_response_map_remove(rs0, self.responses@, user);
        }
    }

    /// Replace the blackout set with the dates of `response`.
    pub fn set_blackout(&mut self, response: Response)
        requires
            old(self).wf(),
            response.wf(),
            forall|j: int|
                0 <= j < response.dates@.len() ==> old(self).dates@.contains(
                    #[trigger] response.dates@[j],
                ),
        ensures
            final(self).wf(),
            final(self).blackout_dates@ == response.dates@,
            final(self).dates == old(self).dates,
            final(self).responses == old(self).responses,
            final(self).owner == old(self).owner,
            final(self).title == old(self).title,
            final(self).group == old(self).group,
            final(self).message == old(self).message,
            final(self).repost_message == old(self).repost_message,
            final(self).closed == old(self).closed,
    {
        self.blackout_dates = response.dates;
    }

    /// Close the poll: no further normal responses are accepted and the
    /// rendered surfaces switch to the final-results form.
    pub fn close(&mut self)
        ensures
            final(self).closed == true,
            final(self).dates == old(self).dates,
            final(self).blackout_dates == old(self).blackout_dates,
            final(self).responses == old(self).responses,
            final(self).owner == old(self).owner,
            final(self).title == old(self).title,
            final(self).group == old(self).group,
            final(self).message == old(self).message,
            final(self).repost_message == old(self).repost_message,
    {
        self.closed = true;
    }

    /// Replace the repost surface.  The returned handle, if any, is the
    /// previous surface, to be deleted at the transport before anything
    /// else; when a new surface was supplied the caller must follow up
    /// with a render of every surface.
    pub fn repost(&mut self, message: Option<Surface>) -> (r: Option<Surface>)
        ensures
            r == old(self).repost_message,
            final(self).repost_message == message,
            final(self).dates == old(self).dates,
            final(self).blackout_dates == old(self).blackout_dates,
            final(self).responses == old(self).responses,
            final(self).owner == old(self).owner,
            final(self).title == old(self).title,
            final(self).group == old(self).group,
            final(self).message == old(self).message,
            final(self).closed == old(self).closed,
    {
        let previous = self.repost_message;
        self.repost_message = message;
        previous
    }

    /// Clear the repost surface, returning the handle to delete.
    pub fn delete_repost(&mut self) -> (r: Option<Surface>)
        ensures
            r == old(self).repost_message,
            final(self).repost_message is None,
            final(self).dates == old(self).dates,
            final(self).blackout_dates == old(self).blackout_dates,
            final(self).responses == old(self).responses,
            final(self).owner == old(self).owner,
            final(self).title == old(self).title,
            final(self).group == old(self).group,
            final(self).message == old(self).message,
            final(self).closed == old(self).closed,
    {
        let previous = self.repost_message;
        self.repost_message = None;
        previous
    }
}

/// Rounding a count down to a whole multiple leaves an exact multiple:
/// a poll's candidate-date count is divisible by the number of enabled
/// weekdays, and every candidate falls on an enabled weekday.
pub proof fn lemma_candidate_count_multiple(r: Seq<u64>, start: int, allowed: Seq<bool>, limit: int)
    requires
        1 <= count_true(allowed),
        0 <= limit,
        r.len() == limit - limit % count_true(allowed),
        candidate_dates_ok(r, start, allowed),
    ensures
        r.len() as int % count_true(allowed) == 0,
        forall|i: int| 0 <= i < r.len() ==> allowed_day(allowed, r[i] as int),
{
    let k = count_true(allowed);
    vstd::arithmetic::div_mod::lemma_fundamental_div_mod(limit, k);
    let q = limit / k;
    assert(limit - limit % k == k * q);
    vstd::arithmetic::div_mod::lemma_mod_multiples_vanish(q, 0, k);
    assert((k * q + 0int) % k == 0int % k);
    vstd::arithmetic::div_mod::lemma_small_mod(0nat, k as nat);
}

} // verus!
