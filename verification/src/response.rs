//! A respondent's answer: the set of candidate dates they picked.

use vstd::prelude::*;

verus! {

/// Whether a session edits a respondent's own dates or the owner's
/// blackout set.
#[derive(Clone, Copy, PartialEq, Eq, Structural)]
pub enum ResponseType {
    Normal,
    Blackout,
}

/// The set of dates one respondent selected (or, in blackout mode, the
/// owner's blackout picks).  A new value replaces the old one on commit;
/// no committed value is edited in place.
pub struct Response {
    pub dates: Vec<u64>,
}

impl Response {
    /// A response is a set: no date occurs twice.
    pub open spec fn wf(&self) -> bool {
        self.dates@.no_duplicates()
    }

    /// Whether the response contains a date.
    pub open spec fn has_day(&self, d: u64) -> bool {
        self.dates@.contains(d)
    }

    /// The empty response.
    pub fn empty() -> (r: Response)
        ensures
            r.dates@ =~= Seq::<u64>::empty(),
            r.wf(),
    {
        Response { dates: Vec::new() }
    }

    /// A copy with the same dates.
    pub fn duplicate(&self) -> (r: Response)
        ensures
            r.dates@ == self.dates@,
    {
        Response { dates: copy_days(&self.dates) }
    }

    /// Whether the response contains a date.
    pub fn contains_day(&self, d: u64) -> (b: bool)
        ensures
            b == self.has_day(d),
    {
        let mut i: usize = 0;
        while i < self.dates.len()
            invariant
                i <= self.dates@.len(),
                forall|j: int| 0 <= j < i ==> self.dates@[j] != d,
            decreases self.dates@.len() - i,
        {
            if self.dates[i] == d {
                return true;
            }
            i = i + 1;
        }
        false
    }
}

/// An element-for-element copy of a date vector.
pub fn copy_days(v: &Vec<u64>) -> (r: Vec<u64>)
    ensures
        r@ == v@,
{
    let mut r: Vec<u64> = Vec::new();
    let mut i: usize = 0;
    while i < v.len()
        invariant
            i <= v@.len(),
            r@ =~= v@.take(i as int),
        decreases v@.len() - i,
    {
        r.push(v[i]);
        proof {
            assert(r@ =~= v@.take(i + 1));
        }
        i = i + 1;
    }
    proof {
        assert(v@.take(v@.len() as int) =~= v@);
    }
    r
}

impl From<Vec<u64>> for Response {
    fn from(dates: Vec<u64>) -> (r: Response) {
        Response { dates }
    }
}

impl vstd::std_specs::convert::FromSpecImpl<Vec<u64>> for Response {
    open spec fn obeys_from_spec() -> bool {
        true
    }

    open spec fn from_spec(dates: Vec<u64>) -> Response {
        Response { dates }
    }
}

} // verus!
