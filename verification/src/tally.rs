//! Aggregation and rendering: the responded summary, the per-date tally,
//! the render payload pushed to every surface, and the paginated
//! long-form breakdown.

use vstd::prelude::*;
use vstd::string::StringExecFns;
use crate::dates::{day_heading, heading_of, MAX_DAY};
use crate::response::Response;
use crate::scheduler::{Scheduler, Surface};
use crate::textgen::{
    dec_str, group_mention, join, joined, u64_string, user_mention, user_mention_string, views_of,
};

verus! {

/// The size ceiling, in characters, of one rendered chunk.
pub const CHUNK_LIMIT: usize = 2000;

/// The candidate dates that are not blacked out, in candidate order.
pub open spec fn visible_days(dates: Seq<u64>, blackout: Seq<u64>) -> Seq<u64>
    decreases dates.len(),
{
    if dates.len() == 0 {
        Seq::empty()
    } else {
        visible_days(dates.drop_last(), blackout) + if !blackout.contains(dates.last()) {
            seq![dates.last()]
        } else {
            Seq::<u64>::empty()
        }
    }
}

/// How many committed responses contain the date `d`.
pub open spec fn count_for(rs: Seq<(u64, Response)>, d: u64) -> int
    decreases rs.len(),
{
    if rs.len() == 0 {
        0
    } else {
        count_for(rs.drop_last(), d) + if rs.last().1.dates@.contains(d) {
            1int
        } else {
            0int
        }
    }
}

/// The largest per-date count over `days` (zero when `days` is empty).
pub open spec fn max_count(rs: Seq<(u64, Response)>, days: Seq<u64>) -> int
    decreases days.len(),
{
    if days.len() == 0 {
        0
    } else {
        let rest = max_count(rs, days.drop_last());
        let c = count_for(rs, days.last());
        if c > rest {
            c
        } else {
            rest
        }
    }
}

/// `s` with `x` inserted before the first run of larger elements.
pub open spec fn insert_sorted(s: Seq<u64>, x: u64) -> Seq<u64>
    decreases s.len(),
{
    if s.len() == 0 {
        seq![x]
    } else if x >= s.last() {
        s.push(x)
    } else {
        insert_sorted(s.drop_last(), x).push(s.last())
    }
}

/// The respondents whose committed response contains `d`, in ascending
/// order of identity.
pub open spec fn pickers(rs: Seq<(u64, Response)>, d: u64) -> Seq<u64>
    decreases rs.len(),
{
    if rs.len() == 0 {
        Seq::empty()
    } else if rs.last().1.dates@.contains(d) {
        insert_sorted(pickers(rs.drop_last(), d), rs.last().0)
    } else {
        pickers(rs.drop_last(), d)
    }
}

/// One tally line without detail: the date heading and its count,
/// emphasized when `marked`.
pub open spec fn base_line(day: int, count: int, marked: bool) -> Seq<char> {
    if marked {
        seq!['_', '_', '`'] + heading_of(day) + seq![':', '`', '_', '_', ' '] + dec_str(count)
    } else {
        seq!['`'] + heading_of(day) + seq![':', '`', ' '] + dec_str(count)
    }
}

/// The mention texts of a list of identities.
pub open spec fn mentions_of(users: Seq<u64>) -> Seq<Seq<char>> {
    users.map_values(|u: u64| user_mention(u as int))
}

/// One full tally line for `day`: the count, emphasized exactly when it
/// equals a positive maximum, and, in detailed form with a positive
/// count, the sorted mentions of everyone who picked the date.
pub open spec fn tally_line(rs: Seq<(u64, Response)>, day: u64, max: int, detailed: bool) -> Seq<
    char,
> {
    let c = count_for(rs, day);
    let base = base_line(day as int, c, max > 0 && c == max);
    if detailed && c > 0 {
        base + seq![' ', '-', ' '] + joined(mentions_of(pickers(rs, day)), seq![',', ' '])
    } else {
        base
    }
}

/// Every tally line of a poll, one per candidate date not blacked out,
/// in candidate order.
pub open spec fn all_tally_lines(
    rs: Seq<(u64, Response)>,
    dates: Seq<u64>,
    blackout: Seq<u64>,
    detailed: bool,
) -> Seq<Seq<char>> {
    let vis = visible_days(dates, blackout);
    let max = max_count(rs, vis);
    Seq::new(vis.len(), |i: int| tally_line(rs, vis[i], max, detailed))
}

/// The identities in the respondent list, in list order.
pub open spec fn respondent_ids(rs: Seq<(u64, Response)>) -> Seq<u64> {
    rs.map_values(|p: (u64, Response)| p.0)
}

/// The responded summary: the count in bold, and, when positive, the
/// mention list in parentheses.
pub open spec fn responded_summary(rs: Seq<(u64, Response)>) -> Seq<char> {
    if rs.len() == 0 {
        seq!['*', '*', '0', '*', '*']
    } else {
        seq!['*', '*'] + dec_str(rs.len() as int) + seq!['*', '*', ' ', '('] + joined(
            mentions_of(respondent_ids(rs)),
            seq![',', ' '],
        ) + seq![')']
    }
}

/// The greedy chunking of `lines` onto pages: lines are appended (each
/// with a line break) to the open chunk `acc`, which is flushed whenever
/// the next line would reach the ceiling; the final open chunk is always
/// emitted last.  No line is ever split across chunks.
pub open spec fn chunked(lines: Seq<Seq<char>>, acc: Seq<char>) -> Seq<Seq<char>>
    decreases lines.len(),
{
    if lines.len() == 0 {
        seq![acc]
    } else if acc.len() + lines[0].len() >= CHUNK_LIMIT {
        seq![acc] + chunked(lines.drop_first(), lines[0] + seq!['\n'])
    } else {
        chunked(lines.drop_first(), acc + lines[0] + seq!['\n'])
    }
}

/// All chunks, one after another.
pub open spec fn concat_all(xs: Seq<Seq<char>>) -> Seq<char>
    decreases xs.len(),
{
    if xs.len() == 0 {
        Seq::empty()
    } else {
        xs[0] + concat_all(xs.drop_first())
    }
}

/// All lines, each followed by a line break.
pub open spec fn lines_blob(lines: Seq<Seq<char>>) -> Seq<char>
    decreases lines.len(),
{
    if lines.len() == 0 {
        Seq::empty()
    } else {
        lines[0] + seq!['\n'] + lines_blob(lines.drop_first())
    }
}

/// No chunk exceeds the size ceiling, as long as every line is below it
/// and the open chunk has not exceeded it.
pub proof fn lemma_chunks_bounded(lines: Seq<Seq<char>>, acc: Seq<char>)
    requires
        forall|i: int| 0 <= i < lines.len() ==> (#[trigger] lines[i]).len() < CHUNK_LIMIT,
        acc.len() <= CHUNK_LIMIT,
    ensures
        forall|k: int|
            0 <= k < chunked(lines, acc).len() ==> (#[trigger] chunked(lines, acc)[k]).len()
                <= CHUNK_LIMIT,
    decreases lines.len(),
{
    let c = chunked(lines, acc);
    if lines.len() == 0 {
        assert(c =~= seq![acc]);
        assert(c[0] == acc);
    } else {
        assert(lines[0].len() < CHUNK_LIMIT);
        assert(forall|i: int|
            0 <= i < lines.drop_first().len() ==> (#[trigger] lines.drop_first()[i]).len()
                < CHUNK_LIMIT);
        if acc.len() + lines[0].len() >= CHUNK_LIMIT {
            let rest = chunked(lines.drop_first(), lines[0] + seq!['\n']);
            lemma_chunks_bounded(lines.drop_first(), lines[0] + seq!['\n']);
            assert(c == seq![acc] + rest);
            assert forall|k: int| 0 <= k < c.len() implies (#[trigger] c[k]).len()
                <= CHUNK_LIMIT by {
                if k == 0 {
                    assert(c[k] == acc);
                } else {
                    assert(c[k] == rest[k - 1]);
                }
            }
        } else {
            let rest = chunked(lines.drop_first(), acc + lines[0] + seq!['\n']);
            lemma_chunks_bounded(lines.drop_first(), acc + lines[0] + seq!['\n']);
            assert(c == rest);
        }
    }
}

/// Concatenating all chunks reproduces the open chunk followed by every
/// line with its line break, in order: nothing is lost, duplicated,
/// reordered, or split.
pub proof fn lemma_chunks_concat(lines: Seq<Seq<char>>, acc: Seq<char>)
    ensures
        concat_all(chunked(lines, acc)) =~= acc + lines_blob(lines),
    decreases lines.len(),
{
    if lines.len() == 0 {
        let c = chunked(lines, acc);
        assert(c == seq![acc]);
        assert(c[0] == acc);
        assert(c.drop_first() =~= Seq::<Seq<char>>::empty());
        assert(concat_all(Seq::<Seq<char>>::empty()) =~= Seq::<char>::empty());
        assert(concat_all(c) == c[0] + concat_all(c.drop_first()));
        assert(lines_blob(lines) =~= Seq::<char>::empty());
    } else if acc.len() + lines[0].len() >= CHUNK_LIMIT {
        lemma_chunks_concat(lines.drop_first(), lines[0] + seq!['\n']);
        let rest = chunked(lines.drop_first(), lines[0] + seq!['\n']);
        let c = seq![acc] + rest;
        assert(chunked(lines, acc) == c);
        assert(c[0] == acc);
        assert(c.drop_first() =~= rest);
        assert(c.len() > 0);
        assert(concat_all(c) == c[0] + concat_all(c.drop_first()));
        assert(concat_all(rest) =~= (lines[0] + seq!['\n']) + lines_blob(lines.drop_first()));
        assert(lines_blob(lines) == lines[0] + seq!['\n'] + lines_blob(lines.drop_first()));
    } else {
        lemma_chunks_concat(lines.drop_first(), acc + lines[0] + seq!['\n']);
        assert(lines_blob(lines) == lines[0] + seq!['\n'] + lines_blob(lines.drop_first()));
    }
}

/// The page split of `lines`: greedy chunks under the size ceiling.
pub fn paginate(lines: &Vec<String>) -> (r: Vec<String>)
    requires
        forall|i: int| 0 <= i < lines@.len() ==> (#[trigger] lines@[i])@.len() < CHUNK_LIMIT,
    ensures
        views_of(r@) == chunked(views_of(lines@), Seq::<char>::empty()),
{
    let ghost target = chunked(views_of(lines@), Seq::<char>::empty());
    let mut out: Vec<String> = Vec::new();
    let mut content = String::new();
    proof {
        assert(views_of(lines@).skip(0) =~= views_of(lines@));
        assert(views_of(out@) =~= Seq::<Seq<char>>::empty());
        assert(views_of(out@) + chunked(views_of(lines@).skip(0), content@) =~= chunked(
            views_of(lines@),
            Seq::<char>::empty(),
        ));
    }
    let mut i: usize = 0;
    while i < lines.len()
        invariant
            i <= lines@.len(),
            forall|k: int| 0 <= k < lines@.len() ==> (#[trigger] lines@[k])@.len() < CHUNK_LIMIT,
            content@.len() <= CHUNK_LIMIT,
            target == chunked(views_of(lines@), Seq::<char>::empty()),
            target =~= views_of(out@) + chunked(views_of(lines@).skip(i as int), content@),
        decreases lines@.len() - i,
    {
        let ghost rem = views_of(lines@).skip(i as int);
        proof {
            reveal_strlit("\n");
            assert(rem[0] == lines@[i as int]@);
            assert(rem.drop_first() =~= views_of(lines@).skip(i + 1));
        }
        let ghost entry_out = out@;
        let ghost entry_content = content@;
        let line_len = lines[i].as_str().unicode_len();
        let cont_len = content.as_str().unicode_len();
        if cont_len + line_len >= CHUNK_LIMIT {
            let ghost old_out = out@;
            let ghost old_content = content@;
            out.push(content);
            content = String::new();
            proof {
                assert(views_of(out@) =~= views_of(old_out) + seq![old_content]);
            }
        }
        let ghost base = content@;
        content.append(lines[i].as_str());
        content.append("\n");
        proof {
            assert(content@ =~= base + rem[0] + seq!['\n']);
            if entry_content.len() + rem[0].len() >= CHUNK_LIMIT {
                assert(chunked(rem, entry_content) == seq![entry_content] + chunked(
                    rem.drop_first(),
                    rem[0] + seq!['\n'],
                ));
                assert(base =~= Seq::<char>::empty());
                assert(base + rem[0] + seq!['\n'] =~= rem[0] + seq!['\n']);
                assert(views_of(out@) =~= views_of(entry_out) + seq![entry_content]);
                assert(views_of(out@) + chunked(views_of(lines@).skip(i + 1), content@)
                    =~= views_of(entry_out) + chunked(rem, entry_content));
            } else {
                assert(chunked(rem, entry_content) == chunked(
                    rem.drop_first(),
                    entry_content + rem[0] + seq!['\n'],
                ));
                assert(base == entry_content);
                assert(views_of(out@) + chunked(views_of(lines@).skip(i + 1), content@)
                    =~= views_of(entry_out) + chunked(rem, entry_content));
            }
        }
        i = i + 1;
    }
    proof {
        assert(views_of(lines@).skip(lines@.len() as int) =~= Seq::<Seq<char>>::empty());
    }
    let ghost old_out = out@;
    let ghost last = content@;
    out.push(content);
    proof {
        assert(views_of(out@) =~= views_of(old_out) + seq![last]);
        assert(chunked(Seq::<Seq<char>>::empty(), last) =~= seq![last]);
    }
    out
}

/// Whether a date is listed in a date vector.
pub fn vec_has(v: &Vec<u64>, d: u64) -> (b: bool)
    ensures
        b == v@.contains(d),
{
    let mut i: usize = 0;
    while i < v.len()
        invariant
            i <= v@.len(),
            forall|j: int| 0 <= j < i ==> v@[j] != d,
        decreases v@.len() - i,
    {
        if v[i] == d {
            return true;
        }
        i = i + 1;
    }
    false
}

fn insert_sorted_vec(v: &mut Vec<u64>, x: u64)
    ensures
        final(v)@ == insert_sorted(old(v)@, x),
{
    let ghost s = v@;
    let mut i: usize = v.len();
    while i > 0 && v[i - 1] > x
        invariant
            i <= v@.len(),
            v@ == s,
            forall|j: int| i <= j < v@.len() ==> v@[j] > x,
        decreases i,
    {
        i = i - 1;
    }
    v.insert(i, x);
    proof {
        lemma_insert_sorted_at(s, x, i as int);
        assert(v@ =~= s.subrange(0, i as int) + seq![x] + s.subrange(i as int, s.len() as int));
    }
}

proof fn lemma_insert_sorted_at(s: Seq<u64>, x: u64, i: int)
    requires
        0 <= i <= s.len(),
        forall|j: int| i <= j < s.len() ==> s[j] > x,
        i > 0 ==> s[i - 1] <= x,
    ensures
        insert_sorted(s, x) =~= s.subrange(0, i) + seq![x] + s.subrange(i, s.len() as int),
    decreases s.len(),
{
    if s.len() == 0 {
    } else if i == s.len() {
        assert(s.last() == s[i - 1]);
        assert(s.subrange(0, i) =~= s);
        assert(s.subrange(i, s.len() as int) =~= Seq::<u64>::empty());
        assert(insert_sorted(s, x) == s.push(x));
        assert(s.push(x) =~= s + seq![x] + Seq::<u64>::empty());
    } else {
        assert(s.last() == s[s.len() - 1]);
        assert(s.last() > x);
        assert(forall|j: int| i <= j < s.drop_last().len() ==> s.drop_last()[j] > x);
        lemma_insert_sorted_at(s.drop_last(), x, i);
    }
}

/// The visible days are drawn from the candidate dates, without
/// duplicates, in candidate order.
pub proof fn lemma_visible_subset(dates: Seq<u64>, blackout: Seq<u64>)
    requires
        dates.no_duplicates(),
    ensures
        forall|i: int|
            0 <= i < visible_days(dates, blackout).len() ==> dates.contains(
                #[trigger] visible_days(dates, blackout)[i],
            ),
        visible_days(dates, blackout).no_duplicates(),
    decreases dates.len(),
{
    if dates.len() == 0 {
    } else {
        let prefix = dates.drop_last();
        assert(prefix.no_duplicates());
        lemma_visible_subset(prefix, blackout);
        let vp = visible_days(prefix, blackout);
        assert(forall|i: int| 0 <= i < vp.len() ==> prefix.contains(#[trigger] vp[i]));
        assert(forall|d: u64| prefix.contains(d) ==> dates.contains(d));
        if !blackout.contains(dates.last()) {
            let v = visible_days(dates, blackout);
            assert(v =~= vp + seq![dates.last()]);
            assert(dates.contains(dates.last()));
            assert(!prefix.contains(dates.last()));
            assert(forall|i: int| 0 <= i < vp.len() ==> vp[i] != dates.last());
            assert(v.no_duplicates());
        } else {
            assert(visible_days(dates, blackout) =~= vp);
        }
    }
}

impl Scheduler {
    /// The candidate dates not blacked out, in candidate order.
    pub(crate) fn visible_vec(&self) -> (r: Vec<u64>)
        requires
            self.wf(),
        ensures
            r@ == visible_days(self.dates@, self.blackout_dates@),
            forall|i: int| 0 <= i < r@.len() ==> 1 <= #[trigger] r@[i] <= MAX_DAY,
    {
        let mut r: Vec<u64> = Vec::new();
        let mut i: usize = 0;
        while i < self.dates.len()
            invariant
                self.wf(),
                i <= self.dates@.len(),
                r@ == visible_days(self.dates@.take(i as int), self.blackout_dates@),
                forall|k: int| 0 <= k < r@.len() ==> 1 <= #[trigger] r@[k] <= MAX_DAY,
            decreases self.dates@.len() - i,
        {
            let ghost pre = self.dates@.take(i + 1);
            proof {
                assert(pre.drop_last() =~= self.dates@.take(i as int));
                assert(pre.last() == self.dates@[i as int]);
            }
            if !vec_has(&self.blackout_dates, self.dates[i]) {
                r.push(self.dates[i]);
                proof {
                    assert(r@ =~= visible_days(pre.drop_last(), self.blackout_dates@) + seq![
                        self.dates@[i as int],
                    ]);
                }
            }
            i = i + 1;
        }
        proof {
            assert(self.dates@.take(self.dates@.len() as int) =~= self.dates@);
        }
        r
    }

    /// How many committed responses contain `d`.
    fn count_day(&self, d: u64) -> (c: u64)
        requires
            self.wf(),
        ensures
            c as int == count_for(self.responses@, d),
    {
        let mut c: u64 = 0;
        let mut j: usize = 0;
        while j < self.responses.len()
            invariant
                self.wf(),
                j <= self.responses@.len(),
                c <= j,
                c as int == count_for(self.responses@.take(j as int), d),
            decreases self.responses@.len() - j,
        {
            let ghost pre = self.responses@.take(j + 1);
            proof {
                assert(pre.drop_last() =~= self.responses@.take(j as int));
                assert(pre.last() == self.responses@[j as int]);
            }
            if self.responses[j].1.contains_day(d) {
                c = c + 1;
            }
            j = j + 1;
        }
        proof {
            assert(self.responses@.take(self.responses@.len() as int) =~= self.responses@);
        }
        c
    }

    fn max_over(&self, vis: &Vec<u64>) -> (m: u64)
        requires
            self.wf(),
        ensures
            m as int == max_count(self.responses@, vis@),
    {
        let mut m: u64 = 0;
        let mut i: usize = 0;
        while i < vis.len()
            invariant
                self.wf(),
                i <= vis@.len(),
                m as int == max_count(self.responses@, vis@.take(i as int)),
            decreases vis@.len() - i,
        {
            let ghost pre = vis@.take(i + 1);
            proof {
                assert(pre.drop_last() =~= vis@.take(i as int));
                assert(pre.last() == vis@[i as int]);
            }
            let c = self.count_day(vis[i]);
            if c > m {
                m = c;
            }
            i = i + 1;
        }
        proof {
            assert(vis@.take(vis@.len() as int) =~= vis@);
        }
        m
    }

    fn pickers_vec(&self, d: u64) -> (r: Vec<u64>)
        requires
            self.wf(),
        ensures
            r@ == pickers(self.responses@, d),
    {
        let mut r: Vec<u64> = Vec::new();
        let mut j: usize = 0;
        while j < self.responses.len()
            invariant
                self.wf(),
                j <= self.responses@.len(),
                r@ == pickers(self.responses@.take(j as int), d),
            decreases self.responses@.len() - j,
        {
            let ghost pre = self.responses@.take(j + 1);
            proof {
                assert(pre.drop_last() =~= self.responses@.take(j as int));
                assert(pre.last() == self.responses@[j as int]);
            }
            if self.responses[j].1.contains_day(d) {
                insert_sorted_vec(&mut r, self.responses[j].0);
            }
            j = j + 1;
        }
        proof {
            assert(self.responses@.take(self.responses@.len() as int) =~= self.responses@);
        }
        r
    }

    fn tally_line_string(&self, day: u64, max: u64, detailed: bool) -> (r: String)
        requires
            self.wf(),
            1 <= day <= MAX_DAY,
        ensures
            r@ == tally_line(self.responses@, day, max as int, detailed),
    {
        proof {
            reveal_strlit("__`");
            reveal_strlit("`");
            reveal_strlit(":`__ ");
            reveal_strlit(":` ");
            reveal_strlit(" - ");
            reveal_strlit(", ");
            assert(", "@ =~= seq![',', ' ']);
            assert(" - "@ =~= seq![' ', '-', ' ']);
        }
        let c = self.count_day(day);
        let marked = max > 0 && c == max;
        let mut s = String::new();
        if marked {
            s.append("__`");
        } else {
            s.append("`");
        }
        let h = day_heading(day);
        s.append(h.as_str());
        if marked {
            s.append(":`__ ");
        } else {
            s.append(":` ");
        }
        let digits = u64_string(c);
        s.append(digits.as_str());
        proof {
            assert(s@ =~= base_line(day as int, c as int, marked));
        }
        if detailed && c > 0 {
            s.append(" - ");
            let us = self.pickers_vec(day);
            let mut mv: Vec<String> = Vec::new();
            let mut k: usize = 0;
            while k < us.len()
                invariant
                    k <= us@.len(),
                    views_of(mv@) =~= mentions_of(us@.take(k as int)),
                decreases us@.len() - k,
            {
                let ghost old_mv = mv@;
                let m = user_mention_string(us[k]);
                mv.push(m);
                proof {
                    assert(views_of(mv@) =~= views_of(old_mv).push(user_mention(
                        us@[k as int] as int,
                    )));
                    assert(mentions_of(us@.take(k + 1)) =~= mentions_of(us@.take(k as int)).push(
                        user_mention(us@[k as int] as int),
                    ));
                    assert(views_of(mv@) =~= mentions_of(us@.take(k + 1)));
                }
                k = k + 1;
            }
            proof {
                assert(us@.take(us@.len() as int) =~= us@);
                assert(views_of(mv@) =~= mentions_of(us@));
            }
            let jm = join(&mv, ", ");
            s.append(jm.as_str());
            proof {
                assert(s@ =~= tally_line(self.responses@, day, max as int, detailed));
            }
        }
        s
    }

    /// Every tally line, in candidate-date order: one line per date not
    /// blacked out, its count of respondents, emphasis exactly on the
    /// dates achieving a positive maximum, and, in detailed form, the
    /// sorted respondent mentions for each date with a positive count.
    pub fn get_results(&self, detailed: bool) -> (r: Vec<String>)
        requires
            self.wf(),
        ensures
            views_of(r@) == all_tally_lines(
                self.responses@,
                self.dates@,
                self.blackout_dates@,
                detailed,
            ),
    {
        let vis = self.visible_vec();
        let max = self.max_over(&vis);
        let ghost target = all_tally_lines(self.responses@, self.dates@, self.blackout_dates@, detailed);
        let mut r: Vec<String> = Vec::new();
        let mut i: usize = 0;
        while i < vis.len()
            invariant
                self.wf(),
                i <= vis@.len(),
                vis@ == visible_days(self.dates@, self.blackout_dates@),
                forall|k: int| 0 <= k < vis@.len() ==> 1 <= #[trigger] vis@[k] <= MAX_DAY,
                max as int == max_count(self.responses@, vis@),
                target == all_tally_lines(self.responses@, self.dates@, self.blackout_dates@, detailed),
                views_of(r@) =~= target.take(i as int),
            decreases vis@.len() - i,
        {
            let ghost old_r = r@;
            let line = self.tally_line_string(vis[i], max, detailed);
            r.push(line);
            proof {
                assert(target[i as int] == tally_line(
                    self.responses@,
                    vis@[i as int],
                    max as int,
                    detailed,
                ));
                assert(views_of(r@) =~= views_of(old_r).push(line@));
                assert(target.take(i + 1) =~= target.take(i as int).push(target[i as int]));
                assert(views_of(r@) =~= target.take(i + 1));
            }
            i = i + 1;
        }
        proof {
            assert(target.take(target.len() as int) =~= target);
        }
        r
    }

    /// The responded summary: how many have responded, and who.
    pub fn get_responses(&self) -> (r: String)
        requires
            self.wf(),
        ensures
            r@ == responded_summary(self.responses@),
    {
        proof {
            reveal_strlit("**0**");
            reveal_strlit("**");
            reveal_strlit("** (");
            reveal_strlit(")");
            reveal_strlit(", ");
            assert(", "@ =~= seq![',', ' ']);
        }
        if self.responses.len() == 0 {
            let mut s = String::new();
            s.append("**0**");
            proof {
                assert(s@ =~= responded_summary(self.responses@));
            }
            s
        } else {
            let mut s = String::new();
            s.append("**");
            let digits = u64_string(self.responses.len() as u64);
            s.append(digits.as_str());
            s.append("** (");
            let mut mv: Vec<String> = Vec::new();
            let mut k: usize = 0;
            while k < self.responses.len()
                invariant
                    k <= self.responses@.len(),
                    views_of(mv@) =~= mentions_of(respondent_ids(self.responses@.take(k as int))),
                decreases self.responses@.len() - k,
            {
                let ghost old_mv = mv@;
                let m = user_mention_string(self.responses[k].0);
                mv.push(m);
                proof {
                    assert(views_of(mv@) =~= views_of(old_mv).push(user_mention(
                        self.responses@[k as int].0 as int,
                    )));
                    assert(mentions_of(respondent_ids(self.responses@.take(k + 1)))
                        =~= mentions_of(respondent_ids(self.responses@.take(k as int))).push(
                        user_mention(self.responses@[k as int].0 as int),
                    ));
                    assert(views_of(mv@) =~= mentions_of(
                        respondent_ids(self.responses@.take(k + 1)),
                    ));
                }
                k = k + 1;
            }
            proof {
                assert(self.responses@.take(self.responses@.len() as int) =~= self.responses@);
                assert(views_of(mv@) =~= mentions_of(respondent_ids(self.responses@)));
            }
            let jm = join(&mv, ", ");
            s.append(jm.as_str());
            s.append(")");
            proof {
                assert(s@ =~= responded_summary(self.responses@));
            }
            s
        }
    }
}

} // verus!
