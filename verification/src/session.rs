//! The per-respondent interactive session: a draft edited through UI
//! events and committed, deleted, or abandoned on timeout.

use vstd::prelude::*;
use vstd::string::StringExecFns;
use crate::dates::{day_menu_label, menu_label_of, MAX_DAY};
use crate::response::{Response, ResponseType, copy_days};
use crate::scheduler::{lookup, response_map, Scheduler};
use crate::surface::{ProtocolError, UiButton};
use crate::tally::{lemma_visible_subset, vec_has, visible_days};

verus! {

/// How long a session stays interactive, in seconds, measured from its
/// start: ephemeral surfaces become uneditable roughly a quarter hour
/// after they are created.
pub const SESSION_TIMEOUT_SECS: u64 = 60 * 14;

/// The states of a session.
#[derive(Clone, Copy, PartialEq, Eq, Structural, Debug)]
pub enum SessionState {
    Presenting,
    Submitted,
    Deleted,
    TimedOut,
}

/// One UI event delivered to a session.  `Select` carries the full list
/// of chosen indices into the candidate-date sequence.
pub enum SessionEvent {
    Select(Vec<u64>),
    SelectAll,
    ClearAll,
    Submit,
    Delete,
    Timeout,
}

/// What the caller must render after a step: the refreshed selection
/// surface, or a terminal notice.
#[derive(Clone, Copy, PartialEq, Eq, Structural, Debug)]
pub enum StepEffect {
    Redraw,
    Submitted,
    Deleted,
    TimedOut,
}

/// One entry of the multi-select control.
pub struct SelectOption {
    pub label: String,
    pub value: u64,
    pub selected: bool,
}

/// The selection surface: the date options and the action buttons.
pub struct SelectionUi {
    pub options: Vec<SelectOption>,
    pub min_values: u64,
    pub max_values: u64,
    pub buttons: Vec<UiButton>,
}

/// `acc` with `d` appended unless already present.
pub open spec fn dedup_push(acc: Seq<u64>, d: u64) -> Seq<u64> {
    if acc.contains(d) {
        acc
    } else {
        acc.push(d)
    }
}

/// The dates picked by a list of indices into the candidate sequence,
/// in first-pick order, without duplicates.
pub open spec fn selected_days(dates: Seq<u64>, idxs: Seq<u64>) -> Seq<u64>
    decreases idxs.len(),
{
    if idxs.len() == 0 {
        Seq::empty()
    } else {
        dedup_push(selected_days(dates, idxs.drop_last()), dates[idxs.last() as int])
    }
}

/// The indices of the dates offered in the multi-select: every candidate
/// in blackout mode, every candidate not blacked out in normal mode.
pub open spec fn option_indices(dates: Seq<u64>, blackout: Seq<u64>, mode: ResponseType) -> Seq<
    u64,
>
    decreases dates.len(),
{
    if dates.len() == 0 {
        Seq::empty()
    } else {
        option_indices(dates.drop_last(), blackout, mode) + if mode == ResponseType::Blackout
            || !blackout.contains(dates.last()) {
            seq![(dates.len() - 1) as u64]
        } else {
            Seq::<u64>::empty()
        }
    }
}

proof fn lemma_option_indices_bound(dates: Seq<u64>, blackout: Seq<u64>, mode: ResponseType)
    ensures
        forall|k: int|
            0 <= k < option_indices(dates, blackout, mode).len() ==> (#[trigger] option_indices(
                dates,
                blackout,
                mode,
            )[k]) < dates.len(),
    decreases dates.len(),
{
    if dates.len() > 0 {
        lemma_option_indices_bound(dates.drop_last(), blackout, mode);
        let oi = option_indices(dates, blackout, mode);
        let op = option_indices(dates.drop_last(), blackout, mode);
        assert forall|k: int| 0 <= k < oi.len() implies (#[trigger] oi[k]) < dates.len() by {
            if k < op.len() {
                assert(oi[k] == op[k]);
                assert(op[k] < dates.drop_last().len());
            } else {
                assert(oi[k] == (dates.len() - 1) as u64);
            }
        }
    }
}

/// A session owned by one respondent (or, in blackout mode, the owner).
pub struct Session {
    pub mode: ResponseType,
    pub user: u64,
    pub allow_delete: bool,
    pub draft: Response,
    pub state: SessionState,
}

/// Everything of the poll that a step leaves untouched whatever the
/// event: configuration and surfaces.
pub open spec fn config_unchanged(a: Scheduler, b: Scheduler) -> bool {
    &&& a.dates == b.dates
    &&& a.owner == b.owner
    &&& a.title == b.title
    &&& a.group == b.group
    &&& a.message == b.message
    &&& a.repost_message == b.repost_message
    &&& a.closed == b.closed
}

impl Session {
    /// The draft holds candidate dates only, without duplicates.
    pub open spec fn wf_for(&self, sched: Scheduler) -> bool {
        &&& self.draft.wf()
        &&& forall|j: int|
            0 <= j < self.draft.dates@.len() ==> sched.dates@.contains(
                #[trigger] self.draft.dates@[j],
            )
    }

    /// Open a session: seed the draft from the respondent's committed
    /// response (normal mode) or the current blackout set (blackout
    /// mode); offer deletion exactly when a committed response exists in
    /// normal mode.
    pub fn open(sched: &Scheduler, user: u64, mode: ResponseType) -> (s: Session)
        requires
            sched.wf(),
        ensures
            s.wf_for(*sched),
            s.mode == mode,
            s.user == user,
            s.state == SessionState::Presenting,
            mode == ResponseType::Normal ==> (match lookup(sched.responses@, user) {
                Some(ds) => s.draft.dates@ == ds && s.allow_delete,
                None => s.draft.dates@ =~= Seq::<u64>::empty() && !s.allow_delete,
            }),
            mode == ResponseType::Blackout ==> s.draft.dates@ == sched.blackout_dates@
                && !s.allow_delete,
    {
        match mode {
            ResponseType::Normal => {
                match sched.committed_response(user) {
                    Some(resp) => Session {
                        mode,
                        user,
                        allow_delete: true,
                        draft: resp,
                        state: SessionState::Presenting,
                    },
                    None => Session {
                        mode,
                        user,
                        allow_delete: false,
                        draft: Response::empty(),
                        state: SessionState::Presenting,
                    },
                }
            },
            ResponseType::Blackout => Session {
                mode,
                user,
                allow_delete: false,
                draft: Response { dates: copy_days(&sched.blackout_dates) },
                state: SessionState::Presenting,
            },
        }
    }

    /// Apply one UI event.  Intermediate edits touch only the draft;
    /// `Submit` and `Delete` commit through the poll's operations;
    /// `Timeout` discards the draft and leaves the poll untouched.
    pub fn step(&mut self, sched: &mut Scheduler, event: SessionEvent) -> (eff: StepEffect)
        requires
            old(self).state == SessionState::Presenting,
            old(sched).wf(),
            old(self).wf_for(*old(sched)),
            event matches SessionEvent::Select(idxs) ==> forall|j: int|
                0 <= j < idxs@.len() ==> (#[trigger] idxs@[j]) < old(sched).dates@.len(),
            (event matches SessionEvent::Submit || event matches SessionEvent::Delete) && old(
                self,
            ).mode == ResponseType::Normal ==> !old(sched).closed,
            event matches SessionEvent::Delete ==> old(self).mode == ResponseType::Normal,
        ensures
            final(self).mode == old(self).mode,
            final(self).user == old(self).user,
            final(self).allow_delete == old(self).allow_delete,
            final(self).wf_for(*final(sched)),
            final(sched).wf(),
            config_unchanged(*old(sched), *final(sched)),
            match event {
                SessionEvent::Select(idxs) => {
                    &&& *final(sched) == *old(sched)
                    &&& final(self).state == SessionState::Presenting
                    &&& final(self).draft.dates@ == selected_days(old(sched).dates@, idxs@)
                    &&& eff == StepEffect::Redraw
                },
                SessionEvent::SelectAll => {
                    &&& *final(sched) == *old(sched)
                    &&& final(self).state == SessionState::Presenting
                    &&& final(self).draft.dates@ == visible_days(
                        old(sched).dates@,
                        old(sched).blackout_dates@,
                    )
                    &&& eff == StepEffect::Redraw
                },
                SessionEvent::ClearAll => {
                    &&& *final(sched) == *old(sched)
                    &&& final(self).state == SessionState::Presenting
                    &&& final(self).draft.dates@ =~= Seq::<u64>::empty()
                    &&& eff == StepEffect::Redraw
                },
                SessionEvent::Submit => {
                    &&& final(self).state == SessionState::Submitted
                    &&& eff == StepEffect::Submitted
                    &&& old(self).mode == ResponseType::Normal ==> response_map(
                        final(sched).responses@,
                    ) == response_map(old(sched).responses@).insert(
                        old(self).user,
                        old(self).draft.dates@,
                    ) && final(sched).blackout_dates == old(sched).blackout_dates
                    &&& old(self).mode == ResponseType::Blackout ==> final(sched).blackout_dates@
                        == old(self).draft.dates@ && final(sched).responses == old(sched).responses
                },
                SessionEvent::Delete => {
                    &&& final(self).state == SessionState::Deleted
                    &&& eff == StepEffect::Deleted
                    &&& response_map(final(sched).responses@) == response_map(
                        old(sched).responses@,
                    ).remove(old(self).user)
                    &&& final(sched).blackout_dates == old(sched).blackout_dates
                },
                SessionEvent::Timeout => {
                    &&& *final(sched) == *old(sched)
                    &&& final(self).state == SessionState::TimedOut
                    &&& eff == StepEffect::TimedOut
                },
            },
    {
        match event {
            SessionEvent::Select(idxs) => {
                let mut nd: Vec<u64> = Vec::new();
                let mut j: usize = 0;
                while j < idxs.len()
                    invariant
                        sched.wf(),
                        j <= idxs@.len(),
                        forall|k: int|
                            0 <= k < idxs@.len() ==> (#[trigger] idxs@[k]) < sched.dates@.len(),
                        nd@ == selected_days(sched.dates@, idxs@.take(j as int)),
                        nd@.no_duplicates(),
                        forall|k: int|
                            0 <= k < nd@.len() ==> sched.dates@.contains(#[trigger] nd@[k]),
                    decreases idxs@.len() - j,
                {
                    let ghost pre = idxs@.take(j + 1);
                    let ghost old_nd = nd@;
                    proof {
                        assert(pre.drop_last() =~= idxs@.take(j as int));
                        assert(pre.last() == idxs@[j as int]);
                        assert(idxs@[j as int] < sched.dates@.len());
                    }
                    let idx = idxs[j];
                    let dlen = sched.dates.len();
                    proof {
                        assert(idx == idxs@[j as int]);
                        assert(idx < sched.dates@.len());
                        assert(sched.dates@.len() == dlen <= usize::MAX);
                        assert(idx as usize as int == idx as int);
                    }
                    let d = sched.dates[idx as usize];
                    if !vec_has(&nd, d) {
                        nd.push(d);
                    }
                    proof {
                        assert(d == sched.dates@[pre.last() as int]);
                        assert(nd@ == dedup_push(old_nd, d));
                        assert(selected_days(sched.dates@, pre) == dedup_push(
                            selected_days(sched.dates@, idxs@.take(j as int)),
                            sched.dates@[pre.last() as int],
                        ));
                        assert(nd@ == selected_days(sched.dates@, pre));
                    }
                    j = j + 1;
                }
                proof {
                    assert(idxs@.take(idxs@.len() as int) =~= idxs@);
                }
                self.draft = Response { dates: nd };
                StepEffect::Redraw
            },
            SessionEvent::SelectAll => {
                let nd = sched.visible_vec();
                proof {
                    lemma_visible_subset(sched.dates@, sched.blackout_dates@);
                }
                self.draft = Response { dates: nd };
                StepEffect::Redraw
            },
            SessionEvent::ClearAll => {
                self.draft = Response { dates: Vec::new() };
                StepEffect::Redraw
            },
            SessionEvent::Submit => {
                let resp = self.draft.duplicate();
                match self.mode {
                    ResponseType::Normal => {
                        sched.add_response(self.user, resp);
                    },
                    ResponseType::Blackout => {
                        sched.set_blackout(resp);
                    },
                }
                self.state = SessionState::Submitted;
                StepEffect::Submitted
            },
            SessionEvent::Delete => {
                sched.delete_response(self.user);
                self.state = SessionState::Deleted;
                StepEffect::Deleted
            },
            SessionEvent::Timeout => {
                self.state = SessionState::TimedOut;
                StepEffect::TimedOut
            },
        }
    }
}

/// The selection surface for a session: one option per offered date,
/// pre-checked from the draft; select-all and clear-all outside blackout
/// mode; submit always; delete exactly when the session allows it.
pub fn selection_ui(sched: &Scheduler, session: &Session) -> (ui: SelectionUi)
    requires
        sched.wf(),
    ensures
        ({
            let idxs = option_indices(sched.dates@, sched.blackout_dates@, session.mode);
            &&& ui.options@.len() == idxs.len()
            &&& forall|k: int|
                0 <= k < idxs.len() ==> {
                    let oi = #[trigger] ui.options@[k];
                    &&& oi.value == idxs[k]
                    &&& oi.label@ == menu_label_of(sched.dates@[idxs[k] as int] as int)
                    &&& oi.selected == session.draft.dates@.contains(
                        sched.dates@[idxs[k] as int],
                    )
                }
            &&& ui.min_values == 0
            &&& ui.max_values == idxs.len()
            &&& ui.buttons@ == (if session.mode != ResponseType::Blackout {
                seq![UiButton::SelectAll, UiButton::ClearAll, UiButton::Submit]
            } else {
                seq![UiButton::Submit]
            }) + (if session.allow_delete {
                seq![UiButton::Delete]
            } else {
                Seq::<UiButton>::empty()
            })
            &&& (ui.buttons@.contains(UiButton::Delete) <==> session.allow_delete)
        }),
{
    let ghost idxs = option_indices(sched.dates@, sched.blackout_dates@, session.mode);
    let mut options: Vec<SelectOption> = Vec::new();
    let mut i: usize = 0;
    while i < sched.dates.len()
        invariant
            sched.wf(),
            i <= sched.dates@.len(),
            ({
                let pre = option_indices(
                    sched.dates@.take(i as int),
                    sched.blackout_dates@,
                    session.mode,
                );
                &&& options@.len() == pre.len()
                &&& forall|k: int|
                    0 <= k < pre.len() ==> {
                        let oi = #[trigger] options@[k];
                        &&& oi.value == pre[k]
                        &&& oi.value < i
                        &&& oi.label@ == menu_label_of(sched.dates@[pre[k] as int] as int)
                        &&& oi.selected == session.draft.dates@.contains(
                            sched.dates@[pre[k] as int],
                        )
                    }
            }),
        decreases sched.dates@.len() - i,
    {
        let ghost pre_next = option_indices(
            sched.dates@.take(i + 1),
            sched.blackout_dates@,
            session.mode,
        );
        proof {
            assert(sched.dates@.take(i + 1).drop_last() =~= sched.dates@.take(i as int));
            assert(sched.dates@.take(i + 1).last() == sched.dates@[i as int]);
        }
        let offered = match session.mode {
            ResponseType::Blackout => true,
            ResponseType::Normal => !vec_has(&sched.blackout_dates, sched.dates[i]),
        };
        if offered {
            let label = day_menu_label(sched.dates[i]);
            let selected = session.draft.contains_day(sched.dates[i]);
            options.push(SelectOption { label, value: i as u64, selected });
        }
        i = i + 1;
    }
    proof {
        assert(sched.dates@.take(sched.dates@.len() as int) =~= sched.dates@);
    }
    let count = options.len();
    let mut buttons: Vec<UiButton> = Vec::new();
    let is_blackout = match session.mode {
        ResponseType::Blackout => true,
        ResponseType::Normal => false,
    };
    if !is_blackout {
        buttons.push(UiButton::SelectAll);
        buttons.push(UiButton::ClearAll);
    }
    buttons.push(UiButton::Submit);
    if session.allow_delete {
        buttons.push(UiButton::Delete);
    }
    proof {
        if is_blackout {
            if session.allow_delete {
                assert(buttons@ =~= seq![UiButton::Submit] + seq![UiButton::Delete]);
            } else {
                assert(buttons@ =~= seq![UiButton::Submit] + Seq::<UiButton>::empty());
            }
        } else {
            if session.allow_delete {
                assert(buttons@ =~= seq![UiButton::SelectAll, UiButton::ClearAll, UiButton::Submit]
                    + seq![UiButton::Delete]);
            } else {
                assert(buttons@ =~= seq![UiButton::SelectAll, UiButton::ClearAll, UiButton::Submit]
                    + Seq::<UiButton>::empty());
            }
        }
        if session.allow_delete {
            assert(buttons@.last() == UiButton::Delete);
            assert(buttons@.contains(UiButton::Delete));
        } else {
            assert(forall|k: int| 0 <= k < buttons@.len() ==> buttons@[k] != UiButton::Delete);
            assert(!buttons@.contains(UiButton::Delete));
        }
    }
    SelectionUi { options, min_values: 0, max_values: count as u64, buttons }
}

/// Decode a delivered action identifier (with the chosen indices of a
/// multi-select) into a session event; an unrecognized identifier is a
/// protocol violation.
pub fn decode_event(custom_id: &String, selections: &Vec<u64>) -> (r: Result<
    SessionEvent,
    ProtocolError,
>)
    ensures
        ({
            if custom_id@ == "submit"@ {
                r matches Ok(SessionEvent::Submit)
            } else if custom_id@ == "select_all"@ {
                r matches Ok(SessionEvent::SelectAll)
            } else if custom_id@ == "clear_all"@ {
                r matches Ok(SessionEvent::ClearAll)
            } else if custom_id@ == "delete"@ {
                r matches Ok(SessionEvent::Delete)
            } else if custom_id@ == "select"@ {
                r matches Ok(SessionEvent::Select(v)) && v@ == selections@
            } else {
                r matches Err(ProtocolError::UnknownAction)
            }
        }),
{
    if custom_id.eq(&String::from_str("submit")) {
        Ok(SessionEvent::Submit)
    } else if custom_id.eq(&String::from_str("select_all")) {
        Ok(SessionEvent::SelectAll)
    } else if custom_id.eq(&String::from_str("clear_all")) {
        Ok(SessionEvent::ClearAll)
    } else if custom_id.eq(&String::from_str("delete")) {
        Ok(SessionEvent::Delete)
    } else if custom_id.eq(&String::from_str("select")) {
        Ok(SessionEvent::Select(copy_days(selections)))
    } else {
        Err(ProtocolError::UnknownAction)
    }
}

/// The absolute deadline of a session, fixed at its start.
pub fn session_deadline(start_secs: u64) -> (r: u64)
    requires
        start_secs + SESSION_TIMEOUT_SECS <= u64::MAX,
    ensures
        r == start_secs + SESSION_TIMEOUT_SECS,
{
    start_secs + SESSION_TIMEOUT_SECS
}

/// The text of a terminal notice; a terminal render carries no actions.
pub fn terminal_notice(eff: StepEffect) -> (r: (String, Vec<UiButton>))
    requires
        eff != StepEffect::Redraw,
    ensures
        r.1@ =~= Seq::<UiButton>::empty(),
        r.0@ == (match eff {
            StepEffect::Submitted => "Response submitted"@,
            StepEffect::Deleted => "Response deleted"@,
            StepEffect::TimedOut => "Response timed out"@,
            StepEffect::Redraw => Seq::<char>::empty(),
        }),
{
    let text = match eff {
        StepEffect::Submitted => String::from_str("Response submitted"),
        StepEffect::Deleted => String::from_str("Response deleted"),
        StepEffect::TimedOut => String::from_str("Response timed out"),
        StepEffect::Redraw => String::new(),
    };
    (text, Vec::new())
}

/// The refusal notice shown when the poll restricts responses to a group
/// the requester is not a member of.
pub fn refusal_notice(group: u64) -> (r: String)
    ensures
        r@ == "Only "@ + crate::textgen::group_mention(group as int) + " may respond"@,
{
    proof {
        reveal_strlit("Only ");
        reveal_strlit(" may respond");
    }
    let mut s = String::new();
    s.append("Only ");
    let m = crate::textgen::group_mention_string(group);
    s.append(m.as_str());
    s.append(" may respond");
    proof {
        assert(s@ =~= "Only "@ + crate::textgen::group_mention(group as int) + " may respond"@);
    }
    s
}

/// Selecting everything and then submitting commits, for the submitting
/// respondent, exactly the candidate dates minus the blackout set as
/// they stand at the moment of the select-all action: the draft is
/// re-derived when the action arrives, not when the session started.
pub proof fn lemma_select_all_then_submit(sched: Scheduler, user: u64)
    ensures
        response_map(sched.responses@).insert(
            user,
            visible_days(sched.dates@, sched.blackout_dates@),
        )[user] == visible_days(sched.dates@, sched.blackout_dates@),
        response_map(sched.responses@).insert(
            user,
            visible_days(sched.dates@, sched.blackout_dates@),
        ).dom().contains(user),
{
}

} // verus!
