use chrono::{Datelike, NaiveDate};
use datepoll::response::{Response, ResponseType};
use datepoll::scheduler::{Scheduler, Surface};
use datepoll::session::{
    decode_event, selection_ui, session_deadline, terminal_notice, Session, SessionEvent,
    SessionState, StepEffect, SESSION_TIMEOUT_SECS,
};
use datepoll::surface::{ProtocolError, UiButton};

fn day_of(y: i32, m: u32, d: u32) -> u64 {
    NaiveDate::from_ymd_opt(y, m, d).unwrap().num_days_from_ce() as u64
}

fn surface(id: u64) -> Surface {
    Surface { message_id: id, channel_id: 50 }
}

fn all_weekdays() -> Vec<bool> {
    vec![true; 7]
}

/// A poll whose candidates are Mon 2024-01-08, Tue 2024-01-09, Wed 2024-01-10:
/// created the Sunday before, three consecutive days allowed.
fn mon_tue_wed_poll() -> Scheduler {
    let days = vec![true, true, true, false, false, false, false];
    let today = day_of(2024, 1, 7); // a Sunday
    let s = Scheduler::new(10, None, surface(1), 3, None, "plan", days, today);
    assert_eq!(s.dates, vec![day_of(2024, 1, 8), day_of(2024, 1, 9), day_of(2024, 1, 10)]);
    s
}

fn heading(day: u64) -> String {
    NaiveDate::from_num_days_from_ce_opt(day as i32)
        .unwrap()
        .format("%a %Y-%m-%d")
        .to_string()
}

#[test]
fn creation_count_is_multiple_of_weekdays() {
    let days = vec![true, false, true, false, false, false, false]; // Mon, Wed
    let today = day_of(2024, 3, 1);
    let s = Scheduler::new(1, None, surface(2), 5, None, "t", days, today);
    // 5 rounded down to a multiple of 2 enabled weekdays
    assert_eq!(s.dates.len(), 4);
    for d in &s.dates {
        let wd = NaiveDate::from_num_days_from_ce_opt(*d as i32)
            .unwrap()
            .weekday()
            .num_days_from_monday();
        assert!(wd == 0 || wd == 2);
        assert!(*d > today);
    }
    for w in s.dates.windows(2) {
        assert!(w[0] < w[1]);
    }
}

#[test]
fn creation_respects_week_skip() {
    // today is a Friday; two weeks skipped land the start on a Saturday
    let days = vec![false, false, false, false, false, true, true]; // Sat, Sun
    let today = day_of(2024, 3, 1);
    let s = Scheduler::new(1, None, surface(2), 2, Some(2), "t", days, today);
    assert_eq!(s.dates, vec![today + 15, today + 16]);
}

#[test]
fn creation_with_zero_limit_is_empty() {
    let s = Scheduler::new(1, None, surface(2), 0, None, "t", all_weekdays(), day_of(2024, 3, 1));
    assert!(s.dates.is_empty());
}

#[test]
fn responses_replace_and_delete() {
    let mut s = mon_tue_wed_poll();
    let d0 = s.dates[0];
    let d2 = s.dates[2];
    s.add_response(5, Response::from(vec![d0]));
    s.add_response(9, Response::from(vec![d2]));
    s.add_response(5, Response::from(vec![d0, d2]));
    assert_eq!(s.committed_response(5).unwrap().dates, vec![d0, d2]);
    assert_eq!(s.committed_response(9).unwrap().dates, vec![d2]);
    s.delete_response(9);
    assert!(s.committed_response(9).is_none());
    assert_eq!(s.committed_response(5).unwrap().dates, vec![d0, d2]);
}

#[test]
fn responded_summary_counts_and_mentions() {
    let mut s = mon_tue_wed_poll();
    assert_eq!(s.get_responses(), "**0**");
    let d0 = s.dates[0];
    s.add_response(5, Response::from(vec![d0]));
    s.add_response(9, Response::from(vec![]));
    assert_eq!(s.get_responses(), "**2** (<@5>, <@9>)");
    s.add_response(u64::MAX, Response::from(vec![]));
    assert_eq!(
        s.get_responses(),
        "**3** (<@5>, <@9>, <@18446744073709551615>)"
    );
}

#[test]
fn tally_counts_marks_and_order() {
    let mut s = mon_tue_wed_poll();
    let (d0, d1, d2) = (s.dates[0], s.dates[1], s.dates[2]);
    s.add_response(5, Response::from(vec![d0, d2]));
    s.add_response(9, Response::from(vec![d0]));
    s.set_blackout(Response::from(vec![d1]));
    let lines = s.get_results(false);
    assert_eq!(lines.len(), 2);
    assert_eq!(lines[0], format!("__`{}:`__ {}", heading(d0), 2));
    assert_eq!(lines[1], format!("`{}:` {}", heading(d2), 1));
}

#[test]
fn tally_zero_max_marks_nothing() {
    let s = mon_tue_wed_poll();
    let lines = s.get_results(false);
    assert_eq!(lines.len(), 3);
    for (i, line) in lines.iter().enumerate() {
        assert_eq!(*line, format!("`{}:` 0", heading(s.dates[i])));
    }
}

#[test]
fn detailed_tally_lists_sorted_mentions() {
    let mut s = mon_tue_wed_poll();
    let d0 = s.dates[0];
    s.add_response(9, Response::from(vec![d0]));
    s.add_response(5, Response::from(vec![d0]));
    let lines = s.get_results(true);
    assert_eq!(lines[0], format!("__`{}:`__ 2 - <@5>, <@9>", heading(d0)));
    assert_eq!(lines[1], format!("`{}:` 0", heading(s.dates[1])));
}

#[test]
fn select_all_then_submit_commits_candidates_minus_blackout() {
    // dates = {Mon, Tue, Wed}, blackout = {Tue}: select_all must re-derive
    // the draft from the blackout state at click time.
    let mut s = mon_tue_wed_poll();
    let (d0, d1, d2) = (s.dates[0], s.dates[1], s.dates[2]);
    let mut session = Session::open(&s, 5, ResponseType::Normal);
    // blackout changes after the session started
    s.set_blackout(Response::from(vec![d1]));
    let eff = session.step(&mut s, SessionEvent::SelectAll);
    assert_eq!(eff, StepEffect::Redraw);
    assert_eq!(session.draft.dates, vec![d0, d2]);
    let eff = session.step(&mut s, SessionEvent::Submit);
    assert_eq!(eff, StepEffect::Submitted);
    assert_eq!(session.state, SessionState::Submitted);
    assert_eq!(s.committed_response(5).unwrap().dates, vec![d0, d2]);
}

#[test]
fn select_replaces_draft_wholesale() {
    let mut s = mon_tue_wed_poll();
    let (d0, d2) = (s.dates[0], s.dates[2]);
    let mut session = Session::open(&s, 5, ResponseType::Normal);
    session.step(&mut s, SessionEvent::Select(vec![0, 2, 0]));
    assert_eq!(session.draft.dates, vec![d0, d2]);
    session.step(&mut s, SessionEvent::Select(vec![1]));
    assert_eq!(session.draft.dates, vec![s.dates[1]]);
    session.step(&mut s, SessionEvent::ClearAll);
    assert!(session.draft.dates.is_empty());
}

#[test]
fn delete_not_offered_without_prior_response() {
    let s = mon_tue_wed_poll();
    let session = Session::open(&s, 5, ResponseType::Normal);
    assert!(!session.allow_delete);
    let ui = selection_ui(&s, &session);
    assert!(!ui.buttons.contains(&UiButton::Delete));
    assert_eq!(ui.buttons, vec![UiButton::SelectAll, UiButton::ClearAll, UiButton::Submit]);
}

#[test]
fn delete_offered_and_removes_response() {
    let mut s = mon_tue_wed_poll();
    let d0 = s.dates[0];
    s.add_response(5, Response::from(vec![d0]));
    let mut session = Session::open(&s, 5, ResponseType::Normal);
    assert!(session.allow_delete);
    let ui = selection_ui(&s, &session);
    assert!(ui.buttons.contains(&UiButton::Delete));
    let eff = session.step(&mut s, SessionEvent::Delete);
    assert_eq!(eff, StepEffect::Deleted);
    assert_eq!(session.state, SessionState::Deleted);
    assert!(s.committed_response(5).is_none());
}

#[test]
fn selection_ui_hides_blacked_out_dates_in_normal_mode() {
    let mut s = mon_tue_wed_poll();
    let d1 = s.dates[1];
    s.set_blackout(Response::from(vec![d1]));
    s.add_response(5, Response::from(vec![s.dates[0]]));
    let session = Session::open(&s, 5, ResponseType::Normal);
    let ui = selection_ui(&s, &session);
    let values: Vec<u64> = ui.options.iter().map(|o| o.value).collect();
    assert_eq!(values, vec![0, 2]);
    assert_eq!(ui.min_values, 0);
    assert_eq!(ui.max_values, 2);
    assert!(ui.options[0].selected);
    assert!(!ui.options[1].selected);
    let expected_label = NaiveDate::from_num_days_from_ce_opt(s.dates[0] as i32)
        .unwrap()
        .format("%a %b %d")
        .to_string();
    assert_eq!(ui.options[0].label, expected_label);
}

#[test]
fn blackout_session_offers_all_dates_and_sets_blackout() {
    let mut s = mon_tue_wed_poll();
    let d1 = s.dates[1];
    s.set_blackout(Response::from(vec![d1]));
    let session = Session::open(&s, 10, ResponseType::Blackout);
    assert!(!session.allow_delete);
    assert_eq!(session.draft.dates, vec![d1]);
    let ui = selection_ui(&s, &session);
    assert_eq!(ui.options.len(), 3);
    assert_eq!(ui.buttons, vec![UiButton::Submit]);
    let mut session = session;
    session.step(&mut s, SessionEvent::Select(vec![0, 1]));
    session.step(&mut s, SessionEvent::Submit);
    assert_eq!(s.blackout_dates, vec![s.dates[0], d1]);
}

#[test]
fn timeout_leaves_responses_unchanged() {
    let mut s = mon_tue_wed_poll();
    let d0 = s.dates[0];
    s.add_response(9, Response::from(vec![d0]));
    let mut session = Session::open(&s, 5, ResponseType::Normal);
    session.step(&mut s, SessionEvent::Select(vec![0]));
    let eff = session.step(&mut s, SessionEvent::Timeout);
    assert_eq!(eff, StepEffect::TimedOut);
    assert_eq!(session.state, SessionState::TimedOut);
    assert!(s.committed_response(5).is_none());
    assert_eq!(s.committed_response(9).unwrap().dates, vec![d0]);
    let (text, actions) = terminal_notice(StepEffect::TimedOut);
    assert_eq!(text, "Response timed out");
    assert!(actions.is_empty());
}

#[test]
fn terminal_notices_for_submit_and_delete() {
    let (text, actions) = terminal_notice(StepEffect::Submitted);
    assert_eq!(text, "Response submitted");
    assert!(actions.is_empty());
    let (text, actions) = terminal_notice(StepEffect::Deleted);
    assert_eq!(text, "Response deleted");
    assert!(actions.is_empty());
}

#[test]
fn deadline_is_fixed_at_start() {
    assert_eq!(SESSION_TIMEOUT_SECS, 840);
    assert_eq!(session_deadline(1000), 1840);
}

#[test]
fn decode_event_maps_identifiers() {
    let none: Vec<u64> = vec![];
    assert!(matches!(
        decode_event(&"submit".to_string(), &none),
        Ok(SessionEvent::Submit)
    ));
    assert!(matches!(
        decode_event(&"select_all".to_string(), &none),
        Ok(SessionEvent::SelectAll)
    ));
    assert!(matches!(
        decode_event(&"clear_all".to_string(), &none),
        Ok(SessionEvent::ClearAll)
    ));
    assert!(matches!(
        decode_event(&"delete".to_string(), &none),
        Ok(SessionEvent::Delete)
    ));
    match decode_event(&"select".to_string(), &vec![2, 0]) {
        Ok(SessionEvent::Select(v)) => assert_eq!(v, vec![2, 0]),
        _ => panic!("select not decoded"),
    }
    assert!(matches!(
        decode_event(&"anything_else".to_string(), &none),
        Err(ProtocolError::UnknownAction)
    ));
}

#[test]
fn pagination_respects_ceiling_and_reproduces_lines() {
    let lines: Vec<String> = (0..7).map(|i| format!("{}", i).repeat(600)).collect();
    let chunks = datepoll::tally::paginate(&lines);
    for c in &chunks {
        assert!(c.chars().count() <= 2000);
    }
    let blob: String = chunks.concat();
    let expected: String = lines.iter().map(|l| format!("{}\n", l)).collect();
    assert_eq!(blob, expected);
    // no line is split: every chunk is a concatenation of whole lines
    for c in &chunks {
        for part in c.split_terminator('\n') {
            assert!(lines.iter().any(|l| l == part));
        }
    }
}

#[test]
fn pagination_fills_a_chunk_to_exactly_the_ceiling() {
    // a 1999-character line plus its line break fills a chunk exactly
    let lines: Vec<String> = vec!["x".repeat(1999), "y".repeat(10)];
    let chunks = datepoll::tally::paginate(&lines);
    assert_eq!(chunks.len(), 2);
    assert_eq!(chunks[0].chars().count(), 2000);
    assert_eq!(chunks[0], format!("{}\n", "x".repeat(1999)));
    assert_eq!(chunks[1], format!("{}\n", "y".repeat(10)));
}

#[test]
fn pagination_of_nothing_is_one_empty_chunk() {
    let lines: Vec<String> = vec![];
    let chunks = datepoll::tally::paginate(&lines);
    assert_eq!(chunks, vec![String::new()]);
}

#[test]
fn show_details_chunks_and_owner_action() {
    let mut s = mon_tue_wed_poll();
    s.add_response(5, Response::from(vec![s.dates[0]]));
    let view = s.show_details(10).unwrap(); // owner
    assert_eq!(view.final_actions, vec![UiButton::Blackout]);
    let joined: String = view.chunks.concat();
    let expected: String =
        s.get_results(true).iter().map(|l| format!("{}\n", l)).collect();
    assert_eq!(joined, expected);
    let view = s.show_details(5).unwrap(); // not the owner
    assert!(view.final_actions.is_empty());
}

#[test]
fn show_details_rejects_oversized_line() {
    let mut s = mon_tue_wed_poll();
    let d0 = s.dates[0];
    // enough respondents that one detailed line passes the ceiling
    for u in 0..200u64 {
        s.add_response(1_000_000_000_000_000_000 + u, Response::from(vec![d0]));
    }
    assert!(matches!(s.show_details(10), Err(ProtocolError::OversizedLine)));
}

#[test]
fn update_messages_payload_and_targets() {
    let mut s = Scheduler::new(
        10,
        Some(7),
        surface(1),
        3,
        None,
        "plan",
        vec![true, true, true, false, false, false, false],
        day_of(2024, 1, 7),
    );
    let (payload, targets) = s.update_messages();
    assert_eq!(payload.content, "<@&7>");
    assert_eq!(payload.title, "plan");
    assert_eq!(payload.banner, "");
    assert_eq!(payload.responded, "**0**");
    let expected_results: String = s.get_results(false).join("\n");
    assert_eq!(payload.results, expected_results);
    assert_eq!(payload.actions, vec![UiButton::AddResponse, UiButton::ShowDetails]);
    assert_eq!(targets, vec![surface(1)]);

    s.close();
    let old = s.repost(Some(surface(4)));
    assert!(old.is_none());
    let (payload, targets) = s.update_messages();
    assert_eq!(payload.banner, "Final results");
    assert_eq!(payload.actions, vec![UiButton::ShowDetails]);
    assert_eq!(targets, vec![surface(1), surface(4)]);
}

#[test]
fn repost_replacement_returns_old_surface_first() {
    let mut s = mon_tue_wed_poll();
    assert!(s.get_repost().is_none());
    let old = s.repost(Some(surface(4)));
    assert!(old.is_none());
    assert_eq!(s.get_repost(), Some(4));
    // replacing hands back the old surface so it can be deleted first
    let old = s.repost(Some(surface(6)));
    assert_eq!(old, Some(surface(4)));
    assert_eq!(s.get_repost(), Some(6));
    // clearing hands back the stored surface and leaves none behind
    let old = s.delete_repost();
    assert_eq!(old, Some(surface(6)));
    assert!(s.get_repost().is_none());
}

#[test]
fn refusal_notice_names_group() {
    assert_eq!(datepoll::session::refusal_notice(7), "Only <@&7> may respond");
}

#[test]
fn poll_identity_is_primary_surface() {
    let s = mon_tue_wed_poll();
    assert_eq!(s.get_id(), 1);
}

#[test]
fn current_day_number_is_in_modern_range() {
    let today = datepoll::dates::current_day_number();
    // between years 2000 and 3000
    assert!(today > day_of(2000, 1, 1) as i64);
    assert!(today < day_of(3000, 1, 1) as i64);
    assert_eq!(datepoll::dates::valid_day(today), Some(today as u64));
    assert_eq!(datepoll::dates::valid_day(0), None);
    assert_eq!(datepoll::dates::valid_day(4_000_000), None);
}
