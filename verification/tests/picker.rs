use herdr_hop::cellsize::query_cell_size;
use herdr_hop::model::{assign_labels, CellSize, LayoutPane, LayoutSnapshot, PaneId, Rect, Target};
use herdr_hop::picker::{
    cell_size_or_fallback, closing_actions, fallback_cell_size, step, wait_for, wait_millis,
    ChoiceState, ChoiceStep, ClosingAction,
};

fn targets() -> Vec<Target> {
    ['1', '2', 'a']
        .iter()
        .map(|&label| Target {
            label,
            pane_id: PaneId::new(format!("w:p{label}")),
            rect: Rect {
                x: 0,
                y: 0,
                width: 40,
                height: 20,
            },
            focused: false,
        })
        .collect()
}

/// Drives the keystroke reader from a scripted byte sequence that then goes quiet, as a pump
/// fed these bytes would, so the decision logic is tested without a real terminal.
fn pick_from(bytes: &[u8]) -> Option<String> {
    let targets = targets();
    let mut state = ChoiceState::Waiting;
    let mut events = bytes.iter().copied();
    loop {
        match step(state, events.next(), &targets) {
            ChoiceStep::Continue(next) => state = next,
            ChoiceStep::Done(choice) => return choice.map(|i| targets[i].pane_id.0.clone()),
        }
    }
}

#[test]
fn a_matching_label_selects_its_pane() {
    assert_eq!(pick_from(b"2").as_deref(), Some("w:p2"));
    assert_eq!(
        pick_from(b"A").as_deref(),
        Some("w:pa"),
        "labels are case-insensitive"
    );
}

#[test]
fn ctrl_c_and_lone_escape_cancel() {
    assert_eq!(pick_from(b"\x03"), None);
    assert_eq!(pick_from(b"\x1b"), None);
}

#[test]
fn an_arrow_key_is_ignored_then_a_label_still_works() {
    // ESC [ C is right-arrow; it must not cancel, and the following '1' should win.
    assert_eq!(pick_from(b"\x1b[C1").as_deref(), Some("w:p1"));
}

#[test]
fn an_unknown_label_is_ignored_then_a_valid_one_wins() {
    assert_eq!(pick_from(b"z1").as_deref(), Some("w:p1"));
}

#[test]
fn cell_size_timeout_keeps_popup_surface_blank() {
    // When no report arrives, the fallback cell size is used; the only bytes the picker writes
    // to the popup are the query, which is an escape sequence and prints nothing.
    let cell = cell_size_or_fallback(None);

    assert_eq!(cell, fallback_cell_size());
    assert_eq!(cell, CellSize { width_px: 10, height_px: 20 });
    assert_eq!(query_cell_size(), b"\x1b[16t".to_vec());
}

#[test]
fn a_measured_cell_size_wins_over_the_fallback() {
    let measured = CellSize { width_px: 16, height_px: 38 };
    assert_eq!(cell_size_or_fallback(Some(measured)), measured);
}

#[test]
fn ss3_sequences_and_late_reports_are_drained() {
    // ESC O P is F1; a late cell-size report is a CSI sequence too.
    assert_eq!(pick_from(b"\x1bOPa").as_deref(), Some("w:pa"));
    assert_eq!(pick_from(b"\x1b[6;40;17t2").as_deref(), Some("w:p2"));
    // Escape followed by another key: the key is dropped, reading goes on.
    assert_eq!(pick_from(b"\x1bx1").as_deref(), Some("w:p1"));
    // Nothing at all: the wait runs out.
    assert_eq!(pick_from(b""), None);
}

#[test]
fn waits_are_long_for_keys_and_short_inside_escapes() {
    assert_eq!(wait_millis(ChoiceState::Waiting), 20_000);
    assert_eq!(wait_millis(ChoiceState::AfterEscape), 20);
    assert_eq!(wait_millis(ChoiceState::InSequence), 20);
}

#[test]
fn pressing_each_label_chooses_its_pane() {
    let panes = (0..20u16)
        .map(|i| LayoutPane {
            pane_id: format!("p{i}"),
            rect: Rect { x: (i % 4) * 10, y: (i / 4) * 10, width: 10, height: 10 },
            focused: false,
        })
        .collect();
    let targets = assign_labels(&LayoutSnapshot { panes, focused_pane_id: None, zoomed: false });
    for (i, t) in targets.iter().enumerate() {
        assert_eq!(step(ChoiceState::Waiting, Some(t.label as u8), &targets), ChoiceStep::Done(Some(i)));
        let upper = (t.label as u8).to_ascii_uppercase();
        assert_eq!(step(ChoiceState::Waiting, Some(upper), &targets), ChoiceStep::Done(Some(i)));
    }
}

#[test]
fn a_run_of_unrelated_keys_is_ignored() {
    assert_eq!(pick_from(b"zxq!Z 2").as_deref(), Some("w:p2"));
    assert_eq!(pick_from(b"zzzz"), None);
}

#[test]
fn waits_never_run_past_the_close() {
    assert_eq!(wait_for(ChoiceState::Waiting, 0), 20_000);
    assert_eq!(wait_for(ChoiceState::Waiting, 12_345), 7_655);
    assert_eq!(wait_for(ChoiceState::Waiting, 20_000), 0);
    assert_eq!(wait_for(ChoiceState::Waiting, 99_999), 0);
    assert_eq!(wait_for(ChoiceState::AfterEscape, 100), 20);
    assert_eq!(wait_for(ChoiceState::InSequence, 19_990), 10);
}

#[test]
fn labels_are_cleared_before_focus() {
    assert_eq!(
        closing_actions(&[true, false, true], Some(1)),
        vec![ClosingAction::Clear(0), ClosingAction::Clear(2), ClosingAction::Focus(1)]
    );
    assert_eq!(closing_actions(&[false, true], None), vec![ClosingAction::Clear(1)]);
    assert_eq!(closing_actions(&[], Some(0)), vec![ClosingAction::Focus(0)]);
    assert_eq!(closing_actions(&[false, false], None), vec![]);
}
