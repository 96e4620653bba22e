use herdr_hop::model::{assign_labels, jump_targets, LayoutPane, LayoutSnapshot, PaneId, Rect, LABELS};

fn pane(id: &str, x: u16, y: u16, focused: bool) -> LayoutPane {
    LayoutPane {
        pane_id: id.into(),
        rect: Rect {
            x,
            y,
            width: 40,
            height: 20,
        },
        focused,
    }
}

#[test]
fn labels_follow_reading_order_not_snapshot_order() {
    // Snapshot lists them out of visual order; labels must still read top-left first.
    let layout = LayoutSnapshot {
        panes: vec![
            pane("br", 40, 20, false),
            pane("tl", 0, 0, true),
            pane("tr", 40, 0, false),
            pane("bl", 0, 20, false),
        ],
        focused_pane_id: Some("tl".into()),
        zoomed: false,
    };
    let targets = assign_labels(&layout);
    let by_label: Vec<(char, &str)> = targets
        .iter()
        .map(|t| (t.label, t.pane_id.0.as_str()))
        .collect();
    assert_eq!(
        by_label,
        vec![('1', "tl"), ('2', "tr"), ('3', "bl"), ('4', "br")]
    );
}

#[test]
fn labels_are_capped_at_the_alphabet_size() {
    let panes = (0..30)
        .map(|i| pane(&format!("p{i}"), (i % 5) * 40, (i / 5) * 20, false))
        .collect();
    let layout = LayoutSnapshot {
        panes,
        focused_pane_id: None,
        zoomed: false,
    };
    assert_eq!(assign_labels(&layout).len(), LABELS.len());
}

#[test]
fn targets_carry_pane_fields() {
    let layout = LayoutSnapshot {
        panes: vec![pane("b", 10, 5, true), pane("a", 0, 5, false)],
        focused_pane_id: None,
        zoomed: false,
    };
    let targets = assign_labels(&layout);
    assert_eq!(targets.len(), 2);
    assert_eq!(targets[0].pane_id, PaneId::new("a".to_string()));
    assert!(!targets[0].focused);
    assert_eq!(targets[1].pane_id, PaneId::new("b".to_string()));
    assert!(targets[1].focused);
    assert_eq!(targets[1].rect.x, 10);
}

#[test]
fn panes_at_one_position_keep_snapshot_order() {
    let layout = LayoutSnapshot {
        panes: vec![pane("second", 3, 3, false), pane("first", 0, 0, false), pane("third", 3, 3, false)],
        focused_pane_id: None,
        zoomed: false,
    };
    let ids: Vec<String> = assign_labels(&layout).into_iter().map(|t| t.pane_id.0).collect();
    assert_eq!(ids, vec!["first", "second", "third"]);
}

#[test]
fn snapshot_order_does_not_change_labels() {
    let a = LayoutSnapshot {
        panes: vec![pane("x", 0, 0, false), pane("y", 40, 0, false), pane("z", 0, 20, false)],
        focused_pane_id: None,
        zoomed: false,
    };
    let b = LayoutSnapshot {
        panes: vec![pane("z", 0, 20, false), pane("x", 0, 0, false), pane("y", 40, 0, false)],
        focused_pane_id: None,
        zoomed: false,
    };
    assert_eq!(assign_labels(&a), assign_labels(&b));
}

#[test]
fn no_jump_from_a_zoomed_tab_or_a_single_pane() {
    let zoomed = LayoutSnapshot {
        panes: vec![pane("a", 0, 0, true), pane("b", 40, 0, false)],
        focused_pane_id: None,
        zoomed: true,
    };
    assert!(jump_targets(&zoomed).is_none());
    let single = LayoutSnapshot {
        panes: vec![pane("a", 0, 0, true)],
        focused_pane_id: None,
        zoomed: false,
    };
    assert!(jump_targets(&single).is_none());
    let two = LayoutSnapshot {
        panes: vec![pane("a", 0, 0, true), pane("b", 40, 0, false)],
        focused_pane_id: None,
        zoomed: false,
    };
    assert_eq!(jump_targets(&two).map(|t| t.len()), Some(2));
}
