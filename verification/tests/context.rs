use herdr_hop::herdr::context::find_string_at_paths;
use herdr_hop::herdr::json::JsonValue;
use herdr_hop::herdr::HerdrContext;
use herdr_hop::model::PaneId;

#[test]
fn extracts_focused_pane_from_context_json() {
    let context = HerdrContext {
        context_json: Some(r#"{"focused_pane":{"id":"pane-123"}}"#.to_string()),
        pane_id: None,
        tab_id: None,
        socket_path: None,
    };
    assert_eq!(context.target_pane(), Some(PaneId::new("pane-123".to_string())));
}

#[test]
fn prefers_direct_pane_id_over_context_json() {
    let context = HerdrContext {
        context_json: Some(r#"{"focused_pane_id":"from-context"}"#.to_string()),
        pane_id: Some("from-env".to_string()),
        tab_id: None,
        socket_path: None,
    };
    assert_eq!(context.target_pane(), Some(PaneId::new("from-env".to_string())));
}

fn from_json(text: &str) -> Option<PaneId> {
    HerdrContext {
        context_json: Some(text.to_string()),
        pane_id: None,
        tab_id: None,
        socket_path: None,
    }
    .target_pane()
}

#[test]
fn paths_are_tried_in_order_and_need_strings() {
    assert_eq!(
        from_json(r#"{"pane_id":"late","pane":{"id":"early"}}"#),
        Some(PaneId::new("early".to_string()))
    );
    assert_eq!(
        from_json(r#"{"focused_pane":{"id":7},"target_pane_id":"fallback"}"#),
        Some(PaneId::new("fallback".to_string()))
    );
    assert_eq!(from_json(r#"{"focused_pane":["id"]}"#), None);
}

#[test]
fn no_pane_without_context_or_with_bad_json() {
    assert_eq!(from_json("{not json"), None);
    let context = HerdrContext {
        context_json: None,
        pane_id: None,
        tab_id: Some("t".to_string()),
        socket_path: None,
    };
    assert_eq!(context.target_pane(), None);
}

#[test]
fn finds_the_first_string_along_given_paths() {
    let value = JsonValue::Object(vec![
        ("a".to_string(), JsonValue::Object(vec![("b".to_string(), JsonValue::Integer(3))])),
        ("c".to_string(), JsonValue::Str("found".to_string())),
        ("d".to_string(), JsonValue::Str("later".to_string())),
    ]);
    let ab: [&str; 2] = ["a", "b"];
    let c: [&str; 1] = ["c"];
    let d: [&str; 1] = ["d"];
    let missing: [&str; 1] = ["x"];
    assert_eq!(find_string_at_paths(&value, &[&ab, &c, &d]), Some("found".to_string()));
    assert_eq!(find_string_at_paths(&value, &[&d, &c]), Some("later".to_string()));
    assert_eq!(find_string_at_paths(&value, &[&missing, &ab]), None);
    assert_eq!(find_string_at_paths(&value, &[]), None);
}
