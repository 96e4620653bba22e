use herdr_hop::action::picker_popup_params;
use herdr_hop::herdr::client::{
    decode, open_popup_params, overlay_params, pane_id_params, pane_layout_params, request,
    HerdrError,
};
use herdr_hop::herdr::json::JsonValue;
use herdr_hop::herdr::socket::{response_from_frame, FrameError};
use herdr_hop::herdr::{HerdrClient, Overlay, Placement};
use herdr_hop::model::PaneId;

/// The document in `text`, read through the response framing.
fn json(text: &str) -> JsonValue {
    let mut bytes = text.as_bytes().to_vec();
    bytes.push(b'\n');
    response_from_frame(&bytes).unwrap()
}

fn text_of(v: Option<&JsonValue>) -> Option<String> {
    v.and_then(|v| v.as_str()).cloned()
}

#[test]
fn decode_returns_result_on_id_match() {
    let ok = decode(
        json(r#"{"id": "a", "result": {"layout": {}}}"#),
        "a",
        "pane.layout",
    )
    .unwrap();
    assert!(ok.get("layout").is_some());
}

#[test]
fn decode_surfaces_declared_error_code_and_message() {
    let err = decode(
        json(r#"{"id": "a", "error": {"code": "feature_disabled", "message": "off"}}"#),
        "a",
        "pane.graphics.set",
    )
    .unwrap_err()
    .message();
    assert!(err.contains("feature_disabled") && err.contains("off"));
}

#[test]
fn decode_rejects_id_mismatch() {
    assert!(decode(json(r#"{"id": "b", "result": {}}"#), "a", "pane.focus").is_err());
}

#[test]
fn decode_error_texts() {
    let err = decode(json(r#"{"id": "b", "result": {}}"#), "a", "pane.focus").unwrap_err();
    assert_eq!(
        err,
        HerdrError::IdMismatch {
            method: "pane.focus".into(),
            expected: "a".into(),
            got: "b".into()
        }
    );
    assert_eq!(err.message(), "Herdr response id mismatch on pane.focus: expected a, got b");
    let err = decode(json(r#"{"id": 3, "result": {}}"#), "a", "m").unwrap_err();
    assert_eq!(err.message(), "Herdr response to m had no id");
    let err = decode(json(r#"{"id": "a", "error": {"code": 5}}"#), "a", "m").unwrap_err();
    assert_eq!(err.message(), "Herdr error on m: unknown: Herdr request failed");
    let err = decode(json(r#"{"id": "a"}"#), "a", "m").unwrap_err();
    assert_eq!(err.message(), "Herdr response to m had neither result nor error");
    // an error wins over a result, and a null result is still a result
    assert!(decode(json(r#"{"id": "a", "error": null, "result": 1}"#), "a", "m").is_err());
    assert!(matches!(
        decode(json(r#"{"id": "a", "result": null}"#), "a", "m"),
        Ok(JsonValue::Null)
    ));
}

#[test]
fn overlay_serializes_without_owner_field() {
    let overlay = Overlay {
        pane_id: "w:p1".into(),
        format: "png".into(),
        image_width: 10,
        image_height: 20,
        data_base64: "AAAA".into(),
        z_index: 100,
        placement: Placement {
            viewport_col: 1,
            viewport_row: 2,
            grid_cols: 3,
            grid_rows: 4,
        },
    };
    let value = overlay_params(&overlay);
    assert!(value.get("owner").is_none());
    assert!(matches!(
        value.get("placement").and_then(|p| p.get("grid_cols")),
        Some(JsonValue::Integer(3))
    ));
    assert_eq!(text_of(value.get("format")).as_deref(), Some("png"));
}

#[test]
fn open_popup_sends_the_minimal_focused_request() {
    let env = vec![("HOP_TARGETS_JSON".to_string(), JsonValue::Str("[]".to_string()))];
    let params = open_popup_params("example.hop", "picker", 6, 4, env);
    let req = request("id-1", "plugin.pane.open", params);
    assert_eq!(text_of(req.get("method")).as_deref(), Some("plugin.pane.open"));
    let params = req.get("params").unwrap();
    assert_eq!(text_of(params.get("plugin_id")).as_deref(), Some("example.hop"));
    assert_eq!(text_of(params.get("entrypoint")).as_deref(), Some("picker"));
    assert_eq!(text_of(params.get("placement")).as_deref(), Some("popup"));
    assert!(matches!(params.get("width"), Some(JsonValue::Integer(6))));
    assert!(matches!(params.get("height"), Some(JsonValue::Integer(4))));
    assert!(matches!(params.get("focus"), Some(JsonValue::Bool(true))));
    assert_eq!(
        text_of(params.get("env").and_then(|e| e.get("HOP_TARGETS_JSON"))).as_deref(),
        Some("[]")
    );
}

#[test]
fn picker_popup_is_the_plugins_6x4_picker() {
    let params = picker_popup_params("[1]".to_string());
    assert_eq!(text_of(params.get("plugin_id")).as_deref(), Some("youguanxinqing.herdr-hop"));
    assert_eq!(text_of(params.get("entrypoint")).as_deref(), Some("picker"));
    assert!(matches!(params.get("width"), Some(JsonValue::Integer(6))));
    assert!(matches!(params.get("height"), Some(JsonValue::Integer(4))));
}

#[test]
fn pane_params() {
    let p = pane_layout_params(Some(&PaneId::new("w:p2".to_string())));
    assert_eq!(text_of(p.get("pane_id")).as_deref(), Some("w:p2"));
    let p = pane_layout_params(None);
    assert!(matches!(p.get("current"), Some(JsonValue::Bool(true))));
    let p = pane_id_params("w:p3");
    assert_eq!(text_of(p.get("pane_id")).as_deref(), Some("w:p3"));
}

#[test]
fn rejects_truncated_responses() {
    let err = response_from_frame(b"{}").unwrap_err();
    assert_eq!(err, FrameError::Truncated);
    assert!(err.message().contains("truncated"));
    assert_eq!(response_from_frame(b"").unwrap_err(), FrameError::Closed);
    assert_eq!(response_from_frame(b"{\n").unwrap_err(), FrameError::Malformed);
    let big = vec![b' '; 4 * 1024 * 1024 + 1];
    assert_eq!(response_from_frame(&big).unwrap_err(), FrameError::TooLarge);
    let ok = response_from_frame(b"{\"id\":\"x\",\"result\":{}}\n").unwrap();
    assert_eq!(text_of(ok.get("id")).as_deref(), Some("x"));
}

#[test]
fn json_parsing_keeps_what_is_read() {
    match json("[1, 2.5, -3, 18446744073709551615]") {
        JsonValue::Array(items) => {
            assert!(matches!(items[0], JsonValue::Integer(1)));
            assert!(matches!(items[1], JsonValue::NonInteger));
            assert!(matches!(items[2], JsonValue::Integer(-3)));
            assert!(matches!(items[3], JsonValue::Integer(18446744073709551615)));
        }
        _ => panic!("not an array"),
    }
    assert_eq!(response_from_frame(b"\xff\n").unwrap_err(), FrameError::Malformed);
    assert_eq!(response_from_frame(b"{} extra\n").unwrap_err(), FrameError::Malformed);
}

#[test]
fn client_keeps_its_socket_path() {
    let client = HerdrClient::new(std::path::PathBuf::from("/tmp/herdr.sock"));
    assert_eq!(client.transport_ref().path(), &std::path::PathBuf::from("/tmp/herdr.sock"));
}
