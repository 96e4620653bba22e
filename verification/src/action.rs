//! The `jump` action's decisions: whether there is anywhere to jump, and the popup it opens.

use vstd::prelude::*;
use crate::herdr::client::{is_text, object_of_len, open_popup_params};
use crate::herdr::json::{json_get, JsonValue};

verus! {

/// Plugin id, matched against `herdr-plugin.toml`.
pub const PLUGIN_ID: &'static str = "youguanxinqing.herdr-hop";

/// Popup entrypoint id, matched against the `[[panes]]` block in `herdr-plugin.toml`.
pub const PICKER_ENTRYPOINT: &'static str = "picker";

/// Width of the picker popup: the 6x4 minimum Herdr clamps to anyway.
pub const POPUP_WIDTH: u16 = 6;

/// Height of the picker popup.
pub const POPUP_HEIGHT: u16 = 4;

/// Parameters of the `plugin.pane.open` request that launches the picker, handing it the
/// serialized targets in `HOP_TARGETS_JSON`.
pub fn picker_popup_params(targets_json: String) -> (r: JsonValue)
    ensures
        object_of_len(r, 7),
        is_text(json_get(r, "plugin_id"@), PLUGIN_ID@),
        is_text(json_get(r, "entrypoint"@), PICKER_ENTRYPOINT@),
        is_text(json_get(r, "placement"@), "popup"@),
        json_get(r, "width"@) == Some(JsonValue::Integer(6)),
        json_get(r, "height"@) == Some(JsonValue::Integer(4)),
        json_get(r, "focus"@) == Some(JsonValue::Bool(true)),
        json_get(r, "env"@) matches Some(env) && object_of_len(env, 1) && is_text(
            json_get(env, "HOP_TARGETS_JSON"@),
            targets_json@,
        ),
{
    let mut env: Vec<(String, JsonValue)> = Vec::new();
    env.push(("HOP_TARGETS_JSON".to_owned(), JsonValue::Str(targets_json)));
    proof {
        crate::herdr::json::lemma_entry_named_first(env@, "HOP_TARGETS_JSON"@, 0);
    }
    open_popup_params(PLUGIN_ID, PICKER_ENTRYPOINT, POPUP_WIDTH, POPUP_HEIGHT, env)
}

} // verus!
