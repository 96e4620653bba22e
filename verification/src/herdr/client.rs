//! The Herdr socket client's data: overlays and their placement.

use vstd::prelude::*;
use vstd::string::StringExecFns;
use crate::herdr::json::{json_get, json_str, lemma_entry_named_first, JsonValue};
use crate::herdr::socket::UnixSocketTransport;
use crate::model::PaneId;

verus! {

/// Where an overlay sits, in pane grid cells.
#[derive(Debug, Clone, Copy, PartialEq, Eq, Structural)]
pub struct Placement {
    pub viewport_col: i32,
    pub viewport_row: i32,
    pub grid_cols: u32,
    pub grid_rows: u32,
}

/// A pane graphics overlay ready to submit: a pixel image plus where it sits in the pane grid.
#[derive(Debug, Clone)]
pub struct Overlay {
    pub pane_id: String,
    pub format: String,
    pub image_width: u32,
    pub image_height: u32,
    pub data_base64: String,
    pub z_index: i32,
    pub placement: Placement,
}

/// Herdr socket client scoped to the calls the plugin makes.
#[derive(Debug)]
pub struct HerdrClient {
    transport: UnixSocketTransport,
}

#[verifier::external_type_specification]
#[verifier::external_body]
pub struct ExPathBuf(std::path::PathBuf);

impl HerdrClient {
    /// A client for the Herdr socket at `socket_path`.
    pub fn new(socket_path: std::path::PathBuf) -> (client: Self)
        ensures
            client.transport().socket_path() == socket_path,
    {
        HerdrClient { transport: UnixSocketTransport::new(socket_path) }
    }

    /// The transport this client sends its requests through.
    pub closed spec fn transport(&self) -> UnixSocketTransport {
        self.transport
    }

    /// The transport this client sends its requests through.
    pub fn transport_ref(&self) -> (t: &UnixSocketTransport)
        ensures
            *t == self.transport(),
    {
        &self.transport
    }
}

/// Why a Herdr response could not be used.
#[derive(Debug, Clone, PartialEq, Eq)]
pub enum HerdrError {
    /// The response answers another request.
    IdMismatch { method: String, expected: String, got: String },
    /// The response carries no string id.
    MissingId { method: String },
    /// Herdr declared an error.
    Declared { method: String, code: String, message: String },
    /// The response has neither a result nor an error.
    NoResult { method: String },
}

/// The id a response echoes, when it has a string id.
pub open spec fn response_id(response: JsonValue) -> Option<Seq<char>> {
    match json_get(response, "id"@) {
        Some(v) => json_str(v),
        None => None,
    }
}

/// The string under `key` in `v`, or `default`.
pub open spec fn text_or(v: JsonValue, key: Seq<char>, default: Seq<char>) -> Seq<char> {
    match json_get(v, key) {
        Some(found) => match json_str(found) {
            Some(s) => s,
            None => default,
        },
        None => default,
    }
}

fn text_or_default(v: &JsonValue, key: &str, default: &str) -> (s: String)
    ensures
        s@ == text_or(*v, key@, default@),
{
    match v.get(key) {
        Some(found) => match found.as_str() {
            Some(text) => text.clone(),
            None => default.to_owned(),
        },
        None => default.to_owned(),
    }
}

/// Checks the id echo of a response, then unwraps its result or the error Herdr declared.
pub fn decode(response: JsonValue, id: &str, method: &str) -> (r: Result<JsonValue, HerdrError>)
    ensures
        response_id(response) is None ==> (r matches Err(HerdrError::MissingId { method: m })
            && m@ == method@),
        (response_id(response) is Some && response_id(response) != Some(id@)) ==> (r matches Err(
            HerdrError::IdMismatch { method: m, expected: e, got: g },
        ) && m@ == method@ && e@ == id@ && response_id(response) == Some(g@)),
        response_id(response) == Some(id@) ==> match json_get(response, "error"@) {
            Some(err) => r matches Err(HerdrError::Declared { method: m, code: c, message: msg })
                && m@ == method@ && c@ == text_or(err, "code"@, "unknown"@) && msg@ == text_or(
                err,
                "message"@,
                "Herdr request failed"@,
            ),
            None => match json_get(response, "result"@) {
                Some(result) => r == Ok::<JsonValue, HerdrError>(result),
                None => r matches Err(HerdrError::NoResult { method: m }) && m@ == method@,
            },
        },
{
    let got = match response.get("id") {
        Some(v) => v.as_str(),
        None => None,
    };
    match got {
        Some(got) => {
            if !str_matches(got, id) {
                return Err(
                    HerdrError::IdMismatch {
                        method: method.to_owned(),
                        expected: id.to_owned(),
                        got: got.clone(),
                    },
                );
            }
        },
        None => {
            return Err(HerdrError::MissingId { method: method.to_owned() });
        },
    }
    if let Some(error) = response.get("error") {
        let code = text_or_default(error, "code", "unknown");
        let message = text_or_default(error, "message", "Herdr request failed");
        return Err(HerdrError::Declared { method: method.to_owned(), code, message });
    }
    match response.take("result") {
        Some(result) => Ok(result),
        None => Err(HerdrError::NoResult { method: method.to_owned() }),
    }
}

fn str_matches(a: &String, b: &str) -> (r: bool)
    ensures
        r == (a@ == b@),
{
    *a == b.to_owned()
}

/// `a` followed by `b`.
fn joined(a: String, b: &str) -> (s: String)
    ensures
        s@ == a@ + b@,
{
    let mut s = a;
    s.append(b);
    s
}

impl HerdrError {
    /// The text this error reads as.
    pub open spec fn text(&self) -> Seq<char> {
        match self {
            HerdrError::IdMismatch { method, expected, got } => "Herdr response id mismatch on "@
                + method@ + ": expected "@ + expected@ + ", got "@ + got@,
            HerdrError::MissingId { method } => "Herdr response to "@ + method@ + " had no id"@,
            HerdrError::Declared { method, code, message } => "Herdr error on "@ + method@ + ": "@
                + code@ + ": "@ + message@,
            HerdrError::NoResult { method } => "Herdr response to "@ + method@
                + " had neither result nor error"@,
        }
    }

    /// The error as text, as it is reported to the user.
    pub fn message(&self) -> (s: String)
        ensures
            s@ == self.text(),
    {
        match self {
            HerdrError::IdMismatch { method, expected, got } => {
                let s = joined("Herdr response id mismatch on ".to_owned(), method.as_str());
                let s = joined(s, ": expected ");
                let s = joined(s, expected.as_str());
                let s = joined(s, ", got ");
                joined(s, got.as_str())
            },
            HerdrError::MissingId { method } => {
                let s = joined("Herdr response to ".to_owned(), method.as_str());
                joined(s, " had no id")
            },
            HerdrError::Declared { method, code, message } => {
                let s = joined("Herdr error on ".to_owned(), method.as_str());
                let s = joined(s, ": ");
                let s = joined(s, code.as_str());
                let s = joined(s, ": ");
                joined(s, message.as_str())
            },
            HerdrError::NoResult { method } => {
                let s = joined("Herdr response to ".to_owned(), method.as_str());
                joined(s, " had neither result nor error")
            },
        }
    }
}

/// `v` is an object of `n` entries.
pub open spec fn object_of_len(v: JsonValue, n: nat) -> bool {
    v matches JsonValue::Object(entries) && entries@.len() == n
}

/// `v` is a string with text `s`.
pub open spec fn is_text(v: Option<JsonValue>, s: Seq<char>) -> bool {
    v matches Some(JsonValue::Str(t)) && t@ == s
}

fn text(s: &str) -> (v: JsonValue)
    ensures
        v matches JsonValue::Str(t) && t@ == s@,
{
    JsonValue::Str(s.to_owned())
}

fn entry(key: &str, value: JsonValue) -> (e: (String, JsonValue))
    ensures
        e.0@ == key@,
        e.1 == value,
{
    (key.to_owned(), value)
}

/// The request envelope: `{"id": id, "method": method, "params": params}`.
pub fn request(id: &str, method: &str, params: JsonValue) -> (r: JsonValue)
    ensures
        object_of_len(r, 3),
        is_text(json_get(r, "id"@), id@),
        is_text(json_get(r, "method"@), method@),
        json_get(r, "params"@) == Some(params),
{
    let mut entries: Vec<(String, JsonValue)> = Vec::new();
    entries.push(entry("id", text(id)));
    entries.push(entry("method", text(method)));
    entries.push(entry("params", params));
    let r = JsonValue::Object(entries);
    proof {
        reveal_strlit("id");
        reveal_strlit("method");
        reveal_strlit("params");
        lemma_entry_named_first(entries@, "id"@, 0);
        assert("id"@.len() == 2 && "method"@.len() == 6);
        assert("id"@ != "method"@);
        lemma_entry_named_first(entries@, "method"@, 1);
        assert("id"@.len() == 2 && "params"@.len() == 6);
        assert("id"@ != "params"@);
        assert("method"@[0] == 'm' && "params"@[0] == 'p');
        assert("method"@ != "params"@);
        lemma_entry_named_first(entries@, "params"@, 2);
    }
    r
}

/// Parameters of `pane.layout`: the tab of `pane` when one is given, else the current tab.
pub fn pane_layout_params(pane: Option<&PaneId>) -> (r: JsonValue)
    ensures
        object_of_len(r, 1),
        match pane {
            Some(p) => is_text(json_get(r, "pane_id"@), p.0@),
            None => json_get(r, "current"@) == Some(JsonValue::Bool(true)),
        },
{
    let mut entries: Vec<(String, JsonValue)> = Vec::new();
    match pane {
        Some(p) => entries.push(entry("pane_id", text(p.0.as_str()))),
        None => entries.push(entry("current", JsonValue::Bool(true))),
    }
    JsonValue::Object(entries)
}

/// Parameters naming one pane, as `pane.focus` and `pane.graphics.clear` take them.
pub fn pane_id_params(pane_id: &str) -> (r: JsonValue)
    ensures
        object_of_len(r, 1),
        is_text(json_get(r, "pane_id"@), pane_id@),
{
    let mut entries: Vec<(String, JsonValue)> = Vec::new();
    entries.push(entry("pane_id", text(pane_id)));
    JsonValue::Object(entries)
}

/// Parameters of `plugin.pane.open` for a focused popup of the given size.
pub fn open_popup_params(
    plugin_id: &str,
    entrypoint: &str,
    width: u16,
    height: u16,
    env: Vec<(String, JsonValue)>,
) -> (r: JsonValue)
    ensures
        object_of_len(r, 7),
        is_text(json_get(r, "plugin_id"@), plugin_id@),
        is_text(json_get(r, "entrypoint"@), entrypoint@),
        is_text(json_get(r, "placement"@), "popup"@),
        json_get(r, "width"@) == Some(JsonValue::Integer(width as i128)),
        json_get(r, "height"@) == Some(JsonValue::Integer(height as i128)),
        json_get(r, "focus"@) == Some(JsonValue::Bool(true)),
        json_get(r, "env"@) == Some(JsonValue::Object(env)),
{
    let mut entries: Vec<(String, JsonValue)> = Vec::new();
    entries.push(entry("plugin_id", text(plugin_id)));
    entries.push(entry("entrypoint", text(entrypoint)));
    entries.push(entry("placement", text("popup")));
    entries.push(entry("width", JsonValue::Integer(width as i128)));
    entries.push(entry("height", JsonValue::Integer(height as i128)));
    entries.push(entry("focus", JsonValue::Bool(true)));
    entries.push(entry("env", JsonValue::Object(env)));
    let r = JsonValue::Object(entries);
    proof {
        reveal_strlit("plugin_id");
        reveal_strlit("entrypoint");
        reveal_strlit("placement");
        reveal_strlit("width");
        reveal_strlit("height");
        reveal_strlit("focus");
        reveal_strlit("env");
        lemma_entry_named_first(entries@, "plugin_id"@, 0);
        assert("plugin_id"@.len() == 9 && "entrypoint"@.len() == 10);
        assert("plugin_id"@ != "entrypoint"@);
        lemma_entry_named_first(entries@, "entrypoint"@, 1);
        assert("plugin_id"@[2] == 'u' && "placement"@[2] == 'a');
        assert("plugin_id"@ != "placement"@);
        assert("entrypoint"@.len() == 10 && "placement"@.len() == 9);
        assert("entrypoint"@ != "placement"@);
        lemma_entry_named_first(entries@, "placement"@, 2);
        assert("plugin_id"@.len() == 9 && "width"@.len() == 5);
        assert("plugin_id"@ != "width"@);
        assert("entrypoint"@.len() == 10 && "width"@.len() == 5);
        assert("entrypoint"@ != "width"@);
        assert("placement"@.len() == 9 && "width"@.len() == 5);
        assert("placement"@ != "width"@);
        lemma_entry_named_first(entries@, "width"@, 3);
        assert("plugin_id"@.len() == 9 && "height"@.len() == 6);
        assert("plugin_id"@ != "height"@);
        assert("entrypoint"@.len() == 10 && "height"@.len() == 6);
        assert("entrypoint"@ != "height"@);
        assert("placement"@.len() == 9 && "height"@.len() == 6);
        assert("placement"@ != "height"@);
        assert("width"@.len() == 5 && "height"@.len() == 6);
        assert("width"@ != "height"@);
        lemma_entry_named_first(entries@, "height"@, 4);
        assert("plugin_id"@.len() == 9 && "focus"@.len() == 5);
        assert("plugin_id"@ != "focus"@);
        assert("entrypoint"@.len() == 10 && "focus"@.len() == 5);
        assert("entrypoint"@ != "focus"@);
        assert("placement"@.len() == 9 && "focus"@.len() == 5);
        assert("placement"@ != "focus"@);
        assert("width"@[0] == 'w' && "focus"@[0] == 'f');
        assert("width"@ != "focus"@);
        assert("height"@.len() == 6 && "focus"@.len() == 5);
        assert("height"@ != "focus"@);
        lemma_entry_named_first(entries@, "focus"@, 5);
        assert("plugin_id"@.len() == 9 && "env"@.len() == 3);
        assert("plugin_id"@ != "env"@);
        assert("entrypoint"@.len() == 10 && "env"@.len() == 3);
        assert("entrypoint"@ != "env"@);
        assert("placement"@.len() == 9 && "env"@.len() == 3);
        assert("placement"@ != "env"@);
        assert("width"@.len() == 5 && "env"@.len() == 3);
        assert("width"@ != "env"@);
        assert("height"@.len() == 6 && "env"@.len() == 3);
        assert("height"@ != "env"@);
        assert("focus"@.len() == 5 && "env"@.len() == 3);
        assert("focus"@ != "env"@);
        lemma_entry_named_first(entries@, "env"@, 6);
    }
    r
}

/// The overlay as `pane.graphics.set` takes it: its fields, the placement nested.
pub fn overlay_params(overlay: &Overlay) -> (r: JsonValue)
    ensures
        object_of_len(r, 7),
        is_text(json_get(r, "pane_id"@), overlay.pane_id@),
        is_text(json_get(r, "format"@), overlay.format@),
        json_get(r, "image_width"@) == Some(JsonValue::Integer(overlay.image_width as i128)),
        json_get(r, "image_height"@) == Some(JsonValue::Integer(overlay.image_height as i128)),
        is_text(json_get(r, "data_base64"@), overlay.data_base64@),
        json_get(r, "z_index"@) == Some(JsonValue::Integer(overlay.z_index as i128)),
        json_get(r, "placement"@) matches Some(p) && object_of_len(p, 4) && json_get(
            p,
            "viewport_col"@,
        ) == Some(JsonValue::Integer(overlay.placement.viewport_col as i128)) && json_get(
            p,
            "viewport_row"@,
        ) == Some(JsonValue::Integer(overlay.placement.viewport_row as i128)) && json_get(
            p,
            "grid_cols"@,
        ) == Some(JsonValue::Integer(overlay.placement.grid_cols as i128)) && json_get(
            p,
            "grid_rows"@,
        ) == Some(JsonValue::Integer(overlay.placement.grid_rows as i128)),
{
    let mut placement: Vec<(String, JsonValue)> = Vec::new();
    placement.push(entry("viewport_col", JsonValue::Integer(overlay.placement.viewport_col as i128)));
    placement.push(entry("viewport_row", JsonValue::Integer(overlay.placement.viewport_row as i128)));
    placement.push(entry("grid_cols", JsonValue::Integer(overlay.placement.grid_cols as i128)));
    placement.push(entry("grid_rows", JsonValue::Integer(overlay.placement.grid_rows as i128)));
    let mut entries: Vec<(String, JsonValue)> = Vec::new();
    entries.push(entry("pane_id", text(overlay.pane_id.as_str())));
    entries.push(entry("format", text(overlay.format.as_str())));
    entries.push(entry("image_width", JsonValue::Integer(overlay.image_width as i128)));
    entries.push(entry("image_height", JsonValue::Integer(overlay.image_height as i128)));
    entries.push(entry("data_base64", text(overlay.data_base64.as_str())));
    entries.push(entry("z_index", JsonValue::Integer(overlay.z_index as i128)));
    let ghost placement_entries = placement@;
    entries.push(entry("placement", JsonValue::Object(placement)));
    let r = JsonValue::Object(entries);
    proof {
        reveal_strlit("pane_id");
        reveal_strlit("format");
        reveal_strlit("image_width");
        reveal_strlit("image_height");
        reveal_strlit("data_base64");
        reveal_strlit("z_index");
        reveal_strlit("placement");
        reveal_strlit("viewport_col");
        reveal_strlit("viewport_row");
        reveal_strlit("grid_cols");
        reveal_strlit("grid_rows");
        lemma_entry_named_first(entries@, "pane_id"@, 0);
        assert("pane_id"@.len() == 7 && "format"@.len() == 6);
        assert("pane_id"@ != "format"@);
        lemma_entry_named_first(entries@, "format"@, 1);
        assert("pane_id"@.len() == 7 && "image_width"@.len() == 11);
        assert("pane_id"@ != "image_width"@);
        assert("format"@.len() == 6 && "image_width"@.len() == 11);
        assert("format"@ != "image_width"@);
        lemma_entry_named_first(entries@, "image_width"@, 2);
        assert("pane_id"@.len() == 7 && "image_height"@.len() == 12);
        assert("pane_id"@ != "image_height"@);
        assert("format"@.len() == 6 && "image_height"@.len() == 12);
        assert("format"@ != "image_height"@);
        assert("image_width"@.len() == 11 && "image_height"@.len() == 12);
        assert("image_width"@ != "image_height"@);
        lemma_entry_named_first(entries@, "image_height"@, 3);
        assert("pane_id"@.len() == 7 && "data_base64"@.len() == 11);
        assert("pane_id"@ != "data_base64"@);
        assert("format"@.len() == 6 && "data_base64"@.len() == 11);
        assert("format"@ != "data_base64"@);
        assert("image_width"@[0] == 'i' && "data_base64"@[0] == 'd');
        assert("image_width"@ != "data_base64"@);
        assert("image_height"@.len() == 12 && "data_base64"@.len() == 11);
        assert("image_height"@ != "data_base64"@);
        lemma_entry_named_first(entries@, "data_base64"@, 4);
        assert("pane_id"@[0] == 'p' && "z_index"@[0] == 'z');
        assert("pane_id"@ != "z_index"@);
        assert("format"@.len() == 6 && "z_index"@.len() == 7);
        assert("format"@ != "z_index"@);
        assert("image_width"@.len() == 11 && "z_index"@.len() == 7);
        assert("image_width"@ != "z_index"@);
        assert("image_height"@.len() == 12 && "z_index"@.len() == 7);
        assert("image_height"@ != "z_index"@);
        assert("data_base64"@.len() == 11 && "z_index"@.len() == 7);
        assert("data_base64"@ != "z_index"@);
        lemma_entry_named_first(entries@, "z_index"@, 5);
        assert("pane_id"@.len() == 7 && "placement"@.len() == 9);
        assert("pane_id"@ != "placement"@);
        assert("format"@.len() == 6 && "placement"@.len() == 9);
        assert("format"@ != "placement"@);
        assert("image_width"@.len() == 11 && "placement"@.len() == 9);
        assert("image_width"@ != "placement"@);
        assert("image_height"@.len() == 12 && "placement"@.len() == 9);
        assert("image_height"@ != "placement"@);
        assert("data_base64"@.len() == 11 && "placement"@.len() == 9);
        assert("data_base64"@ != "placement"@);
        assert("z_index"@.len() == 7 && "placement"@.len() == 9);
        assert("z_index"@ != "placement"@);
        lemma_entry_named_first(entries@, "placement"@, 6);
        lemma_entry_named_first(placement_entries, "viewport_col"@, 0);
        assert("viewport_col"@[9] == 'c' && "viewport_row"@[9] == 'r');
        assert("viewport_col"@ != "viewport_row"@);
        lemma_entry_named_first(placement_entries, "viewport_row"@, 1);
        assert("viewport_col"@.len() == 12 && "grid_cols"@.len() == 9);
        assert("viewport_col"@ != "grid_cols"@);
        assert("viewport_row"@.len() == 12 && "grid_cols"@.len() == 9);
        assert("viewport_row"@ != "grid_cols"@);
        lemma_entry_named_first(placement_entries, "grid_cols"@, 2);
        assert("viewport_col"@.len() == 12 && "grid_rows"@.len() == 9);
        assert("viewport_col"@ != "grid_rows"@);
        assert("viewport_row"@.len() == 12 && "grid_rows"@.len() == 9);
        assert("viewport_row"@ != "grid_rows"@);
        assert("grid_cols"@[5] == 'c' && "grid_rows"@[5] == 'r');
        assert("grid_cols"@ != "grid_rows"@);
        lemma_entry_named_first(placement_entries, "grid_rows"@, 3);
    }
    r
}

} // verus!
