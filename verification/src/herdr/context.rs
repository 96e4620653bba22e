//! The runtime Herdr/plugin context: where the socket is and which pane the action came from.

use vstd::prelude::*;
use crate::herdr::json::{
    first_string_at, json_at_path, json_document, json_str, key_views, parse_json, string_at_path,
    JsonValue,
};
use crate::model::PaneId;

verus! {

/// Runtime Herdr/plugin context used to discover the socket and source pane.
#[derive(Debug, Clone, PartialEq, Eq)]
pub struct HerdrContext {
    pub context_json: Option<String>,
    pub pane_id: Option<String>,
    pub tab_id: Option<String>,
    pub socket_path: Option<std::path::PathBuf>,
}

/// Where the plugin context JSON may name the source pane, in the order they are tried.
pub open spec fn context_paths() -> Seq<Seq<Seq<char>>> {
    seq![
        seq!["focused_pane"@, "id"@],
        seq!["pane"@, "id"@],
        seq!["target_pane"@, "id"@],
        seq!["focused_pane_id"@],
        seq!["pane_id"@],
        seq!["target_pane_id"@],
    ]
}

/// The pane an action targets: the pane id handed over directly, else the first string the
/// context JSON holds at one of [`context_paths`].
pub open spec fn target_pane_of(
    pane_id: Option<Seq<char>>,
    context_json: Option<Seq<char>>,
) -> Option<Seq<char>> {
    match pane_id {
        Some(id) => Some(id),
        None => match context_json {
            None => None,
            Some(text) => match json_document(text) {
                None => None,
                Some(v) => first_string_at(v, context_paths()),
            },
        },
    }
}

pub open spec fn opt_view(s: Option<String>) -> Option<Seq<char>> {
    match s {
        Some(t) => Some(t@),
        None => None,
    }
}

impl HerdrContext {
    /// The pane this invocation targets.
    pub fn target_pane(&self) -> (r: Option<PaneId>)
        ensures
            match r {
                Some(p) => target_pane_of(opt_view(self.pane_id), opt_view(self.context_json))
                    == Some(p.0@),
                None => target_pane_of(opt_view(self.pane_id), opt_view(self.context_json)) is None,
            },
    {
        if let Some(pane_id) = &self.pane_id {
            return Some(PaneId::new(pane_id.clone()));
        }
        let text = match &self.context_json {
            Some(t) => t,
            None => return None,
        };
        let value = match parse_json(text.as_str()) {
            Some(v) => v,
            None => return None,
        };
        let p0: [&str; 2] = ["focused_pane", "id"];
        let p1: [&str; 2] = ["pane", "id"];
        let p2: [&str; 2] = ["target_pane", "id"];
        let p3: [&str; 1] = ["focused_pane_id"];
        let p4: [&str; 1] = ["pane_id"];
        let p5: [&str; 1] = ["target_pane_id"];
        let paths: [&[&str]; 6] = [&p0, &p1, &p2, &p3, &p4, &p5];
        proof {
            let spec_paths = context_paths();
            assert(key_views(paths@[0]@) =~= spec_paths[0]);
            assert(key_views(paths@[1]@) =~= spec_paths[1]);
            assert(key_views(paths@[2]@) =~= spec_paths[2]);
            assert(key_views(paths@[3]@) =~= spec_paths[3]);
            assert(key_views(paths@[4]@) =~= spec_paths[4]);
            assert(key_views(paths@[5]@) =~= spec_paths[5]);
            assert(path_views(paths@) =~= spec_paths);
        }
        match find_string_at_paths(&value, &paths) {
            Some(s) => Some(PaneId::new(s)),
            None => None,
        }
    }
}

/// The keys of each path, as text.
pub open spec fn path_views(paths: Seq<&[&str]>) -> Seq<Seq<Seq<char>>> {
    paths.map_values(|p: &[&str]| key_views(p@))
}

/// The first string that `value` holds at one of `paths`, tried in order.
pub fn find_string_at_paths(value: &JsonValue, paths: &[&[&str]]) -> (r: Option<String>)
    ensures
        match r {
            Some(s) => first_string_at(*value, path_views(paths@)) == Some(s@),
            None => first_string_at(*value, path_views(paths@)) is None,
        },
{
    let ghost spec_paths = path_views(paths@);
    assert(spec_paths.skip(0) =~= spec_paths);
    let mut i: usize = 0;
    while i < paths.len()
        invariant
            0 <= i <= paths@.len(),
            spec_paths == path_views(paths@),
            first_string_at(*value, spec_paths) == first_string_at(*value, spec_paths.skip(i as int)),
        decreases paths@.len() - i,
    {
        let ghost rest = spec_paths.skip(i as int);
        assert(rest[0] == key_views(paths@[i as int]@));
        assert(rest.drop_first() =~= spec_paths.skip(i + 1));
        if let Some(s) = string_at_path(value, paths[i]) {
            return Some(s);
        }
        i += 1;
    }
    assert(spec_paths.skip(i as int) =~= Seq::<Seq<Seq<char>>>::empty());
    None
}

/// The string that `v` holds at the object keys `path`, if it holds one there.
pub open spec fn string_at_keys(v: JsonValue, path: Seq<Seq<char>>) -> Option<Seq<char>> {
    match json_at_path(v, path) {
        Some(found) => json_str(found),
        None => None,
    }
}

/// Where the target pane comes from: the pane id handed over directly wins; otherwise the
/// context JSON is searched at `focused_pane.id`, `pane.id`, `target_pane.id`,
/// `focused_pane_id`, `pane_id` and `target_pane_id`, in that order, and the first string
/// found is the pane.
pub proof fn law_target_pane_sources(
    id: Seq<char>,
    context: Option<Seq<char>>,
    text: Seq<char>,
    v: JsonValue,
)
    requires
        json_document(text) == Some(v),
    ensures
        target_pane_of(Some(id), context) == Some(id),
        target_pane_of(None, None) is None,
        target_pane_of(None, Some(text)) == if string_at_keys(v, seq!["focused_pane"@, "id"@]) is Some {
            string_at_keys(v, seq!["focused_pane"@, "id"@])
        } else if string_at_keys(v, seq!["pane"@, "id"@]) is Some {
            string_at_keys(v, seq!["pane"@, "id"@])
        } else if string_at_keys(v, seq!["target_pane"@, "id"@]) is Some {
            string_at_keys(v, seq!["target_pane"@, "id"@])
        } else if string_at_keys(v, seq!["focused_pane_id"@]) is Some {
            string_at_keys(v, seq!["focused_pane_id"@])
        } else if string_at_keys(v, seq!["pane_id"@]) is Some {
            string_at_keys(v, seq!["pane_id"@])
        } else {
            string_at_keys(v, seq!["target_pane_id"@])
        },
{
    reveal_with_fuel(first_string_at, 7);
    let ps = context_paths();
    assert(ps.drop_first()[0] == ps[1]);
    assert(ps.drop_first().drop_first()[0] == ps[2]);
    assert(ps.drop_first().drop_first().drop_first()[0] == ps[3]);
    assert(ps.drop_first().drop_first().drop_first().drop_first()[0] == ps[4]);
    assert(ps.drop_first().drop_first().drop_first().drop_first().drop_first()[0] == ps[5]);
    assert(ps.drop_first().drop_first().drop_first().drop_first().drop_first().drop_first().len()
        == 0);
}

} // verus!
