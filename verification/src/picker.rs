//! The picker's decisions: which cell size to draw with, and what a stream of keystrokes
//! chooses. Reading the keyboard, waiting and painting happen around these.

use vstd::prelude::*;
use crate::model::{labelled_targets, law_targets_shape, CellSize, LayoutPane, Target, LABELS};

verus! {

/// Used only if the terminal never answers the cell-size query; Herdr scales the image into
/// the pane grid regardless, so labels still appear, just at a guessed aspect ratio.
pub open spec fn fallback_cell_size_spec() -> CellSize {
    CellSize { width_px: 10, height_px: 20 }
}

/// The cell size used when the terminal did not answer.
pub fn fallback_cell_size() -> (cell: CellSize)
    ensures
        cell == fallback_cell_size_spec(),
{
    CellSize { width_px: 10, height_px: 20 }
}

/// The measured cell size, or the fallback when there is none.
pub fn cell_size_or_fallback(measured: Option<CellSize>) -> (cell: CellSize)
    ensures
        cell == match measured {
            Some(c) => c,
            None => fallback_cell_size_spec(),
        },
{
    match measured {
        Some(c) => c,
        None => fallback_cell_size(),
    }
}

/// Where the keystroke reader is.
#[derive(Debug, Clone, Copy, PartialEq, Eq, Structural)]
pub enum ChoiceState {
    /// Waiting for a key.
    Waiting,
    /// An Escape arrived; a lone one cancels, one that opens a sequence does not.
    AfterEscape,
    /// Inside a CSI or SS3 sequence, whose bytes are drained until its final byte.
    InSequence,
}

/// What one event leads to.
#[derive(Debug, Clone, Copy, PartialEq, Eq, Structural)]
pub enum ChoiceStep {
    /// Keep reading, in this state.
    Continue(ChoiceState),
    /// Stop: the index of the chosen target, or `None` when the user cancelled or the wait ran
    /// out.
    Done(Option<usize>),
}

/// Ctrl-C.
pub open spec fn is_cancel(b: u8) -> bool {
    b == 0x03
}

/// The key a byte stands for: the byte as a character, ASCII letters lowercased.
pub open spec fn key_of(b: u8) -> u32 {
    if 0x41 <= b <= 0x5a {
        (b + 0x20) as u32
    } else {
        b as u32
    }
}

/// The first target, at or after `from`, whose label is `key`.
pub open spec fn target_with_label(targets: Seq<Target>, key: u32, from: int) -> Option<int>
    decreases targets.len() - from,
{
    if from < 0 || from >= targets.len() {
        None
    } else if targets[from].label as u32 == key {
        Some(from)
    } else {
        target_with_label(targets, key, from + 1)
    }
}

/// Final bytes of a CSI or SS3 sequence.
pub open spec fn ends_sequence(b: u8) -> bool {
    0x40 <= b <= 0x7e
}

/// One step of the keystroke reader. `event` is the byte that arrived, or `None` when none
/// arrived within the wait for `state`.
pub open spec fn choice_step(targets: Seq<Target>, state: ChoiceState, event: Option<u8>) -> ChoiceStep {
    match state {
        ChoiceState::Waiting => match event {
            None => ChoiceStep::Done(None),
            Some(b) => if is_cancel(b) {
                ChoiceStep::Done(None)
            } else if b == 0x1b {
                ChoiceStep::Continue(ChoiceState::AfterEscape)
            } else {
                match target_with_label(targets, key_of(b), 0) {
                    Some(i) => ChoiceStep::Done(Some(i as usize)),
                    None => ChoiceStep::Continue(ChoiceState::Waiting),
                }
            },
        },
        ChoiceState::AfterEscape => match event {
            None => ChoiceStep::Done(None),
            Some(b) => if b == 0x5b || b == 0x4f {
                ChoiceStep::Continue(ChoiceState::InSequence)
            } else {
                ChoiceStep::Continue(ChoiceState::Waiting)
            },
        },
        ChoiceState::InSequence => match event {
            None => ChoiceStep::Continue(ChoiceState::Waiting),
            Some(b) => if ends_sequence(b) {
                ChoiceStep::Continue(ChoiceState::Waiting)
            } else {
                ChoiceStep::Continue(ChoiceState::InSequence)
            },
        },
    }
}

/// How long to wait for the next byte in `state`, in milliseconds: the whole keystroke wait for
/// a key, a short one inside an escape.
pub open spec fn wait_millis_spec(state: ChoiceState) -> u64 {
    match state {
        ChoiceState::Waiting => 20_000,
        _ => 20,
    }
}

/// How long to wait for the next byte in `state`, in milliseconds.
pub fn wait_millis(state: ChoiceState) -> (ms: u64)
    ensures
        ms == wait_millis_spec(state),
{
    match state {
        ChoiceState::Waiting => 20_000,
        _ => 20,
    }
}

/// How long the picker stays open without a selection, in milliseconds.
pub const CLOSE_AFTER_MILLIS: u64 = 20_000;

/// The wait for the next byte in `state`, `elapsed_ms` after the picker opened: the wait for
/// `state`, cut to the time left before the picker closes.
pub open spec fn wait_for_spec(state: ChoiceState, elapsed_ms: u64) -> u64 {
    let left: u64 = if elapsed_ms < CLOSE_AFTER_MILLIS {
        (CLOSE_AFTER_MILLIS - elapsed_ms) as u64
    } else {
        0
    };
    if wait_millis_spec(state) <= left {
        wait_millis_spec(state)
    } else {
        left
    }
}

/// How long to wait for the next byte in `state`, `elapsed_ms` after the picker opened. No wait
/// runs past the moment the picker closes.
pub fn wait_for(state: ChoiceState, elapsed_ms: u64) -> (ms: u64)
    ensures
        ms == wait_for_spec(state, elapsed_ms),
        ms <= wait_millis_spec(state),
        elapsed_ms + ms <= CLOSE_AFTER_MILLIS || ms == 0,
        elapsed_ms >= CLOSE_AFTER_MILLIS ==> ms == 0,
{
    let left: u64 = if elapsed_ms < CLOSE_AFTER_MILLIS {
        CLOSE_AFTER_MILLIS - elapsed_ms
    } else {
        0
    };
    let wait = wait_millis(state);
    if wait <= left {
        wait
    } else {
        left
    }
}

fn label_index(targets: &[Target], key: u32) -> (r: Option<usize>)
    ensures
        r matches Some(i) ==> target_with_label(targets@, key, 0) == Some(i as int),
        r is None ==> target_with_label(targets@, key, 0) is None,
{
    let mut i: usize = 0;
    while i < targets.len()
        invariant
            0 <= i <= targets@.len(),
            target_with_label(targets@, key, 0) == target_with_label(targets@, key, i as int),
        decreases targets@.len() - i,
    {
        if targets[i].label as u32 == key {
            return Some(i);
        }
        i += 1;
    }
    None
}

/// One step of the keystroke reader.
///
/// Escape sequences (arrow keys, a late cell-size report) are drained and ignored rather than
/// being misread as a cancel or a label.
pub fn step(state: ChoiceState, event: Option<u8>, targets: &[Target]) -> (next: ChoiceStep)
    ensures
        next == choice_step(targets@, state, event),
{
    match state {
        ChoiceState::Waiting => match event {
            None => ChoiceStep::Done(None),
            Some(b) => {
                if b == 0x03 {
                    ChoiceStep::Done(None)
                } else if b == 0x1b {
                    ChoiceStep::Continue(ChoiceState::AfterEscape)
                } else {
                    let key: u32 = if 0x41 <= b && b <= 0x5a { (b + 0x20) as u32 } else { b as u32 };
                    match label_index(targets, key) {
                        Some(i) => ChoiceStep::Done(Some(i)),
                        None => ChoiceStep::Continue(ChoiceState::Waiting),
                    }
                }
            },
        },
        ChoiceState::AfterEscape => match event {
            None => ChoiceStep::Done(None),
            Some(b) => {
                if b == 0x5b || b == 0x4f {
                    ChoiceStep::Continue(ChoiceState::InSequence)
                } else {
                    ChoiceStep::Continue(ChoiceState::Waiting)
                }
            },
        },
        ChoiceState::InSequence => match event {
            None => ChoiceStep::Continue(ChoiceState::Waiting),
            Some(b) => {
                if 0x40 <= b && b <= 0x7e {
                    ChoiceStep::Continue(ChoiceState::Waiting)
                } else {
                    ChoiceStep::Continue(ChoiceState::InSequence)
                }
            },
        },
    }
}

/// Where the reader is after `events`, starting in `state`: still reading, or done.
pub open spec fn choice_run(targets: Seq<Target>, state: ChoiceState, events: Seq<Option<u8>>) -> ChoiceStep
    decreases events.len(),
{
    if events.len() == 0 {
        ChoiceStep::Continue(state)
    } else {
        match choice_step(targets, state, events[0]) {
            ChoiceStep::Continue(next) => choice_run(targets, next, events.drop_first()),
            ChoiceStep::Done(r) => ChoiceStep::Done(r),
        }
    }
}

proof fn lemma_choice_run_append(
    targets: Seq<Target>,
    state: ChoiceState,
    a: Seq<Option<u8>>,
    b: Seq<Option<u8>>,
)
    ensures
        choice_run(targets, state, a + b) == match choice_run(targets, state, a) {
            ChoiceStep::Continue(next) => choice_run(targets, next, b),
            ChoiceStep::Done(r) => ChoiceStep::Done(r),
        },
    decreases a.len(),
{
    if a.len() == 0 {
        assert(a + b =~= b);
    } else {
        assert((a + b)[0] == a[0]);
        assert((a + b).drop_first() =~= a.drop_first() + b);
        match choice_step(targets, state, a[0]) {
            ChoiceStep::Continue(next) => lemma_choice_run_append(targets, next, a.drop_first(), b),
            ChoiceStep::Done(_) => {},
        }
    }
}

/// Labels are case-insensitive: an uppercase letter chooses what its lowercase letter chooses.
pub proof fn law_labels_case_insensitive(targets: Seq<Target>, b: u8)
    requires
        0x41 <= b <= 0x5a,
    ensures
        choice_step(targets, ChoiceState::Waiting, Some(b)) == choice_step(
            targets,
            ChoiceState::Waiting,
            Some((b + 0x20) as u8),
        ),
{
}

/// Ctrl-C, and a wait that runs out, cancel.
pub proof fn law_ctrl_c_and_timeout_cancel(targets: Seq<Target>)
    ensures
        choice_step(targets, ChoiceState::Waiting, Some(0x03)) == ChoiceStep::Done(None),
        choice_step(targets, ChoiceState::Waiting, None) == ChoiceStep::Done(None),
{
}

/// A lone Escape, one that nothing follows within the short wait, cancels.
pub proof fn law_lone_escape_cancels(targets: Seq<Target>, rest: Seq<Option<u8>>)
    ensures
        choice_run(targets, ChoiceState::Waiting, seq![Some(0x1bu8), None] + rest) == ChoiceStep::Done(
            None,
        ),
{
    reveal_with_fuel(choice_run, 3);
    let ev = seq![Some(0x1bu8), None] + rest;
    assert(ev[0] == Some(0x1bu8));
    assert(ev.drop_first()[0] == None::<u8>);
}

/// A key that is no label, and neither Ctrl-C nor Escape, is ignored.
pub proof fn law_unknown_key_is_ignored(targets: Seq<Target>, b: u8, rest: Seq<Option<u8>>)
    requires
        !is_cancel(b),
        b != 0x1b,
        target_with_label(targets, key_of(b), 0) is None,
    ensures
        choice_run(targets, ChoiceState::Waiting, seq![Some(b)] + rest) == choice_run(
            targets,
            ChoiceState::Waiting,
            rest,
        ),
{
    reveal_with_fuel(choice_run, 3);
    lemma_choice_run_append(targets, ChoiceState::Waiting, seq![Some(b)], rest);
    assert(seq![Some(b)].drop_first() =~= Seq::<Option<u8>>::empty());
}

/// A byte that the reader ignores while waiting for a key: neither Ctrl-C nor Escape, and no
/// target's label.
pub open spec fn is_unrelated_key(targets: Seq<Target>, b: u8) -> bool {
    !is_cancel(b) && b != 0x1b && target_with_label(targets, key_of(b), 0) is None
}

/// Any run of unrelated keys is ignored: the reader ends as if none of them had arrived.
pub proof fn law_unrelated_keys_are_ignored(
    targets: Seq<Target>,
    keys: Seq<u8>,
    rest: Seq<Option<u8>>,
)
    requires
        forall|i: int| 0 <= i < keys.len() ==> is_unrelated_key(targets, #[trigger] keys[i]),
    ensures
        choice_run(targets, ChoiceState::Waiting, keys.map_values(|b: u8| Some(b)) + rest)
            == choice_run(targets, ChoiceState::Waiting, rest),
    decreases keys.len(),
{
    if keys.len() > 0 {
        let tail = keys.drop_first();
        let later = tail.map_values(|b: u8| Some(b)) + rest;
        assert(keys.map_values(|b: u8| Some(b)) + rest =~= seq![Some(keys[0])] + later);
        assert(is_unrelated_key(targets, keys[0]));
        law_unknown_key_is_ignored(targets, keys[0], later);
        assert forall|i: int| 0 <= i < tail.len() implies is_unrelated_key(
            targets,
            #[trigger] tail[i],
        ) by {
            assert(tail[i] == keys[i + 1]);
        }
        law_unrelated_keys_are_ignored(targets, tail, rest);
    } else {
        assert(keys.map_values(|b: u8| Some(b)) + rest =~= rest);
    }
}

/// An escape sequence (Escape, `[` or `O`, bytes that do not end it, a final byte) is drained
/// and ignored: the reader waits for a key again as if it had not arrived.
pub proof fn law_escape_sequence_is_ignored(
    targets: Seq<Target>,
    intro: u8,
    middle: Seq<u8>,
    last: u8,
    rest: Seq<Option<u8>>,
)
    requires
        intro == 0x5b || intro == 0x4f,
        forall|i: int| 0 <= i < middle.len() ==> !ends_sequence(#[trigger] middle[i]),
        ends_sequence(last),
    ensures
        choice_run(
            targets,
            ChoiceState::Waiting,
            seq![Some(0x1bu8), Some(intro)] + middle.map_values(|b: u8| Some(b)) + seq![Some(last)]
                + rest,
        ) == choice_run(targets, ChoiceState::Waiting, rest),
{
    let head = seq![Some(0x1bu8), Some(intro)];
    let mid = middle.map_values(|b: u8| Some(b));
    let tail = seq![Some(last)];
    reveal_with_fuel(choice_run, 3);
    lemma_drain_sequence(targets, middle);
    assert(head.drop_first().drop_first() =~= Seq::<Option<u8>>::empty());
    assert(choice_run(targets, ChoiceState::Waiting, head) == ChoiceStep::Continue(ChoiceState::InSequence));
    assert(tail.drop_first() =~= Seq::<Option<u8>>::empty());
    assert(choice_run(targets, ChoiceState::InSequence, tail) == ChoiceStep::Continue(ChoiceState::Waiting));
    lemma_choice_run_append(targets, ChoiceState::Waiting, head, mid);
    lemma_choice_run_append(targets, ChoiceState::Waiting, head + mid, tail);
    lemma_choice_run_append(targets, ChoiceState::Waiting, head + mid + tail, rest);
}

proof fn lemma_drain_sequence(targets: Seq<Target>, middle: Seq<u8>)
    requires
        forall|i: int| 0 <= i < middle.len() ==> !ends_sequence(#[trigger] middle[i]),
    ensures
        choice_run(targets, ChoiceState::InSequence, middle.map_values(|b: u8| Some(b)))
            == ChoiceStep::Continue(ChoiceState::InSequence),
    decreases middle.len(),
{
    let mid = middle.map_values(|b: u8| Some(b));
    if middle.len() > 0 {
        assert(mid[0] == Some(middle[0]));
        assert(mid.drop_first() =~= middle.drop_first().map_values(|b: u8| Some(b)));
        assert forall|i: int| 0 <= i < middle.drop_first().len() implies !ends_sequence(
            #[trigger] middle.drop_first()[i],
        ) by {
            assert(middle.drop_first()[i] == middle[i + 1]);
        }
        lemma_drain_sequence(targets, middle.drop_first());
    }
}

/// What a key chooses is the first target labelled with that key.
pub proof fn law_choice_is_a_target_with_the_key(targets: Seq<Target>, b: u8)
    requires
        targets.len() <= usize::MAX,
    ensures
        choice_step(targets, ChoiceState::Waiting, Some(b)) matches ChoiceStep::Done(Some(i)) ==> (
        !is_cancel(b) && b != 0x1b && 0 <= i < targets.len() && targets[i as int].label as u32
            == key_of(b) && forall|j: int|
            0 <= j < i ==> targets[j].label as u32 != key_of(b)),
{
    lemma_target_with_label_props(targets, key_of(b), 0);
}

proof fn lemma_target_with_label_props(targets: Seq<Target>, key: u32, from: int)
    requires
        0 <= from,
    ensures
        target_with_label(targets, key, from) matches Some(i) ==> from <= i < targets.len()
            && targets[i].label as u32 == key && forall|j: int|
            from <= j < i ==> targets[j].label as u32 != key,
    decreases targets.len() - from,
{
    if from < targets.len() && targets[from].label as u32 != key {
        lemma_target_with_label_props(targets, key, from + 1);
    }
}

/// When labels are distinct, pressing a target's label chooses that target.
pub proof fn law_each_label_chooses_its_target(targets: Seq<Target>, i: int, b: u8)
    requires
        0 <= i < targets.len(),
        targets.len() <= usize::MAX,
        forall|j: int, k: int|
            0 <= j < targets.len() && 0 <= k < targets.len() && j != k ==> targets[j].label
                != targets[k].label,
        targets[i].label as u32 == key_of(b),
        !is_cancel(b),
        b != 0x1b,
    ensures
        choice_step(targets, ChoiceState::Waiting, Some(b)) == ChoiceStep::Done(Some(i as usize)),
{
    lemma_target_with_label_at(targets, key_of(b), 0, i);
}

proof fn lemma_target_with_label_at(targets: Seq<Target>, key: u32, from: int, i: int)
    requires
        0 <= from <= i < targets.len(),
        targets[i].label as u32 == key,
        forall|j: int, k: int|
            0 <= j < targets.len() && 0 <= k < targets.len() && j != k ==> targets[j].label
                != targets[k].label,
    ensures
        target_with_label(targets, key, from) == Some(i),
    decreases i - from,
{
    if from < i {
        assert(targets[from].label != targets[i].label);
        assert(targets[from].label as u32 != targets[i].label as u32);
        lemma_target_with_label_at(targets, key, from + 1, i);
    }
}

proof fn lemma_labels_distinct()
    ensures
        forall|j: int, k: int| 0 <= j < 16 && 0 <= k < 16 && j != k ==> LABELS[j] != LABELS[k],
        forall|j: int| 0 <= j < 16 ==> 0x30 <= #[trigger] (LABELS[j] as u32) <= 0x67 && !(0x41 <= (
            LABELS[j] as u32) <= 0x5a),
{
}

/// Pressing the label drawn over a pane chooses that pane: each target that
/// [`crate::model::assign_labels`] makes is chosen by the byte of its label.
pub proof fn law_pressing_a_label_chooses_its_pane(panes: Seq<LayoutPane>, i: int)
    requires
        0 <= i < labelled_targets(panes).len(),
    ensures
        choice_step(labelled_targets(panes), ChoiceState::Waiting, Some(LABELS[i] as u8))
            == ChoiceStep::Done(Some(i as usize)),
{
    let t = labelled_targets(panes);
    law_targets_shape(panes);
    lemma_labels_distinct();
    let b = LABELS[i] as u8;
    assert(key_of(b) == LABELS[i] as u32);
    assert forall|j: int, k: int| 0 <= j < t.len() && 0 <= k < t.len() && j != k implies t[j].label
        != t[k].label by {
        assert(t[j].label == LABELS[j]);
        assert(t[k].label == LABELS[k]);
    }
    law_each_label_chooses_its_target(t, i, b);
}

/// One step of closing the picker, by the index of a target.
#[derive(Debug, Clone, Copy, PartialEq, Eq, Structural)]
pub enum ClosingAction {
    /// Remove the label overlay from the target's pane.
    Clear(usize),
    /// Focus the target's pane.
    Focus(usize),
}

/// The indices at which `painted` is true, in order.
pub open spec fn painted_indices(painted: Seq<bool>) -> Seq<usize>
    decreases painted.len(),
{
    if painted.len() == 0 {
        Seq::empty()
    } else if painted.last() {
        painted_indices(painted.drop_last()).push((painted.len() - 1) as usize)
    } else {
        painted_indices(painted.drop_last())
    }
}

/// How the picker closes: it clears the label of every target whose overlay was set, in
/// target order, and only then focuses the chosen target, if any.
pub open spec fn closing_steps(painted: Seq<bool>, choice: Option<usize>) -> Seq<ClosingAction> {
    painted_indices(painted).map_values(|i: usize| ClosingAction::Clear(i)) + match choice {
        Some(c) => seq![ClosingAction::Focus(c)],
        None => Seq::empty(),
    }
}

/// What to do on closing, given for each target whether its overlay was set, and the chosen
/// target.
pub fn closing_actions(painted: &[bool], choice: Option<usize>) -> (actions: Vec<ClosingAction>)
    ensures
        actions@ == closing_steps(painted@, choice),
{
    let mut actions: Vec<ClosingAction> = Vec::new();
    let mut i: usize = 0;
    while i < painted.len()
        invariant
            0 <= i <= painted@.len(),
            actions@ == painted_indices(painted@.take(i as int)).map_values(
                |j: usize| ClosingAction::Clear(j),
            ),
        decreases painted@.len() - i,
    {
        assert(painted@.take(i + 1).drop_last() =~= painted@.take(i as int));
        if painted[i] {
            actions.push(ClosingAction::Clear(i));
        }
        i += 1;
        assert(actions@ =~= painted_indices(painted@.take(i as int)).map_values(
            |j: usize| ClosingAction::Clear(j),
        ));
    }
    assert(painted@.take(i as int) =~= painted@);
    match choice {
        Some(c) => actions.push(ClosingAction::Focus(c)),
        None => {},
    }
    assert(actions@ =~= closing_steps(painted@, choice));
    actions
}

proof fn lemma_painted_indices(painted: Seq<bool>)
    requires
        painted.len() <= usize::MAX,
    ensures
        forall|k: int| 0 <= k < painted_indices(painted).len() ==> {
            let i = #[trigger] painted_indices(painted)[k];
            0 <= i < painted.len() && painted[i as int]
        },
        forall|k: int, l: int|
            0 <= k < l < painted_indices(painted).len() ==> #[trigger] painted_indices(painted)[k]
                < #[trigger] painted_indices(painted)[l],
        forall|i: int|
            0 <= i < painted.len() && #[trigger] painted[i] ==> painted_indices(painted).contains(
                i as usize,
            ),
    decreases painted.len(),
{
    if painted.len() > 0 {
        let front = painted.drop_last();
        lemma_painted_indices(front);
        let pf = painted_indices(front);
        let p = painted_indices(painted);
        let n = painted.len() - 1;
        assert forall|k: int| 0 <= k < pf.len() implies {
            let i = #[trigger] pf[k];
            0 <= i < n && painted[i as int]
        } by {
            assert(front[pf[k] as int] == painted[pf[k] as int]);
        }
        assert forall|k: int| 0 <= k < p.len() implies {
            let i = #[trigger] p[k];
            0 <= i < painted.len() && painted[i as int]
        } by {
            if k < pf.len() {
                assert(p[k] == pf[k]);
            }
        }
        assert forall|k: int, l: int| 0 <= k < l < p.len() implies #[trigger] p[k] < #[trigger] p[l] by {
            assert(p[k] == pf[k]);
            if l < pf.len() {
                assert(p[l] == pf[l]);
            } else {
                assert(p[l] == n as usize);
                assert(pf[k] < n);
            }
        }
        assert forall|i: int| 0 <= i < painted.len() && #[trigger] painted[i] implies p.contains(
            i as usize,
        ) by {
            if i < n {
                assert(front[i] == painted[i]);
                assert(pf.contains(i as usize));
                let k = choose|k: int| 0 <= k < pf.len() && pf[k] == i as usize;
                assert(p[k] == i as usize);
            } else {
                assert(p.last() == i as usize);
            }
        }
    }
}

/// Labels are cleared before focus changes: every step that clears a label comes before the
/// focus, the focus is the last step and goes to the chosen target, and exactly the targets
/// whose overlay was set are cleared, each once, in target order.
pub proof fn law_labels_cleared_before_focus(painted: Seq<bool>, choice: Option<usize>)
    requires
        painted.len() <= usize::MAX,
    ensures
        forall|k: int, l: int|
            0 <= k < l < closing_steps(painted, choice).len() && (#[trigger] closing_steps(
                painted,
                choice,
            )[k]) is Focus ==> !((#[trigger] closing_steps(painted, choice)[l]) is Clear),
        forall|k: int|
            0 <= k < closing_steps(painted, choice).len() && (#[trigger] closing_steps(
                painted,
                choice,
            )[k]) is Focus ==> k == closing_steps(painted, choice).len() - 1 && choice == Some(
                closing_steps(painted, choice)[k]->Focus_0,
            ),
        choice is Some ==> closing_steps(painted, choice).len() > 0 && closing_steps(
            painted,
            choice,
        ).last() == ClosingAction::Focus(choice->0),
        forall|i: int|
            0 <= i < painted.len() ==> (painted[i] <==> closing_steps(painted, choice).contains(
                ClosingAction::Clear(i as usize),
            )),
        forall|k: int, l: int|
            0 <= k < l < closing_steps(painted, choice).len() && (#[trigger] closing_steps(
                painted,
                choice,
            )[k]) is Clear && (#[trigger] closing_steps(painted, choice)[l]) is Clear
                ==> closing_steps(painted, choice)[k]->Clear_0 < closing_steps(
                painted,
                choice,
            )[l]->Clear_0,
{
    lemma_painted_indices(painted);
    let pi = painted_indices(painted);
    let clears = pi.map_values(|i: usize| ClosingAction::Clear(i));
    let steps = closing_steps(painted, choice);
    assert forall|k: int| 0 <= k < clears.len() implies steps[k] == clears[k] by {}
    assert forall|i: int| 0 <= i < painted.len() implies (painted[i] <==> steps.contains(
        ClosingAction::Clear(i as usize),
    )) by {
        if painted[i] {
            assert(pi.contains(i as usize));
            let k = choose|k: int| 0 <= k < pi.len() && pi[k] == i as usize;
            assert(steps[k] == ClosingAction::Clear(i as usize));
        }
        if steps.contains(ClosingAction::Clear(i as usize)) {
            let k = choose|k: int| 0 <= k < steps.len() && steps[k] == ClosingAction::Clear(i as usize);
            assert(k < clears.len());
            assert(clears[k] == ClosingAction::Clear(pi[k]));
            assert(pi[k] == i as usize);
        }
    }
    assert forall|k: int, l: int|
        0 <= k < l < steps.len() && (#[trigger] steps[k]) is Clear && (#[trigger] steps[l]) is Clear
            implies steps[k]->Clear_0 < steps[l]->Clear_0 by {
        assert(l < clears.len());
        assert(clears[k] == ClosingAction::Clear(pi[k]));
        assert(clears[l] == ClosingAction::Clear(pi[l]));
    }
}

} // verus!
