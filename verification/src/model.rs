//! Panes, their rectangles, and the assignment of jump labels in reading order.

use vstd::prelude::*;

verus! {

/// Identifier of a Herdr pane.
#[derive(Debug, Clone, PartialEq, Eq, Hash)]
pub struct PaneId(pub String);

impl PaneId {
    /// Wraps a pane identifier.
    pub fn new(value: String) -> (id: Self)
        ensures
            id.0@ == value@,
    {
        PaneId(value)
    }

    /// The identifier as text, as it is shown to the user.
    pub fn text(&self) -> (s: String)
        ensures
            s@ == self.0@,
    {
        self.0.clone()
    }
}

/// Cell-space rectangle in Herdr-global layout coordinates.
#[derive(Debug, Clone, Copy, PartialEq, Eq, Structural)]
pub struct Rect {
    pub x: u16,
    pub y: u16,
    pub width: u16,
    pub height: u16,
}

/// Host terminal cell size in pixels, the unit that maps grid cells to a pixel image.
#[derive(Debug, Clone, Copy, PartialEq, Eq, Structural)]
pub struct CellSize {
    pub width_px: u32,
    pub height_px: u32,
}

/// The label alphabet: digits first, then home-row-ish letters once panes outnumber the digits.
pub const LABELS: [char; 16] = [
    '1', '2', '3', '4', '5', '6', '7', '8', '9', 'a', 'b', 'c', 'd', 'e', 'f', 'g',
];

/// Herdr tab layout snapshot returned by `pane.layout`, trimmed to what the picker needs.
#[derive(Debug, Clone)]
pub struct LayoutSnapshot {
    pub panes: Vec<LayoutPane>,
    pub focused_pane_id: Option<String>,
    pub zoomed: bool,
}

/// One pane within a layout snapshot.
#[derive(Debug, Clone)]
pub struct LayoutPane {
    pub pane_id: String,
    pub rect: Rect,
    pub focused: bool,
}

/// A visible pane assigned a jump label, handed from the action process to the picker.
#[derive(Debug, Clone, PartialEq, Eq)]
pub struct Target {
    pub label: char,
    pub pane_id: PaneId,
    pub rect: Rect,
    pub focused: bool,
}

/// `a` comes no later than `b` in reading order: top to bottom, then left to right.
pub open spec fn reads_no_later(a: Rect, b: Rect) -> bool {
    a.y < b.y || (a.y == b.y && a.x <= b.x)
}

/// Where a pane that follows every pane of `sorted` in the snapshot is inserted: after the
/// longest prefix of `sorted` whose panes read no later than it.
pub open spec fn insertion_point(sorted: Seq<LayoutPane>, p: LayoutPane) -> nat
    decreases sorted.len(),
{
    if sorted.len() == 0 || !reads_no_later(sorted[0].rect, p.rect) {
        0
    } else {
        1 + insertion_point(sorted.drop_first(), p)
    }
}

/// The panes of a snapshot in reading order. Panes at the same position keep their snapshot
/// order, as a stable sort keeps them.
pub open spec fn reading_order(panes: Seq<LayoutPane>) -> Seq<LayoutPane>
    decreases panes.len(),
{
    if panes.len() == 0 {
        Seq::empty()
    } else {
        let rest = reading_order(panes.drop_last());
        rest.insert(insertion_point(rest, panes.last()) as int, panes.last())
    }
}

/// The target that labels pane `p` with `label`.
pub open spec fn target_of(p: LayoutPane, label: char) -> Target {
    Target { label, pane_id: PaneId(p.pane_id), rect: p.rect, focused: p.focused }
}

pub open spec fn min_nat(a: nat, b: nat) -> nat {
    if a <= b { a } else { b }
}

/// The targets of a snapshot: its panes in reading order, the i-th labelled `LABELS[i]`, as
/// many as there are labels.
pub open spec fn labelled_targets(panes: Seq<LayoutPane>) -> Seq<Target> {
    let order = reading_order(panes);
    Seq::new(min_nat(order.len(), 16), |i: int| target_of(order[i], LABELS[i]))
}

proof fn lemma_insertion_point_le(sorted: Seq<LayoutPane>, p: LayoutPane)
    ensures
        insertion_point(sorted, p) <= sorted.len(),
    decreases sorted.len(),
{
    if sorted.len() > 0 && reads_no_later(sorted[0].rect, p.rect) {
        lemma_insertion_point_le(sorted.drop_first(), p);
    }
}

/// The insertion point is the first position whose pane reads later than `p`.
proof fn lemma_insertion_point_at(sorted: Seq<LayoutPane>, p: LayoutPane, k: int)
    requires
        0 <= k <= sorted.len(),
        forall|j: int| 0 <= j < k ==> reads_no_later(#[trigger] sorted[j].rect, p.rect),
        k == sorted.len() || !reads_no_later(sorted[k].rect, p.rect),
    ensures
        insertion_point(sorted, p) == k,
    decreases k,
{
    if k > 0 {
        let rest = sorted.drop_first();
        assert forall|j: int| 0 <= j < k - 1 implies reads_no_later(#[trigger] rest[j].rect, p.rect) by {
            assert(rest[j] == sorted[j + 1]);
        }
        lemma_insertion_point_at(rest, p, k - 1);
    }
}

pub proof fn lemma_reading_order_len(panes: Seq<LayoutPane>)
    ensures
        reading_order(panes).len() == panes.len(),
    decreases panes.len(),
{
    if panes.len() > 0 {
        lemma_reading_order_len(panes.drop_last());
        lemma_insertion_point_le(reading_order(panes.drop_last()), panes.last());
    }
}

fn copy_pane(p: &LayoutPane) -> (q: LayoutPane)
    ensures
        q == *p,
{
    LayoutPane { pane_id: p.pane_id.clone(), rect: p.rect, focused: p.focused }
}

fn reads_no_later_exec(a: Rect, b: Rect) -> (r: bool)
    ensures
        r == reads_no_later(a, b),
{
    a.y < b.y || (a.y == b.y && a.x <= b.x)
}

/// Sorts the panes into reading order by stable insertion.
fn sort_reading_order(panes: &Vec<LayoutPane>) -> (sorted: Vec<LayoutPane>)
    ensures
        sorted@ == reading_order(panes@),
{
    let mut sorted: Vec<LayoutPane> = Vec::new();
    let n = panes.len();
    let mut i: usize = 0;
    while i < n
        invariant
            n == panes.len(),
            0 <= i <= n,
            sorted@ == reading_order(panes@.take(i as int)),
        decreases n - i,
    {
        let p = copy_pane(&panes[i]);
        proof {
            lemma_reading_order_len(panes@.take(i as int));
        }
        let mut k: usize = 0;
        while k < sorted.len() && reads_no_later_exec(sorted[k].rect, p.rect)
            invariant
                0 <= k <= sorted.len(),
                forall|j: int| 0 <= j < k ==> reads_no_later(#[trigger] sorted@[j].rect, p.rect),
            decreases sorted.len() - k,
        {
            k += 1;
        }
        proof {
            lemma_insertion_point_at(sorted@, p, k as int);
            let t = panes@.take(i as int + 1);
            assert(t.drop_last() =~= panes@.take(i as int));
            assert(t.last() == panes@[i as int]);
        }
        sorted.insert(k, p);
        i += 1;
    }
    assert(panes@.take(n as int) =~= panes@);
    sorted
}

/// Assigns labels to visible panes in reading order (top-to-bottom, then left-to-right).
///
/// Reading order keeps a pane's label stable across invocations as long as the layout is
/// stable, which is what makes the labels memorizable. At most `LABELS.len()` panes are labelled.
pub fn assign_labels(layout: &LayoutSnapshot) -> (targets: Vec<Target>)
    ensures
        targets@ == labelled_targets(layout.panes@),
{
    let sorted = sort_reading_order(&layout.panes);
    let count: usize = if sorted.len() < 16 { sorted.len() } else { 16 };
    let mut targets: Vec<Target> = Vec::new();
    let mut i: usize = 0;
    while i < count
        invariant
            count == min_nat(sorted@.len(), 16),
            sorted@ == reading_order(layout.panes@),
            0 <= i <= count,
            targets@ =~= labelled_targets(layout.panes@).take(i as int),
        decreases count - i,
    {
        let p = &sorted[i];
        let t = Target {
            label: LABELS[i],
            pane_id: PaneId(p.pane_id.clone()),
            rect: p.rect,
            focused: p.focused,
        };
        targets.push(t);
        i += 1;
    }
    targets
}

/// The targets of a jump, or `None` when there is nowhere to jump: a zoomed tab exposes only
/// the focused pane, and a single pane has no other pane to go to.
pub fn jump_targets(layout: &LayoutSnapshot) -> (targets: Option<Vec<Target>>)
    ensures
        layout.zoomed || layout.panes@.len() < 2 ==> targets is None,
        !(layout.zoomed || layout.panes@.len() < 2) ==> (targets matches Some(t)
            && t@ == labelled_targets(layout.panes@)),
{
    if layout.zoomed || layout.panes.len() < 2 {
        None
    } else {
        Some(assign_labels(layout))
    }
}

/// No two panes of `s` share a position.
pub open spec fn distinct_positions(s: Seq<LayoutPane>) -> bool {
    forall|i: int, j: int|
        0 <= i < s.len() && 0 <= j < s.len() && i != j ==> !same_position(s[i].rect, s[j].rect)
}

pub open spec fn same_position(a: Rect, b: Rect) -> bool {
    a.x == b.x && a.y == b.y
}

/// Every pane of `s` reads no later than every pane after it.
pub open spec fn in_reading_order(s: Seq<LayoutPane>) -> bool {
    forall|i: int, j: int|
        0 <= i < j < s.len() ==> reads_no_later(#[trigger] s[i].rect, #[trigger] s[j].rect)
}

proof fn lemma_insertion_point_props(sorted: Seq<LayoutPane>, p: LayoutPane)
    ensures
        insertion_point(sorted, p) <= sorted.len(),
        forall|j: int|
            0 <= j < insertion_point(sorted, p) ==> reads_no_later(#[trigger] sorted[j].rect, p.rect),
        insertion_point(sorted, p) < sorted.len() ==> !reads_no_later(
            sorted[insertion_point(sorted, p) as int].rect,
            p.rect,
        ),
    decreases sorted.len(),
{
    if sorted.len() > 0 && reads_no_later(sorted[0].rect, p.rect) {
        let rest = sorted.drop_first();
        lemma_insertion_point_props(rest, p);
        assert forall|j: int| 0 <= j < insertion_point(sorted, p) implies reads_no_later(
            #[trigger] sorted[j].rect,
            p.rect,
        ) by {
            if j > 0 {
                assert(sorted[j] == rest[j - 1]);
            }
        }
    }
}

proof fn lemma_insert_keeps_order(sorted: Seq<LayoutPane>, p: LayoutPane)
    requires
        in_reading_order(sorted),
    ensures
        in_reading_order(sorted.insert(insertion_point(sorted, p) as int, p)),
{
    lemma_insertion_point_props(sorted, p);
    let k = insertion_point(sorted, p) as int;
    let r = sorted.insert(k, p);
    sorted.insert_ensures(k, p);
    assert forall|i: int, j: int| 0 <= i < j < r.len() implies reads_no_later(
        #[trigger] r[i].rect,
        #[trigger] r[j].rect,
    ) by {
        if i < k && j < k {
            assert(r[i] == sorted[i] && r[j] == sorted[j]);
        } else if i < k && j == k {
            assert(r[i] == sorted[i]);
        } else if i < k {
            assert(r[i] == sorted[i] && r[j] == sorted[j - 1]);
        } else if i == k {
            // p reads strictly before sorted[k], which reads no later than what follows it
            assert(r[j] == sorted[j - 1]);
            assert(!reads_no_later(sorted[k].rect, p.rect));
            if j - 1 > k {
                assert(reads_no_later(sorted[k].rect, sorted[j - 1].rect));
            }
        } else {
            assert(r[i] == sorted[i - 1] && r[j] == sorted[j - 1]);
        }
    }
}

proof fn lemma_insert_multiset(s: Seq<LayoutPane>, k: int, p: LayoutPane)
    requires
        0 <= k <= s.len(),
    ensures
        s.insert(k, p).to_multiset() =~= s.to_multiset().insert(p),
{
    broadcast use vstd::seq_lib::group_to_multiset_ensures;
    broadcast use vstd::multiset::group_multiset_axioms;

    let r = s.insert(k, p);
    s.insert_ensures(k, p);
    assert(r.remove(k) =~= s);
    assert(r.remove(k).to_multiset() =~= r.to_multiset().remove(p));
    assert(r.to_multiset().count(p) > 0) by {
        assert(r.contains(p)) by {
            assert(r[k] == p);
        }
    }
}

/// The reading order of a snapshot holds the same panes, each sorted top to bottom, then left
/// to right.
pub proof fn law_reading_order_sorts(panes: Seq<LayoutPane>)
    ensures
        in_reading_order(reading_order(panes)),
        reading_order(panes).to_multiset() =~= panes.to_multiset(),
        reading_order(panes).len() == panes.len(),
    decreases panes.len(),
{
    broadcast use vstd::seq_lib::group_to_multiset_ensures;

    lemma_reading_order_len(panes);
    if panes.len() > 0 {
        let rest = reading_order(panes.drop_last());
        law_reading_order_sorts(panes.drop_last());
        lemma_insert_keeps_order(rest, panes.last());
        lemma_insertion_point_le(rest, panes.last());
        lemma_insert_multiset(rest, insertion_point(rest, panes.last()) as int, panes.last());
        assert(panes.drop_last().push(panes.last()) =~= panes);
    }
}

/// Two sequences in reading order that hold the same panes, no two of them at one position,
/// are the same sequence.
proof fn lemma_sorted_unique(a: Seq<LayoutPane>, b: Seq<LayoutPane>)
    requires
        in_reading_order(a),
        in_reading_order(b),
        a.to_multiset() =~= b.to_multiset(),
        forall|x: LayoutPane, y: LayoutPane|
            a.to_multiset().contains(x) && a.to_multiset().contains(y) && same_position(
                x.rect,
                y.rect,
            ) ==> x == y,
    ensures
        a =~= b,
    decreases a.len(),
{
    broadcast use vstd::seq_lib::group_to_multiset_ensures;
    broadcast use vstd::multiset::group_multiset_axioms;

    assert(a.len() == a.to_multiset().len());
    assert(b.len() == b.to_multiset().len());
    if a.len() > 0 {
        let x = a[0];
        let y = b[0];
        assert(a.contains(x));
        assert(b.contains(y));
        assert(a.to_multiset().count(x) > 0);
        assert(b.to_multiset().count(x) > 0);
        assert(b.contains(x));
        assert(b.to_multiset().count(y) > 0);
        assert(a.to_multiset().count(y) > 0);
        assert(a.contains(y));
        let kb = choose|k: int| 0 <= k < b.len() && b[k] == x;
        let ka = choose|k: int| 0 <= k < a.len() && a[k] == y;
        if kb > 0 {
            assert(reads_no_later(b[0].rect, b[kb].rect));
        }
        if ka > 0 {
            assert(reads_no_later(a[0].rect, a[ka].rect));
        }
        assert(same_position(x.rect, y.rect));
        assert(x == y);
        let a2 = a.remove(0);
        let b2 = b.remove(0);
        a.remove_ensures(0);
        b.remove_ensures(0);
        assert(a2.to_multiset() =~= a.to_multiset().remove(x));
        assert(b2.to_multiset() =~= b.to_multiset().remove(x));
        assert forall|i: int, j: int| 0 <= i < j < a2.len() implies reads_no_later(
            #[trigger] a2[i].rect,
            #[trigger] a2[j].rect,
        ) by {
            assert(a2[i] == a[i + 1] && a2[j] == a[j + 1]);
        }
        assert forall|i: int, j: int| 0 <= i < j < b2.len() implies reads_no_later(
            #[trigger] b2[i].rect,
            #[trigger] b2[j].rect,
        ) by {
            assert(b2[i] == b[i + 1] && b2[j] == b[j + 1]);
        }
        assert forall|u: LayoutPane, v: LayoutPane|
            a2.to_multiset().contains(u) && a2.to_multiset().contains(v) && same_position(
                u.rect,
                v.rect,
            ) implies u == v by {
            assert(a.to_multiset().contains(u));
            assert(a.to_multiset().contains(v));
        }
        lemma_sorted_unique(a2, b2);
        assert(a =~= seq![x] + a2);
        assert(b =~= seq![x] + b2);
    }
}

/// Labels depend on where the panes are, not on the order in which a snapshot lists them: two
/// snapshots that hold the same panes, no two of them at one position, get the same targets.
pub proof fn law_labels_ignore_snapshot_order(a: Seq<LayoutPane>, b: Seq<LayoutPane>)
    requires
        a.to_multiset() =~= b.to_multiset(),
        distinct_positions(a),
    ensures
        labelled_targets(a) == labelled_targets(b),
{
    broadcast use vstd::seq_lib::group_to_multiset_ensures;

    law_reading_order_sorts(a);
    law_reading_order_sorts(b);
    let ra = reading_order(a);
    let rb = reading_order(b);
    assert forall|x: LayoutPane, y: LayoutPane|
        ra.to_multiset().contains(x) && ra.to_multiset().contains(y) && same_position(
            x.rect,
            y.rect,
        ) implies x == y by {
        assert(a.contains(x));
        assert(a.contains(y));
        let i = choose|i: int| 0 <= i < a.len() && a[i] == x;
        let j = choose|j: int| 0 <= j < a.len() && a[j] == y;
        if i != j {
            assert(!same_position(a[i].rect, a[j].rect));
        }
    }
    lemma_sorted_unique(ra, rb);
    assert(labelled_targets(a) =~= labelled_targets(b));
}

/// The targets are at most as many as the labels and as the panes, carry the labels in
/// alphabet order, follow reading order, and each stands for a pane of the snapshot.
pub proof fn law_targets_shape(panes: Seq<LayoutPane>)
    ensures
        labelled_targets(panes).len() == min_nat(panes.len(), 16),
        forall|i: int|
            0 <= i < labelled_targets(panes).len() ==> #[trigger] labelled_targets(panes)[i].label
                == LABELS[i],
        forall|i: int, j: int|
            0 <= i < j < labelled_targets(panes).len() ==> reads_no_later(
                #[trigger] labelled_targets(panes)[i].rect,
                #[trigger] labelled_targets(panes)[j].rect,
            ),
        forall|i: int|
            0 <= i < labelled_targets(panes).len() ==> exists|j: int|
                0 <= j < panes.len() && #[trigger] labelled_targets(panes)[i] == target_of(
                    panes[j],
                    LABELS[i],
                ),
{
    broadcast use vstd::seq_lib::group_to_multiset_ensures;

    law_reading_order_sorts(panes);
    let r = reading_order(panes);
    let t = labelled_targets(panes);
    assert forall|i: int, j: int| 0 <= i < j < t.len() implies reads_no_later(
        #[trigger] t[i].rect,
        #[trigger] t[j].rect,
    ) by {
        assert(t[i].rect == r[i].rect && t[j].rect == r[j].rect);
    }
    assert forall|i: int| 0 <= i < t.len() implies exists|j: int|
        0 <= j < panes.len() && #[trigger] t[i] == target_of(panes[j], LABELS[i]) by {
        assert(r.contains(r[i]));
        assert(r.to_multiset().count(r[i]) > 0);
        assert(panes.to_multiset().count(r[i]) > 0);
        assert(panes.contains(r[i]));
    }
}

/// When the snapshot has no more panes than labels, every pane gets a target.
pub proof fn law_every_pane_labelled_when_few(panes: Seq<LayoutPane>, j: int)
    requires
        panes.len() <= 16,
        0 <= j < panes.len(),
    ensures
        exists|i: int|
            0 <= i < labelled_targets(panes).len() && #[trigger] labelled_targets(panes)[i]
                == target_of(panes[j], LABELS[i]),
{
    broadcast use vstd::seq_lib::group_to_multiset_ensures;

    law_reading_order_sorts(panes);
    let r = reading_order(panes);
    assert(panes.contains(panes[j]));
    assert(panes.to_multiset().count(panes[j]) > 0);
    assert(r.to_multiset().count(panes[j]) > 0);
    assert(r.contains(panes[j]));
    let i = choose|i: int| 0 <= i < r.len() && r[i] == panes[j];
    assert(labelled_targets(panes)[i] == target_of(panes[j], LABELS[i]));
}

/// A snapshot that already lists its panes in reading order keeps that order: panes at one
/// position are never reordered among themselves.
pub proof fn law_reading_order_keeps_sorted_snapshots(panes: Seq<LayoutPane>)
    requires
        in_reading_order(panes),
    ensures
        reading_order(panes) == panes,
    decreases panes.len(),
{
    if panes.len() > 0 {
        let rest = panes.drop_last();
        assert forall|i: int, j: int| 0 <= i < j < rest.len() implies reads_no_later(
            #[trigger] rest[i].rect,
            #[trigger] rest[j].rect,
        ) by {
            assert(rest[i] == panes[i] && rest[j] == panes[j]);
        }
        law_reading_order_keeps_sorted_snapshots(rest);
        assert forall|j: int| 0 <= j < rest.len() implies reads_no_later(
            #[trigger] rest[j].rect,
            panes.last().rect,
        ) by {
            assert(rest[j] == panes[j]);
            assert(reads_no_later(panes[j].rect, panes[panes.len() - 1].rect));
        }
        lemma_insertion_point_at(rest, panes.last(), rest.len() as int);
        assert(rest.insert(rest.len() as int, panes.last()) =~= panes);
    }
}

/// Panes at position `p`.
pub open spec fn at_position(p: Rect) -> spec_fn(LayoutPane) -> bool {
    |q: LayoutPane| same_position(q.rect, p)
}

/// Reading order is stable: the panes at any one position come out in the order the snapshot
/// lists them.
pub proof fn law_reading_order_is_stable(panes: Seq<LayoutPane>, p: Rect)
    ensures
        reading_order(panes).filter(at_position(p)) == panes.filter(at_position(p)),
    decreases panes.len(),
{
    reveal(Seq::filter);
    let f = at_position(p);
    if panes.len() > 0 {
        let front = panes.drop_last();
        let x = panes.last();
        let rest = reading_order(front);
        law_reading_order_is_stable(front, p);
        law_reading_order_sorts(front);
        lemma_insertion_point_props(rest, x);
        let k = insertion_point(rest, x) as int;
        let head = rest.subrange(0, k);
        let tail = rest.subrange(k, rest.len() as int);
        assert(rest.insert(k, x) == head.push(x) + tail);
        assert(rest =~= head + tail);
        Seq::filter_distributes_over_add(head.push(x), tail, f);
        Seq::filter_distributes_over_add(head, tail, f);
        assert(head.push(x).drop_last() =~= head);
        if f(x) {
            assert(tail.all(|e: LayoutPane| !f(e))) by {
                assert forall|j: int| 0 <= j < tail.len() implies !f(#[trigger] tail[j]) by {
                    let e = tail[j];
                    assert(e == rest[k + j]);
                    if f(e) {
                        // e shares x's position, so it reads no later than x; yet rest[k]
                        // reads later than x and no later than e.
                        assert(reads_no_later(e.rect, x.rect));
                        if j > 0 {
                            assert(reads_no_later(rest[k].rect, rest[k + j].rect));
                        }
                        assert(reads_no_later(rest[k].rect, x.rect));
                    }
                }
            }
            tail.lemma_all_neg_filter_empty(f);
            assert(tail.filter(f) =~= Seq::<LayoutPane>::empty());
            assert(head.push(x).filter(f) == head.filter(f).push(x));
            assert(rest.filter(f) =~= head.filter(f));
            assert(reading_order(panes).filter(f) =~= panes.filter(f));
        } else {
            assert(head.push(x).filter(f) == head.filter(f));
            assert(reading_order(panes).filter(f) =~= panes.filter(f));
        }
    }
}

/// Labels follow reading order on the panes' coordinates: a pane higher up is labelled before
/// a pane lower down, and of two panes at one height the one further left is labelled first.
pub proof fn law_labels_top_to_bottom_then_left_to_right(panes: Seq<LayoutPane>)
    ensures
        forall|i: int, j: int|
            0 <= i < j < labelled_targets(panes).len() ==> {
                let a = #[trigger] labelled_targets(panes)[i].rect;
                let b = #[trigger] labelled_targets(panes)[j].rect;
                a.y < b.y || (a.y == b.y && a.x <= b.x)
            },
        forall|i: int, j: int|
            0 <= i < labelled_targets(panes).len() && 0 <= j < labelled_targets(panes).len() && ({
                let a = #[trigger] labelled_targets(panes)[i].rect;
                let b = #[trigger] labelled_targets(panes)[j].rect;
                a.y < b.y || (a.y == b.y && a.x < b.x)
            }) ==> i < j,
{
    law_targets_shape(panes);
    let t = labelled_targets(panes);
    assert forall|i: int, j: int| 0 <= i < j < t.len() implies {
        let a = #[trigger] t[i].rect;
        let b = #[trigger] t[j].rect;
        a.y < b.y || (a.y == b.y && a.x <= b.x)
    } by {
        assert(reads_no_later(t[i].rect, t[j].rect));
    }
    assert forall|i: int, j: int|
        0 <= i < t.len() && 0 <= j < t.len() && ({
            let a = #[trigger] t[i].rect;
            let b = #[trigger] t[j].rect;
            a.y < b.y || (a.y == b.y && a.x < b.x)
        }) implies i < j by {
        if j < i {
            assert(reads_no_later(t[j].rect, t[i].rect));
        } else if j == i {
        }
    }
}

} // verus!
