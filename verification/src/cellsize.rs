//! Host cell size, read from the `CSI 6 ; height ; width t` report that the picker's own pty
//! sends back when asked with `CSI 16 t`.

use vstd::prelude::*;
use crate::model::CellSize;

verus! {

/// The XTerm window op that asks for the cell size in pixels: `ESC [ 16 t`.
pub open spec fn cell_size_query() -> Seq<u8> {
    seq![0x1bu8, 0x5bu8, 0x31u8, 0x36u8, 0x74u8]
}

/// The bytes that open a cell-size report: `ESC [ 6 ;`.
pub open spec fn report_introducer() -> Seq<u8> {
    seq![0x1bu8, 0x5bu8, 0x36u8, 0x3bu8]
}

/// The first position at or after `from` where `needle` occurs in `haystack`.
pub open spec fn first_match_from(haystack: Seq<u8>, needle: Seq<u8>, from: int) -> Option<int>
    decreases haystack.len() + 1 - from,
{
    if from < 0 || from + needle.len() > haystack.len() {
        None
    } else if haystack.subrange(from, from + needle.len()) == needle {
        Some(from)
    } else {
        first_match_from(haystack, needle, from + 1)
    }
}

/// The first position of `b` in `s`.
pub open spec fn first_index_of(s: Seq<u8>, b: u8) -> Option<int>
    decreases s.len(),
{
    if s.len() == 0 {
        None
    } else if s[0] == b {
        Some(0)
    } else {
        match first_index_of(s.drop_first(), b) {
            Some(i) => Some(i + 1),
            None => None,
        }
    }
}

pub open spec fn is_digit(b: u8) -> bool {
    0x30 <= b <= 0x39
}

/// The value of a string of decimal digits.
pub open spec fn decimal_value(s: Seq<u8>) -> nat
    decreases s.len(),
{
    if s.len() == 0 {
        0
    } else {
        decimal_value(s.drop_last()) * 10 + (s.last() - 0x30) as nat
    }
}

pub open spec fn all_digits(s: Seq<u8>) -> bool {
    forall|i: int| 0 <= i < s.len() ==> is_digit(#[trigger] s[i])
}

/// `s` without the one `+` that may lead it.
pub open spec fn unsigned_digits(s: Seq<u8>) -> Seq<u8> {
    if s.len() > 0 && s[0] == 0x2b {
        s.drop_first()
    } else {
        s
    }
}

/// A decimal `u32` as `str::parse` reads one: an optional `+`, then one or more digits whose
/// value fits.
pub open spec fn parse_u32_decimal(s: Seq<u8>) -> Option<u32> {
    let digits = unsigned_digits(s);
    if digits.len() > 0 && all_digits(digits) && decimal_value(digits) <= u32::MAX {
        Some(decimal_value(digits) as u32)
    } else {
        None
    }
}

/// The cell size that the first `ESC [ 6 ;` of `buf` reports: the bytes up to the first `;`
/// after it are the height, those between that `;` and the first `t` after the introducer are
/// the width, and both must be nonzero.
pub open spec fn cell_report(buf: Seq<u8>) -> Option<CellSize> {
    match first_match_from(buf, report_introducer(), 0) {
        None => None,
        Some(start) => {
            let rest = buf.skip(start + 4);
            match (first_index_of(rest, 0x3b), first_index_of(rest, 0x74)) {
                (Some(semi), Some(term)) => if semi < term {
                    match (
                        parse_u32_decimal(rest.take(semi)),
                        parse_u32_decimal(rest.subrange(semi + 1, term)),
                    ) {
                        (Some(h), Some(w)) => if h != 0 && w != 0 {
                            Some(CellSize { width_px: w, height_px: h })
                        } else {
                            None
                        },
                        _ => None,
                    }
                } else {
                    None
                },
                _ => None,
            }
        },
    }
}

/// The query to write to the pty: `ESC [ 16 t`.
pub fn query_cell_size() -> (q: Vec<u8>)
    ensures
        q@ == cell_size_query(),
{
    let q: Vec<u8> = vec![0x1b, 0x5b, 0x31, 0x36, 0x74];
    assert(q@ =~= cell_size_query());
    q
}

/// The first position where `needle` occurs in `haystack`.
pub fn find_subsequence(haystack: &[u8], needle: &[u8]) -> (r: Option<usize>)
    requires
        needle@.len() > 0,
    ensures
        r matches Some(i) ==> first_match_from(haystack@, needle@, 0) == Some(i as int),
        r is None ==> first_match_from(haystack@, needle@, 0) is None,
{
    let n = needle.len();
    let hlen = haystack.len();
    if n > hlen {
        return None;
    }
    let mut i: usize = 0;
    let last = hlen - n;
    while i <= last
        invariant
            n == needle@.len(),
            n > 0,
            hlen == haystack@.len(),
            n <= haystack@.len(),
            last == haystack@.len() - n,
            0 <= i <= last + 1,
            first_match_from(haystack@, needle@, 0) == first_match_from(haystack@, needle@, i as int),
        decreases haystack@.len() - i,
    {
        let mut j: usize = 0;
        let mut same = true;
        while j < n
            invariant
                n == needle@.len(),
                i <= last,
                hlen == haystack@.len(),
                last == haystack@.len() - n,
                i + n <= haystack@.len(),
                0 <= j <= n,
                same <==> (forall|k: int| 0 <= k < j ==> haystack@[i + k] == needle@[k]),
            decreases n - j,
        {
            if haystack[i + j] != needle[j] {
                same = false;
            }
            j += 1;
        }
        if same {
            assert(haystack@.subrange(i as int, i + n) =~= needle@);
            return Some(i);
        }
        assert(haystack@.subrange(i as int, i + n) != needle@) by {
            let k = choose|k: int| 0 <= k < n && haystack@[i + k] != needle@[k];
            assert(haystack@.subrange(i as int, i + n)[k] == haystack@[i + k]);
        }
        i += 1;
    }
    None
}

proof fn lemma_first_index_of_props(s: Seq<u8>, b: u8)
    ensures
        first_index_of(s, b) matches Some(i) ==> 0 <= i < s.len() && s[i] == b && (forall|k: int|
            0 <= k < i ==> s[k] != b),
        first_index_of(s, b) is None ==> (forall|k: int| 0 <= k < s.len() ==> s[k] != b),
    decreases s.len(),
{
    if s.len() > 0 && s[0] != b {
        lemma_first_index_of_props(s.drop_first(), b);
        assert forall|k: int| 0 < k < s.len() implies s[k] == s.drop_first()[k - 1] by {}
    }
}

proof fn lemma_first_index_of_at(s: Seq<u8>, b: u8, i: int)
    requires
        0 <= i < s.len(),
        s[i] == b,
        forall|k: int| 0 <= k < i ==> s[k] != b,
    ensures
        first_index_of(s, b) == Some(i),
    decreases i,
{
    if i > 0 {
        lemma_first_index_of_at(s.drop_first(), b, i - 1);
    }
}

proof fn lemma_first_index_of_none(s: Seq<u8>, b: u8)
    requires
        forall|k: int| 0 <= k < s.len() ==> s[k] != b,
    ensures
        first_index_of(s, b) is None,
    decreases s.len(),
{
    if s.len() > 0 {
        lemma_first_index_of_none(s.drop_first(), b);
    }
}

/// The first position of `b` in `buf[from..]`, counted from `from`.
fn first_index_from(buf: &[u8], from: usize, b: u8) -> (r: Option<usize>)
    requires
        from <= buf@.len(),
    ensures
        r matches Some(i) ==> first_index_of(buf@.skip(from as int), b) == Some(i - from) && from <= i
            < buf@.len(),
        r is None ==> first_index_of(buf@.skip(from as int), b) is None,
{
    let mut i = from;
    while i < buf.len()
        invariant
            from <= i <= buf@.len(),
            forall|k: int| from <= k < i ==> buf@[k] != b,
        decreases buf@.len() - i,
    {
        if buf[i] == b {
            proof {
                lemma_first_index_of_at(buf@.skip(from as int), b, i - from);
            }
            return Some(i);
        }
        i += 1;
    }
    proof {
        lemma_first_index_of_none(buf@.skip(from as int), b);
    }
    None
}

proof fn lemma_decimal_value_step(s: Seq<u8>, i: int)
    requires
        0 <= i < s.len(),
    ensures
        decimal_value(s.take(i + 1)) == decimal_value(s.take(i)) * 10 + (s[i] - 0x30) as nat,
{
    assert(s.take(i + 1).drop_last() =~= s.take(i));
}

proof fn lemma_decimal_value_grows(s: Seq<u8>, i: int, j: int)
    requires
        0 <= i <= j <= s.len(),
        forall|k: int| 0 <= k < s.len() ==> is_digit(#[trigger] s[k]),
    ensures
        decimal_value(s.take(i)) <= decimal_value(s.take(j)),
    decreases j - i,
{
    if i < j {
        lemma_decimal_value_grows(s, i, j - 1);
        lemma_decimal_value_step(s, j - 1);
    }
}

/// Reads `buf[lo..hi]` as a decimal `u32` the way `str::parse` does.
fn parse_u32_range(buf: &[u8], lo: usize, hi: usize) -> (r: Option<u32>)
    requires
        lo <= hi <= buf@.len(),
    ensures
        r == parse_u32_decimal(buf@.subrange(lo as int, hi as int)),
{
    let ghost s = buf@.subrange(lo as int, hi as int);
    let mut start = lo;
    if lo < hi && buf[lo] == 0x2b {
        start = lo + 1;
    }
    let ghost digits = buf@.subrange(start as int, hi as int);
    assert(digits =~= unsigned_digits(s));
    if start == hi {
        return None;
    }
    let mut value: u64 = 0;
    let mut i = start;
    while i < hi
        invariant
            lo <= start < hi <= buf@.len(),
            start <= i <= hi,
            digits == buf@.subrange(start as int, hi as int),
            s == buf@.subrange(lo as int, hi as int),
            digits == unsigned_digits(s),
            forall|k: int| start <= k < i ==> is_digit(#[trigger] buf@[k]),
            value == decimal_value(digits.take(i - start)),
            value <= u32::MAX,
        decreases hi - i,
    {
        let b = buf[i];
        assert(digits[i - start] == b);
        if b < 0x30 || b > 0x39 {
            assert(!is_digit(digits[i - start]));
            assert(!all_digits(digits));
            return None;
        }
        proof {
            lemma_decimal_value_step(digits, i - start);
        }
        let next = value * 10 + (b - 0x30) as u64;
        if next > 0xffff_ffff {
            proof {
                if all_digits(digits) {
                    lemma_decimal_value_grows(digits, i - start + 1, digits.len() as int);
                    assert(digits.take(digits.len() as int) =~= digits);
                    assert(decimal_value(digits) > u32::MAX);
                }
            }
            return None;
        }
        value = next;
        i += 1;
    }
    assert(digits.take(hi - start) =~= digits);
    Some(value as u32)
}

/// Parses a `CSI 6 ; height ; width t` cell-size report out of a byte buffer.
///
/// The report may be preceded or followed by unrelated bytes, so this scans for the introducer
/// rather than anchoring at the start. The wire order is height then width.
pub fn parse_report(buf: &[u8]) -> (r: Option<CellSize>)
    ensures
        r == cell_report(buf@),
{
    let intro: [u8; 4] = [0x1b, 0x5b, 0x36, 0x3b];
    assert(intro@ =~= report_introducer());
    let start = match find_subsequence(buf, &intro) {
        Some(s) => s,
        None => return None,
    };
    proof {
        lemma_first_match_bounds(buf@, report_introducer(), 0);
        assert(report_introducer().len() == 4);
        assert(start + 4 <= buf@.len());
    }
    let blen = buf.len();
    let from = start + 4;
    let ghost rest = buf@.skip(from as int);
    let semicolon = match first_index_from(buf, from, 0x3b) {
        Some(i) => i,
        None => return None,
    };
    let terminator = match first_index_from(buf, from, 0x74) {
        Some(i) => i,
        None => return None,
    };
    if semicolon >= terminator {
        return None;
    }
    assert(rest.take(semicolon - from) =~= buf@.subrange(from as int, semicolon as int));
    assert(rest.subrange(semicolon - from + 1, terminator - from) =~= buf@.subrange(
        semicolon + 1,
        terminator as int,
    ));
    let height = match parse_u32_range(buf, from, semicolon) {
        Some(h) => h,
        None => return None,
    };
    let width = match parse_u32_range(buf, semicolon + 1, terminator) {
        Some(w) => w,
        None => return None,
    };
    if width == 0 || height == 0 {
        return None;
    }
    Some(CellSize { width_px: width, height_px: height })
}

proof fn lemma_first_match_bounds(h: Seq<u8>, n: Seq<u8>, from: int)
    ensures
        first_match_from(h, n, from) matches Some(i) ==> from <= i && i + n.len() <= h.len()
            && h.subrange(i, i + n.len()) == n,
    decreases h.len() + 1 - from,
{
    if !(from < 0 || from + n.len() > h.len()) && h.subrange(from, from + n.len()) != n {
        lemma_first_match_bounds(h, n, from + 1);
    }
}

/// Accumulates the bytes the pty sends back and reports the cell size once a complete report
/// has arrived.
pub struct ReportScanner {
    buf: Vec<u8>,
}

impl View for ReportScanner {
    type V = Seq<u8>;

    /// The bytes received so far.
    closed spec fn view(&self) -> Seq<u8> {
        self.buf@
    }
}

impl ReportScanner {
    pub fn new() -> (s: Self)
        ensures
            s@ == Seq::<u8>::empty(),
    {
        ReportScanner { buf: Vec::new() }
    }

    /// Takes one more byte. A report can only be complete when its final `t` arrives, so the
    /// buffer is parsed then and only then.
    pub fn push(&mut self, byte: u8) -> (r: Option<CellSize>)
        ensures
            final(self)@ == old(self)@.push(byte),
            r == (if byte == 0x74 { cell_report(final(self)@) } else { None }),
    {
        self.buf.push(byte);
        if byte == 0x74 {
            parse_report(self.buf.as_slice())
        } else {
            None
        }
    }
}

proof fn lemma_first_match_extend(h: Seq<u8>, e: Seq<u8>, n: Seq<u8>, from: int)
    requires
        first_match_from(h, n, from) is Some,
    ensures
        first_match_from(h + e, n, from) == first_match_from(h, n, from),
    decreases h.len() + 1 - from,
{
    let he = h + e;
    if !(from < 0 || from + n.len() > h.len()) {
        assert(he.subrange(from, from + n.len()) =~= h.subrange(from, from + n.len()));
        if h.subrange(from, from + n.len()) != n {
            lemma_first_match_extend(h, e, n, from + 1);
        }
    }
}

proof fn lemma_first_index_extend(s: Seq<u8>, e: Seq<u8>, b: u8)
    requires
        first_index_of(s, b) is Some,
    ensures
        first_index_of(s + e, b) == first_index_of(s, b),
    decreases s.len(),
{
    if s.len() > 0 && s[0] != b {
        assert((s + e).drop_first() =~= s.drop_first() + e);
        lemma_first_index_extend(s.drop_first(), e, b);
    }
}

/// Bytes that arrive after a complete report do not change what it reports.
pub proof fn law_report_survives_trailing_bytes(buf: Seq<u8>, extra: Seq<u8>)
    requires
        cell_report(buf) is Some,
    ensures
        cell_report(buf + extra) == cell_report(buf),
{
    let start = first_match_from(buf, report_introducer(), 0)->0;
    lemma_first_match_extend(buf, extra, report_introducer(), 0);
    lemma_first_match_bounds(buf, report_introducer(), 0);
    let rest = buf.skip(start + 4);
    let rest2 = (buf + extra).skip(start + 4);
    assert(rest2 =~= rest + extra);
    lemma_first_index_extend(rest, extra, 0x3b);
    lemma_first_index_extend(rest, extra, 0x74);
    lemma_first_index_of_props(rest, 0x3b);
    lemma_first_index_of_props(rest, 0x74);
    let semi = first_index_of(rest, 0x3b)->0;
    let term = first_index_of(rest, 0x74)->0;
    assert(rest2.take(semi) =~= rest.take(semi));
    assert(rest2.subrange(semi + 1, term) =~= rest.subrange(semi + 1, term));
}


/// The decimal digits of `n`, without leading zeros, as `format!` writes an integer.
pub open spec fn decimal_digits(n: nat) -> Seq<u8>
    decreases n,
{
    if n < 10 {
        seq![(0x30 + n) as u8]
    } else {
        decimal_digits(n / 10).push((0x30 + n % 10) as u8)
    }
}

/// The report a terminal sends for cells `height` pixels high and `width` pixels wide:
/// `ESC [ 6 ; height ; width t`.
pub open spec fn report_bytes(height: nat, width: nat) -> Seq<u8> {
    report_introducer() + decimal_digits(height) + seq![0x3bu8] + decimal_digits(width) + seq![
        0x74u8,
    ]
}

/// `s` holds no `ESC [ 6 ;`.
pub open spec fn lacks_introducer(s: Seq<u8>) -> bool {
    forall|i: int| 0 <= i && i + 4 <= s.len() ==> #[trigger] s.subrange(i, i + 4) != report_introducer()
}

proof fn lemma_decimal_digits(n: nat)
    ensures
        decimal_digits(n).len() > 0,
        all_digits(decimal_digits(n)),
        decimal_value(decimal_digits(n)) == n,
    decreases n,
{
    let d = decimal_digits(n);
    if n < 10 {
        assert(d.drop_last() =~= Seq::<u8>::empty());
        assert(decimal_value(d.drop_last()) == 0);
        assert(d.last() == (0x30 + n) as u8);
        assert((d.last() - 0x30) as nat == n);
    } else {
        lemma_decimal_digits(n / 10);
        let front = decimal_digits(n / 10);
        assert(d.drop_last() =~= front);
        assert(n == (n / 10) * 10 + n % 10);
        assert(d.last() == (0x30 + n % 10) as u8);
        assert((d.last() - 0x30) as nat == n % 10);
        assert(decimal_value(d) == decimal_value(front) * 10 + (d.last() - 0x30) as nat);
        assert forall|i: int| 0 <= i < d.len() implies is_digit(#[trigger] d[i]) by {
            if i < front.len() {
                assert(d[i] == front[i]);
            }
        }
    }
}

/// The first `ESC [ 6 ;` of `prefix + report_introducer() + tail` is the one after `prefix`
/// when `prefix` holds none.
proof fn lemma_introducer_after_prefix(prefix: Seq<u8>, tail: Seq<u8>, from: int)
    requires
        lacks_introducer(prefix),
        0 <= from <= prefix.len(),
    ensures
        first_match_from(prefix + report_introducer() + tail, report_introducer(), from) == Some(
            prefix.len() as int,
        ),
    decreases prefix.len() - from,
{
    let buf = prefix + report_introducer() + tail;
    let intro = report_introducer();
    if from == prefix.len() {
        assert(buf.subrange(from, from + 4) =~= intro);
    } else {
        if from + 4 <= prefix.len() {
            assert(buf.subrange(from, from + 4) =~= prefix.subrange(from, from + 4));
            assert(prefix.subrange(from, from + 4) != intro);
        } else {
            let k = prefix.len() - from;
            assert(buf.subrange(from, from + 4)[k] == buf[prefix.len() as int]);
            assert(buf[prefix.len() as int] == 0x1bu8);
            assert(intro[k] != 0x1bu8);
        }
        lemma_introducer_after_prefix(prefix, tail, from + 1);
    }
}

/// A well-formed report parses back to the cell size it was written for, whatever bytes come
/// after it and whatever bytes without a report introducer come before it.
pub proof fn law_report_round_trip(prefix: Seq<u8>, height: u32, width: u32, suffix: Seq<u8>)
    requires
        height >= 1,
        width >= 1,
        lacks_introducer(prefix),
    ensures
        cell_report(prefix + report_bytes(height as nat, width as nat) + suffix) == Some(
            CellSize { width_px: width, height_px: height },
        ),
{
    let dh = decimal_digits(height as nat);
    let dw = decimal_digits(width as nat);
    let tail = dh + seq![0x3bu8] + dw + seq![0x74u8] + suffix;
    let buf = prefix + report_bytes(height as nat, width as nat) + suffix;
    assert(buf =~= prefix + report_introducer() + tail);
    lemma_introducer_after_prefix(prefix, tail, 0);
    lemma_decimal_digits(height as nat);
    lemma_decimal_digits(width as nat);
    let rest = buf.skip(prefix.len() as int + 4);
    assert(rest =~= tail);
    let semi = dh.len() as int;
    let term = dh.len() as int + 1 + dw.len() as int;
    assert forall|k: int| 0 <= k < semi implies rest[k] != 0x3bu8 by {
        assert(rest[k] == dh[k]);
        assert(is_digit(dh[k]));
    }
    assert(rest[semi] == 0x3bu8);
    lemma_first_index_of_at(rest, 0x3b, semi);
    assert forall|k: int| 0 <= k < term implies rest[k] != 0x74u8 by {
        if k < semi {
            assert(rest[k] == dh[k]);
            assert(is_digit(dh[k]));
        } else if k > semi {
            assert(rest[k] == dw[k - semi - 1]);
            assert(is_digit(dw[k - semi - 1]));
        }
    }
    assert(rest[term] == 0x74u8);
    lemma_first_index_of_at(rest, 0x74, term);
    assert(rest.take(semi) =~= dh);
    assert(rest.subrange(semi + 1, term) =~= dw);
    assert(is_digit(dh[0]) && is_digit(dw[0]));
    assert(unsigned_digits(dh) == dh);
    assert(unsigned_digits(dw) == dw);
}

} // verus!
