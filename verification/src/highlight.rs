//! Where a multi-line editor paints its selection highlight and carets, in
//! bytes: each line's share of every selection, and the line a caret sits on
//! with its offset into that line. Pixel positions come from the shaped text.

use vstd::prelude::*;

use crate::boundary::{
    bytes_of, first_newline_from, is_boundary, last_newline_before, lemma_first_newline,
    lemma_last_newline, line_start_spec,
};
use crate::display::{display_byte_for_value_byte, display_byte_spec, PASSWORD_GLYPH_LEN};
use crate::selection::{sel_end, sel_start};
use crate::small_vec::TextSelection;

verus! {

/// One line's share of a selection highlight: the line's index, the covered
/// byte range relative to the line's start, and whether the selection runs on
/// past the line's newline (where a newline marker is painted).
#[derive(Clone, Copy, Debug, PartialEq, Eq, Structural)]
pub struct LineWash {
    pub line: usize,
    pub from: usize,
    pub to: usize,
    pub past_newline: bool,
}

pub open spec fn max_int(a: int, b: int) -> int {
    if a >= b { a } else { b }
}

pub open spec fn min_int(a: int, b: int) -> int {
    if a <= b { a } else { b }
}

/// The highlight of the non-empty byte range `[s0, s1)` on the lines from the
/// one starting at `ls` (line number `line`) on. A line takes a share when
/// the range overlaps it, or when the range covers its newline; the share is
/// the overlap.
pub open spec fn washes_from(b: Seq<u8>, s0: int, s1: int, ls: int, line: int) -> Seq<LineWash>
    decreases b.len() + 1 - ls,
{
    if ls < 0 || ls > b.len() {
        Seq::empty()
    } else {
        let le = first_newline_from(b, ls);
        let a = max_int(s0, ls);
        let e = min_int(s1, le);
        let here = if a < e || (s0 <= le && s1 > le && a <= e) {
            seq![LineWash { line: line as usize, from: (a - ls) as usize, to: (e - ls) as usize, past_newline: s1 > le }]
        } else {
            Seq::empty()
        };
        proof {
            lemma_first_newline(b, ls);
        }
        if le >= b.len() {
            here
        } else {
            here + washes_from(b, s0, s1, le + 1, line + 1)
        }
    }
}

/// One selection's highlight: nothing for a caret, else its range's shares.
pub open spec fn selection_washes_spec(b: Seq<u8>, s: TextSelection) -> Seq<LineWash> {
    if sel_start(s) == sel_end(s) {
        Seq::empty()
    } else {
        washes_from(b, sel_start(s), sel_end(s), 0, 0)
    }
}

/// Every selection's highlight, selection by selection.
pub open spec fn all_washes(b: Seq<u8>, sels: Seq<TextSelection>) -> Seq<LineWash>
    decreases sels.len(),
{
    if sels.len() == 0 {
        Seq::empty()
    } else {
        all_washes(b, sels.drop_last()) + selection_washes_spec(b, sels.last())
    }
}

/// The number of newlines among the first `i` bytes.
pub open spec fn newlines_before(b: Seq<u8>, i: int) -> int
    decreases i,
{
    if i <= 0 {
        0
    } else {
        newlines_before(b, i - 1) + if b[i - 1] == 10u8 { 1int } else { 0int }
    }
}

proof fn lemma_newlines_before(b: Seq<u8>, i: int)
    requires
        0 <= i,
    ensures
        0 <= newlines_before(b, i) <= i,
    decreases i,
{
    if i > 0 {
        lemma_newlines_before(b, i - 1);
    }
}

/// Appends the highlight of `[s0, s1)` line by line.
fn push_washes(bytes: &[u8], s0: usize, s1: usize, out: &mut Vec<LineWash>)
    requires
        s0 < s1,
    ensures
        final(out)@ == old(out)@ + washes_from(bytes@, s0 as int, s1 as int, 0, 0),
{
    let ghost b = bytes@;
    let len = bytes.len();
    let mut ls: usize = 0;
    let mut line: usize = 0;
    loop
        invariant
            b == bytes@,
            len == b.len(),
            ls <= len,
            line <= ls,
            old(out)@ + washes_from(b, s0 as int, s1 as int, 0, 0) == out@ + washes_from(
                b,
                s0 as int,
                s1 as int,
                ls as int,
                line as int,
            ),
        decreases len + 1 - ls,
    {
        let mut le = ls;
        while le < len && bytes[le] != 10u8
            invariant
                b == bytes@,
                len == b.len(),
                ls <= le <= len,
                first_newline_from(b, ls as int) == first_newline_from(b, le as int),
            decreases len - le,
        {
            le = le + 1;
        }
        proof {
            lemma_first_newline(b, ls as int);
        }
        let a = if s0 >= ls { s0 } else { ls };
        let e = if s1 <= le { s1 } else { le };
        let ghost before = out@;
        if a < e || (s0 <= le && s1 > le && a <= e) {
            out.push(LineWash { line, from: a - ls, to: e - ls, past_newline: s1 > le });
        }
        let ghost here = if a < e || (s0 <= le && s1 > le && a <= e) {
            seq![LineWash { line: line, from: (a - ls) as usize, to: (e - ls) as usize, past_newline: s1 > le }]
        } else {
            Seq::<LineWash>::empty()
        };
        assert(out@ == before + here);
        if le >= len {
            assert(washes_from(b, s0 as int, s1 as int, ls as int, line as int) == here);
            assert(out@ == before + here);
            return;
        }
        assert(washes_from(b, s0 as int, s1 as int, ls as int, line as int) == here + washes_from(
            b,
            s0 as int,
            s1 as int,
            le + 1,
            line + 1,
        ));
        assert(before + (here + washes_from(b, s0 as int, s1 as int, le + 1, line + 1)) =~= out@
            + washes_from(b, s0 as int, s1 as int, le + 1, line + 1));
        ls = le + 1;
        line = line + 1;
    }
}

/// The selection highlight of a multi-line value: for every selection in
/// order, one share per line it touches (see `washes_from`).
pub fn selection_washes(value: &str, selections: &[TextSelection]) -> (r: Vec<LineWash>)
    ensures
        r@ == all_washes(bytes_of(value@), selections@),
{
    let bytes = value.as_bytes();
    let ghost b = bytes_of(value@);
    let mut out: Vec<LineWash> = Vec::new();
    let mut k: usize = 0;
    while k < selections.len()
        invariant
            bytes@ == b,
            k <= selections@.len(),
            out@ == all_washes(b, selections@.subrange(0, k as int)),
        decreases selections@.len() - k,
    {
        let (s0, s1) = selections[k].range();
        let ghost before = out@;
        if s0 != s1 {
            push_washes(bytes, s0, s1, &mut out);
        }
        proof {
            let prefix = selections@.subrange(0, k as int + 1);
            assert(prefix.drop_last() =~= selections@.subrange(0, k as int));
            assert(prefix.last() == selections@[k as int]);
            if s0 == s1 {
                assert(out@ =~= before + selection_washes_spec(b, selections@[k as int]));
            }
        }
        k = k + 1;
    }
    assert(selections@.subrange(0, selections@.len() as int) =~= selections@);
    out
}

/// The line a caret at byte `caret` sits on, counted from zero, and its byte
/// offset from that line's start.
pub fn caret_line(value: &str, caret: usize) -> (r: (usize, usize))
    requires
        is_boundary(bytes_of(value@), caret as int),
    ensures
        r.0 == newlines_before(bytes_of(value@), caret as int),
        r.1 == caret - line_start_spec(bytes_of(value@), caret as int),
{
    let bytes = value.as_bytes();
    let ghost b = bytes_of(value@);
    let mut row: usize = 0;
    let mut start: usize = 0;
    let mut i: usize = 0;
    while i < caret
        invariant
            bytes@ == b,
            caret <= b.len(),
            i <= caret,
            row == newlines_before(b, i as int),
            start == last_newline_before(b, i as int) + 1,
            row <= i,
        decreases caret - i,
    {
        proof {
            lemma_newlines_before(b, i as int);
        }
        if bytes[i] == 10u8 {
            row = row + 1;
            start = i + 1;
        }
        i = i + 1;
    }
    proof {
        lemma_last_newline(b, caret as int);
    }
    (row, caret - start)
}

/// A labelled input floats its label above the value while it is focused or
/// holds a value; an input without a label has nothing to float.
pub fn label_floats(label: &str, value: &str, focused: bool) -> (r: bool)
    ensures
        r == (label@.len() > 0 && (focused || value@.len() > 0)),
{
    let empty_label = label.as_bytes().len() == 0;
    let empty_value = value.as_bytes().len() == 0;
    proof {
        if label@.len() > 0 {
            vstd::utf8::encode_utf8_first_scalar(label@);
        }
        if value@.len() > 0 {
            vstd::utf8::encode_utf8_first_scalar(value@);
        }
    }
    !empty_label && (focused || !empty_value)
}

/// Every caret and selection end can be mapped into the displayed text: for a
/// password field, each lies on a character boundary and its bullet offset
/// fits in `usize`.
pub open spec fn input_positions_ok(v: Seq<char>, sels: Seq<TextSelection>, password: bool) -> bool {
    password ==> forall|k: int|
        0 <= k < sels.len() ==> {
            &&& is_boundary(bytes_of(v), #[trigger] sels[k].caret as int)
            &&& is_boundary(bytes_of(v), sels[k].anchor as int)
            &&& sels[k].caret * PASSWORD_GLYPH_LEN <= usize::MAX
            &&& sels[k].anchor * PASSWORD_GLYPH_LEN <= usize::MAX
        }
}

/// A single-line input's selection highlight in displayed bytes: one range
/// per non-empty selection, in order.
pub open spec fn input_washes_spec(v: Seq<char>, sels: Seq<TextSelection>, password: bool) -> Seq<(int, int)>
    decreases sels.len(),
{
    if sels.len() == 0 {
        Seq::empty()
    } else {
        let s = sels.last();
        input_washes_spec(v, sels.drop_last(), password) + if sel_start(s) == sel_end(s) {
            Seq::empty()
        } else {
            seq![(display_byte_spec(v, sel_start(s), password), display_byte_spec(v, sel_end(s), password))]
        }
    }
}

/// A single-line input's carets in displayed bytes: one per collapsed
/// selection, in order.
pub open spec fn input_carets_spec(v: Seq<char>, sels: Seq<TextSelection>, password: bool) -> Seq<int>
    decreases sels.len(),
{
    if sels.len() == 0 {
        Seq::empty()
    } else {
        let s = sels.last();
        input_carets_spec(v, sels.drop_last(), password) + if s.caret == s.anchor {
            seq![display_byte_spec(v, s.caret as int, password)]
        } else {
            Seq::empty()
        }
    }
}

/// Where a single-line input paints its selection highlight and carets, in
/// bytes of the displayed (possibly masked) text.
pub fn input_highlight(value: &str, selections: &[TextSelection], password: bool) -> (r: (
    Vec<(usize, usize)>,
    Vec<usize>,
))
    requires
        input_positions_ok(value@, selections@, password),
    ensures
        r.0@.len() == input_washes_spec(value@, selections@, password).len(),
        forall|k: int|
            0 <= k < r.0@.len() ==> (#[trigger] r.0@[k].0 as int, r.0@[k].1 as int) == input_washes_spec(
                value@,
                selections@,
                password,
            )[k],
        r.1@.len() == input_carets_spec(value@, selections@, password).len(),
        forall|k: int|
            0 <= k < r.1@.len() ==> #[trigger] r.1@[k] as int == input_carets_spec(value@, selections@, password)[k],
{
    let mut washes: Vec<(usize, usize)> = Vec::new();
    let mut carets: Vec<usize> = Vec::new();
    let mut k: usize = 0;
    while k < selections.len()
        invariant
            k <= selections@.len(),
            input_positions_ok(value@, selections@, password),
            washes@.len() == input_washes_spec(value@, selections@.subrange(0, k as int), password).len(),
            forall|q: int|
                0 <= q < washes@.len() ==> (#[trigger] washes@[q].0 as int, washes@[q].1 as int)
                    == input_washes_spec(value@, selections@.subrange(0, k as int), password)[q],
            carets@.len() == input_carets_spec(value@, selections@.subrange(0, k as int), password).len(),
            forall|q: int|
                0 <= q < carets@.len() ==> #[trigger] carets@[q] as int == input_carets_spec(
                    value@,
                    selections@.subrange(0, k as int),
                    password,
                )[q],
        decreases selections@.len() - k,
    {
        let s = selections[k];
        assert(selections@[k as int] == s);
        let prefix = Ghost(selections@.subrange(0, k as int + 1));
        assert(prefix@.drop_last() =~= selections@.subrange(0, k as int));
        assert(prefix@.last() == s);
        let (start, end) = s.range();
        if start != end {
            let x0 = display_byte_for_value_byte(value, start, password);
            let x1 = display_byte_for_value_byte(value, end, password);
            washes.push((x0, x1));
        }
        if s.caret == s.anchor {
            let x = display_byte_for_value_byte(value, s.caret, password);
            carets.push(x);
        }
        k = k + 1;
    }
    assert(selections@.subrange(0, selections@.len() as int) =~= selections@);
    (washes, carets)
}

} // verus!
