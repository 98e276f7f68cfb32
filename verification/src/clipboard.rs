//! Clipboard text: the selected fragments of a value in document order, and
//! the line-break normalization applied to pasted text.

use vstd::prelude::*;
use vstd::utf8::*;

use crate::boundary::{bytes_of, is_boundary};
use crate::selection::{all_on_boundaries, sel_end, sel_start, selection_list, selection_seq, slice_between};
use crate::small_vec::TextSelection;

verus! {

broadcast use vstd::utf8::group_utf8_lib;

/// Lexicographic order on `(start, end)` byte ranges.
pub open spec fn range_lt(a: (usize, usize), c: (usize, usize)) -> bool {
    a.0 < c.0 || (a.0 == c.0 && a.1 < c.1)
}

pub open spec fn strictly_sorted(rs: Seq<(usize, usize)>) -> bool {
    forall|i: int, j: int| 0 <= i < j < rs.len() ==> range_lt(#[trigger] rs[i], #[trigger] rs[j])
}

/// The ordered `(start, end)` range of a selection.
pub open spec fn sel_range(s: TextSelection) -> (usize, usize) {
    (sel_start(s) as usize, sel_end(s) as usize)
}

/// `r` is the non-empty range of one of `sels`.
pub open spec fn is_selected_range(sels: Seq<TextSelection>, r: (usize, usize)) -> bool {
    r.0 < r.1 && exists|k: int| 0 <= k < sels.len() && sel_range(#[trigger] sels[k]) == r
}

/// `rs` lists every non-empty selection range exactly once, in document order.
pub open spec fn clipboard_ranges(sels: Seq<TextSelection>, rs: Seq<(usize, usize)>) -> bool {
    &&& strictly_sorted(rs)
    &&& forall|k: int| 0 <= k < rs.len() ==> is_selected_range(sels, #[trigger] rs[k])
    &&& forall|k: int|
        0 <= k < sels.len() && sel_start(#[trigger] sels[k]) < sel_end(sels[k]) ==> rs.contains(
            sel_range(sels[k]),
        )
}

/// The characters of `b` in the byte range `r`.
pub open spec fn range_chars(b: Seq<u8>, r: (usize, usize)) -> Seq<char> {
    decode_utf8(b.subrange(r.0 as int, r.1 as int))
}

/// The fragments of `b` in the ranges `rs`, separated by newlines.
pub open spec fn joined(b: Seq<u8>, rs: Seq<(usize, usize)>) -> Seq<char>
    decreases rs.len(),
{
    if rs.len() == 0 {
        Seq::empty()
    } else if rs.len() == 1 {
        range_chars(b, rs[0])
    } else {
        joined(b, rs.drop_last()) + seq!['\n'] + range_chars(b, rs.last())
    }
}

fn range_lt_exec(a: (usize, usize), c: (usize, usize)) -> (r: bool)
    ensures
        r == range_lt(a, c),
{
    a.0 < c.0 || (a.0 == c.0 && a.1 < c.1)
}

/// Every non-empty selection range once, sorted in document order.
fn ordered_ranges(sels: &Vec<TextSelection>) -> (rs: Vec<(usize, usize)>)
    ensures
        clipboard_ranges(sels@, rs@),
{
    let mut out: Vec<(usize, usize)> = Vec::new();
    let mut i: usize = 0;
    while i < sels.len()
        invariant
            i <= sels@.len(),
            strictly_sorted(out@),
            forall|k: int| 0 <= k < out@.len() ==> is_selected_range(sels@, #[trigger] out@[k]),
            forall|k: int|
                0 <= k < i && sel_start(#[trigger] sels@[k]) < sel_end(sels@[k]) ==> out@.contains(
                    sel_range(sels@[k]),
                ),
        decreases sels@.len() - i,
    {
        let (s, e) = sels[i].range();
        if s < e {
            let r = (s, e);
            assert(sel_range(sels@[i as int]) == r);
            assert(is_selected_range(sels@, r));
            let mut p: usize = 0;
            while p < out.len() && range_lt_exec(out[p], r)
                invariant
                    p <= out@.len(),
                    forall|k: int| 0 <= k < p ==> range_lt(#[trigger] out@[k], r),
                decreases out@.len() - p,
            {
                p = p + 1;
            }
            if p < out.len() && out[p].0 == s && out[p].1 == e {
                assert(out@[p as int] == r);
                assert(out@.contains(r));
            } else {
                let ghost before = out@;
                proof {
                    if p < before.len() {
                        assert(!range_lt(before[p as int], r));
                        assert(before[p as int] != r);
                    }
                }
                out.insert(p, r);
                assert(out@[p as int] == r);
                assert forall|a: int, c: int| 0 <= a < c < out@.len() implies range_lt(
                    #[trigger] out@[a],
                    #[trigger] out@[c],
                ) by {
                    if c < p {
                        assert(out@[a] == before[a] && out@[c] == before[c]);
                    } else if c == p {
                        assert(out@[a] == before[a]);
                    } else if a < p {
                        assert(out@[a] == before[a] && out@[c] == before[c - 1]);
                        assert(range_lt(before[a], r));
                        if c - 1 > p {
                            assert(range_lt(before[p as int], before[c - 1]));
                        }
                    } else if a == p {
                        assert(out@[c] == before[c - 1]);
                        if c - 1 > p {
                            assert(range_lt(before[p as int], before[c - 1]));
                        }
                    } else {
                        assert(out@[a] == before[a - 1] && out@[c] == before[c - 1]);
                    }
                }
                assert forall|k: int| 0 <= k < out@.len() implies is_selected_range(
                    sels@,
                    #[trigger] out@[k],
                ) by {
                    if k < p {
                        assert(out@[k] == before[k]);
                    } else if k > p {
                        assert(out@[k] == before[k - 1]);
                    }
                }
                assert forall|k: int|
                    0 <= k < i && sel_start(#[trigger] sels@[k]) < sel_end(
                        sels@[k],
                    ) implies out@.contains(sel_range(sels@[k])) by {
                    let j = choose|j: int| 0 <= j < before.len() && before[j] == sel_range(sels@[k]);
                    if j < p {
                        assert(out@[j] == before[j]);
                    } else {
                        assert(out@[j + 1] == before[j]);
                    }
                }
            }
        }
        i = i + 1;
    }
    out
}

/// `r` is the clipboard text of the selections `sels` of `b`: `None` when no
/// selection is a non-empty range, else every non-empty range once, in
/// document order, joined by newlines.
pub open spec fn clipboard_text(b: Seq<u8>, sels: Seq<TextSelection>, r: Option<String>) -> bool {
    &&& r is None <==> forall|k: int|
        0 <= k < sels.len() ==> sel_start(#[trigger] sels[k]) == sel_end(sels[k])
    &&& r matches Some(t) ==> exists|rs: Seq<(usize, usize)>|
        clipboard_ranges(sels, rs) && t@ == joined(b, rs)
}

/// The selected fragments of `value` in document order, separated by
/// newlines (the multi-selection clipboard convention of desktop editors);
/// `None` when no selection is a non-empty range.
pub fn selection_text(
    value: &str,
    caret: usize,
    anchor: usize,
    secondary: &[TextSelection],
) -> (r: Option<String>)
    requires
        all_on_boundaries(bytes_of(value@), selection_seq(caret, anchor, secondary@)),
    ensures
        clipboard_text(bytes_of(value@), selection_seq(caret, anchor, secondary@), r),
{
    let ghost b = bytes_of(value@);
    let sels = selection_list(caret, anchor, secondary);
    let rs = ordered_ranges(&sels);
    if rs.len() == 0 {
        proof {
            assert forall|k: int| 0 <= k < sels@.len() implies sel_start(#[trigger] sels@[k])
                == sel_end(sels@[k]) by {
                if sel_start(sels@[k]) < sel_end(sels@[k]) {
                    assert(rs@.contains(sel_range(sels@[k])));
                }
                assert(sel_start(sels@[k]) <= sel_end(sels@[k]));
            }
        }
        return None;
    }
    proof {
        let r0 = rs@[0];
        assert(is_selected_range(sels@, r0));
        let k = choose|k: int| 0 <= k < sels@.len() && sel_range(#[trigger] sels@[k]) == r0;
        assert(sel_start(sels@[k]) < sel_end(sels@[k]));
    }
    let newline = "\n";
    proof {
        reveal_strlit("\n");
    }
    let mut out = String::new();
    let mut k: usize = 0;
    while k < rs.len()
        invariant
            k <= rs@.len(),
            rs@.len() > 0,
            b == bytes_of(value@),
            newline@ == seq!['\n'],
            clipboard_ranges(sels@, rs@),
            all_on_boundaries(b, sels@),
            out@ == joined(b, rs@.subrange(0, k as int)),
        decreases rs@.len() - k,
    {
        let (start, end) = rs[k];
        proof {
            let kk = k as int;
            assert(is_selected_range(sels@, rs@[kk]));
            let j = choose|j: int| 0 <= j < sels@.len() && sel_range(#[trigger] sels@[j]) == rs@[kk];
            assert(crate::selection::sel_on_boundaries(b, sels@[j]));
        }
        let fragment = slice_between(value, start, end);
        proof {
            encode_utf8_decode_utf8(fragment@);
            assert(fragment@ == range_chars(b, rs@[k as int]));
        }
        if k != 0 {
            out.append(newline);
        }
        out.append(fragment);
        k = k + 1;
        proof {
            let pre = rs@.subrange(0, k as int);
            assert(pre.drop_last() =~= rs@.subrange(0, k - 1));
            assert(pre.last() == rs@[k - 1]);
        }
    }
    assert(rs@.subrange(0, rs@.len() as int) =~= rs@);
    Some(out)
}

// ---------------------------------------------------------------------------
// pasted text
// ---------------------------------------------------------------------------

/// `String::push`: appends one character.
#[verifier::external_body]
fn push_char(s: &mut String, c: char)
    ensures
        final(s)@ == old(s)@.push(c),
{
    s.push(c)
}

pub open spec fn is_line_break(c: char) -> bool {
    c == '\r' || c == '\n'
}

/// `s` without its carriage returns and line feeds.
pub open spec fn without_line_breaks(s: Seq<char>) -> Seq<char>
    decreases s.len(),
{
    if s.len() == 0 {
        Seq::empty()
    } else if is_line_break(s.last()) {
        without_line_breaks(s.drop_last())
    } else {
        without_line_breaks(s.drop_last()).push(s.last())
    }
}

/// `s` with every `\r\n` and every lone `\r` turned into `\n`.
pub open spec fn unix_line_breaks(s: Seq<char>) -> Seq<char>
    decreases s.len(),
{
    if s.len() == 0 {
        Seq::empty()
    } else if s.last() == '\r' {
        unix_line_breaks(s.drop_last()).push('\n')
    } else if s.last() == '\n' && s.len() > 1 && s[s.len() - 2] == '\r' {
        unix_line_breaks(s.drop_last())
    } else {
        unix_line_breaks(s.drop_last()).push(s.last())
    }
}

/// What pasting inserts: a single-line field strips line breaks; a multi-line
/// editor normalizes platform line endings to `\n`.
pub open spec fn paste_spec(s: Seq<char>, multiline: bool) -> Seq<char> {
    if multiline {
        unix_line_breaks(s)
    } else {
        without_line_breaks(s)
    }
}

/// Normalizes clipboard text for insertion (see `paste_spec`).
pub fn normalize_paste(text: &str, multiline: bool) -> (r: String)
    ensures
        r@ == paste_spec(text@, multiline),
{
    let mut out = String::new();
    let mut prev: Option<char> = None;
    let ghost s = text@;
    for c in it: text.chars()
        invariant
            it.seq() == s,
            it.index() <= s.len(),
            prev == (if it.index() == 0 {
                None::<char>
            } else {
                Some(s[it.index() - 1])
            }),
            out@ == paste_spec(s.subrange(0, it.index() as int), multiline),
    {
        let ghost n = it.index();
        proof {
            let pre = s.subrange(0, n + 1);
            assert(pre.drop_last() =~= s.subrange(0, n as int));
            assert(pre.last() == c);
            if n > 0 {
                assert(pre[pre.len() - 2] == s[n - 1]);
            }
        }
        if multiline {
            if c == '\r' {
                push_char(&mut out, '\n');
            } else if c == '\n' && prev == Some('\r') {
            } else {
                push_char(&mut out, c);
            }
        } else if c != '\r' && c != '\n' {
            push_char(&mut out, c);
        }
        prev = Some(c);
    }
    proof {
        assert(s.subrange(0, s.len() as int) =~= s);
    }
    out
}

} // verus!
