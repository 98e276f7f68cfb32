//! Byte-index arithmetic over UTF-8 text: character boundaries, word skips and
//! line ranges. Every index is a byte offset into the UTF-8 encoding of a
//! string; the spec functions below speak of that encoding, `bytes_of(s@)`.

use vstd::prelude::*;
use vstd::utf8::*;

verus! {

broadcast use vstd::utf8::group_utf8_lib;

/// The UTF-8 encoding of a character sequence (what `str::as_bytes` yields).
pub open spec fn bytes_of(chars: Seq<char>) -> Seq<u8> {
    encode_utf8(chars)
}

/// `i` is a character boundary of `b`: the start of an encoded scalar or the end.
pub open spec fn is_boundary(b: Seq<u8>, i: int) -> bool {
    0 <= i <= b.len() && (i == b.len() || !is_continuation_byte(b[i]))
}

pub open spec fn min_int(a: int, b: int) -> int {
    if a <= b { a } else { b }
}

/// The largest boundary strictly below `j`, or `0` when there is none.
pub open spec fn boundary_below(b: Seq<u8>, j: int) -> int
    decreases j,
{
    if j <= 0 {
        0
    } else if is_boundary(b, j - 1) {
        j - 1
    } else {
        boundary_below(b, j - 1)
    }
}

/// The smallest boundary strictly above `j`, or `b.len()` when there is none.
pub open spec fn boundary_above(b: Seq<u8>, j: int) -> int
    decreases b.len() - j,
{
    if j >= b.len() {
        b.len() as int
    } else if is_boundary(b, j + 1) {
        j + 1
    } else {
        boundary_above(b, j + 1)
    }
}

/// The character boundary before `i` (clamped to the text).
pub open spec fn prev_boundary_spec(b: Seq<u8>, i: int) -> int {
    boundary_below(b, min_int(i, b.len() as int))
}

/// The character boundary after `i` (clamped to the text).
pub open spec fn next_boundary_spec(b: Seq<u8>, i: int) -> int {
    boundary_above(b, min_int(i, b.len() as int))
}

/// Unicode `White_Space`, the property `char::is_whitespace` tests.
pub open spec fn is_white_space(c: char) -> bool {
    let u = c as u32;
    (0x09 <= u <= 0x0d) || u == 0x20 || u == 0x85 || u == 0xa0 || u == 0x1680 || (0x2000 <= u
        <= 0x200a) || u == 0x2028 || u == 0x2029 || u == 0x202f || u == 0x205f || u == 0x3000
}

/// The characters encoded before byte `j`.
pub open spec fn chars_before(b: Seq<u8>, j: int) -> Seq<char> {
    decode_utf8(b.subrange(0, j))
}

/// The characters encoded from byte `j` on.
pub open spec fn chars_after(b: Seq<u8>, j: int) -> Seq<char> {
    decode_utf8(b.subrange(j, b.len() as int))
}

/// Whether the character ending at `j` is whitespace (`false` at the start).
pub open spec fn ws_before(b: Seq<u8>, j: int) -> bool {
    chars_before(b, j).len() > 0 && is_white_space(chars_before(b, j).last())
}

/// Whether the character starting at `j` is whitespace (`false` at the end).
pub open spec fn ws_after(b: Seq<u8>, j: int) -> bool {
    chars_after(b, j).len() > 0 && is_white_space(chars_after(b, j)[0])
}

/// Steps back over characters whose whitespace-ness equals `ws`.
pub open spec fn skip_back(b: Seq<u8>, j: int, ws: bool) -> int
    decreases j,
{
    if j > 0 && ws_before(b, j) == ws && 0 <= boundary_below(b, j) < j {
        skip_back(b, boundary_below(b, j), ws)
    } else {
        j
    }
}

/// Steps forward over characters whose whitespace-ness equals `ws`.
pub open spec fn skip_forward(b: Seq<u8>, j: int, ws: bool) -> int
    decreases b.len() - j,
{
    if 0 <= j < b.len() && ws_after(b, j) == ws && j < boundary_above(b, j) <= b.len() {
        skip_forward(b, boundary_above(b, j), ws)
    } else {
        j
    }
}

/// Ctrl+Left: skip whitespace, then the word, leftwards.
pub open spec fn prev_word_spec(b: Seq<u8>, i: int) -> int {
    skip_back(b, skip_back(b, min_int(i, b.len() as int), true), false)
}

/// Ctrl+Right: skip the word, then whitespace, rightwards.
pub open spec fn next_word_spec(b: Seq<u8>, i: int) -> int {
    skip_forward(b, skip_forward(b, min_int(i, b.len() as int), false), true)
}

/// Index of the last `\n` strictly before `i`, or `-1`.
pub open spec fn last_newline_before(b: Seq<u8>, i: int) -> int
    decreases i,
{
    if i <= 0 {
        -1
    } else if b[i - 1] == 10u8 {
        i - 1
    } else {
        last_newline_before(b, i - 1)
    }
}

/// Index of the first `\n` at or after `i`, or `b.len()`.
pub open spec fn first_newline_from(b: Seq<u8>, i: int) -> int
    decreases b.len() - i,
{
    if i >= b.len() {
        b.len() as int
    } else if b[i] == 10u8 {
        i
    } else {
        first_newline_from(b, i + 1)
    }
}

/// The line containing `i` (clamped), including its trailing newline if any.
pub open spec fn line_range_spec(b: Seq<u8>, i: int) -> (int, int) {
    let i = min_int(i, b.len() as int);
    let nl = first_newline_from(b, i);
    (last_newline_before(b, i) + 1, if nl < b.len() { nl + 1 } else { b.len() as int })
}

// ---------------------------------------------------------------------------
// lemmas
// ---------------------------------------------------------------------------

/// Encoding distributes over concatenation.
pub proof fn lemma_encode_concat(a: Seq<char>, c: Seq<char>)
    ensures
        encode_utf8(a + c) == encode_utf8(a) + encode_utf8(c),
    decreases a.len(),
{
    if a.len() == 0 {
        assert(a + c =~= c);
    } else {
        assert((a + c).drop_first() =~= a.drop_first() + c);
        assert((a + c)[0] == a[0]);
        lemma_encode_concat(a.drop_first(), c);
    }
}

/// For valid UTF-8, vstd's recursive boundary notion is the byte-level one.
pub proof fn lemma_boundary_equiv(b: Seq<u8>, i: int)
    requires
        valid_utf8(b),
    ensures
        is_char_boundary(b, i) <==> is_boundary(b, i),
{
    is_char_boundary_start_end_of_seq(b);
    if 0 <= i < b.len() {
        is_char_boundary_iff_not_is_continuation_byte(b, i);
    }
    if i == 0 && b.len() > 0 {
        is_char_boundary_iff_not_is_continuation_byte(b, 0);
    }
    if i < 0 || i > b.len() {
        if i != 0 {
            assert(!is_char_boundary(b, i));
        }
    }
}

pub proof fn lemma_boundary_below(b: Seq<u8>, j: int)
    ensures
        j > 0 ==> 0 <= boundary_below(b, j) < j,
        j <= 0 ==> boundary_below(b, j) == 0,
        boundary_below(b, j) == 0 || is_boundary(b, boundary_below(b, j)),
        forall|k: int| boundary_below(b, j) < k < j ==> !is_boundary(b, k),
    decreases j,
{
    if j > 0 && !is_boundary(b, j - 1) {
        lemma_boundary_below(b, j - 1);
    }
}

pub proof fn lemma_boundary_above(b: Seq<u8>, j: int)
    requires
        0 <= j,
    ensures
        j < b.len() ==> j < boundary_above(b, j) <= b.len(),
        j >= b.len() ==> boundary_above(b, j) == b.len(),
        is_boundary(b, boundary_above(b, j)),
        forall|k: int| j < k < boundary_above(b, j) ==> !is_boundary(b, k),
    decreases b.len() - j,
{
    if j < b.len() && !is_boundary(b, j + 1) {
        lemma_boundary_above(b, j + 1);
    }
}

pub proof fn lemma_skip_back(b: Seq<u8>, j: int, ws: bool)
    requires
        valid_utf8(b),
        j == 0 || is_boundary(b, j),
    ensures
        0 <= skip_back(b, j, ws) <= j || (j < 0 && skip_back(b, j, ws) == j),
        skip_back(b, j, ws) == 0 || is_boundary(b, skip_back(b, j, ws)),
    decreases j,
{
    if j > 0 && ws_before(b, j) == ws && 0 <= boundary_below(b, j) < j {
        lemma_boundary_below(b, j);
        lemma_skip_back(b, boundary_below(b, j), ws);
    }
}

pub proof fn lemma_skip_forward(b: Seq<u8>, j: int, ws: bool)
    requires
        0 <= j <= b.len(),
        is_boundary(b, j),
    ensures
        j <= skip_forward(b, j, ws) <= b.len(),
        is_boundary(b, skip_forward(b, j, ws)),
    decreases b.len() - j,
{
    if 0 <= j < b.len() && ws_after(b, j) == ws && j < boundary_above(b, j) <= b.len() {
        lemma_boundary_above(b, j);
        lemma_skip_forward(b, boundary_above(b, j), ws);
    }
}

pub proof fn lemma_last_newline(b: Seq<u8>, i: int)
    requires
        i <= b.len(),
    ensures
        -1 <= last_newline_before(b, i) < i || (i <= 0 && last_newline_before(b, i) == -1),
        last_newline_before(b, i) >= 0 ==> b[last_newline_before(b, i)] == 10u8,
        forall|k: int| last_newline_before(b, i) < k < i ==> b[k] != 10u8,
    decreases i,
{
    if i > 0 && b[i - 1] != 10u8 {
        lemma_last_newline(b, i - 1);
    }
}

pub proof fn lemma_first_newline(b: Seq<u8>, i: int)
    requires
        0 <= i,
    ensures
        i <= b.len() ==> i <= first_newline_from(b, i) <= b.len(),
        first_newline_from(b, i) < b.len() ==> b[first_newline_from(b, i)] == 10u8,
        forall|k: int| i <= k < first_newline_from(b, i) ==> b[k] != 10u8,
    decreases b.len() - i,
{
    if i < b.len() && b[i] != 10u8 {
        lemma_first_newline(b, i + 1);
    }
}

/// A newline byte is a one-byte scalar, so both sides of it are boundaries.
pub proof fn lemma_newline_boundaries(b: Seq<u8>, k: int)
    requires
        valid_utf8(b),
        0 <= k < b.len(),
        b[k] == 10u8,
    ensures
        is_boundary(b, k),
        is_boundary(b, k + 1),
{
    if k + 1 < b.len() {
        is_char_boundary_iff_is_leading_byte(b, k);
        is_char_boundary_iff_not_is_continuation_byte(b, k);
        is_char_boundary_iff_not_is_continuation_byte(b, k + 1);
        // the byte after a one-byte scalar starts the next scalar
        lemma_next_after_ascii(b, k);
    }
}

pub proof fn lemma_next_after_ascii(b: Seq<u8>, k: int)
    requires
        valid_utf8(b),
        0 <= k,
        k + 1 < b.len(),
        is_leading_byte_width_1(b[k]),
    ensures
        !is_continuation_byte(b[k + 1]),
    decreases b.len(),
{
    let n = length_of_first_scalar(b);
    if k == 0 {
        let rest = pop_first_scalar(b);
        assert(n == 1);
        assert(rest[0] == b[1]);
        is_char_boundary_iff_not_is_continuation_byte(rest, 0);
        is_char_boundary_start_end_of_seq(rest);
    } else if k < n {
        // inside the first scalar every byte after the first is a continuation
        is_char_boundary_iff_not_is_continuation_byte(b, k);
        assert(is_continuation_byte(b[k]));
    } else {
        let rest = pop_first_scalar(b);
        assert(rest[k - n] == b[k]);
        assert(rest[k - n + 1] == b[k + 1]);
        lemma_next_after_ascii(rest, k - n);
    }
}

/// Whether `c` has the Unicode `White_Space` property, as `char::is_whitespace`
/// decides it.
pub(crate) fn char_is_whitespace(c: char) -> (r: bool)
    ensures
        r == is_white_space(c),
{
    let u = c as u32;
    (0x09 <= u && u <= 0x0d) || u == 0x20 || u == 0x85 || u == 0xa0 || u == 0x1680 || (0x2000
        <= u && u <= 0x200a) || u == 0x2028 || u == 0x2029 || u == 0x202f || u == 0x205f || u
        == 0x3000
}

// ---------------------------------------------------------------------------
// std wrappers
// ---------------------------------------------------------------------------

/// `Chars::next_back` on `s.chars()`: the last character of `s`, if any.
#[verifier::external_body]
pub(crate) fn last_char(s: &str) -> (r: Option<char>)
    ensures
        r == (if s@.len() == 0 {
            None::<char>
        } else {
            Some(s@.last())
        }),
{
    s.chars().next_back()
}

/// `Chars::next` on `s.chars()`: the first character of `s`, if any.
#[verifier::external_body]
pub(crate) fn first_char(s: &str) -> (r: Option<char>)
    ensures
        r == (if s@.len() == 0 {
            None::<char>
        } else {
            Some(s@[0])
        }),
{
    s.chars().next()
}

// ---------------------------------------------------------------------------
// exec
// ---------------------------------------------------------------------------

/// Exec test of the byte-level boundary predicate.
pub fn str_is_boundary(s: &str, i: usize) -> (r: bool)
    ensures
        r == is_boundary(bytes_of(s@), i as int),
{
    proof {
        lemma_boundary_equiv(bytes_of(s@), i as int);
    }
    s.is_char_boundary(i)
}

/// The two halves of `s` around the boundary `mid`.
pub fn split_at_boundary(s: &str, mid: usize) -> (r: (&str, &str))
    requires
        is_boundary(bytes_of(s@), mid as int),
    ensures
        bytes_of(r.0@) == bytes_of(s@).subrange(0, mid as int),
        bytes_of(r.1@) == bytes_of(s@).subrange(mid as int, bytes_of(s@).len() as int),
        r.0@ == chars_before(bytes_of(s@), mid as int),
        r.1@ == chars_after(bytes_of(s@), mid as int),
{
    proof {
        lemma_boundary_equiv(bytes_of(s@), mid as int);
    }
    let r = s.split_at(mid);
    proof {
        encode_utf8_decode_utf8(r.0@);
        encode_utf8_decode_utf8(r.1@);
    }
    r
}

/// The character boundary before `i` (clamped to `s.len()`).
pub fn prev_boundary(s: &str, i: usize) -> (r: usize)
    ensures
        r == prev_boundary_spec(bytes_of(s@), i as int),
{
    let ghost b = bytes_of(s@);
    let len = s.as_bytes().len();
    let mut j = if i < len { i } else { len };
    let ghost m = j as int;
    while j > 0
        invariant
            b == bytes_of(s@),
            m == min_int(i as int, b.len() as int),
            boundary_below(b, m) == boundary_below(b, j as int),
        decreases j,
    {
        let ghost prev = j as int;
        j = j - 1;
        if str_is_boundary(s, j) {
            assert(boundary_below(b, prev) == j as int);
            return j;
        }
        assert(boundary_below(b, prev) == boundary_below(b, j as int));
    }
    0
}

/// The character boundary after `i` (clamped to `s.len()`).
pub fn next_boundary(s: &str, i: usize) -> (r: usize)
    ensures
        r == next_boundary_spec(bytes_of(s@), i as int),
{
    let ghost b = bytes_of(s@);
    let len = s.as_bytes().len();
    let mut j = if i < len { i } else { len };
    let ghost m = j as int;
    while j < len
        invariant
            b == bytes_of(s@),
            len == b.len(),
            j <= len,
            m == min_int(i as int, b.len() as int),
            boundary_above(b, m) == boundary_above(b, j as int),
        decreases len - j,
    {
        let ghost prev = j as int;
        j = j + 1;
        if str_is_boundary(s, j) {
            assert(boundary_above(b, prev) == j as int);
            return j;
        }
        assert(boundary_above(b, prev) == boundary_above(b, j as int));
    }
    len
}

/// Whether the character ending at the boundary `j` is whitespace.
fn whitespace_before(s: &str, j: usize) -> (r: bool)
    requires
        is_boundary(bytes_of(s@), j as int),
    ensures
        r == ws_before(bytes_of(s@), j as int),
{
    let (head, _) = split_at_boundary(s, j);
    match last_char(head) {
        Some(c) => char_is_whitespace(c),
        None => false,
    }
}

/// Whether the character starting at the boundary `j` is whitespace.
fn whitespace_after(s: &str, j: usize) -> (r: bool)
    requires
        is_boundary(bytes_of(s@), j as int),
    ensures
        r == ws_after(bytes_of(s@), j as int),
{
    let (_, tail) = split_at_boundary(s, j);
    match first_char(tail) {
        Some(c) => char_is_whitespace(c),
        None => false,
    }
}

fn skip_back_exec(s: &str, start: usize, ws: bool) -> (r: usize)
    requires
        start <= bytes_of(s@).len(),
        is_boundary(bytes_of(s@), start as int),
    ensures
        r == skip_back(bytes_of(s@), start as int, ws),
        is_boundary(bytes_of(s@), r as int),
{
    let ghost b = bytes_of(s@);
    let mut j = start;
    proof {
        encode_utf8_valid_utf8(s@);
    }
    while j > 0 && whitespace_before(s, j) == ws
        invariant
            b == bytes_of(s@),
            valid_utf8(b),
            j <= b.len(),
            is_boundary(b, j as int),
            skip_back(b, start as int, ws) == skip_back(b, j as int, ws),
        decreases j,
    {
        proof {
            lemma_boundary_below(b, j as int);
            is_char_boundary_start_end_of_seq(b);
            lemma_boundary_equiv(b, 0);
        }
        j = prev_boundary(s, j);
    }
    j
}

pub(crate) fn skip_forward_exec(s: &str, start: usize, ws: bool) -> (r: usize)
    requires
        start <= bytes_of(s@).len(),
        is_boundary(bytes_of(s@), start as int),
    ensures
        r == skip_forward(bytes_of(s@), start as int, ws),
        is_boundary(bytes_of(s@), r as int),
{
    let ghost b = bytes_of(s@);
    let len = s.as_bytes().len();
    let mut j = start;
    while j < len && whitespace_after(s, j) == ws
        invariant
            b == bytes_of(s@),
            len == b.len(),
            j <= len,
            is_boundary(b, j as int),
            skip_forward(b, start as int, ws) == skip_forward(b, j as int, ws),
        decreases len - j,
    {
        proof {
            lemma_boundary_above(b, j as int);
        }
        j = next_boundary(s, j);
    }
    j
}

/// Ctrl+Left target: skip whitespace, then the word, leftwards. `i` must be a
/// character boundary or lie at/after the end.
pub fn prev_word(s: &str, i: usize) -> (r: usize)
    requires
        i >= bytes_of(s@).len() || is_boundary(bytes_of(s@), i as int),
    ensures
        r == prev_word_spec(bytes_of(s@), i as int),
        is_boundary(bytes_of(s@), r as int),
{
    let len = s.as_bytes().len();
    let j = if i < len { i } else { len };
    proof {
        encode_utf8_valid_utf8(s@);
        lemma_boundary_equiv(bytes_of(s@), len as int);
        is_char_boundary_start_end_of_seq(bytes_of(s@));
    }
    let j = skip_back_exec(s, j, true);
    proof {
        lemma_skip_back(bytes_of(s@), j as int, false);
    }
    skip_back_exec(s, j, false)
}

/// Ctrl+Right target: skip the word, then whitespace, rightwards. `i` must be a
/// character boundary or lie at/after the end.
pub fn next_word(s: &str, i: usize) -> (r: usize)
    requires
        i >= bytes_of(s@).len() || is_boundary(bytes_of(s@), i as int),
    ensures
        r == next_word_spec(bytes_of(s@), i as int),
        is_boundary(bytes_of(s@), r as int),
{
    let len = s.as_bytes().len();
    let j = if i < len { i } else { len };
    proof {
        encode_utf8_valid_utf8(s@);
        lemma_boundary_equiv(bytes_of(s@), len as int);
        is_char_boundary_start_end_of_seq(bytes_of(s@));
    }
    let j = skip_forward_exec(s, j, false);
    skip_forward_exec(s, j, true)
}

/// The line containing `i` (clamped to the text), including its trailing
/// newline when one exists.
pub fn line_range_at(s: &str, i: usize) -> (r: (usize, usize))
    ensures
        r.0 == line_range_spec(bytes_of(s@), i as int).0,
        r.1 == line_range_spec(bytes_of(s@), i as int).1,
{
    let bytes = s.as_bytes();
    let ghost b = bytes_of(s@);
    let len = bytes.len();
    let i = if i < len { i } else { len };
    let mut k = i;
    while k > 0 && bytes[k - 1] != 10u8
        invariant
            bytes@ == b,
            len == b.len(),
            k <= i <= len,
            last_newline_before(b, i as int) == last_newline_before(b, k as int),
        decreases k,
    {
        k = k - 1;
    }
    let start = k;
    let mut e = i;
    while e < len && bytes[e] != 10u8
        invariant
            bytes@ == b,
            len == b.len(),
            i <= e <= len,
            first_newline_from(b, i as int) == first_newline_from(b, e as int),
        decreases len - e,
    {
        e = e + 1;
    }
    let end = if e < len { e + 1 } else { len };
    (start, end)
}

/// Start of the line containing `i`: just after the last newline before it.
pub open spec fn line_start_spec(b: Seq<u8>, i: int) -> int {
    last_newline_before(b, i) + 1
}

/// End of the line containing `i`: its newline, or the end of the text.
pub open spec fn line_end_spec(b: Seq<u8>, i: int) -> int {
    first_newline_from(b, i)
}

/// Byte index of the start of the line containing `i`.
pub fn line_start(s: &str, i: usize) -> (r: usize)
    requires
        i <= bytes_of(s@).len(),
    ensures
        r == line_start_spec(bytes_of(s@), i as int),
        r <= i,
        is_boundary(bytes_of(s@), r as int),
{
    let bytes = s.as_bytes();
    let ghost b = bytes_of(s@);
    let mut k = i;
    while k > 0 && bytes[k - 1] != 10u8
        invariant
            bytes@ == b,
            k <= i <= b.len(),
            last_newline_before(b, i as int) == last_newline_before(b, k as int),
        decreases k,
    {
        k = k - 1;
    }
    proof {
        lemma_line_edges(b, i as int);
    }
    k
}

/// Byte index of the end of the line containing `i` (its newline or the end).
pub fn line_end(s: &str, i: usize) -> (r: usize)
    requires
        i <= bytes_of(s@).len(),
    ensures
        r == line_end_spec(bytes_of(s@), i as int),
        i <= r <= bytes_of(s@).len(),
        is_boundary(bytes_of(s@), r as int),
{
    let bytes = s.as_bytes();
    let ghost b = bytes_of(s@);
    let len = bytes.len();
    let mut e = i;
    while e < len && bytes[e] != 10u8
        invariant
            bytes@ == b,
            len == b.len(),
            i <= e <= len,
            first_newline_from(b, i as int) == first_newline_from(b, e as int),
        decreases len - e,
    {
        e = e + 1;
    }
    proof {
        lemma_line_edges(b, i as int);
    }
    e
}

/// Both line edges around `i` are boundaries, start before end.
pub proof fn lemma_line_edges(b: Seq<u8>, i: int)
    requires
        valid_utf8(b),
        0 <= i <= b.len(),
    ensures
        0 <= line_start_spec(b, i) <= i <= line_end_spec(b, i) <= b.len(),
        is_boundary(b, line_start_spec(b, i)),
        is_boundary(b, line_end_spec(b, i)),
{
    lemma_last_newline(b, i);
    lemma_first_newline(b, i);
    is_char_boundary_start_end_of_seq(b);
    lemma_boundary_equiv(b, 0);
    lemma_boundary_equiv(b, b.len() as int);
    let k = last_newline_before(b, i);
    if k >= 0 {
        lemma_newline_boundaries(b, k);
    }
    let nl = first_newline_from(b, i);
    if nl < b.len() {
        lemma_newline_boundaries(b, nl);
    }
}

/// Boundary facts about the line range, for callers that slice by it.
pub proof fn lemma_line_range_boundaries(b: Seq<u8>, i: int)
    requires
        valid_utf8(b),
        0 <= i,
    ensures
        0 <= line_range_spec(b, i).0 <= min_int(i, b.len() as int) <= line_range_spec(b, i).1
            <= b.len(),
        is_boundary(b, line_range_spec(b, i).0),
        is_boundary(b, line_range_spec(b, i).1),
{
    let m = min_int(i, b.len() as int);
    lemma_last_newline(b, m);
    lemma_first_newline(b, m);
    is_char_boundary_start_end_of_seq(b);
    lemma_boundary_equiv(b, 0);
    lemma_boundary_equiv(b, b.len() as int);
    let k = last_newline_before(b, m);
    if k >= 0 {
        lemma_newline_boundaries(b, k);
    }
    let nl = first_newline_from(b, m);
    if nl < b.len() {
        lemma_newline_boundaries(b, nl);
    }
}

} // verus!
