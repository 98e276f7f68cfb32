//! The markup grammar of the SVG subset: finding the next tag of a document
//! (skipping comments and declarations), splitting a tag into its name and
//! attribute text, an element's text content, attribute lookup, and the
//! colour and paint value syntax. Numbers inside values are left to the
//! caller.

use vstd::prelude::*;
use vstd::utf8::*;

use crate::boundary::{
    bytes_of, chars_after, chars_before, is_boundary, last_char, lemma_skip_forward, skip_forward,
    skip_forward_exec, split_at_boundary,
};
use crate::color::{rgba_spec, Color};
use crate::combobox::{ascii_fold, eq_ignore_ascii_case, eq_ignore_ascii_case_spec, trim, trim_end, trim_end_spec, trim_spec};
use crate::selection::{lemma_zero_boundary, slice_between};
use crate::svg::{find_byte, lemma_ascii_boundary, lemma_find_byte, FillRule, TextAnchor};

verus! {

broadcast use vstd::utf8::group_utf8_lib;

// ---------------------------------------------------------------------------
// byte searches
// ---------------------------------------------------------------------------

/// `pat` occurs in `b` starting at byte `i`.
pub open spec fn occurs_at(b: Seq<u8>, i: int, pat: Seq<u8>) -> bool {
    0 <= i && i + pat.len() <= b.len() && b.subrange(i, i + pat.len()) == pat
}

/// The first byte index `>= from` where `pat` occurs (`str::find`), or
/// `b.len()` when it occurs nowhere there.
pub open spec fn find_seq(b: Seq<u8>, from: int, pat: Seq<u8>) -> int
    decreases b.len() - from,
{
    if from < 0 || from >= b.len() || from + pat.len() > b.len() {
        b.len() as int
    } else if occurs_at(b, from, pat) {
        from
    } else {
        find_seq(b, from + 1, pat)
    }
}

pub proof fn lemma_find_seq(b: Seq<u8>, from: int, pat: Seq<u8>)
    requires
        0 <= from,
    ensures
        find_seq(b, from, pat) == b.len() || (from <= find_seq(b, from, pat) < b.len()
            && occurs_at(b, find_seq(b, from, pat), pat)),
        forall|k: int| from <= k < find_seq(b, from, pat) && k < b.len() ==> !occurs_at(b, k, pat),
    decreases b.len() - from,
{
    if from < b.len() && from + pat.len() <= b.len() && !occurs_at(b, from, pat) {
        lemma_find_seq(b, from + 1, pat);
    }
    if from < b.len() && from + pat.len() > b.len() {
        assert forall|k: int| from <= k < b.len() implies !occurs_at(b, k, pat) by {}
    }
}

/// `<!--` without its `<`.
pub open spec fn comment_open() -> Seq<u8> {
    seq![0x21u8, 0x2du8, 0x2du8]
}

/// `-->`.
pub open spec fn comment_close() -> Seq<u8> {
    seq![0x2du8, 0x2du8, 0x3eu8]
}

// ---------------------------------------------------------------------------
// tags
// ---------------------------------------------------------------------------

/// The next tag at or after byte `pos`, as `(closing, body start, body end)`:
/// the body lies between `<` (or `</`) and `>`, and scanning resumes after
/// that `>`. Comments `<!-- … -->` and declarations `<!…>` / `<?…>` are
/// skipped; `None` when no complete tag follows (an unterminated comment,
/// declaration or tag ends the document).
pub open spec fn next_tag_spec(b: Seq<u8>, pos: int) -> Option<(bool, int, int)>
    decreases b.len() + 1 - pos,
{
    if pos < 0 || pos > b.len() {
        None
    } else {
        let lt = find_byte(b, pos, 0x3c);
        proof {
            lemma_find_byte(b, pos, 0x3c);
        }
        if lt >= b.len() {
            None
        } else {
            let p = lt + 1;
            if occurs_at(b, p, comment_open()) {
                let e = find_seq(b, p + 3, comment_close());
                proof {
                    lemma_find_seq(b, p + 3, comment_close());
                }
                if e >= b.len() {
                    None
                } else {
                    next_tag_spec(b, e + 3)
                }
            } else if p < b.len() && (b[p] == 0x21 || b[p] == 0x3f) {
                let g = find_byte(b, p, 0x3e);
                proof {
                    lemma_find_byte(b, p, 0x3e);
                }
                if g >= b.len() {
                    None
                } else {
                    next_tag_spec(b, g + 1)
                }
            } else if p < b.len() && b[p] == 0x2f {
                let g = find_byte(b, p + 1, 0x3e);
                if g >= b.len() {
                    None
                } else {
                    Some((true, p + 1, g))
                }
            } else {
                let g = find_byte(b, p, 0x3e);
                if g >= b.len() {
                    None
                } else {
                    Some((false, p, g))
                }
            }
        }
    }
}

/// What `next_tag_spec` finds lies inside the text, between ASCII
/// delimiters.
pub proof fn lemma_next_tag(b: Seq<u8>, pos: int)
    requires
        0 <= pos,
    ensures
        next_tag_spec(b, pos) matches Some(t) ==> {
            &&& pos < t.1 <= t.2 < b.len()
            &&& b[t.2] == 0x3e
            &&& b[t.1 - 1] == (if t.0 { 0x2fu8 } else { 0x3cu8 })
            &&& t.0 ==> b[t.1 - 2] == 0x3c
        },
    decreases b.len() + 1 - pos,
{
    if pos <= b.len() {
        let lt = find_byte(b, pos, 0x3c);
        lemma_find_byte(b, pos, 0x3c);
        if lt < b.len() {
            let p = lt + 1;
            if occurs_at(b, p, comment_open()) {
                let e = find_seq(b, p + 3, comment_close());
                lemma_find_seq(b, p + 3, comment_close());
                if e < b.len() {
                    lemma_next_tag(b, e + 3);
                }
            } else if p < b.len() && (b[p] == 0x21 || b[p] == 0x3f) {
                let g = find_byte(b, p, 0x3e);
                lemma_find_byte(b, p, 0x3e);
                if g < b.len() {
                    lemma_next_tag(b, g + 1);
                }
            } else if p < b.len() && b[p] == 0x2f {
                lemma_find_byte(b, p + 1, 0x3e);
            } else {
                lemma_find_byte(b, p, 0x3e);
            }
        }
    }
}

fn occurs_at_exec(bytes: &[u8], i: usize, pat: &[u8]) -> (r: bool)
    ensures
        r == occurs_at(bytes@, i as int, pat@),
{
    let len = bytes.len();
    let n = pat.len();
    if i > len || n > len - i {
        return false;
    }
    let mut k: usize = 0;
    while k < n
        invariant
            i + n <= len,
            len == bytes@.len(),
            n == pat@.len(),
            k <= n,
            forall|q: int| 0 <= q < k ==> bytes@[i + q] == pat@[q],
        decreases n - k,
    {
        if bytes[i + k] != pat[k] {
            assert(bytes@.subrange(i as int, i + n)[k as int] != pat@[k as int]);
            return false;
        }
        k = k + 1;
    }
    assert(bytes@.subrange(i as int, i + n) =~= pat@);
    true
}

fn find_seq_exec(bytes: &[u8], from: usize, pat: &[u8]) -> (r: usize)
    ensures
        r == find_seq(bytes@, from as int, pat@),
{
    let len = bytes.len();
    let mut i = from;
    while i < len && pat.len() <= len - i && !occurs_at_exec(bytes, i, pat)
        invariant
            len == bytes@.len(),
            from <= i,
            find_seq(bytes@, from as int, pat@) == find_seq(bytes@, i as int, pat@),
        decreases len - i,
    {
        i = i + 1;
    }
    if i < len && pat.len() <= len - i {
        i
    } else {
        len
    }
}

fn find_byte_exec(bytes: &[u8], from: usize, c: u8) -> (r: usize)
    requires
        from <= bytes@.len(),
    ensures
        r == find_byte(bytes@, from as int, c),
{
    let len = bytes.len();
    let mut i = from;
    while i < len && bytes[i] != c
        invariant
            len == bytes@.len(),
            from <= i <= len,
            find_byte(bytes@, from as int, c) == find_byte(bytes@, i as int, c),
        decreases len - i,
    {
        i = i + 1;
    }
    i
}

/// The next tag's `(closing, body start, body end)` at or after `pos`.
fn next_raw_tag(bytes: &[u8], pos: usize) -> (r: Option<(bool, usize, usize)>)
    ensures
        match r {
            None => next_tag_spec(bytes@, pos as int) is None,
            Some(t) => next_tag_spec(bytes@, pos as int) == Some((t.0, t.1 as int, t.2 as int)),
        },
{
    let ghost b = bytes@;
    let len = bytes.len();
    let mut at = pos;
    let open_pat: [u8; 3] = [0x21, 0x2d, 0x2d];
    let close_pat: [u8; 3] = [0x2d, 0x2d, 0x3e];
    assert(open_pat@ =~= comment_open());
    assert(close_pat@ =~= comment_close());
    loop
        invariant
            b == bytes@,
            len == b.len(),
            open_pat@ == comment_open(),
            close_pat@ == comment_close(),
            next_tag_spec(b, pos as int) == next_tag_spec(b, at as int),
        decreases len + 1 - at,
    {
        if at > len {
            return None;
        }
        let lt = find_byte_exec(bytes, at, 0x3c);
        proof {
            lemma_find_byte(b, at as int, 0x3c);
        }
        if lt >= len {
            return None;
        }
        let p = lt + 1;
        if occurs_at_exec(bytes, p, &open_pat) {
            let e = find_seq_exec(bytes, p + 3, &close_pat);
            proof {
                lemma_find_seq(b, p + 3, comment_close());
            }
            if e >= len {
                return None;
            }
            at = e + 3;
        } else if p < len && (bytes[p] == 0x21 || bytes[p] == 0x3f) {
            let g = find_byte_exec(bytes, p, 0x3e);
            proof {
                lemma_find_byte(b, p as int, 0x3e);
            }
            if g >= len {
                return None;
            }
            at = g + 1;
        } else if p < len && bytes[p] == 0x2f {
            let g = find_byte_exec(bytes, p + 1, 0x3e);
            if g >= len {
                return None;
            }
            return Some((true, p + 1, g));
        } else {
            let g = find_byte_exec(bytes, p, 0x3e);
            if g >= len {
                return None;
            }
            return Some((false, p, g));
        }
    }
}

/// A tag of an SVG-subset document.
#[derive(Debug, PartialEq)]
pub enum SvgTag<'a> {
    /// `<name attrs>`, or `<name attrs/>` when `self_closing`.
    Open { name: &'a str, attrs: &'a str, self_closing: bool },
    /// `</name>`.
    Close { name: &'a str },
}

/// `s` without its trailing characters from `cs` (`str::trim_end_matches`).
pub open spec fn strip_end_in(s: Seq<char>, cs: Seq<char>) -> Seq<char>
    decreases s.len(),
{
    if s.len() > 0 && cs.contains(s.last()) {
        strip_end_in(s.drop_last(), cs)
    } else {
        s
    }
}

/// `s` without its leading characters from `cs` (`str::trim_start_matches`).
pub open spec fn strip_start_in(s: Seq<char>, cs: Seq<char>) -> Seq<char>
    decreases s.len(),
{
    if s.len() > 0 && cs.contains(s[0]) {
        strip_start_in(s.drop_first(), cs)
    } else {
        s
    }
}

/// A start tag closes itself when its body ends in `/`, trailing white space
/// aside.
pub open spec fn self_closing_spec(raw: Seq<char>) -> bool {
    trim_end_spec(raw).len() > 0 && trim_end_spec(raw).last() == '/'
}

/// A start tag's body: its trailing slashes dropped, then trimmed.
pub open spec fn tag_body(raw: Seq<char>) -> Seq<char> {
    trim_spec(strip_end_in(raw, seq!['/']))
}

/// The byte offset in a tag body where its name ends: its first white-space
/// character, or its end.
pub open spec fn name_end_spec(body: Seq<char>) -> int {
    skip_forward(bytes_of(body), 0, false)
}

/// The characters of the byte range `[s, e)`.
pub open spec fn chars_in(b: Seq<u8>, s: int, e: int) -> Seq<char> {
    decode_utf8(b.subrange(s, e))
}

/// How the tag found at byte range `[s, e)` reads: a closing tag's trimmed
/// name; a start tag's name, the attribute text after it, and whether it
/// closes itself.
pub open spec fn tag_reads(tag: SvgTag, b: Seq<u8>, closing: bool, s: int, e: int) -> bool {
    let raw = chars_in(b, s, e);
    let body = tag_body(raw);
    if closing {
        tag matches SvgTag::Close { name } && name@ == trim_spec(raw)
    } else {
        &&& tag matches SvgTag::Open { name, attrs, self_closing }
        &&& name@ == chars_before(bytes_of(body), name_end_spec(body))
        &&& attrs@ == chars_after(bytes_of(body), name_end_spec(body))
        &&& self_closing == self_closing_spec(raw)
    }
}

/// No character sorts below NUL.
proof fn lemma_char_floor(c: char)
    ensures
        '\0' <= c,
{
}

/// Whether `c` is one of `cs`.
fn char_in(c: char, cs: &[char]) -> (r: bool)
    ensures
        r == cs@.contains(c),
{
    let mut i: usize = 0;
    while i < cs.len()
        invariant
            i <= cs@.len(),
            forall|q: int| 0 <= q < i ==> cs@[q] != c,
        decreases cs@.len() - i,
    {
        if cs[i] == c {
            return true;
        }
        i = i + 1;
    }
    false
}

/// `str::trim_end_matches` with a set of ASCII characters.
fn strip_end_exec<'a>(s: &'a str, cs: &[char]) -> (r: &'a str)
    requires
        forall|q: int| 0 <= q < cs@.len() ==> #[trigger] cs@[q] <= '\u{7f}',
    ensures
        r@ == strip_end_in(s@, cs@),
{
    let mut t = s;
    loop
        invariant
            strip_end_in(s@, cs@) == strip_end_in(t@, cs@),
            forall|q: int| 0 <= q < cs@.len() ==> #[trigger] cs@[q] <= '\u{7f}',
        decreases t@.len(),
    {
        match last_char(t) {
            Some(c) => {
                if !char_in(c, cs) {
                    return t;
                }
                let ghost front = t@.drop_last();
                proof {
                    let q = choose|q: int| 0 <= q < cs@.len() && cs@[q] == c;
                    assert(cs@[q] <= '\u{7f}');
                    assert(seq![c][0] == c);
                    lemma_char_floor(c);
                    assert(t@ =~= front + seq![c]);
                    crate::boundary::lemma_encode_concat(front, seq![c]);
                    assert(is_ascii_chars(seq![c]));
                    is_ascii_chars_encode_utf8(seq![c]);
                    let b = bytes_of(t@);
                    assert(b.len() == bytes_of(front).len() + 1);
                    assert(b[b.len() - 1] == c as u8);
                }
                let n = t.as_bytes().len();
                let (head, _) = split_at_boundary(t, n - 1);
                proof {
                    assert(bytes_of(t@).subrange(0, n - 1) =~= bytes_of(front));
                }
                t = head;
            },
            None => {
                return t;
            },
        }
    }
}

/// `str::trim_start_matches` with a set of ASCII characters.
fn strip_start_exec<'a>(s: &'a str, cs: &[char]) -> (r: &'a str)
    requires
        forall|q: int| 0 <= q < cs@.len() ==> #[trigger] cs@[q] <= '\u{7f}',
    ensures
        r@ == strip_start_in(s@, cs@),
{
    let mut t = s;
    loop
        invariant
            strip_start_in(s@, cs@) == strip_start_in(t@, cs@),
            forall|q: int| 0 <= q < cs@.len() ==> #[trigger] cs@[q] <= '\u{7f}',
        decreases t@.len(),
    {
        match crate::boundary::first_char(t) {
            Some(c) => {
                if !char_in(c, cs) {
                    return t;
                }
                let ghost back = t@.drop_first();
                proof {
                    let q = choose|q: int| 0 <= q < cs@.len() && cs@[q] == c;
                    assert(cs@[q] <= '\u{7f}');
                    assert(seq![c][0] == c);
                    lemma_char_floor(c);
                    assert(t@ =~= seq![c] + back);
                    crate::boundary::lemma_encode_concat(seq![c], back);
                    assert(is_ascii_chars(seq![c]));
                    is_ascii_chars_encode_utf8(seq![c]);
                    let b = bytes_of(t@);
                    assert(b.len() == bytes_of(back).len() + 1);
                    assert(b[0] == c as u8);
                    lemma_ascii_boundary(b, 0);
                }
                let (_, tail) = split_at_boundary(t, 1);
                proof {
                    assert(bytes_of(t@).subrange(1, bytes_of(t@).len() as int) =~= bytes_of(back));
                }
                t = tail;
            },
            None => {
                return t;
            },
        }
    }
}

/// The next tag of `markup` at or after byte `pos`, and the byte where
/// scanning resumes (right after the tag's `>`).
pub fn next_svg_tag<'a>(markup: &'a str, pos: usize) -> (r: Option<(SvgTag<'a>, usize)>)
    ensures
        match next_tag_spec(bytes_of(markup@), pos as int) {
            None => r is None,
            Some(t) => r matches Some(found) && found.1 == t.2 + 1 && tag_reads(
                found.0,
                bytes_of(markup@),
                t.0,
                t.1,
                t.2,
            ),
        },
        r matches Some(found) ==> pos < found.1 <= bytes_of(markup@).len(),
{
    let bytes = markup.as_bytes();
    let len = bytes.len();
    let ghost b = bytes_of(markup@);
    match next_raw_tag(bytes, pos) {
        None => None,
        Some((closing, s, e)) => {
            proof {
                lemma_next_tag(b, pos as int);
                lemma_ascii_boundary(b, s - 1);
                lemma_ascii_boundary(b, e as int);
                assert(bytes@ == b);
                assert(e < len);
            }
            let raw = slice_between(markup, s, e);
            proof {
                assert(raw@ == chars_in(b, s as int, e as int));
            }
            if closing {
                Some((SvgTag::Close { name: trim(raw) }, e + 1))
            } else {
                let self_closing = match last_char(trim_end(raw)) {
                    Some(c) => c == '/',
                    None => false,
                };
                let slash: [char; 1] = ['/'];
                assert(slash@ =~= seq!['/']);
                let body = trim(strip_end_exec(raw, &slash));
                proof {
                    lemma_zero_boundary(bytes_of(body@));
                    lemma_skip_forward(bytes_of(body@), 0, false);
                }
                let k = skip_forward_exec(body, 0, false);
                let (name, attrs) = split_at_boundary(body, k);
                Some((SvgTag::Open { name, attrs, self_closing }, e + 1))
            }
        },
    }
}

/// `</text`.
pub open spec fn text_close() -> Seq<u8> {
    seq![0x3cu8, 0x2fu8, 0x74u8, 0x65u8, 0x78u8, 0x74u8]
}

/// The text content of an element whose start tag ends right before byte
/// `pos`: everything up to the next `</text`, trimmed, and the byte where that
/// closing tag starts. Without a closing tag the content is empty and
/// scanning stays at `pos`.
pub fn svg_text_content<'a>(markup: &'a str, pos: usize) -> (r: (&'a str, usize))
    requires
        pos <= bytes_of(markup@).len(),
        is_boundary(bytes_of(markup@), pos as int),
    ensures
        ({
            let b = bytes_of(markup@);
            let e = find_seq(b, pos as int, text_close());
            if e < b.len() {
                r.0@ == trim_spec(chars_in(b, pos as int, e)) && r.1 == e
            } else {
                r.0@.len() == 0 && r.1 == pos
            }
        }),
{
    let bytes = markup.as_bytes();
    let ghost b = bytes_of(markup@);
    let pat: [u8; 6] = [0x3c, 0x2f, 0x74, 0x65, 0x78, 0x74];
    assert(pat@ =~= text_close());
    let e = find_seq_exec(bytes, pos, &pat);
    proof {
        lemma_find_seq(b, pos as int, text_close());
    }
    if e < bytes.len() {
        proof {
            lemma_ascii_boundary(b, e as int);
        }
        let content = slice_between(markup, pos, e);
        (trim(content), e)
    } else {
        proof {
            reveal_strlit("");
        }
        ("", pos)
    }
}

/// Whether two texts are the same characters.
pub fn str_eq(a: &str, b: &str) -> (r: bool)
    ensures
        r == (a@ == b@),
{
    let x = a.as_bytes();
    let y = b.as_bytes();
    let r = x.len() == y.len() && occurs_at_exec(x, 0, y);
    proof {
        assert(x@ == bytes_of(a@));
        assert(y@ == bytes_of(b@));
        if r {
            assert(x@ =~= x@.subrange(0, y@.len() as int));
            assert(decode_utf8(bytes_of(a@)) == decode_utf8(bytes_of(b@)));
        }
        if a@ == b@ {
            assert(x@.subrange(0, y@.len() as int) =~= y@);
        }
    }
    r
}

/// The index of the first attribute named `key`, searching from `i`, or
/// `attrs.len()`.
pub open spec fn attr_index(attrs: Seq<(&str, &str)>, key: Seq<char>, i: int) -> int
    decreases attrs.len() - i,
{
    if i < 0 || i >= attrs.len() {
        attrs.len() as int
    } else if attrs[i].0@ == key {
        i
    } else {
        attr_index(attrs, key, i + 1)
    }
}

proof fn lemma_attr_index(attrs: Seq<(&str, &str)>, key: Seq<char>, i: int)
    requires
        0 <= i <= attrs.len(),
    ensures
        i <= attr_index(attrs, key, i) <= attrs.len(),
        attr_index(attrs, key, i) < attrs.len() ==> attrs[attr_index(attrs, key, i)].0@ == key,
    decreases attrs.len() - i,
{
    if i < attrs.len() && attrs[i].0@ != key {
        lemma_attr_index(attrs, key, i + 1);
    }
}

/// The value of the first attribute named `key`, if any.
pub fn attr_value<'a>(attrs: &[(&'a str, &'a str)], key: &str) -> (r: Option<&'a str>)
    ensures
        ({
            let k = attr_index(attrs@, key@, 0);
            if k < attrs@.len() {
                r == Some(attrs@[k].1)
            } else {
                r is None
            }
        }),
{
    let mut i: usize = 0;
    while i < attrs.len()
        invariant
            i <= attrs@.len(),
            attr_index(attrs@, key@, 0) == attr_index(attrs@, key@, i as int),
        decreases attrs@.len() - i,
    {
        if str_eq(attrs[i].0, key) {
            return Some(attrs[i].1);
        }
        i = i + 1;
    }
    None
}

/// `fill-rule`: `evenodd` or `nonzero`; anything else is unset.
pub fn parse_fill_rule(v: &str) -> (r: Option<FillRule>)
    ensures
        r == (if v@ == "evenodd"@ {
            Some(FillRule::EvenOdd)
        } else if v@ == "nonzero"@ {
            Some(FillRule::NonZero)
        } else {
            None::<FillRule>
        }),
{
    if str_eq(v, "evenodd") {
        Some(FillRule::EvenOdd)
    } else if str_eq(v, "nonzero") {
        Some(FillRule::NonZero)
    } else {
        None
    }
}

/// `text-anchor`: `start`, `middle` or `end`; anything else is unset.
pub fn parse_text_anchor(v: &str) -> (r: Option<TextAnchor>)
    ensures
        r == (if v@ == "start"@ {
            Some(TextAnchor::Start)
        } else if v@ == "middle"@ {
            Some(TextAnchor::Middle)
        } else if v@ == "end"@ {
            Some(TextAnchor::End)
        } else {
            None::<TextAnchor>
        }),
{
    if str_eq(v, "start") {
        Some(TextAnchor::Start)
    } else if str_eq(v, "middle") {
        Some(TextAnchor::Middle)
    } else if str_eq(v, "end") {
        Some(TextAnchor::End)
    } else {
        None
    }
}

/// The index of the first gradient whose id is `id`, searching from `i`, or
/// `ids.len()`.
pub open spec fn id_index(ids: Seq<String>, id: Seq<char>, i: int) -> int
    decreases ids.len() - i,
{
    if i < 0 || i >= ids.len() {
        ids.len() as int
    } else if ids[i]@ == id {
        i
    } else {
        id_index(ids, id, i + 1)
    }
}

/// Where a `url(#id)` paint points: the first gradient defined with that id.
pub fn gradient_index(ids: &[String], id: &str) -> (r: Option<usize>)
    ensures
        ({
            let k = id_index(ids@, id@, 0);
            if k < ids@.len() {
                r == Some(k as usize)
            } else {
                r is None
            }
        }),
{
    let mut i: usize = 0;
    while i < ids.len()
        invariant
            i <= ids@.len(),
            id_index(ids@, id@, 0) == id_index(ids@, id@, i as int),
        decreases ids@.len() - i,
    {
        if str_eq(ids[i].as_str(), id) {
            return Some(i);
        }
        i = i + 1;
    }
    None
}

/// A `fill` or `stroke` paint as an element states it: a colour, or a
/// reference to a gradient defined somewhere in the document.
#[derive(Clone, Debug)]
pub enum PaintRef {
    Solid(Color),
    Url(String),
}

/// A paint once every gradient definition is known.
#[derive(Clone, Copy, Debug, PartialEq, Eq, Structural)]
pub enum ResolvedPaint {
    Solid(Color),
    Gradient(usize),
}

/// What a paint resolves to: a colour stays, a reference points at the first
/// gradient with its id, and a dangling reference paints black rather than
/// vanishing. No paint (`none`) stays none.
pub open spec fn resolved_paint_spec(r: Option<PaintRef>, ids: Seq<String>) -> Option<ResolvedPaint> {
    match r {
        None => None,
        Some(PaintRef::Solid(c)) => Some(ResolvedPaint::Solid(c)),
        Some(PaintRef::Url(id)) => {
            let k = id_index(ids, id@, 0);
            if k < ids.len() {
                Some(ResolvedPaint::Gradient(k as usize))
            } else {
                Some(ResolvedPaint::Solid(rgba_spec(0, 0, 0, 255)))
            }
        },
    }
}

/// Resolves a shape's paint against the document's gradient ids.
pub fn resolve_paint(r: &Option<PaintRef>, ids: &[String]) -> (p: Option<ResolvedPaint>)
    ensures
        p == resolved_paint_spec(*r, ids@),
{
    match r {
        None => None,
        Some(PaintRef::Solid(c)) => Some(ResolvedPaint::Solid(*c)),
        Some(PaintRef::Url(id)) => match gradient_index(ids, id.as_str()) {
            Some(k) => Some(ResolvedPaint::Gradient(k)),
            None => Some(ResolvedPaint::Solid(Color::black())),
        },
    }
}

// ---------------------------------------------------------------------------
// colours
// ---------------------------------------------------------------------------

/// The value of an ASCII hexadecimal digit, or `-1` for any other byte.
pub open spec fn hex_digit(c: u8) -> int {
    if 0x30 <= c <= 0x39 {
        c - 0x30
    } else if 0x61 <= c <= 0x66 {
        c - 0x61 + 10
    } else if 0x41 <= c <= 0x46 {
        c - 0x41 + 10
    } else {
        -1
    }
}

/// The digits `u32::from_str_radix` reads: everything after one optional
/// leading `+`.
pub open spec fn radix_digits(h: Seq<u8>) -> Seq<u8> {
    if h.len() > 0 && h[0] == 0x2b {
        h.drop_first()
    } else {
        h
    }
}

/// A non-empty run of hexadecimal digits.
pub open spec fn all_hex(d: Seq<u8>) -> bool {
    d.len() > 0 && forall|i: int| 0 <= i < d.len() ==> hex_digit(#[trigger] d[i]) >= 0
}

/// The number hexadecimal digits spell.
pub open spec fn hex_value(d: Seq<u8>) -> int
    decreases d.len(),
{
    if d.len() == 0 {
        0
    } else {
        hex_value(d.drop_last()) * 16 + hex_digit(d.last())
    }
}

pub open spec fn pow16(n: nat) -> int
    decreases n,
{
    if n == 0 {
        1
    } else {
        16 * pow16((n - 1) as nat)
    }
}

/// A 4-bit digit written twice: `#rgb` stands for `#rrggbb`.
pub open spec fn doubled(n: int) -> u8 {
    (n * 17) as u8
}

/// The colour of `#…` after the `#`: three or six bytes that
/// `u32::from_str_radix(_, 16)` reads; three digits stand for doubled ones.
pub open spec fn hex_color(h: Seq<u8>) -> Option<Color> {
    let d = radix_digits(h);
    if (h.len() == 3 || h.len() == 6) && all_hex(d) {
        let v = hex_value(d);
        if h.len() == 3 {
            Some(rgba_spec(doubled(v / 256 % 16), doubled(v / 16 % 16), doubled(v % 16), 255))
        } else {
            Some(rgba_spec((v / 65536 % 256) as u8, (v / 256 % 256) as u8, (v % 256) as u8, 255))
        }
    } else {
        None
    }
}

/// The named colours of the subset, matched ignoring ASCII case.
pub open spec fn named_color(s: Seq<char>) -> Option<Color> {
    if eq_ignore_ascii_case_spec(s, "black"@) || eq_ignore_ascii_case_spec(s, "currentcolor"@) {
        Some(rgba_spec(0x00, 0x00, 0x00, 255))
    } else if eq_ignore_ascii_case_spec(s, "white"@) {
        Some(rgba_spec(0xff, 0xff, 0xff, 255))
    } else if eq_ignore_ascii_case_spec(s, "red"@) {
        Some(rgba_spec(0xff, 0x00, 0x00, 255))
    } else if eq_ignore_ascii_case_spec(s, "green"@) {
        Some(rgba_spec(0x00, 0x80, 0x00, 255))
    } else if eq_ignore_ascii_case_spec(s, "lime"@) {
        Some(rgba_spec(0x00, 0xff, 0x00, 255))
    } else if eq_ignore_ascii_case_spec(s, "blue"@) {
        Some(rgba_spec(0x00, 0x00, 0xff, 255))
    } else if eq_ignore_ascii_case_spec(s, "yellow"@) {
        Some(rgba_spec(0xff, 0xff, 0x00, 255))
    } else if eq_ignore_ascii_case_spec(s, "orange"@) {
        Some(rgba_spec(0xff, 0xa5, 0x00, 255))
    } else if eq_ignore_ascii_case_spec(s, "purple"@) {
        Some(rgba_spec(0x80, 0x00, 0x80, 255))
    } else if eq_ignore_ascii_case_spec(s, "gray"@) || eq_ignore_ascii_case_spec(s, "grey"@) {
        Some(rgba_spec(0x80, 0x80, 0x80, 255))
    } else {
        None
    }
}

proof fn lemma_hex_value_step(d: Seq<u8>, i: int)
    requires
        0 <= i < d.len(),
    ensures
        hex_value(d.subrange(0, i + 1)) == hex_value(d.subrange(0, i)) * 16 + hex_digit(d[i]),
{
    assert(d.subrange(0, i + 1).drop_last() =~= d.subrange(0, i));
}

fn hex_digit_exec(c: u8) -> (r: Option<u32>)
    ensures
        match r {
            Some(v) => hex_digit(c) >= 0 && v == hex_digit(c) && v < 16,
            None => hex_digit(c) < 0,
        },
{
    if 0x30 <= c && c <= 0x39 {
        Some((c - 0x30) as u32)
    } else if 0x61 <= c && c <= 0x66 {
        Some((c - 0x61 + 10) as u32)
    } else if 0x41 <= c && c <= 0x46 {
        Some((c - 0x41 + 10) as u32)
    } else {
        None
    }
}

/// `#rgb` / `#rrggbb`: the colour of the bytes after the `#`.
fn hex_color_exec(h: &[u8]) -> (r: Option<Color>)
    ensures
        r == hex_color(h@),
{
    let n = h.len();
    if n != 3 && n != 6 {
        return None;
    }
    let start: usize = if h[0] == 0x2b { 1 } else { 0 };
    let ghost d = radix_digits(h@);
    assert(d =~= h@.subrange(start as int, n as int));
    if start == n {
        return None;
    }
    let mut v: u32 = 0;
    let mut i = start;
    while i < n
        invariant
            n == h@.len(),
            n <= 6,
            start <= i <= n,
            d == h@.subrange(start as int, n as int),
            d == radix_digits(h@),
            v == hex_value(d.subrange(0, i - start)),
            v < pow16((i - start) as nat),
            forall|q: int| 0 <= q < i - start ==> hex_digit(#[trigger] d[q]) >= 0,
        decreases n - i,
    {
        proof {
            reveal_with_fuel(pow16, 7);
            assert(pow16((i - start) as nat) <= 16777216);
        }
        match hex_digit_exec(h[i]) {
            None => {
                assert(d[i - start] == h@[i as int]);
                return None;
            },
            Some(x) => {
                proof {
                    lemma_hex_value_step(d, i - start);
                    assert(d[i - start] == h@[i as int]);
                }
                v = v * 16 + x;
                i = i + 1;
            },
        }
    }
    assert(d.subrange(0, d.len() as int) =~= d);
    assert(all_hex(d));
    if n == 3 {
        let r = (v / 256 % 16) as u8;
        let g = (v / 16 % 16) as u8;
        let b = (v % 16) as u8;
        Some(Color::rgb(r * 17, g * 17, b * 17))
    } else {
        Some(Color::rgb((v / 65536 % 256) as u8, (v / 256 % 256) as u8, (v % 256) as u8))
    }
}

/// The named colour `s` spells, ignoring ASCII case.
fn named_color_exec(s: &str) -> (r: Option<Color>)
    ensures
        r == named_color(s@),
{
    if eq_ignore_ascii_case(s, "black") || eq_ignore_ascii_case(s, "currentcolor") {
        Some(Color::rgb(0x00, 0x00, 0x00))
    } else if eq_ignore_ascii_case(s, "white") {
        Some(Color::rgb(0xff, 0xff, 0xff))
    } else if eq_ignore_ascii_case(s, "red") {
        Some(Color::rgb(0xff, 0x00, 0x00))
    } else if eq_ignore_ascii_case(s, "green") {
        Some(Color::rgb(0x00, 0x80, 0x00))
    } else if eq_ignore_ascii_case(s, "lime") {
        Some(Color::rgb(0x00, 0xff, 0x00))
    } else if eq_ignore_ascii_case(s, "blue") {
        Some(Color::rgb(0x00, 0x00, 0xff))
    } else if eq_ignore_ascii_case(s, "yellow") {
        Some(Color::rgb(0xff, 0xff, 0x00))
    } else if eq_ignore_ascii_case(s, "orange") {
        Some(Color::rgb(0xff, 0xa5, 0x00))
    } else if eq_ignore_ascii_case(s, "purple") {
        Some(Color::rgb(0x80, 0x00, 0x80))
    } else if eq_ignore_ascii_case(s, "gray") || eq_ignore_ascii_case(s, "grey") {
        Some(Color::rgb(0x80, 0x80, 0x80))
    } else {
        None
    }
}

/// How a colour value reads.
#[derive(Debug, PartialEq)]
pub enum ColorSyntax<'a> {
    /// Not a colour of the subset.
    Invalid,
    /// `none`.
    NoColor,
    /// `#rgb`, `#rrggbb` or a named colour.
    Solid(Color),
    /// `rgb(…)` or `rgba(…)`: the text after the opening parenthesis, whose
    /// numbers the caller reads.
    Functional(&'a str),
}

/// `rgba(`.
pub open spec fn rgba_open() -> Seq<u8> {
    seq![0x72u8, 0x67u8, 0x62u8, 0x61u8, 0x28u8]
}

/// `rgb(`.
pub open spec fn rgb_open() -> Seq<u8> {
    seq![0x72u8, 0x67u8, 0x62u8, 0x28u8]
}

/// How the value `s` reads as a colour, after trimming: `none` in any ASCII
/// case; `#` and hex digits; `rgba(` or `rgb(` and the rest; otherwise a
/// named colour.
pub open spec fn color_reads(r: ColorSyntax, s: Seq<char>) -> bool {
    let t = trim_spec(s);
    let b = bytes_of(t);
    if eq_ignore_ascii_case_spec(t, "none"@) {
        r is NoColor
    } else if b.len() > 0 && b[0] == 0x23 {
        r == match hex_color(b.drop_first()) {
            Some(c) => ColorSyntax::Solid(c),
            None => ColorSyntax::Invalid,
        }
    } else if occurs_at(b, 0, rgba_open()) {
        r matches ColorSyntax::Functional(body) && bytes_of(body@) == b.subrange(5, b.len() as int)
    } else if occurs_at(b, 0, rgb_open()) {
        r matches ColorSyntax::Functional(body) && bytes_of(body@) == b.subrange(4, b.len() as int)
    } else {
        r == match named_color(t) {
            Some(c) => ColorSyntax::Solid(c),
            None => ColorSyntax::Invalid,
        }
    }
}

/// Reads a colour value of the subset.
pub fn parse_color_syntax<'a>(s: &'a str) -> (r: ColorSyntax<'a>)
    ensures
        color_reads(r, s@),
{
    let t = trim(s);
    if eq_ignore_ascii_case(t, "none") {
        return ColorSyntax::NoColor;
    }
    let bytes = t.as_bytes();
    let ghost b = bytes_of(t@);
    proof {
        assert(bytes@ == b);
    }
    if bytes.len() > 0 && bytes[0] == 0x23 {
        proof {
            lemma_ascii_boundary(b, 0);
        }
        let (_, hex) = split_at_boundary(t, 1);
        let hex_bytes = hex.as_bytes();
        proof {
            assert(hex_bytes@ =~= b.drop_first());
        }
        return match hex_color_exec(hex_bytes) {
            Some(c) => ColorSyntax::Solid(c),
            None => ColorSyntax::Invalid,
        };
    }
    let rgba: [u8; 5] = [0x72, 0x67, 0x62, 0x61, 0x28];
    let rgb: [u8; 4] = [0x72, 0x67, 0x62, 0x28];
    assert(rgba@ =~= rgba_open());
    assert(rgb@ =~= rgb_open());
    if occurs_at_exec(bytes, 0, &rgba) {
        proof {
            assert(b[4] == b.subrange(0, 5)[4]);
            lemma_ascii_boundary(b, 4);
        }
        let (_, body) = split_at_boundary(t, 5);
        return ColorSyntax::Functional(body);
    }
    if occurs_at_exec(bytes, 0, &rgb) {
        proof {
            assert(b[3] == b.subrange(0, 4)[3]);
            lemma_ascii_boundary(b, 3);
        }
        let (_, body) = split_at_boundary(t, 4);
        return ColorSyntax::Functional(body);
    }
    match named_color_exec(t) {
        Some(c) => ColorSyntax::Solid(c),
        None => ColorSyntax::Invalid,
    }
}

/// How a paint value reads.
#[derive(Debug, PartialEq)]
pub enum PaintSyntax<'a> {
    /// `url(#id)`: the id of a gradient.
    Url(&'a str),
    /// Anything else reads as a colour.
    Color(ColorSyntax<'a>),
}

/// `url(`.
pub open spec fn url_open() -> Seq<u8> {
    seq![0x75u8, 0x72u8, 0x6cu8, 0x28u8]
}

/// The id inside `url(…)`: closing parentheses dropped, trimmed, quotes
/// dropped from both ends, then leading `#`s dropped.
pub open spec fn url_id(u: Seq<char>) -> Seq<char> {
    let quotes = seq!['\'', '"'];
    strip_start_in(
        strip_end_in(strip_start_in(trim_spec(strip_end_in(u, seq![')'])), quotes), quotes),
        seq!['#'],
    )
}

/// How the value `s` reads as a paint, after trimming: `url(` and an id, or
/// a colour.
pub open spec fn paint_reads(r: PaintSyntax, s: Seq<char>) -> bool {
    let t = trim_spec(s);
    let b = bytes_of(t);
    if occurs_at(b, 0, url_open()) {
        r matches PaintSyntax::Url(id) && id@ == url_id(chars_after(b, 4))
    } else {
        r matches PaintSyntax::Color(c) && color_reads(c, t)
    }
}

/// Reads a `fill` / `stroke` value of the subset.
pub fn parse_paint_syntax<'a>(s: &'a str) -> (r: PaintSyntax<'a>)
    ensures
        paint_reads(r, s@),
{
    let t = trim(s);
    let bytes = t.as_bytes();
    let ghost b = bytes_of(t@);
    proof {
        assert(bytes@ == b);
    }
    let url: [u8; 4] = [0x75, 0x72, 0x6c, 0x28];
    assert(url@ =~= url_open());
    if occurs_at_exec(bytes, 0, &url) {
        proof {
            assert(b[3] == b.subrange(0, 4)[3]);
            lemma_ascii_boundary(b, 3);
        }
        let (_, inner) = split_at_boundary(t, 4);
        let paren: [char; 1] = [')'];
        let quotes: [char; 2] = ['\'', '"'];
        let hash: [char; 1] = ['#'];
        assert(paren@ =~= seq![')']);
        assert(quotes@ =~= seq!['\'', '"']);
        assert(hash@ =~= seq!['#']);
        let id = trim(strip_end_exec(inner, &paren));
        let id = strip_end_exec(strip_start_exec(id, &quotes), &quotes);
        let id = strip_start_exec(id, &hash);
        return PaintSyntax::Url(id);
    }
    PaintSyntax::Color(parse_color_syntax(t))
}

/// A three-digit `#rgb` colour is the six-digit `#rrggbb` colour with each
/// digit written twice.
pub proof fn law_short_hex_doubles_each_digit(r: u8, g: u8, b: u8)
    requires
        hex_digit(r) >= 0,
        hex_digit(g) >= 0,
        hex_digit(b) >= 0,
    ensures
        hex_color(seq![r, g, b]) is Some,
        hex_color(seq![r, g, b]) == hex_color(seq![r, r, g, g, b, b]),
{
    let short = seq![r, g, b];
    let long = seq![r, r, g, g, b, b];
    assert(radix_digits(short) == short);
    assert(radix_digits(long) == long);
    assert(all_hex(short)) by {
        assert forall|i: int| 0 <= i < short.len() implies hex_digit(#[trigger] short[i]) >= 0 by {
            if i == 0 {
            } else if i == 1 {
            } else {
            }
        }
    }
    assert(all_hex(long)) by {
        assert forall|i: int| 0 <= i < long.len() implies hex_digit(#[trigger] long[i]) >= 0 by {
            if i < 2 {
            } else if i < 4 {
            } else {
            }
        }
    }
    let hr = hex_digit(r);
    let hg = hex_digit(g);
    let hb = hex_digit(b);
    assert(hr < 16 && hg < 16 && hb < 16);
    reveal_with_fuel(hex_value, 7);
    assert(short.drop_last() =~= seq![r, g]);
    assert(seq![r, g].drop_last() =~= seq![r]);
    assert(seq![r].drop_last() =~= Seq::<u8>::empty());
    let v3 = hex_value(short);
    assert(v3 == (hr * 16 + hg) * 16 + hb);
    assert(long.drop_last() =~= seq![r, r, g, g, b]);
    assert(seq![r, r, g, g, b].drop_last() =~= seq![r, r, g, g]);
    assert(seq![r, r, g, g].drop_last() =~= seq![r, r, g]);
    assert(seq![r, r, g].drop_last() =~= seq![r, r]);
    assert(seq![r, r].drop_last() =~= seq![r]);
    let v6 = hex_value(long);
    assert(v6 == ((((hr * 16 + hr) * 16 + hg) * 16 + hg) * 16 + hb) * 16 + hb);
    assert(v3 / 256 % 16 == hr && v3 / 16 % 16 == hg && v3 % 16 == hb) by (nonlinear_arith)
        requires
            v3 == (hr * 16 + hg) * 16 + hb,
            0 <= hr < 16,
            0 <= hg < 16,
            0 <= hb < 16,
    ;
    assert(v6 / 65536 % 256 == hr * 17 && v6 / 256 % 256 == hg * 17 && v6 % 256 == hb * 17)
        by (nonlinear_arith)
        requires
            v6 == ((((hr * 16 + hr) * 16 + hg) * 16 + hg) * 16 + hb) * 16 + hb,
            0 <= hr < 16,
            0 <= hg < 16,
            0 <= hb < 16,
    ;
}

/// A value that folds, ignoring ASCII case, to a lowercase ASCII word that is
/// not `none` and does not begin `rg` reads as that word's named colour.
proof fn lemma_name_reads(r: ColorSyntax, s: Seq<char>, name: Seq<char>)
    requires
        color_reads(r, s),
        eq_ignore_ascii_case_spec(trim_spec(s), name),
        name.len() >= 3,
        forall|i: int| 0 <= i < name.len() ==> 'a' <= #[trigger] name[i] <= 'z',
        name[0] != 'n',
        !(name[0] == 'r' && name[1] == 'g'),
    ensures
        r == match named_color(trim_spec(s)) {
            Some(c) => ColorSyntax::Solid(c),
            None => ColorSyntax::Invalid,
        },
{
    let t = trim_spec(s);
    let b = bytes_of(t);
    assert forall|i: int| 0 <= i < t.len() implies '\0' <= #[trigger] t[i] <= '\u{7f}' by {
        assert(ascii_fold(t[i]) == ascii_fold(name[i]));
        assert('a' <= name[i] <= 'z');
    }
    assert(is_ascii_chars(t));
    is_ascii_chars_encode_utf8(t);
    assert(ascii_fold(t[0]) == name[0]);
    assert(ascii_fold(t[1]) == name[1]);
    reveal_strlit("none");
    assert(!eq_ignore_ascii_case_spec(t, "none"@)) by {
        if t.len() == 4 {
            assert(ascii_fold(t[0]) != ascii_fold("none"@[0]));
        }
    }
    assert(b[0] == t[0] as u8);
    assert(b[1] == t[1] as u8);
    assert(b[0] != 0x23u8);
    assert(!occurs_at(b, 0, rgba_open())) by {
        if occurs_at(b, 0, rgba_open()) {
            assert(b[0] == b.subrange(0, 5)[0]);
            assert(b[1] == b.subrange(0, 5)[1]);
        }
    }
    assert(!occurs_at(b, 0, rgb_open())) by {
        if occurs_at(b, 0, rgb_open()) {
            assert(b[0] == b.subrange(0, 4)[0]);
            assert(b[1] == b.subrange(0, 4)[1]);
        }
    }
}

/// The named colours of the subset read, in any ASCII letter case and with
/// surrounding white space, as their fixed colours.
pub proof fn law_named_colours_read_in_any_case(r: ColorSyntax, s: Seq<char>)
    requires
        color_reads(r, s),
    ensures
        ({
            let t = trim_spec(s);
            &&& eq_ignore_ascii_case_spec(t, "black"@) ==> r == ColorSyntax::Solid(rgba_spec(0, 0, 0, 255))
            &&& eq_ignore_ascii_case_spec(t, "currentcolor"@) ==> r == ColorSyntax::Solid(rgba_spec(0, 0, 0, 255))
            &&& eq_ignore_ascii_case_spec(t, "white"@) ==> r == ColorSyntax::Solid(rgba_spec(255, 255, 255, 255))
            &&& eq_ignore_ascii_case_spec(t, "red"@) ==> r == ColorSyntax::Solid(rgba_spec(255, 0, 0, 255))
            &&& eq_ignore_ascii_case_spec(t, "green"@) ==> r == ColorSyntax::Solid(rgba_spec(0, 128, 0, 255))
            &&& eq_ignore_ascii_case_spec(t, "lime"@) ==> r == ColorSyntax::Solid(rgba_spec(0, 255, 0, 255))
            &&& eq_ignore_ascii_case_spec(t, "blue"@) ==> r == ColorSyntax::Solid(rgba_spec(0, 0, 255, 255))
            &&& eq_ignore_ascii_case_spec(t, "yellow"@) ==> r == ColorSyntax::Solid(rgba_spec(255, 255, 0, 255))
            &&& eq_ignore_ascii_case_spec(t, "orange"@) ==> r == ColorSyntax::Solid(rgba_spec(255, 165, 0, 255))
            &&& eq_ignore_ascii_case_spec(t, "purple"@) ==> r == ColorSyntax::Solid(rgba_spec(128, 0, 128, 255))
            &&& eq_ignore_ascii_case_spec(t, "gray"@) ==> r == ColorSyntax::Solid(rgba_spec(128, 128, 128, 255))
            &&& eq_ignore_ascii_case_spec(t, "grey"@) ==> r == ColorSyntax::Solid(rgba_spec(128, 128, 128, 255))
        }),
{
    let t = trim_spec(s);
    reveal_strlit("black");
    reveal_strlit("currentcolor");
    reveal_strlit("white");
    reveal_strlit("red");
    reveal_strlit("green");
    reveal_strlit("lime");
    reveal_strlit("blue");
    reveal_strlit("yellow");
    reveal_strlit("orange");
    reveal_strlit("purple");
    reveal_strlit("gray");
    reveal_strlit("grey");
    if eq_ignore_ascii_case_spec(t, "black"@) {
        lemma_name_reads(r, s, "black"@);
    }
    if eq_ignore_ascii_case_spec(t, "currentcolor"@) {
        lemma_name_reads(r, s, "currentcolor"@);
    }
    if eq_ignore_ascii_case_spec(t, "white"@) {
        lemma_name_reads(r, s, "white"@);
        assert(ascii_fold(t[0]) == 'w');
    }
    if eq_ignore_ascii_case_spec(t, "red"@) {
        lemma_name_reads(r, s, "red"@);
        assert(ascii_fold(t[0]) == 'r');
    }
    if eq_ignore_ascii_case_spec(t, "green"@) {
        lemma_name_reads(r, s, "green"@);
        assert(ascii_fold(t[0]) == 'g');
    }
    if eq_ignore_ascii_case_spec(t, "lime"@) {
        lemma_name_reads(r, s, "lime"@);
        assert(ascii_fold(t[0]) == 'l');
    }
    if eq_ignore_ascii_case_spec(t, "blue"@) {
        lemma_name_reads(r, s, "blue"@);
        assert(ascii_fold(t[1]) == 'l');
    }
    if eq_ignore_ascii_case_spec(t, "yellow"@) {
        lemma_name_reads(r, s, "yellow"@);
        assert(ascii_fold(t[0]) == 'y');
    }
    if eq_ignore_ascii_case_spec(t, "orange"@) {
        lemma_name_reads(r, s, "orange"@);
        assert(ascii_fold(t[0]) == 'o');
    }
    if eq_ignore_ascii_case_spec(t, "purple"@) {
        lemma_name_reads(r, s, "purple"@);
        assert(ascii_fold(t[0]) == 'p');
    }
    if eq_ignore_ascii_case_spec(t, "gray"@) {
        lemma_name_reads(r, s, "gray"@);
        assert(ascii_fold(t[0]) == 'g');
        assert(ascii_fold(t[2]) == 'a');
    }
    if eq_ignore_ascii_case_spec(t, "grey"@) {
        lemma_name_reads(r, s, "grey"@);
        assert(ascii_fold(t[0]) == 'g');
        assert(ascii_fold(t[2]) == 'e');
    }
}

} // verus!
