//! What a text input shows: its value, or for a password one bullet per
//! user-perceived character, and the byte mapping between the two.

use vstd::prelude::*;
use vstd::utf8::*;

use crate::boundary::{bytes_of, chars_before, is_boundary, split_at_boundary};
use crate::segment::{grapheme_clusters, grapheme_segments, lemma_tiles_count, tiles};

verus! {

broadcast use vstd::utf8::group_utf8_lib;

/// The glyph standing for one user-perceived character of a protected value.
pub const PASSWORD_GLYPH: &'static str = "\u{2022}";

/// Bytes of one `PASSWORD_GLYPH` in UTF-8.
pub const PASSWORD_GLYPH_LEN: usize = 3;

/// One bullet per extended grapheme cluster of `v`.
pub open spec fn obscured_spec(v: Seq<char>) -> Seq<char> {
    Seq::new(grapheme_segments(v).len(), |i: int| '\u{2022}')
}

/// The text paint and accessibility surfaces may show for a value.
pub open spec fn display_spec(v: Seq<char>, password: bool) -> Seq<char> {
    if password {
        obscured_spec(v)
    } else {
        v
    }
}

/// The only representation of a protected value allowed to reach paint or
/// accessibility surfaces: one bullet per user-perceived character.
pub fn obscured_value(value: &str) -> (r: String)
    ensures
        r@ == obscured_spec(value@),
{
    let segs = grapheme_clusters(value);
    let mut out = String::new();
    let glyph = "\u{2022}";
    proof {
        reveal_strlit("\u{2022}");
    }
    let mut k: usize = 0;
    while k < segs.len()
        invariant
            k <= segs@.len(),
            glyph@ == seq!['\u{2022}'],
            out@ == Seq::new(k as nat, |i: int| '\u{2022}'),
        decreases segs@.len() - k,
    {
        out.append(glyph);
        k = k + 1;
        assert(out@ =~= Seq::new(k as nat, |i: int| '\u{2022}'));
    }
    out
}

/// The value itself, or its obscured form for a password input.
pub fn display_value(value: &str, password: bool) -> (r: String)
    ensures
        r@ == display_spec(value@, password),
{
    if password {
        obscured_value(value)
    } else {
        value.to_owned()
    }
}

/// The display byte offset of the value byte `byte`: unchanged in plain text;
/// for a password, one glyph per grapheme cluster before `byte`.
pub open spec fn display_byte_spec(v: Seq<char>, byte: int, password: bool) -> int {
    if password {
        PASSWORD_GLYPH_LEN * grapheme_segments(chars_before(bytes_of(v), byte)).len()
    } else {
        byte
    }
}

/// Maps a value byte index (a caret or selection end) into the displayed text.
pub fn display_byte_for_value_byte(value: &str, byte: usize, password: bool) -> (r: usize)
    requires
        password ==> is_boundary(bytes_of(value@), byte as int),
        password ==> byte * PASSWORD_GLYPH_LEN <= usize::MAX,
    ensures
        r == display_byte_spec(value@, byte as int, password),
{
    if !password {
        return byte;
    }
    let (prefix, _) = split_at_boundary(value, byte);
    let segs = grapheme_clusters(prefix);
    proof {
        if segs@.len() > 0 {
            lemma_tiles_count(bytes_of(prefix@), segs@, segs@.len() - 1);
        }
    }
    segs.len() * PASSWORD_GLYPH_LEN
}

/// The value byte index of the display byte `byte`: unchanged in plain text;
/// for a password, the start of the grapheme cluster whose glyph holds `byte`
/// (the end of the value past the last glyph).
pub open spec fn value_byte_spec(v: Seq<char>, byte: int, password: bool) -> int {
    if password {
        let segs = grapheme_segments(v);
        let g = byte / (PASSWORD_GLYPH_LEN as int);
        if g < segs.len() {
            segs[g].0 as int
        } else {
            bytes_of(v).len() as int
        }
    } else {
        byte
    }
}

/// Maps a byte index of the displayed text back into the value.
pub fn value_byte_for_display_byte(value: &str, byte: usize, password: bool) -> (r: usize)
    ensures
        r == value_byte_spec(value@, byte as int, password),
        password ==> is_boundary(bytes_of(value@), r as int),
{
    if !password {
        return byte;
    }
    let grapheme = byte / PASSWORD_GLYPH_LEN;
    let segs = grapheme_clusters(value);
    if grapheme < segs.len() {
        let start = segs[grapheme].0;
        proof {
            assert(tiles(bytes_of(value@), segs@));
            assert(segs@[grapheme as int].1 > 0);
            assert(is_boundary(bytes_of(value@), segs@[grapheme as int].0 as int));
        }
        start
    } else {
        let len = value.as_bytes().len();
        assert(is_boundary(bytes_of(value@), len as int));
        len
    }
}

} // verus!
