//! The vector-image widget's builder state, the stable cache identity icon
//! libraries give it, and the cache-occupancy snapshot.

use vstd::prelude::*;

use crate::boundary::{bytes_of, is_boundary, lemma_next_after_ascii};
use crate::color::{rgba_spec, Color};
use crate::selection::slice_between;
use crate::semantics::{Role, WidgetKind};

verus! {

broadcast use vstd::utf8::group_utf8_lib;

// ---------------------------------------------------------------------------
// tag attributes
// ---------------------------------------------------------------------------

/// ASCII white space as `u8::is_ascii_whitespace` defines it.
pub open spec fn ascii_ws(c: u8) -> bool {
    c == 0x20 || c == 0x09 || c == 0x0a || c == 0x0c || c == 0x0d
}

/// The first index at or after `i` that is not white space (or the end).
pub open spec fn skip_ws(b: Seq<u8>, i: int) -> int
    decreases b.len() - i,
{
    if i < b.len() && ascii_ws(b[i]) {
        skip_ws(b, i + 1)
    } else {
        i
    }
}

/// The end of an attribute name starting at `i`: the first white space or
/// `=` (or the end).
pub open spec fn name_end(b: Seq<u8>, i: int) -> int
    decreases b.len() - i,
{
    if i < b.len() && !ascii_ws(b[i]) && b[i] != 0x3d {
        name_end(b, i + 1)
    } else {
        i
    }
}

/// The first `q` at or after `i` (or the end).
pub open spec fn find_byte(b: Seq<u8>, i: int, q: u8) -> int
    decreases b.len() - i,
{
    if i < b.len() && b[i] != q {
        find_byte(b, i + 1, q)
    } else {
        i
    }
}

/// The `name="value"` (or single-quoted) pairs of a tag body from byte `i`,
/// as `(name start, name end, value start, value end)`. A name without `=`
/// or without a quoted value is skipped; an unterminated value runs to the
/// end; scanning stops where no name starts.
pub open spec fn attrs_from(b: Seq<u8>, i: int) -> Seq<(int, int, int, int)>
    decreases b.len() + 1 - i,
{
    if i < 0 || i >= b.len() {
        Seq::empty()
    } else {
        let s = skip_ws(b, i);
        let ne = name_end(b, s);
        proof {
            lemma_skip_ws(b, i);
            lemma_name_end(b, s);
        }
        if ne == s {
            Seq::empty()
        } else {
            let j = skip_ws(b, ne);
            proof {
                lemma_skip_ws(b, ne);
            }
            if j >= b.len() || b[j] != 0x3d {
                attrs_from(b, j)
            } else {
                let k = skip_ws(b, j + 1);
                proof {
                    lemma_skip_ws(b, j + 1);
                }
                if k >= b.len() || (b[k] != 0x22 && b[k] != 0x27) {
                    attrs_from(b, k)
                } else {
                    let ve = find_byte(b, k + 1, b[k]);
                    proof {
                        lemma_find_byte(b, k + 1, b[k]);
                    }
                    seq![(s, ne, k + 1, ve)] + attrs_from(b, ve + 1)
                }
            }
        }
    }
}

pub proof fn lemma_skip_ws(b: Seq<u8>, i: int)
    requires
        0 <= i <= b.len(),
    ensures
        i <= skip_ws(b, i) <= b.len(),
        skip_ws(b, i) < b.len() ==> !ascii_ws(b[skip_ws(b, i)]),
        forall|k: int| i <= k < skip_ws(b, i) ==> ascii_ws(b[k]),
    decreases b.len() - i,
{
    if i < b.len() && ascii_ws(b[i]) {
        lemma_skip_ws(b, i + 1);
    }
}

pub proof fn lemma_name_end(b: Seq<u8>, i: int)
    requires
        0 <= i <= b.len(),
    ensures
        i <= name_end(b, i) <= b.len(),
        name_end(b, i) < b.len() ==> (ascii_ws(b[name_end(b, i)]) || b[name_end(b, i)] == 0x3d),
    decreases b.len() - i,
{
    if i < b.len() && !ascii_ws(b[i]) && b[i] != 0x3d {
        lemma_name_end(b, i + 1);
    }
}

pub proof fn lemma_find_byte(b: Seq<u8>, i: int, q: u8)
    requires
        0 <= i <= b.len(),
    ensures
        i <= find_byte(b, i, q) <= b.len(),
        find_byte(b, i, q) < b.len() ==> b[find_byte(b, i, q)] == q,
    decreases b.len() - i,
{
    if i < b.len() && b[i] != q {
        lemma_find_byte(b, i + 1, q);
    }
}

/// A position holding, or right after, an ASCII byte is a boundary.
pub proof fn lemma_ascii_boundary(b: Seq<u8>, k: int)
    requires
        vstd::utf8::valid_utf8(b),
        0 <= k < b.len(),
        b[k] < 0x80,
    ensures
        is_boundary(b, k),
        is_boundary(b, k + 1),
{
    if k + 1 < b.len() {
        lemma_next_after_ascii(b, k);
    }
}

/// Skipping white space from a boundary lands on a boundary.
proof fn lemma_skip_ws_boundary(b: Seq<u8>, i: int)
    requires
        vstd::utf8::valid_utf8(b),
        0 <= i <= b.len(),
        is_boundary(b, i),
    ensures
        is_boundary(b, skip_ws(b, i)),
{
    lemma_skip_ws(b, i);
    let j = skip_ws(b, i);
    if j > i {
        lemma_ascii_boundary(b, j - 1);
    }
}

fn is_ascii_ws(c: u8) -> (r: bool)
    ensures
        r == ascii_ws(c),
{
    c == 0x20 || c == 0x09 || c == 0x0a || c == 0x0c || c == 0x0d
}

fn skip_ws_exec(bytes: &[u8], i: usize) -> (r: usize)
    requires
        i <= bytes@.len(),
    ensures
        r == skip_ws(bytes@, i as int),
{
    let mut j = i;
    while j < bytes.len() && is_ascii_ws(bytes[j])
        invariant
            i <= j <= bytes@.len(),
            skip_ws(bytes@, i as int) == skip_ws(bytes@, j as int),
        decreases bytes@.len() - j,
    {
        j = j + 1;
    }
    j
}

/// `name="value"` (or single-quoted) attribute pairs out of a tag body, in
/// order (see `attrs_from`).
pub fn parse_attrs(s: &str) -> (r: Vec<(&str, &str)>)
    ensures
        r@.len() == attrs_from(bytes_of(s@), 0).len(),
        forall|k: int|
            0 <= k < r@.len() ==> {
                let a = #[trigger] attrs_from(bytes_of(s@), 0)[k];
                &&& bytes_of(r@[k].0@) == bytes_of(s@).subrange(a.0, a.1)
                &&& bytes_of(r@[k].1@) == bytes_of(s@).subrange(a.2, a.3)
            },
{
    let bytes = s.as_bytes();
    let ghost b = bytes_of(s@);
    let len = bytes.len();
    proof {
        vstd::utf8::encode_utf8_valid_utf8(s@);
        crate::selection::lemma_zero_boundary(b);
    }
    let mut out: Vec<(&str, &str)> = Vec::new();
    let mut i: usize = 0;
    while i < len
        invariant
            b == bytes_of(s@),
            bytes@ == b,
            len == b.len(),
            vstd::utf8::valid_utf8(b),
            i <= len,
            is_boundary(b, i as int),
            out@.len() + attrs_from(b, i as int).len() == attrs_from(b, 0).len(),
            forall|k: int|
                0 <= k < out@.len() ==> {
                    let a = #[trigger] attrs_from(b, 0)[k];
                    &&& bytes_of(out@[k].0@) == b.subrange(a.0, a.1)
                    &&& bytes_of(out@[k].1@) == b.subrange(a.2, a.3)
                },
            forall|k: int|
                0 <= k < attrs_from(b, i as int).len() ==> attrs_from(b, 0)[out@.len() + k]
                    == #[trigger] attrs_from(b, i as int)[k],
        ensures
            out@.len() == attrs_from(b, 0).len(),
            forall|k: int|
                0 <= k < out@.len() ==> {
                    let a = #[trigger] attrs_from(b, 0)[k];
                    &&& bytes_of(out@[k].0@) == b.subrange(a.0, a.1)
                    &&& bytes_of(out@[k].1@) == b.subrange(a.2, a.3)
                },
        decreases len - i,
    {
        let ghost gi = i as int;
        let name_start = skip_ws_exec(bytes, i);
        proof {
            lemma_skip_ws(b, gi);
            lemma_skip_ws_boundary(b, gi);
        }
        let mut ne = name_start;
        while ne < len && !is_ascii_ws(bytes[ne]) && bytes[ne] != 0x3d
            invariant
                bytes@ == b,
                len == b.len(),
                name_start <= ne <= len,
                name_end(b, name_start as int) == name_end(b, ne as int),
            decreases len - ne,
        {
            ne = ne + 1;
        }
        proof {
            lemma_name_end(b, name_start as int);
        }
        if ne == name_start {
            proof {
                assert(attrs_from(b, gi) =~= Seq::empty());
            }
            break;
        }
        proof {
            if ne < len {
                lemma_ascii_boundary(b, ne as int);
            }
        }
        let j = skip_ws_exec(bytes, ne);
        proof {
            lemma_skip_ws(b, ne as int);
            lemma_skip_ws_boundary(b, ne as int);
        }
        if j >= len || bytes[j] != 0x3d {
            i = j;
            continue;
        }
        proof {
            lemma_ascii_boundary(b, j as int);
        }
        let k = skip_ws_exec(bytes, j + 1);
        proof {
            lemma_skip_ws(b, j + 1);
            lemma_skip_ws_boundary(b, j + 1);
        }
        if k >= len || (bytes[k] != 0x22 && bytes[k] != 0x27) {
            i = k;
            continue;
        }
        let quote = bytes[k];
        proof {
            lemma_ascii_boundary(b, k as int);
        }
        let vs = k + 1;
        let mut ve = vs;
        while ve < len && bytes[ve] != quote
            invariant
                bytes@ == b,
                len == b.len(),
                vs <= ve <= len,
                find_byte(b, vs as int, quote) == find_byte(b, ve as int, quote),
            decreases len - ve,
        {
            ve = ve + 1;
        }
        proof {
            lemma_find_byte(b, vs as int, quote);
            if ve < len {
                lemma_ascii_boundary(b, ve as int);
            }
        }
        let name = slice_between(s, name_start, ne);
        let value = slice_between(s, vs, ve);
        let ghost before = out@;
        let ghost rest = attrs_from(b, gi);
        out.push((name, value));
        proof {
            let a = (name_start as int, ne as int, vs as int, ve as int);
            assert(rest == seq![a] + attrs_from(b, ve + 1));
            assert(attrs_from(b, 0)[before.len() as int] == rest[0]);
            assert forall|q: int| 0 <= q < out@.len() implies {
                let a = #[trigger] attrs_from(b, 0)[q];
                &&& bytes_of(out@[q].0@) == b.subrange(a.0, a.1)
                &&& bytes_of(out@[q].1@) == b.subrange(a.2, a.3)
            } by {
                if q < before.len() {
                    assert(out@[q] == before[q]);
                }
            }
            assert forall|q: int| 0 <= q < attrs_from(b, ve + 1).len() implies attrs_from(b, 0)[out@.len() + q]
                == #[trigger] attrs_from(b, ve + 1)[q] by {
                assert(rest[q + 1] == attrs_from(b, ve + 1)[q]);
            }
        }
        if ve >= len {
            proof {
                assert(attrs_from(b, ve + 1) =~= Seq::empty());
            }
            i = len;
        } else {
            i = ve + 1;
        }
    }
    proof {
        if i >= len {
            assert(attrs_from(b, i as int) =~= Seq::empty());
        }
    }
    out
}

/// Stable library identity shared by the parsed-SVG, raster and atlas caches:
/// one key per icon and visual variant.
#[derive(Clone, Debug, PartialEq, Eq, Hash)]
pub struct SvgCacheKey {
    pub library: String,
    pub name: String,
    pub variant: String,
}

impl SvgCacheKey {
    pub fn new(library: &str, name: &str, variant: &str) -> (k: Self)
        ensures
            k.library@ == library@,
            k.name@ == name@,
            k.variant@ == variant@,
    {
        SvgCacheKey {
            library: library.to_owned(),
            name: name.to_owned(),
            variant: variant.to_owned(),
        }
    }
}

/// Icon/SVG cache occupancy, for diagnostics and tests.
#[derive(Clone, Copy, Debug, Default, PartialEq, Eq, Structural)]
pub struct SvgCacheStats {
    pub parsed_documents: usize,
    pub rasterized_images: usize,
}

/// The occupancy snapshot from the two caches' entry counts; a cache whose
/// lock cannot be taken (`None`) counts as empty.
pub fn svg_cache_stats(parsed: Option<usize>, rasterized: Option<usize>) -> (s: SvgCacheStats)
    ensures
        s.parsed_documents == (match parsed {
            Some(n) => n,
            None => 0,
        }),
        s.rasterized_images == (match rasterized {
            Some(n) => n,
            None => 0,
        }),
{
    SvgCacheStats {
        parsed_documents: match parsed {
            Some(n) => n,
            None => 0,
        },
        rasterized_images: match rasterized {
            Some(n) => n,
            None => 0,
        },
    }
}

/// The fill rule (SVG default: nonzero).
#[derive(Clone, Copy, Debug, Default, PartialEq, Eq, Structural)]
pub enum FillRule {
    #[default]
    NonZero,
    EvenOdd,
}

/// The text anchor (horizontal alignment about `x`).
#[derive(Clone, Copy, Debug, Default, PartialEq, Eq, Structural)]
pub enum TextAnchor {
    #[default]
    Start,
    Middle,
    End,
}

/// A vector-image leaf: SVG-subset markup, its accessible name, cache
/// identity and draw-time colouring.
pub struct Svg {
    pub markup: String,
    pub alt: Option<String>,
    pub cache_key: Option<SvgCacheKey>,
    /// Multiplies sampled pixels at draw time.
    pub tint: Color,
    /// Rasterize as a white alpha mask for draw-time recolouring.
    pub mask: bool,
    /// The tint follows the subtree theme's text colour.
    pub theme_tint: bool,
}

impl Svg {
    /// A vector image from SVG-subset markup, untinted.
    pub fn new(markup: &str) -> (s: Svg)
        ensures
            s.markup@ == markup@,
            s.alt is None,
            s.cache_key is None,
            s.tint == rgba_spec(255, 255, 255, 255),
            !s.mask,
            !s.theme_tint,
    {
        Svg {
            markup: markup.to_owned(),
            alt: None,
            cache_key: None,
            tint: Color::white(),
            mask: false,
            theme_tint: false,
        }
    }

    /// Enables the reusable parsed-document, raster and atlas caches.
    pub fn cache(self, key: SvgCacheKey) -> (s: Svg)
        ensures
            s.markup@ == self.markup@,
            s.alt == self.alt,
            s.cache_key == Some(key),
            s.tint == self.tint,
            s.mask == self.mask,
            s.theme_tint == self.theme_tint,
    {
        let mut s = self;
        s.cache_key = Some(key);
        s
    }

    /// Multiplies sampled pixels by a fixed colour (dropping theme tinting).
    pub fn tint(self, tint: Color) -> (s: Svg)
        ensures
            s.markup@ == self.markup@,
            s.alt == self.alt,
            s.cache_key == self.cache_key,
            s.tint == tint,
            s.mask == self.mask,
            !s.theme_tint,
    {
        let mut s = self;
        s.tint = tint;
        s.theme_tint = false;
        s
    }

    /// A monochrome icon whose colour follows the theme's text colour.
    pub fn themed(self) -> (s: Svg)
        ensures
            s.markup@ == self.markup@,
            s.alt == self.alt,
            s.cache_key == self.cache_key,
            s.tint == self.tint,
            s.mask,
            s.theme_tint,
    {
        let mut s = self;
        s.mask = true;
        s.theme_tint = true;
        s
    }

    /// Rasterizes as a white alpha mask for draw-time recolouring.
    pub fn mask(self) -> (s: Svg)
        ensures
            s.markup@ == self.markup@,
            s.alt == self.alt,
            s.cache_key == self.cache_key,
            s.tint == self.tint,
            s.mask,
            s.theme_tint == self.theme_tint,
    {
        let mut s = self;
        s.mask = true;
        s
    }

    /// Sets the hover text and accessible name.
    pub fn alt(self, alt: &str) -> (s: Svg)
        ensures
            s.markup@ == self.markup@,
            s.alt matches Some(a) && a@ == alt@,
            s.cache_key == self.cache_key,
            s.tint == self.tint,
            s.mask == self.mask,
            s.theme_tint == self.theme_tint,
    {
        let mut s = self;
        s.alt = Some(alt.to_owned());
        s
    }

    pub fn role(&self) -> (r: Role)
        ensures
            r == Role::Image,
    {
        Role::Image
    }

    pub fn kind(&self) -> (k: WidgetKind)
        ensures
            k == WidgetKind::Image,
    {
        WidgetKind::Image
    }
}

/// An RGBA8 buffer turned into a white alpha mask: every complete pixel's
/// colour bytes become `0xff` and its alpha stays (a trailing partial pixel
/// is left alone).
pub open spec fn alpha_mask_spec(old: Seq<u8>) -> Seq<u8> {
    Seq::new(
        old.len(),
        |i: int| if i < old.len() / 4 * 4 && i % 4 != 3 {
            0xffu8
        } else {
            old[i]
        },
    )
}

/// Rewrites rasterized pixels as a white alpha mask for draw-time
/// recolouring, keeping each pixel's coverage in its alpha.
pub fn make_alpha_mask(pixels: &mut [u8])
    ensures
        final(pixels)@ == alpha_mask_spec(old(pixels)@),
{
    let len = pixels.len();
    let n = len / 4;
    let mut p: usize = 0;
    while p < n
        invariant
            len == old(pixels)@.len(),
            n == len / 4,
            pixels@.len() == old(pixels)@.len(),
            p <= n,
            forall|i: int| 0 <= i < p * 4 ==> #[trigger] pixels@[i] == alpha_mask_spec(old(pixels)@)[i],
            forall|i: int| p * 4 <= i < pixels@.len() ==> #[trigger] pixels@[i] == old(pixels)@[i],
        decreases n - p,
    {
        assert(p * 4 + 3 < len) by (nonlinear_arith)
            requires
                p < n,
                n == len / 4,
        ;
        let base = p * 4;
        pixels[base] = 0xff;
        pixels[base + 1] = 0xff;
        pixels[base + 2] = 0xff;
        p = p + 1;
        assert forall|i: int| 0 <= i < p * 4 implies #[trigger] pixels@[i] == alpha_mask_spec(old(pixels)@)[i] by {
            if i >= base {
                assert(i - base < 4);
                assert(i % 4 == i - base);
            }
        }
    }
    assert(pixels@ =~= alpha_mask_spec(old(pixels)@));
}

// ---------------------------------------------------------------------------
// off-thread rasterization bookkeeping
// ---------------------------------------------------------------------------

/// The bookkeeping of off-thread rasterization: the mount generation every
/// job is stamped with, and how many jobs are in flight.
#[derive(Clone, Copy, Debug, PartialEq, Eq, Structural)]
pub struct SvgRasterBook {
    pub generation: u64,
    pub pending: usize,
}

impl SvgRasterBook {
    /// No job in flight, generation zero.
    pub fn new() -> (b: Self)
        ensures
            b == (SvgRasterBook { generation: 0, pending: 0 }),
    {
        SvgRasterBook { generation: 0, pending: 0 }
    }

    /// Records one submitted job; returns the generation to stamp on it.
    pub fn submit(&mut self) -> (stamp: u64)
        requires
            old(self).pending < usize::MAX,
        ensures
            stamp == old(self).generation,
            *final(self) == (SvgRasterBook { pending: (old(self).pending + 1) as usize, ..*old(self) }),
    {
        self.pending = self.pending + 1;
        self.generation
    }

    /// A remount: every job still in flight becomes stale.
    pub fn remount(&mut self)
        ensures
            final(self).generation == (if old(self).generation == u64::MAX {
                0
            } else {
                old(self).generation + 1
            }),
            final(self).pending == old(self).pending,
    {
        self.generation = if self.generation == u64::MAX {
            0
        } else {
            self.generation + 1
        };
    }
}

/// A finished job as it comes back: its stamp and whether its widget still
/// exists.
#[derive(Clone, Copy, Debug, PartialEq, Eq, Structural)]
pub struct SvgFinished {
    pub generation: u64,
    pub widget_alive: bool,
}

/// Jobs still in flight.
pub fn pending_svg_rasters(book: &SvgRasterBook) -> (n: usize)
    ensures
        n == book.pending,
{
    book.pending
}

/// Accounts for finished jobs in arrival order: each leaves the in-flight
/// count (which never drops below zero) and may land only when it carries
/// the current generation and its widget still exists. While nothing is in
/// flight nothing is accounted and nothing lands.
pub fn drain_svg_rasters(book: &mut SvgRasterBook, finished: &[SvgFinished]) -> (land: Vec<bool>)
    ensures
        land@.len() == finished@.len(),
        final(book).generation == old(book).generation,
        old(book).pending == 0 ==> *final(book) == *old(book) && forall|k: int|
            0 <= k < land@.len() ==> !#[trigger] land@[k],
        old(book).pending > 0 ==> {
            &&& final(book).pending == (if old(book).pending >= finished@.len() {
                old(book).pending - finished@.len()
            } else {
                0
            })
            &&& forall|k: int|
                0 <= k < land@.len() ==> #[trigger] land@[k] == (finished@[k].generation
                    == old(book).generation && finished@[k].widget_alive)
        },
{
    let mut land: Vec<bool> = Vec::new();
    let active = book.pending > 0;
    let mut k: usize = 0;
    while k < finished.len()
        invariant
            k <= finished@.len(),
            land@.len() == k,
            book.generation == old(book).generation,
            !active ==> *book == *old(book),
            active ==> book.pending == (if old(book).pending >= k {
                old(book).pending - k
            } else {
                0
            }),
            active == (old(book).pending > 0),
            forall|q: int|
                0 <= q < k ==> #[trigger] land@[q] == (active && finished@[q].generation
                    == old(book).generation && finished@[q].widget_alive),
        decreases finished@.len() - k,
    {
        let f = finished[k];
        if active {
            if book.pending > 0 {
                book.pending = book.pending - 1;
            }
            land.push(f.generation == book.generation && f.widget_alive);
        } else {
            land.push(false);
        }
        k = k + 1;
    }
    land
}

} // verus!
