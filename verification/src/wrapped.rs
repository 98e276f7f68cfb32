//! Where a caret sits in soft-wrapped text: which visual line holds a byte
//! offset, and which of that line's glyphs lie in front of it. The caller
//! adds up those glyphs' advances.

use vstd::prelude::*;

verus! {

/// A visual line of shaped text: its run of glyphs.
#[derive(Clone, Copy, Debug, PartialEq, Eq, Structural)]
pub struct VisualLine {
    pub glyph_start: u32,
    pub glyph_count: u32,
}

/// A caret's place in wrapped text: the visual line, whether its x starts at
/// the line's alignment offset (otherwise it is exactly zero), and the glyph
/// range whose advances lie in front of it.
#[derive(Clone, Copy, Debug, PartialEq, Eq, Structural)]
pub struct CaretPlacement {
    pub line: usize,
    pub line_offset: bool,
    pub glyphs_from: usize,
    pub glyphs_to: usize,
}

/// Every line's glyph run starts inside (or right at the end of) the glyphs
/// and its end fits in `usize`.
pub open spec fn lines_fit(lines: Seq<VisualLine>, n: int) -> bool {
    forall|i: int|
        0 <= i < lines.len() ==> {
            &&& #[trigger] lines[i].glyph_start <= n
            &&& lines[i].glyph_start + lines[i].glyph_count <= usize::MAX
        }
}

/// The end of a line's glyph run, clipped to the glyphs.
pub open spec fn run_end(l: VisualLine, n: int) -> int {
    if l.glyph_start + l.glyph_count <= n {
        l.glyph_start + l.glyph_count
    } else {
        n
    }
}

/// The cluster where the first non-empty line from `j` on starts, or
/// `source_len` when none does.
pub open spec fn next_line_cluster(lines: Seq<VisualLine>, clusters: Seq<u32>, j: int, source_len: int) -> int
    decreases lines.len() - j,
{
    if j < 0 || j >= lines.len() {
        source_len
    } else if lines[j].glyph_start < clusters.len() {
        clusters[lines[j].glyph_start as int] as int
    } else {
        next_line_cluster(lines, clusters, j + 1, source_len)
    }
}

/// The first glyph in `[from, to)` whose cluster is not before `rel`, or `to`.
pub open spec fn first_not_before(clusters: Seq<u32>, from: int, to: int, rel: int) -> int
    decreases to - from,
{
    if from >= to {
        to
    } else if clusters[from] >= rel {
        from
    } else {
        first_not_before(clusters, from + 1, to, rel)
    }
}

/// The placement found scanning lines from `li`: an empty line takes a caret
/// at byte `0`, or the end-of-text caret when it is the last line; a
/// non-empty line takes bytes from its first cluster up to the next line's
/// first cluster (the last line has no upper end).
pub open spec fn place_from(
    lines: Seq<VisualLine>,
    clusters: Seq<u32>,
    rel: int,
    source_len: int,
    li: int,
) -> Option<CaretPlacement>
    decreases lines.len() - li,
{
    if li < 0 || li >= lines.len() {
        None
    } else {
        let l = lines[li];
        let g0 = l.glyph_start as int;
        let g1 = run_end(l, clusters.len() as int);
        if g1 <= g0 {
            if rel == 0 || (rel == source_len && li + 1 == lines.len()) {
                Some(CaretPlacement { line: li as usize, line_offset: false, glyphs_from: g0 as usize, glyphs_to: g0 as usize })
            } else {
                place_from(lines, clusters, rel, source_len, li + 1)
            }
        } else {
            let end = if li + 1 < lines.len() {
                next_line_cluster(lines, clusters, li + 1, source_len)
            } else {
                usize::MAX as int
            };
            if clusters[g0] <= rel && rel < end {
                Some(CaretPlacement {
                    line: li as usize,
                    line_offset: true,
                    glyphs_from: g0 as usize,
                    glyphs_to: first_not_before(clusters, g0, g1, rel) as usize,
                })
            } else {
                place_from(lines, clusters, rel, source_len, li + 1)
            }
        }
    }
}

/// Where the caret for byte `rel` sits; past every line it sits at the end of
/// the last line, and without lines at zero on line `0`.
pub open spec fn placement(lines: Seq<VisualLine>, clusters: Seq<u32>, rel: int, source_len: int) -> CaretPlacement {
    match place_from(lines, clusters, rel, source_len, 0) {
        Some(p) => p,
        None => if lines.len() > 0 {
            let l = lines.last();
            CaretPlacement {
                line: (lines.len() - 1) as usize,
                line_offset: true,
                glyphs_from: l.glyph_start as usize,
                glyphs_to: run_end(l, clusters.len() as int) as usize,
            }
        } else {
            CaretPlacement { line: 0, line_offset: false, glyphs_from: 0, glyphs_to: 0 }
        },
    }
}

proof fn lemma_first_not_before(clusters: Seq<u32>, from: int, to: int, rel: int)
    requires
        from <= to,
    ensures
        from <= first_not_before(clusters, from, to, rel) <= to,
    decreases to - from,
{
    if from < to && clusters[from] < rel {
        lemma_first_not_before(clusters, from + 1, to, rel);
    }
}

/// A placement found from line `li` on names a line and a glyph range that
/// exist.
proof fn lemma_place_from_bounds(lines: Seq<VisualLine>, clusters: Seq<u32>, rel: int, source_len: int, li: int)
    requires
        0 <= li,
        lines_fit(lines, clusters.len() as int),
    ensures
        place_from(lines, clusters, rel, source_len, li) matches Some(p) ==> {
            &&& p.glyphs_from <= p.glyphs_to <= clusters.len()
            &&& p.line < lines.len()
        },
    decreases lines.len() - li,
{
    if li < lines.len() {
        let l = lines[li];
        let g0 = l.glyph_start as int;
        let g1 = run_end(l, clusters.len() as int);
        assert(g0 <= clusters.len());
        if g0 < g1 {
            lemma_first_not_before(clusters, g0, g1, rel);
        }
        lemma_place_from_bounds(lines, clusters, rel, source_len, li + 1);
    }
}

/// The placement names a line and a glyph range that exist.
proof fn lemma_placement_bounds(lines: Seq<VisualLine>, clusters: Seq<u32>, rel: int, source_len: int)
    requires
        lines_fit(lines, clusters.len() as int),
    ensures
        ({
            let p = placement(lines, clusters, rel, source_len);
            &&& p.glyphs_from <= p.glyphs_to <= clusters.len()
            &&& (p.line_offset ==> p.line < lines.len())
            &&& (p.line == 0 || p.line < lines.len())
        }),
{
    lemma_place_from_bounds(lines, clusters, rel, source_len, 0);
    if lines.len() > 0 {
        assert(lines.last() == lines[lines.len() - 1]);
    }
}

fn run_end_exec(l: VisualLine, n: usize) -> (r: usize)
    requires
        l.glyph_start + l.glyph_count <= usize::MAX,
    ensures
        r == run_end(l, n as int),
{
    let end = l.glyph_start as usize + l.glyph_count as usize;
    if end <= n {
        end
    } else {
        n
    }
}

fn next_line_cluster_exec(lines: &[VisualLine], clusters: &[u32], j: usize, source_len: usize) -> (r: usize)
    ensures
        r == next_line_cluster(lines@, clusters@, j as int, source_len as int),
{
    let mut k = j;
    while k < lines.len()
        invariant
            j <= k,
            next_line_cluster(lines@, clusters@, j as int, source_len as int) == next_line_cluster(
                lines@,
                clusters@,
                k as int,
                source_len as int,
            ),
        decreases lines@.len() - k,
    {
        let start = lines[k].glyph_start as usize;
        if start < clusters.len() {
            return clusters[start] as usize;
        }
        k = k + 1;
    }
    source_len
}

fn first_not_before_exec(clusters: &[u32], from: usize, to: usize, rel: usize) -> (r: usize)
    requires
        from <= to <= clusters@.len(),
    ensures
        r == first_not_before(clusters@, from as int, to as int, rel as int),
        from <= r <= to,
{
    let mut i = from;
    while i < to && (clusters[i] as usize) < rel
        invariant
            from <= i <= to,
            to <= clusters@.len(),
            first_not_before(clusters@, from as int, to as int, rel as int) == first_not_before(
                clusters@,
                i as int,
                to as int,
                rel as int,
            ),
        decreases to - i,
    {
        i = i + 1;
    }
    i
}

/// Where the caret for byte `rel` of a line of `source_len` bytes sits, given
/// the line's visual lines and its glyphs' byte clusters (see `placement`).
pub fn wrapped_caret(lines: &[VisualLine], clusters: &[u32], rel: usize, source_len: usize) -> (p: CaretPlacement)
    requires
        lines_fit(lines@, clusters@.len() as int),
    ensures
        p == placement(lines@, clusters@, rel as int, source_len as int),
        p.glyphs_from <= p.glyphs_to <= clusters@.len(),
        p.line_offset ==> p.line < lines@.len(),
        p.line == 0 || p.line < lines@.len(),
{
    proof {
        lemma_placement_bounds(lines@, clusters@, rel as int, source_len as int);
    }
    let n = clusters.len();
    let mut li: usize = 0;
    while li < lines.len()
        invariant
            n == clusters@.len(),
            li <= lines@.len(),
            lines_fit(lines@, n as int),
            place_from(lines@, clusters@, rel as int, source_len as int, 0) == place_from(
                lines@,
                clusters@,
                rel as int,
                source_len as int,
                li as int,
            ),
        decreases lines@.len() - li,
    {
        let l = lines[li];
        assert(lines@[li as int] == l);
        let g0 = l.glyph_start as usize;
        let g1 = run_end_exec(l, n);
        if g1 <= g0 {
            if rel == 0 || (rel == source_len && li + 1 == lines.len()) {
                return CaretPlacement { line: li, line_offset: false, glyphs_from: g0, glyphs_to: g0 };
            }
        } else {
            let end = if li + 1 < lines.len() {
                next_line_cluster_exec(lines, clusters, li + 1, source_len)
            } else {
                usize::MAX
            };
            if (clusters[g0] as usize) <= rel && rel < end {
                let to = first_not_before_exec(clusters, g0, g1, rel);
                return CaretPlacement { line: li, line_offset: true, glyphs_from: g0, glyphs_to: to };
            }
        }
        li = li + 1;
    }
    if lines.len() > 0 {
        let last = lines.len() - 1;
        let l = lines[last];
        assert(lines@[last as int] == l);
        CaretPlacement {
            line: last,
            line_offset: true,
            glyphs_from: l.glyph_start as usize,
            glyphs_to: run_end_exec(l, n),
        }
    } else {
        CaretPlacement { line: 0, line_offset: false, glyphs_from: 0, glyphs_to: 0 }
    }
}

} // verus!
