use crate::ansi::{
    ansi_wf, lemma_strip_concat, lemma_strip_no_esc, push_reset, reset_seq, strip_ansi,
    visible_width, ESC,
};
use crate::rasterize::RenderedArt;
use vstd::prelude::*;
use vstd::string::StringExecFns;

verus! {

/// A run of `n` plain spaces (empty when `n` is not positive).
pub open spec fn spaces(n: int) -> Seq<char> {
    crate::text::char_repeat(' ', n)
}

pub open spec fn art_width_prefix(art: Seq<Seq<char>>, n: int) -> int
    decreases n,
{
    if n <= 0 {
        0
    } else {
        let prev = art_width_prefix(art, n - 1);
        let cur = strip_ansi(art[n - 1]).len() as int;
        if cur > prev {
            cur
        } else {
            prev
        }
    }
}

/// The visible width of a rendering: the maximum, over its lines, of the
/// character count with color-control sequences stripped out.
pub open spec fn art_visible_width(art: Seq<Seq<char>>) -> int {
    art_width_prefix(art, art.len() as int)
}

pub open spec fn max_height_prefix(arts: Seq<Seq<Seq<char>>>, n: int) -> int
    decreases n,
{
    if n <= 0 {
        0
    } else {
        let prev = max_height_prefix(arts, n - 1);
        let cur = arts[n - 1].len() as int;
        if cur > prev {
            cur
        } else {
            prev
        }
    }
}

/// The maximum line count across all renderings.
pub open spec fn arts_max_height(arts: Seq<Seq<Seq<char>>>) -> int {
    max_height_prefix(arts, arts.len() as int)
}

/// One rendering's contribution to output row `r`: its line `r` if it has
/// one, right-padded with spaces until the visible width of the column
/// equals the rendering's visible width.
pub open spec fn column_cell(art: Seq<Seq<char>>, r: int) -> Seq<char> {
    let line = if 0 <= r < art.len() {
        art[r]
    } else {
        Seq::empty()
    };
    line + spaces(art_visible_width(art) - strip_ansi(line).len())
}

pub open spec fn row_prefix(arts: Seq<Seq<Seq<char>>>, spacing: int, r: int, n: int) -> Seq<char>
    decreases n,
{
    if n <= 0 {
        Seq::empty()
    } else {
        row_prefix(arts, spacing, r, n - 1) + column_cell(arts[n - 1], r) + (if n - 1
            < arts.len() - 1 {
            spaces(spacing)
        } else {
            Seq::empty()
        })
    }
}

/// Output row `r` of the composition: every column in input order, a
/// fixed-width separator after every art except the last.
pub open spec fn compose_row(arts: Seq<Seq<Seq<char>>>, spacing: int, r: int) -> Seq<char> {
    row_prefix(arts, spacing, r, arts.len() as int)
}

pub open spec fn compose_rows_prefix(arts: Seq<Seq<Seq<char>>>, spacing: int, n: int) -> Seq<char>
    decreases n,
{
    if n <= 0 {
        Seq::empty()
    } else {
        compose_rows_prefix(arts, spacing, n - 1) + compose_row(arts, spacing, n - 1) + seq!['\n']
    }
}

/// The whole composed text block: one line per output row, each terminated
/// by a line break, and one trailing color reset on a line of its own.
pub open spec fn compose_spec(arts: Seq<Seq<Seq<char>>>, spacing: int) -> Seq<char> {
    compose_rows_prefix(arts, spacing, arts_max_height(arts)) + reset_seq() + seq!['\n']
}

/// The views of a sequence of renderings.
pub open spec fn arts_views(arts: Seq<RenderedArt>) -> Seq<Seq<Seq<char>>> {
    Seq::new(arts.len(), |i: int| arts[i]@)
}

/// No line of a rendering strips wider than the rendering's visible width.
pub proof fn lemma_line_within_width(art: Seq<Seq<char>>, i: int)
    requires
        0 <= i < art.len(),
    ensures
        strip_ansi(art[i]).len() <= art_visible_width(art),
{
    lemma_width_prefix_bound(art, i, art.len() as int);
}

proof fn lemma_width_prefix_bound(art: Seq<Seq<char>>, i: int, n: int)
    requires
        0 <= i < n,
    ensures
        strip_ansi(art[i]).len() <= art_width_prefix(art, n),
    decreases n,
{
    if i < n - 1 {
        lemma_width_prefix_bound(art, i, n - 1);
    }
}

fn push_spaces(out: &mut String, n: usize)
    ensures
        final(out)@ == old(out)@ + spaces(n as int),
{
    crate::text::push_repeat(out, ' ', n);
}

/// Lays out the renderings side by side: each column padded to its own
/// visible width, `spacing` spaces between columns, a trailing color reset.
pub fn compose(arts: &Vec<RenderedArt>, spacing: u8) -> (out: String)
    ensures
        out@ == compose_spec(arts_views(arts@), spacing as int),
{
    let ghost av = arts_views(arts@);
    // Visible width of each rendering.
    let mut widths: Vec<usize> = Vec::new();
    let mut a: usize = 0;
    while a < arts.len()
        invariant
            a <= arts@.len(),
            av == arts_views(arts@),
            widths@.len() == a,
            forall|j: int| 0 <= j < a ==> #[trigger] widths@[j] == art_visible_width(av[j]),
        decreases arts@.len() - a,
    {
        let art = &arts[a];
        let mut w: usize = 0;
        let mut i: usize = 0;
        while i < art.lines.len()
            invariant
                i <= art.lines@.len(),
                av == arts_views(arts@),
                a < arts@.len(),
                art == &arts[a as int],
                w == art_width_prefix(art@, i as int),
            decreases art.lines@.len() - i,
        {
            let vw = visible_width(art.lines[i].as_str());
            if vw > w {
                w = vw;
            }
            i += 1;
        }
        assert(art@ == av[a as int]);
        widths.push(w);
        a += 1;
    }
    // Maximum height across the renderings.
    let mut max_h: usize = 0;
    let mut a2: usize = 0;
    while a2 < arts.len()
        invariant
            a2 <= arts@.len(),
            av == arts_views(arts@),
            max_h == max_height_prefix(av, a2 as int),
        decreases arts@.len() - a2,
    {
        let h = arts[a2].lines.len();
        assert(h == av[a2 as int].len());
        if h > max_h {
            max_h = h;
        }
        a2 += 1;
    }
    // Emit the rows.
    let mut out = String::new();
    let mut r: usize = 0;
    while r < max_h
        invariant
            r <= max_h,
            av == arts_views(arts@),
            max_h == arts_max_height(av),
            widths@.len() == arts@.len(),
            forall|j: int| 0 <= j < arts@.len() ==> #[trigger] widths@[j] == art_visible_width(
                av[j],
            ),
            out@ == compose_rows_prefix(av, spacing as int, r as int),
        decreases max_h - r,
    {
        let ghost row_start = out@;
        let mut j: usize = 0;
        while j < arts.len()
            invariant
                j <= arts@.len(),
                av == arts_views(arts@),
                widths@.len() == arts@.len(),
                forall|jj: int| 0 <= jj < arts@.len() ==> #[trigger] widths@[jj]
                    == art_visible_width(av[jj]),
                out@ == row_start + row_prefix(av, spacing as int, r as int, j as int),
            decreases arts@.len() - j,
        {
            let ghost before = out@;
            let art = &arts[j];
            assert(art@ == av[j as int]);
            let line_vis: usize;
            if r < art.lines.len() {
                out.append(art.lines[r].as_str());
                line_vis = visible_width(art.lines[r].as_str());
                proof {
                    lemma_line_within_width(av[j as int], r as int);
                }
            } else {
                line_vis = 0;
            }
            let pad = widths[j] - line_vis;
            push_spaces(&mut out, pad);
            proof {
                assert(out@ =~= before + column_cell(av[j as int], r as int));
            }
            if j + 1 < arts.len() {
                push_spaces(&mut out, spacing as usize);
            }
            proof {
                assert(out@ =~= row_start + row_prefix(av, spacing as int, r as int, j as int + 1));
            }
            j += 1;
        }
        out.push('\n');
        proof {
            assert(out@ =~= compose_rows_prefix(av, spacing as int, r as int + 1));
        }
        r += 1;
    }
    push_reset(&mut out);
    out.push('\n');
    proof {
        assert(out@ =~= compose_spec(av, spacing as int));
    }
    out
}

pub open spec fn sum_widths_prefix(arts: Seq<Seq<Seq<char>>>, n: int) -> int
    decreases n,
{
    if n <= 0 {
        0
    } else {
        sum_widths_prefix(arts, n - 1) + art_visible_width(arts[n - 1])
    }
}

/// The sum of the visible widths of all renderings.
pub open spec fn sum_widths(arts: Seq<Seq<Seq<char>>>) -> int {
    sum_widths_prefix(arts, arts.len() as int)
}

/// Every line of every rendering is free of dangling escape characters.
pub open spec fn arts_ansi_wf(arts: Seq<Seq<Seq<char>>>) -> bool {
    forall|a: int, l: int|
        0 <= a < arts.len() && 0 <= l < arts[a].len() ==> ansi_wf(#[trigger] arts[a][l])
}

proof fn lemma_spaces_plain(n: int)
    ensures
        strip_ansi(spaces(n)) == spaces(n),
        ansi_wf(spaces(n)),
        n >= 0 ==> spaces(n).len() == n,
{
    assert(forall|i: int| 0 <= i < spaces(n).len() ==> spaces(n)[i] != ESC);
    lemma_strip_no_esc(spaces(n));
}

/// Each column of a composed row shows exactly its art's visible width.
proof fn lemma_column_cell_visible(art: Seq<Seq<char>>, r: int)
    requires
        forall|l: int| 0 <= l < art.len() ==> ansi_wf(#[trigger] art[l]),
    ensures
        strip_ansi(column_cell(art, r)).len() == if art_visible_width(art) >= 0 {
            art_visible_width(art)
        } else {
            0
        },
        ansi_wf(column_cell(art, r)),
{
    let w = art_visible_width(art);
    if 0 <= r < art.len() {
        let line = art[r];
        lemma_line_within_width(art, r);
        lemma_spaces_plain(w - strip_ansi(line).len());
        lemma_strip_concat(line, spaces(w - strip_ansi(line).len()));
        assert(w >= strip_ansi(line).len() >= 0);
    } else {
        let line = Seq::<char>::empty();
        lemma_strip_no_esc(line);
        lemma_spaces_plain(w);
        lemma_strip_concat(line, spaces(w));
        assert(line + spaces(w) =~= spaces(w));
    }
}

proof fn lemma_row_prefix_visible(arts: Seq<Seq<Seq<char>>>, spacing: int, r: int, n: int)
    requires
        arts_ansi_wf(arts),
        spacing >= 0,
        0 <= n <= arts.len(),
        forall|a: int| 0 <= a < arts.len() ==> art_visible_width(#[trigger] arts[a]) >= 0,
    ensures
        strip_ansi(row_prefix(arts, spacing, r, n)).len() == sum_widths_prefix(arts, n) + spacing
            * (if n < arts.len() {
            n
        } else if n > 0 {
            n - 1
        } else {
            0
        }),
        ansi_wf(row_prefix(arts, spacing, r, n)),
    decreases n,
{
    if n > 0 {
        lemma_row_prefix_visible(arts, spacing, r, n - 1);
        lemma_column_cell_visible(arts[n - 1], r);
        lemma_spaces_plain(spacing);
        let prev = row_prefix(arts, spacing, r, n - 1);
        let cell = column_cell(arts[n - 1], r);
        lemma_strip_concat(prev, cell);
        lemma_strip_concat(prev + cell, spaces(spacing));
        if n - 1 < arts.len() - 1 {
            assert(spacing * (n - 1) + spacing == spacing * n) by (nonlinear_arith);
        } else {
            assert(row_prefix(arts, spacing, r, n) == prev + cell + Seq::<char>::empty());
            assert(prev + cell + Seq::<char>::empty() =~= prev + cell);
        }
    } else {
        lemma_strip_no_esc(Seq::<char>::empty());
    }
}

/// Composed-row width: when every line is well formed, row `r` of a
/// composition of `N` renderings strips to exactly the sum of the
/// renderings' visible widths plus `spacing * (N - 1)` separator
/// characters; with `spacing == 0` no separator characters at all are
/// inserted between the columns.
pub proof fn lemma_compose_row_visible(arts: Seq<Seq<Seq<char>>>, spacing: int, r: int)
    requires
        arts_ansi_wf(arts),
        spacing >= 0,
        arts.len() >= 1,
    ensures
        strip_ansi(compose_row(arts, spacing, r)).len() == sum_widths(arts) + spacing * (arts.len()
            - 1),
        ansi_wf(compose_row(arts, spacing, r)),
{
    assert forall|a: int| 0 <= a < arts.len() implies art_visible_width(#[trigger] arts[a])
        >= 0 by {
        lemma_width_prefix_nonneg(arts[a], arts[a].len() as int);
    }
    lemma_row_prefix_visible(arts, spacing, r, arts.len() as int);
}

proof fn lemma_width_prefix_nonneg(art: Seq<Seq<char>>, n: int)
    ensures
        art_width_prefix(art, n) >= 0,
    decreases n,
{
    if n > 0 {
        lemma_width_prefix_nonneg(art, n - 1);
    }
}

pub open spec fn row_cells_only(arts: Seq<Seq<Seq<char>>>, r: int, n: int) -> Seq<char>
    decreases n,
{
    if n <= 0 {
        Seq::empty()
    } else {
        row_cells_only(arts, r, n - 1) + column_cell(arts[n - 1], r)
    }
}

/// With `spacing == 0` a composed row is exactly the concatenation of its
/// columns: no separator characters are inserted between them.
pub proof fn lemma_compose_row_zero_spacing(arts: Seq<Seq<Seq<char>>>, r: int)
    ensures
        compose_row(arts, 0, r) == row_cells_only(arts, r, arts.len() as int),
{
    lemma_row_prefix_zero(arts, r, arts.len() as int);
}

proof fn lemma_row_prefix_zero(arts: Seq<Seq<Seq<char>>>, r: int, n: int)
    ensures
        row_prefix(arts, 0, r, n) == row_cells_only(arts, r, n),
    decreases n,
{
    if n > 0 {
        lemma_row_prefix_zero(arts, r, n - 1);
        assert(spaces(0) == Seq::<char>::empty());
        assert(row_prefix(arts, 0, r, n) =~= row_cells_only(arts, r, n));
    }
}

} // verus!
