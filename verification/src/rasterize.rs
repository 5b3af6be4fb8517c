use crate::ansi::{
    bg_seq, fg_seq, lemma_color_seqs_are_escapes, lemma_strip_concat, lemma_strip_escape_alone,
    lemma_strip_no_esc, lemma_strip_prepend_char, lemma_strip_prepend_escape, ansi_wf, push_bg_code,
    push_fg_code, push_reset, reset_seq, strip_ansi, ESC,
};
use crate::bitmap::{Pixel, PixelImage};
use vstd::prelude::*;
use vstd::string::StringExecFns;

verus! {

/// The upper half block: its foreground paints the top pixel of a cell and
/// its background the bottom pixel.
pub const UPPER_HALF: char = '\u{2580}';

/// The lower half block: its foreground paints the bottom pixel of a cell.
pub const LOWER_HALF: char = '\u{2584}';

/// The full block, doubled in Full mode to approximate a square cell.
pub const FULL_BLOCK: char = '\u{2588}';

/// Rendering density: Compact merges two source rows into one output line
/// with half blocks; Full renders one output line per source row with a
/// doubled full block.
#[derive(Clone, Copy, PartialEq, Eq, Structural, Debug)]
pub enum Mode {
    Compact,
    Full,
}

/// An ordered sequence of rendered text lines with embedded color-control
/// sequences. Its view is the sequence of the lines' character sequences.
pub struct RenderedArt {
    pub lines: Vec<String>,
}

impl View for RenderedArt {
    type V = Seq<Seq<char>>;

    open spec fn view(&self) -> Seq<Seq<char>> {
        Seq::new(self.lines@.len(), |i: int| self.lines@[i]@)
    }
}

/// One Compact-mode cell for a top and a bottom pixel. Every cell ends with
/// an explicit color reset so that no color state leaks to the next cell.
pub open spec fn compact_cell(top: Pixel, bot: Pixel) -> Seq<char> {
    if !top.is_opaque() && !bot.is_opaque() {
        seq![' '] + reset_seq()
    } else if !top.is_opaque() {
        fg_seq(bot.r, bot.g, bot.b) + seq![LOWER_HALF] + reset_seq()
    } else if !bot.is_opaque() {
        fg_seq(top.r, top.g, top.b) + seq![UPPER_HALF] + reset_seq()
    } else {
        fg_seq(top.r, top.g, top.b) + bg_seq(bot.r, bot.g, bot.b) + seq![UPPER_HALF] + reset_seq()
    }
}

/// The bottom pixel of the cell at column `x` of the row pair starting at
/// `y`: the pixel below, or the top pixel itself when no row follows.
pub open spec fn compact_bot(g: Seq<Seq<Pixel>>, y: int, x: int) -> Pixel {
    if y + 1 < g.len() {
        g[y + 1][x]
    } else {
        g[y][x]
    }
}

pub open spec fn compact_line_prefix(g: Seq<Seq<Pixel>>, y: int, n: int) -> Seq<char>
    decreases n,
{
    if n <= 0 {
        Seq::empty()
    } else {
        compact_line_prefix(g, y, n - 1) + compact_cell(g[y][n - 1], compact_bot(g, y, n - 1))
    }
}

/// The Compact-mode output line for the row pair starting at row `y`.
pub open spec fn compact_line(g: Seq<Seq<Pixel>>, y: int) -> Seq<char> {
    compact_line_prefix(g, y, g[y].len() as int)
}

/// One Full-mode cell: two identical full blocks in the pixel's color, or
/// two plain spaces for a fully transparent pixel.
pub open spec fn full_cell(p: Pixel) -> Seq<char> {
    if p.is_opaque() {
        fg_seq(p.r, p.g, p.b) + seq![FULL_BLOCK, FULL_BLOCK]
    } else {
        seq![' ', ' ']
    }
}

pub open spec fn full_line_prefix(row: Seq<Pixel>, n: int) -> Seq<char>
    decreases n,
{
    if n <= 0 {
        Seq::empty()
    } else {
        full_line_prefix(row, n - 1) + full_cell(row[n - 1])
    }
}

/// The Full-mode output line for one source row.
pub open spec fn full_line(row: Seq<Pixel>) -> Seq<char> {
    full_line_prefix(row, row.len() as int)
}

/// All output lines of a rendering: `ceil(height/2)` Compact lines, one per
/// row pair, or one Full line per source row.
pub open spec fn render_lines(g: Seq<Seq<Pixel>>, mode: Mode) -> Seq<Seq<char>> {
    match mode {
        Mode::Compact => Seq::new(((g.len() + 1) / 2) as nat, |i: int| compact_line(g, 2 * i)),
        Mode::Full => Seq::new(g.len(), |y: int| full_line(g[y])),
    }
}

/// Converts a bitmap into its lines of color-tagged text in the given
/// density mode.
pub fn rasterize(img: &PixelImage, mode: Mode) -> (art: RenderedArt)
    requires
        img.wf(),
        img.height < usize::MAX,
    ensures
        art@ == render_lines(img@, mode),
        mode is Compact ==> art@.len() == (img@.len() + 1) / 2,
        mode is Full ==> art@.len() == img@.len(),
{
    let ghost g = img@;
    let mut lines: Vec<String> = Vec::new();
    match mode {
        Mode::Compact => {
            let mut y: usize = 0;
            while y < img.height
                invariant
                    img.wf(),
                    img.height < usize::MAX,
                    g == img@,
                    y % 2 == 0,
                    y <= img.height + 1,
                    lines@.len() == y / 2,
                    forall|i: int| 0 <= i < lines@.len() ==> (#[trigger] lines@[i])@
                        == compact_line(g, 2 * i),
                decreases img.height + 1 - y,
            {
                let mut line = String::new();
                let mut x: usize = 0;
                while x < img.width
                    invariant
                        img.wf(),
                        g == img@,
                        y < img.height,
                        x <= img.width,
                        line@ == compact_line_prefix(g, y as int, x as int),
                    decreases img.width - x,
                {
                    let top = img.rows[y][x];
                    let bot = if y + 1 < img.height {
                        img.rows[y + 1][x]
                    } else {
                        top
                    };
                    assert(top == g[y as int][x as int]);
                    assert(bot == compact_bot(g, y as int, x as int));
                    if top.a == 0 && bot.a == 0 {
                        line.push(' ');
                    } else if top.a == 0 {
                        push_fg_code(&mut line, bot.r, bot.g, bot.b);
                        line.push(LOWER_HALF);
                    } else if bot.a == 0 {
                        push_fg_code(&mut line, top.r, top.g, top.b);
                        line.push(UPPER_HALF);
                    } else {
                        push_fg_code(&mut line, top.r, top.g, top.b);
                        push_bg_code(&mut line, bot.r, bot.g, bot.b);
                        line.push(UPPER_HALF);
                    }
                    push_reset(&mut line);
                    proof {
                        assert(line@ =~= compact_line_prefix(g, y as int, x as int + 1));
                    }
                    x += 1;
                }
                assert(line@ == compact_line(g, y as int));
                lines.push(line);
                y += 2;
            }
            let art = RenderedArt { lines };
            proof {
                assert(art@ =~= render_lines(g, mode));
            }
            art
        },
        Mode::Full => {
            let mut y: usize = 0;
            while y < img.height
                invariant
                    img.wf(),
                    g == img@,
                    y <= img.height,
                    lines@.len() == y,
                    forall|i: int| 0 <= i < lines@.len() ==> (#[trigger] lines@[i])@
                        == full_line(g[i]),
                decreases img.height - y,
            {
                let mut line = String::new();
                let mut x: usize = 0;
                while x < img.width
                    invariant
                        img.wf(),
                        g == img@,
                        y < img.height,
                        x <= img.width,
                        line@ == full_line_prefix(g[y as int], x as int),
                    decreases img.width - x,
                {
                    let px = img.rows[y][x];
                    assert(px == g[y as int][x as int]);
                    if px.a == 0 {
                        line.push(' ');
                        line.push(' ');
                    } else {
                        push_fg_code(&mut line, px.r, px.g, px.b);
                        line.push(FULL_BLOCK);
                        line.push(FULL_BLOCK);
                    }
                    proof {
                        assert(line@ =~= full_line_prefix(g[y as int], x as int + 1));
                    }
                    x += 1;
                }
                assert(line@ == full_line(g[y as int]));
                lines.push(line);
                y += 1;
            }
            let art = RenderedArt { lines };
            proof {
                assert(art@ =~= render_lines(g, mode));
            }
            art
        },
    }
}

pub open spec fn join_lines_prefix(lines: Seq<Seq<char>>, n: int) -> Seq<char>
    decreases n,
{
    if n <= 0 {
        Seq::empty()
    } else {
        join_lines_prefix(lines, n - 1) + lines[n - 1] + seq!['\n']
    }
}

/// All lines of a rendering joined into one text, each line terminated by a
/// line break.
pub open spec fn join_lines(lines: Seq<Seq<char>>) -> Seq<char> {
    join_lines_prefix(lines, lines.len() as int)
}

impl RenderedArt {
    /// The rendering as one printable text, each line followed by a line
    /// break.
    pub fn to_text(&self) -> (s: String)
        ensures
            s@ == join_lines(self@),
    {
        let mut out = String::new();
        let mut i: usize = 0;
        while i < self.lines.len()
            invariant
                i <= self.lines@.len(),
                out@ == join_lines_prefix(self@, i as int),
            decreases self.lines@.len() - i,
        {
            out.append(self.lines[i].as_str());
            out.push('\n');
            proof {
                assert(out@ =~= join_lines_prefix(self@, i as int + 1));
            }
            i += 1;
        }
        out
    }
}

/// Each Compact-mode cell shows exactly one visible character, so a Compact
/// line of a row of width `w` strips to exactly `w` visible characters; the
/// line is well formed.
pub proof fn lemma_compact_cell_visible(top: Pixel, bot: Pixel)
    ensures
        strip_ansi(compact_cell(top, bot)).len() == 1,
        ansi_wf(compact_cell(top, bot)),
{
    lemma_color_seqs_are_escapes(top.r, top.g, top.b);
    lemma_color_seqs_are_escapes(bot.r, bot.g, bot.b);
    lemma_strip_escape_alone(reset_seq());
    let rst = reset_seq();
    if !top.is_opaque() && !bot.is_opaque() {
        lemma_strip_prepend_char(' ', rst);
        assert(compact_cell(top, bot) =~= seq![' '] + rst);
        assert(strip_ansi(seq![' '] + rst) =~= seq![' ']);
    } else if !top.is_opaque() {
        let fg = fg_seq(bot.r, bot.g, bot.b);
        lemma_strip_prepend_char(LOWER_HALF, rst);
        lemma_strip_prepend_escape(fg, seq![LOWER_HALF] + rst);
        assert(compact_cell(top, bot) =~= fg + (seq![LOWER_HALF] + rst));
        assert(strip_ansi(seq![LOWER_HALF] + rst) =~= seq![LOWER_HALF]);
    } else if !bot.is_opaque() {
        let fg = fg_seq(top.r, top.g, top.b);
        lemma_strip_prepend_char(UPPER_HALF, rst);
        lemma_strip_prepend_escape(fg, seq![UPPER_HALF] + rst);
        assert(compact_cell(top, bot) =~= fg + (seq![UPPER_HALF] + rst));
        assert(strip_ansi(seq![UPPER_HALF] + rst) =~= seq![UPPER_HALF]);
    } else {
        let fg = fg_seq(top.r, top.g, top.b);
        let bg = bg_seq(bot.r, bot.g, bot.b);
        lemma_strip_prepend_char(UPPER_HALF, rst);
        lemma_strip_prepend_escape(bg, seq![UPPER_HALF] + rst);
        lemma_strip_prepend_escape(fg, bg + (seq![UPPER_HALF] + rst));
        assert(compact_cell(top, bot) =~= fg + (bg + (seq![UPPER_HALF] + rst)));
        assert(strip_ansi(seq![UPPER_HALF] + rst) =~= seq![UPPER_HALF]);
    }
}

proof fn lemma_compact_prefix_visible(g: Seq<Seq<Pixel>>, y: int, n: int)
    requires
        0 <= n,
    ensures
        strip_ansi(compact_line_prefix(g, y, n)).len() == n,
        ansi_wf(compact_line_prefix(g, y, n)),
    decreases n,
{
    if n == 0 {
        lemma_strip_no_esc(Seq::<char>::empty());
    } else {
        lemma_compact_prefix_visible(g, y, n - 1);
        lemma_compact_cell_visible(g[y][n - 1], compact_bot(g, y, n - 1));
        lemma_strip_concat(
            compact_line_prefix(g, y, n - 1),
            compact_cell(g[y][n - 1], compact_bot(g, y, n - 1)),
        );
    }
}

/// A Compact-mode line over a row of width `w` has exactly `w` visible
/// characters once its color-control sequences are stripped.
pub proof fn lemma_compact_line_visible(g: Seq<Seq<Pixel>>, y: int)
    requires
        0 <= y < g.len(),
    ensures
        strip_ansi(compact_line(g, y)).len() == g[y].len(),
        ansi_wf(compact_line(g, y)),
{
    lemma_compact_prefix_visible(g, y, g[y].len() as int);
}

/// Each Full-mode cell shows exactly two visible characters.
pub proof fn lemma_full_cell_visible(p: Pixel)
    ensures
        strip_ansi(full_cell(p)).len() == 2,
        ansi_wf(full_cell(p)),
{
    if p.is_opaque() {
        let fg = fg_seq(p.r, p.g, p.b);
        lemma_color_seqs_are_escapes(p.r, p.g, p.b);
        let blocks = seq![FULL_BLOCK, FULL_BLOCK];
        assert(forall|i: int| 0 <= i < blocks.len() ==> blocks[i] != ESC);
        lemma_strip_no_esc(blocks);
        lemma_strip_prepend_escape(fg, blocks);
    } else {
        let sp = seq![' ', ' '];
        assert(forall|i: int| 0 <= i < sp.len() ==> sp[i] != ESC);
        lemma_strip_no_esc(sp);
    }
}

proof fn lemma_full_prefix_visible(row: Seq<Pixel>, n: int)
    requires
        0 <= n,
    ensures
        strip_ansi(full_line_prefix(row, n)).len() == 2 * n,
        ansi_wf(full_line_prefix(row, n)),
    decreases n,
{
    if n == 0 {
        lemma_strip_no_esc(Seq::<char>::empty());
    } else {
        lemma_full_prefix_visible(row, n - 1);
        lemma_full_cell_visible(row[n - 1]);
        lemma_strip_concat(full_line_prefix(row, n - 1), full_cell(row[n - 1]));
    }
}

/// Stripping the color-control sequences from a Full-mode line of a row of
/// width `w` leaves exactly `2 * w` visible characters.
pub proof fn lemma_full_line_visible(row: Seq<Pixel>)
    ensures
        strip_ansi(full_line(row)).len() == 2 * row.len(),
        ansi_wf(full_line(row)),
{
    lemma_full_prefix_visible(row, row.len() as int);
}

/// Every rendered line is well formed and shows exactly the grid's width in
/// Compact mode and twice the grid's width in Full mode, so a rendering can
/// be composed and measures as wide as its source.
pub proof fn lemma_render_lines_visible(g: Seq<Seq<Pixel>>, mode: Mode)
    requires
        crate::bitmap::grid_wf(g),
    ensures
        forall|i: int|
            0 <= i < render_lines(g, mode).len() ==> ansi_wf(#[trigger] render_lines(g, mode)[i]),
        forall|i: int|
            0 <= i < render_lines(g, mode).len() ==> strip_ansi(
                #[trigger] render_lines(g, mode)[i],
            ).len() == (if mode is Compact {
                crate::bitmap::grid_width(g)
            } else {
                2 * crate::bitmap::grid_width(g)
            }),
{
    assert forall|i: int| 0 <= i < render_lines(g, mode).len() implies ansi_wf(
        #[trigger] render_lines(g, mode)[i],
    ) && strip_ansi(render_lines(g, mode)[i]).len() == (if mode is Compact {
        crate::bitmap::grid_width(g)
    } else {
        2 * crate::bitmap::grid_width(g)
    }) by {
        match mode {
            Mode::Compact => {
                assert(0 <= 2 * i < g.len());
                lemma_compact_line_visible(g, 2 * i);
                assert(g[2 * i].len() == crate::bitmap::grid_width(g));
            },
            Mode::Full => {
                lemma_full_line_visible(g[i]);
                assert(g[i].len() == crate::bitmap::grid_width(g));
            },
        }
    }
}

} // verus!
