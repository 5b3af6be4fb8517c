use crate::error::CoreError;
use vstd::prelude::*;

verus! {

/// One RGBA picture element. Alpha 0 means fully transparent; any other
/// alpha value counts as opaque content.
#[derive(Clone, Copy, PartialEq, Eq, Structural, Debug)]
pub struct Pixel {
    pub r: u8,
    pub g: u8,
    pub b: u8,
    pub a: u8,
}

impl Pixel {
    pub open spec fn is_opaque(self) -> bool {
        self.a != 0
    }
}

/// An immutable width x height grid of RGBA pixels, stored as rows.
/// Its view is the sequence of its rows, each a sequence of pixels.
pub struct PixelImage {
    pub width: usize,
    pub height: usize,
    pub rows: Vec<Vec<Pixel>>,
}

impl View for PixelImage {
    type V = Seq<Seq<Pixel>>;

    open spec fn view(&self) -> Seq<Seq<Pixel>> {
        Seq::new(self.rows@.len(), |y: int| self.rows@[y]@)
    }
}

impl PixelImage {
    /// The grid really is `height` rows of `width` pixels each.
    pub open spec fn wf(self) -> bool {
        &&& self.rows@.len() == self.height
        &&& forall|y: int|
            0 <= y < self.rows@.len() ==> (#[trigger] self.rows@[y])@.len() == self.width
    }

    /// Builds an image from rows, returning `None` when the rows do not all
    /// have the same length.
    pub fn from_rows(rows: Vec<Vec<Pixel>>) -> (result: Option<PixelImage>)
        ensures
            match result {
                Some(img) => {
                    &&& img.wf()
                    &&& img@ == Seq::new(rows@.len(), |y: int| rows@[y]@)
                    &&& img.height == rows@.len()
                    &&& img.width == grid_width(Seq::new(rows@.len(), |y: int| rows@[y]@))
                },
                None => !(forall|y: int|
                    0 <= y < rows@.len() ==> (#[trigger] rows@[y])@.len() == rows@[0]@.len()),
            },
    {
        let height = rows.len();
        let width = if height == 0 {
            0
        } else {
            rows[0].len()
        };
        let mut y: usize = 0;
        while y < height
            invariant
                y <= height,
                height == rows@.len(),
                height > 0 ==> width == rows@[0]@.len(),
                height == 0 ==> width == 0,
                forall|i: int| 0 <= i < y ==> (#[trigger] rows@[i])@.len() == width,
            decreases height - y,
        {
            if rows[y].len() != width {
                return None;
            }
            y += 1;
        }
        let img = PixelImage { width, height, rows };
        Some(img)
    }
}

/// The common row length of a grid (0 when the grid has no rows).
pub open spec fn grid_width(g: Seq<Seq<Pixel>>) -> int {
    if g.len() == 0 {
        0
    } else {
        g[0].len() as int
    }
}

/// Every row of the grid has the common length.
pub open spec fn grid_wf(g: Seq<Seq<Pixel>>) -> bool {
    forall|y: int| 0 <= y < g.len() ==> (#[trigger] g[y]).len() == grid_width(g)
}

pub open spec fn row_has_content(row: Seq<Pixel>) -> bool {
    exists|x: int| 0 <= x < row.len() && (#[trigger] row[x]).is_opaque()
}

pub open spec fn grid_has_content(g: Seq<Seq<Pixel>>) -> bool {
    exists|y: int| 0 <= y < g.len() && row_has_content(#[trigger] g[y])
}

pub open spec fn col_has_content(g: Seq<Seq<Pixel>>, x: int) -> bool {
    exists|y: int| 0 <= y < g.len() && 0 <= x < g[y].len() && (#[trigger] g[y][x]).is_opaque()
}

/// Index of the first row at or below `y` holding an opaque pixel,
/// or `g.len()` when there is none.
pub open spec fn first_content_row_from(g: Seq<Seq<Pixel>>, y: int) -> int
    decreases g.len() - y,
{
    if y < 0 || y >= g.len() {
        g.len() as int
    } else if row_has_content(g[y]) {
        y
    } else {
        first_content_row_from(g, y + 1)
    }
}

/// Index of the last row at or above `y` holding an opaque pixel,
/// or -1 when there is none.
pub open spec fn last_content_row_from(g: Seq<Seq<Pixel>>, y: int) -> int
    decreases y + 1,
{
    if y < 0 || y >= g.len() {
        -1
    } else if row_has_content(g[y]) {
        y
    } else {
        last_content_row_from(g, y - 1)
    }
}

/// Index of the first column at or right of `x` holding an opaque pixel,
/// or `grid_width(g)` when there is none.
pub open spec fn first_content_col_from(g: Seq<Seq<Pixel>>, x: int) -> int
    decreases grid_width(g) - x,
{
    if x < 0 || x >= grid_width(g) {
        grid_width(g)
    } else if col_has_content(g, x) {
        x
    } else {
        first_content_col_from(g, x + 1)
    }
}

/// Index of the last column at or left of `x` holding an opaque pixel,
/// or -1 when there is none.
pub open spec fn last_content_col_from(g: Seq<Seq<Pixel>>, x: int) -> int
    decreases x + 1,
{
    if x < 0 || x >= grid_width(g) {
        -1
    } else if col_has_content(g, x) {
        x
    } else {
        last_content_col_from(g, x - 1)
    }
}

pub open spec fn top_content_row(g: Seq<Seq<Pixel>>) -> int {
    first_content_row_from(g, 0)
}

pub open spec fn bottom_content_row(g: Seq<Seq<Pixel>>) -> int {
    last_content_row_from(g, g.len() - 1)
}

pub open spec fn left_content_col(g: Seq<Seq<Pixel>>) -> int {
    first_content_col_from(g, 0)
}

pub open spec fn right_content_col(g: Seq<Seq<Pixel>>) -> int {
    last_content_col_from(g, grid_width(g) - 1)
}

/// The rectangular extraction of the minimal bounding box of the opaque
/// pixels of `g`. Meaningful when `grid_has_content(g)` holds.
pub open spec fn crop_grid(g: Seq<Seq<Pixel>>) -> Seq<Seq<Pixel>> {
    let y0 = top_content_row(g);
    let y1 = bottom_content_row(g);
    let x0 = left_content_col(g);
    let x1 = right_content_col(g);
    Seq::new(
        (y1 - y0 + 1) as nat,
        |dy: int| Seq::new((x1 - x0 + 1) as nat, |dx: int| g[y0 + dy][x0 + dx]),
    )
}

proof fn lemma_first_content_row_props(g: Seq<Seq<Pixel>>, y: int)
    requires
        0 <= y <= g.len(),
    ensures
        y <= first_content_row_from(g, y) <= g.len(),
        first_content_row_from(g, y) < g.len() ==> row_has_content(
            g[first_content_row_from(g, y)],
        ),
        forall|y2: int|
            y <= y2 < first_content_row_from(g, y) ==> !row_has_content(#[trigger] g[y2]),
    decreases g.len() - y,
{
    if y < g.len() && !row_has_content(g[y]) {
        lemma_first_content_row_props(g, y + 1);
    }
}

proof fn lemma_last_content_row_props(g: Seq<Seq<Pixel>>, y: int)
    requires
        -1 <= y < g.len(),
    ensures
        -1 <= last_content_row_from(g, y) <= y,
        last_content_row_from(g, y) >= 0 ==> row_has_content(g[last_content_row_from(g, y)]),
        forall|y2: int|
            last_content_row_from(g, y) < y2 <= y ==> !row_has_content(#[trigger] g[y2]),
    decreases y + 1,
{
    if y >= 0 && !row_has_content(g[y]) {
        lemma_last_content_row_props(g, y - 1);
    }
}

proof fn lemma_first_content_col_props(g: Seq<Seq<Pixel>>, x: int)
    requires
        0 <= x <= grid_width(g),
    ensures
        x <= first_content_col_from(g, x) <= grid_width(g),
        first_content_col_from(g, x) < grid_width(g) ==> col_has_content(
            g,
            first_content_col_from(g, x),
        ),
        forall|x2: int|
            x <= x2 < first_content_col_from(g, x) ==> !col_has_content(g, x2),
    decreases grid_width(g) - x,
{
    if x < grid_width(g) && !col_has_content(g, x) {
        lemma_first_content_col_props(g, x + 1);
    }
}

proof fn lemma_last_content_col_props(g: Seq<Seq<Pixel>>, x: int)
    requires
        -1 <= x < grid_width(g),
    ensures
        -1 <= last_content_col_from(g, x) <= x,
        last_content_col_from(g, x) >= 0 ==> col_has_content(g, last_content_col_from(g, x)),
        forall|x2: int| last_content_col_from(g, x) < x2 <= x ==> !col_has_content(g, x2),
    decreases x + 1,
{
    if x >= 0 && !col_has_content(g, x) {
        lemma_last_content_col_props(g, x - 1);
    }
}

/// The bounding box of a grid with content: the four bounds are in range,
/// every border row and column of the box holds an opaque pixel, and every
/// opaque pixel lies inside the box. Together these make the box the unique
/// minimal bounding rectangle (see `lemma_bounding_box_unique`).
pub proof fn lemma_content_box(g: Seq<Seq<Pixel>>)
    requires
        grid_wf(g),
        grid_has_content(g),
    ensures
        0 <= top_content_row(g) <= bottom_content_row(g) < g.len(),
        0 <= left_content_col(g) <= right_content_col(g) < grid_width(g),
        row_has_content(g[top_content_row(g)]),
        row_has_content(g[bottom_content_row(g)]),
        col_has_content(g, left_content_col(g)),
        col_has_content(g, right_content_col(g)),
        forall|y: int, x: int|
            0 <= y < g.len() && 0 <= x < g[y].len() && (#[trigger] g[y][x]).is_opaque() ==> {
                &&& top_content_row(g) <= y <= bottom_content_row(g)
                &&& left_content_col(g) <= x <= right_content_col(g)
            },
{
    lemma_first_content_row_props(g, 0);
    lemma_last_content_row_props(g, g.len() - 1);
    lemma_first_content_col_props(g, 0);
    lemma_last_content_col_props(g, grid_width(g) - 1);
    let wy = choose|y: int| 0 <= y < g.len() && row_has_content(#[trigger] g[y]);
    assert(top_content_row(g) < g.len() && bottom_content_row(g) >= 0) by {
        if top_content_row(g) == g.len() {
            assert(!row_has_content(g[wy]));
        }
        if bottom_content_row(g) == -1 {
            assert(!row_has_content(g[wy]));
        }
    }
    assert forall|y: int, x: int|
        0 <= y < g.len() && 0 <= x < g[y].len() && (#[trigger] g[y][x]).is_opaque() implies {
        &&& top_content_row(g) <= y <= bottom_content_row(g)
        &&& left_content_col(g) <= x <= right_content_col(g)
    } by {
        assert(row_has_content(g[y]));
        assert(col_has_content(g, x));
        if y < top_content_row(g) {
            assert(!row_has_content(g[y]));
        }
        if y > bottom_content_row(g) {
            assert(!row_has_content(g[y]));
        }
        if x < left_content_col(g) {
            assert(!col_has_content(g, x));
        }
        if x > right_content_col(g) {
            assert(!col_has_content(g, x));
        }
    }
    assert(left_content_col(g) < grid_width(g) && right_content_col(g) >= 0) by {
        let wx = choose|x: int| 0 <= x < g[wy].len() && (#[trigger] g[wy][x]).is_opaque();
        assert(col_has_content(g, wx));
        if left_content_col(g) == grid_width(g) {
            assert(!col_has_content(g, wx));
        }
        if right_content_col(g) == -1 {
            assert(!col_has_content(g, wx));
        }
    }
}

/// A grid has content exactly when the scan for its first content row finds one.
pub proof fn lemma_content_iff(g: Seq<Seq<Pixel>>)
    ensures
        grid_has_content(g) <==> top_content_row(g) < g.len(),
{
    lemma_first_content_row_props(g, 0);
    if top_content_row(g) < g.len() {
        assert(row_has_content(g[top_content_row(g)]));
    }
    if grid_has_content(g) {
        let wy = choose|y: int| 0 <= y < g.len() && row_has_content(#[trigger] g[y]);
        if top_content_row(g) == g.len() {
            assert(!row_has_content(g[wy]));
        }
    }
}

/// Any rectangle that contains every opaque pixel of `g` and holds an opaque
/// pixel on each of its four borders is the one that `crop_grid` extracts:
/// the minimal bounding rectangle is unique.
pub proof fn lemma_bounding_box_unique(g: Seq<Seq<Pixel>>, y0: int, y1: int, x0: int, x1: int)
    requires
        grid_wf(g),
        0 <= y0 <= y1 < g.len(),
        0 <= x0 <= x1 < grid_width(g),
        forall|y: int, x: int|
            0 <= y < g.len() && 0 <= x < g[y].len() && (#[trigger] g[y][x]).is_opaque() ==> {
                &&& y0 <= y <= y1
                &&& x0 <= x <= x1
            },
        row_has_content(g[y0]),
        row_has_content(g[y1]),
        col_has_content(g, x0),
        col_has_content(g, x1),
    ensures
        y0 == top_content_row(g),
        y1 == bottom_content_row(g),
        x0 == left_content_col(g),
        x1 == right_content_col(g),
{
    assert(grid_has_content(g));
    lemma_content_box(g);
    let ty = top_content_row(g);
    let by_ = bottom_content_row(g);
    let lx = left_content_col(g);
    let rx = right_content_col(g);
    // The box borders hold opaque pixels, so they lie inside the content box;
    // the content box borders hold opaque pixels, so they lie inside the box.
    let wx0 = choose|x: int| 0 <= x < g[y0].len() && (#[trigger] g[y0][x]).is_opaque();
    let wx1 = choose|x: int| 0 <= x < g[y1].len() && (#[trigger] g[y1][x]).is_opaque();
    assert(ty <= y0 && y1 <= by_);
    let wty = choose|x: int| 0 <= x < g[ty].len() && (#[trigger] g[ty][x]).is_opaque();
    let wby = choose|x: int| 0 <= x < g[by_].len() && (#[trigger] g[by_][x]).is_opaque();
    assert(y0 <= ty && by_ <= y1);
    let wyl = choose|y: int|
        0 <= y < g.len() && 0 <= x0 < g[y].len() && (#[trigger] g[y][x0]).is_opaque();
    let wyr = choose|y: int|
        0 <= y < g.len() && 0 <= x1 < g[y].len() && (#[trigger] g[y][x1]).is_opaque();
    assert(lx <= x0 && x1 <= rx);
    let wlx = choose|y: int|
        0 <= y < g.len() && 0 <= lx < g[y].len() && (#[trigger] g[y][lx]).is_opaque();
    let wrx = choose|y: int|
        0 <= y < g.len() && 0 <= rx < g[y].len() && (#[trigger] g[y][rx]).is_opaque();
    assert(x0 <= lx && rx <= x1);
}

fn row_has_content_exec(row: &Vec<Pixel>) -> (b: bool)
    ensures
        b == row_has_content(row@),
{
    let mut x: usize = 0;
    while x < row.len()
        invariant
            x <= row@.len(),
            forall|i: int| 0 <= i < x ==> !(#[trigger] row@[i]).is_opaque(),
        decreases row@.len() - x,
    {
        if row[x].a != 0 {
            assert(row@[x as int].is_opaque());
            return true;
        }
        x += 1;
    }
    false
}

/// A well-formed image with content is a well-formed grid whose common row
/// length is the image's width.
pub proof fn lemma_wf_grid(img: &PixelImage)
    requires
        img.wf(),
        grid_has_content(img@),
    ensures
        grid_wf(img@),
        grid_width(img@) == img.width,
        img@.len() == img.height,
{
    let g = img@;
    let wy = choose|y: int| 0 <= y < g.len() && row_has_content(#[trigger] g[y]);
    assert(g.len() > 0);
    assert(g[0].len() == img.width);
}

fn col_has_content_exec(img: &PixelImage, x: usize) -> (b: bool)
    requires
        img.wf(),
        x < img.width,
    ensures
        b == col_has_content(img@, x as int),
{
    let mut y: usize = 0;
    while y < img.height
        invariant
            y <= img.height,
            img.wf(),
            x < img.width,
            forall|i: int| 0 <= i < y ==> !(#[trigger] img@[i])[x as int].is_opaque(),
        decreases img.height - y,
    {
        if img.rows[y][x].a != 0 {
            assert((img@[y as int])[x as int].is_opaque());
            return true;
        }
        y += 1;
    }
    false
}

fn find_top(img: &PixelImage) -> (r: usize)
    requires
        img.wf(),
    ensures
        r as int == top_content_row(img@),
        r <= img.height,
{
    let ghost g = img@;
    let mut y: usize = 0;
    while y < img.height
        invariant
            y <= img.height,
            img.wf(),
            g == img@,
            top_content_row(g) == first_content_row_from(g, y as int),
        decreases img.height - y,
    {
        if row_has_content_exec(&img.rows[y]) {
            assert(first_content_row_from(g, y as int) == y);
            return y;
        }
        assert(first_content_row_from(g, y as int) == first_content_row_from(g, y as int + 1));
        y += 1;
    }
    assert(first_content_row_from(g, y as int) == g.len());
    y
}

fn find_bottom(img: &PixelImage) -> (r: usize)
    requires
        img.wf(),
        grid_has_content(img@),
    ensures
        r as int == bottom_content_row(img@),
{
    let ghost g = img@;
    let mut y: usize = img.height;
    while y > 0
        invariant
            y <= img.height,
            img.wf(),
            g == img@,
            grid_has_content(g),
            bottom_content_row(g) == last_content_row_from(g, y as int - 1),
        decreases y,
    {
        if row_has_content_exec(&img.rows[y - 1]) {
            assert(last_content_row_from(g, y as int - 1) == y - 1);
            return y - 1;
        }
        assert(last_content_row_from(g, y as int - 1) == last_content_row_from(g, y as int - 2));
        y -= 1;
    }
    proof {
        assert(bottom_content_row(g) == -1);
        lemma_wf_grid(img);
        lemma_content_box(g);
        assert(false);
    }
    0
}

fn find_left(img: &PixelImage) -> (r: usize)
    requires
        img.wf(),
        grid_has_content(img@),
    ensures
        r as int == left_content_col(img@),
{
    let ghost g = img@;
    proof {
        lemma_wf_grid(img);
        lemma_content_box(g);
    }
    let mut x: usize = 0;
    while x < img.width
        invariant
            x <= img.width,
            img.wf(),
            g == img@,
            grid_has_content(g),
            grid_width(g) == img.width,
            left_content_col(g) == first_content_col_from(g, x as int),
        decreases img.width - x,
    {
        if col_has_content_exec(img, x) {
            assert(first_content_col_from(g, x as int) == x);
            return x;
        }
        assert(first_content_col_from(g, x as int) == first_content_col_from(g, x as int + 1));
        x += 1;
    }
    proof {
        assert(left_content_col(g) == grid_width(g));
        lemma_wf_grid(img);
        lemma_content_box(g);
        assert(false);
    }
    0
}

fn find_right(img: &PixelImage) -> (r: usize)
    requires
        img.wf(),
        grid_has_content(img@),
    ensures
        r as int == right_content_col(img@),
{
    let ghost g = img@;
    proof {
        lemma_wf_grid(img);
        lemma_content_box(g);
    }
    let mut x: usize = img.width;
    while x > 0
        invariant
            x <= img.width,
            img.wf(),
            g == img@,
            grid_has_content(g),
            grid_width(g) == img.width,
            right_content_col(g) == last_content_col_from(g, x as int - 1),
        decreases x,
    {
        if col_has_content_exec(img, x - 1) {
            assert(last_content_col_from(g, x as int - 1) == x - 1);
            return x - 1;
        }
        assert(last_content_col_from(g, x as int - 1) == last_content_col_from(g, x as int - 2));
        x -= 1;
    }
    proof {
        assert(right_content_col(g) == -1);
        lemma_wf_grid(img);
        lemma_content_box(g);
        assert(false);
    }
    0
}

/// Reduces a bitmap to the minimal rectangle enclosing its opaque pixels.
/// Fails with `EmptyContent` exactly when every pixel is fully transparent.
pub fn crop(img: &PixelImage) -> (result: Result<PixelImage, CoreError>)
    requires
        img.wf(),
    ensures
        match result {
            Ok(c) => {
                &&& grid_has_content(img@)
                &&& c.wf()
                &&& c@ == crop_grid(img@)
                &&& c.height == bottom_content_row(img@) - top_content_row(img@) + 1
                &&& c.width == right_content_col(img@) - left_content_col(img@) + 1
            },
            Err(e) => !grid_has_content(img@) && e is EmptyContent,
        },
{
    let ghost g = img@;
    let y0 = find_top(img);
    if y0 == img.height {
        proof {
            lemma_content_iff(g);
        }
        return Err(CoreError::EmptyContent);
    }
    proof {
        lemma_content_iff(g);
        lemma_wf_grid(img);
        lemma_content_box(g);
    }
    let y1 = find_bottom(img);
    let x0 = find_left(img);
    let x1 = find_right(img);
    let out_h = y1 - y0 + 1;
    let out_w = x1 - x0 + 1;
    let mut out_rows: Vec<Vec<Pixel>> = Vec::new();
    let mut dy: usize = 0;
    while dy < out_h
        invariant
            dy <= out_h,
            img.wf(),
            g == img@,
            grid_has_content(g),
            y0 as int == top_content_row(g),
            y1 as int == bottom_content_row(g),
            x0 as int == left_content_col(g),
            x1 as int == right_content_col(g),
            0 <= y0 <= y1 < img.height,
            0 <= x0 <= x1 < img.width,
            grid_width(g) == img.width,
            out_h == y1 - y0 + 1,
            out_w == x1 - x0 + 1,
            out_rows@.len() == dy,
            forall|i: int| 0 <= i < dy ==> (#[trigger] out_rows@[i])@ == crop_grid(g)[i],
        decreases out_h - dy,
    {
        let mut row: Vec<Pixel> = Vec::new();
        let mut dx: usize = 0;
        while dx < out_w
            invariant
                dx <= out_w,
                img.wf(),
                g == img@,
                0 <= y0 <= y1 < img.height,
                0 <= x0 <= x1 < img.width,
                grid_width(g) == img.width,
                out_w == x1 - x0 + 1,
                dy < out_h == y1 - y0 + 1,
                row@.len() == dx,
                forall|j: int| 0 <= j < dx ==> row@[j] == g[y0 + dy][x0 + j],
            decreases out_w - dx,
        {
            let px = img.rows[y0 + dy][x0 + dx];
            row.push(px);
            dx += 1;
        }
        proof {
            assert(row@ =~= crop_grid(g)[dy as int]);
        }
        out_rows.push(row);
        dy += 1;
    }
    let cropped = PixelImage { width: out_w, height: out_h, rows: out_rows };
    proof {
        assert(cropped@ =~= crop_grid(g));
    }
    Ok(cropped)
}

/// Cropping an already cropped grid changes nothing: the result of
/// `crop_grid` still has content, and its own bounding box is the whole of
/// it, so a second crop extracts it unchanged.
pub proof fn lemma_crop_idempotent(g: Seq<Seq<Pixel>>)
    requires
        grid_wf(g),
        grid_has_content(g),
    ensures
        grid_wf(crop_grid(g)),
        grid_has_content(crop_grid(g)),
        crop_grid(crop_grid(g)) == crop_grid(g),
{
    lemma_content_box(g);
    let y0 = top_content_row(g);
    let y1 = bottom_content_row(g);
    let x0 = left_content_col(g);
    let x1 = right_content_col(g);
    let c = crop_grid(g);
    assert(grid_width(c) == x1 - x0 + 1);
    assert(grid_wf(c));
    // Every border of the crop holds an opaque pixel.
    let wty = choose|x: int| 0 <= x < g[y0].len() && (#[trigger] g[y0][x]).is_opaque();
    assert(c[0][wty - x0].is_opaque());
    assert(row_has_content(c[0]));
    assert(grid_has_content(c));
    let wby = choose|x: int| 0 <= x < g[y1].len() && (#[trigger] g[y1][x]).is_opaque();
    assert(c[c.len() - 1][wby - x0].is_opaque());
    assert(row_has_content(c[c.len() - 1]));
    let wlx = choose|y: int|
        0 <= y < g.len() && 0 <= x0 < g[y].len() && (#[trigger] g[y][x0]).is_opaque();
    assert(c[wlx - y0][0].is_opaque());
    assert(col_has_content(c, 0));
    let wrx = choose|y: int|
        0 <= y < g.len() && 0 <= x1 < g[y].len() && (#[trigger] g[y][x1]).is_opaque();
    assert(c[wrx - y0][x1 - x0].is_opaque());
    assert(col_has_content(c, x1 - x0));
    // So the bounding box of the crop is the whole crop.
    lemma_bounding_box_unique(c, 0, c.len() - 1, 0, x1 - x0);
    assert(crop_grid(c) =~~= c);
}

} // verus!
