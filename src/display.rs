use vstd::prelude::*;

verus! {

/// Colour of the dotted background grid.
pub const GRID_COLOR: u32 = 0xFF333333;

/// Spacing, in pixels, between two dots of the background grid.
pub const GRID_SPACING: usize = 10;

/// A frame: packed ARGB colours, row-major, `width * height` cells.
/// The cell at `(x, y)` is stored at `width * y + x`.
pub struct ColorBuffer {
    pub width: usize,
    pub height: usize,
    pub pixels: Vec<u32>,
}

impl ColorBuffer {
    /// The buffer holds exactly one cell for each coordinate of the frame,
    /// and their count fits in a `usize`.
    pub open spec fn wf(&self) -> bool {
        self.pixels@.len() == self.width * self.height && self.width * self.height <= usize::MAX
    }

    /// A buffer of `width * height` cells, all `color`; `None` when that
    /// count does not fit in a `usize`.
    pub fn new(width: usize, height: usize, color: u32) -> (r: Option<ColorBuffer>)
        ensures
            (width * height <= usize::MAX) <==> r.is_some(),
            r matches Some(b) ==> b.wf() && b.width == width && b.height == height
                && b.pixels@ == Seq::new((width * height) as nat, |i: int| color),
    {
        let n = match width.checked_mul(height) {
            Some(n) => n,
            None => return None,
        };
        let pixels = filled(n, color);
        Some(ColorBuffer { width, height, pixels })
    }
}

/// `n` cells, all `color`.
pub(crate) fn filled(n: usize, color: u32) -> (r: Vec<u32>)
    ensures
        r@ == Seq::new(n as nat, |i: int| color),
{
    let mut pixels: Vec<u32> = Vec::new();
    let mut i: usize = 0;
    while i < n
        invariant
            i <= n,
            pixels@ == Seq::new(i as nat, |j: int| color),
        decreases n - i,
    {
        pixels.push(color);
        i += 1;
        assert(pixels@ =~= Seq::new(i as nat, |j: int| color));
    }
    pixels
}

/// Overwrites every cell with `color`.
pub fn clear_color_buffer(buf: &mut ColorBuffer, color: u32)
    requires
        old(buf).wf(),
    ensures
        final(buf).wf(),
        final(buf).width == old(buf).width,
        final(buf).height == old(buf).height,
        final(buf).pixels@ == Seq::new(old(buf).pixels@.len(), |i: int| color),
{
    let n = buf.pixels.len();
    let mut i: usize = 0;
    while i < n
        invariant
            i <= n,
            n == buf.pixels@.len(),
            buf.width == old(buf).width,
            buf.height == old(buf).height,
            n == old(buf).pixels@.len(),
            forall|j: int| 0 <= j < i ==> buf.pixels@[j] == color,
        decreases n - i,
    {
        buf.pixels.set(i, color);
        i += 1;
    }
    assert(buf.pixels@ =~= Seq::new(n as nat, |i: int| color));
}

/// Whether `(x, y)` carries a dot of the background grid.
pub open spec fn on_grid(x: int, y: int) -> bool {
    x % (GRID_SPACING as int) == 0 && y % (GRID_SPACING as int) == 0
}

/// The cells `s` of a frame with rows of `w` cells, after every grid cell is
/// set to `GRID_COLOR`.
pub open spec fn gridded(s: Seq<u32>, w: int) -> Seq<u32> {
    Seq::new(s.len(), |i: int| if on_grid(i % w, i / w) { GRID_COLOR } else { s[i] })
}

/// Whether `(x, y)` is in the rectangle of size `rw` by `rh` whose top-left
/// cell is `(x0, y0)`.
pub open spec fn in_rect(px: int, py: int, x0: int, y0: int, rw: int, rh: int) -> bool {
    x0 <= px < x0 + rw && y0 <= py < y0 + rh
}

/// The cells `s` of a frame with rows of `w` cells, after every cell of the
/// rectangle `(x0, y0, rw, rh)` that lies in the frame is set to `color`.
pub open spec fn rect_painted(
    s: Seq<u32>,
    w: int,
    x0: int,
    y0: int,
    rw: int,
    rh: int,
    color: u32,
) -> Seq<u32> {
    Seq::new(s.len(), |i: int| if in_rect(i % w, i / w, x0, y0, rw, rh) { color } else { s[i] })
}

/// No multiple of `GRID_SPACING` lies strictly between two neighbouring ones.
proof fn lemma_between_dots(a: int, c: int)
    requires
        a % (GRID_SPACING as int) == 0,
        a < c < a + GRID_SPACING as int,
    ensures
        c % (GRID_SPACING as int) != 0,
{
}

/// A cell index splits into its column and its row.
proof fn lemma_split_index(w: int, i: int)
    requires
        w > 0,
        0 <= i,
    ensures
        i == w * (i / w) + i % w,
        0 <= i % w < w,
        0 <= i / w,
{
    vstd::arithmetic::div_mod::lemma_fundamental_div_mod(i, w);
    vstd::arithmetic::div_mod::lemma_mod_bound(i, w);
    vstd::arithmetic::div_mod::lemma_div_pos_is_pos(i, w);
}

/// The index of `(x, y)` gives back its column and its row, and lies in a
/// frame of `h` rows.
proof fn lemma_index_of(w: int, h: int, x: int, y: int)
    requires
        0 <= x < w,
        0 <= y < h,
    ensures
        (w * y + x) % w == x,
        (w * y + x) / w == y,
        0 <= w * y + x < w * h,
{
    vstd::arithmetic::mul::lemma_mul_is_commutative(w, y);
    vstd::arithmetic::div_mod::lemma_fundamental_div_mod_converse(w * y + x, w, y, x);
    assert(0 <= w * y + x < w * h) by (nonlinear_arith)
        requires
            0 <= x < w,
            0 <= y < h,
    ;
}

/// Every cell of a frame with `h` rows lies in one of those rows.
proof fn lemma_row_in_frame(w: int, h: int, i: int)
    requires
        w > 0,
        0 <= i < w * h,
    ensures
        i / w < h,
{
    lemma_split_index(w, i);
    let y = i / w;
    if y >= h {
        assert(w * y >= w * h) by (nonlinear_arith)
            requires
                y >= h,
                w > 0,
        ;
    }
}

/// Writes `color` at `(x, y)` when that cell is in the frame; does nothing
/// otherwise.
pub fn draw_pixel(x: usize, y: usize, color: u32, buf: &mut ColorBuffer)
    requires
        old(buf).wf(),
    ensures
        final(buf).wf(),
        final(buf).width == old(buf).width,
        final(buf).height == old(buf).height,
        final(buf).pixels@ == if x < old(buf).width && y < old(buf).height {
            old(buf).pixels@.update(old(buf).width * y + x, color)
        } else {
            old(buf).pixels@
        },
{
    if x < buf.width && y < buf.height {
        proof {
            lemma_index_of(buf.width as int, buf.height as int, x as int, y as int);
        }
        let i = buf.width * y + x;
        buf.pixels.set(i, color);
    }
}

/// Whether `(cx, cy)` comes before `(col, row)` in row-major scan order.
pub open spec fn scanned(cx: int, cy: int, col: int, row: int) -> bool {
    cy < row || (cy == row && cx < col)
}

/// `s` with the cells of the rectangle `(x0, y0, rw, rh)` that come before
/// `(col, row)` in scan order set to `color`: a rectangle drawn up to there.
pub open spec fn rect_partial(
    s: Seq<u32>,
    w: int,
    x0: int,
    y0: int,
    rw: int,
    rh: int,
    color: u32,
    col: int,
    row: int,
) -> Seq<u32> {
    Seq::new(
        s.len(),
        |i: int|
            if in_rect(i % w, i / w, x0, y0, rw, rh) && scanned(i % w, i / w, col, row) {
                color
            } else {
                s[i]
            },
    )
}

/// `s` with the grid cells that come before `(col, row)` in scan order set
/// to `GRID_COLOR`: a grid drawn up to there.
pub open spec fn grid_partial(s: Seq<u32>, w: int, col: int, row: int) -> Seq<u32> {
    Seq::new(
        s.len(),
        |i: int|
            if on_grid(i % w, i / w) && scanned(i % w, i / w, col, row) {
                GRID_COLOR
            } else {
                s[i]
            },
    )
}

/// Fills the rectangle of size `width` by `height` whose top-left cell is
/// `(x, y)` with `color`. Cells of the rectangle that fall outside the frame
/// are skipped.
pub fn draw_rect(buf: &mut ColorBuffer, x: u32, y: u32, width: u32, height: u32, color: u32)
    requires
        old(buf).wf(),
    ensures
        final(buf).wf(),
        final(buf).width == old(buf).width,
        final(buf).height == old(buf).height,
        final(buf).pixels@ == rect_painted(
            old(buf).pixels@,
            old(buf).width as int,
            x as int,
            y as int,
            width as int,
            height as int,
            color,
        ),
{
    let w = buf.width;
    let h = buf.height;
    let ghost s0 = buf.pixels@;
    let ghost (wi, xi, yi, rwi, rhi) = (w as int, x as int, y as int, width as int, height as int);
    let ghost target = rect_painted(s0, wi, xi, yi, rwi, rhi, color);
    let x0 = x as usize;
    let y0 = y as usize;
    let rw = width as usize;
    let rh = height as usize;
    if x0 >= w || y0 >= h {
        assert forall|i: int| 0 <= i < s0.len() implies #[trigger] target[i] == s0[i] by {
            lemma_split_index(wi, i);
            lemma_row_in_frame(wi, h as int, i);
        }
        assert(buf.pixels@ =~= target);
        return;
    }
    let x_end: usize = if rw < w - x0 { x0 + rw } else { w };
    let y_end: usize = if rh < h - y0 { y0 + rh } else { h };
    assert forall|i: int| 0 <= i < s0.len() implies #[trigger] rect_partial(
        s0, wi, xi, yi, rwi, rhi, color, 0, yi)[i] == s0[i] by {
        lemma_split_index(wi, i);
    }
    assert(buf.pixels@ =~= rect_partial(s0, wi, xi, yi, rwi, rhi, color, 0, yi));
    let mut row: usize = y0;
    while row < y_end
        invariant
            buf.wf(),
            buf.width == w,
            buf.height == h,
            s0.len() == w * h,
            xi == x0 <= x_end <= w,
            x0 < w == wi,
            yi == y0 <= row <= y_end <= h,
            x_end == if xi + rwi < wi { xi + rwi } else { wi },
            y_end == if yi + rhi < h { yi + rhi } else { h as int },
            buf.pixels@ == rect_partial(s0, wi, xi, yi, rwi, rhi, color, 0, row as int),
        decreases y_end - row,
    {
        let mut col: usize = x0;
        while col < x_end
            invariant
                buf.wf(),
                buf.width == w,
                buf.height == h,
                s0.len() == w * h,
                xi == x0 <= col <= x_end <= w == wi,
                x0 < w,
                yi == y0 <= row < y_end <= h,
                x_end == if xi + rwi < wi { xi + rwi } else { wi },
                y_end == if yi + rhi < h { yi + rhi } else { h as int },
                buf.pixels@ == rect_partial(s0, wi, xi, yi, rwi, rhi, color, col as int, row as int),
            decreases x_end - col,
        {
            proof {
                lemma_index_of(wi, h as int, col as int, row as int);
            }
            let k = w * row + col;
            let ghost before = buf.pixels@;
            buf.pixels.set(k, color);
            let ghost after = rect_partial(s0, wi, xi, yi, rwi, rhi, color, col + 1, row as int);
            assert forall|i: int| 0 <= i < s0.len() implies #[trigger] buf.pixels@[i] == after[i] by {
                lemma_split_index(wi, i);
                if i != k {
                    assert(!(i % wi == col && i / wi == row));
                }
            }
            assert(buf.pixels@ =~= after);
            col += 1;
        }
        let ghost next = rect_partial(s0, wi, xi, yi, rwi, rhi, color, 0, row + 1);
        assert forall|i: int| 0 <= i < s0.len() implies #[trigger] buf.pixels@[i] == next[i] by {
            lemma_split_index(wi, i);
        }
        assert(buf.pixels@ =~= next);
        row += 1;
    }
    assert forall|i: int| 0 <= i < s0.len() implies #[trigger] buf.pixels@[i] == target[i] by {
        lemma_split_index(wi, i);
        lemma_row_in_frame(wi, h as int, i);
    }
    assert(buf.pixels@ =~= target);
}

/// Draws the dotted background grid: every cell whose column and row are
/// both multiples of `GRID_SPACING` becomes `GRID_COLOR`; the others keep
/// their colour.
pub fn draw_grid(buf: &mut ColorBuffer)
    requires
        old(buf).wf(),
    ensures
        final(buf).wf(),
        final(buf).width == old(buf).width,
        final(buf).height == old(buf).height,
        final(buf).pixels@ == gridded(old(buf).pixels@, old(buf).width as int),
{
    let w = buf.width;
    let h = buf.height;
    let ghost s0 = buf.pixels@;
    let ghost wi = w as int;
    if w == 0 {
        assert(s0.len() == 0) by (nonlinear_arith)
            requires
                s0.len() == w * h,
                w == 0,
        ;
        assert(buf.pixels@ =~= gridded(s0, wi));
        return;
    }
    assert(buf.pixels@ =~= grid_partial(s0, wi, 0, 0));
    let mut y: usize = 0;
    while y < h
        invariant
            buf.wf(),
            buf.width == w,
            buf.height == h,
            s0.len() == w * h,
            wi == w > 0,
            y <= h,
            y % GRID_SPACING == 0 || y == h,
            buf.pixels@ == grid_partial(s0, wi, 0, y as int),
        decreases h - y,
    {
        let mut x: usize = 0;
        while x < w
            invariant
                buf.wf(),
                buf.width == w,
                buf.height == h,
                s0.len() == w * h,
                wi == w > 0,
                x <= w,
                y < h,
                y % GRID_SPACING == 0,
                x % GRID_SPACING == 0 || x == w,
                buf.pixels@ == grid_partial(s0, wi, x as int, y as int),
            decreases w - x,
        {
            draw_pixel(x, y, GRID_COLOR, buf);
            let ghost k = w * y + x;
            let next: usize = if w - x > GRID_SPACING { x + GRID_SPACING } else { w };
            proof {
                lemma_index_of(wi, h as int, x as int, y as int);
            }
            let ghost after = grid_partial(s0, wi, next as int, y as int);
            assert forall|i: int| 0 <= i < s0.len() implies #[trigger] buf.pixels@[i] == after[i] by {
                lemma_split_index(wi, i);
                if i != k {
                    assert(!(i % wi == x && i / wi == y));
                    if i / wi == y && x < i % wi < next {
                        lemma_between_dots(x as int, i % wi);
                    }
                }
            }
            assert(buf.pixels@ =~= after);
            x = next;
        }
        let next: usize = if h - y > GRID_SPACING { y + GRID_SPACING } else { h };
        let ghost after = grid_partial(s0, wi, 0, next as int);
        assert forall|i: int| 0 <= i < s0.len() implies #[trigger] buf.pixels@[i] == after[i] by {
            lemma_split_index(wi, i);
            if y < i / wi < next {
                lemma_between_dots(y as int, i / wi);
            }
        }
        assert(buf.pixels@ =~= after);
        y = next;
    }
    assert forall|i: int| 0 <= i < s0.len() implies #[trigger] buf.pixels@[i] == gridded(s0, wi)[i] by {
        lemma_split_index(wi, i);
        lemma_row_in_frame(wi, h as int, i);
    }
    assert(buf.pixels@ =~= gridded(s0, wi));
}

/// Drawing the grid a second time leaves the cells as the first time left
/// them: grid writes overwrite, they never accumulate.
pub proof fn lemma_grid_idempotent(s: Seq<u32>, w: int)
    ensures
        gridded(gridded(s, w), w) == gridded(s, w),
{
    assert(gridded(gridded(s, w), w) =~= gridded(s, w));
}

/// Byte `k` (0 to 3) of `v`, counted from the least significant end.
pub open spec fn byte_of(v: u32, k: int) -> u8 {
    ((v as nat / vstd::arithmetic::power2::pow2((8 * k) as nat)) % 256) as u8
}

/// The values of `p` laid out four bytes each, least significant first.
pub open spec fn le_bytes(p: Seq<u32>) -> Seq<u8> {
    Seq::new(4 * p.len(), |j: int| byte_of(p[j / 4], j % 4))
}

/// The values of `p` laid out four bytes each, most significant first.
pub open spec fn be_bytes(p: Seq<u32>) -> Seq<u8> {
    Seq::new(4 * p.len(), |j: int| byte_of(p[j / 4], 3 - j % 4))
}

/// Relies on bytemuck::cast_slice from `u32` to `u8`: the same memory seen
/// as bytes, four to each value in the target's byte order, which is little-
/// or big-endian (the size of `u8` divides that of `u32`, so the cast does
/// not fail).
#[verifier::external_body]
fn pixels_as_bytes(p: &[u32]) -> (r: &[u8])
    ensures
        r@.len() == 4 * p@.len(),
        r@ == le_bytes(p@) || r@ == be_bytes(p@),
{
    bytemuck::cast_slice(p)
}

impl ColorBuffer {
    /// The cells as raw bytes in memory order, row-major, four to a cell in
    /// the machine's byte order, as a display texture takes them.
    pub fn as_bytes(&self) -> (r: &[u8])
        ensures
            r@.len() == 4 * self.pixels@.len(),
            r@ == le_bytes(self.pixels@) || r@ == be_bytes(self.pixels@),
    {
        pixels_as_bytes(self.pixels.as_slice())
    }
}

} // verus!
