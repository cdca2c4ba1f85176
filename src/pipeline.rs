use vstd::prelude::*;
use crate::display::{draw_grid, draw_rect, filled, gridded, in_rect, rect_painted, ColorBuffer};
use crate::triangle::{ScreenPoint, Triangle};

verus! {

/// Frames per second that the loop aims at.
pub const FPS: u32 = 30;

/// Time budget of one frame, in milliseconds.
pub const FRAME_TARGET_TIME: u32 = 1000 / FPS;

/// Side, in pixels, of the square marker drawn at each projected vertex.
pub const MARKER_SIZE: u32 = 3;

/// Colour of the vertex markers.
pub const MARKER_COLOR: u32 = 0xFFFFFF00;

/// Colour a frame is cleared to once it has been shown.
pub const BACKGROUND_COLOR: u32 = 0xFF000000;

/// How long to sleep before the next frame, given the clock now and at the
/// previous frame (both in milliseconds): what is left of the frame budget,
/// or `None` when nothing is left or the clock went backwards.
pub fn time_to_wait(now: u32, previous_frame_time: u32) -> (r: Option<u32>)
    ensures
        ({
            let wait = FRAME_TARGET_TIME - (now - previous_frame_time);
            r == if 0 < wait <= FRAME_TARGET_TIME {
                Some(wait as u32)
            } else {
                None::<u32>
            }
        }),
{
    if now >= previous_frame_time && now - previous_frame_time < FRAME_TARGET_TIME {
        Some(FRAME_TARGET_TIME - (now - previous_frame_time))
    } else {
        None
    }
}

/// The cells `s` of a frame with rows of `w` cells, after a marker is
/// drawn with its top-left cell at `p`.
pub open spec fn marked(s: Seq<u32>, w: int, p: ScreenPoint) -> Seq<u32> {
    rect_painted(s, w, p.x as int, p.y as int, MARKER_SIZE as int, MARKER_SIZE as int, MARKER_COLOR)
}

/// The cells `s` after the three vertex markers of each triangle of `ts`
/// are drawn, triangle after triangle; later markers overwrite earlier ones.
pub open spec fn triangles_marked(s: Seq<u32>, w: int, ts: Seq<Triangle>) -> Seq<u32>
    decreases ts.len(),
{
    if ts.len() == 0 {
        s
    } else {
        let t = ts.last();
        let before = triangles_marked(s, w, ts.drop_last());
        marked(marked(marked(before, w, t.point@[0]), w, t.point@[1]), w, t.point@[2])
    }
}

fn draw_marker(buf: &mut ColorBuffer, p: ScreenPoint)
    requires
        old(buf).wf(),
    ensures
        final(buf).wf(),
        final(buf).width == old(buf).width,
        final(buf).height == old(buf).height,
        final(buf).pixels@ == marked(old(buf).pixels@, old(buf).width as int, p),
{
    draw_rect(buf, p.x, p.y, MARKER_SIZE, MARKER_SIZE, MARKER_COLOR);
}

/// Whether the marker drawn at `p` covers cell `i` of a frame with rows of
/// `w` cells.
pub open spec fn marker_covers(p: ScreenPoint, w: int, i: int) -> bool {
    in_rect(i % w, i / w, p.x as int, p.y as int, MARKER_SIZE as int, MARKER_SIZE as int)
}

/// Whether some vertex marker of some triangle of `ts` covers cell `i`.
pub open spec fn covered(ts: Seq<Triangle>, w: int, i: int) -> bool {
    exists|t: int, j: int| 0 <= t < ts.len() && 0 <= j < 3 && #[trigger] marker_covers(ts[t].point@[j], w, i)
}

/// After the markers of `ts` are drawn, a cell has the marker colour where
/// some marker covers it, and keeps its colour everywhere else.
pub proof fn lemma_marked_cells(s: Seq<u32>, w: int, ts: Seq<Triangle>)
    ensures
        triangles_marked(s, w, ts).len() == s.len(),
        forall|i: int|
            0 <= i < s.len() ==> #[trigger] triangles_marked(s, w, ts)[i] == if covered(ts, w, i) {
                MARKER_COLOR
            } else {
                s[i]
            },
    decreases ts.len(),
{
    if ts.len() > 0 {
        let pre = ts.drop_last();
        let t = ts.last();
        let last = ts.len() - 1;
        lemma_marked_cells(s, w, pre);
        assert forall|i: int| 0 <= i < s.len() implies #[trigger] triangles_marked(s, w, ts)[i] == if covered(ts, w, i) {
            MARKER_COLOR
        } else {
            s[i]
        } by {
            let by_last = marker_covers(ts[last].point@[0], w, i) || marker_covers(ts[last].point@[1], w, i)
                || marker_covers(ts[last].point@[2], w, i);
            if covered(pre, w, i) {
                let (a, j) = choose|a: int, j: int| 0 <= a < pre.len() && 0 <= j < 3 && #[trigger] marker_covers(pre[a].point@[j], w, i);
                assert(pre[a] == ts[a]);
                assert(covered(ts, w, i));
            }
            if covered(ts, w, i) && !by_last {
                let (a, j) = choose|a: int, j: int| 0 <= a < ts.len() && 0 <= j < 3 && #[trigger] marker_covers(ts[a].point@[j], w, i);
                assert(a != last);
                assert(pre[a] == ts[a]);
                assert(covered(pre, w, i));
            }
        }
    }
}

/// Runs the render phase of a frame: draws the background grid, then a
/// marker at each vertex of each triangle (the last write to a cell wins;
/// nothing is blended), and returns that frame for display. `buf` is left
/// cleared to `BACKGROUND_COLOR`, ready for the next frame.
pub fn render(buf: &mut ColorBuffer, triangles: &[Triangle]) -> (frame: ColorBuffer)
    requires
        old(buf).wf(),
    ensures
        frame.wf(),
        frame.width == old(buf).width,
        frame.height == old(buf).height,
        frame.pixels@ == triangles_marked(
            gridded(old(buf).pixels@, old(buf).width as int),
            old(buf).width as int,
            triangles@,
        ),
        forall|i: int|
            0 <= i < frame.pixels@.len() ==> #[trigger] frame.pixels@[i] == if covered(
                triangles@,
                old(buf).width as int,
                i,
            ) {
                MARKER_COLOR
            } else {
                gridded(old(buf).pixels@, old(buf).width as int)[i]
            },
        final(buf).wf(),
        final(buf).width == old(buf).width,
        final(buf).height == old(buf).height,
        final(buf).pixels@ == Seq::new(old(buf).pixels@.len(), |i: int| BACKGROUND_COLOR),
{
    draw_grid(buf);
    let ghost w = buf.width as int;
    let ghost start = buf.pixels@;
    let mut k: usize = 0;
    while k < triangles.len()
        invariant
            k <= triangles@.len(),
            buf.wf(),
            buf.width == old(buf).width,
            buf.height == old(buf).height,
            w == buf.width as int,
            start == gridded(old(buf).pixels@, w),
            buf.pixels@ == triangles_marked(start, w, triangles@.subrange(0, k as int)),
        decreases triangles@.len() - k,
    {
        let t = triangles[k];
        draw_marker(buf, t.point[0]);
        draw_marker(buf, t.point[1]);
        draw_marker(buf, t.point[2]);
        assert(triangles@.subrange(0, k + 1).drop_last() =~= triangles@.subrange(0, k as int));
        k += 1;
    }
    assert(triangles@.subrange(0, k as int) =~= triangles@);
    proof {
        lemma_marked_cells(start, w, triangles@);
    }
    let mut pixels = filled(buf.pixels.len(), BACKGROUND_COLOR);
    std::mem::swap(&mut buf.pixels, &mut pixels);
    ColorBuffer { width: buf.width, height: buf.height, pixels }
}

} // verus!
