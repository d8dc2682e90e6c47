//! 16 × 24 pixel sprites with animation frames, connected flood fill and the
//! sprite editor's undo/redo history.
use vstd::prelude::*;

verus! {

/// Sprite width in pixels.
pub const SPRITE_W: usize = 16;
/// Sprite height in pixels.
pub const SPRITE_H: usize = 24;
/// Pixels in one frame.
pub const FRAME_LEN: usize = 384;

/// Whether two colours are the same, component by component.
pub fn same_color(a: [u8; 4], b: [u8; 4]) -> (r: bool)
    ensures
        r == (a == b),
{
    let r = a[0] == b[0] && a[1] == b[1] && a[2] == b[2] && a[3] == b[3];
    proof {
        if r {
            assert(a =~= b);
        }
    }
    r
}

/// A pixel position inside a 16 × 24 frame.
pub open spec fn in_grid(p: (int, int)) -> bool {
    0 <= p.0 < 16 && 0 <= p.1 < 24
}

/// Row-major index of a pixel position.
pub open spec fn cell(p: (int, int)) -> int {
    p.1 * 16 + p.0
}

/// Two positions of the frame that share an edge.
pub open spec fn neighbours(p: (int, int), q: (int, int)) -> bool {
    &&& in_grid(p)
    &&& in_grid(q)
    &&& ((p.0 == q.0 && (p.1 == q.1 + 1 || q.1 == p.1 + 1)) || (p.1 == q.1 && (p.0 == q.0 + 1
        || q.0 == p.0 + 1)))
}

/// A walk through edge-sharing pixels that all have the colour of its first pixel.
pub open spec fn colour_path(px: Seq<[u8; 4]>, path: Seq<(int, int)>) -> bool {
    &&& path.len() > 0
    &&& forall|i: int|
        0 <= i < path.len() ==> in_grid(#[trigger] path[i]) && px[cell(path[i])] == px[cell(
            path[0],
        )]
    &&& forall|i: int| 0 <= i < path.len() - 1 ==> neighbours(#[trigger] path[i], path[i + 1])
}

/// `b` lies in the 4-connected area of `a`'s colour that contains `a`.
pub open spec fn connected(px: Seq<[u8; 4]>, a: (int, int), b: (int, int)) -> bool {
    exists|path: Seq<(int, int)>|
        #[trigger] colour_path(px, path) && path[0] == a && path[path.len() - 1] == b
}

/// `after` is `before` with the connected area of `start` recoloured to `color`.
pub open spec fn flood_filled(
    before: Seq<[u8; 4]>,
    start: (int, int),
    color: [u8; 4],
    after: Seq<[u8; 4]>,
) -> bool {
    &&& after.len() == before.len()
    &&& forall|c: (int, int)|
        in_grid(c) && cell(c) < before.len() ==> #[trigger] after[cell(c)] == if connected(before, start, c) {
            color
        } else {
            before[cell(c)]
        }
    &&& forall|i: int| 384 <= i < before.len() ==> #[trigger] after[i] == before[i]
}

/// Filling from `start` with `color` reads only pixels that the frame has:
/// the start pixel and, unless it already has `color`, every in-frame
/// neighbour of the area connected to it.
pub open spec fn fill_reads_inside(px: Seq<[u8; 4]>, start: (int, int), color: [u8; 4]) -> bool {
    &&& cell(start) < px.len()
    &&& px[cell(start)] != color ==> forall|c: (int, int), q: (int, int)|
        #![trigger connected(px, start, c), neighbours(c, q)]
        connected(px, start, c) && neighbours(c, q) ==> cell(q) < px.len()
}

/// Number of pixels among the first `n` that have colour `c`.
pub open spec fn count_colour(px: Seq<[u8; 4]>, c: [u8; 4], n: int) -> nat
    decreases n,
{
    if n <= 0 {
        0
    } else {
        count_colour(px, c, n - 1) + if px[n - 1] == c {
            1nat
        } else {
            0nat
        }
    }
}

proof fn lemma_count_drops(px: Seq<[u8; 4]>, c: [u8; 4], i: int, v: [u8; 4], n: int)
    requires
        0 <= i < n <= px.len(),
        px[i] == c,
        v != c,
    ensures
        count_colour(px.update(i, v), c, n) + 1 == count_colour(px, c, n),
    decreases n,
{
    if n - 1 > i {
        lemma_count_drops(px, c, i, v, n - 1);
    } else {
        lemma_count_same(px, c, i, v, i);
    }
}

proof fn lemma_count_same(px: Seq<[u8; 4]>, c: [u8; 4], i: int, v: [u8; 4], n: int)
    requires
        0 <= n <= i < px.len(),
    ensures
        count_colour(px.update(i, v), c, n) == count_colour(px, c, n),
    decreases n,
{
    if n > 0 {
        lemma_count_same(px, c, i, v, n - 1);
    }
}

/// A one-pixel walk connects a pixel to itself.
proof fn lemma_connected_self(px: Seq<[u8; 4]>, a: (int, int))
    requires
        in_grid(a),
    ensures
        connected(px, a, a),
{
    let path = seq![a];
    assert(colour_path(px, path));
}

/// A connected pixel's same-coloured neighbour is connected too.
proof fn lemma_connected_step(px: Seq<[u8; 4]>, a: (int, int), b: (int, int), q: (int, int))
    requires
        connected(px, a, b),
        neighbours(b, q),
        px[cell(q)] == px[cell(a)],
    ensures
        connected(px, a, q),
{
    let path = choose|path: Seq<(int, int)>|
        #[trigger] colour_path(px, path) && path[0] == a && path[path.len() - 1] == b;
    let longer = path.push(q);
    assert(longer[0] == path[0]);
    assert forall|i: int| 0 <= i < longer.len() - 1 implies neighbours(
        #[trigger] longer[i],
        longer[i + 1],
    ) by {
        if i < path.len() - 1 {
            assert(longer[i] == path[i] && longer[i + 1] == path[i + 1]);
        }
    }
    assert forall|i: int| 0 <= i < longer.len() implies in_grid(#[trigger] longer[i]) && px[cell(
        longer[i],
    )] == px[cell(longer[0])] by {
        if i < path.len() {
            assert(longer[i] == path[i]);
        }
    }
    assert(colour_path(px, longer));
    assert(longer[longer.len() - 1] == q);
}

/// Every pixel of a connected area has the colour of the area's start.
proof fn lemma_connected_colour(px: Seq<[u8; 4]>, a: (int, int), b: (int, int))
    requires
        connected(px, a, b),
    ensures
        in_grid(b),
        px[cell(b)] == px[cell(a)],
{
    let path = choose|path: Seq<(int, int)>|
        #[trigger] colour_path(px, path) && path[0] == a && path[path.len() - 1] == b;
    assert(in_grid(path[path.len() - 1]));
}

/// Filling a second time at the same pixel with the same colour changes
/// nothing: the frame stays as the first fill left it.
pub proof fn fill_twice_is_fill_once(
    before: Seq<[u8; 4]>,
    start: (int, int),
    color: [u8; 4],
    after: Seq<[u8; 4]>,
)
    requires
        in_grid(start),
        cell(start) < before.len(),
        flood_filled(before, start, color, after),
    ensures
        fill_reads_inside(after, start, color),
        flood_filled(after, start, color, after),
{
    lemma_connected_self(before, start);
    assert(after[cell(start)] == color);
    assert forall|c: (int, int)| in_grid(c) && cell(c) < after.len() implies #[trigger] after[cell(
        c,
    )] == if connected(after, start, c) {
        color
    } else {
        after[cell(c)]
    } by {
        if connected(after, start, c) {
            lemma_connected_colour(after, start, c);
        }
    }
}

/// Position of a queued pixel.
pub open spec fn as_pos(p: (usize, usize)) -> (int, int) {
    (p.0 as int, p.1 as int)
}

/// Whether `q` waits in the fill queue.
pub open spec fn queued(pending: Seq<(usize, usize)>, q: (int, int)) -> bool {
    exists|k: int| 0 <= k < pending.len() && #[trigger] as_pos(pending[k]) == q
}

/// A closed set of changed pixels that holds the start holds every pixel
/// connected to it.
proof fn lemma_closed_holds_area(
    before: Seq<[u8; 4]>,
    after: Seq<[u8; 4]>,
    start: (int, int),
    c: (int, int),
)
    requires
        after.len() == before.len(),
        in_grid(start),
        cell(start) < before.len(),
        after[cell(start)] != before[cell(start)],
        forall|p: (int, int), q: (int, int)|
            #![trigger neighbours(p, q), after[cell(p)], before[cell(q)]]
            neighbours(p, q) && cell(p) < before.len() && after[cell(p)] != before[cell(p)]
                && before[cell(q)] == before[cell(start)] ==> after[cell(q)] != before[cell(q)],
        forall|p: (int, int), q: (int, int)|
            #![trigger neighbours(p, q), after[cell(p)]]
            neighbours(p, q) && cell(p) < before.len() && after[cell(p)] != before[cell(p)]
                ==> cell(q) < before.len(),
        connected(before, start, c),
    ensures
        cell(c) < before.len(),
        after[cell(c)] != before[cell(c)],
{
    let path = choose|path: Seq<(int, int)>|
        #[trigger] colour_path(before, path) && path[0] == start && path[path.len() - 1] == c;
    lemma_closed_holds_path(before, after, start, path, path.len() - 1);
}

proof fn lemma_closed_holds_path(
    before: Seq<[u8; 4]>,
    after: Seq<[u8; 4]>,
    start: (int, int),
    path: Seq<(int, int)>,
    k: int,
)
    requires
        after.len() == before.len(),
        cell(start) < before.len(),
        after[cell(start)] != before[cell(start)],
        forall|p: (int, int), q: (int, int)|
            #![trigger neighbours(p, q), after[cell(p)], before[cell(q)]]
            neighbours(p, q) && cell(p) < before.len() && after[cell(p)] != before[cell(p)]
                && before[cell(q)] == before[cell(start)] ==> after[cell(q)] != before[cell(q)],
        forall|p: (int, int), q: (int, int)|
            #![trigger neighbours(p, q), after[cell(p)]]
            neighbours(p, q) && cell(p) < before.len() && after[cell(p)] != before[cell(p)]
                ==> cell(q) < before.len(),
        colour_path(before, path),
        path[0] == start,
        0 <= k < path.len(),
    ensures
        cell(path[k]) < before.len(),
        after[cell(path[k])] != before[cell(path[k])],
    decreases k,
{
    if k > 0 {
        lemma_closed_holds_path(before, after, start, path, k - 1);
        assert(neighbours(path[k - 1], path[k]));
        assert(before[cell(path[k])] == before[cell(path[0])]);
    }
}

/// The queue entries pushed after recolouring `p`: its in-frame
/// neighbours left, right, up, down.
pub open spec fn neighbour_pushes(px: usize, py: usize) -> Seq<(usize, usize)> {
    let l: Seq<(usize, usize)> = if px > 0 { seq![((px - 1) as usize, py)] } else { seq![] };
    let r: Seq<(usize, usize)> = if px < 15 { seq![((px + 1) as usize, py)] } else { seq![] };
    let u: Seq<(usize, usize)> = if py > 0 { seq![(px, (py - 1) as usize)] } else { seq![] };
    let d: Seq<(usize, usize)> = if py < 23 { seq![(px, (py + 1) as usize)] } else { seq![] };
    l + r + u + d
}

/// What holds between steps of the flood fill: recoloured pixels lie in the
/// area, queued pixels touch it, and the recoloured set is closed up to the queue.
pub open spec fn fill_state(
    before: Seq<[u8; 4]>,
    start: (int, int),
    target: [u8; 4],
    color: [u8; 4],
    pixels: Seq<[u8; 4]>,
    pending: Seq<(usize, usize)>,
) -> bool {
    &&& pixels.len() == before.len()
    &&& in_grid(start)
    &&& cell(start) < before.len()
    &&& target == before[cell(start)]
    &&& target != color
    &&& forall|c: (int, int)|
        in_grid(c) && cell(c) < before.len() ==> #[trigger] pixels[cell(c)] == before[cell(c)] || (
        pixels[cell(c)] == color && connected(before, start, c))
    &&& forall|i: int| 384 <= i < before.len() ==> #[trigger] pixels[i] == before[i]
    &&& forall|k: int|
        0 <= k < pending.len() ==> in_grid(#[trigger] as_pos(pending[k])) && cell(as_pos(pending[k]))
            < before.len() && (as_pos(pending[k]) == start || exists|c: (int, int)|
            #[trigger] neighbours(c, as_pos(pending[k])) && connected(before, start, c))
    &&& forall|p: (int, int), q: (int, int)|
        #![trigger neighbours(p, q), pixels[cell(p)]]
        neighbours(p, q) && cell(p) < before.len() && pixels[cell(p)] != before[cell(p)] ==> cell(q)
            < before.len()
    &&& forall|p: (int, int), q: (int, int)|
        #![trigger neighbours(p, q), pixels[cell(p)], before[cell(q)]]
        neighbours(p, q) && cell(p) < before.len() && pixels[cell(p)] != before[cell(p)] && before[cell(
            q,
        )] == target ==> pixels[cell(q)] != before[cell(q)] || queued(pending, q)
    &&& pixels[cell(start)] != before[cell(start)] || queued(pending, start)
}

/// A queued pixel that still has the start colour lies in the area.
proof fn lemma_popped_connected(
    before: Seq<[u8; 4]>,
    start: (int, int),
    target: [u8; 4],
    color: [u8; 4],
    pixels: Seq<[u8; 4]>,
    pending: Seq<(usize, usize)>,
)
    requires
        fill_state(before, start, target, color, pixels, pending),
        pending.len() > 0,
        pixels[cell(as_pos(pending.last()))] == target,
    ensures
        connected(before, start, as_pos(pending.last())),
{
    let p = as_pos(pending.last());
    assert(as_pos(pending[pending.len() - 1]) == p);
    assert(pixels[cell(p)] == before[cell(p)]);
    if p == start {
        lemma_connected_self(before, start);
    } else {
        let c = choose|c: (int, int)| #[trigger] neighbours(c, p) && connected(before, start, c);
        lemma_connected_step(before, start, c, p);
    }
}

/// A fill that reaches a pixel whose neighbour the frame lacks does not
/// keep to the frame.
proof fn lemma_fill_overruns(
    before: Seq<[u8; 4]>,
    start: (int, int),
    target: [u8; 4],
    color: [u8; 4],
    pixels: Seq<[u8; 4]>,
    pending: Seq<(usize, usize)>,
    q: (int, int),
)
    requires
        fill_state(before, start, target, color, pixels, pending),
        pending.len() > 0,
        pixels[cell(as_pos(pending.last()))] == target,
        neighbours(as_pos(pending.last()), q),
        cell(q) >= before.len(),
    ensures
        !fill_reads_inside(before, start, color),
{
    let p = as_pos(pending.last());
    lemma_popped_connected(before, start, target, color, pixels, pending);
    assert(connected(before, start, p) && neighbours(p, q));
}

proof fn lemma_fill_skip(
    before: Seq<[u8; 4]>,
    start: (int, int),
    target: [u8; 4],
    color: [u8; 4],
    pixels: Seq<[u8; 4]>,
    pending0: Seq<(usize, usize)>,
)
    requires
        fill_state(before, start, target, color, pixels, pending0),
        pending0.len() > 0,
        pixels[cell(as_pos(pending0.last()))] != target,
    ensures
        fill_state(before, start, target, color, pixels, pending0.drop_last()),
{
    let pending = pending0.drop_last();
    let p = as_pos(pending0.last());
    assert(in_grid(as_pos(pending0[pending0.len() - 1])));
    assert forall|a: (int, int), q: (int, int)|
        #![trigger neighbours(a, q), pixels[cell(a)], before[cell(q)]]
        neighbours(a, q) && cell(a) < before.len() && pixels[cell(a)] != before[cell(a)]
            && before[cell(q)] == target implies pixels[cell(q)] != before[cell(q)] || queued(
            pending,
            q,
        ) by {
        if pixels[cell(q)] == before[cell(q)] {
            assert(queued(pending0, q));
            let k = choose|k: int| 0 <= k < pending0.len() && #[trigger] as_pos(pending0[k]) == q;
            if k < pending0.len() - 1 {
                assert(as_pos(pending[k]) == q);
            }
        }
    }
    if pixels[cell(start)] == before[cell(start)] {
        let k = choose|k: int| 0 <= k < pending0.len() && #[trigger] as_pos(pending0[k]) == start;
        if k < pending0.len() - 1 {
            assert(as_pos(pending[k]) == start);
        }
    }
    assert forall|k: int| 0 <= k < pending.len() implies in_grid(#[trigger] as_pos(pending[k])) && cell(
        as_pos(pending[k]),
    ) < before.len() && (as_pos(pending[k]) == start || exists|c: (int, int)|
        #[trigger] neighbours(c, as_pos(pending[k])) && connected(before, start, c)) by {
        assert(pending[k] == pending0[k]);
    }
}

#[verifier::spinoff_prover]
#[verifier::rlimit(40)]
proof fn lemma_fill_step(
    before: Seq<[u8; 4]>,
    start: (int, int),
    target: [u8; 4],
    color: [u8; 4],
    pixels0: Seq<[u8; 4]>,
    pending0: Seq<(usize, usize)>,
    px: usize,
    py: usize,
)
    requires
        fill_state(before, start, target, color, pixels0, pending0),
        pending0.len() > 0,
        pending0.last() == (px, py),
        cell((px as int, py as int)) < pixels0.len(),
        pixels0[cell((px as int, py as int))] == target,
        px < 15 ==> cell((px as int, py as int)) + 1 < pixels0.len(),
        py < 23 ==> cell((px as int, py as int)) + 16 < pixels0.len(),
    ensures
        px < 16 && py < 24,
        fill_state(
            before,
            start,
            target,
            color,
            pixels0.update(cell((px as int, py as int)), color),
            pending0.drop_last() + neighbour_pushes(px, py),
        ),
        count_colour(pixels0.update(cell((px as int, py as int)), color), target, pixels0.len() as int)
            < count_colour(pixels0, target, pixels0.len() as int),
{
    let p = (px as int, py as int);
    assert(as_pos(pending0[pending0.len() - 1]) == p);
    let pixels = pixels0.update(cell(p), color);
    let pushes = neighbour_pushes(px, py);
    let pending = pending0.drop_last() + pushes;
    let n0 = pending0.len() - 1;
    assert forall|q: (int, int)| neighbours(p, q) implies cell(q) < pixels0.len() by {}
    assert(pixels0[cell(p)] == before[cell(p)]);
    if p == start {
        lemma_connected_self(before, start);
    } else {
        let c = choose|c: (int, int)| #[trigger] neighbours(c, p) && connected(before, start, c);
        lemma_connected_step(before, start, c, p);
    }
    lemma_count_drops(pixels0, target, cell(p), color, pixels0.len() as int);
    assert forall|c: (int, int)| in_grid(c) && cell(c) < before.len() implies #[trigger] pixels[cell(
        c,
    )] == before[cell(c)] || (pixels[cell(c)] == color && connected(before, start, c)) by {
        if c != p {
            assert(cell(c) != cell(p));
            assert(pixels[cell(c)] == pixels0[cell(c)]);
        }
    }
    assert forall|i: int| 384 <= i < before.len() implies #[trigger] pixels[i] == before[i] by {
        assert(pixels[i] == pixels0[i]);
    }
    assert forall|k: int| 0 <= k < pending.len() implies in_grid(#[trigger] as_pos(pending[k])) && cell(
        as_pos(pending[k]),
    ) < before.len() && (as_pos(pending[k]) == start || exists|c: (int, int)|
        #[trigger] neighbours(c, as_pos(pending[k])) && connected(before, start, c)) by {
        if k < n0 {
            assert(pending[k] == pending0[k]);
        } else {
            assert(neighbours(p, as_pos(pending[k])));
        }
    }
    assert forall|a: (int, int), q: (int, int)|
        #![trigger neighbours(a, q), pixels[cell(a)]]
        neighbours(a, q) && cell(a) < before.len() && pixels[cell(a)] != before[cell(a)] implies cell(q)
            < before.len() by {
        if a != p {
            assert(cell(a) != cell(p));
            assert(pixels[cell(a)] == pixels0[cell(a)]);
        }
    }
    assert forall|a: (int, int), q: (int, int)|
        #![trigger neighbours(a, q), pixels[cell(a)], before[cell(q)]]
        neighbours(a, q) && cell(a) < before.len() && pixels[cell(a)] != before[cell(a)]
            && before[cell(q)] == target implies pixels[cell(q)] != before[cell(q)] || queued(
            pending,
            q,
        ) by {
        if q == p {
        } else if a == p {
            assert(cell(q) != cell(p));
            if q.0 + 1 == p.0 {
                let k = n0;
                assert(as_pos(pending[k]) == q);
            } else if q.0 == p.0 + 1 {
                let k = if px > 0 { n0 + 1 } else { n0 };
                assert(as_pos(pending[k]) == q);
            } else if q.1 + 1 == p.1 {
                let k = n0 + (if px > 0 { 1int } else { 0 }) + (if px < 15 { 1int } else { 0 });
                assert(as_pos(pending[k]) == q);
            } else {
                let k = n0 + (if px > 0 { 1int } else { 0 }) + (if px < 15 { 1int } else { 0 }) + (
                if py > 0 { 1int } else { 0 });
                assert(as_pos(pending[k]) == q);
            }
        } else {
            assert(cell(a) != cell(p));
            assert(cell(q) != cell(p));
            assert(pixels[cell(a)] == pixels0[cell(a)]);
            assert(pixels[cell(q)] == pixels0[cell(q)]);
            if pixels0[cell(q)] == before[cell(q)] {
                assert(queued(pending0, q));
                let k = choose|k: int| 0 <= k < pending0.len() && #[trigger] as_pos(pending0[k]) == q;
                if k < n0 {
                    assert(as_pos(pending[k]) == q);
                }
            }
        }
    }
    if pixels[cell(start)] == before[cell(start)] {
        assert(cell(start) != cell(p));
        let k = choose|k: int| 0 <= k < pending0.len() && #[trigger] as_pos(pending0[k]) == start;
        if k < n0 {
            assert(as_pos(pending[k]) == start);
        }
    }
}

/// Flood-fills the frame `pixels` from (`x`, `y`) with `color`, visiting a
/// pixel's neighbours after recolouring it, and tells whether the fill kept
/// to pixels the frame has. Where it would not, it stops part-way.
#[verifier::spinoff_prover]
fn fill_frame(pixels: &mut Vec<[u8; 4]>, x: usize, y: usize, color: [u8; 4]) -> (ok: bool)
    requires
        x < 16,
        y < 24,
    ensures
        ok == fill_reads_inside(old(pixels)@, (x as int, y as int), color),
        ok ==> flood_filled(old(pixels)@, (x as int, y as int), color, final(pixels)@),
        ok ==> final(pixels)@[cell((x as int, y as int))] == color,
        ok && old(pixels)@[cell((x as int, y as int))] == color ==> final(pixels)@ == old(pixels)@,
{
    let ghost before = pixels@;
    let ghost start = (x as int, y as int);
    if y * 16 + x >= pixels.len() {
        return false;
    }
    let target = pixels[y * 16 + x];
    if same_color(target, color) {
        proof {
            assert forall|c: (int, int)| in_grid(c) && cell(c) < before.len() implies #[trigger] pixels@[cell(
                c,
            )] == if connected(before, start, c) {
                color
            } else {
                before[cell(c)]
            } by {
                if connected(before, start, c) {
                    lemma_connected_colour(before, start, c);
                }
            }
        }
        return true;
    }
    let mut pending: Vec<(usize, usize)> = Vec::new();
    pending.push((x, y));
    proof {
        assert(as_pos(pending@[0]) == start);
        assert(queued(pending@, start));
        assert forall|c: (int, int)| in_grid(c) && cell(c) < before.len() implies #[trigger] pixels@[cell(
            c,
        )] == before[cell(c)] || (pixels@[cell(c)] == color && connected(before, start, c)) by {}
    }
    while pending.len() > 0
        invariant
            before == old(pixels)@,
            start == (x as int, y as int),
            fill_state(before, start, target, color, pixels@, pending@),
        decreases count_colour(pixels@, target, pixels@.len() as int), pending@.len(),
    {
        let ghost pending0 = pending@;
        let ghost pixels0 = pixels@;
        let (px, py) = pending.pop().unwrap();
        let ghost p = (px as int, py as int);
        proof {
            assert(pending0.last() == (px, py));
            assert(in_grid(as_pos(pending0[pending0.len() - 1])));
        }
        let index = py * 16 + px;
        if !same_color(pixels[index], target) {
            proof {
                lemma_fill_skip(before, start, target, color, pixels0, pending0);
                assert(pending@ =~= pending0.drop_last());
            }
            continue;
        }
        let n = pixels.len();
        if (px < 15 && index + 1 >= n) || (py < 23 && index + 16 >= n) {
            proof {
                let q = if px < 15 && index + 1 >= n {
                    (p.0 + 1, p.1)
                } else {
                    (p.0, p.1 + 1)
                };
                lemma_fill_overruns(before, start, target, color, pixels0, pending0, q);
            }
            return false;
        }
        proof {
            lemma_fill_step(before, start, target, color, pixels0, pending0, px, py);
        }
        pixels.set(index, color);
        let ghost popped = pending@;
        if px > 0 {
            pending.push((px - 1, py));
        }
        if px < 15 {
            pending.push((px + 1, py));
        }
        if py > 0 {
            pending.push((px, py - 1));
        }
        if py < 23 {
            pending.push((px, py + 1));
        }
        proof {
            assert(popped =~= pending0.drop_last());
            assert(pending@ =~= pending0.drop_last() + neighbour_pushes(px, py));
        }
    }
    proof {
        assert(!queued(pending@, start));
        assert forall|a: (int, int), q: (int, int)|
            #![trigger neighbours(a, q), pixels@[cell(a)], before[cell(q)]]
            neighbours(a, q) && cell(a) < before.len() && pixels@[cell(a)] != before[cell(a)]
                && before[cell(q)] == before[cell(start)] implies pixels@[cell(q)] != before[cell(q)] by {
            assert(!queued(pending@, q));
        }
        assert forall|c: (int, int)| in_grid(c) && cell(c) < before.len() implies #[trigger] pixels@[cell(
            c,
        )] == if connected(before, start, c) {
            color
        } else {
            before[cell(c)]
        } by {
            if connected(before, start, c) {
                lemma_closed_holds_area(before, pixels@, start, c);
            }
        }
        assert forall|c: (int, int), q: (int, int)|
            connected(before, start, c) && neighbours(c, q) implies cell(q) < before.len() by {
            lemma_closed_holds_area(before, pixels@, start, c);
            assert(neighbours(c, q) && pixels@[cell(c)] != before[cell(c)]);
        }
    }
    true
}

/// An animated sprite: frames of 16 × 24 RGBA pixels and the frame duration.
#[derive(Clone, PartialEq)]
pub struct Sprite {
    pub frames: Vec<Vec<[u8; 4]>>,
    pub frame_ms: u32,
}

impl View for Sprite {
    type V = (Seq<Seq<[u8; 4]>>, u32);

    open spec fn view(&self) -> (Seq<Seq<[u8; 4]>>, u32) {
        (self.frames@.map_values(|f: Vec<[u8; 4]>| f@), self.frame_ms)
    }
}

/// A frame of transparent pixels.
pub fn blank_frame() -> (f: Vec<[u8; 4]>)
    ensures
        f@.len() == 384,
        forall|i: int| 0 <= i < 384 ==> #[trigger] f@[i] == [0u8, 0, 0, 0],
{
    let mut f: Vec<[u8; 4]> = Vec::new();
    let mut i: usize = 0;
    while i < FRAME_LEN
        invariant
            i <= 384,
            f@.len() == i,
            forall|k: int| 0 <= k < i ==> #[trigger] f@[k] == [0u8, 0, 0, 0],
        decreases 384 - i,
    {
        f.push([0, 0, 0, 0]);
        i = i + 1;
    }
    f
}

/// A pixel-for-pixel copy of a frame.
pub fn copy_frame(f: &Vec<[u8; 4]>) -> (r: Vec<[u8; 4]>)
    ensures
        r@ == f@,
{
    let mut r: Vec<[u8; 4]> = Vec::new();
    let n = f.len();
    let mut i: usize = 0;
    while i < n
        invariant
            n == f@.len(),
            i <= n,
            r@ == f@.subrange(0, i as int),
        decreases n - i,
    {
        r.push(f[i]);
        i = i + 1;
    }
    assert(f@.subrange(0, n as int) =~= f@);
    r
}

impl Default for Sprite {
    fn default() -> (s: Self)
        ensures
            s.frames@.len() == 1,
            s.frames@[0]@.len() == 384,
            forall|i: int| 0 <= i < 384 ==> #[trigger] s.frames@[0]@[i] == [0u8, 0, 0, 0],
            s.frame_ms == 160,
    {
        let mut frames: Vec<Vec<[u8; 4]>> = Vec::new();
        frames.push(blank_frame());
        Sprite { frames, frame_ms: 160 }
    }
}

impl Sprite {
    /// One to 32 frames of exactly 384 pixels, shown 40 to 2000 ms each.
    pub open spec fn valid(self) -> bool {
        &&& 1 <= self.frames@.len() <= 32
        &&& forall|i: int| 0 <= i < self.frames@.len() ==> (#[trigger] self.frames@[i])@.len() == 384
        &&& 40 <= self.frame_ms <= 2000
    }

    /// Whether the sprite can be saved and played.
    pub fn validate(&self) -> (r: bool)
        ensures
            r == self.valid(),
    {
        let n = self.frames.len();
        if n == 0 || n > 32 {
            return false;
        }
        let mut i: usize = 0;
        while i < n
            invariant
                n == self.frames@.len(),
                i <= n,
                forall|k: int| 0 <= k < i ==> (#[trigger] self.frames@[k])@.len() == 384,
            decreases n - i,
        {
            if self.frames[i].len() != FRAME_LEN {
                return false;
            }
            i = i + 1;
        }
        40 <= self.frame_ms && self.frame_ms <= 2000
    }

    /// A copy with the same frames and timing.
    pub fn snapshot(&self) -> (r: Sprite)
        ensures
            r@ == self@,
    {
        let mut frames: Vec<Vec<[u8; 4]>> = Vec::new();
        let n = self.frames.len();
        let mut i: usize = 0;
        while i < n
            invariant
                n == self.frames@.len(),
                i <= n,
                frames@.len() == i,
                forall|k: int| 0 <= k < i ==> (#[trigger] frames@[k])@ == self.frames@[k]@,
            decreases n - i,
        {
            frames.push(copy_frame(&self.frames[i]));
            i = i + 1;
        }
        let r = Sprite { frames, frame_ms: self.frame_ms };
        assert(r@.0 =~= self@.0);
        r
    }

    /// Flood-fills, in frame `frame`, the edge-connected area of the colour
    /// found at (`x`, `y`) with `color`. Positions outside the frame or a
    /// missing frame leave the sprite as it is.
    pub fn fill(&mut self, frame: usize, x: usize, y: usize, color: [u8; 4])
        requires
            frame < old(self).frames@.len() && x < 16 && y < 24 ==> fill_reads_inside(
                old(self).frames@[frame as int]@,
                (x as int, y as int),
                color,
            ),
        ensures
            final(self).frame_ms == old(self).frame_ms,
            final(self).frames@.len() == old(self).frames@.len(),
            !(frame < old(self).frames@.len() && x < 16 && y < 24) ==> final(self)@ == old(self)@,
            frame < old(self).frames@.len() && x < 16 && y < 24 ==> {
                &&& forall|k: int|
                    0 <= k < old(self).frames@.len() && k != frame ==> (#[trigger] final(self).frames@[k])@
                        == old(self).frames@[k]@
                &&& flood_filled(
                    old(self).frames@[frame as int]@,
                    (x as int, y as int),
                    color,
                    final(self).frames@[frame as int]@,
                )
                &&& final(self).frames@[frame as int]@[cell((x as int, y as int))] == color
                &&& old(self).frames@[frame as int]@[cell((x as int, y as int))] == color ==> final(self)@
                    == old(self)@
            },
    {
        if frame >= self.frames.len() || x >= SPRITE_W || y >= SPRITE_H {
            return;
        }
        let ghost frames0 = self.frames@;
        let mut pixels = self.frames.remove(frame);
        let ok = fill_frame(&mut pixels, x, y, color);
        self.frames.insert(frame, pixels);
        proof {
            assert forall|k: int|
                0 <= k < frames0.len() && k != frame implies (#[trigger] self.frames@[k])@
                == frames0[k]@ by {
                assert(self.frames@[k] == frames0[k]);
            }
            if old(self).frames@[frame as int]@[cell((x as int, y as int))] == color {
                assert forall|k: int| 0 <= k < frames0.len() implies self@.0[k] == old(self)@.0[k] by {
                    if k != frame {
                        assert(self.frames@[k]@ == frames0[k]@);
                    }
                }
                assert(self@.0 =~= old(self)@.0);
            }
        }
    }

    /// Whether filling frame `frame` from (`x`, `y`) with `color` reads only
    /// pixels the frame has; off the sprite nothing is read.
    pub fn fill_fits(&self, frame: usize, x: usize, y: usize, color: [u8; 4]) -> (r: bool)
        ensures
            r == (frame < self.frames@.len() && x < 16 && y < 24 ==> fill_reads_inside(
                self.frames@[frame as int]@,
                (x as int, y as int),
                color,
            )),
    {
        if frame >= self.frames.len() || x >= SPRITE_W || y >= SPRITE_H {
            return true;
        }
        let mut trial = copy_frame(&self.frames[frame]);
        fill_frame(&mut trial, x, y, color)
    }
}

} // verus!

verus! {

/// The sprite as a mathematical value: its frames' pixels and frame duration.
pub open spec fn sprite_models(v: Seq<Sprite>) -> Seq<(Seq<Seq<[u8; 4]>>, u32)> {
    v.map_values(|s: Sprite| s@)
}

/// Undo: the last recorded sprite comes back and the current one can be redone.
pub open spec fn undo_model(
    s: (Seq<Seq<[u8; 4]>>, u32),
    history: Seq<(Seq<Seq<[u8; 4]>>, u32)>,
    redo: Seq<(Seq<Seq<[u8; 4]>>, u32)>,
) -> ((Seq<Seq<[u8; 4]>>, u32), Seq<(Seq<Seq<[u8; 4]>>, u32)>, Seq<(Seq<Seq<[u8; 4]>>, u32)>) {
    if history.len() == 0 {
        (s, history, redo)
    } else {
        (history.last(), history.drop_last(), redo.push(s))
    }
}

/// Redo: the last undone sprite comes back and the current one can be undone.
pub open spec fn redo_model(
    s: (Seq<Seq<[u8; 4]>>, u32),
    history: Seq<(Seq<Seq<[u8; 4]>>, u32)>,
    redo: Seq<(Seq<Seq<[u8; 4]>>, u32)>,
) -> ((Seq<Seq<[u8; 4]>>, u32), Seq<(Seq<Seq<[u8; 4]>>, u32)>, Seq<(Seq<Seq<[u8; 4]>>, u32)>) {
    if redo.len() == 0 {
        (s, history, redo)
    } else {
        (redo.last(), history.push(s), redo.drop_last())
    }
}

/// One to 32 frames of exactly 384 pixels: the shape the editor keeps.
pub open spec fn well_framed(m: (Seq<Seq<[u8; 4]>>, u32)) -> bool {
    &&& 1 <= m.0.len() <= 32
    &&& forall|i: int| 0 <= i < m.0.len() ==> (#[trigger] m.0[i]).len() == 384
}

/// Every version in `v` is well framed.
pub open spec fn all_framed(v: Seq<(Seq<Seq<[u8; 4]>>, u32)>) -> bool {
    forall|i: int| 0 <= i < v.len() ==> well_framed(#[trigger] v[i])
}

/// Redo takes back an undo, and undo takes back a redo, whenever there was
/// something to undo (or redo).
pub proof fn undo_redo_round_trip(
    s: (Seq<Seq<[u8; 4]>>, u32),
    history: Seq<(Seq<Seq<[u8; 4]>>, u32)>,
    redo: Seq<(Seq<Seq<[u8; 4]>>, u32)>,
)
    ensures
        history.len() > 0 ==> {
            let u = undo_model(s, history, redo);
            redo_model(u.0, u.1, u.2) == (s, history, redo)
        },
        redo.len() > 0 ==> {
            let r = redo_model(s, history, redo);
            undo_model(r.0, r.1, r.2) == (s, history, redo)
        },
{
    if history.len() > 0 {
        assert(history.drop_last().push(history.last()) =~= history);
        assert(redo.push(s).drop_last() =~= redo);
    }
    if redo.len() > 0 {
        assert(redo.drop_last().push(redo.last()) =~= redo);
        assert(history.push(s).drop_last() =~= history);
    }
}

/// The onion-skin copy of a frame: same colours at a third of the opacity.
pub open spec fn onion_pixels(f: Seq<[u8; 4]>) -> Seq<[u8; 4]> {
    Seq::new(f.len(), |i: int| [f[i][0], f[i][1], f[i][2], (f[i][3] / 3) as u8])
}

/// A faded copy of a frame, drawn under the current one.
pub fn onion_skin(f: &Vec<[u8; 4]>) -> (r: Vec<[u8; 4]>)
    ensures
        r@ == onion_pixels(f@),
{
    let mut r: Vec<[u8; 4]> = Vec::new();
    let n = f.len();
    let mut i: usize = 0;
    while i < n
        invariant
            n == f@.len(),
            i <= n,
            r@ == onion_pixels(f@).subrange(0, i as int),
        decreases n - i,
    {
        let c = f[i];
        r.push([c[0], c[1], c[2], c[3] / 3]);
        proof {
            assert(r@ =~= onion_pixels(f@).subrange(0, i + 1));
        }
        i = i + 1;
    }
    assert(onion_pixels(f@).subrange(0, n as int) =~= onion_pixels(f@));
    r
}

/// The five palette swatches: ink, snow, rose, blue, gold.
pub open spec fn palette_spec(i: int) -> [u8; 4] {
    if i == 0 {
        [32u8, 28, 44, 255]
    } else if i == 1 {
        [235u8, 243, 248, 255]
    } else if i == 2 {
        [225u8, 70, 134, 255]
    } else if i == 3 {
        [74u8, 138, 201, 255]
    } else {
        [232u8, 181, 78, 255]
    }
}

/// The colour of palette swatch `i`.
pub fn palette(i: usize) -> (c: [u8; 4])
    requires
        i < 5,
    ensures
        c == palette_spec(i as int),
{
    if i == 0 {
        [32, 28, 44, 255]
    } else if i == 1 {
        [235, 243, 248, 255]
    } else if i == 2 {
        [225, 70, 134, 255]
    } else if i == 3 {
        [74, 138, 201, 255]
    } else {
        [232, 181, 78, 255]
    }
}

impl Sprite {
    /// Sets pixel `i` of frame `frame` to `color`.
    pub fn set_pixel(&mut self, frame: usize, i: usize, color: [u8; 4])
        requires
            frame < old(self).frames@.len(),
            i < old(self).frames@[frame as int]@.len(),
        ensures
            final(self).frame_ms == old(self).frame_ms,
            final(self).frames@.len() == old(self).frames@.len(),
            forall|k: int|
                0 <= k < old(self).frames@.len() && k != frame ==> (#[trigger] final(self).frames@[k])@
                    == old(self).frames@[k]@,
            final(self).frames@[frame as int]@ == old(self).frames@[frame as int]@.update(i as int, color),
    {
        let ghost frames0 = self.frames@;
        let mut pixels = self.frames.remove(frame);
        pixels.set(i, color);
        self.frames.insert(frame, pixels);
        proof {
            assert forall|k: int|
                0 <= k < frames0.len() && k != frame implies (#[trigger] self.frames@[k])@
                == frames0[k]@ by {
                assert(self.frames@[k] == frames0[k]);
            }
        }
    }
}

/// The sprite editor's brush settings, selected frame and undo/redo history.
pub struct Editor {
    pub frame: usize,
    pub color: [u8; 4],
    pub eraser: bool,
    pub fill: bool,
    pub onion: bool,
    pub preview: bool,
    pub history: Vec<Sprite>,
    pub redo: Vec<Sprite>,
}

impl Default for Editor {
    fn default() -> (e: Self)
        ensures
            e.frame == 0,
            e.color == [225u8, 70, 134, 255],
            !e.eraser,
            !e.fill,
            e.onion,
            !e.preview,
            e.history_models().len() == 0,
            e.redo_models().len() == 0,
            e.history_framed(),
    {
        let e = Editor {
            frame: 0,
            color: [225, 70, 134, 255],
            eraser: false,
            fill: false,
            onion: true,
            preview: false,
            history: Vec::new(),
            redo: Vec::new(),
        };
        assert(e.history_models() =~= Seq::empty());
        assert(e.redo_models() =~= Seq::empty());
        e
    }
}

impl Editor {
    /// Earlier versions of the sprite, oldest first.
    pub open spec fn history_models(self) -> Seq<(Seq<Seq<[u8; 4]>>, u32)> {
        sprite_models(self.history@)
    }

    /// Undone versions of the sprite, most recently undone last.
    pub open spec fn redo_models(self) -> Seq<(Seq<Seq<[u8; 4]>>, u32)> {
        sprite_models(self.redo@)
    }

    /// Every version kept for undo or redo has one to 32 frames of 384 pixels.
    pub open spec fn history_framed(self) -> bool {
        all_framed(self.history_models()) && all_framed(self.redo_models())
    }

    /// Brush colour, eraser, fill, onion skin and animation preview are as in `other`.
    pub open spec fn same_settings(self, other: Editor) -> bool {
        &&& self.color == other.color
        &&& self.eraser == other.eraser
        &&& self.fill == other.fill
        &&& self.onion == other.onion
        &&& self.preview == other.preview
    }

    /// Number of versions that can be undone.
    pub fn history_len(&self) -> (n: usize)
        ensures
            n == self.history_models().len(),
    {
        self.history.len()
    }

    /// Number of versions that can be redone.
    pub fn redo_len(&self) -> (n: usize)
        ensures
            n == self.redo_models().len(),
    {
        self.redo.len()
    }

    /// Brings back the last recorded version of the sprite, if any.
    pub fn undo(&mut self, s: &mut Sprite)
        ensures
            (final(s)@, final(self).history_models(), final(self).redo_models()) == undo_model(
                old(s)@,
                old(self).history_models(),
                old(self).redo_models(),
            ),
            final(self).frame == old(self).frame,
            final(self).same_settings(*old(self)),
            well_framed(old(s)@) && old(self).history_framed() ==> well_framed(final(s)@)
                && final(self).history_framed(),
    {
        let ghost h0 = self.history_models();
        let ghost r0 = self.redo_models();
        if let Some(previous) = self.history.pop() {
            self.redo.push(s.snapshot());
            *s = previous;
            proof {
                assert(s@ == h0[h0.len() - 1]);
                assert forall|i: int| 0 <= i < self.history_models().len() implies well_framed(
                    #[trigger] self.history_models()[i],
                ) <== all_framed(h0) by {
                    assert(self.history_models()[i] == h0[i]);
                }
                assert forall|i: int| 0 <= i < self.redo_models().len() implies well_framed(
                    #[trigger] self.redo_models()[i],
                ) <== all_framed(r0) && well_framed(old(s)@) by {
                    if i < r0.len() {
                        assert(self.redo_models()[i] == r0[i]);
                    }
                }
            }
            assert(self.history_models() =~= old(self).history_models().drop_last());
            assert(self.redo_models() =~= old(self).redo_models().push(old(s)@));
        }
    }

    /// Brings back the last undone version of the sprite, if any.
    pub fn redo(&mut self, s: &mut Sprite)
        ensures
            (final(s)@, final(self).history_models(), final(self).redo_models()) == redo_model(
                old(s)@,
                old(self).history_models(),
                old(self).redo_models(),
            ),
            final(self).frame == old(self).frame,
            final(self).same_settings(*old(self)),
            well_framed(old(s)@) && old(self).history_framed() ==> well_framed(final(s)@)
                && final(self).history_framed(),
    {
        let ghost h0 = self.history_models();
        let ghost r0 = self.redo_models();
        if let Some(next) = self.redo.pop() {
            self.history.push(s.snapshot());
            *s = next;
            proof {
                assert(s@ == r0[r0.len() - 1]);
                assert forall|i: int| 0 <= i < self.redo_models().len() implies well_framed(
                    #[trigger] self.redo_models()[i],
                ) <== all_framed(r0) by {
                    assert(self.redo_models()[i] == r0[i]);
                }
                assert forall|i: int| 0 <= i < self.history_models().len() implies well_framed(
                    #[trigger] self.history_models()[i],
                ) <== all_framed(h0) && well_framed(old(s)@) by {
                    if i < h0.len() {
                        assert(self.history_models()[i] == h0[i]);
                    }
                }
            }
            assert(self.redo_models() =~= old(self).redo_models().drop_last());
            assert(self.history_models() =~= old(self).history_models().push(old(s)@));
        }
    }

    /// Records the sprite before a paint stroke, keeping at most 32 versions
    /// by dropping the oldest, and forgets what could be redone.
    pub fn begin_stroke(&mut self, s: &Sprite)
        ensures
            final(self).history_models() == (if old(self).history_models().len() == 32 {
                old(self).history_models().drop_first()
            } else {
                old(self).history_models()
            }).push(s@),
            final(self).redo_models().len() == 0,
            final(self).frame == old(self).frame,
            final(self).same_settings(*old(self)),
            well_framed(s@) && old(self).history_framed() ==> final(self).history_framed(),
    {
        if self.history.len() == 32 {
            self.history.remove(0);
        }
        let ghost kept = sprite_models(self.history@);
        self.history.push(s.snapshot());
        self.redo.clear();
        assert(self.history_models() =~= kept.push(s@));
        assert(kept =~= (if old(self).history_models().len() == 32 {
            old(self).history_models().drop_first()
        } else {
            old(self).history_models()
        }));
        assert(self.redo_models() =~= Seq::empty());
    }

    /// Appends a copy of the selected frame (the last one when the selection
    /// is past the end) and selects it; nothing happens at 32 frames.
    pub fn duplicate_frame(&mut self, s: &mut Sprite)
        requires
            old(s).frames@.len() >= 1,
        ensures
            old(s).frames@.len() >= 32 ==> final(s)@ == old(s)@ && final(self).frame == old(self).frame
                && final(self).history_models() == old(self).history_models()
                && final(self).redo_models() == old(self).redo_models(),
            old(s).frames@.len() < 32 ==> {
                let n = old(s).frames@.len();
                let src = if old(self).frame < n - 1 {
                    old(self).frame as int
                } else {
                    n - 1
                };
                &&& final(s)@.0 == old(s)@.0.push(old(s)@.0[src])
                &&& final(s).frame_ms == old(s).frame_ms
                &&& final(self).frame == n
                &&& final(self).history_models() == old(self).history_models().push(old(s)@)
                &&& final(self).redo_models().len() == 0
            },
            final(self).same_settings(*old(self)),
            well_framed(old(s)@) && old(self).history_framed() ==> well_framed(final(s)@)
                && final(self).history_framed(),
    {
        let n = s.frames.len();
        if n < 32 {
            let ghost h = self.history_models();
            self.history.push(s.snapshot());
            self.redo.clear();
            let src = if self.frame < n - 1 {
                self.frame
            } else {
                n - 1
            };
            let copy = copy_frame(&s.frames[src]);
            s.frames.push(copy);
            self.frame = n;
            assert(final(s)@.0 =~= old(s)@.0.push(old(s)@.0[src as int]));
            assert(self.history_models() =~= h.push(old(s)@));
            assert(self.redo_models() =~= Seq::empty());
        }
    }

    /// Removes the selected frame (the last one when the selection is past
    /// the end); a single frame is never removed.
    pub fn delete_frame(&mut self, s: &mut Sprite)
        ensures
            old(s).frames@.len() <= 1 ==> final(s)@ == old(s)@ && final(self).history_models()
                == old(self).history_models() && final(self).redo_models()
                == old(self).redo_models(),
            old(s).frames@.len() > 1 ==> {
                let n = old(s).frames@.len();
                let gone = if old(self).frame < n - 1 {
                    old(self).frame as int
                } else {
                    n - 1
                };
                &&& final(s)@.0 == old(s)@.0.remove(gone)
                &&& final(s).frame_ms == old(s).frame_ms
                &&& final(self).history_models() == old(self).history_models().push(old(s)@)
                &&& final(self).redo_models().len() == 0
            },
            final(self).frame == old(self).frame,
            final(self).same_settings(*old(self)),
            well_framed(old(s)@) && old(self).history_framed() ==> well_framed(final(s)@)
                && final(self).history_framed(),
    {
        let n = s.frames.len();
        if n > 1 {
            let ghost h = self.history_models();
            self.history.push(s.snapshot());
            self.redo.clear();
            let gone = if self.frame < n - 1 {
                self.frame
            } else {
                n - 1
            };
            s.frames.remove(gone);
            assert(final(s)@.0 =~= old(s)@.0.remove(gone as int));
            assert(self.history_models() =~= h.push(old(s)@));
            assert(self.redo_models() =~= Seq::empty());
        }
    }

    /// Keeps the selected frame inside the sprite.
    pub fn clamp_frame(&mut self, s: &Sprite)
        requires
            s.frames@.len() >= 1,
        ensures
            final(self).frame == if old(self).frame < s.frames@.len() - 1 {
                old(self).frame as int
            } else {
                s.frames@.len() - 1
            },
            final(self).same_settings(*old(self)),
            final(self).history == old(self).history,
            final(self).redo == old(self).redo,
    {
        let last = s.frames.len() - 1;
        if self.frame > last {
            self.frame = last;
        }
    }

    /// The colour a stroke paints: transparent with the eraser, else the brush colour.
    pub open spec fn ink(self) -> [u8; 4] {
        if self.eraser {
            [0u8, 0, 0, 0]
        } else {
            self.color
        }
    }

    /// The colour a stroke paints now.
    pub fn ink_color(&self) -> (c: [u8; 4])
        ensures
            c == self.ink(),
    {
        if self.eraser {
            [0, 0, 0, 0]
        } else {
            self.color
        }
    }

    /// Paints pixel (`x`, `y`) of the selected frame with the stroke colour,
    /// or flood-fills from it when the fill option is on.
    pub fn paint(&self, s: &mut Sprite, x: usize, y: usize)
        requires
            x < 16,
            y < 24,
            !self.fill ==> self.frame < old(s).frames@.len() && cell((x as int, y as int)) < old(
                s,
            ).frames@[self.frame as int]@.len(),
            self.fill && self.frame < old(s).frames@.len() ==> fill_reads_inside(
                old(s).frames@[self.frame as int]@,
                (x as int, y as int),
                self.ink(),
            ),
        ensures
            final(s).frame_ms == old(s).frame_ms,
            final(s).frames@.len() == old(s).frames@.len(),
            forall|k: int|
                0 <= k < old(s).frames@.len() && k != self.frame ==> (#[trigger] final(s).frames@[k])@
                    == old(s).frames@[k]@,
            self.fill && self.frame >= old(s).frames@.len() ==> final(s)@ == old(s)@,
            self.fill && self.frame < old(s).frames@.len() ==> flood_filled(
                old(s).frames@[self.frame as int]@,
                (x as int, y as int),
                self.ink(),
                final(s).frames@[self.frame as int]@,
            ),
            well_framed(old(s)@) ==> well_framed(final(s)@),
            self.frame < old(s).frames@.len() ==> final(s).frames@[self.frame as int]@[cell(
                (x as int, y as int),
            )] == self.ink(),
            !self.fill ==> final(s).frames@[self.frame as int]@ == old(s).frames@[self.frame as int]@.update(
                cell((x as int, y as int)),
                self.ink(),
            ),
    {
        let color = if self.eraser {
            [0, 0, 0, 0]
        } else {
            self.color
        };
        let ghost s0 = *s;
        if self.fill {
            s.fill(self.frame, x, y, color);
        } else {
            s.set_pixel(self.frame, y * 16 + x, color);
        }
        proof {
            assert forall|k: int| 0 <= k < s0.frames@.len() implies (#[trigger] s.frames@[k])@
                == s@.0[k] && s0.frames@[k]@ == s0@.0[k] by {}
            if self.fill && self.frame >= s0.frames@.len() {
                assert forall|k: int| 0 <= k < s0.frames@.len() implies (#[trigger] s.frames@[k])@
                    == s0.frames@[k]@ by {
                    assert(s@.0[k] == s0@.0[k]);
                }
            }
            if well_framed(s0@) {
                assert forall|i: int| 0 <= i < s@.0.len() implies (#[trigger] s@.0[i]).len() == 384 by {
                    assert(s0@.0[i].len() == 384);
                    if i != self.frame {
                        assert(s.frames@[i]@ == s0.frames@[i]@);
                    }
                }
            }
        }
    }
}

/// With the eraser on, a stroke paints transparency, filling or not;
/// otherwise it paints the brush colour.
pub proof fn eraser_paints_transparent(e: Editor)
    ensures
        e.eraser ==> e.ink() == [0u8, 0, 0, 0],
        !e.eraser ==> e.ink() == e.color,
{
}

} // verus!
