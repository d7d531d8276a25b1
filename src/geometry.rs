use vstd::prelude::*;

verus! {

/// A triangle with integer pixel vertices and an RGB color.
#[derive(Clone, Copy, Debug, PartialEq, Eq)]
pub struct Triangle {
    pub vertices: [(i32, i32); 3],
    pub color: (u8, u8, u8),
}

/// A drawable object: it yields the triangles of the current frame.
pub trait TextureTrait: Send {
    fn triangles(&self) -> Vec<Triangle>;
}

/// An owned drawable object, as the registry holds it.
pub struct Texture {
    inner: Box<dyn TextureTrait>,
}

impl Texture {
    pub fn new(inner: Box<dyn TextureTrait>) -> Texture {
        Texture { inner }
    }

    /// The triangles of the current frame.
    pub fn triangles(&self) -> Vec<Triangle> {
        self.inner.triangles()
    }
}

/// Whether two triangles have the same vertices and color.
pub open spec fn same_triangle(a: Triangle, b: Triangle) -> bool {
    &&& a.vertices@ == b.vertices@
    &&& a.color == b.color
}

/// Whether two triangle lists are equal element by element.
pub open spec fn same_triangles(a: Seq<Triangle>, b: Seq<Triangle>) -> bool {
    &&& a.len() == b.len()
    &&& forall|i: int| 0 <= i < a.len() ==> same_triangle(#[trigger] a[i], b[i])
}

fn triangle_eq(a: &Triangle, b: &Triangle) -> (r: bool)
    ensures
        r == same_triangle(*a, *b),
{
    let (p0, p1, p2) = (a.vertices[0], a.vertices[1], a.vertices[2]);
    let (q0, q1, q2) = (b.vertices[0], b.vertices[1], b.vertices[2]);
    let r = p0.0 == q0.0 && p0.1 == q0.1 && p1.0 == q1.0 && p1.1 == q1.1 && p2.0 == q2.0 && p2.1
        == q2.1 && a.color.0 == b.color.0 && a.color.1 == b.color.1 && a.color.2 == b.color.2;
    assert(r ==> a.vertices@ =~= b.vertices@);
    r
}

/// Whether two triangle lists are equal element by element.
pub fn triangles_eq(a: &Vec<Triangle>, b: &Vec<Triangle>) -> (r: bool)
    ensures
        r == same_triangles(a@, b@),
{
    if a.len() != b.len() {
        return false;
    }
    let mut i: usize = 0;
    while i < a.len()
        invariant
            i <= a@.len(),
            a@.len() == b@.len(),
            forall|k: int| 0 <= k < i ==> same_triangle(#[trigger] a@[k], b@[k]),
        decreases a@.len() - i,
    {
        if !triangle_eq(&a[i], &b[i]) {
            return false;
        }
        i += 1;
    }
    true
}

/// The color painted where no triangle covers a pixel.
pub const BACKGROUND: (u8, u8, u8) = (0, 0, 0);

/// Edge function of the edge `a -> b` evaluated at `p`.
pub open spec fn edge(px: int, py: int, ax: int, ay: int, bx: int, by: int) -> int {
    (px - ax) * (by - ay) - (py - ay) * (bx - ax)
}

/// Whether `(x, y)` lies strictly inside `t`: the three edge functions are all
/// positive or all negative. Points on an edge are outside.
pub open spec fn inside(t: Triangle, x: int, y: int) -> bool {
    let (x1, y1) = t.vertices[0];
    let (x2, y2) = t.vertices[1];
    let (x3, y3) = t.vertices[2];
    let d = edge(x, y, x1 as int, y1 as int, x2 as int, y2 as int);
    let a = edge(x, y, x2 as int, y2 as int, x3 as int, y3 as int);
    let b = edge(x, y, x3 as int, y3 as int, x1 as int, y1 as int);
    (d > 0 && a > 0 && b > 0) || (d < 0 && a < 0 && b < 0)
}

/// The color of `(x, y)`: that of the first triangle of `ts` covering it, or
/// the background where none does.
pub open spec fn color_at(ts: Seq<Triangle>, x: int, y: int) -> (u8, u8, u8)
    decreases ts.len(),
{
    if ts.len() == 0 {
        BACKGROUND
    } else if inside(ts[0], x, y) {
        ts[0].color
    } else {
        color_at(ts.subrange(1, ts.len() as int), x, y)
    }
}

/// Where two triangles of the list both cover a pixel, and none before them
/// does, the pixel takes the color of the earlier of the two.
pub proof fn lemma_first_match_wins(ts: Seq<Triangle>, i: int, j: int, x: int, y: int)
    requires
        0 <= i < j < ts.len(),
        inside(ts[i], x, y),
        inside(ts[j], x, y),
        forall|k: int| 0 <= k < i ==> !inside(#[trigger] ts[k], x, y),
    ensures
        color_at(ts, x, y) == ts[i].color,
    decreases i,
{
    if i > 0 {
        let rest = ts.subrange(1, ts.len() as int);
        assert forall|k: int| 0 <= k < i - 1 implies !inside(#[trigger] rest[k], x, y) by {
            assert(rest[k] == ts[k + 1]);
        }
        lemma_first_match_wins(rest, i - 1, j - 1, x, y);
    }
}

/// Component `k` (0 red, 1 green, 2 blue) of a color.
pub open spec fn channel_of(c: (u8, u8, u8), k: int) -> u8 {
    if k == 0 {
        c.0
    } else if k == 1 {
        c.1
    } else {
        c.2
    }
}

/// The frame buffer after painting `ts` on a `w` x `h` surface over `old`:
/// four bytes per pixel in row-major order, red, green and blue painted, the
/// fourth byte and everything past the surface left as they were.
pub open spec fn painted(ts: Seq<Triangle>, w: int, h: int, old: Seq<u8>) -> Seq<u8> {
    Seq::new(
        old.len(),
        |i: int|
            if i < 4 * w * h && i % 4 != 3 {
                channel_of(color_at(ts, (i / 4) % w, (i / 4) / w), i % 4)
            } else {
                old[i]
            },
    )
}

fn edge_value(p: (i64, i64), a: (i64, i64), b: (i64, i64)) -> (r: i128)
    requires
        -0x1_0000_0000 <= p.0 <= 0x1_0000_0000,
        -0x1_0000_0000 <= p.1 <= 0x1_0000_0000,
        -0x1_0000_0000 <= a.0 <= 0x1_0000_0000,
        -0x1_0000_0000 <= a.1 <= 0x1_0000_0000,
        -0x1_0000_0000 <= b.0 <= 0x1_0000_0000,
        -0x1_0000_0000 <= b.1 <= 0x1_0000_0000,
    ensures
        r == edge(p.0 as int, p.1 as int, a.0 as int, a.1 as int, b.0 as int, b.1 as int),
{
    let dx: i64 = p.0 - a.0;
    let dy: i64 = p.1 - a.1;
    let ex: i64 = b.0 - a.0;
    let ey: i64 = b.1 - a.1;
    assert(-0x4_0000_0000 * 0x4_0000_0000 <= dx * ey <= 0x4_0000_0000 * 0x4_0000_0000)
        by (nonlinear_arith)
        requires
            -0x4_0000_0000 <= dx <= 0x4_0000_0000,
            -0x4_0000_0000 <= ey <= 0x4_0000_0000,
    ;
    assert(-0x4_0000_0000 * 0x4_0000_0000 <= dy * ex <= 0x4_0000_0000 * 0x4_0000_0000)
        by (nonlinear_arith)
        requires
            -0x4_0000_0000 <= dy <= 0x4_0000_0000,
            -0x4_0000_0000 <= ex <= 0x4_0000_0000,
    ;
    (dx as i128) * (ey as i128) - (dy as i128) * (ex as i128)
}

fn widen(v: (i32, i32)) -> (r: (i64, i64))
    ensures
        r.0 == v.0,
        r.1 == v.1,
{
    (v.0 as i64, v.1 as i64)
}

fn covers(x: i64, y: i64, t: &Triangle) -> (r: bool)
    requires
        -0x1_0000_0000 <= x <= 0x1_0000_0000,
        -0x1_0000_0000 <= y <= 0x1_0000_0000,
    ensures
        r == inside(*t, x as int, y as int),
{
    let v0 = widen(t.vertices[0]);
    let v1 = widen(t.vertices[1]);
    let v2 = widen(t.vertices[2]);
    let d = edge_value((x, y), v0, v1);
    let a = edge_value((x, y), v1, v2);
    let b = edge_value((x, y), v2, v0);
    (d > 0 && a > 0 && b > 0) || (d < 0 && a < 0 && b < 0)
}

/// Whether `point` lies strictly inside `triangle`.
pub fn collides(point: (i32, i32), triangle: &Triangle) -> (r: bool)
    ensures
        r == inside(*triangle, point.0 as int, point.1 as int),
{
    covers(point.0 as i64, point.1 as i64, triangle)
}

/// The color of pixel `(x, y)`: that of the first triangle of `triangles`
/// that covers it, or the background.
pub fn pixel_color(triangles: &Vec<Triangle>, x: u32, y: u32) -> (r: (u8, u8, u8))
    ensures
        r == color_at(triangles@, x as int, y as int),
{
    let ghost ts = triangles@;
    let mut i: usize = 0;
    assert(ts.subrange(0, ts.len() as int) =~= ts);
    while i < triangles.len()
        invariant
            i <= ts.len(),
            ts == triangles@,
            color_at(ts, x as int, y as int) == color_at(
                ts.subrange(i as int, ts.len() as int),
                x as int,
                y as int,
            ),
        decreases ts.len() - i,
    {
        let ghost rest = ts.subrange(i as int, ts.len() as int);
        assert(rest[0] == ts[i as int]);
        if covers(x as i64, y as i64, &triangles[i]) {
            return triangles[i].color;
        }
        assert(rest.subrange(1, rest.len() as int) =~= ts.subrange(i + 1, ts.len() as int));
        i += 1;
    }
    BACKGROUND
}

/// Paints `triangles` on a `width` x `height` surface held in `frame`, four
/// bytes per pixel in row-major order: red, green and blue of each pixel are
/// written, its fourth byte is left as it was.
pub fn render_frame(triangles: &Vec<Triangle>, width: u32, height: u32, frame: &mut Vec<u8>)
    requires
        4 * (width as int) * (height as int) <= old(frame)@.len(),
    ensures
        final(frame)@ == painted(triangles@, width as int, height as int, old(frame)@),
{
    let ghost w = width as int;
    let ghost h = height as int;
    let ghost start = frame@;
    assert(4 * (w * h) == 4 * w * h && w * h <= 4 * w * h) by (nonlinear_arith)
        requires
            w >= 0,
            h >= 0,
    ;
    let len = frame.len();
    let n: usize = width as usize * height as usize;
    let mut p: usize = 0;
    let mut x: u32 = 0;
    let mut y: u32 = 0;
    while p < n
        invariant
            w == width as int,
            h == height as int,
            w >= 0,
            h >= 0,
            n == w * h,
            4 * n <= start.len(),
            len == start.len(),
            p <= n,
            p == y * w + x,
            w > 0 ==> x < w,
            frame@.len() == start.len(),
            forall|i: int|
                0 <= i < start.len() ==> #[trigger] frame@[i] == if i < 4 * p && i % 4 != 3 {
                    channel_of(color_at(triangles@, (i / 4) % w, (i / 4) / w), i % 4)
                } else {
                    start[i]
                },
        decreases n - p,
    {
        assert(w > 0) by (nonlinear_arith)
            requires
                p < n,
                n == w * h,
                h >= 0,
                w >= 0,
        ;
        proof {
            vstd::arithmetic::div_mod::lemma_fundamental_div_mod_converse(p as int, w, y as int, x as int);
        }
        assert(y < h) by (nonlinear_arith)
            requires
                p == y * w + x,
                p < w * h,
                0 <= x,
                w > 0,
        ;
        let c = pixel_color(triangles, x, y);
        let base = 4 * p;
        frame[base] = c.0;
        frame[base + 1] = c.1;
        frame[base + 2] = c.2;
        p = p + 1;
        x = x + 1;
        if x == width {
            assert(y * w + w == (y + 1) * w) by (nonlinear_arith);
            x = 0;
            y = y + 1;
        }
    }
    assert(frame@ =~= painted(triangles@, w, h, start));
}

} // verus!
