use vstd::prelude::*;

verus! {

/// An RGBA picture stored row by row, top row first, four bytes per pixel.
///
/// The byte buffer may be longer than the picture needs (as in the image
/// crate's `ImageBuffer`); only its first `4 * width * height` bytes are
/// pixels.
pub struct RgbaBuffer {
    pub(crate) width: u32,
    pub(crate) height: u32,
    pub(crate) data: Vec<u8>,
}

/// The mathematical content of an [`RgbaBuffer`].
pub struct PixelGrid {
    pub width: nat,
    pub height: nat,
    pub bytes: Seq<u8>,
}

impl PixelGrid {
    /// The buffer holds every pixel of the picture.
    pub open spec fn well_formed(self) -> bool {
        4 * (self.width * self.height) <= self.bytes.len()
    }

    /// Channel `c` (0 = red, 1 = green, 2 = blue, 3 = alpha) of pixel `(x, y)`.
    pub open spec fn byte_at(self, x: int, y: int, c: int) -> u8 {
        self.bytes[4 * (y * self.width + x) + c]
    }

    /// `(x, y, c)` names a channel of a pixel inside the picture.
    pub open spec fn in_bounds(self, x: int, y: int, c: int) -> bool {
        0 <= x < self.width && 0 <= y < self.height && 0 <= c < 4
    }
}

impl View for RgbaBuffer {
    type V = PixelGrid;

    closed spec fn view(&self) -> PixelGrid {
        PixelGrid { width: self.width as nat, height: self.height as nat, bytes: self.data@ }
    }
}

impl RgbaBuffer {
    #[verifier::type_invariant]
    spec fn holds_all_pixels(self) -> bool {
        4 * (self.width * self.height) <= self.data.len()
    }

    /// Builds a picture from raw RGBA bytes; `None` when the buffer is too
    /// short for `width * height` pixels.
    pub fn from_raw(width: u32, height: u32, data: Vec<u8>) -> (r: Option<RgbaBuffer>)
        ensures
            r is Some <==> 4 * (width * height) <= data@.len(),
            r matches Some(b) ==> b@ == (PixelGrid { width: width as nat, height: height as nat, bytes: data@ }),
    {
        let w = width as u64;
        let h = height as u64;
        proof {
            lemma_u32_product_fits(width, height);
        }
        let n = w * h;
        if n <= (data.len() / 4) as u64 {
            Some(RgbaBuffer { width, height, data })
        } else {
            None
        }
    }

    /// A picture of `width * height` pixels taken from `data`.
    pub fn assemble(width: u32, height: u32, data: Vec<u8>) -> (r: RgbaBuffer)
        requires
            4 * (width * height) <= data@.len(),
        ensures
            r@ == (PixelGrid { width: width as nat, height: height as nat, bytes: data@ }),
    {
        RgbaBuffer { width, height, data }
    }

    pub fn width(&self) -> (r: u32)
        ensures
            r == self@.width,
    {
        self.width
    }

    pub fn height(&self) -> (r: u32)
        ensures
            r == self@.height,
    {
        self.height
    }

    pub fn as_raw(&self) -> (r: &Vec<u8>)
        ensures
            r@ == self@.bytes,
    {
        &self.data
    }

    /// The bytes of the pixels, without any bytes beyond them.
    pub fn pixels(&self) -> (r: &[u8])
        ensures
            r@ == self@.bytes.take((4 * (self@.width * self@.height)) as int),
    {
        proof {
            use_type_invariant(self);
            lemma_u32_product_fits(self.width, self.height);
        }
        let n = 4 * ((self.width as usize) * (self.height as usize));
        let r = &self.data.as_slice()[0..n];
        proof {
            assert(r@ =~= self@.bytes.take((4 * (self@.width * self@.height)) as int));
        }
        r
    }

    pub fn into_raw(self) -> (r: Vec<u8>)
        ensures
            r@ == self@.bytes,
    {
        self.data
    }

    pub fn duplicate(&self) -> (r: RgbaBuffer)
        ensures
            r@ == self@,
    {
        proof {
            use_type_invariant(self);
        }
        let data = self.data.clone();
        proof {
            assert forall|i: int| 0 <= i < data@.len() implies data@[i] == self.data@[i] by {
                assert(cloned::<u8>(self.data[i], data[i]));
            }
            assert(data@ =~= self.data@);
        }
        RgbaBuffer { width: self.width, height: self.height, data }
    }
}

proof fn lemma_u32_product_fits(a: u32, b: u32)
    ensures
        0 <= (a as int) * (b as int) <= 0xffff_fffe_0000_0001int,
{
    assert(0 <= (a as int) * (b as int) <= 0xffff_ffffint * 0xffff_ffffint) by (nonlinear_arith)
        requires
            0 <= a <= 0xffff_ffff,
            0 <= b <= 0xffff_ffff,
    ;
}

/// Which half of a picture is kept and reflected onto the other half.
#[derive(Clone, Copy, Debug, PartialEq, Eq, Structural)]
pub enum Mirror {
    KeepLeft,
    KeepRight,
    KeepTop,
    KeepBottom,
}

/// The direction word of a command names the half that is kept:
/// "右" the right half, "上" the top half, "下" the bottom half, and
/// "左" or any other word the left half.
pub open spec fn spec_mirror_for(direction: Seq<char>) -> Mirror {
    if direction == seq!['右'] {
        Mirror::KeepRight
    } else if direction == seq!['上'] {
        Mirror::KeepTop
    } else if direction == seq!['下'] {
        Mirror::KeepBottom
    } else {
        Mirror::KeepLeft
    }
}

/// Column read for output column `x` of a picture `w` pixels wide.
pub open spec fn source_x(m: Mirror, w: int, x: int) -> int {
    match m {
        Mirror::KeepLeft => if x <= w - x - 1 { x } else { w - x - 1 },
        Mirror::KeepRight => if x >= w - x - 1 { x } else { w - x - 1 },
        _ => x,
    }
}

/// Row read for output row `y` of a picture `h` pixels tall.
pub open spec fn source_y(m: Mirror, h: int, y: int) -> int {
    match m {
        Mirror::KeepTop => if y <= h - y - 1 { y } else { h - y - 1 },
        Mirror::KeepBottom => if y >= h - y - 1 { y } else { h - y - 1 },
        _ => y,
    }
}

/// The picture `g` with one half reflected onto the other: byte `k` of the
/// result is channel `k % 4` of pixel `k / 4`, read from the mirrored
/// position in `g`.
pub open spec fn mirrored(g: PixelGrid, m: Mirror) -> PixelGrid {
    let w = g.width as int;
    let h = g.height as int;
    PixelGrid {
        width: g.width,
        height: g.height,
        bytes: Seq::new(
            4 * (g.width * g.height),
            |k: int| g.byte_at(source_x(m, w, (k / 4) % w), source_y(m, h, (k / 4) / w), k % 4),
        ),
    }
}

/// Picks the half to keep from a direction word.
pub fn mirror_for(direction: &str) -> (m: Mirror)
    ensures
        m == spec_mirror_for(direction@),
{
    if direction.unicode_len() == 1 {
        let c = direction.get_char(0);
        proof {
            assert(direction@ =~= seq![c]);
        }
        if c == '右' {
            Mirror::KeepRight
        } else if c == '上' {
            Mirror::KeepTop
        } else if c == '下' {
            Mirror::KeepBottom
        } else {
            Mirror::KeepLeft
        }
    } else {
        Mirror::KeepLeft
    }
}

proof fn lemma_cell_in_grid(x: int, y: int, w: int, h: int)
    requires
        0 <= x < w,
        0 <= y < h,
    ensures
        0 <= y * w + x < w * h,
{
    assert(0 <= y * w + x < w * h) by (nonlinear_arith)
        requires
            0 <= x < w,
            0 <= y < h,
    ;
}

proof fn lemma_split_index(p: int, w: int, h: int)
    requires
        0 <= p < w * h,
        0 < w,
    ensures
        0 <= p % w < w,
        0 <= p / w < h,
        p == (p / w) * w + p % w,
{
    vstd::arithmetic::div_mod::lemma_fundamental_div_mod(p, w);
    vstd::arithmetic::div_mod::lemma_mod_pos_bound(p, w);
    vstd::arithmetic::div_mod::lemma_div_pos_is_pos(p, w);
    let q = p / w;
    let r = p % w;
    assert(q * w == w * q) by (nonlinear_arith);
    assert(q < h) by (nonlinear_arith)
        requires
            p == q * w + r,
            0 <= r,
            p < w * h,
            0 < w,
    ;
}

/// Position `(x, y)` in a picture `w` wide is pixel number `y * w + x`.
proof fn lemma_join_index(x: int, y: int, w: int)
    requires
        0 <= x < w,
        0 <= y,
    ensures
        (y * w + x) / w == y,
        (y * w + x) % w == x,
{
    vstd::arithmetic::div_mod::lemma_fundamental_div_mod_converse(y * w + x, w, y, x);
}

/// Reflects one half of `origin` onto the other.
pub fn mirror_image(origin: &RgbaBuffer, m: Mirror) -> (r: RgbaBuffer)
    ensures
        r@ == mirrored(origin@, m),
{
    proof {
        use_type_invariant(origin);
        lemma_u32_product_fits(origin.width, origin.height);
    }
    let w = origin.width as usize;
    let h = origin.height as usize;
    let n = w * h;
    let ghost g = origin@;
    let ghost target = mirrored(g, m).bytes;
    let total = origin.data.len();
    let mut container: Vec<u8> = Vec::new();
    let mut p: usize = 0;
    while p < n
        invariant
            p <= n,
            n == w * h,
            w == g.width,
            h == g.height,
            g == origin@,
            g.bytes == origin.data@,
            4 * n <= g.bytes.len(),
            g.bytes.len() == total,
            target == mirrored(g, m).bytes,
            target.len() == 4 * n,
            container@ =~= target.take(4 * p),
        decreases n - p,
    {
        proof {
            lemma_split_index(p as int, w as int, h as int);
        }
        let x = p % w;
        let y = p / w;
        let sx = match m {
            Mirror::KeepLeft => if x <= w - x - 1 { x } else { w - x - 1 },
            Mirror::KeepRight => if x >= w - x - 1 { x } else { w - x - 1 },
            _ => x,
        };
        let sy = match m {
            Mirror::KeepTop => if y <= h - y - 1 { y } else { h - y - 1 },
            Mirror::KeepBottom => if y >= h - y - 1 { y } else { h - y - 1 },
            _ => y,
        };
        proof {
            lemma_cell_in_grid(sx as int, sy as int, w as int, h as int);
        }
        let cell = sy * w + sx;
        let base = 4 * cell;
        let ghost before = container@;
        container.push(origin.data[base]);
        container.push(origin.data[base + 1]);
        container.push(origin.data[base + 2]);
        container.push(origin.data[base + 3]);
        proof {
            assert forall|k: int| 4 * p <= k < 4 * p + 4 implies target[k] == container@[k] by {
                assert(k / 4 == p);
                assert(k % 4 == k - 4 * p);
            }
            assert(container@ =~= target.take(4 * (p + 1)));
        }
        p = p + 1;
    }
    proof {
        assert(target.take(4 * n) =~= target);
    }
    RgbaBuffer { width: origin.width, height: origin.height, data: container }
}

/// Makes `origin` symmetric along the axis that `direction` implies,
/// keeping the half it names.
pub fn symmetrize_static(origin: &RgbaBuffer, direction: &str) -> (r: RgbaBuffer)
    ensures
        r@ == mirrored(origin@, spec_mirror_for(direction@)),
{
    let m = mirror_for(direction);
    mirror_image(origin, m)
}

/// Every channel of the mirrored picture is read from the reflected pixel
/// of the original.
pub proof fn lemma_mirrored_byte(g: PixelGrid, m: Mirror, x: int, y: int, c: int)
    requires
        g.in_bounds(x, y, c),
    ensures
        mirrored(g, m).bytes.len() == 4 * (g.width * g.height),
        mirrored(g, m).byte_at(x, y, c) == g.byte_at(
            source_x(m, g.width as int, x),
            source_y(m, g.height as int, y),
            c,
        ),
{
    let w = g.width as int;
    let h = g.height as int;
    lemma_cell_in_grid(x, y, w, h);
    lemma_join_index(x, y, w);
    let k = 4 * (y * w + x) + c;
    assert(k / 4 == y * w + x);
    assert(k % 4 == c);
}

/// A mirrored picture has the size of the original and holds exactly its
/// pixels, so it is well formed.
pub proof fn law_mirror_keeps_size(g: PixelGrid, m: Mirror)
    ensures
        mirrored(g, m).width == g.width,
        mirrored(g, m).height == g.height,
        mirrored(g, m).bytes.len() == 4 * (g.width * g.height),
        mirrored(g, m).well_formed(),
{
}

/// The result of the transformation is symmetric: mirroring left or right
/// gives a picture equal to its own left-right reflection, mirroring top or
/// bottom one equal to its own top-bottom reflection.
pub proof fn law_mirror_is_symmetric(g: PixelGrid, m: Mirror, x: int, y: int, c: int)
    requires
        g.in_bounds(x, y, c),
    ensures
        (m == Mirror::KeepLeft || m == Mirror::KeepRight) ==> mirrored(g, m).byte_at(x, y, c)
            == mirrored(g, m).byte_at(g.width - 1 - x, y, c),
        (m == Mirror::KeepTop || m == Mirror::KeepBottom) ==> mirrored(g, m).byte_at(x, y, c)
            == mirrored(g, m).byte_at(x, g.height - 1 - y, c),
{
    lemma_mirrored_byte(g, m, x, y, c);
    lemma_mirrored_byte(g, m, g.width - 1 - x, y, c);
    lemma_mirrored_byte(g, m, x, g.height - 1 - y, c);
}

/// Mirroring a picture that was already mirrored the same way changes
/// nothing.
pub proof fn law_mirror_idempotent(g: PixelGrid, m: Mirror)
    ensures
        mirrored(mirrored(g, m), m) == mirrored(g, m),
{
    let once = mirrored(g, m);
    let twice = mirrored(once, m);
    let w = g.width as int;
    let h = g.height as int;
    assert forall|k: int| 0 <= k < twice.bytes.len() implies twice.bytes[k] == once.bytes[k] by {
        let p = k / 4;
        let c = k % 4;
        if w == 0 {
            assert(w * h == 0) by (nonlinear_arith)
                requires
                    w == 0,
            ;
        }
        lemma_split_index(p, w, h);
        let x = p % w;
        let y = p / w;
        assert(k == 4 * (y * w + x) + c);
        lemma_mirrored_byte(once, m, x, y, c);
        lemma_mirrored_byte(g, m, x, y, c);
        let sx = source_x(m, w, x);
        let sy = source_y(m, h, y);
        lemma_mirrored_byte(g, m, sx, sy, c);
        assert(source_x(m, w, sx) == sx);
        assert(source_y(m, h, sy) == sy);
    }
    assert(twice.bytes =~= once.bytes);
}

/// The picture equals its own left-right reflection.
pub open spec fn symmetric_left_right(g: PixelGrid) -> bool {
    forall|x: int, y: int, c: int|
        g.in_bounds(x, y, c) ==> #[trigger] g.byte_at(x, y, c) == g.byte_at(g.width - 1 - x, y, c)
}

/// The picture equals its own top-bottom reflection.
pub open spec fn symmetric_top_bottom(g: PixelGrid) -> bool {
    forall|x: int, y: int, c: int|
        g.in_bounds(x, y, c) ==> #[trigger] g.byte_at(x, y, c) == g.byte_at(x, g.height - 1 - y, c)
}

/// A picture that is already symmetric along the axis of the mirror, and
/// holds no bytes beyond its pixels, is left unchanged.
pub proof fn law_mirror_fixes_symmetric(g: PixelGrid, m: Mirror)
    requires
        g.bytes.len() == 4 * (g.width * g.height),
        (m == Mirror::KeepLeft || m == Mirror::KeepRight) ==> symmetric_left_right(g),
        (m == Mirror::KeepTop || m == Mirror::KeepBottom) ==> symmetric_top_bottom(g),
    ensures
        mirrored(g, m) == g,
{
    let out = mirrored(g, m);
    let w = g.width as int;
    let h = g.height as int;
    assert forall|k: int| 0 <= k < out.bytes.len() implies out.bytes[k] == g.bytes[k] by {
        let p = k / 4;
        let c = k % 4;
        if w == 0 {
            assert(w * h == 0) by (nonlinear_arith)
                requires
                    w == 0,
            ;
        }
        lemma_split_index(p, w, h);
        let x = p % w;
        let y = p / w;
        assert(k == 4 * (y * w + x) + c);
        lemma_mirrored_byte(g, m, x, y, c);
        assert(g.byte_at(x, y, c) == g.bytes[k]);
        assert(g.byte_at(x, y, c) == g.byte_at(w - 1 - x, y, c) || !(m == Mirror::KeepLeft
            || m == Mirror::KeepRight));
        assert(g.byte_at(x, y, c) == g.byte_at(x, h - 1 - y, c) || !(m == Mirror::KeepTop
            || m == Mirror::KeepBottom));
    }
    assert(out.bytes =~= g.bytes);
}

/// The picture reflected left to right (the image crate's
/// `imageops::flip_horizontal`), holding exactly its pixels.
pub open spec fn flipped_left_right(g: PixelGrid) -> PixelGrid {
    let w = g.width as int;
    PixelGrid {
        width: g.width,
        height: g.height,
        bytes: Seq::new(
            4 * (g.width * g.height),
            |k: int| g.byte_at(w - 1 - (k / 4) % w, (k / 4) / w, k % 4),
        ),
    }
}

/// The picture reflected top to bottom (the image crate's
/// `imageops::flip_vertical`), holding exactly its pixels.
pub open spec fn flipped_top_bottom(g: PixelGrid) -> PixelGrid {
    let w = g.width as int;
    let h = g.height as int;
    PixelGrid {
        width: g.width,
        height: g.height,
        bytes: Seq::new(
            4 * (g.width * g.height),
            |k: int| g.byte_at((k / 4) % w, h - 1 - (k / 4) / w, k % 4),
        ),
    }
}

proof fn lemma_flipped_byte(g: PixelGrid, x: int, y: int, c: int)
    requires
        g.in_bounds(x, y, c),
    ensures
        flipped_left_right(g).byte_at(x, y, c) == g.byte_at(g.width - 1 - x, y, c),
        flipped_top_bottom(g).byte_at(x, y, c) == g.byte_at(x, g.height - 1 - y, c),
{
    let w = g.width as int;
    let h = g.height as int;
    lemma_cell_in_grid(x, y, w, h);
    lemma_join_index(x, y, w);
    let k = 4 * (y * w + x) + c;
    assert(k / 4 == y * w + x);
    assert(k % 4 == c);
}

/// Keeping the right half is keeping the left half of the reflected
/// picture and reflecting back; keeping the bottom half is likewise
/// keeping the top half of the picture turned upside down.
pub proof fn law_right_is_flipped_left(g: PixelGrid)
    ensures
        mirrored(g, Mirror::KeepRight) == flipped_left_right(
            mirrored(flipped_left_right(g), Mirror::KeepLeft),
        ),
        mirrored(g, Mirror::KeepBottom) == flipped_top_bottom(
            mirrored(flipped_top_bottom(g), Mirror::KeepTop),
        ),
{
    let w = g.width as int;
    let h = g.height as int;
    let right = mirrored(g, Mirror::KeepRight);
    let fl = flipped_left_right(g);
    let back = flipped_left_right(mirrored(fl, Mirror::KeepLeft));
    let bottom = mirrored(g, Mirror::KeepBottom);
    let ft = flipped_top_bottom(g);
    let up = flipped_top_bottom(mirrored(ft, Mirror::KeepTop));
    assert forall|k: int| 0 <= k < right.bytes.len() implies right.bytes[k] == back.bytes[k]
        && bottom.bytes[k] == up.bytes[k] by {
        let p = k / 4;
        let c = k % 4;
        if w == 0 {
            assert(w * h == 0) by (nonlinear_arith)
                requires
                    w == 0,
            ;
        }
        lemma_split_index(p, w, h);
        let x = p % w;
        let y = p / w;
        assert(k == 4 * (y * w + x) + c);
        lemma_mirrored_byte(g, Mirror::KeepRight, x, y, c);
        lemma_mirrored_byte(g, Mirror::KeepBottom, x, y, c);
        let mx = w - 1 - x;
        lemma_flipped_byte(mirrored(fl, Mirror::KeepLeft), x, y, c);
        lemma_mirrored_byte(fl, Mirror::KeepLeft, mx, y, c);
        lemma_flipped_byte(g, source_x(Mirror::KeepLeft, w, mx), y, c);
        let my = h - 1 - y;
        lemma_flipped_byte(mirrored(ft, Mirror::KeepTop), x, y, c);
        lemma_mirrored_byte(ft, Mirror::KeepTop, x, my, c);
        lemma_flipped_byte(g, x, source_y(Mirror::KeepTop, h, my), c);
    }
    assert(right.bytes =~= back.bytes);
    assert(bottom.bytes =~= up.bytes);
}

/// `r` keeps, at channel `(x, y, c)`, the half of `g` that `direction`
/// names, and is symmetric there along the axis it implies: "上" keeps the
/// top rows and reflects them downwards, "下" keeps the bottom rows, "右"
/// the right columns, and "左" (or any other word) the left columns.
pub open spec fn keeps_named_half(
    r: PixelGrid,
    g: PixelGrid,
    direction: Seq<char>,
    x: int,
    y: int,
    c: int,
) -> bool {
    let w = g.width as int;
    let h = g.height as int;
    let vertical = direction == seq!['上'] || direction == seq!['下'];
    &&& r.width == g.width && r.height == g.height
    &&& direction == seq!['上'] && y <= h - 1 - y ==> r.byte_at(x, y, c) == g.byte_at(x, y, c)
    &&& direction == seq!['下'] && y >= h - 1 - y ==> r.byte_at(x, y, c) == g.byte_at(x, y, c)
    &&& direction == seq!['右'] && x >= w - 1 - x ==> r.byte_at(x, y, c) == g.byte_at(x, y, c)
    &&& !vertical && direction != seq!['右'] && x <= w - 1 - x ==> r.byte_at(x, y, c) == g.byte_at(
        x,
        y,
        c,
    )
    &&& vertical ==> r.byte_at(x, y, c) == r.byte_at(x, h - 1 - y, c)
    &&& !vertical ==> r.byte_at(x, y, c) == r.byte_at(w - 1 - x, y, c)
}

/// The symmetric picture keeps the half that the direction word names and
/// reflects it onto the other half.
pub proof fn law_static_keeps_named_half(g: PixelGrid, direction: Seq<char>, x: int, y: int, c: int)
    requires
        g.in_bounds(x, y, c),
    ensures
        keeps_named_half(mirrored(g, spec_mirror_for(direction)), g, direction, x, y, c),
{
    let m = spec_mirror_for(direction);
    assert(seq!['右'][0] != seq!['上'][0]);
    assert(seq!['右'][0] != seq!['下'][0]);
    assert(seq!['上'][0] != seq!['下'][0]);
    assert(seq!['右'] != seq!['上'] && seq!['右'] != seq!['下'] && seq!['上'] != seq!['下']);
    if direction == seq!['上'] {
        assert(m == Mirror::KeepTop);
    } else if direction == seq!['下'] {
        assert(m == Mirror::KeepBottom);
    } else if direction == seq!['右'] {
        assert(m == Mirror::KeepRight);
    } else {
        assert(m == Mirror::KeepLeft);
    }
    lemma_mirrored_byte(g, m, x, y, c);
    law_mirror_is_symmetric(g, m, x, y, c);
}

} // verus!
