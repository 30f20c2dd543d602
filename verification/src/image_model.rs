//! The crate's own image representation and the per-pixel compositing rules.
//!
//! An image is a row-major RGBA byte buffer.  Keeping the pixels as plain
//! bytes lets every compositing step carry an exact per-pixel contract;
//! resampling and format codecs, which have no short mathematical statement,
//! stay behind the trusted wrappers in `imaging`.

use vstd::prelude::*;
use vstd::string::StringExecFns;
use crate::errors::TileServiceError;

verus! {

/// One RGBA pixel.
#[derive(Clone, Copy, Debug, PartialEq, Eq, Structural)]
pub struct Pixel {
    pub r: u8,
    pub g: u8,
    pub b: u8,
    pub a: u8,
}

/// The mathematical value of an image: dimensions and the flat RGBA bytes.
#[verifier::ext_equal]
pub ghost struct SpecImage {
    pub width: int,
    pub height: int,
    pub pixels: Seq<u8>,
}

impl SpecImage {
    /// Four bytes per pixel, row major.
    pub open spec fn wf(self) -> bool {
        self.pixels.len() == 4 * self.width * self.height
    }

    pub open spec fn pixel(self, x: int, y: int) -> Pixel {
        let base = 4 * (y * self.width + x);
        Pixel {
            r: self.pixels[base],
            g: self.pixels[base + 1],
            b: self.pixels[base + 2],
            a: self.pixels[base + 3],
        }
    }
}

/// A row-major RGBA image.
#[derive(Clone, Debug)]
pub struct TileImage {
    pub width: u32,
    pub height: u32,
    pub pixels: Vec<u8>,
}

impl View for TileImage {
    type V = SpecImage;

    open spec fn view(&self) -> SpecImage {
        SpecImage {
            width: self.width as int,
            height: self.height as int,
            pixels: self.pixels@,
        }
    }
}

pub proof fn lemma_pixel_offset_bounds(w: int, h: int, x: int, y: int)
    requires
        0 <= x < w,
        0 <= y < h,
    ensures
        0 <= 4 * (y * w + x),
        4 * (y * w + x) + 3 < 4 * w * h,
{
    assert(0 <= y * w + x && y * w + x < w * h) by (nonlinear_arith)
        requires
            0 <= x < w,
            0 <= y < h,
    ;
    assert(4 * (y * w + x) + 3 < 4 * (w * h)) by (nonlinear_arith)
        requires
            y * w + x < w * h,
    ;
    assert(4 * (w * h) == 4 * w * h) by (nonlinear_arith);
}

/// Appending the bytes of one pixel to a buffer that ends just before the
/// row-major slot (px, py) makes that pixel readable there and leaves every
/// earlier slot unchanged.
pub proof fn lemma_pixel_push(pre: Seq<u8>, post: Seq<u8>, p: Pixel, w: int, h: int, px: int, py: int)
    requires
        0 <= px < w,
        0 <= py,
        pre.len() == 4 * (py * w + px),
        post == pre + seq![p.r, p.g, p.b, p.a],
    ensures
        (SpecImage { width: w, height: h, pixels: post }).pixel(px, py) == p,
        forall|qx: int, qy: int|
            0 <= qx < w && 0 <= qy && (qy < py || (qy == py && qx < px))
                ==> #[trigger] (SpecImage { width: w, height: h, pixels: post }).pixel(qx, qy)
                == (SpecImage { width: w, height: h, pixels: pre }).pixel(qx, qy),
{
    assert(post[pre.len() as int] == p.r);
    assert(post[pre.len() as int + 1] == p.g);
    assert(post[pre.len() as int + 2] == p.b);
    assert(post[pre.len() as int + 3] == p.a);
    assert forall|qx: int, qy: int|
        0 <= qx < w && 0 <= qy && (qy < py || (qy == py && qx < px)) implies #[trigger] (SpecImage {
        width: w,
        height: h,
        pixels: post,
    }).pixel(qx, qy) == (SpecImage { width: w, height: h, pixels: pre }).pixel(qx, qy) by {
        assert(0 <= 4 * (qy * w + qx) && 4 * (qy * w + qx) + 3 < pre.len()) by (nonlinear_arith)
            requires
                0 <= qx < w,
                0 <= qy,
                qy < py || (qy == py && qx < px),
                pre.len() == 4 * (py * w + px),
                0 <= px < w,
        ;
    }
}

impl TileImage {
    /// The buffer holds exactly four bytes per pixel.
    pub open spec fn wf(self) -> bool {
        self@.wf()
    }

    /// Reads the pixel at (x, y).
    pub fn get_pixel(&self, x: u32, y: u32) -> (p: Pixel)
        requires
            self.wf(),
            x < self.width,
            y < self.height,
        ensures
            p == self@.pixel(x as int, y as int),
    {
        let n = self.pixels.len();
        proof {
            lemma_pixel_offset_bounds(self.width as int, self.height as int, x as int, y as int);
            assert((y as int) * (self.width as int) <= 4 * ((y as int) * (self.width as int) + (
            x as int))) by (nonlinear_arith)
                requires
                    0 <= y as int,
                    0 <= self.width as int,
                    0 <= x as int,
            ;
        }
        let idx: usize = 4 * ((y as usize) * (self.width as usize) + (x as usize));
        Pixel {
            r: self.pixels[idx],
            g: self.pixels[idx + 1],
            b: self.pixels[idx + 2],
            a: self.pixels[idx + 3],
        }
    }
}

pub fn push_pixel(out: &mut Vec<u8>, p: Pixel)
    ensures
        final(out)@ == old(out)@ + seq![p.r, p.g, p.b, p.a],
{
    out.push(p.r);
    out.push(p.g);
    out.push(p.b);
    out.push(p.a);
    proof {
        assert(final(out)@ =~= old(out)@ + seq![p.r, p.g, p.b, p.a]);
    }
}

/// One blended channel: `overlay * a/255 + base * (1 - a/255)`, rounded
/// toward zero.
pub open spec fn spec_blend_channel(overlay: u8, base: u8, alpha: u8) -> u8 {
    (((overlay * alpha) + (base * (255 - alpha))) / 255) as u8
}

/// The blend of an overlay pixel onto a base pixel.  The colour channels
/// follow the usual convex blend by the overlay's alpha; the blended alpha
/// is additionally floored at the overlay's own alpha, which is this
/// service's rule rather than the standard over-operator.
pub open spec fn spec_blend(base: Pixel, overlay: Pixel) -> Pixel {
    let blended_alpha = spec_blend_channel(overlay.a, base.a, overlay.a);
    Pixel {
        r: spec_blend_channel(overlay.r, base.r, overlay.a),
        g: spec_blend_channel(overlay.g, base.g, overlay.a),
        b: spec_blend_channel(overlay.b, base.b, overlay.a),
        a: if blended_alpha >= overlay.a {
            blended_alpha
        } else {
            overlay.a
        },
    }
}

/// A fully opaque overlay pixel replaces the base colour outright, and a
/// fully transparent one leaves the base colour untouched.
pub proof fn lemma_blend_extremes(base: Pixel, overlay: Pixel)
    ensures
        overlay.a == 255 ==> spec_blend(base, overlay).r == overlay.r && spec_blend(
            base,
            overlay,
        ).g == overlay.g && spec_blend(base, overlay).b == overlay.b,
        overlay.a == 0 ==> spec_blend(base, overlay).r == base.r && spec_blend(base, overlay).g
            == base.g && spec_blend(base, overlay).b == base.b,
{
    if overlay.a == 255 {
        assert(spec_blend_channel(overlay.r, base.r, 255) == overlay.r) by (nonlinear_arith);
        assert(spec_blend_channel(overlay.g, base.g, 255) == overlay.g) by (nonlinear_arith);
        assert(spec_blend_channel(overlay.b, base.b, 255) == overlay.b) by (nonlinear_arith);
    }
    if overlay.a == 0 {
        assert(spec_blend_channel(overlay.r, base.r, 0) == base.r) by (nonlinear_arith);
        assert(spec_blend_channel(overlay.g, base.g, 0) == base.g) by (nonlinear_arith);
        assert(spec_blend_channel(overlay.b, base.b, 0) == base.b) by (nonlinear_arith);
    }
}

fn blend_channel(overlay: u8, base: u8, alpha: u8) -> (r: u8)
    ensures
        r == spec_blend_channel(overlay, base, alpha),
{
    proof {
        assert(overlay * alpha + base * (255 - alpha) <= 255 * 255) by (nonlinear_arith)
            requires
                overlay <= 255,
                base <= 255,
                alpha <= 255,
        ;
    }
    ((overlay as u32 * alpha as u32 + base as u32 * (255 - alpha as u32)) / 255) as u8
}

/// Blends one overlay pixel onto one base pixel.
pub fn blend_pixel(base: Pixel, overlay: Pixel) -> (p: Pixel)
    ensures
        p == spec_blend(base, overlay),
{
    let r = blend_channel(overlay.r, base.r, overlay.a);
    let g = blend_channel(overlay.g, base.g, overlay.a);
    let b = blend_channel(overlay.b, base.b, overlay.a);
    let blended_a = blend_channel(overlay.a, base.a, overlay.a);
    let a_out = if blended_a >= overlay.a {
        blended_a
    } else {
        overlay.a
    };
    Pixel { r, g, b, a: a_out }
}

/// The pixel the composite of one positioned overlay shows at (x, y): the
/// blend where the overlay covers the spot, the base pixel elsewhere.
/// Overlay pixels that land outside the base are skipped, never clamped.
pub open spec fn spec_overlay_pixel(
    base_px: Pixel,
    ov: SpecImage,
    ox: int,
    oy: int,
    x: int,
    y: int,
) -> Pixel {
    if ox <= x < ox + ov.width && oy <= y < oy + ov.height {
        spec_blend(base_px, ov.pixel(x - ox, y - oy))
    } else {
        base_px
    }
}

/// The pixel left at (x, y) after blending a whole list of positioned
/// overlays in order.
pub open spec fn spec_pixel_after_overlays(
    base_px: Pixel,
    ovs: Seq<(SpecImage, int, int)>,
    x: int,
    y: int,
) -> Pixel
    decreases ovs.len(),
{
    if ovs.len() == 0 {
        base_px
    } else {
        spec_pixel_after_overlays(
            spec_overlay_pixel(base_px, ovs[0].0, ovs[0].1, ovs[0].2, x, y),
            ovs.drop_first(),
            x,
            y,
        )
    }
}

pub proof fn lemma_pixel_after_overlays_push(
    base_px: Pixel,
    ovs: Seq<(SpecImage, int, int)>,
    o: (SpecImage, int, int),
    x: int,
    y: int,
)
    ensures
        spec_pixel_after_overlays(base_px, ovs.push(o), x, y) == spec_overlay_pixel(
            spec_pixel_after_overlays(base_px, ovs, x, y),
            o.0,
            o.1,
            o.2,
            x,
            y,
        ),
    decreases ovs.len(),
{
    if ovs.len() == 0 {
        assert(ovs.push(o)[0] == o);
        assert(ovs.push(o).drop_first() =~= Seq::<(SpecImage, int, int)>::empty());
        let stepped = spec_overlay_pixel(base_px, o.0, o.1, o.2, x, y);
        assert(spec_pixel_after_overlays(stepped, Seq::<(SpecImage, int, int)>::empty(), x, y)
            == stepped);
        assert(spec_pixel_after_overlays(base_px, ovs.push(o), x, y) == spec_pixel_after_overlays(
            stepped,
            ovs.push(o).drop_first(),
            x,
            y,
        ));
        assert(spec_pixel_after_overlays(base_px, ovs, x, y) == base_px);
    } else {
        assert(ovs.push(o)[0] == ovs[0]);
        assert(ovs.push(o).drop_first() =~= ovs.drop_first().push(o));
        let stepped = spec_overlay_pixel(base_px, ovs[0].0, ovs[0].1, ovs[0].2, x, y);
        lemma_pixel_after_overlays_push(stepped, ovs.drop_first(), o, x, y);
        assert(spec_pixel_after_overlays(base_px, ovs.push(o), x, y)
            == spec_pixel_after_overlays(stepped, ovs.drop_first().push(o), x, y));
        assert(spec_pixel_after_overlays(base_px, ovs, x, y) == spec_pixel_after_overlays(
            stepped,
            ovs.drop_first(),
            x,
            y,
        ));
    }
}

/// Blends every pixel of `overlay` that lands inside `base` onto `base` at
/// the given offset.
pub fn composite_overlay(base: &TileImage, overlay: &TileImage, off_x: u32, off_y: u32) -> (r:
    TileImage)
    requires
        base.wf(),
        overlay.wf(),
    ensures
        r.wf(),
        r.width == base.width,
        r.height == base.height,
        forall|x: int, y: int|
            0 <= x < base.width && 0 <= y < base.height ==> #[trigger] r@.pixel(x, y)
                == spec_overlay_pixel(
                base@.pixel(x, y),
                overlay@,
                off_x as int,
                off_y as int,
                x,
                y,
            ),
{
    let w = base.width;
    let h = base.height;
    let ghost gw = w as int;
    let ghost gh = h as int;
    let mut out: Vec<u8> = Vec::new();
    let mut y: u32 = 0;
    while y < h
        invariant
            base.wf(),
            overlay.wf(),
            w == base.width,
            h == base.height,
            gw == w as int,
            gh == h as int,
            y <= h,
            out@.len() == 4 * ((y as int) * gw),
            forall|px: int, py: int|
                0 <= px < gw && 0 <= py < y ==> #[trigger] (SpecImage {
                    width: gw,
                    height: gh,
                    pixels: out@,
                }).pixel(px, py) == spec_overlay_pixel(
                    base@.pixel(px, py),
                    overlay@,
                    off_x as int,
                    off_y as int,
                    px,
                    py,
                ),
        decreases h - y,
    {
        let mut x: u32 = 0;
        while x < w
            invariant
                base.wf(),
                overlay.wf(),
                w == base.width,
                h == base.height,
                gw == w as int,
                gh == h as int,
                y < h,
                x <= w,
                out@.len() == 4 * ((y as int) * gw + x as int),
                forall|px: int, py: int|
                    (0 <= px < gw && 0 <= py < y) || (0 <= px < x && py == y)
                        ==> #[trigger] (SpecImage {
                        width: gw,
                        height: gh,
                        pixels: out@,
                    }).pixel(px, py) == spec_overlay_pixel(
                        base@.pixel(px, py),
                        overlay@,
                        off_x as int,
                        off_y as int,
                        px,
                        py,
                    ),
            decreases w - x,
        {
            let bp = base.get_pixel(x, y);
            let covered = x as u64 >= off_x as u64 && y as u64 >= off_y as u64 && (x as u64
                - off_x as u64) < overlay.width as u64 && (y as u64 - off_y as u64)
                < overlay.height as u64;
            let p = if covered {
                let op = overlay.get_pixel(x - off_x, y - off_y);
                blend_pixel(bp, op)
            } else {
                bp
            };
            let ghost pre = out@;
            proof {
                assert(pre.len() + 4 <= 4 * ((y as int) * gw + gw)) by (nonlinear_arith)
                    requires
                        pre.len() == 4 * ((y as int) * gw + x as int),
                        (x as int) < gw,
                ;
            }
            push_pixel(&mut out, p);
            proof {
                lemma_pixel_push(pre, out@, p, gw, gh, x as int, y as int);
                assert(p == spec_overlay_pixel(
                    base@.pixel(x as int, y as int),
                    overlay@,
                    off_x as int,
                    off_y as int,
                    x as int,
                    y as int,
                ));
            }
            x = x + 1;
        }
        proof {
            assert(4 * ((y as int + 1) * gw) == 4 * ((y as int) * gw + gw)) by (nonlinear_arith);
        }
        y = y + 1;
    }
    let img = TileImage { width: w, height: h, pixels: out };
    proof {
        assert(4 * (gh * gw) == 4 * gw * gh) by (nonlinear_arith);
    }
    img
}

/// A square tile of one uniform pixel.
pub fn solid_tile(size: u32, p: Pixel) -> (r: TileImage)
    requires
        4 * (size as int) * (size as int) <= usize::MAX,
    ensures
        r.wf(),
        r.width == size,
        r.height == size,
        forall|x: int, y: int|
            0 <= x < size && 0 <= y < size ==> #[trigger] r@.pixel(x, y) == p,
{
    let ghost gs = size as int;
    let mut out: Vec<u8> = Vec::new();
    let mut y: u32 = 0;
    while y < size
        invariant
            4 * gs * gs <= usize::MAX,
            gs == size as int,
            y <= size,
            out@.len() == 4 * ((y as int) * gs),
            forall|px: int, py: int|
                0 <= px < gs && 0 <= py < y ==> #[trigger] (SpecImage {
                    width: gs,
                    height: gs,
                    pixels: out@,
                }).pixel(px, py) == p,
        decreases size - y,
    {
        let mut x: u32 = 0;
        while x < size
            invariant
                4 * gs * gs <= usize::MAX,
                gs == size as int,
                y < size,
                x <= size,
                out@.len() == 4 * ((y as int) * gs + x as int),
                forall|px: int, py: int|
                    (0 <= px < gs && 0 <= py < y) || (0 <= px < x && py == y)
                        ==> #[trigger] (SpecImage {
                        width: gs,
                        height: gs,
                        pixels: out@,
                    }).pixel(px, py) == p,
            decreases size - x,
        {
            let ghost pre = out@;
            proof {
                assert(pre.len() + 4 <= 4 * ((y as int) * gs + gs)) by (nonlinear_arith)
                    requires
                        pre.len() == 4 * ((y as int) * gs + x as int),
                        (x as int) < gs,
                ;
                assert(4 * ((y as int) * gs + gs) <= 4 * gs * gs) by (nonlinear_arith)
                    requires
                        0 <= (y as int) < gs,
                ;
            }
            push_pixel(&mut out, p);
            proof {
                lemma_pixel_push(pre, out@, p, gs, gs, x as int, y as int);
            }
            x = x + 1;
        }
        proof {
            assert(4 * ((y as int + 1) * gs) == 4 * ((y as int) * gs + gs)) by (nonlinear_arith);
        }
        y = y + 1;
    }
    let img = TileImage { width: size, height: size, pixels: out };
    proof {
        assert(4 * (gs * gs) == 4 * gs * gs) by (nonlinear_arith);
    }
    img
}



/// One channel of a pixel: 0 red, 1 green, 2 blue, else alpha.
pub open spec fn pixel_channel(p: Pixel, c: int) -> u8 {
    if c == 0 {
        p.r
    } else if c == 1 {
        p.g
    } else if c == 2 {
        p.b
    } else {
        p.a
    }
}

/// The image whose pixel at (x, y) is `f(x, y)`.
pub open spec fn image_from_fn(w: int, h: int, f: spec_fn(int, int) -> Pixel) -> SpecImage {
    SpecImage {
        width: w,
        height: h,
        pixels: Seq::new(
            (4 * w * h) as nat,
            |k: int| pixel_channel(f((k / 4) % w, (k / 4) / w), k % 4),
        ),
    }
}

pub proof fn lemma_image_from_fn_pixel(
    w: int,
    h: int,
    f: spec_fn(int, int) -> Pixel,
    x: int,
    y: int,
)
    requires
        0 <= x < w,
        0 <= y < h,
    ensures
        image_from_fn(w, h, f).wf(),
        image_from_fn(w, h, f).pixel(x, y) == f(x, y),
{
    let img = image_from_fn(w, h, f);
    let base = 4 * (y * w + x);
    lemma_pixel_offset_bounds(w, h, x, y);
    vstd::arithmetic::div_mod::lemma_fundamental_div_mod_converse(y * w + x, w, y, x);
    vstd::arithmetic::div_mod::lemma_fundamental_div_mod_converse(base + 0, 4, y * w + x, 0);
    vstd::arithmetic::div_mod::lemma_fundamental_div_mod_converse(base + 1, 4, y * w + x, 1);
    vstd::arithmetic::div_mod::lemma_fundamental_div_mod_converse(base + 2, 4, y * w + x, 2);
    vstd::arithmetic::div_mod::lemma_fundamental_div_mod_converse(base + 3, 4, y * w + x, 3);
    assert(img.pixels[base + 0] == f(x, y).r);
    assert(img.pixels[base + 1] == f(x, y).g);
    assert(img.pixels[base + 2] == f(x, y).b);
    assert(img.pixels[base + 3] == f(x, y).a);
}

/// The region of an image as a spec-level image: byte `k` of the crop comes
/// from the source pixel `(x + (k/4) % w, y + (k/4) / w)`.
pub open spec fn spec_crop(img: SpecImage, x: int, y: int, w: int, h: int) -> SpecImage {
    SpecImage {
        width: w,
        height: h,
        pixels: Seq::new(
            (4 * w * h) as nat,
            |k: int|
                img.pixels[4 * (((k / 4) / w + y) * img.width + ((k / 4) % w + x)) + k % 4],
        ),
    }
}

pub proof fn lemma_spec_crop_pixel(img: SpecImage, x: int, y: int, w: int, h: int, px: int, py: int)
    requires
        0 <= px < w,
        0 <= py < h,
    ensures
        spec_crop(img, x, y, w, h).wf(),
        spec_crop(img, x, y, w, h).pixel(px, py) == img.pixel(x + px, y + py),
{
    let c = spec_crop(img, x, y, w, h);
    assert(c.pixels.len() == 4 * w * h);
    let base = 4 * (py * w + px);
    lemma_pixel_offset_bounds(w, h, px, py);
    vstd::arithmetic::div_mod::lemma_fundamental_div_mod_converse(py * w + px, w, py, px);
    vstd::arithmetic::div_mod::lemma_fundamental_div_mod_converse(base + 0, 4, py * w + px, 0);
    vstd::arithmetic::div_mod::lemma_fundamental_div_mod_converse(base + 1, 4, py * w + px, 1);
    vstd::arithmetic::div_mod::lemma_fundamental_div_mod_converse(base + 2, 4, py * w + px, 2);
    vstd::arithmetic::div_mod::lemma_fundamental_div_mod_converse(base + 3, 4, py * w + px, 3);
    assert(c.pixels[base + 0] == img.pixels[4 * ((py + y) * img.width + (px + x)) + 0]);
    assert(c.pixels[base + 1] == img.pixels[4 * ((py + y) * img.width + (px + x)) + 1]);
    assert(c.pixels[base + 2] == img.pixels[4 * ((py + y) * img.width + (px + x)) + 2]);
    assert(c.pixels[base + 3] == img.pixels[4 * ((py + y) * img.width + (px + x)) + 3]);
}

/// Two well-formed images of one geometry with equal pixels hold equal
/// byte buffers.
pub proof fn lemma_pixels_determine(a: SpecImage, b: SpecImage)
    requires
        a.wf(),
        b.wf(),
        a.width >= 0,
        a.height >= 0,
        a.width == b.width,
        a.height == b.height,
        forall|x: int, y: int|
            0 <= x < a.width && 0 <= y < a.height ==> #[trigger] a.pixel(x, y) == b.pixel(x, y),
    ensures
        a.pixels =~= b.pixels,
{
    let w = a.width;
    let h = a.height;
    if w <= 0 || h <= 0 {
        assert(4 * w * h == 0) by (nonlinear_arith)
            requires
                0 <= w,
                0 <= h,
                w <= 0 || h <= 0,
        ;
    } else {
        assert forall|k: int| 0 <= k < a.pixels.len() implies a.pixels[k] == b.pixels[k] by {
            let p = k / 4;
            let ch = k % 4;
            let py = p / w;
            let px = p % w;
            vstd::arithmetic::div_mod::lemma_fundamental_div_mod(k, 4);
            vstd::arithmetic::div_mod::lemma_fundamental_div_mod(p, w);
            assert(0 <= p < w * h) by (nonlinear_arith)
                requires
                    0 <= k < 4 * w * h,
                    p == k / 4,
            ;
            assert(0 <= px < w && 0 <= py < h) by (nonlinear_arith)
                requires
                    0 <= p < w * h,
                    w > 0,
                    py == p / w,
                    px == p % w,
            ;
            assert(k == 4 * (py * w + px) + ch);
            assert(a.pixel(px, py) == b.pixel(px, py));
            lemma_pixel_offset_bounds(w, h, px, py);
            if ch == 0 {
                assert(a.pixels[k] == a.pixel(px, py).r && b.pixels[k] == b.pixel(px, py).r);
            } else if ch == 1 {
                assert(a.pixels[k] == a.pixel(px, py).g && b.pixels[k] == b.pixel(px, py).g);
            } else if ch == 2 {
                assert(a.pixels[k] == a.pixel(px, py).b && b.pixels[k] == b.pixel(px, py).b);
            } else {
                assert(a.pixels[k] == a.pixel(px, py).a && b.pixels[k] == b.pixel(px, py).a);
            }
        }
    }
}

/// Extracts the `w x h` region of `img` at (x, y); rejects a region that
/// reaches past the source.
pub fn crop(img: &TileImage, x: u32, y: u32, w: u32, h: u32) -> (r: Result<
    TileImage,
    TileServiceError,
>)
    requires
        img.wf(),
    ensures
        r is Ok <==> (x + w <= img.width && y + h <= img.height),
        r matches Ok(c) ==> c.wf() && c.width == w && c.height == h && c@ == spec_crop(
            img@,
            x as int,
            y as int,
            w as int,
            h as int,
        ) && forall|px: int, py: int|
            0 <= px < w && 0 <= py < h ==> #[trigger] c@.pixel(px, py) == img@.pixel(
                x + px,
                y + py,
            ),
        r matches Err(e) ==> e matches TileServiceError::ProcessingFailure(_),
{
    if (x as u64) + (w as u64) > img.width as u64 || (y as u64) + (h as u64)
        > img.height as u64 {
        return Err(
            TileServiceError::ProcessingFailure(String::from_str("crop region out of bounds")),
        );
    }
    let ghost gw = w as int;
    let ghost gh = h as int;
    let mut out: Vec<u8> = Vec::new();
    let mut py: u32 = 0;
    while py < h
        invariant
            img.wf(),
            x + w <= img.width,
            y + h <= img.height,
            gw == w as int,
            gh == h as int,
            py <= h,
            out@.len() == 4 * ((py as int) * gw),
            forall|qx: int, qy: int|
                0 <= qx < gw && 0 <= qy < py ==> #[trigger] (SpecImage {
                    width: gw,
                    height: gh,
                    pixels: out@,
                }).pixel(qx, qy) == img@.pixel(x + qx, y + qy),
        decreases h - py,
    {
        let mut px: u32 = 0;
        while px < w
            invariant
                img.wf(),
                x + w <= img.width,
                y + h <= img.height,
                gw == w as int,
                gh == h as int,
                py < h,
                px <= w,
                out@.len() == 4 * ((py as int) * gw + px as int),
                forall|qx: int, qy: int|
                    (0 <= qx < gw && 0 <= qy < py) || (0 <= qx < px && qy == py)
                        ==> #[trigger] (SpecImage {
                        width: gw,
                        height: gh,
                        pixels: out@,
                    }).pixel(qx, qy) == img@.pixel(x + qx, y + qy),
            decreases w - px,
        {
            let p = img.get_pixel(x + px, y + py);
            let ghost pre = out@;
            proof {
                assert(pre.len() + 4 <= 4 * ((py as int) * gw + gw)) by (nonlinear_arith)
                    requires
                        pre.len() == 4 * ((py as int) * gw + px as int),
                        (px as int) < gw,
                ;
            }
            push_pixel(&mut out, p);
            proof {
                lemma_pixel_push(pre, out@, p, gw, gh, px as int, py as int);
            }
            px = px + 1;
        }
        proof {
            assert(4 * ((py as int + 1) * gw) == 4 * ((py as int) * gw + gw)) by (nonlinear_arith);
        }
        py = py + 1;
    }
    let img_out = TileImage { width: w, height: h, pixels: out };
    proof {
        assert(4 * (gh * gw) == 4 * gw * gh) by (nonlinear_arith);
        let target = spec_crop(img@, x as int, y as int, gw, gh);
        assert forall|px: int, py: int|
            0 <= px < gw && 0 <= py < gh implies #[trigger] img_out@.pixel(px, py) == target.pixel(
            px,
            py,
        ) by {
            lemma_spec_crop_pixel(img@, x as int, y as int, gw, gh, px, py);
        }
        if gw > 0 && gh > 0 {
            lemma_spec_crop_pixel(img@, x as int, y as int, gw, gh, 0, 0);
        } else {
            assert(4 * gw * gh == 0) by (nonlinear_arith)
                requires
                    0 <= gw,
                    0 <= gh,
                    gw <= 0 || gh <= 0,
            ;
        }
        lemma_pixels_determine(img_out@, target);
        assert(img_out@ =~= target);
    }
    Ok(img_out)
}

} // verus!
