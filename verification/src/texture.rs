//! Texture import: decoding an RGBA8 image, box-filtered mip chains, and the
//! choice of the block compression format.
use vstd::prelude::*;
use vstd::string::StringSliceAdditionalSpecFns;

verus! {

/// Pixel formats of a texture asset.
#[derive(Debug, Clone, Copy, PartialEq, Eq, Structural)]
pub enum TextureFormat {
    R8g8b8a8Unorm,
    R16g16b16a16Sfloat,
}

/// An image in memory: `pixels` holds the rows one after the other, four bytes per
/// pixel for RGBA8.
pub struct TextureAsset {
    pub width: u32,
    pub height: u32,
    pub format: TextureFormat,
    pub pixels: Vec<u8>,
}

/// GPU block compression formats.
#[derive(Debug, Clone, Copy, PartialEq, Eq, Structural)]
pub enum CompressedBlockFormat {
    Bc7Unorm,
    Bc7UnormSrgb,
    Astc4x4Unorm,
    Astc4x4UnormSrgb,
    Astc6x6Unorm,
    Astc6x6UnormSrgb,
    Astc8x8Unorm,
    Astc8x8UnormSrgb,
}

/// Options controlling texture import behavior.
#[derive(Debug, Clone, Copy, PartialEq, Eq, Structural)]
pub struct TextureImportOptions {
    /// Auto-compress to a GPU block format. HDR images are never compressed.
    pub compress: Option<CompressedBlockFormat>,
    /// Generate mipmaps.
    pub generate_mips: bool,
    /// Treat as a normal map: reconstruct Z from XY and pack for better quality.
    pub normal_map: bool,
    /// Assume source is sRGB (affects compression color-space selection).
    pub srgb: bool,
}

impl Default for TextureImportOptions {
    fn default() -> (o: Self)
        ensures
            o == (TextureImportOptions {
                compress: Some(CompressedBlockFormat::Bc7Unorm),
                generate_mips: true,
                normal_map: false,
                srgb: true,
            }),
    {
        Self {
            compress: Some(CompressedBlockFormat::Bc7Unorm),
            generate_mips: true,
            normal_map: false,
            srgb: true,
        }
    }
}

/// The sRGB variant of a format, where it has one.
pub open spec fn srgb_variant(f: CompressedBlockFormat) -> CompressedBlockFormat {
    match f {
        CompressedBlockFormat::Bc7Unorm => CompressedBlockFormat::Bc7UnormSrgb,
        CompressedBlockFormat::Astc4x4Unorm => CompressedBlockFormat::Astc4x4UnormSrgb,
        CompressedBlockFormat::Astc6x6Unorm => CompressedBlockFormat::Astc6x6UnormSrgb,
        CompressedBlockFormat::Astc8x8Unorm => CompressedBlockFormat::Astc8x8UnormSrgb,
        other => other,
    }
}

/// The compression actually used: none for float (HDR) images; linear BC7 for
/// normal maps that are compressed; then the sRGB variant for sRGB sources.
pub open spec fn spec_effective_compression(
    options: TextureImportOptions,
    is_float: bool,
) -> Option<CompressedBlockFormat> {
    let c0 = if is_float {
        None
    } else {
        options.compress
    };
    let c1 = if options.normal_map && c0 is Some {
        Some(CompressedBlockFormat::Bc7Unorm)
    } else {
        c0
    };
    if options.srgb && c1 is Some {
        Some(srgb_variant(c1.unwrap()))
    } else {
        c1
    }
}

/// The block compression format that an import uses, if any.
pub fn effective_compression(options: &TextureImportOptions, is_float: bool) -> (r: Option<
    CompressedBlockFormat,
>)
    ensures
        r == spec_effective_compression(*options, is_float),
{
    let mut effective_compress = options.compress;
    // HDR images skip compression (BC7/ASTC are LDR)
    if is_float {
        effective_compress = None;
    }
    // Normal maps prefer linear BC7 for quality
    if options.normal_map && effective_compress.is_some() {
        effective_compress = Some(CompressedBlockFormat::Bc7Unorm);
    }
    // Adjust sRGB flag for compression
    if options.srgb && effective_compress.is_some() {
        effective_compress = match effective_compress {
            Some(CompressedBlockFormat::Bc7Unorm) => Some(CompressedBlockFormat::Bc7UnormSrgb),
            Some(CompressedBlockFormat::Astc4x4Unorm) => Some(
                CompressedBlockFormat::Astc4x4UnormSrgb,
            ),
            Some(CompressedBlockFormat::Astc6x6Unorm) => Some(
                CompressedBlockFormat::Astc6x6UnormSrgb,
            ),
            Some(CompressedBlockFormat::Astc8x8Unorm) => Some(
                CompressedBlockFormat::Astc8x8UnormSrgb,
            ),
            other => other,
        };
    }
    effective_compress
}

/// The byte with ASCII letters turned to lower case.
pub open spec fn ascii_lower(b: u8) -> u8 {
    if 65 <= b <= 90 {
        (b + 32) as u8
    } else {
        b
    }
}

/// Whether two byte strings are equal when ASCII letters are compared without case.
pub open spec fn eq_ignore_ascii_case(a: Seq<u8>, b: Seq<u8>) -> bool {
    a.len() == b.len() && forall|i: int| 0 <= i < a.len() ==> ascii_lower(a[i]) == ascii_lower(b[i])
}

fn bytes_eq_ignore_ascii_case(a: &[u8], b: &[u8]) -> (r: bool)
    ensures
        r == eq_ignore_ascii_case(a@, b@),
{
    if a.len() != b.len() {
        return false;
    }
    let mut i: usize = 0;
    while i < a.len()
        invariant
            0 <= i <= a@.len(),
            a@.len() == b@.len(),
            forall|k: int| 0 <= k < i ==> ascii_lower(a@[k]) == ascii_lower(b@[k]),
        decreases a@.len() - i,
    {
        let x = if a[i] >= 65 && a[i] <= 90 {
            a[i] + 32
        } else {
            a[i]
        };
        let y = if b[i] >= 65 && b[i] <= 90 {
            b[i] + 32
        } else {
            b[i]
        };
        if x != y {
            return false;
        }
        i = i + 1;
    }
    true
}

/// Whether a file extension names an HDR image format ("hdr" or "exr", in any case).
pub fn is_hdr_extension(ext: &str) -> (r: bool)
    ensures
        r == (eq_ignore_ascii_case(ext.spec_bytes(), "hdr".spec_bytes()) || eq_ignore_ascii_case(
            ext.spec_bytes(),
            "exr".spec_bytes(),
        )),
{
    bytes_eq_ignore_ascii_case(ext.as_bytes(), "hdr".as_bytes()) || bytes_eq_ignore_ascii_case(
        ext.as_bytes(),
        "exr".as_bytes(),
    )
}

/// A mip level's side: half the side, but at least 1.
pub open spec fn half_dim(d: int) -> int {
    if d / 2 >= 1 {
        d / 2
    } else {
        1
    }
}

/// Position of channel `ch` of pixel (x, y) in an image `w` pixels wide.
pub open spec fn pixel_index(w: int, x: int, y: int, ch: int) -> int {
    (y * w + x) * 4 + ch
}

pub open spec fn min_int(a: int, b: int) -> int {
    if a <= b {
        a
    } else {
        b
    }
}

/// Channel `ch` of pixel (x, y) of the half-size image: the average, rounded down,
/// of the 2x2 source block at (2x, 2y), clamped at the right and bottom edges.
pub open spec fn halved_byte(w: int, h: int, px: Seq<u8>, x: int, y: int, ch: int) -> u8 {
    let sx = min_int(x * 2, w - 1);
    let sy = min_int(y * 2, h - 1);
    let sx2 = min_int(sx + 1, w - 1);
    let sy2 = min_int(sy + 1, h - 1);
    ((px[pixel_index(w, sx, sy, ch)] + px[pixel_index(w, sx2, sy, ch)] + px[pixel_index(
        w,
        sx,
        sy2,
        ch,
    )] + px[pixel_index(w, sx2, sy2, ch)]) / 4) as u8
}

/// `halve_rgba8` applies to an image of at least one pixel whose pixel buffer covers
/// it and whose half-size buffer length fits a `u32`.
pub open spec fn halve_ok(width: u32, height: u32, pixels: Seq<u8>) -> bool {
    &&& width >= 1
    &&& height >= 1
    &&& pixels.len() >= width * height * 4
    &&& half_dim(width as int) * half_dim(height as int) * 4 <= u32::MAX
}

/// `dst` is the half-size image of the `w` x `h` image `px`.
pub open spec fn is_halved(w: int, h: int, px: Seq<u8>, dst: TextureAsset) -> bool {
    &&& dst.width == half_dim(w)
    &&& dst.height == half_dim(h)
    &&& dst.pixels@.len() == half_dim(w) * half_dim(h) * 4
    &&& forall|x: int, y: int, ch: int|
        0 <= x < half_dim(w) && 0 <= y < half_dim(h) && 0 <= ch < 4 ==> #[trigger] dst.pixels@[pixel_index(
            half_dim(w),
            x,
            y,
            ch,
        )] == halved_byte(w, h, px, x, y, ch)
}

proof fn lemma_index_bounds(w: int, h: int, x: int, y: int, ch: int)
    requires
        0 <= x < w,
        0 <= y < h,
        0 <= ch < 4,
    ensures
        0 <= pixel_index(w, x, y, ch) < w * h * 4,
        pixel_index(w, x, y, ch) == y * (w * 4) + x * 4 + ch,
{
    assert(0 <= y * w) by (nonlinear_arith)
        requires
            0 <= y,
            0 <= w,
    ;
    assert((y * w + x) * 4 + ch < w * h * 4) by (nonlinear_arith)
        requires
            0 <= x < w,
            0 <= y < h,
            0 <= ch < 4,
    ;
    assert((y * w + x) * 4 + ch == y * (w * 4) + x * 4 + ch) by (nonlinear_arith);
}

proof fn lemma_index_unique(w: int, x1: int, y1: int, c1: int, x2: int, y2: int, c2: int)
    requires
        0 <= x1 < w,
        0 <= x2 < w,
        0 <= y1,
        0 <= y2,
        0 <= c1 < 4,
        0 <= c2 < 4,
        pixel_index(w, x1, y1, c1) == pixel_index(w, x2, y2, c2),
    ensures
        x1 == x2 && y1 == y2 && c1 == c2,
{
    assert(c1 == c2 && y1 * w + x1 == y2 * w + x2) by (nonlinear_arith)
        requires
            (y1 * w + x1) * 4 + c1 == (y2 * w + x2) * 4 + c2,
            0 <= c1 < 4,
            0 <= c2 < 4,
    ;
    assert(y1 == y2 && x1 == x2) by (nonlinear_arith)
        requires
            y1 * w + x1 == y2 * w + x2,
            0 <= x1 < w,
            0 <= x2 < w,
            0 <= y1,
            0 <= y2,
    ;
}

/// Channel `ch` of pixel (x, y) of the `w` pixels wide RGBA8 buffer `px`.
pub open spec fn texel(px: Seq<u8>, w: int, x: int, y: int, ch: int) -> int {
    px[(y * w + x) * 4 + ch] as int
}

/// What halving computes, pixel by pixel: destination pixel (x, y) averages,
/// rounded down, the source pixels in columns 2x and 2x + 1 and rows 2y and
/// 2y + 1; an image one pixel wide (or high) repeats its only column (or row).
pub proof fn lemma_halved_pixel_averages_its_block(
    w: int,
    h: int,
    px: Seq<u8>,
    dst: TextureAsset,
    x: int,
    y: int,
    ch: int,
)
    requires
        w >= 1,
        h >= 1,
        is_halved(w, h, px, dst),
        0 <= x < dst.width,
        0 <= y < dst.height,
        0 <= ch < 4,
    ensures
        ({
            let c0 = 2 * x;
            let c1 = if w >= 2 {
                2 * x + 1
            } else {
                0
            };
            let r0 = 2 * y;
            let r1 = if h >= 2 {
                2 * y + 1
            } else {
                0
            };
            &&& c1 < w && r1 < h
            &&& texel(dst.pixels@, dst.width as int, x, y, ch) == (texel(px, w, c0, r0, ch) + texel(
                px,
                w,
                c1,
                r0,
                ch,
            ) + texel(px, w, c0, r1, ch) + texel(px, w, c1, r1, ch)) / 4
        }),
{
    assert(2 * (w / 2) <= w) by (nonlinear_arith)
        requires
            w >= 1,
    ;
    assert(2 * (h / 2) <= h) by (nonlinear_arith)
        requires
            h >= 1,
    ;
    assert(dst.pixels@[pixel_index(half_dim(w), x, y, ch)] == halved_byte(w, h, px, x, y, ch));
    let s = px[pixel_index(w, min_int(x * 2, w - 1), min_int(y * 2, h - 1), ch)]
        + px[pixel_index(w, min_int(min_int(x * 2, w - 1) + 1, w - 1), min_int(y * 2, h - 1), ch)]
        + px[pixel_index(w, min_int(x * 2, w - 1), min_int(min_int(y * 2, h - 1) + 1, h - 1), ch)]
        + px[pixel_index(w, min_int(min_int(x * 2, w - 1) + 1, w - 1), min_int(min_int(y * 2, h - 1) + 1, h - 1), ch)];
    assert(0 <= s / 4 < 256);
}

/// Whether `halve_rgba8` applies to the image, as `halve_ok` states.
pub fn can_halve(src: &TextureAsset) -> (r: bool)
    ensures
        r == halve_ok(src.width, src.height, src.pixels@),
{
    if src.width == 0 || src.height == 0 {
        return false;
    }
    let w = src.width as u128;
    let h = src.height as u128;
    let nw: u128 = if w / 2 >= 1 {
        w / 2
    } else {
        1
    };
    let nh: u128 = if h / 2 >= 1 {
        h / 2
    } else {
        1
    };
    assert(w * h * 4 <= 0xffff_ffff * 0xffff_ffff * 4) by (nonlinear_arith)
        requires
            w <= 0xffff_ffff,
            h <= 0xffff_ffff,
    ;
    assert(nw * nh * 4 <= w * h * 4) by (nonlinear_arith)
        requires
            1 <= nw <= w,
            1 <= nh <= h,
    ;
    (src.pixels.len() as u128) >= w * h * 4 && nw * nh * 4 <= u32::MAX as u128
}

/// Box-filter downsample of an RGBA8 texture asset for mipmap generation.
pub fn halve_rgba8(src: &TextureAsset) -> (r: Result<TextureAsset, String>)
    requires
        halve_ok(src.width, src.height, src.pixels@),
    ensures
        r matches Ok(dst) && is_halved(src.width as int, src.height as int, src.pixels@, dst)
            && dst.format == src.format,
{
    let new_w = if src.width / 2 >= 1 {
        src.width / 2
    } else {
        1
    };
    let new_h = if src.height / 2 >= 1 {
        src.height / 2
    } else {
        1
    };
    let ghost w = src.width as int;
    let ghost h = src.height as int;
    let ghost px = src.pixels@;
    let plen = src.pixels.len();
    let n = (new_w * new_h * 4) as usize;
    let mut dst: Vec<u8> = Vec::new();
    let mut k: usize = 0;
    while k < n
        invariant
            0 <= k <= n,
            dst@.len() == k,
        decreases n - k,
    {
        dst.push(0);
        k = k + 1;
    }
    proof {
        assert(w * h * 4 <= px.len());
        assert(new_w <= w && new_h <= h);
    }
    let mut y: u32 = 0;
    while y < new_h
        invariant
            0 <= y <= new_h,
            new_w == half_dim(w),
            new_h == half_dim(h),
            w == src.width,
            h == src.height,
            px == src.pixels@,
            plen == px.len(),
            halve_ok(src.width, src.height, src.pixels@),
            dst@.len() == new_w * new_h * 4,
            forall|xx: int, yy: int, c: int|
                0 <= xx < new_w && 0 <= yy < y && 0 <= c < 4 ==> #[trigger] dst@[pixel_index(
                    new_w as int,
                    xx,
                    yy,
                    c,
                )] == halved_byte(w, h, px, xx, yy, c),
        decreases new_h - y,
    {
        let mut x: u32 = 0;
        while x < new_w
            invariant
                0 <= y < new_h,
                0 <= x <= new_w,
                new_w == half_dim(w),
                new_h == half_dim(h),
                w == src.width,
                h == src.height,
                px == src.pixels@,
                plen == px.len(),
                halve_ok(src.width, src.height, src.pixels@),
                dst@.len() == new_w * new_h * 4,
                forall|xx: int, yy: int, c: int|
                    0 <= xx < new_w && 0 <= yy < new_h && 0 <= c < 4 && (yy < y || (yy == y && xx
                        < x)) ==> #[trigger] dst@[pixel_index(new_w as int, xx, yy, c)]
                        == halved_byte(w, h, px, xx, yy, c),
            decreases new_w - x,
        {
            let sx = if x * 2 < src.width - 1 {
                x * 2
            } else {
                src.width - 1
            } as usize;
            let sy = if y * 2 < src.height - 1 {
                y * 2
            } else {
                src.height - 1
            } as usize;
            let sx2 = if sx + 1 < src.width as usize - 1 {
                sx + 1
            } else {
                src.width as usize - 1
            };
            let sy2 = if sy + 1 < src.height as usize - 1 {
                sy + 1
            } else {
                src.height as usize - 1
            };
            proof {
                assert(w * 4 <= w * h * 4) by (nonlinear_arith)
                    requires
                        h >= 1,
                        w >= 1,
                ;
            }
            let stride = src.width as usize * 4;
            proof {
                lemma_index_bounds(w, h, sx as int, sy as int, 3);
                lemma_index_bounds(w, h, sx2 as int, sy as int, 3);
                lemma_index_bounds(w, h, sx as int, sy2 as int, 3);
                lemma_index_bounds(w, h, sx2 as int, sy2 as int, 3);
                lemma_index_bounds(new_w as int, new_h as int, x as int, y as int, 3);
                assert(stride == w * 4);
            }
            let dst_off = (y * new_w + x) as usize * 4;
            let mut ch: usize = 0;
            while ch < 4
                invariant
                    0 <= y < new_h,
                    0 <= x < new_w,
                    0 <= ch <= 4,
                    new_w == half_dim(w),
                    new_h == half_dim(h),
                    w == src.width,
                    h == src.height,
                    px == src.pixels@,
                    plen == px.len(),
                    halve_ok(src.width, src.height, src.pixels@),
                    stride == w * 4,
                    sx == min_int(x * 2, w - 1),
                    sy == min_int(y * 2, h - 1),
                    sx2 == min_int(sx + 1, w - 1),
                    sy2 == min_int(sy + 1, h - 1),
                    dst_off == pixel_index(new_w as int, x as int, y as int, 0),
                    dst@.len() == new_w * new_h * 4,
                    forall|xx: int, yy: int, c: int|
                        0 <= xx < new_w && 0 <= yy < new_h && 0 <= c < 4 && (yy < y || (yy == y
                            && xx < x) || (yy == y && xx == x && c < ch)) ==> #[trigger] dst@[pixel_index(
                            new_w as int,
                            xx,
                            yy,
                            c,
                        )] == halved_byte(w, h, px, xx, yy, c),
                decreases 4 - ch,
            {
                proof {
                    lemma_index_bounds(w, h, sx as int, sy as int, ch as int);
                    lemma_index_bounds(w, h, sx2 as int, sy as int, ch as int);
                    lemma_index_bounds(w, h, sx as int, sy2 as int, ch as int);
                    lemma_index_bounds(w, h, sx2 as int, sy2 as int, ch as int);
                    lemma_index_bounds(new_w as int, new_h as int, x as int, y as int, ch as int);
                    assert(sy * stride == sy * (w * 4));
                    assert(sy2 * stride == sy2 * (w * 4));
                }
                let s0 = src.pixels[sy * stride + sx * 4 + ch] as u32;
                let s1 = src.pixels[sy * stride + sx2 * 4 + ch] as u32;
                let s2 = src.pixels[sy2 * stride + sx * 4 + ch] as u32;
                let s3 = src.pixels[sy2 * stride + sx2 * 4 + ch] as u32;
                let sum: u32 = s0 + s1 + s2 + s3;
                let ghost before = dst@;
                dst.set(dst_off + ch, (sum / 4) as u8);
                proof {
                    assert(dst_off + ch == pixel_index(new_w as int, x as int, y as int, ch as int));
                    assert forall|xx: int, yy: int, c: int|
                        0 <= xx < new_w && 0 <= yy < new_h && 0 <= c < 4 && (yy < y || (yy == y
                            && xx < x) || (yy == y && xx == x && c < ch + 1)) implies #[trigger] dst@[pixel_index(
                            new_w as int,
                            xx,
                            yy,
                            c,
                        )] == halved_byte(w, h, px, xx, yy, c) by {
                        lemma_index_bounds(new_w as int, new_h as int, xx, yy, c);
                        if !(yy == y && xx == x && c == ch) {
                            if pixel_index(new_w as int, xx, yy, c) == pixel_index(
                                new_w as int,
                                x as int,
                                y as int,
                                ch as int,
                            ) {
                                lemma_index_unique(
                                    new_w as int,
                                    xx,
                                    yy,
                                    c,
                                    x as int,
                                    y as int,
                                    ch as int,
                                );
                            }
                            assert(dst@[pixel_index(new_w as int, xx, yy, c)] == before[pixel_index(
                                new_w as int,
                                xx,
                                yy,
                                c,
                            )]);
                        }
                    }
                }
                ch = ch + 1;
            }
            x = x + 1;
        }
        y = y + 1;
    }
    Ok(TextureAsset { width: new_w, height: new_h, format: src.format, pixels: dst })
}

/// `mips` is the mip chain of `base`: it starts with `base`, each level is the
/// half-size image of the one before, and it ends with the first 1x1 level.
pub open spec fn is_mip_chain(base: TextureAsset, mips: Seq<TextureAsset>) -> bool {
    &&& mips.len() >= 1
    &&& mips[0] == base
    &&& forall|k: int|
        0 <= k < mips.len() - 1 ==> !(mips[k].width == 1 && mips[k].height == 1) && is_halved(
            mips[k].width as int,
            mips[k].height as int,
            mips[k].pixels@,
            #[trigger] mips[k + 1],
        ) && mips[k + 1].format == mips[k].format
    &&& mips.last().width == 1
    &&& mips.last().height == 1
}

proof fn lemma_halved_ok(w: int, h: int, px: Seq<u8>, dst: TextureAsset)
    requires
        w >= 1,
        h >= 1,
        half_dim(w) * half_dim(h) * 4 <= u32::MAX,
        is_halved(w, h, px, dst),
    ensures
        halve_ok(dst.width, dst.height, dst.pixels@),
        half_dim(w) <= w,
        half_dim(h) <= h,
{
    let nw = half_dim(w);
    let nh = half_dim(h);
    assert(half_dim(nw) <= nw && half_dim(nh) <= nh);
    assert(half_dim(nw) * half_dim(nh) * 4 <= nw * nh * 4) by (nonlinear_arith)
        requires
            1 <= half_dim(nw) <= nw,
            1 <= half_dim(nh) <= nh,
    ;
}

/// The mip chain of an RGBA8 image, from the image itself down to 1x1.
pub fn build_mip_chain(asset: TextureAsset) -> (mips: Vec<TextureAsset>)
    requires
        asset.width == 1 && asset.height == 1 || halve_ok(asset.width, asset.height, asset.pixels@),
    ensures
        is_mip_chain(asset, mips@),
{
    let ghost base = asset;
    let mut mips: Vec<TextureAsset> = Vec::new();
    let mut current = asset;
    loop
        invariant_except_break
            current.width == 1 && current.height == 1 || halve_ok(
                current.width,
                current.height,
                current.pixels@,
            ),
            mips@.len() == 0 ==> current == base,
            mips@.len() > 0 ==> mips@[0] == base,
            mips@.len() > 0 ==> current.format == mips@.last().format && is_halved(
                mips@.last().width as int,
                mips@.last().height as int,
                mips@.last().pixels@,
                current,
            ),
            forall|k: int|
                0 <= k < mips@.len() ==> !(mips@[k].width == 1 && mips@[k].height == 1),
            forall|k: int|
                0 <= k < mips@.len() - 1 ==> is_halved(
                    mips@[k].width as int,
                    mips@[k].height as int,
                    mips@[k].pixels@,
                    #[trigger] mips@[k + 1],
                ) && mips@[k + 1].format == mips@[k].format,
        ensures
            is_mip_chain(base, mips@),
        decreases current.width + current.height,
    {
        let done = current.width == 1 && current.height == 1;
        if done {
            mips.push(current);
            break ;
        }
        let next = match halve_rgba8(&current) {
            Ok(t) => t,
            Err(_) => {
                mips.push(current);
                break ;
            },
        };
        proof {
            lemma_halved_ok(current.width as int, current.height as int, current.pixels@, next);
        }
        mips.push(current);
        current = next;
    }
    mips
}

#[verifier::external_type_specification]
#[verifier::external_body]
pub struct ExImageError(image::ImageError);

/// An image that could not be decoded, with the decoder's reason.
#[derive(Debug)]
pub struct DecodeError(pub image::ImageError);

/// The RGBA8 image of `width` by `height` pixels `pixels` is one that
/// `image::load_from_memory` followed by `DynamicImage::to_rgba8` gave for the
/// bytes `data`. A relation, not a function: the same bytes may decode otherwise
/// once other code registers format-detection or decoding hooks.
pub uninterp spec fn decoded_from(data: Seq<u8>, width: u32, height: u32, pixels: Seq<u8>) -> bool;

/// Decodes an image file held in memory with `image::load_from_memory` and converts
/// it to RGBA8 with `DynamicImage::to_rgba8`. The image comes from the bytes
/// handed in, and its pixel buffer covers it, as `ImageBuffer` guarantees for
/// every buffer it holds. Which image the bytes give is left unsaid:
/// `load_from_memory` consults the format-detection and decoding hooks that any
/// code in the process may register, so it is not a function of the bytes.
#[verifier::external_body]
fn load_rgba8(data: &[u8]) -> (r: Result<(u32, u32, Vec<u8>), image::ImageError>)
    ensures
        r matches Ok((w, h, px)) ==> px@.len() >= w * h * 4 && decoded_from(data@, w, h, px@),
{
    match image::load_from_memory(data) {
        Ok(img) => {
            let rgba = img.to_rgba8();
            let (w, h) = rgba.dimensions();
            Ok((w, h, rgba.into_raw()))
        },
        Err(e) => Err(e),
    }
}

/// Decodes an image file held in memory into an RGBA8 texture asset.
pub fn decode_texture_rgba8(data: &[u8]) -> (r: Result<TextureAsset, DecodeError>)
    ensures
        r matches Ok(t) ==> t.format == TextureFormat::R8g8b8a8Unorm && t.pixels@.len() >= t.width
            * t.height * 4 && decoded_from(data@, t.width, t.height, t.pixels@),
{
    match load_rgba8(data) {
        Ok((width, height, pixels)) => Ok(
            TextureAsset { width, height, format: TextureFormat::R8g8b8a8Unorm, pixels },
        ),
        Err(e) => Err(DecodeError(e)),
    }
}

} // verus!
