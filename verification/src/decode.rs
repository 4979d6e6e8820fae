//! Decoding a server-native framebuffer into a canonical RGBA image.
//!
//! The server describes its pixel layout at runtime: significant bits
//! (depth), storage bits per pixel, byte order and one bit mask per color
//! channel. The decoder supports 24- and 32-bit layouts whose masks select
//! whole bytes, plus a 16-bit RGB565 fast path, and rejects everything else.

use vstd::prelude::*;

verus! {

/// The order in which the server lays a pixel's bytes in memory.
#[derive(Copy, Clone, Debug, PartialEq, Eq, Structural)]
pub enum ByteOrder {
    LittleEndian,
    BigEndian,
}

/// How the raw framebuffer encodes a pixel, as reported by the display
/// server: significant bits, storage bits, byte order, per-channel masks and
/// the byte length of one scanline (possibly padded beyond `width` pixels).
#[derive(Copy, Clone, Debug, PartialEq, Eq)]
pub struct PixelFormat {
    pub depth: u32,
    pub bits_per_pixel: u32,
    pub byte_order: ByteOrder,
    pub red_mask: u64,
    pub green_mask: u64,
    pub blue_mask: u64,
    pub bytes_per_line: usize,
}

/// A raw captured framebuffer: `height` scanlines of `bytes_per_line` bytes,
/// interpreted through `format`. The decoder never mutates it.
#[derive(Clone, Debug, PartialEq, Eq)]
pub struct Image {
    pub width: u32,
    pub height: u32,
    pub format: PixelFormat,
    pub data: Vec<u8>,
}

/// A canonical RGBA image: row-major, four bytes per pixel, no row padding.
#[derive(Clone, Debug, PartialEq, Eq)]
pub struct RgbaBuffer {
    pub width: u32,
    pub height: u32,
    pub data: Vec<u8>,
}

impl RgbaBuffer {
    pub open spec fn wf(self) -> bool {
        self.data@.len() == 4 * self.width * self.height
    }

    /// Channel `c` (0 red, 1 green, 2 blue, 3 alpha) of the pixel at `(x, y)`.
    pub open spec fn spec_channel(self, x: int, y: int, c: int) -> u8 {
        self.data@[4 * (y * self.width + x) + c]
    }

    /// Read one pixel as `(red, green, blue, alpha)`.
    pub fn get_pixel(&self, x: u32, y: u32) -> (p: (u8, u8, u8, u8))
        requires
            self.wf(),
            x < self.width,
            y < self.height,
        ensures
            p.0 == self.spec_channel(x as int, y as int, 0),
            p.1 == self.spec_channel(x as int, y as int, 1),
            p.2 == self.spec_channel(x as int, y as int, 2),
            p.3 == self.spec_channel(x as int, y as int, 3),
    {
        let n = self.data.len();
        proof {
            lemma_rgba_index_bound(x as int, y as int, self.width as int, self.height as int, 3);
            lemma_buffer_len(self.width as int, self.height as int);
        }
        let idx: usize = 4 * ((y as usize) * (self.width as usize) + (x as usize));
        (self.data[idx], self.data[idx + 1], self.data[idx + 2], self.data[idx + 3])
    }
}

/// Index arithmetic of a packed four-byte-per-pixel buffer stays within
/// `4 * w * h`.
pub(crate) proof fn lemma_rgba_index_bound(x: int, y: int, w: int, h: int, c: int)
    by (nonlinear_arith)
    requires
        0 <= x < w,
        0 <= y < h,
        0 <= c < 4,
    ensures
        0 <= y * w + x < w * h,
        y * w + x < h * w,
        0 <= 4 * (y * w + x) + c < 4 * (w * h),
        4 * (y * w + x) + c < 4 * (h * w),
{
}

/// Byte offset, within a pixel, of an 8-bit channel whose mask (truncated to
/// 32 bits) is a single byte-aligned `0xFF`, under the given byte order.
/// Any other mask shape is unsupported.
pub open spec fn channel_byte_offset(order: ByteOrder, mask: u64) -> Option<int> {
    let m = mask & 0xFFFF_FFFF;
    if m == 0xFF {
        if order is LittleEndian {
            Some(0int)
        } else {
            Some(3int)
        }
    } else if m == 0xFF00 {
        if order is LittleEndian {
            Some(1int)
        } else {
            Some(2int)
        }
    } else if m == 0xFF0000 {
        if order is LittleEndian {
            Some(2int)
        } else {
            Some(1int)
        }
    } else if m == 0xFF000000 {
        if order is LittleEndian {
            Some(3int)
        } else {
            Some(0int)
        }
    } else {
        None
    }
}

impl PixelFormat {
    /// The alpha mask is implicit: whatever the three color masks leave,
    /// truncated to 32 bits by the offset computation.
    pub open spec fn alpha_mask(self) -> u64 {
        !(self.red_mask | self.green_mask | self.blue_mask)
    }

    /// The exact mask triple that selects the 16-bit RGB565 fast path.
    pub open spec fn is_rgb565_masks(self) -> bool {
        self.red_mask == 0xF800 && self.green_mask == 0x07E0 && self.blue_mask == 0x001F
    }

    /// Storage bytes per pixel for the supported depth / bits-per-pixel
    /// pairs; anything else is unsupported.
    pub open spec fn spec_bytes_per_pixel(self) -> Option<int> {
        if self.depth == 24 && self.bits_per_pixel == 24 {
            Some(3int)
        } else if (self.depth == 24 || self.depth == 32) && self.bits_per_pixel == 32 {
            Some(4int)
        } else {
            None
        }
    }
}

/// Expand a five-bit channel value to eight bits by repeating its high bits.
pub open spec fn expand5(v: u16) -> u8 {
    ((v << 3) | (v >> 2)) as u8
}

/// Expand a six-bit channel value to eight bits by repeating its high bits.
pub open spec fn expand6(v: u16) -> u8 {
    ((v << 2) | (v >> 4)) as u8
}

impl Image {
    pub open spec fn stride(self) -> int {
        self.format.bytes_per_line as int
    }

    /// Bytes per pixel actually used by the decoder: two on the RGB565 path,
    /// else the storage size of the depth / bits-per-pixel pair.
    pub open spec fn spec_pixel_stride(self) -> int {
        if self.format.is_rgb565_masks() {
            2
        } else {
            match self.format.spec_bytes_per_pixel() {
                Some(n) => n,
                None => 0,
            }
        }
    }

    /// The decoder accepts the format: either the RGB565 fast path at
    /// 16/16 depth and storage, or a 24/32-bit layout in which each channel
    /// mask (and the implicit alpha mask) selects one whole byte that lies
    /// within the pixel's storage bytes.
    pub open spec fn supported_format(self) -> bool {
        if self.format.is_rgb565_masks() {
            self.format.depth == 16 && self.format.bits_per_pixel == 16
        } else {
            match self.format.spec_bytes_per_pixel() {
                Some(bpp) => {
                    &&& channel_byte_offset(self.format.byte_order, self.format.red_mask) matches Some(
                        ro,
                    ) && (bpp == 3 ==> ro < 3)
                    &&& channel_byte_offset(
                        self.format.byte_order,
                        self.format.green_mask,
                    ) matches Some(go) && (bpp == 3 ==> go < 3)
                    &&& channel_byte_offset(
                        self.format.byte_order,
                        self.format.blue_mask,
                    ) matches Some(bo) && (bpp == 3 ==> bo < 3)
                    &&& channel_byte_offset(
                        self.format.byte_order,
                        self.format.alpha_mask(),
                    ) is Some
                },
                None => false,
            }
        }
    }

    /// One scanline holds a whole row of pixels, the buffer holds all
    /// scanlines, and the decoded output fits in memory.
    pub open spec fn buffer_fits(self) -> bool {
        &&& self.spec_pixel_stride() * self.width <= self.stride()
        &&& self.stride() * self.height <= self.data@.len()
        &&& 4 * self.width * self.height <= usize::MAX
    }

    /// Exactly these images decode to a buffer.
    pub open spec fn decodable(self) -> bool {
        self.supported_format() && self.buffer_fits()
    }

    /// The 16-bit value of the pixel at `(x, y)` on the RGB565 path.
    pub open spec fn spec_pixel565(self, x: int, y: int) -> u16 {
        let lo = self.data@[y * self.stride() + 2 * x];
        let hi = self.data@[y * self.stride() + 2 * x + 1];
        match self.format.byte_order {
            ByteOrder::LittleEndian => (lo + hi * 256) as u16,
            ByteOrder::BigEndian => (hi + lo * 256) as u16,
        }
    }

    /// Channel `c` (0 red, 1 green, 2 blue, 3 alpha) of the decoded pixel at
    /// `(x, y)`. On the RGB565 path the channels are expanded from 5/6/5
    /// bits and alpha is opaque; on the byte path each channel is the byte
    /// its mask selects, except that 24-bit-deep formats carry no real alpha
    /// and get 255.
    pub open spec fn spec_decoded_channel(self, x: int, y: int, c: int) -> u8 {
        if self.format.is_rgb565_masks() {
            let p = self.spec_pixel565(x, y);
            if c == 0 {
                expand5((p >> 11) & 0x1F)
            } else if c == 1 {
                expand6((p >> 5) & 0x3F)
            } else if c == 2 {
                expand5(p & 0x1F)
            } else {
                255
            }
        } else {
            let base = y * self.stride() + x * self.spec_pixel_stride();
            if c == 3 && self.format.depth == 24 {
                255
            } else {
                let mask = if c == 0 {
                    self.format.red_mask
                } else if c == 1 {
                    self.format.green_mask
                } else if c == 2 {
                    self.format.blue_mask
                } else {
                    self.format.alpha_mask()
                };
                match channel_byte_offset(self.format.byte_order, mask) {
                    Some(off) => self.data@[base + off],
                    None => 0,
                }
            }
        }
    }
}

/// Offsets within a pixel stay inside the framebuffer: with a whole row of
/// pixels per scanline and a whole image of scanlines in the buffer, the
/// byte `y * stride + x * bpp + off` is in bounds.
proof fn lemma_pixel_index_bound(x: int, y: int, w: int, h: int, bpp: int, stride: int, len: int, off: int)
    by (nonlinear_arith)
    requires
        0 <= x < w,
        0 <= y < h,
        0 <= off < bpp,
        bpp * w <= stride,
        stride * h <= len,
    ensures
        0 <= y * stride,
        0 <= x * bpp,
        y * stride + x * bpp + off < len,
{
}

/// Bounded factors give a bounded product.
proof fn lemma_mul_le(a: int, b: int, ca: int, cb: int)
    by (nonlinear_arith)
    requires
        0 <= a <= ca,
        0 <= b <= cb,
    ensures
        0 <= a * b <= ca * cb,
{
}

/// A scanline's base offset leaves room for the whole scanline.
proof fn lemma_row_base_bound(y: int, h: int, stride: int, len: int)
    by (nonlinear_arith)
    requires
        0 <= y < h,
        0 <= stride,
        stride * h <= len,
    ensures
        0 <= y * stride,
        y * stride + stride <= len,
{
}

/// `4 * w * h` groups however convenient.
pub(crate) proof fn lemma_buffer_len(w: int, h: int)
    by (nonlinear_arith)
    ensures
        4 * (h * w) == 4 * w * h,
        4 * (w * h) == 4 * w * h,
        (w * h) * 4 == 4 * w * h,
{
}

/// Rows of `w` pixels stack linearly: one more row moves the output length
/// by `4 * w`.
proof fn lemma_row_step(y: int, w: int)
    by (nonlinear_arith)
    ensures
        (y + 1) * w == y * w + w,
        4 * (y * w + w) == 4 * ((y + 1) * w),
{
}

/// Exec mirror of [`channel_byte_offset`].
fn channel_offset(order: ByteOrder, mask: u64) -> (r: Option<usize>)
    ensures
        match r {
            Some(o) => channel_byte_offset(order, mask) == Some(o as int),
            None => channel_byte_offset(order, mask) is None,
        },
{
    let m = mask & 0xFFFF_FFFF;
    let little = match order {
        ByteOrder::LittleEndian => true,
        ByteOrder::BigEndian => false,
    };
    if m == 0xFF {
        Some(
            if little {
                0
            } else {
                3
            },
        )
    } else if m == 0xFF00 {
        Some(
            if little {
                1
            } else {
                2
            },
        )
    } else if m == 0xFF0000 {
        Some(
            if little {
                2
            } else {
                1
            },
        )
    } else if m == 0xFF000000 {
        Some(
            if little {
                3
            } else {
                0
            },
        )
    } else {
        None
    }
}

impl Image {
    /// Check that the scanline stride covers a row of `bpp`-byte pixels,
    /// that the buffer covers all scanlines, and that the output fits.
    fn check_buffer_fits(&self, bpp: usize) -> (r: bool)
        requires
            bpp == self.spec_pixel_stride(),
        ensures
            r == self.buffer_fits(),
    {
        let n = self.data.len();
        proof {
            lemma_mul_le(bpp as int, self.width as int, 4, 0xFFFF_FFFF);
            lemma_mul_le(self.width as int, self.height as int, 0xFFFF_FFFF, 0xFFFF_FFFF);
            lemma_buffer_len(self.width as int, self.height as int);
        }
        let row_bytes = (bpp as u64) * (self.width as u64);
        if row_bytes > self.format.bytes_per_line as u64 {
            return false;
        }
        let total = match (self.format.bytes_per_line as u64).checked_mul(self.height as u64) {
            Some(t) => t,
            None => {
                return false;
            },
        };
        if total > n as u64 {
            return false;
        }
        let pixels = (self.width as u64) * (self.height as u64);
        match pixels.checked_mul(4) {
            Some(out_bytes) => out_bytes <= usize::MAX as u64,
            None => false,
        }
    }

    /// Decode the raw framebuffer into a canonical RGBA buffer. Returns
    /// `None` exactly when the pixel format is unsupported or the buffer
    /// does not cover the declared dimensions; on success every output
    /// pixel is the decoding of its source pixel.
    pub fn to_image_buffer(&self) -> (r: Option<RgbaBuffer>)
        ensures
            r is Some <==> self.decodable(),
            r matches Some(buf) ==> {
                &&& buf.wf()
                &&& buf.width == self.width
                &&& buf.height == self.height
                &&& forall|x: int, y: int, c: int|
                    0 <= x < self.width && 0 <= y < self.height && 0 <= c < 4
                        ==> buf.spec_channel(x, y, c) == self.spec_decoded_channel(x, y, c)
            },
    {
        if self.format.red_mask == 0xF800 && self.format.green_mask == 0x07E0
            && self.format.blue_mask == 0x001F {
            return self.to_image_buffer_rgb565();
        }
        let bpp: usize = if self.format.depth == 24 && self.format.bits_per_pixel == 24 {
            3
        } else if (self.format.depth == 24 || self.format.depth == 32)
            && self.format.bits_per_pixel == 32 {
            4
        } else {
            return None;
        };
        let red_offset = match channel_offset(self.format.byte_order, self.format.red_mask) {
            Some(o) => o,
            None => {
                return None;
            },
        };
        let green_offset = match channel_offset(self.format.byte_order, self.format.green_mask) {
            Some(o) => o,
            None => {
                return None;
            },
        };
        let blue_offset = match channel_offset(self.format.byte_order, self.format.blue_mask) {
            Some(o) => o,
            None => {
                return None;
            },
        };
        let alpha_offset = match channel_offset(
            self.format.byte_order,
            !(self.format.red_mask | self.format.green_mask | self.format.blue_mask),
        ) {
            Some(o) => o,
            None => {
                return None;
            },
        };
        if bpp == 3 && (red_offset >= 3 || green_offset >= 3 || blue_offset >= 3) {
            return None;
        }
        if !self.check_buffer_fits(bpp) {
            return None;
        }
        let w = self.width;
        let h = self.height;
        let stride = self.format.bytes_per_line;
        let data_len = self.data.len();
        let mut out: Vec<u8> = Vec::new();
        let mut y: u32 = 0;
        while y < h
            invariant
                y <= h,
                w == self.width,
                h == self.height,
                stride == self.format.bytes_per_line,
                data_len == self.data@.len(),
                bpp == self.spec_pixel_stride(),
                !self.format.is_rgb565_masks(),
                channel_byte_offset(self.format.byte_order, self.format.red_mask) == Some(
                    red_offset as int,
                ),
                channel_byte_offset(self.format.byte_order, self.format.green_mask) == Some(
                    green_offset as int,
                ),
                channel_byte_offset(self.format.byte_order, self.format.blue_mask) == Some(
                    blue_offset as int,
                ),
                channel_byte_offset(self.format.byte_order, self.format.alpha_mask()) == Some(
                    alpha_offset as int,
                ),
                red_offset < bpp,
                green_offset < bpp,
                blue_offset < bpp,
                self.format.depth != 24 ==> alpha_offset < bpp,
                self.buffer_fits(),
                out@.len() == 4 * (y * w),
                forall|px: int, py: int, c: int|
                    0 <= px < w && 0 <= py < y && 0 <= c < 4 ==> out@[4 * (py * w + px) + c]
                        == self.spec_decoded_channel(px, py, c),
            decreases h - y,
        {
            proof {
                lemma_row_base_bound(y as int, h as int, stride as int, self.data@.len() as int);
            }
            let row_base = (y as usize) * stride;
            let mut x: u32 = 0;
            while x < w
                invariant
                    x <= w,
                    y < h,
                    w == self.width,
                    h == self.height,
                    stride == self.format.bytes_per_line,
                    data_len == self.data@.len(),
                    bpp == self.spec_pixel_stride(),
                    !self.format.is_rgb565_masks(),
                    row_base == y * stride,
                    channel_byte_offset(self.format.byte_order, self.format.red_mask) == Some(
                        red_offset as int,
                    ),
                    channel_byte_offset(self.format.byte_order, self.format.green_mask) == Some(
                        green_offset as int,
                    ),
                    channel_byte_offset(self.format.byte_order, self.format.blue_mask) == Some(
                        blue_offset as int,
                    ),
                    channel_byte_offset(self.format.byte_order, self.format.alpha_mask()) == Some(
                        alpha_offset as int,
                    ),
                    red_offset < bpp,
                    green_offset < bpp,
                    blue_offset < bpp,
                    self.format.depth != 24 ==> alpha_offset < bpp,
                    self.buffer_fits(),
                    out@.len() == 4 * (y * w + x),
                    forall|px: int, py: int, c: int|
                        0 <= px < w && 0 <= py < y && 0 <= c < 4 ==> out@[4 * (py * w + px) + c]
                            == self.spec_decoded_channel(px, py, c),
                    forall|px: int, c: int|
                        0 <= px < x && 0 <= c < 4 ==> out@[4 * (y * w + px) + c]
                            == self.spec_decoded_channel(px, y as int, c),
                decreases w - x,
            {
                proof {
                    let len = self.data@.len() as int;
                    lemma_pixel_index_bound(
                        x as int,
                        y as int,
                        w as int,
                        h as int,
                        bpp as int,
                        stride as int,
                        len,
                        red_offset as int,
                    );
                    lemma_pixel_index_bound(
                        x as int,
                        y as int,
                        w as int,
                        h as int,
                        bpp as int,
                        stride as int,
                        len,
                        green_offset as int,
                    );
                    lemma_pixel_index_bound(
                        x as int,
                        y as int,
                        w as int,
                        h as int,
                        bpp as int,
                        stride as int,
                        len,
                        blue_offset as int,
                    );
                    if self.format.depth != 24 {
                        lemma_pixel_index_bound(
                            x as int,
                            y as int,
                            w as int,
                            h as int,
                            bpp as int,
                            stride as int,
                            len,
                            alpha_offset as int,
                        );
                    }
                    lemma_rgba_index_bound(x as int, y as int, w as int, h as int, 3);
                }
                let base = row_base + (x as usize) * bpp;
                let ghost prev = out@;
                out.push(self.data[base + red_offset]);
                out.push(self.data[base + green_offset]);
                out.push(self.data[base + blue_offset]);
                if self.format.depth == 24 {
                    out.push(255);
                } else {
                    out.push(self.data[base + alpha_offset]);
                }
                proof {
                    assert forall|px: int, py: int, c: int|
                        0 <= px < w && 0 <= py < y && 0 <= c < 4 implies out@[4 * (py * w + px)
                        + c] == self.spec_decoded_channel(px, py, c) by {
                        lemma_rgba_index_bound(px, py, w as int, y as int, c);
                        assert(out@[4 * (py * w + px) + c] == prev[4 * (py * w + px) + c]);
                    }
                    assert forall|px: int, c: int|
                        0 <= px < x + 1 && 0 <= c < 4 implies out@[4 * (y * w + px) + c]
                        == self.spec_decoded_channel(px, y as int, c) by {
                        if px < x {
                            assert(out@[4 * (y * w + px) + c] == prev[4 * (y * w + px) + c]);
                        } else {
                            assert(4 * (y * w + px) + c == prev.len() + c);
                        }
                    }
                }
                x = x + 1;
            }
            proof {
                lemma_row_step(y as int, w as int);
            }
            y = y + 1;
        }
        proof {
            lemma_buffer_len(w as int, h as int);
        }
        Some(RgbaBuffer { width: w, height: h, data: out })
    }

    /// The RGB565 fast path: two bytes per pixel, channels at bits 11-15,
    /// 5-10 and 0-4, each expanded to eight bits, alpha opaque.
    fn to_image_buffer_rgb565(&self) -> (r: Option<RgbaBuffer>)
        requires
            self.format.is_rgb565_masks(),
        ensures
            r is Some <==> self.decodable(),
            r matches Some(buf) ==> {
                &&& buf.wf()
                &&& buf.width == self.width
                &&& buf.height == self.height
                &&& forall|x: int, y: int, c: int|
                    0 <= x < self.width && 0 <= y < self.height && 0 <= c < 4
                        ==> buf.spec_channel(x, y, c) == self.spec_decoded_channel(x, y, c)
            },
    {
        if !(self.format.depth == 16 && self.format.bits_per_pixel == 16) {
            return None;
        }
        if !self.check_buffer_fits(2) {
            return None;
        }
        let little = match self.format.byte_order {
            ByteOrder::LittleEndian => true,
            ByteOrder::BigEndian => false,
        };
        let w = self.width;
        let h = self.height;
        let stride = self.format.bytes_per_line;
        let data_len = self.data.len();
        let mut out: Vec<u8> = Vec::new();
        let mut y: u32 = 0;
        while y < h
            invariant
                y <= h,
                w == self.width,
                h == self.height,
                stride == self.format.bytes_per_line,
                data_len == self.data@.len(),
                self.format.is_rgb565_masks(),
                little == (self.format.byte_order is LittleEndian),
                self.buffer_fits(),
                self.spec_pixel_stride() == 2,
                out@.len() == 4 * (y * w),
                forall|px: int, py: int, c: int|
                    0 <= px < w && 0 <= py < y && 0 <= c < 4 ==> out@[4 * (py * w + px) + c]
                        == self.spec_decoded_channel(px, py, c),
            decreases h - y,
        {
            proof {
                lemma_row_base_bound(y as int, h as int, stride as int, self.data@.len() as int);
            }
            let row_base = (y as usize) * stride;
            let mut x: u32 = 0;
            while x < w
                invariant
                    x <= w,
                    y < h,
                    w == self.width,
                    h == self.height,
                    stride == self.format.bytes_per_line,
                    data_len == self.data@.len(),
                    self.format.is_rgb565_masks(),
                    little == (self.format.byte_order is LittleEndian),
                    row_base == y * stride,
                    self.buffer_fits(),
                    self.spec_pixel_stride() == 2,
                    out@.len() == 4 * (y * w + x),
                    forall|px: int, py: int, c: int|
                        0 <= px < w && 0 <= py < y && 0 <= c < 4 ==> out@[4 * (py * w + px) + c]
                            == self.spec_decoded_channel(px, py, c),
                    forall|px: int, c: int|
                        0 <= px < x && 0 <= c < 4 ==> out@[4 * (y * w + px) + c]
                            == self.spec_decoded_channel(px, y as int, c),
                decreases w - x,
            {
                proof {
                    let len = self.data@.len() as int;
                    lemma_pixel_index_bound(
                        x as int,
                        y as int,
                        w as int,
                        h as int,
                        2,
                        stride as int,
                        len,
                        0,
                    );
                    lemma_pixel_index_bound(
                        x as int,
                        y as int,
                        w as int,
                        h as int,
                        2,
                        stride as int,
                        len,
                        1,
                    );
                    lemma_rgba_index_bound(x as int, y as int, w as int, h as int, 3);
                }
                let base = row_base + (x as usize) * 2;
                let lo_byte = self.data[base];
                let hi_byte = self.data[base + 1];
                let pixel: u16 = if little {
                    (lo_byte as u16) | ((hi_byte as u16) << 8)
                } else {
                    (hi_byte as u16) | ((lo_byte as u16) << 8)
                };
                proof {
                    let lo = self.data@[y * self.stride() + 2 * (x as int)];
                    let hi = self.data@[y * self.stride() + 2 * (x as int) + 1];
                    assert((lo as u16) | ((hi as u16) << 8) == ((lo + hi * 256) as u16))
                        by (bit_vector);
                    assert((hi as u16) | ((lo as u16) << 8) == ((hi + lo * 256) as u16))
                        by (bit_vector);
                }
                let red = (pixel >> 11) & 0x1F;
                let green = (pixel >> 5) & 0x3F;
                let blue = pixel & 0x1F;
                let ghost prev = out@;
                out.push(((red << 3) | (red >> 2)) as u8);
                out.push(((green << 2) | (green >> 4)) as u8);
                out.push(((blue << 3) | (blue >> 2)) as u8);
                out.push(255);
                proof {
                    assert forall|px: int, py: int, c: int|
                        0 <= px < w && 0 <= py < y && 0 <= c < 4 implies out@[4 * (py * w + px)
                        + c] == self.spec_decoded_channel(px, py, c) by {
                        lemma_rgba_index_bound(px, py, w as int, y as int, c);
                        assert(out@[4 * (py * w + px) + c] == prev[4 * (py * w + px) + c]);
                    }
                    assert forall|px: int, c: int|
                        0 <= px < x + 1 && 0 <= c < 4 implies out@[4 * (y * w + px) + c]
                        == self.spec_decoded_channel(px, y as int, c) by {
                        if px < x {
                            assert(out@[4 * (y * w + px) + c] == prev[4 * (y * w + px) + c]);
                        } else {
                            assert(4 * (y * w + px) + c == prev.len() + c);
                        }
                    }
                }
                x = x + 1;
            }
            proof {
                lemma_row_step(y as int, w as int);
            }
            y = y + 1;
        }
        proof {
            lemma_buffer_len(w as int, h as int);
        }
        Some(RgbaBuffer { width: w, height: h, data: out })
    }
}

/// The scanline byte stride that a pad unit dictates: a row of
/// `width * bits_per_pixel` bits, rounded up to a multiple of `pad` bits.
/// Only the pad units the wire protocol uses (8, 16 or 32 bits) are
/// supported.
pub open spec fn spec_scanline_stride(width: int, bits_per_pixel: int, pad: int) -> Option<int> {
    if pad == 8 || pad == 16 || pad == 32 {
        let bits = ((width * bits_per_pixel + pad - 1) / pad) * pad;
        if bits / 8 <= usize::MAX {
            Some(bits / 8)
        } else {
            None
        }
    } else {
        None
    }
}

/// Compute the scanline stride in bytes from the width, the storage bits
/// per pixel and the server's scanline pad unit (in bits). Returns `None`
/// for a pad unit other than 8, 16 or 32, or when the stride does not fit
/// in memory.
pub fn scanline_stride(width: u32, bits_per_pixel: u32, pad: u32) -> (r: Option<usize>)
    ensures
        match r {
            Some(n) => spec_scanline_stride(width as int, bits_per_pixel as int, pad as int)
                == Some(n as int),
            None => spec_scanline_stride(width as int, bits_per_pixel as int, pad as int) is None,
        },
{
    if !(pad == 8 || pad == 16 || pad == 32) {
        return None;
    }
    proof {
        lemma_mul_le(width as int, bits_per_pixel as int, 0xFFFF_FFFF, 0xFFFF_FFFF);
    }
    let row_bits: u64 = (width as u64) * (bits_per_pixel as u64);
    let padded_bits: u64 = ((row_bits + (pad as u64) - 1) / (pad as u64)) * (pad as u64);
    let bytes: u64 = padded_bits / 8;
    if bytes <= usize::MAX as u64 {
        Some(bytes as usize)
    } else {
        None
    }
}

/// Round trip of the RGB565 fast path: packing five-, six- and five-bit
/// channel values into a 16-bit pixel and decoding it again recovers each
/// value, and the eight-bit expansion duplicates the channel's high bits
/// into the low bits (`v<<3 | v>>2` for five bits, `v<<2 | v>>4` for six).
pub proof fn lemma_rgb565_round_trip(r: u16, g: u16, b: u16)
    requires
        r < 32,
        g < 64,
        b < 32,
    ensures
        ((((r << 11) | (g << 5) | b) as u16) >> 11) & 0x1F == r,
        ((((r << 11) | (g << 5) | b) as u16) >> 5) & 0x3F == g,
        (((r << 11) | (g << 5) | b) as u16) & 0x1F == b,
        expand5(((((r << 11) | (g << 5) | b) as u16) >> 11) & 0x1F) == ((r << 3) | (r >> 2)) as u8,
        expand6(((((r << 11) | (g << 5) | b) as u16) >> 5) & 0x3F) == ((g << 2) | (g >> 4)) as u8,
        expand5((((r << 11) | (g << 5) | b) as u16) & 0x1F) == ((b << 3) | (b >> 2)) as u8,
{
    assert(((((r << 11) | (g << 5) | b) as u16) >> 11) & 0x1F == r) by (bit_vector)
        requires
            r < 32,
            g < 64,
            b < 32,
    ;
    assert(((((r << 11) | (g << 5) | b) as u16) >> 5) & 0x3F == g) by (bit_vector)
        requires
            r < 32,
            g < 64,
            b < 32,
    ;
    assert((((r << 11) | (g << 5) | b) as u16) & 0x1F == b) by (bit_vector)
        requires
            r < 32,
            g < 64,
            b < 32,
    ;
}

/// The RGB565 round trip at the level of a whole decoded pixel: when the
/// 16-bit word of the pixel at `(x, y)` encodes a color `(r, g, b)` at
/// 5/6/5-bit precision, the decoded pixel is exactly the 8-bit expansion
/// (`v<<3 | v>>2` for the five-bit channels, `u<<2 | u>>4` for the six-bit
/// one) with opaque alpha, and each decoded channel reproduces the high
/// bits of the original channel.
pub proof fn lemma_rgb565_decodes_encoded_color(img: Image, x: int, y: int, r: u8, g: u8, b: u8)
    requires
        img.format.is_rgb565_masks(),
        img.spec_pixel565(x, y) == (((r >> 3) as u16) << 11) | (((g >> 2) as u16) << 5) | ((b
            >> 3) as u16),
    ensures
        img.spec_decoded_channel(x, y, 0) == ((((r >> 3) as u16) << 3) | (((r >> 3) as u16)
            >> 2)) as u8,
        img.spec_decoded_channel(x, y, 1) == ((((g >> 2) as u16) << 2) | (((g >> 2) as u16)
            >> 4)) as u8,
        img.spec_decoded_channel(x, y, 2) == ((((b >> 3) as u16) << 3) | (((b >> 3) as u16)
            >> 2)) as u8,
        img.spec_decoded_channel(x, y, 3) == 255,
        img.spec_decoded_channel(x, y, 0) >> 3 == r >> 3,
        img.spec_decoded_channel(x, y, 1) >> 2 == g >> 2,
        img.spec_decoded_channel(x, y, 2) >> 3 == b >> 3,
{
    let five_r = (r >> 3) as u16;
    let six_g = (g >> 2) as u16;
    let five_b = (b >> 3) as u16;
    assert(five_r < 32 && six_g < 64 && five_b < 32) by (bit_vector)
        requires
            five_r == (r >> 3) as u16,
            six_g == (g >> 2) as u16,
            five_b == (b >> 3) as u16,
    ;
    lemma_rgb565_round_trip(five_r, six_g, five_b);
    assert((((five_r << 11) | (six_g << 5) | five_b) as u16) == ((five_r << 11) | (six_g << 5)
        | five_b)) by (bit_vector);
    assert((((five_r << 3) | (five_r >> 2)) as u8) >> 3 == r >> 3) by (bit_vector)
        requires
            five_r == (r >> 3) as u16,
    ;
    assert((((six_g << 2) | (six_g >> 4)) as u8) >> 2 == g >> 2) by (bit_vector)
        requires
            six_g == (g >> 2) as u16,
    ;
    assert((((five_b << 3) | (five_b >> 2)) as u8) >> 3 == b >> 3) by (bit_vector)
        requires
            five_b == (b >> 3) as u16,
    ;
}

} // verus!
