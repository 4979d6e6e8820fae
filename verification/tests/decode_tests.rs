use shotgun::decode::ByteOrder;
use shotgun::decode::Image;
use shotgun::decode::PixelFormat;
use shotgun::decode::scanline_stride;

fn fmt(depth: u32, bpp: u32, order: ByteOrder, r: u64, g: u64, b: u64, stride: usize) -> PixelFormat {
    PixelFormat {
        depth,
        bits_per_pixel: bpp,
        byte_order: order,
        red_mask: r,
        green_mask: g,
        blue_mask: b,
        bytes_per_line: stride,
    }
}

#[test]
fn test_decode_24_depth_32_bpp_forces_opaque_alpha() {
    // One pixel, little-endian x8r8g8b8: bytes are [blue, green, red, high].
    let img = Image {
        width: 1,
        height: 1,
        format: fmt(24, 32, ByteOrder::LittleEndian, 0x00FF0000, 0x0000FF00, 0x000000FF, 4),
        data: vec![10, 20, 30, 7],
    };
    let buf = img.to_image_buffer().expect("supported format");
    assert_eq!(buf.get_pixel(0, 0), (30, 20, 10, 255));
}

#[test]
fn test_decode_32_depth_reads_alpha() {
    let img = Image {
        width: 1,
        height: 1,
        format: fmt(32, 32, ByteOrder::LittleEndian, 0x00FF0000, 0x0000FF00, 0x000000FF, 4),
        data: vec![10, 20, 30, 7],
    };
    let buf = img.to_image_buffer().expect("supported format");
    assert_eq!(buf.get_pixel(0, 0), (30, 20, 10, 7));
}

#[test]
fn test_decode_big_endian_offsets() {
    // Big-endian r8g8b8a8: bytes are [red, green, blue, alpha].
    let img = Image {
        width: 1,
        height: 1,
        format: fmt(32, 32, ByteOrder::BigEndian, 0xFF000000, 0x00FF0000, 0x0000FF00, 4),
        data: vec![1, 2, 3, 4],
    };
    let buf = img.to_image_buffer().expect("supported format");
    assert_eq!(buf.get_pixel(0, 0), (1, 2, 3, 4));
}

#[test]
fn test_decode_24_bpp_with_padded_stride() {
    // Two pixels of 3 bytes each, rows padded to 8 bytes.
    let img = Image {
        width: 2,
        height: 2,
        format: fmt(24, 24, ByteOrder::LittleEndian, 0xFF0000, 0x00FF00, 0x0000FF, 8),
        data: vec![
            1, 2, 3, 4, 5, 6, 99, 99, // row 0: pixels (3,2,1) and (6,5,4), then padding
            7, 8, 9, 10, 11, 12, 99, 99, // row 1
        ],
    };
    let buf = img.to_image_buffer().expect("supported format");
    assert_eq!(buf.get_pixel(0, 0), (3, 2, 1, 255));
    assert_eq!(buf.get_pixel(1, 0), (6, 5, 4, 255));
    assert_eq!(buf.get_pixel(0, 1), (9, 8, 7, 255));
    assert_eq!(buf.get_pixel(1, 1), (12, 11, 10, 255));
}

#[test]
fn test_rgb565_round_trip() {
    // r=21, g=51, b=10 packed as 21<<11 | 51<<5 | 10 = 0xAE6A.
    let img = Image {
        width: 1,
        height: 1,
        format: fmt(16, 16, ByteOrder::LittleEndian, 0xF800, 0x07E0, 0x001F, 2),
        data: vec![0x6A, 0xAE],
    };
    let buf = img.to_image_buffer().expect("rgb565 supported");
    let r: u16 = 21;
    let g: u16 = 51;
    let b: u16 = 10;
    let expected = (
        ((r << 3) | (r >> 2)) as u8,
        ((g << 2) | (g >> 4)) as u8,
        ((b << 3) | (b >> 2)) as u8,
        255,
    );
    assert_eq!(buf.get_pixel(0, 0), expected);
}

#[test]
fn test_rgb565_big_endian() {
    let img = Image {
        width: 1,
        height: 1,
        format: fmt(16, 16, ByteOrder::BigEndian, 0xF800, 0x07E0, 0x001F, 2),
        data: vec![0xAE, 0x6A],
    };
    let buf = img.to_image_buffer().expect("rgb565 supported");
    assert_eq!(buf.get_pixel(0, 0), (173, 207, 82, 255));
}

#[test]
fn test_decode_rejects_16_bit_non_rgb565_masks() {
    // 16/16 with x1r5g5b5 masks is not the RGB565 triple: unsupported.
    let img = Image {
        width: 1,
        height: 1,
        format: fmt(16, 16, ByteOrder::LittleEndian, 0x7C00, 0x03E0, 0x001F, 2),
        data: vec![0, 0],
    };
    assert!(img.to_image_buffer().is_none());
}

#[test]
fn test_decode_rejects_rgb565_masks_at_other_depth() {
    let img = Image {
        width: 1,
        height: 1,
        format: fmt(24, 32, ByteOrder::LittleEndian, 0xF800, 0x07E0, 0x001F, 4),
        data: vec![0, 0, 0, 0],
    };
    assert!(img.to_image_buffer().is_none());
}

#[test]
fn test_decode_rejects_wide_or_unaligned_masks() {
    // A two-byte mask is not a single isolated byte.
    let wide = Image {
        width: 1,
        height: 1,
        format: fmt(32, 32, ByteOrder::LittleEndian, 0xFFFF, 0x00FF0000, 0xFF000000, 4),
        data: vec![0, 0, 0, 0],
    };
    assert!(wide.to_image_buffer().is_none());
    // A byte-wide mask not aligned to a byte boundary.
    let unaligned = Image {
        width: 1,
        height: 1,
        format: fmt(32, 32, ByteOrder::LittleEndian, 0x0FF0, 0x00FF0000, 0xFF000000, 4),
        data: vec![0, 0, 0, 0],
    };
    assert!(unaligned.to_image_buffer().is_none());
}

#[test]
fn test_decode_rejects_unsupported_depth_bpp() {
    let img = Image {
        width: 1,
        height: 1,
        format: fmt(30, 32, ByteOrder::LittleEndian, 0x00FF0000, 0x0000FF00, 0x000000FF, 4),
        data: vec![0, 0, 0, 0],
    };
    assert!(img.to_image_buffer().is_none());
}

#[test]
fn test_decode_rejects_short_buffer() {
    let img = Image {
        width: 2,
        height: 1,
        format: fmt(32, 32, ByteOrder::LittleEndian, 0x00FF0000, 0x0000FF00, 0x000000FF, 8),
        data: vec![0, 0, 0, 0],
    };
    assert!(img.to_image_buffer().is_none());
    let narrow_stride = Image {
        width: 2,
        height: 1,
        format: fmt(32, 32, ByteOrder::LittleEndian, 0x00FF0000, 0x0000FF00, 0x000000FF, 4),
        data: vec![0, 0, 0, 0, 0, 0, 0, 0],
    };
    assert!(narrow_stride.to_image_buffer().is_none());
}

#[test]
fn test_scanline_stride() {
    // 3 pixels of 24 bits pad to 96 bits = 12 bytes under a 32-bit pad unit.
    assert_eq!(scanline_stride(3, 24, 32), Some(12));
    assert_eq!(scanline_stride(1, 32, 32), Some(4));
    assert_eq!(scanline_stride(5, 1, 8), Some(1));
    assert_eq!(scanline_stride(2, 16, 16), Some(4));
    assert_eq!(scanline_stride(3, 24, 7), None);
    assert_eq!(scanline_stride(3, 24, 0), None);
}
