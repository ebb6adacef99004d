use rust_3d_rasterizer::color::{pack_rgb, unpack_rgb};

#[test]
fn pack_makes_an_opaque_pixel() {
    assert_eq!(pack_rgb(0, 0, 0), 0xFF000000);
    assert_eq!(pack_rgb(255, 255, 255), 0xFFFFFFFF);
    assert_eq!(pack_rgb(0x12, 0x34, 0x56), 0xFF123456);
    assert_eq!(pack_rgb(255, 0, 0), 0xFFFF0000);
    assert_eq!(pack_rgb(0, 255, 0), 0xFF00FF00);
    assert_eq!(pack_rgb(0, 0, 255), 0xFF0000FF);
    assert_eq!(pack_rgb(1, 2, 3), 0xFF000000 + 65536 + 2 * 256 + 3);
}

#[test]
fn unpack_takes_the_three_channels() {
    assert_eq!(unpack_rgb(0xFF123456), (0x12, 0x34, 0x56));
    assert_eq!(unpack_rgb(0x00123456), (0x12, 0x34, 0x56));
    assert_eq!(unpack_rgb(0xFFFFFFFF), (255, 255, 255));
    assert_eq!(unpack_rgb(0), (0, 0, 0));
    assert_eq!(unpack_rgb(0xFF00FFFF), (0, 255, 255));
    assert_eq!(unpack_rgb(0x80FF0001), (255, 0, 1));
}

#[test]
fn unpack_undoes_pack() {
    for r in (0..=255u8).step_by(5) {
        for g in (0..=255u8).step_by(17) {
            for b in (0..=255u8).step_by(3) {
                assert_eq!(unpack_rgb(pack_rgb(r, g, b)), (r, g, b));
            }
        }
    }
}

#[test]
fn pack_of_unpacked_is_the_pixel_made_opaque() {
    for &pixel in &[0u32, 0x00ABCDEF, 0x7F010203, 0xFF111111, 0xFFFFFFFF, 0x01000000] {
        let (r, g, b) = unpack_rgb(pixel);
        assert_eq!(pack_rgb(r, g, b), pixel | 0xFF000000);
    }
}
