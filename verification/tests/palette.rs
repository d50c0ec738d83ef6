use openra::palette::{scale_6bit, Palette, PLAYER_COLORS, REMAP_END, REMAP_START};

#[test]
fn scale_6bit_values() {
    assert_eq!(scale_6bit(0), 0);
    assert_eq!(scale_6bit(63), 255);
    assert_eq!(scale_6bit(32), 130); // 32*4 + 32/16 = 128+2 = 130
}

#[test]
fn parse_palette() {
    let mut data = vec![0u8; 768];
    // Set index 1 to (63, 0, 32) in 6-bit
    data[3] = 63;
    data[4] = 0;
    data[5] = 32;

    let pal = Palette::from_bytes(&data).unwrap();
    assert_eq!(pal.colors[0], [0, 0, 0]);
    assert_eq!(pal.colors[1], [255, 0, 130]);
}

#[test]
fn transparent_index_zero() {
    let data = vec![0u8; 768];
    let pal = Palette::from_bytes(&data).unwrap();
    assert_eq!(pal.rgba(0), [0, 0, 0, 0]);
}

#[test]
fn palette_too_small() {
    let data = vec![0u8; 100];
    assert!(Palette::from_bytes(&data).is_err());
}

#[test]
fn palette_too_small_message() {
    let data = vec![0u8; 100];
    match Palette::from_bytes(&data) {
        Err(m) => assert_eq!(m, "Palette file too small: 100 bytes (expected 768)"),
        Ok(_) => panic!("expected an error"),
    }
    let data = vec![0u8; 767];
    match Palette::from_bytes_8bit(&data) {
        Err(m) => assert_eq!(m, "Palette file too small: 767 bytes (expected 768)"),
        Ok(_) => panic!("expected an error"),
    }
}

#[test]
fn scale_ignores_high_bits() {
    assert_eq!(scale_6bit(0x40 | 32), 130);
    assert_eq!(scale_6bit(0xFF), 255);
    assert_eq!(scale_6bit(1), 4);
    assert_eq!(scale_6bit(16), 65);
}

#[test]
fn scale_is_monotonic_and_exact() {
    for v in 0u8..64 {
        assert_eq!(scale_6bit(v) / 4, v);
        if v > 0 {
            assert!(scale_6bit(v - 1) < scale_6bit(v));
        }
    }
}

#[test]
fn six_bit_is_scaled_eight_bit() {
    let data: Vec<u8> = (0..800u32).map(|i| (i * 7 % 256) as u8).collect();
    let p6 = Palette::from_bytes(&data).unwrap();
    let p8 = Palette::from_bytes_8bit(&data).unwrap();
    for i in 0..256 {
        for c in 0..3 {
            assert_eq!(p8.colors[i][c], data[3 * i + c]);
            assert_eq!(p6.colors[i][c], scale_6bit(p8.colors[i][c]));
        }
    }
}

#[test]
fn rgba_is_opaque_except_index_zero() {
    let mut data = vec![0u8; 768];
    data[3 * 7] = 10;
    data[3 * 7 + 1] = 20;
    data[3 * 7 + 2] = 30;
    let pal = Palette::from_bytes_8bit(&data).unwrap();
    assert_eq!(pal.rgba(7), [10, 20, 30, 255]);
    assert_eq!(pal.rgba(8), [0, 0, 0, 255]);
    assert_eq!(pal.rgba(0), [0, 0, 0, 0]);
}

#[test]
fn remap_replaces_only_the_range() {
    let data: Vec<u8> = (0..768u32).map(|i| (i % 251) as u8).collect();
    let pal = Palette::from_bytes_8bit(&data).unwrap();
    let colors = [[1u8, 2, 3], [4, 5, 6], [7, 8, 9]];
    let remapped = pal.with_remap(REMAP_START, REMAP_END, &colors);
    for i in 0..256usize {
        if (80..83).contains(&i) {
            assert_eq!(remapped.colors[i], colors[i - 80]);
        } else {
            assert_eq!(remapped.colors[i], pal.colors[i]);
        }
    }
}

#[test]
fn remap_stops_at_the_range_end() {
    let pal = Palette::from_bytes_8bit(&vec![0u8; 768]).unwrap();
    let colors = [[9u8, 9, 9]; 10];
    let remapped = pal.with_remap(10, 12, &colors);
    assert_eq!(remapped.colors[9], [0, 0, 0]);
    assert_eq!(remapped.colors[10], [9, 9, 9]);
    assert_eq!(remapped.colors[12], [9, 9, 9]);
    assert_eq!(remapped.colors[13], [0, 0, 0]);
}

#[test]
fn remap_with_standard_player_colors() {
    let pal = Palette::from_bytes_8bit(&vec![1u8; 768]).unwrap();
    let remapped = pal.with_remap(REMAP_START, REMAP_END, &PLAYER_COLORS);
    assert_eq!(remapped.colors[79], [1, 1, 1]);
    assert_eq!(remapped.colors[80], [255, 255, 0]);
    assert_eq!(remapped.colors[85], [255, 0, 0]);
    assert_eq!(remapped.colors[87], [255, 0, 255]);
    assert_eq!(remapped.colors[88], [1, 1, 1]);
}
