use openra::shp::{decode, read_u16, read_u24, xor_buffers};

#[test]
fn read_helpers() {
    let data = [0x34, 0x12, 0xAB];
    assert_eq!(read_u16(&data, 0), 0x1234);
    assert_eq!(read_u24(&data, 0), 0xAB1234);
}

#[test]
fn decode_empty_shp() {
    // Minimal SHP with 0 frames
    let data = [0x00, 0x00, 0, 0, 0, 0, 0, 0, 0, 0, 0, 0, 0, 0, 0, 0, 0, 0];
    let result = decode(&data);
    assert!(result.is_err());
}

/// An SHP file whose frames are given as (width, height, format, data, ref_offset).
fn shp(frames: &[(u16, u16, u8, Vec<u8>, u32)]) -> Vec<u8> {
    let n = frames.len();
    let table_end = 2 + (n + 2) * 8;
    let mut out = vec![0u8; table_end];
    out[0] = n as u8;
    out[1] = (n >> 8) as u8;
    let mut offset = table_end;
    for (i, (w, h, fmt, body, ref_offset)) in frames.iter().enumerate() {
        let base = 2 + i * 8;
        out[base] = offset as u8;
        out[base + 1] = (offset >> 8) as u8;
        out[base + 2] = (offset >> 16) as u8;
        out[base + 3] = *fmt;
        out[base + 4] = *ref_offset as u8;
        out[base + 5] = (*ref_offset >> 8) as u8;
        out[base + 6] = (*ref_offset >> 16) as u8;
        offset += 4 + body.len();
    }
    for (w, h, _, body, _) in frames {
        out.push(*w as u8);
        out.push((*w >> 8) as u8);
        out.push(*h as u8);
        out.push((*h >> 8) as u8);
        out.extend_from_slice(body);
    }
    while out.len() < 14 {
        out.push(0);
    }
    out
}

#[test]
fn literal_copy_and_padding() {
    let data = shp(&[(3, 2, 0x80, vec![0x04, 1, 2, 3, 4, 0x80], 0)]);
    let f = decode(&data).unwrap();
    assert_eq!(f.frames.len(), 1);
    assert_eq!(f.frames[0].width, 3);
    assert_eq!(f.frames[0].height, 2);
    assert_eq!(f.frames[0].pixels, vec![1, 2, 3, 4, 0, 0]);
}

#[test]
fn long_fill() {
    let data = shp(&[(2, 2, 0x80, vec![0xFE, 4, 0, 7, 0x80], 0)]);
    assert_eq!(decode(&data).unwrap().frames[0].pixels, vec![7, 7, 7, 7]);
}

#[test]
fn fill_is_cut_at_the_frame_size() {
    let data = shp(&[(2, 1, 0x80, vec![0xFE, 0xFF, 0x00, 5], 0)]);
    assert_eq!(decode(&data).unwrap().frames[0].pixels, vec![5, 5]);
}

#[test]
fn long_copy_from_output() {
    let data = shp(&[(4, 1, 0x80, vec![0x02, 9, 8, 0xFF, 2, 0, 0, 0, 0x80], 0)]);
    assert_eq!(decode(&data).unwrap().frames[0].pixels, vec![9, 8, 9, 8]);
}

#[test]
fn short_copy_overlaps() {
    // 0xC1: copy 1 + 3 = 4 bytes from position 0 of the output.
    let data = shp(&[(6, 1, 0x80, vec![0x02, 5, 6, 0xC1, 0, 0], 0)]);
    assert_eq!(decode(&data).unwrap().frames[0].pixels, vec![5, 6, 5, 6, 5, 6]);
}

#[test]
fn copy_past_output_reads_zero() {
    let data = shp(&[(4, 1, 0x80, vec![0x01, 5, 0xFF, 3, 0, 1, 0], 0)]);
    // Position 1 is written by the copy itself: 0, then 0, then 0.
    assert_eq!(decode(&data).unwrap().frames[0].pixels, vec![5, 0, 0, 0]);
}

#[test]
fn relative_copy() {
    // 0x82: copy 2 bytes starting 2 bytes back.
    let data = shp(&[(5, 1, 0x80, vec![0x02, 5, 6, 0x82, 2, 0x01, 9], 0)]);
    assert_eq!(decode(&data).unwrap().frames[0].pixels, vec![5, 6, 5, 6, 9]);
}

#[test]
fn zero_literal_ends_data() {
    let data = shp(&[(3, 1, 0x80, vec![0x01, 4, 0x00, 0x01, 5], 0)]);
    assert_eq!(decode(&data).unwrap().frames[0].pixels, vec![4, 0, 0]);
}

#[test]
fn truncated_command_ends_data() {
    let data = shp(&[(3, 1, 0x80, vec![0x01, 4, 0xFE, 2], 0)]);
    assert_eq!(decode(&data).unwrap().frames[0].pixels, vec![4, 0, 0]);
}

#[test]
fn empty_frame_has_no_pixels() {
    let data = shp(&[(0, 5, 0x80, vec![0x01, 4], 0)]);
    let f = decode(&data).unwrap();
    assert_eq!(f.frames[0].width, 0);
    assert_eq!(f.frames[0].height, 5);
    assert!(f.frames[0].pixels.is_empty());
}

#[test]
fn xor_with_previous_frame() {
    let data = shp(&[
        (2, 2, 0x80, vec![0x04, 1, 2, 3, 4], 0),
        (2, 2, 0x20, vec![0x04, 1, 1, 1, 1], 0),
    ]);
    let f = decode(&data).unwrap();
    assert_eq!(f.frames.len(), 2);
    assert_eq!(f.frames[1].pixels, vec![0, 3, 2, 5]);
}

#[test]
fn xor_onto_smaller_previous_frame_keeps_full_size() {
    let data = shp(&[
        (1, 2, 0x80, vec![0x02, 1, 2], 0),
        (2, 2, 0x20, vec![0x04, 1, 1, 5, 6], 0),
    ]);
    let f = decode(&data).unwrap();
    assert_eq!(f.frames[1].pixels.len(), 4);
    assert_eq!(f.frames[1].pixels, vec![0, 3, 5, 6]);
}

#[test]
fn xor_onto_larger_previous_frame_keeps_own_size() {
    let data = shp(&[
        (2, 2, 0x80, vec![0x04, 1, 2, 3, 4], 0),
        (1, 2, 0x20, vec![0x02, 1, 1], 0),
    ]);
    let f = decode(&data).unwrap();
    assert_eq!(f.frames[1].pixels, vec![0, 3]);
}

#[test]
fn xor_previous_on_first_frame_is_plain() {
    let data = shp(&[(2, 1, 0x20, vec![0x02, 6, 7], 0)]);
    assert_eq!(decode(&data).unwrap().frames[0].pixels, vec![6, 7]);
}

#[test]
fn xor_with_reference_frame() {
    // The reference frame is the data of frame 0, at the first frame offset.
    let n = 2;
    let first_offset = (2 + (n + 2) * 8) as u32;
    let data = shp(&[
        (2, 1, 0x80, vec![0x02, 3, 5], 0),
        (2, 1, 0x40, vec![0x02, 1, 1], first_offset),
    ]);
    let f = decode(&data).unwrap();
    assert_eq!(f.frames[1].pixels, vec![2, 4]);
}

#[test]
fn error_messages() {
    assert_eq!(decode(&[1, 0, 0]).err().unwrap(), "SHP file too small");
    assert_eq!(decode(&[0u8; 20]).err().unwrap(), "SHP file has zero frames");
    let mut data = vec![0u8; 20];
    data[0] = 5;
    assert_eq!(decode(&data).err().unwrap(), "SHP file truncated in offset table");
    let mut data = vec![0u8; 26];
    data[0] = 1;
    data[2] = 200;
    assert_eq!(decode(&data).err().unwrap(), "Frame 0 offset out of bounds");
    let mut good = shp(&[(2, 1, 0x40, vec![0x02, 1, 1], 0)]);
    good[6] = 250;
    assert_eq!(decode(&good).err().unwrap(), "Ref frame offset out of bounds for frame 0");
}

#[test]
fn later_frame_out_of_bounds() {
    let mut data = shp(&[(1, 1, 0x80, vec![0x01, 1], 0), (1, 1, 0x80, vec![0x01, 2], 0)]);
    data[2 + 8] = 255;
    assert_eq!(decode(&data).err().unwrap(), "Frame 1 offset out of bounds");
}

#[test]
fn xor_buffers_is_pairwise_and_shortest() {
    assert_eq!(xor_buffers(&[1, 2, 3], &[3, 2]), vec![2, 0]);
    assert_eq!(xor_buffers(&[], &[3, 2]), Vec::<u8>::new());
}

#[test]
fn xor_twice_gives_back_the_overlay() {
    let a = [0x5A, 0xFF, 0x00, 0x13];
    let b = [0x01, 0x02, 0x03];
    let once = xor_buffers(&a, &b);
    assert_eq!(xor_buffers(&a, &once), b.to_vec());
}

#[test]
fn u24_low_bits_are_u16() {
    let data = [0x78, 0x56, 0x34, 0x12];
    assert_eq!(read_u24(&data, 1) % 65536, read_u16(&data, 1) as u32);
    assert_eq!(read_u24(&data, 1), 0x123456);
}

#[test]
fn smaller_frame_decodes_to_a_prefix() {
    let body = vec![0x03, 9, 8, 7, 0xFE, 4, 0, 5, 0xC0 | 1, 1, 0];
    let data = shp(&[(3, 1, 0x80, body.clone(), 0), (4, 3, 0x80, body, 0)]);
    let f = decode(&data).unwrap();
    let small = &f.frames[0].pixels;
    let large = &f.frames[1].pixels;
    assert_eq!(small.len(), 3);
    assert_eq!(large.len(), 12);
    assert_eq!(&large[..3], &small[..]);
    assert_eq!(large, &vec![9, 8, 7, 5, 5, 5, 5, 8, 7, 5, 5, 0]);
}
