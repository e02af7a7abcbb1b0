use bgst::{
    apply_mask, get_images, get_png_images, get_raw_images, parse_grid_entries, validate_header,
    BgstError, GridEntry, Header, ImageList,
};

const BLOCK: usize = 0x20000;

fn put_u32(buf: &mut Vec<u8>, at: usize, v: u32) {
    buf[at..at + 4].copy_from_slice(&v.to_be_bytes());
}

fn put_i16(buf: &mut Vec<u8>, at: usize, v: i16) {
    buf[at..at + 2].copy_from_slice(&v.to_be_bytes());
}

/// A container of `width` x `height` images with the given entries
/// (main index, mask index) and `count` blocks filled with `fill(i)`.
fn container(width: u32, height: u32, entries: &[(i16, i16)], count: u32) -> Vec<u8> {
    let info = 0x40usize;
    let data = info + 16 * entries.len();
    let mut buf = vec![0u8; data + count as usize * BLOCK];
    buf[0..4].copy_from_slice(b"BGST");
    put_u32(&mut buf, 8, width);
    put_u32(&mut buf, 0xC, height);
    put_u32(&mut buf, 0x18, count);
    put_u32(&mut buf, 0x28, info as u32);
    put_u32(&mut buf, 0x2C, data as u32);
    for (k, (main, mask)) in entries.iter().enumerate() {
        let at = info + 16 * k;
        put_i16(&mut buf, at, 1);
        put_i16(&mut buf, at + 8, *main);
        put_i16(&mut buf, at + 0xA, *mask);
    }
    for i in 0..count as usize {
        let start = data + i * BLOCK;
        for j in 0..BLOCK {
            buf[start + j] = ((i * 37 + j * 11) % 251) as u8;
        }
    }
    buf
}

fn scenario_header(image_data_offset: u32) -> Vec<u8> {
    let mut h = vec![0u8; 0x40];
    h[0..4].copy_from_slice(b"BGST");
    put_u32(&mut h, 4, 0x11);
    put_u32(&mut h, 8, 0x200);
    put_u32(&mut h, 0xC, 0x200);
    put_u32(&mut h, 0x10, 5);
    put_u32(&mut h, 0x14, 3);
    put_u32(&mut h, 0x18, 0x42);
    h[0x1C..0x28].copy_from_slice(&[1, 0, 1, 0, 1, 1, 0, 0, 0, 0, 0, 0]);
    put_u32(&mut h, 0x28, 0x40);
    put_u32(&mut h, 0x2C, image_data_offset);
    h
}

#[test]
fn invalid_bgst() {
    assert!(!validate_header(&vec![]));
}

#[test]
fn validate_rejects_short_buffer() {
    let mut b = vec![0u8; 63];
    b[0..4].copy_from_slice(b"BGST");
    assert!(!validate_header(&b));
}

#[test]
fn validate_rejects_wrong_magic() {
    let mut b = vec![0u8; 64];
    b[0..4].copy_from_slice(b"BGSU");
    assert!(!validate_header(&b));
}

#[test]
fn validate_accepts_magic_and_length() {
    let mut b = vec![0u8; 64];
    b[0..4].copy_from_slice(b"BGST");
    assert!(validate_header(&b));
}

#[test]
fn header_scenario_fields() {
    let b = scenario_header(0x440);
    assert!(validate_header(&b));
    let h: Header = Header::from_validated_header_bytes(&b);
    assert_eq!(h.unk_4, 0x11);
    assert_eq!(h.image_width, 0x200);
    assert_eq!(h.image_height, 0x200);
    assert_eq!(h.grid_width, 5);
    assert_eq!(h.grid_height, 3);
    assert_eq!(h.image_count, 0x42);
    assert_eq!(
        h.layer_enabled,
        [true, false, true, false, true, true, false, false, false, false, false, false]
    );
    assert_eq!(h.info_offset, 0x40);
    assert_eq!(h.image_data_offset, 0x440);
}

#[test]
fn header_scenario_entry_counts() {
    let mut b = scenario_header(0x50);
    b.resize(0x50, 0);
    let h = Header::from_validated_header_bytes(&b);
    let entries = parse_grid_entries(&b, h.info_offset, h.image_data_offset).unwrap();
    assert_eq!(entries.len(), 1);

    let mut b = scenario_header(0x440);
    b.resize(0x440, 0);
    let h = Header::from_validated_header_bytes(&b);
    let entries = parse_grid_entries(&b, h.info_offset, h.image_data_offset).unwrap();
    assert_eq!(entries.len(), 64);
}

#[test]
fn entries_read_from_successive_windows() {
    let mut b = vec![0u8; 0x40 + 48];
    for k in 0..3usize {
        for f in 0..8usize {
            put_i16(&mut b, 0x40 + 16 * k + 2 * f, (k as i16) * 10 + f as i16 - 3);
        }
    }
    let entries = parse_grid_entries(&b, 0x40, 0x70).unwrap();
    assert_eq!(entries.len(), 3);
    assert_eq!(
        entries[2],
        GridEntry {
            enabled: 17,
            scene_index: 18,
            grid_x: 19,
            grid_y: 20,
            main_image_index: 21,
            mask_image_index: 22,
            unk_c: 23,
            unk_e: 24,
        }
    );
    assert_eq!(entries[0].main_image_index, 1);
    assert_eq!(entries[0].enabled, -3);
    assert!(entries[0].is_enabled());
    assert!(entries[1].is_enabled());
}

#[test]
fn entries_negative_values_are_signed() {
    let mut b = vec![0u8; 16];
    put_i16(&mut b, 8, -1);
    b[0] = 0xFF;
    b[1] = 0xFE;
    let entries = parse_grid_entries(&b, 0, 16).unwrap();
    assert_eq!(entries[0].main_image_index, -1);
    assert_eq!(entries[0].enabled, -2);
    assert!(!GridEntry { enabled: 0, ..entries[0] }.is_enabled());
}

#[test]
fn entries_empty_region() {
    let b = vec![0u8; 0x40];
    assert_eq!(parse_grid_entries(&b, 0x40, 0x40).unwrap().len(), 0);
}

#[test]
fn entries_malformed_region() {
    let b = vec![0u8; 0x100];
    assert_eq!(parse_grid_entries(&b, 0x40, 0x48), Err(BgstError::MalformedLayout));
    assert_eq!(parse_grid_entries(&b, 0x40, 0x110), Err(BgstError::MalformedLayout));
    assert_eq!(parse_grid_entries(&b, 0x50, 0x40), Err(BgstError::MalformedLayout));
}

#[test]
fn raw_images_skip_out_of_range_indices() {
    let b = container(8, 8, &[(0, 1), (-1, 5), (0, -1), (2, -3)], 2);
    let list = get_raw_images(&b).unwrap();
    assert_eq!(list.image_width, 8);
    assert_eq!(list.image_height, 8);
    assert_eq!(list.grid_entries.len(), 4);
    assert_eq!(list.images.len(), 3);
    for img in &list.images {
        assert_eq!(img.len(), 8 * 8 * 4);
    }
    // the same block decodes to the same raster
    assert_eq!(list.images[0], list.images[2]);
}

#[test]
fn raw_images_all_out_of_range_is_not_an_error() {
    let b = container(8, 8, &[(-1, -1), (7, 9)], 1);
    let list = get_raw_images(&b).unwrap();
    assert_eq!(list.grid_entries.len(), 2);
    assert!(list.images.is_empty());
}

#[test]
fn raw_images_errors() {
    assert!(matches!(get_raw_images(&vec![0u8; 10]), Err(BgstError::InvalidContainer)));
    let mut b = container(8, 8, &[(0, 0)], 1);
    b.truncate(b.len() - 1);
    assert!(matches!(get_raw_images(&b), Err(BgstError::MalformedLayout)));
    let mut b = container(8, 8, &[(0, 0)], 1);
    put_u32(&mut b, 0x2C, 0x48);
    assert!(matches!(get_raw_images(&b), Err(BgstError::MalformedLayout)));
    let b = container(1024, 1024, &[(0, 0)], 1);
    assert!(matches!(get_raw_images(&b), Err(BgstError::UndecodableSize)));
}

#[test]
fn raw_images_large_size_without_named_blocks() {
    let b = container(1024, 1024, &[(-1, -1), (3, 7)], 1);
    let list = get_raw_images(&b).unwrap();
    assert_eq!(list.grid_entries.len(), 2);
    assert!(list.images.is_empty());
    let b = container(0xFFFF_FFFF, 0xFFFF_FFFF, &[(0, 0)], 0);
    let list = get_raw_images(&b).unwrap();
    assert_eq!(list.grid_entries.len(), 1);
    assert!(list.images.is_empty());
}

#[test]
fn raw_images_reject_sizes_that_overflow_tiles() {
    let b = container(0xFFFF_FFF8, 0, &[(0, -1)], 1);
    assert!(matches!(get_raw_images(&b), Err(BgstError::UndecodableSize)));
    let b = container(0, 0xFFFF_FFFF, &[(0, -1)], 1);
    assert!(matches!(get_raw_images(&b), Err(BgstError::UndecodableSize)));
    let b = container(0xFFFF_FFF7, 0, &[(-1, -1)], 1);
    assert!(get_raw_images(&b).unwrap().images.is_empty());
}

#[test]
fn masked_images_composite_pairs() {
    let b = container(8, 8, &[(0, 1), (1, -1)], 2);
    let raw = get_raw_images(&b).unwrap();
    let masked = get_images(&b, true).unwrap();
    assert_eq!(masked.images.len(), 2);
    let merged = apply_mask(&raw.images[0], &raw.images[1], 8, 8).unwrap();
    assert_eq!(masked.images[0], merged);
    assert_eq!(masked.images[1], raw.images[2]);
    let unmasked = get_images(&b, false).unwrap();
    assert_eq!(unmasked.images, raw.images);
}

#[test]
fn apply_mask_exact_values() {
    let main = vec![10, 20, 30, 40, 50, 60, 70, 80, 1, 2, 3, 0];
    let mask = vec![0, 0, 0, 255, 0, 0, 1, 0, 9, 9, 9, 9];
    let out = apply_mask(&main, &mask, 3, 1).unwrap();
    assert_eq!(out, vec![10, 20, 30, 0, 50, 60, 70, 80, 1, 2, 3, 0]);
}

#[test]
fn apply_mask_size_mismatch() {
    assert_eq!(apply_mask(&vec![0; 8], &vec![0; 4], 1, 1), Err(BgstError::SizeMismatch));
}

#[test]
fn apply_mask_too_small() {
    assert_eq!(apply_mask(&vec![0; 4], &vec![0; 4], 2, 1), Err(BgstError::ImageTooSmall));
}

#[test]
fn apply_mask_ignores_trailing_bytes() {
    let out = apply_mask(&vec![5, 6, 7, 8, 9], &vec![1, 0, 0, 0, 0], 1, 1).unwrap();
    assert_eq!(out, vec![5, 6, 7, 8]);
}

#[test]
fn apply_mask_empty() {
    assert_eq!(apply_mask(&vec![], &vec![], 0, 0).unwrap(), Vec::<u8>::new());
}

#[test]
fn png_images_encode_each_raster() {
    let b = container(8, 8, &[(0, -1), (1, -1), (0, -1)], 2);
    let list = get_raw_images(&b).unwrap();
    let pngs = get_png_images(&list).unwrap();
    assert_eq!(pngs.len(), 3);
    for png in &pngs {
        assert_eq!(&png[0..8], &[0x89, b'P', b'N', b'G', 0x0D, 0x0A, 0x1A, 0x0A]);
    }
    assert_eq!(pngs[0], pngs[2]);
    let again = get_png_images(&get_raw_images(&b).unwrap()).unwrap();
    assert_eq!(pngs, again);
}

#[test]
fn png_images_skip_short_rasters() {
    let list = ImageList {
        image_width: 1,
        image_height: 1,
        grid_entries: vec![],
        images: vec![vec![1, 2, 3], vec![1, 2, 3, 4, 5]],
    };
    let pngs = get_png_images(&list).unwrap();
    assert_eq!(pngs.len(), 1);
}

#[test]
fn png_images_encoder_refusal() {
    let list = ImageList {
        image_width: 0,
        image_height: 1,
        grid_entries: vec![],
        images: vec![vec![]],
    };
    assert!(matches!(get_png_images(&list), Err(BgstError::EncodeFailed)));
}

#[test]
fn png_images_zero_size_without_images() {
    let list = ImageList { image_width: 0, image_height: 0, grid_entries: vec![], images: vec![] };
    assert_eq!(get_png_images(&list).unwrap().len(), 0);
}

#[test]
fn error_messages() {
    assert_eq!(BgstError::SizeMismatch.message(), "the image sizes are not equal");
    assert_eq!(BgstError::InvalidContainer.message(), "not a valid BGST file");
}
