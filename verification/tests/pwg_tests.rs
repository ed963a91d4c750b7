use ipp_raster::color::SrgbColor;
use ipp_raster::error::IppError;
use ipp_raster::pwgraster::{decode_header, push_sync_word, Page, PageHeader};
use ipp_raster::rle::{decode_bands, decode_row, ImageEncoder};

#[test]
fn encode_row() {
    let data: Vec<SrgbColor> = [
        0xFFFF00, 0x0000FF, 0xFFFF00, 0xFFFFFF, 0xFFFFFF, 0xFFFFFF, 0x00FF00, 0xFFFFFF,
    ]
    .into_iter()
    .map(|e: u32| e.into())
    .collect();
    let mut out = Vec::new();
    ImageEncoder::do_encode_row(&mut out, &data);
    let expected_bytes = vec![
        0xFE, 0xFF, 0xFF, 0x00, 0x00, 0x00, 0xFF, 0xFF, 0xFF, 0x00, 0x02, 0xFF, 0xFF, 0xFF, 0xFF,
        0x00, 0xFF, 0x00, 0xFF, 0xFF, 0xFF,
    ];
    assert_eq!(expected_bytes, out);
}

#[test]
fn encode_row_long_comm_pixels() {
    let data: Vec<SrgbColor> = [0u32; 200].into_iter().map(|e| e.into()).collect();
    let mut out = Vec::new();
    ImageEncoder::do_encode_row(&mut out, &data);
    let expected_bytes = vec![0x47, 0x00, 0x00, 0x00, 0x7F, 0x00, 0x00, 0x00];
    assert_eq!(expected_bytes, out);
}

#[test]
fn encode_row_long_diff_pixels() {
    let data: Vec<SrgbColor> = (0u32..200).map(|e| e.into()).collect();
    let mut out = Vec::new();
    ImageEncoder::do_encode_row(&mut out, &data);
    let expected_bytes = vec![
        186, 0, 0, 0, 0, 0, 1, 0, 0, 2, 0, 0, 3, 0, 0, 4, 0, 0, 5, 0, 0, 6, 0, 0, 7, 0, 0, 8, 0,
        0, 9, 0, 0, 10, 0, 0, 11, 0, 0, 12, 0, 0, 13, 0, 0, 14, 0, 0, 15, 0, 0, 16, 0, 0, 17, 0,
        0, 18, 0, 0, 19, 0, 0, 20, 0, 0, 21, 0, 0, 22, 0, 0, 23, 0, 0, 24, 0, 0, 25, 0, 0, 26, 0,
        0, 27, 0, 0, 28, 0, 0, 29, 0, 0, 30, 0, 0, 31, 0, 0, 32, 0, 0, 33, 0, 0, 34, 0, 0, 35, 0,
        0, 36, 0, 0, 37, 0, 0, 38, 0, 0, 39, 0, 0, 40, 0, 0, 41, 0, 0, 42, 0, 0, 43, 0, 0, 44, 0,
        0, 45, 0, 0, 46, 0, 0, 47, 0, 0, 48, 0, 0, 49, 0, 0, 50, 0, 0, 51, 0, 0, 52, 0, 0, 53, 0,
        0, 54, 0, 0, 55, 0, 0, 56, 0, 0, 57, 0, 0, 58, 0, 0, 59, 0, 0, 60, 0, 0, 61, 0, 0, 62, 0,
        0, 63, 0, 0, 64, 0, 0, 65, 0, 0, 66, 0, 0, 67, 0, 0, 68, 0, 0, 69, 0, 0, 70, 128, 0, 0,
        71, 0, 0, 72, 0, 0, 73, 0, 0, 74, 0, 0, 75, 0, 0, 76, 0, 0, 77, 0, 0, 78, 0, 0, 79, 0, 0,
        80, 0, 0, 81, 0, 0, 82, 0, 0, 83, 0, 0, 84, 0, 0, 85, 0, 0, 86, 0, 0, 87, 0, 0, 88, 0, 0,
        89, 0, 0, 90, 0, 0, 91, 0, 0, 92, 0, 0, 93, 0, 0, 94, 0, 0, 95, 0, 0, 96, 0, 0, 97, 0, 0,
        98, 0, 0, 99, 0, 0, 100, 0, 0, 101, 0, 0, 102, 0, 0, 103, 0, 0, 104, 0, 0, 105, 0, 0, 106,
        0, 0, 107, 0, 0, 108, 0, 0, 109, 0, 0, 110, 0, 0, 111, 0, 0, 112, 0, 0, 113, 0, 0, 114, 0,
        0, 115, 0, 0, 116, 0, 0, 117, 0, 0, 118, 0, 0, 119, 0, 0, 120, 0, 0, 121, 0, 0, 122, 0, 0,
        123, 0, 0, 124, 0, 0, 125, 0, 0, 126, 0, 0, 127, 0, 0, 128, 0, 0, 129, 0, 0, 130, 0, 0,
        131, 0, 0, 132, 0, 0, 133, 0, 0, 134, 0, 0, 135, 0, 0, 136, 0, 0, 137, 0, 0, 138, 0, 0,
        139, 0, 0, 140, 0, 0, 141, 0, 0, 142, 0, 0, 143, 0, 0, 144, 0, 0, 145, 0, 0, 146, 0, 0,
        147, 0, 0, 148, 0, 0, 149, 0, 0, 150, 0, 0, 151, 0, 0, 152, 0, 0, 153, 0, 0, 154, 0, 0,
        155, 0, 0, 156, 0, 0, 157, 0, 0, 158, 0, 0, 159, 0, 0, 160, 0, 0, 161, 0, 0, 162, 0, 0,
        163, 0, 0, 164, 0, 0, 165, 0, 0, 166, 0, 0, 167, 0, 0, 168, 0, 0, 169, 0, 0, 170, 0, 0,
        171, 0, 0, 172, 0, 0, 173, 0, 0, 174, 0, 0, 175, 0, 0, 176, 0, 0, 177, 0, 0, 178, 0, 0,
        179, 0, 0, 180, 0, 0, 181, 0, 0, 182, 0, 0, 183, 0, 0, 184, 0, 0, 185, 0, 0, 186, 0, 0,
        187, 0, 0, 188, 0, 0, 189, 0, 0, 190, 0, 0, 191, 0, 0, 192, 0, 0, 193, 0, 0, 194, 0, 0,
        195, 0, 0, 196, 0, 0, 197, 0, 0, 198, 0, 0, 199,
    ];
    assert_eq!(expected_bytes, out);
}

#[test]
fn encode_image() {
    let mut encoder = ImageEncoder::new(8, 8);

    let image_data = [
        [0xFFFFFF, 0xFFFF00, 0xFFFF00, 0xFFFF00, 0xFFFFFF, 0xFFFFFF, 0xFFFFFF, 0xFFFFFF],
        [0xFFFF00, 0x0000FF, 0xFFFF00, 0xFFFFFF, 0xFFFFFF, 0xFFFFFF, 0x00FF00, 0xFFFFFF],
        [0xFFFF00, 0xFFFF00, 0xFFFFFF, 0xFFFFFF, 0xFFFFFF, 0x00FF00, 0x00FF00, 0x00FF00],
        [0xFFFF00, 0xFFFF00, 0xFFFF00, 0xFFFFFF, 0xFFFFFF, 0xFFFFFF, 0x00FF00, 0xFFFFFF],
        [0xFFFFFF, 0xFFFF00, 0xFFFF00, 0xFFFF00, 0xFFFFFF, 0xFFFFFF, 0xFFFFFF, 0xFFFFFF],
        [0xFFFFFF, 0xFFFFFF, 0xFFFFFF, 0xFFFFFF, 0xFFFFFF, 0xFFFFFF, 0xFFFFFF, 0xFFFFFF],
        [0xFF0000, 0xFF0000, 0xFF0000, 0xFF0000, 0xFF0000, 0xFF0000, 0xFF0000, 0xFF0000],
        [0xFF0000, 0xFF0000, 0xFF0000, 0xFF0000, 0xFF0000, 0xFF0000, 0xFF0000, 0xFF0000],
    ];

    let mut out = Vec::new();
    for row in image_data {
        encoder.write_row(&mut out, row.into_iter().map(|e: u32| e.into()).collect());
    }
    let expected_bytes = vec![
        0x00, 0x00, 0xFF, 0xFF, 0xFF, 0x02, 0xFF, 0xFF, 0x00, 0x03, 0xFF, 0xFF, 0xFF, 0x00, 0xFE,
        0xFF, 0xFF, 0x00, 0x00, 0x00, 0xFF, 0xFF, 0xFF, 0x00, 0x02, 0xFF, 0xFF, 0xFF, 0xFF, 0x00,
        0xFF, 0x00, 0xFF, 0xFF, 0xFF, 0x00, 0x01, 0xFF, 0xFF, 0x00, 0x02, 0xFF, 0xFF, 0xFF, 0x02,
        0x00, 0xFF, 0x00, 0x00, 0x02, 0xFF, 0xFF, 0x00, 0x02, 0xFF, 0xFF, 0xFF, 0xFF, 0x00, 0xFF,
        0x00, 0xFF, 0xFF, 0xFF, 0x00, 0x00, 0xFF, 0xFF, 0xFF, 0x02, 0xFF, 0xFF, 0x00, 0x03, 0xFF,
        0xFF, 0xFF, 0x00, 0x07, 0xFF, 0xFF, 0xFF, 0x01, 0x07, 0xFF, 0x00, 0x00,
    ];
    assert_eq!(expected_bytes, out);
}

#[test]
fn header_default_encodes_to_1796_bytes() {
    let header = PageHeader::default();
    let mut out = Vec::new();
    let written = header.write_to_stream(&mut out);
    assert_eq!(written, 1796);
    assert_eq!(out.len(), 1796);
}

#[test]
fn header_default_field_bytes() {
    let header = PageHeader::default();
    let mut out = Vec::new();
    header.write_to_stream(&mut out);
    // hw_resolution at offset 276: 300 dpi both ways
    assert_eq!(&out[276..284], &[0, 0, 1, 44, 0, 0, 1, 44]);
    // page size in points at 352: 595 x 841
    assert_eq!(&out[352..360], &[0, 0, 2, 83, 0, 0, 3, 73]);
    // width 2480 at 372, height 3507 at 376
    assert_eq!(&out[372..380], &[0, 0, 9, 176, 0, 0, 13, 179]);
    // bytes_per_line 7440 at 392
    assert_eq!(&out[392..396], &[0, 0, 29, 16]);
    // color_space sRGB (19) at 400
    assert_eq!(&out[400..404], &[0, 0, 0, 19]);
    // alternate_primary 0xFFFFFF at 480
    assert_eq!(&out[480..484], &[0, 255, 255, 255]);
    // page size name at 1732, NUL padded
    assert_eq!(&out[1732..1748], b"iso_a4_210x297mm");
    assert!(out[1748..1796].iter().all(|&b| b == 0));
}

#[test]
fn header_round_trip() {
    let header = PageHeader::default();
    let mut out = Vec::new();
    header.write_to_stream(&mut out);
    let back = decode_header(&out, 0);
    let mut again = Vec::new();
    back.write_to_stream(&mut again);
    assert_eq!(out, again);
    assert_eq!(back.width, 2480);
    assert_eq!(back.height, 3507);
    assert_eq!(back.cross_feed_transform, 1);
    assert_eq!(back.num_colors, 3);
}

#[test]
fn row_round_trip() {
    let data: Vec<SrgbColor> = [
        0xFFFF00u32, 0x0000FF, 0xFFFF00, 0xFFFFFF, 0xFFFFFF, 0xFFFFFF, 0x00FF00, 0xFFFFFF,
    ]
    .into_iter()
    .map(|e| e.into())
    .collect();
    let mut out = Vec::new();
    let written = ImageEncoder::do_encode_row(&mut out, &data);
    let (decoded, pos) = decode_row(&out, 0, 8).unwrap();
    assert_eq!(decoded, data);
    assert_eq!(pos, written);
}

#[test]
fn row_decode_truncated_is_io_error() {
    // a run packet of 3 pixels, but only two colour bytes follow
    let bytes = vec![0x02, 0xFF, 0xFF];
    assert_eq!(decode_row(&bytes, 0, 3), Err(IppError::Io));
}

#[test]
fn bands_replicate_rows() {
    // band of 3 identical 2-pixel rows, then 1 different row
    let bytes = vec![
        0x02, 0x01, 0xAA, 0xBB, 0xCC, // repeat byte 2, run of 2 pixels
        0x00, 0xFF, 0x01, 0x02, 0x03, 0x04, 0x05, 0x06, // repeat 0, literal run of 2
    ];
    let (rows, pos) = decode_bands(&bytes, 0, 2, 4).unwrap();
    assert_eq!(pos, bytes.len());
    assert_eq!(rows.len(), 4);
    let grey = SrgbColor::new(0xAA, 0xBB, 0xCC);
    assert_eq!(rows[0], vec![grey, grey]);
    assert_eq!(rows[1], vec![grey, grey]);
    assert_eq!(rows[2], vec![grey, grey]);
    assert_eq!(rows[3], vec![SrgbColor::new(1, 2, 3), SrgbColor::new(4, 5, 6)]);
}

#[test]
fn page_encodes_header_then_bands() {
    let mut header = PageHeader::default();
    header.width = 2;
    header.height = 2;
    header.bytes_per_line = 6;
    let red = SrgbColor::new(255, 0, 0);
    let bitmap = vec![red, red, red, red];
    let page = Page::new(header, bitmap);
    let mut out = Vec::new();
    push_sync_word(&mut out);
    let written = page.write_to_stream(&mut out);
    assert_eq!(&out[0..4], b"RaS2");
    // 1796-byte header, then one band: repeat byte 1, run of 2 red pixels
    assert_eq!(written, 1796 + 5);
    assert_eq!(&out[4 + 1796..], &[0x01, 0x01, 255, 0, 0]);
}

#[test]
fn image_round_trips_through_bands() {
    // four 3-pixel scanlines: two identical, one different, one more
    let a = vec![SrgbColor::new(1, 2, 3), SrgbColor::new(1, 2, 3), SrgbColor::new(9, 9, 9)];
    let b = vec![SrgbColor::new(5, 5, 5), SrgbColor::new(6, 6, 6), SrgbColor::new(7, 7, 7)];
    let rows = vec![a.clone(), a.clone(), b.clone(), a.clone()];
    let mut enc = ImageEncoder::new(3, 4);
    let mut body = Vec::new();
    for row in &rows {
        enc.write_row(&mut body, row.clone());
    }
    let (back, pos) = decode_bands(&body, 0, 3, 4).unwrap();
    assert_eq!(pos, body.len());
    assert_eq!(back, rows);
}

#[test]
fn color_from_u32_unpacks_channels() {
    let c: SrgbColor = 0x123456u32.into();
    assert_eq!(c, SrgbColor::new(0x12, 0x34, 0x56));
}
