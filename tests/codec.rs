use fmi::{
    decode, encode, fmi_op_difference, fmi_op_gray, fmi_op_index, fmi_op_run, pos_hash,
    read_header, tag_of_byte, write_fmi_header, write_footer, FormatError, Image, Tag,
};

const FOOTER: [u8; 8] = [0, 0, 0, 0, 0, 0, 0, 1];

fn stream(width: u32, height: u32, tokens: &[u8]) -> Vec<u8> {
    let mut s = vec![b'f', b'm', b'i', b'f'];
    s.extend_from_slice(&width.to_be_bytes());
    s.extend_from_slice(&height.to_be_bytes());
    s.extend_from_slice(tokens);
    s.extend_from_slice(&FOOTER);
    s
}

fn image(width: u32, height: u32, pixels: Vec<u8>) -> Image {
    Image { width, height, pixels }
}

fn round_trip(pixels: Vec<u8>) {
    let n = pixels.len() as u32;
    let bytes = encode(&image(n, 1, pixels.clone()));
    let back = decode(&bytes).unwrap();
    assert_eq!(back.width, n);
    assert_eq!(back.height, 1);
    assert_eq!(back.pixels, pixels);
}

#[test]
fn header_round_trip_values() {
    for &(w, h) in &[(0u32, 0u32), (1, 2), (640, 480), (u32::MAX, 0x01020304)] {
        let mut s = Vec::new();
        write_fmi_header(&mut s, w, h);
        assert_eq!(s.len(), 12);
        assert_eq!(read_header(&s), Ok((w, h)));
    }
}

#[test]
fn header_bytes_are_big_endian() {
    let mut s = Vec::new();
    write_fmi_header(&mut s, 0x01020304, 10);
    assert_eq!(s, vec![0x66, 0x6d, 0x69, 0x66, 1, 2, 3, 4, 0, 0, 0, 10]);
}

#[test]
fn bad_magic_is_rejected() {
    let mut s = stream(3, 1, &[0xff, 5]);
    s[0] = b'x';
    assert_eq!(read_header(&s), Err(FormatError::BadMagic));
    assert!(matches!(decode(&s), Err(FormatError::BadMagic)));
}

#[test]
fn short_stream_is_truncated() {
    let s = vec![0x66, 0x6d, 0x69, 0x66, 0, 0];
    assert_eq!(read_header(&s), Err(FormatError::Truncated));
    assert!(matches!(decode(&s), Err(FormatError::Truncated)));
}

#[test]
fn header_only_stream_decodes_to_nothing() {
    let mut s = Vec::new();
    write_fmi_header(&mut s, 4, 4);
    let img = decode(&s).unwrap();
    assert_eq!((img.width, img.height), (4, 4));
    assert!(img.pixels.is_empty());
}

#[test]
fn footer_bytes() {
    let mut s = vec![9u8];
    write_footer(&mut s);
    assert_eq!(s, vec![9, 0, 0, 0, 0, 0, 0, 0, 1]);
}

#[test]
fn token_writers() {
    let mut s = Vec::new();
    fmi_op_index(&mut s, 63);
    fmi_op_index(&mut s, 65);
    fmi_op_difference(&mut s, 0x61);
    fmi_op_gray(&mut s, 200);
    fmi_op_run(&mut s, 1023);
    fmi_op_run(&mut s, 10);
    assert_eq!(s, vec![63, 1, 0x61, 0xff, 200, 0x83, 0xff, 0x80, 10]);
}

#[test]
fn slot_and_tag_of_bytes() {
    assert_eq!(pos_hash(0), 0);
    assert_eq!(pos_hash(3), 0);
    assert_eq!(pos_hash(128), 32);
    assert_eq!(pos_hash(255), 63);
    assert_eq!(tag_of_byte(0x05), Tag::CacheRef);
    assert_eq!(tag_of_byte(0x61), Tag::Delta);
    assert_eq!(tag_of_byte(0x83), Tag::Run);
    assert_eq!(tag_of_byte(0xff), Tag::Literal);
}

#[test]
fn uniform_row_is_literal_then_run() {
    let bytes = encode(&image(10, 1, vec![128; 10]));
    assert_eq!(bytes, stream(10, 1, &[0xff, 128, 0x80, 9]));
    assert_eq!(&bytes[bytes.len() - 8..], &FOOTER);
    let img = decode(&bytes).unwrap();
    assert_eq!((img.width, img.height), (10, 1));
    assert_eq!(img.pixels, vec![128u8; 10]);
}

#[test]
fn mixed_pixels_use_each_token_kind() {
    let bytes = encode(&image(5, 1, vec![10, 10, 50, 51, 50]));
    assert_eq!(bytes, stream(5, 1, &[0xff, 10, 0x02, 0xff, 50, 0x61, 0x0c]));
    assert_eq!(decode(&bytes).unwrap().pixels, vec![10, 10, 50, 51, 50]);
}

#[test]
fn run_of_1023_is_one_token() {
    let bytes = encode(&image(1023, 1, vec![0; 1023]));
    assert_eq!(bytes, stream(1023, 1, &[0x83, 0xff]));
    assert_eq!(decode(&bytes).unwrap().pixels, vec![0u8; 1023]);
}

#[test]
fn run_of_1024_is_capped_and_continued() {
    let bytes = encode(&image(1024, 1, vec![0; 1024]));
    assert_eq!(bytes, stream(1024, 1, &[0x83, 0xff, 0xff, 0x00]));
    assert_eq!(decode(&bytes).unwrap().pixels, vec![0u8; 1024]);
}

#[test]
fn long_run_splits_into_runs() {
    let bytes = encode(&image(3000, 1, vec![0; 3000]));
    assert_eq!(bytes, stream(3000, 1, &[0x83, 0xff, 0x83, 0xff, 0x83, 0xba]));
    assert_eq!(decode(&bytes).unwrap().pixels, vec![0u8; 3000]);
}

#[test]
fn delta_of_minus_32_is_a_delta() {
    let bytes = encode(&image(4, 1, vec![100, 69, 100, 68]));
    assert_eq!(bytes, stream(4, 1, &[0xff, 100, 0xff, 69, 25, 0x40]));
    round_trip(vec![100, 69, 100, 68]);
}

#[test]
fn delta_of_plus_31_is_a_delta() {
    let bytes = encode(&image(4, 1, vec![100, 128, 100, 131]));
    assert_eq!(bytes, stream(4, 1, &[0xff, 100, 0xff, 128, 25, 0x7f]));
    round_trip(vec![100, 128, 100, 131]);
}

#[test]
fn delta_of_minus_33_is_a_literal() {
    let bytes = encode(&image(4, 1, vec![100, 64, 100, 67]));
    assert_eq!(bytes, stream(4, 1, &[0xff, 100, 0xff, 64, 25, 0xff, 67]));
    round_trip(vec![100, 64, 100, 67]);
}

#[test]
fn delta_of_plus_32_is_a_literal() {
    let bytes = encode(&image(4, 1, vec![100, 133, 100, 132]));
    assert_eq!(bytes, stream(4, 1, &[0xff, 100, 0xff, 133, 25, 0xff, 132]));
    round_trip(vec![100, 133, 100, 132]);
}

#[test]
fn wraparound_delta() {
    let bytes = encode(&image(3, 1, vec![250, 5, 250]));
    assert_eq!(bytes, stream(3, 1, &[0xff, 250, 0xff, 5, 62]));
    let bytes = encode(&image(3, 1, vec![249, 3, 250]));
    assert_eq!(bytes, stream(3, 1, &[0xff, 249, 0xff, 3, 0x40 | 23]));
    round_trip(vec![249, 3, 250]);
}

#[test]
fn evicted_slot_is_refilled_by_literal() {
    let pixels = vec![40, 200, 41, 40, 41, 41, 41];
    let bytes = encode(&image(7, 1, pixels.clone()));
    assert_eq!(
        bytes,
        stream(7, 1, &[0xff, 40, 0xff, 200, 0xff, 41, 0x40 | 31, 10, 0x80, 2])
    );
    round_trip(pixels);
}

#[test]
fn unresolved_cache_ref_fails() {
    let good = encode(&image(5, 1, vec![10, 10, 50, 51, 50]));
    let mut bad = good[..12].to_vec();
    bad.extend_from_slice(&good[14..]);
    assert_eq!(bad, stream(5, 1, &[0x02, 0xff, 50, 0x61, 0x0c]));
    assert!(matches!(decode(&bad), Err(FormatError::UnresolvedCacheRef)));
}

#[test]
fn run_token_reads_full_fourteen_bits() {
    let s = stream(1, 1, &[0xff, 7, 0xbf, 0xff]);
    let img = decode(&s).unwrap();
    assert_eq!(img.pixels.len(), 1 + 16383);
    assert!(img.pixels.iter().all(|&b| b == 7));
}

#[test]
fn empty_image_round_trips() {
    let bytes = encode(&image(0, 0, vec![]));
    assert_eq!(bytes, stream(0, 0, &[]));
    let img = decode(&bytes).unwrap();
    assert!(img.pixels.is_empty());
}

#[test]
fn assorted_sequences_round_trip() {
    round_trip(vec![0]);
    round_trip(vec![0, 0]);
    round_trip(vec![255, 0, 255, 0, 1, 2, 3, 3, 3, 200, 199, 4]);
    round_trip((0..=255u8).collect());
    round_trip((0..5000u32).map(|i| ((i * 37) % 251) as u8).collect());
    round_trip((0..4000u32).map(|i| (i / 700) as u8 * 40).collect());
}
