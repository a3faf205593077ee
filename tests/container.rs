use fbmeta::error::{MetaError, ParseError};
use fbmeta::jpeg::inject_block;

/// SOI, APP0, DQT, SOF0, SOS with scan data and EOI.
fn plain_image() -> Vec<u8> {
    let mut v: Vec<u8> = vec![0xFF, 0xD8];
    v.extend_from_slice(&[0xFF, 0xE0, 0x00, 0x04, b'J', b'F']);
    v.extend_from_slice(&[0xFF, 0xDB, 0x00, 0x04, 0x01, 0x02]);
    v.extend_from_slice(&[0xFF, 0xC0, 0x00, 0x04, 0x03, 0x04]);
    v.extend_from_slice(&[0xFF, 0xDA, 0x00, 0x04, 0x05, 0x06]);
    v.extend_from_slice(&[0x11, 0x22, 0xFF, 0xD9]);
    v
}

fn metadata_segment(block: &[u8]) -> Vec<u8> {
    let len = block.len() + 8;
    let mut v: Vec<u8> = vec![0xFF, 0xE1, (len >> 8) as u8, len as u8];
    v.extend_from_slice(b"Exif\0\0");
    v.extend_from_slice(block);
    v
}

fn count_metadata_segments(image: &[u8]) -> usize {
    let mut n = 0;
    let mut at = 2;
    while at + 4 <= image.len() && image[at] == 0xFF && image[at + 1] != 0xDA {
        let len = (image[at + 2] as usize) << 8 | image[at + 3] as usize;
        if image[at + 1] == 0xE1 && image[at + 4..].starts_with(b"Exif\0\0") {
            n += 1;
        }
        at += 2 + len;
    }
    n
}

#[test]
fn inject_into_plain_image() {
    let input = plain_image();
    let block = vec![1u8, 2, 3, 4, 5];
    let out = inject_block(&input, block.clone()).unwrap();
    assert_eq!(out.len(), input.len() + 4 + 6 + block.len());
    let mut expected = input[..20].to_vec();
    expected.extend_from_slice(&metadata_segment(&block));
    expected.extend_from_slice(&input[20..]);
    assert_eq!(out, expected);
}

#[test]
fn reinjection_replaces_old_metadata() {
    let once = inject_block(&plain_image(), vec![9u8; 40]).unwrap();
    assert_eq!(count_metadata_segments(&once), 1);
    let twice = inject_block(&once, vec![7u8, 7, 7]).unwrap();
    assert_eq!(count_metadata_segments(&twice), 1);
    assert_eq!(twice, inject_block(&plain_image(), vec![7u8, 7, 7]).unwrap());
    assert!(!twice.windows(40).any(|w| w == &[9u8; 40][..]));
}

#[test]
fn missing_start_marker_is_a_parse_error() {
    let mut input = plain_image();
    input[1] = 0xD9;
    assert_eq!(
        inject_block(&input, vec![1u8]),
        Err(MetaError::Parse(ParseError::WrongSignature))
    );
    assert!(matches!(inject_block(&[], vec![1u8]), Err(MetaError::Parse(_))));
    assert!(matches!(inject_block(&[0xFF], vec![1u8]), Err(MetaError::Parse(_))));
}

#[test]
fn truncated_segment_is_a_parse_error() {
    let input = plain_image();
    assert!(matches!(inject_block(&input[..12], vec![1u8]), Err(MetaError::Parse(_))));
}

#[test]
fn too_few_segments_is_refused() {
    let input: Vec<u8> = vec![0xFF, 0xD8, 0xFF, 0xDA, 0x00, 0x04, 0x05, 0x06, 0x11, 0xFF, 0xD9];
    assert_eq!(
        inject_block(&input, vec![1u8]),
        Err(MetaError::Parse(ParseError::TooFewSegments))
    );
}

#[test]
fn scan_without_header_contents_is_refused() {
    let mut input: Vec<u8> = vec![0xFF, 0xD8];
    input.extend_from_slice(&[0xFF, 0xE0, 0x00, 0x04, b'J', b'F']);
    input.extend_from_slice(&[0xFF, 0xDB, 0x00, 0x04, 0x01, 0x02]);
    input.extend_from_slice(&[0xFF, 0xC0, 0x00, 0x04, 0x03, 0x04]);
    input.extend_from_slice(&[0xFF, 0xDA, 0x00, 0x02, 0x11, 0x22, 0xFF, 0xD9]);
    assert_eq!(
        inject_block(&input, vec![1u8]),
        Err(MetaError::Parse(ParseError::Truncated))
    );
}

#[test]
fn marker_without_length_is_refused() {
    let mut input: Vec<u8> = vec![0xFF, 0xD8];
    input.extend_from_slice(&[0xFF, 0xE0, 0x00, 0x04, b'J', b'F']);
    input.extend_from_slice(&[0xFF, 0x01]);
    input.extend_from_slice(&[0xFF, 0xDB, 0x00, 0x04, 0x01, 0x02]);
    input.extend_from_slice(&[0xFF, 0xC0, 0x00, 0x04, 0x03, 0x04]);
    input.extend_from_slice(&[0xFF, 0xDA, 0x00, 0x04, 0x05, 0x06, 0x11, 0xFF, 0xD9]);
    assert_eq!(
        inject_block(&input, vec![0xABu8]),
        Err(MetaError::Parse(ParseError::UnsupportedMarker))
    );
}

#[test]
fn removing_the_new_segment_gives_back_the_input() {
    let input = plain_image();
    let block = vec![0x42u8; 300];
    let out = inject_block(&input, block.clone()).unwrap();
    let seg = metadata_segment(&block);
    assert_eq!(&out[20..20 + seg.len()], &seg[..]);
    let mut rest = out[..20].to_vec();
    rest.extend_from_slice(&out[20 + seg.len()..]);
    assert_eq!(rest, input);
}

#[test]
fn block_too_long_for_one_segment() {
    let input = plain_image();
    assert_eq!(inject_block(&input, vec![0u8; 65528]), Err(MetaError::Encode));
    let out = inject_block(&input, vec![0u8; 65527]).unwrap();
    assert_eq!(out.len(), input.len() + 4 + 6 + 65527);
    assert_eq!(&out[20..24], &[0xFF, 0xE1, 0xFF, 0xFF]);
}
