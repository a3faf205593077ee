use fbmeta::civil::CivilTime;
use fbmeta::error::MetaError;
use fbmeta::exif_block::{encode_block, CaptionTag, EncodingProfile, MAX_BLOCK_LEN};

fn when() -> CivilTime {
    CivilTime::from_epoch_seconds(1577934245).unwrap()
}

fn le16(b: &[u8], at: usize) -> usize {
    b[at] as usize | (b[at + 1] as usize) << 8
}

fn le32(b: &[u8], at: usize) -> usize {
    le16(b, at) | le16(b, at + 2) << 16
}

/// Reads entry `i` of the first directory as (tag, type, text).
fn read_entry(b: &[u8], i: usize) -> (u16, u16, Vec<u8>) {
    let e = le32(b, 4) + 2 + 12 * i;
    let count = le32(b, e + 4);
    let start = if count > 4 { le32(b, e + 8) } else { e + 8 };
    assert_eq!(b[start + count - 1], 0);
    (le16(b, e) as u16, le16(b, e + 2) as u16, b[start..start + count - 1].to_vec())
}

fn plain() -> EncodingProfile {
    EncodingProfile { caption_tag: CaptionTag::UserComment, original_time: false }
}

#[test]
fn short_caption_exact_bytes() {
    let b = encode_block(&"Hi".to_string(), &when(), plain()).unwrap();
    let mut expected: Vec<u8> = vec![0x49, 0x49, 0x2A, 0, 8, 0, 0, 0, 2, 0];
    expected.extend_from_slice(&[0x86, 0x92, 2, 0, 3, 0, 0, 0, b'H', b'i', 0, 0]);
    expected.extend_from_slice(&[0x32, 0x01, 2, 0, 20, 0, 0, 0, 38, 0, 0, 0]);
    expected.extend_from_slice(&[0, 0, 0, 0]);
    expected.extend_from_slice(b"2020:01:02 03:04:05\0");
    assert_eq!(b, expected);
}

#[test]
fn archival_profile_round_trip() {
    let caption = "Hello\n\"Nice!\" -Bob (2020-01-02 03:04:05 AM)".to_string();
    let b = encode_block(&caption, &when(), EncodingProfile::archival()).unwrap();
    assert_eq!(le16(&b, 8), 3);
    assert_eq!(read_entry(&b, 0), (0x9286, 2, caption.as_bytes().to_vec()));
    assert_eq!(read_entry(&b, 1), (0x9003, 2, b"2020:01:02 03:04:05".to_vec()));
    assert_eq!(read_entry(&b, 2), (0x0132, 2, b"2020:01:02 03:04:05".to_vec()));
    assert_eq!(b.len(), 14 + 36 + caption.len() + 1 + 2 * 20);
}

#[test]
fn image_description_profile() {
    let profile = EncodingProfile { caption_tag: CaptionTag::ImageDescription, original_time: false };
    let b = encode_block(&"caption text".to_string(), &when(), profile).unwrap();
    assert_eq!(le16(&b, 8), 2);
    assert_eq!(read_entry(&b, 0), (0x010e, 2, b"caption text".to_vec()));
    assert_eq!(read_entry(&b, 1), (0x0132, 2, b"2020:01:02 03:04:05".to_vec()));
}

#[test]
fn empty_caption_is_inline() {
    let b = encode_block(&String::new(), &when(), plain()).unwrap();
    assert_eq!(read_entry(&b, 0), (0x9286, 2, Vec::new()));
    assert_eq!(b.len(), 14 + 24 + 20);
}

#[test]
fn caption_of_three_bytes_fills_inline_field() {
    let b = encode_block(&"abc".to_string(), &when(), plain()).unwrap();
    assert_eq!(&b[10..22], &[0x86, 0x92, 2, 0, 4, 0, 0, 0, b'a', b'b', b'c', 0]);
}

#[test]
fn utf8_caption_round_trip() {
    let caption = "Café ☕".to_string();
    let b = encode_block(&caption, &when(), plain()).unwrap();
    let (_, _, text) = read_entry(&b, 0);
    assert_eq!(String::from_utf8(text).unwrap(), caption);
}

#[test]
fn largest_caption_that_fits() {
    let fixed = 14 + 36 + 2 * 20 + 1;
    let caption = "a".repeat(MAX_BLOCK_LEN - fixed);
    let b = encode_block(&caption, &when(), EncodingProfile::archival()).unwrap();
    assert_eq!(b.len(), MAX_BLOCK_LEN);
    let too_long = "a".repeat(MAX_BLOCK_LEN - fixed + 1);
    assert_eq!(
        encode_block(&too_long, &when(), EncodingProfile::archival()),
        Err(MetaError::Encode)
    );
}
