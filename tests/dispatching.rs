use fbmeta::caption::Comment;
use fbmeta::civil::CivilTime;
use fbmeta::dispatch::{
    caption_block, caption_photo, classify, creates_directories, plan_album, plan_item, ItemPlan,
    MediaKind, RunOptions,
};
use fbmeta::error::{MetaError, ParseError};
use fbmeta::exif_block::{encode_block, EncodingProfile};
use fbmeta::jpeg::inject_block;

fn opts(dry_run: bool, skip_photos: bool, skip_videos: bool) -> RunOptions {
    RunOptions { dry_run, skip_photos, skip_videos }
}

fn image() -> Vec<u8> {
    let mut v: Vec<u8> = vec![0xFF, 0xD8];
    v.extend_from_slice(&[0xFF, 0xE0, 0x00, 0x04, b'J', b'F']);
    v.extend_from_slice(&[0xFF, 0xDB, 0x00, 0x04, 0x01, 0x02]);
    v.extend_from_slice(&[0xFF, 0xC0, 0x00, 0x04, 0x03, 0x04]);
    v.extend_from_slice(&[0xFF, 0xDA, 0x00, 0x04, 0x05, 0x06]);
    v.extend_from_slice(&[0x11, 0x22, 0xFF, 0xD9]);
    v
}

#[test]
fn extensions_are_classified() {
    assert_eq!(classify(Some("jpg")), MediaKind::Photo);
    assert_eq!(classify(Some("mp4")), MediaKind::Video);
    assert_eq!(classify(Some("flv")), MediaKind::Video);
    assert_eq!(classify(Some("gif")), MediaKind::Unrecognized);
    assert_eq!(classify(Some("JPG")), MediaKind::Unrecognized);
    assert_eq!(classify(Some("")), MediaKind::Unrecognized);
    assert_eq!(classify(None), MediaKind::Unrecognized);
}

#[test]
fn unrecognized_items_do_not_stop_the_album() {
    let kinds = vec![
        classify(Some("jpg")),
        classify(Some("gif")),
        classify(None),
        classify(Some("mp4")),
        classify(Some("jpg")),
    ];
    let plans = plan_album(&opts(false, false, false), &kinds);
    assert_eq!(
        plans,
        vec![
            ItemPlan::Photo { write_output: true },
            ItemPlan::Unrecognized,
            ItemPlan::Unrecognized,
            ItemPlan::Video { copy_output: true },
            ItemPlan::Photo { write_output: true },
        ]
    );
}

#[test]
fn skip_switches_disable_their_kind_only() {
    let o = opts(false, true, false);
    assert_eq!(plan_item(&o, MediaKind::Photo), ItemPlan::Disabled);
    assert_eq!(plan_item(&o, MediaKind::Video), ItemPlan::Video { copy_output: true });
    let o = opts(false, false, true);
    assert_eq!(plan_item(&o, MediaKind::Video), ItemPlan::Disabled);
    assert_eq!(plan_item(&o, MediaKind::Photo), ItemPlan::Photo { write_output: true });
}

#[test]
fn dry_run_writes_nothing_but_still_computes() {
    let o = opts(true, false, false);
    assert!(!creates_directories(&o));
    assert!(creates_directories(&opts(false, false, false)));
    assert_eq!(plan_item(&o, MediaKind::Photo), ItemPlan::Photo { write_output: false });
    assert_eq!(plan_item(&o, MediaKind::Video), ItemPlan::Video { copy_output: false });
    assert_eq!(plan_item(&o, MediaKind::Unrecognized), ItemPlan::Unrecognized);
    let at = CivilTime::from_epoch_seconds(1577934245).unwrap();
    let out = caption_photo(&image(), &Some("Hello".to_string()), &Vec::new(), &at, EncodingProfile::archival());
    assert!(out.is_ok());
}

#[test]
fn photo_pipeline_matches_its_steps() {
    let at = CivilTime::from_epoch_seconds(1577934245).unwrap();
    let comments = vec![Comment {
        timestamp: at,
        text: Some("Nice!".to_string()),
        author: "Bob".to_string(),
    }];
    let description = Some("Hello".to_string());
    let block = caption_block(&description, &comments, &at, EncodingProfile::archival()).unwrap();
    let caption = "Hello\n\"Nice!\" -Bob (2020-01-02 03:04:05 AM)".to_string();
    assert_eq!(block, encode_block(&caption, &at, EncodingProfile::archival()).unwrap());
    let out = caption_photo(&image(), &description, &comments, &at, EncodingProfile::archival()).unwrap();
    assert_eq!(out, inject_block(&image(), block).unwrap());
    assert!(out.windows(caption.len()).any(|w| w == caption.as_bytes()));
}

#[test]
fn photo_pipeline_reports_parse_before_encode() {
    let at = CivilTime::from_epoch_seconds(0).unwrap();
    let huge = Some("x".repeat(70000));
    assert_eq!(
        caption_photo(&[0x00, 0x01, 0x02], &huge, &Vec::new(), &at, EncodingProfile::archival()),
        Err(MetaError::Parse(ParseError::WrongSignature))
    );
    assert_eq!(
        caption_photo(&image(), &huge, &Vec::new(), &at, EncodingProfile::archival()),
        Err(MetaError::Encode)
    );
}
