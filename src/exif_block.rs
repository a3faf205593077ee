//! The metadata block: one little-endian TIFF directory of ASCII entries.

use crate::civil::CivilTime;
use crate::error::MetaError;
use imagemeta::exif;
use std::io::Cursor;
use vstd::prelude::*;
use vstd::utf8::{decode_utf8, encode_utf8, encode_utf8_decode_utf8};

verus! {

/// Largest metadata block that fits one container segment: the segment's
/// 16-bit length counts itself (2 bytes) and the `Exif\0\0` prefix (6 bytes).
pub const MAX_BLOCK_LEN: usize = 65527;

/// `n` as two little-endian bytes (modulo 2^16).
pub open spec fn le16(n: int) -> Seq<u8> {
    seq![(n % 256) as u8, ((n / 256) % 256) as u8]
}

/// `n` as four little-endian bytes (modulo 2^32).
pub open spec fn le32(n: int) -> Seq<u8> {
    le16(n % 65536) + le16((n / 65536) % 65536)
}

/// A text value as stored: its bytes and a terminating NUL.
pub open spec fn stored(text: Seq<u8>) -> Seq<u8> {
    text + seq![0u8]
}

/// Bytes a text value takes in the value area after the directory:
/// nothing when it fits the entry's four inline bytes.
pub open spec fn spill(text: Seq<u8>) -> int {
    if stored(text).len() > 4 {
        stored(text).len() as int
    } else {
        0
    }
}

/// One 12-byte directory entry of type ASCII (2): tag, type, count, and
/// either the value padded to four bytes or its offset `off` in the block.
pub open spec fn entry_record(tag: u16, text: Seq<u8>, off: int) -> Seq<u8> {
    le16(tag as int) + le16(2) + le32(stored(text).len() as int) + if stored(text).len() > 4 {
        le32(off)
    } else {
        stored(text) + Seq::new((4 - stored(text).len()) as nat, |i: int| 0u8)
    }
}

/// The directory entries, the first value spilling at offset `off`.
#[verifier::opaque]
pub open spec fn entry_records(es: Seq<(u16, Seq<u8>)>, off: int) -> Seq<u8>
    decreases es.len(),
{
    if es.len() == 0 {
        seq![]
    } else {
        entry_record(es[0].0, es[0].1, off) + entry_records(es.drop_first(), off + spill(es[0].1))
    }
}

/// The value area: the values that do not fit inline, in entry order.
#[verifier::opaque]
pub open spec fn value_area(es: Seq<(u16, Seq<u8>)>) -> Seq<u8>
    decreases es.len(),
{
    if es.len() == 0 {
        seq![]
    } else {
        (if spill(es[0].1) > 0 {
            stored(es[0].1)
        } else {
            seq![]
        }) + value_area(es.drop_first())
    }
}

/// The byte order mark `II`, 42, the directory's offset 8, and the number
/// of entries `n`.
pub open spec fn tiff_header(n: int) -> Seq<u8> {
    seq![0x49u8, 0x49u8, 0x2Au8, 0u8, 8u8, 0u8, 0u8, 0u8] + le16(n)
}

/// A little-endian TIFF block holding one directory of ASCII entries: byte
/// order mark `II`, 42, offset 8 of the directory, entry count, the entries,
/// a zero next-directory offset, then the value area.
pub open spec fn tiff_block(es: Seq<(u16, Seq<u8>)>) -> Seq<u8> {
    tiff_header(es.len() as int) + entry_records(
        es,
        14 + 12 * es.len() as int,
    ) + le32(0) + value_area(es)
}

/// The entries with each text as its UTF-8 bytes.
pub open spec fn text_entries(es: Seq<(u16, String)>) -> Seq<(u16, Seq<u8>)> {
    es.map_values(|e: (u16, String)| (e.0, encode_utf8(e.1@)))
}

/// Relies on imagemeta's `Exif::encode`, for one directory (id 0, no
/// children) whose entries all hold `EntryData::Ascii`: it writes the
/// little-endian header, the entry count, each entry's header (the value
/// inline when its bytes and NUL fit four bytes, else the running offset
/// into the value area), a zero next-directory offset (the last directory
/// is not patched), and the spilled values with their NULs. Writing into an
/// in-memory `Cursor<Vec<u8>>` never fails, so the result is always `Some`.
#[verifier::external_body]
fn encode_ascii_directory(entries: Vec<(u16, String)>) -> (r: Option<Vec<u8>>)
    ensures
        r is Some,
        r matches Some(b) ==> b@ == tiff_block(text_entries(entries@)),
{
    let ifd = exif::Ifd {
        id: 0,
        entries: entries.into_iter().map(
            |(tag, s)| exif::Entry { tag, data: exif::EntryData::Ascii(s) },
        ).collect(),
        children: Vec::new(),
    };
    let mut out = Cursor::new(Vec::new());
    exif::Exif { ifds: vec![ifd] }.encode(&mut out).ok().map(|_| out.into_inner())
}

/// Relies on rexif's `ExifTag::UserComment` discriminant.
#[verifier::external_body]
fn user_comment_tag() -> (r: u16)
    ensures
        r == USER_COMMENT,
{
    rexif::ExifTag::UserComment as u16
}

/// Relies on rexif's `ExifTag::ImageDescription` discriminant.
#[verifier::external_body]
fn image_description_tag() -> (r: u16)
    ensures
        r == IMAGE_DESCRIPTION,
{
    rexif::ExifTag::ImageDescription as u16
}

/// Relies on rexif's `ExifTag::DateTimeOriginal` discriminant.
#[verifier::external_body]
fn date_time_original_tag() -> (r: u16)
    ensures
        r == DATE_TIME_ORIGINAL,
{
    rexif::ExifTag::DateTimeOriginal as u16
}

/// Relies on rexif's `ExifTag::DateTime` discriminant.
#[verifier::external_body]
fn date_time_tag() -> (r: u16)
    ensures
        r == DATE_TIME,
{
    rexif::ExifTag::DateTime as u16
}

pub const USER_COMMENT: u16 = 0x9286;

pub const IMAGE_DESCRIPTION: u16 = 0x010e;

pub const DATE_TIME_ORIGINAL: u16 = 0x9003;

pub const DATE_TIME: u16 = 0x0132;

/// Which tag carries the caption.
#[derive(Clone, Copy, Debug, PartialEq, Eq, Structural)]
pub enum CaptionTag {
    UserComment,
    ImageDescription,
}

/// How a caption and a date are laid out as entries.
#[derive(Clone, Copy, Debug, PartialEq, Eq, Structural)]
pub struct EncodingProfile {
    pub caption_tag: CaptionTag,
    /// Also write the date as the original capture time.
    pub original_time: bool,
}

impl EncodingProfile {
    /// The caption as a user comment, the date as both the original capture
    /// time and the modification time.
    pub fn archival() -> (r: EncodingProfile)
        ensures
            r.caption_tag == CaptionTag::UserComment,
            r.original_time,
    {
        EncodingProfile { caption_tag: CaptionTag::UserComment, original_time: true }
    }

    pub open spec fn caption_code(&self) -> u16 {
        match self.caption_tag {
            CaptionTag::UserComment => USER_COMMENT,
            CaptionTag::ImageDescription => IMAGE_DESCRIPTION,
        }
    }

    /// The entries written for `caption` and `date`: the caption first, then
    /// the original capture time if chosen, then the date and time.
    pub open spec fn entries(&self, caption: Seq<u8>, date: Seq<u8>) -> Seq<(u16, Seq<u8>)> {
        if self.original_time {
            seq![(self.caption_code(), caption), (DATE_TIME_ORIGINAL, date), (DATE_TIME, date)]
        } else {
            seq![(self.caption_code(), caption), (DATE_TIME, date)]
        }
    }
}

/// Every profile writes each tag at most once.
pub proof fn lemma_profile_tags_unique(profile: EncodingProfile, caption: Seq<u8>, date: Seq<u8>)
    ensures
        forall|i: int, j: int|
            0 <= i < j < profile.entries(caption, date).len() ==> (#[trigger] profile.entries(
                caption,
                date,
            )[i]).0 != (#[trigger] profile.entries(caption, date)[j]).0,
{
}

/// The block that encodes `caption` and `at` under `profile`.
pub open spec fn block_for(caption: Seq<char>, at: CivilTime, profile: EncodingProfile) -> Seq<u8> {
    tiff_block(profile.entries(encode_utf8(caption), encode_utf8(at.exif_text())))
}

/// The little-endian 16-bit number at `at`.
pub open spec fn read_le16(b: Seq<u8>, at: int) -> int {
    b[at] as int + 256 * b[at + 1] as int
}

/// The little-endian 32-bit number at `at`.
pub open spec fn read_le32(b: Seq<u8>, at: int) -> int {
    read_le16(b, at) + 65536 * read_le16(b, at + 2)
}

/// Where entry `i` of the block's first directory starts.
pub open spec fn entry_start(b: Seq<u8>, i: int) -> int {
    read_le32(b, 4) + 2 + 12 * i
}

/// The number of entries of the block's first directory.
pub open spec fn entry_count(b: Seq<u8>) -> int {
    read_le16(b, read_le32(b, 4))
}

pub open spec fn entry_tag(b: Seq<u8>, i: int) -> int {
    read_le16(b, entry_start(b, i))
}

pub open spec fn entry_type(b: Seq<u8>, i: int) -> int {
    read_le16(b, entry_start(b, i) + 2)
}

/// Where the value of entry `i` starts: inline when its count fits four
/// bytes, else at the offset the entry holds.
pub open spec fn value_start(b: Seq<u8>, i: int) -> int {
    let count = read_le32(b, entry_start(b, i) + 4);
    if count > 4 {
        read_le32(b, entry_start(b, i) + 8)
    } else {
        entry_start(b, i) + 8
    }
}

/// The text of ASCII entry `i`: its count of bytes less the final NUL.
pub open spec fn entry_text(b: Seq<u8>, i: int) -> Seq<u8> {
    let count = read_le32(b, entry_start(b, i) + 4);
    b.subrange(value_start(b, i), value_start(b, i) + count - 1)
}

proof fn lemma_le16(n: int)
    requires
        0 <= n < 65536,
    ensures
        read_le16(le16(n), 0) == n,
        le16(n).len() == 2,
{
}

proof fn lemma_le32(n: int)
    requires
        0 <= n < 0x1_0000_0000,
    ensures
        read_le32(le32(n), 0) == n,
        le32(n).len() == 4,
{
    lemma_le16(n % 65536);
    lemma_le16((n / 65536) % 65536);
    let w = le32(n);
    assert(read_le16(w, 0) == read_le16(le16(n % 65536), 0));
    assert(read_le16(w, 2) == read_le16(le16((n / 65536) % 65536), 0));
}

/// Total spill of the first `i` entries.
pub open spec fn spill_prefix(es: Seq<(u16, Seq<u8>)>, i: int) -> int
    decreases i,
{
    if i <= 0 || es.len() == 0 {
        0
    } else {
        spill(es[0].1) + spill_prefix(es.drop_first(), i - 1)
    }
}

proof fn lemma_record_at(es: Seq<(u16, Seq<u8>)>, off: int, i: int)
    requires
        0 <= i < es.len(),
    ensures
        entry_records(es, off).len() == 12 * es.len(),
        entry_records(es, off).subrange(12 * i, 12 * i + 12) == entry_record(
            es[i].0,
            es[i].1,
            off + spill_prefix(es, i),
        ),
    decreases i,
{
    reveal(entry_records);
    lemma_records_len(es, off);
    let rest = es.drop_first();
    lemma_records_len(rest, off + spill(es[0].1));
    lemma_record_len(es[0].0, es[0].1, off);
    let r = entry_records(es, off);
    if i == 0 {
        assert(r.subrange(0, 12) =~= entry_record(es[0].0, es[0].1, off));
    } else {
        lemma_record_at(rest, off + spill(es[0].1), i - 1);
        assert(r.subrange(12 * i, 12 * i + 12) =~= entry_records(
            rest,
            off + spill(es[0].1),
        ).subrange(12 * (i - 1), 12 * (i - 1) + 12));
    }
}

proof fn lemma_value_at(es: Seq<(u16, Seq<u8>)>, i: int)
    requires
        0 <= i < es.len(),
        spill(es[i].1) > 0,
    ensures
        value_area(es).len() == spill_total(es),
        spill_prefix(es, i) + spill(es[i].1) <= spill_total(es),
        value_area(es).subrange(spill_prefix(es, i), spill_prefix(es, i) + spill(es[i].1))
            == stored(es[i].1),
    decreases i,
{
    reveal(value_area);
    lemma_records_len(es, 0);
    let rest = es.drop_first();
    lemma_records_len(rest, 0);
    lemma_spill_total_nonneg(rest);
    let v = value_area(es);
    let head = if spill(es[0].1) > 0 {
        stored(es[0].1)
    } else {
        seq![]
    };
    assert(v == head + value_area(rest));
    assert(head.len() == spill(es[0].1));
    if i == 0 {
        assert(v.subrange(0, spill(es[0].1)) =~= stored(es[0].1));
    } else {
        lemma_value_at(rest, i - 1);
        let p = spill_prefix(rest, i - 1);
        assert(rest[i - 1] == es[i]);
        let w = value_area(rest);
        let hl = head.len() as int;
        let l = spill(es[i].1);
        assert(spill_prefix(es, i) == hl + p);
        assert(p + l <= w.len());
        assert(v.len() == hl + w.len());
        lemma_spill_prefix_bound(rest, i - 1);
        assert forall|k: int| 0 <= k < l implies #[trigger] v[hl + p + k] == w[p + k] by {
            assert(v[hl + p + k] == (head + w)[hl + p + k]);
        }
        assert(v.subrange(hl + p, hl + p + l) =~= w.subrange(p, p + l));
    }
}

proof fn lemma_spill_total_nonneg(es: Seq<(u16, Seq<u8>)>)
    ensures
        spill_total(es) >= 0,
    decreases es.len(),
{
    if es.len() > 0 {
        lemma_spill_total_nonneg(es.drop_first());
    }
}

/// Reading an encoded block back gives the entries that were encoded: the
/// count, and for each entry its tag, the ASCII type, and its text.
pub proof fn lemma_block_round_trip(es: Seq<(u16, Seq<u8>)>)
    requires
        es.len() <= 0xFFFF,
        14 + 12 * es.len() + spill_total(es) <= 0xFFFF_FFFF,
    ensures
        entry_count(tiff_block(es)) == es.len(),
        forall|i: int| 0 <= i < es.len() ==> #[trigger] entry_tag(tiff_block(es), i) == es[i].0,
        forall|i: int| 0 <= i < es.len() ==> #[trigger] entry_type(tiff_block(es), i) == 2,
        forall|i: int| 0 <= i < es.len() ==> #[trigger] entry_text(tiff_block(es), i) == es[i].1,
{
    let b = tiff_block(es);
    let n = es.len() as int;
    let off = 14 + 12 * n;
    lemma_block_len(es);
    lemma_records_len(es, off);
    lemma_spill_total_nonneg(es);
    let h = tiff_header(n);
    let rs = entry_records(es, off);
    let v = value_area(es);
    assert(b == h + rs + le32(0) + v);
    lemma_le16(n);
    lemma_le32(8);
    assert(b.subrange(4, 8) =~= le32(8));
    assert(read_le32(b, 4) == read_le32(le32(8), 0));
    assert(b.subrange(8, 10) =~= le16(n));
    assert(entry_count(b) == read_le16(le16(n), 0));
    assert forall|i: int| 0 <= i < es.len() implies #[trigger] entry_tag(tiff_block(es), i)
        == es[i].0 by {
        lemma_entry_round_trip(es, i);
    }
    assert forall|i: int| 0 <= i < es.len() implies #[trigger] entry_type(tiff_block(es), i)
        == 2 by {
        lemma_entry_round_trip(es, i);
    }
    assert forall|i: int| 0 <= i < es.len() implies #[trigger] entry_text(tiff_block(es), i)
        == es[i].1 by {
        lemma_entry_round_trip(es, i);
    }
}

proof fn lemma_entry_round_trip(es: Seq<(u16, Seq<u8>)>, i: int)
    requires
        14 + 12 * es.len() + spill_total(es) <= 0xFFFF_FFFF,
        0 <= i < es.len(),
    ensures
        entry_tag(tiff_block(es), i) == es[i].0,
        entry_type(tiff_block(es), i) == 2,
        entry_text(tiff_block(es), i) == es[i].1,
{
    let b = tiff_block(es);
    let n = es.len() as int;
    let off = 14 + 12 * n;
    lemma_block_len(es);
    lemma_records_len(es, off);
    lemma_spill_total_nonneg(es);
    lemma_record_at(es, off, i);
    let h = tiff_header(n);
    let rs = entry_records(es, off);
    let v = value_area(es);
    assert(b == h + rs + le32(0) + v);
    lemma_le32(8);
    assert(b.subrange(4, 8) =~= le32(8));
    assert(read_le32(b, 4) == read_le32(le32(8), 0));
    let e = 10 + 12 * i;
    assert(entry_start(b, i) == e);
    let (tag, text) = es[i];
    let at = off + spill_prefix(es, i);
    let rec = entry_record(tag, text, at);
    assert(b.subrange(e, e + 12) =~= rec);
    let count = stored(text).len() as int;
    lemma_spill_prefix_bound(es, i);
    lemma_le16(tag as int);
    lemma_le16(2);
    lemma_le32(count);
    assert(rec.subrange(0, 2) =~= le16(tag as int));
    assert(rec.subrange(2, 4) =~= le16(2));
    assert(rec.subrange(4, 8) =~= le32(count));
    assert(read_le16(b, e) == read_le16(le16(tag as int), 0));
    assert(read_le16(b, e + 2) == read_le16(le16(2), 0));
    assert(read_le32(b, e + 4) == read_le32(le32(count), 0));
    if count > 4 {
        lemma_le32(at);
        assert(rec.subrange(8, 12) =~= le32(at));
        assert(read_le32(b, e + 8) == read_le32(le32(at), 0));
        lemma_value_at(es, i);
        let p = spill_prefix(es, i);
        assert(b.subrange(at, at + count) =~= v.subrange(p, p + count));
        assert(entry_text(b, i) =~= text);
    } else {
        assert(value_start(b, i) == e + 8);
        let inline = stored(text) + Seq::new((4 - stored(text).len()) as nat, |k: int| 0u8);
        assert(rec.subrange(8, 12) =~= inline);
        assert(b.subrange(e + 8, e + 8 + count - 1) =~= inline.subrange(0, count - 1));
        assert(entry_text(b, i) =~= text);
    }
}

proof fn lemma_spill_prefix_bound(es: Seq<(u16, Seq<u8>)>, i: int)
    requires
        0 <= i < es.len(),
    ensures
        0 <= spill_prefix(es, i),
        spill_prefix(es, i) + spill(es[i].1) <= spill_total(es),
        stored(es[i].1).len() > 4 ==> stored(es[i].1).len() <= spill_total(es),
    decreases i,
{
    lemma_spill_total_nonneg(es.drop_first());
    if i > 0 {
        lemma_spill_prefix_bound(es.drop_first(), i - 1);
    }
}

/// Decoding a block made for `caption` and `at` gives back the caption,
/// under the profile's caption tag, as the first entry, and the time as
/// `YYYY:MM:DD HH:MM:SS`, under the date-time tag, as the last entry (and
/// under the original-time tag as the second, where the profile asks).
pub proof fn lemma_caption_round_trip(caption: Seq<char>, at: CivilTime, profile: EncodingProfile)
    requires
        block_for(caption, at, profile).len() <= MAX_BLOCK_LEN,
    ensures
        ({
            let b = block_for(caption, at, profile);
            let last = entry_count(b) - 1;
            &&& entry_count(b) == if profile.original_time {
                3int
            } else {
                2int
            }
            &&& entry_tag(b, 0) == profile.caption_code()
            &&& decode_utf8(entry_text(b, 0)) == caption
            &&& entry_tag(b, last) == DATE_TIME
            &&& decode_utf8(entry_text(b, last)) == at.exif_text()
            &&& profile.original_time ==> entry_tag(b, 1) == DATE_TIME_ORIGINAL && decode_utf8(
                entry_text(b, 1),
            ) == at.exif_text()
        }),
{
    let es = profile.entries(encode_utf8(caption), encode_utf8(at.exif_text()));
    lemma_block_len(es);
    lemma_block_round_trip(es);
    encode_utf8_decode_utf8(caption);
    encode_utf8_decode_utf8(at.exif_text());
    let b = tiff_block(es);
    assert(entry_tag(b, 0) == es[0].0);
    assert(entry_text(b, 0) == es[0].1);
    assert(entry_tag(b, es.len() - 1) == es[es.len() - 1].0);
    assert(entry_text(b, es.len() - 1) == es[es.len() - 1].1);
    if profile.original_time {
        assert(entry_tag(b, 1) == es[1].0);
        assert(entry_text(b, 1) == es[1].1);
    }
}

/// Bytes the values of the entries take in the value area.
pub open spec fn spill_total(es: Seq<(u16, Seq<u8>)>) -> int
    decreases es.len(),
{
    if es.len() == 0 {
        0
    } else {
        spill(es[0].1) + spill_total(es.drop_first())
    }
}

proof fn lemma_record_len(tag: u16, text: Seq<u8>, off: int)
    ensures
        entry_record(tag, text, off).len() == 12,
{
}

proof fn lemma_records_len(es: Seq<(u16, Seq<u8>)>, off: int)
    ensures
        entry_records(es, off).len() == 12 * es.len(),
        value_area(es).len() == spill_total(es),
    decreases es.len(),
{
    reveal(entry_records);
    reveal(value_area);
    if es.len() > 0 {
        lemma_records_len(es.drop_first(), off + spill(es[0].1));
        lemma_record_len(es[0].0, es[0].1, off);
    }
}

/// A block is 14 bytes of header and terminator, 12 per entry, and the
/// spilled values.
pub proof fn lemma_block_len(es: Seq<(u16, Seq<u8>)>)
    ensures
        tiff_block(es).len() == 14 + 12 * es.len() + spill_total(es),
{
    let off = 14 + 12 * es.len() as int;
    lemma_records_len(es, off);
    let h = tiff_header(es.len() as int);
    let r = entry_records(es, off);
    let v = value_area(es);
    assert(h.len() == 10);
    assert(le32(0).len() == 4);
    assert(tiff_block(es) == h + r + le32(0) + v);
    assert((h + r + le32(0) + v).len() == h.len() + r.len() + 4 + v.len());
    assert(r.len() == 12 * es.len());
    assert(v.len() == spill_total(es));
}

/// Encodes `caption` and the date and time `at` as a metadata block under
/// `profile`. Fails with `Encode` exactly when the block would not fit one
/// container segment.
pub fn encode_block(caption: &String, at: &CivilTime, profile: EncodingProfile) -> (r: Result<
    Vec<u8>,
    MetaError,
>)
    requires
        at.wf(),
    ensures
        r matches Ok(b) ==> b@ == block_for(caption@, *at, profile) && b@.len() <= MAX_BLOCK_LEN,
        r matches Err(e) ==> e == MetaError::Encode,
        block_for(caption@, *at, profile).len() > MAX_BLOCK_LEN ==> r is Err,
        block_for(caption@, *at, profile).len() <= MAX_BLOCK_LEN ==> r is Ok,
{
    let date = at.exif_string();
    let ghost es = profile.entries(encode_utf8(caption@), encode_utf8(date@));
    proof {
        lemma_block_len(es);
        let e1 = es.drop_first();
        let e2 = e1.drop_first();
        if profile.original_time {
            let e3 = e2.drop_first();
            assert(e3.len() == 0);
            assert(spill_total(e3) == 0);
            assert(spill_total(e2) == spill(es[2].1));
        } else {
            assert(e2.len() == 0);
            assert(spill_total(e2) == 0);
        }
        assert(spill_total(e1) == spill(es[1].1) + spill_total(e2));
    }
    let caption_len = caption.as_str().as_bytes().len();
    let date_len = date.as_str().as_bytes().len();
    if caption_len > MAX_BLOCK_LEN || date_len > MAX_BLOCK_LEN {
        return Err(MetaError::Encode);
    }
    let caption_spill: usize = if caption_len + 1 > 4 { caption_len + 1 } else { 0 };
    let date_spill: usize = if date_len + 1 > 4 { date_len + 1 } else { 0 };
    let total: usize = if profile.original_time {
        14 + 36 + caption_spill + 2 * date_spill
    } else {
        14 + 24 + caption_spill + date_spill
    };
    assert(caption_len == es[0].1.len());
    assert(date_len == es[1].1.len());
    assert(caption_spill == spill(es[0].1));
    assert(date_spill == spill(es[1].1));
    assert(total == tiff_block(es).len());
    if total > MAX_BLOCK_LEN {
        return Err(MetaError::Encode);
    }
    let caption_code = match profile.caption_tag {
        CaptionTag::UserComment => user_comment_tag(),
        CaptionTag::ImageDescription => image_description_tag(),
    };
    let mut entries: Vec<(u16, String)> = Vec::new();
    entries.push((caption_code, caption.clone()));
    if profile.original_time {
        entries.push((date_time_original_tag(), date.clone()));
    }
    entries.push((date_time_tag(), date));
    assert(text_entries(entries@) =~= es);
    match encode_ascii_directory(entries) {
        Some(b) => Ok(b),
        None => Err(MetaError::Encode),
    }
}

} // verus!
