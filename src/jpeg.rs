//! The image container: segments, metadata injection, and writing back.

use crate::error::{MetaError, ParseError};
use crate::exif_block::MAX_BLOCK_LEN;
use img_parts::jpeg::Jpeg;
use img_parts::{Bytes, ImageEXIF};
use vstd::prelude::*;

verus! {

#[verifier::external_type_specification]
#[verifier::external_body]
pub struct ExJpeg(Jpeg);

#[verifier::external_type_specification]
pub struct ExImgPartsError(img_parts::Error);

/// A segment as (marker byte after 0xFF, contents, entropy-coded data).
pub type Segment = (u8, Seq<u8>, Seq<u8>);

/// The segments a parsed image holds, in order.
pub uninterp spec fn jpeg_segments(j: Jpeg) -> Seq<Segment>;

/// The segments that parsing `bytes` yields, `None` where parsing fails.
pub uninterp spec fn parsed_segments(bytes: Seq<u8>) -> Option<Seq<Segment>>;

/// The marker byte of an application segment 1.
pub const APP1: u8 = 0xE1;

/// `Exif\0\0`, the prefix of a metadata segment's contents.
pub open spec fn exif_prefix() -> Seq<u8> {
    seq![0x45u8, 0x78u8, 0x69u8, 0x66u8, 0u8, 0u8]
}

/// The stream starts with the start-of-image marker `FF D8`.
pub open spec fn has_start_marker(bytes: Seq<u8>) -> bool {
    bytes.len() >= 2 && bytes[0] == 0xFF && bytes[1] == 0xD8
}

/// An application segment 1 whose contents start with `Exif\0\0`.
pub open spec fn is_metadata(s: Segment) -> bool {
    s.0 == APP1 && s.1.len() >= 6 && s.1.subrange(0, 6) == exif_prefix()
}

pub open spec fn not_metadata(s: Segment) -> bool {
    !is_metadata(s)
}

/// The segments that are not metadata segments, in order.
pub open spec fn without_metadata(segs: Seq<Segment>) -> Seq<Segment> {
    segs.filter(|s: Segment| not_metadata(s))
}

/// The metadata segments, in order.
pub open spec fn metadata_of(segs: Seq<Segment>) -> Seq<Segment> {
    segs.filter(|s: Segment| is_metadata(s))
}

/// The metadata segment that carries `block`.
pub open spec fn metadata_segment(block: Seq<u8>) -> Segment {
    (APP1, exif_prefix() + block, seq![])
}

/// The segments with every metadata segment removed and one carrying
/// `block` inserted at index 3.
pub open spec fn with_block(segs: Seq<Segment>, block: Seq<u8>) -> Seq<Segment> {
    without_metadata(segs).insert(3, metadata_segment(block))
}

/// A segment that the writer reproduces as it was read: its marker carries a
/// length, its contents fit the 16-bit length, and entropy-coded data only
/// follows non-empty contents.
pub open spec fn writable(s: Segment) -> bool {
    has_length(s.0) && s.1.len() <= 65533 && (s.1.len() == 0 ==> s.2.len() == 0)
}

/// Markers whose segments carry a length field when read: restart markers,
/// application segments, frame headers (with DHT, JPG and DAC), SOS, COM,
/// DQT and DRI.
pub open spec fn has_length(m: u8) -> bool {
    (0xC0 <= m <= 0xCF) || (0xD0 <= m <= 0xD7) || (0xE0 <= m <= 0xEF) || m == 0xDA || m == 0xDB
        || m == 0xDD || m == 0xFE
}

/// The value written in a segment's 16-bit length field: the contents and
/// the field itself, or only the contents for a marker without a length.
pub open spec fn length_field(s: Segment) -> int {
    if has_length(s.0) {
        s.1.len() + 2int
    } else {
        s.1.len() as int
    }
}

/// `0xFF`, the marker, the 16-bit big-endian length field, the contents and
/// the entropy-coded data.
pub open spec fn segment_bytes(s: Segment) -> Seq<u8> {
    seq![0xFFu8, s.0, (length_field(s) / 256) as u8, (length_field(s) % 256) as u8] + s.1 + s.2
}

#[verifier::opaque]
pub open spec fn segments_bytes(segs: Seq<Segment>) -> Seq<u8>
    decreases segs.len(),
{
    if segs.len() == 0 {
        seq![]
    } else {
        segment_bytes(segs[0]) + segments_bytes(segs.drop_first())
    }
}

/// The start-of-image marker followed by each segment.
pub open spec fn stream_bytes(segs: Seq<Segment>) -> Seq<u8> {
    seq![0xFFu8, 0xD8u8] + segments_bytes(segs)
}

/// Segments as a well-formed image lays them out: each marker carries a
/// length and at most 65533 bytes of contents; only the last segment, a
/// start of scan (`DA`) with non-empty contents, carries entropy-coded data,
/// which runs to the end of the stream.
pub open spec fn canonical(segs: Seq<Segment>) -> bool {
    &&& segs.len() > 0
    &&& forall|i: int|
        0 <= i < segs.len() ==> has_length((#[trigger] segs[i]).0) && segs[i].1.len() <= 65533
    &&& forall|i: int|
        0 <= i < segs.len() - 1 ==> (#[trigger] segs[i]).0 != 0xDA && segs[i].2.len() == 0
    &&& segs.last().0 == 0xDA
    &&& segs.last().1.len() > 0
    &&& segs.last().2.len() > 0
}

/// The bytes are a well-formed image: some canonical segments, written out.
pub open spec fn canonical_stream(bytes: Seq<u8>) -> bool {
    exists|segs: Seq<Segment>| canonical(segs) && stream_bytes(segs) == bytes
}

/// Relies on img_parts' `Jpeg::from_bytes`: a stream that does not start
/// with `FF D8` is refused (`Truncated` under two bytes, else
/// `WrongSignature`); each segment read holds at most 65533 bytes of
/// contents (its 16-bit length less the length field), or none. On a
/// well-formed stream it reads each segment's marker, length and contents in
/// turn, and the start of scan takes the rest of the bytes as its
/// entropy-coded data, so the segments read are canonical and write back to
/// the same bytes.
#[verifier::external_body]
fn parse_jpeg(bytes: &[u8]) -> (r: Result<Jpeg, img_parts::Error>)
    ensures
        !has_start_marker(bytes@) ==> r is Err,
        r is Ok || !canonical_stream(bytes@),
        r matches Ok(j) ==> (canonical_stream(bytes@) ==> canonical(jpeg_segments(j))
            && stream_bytes(jpeg_segments(j)) == bytes@),
        r is Ok <==> parsed_segments(bytes@) is Some,
        r matches Ok(j) ==> parsed_segments(bytes@) == Some(jpeg_segments(j)) && forall|i: int|
            0 <= i < jpeg_segments(j).len() ==> (#[trigger] jpeg_segments(j)[i]).1.len() <= 65533,
{
    Jpeg::from_bytes(Bytes::copy_from_slice(bytes))
}

/// Relies on img_parts' `Jpeg::segments`: the number of segments.
#[verifier::external_body]
fn segment_count(j: &Jpeg) -> (r: usize)
    ensures
        r == jpeg_segments(*j).len(),
{
    j.segments().len()
}

/// Relies on img_parts' `JpegSegment::marker`, `contents` and `has_entropy`:
/// segment `i`'s marker, whether its contents are empty, and whether it has
/// entropy-coded data.
#[verifier::external_body]
fn segment_shape(j: &Jpeg, i: usize) -> (r: (u8, bool, bool))
    requires
        i < jpeg_segments(*j).len(),
    ensures
        r.0 == jpeg_segments(*j)[i as int].0,
        r.1 == (jpeg_segments(*j)[i as int].1.len() == 0),
        r.2 == (jpeg_segments(*j)[i as int].2.len() > 0),
{
    let s = &j.segments()[i];
    (s.marker(), s.contents().is_empty(), s.has_entropy())
}

fn marker_has_length(m: u8) -> (r: bool)
    ensures
        r == has_length(m),
{
    (0xC0 <= m && m <= 0xCF) || (0xD0 <= m && m <= 0xD7) || (0xE0 <= m && m <= 0xEF) || m == 0xDA
        || m == 0xDB || m == 0xDD || m == 0xFE
}

/// Relies on img_parts' `ImageEXIF::set_exif` for `Jpeg`: it keeps the
/// segments whose `exif()` is `None` (all but APP1 segments starting with
/// `Exif\0\0`), then inserts an APP1 segment of `Exif\0\0` and the block at
/// index 3, which panics when fewer than three segments are left.
#[verifier::external_body]
fn set_exif(j: &mut Jpeg, block: Vec<u8>)
    requires
        without_metadata(jpeg_segments(*old(j))).len() >= 3,
    ensures
        jpeg_segments(*final(j)) == with_block(jpeg_segments(*old(j)), block@),
{
    j.set_exif(Some(Bytes::from(block)))
}

/// Relies on img_parts' `ImageEXIF::set_exif` with `None`: it keeps the
/// segments whose `exif()` is `None`.
#[verifier::external_body]
fn clear_exif(j: &mut Jpeg)
    ensures
        jpeg_segments(*final(j)) == without_metadata(jpeg_segments(*old(j))),
{
    j.set_exif(None)
}

/// Relies on img_parts' `Jpeg::encoder` and `ImageEncoder::bytes`: `FF D8`,
/// then for each segment `FF`, its marker and a 16-bit length (`len() - 2`,
/// which panics past 16 bits), its contents when not empty and its
/// entropy-coded data when not empty; a segment with entropy-coded data but
/// no contents is written out of order.
#[verifier::external_body]
fn write_jpeg(j: Jpeg) -> (r: Vec<u8>)
    requires
        forall|i: int|
            0 <= i < jpeg_segments(j).len() ==> (#[trigger] jpeg_segments(j)[i]).1.len() <= 65533,
    ensures
        (forall|i: int| 0 <= i < jpeg_segments(j).len() ==> writable(#[trigger] jpeg_segments(j)[i]))
            ==> r@ == stream_bytes(jpeg_segments(j)),
{
    j.encoder().bytes().to_vec()
}

/// Parsed segments that can take a metadata block and be written back: at
/// least three segments besides metadata, each one writable.
pub open spec fn rewritable(segs: Seq<Segment>) -> bool {
    &&& without_metadata(segs).len() >= 3
    &&& forall|i: int| 0 <= i < segs.len() ==> writable(#[trigger] segs[i])
}

fn map_parse_error(e: img_parts::Error) -> (r: MetaError)
    ensures
        r is Parse,
{
    match e {
        img_parts::Error::WrongSignature => MetaError::Parse(ParseError::WrongSignature),
        img_parts::Error::BadCRC => MetaError::Parse(ParseError::BadCrc),
        img_parts::Error::Truncated => MetaError::Parse(ParseError::Truncated),
    }
}

/// Parses `image` and removes its metadata segments, ready to receive a
/// block; fails where the image cannot take one.
pub(crate) fn open_image(image: &[u8]) -> (r: Result<Jpeg, MetaError>)
    ensures
        !has_start_marker(image@) ==> r is Err,
        r matches Err(e) ==> e is Parse,
        r is Ok <==> (parsed_segments(image@) matches Some(parsed) && rewritable(parsed)),
        r matches Ok(j) ==> jpeg_segments(j) == without_metadata(parsed_segments(image@)->Some_0)
            && without_metadata(jpeg_segments(j)) == jpeg_segments(j),
        canonical_stream(image@) ==> (parsed_segments(image@) matches Some(p) && canonical(p)
            && stream_bytes(p) == image@),
        canonical_stream(image@) && without_metadata(parsed_segments(image@)->Some_0).len() >= 3
            ==> r is Ok,
{
    let mut j = match parse_jpeg(image) {
        Ok(j) => j,
        Err(e) => return Err(map_parse_error(e)),
    };
    proof {
        if canonical_stream(image@) {
            lemma_canonical_writable(jpeg_segments(j));
        }
    }
    let ghost segs = jpeg_segments(j);
    let n = segment_count(&j);
    let mut i: usize = 0;
    while i < n
        invariant
            n == segs.len(),
            segs == jpeg_segments(j),
            forall|k: int| 0 <= k < segs.len() ==> (#[trigger] segs[k]).1.len() <= 65533,
            forall|k: int| 0 <= k < i ==> writable(#[trigger] segs[k]),
            parsed_segments(image@) == Some(segs),
            canonical_stream(image@) ==> canonical(segs) && stream_bytes(segs) == image@,
        decreases n - i,
    {
        let (marker, empty, entropy) = segment_shape(&j, i);
        if !marker_has_length(marker) {
            assert(!writable(segs[i as int]));
            return Err(MetaError::Parse(ParseError::UnsupportedMarker));
        }
        if empty && entropy {
            assert(!writable(segs[i as int]));
            return Err(MetaError::Parse(ParseError::Truncated));
        }
        i = i + 1;
    }
    clear_exif(&mut j);
    if segment_count(&j) < 3 {
        return Err(MetaError::Parse(ParseError::TooFewSegments));
    }
    proof {
        lemma_filter_keeps_all(without_metadata(segs), |s: Segment| not_metadata(s));
    }
    Ok(j)
}

/// Inserts the metadata segment carrying `block` into an opened image and
/// writes the image out.
pub(crate) fn close_image(j: Jpeg, block: Vec<u8>, Ghost(segs): Ghost<Seq<Segment>>) -> (r: Vec<u8>)
    requires
        block@.len() <= MAX_BLOCK_LEN,
        rewritable(segs),
        jpeg_segments(j) == without_metadata(segs),
        without_metadata(jpeg_segments(j)) == jpeg_segments(j),
    ensures
        r@ == stream_bytes(with_block(segs, block@)),
{
    let mut j = j;
    set_exif(&mut j, block);
    assert(jpeg_segments(j) == with_block(segs, block@));
    proof {
        lemma_with_block_writable(segs, block@);
    }
    write_jpeg(j)
}

/// `out` is `image` with the bytes of `seg` inserted where the segments after
/// the first three of `segs` begin.
pub open spec fn spliced(image: Seq<u8>, segs: Seq<Segment>, seg: Segment, out: Seq<u8>) -> bool {
    let k = stream_bytes(segs.take(3)).len() as int;
    &&& k <= image.len()
    &&& out == image.subrange(0, k) + segment_bytes(seg) + image.subrange(k, image.len() as int)
}

/// Rewrites the image `image` so that its only metadata segment carries
/// `block`, at index 3 among the segments, every other segment kept in order.
/// An image that cannot take a block is a parse error; a block too long for
/// one segment is an encode error. Into a well-formed image without
/// metadata, the new segment is spliced and every input byte is kept.
pub fn inject_block(image: &[u8], block: Vec<u8>) -> (r: Result<Vec<u8>, MetaError>)
    ensures
        !has_start_marker(image@) ==> r matches Err(MetaError::Parse(_)),
        !(parsed_segments(image@) matches Some(parsed) && rewritable(parsed)) ==> r matches Err(
            MetaError::Parse(_),
        ),
        (parsed_segments(image@) matches Some(parsed) && rewritable(parsed)) ==> (r
            matches Err(MetaError::Encode) <==> block@.len() > MAX_BLOCK_LEN),
        (parsed_segments(image@) matches Some(parsed) && rewritable(parsed)) && block@.len()
            <= MAX_BLOCK_LEN ==> r is Ok,
        r matches Err(e) ==> e is Parse || e == MetaError::Encode,
        r matches Ok(out) ==> out@ == stream_bytes(
            with_block(parsed_segments(image@)->Some_0, block@),
        ) && metadata_of(with_block(parsed_segments(image@)->Some_0, block@)) == seq![
            metadata_segment(block@),
        ],
        canonical_stream(image@) ==> (parsed_segments(image@) matches Some(p) && canonical(p)
            && stream_bytes(p) == image@),
        canonical_stream(image@) && without_metadata(parsed_segments(image@)->Some_0).len() >= 3
            && block@.len() <= MAX_BLOCK_LEN ==> r is Ok,
        r matches Ok(out) ==> (canonical_stream(image@) && metadata_of(
            parsed_segments(image@)->Some_0,
        ).len() == 0 ==> spliced(
            image@,
            parsed_segments(image@)->Some_0,
            metadata_segment(block@),
            out@,
        ) && out@.len() == image@.len() + 4 + 6 + block@.len()),
{
    let j = open_image(image)?;
    if block.len() > MAX_BLOCK_LEN {
        return Err(MetaError::Encode);
    }
    let ghost segs = parsed_segments(image@)->Some_0;
    proof {
        lemma_single_metadata(segs, block@);
        if canonical_stream(image@) && metadata_of(segs).len() == 0 {
            lemma_inject_spliced(image@, segs, block@);
        }
    }
    Ok(close_image(j, block, Ghost(segs)))
}

/// A well-formed image has every segment writable.
pub proof fn lemma_canonical_writable(segs: Seq<Segment>)
    requires
        canonical(segs),
    ensures
        forall|i: int| 0 <= i < segs.len() ==> writable(#[trigger] segs[i]),
{
    assert forall|i: int| 0 <= i < segs.len() implies writable(#[trigger] segs[i]) by {
        if i < segs.len() - 1 {
            assert(segs[i].2.len() == 0);
        } else {
            assert(segs[i] == segs.last());
        }
    }
}

/// Injecting a block into the stream `image` of segments without metadata
/// splices the new segment in after the first three and keeps every byte
/// of `image`, so the stream grows by `4 + 6 + n` bytes.
pub proof fn lemma_inject_spliced(image: Seq<u8>, segs: Seq<Segment>, block: Seq<u8>)
    requires
        stream_bytes(segs) == image,
        without_metadata(segs).len() >= 3,
        metadata_of(segs).len() == 0,
    ensures
        spliced(image, segs, metadata_segment(block), stream_bytes(with_block(segs, block))),
        stream_bytes(with_block(segs, block)).len() == image.len() + 4 + 6 + block.len(),
{
    segs.lemma_filter_len(|s: Segment| not_metadata(s));
    lemma_inject_into_plain(segs, block);
    let k = stream_bytes(segs.take(3)).len() as int;
    let tail = segments_bytes(segs.skip(3));
    assert(image.subrange(0, k) =~= stream_bytes(segs.take(3)));
    assert(image.subrange(k, image.len() as int) =~= tail);
}

proof fn lemma_segments_bytes_add(a: Seq<Segment>, b: Seq<Segment>)
    ensures
        segments_bytes(a + b) == segments_bytes(a) + segments_bytes(b),
    decreases a.len(),
{
    reveal(segments_bytes);
    if a.len() == 0 {
        assert(a + b =~= b);
    } else {
        lemma_segments_bytes_add(a.drop_first(), b);
        assert((a + b).drop_first() =~= a.drop_first() + b);
        assert(segments_bytes(a + b) =~= segments_bytes(a) + segments_bytes(b));
    }
}

proof fn lemma_segments_bytes_one(x: Segment)
    ensures
        segments_bytes(seq![x]) == segment_bytes(x),
{
    reveal_with_fuel(segments_bytes, 2);
    assert(seq![x].drop_first() =~= Seq::<Segment>::empty());
    assert(segments_bytes(seq![x]) =~= segment_bytes(x));
}

proof fn lemma_metadata_segment(block: Seq<u8>)
    ensures
        is_metadata(metadata_segment(block)),
{
    assert((exif_prefix() + block).subrange(0, 6) =~= exif_prefix());
}

/// After a block is injected, the image holds exactly one metadata segment,
/// the one that carries that block: an earlier payload is replaced, never
/// kept beside it.
pub proof fn lemma_single_metadata(segs: Seq<Segment>, block: Seq<u8>)
    requires
        without_metadata(segs).len() >= 3,
    ensures
        metadata_of(with_block(segs, block)) == seq![metadata_segment(block)],
{
    let f = without_metadata(segs);
    let x = metadata_segment(block);
    let p = |s: Segment| is_metadata(s);
    assert forall|i: int| 0 <= i < f.len() implies !p(#[trigger] f[i]) by {
        segs.lemma_filter_pred(|s: Segment| not_metadata(s), i);
    }
    let a = f.take(3);
    let c = f.skip(3);
    assert(f.insert(3, x) =~= a + seq![x] + c);
    Seq::filter_distributes_over_add(a + seq![x], c, p);
    Seq::filter_distributes_over_add(a, seq![x], p);
    lemma_filter_drops_all(a, p);
    lemma_filter_drops_all(c, p);
    lemma_metadata_segment(block);
    lemma_filter_keeps_all(seq![x], p);
    assert(metadata_of(with_block(segs, block)) =~= seq![x]);
}

/// Injecting a block of `n` bytes into an image without metadata inserts
/// one segment of marker, length, `Exif\0\0` and the block after the first
/// three segments: the bytes before and after it are those of the input
/// image, so the stream grows by `4 + 6 + n` bytes.
pub proof fn lemma_inject_into_plain(segs: Seq<Segment>, block: Seq<u8>)
    requires
        segs.len() >= 3,
        metadata_of(segs).len() == 0,
    ensures
        with_block(segs, block).remove(3) == segs,
        stream_bytes(segs) == stream_bytes(segs.take(3)) + segments_bytes(segs.skip(3)),
        stream_bytes(with_block(segs, block)) == stream_bytes(segs.take(3)) + segment_bytes(
            metadata_segment(block),
        ) + segments_bytes(segs.skip(3)),
        stream_bytes(with_block(segs, block)).len() == stream_bytes(segs).len() + 4 + 6
            + block.len(),
{
    lemma_no_metadata_kept(segs);
    let x = metadata_segment(block);
    assert(with_block(segs, block) == segs.insert(3, x));
    assert(segs.insert(3, x).remove(3) =~= segs);
    lemma_insert_bytes(segs, x);
}

proof fn lemma_no_metadata_kept(segs: Seq<Segment>)
    requires
        metadata_of(segs).len() == 0,
    ensures
        without_metadata(segs) == segs,
{
    assert forall|i: int| 0 <= i < segs.len() implies not_metadata(#[trigger] segs[i]) by {
        if is_metadata(segs[i]) {
            segs.lemma_filter_contains(|s: Segment| is_metadata(s), i);
        }
    }
    lemma_filter_keeps_all(segs, |s: Segment| not_metadata(s));
}

proof fn lemma_insert_bytes(segs: Seq<Segment>, x: Segment)
    requires
        segs.len() >= 3,
    ensures
        stream_bytes(segs) == stream_bytes(segs.take(3)) + segments_bytes(segs.skip(3)),
        stream_bytes(segs.insert(3, x)) == stream_bytes(segs.take(3)) + segment_bytes(x)
            + segments_bytes(segs.skip(3)),
{
    let a = segs.take(3);
    let c = segs.skip(3);
    assert(segs =~= a + c);
    assert(segs.insert(3, x) =~= a + (seq![x] + c));
    lemma_segments_bytes_add(a, c);
    lemma_segments_bytes_add(a, seq![x] + c);
    lemma_segments_bytes_add(seq![x], c);
    lemma_segments_bytes_one(x);
    assert(stream_bytes(segs) =~= stream_bytes(a) + segments_bytes(c));
    assert(stream_bytes(segs.insert(3, x)) =~= stream_bytes(a) + segment_bytes(x)
        + segments_bytes(c));
}

/// Filtering a sequence whose every element passes leaves it unchanged.
proof fn lemma_filter_keeps_all(t: Seq<Segment>, p: spec_fn(Segment) -> bool)
    requires
        forall|i: int| 0 <= i < t.len() ==> p(#[trigger] t[i]),
    ensures
        t.filter(p) == t,
    decreases t.len(),
{
    reveal(Seq::filter);
    if t.len() > 0 {
        lemma_filter_keeps_all(t.drop_last(), p);
        assert(t.drop_last().push(t.last()) =~= t);
    }
}

/// Filtering a sequence whose every element fails leaves nothing.
proof fn lemma_filter_drops_all(t: Seq<Segment>, p: spec_fn(Segment) -> bool)
    requires
        forall|i: int| 0 <= i < t.len() ==> !p(#[trigger] t[i]),
    ensures
        t.filter(p) == Seq::<Segment>::empty(),
    decreases t.len(),
{
    reveal(Seq::filter);
    if t.len() > 0 {
        lemma_filter_drops_all(t.drop_last(), p);
    }
}

proof fn lemma_with_block_writable(segs: Seq<Segment>, block: Seq<u8>)
    requires
        block.len() <= MAX_BLOCK_LEN,
        without_metadata(segs).len() >= 3,
        forall|i: int| 0 <= i < segs.len() ==> writable(#[trigger] segs[i]),
    ensures
        forall|i: int|
            0 <= i < with_block(segs, block).len() ==> writable(#[trigger] with_block(segs, block)[i]),
{
    let f = without_metadata(segs);
    assert forall|i: int| 0 <= i < f.len() implies writable(#[trigger] f[i]) by {
        assert(f.contains(f[i]));
        segs.lemma_filter_contains_rev(|s: Segment| not_metadata(s), f[i]);
    }
    let w = with_block(segs, block);
    assert forall|i: int| 0 <= i < w.len() implies writable(#[trigger] w[i]) by {
        if i < 3 {
            assert(w[i] == f[i]);
        } else if i > 3 {
            assert(w[i] == f[i - 1]);
        }
    }
}

} // verus!
