//! Per-item decisions of a run and the photo pipeline.

use crate::caption::{combine, combined, comments_wf, Comment};
use crate::civil::CivilTime;
use crate::error::MetaError;
use crate::exif_block::{block_for, encode_block, EncodingProfile, MAX_BLOCK_LEN};
use crate::jpeg::{
    canonical_stream, close_image, has_start_marker,
    lemma_inject_spliced, lemma_single_metadata, metadata_of, metadata_segment, open_image,
    parsed_segments, rewritable, spliced, stream_bytes, with_block, without_metadata,
};
use vstd::prelude::*;

verus! {

/// Run-wide switches, fixed for the whole run.
#[derive(Clone, Copy, Debug, PartialEq, Eq, Structural)]
pub struct RunOptions {
    /// Compute everything but create, write, copy or touch nothing.
    pub dry_run: bool,
    pub skip_photos: bool,
    pub skip_videos: bool,
}

/// What an item is, by its file extension.
#[derive(Clone, Copy, Debug, PartialEq, Eq, Structural)]
pub enum MediaKind {
    Photo,
    Video,
    Unrecognized,
}

/// What to do with one item.
#[derive(Clone, Copy, Debug, PartialEq, Eq, Structural)]
pub enum ItemPlan {
    /// Unknown or missing extension: warn and go on.
    Unrecognized,
    /// Its kind of media is switched off for this run.
    Disabled,
    /// Caption the photo; write the result when `write_output`.
    Photo { write_output: bool },
    /// Copy the video and restore its times when `copy_output`.
    Video { copy_output: bool },
}

impl ItemPlan {
    /// The plan creates or changes a file.
    pub open spec fn mutates(self) -> bool {
        match self {
            ItemPlan::Photo { write_output } => write_output,
            ItemPlan::Video { copy_output } => copy_output,
            _ => false,
        }
    }
}

/// The kind of a file with extension `e`: `jpg` is a photo, `mp4` and
/// `flv` are videos, anything else is unrecognized.
pub open spec fn kind_of(e: Seq<char>) -> MediaKind {
    if e == seq!['j', 'p', 'g'] {
        MediaKind::Photo
    } else if e == seq!['m', 'p', '4'] || e == seq!['f', 'l', 'v'] {
        MediaKind::Video
    } else {
        MediaKind::Unrecognized
    }
}

pub open spec fn plan_of(opts: RunOptions, kind: MediaKind) -> ItemPlan {
    match kind {
        MediaKind::Photo => if opts.skip_photos {
            ItemPlan::Disabled
        } else {
            ItemPlan::Photo { write_output: !opts.dry_run }
        },
        MediaKind::Video => if opts.skip_videos {
            ItemPlan::Disabled
        } else {
            ItemPlan::Video { copy_output: !opts.dry_run }
        },
        MediaKind::Unrecognized => ItemPlan::Unrecognized,
    }
}

fn same_text(a: &str, b: &str) -> (r: bool)
    ensures
        r == (a@ == b@),
{
    let n = a.unicode_len();
    if n != b.unicode_len() {
        return false;
    }
    let mut i: usize = 0;
    while i < n
        invariant
            n == a@.len(),
            n == b@.len(),
            i <= n,
            forall|k: int| 0 <= k < i ==> a@[k] == b@[k],
        decreases n - i,
    {
        if a.get_char(i) != b.get_char(i) {
            return false;
        }
        i = i + 1;
    }
    assert(a@ =~= b@);
    true
}

/// Classifies a file by its extension; a file without one is unrecognized.
pub fn classify(extension: Option<&str>) -> (r: MediaKind)
    ensures
        extension is None ==> r == MediaKind::Unrecognized,
        extension matches Some(e) ==> r == kind_of(e@),
{
    proof {
        reveal_strlit("jpg");
        reveal_strlit("mp4");
        reveal_strlit("flv");
        assert("jpg"@ =~= seq!['j', 'p', 'g']);
        assert("mp4"@ =~= seq!['m', 'p', '4']);
        assert("flv"@ =~= seq!['f', 'l', 'v']);
    }
    match extension {
        None => MediaKind::Unrecognized,
        Some(e) => {
            if same_text(e, "jpg") {
                MediaKind::Photo
            } else if same_text(e, "mp4") || same_text(e, "flv") {
                MediaKind::Video
            } else {
                MediaKind::Unrecognized
            }
        },
    }
}

/// Decides what to do with an item of kind `kind`.
pub fn plan_item(opts: &RunOptions, kind: MediaKind) -> (r: ItemPlan)
    ensures
        r == plan_of(*opts, kind),
{
    match kind {
        MediaKind::Photo => if opts.skip_photos {
            ItemPlan::Disabled
        } else {
            ItemPlan::Photo { write_output: !opts.dry_run }
        },
        MediaKind::Video => if opts.skip_videos {
            ItemPlan::Disabled
        } else {
            ItemPlan::Video { copy_output: !opts.dry_run }
        },
        MediaKind::Unrecognized => ItemPlan::Unrecognized,
    }
}

/// Plans every item of an album, each on its own: an unrecognized item does
/// not stop the items after it.
pub fn plan_album(opts: &RunOptions, kinds: &Vec<MediaKind>) -> (r: Vec<ItemPlan>)
    ensures
        r@.len() == kinds@.len(),
        forall|i: int| 0 <= i < kinds@.len() ==> r@[i] == plan_of(*opts, #[trigger] kinds@[i]),
{
    let mut plans: Vec<ItemPlan> = Vec::new();
    let mut i: usize = 0;
    while i < kinds.len()
        invariant
            i <= kinds@.len(),
            plans@.len() == i,
            forall|k: int| 0 <= k < i ==> plans@[k] == plan_of(*opts, #[trigger] kinds@[k]),
        decreases kinds@.len() - i,
    {
        plans.push(plan_item(opts, kinds[i]));
        i = i + 1;
    }
    plans
}

/// Whether the output directory of an album (or of the videos) is created.
pub fn creates_directories(opts: &RunOptions) -> (r: bool)
    ensures
        r == !opts.dry_run,
{
    !opts.dry_run
}

/// In a dry run no plan creates or changes a file, and a photo that is not
/// switched off is still captioned.
pub proof fn lemma_dry_run_mutates_nothing(opts: RunOptions, kind: MediaKind)
    requires
        opts.dry_run,
    ensures
        !plan_of(opts, kind).mutates(),
        kind == MediaKind::Photo && !opts.skip_photos ==> plan_of(opts, kind) is Photo,
{
}

/// The caption block of an item: its combined caption and its creation time.
pub fn caption_block(
    description: &Option<String>,
    comments: &Vec<Comment>,
    at: &CivilTime,
    profile: EncodingProfile,
) -> (r: Result<Vec<u8>, MetaError>)
    requires
        at.wf(),
        comments_wf(comments@),
    ensures
        r matches Ok(b) ==> b@ == block_for(combined(*description, comments@), *at, profile)
            && b@.len() <= MAX_BLOCK_LEN,
        r matches Err(e) ==> e == MetaError::Encode,
        block_for(combined(*description, comments@), *at, profile).len() > MAX_BLOCK_LEN ==> r is Err,
        block_for(combined(*description, comments@), *at, profile).len() <= MAX_BLOCK_LEN ==> r is Ok,
{
    let caption = combine(description, comments);
    encode_block(&caption, at, profile)
}

/// Captions the photo `image`: parses it, encodes its caption and creation
/// time, and returns the image with that block as its only metadata. A
/// photo that can take a block whose caption fits is always captioned; into
/// a well-formed photo without metadata the new segment is spliced and every
/// input byte is kept.
pub fn caption_photo(
    image: &[u8],
    description: &Option<String>,
    comments: &Vec<Comment>,
    at: &CivilTime,
    profile: EncodingProfile,
) -> (r: Result<Vec<u8>, MetaError>)
    requires
        at.wf(),
        comments_wf(comments@),
    ensures
        !has_start_marker(image@) ==> r matches Err(MetaError::Parse(_)),
        !(parsed_segments(image@) matches Some(parsed) && rewritable(parsed)) ==> r matches Err(
            MetaError::Parse(_),
        ),
        (parsed_segments(image@) matches Some(parsed) && rewritable(parsed)) && block_for(
            combined(*description, comments@),
            *at,
            profile,
        ).len() > MAX_BLOCK_LEN ==> r == Err::<Vec<u8>, MetaError>(MetaError::Encode),
        (parsed_segments(image@) matches Some(parsed) && rewritable(parsed)) && block_for(
            combined(*description, comments@),
            *at,
            profile,
        ).len() <= MAX_BLOCK_LEN ==> r is Ok,
        canonical_stream(image@) && without_metadata(parsed_segments(image@)->Some_0).len() >= 3
            && block_for(combined(*description, comments@), *at, profile).len() <= MAX_BLOCK_LEN
            ==> r is Ok,
        r matches Err(e) ==> e is Parse || e == MetaError::Encode,
        r matches Ok(out) ==> out@ == stream_bytes(
            with_block(
                parsed_segments(image@)->Some_0,
                block_for(combined(*description, comments@), *at, profile),
            ),
        ) && metadata_of(
            with_block(
                parsed_segments(image@)->Some_0,
                block_for(combined(*description, comments@), *at, profile),
            ),
        ) == seq![metadata_segment(block_for(combined(*description, comments@), *at, profile))],
        r matches Ok(out) ==> (canonical_stream(image@) && metadata_of(
            parsed_segments(image@)->Some_0,
        ).len() == 0 ==> spliced(
            image@,
            parsed_segments(image@)->Some_0,
            metadata_segment(block_for(combined(*description, comments@), *at, profile)),
            out@,
        ) && out@.len() == image@.len() + 4 + 6 + block_for(
            combined(*description, comments@),
            *at,
            profile,
        ).len()),
{
    let j = open_image(image)?;
    let block = caption_block(description, comments, at, profile)?;
    let ghost segs = parsed_segments(image@)->Some_0;
    proof {
        lemma_single_metadata(segs, block@);
        if canonical_stream(image@) && metadata_of(segs).len() == 0 {
            lemma_inject_spliced(image@, segs, block@);
        }
    }
    Ok(close_image(j, block, Ghost(segs)))
}

} // verus!
