//! Reading FLV files far enough to tell which of them can be joined without re-encoding.
use crate::text::{eq_ignore_ascii_case, lower_spec};
use std::collections::hash_map::DefaultHasher;
use std::hash::Hasher;
use vstd::prelude::*;
use vstd::std_specs::hash::DefaultHasherAdditionalSpecFns;

verus! {

/// The bytes of an FLV header with the size of the tag before the first.
pub const FLV_PREAMBLE_LEN: usize = 13;

/// The bytes of a tag header with the size field that follows the tag.
pub const FLV_TAG_OVERHEAD: usize = 15;

/// A tag of an FLV file: its type and its body.
pub struct FlvTag {
    pub kind: u8,
    pub body: Seq<u8>,
}

/// The number in three bytes, the highest first.
pub open spec fn be24(bytes: Seq<u8>, at: int) -> int {
    bytes[at] * 65536 + bytes[at + 1] * 256 + bytes[at + 2]
}

/// The number in four bytes, the highest first.
pub open spec fn be32(bytes: Seq<u8>, at: int) -> int {
    bytes[at] * 16777216 + be24(bytes, at + 1)
}

/// The tags from `at` to the end of the file; nothing where the file does not end with a whole
/// tag.
pub open spec fn flv_tags(bytes: Seq<u8>, at: int) -> Option<Seq<FlvTag>>
    decreases bytes.len() - at,
{
    if at < 0 || at >= bytes.len() {
        Some(Seq::empty())
    } else if bytes.len() - at < FLV_TAG_OVERHEAD {
        None
    } else {
        let end = at + 11 + be24(bytes, at + 1);
        if end + 4 > bytes.len() {
            None
        } else {
            match flv_tags(bytes, end + 4) {
                Some(rest) => Some(
                    seq![FlvTag { kind: bytes[at], body: bytes.subrange(at + 11, end) }] + rest,
                ),
                None => None,
            }
        }
    }
}

/// Whether a tag describes the codec of the audio (AAC) or the video (AVC).
pub open spec fn is_sequence_header(tag: FlvTag) -> bool {
    ||| tag.kind == 8 && tag.body.len() > 2 && tag.body[0] >> 4 == 10 && tag.body[1] == 0
    ||| tag.kind == 9 && tag.body.len() > 5 && tag.body[0] & 0x0f == 7 && tag.body[1] == 0
}

/// Whether a tag carries sound or pictures.
pub open spec fn carries_media(tag: FlvTag) -> bool {
    &&& tag.body.len() > 0
    &&& {
        ||| tag.kind == 8 && (tag.body[0] >> 4 != 10 || (tag.body.len() > 1 && tag.body[1] == 1))
        ||| tag.kind == 9 && (tag.body[0] & 0x0f != 7 || (tag.body.len() > 1 && tag.body[1] == 1))
    }
}

/// Whether a tag carries a picture that can be shown without another.
pub open spec fn is_keyframe(tag: FlvTag) -> bool {
    tag.kind == 9 && tag.body.len() > 1 && tag.body[0] >> 4 == 1 && (tag.body[0] & 0x0f != 7
        || tag.body[1] == 1)
}

/// The codec descriptions among `tags`, in order.
pub open spec fn sequence_headers(tags: Seq<FlvTag>) -> Seq<FlvTag>
    decreases tags.len(),
{
    if tags.len() == 0 {
        Seq::empty()
    } else if is_sequence_header(tags.last()) {
        sequence_headers(tags.drop_last()).push(tags.last())
    } else {
        sequence_headers(tags.drop_last())
    }
}

/// The codec descriptions of an FLV file that can be joined with others: one that is whole, has
/// a codec description and media, and a keyframe where it describes video.
pub open spec fn codec_headers(bytes: Seq<u8>) -> Option<Seq<FlvTag>> {
    if bytes.len() <= FLV_PREAMBLE_LEN || bytes.subrange(0, 3) != seq![0x46u8, 0x4c, 0x56] {
        None
    } else {
        match flv_tags(bytes, be32(bytes, 5) + 4) {
            Some(tags) => {
                let headers = sequence_headers(tags);
                let media = exists|i: int| 0 <= i < tags.len() && carries_media(#[trigger] tags[i]);
                let video = exists|i: int|
                    0 <= i < headers.len() && (#[trigger] headers[i]).kind == 9;
                let keyframe = exists|i: int|
                    0 <= i < tags.len() && is_keyframe(#[trigger] tags[i]);
                if headers.len() == 0 || !media || (video && !keyframe) {
                    None
                } else {
                    Some(headers)
                }
            },
            None => None,
        }
    }
}

/// A codec description as it is read from a file.
pub type CodecHeader = (u8, Vec<u8>);

/// Codec descriptions as mathematical tags.
pub open spec fn header_views(headers: Seq<CodecHeader>) -> Seq<FlvTag> {
    headers.map_values(|h: CodecHeader| FlvTag { kind: h.0, body: h.1@ })
}

fn copy_range(bytes: &[u8], from: usize, to: usize) -> (piece: Vec<u8>)
    requires
        from <= to <= bytes.len(),
    ensures
        piece@ == bytes@.subrange(from as int, to as int),
{
    let mut piece: Vec<u8> = Vec::new();
    let mut i: usize = from;
    while i < to
        invariant
            from <= i <= to <= bytes.len(),
            piece@ == bytes@.subrange(from as int, i as int),
        decreases to - i,
    {
        piece.push(bytes[i]);
        assert(bytes@.subrange(from as int, i + 1) =~= bytes@.subrange(from as int, i as int).push(
            bytes@[i as int],
        ));
        i = i + 1;
    }
    piece
}

fn sequence_header_kind(kind: u8, body: &Vec<u8>) -> (yes: bool)
    ensures
        yes == is_sequence_header(FlvTag { kind, body: body@ }),
{
    (kind == 8 && body.len() > 2 && (body[0] >> 4) == 10 && body[1] == 0) || (kind == 9
        && body.len() > 5 && (body[0] & 0x0f) == 7 && body[1] == 0)
}

fn media_kind(kind: u8, body: &Vec<u8>) -> (yes: bool)
    ensures
        yes == carries_media(FlvTag { kind, body: body@ }),
{
    body.len() > 0 && ((kind == 8 && ((body[0] >> 4) != 10 || (body.len() > 1 && body[1] == 1)))
        || (kind == 9 && ((body[0] & 0x0f) != 7 || (body.len() > 1 && body[1] == 1))))
}

fn keyframe_kind(kind: u8, body: &Vec<u8>) -> (yes: bool)
    ensures
        yes == is_keyframe(FlvTag { kind, body: body@ }),
{
    kind == 9 && body.len() > 1 && (body[0] >> 4) == 1 && ((body[0] & 0x0f) != 7 || body[1] == 1)
}

/// The codec descriptions of an FLV file that can be joined with others.
pub fn flv_codec_headers(bytes: &[u8]) -> (found: Option<Vec<CodecHeader>>)
    ensures
        codec_headers(bytes@) == (match found {
            Some(headers) => Some(header_views(headers@)),
            None => None,
        }),
{
    if bytes.len() <= FLV_PREAMBLE_LEN {
        return None;
    }
    if bytes[0] != 0x46 || bytes[1] != 0x4c || bytes[2] != 0x56 {
        proof {
            let magic = bytes@.subrange(0, 3);
            assert(magic[0] == bytes@[0] && magic[1] == bytes@[1] && magic[2] == bytes@[2]);
        }
        return None;
    }
    assert(bytes@.subrange(0, 3) =~= seq![0x46u8, 0x4c, 0x56]);
    let start: u64 = bytes[5] as u64 * 16777216 + (bytes[6] as u64 * 65536 + bytes[7] as u64 * 256
        + bytes[8] as u64) + 4;
    assert(start == be32(bytes@, 5) + 4);
    if start >= bytes.len() as u64 {
        proof {
            assert(sequence_headers(Seq::<FlvTag>::empty()) =~= Seq::empty());
        }
        return None;
    }
    let mut offset: usize = start as usize;
    let mut headers: Vec<CodecHeader> = Vec::new();
    let mut has_media: bool = false;
    let mut has_video_sequence: bool = false;
    let mut has_video_keyframe: bool = false;
    let ghost mut done: Seq<FlvTag> = Seq::empty();
    proof {
        let rest = flv_tags(bytes@, start as int);
        if rest is Some {
            assert(done + rest->0 =~= rest->0);
        }
        assert(header_views(headers@) =~= sequence_headers(done));
    }
    while offset < bytes.len()
        invariant
            offset <= bytes.len(),
            bytes.len() > FLV_PREAMBLE_LEN,
            bytes@.subrange(0, 3) == seq![0x46u8, 0x4c, 0x56],
            start == be32(bytes@, 5) + 4,
            flv_tags(bytes@, start as int) == (match flv_tags(bytes@, offset as int) {
                Some(rest) => Some(done + rest),
                None => None,
            }),
            header_views(headers@) == sequence_headers(done),
            has_media == (exists|i: int|
                0 <= i < done.len() && carries_media(#[trigger] done[i])),
            has_video_sequence == (exists|i: int|
                0 <= i < headers@.len() && (#[trigger] headers@[i]).0 == 9),
            has_video_keyframe == (exists|i: int|
                0 <= i < done.len() && is_keyframe(#[trigger] done[i])),
        decreases bytes.len() - offset,
    {
        if bytes.len() - offset < FLV_TAG_OVERHEAD {
            return None;
        }
        let kind: u8 = bytes[offset];
        let size: usize = bytes[offset + 1] as usize * 65536 + bytes[offset + 2] as usize * 256
            + bytes[offset + 3] as usize;
        assert(size == be24(bytes@, offset + 1));
        let room: usize = bytes.len() - offset - FLV_TAG_OVERHEAD;
        if size > room {
            return None;
        }
        let body_start: usize = offset + 11;
        let body_end: usize = body_start + size;
        let next: usize = body_end + 4;
        let body: Vec<u8> = copy_range(bytes, body_start, body_end);
        let ghost tag = FlvTag { kind, body: body@ };
        let ghost before = done;
        let ghost headers_before = headers@;
        let is_header: bool = sequence_header_kind(kind, &body);
        has_media = has_media || media_kind(kind, &body);
        has_video_keyframe = has_video_keyframe || keyframe_kind(kind, &body);
        has_video_sequence = has_video_sequence || (is_header && kind == 9);
        if is_header {
            headers.push((kind, body));
        }
        proof {
            done = before.push(tag);
            assert(done.drop_last() =~= before);
            assert(done.last() == tag);
            assert(header_views(headers@) =~= sequence_headers(done));
            assert forall|i: int| 0 <= i < before.len() implies done[i] == before[i] by {}
            assert(done[before.len() as int] == tag);
            if has_media && exists|i: int|
                0 <= i < before.len() && carries_media(#[trigger] before[i]) {
                let i = choose|i: int|
                    0 <= i < before.len() && carries_media(#[trigger] before[i]);
                assert(carries_media(done[i]));
            }
            if has_video_keyframe && exists|i: int|
                0 <= i < before.len() && is_keyframe(#[trigger] before[i]) {
                let i = choose|i: int| 0 <= i < before.len() && is_keyframe(#[trigger] before[i]);
                assert(is_keyframe(done[i]));
            }
            if exists|i: int| 0 <= i < headers_before.len() && (#[trigger] headers_before[i]).0
                == 9 {
                let i = choose|i: int|
                    0 <= i < headers_before.len() && (#[trigger] headers_before[i]).0 == 9;
                assert(headers@[i].0 == 9);
            }
            if is_header {
                assert(headers@[headers_before.len() as int].0 == kind);
            }
            match flv_tags(bytes@, next as int) {
                Some(rest) => {
                    assert(before + (seq![tag] + rest) =~= done + rest);
                },
                None => {},
            }
        }
        offset = next;
    }
    proof {
        assert(done + Seq::<FlvTag>::empty() =~= done);
        let views = sequence_headers(done);
        assert forall|i: int| 0 <= i < headers@.len() implies views[i].kind == (
        #[trigger] headers@[i]).0 by {
            assert(header_views(headers@)[i].kind == headers@[i].0);
        }
        if has_video_sequence {
            let i = choose|i: int| 0 <= i < headers@.len() && (#[trigger] headers@[i]).0 == 9;
            assert(views[i].kind == 9);
        }
    }
    if headers.len() == 0 || !has_media || (has_video_sequence && !has_video_keyframe) {
        return None;
    }
    Some(headers)
}

/// `n` in eight bytes, the lowest first.
pub open spec fn le_bytes(n: int, width: nat) -> Seq<u8>
    decreases width,
{
    if width == 0 {
        Seq::empty()
    } else {
        seq![(n % 256) as u8] + le_bytes(n / 256, (width - 1) as nat)
    }
}

fn length_bytes(n: u64) -> (bytes: Vec<u8>)
    ensures
        bytes@ == le_bytes(n as int, 8),
{
    let mut bytes: Vec<u8> = Vec::new();
    let mut rest: u64 = n;
    let mut left: usize = 8;
    assert(bytes@ + le_bytes(n as int, 8) =~= le_bytes(n as int, 8));
    while left > 0
        invariant
            left <= 8,
            bytes@ + le_bytes(rest as int, left as nat) == le_bytes(n as int, 8),
        decreases left,
    {
        let ghost before = bytes@;
        let low: u8 = (rest % 256) as u8;
        bytes.push(low);
        assert(bytes@ + le_bytes((rest / 256) as int, (left - 1) as nat) =~= before + le_bytes(
            rest as int,
            left as nat,
        ));
        rest = rest / 256;
        left = left - 1;
    }
    assert(bytes@ + le_bytes(rest as int, 0) =~= bytes@);
    bytes
}

/// What is handed to the hasher for codec descriptions: of each its type, the length of its body
/// and its body.
pub open spec fn hashed_writes(headers: Seq<FlvTag>) -> Seq<Seq<u8>>
    decreases headers.len(),
{
    if headers.len() == 0 {
        Seq::empty()
    } else {
        let last = headers.last();
        hashed_writes(headers.drop_last()).push(seq![last.kind]).push(
            le_bytes(last.body.len() as int, 8),
        ).push(last.body)
    }
}

/// The number that stands for codec descriptions: the hash of how many there are and of each.
pub open spec fn headers_key(headers: Seq<FlvTag>) -> u64 {
    DefaultHasher::spec_finish(
        seq![le_bytes(headers.len() as int, 8)] + hashed_writes(headers),
    )
}

fn hash_headers(headers: &Vec<CodecHeader>) -> (key: u64)
    ensures
        key == headers_key(header_views(headers@)),
{
    let mut hasher = DefaultHasher::new();
    let count: Vec<u8> = length_bytes(headers.len() as u64);
    hasher.write(count.as_slice());
    let mut i: usize = 0;
    proof {
        assert(header_views(headers@.take(0)) =~= Seq::empty());
        assert(hasher@ =~= seq![count@] + hashed_writes(Seq::empty()));
    }
    while i < headers.len()
        invariant
            i <= headers.len(),
            count@ == le_bytes(headers@.len() as int, 8),
            hasher@ == seq![count@] + hashed_writes(header_views(headers@.take(i as int))),
        decreases headers.len() - i,
    {
        let mut kind: Vec<u8> = Vec::new();
        kind.push(headers[i].0);
        let length: Vec<u8> = length_bytes(headers[i].1.len() as u64);
        hasher.write(kind.as_slice());
        hasher.write(length.as_slice());
        hasher.write(headers[i].1.as_slice());
        proof {
            let more = header_views(headers@.take(i + 1));
            assert(more.drop_last() =~= header_views(headers@.take(i as int)));
            assert(more.last() == FlvTag { kind: headers@[i as int].0, body: headers@[i as int].1@ });
            assert(kind@ =~= seq![headers@[i as int].0]);
            assert(hasher@ =~= seq![count@] + hashed_writes(more));
        }
        i = i + 1;
    }
    assert(headers@.take(i as int) =~= headers@);
    hasher.finish()
}

/// Whether a segment is worth reading for a key at all: an FLV file without a comment file.
pub fn may_be_joined(has_danmaku: bool, extension: Option<&str>) -> (yes: bool)
    ensures
        yes == (!has_danmaku && (extension matches Some(e) && lower_spec(e@) == lower_spec(
            "flv"@,
        ))),
{
    match extension {
        Some(e) => !has_danmaku && eq_ignore_ascii_case(e, "flv"),
        None => false,
    }
}

/// The key of a segment: segments with the same key can be joined without re-encoding. Nothing
/// where the segment is no FLV file, has a comment file, could not be read, or is damaged.
pub fn media_compatibility_key(
    has_danmaku: bool,
    extension: Option<&str>,
    contents: Option<&[u8]>,
) -> (key: Option<u64>)
    ensures
        key == (if !has_danmaku && (extension matches Some(e) && lower_spec(e@) == lower_spec(
            "flv"@,
        )) && (contents matches Some(bytes) && codec_headers(bytes@) is Some) {
            Some(headers_key(codec_headers(contents->0@)->0))
        } else {
            None
        }),
{
    if !may_be_joined(has_danmaku, extension) {
        return None;
    }
    match contents {
        Some(bytes) => match flv_codec_headers(bytes) {
            Some(headers) => Some(hash_headers(&headers)),
            None => None,
        },
        None => None,
    }
}

/// The bytes of a tag: its type, the size of its body, seven bytes of `stamp` (its time and its
/// stream), its body, and four bytes of `size` that follow it.
pub open spec fn tag_bytes(kind: u8, stamp: Seq<u8>, body: Seq<u8>, size: Seq<u8>) -> Seq<u8> {
    let n = body.len() as int;
    seq![kind, (n / 65536) as u8, (n / 256 % 256) as u8, (n % 256) as u8] + stamp + body + size
}

/// Whether these make up a tag.
pub open spec fn is_tag(stamp: Seq<u8>, body: Seq<u8>, size: Seq<u8>) -> bool {
    stamp.len() == 7 && body.len() < 16_777_216 && size.len() == 4
}

pub(crate) proof fn lemma_tags_before(
    bytes: Seq<u8>,
    more: Seq<u8>,
    at: int,
    kind: u8,
    stamp: Seq<u8>,
    body: Seq<u8>,
    size: Seq<u8>,
)
    requires
        0 <= at <= bytes.len(),
        flv_tags(bytes, at) is Some,
        is_tag(stamp, body, size),
        more.len() <= tag_bytes(kind, stamp, body, size).len(),
        more == tag_bytes(kind, stamp, body, size).take(more.len() as int),
    ensures
        more.len() == tag_bytes(kind, stamp, body, size).len() ==> flv_tags(bytes + more, at)
            == Some(flv_tags(bytes, at)->0.push(FlvTag { kind, body })),
        0 < more.len() < tag_bytes(kind, stamp, body, size).len() ==> flv_tags(bytes + more, at)
            is None,
    decreases bytes.len() - at,
{
    let all = bytes + more;
    let tag = tag_bytes(kind, stamp, body, size);
    if at == bytes.len() {
        if more.len() >= FLV_TAG_OVERHEAD {
            assert(all[at] == tag[0] && all[at + 1] == tag[1]);
            assert(all[at + 2] == tag[2] && all[at + 3] == tag[3]);
            assert(be24(all, at + 1) == body.len());
        }
        if more.len() == tag.len() {
            let end = at + 11 + body.len();
            assert(all.subrange(at + 11, end) =~= body) by {
                assert forall|i: int| 0 <= i < body.len() implies #[trigger] all[at + 11 + i]
                    == body[i] by {
                    assert(more[11 + i] == tag[11 + i]);
                }
            }
            assert(flv_tags(all, end + 4) == Some(Seq::<FlvTag>::empty()));
            assert(seq![FlvTag { kind, body }] + Seq::<FlvTag>::empty() =~= flv_tags(
                bytes,
                at,
            )->0.push(FlvTag { kind, body }));
        }
    } else {
        let end = at + 11 + be24(bytes, at + 1);
        assert(be24(all, at + 1) == be24(bytes, at + 1));
        assert(all.subrange(at + 11, end) =~= bytes.subrange(at + 11, end));
        lemma_tags_before(bytes, more, end + 4, kind, stamp, body, size);
        let first = seq![FlvTag { kind: bytes[at], body: bytes.subrange(at + 11, end) }];
        let rest = flv_tags(bytes, end + 4)->0;
        assert(first + rest.push(FlvTag { kind, body }) =~= (first + rest).push(
            FlvTag { kind, body },
        ));
    }
}

/// How far a file was recorded does not matter: a tag more that describes no codec leaves the
/// codec descriptions, and with them the key, as they are.
pub proof fn law_more_media_keeps_the_key(
    bytes: Seq<u8>,
    kind: u8,
    stamp: Seq<u8>,
    body: Seq<u8>,
    size: Seq<u8>,
)
    requires
        codec_headers(bytes) is Some,
        is_tag(stamp, body, size),
        !is_sequence_header(FlvTag { kind, body }),
    ensures
        codec_headers(bytes + tag_bytes(kind, stamp, body, size)) == codec_headers(bytes),
{
    let more = tag_bytes(kind, stamp, body, size);
    let all = bytes + more;
    let start = be32(bytes, 5) + 4;
    let tags = flv_tags(bytes, start)->0;
    let tag = FlvTag { kind, body };
    assert(more =~= more.take(more.len() as int));
    assert(start <= bytes.len()) by {
        assert(sequence_headers(Seq::<FlvTag>::empty()) =~= Seq::empty());
    }
    lemma_tags_before(bytes, more, start, kind, stamp, body, size);
    assert(all.subrange(0, 3) =~= bytes.subrange(0, 3));
    assert(be32(all, 5) == be32(bytes, 5));
    assert(tags.push(tag).drop_last() =~= tags);
    assert(sequence_headers(tags.push(tag)) == sequence_headers(tags));
    let i = choose|i: int| 0 <= i < tags.len() && carries_media(#[trigger] tags[i]);
    assert(carries_media(tags.push(tag)[i]));
    if exists|k: int| 0 <= k < tags.len() && is_keyframe(#[trigger] tags[k]) {
        let k = choose|k: int| 0 <= k < tags.len() && is_keyframe(#[trigger] tags[k]);
        assert(is_keyframe(tags.push(tag)[k]));
    }
}

/// A file that is cut off in the middle of a tag has no key.
pub proof fn law_cut_off_file_has_no_key(
    bytes: Seq<u8>,
    kept: int,
    kind: u8,
    stamp: Seq<u8>,
    body: Seq<u8>,
    size: Seq<u8>,
)
    requires
        codec_headers(bytes) is Some,
        is_tag(stamp, body, size),
        0 < kept < tag_bytes(kind, stamp, body, size).len(),
    ensures
        codec_headers(bytes + tag_bytes(kind, stamp, body, size).take(kept)) is None,
{
    let more = tag_bytes(kind, stamp, body, size).take(kept);
    let start = be32(bytes, 5) + 4;
    assert(start <= bytes.len()) by {
        assert(sequence_headers(Seq::<FlvTag>::empty()) =~= Seq::empty());
    }
    lemma_tags_before(bytes, more, start, kind, stamp, body, size);
    assert(be32(bytes + more, 5) == be32(bytes, 5));
}

} // verus!
