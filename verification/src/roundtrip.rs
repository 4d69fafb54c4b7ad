//! Reading back what the writer of playlists wrote.
use vstd::prelude::*;
use vstd::string::*;
use crate::media::{MediaItemV, MediaTagV, ServerControlV, media_tag_spec, same_shared_kind};
use crate::num::{dec_digits, lemma_dec_digits};
use crate::error::PErr;
use crate::parser::{
    ContextV, ParsedLineV, PlaylistItemV, PlaylistKind, PlaylistV, build_media, consume_spec, initial_context,
    line_kind_spec, lines_spec, next_sequence, playlist_spec, run_lines, strip_cr,
};
use crate::playlist::{SharedTagV, VarDefV};
use crate::playlist::{after, shared_tag_spec};
use crate::render::{
    byte_range_text, duration_text, extinf_line, line, shared_tag_text, media_item_text, media_items_text, media_tag_text, playlist_text,
    line_if, playlist_type_text, segment_tag_lines, segment_text,
};
use crate::segment::{DurationV, MediaSegmentV, PendingV, duration_spec, empty_pending, pending_step, segment_of};
use crate::multivariant::playlist::multivariant_tag_spec;
use crate::uri::{UriView, double_slash, parse_spec, render_spec};
use crate::decimal::is_decimal;
use crate::attribute_list::{AttrV, attribute_list_spec, lookup};
use crate::text::{contains_byte, first_at, has_prefix, lemma_ascii_str, split};

verus! {

/// Lines joined, each ended by a line feed.
pub open spec fn joined(ls: Seq<Seq<u8>>) -> Seq<u8>
    decreases ls.len(),
{
    if ls.len() == 0 {
        Seq::empty()
    } else {
        joined(ls.drop_last()) + line(ls.last())
    }
}

/// A line holds no line feed and does not end with a carriage return.
pub open spec fn plain_line(s: Seq<u8>) -> bool {
    &&& forall|i: int| 0 <= i < s.len() ==> s[i] != 0x0a
    &&& !(s.len() > 0 && s.last() == 0x0d)
}

proof fn lemma_joined_one(x: Seq<u8>)
    ensures
        joined(seq![x]) == line(x),
{
    let ls = seq![x];
    assert(ls.drop_last() =~= Seq::<Seq<u8>>::empty());
    assert(joined(ls.drop_last()) == Seq::<u8>::empty());
    assert(ls.last() == x);
    assert(joined(ls) == joined(ls.drop_last()) + line(ls.last()));
    assert(joined(ls) =~= line(x));
}

proof fn lemma_newline()
    ensures
        "\n".spec_bytes() == seq![0x0au8],
{
    reveal_strlit("\n");
    lemma_ascii_str("\n");
    assert("\n".spec_bytes() =~= seq![0x0au8]);
}

proof fn lemma_joined_front(ls: Seq<Seq<u8>>)
    requires
        ls.len() > 0,
    ensures
        joined(ls) == line(ls[0]) + joined(ls.drop_first()),
    decreases ls.len(),
{
    if ls.len() == 1 {
        assert(ls.drop_last() =~= Seq::<Seq<u8>>::empty());
        assert(ls.drop_first() =~= Seq::<Seq<u8>>::empty());
        assert(joined(ls) =~= line(ls[0]) + joined(ls.drop_first()));
    } else {
        lemma_joined_front(ls.drop_last());
        assert(ls.drop_last().drop_first() =~= ls.drop_first().drop_last());
        assert(ls.drop_first().last() == ls.last());
        assert(joined(ls) =~= line(ls[0]) + joined(ls.drop_first()));
    }
}

proof fn lemma_split_line(x: Seq<u8>, rest: Seq<u8>)
    requires
        plain_line(x),
    ensures
        split(line(x) + rest, 0x0a) == seq![x] + split(rest, 0x0a),
{
    lemma_newline();
    let s = line(x) + rest;
    assert(s == x + seq![0x0au8] + rest);
    assert(s[x.len() as int] == 0x0a);
    assert(first_at(s, 0x0a, x.len() as int));
    let i = choose|i: int| first_at(s, 0x0a, i);
    assert(i == x.len()) by {
        if i < x.len() {
            assert(s[i] == x[i]);
        } else if i > x.len() {
            assert(s[x.len() as int] == 0x0a);
        }
    }
    assert(s.subrange(0, i) =~= x);
    assert(s.subrange(i + 1, s.len() as int) =~= rest);
}

proof fn lemma_split_joined(ls: Seq<Seq<u8>>)
    requires
        forall|k: int| 0 <= k < ls.len() ==> plain_line(#[trigger] ls[k]),
    ensures
        split(joined(ls), 0x0a) == ls.push(Seq::<u8>::empty()),
    decreases ls.len(),
{
    if ls.len() == 0 {
        assert(!exists|i: int| first_at(Seq::<u8>::empty(), 0x0a, i));
        assert(split(joined(ls), 0x0a) =~= ls.push(Seq::<u8>::empty()));
    } else {
        lemma_joined_front(ls);
        assert(plain_line(ls[0]));
        lemma_split_line(ls[0], joined(ls.drop_first()));
        assert forall|k: int| 0 <= k < ls.drop_first().len() implies plain_line(#[trigger] ls.drop_first()[k]) by {
            assert(ls.drop_first()[k] == ls[k + 1]);
        }
        lemma_split_joined(ls.drop_first());
        assert(seq![ls[0]] + ls.drop_first().push(Seq::<u8>::empty()) =~= ls.push(Seq::<u8>::empty()));
    }
}

/// The lines of text written as plain lines, each ended by a line feed, are those lines.
pub proof fn lemma_lines_of_joined(ls: Seq<Seq<u8>>)
    requires
        forall|k: int| 0 <= k < ls.len() ==> plain_line(#[trigger] ls[k]),
    ensures
        lines_spec(joined(ls)) == ls,
{
    lemma_split_joined(ls);
    let p = split(joined(ls), 0x0a);
    assert(p.drop_last() =~= ls);
    assert(p.last() =~= Seq::<u8>::empty());
    assert forall|k: int| 0 <= k < ls.len() implies strip_cr(#[trigger] ls[k]) == ls[k] by {
        assert(plain_line(ls[k]));
    }
    assert(p.drop_last().map_values(|l: Seq<u8>| strip_cr(l)) =~= ls);
}


/* The lines of the tags */

/// Server control that reads back from what the writer gives it: a skip boundary, hold backs
/// where given, all unsigned decimals, and neither date-range skipping nor blocking reload (the
/// writer puts those two in forms that are read back otherwise).
pub open spec fn simple_server_control(sc: ServerControlV) -> bool {
    &&& sc.can_skip_until matches Some(x) && is_decimal(x, false)
    &&& sc.can_skip_dateranges is None
    &&& !sc.can_block_reload
    &&& (sc.hold_back matches Some(y) ==> is_decimal(y, false))
    &&& (sc.part_hold_back matches Some(z) ==> is_decimal(z, false))
}

/// The tags this reading back is proved for: target durations of at least one second, media
/// and discontinuity sequence numbers, the end of the list, the playlist type, the
/// I-frames-only tag, partial segment information whose part target is an unsigned decimal,
/// and server control as `simple_server_control` describes it.
pub open spec fn is_simple_media_tag(t: MediaTagV) -> bool {
    match t {
        MediaTagV::TargetDuration(d) => d >= 1,
        MediaTagV::PartInf { part_target } => is_decimal(part_target, false),
        MediaTagV::ServerControl(sc) => simple_server_control(sc),
        _ => true,
    }
}

/// The tag name of a simple tag's line, up to its value.
pub open spec fn simple_prefix(t: MediaTagV) -> Seq<u8> {
    match t {
        MediaTagV::TargetDuration(_) => "#EXT-X-TARGETDURATION:".spec_bytes(),
        MediaTagV::MediaSequence(_) => "#EXT-X-MEDIA-SEQUENCE:".spec_bytes(),
        MediaTagV::DiscontinuitySequence(_) => "#EXT-X-DISCONTINUITY-SEQUENCE:".spec_bytes(),
        MediaTagV::EndList => "#EXT-X-ENDLIST".spec_bytes(),
        MediaTagV::PlaylistType(_) => "#EXT-X-PLAYLIST-TYPE:".spec_bytes(),
        MediaTagV::PartInf { .. } => "#EXT-X-PART-INF:PART-TARGET=".spec_bytes(),
        MediaTagV::ServerControl(_) => "#EXT-X-SERVER-CONTROL:CAN-SKIP-UNTIL=".spec_bytes(),
        _ => "#EXT-X-I-FRAMES-ONLY".spec_bytes(),
    }
}

/// The value of a simple tag's line, after its name.
pub open spec fn simple_rest(t: MediaTagV) -> Seq<u8> {
    match t {
        MediaTagV::TargetDuration(d) => dec_digits(d as nat),
        MediaTagV::MediaSequence(n) => dec_digits(n as nat),
        MediaTagV::DiscontinuitySequence(n) => dec_digits(n as nat),
        MediaTagV::PlaylistType(p) => playlist_type_text(p),
        MediaTagV::PartInf { part_target } => part_target,
        MediaTagV::ServerControl(sc) => server_control_rest(sc),
        _ => Seq::empty(),
    }
}

/// The byte at a line's index `k` differs from that of `p`: the line does not start with `p`.
proof fn lemma_differs(x: Seq<u8>, p: Seq<u8>, k: int)
    requires
        0 <= k < p.len(),
        k < x.len(),
        x[k] != p[k],
    ensures
        !has_prefix(x, p),
        x != p,
{
    if has_prefix(x, p) {
        assert(x.subrange(0, p.len() as int)[k] == x[k]);
    }
}

proof fn lemma_prefix(t: MediaTagV)
    requires
        is_simple_media_tag(t),
    ensures
        simple_prefix(t).len() > 13,
        simple_prefix(t).subrange(0, 4) == "#EXT".spec_bytes(),
        forall|i: int| 0 <= i < simple_prefix(t).len() ==> #[trigger] simple_prefix(t)[i] != 0x0a,
        simple_prefix(t).last() != 0x0d,
        simple_prefix(t)[7] == (match t {
            MediaTagV::TargetDuration(_) => 0x54u8,
            MediaTagV::MediaSequence(_) => 0x4du8,
            MediaTagV::DiscontinuitySequence(_) => 0x44u8,
            MediaTagV::EndList => 0x45u8,
            MediaTagV::PlaylistType(_) => 0x50u8,
            MediaTagV::PartInf { .. } => 0x50u8,
            MediaTagV::ServerControl(_) => 0x53u8,
            _ => 0x49u8,
        }),
        simple_prefix(t)[8] == (match t {
            MediaTagV::TargetDuration(_) => 0x41u8,
            MediaTagV::MediaSequence(_) => 0x45u8,
            MediaTagV::DiscontinuitySequence(_) => 0x49u8,
            MediaTagV::EndList => 0x4eu8,
            MediaTagV::PlaylistType(_) => 0x4cu8,
            MediaTagV::PartInf { .. } => 0x41u8,
            MediaTagV::ServerControl(_) => 0x45u8,
            _ => 0x2du8,
        }),
{
    reveal_strlit("#EXT");
    lemma_ascii_str("#EXT");
    match t {
        MediaTagV::TargetDuration(_) => {
            reveal_strlit("#EXT-X-TARGETDURATION:");
            lemma_ascii_str("#EXT-X-TARGETDURATION:");
        },
        MediaTagV::MediaSequence(_) => {
            reveal_strlit("#EXT-X-MEDIA-SEQUENCE:");
            lemma_ascii_str("#EXT-X-MEDIA-SEQUENCE:");
        },
        MediaTagV::DiscontinuitySequence(_) => {
            reveal_strlit("#EXT-X-DISCONTINUITY-SEQUENCE:");
            lemma_ascii_str("#EXT-X-DISCONTINUITY-SEQUENCE:");
        },
        MediaTagV::EndList => {
            reveal_strlit("#EXT-X-ENDLIST");
            lemma_ascii_str("#EXT-X-ENDLIST");
        },
        MediaTagV::PlaylistType(_) => {
            reveal_strlit("#EXT-X-PLAYLIST-TYPE:");
            lemma_ascii_str("#EXT-X-PLAYLIST-TYPE:");
        },
        MediaTagV::PartInf { .. } => {
            reveal_strlit("#EXT-X-PART-INF:PART-TARGET=");
            lemma_ascii_str("#EXT-X-PART-INF:PART-TARGET=");
        },
        MediaTagV::ServerControl(_) => {
            reveal_strlit("#EXT-X-SERVER-CONTROL:CAN-SKIP-UNTIL=");
            lemma_ascii_str("#EXT-X-SERVER-CONTROL:CAN-SKIP-UNTIL=");
        },
        _ => {
            reveal_strlit("#EXT-X-I-FRAMES-ONLY");
            lemma_ascii_str("#EXT-X-I-FRAMES-ONLY");
        },
    }
    assert(simple_prefix(t).subrange(0, 4) =~= "#EXT".spec_bytes());
}

proof fn lemma_rest(t: MediaTagV)
    requires
        is_simple_media_tag(t),
    ensures
        media_tag_text(t) == simple_prefix(t) + simple_rest(t),
        forall|i: int| 0 <= i < simple_rest(t).len() ==> #[trigger] simple_rest(t)[i] != 0x0a,
        simple_rest(t).len() == 0 || simple_rest(t).last() != 0x0d,
{
    match t {
        MediaTagV::TargetDuration(n) | MediaTagV::MediaSequence(n) | MediaTagV::DiscontinuitySequence(n) => {
            lemma_dec_digits(n as nat);
            assert forall|i: int| 0 <= i < simple_rest(t).len() implies #[trigger] simple_rest(t)[i] != 0x0a by {
                assert(crate::num::digit_value(dec_digits(n as nat)[i], false) is Some);
            }
            assert(crate::num::digit_value(simple_rest(t).last(), false) is Some);
        },
        MediaTagV::PlaylistType(_) => {
            reveal_strlit("VOD");
            reveal_strlit("EVENT");
            lemma_ascii_str("VOD");
            lemma_ascii_str("EVENT");
        },
        MediaTagV::PartInf { part_target } => {
            lemma_unsigned_decimal_bytes(part_target);
        },
        MediaTagV::ServerControl(sc) => {
            lemma_server_control_rest(sc);
        },
        _ => {
            assert(media_tag_text(t) =~= simple_prefix(t) + simple_rest(t));
        },
    }
}

/// The facts about the text of a simple tag that reading it back needs: a plain line that
/// starts with `#EXT` and goes on as its tag name.
proof fn lemma_simple_tag_text(t: MediaTagV)
    requires
        is_simple_media_tag(t),
    ensures
        plain_line(media_tag_text(t)),
        has_prefix(media_tag_text(t), simple_prefix(t)),
        after(media_tag_text(t), simple_prefix(t)) == simple_rest(t),
        media_tag_text(t).len() > 13,
        media_tag_text(t)[0] == 0x23,
        has_prefix(media_tag_text(t), "#EXT".spec_bytes()),
        media_tag_text(t)[7] == simple_prefix(t)[7],
        media_tag_text(t)[8] == simple_prefix(t)[8],
{
    lemma_prefix(t);
    lemma_rest(t);
    reveal_strlit("#EXT");
    lemma_ascii_str("#EXT");
    let p = simple_prefix(t);
    let r = simple_rest(t);
    let x = p + r;
    assert(x.subrange(0, p.len() as int) =~= p);
    assert(after(x, p) =~= r);
    assert(x[0] == p.subrange(0, 4)[0]);
    assert(x.subrange(0, 4) =~= p.subrange(0, 4));
    assert forall|i: int| 0 <= i < x.len() implies x[i] != 0x0a by {
        if i >= p.len() {
            assert(x[i] == r[i - p.len()]);
        }
    }
    if r.len() > 0 {
        assert(x.last() == r.last());
    } else {
        assert(x.last() == p.last());
    }
}

proof fn lemma_discontinuity_sequence_parse(n: u64)
    ensures
        media_tag_spec(media_tag_text(MediaTagV::DiscontinuitySequence(n))) == Ok::<MediaTagV, PErr>(
            MediaTagV::DiscontinuitySequence(n),
        ),
{
    let t = MediaTagV::DiscontinuitySequence(n);
    lemma_simple_tag_text(t);
    lemma_prefix(t);
    lemma_prefix(MediaTagV::TargetDuration(1));
    lemma_prefix(MediaTagV::MediaSequence(0));
    let x = media_tag_text(t);
    lemma_differs(x, simple_prefix(MediaTagV::TargetDuration(1)), 7);
    lemma_differs(x, simple_prefix(MediaTagV::MediaSequence(0)), 7);
    lemma_dec_digits(n as nat);
    assert(crate::num::digit_value(dec_digits(n as nat)[0], false) is Some);
    crate::num::lemma_fold_digits_value(dec_digits(n as nat), false, u64::MAX as nat);
    reveal(media_tag_spec);
}

/// A line that starts with none of the first tag names that the media tags are tried by.
proof fn lemma_not_numbered(t: MediaTagV)
    requires
        is_simple_media_tag(t),
        t is EndList || t is PlaylistType || t is IFramesOnly,
    ensures
        !has_prefix(media_tag_text(t), "#EXT-X-TARGETDURATION:".spec_bytes()),
        !has_prefix(media_tag_text(t), "#EXT-X-MEDIA-SEQUENCE:".spec_bytes()),
        !has_prefix(media_tag_text(t), "#EXT-X-DISCONTINUITY-SEQUENCE:".spec_bytes()),
        !(t is EndList) ==> !has_prefix(media_tag_text(t), "#EXT-X-ENDLIST".spec_bytes()),
        t is IFramesOnly ==> !has_prefix(media_tag_text(t), "#EXT-X-PLAYLIST-TYPE:".spec_bytes()),
{
    lemma_simple_tag_text(t);
    lemma_prefix(t);
    lemma_prefix(MediaTagV::TargetDuration(1));
    lemma_prefix(MediaTagV::MediaSequence(0));
    lemma_prefix(MediaTagV::DiscontinuitySequence(0));
    lemma_prefix(MediaTagV::EndList);
    lemma_prefix(MediaTagV::PlaylistType(crate::media::PlayListType::Vod));
    let x = media_tag_text(t);
    lemma_differs(x, simple_prefix(MediaTagV::TargetDuration(1)), 7);
    lemma_differs(x, simple_prefix(MediaTagV::MediaSequence(0)), 7);
    lemma_differs(x, simple_prefix(MediaTagV::DiscontinuitySequence(0)), 7);
    if !(t is EndList) {
        lemma_differs(x, simple_prefix(MediaTagV::EndList), 7);
    }
    if t is IFramesOnly {
        lemma_differs(x, simple_prefix(MediaTagV::PlaylistType(crate::media::PlayListType::Vod)), 7);
    }
}

/// A simple tag's line is read as that tag.
proof fn lemma_simple_tag_parse(t: MediaTagV)
    requires
        is_simple_media_tag(t),
    ensures
        media_tag_spec(media_tag_text(t)) == Ok::<MediaTagV, PErr>(t),
{
    match t {
        MediaTagV::TargetDuration(d) => crate::render::law_target_duration_round_trip(d),
        MediaTagV::MediaSequence(m) => crate::render::law_media_sequence_round_trip(m),
        MediaTagV::DiscontinuitySequence(n) => lemma_discontinuity_sequence_parse(n),
        MediaTagV::PlaylistType(p) => lemma_playlist_type_parse(p),
        MediaTagV::PartInf { part_target } => lemma_part_inf_parse(part_target),
        MediaTagV::ServerControl(sc) => lemma_server_control_parse(sc),
        MediaTagV::EndList => lemma_end_list_parse(),
        _ => lemma_i_frames_only_parse(),
    }
}

proof fn lemma_playlist_type_parse(p: crate::media::PlayListType)
    ensures
        media_tag_spec(media_tag_text(MediaTagV::PlaylistType(p))) == Ok::<MediaTagV, PErr>(MediaTagV::PlaylistType(p)),
{
    let t = MediaTagV::PlaylistType(p);
    lemma_not_numbered(t);
    lemma_simple_tag_text(t);
    let x = media_tag_text(t);
    assert(has_prefix(x, "#EXT-X-PLAYLIST-TYPE:".spec_bytes()));
    reveal_strlit("VOD");
    reveal_strlit("EVENT");
    lemma_ascii_str("VOD");
    lemma_ascii_str("EVENT");
    assert("VOD".spec_bytes().len() != "EVENT".spec_bytes().len());
    assert(crate::media::playlist_type_spec(playlist_type_text(p)) == Ok::<crate::media::PlayListType, PErr>(p));
    reveal(media_tag_spec);
}

proof fn lemma_end_list_parse()
    ensures
        media_tag_spec(media_tag_text(MediaTagV::EndList)) == Ok::<MediaTagV, PErr>(MediaTagV::EndList),
{
    let t = MediaTagV::EndList;
    lemma_not_numbered(t);
    lemma_simple_tag_text(t);
    assert(has_prefix(media_tag_text(t), "#EXT-X-ENDLIST".spec_bytes()));
    reveal(media_tag_spec);
}

proof fn lemma_i_frames_only_parse()
    ensures
        media_tag_spec(media_tag_text(MediaTagV::IFramesOnly)) == Ok::<MediaTagV, PErr>(MediaTagV::IFramesOnly),
{
    let t = MediaTagV::IFramesOnly;
    lemma_not_numbered(t);
    lemma_simple_tag_text(t);
    assert(has_prefix(media_tag_text(t), "#EXT-X-I-FRAMES-ONLY".spec_bytes()));
    reveal(media_tag_spec);
}

proof fn lemma_shared_prefixes()
    ensures
        "#EXT-X-VERSION:".spec_bytes().len() > 8 && "#EXT-X-VERSION:".spec_bytes()[7] == 0x56,
        "#EXT-X-INDEPENDENT-SEGMENTS".spec_bytes().len() > 8 && "#EXT-X-INDEPENDENT-SEGMENTS".spec_bytes()[8] == 0x4e,
        "#EXT-X-START:".spec_bytes().len() > 8 && "#EXT-X-START:".spec_bytes()[7] == 0x53,
        "#EXT-X-DEFINE:".spec_bytes().len() > 8 && "#EXT-X-DEFINE:".spec_bytes()[8] == 0x45,
        "#EXT-X-INDEPENDENT-SEGMENTS".spec_bytes()[7] == 0x49,
        "#EXT-X-DEFINE:".spec_bytes()[7] == 0x44,
{
    reveal_strlit("#EXT-X-VERSION:");
    reveal_strlit("#EXT-X-INDEPENDENT-SEGMENTS");
    reveal_strlit("#EXT-X-START:");
    reveal_strlit("#EXT-X-DEFINE:");
    lemma_ascii_str("#EXT-X-VERSION:");
    lemma_ascii_str("#EXT-X-INDEPENDENT-SEGMENTS");
    lemma_ascii_str("#EXT-X-START:");
    lemma_ascii_str("#EXT-X-DEFINE:");
}

proof fn lemma_header_line()
    ensures
        plain_line("#EXTM3U".spec_bytes()),
{
    reveal_strlit("#EXTM3U");
    lemma_ascii_str("#EXTM3U");
}

/// What a simple tag's line is read as: the tag; a media sequence number sets the number in
/// force.
proof fn lemma_simple_tag_kind(c: ContextV, t: MediaTagV, n: nat)
    requires
        is_simple_media_tag(t),
        n != 1,
    ensures
        line_kind_spec(c, media_tag_text(t), n) == (
            match t {
                MediaTagV::MediaSequence(ms) => ContextV { media_sequence: ms, ..c },
                _ => c,
            },
            Ok::<ParsedLineV, PErr>(ParsedLineV::MediaTag(t)),
        ),
{
    lemma_simple_tag_text(t);
    lemma_prefix(t);
    lemma_shared_prefixes();
    reveal(shared_tag_spec);
    let x = media_tag_text(t);
    lemma_differs(x, "#EXT-X-VERSION:".spec_bytes(), 7);
    if x[7] == 0x53 {
        reveal_strlit("#EXT-X-START:");
        lemma_ascii_str("#EXT-X-START:");
        lemma_differs(x, "#EXT-X-START:".spec_bytes(), 8);
    } else {
        lemma_differs(x, "#EXT-X-START:".spec_bytes(), 7);
    }
    if x[7] == 0x49 {
        lemma_differs(x, "#EXT-X-INDEPENDENT-SEGMENTS".spec_bytes(), 8);
    } else {
        lemma_differs(x, "#EXT-X-INDEPENDENT-SEGMENTS".spec_bytes(), 7);
    }
    if x[7] == 0x44 {
        lemma_differs(x, "#EXT-X-DEFINE:".spec_bytes(), 8);
    } else {
        lemma_differs(x, "#EXT-X-DEFINE:".spec_bytes(), 7);
    }
    assert(shared_tag_spec(x, 0) is Err);
    lemma_simple_tag_parse(t);
}

/* Shared tags */

proof fn lemma_version_prefix()
    ensures
        "#EXT-X-VERSION:".spec_bytes().len() == 15,
        "#EXT-X-VERSION:".spec_bytes()[0] == 0x23,
        "#EXT-X-VERSION:".spec_bytes()[7] == 0x56,
        "#EXT-X-VERSION:".spec_bytes().subrange(0, 4) == "#EXT".spec_bytes(),
        forall|i: int| 0 <= i < 15 ==> #[trigger] "#EXT-X-VERSION:".spec_bytes()[i] != 0x0a,
        "#EXT-X-INDEPENDENT-SEGMENTS".spec_bytes().len() == 27,
        "#EXT-X-INDEPENDENT-SEGMENTS".spec_bytes()[0] == 0x23,
        "#EXT-X-INDEPENDENT-SEGMENTS".spec_bytes()[7] == 0x49,
        "#EXT-X-INDEPENDENT-SEGMENTS".spec_bytes().last() == 0x53,
        "#EXT-X-INDEPENDENT-SEGMENTS".spec_bytes().subrange(0, 4) == "#EXT".spec_bytes(),
        forall|i: int| 0 <= i < 27 ==> #[trigger] "#EXT-X-INDEPENDENT-SEGMENTS".spec_bytes()[i] != 0x0a,
{
    reveal_strlit("#EXT-X-VERSION:");
    reveal_strlit("#EXT-X-INDEPENDENT-SEGMENTS");
    reveal_strlit("#EXT");
    lemma_ascii_str("#EXT-X-VERSION:");
    lemma_ascii_str("#EXT-X-INDEPENDENT-SEGMENTS");
    lemma_ascii_str("#EXT");
    assert("#EXT-X-VERSION:".spec_bytes().subrange(0, 4) =~= "#EXT".spec_bytes());
    assert("#EXT-X-INDEPENDENT-SEGMENTS".spec_bytes().subrange(0, 4) =~= "#EXT".spec_bytes());
}

/// A simple shared tag is written as a plain line that starts with `#EXT` and is read as that
/// tag.
proof fn lemma_shared_text(t: SharedTagV)
    requires
        is_simple_shared_tag(t),
    ensures
        plain_line(shared_tag_text(t)),
        shared_tag_text(t).len() > 4,
        shared_tag_text(t)[0] == 0x23,
        has_prefix(shared_tag_text(t), "#EXT".spec_bytes()),
        shared_tag_spec(shared_tag_text(t), 0) == Ok::<SharedTagV, PErr>(t),
{
    lemma_version_prefix();
    let x = shared_tag_text(t);
    match t {
        SharedTagV::Version(v) => {
            let p = "#EXT-X-VERSION:".spec_bytes();
            let d = dec_digits(v as nat);
            lemma_dec_digits(v as nat);
            assert(x == p + d);
            assert(x[0] == p[0]);
            assert(x.subrange(0, 4) =~= p.subrange(0, 4));
            assert forall|i: int| 0 <= i < x.len() implies x[i] != 0x0a by {
                if i >= 15 {
                    assert(x[i] == d[i - 15]);
                    assert(crate::num::digit_value(d[i - 15], false) is Some);
                }
            }
            assert(x.last() == d.last());
            assert(crate::num::digit_value(d.last(), false) is Some);
            crate::render::law_version_tag_round_trip(v, 0);
        },
        SharedTagV::Start { precise, time_offset } => {
            lemma_start_line(time_offset);
        },
        _ => {
            lemma_differs(x, "#EXT-X-VERSION:".spec_bytes(), 7);
            reveal(shared_tag_spec);
        },
    }
}

/// The line of a start tag that is not precise: a plain line that starts with `#EXT`, read as
/// that tag.
proof fn lemma_start_line(t: Seq<u8>)
    requires
        is_decimal(t, true),
    ensures
        plain_line(shared_tag_text(SharedTagV::Start { precise: false, time_offset: t })),
        shared_tag_text(SharedTagV::Start { precise: false, time_offset: t }).len() > 4,
        shared_tag_text(SharedTagV::Start { precise: false, time_offset: t })[0] == 0x23,
        has_prefix(shared_tag_text(SharedTagV::Start { precise: false, time_offset: t }), "#EXT".spec_bytes()),
        shared_tag_spec(shared_tag_text(SharedTagV::Start { precise: false, time_offset: t }), 0) == Ok::<
            SharedTagV,
            PErr,
        >(SharedTagV::Start { precise: false, time_offset: t }),
{
    lemma_start_round_trip(t, 0);
    let x = shared_tag_text(SharedTagV::Start { precise: false, time_offset: t });
    let p = "#EXT-X-START:PRECISE=".spec_bytes();
    let f = "false".spec_bytes();
    let q = ",TIME-OFFSET=".spec_bytes();
    assert(x == p + f + q + t);
    assert(p.len() == 21 && q.len() == 13 && p[0] == 0x23 && p.subrange(0, 4) == "#EXT".spec_bytes()
        && (forall|k: int| 0 <= k < 21 ==> #[trigger] p[k] != 0x0a) && (forall|k: int| 0 <= k < 13 ==> #[trigger] q[k] != 0x0a)) by {
        reveal_strlit("#EXT-X-START:PRECISE=");
        reveal_strlit(",TIME-OFFSET=");
        reveal_strlit("#EXT");
        lemma_ascii_str("#EXT-X-START:PRECISE=");
        lemma_ascii_str(",TIME-OFFSET=");
        lemma_ascii_str("#EXT");
        assert(p.subrange(0, 4) =~= "#EXT".spec_bytes());
    }
    lemma_start_literals();
    lemma_decimal_bytes(t);
    assert(x[0] == p[0]);
    assert(x.subrange(0, 4) =~= p.subrange(0, 4));
    assert forall|i: int| 0 <= i < x.len() implies x[i] != 0x0a by {
        if i < 21 {
            assert(x[i] == p[i]);
        } else if i < 26 {
            assert(x[i] == f[i - 21]);
        } else if i < 39 {
            assert(x[i] == q[i - 26]);
        } else {
            assert(x[i] == t[i - 39]);
        }
    }
    assert(x.last() == t[t.len() - 1]);
}

/// What a simple shared tag's line is read as: that tag.
proof fn lemma_shared_kind(c: ContextV, t: SharedTagV, n: nat)
    requires
        is_simple_shared_tag(t),
        n != 1,
    ensures
        line_kind_spec(c, shared_tag_text(t), n) == (c, Ok::<ParsedLineV, PErr>(ParsedLineV::SharedTag(t))),
{
    lemma_shared_text(t);
}

/* Segments */

/// A path that reads back as itself: not empty, not starting with `//`, and without `:`, `?`,
/// `#`, line feeds or carriage returns.
pub open spec fn is_plain_path(p: Seq<u8>) -> bool {
    &&& p.len() > 0
    &&& !has_prefix(p, double_slash())
    &&& forall|i: int|
        0 <= i < p.len() ==> #[trigger] p[i] != 0x3a && p[i] != 0x3f && p[i] != 0x23 && p[i] != 0x0a && p[i] != 0x0d
}

/// Bytes of a URI's scheme or authority: none of `/`, `?`, `#`, line feeds or carriage
/// returns, and no `:` where `colon` is false.
pub open spec fn plain_part(p: Seq<u8>, colon: bool) -> bool {
    forall|i: int|
        0 <= i < p.len() ==> #[trigger] p[i] != 0x2f && p[i] != 0x3f && p[i] != 0x23 && p[i] != 0x0a && p[i] != 0x0d
            && (colon || p[i] != 0x3a)
}

/// A query, where there is one, without `#`, line feeds or carriage returns, and without `:`
/// where `colon` is false.
pub open spec fn plain_query(q: Option<Seq<u8>>, colon: bool) -> bool {
    match q {
        Some(x) => forall|i: int|
            0 <= i < x.len() ==> #[trigger] x[i] != 0x23 && x[i] != 0x0a && x[i] != 0x0d && (colon || x[i] != 0x3a),
        None => true,
    }
}

/// `?` and the query, where there is one.
pub open spec fn query_text(q: Option<Seq<u8>>) -> Seq<u8> {
    match q {
        Some(x) => seq![0x3fu8] + x,
        None => Seq::empty(),
    }
}

/// A URI that reads back as itself, without a fragment: a plain path and a query without `:`;
/// or a scheme, an authority, and a path that is empty or a `/` and more, without `?`, `#`,
/// line feeds or carriage returns, with a query (after a path that is not empty).
pub open spec fn is_simple_uri(u: UriView) -> bool {
    &&& u.fragment is None
    &&& {
        ||| {
            &&& u.scheme.len() == 0
            &&& u.authority is None
            &&& is_plain_path(u.path)
            &&& plain_query(u.query, false)
        }
        ||| {
            &&& u.scheme.len() > 0
            &&& plain_part(u.scheme, false)
            &&& u.authority matches Some(a) && a.len() > 0 && plain_part(a, true)
            &&& (u.path.len() == 0 || (u.path.len() > 1 && u.path[0] == 0x2f))
            &&& forall|i: int|
                0 <= i < u.path.len() ==> #[trigger] u.path[i] != 0x3f && u.path[i] != 0x23 && u.path[i] != 0x0a
                    && u.path[i] != 0x0d
            &&& plain_query(u.query, true)
            &&& (u.path.len() == 0 ==> u.query is None)
        }
    }
}

/// A duration that reads back as itself: a whole number, or a decimal number written with a
/// `.`.
pub open spec fn is_simple_duration(d: DurationV) -> bool {
    match d {
        DurationV::Int(_) => true,
        DurationV::Float(t) => is_decimal(t, true) && contains_byte(t, 0x2e),
    }
}

/// The text of a duration.
pub open spec fn duration_value_text(d: DurationV) -> Seq<u8> {
    match d {
        DurationV::Int(n) => dec_digits(n as nat),
        DurationV::Float(t) => t,
    }
}

/// The segments this reading back is proved for: a duration that reads back as itself, a
/// title that is a plain line, a URI that reads back as itself, a byte range, discontinuity, gap
/// and bitrate where the segment has them, and no key, map, date or partial segment.
pub open spec fn is_simple_segment(s: MediaSegmentV) -> bool {
    &&& is_simple_duration(s.duration)
    &&& (s.title matches Some(t) ==> plain_line(t))
    &&& is_simple_uri(s.uri)
    &&& s.key is None
    &&& s.map is None
    &&& s.program_date_time is None
    &&& s.part is None
}

/// The line `t` where `o` holds, else none.
pub open spec fn opt_line(o: bool, t: Seq<u8>) -> Seq<Seq<u8>> {
    if o {
        seq![t]
    } else {
        Seq::empty()
    }
}

/// `#EXT-X-BITRATE:` and the number.
pub open spec fn bitrate_text(b: u64) -> Seq<u8> {
    "#EXT-X-BITRATE:".spec_bytes() + dec_digits(b as nat)
}

/// The lines of a simple segment's tags: byte range, discontinuity, gap and bitrate, each
/// where the segment has it.
pub open spec fn segment_tag_seq(s: MediaSegmentV) -> Seq<Seq<u8>> {
    opt_line(s.byte_range is Some, byte_range_text(s.byte_range->0)) + opt_line(
        s.discontinuity,
        "#EXT-X-DISCONTINUITY".spec_bytes(),
    ) + opt_line(s.gap, "#EXT-X-GAP".spec_bytes()) + opt_line(s.bitrate is Some, bitrate_text(s.bitrate->0))
}

/// The shared tags this reading back is proved for in a playlist: the version, the independent
/// segments tag, and a start that is not precise with a signed decimal offset.
pub open spec fn is_simple_shared_tag(t: SharedTagV) -> bool {
    match t {
        SharedTagV::Version(_) | SharedTagV::IndependentSegments => true,
        SharedTagV::Start { precise, time_offset } => !precise && is_decimal(time_offset, true),
        _ => false,
    }
}

/// The items this reading back is proved for: simple shared tags, simple media tags and simple
/// segments.
pub open spec fn is_simple_item(i: MediaItemV) -> bool {
    match i {
        MediaItemV::SharedTag(t) => is_simple_shared_tag(t),
        MediaItemV::ExclusiveTag(t) => is_simple_media_tag(t),
        MediaItemV::MediaSegment(s) => is_simple_segment(s),
        _ => false,
    }
}

/// Every item is simple.
pub open spec fn all_simple(items: Seq<MediaItemV>) -> bool {
    forall|k: int| 0 <= k < items.len() ==> is_simple_item(#[trigger] items[k])
}

/// The `EXTINF` line of a segment, without its line feed.
pub open spec fn extinf_text(s: MediaSegmentV) -> Seq<u8> {
    duration_text(s.duration) + match s.title {
        Some(t) => ",".spec_bytes() + t,
        None => Seq::empty(),
    }
}

/// The lines a simple item is written as.
pub open spec fn item_lines(i: MediaItemV) -> Seq<Seq<u8>> {
    match i {
        MediaItemV::MediaSegment(s) => seq![extinf_text(s)] + segment_tag_seq(s) + seq![render_spec(s.uri)],
        MediaItemV::ExclusiveTag(t) => seq![media_tag_text(t)],
        MediaItemV::SharedTag(t) => seq![shared_tag_text(t)],
        _ => Seq::empty(),
    }
}

/// The lines simple items are written as.
pub open spec fn all_lines(items: Seq<MediaItemV>) -> Seq<Seq<u8>>
    decreases items.len(),
{
    if items.len() == 0 {
        Seq::empty()
    } else {
        all_lines(items.drop_last()) + item_lines(items.last())
    }
}

proof fn lemma_joined_concat(a: Seq<Seq<u8>>, b: Seq<Seq<u8>>)
    ensures
        joined(a + b) == joined(a) + joined(b),
    decreases b.len(),
{
    if b.len() == 0 {
        assert(a + b =~= a);
        assert(joined(a) + joined(b) =~= joined(a));
    } else {
        lemma_joined_concat(a, b.drop_last());
        assert((a + b).drop_last() =~= a + b.drop_last());
        assert((a + b).last() == b.last());
        assert(joined(a + b) =~= joined(a) + joined(b));
    }
}

proof fn lemma_all_lines_concat(a: Seq<MediaItemV>, b: Seq<MediaItemV>)
    ensures
        all_lines(a + b) == all_lines(a) + all_lines(b),
    decreases b.len(),
{
    if b.len() == 0 {
        assert(a + b =~= a);
        assert(all_lines(a) + all_lines(b) =~= all_lines(a));
    } else {
        lemma_all_lines_concat(a, b.drop_last());
        assert((a + b).drop_last() =~= a + b.drop_last());
        assert((a + b).last() == b.last());
        assert(all_lines(a + b) =~= all_lines(a) + all_lines(b));
    }
}

/// The path, query and fragment of a path without `?` and `#` and a query.
proof fn lemma_path_query(p: Seq<u8>, q: Option<Seq<u8>>)
    requires
        forall|i: int| 0 <= i < p.len() ==> #[trigger] p[i] != 0x3f && p[i] != 0x23,
        plain_query(q, true),
    ensures
        crate::uri::split_path_query_fragment(p + query_text(q)) == (p, q, None::<Seq<u8>>),
{
    let x = p + query_text(q);
    match q {
        Some(v) => {
            assert(x[p.len() as int] == 0x3f);
            assert(crate::text::first_of2(x, 0x3f, 0x23, p.len() as int)) by {
                assert forall|j: int| 0 <= j < p.len() implies x[j] != 0x3f && x[j] != 0x23 by {
                    assert(x[j] == p[j]);
                }
            }
            let e = choose|i: int| crate::text::first_of2(x, 0x3f, 0x23, i);
            assert(e == p.len()) by {
                if e < p.len() {
                    assert(x[e] == p[e]);
                } else if e > p.len() {
                    assert(x[p.len() as int] == 0x3f);
                }
            }
            assert(x.subrange(0, e) =~= p);
            let rest = x.subrange(e, x.len() as int);
            assert(rest =~= seq![0x3fu8] + v);
            assert(rest.drop_first() =~= v);
            assert(!exists|i: int| first_at(v, 0x23, i));
        },
        None => {
            assert(x =~= p);
            assert(!exists|i: int| crate::text::first_of2(p, 0x3f, 0x23, i));
            assert(p.subrange(0, p.len() as int) =~= p);
            assert(p.subrange(p.len() as int, p.len() as int) =~= Seq::<u8>::empty());
        },
    }
}

/// An authority and what follows it: the authority, then the path and query as read.
proof fn lemma_authority_rest(u: UriView)
    requires
        is_simple_uri(u),
        u.scheme.len() > 0,
    ensures
        crate::uri::with_authority_spec(u.scheme, u.authority->0 + u.path + query_text(u.query)) == u,
{
    let sc = u.scheme;
    let a = u.authority->0;
    let pa = u.path;
    let qt = query_text(u.query);
    let ap = a + pa + qt;
    assert forall|j: int| 0 <= j < a.len() implies ap[j] != 0x2f by {
        assert(ap[j] == a[j]);
    }
    if pa.len() == 0 {
        assert(ap =~= a);
        assert(!exists|j: int| first_at(ap, 0x2f, j));
        assert(crate::text::split_once(ap, 0x2f) is None);
        lemma_path_query(Seq::<u8>::empty(), None);
        assert(Seq::<u8>::empty() + query_text(None) =~= Seq::<u8>::empty());
        assert(pa =~= Seq::<u8>::empty());
    } else {
        assert(ap[a.len() as int] == 0x2f);
        assert(first_at(ap, 0x2f, a.len() as int));
        let j = choose|j: int| first_at(ap, 0x2f, j);
        assert(j == a.len()) by {
            if j < a.len() {
                assert(ap[j] == a[j]);
            } else if j > a.len() {
                assert(ap[a.len() as int] == 0x2f);
            }
        }
        assert(ap.subrange(0, j) =~= a);
        let p2 = pa.drop_first();
        assert(ap.subrange(j + 1, ap.len() as int) =~= p2 + qt);
        assert forall|q: int| 0 <= q < p2.len() implies #[trigger] p2[q] != 0x3f && p2[q] != 0x23 by {
            assert(p2[q] == pa[q + 1]);
        }
        lemma_path_query(p2, u.query);
        assert(crate::text::split_once(ap, 0x2f) == Some((a, p2 + qt)));
        assert(p2.len() > 0);
        assert(seq![0x2fu8] + p2 =~= pa);
    }
}

/// A URI with a scheme and an authority is written as `scheme://authority`, its path and its
/// query, and read back as that URI.
proof fn lemma_authority_uri(u: UriView)
    requires
        is_simple_uri(u),
        u.scheme.len() > 0,
    ensures
        parse_spec(render_spec(u)) == u,
{
    let sc = u.scheme;
    let a = u.authority->0;
    let ap = a + u.path + query_text(u.query);
    let r = render_spec(u);
    let rest = double_slash() + ap;
    assert(r =~= sc + seq![0x3au8] + rest);
    assert(r[sc.len() as int] == 0x3a);
    assert(first_at(r, 0x3a, sc.len() as int)) by {
        assert forall|j: int| 0 <= j < sc.len() implies r[j] != 0x3a by {
            assert(r[j] == sc[j]);
        }
    }
    let i = choose|i: int| first_at(r, 0x3a, i);
    assert(i == sc.len()) by {
        if i < sc.len() {
            assert(r[i] == sc[i]);
        } else if i > sc.len() {
            assert(r[sc.len() as int] == 0x3a);
        }
    }
    assert(r.subrange(0, i) =~= sc);
    assert(r.subrange(i + 1, r.len() as int) =~= rest);
    assert(crate::text::split_once(r, 0x3a) == Some((sc, rest)));
    assert(r[0] == sc[0]);
    assert(!has_prefix(r, double_slash())) by {
        if has_prefix(r, double_slash()) {
            assert(r.subrange(0, 2)[0] == r[0]);
        }
    }
    assert(rest.subrange(0, 2) =~= double_slash());
    assert(rest.subrange(2, rest.len() as int) =~= ap);
    assert(has_prefix(rest, double_slash()));
    lemma_authority_rest(u);
}

/// The text of a URI with a scheme and an authority is a plain line that starts with no `#`.
proof fn lemma_authority_line(u: UriView)
    requires
        is_simple_uri(u),
        u.scheme.len() > 0,
    ensures
        plain_line(render_spec(u)),
        render_spec(u).len() > 0,
        render_spec(u)[0] != 0x23,
{
    let sc = u.scheme;
    let a = u.authority->0;
    let pa = u.path;
    let r = render_spec(u);
    assert(r =~= sc + seq![0x3au8] + double_slash() + a + pa + query_text(u.query));
    assert(r[0] == sc[0]);
    assert forall|q: int| 0 <= q < r.len() implies r[q] != 0x0a by {
        if q < sc.len() {
            assert(r[q] == sc[q]);
        } else if q >= sc.len() + 3 && q < sc.len() + 3 + a.len() {
            assert(r[q] == a[q - sc.len() - 3]);
        } else if q >= sc.len() + 3 + a.len() && q < sc.len() + 3 + a.len() + pa.len() {
            assert(r[q] == pa[q - sc.len() - 3 - a.len()]);
        } else if q > sc.len() + 3 + a.len() + pa.len() {
            assert(r[q] == u.query->0[q - sc.len() - 4 - a.len() - pa.len()]);
        }
    }
    if u.query is Some && u.query->0.len() > 0 {
        assert(r.last() == u.query->0.last());
    } else if u.query is Some {
        assert(r.last() == 0x3f);
    } else if pa.len() > 0 {
        assert(r.last() == pa.last());
    } else {
        assert(r.last() == a.last());
    }
}

/// A URI that reads back as itself is written as a plain line that starts with no `#`, and
/// read back as that URI.
proof fn lemma_simple_uri(u: UriView)
    requires
        is_simple_uri(u),
    ensures
        parse_spec(render_spec(u)) == u,
        plain_line(render_spec(u)),
        render_spec(u).len() > 0,
        render_spec(u)[0] != 0x23,
{
    if u.scheme.len() == 0 {
        lemma_path_uri(u);
    } else {
        lemma_authority_uri(u);
        lemma_authority_line(u);
    }
}

/// The URI that is a plain path and a query is written as the path and the query, and read
/// back as that URI.
proof fn lemma_path_uri(u: UriView)
    requires
        is_simple_uri(u),
        u.scheme.len() == 0,
    ensures
        parse_spec(render_spec(u)) == u,
        plain_line(render_spec(u)),
        render_spec(u).len() > 0,
        render_spec(u)[0] != 0x23,
{
    let p = u.path;
    let qt = query_text(u.query);
    let r = render_spec(u);
    assert(r =~= p + qt);
    assert(u.scheme =~= Seq::<u8>::empty());
    assert(r[0] == p[0]);
    assert(!has_prefix(r, double_slash())) by {
        if has_prefix(r, double_slash()) {
            if p.len() >= 2 {
                assert(p.subrange(0, 2) =~= r.subrange(0, 2));
            } else {
                assert(r[1] == 0x3f);
                assert(r.subrange(0, 2)[1] == r[1]);
            }
        }
    }
    assert forall|j: int| 0 <= j < r.len() implies r[j] != 0x3a && r[j] != 0x0a by {
        if j < p.len() {
            assert(r[j] == p[j]);
        } else if j > p.len() {
            assert(r[j] == u.query->0[j - p.len() - 1]);
        }
    }
    assert(!exists|j: int| first_at(r, 0x3a, j));
    assert(crate::text::split_once(r, 0x3a) is None);
    lemma_path_query(p, u.query);
    if u.query is Some && u.query->0.len() > 0 {
        assert(r.last() == u.query->0.last());
    } else if u.query is Some {
        assert(r.last() == 0x3f);
    } else {
        assert(r.last() == p.last());
    }
}

proof fn lemma_extinf_prefix()
    ensures
        "#EXTINF:".spec_bytes().len() == 8,
        "#EXTINF:".spec_bytes()[0] == 0x23,
        "#EXTINF:".spec_bytes()[4] == 0x49,
        "#EXTINF:".spec_bytes().subrange(0, 4) == "#EXT".spec_bytes(),
        forall|i: int| 0 <= i < 8 ==> #[trigger] "#EXTINF:".spec_bytes()[i] != 0x0a && "#EXTINF:".spec_bytes()[i] != 0x2c
            && "#EXTINF:".spec_bytes()[i] != 0x0d,
        ",".spec_bytes() == seq![0x2cu8],
{
    reveal_strlit("#EXTINF:");
    reveal_strlit("#EXT");
    reveal_strlit(",");
    lemma_ascii_str("#EXTINF:");
    lemma_ascii_str("#EXT");
    lemma_ascii_str(",");
    assert("#EXTINF:".spec_bytes().subrange(0, 4) =~= "#EXT".spec_bytes());
    assert(",".spec_bytes() =~= seq![0x2cu8]);
}

/// The shape of a simple segment's `EXTINF` line: `#EXTINF:`, the text of the duration, then a
/// comma and the title where there is one.
proof fn lemma_extinf_text(s: MediaSegmentV)
    requires
        is_simple_segment(s),
    ensures
        extinf_text(s) == "#EXTINF:".spec_bytes() + (duration_value_text(s.duration) + match s.title {
            Some(t) => seq![0x2cu8] + t,
            None => Seq::empty(),
        }),
        plain_line(extinf_text(s)),
        extinf_text(s).len() > 8,
        extinf_text(s)[0] == 0x23,
        extinf_text(s)[4] == 0x49,
        has_prefix(extinf_text(s), "#EXT".spec_bytes()),
{
    lemma_extinf_prefix();
    lemma_duration_value(s.duration);
    let d = duration_value_text(s.duration);
    let tail = match s.title {
        Some(t) => seq![0x2cu8] + t,
        None => Seq::<u8>::empty(),
    };
    let p = "#EXTINF:".spec_bytes();
    let x = p + (d + tail);
    assert(extinf_text(s) =~= x);
    assert forall|i: int| 0 <= i < x.len() implies x[i] != 0x0a by {
        if i >= 8 && i < 8 + d.len() {
            assert(x[i] == d[i - 8]);
        } else if i >= 8 + d.len() {
            assert(x[i] == tail[i - 8 - d.len()]);
            if let Some(t) = s.title {
                if i > 8 + d.len() {
                    assert(tail[i - 8 - d.len()] == t[i - 9 - d.len()]);
                }
            }
        }
    }
    if let Some(t) = s.title {
        if t.len() > 0 {
            assert(x.last() == t.last());
        } else {
            assert(x.last() == 0x2c);
        }
    } else {
        assert(x.last() == d[d.len() - 1]);
    }
    assert(x[0] == p[0]);
    assert(x[4] == p[4]);
    assert(x.subrange(0, 4) =~= p.subrange(0, 4));
}

proof fn lemma_opt_line(o: bool, t: Seq<u8>)
    ensures
        joined(opt_line(o, t)) == line_if(o, t),
{
    if o {
        lemma_joined_one(t);
    }
}

proof fn lemma_segment_tag_literals()
    ensures
        plain_line("#EXT-X-DISCONTINUITY".spec_bytes()),
        plain_line("#EXT-X-GAP".spec_bytes()),
        "#EXT-X-BYTERANGE:".spec_bytes().len() == 17,
        forall|i: int| 0 <= i < 17 ==> #[trigger] "#EXT-X-BYTERANGE:".spec_bytes()[i] != 0x0a,
        "#EXT-X-BITRATE:".spec_bytes().len() == 15,
        forall|i: int| 0 <= i < 15 ==> #[trigger] "#EXT-X-BITRATE:".spec_bytes()[i] != 0x0a,
        "@".spec_bytes() == seq![0x40u8],
{
    reveal_strlit("#EXT-X-DISCONTINUITY");
    reveal_strlit("#EXT-X-GAP");
    reveal_strlit("#EXT-X-BYTERANGE:");
    reveal_strlit("#EXT-X-BITRATE:");
    reveal_strlit("@");
    lemma_ascii_str("#EXT-X-DISCONTINUITY");
    lemma_ascii_str("#EXT-X-GAP");
    lemma_ascii_str("#EXT-X-BYTERANGE:");
    lemma_ascii_str("#EXT-X-BITRATE:");
    lemma_ascii_str("@");
    assert("@".spec_bytes() =~= seq![0x40u8]);
}

/// A name that holds no line feed, then digits: a plain line.
proof fn lemma_digits_line(p: Seq<u8>, n: nat)
    requires
        forall|i: int| 0 <= i < p.len() ==> #[trigger] p[i] != 0x0a,
    ensures
        plain_line(p + dec_digits(n)),
{
    let d = dec_digits(n);
    lemma_dec_digits(n);
    let x = p + d;
    assert forall|i: int| 0 <= i < x.len() implies x[i] != 0x0a by {
        if i >= p.len() {
            assert(x[i] == d[i - p.len()]);
            assert(crate::num::digit_value(d[i - p.len()], false) is Some);
        }
    }
    assert(x.last() == d.last());
    assert(crate::num::digit_value(d.last(), false) is Some);
}

proof fn lemma_byte_range_line(b: crate::segment::ByteRange)
    ensures
        plain_line(byte_range_text(b)),
{
    lemma_segment_tag_literals();
    let p = "#EXT-X-BYTERANGE:".spec_bytes();
    lemma_digits_line(p, b.len as nat);
    if let Some(o) = b.offset {
        let q = p + dec_digits(b.len as nat) + seq![0x40u8];
        assert forall|i: int| 0 <= i < q.len() implies #[trigger] q[i] != 0x0a by {
            if i < q.len() - 1 {
                assert(q[i] == (p + dec_digits(b.len as nat))[i]);
            }
        }
        lemma_digits_line(q, o as nat);
        assert(byte_range_text(b) =~= q + dec_digits(o as nat));
    } else {
        assert(byte_range_text(b) =~= p + dec_digits(b.len as nat));
    }
}

proof fn lemma_segment_lines(s: MediaSegmentV)
    requires
        is_simple_segment(s),
    ensures
        segment_text(s) == joined(seq![extinf_text(s)] + segment_tag_seq(s) + seq![render_spec(s.uri)]),
        forall|k: int|
            0 <= k < (seq![extinf_text(s)] + segment_tag_seq(s) + seq![render_spec(s.uri)]).len() ==> plain_line(
                #[trigger] (seq![extinf_text(s)] + segment_tag_seq(s) + seq![render_spec(s.uri)])[k],
            ),
{
    lemma_extinf_text(s);
    lemma_simple_uri(s.uri);
    lemma_segment_tag_literals();
    let o1 = opt_line(s.byte_range is Some, byte_range_text(s.byte_range->0));
    let o2 = opt_line(s.discontinuity, "#EXT-X-DISCONTINUITY".spec_bytes());
    let o3 = opt_line(s.gap, "#EXT-X-GAP".spec_bytes());
    let o4 = opt_line(s.bitrate is Some, bitrate_text(s.bitrate->0));
    lemma_opt_line(s.byte_range is Some, byte_range_text(s.byte_range->0));
    lemma_opt_line(s.discontinuity, "#EXT-X-DISCONTINUITY".spec_bytes());
    lemma_opt_line(s.gap, "#EXT-X-GAP".spec_bytes());
    lemma_opt_line(s.bitrate is Some, bitrate_text(s.bitrate->0));
    lemma_joined_concat(o1, o2);
    lemma_joined_concat(o1 + o2, o3);
    lemma_joined_concat(o1 + o2 + o3, o4);
    let t = segment_tag_seq(s);
    assert(t == o1 + o2 + o3 + o4);
    assert(segment_tag_lines(s) =~= joined(t)) by {
        assert(line_if(false, Seq::empty()) == Seq::<u8>::empty());
    }
    let ls = seq![extinf_text(s)] + t + seq![render_spec(s.uri)];
    lemma_joined_one(extinf_text(s));
    lemma_joined_one(render_spec(s.uri));
    lemma_joined_concat(seq![extinf_text(s)], t);
    lemma_joined_concat(seq![extinf_text(s)] + t, seq![render_spec(s.uri)]);
    assert(extinf_line(s) == line(extinf_text(s)));
    assert(segment_text(s) =~= joined(ls));
    lemma_byte_range_line(s.byte_range->0);
    lemma_digits_line("#EXT-X-BITRATE:".spec_bytes(), s.bitrate->0 as nat);
    assert forall|k: int| 0 <= k < ls.len() implies plain_line(#[trigger] ls[k]) by {
        if 0 < k < ls.len() - 1 {
            assert(ls[k] == t[k - 1]);
            let j = k - 1;
            if j < o1.len() {
                assert(t[j] == o1[j]);
            } else if j < o1.len() + o2.len() {
                assert(t[j] == o2[j - o1.len()]);
            } else if j < o1.len() + o2.len() + o3.len() {
                assert(t[j] == o3[j - o1.len() - o2.len()]);
            } else {
                assert(t[j] == o4[j - o1.len() - o2.len() - o3.len()]);
            }
        }
    }
}

proof fn lemma_tag_lines(t: MediaTagV)
    requires
        is_simple_media_tag(t),
    ensures
        line(media_tag_text(t)) == joined(seq![media_tag_text(t)]),
        plain_line(media_tag_text(t)),
{
    lemma_simple_tag_text(t);
    lemma_joined_one(media_tag_text(t));
}

proof fn lemma_item_lines(i: MediaItemV)
    requires
        is_simple_item(i),
    ensures
        media_item_text(i) == joined(item_lines(i)),
        forall|k: int| 0 <= k < item_lines(i).len() ==> plain_line(#[trigger] item_lines(i)[k]),
{
    match i {
        MediaItemV::ExclusiveTag(t) => {
            lemma_tag_lines(t);
        },
        MediaItemV::MediaSegment(s) => {
            lemma_segment_lines(s);
        },
        MediaItemV::SharedTag(t) => {
            lemma_shared_text(t);
            lemma_joined_one(shared_tag_text(t));
        },
        _ => {},
    }
}

proof fn lemma_items_text(items: Seq<MediaItemV>)
    requires
        all_simple(items),
    ensures
        media_items_text(items) == joined(all_lines(items)),
        forall|k: int| 0 <= k < all_lines(items).len() ==> plain_line(#[trigger] all_lines(items)[k]),
    decreases items.len(),
{
    if items.len() > 0 {
        let d = items.drop_last();
        assert forall|k: int| 0 <= k < d.len() implies is_simple_item(#[trigger] d[k]) by {
            assert(d[k] == items[k]);
        }
        lemma_items_text(d);
        assert(is_simple_item(items[items.len() - 1]));
        lemma_item_lines(items.last());
        lemma_joined_concat(all_lines(d), item_lines(items.last()));
        let a = all_lines(d);
        let b = item_lines(items.last());
        assert forall|k: int| 0 <= k < all_lines(items).len() implies plain_line(#[trigger] all_lines(items)[k]) by {
            if k < a.len() {
                assert(all_lines(items)[k] == a[k]);
            } else {
                assert(all_lines(items)[k] == b[k - a.len()]);
            }
        }
    }
}

/// The text of a playlist of simple items is its lines, each ended by a line feed.
proof fn lemma_playlist_lines(items: Seq<MediaItemV>)
    requires
        all_simple(items),
    ensures
        lines_spec(playlist_text(items)) == seq!["#EXTM3U".spec_bytes()] + all_lines(items),
{
    let ls = seq!["#EXTM3U".spec_bytes()] + all_lines(items);
    lemma_items_text(items);
    lemma_joined_front(ls);
    assert(ls.drop_first() =~= all_lines(items));
    lemma_header_line();
    assert forall|k: int| 0 <= k < ls.len() implies plain_line(#[trigger] ls[k]) by {
        if k > 0 {
            assert(ls[k] == all_lines(items)[k - 1]);
        }
    }
    lemma_lines_of_joined(ls);
}

/* Reading the lines of a segment */

proof fn lemma_shared_dashes()
    ensures
        "#EXT-X-VERSION:".spec_bytes().len() > 4 && "#EXT-X-VERSION:".spec_bytes()[4] == 0x2d,
        "#EXT-X-INDEPENDENT-SEGMENTS".spec_bytes().len() > 4 && "#EXT-X-INDEPENDENT-SEGMENTS".spec_bytes()[4] == 0x2d,
        "#EXT-X-START:".spec_bytes().len() > 4 && "#EXT-X-START:".spec_bytes()[4] == 0x2d,
        "#EXT-X-DEFINE:".spec_bytes().len() > 4 && "#EXT-X-DEFINE:".spec_bytes()[4] == 0x2d,
{
    reveal_strlit("#EXT-X-VERSION:");
    reveal_strlit("#EXT-X-INDEPENDENT-SEGMENTS");
    reveal_strlit("#EXT-X-START:");
    reveal_strlit("#EXT-X-DEFINE:");
    lemma_ascii_str("#EXT-X-VERSION:");
    lemma_ascii_str("#EXT-X-INDEPENDENT-SEGMENTS");
    lemma_ascii_str("#EXT-X-START:");
    lemma_ascii_str("#EXT-X-DEFINE:");
}

proof fn lemma_media_dashes()
    ensures
        "#EXT-X-TARGETDURATION:".spec_bytes().len() > 4 && "#EXT-X-TARGETDURATION:".spec_bytes()[4] == 0x2d,
        "#EXT-X-MEDIA-SEQUENCE:".spec_bytes().len() > 4 && "#EXT-X-MEDIA-SEQUENCE:".spec_bytes()[4] == 0x2d,
        "#EXT-X-DISCONTINUITY-SEQUENCE:".spec_bytes().len() > 4 && "#EXT-X-DISCONTINUITY-SEQUENCE:".spec_bytes()[4] == 0x2d,
        "#EXT-X-ENDLIST".spec_bytes().len() > 4 && "#EXT-X-ENDLIST".spec_bytes()[4] == 0x2d,
        "#EXT-X-PLAYLIST-TYPE:".spec_bytes().len() > 4 && "#EXT-X-PLAYLIST-TYPE:".spec_bytes()[4] == 0x2d,
        "#EXT-X-I-FRAMES-ONLY".spec_bytes().len() > 4 && "#EXT-X-I-FRAMES-ONLY".spec_bytes()[4] == 0x2d,
        "#EXT-X-PART-INF:".spec_bytes().len() > 4 && "#EXT-X-PART-INF:".spec_bytes()[4] == 0x2d,
        "#EXT-X-SERVER-CONTROL:".spec_bytes().len() > 4 && "#EXT-X-SERVER-CONTROL:".spec_bytes()[4] == 0x2d,
{
    reveal_strlit("#EXT-X-TARGETDURATION:");
    reveal_strlit("#EXT-X-MEDIA-SEQUENCE:");
    reveal_strlit("#EXT-X-DISCONTINUITY-SEQUENCE:");
    reveal_strlit("#EXT-X-ENDLIST");
    reveal_strlit("#EXT-X-PLAYLIST-TYPE:");
    reveal_strlit("#EXT-X-I-FRAMES-ONLY");
    reveal_strlit("#EXT-X-PART-INF:");
    reveal_strlit("#EXT-X-SERVER-CONTROL:");
    lemma_ascii_str("#EXT-X-TARGETDURATION:");
    lemma_ascii_str("#EXT-X-MEDIA-SEQUENCE:");
    lemma_ascii_str("#EXT-X-DISCONTINUITY-SEQUENCE:");
    lemma_ascii_str("#EXT-X-ENDLIST");
    lemma_ascii_str("#EXT-X-PLAYLIST-TYPE:");
    lemma_ascii_str("#EXT-X-I-FRAMES-ONLY");
    lemma_ascii_str("#EXT-X-PART-INF:");
    lemma_ascii_str("#EXT-X-SERVER-CONTROL:");
}

proof fn lemma_multivariant_dashes()
    ensures
        "#EXT-X-MEDIA:".spec_bytes().len() > 4 && "#EXT-X-MEDIA:".spec_bytes()[4] == 0x2d,
        "#EXT-X-STREAM-INF:".spec_bytes().len() > 4 && "#EXT-X-STREAM-INF:".spec_bytes()[4] == 0x2d,
        "#EXT-X-I-FRAME-STREAM-INF:".spec_bytes().len() > 4 && "#EXT-X-I-FRAME-STREAM-INF:".spec_bytes()[4] == 0x2d,
        "#EXT-X-SESSION-DATA:".spec_bytes().len() > 4 && "#EXT-X-SESSION-DATA:".spec_bytes()[4] == 0x2d,
        "#EXT-X-SESSION-KEY:".spec_bytes().len() > 4 && "#EXT-X-SESSION-KEY:".spec_bytes()[4] == 0x2d,
        "#EXT-X-CONTENT-STEERING:".spec_bytes().len() > 4 && "#EXT-X-CONTENT-STEERING:".spec_bytes()[4] == 0x2d,
{
    reveal_strlit("#EXT-X-MEDIA:");
    reveal_strlit("#EXT-X-STREAM-INF:");
    reveal_strlit("#EXT-X-I-FRAME-STREAM-INF:");
    reveal_strlit("#EXT-X-SESSION-DATA:");
    reveal_strlit("#EXT-X-SESSION-KEY:");
    reveal_strlit("#EXT-X-CONTENT-STEERING:");
    lemma_ascii_str("#EXT-X-MEDIA:");
    lemma_ascii_str("#EXT-X-STREAM-INF:");
    lemma_ascii_str("#EXT-X-I-FRAME-STREAM-INF:");
    lemma_ascii_str("#EXT-X-SESSION-DATA:");
    lemma_ascii_str("#EXT-X-SESSION-KEY:");
    lemma_ascii_str("#EXT-X-CONTENT-STEERING:");
}

/// A line whose fifth byte is no `-` is no shared, media or multivariant tag.
proof fn lemma_not_x_tag(x: Seq<u8>, n: nat)
    requires
        x.len() > 4,
        x[4] != 0x2d,
    ensures
        shared_tag_spec(x, n) is Err,
        media_tag_spec(x) is Err,
        multivariant_tag_spec(x) is Err,
{
    lemma_shared_dashes();
    lemma_media_dashes();
    lemma_multivariant_dashes();
    lemma_differs(x, "#EXT-X-VERSION:".spec_bytes(), 4);
    lemma_differs(x, "#EXT-X-INDEPENDENT-SEGMENTS".spec_bytes(), 4);
    lemma_differs(x, "#EXT-X-START:".spec_bytes(), 4);
    lemma_differs(x, "#EXT-X-DEFINE:".spec_bytes(), 4);
    lemma_differs(x, "#EXT-X-TARGETDURATION:".spec_bytes(), 4);
    lemma_differs(x, "#EXT-X-MEDIA-SEQUENCE:".spec_bytes(), 4);
    lemma_differs(x, "#EXT-X-DISCONTINUITY-SEQUENCE:".spec_bytes(), 4);
    lemma_differs(x, "#EXT-X-ENDLIST".spec_bytes(), 4);
    lemma_differs(x, "#EXT-X-PLAYLIST-TYPE:".spec_bytes(), 4);
    lemma_differs(x, "#EXT-X-I-FRAMES-ONLY".spec_bytes(), 4);
    lemma_differs(x, "#EXT-X-PART-INF:".spec_bytes(), 4);
    lemma_differs(x, "#EXT-X-SERVER-CONTROL:".spec_bytes(), 4);
    lemma_differs(x, "#EXT-X-MEDIA:".spec_bytes(), 4);
    lemma_differs(x, "#EXT-X-STREAM-INF:".spec_bytes(), 4);
    lemma_differs(x, "#EXT-X-I-FRAME-STREAM-INF:".spec_bytes(), 4);
    lemma_differs(x, "#EXT-X-SESSION-DATA:".spec_bytes(), 4);
    lemma_differs(x, "#EXT-X-SESSION-KEY:".spec_bytes(), 4);
    lemma_differs(x, "#EXT-X-CONTENT-STEERING:".spec_bytes(), 4);
    reveal(shared_tag_spec);
    reveal(media_tag_spec);
    reveal(multivariant_tag_spec);
}

/// The text of a duration that reads back as itself: not empty, without commas, line feeds or
/// carriage returns, and read back as that duration.
proof fn lemma_duration_value(d: DurationV)
    requires
        is_simple_duration(d),
    ensures
        duration_text(d) == "#EXTINF:".spec_bytes() + duration_value_text(d),
        duration_value_text(d).len() > 0,
        forall|i: int|
            0 <= i < duration_value_text(d).len() ==> #[trigger] duration_value_text(d)[i] != 0x2c
                && duration_value_text(d)[i] != 0x0a && duration_value_text(d)[i] != 0x0d,
        duration_spec(duration_value_text(d)) == Ok::<DurationV, PErr>(d),
{
    match d {
        DurationV::Int(n) => {
            let t = dec_digits(n as nat);
            lemma_dec_digits(n as nat);
            assert forall|i: int| 0 <= i < t.len() implies #[trigger] t[i] != 0x2c && t[i] != 0x0a && t[i] != 0x0d by {
                assert(crate::num::digit_value(t[i], false) is Some);
            }
            assert forall|c: u8| c == 0x2e || c == 0x65 || c == 0x45 implies !contains_byte(t, c) by {
                if contains_byte(t, c) {
                    let i = choose|i: int| 0 <= i < t.len() && t[i] == c;
                    assert(crate::num::digit_value(t[i], false) is Some);
                }
            }
            assert(crate::num::digit_value(t[0], false) is Some);
            crate::num::lemma_fold_digits_value(t, false, u32::MAX as nat);
        },
        DurationV::Float(t) => {
            let b = crate::decimal::dec_body(t);
            let w = choose|i: int| 0 <= i < b.len() && crate::decimal::is_digit(#[trigger] b[i]);
            assert(t.len() > 0);
            assert forall|i: int| 0 <= i < t.len() implies #[trigger] t[i] != 0x2c && t[i] != 0x0a && t[i] != 0x0d by {
                if t[0] == 0x2d {
                    if i > 0 {
                        assert(t[i] == b[i - 1]);
                    }
                } else {
                    assert(t[i] == b[i]);
                }
            }
        },
    }
}

/// A simple segment's `EXTINF` line sets the pending duration and title.
#[verifier::rlimit(30)]
proof fn lemma_extinf_step(p: PendingV, s: MediaSegmentV)
    requires
        is_simple_segment(s),
    ensures
        pending_step(p, extinf_text(s)) == Ok::<PendingV, PErr>(PendingV { duration: Some(s.duration), title: s.title, ..p }),
{
    lemma_extinf_text(s);
    lemma_extinf_prefix();
    lemma_duration_value(s.duration);
    let d = duration_value_text(s.duration);
    let pre = "#EXTINF:".spec_bytes();
    let rest = d + match s.title {
        Some(t) => seq![0x2cu8] + t,
        None => Seq::<u8>::empty(),
    };
    let x = extinf_text(s);
    assert(x.subrange(0, 8) =~= pre);
    assert(after(x, pre) =~= rest);
    match s.title {
        Some(t) => {
            assert(rest[d.len() as int] == 0x2c);
            assert(first_at(rest, 0x2c, d.len() as int));
            let i = choose|i: int| first_at(rest, 0x2c, i);
            assert(i == d.len()) by {
                if i < d.len() {
                    assert(rest[i] == d[i]);
                } else if i > d.len() {
                    assert(rest[d.len() as int] == 0x2c);
                }
            }
            assert(rest.subrange(0, i) =~= d);
            assert(rest.subrange(i + 1, rest.len() as int) =~= t);
        },
        None => {
            assert(rest =~= d);
            assert(!exists|i: int| first_at(rest, 0x2c, i));
        },
    }
    reveal(pending_step);
}

/// What a simple segment's `EXTINF` line is read as: a segment tag, which sets the pending
/// duration and title and takes the media sequence number in force.
proof fn lemma_extinf_kind(c: ContextV, s: MediaSegmentV, n: nat)
    requires
        is_simple_segment(s),
        n != 1,
    ensures
        line_kind_spec(c, extinf_text(s), n) == (
            ContextV {
                pending: PendingV {
                    duration: Some(s.duration),
                    title: s.title,
                    media_sequence: c.media_sequence,
                    ..c.pending
                },
                ..c
            },
            Ok::<ParsedLineV, PErr>(ParsedLineV::MediaSegment),
        ),
{
    lemma_extinf_text(s);
    lemma_not_x_tag(extinf_text(s), 0);
    lemma_not_x_tag(extinf_text(s), n);
    lemma_extinf_step(PendingV { media_sequence: c.media_sequence, ..c.pending }, s);
}

/// A line that starts with no `#` is read as a URI line.
proof fn lemma_uri_kind(c: ContextV, p: Seq<u8>, n: nat)
    requires
        p.len() > 0,
        p[0] != 0x23,
        n != 1,
    ensures
        line_kind_spec(c, p, n) == (c, Ok::<ParsedLineV, PErr>(ParsedLineV::Uri(p))),
{
}

/* Reading the tag lines of a segment */

proof fn lemma_tag_letters()
    ensures
        "#EXT-X-VERSION:".spec_bytes().len() > 8 && "#EXT-X-VERSION:".spec_bytes()[7] == 0x56,
        "#EXT-X-INDEPENDENT-SEGMENTS".spec_bytes().len() > 8 && "#EXT-X-INDEPENDENT-SEGMENTS".spec_bytes()[7] == 0x49,
        "#EXT-X-START:".spec_bytes().len() > 8 && "#EXT-X-START:".spec_bytes()[7] == 0x53,
        "#EXT-X-DEFINE:".spec_bytes().len() > 8 && "#EXT-X-DEFINE:".spec_bytes()[7] == 0x44
            && "#EXT-X-DEFINE:".spec_bytes()[8] == 0x45,
        "#EXT-X-TARGETDURATION:".spec_bytes().len() > 8 && "#EXT-X-TARGETDURATION:".spec_bytes()[7] == 0x54,
        "#EXT-X-MEDIA-SEQUENCE:".spec_bytes().len() > 8 && "#EXT-X-MEDIA-SEQUENCE:".spec_bytes()[7] == 0x4d,
        "#EXT-X-DISCONTINUITY-SEQUENCE:".spec_bytes().len() == 30 && "#EXT-X-DISCONTINUITY-SEQUENCE:".spec_bytes()[7] == 0x44,
        "#EXT-X-ENDLIST".spec_bytes().len() > 8 && "#EXT-X-ENDLIST".spec_bytes()[7] == 0x45,
        "#EXT-X-PLAYLIST-TYPE:".spec_bytes().len() > 8 && "#EXT-X-PLAYLIST-TYPE:".spec_bytes()[7] == 0x50,
        "#EXT-X-I-FRAMES-ONLY".spec_bytes().len() > 8 && "#EXT-X-I-FRAMES-ONLY".spec_bytes()[7] == 0x49,
        "#EXT-X-PART-INF:".spec_bytes().len() > 8 && "#EXT-X-PART-INF:".spec_bytes()[7] == 0x50,
        "#EXT-X-SERVER-CONTROL:".spec_bytes().len() > 8 && "#EXT-X-SERVER-CONTROL:".spec_bytes()[7] == 0x53,
        "#EXT-X-MEDIA:".spec_bytes().len() > 8 && "#EXT-X-MEDIA:".spec_bytes()[7] == 0x4d,
        "#EXT-X-STREAM-INF:".spec_bytes().len() > 8 && "#EXT-X-STREAM-INF:".spec_bytes()[7] == 0x53,
        "#EXT-X-I-FRAME-STREAM-INF:".spec_bytes().len() > 8 && "#EXT-X-I-FRAME-STREAM-INF:".spec_bytes()[7] == 0x49,
        "#EXT-X-SESSION-DATA:".spec_bytes().len() > 8 && "#EXT-X-SESSION-DATA:".spec_bytes()[7] == 0x53,
        "#EXT-X-SESSION-KEY:".spec_bytes().len() > 8 && "#EXT-X-SESSION-KEY:".spec_bytes()[7] == 0x53,
        "#EXT-X-CONTENT-STEERING:".spec_bytes().len() > 8 && "#EXT-X-CONTENT-STEERING:".spec_bytes()[7] == 0x43,
{
    reveal_strlit("#EXT-X-VERSION:");
    reveal_strlit("#EXT-X-INDEPENDENT-SEGMENTS");
    reveal_strlit("#EXT-X-START:");
    reveal_strlit("#EXT-X-DEFINE:");
    reveal_strlit("#EXT-X-TARGETDURATION:");
    reveal_strlit("#EXT-X-MEDIA-SEQUENCE:");
    reveal_strlit("#EXT-X-DISCONTINUITY-SEQUENCE:");
    reveal_strlit("#EXT-X-ENDLIST");
    reveal_strlit("#EXT-X-PLAYLIST-TYPE:");
    reveal_strlit("#EXT-X-I-FRAMES-ONLY");
    reveal_strlit("#EXT-X-PART-INF:");
    reveal_strlit("#EXT-X-SERVER-CONTROL:");
    reveal_strlit("#EXT-X-MEDIA:");
    reveal_strlit("#EXT-X-STREAM-INF:");
    reveal_strlit("#EXT-X-I-FRAME-STREAM-INF:");
    reveal_strlit("#EXT-X-SESSION-DATA:");
    reveal_strlit("#EXT-X-SESSION-KEY:");
    reveal_strlit("#EXT-X-CONTENT-STEERING:");
    lemma_ascii_str("#EXT-X-VERSION:");
    lemma_ascii_str("#EXT-X-INDEPENDENT-SEGMENTS");
    lemma_ascii_str("#EXT-X-START:");
    lemma_ascii_str("#EXT-X-DEFINE:");
    lemma_ascii_str("#EXT-X-TARGETDURATION:");
    lemma_ascii_str("#EXT-X-MEDIA-SEQUENCE:");
    lemma_ascii_str("#EXT-X-DISCONTINUITY-SEQUENCE:");
    lemma_ascii_str("#EXT-X-ENDLIST");
    lemma_ascii_str("#EXT-X-PLAYLIST-TYPE:");
    lemma_ascii_str("#EXT-X-I-FRAMES-ONLY");
    lemma_ascii_str("#EXT-X-PART-INF:");
    lemma_ascii_str("#EXT-X-SERVER-CONTROL:");
    lemma_ascii_str("#EXT-X-MEDIA:");
    lemma_ascii_str("#EXT-X-STREAM-INF:");
    lemma_ascii_str("#EXT-X-I-FRAME-STREAM-INF:");
    lemma_ascii_str("#EXT-X-SESSION-DATA:");
    lemma_ascii_str("#EXT-X-SESSION-KEY:");
    lemma_ascii_str("#EXT-X-CONTENT-STEERING:");
}

/// The eighth byte of a segment tag's line: `B` for a byte range or bitrate, `G` for a gap,
/// and `D` (then `I`) for a discontinuity.
pub open spec fn segment_tag_letters(x: Seq<u8>) -> bool {
    ||| x[7] == 0x42
    ||| x[7] == 0x47
    ||| (x[7] == 0x44 && x[8] == 0x49 && x.len() < 30)
}

proof fn lemma_segment_tag_not_shared(x: Seq<u8>, n: nat)
    requires
        x.len() > 8,
        segment_tag_letters(x),
    ensures
        shared_tag_spec(x, n) is Err,
{
    lemma_tag_letters();
    lemma_differs(x, "#EXT-X-VERSION:".spec_bytes(), 7);
    lemma_differs(x, "#EXT-X-INDEPENDENT-SEGMENTS".spec_bytes(), 7);
    lemma_differs(x, "#EXT-X-START:".spec_bytes(), 7);
    if x[7] == 0x44 {
        lemma_differs(x, "#EXT-X-DEFINE:".spec_bytes(), 8);
    } else {
        lemma_differs(x, "#EXT-X-DEFINE:".spec_bytes(), 7);
    }
    reveal(shared_tag_spec);
}

proof fn lemma_media_letters()
    ensures
        "#EXT-X-TARGETDURATION:".spec_bytes().len() > 8 && "#EXT-X-TARGETDURATION:".spec_bytes()[7] == 0x54,
        "#EXT-X-MEDIA-SEQUENCE:".spec_bytes().len() > 8 && "#EXT-X-MEDIA-SEQUENCE:".spec_bytes()[7] == 0x4d,
        "#EXT-X-DISCONTINUITY-SEQUENCE:".spec_bytes().len() == 30 && "#EXT-X-DISCONTINUITY-SEQUENCE:".spec_bytes()[7] == 0x44,
        "#EXT-X-ENDLIST".spec_bytes().len() > 8 && "#EXT-X-ENDLIST".spec_bytes()[7] == 0x45,
        "#EXT-X-PLAYLIST-TYPE:".spec_bytes().len() > 8 && "#EXT-X-PLAYLIST-TYPE:".spec_bytes()[7] == 0x50,
        "#EXT-X-I-FRAMES-ONLY".spec_bytes().len() > 8 && "#EXT-X-I-FRAMES-ONLY".spec_bytes()[7] == 0x49,
        "#EXT-X-PART-INF:".spec_bytes().len() > 8 && "#EXT-X-PART-INF:".spec_bytes()[7] == 0x50,
        "#EXT-X-SERVER-CONTROL:".spec_bytes().len() > 8 && "#EXT-X-SERVER-CONTROL:".spec_bytes()[7] == 0x53,
{
    lemma_tag_letters();
}

proof fn lemma_segment_tag_not_media(x: Seq<u8>)
    requires
        x.len() > 8,
        segment_tag_letters(x),
    ensures
        media_tag_spec(x) is Err,
{
    lemma_media_letters();
    let p1 = "#EXT-X-TARGETDURATION:".spec_bytes();
    let p2 = "#EXT-X-MEDIA-SEQUENCE:".spec_bytes();
    let p3 = "#EXT-X-DISCONTINUITY-SEQUENCE:".spec_bytes();
    let p4 = "#EXT-X-ENDLIST".spec_bytes();
    let p5 = "#EXT-X-PLAYLIST-TYPE:".spec_bytes();
    let p6 = "#EXT-X-I-FRAMES-ONLY".spec_bytes();
    let p7 = "#EXT-X-PART-INF:".spec_bytes();
    let p8 = "#EXT-X-SERVER-CONTROL:".spec_bytes();
    lemma_differs(x, p1, 7);
    lemma_differs(x, p2, 7);
    if x[7] != 0x44 {
        lemma_differs(x, p3, 7);
    }
    lemma_differs(x, p4, 7);
    lemma_differs(x, p5, 7);
    lemma_differs(x, p6, 7);
    lemma_differs(x, p7, 7);
    lemma_differs(x, p8, 7);
    assert(!has_prefix(x, p3));
    assert(media_tag_spec(x) is Err) by {
        reveal(media_tag_spec);
    }
}

proof fn lemma_segment_tag_not_multivariant(x: Seq<u8>)
    requires
        x.len() > 8,
        segment_tag_letters(x),
    ensures
        multivariant_tag_spec(x) is Err,
{
    lemma_tag_letters();
    lemma_differs(x, "#EXT-X-MEDIA:".spec_bytes(), 7);
    lemma_differs(x, "#EXT-X-STREAM-INF:".spec_bytes(), 7);
    lemma_differs(x, "#EXT-X-I-FRAME-STREAM-INF:".spec_bytes(), 7);
    lemma_differs(x, "#EXT-X-SESSION-DATA:".spec_bytes(), 7);
    lemma_differs(x, "#EXT-X-SESSION-KEY:".spec_bytes(), 7);
    lemma_differs(x, "#EXT-X-CONTENT-STEERING:".spec_bytes(), 7);
    reveal(multivariant_tag_spec);
}

proof fn lemma_segment_prefixes()
    ensures
        "#EXTINF:".spec_bytes().len() == 8 && "#EXTINF:".spec_bytes()[4] == 0x49,
        "#EXT-X-BYTERANGE:".spec_bytes().len() == 17 && "#EXT-X-BYTERANGE:".spec_bytes()[4] == 0x2d
            && "#EXT-X-BYTERANGE:".spec_bytes()[7] == 0x42 && "#EXT-X-BYTERANGE:".spec_bytes()[8] == 0x59,
        "#EXT-X-DISCONTINUITY".spec_bytes().len() == 20 && "#EXT-X-DISCONTINUITY".spec_bytes()[4] == 0x2d
            && "#EXT-X-DISCONTINUITY".spec_bytes()[7] == 0x44 && "#EXT-X-DISCONTINUITY".spec_bytes()[8] == 0x49,
        "#EXT-X-KEY:".spec_bytes().len() > 8 && "#EXT-X-KEY:".spec_bytes()[7] == 0x4b,
        "#EXT-X-MAP:".spec_bytes().len() > 8 && "#EXT-X-MAP:".spec_bytes()[7] == 0x4d,
        "#EXT-X-PROGRAM-DATE-TIME:".spec_bytes().len() > 8 && "#EXT-X-PROGRAM-DATE-TIME:".spec_bytes()[7] == 0x50,
        "#EXT-X-GAP".spec_bytes().len() == 10 && "#EXT-X-GAP".spec_bytes()[4] == 0x2d
            && "#EXT-X-GAP".spec_bytes()[7] == 0x47,
        "#EXT-X-BITRATE:".spec_bytes().len() == 15 && "#EXT-X-BITRATE:".spec_bytes()[4] == 0x2d
            && "#EXT-X-BITRATE:".spec_bytes()[7] == 0x42 && "#EXT-X-BITRATE:".spec_bytes()[8] == 0x49,
        "#EXT-X-BYTERANGE:".spec_bytes()[0] == 0x23 && "#EXT-X-DISCONTINUITY".spec_bytes()[0] == 0x23,
        "#EXT-X-GAP".spec_bytes()[0] == 0x23 && "#EXT-X-BITRATE:".spec_bytes()[0] == 0x23,
        "#EXT-X-BYTERANGE:".spec_bytes().subrange(0, 4) == "#EXT".spec_bytes(),
        "#EXT-X-DISCONTINUITY".spec_bytes().subrange(0, 4) == "#EXT".spec_bytes(),
        "#EXT-X-GAP".spec_bytes().subrange(0, 4) == "#EXT".spec_bytes(),
        "#EXT-X-BITRATE:".spec_bytes().subrange(0, 4) == "#EXT".spec_bytes(),
{
    reveal_strlit("#EXTINF:");
    reveal_strlit("#EXT-X-BYTERANGE:");
    reveal_strlit("#EXT-X-DISCONTINUITY");
    reveal_strlit("#EXT-X-KEY:");
    reveal_strlit("#EXT-X-MAP:");
    reveal_strlit("#EXT-X-PROGRAM-DATE-TIME:");
    reveal_strlit("#EXT-X-GAP");
    reveal_strlit("#EXT-X-BITRATE:");
    reveal_strlit("#EXT");
    lemma_ascii_str("#EXTINF:");
    lemma_ascii_str("#EXT-X-BYTERANGE:");
    lemma_ascii_str("#EXT-X-DISCONTINUITY");
    lemma_ascii_str("#EXT-X-KEY:");
    lemma_ascii_str("#EXT-X-MAP:");
    lemma_ascii_str("#EXT-X-PROGRAM-DATE-TIME:");
    lemma_ascii_str("#EXT-X-GAP");
    lemma_ascii_str("#EXT-X-BITRATE:");
    lemma_ascii_str("#EXT");
    assert("#EXT-X-BYTERANGE:".spec_bytes().subrange(0, 4) =~= "#EXT".spec_bytes());
    assert("#EXT-X-DISCONTINUITY".spec_bytes().subrange(0, 4) =~= "#EXT".spec_bytes());
    assert("#EXT-X-GAP".spec_bytes().subrange(0, 4) =~= "#EXT".spec_bytes());
    assert("#EXT-X-BITRATE:".spec_bytes().subrange(0, 4) =~= "#EXT".spec_bytes());
}

/// A line that starts with the name `p` and goes on with `rest`.
proof fn lemma_named(p: Seq<u8>, rest: Seq<u8>)
    requires
        p.len() > 8,
        p.subrange(0, 4) == "#EXT".spec_bytes(),
    ensures
        has_prefix(p + rest, p),
        after(p + rest, p) == rest,
        has_prefix(p + rest, "#EXT".spec_bytes()),
        (p + rest)[0] == p[0],
        (p + rest)[4] == p[4],
        (p + rest)[7] == p[7],
        (p + rest)[8] == p[8],
{
    let x = p + rest;
    assert(x.subrange(0, p.len() as int) =~= p);
    assert(after(x, p) =~= rest);
    assert(x.subrange(0, 4) =~= p.subrange(0, 4));
}

proof fn lemma_pending_discontinuity(p: PendingV)
    ensures
        pending_step(p, "#EXT-X-DISCONTINUITY".spec_bytes()) == Ok::<PendingV, PErr>(PendingV { discontinuity: true, ..p }),
{
    lemma_segment_prefixes();
    let x = "#EXT-X-DISCONTINUITY".spec_bytes();
    lemma_named(x, Seq::empty());
    assert(x + Seq::<u8>::empty() =~= x);
    lemma_differs(x, "#EXTINF:".spec_bytes(), 4);
    lemma_differs(x, "#EXT-X-BYTERANGE:".spec_bytes(), 7);
    reveal(pending_step);
}

proof fn lemma_pending_gap(p: PendingV)
    ensures
        pending_step(p, "#EXT-X-GAP".spec_bytes()) == Ok::<PendingV, PErr>(PendingV { gap: true, ..p }),
{
    lemma_segment_prefixes();
    let x = "#EXT-X-GAP".spec_bytes();
    lemma_named(x, Seq::empty());
    assert(x + Seq::<u8>::empty() =~= x);
    lemma_differs(x, "#EXTINF:".spec_bytes(), 4);
    lemma_differs(x, "#EXT-X-BYTERANGE:".spec_bytes(), 7);
    lemma_differs(x, "#EXT-X-KEY:".spec_bytes(), 7);
    lemma_differs(x, "#EXT-X-MAP:".spec_bytes(), 7);
    lemma_differs(x, "#EXT-X-PROGRAM-DATE-TIME:".spec_bytes(), 7);
    assert(!has_prefix(x, "#EXT-X-DISCONTINUITY".spec_bytes()));
    reveal(pending_step);
}

proof fn lemma_pending_bitrate(p: PendingV, b: u64)
    ensures
        pending_step(p, bitrate_text(b)) == Ok::<PendingV, PErr>(PendingV { bitrate: Some(b), ..p }),
{
    lemma_segment_prefixes();
    let pre = "#EXT-X-BITRATE:".spec_bytes();
    let d = dec_digits(b as nat);
    let x = pre + d;
    lemma_named(pre, d);
    lemma_differs(x, "#EXTINF:".spec_bytes(), 4);
    lemma_differs(x, "#EXT-X-BYTERANGE:".spec_bytes(), 8);
    lemma_differs(x, "#EXT-X-DISCONTINUITY".spec_bytes(), 7);
    lemma_differs(x, "#EXT-X-KEY:".spec_bytes(), 7);
    lemma_differs(x, "#EXT-X-MAP:".spec_bytes(), 7);
    lemma_differs(x, "#EXT-X-PROGRAM-DATE-TIME:".spec_bytes(), 7);
    lemma_differs(x, "#EXT-X-GAP".spec_bytes(), 7);
    lemma_dec_digits(b as nat);
    assert(crate::num::digit_value(d[0], false) is Some);
    crate::num::lemma_fold_digits_value(d, false, u64::MAX as nat);
    reveal(pending_step);
}

#[verifier::rlimit(30)]
proof fn lemma_pending_byte_range(p: PendingV, r: crate::segment::ByteRange)
    ensures
        pending_step(p, byte_range_text(r)) == Ok::<PendingV, PErr>(PendingV { byte_range: Some(r), ..p }),
{
    lemma_segment_prefixes();
    lemma_segment_tag_literals();
    let pre = "#EXT-X-BYTERANGE:".spec_bytes();
    let l = dec_digits(r.len as nat);
    lemma_dec_digits(r.len as nat);
    let tail = match r.offset {
        Some(o) => seq![0x40u8] + dec_digits(o as nat),
        None => Seq::<u8>::empty(),
    };
    let rest = l + tail;
    let x = pre + rest;
    assert(byte_range_text(r) =~= x);
    lemma_named(pre, rest);
    lemma_differs(x, "#EXTINF:".spec_bytes(), 4);
    assert forall|j: int| 0 <= j < l.len() implies l[j] != 0x40 by {
        assert(crate::num::digit_value(l[j], false) is Some);
    }
    match r.offset {
        Some(o) => {
            let od = dec_digits(o as nat);
            lemma_dec_digits(o as nat);
            assert(rest[l.len() as int] == 0x40);
            assert(first_at(rest, 0x40, l.len() as int));
            let i = choose|i: int| first_at(rest, 0x40, i);
            assert(i == l.len()) by {
                if i < l.len() {
                    assert(rest[i] == l[i]);
                } else if i > l.len() {
                    assert(rest[l.len() as int] == 0x40);
                }
            }
            assert(rest.subrange(0, i) =~= l);
            assert(rest.subrange(i + 1, rest.len() as int) =~= od);
            assert(crate::num::digit_value(od[0], false) is Some);
            crate::num::lemma_fold_digits_value(od, false, u64::MAX as nat);
        },
        None => {
            assert(rest =~= l);
            assert(!exists|i: int| first_at(rest, 0x40, i));
        },
    }
    assert(crate::num::digit_value(l[0], false) is Some);
    crate::num::lemma_fold_digits_value(l, false, u64::MAX as nat);
    reveal(pending_step);
}

/// The line of a segment tag is read into the pending segment.
proof fn lemma_segment_tag_kind(c: ContextV, x: Seq<u8>, np: PendingV, n: nat)
    requires
        x.len() > 8,
        x[0] == 0x23,
        has_prefix(x, "#EXT".spec_bytes()),
        segment_tag_letters(x),
        c.pending.media_sequence == c.media_sequence,
        pending_step(c.pending, x) == Ok::<PendingV, PErr>(np),
        n != 1,
    ensures
        line_kind_spec(c, x, n) == (ContextV { pending: np, ..c }, Ok::<ParsedLineV, PErr>(ParsedLineV::MediaSegment)),
{
    lemma_segment_tag_not_shared(x, 0);
    lemma_segment_tag_not_media(x);
    lemma_segment_tag_not_multivariant(x);
    assert(PendingV { media_sequence: c.media_sequence, ..c.pending } == c.pending);
}

/// The line of a segment tag, where the segment has it: the pending segment takes it in.
proof fn lemma_tag_stage(ls: Seq<Seq<u8>>, j: nat, cc: ContextV, present: bool, x: Seq<u8>, np: PendingV) -> (r: (
    nat,
    ContextV,
))
    requires
        cc.kind == PlaylistKind::Media,
        cc.pending.media_sequence == cc.media_sequence,
        present ==> 1 <= j < ls.len() && ls[j as int] == x && x.len() > 8 && x[0] == 0x23 && has_prefix(
            x,
            "#EXT".spec_bytes(),
        ) && segment_tag_letters(x) && pending_step(cc.pending, x) == Ok::<PendingV, PErr>(np),
    ensures
        present ==> r == (j + 1, ContextV { pending: np, ..cc }),
        !present ==> r == (j, cc),
        run_lines(ls, j, cc) == run_lines(ls, r.0, r.1),
{
    if present {
        lemma_segment_tag_kind(cc, x, np, j + 1);
        let c2 = ContextV { pending: np, ..cc };
        assert(consume_spec(c2, ParsedLineV::MediaSegment, j + 1) == Ok::<ContextV, PErr>(c2));
        (j + 1, c2)
    } else {
        (j, cc)
    }
}

/* The run of a reader over the lines */

/// The media items that an item a reader keeps stands for: tags and segments; URIs stand for
/// none.
pub open spec fn media_part(x: PlaylistItemV) -> Seq<MediaItemV> {
    match x {
        PlaylistItemV::SharedTag(t) => seq![MediaItemV::SharedTag(t)],
        PlaylistItemV::MediaTag(t) => seq![MediaItemV::ExclusiveTag(t)],
        PlaylistItemV::Segment(s) => seq![MediaItemV::MediaSegment(s)],
        _ => Seq::empty(),
    }
}

/// The media items that the items a reader keeps stand for.
pub open spec fn media_of(p: Seq<PlaylistItemV>) -> Seq<MediaItemV>
    decreases p.len(),
{
    if p.len() == 0 {
        Seq::empty()
    } else {
        media_of(p.drop_last()) + media_part(p.last())
    }
}

/// The reader kept only simple shared tags, media tags, segments and URIs.
pub open spec fn only_media_parts(p: Seq<PlaylistItemV>) -> bool {
    forall|k: int|
        0 <= k < p.len() ==> (#[trigger] p[k] is MediaTag || p[k] is Segment || p[k] is Uri || (p[k] matches PlaylistItemV::SharedTag(t)
            && is_simple_shared_tag(t)))
}

/// The kind of playlist a reader has found after the items: a media playlist once a media tag
/// or a segment was read.
pub open spec fn kind_after(items: Seq<MediaItemV>) -> PlaylistKind
    decreases items.len(),
{
    if items.len() == 0 {
        PlaylistKind::Unknown
    } else if items.last() is SharedTag {
        kind_after(items.drop_last())
    } else {
        PlaylistKind::Media
    }
}

/// Both items are shared tags of the same kind.
pub open spec fn same_kind_items(a: MediaItemV, b: MediaItemV) -> bool {
    match a {
        MediaItemV::SharedTag(t) => same_shared_kind(b, t),
        _ => false,
    }
}

/// No two items are shared tags of the same kind.
pub open spec fn distinct_shared(items: Seq<MediaItemV>) -> bool {
    forall|j: int, k: int| 0 <= j < k < items.len() ==> !#[trigger] same_kind_items(items[j], items[k])
}

/// The media sequence number a reader has in force after the items: the last media sequence
/// tag's number, counted up by one for each segment after it.
pub open spec fn sequence_after(items: Seq<MediaItemV>) -> u64
    decreases items.len(),
{
    if items.len() == 0 {
        0
    } else {
        match items.last() {
            MediaItemV::ExclusiveTag(MediaTagV::MediaSequence(ms)) => ms,
            MediaItemV::MediaSegment(_) => next_sequence(sequence_after(items.drop_last())),
            _ => sequence_after(items.drop_last()),
        }
    }
}

/// Each segment carries the media sequence number a reader gives it.
pub open spec fn numbered(items: Seq<MediaItemV>) -> bool {
    forall|k: int|
        0 <= k < items.len() ==> (#[trigger] items[k] matches MediaItemV::MediaSegment(s) ==> s.media_sequence
            == sequence_after(items.take(k)))
}

proof fn lemma_media_of_front(p: Seq<PlaylistItemV>)
    requires
        p.len() > 0,
    ensures
        media_of(p) == media_part(p[0]) + media_of(p.drop_first()),
    decreases p.len(),
{
    if p.len() == 1 {
        assert(p.drop_last() =~= Seq::<PlaylistItemV>::empty());
        assert(p.drop_first() =~= Seq::<PlaylistItemV>::empty());
        assert(media_of(p) =~= media_part(p[0]) + media_of(p.drop_first()));
    } else {
        lemma_media_of_front(p.drop_last());
        assert(p.drop_last().drop_first() =~= p.drop_first().drop_last());
        assert(p.drop_first().last() == p.last());
        assert(media_of(p) =~= media_part(p[0]) + media_of(p.drop_first()));
    }
}

proof fn lemma_build(p: Seq<PlaylistItemV>, i: nat, acc: Seq<MediaItemV>)
    requires
        only_media_parts(p),
        i <= p.len(),
        distinct_shared(acc + media_of(p.subrange(i as int, p.len() as int))),
    ensures
        build_media(p, i, (acc, Seq::<VarDefV>::empty())) == Ok::<(Seq<MediaItemV>, Seq<VarDefV>), PErr>(
            (acc + media_of(p.subrange(i as int, p.len() as int)), Seq::<VarDefV>::empty()),
        ),
    decreases p.len() - i,
{
    let q = p.subrange(i as int, p.len() as int);
    if i == p.len() {
        assert(q =~= Seq::<PlaylistItemV>::empty());
        assert(acc + media_of(q) =~= acc);
    } else {
        lemma_media_of_front(q);
        assert(q[0] == p[i as int]);
        assert(q.drop_first() =~= p.subrange((i + 1) as int, p.len() as int));
        let next = acc + media_part(p[i as int]);
        assert(next + media_of(p.subrange((i + 1) as int, p.len() as int)) =~= acc + media_of(q));
        if let PlaylistItemV::SharedTag(t) = p[i as int] {
            assert(is_simple_shared_tag(t));
            let w = acc + media_of(q);
            assert(w[acc.len() as int] == MediaItemV::SharedTag(t));
            assert(!crate::media::has_shared_kind(acc, t)) by {
                if crate::media::has_shared_kind(acc, t) {
                    let j = choose|j: int| 0 <= j < acc.len() && #[trigger] same_shared_kind(acc[j], t);
                    assert(w[j] == acc[j]);
                    assert(same_kind_items(w[j], w[acc.len() as int]));
                }
            }
            assert(crate::media::media_apply_spec(acc, Seq::<VarDefV>::empty(), t) == Ok::<(Seq<MediaItemV>, Seq<VarDefV>), PErr>(
                (acc.push(MediaItemV::SharedTag(t)), Seq::<VarDefV>::empty()),
            ));
            assert(acc.push(MediaItemV::SharedTag(t)) =~= next);
        }
        lemma_build(p, i + 1, next);
        match p[i as int] {
            PlaylistItemV::MediaTag(t) => assert(acc.push(MediaItemV::ExclusiveTag(t)) =~= next),
            PlaylistItemV::Segment(s) => assert(acc.push(MediaItemV::MediaSegment(s)) =~= next),
            PlaylistItemV::SharedTag(t) => {},
            _ => assert(acc =~= next),
        }
    }
}

/// Where the lines of the item `k` stand among the lines of all items.
proof fn lemma_line_at(items: Seq<MediaItemV>, k: int)
    requires
        0 <= k < items.len(),
    ensures
        all_lines(items.take((k + 1) as int)) == all_lines(items.take(k)) + item_lines(items[k]),
        all_lines(items.take((k + 1) as int)).len() <= all_lines(items).len(),
        forall|j: int|
            0 <= j < item_lines(items[k]).len() ==> all_lines(items)[all_lines(items.take(k)).len() + j]
                == #[trigger] item_lines(items[k])[j],
{
    assert(items.take((k + 1) as int).drop_last() =~= items.take(k));
    assert(items.take((k + 1) as int).last() == items[k]);
    lemma_all_lines_concat(items.take((k + 1) as int), items.skip(k + 1));
    assert(items.take((k + 1) as int) + items.skip(k + 1) =~= items);
    let a = all_lines(items.take(k));
    assert forall|j: int| 0 <= j < item_lines(items[k]).len() implies all_lines(items)[a.len() + j]
        == #[trigger] item_lines(items[k])[j] by {
        assert(all_lines(items)[a.len() + j] == all_lines(items.take((k + 1) as int))[a.len() + j]);
    }
}

/// The state of a reader before the item `k` of simple items.
pub open spec fn reader_before(items: Seq<MediaItemV>, k: nat, c: ContextV) -> bool {
    &&& !c.validator.seen_first_media_segment
    &&& !c.validator.seen_discontinuity
    &&& c.pending == empty_pending()
    &&& c.media_sequence == sequence_after(items.take(k as int))
    &&& c.kind == kind_after(items.take(k as int))
    &&& c.kind != PlaylistKind::Multivariant
    &&& only_media_parts(c.items)
    &&& media_of(c.items) == items.take(k as int)
}

proof fn lemma_tag_step(items: Seq<MediaItemV>, k: nat, c: ContextV, t: MediaTagV) -> (c2: ContextV)
    requires
        all_simple(items),
        k < items.len(),
        items[k as int] == MediaItemV::ExclusiveTag(t),
        reader_before(items, k, c),
    ensures
        ({
            let ls = seq!["#EXTM3U".spec_bytes()] + all_lines(items);
            let i = 1 + all_lines(items.take(k as int)).len();
            &&& reader_before(items, k + 1, c2)
            &&& run_lines(ls, i, c) == run_lines(ls, (i + 1) as nat, c2)
            &&& 1 + all_lines(items.take((k + 1) as int)).len() == i + 1
        }),
{
    let ls = seq!["#EXTM3U".spec_bytes()] + all_lines(items);
    let i = 1 + all_lines(items.take(k as int)).len();
    assert(is_simple_item(items[k as int]));
    lemma_line_at(items, k as int);
    assert(item_lines(items[k as int])[0] == media_tag_text(t));
    assert(ls[i as int] == media_tag_text(t));
    lemma_simple_tag_kind(c, t, (i + 1) as nat);
    let c1 = line_kind_spec(c, ls[i as int], (i + 1) as nat).0;
    let c2 = ContextV { kind: PlaylistKind::Media, items: c1.items.push(PlaylistItemV::MediaTag(t)), ..c1 };
    assert(consume_spec(c1, ParsedLineV::MediaTag(t), (i + 1) as nat) == Ok::<ContextV, PErr>(c2));
    assert(items.take((k + 1) as int).drop_last() =~= items.take(k as int));
    assert(items.take((k + 1) as int).last() == items[k as int]);
    assert(c2.items.drop_last() =~= c.items);
    assert(media_of(c2.items) =~= items.take((k + 1) as int));
    assert(only_media_parts(c2.items)) by {
        assert forall|j: int| 0 <= j < c2.items.len() implies (#[trigger] c2.items[j] is MediaTag || c2.items[j] is Segment
            || c2.items[j] is Uri || (c2.items[j] matches PlaylistItemV::SharedTag(u) && is_simple_shared_tag(u))) by {
            if j < c.items.len() {
                assert(c2.items[j] == c.items[j]);
            }
        }
    }
    c2
}

/// The `EXTINF` line of a segment: the pending segment takes its duration, title and the
/// media sequence number in force, and the playlist is a media playlist.
proof fn lemma_extinf_line_step(items: Seq<MediaItemV>, k: nat, c: ContextV, s: MediaSegmentV) -> (c2: ContextV)
    requires
        all_simple(items),
        k < items.len(),
        items[k as int] == MediaItemV::MediaSegment(s),
        reader_before(items, k, c),
    ensures
        ({
            let ls = seq!["#EXTM3U".spec_bytes()] + all_lines(items);
            let i = 1 + all_lines(items.take(k as int)).len();
            &&& run_lines(ls, i, c) == run_lines(ls, (i + 1) as nat, c2)
            &&& c2 == ContextV {
                kind: PlaylistKind::Media,
                pending: PendingV {
                    duration: Some(s.duration),
                    title: s.title,
                    media_sequence: c.media_sequence,
                    ..empty_pending()
                },
                ..c
            }
        }),
{
    let ls = seq!["#EXTM3U".spec_bytes()] + all_lines(items);
    let i = 1 + all_lines(items.take(k as int)).len();
    assert(is_simple_item(items[k as int]));
    lemma_line_at(items, k as int);
    assert(item_lines(items[k as int])[0] == extinf_text(s));
    assert(ls[i as int] == extinf_text(s));
    lemma_extinf_kind(c, s, (i + 1) as nat);
    let np = PendingV { duration: Some(s.duration), title: s.title, media_sequence: c.media_sequence, ..c.pending };
    let c1 = ContextV { pending: np, ..c };
    let c2 = ContextV { kind: PlaylistKind::Media, ..c1 };
    assert(consume_spec(c1, ParsedLineV::MediaSegment, (i + 1) as nat) == Ok::<ContextV, PErr>(c2));
    c2
}

/// The pending segment once all lines of the segment `s` before its URI were read, with the
/// media sequence number `ms`.
pub open spec fn pending_of(s: MediaSegmentV, ms: u64) -> PendingV {
    PendingV {
        duration: Some(s.duration),
        title: s.title,
        byte_range: s.byte_range,
        discontinuity: s.discontinuity,
        gap: s.gap,
        bitrate: s.bitrate,
        media_sequence: ms,
        ..empty_pending()
    }
}

proof fn lemma_byte_range_stage(ls: Seq<Seq<u8>>, j: nat, cc: ContextV, o: Option<crate::segment::ByteRange>) -> (r: (nat, ContextV))
    requires
        cc.kind == PlaylistKind::Media,
        cc.pending.media_sequence == cc.media_sequence,
        o is Some ==> 1 <= j < ls.len() && ls[j as int] == byte_range_text(o->0),
    ensures
        o is Some ==> r == (j + 1, ContextV { pending: PendingV { byte_range: o, ..cc.pending }, ..cc }),
        o is None ==> r == (j, cc),
        run_lines(ls, j, cc) == run_lines(ls, r.0, r.1),
{
    let br = o->0;
    let x = byte_range_text(br);
    lemma_segment_prefixes();
    lemma_segment_tag_literals();
    lemma_pending_byte_range(cc.pending, br);
    let rest = dec_digits(br.len as nat) + match br.offset {
        Some(v) => "@".spec_bytes() + dec_digits(v as nat),
        None => Seq::<u8>::empty(),
    };
    assert(x == "#EXT-X-BYTERANGE:".spec_bytes() + rest);
    lemma_named("#EXT-X-BYTERANGE:".spec_bytes(), rest);
    lemma_tag_stage(ls, j, cc, o is Some, x, PendingV { byte_range: Some(br), ..cc.pending })
}

proof fn lemma_discontinuity_stage(ls: Seq<Seq<u8>>, j: nat, cc: ContextV, present: bool) -> (r: (nat, ContextV))
    requires
        cc.kind == PlaylistKind::Media,
        cc.pending.media_sequence == cc.media_sequence,
        present ==> 1 <= j < ls.len() && ls[j as int] == "#EXT-X-DISCONTINUITY".spec_bytes(),
    ensures
        present ==> r == (j + 1, ContextV { pending: PendingV { discontinuity: true, ..cc.pending }, ..cc }),
        !present ==> r == (j, cc),
        run_lines(ls, j, cc) == run_lines(ls, r.0, r.1),
{
    let x = "#EXT-X-DISCONTINUITY".spec_bytes();
    lemma_segment_prefixes();
    lemma_pending_discontinuity(cc.pending);
    lemma_named(x, Seq::empty());
    assert(x + Seq::<u8>::empty() =~= x);
    lemma_tag_stage(ls, j, cc, present, x, PendingV { discontinuity: true, ..cc.pending })
}

proof fn lemma_gap_stage(ls: Seq<Seq<u8>>, j: nat, cc: ContextV, present: bool) -> (r: (nat, ContextV))
    requires
        cc.kind == PlaylistKind::Media,
        cc.pending.media_sequence == cc.media_sequence,
        present ==> 1 <= j < ls.len() && ls[j as int] == "#EXT-X-GAP".spec_bytes(),
    ensures
        present ==> r == (j + 1, ContextV { pending: PendingV { gap: true, ..cc.pending }, ..cc }),
        !present ==> r == (j, cc),
        run_lines(ls, j, cc) == run_lines(ls, r.0, r.1),
{
    let x = "#EXT-X-GAP".spec_bytes();
    lemma_segment_prefixes();
    lemma_pending_gap(cc.pending);
    lemma_named(x, Seq::empty());
    assert(x + Seq::<u8>::empty() =~= x);
    lemma_tag_stage(ls, j, cc, present, x, PendingV { gap: true, ..cc.pending })
}

proof fn lemma_bitrate_stage(ls: Seq<Seq<u8>>, j: nat, cc: ContextV, o: Option<u64>) -> (r: (nat, ContextV))
    requires
        cc.kind == PlaylistKind::Media,
        cc.pending.media_sequence == cc.media_sequence,
        o is Some ==> 1 <= j < ls.len() && ls[j as int] == bitrate_text(o->0),
    ensures
        o is Some ==> r == (j + 1, ContextV { pending: PendingV { bitrate: o, ..cc.pending }, ..cc }),
        o is None ==> r == (j, cc),
        run_lines(ls, j, cc) == run_lines(ls, r.0, r.1),
{
    let b = o->0;
    lemma_segment_prefixes();
    lemma_pending_bitrate(cc.pending, b);
    lemma_named("#EXT-X-BITRATE:".spec_bytes(), dec_digits(b as nat));
    lemma_tag_stage(ls, j, cc, o is Some, bitrate_text(b), PendingV { bitrate: Some(b), ..cc.pending })
}

/// Where the lines of a segment stand: its tag lines, then its URI.
proof fn lemma_segment_positions(items: Seq<MediaItemV>, k: nat, s: MediaSegmentV)
    requires
        k < items.len(),
        items[k as int] == MediaItemV::MediaSegment(s),
    ensures
        ({
            let ls = seq!["#EXTM3U".spec_bytes()] + all_lines(items);
            let i = 1 + all_lines(items.take(k as int)).len();
            let t = segment_tag_seq(s);
            &&& forall|q: int| 0 <= q < t.len() ==> ls[i + 1 + q] == #[trigger] t[q]
            &&& i + 1 + t.len() < ls.len()
            &&& ls[(i + 1 + t.len()) as int] == render_spec(s.uri)
            &&& 1 + all_lines(items.take((k + 1) as int)).len() == i + 2 + t.len()
        }),
{
    let ls = seq!["#EXTM3U".spec_bytes()] + all_lines(items);
    let i = 1 + all_lines(items.take(k as int)).len();
    lemma_line_at(items, k as int);
    let il = item_lines(items[k as int]);
    let t = segment_tag_seq(s);
    assert(il == seq![extinf_text(s)] + t + seq![render_spec(s.uri)]);
    assert forall|q: int| 0 <= q < t.len() implies ls[i + 1 + q] == #[trigger] t[q] by {
        assert(il[1 + q] == t[q]);
    }
    assert(il[(1 + t.len()) as int] == render_spec(s.uri));
}

/// The tag lines of a segment, after its `EXTINF` line: each is taken into the pending segment.
#[verifier::spinoff_prover]
proof fn lemma_segment_tags_run(items: Seq<MediaItemV>, k: nat, s: MediaSegmentV, c2: ContextV) -> (r: (nat, ContextV))
    requires
        all_simple(items),
        k < items.len(),
        items[k as int] == MediaItemV::MediaSegment(s),
        c2.kind == PlaylistKind::Media,
        c2.pending == (PendingV {
            duration: Some(s.duration),
            title: s.title,
            media_sequence: c2.media_sequence,
            ..empty_pending()
        }),
    ensures
        ({
            let ls = seq!["#EXTM3U".spec_bytes()] + all_lines(items);
            let i = 1 + all_lines(items.take(k as int)).len();
            &&& r.1 == ContextV { pending: pending_of(s, c2.media_sequence), ..c2 }
            &&& run_lines(ls, (i + 1) as nat, c2) == run_lines(ls, r.0, r.1)
            &&& r.0 < ls.len()
            &&& ls[r.0 as int] == render_spec(s.uri)
            &&& 1 + all_lines(items.take((k + 1) as int)).len() == r.0 + 1
        }),
{
    let ls = seq!["#EXTM3U".spec_bytes()] + all_lines(items);
    let i = 1 + all_lines(items.take(k as int)).len();
    assert(is_simple_item(items[k as int]));
    lemma_segment_positions(items, k, s);
    let t = segment_tag_seq(s);
    let o1 = opt_line(s.byte_range is Some, byte_range_text(s.byte_range->0));
    let o2 = opt_line(s.discontinuity, "#EXT-X-DISCONTINUITY".spec_bytes());
    let o3 = opt_line(s.gap, "#EXT-X-GAP".spec_bytes());
    let o4 = opt_line(s.bitrate is Some, bitrate_text(s.bitrate->0));
    assert(t == o1 + o2 + o3 + o4);
    if s.byte_range is Some {
        assert(t[0] == o1[0]);
    }
    let r1 = lemma_byte_range_stage(ls, (i + 1) as nat, c2, s.byte_range);
    assert(r1.0 == i + 1 + o1.len());
    if s.discontinuity {
        assert(t[o1.len() as int] == o2[0]);
    }
    let r2 = lemma_discontinuity_stage(ls, r1.0, r1.1, s.discontinuity);
    assert(r2.0 == i + 1 + o1.len() + o2.len());
    if s.gap {
        assert(t[(o1.len() + o2.len()) as int] == o3[0]);
    }
    let r3 = lemma_gap_stage(ls, r2.0, r2.1, s.gap);
    assert(r3.0 == i + 1 + o1.len() + o2.len() + o3.len());
    if s.bitrate is Some {
        assert(t[(o1.len() + o2.len() + o3.len()) as int] == o4[0]);
    }
    let r4 = lemma_bitrate_stage(ls, r3.0, r3.1, s.bitrate);
    assert(r4.0 == i + 1 + t.len());
    assert(r4.1 == ContextV { pending: pending_of(s, c2.media_sequence), ..c2 });
    r4
}

/// The URI line of a segment: the segment and the URI are kept, and the next number is in
/// force.
proof fn lemma_uri_line_step(items: Seq<MediaItemV>, k: nat, c: ContextV, s: MediaSegmentV, c2: ContextV, i: nat) -> (c3: ContextV)
    requires
        all_simple(items),
        numbered(items),
        k < items.len(),
        items[k as int] == MediaItemV::MediaSegment(s),
        reader_before(items, k, c),
        c2 == (ContextV { kind: PlaylistKind::Media, pending: pending_of(s, c.media_sequence), ..c }),
        1 <= i < (seq!["#EXTM3U".spec_bytes()] + all_lines(items)).len(),
        (seq!["#EXTM3U".spec_bytes()] + all_lines(items))[i as int] == render_spec(s.uri),
    ensures
        reader_before(items, k + 1, c3),
        run_lines(seq!["#EXTM3U".spec_bytes()] + all_lines(items), i, c2) == run_lines(
            seq!["#EXTM3U".spec_bytes()] + all_lines(items),
            i + 1,
            c3,
        ),
{
    assert(is_simple_item(items[k as int]));
    let path = render_spec(s.uri);
    lemma_simple_uri(s.uri);
    lemma_uri_kind(c2, path, i + 1);
    assert(s.media_sequence == sequence_after(items.take(k as int)));
    assert(segment_of(c2.pending, parse_spec(path)) == Ok::<MediaSegmentV, PErr>(s));
    let c3 = ContextV {
        items: c2.items.push(PlaylistItemV::Segment(s)).push(PlaylistItemV::Uri(parse_spec(path), i + 1)),
        pending: empty_pending(),
        media_sequence: next_sequence(c2.media_sequence),
        previous_media_sequence_number: Some(c2.media_sequence),
        ..c2
    };
    assert(consume_spec(c2, ParsedLineV::Uri(path), i + 1) == Ok::<ContextV, PErr>(c3));
    assert(items.take((k + 1) as int).drop_last() =~= items.take(k as int));
    assert(items.take((k + 1) as int).last() == items[k as int]);
    let mid = c2.items.push(PlaylistItemV::Segment(s));
    assert(c3.items.drop_last() =~= mid);
    assert(mid.drop_last() =~= c.items);
    assert(media_of(mid) == media_of(c.items) + media_part(PlaylistItemV::Segment(s)));
    assert(media_of(c3.items) == media_of(mid) + media_part(PlaylistItemV::Uri(parse_spec(path), i + 1)));
    assert(media_of(c3.items) =~= items.take((k + 1) as int));
    assert(only_media_parts(c3.items)) by {
        assert forall|j: int| 0 <= j < c3.items.len() implies (#[trigger] c3.items[j] is MediaTag || c3.items[j] is Segment
            || c3.items[j] is Uri || (c3.items[j] matches PlaylistItemV::SharedTag(u) && is_simple_shared_tag(u))) by {
            if j < c.items.len() {
                assert(c3.items[j] == c.items[j]);
            }
        }
    }
    c3
}

proof fn lemma_shared_step(items: Seq<MediaItemV>, k: nat, c: ContextV, t: SharedTagV) -> (c2: ContextV)
    requires
        all_simple(items),
        k < items.len(),
        items[k as int] == MediaItemV::SharedTag(t),
        reader_before(items, k, c),
    ensures
        ({
            let ls = seq!["#EXTM3U".spec_bytes()] + all_lines(items);
            let i = 1 + all_lines(items.take(k as int)).len();
            &&& reader_before(items, k + 1, c2)
            &&& run_lines(ls, i, c) == run_lines(ls, (i + 1) as nat, c2)
            &&& 1 + all_lines(items.take((k + 1) as int)).len() == i + 1
        }),
{
    let ls = seq!["#EXTM3U".spec_bytes()] + all_lines(items);
    let i = 1 + all_lines(items.take(k as int)).len();
    assert(is_simple_item(items[k as int]));
    lemma_line_at(items, k as int);
    assert(item_lines(items[k as int])[0] == shared_tag_text(t));
    assert(ls[i as int] == shared_tag_text(t));
    lemma_shared_kind(c, t, (i + 1) as nat);
    let c2 = ContextV { items: c.items.push(PlaylistItemV::SharedTag(t)), ..c };
    assert(consume_spec(c, ParsedLineV::SharedTag(t), (i + 1) as nat) == Ok::<ContextV, PErr>(c2));
    assert(items.take((k + 1) as int).drop_last() =~= items.take(k as int));
    assert(items.take((k + 1) as int).last() == items[k as int]);
    assert(c2.items.drop_last() =~= c.items);
    assert(media_of(c2.items) =~= items.take((k + 1) as int));
    assert(only_media_parts(c2.items)) by {
        assert forall|j: int| 0 <= j < c2.items.len() implies (#[trigger] c2.items[j] is MediaTag || c2.items[j] is Segment
            || c2.items[j] is Uri || (c2.items[j] matches PlaylistItemV::SharedTag(u) && is_simple_shared_tag(u))) by {
            if j < c.items.len() {
                assert(c2.items[j] == c.items[j]);
            }
        }
    }
    c2
}

proof fn lemma_run(items: Seq<MediaItemV>, k: nat, c: ContextV)
    requires
        all_simple(items),
        numbered(items),
        k <= items.len(),
        reader_before(items, k, c),
    ensures
        run_lines(seq!["#EXTM3U".spec_bytes()] + all_lines(items), 1 + all_lines(items.take(k as int)).len(), c) is Ok,
        ({
            let r = run_lines(seq!["#EXTM3U".spec_bytes()] + all_lines(items), 1 + all_lines(items.take(k as int)).len(), c)->Ok_0;
            reader_before(items, items.len(), r)
        }),
    decreases items.len() - k,
{
    let ls = seq!["#EXTM3U".spec_bytes()] + all_lines(items);
    if k == items.len() {
        assert(items.take(k as int) =~= items);
    } else {
        assert(is_simple_item(items[k as int]));
        match items[k as int] {
            MediaItemV::ExclusiveTag(t) => {
                let c2 = lemma_tag_step(items, k, c, t);
                lemma_run(items, k + 1, c2);
            },
            MediaItemV::SharedTag(t) => {
                let c2 = lemma_shared_step(items, k, c, t);
                lemma_run(items, k + 1, c2);
            },
            MediaItemV::MediaSegment(s) => {
                let c2 = lemma_extinf_line_step(items, k, c, s);
                let r = lemma_segment_tags_run(items, k, s, c2);
                let c3 = lemma_uri_line_step(items, k, c, s, r.1, r.0);
                lemma_run(items, k + 1, c3);
            },
            _ => {},
        }
    }
}

/// Some item is a media tag or a segment.
pub open spec fn has_media_item(items: Seq<MediaItemV>) -> bool {
    exists|k: int| 0 <= k < items.len() && !(#[trigger] items[k] is SharedTag)
}

proof fn lemma_kind_after(items: Seq<MediaItemV>)
    requires
        has_media_item(items),
    ensures
        kind_after(items) == PlaylistKind::Media,
    decreases items.len(),
{
    if items.last() is SharedTag {
        let k = choose|k: int| 0 <= k < items.len() && !(#[trigger] items[k] is SharedTag);
        assert(k < items.len() - 1);
        assert(items.drop_last()[k] == items[k]);
        lemma_kind_after(items.drop_last());
    }
}

/// A media playlist reads back, from the text the writer gives it, as the same items, where
/// it is made of version, independent-segments and start tags (a start not precise, with a
/// signed decimal offset; no two of a kind), target durations
/// (of at least one second), media and discontinuity sequence numbers, end-of-list, playlist
/// type and I-frames-only tags, partial segment information (a part target written as an
/// unsigned decimal), server control (a skip boundary and any hold backs, written as unsigned
/// decimals, with neither date-range skipping nor blocking reload), and of segments that have
/// a whole-number duration or a decimal one written with a `.`, a title or none, a URI that reads back as itself (a plain path, or
/// a scheme, an authority and a path, each with a query or none, and no fragment), a byte range,
/// discontinuity, gap and bitrate or not, and no key, map, date or partial segment, each
/// segment numbered as a reader numbers it; and where it has no items or some item that is no
/// shared tag (a reader takes lines of shared tags alone for an empty playlist).
pub proof fn law_media_playlist_round_trip(items: Seq<MediaItemV>)
    requires
        all_simple(items),
        numbered(items),
        distinct_shared(items),
        items.len() == 0 || has_media_item(items),
    ensures
        playlist_spec(playlist_text(items)) == Ok::<PlaylistV, PErr>(PlaylistV::Media(items, Seq::empty())),
{
    let ls = seq!["#EXTM3U".spec_bytes()] + all_lines(items);
    lemma_playlist_lines(items);
    let c0 = initial_context();
    assert(ls[0] == "#EXTM3U".spec_bytes());
    assert(line_kind_spec(c0, ls[0], 1) == (c0, Ok::<ParsedLineV, PErr>(ParsedLineV::M3U)));
    assert(run_lines(ls, 0, c0) == run_lines(ls, 1, c0));
    assert(items.take(0) =~= Seq::<MediaItemV>::empty());
    assert(media_of(c0.items) =~= items.take(0));
    lemma_run(items, 0, c0);
    let r = run_lines(ls, 1, c0)->Ok_0;
    assert(items.take(items.len() as int) =~= items);
    if items.len() == 0 {
        assert(items =~= Seq::<MediaItemV>::empty());
    } else {
        lemma_kind_after(items);
        assert(r.items.subrange(0, r.items.len() as int) =~= r.items);
        assert(Seq::<MediaItemV>::empty() + media_of(r.items) =~= items);
        lemma_build(r.items, 0, Seq::empty());
    }
}


/* Shared tags read back */

/// The bytes of a signed decimal: digits, `.` and `-`, at least one.
proof fn lemma_decimal_bytes(t: Seq<u8>)
    requires
        is_decimal(t, true),
    ensures
        t.len() > 0,
        forall|k: int| 0 <= k < t.len() ==> 0x2d <= #[trigger] t[k] <= 0x39 && t[k] != 0x2f,
{
    let b = crate::decimal::dec_body(t);
    let w = choose|i: int| 0 <= i < b.len() && crate::decimal::is_digit(#[trigger] b[i]);
    assert forall|k: int| 0 <= k < t.len() implies 0x2d <= #[trigger] t[k] <= 0x39 && t[k] != 0x2f by {
        if t[0] == 0x2d {
            if k > 0 {
                assert(t[k] == b[k - 1]);
            }
        } else {
            assert(t[k] == b[k]);
        }
    }
}

proof fn lemma_start_literals()
    ensures
        "#EXT-X-START:PRECISE=".spec_bytes() == "#EXT-X-START:".spec_bytes() + "PRECISE".spec_bytes() + seq![0x3du8],
        ",TIME-OFFSET=".spec_bytes() == seq![0x2cu8] + "TIME-OFFSET".spec_bytes() + seq![0x3du8],
        "#EXT-X-START:".spec_bytes().len() == 13,
        "#EXT-X-START:".spec_bytes()[7] == 0x53,
        "false".spec_bytes().len() == 5,
        forall|k: int| 0 <= k < 5 ==> 0x61 <= #[trigger] "false".spec_bytes()[k] <= 0x7a,
        "PRECISE".spec_bytes().len() == 7,
        forall|k: int| 0 <= k < 7 ==> 0x41 <= #[trigger] "PRECISE".spec_bytes()[k] <= 0x5a,
        "TIME-OFFSET".spec_bytes().len() == 11,
        forall|k: int| 0 <= k < 11 ==> 0x2d <= #[trigger] "TIME-OFFSET".spec_bytes()[k] <= 0x5a
            && "TIME-OFFSET".spec_bytes()[k] != 0x3d,
        "TIME-OFFSET".spec_bytes() != "PRECISE".spec_bytes(),
        "YES".spec_bytes() != "false".spec_bytes(),
{
    reveal_strlit("#EXT-X-START:PRECISE=");
    reveal_strlit(",TIME-OFFSET=");
    reveal_strlit("#EXT-X-START:");
    reveal_strlit("false");
    reveal_strlit("PRECISE");
    reveal_strlit("TIME-OFFSET");
    reveal_strlit("YES");
    lemma_ascii_str("#EXT-X-START:PRECISE=");
    lemma_ascii_str(",TIME-OFFSET=");
    lemma_ascii_str("#EXT-X-START:");
    lemma_ascii_str("false");
    lemma_ascii_str("PRECISE");
    lemma_ascii_str("TIME-OFFSET");
    lemma_ascii_str("YES");
    assert("#EXT-X-START:PRECISE=".spec_bytes() =~= "#EXT-X-START:".spec_bytes() + "PRECISE".spec_bytes() + seq![0x3du8]);
    assert(",TIME-OFFSET=".spec_bytes() =~= seq![0x2cu8] + "TIME-OFFSET".spec_bytes() + seq![0x3du8]);
}

/// The two parts of a start tag's attributes, as written.
proof fn lemma_start_parts(t: Seq<u8>)
    requires
        is_decimal(t, true),
    ensures
        crate::attribute_list::split_attributes_spec(
            "PRECISE".spec_bytes() + seq![0x3du8] + "false".spec_bytes() + seq![0x2cu8] + ("TIME-OFFSET".spec_bytes()
                + seq![0x3du8] + t),
        ) == seq!["PRECISE".spec_bytes() + seq![0x3du8] + "false".spec_bytes(), "TIME-OFFSET".spec_bytes() + seq![0x3du8] + t],
{
    lemma_start_literals();
    lemma_decimal_bytes(t);
    let n1 = "PRECISE".spec_bytes();
    let f = "false".spec_bytes();
    let n2 = "TIME-OFFSET".spec_bytes();
    let p1 = n1 + seq![0x3du8] + f;
    let p2 = n2 + seq![0x3du8] + t;
    assert forall|k: int| 0 <= k < p1.len() implies #[trigger] p1[k] != 0x22 && p1[k] != 0x2c by {
        if k < 7 {
            assert(p1[k] == n1[k]);
        } else if k > 7 {
            assert(p1[k] == f[k - 8]);
        }
    }
    assert forall|k: int| 0 <= k < p2.len() implies #[trigger] p2[k] != 0x22 && p2[k] != 0x2c by {
        if k < 11 {
            assert(p2[k] == n2[k]);
        } else if k > 11 {
            assert(p2[k] == t[k - 12]);
        }
    }
    assert(p1[0] == n1[0]);
    assert(p1[p1.len() - 1] == f[4]);
    assert(p2[0] == n2[0]);
    assert(p2[p2.len() - 1] == t[t.len() - 1]);
    crate::attribute_list::lemma_split_two(p1, p2);
}

/// The attributes of a start tag that is not precise, as written, are read as its two
/// attributes.
proof fn lemma_start_attributes(t: Seq<u8>)
    requires
        is_decimal(t, true),
    ensures
        attribute_list_spec(
            "PRECISE".spec_bytes() + seq![0x3du8] + "false".spec_bytes() + seq![0x2cu8] + ("TIME-OFFSET".spec_bytes()
                + seq![0x3du8] + t),
        ) == Ok::<Seq<(Seq<u8>, AttrV)>, PErr>(
            seq![
                ("PRECISE".spec_bytes(), AttrV::EnumeratedString("false".spec_bytes())),
                ("TIME-OFFSET".spec_bytes(), AttrV::SignedDecimalFloatingPoint(t)),
            ],
        ),
{
    let n1 = "PRECISE".spec_bytes();
    let f = "false".spec_bytes();
    let n2 = "TIME-OFFSET".spec_bytes();
    let p1 = n1 + seq![0x3du8] + f;
    let p2 = n2 + seq![0x3du8] + t;
    let a = p1 + seq![0x2cu8] + p2;
    let m = seq![(n1, AttrV::EnumeratedString(f)), (n2, AttrV::SignedDecimalFloatingPoint(t))];
    assert(crate::attribute_list::split_attributes_spec(a) == seq![p1, p2]) by {
        lemma_start_parts(t);
    }
    assert(crate::attribute_list::build_list(seq![p1, p2], 0, Seq::empty()) == Ok::<Seq<(Seq<u8>, AttrV)>, PErr>(m)) by {
        lemma_start_entries(t);
        assert(n2 != n1) by {
            lemma_start_literals();
        }
        crate::attribute_list::lemma_build_two(p1, p2, m[0], m[1]);
    }
}

/// The two parts of a start tag's attributes are read as `PRECISE` and `TIME-OFFSET`.
proof fn lemma_start_entries(t: Seq<u8>)
    requires
        is_decimal(t, true),
    ensures
        crate::attribute_list::entry_of_part("PRECISE".spec_bytes() + seq![0x3du8] + "false".spec_bytes()) == Ok::<
            (Seq<u8>, AttrV),
            PErr,
        >(("PRECISE".spec_bytes(), AttrV::EnumeratedString("false".spec_bytes()))),
        crate::attribute_list::entry_of_part("TIME-OFFSET".spec_bytes() + seq![0x3du8] + t) == Ok::<
            (Seq<u8>, AttrV),
            PErr,
        >(("TIME-OFFSET".spec_bytes(), AttrV::SignedDecimalFloatingPoint(t))),
{
    lemma_start_literals();
    lemma_decimal_bytes(t);
    let n1 = "PRECISE".spec_bytes();
    let f = "false".spec_bytes();
    let n2 = "TIME-OFFSET".spec_bytes();
    crate::attribute_list::lemma_entry_of_part(n1, f);
    crate::attribute_list::lemma_entry_of_part(n2, t);
    crate::attribute_list::lemma_precise_kind();
    crate::attribute_list::lemma_time_offset_kind();
    assert(crate::attribute_list::enum_spec(f) == Ok::<Seq<u8>, PErr>(f)) by {
        assert forall|k: int| 0 <= k < f.len() implies crate::text::ws_len_at(f, k) == 0 by {
            assert(0x61 <= f[k] <= 0x7a);
        }
    }
    assert(crate::attribute_list::attr_value_spec(n1, f) == Ok::<AttrV, PErr>(AttrV::EnumeratedString(f)));
    assert(crate::attribute_list::float_spec(t, true) == Ok::<Seq<u8>, PErr>(t));
    assert(crate::attribute_list::attr_value_spec(n2, t) == Ok::<AttrV, PErr>(AttrV::SignedDecimalFloatingPoint(t)));
}

/// A start tag that is not precise, with an offset that is a signed decimal, reads back as
/// itself.
proof fn lemma_start_round_trip(t: Seq<u8>, n: nat)
    requires
        is_decimal(t, true),
    ensures
        shared_tag_spec(shared_tag_text(SharedTagV::Start { precise: false, time_offset: t }), n) == Ok::<
            SharedTagV,
            PErr,
        >(SharedTagV::Start { precise: false, time_offset: t }),
{
    let sp = "#EXT-X-START:".spec_bytes();
    let n1 = "PRECISE".spec_bytes();
    let f = "false".spec_bytes();
    let n2 = "TIME-OFFSET".spec_bytes();
    let a = n1 + seq![0x3du8] + f + seq![0x2cu8] + (n2 + seq![0x3du8] + t);
    let x = shared_tag_text(SharedTagV::Start { precise: false, time_offset: t });
    let m = seq![(n1, AttrV::EnumeratedString(f)), (n2, AttrV::SignedDecimalFloatingPoint(t))];
    let v = "#EXT-X-VERSION:".spec_bytes();
    let ind = "#EXT-X-INDEPENDENT-SEGMENTS".spec_bytes();
    lemma_start_text(t);
    assert(attribute_list_spec(a) == Ok::<Seq<(Seq<u8>, AttrV)>, PErr>(m)) by {
        lemma_start_attributes(t);
    }
    lemma_start_lookups(t);
    assert(shared_tag_spec(x, n) == Ok::<SharedTagV, PErr>(SharedTagV::Start { precise: false, time_offset: t })) by {
        lemma_start_tag_spec(x, a, m, n, t);
    }
}

proof fn lemma_start_text(t: Seq<u8>)
    ensures
        ({
            let x = shared_tag_text(SharedTagV::Start { precise: false, time_offset: t });
            let sp = "#EXT-X-START:".spec_bytes();
            &&& has_prefix(x, sp)
            &&& after(x, sp) == "PRECISE".spec_bytes() + seq![0x3du8] + "false".spec_bytes() + seq![0x2cu8] + (
            "TIME-OFFSET".spec_bytes() + seq![0x3du8] + t)
            &&& !has_prefix(x, "#EXT-X-VERSION:".spec_bytes())
            &&& x != "#EXT-X-INDEPENDENT-SEGMENTS".spec_bytes()
        }),
{
    let sp = "#EXT-X-START:".spec_bytes();
    let a = "PRECISE".spec_bytes() + seq![0x3du8] + "false".spec_bytes() + seq![0x2cu8] + ("TIME-OFFSET".spec_bytes()
        + seq![0x3du8] + t);
    let x = shared_tag_text(SharedTagV::Start { precise: false, time_offset: t });
    lemma_start_literals();
    assert(x =~= sp + a);
    assert(x.subrange(0, 13) =~= sp);
    assert(after(x, sp) =~= a);
    assert(x[7] == sp[7]);
    lemma_shared_prefixes();
    lemma_differs(x, "#EXT-X-VERSION:".spec_bytes(), 7);
    lemma_differs(x, "#EXT-X-INDEPENDENT-SEGMENTS".spec_bytes(), 7);
}

proof fn lemma_start_lookups(t: Seq<u8>)
    ensures
        ({
            let m = seq![
                ("PRECISE".spec_bytes(), AttrV::EnumeratedString("false".spec_bytes())),
                ("TIME-OFFSET".spec_bytes(), AttrV::SignedDecimalFloatingPoint(t)),
            ];
            &&& crate::attribute_list::lookup(m, "TIME-OFFSET".spec_bytes()) == Some(AttrV::SignedDecimalFloatingPoint(t))
            &&& crate::playlist::enumerated_of(crate::attribute_list::lookup(m, "PRECISE".spec_bytes())) != Some(
                "YES".spec_bytes(),
            )
        }),
{
    let m = seq![
        ("PRECISE".spec_bytes(), AttrV::EnumeratedString("false".spec_bytes())),
        ("TIME-OFFSET".spec_bytes(), AttrV::SignedDecimalFloatingPoint(t)),
    ];
    lemma_start_literals();
    assert(m.drop_first()[0] == m[1]);
    assert(crate::attribute_list::lookup(m.drop_first(), "TIME-OFFSET".spec_bytes()) == Some(AttrV::SignedDecimalFloatingPoint(t)));
}

/// How the shared tag reader reads a start tag, from its attributes.
proof fn lemma_start_tag_spec(x: Seq<u8>, a: Seq<u8>, m: Seq<(Seq<u8>, AttrV)>, n: nat, t: Seq<u8>)
    requires
        has_prefix(x, "#EXT-X-START:".spec_bytes()),
        after(x, "#EXT-X-START:".spec_bytes()) == a,
        !has_prefix(x, "#EXT-X-VERSION:".spec_bytes()),
        x != "#EXT-X-INDEPENDENT-SEGMENTS".spec_bytes(),
        attribute_list_spec(a) == Ok::<Seq<(Seq<u8>, AttrV)>, PErr>(m),
        crate::attribute_list::lookup(m, "TIME-OFFSET".spec_bytes()) == Some(AttrV::SignedDecimalFloatingPoint(t)),
        crate::playlist::enumerated_of(crate::attribute_list::lookup(m, "PRECISE".spec_bytes())) != Some(
            "YES".spec_bytes(),
        ),
    ensures
        shared_tag_spec(x, n) == Ok::<SharedTagV, PErr>(SharedTagV::Start { precise: false, time_offset: t }),
{
    reveal(shared_tag_spec);
}

/// A quoted value that reads back as itself: no `"`, line feed or carriage return.
pub open spec fn plain_quoted(q: Seq<u8>) -> bool {
    forall|k: int| 0 <= k < q.len() ==> #[trigger] q[k] != 0x22 && q[k] != 0x0a && q[k] != 0x0d
}

/// A variable name that reads back as itself: not empty, letters, digits, `-` and `_`.
pub open spec fn plain_define_name(q: Seq<u8>) -> bool {
    q.len() > 0 && crate::attribute_list::define_name_spec(q)
}

proof fn lemma_define_literals()
    ensures
        "NAME=\"".spec_bytes() == "NAME".spec_bytes() + seq![0x3du8, 0x22u8],
        "\",VALUE=\"".spec_bytes() == seq![0x22u8, 0x2cu8] + "VALUE".spec_bytes() + seq![0x3du8, 0x22u8],
        "\"".spec_bytes() == seq![0x22u8],
        "IMPORT=\"".spec_bytes() == "IMPORT".spec_bytes() + seq![0x3du8, 0x22u8],
        "#EXT-X-DEFINE:".spec_bytes().len() == 14,
        "#EXT-X-DEFINE:".spec_bytes()[7] == 0x44,
        "NAME".spec_bytes().len() == 4,
        forall|k: int| 0 <= k < 4 ==> 0x41 <= #[trigger] "NAME".spec_bytes()[k] <= 0x5a,
        "VALUE".spec_bytes().len() == 5,
        forall|k: int| 0 <= k < 5 ==> 0x41 <= #[trigger] "VALUE".spec_bytes()[k] <= 0x5a,
        "IMPORT".spec_bytes().len() == 6,
        forall|k: int| 0 <= k < 6 ==> 0x41 <= #[trigger] "IMPORT".spec_bytes()[k] <= 0x5a,
        "NAME".spec_bytes() != "VALUE".spec_bytes(),
        "IMPORT".spec_bytes() != "NAME".spec_bytes(),
        "IMPORT".spec_bytes() != "VALUE".spec_bytes(),
        "QUERY".spec_bytes() != "NAME".spec_bytes(),
        "QUERY".spec_bytes() != "VALUE".spec_bytes(),
        "QUERY".spec_bytes() != "IMPORT".spec_bytes(),
{
    reveal_strlit("NAME=\"");
    reveal_strlit("\",VALUE=\"");
    reveal_strlit("\"");
    reveal_strlit("IMPORT=\"");
    reveal_strlit("#EXT-X-DEFINE:");
    reveal_strlit("NAME");
    reveal_strlit("VALUE");
    reveal_strlit("IMPORT");
    reveal_strlit("QUERY");
    lemma_ascii_str("NAME=\"");
    lemma_ascii_str("\",VALUE=\"");
    lemma_ascii_str("\"");
    lemma_ascii_str("IMPORT=\"");
    lemma_ascii_str("#EXT-X-DEFINE:");
    lemma_ascii_str("NAME");
    lemma_ascii_str("VALUE");
    lemma_ascii_str("IMPORT");
    lemma_ascii_str("QUERY");
    assert("NAME=\"".spec_bytes() =~= "NAME".spec_bytes() + seq![0x3du8, 0x22u8]);
    assert("\",VALUE=\"".spec_bytes() =~= seq![0x22u8, 0x2cu8] + "VALUE".spec_bytes() + seq![0x3du8, 0x22u8]);
    assert("\"".spec_bytes() =~= seq![0x22u8]);
    assert("IMPORT=\"".spec_bytes() =~= "IMPORT".spec_bytes() + seq![0x3du8, 0x22u8]);
    assert("QUERY".spec_bytes()[0] != "VALUE".spec_bytes()[0]);
}

/// `name="q"` is a written part.
proof fn lemma_quoted_written(name: Seq<u8>, q: Seq<u8>)
    requires
        name.len() > 0,
        forall|k: int| 0 <= k < name.len() ==> 0x41 <= #[trigger] name[k] <= 0x5a,
        plain_quoted(q),
    ensures
        crate::attribute_list::written_part(name + seq![0x3du8] + (seq![0x22u8] + q + seq![0x22u8])),
{
    let v = seq![0x22u8] + q + seq![0x22u8];
    let p = name + seq![0x3du8] + v;
    let h = name + seq![0x3du8];
    assert(p == h + seq![0x22u8] + q + seq![0x22u8]);
    assert forall|k: int| 0 <= k < h.len() implies #[trigger] h[k] != 0x22 && h[k] != 0x2c by {
        if k < name.len() {
            assert(h[k] == name[k]);
        }
    }
    assert(!contains_byte(q, 0x22));
    assert(p[0] == name[0]);
    assert(p[p.len() - 1] == 0x22);
    assert(crate::attribute_list::unquoted_run(h));
}

/// `name="q"` is read as the quoted value `q` of `name`.
proof fn lemma_quoted_part(name: Seq<u8>, q: Seq<u8>)
    requires
        name.len() > 0,
        forall|k: int| 0 <= k < name.len() ==> 0x41 <= #[trigger] name[k] <= 0x5a,
        plain_quoted(q),
    ensures
        crate::attribute_list::quoted_spec(seq![0x22u8] + q + seq![0x22u8]) == Ok::<Seq<u8>, PErr>(q),
        crate::attribute_list::entry_of_part(name + seq![0x3du8] + (seq![0x22u8] + q + seq![0x22u8]))
            == match crate::attribute_list::attr_value_spec(name, seq![0x22u8] + q + seq![0x22u8]) {
            Err(e) => Err(e),
            Ok(x) => Ok::<(Seq<u8>, AttrV), PErr>((name, x)),
        },
{
    let v = seq![0x22u8] + q + seq![0x22u8];
    assert(v.subrange(1, v.len() - 1) =~= q);
    assert(!contains_byte(q, 0x0a) && !contains_byte(q, 0x0d));
    crate::attribute_list::lemma_entry_of_part(name, v);
}

proof fn lemma_define_name_plain(q: Seq<u8>)
    requires
        plain_define_name(q),
    ensures
        plain_quoted(q),
        forall|k: int| 0 <= k < q.len() ==> #[trigger] q[k] != 0x2c,
{
    assert forall|k: int| 0 <= k < q.len() implies #[trigger] q[k] != 0x22 && q[k] != 0x0a && q[k] != 0x0d && q[k] != 0x2c by {
        assert(crate::attribute_list::is_alnum(q[k]) || q[k] == 0x2d || q[k] == 0x5f);
    }
}

/// The attributes of a definition by name and value, as written, are read as its name and
/// its value.
proof fn lemma_name_value_attributes(nm: Seq<u8>, val: Seq<u8>)
    requires
        plain_define_name(nm),
        plain_quoted(val),
    ensures
        attribute_list_spec(
            "NAME".spec_bytes() + seq![0x3du8] + (seq![0x22u8] + nm + seq![0x22u8]) + seq![0x2cu8] + ("VALUE".spec_bytes()
                + seq![0x3du8] + (seq![0x22u8] + val + seq![0x22u8])),
        ) == Ok::<Seq<(Seq<u8>, AttrV)>, PErr>(
            seq![("NAME".spec_bytes(), AttrV::QuotedString(nm)), ("VALUE".spec_bytes(), AttrV::QuotedString(val))],
        ),
{
    let n1 = "NAME".spec_bytes();
    let n2 = "VALUE".spec_bytes();
    let v1 = seq![0x22u8] + nm + seq![0x22u8];
    let v2 = seq![0x22u8] + val + seq![0x22u8];
    let p1 = n1 + seq![0x3du8] + v1;
    let p2 = n2 + seq![0x3du8] + v2;
    let m = seq![(n1, AttrV::QuotedString(nm)), (n2, AttrV::QuotedString(val))];
    lemma_name_value_parts(nm, val);
    lemma_name_value_entries(nm, val);
    assert(crate::attribute_list::build_list(seq![p1, p2], 0, Seq::empty()) == Ok::<Seq<(Seq<u8>, AttrV)>, PErr>(m)) by {
        lemma_name_not_value();
        crate::attribute_list::lemma_build_two(p1, p2, m[0], m[1]);
    }
}

proof fn lemma_name_value_parts(nm: Seq<u8>, val: Seq<u8>)
    requires
        plain_define_name(nm),
        plain_quoted(val),
    ensures
        crate::attribute_list::split_attributes_spec(
            "NAME".spec_bytes() + seq![0x3du8] + (seq![0x22u8] + nm + seq![0x22u8]) + seq![0x2cu8] + ("VALUE".spec_bytes()
                + seq![0x3du8] + (seq![0x22u8] + val + seq![0x22u8])),
        ) == seq![
            "NAME".spec_bytes() + seq![0x3du8] + (seq![0x22u8] + nm + seq![0x22u8]),
            "VALUE".spec_bytes() + seq![0x3du8] + (seq![0x22u8] + val + seq![0x22u8]),
        ],
{
    let n1 = "NAME".spec_bytes();
    let n2 = "VALUE".spec_bytes();
    lemma_define_literals();
    lemma_define_name_plain(nm);
    lemma_quoted_written(n1, nm);
    lemma_quoted_written(n2, val);
    crate::attribute_list::lemma_split_two(
        n1 + seq![0x3du8] + (seq![0x22u8] + nm + seq![0x22u8]),
        n2 + seq![0x3du8] + (seq![0x22u8] + val + seq![0x22u8]),
    );
}

proof fn lemma_name_value_entries(nm: Seq<u8>, val: Seq<u8>)
    requires
        plain_define_name(nm),
        plain_quoted(val),
    ensures
        crate::attribute_list::entry_of_part("NAME".spec_bytes() + seq![0x3du8] + (seq![0x22u8] + nm + seq![0x22u8]))
            == Ok::<(Seq<u8>, AttrV), PErr>(("NAME".spec_bytes(), AttrV::QuotedString(nm))),
        crate::attribute_list::entry_of_part("VALUE".spec_bytes() + seq![0x3du8] + (seq![0x22u8] + val + seq![0x22u8]))
            == Ok::<(Seq<u8>, AttrV), PErr>(("VALUE".spec_bytes(), AttrV::QuotedString(val))),
{
    lemma_define_literals();
    lemma_define_name_plain(nm);
    lemma_quoted_part("NAME".spec_bytes(), nm);
    lemma_quoted_part("VALUE".spec_bytes(), val);
    crate::attribute_list::lemma_name_kind();
    crate::attribute_list::lemma_value_kind();
}

/// The attributes of a definition by import, as written, are read as its name.
proof fn lemma_import_attributes(nm: Seq<u8>)
    requires
        plain_define_name(nm),
    ensures
        attribute_list_spec("IMPORT".spec_bytes() + seq![0x3du8] + (seq![0x22u8] + nm + seq![0x22u8]))
            == Ok::<Seq<(Seq<u8>, AttrV)>, PErr>(seq![("IMPORT".spec_bytes(), AttrV::QuotedString(nm))]),
{
    let n1 = "IMPORT".spec_bytes();
    let p1 = n1 + seq![0x3du8] + (seq![0x22u8] + nm + seq![0x22u8]);
    let e = (n1, AttrV::QuotedString(nm));
    assert(crate::attribute_list::split_attributes_spec(p1) == seq![p1]) by {
        lemma_define_literals();
        lemma_define_name_plain(nm);
        lemma_quoted_written(n1, nm);
        crate::attribute_list::lemma_split_one(p1);
    }
    assert(crate::attribute_list::entry_of_part(p1) == Ok::<(Seq<u8>, AttrV), PErr>(e)) by {
        lemma_define_literals();
        lemma_define_name_plain(nm);
        lemma_quoted_part(n1, nm);
        crate::attribute_list::lemma_import_kind();
    }
    crate::attribute_list::lemma_build_one(p1, e);
}

proof fn lemma_name_not_value()
    ensures
        "NAME".spec_bytes() != "VALUE".spec_bytes(),
{
    reveal_strlit("NAME");
    reveal_strlit("VALUE");
    lemma_ascii_str("NAME");
    lemma_ascii_str("VALUE");
}

proof fn lemma_name_value_def(nm: Seq<u8>, val: Seq<u8>)
    ensures
        crate::playlist::var_def_spec(
            seq![("NAME".spec_bytes(), AttrV::QuotedString(nm)), ("VALUE".spec_bytes(), AttrV::QuotedString(val))],
        ) == Ok::<VarDefV, PErr>(VarDefV::NameValue { name: nm, value: val }),
{
    let m = seq![("NAME".spec_bytes(), AttrV::QuotedString(nm)), ("VALUE".spec_bytes(), AttrV::QuotedString(val))];
    lemma_define_literals();
    assert(m.drop_first()[0] == m[1]);
    assert(m.drop_first().drop_first() =~= Seq::<(Seq<u8>, AttrV)>::empty());
    let e = Seq::<(Seq<u8>, AttrV)>::empty();
    assert(crate::attribute_list::lookup(e, "IMPORT".spec_bytes()) is None);
    assert(crate::attribute_list::lookup(e, "QUERY".spec_bytes()) is None);
    assert(crate::attribute_list::lookup(m.drop_first(), "IMPORT".spec_bytes()) is None);
    assert(crate::attribute_list::lookup(m.drop_first(), "QUERY".spec_bytes()) is None);
    assert(crate::attribute_list::lookup(m, "IMPORT".spec_bytes()) is None);
    assert(crate::attribute_list::lookup(m, "QUERY".spec_bytes()) is None);
    assert(m.drop_first()[0].0 == "VALUE".spec_bytes());
    assert(crate::attribute_list::lookup(m.drop_first(), "VALUE".spec_bytes()) == Some(AttrV::QuotedString(val)));
    assert(m[0].0 != "VALUE".spec_bytes());
    assert(crate::attribute_list::lookup(m, "VALUE".spec_bytes()) == Some(AttrV::QuotedString(val)));
}

proof fn lemma_import_def(nm: Seq<u8>)
    ensures
        crate::playlist::var_def_spec(seq![("IMPORT".spec_bytes(), AttrV::QuotedString(nm))]) == Ok::<VarDefV, PErr>(
            VarDefV::Import { name: nm },
        ),
{
    let m = seq![("IMPORT".spec_bytes(), AttrV::QuotedString(nm))];
    lemma_define_literals();
    assert(m.drop_first() =~= Seq::<(Seq<u8>, AttrV)>::empty());
    let e = Seq::<(Seq<u8>, AttrV)>::empty();
    assert(crate::attribute_list::lookup(e, "QUERY".spec_bytes()) is None);
    assert(crate::attribute_list::lookup(e, "NAME".spec_bytes()) is None);
    assert(crate::attribute_list::lookup(e, "VALUE".spec_bytes()) is None);
    assert(crate::attribute_list::lookup(m, "QUERY".spec_bytes()) is None);
    assert(crate::attribute_list::lookup(m, "NAME".spec_bytes()) is None);
    assert(crate::attribute_list::lookup(m, "VALUE".spec_bytes()) is None);
}

/// How the shared tag reader reads a definition, from its attributes.
proof fn lemma_define_tag_spec(x: Seq<u8>, a: Seq<u8>, m: Seq<(Seq<u8>, AttrV)>, n: nat, v: VarDefV)
    requires
        has_prefix(x, "#EXT-X-DEFINE:".spec_bytes()),
        after(x, "#EXT-X-DEFINE:".spec_bytes()) == a,
        !has_prefix(x, "#EXT-X-VERSION:".spec_bytes()),
        x != "#EXT-X-INDEPENDENT-SEGMENTS".spec_bytes(),
        !has_prefix(x, "#EXT-X-START:".spec_bytes()),
        attribute_list_spec(a) == Ok::<Seq<(Seq<u8>, AttrV)>, PErr>(m),
        crate::playlist::var_def_spec(m) == Ok::<VarDefV, PErr>(v),
    ensures
        shared_tag_spec(x, n) == Ok::<SharedTagV, PErr>(SharedTagV::Variable(v)),
{
    reveal(shared_tag_spec);
}

/// The line of a definition: `#EXT-X-DEFINE:` and its attributes, no other shared tag's name.
proof fn lemma_define_text(v: VarDefV, a: Seq<u8>)
    requires
        a == crate::render::var_def_text(v),
    ensures
        has_prefix(shared_tag_text(SharedTagV::Variable(v)), "#EXT-X-DEFINE:".spec_bytes()),
        after(shared_tag_text(SharedTagV::Variable(v)), "#EXT-X-DEFINE:".spec_bytes()) == a,
        !has_prefix(shared_tag_text(SharedTagV::Variable(v)), "#EXT-X-VERSION:".spec_bytes()),
        shared_tag_text(SharedTagV::Variable(v)) != "#EXT-X-INDEPENDENT-SEGMENTS".spec_bytes(),
        !has_prefix(shared_tag_text(SharedTagV::Variable(v)), "#EXT-X-START:".spec_bytes()),
{
    let d = "#EXT-X-DEFINE:".spec_bytes();
    let x = shared_tag_text(SharedTagV::Variable(v));
    lemma_define_literals();
    lemma_start_literals();
    lemma_shared_prefixes();
    assert(x == d + a);
    assert(x.subrange(0, 14) =~= d);
    assert(after(x, d) =~= a);
    assert(x[7] == d[7]);
    lemma_differs(x, "#EXT-X-VERSION:".spec_bytes(), 7);
    lemma_differs(x, "#EXT-X-INDEPENDENT-SEGMENTS".spec_bytes(), 7);
    lemma_differs(x, "#EXT-X-START:".spec_bytes(), 7);
}

/// A definition by name and value reads back as itself.
proof fn lemma_name_value_round_trip(nm: Seq<u8>, val: Seq<u8>, n: nat)
    requires
        plain_define_name(nm),
        plain_quoted(val),
    ensures
        shared_tag_spec(shared_tag_text(SharedTagV::Variable(VarDefV::NameValue { name: nm, value: val })), n) == Ok::<
            SharedTagV,
            PErr,
        >(SharedTagV::Variable(VarDefV::NameValue { name: nm, value: val })),
{
    let v = VarDefV::NameValue { name: nm, value: val };
    let a = "NAME".spec_bytes() + seq![0x3du8] + (seq![0x22u8] + nm + seq![0x22u8]) + seq![0x2cu8] + ("VALUE".spec_bytes()
        + seq![0x3du8] + (seq![0x22u8] + val + seq![0x22u8]));
    let m = seq![("NAME".spec_bytes(), AttrV::QuotedString(nm)), ("VALUE".spec_bytes(), AttrV::QuotedString(val))];
    assert(a == crate::render::var_def_text(v)) by {
        lemma_define_literals();
        assert(a =~= crate::render::var_def_text(v));
    }
    let x = shared_tag_text(SharedTagV::Variable(v));
    assert(attribute_list_spec(a) == Ok::<Seq<(Seq<u8>, AttrV)>, PErr>(m)) by {
        lemma_name_value_attributes(nm, val);
    }
    assert(crate::playlist::var_def_spec(m) == Ok::<VarDefV, PErr>(v)) by {
        lemma_name_value_def(nm, val);
    }
    assert(shared_tag_spec(x, n) == Ok::<SharedTagV, PErr>(SharedTagV::Variable(v))) by {
        lemma_define_text(v, a);
        lemma_define_tag_spec(x, a, m, n, v);
    }
}

/// A definition by import reads back as itself.
proof fn lemma_import_round_trip(nm: Seq<u8>, n: nat)
    requires
        plain_define_name(nm),
    ensures
        shared_tag_spec(shared_tag_text(SharedTagV::Variable(VarDefV::Import { name: nm })), n) == Ok::<
            SharedTagV,
            PErr,
        >(SharedTagV::Variable(VarDefV::Import { name: nm })),
{
    let v = VarDefV::Import { name: nm };
    let a = "IMPORT".spec_bytes() + seq![0x3du8] + (seq![0x22u8] + nm + seq![0x22u8]);
    let m = seq![("IMPORT".spec_bytes(), AttrV::QuotedString(nm))];
    assert(a == crate::render::var_def_text(v)) by {
        lemma_define_literals();
        assert(a =~= crate::render::var_def_text(v));
    }
    let x = shared_tag_text(SharedTagV::Variable(v));
    assert(attribute_list_spec(a) == Ok::<Seq<(Seq<u8>, AttrV)>, PErr>(m)) by {
        lemma_import_attributes(nm);
    }
    assert(crate::playlist::var_def_spec(m) == Ok::<VarDefV, PErr>(v)) by {
        lemma_import_def(nm);
    }
    assert(shared_tag_spec(x, n) == Ok::<SharedTagV, PErr>(SharedTagV::Variable(v))) by {
        lemma_define_text(v, a);
        lemma_define_tag_spec(x, a, m, n, v);
    }
}

/// The shared tags whose line reads back as the same tag: a version, the independent-segments
/// tag, a start that is not precise with a signed decimal offset, and a definition by name and
/// value or by import whose name is a valid variable name and whose value holds no `"`, line
/// feed or carriage return.
pub open spec fn shared_reads_back(t: SharedTagV) -> bool {
    match t {
        SharedTagV::Variable(VarDefV::NameValue { name, value }) => plain_define_name(name) && plain_quoted(value),
        SharedTagV::Variable(VarDefV::Import { name }) => plain_define_name(name),
        SharedTagV::Variable(_) => false,
        _ => is_simple_shared_tag(t),
    }
}

/// Writing a shared tag and reading its line back (as line `n`) gives the same tag, for a
/// version, the independent-segments tag, a start that is not precise with a signed decimal
/// offset, and a definition by name and value or by import.
pub proof fn law_shared_tag_round_trip(t: SharedTagV, n: nat)
    requires
        shared_reads_back(t),
    ensures
        shared_tag_spec(shared_tag_text(t), n) == Ok::<SharedTagV, PErr>(t),
{
    match t {
        SharedTagV::Version(v) => crate::render::law_version_tag_round_trip(v, n),
        SharedTagV::Start { precise, time_offset } => lemma_start_round_trip(time_offset, n),
        SharedTagV::Variable(VarDefV::NameValue { name, value }) => lemma_name_value_round_trip(name, value, n),
        SharedTagV::Variable(VarDefV::Import { name }) => lemma_import_round_trip(name, n),
        SharedTagV::IndependentSegments => {
            lemma_version_prefix();
            lemma_differs(shared_tag_text(t), "#EXT-X-VERSION:".spec_bytes(), 7);
            reveal(shared_tag_spec);
        },
        _ => {},
    }
}

/// A URI without a fragment that is a plain path, or a scheme, an authority and a path (each
/// with a query or none), is read back from its text as itself, so writing the URI read from
/// that text gives the same text again.
pub proof fn law_uri_round_trip(u: UriView)
    requires
        is_simple_uri(u),
    ensures
        parse_spec(render_spec(u)) == u,
        render_spec(parse_spec(render_spec(u))) == render_spec(u),
{
    lemma_simple_uri(u);
}

/* URI texts */

/// A query as written: empty, or `?` and text without `#`.
pub open spec fn query_part(q: Seq<u8>) -> bool {
    q.len() == 0 || (q[0] == 0x3f && !contains_byte(q, 0x23))
}

/// A fragment as written: empty, or `#` and text that is not empty.
pub open spec fn fragment_part(f: Seq<u8>) -> bool {
    f.len() == 0 || (f.len() > 1 && f[0] == 0x23)
}

/// Text without `?` and `#`.
pub open spec fn no_query_or_fragment(p: Seq<u8>) -> bool {
    !contains_byte(p, 0x3f) && !contains_byte(p, 0x23)
}

/// `#` and the fragment, where there is one.
pub open spec fn fragment_text(f: Option<Seq<u8>>) -> Seq<u8> {
    match f {
        Some(x) => seq![0x23u8] + x,
        None => Seq::empty(),
    }
}

/// A path, a query and a fragment, as written, are split back into the path and the query and
/// fragment that write them again.
proof fn lemma_split_written(p: Seq<u8>, q: Seq<u8>, f: Seq<u8>)
    requires
        no_query_or_fragment(p),
        query_part(q),
        fragment_part(f),
    ensures
        crate::uri::split_path_query_fragment(p + q + f).0 == p,
        query_text(crate::uri::split_path_query_fragment(p + q + f).1) + fragment_text(
            crate::uri::split_path_query_fragment(p + q + f).2,
        ) == q + f,
{
    let s = p + q + f;
    let r = crate::uri::split_path_query_fragment(s);
    assert forall|j: int| 0 <= j < p.len() implies s[j] != 0x3f && s[j] != 0x23 by {
        assert(s[j] == p[j]);
        if s[j] == 0x3f || s[j] == 0x23 {
            assert(contains_byte(p, p[j]));
        }
    }
    if q.len() == 0 && f.len() == 0 {
        assert(s =~= p);
        assert(!exists|i: int| crate::text::first_of2(s, 0x3f, 0x23, i));
        assert(s.subrange(0, s.len() as int) =~= p);
        assert(s.subrange(s.len() as int, s.len() as int) =~= Seq::<u8>::empty());
        assert(q + f =~= Seq::<u8>::empty());
    } else {
        let k = p.len() as int;
        assert(s[k] == 0x3f || s[k] == 0x23) by {
            if q.len() > 0 {
                assert(s[k] == q[0]);
            } else {
                assert(s[k] == f[0]);
            }
        }
        assert(crate::text::first_of2(s, 0x3f, 0x23, k));
        let e = choose|i: int| crate::text::first_of2(s, 0x3f, 0x23, i);
        assert(e == k) by {
            if e < k {
                assert(s[e] == p[e]);
            } else if e > k {
                assert(s[k] == 0x3f || s[k] == 0x23);
            }
        }
        assert(s.subrange(0, e) =~= p);
        let rest = s.subrange(e, s.len() as int);
        assert(rest =~= q + f);
        if q.len() > 0 {
            let qq = q.drop_first();
            let x = rest.drop_first();
            assert(x =~= qq + f);
            assert forall|j: int| 0 <= j < qq.len() implies qq[j] != 0x23 by {
                assert(qq[j] == q[j + 1]);
                if qq[j] == 0x23 {
                    assert(contains_byte(q, q[j + 1]));
                }
            }
            if f.len() > 0 {
                let m = qq.len() as int;
                assert(x[m] == 0x23);
                assert(first_at(x, 0x23, m)) by {
                    assert forall|j: int| 0 <= j < m implies x[j] != 0x23 by {
                        assert(x[j] == qq[j]);
                    }
                }
                let c = choose|c: int| first_at(x, 0x23, c);
                assert(c == m) by {
                    if c < m {
                        assert(x[c] == qq[c]);
                    } else if c > m {
                        assert(x[m] == 0x23);
                    }
                }
                assert(x.subrange(0, c) =~= qq);
                assert(x.subrange(c + 1, x.len() as int) =~= f.drop_first());
                assert(q =~= seq![0x3fu8] + qq);
                assert(f =~= seq![0x23u8] + f.drop_first());
            } else {
                assert(x =~= qq);
                assert(!exists|c: int| first_at(x, 0x23, c));
                assert(q =~= seq![0x3fu8] + qq);
                assert(q + f =~= q);
            }
        } else {
            assert(rest =~= f);
            assert(f =~= seq![0x23u8] + f.drop_first());
            assert(q + f =~= f);
        }
    }
}

/// A relative reference is written back as the text it was read from: a path without `?` and
/// `#`, then a query (`?` and text without `#`) or none, then a fragment (`#` and text that is
/// not empty) or none, where the text does not start with `//` and the text after its first
/// `:`, if any, does not either.
pub proof fn law_relative_uri_text_round_trip(p: Seq<u8>, q: Seq<u8>, f: Seq<u8>)
    requires
        no_query_or_fragment(p),
        query_part(q),
        fragment_part(f),
        !has_prefix(p + q + f, double_slash()),
        match crate::text::split_once(p + q + f, 0x3a) {
            Some((_, r)) => !has_prefix(r, double_slash()),
            None => true,
        },
    ensures
        render_spec(parse_spec(p + q + f)) == p + q + f,
{
    let s = p + q + f;
    lemma_split_written(p, q, f);
    let r = crate::uri::split_path_query_fragment(s);
    let u = UriView { scheme: Seq::empty(), authority: None, path: r.0, query: r.1, fragment: r.2 };
    assert(parse_spec(s) == u);
    assert(render_spec(u) =~= r.0 + (query_text(r.1) + fragment_text(r.2)));
    assert(s =~= p + (q + f));
}

/// The bytes at `a`'s positions in `a + rest` are `a`'s: a text without `/` ends before the
/// first `/`.
proof fn lemma_no_slash_prefix(a: Seq<u8>, rest: Seq<u8>)
    requires
        !contains_byte(a, 0x2f),
    ensures
        forall|j: int| 0 <= j < a.len() ==> #[trigger] (a + rest)[j] != 0x2f,
{
    assert forall|j: int| 0 <= j < a.len() implies #[trigger] (a + rest)[j] != 0x2f by {
        assert((a + rest)[j] == a[j]);
        if a[j] == 0x2f {
            assert(contains_byte(a, a[j]));
        }
    }
}

/// The text after `//` with an empty path: an authority without `/`, a query and a fragment
/// without `/`, all read as the authority and written back as they were.
proof fn lemma_authority_text_no_path(sc: Seq<u8>, a: Seq<u8>, q: Seq<u8>, f: Seq<u8>)
    requires
        a.len() > 0,
        !contains_byte(a, 0x2f),
        !contains_byte(q, 0x2f),
        !contains_byte(f, 0x2f),
    ensures
        render_spec(crate::uri::with_authority_spec(sc, a + q + f)) == (if sc.len() == 0 {
            Seq::<u8>::empty()
        } else {
            sc + seq![0x3au8]
        }) + double_slash() + (a + q + f),
{
    let ap = a + q + f;
    assert(!contains_byte(ap, 0x2f)) by {
        if contains_byte(ap, 0x2f) {
            let j = choose|j: int| 0 <= j < ap.len() && ap[j] == 0x2f;
            if j < a.len() {
                assert(ap[j] == a[j]);
                assert(contains_byte(a, 0x2f));
            } else if j < a.len() + q.len() {
                assert(ap[j] == q[j - a.len()]);
                assert(contains_byte(q, 0x2f));
            } else {
                assert(ap[j] == f[j - a.len() - q.len()]);
                assert(contains_byte(f, 0x2f));
            }
        }
    }
    assert(!exists|j: int| first_at(ap, 0x2f, j));
    assert(crate::text::split_once(ap, 0x2f) is None);
    lemma_split_written(Seq::empty(), Seq::empty(), Seq::empty());
    assert(Seq::<u8>::empty() + Seq::<u8>::empty() + Seq::<u8>::empty() =~= Seq::<u8>::empty());
    let w = crate::uri::with_authority_spec(sc, ap);
    assert(ap.len() > 0);
    assert(w.authority == Some(ap));
    assert(w.path =~= Seq::<u8>::empty());
    assert(w.query is None && w.fragment is None);
    assert(render_spec(w) =~= (if sc.len() == 0 {
        Seq::<u8>::empty()
    } else {
        sc + seq![0x3au8]
    }) + double_slash() + ap);
}

/// The text after `//` with a path: an authority without `/`, a path (`/` and more) without
/// `?` and `#`, a query and a fragment, written back as they were.
proof fn lemma_authority_text_path(sc: Seq<u8>, a: Seq<u8>, t: Seq<u8>, q: Seq<u8>, f: Seq<u8>)
    requires
        a.len() > 0,
        !contains_byte(a, 0x2f),
        t.len() > 1,
        t[0] == 0x2f,
        no_query_or_fragment(t),
        query_part(q),
        fragment_part(f),
    ensures
        render_spec(crate::uri::with_authority_spec(sc, a + (t + q + f))) == (if sc.len() == 0 {
            Seq::<u8>::empty()
        } else {
            sc + seq![0x3au8]
        }) + double_slash() + a + (t + q + f),
{
    let rest = t + q + f;
    let ap = a + rest;
    let t2 = t.drop_first();
    assert(crate::text::split_once(ap, 0x2f) == Some((a, t2 + q + f))) by {
        lemma_no_slash_prefix(a, rest);
        let k = a.len() as int;
        assert(ap[k] == 0x2f);
        assert(first_at(ap, 0x2f, k));
        let j = choose|j: int| first_at(ap, 0x2f, j);
        assert(j == k) by {
            if j < k {
                assert(ap[j] != 0x2f);
            } else if j > k {
                assert(ap[k] == 0x2f);
            }
        }
        assert(ap.subrange(0, j) =~= a);
        assert(ap.subrange(j + 1, ap.len() as int) =~= t2 + q + f);
    }
    let r = crate::uri::split_path_query_fragment(t2 + q + f);
    assert(r.0 == t2 && query_text(r.1) + fragment_text(r.2) == q + f) by {
        assert(no_query_or_fragment(t2)) by {
            assert forall|c: u8| (c == 0x3f || c == 0x23) implies !contains_byte(t2, c) by {
                if contains_byte(t2, c) {
                    let m = choose|m: int| 0 <= m < t2.len() && t2[m] == c;
                    assert(t[m + 1] == t2[m]);
                    assert(contains_byte(t, c));
                }
            }
        }
        lemma_split_written(t2, q, f);
    }
    assert(seq![0x2fu8] + t2 =~= t);
    let w = crate::uri::with_authority_spec(sc, ap);
    assert(w == UriView { scheme: sc, authority: Some(a), path: t, query: r.1, fragment: r.2 });
    assert(render_spec(w) =~= (if sc.len() == 0 {
        Seq::<u8>::empty()
    } else {
        sc + seq![0x3au8]
    }) + double_slash() + a + t + (query_text(r.1) + fragment_text(r.2)));
    assert(rest =~= t + (q + f));
}

/// A URI with an authority is written back as the text it was read from: an optional scheme
/// (not empty, without `:`, `/`, `?`, `#`) and `:`, then `//`, an authority (not empty,
/// without `/`, `?`, `#`), a path (empty, or `/` and more, without `?` and `#`), a query (`?`
/// and text without `#`) or none, and a fragment (`#` and text that is not empty) or none;
/// where the path is empty, the query and fragment hold no `/` (the reader takes the first `/`
/// after the authority for the start of the path, so `http://a?x/` reads back differently).
pub proof fn law_authority_uri_text_round_trip(sc: Seq<u8>, a: Seq<u8>, t: Seq<u8>, q: Seq<u8>, f: Seq<u8>)
    requires
        !contains_byte(sc, 0x3a) && !contains_byte(sc, 0x2f) && no_query_or_fragment(sc),
        a.len() > 0,
        !contains_byte(a, 0x2f) && no_query_or_fragment(a),
        t.len() == 0 || (t.len() > 1 && t[0] == 0x2f),
        no_query_or_fragment(t),
        query_part(q),
        fragment_part(f),
        t.len() == 0 ==> !contains_byte(q, 0x2f) && !contains_byte(f, 0x2f),
    ensures
        ({
            let s = (if sc.len() == 0 {
                Seq::<u8>::empty()
            } else {
                sc + seq![0x3au8]
            }) + double_slash() + a + t + q + f;
            render_spec(parse_spec(s)) == s
        }),
{
    let o = if sc.len() == 0 {
        Seq::<u8>::empty()
    } else {
        sc + seq![0x3au8]
    };
    let rest = a + t + q + f;
    let s = o + double_slash() + a + t + q + f;
    assert(s =~= o + (double_slash() + rest));
    if t.len() == 0 {
        assert(rest =~= a + q + f);
        lemma_authority_text_no_path(sc, a, q, f);
    } else {
        assert(rest =~= a + (t + q + f));
        lemma_authority_text_path(sc, a, t, q, f);
    }
    let w = crate::uri::with_authority_spec(sc, rest);
    assert(render_spec(w) =~= s);
    lemma_parse_authority(sc, rest);
}

/// A text `scheme://rest` (or `//rest`) is read by its scheme and what follows `//`.
proof fn lemma_parse_authority(sc: Seq<u8>, rest: Seq<u8>)
    requires
        !contains_byte(sc, 0x3a) && !contains_byte(sc, 0x2f),
    ensures
        parse_spec((if sc.len() == 0 {
            Seq::<u8>::empty()
        } else {
            sc + seq![0x3au8]
        }) + (double_slash() + rest)) == crate::uri::with_authority_spec(sc, rest),
{
    let o = if sc.len() == 0 {
        Seq::<u8>::empty()
    } else {
        sc + seq![0x3au8]
    };
    let s = o + (double_slash() + rest);
    if sc.len() == 0 {
        assert(s =~= double_slash() + rest);
        assert(s.subrange(0, 2) =~= double_slash());
        assert(s.subrange(2, s.len() as int) =~= rest);
        assert(sc =~= Seq::<u8>::empty());
    } else {
        let k = sc.len() as int;
        assert(s[k] == 0x3a);
        assert(first_at(s, 0x3a, k)) by {
            assert forall|j: int| 0 <= j < k implies s[j] != 0x3a by {
                assert(s[j] == sc[j]);
                if sc[j] == 0x3a {
                    assert(contains_byte(sc, sc[j]));
                }
            }
        }
        let j = choose|j: int| first_at(s, 0x3a, j);
        assert(j == k) by {
            if j < k {
                assert(s[j] == sc[j]);
            } else if j > k {
                assert(s[k] == 0x3a);
            }
        }
        assert(s.subrange(0, j) =~= sc);
        let r = s.subrange(j + 1, s.len() as int);
        assert(r =~= double_slash() + rest);
        assert(r.subrange(0, 2) =~= double_slash());
        assert(r.subrange(2, r.len() as int) =~= rest);
        assert(s[0] == sc[0]);
        assert(sc[0] != 0x2f) by {
            if sc[0] == 0x2f {
                assert(contains_byte(sc, sc[0]));
            }
        }
        assert(!has_prefix(s, double_slash())) by {
            if has_prefix(s, double_slash()) {
                assert(s.subrange(0, 2)[0] == s[0]);
            }
        }
    }
}

/* The partial segment information tag */

/// The bytes of a decimal: digits and `.`, at least one.
proof fn lemma_unsigned_decimal_bytes(t: Seq<u8>)
    requires
        is_decimal(t, false),
    ensures
        t.len() > 0,
        forall|k: int| 0 <= k < t.len() ==> 0x2e <= #[trigger] t[k] <= 0x39 && t[k] != 0x2f,
{
    let w = choose|i: int| 0 <= i < t.len() && crate::decimal::is_digit(#[trigger] t[i]);
}

proof fn lemma_part_inf_literals()
    ensures
        "#EXT-X-PART-INF:PART-TARGET=".spec_bytes() == "#EXT-X-PART-INF:".spec_bytes() + "PART-TARGET".spec_bytes() + seq![0x3du8],
        "#EXT-X-PART-INF:".spec_bytes().len() == 16,
        "PART-TARGET".spec_bytes().len() == 11,
        forall|k: int| 0 <= k < 11 ==> 0x2d <= #[trigger] "PART-TARGET".spec_bytes()[k] <= 0x5a
            && "PART-TARGET".spec_bytes()[k] != 0x3d,
{
    reveal_strlit("#EXT-X-PART-INF:PART-TARGET=");
    reveal_strlit("#EXT-X-PART-INF:");
    reveal_strlit("PART-TARGET");
    lemma_ascii_str("#EXT-X-PART-INF:PART-TARGET=");
    lemma_ascii_str("#EXT-X-PART-INF:");
    lemma_ascii_str("PART-TARGET");
    assert("#EXT-X-PART-INF:PART-TARGET=".spec_bytes() =~= "#EXT-X-PART-INF:".spec_bytes() + "PART-TARGET".spec_bytes()
        + seq![0x3du8]);
}

/// The attributes of a partial segment information tag, as written, are its target.
proof fn lemma_part_inf_attributes(t: Seq<u8>)
    requires
        is_decimal(t, false),
    ensures
        attribute_list_spec("PART-TARGET".spec_bytes() + seq![0x3du8] + t) == Ok::<Seq<(Seq<u8>, AttrV)>, PErr>(
            seq![("PART-TARGET".spec_bytes(), AttrV::DecimalFloatingPoint(t))],
        ),
{
    let n = "PART-TARGET".spec_bytes();
    let p = n + seq![0x3du8] + t;
    let e = (n, AttrV::DecimalFloatingPoint(t));
    assert(crate::attribute_list::split_attributes_spec(p) == seq![p]) by {
        lemma_part_inf_literals();
        lemma_unsigned_decimal_bytes(t);
        assert forall|k: int| 0 <= k < p.len() implies #[trigger] p[k] != 0x22 && p[k] != 0x2c by {
            if k < 11 {
                assert(p[k] == n[k]);
            } else if k > 11 {
                assert(p[k] == t[k - 12]);
            }
        }
        assert(crate::attribute_list::unquoted_run(p));
        assert(p[0] == n[0]);
        assert(p[p.len() - 1] == t[t.len() - 1]);
        crate::attribute_list::lemma_split_one(p);
    }
    assert(crate::attribute_list::entry_of_part(p) == Ok::<(Seq<u8>, AttrV), PErr>(e)) by {
        lemma_part_inf_literals();
        lemma_unsigned_decimal_bytes(t);
        crate::attribute_list::lemma_entry_of_part(n, t);
        crate::attribute_list::lemma_part_target_kind();
        assert(crate::attribute_list::float_spec(t, false) == Ok::<Seq<u8>, PErr>(t));
    }
    crate::attribute_list::lemma_build_one(p, e);
}

/// How the media tag reader reads a partial segment information tag, from its attributes.
proof fn lemma_part_inf_tag_spec(x: Seq<u8>, a: Seq<u8>, m: Seq<(Seq<u8>, AttrV)>, t: Seq<u8>)
    requires
        !has_prefix(x, "#EXT-X-TARGETDURATION:".spec_bytes()),
        !has_prefix(x, "#EXT-X-MEDIA-SEQUENCE:".spec_bytes()),
        !has_prefix(x, "#EXT-X-DISCONTINUITY-SEQUENCE:".spec_bytes()),
        !has_prefix(x, "#EXT-X-ENDLIST".spec_bytes()),
        !has_prefix(x, "#EXT-X-PLAYLIST-TYPE:".spec_bytes()),
        !has_prefix(x, "#EXT-X-I-FRAMES-ONLY".spec_bytes()),
        has_prefix(x, "#EXT-X-PART-INF:".spec_bytes()),
        after(x, "#EXT-X-PART-INF:".spec_bytes()) == a,
        attribute_list_spec(a) == Ok::<Seq<(Seq<u8>, AttrV)>, PErr>(m),
        crate::media::decimal_of(crate::attribute_list::lookup(m, "PART-TARGET".spec_bytes())) == Some(t),
    ensures
        media_tag_spec(x) == Ok::<MediaTagV, PErr>(MediaTagV::PartInf { part_target: t }),
{
    reveal(media_tag_spec);
}

proof fn lemma_part_inf_parse(t: Seq<u8>)
    requires
        is_decimal(t, false),
    ensures
        media_tag_spec(media_tag_text(MediaTagV::PartInf { part_target: t })) == Ok::<MediaTagV, PErr>(
            MediaTagV::PartInf { part_target: t },
        ),
{
    let tag = MediaTagV::PartInf { part_target: t };
    let x = media_tag_text(tag);
    let pi = "#EXT-X-PART-INF:".spec_bytes();
    let n = "PART-TARGET".spec_bytes();
    let a = n + seq![0x3du8] + t;
    let m = seq![(n, AttrV::DecimalFloatingPoint(t))];
    assert(has_prefix(x, pi) && after(x, pi) == a) by {
        lemma_part_inf_literals();
        assert(x =~= pi + a);
        assert(x.subrange(0, 16) =~= pi);
        assert(after(x, pi) =~= a);
    }
    assert(!has_prefix(x, "#EXT-X-TARGETDURATION:".spec_bytes()) && !has_prefix(x, "#EXT-X-MEDIA-SEQUENCE:".spec_bytes())
        && !has_prefix(x, "#EXT-X-DISCONTINUITY-SEQUENCE:".spec_bytes()) && !has_prefix(x, "#EXT-X-ENDLIST".spec_bytes())
        && !has_prefix(x, "#EXT-X-PLAYLIST-TYPE:".spec_bytes()) && !has_prefix(x, "#EXT-X-I-FRAMES-ONLY".spec_bytes())) by {
        lemma_simple_tag_text(tag);
        lemma_prefix(tag);
        lemma_prefix(MediaTagV::TargetDuration(1));
        lemma_prefix(MediaTagV::MediaSequence(0));
        lemma_prefix(MediaTagV::DiscontinuitySequence(0));
        lemma_prefix(MediaTagV::EndList);
        lemma_prefix(MediaTagV::PlaylistType(crate::media::PlayListType::Vod));
        lemma_prefix(MediaTagV::IFramesOnly);
        lemma_differs(x, simple_prefix(MediaTagV::TargetDuration(1)), 7);
        lemma_differs(x, simple_prefix(MediaTagV::MediaSequence(0)), 7);
        lemma_differs(x, simple_prefix(MediaTagV::DiscontinuitySequence(0)), 7);
        lemma_differs(x, simple_prefix(MediaTagV::EndList), 7);
        lemma_differs(x, simple_prefix(MediaTagV::PlaylistType(crate::media::PlayListType::Vod)), 8);
        lemma_differs(x, simple_prefix(MediaTagV::IFramesOnly), 7);
    }
    assert(attribute_list_spec(a) == Ok::<Seq<(Seq<u8>, AttrV)>, PErr>(m)) by {
        lemma_part_inf_attributes(t);
    }
    assert(crate::media::decimal_of(crate::attribute_list::lookup(m, n)) == Some(t));
    lemma_part_inf_tag_spec(x, a, m, t);
}

/* The server control tag */

/// The rest of a simple server control line after `CAN-SKIP-UNTIL=`.
pub open spec fn server_control_rest(sc: ServerControlV) -> Seq<u8> {
    (match sc.can_skip_until {
        Some(x) => x,
        None => Seq::empty(),
    }) + crate::render::opt_attr(sc.hold_back, ",HOLD-BACK=".spec_bytes()) + crate::render::opt_attr(
        sc.part_hold_back,
        ",PART-HOLD-BACK=".spec_bytes(),
    )
}

proof fn lemma_server_control_literals()
    ensures
        "#EXT-X-SERVER-CONTROL:CAN-SKIP-UNTIL=".spec_bytes() == "#EXT-X-SERVER-CONTROL:".spec_bytes()
            + "CAN-SKIP-UNTIL=".spec_bytes(),
        "#EXT-X-SERVER-CONTROL:".spec_bytes().len() == 22,
        "CAN-SKIP-UNTIL=".spec_bytes() == "CAN-SKIP-UNTIL".spec_bytes() + seq![0x3du8],
        ",HOLD-BACK=".spec_bytes() == seq![0x2cu8] + "HOLD-BACK".spec_bytes() + seq![0x3du8],
        ",PART-HOLD-BACK=".spec_bytes() == seq![0x2cu8] + "PART-HOLD-BACK".spec_bytes() + seq![0x3du8],
        "CAN-SKIP-UNTIL".spec_bytes().len() == 14,
        "HOLD-BACK".spec_bytes().len() == 9,
        "PART-HOLD-BACK".spec_bytes().len() == 14,
        "CAN-SKIP-DATERANGES".spec_bytes().len() == 19,
        "CAN-BLOCK-RELOAD".spec_bytes().len() == 16,
        forall|k: int| 0 <= k < 14 ==> 0x2d <= #[trigger] "CAN-SKIP-UNTIL".spec_bytes()[k] <= 0x5a
            && "CAN-SKIP-UNTIL".spec_bytes()[k] != 0x3d,
        forall|k: int| 0 <= k < 9 ==> 0x2d <= #[trigger] "HOLD-BACK".spec_bytes()[k] <= 0x5a
            && "HOLD-BACK".spec_bytes()[k] != 0x3d,
        forall|k: int| 0 <= k < 14 ==> 0x2d <= #[trigger] "PART-HOLD-BACK".spec_bytes()[k] <= 0x5a
            && "PART-HOLD-BACK".spec_bytes()[k] != 0x3d,
        "CAN-SKIP-UNTIL".spec_bytes()[0] == 0x43 && "CAN-SKIP-UNTIL".spec_bytes()[4] == 0x53
            && "CAN-SKIP-UNTIL".spec_bytes()[9] == 0x55,
        "HOLD-BACK".spec_bytes()[0] == 0x48,
        "PART-HOLD-BACK".spec_bytes()[0] == 0x50,
        "CAN-SKIP-DATERANGES".spec_bytes()[0] == 0x43 && "CAN-SKIP-DATERANGES".spec_bytes()[4] == 0x53
            && "CAN-SKIP-DATERANGES".spec_bytes()[9] == 0x44,
        "CAN-BLOCK-RELOAD".spec_bytes()[0] == 0x43 && "CAN-BLOCK-RELOAD".spec_bytes()[4] == 0x42,
{
    reveal_strlit("#EXT-X-SERVER-CONTROL:CAN-SKIP-UNTIL=");
    reveal_strlit("#EXT-X-SERVER-CONTROL:");
    reveal_strlit("CAN-SKIP-UNTIL=");
    reveal_strlit("CAN-SKIP-UNTIL");
    reveal_strlit(",HOLD-BACK=");
    reveal_strlit("HOLD-BACK");
    reveal_strlit(",PART-HOLD-BACK=");
    reveal_strlit("PART-HOLD-BACK");
    reveal_strlit("CAN-SKIP-DATERANGES");
    reveal_strlit("CAN-BLOCK-RELOAD");
    lemma_ascii_str("#EXT-X-SERVER-CONTROL:CAN-SKIP-UNTIL=");
    lemma_ascii_str("#EXT-X-SERVER-CONTROL:");
    lemma_ascii_str("CAN-SKIP-UNTIL=");
    lemma_ascii_str("CAN-SKIP-UNTIL");
    lemma_ascii_str(",HOLD-BACK=");
    lemma_ascii_str("HOLD-BACK");
    lemma_ascii_str(",PART-HOLD-BACK=");
    lemma_ascii_str("PART-HOLD-BACK");
    lemma_ascii_str("CAN-SKIP-DATERANGES");
    lemma_ascii_str("CAN-BLOCK-RELOAD");
    assert("#EXT-X-SERVER-CONTROL:CAN-SKIP-UNTIL=".spec_bytes() =~= "#EXT-X-SERVER-CONTROL:".spec_bytes()
        + "CAN-SKIP-UNTIL=".spec_bytes());
    assert("CAN-SKIP-UNTIL=".spec_bytes() =~= "CAN-SKIP-UNTIL".spec_bytes() + seq![0x3du8]);
    assert(",HOLD-BACK=".spec_bytes() =~= seq![0x2cu8] + "HOLD-BACK".spec_bytes() + seq![0x3du8]);
    assert(",PART-HOLD-BACK=".spec_bytes() =~= seq![0x2cu8] + "PART-HOLD-BACK".spec_bytes() + seq![0x3du8]);
}

/// A server control line is its prefix and the rest.
proof fn lemma_server_control_line(sc: ServerControlV)
    requires
        sc.can_skip_until is Some,
        sc.can_skip_dateranges is None,
        !sc.can_block_reload,
    ensures
        media_tag_text(MediaTagV::ServerControl(sc)) == simple_prefix(MediaTagV::ServerControl(sc))
            + server_control_rest(sc),
{
    lemma_server_control_literals();
    let r = server_control_rest(sc);
    assert(crate::render::server_control_text(sc) =~= "CAN-SKIP-UNTIL=".spec_bytes() + r);
    assert(media_tag_text(MediaTagV::ServerControl(sc)) == "#EXT-X-SERVER-CONTROL:".spec_bytes()
        + crate::render::server_control_text(sc));
    assert(media_tag_text(MediaTagV::ServerControl(sc)) =~= simple_prefix(MediaTagV::ServerControl(sc)) + r);
}

/// A simple server control line is its prefix and rest, with no line break in the rest.
proof fn lemma_server_control_rest(sc: ServerControlV)
    requires
        simple_server_control(sc),
    ensures
        media_tag_text(MediaTagV::ServerControl(sc)) == simple_prefix(MediaTagV::ServerControl(sc))
            + server_control_rest(sc),
        forall|i: int| 0 <= i < server_control_rest(sc).len() ==> #[trigger] server_control_rest(sc)[i] != 0x0a,
        server_control_rest(sc).len() > 0,
        server_control_rest(sc).last() != 0x0d,
{
    lemma_server_control_line(sc);
    let x = sc.can_skip_until->Some_0;
    lemma_unsigned_decimal_bytes(x);
    let h = crate::render::opt_attr(sc.hold_back, ",HOLD-BACK=".spec_bytes());
    let q = crate::render::opt_attr(sc.part_hold_back, ",PART-HOLD-BACK=".spec_bytes());
    let r = server_control_rest(sc);
    assert(r == x + h + q);
    reveal_strlit(",HOLD-BACK=");
    lemma_ascii_str(",HOLD-BACK=");
    reveal_strlit(",PART-HOLD-BACK=");
    lemma_ascii_str(",PART-HOLD-BACK=");
    match sc.hold_back {
        Some(y) => lemma_unsigned_decimal_bytes(y),
        None => {},
    }
    match sc.part_hold_back {
        Some(z) => lemma_unsigned_decimal_bytes(z),
        None => {},
    }
    assert forall|i: int| 0 <= i < r.len() implies #[trigger] r[i] != 0x0a by {
        if i < x.len() {
            assert(r[i] == x[i]);
        } else if i < x.len() + h.len() {
            assert(r[i] == h[i - x.len()]);
        } else {
            assert(r[i] == q[i - x.len() - h.len()]);
        }
    }
    if q.len() > 0 {
        assert(r.last() == q.last());
    } else if h.len() > 0 {
        assert(r.last() == h.last());
    } else {
        assert(r.last() == x.last());
    }
}

/// A part `NAME=value` with a decimal value of a decimal-valued name.
proof fn lemma_decimal_part(n: Seq<u8>, v: Seq<u8>)
    requires
        n.len() > 0,
        forall|k: int| 0 <= k < n.len() ==> 0x2d <= #[trigger] n[k] <= 0x5a && n[k] != 0x3d,
        crate::attribute_list::attr_kind_spec(n) == crate::attribute_list::AttrKind::Float,
        is_decimal(v, false),
    ensures
        crate::attribute_list::written_part(n + seq![0x3du8] + v),
        crate::attribute_list::entry_of_part(n + seq![0x3du8] + v) == Ok::<(Seq<u8>, AttrV), PErr>(
            (n, AttrV::DecimalFloatingPoint(v)),
        ),
{
    let p = n + seq![0x3du8] + v;
    lemma_unsigned_decimal_bytes(v);
    assert forall|k: int| 0 <= k < p.len() implies #[trigger] p[k] != 0x22 && p[k] != 0x2c by {
        if k < n.len() {
            assert(p[k] == n[k]);
        } else if k > n.len() {
            assert(p[k] == v[k - n.len() - 1]);
        }
    }
    assert(crate::attribute_list::unquoted_run(p));
    assert(p[0] == n[0]);
    assert(p[p.len() - 1] == v[v.len() - 1]);
    crate::attribute_list::lemma_entry_of_part(n, v);
    assert(crate::attribute_list::float_spec(v, false) == Ok::<Seq<u8>, PErr>(v));
}

/// The attributes a simple server control line is written with, in order.
pub open spec fn server_control_entries(sc: ServerControlV) -> Seq<(Seq<u8>, AttrV)> {
    seq![("CAN-SKIP-UNTIL".spec_bytes(), AttrV::DecimalFloatingPoint(sc.can_skip_until->Some_0))] + (
    match sc.hold_back {
        Some(y) => seq![("HOLD-BACK".spec_bytes(), AttrV::DecimalFloatingPoint(y))],
        None => Seq::empty(),
    }) + (match sc.part_hold_back {
        Some(z) => seq![("PART-HOLD-BACK".spec_bytes(), AttrV::DecimalFloatingPoint(z))],
        None => Seq::empty(),
    })
}

/// The attributes of a simple server control line, as written, are its numbers.
#[verifier::rlimit(40)]
proof fn lemma_server_control_attributes(sc: ServerControlV)
    requires
        simple_server_control(sc),
    ensures
        attribute_list_spec(crate::render::server_control_text(sc)) == Ok::<Seq<(Seq<u8>, AttrV)>, PErr>(
            server_control_entries(sc),
        ),
{
    lemma_server_control_literals();
    crate::attribute_list::lemma_server_control_kinds();
    let n1 = "CAN-SKIP-UNTIL".spec_bytes();
    let n2 = "HOLD-BACK".spec_bytes();
    let n3 = "PART-HOLD-BACK".spec_bytes();
    let x = sc.can_skip_until->Some_0;
    let p1 = n1 + seq![0x3du8] + x;
    lemma_decimal_part(n1, x);
    let e1 = (n1, AttrV::DecimalFloatingPoint(x));
    assert(n1 != n2) by {
        assert(n1[0] != n2[0]);
    }
    assert(n1 != n3) by {
        assert(n1[0] != n3[0]);
    }
    assert(n2 != n3) by {
        assert(n2[0] != n3[0]);
    }
    let a = crate::render::server_control_text(sc);
    match (sc.hold_back, sc.part_hold_back) {
        (None, None) => {
            assert(a =~= p1);
            crate::attribute_list::lemma_split_one(p1);
            crate::attribute_list::lemma_build_one(p1, e1);
            assert(server_control_entries(sc) =~= seq![e1]);
        },
        (Some(y), None) => {
            let p2 = n2 + seq![0x3du8] + y;
            lemma_decimal_part(n2, y);
            assert(a =~= p1 + seq![0x2cu8] + p2);
            crate::attribute_list::lemma_split_two(p1, p2);
            crate::attribute_list::lemma_build_two(p1, p2, e1, (n2, AttrV::DecimalFloatingPoint(y)));
            assert(server_control_entries(sc) =~= seq![e1, (n2, AttrV::DecimalFloatingPoint(y))]);
        },
        (None, Some(z)) => {
            let p3 = n3 + seq![0x3du8] + z;
            lemma_decimal_part(n3, z);
            assert(a =~= p1 + seq![0x2cu8] + p3);
            crate::attribute_list::lemma_split_two(p1, p3);
            crate::attribute_list::lemma_build_two(p1, p3, e1, (n3, AttrV::DecimalFloatingPoint(z)));
            assert(server_control_entries(sc) =~= seq![e1, (n3, AttrV::DecimalFloatingPoint(z))]);
        },
        (Some(y), Some(z)) => {
            let p2 = n2 + seq![0x3du8] + y;
            let p3 = n3 + seq![0x3du8] + z;
            lemma_decimal_part(n2, y);
            lemma_decimal_part(n3, z);
            assert(a =~= p1 + seq![0x2cu8] + p2 + seq![0x2cu8] + p3);
            crate::attribute_list::lemma_split_three(p1, p2, p3);
            crate::attribute_list::lemma_build_three(
                p1,
                p2,
                p3,
                e1,
                (n2, AttrV::DecimalFloatingPoint(y)),
                (n3, AttrV::DecimalFloatingPoint(z)),
            );
            assert(server_control_entries(sc) =~= seq![
                e1,
                (n2, AttrV::DecimalFloatingPoint(y)),
                (n3, AttrV::DecimalFloatingPoint(z)),
            ]);
        },
    }
}

/// Looking up a name in one, two or three entries.
proof fn lemma_lookup3(m: Seq<(Seq<u8>, AttrV)>, k: Seq<u8>)
    requires
        m.len() <= 3,
    ensures
        crate::attribute_list::lookup(m, k) == (if m.len() > 0 && m[0].0 == k {
            Some(m[0].1)
        } else if m.len() > 1 && m[1].0 == k {
            Some(m[1].1)
        } else if m.len() > 2 && m[2].0 == k {
            Some(m[2].1)
        } else {
            None
        }),
{
    if m.len() > 0 {
        let m1 = m.drop_first();
        assert(lookup(m, k) == if m[0].0 == k { Some(m[0].1) } else { lookup(m1, k) });
        if m1.len() > 0 {
            let m2 = m1.drop_first();
            assert(m1[0] == m[1]);
            assert(lookup(m1, k) == if m1[0].0 == k { Some(m1[0].1) } else { lookup(m2, k) });
            if m2.len() > 0 {
                let m3 = m2.drop_first();
                assert(m2[0] == m[2]);
                assert(m3.len() == 0);
                assert(lookup(m2, k) == if m2[0].0 == k { Some(m2[0].1) } else { lookup(m3, k) });
                assert(lookup(m3, k) == None::<AttrV>);
            } else {
                assert(lookup(m2, k) == None::<AttrV>);
            }
        } else {
            assert(lookup(m1, k) == None::<AttrV>);
        }
    }
}

/// The entries of a simple server control line describe that server control.
proof fn lemma_server_control_of_entries(sc: ServerControlV)
    requires
        simple_server_control(sc),
    ensures
        crate::media::server_control_spec(server_control_entries(sc)) == sc,
{
    lemma_server_control_literals();
    let m = server_control_entries(sc);
    let n1 = "CAN-SKIP-UNTIL".spec_bytes();
    let n2 = "HOLD-BACK".spec_bytes();
    let n3 = "PART-HOLD-BACK".spec_bytes();
    let d = "CAN-SKIP-DATERANGES".spec_bytes();
    let b = "CAN-BLOCK-RELOAD".spec_bytes();
    assert(m.len() <= 3);
    assert(m[0].0 == n1);
    assert(forall|i: int| 0 <= i < m.len() ==> (#[trigger] m[i]).0 == n1 || m[i].0 == n2 || m[i].0 == n3);
    assert(n1 != n2 && n1 != n3 && n2 != n3) by {
        assert(n1[0] != n2[0] && n1[0] != n3[0] && n2[0] != n3[0]);
    }
    assert(n1 != d && n2 != d && n3 != d) by {
        assert(n1[9] != d[9] && n2[0] != d[0] && n3[0] != d[0]);
    }
    assert(n1 != b && n2 != b && n3 != b) by {
        assert(n1[4] != b[4] && n2[0] != b[0] && n3[0] != b[0]);
    }
    lemma_lookup3(m, n1);
    lemma_lookup3(m, n2);
    lemma_lookup3(m, n3);
    lemma_lookup3(m, d);
    lemma_lookup3(m, b);
    match sc.hold_back {
        Some(y) => {
            assert(m[1] == (n2, AttrV::DecimalFloatingPoint(y)));
        },
        None => {},
    }
    match sc.part_hold_back {
        Some(z) => {
            assert(m[m.len() - 1] == (n3, AttrV::DecimalFloatingPoint(z)));
        },
        None => {},
    }
}

/// How the media tag reader reads a server control tag, from its attributes.
proof fn lemma_server_control_tag_spec(x: Seq<u8>, a: Seq<u8>, m: Seq<(Seq<u8>, AttrV)>)
    requires
        !has_prefix(x, "#EXT-X-TARGETDURATION:".spec_bytes()),
        !has_prefix(x, "#EXT-X-MEDIA-SEQUENCE:".spec_bytes()),
        !has_prefix(x, "#EXT-X-DISCONTINUITY-SEQUENCE:".spec_bytes()),
        !has_prefix(x, "#EXT-X-ENDLIST".spec_bytes()),
        !has_prefix(x, "#EXT-X-PLAYLIST-TYPE:".spec_bytes()),
        !has_prefix(x, "#EXT-X-I-FRAMES-ONLY".spec_bytes()),
        !has_prefix(x, "#EXT-X-PART-INF:".spec_bytes()),
        has_prefix(x, "#EXT-X-SERVER-CONTROL:".spec_bytes()),
        after(x, "#EXT-X-SERVER-CONTROL:".spec_bytes()) == a,
        attribute_list_spec(a) == Ok::<Seq<(Seq<u8>, AttrV)>, PErr>(m),
    ensures
        media_tag_spec(x) == Ok::<MediaTagV, PErr>(MediaTagV::ServerControl(crate::media::server_control_spec(m))),
{
    reveal(media_tag_spec);
}

proof fn lemma_server_control_parse(sc: ServerControlV)
    requires
        simple_server_control(sc),
    ensures
        media_tag_spec(media_tag_text(MediaTagV::ServerControl(sc))) == Ok::<MediaTagV, PErr>(
            MediaTagV::ServerControl(sc),
        ),
{
    let tag = MediaTagV::ServerControl(sc);
    let x = media_tag_text(tag);
    let pi = "#EXT-X-SERVER-CONTROL:".spec_bytes();
    let a = crate::render::server_control_text(sc);
    let m = server_control_entries(sc);
    assert(has_prefix(x, pi) && after(x, pi) == a) by {
        lemma_server_control_literals();
        assert(x =~= pi + a);
        assert(x.subrange(0, 22) =~= pi);
        assert(after(x, pi) =~= a);
    }
    assert(!has_prefix(x, "#EXT-X-TARGETDURATION:".spec_bytes()) && !has_prefix(x, "#EXT-X-MEDIA-SEQUENCE:".spec_bytes())
        && !has_prefix(x, "#EXT-X-DISCONTINUITY-SEQUENCE:".spec_bytes()) && !has_prefix(x, "#EXT-X-ENDLIST".spec_bytes())
        && !has_prefix(x, "#EXT-X-PLAYLIST-TYPE:".spec_bytes()) && !has_prefix(x, "#EXT-X-I-FRAMES-ONLY".spec_bytes())
        && !has_prefix(x, "#EXT-X-PART-INF:".spec_bytes())) by {
        lemma_simple_tag_text(tag);
        lemma_prefix(tag);
        lemma_media_letters();
        lemma_differs(x, "#EXT-X-TARGETDURATION:".spec_bytes(), 7);
        lemma_differs(x, "#EXT-X-MEDIA-SEQUENCE:".spec_bytes(), 7);
        lemma_differs(x, "#EXT-X-DISCONTINUITY-SEQUENCE:".spec_bytes(), 7);
        lemma_differs(x, "#EXT-X-ENDLIST".spec_bytes(), 7);
        lemma_differs(x, "#EXT-X-PLAYLIST-TYPE:".spec_bytes(), 7);
        lemma_differs(x, "#EXT-X-I-FRAMES-ONLY".spec_bytes(), 7);
        lemma_differs(x, "#EXT-X-PART-INF:".spec_bytes(), 7);
    }
    lemma_server_control_attributes(sc);
    lemma_server_control_of_entries(sc);
    lemma_server_control_tag_spec(x, a, m);
}
} // verus!
