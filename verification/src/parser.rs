//! Reading a whole playlist, line by line.
//!
//! The first line must be `#EXTM3U`. Each later line is empty, a comment, a URI, or a tag;
//! a tag is read as a shared tag, then a media tag, then a multivariant tag, then a segment
//! tag, then a metadata tag, the first that accepts it. A media tag or segment tag makes the
//! playlist a media playlist, a multivariant tag makes it a multivariant playlist; a playlist
//! cannot be both. A URI in a media playlist ends the segment described by the segment tags
//! before it.
use vstd::prelude::*;
use vstd::string::*;
use crate::error::{PErr, ParseError};
use crate::media::{
    MediaExclusiveTag, MediaItemV, MediaPlaylist, MediaPlaylistItem, MediaTagV, items_view,
    media_apply_spec, media_tag_spec, parse_media_exclusive_tag, vars_view,
};
use crate::multivariant::playlist::{
    MultivariantExclusiveTag, MultivariantPlaylist, MultivariantTagV, multivariant_apply_spec,
    multivariant_tag_spec, parse_multivariant_exclusive_tag, shared_view,
};
use crate::playlist::{
    MediaMetadata, MediaMetadataV, SharedTag, SharedTagV, VarDefV, metadata_spec, parse_shared_tag,
    shared_tag_spec,
};
use crate::segment::{
    MediaSegment, MediaSegmentV, ParseSegmentState, PendingV, empty_pending, pending_step,
    segment_of,
};
use crate::text::{bytes, has_prefix, owned, slice_ascii, split, split_str, starts_with, str_eq, utf8};
use crate::uri::{Uri, UriView, parse_spec};

verus! {

/// What a line of a playlist is.
#[derive(Debug)]
pub enum ParsedLine {
    Empty,
    Comment,
    Uri(String),
    M3U,
    MediaSegment,
    SharedTag(SharedTag),
    MediaTag(MediaExclusiveTag),
    MultivariantTag(MultivariantExclusiveTag),
    MediaMetadata(MediaMetadata),
}

/// A line's kind with its text as bytes.
pub enum ParsedLineV {
    Empty,
    Comment,
    Uri(Seq<u8>),
    M3U,
    MediaSegment,
    SharedTag(SharedTagV),
    MediaTag(MediaTagV),
    MultivariantTag(MultivariantTagV),
    MediaMetadata(MediaMetadataV),
}

impl View for ParsedLine {
    type V = ParsedLineV;

    open spec fn view(&self) -> ParsedLineV {
        match self {
            ParsedLine::Empty => ParsedLineV::Empty,
            ParsedLine::Comment => ParsedLineV::Comment,
            ParsedLine::Uri(s) => ParsedLineV::Uri(utf8(s@)),
            ParsedLine::M3U => ParsedLineV::M3U,
            ParsedLine::MediaSegment => ParsedLineV::MediaSegment,
            ParsedLine::SharedTag(t) => ParsedLineV::SharedTag(t@),
            ParsedLine::MediaTag(t) => ParsedLineV::MediaTag(t@),
            ParsedLine::MultivariantTag(t) => ParsedLineV::MultivariantTag(t@),
            ParsedLine::MediaMetadata(m) => ParsedLineV::MediaMetadata(m@),
        }
    }
}

/// A playlist: a media playlist or a multivariant playlist.
#[derive(Debug, PartialEq)]
pub enum Playlist {
    Media(MediaPlaylist),
    Multivariant(MultivariantPlaylist),
}

/// A playlist with its text as bytes: the items and variables of a media playlist, or the
/// shared tags, own tags and variables of a multivariant playlist.
pub enum PlaylistV {
    Media(Seq<MediaItemV>, Seq<VarDefV>),
    Multivariant(Seq<SharedTagV>, Seq<MultivariantTagV>, Seq<VarDefV>),
}

/// The views of multivariant tags.
pub open spec fn mtags_view(v: Seq<MultivariantExclusiveTag>) -> Seq<MultivariantTagV> {
    v.map_values(|t: MultivariantExclusiveTag| t@)
}

impl View for Playlist {
    type V = PlaylistV;

    open spec fn view(&self) -> PlaylistV {
        match self {
            Playlist::Media(m) => PlaylistV::Media(items_view(m.items@), vars_view(m.variables@)),
            Playlist::Multivariant(m) => PlaylistV::Multivariant(
                shared_view(m.shared_tags@),
                mtags_view(m.exclusive_tags@),
                vars_view(m.variables@),
            ),
        }
    }
}

/// An item read so far, before the kind of playlist is settled.
#[derive(Debug)]
pub enum PlaylistItem {
    SharedTag(SharedTag),
    MediaTag(MediaExclusiveTag),
    Segment(MediaSegment),
    Metadata(MediaMetadata),
    MultivariantTag(MultivariantExclusiveTag),
    Uri(Uri, usize),
}

/// An item with its text as bytes.
pub enum PlaylistItemV {
    SharedTag(SharedTagV),
    MediaTag(MediaTagV),
    Segment(MediaSegmentV),
    Metadata(MediaMetadataV),
    MultivariantTag(MultivariantTagV),
    Uri(UriView, nat),
}

impl View for PlaylistItem {
    type V = PlaylistItemV;

    open spec fn view(&self) -> PlaylistItemV {
        match self {
            PlaylistItem::SharedTag(t) => PlaylistItemV::SharedTag(t@),
            PlaylistItem::MediaTag(t) => PlaylistItemV::MediaTag(t@),
            PlaylistItem::Segment(s) => PlaylistItemV::Segment(s@),
            PlaylistItem::Metadata(m) => PlaylistItemV::Metadata(m@),
            PlaylistItem::MultivariantTag(t) => PlaylistItemV::MultivariantTag(t@),
            PlaylistItem::Uri(u, n) => PlaylistItemV::Uri(u@, *n as nat),
        }
    }
}

/// The views of items.
pub open spec fn pitems_view(v: Seq<PlaylistItem>) -> Seq<PlaylistItemV> {
    v.map_values(|i: PlaylistItem| i@)
}

/// Which kind of playlist the lines read so far make.
#[derive(Debug, Clone, Copy, PartialEq, Eq, Structural)]
pub enum PlaylistKind {
    Unknown,
    Media,
    Multivariant,
}

/// Order rules between media tags and segments.
#[derive(Debug, Clone, Copy, PartialEq, Eq, Structural)]
pub struct StructuralValidator {
    pub seen_first_media_segment: bool,
    pub seen_discontinuity: bool,
}

/// The order rules for a media tag: a media sequence or discontinuity sequence must come
/// before the first segment, and a discontinuity sequence before any discontinuity.
pub open spec fn order_check(v: StructuralValidator, t: MediaTagV) -> Result<(), PErr> {
    match t {
        MediaTagV::MediaSequence(_) => if v.seen_first_media_segment {
            Err(
                PErr::BadOrder {
                    expected: "Media Sequence before first media segment tag",
                    found: "Media segment tag after Media Sequence",
                },
            )
        } else {
            Ok(())
        },
        MediaTagV::DiscontinuitySequence(_) => if v.seen_first_media_segment {
            Err(
                PErr::BadOrder {
                    expected: "Discontinuity Sequence before first media segment tag",
                    found: "Discontinuity media segment tag after first Media segment tag",
                },
            )
        } else if v.seen_discontinuity {
            Err(
                PErr::BadOrder {
                    expected: "Discontinuity Sequence before any Discontinuity media segment tag",
                    found: "Discontinuity media segment tag after Discontinuity Sequence",
                },
            )
        } else {
            Ok(())
        },
        _ => Ok(()),
    }
}

impl StructuralValidator {
    /// Checks a media tag against the order rules; see `order_check`.
    pub fn consume_media_tag(&mut self, tag: &MediaExclusiveTag) -> (r: Result<(), ParseError>)
        ensures
            *final(self) == *old(self),
            match order_check(*old(self), tag@) {
                Ok(()) => r is Ok,
                Err(e) => r matches Err(x) && x@ == e,
            },
    {
        match tag {
            MediaExclusiveTag::MediaSequence(_) => {
                if self.seen_first_media_segment {
                    return Err(
                        ParseError::BadOrder {
                            expected: "Media Sequence before first media segment tag",
                            found: "Media segment tag after Media Sequence",
                        },
                    );
                }
            },
            MediaExclusiveTag::DiscontinuitySequence(_) => {
                if self.seen_first_media_segment {
                    return Err(
                        ParseError::BadOrder {
                            expected: "Discontinuity Sequence before first media segment tag",
                            found: "Discontinuity media segment tag after first Media segment tag",
                        },
                    );
                }
                if self.seen_discontinuity {
                    return Err(
                        ParseError::BadOrder {
                            expected: "Discontinuity Sequence before any Discontinuity media segment tag",
                            found: "Discontinuity media segment tag after Discontinuity Sequence",
                        },
                    );
                }
            },
            _ => {},
        }
        Ok(())
    }

    /// Records a segment: the first segment has been seen, and a discontinuity if it has one.
    pub fn consume_segment(&mut self, segment: &MediaSegment)
        ensures
            final(self).seen_first_media_segment,
            final(self).seen_discontinuity == (old(self).seen_discontinuity || segment.discontinuity),
    {
        self.seen_first_media_segment = true;
        if segment.get_discontinuity() {
            self.seen_discontinuity = true;
        }
    }
}

/// What is kept between lines: the kind of playlist, the items read so far, the order rules,
/// and the segment being described.
pub struct PlaylistParser {
    pub kind: PlaylistKind,
    pub items: Vec<PlaylistItem>,
    pub validator: StructuralValidator,
}

impl PlaylistParser {
    /// Nothing read yet.
    pub fn new() -> (r: Self)
        ensures
            r.kind == PlaylistKind::Unknown,
            r.items@.len() == 0,
            r.validator == (StructuralValidator { seen_first_media_segment: false, seen_discontinuity: false }),
    {
        PlaylistParser {
            kind: PlaylistKind::Unknown,
            items: Vec::new(),
            validator: StructuralValidator { seen_discontinuity: false, seen_first_media_segment: false },
        }
    }
}

/// The state of a reader of playlist lines.
pub struct ParseContext {
    pub parse_segment_state: ParseSegmentState,
    pub playlist_parser: PlaylistParser,
}

/// The state of a reader, as plain values.
pub struct ContextV {
    pub kind: PlaylistKind,
    pub items: Seq<PlaylistItemV>,
    pub validator: StructuralValidator,
    pub pending: PendingV,
    pub media_sequence: u64,
    pub previous_media_sequence_number: Option<u64>,
}

impl View for ParseContext {
    type V = ContextV;

    open spec fn view(&self) -> ContextV {
        ContextV {
            kind: self.playlist_parser.kind,
            items: pitems_view(self.playlist_parser.items@),
            validator: self.playlist_parser.validator,
            pending: self.parse_segment_state.pending_segment@,
            media_sequence: self.parse_segment_state.media_sequence,
            previous_media_sequence_number: self.parse_segment_state.previous_media_sequence_number,
        }
    }
}

/// The state before the first line.
pub open spec fn initial_context() -> ContextV {
    ContextV {
        kind: PlaylistKind::Unknown,
        items: Seq::empty(),
        validator: StructuralValidator { seen_first_media_segment: false, seen_discontinuity: false },
        pending: empty_pending(),
        media_sequence: 0,
        previous_media_sequence_number: None,
    }
}

/// The error for a first line that is not `#EXTM3U`.
pub open spec fn first_line_error() -> PErr {
    PErr::InvalidLine("First Line of every Media or Multivariant Playlist must be `#EXTM3U`".spec_bytes())
}

/// What the line `line` (number `n`) is, and the state after reading it: a media sequence tag
/// sets the media sequence number; a segment tag is read into the pending segment (which takes
/// the current media sequence number even when the tag is refused).
pub open spec fn line_kind_spec(c: ContextV, line: Seq<u8>, n: nat) -> (ContextV, Result<ParsedLineV, PErr>) {
    if n == 1 {
        (c, if line == "#EXTM3U".spec_bytes() {
            Ok(ParsedLineV::M3U)
        } else {
            Err(first_line_error())
        })
    } else if line.len() == 0 {
        (c, Ok(ParsedLineV::Empty))
    } else if line[0] != 0x23 {
        (c, Ok(ParsedLineV::Uri(line)))
    } else if !has_prefix(line, "#EXT".spec_bytes()) {
        (c, Ok(ParsedLineV::Comment))
    } else {
        tag_kind_spec(c, line, n)
    }
}

/// What a tag line is, trying the shared, media and multivariant tags in turn.
pub open spec fn tag_kind_spec(c: ContextV, line: Seq<u8>, n: nat) -> (ContextV, Result<ParsedLineV, PErr>) {
    if shared_tag_spec(line, 0) is Ok {
        (c, Ok(ParsedLineV::SharedTag(shared_tag_spec(line, 0)->Ok_0)))
    } else if media_tag_spec(line) is Ok {
        let t = media_tag_spec(line)->Ok_0;
        (
            match t {
                MediaTagV::MediaSequence(ms) => ContextV { media_sequence: ms, ..c },
                _ => c,
            },
            Ok(ParsedLineV::MediaTag(t)),
        )
    } else if multivariant_tag_spec(line) is Ok {
        (c, Ok(ParsedLineV::MultivariantTag(multivariant_tag_spec(line)->Ok_0)))
    } else {
        segment_or_metadata_spec(c, line, n)
    }
}

/// What a tag line is when it is no shared, media or multivariant tag: a segment tag, else
/// a metadata tag, else unknown.
pub open spec fn segment_or_metadata_spec(c: ContextV, line: Seq<u8>, n: nat) -> (ContextV, Result<ParsedLineV, PErr>) {
    let p = PendingV { media_sequence: c.media_sequence, ..c.pending };
    match pending_step(p, line) {
        Ok(np) => (ContextV { pending: np, ..c }, Ok(ParsedLineV::MediaSegment)),
        Err(_) => {
            let c2 = ContextV { pending: p, ..c };
            match metadata_spec(line, n) {
                Ok(m) => (c2, Ok(ParsedLineV::MediaMetadata(m))),
                Err(_) => (c2, Err(PErr::UnknownTag { tag: line, line: n, column: 0 })),
            }
        },
    }
}

/// The kind after a media line: an unknown kind becomes media; a multivariant one refuses it.
pub open spec fn to_media(k: PlaylistKind) -> Result<PlaylistKind, PErr> {
    match k {
        PlaylistKind::Multivariant => Err(PErr::MixedPlaylistTypes),
        _ => Ok(PlaylistKind::Media),
    }
}

/// The kind after a multivariant line: an unknown kind becomes multivariant; a media one
/// refuses it.
pub open spec fn to_multivariant(k: PlaylistKind) -> Result<PlaylistKind, PErr> {
    match k {
        PlaylistKind::Media => Err(PErr::MixedPlaylistTypes),
        _ => Ok(PlaylistKind::Multivariant),
    }
}

/// The next media sequence number, wrapping past the largest one.
pub open spec fn next_sequence(ms: u64) -> u64 {
    if ms == u64::MAX {
        0
    } else {
        (ms + 1) as u64
    }
}

/// The state after a URI line `t` (number `n`): in a media playlist the pending segment ends
/// there (it needs a duration), and the segment and the URI are added; in a multivariant
/// playlist the URI is added; before the kind is known the URI is dropped.
pub open spec fn uri_step(c: ContextV, t: Seq<u8>, n: nat) -> Result<ContextV, PErr> {
    let uri = parse_spec(t);
    match c.kind {
        PlaylistKind::Unknown => Ok(c),
        PlaylistKind::Media => match segment_of(c.pending, uri) {
            Err(e) => Err(e),
            Ok(seg) => Ok(
                ContextV {
                    items: c.items.push(PlaylistItemV::Segment(seg)).push(PlaylistItemV::Uri(uri, n)),
                    pending: empty_pending(),
                    media_sequence: next_sequence(c.media_sequence),
                    previous_media_sequence_number: Some(c.media_sequence),
                    ..c
                },
            ),
        },
        PlaylistKind::Multivariant => Ok(ContextV { items: c.items.push(PlaylistItemV::Uri(uri, n)), ..c }),
    }
}

/// The state after taking in a line of the given kind (number `n`).
pub open spec fn consume_spec(c: ContextV, l: ParsedLineV, n: nat) -> Result<ContextV, PErr> {
    match l {
        ParsedLineV::Empty | ParsedLineV::Comment | ParsedLineV::M3U => Ok(c),
        ParsedLineV::Uri(t) => uri_step(c, t, n),
        ParsedLineV::SharedTag(t) => Ok(ContextV { items: c.items.push(PlaylistItemV::SharedTag(t)), ..c }),
        ParsedLineV::MediaTag(t) => match to_media(c.kind) {
            Err(e) => Err(e),
            Ok(k) => match order_check(c.validator, t) {
                Err(e) => Err(e),
                Ok(()) => Ok(ContextV { kind: k, items: c.items.push(PlaylistItemV::MediaTag(t)), ..c }),
            },
        },
        ParsedLineV::MultivariantTag(t) => match to_multivariant(c.kind) {
            Err(e) => Err(e),
            Ok(k) => Ok(ContextV { kind: k, items: c.items.push(PlaylistItemV::MultivariantTag(t)), ..c }),
        },
        ParsedLineV::MediaSegment => match to_media(c.kind) {
            Err(e) => Err(e),
            Ok(k) => Ok(ContextV { kind: k, ..c }),
        },
        ParsedLineV::MediaMetadata(m) => Ok(ContextV { items: c.items.push(PlaylistItemV::Metadata(m)), ..c }),
    }
}

/// The state after the lines from `i` on (each numbered from 1), or the first error.
pub open spec fn run_lines(lines: Seq<Seq<u8>>, i: nat, c: ContextV) -> Result<ContextV, PErr>
    decreases lines.len() - i,
{
    if i >= lines.len() {
        Ok(c)
    } else {
        let (c1, r) = line_kind_spec(c, lines[i as int], i + 1);
        match r {
            Err(e) => Err(e),
            Ok(l) => match consume_spec(c1, l, i + 1) {
                Err(e) => Err(e),
                Ok(c2) => run_lines(lines, i + 1, c2),
            },
        }
    }
}

/// A media playlist built from the items from `i` on: shared tags and media tags are applied,
/// segments and metadata are added; URIs are skipped.
pub open spec fn build_media(items: Seq<PlaylistItemV>, i: nat, acc: (Seq<MediaItemV>, Seq<VarDefV>)) -> Result<
    (Seq<MediaItemV>, Seq<VarDefV>),
    PErr,
>
    decreases items.len() - i,
{
    if i >= items.len() {
        Ok(acc)
    } else {
        match items[i as int] {
            PlaylistItemV::SharedTag(t) => match media_apply_spec(acc.0, acc.1, t) {
                Err(e) => Err(e),
                Ok(next) => build_media(items, i + 1, next),
            },
            PlaylistItemV::MediaTag(t) => build_media(items, i + 1, (acc.0.push(MediaItemV::ExclusiveTag(t)), acc.1)),
            PlaylistItemV::Segment(s) => build_media(items, i + 1, (acc.0.push(MediaItemV::MediaSegment(s)), acc.1)),
            PlaylistItemV::Metadata(m) => build_media(items, i + 1, (acc.0.push(MediaItemV::Metadata(m)), acc.1)),
            _ => build_media(items, i + 1, acc),
        }
    }
}

/// A multivariant playlist built from the items from `i` on: multivariant tags are added,
/// shared tags applied; other items are skipped.
pub open spec fn build_multivariant(items: Seq<PlaylistItemV>, i: nat, acc: (Seq<SharedTagV>, Seq<MultivariantTagV>, Seq<VarDefV>)) -> Result<
    (Seq<SharedTagV>, Seq<MultivariantTagV>, Seq<VarDefV>),
    PErr,
>
    decreases items.len() - i,
{
    if i >= items.len() {
        Ok(acc)
    } else {
        match items[i as int] {
            PlaylistItemV::MultivariantTag(t) => build_multivariant(items, i + 1, (acc.0, acc.1.push(t), acc.2)),
            PlaylistItemV::SharedTag(t) => match multivariant_apply_spec(acc.0, acc.2, t) {
                Err(e) => Err(e),
                Ok((tags, vars)) => build_multivariant(items, i + 1, (tags, acc.1, vars)),
            },
            _ => build_multivariant(items, i + 1, acc),
        }
    }
}

/// The playlist the state describes: an unknown kind gives an empty media playlist.
pub open spec fn finish_spec(c: ContextV) -> Result<PlaylistV, PErr> {
    match c.kind {
        PlaylistKind::Multivariant => match build_multivariant(c.items, 0, (Seq::empty(), Seq::empty(), Seq::empty())) {
            Err(e) => Err(e),
            Ok((t, m, v)) => Ok(PlaylistV::Multivariant(t, m, v)),
        },
        PlaylistKind::Media => match build_media(c.items, 0, (Seq::empty(), Seq::empty())) {
            Err(e) => Err(e),
            Ok((i, v)) => Ok(PlaylistV::Media(i, v)),
        },
        PlaylistKind::Unknown => Ok(PlaylistV::Media(Seq::empty(), Seq::empty())),
    }
}

/// The lines of a text, as `str::lines` gives them: split at `\n`, a `\r` before the `\n`
/// removed, and no line after a final `\n`.
pub open spec fn lines_spec(s: Seq<u8>) -> Seq<Seq<u8>> {
    let p = split(s, 0x0a);
    let terminated = p.drop_last().map_values(|l: Seq<u8>| strip_cr(l));
    if p.last().len() == 0 {
        terminated
    } else {
        terminated.push(p.last())
    }
}

/// A line without one trailing `\r`.
pub open spec fn strip_cr(l: Seq<u8>) -> Seq<u8> {
    if l.len() > 0 && l.last() == 0x0d {
        l.drop_last()
    } else {
        l
    }
}

/// The playlist written as `s`.
pub open spec fn playlist_spec(s: Seq<u8>) -> Result<PlaylistV, PErr> {
    match run_lines(lines_spec(s), 0, initial_context()) {
        Err(e) => Err(e),
        Ok(c) => finish_spec(c),
    }
}

impl ParseContext {
    /// The state before the first line.
    pub fn new() -> (r: Self)
        ensures
            r@ == initial_context(),
    {
        let r = ParseContext { parse_segment_state: ParseSegmentState::new(), playlist_parser: PlaylistParser::new() };
        proof {
            assert(pitems_view(r.playlist_parser.items@) =~= Seq::<PlaylistItemV>::empty());
        }
        r
    }

    /// Reads what the line `line` (number `line_number`) is; see `line_kind_spec`.
    #[verifier::spinoff_prover]
    #[verifier::rlimit(40)]
    pub fn parse_line_kind(&mut self, line: &str, line_number: usize) -> (r: Result<ParsedLine, ParseError>)
        ensures
            final(self)@ == line_kind_spec(old(self)@, line.spec_bytes(), line_number as nat).0,
            match line_kind_spec(old(self)@, line.spec_bytes(), line_number as nat).1 {
                Ok(l) => r matches Ok(x) && x@ == l,
                Err(e) => r matches Err(x) && x@ == e,
            },
    {
        if line_number == 1 {
            if str_eq(line, "#EXTM3U") {
                return Ok(ParsedLine::M3U);
            }
            return Err(ParseError::InvalidLine(owned("First Line of every Media or Multivariant Playlist must be `#EXTM3U`")));
        }
        let b = bytes(line);
        if b.len() == 0 {
            return Ok(ParsedLine::Empty);
        }
        if b[0] != 0x23 {
            return Ok(ParsedLine::Uri(owned(line)));
        }
        if !starts_with(line, "#EXT") {
            return Ok(ParsedLine::Comment);
        }
        self.parse_tag_line(line, line_number)
    }

    /// Reads what a tag line is; see `tag_kind_spec`.
    #[verifier::spinoff_prover]
    fn parse_tag_line(&mut self, line: &str, line_number: usize) -> (r: Result<ParsedLine, ParseError>)
        ensures
            final(self)@ == tag_kind_spec(old(self)@, line.spec_bytes(), line_number as nat).0,
            match tag_kind_spec(old(self)@, line.spec_bytes(), line_number as nat).1 {
                Ok(l) => r matches Ok(x) && x@ == l,
                Err(e) => r matches Err(x) && x@ == e,
            },
    {
        if let Ok(tag) = parse_shared_tag(line, 0) {
            return Ok(ParsedLine::SharedTag(tag));
        }
        if let Ok(tag) = parse_media_exclusive_tag(line) {
            if let MediaExclusiveTag::MediaSequence(ms) = tag {
                self.parse_segment_state.set_media_sequence(ms);
            }
            return Ok(ParsedLine::MediaTag(tag));
        }
        if let Ok(tag) = parse_multivariant_exclusive_tag(line) {
            return Ok(ParsedLine::MultivariantTag(tag));
        }
        self.parse_segment_or_metadata(line, line_number)
    }

    /// Reads a segment tag or a metadata tag; see `segment_or_metadata_spec`.
    #[verifier::spinoff_prover]
    fn parse_segment_or_metadata(&mut self, line: &str, line_number: usize) -> (r: Result<ParsedLine, ParseError>)
        ensures
            final(self)@ == segment_or_metadata_spec(old(self)@, line.spec_bytes(), line_number as nat).0,
            match segment_or_metadata_spec(old(self)@, line.spec_bytes(), line_number as nat).1 {
                Ok(l) => r matches Ok(x) && x@ == l,
                Err(e) => r matches Err(x) && x@ == e,
            },
    {
        if self.parse_segment_state.accept(line).is_ok() {
            return Ok(ParsedLine::MediaSegment);
        }
        if let Ok(tag) = MediaMetadata::parse_line(line, line_number) {
            return Ok(ParsedLine::MediaMetadata(tag));
        }
        Err(ParseError::UnknownTag { tag: owned(line), span: crate::error::Span { line: line_number, column: 0 } })
    }

    /// Makes the playlist a media playlist, unless it is a multivariant one.
    pub fn promote_to_media(&mut self) -> (r: Result<(), ParseError>)
        ensures
            match to_media(old(self)@.kind) {
                Ok(k) => r is Ok && final(self)@ == (ContextV { kind: k, ..old(self)@ }),
                Err(e) => (r matches Err(x) && x@ == e) && final(self)@ == old(self)@,
            },
    {
        match self.playlist_parser.kind {
            PlaylistKind::Multivariant => Err(ParseError::MixedPlaylistTypes),
            _ => {
                self.playlist_parser.kind = PlaylistKind::Media;
                Ok(())
            },
        }
    }

    /// Makes the playlist a multivariant playlist, unless it is a media one.
    pub fn promote_to_multivariant(&mut self) -> (r: Result<(), ParseError>)
        ensures
            match to_multivariant(old(self)@.kind) {
                Ok(k) => r is Ok && final(self)@ == (ContextV { kind: k, ..old(self)@ }),
                Err(e) => (r matches Err(x) && x@ == e) && final(self)@ == old(self)@,
            },
    {
        match self.playlist_parser.kind {
            PlaylistKind::Media => Err(ParseError::MixedPlaylistTypes),
            _ => {
                self.playlist_parser.kind = PlaylistKind::Multivariant;
                Ok(())
            },
        }
    }

    fn push_item(&mut self, item: PlaylistItem)
        ensures
            final(self)@ == (ContextV { items: old(self)@.items.push(item@), ..old(self)@ }),
    {
        let ghost before = self.playlist_parser.items@;
        self.playlist_parser.items.push(item);
        proof {
            assert(pitems_view(self.playlist_parser.items@) =~= pitems_view(before).push(item@));
        }
    }

    /// Takes in a URI line; see `uri_step`.
    pub fn consume_uri(&mut self, uri: String, line_number: usize) -> (r: Result<(), ParseError>)
        ensures
            match uri_step(old(self)@, utf8(uri@), line_number as nat) {
                Ok(c) => r is Ok && final(self)@ == c,
                Err(e) => r matches Err(x) && x@ == e,
            },
    {
        match self.playlist_parser.kind {
            PlaylistKind::Unknown => Ok(()),
            PlaylistKind::Media => {
                let pseg = self.parse_segment_state.finish_pending_segment();
                let seg_uri = match Uri::parse(uri.as_str()) {
                    Ok(u) => u,
                    Err(e) => {
                        return Err(ParseError::InvalidUri { source: e });
                    },
                };
                let seg = match pseg.build(seg_uri) {
                    Ok(s) => s,
                    Err(e) => {
                        return Err(e);
                    },
                };
                let item_uri = match Uri::parse(uri.as_str()) {
                    Ok(u) => u,
                    Err(e) => {
                        return Err(ParseError::InvalidUri { source: e });
                    },
                };
                self.push_item(PlaylistItem::Segment(seg));
                self.push_item(PlaylistItem::Uri(item_uri, line_number));
                Ok(())
            },
            PlaylistKind::Multivariant => {
                let item_uri = match Uri::parse(uri.as_str()) {
                    Ok(u) => u,
                    Err(e) => {
                        return Err(ParseError::InvalidUri { source: e });
                    },
                };
                self.push_item(PlaylistItem::Uri(item_uri, line_number));
                Ok(())
            },
        }
    }

    /// Takes in a line of the given kind; see `consume_spec`.
    pub fn consume(&mut self, line: ParsedLine, line_number: usize) -> (r: Result<(), ParseError>)
        ensures
            match consume_spec(old(self)@, line@, line_number as nat) {
                Ok(c) => r is Ok && final(self)@ == c,
                Err(e) => r matches Err(x) && x@ == e,
            },
    {
        match line {
            ParsedLine::Empty | ParsedLine::Comment | ParsedLine::M3U => Ok(()),
            ParsedLine::Uri(uri) => self.consume_uri(uri, line_number),
            ParsedLine::SharedTag(tag) => {
                self.push_item(PlaylistItem::SharedTag(tag));
                Ok(())
            },
            ParsedLine::MediaTag(tag) => {
                match self.promote_to_media() {
                    Ok(()) => {},
                    Err(e) => {
                        return Err(e);
                    },
                }
                match self.playlist_parser.validator.consume_media_tag(&tag) {
                    Ok(()) => {},
                    Err(e) => {
                        return Err(e);
                    },
                }
                self.push_item(PlaylistItem::MediaTag(tag));
                Ok(())
            },
            ParsedLine::MultivariantTag(tag) => {
                match self.promote_to_multivariant() {
                    Ok(()) => {},
                    Err(e) => {
                        return Err(e);
                    },
                }
                self.push_item(PlaylistItem::MultivariantTag(tag));
                Ok(())
            },
            ParsedLine::MediaSegment => self.promote_to_media(),
            ParsedLine::MediaMetadata(m) => {
                self.push_item(PlaylistItem::Metadata(m));
                Ok(())
            },
        }
    }

    /// The playlist the lines read so far describe; see `finish_spec`.
    pub fn finish(self) -> (r: Result<Playlist, ParseError>)
        ensures
            match finish_spec(self@) {
                Ok(p) => r matches Ok(x) && x@ == p,
                Err(e) => r matches Err(x) && x@ == e,
            },
    {
        let ghost all = pitems_view(self.playlist_parser.items@);
        let kind = self.playlist_parser.kind;
        let mut rest = self.playlist_parser.items;
        proof {
            assert(all.len() == rest@.len());
        }
        match kind {
            PlaylistKind::Unknown => {
                let m = MediaPlaylist { items: Vec::new(), variables: Vec::new() };
                proof {
                    assert(items_view(m.items@) =~= Seq::<MediaItemV>::empty());
                    assert(vars_view(m.variables@) =~= Seq::<VarDefV>::empty());
                }
                Ok(Playlist::Media(m))
            },
            PlaylistKind::Media => {
                let mut m = MediaPlaylist { items: Vec::new(), variables: Vec::new() };
                let mut err: Option<ParseError> = None;
                let ghost mut j: int = 0;
                proof {
                    assert(items_view(m.items@) =~= Seq::<MediaItemV>::empty());
                    assert(vars_view(m.variables@) =~= Seq::<VarDefV>::empty());
                    assert(all.skip(0) =~= all);
                }
                while rest.len() > 0
                    invariant_except_break
                        err is None,
                        0 <= j <= all.len(),
                        pitems_view(rest@) == all.skip(j),
                        rest@.len() == all.len() - j,
                        build_media(all, 0, (Seq::empty(), Seq::empty())) == build_media(
                            all,
                            j as nat,
                            (items_view(m.items@), vars_view(m.variables@)),
                        ),
                    ensures
                        match err {
                            Some(e) => build_media(all, 0, (Seq::empty(), Seq::empty())) == Err::<(Seq<MediaItemV>, Seq<VarDefV>), PErr>(e@),
                            None => build_media(all, 0, (Seq::empty(), Seq::empty())) == Ok::<(Seq<MediaItemV>, Seq<VarDefV>), PErr>((items_view(m.items@), vars_view(m.variables@))),
                        },
                    decreases rest.len(),
                {
                    let ghost before = rest@;
                    let item = rest.remove(0);
                    proof {
                        assert(pitems_view(before).len() == before.len());
                        assert(rest@ =~= before.drop_first());
                        assert(pitems_view(before)[0] == item@);
                        assert(all[j] == all.skip(j)[0]);
                        assert(all.skip(j).drop_first() =~= all.skip(j + 1));
                        assert(pitems_view(rest@) =~= pitems_view(before).drop_first());
                    }
                    match item {
                        PlaylistItem::SharedTag(t) => {
                            let ghost acc = (items_view(m.items@), vars_view(m.variables@));
                            let ghost tv = t@;
                            match m.apply_shared_tag(t) {
                                Ok(()) => {},
                                Err(e) => {
                                    proof {
                                        assert(all[j] == PlaylistItemV::SharedTag(tv));
                                        assert(media_apply_spec(acc.0, acc.1, tv) == Err::<(Seq<MediaItemV>, Seq<VarDefV>), PErr>(e@));
                                        assert(build_media(all, j as nat, acc) == Err::<(Seq<MediaItemV>, Seq<VarDefV>), PErr>(e@));
                                    }
                                    err = Some(e);
                                    break;
                                },
                            }
                        },
                        PlaylistItem::MediaTag(t) => {
                            let _ = m.apply_exclusive_tag(t);
                        },
                        PlaylistItem::Segment(s) => {
                            let ghost b = m.items@;
                            let ghost sv = s@;
                            m.items.push(MediaPlaylistItem::MediaSegment(s));
                            proof {
                                assert(items_view(m.items@) =~= items_view(b).push(MediaItemV::MediaSegment(sv)));
                            }
                        },
                        PlaylistItem::Metadata(x) => {
                            let ghost b = m.items@;
                            let ghost xv = x@;
                            m.items.push(MediaPlaylistItem::Metadata(x));
                            proof {
                                assert(items_view(m.items@) =~= items_view(b).push(MediaItemV::Metadata(xv)));
                            }
                        },
                        _ => {},
                    }
                    proof {
                        j = j + 1;
                    }
                }
                match err {
                    Some(e) => Err(e),
                    None => Ok(Playlist::Media(m)),
                }
            },
            PlaylistKind::Multivariant => {
                let mut m = MultivariantPlaylist { shared_tags: Vec::new(), exclusive_tags: Vec::new(), variables: Vec::new() };
                let mut err: Option<ParseError> = None;
                let ghost mut j: int = 0;
                proof {
                    assert(shared_view(m.shared_tags@) =~= Seq::<SharedTagV>::empty());
                    assert(mtags_view(m.exclusive_tags@) =~= Seq::<MultivariantTagV>::empty());
                    assert(vars_view(m.variables@) =~= Seq::<VarDefV>::empty());
                    assert(all.skip(0) =~= all);
                }
                while rest.len() > 0
                    invariant_except_break
                        err is None,
                        0 <= j <= all.len(),
                        pitems_view(rest@) == all.skip(j),
                        rest@.len() == all.len() - j,
                        build_multivariant(all, 0, (Seq::empty(), Seq::empty(), Seq::empty()))
                            == build_multivariant(
                            all,
                            j as nat,
                            (shared_view(m.shared_tags@), mtags_view(m.exclusive_tags@), vars_view(m.variables@)),
                        ),
                    ensures
                        match err {
                            Some(e) => build_multivariant(all, 0, (Seq::empty(), Seq::empty(), Seq::empty())) == Err::<
                                (Seq<SharedTagV>, Seq<MultivariantTagV>, Seq<VarDefV>),
                                PErr,
                            >(e@),
                            None => build_multivariant(all, 0, (Seq::empty(), Seq::empty(), Seq::empty())) == Ok::<
                                (Seq<SharedTagV>, Seq<MultivariantTagV>, Seq<VarDefV>),
                                PErr,
                            >((shared_view(m.shared_tags@), mtags_view(m.exclusive_tags@), vars_view(m.variables@))),
                        },
                    decreases rest.len(),
                {
                    let ghost before = rest@;
                    let item = rest.remove(0);
                    proof {
                        assert(pitems_view(before).len() == before.len());
                        assert(rest@ =~= before.drop_first());
                        assert(pitems_view(before)[0] == item@);
                        assert(all[j] == all.skip(j)[0]);
                        assert(all.skip(j).drop_first() =~= all.skip(j + 1));
                        assert(pitems_view(rest@) =~= pitems_view(before).drop_first());
                    }
                    match item {
                        PlaylistItem::MultivariantTag(t) => {
                            let ghost b = m.exclusive_tags@;
                            let ghost tv = t@;
                            let _ = m.apply_exclusive_tag(t);
                            proof {
                                assert(mtags_view(m.exclusive_tags@) =~= mtags_view(b).push(tv));
                            }
                        },
                        PlaylistItem::SharedTag(t) => {
                            let ghost acc = (shared_view(m.shared_tags@), mtags_view(m.exclusive_tags@), vars_view(m.variables@));
                            let ghost tv = t@;
                            match m.apply_shared_tag(t) {
                                Ok(()) => {},
                                Err(e) => {
                                    proof {
                                        assert(all[j] == PlaylistItemV::SharedTag(tv));
                                        assert(build_multivariant(all, j as nat, acc) == Err::<
                                            (Seq<SharedTagV>, Seq<MultivariantTagV>, Seq<VarDefV>),
                                            PErr,
                                        >(e@));
                                    }
                                    err = Some(e);
                                    break;
                                },
                            }
                        },
                        _ => {},
                    }
                    proof {
                        j = j + 1;
                    }
                }
                match err {
                    Some(e) => Err(e),
                    None => Ok(Playlist::Multivariant(m)),
                }
            },
        }
    }
}

/// The lines of `s`; see `lines_spec`.
pub fn lines(s: &str) -> (r: Vec<&str>)
    ensures
        r@.len() == lines_spec(s.spec_bytes()).len(),
        forall|k: int| 0 <= k < r@.len() ==> #[trigger] r@[k].spec_bytes() == lines_spec(s.spec_bytes())[k],
{
    let parts = split_str(s, 0x0a);
    let ghost p = split(s.spec_bytes(), 0x0a);
    let n = parts.len();
    let mut out: Vec<&str> = Vec::new();
    let mut i: usize = 0;
    proof {
        crate::text::lemma_split_nonempty(s.spec_bytes(), 0x0a);
    }
    while i + 1 < n
        invariant
            n == parts@.len(),
            n == p.len(),
            n >= 1,
            i < n,
            p == split(s.spec_bytes(), 0x0a),
            forall|k: int| 0 <= k < parts@.len() ==> #[trigger] parts@[k].spec_bytes() == p[k],
            out@.len() == i,
            forall|k: int| 0 <= k < i ==> #[trigger] out@[k].spec_bytes() == strip_cr(p[k]),
        decreases n - i,
    {
        let piece = parts[i];
        let pb = bytes(piece);
        proof {
            assert(piece.spec_bytes() == p[i as int]);
        }
        let line = if pb.len() > 0 && pb[pb.len() - 1] == 0x0d {
            let l = slice_ascii(piece, 0, pb.len() - 1);
            proof {
                assert(l.spec_bytes() =~= p[i as int].drop_last());
            }
            l
        } else {
            piece
        };
        out.push(line);
        i = i + 1;
    }
    let last = parts[n - 1];
    proof {
        assert(last.spec_bytes() == p[n - 1]);
        assert(p.drop_last().map_values(|l: Seq<u8>| strip_cr(l)).len() == i);
    }
    if bytes(last).len() > 0 {
        out.push(last);
    }
    proof {
        let t = p.drop_last().map_values(|l: Seq<u8>| strip_cr(l));
        assert forall|k: int| 0 <= k < t.len() implies out@[k].spec_bytes() == t[k] by {}
    }
    out
}

impl Playlist {
    /// Reads a whole playlist; see `playlist_spec`.
    pub fn parse(s: &str) -> (r: Result<Playlist, ParseError>)
        ensures
            match playlist_spec(s.spec_bytes()) {
                Ok(p) => r matches Ok(x) && x@ == p,
                Err(e) => r matches Err(x) && x@ == e,
            },
    {
        let ls = lines(s);
        let ghost lv = lines_spec(s.spec_bytes());
        let mut ctx = ParseContext::new();
        let mut i: usize = 0;
        while i < ls.len()
            invariant
                i <= ls@.len(),
                ls@.len() == lv.len(),
                forall|k: int| 0 <= k < ls@.len() ==> #[trigger] ls@[k].spec_bytes() == lv[k],
                run_lines(lv, 0, initial_context()) == run_lines(lv, i as nat, ctx@),
                lv == lines_spec(s.spec_bytes()),
            decreases ls.len() - i,
        {
            let n = i + 1;
            proof {
                assert(ls@[i as int].spec_bytes() == lv[i as int]);
            }
            let line = match ctx.parse_line_kind(ls[i], n) {
                Ok(l) => l,
                Err(e) => {
                    return Err(e);
                },
            };
            match ctx.consume(line, n) {
                Ok(()) => {},
                Err(e) => {
                    return Err(e);
                },
            }
            i = i + 1;
        }
        ctx.finish()
    }

    /// The media playlist, if this is one.
    pub fn as_media(&self) -> (r: Option<&MediaPlaylist>)
        ensures
            match self {
                Playlist::Media(m) => r == Some(m),
                _ => r is None,
            },
    {
        match self {
            Playlist::Media(m) => Some(m),
            _ => None,
        }
    }

    /// The multivariant playlist, if this is one.
    pub fn as_multivariant(&self) -> (r: Option<&MultivariantPlaylist>)
        ensures
            match self {
                Playlist::Multivariant(m) => r == Some(m),
                _ => r is None,
            },
    {
        match self {
            Playlist::Multivariant(m) => Some(m),
            _ => None,
        }
    }
}

impl std::str::FromStr for Playlist {
    type Err = ParseError;

    fn from_str(s: &str) -> (r: Result<Self, Self::Err>)
        ensures
            match playlist_spec(s.spec_bytes()) {
                Ok(p) => r matches Ok(x) && x@ == p,
                Err(e) => r matches Err(x) && x@ == e,
            },
    {
        Playlist::parse(s)
    }
}


/// Once a playlist is known to be a media or a multivariant playlist, taking in a line never
/// makes it the other kind: such a line is refused instead.
pub proof fn law_kind_is_kept(c: ContextV, l: ParsedLineV, n: nat)
    ensures
        consume_spec(c, l, n) matches Ok(c2) ==> (c.kind != PlaylistKind::Unknown ==> c2.kind == c.kind),
        c.kind == PlaylistKind::Media && (l is MultivariantTag) ==> consume_spec(c, l, n) == Err::<ContextV, PErr>(
            PErr::MixedPlaylistTypes,
        ),
        c.kind == PlaylistKind::Multivariant && (l is MediaTag || l is MediaSegment) ==> consume_spec(c, l, n) == Err::<
            ContextV,
            PErr,
        >(PErr::MixedPlaylistTypes),
{
}

/// Taking in a line only ever adds items at the end: what was read before stays as it was.
pub proof fn law_items_only_grow(c: ContextV, l: ParsedLineV, n: nat)
    ensures
        consume_spec(c, l, n) matches Ok(c2) ==> c2.items.len() >= c.items.len() && c2.items.subrange(
            0,
            c.items.len() as int,
        ) == c.items,
{
    if consume_spec(c, l, n) is Ok {
        let c2 = consume_spec(c, l, n)->Ok_0;
        assert(c2.items.subrange(0, c.items.len() as int) =~= c.items);
    }
}

/// Reading what a line is never changes the items read so far nor the playlist's kind.
pub proof fn law_line_kind_keeps_items(c: ContextV, line: Seq<u8>, n: nat)
    ensures
        line_kind_spec(c, line, n).0.items == c.items,
        line_kind_spec(c, line, n).0.kind == c.kind,
{
}


/// In a media playlist, a URI line ends the pending segment (which has its duration): the
/// segment is added with the media sequence number the pending segment took, the URI after
/// it; the number in force becomes the next one (past the largest, zero), and a new pending
/// segment starts.
pub proof fn law_uri_ends_segment(c: ContextV, t: Seq<u8>, n: nat)
    requires
        c.kind == PlaylistKind::Media,
        c.pending.duration is Some,
    ensures
        uri_step(c, t, n) matches Ok(c2) && c2.media_sequence == next_sequence(c.media_sequence)
            && c2.previous_media_sequence_number == Some(c.media_sequence) && c2.items.len() == c.items.len() + 2
            && (c2.items[c.items.len() as int] matches PlaylistItemV::Segment(s) && s.media_sequence
            == c.pending.media_sequence) && c2.pending == empty_pending(),
{
}

/// A segment tag line is read into the pending segment, which takes the media sequence
/// number in force.
pub proof fn law_segment_tag_takes_sequence(c: ContextV, line: Seq<u8>, n: nat)
    ensures
        segment_or_metadata_spec(c, line, n).1 matches Ok(ParsedLineV::MediaSegment) ==> segment_or_metadata_spec(
            c,
            line,
            n,
        ).0.pending.media_sequence == c.media_sequence,
{
    reveal(pending_step);
}

} // verus!
