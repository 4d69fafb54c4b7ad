//! Media playlists: their own tags, and the playlist built from its items.
use vstd::prelude::*;
use vstd::string::*;
use crate::attribute_list::{AttrV, AttributeList, AttributeValue, attribute_list_spec, lookup, parse_attribute_list};
use crate::decimal::DecimalFloat;
use crate::error::{PErr, ParseError, VErr, ValidationError};
use crate::decimal::dec_lt_int;
use crate::uri::{decode, decode_spec};
use crate::num::{parse_uint, parse_uint_spec};
use crate::playlist::{
    MediaMetadata, MediaMetadataV, PlayListVariableDefinition, SharedTag, SharedTagV, VarDefV,
    after, enumerated_of, invalid_line, opt_view,
};
use crate::segment::{MediaSegment, MediaSegmentV};
use crate::text::{bytes, concat_str, has_prefix, owned, starts_with, str_eq, strip_prefix, utf8};

verus! {

/// Whether the playlist is a video on demand or an event.
#[derive(Debug, Clone, Copy, PartialEq, Eq, Structural)]
pub enum PlayListType {
    Vod,
    Event,
}

/// The playlist type an enumerated string names, or the error for the text `s`.
pub open spec fn playlist_type_spec(s: Seq<u8>) -> Result<PlayListType, PErr> {
    if s == "VOD".spec_bytes() {
        Ok(PlayListType::Vod)
    } else if s == "EVENT".spec_bytes() {
        Ok(PlayListType::Event)
    } else {
        Err(invalid_line(s))
    }
}

impl PlayListType {
    /// Reads `VOD` or `EVENT`.
    pub fn parse(s: &str) -> (r: Result<PlayListType, ParseError>)
        ensures
            match playlist_type_spec(s.spec_bytes()) {
                Ok(t) => r == Ok::<PlayListType, ParseError>(t),
                Err(e) => r matches Err(x) && x@ == e,
            },
    {
        if str_eq(s, "VOD") {
            Ok(PlayListType::Vod)
        } else if str_eq(s, "EVENT") {
            Ok(PlayListType::Event)
        } else {
            Err(ParseError::InvalidLine(concat_str(s, " is not valid according to HLS spec.")))
        }
    }
}

impl std::str::FromStr for PlayListType {
    type Err = ParseError;

    fn from_str(s: &str) -> (r: Result<Self, Self::Err>)
        ensures
            match playlist_type_spec(s.spec_bytes()) {
                Ok(t) => r == Ok::<PlayListType, ParseError>(t),
                Err(e) => r matches Err(x) && x@ == e,
            },
    {
        PlayListType::parse(s)
    }
}

/// The `EXT-X-SERVER-CONTROL` attributes.
#[derive(Debug, Clone, PartialEq)]
pub struct ServerControl {
    pub can_skip_until: Option<DecimalFloat>,
    pub can_skip_dateranges: Option<bool>,
    pub hold_back: Option<DecimalFloat>,
    pub part_hold_back: Option<DecimalFloat>,
    pub can_block_reload: bool,
}

/// Server control with its numbers as text.
pub struct ServerControlV {
    pub can_skip_until: Option<Seq<u8>>,
    pub can_skip_dateranges: Option<bool>,
    pub hold_back: Option<Seq<u8>>,
    pub part_hold_back: Option<Seq<u8>>,
    pub can_block_reload: bool,
}

impl View for ServerControl {
    type V = ServerControlV;

    open spec fn view(&self) -> ServerControlV {
        ServerControlV {
            can_skip_until: crate::playlist::opt_decimal_view(self.can_skip_until),
            can_skip_dateranges: self.can_skip_dateranges,
            hold_back: crate::playlist::opt_decimal_view(self.hold_back),
            part_hold_back: crate::playlist::opt_decimal_view(self.part_hold_back),
            can_block_reload: self.can_block_reload,
        }
    }
}

/// The number of a decimal-floating-point value, if it is one.
pub open spec fn decimal_of(v: Option<AttrV>) -> Option<Seq<u8>> {
    match v {
        Some(AttrV::DecimalFloatingPoint(t)) => Some(t),
        _ => None,
    }
}

/// The server control an `EXT-X-SERVER-CONTROL` attribute list describes; attributes of the
/// wrong kind are ignored.
pub open spec fn server_control_spec(m: Seq<(Seq<u8>, AttrV)>) -> ServerControlV {
    ServerControlV {
        can_skip_until: decimal_of(lookup(m, "CAN-SKIP-UNTIL".spec_bytes())),
        can_skip_dateranges: match enumerated_of(lookup(m, "CAN-SKIP-DATERANGES".spec_bytes())) {
            Some(t) => if t == "YES".spec_bytes() {
                Some(true)
            } else if t == "NO".spec_bytes() {
                Some(false)
            } else {
                None
            },
            None => None,
        },
        hold_back: decimal_of(lookup(m, "HOLD-BACK".spec_bytes())),
        part_hold_back: decimal_of(lookup(m, "PART-HOLD-BACK".spec_bytes())),
        can_block_reload: enumerated_of(lookup(m, "CAN-BLOCK-RELOAD".spec_bytes())) == Some(
            "YES".spec_bytes(),
        ),
    }
}

fn decimal_attr(v: Option<&AttributeValue>) -> (r: Option<DecimalFloat>)
    ensures
        crate::playlist::opt_decimal_view(r) == decimal_of(opt_view(v)),
{
    match v {
        Some(x) => match x.as_decimal_floating_point() {
            Some(d) => Some(d.copy()),
            None => None,
        },
        None => None,
    }
}

impl ServerControl {
    /// The server control an `EXT-X-SERVER-CONTROL` attribute list describes.
    pub fn new(attrs: AttributeList) -> (r: Result<Self, ParseError>)
        ensures
            r matches Ok(s) && s@ == server_control_spec(attrs@),
    {
        let can_skip_until = decimal_attr(attrs.get("CAN-SKIP-UNTIL"));
        let can_skip_dateranges = match attrs.get("CAN-SKIP-DATERANGES") {
            Some(v) => match v.as_enumerated_string() {
                Some(t) => if str_eq(t, "YES") {
                    Some(true)
                } else if str_eq(t, "NO") {
                    Some(false)
                } else {
                    None
                },
                None => None,
            },
            None => None,
        };
        let hold_back = decimal_attr(attrs.get("HOLD-BACK"));
        let part_hold_back = decimal_attr(attrs.get("PART-HOLD-BACK"));
        let can_block_reload = match attrs.get("CAN-BLOCK-RELOAD") {
            Some(v) => match v.as_enumerated_string() {
                Some(t) => str_eq(t, "YES"),
                None => false,
            },
            None => false,
        };
        Ok(ServerControl { can_skip_until, can_skip_dateranges, hold_back, part_hold_back, can_block_reload })
    }
}

/// A tag that only media playlists have.
#[derive(Debug, Clone, PartialEq)]
pub enum MediaExclusiveTag {
    TargetDuration(u64),
    MediaSequence(u64),
    DiscontinuitySequence(u64),
    EndList,
    PlaylistType(PlayListType),
    IFramesOnly,
    PartInf { part_target: DecimalFloat },
    ServerControl(ServerControl),
}

/// A media tag with its numbers as text.
pub enum MediaTagV {
    TargetDuration(u64),
    MediaSequence(u64),
    DiscontinuitySequence(u64),
    EndList,
    PlaylistType(PlayListType),
    IFramesOnly,
    PartInf { part_target: Seq<u8> },
    ServerControl(ServerControlV),
}

impl View for MediaExclusiveTag {
    type V = MediaTagV;

    open spec fn view(&self) -> MediaTagV {
        match self {
            MediaExclusiveTag::TargetDuration(d) => MediaTagV::TargetDuration(*d),
            MediaExclusiveTag::MediaSequence(n) => MediaTagV::MediaSequence(*n),
            MediaExclusiveTag::DiscontinuitySequence(n) => MediaTagV::DiscontinuitySequence(*n),
            MediaExclusiveTag::EndList => MediaTagV::EndList,
            MediaExclusiveTag::PlaylistType(t) => MediaTagV::PlaylistType(*t),
            MediaExclusiveTag::IFramesOnly => MediaTagV::IFramesOnly,
            MediaExclusiveTag::PartInf { part_target } => MediaTagV::PartInf {
                part_target: part_target@,
            },
            MediaExclusiveTag::ServerControl(s) => MediaTagV::ServerControl(s@),
        }
    }
}

/// A number after a prefix, or 0 when it does not read as one.
pub open spec fn number_or_zero(s: Seq<u8>) -> u64 {
    match parse_uint_spec(s, false, u64::MAX as nat) {
        Ok(n) => n as u64,
        Err(_) => 0,
    }
}

/// The media tag on `line`.
#[verifier::opaque]
pub open spec fn media_tag_spec(line: Seq<u8>) -> Result<MediaTagV, PErr> {
    if has_prefix(line, "#EXT-X-TARGETDURATION:".spec_bytes()) {
        match parse_uint_spec(after(line, "#EXT-X-TARGETDURATION:".spec_bytes()), false, u64::MAX as nat) {
            Ok(v) => if v >= 1 {
                Ok(MediaTagV::TargetDuration(v as u64))
            } else {
                Err(invalid_line(line))
            },
            Err(_) => Err(invalid_line(line)),
        }
    } else if has_prefix(line, "#EXT-X-MEDIA-SEQUENCE:".spec_bytes()) {
        Ok(MediaTagV::MediaSequence(number_or_zero(after(line, "#EXT-X-MEDIA-SEQUENCE:".spec_bytes()))))
    } else if has_prefix(line, "#EXT-X-DISCONTINUITY-SEQUENCE:".spec_bytes()) {
        Ok(
            MediaTagV::DiscontinuitySequence(
                number_or_zero(after(line, "#EXT-X-DISCONTINUITY-SEQUENCE:".spec_bytes())),
            ),
        )
    } else if has_prefix(line, "#EXT-X-ENDLIST".spec_bytes()) {
        Ok(MediaTagV::EndList)
    } else if has_prefix(line, "#EXT-X-PLAYLIST-TYPE:".spec_bytes()) {
        match playlist_type_spec(after(line, "#EXT-X-PLAYLIST-TYPE:".spec_bytes())) {
            Ok(t) => Ok(MediaTagV::PlaylistType(t)),
            Err(_) => Err(invalid_line(line)),
        }
    } else if has_prefix(line, "#EXT-X-I-FRAMES-ONLY".spec_bytes()) {
        Ok(MediaTagV::IFramesOnly)
    } else if has_prefix(line, "#EXT-X-PART-INF:".spec_bytes()) {
        match attribute_list_spec(after(line, "#EXT-X-PART-INF:".spec_bytes())) {
            Err(e) => Err(e),
            Ok(m) => match decimal_of(lookup(m, "PART-TARGET".spec_bytes())) {
                Some(t) => Ok(MediaTagV::PartInf { part_target: t }),
                None => Err(invalid_line(line)),
            },
        }
    } else if has_prefix(line, "#EXT-X-SERVER-CONTROL:".spec_bytes()) {
        match attribute_list_spec(after(line, "#EXT-X-SERVER-CONTROL:".spec_bytes())) {
            Err(e) => Err(e),
            Ok(m) => Ok(MediaTagV::ServerControl(server_control_spec(m))),
        }
    } else {
        Err(PErr::InvalidLine(line))
    }
}

fn u64_or_zero(s: &str) -> (r: u64)
    ensures
        r == number_or_zero(s.spec_bytes()),
{
    match parse_uint(bytes(s), false, u64::MAX) {
        Ok(n) => n,
        Err(_) => 0,
    }
}

/// Parses a tag that only media playlists have.
pub fn parse_media_exclusive_tag(line: &str) -> (r: Result<MediaExclusiveTag, ParseError>)
    ensures
        match media_tag_spec(line.spec_bytes()) {
            Ok(t) => r matches Ok(x) && x@ == t,
            Err(e) => r matches Err(x) && x@ == e,
        },
{
    proof {
        reveal(media_tag_spec);
    }
    if let Some(rest) = strip_prefix(line, "#EXT-X-TARGETDURATION:") {
        return match parse_uint(bytes(rest), false, u64::MAX) {
            Ok(v) => if v >= 1 {
                Ok(MediaExclusiveTag::TargetDuration(v))
            } else {
                Err(ParseError::InvalidLine(concat_str(line, " is not valid according to HLS spec.")))
            },
            Err(_) => Err(ParseError::InvalidLine(concat_str(line, " is not valid according to HLS spec."))),
        };
    }
    if let Some(rest) = strip_prefix(line, "#EXT-X-MEDIA-SEQUENCE:") {
        return Ok(MediaExclusiveTag::MediaSequence(u64_or_zero(rest)));
    }
    if let Some(rest) = strip_prefix(line, "#EXT-X-DISCONTINUITY-SEQUENCE:") {
        return Ok(MediaExclusiveTag::DiscontinuitySequence(u64_or_zero(rest)));
    }
    if starts_with(line, "#EXT-X-ENDLIST") {
        return Ok(MediaExclusiveTag::EndList);
    }
    if let Some(rest) = strip_prefix(line, "#EXT-X-PLAYLIST-TYPE:") {
        return match PlayListType::parse(rest) {
            Ok(t) => Ok(MediaExclusiveTag::PlaylistType(t)),
            Err(_) => Err(ParseError::InvalidLine(concat_str(line, " is not valid according to HLS spec."))),
        };
    }
    if starts_with(line, "#EXT-X-I-FRAMES-ONLY") {
        return Ok(MediaExclusiveTag::IFramesOnly);
    }
    if let Some(rest) = strip_prefix(line, "#EXT-X-PART-INF:") {
        let attrs = match parse_attribute_list(rest) {
            Ok(a) => a,
            Err(e) => {
                return Err(e);
            },
        };
        return match decimal_attr(attrs.get("PART-TARGET")) {
            Some(t) => Ok(MediaExclusiveTag::PartInf { part_target: t }),
            None => Err(ParseError::InvalidLine(concat_str(line, " is not valid according to HLS spec."))),
        };
    }
    if let Some(rest) = strip_prefix(line, "#EXT-X-SERVER-CONTROL:") {
        let attrs = match parse_attribute_list(rest) {
            Ok(a) => a,
            Err(e) => {
                return Err(e);
            },
        };
        return match ServerControl::new(attrs) {
            Ok(s) => Ok(MediaExclusiveTag::ServerControl(s)),
            Err(e) => Err(e),
        };
    }
    Err(ParseError::InvalidLine(owned(line)))
}

impl std::str::FromStr for MediaExclusiveTag {
    type Err = ParseError;

    fn from_str(s: &str) -> (r: Result<Self, Self::Err>)
        ensures
            match media_tag_spec(s.spec_bytes()) {
                Ok(t) => r matches Ok(x) && x@ == t,
                Err(e) => r matches Err(x) && x@ == e,
            },
    {
        parse_media_exclusive_tag(s)
    }
}

/// A tag of a media playlist.
#[derive(Debug)]
pub enum MediaTag {
    Shared(SharedTag),
    Exclusive(MediaExclusiveTag),
}

/// An item of a media playlist, in the order it was read.
#[derive(Debug, PartialEq)]
pub enum MediaPlaylistItem {
    MediaSegment(MediaSegment),
    SharedTag(SharedTag),
    ExclusiveTag(MediaExclusiveTag),
    Metadata(MediaMetadata),
}

/// An item with its text as bytes.
pub enum MediaItemV {
    MediaSegment(MediaSegmentV),
    SharedTag(SharedTagV),
    ExclusiveTag(MediaTagV),
    Metadata(MediaMetadataV),
}

impl View for MediaPlaylistItem {
    type V = MediaItemV;

    open spec fn view(&self) -> MediaItemV {
        match self {
            MediaPlaylistItem::MediaSegment(s) => MediaItemV::MediaSegment(s@),
            MediaPlaylistItem::SharedTag(t) => MediaItemV::SharedTag(t@),
            MediaPlaylistItem::ExclusiveTag(t) => MediaItemV::ExclusiveTag(t@),
            MediaPlaylistItem::Metadata(m) => MediaItemV::Metadata(m@),
        }
    }
}

/// A media playlist: its items in order, and its variables.
#[derive(Debug, PartialEq)]
pub struct MediaPlaylist {
    pub items: Vec<MediaPlaylistItem>,
    pub variables: Vec<PlayListVariableDefinition>,
}

/// The views of the items.
pub open spec fn items_view(v: Seq<MediaPlaylistItem>) -> Seq<MediaItemV> {
    v.map_values(|i: MediaPlaylistItem| i@)
}

/// The views of the variables.
pub open spec fn vars_view(v: Seq<PlayListVariableDefinition>) -> Seq<VarDefV> {
    v.map_values(|d: PlayListVariableDefinition| d@)
}

impl Default for MediaPlaylist {
    fn default() -> (r: Self)
        ensures
            r.items@.len() == 0,
            r.variables@.len() == 0,
    {
        MediaPlaylist { items: Vec::new(), variables: Vec::new() }
    }
}

/// The shared tags among the items, in order.
pub open spec fn shared_tags_of(items: Seq<MediaItemV>) -> Seq<SharedTagV>
    decreases items.len(),
{
    if items.len() == 0 {
        Seq::empty()
    } else {
        match items.last() {
            MediaItemV::SharedTag(t) => shared_tags_of(items.drop_last()).push(t),
            _ => shared_tags_of(items.drop_last()),
        }
    }
}

/// The media tags among the items, in order.
pub open spec fn exclusive_tags_of(items: Seq<MediaItemV>) -> Seq<MediaTagV>
    decreases items.len(),
{
    if items.len() == 0 {
        Seq::empty()
    } else {
        match items.last() {
            MediaItemV::ExclusiveTag(t) => exclusive_tags_of(items.drop_last()).push(t),
            _ => exclusive_tags_of(items.drop_last()),
        }
    }
}

/// The segments among the items, in order.
pub open spec fn segments_of(items: Seq<MediaItemV>) -> Seq<MediaSegmentV>
    decreases items.len(),
{
    if items.len() == 0 {
        Seq::empty()
    } else {
        match items.last() {
            MediaItemV::MediaSegment(t) => segments_of(items.drop_last()).push(t),
            _ => segments_of(items.drop_last()),
        }
    }
}

/// The metadata tags among the items, in order.
pub open spec fn metadata_of(items: Seq<MediaItemV>) -> Seq<MediaMetadataV>
    decreases items.len(),
{
    if items.len() == 0 {
        Seq::empty()
    } else {
        match items.last() {
            MediaItemV::Metadata(t) => metadata_of(items.drop_last()).push(t),
            _ => metadata_of(items.drop_last()),
        }
    }
}

/// Some item is a shared tag of the same kind as `t` (any version, any start).
pub open spec fn has_shared_kind(items: Seq<MediaItemV>, t: SharedTagV) -> bool {
    exists|i: int|
        0 <= i < items.len() && #[trigger] same_shared_kind(items[i], t)
}

/// The item is a shared tag of the same kind as `t`.
pub open spec fn same_shared_kind(item: MediaItemV, t: SharedTagV) -> bool {
    match item {
        MediaItemV::SharedTag(s) => match (s, t) {
            (SharedTagV::Version(_), SharedTagV::Version(_)) => true,
            (SharedTagV::IndependentSegments, SharedTagV::IndependentSegments) => true,
            (SharedTagV::Start { .. }, SharedTagV::Start { .. }) => true,
            (SharedTagV::Variable(_), SharedTagV::Variable(_)) => true,
            _ => false,
        },
        _ => false,
    }
}

/// The name reported for a repeated shared tag.
pub open spec fn duplicate_name(t: SharedTagV) -> Seq<u8> {
    match t {
        SharedTagV::Version(_) => "EXT-X-VERSION".spec_bytes(),
        SharedTagV::IndependentSegments => "EXT-X-INDEPENDENT-SEGMENTS".spec_bytes(),
        SharedTagV::Start { .. } => "EXT-X-START".spec_bytes(),
        SharedTagV::Variable(_) => "EXT-X-DEFINE".spec_bytes(),
    }
}

/// The items and variables of a media playlist after applying a shared tag, or the error.
/// A version, `EXT-X-INDEPENDENT-SEGMENTS` or start tag is refused when one of its kind is
/// already an item, and is otherwise added as an item; a variable definition is refused when
/// any variable is already defined (each existing definition is compared with its own name),
/// and is otherwise added to the variables.
pub open spec fn media_apply_spec(items: Seq<MediaItemV>, vars: Seq<VarDefV>, t: SharedTagV) -> Result<
    (Seq<MediaItemV>, Seq<VarDefV>),
    PErr,
> {
    match t {
        SharedTagV::Variable(v) => if vars.len() > 0 {
            Err(PErr::DuplicateTag(duplicate_name(t)))
        } else {
            Ok((items, vars.push(v)))
        },
        _ => if has_shared_kind(items, t) {
            Err(PErr::DuplicateTag(duplicate_name(t)))
        } else {
            Ok((items.push(MediaItemV::SharedTag(t)), vars))
        },
    }
}

impl MediaPlaylist {
    /// Whether some item is a shared tag of the same kind as `t`.
    fn has_shared(&self, t: &SharedTag) -> (r: bool)
        ensures
            r == has_shared_kind(items_view(self.items@), t@),
    {
        let ghost iv = items_view(self.items@);
        let mut i: usize = 0;
        while i < self.items.len()
            invariant
                i <= self.items@.len(),
                iv == items_view(self.items@),
                forall|k: int| 0 <= k < i ==> !same_shared_kind(#[trigger] iv[k], t@),
            decreases self.items.len() - i,
        {
            let same = match &self.items[i] {
                MediaPlaylistItem::SharedTag(s) => match (s, t) {
                    (SharedTag::Version(_), SharedTag::Version(_)) => true,
                    (SharedTag::IndependentSegments, SharedTag::IndependentSegments) => true,
                    (SharedTag::Start { .. }, SharedTag::Start { .. }) => true,
                    (SharedTag::Variable(_), SharedTag::Variable(_)) => true,
                    _ => false,
                },
                _ => false,
            };
            proof {
                assert(iv[i as int] == self.items@[i as int]@);
            }
            if same {
                assert(same_shared_kind(iv[i as int], t@));
                return true;
            }
            i = i + 1;
        }
        false
    }

    /// Applies a shared tag: a tag of a kind already present is refused (the playlist is then
    /// unchanged); see `media_apply_spec`.
    pub fn apply_shared_tag(&mut self, tag: SharedTag) -> (r: Result<(), ParseError>)
        ensures
            match media_apply_spec(
                items_view(old(self).items@),
                vars_view(old(self).variables@),
                tag@,
            ) {
                Ok((items, vars)) => r is Ok && items_view(final(self).items@) == items && vars_view(
                    final(self).variables@,
                ) == vars,
                Err(e) => (r matches Err(x) && x@ == e) && items_view(final(self).items@)
                    == items_view(old(self).items@) && vars_view(final(self).variables@) == vars_view(
                    old(self).variables@,
                ),
            },
    {
        let ghost t = tag@;
        match tag {
            SharedTag::Variable(v) => {
                if self.variables.len() > 0 {
                    return Err(ParseError::DuplicateTag(owned("EXT-X-DEFINE")));
                }
                let ghost before = self.variables@;
                self.variables.push(v);
                proof {
                    assert(vars_view(self.variables@) =~= vars_view(before).push(v@));
                }
                Ok(())
            },
            _ => {
                if self.has_shared(&tag) {
                    let name = match tag {
                        SharedTag::Version(_) => owned("EXT-X-VERSION"),
                        SharedTag::IndependentSegments => owned("EXT-X-INDEPENDENT-SEGMENTS"),
                        SharedTag::Start { .. } => owned("EXT-X-START"),
                        SharedTag::Variable(_) => owned("EXT-X-DEFINE"),
                    };
                    return Err(ParseError::DuplicateTag(name));
                }
                let ghost before = self.items@;
                self.items.push(MediaPlaylistItem::SharedTag(tag));
                proof {
                    assert(items_view(self.items@) =~= items_view(before).push(MediaItemV::SharedTag(t)));
                }
                Ok(())
            },
        }
    }

    /// Applies a media tag: every one is added as an item.
    pub fn apply_exclusive_tag(&mut self, tag: MediaExclusiveTag) -> (r: Result<(), ParseError>)
        ensures
            r is Ok,
            items_view(final(self).items@) == items_view(old(self).items@).push(
                MediaItemV::ExclusiveTag(tag@),
            ),
            final(self).variables@ == old(self).variables@,
    {
        let ghost before = self.items@;
        let ghost t = tag@;
        self.items.push(MediaPlaylistItem::ExclusiveTag(tag));
        proof {
            assert(items_view(self.items@) =~= items_view(before).push(MediaItemV::ExclusiveTag(t)));
        }
        Ok(())
    }

    /// Adds a segment as the last item.
    pub fn add_segment(&mut self, segment: MediaSegment)
        ensures
            items_view(final(self).items@) == items_view(old(self).items@).push(
                MediaItemV::MediaSegment(segment@),
            ),
            final(self).variables@ == old(self).variables@,
    {
        let ghost before = self.items@;
        let ghost s = segment@;
        self.items.push(MediaPlaylistItem::MediaSegment(segment));
        proof {
            assert(items_view(self.items@) =~= items_view(before).push(MediaItemV::MediaSegment(s)));
        }
    }

    /// The shared tags among the items, in order.
    pub fn get_shared_tags(&self) -> (r: Vec<&SharedTag>)
        ensures
            r@.map_values(|t: &SharedTag| t@) == shared_tags_of(items_view(self.items@)),
    {
        let ghost iv = items_view(self.items@);
        let mut out: Vec<&SharedTag> = Vec::new();
        let mut i: usize = 0;
        while i < self.items.len()
            invariant
                i <= self.items@.len(),
                iv == items_view(self.items@),
                out@.map_values(|t: &SharedTag| t@) == shared_tags_of(iv.take(i as int)),
            decreases self.items.len() - i,
        {
            let ghost o = out@;
            proof {
                assert(iv.take(i + 1).drop_last() =~= iv.take(i as int));
                assert(iv.take(i + 1).last() == self.items@[i as int]@);
            }
            if let MediaPlaylistItem::SharedTag(t) = &self.items[i] {
                out.push(t);
                proof {
                    assert(out@.map_values(|t: &SharedTag| t@) =~= o.map_values(|t: &SharedTag| t@).push(t@));
                }
            }
            i = i + 1;
        }
        proof {
            assert(iv.take(iv.len() as int) =~= iv);
        }
        out
    }

    /// The media tags among the items, in order.
    pub fn get_exclusive_tags(&self) -> (r: Vec<&MediaExclusiveTag>)
        ensures
            r@.map_values(|t: &MediaExclusiveTag| t@) == exclusive_tags_of(items_view(self.items@)),
    {
        let ghost iv = items_view(self.items@);
        let mut out: Vec<&MediaExclusiveTag> = Vec::new();
        let mut i: usize = 0;
        while i < self.items.len()
            invariant
                i <= self.items@.len(),
                iv == items_view(self.items@),
                out@.map_values(|t: &MediaExclusiveTag| t@) == exclusive_tags_of(iv.take(i as int)),
            decreases self.items.len() - i,
        {
            let ghost o = out@;
            proof {
                assert(iv.take(i + 1).drop_last() =~= iv.take(i as int));
                assert(iv.take(i + 1).last() == self.items@[i as int]@);
            }
            if let MediaPlaylistItem::ExclusiveTag(t) = &self.items[i] {
                out.push(t);
                proof {
                    assert(out@.map_values(|t: &MediaExclusiveTag| t@) =~= o.map_values(
                        |t: &MediaExclusiveTag| t@,
                    ).push(t@));
                }
            }
            i = i + 1;
        }
        proof {
            assert(iv.take(iv.len() as int) =~= iv);
        }
        out
    }

    /// The segments among the items, in order.
    pub fn get_segments(&self) -> (r: Vec<&MediaSegment>)
        ensures
            r@.map_values(|t: &MediaSegment| t@) == segments_of(items_view(self.items@)),
    {
        let ghost iv = items_view(self.items@);
        let mut out: Vec<&MediaSegment> = Vec::new();
        let mut i: usize = 0;
        while i < self.items.len()
            invariant
                i <= self.items@.len(),
                iv == items_view(self.items@),
                out@.map_values(|t: &MediaSegment| t@) == segments_of(iv.take(i as int)),
            decreases self.items.len() - i,
        {
            let ghost o = out@;
            proof {
                assert(iv.take(i + 1).drop_last() =~= iv.take(i as int));
                assert(iv.take(i + 1).last() == self.items@[i as int]@);
            }
            if let MediaPlaylistItem::MediaSegment(t) = &self.items[i] {
                out.push(t);
                proof {
                    assert(out@.map_values(|t: &MediaSegment| t@) =~= o.map_values(|t: &MediaSegment| t@).push(
                        t@,
                    ));
                }
            }
            i = i + 1;
        }
        proof {
            assert(iv.take(iv.len() as int) =~= iv);
        }
        out
    }

    /// The metadata tags among the items, in order.
    pub fn get_metadata(&self) -> (r: Vec<&MediaMetadata>)
        ensures
            r@.map_values(|t: &MediaMetadata| t@) == metadata_of(items_view(self.items@)),
    {
        let ghost iv = items_view(self.items@);
        let mut out: Vec<&MediaMetadata> = Vec::new();
        let mut i: usize = 0;
        while i < self.items.len()
            invariant
                i <= self.items@.len(),
                iv == items_view(self.items@),
                out@.map_values(|t: &MediaMetadata| t@) == metadata_of(iv.take(i as int)),
            decreases self.items.len() - i,
        {
            let ghost o = out@;
            proof {
                assert(iv.take(i + 1).drop_last() =~= iv.take(i as int));
                assert(iv.take(i + 1).last() == self.items@[i as int]@);
            }
            if let MediaPlaylistItem::Metadata(t) = &self.items[i] {
                out.push(t);
                proof {
                    assert(out@.map_values(|t: &MediaMetadata| t@) =~= o.map_values(|t: &MediaMetadata| t@).push(
                        t@,
                    ));
                }
            }
            i = i + 1;
        }
        proof {
            assert(iv.take(iv.len() as int) =~= iv);
        }
        out
    }

    /// The variables, in order.
    pub fn get_variables(&self) -> (r: Vec<&PlayListVariableDefinition>)
        ensures
            r@.map_values(|t: &PlayListVariableDefinition| t@) == vars_view(self.variables@),
    {
        let mut out: Vec<&PlayListVariableDefinition> = Vec::new();
        let mut i: usize = 0;
        while i < self.variables.len()
            invariant
                i <= self.variables@.len(),
                out@.map_values(|t: &PlayListVariableDefinition| t@) == vars_view(self.variables@).take(
                    i as int,
                ),
            decreases self.variables.len() - i,
        {
            let ghost o = out@;
            let v = &self.variables[i];
            out.push(v);
            proof {
                assert(out@.map_values(|t: &PlayListVariableDefinition| t@) =~= o.map_values(
                    |t: &PlayListVariableDefinition| t@,
                ).push(v@));
                assert(vars_view(self.variables@).take(i + 1) =~= vars_view(self.variables@).take(
                    i as int,
                ).push(self.variables@[i as int]@));
                assert(out@.map_values(|t: &PlayListVariableDefinition| t@) =~= vars_view(self.variables@).take(
                    i + 1,
                ));
            }
            i = i + 1;
        }
        proof {
            assert(vars_view(self.variables@).take(self.variables@.len() as int) =~= vars_view(
                self.variables@,
            ));
        }
        out
    }
}

/* Validation */

/// The duration of the first `EXT-X-TARGETDURATION` item.
pub open spec fn target_duration_of(items: Seq<MediaItemV>) -> Option<u64>
    decreases items.len(),
{
    if items.len() == 0 {
        None
    } else {
        match items[0] {
            MediaItemV::ExclusiveTag(MediaTagV::TargetDuration(d)) => Some(d),
            _ => target_duration_of(items.drop_first()),
        }
    }
}

/// Some item is an `EXT-X-PART-INF` tag.
pub open spec fn has_part_inf(items: Seq<MediaItemV>) -> bool {
    exists|i: int| 0 <= i < items.len() && (#[trigger] items[i]) matches MediaItemV::ExclusiveTag(
        MediaTagV::PartInf { .. },
    )
}

/// The server control rules, for the target duration `t`: `CAN-SKIP-UNTIL` at least six
/// target durations, `HOLD-BACK` at least three, `PART-HOLD-BACK` at least two;
/// `CAN-SKIP-DATERANGES` only with `CAN-SKIP-UNTIL`; `PART-HOLD-BACK` when the playlist has
/// `EXT-X-PART-INF`.
pub open spec fn server_control_check(sv: ServerControlV, t: u64, part_inf: bool) -> Result<(), VErr> {
    if sv.can_skip_until matches Some(c) && dec_lt_int(c, 6 * t as nat) {
        Err(VErr::InvalidServerControl("CAN-SKIP-UNTIL must be at least 6x the target duration".spec_bytes()))
    } else if sv.hold_back matches Some(h) && dec_lt_int(h, 3 * t as nat) {
        Err(VErr::InvalidServerControl("HOLD-BACK must be at least 3x the target duration".spec_bytes()))
    } else if sv.part_hold_back matches Some(h) && dec_lt_int(h, 2 * t as nat) {
        Err(VErr::InvalidServerControl("PART-HOLD-BACK must be at least 2x the target duration".spec_bytes()))
    } else if sv.can_skip_until is None && sv.can_skip_dateranges is Some {
        Err(
            VErr::InvalidServerControl(
                "CAN-SKIP-DATERANGES requires CAN-SKIP-UNTIL to be present".spec_bytes(),
            ),
        )
    } else if part_inf && sv.part_hold_back is None {
        Err(
            VErr::InvalidServerControl(
                "PART-HOLD-BACK is required if EXT-X-PART-INF is present".spec_bytes(),
            ),
        )
    } else {
        Ok(())
    }
}

/// The parent defines the variable `name` with `NAME`/`VALUE`.
pub open spec fn parent_defines(parent: Seq<VarDefV>, name: Seq<u8>) -> bool {
    exists|j: int| 0 <= j < parent.len() && defines_name(#[trigger] parent[j], name)
}

/// The definition is a `NAME`/`VALUE` one for `name`.
pub open spec fn defines_name(v: VarDefV, name: Seq<u8>) -> bool {
    match v {
        VarDefV::NameValue { name: n, .. } => n == name,
        _ => false,
    }
}

/// The rules one item must follow. An `IMPORT` needs a parent multivariant playlist that
/// defines the name. A `QUERYPARAM` fails when the playlist URI does not decode, and is
/// otherwise refused as an unknown variable named by the decoded URI (a decoded URI that
/// passes the name check holds no `?`, `&` or `=`, so no parameter value is found). A
/// segment with a partial segment needs `EXT-X-PART-INF`. Server control follows
/// `server_control_check`.
pub open spec fn item_check(item: MediaItemV, items: Seq<MediaItemV>, t: u64, uri: Seq<u8>, parent: Option<Seq<VarDefV>>) -> Result<(), VErr> {
    match item {
        MediaItemV::SharedTag(SharedTagV::Variable(VarDefV::Import { name })) => match parent {
            None => Err(VErr::ImportMediaWithoutMultivariant),
            Some(pv) => if parent_defines(pv, name) {
                Ok(())
            } else {
                Err(VErr::UnknownImportedVariable(name))
            },
        },
        MediaItemV::SharedTag(SharedTagV::Variable(VarDefV::QueryParam { .. })) => match decode_spec(uri) {
            Err(_) => Err(VErr::InvalidUri),
            Ok(d) => Err(VErr::UnknownImportedVariable(d)),
        },
        MediaItemV::MediaSegment(seg) => if seg.part is Some && !has_part_inf(items) {
            Err(VErr::MissingPartInf)
        } else {
            Ok(())
        },
        MediaItemV::ExclusiveTag(MediaTagV::ServerControl(sv)) => server_control_check(sv, t, has_part_inf(items)),
        _ => Ok(()),
    }
}

/// The first item, from `i` on, that breaks its rules decides the error.
pub open spec fn items_check(items: Seq<MediaItemV>, i: nat, t: u64, uri: Seq<u8>, parent: Option<Seq<VarDefV>>) -> Result<(), VErr>
    decreases items.len() - i,
{
    if i >= items.len() {
        Ok(())
    } else {
        match item_check(items[i as int], items, t, uri, parent) {
            Err(e) => Err(e),
            Ok(()) => items_check(items, i + 1, t, uri, parent),
        }
    }
}

/// The rules of a media playlist: an `EXT-X-TARGETDURATION` is required, then each item is
/// checked in order.
pub open spec fn media_validate_spec(items: Seq<MediaItemV>, uri: Seq<u8>, parent: Option<Seq<VarDefV>>) -> Result<(), VErr> {
    match target_duration_of(items) {
        None => Err(VErr::MissingRequiredTag("#EXT-X-TARGETDURATION".spec_bytes())),
        Some(t) => items_check(items, 0, t, uri, parent),
    }
}

/// Where a media playlist was read from, and the multivariant playlist that names it.
pub struct PlaylistContext<'a> {
    pub uri: &'a str,
    pub parent_multivariant: Option<&'a crate::multivariant::playlist::MultivariantPlaylist>,
}

/// The variables of the parent, if there is one.
pub open spec fn parent_vars(ctx: &PlaylistContext) -> Option<Seq<VarDefV>> {
    match ctx.parent_multivariant {
        Some(p) => Some(vars_view(p.variables@)),
        None => None,
    }
}

fn server_control_ok(sv: &ServerControl, t: u64, part_inf: bool) -> (r: Result<(), ValidationError>)
    ensures
        match server_control_check(sv@, t, part_inf) {
            Ok(()) => r is Ok,
            Err(e) => r matches Err(x) && x@ == e,
        },
{
    if let Some(c) = &sv.can_skip_until {
        if c.lt_int(6 * t as u128) {
            return Err(ValidationError::InvalidServerControl(owned("CAN-SKIP-UNTIL must be at least 6x the target duration")));
        }
    }
    if let Some(h) = &sv.hold_back {
        if h.lt_int(3 * t as u128) {
            return Err(ValidationError::InvalidServerControl(owned("HOLD-BACK must be at least 3x the target duration")));
        }
    }
    if let Some(h) = &sv.part_hold_back {
        if h.lt_int(2 * t as u128) {
            return Err(ValidationError::InvalidServerControl(owned("PART-HOLD-BACK must be at least 2x the target duration")));
        }
    }
    if sv.can_skip_until.is_none() && sv.can_skip_dateranges.is_some() {
        return Err(ValidationError::InvalidServerControl(owned("CAN-SKIP-DATERANGES requires CAN-SKIP-UNTIL to be present")));
    }
    if part_inf && sv.part_hold_back.is_none() {
        return Err(ValidationError::InvalidServerControl(owned("PART-HOLD-BACK is required if EXT-X-PART-INF is present")));
    }
    Ok(())
}

impl MediaPlaylist {
    /// The duration of the first `EXT-X-TARGETDURATION` item.
    pub(crate) fn target_duration(&self) -> (r: Option<u64>)
        ensures
            r == target_duration_of(items_view(self.items@)),
    {
        let ghost iv = items_view(self.items@);
        let mut i: usize = 0;
        proof {
            assert(iv.skip(0) =~= iv);
        }
        while i < self.items.len()
            invariant
                i <= self.items@.len(),
                iv == items_view(self.items@),
                target_duration_of(iv) == target_duration_of(iv.skip(i as int)),
            decreases self.items.len() - i,
        {
            proof {
                assert(iv.skip(i as int)[0] == self.items@[i as int]@);
                assert(iv.skip(i as int).drop_first() =~= iv.skip(i + 1));
            }
            if let MediaPlaylistItem::ExclusiveTag(MediaExclusiveTag::TargetDuration(d)) = &self.items[i] {
                return Some(*d);
            }
            i = i + 1;
        }
        proof {
            assert(iv.skip(i as int).len() == 0);
        }
        None
    }

    /// Whether some item is an `EXT-X-PART-INF` tag.
    fn part_inf_present(&self) -> (r: bool)
        ensures
            r == has_part_inf(items_view(self.items@)),
    {
        let ghost iv = items_view(self.items@);
        let mut i: usize = 0;
        while i < self.items.len()
            invariant
                i <= self.items@.len(),
                iv == items_view(self.items@),
                forall|k: int| 0 <= k < i ==> !((#[trigger] iv[k]) matches MediaItemV::ExclusiveTag(
                    MediaTagV::PartInf { .. },
                )),
            decreases self.items.len() - i,
        {
            proof {
                assert(iv[i as int] == self.items@[i as int]@);
            }
            if let MediaPlaylistItem::ExclusiveTag(MediaExclusiveTag::PartInf { .. }) = &self.items[i] {
                return true;
            }
            i = i + 1;
        }
        false
    }

    /// Checks the rules of a media playlist; see `media_validate_spec`. The playlist is left
    /// unchanged.
    #[verifier::spinoff_prover]
    pub fn validate(&mut self, ctx: &PlaylistContext) -> (r: Result<(), ValidationError>)
        ensures
            match media_validate_spec(items_view(old(self).items@), ctx.uri.spec_bytes(), parent_vars(ctx)) {
                Ok(()) => r is Ok,
                Err(e) => r matches Err(x) && x@ == e,
            },
            final(self).items@ == old(self).items@,
            final(self).variables@ == old(self).variables@,
    {
        let t = match self.target_duration() {
            Some(t) => t,
            None => {
                return Err(ValidationError::MissingRequiredTag(owned("#EXT-X-TARGETDURATION")));
            },
        };
        let part_inf = self.part_inf_present();
        let ghost iv = items_view(self.items@);
        let ghost uri = ctx.uri.spec_bytes();
        let ghost pv = parent_vars(ctx);
        let mut i: usize = 0;
        while i < self.items.len()
            invariant
                i <= self.items@.len(),
                iv == items_view(self.items@),
                self.items@ == old(self).items@,
                target_duration_of(iv) == Some(t),
                part_inf == has_part_inf(iv),
                uri == ctx.uri.spec_bytes(),
                pv == parent_vars(ctx),
                items_check(iv, 0, t, uri, pv) == items_check(iv, i as nat, t, uri, pv),
            decreases self.items.len() - i,
        {
            proof {
                assert(iv[i as int] == self.items@[i as int]@);
            }
            match &self.items[i] {
                MediaPlaylistItem::SharedTag(SharedTag::Variable(PlayListVariableDefinition::Import { name })) => {
                    match ctx.parent_multivariant {
                        None => {
                            return Err(ValidationError::ImportMediaWithoutMultivariant);
                        },
                        Some(master) => {
                            let mut found = false;
                            let mut j: usize = 0;
                            let ghost mv = vars_view(master.variables@);
                            while j < master.variables.len()
                                invariant
                                    j <= master.variables@.len(),
                                    mv == vars_view(master.variables@),
                                    found == exists|k: int| 0 <= k < j && defines_name(#[trigger] mv[k], utf8(name@)),
                                decreases master.variables.len() - j,
                            {
                                proof {
                                    assert(mv[j as int] == master.variables@[j as int]@);
                                }
                                if let PlayListVariableDefinition::NameValue { name: n, .. } = &master.variables[j] {
                                    if str_eq(n.as_str(), name.as_str()) {
                                        found = true;
                                    }
                                }
                                j = j + 1;
                            }
                            if !found {
                                return Err(ValidationError::UnknownImportedVariable(owned(name.as_str())));
                            }
                        },
                    }
                },
                MediaPlaylistItem::SharedTag(SharedTag::Variable(PlayListVariableDefinition::QueryParam { .. })) => {
                    return match decode(ctx.uri) {
                        Err(_) => Err(ValidationError::InvalidUri),
                        Ok(d) => Err(ValidationError::UnknownImportedVariable(d)),
                    };
                },
                MediaPlaylistItem::MediaSegment(seg) => {
                    if seg.part.is_some() && !part_inf {
                        return Err(ValidationError::MissingPartInf);
                    }
                },
                MediaPlaylistItem::ExclusiveTag(MediaExclusiveTag::ServerControl(sv)) => {
                    match server_control_ok(sv, t, part_inf) {
                        Ok(()) => {},
                        Err(e) => {
                            return Err(e);
                        },
                    }
                },
                _ => {},
            }
            i = i + 1;
        }
        Ok(())
    }
}


/// Reads the lines of a media playlist. Only the media sequence and discontinuity sequence
/// tags are looked at (they would be refused after the first segment, which this reader
/// never marks as seen), and nothing is kept: the result is always an empty playlist.
pub fn parse_media_playlist(lines: &[String]) -> (r: Result<MediaPlaylist, ParseError>)
    ensures
        r matches Ok(p) && p.items@.len() == 0 && p.variables@.len() == 0,
{
    let playlist = MediaPlaylist { items: Vec::new(), variables: Vec::new() };
    let seen_first_segment = false;
    let mut i: usize = 0;
    while i < lines.len()
        invariant
            i <= lines@.len(),
            !seen_first_segment,
        decreases lines.len() - i,
    {
        if let Ok(tag) = parse_media_exclusive_tag(lines[i].as_str()) {
            if (matches!(tag, MediaExclusiveTag::MediaSequence(_)) || matches!(tag, MediaExclusiveTag::DiscontinuitySequence(_)))
                && seen_first_segment {
                return Err(ParseError::MediaSequenceAfterSegment);
            }
        }
        i = i + 1;
    }
    Ok(playlist)
}

} // verus!
