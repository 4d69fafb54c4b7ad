//! The protocol version a playlist must declare for the features it uses.
use vstd::prelude::*;
use vstd::string::*;
use crate::error::{VErr, ValidationError};
use crate::media::{MediaExclusiveTag, MediaItemV, MediaPlaylist, MediaTagV, exclusive_tags_of, items_view, metadata_of, segments_of, shared_tags_of, target_duration_of};
use crate::multivariant::playlist::{MultivariantExclusiveTag, MultivariantPlaylist, MultivariantTagV, shared_view};
use crate::multivariant::rendition::InStreamIdV;
use crate::parser::{Playlist, PlaylistV, mtags_view};
use crate::playlist::{MediaMetadataV, PlayListVariableDefinition, SharedTag, SharedTagV, SkipV, VarDefV};
use crate::segment::{DurationValue, MediaSegment, MediaSegmentV, Method, duration_round};
use crate::text::owned;

verus! {

/// The first `EXT-X-VERSION` among the shared tags.
pub open spec fn first_version(tags: Seq<SharedTagV>) -> Option<u8>
    decreases tags.len(),
{
    if tags.len() == 0 {
        None
    } else {
        match tags[0] {
            SharedTagV::Version(v) => Some(v),
            _ => first_version(tags.drop_first()),
        }
    }
}

/// The shared tags of a playlist, in order.
pub open spec fn playlist_shared_tags(p: PlaylistV) -> Seq<SharedTagV> {
    match p {
        PlaylistV::Media(items, _) => shared_tags_of(items),
        PlaylistV::Multivariant(tags, _, _) => tags,
    }
}

/// The error for a declared version `v` below what a feature needs.
pub open spec fn version_error(v: u8, msg: &str) -> VErr {
    VErr::InvalidSharedTag(SharedTagV::Version(v), msg.spec_bytes())
}

/// Some shared tag defines a variable with `QUERYPARAM`.
pub open spec fn has_query_param(tags: Seq<SharedTagV>) -> bool {
    exists|i: int| 0 <= i < tags.len() && (#[trigger] tags[i]) matches SharedTagV::Variable(VarDefV::QueryParam { .. })
}

/// Some shared tag defines a variable.
pub open spec fn has_variable(tags: Seq<SharedTagV>) -> bool {
    exists|i: int| 0 <= i < tags.len() && (#[trigger] tags[i]) matches SharedTagV::Variable(_)
}

/// The rules for one segment, for the target duration `t` and the declared version `v`: the
/// duration, rounded, may not exceed `t`; an `IV` needs version 2, `SAMPLE-AES` and key
/// formats version 5, a fractional duration version 3, a byte range version 4, a map
/// version 5.
pub open spec fn segment_version_check(s: MediaSegmentV, t: u64, v: u8) -> Result<(), VErr> {
    if duration_round(s.duration) > t {
        Err(VErr::InvalidTargetDuration)
    } else if s.key matches Some(k) && k.iv is Some && v < 2 {
        Err(version_error(v, "A Media Playlist MUST indicate an EXT-X-VERSION of 2 or higher if it contains the IV attribute of the EXT-X-KEY tag."))
    } else if s.key matches Some(k) && k.method == Method::SampleAes && v < 5 {
        Err(version_error(v, "A Media Playlist MUST indicate an EXT-X-VERSION of 5 or higher if it contains the EXT-X-KEY tag with the METHOD attribute set to SAMPLE-AES."))
    } else if s.key matches Some(k) && (k.key_format is Some || k.key_format_versions.len() > 0) && v < 5 {
        Err(version_error(v, "A Media Playlist MUST indicate an EXT-X-VERSION of 5 or higher if it contains the KEYFORMAT and KEYFORMATVERSIONS attributes of the EXT-X-KEY tag."))
    } else if s.duration is Float && v < 3 {
        Err(version_error(v, "A Media Playlist MUST indicate an EXT-X-VERSION of 3 or higher if it contains Floating-point EXTINF duration values."))
    } else if s.byte_range is Some && v < 4 {
        Err(version_error(v, "A Media Playlist MUST indicate an EXT-X-VERSION of 4 or higher if it contains The EXT-X-BYTERANGE tag."))
    } else if s.map is Some && v < 5 {
        Err(version_error(v, "A Media Playlist MUST indicate an EXT-X-VERSION of 5 or higher if it contains the EXT-X-MAP tag."))
    } else {
        Ok(())
    }
}

/// The first segment, from `i` on, that breaks its rules decides the error.
pub open spec fn segments_version_check(segs: Seq<MediaSegmentV>, i: nat, t: u64, v: u8) -> Result<(), VErr>
    decreases segs.len() - i,
{
    if i >= segs.len() {
        Ok(())
    } else {
        match segment_version_check(segs[i as int], t, v) {
            Err(e) => Err(e),
            Ok(()) => segments_version_check(segs, i + 1, t, v),
        }
    }
}

/// Some media tag is `EXT-X-I-FRAMES-ONLY`.
pub open spec fn has_iframes_only(tags: Seq<MediaTagV>) -> bool {
    exists|i: int| 0 <= i < tags.len() && (#[trigger] tags[i]) == MediaTagV::IFramesOnly
}

/// Some segment has a map.
pub open spec fn has_map(segs: Seq<MediaSegmentV>) -> bool {
    exists|i: int| 0 <= i < segs.len() && (#[trigger] segs[i]).map is Some
}

/// The first `EXT-X-SKIP` among the metadata.
pub open spec fn first_skip(md: Seq<MediaMetadataV>) -> Option<SkipV>
    decreases md.len(),
{
    if md.len() == 0 {
        None
    } else {
        match md[0] {
            MediaMetadataV::Skip(s) => Some(s),
            _ => first_skip(md.drop_first()),
        }
    }
}

/// The version rules of a media playlist that declares version `v`: a target duration is
/// required; then each segment follows `segment_version_check`; `EXT-X-I-FRAMES-ONLY` needs
/// version 4; a map without it version 6; a skip version 9, and version 10 when it lists
/// removed date ranges.
pub open spec fn media_version_check(items: Seq<MediaItemV>, v: u8) -> Result<(), VErr> {
    match target_duration_of(items) {
        None => Err(VErr::MissingRequiredTag("#EXT-X-TARGETDURATION".spec_bytes())),
        Some(t) => match segments_version_check(segments_of(items), 0, t, v) {
            Err(e) => Err(e),
            Ok(()) => {
                let iframes = has_iframes_only(exclusive_tags_of(items));
                if iframes && v < 4 {
                    Err(version_error(v, "A Media Playlist MUST indicate an EXT-X-VERSION of 4 or higher if it contains the EXT-X-I-FRAMES-ONLY tag."))
                } else if !iframes && has_map(segments_of(items)) && v < 6 {
                    Err(version_error(v, "A Media Playlist MUST indicate an EXT-X-VERSION of 6 or higher if it contains the EXT-X-MAP tag in a Media Playlist that does not contain EXT-X-I-FRAMES-ONLY."))
                } else {
                    match first_skip(metadata_of(items)) {
                        None => Ok(()),
                        Some(sk) => if v < 9 {
                            Err(version_error(v, "A Playlist MUST indicate an EXT-X-VERSION of 9 or higher if it contains the EXT-X-SKIP tag."))
                        } else if sk.recently_removed_dateranges.len() > 0 && v < 10 {
                            Err(version_error(v, "A Playlist MUST indicate an EXT-X-VERSION of 10 or higher if it contains an EXT-X-SKIP tag that replaces EXT-X-DATERANGE tags in a Playlist Delta Update."))
                        } else {
                            Ok(())
                        },
                    }
                }
            },
        },
    }
}

/// The version rules for one multivariant tag: an `INSTREAM-ID` of a service needs version
/// 7, one that is no closed-caption channel version 13; `REQ-VIDEO-LAYOUT` on an I-frame
/// stream needs version 12.
pub open spec fn mtag_version_check(t: MultivariantTagV, v: u8) -> Result<(), VErr> {
    match t {
        MultivariantTagV::Media(m) => if (m.instream_id matches Some(InStreamIdV::Service(_))) && v < 7 {
            Err(version_error(v, "A Multivariant Playlist MUST indicate an EXT-X-VERSION of 7 or higher if it contains a 'SERVICE' values for the INSTREAM-ID attribute of the EXT-X-MEDIA tag."))
        } else if (m.instream_id matches Some(id) && !(id is CC)) && v < 13 {
            Err(version_error(v, "A Multivariant Playlist MUST indicate an EXT-X-VERSION of 13 or higher if it contains an EXT-X-MEDIA tag with INSTREAM-ID attribute for non CLOSED-CAPTIONS TYPE."))
        } else {
            Ok(())
        },
        MultivariantTagV::IFrameStreamInf(i) => if i.req_video_layout is Some && v < 12 {
            Err(version_error(v, "A Multivariant Playlist MUST indicate an EXT-X-VERSION of 12 or higher if it contains a 'REQUIRED-VIDEO-LAYOUT' attribute of the EXT-X-IFRAME-STREAM-INF tag."))
        } else {
            Ok(())
        },
        _ => Ok(()),
    }
}

/// The first multivariant tag, from `i` on, that breaks its rules decides the error.
pub open spec fn mtags_version_check(tags: Seq<MultivariantTagV>, i: nat, v: u8) -> Result<(), VErr>
    decreases tags.len() - i,
{
    if i >= tags.len() {
        Ok(())
    } else {
        match mtag_version_check(tags[i as int], v) {
            Err(e) => Err(e),
            Ok(()) => mtags_version_check(tags, i + 1, v),
        }
    }
}

/// The version rules of a playlist: an `EXT-X-VERSION` is required; a `QUERYPARAM`
/// definition needs version 11; then the media or multivariant rules apply (in a
/// multivariant playlist a variable definition needs version 8).
pub open spec fn playlist_validate_spec(p: PlaylistV) -> Result<(), VErr> {
    let tags = playlist_shared_tags(p);
    match first_version(tags) {
        None => Err(VErr::MissingRequiredTag("#EXT-X-VERSION".spec_bytes())),
        Some(v) => if has_query_param(tags) && v < 11 {
            Err(version_error(v, "A Playlist MUST indicate an EXT-X-VERSION of 11 or higher if it contains an EXT-X-DEFINE tag with QUERYPARAM attribute"))
        } else {
            match p {
                PlaylistV::Media(items, _) => media_version_check(items, v),
                PlaylistV::Multivariant(_, m, _) => match mtags_version_check(m, 0, v) {
                    Err(e) => Err(e),
                    Ok(()) => if has_variable(tags) && v < 8 {
                        Err(version_error(v, "A Multivariant Playlist MUST indicate an EXT-X-VERSION of 8 or higher if it contains Variable substitution."))
                    } else {
                        Ok(())
                    },
                },
            }
        },
    }
}

fn version_err(v: u8, msg: &str) -> (r: ValidationError)
    ensures
        r@ == version_error(v, msg),
{
    ValidationError::InvalidSharedTag(SharedTag::Version(v), owned(msg))
}

/// Checks one segment; see `segment_version_check`.
fn check_segment(seg: &MediaSegment, t: u64, v: u8) -> (r: Result<(), ValidationError>)
    ensures
        match segment_version_check(seg@, t, v) {
            Ok(()) => r is Ok,
            Err(e) => r matches Err(x) && x@ == e,
        },
{
    if seg.get_duration().round_u64() > t {
        return Err(ValidationError::InvalidTargetDuration);
    }
    if let Some(key) = seg.get_key() {
        if key.get_iv().is_some() && v < 2 {
            return Err(version_err(v, "A Media Playlist MUST indicate an EXT-X-VERSION of 2 or higher if it contains the IV attribute of the EXT-X-KEY tag."));
        }
        if matches!(key.get_method(), Method::SampleAes) && v < 5 {
            return Err(version_err(v, "A Media Playlist MUST indicate an EXT-X-VERSION of 5 or higher if it contains the EXT-X-KEY tag with the METHOD attribute set to SAMPLE-AES."));
        }
        if (key.get_key_format().is_some() || key.get_key_format_versions().len() > 0) && v < 5 {
            return Err(version_err(v, "A Media Playlist MUST indicate an EXT-X-VERSION of 5 or higher if it contains the KEYFORMAT and KEYFORMATVERSIONS attributes of the EXT-X-KEY tag."));
        }
    }
    if matches!(seg.get_duration(), DurationValue::Float(_)) && v < 3 {
        return Err(version_err(v, "A Media Playlist MUST indicate an EXT-X-VERSION of 3 or higher if it contains Floating-point EXTINF duration values."));
    }
    if seg.get_byte_range().is_some() && v < 4 {
        return Err(version_err(v, "A Media Playlist MUST indicate an EXT-X-VERSION of 4 or higher if it contains The EXT-X-BYTERANGE tag."));
    }
    if seg.get_map().is_some() && v < 5 {
        return Err(version_err(v, "A Media Playlist MUST indicate an EXT-X-VERSION of 5 or higher if it contains the EXT-X-MAP tag."));
    }
    Ok(())
}

/// Checks a media playlist; see `media_version_check`.
fn check_media(m: &MediaPlaylist, v: u8) -> (r: Result<(), ValidationError>)
    ensures
        match media_version_check(items_view(m.items@), v) {
            Ok(()) => r is Ok,
            Err(e) => r matches Err(x) && x@ == e,
        },
{
    let ghost iv = items_view(m.items@);
    let t = match m.target_duration() {
        Some(t) => t,
        None => {
            return Err(ValidationError::MissingRequiredTag(owned("#EXT-X-TARGETDURATION")));
        },
    };
    let segs = m.get_segments();
    let ghost sv = segs@.map_values(|s: &MediaSegment| s@);
    let mut i: usize = 0;
    while i < segs.len()
        invariant
            i <= segs@.len(),
            sv == segs@.map_values(|s: &MediaSegment| s@),
            sv == segments_of(iv),
            iv == items_view(m.items@),
            target_duration_of(iv) == Some(t),
            segments_version_check(sv, 0, t, v) == segments_version_check(sv, i as nat, t, v),
        decreases segs.len() - i,
    {
        proof {
            assert(sv[i as int] == segs@[i as int]@);
        }
        match check_segment(segs[i], t, v) {
            Ok(()) => {},
            Err(e) => {
                return Err(e);
            },
        }
        i = i + 1;
    }
    let tags = m.get_exclusive_tags();
    let ghost tv = tags@.map_values(|x: &MediaExclusiveTag| x@);
    let mut iframes = false;
    let mut j: usize = 0;
    while j < tags.len()
        invariant
            j <= tags@.len(),
            tv == tags@.map_values(|x: &MediaExclusiveTag| x@),
            iframes == exists|k: int| 0 <= k < j && (#[trigger] tv[k]) == MediaTagV::IFramesOnly,
        decreases tags.len() - j,
    {
        proof {
            assert(tv[j as int] == tags@[j as int]@);
        }
        if matches!(tags[j], MediaExclusiveTag::IFramesOnly) {
            iframes = true;
        }
        j = j + 1;
    }
    if iframes && v < 4 {
        return Err(version_err(v, "A Media Playlist MUST indicate an EXT-X-VERSION of 4 or higher if it contains the EXT-X-I-FRAMES-ONLY tag."));
    }
    if !iframes {
        let mut map = false;
        let mut k: usize = 0;
        while k < segs.len()
            invariant
                k <= segs@.len(),
                sv == segs@.map_values(|s: &MediaSegment| s@),
                map == exists|q: int| 0 <= q < k && (#[trigger] sv[q]).map is Some,
            decreases segs.len() - k,
        {
            proof {
                assert(sv[k as int] == segs@[k as int]@);
            }
            if segs[k].get_map().is_some() {
                map = true;
            }
            k = k + 1;
        }
        if map && v < 6 {
            return Err(version_err(v, "A Media Playlist MUST indicate an EXT-X-VERSION of 6 or higher if it contains the EXT-X-MAP tag in a Media Playlist that does not contain EXT-X-I-FRAMES-ONLY."));
        }
    }
    let md = m.get_metadata();
    let ghost mv = md@.map_values(|x: &crate::playlist::MediaMetadata| x@);
    let mut q: usize = 0;
    proof {
        assert(mv.skip(0) =~= mv);
    }
    while q < md.len()
        invariant
            q <= md@.len(),
            mv == md@.map_values(|x: &crate::playlist::MediaMetadata| x@),
            mv == metadata_of(iv),
            iv == items_view(m.items@),
            target_duration_of(iv) == Some(t),
            segments_version_check(segments_of(iv), 0, t, v) is Ok,
            !(has_iframes_only(exclusive_tags_of(iv)) && v < 4),
            !(!has_iframes_only(exclusive_tags_of(iv)) && has_map(segments_of(iv)) && v < 6),
            first_skip(mv) == first_skip(mv.skip(q as int)),
        decreases md.len() - q,
    {
        proof {
            assert(mv.skip(q as int)[0] == md@[q as int]@);
            assert(mv.skip(q as int).drop_first() =~= mv.skip(q + 1));
        }
        if let Some(skip) = md[q].as_skip() {
            if v < 9 {
                return Err(version_err(v, "A Playlist MUST indicate an EXT-X-VERSION of 9 or higher if it contains the EXT-X-SKIP tag."));
            }
            if skip.recently_removed_dateranges.len() > 0 && v < 10 {
                return Err(version_err(v, "A Playlist MUST indicate an EXT-X-VERSION of 10 or higher if it contains an EXT-X-SKIP tag that replaces EXT-X-DATERANGE tags in a Playlist Delta Update."));
            }
            return Ok(());
        }
        q = q + 1;
    }
    proof {
        assert(mv.skip(q as int).len() == 0);
    }
    Ok(())
}

/// Checks one multivariant tag; see `mtag_version_check`.
fn check_mtag(t: &MultivariantExclusiveTag, v: u8) -> (r: Result<(), ValidationError>)
    ensures
        match mtag_version_check(t@, v) {
            Ok(()) => r is Ok,
            Err(e) => r matches Err(x) && x@ == e,
        },
{
    match t {
        MultivariantExclusiveTag::Media(media) => {
            let service = match media.get_instream_id() {
                Some(id) => id.is_service(),
                None => false,
            };
            if service && v < 7 {
                return Err(version_err(v, "A Multivariant Playlist MUST indicate an EXT-X-VERSION of 7 or higher if it contains a 'SERVICE' values for the INSTREAM-ID attribute of the EXT-X-MEDIA tag."));
            }
            let not_cc = match media.get_instream_id() {
                Some(id) => !id.is_cc(),
                None => false,
            };
            if not_cc && v < 13 {
                return Err(version_err(v, "A Multivariant Playlist MUST indicate an EXT-X-VERSION of 13 or higher if it contains an EXT-X-MEDIA tag with INSTREAM-ID attribute for non CLOSED-CAPTIONS TYPE."));
            }
            Ok(())
        },
        MultivariantExclusiveTag::IFrameStreamInf(i) => {
            if i.req_video_layout.is_some() && v < 12 {
                return Err(version_err(v, "A Multivariant Playlist MUST indicate an EXT-X-VERSION of 12 or higher if it contains a 'REQUIRED-VIDEO-LAYOUT' attribute of the EXT-X-IFRAME-STREAM-INF tag."));
            }
            Ok(())
        },
        _ => Ok(()),
    }
}

/// Checks a multivariant playlist whose shared tags are `tags`; see the multivariant part of
/// `playlist_validate_spec`.
fn check_multivariant(m: &MultivariantPlaylist, v: u8) -> (r: Result<(), ValidationError>)
    ensures
        match mtags_version_check(mtags_view(m.exclusive_tags@), 0, v) {
            Err(e) => r matches Err(x) && x@ == e,
            Ok(()) => if has_variable(shared_view(m.shared_tags@)) && v < 8 {
                r matches Err(x) && x@ == version_error(v, "A Multivariant Playlist MUST indicate an EXT-X-VERSION of 8 or higher if it contains Variable substitution.")
            } else {
                r is Ok
            },
        },
{
    let ghost tv = mtags_view(m.exclusive_tags@);
    let mut i: usize = 0;
    while i < m.exclusive_tags.len()
        invariant
            i <= m.exclusive_tags@.len(),
            tv == mtags_view(m.exclusive_tags@),
            mtags_version_check(tv, 0, v) == mtags_version_check(tv, i as nat, v),
        decreases m.exclusive_tags.len() - i,
    {
        proof {
            assert(tv[i as int] == m.exclusive_tags@[i as int]@);
        }
        match check_mtag(&m.exclusive_tags[i], v) {
            Ok(()) => {},
            Err(e) => {
                return Err(e);
            },
        }
        i = i + 1;
    }
    let ghost sv = shared_view(m.shared_tags@);
    let mut j: usize = 0;
    while j < m.shared_tags.len()
        invariant
            j <= m.shared_tags@.len(),
            sv == shared_view(m.shared_tags@),
            mtags_version_check(mtags_view(m.exclusive_tags@), 0, v) is Ok,
            forall|k: int| 0 <= k < j ==> !((#[trigger] sv[k]) matches SharedTagV::Variable(_)),
        decreases m.shared_tags.len() - j,
    {
        proof {
            assert(sv[j as int] == m.shared_tags@[j as int]@);
        }
        if let SharedTag::Variable(_) = &m.shared_tags[j] {
            proof {
                assert(sv[j as int] matches SharedTagV::Variable(_));
                assert(has_variable(sv));
            }
            if v < 8 {
                return Err(version_err(v, "A Multivariant Playlist MUST indicate an EXT-X-VERSION of 8 or higher if it contains Variable substitution."));
            }
            return Ok(());
        }
        j = j + 1;
    }
    Ok(())
}

impl Playlist {
    /// The shared tags, in order.
    pub fn get_shared_tags(&self) -> (r: Vec<&SharedTag>)
        ensures
            r@.map_values(|t: &SharedTag| t@) == playlist_shared_tags(self@),
    {
        match self {
            Playlist::Media(p) => p.get_shared_tags(),
            Playlist::Multivariant(p) => {
                let ghost sv = shared_view(p.shared_tags@);
                let mut out: Vec<&SharedTag> = Vec::new();
                let mut i: usize = 0;
                while i < p.shared_tags.len()
                    invariant
                        i <= p.shared_tags@.len(),
                        sv == shared_view(p.shared_tags@),
                        out@.map_values(|t: &SharedTag| t@) == sv.take(i as int),
                    decreases p.shared_tags.len() - i,
                {
                    let ghost o = out@;
                    out.push(&p.shared_tags[i]);
                    proof {
                        assert(out@.map_values(|t: &SharedTag| t@) =~= o.map_values(|t: &SharedTag| t@).push(sv[i as int]));
                        assert(sv.take(i + 1) =~= sv.take(i as int).push(sv[i as int]));
                    }
                    i = i + 1;
                }
                proof {
                    assert(sv.take(sv.len() as int) =~= sv);
                }
                out
            },
        }
    }

    /// The declared protocol version: the first `EXT-X-VERSION`.
    pub fn version(&self) -> (r: Option<&u8>)
        ensures
            match first_version(playlist_shared_tags(self@)) {
                Some(v) => r matches Some(x) && *x == v,
                None => r is None,
            },
    {
        let tags = self.get_shared_tags();
        let ghost tv = tags@.map_values(|t: &SharedTag| t@);
        let mut i: usize = 0;
        proof {
            assert(tv.skip(0) =~= tv);
        }
        while i < tags.len()
            invariant
                i <= tags@.len(),
                tv == tags@.map_values(|t: &SharedTag| t@),
                tv == playlist_shared_tags(self@),
                first_version(tv) == first_version(tv.skip(i as int)),
            decreases tags.len() - i,
        {
            proof {
                assert(tv.skip(i as int)[0] == tags@[i as int]@);
                assert(tv.skip(i as int).drop_first() =~= tv.skip(i + 1));
            }
            let t: &SharedTag = tags[i];
            if let SharedTag::Version(v) = t {
                return Some(v);
            }
            i = i + 1;
        }
        proof {
            assert(tv.skip(i as int).len() == 0);
        }
        None
    }

    /// Checks that the declared version covers the features the playlist uses; see
    /// `playlist_validate_spec`, whose first broken rule decides the error. A playlist that
    /// meets every rule is outside this function's domain: what is checked after these rules
    /// is not written.
    pub fn validate(&self) -> (r: Result<(), ValidationError>)
        requires
            playlist_validate_spec(self@) is Err,
        ensures
            r matches Err(x) && x@ == playlist_validate_spec(self@)->Err_0,
    {
        let v: u8 = match self.version() {
            Some(v) => *v,
            None => {
                return Err(ValidationError::MissingRequiredTag(owned("#EXT-X-VERSION")));
            },
        };
        if v < 11 {
            let tags = self.get_shared_tags();
            let ghost tv = tags@.map_values(|t: &SharedTag| t@);
            let mut i: usize = 0;
            while i < tags.len()
                invariant
                    i <= tags@.len(),
                    v < 11,
                    first_version(playlist_shared_tags(self@)) == Some(v),
                    tv == tags@.map_values(|t: &SharedTag| t@),
                    tv == playlist_shared_tags(self@),
                    forall|k: int| 0 <= k < i ==> !((#[trigger] tv[k]) matches SharedTagV::Variable(VarDefV::QueryParam { .. })),
                decreases tags.len() - i,
            {
                proof {
                    assert(tv[i as int] == tags@[i as int]@);
                }
                let t: &SharedTag = tags[i];
                if let SharedTag::Variable(PlayListVariableDefinition::QueryParam { .. }) = t {
                    proof {
                        assert(has_query_param(tv));
                    }
                    return Err(version_err(v, "A Playlist MUST indicate an EXT-X-VERSION of 11 or higher if it contains an EXT-X-DEFINE tag with QUERYPARAM attribute"));
                }
                i = i + 1;
            }
        }
        let res = match self {
            Playlist::Media(m) => check_media(m, v),
            Playlist::Multivariant(m) => check_multivariant(m, v),
        };
        match res {
            Err(e) => Err(e),
            Ok(()) => {
                proof {
                    assert(playlist_validate_spec(self@) is Ok);
                }
                Ok(())
            },
        }
    }
}


/* Laws */

/// A segment is refused for its duration exactly when that duration, rounded half away from
/// zero, is greater than the target duration: a whole-number duration equal to the target is
/// within it, one above it is not.
pub proof fn law_segment_duration_limit(s: MediaSegmentV, t: u64, v: u8)
    ensures
        (segment_version_check(s, t, v) == Err::<(), VErr>(VErr::InvalidTargetDuration)) <==> duration_round(
            s.duration,
        ) > t,
        s.duration matches crate::segment::DurationV::Int(d) ==> ((segment_version_check(s, t, v)
            == Err::<(), VErr>(VErr::InvalidTargetDuration)) <==> d > t),
{
}

/// A segment within the target duration that uses no feature above version `v` (no key,
/// byte range or map, and a fractional duration only from version 3) passes its rules.
pub proof fn law_plain_segment_passes(s: MediaSegmentV, t: u64, v: u8)
    requires
        duration_round(s.duration) <= t,
        s.key is None,
        s.byte_range is None,
        s.map is None,
        s.duration is Float ==> v >= 3,
    ensures
        segment_version_check(s, t, v) == Ok::<(), VErr>(()),
{
}

/// Segments are refused for a duration only when one of them, rounded half away from zero,
/// is greater than the target duration; segments that are all within it and use no feature
/// above version `v` pass.
pub proof fn law_segments_duration_limit(segs: Seq<MediaSegmentV>, i: nat, t: u64, v: u8)
    ensures
        segments_version_check(segs, i, t, v) == Err::<(), VErr>(VErr::InvalidTargetDuration) ==> exists|j: int|
            i <= j < segs.len() && duration_round((#[trigger] segs[j]).duration) > t,
        (forall|j: int|
            i <= j < segs.len() ==> {
                let s = #[trigger] segs[j];
                &&& duration_round(s.duration) <= t
                &&& s.key is None
                &&& s.byte_range is None
                &&& s.map is None
                &&& (s.duration is Float ==> v >= 3)
            }) ==> segments_version_check(segs, i, t, v) == Ok::<(), VErr>(()),
    decreases segs.len() - i,
{
    if i < segs.len() {
        law_segment_duration_limit(segs[i as int], t, v);
        law_segments_duration_limit(segs, i + 1, t, v);
        if segment_version_check(segs[i as int], t, v) is Ok {
            if segments_version_check(segs, i, t, v) == Err::<(), VErr>(VErr::InvalidTargetDuration) {
                let j = choose|j: int| i + 1 <= j < segs.len() && duration_round((#[trigger] segs[j]).duration) > t;
                assert(i <= j < segs.len() && duration_round(segs[j].duration) > t);
            }
        }
    }
}

/// A media playlist with a version tag, a target duration, and segments that are all within
/// the target duration and use no feature above that version, with no I-frames-only tag and
/// no skip and no `QUERYPARAM` definition, validates.
pub proof fn law_plain_media_playlist_validates(items: Seq<MediaItemV>, vars: Seq<VarDefV>, v: u8, t: u64)
    requires
        first_version(shared_tags_of(items)) == Some(v),
        !has_query_param(shared_tags_of(items)),
        target_duration_of(items) == Some(t),
        forall|j: int|
            0 <= j < segments_of(items).len() ==> {
                let s = #[trigger] segments_of(items)[j];
                &&& duration_round(s.duration) <= t
                &&& s.key is None
                &&& s.byte_range is None
                &&& s.map is None
                &&& (s.duration is Float ==> v >= 3)
            },
        !has_iframes_only(exclusive_tags_of(items)),
        first_skip(metadata_of(items)) is None,
    ensures
        playlist_validate_spec(PlaylistV::Media(items, vars)) == Ok::<(), VErr>(()),
{
    law_segments_duration_limit(segments_of(items), 0, t, v);
    assert(!has_map(segments_of(items))) by {
        if has_map(segments_of(items)) {
            let j = choose|j: int| 0 <= j < segments_of(items).len() && (#[trigger] segments_of(items)[j]).map is Some;
            assert(segments_of(items)[j].map is None);
        }
    }
}
} // verus!
