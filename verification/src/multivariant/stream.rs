//! Variant streams: `EXT-X-STREAM-INF` and `EXT-X-I-FRAME-STREAM-INF`.
use vstd::prelude::*;
use vstd::string::*;
use crate::attribute_list::{AttrV, AttributeList, lookup};
use crate::codecs::supplemental::{SupplementalCodecs, entries_view};
use crate::codecs::{Codec, CodecV, SupplementalCodecEntryV};
use crate::decimal::DecimalFloat;
use crate::error::{PErr, ParseError};
use crate::multivariant::attrs::{
    allowed_cpc_spec, allowed_cpc_value, bandwidth_spec, bandwidth_value, closed_captions_spec,
    closed_captions_value, codecs_value, codecs_value_spec, codecs_view, cpc_view, frame_rate_spec,
    frame_rate_value, hdcp_value, hdcp_value_spec, layout_spec, layout_value, layouts_view,
    opt_int_spec, opt_int_value, pathway_spec, pathway_value, resolution_value,
    resolution_value_spec, score_spec, score_value, supplemental_value, supplemental_value_spec,
    video_range_value, video_range_value_spec,
};
use crate::multivariant::{AllowedCpcEntry, AllowedCpcEntryV, HdcpLevel, PresentationEntrySpecifier, VideoRange, ViewPresentationEntry};
use crate::playlist::{opt_decimal_view, opt_quoted_spec, opt_string_view, quoted_of};
use crate::text::owned;
use crate::uri::{Uri, UriView, parse_spec};

verus! {

/// An `EXT-X-STREAM-INF` tag: a variant stream.
#[derive(Debug, Clone, PartialEq)]
pub struct StreamInf {
    pub bandwidth: u64,
    pub average_bandwidth: Option<u64>,
    pub score: Option<DecimalFloat>,
    pub codecs: Vec<Codec>,
    pub supplemental_codecs: SupplementalCodecs,
    pub resolution: Option<(u64, u64)>,
    pub frame_rate: Option<DecimalFloat>,
    pub hdcp_level: Option<HdcpLevel>,
    pub allowed_cpc: Vec<AllowedCpcEntry>,
    pub video_range: VideoRange,
    pub req_video_layout: Option<Vec<ViewPresentationEntry>>,
    pub stable_variant_id: Option<String>,
    pub audio: Option<String>,
    pub video: Option<String>,
    pub subtitles: Option<String>,
    pub closed_captions: Option<String>,
    pub pathway_id: Option<String>,
}

/// A variant stream with its text as bytes.
pub struct StreamInfV {
    pub bandwidth: u64,
    pub average_bandwidth: Option<u64>,
    pub score: Option<Seq<u8>>,
    pub codecs: Seq<CodecV>,
    pub supplemental_codecs: Seq<SupplementalCodecEntryV>,
    pub resolution: Option<(u64, u64)>,
    pub frame_rate: Option<Seq<u8>>,
    pub hdcp_level: Option<HdcpLevel>,
    pub allowed_cpc: Seq<AllowedCpcEntryV>,
    pub video_range: VideoRange,
    pub req_video_layout: Option<Seq<Seq<PresentationEntrySpecifier>>>,
    pub stable_variant_id: Option<Seq<u8>>,
    pub audio: Option<Seq<u8>>,
    pub video: Option<Seq<u8>>,
    pub subtitles: Option<Seq<u8>>,
    pub closed_captions: Option<Seq<u8>>,
    pub pathway_id: Option<Seq<u8>>,
}

/// The view of an optional list of layout entries.
pub open spec fn opt_layouts_view(v: Option<Vec<ViewPresentationEntry>>) -> Option<Seq<Seq<PresentationEntrySpecifier>>> {
    match v {
        Some(l) => Some(layouts_view(l@)),
        None => None,
    }
}

impl View for StreamInf {
    type V = StreamInfV;

    open spec fn view(&self) -> StreamInfV {
        StreamInfV {
            bandwidth: self.bandwidth,
            average_bandwidth: self.average_bandwidth,
            score: opt_decimal_view(self.score),
            codecs: codecs_view(self.codecs@),
            supplemental_codecs: entries_view(self.supplemental_codecs.entries@),
            resolution: self.resolution,
            frame_rate: opt_decimal_view(self.frame_rate),
            hdcp_level: self.hdcp_level,
            allowed_cpc: cpc_view(self.allowed_cpc@),
            video_range: self.video_range,
            req_video_layout: opt_layouts_view(self.req_video_layout),
            stable_variant_id: opt_string_view(self.stable_variant_id),
            audio: opt_string_view(self.audio),
            video: opt_string_view(self.video),
            subtitles: opt_string_view(self.subtitles),
            closed_captions: opt_string_view(self.closed_captions),
            pathway_id: opt_string_view(self.pathway_id),
        }
    }
}

/// The variant an `EXT-X-STREAM-INF` attribute list describes. `BANDWIDTH` is required; the
/// attributes are read in the order of the fields, and the first that fails decides the error.
pub open spec fn stream_inf_spec(m: Seq<(Seq<u8>, AttrV)>) -> Result<StreamInfV, PErr> {
    let bandwidth = bandwidth_spec(lookup(m, "BANDWIDTH".spec_bytes()));
    let average_bandwidth = opt_int_spec(lookup(m, "AVERAGE-BANDWIDTH".spec_bytes()));
    let score = score_spec(lookup(m, "SCORE".spec_bytes()));
    let codecs = codecs_value_spec(lookup(m, "CODECS".spec_bytes()));
    let supplemental = supplemental_value_spec(lookup(m, "SUPPLEMENTAL-CODECS".spec_bytes()));
    let resolution = resolution_value_spec(lookup(m, "RESOLUTION".spec_bytes()));
    let frame_rate = frame_rate_spec(lookup(m, "FRAME-RATE".spec_bytes()));
    let hdcp = hdcp_value_spec(lookup(m, "HDCP-LEVEL".spec_bytes()));
    let cpc = allowed_cpc_spec(lookup(m, "ALLOWED-CPC".spec_bytes()));
    let range = video_range_value_spec(lookup(m, "VIDEO-RANGE".spec_bytes()));
    let layout = layout_spec(lookup(m, "REQ-VIDEO-LAYOUT".spec_bytes()));
    let stable = opt_quoted_spec(lookup(m, "STABLE-VARIANT-ID".spec_bytes()));
    let audio = opt_quoted_spec(lookup(m, "AUDIO".spec_bytes()));
    let video = opt_quoted_spec(lookup(m, "VIDEO".spec_bytes()));
    let subtitles = opt_quoted_spec(lookup(m, "SUBTITLES".spec_bytes()));
    let cc = closed_captions_spec(lookup(m, "CLOSED-CAPTIONS".spec_bytes()));
    let pathway = pathway_spec(lookup(m, "PATHWAY-ID".spec_bytes()));
    if bandwidth is Err {
        Err(bandwidth->Err_0)
    } else if average_bandwidth is Err {
        Err(average_bandwidth->Err_0)
    } else if score is Err {
        Err(score->Err_0)
    } else if codecs is Err {
        Err(codecs->Err_0)
    } else if supplemental is Err {
        Err(supplemental->Err_0)
    } else if resolution is Err {
        Err(resolution->Err_0)
    } else if frame_rate is Err {
        Err(frame_rate->Err_0)
    } else if hdcp is Err {
        Err(hdcp->Err_0)
    } else if cpc is Err {
        Err(cpc->Err_0)
    } else if range is Err {
        Err(range->Err_0)
    } else if layout is Err {
        Err(layout->Err_0)
    } else if stable is Err {
        Err(stable->Err_0)
    } else if audio is Err {
        Err(audio->Err_0)
    } else if video is Err {
        Err(video->Err_0)
    } else if subtitles is Err {
        Err(subtitles->Err_0)
    } else if cc is Err {
        Err(cc->Err_0)
    } else if pathway is Err {
        Err(pathway->Err_0)
    } else {
        Ok(
            StreamInfV {
                bandwidth: bandwidth->Ok_0,
                average_bandwidth: average_bandwidth->Ok_0,
                score: score->Ok_0,
                codecs: codecs->Ok_0,
                supplemental_codecs: supplemental->Ok_0,
                resolution: resolution->Ok_0,
                frame_rate: frame_rate->Ok_0,
                hdcp_level: hdcp->Ok_0,
                allowed_cpc: cpc->Ok_0,
                video_range: range->Ok_0,
                req_video_layout: layout->Ok_0,
                stable_variant_id: stable->Ok_0,
                audio: audio->Ok_0,
                video: video->Ok_0,
                subtitles: subtitles->Ok_0,
                closed_captions: cc->Ok_0,
                pathway_id: pathway->Ok_0,
            },
        )
    }
}

impl StreamInf {
    /// The variant an `EXT-X-STREAM-INF` attribute list describes.
    #[verifier::spinoff_prover]
    pub fn from_attributes(map: AttributeList) -> (r: Result<Self, ParseError>)
        ensures
            match stream_inf_spec(map@) {
                Ok(x) => r matches Ok(y) && y@ == x,
                Err(e) => r matches Err(y) && y@ == e,
            },
    {
        let bandwidth = match bandwidth_value(map.get("BANDWIDTH")) {
            Ok(x) => x,
            Err(e) => {
                return Err(e);
            },
        };
        let average_bandwidth = match opt_int_value(map.get("AVERAGE-BANDWIDTH")) {
            Ok(x) => x,
            Err(e) => {
                return Err(e);
            },
        };
        let score = match score_value(map.get("SCORE")) {
            Ok(x) => x,
            Err(e) => {
                return Err(e);
            },
        };
        let codecs = match codecs_value(map.get("CODECS")) {
            Ok(x) => x,
            Err(e) => {
                return Err(e);
            },
        };
        let supplemental_codecs = match supplemental_value(map.get("SUPPLEMENTAL-CODECS")) {
            Ok(x) => x,
            Err(e) => {
                return Err(e);
            },
        };
        let resolution = match resolution_value(map.get("RESOLUTION")) {
            Ok(x) => x,
            Err(e) => {
                return Err(e);
            },
        };
        let frame_rate = match frame_rate_value(map.get("FRAME-RATE")) {
            Ok(x) => x,
            Err(e) => {
                return Err(e);
            },
        };
        let hdcp_level = match hdcp_value(map.get("HDCP-LEVEL")) {
            Ok(x) => x,
            Err(e) => {
                return Err(e);
            },
        };
        let allowed_cpc = match allowed_cpc_value(map.get("ALLOWED-CPC")) {
            Ok(x) => x,
            Err(e) => {
                return Err(e);
            },
        };
        let video_range = match video_range_value(map.get("VIDEO-RANGE")) {
            Ok(x) => x,
            Err(e) => {
                return Err(e);
            },
        };
        let req_video_layout = match layout_value(map.get("REQ-VIDEO-LAYOUT")) {
            Ok(x) => x,
            Err(e) => {
                return Err(e);
            },
        };
        let stable_variant_id = match crate::playlist::opt_quoted(map.get("STABLE-VARIANT-ID")) {
            Ok(x) => x,
            Err(e) => {
                return Err(e);
            },
        };
        let audio = match crate::playlist::opt_quoted(map.get("AUDIO")) {
            Ok(x) => x,
            Err(e) => {
                return Err(e);
            },
        };
        let video = match crate::playlist::opt_quoted(map.get("VIDEO")) {
            Ok(x) => x,
            Err(e) => {
                return Err(e);
            },
        };
        let subtitles = match crate::playlist::opt_quoted(map.get("SUBTITLES")) {
            Ok(x) => x,
            Err(e) => {
                return Err(e);
            },
        };
        let closed_captions = match closed_captions_value(map.get("CLOSED-CAPTIONS")) {
            Ok(x) => x,
            Err(e) => {
                return Err(e);
            },
        };
        let pathway_id = match pathway_value(map.get("PATHWAY-ID")) {
            Ok(x) => x,
            Err(e) => {
                return Err(e);
            },
        };
        Ok(StreamInf {
            bandwidth,
            average_bandwidth,
            score,
            codecs,
            supplemental_codecs,
            resolution,
            frame_rate,
            hdcp_level,
            allowed_cpc,
            video_range,
            req_video_layout,
            stable_variant_id,
            audio,
            video,
            subtitles,
            closed_captions,
            pathway_id,
        })
    }
}

/// An `EXT-X-I-FRAME-STREAM-INF` tag: a variant of I-frames only.
#[derive(Debug, Clone, PartialEq)]
pub struct IFrameStreamInf {
    pub uri: Uri,
    pub bandwidth: u64,
    pub average_bandwidth: Option<u64>,
    pub score: Option<DecimalFloat>,
    pub codecs: Vec<Codec>,
    pub supplemental_codecs: SupplementalCodecs,
    pub resolution: Option<(u64, u64)>,
    pub hdcp_level: Option<HdcpLevel>,
    pub allowed_cpc: Vec<AllowedCpcEntry>,
    pub video_range: VideoRange,
    pub req_video_layout: Option<Vec<ViewPresentationEntry>>,
    pub stable_variant_id: Option<String>,
    pub video: Option<String>,
    pub pathway_id: Option<String>,
}

/// An I-frame variant with its text as bytes.
pub struct IFrameStreamInfV {
    pub uri: UriView,
    pub bandwidth: u64,
    pub average_bandwidth: Option<u64>,
    pub score: Option<Seq<u8>>,
    pub codecs: Seq<CodecV>,
    pub supplemental_codecs: Seq<SupplementalCodecEntryV>,
    pub resolution: Option<(u64, u64)>,
    pub hdcp_level: Option<HdcpLevel>,
    pub allowed_cpc: Seq<AllowedCpcEntryV>,
    pub video_range: VideoRange,
    pub req_video_layout: Option<Seq<Seq<PresentationEntrySpecifier>>>,
    pub stable_variant_id: Option<Seq<u8>>,
    pub video: Option<Seq<u8>>,
    pub pathway_id: Option<Seq<u8>>,
}

impl View for IFrameStreamInf {
    type V = IFrameStreamInfV;

    open spec fn view(&self) -> IFrameStreamInfV {
        IFrameStreamInfV {
            uri: self.uri@,
            bandwidth: self.bandwidth,
            average_bandwidth: self.average_bandwidth,
            score: opt_decimal_view(self.score),
            codecs: codecs_view(self.codecs@),
            supplemental_codecs: entries_view(self.supplemental_codecs.entries@),
            resolution: self.resolution,
            hdcp_level: self.hdcp_level,
            allowed_cpc: cpc_view(self.allowed_cpc@),
            video_range: self.video_range,
            req_video_layout: opt_layouts_view(self.req_video_layout),
            stable_variant_id: opt_string_view(self.stable_variant_id),
            video: opt_string_view(self.video),
            pathway_id: opt_string_view(self.pathway_id),
        }
    }
}

/// The required `URI` of an I-frame variant: a quoted-string.
pub open spec fn iframe_uri_spec(v: Option<AttrV>) -> Result<UriView, PErr> {
    match v {
        None => Err(PErr::MissingAttribute { attribute: "URI".spec_bytes() }),
        Some(AttrV::QuotedString(t)) => Ok(parse_spec(t)),
        Some(_) => Err(PErr::ExpectedQuotedString),
    }
}

/// The I-frame variant an `EXT-X-I-FRAME-STREAM-INF` attribute list describes. `BANDWIDTH`
/// and `URI` are required; the attributes are read in the order of the fields, `URI` last.
pub open spec fn iframe_spec(m: Seq<(Seq<u8>, AttrV)>) -> Result<IFrameStreamInfV, PErr> {
    let bandwidth = bandwidth_spec(lookup(m, "BANDWIDTH".spec_bytes()));
    let average_bandwidth = opt_int_spec(lookup(m, "AVERAGE-BANDWIDTH".spec_bytes()));
    let score = score_spec(lookup(m, "SCORE".spec_bytes()));
    let codecs = codecs_value_spec(lookup(m, "CODECS".spec_bytes()));
    let supplemental = supplemental_value_spec(lookup(m, "SUPPLEMENTAL-CODECS".spec_bytes()));
    let resolution = resolution_value_spec(lookup(m, "RESOLUTION".spec_bytes()));
    let hdcp = hdcp_value_spec(lookup(m, "HDCP-LEVEL".spec_bytes()));
    let cpc = allowed_cpc_spec(lookup(m, "ALLOWED-CPC".spec_bytes()));
    let range = video_range_value_spec(lookup(m, "VIDEO-RANGE".spec_bytes()));
    let layout = layout_spec(lookup(m, "REQ-VIDEO-LAYOUT".spec_bytes()));
    let stable = opt_quoted_spec(lookup(m, "STABLE-VARIANT-ID".spec_bytes()));
    let video = opt_quoted_spec(lookup(m, "VIDEO".spec_bytes()));
    let pathway = pathway_spec(lookup(m, "PATHWAY-ID".spec_bytes()));
    let uri = iframe_uri_spec(lookup(m, "URI".spec_bytes()));
    if bandwidth is Err {
        Err(bandwidth->Err_0)
    } else if average_bandwidth is Err {
        Err(average_bandwidth->Err_0)
    } else if score is Err {
        Err(score->Err_0)
    } else if codecs is Err {
        Err(codecs->Err_0)
    } else if supplemental is Err {
        Err(supplemental->Err_0)
    } else if resolution is Err {
        Err(resolution->Err_0)
    } else if hdcp is Err {
        Err(hdcp->Err_0)
    } else if cpc is Err {
        Err(cpc->Err_0)
    } else if range is Err {
        Err(range->Err_0)
    } else if layout is Err {
        Err(layout->Err_0)
    } else if stable is Err {
        Err(stable->Err_0)
    } else if video is Err {
        Err(video->Err_0)
    } else if pathway is Err {
        Err(pathway->Err_0)
    } else if uri is Err {
        Err(uri->Err_0)
    } else {
        Ok(
            IFrameStreamInfV {
                uri: uri->Ok_0,
                bandwidth: bandwidth->Ok_0,
                average_bandwidth: average_bandwidth->Ok_0,
                score: score->Ok_0,
                codecs: codecs->Ok_0,
                supplemental_codecs: supplemental->Ok_0,
                resolution: resolution->Ok_0,
                hdcp_level: hdcp->Ok_0,
                allowed_cpc: cpc->Ok_0,
                video_range: range->Ok_0,
                req_video_layout: layout->Ok_0,
                stable_variant_id: stable->Ok_0,
                video: video->Ok_0,
                pathway_id: pathway->Ok_0,
            },
        )
    }
}

fn iframe_uri(v: Option<&crate::attribute_list::AttributeValue>) -> (r: Result<Uri, ParseError>)
    ensures
        match iframe_uri_spec(crate::playlist::opt_view(v)) {
            Ok(u) => r matches Ok(x) && x@ == u,
            Err(e) => r matches Err(x) && x@ == e,
        },
{
    match v {
        None => Err(ParseError::MissingAttribute { attribute: owned("URI") }),
        Some(x) => match x.as_quoted_string() {
            None => Err(ParseError::ExpectedQuotedString),
            Some(t) => match Uri::parse(t) {
                Ok(u) => Ok(u),
                Err(e) => Err(ParseError::InvalidUri { source: e }),
            },
        },
    }
}

impl IFrameStreamInf {
    /// The I-frame variant an `EXT-X-I-FRAME-STREAM-INF` attribute list describes.
    #[verifier::spinoff_prover]
    pub fn from_attributes(map: AttributeList) -> (r: Result<Self, ParseError>)
        ensures
            match iframe_spec(map@) {
                Ok(x) => r matches Ok(y) && y@ == x,
                Err(e) => r matches Err(y) && y@ == e,
            },
    {
        let bandwidth = match bandwidth_value(map.get("BANDWIDTH")) {
            Ok(x) => x,
            Err(e) => {
                return Err(e);
            },
        };
        let average_bandwidth = match opt_int_value(map.get("AVERAGE-BANDWIDTH")) {
            Ok(x) => x,
            Err(e) => {
                return Err(e);
            },
        };
        let score = match score_value(map.get("SCORE")) {
            Ok(x) => x,
            Err(e) => {
                return Err(e);
            },
        };
        let codecs = match codecs_value(map.get("CODECS")) {
            Ok(x) => x,
            Err(e) => {
                return Err(e);
            },
        };
        let supplemental_codecs = match supplemental_value(map.get("SUPPLEMENTAL-CODECS")) {
            Ok(x) => x,
            Err(e) => {
                return Err(e);
            },
        };
        let resolution = match resolution_value(map.get("RESOLUTION")) {
            Ok(x) => x,
            Err(e) => {
                return Err(e);
            },
        };
        let hdcp_level = match hdcp_value(map.get("HDCP-LEVEL")) {
            Ok(x) => x,
            Err(e) => {
                return Err(e);
            },
        };
        let allowed_cpc = match allowed_cpc_value(map.get("ALLOWED-CPC")) {
            Ok(x) => x,
            Err(e) => {
                return Err(e);
            },
        };
        let video_range = match video_range_value(map.get("VIDEO-RANGE")) {
            Ok(x) => x,
            Err(e) => {
                return Err(e);
            },
        };
        let req_video_layout = match layout_value(map.get("REQ-VIDEO-LAYOUT")) {
            Ok(x) => x,
            Err(e) => {
                return Err(e);
            },
        };
        let stable_variant_id = match crate::playlist::opt_quoted(map.get("STABLE-VARIANT-ID")) {
            Ok(x) => x,
            Err(e) => {
                return Err(e);
            },
        };
        let video = match crate::playlist::opt_quoted(map.get("VIDEO")) {
            Ok(x) => x,
            Err(e) => {
                return Err(e);
            },
        };
        let pathway_id = match pathway_value(map.get("PATHWAY-ID")) {
            Ok(x) => x,
            Err(e) => {
                return Err(e);
            },
        };
        let uri = match iframe_uri(map.get("URI")) {
            Ok(x) => x,
            Err(e) => {
                return Err(e);
            },
        };
        Ok(IFrameStreamInf {
            uri,
            bandwidth,
            average_bandwidth,
            score,
            codecs,
            supplemental_codecs,
            resolution,
            hdcp_level,
            allowed_cpc,
            video_range,
            req_video_layout,
            stable_variant_id,
            video,
            pathway_id,
        })
    }
}


/// The resolution of a variant read from an attribute list is the width and the height of
/// its `RESOLUTION`, in that order, and none without one.
pub proof fn law_stream_resolution(m: Seq<(Seq<u8>, AttrV)>)
    requires
        stream_inf_spec(m) is Ok,
    ensures
        stream_inf_spec(m)->Ok_0.resolution == match lookup(m, "RESOLUTION".spec_bytes()) {
            Some(AttrV::DecimalResolution { width, height }) => Some((width, height)),
            _ => None,
        },
{
}

/// The resolution of an I-frame variant read from an attribute list is the width and the
/// height of its `RESOLUTION`, in that order, and none without one.
pub proof fn law_iframe_resolution(m: Seq<(Seq<u8>, AttrV)>)
    requires
        iframe_spec(m) is Ok,
    ensures
        iframe_spec(m)->Ok_0.resolution == match lookup(m, "RESOLUTION".spec_bytes()) {
            Some(AttrV::DecimalResolution { width, height }) => Some((width, height)),
            _ => None,
        },
{
}

/// The video range of a variant read from an attribute list is the range its `VIDEO-RANGE`
/// names, and SDR without one.
pub proof fn law_stream_video_range(m: Seq<(Seq<u8>, AttrV)>, r: VideoRange)
    requires
        stream_inf_spec(m) is Ok,
    ensures
        lookup(m, "VIDEO-RANGE".spec_bytes()) == Some(AttrV::EnumeratedString(crate::multivariant::video_range_name(r)))
            ==> stream_inf_spec(m)->Ok_0.video_range == r,
        lookup(m, "VIDEO-RANGE".spec_bytes()) is None ==> stream_inf_spec(m)->Ok_0.video_range == VideoRange::Sdr,
{
    crate::multivariant::law_video_range_names(crate::multivariant::video_range_name(r), r);
}
} // verus!
