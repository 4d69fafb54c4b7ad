//! Writing media playlists back to text.
use vstd::prelude::*;
use vstd::string::*;
use vstd::utf8::*;
use crate::attribute_list::{AttrV, attr_text, hex_encode, hex_encode_spec, join_with};
use crate::datetime::{DateTimeValue, datetime_text, display_datetime};
use crate::media::{
    MediaExclusiveTag, MediaItemV, MediaPlaylist, MediaPlaylistItem, MediaTagV, PlayListType, ServerControl,
    ServerControlV, items_view,
};
use crate::num::{dec_digits, digit_value, lemma_dec_digits, push_dec};
use crate::parser::{Playlist, PlaylistV};
use crate::playlist::{
    Cue, DateRange, DateRangeV, MediaMetadata, MediaMetadataV, PlayListVariableDefinition, PreloadHint,
    PreloadHintType, PreloadHintV, RenditionReport, RenditionReportV, SharedTag, SharedTagV, Skip, SkipV,
    VarDefV, cue_text,
};
use crate::segment::{
    ByteRange, DurationV, DurationValue, Key, KeyV, MediaSegment, MediaSegmentV, PartialSegment,
    PartialSegmentV, SegmentMap, SegmentMapV, method_text,
};
use crate::text::{lemma_str_valid, push_str, string_of_bytes, utf8};
use crate::uri::{lemma_ascii_valid, render_spec};

verus! {

/* Building text */

/// Appends the text `s`, keeping the buffer valid UTF-8.
pub fn push_text(out: &mut Vec<u8>, s: &str)
    requires
        valid_utf8(old(out)@),
    ensures
        final(out)@ == old(out)@ + s.spec_bytes(),
        valid_utf8(final(out)@),
{
    push_str(out, s);
    proof {
        lemma_str_valid(s);
        valid_utf8_concat(old(out)@, s.spec_bytes());
    }
}

/// Appends the decimal digits of `n`, keeping the buffer valid UTF-8.
pub fn push_number(out: &mut Vec<u8>, n: u64)
    requires
        valid_utf8(old(out)@),
    ensures
        final(out)@ == old(out)@ + dec_digits(n as nat),
        valid_utf8(final(out)@),
{
    push_dec(out, n);
    proof {
        lemma_dec_digits(n as nat);
        lemma_ascii_valid(dec_digits(n as nat));
        valid_utf8_concat(old(out)@, dec_digits(n as nat));
    }
}

/// An empty text buffer.
fn new_text() -> (r: Vec<u8>)
    ensures
        r@ == Seq::<u8>::empty(),
        valid_utf8(r@),
{
    let r: Vec<u8> = Vec::new();
    proof {
        lemma_ascii_valid(r@);
    }
    r
}

/// Appends a buffer of valid UTF-8.
fn append_text(out: &mut Vec<u8>, b: Vec<u8>)
    requires
        valid_utf8(old(out)@),
        valid_utf8(b@),
    ensures
        final(out)@ == old(out)@ + b@,
        valid_utf8(final(out)@),
{
    let mut b = b;
    proof {
        valid_utf8_concat(old(out)@, b@);
    }
    out.append(&mut b);
}

/// The text `true` or `false`, as `bool` displays.
pub open spec fn bool_text(b: bool) -> Seq<u8> {
    if b {
        "true".spec_bytes()
    } else {
        "false".spec_bytes()
    }
}

fn push_bool(out: &mut Vec<u8>, b: bool)
    requires
        valid_utf8(old(out)@),
    ensures
        final(out)@ == old(out)@ + bool_text(b),
        valid_utf8(final(out)@),
{
    if b {
        push_text(out, "true");
    } else {
        push_text(out, "false");
    }
}

/// A text from a buffer of valid UTF-8.
fn finish_text(out: Vec<u8>) -> (r: String)
    requires
        valid_utf8(out@),
    ensures
        utf8(r@) == out@,
{
    string_of_bytes(out)
}

/* Segments */

/// `#EXTINF:` and the duration (a decimal number as written).
pub open spec fn duration_text(d: DurationV) -> Seq<u8> {
    "#EXTINF:".spec_bytes() + match d {
        DurationV::Int(n) => dec_digits(n as nat),
        DurationV::Float(t) => t,
    }
}

/// `#EXT-X-BYTERANGE:<n>[@<o>]`.
pub open spec fn byte_range_text(b: ByteRange) -> Seq<u8> {
    "#EXT-X-BYTERANGE:".spec_bytes() + dec_digits(b.len as nat) + match b.offset {
        Some(o) => "@".spec_bytes() + dec_digits(o as nat),
        None => Seq::empty(),
    }
}

/// Numbers joined by `/`.
pub open spec fn versions_text(v: Seq<u16>) -> Seq<u8>
    decreases v.len(),
{
    if v.len() == 0 {
        Seq::empty()
    } else if v.len() == 1 {
        dec_digits(v[0] as nat)
    } else {
        versions_text(v.drop_last()) + "/".spec_bytes() + dec_digits(v.last() as nat)
    }
}

/// An `EXT-X-KEY` tag: the method, the quoted URI, the IV in hexadecimal, the quoted key
/// format, then the key format versions joined by `/` and a closing quote.
pub open spec fn key_text(k: KeyV) -> Seq<u8> {
    "#EXT-X-KEY:METHOD=".spec_bytes() + method_text(k.method) + ",URI=\"".spec_bytes() + render_spec(k.uri)
        + "\"".spec_bytes() + (match k.iv {
        Some(iv) => ",IV=0x".spec_bytes() + hex_encode_spec(iv),
        None => Seq::empty(),
    }) + (match k.key_format {
        Some(f) => ",KEYFORMAT=\"".spec_bytes() + f + "\"".spec_bytes(),
        None => Seq::empty(),
    }) + versions_text(k.key_format_versions) + "\"".spec_bytes()
}

/// An `EXT-X-MAP` tag: the quoted URI and, quoted, the byte range tag.
pub open spec fn map_text(m: SegmentMapV) -> Seq<u8> {
    "#EXT-X-MAP:URI=\"".spec_bytes() + render_spec(m.uri) + "\"".spec_bytes() + match m.byte_range {
        Some(b) => ",BYTERANGE=\"".spec_bytes() + byte_range_text(b) + "\"".spec_bytes(),
        None => Seq::empty(),
    }
}

/// An `EXT-X-PART` tag, ended by a line feed.
pub open spec fn part_text(p: PartialSegmentV) -> Seq<u8> {
    "#EXT-X-PART:URI=\"".spec_bytes() + render_spec(p.uri) + "\"".spec_bytes() + ",DURATION=".spec_bytes()
        + p.duration + (match p.independent {
        Some(true) => ",INDEPENDENT=YES".spec_bytes(),
        Some(false) => ",INDEPENDENT=NO".spec_bytes(),
        None => Seq::empty(),
    }) + (match p.byte_range {
        Some(b) => ",BYTERANGE=\"".spec_bytes() + byte_range_text(b) + "\"".spec_bytes(),
        None => Seq::empty(),
    }) + (if p.gap {
        ",GAP=\"YES\"".spec_bytes()
    } else {
        Seq::empty()
    }) + "\n".spec_bytes()
}

/// A line `t`: `t` and a line feed.
pub open spec fn line(t: Seq<u8>) -> Seq<u8> {
    t + "\n".spec_bytes()
}

/// The `EXTINF` line of a segment, with the title after a comma.
pub open spec fn extinf_line(s: MediaSegmentV) -> Seq<u8> {
    line(
        duration_text(s.duration) + match s.title {
            Some(t) => ",".spec_bytes() + t,
            None => Seq::empty(),
        },
    )
}

/// A line `t` where `o` holds, else nothing.
pub open spec fn line_if(o: bool, t: Seq<u8>) -> Seq<u8> {
    if o {
        line(t)
    } else {
        Seq::empty()
    }
}

/// The lines of a segment's tags after its `EXTINF` line: byte range, discontinuity, key, map,
/// program date and time, gap, bitrate and partial segment, each where the segment has it.
pub open spec fn segment_tag_lines(s: MediaSegmentV) -> Seq<u8> {
    line_if(s.byte_range is Some, byte_range_text(s.byte_range->0))
        + line_if(s.discontinuity, "#EXT-X-DISCONTINUITY".spec_bytes())
        + line_if(s.key is Some, key_text(s.key->0))
        + line_if(s.map is Some, map_text(s.map->0))
        + line_if(s.program_date_time is Some, "#EXT-X-PROGRAM-DATE-TIME:".spec_bytes() + datetime_text(s.program_date_time->0))
        + line_if(s.gap, "#EXT-X-GAP".spec_bytes())
        + line_if(s.bitrate is Some, "#EXT-X-BITRATE:".spec_bytes() + dec_digits(s.bitrate->0 as nat))
        + line_if(s.part is Some, part_text(s.part->0))
}

/// A segment: its `EXTINF` line, the lines of its tags, then its URI.
pub open spec fn segment_text(s: MediaSegmentV) -> Seq<u8> {
    extinf_line(s) + segment_tag_lines(s) + line(render_spec(s.uri))
}

fn push_uri(out: &mut Vec<u8>, u: &crate::uri::Uri)
    requires
        valid_utf8(old(out)@),
    ensures
        final(out)@ == old(out)@ + render_spec(u@),
        valid_utf8(final(out)@),
{
    let t = u.to_string();
    push_text(out, t.as_str());
}

fn push_date(out: &mut Vec<u8>, d: DateTimeValue)
    requires
        valid_utf8(old(out)@),
    ensures
        final(out)@ == old(out)@ + datetime_text(d),
        valid_utf8(final(out)@),
{
    match display_datetime(d) {
        Some(t) => push_text(out, t.as_str()),
        None => {
            proof {
                assert(old(out)@ + datetime_text(d) =~= old(out)@);
            }
        },
    }
}

impl DurationValue {
    /// Appends the `EXTINF` text; see `duration_text`.
    pub fn push_text(&self, out: &mut Vec<u8>)
        requires
            valid_utf8(old(out)@),
        ensures
            final(out)@ == old(out)@ + duration_text(self@),
            valid_utf8(final(out)@),
    {
        push_text(out, "#EXTINF:");
        match self {
            DurationValue::Int(n) => push_number(out, *n as u64),
            DurationValue::Float(d) => push_text(out, d.as_str()),
        }
        proof {
            assert(final(out)@ =~= old(out)@ + duration_text(self@));
        }
    }
}

impl ByteRange {
    /// Appends the byte range tag; see `byte_range_text`.
    pub fn push_text(&self, out: &mut Vec<u8>)
        requires
            valid_utf8(old(out)@),
        ensures
            final(out)@ == old(out)@ + byte_range_text(*self),
            valid_utf8(final(out)@),
    {
        push_text(out, "#EXT-X-BYTERANGE:");
        push_number(out, self.len);
        if let Some(o) = self.offset {
            push_text(out, "@");
            push_number(out, o);
        }
        proof {
            assert(final(out)@ =~= old(out)@ + byte_range_text(*self));
        }
    }
}

impl Key {
    /// Appends the key tag; see `key_text`.
    pub fn push_text(&self, out: &mut Vec<u8>)
        requires
            valid_utf8(old(out)@),
        ensures
            final(out)@ == old(out)@ + key_text(self@),
            valid_utf8(final(out)@),
    {
        let mut b = new_text();
        push_text(&mut b, "#EXT-X-KEY:METHOD=");
        proof {
            assert(b@ =~= "#EXT-X-KEY:METHOD=".spec_bytes());
        }
        push_text(&mut b, self.method.as_str());
        push_text(&mut b, ",URI=\"");
        push_uri(&mut b, &self.uri);
        push_text(&mut b, "\"");
        let ghost p1 = b@;
        match &self.iv {
            Some(iv) => {
                let h = hex_encode(iv.as_slice());
                push_text(&mut b, ",IV=0x");
                push_text(&mut b, h.as_str());
                proof {
                    assert(b@ =~= p1 + (",IV=0x".spec_bytes() + hex_encode_spec(iv@)));
                }
            },
            None => {
                proof {
                    assert(b@ =~= p1 + Seq::<u8>::empty());
                }
            },
        }
        let ghost p2 = b@;
        match &self.key_format {
            Some(f) => {
                push_text(&mut b, ",KEYFORMAT=\"");
                push_text(&mut b, f.as_str());
                push_text(&mut b, "\"");
                proof {
                    assert(b@ =~= p2 + (",KEYFORMAT=\"".spec_bytes() + utf8(f@) + "\"".spec_bytes()));
                }
            },
            None => {
                proof {
                    assert(b@ =~= p2 + Seq::<u8>::empty());
                }
            },
        }
        let ghost p3 = b@;
        let v = &self.key_format_versions;
        let mut i: usize = 0;
        proof {
            assert(v@.take(0) =~= Seq::<u16>::empty());
            assert(b@ =~= p3 + versions_text(v@.take(0)));
        }
        while i < v.len()
            invariant
                i <= v@.len(),
                v == &self.key_format_versions,
                b@ == p3 + versions_text(v@.take(i as int)),
                valid_utf8(b@),
            decreases v.len() - i,
        {
            let ghost before = b@;
            proof {
                assert(v@.take(i + 1).drop_last() =~= v@.take(i as int));
                assert(v@.take(i + 1).last() == v@[i as int]);
            }
            if i > 0 {
                push_text(&mut b, "/");
                push_number(&mut b, v[i] as u64);
                proof {
                    assert(b@ =~= p3 + (versions_text(v@.take(i as int)) + "/".spec_bytes() + dec_digits(
                        v@[i as int] as nat,
                    )));
                }
            } else {
                push_number(&mut b, v[i] as u64);
                proof {
                    assert(v@.take(1) =~= seq![v@[0]]);
                    assert(b@ =~= p3 + dec_digits(v@[0] as nat));
                }
            }
            i = i + 1;
        }
        proof {
            assert(v@.take(v@.len() as int) =~= v@);
        }
        push_text(&mut b, "\"");
        append_text(out, b);
    }
}

impl SegmentMap {
    /// Appends the map tag; see `map_text`.
    pub fn push_text(&self, out: &mut Vec<u8>)
        requires
            valid_utf8(old(out)@),
        ensures
            final(out)@ == old(out)@ + map_text(self@),
            valid_utf8(final(out)@),
    {
        push_text(out, "#EXT-X-MAP:URI=\"");
        push_uri(out, &self.uri);
        push_text(out, "\"");
        if let Some(b) = &self.byte_range {
            push_text(out, ",BYTERANGE=\"");
            b.push_text(out);
            push_text(out, "\"");
        }
        proof {
            assert(final(out)@ =~= old(out)@ + map_text(self@));
        }
    }
}

impl PartialSegment {
    fn independent_text(&self) -> (r: Vec<u8>)
        ensures
            r@ == match self@.independent {
                Some(true) => ",INDEPENDENT=YES".spec_bytes(),
                Some(false) => ",INDEPENDENT=NO".spec_bytes(),
                None => Seq::<u8>::empty(),
            },
            valid_utf8(r@),
    {
        let mut l = new_text();
        match self.independent {
            Some(true) => push_text(&mut l, ",INDEPENDENT=YES"),
            Some(false) => push_text(&mut l, ",INDEPENDENT=NO"),
            None => {},
        }
        proof {
            assert(l@ =~= match self@.independent {
                Some(true) => ",INDEPENDENT=YES".spec_bytes(),
                Some(false) => ",INDEPENDENT=NO".spec_bytes(),
                None => Seq::<u8>::empty(),
            });
        }
        l
    }

    fn byte_range_attr(&self) -> (r: Vec<u8>)
        ensures
            r@ == match self@.byte_range {
                Some(b) => ",BYTERANGE=\"".spec_bytes() + byte_range_text(b) + "\"".spec_bytes(),
                None => Seq::<u8>::empty(),
            },
            valid_utf8(r@),
    {
        let mut l = new_text();
        if let Some(b) = &self.byte_range {
            push_text(&mut l, ",BYTERANGE=\"");
            proof {
                assert(l@ =~= ",BYTERANGE=\"".spec_bytes());
            }
            b.push_text(&mut l);
            push_text(&mut l, "\"");
        }
        l
    }

    fn gap_attr(&self) -> (r: Vec<u8>)
        ensures
            r@ == (if self@.gap {
                ",GAP=\"YES\"".spec_bytes()
            } else {
                Seq::<u8>::empty()
            }),
            valid_utf8(r@),
    {
        let mut l = new_text();
        if self.gap {
            push_text(&mut l, ",GAP=\"YES\"");
            proof {
                assert(l@ =~= ",GAP=\"YES\"".spec_bytes());
            }
        }
        l
    }

    /// Appends the partial segment tag; see `part_text`.
    pub fn push_text(&self, out: &mut Vec<u8>)
        requires
            valid_utf8(old(out)@),
        ensures
            final(out)@ == old(out)@ + part_text(self@),
            valid_utf8(final(out)@),
    {
        let mut b = new_text();
        push_text(&mut b, "#EXT-X-PART:URI=\"");
        proof {
            assert(b@ =~= "#EXT-X-PART:URI=\"".spec_bytes());
        }
        push_uri(&mut b, &self.uri);
        push_text(&mut b, "\"");
        push_text(&mut b, ",DURATION=");
        push_text(&mut b, self.duration.as_str());
        append_text(&mut b, self.independent_text());
        append_text(&mut b, self.byte_range_attr());
        append_text(&mut b, self.gap_attr());
        push_text(&mut b, "\n");
        append_text(out, b);
    }
}

/// A buffer holding the line `t` where `o` holds, given the buffer `l` of `t` alone.
fn line_if_text(o: bool, l: Vec<u8>) -> (r: Vec<u8>)
    requires
        valid_utf8(l@),
    ensures
        r@ == line_if(o, l@),
        valid_utf8(r@),
{
    if o {
        let mut r = l;
        push_text(&mut r, "\n");
        r
    } else {
        new_text()
    }
}

impl MediaSegment {
    fn byte_range_line(&self) -> (r: Vec<u8>)
        ensures
            r@ == line_if(self@.byte_range is Some, byte_range_text(self@.byte_range->0)),
            valid_utf8(r@),
    {
        let mut l = new_text();
        if let Some(b) = &self.byte_range {
            b.push_text(&mut l);
            proof {
                assert(l@ =~= byte_range_text(*b));
            }
        }
        line_if_text(self.byte_range.is_some(), l)
    }

    fn key_line(&self) -> (r: Vec<u8>)
        ensures
            r@ == line_if(self@.key is Some, key_text(self@.key->0)),
            valid_utf8(r@),
    {
        let mut l = new_text();
        if let Some(k) = &self.key {
            k.push_text(&mut l);
            proof {
                assert(l@ =~= key_text(k@));
            }
        }
        line_if_text(self.key.is_some(), l)
    }

    fn map_line(&self) -> (r: Vec<u8>)
        ensures
            r@ == line_if(self@.map is Some, map_text(self@.map->0)),
            valid_utf8(r@),
    {
        let mut l = new_text();
        if let Some(m) = &self.map {
            m.push_text(&mut l);
            proof {
                assert(l@ =~= map_text(m@));
            }
        }
        line_if_text(self.map.is_some(), l)
    }

    fn date_line(&self) -> (r: Vec<u8>)
        ensures
            r@ == line_if(
                self@.program_date_time is Some,
                "#EXT-X-PROGRAM-DATE-TIME:".spec_bytes() + datetime_text(self@.program_date_time->0),
            ),
            valid_utf8(r@),
    {
        let mut l = new_text();
        if let Some(d) = self.program_date_time {
            push_text(&mut l, "#EXT-X-PROGRAM-DATE-TIME:");
            proof {
                assert(l@ =~= "#EXT-X-PROGRAM-DATE-TIME:".spec_bytes());
            }
            push_date(&mut l, d);
        }
        line_if_text(self.program_date_time.is_some(), l)
    }

    fn bitrate_line(&self) -> (r: Vec<u8>)
        ensures
            r@ == line_if(self@.bitrate is Some, "#EXT-X-BITRATE:".spec_bytes() + dec_digits(self@.bitrate->0 as nat)),
            valid_utf8(r@),
    {
        let mut l = new_text();
        if let Some(b) = self.bitrate {
            push_text(&mut l, "#EXT-X-BITRATE:");
            proof {
                assert(l@ =~= "#EXT-X-BITRATE:".spec_bytes());
            }
            push_number(&mut l, b);
        }
        line_if_text(self.bitrate.is_some(), l)
    }

    fn part_line(&self) -> (r: Vec<u8>)
        ensures
            r@ == line_if(self@.part is Some, part_text(self@.part->0)),
            valid_utf8(r@),
    {
        let mut l = new_text();
        if let Some(p) = &self.part {
            p.push_text(&mut l);
            proof {
                assert(l@ =~= part_text(p@));
            }
        }
        line_if_text(self.part.is_some(), l)
    }

    fn flag_line(o: bool, t: &str) -> (r: Vec<u8>)
        ensures
            r@ == line_if(o, t.spec_bytes()),
            valid_utf8(r@),
    {
        let mut l = new_text();
        push_text(&mut l, t);
        proof {
            assert(l@ =~= t.spec_bytes());
        }
        line_if_text(o, l)
    }

    /// Appends the lines of the segment's tags; see `segment_tag_lines`.
    fn push_tag_lines(&self, out: &mut Vec<u8>)
        requires
            valid_utf8(old(out)@),
        ensures
            final(out)@ == old(out)@ + segment_tag_lines(self@),
            valid_utf8(final(out)@),
    {
        let mut t = self.byte_range_line();
        append_text(&mut t, Self::flag_line(self.discontinuity, "#EXT-X-DISCONTINUITY"));
        append_text(&mut t, self.key_line());
        append_text(&mut t, self.map_line());
        append_text(&mut t, self.date_line());
        append_text(&mut t, Self::flag_line(self.gap, "#EXT-X-GAP"));
        append_text(&mut t, self.bitrate_line());
        append_text(&mut t, self.part_line());
        append_text(out, t);
    }

    /// Appends the segment's lines; see `segment_text`.
    pub fn push_text(&self, out: &mut Vec<u8>)
        requires
            valid_utf8(old(out)@),
        ensures
            final(out)@ == old(out)@ + segment_text(self@),
            valid_utf8(final(out)@),
    {
        let mut b = new_text();
        self.duration.push_text(&mut b);
        let ghost p0 = b@;
        match &self.title {
            Some(t) => {
                push_text(&mut b, ",");
                push_text(&mut b, t.as_str());
            },
            None => {},
        }
        push_text(&mut b, "\n");
        proof {
            assert(b@ =~= extinf_line(self@));
        }
        self.push_tag_lines(&mut b);
        let ghost p2 = b@;
        push_uri(&mut b, &self.uri);
        push_text(&mut b, "\n");
        proof {
            assert(b@ =~= p2 + line(render_spec(self@.uri)));
        }
        append_text(out, b);
    }

    /// The segment's lines; see `segment_text`.
    pub fn to_string(&self) -> (r: String)
        ensures
            utf8(r@) == segment_text(self@),
    {
        let mut out: Vec<u8> = Vec::new();
        proof {
            lemma_ascii_valid(out@);
        }
        self.push_text(&mut out);
        proof {
            assert(out@ =~= segment_text(self@));
        }
        finish_text(out)
    }
}


/* Shared and media tags */

/// The attributes of an `EXT-X-DEFINE` tag.
pub open spec fn var_def_text(v: VarDefV) -> Seq<u8> {
    match v {
        VarDefV::NameValue { name, value } => "NAME=\"".spec_bytes() + name + "\",VALUE=\"".spec_bytes() + value
            + "\"".spec_bytes(),
        VarDefV::Import { name } => "IMPORT=\"".spec_bytes() + name + "\"".spec_bytes(),
        VarDefV::QueryParam { name, .. } => "QUERYPARAM=\"".spec_bytes() + name + "\"".spec_bytes(),
    }
}

/// A shared tag: the start tag writes `PRECISE` as `true` or `false`, before `TIME-OFFSET`.
pub open spec fn shared_tag_text(t: SharedTagV) -> Seq<u8> {
    match t {
        SharedTagV::Version(v) => "#EXT-X-VERSION:".spec_bytes() + dec_digits(v as nat),
        SharedTagV::IndependentSegments => "#EXT-X-INDEPENDENT-SEGMENTS".spec_bytes(),
        SharedTagV::Start { precise, time_offset } => "#EXT-X-START:PRECISE=".spec_bytes() + bool_text(precise)
            + ",TIME-OFFSET=".spec_bytes() + time_offset,
        SharedTagV::Variable(v) => "#EXT-X-DEFINE:".spec_bytes() + var_def_text(v),
    }
}

/// `VOD` or `EVENT`.
pub open spec fn playlist_type_text(t: PlayListType) -> Seq<u8> {
    match t {
        PlayListType::Vod => "VOD".spec_bytes(),
        PlayListType::Event => "EVENT".spec_bytes(),
    }
}

/// `prefix` and the text, where there is one.
pub open spec fn opt_attr(o: Option<Seq<u8>>, prefix: Seq<u8>) -> Seq<u8> {
    match o {
        Some(t) => prefix + t,
        None => Seq::empty(),
    }
}

/// The attributes of `EXT-X-SERVER-CONTROL`, each where it is given.
pub open spec fn server_control_text(c: ServerControlV) -> Seq<u8> {
    opt_attr(c.can_skip_until, "CAN-SKIP-UNTIL=".spec_bytes()) + (match c.can_skip_dateranges {
        Some(b) => ",CAN-SKIP-DATERANGES=".spec_bytes() + bool_text(b),
        None => Seq::empty(),
    }) + opt_attr(c.hold_back, ",HOLD-BACK=".spec_bytes()) + opt_attr(c.part_hold_back, ",PART-HOLD-BACK=".spec_bytes())
        + (if c.can_block_reload {
        ",CAN-BLOCK-RELOAD".spec_bytes()
    } else {
        Seq::empty()
    })
}

/// A media tag.
pub open spec fn media_tag_text(t: MediaTagV) -> Seq<u8> {
    match t {
        MediaTagV::TargetDuration(d) => "#EXT-X-TARGETDURATION:".spec_bytes() + dec_digits(d as nat),
        MediaTagV::MediaSequence(n) => "#EXT-X-MEDIA-SEQUENCE:".spec_bytes() + dec_digits(n as nat),
        MediaTagV::DiscontinuitySequence(n) => "#EXT-X-DISCONTINUITY-SEQUENCE:".spec_bytes() + dec_digits(n as nat),
        MediaTagV::EndList => "#EXT-X-ENDLIST".spec_bytes(),
        MediaTagV::PlaylistType(p) => "#EXT-X-PLAYLIST-TYPE:".spec_bytes() + playlist_type_text(p),
        MediaTagV::IFramesOnly => "#EXT-X-I-FRAMES-ONLY".spec_bytes(),
        MediaTagV::PartInf { part_target } => "#EXT-X-PART-INF:PART-TARGET=".spec_bytes() + part_target,
        MediaTagV::ServerControl(c) => "#EXT-X-SERVER-CONTROL:".spec_bytes() + server_control_text(c),
    }
}

fn push_opt_decimal(out: &mut Vec<u8>, o: &Option<crate::decimal::DecimalFloat>, prefix: &str)
    requires
        valid_utf8(old(out)@),
    ensures
        final(out)@ == old(out)@ + opt_attr(crate::playlist::opt_decimal_view(*o), prefix.spec_bytes()),
        valid_utf8(final(out)@),
{
    let ghost o0 = out@;
    match o {
        Some(d) => {
            push_text(out, prefix);
            push_text(out, d.as_str());
            proof {
                assert(out@ =~= o0 + (prefix.spec_bytes() + d@));
            }
        },
        None => {
            proof {
                assert(out@ =~= o0 + Seq::<u8>::empty());
            }
        },
    }
}

impl PlayListVariableDefinition {
    /// Appends the attributes of the definition; see `var_def_text`.
    pub fn push_text(&self, out: &mut Vec<u8>)
        requires
            valid_utf8(old(out)@),
        ensures
            final(out)@ == old(out)@ + var_def_text(self@),
            valid_utf8(final(out)@),
    {
        let mut b = new_text();
        match self {
            PlayListVariableDefinition::NameValue { name, value } => {
                push_text(&mut b, "NAME=\"");
                proof {
                    assert(b@ =~= "NAME=\"".spec_bytes());
                }
                push_text(&mut b, name.as_str());
                push_text(&mut b, "\",VALUE=\"");
                push_text(&mut b, value.as_str());
                push_text(&mut b, "\"");
            },
            PlayListVariableDefinition::Import { name } => {
                push_text(&mut b, "IMPORT=\"");
                proof {
                    assert(b@ =~= "IMPORT=\"".spec_bytes());
                }
                push_text(&mut b, name.as_str());
                push_text(&mut b, "\"");
            },
            PlayListVariableDefinition::QueryParam { name, .. } => {
                push_text(&mut b, "QUERYPARAM=\"");
                proof {
                    assert(b@ =~= "QUERYPARAM=\"".spec_bytes());
                }
                push_text(&mut b, name.as_str());
                push_text(&mut b, "\"");
            },
        }
        append_text(out, b);
    }
}

impl SharedTag {
    /// Appends the tag; see `shared_tag_text`.
    pub fn push_text(&self, out: &mut Vec<u8>)
        requires
            valid_utf8(old(out)@),
        ensures
            final(out)@ == old(out)@ + shared_tag_text(self@),
            valid_utf8(final(out)@),
    {
        let mut b = new_text();
        match self {
            SharedTag::Version(v) => {
                push_text(&mut b, "#EXT-X-VERSION:");
                proof {
                    assert(b@ =~= "#EXT-X-VERSION:".spec_bytes());
                }
                push_number(&mut b, *v as u64);
            },
            SharedTag::IndependentSegments => {
                push_text(&mut b, "#EXT-X-INDEPENDENT-SEGMENTS");
                proof {
                    assert(b@ =~= "#EXT-X-INDEPENDENT-SEGMENTS".spec_bytes());
                }
            },
            SharedTag::Start { precise, time_offset } => {
                push_text(&mut b, "#EXT-X-START:PRECISE=");
                proof {
                    assert(b@ =~= "#EXT-X-START:PRECISE=".spec_bytes());
                }
                push_bool(&mut b, *precise);
                push_text(&mut b, ",TIME-OFFSET=");
                push_text(&mut b, time_offset.as_str());
            },
            SharedTag::Variable(v) => {
                push_text(&mut b, "#EXT-X-DEFINE:");
                proof {
                    assert(b@ =~= "#EXT-X-DEFINE:".spec_bytes());
                }
                v.push_text(&mut b);
            },
        }
        append_text(out, b);
    }

    /// The tag's text; see `shared_tag_text`.
    pub fn to_string(&self) -> (r: String)
        ensures
            utf8(r@) == shared_tag_text(self@),
    {
        let mut b = new_text();
        self.push_text(&mut b);
        proof {
            assert(b@ =~= shared_tag_text(self@));
        }
        finish_text(b)
    }
}

impl ServerControl {
    /// Appends the attributes; see `server_control_text`.
    pub fn push_text(&self, out: &mut Vec<u8>)
        requires
            valid_utf8(old(out)@),
        ensures
            final(out)@ == old(out)@ + server_control_text(self@),
            valid_utf8(final(out)@),
    {
        let mut b = new_text();
        push_opt_decimal(&mut b, &self.can_skip_until, "CAN-SKIP-UNTIL=");
        proof {
            assert(b@ =~= opt_attr(self@.can_skip_until, "CAN-SKIP-UNTIL=".spec_bytes()));
        }
        let ghost p1 = b@;
        match self.can_skip_dateranges {
            Some(v) => {
                push_text(&mut b, ",CAN-SKIP-DATERANGES=");
                push_bool(&mut b, v);
                proof {
                    assert(b@ =~= p1 + (",CAN-SKIP-DATERANGES=".spec_bytes() + bool_text(v)));
                }
            },
            None => {
                proof {
                    assert(b@ =~= p1 + Seq::<u8>::empty());
                }
            },
        }
        push_opt_decimal(&mut b, &self.hold_back, ",HOLD-BACK=");
        push_opt_decimal(&mut b, &self.part_hold_back, ",PART-HOLD-BACK=");
        let ghost p2 = b@;
        if self.can_block_reload {
            push_text(&mut b, ",CAN-BLOCK-RELOAD");
        } else {
            proof {
                assert(b@ =~= p2 + Seq::<u8>::empty());
            }
        }
        append_text(out, b);
    }
}

impl MediaExclusiveTag {
    /// Appends the tag; see `media_tag_text`.
    pub fn push_text(&self, out: &mut Vec<u8>)
        requires
            valid_utf8(old(out)@),
        ensures
            final(out)@ == old(out)@ + media_tag_text(self@),
            valid_utf8(final(out)@),
    {
        let mut b = new_text();
        match self {
            MediaExclusiveTag::TargetDuration(d) => {
                push_text(&mut b, "#EXT-X-TARGETDURATION:");
                proof {
                    assert(b@ =~= "#EXT-X-TARGETDURATION:".spec_bytes());
                }
                push_number(&mut b, *d);
            },
            MediaExclusiveTag::MediaSequence(n) => {
                push_text(&mut b, "#EXT-X-MEDIA-SEQUENCE:");
                proof {
                    assert(b@ =~= "#EXT-X-MEDIA-SEQUENCE:".spec_bytes());
                }
                push_number(&mut b, *n);
            },
            MediaExclusiveTag::DiscontinuitySequence(n) => {
                push_text(&mut b, "#EXT-X-DISCONTINUITY-SEQUENCE:");
                proof {
                    assert(b@ =~= "#EXT-X-DISCONTINUITY-SEQUENCE:".spec_bytes());
                }
                push_number(&mut b, *n);
            },
            MediaExclusiveTag::EndList => {
                push_text(&mut b, "#EXT-X-ENDLIST");
                proof {
                    assert(b@ =~= "#EXT-X-ENDLIST".spec_bytes());
                }
            },
            MediaExclusiveTag::PlaylistType(p) => {
                push_text(&mut b, "#EXT-X-PLAYLIST-TYPE:");
                proof {
                    assert(b@ =~= "#EXT-X-PLAYLIST-TYPE:".spec_bytes());
                }
                match p {
                    PlayListType::Vod => push_text(&mut b, "VOD"),
                    PlayListType::Event => push_text(&mut b, "EVENT"),
                }
            },
            MediaExclusiveTag::IFramesOnly => {
                push_text(&mut b, "#EXT-X-I-FRAMES-ONLY");
                proof {
                    assert(b@ =~= "#EXT-X-I-FRAMES-ONLY".spec_bytes());
                }
            },
            MediaExclusiveTag::PartInf { part_target } => {
                push_text(&mut b, "#EXT-X-PART-INF:PART-TARGET=");
                proof {
                    assert(b@ =~= "#EXT-X-PART-INF:PART-TARGET=".spec_bytes());
                }
                push_text(&mut b, part_target.as_str());
            },
            MediaExclusiveTag::ServerControl(c) => {
                push_text(&mut b, "#EXT-X-SERVER-CONTROL:");
                proof {
                    assert(b@ =~= "#EXT-X-SERVER-CONTROL:".spec_bytes());
                }
                c.push_text(&mut b);
            },
        }
        append_text(out, b);
    }
}


/* Metadata */

/// An `EXT-X-SKIP` tag: the skipped segment count, a line feed, then the removed date range
/// identifiers, quoted and joined by tabs.
pub open spec fn skip_text(s: SkipV) -> Seq<u8> {
    "#EXT-X-SKIP:SKIPPED-SEGMENTS=".spec_bytes() + dec_digits(s.skipped_segments as nat) + "\n".spec_bytes()
        + ",RECENTLY-REMOVED-DATERANGES=\"".spec_bytes() + join_with(s.recently_removed_dateranges, "\t".spec_bytes())
        + "\"".spec_bytes()
}

/// The `X-` attributes of a date range, each as `,<name>="<value>"`.
pub open spec fn extensions_text(e: Seq<(Seq<u8>, AttrV)>) -> Seq<u8>
    decreases e.len(),
{
    if e.len() == 0 {
        Seq::empty()
    } else {
        extensions_text(e.drop_last()) + ",".spec_bytes() + e.last().0 + "=\"".spec_bytes() + attr_text(e.last().1)
            + "\"".spec_bytes()
    }
}

/// A quoted date attribute, where there is a date.
pub open spec fn opt_date_attr(d: Option<DateTimeValue>, prefix: Seq<u8>) -> Seq<u8> {
    match d {
        Some(t) => prefix + datetime_text(t) + "\"".spec_bytes(),
        None => Seq::empty(),
    }
}

/// An `EXT-X-DATERANGE` tag: the identifier, the quoted class and start date, the cues joined
/// by commas and quoted, the quoted end date, the durations, `END-ON-NEXT=YES` where it is
/// set, and the `X-` attributes.
pub open spec fn date_range_text(d: DateRangeV) -> Seq<u8> {
    "#EXT-X-DATERANGE:ID=".spec_bytes() + d.id + (match d.class {
        Some(c) => ",CLASS=\"".spec_bytes() + c + "\"".spec_bytes(),
        None => Seq::empty(),
    }) + opt_date_attr(d.start_date, ",START-DATE=\"".spec_bytes()) + ",CUE=\"".spec_bytes() + join_with(
        d.cue.map_values(|c: Cue| cue_text(c)),
        ",".spec_bytes(),
    ) + "\"".spec_bytes() + opt_date_attr(d.end_date, ",END-DATE=\"".spec_bytes()) + opt_attr(
        d.duration,
        ",DURATION=".spec_bytes(),
    ) + opt_attr(d.planned_duration, ",PLANNED-DURATION=".spec_bytes()) + (if d.end_on_next == Some(true) {
        ",END-ON-NEXT=YES".spec_bytes()
    } else {
        Seq::empty()
    }) + extensions_text(d.extensions)
}

/// `MAP` or `PART`.
pub open spec fn hint_type_text(t: PreloadHintType) -> Seq<u8> {
    match t {
        PreloadHintType::SegmentMap => "MAP".spec_bytes(),
        PreloadHintType::Part => "PART".spec_bytes(),
    }
}

/// An `EXT-X-PRELOAD-HINT` tag.
pub open spec fn preload_hint_text(p: PreloadHintV) -> Seq<u8> {
    "#EXT-X-PRELOAD-HINT:TYPE=".spec_bytes() + hint_type_text(p.hint_type) + ",URI=\"".spec_bytes() + render_spec(p.uri)
        + "\"".spec_bytes() + ",BYTERANGE-START=".spec_bytes() + dec_digits(p.byterange_start as nat) + match p.byterange_length {
        Some(l) => ",BYTERANGE-LENGTH=".spec_bytes() + dec_digits(l as nat),
        None => Seq::empty(),
    }
}

/// An `EXT-X-RENDITION-REPORT` tag.
pub open spec fn rendition_report_text(r: RenditionReportV) -> Seq<u8> {
    "#EXT-X-RENDITION-REPORT:".spec_bytes() + "URI=\"".spec_bytes() + render_spec(r.uri) + "\"".spec_bytes()
        + ",LAST-MSN=".spec_bytes() + dec_digits(r.last_msn as nat) + match r.last_part {
        Some(p) => ",LAST-PART=".spec_bytes() + dec_digits(p as nat),
        None => Seq::empty(),
    }
}

/// A metadata tag.
pub open spec fn metadata_text(m: MediaMetadataV) -> Seq<u8> {
    match m {
        MediaMetadataV::Skip(s) => skip_text(s),
        MediaMetadataV::Daterange(d) => date_range_text(d),
        MediaMetadataV::PreloadHint(p) => preload_hint_text(p),
        MediaMetadataV::RenditionReport(r) => rendition_report_text(r),
    }
}

/// Strings joined by `sep`, appended.
fn push_joined(out: &mut Vec<u8>, parts: &Vec<String>, sep: &str)
    requires
        valid_utf8(old(out)@),
    ensures
        final(out)@ == old(out)@ + join_with(crate::attribute_list::strings_view(parts@), sep.spec_bytes()),
        valid_utf8(final(out)@),
{
    let ghost ps = crate::attribute_list::strings_view(parts@);
    let ghost o0 = out@;
    let mut i: usize = 0;
    proof {
        assert(ps.take(0) =~= Seq::<Seq<u8>>::empty());
        assert(out@ =~= o0 + join_with(ps.take(0), sep.spec_bytes()));
    }
    while i < parts.len()
        invariant
            i <= parts@.len(),
            ps == crate::attribute_list::strings_view(parts@),
            out@ == o0 + join_with(ps.take(i as int), sep.spec_bytes()),
            valid_utf8(out@),
        decreases parts.len() - i,
    {
        proof {
            assert(ps.take(i + 1).drop_last() =~= ps.take(i as int));
            assert(ps.take(i + 1).last() == utf8(parts@[i as int]@));
        }
        let ghost before = out@;
        if i > 0 {
            push_text(out, sep);
            push_text(out, parts[i].as_str());
            proof {
                assert(out@ =~= o0 + (join_with(ps.take(i as int), sep.spec_bytes()) + sep.spec_bytes() + utf8(
                    parts@[i as int]@,
                )));
            }
        } else {
            push_text(out, parts[i].as_str());
            proof {
                assert(ps.take(1) =~= seq![utf8(parts@[0]@)]);
                assert(out@ =~= o0 + utf8(parts@[0]@));
            }
        }
        i = i + 1;
    }
    proof {
        assert(ps.take(ps.len() as int) =~= ps);
    }
}

impl Skip {
    /// Appends the skip tag; see `skip_text`.
    pub fn push_text(&self, out: &mut Vec<u8>)
        requires
            valid_utf8(old(out)@),
        ensures
            final(out)@ == old(out)@ + skip_text(self@),
            valid_utf8(final(out)@),
    {
        let mut b = new_text();
        push_text(&mut b, "#EXT-X-SKIP:SKIPPED-SEGMENTS=");
        proof {
            assert(b@ =~= "#EXT-X-SKIP:SKIPPED-SEGMENTS=".spec_bytes());
        }
        push_number(&mut b, self.skipped_segments);
        push_text(&mut b, "\n");
        push_text(&mut b, ",RECENTLY-REMOVED-DATERANGES=\"");
        let mut ids = new_text();
        push_joined(&mut ids, &self.recently_removed_dateranges, "\t");
        proof {
            assert(ids@ =~= join_with(self@.recently_removed_dateranges, "\t".spec_bytes()));
        }
        append_text(&mut b, ids);
        push_text(&mut b, "\"");
        append_text(out, b);
    }
}

impl DateRange {
    fn class_attr(&self) -> (r: Vec<u8>)
        ensures
            r@ == match self@.class {
                Some(c) => ",CLASS=\"".spec_bytes() + c + "\"".spec_bytes(),
                None => Seq::<u8>::empty(),
            },
            valid_utf8(r@),
    {
        let mut l = new_text();
        if let Some(c) = &self.class {
            push_text(&mut l, ",CLASS=\"");
            proof {
                assert(l@ =~= ",CLASS=\"".spec_bytes());
            }
            push_text(&mut l, c.as_str());
            push_text(&mut l, "\"");
        }
        l
    }

    fn date_attr(d: Option<DateTimeValue>, prefix: &str) -> (r: Vec<u8>)
        ensures
            r@ == opt_date_attr(d, prefix.spec_bytes()),
            valid_utf8(r@),
    {
        let mut l = new_text();
        if let Some(t) = d {
            push_text(&mut l, prefix);
            proof {
                assert(l@ =~= prefix.spec_bytes());
            }
            push_date(&mut l, t);
            push_text(&mut l, "\"");
        }
        l
    }

    fn cue_list(&self) -> (r: Vec<u8>)
        ensures
            r@ == join_with(self@.cue.map_values(|c: Cue| cue_text(c)), ",".spec_bytes()),
            valid_utf8(r@),
    {
        let ghost ps = self@.cue.map_values(|c: Cue| cue_text(c));
        let mut l = new_text();
        let mut i: usize = 0;
        proof {
            assert(ps.take(0) =~= Seq::<Seq<u8>>::empty());
            assert(l@ =~= join_with(ps.take(0), ",".spec_bytes()));
        }
        while i < self.cue.len()
            invariant
                i <= self.cue@.len(),
                ps == self@.cue.map_values(|c: Cue| cue_text(c)),
                l@ == join_with(ps.take(i as int), ",".spec_bytes()),
                valid_utf8(l@),
            decreases self.cue.len() - i,
        {
            proof {
                assert(ps.take(i + 1).drop_last() =~= ps.take(i as int));
                assert(ps.take(i + 1).last() == cue_text(self.cue@[i as int]));
            }
            if i > 0 {
                push_text(&mut l, ",");
                push_text(&mut l, self.cue[i].as_str());
                proof {
                    assert(l@ =~= join_with(ps.take(i as int), ",".spec_bytes()) + ",".spec_bytes() + cue_text(
                        self.cue@[i as int],
                    ));
                }
            } else {
                push_text(&mut l, self.cue[i].as_str());
                proof {
                    assert(ps.take(1) =~= seq![cue_text(self.cue@[0])]);
                    assert(l@ =~= cue_text(self.cue@[0]));
                }
            }
            i = i + 1;
        }
        proof {
            assert(ps.take(ps.len() as int) =~= ps);
        }
        l
    }

    fn end_on_next_attr(&self) -> (r: Vec<u8>)
        ensures
            r@ == (if self@.end_on_next == Some(true) {
                ",END-ON-NEXT=YES".spec_bytes()
            } else {
                Seq::<u8>::empty()
            }),
            valid_utf8(r@),
    {
        let mut l = new_text();
        if self.end_on_next == Some(true) {
            push_text(&mut l, ",END-ON-NEXT=YES");
            proof {
                assert(l@ =~= ",END-ON-NEXT=YES".spec_bytes());
            }
        }
        l
    }

    fn extension_attrs(&self) -> (r: Vec<u8>)
        ensures
            r@ == extensions_text(self@.extensions),
            valid_utf8(r@),
    {
        let ghost es = self@.extensions;
        let mut l = new_text();
        let mut i: usize = 0;
        proof {
            assert(es.take(0) =~= Seq::<(Seq<u8>, AttrV)>::empty());
        }
        while i < self.extensions.len()
            invariant
                i <= self.extensions@.len(),
                es == self@.extensions,
                l@ == extensions_text(es.take(i as int)),
                valid_utf8(l@),
            decreases self.extensions.len() - i,
        {
            proof {
                assert(es.take(i + 1).drop_last() =~= es.take(i as int));
                assert(es.take(i + 1).last() == crate::attribute_list::entry_view(self.extensions@[i as int]));
            }
            let (k, v) = &self.extensions[i];
            let vt = v.to_string();
            push_text(&mut l, ",");
            push_text(&mut l, k.as_str());
            push_text(&mut l, "=\"");
            push_text(&mut l, vt.as_str());
            push_text(&mut l, "\"");
            proof {
                assert(l@ =~= extensions_text(es.take(i + 1)));
            }
            i = i + 1;
        }
        proof {
            assert(es.take(es.len() as int) =~= es);
        }
        l
    }

    /// Appends the date range tag; see `date_range_text`.
    pub fn push_text(&self, out: &mut Vec<u8>)
        requires
            valid_utf8(old(out)@),
        ensures
            final(out)@ == old(out)@ + date_range_text(self@),
            valid_utf8(final(out)@),
    {
        let mut b = new_text();
        push_text(&mut b, "#EXT-X-DATERANGE:ID=");
        proof {
            assert(b@ =~= "#EXT-X-DATERANGE:ID=".spec_bytes());
        }
        push_text(&mut b, self.id.as_str());
        append_text(&mut b, self.class_attr());
        append_text(&mut b, Self::date_attr(self.start_date, ",START-DATE=\""));
        push_text(&mut b, ",CUE=\"");
        append_text(&mut b, self.cue_list());
        push_text(&mut b, "\"");
        append_text(&mut b, Self::date_attr(self.end_date, ",END-DATE=\""));
        let mut d = new_text();
        push_opt_decimal(&mut d, &self.duration, ",DURATION=");
        proof {
            assert(d@ =~= opt_attr(self@.duration, ",DURATION=".spec_bytes()));
        }
        append_text(&mut b, d);
        let mut pd = new_text();
        push_opt_decimal(&mut pd, &self.planned_duration, ",PLANNED-DURATION=");
        proof {
            assert(pd@ =~= opt_attr(self@.planned_duration, ",PLANNED-DURATION=".spec_bytes()));
        }
        append_text(&mut b, pd);
        append_text(&mut b, self.end_on_next_attr());
        append_text(&mut b, self.extension_attrs());
        append_text(out, b);
    }
}

impl PreloadHint {
    /// Appends the preload hint tag; see `preload_hint_text`.
    pub fn push_text(&self, out: &mut Vec<u8>)
        requires
            valid_utf8(old(out)@),
        ensures
            final(out)@ == old(out)@ + preload_hint_text(self@),
            valid_utf8(final(out)@),
    {
        let mut b = new_text();
        push_text(&mut b, "#EXT-X-PRELOAD-HINT:TYPE=");
        proof {
            assert(b@ =~= "#EXT-X-PRELOAD-HINT:TYPE=".spec_bytes());
        }
        match self.hint_type {
            PreloadHintType::SegmentMap => push_text(&mut b, "MAP"),
            PreloadHintType::Part => push_text(&mut b, "PART"),
        }
        push_text(&mut b, ",URI=\"");
        push_uri(&mut b, &self.uri);
        push_text(&mut b, "\"");
        push_text(&mut b, ",BYTERANGE-START=");
        push_number(&mut b, self.byterange_start);
        let ghost p1 = b@;
        match self.byterange_length {
            Some(l) => {
                push_text(&mut b, ",BYTERANGE-LENGTH=");
                push_number(&mut b, l);
                proof {
                    assert(b@ =~= p1 + (",BYTERANGE-LENGTH=".spec_bytes() + dec_digits(l as nat)));
                }
            },
            None => {
                proof {
                    assert(b@ =~= p1 + Seq::<u8>::empty());
                }
            },
        }
        append_text(out, b);
    }
}

impl RenditionReport {
    /// Appends the rendition report tag; see `rendition_report_text`.
    pub fn push_text(&self, out: &mut Vec<u8>)
        requires
            valid_utf8(old(out)@),
        ensures
            final(out)@ == old(out)@ + rendition_report_text(self@),
            valid_utf8(final(out)@),
    {
        let mut b = new_text();
        push_text(&mut b, "#EXT-X-RENDITION-REPORT:");
        proof {
            assert(b@ =~= "#EXT-X-RENDITION-REPORT:".spec_bytes());
        }
        push_text(&mut b, "URI=\"");
        push_uri(&mut b, &self.uri);
        push_text(&mut b, "\"");
        push_text(&mut b, ",LAST-MSN=");
        push_number(&mut b, self.last_msn);
        let ghost p1 = b@;
        match self.last_part {
            Some(l) => {
                push_text(&mut b, ",LAST-PART=");
                push_number(&mut b, l);
                proof {
                    assert(b@ =~= p1 + (",LAST-PART=".spec_bytes() + dec_digits(l as nat)));
                }
            },
            None => {
                proof {
                    assert(b@ =~= p1 + Seq::<u8>::empty());
                }
            },
        }
        append_text(out, b);
    }
}

impl MediaMetadata {
    /// Appends the metadata tag; see `metadata_text`.
    pub fn push_text(&self, out: &mut Vec<u8>)
        requires
            valid_utf8(old(out)@),
        ensures
            final(out)@ == old(out)@ + metadata_text(self@),
            valid_utf8(final(out)@),
    {
        match self {
            MediaMetadata::Skip(s) => s.push_text(out),
            MediaMetadata::Daterange(d) => d.push_text(out),
            MediaMetadata::PreloadHint(p) => p.push_text(out),
            MediaMetadata::RenditionReport(r) => r.push_text(out),
        }
    }
}

/* Playlists */

/// One item of a media playlist: a segment as its lines, a tag as a line.
pub open spec fn media_item_text(i: MediaItemV) -> Seq<u8> {
    match i {
        MediaItemV::MediaSegment(s) => segment_text(s),
        MediaItemV::SharedTag(t) => line(shared_tag_text(t)),
        MediaItemV::ExclusiveTag(t) => line(media_tag_text(t)),
        MediaItemV::Metadata(m) => line(metadata_text(m)),
    }
}

/// The items of a media playlist, one after the other.
pub open spec fn media_items_text(items: Seq<MediaItemV>) -> Seq<u8>
    decreases items.len(),
{
    if items.len() == 0 {
        Seq::empty()
    } else {
        media_items_text(items.drop_last()) + media_item_text(items.last())
    }
}

/// A playlist: `#EXTM3U` on a line of its own, then the items of the media playlist.
pub open spec fn playlist_text(items: Seq<MediaItemV>) -> Seq<u8> {
    line("#EXTM3U".spec_bytes()) + media_items_text(items)
}

impl MediaPlaylistItem {
    /// Appends the item; see `media_item_text`.
    pub fn push_text(&self, out: &mut Vec<u8>)
        requires
            valid_utf8(old(out)@),
        ensures
            final(out)@ == old(out)@ + media_item_text(self@),
            valid_utf8(final(out)@),
    {
        let ghost o0 = out@;
        match self {
            MediaPlaylistItem::MediaSegment(s) => s.push_text(out),
            MediaPlaylistItem::SharedTag(t) => {
                t.push_text(out);
                push_text(out, "\n");
                proof {
                    assert(out@ =~= o0 + line(shared_tag_text(t@)));
                }
            },
            MediaPlaylistItem::ExclusiveTag(t) => {
                t.push_text(out);
                push_text(out, "\n");
                proof {
                    assert(out@ =~= o0 + line(media_tag_text(t@)));
                }
            },
            MediaPlaylistItem::Metadata(m) => {
                m.push_text(out);
                push_text(out, "\n");
                proof {
                    assert(out@ =~= o0 + line(metadata_text(m@)));
                }
            },
        }
    }
}

impl MediaPlaylist {
    /// Appends the items; see `media_items_text`.
    pub fn push_text(&self, out: &mut Vec<u8>)
        requires
            valid_utf8(old(out)@),
        ensures
            final(out)@ == old(out)@ + media_items_text(items_view(self.items@)),
            valid_utf8(final(out)@),
    {
        let ghost iv = items_view(self.items@);
        let mut b = new_text();
        let mut i: usize = 0;
        proof {
            assert(iv.take(0) =~= Seq::<MediaItemV>::empty());
        }
        while i < self.items.len()
            invariant
                i <= self.items@.len(),
                iv == items_view(self.items@),
                b@ == media_items_text(iv.take(i as int)),
                valid_utf8(b@),
            decreases self.items.len() - i,
        {
            proof {
                assert(iv.take(i + 1).drop_last() =~= iv.take(i as int));
                assert(iv.take(i + 1).last() == self.items@[i as int]@);
            }
            self.items[i].push_text(&mut b);
            i = i + 1;
        }
        proof {
            assert(iv.take(iv.len() as int) =~= iv);
        }
        append_text(out, b);
    }
}

impl Playlist {
    /// The text of a media playlist; see `playlist_text`. A multivariant playlist has no
    /// text: it is outside this function's domain.
    pub fn to_string(&self) -> (r: String)
        requires
            self is Media,
        ensures
            self@ matches PlaylistV::Media(items, _) && utf8(r@) == playlist_text(items),
    {
        let mut b = new_text();
        push_text(&mut b, "#EXTM3U");
        proof {
            assert(b@ =~= "#EXTM3U".spec_bytes());
        }
        push_text(&mut b, "\n");
        match self {
            Playlist::Media(m) => m.push_text(&mut b),
            Playlist::Multivariant(_) => {},
        }
        finish_text(b)
    }
}


/* Reading back what was written */

/// Writing a version tag and reading the line back gives the same tag.
pub proof fn law_version_tag_round_trip(v: u8, n: nat)
    ensures
        crate::playlist::shared_tag_spec(shared_tag_text(SharedTagV::Version(v)), n) == Ok::<SharedTagV, crate::error::PErr>(
            SharedTagV::Version(v),
        ),
{
    reveal(crate::playlist::shared_tag_spec);
    let p = "#EXT-X-VERSION:".spec_bytes();
    let d = dec_digits(v as nat);
    let l = p + d;
    lemma_dec_digits(v as nat);
    assert(l.subrange(0, p.len() as int) =~= p);
    assert(crate::playlist::after(l, p) =~= d);
    assert(crate::text::has_prefix(l, p));
    assert(digit_value(d[0], false) is Some);
    crate::num::lemma_fold_digits_value(d, false, 255);
    assert(crate::num::parse_uint_spec(d, false, 255) == Ok::<nat, crate::num::IntErrorKind>(v as nat));
}


/// Writing a target duration tag (of at least one second: zero is refused when read) and
/// reading the line back gives the same tag.
pub proof fn law_target_duration_round_trip(d: u64)
    requires
        d >= 1,
    ensures
        crate::media::media_tag_spec(media_tag_text(MediaTagV::TargetDuration(d))) == Ok::<MediaTagV, crate::error::PErr>(
            MediaTagV::TargetDuration(d),
        ),
{
    reveal(crate::media::media_tag_spec);
    let p = "#EXT-X-TARGETDURATION:".spec_bytes();
    let t = dec_digits(d as nat);
    let l = p + t;
    lemma_dec_digits(d as nat);
    assert(l.subrange(0, p.len() as int) =~= p);
    assert(crate::playlist::after(l, p) =~= t);
    assert(digit_value(t[0], false) is Some);
    crate::num::lemma_fold_digits_value(t, false, u64::MAX as nat);
}


proof fn lemma_sequence_prefix_is_not_target_duration()
    ensures
        "#EXT-X-MEDIA-SEQUENCE:".spec_bytes().len() == 22,
        "#EXT-X-TARGETDURATION:".spec_bytes().len() == 22,
        "#EXT-X-MEDIA-SEQUENCE:".spec_bytes()[7] != "#EXT-X-TARGETDURATION:".spec_bytes()[7],
{
    reveal_strlit("#EXT-X-MEDIA-SEQUENCE:");
    reveal_strlit("#EXT-X-TARGETDURATION:");
    crate::text::lemma_ascii_str("#EXT-X-MEDIA-SEQUENCE:");
    crate::text::lemma_ascii_str("#EXT-X-TARGETDURATION:");
}

/// Writing a media sequence tag and reading the line back gives the same tag.
pub proof fn law_media_sequence_round_trip(n: u64)
    ensures
        crate::media::media_tag_spec(media_tag_text(MediaTagV::MediaSequence(n))) == Ok::<MediaTagV, crate::error::PErr>(
            MediaTagV::MediaSequence(n),
        ),
{
    reveal(crate::media::media_tag_spec);
    lemma_sequence_prefix_is_not_target_duration();
    let p = "#EXT-X-MEDIA-SEQUENCE:".spec_bytes();
    let q = "#EXT-X-TARGETDURATION:".spec_bytes();
    let t = dec_digits(n as nat);
    let l = p + t;
    lemma_dec_digits(n as nat);
    assert(l.subrange(0, p.len() as int) =~= p);
    assert(crate::playlist::after(l, p) =~= t);
    assert(!crate::text::has_prefix(l, q)) by {
        if crate::text::has_prefix(l, q) {
            assert(l.subrange(0, q.len() as int)[7] == l[7]);
        }
    }
    assert(digit_value(t[0], false) is Some);
    crate::num::lemma_fold_digits_value(t, false, u64::MAX as nat);
}


/// The hint types by name: an `EXT-X-PRELOAD-HINT` that reads has `TYPE=MAP` exactly when it is
/// a map hint and `TYPE=PART` exactly when it is a part hint.
pub proof fn law_preload_hint_type_names(m: Seq<(Seq<u8>, AttrV)>)
    requires
        crate::playlist::preload_hint_spec(m) is Ok,
    ensures
        crate::playlist::enumerated_of(crate::attribute_list::lookup(m, "TYPE".spec_bytes())) == Some(
            "MAP".spec_bytes(),
        ) <==> crate::playlist::preload_hint_spec(m)->Ok_0.hint_type == PreloadHintType::SegmentMap,
        crate::playlist::enumerated_of(crate::attribute_list::lookup(m, "TYPE".spec_bytes())) == Some(
            "PART".spec_bytes(),
        ) <==> crate::playlist::preload_hint_spec(m)->Ok_0.hint_type == PreloadHintType::Part,
{
    reveal_strlit("MAP");
    reveal_strlit("PART");
    crate::text::lemma_ascii_str("MAP");
    crate::text::lemma_ascii_str("PART");
    assert("MAP".spec_bytes() != "PART".spec_bytes()) by {
        assert("MAP".spec_bytes().len() != "PART".spec_bytes().len());
    }
}

/// The `TYPE` a preload hint is written with reads back as that hint's type: an attribute
/// list whose `TYPE` is what the writer gives for a hint type, with a quoted `URI`, is read
/// as a hint of that type (a part hint as a part hint, a map hint as a map hint).
pub proof fn law_preload_hint_type_round_trip(t: PreloadHintType, m: Seq<(Seq<u8>, AttrV)>)
    requires
        crate::attribute_list::lookup(m, "TYPE".spec_bytes()) == Some(AttrV::EnumeratedString(hint_type_text(t))),
        crate::playlist::quoted_of(crate::attribute_list::lookup(m, "URI".spec_bytes())) is Some,
    ensures
        crate::playlist::preload_hint_spec(m) matches Ok(h) && h.hint_type == t,
{
    reveal_strlit("MAP");
    reveal_strlit("PART");
    crate::text::lemma_ascii_str("MAP");
    crate::text::lemma_ascii_str("PART");
    assert("MAP".spec_bytes() != "PART".spec_bytes()) by {
        assert("MAP".spec_bytes().len() != "PART".spec_bytes().len());
    }
}

/// The line a preload hint is written as names its type right after `TYPE=`, with the name
/// that `law_preload_hint_type_round_trip` reads back as that type.
pub proof fn law_preload_hint_line_type(p: PreloadHintV)
    ensures
        crate::text::has_prefix(
            preload_hint_text(p),
            "#EXT-X-PRELOAD-HINT:TYPE=".spec_bytes() + hint_type_text(p.hint_type),
        ),
{
    let pre = "#EXT-X-PRELOAD-HINT:TYPE=".spec_bytes() + hint_type_text(p.hint_type);
    let x = preload_hint_text(p);
    assert(x.subrange(0, pre.len() as int) =~= pre);
}
} // verus!
