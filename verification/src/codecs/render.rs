//! Rendering of codecs back to codec strings.
use vstd::prelude::*;
use vstd::string::*;
use vstd::utf8::*;
use crate::codecs::fourcc::{Fourcc, fourcc_bytes};
use crate::codecs::{
    Codec, CodecV, DolbyVision, Hevc, HevcTier, SupplementalCodecEntry, SupplementalCodecEntryV,
    Vp9, avc_hex_codes, chroma_number, dolby_fourcc, hevc_profile_idc, strings_bytes,
    vp9_profile_number,
};
use crate::num::{
    dec_digits, hex_digits, lemma_dec_digits, lemma_hex_digits, push_dec, push_dec_padded,
    push_hex_padded, zero_pad,
};
use crate::text::{push_str, string_of_bytes, utf8};
use crate::uri::lemma_ascii_valid;

verus! {

broadcast use vstd::utf8::group_utf8_lib;

/// The UTF-8 text of a byte read as a Latin-1 character (as `b as char` prints).
pub open spec fn latin1(b: u8) -> Seq<u8> {
    encode_scalar(b as u32)
}

/// The text of a four-character code: each byte as a Latin-1 character.
pub open spec fn fourcc_text(f: Fourcc) -> Seq<u8> {
    let b = fourcc_bytes(f);
    latin1(b[0]) + latin1(b[1]) + latin1(b[2]) + latin1(b[3])
}

/// `.` followed by `s`.
pub open spec fn dot(s: Seq<u8>) -> Seq<u8> {
    seq![0x2eu8] + s
}

/// Two lowercase hexadecimal digits at least.
pub open spec fn hex2(n: nat) -> Seq<u8> {
    zero_pad(hex_digits(n), 2)
}

/// Two decimal digits at least.
pub open spec fn dec2(n: nat) -> Seq<u8> {
    zero_pad(dec_digits(n), 2)
}

/// The level byte of an HEVC codec: the level with bit 7 set for the high tier.
pub open spec fn hevc_level_byte(h: Hevc) -> u8 {
    if h.tier == HevcTier::High && h.level < 0x80 {
        (h.level + 0x80) as u8
    } else {
        h.level
    }
}

/// Pieces joined by `sep`.
pub open spec fn join(parts: Seq<Seq<u8>>, sep: u8) -> Seq<u8>
    decreases parts.len(),
{
    if parts.len() == 0 {
        Seq::empty()
    } else if parts.len() == 1 {
        parts[0]
    } else {
        join(parts.drop_last(), sep) + seq![sep] + parts.last()
    }
}

/// The codec string of a codec.
pub open spec fn codec_text(c: CodecV) -> Seq<u8> {
    match c {
        CodecV::Mp4a(m) => seq![0x6du8, 0x70, 0x34, 0x61] + dot(hex2(m.oti as nat)) + match m.audio_object_type {
            Some(a) => dot(dec_digits(a as nat)),
            None => Seq::empty(),
        },
        CodecV::Mp4v(m) => seq![0x6du8, 0x70, 0x34, 0x76] + dot(hex2(m.oti as nat)) + match m.profile_level_indication {
            Some(a) => dot(dec_digits(a as nat)),
            None => Seq::empty(),
        },
        CodecV::Avc(a) => fourcc_text(a.fourcc) + dot(
            hex2(avc_hex_codes(a.profile).0 as nat) + hex2(avc_hex_codes(a.profile).1 as nat) + hex2(
                a.level as nat,
            ),
        ),
        CodecV::Hevc(h) => fourcc_text(h.fourcc) + dot(hex2(hevc_profile_idc(h.profile) as nat))
            + dot(hex2(hevc_level_byte(h) as nat)) + match h.constraint {
            Some((f, v)) => dot(fourcc_text(f)) + dot(zero_pad(hex_digits(v as nat), 8)),
            None => Seq::empty(),
        },
        CodecV::Vp9(v) => seq![0x76u8, 0x70, 0x30, 0x39] + dot(dec2(vp9_profile_number(v.profile) as nat))
            + dot(dec2(v.level as nat)) + dot(dec2(v.bit_depth as nat)) + dot(
            dec2(chroma_number(v.chroma) as nat),
        ),
        CodecV::DolbyVision(d) => fourcc_text(dolby_fourcc(d.base)) + dot(dec2(d.profile as nat))
            + dot(dec2(d.level as nat)),
        CodecV::Unknown(parts) => join(parts, 0x2e),
    }
}

pub(crate) proof fn lemma_latin1(b: u8)
    ensures
        latin1(b) == (if b < 0x80 {
            seq![b]
        } else {
            seq![0xc0u8 | (b >> 6u8), 0x80u8 | (b & 0x3fu8)]
        }),
        valid_utf8(latin1(b)),
{
    let c = b as u32;
    if b < 0x80 {
        assert((c & 0x7F) as u8 == b) by (bit_vector)
            requires
                c == b as u32,
                b < 0x80,
        ;
        assert(latin1(b) =~= seq![b]);
        lemma_ascii_valid(seq![b]);
    } else {
        assert(0xC0 | ((c >> 6) & 0x1F) as u8 == 0xc0u8 | (b >> 6u8) && 0x80 | (c & 0x3F) as u8
            == 0x80u8 | (b & 0x3fu8)) by (bit_vector)
            requires
                c == b as u32,
        ;
        assert(latin1(b) =~= seq![0xc0u8 | (b >> 6u8), 0x80u8 | (b & 0x3fu8)]);
        let ch = b as char;
        assert(ch as u32 == c);
        encode_utf8_valid_utf8(seq![ch]);
        assert(seq![ch].drop_first() =~= Seq::<char>::empty());
        assert(encode_utf8(Seq::<char>::empty()) =~= Seq::<u8>::empty());
        assert(encode_utf8(seq![ch]) == encode_scalar(seq![ch][0] as u32) + encode_utf8(
            seq![ch].drop_first(),
        ));
        assert(encode_utf8(seq![ch]) =~= latin1(b));
    }
}

/// Appends the UTF-8 text of a byte read as a Latin-1 character.
fn push_latin1(out: &mut Vec<u8>, b: u8)
    ensures
        final(out)@ == old(out)@ + latin1(b),
{
    proof {
        lemma_latin1(b);
    }
    if b < 0x80 {
        out.push(b);
    } else {
        out.push(0xc0u8 | (b >> 6u8));
        out.push(0x80u8 | (b & 0x3fu8));
    }
    proof {
        assert(final(out)@ =~= old(out)@ + latin1(b));
    }
}

/// Appends the text of a four-character code.
pub fn push_fourcc(out: &mut Vec<u8>, f: Fourcc)
    ensures
        final(out)@ == old(out)@ + fourcc_text(f),
{
    let b = f.to_bytes();
    let ghost o = out@;
    push_latin1(out, b[0]);
    push_latin1(out, b[1]);
    push_latin1(out, b[2]);
    push_latin1(out, b[3]);
    proof {
        assert(out@ =~= o + fourcc_text(f));
    }
}

pub proof fn lemma_fourcc_text_valid(f: Fourcc)
    ensures
        valid_utf8(fourcc_text(f)),
{
    let b = fourcc_bytes(f);
    lemma_latin1(b[0]);
    lemma_latin1(b[1]);
    lemma_latin1(b[2]);
    lemma_latin1(b[3]);
    valid_utf8_concat(latin1(b[0]), latin1(b[1]));
    valid_utf8_concat(latin1(b[0]) + latin1(b[1]), latin1(b[2]));
    valid_utf8_concat(latin1(b[0]) + latin1(b[1]) + latin1(b[2]), latin1(b[3]));
}

/// Every byte is ASCII.
pub open spec fn all_ascii(s: Seq<u8>) -> bool {
    forall|k: int| 0 <= k < s.len() ==> s[k] < 0x80
}

proof fn lemma_ascii_concat(a: Seq<u8>, b: Seq<u8>)
    requires
        all_ascii(a),
        all_ascii(b),
    ensures
        all_ascii(a + b),
{
    assert forall|k: int| 0 <= k < (a + b).len() implies (a + b)[k] < 0x80 by {
        if k >= a.len() {
            assert((a + b)[k] == b[k - a.len()]);
        }
    }
}

proof fn lemma_digits_ascii(n: nat, w: nat, hex: bool)
    ensures
        all_ascii(zero_pad(if hex {
            hex_digits(n)
        } else {
            dec_digits(n)
        }, w)),
        all_ascii(if hex {
            hex_digits(n)
        } else {
            dec_digits(n)
        }),
{
    lemma_dec_digits(n);
    lemma_hex_digits(n);
    let d = if hex {
        hex_digits(n)
    } else {
        dec_digits(n)
    };
    if d.len() < w {
        let z = Seq::new((w - d.len()) as nat, |i: int| 0x30u8);
        lemma_ascii_concat(z, d);
    }
}

proof fn lemma_join_valid(parts: Seq<Seq<u8>>)
    requires
        forall|k: int| 0 <= k < parts.len() ==> valid_utf8(#[trigger] parts[k]),
    ensures
        valid_utf8(join(parts, 0x2e)),
    decreases parts.len(),
{
    if parts.len() == 0 {
    } else if parts.len() == 1 {
        assert(valid_utf8(parts[0]));
    } else {
        lemma_join_valid(parts.drop_last());
        lemma_ascii_valid(seq![0x2eu8]);
        assert(valid_utf8(parts[parts.len() - 1]));
        valid_utf8_concat(join(parts.drop_last(), 0x2e), seq![0x2eu8]);
        valid_utf8_concat(join(parts.drop_last(), 0x2e) + seq![0x2eu8], parts.last());
    }
}

/// Appends pieces joined by `.`.
fn push_join(out: &mut Vec<u8>, parts: &Vec<String>)
    ensures
        final(out)@ == old(out)@ + join(strings_bytes(parts@), 0x2e),
{
    let ghost o = out@;
    let ghost ps = strings_bytes(parts@);
    let mut i: usize = 0;
    while i < parts.len()
        invariant
            i <= parts@.len(),
            ps == strings_bytes(parts@),
            out@ == o + join(ps.subrange(0, i as int), 0x2e),
        decreases parts.len() - i,
    {
        let ghost before = out@;
        if i > 0 {
            out.push(0x2e);
        }
        push_str(out, parts[i].as_str());
        proof {
            let sub = ps.subrange(0, i + 1);
            assert(sub.drop_last() =~= ps.subrange(0, i as int));
            assert(sub.last() == utf8(parts@[i as int]@));
            if i == 0 {
                assert(join(sub, 0x2e) == sub[0]);
                assert(out@ =~= o + join(sub, 0x2e));
            } else {
                assert(out@ =~= o + join(sub, 0x2e));
            }
        }
        i = i + 1;
    }
    proof {
        assert(ps.subrange(0, parts@.len() as int) =~= ps);
    }
}

proof fn lemma_codec_text_valid(c: CodecV)
    requires
        c matches CodecV::Unknown(parts) ==> forall|k: int|
            0 <= k < parts.len() ==> valid_utf8(#[trigger] parts[k]),
    ensures
        valid_utf8(codec_text(c)),
{
    let t = codec_text(c);
    let d = seq![0x2eu8];
    assert(all_ascii(d));
    match c {
        CodecV::Unknown(parts) => {
            lemma_join_valid(parts);
        },
        CodecV::Mp4a(m) => {
            let k = seq![0x6du8, 0x70, 0x34, 0x61];
            lemma_digits_ascii(m.oti as nat, 2, true);
            lemma_ascii_concat(d, hex2(m.oti as nat));
            lemma_ascii_concat(k, dot(hex2(m.oti as nat)));
            let tail = match m.audio_object_type {
                Some(a) => dot(dec_digits(a as nat)),
                None => Seq::<u8>::empty(),
            };
            match m.audio_object_type {
                Some(a) => {
                    lemma_digits_ascii(a as nat, 0, false);
                    lemma_ascii_concat(d, dec_digits(a as nat));
                },
                None => {},
            }
            lemma_ascii_concat(k + dot(hex2(m.oti as nat)), tail);
            lemma_ascii_valid(t);
        },
        CodecV::Mp4v(m) => {
            let k = seq![0x6du8, 0x70, 0x34, 0x76];
            lemma_digits_ascii(m.oti as nat, 2, true);
            lemma_ascii_concat(d, hex2(m.oti as nat));
            lemma_ascii_concat(k, dot(hex2(m.oti as nat)));
            let tail = match m.profile_level_indication {
                Some(a) => dot(dec_digits(a as nat)),
                None => Seq::<u8>::empty(),
            };
            match m.profile_level_indication {
                Some(a) => {
                    lemma_digits_ascii(a as nat, 0, false);
                    lemma_ascii_concat(d, dec_digits(a as nat));
                },
                None => {},
            }
            lemma_ascii_concat(k + dot(hex2(m.oti as nat)), tail);
            lemma_ascii_valid(t);
        },
        CodecV::Avc(a) => {
            let p = hex2(avc_hex_codes(a.profile).0 as nat);
            let q = hex2(avc_hex_codes(a.profile).1 as nat);
            let l = hex2(a.level as nat);
            lemma_digits_ascii(avc_hex_codes(a.profile).0 as nat, 2, true);
            lemma_digits_ascii(avc_hex_codes(a.profile).1 as nat, 2, true);
            lemma_digits_ascii(a.level as nat, 2, true);
            lemma_ascii_concat(p, q);
            lemma_ascii_concat(p + q, l);
            lemma_ascii_concat(d, p + q + l);
            lemma_ascii_valid(dot(p + q + l));
            lemma_fourcc_text_valid(a.fourcc);
            valid_utf8_concat(fourcc_text(a.fourcc), dot(p + q + l));
        },
        CodecV::Hevc(h) => {
            let p = hex2(hevc_profile_idc(h.profile) as nat);
            let l = hex2(hevc_level_byte(h) as nat);
            lemma_digits_ascii(hevc_profile_idc(h.profile) as nat, 2, true);
            lemma_digits_ascii(hevc_level_byte(h) as nat, 2, true);
            lemma_ascii_concat(d, p);
            lemma_ascii_concat(d, l);
            lemma_ascii_valid(dot(p));
            lemma_ascii_valid(dot(l));
            lemma_fourcc_text_valid(h.fourcc);
            valid_utf8_concat(fourcc_text(h.fourcc), dot(p));
            valid_utf8_concat(fourcc_text(h.fourcc) + dot(p), dot(l));
            let tail = match h.constraint {
                Some((f, v)) => dot(fourcc_text(f)) + dot(zero_pad(hex_digits(v as nat), 8)),
                None => Seq::<u8>::empty(),
            };
            match h.constraint {
                Some((f, v)) => {
                    lemma_digits_ascii(v as nat, 8, true);
                    lemma_ascii_concat(d, zero_pad(hex_digits(v as nat), 8));
                    lemma_ascii_valid(dot(zero_pad(hex_digits(v as nat), 8)));
                    lemma_fourcc_text_valid(f);
                    lemma_ascii_valid(d);
                    valid_utf8_concat(d, fourcc_text(f));
                    valid_utf8_concat(dot(fourcc_text(f)), dot(zero_pad(hex_digits(v as nat), 8)));
                },
                None => {},
            }
            valid_utf8_concat(fourcc_text(h.fourcc) + dot(p) + dot(l), tail);
        },
        CodecV::Vp9(v) => {
            let k = seq![0x76u8, 0x70, 0x30, 0x39];
            let a = dec2(vp9_profile_number(v.profile) as nat);
            let b = dec2(v.level as nat);
            let c2 = dec2(v.bit_depth as nat);
            let e = dec2(chroma_number(v.chroma) as nat);
            lemma_digits_ascii(vp9_profile_number(v.profile) as nat, 2, false);
            lemma_digits_ascii(v.level as nat, 2, false);
            lemma_digits_ascii(v.bit_depth as nat, 2, false);
            lemma_digits_ascii(chroma_number(v.chroma) as nat, 2, false);
            lemma_ascii_concat(d, a);
            lemma_ascii_concat(d, b);
            lemma_ascii_concat(d, c2);
            lemma_ascii_concat(d, e);
            lemma_ascii_concat(k, dot(a));
            lemma_ascii_concat(k + dot(a), dot(b));
            lemma_ascii_concat(k + dot(a) + dot(b), dot(c2));
            lemma_ascii_concat(k + dot(a) + dot(b) + dot(c2), dot(e));
            lemma_ascii_valid(t);
        },
        CodecV::DolbyVision(dv) => {
            let a = dec2(dv.profile as nat);
            let b = dec2(dv.level as nat);
            lemma_digits_ascii(dv.profile as nat, 2, false);
            lemma_digits_ascii(dv.level as nat, 2, false);
            lemma_ascii_concat(d, a);
            lemma_ascii_concat(d, b);
            lemma_ascii_concat(dot(a), dot(b));
            lemma_ascii_valid(dot(a) + dot(b));
            lemma_fourcc_text_valid(dolby_fourcc(dv.base));
            valid_utf8_concat(fourcc_text(dolby_fourcc(dv.base)), dot(a) + dot(b));
            assert(t =~= fourcc_text(dolby_fourcc(dv.base)) + (dot(a) + dot(b)));
        },
    }
}

fn push_mp4(out: &mut Vec<u8>, kind: u8, oti: u16, extra: Option<u16>)
    ensures
        final(out)@ == old(out)@ + seq![0x6du8, 0x70, 0x34, kind] + dot(hex2(oti as nat)) + match extra {
            Some(a) => dot(dec_digits(a as nat)),
            None => Seq::<u8>::empty(),
        },
{
    let ghost o = out@;
    out.push(0x6d);
    out.push(0x70);
    out.push(0x34);
    out.push(kind);
    out.push(0x2e);
    push_hex_padded(out, oti as u64, 2);
    let ghost m = out@;
    match extra {
        Some(a) => {
            out.push(0x2e);
            push_dec(out, a as u64);
        },
        None => {},
    }
    proof {
        assert(m =~= o + seq![0x6du8, 0x70, 0x34, kind] + dot(hex2(oti as nat)));
        assert(out@ =~= m + match extra {
            Some(a) => dot(dec_digits(a as nat)),
            None => Seq::<u8>::empty(),
        });
    }
}

fn push_avc(out: &mut Vec<u8>, a: &crate::codecs::AvcCodec)
    ensures
        final(out)@ == old(out)@ + codec_text(CodecV::Avc(*a)),
{
    let ghost o = out@;
    push_fourcc(out, a.fourcc);
    out.push(0x2e);
    let (p, c) = a.profile.hex_codes();
    push_hex_padded(out, p as u64, 2);
    push_hex_padded(out, c as u64, 2);
    push_hex_padded(out, a.level as u64, 2);
    proof {
        assert(out@ =~= o + codec_text(CodecV::Avc(*a)));
    }
}

#[verifier::spinoff_prover]
#[verifier::rlimit(40)]
fn push_hevc(out: &mut Vec<u8>, h: &Hevc)
    ensures
        final(out)@ == old(out)@ + codec_text(CodecV::Hevc(*h)),
{
    let ghost o = out@;
    push_fourcc(out, h.fourcc);
    out.push(0x2e);
    push_hex_padded(out, h.profile.profile_idc() as u64, 2);
    out.push(0x2e);
    let lb: u8 = if h.tier == HevcTier::High && h.level < 0x80 {
        h.level + 0x80
    } else {
        h.level
    };
    push_hex_padded(out, lb as u64, 2);
    let ghost m = out@;
    match h.constraint {
        Some((f, val)) => {
            out.push(0x2e);
            push_fourcc(out, f);
            out.push(0x2e);
            push_hex_padded(out, val as u64, 8);
        },
        None => {},
    }
    proof {
        assert(m =~= o + fourcc_text(h.fourcc) + dot(hex2(hevc_profile_idc(h.profile) as nat))
            + dot(hex2(hevc_level_byte(*h) as nat)));
        assert(out@ =~= o + codec_text(CodecV::Hevc(*h)));
    }
}

fn push_vp9(out: &mut Vec<u8>, p: &Vp9)
    ensures
        final(out)@ == old(out)@ + codec_text(CodecV::Vp9(*p)),
{
    let ghost o = out@;
    out.push(0x76);
    out.push(0x70);
    out.push(0x30);
    out.push(0x39);
    out.push(0x2e);
    push_dec_padded(out, p.profile.number() as u64, 2);
    out.push(0x2e);
    push_dec_padded(out, p.level as u64, 2);
    out.push(0x2e);
    push_dec_padded(out, p.bit_depth as u64, 2);
    out.push(0x2e);
    push_dec_padded(out, p.chroma.number() as u64, 2);
    proof {
        assert(out@ =~= o + codec_text(CodecV::Vp9(*p)));
    }
}

fn push_dolby(out: &mut Vec<u8>, d: &DolbyVision)
    ensures
        final(out)@ == old(out)@ + codec_text(CodecV::DolbyVision(*d)),
{
    let ghost o = out@;
    push_fourcc(out, d.base.fourcc());
    out.push(0x2e);
    push_dec_padded(out, d.profile as u64, 2);
    out.push(0x2e);
    push_dec_padded(out, d.level as u64, 2);
    proof {
        assert(out@ =~= o + codec_text(CodecV::DolbyVision(*d)));
    }
}

/// Appends the codec string of a codec.
pub fn push_codec(out: &mut Vec<u8>, c: &Codec)
    ensures
        final(out)@ == old(out)@ + codec_text(c@),
{
    match c {
        Codec::Mp4a(m) => push_mp4(out, 0x61, m.oti, m.audio_object_type),
        Codec::Mp4v(m) => push_mp4(out, 0x76, m.oti, m.profile_level_indication),
        Codec::Avc(a) => push_avc(out, a),
        Codec::Hevc(h) => push_hevc(out, h),
        Codec::Vp9(p) => push_vp9(out, p),
        Codec::DolbyVision(d) => push_dolby(out, d),
        Codec::Unknown(g) => push_join(out, &g.parts),
    }
}

/// The texts of a codec's parts are valid UTF-8.
pub proof fn lemma_codec_view_valid(c: &Codec)
    ensures
        c@ matches CodecV::Unknown(parts) ==> forall|k: int|
            0 <= k < parts.len() ==> valid_utf8(#[trigger] parts[k]),
{
    match c {
        Codec::Unknown(g) => {
            assert forall|k: int| 0 <= k < strings_bytes(g.parts@).len() implies valid_utf8(
                #[trigger] strings_bytes(g.parts@)[k],
            ) by {
                encode_utf8_valid_utf8(g.parts@[k]@);
            }
        },
        _ => {},
    }
}

/// The codec string of a codec is valid UTF-8.
pub proof fn lemma_codec_string_valid(c: &Codec)
    ensures
        valid_utf8(codec_text(c@)),
{
    lemma_codec_view_valid(c);
    lemma_codec_text_valid(c@);
}

impl Codec {
    /// The codec string of this codec.
    pub fn to_string(&self) -> (r: String)
        ensures
            utf8(r@) == codec_text(self@),
    {
        let mut v: Vec<u8> = Vec::new();
        push_codec(&mut v, self);
        proof {
            assert(v@ =~= codec_text(self@));
            lemma_codec_view_valid(self);
            lemma_codec_text_valid(self@);
        }
        string_of_bytes(v)
    }
}


impl Fourcc {
    /// The four bytes as Latin-1 characters; see `fourcc_text`.
    pub fn to_string(&self) -> (r: String)
        ensures
            utf8(r@) == fourcc_text(*self),
    {
        let mut v: Vec<u8> = Vec::new();
        push_fourcc(&mut v, *self);
        proof {
            lemma_fourcc_text_valid(*self);
            assert(v@ =~= fourcc_text(*self));
        }
        string_of_bytes(v)
    }
}

impl crate::codecs::VpChromaSubsampling {
    /// The number with two digits at least; see `dec2`.
    pub fn to_string(&self) -> (r: String)
        ensures
            utf8(r@) == dec2(chroma_number(*self) as nat),
    {
        let mut v: Vec<u8> = Vec::new();
        push_dec_padded(&mut v, self.number() as u64, 2);
        proof {
            lemma_digits_ascii(chroma_number(*self) as nat, 2, false);
            lemma_ascii_valid(v@);
        }
        string_of_bytes(v)
    }
}

} // verus!
