//! Reading a codec string back: the text a parsed codec renders to parses to that codec.
use vstd::prelude::*;
use crate::codecs::fourcc::{Fourcc, fourcc_bytes, fourcc_of_bytes, fourcc_of_spec};
use crate::codecs::fourcc::lemma_fourcc_bytes_code4;
use crate::codecs::parse::{
    avc_spec, codec_spec, dolby_spec, hevc_spec, hex_field, is_dolby_kind, is_hevc_kind,
    is_vp9_kind, kind_avc_prefix, kind_mp4a, kind_mp4v, law_avc_profile_codes_roundtrip,
    law_hevc_profile_idc_roundtrip, law_vp9_numbers_roundtrip, lemma_split_first, lower,
    mp4a_spec, mp4v_spec, vp9_spec,
};
use crate::codecs::render::{
    codec_text, dec2, dot, fourcc_text, hevc_level_byte, hex2, join, lemma_latin1,
};
use crate::codecs::{
    AvcCodec, CodecV, DolbyVision, DolbyVisionBase, Hevc, HevcTier, Mp4aCodec, Mp4vCodec, Vp9,
    avc_hex_codes, chroma_number, dolby_fourcc, hevc_profile_idc, vp9_profile_number,
};
use crate::error::CodecErr;
use crate::num::{
    IntErrorKind, dec_digits, digit_value, hex_digits, lemma_dec_digits, lemma_fold_digits_value, lemma_hex_digits, lemma_zero_pad, parse_uint_spec, zero_pad,
};
use crate::text::{contains_byte, first_at, lemma_find_none, lemma_find_some, split, split_once};

verus! {

/* Splitting what was joined */

/// A piece without the separator, the separator, then the rest: the piece comes off first.
pub(crate) proof fn lemma_split_at(a: Seq<u8>, rest: Seq<u8>, c: u8)
    requires
        !contains_byte(a, c),
    ensures
        split(a + seq![c] + rest, c) == seq![a] + split(rest, c),
        split_once(a + seq![c] + rest, c) == Some((a, rest)),
{
    let s = a + seq![c] + rest;
    let k = a.len() as int;
    assert forall|j: int| 0 <= j < k implies s[j] != c by {
        assert(s[j] == a[j]);
    }
    assert(first_at(s, c, k));
    lemma_find_some(s, c, k);
    let i = choose|i: int| first_at(s, c, i);
    assert(i == k) by {
        if i < k {
            assert(s[i] == a[i]);
        }
    }
    assert(s.subrange(0, k) =~= a);
    assert(s.subrange(k + 1, s.len() as int) =~= rest);
}

/// A piece without the separator splits into itself alone.
pub(crate) proof fn lemma_split_whole(a: Seq<u8>, c: u8)
    requires
        !contains_byte(a, c),
    ensures
        split(a, c) == seq![a],
        split_once(a, c) == None::<(Seq<u8>, Seq<u8>)>,
{
    assert forall|j: int| 0 <= j < a.len() implies a[j] != c by {}
    lemma_find_none(a, c);
    assert(!exists|i: int| first_at(a, c, i));
}

/// What `split_once` returns is the text around the first separator.
proof fn lemma_split_once_parts(s: Seq<u8>, c: u8)
    requires
        split_once(s, c) is Some,
    ensures
        split_once(s, c) matches Some((a, b)) && !contains_byte(a, c) && s == a + seq![c] + b,
{
    let i = choose|i: int| first_at(s, c, i);
    assert(exists|i: int| first_at(s, c, i));
    lemma_find_some(s, c, i);
    let (a, b) = split_once(s, c).unwrap();
    assert(s =~= a + seq![c] + b);
    assert forall|j: int| 0 <= j < a.len() implies a[j] != c by {
        assert(a[j] == s[j]);
    }
}

/// No piece of a split holds the separator.
proof fn lemma_split_pieces(s: Seq<u8>, c: u8)
    ensures
        forall|k: int| 0 <= k < split(s, c).len() ==> !contains_byte(#[trigger] split(s, c)[k], c),
    decreases s.len(),
{
    if exists|i: int| first_at(s, c, i) {
        let i = choose|i: int| first_at(s, c, i);
        let rest = s.subrange(i + 1, s.len() as int);
        lemma_split_pieces(rest, c);
        let a = s.subrange(0, i);
        assert forall|j: int| 0 <= j < a.len() implies a[j] != c by {}
        assert forall|k: int| 0 <= k < split(s, c).len() implies !contains_byte(
            #[trigger] split(s, c)[k],
            c,
        ) by {
            if k > 0 {
                assert(split(s, c)[k] == split(rest, c)[k - 1]);
            }
        }
    } else {
        assert forall|j: int| 0 <= j < s.len() implies s[j] != c by {
            if s[j] == c {
                lemma_first_exists(s, c, j);
            }
        }
    }
}

/// A text holding the separator somewhere holds a first one.
proof fn lemma_first_exists(s: Seq<u8>, c: u8, j: int)
    requires
        0 <= j < s.len(),
        s[j] == c,
    ensures
        exists|i: int| first_at(s, c, i),
    decreases j,
{
    if forall|q: int| 0 <= q < j ==> s[q] != c {
        assert(first_at(s, c, j));
    } else {
        let q = choose|q: int| 0 <= q < j && s[q] == c;
        lemma_first_exists(s, c, q);
    }
}

/// Joining a piece in front of at least one more.
proof fn lemma_join_cons(a: Seq<u8>, rest: Seq<Seq<u8>>, sep: u8)
    requires
        rest.len() >= 1,
    ensures
        join(seq![a] + rest, sep) == a + seq![sep] + join(rest, sep),
    decreases rest.len(),
{
    let l = seq![a] + rest;
    if rest.len() == 1 {
        assert(l.drop_last() =~= seq![a]);
        assert(join(seq![a], sep) == a);
        assert(l.last() == rest[0]);
        assert(join(rest, sep) == rest[0]);
        assert(join(l, sep) == join(l.drop_last(), sep) + seq![sep] + l.last());
    } else {
        lemma_join_cons(a, rest.drop_last(), sep);
        assert(l.drop_last() =~= seq![a] + rest.drop_last());
        assert(join(rest, sep) == join(rest.drop_last(), sep) + seq![sep] + rest.last());
        assert(join(l, sep) =~= a + seq![sep] + join(rest, sep));
    }
}

/// Joining the pieces of a split gives the text back.
proof fn lemma_join_split(s: Seq<u8>, c: u8)
    ensures
        join(split(s, c), c) == s,
    decreases s.len(),
{
    if exists|i: int| first_at(s, c, i) {
        let i = choose|i: int| first_at(s, c, i);
        let rest = s.subrange(i + 1, s.len() as int);
        lemma_join_split(rest, c);
        lemma_split_nonempty_at(rest, c);
        lemma_join_cons(s.subrange(0, i), split(rest, c), c);
        assert(s =~= s.subrange(0, i) + seq![c] + rest);
    }
}

proof fn lemma_split_nonempty_at(s: Seq<u8>, c: u8)
    ensures
        split(s, c).len() >= 1,
{
    crate::text::lemma_split_nonempty(s, c);
}

/* Numbers */

/// Hexadecimal digits, padded, read back as the number and hold no dot.
proof fn lemma_hex_text(n: nat, w: nat, max: nat)
    requires
        n <= max,
    ensures
        parse_uint_spec(zero_pad(hex_digits(n), w), true, max) == Ok::<nat, IntErrorKind>(n),
        !contains_byte(zero_pad(hex_digits(n), w), 0x2e),
        zero_pad(hex_digits(n), w).len() >= 1,
{
    lemma_hex_digits(n);
    lemma_zero_pad(hex_digits(n), w, true);
    let t = zero_pad(hex_digits(n), w);
    lemma_fold_digits_value(t, true, max);
    assert(digit_value(t[0], true) is Some);
    assert forall|i: int| 0 <= i < t.len() implies t[i] != 0x2e by {
        assert(digit_value(t[i], true) is Some);
    }
}

/// Decimal digits, padded, read back as the number and hold no dot.
proof fn lemma_dec_text(n: nat, w: nat, max: nat)
    requires
        n <= max,
    ensures
        parse_uint_spec(zero_pad(dec_digits(n), w), false, max) == Ok::<nat, IntErrorKind>(n),
        !contains_byte(zero_pad(dec_digits(n), w), 0x2e),
        zero_pad(dec_digits(n), w).len() >= 1,
{
    lemma_dec_digits(n);
    lemma_zero_pad(dec_digits(n), w, false);
    let t = zero_pad(dec_digits(n), w);
    lemma_fold_digits_value(t, false, max);
    assert(digit_value(t[0], false) is Some);
    assert forall|i: int| 0 <= i < t.len() implies t[i] != 0x2e by {
        assert(digit_value(t[i], false) is Some);
    }
}

/// Unpadded decimal digits, as `zero_pad` with width one leaves them.
proof fn lemma_dec_plain(n: nat, max: nat)
    requires
        n <= max,
    ensures
        parse_uint_spec(dec_digits(n), false, max) == Ok::<nat, IntErrorKind>(n),
        !contains_byte(dec_digits(n), 0x2e),
{
    lemma_dec_digits(n);
    assert(zero_pad(dec_digits(n), 1) == dec_digits(n));
    lemma_dec_text(n, 1, max);
}

/* The kinds */

proof fn lemma_mp4a_kind()
    ensures
        lower(seq![0x6du8, 0x70, 0x34, 0x61]) == seq![0x6du8, 0x70, 0x34, 0x61],
        !contains_byte(seq![0x6du8, 0x70, 0x34, 0x61], 0x2e),
{
    assert(lower(seq![0x6du8, 0x70, 0x34, 0x61]) =~= seq![0x6du8, 0x70, 0x34, 0x61]);
}

/* Each kind of codec */

/// An `mp4a` codec reads back from its text.
proof fn lemma_mp4a_round_trip(m: Mp4aCodec)
    ensures
        codec_spec(codec_text(CodecV::Mp4a(m))) == Ok::<CodecV, CodecErr>(CodecV::Mp4a(m)),
{
    let k = seq![0x6du8, 0x70, 0x34, 0x61];
    let h = hex2(m.oti as nat);
    let tail: Seq<u8> = match m.audio_object_type {
        Some(a) => dot(dec_digits(a as nat)),
        None => Seq::empty(),
    };
    let rest = h + tail;
    let t = codec_text(CodecV::Mp4a(m));
    assert(t =~= k + seq![0x2eu8] + rest);
    lemma_mp4a_kind();
    lemma_split_at(k, rest, 0x2e);
    lemma_hex_text(m.oti as nat, 2, 0xffff);
    match m.audio_object_type {
        Some(a) => {
            lemma_dec_plain(a as nat, 0xffff);
            assert(rest =~= h + seq![0x2eu8] + dec_digits(a as nat));
            lemma_split_at(h, dec_digits(a as nat), 0x2e);
        },
        None => {
            assert(rest =~= h);
            lemma_split_whole(h, 0x2e);
        },
    }
    assert(split(t, 0x2e)[0] == k);
    assert(mp4a_spec(t) == Ok::<Mp4aCodec, CodecErr>(m));
}


/// An `mp4v` codec reads back from its text.
proof fn lemma_mp4v_round_trip(m: Mp4vCodec)
    ensures
        codec_spec(codec_text(CodecV::Mp4v(m))) == Ok::<CodecV, CodecErr>(CodecV::Mp4v(m)),
{
    let k = seq![0x6du8, 0x70, 0x34, 0x76];
    let h = hex2(m.oti as nat);
    let tail: Seq<u8> = match m.profile_level_indication {
        Some(a) => dot(dec_digits(a as nat)),
        None => Seq::empty(),
    };
    let rest = h + tail;
    let t = codec_text(CodecV::Mp4v(m));
    assert(t =~= k + seq![0x2eu8] + rest);
    assert(lower(k) =~= k);
    assert(k != kind_mp4a()) by {
        assert(k[3] != kind_mp4a()[3]);
    }
    lemma_split_at(k, rest, 0x2e);
    lemma_hex_text(m.oti as nat, 2, 0xffff);
    match m.profile_level_indication {
        Some(a) => {
            lemma_dec_plain(a as nat, 0xffff);
            assert(rest =~= h + seq![0x2eu8] + dec_digits(a as nat));
            lemma_split_at(h, dec_digits(a as nat), 0x2e);
        },
        None => {
            assert(rest =~= h);
            lemma_split_whole(h, 0x2e);
        },
    }
    assert(split(t, 0x2e)[0] == k);
    assert(mp4v_spec(t) == Ok::<Mp4vCodec, CodecErr>(m));
}

/// Two hexadecimal digits exactly for a byte.
proof fn lemma_hex2_len(n: nat)
    requires
        n <= 0xff,
    ensures
        hex2(n).len() == 2,
{
    if n >= 16 {
        assert(n / 16 < 16);
        assert(hex_digits(n / 16).len() == 1);
    }
}

/// The text of a four-character code of ASCII bytes is those bytes.
proof fn lemma_ascii_fourcc(f: Seq<u8>)
    requires
        f.len() == 4,
        forall|i: int| 0 <= i < 4 ==> #[trigger] f[i] < 0x80,
    ensures
        fourcc_bytes(fourcc_of_bytes(f)) == f,
        fourcc_text(fourcc_of_bytes(f)) == f,
{
    lemma_fourcc_bytes_code4(f[0], f[1], f[2], f[3]);
    assert(f =~= seq![f[0], f[1], f[2], f[3]]);
    lemma_latin1(f[0]);
    lemma_latin1(f[1]);
    lemma_latin1(f[2]);
    lemma_latin1(f[3]);
    assert(fourcc_text(fourcc_of_bytes(f)) =~= f);
}

/// What a parse into an AVC codec knows of the kind.
proof fn lemma_avc_case(s: Seq<u8>, a: AvcCodec)
    requires
        codec_spec(s) == Ok::<CodecV, CodecErr>(CodecV::Avc(a)),
    ensures
        s.len() > 0,
        lower(split(s, 0x2e)[0]) != kind_mp4a(),
        lower(split(s, 0x2e)[0]) != kind_mp4v(),
        lower(split(s, 0x2e)[0]).len() >= 3,
        lower(split(s, 0x2e)[0]).subrange(0, 3) == kind_avc_prefix(),
        avc_spec(s) == Ok::<AvcCodec, CodecErr>(a),
{
}

/// An AVC codec parsed from `s` reads back from its text.
proof fn lemma_avc_round_trip(s: Seq<u8>, a: AvcCodec)
    requires
        codec_spec(s) == Ok::<CodecV, CodecErr>(CodecV::Avc(a)),
    ensures
        codec_spec(codec_text(CodecV::Avc(a))) == Ok::<CodecV, CodecErr>(CodecV::Avc(a)),
{
    lemma_avc_case(s, a);
    lemma_split_first(s, 0x2e);
    lemma_split_once_parts(s, 0x2e);
    let (f, h) = split_once(s, 0x2e).unwrap();
    assert(fourcc_of_spec(f) is Ok);
    lemma_ascii_fourcc(f);
    let codes = avc_hex_codes(a.profile);
    law_avc_profile_codes_roundtrip(a.profile);
    lemma_hex2_len(codes.0 as nat);
    lemma_hex2_len(codes.1 as nat);
    lemma_hex2_len(a.level as nat);
    lemma_hex_text(codes.0 as nat, 2, 0xff);
    lemma_hex_text(codes.1 as nat, 2, 0xff);
    lemma_hex_text(a.level as nat, 2, 0xff);
    let x = hex2(codes.0 as nat) + hex2(codes.1 as nat) + hex2(a.level as nat);
    assert(x.subrange(0, 2) =~= hex2(codes.0 as nat));
    assert(x.subrange(2, 4) =~= hex2(codes.1 as nat));
    assert(x.subrange(4, 6) =~= hex2(a.level as nat));
    let t = codec_text(CodecV::Avc(a));
    assert(t =~= f + seq![0x2eu8] + x);
    lemma_split_at(f, x, 0x2e);
    assert(split(t, 0x2e)[0] == f);
    assert(avc_spec(t) == Ok::<AvcCodec, CodecErr>(a));
}

/// What a parse into an HEVC codec knows of the kind.
proof fn lemma_hevc_case(s: Seq<u8>, h: Hevc)
    requires
        codec_spec(s) == Ok::<CodecV, CodecErr>(CodecV::Hevc(h)),
    ensures
        s.len() > 0,
        lower(split(s, 0x2e)[0]) != kind_mp4a(),
        lower(split(s, 0x2e)[0]) != kind_mp4v(),
        !(lower(split(s, 0x2e)[0]).len() >= 3 && lower(split(s, 0x2e)[0]).subrange(0, 3)
            == kind_avc_prefix()),
        is_hevc_kind(lower(split(s, 0x2e)[0])),
        hevc_spec(s) == Ok::<Hevc, CodecErr>(h),
{
}

/// The level byte of an HEVC codec reads back as its tier and level.
proof fn lemma_hevc_level(h: Hevc)
    requires
        h.level <= 0x7f,
    ensures
        (hevc_level_byte(h) & 0x80 != 0) == (h.tier == HevcTier::High),
        hevc_level_byte(h) & 0x7f == h.level,
{
    let l = h.level;
    if h.tier == HevcTier::High {
        assert(((l + 0x80) as u8) & 0x80 != 0 && ((l + 0x80) as u8) & 0x7f == l) by (bit_vector)
            requires
                l <= 0x7f,
        ;
    } else {
        assert(l & 0x80 == 0 && l & 0x7f == l) by (bit_vector)
            requires
                l <= 0x7f,
        ;
    }
}

/// What an HEVC parse gives: the pieces of its text.
proof fn lemma_hevc_parts(s: Seq<u8>, h: Hevc)
    requires
        hevc_spec(s) == Ok::<Hevc, CodecErr>(h),
    ensures
        split(s, 0x2e).len() >= 3,
        fourcc_of_spec(split(s, 0x2e)[0]) == Ok::<Fourcc, CodecErr>(h.fourcc),
        h.level <= 0x7f,
        h.constraint matches Some((cf, v)) ==> split(s, 0x2e).len() >= 5 && fourcc_of_spec(
            split(s, 0x2e)[3],
        ) == Ok::<Fourcc, CodecErr>(cf),
{
    let parts = split(s, 0x2e);
    let lb = hex_field(parts[2], "tier+level"@, 0xff)->Ok_0;
    let b = lb as u8;
    assert(b & 0x7f <= 0x7f) by (bit_vector);
}

/// Three pieces without dots, joined by dots, split back into them.
proof fn lemma_split3(a: Seq<u8>, b: Seq<u8>, c: Seq<u8>)
    requires
        !contains_byte(a, 0x2e),
        !contains_byte(b, 0x2e),
        !contains_byte(c, 0x2e),
    ensures
        split(a + dot(b) + dot(c), 0x2e) == seq![a, b, c],
{
    assert(a + dot(b) + dot(c) =~= a + seq![0x2eu8] + (b + seq![0x2eu8] + c));
    lemma_split_at(a, b + seq![0x2eu8] + c, 0x2e);
    lemma_split_at(b, c, 0x2e);
    lemma_split_whole(c, 0x2e);
    assert(seq![a] + (seq![b] + seq![c]) =~= seq![a, b, c]);
}

/// Five pieces without dots, joined by dots, split back into them.
proof fn lemma_split5(a: Seq<u8>, b: Seq<u8>, c: Seq<u8>, d: Seq<u8>, e: Seq<u8>)
    requires
        !contains_byte(a, 0x2e),
        !contains_byte(b, 0x2e),
        !contains_byte(c, 0x2e),
        !contains_byte(d, 0x2e),
        !contains_byte(e, 0x2e),
    ensures
        split(a + dot(b) + dot(c) + (dot(d) + dot(e)), 0x2e) == seq![a, b, c, d, e],
{
    let r = c + dot(d) + dot(e);
    lemma_split3(c, d, e);
    let w = b + seq![0x2eu8] + r;
    assert(a + dot(b) + dot(c) + (dot(d) + dot(e)) =~= a + seq![0x2eu8] + w);
    lemma_split_at(a, w, 0x2e);
    lemma_split_at(b, r, 0x2e);
    assert(seq![a] + (seq![b] + seq![c, d, e]) =~= seq![a, b, c, d, e]);
}

/// The pieces of the text of an HEVC codec.
proof fn lemma_hevc_split(h: Hevc, f: Seq<u8>, cb: Seq<u8>)
    requires
        !contains_byte(f, 0x2e),
        fourcc_text(h.fourcc) == f,
        h.constraint matches Some((cf, v)) ==> !contains_byte(cb, 0x2e) && fourcc_text(cf) == cb,
    ensures
        split(codec_text(CodecV::Hevc(h)), 0x2e) == match h.constraint {
            Some((cf, v)) => seq![
                f,
                hex2(hevc_profile_idc(h.profile) as nat),
                hex2(hevc_level_byte(h) as nat),
                cb,
                zero_pad(hex_digits(v as nat), 8),
            ],
            None => seq![
                f,
                hex2(hevc_profile_idc(h.profile) as nat),
                hex2(hevc_level_byte(h) as nat),
            ],
        },
{
    let x = hex2(hevc_profile_idc(h.profile) as nat);
    let y = hex2(hevc_level_byte(h) as nat);
    lemma_hex_text(hevc_profile_idc(h.profile) as nat, 2, 0xff);
    lemma_hex_text(hevc_level_byte(h) as nat, 2, 0xff);
    let t = codec_text(CodecV::Hevc(h));
    match h.constraint {
        Some((cf, v)) => {
            let z = zero_pad(hex_digits(v as nat), 8);
            lemma_hex_text(v as nat, 8, 0xffff_ffff);
            assert(t == f + dot(x) + dot(y) + (dot(cb) + dot(z)));
            lemma_split5(f, x, y, cb, z);
        },
        None => {
            assert(t =~= f + dot(x) + dot(y));
            lemma_split3(f, x, y);
        },
    }
}

/// The text of an HEVC codec whose code is `f` parses back to it.
#[verifier::rlimit(30)]
proof fn lemma_hevc_text(h: Hevc, f: Seq<u8>, cb: Seq<u8>)
    requires
        f.len() == 4,
        forall|i: int| 0 <= i < 4 ==> #[trigger] f[i] < 0x80,
        !contains_byte(f, 0x2e),
        h.fourcc == fourcc_of_bytes(f),
        h.level <= 0x7f,
        h.constraint matches Some((cf, v)) ==> cb.len() == 4 && (forall|i: int|
            0 <= i < 4 ==> #[trigger] cb[i] < 0x80) && !contains_byte(cb, 0x2e) && cf
            == fourcc_of_bytes(cb),
    ensures
        hevc_spec(codec_text(CodecV::Hevc(h))) == Ok::<Hevc, CodecErr>(h),
        split(codec_text(CodecV::Hevc(h)), 0x2e)[0] == f,
        codec_text(CodecV::Hevc(h)).len() > 0,
{
    lemma_ascii_fourcc(f);
    if h.constraint is Some {
        lemma_ascii_fourcc(cb);
    }
    lemma_hevc_split(h, f, cb);
    let idc = hevc_profile_idc(h.profile);
    law_hevc_profile_idc_roundtrip(h.profile);
    let lvb = hevc_level_byte(h);
    lemma_hevc_level(h);
    lemma_hex_text(idc as nat, 2, 0xff);
    lemma_hex_text(lvb as nat, 2, 0xff);
    match h.constraint {
        Some((cf, v)) => {
            lemma_hex_text(v as nat, 8, 0xffff_ffff);
        },
        None => {},
    }
    let t = codec_text(CodecV::Hevc(h));
    assert(t.len() > 0) by {
        assert(t.len() >= f.len());
    }
}

/// An HEVC codec parsed from `s` reads back from its text.
proof fn lemma_hevc_round_trip(s: Seq<u8>, h: Hevc)
    requires
        codec_spec(s) == Ok::<CodecV, CodecErr>(CodecV::Hevc(h)),
    ensures
        codec_spec(codec_text(CodecV::Hevc(h))) == Ok::<CodecV, CodecErr>(CodecV::Hevc(h)),
{
    lemma_hevc_case(s, h);
    lemma_hevc_parts(s, h);
    let parts = split(s, 0x2e);
    lemma_split_pieces(s, 0x2e);
    assert(!contains_byte(parts[0], 0x2e));
    let cb = if parts.len() >= 5 { parts[3] } else { parts[0] };
    assert(!contains_byte(cb, 0x2e));
    lemma_hevc_text(h, parts[0], cb);
}

/// A VP9 codec reads back from its text.
#[verifier::rlimit(30)]
proof fn lemma_vp9_round_trip(v: Vp9)
    ensures
        codec_spec(codec_text(CodecV::Vp9(v))) == Ok::<CodecV, CodecErr>(CodecV::Vp9(v)),
{
    let k = seq![0x76u8, 0x70, 0x30, 0x39];
    let pn = vp9_profile_number(v.profile);
    let cn = chroma_number(v.chroma);
    law_vp9_numbers_roundtrip(v.profile, v.chroma);
    lemma_dec_text(pn as nat, 2, 0xff);
    lemma_dec_text(v.level as nat, 2, 0xff);
    lemma_dec_text(v.bit_depth as nat, 2, 0xff);
    lemma_dec_text(cn as nat, 2, 0xff);
    let (b, c, d, e) = (dec2(pn as nat), dec2(v.level as nat), dec2(v.bit_depth as nat), dec2(
        cn as nat,
    ));
    let t = codec_text(CodecV::Vp9(v));
    assert(t =~= k + dot(b) + dot(c) + (dot(d) + dot(e)));
    assert(!contains_byte(k, 0x2e));
    lemma_split5(k, b, c, d, e);
    assert(lower(k) =~= k);
    assert(k != kind_mp4a()) by {
        assert(k[0] != kind_mp4a()[0]);
    }
    assert(k != kind_mp4v()) by {
        assert(k[0] != kind_mp4v()[0]);
    }
    assert(k.subrange(0, 3) != kind_avc_prefix()) by {
        assert(k.subrange(0, 3)[0] != kind_avc_prefix()[0]);
    }
    assert(!is_hevc_kind(k)) by {
        assert(k[0] != 0x68u8);
    }
    assert(is_vp9_kind(k));
    assert(vp9_spec(t) == Ok::<Vp9, CodecErr>(v));
}

/// The text of the code of a Dolby Vision kind.
proof fn lemma_dolby_kind(b: DolbyVisionBase)
    ensures
        fourcc_text(dolby_fourcc(b)) == match b {
            DolbyVisionBase::Dvh1 => seq![0x64u8, 0x76, 0x68, 0x31],
            DolbyVisionBase::Dvhe => seq![0x64u8, 0x76, 0x68, 0x65],
            DolbyVisionBase::Dva1 => seq![0x64u8, 0x76, 0x61, 0x31],
            DolbyVisionBase::Dvav => seq![0x64u8, 0x76, 0x61, 0x76],
        },
{
    let f: Seq<u8> = match b {
        DolbyVisionBase::Dvh1 => seq![0x64u8, 0x76, 0x68, 0x31],
        DolbyVisionBase::Dvhe => seq![0x64u8, 0x76, 0x68, 0x65],
        DolbyVisionBase::Dva1 => seq![0x64u8, 0x76, 0x61, 0x31],
        DolbyVisionBase::Dvav => seq![0x64u8, 0x76, 0x61, 0x76],
    };
    assert(fourcc_of_bytes(f) == dolby_fourcc(b));
    lemma_ascii_fourcc(f);
}

/// A Dolby Vision codec reads back from its text.
#[verifier::rlimit(30)]
proof fn lemma_dolby_round_trip(d: DolbyVision)
    ensures
        codec_spec(codec_text(CodecV::DolbyVision(d))) == Ok::<CodecV, CodecErr>(
            CodecV::DolbyVision(d),
        ),
{
    let k = fourcc_text(dolby_fourcc(d.base));
    lemma_dolby_kind(d.base);
    lemma_dec_text(d.profile as nat, 2, 0xff);
    lemma_dec_text(d.level as nat, 2, 0xff);
    let (b, c) = (dec2(d.profile as nat), dec2(d.level as nat));
    let t = codec_text(CodecV::DolbyVision(d));
    assert(t == k + dot(b) + dot(c));
    assert(!contains_byte(k, 0x2e)) by {
        assert forall|i: int| 0 <= i < k.len() implies k[i] != 0x2e by {}
    }
    lemma_split3(k, b, c);
    assert(lower(k) =~= k);
    assert(k != kind_mp4a()) by {
        assert(k[0] != kind_mp4a()[0]);
    }
    assert(k != kind_mp4v()) by {
        assert(k[0] != kind_mp4v()[0]);
    }
    assert(k.subrange(0, 3) != kind_avc_prefix()) by {
        assert(k.subrange(0, 3)[0] != kind_avc_prefix()[0]);
    }
    assert(!is_hevc_kind(k)) by {
        assert(k[0] != 0x68u8);
    }
    assert(!is_vp9_kind(k)) by {
        assert(k[0] != 0x76u8);
    }
    assert(is_dolby_kind(k));
    assert(dolby_spec(t) == Ok::<DolbyVision, CodecErr>(d)) by {
        assert(k != seq![0x64u8, 0x76, 0x68, 0x31] ==> d.base != DolbyVisionBase::Dvh1);
        if d.base == DolbyVisionBase::Dvhe {
            assert(k[3] != 0x31u8);
        } else if d.base == DolbyVisionBase::Dva1 {
            assert(k[2] != 0x68u8);
        } else if d.base == DolbyVisionBase::Dvav {
            assert(k[2] != 0x68u8);
            assert(k[3] != 0x31u8);
        }
    }
}

/* The law */

/// Reading back the text of a parsed codec gives the same codec: whenever a codec string
/// parses to `c`, the text `c` renders to parses to `c` again.
pub proof fn law_codec_text_round_trip(s: Seq<u8>, c: CodecV)
    requires
        codec_spec(s) == Ok::<CodecV, CodecErr>(c),
    ensures
        codec_spec(codec_text(c)) == Ok::<CodecV, CodecErr>(c),
{
    match c {
        CodecV::Mp4a(m) => lemma_mp4a_round_trip(m),
        CodecV::Mp4v(m) => lemma_mp4v_round_trip(m),
        CodecV::Avc(a) => lemma_avc_round_trip(s, a),
        CodecV::Hevc(h) => lemma_hevc_round_trip(s, h),
        CodecV::Vp9(v) => lemma_vp9_round_trip(v),
        CodecV::DolbyVision(d) => lemma_dolby_round_trip(d),
        CodecV::Unknown(parts) => {
            assert(parts == split(s, 0x2e));
            lemma_join_split(s, 0x2e);
        },
    }
}

} // verus!
