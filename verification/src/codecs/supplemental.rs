//! `SUPPLEMENTAL-CODECS` values: enhancement codecs with compatibility brands,
//! such as `dvh1.08.07/db4h,dvh1.05.06`.
use vstd::prelude::*;
use vstd::string::*;
use vstd::utf8::*;
use crate::codecs::fourcc::{Fourcc, fourcc_of_spec};
use crate::codecs::parse::{codec_spec, parse_codec};
use crate::codecs::render::{codec_text, fourcc_text, join, lemma_codec_string_valid, push_codec, push_fourcc};
use crate::codecs::{Codec, CodecV, SupplementalCodecEntry, SupplementalCodecEntryV, dolby_base_fourcc};
use crate::error::{SupplementalCodecParseError, SupplementalErr};
use crate::text::{bytes, owned, split, split_str, string_of_bytes, trim, trim_spec, utf8};

verus! {

broadcast use vstd::utf8::group_utf8_lib;

/// The entries of a `SUPPLEMENTAL-CODECS` attribute.
#[derive(Debug, Clone, PartialEq, Default)]
pub struct SupplementalCodecs {
    pub entries: Vec<SupplementalCodecEntry>,
}

/// The brands of the fields from `i` on, each a four-byte code.
pub open spec fn brands_spec(fields: Seq<Seq<u8>>, i: nat) -> Result<Seq<Fourcc>, SupplementalErr>
    decreases fields.len() - i,
{
    if i >= fields.len() {
        Ok(Seq::empty())
    } else {
        match fourcc_of_spec(fields[i as int]) {
            Err(_) => Err(SupplementalErr::InvalidBrand(fields[i as int])),
            Ok(f) => match brands_spec(fields, i + 1) {
                Ok(rest) => Ok(seq![f] + rest),
                Err(e) => Err(e),
            },
        }
    }
}

/// One entry: `codec[/brand]*`.
pub open spec fn entry_spec(s: Seq<u8>) -> Result<SupplementalCodecEntryV, SupplementalErr> {
    let fields = split(s, 0x2f);
    match codec_spec(fields[0]) {
        Err(e) => Err(SupplementalErr::Codec(e)),
        Ok(codec) => match brands_spec(fields, 1) {
            Err(e) => Err(e),
            Ok(brands) => Ok(SupplementalCodecEntryV { codec, brands }),
        },
    }
}

/// The entries of the comma-separated parts from `i` on, each trimmed.
pub open spec fn entries_spec(parts: Seq<Seq<u8>>, i: nat) -> Result<Seq<SupplementalCodecEntryV>, SupplementalErr>
    decreases parts.len() - i,
{
    if i >= parts.len() {
        Ok(Seq::empty())
    } else {
        match entry_spec(trim_spec(parts[i as int])) {
            Err(e) => Err(SupplementalErr::Entry { index: i, inner: Box::new(e) }),
            Ok(x) => match entries_spec(parts, i + 1) {
                Ok(rest) => Ok(seq![x] + rest),
                Err(e) => Err(e),
            },
        }
    }
}

/// A whole value: empty means no entries.
pub open spec fn supplemental_spec(s: Seq<u8>) -> Result<Seq<SupplementalCodecEntryV>, SupplementalErr> {
    if s.len() == 0 {
        Ok(Seq::empty())
    } else {
        entries_spec(split(s, 0x2c), 0)
    }
}

/// The views of the entries.
pub open spec fn entries_view(v: Seq<SupplementalCodecEntry>) -> Seq<SupplementalCodecEntryV> {
    v.map_values(|e: SupplementalCodecEntry| e@)
}

/// A declared codec provides the base layer with code `needed`.
pub open spec fn provides_base(c: CodecV, needed: Fourcc) -> bool {
    match c {
        CodecV::Avc(a) => a.fourcc == needed || needed == Fourcc(0x31637661),
        CodecV::Hevc(h) => h.fourcc == needed || needed == Fourcc(0x31637668),
        _ => false,
    }
}

/// A Dolby Vision entry whose base layer no declared codec provides.
pub open spec fn lacks_base(e: SupplementalCodecEntryV, codecs: Seq<CodecV>) -> bool {
    match e.codec {
        CodecV::DolbyVision(dv) => !exists|k: int|
            0 <= k < codecs.len() && provides_base(codecs[k], dolby_base_fourcc(dv.base)),
        _ => false,
    }
}

/// The text of an entry: the codec, then `/brand` for each brand.
pub open spec fn entry_text(e: SupplementalCodecEntryV) -> Seq<u8> {
    codec_text(e.codec) + brands_text(e.brands)
}

pub open spec fn brands_text(b: Seq<Fourcc>) -> Seq<u8>
    decreases b.len(),
{
    if b.len() == 0 {
        Seq::empty()
    } else {
        brands_text(b.drop_last()) + seq![0x2fu8] + fourcc_text(b.last())
    }
}

/// The text of all entries, joined by `,`.
pub open spec fn supplemental_text(v: Seq<SupplementalCodecEntryV>) -> Seq<u8> {
    join(v.map_values(|e: SupplementalCodecEntryV| entry_text(e)), 0x2c)
}

/// Parses the brands of an entry.
fn parse_brands(fields: &Vec<&str>) -> (r: Result<Vec<Fourcc>, SupplementalCodecParseError>)
    requires
        fields@.len() >= 1,
    ensures
        match brands_spec(fields@.map_values(|f: &str| f.spec_bytes()), 1) {
            Ok(b) => r matches Ok(v) && v@ == b,
            Err(e) => r matches Err(x) && x@ == e,
        },
{
    let ghost fs = fields@.map_values(|f: &str| f.spec_bytes());
    let mut out: Vec<Fourcc> = Vec::new();
    let mut i: usize = 1;
    while i < fields.len()
        invariant
            1 <= i <= fields@.len(),
            fs == fields@.map_values(|f: &str| f.spec_bytes()),
            brands_spec(fs, 1) == match brands_spec(fs, i as nat) {
                Ok(rest) => Ok(out@ + rest),
                Err(e) => Err::<Seq<Fourcc>, SupplementalErr>(e),
            },
        decreases fields.len() - i,
    {
        match Fourcc::of(fields[i]) {
            Ok(f) => {
                let ghost before = out@;
                out.push(f);
                proof {
                    match brands_spec(fs, (i + 1) as nat) {
                        Ok(rest) => assert(before + (seq![f] + rest) =~= out@ + rest),
                        Err(_) => {},
                    }
                }
            },
            Err(_) => {
                return Err(SupplementalCodecParseError::InvalidBrand(owned(fields[i])));
            },
        }
        i = i + 1;
    }
    proof {
        assert(out@ + Seq::<Fourcc>::empty() =~= out@);
    }
    Ok(out)
}

impl SupplementalCodecEntry {
    /// Parses `codec[/brand]*`.
    pub fn parse(s: &str) -> (r: Result<Self, SupplementalCodecParseError>)
        ensures
            match entry_spec(s.spec_bytes()) {
                Ok(x) => r matches Ok(e) && e@ == x,
                Err(x) => r matches Err(e) && e@ == x,
            },
    {
        let fields = split_str(s, 0x2f);
        proof {
            assert(fields@.map_values(|f: &str| f.spec_bytes()) =~= split(s.spec_bytes(), 0x2f));
        }
        let codec = match parse_codec(fields[0]) {
            Ok(c) => c,
            Err(e) => {
                return Err(SupplementalCodecParseError::Codec(e));
            },
        };
        match parse_brands(&fields) {
            Ok(brands) => Ok(SupplementalCodecEntry::new(codec, brands)),
            Err(e) => Err(e),
        }
    }

    /// The text of this entry.
    pub fn to_string(&self) -> (r: String)
        ensures
            utf8(r@) == entry_text(self@),
    {
        let mut v: Vec<u8> = Vec::new();
        push_entry(&mut v, self);
        proof {
            lemma_entry_text_valid(self);
        }
        string_of_bytes(v)
    }
}

fn push_entry(out: &mut Vec<u8>, e: &SupplementalCodecEntry)
    ensures
        final(out)@ == old(out)@ + entry_text(e@),
{
    let ghost o = out@;
    push_codec(out, &e.codec);
    let ghost m = out@;
    let mut i: usize = 0;
    while i < e.brands.len()
        invariant
            i <= e.brands@.len(),
            out@ == m + brands_text(e.brands@.subrange(0, i as int)),
        decreases e.brands.len() - i,
    {
        out.push(0x2f);
        push_fourcc(out, e.brands[i]);
        proof {
            let sub = e.brands@.subrange(0, i + 1);
            assert(sub.drop_last() =~= e.brands@.subrange(0, i as int));
        }
        i = i + 1;
        proof {
            assert(out@ =~= m + brands_text(e.brands@.subrange(0, i as int)));
        }
    }
    proof {
        assert(e.brands@.subrange(0, e.brands@.len() as int) =~= e.brands@);
        assert(out@ =~= o + entry_text(e@));
    }
}

proof fn lemma_brands_text_valid(b: Seq<Fourcc>)
    ensures
        valid_utf8(brands_text(b)),
    decreases b.len(),
{
    if b.len() > 0 {
        lemma_brands_text_valid(b.drop_last());
        crate::codecs::render::lemma_fourcc_text_valid(b.last());
        crate::uri::lemma_ascii_valid(seq![0x2fu8]);
        valid_utf8_concat(brands_text(b.drop_last()), seq![0x2fu8]);
        valid_utf8_concat(brands_text(b.drop_last()) + seq![0x2fu8], fourcc_text(b.last()));
    }
}

proof fn lemma_entry_text_valid(e: &SupplementalCodecEntry)
    ensures
        valid_utf8(entry_text(e@)),
{
    lemma_codec_string_valid(&e.codec);
    lemma_brands_text_valid(e.brands@);
    valid_utf8_concat(codec_text(e.codec@), brands_text(e.brands@));
}

/// The entries of the parts before `i` are `done`, and the whole value parses as the parts
/// from `i` on would, after `done`.
#[verifier::opaque]
spec fn entries_prefix(ps: Seq<Seq<u8>>, i: nat, done: Seq<SupplementalCodecEntryV>) -> bool {
    entries_spec(ps, 0) == match entries_spec(ps, i) {
        Ok(rest) => Ok(done + rest),
        Err(e) => Err::<Seq<SupplementalCodecEntryV>, SupplementalErr>(e),
    }
}

proof fn lemma_entries_start(ps: Seq<Seq<u8>>)
    ensures
        entries_prefix(ps, 0, Seq::empty()),
{
    reveal(entries_prefix);
    match entries_spec(ps, 0) {
        Ok(rest) => assert(Seq::<SupplementalCodecEntryV>::empty() + rest =~= rest),
        Err(_) => {},
    }
}

proof fn lemma_entries_step(
    ps: Seq<Seq<u8>>,
    i: nat,
    before: Seq<SupplementalCodecEntryV>,
    x: SupplementalCodecEntryV,
)
    requires
        i < ps.len(),
        entries_prefix(ps, i, before),
        entry_spec(trim_spec(ps[i as int])) == Ok::<SupplementalCodecEntryV, SupplementalErr>(x),
    ensures
        entries_prefix(ps, i + 1, before.push(x)),
{
    reveal(entries_prefix);
    match entries_spec(ps, i + 1) {
        Ok(rest) => assert(before + (seq![x] + rest) =~= before.push(x) + rest),
        Err(_) => {},
    }
}

proof fn lemma_entries_fail(
    ps: Seq<Seq<u8>>,
    i: nat,
    before: Seq<SupplementalCodecEntryV>,
    x: SupplementalErr,
)
    requires
        i < ps.len(),
        entries_prefix(ps, i, before),
        entry_spec(trim_spec(ps[i as int])) == Err::<SupplementalCodecEntryV, SupplementalErr>(x),
    ensures
        entries_spec(ps, 0) == Err::<Seq<SupplementalCodecEntryV>, SupplementalErr>(
            SupplementalErr::Entry { index: i, inner: Box::new(x) },
        ),
{
    reveal(entries_prefix);
}

proof fn lemma_entries_end(ps: Seq<Seq<u8>>, done: Seq<SupplementalCodecEntryV>)
    requires
        entries_prefix(ps, ps.len(), done),
    ensures
        entries_spec(ps, 0) == Ok::<Seq<SupplementalCodecEntryV>, SupplementalErr>(done),
{
    reveal(entries_prefix);
    assert(done + Seq::<SupplementalCodecEntryV>::empty() =~= done);
}

/// Parses one comma-separated part after trimming it.
fn parse_trimmed_entry(part: &str) -> (r: Result<SupplementalCodecEntry, SupplementalCodecParseError>)
    ensures
        match entry_spec(trim_spec(part.spec_bytes())) {
            Ok(x) => r matches Ok(e) && e@ == x,
            Err(x) => r matches Err(e) && e@ == x,
        },
{
    SupplementalCodecEntry::parse(trim(part))
}

impl SupplementalCodecs {
    /// A value with the given entries.
    pub fn new(entries: Vec<SupplementalCodecEntry>) -> (r: Self)
        ensures
            r.entries == entries,
    {
        Self { entries }
    }

    /// Whether there are no entries.
    pub fn is_empty(&self) -> (r: bool)
        ensures
            r == (self.entries@.len() == 0),
    {
        self.entries.len() == 0
    }

    /// The number of entries.
    pub fn len(&self) -> (r: usize)
        ensures
            r == self.entries@.len(),
    {
        self.entries.len()
    }

    /// The entries, in order.
    pub fn iter(&self) -> (r: std::slice::Iter<'_, SupplementalCodecEntry>)
        ensures
            vstd::std_specs::slice::into_iter_elts(r) == self.entries@,
    {
        broadcast use vstd::std_specs::slice::axiom_spec_slice_iter;
        let r = self.entries.as_slice().iter();
        proof {
            assert(vstd::std_specs::iter::IteratorSpec::remaining(&r).unref() =~= self.entries@);
        }
        r
    }

    /// The list is empty (`is_empty`, `len() == 0`) exactly when its iterator (`iter`) yields
    /// no entry.
    pub proof fn lemma_empty_iff_no_entries(&self, it: std::slice::Iter<'_, SupplementalCodecEntry>)
        requires
            vstd::std_specs::slice::into_iter_elts(it) == self.entries@,
        ensures
            (self.entries@.len() == 0) <==> vstd::std_specs::slice::into_iter_elts(it).len() == 0,
    {
    }

    /// Checks that every enhancement codec has its base layer declared in `codecs` (the parsed
    /// `CODECS` value); returns the first entry whose base layer is missing. Only Dolby Vision
    /// entries are checked, since their implied base-layer code is well defined.
    pub fn validate_base_layers<'a>(&'a self, codecs: &[Codec]) -> (r: Result<(), &'a SupplementalCodecEntry>)
        ensures
            match r {
                Ok(()) => forall|i: int|
                    0 <= i < self.entries@.len() ==> !lacks_base(
                        #[trigger] self.entries@[i]@,
                        codecs@.map_values(|c: Codec| c@),
                    ),
                Err(e) => exists|i: int|
                    0 <= i < self.entries@.len() && *e == self.entries@[i] && lacks_base(
                        self.entries@[i]@,
                        codecs@.map_values(|c: Codec| c@),
                    ) && forall|j: int|
                        0 <= j < i ==> !lacks_base(
                            #[trigger] self.entries@[j]@,
                            codecs@.map_values(|c: Codec| c@),
                        ),
            },
    {
        let ghost cs = codecs@.map_values(|c: Codec| c@);
        let mut i: usize = 0;
        while i < self.entries.len()
            invariant
                i <= self.entries@.len(),
                cs == codecs@.map_values(|c: Codec| c@),
                forall|j: int| 0 <= j < i ==> !lacks_base(#[trigger] self.entries@[j]@, cs),
            decreases self.entries.len() - i,
        {
            let entry = &self.entries[i];
            if let Codec::DolbyVision(dv) = &entry.codec {
                let needed = dv.base_codec_fourcc();
                let mut found = false;
                let mut k: usize = 0;
                while k < codecs.len()
                    invariant
                        k <= codecs@.len(),
                        cs == codecs@.map_values(|c: Codec| c@),
                        found == exists|m: int| 0 <= m < k && provides_base(cs[m], needed),
                    decreases codecs.len() - k,
                {
                    let ok = match &codecs[k] {
                        Codec::Avc(a) => a.get_fourcc() == needed || needed == Fourcc(0x31637661),
                        Codec::Hevc(h) => h.get_fourcc() == needed || needed == Fourcc(0x31637668),
                        _ => false,
                    };
                    proof {
                        assert(ok == provides_base(cs[k as int], needed));
                    }
                    found = found || ok;
                    k = k + 1;
                }
                if !found {
                    return Err(entry);
                }
            }
            i = i + 1;
        }
        Ok(())
    }

    /// Parses a `SUPPLEMENTAL-CODECS` value: comma-separated entries, each trimmed; an empty
    /// value has no entries.
    pub fn parse(s: &str) -> (r: Result<Self, SupplementalCodecParseError>)
        ensures
            match supplemental_spec(s.spec_bytes()) {
                Ok(x) => r matches Ok(v) && entries_view(v.entries@) == x,
                Err(x) => r matches Err(e) && e@ == x,
            },
    {
        if bytes(s).len() == 0 {
            let r = SupplementalCodecs { entries: Vec::new() };
            proof {
                assert(entries_view(r.entries@) =~= Seq::<SupplementalCodecEntryV>::empty());
            }
            return Ok(r);
        }
        let parts = split_str(s, 0x2c);
        let ghost ps = split(s.spec_bytes(), 0x2c);
        let mut out: Vec<SupplementalCodecEntry> = Vec::new();
        proof {
            lemma_entries_start(ps);
            assert(entries_view(out@) =~= Seq::<SupplementalCodecEntryV>::empty());
            assert(supplemental_spec(s.spec_bytes()) == entries_spec(ps, 0));
        }
        let mut i: usize = 0;
        while i < parts.len()
            invariant
                i <= parts@.len(),
                parts@.len() == ps.len(),
                forall|k: int| 0 <= k < parts@.len() ==> #[trigger] parts@[k].spec_bytes() == ps[k],
                entries_prefix(ps, i as nat, entries_view(out@)),
                supplemental_spec(s.spec_bytes()) == entries_spec(ps, 0),
            decreases parts.len() - i,
        {
            let r = parse_trimmed_entry(parts[i]);
            proof {
                assert(parts@[i as int].spec_bytes() == ps[i as int]);
            }
            match r {
                Ok(e) => {
                    let ghost before = entries_view(out@);
                    proof {
                        lemma_entries_step(ps, i as nat, before, e@);
                    }
                    out.push(e);
                    proof {
                        assert(entries_view(out@) =~= before.push(e@));
                    }
                },
                Err(e) => {
                    proof {
                        lemma_entries_fail(ps, i as nat, entries_view(out@), e@);
                    }
                    let err = SupplementalCodecParseError::Entry { index: i, inner: Box::new(e) };
                    proof {
                        assert(err@ == SupplementalErr::Entry { index: i as nat, inner: Box::new(e@) });
                    }
                    return Err(err);
                },
            }
            i = i + 1;
        }
        proof {
            lemma_entries_end(ps, entries_view(out@));
        }
        Ok(SupplementalCodecs { entries: out })
    }

    /// The text of the value: entries joined by `,`.
    pub fn to_string(&self) -> (r: String)
        ensures
            utf8(r@) == supplemental_text(entries_view(self.entries@)),
    {
        let ghost ts = entries_view(self.entries@).map_values(|e: SupplementalCodecEntryV| entry_text(e));
        let mut v: Vec<u8> = Vec::new();
        let mut i: usize = 0;
        while i < self.entries.len()
            invariant
                i <= self.entries@.len(),
                ts == entries_view(self.entries@).map_values(|e: SupplementalCodecEntryV| entry_text(e)),
                v@ == join(ts.subrange(0, i as int), 0x2c),
                valid_utf8(v@),
            decreases self.entries.len() - i,
        {
            let ghost before = v@;
            if i > 0 {
                v.push(0x2c);
            }
            push_entry(&mut v, &self.entries[i]);
            proof {
                let sub = ts.subrange(0, i + 1);
                assert(sub.drop_last() =~= ts.subrange(0, i as int));
                assert(sub.last() == entry_text(self.entries@[i as int]@));
                lemma_entry_text_valid(&self.entries@[i as int]);
                crate::uri::lemma_ascii_valid(seq![0x2cu8]);
                if i == 0 {
                    assert(v@ =~= join(sub, 0x2c));
                } else {
                    valid_utf8_concat(before, seq![0x2cu8]);
                    assert(v@ =~= join(sub, 0x2c));
                }
            }
            i = i + 1;
        }
        proof {
            assert(ts.subrange(0, self.entries@.len() as int) =~= ts);
        }
        string_of_bytes(v)
    }
}

impl std::str::FromStr for SupplementalCodecs {
    type Err = SupplementalCodecParseError;

    fn from_str(s: &str) -> (r: Result<Self, Self::Err>)
        ensures
            match supplemental_spec(s.spec_bytes()) {
                Ok(x) => r matches Ok(v) && entries_view(v.entries@) == x,
                Err(x) => r matches Err(e) && e@ == x,
            },
    {
        SupplementalCodecs::parse(s)
    }
}

impl std::str::FromStr for SupplementalCodecEntry {
    type Err = SupplementalCodecParseError;

    fn from_str(s: &str) -> (r: Result<Self, Self::Err>)
        ensures
            match entry_spec(s.spec_bytes()) {
                Ok(x) => r matches Ok(e) && e@ == x,
                Err(x) => r matches Err(e) && e@ == x,
            },
    {
        SupplementalCodecEntry::parse(s)
    }
}

} // verus!
