//! Four-character codes.
use vstd::prelude::*;
use vstd::string::*;
use crate::error::{CodecParseError, CodecErr};
use crate::text::{bytes, owned, utf8};

verus! {

/// A four-character code, its first byte in the lowest bits.
#[derive(Debug, Clone, Copy, PartialEq, Eq, Hash, PartialOrd, Ord, Default, Structural)]
pub struct Fourcc(pub u32);

/// The code of four bytes, the first in the lowest bits.
pub open spec fn code4(b0: u8, b1: u8, b2: u8, b3: u8) -> u32 {
    (b0 as nat + b1 as nat * 0x100 + b2 as nat * 0x10000 + b3 as nat * 0x1000000) as u32
}

/// The four bytes of a code, first byte first.
pub open spec fn fourcc_bytes(f: Fourcc) -> Seq<u8> {
    seq![
        (f.0 % 0x100) as u8,
        ((f.0 / 0x100) % 0x100) as u8,
        ((f.0 / 0x10000) % 0x100) as u8,
        (f.0 / 0x1000000) as u8,
    ]
}

/// The code of a four-byte string.
pub open spec fn fourcc_of_bytes(s: Seq<u8>) -> Fourcc {
    Fourcc(code4(s[0], s[1], s[2], s[3]))
}

/// Parsing a FourCC from text: exactly four ASCII bytes.
pub open spec fn fourcc_of_spec(s: Seq<u8>) -> Result<Fourcc, CodecErr> {
    if s.len() == 4 && forall|i: int| 0 <= i < 4 ==> #[trigger] s[i] < 0x80 {
        Ok(fourcc_of_bytes(s))
    } else {
        Err(CodecErr::InvalidFourcc(s))
    }
}

/// The bytes of the code made of four bytes are those bytes, in order: `to_bytes` gives back
/// what `new` was given.
pub proof fn lemma_fourcc_bytes_code4(b0: u8, b1: u8, b2: u8, b3: u8)
    ensures
        fourcc_bytes(Fourcc(code4(b0, b1, b2, b3))) == seq![b0, b1, b2, b3],
{
    let v = b0 as nat + b1 as nat * 0x100 + b2 as nat * 0x10000 + b3 as nat * 0x1000000;
    assert(v < 0x100000000) by (nonlinear_arith)
        requires
            b0 < 256, b1 < 256, b2 < 256, b3 < 256,
            v == b0 as nat + b1 as nat * 0x100 + b2 as nat * 0x10000 + b3 as nat * 0x1000000,
    ;
    assert(v % 0x100 == b0 && (v / 0x100) % 0x100 == b1 && (v / 0x10000) % 0x100 == b2 && v
        / 0x1000000 == b3) by (nonlinear_arith)
        requires
            b0 < 256, b1 < 256, b2 < 256, b3 < 256,
            v == b0 as nat + b1 as nat * 0x100 + b2 as nat * 0x10000 + b3 as nat * 0x1000000,
    ;
    assert(fourcc_bytes(Fourcc(code4(b0, b1, b2, b3))) =~= seq![b0, b1, b2, b3]);
}

impl Fourcc {
    /// The code of four bytes.
    pub fn new(bytes: &[u8; 4]) -> (r: Self)
        ensures
            r == Fourcc(code4(bytes@[0], bytes@[1], bytes@[2], bytes@[3])),
    {
        let v: u64 = bytes[0] as u64 + bytes[1] as u64 * 0x100 + bytes[2] as u64 * 0x10000
            + bytes[3] as u64 * 0x1000000;
        Fourcc(v as u32)
    }

    /// Parses exactly four ASCII bytes of text into a code.
    pub fn of(s: &str) -> (r: Result<Self, CodecParseError>)
        ensures
            match fourcc_of_spec(s.spec_bytes()) {
                Ok(f) => r == Ok::<Fourcc, CodecParseError>(f),
                Err(e) => r matches Err(x) && x@ == e,
            },
    {
        let b = bytes(s);
        if b.len() == 4 && b[0] < 0x80 && b[1] < 0x80 && b[2] < 0x80 && b[3] < 0x80 {
            let a: [u8; 4] = [b[0], b[1], b[2], b[3]];
            Ok(Fourcc::new(&a))
        } else {
            Err(CodecParseError::InvalidFourcc(owned(s)))
        }
    }

    /// The four bytes of the code, first byte first.
    pub fn to_bytes(&self) -> (r: [u8; 4])
        ensures
            r@ == fourcc_bytes(*self),
    {
        let v = self.0;
        let r: [u8; 4] = [(v % 0x100) as u8, ((v / 0x100) % 0x100) as u8, ((v / 0x10000) % 0x100) as u8, (v / 0x1000000) as u8];
        proof {
            assert(r@ =~= fourcc_bytes(*self));
        }
        r
    }
}


impl From<u32> for Fourcc {
    fn from(fourcc: u32) -> (r: Self) {
        Fourcc(fourcc)
    }
}

/// A code is its number.
impl vstd::std_specs::convert::FromSpecImpl<u32> for Fourcc {
    open spec fn obeys_from_spec() -> bool {
        true
    }

    open spec fn from_spec(v: u32) -> Self {
        Fourcc(v)
    }
}

impl From<Fourcc> for u32 {
    fn from(fourcc: Fourcc) -> (r: Self) {
        fourcc.0
    }
}

/// The number of a code.
impl vstd::std_specs::convert::FromSpecImpl<Fourcc> for u32 {
    open spec fn obeys_from_spec() -> bool {
        true
    }

    open spec fn from_spec(v: Fourcc) -> Self {
        v.0
    }
}

impl Fourcc {
    /// The code of a text of exactly four bytes; any other length is refused.
    pub fn try_from_str(s: &str) -> (r: Result<Self, &'static str>)
        ensures
            s.spec_bytes().len() == 4 ==> r == Ok::<Fourcc, &'static str>(fourcc_of_bytes(s.spec_bytes())),
            s.spec_bytes().len() != 4 ==> r == Err::<Fourcc, &'static str>("FourCC must be exactly 4 bytes"),
    {
        let b = bytes(s);
        if b.len() != 4 {
            return Err("FourCC must be exactly 4 bytes");
        }
        let a: [u8; 4] = [b[0], b[1], b[2], b[3]];
        Ok(Fourcc::new(&a))
    }
}

impl TryFrom<&str> for Fourcc {
    type Error = &'static str;

    fn try_from(s: &str) -> (r: Result<Self, Self::Error>)
        ensures
            s.spec_bytes().len() == 4 ==> r == Ok::<Fourcc, &'static str>(fourcc_of_bytes(s.spec_bytes())),
            s.spec_bytes().len() != 4 ==> r == Err::<Fourcc, &'static str>("FourCC must be exactly 4 bytes"),
    {
        Fourcc::try_from_str(s)
    }
}

/// `try_from` gives the code of a four-byte text, and the length error otherwise.
impl vstd::std_specs::convert::TryFromSpecImpl<&str> for Fourcc {
    open spec fn obeys_try_from_spec() -> bool {
        true
    }

    open spec fn try_from_spec(v: &str) -> Result<Self, &'static str> {
        if v.spec_bytes().len() == 4 {
            Ok(fourcc_of_bytes(v.spec_bytes()))
        } else {
            Err("FourCC must be exactly 4 bytes")
        }
    }
}

} // verus!
