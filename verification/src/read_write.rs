//! Checking the text of a playlist file before it is parsed.
use vstd::prelude::*;
use vstd::string::*;
use vstd::utf8::*;
use crate::error::{PErr, ParseError};
use crate::parser::{Playlist, PlaylistV, playlist_spec};
use crate::text::{string_from_utf8, has_prefix};

verus! {

broadcast use vstd::string::axiom_spec_iter;

/// Why the content of a playlist file cannot be read as a playlist.
#[derive(Debug)]
pub enum PlaylistReadError {
    /// The bytes are not UTF-8.
    Utf8,
    /// The bytes start with a UTF-8 byte order mark.
    BomPresent,
    /// A control character other than line feed and carriage return.
    InvalidControlCharacter(char),
    /// The text is no playlist.
    Parse(ParseError),
}

/// A read error with the parse error by its view.
pub enum ReadErrV {
    Utf8,
    BomPresent,
    InvalidControlCharacter(char),
    Parse(PErr),
}

impl View for PlaylistReadError {
    type V = ReadErrV;

    open spec fn view(&self) -> ReadErrV {
        match self {
            PlaylistReadError::Utf8 => ReadErrV::Utf8,
            PlaylistReadError::BomPresent => ReadErrV::BomPresent,
            PlaylistReadError::InvalidControlCharacter(c) => ReadErrV::InvalidControlCharacter(*c),
            PlaylistReadError::Parse(e) => ReadErrV::Parse(e@),
        }
    }
}

/// A character a playlist may not hold: the C0 and C1 control characters, and DEL, but for
/// line feed and carriage return.
pub open spec fn is_forbidden_control(c: char) -> bool {
    c != '\n' && c != '\r' && ((c as u32) <= 0x1f || (0x7f <= (c as u32) && (c as u32) <= 0x9f))
}

/// The first forbidden control character of `s`.
pub open spec fn first_forbidden(s: Seq<char>) -> Option<char>
    decreases s.len(),
{
    if s.len() == 0 {
        None
    } else if is_forbidden_control(s[0]) {
        Some(s[0])
    } else {
        first_forbidden(s.drop_first())
    }
}

/// The UTF-8 byte order mark.
pub open spec fn bom() -> Seq<u8> {
    seq![0xefu8, 0xbbu8, 0xbfu8]
}

/// The text held by the bytes of a playlist file: no byte order mark, valid UTF-8, no
/// forbidden control character (the first one found is reported).
pub open spec fn text_spec(b: Seq<u8>) -> Result<Seq<char>, ReadErrV> {
    if has_prefix(b, bom()) {
        Err(ReadErrV::BomPresent)
    } else if !valid_utf8(b) {
        Err(ReadErrV::Utf8)
    } else {
        match first_forbidden(decode_utf8(b)) {
            Some(c) => Err(ReadErrV::InvalidControlCharacter(c)),
            None => Ok(decode_utf8(b)),
        }
    }
}

/// The playlist held by the bytes of a playlist file.
pub open spec fn playlist_bytes_spec(b: Seq<u8>) -> Result<PlaylistV, ReadErrV> {
    match text_spec(b) {
        Err(e) => Err(e),
        Ok(_) => match playlist_spec(b) {
            Err(e) => Err(ReadErrV::Parse(e)),
            Ok(p) => Ok(p),
        },
    }
}

proof fn lemma_first_forbidden_prefix(s: Seq<char>, i: int)
    requires
        0 <= i <= s.len(),
        forall|k: int| 0 <= k < i ==> !is_forbidden_control(#[trigger] s[k]),
    ensures
        first_forbidden(s) == first_forbidden(s.skip(i)),
    decreases i,
{
    if i > 0 {
        assert(s.skip(1) =~= s.drop_first());
        lemma_first_forbidden_prefix(s.drop_first(), i - 1);
        assert(s.drop_first().skip(i - 1) =~= s.skip(i));
    } else {
        assert(s.skip(0) =~= s);
    }
}

/// Checks that the text holds no forbidden control character; the first one found is the
/// error.
pub fn validate_playlist_text(content: &str) -> (r: Result<(), PlaylistReadError>)
    ensures
        match first_forbidden(content@) {
            Some(c) => r matches Err(x) && x@ == ReadErrV::InvalidControlCharacter(c),
            None => r is Ok,
        },
{
    let ghost s = content@;
    for ch in it: content.chars()
        invariant
            it.seq() == s,
            s == content@,
            forall|k: int| 0 <= k < it.index() ==> !is_forbidden_control(#[trigger] s[k]),
    {
        let n = ch as u32;
        if ch != '\n' && ch != '\r' && (n <= 0x1f || (0x7f <= n && n <= 0x9f)) {
            proof {
                let i = it.index();
                lemma_first_forbidden_prefix(s, i);
                assert(s.skip(i)[0] == ch);
            }
            return Err(PlaylistReadError::InvalidControlCharacter(ch));
        }
    }
    proof {
        lemma_first_forbidden_prefix(s, s.len() as int);
    }
    Ok(())
}

/// The text of a playlist file's bytes; see `text_spec`.
pub fn decode_playlist_text(b: Vec<u8>) -> (r: Result<String, PlaylistReadError>)
    ensures
        match text_spec(b@) {
            Ok(t) => r matches Ok(s) && s@ == t,
            Err(e) => r matches Err(x) && x@ == e,
        },
{
    if b.len() >= 3 && b[0] == 0xef && b[1] == 0xbb && b[2] == 0xbf {
        proof {
            assert(b@.subrange(0, 3) =~= bom());
        }
        return Err(PlaylistReadError::BomPresent);
    }
    proof {
        if has_prefix(b@, bom()) {
            assert(b@.subrange(0, 3)[0] == b@[0]);
            assert(b@.subrange(0, 3)[1] == b@[1]);
            assert(b@.subrange(0, 3)[2] == b@[2]);
        }
    }
    let content = match string_from_utf8(b) {
        Some(s) => s,
        None => {
            return Err(PlaylistReadError::Utf8);
        },
    };
    match validate_playlist_text(content.as_str()) {
        Ok(()) => Ok(content),
        Err(e) => Err(e),
    }
}

/// The playlist held by the bytes of a playlist file; see `playlist_bytes_spec`.
pub fn parse_bytes_into_playlist(b: Vec<u8>) -> (r: Result<Playlist, PlaylistReadError>)
    ensures
        match playlist_bytes_spec(b@) {
            Ok(p) => r matches Ok(x) && x@ == p,
            Err(e) => r matches Err(x) && x@ == e,
        },
{
    let ghost bv = b@;
    let content = match decode_playlist_text(b) {
        Ok(s) => s,
        Err(e) => {
            return Err(e);
        },
    };
    proof {
        decode_utf8_encode_utf8(bv);
        assert(content@ == decode_utf8(bv));
    }
    let text = content.as_str();
    proof {
        assert(text.spec_bytes() == bv);
    }
    match Playlist::parse(text) {
        Ok(p) => Ok(p),
        Err(e) => Err(PlaylistReadError::Parse(e)),
    }
}

} // verus!
