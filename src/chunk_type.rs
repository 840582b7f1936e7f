use crate::error::FormatError;
use crate::text::{bytes_equal, utf8_to_string};
use vstd::prelude::*;
use vstd::string::*;
use vstd::utf8::{
    decode_utf8, decode_utf8_encode_utf8, encode_utf8_decode_utf8, encode_utf8_valid_utf8, valid_utf8,
};

verus! {

/// An ASCII uppercase letter, `A` to `Z`.
pub open spec fn is_upper(b: u8) -> bool {
    65 <= b <= 90
}

/// An ASCII lowercase letter, `a` to `z`.
pub open spec fn is_lower(b: u8) -> bool {
    97 <= b <= 122
}

/// An ASCII letter of either case.
pub open spec fn is_letter(b: u8) -> bool {
    is_upper(b) || is_lower(b)
}

/// An ASCII letter, as a character.
pub open spec fn is_letter_char(c: char) -> bool {
    ('A' <= c <= 'Z') || ('a' <= c <= 'z')
}

/// The four bytes of a code are letters and its reserved bit is valid.
pub open spec fn code_is_valid(code: Seq<u8>) -> bool {
    &&& forall|i: int| 0 <= i < code.len() ==> is_letter(#[trigger] code[i])
    &&& is_upper(code[2])
}

/// The code renders as `name`: its bytes are UTF-8 and spell exactly `name`.
pub open spec fn renders_as(code: Seq<u8>, name: Seq<char>) -> bool {
    valid_utf8(code) && decode_utf8(code) == name
}

/// Whether a readable type code is accepted: four characters, all ASCII letters.
pub open spec fn readable_code_ok(s: Seq<char>) -> bool {
    s.len() == 4 && forall|i: int| 0 <= i < 4 ==> is_letter_char(#[trigger] s[i])
}

/// The bytes of a readable type code: each character becomes one byte.
pub open spec fn readable_code_bytes(s: Seq<char>) -> Seq<u8> {
    Seq::new(s.len(), |i: int| s[i] as u8)
}

fn is_upper_byte(b: u8) -> (r: bool)
    ensures
        r == is_upper(b),
{
    65 <= b && b <= 90
}

fn is_lower_byte(b: u8) -> (r: bool)
    ensures
        r == is_lower(b),
{
    97 <= b && b <= 122
}

/// A four-byte chunk type code, such as `IHDR` or `ruSt`.
///
/// The case of each letter carries one property: byte 0 critical, byte 1
/// public, byte 2 reserved bit valid (all when uppercase), byte 3 safe to copy
/// (when lowercase).
#[derive(Debug)]
pub struct ChunkType {
    values: Vec<u8>,
}

impl View for ChunkType {
    type V = Seq<u8>;

    closed spec fn view(&self) -> Seq<u8> {
        self.values@
    }
}

impl ChunkType {
    #[verifier::type_invariant]
    spec fn has_four_bytes(self) -> bool {
        self.values@.len() == 4
    }

    /// Builds a code from any four bytes, unchecked.
    pub fn from_raw_bytes(bytes: [u8; 4]) -> (r: ChunkType)
        ensures
            r@ == bytes@,
    {
        let mut values: Vec<u8> = Vec::new();
        values.push(bytes[0]);
        values.push(bytes[1]);
        values.push(bytes[2]);
        values.push(bytes[3]);
        assert(values@ == bytes@);
        ChunkType { values }
    }

    /// Builds a code from its readable form: exactly four ASCII letters, case kept.
    pub fn from_readable_string(s: &str) -> (r: Result<ChunkType, FormatError>)
        ensures
            r is Ok <==> readable_code_ok(s@),
            r is Ok ==> r->Ok_0@ == readable_code_bytes(s@),
            r is Err ==> r->Err_0 == FormatError::InvalidTypeCode,
    {
        if s.unicode_len() != 4 {
            return Err(FormatError::InvalidTypeCode);
        }
        let mut values: Vec<u8> = Vec::new();
        let mut i: usize = 0;
        while i < 4
            invariant
                s@.len() == 4,
                i <= 4,
                values@ == readable_code_bytes(s@).subrange(0, i as int),
                forall|j: int| 0 <= j < i ==> is_letter_char(#[trigger] s@[j]),
            decreases 4 - i,
        {
            let c = s.get_char(i);
            if !(('A' <= c && c <= 'Z') || ('a' <= c && c <= 'z')) {
                return Err(FormatError::InvalidTypeCode);
            }
            values.push(c as u8);
            assert(readable_code_bytes(s@).subrange(0, i + 1) == readable_code_bytes(s@).subrange(
                0,
                i as int,
            ).push(c as u8));
            i = i + 1;
        }
        assert(readable_code_bytes(s@).subrange(0, 4) == readable_code_bytes(s@));
        Ok(ChunkType { values })
    }

    /// The stored bytes.
    pub fn values(&self) -> (r: &Vec<u8>)
        ensures
            r@ == self@,
            r@.len() == 4,
    {
        proof {
            use_type_invariant(self);
        }
        &self.values
    }

    /// The four bytes of the code.
    pub fn bytes(&self) -> (r: [u8; 4])
        ensures
            r@ == self@,
    {
        proof {
            use_type_invariant(self);
        }
        let r = [self.values[0], self.values[1], self.values[2], self.values[3]];
        assert(r@ == self@);
        r
    }

    /// All four bytes are ASCII letters and the reserved bit is valid.
    pub fn is_valid(&self) -> (r: bool)
        ensures
            r == code_is_valid(self@),
    {
        proof {
            use_type_invariant(self);
        }
        let mut i: usize = 0;
        while i < 4
            invariant
                self@.len() == 4,
                i <= 4,
                forall|j: int| 0 <= j < i ==> is_letter(#[trigger] self@[j]),
            decreases 4 - i,
        {
            let b = self.values[i];
            if !(is_upper_byte(b) || is_lower_byte(b)) {
                return false;
            }
            i = i + 1;
        }
        self.is_reserved_bit_valid()
    }

    /// Byte 0 is uppercase.
    pub fn is_critical(&self) -> (r: bool)
        ensures
            r == is_upper(self@[0]),
    {
        proof {
            use_type_invariant(self);
        }
        is_upper_byte(self.values[0])
    }

    /// Byte 1 is uppercase.
    pub fn is_public(&self) -> (r: bool)
        ensures
            r == is_upper(self@[1]),
    {
        proof {
            use_type_invariant(self);
        }
        is_upper_byte(self.values[1])
    }

    /// Byte 2 is uppercase.
    pub fn is_reserved_bit_valid(&self) -> (r: bool)
        ensures
            r == is_upper(self@[2]),
    {
        proof {
            use_type_invariant(self);
        }
        is_upper_byte(self.values[2])
    }

    /// Byte 3 is lowercase.
    pub fn is_safe_to_copy(&self) -> (r: bool)
        ensures
            r == is_lower(self@[3]),
    {
        proof {
            use_type_invariant(self);
        }
        is_lower_byte(self.values[3])
    }

    /// Whether the code renders as `name`, compared byte for byte with its UTF-8 form.
    pub(crate) fn is_named(&self, name: &str) -> (r: bool)
        ensures
            r == renders_as(self@, name@),
    {
        let code = self.values();
        let wanted = name.as_bytes();
        proof {
            encode_utf8_valid_utf8(name@);
            encode_utf8_decode_utf8(name@);
            if valid_utf8(self@) {
                decode_utf8_encode_utf8(self@);
            }
        }
        bytes_equal(code.as_slice(), wanted)
    }

    /// The code as text; fails when its bytes are not UTF-8.
    pub fn try_to_string(&self) -> (r: Result<String, FormatError>)
        ensures
            r is Ok <==> valid_utf8(self@),
            r is Ok ==> r->Ok_0@ == decode_utf8(self@),
            r is Err ==> r->Err_0 == FormatError::InvalidUtf8,
    {
        match utf8_to_string(self.values.clone()) {
            Some(s) => Ok(s),
            None => Err(FormatError::InvalidUtf8),
        }
    }
}

impl PartialEq for ChunkType {
    fn eq(&self, other: &ChunkType) -> (r: bool) {
        bytes_equal(self.values.as_slice(), other.values.as_slice())
    }
}

impl vstd::std_specs::cmp::PartialEqSpecImpl for ChunkType {
    open spec fn obeys_eq_spec() -> bool {
        true
    }

    open spec fn eq_spec(&self, other: &ChunkType) -> bool {
        self@ == other@
    }
}

impl Eq for ChunkType {

}

impl std::str::FromStr for ChunkType {
    type Err = FormatError;

    fn from_str(s: &str) -> Result<ChunkType, FormatError> {
        ChunkType::from_readable_string(s)
    }
}

} // verus!
