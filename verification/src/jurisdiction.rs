//! ISO-3166 alpha-2 jurisdiction codes.
use vstd::prelude::*;
use vstd::string::*;

verus! {

/// A normalised two-letter jurisdiction code, both letters upper-case ASCII.
#[derive(Clone, Copy, Debug, PartialEq, Eq, Structural, Hash)]
pub struct Jurisdiction {
    pub first: u8,
    pub second: u8,
}

/// The upper-case ASCII code of a letter, or `None` for any other character.
pub open spec fn spec_upper_letter(c: char) -> Option<u8> {
    if 97 <= c as u32 <= 122 {
        Some((c as u32 - 32) as u8)
    } else if 65 <= c as u32 <= 90 {
        Some(c as u32 as u8)
    } else {
        None
    }
}

/// What a textual code normalises to: exactly two ASCII letters, upper-cased.
pub open spec fn spec_parse_jurisdiction(s: Seq<char>) -> Option<Jurisdiction> {
    if s.len() == 2 && spec_upper_letter(s[0]) is Some && spec_upper_letter(s[1]) is Some {
        Some(
            Jurisdiction {
                first: spec_upper_letter(s[0]).unwrap(),
                second: spec_upper_letter(s[1]).unwrap(),
            },
        )
    } else {
        None
    }
}

impl Jurisdiction {
    /// Whether both letters are upper-case ASCII.
    pub open spec fn valid(self) -> bool {
        &&& 65 <= self.first <= 90
        &&& 65 <= self.second <= 90
    }

    /// Whether both letters are upper-case ASCII.
    pub fn is_valid(&self) -> (r: bool)
        ensures
            r == self.valid(),
    {
        65 <= self.first && self.first <= 90 && 65 <= self.second && self.second <= 90
    }

    /// The two letters as bytes.
    pub fn letters(&self) -> (r: [u8; 2])
        ensures
            r@ == seq![self.first, self.second],
    {
        [self.first, self.second]
    }
}

fn upper_letter(c: char) -> (r: Option<u8>)
    ensures
        r == spec_upper_letter(c),
{
    let v: u32 = c as u32;
    if 97 <= v && v <= 122 {
        Some((v - 32) as u8)
    } else if 65 <= v && v <= 90 {
        Some(v as u8)
    } else {
        None
    }
}

/// Parses and normalises a jurisdiction code: two ASCII letters in either
/// case; anything else is rejected.
pub fn parse_jurisdiction(code: &str) -> (r: Option<Jurisdiction>)
    ensures
        r == spec_parse_jurisdiction(code@),
        r matches Some(j) ==> j.valid(),
{
    let n: usize = code.unicode_len();
    if n != 2 {
        return None;
    }
    let a = upper_letter(code.get_char(0));
    let b = upper_letter(code.get_char(1));
    match (a, b) {
        (Some(first), Some(second)) => Some(Jurisdiction { first, second }),
        _ => None,
    }
}

} // verus!
