//! Names of sample banks as a user types them.
use vstd::prelude::*;
use crate::model::SampleBank;
use crate::text::{chars_eq, chars_of, string_of};

verus! {

/// A sample bank chosen by name: `auto`, `normal`, `soft` or `drum`, in any case.
#[derive(Clone, Copy, Debug, PartialEq, Eq, Structural)]
pub enum SampleBankOption {
    Auto,
    Normal,
    Soft,
    Drum,
}

/// A sample bank name that is none of the four; holds it as typed.
#[derive(Clone, Debug, PartialEq, Eq)]
pub struct InvalidSampleBankOptionError(pub String);

pub open spec fn ascii_lower(c: char) -> char {
    if 'A' <= c && c <= 'Z' {
        ((c as u32) + 32) as char
    } else {
        c
    }
}

pub open spec fn lowered(s: Seq<char>) -> Seq<char> {
    s.map_values(|c: char| ascii_lower(c))
}

fn lower_chars(s: &[char]) -> (r: Vec<char>)
    ensures
        r@ == lowered(s@),
{
    let mut out: Vec<char> = Vec::new();
    let mut i: usize = 0;
    while i < s.len()
        invariant
            i <= s@.len(),
            out@ == lowered(s@.take(i as int)),
        decreases s@.len() - i,
    {
        let c = s[i];
        let l = if 'A' <= c && c <= 'Z' {
            if c == 'A' { 'a' } else if c == 'B' { 'b' } else if c == 'C' { 'c' } else if c == 'D' { 'd' }
            else if c == 'E' { 'e' } else if c == 'F' { 'f' } else if c == 'G' { 'g' } else if c == 'H' { 'h' }
            else if c == 'I' { 'i' } else if c == 'J' { 'j' } else if c == 'K' { 'k' } else if c == 'L' { 'l' }
            else if c == 'M' { 'm' } else if c == 'N' { 'n' } else if c == 'O' { 'o' } else if c == 'P' { 'p' }
            else if c == 'Q' { 'q' } else if c == 'R' { 'r' } else if c == 'S' { 's' } else if c == 'T' { 't' }
            else if c == 'U' { 'u' } else if c == 'V' { 'v' } else if c == 'W' { 'w' } else if c == 'X' { 'x' }
            else if c == 'Y' { 'y' } else { 'z' }
        } else {
            c
        };
        assert(l == ascii_lower(c));
        out.push(l);
        i = i + 1;
        assert(out@ =~= lowered(s@.take(i as int)));
    }
    assert(s@.take(i as int) =~= s@);
    out
}

/// The option that a lowered name denotes.
pub open spec fn option_of(s: Seq<char>) -> Option<SampleBankOption> {
    let l = lowered(s);
    if l == "auto"@ {
        Some(SampleBankOption::Auto)
    } else if l == "normal"@ {
        Some(SampleBankOption::Normal)
    } else if l == "soft"@ {
        Some(SampleBankOption::Soft)
    } else if l == "drum"@ {
        Some(SampleBankOption::Drum)
    } else {
        None
    }
}

impl SampleBankOption {
    /// Reads a sample bank name, ignoring ASCII case.
    pub fn from_name(s: &str) -> (r: Result<SampleBankOption, InvalidSampleBankOptionError>)
        ensures
            match r {
                Ok(o) => option_of(s@) == Some(o),
                Err(e) => option_of(s@) is None && e.0@ == s@,
            },
    {
        let cs = chars_of(s);
        let l = lower_chars(cs.as_slice());
        if chars_eq(l.as_slice(), "auto") {
            Ok(SampleBankOption::Auto)
        } else if chars_eq(l.as_slice(), "normal") {
            Ok(SampleBankOption::Normal)
        } else if chars_eq(l.as_slice(), "soft") {
            Ok(SampleBankOption::Soft)
        } else if chars_eq(l.as_slice(), "drum") {
            Ok(SampleBankOption::Drum)
        } else {
            Err(InvalidSampleBankOptionError(string_of(cs.as_slice())))
        }
    }

    /// The sample bank the option stands for.
    pub fn to_sample_bank(self) -> (r: SampleBank)
        ensures
            r == match self {
                SampleBankOption::Auto => SampleBank::Auto,
                SampleBankOption::Normal => SampleBank::Normal,
                SampleBankOption::Soft => SampleBank::Soft,
                SampleBankOption::Drum => SampleBank::Drum,
            },
    {
        match self {
            SampleBankOption::Auto => SampleBank::Auto,
            SampleBankOption::Normal => SampleBank::Normal,
            SampleBankOption::Soft => SampleBank::Soft,
            SampleBankOption::Drum => SampleBank::Drum,
        }
    }
}

} // verus!
