use vstd::prelude::*;
use vstd::string::StringSliceAdditionalSpecFns;
use vstd::string::StrSliceExecFns;

use crate::config::Path;

verus! {

/// The byte that an escape spelling `\c` stands for, if `c` names one.
pub open spec fn escape_byte(c: char) -> Option<u8> {
    if c == 't' {
        Some(0x09u8)
    } else if c == 'n' {
        Some(0x0Au8)
    } else if c == 'r' {
        Some(0x0Du8)
    } else if c == '0' {
        Some(0x00u8)
    } else if c == '\\' {
        Some(0x5Cu8)
    } else {
        None
    }
}

/// The delimiter byte that a configuration string stands for: an escape
/// spelling of two characters, or the first byte of a single character.
pub open spec fn delimiter_of(s: &str) -> Option<u8> {
    if s@.len() == 2 && s@[0] == '\\' {
        escape_byte(s@[1])
    } else if s@.len() == 1 {
        Some(s.spec_bytes()[0])
    } else {
        None
    }
}

/// Parses a delimiter given as text: `\t`, `\n`, `\r`, `\0` and `\\` stand for
/// their bytes, a single character for its first byte; anything else is refused.
pub fn delimiter_from_str(delim: &str) -> (r: Result<u8, &'static str>)
    ensures
        r is Ok <==> delimiter_of(delim) is Some,
        r matches Ok(b) ==> delimiter_of(delim) == Some(b),
        r matches Err(e) ==> (delim@.len() == 0 <==> e@ == "Empty delimiter"@),
{
    let n: usize = delim.unicode_len();
    if n == 0 {
        return Err("Empty delimiter");
    }
    if n == 1 {
        let bytes = delim.as_bytes();
        proof {
            reveal_with_fuel(vstd::utf8::encode_utf8, 2);
            assert(delim.spec_bytes().len() > 0);
        }
        return Ok(bytes[0]);
    }
    if n == 2 && delim.get_char(0) == '\\' {
        let c: char = delim.get_char(1);
        if c == 't' {
            return Ok(0x09u8);
        } else if c == 'n' {
            return Ok(0x0Au8);
        } else if c == 'r' {
            return Ok(0x0Du8);
        } else if c == '0' {
            return Ok(0x00u8);
        } else if c == '\\' {
            return Ok(0x5Cu8);
        }
    }
    let e = "Delimiter must be one character or an escape";
    proof {
        reveal_strlit("Empty delimiter");
        reveal_strlit("Delimiter must be one character or an escape");
        assert(e@.len() != "Empty delimiter"@.len());
    }
    Err(e)
}

/// What the record reader is configured with: where to read and which byte
/// ends a record.
#[derive(Debug, Clone)]
pub struct InputThread {
    pub input: Path,
    pub delimiter: u8,
}

impl InputThread {
    pub fn new(input: Path, delimiter: u8) -> (r: InputThread)
        ensures
            r.input == input,
            r.delimiter == delimiter,
    {
        InputThread { input, delimiter }
    }
}

} // verus!
