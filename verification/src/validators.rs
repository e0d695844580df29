//! Stand-alone value parsers with exact contracts: a port number, an email
//! address, a percentage, and a directory check.  Each returns the parsed
//! value or the precise message it fails with.

use vstd::prelude::*;

use crate::digits::{dec_value, parse_u64, unsigned_body, valid_digits};
use crate::strutil::contains_char;
use crate::value::email_ok;

verus! {

/// Parse a port number: an optionally `+`-signed decimal string worth 1
/// through 65535.
pub fn port_in_range(s: &str) -> (r: Result<u16, String>)
    ensures
        (r is Ok) <==> (valid_digits(unsigned_body(s@)) && 1 <= dec_value(unsigned_body(s@))
            <= 65535),
        r matches Ok(p) ==> p == dec_value(unsigned_body(s@)),
        r matches Err(m) ==> m@ == (if !(valid_digits(unsigned_body(s@)) && dec_value(
            unsigned_body(s@),
        ) <= u64::MAX) {
            "`"@ + s@ + "` isn't a valid port number"@
        } else {
            "port not in range 1-65535"@
        }),
{
    match parse_u64(s) {
        Some(v) => {
            if 1 <= v && v <= 65535 {
                Ok(v as u16)
            } else {
                Err("port not in range 1-65535".to_owned())
            }
        },
        None => {
            let mut m = "`".to_owned();
            m.append(s);
            m.append("` isn't a valid port number");
            Err(m)
        },
    }
}

/// Accept a string as an email address when it mentions `@` and `.` and its
/// UTF-8 form is longer than five bytes.
pub fn validate_email(s: &str) -> (r: Result<String, String>)
    ensures
        (r is Ok) <==> email_ok(s@),
        r matches Ok(t) ==> t@ == s@,
        r matches Err(m) ==> m@ == "`"@ + s@ + "` is not a valid email address"@,
{
    if contains_char(s, '@') && contains_char(s, '.') && s.as_bytes().len() > 5 {
        Ok(s.to_owned())
    } else {
        let mut m = "`".to_owned();
        m.append(s);
        m.append("` is not a valid email address");
        Err(m)
    }
}

/// Parse a percentage: an optionally `+`-signed decimal string worth 0
/// through 100.  A string that does not even read as a byte-sized number is
/// reported differently from one that is merely too large.
pub fn parse_percentage(s: &str) -> (r: Result<u8, String>)
    ensures
        (r is Ok) <==> (valid_digits(unsigned_body(s@)) && dec_value(unsigned_body(s@)) <= 100),
        r matches Ok(v) ==> v == dec_value(unsigned_body(s@)),
        r matches Err(m) ==> m@ == (if !(valid_digits(unsigned_body(s@)) && dec_value(
            unsigned_body(s@),
        ) <= 255) {
            "`"@ + s@ + "` isn't a valid number"@
        } else {
            "percentage must be between 0 and 100"@
        }),
{
    let wide = match parse_u64(s) {
        Some(v) => {
            if v <= 255 {
                Some(v)
            } else {
                None
            }
        },
        None => None,
    };
    match wide {
        Some(v) => {
            if v <= 100 {
                Ok(v as u8)
            } else {
                Err("percentage must be between 0 and 100".to_owned())
            }
        },
        None => {
            let mut m = "`".to_owned();
            m.append(s);
            m.append("` isn't a valid number");
            Err(m)
        },
    }
}

/// Accept a directory path the caller has already probed: the engine never
/// touches the filesystem itself, so the existence facts are taken as
/// arguments and only the decision is made here.
pub fn validate_directory(s: &str, present: bool, is_dir: bool) -> (r: Result<String, String>)
    ensures
        (r is Ok) <==> (present && is_dir),
        r matches Ok(t) ==> t@ == s@,
        r matches Err(m) ==> m@ == "directory does not exist: "@ + s@,
{
    if present && is_dir {
        Ok(s.to_owned())
    } else {
        let mut m = "directory does not exist: ".to_owned();
        m.append(s);
        Err(m)
    }
}

} // verus!
