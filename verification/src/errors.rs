//! The error taxonomy of the pipeline. Every failure is returned to the
//! caller; nothing here aborts the process.
use vstd::prelude::*;

use crate::format::digit_char;

verus! {

/// Everything that can go wrong between a raw query and a rendered report.
#[derive(Clone, Copy, Debug, PartialEq, Eq)]
pub enum ScoutError {
    /// The reference symbol list cannot be read.
    CatalogUnavailable,
    /// No catalog entry clears the similarity threshold.
    NoConfidentMatch,
    /// The cookie-seeding request at session construction failed.
    SessionBootstrapFailed,
    /// An endpoint needs the crumb token and the session holds none.
    MissingCredential,
    /// The rate gate refused the fetch; retry after this many milliseconds.
    RateLimited { retry_after_ms: u64 },
    /// The upstream answered with a bad status, or (`None`) not at all.
    FetchFailed { status: Option<u16> },
    /// Neither extraction strategy recognises the page.
    UnrecognizedPageFormat,
    /// The embedded payload is not valid JSON.
    MalformedJson,
}

/// The decimal rendering of a nonnegative number.
pub open spec fn spec_dec(n: int) -> Seq<char>
    decreases n,
{
    if n < 10 {
        seq![digit_char(n)]
    } else {
        spec_dec(n / 10).push(digit_char(n % 10))
    }
}

/// Renders a number in decimal.
pub fn dec_u64(n: u64) -> (r: String)
    ensures
        r@ == spec_dec(n as int),
    decreases n,
{
    if n < 10 {
        let mut s = String::new();
        crate::text::string_push(&mut s, crate::format::char_of_digit(n as u8));
        proof {
            assert(s@ =~= seq![digit_char(n as int)]);
        }
        s
    } else {
        let mut s = dec_u64(n / 10);
        crate::text::string_push(&mut s, crate::format::char_of_digit((n % 10) as u8));
        s
    }
}

/// The decimal rendering of a number, sign included.
pub open spec fn spec_dec_i(n: int) -> Seq<char> {
    if n < 0 {
        seq!['-'] + spec_dec(-n)
    } else {
        spec_dec(n)
    }
}

/// Renders a signed number in decimal.
pub fn dec_i64(n: i64) -> (r: String)
    ensures
        r@ == spec_dec_i(n as int),
{
    if n >= 0 {
        dec_u64(n as u64)
    } else {
        let mag: u64 = (-(n as i128)) as u64;
        let mut s = String::new();
        crate::text::string_push(&mut s, '-');
        let tail = dec_u64(mag);
        s.append(tail.as_str());
        proof {
            assert(s@ =~= seq!['-'] + spec_dec(mag as int));
        }
        s
    }
}

/// The one-line description of an error.
pub open spec fn spec_message(e: ScoutError) -> Seq<char> {
    match e {
        ScoutError::CatalogUnavailable => "catalog unavailable: the symbol list cannot be read"@,
        ScoutError::NoConfidentMatch => "no confident match in the symbol catalog"@,
        ScoutError::SessionBootstrapFailed => "session bootstrap failed: the landing page request did not succeed"@,
        ScoutError::MissingCredential => "missing credential: the session holds no crumb token"@,
        ScoutError::RateLimited { retry_after_ms } => "rate limited; retry after this many milliseconds: "@
            + spec_dec(retry_after_ms as int),
        ScoutError::FetchFailed { status } => match status {
            Some(code) => "fetch failed with http status "@ + spec_dec(code as int),
            None => "fetch failed: transport error"@,
        },
        ScoutError::UnrecognizedPageFormat => "unrecognized page format: the upstream page structure has changed"@,
        ScoutError::MalformedJson => "malformed json in the embedded payload"@,
    }
}

impl ScoutError {
    /// The one-line description, for the shell to print.
    pub fn message(&self) -> (r: String)
        ensures
            r@ == spec_message(*self),
    {
        match self {
            ScoutError::CatalogUnavailable => "catalog unavailable: the symbol list cannot be read".to_owned(),
            ScoutError::NoConfidentMatch => "no confident match in the symbol catalog".to_owned(),
            ScoutError::SessionBootstrapFailed => "session bootstrap failed: the landing page request did not succeed".to_owned(),
            ScoutError::MissingCredential => "missing credential: the session holds no crumb token".to_owned(),
            ScoutError::RateLimited { retry_after_ms } => {
                let mut s =
                    "rate limited; retry after this many milliseconds: ".to_owned();
                let tail = dec_u64(*retry_after_ms);
                s.append(tail.as_str());
                s
            },
            ScoutError::FetchFailed { status } => match status {
                Some(code) => {
                    let mut s = "fetch failed with http status ".to_owned();
                    let tail = dec_u64(*code as u64);
                    s.append(tail.as_str());
                    s
                },
                None => "fetch failed: transport error".to_owned(),
            },
            ScoutError::UnrecognizedPageFormat => "unrecognized page format: the upstream page structure has changed".to_owned(),
            ScoutError::MalformedJson => "malformed json in the embedded payload".to_owned(),
        }
    }
}

} // verus!
