//! Process configuration as plain values, and how a port number is read
//! from text.

use vstd::prelude::*;
use vstd::string::StringSliceAdditionalSpecFns;

verus! {

/// The RTMP port where none is configured.
pub const DEFAULT_RTMP_PORT: u16 = 1935;

/// The HTTP-FLV port where none is configured.
pub const DEFAULT_HTTP_FLV_PORT: u16 = 8888;

/// Settings that the process is started with.
pub struct Config {
    pub gemini_api_key: String,
    pub rtmp_port: u16,
    pub http_flv_port: u16,
}

/// Whether a byte is an ASCII decimal digit.
pub open spec fn is_digit(b: u8) -> bool {
    0x30 <= b <= 0x39
}

/// Whether every byte is an ASCII decimal digit.
pub open spec fn all_digits(s: Seq<u8>) -> bool {
    forall|i: int| 0 <= i < s.len() ==> is_digit(#[trigger] s[i])
}

/// The number that a string of decimal digits spells.
pub open spec fn digits_value(s: Seq<u8>) -> nat
    decreases s.len(),
{
    if s.len() == 0 {
        0
    } else {
        digits_value(s.drop_last()) * 10 + (s.last() - 0x30) as nat
    }
}

/// The port that a text spells: decimal digits, at least one, after an
/// optional `+`, with a value of at most 65535. `None` for any other text.
pub open spec fn port_of(text: Seq<u8>) -> Option<u16> {
    let digits = if text.len() > 0 && text[0] == 0x2B {
        text.skip(1)
    } else {
        text
    };
    if digits.len() > 0 && all_digits(digits) && digits_value(digits) <= u16::MAX {
        Some(digits_value(digits) as u16)
    } else {
        None
    }
}

/// More digits do not spell less.
proof fn lemma_digits_value_grows(s: Seq<u8>, n: int)
    requires
        0 <= n <= s.len(),
        all_digits(s),
    ensures
        digits_value(s.take(n)) <= digits_value(s),
    decreases s.len() - n,
{
    if n < s.len() {
        lemma_digits_value_grows(s, n + 1);
        assert(s.take(n + 1).drop_last() =~= s.take(n));
    } else {
        assert(s.take(n) =~= s);
    }
}

/// Reads a port number from text.
pub fn parse_port(text: &str) -> (port: Option<u16>)
    ensures
        port == port_of(text.spec_bytes()),
{
    let bytes = text.as_bytes();
    let start: usize = if bytes.len() > 0 && bytes[0] == 0x2B {
        1
    } else {
        0
    };
    if bytes.len() == start {
        assert(bytes@.skip(0) =~= bytes@);
        return None;
    }
    let ghost digits = bytes@.skip(start as int);
    let mut value: u32 = 0;
    let mut i: usize = start;
    while i < bytes.len()
        invariant
            start <= i <= bytes@.len(),
            start < bytes@.len(),
            bytes@ == text.spec_bytes(),
            start == if bytes@.len() > 0 && bytes@[0] == 0x2B {
                1int
            } else {
                0int
            },
            digits == bytes@.skip(start as int),
            all_digits(digits.take(i - start)),
            value == digits_value(digits.take(i - start)),
            value <= u16::MAX,
        decreases bytes@.len() - i,
    {
        let b = bytes[i];
        if b < 0x30 || b > 0x39 {
            assert(!is_digit(digits[i - start]));
            assert(bytes@.skip(0) =~= bytes@);
            return None;
        }
        let ghost upto = digits.take(i - start + 1);
        proof {
            assert(upto.drop_last() =~= digits.take(i - start));
            assert(upto.last() == b);
            assert forall|j: int| 0 <= j < upto.len() implies is_digit(#[trigger] upto[j]) by {
                if j < i - start {
                    assert(upto[j] == digits.take(i - start)[j]);
                }
            }
        }
        value = value * 10 + (b - 0x30) as u32;
        if value > 65535 {
            proof {
                if all_digits(digits) {
                    lemma_digits_value_grows(digits, i - start + 1);
                }
                assert(bytes@.skip(0) =~= bytes@);
            }
            return None;
        }
        i += 1;
    }
    proof {
        assert(digits.take(i - start) =~= digits);
        assert(bytes@.skip(0) =~= bytes@);
    }
    Some(value as u16)
}

/// The RTMP port that a configured text gives: the port it spells, or 1935
/// where nothing is configured or the text spells no port.
pub fn rtmp_port_from(text: Option<&str>) -> (port: u16)
    ensures
        port == match text {
            Some(t) => match port_of(t.spec_bytes()) {
                Some(p) => p,
                None => DEFAULT_RTMP_PORT,
            },
            None => DEFAULT_RTMP_PORT,
        },
{
    match text {
        Some(t) => match parse_port(t) {
            Some(p) => p,
            None => DEFAULT_RTMP_PORT,
        },
        None => DEFAULT_RTMP_PORT,
    }
}

impl Config {
    /// The configuration that the given settings make. A port that is not
    /// configured takes its default, 1935 for RTMP and 8888 for HTTP-FLV.
    /// `None` where a configured port is not a port number.
    pub fn from_values(gemini_api_key: String, rtmp_port: Option<&str>, http_flv_port: Option<&str>)
        -> (config: Option<Config>)
        ensures
            ({
                let rtmp = match rtmp_port {
                    Some(t) => port_of(t.spec_bytes()),
                    None => Some(DEFAULT_RTMP_PORT),
                };
                let http = match http_flv_port {
                    Some(t) => port_of(t.spec_bytes()),
                    None => Some(DEFAULT_HTTP_FLV_PORT),
                };
                match config {
                    Some(c) => rtmp == Some(c.rtmp_port) && http == Some(c.http_flv_port)
                        && c.gemini_api_key@ == gemini_api_key@,
                    None => rtmp is None || http is None,
                }
            }),
    {
        let rtmp = match rtmp_port {
            Some(t) => parse_port(t),
            None => Some(DEFAULT_RTMP_PORT),
        };
        let http = match http_flv_port {
            Some(t) => parse_port(t),
            None => Some(DEFAULT_HTTP_FLV_PORT),
        };
        match (rtmp, http) {
            (Some(r), Some(h)) => Some(Config { gemini_api_key, rtmp_port: r, http_flv_port: h }),
            _ => None,
        }
    }
}

} // verus!
