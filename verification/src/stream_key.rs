//! The stream key: how one is made, and what the key endpoints answer.

use crate::broker::{ManagerView, StreamManager};
use crate::stream::StreamKeyResponse;
use vstd::prelude::*;
use vstd::string::StringExecFns;

verus! {

/// The lowercase hexadecimal digit of a number below 16.
pub open spec fn hex_digit(n: nat) -> char {
    if n == 0 {
        '0'
    } else if n == 1 {
        '1'
    } else if n == 2 {
        '2'
    } else if n == 3 {
        '3'
    } else if n == 4 {
        '4'
    } else if n == 5 {
        '5'
    } else if n == 6 {
        '6'
    } else if n == 7 {
        '7'
    } else if n == 8 {
        '8'
    } else if n == 9 {
        '9'
    } else if n == 10 {
        'a'
    } else if n == 11 {
        'b'
    } else if n == 12 {
        'c'
    } else if n == 13 {
        'd'
    } else if n == 14 {
        'e'
    } else {
        'f'
    }
}

/// The last `digits` hexadecimal digits of `v`, most significant first.
pub open spec fn hex_of(v: nat, digits: nat) -> Seq<char>
    decreases digits,
{
    if digits == 0 {
        Seq::empty()
    } else {
        hex_of(v / 16, (digits - 1) as nat).push(hex_digit(v % 16))
    }
}

/// The stream key made from a 128-bit identifier: its 32 hexadecimal
/// digits, lowercase, without dashes.
pub open spec fn hex_key(v: u128) -> Seq<char> {
    hex_of(v as nat, 32)
}

/// The decimal digits of `n`, without leading zeros; `0` for zero.
pub open spec fn decimal(n: nat) -> Seq<char>
    decreases n,
{
    if n < 10 {
        seq![hex_digit(n)]
    } else {
        decimal(n / 10).push(hex_digit(n % 10))
    }
}

/// The address that publishers connect to.
pub open spec fn server_url_text(port: u16) -> Seq<char> {
    "rtmp://localhost:"@ + decimal(port as nat) + "/live"@
}

/// The address of one stream: the server address, a slash, the key.
pub open spec fn full_url_text(port: u16, key: Seq<char>) -> Seq<char> {
    server_url_text(port) + "/"@ + key
}

/// Whether `c` is a lowercase hexadecimal digit.
pub open spec fn is_lower_hex(c: char) -> bool {
    ('0' <= c && c <= '9') || ('a' <= c && c <= 'f')
}

/// The number that a lowercase hexadecimal digit stands for.
pub open spec fn hex_value(c: char) -> nat {
    if '0' <= c && c <= '9' {
        (c as nat - '0' as nat) as nat
    } else {
        (c as nat - 'a' as nat + 10) as nat
    }
}

/// The number that a string of hexadecimal digits spells.
pub open spec fn unhex(s: Seq<char>) -> nat
    decreases s.len(),
{
    if s.len() == 0 {
        0
    } else {
        unhex(s.drop_last()) * 16 + hex_value(s.last())
    }
}

/// 16 to the power `n`.
pub open spec fn pow16(n: nat) -> nat
    decreases n,
{
    if n == 0 {
        1
    } else {
        16 * pow16((n - 1) as nat)
    }
}

/// Digits written are digits read: a number that fits `n` hexadecimal
/// digits is spelled by exactly `n` lowercase digits, and they spell it.
pub proof fn lemma_unhex_hex(v: nat, n: nat)
    requires
        v < pow16(n),
    ensures
        hex_of(v, n).len() == n,
        forall|i: int| 0 <= i < n ==> is_lower_hex(#[trigger] hex_of(v, n)[i]),
        unhex(hex_of(v, n)) == v,
    decreases n,
{
    if n > 0 {
        lemma_unhex_hex(v / 16, (n - 1) as nat);
        assert(hex_of(v, n).drop_last() =~= hex_of(v / 16, (n - 1) as nat));
    }
}

/// Every 128-bit number fits 32 hexadecimal digits.
pub proof fn lemma_u128_fits(v: u128)
    ensures
        (v as nat) < pow16(32),
{
    reveal_with_fuel(pow16, 33);
}

/// A stream key is 32 lowercase hexadecimal digits.
pub proof fn lemma_key_is_32_lower_hex(v: u128)
    ensures
        hex_key(v).len() == 32,
        forall|i: int| 0 <= i < 32 ==> is_lower_hex(#[trigger] hex_key(v)[i]),
{
    lemma_u128_fits(v);
    lemma_unhex_hex(v as nat, 32);
}

/// Distinct identifiers make distinct stream keys.
pub proof fn lemma_distinct_uuids_make_distinct_keys(a: u128, b: u128)
    requires
        a != b,
    ensures
        hex_key(a) != hex_key(b),
{
    lemma_u128_fits(a);
    lemma_u128_fits(b);
    lemma_unhex_hex(a as nat, 32);
    lemma_unhex_hex(b as nat, 32);
}

/// The one-character string of a digit.
fn digit_str(n: u8) -> (s: &'static str)
    requires
        n < 16,
    ensures
        s@ == seq![hex_digit(n as nat)],
{
    proof {
        reveal_strlit("0");
        reveal_strlit("1");
        reveal_strlit("2");
        reveal_strlit("3");
        reveal_strlit("4");
        reveal_strlit("5");
        reveal_strlit("6");
        reveal_strlit("7");
        reveal_strlit("8");
        reveal_strlit("9");
        reveal_strlit("a");
        reveal_strlit("b");
        reveal_strlit("c");
        reveal_strlit("d");
        reveal_strlit("e");
        reveal_strlit("f");
    }
    let s = match n {
        0 => "0",
        1 => "1",
        2 => "2",
        3 => "3",
        4 => "4",
        5 => "5",
        6 => "6",
        7 => "7",
        8 => "8",
        9 => "9",
        10 => "a",
        11 => "b",
        12 => "c",
        13 => "d",
        14 => "e",
        _ => "f",
    };
    s
}

/// Appends the last `digits` hexadecimal digits of `v`.
fn push_hex(out: &mut String, v: u128, digits: u32)
    ensures
        final(out)@ == old(out)@ + hex_of(v as nat, digits as nat),
    decreases digits,
{
    if digits > 0 {
        push_hex(out, v / 16, digits - 1);
        out.append(digit_str((v % 16) as u8));
    }
}

/// Appends the decimal digits of `n`.
pub(crate) fn push_decimal(out: &mut String, n: u16)
    ensures
        final(out)@ == old(out)@ + decimal(n as nat),
    decreases n,
{
    if n < 10 {
        out.append(digit_str(n as u8));
    } else {
        push_decimal(out, n / 10);
        out.append(digit_str((n % 10) as u8));
    }
}

/// The stream key made from a 128-bit identifier.
pub fn key_from_uuid(v: u128) -> (key: String)
    ensures
        key@ == hex_key(v),
{
    let mut key = String::new();
    push_hex(&mut key, v, 32);
    key
}

/// The address that publishers connect to, for the given port.
pub fn server_url(port: u16) -> (url: String)
    ensures
        url@ == server_url_text(port),
{
    let mut url = String::new();
    url.append("rtmp://localhost:");
    push_decimal(&mut url, port);
    url.append("/live");
    url
}

/// What the key endpoints answer: the key if there is one, the server
/// address, and the stream's address if there is a key.
pub open spec fn response_for(r: StreamKeyResponse, key: Option<Seq<char>>, port: u16) -> bool {
    &&& r.server_url@ == server_url_text(port)
    &&& match key {
        Some(k) => (r.stream_key matches Some(s) && s@ == k) && (r.full_url matches Some(f) && f@
            == full_url_text(port, k)),
        None => r.stream_key is None && r.full_url is None,
    }
}

/// Builds the answer of the key endpoints.
pub fn key_response(key: Option<String>, port: u16) -> (r: StreamKeyResponse)
    ensures
        response_for(
            r,
            match key {
                Some(k) => Some(k@),
                None => None,
            },
            port,
        ),
{
    let url = server_url(port);
    match key {
        Some(k) => {
            let mut full = server_url(port);
            full.append("/");
            full.append(k.as_str());
            StreamKeyResponse { stream_key: Some(k), server_url: url, full_url: Some(full) }
        },
        None => StreamKeyResponse { stream_key: None, server_url: url, full_url: None },
    }
}

/// Answers a request for the current key.
pub fn get_key(manager: &StreamManager) -> (r: StreamKeyResponse)
    ensures
        response_for(r, manager@.active_key, manager@.rtmp_port),
{
    key_response(manager.get_active_key(), manager.get_rtmp_port())
}

/// `Uuid::new_v4` of the `uuid` crate, as a 128-bit number: a random
/// identifier, of which only the fixed bits are known, the version 4 and
/// the variant `10`.
#[verifier::external_body]
fn random_uuid() -> (v: u128)
    ensures
        v as nat / 0x1000_0000_0000_0000_0000 % 16 == 4,
        v as nat / 0x4000_0000_0000_0000 % 4 == 2,
{
    uuid::Uuid::new_v4().as_u128()
}

/// Makes the key of `uuid` the active key and answers with it. Whoever
/// waits for a key change is to be notified afterwards.
pub fn install_key(manager: &mut StreamManager, uuid: u128) -> (r: StreamKeyResponse)
    ensures
        final(manager)@ == (ManagerView { active_key: Some(hex_key(uuid)), ..old(manager)@ }),
        old(manager).wf() ==> final(manager).wf(),
        response_for(r, Some(hex_key(uuid)), old(manager)@.rtmp_port),
{
    let key = key_from_uuid(uuid);
    manager.set_active_key(key.as_str());
    key_response(Some(key), manager.get_rtmp_port())
}

/// Makes a fresh random key the active key and answers with it. The key is
/// 32 lowercase hexadecimal digits.
pub fn generate_key(manager: &mut StreamManager) -> (r: StreamKeyResponse)
    ensures
        old(manager).wf() ==> final(manager).wf(),
        exists|uuid: u128|
            {
                &&& final(manager)@ == (ManagerView {
                    active_key: Some(#[trigger] hex_key(uuid)),
                    ..old(manager)@
                })
                &&& response_for(r, Some(hex_key(uuid)), old(manager)@.rtmp_port)
            },
{
    let uuid = random_uuid();
    install_key(manager, uuid)
}

/// Clears the active key.
pub fn delete_key(manager: &mut StreamManager)
    ensures
        final(manager)@ == (ManagerView { active_key: None, ..old(manager)@ }),
        old(manager).wf() ==> final(manager).wf(),
{
    manager.clear_active_key();
}

} // verus!
