//! The fingerprint of an image, the time of day, and whole numbers written
//! out in decimal.

use vstd::prelude::*;
use std::time::{Duration, SystemTime, SystemTimeError, UNIX_EPOCH};
use tiny_keccak::{Hasher, Sha3};

verus! {

/// The SHA3-256 digest of `data`, as `tiny_keccak` computes it.
pub uninterp spec fn sha3_256(data: Seq<u8>) -> Seq<u8>;

/// The hasher `Sha3::v256` of `tiny_keccak`, fed with `bytes` by `update` and
/// ended by `finalize` into 32 bytes.
///
/// Claimed of it: the 32 bytes depend on `bytes` alone; they are given the
/// name `sha3_256`.
#[verifier::external_body]
pub(crate) fn sha3_256_digest(bytes: &[u8]) -> (digest: [u8; 32])
    ensures
        digest@ == sha3_256(bytes@),
{
    let mut hasher = Sha3::v256();
    let mut output = [0u8; 32];
    hasher.update(bytes);
    hasher.finalize(&mut output);
    output
}

/// The lower-case hexadecimal digit for `n`, which is below 16.
pub open spec fn hex_digit(n: int) -> char {
    if n < 10 {
        (48 + n) as char
    } else {
        (87 + n) as char
    }
}

pub open spec fn is_hex_digit(c: char) -> bool {
    ('0' <= c && c <= '9') || ('a' <= c && c <= 'f')
}

/// `bytes` in hexadecimal: two lower-case digits for each byte, the high half
/// first.
pub open spec fn hex_text(bytes: Seq<u8>) -> Seq<char> {
    Seq::new(
        2 * bytes.len(),
        |i: int|
            if i % 2 == 0 {
                hex_digit(bytes[i / 2] as int / 16)
            } else {
                hex_digit(bytes[i / 2] as int % 16)
            },
    )
}

/// `hex::encode` of the `hex` crate.
///
/// Claimed of it: each byte is written as two lower-case hexadecimal digits,
/// the high half first, in the order of the bytes.
#[verifier::external_body]
pub(crate) fn hex_encode(bytes: &[u8]) -> (text: String)
    ensures
        text@ == hex_text(bytes@),
{
    hex::encode(bytes)
}

/// Hexadecimal text is twice as long as its bytes and holds hexadecimal
/// digits only.
pub proof fn lemma_hex_text(bytes: Seq<u8>)
    ensures
        hex_text(bytes).len() == 2 * bytes.len(),
        forall|i: int| 0 <= i < hex_text(bytes).len() ==> is_hex_digit(#[trigger] hex_text(bytes)[i]),
{
    assert forall|i: int| 0 <= i < hex_text(bytes).len() implies is_hex_digit(
        #[trigger] hex_text(bytes)[i],
    ) by {
        let b = bytes[i / 2] as int;
        assert(0 <= b / 16 < 16);
        assert(0 <= b % 16 < 16);
    }
}

/// The fingerprint of `bytes`: their SHA3-256 digest in hexadecimal, 64
/// digits.
pub fn hash(bytes: &[u8]) -> (text: String)
    ensures
        text@ == hex_text(sha3_256(bytes@)),
        text@.len() == 64,
        forall|i: int| 0 <= i < 64 ==> is_hex_digit(#[trigger] text@[i]),
{
    let digest: [u8; 32] = sha3_256_digest(bytes);
    proof {
        lemma_hex_text(digest@);
    }
    hex_encode(digest.as_slice())
}

/// A moment of the system's clock.
#[verifier::external_type_specification]
#[verifier::external_body]
pub struct ExSystemTime(std::time::SystemTime);

/// What `SystemTime::duration_since` hands back where the earlier moment is
/// the later one.
#[verifier::external_type_specification]
#[verifier::external_body]
pub struct ExSystemTimeError(std::time::SystemTimeError);

/// `SystemTime::now` reads the clock. Nothing is claimed of the moment.
pub assume_specification[ std::time::SystemTime::now ]() -> (now: SystemTime)
;

/// The whole milliseconds that a span of time holds, as `Duration::as_millis`
/// counts them.
pub uninterp spec fn whole_millis(span: Duration) -> u128;

/// `Duration::as_millis` gives the whole milliseconds of a span of time.
///
/// Claimed of it: their number depends on the span alone; it is given the
/// name `whole_millis`.
pub assume_specification[ core::time::Duration::as_millis ](span: &Duration) -> (millis: u128)
    ensures
        millis == whole_millis(*span),
;

/// `SystemTime::duration_since`, asked for the time from `UNIX_EPOCH` to
/// `moment`. Nothing is claimed of the answer.
#[verifier::external_body]
pub(crate) fn since_epoch(moment: &SystemTime) -> (elapsed: Result<Duration, SystemTimeError>) {
    moment.duration_since(UNIX_EPOCH)
}

/// The milliseconds that the clock counts from the epoch, given what it
/// answers when asked for the time since the epoch: the whole milliseconds of
/// that span, and zero where the clock stood before the epoch.
pub open spec fn epoch_millis(elapsed: Result<Duration, SystemTimeError>) -> u128 {
    match elapsed {
        Ok(span) => whole_millis(span),
        Err(_) => 0,
    }
}

/// The milliseconds in a span of time counted from the epoch; zero where the
/// clock stood before the epoch.
pub fn millis_of(elapsed: Result<Duration, SystemTimeError>) -> (millis: u128)
    ensures
        millis == epoch_millis(elapsed),
{
    match elapsed {
        Ok(span) => span.as_millis(),
        Err(_) => 0,
    }
}

/// The time of day, in milliseconds since the Unix epoch; zero where the
/// clock stands before the epoch.
///
/// Which moment the clock gives is open. Whatever it gives, the result is the
/// milliseconds that `millis_of` counts for the time from the epoch to that
/// moment.
pub fn timestamp() -> (millis: u128)
    ensures
        exists|elapsed: Result<Duration, SystemTimeError>| millis == #[trigger] epoch_millis(elapsed),
{
    let now: SystemTime = SystemTime::now();
    let elapsed: Result<Duration, SystemTimeError> = since_epoch(&now);
    let ghost answer = elapsed;
    let millis: u128 = millis_of(elapsed);
    assert(millis == epoch_millis(answer));
    millis
}

pub open spec fn digit_char(d: int) -> char {
    (48 + d) as char
}

/// The decimal digits of `n`, without leading zeros.
pub open spec fn decimal_digits(n: nat) -> Seq<char>
    decreases n,
{
    if n < 10 {
        seq![digit_char(n as int)]
    } else {
        decimal_digits(n / 10).push(digit_char((n % 10) as int))
    }
}

/// `n` written out in decimal, with `-` before it where it is below zero.
pub open spec fn decimal(n: int) -> Seq<char> {
    if n < 0 {
        seq!['-'] + decimal_digits((-n) as nat)
    } else {
        decimal_digits(n as nat)
    }
}

/// The digit `d` as text.
pub(crate) fn digit_text(d: u64) -> (text: &'static str)
    requires
        d < 10,
    ensures
        text@ == seq![digit_char(d as int)],
{
    proof {
        reveal_strlit("0");
        reveal_strlit("1");
        reveal_strlit("2");
        reveal_strlit("3");
        reveal_strlit("4");
        reveal_strlit("5");
        reveal_strlit("6");
        reveal_strlit("7");
        reveal_strlit("8");
        reveal_strlit("9");
    }
    let text: &'static str = if d == 0 {
        "0"
    } else if d == 1 {
        "1"
    } else if d == 2 {
        "2"
    } else if d == 3 {
        "3"
    } else if d == 4 {
        "4"
    } else if d == 5 {
        "5"
    } else if d == 6 {
        "6"
    } else if d == 7 {
        "7"
    } else if d == 8 {
        "8"
    } else {
        "9"
    };
    assert(text@ =~= seq![digit_char(d as int)]);
    text
}

/// Puts the decimal digits of `n` behind `text`.
pub fn push_decimal(text: &mut String, n: u64)
    ensures
        final(text)@ == old(text)@ + decimal_digits(n as nat),
    decreases n,
{
    if n >= 10 {
        push_decimal(text, n / 10);
    }
    let ghost before = text@;
    text.append(digit_text(n % 10));
    proof {
        if n >= 10 {
            assert(text@ =~= old(text)@ + decimal_digits(n as nat));
        } else {
            assert(text@ =~= old(text)@ + decimal_digits(n as nat));
        }
    }
}

/// `n` written out in decimal.
pub fn decimal_string(n: i64) -> (text: String)
    ensures
        text@ == decimal(n as int),
{
    let mut text: String = String::new();
    if n < 0 {
        proof {
            reveal_strlit("-");
        }
        text.append("-");
        assert(text@ =~= seq!['-']);
        let size: u64 = if n == i64::MIN {
            9_223_372_036_854_775_808u64
        } else {
            (-n) as u64
        };
        push_decimal(&mut text, size);
    } else {
        push_decimal(&mut text, n as u64);
        assert(text@ =~= decimal_digits(n as nat));
    }
    text
}

} // verus!
