//! Marking a member present: the HMAC-SHA256 signature that authenticates
//! the request, and the change it makes to the day's attendance record.
use chrono::Datelike;
use hmac::Mac;
use vstd::prelude::*;
use vstd::utf8::*;
use crate::batch::AttendanceRecord;
use crate::decimal::{decimal_bytes, decimal_of};

verus! {

/// HMAC-SHA256 of `message` under `key`.
pub uninterp spec fn hmac_sha256_of(key: Seq<u8>, message: Seq<u8>) -> Seq<u8>;

/// The text chrono's `NaiveDate` `Display` writes (`YYYY-MM-DD`) for the
/// date numbered `day` as `num_days_from_ce` numbers dates.
pub uninterp spec fn iso_date_of(day: int) -> Seq<char>;

/// The value of a hexadecimal digit, either case; -1 for any other character.
pub open spec fn hex_digit_value(c: char) -> int {
    if '0' <= c <= '9' {
        c as int - 48
    } else if 'a' <= c <= 'f' {
        c as int - 87
    } else if 'A' <= c <= 'F' {
        c as int - 55
    } else {
        -1
    }
}

/// The bytes a hexadecimal text stands for: `None` for an odd length or a
/// character that is not a hexadecimal digit.
pub open spec fn hex_decoded(s: Seq<char>) -> Option<Seq<u8>> {
    if s.len() % 2 == 0 && forall|i: int| 0 <= i < s.len() ==> hex_digit_value(#[trigger] s[i]) >= 0 {
        Some(Seq::new((s.len() / 2) as nat, |i: int| (16 * hex_digit_value(s[2 * i]) + hex_digit_value(s[2 * i + 1])) as u8))
    } else {
        None
    }
}

/// Relies on hmac's `Hmac<Sha256>`: `new_from_slice` takes a key of any
/// length, then `update` and `finalize` give the tag.
#[verifier::external_body]
fn hmac_sha256(key: &[u8], message: &[u8]) -> (r: Option<Vec<u8>>)
    ensures
        r is Some,
        (r matches Some(t) ==> t@ == hmac_sha256_of(key@, message@)),
{
    match <hmac::Hmac<sha2::Sha256> as Mac>::new_from_slice(key) {
        Ok(mut mac) => {
            mac.update(message);
            Some(mac.finalize().into_bytes().to_vec())
        },
        Err(_) => None,
    }
}

/// Relies on hex's `decode`: odd length or a non-hex character fails; each
/// pair of digits gives one byte, high digit first.
#[verifier::external_body]
fn decode_hex(text: &str) -> (r: Option<Vec<u8>>)
    ensures
        (r is Some) == (hex_decoded(text@) is Some),
        (r matches Some(v) ==> Some(v@) == hex_decoded(text@)),
{
    hex::decode(text).ok()
}

/// Relies on chrono's `NaiveDate::from_num_days_from_ce_opt` and the
/// `Display` of `NaiveDate`; `None` outside chrono's range of dates, which
/// holds every day from 0001-01-01 (day 1) to 9999-12-31 (day 3652059).
#[verifier::external_body]
fn iso_date(day: i32) -> (r: Option<String>)
    ensures
        1 <= day <= 3652059 ==> r is Some,
        (r matches Some(t) ==> t@ == iso_date_of(day as int)),
{
    match chrono::NaiveDate::from_num_days_from_ce_opt(day) {
        Some(d) => Some(d.to_string()),
        None => None,
    }
}

/// Why a mark-present request was refused.
#[derive(Clone, Copy, Debug, PartialEq, Eq, Structural)]
pub enum SignatureError {
    /// The signature is not hexadecimal.
    InvalidHex,
    /// The signature does not match the request.
    Mismatch,
    /// The date has no calendar text.
    InvalidDate,
}

/// The signed message: the member id in decimal followed by the date text.
pub open spec fn attendance_message(member_id: int, date_text: Seq<char>) -> Seq<u8> {
    decimal_bytes(member_id) + encode_utf8(date_text)
}

/// The verdict on a hexadecimal signature given the expected tag.
pub open spec fn signature_verdict(signature: Seq<char>, expected: Seq<u8>) -> Result<(), SignatureError> {
    match hex_decoded(signature) {
        None => Err(SignatureError::InvalidHex),
        Some(b) => if b == expected {
            Ok(())
        } else {
            Err(SignatureError::Mismatch)
        },
    }
}

/// Compares a hexadecimal signature with the expected tag.
pub fn signature_matches(expected: &[u8], signature_hex: &str) -> (r: Result<(), SignatureError>)
    ensures
        r == signature_verdict(signature_hex@, expected@),
{
    match decode_hex(signature_hex) {
        None => Err(SignatureError::InvalidHex),
        Some(received) => {
            if received.len() != expected.len() {
                return Err(SignatureError::Mismatch);
            }
            let mut i: usize = 0;
            while i < expected.len()
                invariant
                    i <= expected@.len(),
                    received@.len() == expected@.len(),
                    Some(received@) == hex_decoded(signature_hex@),
                    forall|j: int| 0 <= j < i ==> received@[j] == expected@[j],
                decreases expected@.len() - i,
            {
                if received[i] != expected[i] {
                    proof {
                        assert(received@[i as int] != expected@[i as int]);
                        assert(received@ != expected@);
                    }
                    return Err(SignatureError::Mismatch);
                }
                i = i + 1;
            }
            proof {
                assert(received@ =~= expected@);
            }
            Ok(())
        },
    }
}

/// Checks the signature of a request to mark `member_id` present on the date
/// numbered `date`: HMAC-SHA256 under the service secret of the member id in
/// decimal followed by the date as `YYYY-MM-DD`.
pub fn verify_attendance_signature(secret: &str, member_id: i32, date: i32, signature_hex: &str) -> (r: Result<
    (),
    SignatureError,
>)
    ensures
        1 <= date <= 3652059 ==> r != Err::<(), SignatureError>(SignatureError::InvalidDate),
        r != Err::<(), SignatureError>(SignatureError::InvalidDate) ==> r == signature_verdict(
            signature_hex@,
            hmac_sha256_of(encode_utf8(secret@), attendance_message(member_id as int, iso_date_of(date as int))),
        ),
{
    let date_text = match iso_date(date) {
        Some(t) => t,
        None => return Err(SignatureError::InvalidDate),
    };
    let date_bytes = date_text.as_str().as_bytes();
    let mut message = decimal_of(member_id);
    let ghost head = message@;
    let mut i: usize = 0;
    while i < date_bytes.len()
        invariant
            i <= date_bytes@.len(),
            message@ == head + date_bytes@.subrange(0, i as int),
        decreases date_bytes@.len() - i,
    {
        message.push(date_bytes[i]);
        i = i + 1;
        proof {
            assert(message@ =~= head + date_bytes@.subrange(0, i as int));
        }
    }
    proof {
        assert(date_bytes@.subrange(0, i as int) =~= date_bytes@);
    }
    match hmac_sha256(secret.as_bytes(), message.as_slice()) {
        Some(expected) => signature_matches(expected.as_slice(), signature_hex),
        None => Err(SignatureError::Mismatch),
    }
}

/// The record after its member is marked present at `now` (seconds past
/// local midnight): present, checked out at `now`, and checked in at `now`
/// unless checked in already.
pub open spec fn marked_present_spec(record: AttendanceRecord, now: u32) -> AttendanceRecord {
    AttendanceRecord {
        is_present: true,
        time_in: if record.time_in is None { Some(now) } else { record.time_in },
        time_out: Some(now),
        ..record
    }
}

pub fn marked_present(record: AttendanceRecord, now: u32) -> (r: AttendanceRecord)
    ensures
        r == marked_present_spec(record, now),
{
    AttendanceRecord {
        member_id: record.member_id,
        date: record.date,
        is_present: true,
        time_in: match record.time_in {
            None => Some(now),
            Some(t) => Some(t),
        },
        time_out: Some(now),
    }
}

} // verus!
