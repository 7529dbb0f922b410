//! The trusted boundary: the few calls the engine makes into outside crates,
//! each behind a wrapper whose contract states only what the crate's source
//! and documentation show.

use vstd::prelude::*;

verus! {

/// The MD5 digest of the UTF-8 bytes of `s`, rendered as 32 lowercase
/// hexadecimal digits. A function of `s` alone; nothing here states which
/// digits come out.
pub uninterp spec fn md5_hex_of(s: Seq<char>) -> Seq<char>;

/// Relies on `md5::compute` of the md5 crate: the digest depends on the
/// bytes alone, and its `LowerHex` form prints two hex digits for each of
/// the 16 digest bytes.
#[verifier::external_body]
pub fn md5_hex(s: &str) -> (r: String)
    ensures
        r@ == md5_hex_of(s@),
        r@.len() == 32,
{
    format!("{:x}", md5::compute(s.as_bytes()))
}

/// Relies on `uuid::Uuid::new_v4` and its `Display` form of the uuid crate:
/// a random identifier in the hyphenated format, which is 36 characters
/// long. Nothing more can be promised of a random value.
#[verifier::external_body]
pub fn fresh_message_id() -> (r: String)
    ensures
        r@.len() == 36,
{
    uuid::Uuid::new_v4().to_string()
}

/// What a redrive policy document denotes: its `maxReceiveCount` number and
/// its `deadLetterTargetArn` string, if present; `(None, None)` where `s` is
/// no JSON object. A function of `s` alone.
pub uninterp spec fn redrive_policy_of(s: Seq<char>) -> (Option<i64>, Option<Seq<char>>);

/// Relies on `serde_json::from_str` of the serde_json crate: parses the
/// document and moves the two fields out; parsing is deterministic in `s`.
#[verifier::external_body]
pub fn parse_redrive_policy(s: &str) -> (r: (Option<i64>, Option<String>))
    ensures
        r.0 == redrive_policy_of(s@).0,
        match r.1 {
            None => redrive_policy_of(s@).1 matches None,
            Some(a) => redrive_policy_of(s@).1 matches Some(v) && a@ == v,
        },
{
    match serde_json::from_str::<serde_json::Value>(s) {
        Ok(policy) => {
            let max_count = policy.get("maxReceiveCount").and_then(|v| v.as_i64());
            let dlq_arn = policy.get("deadLetterTargetArn").and_then(|v| v.as_str()).map(
                |a| a.to_string(),
            );
            (max_count, dlq_arn)
        },
        Err(_) => (None, None),
    }
}

} // verus!
