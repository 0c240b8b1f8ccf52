//! The names under which connections are found.

use vstd::prelude::*;
use iceoryx2_bb_container::semantic_string::SemanticString;
use iceoryx2_bb_system_types::file_name::FileName;

verus! {

/// Greatest length of a file name.
pub const FILENAME_LENGTH: usize = 255;

/// The bytes that a file name is made of.
pub uninterp spec fn file_name_bytes(name: FileName) -> Seq<u8>;

/// A text of decimal digits and underscores that is not empty and not
/// longer than a file name may be.
pub open spec fn spec_is_plain_name(bytes: Seq<u8>) -> bool {
    &&& 1 <= bytes.len() <= FILENAME_LENGTH
    &&& forall|i: int| 0 <= i < bytes.len() ==> 48 <= #[trigger] bytes[i] <= 57 || bytes[i] == 95
}

/// `SemanticString::new` for `FileName`: the file name of the given
/// bytes. The call fails only for a text that is longer than 255 bytes,
/// that is empty, `.` or `..`, that is no UTF-8, or that holds a slash, a
/// control character or one of `: \ < > " | ? *`; a text of digits and
/// underscores within the length is therefore always accepted. The file
/// name holds the bytes it was made from.
#[verifier::external_body]
fn file_name_from(bytes: &Vec<u8>) -> (name: Option<FileName>)
    ensures
        spec_is_plain_name(bytes@) ==> name.is_some(),
        name matches Some(n) ==> file_name_bytes(n) == bytes@,
{
    FileName::new(bytes.as_slice()).ok()
}

/// The decimal digits of `n`, most significant first.
pub open spec fn spec_decimal(n: nat) -> Seq<u8>
    decreases n,
{
    if n < 10 {
        seq![(48 + n) as u8]
    } else {
        spec_decimal(n / 10).push((48 + n % 10) as u8)
    }
}

/// Ten to the power of `k`.
pub open spec fn spec_pow10(k: nat) -> nat
    decreases k,
{
    if k == 0 {
        1
    } else {
        10 * spec_pow10((k - 1) as nat)
    }
}

/// A number below ten to the power of `k` has at most `k` digits, and at
/// least one, and all of them are digits.
pub proof fn lemma_decimal_digits(n: nat, k: nat)
    requires
        k >= 1,
        n < spec_pow10(k),
    ensures
        1 <= spec_decimal(n).len() <= k,
        forall|i: int| 0 <= i < spec_decimal(n).len() ==> 48 <= #[trigger] spec_decimal(n)[i] <= 57,
    decreases n,
{
    if n >= 10 {
        if k == 1 {
            assert(spec_pow10(1) == 10 * spec_pow10(0));
        }
        assert(n / 10 < spec_pow10((k - 1) as nat));
        lemma_decimal_digits(n / 10, (k - 1) as nat);
    }
}

/// Every number of 128 bits has at most 39 decimal digits.
pub proof fn lemma_decimal_of_u128(n: u128)
    ensures
        1 <= spec_decimal(n as nat).len() <= 39,
        forall|i: int| 0 <= i < spec_decimal(n as nat).len() ==> 48 <= #[trigger] spec_decimal(n as nat)[i] <= 57,
{
    reveal_with_fuel(spec_pow10, 40);
    assert(spec_pow10(39) == 1000000000000000000000000000000000000000);
    lemma_decimal_digits(n as nat, 39);
}

/// Writes `n` in decimal digits.
pub fn decimal(n: u128) -> (digits: Vec<u8>)
    ensures
        digits@ == spec_decimal(n as nat),
    decreases n,
{
    if n < 10 {
        let mut digits: Vec<u8> = Vec::new();
        digits.push(48 + n as u8);
        assert(digits@ =~= spec_decimal(n as nat));
        digits
    } else {
        let mut digits = decimal(n / 10);
        digits.push(48 + (n % 10) as u8);
        digits
    }
}

/// The bytes of the name of the connection between two ports: their ids
/// in decimal, joined by an underscore.
pub open spec fn spec_connection_name(publisher_id: u128, subscriber_id: u128) -> Seq<u8> {
    spec_decimal(publisher_id as nat).push(95) + spec_decimal(subscriber_id as nat)
}

/// The name of the connection between a publisher and a subscriber.
pub fn connection_name(publisher_id: u128, subscriber_id: u128) -> (name: FileName)
    ensures
        file_name_bytes(name) == spec_connection_name(publisher_id, subscriber_id),
{
    let mut bytes = decimal(publisher_id);
    bytes.push(95);
    let mut tail = decimal(subscriber_id);
    bytes.append(&mut tail);
    proof {
        lemma_decimal_of_u128(publisher_id);
        lemma_decimal_of_u128(subscriber_id);
        assert(bytes@ =~= spec_connection_name(publisher_id, subscriber_id));
        assert forall|i: int| 0 <= i < bytes@.len() implies 48 <= #[trigger] bytes@[i] <= 57 || bytes@[i] == 95 by {
            let head = spec_decimal(publisher_id as nat);
            if i < head.len() {
                assert(bytes@[i] == head[i]);
            } else if i > head.len() {
                assert(bytes@[i] == spec_decimal(subscriber_id as nat)[i - head.len() - 1]);
            }
        }
    }
    match file_name_from(&bytes) {
        Some(name) => name,
        None => vstd::pervasive::unreached(),
    }
}

} // verus!
