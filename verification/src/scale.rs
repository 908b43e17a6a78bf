//! The SCALE encodings of call parameters.
use crate::types::{AccountId32, MechId, NetUid};
use parity_scale_codec::{Decode, Encode};
use vstd::prelude::*;

verus! {

/// A 16-bit number, least significant byte first.
pub open spec fn u16_bytes(n: u16) -> Seq<u8> {
    seq![(n % 256) as u8, (n / 256) as u8]
}

/// A 32-bit number, least significant byte first.
pub open spec fn u32_bytes(n: u32) -> Seq<u8> {
    u16_bytes((n % 65536) as u16) + u16_bytes((n / 65536) as u16)
}

/// A length in the compact form: the two low bits of the first byte say how
/// many bytes there are.
pub open spec fn compact_bytes(n: nat) -> Seq<u8> {
    if n < 64 {
        seq![(4 * n) as u8]
    } else if n < 16384 {
        u16_bytes((4 * n + 1) as u16)
    } else if n < 1073741824 {
        u32_bytes((4 * n + 2) as u32)
    } else {
        seq![3u8] + u32_bytes(n as u32)
    }
}

/// The 16-bit numbers of a list, one after the other.
pub open spec fn u16_items_bytes(list: Seq<u16>) -> Seq<u8> {
    Seq::new(2 * list.len(), |i: int| u16_bytes(list[i / 2])[i % 2])
}

/// A list of 16-bit numbers: its length, then the numbers.
pub open spec fn u16_list_bytes(list: Seq<u16>) -> Seq<u8> {
    compact_bytes(list.len()) + u16_items_bytes(list)
}

/// The text of the error that decoding an account id from the given bytes ends
/// in.
pub uninterp spec fn account_error(bytes: Seq<u8>) -> Seq<char>;

/// `parity_scale_codec::Encode::encode` on a tuple of one 16-bit number.
#[verifier::external_body]
pub(crate) fn encode_netuid(netuid: NetUid) -> (bytes: Vec<u8>)
    ensures
        bytes@ == u16_bytes(netuid.0),
{
    (&netuid.0,).encode()
}

/// `parity_scale_codec::Encode::encode` on a tuple of two 16-bit numbers: one
/// encoding after the other.
#[verifier::external_body]
pub(crate) fn encode_netuid_uid(netuid: NetUid, uid: u16) -> (bytes: Vec<u8>)
    ensures
        bytes@ == u16_bytes(netuid.0) + u16_bytes(uid),
{
    (&netuid.0, &uid).encode()
}

/// `parity_scale_codec::Encode::encode` on a tuple of a 16-bit number and a
/// byte.
#[verifier::external_body]
pub(crate) fn encode_netuid_mecid(netuid: NetUid, mecid: MechId) -> (bytes: Vec<u8>)
    ensures
        bytes@ == u16_bytes(netuid.0) + seq![mecid.0],
{
    (&netuid.0, &mecid.0).encode()
}

/// `parity_scale_codec::Encode::encode` on a tuple of a 16-bit number and a
/// list. The encoder panics on a list whose length does not fit in 32 bits.
#[verifier::external_body]
pub(crate) fn encode_netuid_list(netuid: NetUid, list: &Vec<u16>) -> (bytes: Vec<u8>)
    requires
        list@.len() <= u32::MAX,
    ensures
        bytes@ == u16_bytes(netuid.0) + u16_list_bytes(list@),
{
    (&netuid.0, list).encode()
}

/// `parity_scale_codec::Encode::encode` on a tuple of a 16-bit number, a byte
/// and a list. The encoder panics on a list whose length does not fit in 32
/// bits.
#[verifier::external_body]
pub(crate) fn encode_netuid_mecid_list(netuid: NetUid, mecid: MechId, list: &Vec<u16>) -> (bytes:
    Vec<u8>)
    requires
        list@.len() <= u32::MAX,
    ensures
        bytes@ == u16_bytes(netuid.0) + seq![mecid.0] + u16_list_bytes(list@),
{
    (&netuid.0, &mecid.0, list).encode()
}

/// `parity_scale_codec::Encode::encode` on a tuple of one
/// `sp_runtime::AccountId32`: its 32 bytes.
#[verifier::external_body]
pub(crate) fn encode_account(account: AccountId32) -> (bytes: Vec<u8>)
    ensures
        bytes@ == account@,
{
    (&sp_runtime::AccountId32::new(account.0),).encode()
}

/// `parity_scale_codec::Decode::decode` for `sp_runtime::AccountId32` takes the
/// first 32 bytes and leaves the rest unread; with fewer bytes it fails. The
/// error is handed on as the text that its `Debug` form gives.
#[verifier::external_body]
pub(crate) fn decode_account(bytes: &[u8]) -> (decoded: Result<AccountId32, String>)
    ensures
        match decoded {
            Ok(account) => bytes@.len() >= 32 && account@ == bytes@.take(32),
            Err(text) => bytes@.len() < 32 && text@ == account_error(bytes@),
        },
{
    match sp_runtime::AccountId32::decode(&mut &bytes[..]) {
        Ok(account) => Ok(AccountId32(account.into())),
        Err(e) => Err(format!("{e:?}")),
    }
}

/// The two bytes of a 16-bit number are its low and its high byte.
pub proof fn law_two_bytes_make_a_number(n: u16)
    ensures
        u16_bytes(n).len() == 2,
        u16_bytes(n)[0] + 256 * u16_bytes(n)[1] == n,
{
}

/// The bytes of a compact length, read as one number with the least significant
/// byte first, are four times the length and the form of the encoding; a length
/// that does not fit in thirty bits follows its form in four bytes.
pub proof fn law_a_compact_length_can_be_read(n: nat)
    requires
        n <= u32::MAX,
    ensures
        n < 64 ==> compact_bytes(n).len() == 1 && compact_bytes(n)[0] == 4 * n,
        64 <= n < 16384 ==> compact_bytes(n).len() == 2 && compact_bytes(n)[0] + 256
            * compact_bytes(n)[1] == 4 * n + 1,
        16384 <= n < 1073741824 ==> compact_bytes(n).len() == 4 && compact_bytes(n)[0] + 256
            * compact_bytes(n)[1] + 65536 * compact_bytes(n)[2] + 16777216 * compact_bytes(n)[3]
            == 4 * n + 2,
        1073741824 <= n ==> compact_bytes(n).len() == 5 && compact_bytes(n)[0] == 3
            && compact_bytes(n)[1] + 256 * compact_bytes(n)[2] + 65536 * compact_bytes(n)[3]
            + 16777216 * compact_bytes(n)[4] == n,
{
    if 64 <= n < 16384 {
        law_two_bytes_make_a_number((4 * n + 1) as u16);
    } else if 16384 <= n < 1073741824 {
        let m = (4 * n + 2) as u32;
        law_two_bytes_make_a_number((m % 65536) as u16);
        law_two_bytes_make_a_number((m / 65536) as u16);
    } else if 1073741824 <= n {
        let m = n as u32;
        law_two_bytes_make_a_number((m % 65536) as u16);
        law_two_bytes_make_a_number((m / 65536) as u16);
    }
}

/// A list is its compact length and then its numbers, two bytes for each.
pub proof fn law_a_list_is_its_length_and_its_numbers(list: Seq<u16>, i: int)
    requires
        list.len() <= u32::MAX,
        0 <= i < list.len(),
    ensures
        ({
            let head = compact_bytes(list.len());
            let bytes = u16_list_bytes(list);
            &&& bytes.len() == head.len() + 2 * list.len()
            &&& forall|j: int| 0 <= j < head.len() ==> #[trigger] bytes[j] == head[j]
            &&& bytes[head.len() + 2 * i] + 256 * bytes[head.len() + 2 * i + 1] == list[i]
        }),
{
    let head = compact_bytes(list.len());
    let bytes = u16_list_bytes(list);
    law_two_bytes_make_a_number(list[i]);
    assert(bytes[head.len() + 2 * i] == u16_bytes(list[i])[0]);
    assert(bytes[head.len() + 2 * i + 1] == u16_bytes(list[i])[1]);
}

} // verus!
