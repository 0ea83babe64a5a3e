//! Universally unique identifiers.
use crate::calls::drawn;
use crate::error::Error;
use crate::keys::{key_number, lemma_key_number_bound, lemma_key_number_injective, number_of_bytes};
use crate::text::decimal;
use vstd::prelude::*;

verus! {

/// A universally unique identifier: sixteen bytes.
#[derive(Copy, Clone, Debug, PartialEq, Eq)]
pub struct Uuid(pub [u8; 16]);

impl View for Uuid {
    type V = Seq<u8>;

    open spec fn view(&self) -> Seq<u8> {
        self.0@
    }
}

/// The number by which an identifier is ordered and found again.
pub open spec fn uuid_number(uuid: Uuid) -> u128 {
    key_number(uuid@) as u128
}

/// Different identifiers have different numbers.
pub proof fn lemma_uuid_number_injective(a: Uuid, b: Uuid)
    requires
        uuid_number(a) == uuid_number(b),
    ensures
        a == b,
{
    lemma_key_number_bound(a@);
    lemma_key_number_bound(b@);
    lemma_key_number_injective(a@, b@);
    assert(a.0 =~= b.0);
}

/// What is said of a number of bytes that no identifier has.
pub open spec fn length_refusal(len: nat) -> Seq<char> {
    "Invalid length; expecting 32 or 36 chars, found "@ + decimal(len as int)
}

/// Calls `uuid::Uuid::from_bytes`: the identifier with the given bytes. It takes exactly sixteen
/// bytes and refuses any other number of them. The error's text says how many there were.
#[verifier::external_body]
fn uuid_from_bytes(bytes: &[u8]) -> (r: Result<[u8; 16], String>)
    ensures
        r is Ok <==> bytes@.len() == 16,
        r matches Ok(a) ==> a@ == bytes@,
        r matches Err(e) ==> e@ == length_refusal(bytes@.len()),
{
    match uuid::Uuid::from_bytes(bytes) {
        Ok(u) => Ok(*u.as_bytes()),
        Err(e) => Err(e.to_string()),
    }
}

/// Calls `uuid::Uuid::new_v4`: an identifier made of random bytes, but for the six bits that mark
/// it as such: the upper half of the seventh byte is 4, and the two upper bits of the ninth byte
/// are 1 and 0.
#[verifier::external_body]
fn random_bytes() -> (r: [u8; 16])
    ensures
        r@[6] / 16 == 4,
        r@[8] / 64 == 2,
{
    *uuid::Uuid::new_v4().as_bytes()
}

/// Whether `uuid` is something that `random_bytes` may draw.
pub closed spec fn may_be_random(uuid: Uuid) -> bool {
    call_ensures(random_bytes, (), uuid.0)
}

impl Uuid {
    /// An identifier made at random.
    pub fn new_v4() -> (r: Self)
        ensures
            may_be_random(r),
            r@[6] / 16 == 4,
            r@[8] / 64 == 2,
    {
        Uuid(drawn(random_bytes))
    }

    /// The identifier with the given bytes, of which there must be sixteen.
    pub fn from_bytes(bytes: &[u8]) -> (r: Result<Self, Error>)
        ensures
            bytes@.len() == 16 ==> r is Ok && r->Ok_0@ == bytes@,
            bytes@.len() != 16 ==> (r matches Err(Error::InvalidUuid(e)) && e@ == length_refusal(
                bytes@.len(),
            )),
    {
        match uuid_from_bytes(bytes) {
            Ok(a) => Ok(Uuid(a)),
            Err(e) => Err(Error::InvalidUuid(e)),
        }
    }

    /// The bytes of the identifier.
    pub fn as_bytes(&self) -> (r: &[u8; 16])
        ensures
            r@ == self@,
    {
        &self.0
    }

    /// The number by which the identifier is ordered.
    pub fn number(&self) -> (r: u128)
        ensures
            r == uuid_number(*self),
    {
        number_of_bytes(self.0.as_slice())
    }
}

/// An identifier read from a column that holds its bytes.
#[derive(Copy, Clone, Debug)]
pub struct FromSqlUuid(pub Uuid);

impl FromSqlUuid {
    /// The identifier that a column's bytes stand for.
    pub fn column_result(blob: &[u8]) -> (r: Result<Self, Error>)
        ensures
            blob@.len() == 16 ==> r is Ok && r->Ok_0.0@ == blob@,
            blob@.len() != 16 ==> (r matches Err(Error::InvalidUuid(e)) && e@ == length_refusal(
                blob@.len(),
            )),
    {
        match Uuid::from_bytes(blob) {
            Ok(uuid) => Ok(FromSqlUuid(uuid)),
            Err(e) => Err(e),
        }
    }
}

} // verus!
