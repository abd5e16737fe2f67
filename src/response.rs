//! Responses whose first byte is the application's outcome flag.

use vstd::prelude::*;

verus! {

#[derive(Debug)]
pub enum ResponseError {
    /// Not even the outcome byte came.
    Empty,
    /// The outcome byte is nonzero: an application error, with its detail.
    AppError(Vec<u8>),
}

/// Splits a response into its outcome flag and the rest: the rest is the
/// payload when the flag is 0, and error detail otherwise. An error response
/// is never handed on as a payload to decode.
pub fn split_outcome(buf: &[u8]) -> (r: Result<Vec<u8>, ResponseError>)
    ensures
        buf@.len() == 0 ==> r matches Err(ResponseError::Empty),
        buf@.len() > 0 && buf@[0] == 0 ==> (r matches Ok(p) && p@ == buf@.subrange(1, buf@.len() as int)),
        buf@.len() > 0 && buf@[0] != 0 ==> (r matches Err(ResponseError::AppError(d)) && d@ == buf@.subrange(
            1,
            buf@.len() as int,
        )),
{
    if buf.len() == 0 {
        return Err(ResponseError::Empty);
    }
    let mut rest: Vec<u8> = Vec::new();
    let mut i: usize = 1;
    while i < buf.len()
        invariant
            1 <= i <= buf@.len(),
            rest@ == buf@.subrange(1, i as int),
        decreases buf@.len() - i,
    {
        rest.push(buf[i]);
        i += 1;
        assert(rest@ =~= buf@.subrange(1, i as int));
    }
    if buf[0] == 0 {
        Ok(rest)
    } else {
        Err(ResponseError::AppError(rest))
    }
}


/// Lowercase hexadecimal digits by value.
pub open spec fn hex_digits() -> Seq<char> {
    seq!['0', '1', '2', '3', '4', '5', '6', '7', '8', '9', 'a', 'b', 'c', 'd', 'e', 'f']
}

/// Two lowercase hex digits per byte, high nibble first.
pub open spec fn hex_of(b: Seq<u8>) -> Seq<char> {
    Seq::new(
        2 * b.len(),
        |i: int|
            if i % 2 == 0 {
                hex_digits()[(b[i / 2] / 16) as int]
            } else {
                hex_digits()[(b[i / 2] % 16) as int]
            },
    )
}

/// Relies on hex::encode: two lowercase digits per byte, high nibble first.
#[verifier::external_body]
fn to_hex(b: &[u8]) -> (r: String)
    ensures
        r@ == hex_of(b@),
{
    hex::encode(b)
}

/// The hex text of a successful response's payload; `None` for an empty
/// response or an application error.
pub fn success_payload_hex(buf: &[u8]) -> (r: Option<String>)
    ensures
        buf@.len() > 0 && buf@[0] == 0 ==> (r matches Some(t) && t@ == hex_of(buf@.subrange(1, buf@.len() as int))),
        !(buf@.len() > 0 && buf@[0] == 0) ==> r is None,
{
    match split_outcome(buf) {
        Ok(payload) => Some(to_hex(payload.as_slice())),
        Err(_) => None,
    }
}

} // verus!
