use bytes::BytesMut;
use vstd::prelude::*;

verus! {

#[verifier::external_type_specification]
#[verifier::external_body]
pub struct ExBytesMut(BytesMut);

/// The bytes a read buffer holds.
pub uninterp spec fn buffered(b: BytesMut) -> Seq<u8>;

/// Relies on `BytesMut::len`: the number of bytes held.
#[verifier::external_body]
fn buffered_len(buffer: &BytesMut) -> (r: usize)
    ensures
        r == buffered(*buffer).len(),
{
    buffer.len()
}

/// Relies on `BytesMut::split`, which hands out every byte held and leaves
/// the buffer empty, and on `to_vec` of what it handed out.
#[verifier::external_body]
fn split_all(buffer: &mut BytesMut) -> (r: Vec<u8>)
    ensures
        r@ == buffered(*old(buffer)),
        buffered(*final(buffer)) == Seq::<u8>::empty(),
{
    buffer.split().to_vec()
}

/// Takes one frame out of a client's read buffer: everything it holds, so
/// that each call consumes what it returns. An empty buffer gives no frame.
pub fn on_try_extract_frame(buffer: &mut BytesMut) -> (r: Option<Vec<u8>>)
    ensures
        buffered(*old(buffer)).len() == 0 ==> r is None && buffered(*final(buffer)) == buffered(
            *old(buffer),
        ),
        buffered(*old(buffer)).len() > 0 ==> (r matches Some(f) && f@ == buffered(*old(buffer)))
            && buffered(*final(buffer)) == Seq::<u8>::empty(),
{
    if buffered_len(buffer) == 0 {
        None
    } else {
        Some(split_all(buffer))
    }
}

} // verus!
