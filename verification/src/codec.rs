//! Transport framing codecs: the degenerate length-prefixed envelope and
//! the TTHeader metadata envelope.

use vstd::prelude::*;

pub mod framed;
pub mod ttheader;

verus! {

/// Outcome of running a decoder over a buffer that may not yet hold a
/// whole frame.
#[derive(Clone, Copy, Debug)]
pub enum Decoded<T> {
    /// A complete item was decoded.
    Complete(T),
    /// The bytes at hand end too soon: at least this many, counted from
    /// where this decode attempt started reading, are needed before it can
    /// succeed.
    InsufficientAtLeast(usize),
}

/// Spec-level outcome of a decoder on a buffer: the decoded item's view, a
/// request for more bytes, or a malformed frame.
pub enum DecodedView<V> {
    Complete(V),
    InsufficientAtLeast(int),
    Malformed,
}

/// A decoder that turns one frame at the front of a buffer into an item.
///
/// `decode_spec` is the complete relation the executable `decode` follows:
/// every implementation proves its decoder against its own spec function,
/// and compositions (the framing codecs) are specified generically in
/// terms of the inner codec's spec.
pub trait PayloadDecoder {
    type Item: View;

    /// What this codec yields on `src`.
    spec fn decode_spec(&self, src: Seq<u8>) -> DecodedView<<Self::Item as View>::V>;

    /// Run the decoder; errors are exactly the `Malformed` cases of the
    /// spec.
    fn decode(&self, src: &Vec<u8>) -> (r: Result<Decoded<Self::Item>, crate::error::CodecError>)
        ensures
            match r {
                Ok(Decoded::Complete(item)) => self.decode_spec(src@) == DecodedView::Complete(
                    item@,
                ),
                Ok(Decoded::InsufficientAtLeast(n)) => self.decode_spec(src@)
                    == DecodedView::InsufficientAtLeast::<<Self::Item as View>::V>(n as int),
                Err(_) => self.decode_spec(src@) is Malformed,
            },
    ;
}

/// An encoder that appends one item's frame to a buffer.
pub trait PayloadEncoder {
    type Item: View;

    /// The inputs this codec accepts: the machine limits (lengths that
    /// must fit their wire fields) that a caller must respect.
    spec fn encode_req(&self, item: <Self::Item as View>::V) -> bool;

    /// The exact bytes this codec appends for `item`.
    spec fn encode_spec(&self, item: <Self::Item as View>::V) -> Seq<u8>;

    /// Run the encoder.
    fn encode(&self, item: &Self::Item, dst: &mut Vec<u8>) -> (r: Result<
        (),
        crate::error::CodecError,
    >)
        requires
            self.encode_req(item@),
        ensures
            r is Ok,
            final(dst)@ == old(dst)@ + self.encode_spec(item@),
    ;
}

} // verus!
