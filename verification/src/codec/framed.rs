//! The degenerate framed transport: a 4-byte big-endian length prefix in
//! front of an inner codec's frame.

use vstd::prelude::*;

use crate::codec::Decoded;
use crate::codec::DecodedView;
use crate::codec::PayloadDecoder;
use crate::codec::PayloadEncoder;
use crate::error::CodecError;
use crate::error::CodecErrorKind;
use crate::wire::spec_i32_at;
use crate::wire::spec_u32_bytes;

verus! {

/// Length-prefixed framing around an inner payload codec.
pub struct FramedHeader<T> {
    pub inner: T,
}

impl<T> FramedHeader<T> {
    /// Frame the given payload codec.
    pub fn new(inner: T) -> (r: Self)
        ensures
            r.inner == inner,
    {
        Self { inner }
    }
}

impl<T: PayloadDecoder> PayloadDecoder for FramedHeader<T> {
    type Item = T::Item;

    /// Four length bytes first; a non-positive length is malformed; once
    /// the whole body is buffered, the inner codec decodes exactly the
    /// body bytes.
    open spec fn decode_spec(&self, src: Seq<u8>) -> DecodedView<<T::Item as View>::V> {
        if src.len() < 4 {
            DecodedView::InsufficientAtLeast(4)
        } else {
            let l = spec_i32_at(src, 0) as int;
            if l <= 0 {
                DecodedView::Malformed
            } else if src.len() < 4 + l {
                DecodedView::InsufficientAtLeast(4 + l)
            } else {
                self.inner.decode_spec(src.subrange(4, 4 + l))
            }
        }
    }

    fn decode(&self, src: &Vec<u8>) -> (r: Result<Decoded<T::Item>, CodecError>) {
        let len = src.len();
        if len < 4 {
            return Ok(Decoded::InsufficientAtLeast(4));
        }
        let l = crate::wire::read_i32_at(src, 0);
        if l <= 0 {
            return Err(CodecError::new(CodecErrorKind::InvalidData, "illegal thrift body size"));
        }
        let l = l as usize;
        if len - 4 < l {
            return Ok(Decoded::InsufficientAtLeast(4 + l));
        }
        let body = crate::wire::copy_range(src, 4, l);
        self.inner.decode(&body)
    }
}

impl<T: PayloadEncoder> PayloadEncoder for FramedHeader<T> {
    type Item = T::Item;

    open spec fn encode_req(&self, item: <T::Item as View>::V) -> bool {
        self.inner.encode_req(item) && self.inner.encode_spec(item).len() <= i32::MAX
    }

    /// The inner frame preceded by its own length.
    open spec fn encode_spec(&self, item: <T::Item as View>::V) -> Seq<u8> {
        spec_u32_bytes(self.inner.encode_spec(item).len() as u32) + self.inner.encode_spec(item)
    }

    fn encode(&self, item: &T::Item, dst: &mut Vec<u8>) -> (r: Result<(), CodecError>) {
        let offset = dst.len();
        crate::wire::push_i32_be(dst, 0);
        let inner_result = self.inner.encode(item, dst);
        match inner_result {
            Ok(_) => {},
            Err(e) => {
                return Err(e);
            },
        }
        let body_len = dst.len() - offset - 4;
        crate::wire::patch_u32_be(dst, offset, body_len as u32);
        proof {
            assert(dst@ =~= old(dst)@ + spec_u32_bytes(
                self.inner.encode_spec(item@).len() as u32,
            ) + self.inner.encode_spec(item@));
        }
        Ok(())
    }
}

} // verus!
