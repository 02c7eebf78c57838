//! The Binary-protocol reader and writer.
//!
//! One generic carrier struct serves both directions, as the pair of a
//! transport buffer and an attachment: the reader attaches its cursor
//! position, the writer the stack of container-length backpatch offsets.
//! The reader offers every operation twice: the plain form fails with
//! `InvalidData` when the buffer ends too soon, and the `try_` form
//! reports `InsufficientAtLeast` instead and leaves the cursor in place, so
//! that a caller that refills the buffer from a byte source can retry; both
//! forms are specified against the same functions over the buffer contents.

use vstd::prelude::*;

use crate::codec::Decoded;
use crate::error::CodecError;
use crate::error::CodecErrorKind;
use crate::skip::skip_end;
use crate::skip::skip_value;
use crate::skip::SkipOutcome;
use crate::thrift::TFieldIdentifier;
use crate::thrift::TListIdentifier;
use crate::thrift::TMapIdentifier;
use crate::thrift::TMessageIdentifier;
use crate::thrift::TMessageType;
use crate::thrift::TSetIdentifier;
use crate::thrift::TStructIdentifier;
use crate::thrift::TType;
use crate::wire::spec_i16_at;
use crate::wire::spec_i32_at;
use crate::wire::spec_i64_at;
use crate::wire::spec_u64_at;

verus! {

/// Version constant of the strict (versioned) Binary protocol.
pub const VERSION_1: u32 = 0x80010000;

/// Mask selecting the version bits of the first message word.
pub const VERSION_MASK: u32 = 0xffff0000;

/// Carrier for the Binary protocol: a transport buffer plus whatever the
/// direction needs attached (cursor position for reading, backpatch
/// offsets for writing).
pub struct TBinaryProtocol<T, A> {
    pub trans: T,
    pub attachment: A,
}

impl<T, A> TBinaryProtocol<T, A> {
    /// Take the carrier apart.
    pub fn into_inner(self) -> (r: (T, A))
        ensures
            r.0 == self.trans,
            r.1 == self.attachment,
    {
        (self.trans, self.attachment)
    }

    /// Assemble a carrier from its two parts.
    pub fn from_parts(trans: T, attachment: A) -> (r: Self)
        ensures
            r.trans == trans,
            r.attachment == attachment,
    {
        Self { trans, attachment }
    }
}

/// Reader over a byte buffer: the attachment is the cursor position.
pub type TBinaryReader = TBinaryProtocol<Vec<u8>, usize>;

/// Writer into a byte buffer: the attachment records, for every container
/// whose length is not yet known, where its length placeholder sits.
pub type TBinaryWriter = TBinaryProtocol<Vec<u8>, Vec<usize>>;

impl TBinaryProtocol<Vec<u8>, usize> {
    /// The buffer under the cursor.
    pub open spec fn bytes(&self) -> Seq<u8> {
        self.trans@
    }

    /// The cursor position.
    pub open spec fn pos(&self) -> int {
        self.attachment as int
    }

    /// The cursor never points past the end of the buffer.
    pub open spec fn wf(&self) -> bool {
        self.attachment <= self.trans@.len()
    }

    /// Start reading `trans` from its first byte.
    pub fn new(trans: Vec<u8>) -> (r: Self)
        ensures
            r.bytes() == trans@,
            r.pos() == 0,
            r.wf(),
    {
        Self { trans, attachment: 0 }
    }

    /// The cursor position.
    pub fn position(&self) -> (r: usize)
        ensures
            r == self.pos(),
    {
        self.attachment
    }

    /// Append a chunk of newly arrived bytes to the buffer, leaving the
    /// cursor where it stands.
    pub fn feed(&mut self, chunk: &Vec<u8>)
        requires
            old(self).wf(),
        ensures
            final(self).bytes() == old(self).bytes() + chunk@,
            final(self).pos() == old(self).pos(),
            final(self).wf(),
    {
        let n = chunk.len();
        let mut i: usize = 0;
        while i < n
            invariant
                i <= n,
                n == chunk@.len(),
                self.trans@ == old(self).trans@ + chunk@.subrange(0, i as int),
                self.attachment == old(self).attachment,
            decreases n - i,
        {
            self.trans.push(chunk[i]);
            proof {
                assert(self.trans@ =~= old(self).trans@ + chunk@.subrange(0, (i + 1) as int));
            }
            i = i + 1;
        }
        proof {
            assert(chunk@.subrange(0, n as int) =~= chunk@);
        }
    }

    /// Read one unsigned byte.
    pub fn read_byte(&mut self) -> (r: Result<u8, CodecError>)
        requires
            old(self).wf(),
        ensures
            final(self).bytes() == old(self).bytes(),
            final(self).wf(),
            match r {
                Ok(v) => old(self).pos() + 1 <= old(self).bytes().len() && final(self).pos() == old(
                    self,
                ).pos() + 1 && v == old(self).bytes()[old(self).pos()],
                Err(e) => old(self).pos() + 1 > old(self).bytes().len() && final(self).pos() == old(
                    self,
                ).pos() && e.kind == CodecErrorKind::InvalidData,
            },
    {
        let len = self.trans.len();
        let p = self.attachment;
        if len - p < 1 {
            return Err(CodecError::invalid_data());
        }
        let v = self.trans[p];
        self.attachment = p + 1;
        Ok(v)
    }

    /// Read a bool: one byte, false exactly on zero.
    pub fn read_bool(&mut self) -> (r: Result<bool, CodecError>)
        requires
            old(self).wf(),
        ensures
            final(self).bytes() == old(self).bytes(),
            final(self).wf(),
            match r {
                Ok(v) => old(self).pos() + 1 <= old(self).bytes().len() && final(self).pos() == old(
                    self,
                ).pos() + 1 && v == (old(self).bytes()[old(self).pos()] != 0),
                Err(e) => old(self).pos() + 1 > old(self).bytes().len() && final(self).pos() == old(
                    self,
                ).pos() && e.kind == CodecErrorKind::InvalidData,
            },
    {
        match self.read_byte() {
            Ok(v) => Ok(v != 0),
            Err(e) => Err(e),
        }
    }

    /// Read an 8-bit signed integer.
    pub fn read_i8(&mut self) -> (r: Result<i8, CodecError>)
        requires
            old(self).wf(),
        ensures
            final(self).bytes() == old(self).bytes(),
            final(self).wf(),
            match r {
                Ok(v) => old(self).pos() + 1 <= old(self).bytes().len() && final(self).pos() == old(
                    self,
                ).pos() + 1 && v == old(self).bytes()[old(self).pos()] as i8,
                Err(e) => old(self).pos() + 1 > old(self).bytes().len() && final(self).pos() == old(
                    self,
                ).pos() && e.kind == CodecErrorKind::InvalidData,
            },
    {
        match self.read_byte() {
            Ok(v) => Ok(v as i8),
            Err(e) => Err(e),
        }
    }

    /// Read a big-endian 16-bit signed integer.
    pub fn read_i16(&mut self) -> (r: Result<i16, CodecError>)
        requires
            old(self).wf(),
        ensures
            final(self).bytes() == old(self).bytes(),
            final(self).wf(),
            match r {
                Ok(v) => old(self).pos() + 2 <= old(self).bytes().len() && final(self).pos() == old(
                    self,
                ).pos() + 2 && v == spec_i16_at(old(self).bytes(), old(self).pos()),
                Err(e) => old(self).pos() + 2 > old(self).bytes().len() && final(self).pos() == old(
                    self,
                ).pos() && e.kind == CodecErrorKind::InvalidData,
            },
    {
        let len = self.trans.len();
        let p = self.attachment;
        if len - p < 2 {
            return Err(CodecError::invalid_data());
        }
        let v = crate::wire::read_i16_at(&self.trans, p);
        self.attachment = p + 2;
        Ok(v)
    }

    /// Read a big-endian 32-bit signed integer.
    pub fn read_i32(&mut self) -> (r: Result<i32, CodecError>)
        requires
            old(self).wf(),
        ensures
            final(self).bytes() == old(self).bytes(),
            final(self).wf(),
            match r {
                Ok(v) => old(self).pos() + 4 <= old(self).bytes().len() && final(self).pos() == old(
                    self,
                ).pos() + 4 && v == spec_i32_at(old(self).bytes(), old(self).pos()),
                Err(e) => old(self).pos() + 4 > old(self).bytes().len() && final(self).pos() == old(
                    self,
                ).pos() && e.kind == CodecErrorKind::InvalidData,
            },
    {
        let len = self.trans.len();
        let p = self.attachment;
        if len - p < 4 {
            return Err(CodecError::invalid_data());
        }
        let v = crate::wire::read_i32_at(&self.trans, p);
        self.attachment = p + 4;
        Ok(v)
    }

    /// Read a big-endian 64-bit signed integer.
    pub fn read_i64(&mut self) -> (r: Result<i64, CodecError>)
        requires
            old(self).wf(),
        ensures
            final(self).bytes() == old(self).bytes(),
            final(self).wf(),
            match r {
                Ok(v) => old(self).pos() + 8 <= old(self).bytes().len() && final(self).pos() == old(
                    self,
                ).pos() + 8 && v == spec_i64_at(old(self).bytes(), old(self).pos()),
                Err(e) => old(self).pos() + 8 > old(self).bytes().len() && final(self).pos() == old(
                    self,
                ).pos() && e.kind == CodecErrorKind::InvalidData,
            },
    {
        let len = self.trans.len();
        let p = self.attachment;
        if len - p < 8 {
            return Err(CodecError::invalid_data());
        }
        let v = crate::wire::read_i64_at(&self.trans, p);
        self.attachment = p + 8;
        Ok(v)
    }

    /// Read the raw bits of a big-endian IEEE-754 double.  The codec never
    /// interprets the number; callers reassemble it from the bits.
    pub fn read_double_bits(&mut self) -> (r: Result<u64, CodecError>)
        requires
            old(self).wf(),
        ensures
            final(self).bytes() == old(self).bytes(),
            final(self).wf(),
            match r {
                Ok(v) => old(self).pos() + 8 <= old(self).bytes().len() && final(self).pos() == old(
                    self,
                ).pos() + 8 && v == spec_u64_at(old(self).bytes(), old(self).pos()),
                Err(e) => old(self).pos() + 8 > old(self).bytes().len() && final(self).pos() == old(
                    self,
                ).pos() && e.kind == CodecErrorKind::InvalidData,
            },
    {
        let len = self.trans.len();
        let p = self.attachment;
        if len - p < 8 {
            return Err(CodecError::invalid_data());
        }
        let v = crate::wire::read_u64_at(&self.trans, p);
        self.attachment = p + 8;
        Ok(v)
    }

    /// Read a 16-byte UUID in its raw wire order.
    pub fn read_uuid(&mut self) -> (r: Result<Vec<u8>, CodecError>)
        requires
            old(self).wf(),
        ensures
            final(self).bytes() == old(self).bytes(),
            final(self).wf(),
            match r {
                Ok(v) => old(self).pos() + 16 <= old(self).bytes().len() && final(self).pos()
                    == old(self).pos() + 16 && v@ == old(self).bytes().subrange(
                    old(self).pos(),
                    old(self).pos() + 16,
                ),
                Err(e) => old(self).pos() + 16 > old(self).bytes().len() && final(self).pos()
                    == old(self).pos() && e.kind == CodecErrorKind::InvalidData,
            },
    {
        let len = self.trans.len();
        let p = self.attachment;
        if len - p < 16 {
            return Err(CodecError::invalid_data());
        }
        let v = crate::wire::copy_range(&self.trans, p, 16);
        self.attachment = p + 16;
        Ok(v)
    }

    /// Read a length-prefixed byte string: a 32-bit signed length followed
    /// by that many uninterpreted bytes.
    pub fn read_bytes(&mut self) -> (r: Result<Vec<u8>, CodecError>)
        requires
            old(self).wf(),
        ensures
            final(self).bytes() == old(self).bytes(),
            final(self).wf(),
            ({
                let b = old(self).bytes();
                let p = old(self).pos();
                match r {
                    Ok(v) => p + 4 <= b.len() && spec_i32_at(b, p) >= 0 && p + 4 + spec_i32_at(b, p)
                        <= b.len() && final(self).pos() == p + 4 + spec_i32_at(b, p) && v@
                        == b.subrange(p + 4, p + 4 + spec_i32_at(b, p)),
                    Err(e) => !(p + 4 <= b.len() && spec_i32_at(b, p) >= 0 && p + 4 + spec_i32_at(
                        b,
                        p,
                    ) <= b.len()) && final(self).pos() == p && e.kind == CodecErrorKind::InvalidData,
                }
            }),
    {
        let len = self.trans.len();
        let p = self.attachment;
        if len - p < 4 {
            return Err(CodecError::invalid_data());
        }
        let l = crate::wire::read_i32_at(&self.trans, p);
        if l < 0 {
            return Err(CodecError::new(CodecErrorKind::InvalidData, "invalid bytes length"));
        }
        let l = l as usize;
        if len - (p + 4) < l {
            return Err(CodecError::new(CodecErrorKind::InvalidData, "invalid bytes length"));
        }
        let v = crate::wire::copy_range(&self.trans, p + 4, l);
        self.attachment = p + 4 + l;
        Ok(v)
    }
}

impl TBinaryProtocol<Vec<u8>, usize> {
    /// Read the start of a message: version word, kind nibble,
    /// length-prefixed UTF-8 name, sequence number.
    ///
    /// A missing version (positive first word) or wrong version bits fails
    /// `BadVersion`; an unknown kind nibble, a malformed name, or a
    /// truncated buffer fails `InvalidData`.
    pub fn read_message_begin(&mut self) -> (r: Result<TMessageIdentifier, CodecError>)
        requires
            old(self).wf(),
        ensures
            final(self).bytes() == old(self).bytes(),
            final(self).wf(),
            ({
                let b = old(self).bytes();
                let p = old(self).pos();
                let w = spec_i32_at(b, p);
                let have_word = p + 4 <= b.len();
                let version_ok = have_word && w <= 0 && (w as u32) & VERSION_MASK == VERSION_1;
                let kind_ok = TMessageType::spec_valid_value(((w as u32) & 0xf) as u8);
                let nl = spec_i32_at(b, p + 4);
                let name_ok = p + 8 <= b.len() && nl >= 0 && p + 12 + nl <= b.len();
                let name = b.subrange(p + 8, p + 8 + nl);
                match r {
                    Ok(id) => version_ok && kind_ok && name_ok && vstd::utf8::valid_utf8(name)
                        && id.name@ == name && id.message_type == TMessageType::spec_from_u8(
                        ((w as u32) & 0xf) as u8,
                    ) && id.sequence_number == spec_i32_at(b, p + 8 + nl) && final(self).pos() == p
                        + 12 + nl,
                    Err(e) => !(version_ok && kind_ok && name_ok && vstd::utf8::valid_utf8(name))
                        && e.kind == (if have_word && !(w <= 0 && (w as u32) & VERSION_MASK
                        == VERSION_1) {
                        CodecErrorKind::BadVersion
                    } else {
                        CodecErrorKind::InvalidData
                    }) && (have_word && w > 0 ==> e.message@
                        == "Missing version in ReadMessageBegin"@) && (have_word && w <= 0 && (
                    w as u32) & VERSION_MASK != VERSION_1 ==> e.message@
                        == "Bad version in ReadMessageBegin"@),
                }
            }),
    {
        let word = match self.read_i32() {
            Ok(w) => w,
            Err(e) => {
                return Err(e);
            },
        };
        if word > 0 {
            return Err(
                CodecError::new(CodecErrorKind::BadVersion, "Missing version in ReadMessageBegin"),
            );
        }
        let wu = word as u32;
        if wu & VERSION_MASK != VERSION_1 {
            return Err(
                CodecError::new(CodecErrorKind::BadVersion, "Bad version in ReadMessageBegin"),
            );
        }
        let nib = (wu & 0xf) as u8;
        let message_type = match TMessageType::try_from(nib) {
            Ok(t) => t,
            Err(_) => {
                return Err(CodecError::new(CodecErrorKind::InvalidData, "invalid message type"));
            },
        };
        let name = match self.read_bytes() {
            Ok(v) => v,
            Err(e) => {
                return Err(e);
            },
        };
        if name.len() > 0 && !str_is_utf8(&name) {
            return Err(CodecError::new(CodecErrorKind::InvalidData, "not a valid utf8 string"));
        }
        let sequence_number = match self.read_i32() {
            Ok(s) => s,
            Err(e) => {
                return Err(e);
            },
        };
        Ok(TMessageIdentifier::new(name, message_type, sequence_number))
    }

    /// Reading a message end consumes nothing.
    pub fn read_message_end(&mut self) -> (r: Result<(), CodecError>)
        requires
            old(self).wf(),
        ensures
            *final(self) == *old(self),
            r is Ok,
    {
        Ok(())
    }

    /// Reading a struct begin consumes nothing: Binary structs have no
    /// header bytes.
    pub fn read_struct_begin(&mut self) -> (r: Result<TStructIdentifier, CodecError>)
        requires
            old(self).wf(),
        ensures
            *final(self) == *old(self),
            r matches Ok(id) && id.name is None,
    {
        Ok(TStructIdentifier::new(None))
    }

    /// Reading a struct end consumes nothing.
    pub fn read_struct_end(&mut self) -> (r: Result<(), CodecError>)
        requires
            old(self).wf(),
        ensures
            *final(self) == *old(self),
            r is Ok,
    {
        Ok(())
    }

    /// Read a field header: one type tag, then, except for `Stop`, the
    /// 16-bit field id.  A `Stop` field carries the implicit id zero.
    pub fn read_field_begin(&mut self) -> (r: Result<TFieldIdentifier, CodecError>)
        requires
            old(self).wf(),
        ensures
            final(self).bytes() == old(self).bytes(),
            final(self).wf(),
            ({
                let b = old(self).bytes();
                let p = old(self).pos();
                match r {
                    Ok(f) => p + 1 <= b.len() && TType::spec_valid_tag(b[p]) && f.name is None
                        && f.field_type == TType::spec_from_u8(b[p]) && (if b[p] == 0 {
                        f.id == Some(0i16) && final(self).pos() == p + 1
                    } else {
                        p + 3 <= b.len() && f.id == Some(spec_i16_at(b, p + 1)) && final(self).pos() == p + 3
                    }),
                    Err(e) => (p + 1 > b.len() || !TType::spec_valid_tag(b[p]) || (b[p] != 0 && p
                        + 3 > b.len())) && e.kind == CodecErrorKind::InvalidData,
                }
            }),
    {
        let tag = match self.read_byte() {
            Ok(t) => t,
            Err(e) => {
                return Err(e);
            },
        };
        let field_type = match TType::try_from(tag) {
            Ok(t) => t,
            Err(e) => {
                return Err(e);
            },
        };
        let id = match field_type {
            TType::Stop => 0,
            _ => match self.read_i16() {
                Ok(id) => id,
                Err(e) => {
                    return Err(e);
                },
            },
        };
        Ok(TFieldIdentifier::new(None, field_type, Some(id)))
    }

    /// Reading a field end consumes nothing.
    pub fn read_field_end(&mut self) -> (r: Result<(), CodecError>)
        requires
            old(self).wf(),
        ensures
            *final(self) == *old(self),
            r is Ok,
    {
        Ok(())
    }

    /// Read a list header: element type tag and 32-bit element count (the
    /// count word reinterpreted as an unsigned machine size, exactly as it
    /// will be compared against the remaining bytes).
    pub fn read_list_begin(&mut self) -> (r: Result<TListIdentifier, CodecError>)
        requires
            old(self).wf(),
        ensures
            final(self).bytes() == old(self).bytes(),
            final(self).wf(),
            ({
                let b = old(self).bytes();
                let p = old(self).pos();
                match r {
                    Ok(id) => p + 5 <= b.len() && TType::spec_valid_tag(b[p]) && id.element_type
                        == TType::spec_from_u8(b[p]) && id.size == spec_i32_at(b, p + 1) as usize
                        && final(self).pos() == p + 5,
                    Err(e) => (p + 1 > b.len() || !TType::spec_valid_tag(b[p]) || p + 5 > b.len())
                        && e.kind == CodecErrorKind::InvalidData,
                }
            }),
    {
        let tag = match self.read_byte() {
            Ok(t) => t,
            Err(e) => {
                return Err(e);
            },
        };
        let element_type = match TType::try_from(tag) {
            Ok(t) => t,
            Err(e) => {
                return Err(e);
            },
        };
        let size = match self.read_i32() {
            Ok(s) => s,
            Err(e) => {
                return Err(e);
            },
        };
        Ok(TListIdentifier::new(element_type, size as usize))
    }

    /// Reading a list end consumes nothing.
    pub fn read_list_end(&mut self) -> (r: Result<(), CodecError>)
        requires
            old(self).wf(),
        ensures
            *final(self) == *old(self),
            r is Ok,
    {
        Ok(())
    }

    /// Read a set header; sets share the list layout.
    pub fn read_set_begin(&mut self) -> (r: Result<TSetIdentifier, CodecError>)
        requires
            old(self).wf(),
        ensures
            final(self).bytes() == old(self).bytes(),
            final(self).wf(),
            ({
                let b = old(self).bytes();
                let p = old(self).pos();
                match r {
                    Ok(id) => p + 5 <= b.len() && TType::spec_valid_tag(b[p]) && id.element_type
                        == TType::spec_from_u8(b[p]) && id.size == spec_i32_at(b, p + 1) as usize
                        && final(self).pos() == p + 5,
                    Err(e) => (p + 1 > b.len() || !TType::spec_valid_tag(b[p]) || p + 5 > b.len())
                        && e.kind == CodecErrorKind::InvalidData,
                }
            }),
    {
        let tag = match self.read_byte() {
            Ok(t) => t,
            Err(e) => {
                return Err(e);
            },
        };
        let element_type = match TType::try_from(tag) {
            Ok(t) => t,
            Err(e) => {
                return Err(e);
            },
        };
        let size = match self.read_i32() {
            Ok(s) => s,
            Err(e) => {
                return Err(e);
            },
        };
        Ok(TSetIdentifier::new(element_type, size as usize))
    }

    /// Reading a set end consumes nothing.
    pub fn read_set_end(&mut self) -> (r: Result<(), CodecError>)
        requires
            old(self).wf(),
        ensures
            *final(self) == *old(self),
            r is Ok,
    {
        Ok(())
    }

    /// Read a map header: key type tag, value type tag, 32-bit entry count.
    pub fn read_map_begin(&mut self) -> (r: Result<TMapIdentifier, CodecError>)
        requires
            old(self).wf(),
        ensures
            final(self).bytes() == old(self).bytes(),
            final(self).wf(),
            ({
                let b = old(self).bytes();
                let p = old(self).pos();
                match r {
                    Ok(id) => p + 6 <= b.len() && TType::spec_valid_tag(b[p])
                        && TType::spec_valid_tag(b[p + 1]) && id.key_type == TType::spec_from_u8(
                        b[p],
                    ) && id.value_type == TType::spec_from_u8(b[p + 1]) && id.size == spec_i32_at(
                        b,
                        p + 2,
                    ) as usize && final(self).pos() == p + 6,
                    Err(e) => (p + 1 > b.len() || !TType::spec_valid_tag(b[p]) || p + 2 > b.len()
                        || !TType::spec_valid_tag(b[p + 1]) || p + 6 > b.len()) && e.kind
                        == CodecErrorKind::InvalidData,
                }
            }),
    {
        let ktag = match self.read_byte() {
            Ok(t) => t,
            Err(e) => {
                return Err(e);
            },
        };
        let key_type = match TType::try_from(ktag) {
            Ok(t) => t,
            Err(e) => {
                return Err(e);
            },
        };
        let vtag = match self.read_byte() {
            Ok(t) => t,
            Err(e) => {
                return Err(e);
            },
        };
        let value_type = match TType::try_from(vtag) {
            Ok(t) => t,
            Err(e) => {
                return Err(e);
            },
        };
        let size = match self.read_i32() {
            Ok(s) => s,
            Err(e) => {
                return Err(e);
            },
        };
        Ok(TMapIdentifier::new(key_type, value_type, size as usize))
    }

    /// Reading a map end consumes nothing.
    pub fn read_map_end(&mut self) -> (r: Result<(), CodecError>)
        requires
            old(self).wf(),
        ensures
            *final(self) == *old(self),
            r is Ok,
    {
        Ok(())
    }

    /// Read a length-prefixed string, validated as UTF-8 in full; empty
    /// strings are accepted outright.
    pub fn read_string(&mut self) -> (r: Result<String, CodecError>)
        requires
            old(self).wf(),
        ensures
            final(self).bytes() == old(self).bytes(),
            final(self).wf(),
            ({
                let b = old(self).bytes();
                let p = old(self).pos();
                let len_ok = p + 4 <= b.len() && spec_i32_at(b, p) >= 0 && p + 4 + spec_i32_at(b, p)
                    <= b.len();
                let sbytes = b.subrange(p + 4, p + 4 + spec_i32_at(b, p));
                match r {
                    Ok(s) => len_ok && vstd::utf8::valid_utf8(sbytes) && vstd::utf8::encode_utf8(
                        s@,
                    ) == sbytes && final(self).pos() == p + 4 + spec_i32_at(b, p),
                    Err(e) => !(len_ok && vstd::utf8::valid_utf8(sbytes)) && e.kind
                        == CodecErrorKind::InvalidData,
                }
            }),
    {
        let data = match self.read_bytes() {
            Ok(v) => v,
            Err(e) => {
                return Err(e);
            },
        };
        if data.len() == 0 {
            let s = String::new();
            proof {
                assert(vstd::utf8::encode_utf8(s@) =~= data@);
            }
            return Ok(s);
        }
        match string_from_utf8(data) {
            Some(s) => Ok(s),
            None => Err(CodecError::new(CodecErrorKind::InvalidData, "not a valid utf8 string")),
        }
    }

    /// Consume exactly one value of type `ttype` without materializing it;
    /// `InvalidData` when the buffer does not hold one complete value.
    pub fn skip_field(&mut self, ttype: TType) -> (r: Result<(), CodecError>)
        requires
            old(self).wf(),
        ensures
            final(self).bytes() == old(self).bytes(),
            final(self).wf(),
            match r {
                Ok(_) => skip_end(old(self).bytes(), old(self).pos(), ttype) == Some(
                    final(self).pos(),
                ),
                Err(e) => skip_end(old(self).bytes(), old(self).pos(), ttype) is None && final(self).pos() == old(self).pos() && e.kind == CodecErrorKind::InvalidData,
            },
    {
        match skip_value(&self.trans, self.attachment, ttype) {
            SkipOutcome::Complete(e) => {
                proof {
                    crate::skip::lemma_skip_end_bounds(self.trans@, self.attachment as int, ttype);
                }
                self.attachment = e;
                Ok(())
            },
            SkipOutcome::NeedAtLeast(_) => Err(CodecError::invalid_data()),
            SkipOutcome::Invalid => Err(CodecError::invalid_data()),
        }
    }

    /// Consume one whole Binary message: version word, name, sequence
    /// number, then the struct body.  Only the version is inspected.
    pub fn skip_message(&mut self) -> (r: Result<(), CodecError>)
        requires
            old(self).wf(),
        ensures
            final(self).bytes() == old(self).bytes(),
            final(self).wf(),
            ({
                let b = old(self).bytes();
                let p = old(self).pos();
                let w = spec_i32_at(b, p);
                let have_word = p + 4 <= b.len();
                let version_ok = have_word && w <= 0 && (w as u32) & VERSION_MASK == VERSION_1;
                let nl = spec_i32_at(b, p + 4);
                let name_ok = p + 8 <= b.len() && nl >= 0 && p + 12 + nl <= b.len();
                match r {
                    Ok(_) => version_ok && name_ok && skip_end(b, p + 12 + nl, TType::Struct)
                        == Some(final(self).pos()),
                    Err(e) => !(version_ok && name_ok && skip_end(b, p + 12 + nl, TType::Struct)
                        is Some) && e.kind == (if have_word && !(w <= 0 && (w as u32)
                        & VERSION_MASK == VERSION_1) {
                        CodecErrorKind::BadVersion
                    } else {
                        CodecErrorKind::InvalidData
                    }) && (have_word && w > 0 ==> e.message@
                        == "Missing version in ReadMessageBegin"@) && (have_word && w <= 0 && (
                    w as u32) & VERSION_MASK != VERSION_1 ==> e.message@
                        == "Bad version in ReadMessageBegin"@),
                }
            }),
    {
        let word = match self.read_i32() {
            Ok(w) => w,
            Err(e) => {
                return Err(e);
            },
        };
        if word > 0 {
            return Err(
                CodecError::new(CodecErrorKind::BadVersion, "Missing version in ReadMessageBegin"),
            );
        }
        let wu = word as u32;
        if wu & VERSION_MASK != VERSION_1 {
            return Err(
                CodecError::new(CodecErrorKind::BadVersion, "Bad version in ReadMessageBegin"),
            );
        }
        let nl = match self.read_i32() {
            Ok(l) => l,
            Err(e) => {
                return Err(e);
            },
        };
        if nl < 0 {
            return Err(CodecError::invalid_data());
        }
        let len = self.trans.len();
        let p = self.attachment;
        if len - p < (nl as usize) + 4 {
            return Err(CodecError::invalid_data());
        }
        self.attachment = p + (nl as usize) + 4;
        self.skip_field(TType::Struct)
    }
}

/// Relies on std's `str::from_utf8`: it accepts a byte slice exactly when
/// the bytes are valid UTF-8.
#[verifier::external_body]
fn str_is_utf8(v: &Vec<u8>) -> (r: bool)
    ensures
        r == vstd::utf8::valid_utf8(v@),
{
    std::str::from_utf8(v).is_ok()
}

/// Relies on std's `String::from_utf8`: it succeeds exactly on valid UTF-8
/// input and returns the string holding those very bytes.
#[verifier::external_body]
fn string_from_utf8(v: Vec<u8>) -> (r: Option<String>)
    ensures
        r is Some <==> vstd::utf8::valid_utf8(v@),
        r matches Some(s) ==> vstd::utf8::encode_utf8(s@) == v@,
{
    std::string::String::from_utf8(v).ok()
}

impl TBinaryProtocol<Vec<u8>, usize> {
    /// Incremental form of [`Self::read_byte`]: instead of failing on a
    /// short buffer, report how many bytes (from the cursor) are needed.
    pub fn try_read_byte(&mut self) -> (r: Decoded<u8>)
        requires
            old(self).wf(),
        ensures
            final(self).bytes() == old(self).bytes(),
            final(self).wf(),
            ({
                let b = old(self).bytes();
                let p = old(self).pos();
                match r {
                    Decoded::Complete(v) => p + 1 <= b.len() && v == b[p] && final(self).pos() == p
                        + 1,
                    Decoded::InsufficientAtLeast(n) => p + 1 > b.len() && n == 1 && final(self).pos() == p,
                }
            }),
    {
        let len = self.trans.len();
        let p = self.attachment;
        if len - p < 1 {
            return Decoded::InsufficientAtLeast(1);
        }
        let v = self.trans[p];
        self.attachment = p + 1;
        Decoded::Complete(v)
    }

    /// Incremental form of [`Self::read_bool`].
    pub fn try_read_bool(&mut self) -> (r: Decoded<bool>)
        requires
            old(self).wf(),
        ensures
            final(self).bytes() == old(self).bytes(),
            final(self).wf(),
            ({
                let b = old(self).bytes();
                let p = old(self).pos();
                match r {
                    Decoded::Complete(v) => p + 1 <= b.len() && v == (b[p] != 0) && final(self).pos() == p + 1,
                    Decoded::InsufficientAtLeast(n) => p + 1 > b.len() && n == 1 && final(self).pos() == p,
                }
            }),
    {
        match self.try_read_byte() {
            Decoded::Complete(v) => Decoded::Complete(v != 0),
            Decoded::InsufficientAtLeast(n) => Decoded::InsufficientAtLeast(n),
        }
    }

    /// Incremental form of [`Self::read_i8`].
    pub fn try_read_i8(&mut self) -> (r: Decoded<i8>)
        requires
            old(self).wf(),
        ensures
            final(self).bytes() == old(self).bytes(),
            final(self).wf(),
            ({
                let b = old(self).bytes();
                let p = old(self).pos();
                match r {
                    Decoded::Complete(v) => p + 1 <= b.len() && v == b[p] as i8 && final(self).pos() == p + 1,
                    Decoded::InsufficientAtLeast(n) => p + 1 > b.len() && n == 1 && final(self).pos() == p,
                }
            }),
    {
        match self.try_read_byte() {
            Decoded::Complete(v) => Decoded::Complete(v as i8),
            Decoded::InsufficientAtLeast(n) => Decoded::InsufficientAtLeast(n),
        }
    }

    /// Incremental form of [`Self::read_i16`].
    pub fn try_read_i16(&mut self) -> (r: Decoded<i16>)
        requires
            old(self).wf(),
        ensures
            final(self).bytes() == old(self).bytes(),
            final(self).wf(),
            ({
                let b = old(self).bytes();
                let p = old(self).pos();
                match r {
                    Decoded::Complete(v) => p + 2 <= b.len() && v == spec_i16_at(b, p) && final(self).pos() == p + 2,
                    Decoded::InsufficientAtLeast(n) => p + 2 > b.len() && n == 2 && final(self).pos() == p,
                }
            }),
    {
        let len = self.trans.len();
        let p = self.attachment;
        if len - p < 2 {
            return Decoded::InsufficientAtLeast(2);
        }
        let v = crate::wire::read_i16_at(&self.trans, p);
        self.attachment = p + 2;
        Decoded::Complete(v)
    }

    /// Incremental form of [`Self::read_i32`].
    pub fn try_read_i32(&mut self) -> (r: Decoded<i32>)
        requires
            old(self).wf(),
        ensures
            final(self).bytes() == old(self).bytes(),
            final(self).wf(),
            ({
                let b = old(self).bytes();
                let p = old(self).pos();
                match r {
                    Decoded::Complete(v) => p + 4 <= b.len() && v == spec_i32_at(b, p) && final(self).pos() == p + 4,
                    Decoded::InsufficientAtLeast(n) => p + 4 > b.len() && n == 4 && final(self).pos() == p,
                }
            }),
    {
        let len = self.trans.len();
        let p = self.attachment;
        if len - p < 4 {
            return Decoded::InsufficientAtLeast(4);
        }
        let v = crate::wire::read_i32_at(&self.trans, p);
        self.attachment = p + 4;
        Decoded::Complete(v)
    }

    /// Incremental form of [`Self::read_i64`].
    pub fn try_read_i64(&mut self) -> (r: Decoded<i64>)
        requires
            old(self).wf(),
        ensures
            final(self).bytes() == old(self).bytes(),
            final(self).wf(),
            ({
                let b = old(self).bytes();
                let p = old(self).pos();
                match r {
                    Decoded::Complete(v) => p + 8 <= b.len() && v == spec_i64_at(b, p) && final(self).pos() == p + 8,
                    Decoded::InsufficientAtLeast(n) => p + 8 > b.len() && n == 8 && final(self).pos() == p,
                }
            }),
    {
        let len = self.trans.len();
        let p = self.attachment;
        if len - p < 8 {
            return Decoded::InsufficientAtLeast(8);
        }
        let v = crate::wire::read_i64_at(&self.trans, p);
        self.attachment = p + 8;
        Decoded::Complete(v)
    }

    /// Incremental form of [`Self::read_double_bits`].
    pub fn try_read_double_bits(&mut self) -> (r: Decoded<u64>)
        requires
            old(self).wf(),
        ensures
            final(self).bytes() == old(self).bytes(),
            final(self).wf(),
            ({
                let b = old(self).bytes();
                let p = old(self).pos();
                match r {
                    Decoded::Complete(v) => p + 8 <= b.len() && v == spec_u64_at(b, p) && final(self).pos() == p + 8,
                    Decoded::InsufficientAtLeast(n) => p + 8 > b.len() && n == 8 && final(self).pos() == p,
                }
            }),
    {
        let len = self.trans.len();
        let p = self.attachment;
        if len - p < 8 {
            return Decoded::InsufficientAtLeast(8);
        }
        let v = crate::wire::read_u64_at(&self.trans, p);
        self.attachment = p + 8;
        Decoded::Complete(v)
    }

    /// Incremental form of [`Self::read_uuid`].
    pub fn try_read_uuid(&mut self) -> (r: Decoded<Vec<u8>>)
        requires
            old(self).wf(),
        ensures
            final(self).bytes() == old(self).bytes(),
            final(self).wf(),
            ({
                let b = old(self).bytes();
                let p = old(self).pos();
                match r {
                    Decoded::Complete(v) => p + 16 <= b.len() && v@ == b.subrange(p, p + 16)
                        && final(self).pos() == p + 16,
                    Decoded::InsufficientAtLeast(n) => p + 16 > b.len() && n == 16 && final(self).pos() == p,
                }
            }),
    {
        let len = self.trans.len();
        let p = self.attachment;
        if len - p < 16 {
            return Decoded::InsufficientAtLeast(16);
        }
        let v = crate::wire::copy_range(&self.trans, p, 16);
        self.attachment = p + 16;
        Decoded::Complete(v)
    }

    /// Incremental form of [`Self::read_bytes`]; a negative length is
    /// malformed and fails rather than asking for more input.
    pub fn try_read_bytes(&mut self) -> (r: Result<Decoded<Vec<u8>>, CodecError>)
        requires
            old(self).wf(),
        ensures
            final(self).bytes() == old(self).bytes(),
            final(self).wf(),
            ({
                let b = old(self).bytes();
                let p = old(self).pos();
                let l = spec_i32_at(b, p);
                match r {
                    Ok(Decoded::Complete(v)) => p + 4 <= b.len() && l >= 0 && p + 4 + l <= b.len()
                        && v@ == b.subrange(p + 4, p + 4 + l) && final(self).pos() == p + 4 + l,
                    Ok(Decoded::InsufficientAtLeast(n)) => final(self).pos() == p && ((p + 4
                        > b.len() && n == 4) || (p + 4 <= b.len() && l >= 0 && p + 4 + l > b.len()
                        && n == 4 + l)),
                    Err(e) => p + 4 <= b.len() && l < 0 && final(self).pos() == p && e.kind
                        == CodecErrorKind::InvalidData,
                }
            }),
    {
        let len = self.trans.len();
        let p = self.attachment;
        if len - p < 4 {
            return Ok(Decoded::InsufficientAtLeast(4));
        }
        let l = crate::wire::read_i32_at(&self.trans, p);
        if l < 0 {
            return Err(CodecError::new(CodecErrorKind::InvalidData, "invalid bytes length"));
        }
        let l = l as usize;
        if len - (p + 4) < l {
            return Ok(Decoded::InsufficientAtLeast(4 + l));
        }
        let v = crate::wire::copy_range(&self.trans, p + 4, l);
        self.attachment = p + 4 + l;
        Ok(Decoded::Complete(v))
    }

    /// Incremental form of [`Self::read_string`].
    pub fn try_read_string(&mut self) -> (r: Result<Decoded<String>, CodecError>)
        requires
            old(self).wf(),
        ensures
            final(self).bytes() == old(self).bytes(),
            final(self).wf(),
            ({
                let b = old(self).bytes();
                let p = old(self).pos();
                let l = spec_i32_at(b, p);
                let sbytes = b.subrange(p + 4, p + 4 + l);
                match r {
                    Ok(Decoded::Complete(s)) => p + 4 <= b.len() && l >= 0 && p + 4 + l <= b.len()
                        && vstd::utf8::valid_utf8(sbytes) && vstd::utf8::encode_utf8(s@) == sbytes
                        && final(self).pos() == p + 4 + l,
                    Ok(Decoded::InsufficientAtLeast(n)) => final(self).pos() == p && ((p + 4
                        > b.len() && n == 4) || (p + 4 <= b.len() && l >= 0 && p + 4 + l > b.len()
                        && n == 4 + l)),
                    Err(e) => p + 4 <= b.len() && (l < 0 || (p + 4 + l <= b.len()
                        && !vstd::utf8::valid_utf8(sbytes))) && e.kind
                        == CodecErrorKind::InvalidData,
                }
            }),
    {
        let ghost p0 = self.attachment as int;
        let data = match self.try_read_bytes() {
            Ok(Decoded::Complete(v)) => v,
            Ok(Decoded::InsufficientAtLeast(n)) => {
                return Ok(Decoded::InsufficientAtLeast(n));
            },
            Err(e) => {
                return Err(e);
            },
        };
        if data.len() == 0 {
            let s = String::new();
            proof {
                assert(vstd::utf8::encode_utf8(s@) =~= data@);
            }
            return Ok(Decoded::Complete(s));
        }
        match string_from_utf8(data) {
            Some(s) => Ok(Decoded::Complete(s)),
            None => Err(CodecError::new(CodecErrorKind::InvalidData, "not a valid utf8 string")),
        }
    }

    /// Incremental form of [`Self::read_message_begin`]; the cursor moves
    /// only when a complete identifier is decoded.
    pub fn try_read_message_begin(&mut self) -> (r: Result<
        Decoded<TMessageIdentifier>,
        CodecError,
    >)
        requires
            old(self).wf(),
        ensures
            final(self).bytes() == old(self).bytes(),
            final(self).wf(),
            ({
                let b = old(self).bytes();
                let p = old(self).pos();
                let w = spec_i32_at(b, p);
                let have_word = p + 4 <= b.len();
                let version_ok = have_word && w <= 0 && (w as u32) & VERSION_MASK == VERSION_1;
                let kind_ok = TMessageType::spec_valid_value(((w as u32) & 0xf) as u8);
                let nl = spec_i32_at(b, p + 4);
                let name = b.subrange(p + 8, p + 8 + nl);
                match r {
                    Ok(Decoded::Complete(id)) => version_ok && kind_ok && p + 8 <= b.len() && nl
                        >= 0 && p + 12 + nl <= b.len() && vstd::utf8::valid_utf8(name) && id.name@
                        == name && id.message_type == TMessageType::spec_from_u8(
                        ((w as u32) & 0xf) as u8,
                    ) && id.sequence_number == spec_i32_at(b, p + 8 + nl) && final(self).pos() == p
                        + 12 + nl,
                    Ok(Decoded::InsufficientAtLeast(n)) => final(self).pos() == p && ((p + 4
                        > b.len() && n == 4) || (version_ok && kind_ok && p + 8 > b.len() && n == 8)
                        || (version_ok && kind_ok && p + 8 <= b.len() && nl >= 0 && p + 12 + nl
                        > b.len() && n == 12 + nl)),
                    Err(e) => final(self).pos() == p && !(version_ok && kind_ok && nl >= 0 && (p
                        + 12 + nl <= b.len() ==> vstd::utf8::valid_utf8(name))) && e.kind == (if
                    have_word && !(w <= 0 && (w as u32) & VERSION_MASK == VERSION_1) {
                        CodecErrorKind::BadVersion
                    } else {
                        CodecErrorKind::InvalidData
                    }) && (have_word && w > 0 ==> e.message@
                        == "Missing version in ReadMessageBegin"@) && (have_word && w <= 0 && (
                    w as u32) & VERSION_MASK != VERSION_1 ==> e.message@
                        == "Bad version in ReadMessageBegin"@),
                }
            }),
    {
        let len = self.trans.len();
        let p = self.attachment;
        if len - p < 4 {
            return Ok(Decoded::InsufficientAtLeast(4));
        }
        let word = crate::wire::read_i32_at(&self.trans, p);
        if word > 0 {
            return Err(
                CodecError::new(CodecErrorKind::BadVersion, "Missing version in ReadMessageBegin"),
            );
        }
        let wu = word as u32;
        if wu & VERSION_MASK != VERSION_1 {
            return Err(
                CodecError::new(CodecErrorKind::BadVersion, "Bad version in ReadMessageBegin"),
            );
        }
        let nib = (wu & 0xf) as u8;
        let message_type = match TMessageType::try_from(nib) {
            Ok(t) => t,
            Err(_) => {
                return Err(CodecError::new(CodecErrorKind::InvalidData, "invalid message type"));
            },
        };
        if len - p < 8 {
            return Ok(Decoded::InsufficientAtLeast(8));
        }
        let nl = crate::wire::read_i32_at(&self.trans, p + 4);
        if nl < 0 {
            return Err(CodecError::new(CodecErrorKind::InvalidData, "invalid bytes length"));
        }
        let nl = nl as usize;
        if (len - (p + 8)) < nl + 4 {
            return Ok(Decoded::InsufficientAtLeast(12 + nl));
        }
        let name = crate::wire::copy_range(&self.trans, p + 8, nl);
        if name.len() > 0 && !str_is_utf8(&name) {
            return Err(CodecError::new(CodecErrorKind::InvalidData, "not a valid utf8 string"));
        }
        let sequence_number = crate::wire::read_i32_at(&self.trans, p + 8 + nl);
        self.attachment = p + 12 + nl;
        Ok(Decoded::Complete(TMessageIdentifier::new(name, message_type, sequence_number)))
    }

    /// Incremental form of [`Self::read_field_begin`].
    pub fn try_read_field_begin(&mut self) -> (r: Result<Decoded<TFieldIdentifier>, CodecError>)
        requires
            old(self).wf(),
        ensures
            final(self).bytes() == old(self).bytes(),
            final(self).wf(),
            ({
                let b = old(self).bytes();
                let p = old(self).pos();
                match r {
                    Ok(Decoded::Complete(f)) => p + 1 <= b.len() && TType::spec_valid_tag(b[p])
                        && f.name is None && f.field_type == TType::spec_from_u8(b[p]) && (if b[p]
                        == 0 {
                        f.id == Some(0i16) && final(self).pos() == p + 1
                    } else {
                        p + 3 <= b.len() && f.id == Some(spec_i16_at(b, p + 1)) && final(self).pos() == p + 3
                    }),
                    Ok(Decoded::InsufficientAtLeast(n)) => final(self).pos() == p && ((p + 1
                        > b.len() && n == 1) || (p + 1 <= b.len() && TType::spec_valid_tag(b[p])
                        && b[p] != 0 && p + 3 > b.len() && n == 3)),
                    Err(e) => p + 1 <= b.len() && !TType::spec_valid_tag(b[p]) && final(self).pos() == p && e.kind == CodecErrorKind::InvalidData,
                }
            }),
    {
        let len = self.trans.len();
        let p = self.attachment;
        if len - p < 1 {
            return Ok(Decoded::InsufficientAtLeast(1));
        }
        let tag = self.trans[p];
        let field_type = match TType::try_from(tag) {
            Ok(t) => t,
            Err(e) => {
                return Err(e);
            },
        };
        if tag == 0 {
            self.attachment = p + 1;
            return Ok(Decoded::Complete(TFieldIdentifier::new(None, field_type, Some(0))));
        }
        if len - p < 3 {
            return Ok(Decoded::InsufficientAtLeast(3));
        }
        let id = crate::wire::read_i16_at(&self.trans, p + 1);
        self.attachment = p + 3;
        Ok(Decoded::Complete(TFieldIdentifier::new(None, field_type, Some(id))))
    }

    /// Incremental form of [`Self::read_list_begin`].
    pub fn try_read_list_begin(&mut self) -> (r: Result<Decoded<TListIdentifier>, CodecError>)
        requires
            old(self).wf(),
        ensures
            final(self).bytes() == old(self).bytes(),
            final(self).wf(),
            ({
                let b = old(self).bytes();
                let p = old(self).pos();
                match r {
                    Ok(Decoded::Complete(id)) => p + 5 <= b.len() && TType::spec_valid_tag(b[p])
                        && id.element_type == TType::spec_from_u8(b[p]) && id.size == spec_i32_at(
                        b,
                        p + 1,
                    ) as usize && final(self).pos() == p + 5,
                    Ok(Decoded::InsufficientAtLeast(n)) => final(self).pos() == p && ((p + 1
                        > b.len() && n == 1) || (p + 1 <= b.len() && TType::spec_valid_tag(b[p])
                        && p + 5 > b.len() && n == 5)),
                    Err(e) => p + 1 <= b.len() && !TType::spec_valid_tag(b[p]) && final(self).pos() == p && e.kind == CodecErrorKind::InvalidData,
                }
            }),
    {
        let len = self.trans.len();
        let p = self.attachment;
        if len - p < 1 {
            return Ok(Decoded::InsufficientAtLeast(1));
        }
        let tag = self.trans[p];
        let element_type = match TType::try_from(tag) {
            Ok(t) => t,
            Err(e) => {
                return Err(e);
            },
        };
        if len - p < 5 {
            return Ok(Decoded::InsufficientAtLeast(5));
        }
        let size = crate::wire::read_i32_at(&self.trans, p + 1);
        self.attachment = p + 5;
        Ok(Decoded::Complete(TListIdentifier::new(element_type, size as usize)))
    }

    /// Incremental form of [`Self::read_set_begin`].
    pub fn try_read_set_begin(&mut self) -> (r: Result<Decoded<TSetIdentifier>, CodecError>)
        requires
            old(self).wf(),
        ensures
            final(self).bytes() == old(self).bytes(),
            final(self).wf(),
            ({
                let b = old(self).bytes();
                let p = old(self).pos();
                match r {
                    Ok(Decoded::Complete(id)) => p + 5 <= b.len() && TType::spec_valid_tag(b[p])
                        && id.element_type == TType::spec_from_u8(b[p]) && id.size == spec_i32_at(
                        b,
                        p + 1,
                    ) as usize && final(self).pos() == p + 5,
                    Ok(Decoded::InsufficientAtLeast(n)) => final(self).pos() == p && ((p + 1
                        > b.len() && n == 1) || (p + 1 <= b.len() && TType::spec_valid_tag(b[p])
                        && p + 5 > b.len() && n == 5)),
                    Err(e) => p + 1 <= b.len() && !TType::spec_valid_tag(b[p]) && final(self).pos() == p && e.kind == CodecErrorKind::InvalidData,
                }
            }),
    {
        let len = self.trans.len();
        let p = self.attachment;
        if len - p < 1 {
            return Ok(Decoded::InsufficientAtLeast(1));
        }
        let tag = self.trans[p];
        let element_type = match TType::try_from(tag) {
            Ok(t) => t,
            Err(e) => {
                return Err(e);
            },
        };
        if len - p < 5 {
            return Ok(Decoded::InsufficientAtLeast(5));
        }
        let size = crate::wire::read_i32_at(&self.trans, p + 1);
        self.attachment = p + 5;
        Ok(Decoded::Complete(TSetIdentifier::new(element_type, size as usize)))
    }

    /// Incremental form of [`Self::read_map_begin`].
    pub fn try_read_map_begin(&mut self) -> (r: Result<Decoded<TMapIdentifier>, CodecError>)
        requires
            old(self).wf(),
        ensures
            final(self).bytes() == old(self).bytes(),
            final(self).wf(),
            ({
                let b = old(self).bytes();
                let p = old(self).pos();
                match r {
                    Ok(Decoded::Complete(id)) => p + 6 <= b.len() && TType::spec_valid_tag(b[p])
                        && TType::spec_valid_tag(b[p + 1]) && id.key_type == TType::spec_from_u8(
                        b[p],
                    ) && id.value_type == TType::spec_from_u8(b[p + 1]) && id.size == spec_i32_at(
                        b,
                        p + 2,
                    ) as usize && final(self).pos() == p + 6,
                    Ok(Decoded::InsufficientAtLeast(n)) => final(self).pos() == p && ((p + 1
                        > b.len() && n == 1) || (p + 1 <= b.len() && TType::spec_valid_tag(b[p])
                        && p + 2 > b.len() && n == 2) || (p + 2 <= b.len() && TType::spec_valid_tag(
                        b[p],
                    ) && TType::spec_valid_tag(b[p + 1]) && p + 6 > b.len() && n == 6)),
                    Err(e) => p + 1 <= b.len() && (!TType::spec_valid_tag(b[p]) || (p + 2 <= b.len()
                        && !TType::spec_valid_tag(b[p + 1]))) && final(self).pos() == p && e.kind
                        == CodecErrorKind::InvalidData,
                }
            }),
    {
        let len = self.trans.len();
        let p = self.attachment;
        if len - p < 1 {
            return Ok(Decoded::InsufficientAtLeast(1));
        }
        let key_type = match TType::try_from(self.trans[p]) {
            Ok(t) => t,
            Err(e) => {
                return Err(e);
            },
        };
        if len - p < 2 {
            return Ok(Decoded::InsufficientAtLeast(2));
        }
        let value_type = match TType::try_from(self.trans[p + 1]) {
            Ok(t) => t,
            Err(e) => {
                return Err(e);
            },
        };
        if len - p < 6 {
            return Ok(Decoded::InsufficientAtLeast(6));
        }
        let size = crate::wire::read_i32_at(&self.trans, p + 2);
        self.attachment = p + 6;
        Ok(Decoded::Complete(TMapIdentifier::new(key_type, value_type, size as usize)))
    }

    /// Incremental form of [`Self::skip_field`]: on a short buffer the
    /// cursor stays and the needed byte count (from the cursor) is
    /// reported; malformed bytes fail like the plain form.
    pub fn try_skip_field(&mut self, ttype: TType) -> (r: Result<Decoded<()>, CodecError>)
        requires
            old(self).wf(),
        ensures
            final(self).bytes() == old(self).bytes(),
            final(self).wf(),
            ({
                let b = old(self).bytes();
                let p = old(self).pos();
                match r {
                    Ok(Decoded::Complete(_)) => skip_end(b, p, ttype) == Some(final(self).pos()),
                    Ok(Decoded::InsufficientAtLeast(n)) => skip_end(b, p, ttype) is None && final(self).pos() == p && (n == usize::MAX || p + n > b.len()),
                    Err(e) => skip_end(b, p, ttype) is None && final(self).pos() == p && e.kind
                        == CodecErrorKind::InvalidData,
                }
            }),
    {
        match skip_value(&self.trans, self.attachment, ttype) {
            SkipOutcome::Complete(e) => {
                proof {
                    crate::skip::lemma_skip_end_bounds(self.trans@, self.attachment as int, ttype);
                }
                self.attachment = e;
                Ok(Decoded::Complete(()))
            },
            SkipOutcome::NeedAtLeast(n) => Ok(Decoded::InsufficientAtLeast(n)),
            SkipOutcome::Invalid => Err(CodecError::invalid_data()),
        }
    }

    /// Incremental form of [`Self::skip_message`].
    pub fn try_skip_message(&mut self) -> (r: Result<Decoded<()>, CodecError>)
        requires
            old(self).wf(),
        ensures
            final(self).bytes() == old(self).bytes(),
            final(self).wf(),
            ({
                let b = old(self).bytes();
                let p = old(self).pos();
                let w = spec_i32_at(b, p);
                let have_word = p + 4 <= b.len();
                let version_ok = have_word && w <= 0 && (w as u32) & VERSION_MASK == VERSION_1;
                let nl = spec_i32_at(b, p + 4);
                let name_ok = p + 8 <= b.len() && nl >= 0 && p + 12 + nl <= b.len();
                match r {
                    Ok(Decoded::Complete(_)) => version_ok && name_ok && skip_end(
                        b,
                        p + 12 + nl,
                        TType::Struct,
                    ) == Some(final(self).pos()),
                    Ok(Decoded::InsufficientAtLeast(n)) => final(self).pos() == p && !(version_ok
                        && name_ok && skip_end(b, p + 12 + nl, TType::Struct) is Some) && (n
                        == usize::MAX || p + n > b.len()),
                    Err(e) => final(self).pos() == p && !(version_ok && name_ok && skip_end(
                        b,
                        p + 12 + nl,
                        TType::Struct,
                    ) is Some) && e.kind == (if have_word && !(w <= 0 && (w as u32) & VERSION_MASK
                        == VERSION_1) {
                        CodecErrorKind::BadVersion
                    } else {
                        CodecErrorKind::InvalidData
                    }) && (have_word && w > 0 ==> e.message@
                        == "Missing version in ReadMessageBegin"@) && (have_word && w <= 0 && (
                    w as u32) & VERSION_MASK != VERSION_1 ==> e.message@
                        == "Bad version in ReadMessageBegin"@),
                }
            }),
    {
        let len = self.trans.len();
        let p = self.attachment;
        if len - p < 4 {
            return Ok(Decoded::InsufficientAtLeast(4));
        }
        let word = crate::wire::read_i32_at(&self.trans, p);
        if word > 0 {
            return Err(
                CodecError::new(CodecErrorKind::BadVersion, "Missing version in ReadMessageBegin"),
            );
        }
        let wu = word as u32;
        if wu & VERSION_MASK != VERSION_1 {
            return Err(
                CodecError::new(CodecErrorKind::BadVersion, "Bad version in ReadMessageBegin"),
            );
        }
        if len - p < 8 {
            return Ok(Decoded::InsufficientAtLeast(8));
        }
        let nl = crate::wire::read_i32_at(&self.trans, p + 4);
        if nl < 0 {
            return Err(CodecError::invalid_data());
        }
        let nl = nl as usize;
        if (len - (p + 8)) < nl + 4 {
            return Ok(Decoded::InsufficientAtLeast(12 + nl));
        }
        match skip_value(&self.trans, p + 12 + nl, TType::Struct) {
            SkipOutcome::Complete(e) => {
                proof {
                    crate::skip::lemma_skip_end_bounds(
                        self.trans@,
                        p + 12 + nl,
                        TType::Struct,
                    );
                }
                self.attachment = e;
                Ok(Decoded::Complete(()))
            },
            SkipOutcome::NeedAtLeast(n) => {
                let cap: usize = usize::MAX - (12 + nl);
                if n > cap {
                    Ok(Decoded::InsufficientAtLeast(usize::MAX))
                } else {
                    Ok(Decoded::InsufficientAtLeast(12 + nl + n))
                }
            },
            SkipOutcome::Invalid => Err(CodecError::invalid_data()),
        }
    }
}

/// Bytes of an encoded message header: version word carrying the kind
/// nibble, length-prefixed name, sequence number.
pub open spec fn spec_msg_begin_bytes(name: Seq<u8>, mt: TMessageType, seq: i32) -> Seq<u8> {
    crate::wire::spec_u32_bytes(VERSION_1 | (mt.spec_value() as u32)) + crate::wire::spec_u32_bytes(
        name.len() as u32,
    ) + name + crate::wire::spec_i32_bytes(seq)
}

impl TBinaryProtocol<Vec<u8>, Vec<usize>> {
    /// The bytes written so far.
    pub open spec fn out(&self) -> Seq<u8> {
        self.trans@
    }

    /// The recorded offsets of container-length placeholders that still
    /// wait for their `*_end` call.
    pub open spec fn bstack(&self) -> Seq<usize> {
        self.attachment@
    }

    /// Every recorded offset points at four placeholder bytes inside the
    /// output.
    pub open spec fn wf(&self) -> bool {
        forall|i: int| 0 <= i < self.attachment@.len() ==> self.attachment@[i] + 4
            <= self.trans@.len()
    }

    /// Start writing at the end of `trans`.
    pub fn new(trans: Vec<u8>) -> (r: Self)
        ensures
            r.out() == trans@,
            r.bstack().len() == 0,
            r.wf(),
    {
        Self { trans, attachment: Vec::new() }
    }

    /// Append one byte.
    pub fn write_byte(&mut self, b: u8)
        requires
            old(self).wf(),
        ensures
            final(self).out() == old(self).out() + seq![b],
            final(self).bstack() == old(self).bstack(),
            final(self).wf(),
    {
        self.trans.push(b);
        proof {
            assert(self.trans@ =~= old(self).trans@ + seq![b]);
        }
    }

    /// Append a bool as one byte, one for true.
    pub fn write_bool(&mut self, b: bool)
        requires
            old(self).wf(),
        ensures
            final(self).out() == old(self).out() + seq![if b { 1u8 } else { 0u8 }],
            final(self).bstack() == old(self).bstack(),
            final(self).wf(),
    {
        self.write_byte(if b { 1 } else { 0 });
    }

    /// Append an 8-bit signed integer.
    pub fn write_i8(&mut self, i: i8)
        requires
            old(self).wf(),
        ensures
            final(self).out() == old(self).out() + seq![i as u8],
            final(self).bstack() == old(self).bstack(),
            final(self).wf(),
    {
        self.write_byte(i as u8);
    }

    /// Append a big-endian 16-bit signed integer.
    pub fn write_i16(&mut self, i: i16)
        requires
            old(self).wf(),
        ensures
            final(self).out() == old(self).out() + crate::wire::spec_i16_bytes(i),
            final(self).bstack() == old(self).bstack(),
            final(self).wf(),
    {
        crate::wire::push_i16_be(&mut self.trans, i);
    }

    /// Append a big-endian 32-bit signed integer.
    pub fn write_i32(&mut self, i: i32)
        requires
            old(self).wf(),
        ensures
            final(self).out() == old(self).out() + crate::wire::spec_i32_bytes(i),
            final(self).bstack() == old(self).bstack(),
            final(self).wf(),
    {
        crate::wire::push_i32_be(&mut self.trans, i);
    }

    /// Append a big-endian 64-bit signed integer.
    pub fn write_i64(&mut self, i: i64)
        requires
            old(self).wf(),
        ensures
            final(self).out() == old(self).out() + crate::wire::spec_i64_bytes(i),
            final(self).bstack() == old(self).bstack(),
            final(self).wf(),
    {
        crate::wire::push_i64_be(&mut self.trans, i);
    }

    /// Append the raw bits of a big-endian IEEE-754 double.
    pub fn write_double_bits(&mut self, d: u64)
        requires
            old(self).wf(),
        ensures
            final(self).out() == old(self).out() + crate::wire::spec_u64_bytes(d),
            final(self).bstack() == old(self).bstack(),
            final(self).wf(),
    {
        crate::wire::push_u64_be(&mut self.trans, d);
    }

    /// Append a 16-byte UUID in its raw wire order.
    pub fn write_uuid(&mut self, u: &Vec<u8>)
        requires
            old(self).wf(),
            u@.len() == 16,
        ensures
            final(self).out() == old(self).out() + u@,
            final(self).bstack() == old(self).bstack(),
            final(self).wf(),
    {
        self.append_bytes(u);
    }

    /// Append the raw bytes of `b` with no framing.
    fn append_bytes(&mut self, b: &Vec<u8>)
        requires
            old(self).wf(),
        ensures
            final(self).out() == old(self).out() + b@,
            final(self).bstack() == old(self).bstack(),
            final(self).wf(),
    {
        let n = b.len();
        let mut i: usize = 0;
        while i < n
            invariant
                i <= n,
                n == b@.len(),
                self.trans@ == old(self).trans@ + b@.subrange(0, i as int),
                self.attachment == old(self).attachment,
            decreases n - i,
        {
            self.trans.push(b[i]);
            proof {
                assert(self.trans@ =~= old(self).trans@ + b@.subrange(0, (i + 1) as int));
            }
            i = i + 1;
        }
        proof {
            assert(b@.subrange(0, n as int) =~= b@);
        }
    }

    /// Append a length-prefixed byte string: 32-bit length, then the bytes.
    pub fn write_bytes(&mut self, b: &Vec<u8>)
        requires
            old(self).wf(),
            b@.len() <= i32::MAX,
        ensures
            final(self).out() == old(self).out() + crate::wire::spec_u32_bytes(b@.len() as u32)
                + b@,
            final(self).bstack() == old(self).bstack(),
            final(self).wf(),
    {
        let l = b.len() as u32;
        crate::wire::push_u32_be(&mut self.trans, l);
        self.append_bytes(b);
        proof {
            assert(self.trans@ =~= old(self).trans@ + crate::wire::spec_u32_bytes(
                b@.len() as u32,
            ) + b@);
        }
    }

    /// Append a length-prefixed string as its UTF-8 bytes.
    pub fn write_string(&mut self, s: &str)
        requires
            old(self).wf(),
            vstd::utf8::encode_utf8(s@).len() <= i32::MAX,
        ensures
            final(self).out() == old(self).out() + crate::wire::spec_u32_bytes(
                vstd::utf8::encode_utf8(s@).len() as u32,
            ) + vstd::utf8::encode_utf8(s@),
            final(self).bstack() == old(self).bstack(),
            final(self).wf(),
    {
        let bytes = vstd::slice::slice_to_vec(s.as_bytes());
        self.write_bytes(&bytes);
    }

    /// Append a message header: version word with the kind nibble, the
    /// length-prefixed name bytes, the sequence number.
    pub fn write_message_begin(&mut self, identifier: &TMessageIdentifier)
        requires
            old(self).wf(),
            identifier.name@.len() <= i32::MAX,
        ensures
            final(self).out() == old(self).out() + spec_msg_begin_bytes(
                identifier.name@,
                identifier.message_type,
                identifier.sequence_number,
            ),
            final(self).bstack() == old(self).bstack(),
            final(self).wf(),
    {
        let word = VERSION_1 | (identifier.message_type.as_u8() as u32);
        crate::wire::push_u32_be(&mut self.trans, word);
        self.write_bytes(&identifier.name);
        self.write_i32(identifier.sequence_number);
        proof {
            assert(self.trans@ =~= old(self).trans@ + spec_msg_begin_bytes(
                identifier.name@,
                identifier.message_type,
                identifier.sequence_number,
            ));
        }
    }

    /// Writing a message end emits nothing.
    pub fn write_message_end(&mut self)
        requires
            old(self).wf(),
        ensures
            *final(self) == *old(self),
    {
    }

    /// Writing a struct begin emits nothing: Binary structs have no header.
    pub fn write_struct_begin(&mut self, _identifier: &TStructIdentifier)
        requires
            old(self).wf(),
        ensures
            *final(self) == *old(self),
    {
    }

    /// Writing a struct end emits nothing.
    pub fn write_struct_end(&mut self)
        requires
            old(self).wf(),
        ensures
            *final(self) == *old(self),
    {
    }

    /// Append a field header: type tag, then the 16-bit field id.
    pub fn write_field_begin(&mut self, field_type: TType, id: i16)
        requires
            old(self).wf(),
        ensures
            final(self).out() == old(self).out() + seq![field_type.spec_value()]
                + crate::wire::spec_i16_bytes(id),
            final(self).bstack() == old(self).bstack(),
            final(self).wf(),
    {
        self.write_byte(field_type.as_u8());
        self.write_i16(id);
        proof {
            assert(self.trans@ =~= old(self).trans@ + seq![field_type.spec_value()]
                + crate::wire::spec_i16_bytes(id));
        }
    }

    /// Writing a field end emits nothing.
    pub fn write_field_end(&mut self)
        requires
            old(self).wf(),
        ensures
            *final(self) == *old(self),
    {
    }

    /// Append the `Stop` tag that terminates a struct's field stream.
    pub fn write_field_stop(&mut self)
        requires
            old(self).wf(),
        ensures
            final(self).out() == old(self).out() + seq![0u8],
            final(self).bstack() == old(self).bstack(),
            final(self).wf(),
    {
        self.write_byte(0);
    }

    /// Append a list header: the element type tag and a 4-byte zero
    /// placeholder, recording where the placeholder sits so that
    /// `write_list_end` can patch the element count in later.
    pub fn write_list_begin(&mut self, identifier: &TListIdentifier)
        requires
            old(self).wf(),
        ensures
            final(self).out() == old(self).out() + seq![identifier.element_type.spec_value()]
                + seq![0u8, 0u8, 0u8, 0u8],
            final(self).bstack() == old(self).bstack().push(
                (old(self).out().len() + 1) as usize,
            ),
            final(self).wf(),
    {
        self.write_byte(identifier.element_type.as_u8());
        let off = self.trans.len();
        self.attachment.push(off);
        crate::wire::push_u32_be(&mut self.trans, 0);
        proof {
            assert(0u32 >> 24 == 0 && 0u32 >> 16 == 0 && 0u32 >> 8 == 0) by (bit_vector);
            assert(crate::wire::spec_u32_bytes(0u32) =~= seq![0u8, 0u8, 0u8, 0u8]);
            assert(self.trans@ =~= old(self).trans@ + seq![identifier.element_type.spec_value()]
                + seq![0u8, 0u8, 0u8, 0u8]);
        }
    }

    /// Patch the matching list header with the number of elements written.
    pub fn write_list_end(&mut self, len: usize)
        requires
            old(self).wf(),
            old(self).bstack().len() > 0,
        ensures
            final(self).out().len() == old(self).out().len(),
            final(self).bstack() == old(self).bstack().drop_last(),
            final(self).out().subrange(
                old(self).bstack().last() as int,
                old(self).bstack().last() + 4,
            ) == crate::wire::spec_u32_bytes(len as u32),
            forall|i: int|
                0 <= i < final(self).out().len() && !(old(self).bstack().last() <= i < old(
                    self,
                ).bstack().last() + 4) ==> final(self).out()[i] == old(self).out()[i],
            final(self).wf(),
    {
        self.write_length(len);
    }

    /// Append a set header; sets share the list layout: type tag, then a
    /// 4-byte zero placeholder whose offset is recorded for
    /// `write_set_end`.
    pub fn write_set_begin(&mut self, identifier: &TSetIdentifier)
        requires
            old(self).wf(),
        ensures
            final(self).out() == old(self).out() + seq![identifier.element_type.spec_value()]
                + seq![0u8, 0u8, 0u8, 0u8],
            final(self).bstack() == old(self).bstack().push(
                (old(self).out().len() + 1) as usize,
            ),
            final(self).wf(),
    {
        self.write_byte(identifier.element_type.as_u8());
        let off = self.trans.len();
        self.attachment.push(off);
        crate::wire::push_u32_be(&mut self.trans, 0);
        proof {
            assert(0u32 >> 24 == 0 && 0u32 >> 16 == 0 && 0u32 >> 8 == 0) by (bit_vector);
            assert(crate::wire::spec_u32_bytes(0u32) =~= seq![0u8, 0u8, 0u8, 0u8]);
            assert(self.trans@ =~= old(self).trans@ + seq![identifier.element_type.spec_value()]
                + seq![0u8, 0u8, 0u8, 0u8]);
        }
    }

    /// Patch the matching set header with the number of elements written.
    pub fn write_set_end(&mut self, len: usize)
        requires
            old(self).wf(),
            old(self).bstack().len() > 0,
        ensures
            final(self).out().len() == old(self).out().len(),
            final(self).bstack() == old(self).bstack().drop_last(),
            final(self).out().subrange(
                old(self).bstack().last() as int,
                old(self).bstack().last() + 4,
            ) == crate::wire::spec_u32_bytes(len as u32),
            forall|i: int|
                0 <= i < final(self).out().len() && !(old(self).bstack().last() <= i < old(
                    self,
                ).bstack().last() + 4) ==> final(self).out()[i] == old(self).out()[i],
            final(self).wf(),
    {
        self.write_length(len);
    }

    /// Append a map header: key type tag, value type tag, and a 4-byte
    /// zero placeholder whose offset is recorded for `write_map_end`.
    pub fn write_map_begin(&mut self, identifier: &TMapIdentifier)
        requires
            old(self).wf(),
        ensures
            final(self).out() == old(self).out() + seq![
                identifier.key_type.spec_value(),
                identifier.value_type.spec_value(),
            ] + seq![0u8, 0u8, 0u8, 0u8],
            final(self).bstack() == old(self).bstack().push(
                (old(self).out().len() + 2) as usize,
            ),
            final(self).wf(),
    {
        self.write_byte(identifier.key_type.as_u8());
        self.write_byte(identifier.value_type.as_u8());
        let off = self.trans.len();
        self.attachment.push(off);
        crate::wire::push_u32_be(&mut self.trans, 0);
        proof {
            assert(0u32 >> 24 == 0 && 0u32 >> 16 == 0 && 0u32 >> 8 == 0) by (bit_vector);
            assert(crate::wire::spec_u32_bytes(0u32) =~= seq![0u8, 0u8, 0u8, 0u8]);
            assert(self.trans@ =~= old(self).trans@ + seq![
                identifier.key_type.spec_value(),
                identifier.value_type.spec_value(),
            ] + seq![0u8, 0u8, 0u8, 0u8]);
        }
    }

    /// Patch the matching map header with the number of entries written:
    /// afterwards the four bytes at the recorded offset hold the
    /// big-endian encoding of `len`.
    pub fn write_map_end(&mut self, len: usize)
        requires
            old(self).wf(),
            old(self).bstack().len() > 0,
        ensures
            final(self).out().len() == old(self).out().len(),
            final(self).bstack() == old(self).bstack().drop_last(),
            final(self).out().subrange(
                old(self).bstack().last() as int,
                old(self).bstack().last() + 4,
            ) == crate::wire::spec_u32_bytes(len as u32),
            forall|i: int|
                0 <= i < final(self).out().len() && !(old(self).bstack().last() <= i < old(
                    self,
                ).bstack().last() + 4) ==> final(self).out()[i] == old(self).out()[i],
            final(self).wf(),
    {
        self.write_length(len);
    }

    /// Pop the most recent placeholder offset and overwrite its four bytes
    /// with the big-endian length.
    fn write_length(&mut self, len: usize)
        requires
            old(self).wf(),
            old(self).bstack().len() > 0,
        ensures
            final(self).out().len() == old(self).out().len(),
            final(self).bstack() == old(self).bstack().drop_last(),
            final(self).out().subrange(
                old(self).bstack().last() as int,
                old(self).bstack().last() + 4,
            ) == crate::wire::spec_u32_bytes(len as u32),
            forall|i: int|
                0 <= i < final(self).out().len() && !(old(self).bstack().last() <= i < old(
                    self,
                ).bstack().last() + 4) ==> final(self).out()[i] == old(self).out()[i],
            final(self).wf(),
    {
        match self.attachment.pop() {
            Some(pos) => {
                crate::wire::patch_u32_be(&mut self.trans, pos, len as u32);
            },
            None => {},
        }
    }

    /// Flushing is a no-op: the writer does not own the transport.
    pub fn flush(&mut self)
        requires
            old(self).wf(),
        ensures
            *final(self) == *old(self),
    {
    }
}

/// Round trip of a message header: the bytes `write_message_begin` emits
/// for an identifier satisfy every condition `read_message_begin` checks,
/// and parse back to the same kind, name, and sequence number.
pub proof fn lemma_message_begin_roundtrip(
    b: Seq<u8>,
    p: int,
    name: Seq<u8>,
    mt: TMessageType,
    seq: i32,
)
    requires
        0 <= p,
        name.len() <= i32::MAX,
        p + 12 + name.len() <= b.len(),
        b.subrange(p, p + 12 + name.len()) == spec_msg_begin_bytes(name, mt, seq),
    ensures
        ({
            let w = spec_i32_at(b, p);
            &&& w <= 0
            &&& (w as u32) & VERSION_MASK == VERSION_1
            &&& TMessageType::spec_valid_value(((w as u32) & 0xf) as u8)
            &&& TMessageType::spec_from_u8(((w as u32) & 0xf) as u8) == mt
            &&& spec_i32_at(b, p + 4) == name.len()
            &&& b.subrange(p + 8, p + 8 + name.len()) == name
            &&& spec_i32_at(b, p + 8 + name.len()) == seq
        }),
{
    let m = spec_msg_begin_bytes(name, mt, seq);
    let nl = name.len() as int;
    assert forall|i: int| 0 <= i < 12 + nl implies b[p + i] == m[i] by {
        assert(b.subrange(p, p + 12 + nl)[i] == b[p + i]);
    }
    let word = VERSION_1 | (mt.spec_value() as u32);
    assert(b.subrange(p, p + 4) =~= crate::wire::spec_u32_bytes(word));
    crate::wire::lemma_u32_at_bytes(b, p, word);
    let mv = mt.spec_value();
    assert(mv == 1 || mv == 2 || mv == 3 || mv == 4);
    assert({
        let w = (0x80010000u32 | (mv as u32)) as i32;
        &&& w <= 0
        &&& (w as u32) & 0xffff0000u32 == 0x80010000u32
        &&& ((w as u32) & 0xfu32) as u8 == mv
    }) by (bit_vector)
        requires
            mv == 1 || mv == 2 || mv == 3 || mv == 4,
    ;
    assert forall|j: int| 0 <= j < 4 implies #[trigger] b.subrange(p + 4, p + 8)[j]
        == crate::wire::spec_u32_bytes(name.len() as u32)[j] by {
        assert(b[p + (4 + j)] == m[4 + j]);
    }
    assert(b.subrange(p + 4, p + 8) =~= crate::wire::spec_u32_bytes(name.len() as u32));
    crate::wire::lemma_u32_at_bytes(b, p + 4, name.len() as u32);
    let l32 = name.len() as u32;
    assert((l32 as i32) as int == l32 as int) by (bit_vector)
        requires
            l32 <= 0x7fffffffu32,
    ;
    assert forall|j: int|
        0 <= j < nl implies #[trigger] b.subrange(p + 8, p + 8 + nl)[j] == name[j] by {
        assert(b[p + (8 + j)] == m[8 + j]);
    }
    assert(b.subrange(p + 8, p + 8 + nl) =~= name);
    assert forall|j: int| 0 <= j < 4 implies #[trigger] b.subrange(p + 8 + nl, p + 12 + nl)[j]
        == crate::wire::spec_i32_bytes(seq)[j] by {
        assert(b[p + (8 + nl + j)] == m[8 + nl + j]);
    }
    assert(b.subrange(p + 8 + nl, p + 12 + nl) =~= crate::wire::spec_i32_bytes(seq));
    crate::wire::lemma_i32_at_bytes(b, p + 8 + nl, seq);
}

} // verus!
