use vstd::prelude::*;

use crate::error::CodecError;
use crate::error::CodecErrorKind;

verus! {

/// Thrift type tags, with their single-byte wire values given by
/// [`TType::spec_value`]: Stop=0, Void=1, Bool=2, I8=3, Double=4, I16=6,
/// I32=8, I64=10, Binary=11, Struct=12, Map=13, Set=14, List=15, Uuid=16.
/// The gaps (5, 7, 9) are invalid on the wire.
#[derive(Clone, Copy, Debug, PartialEq, Eq, Structural)]
pub enum TType {
    Stop,
    Void,
    Bool,
    I8,
    Double,
    I16,
    I32,
    I64,
    Binary,
    Struct,
    TMap,
    TSet,
    List,
    Uuid,
}

impl TType {
    /// The wire value of this tag.
    pub open spec fn spec_value(self) -> u8 {
        match self {
            TType::Stop => 0,
            TType::Void => 1,
            TType::Bool => 2,
            TType::I8 => 3,
            TType::Double => 4,
            TType::I16 => 6,
            TType::I32 => 8,
            TType::I64 => 10,
            TType::Binary => 11,
            TType::Struct => 12,
            TType::TMap => 13,
            TType::TSet => 14,
            TType::List => 15,
            TType::Uuid => 16,
        }
    }

    /// True when `b` is the wire value of some tag.
    pub open spec fn spec_valid_tag(b: u8) -> bool {
        b == 0 || b == 1 || b == 2 || b == 3 || b == 4 || b == 6 || b == 8 || b == 10 || b == 11
            || b == 12 || b == 13 || b == 14 || b == 15 || b == 16
    }

    /// The tag whose wire value is `b`; meaningful only when
    /// `spec_valid_tag(b)` holds.
    pub open spec fn spec_from_u8(b: u8) -> TType
        recommends
            TType::spec_valid_tag(b),
    {
        if b == 0 {
            TType::Stop
        } else if b == 1 {
            TType::Void
        } else if b == 2 {
            TType::Bool
        } else if b == 3 {
            TType::I8
        } else if b == 4 {
            TType::Double
        } else if b == 6 {
            TType::I16
        } else if b == 8 {
            TType::I32
        } else if b == 10 {
            TType::I64
        } else if b == 11 {
            TType::Binary
        } else if b == 12 {
            TType::Struct
        } else if b == 13 {
            TType::TMap
        } else if b == 14 {
            TType::TSet
        } else {
            if b == 15 {
                TType::List
            } else {
                TType::Uuid
            }
        }
    }

    /// Convert this tag to its wire byte.
    pub fn as_u8(self) -> (r: u8)
        ensures
            r == self.spec_value(),
    {
        match self {
            TType::Stop => 0,
            TType::Void => 1,
            TType::Bool => 2,
            TType::I8 => 3,
            TType::Double => 4,
            TType::I16 => 6,
            TType::I32 => 8,
            TType::I64 => 10,
            TType::Binary => 11,
            TType::Struct => 12,
            TType::TMap => 13,
            TType::TSet => 14,
            TType::List => 15,
            TType::Uuid => 16,
        }
    }

    /// Parse a wire byte into a tag; every byte outside the closed valid set
    /// is rejected with `InvalidData`.
    pub fn try_from(value: u8) -> (r: Result<TType, CodecError>)
        ensures
            TType::spec_valid_tag(value) ==> (r matches Ok(t) && t == TType::spec_from_u8(
                value,
            )),
            !TType::spec_valid_tag(value) ==> (r matches Err(e) && e.kind
                == CodecErrorKind::InvalidData),
    {
        match value {
            0 => Ok(TType::Stop),
            1 => Ok(TType::Void),
            2 => Ok(TType::Bool),
            3 => Ok(TType::I8),
            4 => Ok(TType::Double),
            6 => Ok(TType::I16),
            8 => Ok(TType::I32),
            10 => Ok(TType::I64),
            11 => Ok(TType::Binary),
            12 => Ok(TType::Struct),
            13 => Ok(TType::TMap),
            14 => Ok(TType::TSet),
            15 => Ok(TType::List),
            16 => Ok(TType::Uuid),
            _ => Err(CodecError::new(CodecErrorKind::InvalidData, "invalid ttype")),
        }
    }

    /// Byte width of the fixed-size tags (Bool=1, I8=1, I16=2, I32=4,
    /// Double=8, I64=8, Uuid=16); zero for every variable-size or structural
    /// tag.
    pub open spec fn spec_fixed_width(self) -> nat {
        match self {
            TType::Bool => 1,
            TType::I8 => 1,
            TType::I16 => 2,
            TType::I32 => 4,
            TType::Double => 8,
            TType::I64 => 8,
            TType::Uuid => 16,
            _ => 0,
        }
    }

    /// Executable form of [`TType::spec_fixed_width`].
    pub fn fixed_width(self) -> (r: usize)
        ensures
            r == self.spec_fixed_width(),
    {
        match self {
            TType::Bool => 1,
            TType::I8 => 1,
            TType::I16 => 2,
            TType::I32 => 4,
            TType::Double => 8,
            TType::I64 => 8,
            TType::Uuid => 16,
            _ => 0,
        }
    }
}

/// The wire value and the tag convert back and forth without loss on the
/// valid set.
pub proof fn lemma_ttype_wire_bijective(t: TType, b: u8)
    ensures
        TType::spec_valid_tag(t.spec_value()),
        TType::spec_from_u8(t.spec_value()) == t,
        TType::spec_valid_tag(b) ==> TType::spec_from_u8(b).spec_value() == b,
{
}

/// Thrift message kinds, with wire values Call=1, Reply=2, Exception=3,
/// OneWay=4.
#[derive(Clone, Copy, Debug, PartialEq, Eq, Structural)]
pub enum TMessageType {
    Call,
    Reply,
    Exception,
    OneWay,
}

impl TMessageType {
    /// The wire value of this kind.
    pub open spec fn spec_value(self) -> u8 {
        match self {
            TMessageType::Call => 1,
            TMessageType::Reply => 2,
            TMessageType::Exception => 3,
            TMessageType::OneWay => 4,
        }
    }

    /// True when `b` is the wire value of some message kind.
    pub open spec fn spec_valid_value(b: u8) -> bool {
        b == 1 || b == 2 || b == 3 || b == 4
    }

    /// The kind whose wire value is `b`; meaningful only when
    /// `spec_valid_value(b)` holds.
    pub open spec fn spec_from_u8(b: u8) -> TMessageType
        recommends
            TMessageType::spec_valid_value(b),
    {
        if b == 1 {
            TMessageType::Call
        } else if b == 2 {
            TMessageType::Reply
        } else if b == 3 {
            TMessageType::Exception
        } else {
            TMessageType::OneWay
        }
    }

    /// Convert this kind to its wire byte.
    pub fn as_u8(self) -> (r: u8)
        ensures
            r == self.spec_value(),
    {
        match self {
            TMessageType::Call => 1,
            TMessageType::Reply => 2,
            TMessageType::Exception => 3,
            TMessageType::OneWay => 4,
        }
    }

    /// Parse a wire byte into a message kind; any other value is rejected
    /// with `InvalidData`.
    pub fn try_from(value: u8) -> (r: Result<TMessageType, CodecError>)
        ensures
            TMessageType::spec_valid_value(value) ==> (r matches Ok(t) && t
                == TMessageType::spec_from_u8(value)),
            !TMessageType::spec_valid_value(value) ==> (r matches Err(e) && e.kind
                == CodecErrorKind::InvalidData),
    {
        match value {
            1 => Ok(TMessageType::Call),
            2 => Ok(TMessageType::Reply),
            3 => Ok(TMessageType::Exception),
            4 => Ok(TMessageType::OneWay),
            _ => Err(CodecError::new(CodecErrorKind::InvalidData, "invalid tmessage type")),
        }
    }
}

/// Thrift struct identifier.  The name is never transmitted in the Binary
/// protocol.
#[derive(Clone, Debug, Eq, PartialEq)]
pub struct TStructIdentifier {
    /// Name of the encoded Thrift struct.
    pub name: Option<&'static str>,
}

impl TStructIdentifier {
    /// Create a `TStructIdentifier` for a struct named `name`.
    pub fn new(name: Option<&'static str>) -> (r: TStructIdentifier)
        ensures
            r.name == name,
    {
        TStructIdentifier { name }
    }
}

/// Thrift message identifier.  The name is held as its owned UTF-8 bytes:
/// the readers validate the bytes before constructing the identifier, and
/// the writer emits them unchanged.
#[derive(Clone, Debug, Eq, PartialEq)]
pub struct TMessageIdentifier {
    /// Bytes of the service-call name the message is associated with.
    pub name: Vec<u8>,
    /// Message kind.
    pub message_type: TMessageType,
    /// Ordered sequence number identifying the message.
    pub sequence_number: i32,
}

impl TMessageIdentifier {
    /// Create a `TMessageIdentifier` for a Thrift service-call named `name`
    /// with message kind `message_type` and sequence number
    /// `sequence_number`.
    pub fn new(name: Vec<u8>, message_type: TMessageType, sequence_number: i32) -> (r:
        TMessageIdentifier)
        ensures
            r.name@ == name@,
            r.message_type == message_type,
            r.sequence_number == sequence_number,
    {
        TMessageIdentifier { name, message_type, sequence_number }
    }
}

/// Thrift list identifier.
#[derive(Clone, Copy, Debug, Eq, PartialEq, Structural)]
pub struct TListIdentifier {
    /// Type of the elements in the list.
    pub element_type: TType,
    /// Number of elements in the list.
    pub size: usize,
}

impl TListIdentifier {
    /// Create a `TListIdentifier` for a list with `size` elements of type
    /// `element_type`.
    pub fn new(element_type: TType, size: usize) -> (r: TListIdentifier)
        ensures
            r.element_type == element_type,
            r.size == size,
    {
        TListIdentifier { element_type, size }
    }
}

/// Thrift set identifier.
#[derive(Clone, Copy, Debug, Eq, PartialEq, Structural)]
pub struct TSetIdentifier {
    /// Type of the elements in the set.
    pub element_type: TType,
    /// Number of elements in the set.
    pub size: usize,
}

impl TSetIdentifier {
    /// Create a `TSetIdentifier` for a set with `size` elements of type
    /// `element_type`.
    pub fn new(element_type: TType, size: usize) -> (r: TSetIdentifier)
        ensures
            r.element_type == element_type,
            r.size == size,
    {
        TSetIdentifier { element_type, size }
    }
}

/// Thrift field identifier.
#[derive(Clone, Debug, Eq, PartialEq)]
pub struct TFieldIdentifier {
    /// Name of the Thrift field; `None` when it is not sent over the wire.
    pub name: Option<&'static str>,
    /// Field type; a primitive, container, or struct tag.
    pub field_type: TType,
    /// Thrift field id; implicitly zero when `field_type` is `TType::Stop`.
    pub id: Option<i16>,
}

impl TFieldIdentifier {
    /// Create a `TFieldIdentifier` for a field named `name` with type
    /// `field_type` and field id `id`.
    pub fn new(name: Option<&'static str>, field_type: TType, id: Option<i16>) -> (r:
        TFieldIdentifier)
        ensures
            r.name == name,
            r.field_type == field_type,
            r.id == id,
    {
        TFieldIdentifier { name, field_type, id }
    }
}

/// Thrift map identifier.
#[derive(Clone, Copy, Debug, Eq, PartialEq, Structural)]
pub struct TMapIdentifier {
    /// Map key type.
    pub key_type: TType,
    /// Map value type.
    pub value_type: TType,
    /// Number of entries in the map.
    pub size: usize,
}

impl TMapIdentifier {
    /// Create a `TMapIdentifier` for a map with `size` entries of type
    /// `key_type -> value_type`.
    pub fn new(key_type: TType, value_type: TType, size: usize) -> (r: TMapIdentifier)
        ensures
            r.key_type == key_type,
            r.value_type == value_type,
            r.size == size,
    {
        TMapIdentifier { key_type, value_type, size }
    }
}

} // verus!
