//! The TTHeader transport envelope: length, magic, flags, sequence id, and
//! a typed metadata header in front of an arbitrary payload.

use vstd::prelude::*;

use crate::codec::Decoded;
use crate::codec::DecodedView;
use crate::codec::PayloadDecoder;
use crate::codec::PayloadEncoder;
use crate::error::CodecError;
use crate::error::CodecErrorKind;
use crate::wire::spec_i32_at;
use crate::wire::spec_u16_at;
use crate::wire::spec_u32_at;

verus! {

/// Magic of the TTHeader envelope, stored in wire bytes five and six.
pub const TT_HEADER_MAGIC: u16 = 0x1000;

/// Longest header string a peer may declare.
pub const MAX_HEADER_STRING_LENGTH: usize = 4096;

/// Most string key-value pairs a peer may declare in one block.
pub const MAX_NUM_HEADERS: usize = 1024;

/// Bytes of the fixed envelope prefix: length, magic, flags, sequence id,
/// header size.
pub const MIN_HEADER_LENGTH: usize = 14;

/// Info-block tag: one byte of padding.
pub const INFO_PADDING: u8 = 0x00;

/// Info-block tag: counted string key-value pairs.
pub const INFO_KEY_VALUE: u8 = 0x01;

/// Info-block tag: counted integer-keyed values.
pub const INFO_INT_KEY_VALUE: u8 = 0x10;

/// Info-block tag: a single ACL token string.
pub const ACL_TOKEN_KEY_VALUE: u8 = 0x11;

/// Number of dense slots for the known integer metadata keys.
pub const INDEX_TABLE_SIZE: usize = 27;

/// String metadata of a header: an insertion-ordered association list
/// with unique keys.
pub type HeaderMap = Vec<(Vec<u8>, Vec<u8>)>;

/// Payload protocol carried behind the envelope.
#[derive(Clone, Copy, Debug, PartialEq, Eq, Structural)]
pub enum ProtocolId {
    Binary,
    Compact,
    CompactV2,
    Protobuf,
}

impl ProtocolId {
    /// The wire value of this protocol id: Binary=0, Compact=2,
    /// CompactV2=3, Protobuf=4.
    pub open spec fn spec_value(self) -> u8 {
        match self {
            ProtocolId::Binary => 0,
            ProtocolId::Compact => 2,
            ProtocolId::CompactV2 => 3,
            ProtocolId::Protobuf => 4,
        }
    }

    /// True when `b` is the wire value of some protocol id.
    pub open spec fn spec_valid_value(b: u8) -> bool {
        b == 0 || b == 2 || b == 3 || b == 4
    }

    /// The protocol id whose wire value is `b`; meaningful only when
    /// `spec_valid_value(b)` holds.
    pub open spec fn spec_from_u8(b: u8) -> ProtocolId
        recommends
            ProtocolId::spec_valid_value(b),
    {
        if b == 0 {
            ProtocolId::Binary
        } else if b == 2 {
            ProtocolId::Compact
        } else if b == 3 {
            ProtocolId::CompactV2
        } else {
            ProtocolId::Protobuf
        }
    }

    /// Convert this protocol id to its wire byte.
    pub fn as_u8(self) -> (r: u8)
        ensures
            r == self.spec_value(),
    {
        match self {
            ProtocolId::Binary => 0,
            ProtocolId::Compact => 2,
            ProtocolId::CompactV2 => 3,
            ProtocolId::Protobuf => 4,
        }
    }

    /// Parse a wire byte into a protocol id.
    pub fn try_from(value: u8) -> (r: Result<ProtocolId, CodecError>)
        ensures
            ProtocolId::spec_valid_value(value) ==> (r matches Ok(p) && p
                == ProtocolId::spec_from_u8(value)),
            !ProtocolId::spec_valid_value(value) ==> (r matches Err(e) && e.kind
                == CodecErrorKind::InvalidData),
    {
        match value {
            0 => Ok(ProtocolId::Binary),
            2 => Ok(ProtocolId::Compact),
            3 => Ok(ProtocolId::CompactV2),
            4 => Ok(ProtocolId::Protobuf),
            _ => Err(CodecError::new(CodecErrorKind::InvalidData, "invalid protocol id")),
        }
    }
}

impl Default for ProtocolId {
    /// The default payload protocol is Binary.
    fn default() -> (r: Self)
        ensures
            r == ProtocolId::Binary,
    {
        ProtocolId::Binary
    }
}

/// The integer metadata keys known at build time; keys below
/// [`INDEX_TABLE_SIZE`] live in the dense slot table.
#[derive(PartialEq, Eq, Hash, Clone, Copy, Debug, Structural)]
pub enum IntMetaKey {
    TransportType,
    LogId,
    FromService,
    FromCluster,
    FromIdc,
    ToService,
    ToMethod,
    ToCluster,
    ToIdc,
    Env,
    DestAddress,
    RPCTimeoutMs,
    RingHashKey,
    WithHeader,
    ConnTimeoutMs,
    TraceSpanCtx,
    ShortConnection,
    FromMethod,
    StressTag,
    MsgType,
    ConnectionRecycle,
    RawRingHashKey,
    LBType,
    ClusterShardId,
}

impl IntMetaKey {
    /// The wire value of this key.
    pub open spec fn spec_value(self) -> u16 {
        match self {
            IntMetaKey::TransportType => 1,
            IntMetaKey::LogId => 2,
            IntMetaKey::FromService => 3,
            IntMetaKey::FromCluster => 4,
            IntMetaKey::FromIdc => 5,
            IntMetaKey::ToService => 6,
            IntMetaKey::ToCluster => 7,
            IntMetaKey::ToIdc => 8,
            IntMetaKey::ToMethod => 9,
            IntMetaKey::Env => 10,
            IntMetaKey::DestAddress => 11,
            IntMetaKey::RPCTimeoutMs => 12,
            IntMetaKey::RingHashKey => 14,
            IntMetaKey::WithHeader => 16,
            IntMetaKey::ConnTimeoutMs => 17,
            IntMetaKey::TraceSpanCtx => 18,
            IntMetaKey::ShortConnection => 19,
            IntMetaKey::FromMethod => 20,
            IntMetaKey::StressTag => 21,
            IntMetaKey::MsgType => 22,
            IntMetaKey::ConnectionRecycle => 23,
            IntMetaKey::RawRingHashKey => 24,
            IntMetaKey::LBType => 25,
            IntMetaKey::ClusterShardId => 26,
        }
    }

    /// Convert this key to its wire value; every known key indexes the
    /// dense slot table.
    pub fn as_u16(self) -> (r: u16)
        ensures
            r == self.spec_value(),
            r < INDEX_TABLE_SIZE as u16,
    {
        match self {
            IntMetaKey::TransportType => 1,
            IntMetaKey::LogId => 2,
            IntMetaKey::FromService => 3,
            IntMetaKey::FromCluster => 4,
            IntMetaKey::FromIdc => 5,
            IntMetaKey::ToService => 6,
            IntMetaKey::ToCluster => 7,
            IntMetaKey::ToIdc => 8,
            IntMetaKey::ToMethod => 9,
            IntMetaKey::Env => 10,
            IntMetaKey::DestAddress => 11,
            IntMetaKey::RPCTimeoutMs => 12,
            IntMetaKey::RingHashKey => 14,
            IntMetaKey::WithHeader => 16,
            IntMetaKey::ConnTimeoutMs => 17,
            IntMetaKey::TraceSpanCtx => 18,
            IntMetaKey::ShortConnection => 19,
            IntMetaKey::FromMethod => 20,
            IntMetaKey::StressTag => 21,
            IntMetaKey::MsgType => 22,
            IntMetaKey::ConnectionRecycle => 23,
            IntMetaKey::RawRingHashKey => 24,
            IntMetaKey::LBType => 25,
            IntMetaKey::ClusterShardId => 26,
        }
    }
}

/// View of a decoded or to-be-encoded TTHeader: all metadata as plain byte
/// sequences.
pub ghost struct TTHeaderView {
    pub header_length: u32,
    pub payload_length: u32,
    pub seq_id: i32,
    pub flags: u16,
    pub protocol_id: ProtocolId,
    pub int_headers: Seq<Option<Seq<u8>>>,
    pub int_headers_ext: Seq<(u16, Seq<u8>)>,
    pub str_headers: Seq<(Seq<u8>, Seq<u8>)>,
    pub acl_token: Option<Seq<u8>>,
}

/// A decoded TTHeader envelope.  Integer-keyed metadata for the known keys
/// sits in a dense slot table indexed by key; other integer keys spill
/// into a side list; string metadata is an insertion-ordered list with
/// unique keys.
#[derive(Clone, Debug)]
pub struct TTHeader {
    pub header_length: u32,
    pub payload_length: u32,
    pub seq_id: i32,
    pub flags: u16,
    pub protocol_id: ProtocolId,
    /// Values for integer keys below [`INDEX_TABLE_SIZE`], slot per key.
    pub int_headers: Vec<Option<Vec<u8>>>,
    /// Values for integer keys at or above [`INDEX_TABLE_SIZE`].
    pub int_headers_ext: Vec<(u16, Vec<u8>)>,
    /// String key-value metadata; a later insert for the same key replaces
    /// the earlier value.
    pub str_headers: HeaderMap,
    /// ACL token, when the peer sent one.
    pub acl_token: Option<Vec<u8>>,
}


/// View of the dense integer slot table.
pub open spec fn int_table_view(s: Seq<Option<Vec<u8>>>) -> Seq<Option<Seq<u8>>> {
    s.map_values(
        |o: Option<Vec<u8>>|
            match o {
                Some(v) => Some(v@),
                None => None,
            },
    )
}

/// View of the spill list for large integer keys.
pub open spec fn ext_view(s: Seq<(u16, Vec<u8>)>) -> Seq<(u16, Seq<u8>)> {
    s.map_values(|p: (u16, Vec<u8>)| (p.0, p.1@))
}

/// View of the string key-value list.
pub open spec fn kvs_view(s: Seq<(Vec<u8>, Vec<u8>)>) -> Seq<(Seq<u8>, Seq<u8>)> {
    s.map_values(|p: (Vec<u8>, Vec<u8>)| (p.0@, p.1@))
}

impl View for TTHeader {
    type V = TTHeaderView;

    open spec fn view(&self) -> TTHeaderView {
        TTHeaderView {
            header_length: self.header_length,
            payload_length: self.payload_length,
            seq_id: self.seq_id,
            flags: self.flags,
            protocol_id: self.protocol_id,
            int_headers: int_table_view(self.int_headers@),
            int_headers_ext: ext_view(self.int_headers_ext@),
            str_headers: kvs_view(self.str_headers@),
            acl_token: match self.acl_token {
                Some(v) => Some(v@),
                None => None,
            },
        }
    }
}

/// The view of a header with empty metadata and the given fixed fields.
pub open spec fn spec_empty_header(
    header_length: u32,
    payload_length: u32,
    seq_id: i32,
    flags: u16,
    protocol_id: ProtocolId,
) -> TTHeaderView {
    TTHeaderView {
        header_length,
        payload_length,
        seq_id,
        flags,
        protocol_id,
        int_headers: Seq::new(INDEX_TABLE_SIZE as nat, |i: int| None),
        int_headers_ext: Seq::empty(),
        str_headers: Seq::empty(),
        acl_token: None,
    }
}

/// A dense slot table with every slot empty.
fn empty_int_table() -> (r: Vec<Option<Vec<u8>>>)
    ensures
        int_table_view(r@) == Seq::new(INDEX_TABLE_SIZE as nat, |i: int| None::<Seq<u8>>),
        r@.len() == INDEX_TABLE_SIZE,
{
    let mut r: Vec<Option<Vec<u8>>> = Vec::new();
    let mut i: usize = 0;
    while i < INDEX_TABLE_SIZE
        invariant
            i <= INDEX_TABLE_SIZE,
            r@.len() == i,
            forall|j: int| 0 <= j < i ==> r@[j] is None,
        decreases INDEX_TABLE_SIZE - i,
    {
        r.push(None);
        i = i + 1;
    }
    proof {
        assert(int_table_view(r@) =~= Seq::new(INDEX_TABLE_SIZE as nat, |i: int| None::<Seq<u8>>));
    }
    r
}

impl TTHeader {
    /// An empty header for the decoder to fill, or for a caller that sets
    /// its fields one by one.
    pub fn new() -> (r: Self)
        ensures
            r@ == spec_empty_header(0, 0, 0, 0, ProtocolId::Binary),
    {
        let r = TTHeader {
            header_length: 0,
            payload_length: 0,
            seq_id: 0,
            flags: 0,
            protocol_id: ProtocolId::Binary,
            int_headers: empty_int_table(),
            int_headers_ext: Vec::new(),
            str_headers: Vec::new(),
            acl_token: None,
        };
        proof {
            assert(ext_view(r.int_headers_ext@) =~= Seq::<(u16, Seq<u8>)>::empty());
            assert(kvs_view(r.str_headers@) =~= Seq::<(Seq<u8>, Seq<u8>)>::empty());
        }
        r
    }

    /// An empty header whose length field anticipates a payload of the
    /// given size.
    pub fn new_for_encode(payload_length_hint: u32) -> (r: Self)
        ensures
            r@ == spec_empty_header(0, payload_length_hint, 0, 0, ProtocolId::Binary),
    {
        let mut r = TTHeader::new();
        r.payload_length = payload_length_hint;
        r
    }

    /// Store a value for one of the known integer metadata keys.
    pub fn set_int_header(&mut self, key: IntMetaKey, value: Vec<u8>)
        requires
            old(self)@.int_headers.len() == INDEX_TABLE_SIZE,
        ensures
            final(self)@ == (TTHeaderView {
                int_headers: old(self)@.int_headers.update(
                    key.spec_value() as int,
                    Some(value@),
                ),
                ..old(self)@
            }),
    {
        let idx = key.as_u16() as usize;
        self.int_headers.set(idx, Some(value));
        proof {
            assert(int_table_view(self.int_headers@) =~= old(self)@.int_headers.update(
                key.spec_value() as int,
                Some(value@),
            ));
        }
    }

    /// Look up the value stored under a string key.
    pub fn get_str_header(&self, key: &Vec<u8>) -> (r: Option<&Vec<u8>>)
        ensures
            (match r {
                Some(v) => spec_kv_lookup(self@.str_headers, key@) == Some(v@),
                None => spec_kv_lookup(self@.str_headers, key@) is None,
            }),
    {
        proof {
            assert(self@.str_headers.skip(0) =~= self@.str_headers);
        }
        let n = self.str_headers.len();
        let mut i: usize = 0;
        while i < n
            invariant
                i <= n,
                n == self.str_headers@.len(),
                spec_kv_lookup(self@.str_headers, key@) == spec_kv_lookup(
                    self@.str_headers.skip(i as int),
                    key@,
                ),
            decreases n - i,
        {
            proof {
                assert(self@.str_headers.skip(i as int)[0] == self@.str_headers[i as int]);
                assert(self@.str_headers.skip(i as int).drop_first() =~= self@.str_headers.skip(
                    i as int + 1,
                ));
                assert(self@.str_headers[i as int].0 == self.str_headers@[i as int].0@);
            }
            let hit = vec_u8_eq(&self.str_headers[i].0, key);
            if hit {
                return Some(&self.str_headers[i].1);
            }
            i = i + 1;
        }
        proof {
            assert(self@.str_headers.skip(n as int) =~= Seq::<(Seq<u8>, Seq<u8>)>::empty());
        }
        None
    }

    /// Look up the value stored for one of the known integer keys.
    pub fn get_int_header(&self, key: IntMetaKey) -> (r: Option<&Vec<u8>>)
        requires
            self@.int_headers.len() == INDEX_TABLE_SIZE,
        ensures
            (match r {
                Some(v) => self@.int_headers[key.spec_value() as int] == Some(v@),
                None => self@.int_headers[key.spec_value() as int] is None,
            }),
    {
        let idx = key.as_u16() as usize;
        match &self.int_headers[idx] {
            Some(v) => Some(v),
            None => None,
        }
    }
}

impl Default for TTHeader {
    /// Same as [`TTHeader::new`].
    fn default() -> (r: Self)
        ensures
            r@ == spec_empty_header(0, 0, 0, 0, ProtocolId::Binary),
    {
        TTHeader::new()
    }
}

/// Distance from `i` up to `end`, zero once past it: the termination
/// measure of the header parser.
pub open spec fn bounded_gap(i: int, end: int) -> nat {
    if i <= end {
        (end - i) as nat
    } else {
        0
    }
}

/// One length-prefixed header string at `i`, bounded by `end` and by the
/// string cap: its end position and its bytes.
pub open spec fn spec_read_str(b: Seq<u8>, i: int, end: int) -> Option<(int, Seq<u8>)> {
    if 0 <= i && i + 2 <= end {
        let l = spec_u16_at(b, i) as int;
        if l <= MAX_HEADER_STRING_LENGTH && i + 2 + l <= end {
            Some((i + 2 + l, b.subrange(i + 2, i + 2 + l)))
        } else {
            None
        }
    } else {
        None
    }
}

/// Insert into an association list: replace the first pairing of the key
/// in place, or append a fresh one.
pub open spec fn spec_kv_insert(s: Seq<(Seq<u8>, Seq<u8>)>, k: Seq<u8>, v: Seq<u8>) -> Seq<
    (Seq<u8>, Seq<u8>),
>
    decreases s.len(),
{
    if s.len() == 0 {
        seq![(k, v)]
    } else if s[0].0 == k {
        seq![(k, v)] + s.drop_first()
    } else {
        seq![s[0]] + spec_kv_insert(s.drop_first(), k, v)
    }
}

/// Parse `cnt` string key-value pairs starting at `i`, folding them into
/// `acc`: the position after the pairs and the grown header.
pub open spec fn spec_parse_str_kvs(
    b: Seq<u8>,
    i: int,
    end: int,
    cnt: nat,
    acc: TTHeaderView,
) -> Option<(int, TTHeaderView)>
    decreases bounded_gap(i, end), 0nat, cnt,
{
    if cnt == 0 {
        Some((i, acc))
    } else {
        match spec_read_str(b, i, end) {
            Some((j1, k)) => match spec_read_str(b, j1, end) {
                Some((j2, v)) => {
                    let acc2 = TTHeaderView {
                        str_headers: spec_kv_insert(acc.str_headers, k, v),
                        ..acc
                    };
                    spec_parse_str_kvs(
                        b,
                        if j2 > i {
                            j2
                        } else {
                            i + 1
                        },
                        end,
                        (cnt - 1) as nat,
                        acc2,
                    )
                },
                None => None,
            },
            None => None,
        }
    }
}

/// Parse `cnt` integer-keyed values starting at `i`: known keys fill their
/// dense slot, larger keys append to the spill list.
pub open spec fn spec_parse_int_kvs(
    b: Seq<u8>,
    i: int,
    end: int,
    cnt: nat,
    acc: TTHeaderView,
) -> Option<(int, TTHeaderView)>
    decreases bounded_gap(i, end), 0nat, cnt,
{
    if cnt == 0 {
        Some((i, acc))
    } else if 0 <= i && i + 2 <= end {
        let key = spec_u16_at(b, i);
        match spec_read_str(b, i + 2, end) {
            Some((j, v)) => {
                let acc2 = if (key as int) < INDEX_TABLE_SIZE {
                    TTHeaderView { int_headers: acc.int_headers.update(key as int, Some(v)), ..acc }
                } else {
                    TTHeaderView { int_headers_ext: acc.int_headers_ext.push((key, v)), ..acc }
                };
                spec_parse_int_kvs(
                    b,
                    if j > i {
                        j
                    } else {
                        i + 1
                    },
                    end,
                    (cnt - 1) as nat,
                    acc2,
                )
            },
            None => None,
        }
    } else {
        None
    }
}

/// Parse the info blocks of the header area `[i, end)`: padding bytes,
/// string key-value blocks (capped), integer key-value blocks, and ACL
/// tokens; any other tag is malformed.
pub open spec fn spec_parse_info(b: Seq<u8>, i: int, end: int, acc: TTHeaderView) -> Option<
    TTHeaderView,
>
    decreases bounded_gap(i, end), 1nat, 0nat,
{
    if i < 0 {
        None
    } else if i >= end {
        Some(acc)
    } else {
        let info_id = b[i];
        if info_id == INFO_PADDING {
            spec_parse_info(b, i + 1, end, acc)
        } else if info_id == INFO_KEY_VALUE {
            if i + 3 <= end {
                let cnt = spec_u16_at(b, i + 1);
                if cnt as int > MAX_NUM_HEADERS {
                    None
                } else {
                    match spec_parse_str_kvs(b, i + 3, end, cnt as nat, acc) {
                        Some((j, acc2)) => spec_parse_info(
                            b,
                            if j > i {
                                j
                            } else {
                                i + 1
                            },
                            end,
                            acc2,
                        ),
                        None => None,
                    }
                }
            } else {
                None
            }
        } else if info_id == INFO_INT_KEY_VALUE {
            if i + 3 <= end {
                let cnt = spec_u16_at(b, i + 1);
                match spec_parse_int_kvs(b, i + 3, end, cnt as nat, acc) {
                    Some((j, acc2)) => spec_parse_info(
                        b,
                        if j > i {
                            j
                        } else {
                            i + 1
                        },
                        end,
                        acc2,
                    ),
                    None => None,
                }
            } else {
                None
            }
        } else if info_id == ACL_TOKEN_KEY_VALUE {
            match spec_read_str(b, i + 1, end) {
                Some((j, s)) => spec_parse_info(
                    b,
                    if j > i {
                        j
                    } else {
                        i + 1
                    },
                    end,
                    (TTHeaderView { acl_token: Some(s), ..acc }),
                ),
                None => None,
            }
        } else {
            None
        }
    }
}

/// Decode the envelope fields and header area that follow the length word:
/// magic (already checked by the caller), flags, sequence id, header size
/// in 4-byte units, then the header area of protocol id, transform count,
/// and info blocks.  Yields the header and the position just past the
/// header area.  A header size of zero, a header area beyond the buffer,
/// or a total length smaller than the envelope is malformed.
pub open spec fn spec_decode_header(total_length: u32, b: Seq<u8>, p: int) -> Option<
    (TTHeaderView, int),
> {
    if 0 <= p && p + 10 <= b.len() {
        let flags = spec_u16_at(b, p + 2);
        let seq_id = spec_i32_at(b, p + 4);
        let hsize = spec_u16_at(b, p + 8) as int;
        let hlen = hsize * 4;
        if hsize >= 1 && p + 10 + hlen <= b.len() && hlen + 10 <= total_length {
            let pid = if ProtocolId::spec_valid_value(b[p + 10]) {
                ProtocolId::spec_from_u8(b[p + 10])
            } else {
                ProtocolId::Binary
            };
            let acc0 = spec_empty_header(
                hlen as u32,
                (total_length - hlen - 10) as u32,
                seq_id,
                flags,
                pid,
            );
            match spec_parse_info(b, p + 12, p + 10 + hlen, acc0) {
                Some(h) => Some((h, p + 10 + hlen)),
                None => None,
            }
        } else {
            None
        }
    } else {
        None
    }
}

/// Byte-for-byte equality of two owned byte strings.
fn vec_u8_eq(a: &Vec<u8>, b: &Vec<u8>) -> (r: bool)
    ensures
        r == (a@ == b@),
{
    let n = a.len();
    if n != b.len() {
        proof {
            if a@ == b@ {
                assert(a@.len() == b@.len());
            }
        }
        return false;
    }
    let mut i: usize = 0;
    while i < n
        invariant
            i <= n,
            n == a@.len(),
            n == b@.len(),
            forall|j: int| 0 <= j < i ==> a@[j] == b@[j],
        decreases n - i,
    {
        if a[i] != b[i] {
            proof {
                if a@ == b@ {
                    assert(a@[i as int] == b@[i as int]);
                }
            }
            return false;
        }
        i = i + 1;
    }
    proof {
        assert(a@ =~= b@);
    }
    true
}

/// Read one length-prefixed header string at `i`, staying inside `end` and
/// under the string cap.
fn read_header_str(b: &Vec<u8>, i: usize, end: usize) -> (r: Result<(usize, Vec<u8>), CodecError>)
    requires
        end <= b@.len(),
    ensures
        (match spec_read_str(b@, i as int, end as int) {
            Some((j, s)) => r matches Ok(p) && p.0 == j && p.1@ == s && i + 2 <= j <= end,
            None => r matches Err(e) && e.kind == CodecErrorKind::InvalidData,
        }),
{
    if i > end || end - i < 2 {
        return Err(CodecError::new(CodecErrorKind::InvalidData, "invalid data"));
    }
    let l = crate::wire::read_u16_at(b, i) as usize;
    if l > MAX_HEADER_STRING_LENGTH || end - (i + 2) < l {
        return Err(CodecError::new(CodecErrorKind::InvalidData, "invalid data"));
    }
    let s = crate::wire::copy_range(b, i + 2, l);
    Ok((i + 2 + l, s))
}

/// Replacing the first pairing of a key is an in-place update at its
/// index.
proof fn lemma_kv_insert_found(s: Seq<(Seq<u8>, Seq<u8>)>, k: Seq<u8>, v: Seq<u8>, i: int)
    requires
        0 <= i < s.len(),
        s[i].0 == k,
        forall|j: int| 0 <= j < i ==> s[j].0 != k,
    ensures
        spec_kv_insert(s, k, v) == s.update(i, (k, v)),
    decreases i,
{
    if i == 0 {
        assert(spec_kv_insert(s, k, v) =~= s.update(0, (k, v)));
    } else {
        assert(s[0].0 != k);
        lemma_kv_insert_found(s.drop_first(), k, v, i - 1);
        assert(spec_kv_insert(s, k, v) =~= s.update(i, (k, v)));
    }
}

/// Inserting an absent key appends the pair.
proof fn lemma_kv_insert_missing(s: Seq<(Seq<u8>, Seq<u8>)>, k: Seq<u8>, v: Seq<u8>)
    requires
        forall|j: int| 0 <= j < s.len() ==> s[j].0 != k,
    ensures
        spec_kv_insert(s, k, v) == s.push((k, v)),
    decreases s.len(),
{
    if s.len() == 0 {
        assert(spec_kv_insert(s, k, v) =~= s.push((k, v)));
    } else {
        lemma_kv_insert_missing(s.drop_first(), k, v);
        assert(spec_kv_insert(s, k, v) =~= s.push((k, v)));
    }
}

/// Insert a string header pair, replacing an existing pairing of the key.
fn kv_insert(s: &mut Vec<(Vec<u8>, Vec<u8>)>, k: Vec<u8>, v: Vec<u8>)
    ensures
        kvs_view(final(s)@) == spec_kv_insert(kvs_view(old(s)@), k@, v@),
{
    let n = s.len();
    let mut i: usize = 0;
    while i < n
        invariant
            i <= n,
            n == s@.len(),
            s@ == old(s)@,
            forall|j: int| 0 <= j < i ==> kvs_view(s@)[j].0 != k@,
        decreases n - i,
    {
        let hit = vec_u8_eq(&s[i].0, &k);
        if hit {
            proof {
                assert(kvs_view(s@)[i as int].0 == k@);
                lemma_kv_insert_found(kvs_view(s@), k@, v@, i as int);
            }
            s.set(i, (k, v));
            proof {
                assert(kvs_view(s@) =~= kvs_view(old(s)@).update(i as int, (k@, v@)));
            }
            return;
        }
        proof {
            assert(kvs_view(s@)[i as int].0 == s@[i as int].0@);
        }
        i = i + 1;
    }
    proof {
        lemma_kv_insert_missing(kvs_view(s@), k@, v@);
    }
    s.push((k, v));
    proof {
        assert(kvs_view(s@) =~= kvs_view(old(s)@).push((k@, v@)));
    }
}

/// Parse `cnt` string key-value pairs at `i`, inserting each into the
/// header's string metadata.
fn parse_str_kvs(b: &Vec<u8>, i: usize, end: usize, cnt: u16, hdr: &mut TTHeader) -> (r: Result<
    usize,
    CodecError,
>)
    requires
        end <= b@.len(),
        i <= end,
    ensures
        (match spec_parse_str_kvs(b@, i as int, end as int, cnt as nat, old(hdr)@) {
            Some((j, h)) => r matches Ok(rj) && rj == j && final(hdr)@ == h && i <= j <= end,
            None => r matches Err(e) && e.kind == CodecErrorKind::InvalidData,
        }),
        final(hdr)@.int_headers.len() == old(hdr)@.int_headers.len(),
{
    let ghost target = spec_parse_str_kvs(b@, i as int, end as int, cnt as nat, old(hdr)@);
    let mut pos = i;
    let mut c = cnt;
    while c > 0
        invariant
            i <= pos <= end,
            end <= b@.len(),
            target == spec_parse_str_kvs(b@, i as int, end as int, cnt as nat, old(hdr)@),
            spec_parse_str_kvs(b@, pos as int, end as int, c as nat, hdr@) == target,
            hdr@.int_headers.len() == old(hdr)@.int_headers.len(),
        decreases c,
    {
        let ghost acc_prev = hdr@;
        let (j1, k) = match read_header_str(b, pos, end) {
            Ok(p) => p,
            Err(e) => {
                return Err(e);
            },
        };
        let ghost kk = k@;
        let (j2, v) = match read_header_str(b, j1, end) {
            Ok(p) => p,
            Err(e) => {
                return Err(e);
            },
        };
        let ghost vv = v@;
        kv_insert(&mut hdr.str_headers, k, v);
        proof {
            assert(hdr@ == (TTHeaderView {
                str_headers: spec_kv_insert(acc_prev.str_headers, kk, vv),
                ..acc_prev
            }));
        }
        pos = j2;
        c = c - 1;
    }
    Ok(pos)
}

/// Parse `cnt` integer-keyed values at `i`: known keys fill their dense
/// slot, larger keys spill.
fn parse_int_kvs(b: &Vec<u8>, i: usize, end: usize, cnt: u16, hdr: &mut TTHeader) -> (r: Result<
    usize,
    CodecError,
>)
    requires
        end <= b@.len(),
        i <= end,
        old(hdr)@.int_headers.len() == INDEX_TABLE_SIZE,
    ensures
        (match spec_parse_int_kvs(b@, i as int, end as int, cnt as nat, old(hdr)@) {
            Some((j, h)) => r matches Ok(rj) && rj == j && final(hdr)@ == h && i <= j <= end,
            None => r matches Err(e) && e.kind == CodecErrorKind::InvalidData,
        }),
        final(hdr)@.int_headers.len() == INDEX_TABLE_SIZE,
{
    let ghost target = spec_parse_int_kvs(b@, i as int, end as int, cnt as nat, old(hdr)@);
    let mut pos = i;
    let mut c = cnt;
    while c > 0
        invariant
            i <= pos <= end,
            end <= b@.len(),
            target == spec_parse_int_kvs(b@, i as int, end as int, cnt as nat, old(hdr)@),
            spec_parse_int_kvs(b@, pos as int, end as int, c as nat, hdr@) == target,
            hdr@.int_headers.len() == INDEX_TABLE_SIZE,
        decreases c,
    {
        let ghost acc_prev = hdr@;
        if end - pos < 2 {
            return Err(CodecError::new(CodecErrorKind::InvalidData, "invalid data"));
        }
        let key = crate::wire::read_u16_at(b, pos);
        let (j, v) = match read_header_str(b, pos + 2, end) {
            Ok(p) => p,
            Err(e) => {
                return Err(e);
            },
        };
        let ghost vv = v@;
        if (key as usize) < INDEX_TABLE_SIZE {
            proof {
                assert(hdr.int_headers@.len() == INDEX_TABLE_SIZE);
            }
            hdr.int_headers.set(key as usize, Some(v));
            proof {
                assert(int_table_view(hdr.int_headers@) =~= acc_prev.int_headers.update(
                    key as int,
                    Some(vv),
                ));
                assert(hdr@ == (TTHeaderView {
                    int_headers: acc_prev.int_headers.update(key as int, Some(vv)),
                    ..acc_prev
                }));
            }
        } else {
            hdr.int_headers_ext.push((key, v));
            proof {
                assert(ext_view(hdr.int_headers_ext@) =~= acc_prev.int_headers_ext.push((key, vv)));
                assert(hdr@ == (TTHeaderView {
                    int_headers_ext: acc_prev.int_headers_ext.push((key, vv)),
                    ..acc_prev
                }));
            }
        }
        pos = j;
        c = c - 1;
    }
    Ok(pos)
}

/// Walk the info blocks of the header area `[i, end)`, filling the header.
fn parse_info(b: &Vec<u8>, i: usize, end: usize, hdr: &mut TTHeader) -> (r: Result<(), CodecError>)
    requires
        end <= b@.len(),
        i <= end,
        old(hdr)@.int_headers.len() == INDEX_TABLE_SIZE,
    ensures
        (match spec_parse_info(b@, i as int, end as int, old(hdr)@) {
            Some(h) => r is Ok && final(hdr)@ == h,
            None => r matches Err(e) && e.kind == CodecErrorKind::InvalidData,
        }),
{
    let ghost target = spec_parse_info(b@, i as int, end as int, old(hdr)@);
    let mut pos = i;
    while pos < end
        invariant
            i <= pos <= end,
            end <= b@.len(),
            target == spec_parse_info(b@, i as int, end as int, old(hdr)@),
            spec_parse_info(b@, pos as int, end as int, hdr@) == target,
            hdr@.int_headers.len() == INDEX_TABLE_SIZE,
        decreases end - pos,
    {
        let info_id = b[pos];
        if info_id == INFO_PADDING {
            pos = pos + 1;
        } else if info_id == INFO_KEY_VALUE {
            if end - pos < 3 {
                return Err(CodecError::new(CodecErrorKind::InvalidData, "invalid data"));
            }
            let cnt = crate::wire::read_u16_at(b, pos + 1);
            if cnt as usize > MAX_NUM_HEADERS {
                return Err(CodecError::new(CodecErrorKind::InvalidData, "too many headers"));
            }
            let j = match parse_str_kvs(b, pos + 3, end, cnt, hdr) {
                Ok(j) => j,
                Err(e) => {
                    return Err(e);
                },
            };
            pos = j;
        } else if info_id == INFO_INT_KEY_VALUE {
            if end - pos < 3 {
                return Err(CodecError::new(CodecErrorKind::InvalidData, "invalid data"));
            }
            let cnt = crate::wire::read_u16_at(b, pos + 1);
            let j = match parse_int_kvs(b, pos + 3, end, cnt, hdr) {
                Ok(j) => j,
                Err(e) => {
                    return Err(e);
                },
            };
            pos = j;
        } else if info_id == ACL_TOKEN_KEY_VALUE {
            let ghost acc_prev = hdr@;
            let (j, s) = match read_header_str(b, pos + 1, end) {
                Ok(p) => p,
                Err(e) => {
                    return Err(e);
                },
            };
            let ghost ss = s@;
            hdr.acl_token = Some(s);
            proof {
                assert(hdr@ == (TTHeaderView { acl_token: Some(ss), ..acc_prev }));
            }
            pos = j;
        } else {
            return Err(
                CodecError::new(CodecErrorKind::InvalidData, "unexpected info id in ttheader"),
            );
        }
    }
    Ok(())
}

impl TTHeader {
    /// Decode everything that follows the length word of a TTHeader frame:
    /// flags, sequence id, header size, then the header area with its info
    /// blocks.  `p` is the position of the magic bytes; on success the
    /// header and the position just past the header area come back.
    pub fn decode_header(total_length: u32, src: &Vec<u8>, p: usize) -> (r: Result<
        (TTHeader, usize),
        CodecError,
    >)
        ensures
            (match spec_decode_header(total_length, src@, p as int) {
                Some((h, e)) => r matches Ok(pr) && pr.0@ == h && pr.1 == e && p < e <= src@.len(),
                None => r matches Err(er) && er.kind == CodecErrorKind::InvalidData,
            }),
    {
        let n = src.len();
        if p > n || n - p < 10 {
            return Err(CodecError::new(CodecErrorKind::InvalidData, "invalid data"));
        }
        let flags = crate::wire::read_u16_at(src, p + 2);
        let seq_id = crate::wire::read_i32_at(src, p + 4);
        let hsize = crate::wire::read_u16_at(src, p + 8) as usize;
        let hlen = hsize * 4;
        if hsize < 1 {
            return Err(CodecError::new(CodecErrorKind::InvalidData, "invalid header length"));
        }
        if n - (p + 10) < hlen {
            return Err(CodecError::new(CodecErrorKind::InvalidData, "invalid header length"));
        }
        if (total_length as u64) < (hlen as u64) + 10 {
            return Err(CodecError::new(CodecErrorKind::InvalidData, "invalid header length"));
        }
        let pid = match ProtocolId::try_from(src[p + 10]) {
            Ok(pid) => pid,
            Err(_) => ProtocolId::Binary,
        };
        let mut hdr = TTHeader::new();
        hdr.flags = flags;
        hdr.seq_id = seq_id;
        hdr.header_length = hlen as u32;
        hdr.payload_length = total_length - (hlen as u32) - 10;
        hdr.protocol_id = pid;
        proof {
            assert(hdr@ == spec_empty_header(
                hlen as u32,
                (total_length - hlen - 10) as u32,
                seq_id,
                flags,
                pid,
            ));
        }
        match parse_info(src, p + 12, p + 10 + hlen, &mut hdr) {
            Ok(_) => Ok((hdr, p + 10 + hlen)),
            Err(e) => Err(e),
        }
    }
}

/// Decoder for a bare TTHeader envelope: it consumes the length word and
/// the header, leaving the payload bytes in place for the caller.
pub struct TTHeaderDecoder;

impl TTHeaderDecoder {
    /// The decoder is stateless.
    pub fn new() -> (r: Self)
        ensures
            true,
    {
        TTHeaderDecoder
    }
}

impl PayloadDecoder for TTHeaderDecoder {
    type Item = TTHeader;

    /// The first six bytes (length and magic) gate the frame; the header
    /// area must be buffered in full before the header is decoded.
    open spec fn decode_spec(&self, src: Seq<u8>) -> DecodedView<TTHeaderView> {
        if src.len() < MIN_HEADER_LENGTH {
            DecodedView::InsufficientAtLeast(MIN_HEADER_LENGTH as int)
        } else if !(src[4] == 0x10 && src[5] == 0x00) {
            DecodedView::Malformed
        } else {
            let hlen = spec_u16_at(src, 12) * 4;
            if src.len() < hlen + MIN_HEADER_LENGTH {
                DecodedView::InsufficientAtLeast(hlen + MIN_HEADER_LENGTH)
            } else {
                match spec_decode_header(spec_u32_at(src, 0), src, 4) {
                    Some((h, _)) => DecodedView::Complete(h),
                    None => DecodedView::Malformed,
                }
            }
        }
    }

    fn decode(&self, src: &Vec<u8>) -> (r: Result<Decoded<TTHeader>, CodecError>) {
        let n = src.len();
        if n < MIN_HEADER_LENGTH {
            return Ok(Decoded::InsufficientAtLeast(MIN_HEADER_LENGTH));
        }
        if !(src[4] == 0x10 && src[5] == 0x00) {
            return Err(CodecError::new(CodecErrorKind::InvalidData, "illegal ttheader"));
        }
        let hlen = (crate::wire::read_u16_at(src, 12) as usize) * 4;
        if n < hlen + MIN_HEADER_LENGTH {
            return Ok(Decoded::InsufficientAtLeast(hlen + MIN_HEADER_LENGTH));
        }
        let total_length = crate::wire::read_u32_at(src, 0);
        match TTHeader::decode_header(total_length, src, 4) {
            Ok((hdr, _)) => Ok(Decoded::Complete(hdr)),
            Err(e) => Err(e),
        }
    }
}

/// A TTHeader frame paired with its decoded payload.
#[derive(Clone, Debug)]
pub struct TTHeaderPayload<T> {
    pub ttheader: TTHeader,
    pub payload: Option<T>,
}

/// View of a frame-and-payload pair.
pub ghost struct TTHeaderPayloadView<V> {
    pub ttheader: TTHeaderView,
    pub payload: Option<V>,
}

impl<T: View> View for TTHeaderPayload<T> {
    type V = TTHeaderPayloadView<<T as View>::V>;

    open spec fn view(&self) -> TTHeaderPayloadView<<T as View>::V> {
        TTHeaderPayloadView {
            ttheader: self.ttheader@,
            payload: match self.payload {
                Some(p) => Some(p@),
                None => None,
            },
        }
    }
}

impl<T> TTHeaderPayload<T> {
    /// An empty frame awaiting decode.
    pub fn new() -> (r: Self)
        ensures
            r.ttheader@ == spec_empty_header(0, 0, 0, 0, ProtocolId::Binary),
            r.payload is None,
    {
        TTHeaderPayload { ttheader: TTHeader::new(), payload: None }
    }
}

impl<T> Default for TTHeaderPayload<T> {
    /// Same as [`TTHeaderPayload::new`].
    fn default() -> (r: Self)
        ensures
            r.ttheader@ == spec_empty_header(0, 0, 0, 0, ProtocolId::Binary),
            r.payload is None,
    {
        TTHeaderPayload::new()
    }
}

/// Decoder for a whole TTHeader frame: the envelope, then the payload
/// codec on exactly the byte range the envelope declares.
pub struct TTHeaderPayloadDecoder<T> {
    pub payload_decoder: T,
}

impl<T> TTHeaderPayloadDecoder<T> {
    /// Pair the envelope decoder with a payload decoder.
    pub fn new(payload_decoder: T) -> (r: Self)
        ensures
            r.payload_decoder == payload_decoder,
    {
        Self { payload_decoder }
    }
}

impl<T: PayloadDecoder> PayloadDecoder for TTHeaderPayloadDecoder<T> {
    type Item = TTHeaderPayload<T::Item>;

    /// The whole frame (length word plus declared body) must be buffered;
    /// then the header is decoded and the payload codec runs on exactly
    /// the `payload_length` bytes after the header area.  A payload codec
    /// that still reports insufficiency inside a complete frame is
    /// malformed input, as is a frame too large to buffer.
    open spec fn decode_spec(&self, src: Seq<u8>) -> DecodedView<
        TTHeaderPayloadView<<T::Item as View>::V>,
    > {
        if src.len() < MIN_HEADER_LENGTH {
            DecodedView::InsufficientAtLeast(MIN_HEADER_LENGTH as int)
        } else if !(src[4] == 0x10 && src[5] == 0x00) {
            DecodedView::Malformed
        } else {
            let total = spec_u32_at(src, 0) as int;
            if total + 4 > usize::MAX {
                DecodedView::Malformed
            } else if src.len() < total + 4 {
                DecodedView::InsufficientAtLeast(total + 4)
            } else {
                match spec_decode_header(spec_u32_at(src, 0), src, 4) {
                    Some((h, e)) => match self.payload_decoder.decode_spec(
                        src.subrange(e, total + 4),
                    ) {
                        DecodedView::Complete(pv) => DecodedView::Complete(
                            TTHeaderPayloadView { ttheader: h, payload: Some(pv) },
                        ),
                        DecodedView::InsufficientAtLeast(_) => DecodedView::Malformed,
                        DecodedView::Malformed => DecodedView::Malformed,
                    },
                    None => DecodedView::Malformed,
                }
            }
        }
    }

    fn decode(&self, src: &Vec<u8>) -> (r: Result<Decoded<TTHeaderPayload<T::Item>>, CodecError>) {
        let n = src.len();
        if n < MIN_HEADER_LENGTH {
            return Ok(Decoded::InsufficientAtLeast(MIN_HEADER_LENGTH));
        }
        if !(src[4] == 0x10 && src[5] == 0x00) {
            return Err(CodecError::new(CodecErrorKind::InvalidData, "illegal ttheader"));
        }
        let total_length = crate::wire::read_u32_at(src, 0);
        let need: u64 = total_length as u64 + 4;
        if need > usize::MAX as u64 {
            return Err(CodecError::new(CodecErrorKind::InvalidData, "illegal ttheader"));
        }
        if (n as u64) < need {
            return Ok(Decoded::InsufficientAtLeast(need as usize));
        }
        let (hdr, hend) = match TTHeader::decode_header(total_length, src, 4) {
            Ok(p) => p,
            Err(e) => {
                return Err(e);
            },
        };
        let frame_end = need as usize;
        let body = crate::wire::copy_range(src, hend, frame_end - hend);
        match self.payload_decoder.decode(&body) {
            Ok(Decoded::Complete(payload)) => Ok(
                Decoded::Complete(TTHeaderPayload { ttheader: hdr, payload: Some(payload) }),
            ),
            Ok(Decoded::InsufficientAtLeast(_)) => Err(
                CodecError::new(CodecErrorKind::InvalidData, "illegal payload"),
            ),
            Err(e) => Err(e),
        }
    }
}

/// The identity payload codec: the payload is the raw bytes themselves.
pub struct RawPayloadCodec;

impl RawPayloadCodec {
    /// The codec is stateless.
    pub fn new() -> (r: Self)
        ensures
            true,
    {
        RawPayloadCodec
    }
}

impl PayloadDecoder for RawPayloadCodec {
    type Item = Vec<u8>;

    /// Every buffer decodes to itself, whole.
    open spec fn decode_spec(&self, src: Seq<u8>) -> DecodedView<Seq<u8>> {
        DecodedView::Complete(src)
    }

    fn decode(&self, src: &Vec<u8>) -> (r: Result<Decoded<Vec<u8>>, CodecError>) {
        let n = src.len();
        let v = crate::wire::copy_range(src, 0, n);
        proof {
            assert(v@ =~= src@);
        }
        Ok(Decoded::Complete(v))
    }
}

impl PayloadEncoder for RawPayloadCodec {
    type Item = Vec<u8>;

    open spec fn encode_req(&self, item: Seq<u8>) -> bool {
        true
    }

    /// The bytes go out unchanged.
    open spec fn encode_spec(&self, item: Seq<u8>) -> Seq<u8> {
        item
    }

    fn encode(&self, item: &Vec<u8>, dst: &mut Vec<u8>) -> (r: Result<(), CodecError>) {
        crate::wire::append_bytes(dst, item);
        Ok(())
    }
}

/// One string with its 16-bit length prefix.
pub open spec fn spec_lp_bytes(s: Seq<u8>) -> Seq<u8> {
    crate::wire::spec_u16_bytes(s.len() as u16) + s
}

/// The string key-value pairs, each as two length-prefixed strings, in
/// list order.
pub open spec fn spec_str_kvs_bytes(s: Seq<(Seq<u8>, Seq<u8>)>) -> Seq<u8>
    decreases s.len(),
{
    if s.len() == 0 {
        Seq::empty()
    } else {
        spec_lp_bytes(s[0].0) + spec_lp_bytes(s[0].1) + spec_str_kvs_bytes(s.drop_first())
    }
}

/// The occupied dense slots from index `i` on, each as a 16-bit key and a
/// length-prefixed value.
pub open spec fn spec_dense_bytes(t: Seq<Option<Seq<u8>>>, i: int) -> Seq<u8>
    decreases t.len() - i,
{
    if i < 0 || i >= t.len() {
        Seq::empty()
    } else {
        (match t[i] {
            Some(v) => crate::wire::spec_u16_bytes(i as u16) + spec_lp_bytes(v),
            None => Seq::empty(),
        }) + spec_dense_bytes(t, i + 1)
    }
}

/// How many dense slots from index `i` on are occupied.
pub open spec fn spec_dense_count(t: Seq<Option<Seq<u8>>>, i: int) -> nat
    decreases t.len() - i,
{
    if i < 0 || i >= t.len() {
        0
    } else {
        (if t[i] is Some {
            1nat
        } else {
            0nat
        }) + spec_dense_count(t, i + 1)
    }
}

/// The spilled integer keys, each as a 16-bit key and a length-prefixed
/// value.
pub open spec fn spec_ext_bytes(s: Seq<(u16, Seq<u8>)>) -> Seq<u8>
    decreases s.len(),
{
    if s.len() == 0 {
        Seq::empty()
    } else {
        crate::wire::spec_u16_bytes(s[0].0) + spec_lp_bytes(s[0].1) + spec_ext_bytes(s.drop_first())
    }
}

/// The header metadata before padding: protocol id, transform count, the
/// string block, the integer block.  The ACL token is not emitted.
pub open spec fn spec_meta_bytes(h: TTHeaderView) -> Seq<u8> {
    seq![h.protocol_id.spec_value(), 0u8] + seq![INFO_KEY_VALUE] + crate::wire::spec_u16_bytes(
        h.str_headers.len() as u16,
    ) + spec_str_kvs_bytes(h.str_headers) + seq![INFO_INT_KEY_VALUE] + crate::wire::spec_u16_bytes(
        (spec_dense_count(h.int_headers, 0) + h.int_headers_ext.len()) as u16,
    ) + spec_dense_bytes(h.int_headers, 0) + spec_ext_bytes(h.int_headers_ext)
}

/// Zero bytes that extend a metadata area of `n` bytes to the next 4-byte
/// boundary.
pub open spec fn spec_pad_len(n: int) -> int {
    (4 - (n % 4)) % 4
}

/// The whole encoded envelope, given the length of the payload that will
/// follow it: length word (which counts everything after itself plus the
/// payload), magic, flags, sequence id, header size in 4-byte units, then
/// the padded metadata area.
pub open spec fn spec_ttheader_frame_bytes(h: TTHeaderView, plen: int) -> Seq<u8> {
    let meta = spec_meta_bytes(h);
    let pad = spec_pad_len(meta.len() as int);
    let harea_len = meta.len() + pad;
    crate::wire::spec_u32_bytes((10 + harea_len + plen) as u32) + seq![0x10u8, 0x00u8]
        + crate::wire::spec_u16_bytes(h.flags) + crate::wire::spec_i32_bytes(h.seq_id)
        + crate::wire::spec_u16_bytes((harea_len / 4) as u16) + meta + Seq::new(
        pad as nat,
        |i: int| 0u8,
    )
}

/// The envelope as emitted for the payload length the header itself
/// declares.
pub open spec fn spec_ttheader_bytes(h: TTHeaderView) -> Seq<u8> {
    spec_ttheader_frame_bytes(h, h.payload_length as int)
}

/// The machine limits an encodable header must respect: the dense table
/// has its fixed size, every string fits its 16-bit length field and the
/// decoder's caps, the pair counts fit their 16-bit fields, and the header
/// area fits its 16-bit size field.
pub open spec fn spec_encodable_header(h: TTHeaderView) -> bool {
    &&& h.int_headers.len() == INDEX_TABLE_SIZE
    &&& h.str_headers.len() <= MAX_NUM_HEADERS
    &&& forall|j: int|
        0 <= j < h.str_headers.len() ==> #[trigger] h.str_headers[j].0.len()
            <= MAX_HEADER_STRING_LENGTH && h.str_headers[j].1.len() <= MAX_HEADER_STRING_LENGTH
    &&& forall|j: int|
        0 <= j < h.int_headers.len() ==> (#[trigger] h.int_headers[j] matches Some(v) ==> v.len()
            <= MAX_HEADER_STRING_LENGTH)
    &&& forall|j: int|
        0 <= j < h.int_headers_ext.len() ==> #[trigger] h.int_headers_ext[j].1.len()
            <= MAX_HEADER_STRING_LENGTH
    &&& h.int_headers_ext.len() + INDEX_TABLE_SIZE <= u16::MAX
    &&& spec_meta_bytes(h).len() + spec_pad_len(spec_meta_bytes(h).len() as int) <= 4 * 65535
}

/// Encoder for a bare TTHeader envelope, to be followed by
/// `payload_length` bytes of payload emitted by the caller.
pub struct TTHeaderEncoder;

impl TTHeaderEncoder {
    /// The encoder is stateless.
    pub fn new() -> (r: Self)
        ensures
            true,
    {
        TTHeaderEncoder
    }
}

impl PayloadEncoder for TTHeaderEncoder {
    type Item = TTHeader;

    open spec fn encode_req(&self, h: TTHeaderView) -> bool {
        spec_encodable_header(h) && 10 + spec_meta_bytes(h).len() + spec_pad_len(
            spec_meta_bytes(h).len() as int,
        ) + h.payload_length <= u32::MAX
    }

    open spec fn encode_spec(&self, h: TTHeaderView) -> Seq<u8> {
        spec_ttheader_bytes(h)
    }

    fn encode(&self, item: &TTHeader, dst: &mut Vec<u8>) -> (r: Result<(), CodecError>) {
        let meta = encode_meta(item);
        let mut pad: usize = (4 - (meta.len() % 4)) % 4;
        let harea_len = meta.len() + pad;
        let total: u64 = 10 + (harea_len as u64) + (item.payload_length as u64);
        crate::wire::push_u32_be(dst, total as u32);
        dst.push(0x10);
        dst.push(0x00);
        crate::wire::push_u16_be(dst, item.flags);
        crate::wire::push_i32_be(dst, item.seq_id);
        crate::wire::push_u16_be(dst, (harea_len / 4) as u16);
        crate::wire::append_bytes(dst, &meta);
        let ghost before_pad = dst@;
        let mut z: usize = 0;
        while z < pad
            invariant
                z <= pad,
                dst@ == before_pad + Seq::new(z as nat, |i: int| 0u8),
            decreases pad - z,
        {
            dst.push(0);
            proof {
                assert(dst@ =~= before_pad + Seq::new((z + 1) as nat, |i: int| 0u8));
            }
            z = z + 1;
        }
        proof {
            assert(dst@ =~= old(dst)@ + spec_ttheader_bytes(item@));
        }
        Ok(())
    }
}

/// Build the metadata area (before padding) of one header.
fn encode_meta(item: &TTHeader) -> (r: Vec<u8>)
    requires
        spec_encodable_header(item@),
    ensures
        r@ == spec_meta_bytes(item@),
{
    let mut meta: Vec<u8> = Vec::new();
    meta.push(item.protocol_id.as_u8());
    meta.push(0);
    meta.push(INFO_KEY_VALUE);
    crate::wire::push_u16_be(&mut meta, item.str_headers.len() as u16);
    let ghost base_str = meta@;
    let ghost skv = item@.str_headers;
    proof {
        assert(skv.skip(0) =~= skv);
    }
    let n = item.str_headers.len();
    let mut i: usize = 0;
    while i < n
        invariant
            i <= n,
            n == item.str_headers@.len(),
            skv == item@.str_headers,
            spec_encodable_header(item@),
            meta@ + spec_str_kvs_bytes(skv.skip(i as int)) == base_str + spec_str_kvs_bytes(skv),
        decreases n - i,
    {
        let pair = &item.str_headers[i];
        proof {
            assert(skv.skip(i as int)[0] == skv[i as int]);
            assert(skv.skip(i as int).drop_first() =~= skv.skip(i as int + 1));
            assert(skv[i as int] == (item.str_headers@[i as int].0@, item.str_headers@[i as int].1@));
        }
        crate::wire::push_u16_be(&mut meta, pair.0.len() as u16);
        crate::wire::append_bytes(&mut meta, &pair.0);
        crate::wire::push_u16_be(&mut meta, pair.1.len() as u16);
        crate::wire::append_bytes(&mut meta, &pair.1);
        proof {
            assert(meta@ + spec_str_kvs_bytes(skv.skip(i as int + 1)) =~= base_str
                + spec_str_kvs_bytes(skv));
        }
        i = i + 1;
    }
    proof {
        assert(skv.skip(n as int) =~= Seq::<(Seq<u8>, Seq<u8>)>::empty());
        assert(meta@ =~= base_str + spec_str_kvs_bytes(skv));
    }
    meta.push(INFO_INT_KEY_VALUE);
    let mut int_count: u16 = 0;
    let ghost dense = item@.int_headers;
    let mut dense_bytes: Vec<u8> = Vec::new();
    let mut i: usize = 0;
    while i < INDEX_TABLE_SIZE
        invariant
            i <= INDEX_TABLE_SIZE,
            dense == item@.int_headers,
            dense.len() == INDEX_TABLE_SIZE,
            item.int_headers@.len() == INDEX_TABLE_SIZE,
            spec_encodable_header(item@),
            dense_bytes@ + spec_dense_bytes(dense, i as int) == spec_dense_bytes(dense, 0),
            int_count as nat + spec_dense_count(dense, i as int) == spec_dense_count(dense, 0),
            int_count as nat <= i,
        decreases INDEX_TABLE_SIZE - i,
    {
        match &item.int_headers[i] {
            Some(v) => {
                proof {
                    assert(dense[i as int] == Some(v@));
                }
                crate::wire::push_u16_be(&mut dense_bytes, i as u16);
                crate::wire::push_u16_be(&mut dense_bytes, v.len() as u16);
                crate::wire::append_bytes(&mut dense_bytes, v);
                proof {
                    assert(dense_bytes@ + spec_dense_bytes(dense, i as int + 1) =~= spec_dense_bytes(
                        dense,
                        0,
                    ));
                }
                int_count = int_count + 1;
            },
            None => {
                proof {
                    assert(dense[i as int] is None);
                }
            },
        }
        i = i + 1;
    }
    let ghost extv = item@.int_headers_ext;
    proof {
        assert(extv.skip(0) =~= extv);
    }
    let mut ext_bytes: Vec<u8> = Vec::new();
    let ne = item.int_headers_ext.len();
    let mut i: usize = 0;
    while i < ne
        invariant
            i <= ne,
            ne == item.int_headers_ext@.len(),
            extv == item@.int_headers_ext,
            spec_encodable_header(item@),
            ext_bytes@ + spec_ext_bytes(extv.skip(i as int)) == spec_ext_bytes(extv),
        decreases ne - i,
    {
        let pair = &item.int_headers_ext[i];
        proof {
            assert(extv.skip(i as int)[0] == extv[i as int]);
            assert(extv.skip(i as int).drop_first() =~= extv.skip(i as int + 1));
            assert(extv[i as int] == (
                item.int_headers_ext@[i as int].0,
                item.int_headers_ext@[i as int].1@,
            ));
        }
        crate::wire::push_u16_be(&mut ext_bytes, pair.0);
        crate::wire::push_u16_be(&mut ext_bytes, pair.1.len() as u16);
        crate::wire::append_bytes(&mut ext_bytes, &pair.1);
        proof {
            assert(ext_bytes@ + spec_ext_bytes(extv.skip(i as int + 1)) =~= spec_ext_bytes(extv));
        }
        i = i + 1;
    }
    proof {
        assert(spec_dense_bytes(dense, INDEX_TABLE_SIZE as int) =~= Seq::<u8>::empty());
        assert(dense_bytes@ =~= spec_dense_bytes(dense, 0));
        assert(extv.skip(ne as int) =~= Seq::<(u16, Seq<u8>)>::empty());
        assert(ext_bytes@ =~= spec_ext_bytes(extv));
    }
    let total_count = int_count + (ne as u16);
    crate::wire::push_u16_be(&mut meta, total_count);
    crate::wire::append_bytes(&mut meta, &dense_bytes);
    crate::wire::append_bytes(&mut meta, &ext_bytes);
    proof {
        assert(meta@ =~= spec_meta_bytes(item@));
    }
    meta
}

/// Encoder for a whole frame: the envelope, the payload codec's bytes,
/// then the length word backpatched from the bytes actually emitted.
pub struct TTHeaderPayloadEncoder<T> {
    pub payload_encoder: T,
}

impl<T> TTHeaderPayloadEncoder<T> {
    /// Pair the envelope encoder with a payload encoder.
    pub fn new(payload_encoder: T) -> (r: Self)
        ensures
            r.payload_encoder == payload_encoder,
    {
        Self { payload_encoder }
    }
}

impl<T: PayloadEncoder> PayloadEncoder for TTHeaderPayloadEncoder<T> {
    type Item = TTHeaderPayload<T::Item>;

    open spec fn encode_req(&self, pv: TTHeaderPayloadView<<T::Item as View>::V>) -> bool {
        &&& pv.payload matches Some(p)
        &&& (pv.payload matches Some(p) ==> self.payload_encoder.encode_req(p))
        &&& spec_encodable_header(pv.ttheader)
        &&& 10 + spec_meta_bytes(pv.ttheader).len() + spec_pad_len(
            spec_meta_bytes(pv.ttheader).len() as int,
        ) + pv.ttheader.payload_length <= u32::MAX
        &&& (pv.payload matches Some(p) ==> 10 + spec_meta_bytes(pv.ttheader).len()
            + spec_pad_len(spec_meta_bytes(pv.ttheader).len() as int)
            + self.payload_encoder.encode_spec(p).len() <= u32::MAX)
    }

    /// The envelope with its length word counting the payload actually
    /// emitted, then that payload.
    open spec fn encode_spec(&self, pv: TTHeaderPayloadView<<T::Item as View>::V>) -> Seq<u8> {
        match pv.payload {
            Some(p) => spec_ttheader_frame_bytes(
                pv.ttheader,
                self.payload_encoder.encode_spec(p).len() as int,
            ) + self.payload_encoder.encode_spec(p),
            None => Seq::empty(),
        }
    }

    fn encode(&self, item: &TTHeaderPayload<T::Item>, dst: &mut Vec<u8>) -> (r: Result<
        (),
        CodecError,
    >) {
        let zero_index = dst.len();
        let header_encoder = TTHeaderEncoder;
        let hr = header_encoder.encode(&item.ttheader, dst);
        match hr {
            Ok(_) => {},
            Err(e) => {
                return Err(e);
            },
        }
        let payload = match &item.payload {
            Some(p) => p,
            None => {
                return Err(CodecError::invalid_data());
            },
        };
        let ghost after_header = dst@;
        let pr = self.payload_encoder.encode(payload, dst);
        match pr {
            Ok(_) => {},
            Err(e) => {
                return Err(e);
            },
        }
        let size = dst.len() - zero_index;
        crate::wire::patch_u32_be(dst, zero_index, (size - 4) as u32);
        proof {
            let h = item.ttheader@;
            let pbytes = self.payload_encoder.encode_spec(item.payload->Some_0@);
            let meta = spec_meta_bytes(h);
            let pad = spec_pad_len(meta.len() as int);
            let harea_len = meta.len() + pad;
            assert(size - 4 == 10 + harea_len + pbytes.len());
            assert(dst@ =~= old(dst)@ + spec_ttheader_frame_bytes(h, pbytes.len() as int) + pbytes);
        }
        Ok(())
    }
}

/// Padding law of the envelope: everything after the length word and the
/// fixed ten bytes of metadata is a multiple of four bytes long, and the
/// padding bytes themselves are zero.
pub proof fn lemma_ttheader_padding(h: TTHeaderView, plen: int)
    ensures
        ({
            let fb = spec_ttheader_frame_bytes(h, plen);
            let meta = spec_meta_bytes(h);
            &&& fb.len() == 14 + meta.len() + spec_pad_len(meta.len() as int)
            &&& (fb.len() - 14) % 4 == 0
            &&& forall|i: int| 14 + meta.len() <= i < fb.len() ==> fb[i] == 0
        }),
{
    let meta = spec_meta_bytes(h);
    let m = meta.len() as int;
    let pad = spec_pad_len(m);
    assert((m + (4 - (m % 4)) % 4) % 4 == 0) by (nonlinear_arith);
    let fb = spec_ttheader_frame_bytes(h, plen);
    assert(fb.len() == 14 + m + pad);
    assert forall|i: int| 14 + m <= i < fb.len() implies fb[i] == 0 by {
        assert(fb[i] == Seq::new(pad as nat, |j: int| 0u8)[i - 14 - m]);
    }
}

/// The value paired with `k` in an association list, if any.
pub open spec fn spec_kv_lookup(s: Seq<(Seq<u8>, Seq<u8>)>, k: Seq<u8>) -> Option<Seq<u8>>
    decreases s.len(),
{
    if s.len() == 0 {
        None
    } else if s[0].0 == k {
        Some(s[0].1)
    } else {
        spec_kv_lookup(s.drop_first(), k)
    }
}

/// A length-prefixed string reads back as itself.
proof fn lemma_read_str_of_lp(b: Seq<u8>, i: int, end: int, s: Seq<u8>)
    requires
        0 <= i,
        s.len() <= MAX_HEADER_STRING_LENGTH,
        i + 2 + s.len() <= end,
        i + 2 + s.len() <= b.len(),
        b.subrange(i, i + 2 + s.len()) == spec_lp_bytes(s),
    ensures
        spec_read_str(b, i, end) == Some((i + 2 + s.len(), s)),
{
    let n = s.len() as int;
    assert forall|j: int| 0 <= j < 2 + n implies b[i + j] == spec_lp_bytes(s)[j] by {
        assert(b.subrange(i, i + 2 + n)[j] == b[i + j]);
    }
    assert(b.subrange(i, i + 2) =~= crate::wire::spec_u16_bytes(s.len() as u16));
    crate::wire::lemma_u16_at_bytes(b, i, s.len() as u16);
    assert forall|j: int|
        0 <= j < n implies #[trigger] b.subrange(i + 2, i + 2 + n)[j] == s[j] by {
        assert(b[i + (2 + j)] == spec_lp_bytes(s)[2 + j]);
    }
    assert(b.subrange(i + 2, i + 2 + n) =~= s);
}

/// Parsing the encoding of a run of string pairs with fresh, distinct keys
/// appends exactly those pairs.
proof fn lemma_parse_str_kvs_of_bytes(
    b: Seq<u8>,
    i: int,
    end: int,
    pairs: Seq<(Seq<u8>, Seq<u8>)>,
    acc: TTHeaderView,
)
    requires
        0 <= i,
        i + spec_str_kvs_bytes(pairs).len() <= end,
        i + spec_str_kvs_bytes(pairs).len() <= b.len(),
        b.subrange(i, i + spec_str_kvs_bytes(pairs).len()) == spec_str_kvs_bytes(pairs),
        forall|j: int|
            0 <= j < pairs.len() ==> #[trigger] pairs[j].0.len() <= MAX_HEADER_STRING_LENGTH
                && pairs[j].1.len() <= MAX_HEADER_STRING_LENGTH,
        forall|j: int, k: int| 0 <= j < k < pairs.len() ==> pairs[j].0 != pairs[k].0,
        forall|j: int, k: int|
            0 <= j < pairs.len() && 0 <= k < acc.str_headers.len() ==> pairs[j].0
                != acc.str_headers[k].0,
    ensures
        spec_parse_str_kvs(b, i, end, pairs.len(), acc) == Some(
            (i + spec_str_kvs_bytes(pairs).len(), (TTHeaderView {
                str_headers: acc.str_headers + pairs,
                ..acc
            })),
        ),
    decreases pairs.len(),
{
    if pairs.len() == 0 {
        assert(acc.str_headers + pairs =~= acc.str_headers);
        assert((TTHeaderView { str_headers: acc.str_headers + pairs, ..acc }) == acc);
    } else {
        let k = pairs[0].0;
        let v = pairs[0].1;
        let rest = pairs.drop_first();
        let kb = spec_lp_bytes(k);
        let vb = spec_lp_bytes(v);
        let restb = spec_str_kvs_bytes(rest);
        let total = spec_str_kvs_bytes(pairs);
        assert(total == kb + vb + restb);
        let n = total.len() as int;
        assert forall|j: int| 0 <= j < n implies b[i + j] == total[j] by {
            assert(b.subrange(i, i + n)[j] == b[i + j]);
        }
        let klen = k.len() as int;
        let vlen = v.len() as int;
        assert forall|j: int|
            0 <= j < 2 + klen implies #[trigger] b.subrange(i, i + 2 + klen)[j] == kb[j] by {
            assert(b[i + j] == total[j]);
        }
        assert(b.subrange(i, i + 2 + klen) =~= kb);
        lemma_read_str_of_lp(b, i, end, k);
        let j1 = i + 2 + klen;
        assert forall|j: int|
            0 <= j < 2 + vlen implies #[trigger] b.subrange(j1, j1 + 2 + vlen)[j] == vb[j] by {
            assert(b[i + (2 + klen + j)] == total[2 + klen + j]);
        }
        assert(b.subrange(j1, j1 + 2 + vlen) =~= vb);
        lemma_read_str_of_lp(b, j1, end, v);
        let j2 = j1 + 2 + vlen;
        // the key is fresh, so the insert appends
        lemma_kv_insert_missing(acc.str_headers, k, v);
        let acc2 = TTHeaderView { str_headers: acc.str_headers.push((k, v)), ..acc };
        assert forall|j: int|
            0 <= j < restb.len() implies #[trigger] b.subrange(j2, j2 + restb.len() as int)[j]
                == restb[j] by {
            assert(b[i + (2 + klen + 2 + vlen + j)] == total[2 + klen + 2 + vlen + j]);
        }
        assert(b.subrange(j2, j2 + restb.len() as int) =~= restb);
        lemma_parse_str_kvs_of_bytes(b, j2, end, rest, acc2);
        assert(acc2.str_headers + rest =~= acc.str_headers + pairs);
    }
}

/// Parsing `c1 + c2` integer entries is parsing `c1`, then `c2` from where
/// the first run ended.
proof fn lemma_parse_int_kvs_split(
    b: Seq<u8>,
    i: int,
    end: int,
    c1: nat,
    c2: nat,
    acc: TTHeaderView,
)
    ensures
        spec_parse_int_kvs(b, i, end, c1 + c2, acc) == (match spec_parse_int_kvs(
            b,
            i,
            end,
            c1,
            acc,
        ) {
            Some((j, a2)) => spec_parse_int_kvs(b, j, end, c2, a2),
            None => None,
        }),
    decreases c1,
{
    if c1 > 0 {
        if 0 <= i && i + 2 <= end {
            match spec_read_str(b, i + 2, end) {
                Some((j, v)) => {
                    let key = spec_u16_at(b, i);
                    let acc2 = if (key as int) < INDEX_TABLE_SIZE {
                        TTHeaderView {
                            int_headers: acc.int_headers.update(key as int, Some(v)),
                            ..acc
                        }
                    } else {
                        TTHeaderView {
                            int_headers_ext: acc.int_headers_ext.push((key, v)),
                            ..acc
                        }
                    };
                    let inext = if j > i {
                        j
                    } else {
                        i + 1
                    };
                    lemma_parse_int_kvs_split(b, inext, end, (c1 - 1) as nat, c2, acc2);
                    assert(c1 + c2 - 1 == (c1 - 1) as nat + c2);
                },
                None => {},
            }
        }
    }
}

/// Parsing the encoding of the occupied dense slots from `k` on overwrites
/// exactly those slots.
proof fn lemma_parse_dense_of_bytes(
    b: Seq<u8>,
    i: int,
    end: int,
    t: Seq<Option<Seq<u8>>>,
    k: int,
    acc: TTHeaderView,
)
    requires
        0 <= i,
        0 <= k <= t.len(),
        t.len() == INDEX_TABLE_SIZE,
        acc.int_headers.len() == INDEX_TABLE_SIZE,
        i + spec_dense_bytes(t, k).len() <= end,
        i + spec_dense_bytes(t, k).len() <= b.len(),
        b.subrange(i, i + spec_dense_bytes(t, k).len()) == spec_dense_bytes(t, k),
        forall|j: int|
            0 <= j < t.len() ==> (#[trigger] t[j] matches Some(v) ==> v.len()
                <= MAX_HEADER_STRING_LENGTH),
    ensures
        spec_parse_int_kvs(b, i, end, spec_dense_count(t, k), acc) == Some(
            (i + spec_dense_bytes(t, k).len(), (TTHeaderView {
                int_headers: Seq::new(
                    INDEX_TABLE_SIZE as nat,
                    |j: int|
                        if k <= j && t[j] is Some {
                            t[j]
                        } else {
                            acc.int_headers[j]
                        },
                ),
                ..acc
            })),
        ),
    decreases t.len() - k,
{
    if k == t.len() {
        assert(Seq::new(
            INDEX_TABLE_SIZE as nat,
            |j: int|
                if k <= j && t[j] is Some {
                    t[j]
                } else {
                    acc.int_headers[j]
                },
        ) =~= acc.int_headers);
    } else {
        match t[k] {
            None => {
                lemma_parse_dense_of_bytes(b, i, end, t, k + 1, acc);
                assert(Seq::new(
                    INDEX_TABLE_SIZE as nat,
                    |j: int|
                        if k + 1 <= j && t[j] is Some {
                            t[j]
                        } else {
                            acc.int_headers[j]
                        },
                ) =~= Seq::new(
                    INDEX_TABLE_SIZE as nat,
                    |j: int|
                        if k <= j && t[j] is Some {
                            t[j]
                        } else {
                            acc.int_headers[j]
                        },
                ));
            },
            Some(v) => {
                let entry = crate::wire::spec_u16_bytes(k as u16) + spec_lp_bytes(v);
                let restb = spec_dense_bytes(t, k + 1);
                let total = spec_dense_bytes(t, k);
                assert(total == entry + restb);
                let n = total.len() as int;
                assert forall|j: int| 0 <= j < n implies b[i + j] == total[j] by {
                    assert(b.subrange(i, i + n)[j] == b[i + j]);
                }
                assert forall|j: int|
                    0 <= j < 2 implies #[trigger] b.subrange(i, i + 2)[j]
                        == crate::wire::spec_u16_bytes(k as u16)[j] by {
                    assert(b[i + j] == total[j]);
                }
                assert(b.subrange(i, i + 2) =~= crate::wire::spec_u16_bytes(k as u16));
                crate::wire::lemma_u16_at_bytes(b, i, k as u16);
                let vlen = v.len() as int;
                assert forall|j: int|
                    0 <= j < 2 + vlen implies #[trigger] b.subrange(i + 2, i + 4 + vlen)[j]
                        == spec_lp_bytes(v)[j] by {
                    assert(b[i + (2 + j)] == total[2 + j]);
                }
                assert(b.subrange(i + 2, i + 4 + vlen) =~= spec_lp_bytes(v));
                lemma_read_str_of_lp(b, i + 2, end, v);
                let acc2 = TTHeaderView {
                    int_headers: acc.int_headers.update(k, Some(v)),
                    ..acc
                };
                let j2 = i + 4 + vlen;
                assert forall|j: int|
                    0 <= j < restb.len() implies #[trigger] b.subrange(
                        j2,
                        j2 + restb.len() as int,
                    )[j] == restb[j] by {
                    assert(b[i + (4 + vlen + j)] == total[4 + vlen + j]);
                }
                assert(b.subrange(j2, j2 + restb.len() as int) =~= restb);
                lemma_parse_dense_of_bytes(b, j2, end, t, k + 1, acc2);
                assert(spec_dense_count(t, k) == 1 + spec_dense_count(t, k + 1));
                assert(Seq::new(
                    INDEX_TABLE_SIZE as nat,
                    |j: int|
                        if k + 1 <= j && t[j] is Some {
                            t[j]
                        } else {
                            acc2.int_headers[j]
                        },
                ) =~= Seq::new(
                    INDEX_TABLE_SIZE as nat,
                    |j: int|
                        if k <= j && t[j] is Some {
                            t[j]
                        } else {
                            acc.int_headers[j]
                        },
                ));
            },
        }
    }
}

/// Parsing the encoding of the spill list appends exactly its entries.
proof fn lemma_parse_ext_of_bytes(
    b: Seq<u8>,
    i: int,
    end: int,
    entries: Seq<(u16, Seq<u8>)>,
    acc: TTHeaderView,
)
    requires
        0 <= i,
        i + spec_ext_bytes(entries).len() <= end,
        i + spec_ext_bytes(entries).len() <= b.len(),
        b.subrange(i, i + spec_ext_bytes(entries).len()) == spec_ext_bytes(entries),
        forall|j: int|
            0 <= j < entries.len() ==> #[trigger] entries[j].1.len() <= MAX_HEADER_STRING_LENGTH,
        forall|j: int|
            0 <= j < entries.len() ==> (#[trigger] entries[j].0 as int) >= INDEX_TABLE_SIZE,
    ensures
        spec_parse_int_kvs(b, i, end, entries.len(), acc) == Some(
            (i + spec_ext_bytes(entries).len(), (TTHeaderView {
                int_headers_ext: acc.int_headers_ext + entries,
                ..acc
            })),
        ),
    decreases entries.len(),
{
    if entries.len() == 0 {
        assert(acc.int_headers_ext + entries =~= acc.int_headers_ext);
        assert((TTHeaderView { int_headers_ext: acc.int_headers_ext + entries, ..acc }) == acc);
    } else {
        let key = entries[0].0;
        let v = entries[0].1;
        let rest = entries.drop_first();
        let entry = crate::wire::spec_u16_bytes(key) + spec_lp_bytes(v);
        let restb = spec_ext_bytes(rest);
        let total = spec_ext_bytes(entries);
        assert(total == entry + restb);
        let n = total.len() as int;
        assert forall|j: int| 0 <= j < n implies b[i + j] == total[j] by {
            assert(b.subrange(i, i + n)[j] == b[i + j]);
        }
        assert forall|j: int|
            0 <= j < 2 implies #[trigger] b.subrange(i, i + 2)[j] == crate::wire::spec_u16_bytes(
                key,
            )[j] by {
            assert(b[i + j] == total[j]);
        }
        assert(b.subrange(i, i + 2) =~= crate::wire::spec_u16_bytes(key));
        crate::wire::lemma_u16_at_bytes(b, i, key);
        let vlen = v.len() as int;
        assert forall|j: int|
            0 <= j < 2 + vlen implies #[trigger] b.subrange(i + 2, i + 4 + vlen)[j]
                == spec_lp_bytes(v)[j] by {
            assert(b[i + (2 + j)] == total[2 + j]);
        }
        assert(b.subrange(i + 2, i + 4 + vlen) =~= spec_lp_bytes(v));
        lemma_read_str_of_lp(b, i + 2, end, v);
        let acc2 = TTHeaderView { int_headers_ext: acc.int_headers_ext.push((key, v)), ..acc };
        let j2 = i + 4 + vlen;
        assert forall|j: int|
            0 <= j < restb.len() implies #[trigger] b.subrange(j2, j2 + restb.len() as int)[j]
                == restb[j] by {
            assert(b[i + (4 + vlen + j)] == total[4 + vlen + j]);
        }
        assert(b.subrange(j2, j2 + restb.len() as int) =~= restb);
        assert forall|j: int|
            0 <= j < rest.len() implies #[trigger] rest[j].1.len() <= MAX_HEADER_STRING_LENGTH && (
            rest[j].0 as int) >= INDEX_TABLE_SIZE by {
            assert(rest[j] == entries[j + 1]);
        }
        lemma_parse_ext_of_bytes(b, j2, end, rest, acc2);
        assert(acc2.int_headers_ext + rest =~= acc.int_headers_ext + entries);
    }
}

/// Zero bytes at the tail of the header area parse as padding.
proof fn lemma_parse_info_padding(b: Seq<u8>, i: int, end: int, acc: TTHeaderView)
    requires
        0 <= i <= end,
        end <= b.len(),
        forall|j: int| i <= j < end ==> b[j] == 0,
    ensures
        spec_parse_info(b, i, end, acc) == Some(acc),
    decreases end - i,
{
    if i < end {
        lemma_parse_info_padding(b, i + 1, end, acc);
    }
}

/// Occupied slots never outnumber the slots.
proof fn lemma_dense_count_le(t: Seq<Option<Seq<u8>>>, k: int)
    requires
        0 <= k <= t.len(),
    ensures
        spec_dense_count(t, k) <= t.len() - k,
    decreases t.len() - k,
{
    if k < t.len() {
        lemma_dense_count_le(t, k + 1);
    }
}

/// Round trip of the envelope: decoding the bytes the encoder emits for a
/// payload of `plen` bytes gives the header back.  The decoded copy
/// reports the emitted header area as its `header_length`, recovers
/// `payload_length == plen` from the length word, and has no ACL token,
/// which the encoder never emits.  Beyond encodability this asks only
/// that the metadata is canonical: string keys distinct, spill keys
/// outside the dense range.
#[verifier::rlimit(100)]
pub proof fn lemma_ttheader_roundtrip(h: TTHeaderView, plen: int)
    requires
        spec_encodable_header(h),
        0 <= plen,
        10 + spec_meta_bytes(h).len() + spec_pad_len(spec_meta_bytes(h).len() as int) + plen
            <= u32::MAX,
        forall|j: int, k: int|
            0 <= j < k < h.str_headers.len() ==> h.str_headers[j].0 != h.str_headers[k].0,
        forall|j: int|
            0 <= j < h.int_headers_ext.len() ==> (#[trigger] h.int_headers_ext[j].0 as int)
                >= INDEX_TABLE_SIZE,
    ensures
        ({
            let fb = spec_ttheader_frame_bytes(h, plen);
            spec_decode_header(spec_u32_at(fb, 0), fb, 4) == Some(
                ((TTHeaderView {
                    header_length: (fb.len() - 14) as u32,
                    payload_length: plen as u32,
                    acl_token: None,
                    ..h
                }), fb.len() as int),
            )
        }),
{
    let fb = spec_ttheader_frame_bytes(h, plen);
    let meta = spec_meta_bytes(h);
    let m = meta.len() as int;
    let pad = spec_pad_len(m);
    let harea = m + pad;
    let total = 10 + harea + plen;
    lemma_ttheader_padding(h, plen);
    assert((harea % 4) == 0) by (nonlinear_arith)
        requires
            pad == (4 - (m % 4)) % 4,
            harea == m + pad,
            m >= 0,
    ;
    assert(fb.len() == 14 + harea);
    let strb = spec_str_kvs_bytes(h.str_headers);
    let dense = spec_dense_bytes(h.int_headers, 0);
    let extb = spec_ext_bytes(h.int_headers_ext);
    let nstr = h.str_headers.len();
    lemma_dense_count_le(h.int_headers, 0);
    let nint = spec_dense_count(h.int_headers, 0) + h.int_headers_ext.len();
    assert(meta == seq![h.protocol_id.spec_value(), 0u8] + seq![INFO_KEY_VALUE]
        + crate::wire::spec_u16_bytes(nstr as u16) + strb + seq![INFO_INT_KEY_VALUE]
        + crate::wire::spec_u16_bytes(nint as u16) + dense + extb);
    assert(m == 8 + strb.len() + dense.len() + extb.len());

    // the fixed fields read back
    assert(fb.subrange(0, 4) =~= crate::wire::spec_u32_bytes(total as u32));
    crate::wire::lemma_u32_at_bytes(fb, 0, total as u32);
    let total_length = spec_u32_at(fb, 0);
    assert(total_length == total);
    assert(fb.subrange(6, 8) =~= crate::wire::spec_u16_bytes(h.flags));
    crate::wire::lemma_u16_at_bytes(fb, 6, h.flags);
    assert(fb.subrange(8, 12) =~= crate::wire::spec_i32_bytes(h.seq_id));
    crate::wire::lemma_i32_at_bytes(fb, 8, h.seq_id);
    assert(fb.subrange(12, 14) =~= crate::wire::spec_u16_bytes((harea / 4) as u16));
    crate::wire::lemma_u16_at_bytes(fb, 12, (harea / 4) as u16);
    let hsize = spec_u16_at(fb, 12) as int;
    assert(hsize == harea / 4);
    let hlen = hsize * 4;
    assert(hlen == harea) by (nonlinear_arith)
        requires
            hlen == (harea / 4) * 4,
            harea % 4 == 0,
            harea >= 0,
    ;
    assert(hsize >= 1);
    assert(4 + 10 + hlen <= fb.len());
    assert(hlen + 10 <= total_length);

    // the header area: protocol byte, then the info blocks
    assert(fb[14] == h.protocol_id.spec_value());
    assert(ProtocolId::spec_valid_value(h.protocol_id.spec_value()));
    assert(ProtocolId::spec_from_u8(h.protocol_id.spec_value()) == h.protocol_id);
    let acc0 = spec_empty_header(
        hlen as u32,
        (total_length - hlen - 10) as u32,
        h.seq_id,
        h.flags,
        h.protocol_id,
    );
    assert(acc0.payload_length == plen);
    let end = 4 + 10 + hlen;

    // string block at 16
    assert(fb[16] == INFO_KEY_VALUE);
    assert(fb.subrange(17, 19) =~= crate::wire::spec_u16_bytes(nstr as u16));
    crate::wire::lemma_u16_at_bytes(fb, 17, nstr as u16);
    assert(spec_u16_at(fb, 17) as int == nstr);
    assert(fb.subrange(19, 19 + strb.len() as int) =~= strb);
    lemma_parse_str_kvs_of_bytes(fb, 19, end, h.str_headers, acc0);
    let acc1 = TTHeaderView { str_headers: acc0.str_headers + h.str_headers, ..acc0 };
    assert(acc1.str_headers =~= h.str_headers);
    let j1 = 19 + strb.len() as int;
    assert(spec_parse_str_kvs(fb, 19, end, nstr, acc0) == Some((j1, acc1)));

    // integer block
    assert(fb[j1] == INFO_INT_KEY_VALUE) by {
        assert(fb[j1] == meta[j1 - 14]);
        assert(meta[5 + strb.len() as int] == INFO_INT_KEY_VALUE);
    }
    assert(fb.subrange(j1 + 1, j1 + 3) =~= crate::wire::spec_u16_bytes(nint as u16));
    crate::wire::lemma_u16_at_bytes(fb, j1 + 1, nint as u16);
    assert(spec_u16_at(fb, j1 + 1) as int == nint);
    let j2 = j1 + 3;
    assert(fb.subrange(j2, j2 + dense.len() as int) =~= dense);
    lemma_parse_dense_of_bytes(fb, j2, end, h.int_headers, 0, acc1);
    let acc2 = TTHeaderView {
        int_headers: Seq::new(
            INDEX_TABLE_SIZE as nat,
            |j: int|
                if 0 <= j && h.int_headers[j] is Some {
                    h.int_headers[j]
                } else {
                    acc1.int_headers[j]
                },
        ),
        ..acc1
    };
    assert(acc2.int_headers =~= h.int_headers);
    let j3 = j2 + dense.len() as int;
    assert(fb.subrange(j3, j3 + extb.len() as int) =~= extb);
    lemma_parse_ext_of_bytes(fb, j3, end, h.int_headers_ext, acc2);
    let acc3 = TTHeaderView {
        int_headers_ext: acc2.int_headers_ext + h.int_headers_ext,
        ..acc2
    };
    assert(acc3.int_headers_ext =~= h.int_headers_ext);
    let j4 = j3 + extb.len() as int;
    lemma_parse_int_kvs_split(
        fb,
        j2,
        end,
        spec_dense_count(h.int_headers, 0),
        h.int_headers_ext.len(),
        acc1,
    );
    assert(spec_parse_int_kvs(fb, j2, end, nint, acc1) == Some((j4, acc3)));

    // padding, then the end of the header area
    assert(j4 == 14 + m);
    assert forall|x: int| j4 <= x < end implies fb[x] == 0 by {
        assert(fb[x] == 0);
    }
    lemma_parse_info_padding(fb, j4, end, acc3);

    // stitch the info walk together
    assert(spec_parse_info(fb, j1, end, acc1) == spec_parse_info(fb, j4, end, acc3));
    assert(spec_parse_info(fb, 16, end, acc0) == spec_parse_info(fb, j1, end, acc1));
    assert(spec_parse_info(fb, 16, end, acc0) == Some(acc3));
    let h2 = TTHeaderView {
        header_length: (fb.len() - 14) as u32,
        payload_length: plen as u32,
        acl_token: None,
        ..h
    };
    assert(acc3 == h2);
    assert(spec_decode_header(total_length, fb, 4) == Some((h2, fb.len() as int)));
}

/// The round trip at the decoder's surface: running the envelope decoder
/// over the encoder's bytes yields a complete frame equal to the header
/// that went in (with the emitted header area as its length and no ACL
/// token).
pub proof fn lemma_ttheader_decoder_roundtrip(h: TTHeaderView)
    requires
        spec_encodable_header(h),
        10 + spec_meta_bytes(h).len() + spec_pad_len(spec_meta_bytes(h).len() as int)
            + h.payload_length <= u32::MAX,
        forall|j: int, k: int|
            0 <= j < k < h.str_headers.len() ==> h.str_headers[j].0 != h.str_headers[k].0,
        forall|j: int|
            0 <= j < h.int_headers_ext.len() ==> (#[trigger] h.int_headers_ext[j].0 as int)
                >= INDEX_TABLE_SIZE,
    ensures
        ({
            let fb = spec_ttheader_bytes(h);
            (TTHeaderDecoder).decode_spec(fb) == DecodedView::Complete(
                (TTHeaderView {
                    header_length: (fb.len() - 14) as u32,
                    acl_token: None,
                    ..h
                }),
            )
        }),
{
    let fb = spec_ttheader_bytes(h);
    lemma_ttheader_roundtrip(h, h.payload_length as int);
    lemma_ttheader_padding(h, h.payload_length as int);
    let meta = spec_meta_bytes(h);
    let m = meta.len() as int;
    let pad = spec_pad_len(m);
    let harea = m + pad;
    assert((harea % 4) == 0) by (nonlinear_arith)
        requires
            pad == (4 - (m % 4)) % 4,
            harea == m + pad,
            m >= 0,
    ;
    assert(fb[4] == 0x10 && fb[5] == 0x00);
    assert(fb.subrange(12, 14) =~= crate::wire::spec_u16_bytes((harea / 4) as u16));
    crate::wire::lemma_u16_at_bytes(fb, 12, (harea / 4) as u16);
    assert(spec_u16_at(fb, 12) * 4 == harea) by (nonlinear_arith)
        requires
            spec_u16_at(fb, 12) as int == harea / 4,
            harea % 4 == 0,
            harea >= 0,
    ;
}

/// A header string read is decided by the bytes below `end` alone.
proof fn lemma_read_str_stable(b1: Seq<u8>, b2: Seq<u8>, i: int, end: int)
    requires
        0 <= end <= b1.len(),
        end <= b2.len(),
        forall|x: int| 0 <= x < end ==> b1[x] == b2[x],
    ensures
        spec_read_str(b1, i, end) == spec_read_str(b2, i, end),
{
    if 0 <= i && i + 2 <= end {
        assert(spec_u16_at(b1, i) == spec_u16_at(b2, i));
        let l = spec_u16_at(b1, i) as int;
        if l <= MAX_HEADER_STRING_LENGTH && i + 2 + l <= end {
            assert(b1.subrange(i + 2, i + 2 + l) =~= b2.subrange(i + 2, i + 2 + l));
        }
    }
}

/// A string key-value run is decided by the bytes below `end` alone.
proof fn lemma_parse_str_kvs_stable(
    b1: Seq<u8>,
    b2: Seq<u8>,
    i: int,
    end: int,
    cnt: nat,
    acc: TTHeaderView,
)
    requires
        0 <= end <= b1.len(),
        end <= b2.len(),
        forall|x: int| 0 <= x < end ==> b1[x] == b2[x],
    ensures
        spec_parse_str_kvs(b1, i, end, cnt, acc) == spec_parse_str_kvs(b2, i, end, cnt, acc),
    decreases bounded_gap(i, end), 0nat, cnt,
{
    if cnt > 0 {
        lemma_read_str_stable(b1, b2, i, end);
        match spec_read_str(b1, i, end) {
            Some((j1, k)) => {
                lemma_read_str_stable(b1, b2, j1, end);
                match spec_read_str(b1, j1, end) {
                    Some((j2, v)) => {
                        let acc2 = TTHeaderView {
                            str_headers: spec_kv_insert(acc.str_headers, k, v),
                            ..acc
                        };
                        lemma_parse_str_kvs_stable(
                            b1,
                            b2,
                            if j2 > i {
                                j2
                            } else {
                                i + 1
                            },
                            end,
                            (cnt - 1) as nat,
                            acc2,
                        );
                    },
                    None => {},
                }
            },
            None => {},
        }
    }
}

/// An integer key-value run is decided by the bytes below `end` alone.
proof fn lemma_parse_int_kvs_stable(
    b1: Seq<u8>,
    b2: Seq<u8>,
    i: int,
    end: int,
    cnt: nat,
    acc: TTHeaderView,
)
    requires
        0 <= end <= b1.len(),
        end <= b2.len(),
        forall|x: int| 0 <= x < end ==> b1[x] == b2[x],
    ensures
        spec_parse_int_kvs(b1, i, end, cnt, acc) == spec_parse_int_kvs(b2, i, end, cnt, acc),
    decreases bounded_gap(i, end), 0nat, cnt,
{
    if cnt > 0 && 0 <= i && i + 2 <= end {
        assert(spec_u16_at(b1, i) == spec_u16_at(b2, i));
        let key = spec_u16_at(b1, i);
        lemma_read_str_stable(b1, b2, i + 2, end);
        match spec_read_str(b1, i + 2, end) {
            Some((j, v)) => {
                let acc2 = if (key as int) < INDEX_TABLE_SIZE {
                    TTHeaderView { int_headers: acc.int_headers.update(key as int, Some(v)), ..acc }
                } else {
                    TTHeaderView { int_headers_ext: acc.int_headers_ext.push((key, v)), ..acc }
                };
                lemma_parse_int_kvs_stable(
                    b1,
                    b2,
                    if j > i {
                        j
                    } else {
                        i + 1
                    },
                    end,
                    (cnt - 1) as nat,
                    acc2,
                );
            },
            None => {},
        }
    }
}

/// The whole info walk is decided by the bytes below `end` alone: what
/// follows the header area, in particular the payload, cannot change it.
proof fn lemma_parse_info_stable(b1: Seq<u8>, b2: Seq<u8>, i: int, end: int, acc: TTHeaderView)
    requires
        0 <= end <= b1.len(),
        end <= b2.len(),
        forall|x: int| 0 <= x < end ==> b1[x] == b2[x],
    ensures
        spec_parse_info(b1, i, end, acc) == spec_parse_info(b2, i, end, acc),
    decreases bounded_gap(i, end), 1nat, 0nat,
{
    if 0 <= i && i < end {
        let info_id = b1[i];
        if info_id == INFO_PADDING {
            lemma_parse_info_stable(b1, b2, i + 1, end, acc);
        } else if info_id == INFO_KEY_VALUE {
            if i + 3 <= end {
                let cnt = spec_u16_at(b1, i + 1);
                assert(spec_u16_at(b1, i + 1) == spec_u16_at(b2, i + 1));
                if !(cnt as int > MAX_NUM_HEADERS) {
                    lemma_parse_str_kvs_stable(b1, b2, i + 3, end, cnt as nat, acc);
                    match spec_parse_str_kvs(b1, i + 3, end, cnt as nat, acc) {
                        Some((j, acc2)) => {
                            lemma_parse_info_stable(
                                b1,
                                b2,
                                if j > i {
                                    j
                                } else {
                                    i + 1
                                },
                                end,
                                acc2,
                            );
                        },
                        None => {},
                    }
                }
            }
        } else if info_id == INFO_INT_KEY_VALUE {
            if i + 3 <= end {
                let cnt = spec_u16_at(b1, i + 1);
                assert(spec_u16_at(b1, i + 1) == spec_u16_at(b2, i + 1));
                lemma_parse_int_kvs_stable(b1, b2, i + 3, end, cnt as nat, acc);
                match spec_parse_int_kvs(b1, i + 3, end, cnt as nat, acc) {
                    Some((j, acc2)) => {
                        lemma_parse_info_stable(
                            b1,
                            b2,
                            if j > i {
                                j
                            } else {
                                i + 1
                            },
                            end,
                            acc2,
                        );
                    },
                    None => {},
                }
            }
        } else if info_id == ACL_TOKEN_KEY_VALUE {
            lemma_read_str_stable(b1, b2, i + 1, end);
            match spec_read_str(b1, i + 1, end) {
                Some((j, t)) => {
                    lemma_parse_info_stable(
                        b1,
                        b2,
                        if j > i {
                            j
                        } else {
                            i + 1
                        },
                        end,
                        (TTHeaderView { acl_token: Some(t), ..acc }),
                    );
                },
                None => {},
            }
        }
    }
}

/// Round trip of a whole frame over the identity payload codec: decoding
/// the frame encoder's bytes yields the header (with the emitted header
/// area as its length, the payload's size as its payload length, and no
/// ACL token) and the payload, byte for byte.
pub proof fn lemma_frame_roundtrip_raw(h: TTHeaderView, payload: Seq<u8>)
    requires
        spec_encodable_header(h),
        10 + spec_meta_bytes(h).len() + spec_pad_len(spec_meta_bytes(h).len() as int)
            + payload.len() <= u32::MAX,
        spec_meta_bytes(h).len() + spec_pad_len(spec_meta_bytes(h).len() as int) + 14
            + payload.len() <= usize::MAX,
        forall|j: int, k: int|
            0 <= j < k < h.str_headers.len() ==> h.str_headers[j].0 != h.str_headers[k].0,
        forall|j: int|
            0 <= j < h.int_headers_ext.len() ==> (#[trigger] h.int_headers_ext[j].0 as int)
                >= INDEX_TABLE_SIZE,
    ensures
        ({
            let hb = spec_ttheader_frame_bytes(h, payload.len() as int);
            (TTHeaderPayloadDecoder { payload_decoder: RawPayloadCodec }).decode_spec(hb + payload)
                == DecodedView::Complete(
                (TTHeaderPayloadView {
                    ttheader: (TTHeaderView {
                        header_length: (hb.len() - 14) as u32,
                        payload_length: payload.len() as u32,
                        acl_token: None,
                        ..h
                    }),
                    payload: Some(payload),
                }),
            )
        }),
{
    let plen = payload.len() as int;
    let hb = spec_ttheader_frame_bytes(h, plen);
    let fb = hb + payload;
    let meta = spec_meta_bytes(h);
    let m = meta.len() as int;
    let pad = spec_pad_len(m);
    let harea = m + pad;
    let total = 10 + harea + plen;
    lemma_ttheader_roundtrip(h, plen);
    lemma_ttheader_padding(h, plen);
    assert(hb.len() == 14 + harea);
    assert(fb.len() == total + 4);
    assert forall|x: int| 0 <= x < hb.len() implies fb[x] == hb[x] by {}
    assert(fb[4] == 0x10 && fb[5] == 0x00);
    assert(fb.subrange(0, 4) =~= hb.subrange(0, 4));
    assert(hb.subrange(0, 4) =~= crate::wire::spec_u32_bytes(total as u32));
    crate::wire::lemma_u32_at_bytes(fb, 0, total as u32);
    assert(spec_u32_at(fb, 0) == total);
    assert(spec_u32_at(hb, 0) == total) by {
        crate::wire::lemma_u32_at_bytes(hb, 0, total as u32);
    }
    // the header decodes the same with the payload appended
    let end = 4 + 10 + harea;
    assert(spec_parse_info(fb, 16, end, spec_empty_header(
        harea as u32,
        plen as u32,
        h.seq_id,
        h.flags,
        h.protocol_id,
    )) == spec_parse_info(hb, 16, end, spec_empty_header(
        harea as u32,
        plen as u32,
        h.seq_id,
        h.flags,
        h.protocol_id,
    ))) by {
        lemma_parse_info_stable(hb, fb, 16, end, spec_empty_header(
            harea as u32,
            plen as u32,
            h.seq_id,
            h.flags,
            h.protocol_id,
        ));
    }
    assert(fb.subrange(6, 8) =~= crate::wire::spec_u16_bytes(h.flags));
    crate::wire::lemma_u16_at_bytes(fb, 6, h.flags);
    assert(fb.subrange(8, 12) =~= crate::wire::spec_i32_bytes(h.seq_id));
    crate::wire::lemma_i32_at_bytes(fb, 8, h.seq_id);
    assert(fb.subrange(12, 14) =~= crate::wire::spec_u16_bytes((harea / 4) as u16));
    crate::wire::lemma_u16_at_bytes(fb, 12, (harea / 4) as u16);
    assert((harea % 4) == 0) by (nonlinear_arith)
        requires
            pad == (4 - (m % 4)) % 4,
            harea == m + pad,
            m >= 0,
    ;
    let hsize = spec_u16_at(fb, 12) as int;
    assert(hsize == harea / 4);
    assert(hsize * 4 == harea) by (nonlinear_arith)
        requires
            hsize == harea / 4,
            harea % 4 == 0,
            harea >= 0,
    ;
    assert(hsize >= 1);
    assert(fb[14] == h.protocol_id.spec_value());
    assert(ProtocolId::spec_valid_value(h.protocol_id.spec_value()));
    assert(ProtocolId::spec_from_u8(h.protocol_id.spec_value()) == h.protocol_id);
    let h2 = TTHeaderView {
        header_length: (hb.len() - 14) as u32,
        payload_length: plen as u32,
        acl_token: None,
        ..h
    };
    assert(spec_decode_header(total as u32, fb, 4) == Some((h2, hb.len() as int)));
    assert(fb.subrange(hb.len() as int, total + 4) =~= payload);
}

/// Every string a header holds respects the per-string cap: keys and
/// values of the string metadata, dense and spilled integer values, and
/// the ACL token.
pub open spec fn spec_header_strings_bounded(h: TTHeaderView) -> bool {
    &&& forall|j: int|
        0 <= j < h.str_headers.len() ==> #[trigger] h.str_headers[j].0.len()
            <= MAX_HEADER_STRING_LENGTH && h.str_headers[j].1.len() <= MAX_HEADER_STRING_LENGTH
    &&& forall|j: int|
        0 <= j < h.int_headers.len() ==> (#[trigger] h.int_headers[j] matches Some(v) ==> v.len()
            <= MAX_HEADER_STRING_LENGTH)
    &&& forall|j: int|
        0 <= j < h.int_headers_ext.len() ==> #[trigger] h.int_headers_ext[j].1.len()
            <= MAX_HEADER_STRING_LENGTH
    &&& (h.acl_token matches Some(t) ==> t.len() <= MAX_HEADER_STRING_LENGTH)
}

/// Inserting a capped pair keeps the list capped.
proof fn lemma_kv_insert_bounded(s: Seq<(Seq<u8>, Seq<u8>)>, k: Seq<u8>, v: Seq<u8>)
    requires
        forall|j: int|
            0 <= j < s.len() ==> #[trigger] s[j].0.len() <= MAX_HEADER_STRING_LENGTH && s[j].1.len()
                <= MAX_HEADER_STRING_LENGTH,
        k.len() <= MAX_HEADER_STRING_LENGTH,
        v.len() <= MAX_HEADER_STRING_LENGTH,
    ensures
        forall|j: int|
            0 <= j < spec_kv_insert(s, k, v).len() ==> #[trigger] spec_kv_insert(s, k, v)[j].0.len()
                <= MAX_HEADER_STRING_LENGTH && spec_kv_insert(s, k, v)[j].1.len()
                <= MAX_HEADER_STRING_LENGTH,
    decreases s.len(),
{
    if s.len() != 0 && s[0].0 != k {
        assert forall|j: int|
            0 <= j < s.drop_first().len() implies #[trigger] s.drop_first()[j].0.len()
            <= MAX_HEADER_STRING_LENGTH && s.drop_first()[j].1.len()
            <= MAX_HEADER_STRING_LENGTH by {
            assert(s.drop_first()[j] == s[j + 1]);
        }
        lemma_kv_insert_bounded(s.drop_first(), k, v);
        assert forall|j: int|
            0 <= j < spec_kv_insert(s, k, v).len() implies #[trigger] spec_kv_insert(
            s,
            k,
            v,
        )[j].0.len() <= MAX_HEADER_STRING_LENGTH && spec_kv_insert(s, k, v)[j].1.len()
            <= MAX_HEADER_STRING_LENGTH by {
            if j > 0 {
                assert(spec_kv_insert(s, k, v)[j] == spec_kv_insert(s.drop_first(), k, v)[j - 1]);
            }
        }
    }
}

/// A string key-value run only materializes capped strings.
proof fn lemma_parse_str_kvs_bounded(
    b: Seq<u8>,
    i: int,
    end: int,
    cnt: nat,
    acc: TTHeaderView,
)
    requires
        end <= b.len(),
        spec_header_strings_bounded(acc),
    ensures
        (match spec_parse_str_kvs(b, i, end, cnt, acc) {
            Some((_, h)) => spec_header_strings_bounded(h) && h.int_headers.len()
                == acc.int_headers.len(),
            None => true,
        }),
    decreases bounded_gap(i, end), 0nat, cnt,
{
    if cnt > 0 {
        match spec_read_str(b, i, end) {
            Some((j1, k)) => {
                match spec_read_str(b, j1, end) {
                    Some((j2, v)) => {
                        assert(k.len() <= MAX_HEADER_STRING_LENGTH) by {
                            assert(k == b.subrange(i + 2, i + 2 + spec_u16_at(b, i) as int));
                        }
                        assert(v.len() <= MAX_HEADER_STRING_LENGTH) by {
                            assert(v == b.subrange(j1 + 2, j1 + 2 + spec_u16_at(b, j1) as int));
                        }
                        lemma_kv_insert_bounded(acc.str_headers, k, v);
                        let acc2 = TTHeaderView {
                            str_headers: spec_kv_insert(acc.str_headers, k, v),
                            ..acc
                        };
                        lemma_parse_str_kvs_bounded(
                            b,
                            if j2 > i {
                                j2
                            } else {
                                i + 1
                            },
                            end,
                            (cnt - 1) as nat,
                            acc2,
                        );
                    },
                    None => {},
                }
            },
            None => {},
        }
    }
}

/// An integer key-value run only materializes capped strings.
proof fn lemma_parse_int_kvs_bounded(
    b: Seq<u8>,
    i: int,
    end: int,
    cnt: nat,
    acc: TTHeaderView,
)
    requires
        end <= b.len(),
        acc.int_headers.len() == INDEX_TABLE_SIZE,
        spec_header_strings_bounded(acc),
    ensures
        (match spec_parse_int_kvs(b, i, end, cnt, acc) {
            Some((_, h)) => spec_header_strings_bounded(h) && h.int_headers.len()
                == INDEX_TABLE_SIZE,
            None => true,
        }),
    decreases bounded_gap(i, end), 0nat, cnt,
{
    if cnt > 0 && 0 <= i && i + 2 <= end {
        let key = spec_u16_at(b, i);
        match spec_read_str(b, i + 2, end) {
            Some((j, v)) => {
                assert(v.len() <= MAX_HEADER_STRING_LENGTH) by {
                    assert(v == b.subrange(i + 4, i + 4 + spec_u16_at(b, i + 2) as int));
                }
                let acc2 = if (key as int) < INDEX_TABLE_SIZE {
                    TTHeaderView { int_headers: acc.int_headers.update(key as int, Some(v)), ..acc }
                } else {
                    TTHeaderView { int_headers_ext: acc.int_headers_ext.push((key, v)), ..acc }
                };
                assert forall|x: int|
                    0 <= x < acc2.int_headers.len() implies (#[trigger] acc2.int_headers[x] matches
                Some(u) ==> u.len() <= MAX_HEADER_STRING_LENGTH) by {
                    if !((key as int) < INDEX_TABLE_SIZE && x == key as int) {
                        assert(acc2.int_headers[x] == acc.int_headers[x]);
                    }
                }
                assert forall|x: int|
                    0 <= x < acc2.int_headers_ext.len() implies #[trigger] acc2.int_headers_ext[x].1.len()
                    <= MAX_HEADER_STRING_LENGTH by {
                    if x < acc.int_headers_ext.len() {
                        assert(acc2.int_headers_ext[x] == acc.int_headers_ext[x]);
                    }
                }
                assert(spec_header_strings_bounded(acc2));
                lemma_parse_int_kvs_bounded(
                    b,
                    if j > i {
                        j
                    } else {
                        i + 1
                    },
                    end,
                    (cnt - 1) as nat,
                    acc2,
                );
            },
            None => {},
        }
    }
}

/// The whole info walk only materializes capped strings: whatever the peer
/// declares, any record it manages to get accepted obeys the per-string
/// cap.
proof fn lemma_parse_info_bounded(b: Seq<u8>, i: int, end: int, acc: TTHeaderView)
    requires
        end <= b.len(),
        acc.int_headers.len() == INDEX_TABLE_SIZE,
        spec_header_strings_bounded(acc),
    ensures
        (match spec_parse_info(b, i, end, acc) {
            Some(h) => spec_header_strings_bounded(h),
            None => true,
        }),
    decreases bounded_gap(i, end), 1nat, 0nat,
{
    if 0 <= i && i < end {
        let info_id = b[i];
        if info_id == INFO_PADDING {
            lemma_parse_info_bounded(b, i + 1, end, acc);
        } else if info_id == INFO_KEY_VALUE {
            if i + 3 <= end {
                let cnt = spec_u16_at(b, i + 1);
                if !(cnt as int > MAX_NUM_HEADERS) {
                    lemma_parse_str_kvs_bounded(b, i + 3, end, cnt as nat, acc);
                    match spec_parse_str_kvs(b, i + 3, end, cnt as nat, acc) {
                        Some((j, acc2)) => {
                            lemma_parse_info_bounded(
                                b,
                                if j > i {
                                    j
                                } else {
                                    i + 1
                                },
                                end,
                                acc2,
                            );
                        },
                        None => {},
                    }
                }
            }
        } else if info_id == INFO_INT_KEY_VALUE {
            if i + 3 <= end {
                let cnt = spec_u16_at(b, i + 1);
                lemma_parse_int_kvs_bounded(b, i + 3, end, cnt as nat, acc);
                match spec_parse_int_kvs(b, i + 3, end, cnt as nat, acc) {
                    Some((j, acc2)) => {
                        lemma_parse_info_bounded(
                            b,
                            if j > i {
                                j
                            } else {
                                i + 1
                            },
                            end,
                            acc2,
                        );
                    },
                    None => {},
                }
            }
        } else if info_id == ACL_TOKEN_KEY_VALUE {
            match spec_read_str(b, i + 1, end) {
                Some((j, t)) => {
                    lemma_parse_info_bounded(
                        b,
                        if j > i {
                            j
                        } else {
                            i + 1
                        },
                        end,
                        (TTHeaderView { acl_token: Some(t), ..acc }),
                    );
                },
                None => {},
            }
        }
    }
}

/// The cap law of the header decoder: whenever decoding succeeds, every
/// string it materialized — string keys and values, integer-keyed values,
/// the ACL token — is at most the per-string cap long.  Over-cap records
/// never survive the walk.
pub proof fn lemma_decoded_header_strings_bounded(total_length: u32, b: Seq<u8>, p: int)
    ensures
        (match spec_decode_header(total_length, b, p) {
            Some((h, _)) => spec_header_strings_bounded(h),
            None => true,
        }),
{
    if 0 <= p && p + 10 <= b.len() {
        let hsize = spec_u16_at(b, p + 8) as int;
        let hlen = hsize * 4;
        if hsize >= 1 && p + 10 + hlen <= b.len() && hlen + 10 <= total_length {
            let pid = if ProtocolId::spec_valid_value(b[p + 10]) {
                ProtocolId::spec_from_u8(b[p + 10])
            } else {
                ProtocolId::Binary
            };
            let acc0 = spec_empty_header(
                hlen as u32,
                (total_length - hlen - 10) as u32,
                spec_i32_at(b, p + 4),
                spec_u16_at(b, p + 2),
                pid,
            );
            assert(spec_header_strings_bounded(acc0));
            lemma_parse_info_bounded(b, p + 12, p + 10 + hlen, acc0);
        }
    }
}

} // verus!
