//! Batch requests: the batch kind, the queries of a batch, and the
//! `BATCH` frame builder.

use vstd::prelude::*;
use crate::frame::{Flag, Frame, Opcode, StreamIdAllocator, Version, next_stream_counter};
use crate::query::{
    query_flags_byte, query_values_bytes, query_values_len, query_values_wf, Consistency,
    consistency_value, QueryFlags, QueryValues,
};
use crate::types::{
    be_bytes, be_ibytes, cbytes_short_bytes, cstring_long_bytes, to_u_short, to_bigint,
    CBytesShort, CStringLong,
};

verus! {

/// The kind of a batch.
#[derive(Debug, Clone, Copy, PartialEq, Eq, Structural)]
pub enum BatchType {
    /// The batch is logged: the whole batch is applied atomically.
    Logged,
    /// The batch is unlogged: no atomicity across partitions.
    Unlogged,
    /// The batch groups counter updates; other statements are rejected.
    Counter,
}

/// The wire byte of a batch kind.
pub open spec fn batch_type_byte(t: BatchType) -> u8 {
    match t {
        BatchType::Logged => 0,
        BatchType::Unlogged => 1,
        BatchType::Counter => 2,
    }
}

impl BatchType {
    /// The batch kind with wire byte `byte`; bytes above two name no
    /// kind and must not reach this conversion.
    pub fn from_byte(byte: u8) -> (r: BatchType)
        requires
            byte <= 2,
        ensures
            batch_type_byte(r) == byte,
    {
        match byte {
            0 => BatchType::Logged,
            1 => BatchType::Unlogged,
            _ => BatchType::Counter,
        }
    }

    /// The wire byte of this batch kind.
    pub fn as_byte(&self) -> (r: u8)
        ensures
            r == batch_type_byte(*self),
    {
        match *self {
            BatchType::Logged => 0,
            BatchType::Unlogged => 1,
            BatchType::Counter => 2,
        }
    }
}

/// A prepared statement as the client holds it: the id handed out by the
/// server on `PREPARE`.
#[derive(Debug, Clone)]
pub struct PreparedQuery {
    /// The server-issued id of the prepared statement.
    pub id: CBytesShort,
}

/// Either the id of a prepared query or a query string.
#[derive(Debug, Clone)]
pub enum BatchQuerySubj {
    PreparedId(PreparedQuery),
    QueryString(CStringLong),
}

/// One query of a batch: a prepared id or a string, plus bound values.
#[derive(Debug, Clone)]
pub struct BatchQuery {
    /// Whether the query is prepared.
    pub is_prepared: bool,
    /// The id of a prepared query, or the query string itself.
    pub subject: BatchQuerySubj,
    /// The values bound to the query. Named values are specified by the
    /// protocol but rejected by servers, and are never sent.
    pub values: QueryValues,
}

/// Wire form of one batched query: a kind byte, the prepared id or the
/// query string, the value count, and the values.
pub open spec fn batch_query_bytes(q: BatchQuery) -> Seq<u8> {
    (if q.is_prepared {
        seq![1u8]
    } else {
        seq![0u8]
    }) + (match q.subject {
        BatchQuerySubj::PreparedId(p) => cbytes_short_bytes(p.id@),
        BatchQuerySubj::QueryString(s) => cstring_long_bytes(s@),
    }) + be_bytes(query_values_len(q.values), 2) + query_values_bytes(q.values)
}

/// The batched query fits its length fields, and its kind flag agrees
/// with its subject.
pub open spec fn batch_query_wf(q: BatchQuery) -> bool {
    &&& query_values_wf(q.values)
    &&& query_values_len(q.values) <= u16::MAX
    &&& (match q.subject {
        BatchQuerySubj::PreparedId(p) => p.id@ matches Some(b) && b.len() <= i16::MAX,
        BatchQuerySubj::QueryString(s) => vstd::utf8::encode_utf8(s@).len() <= i32::MAX,
    })
    &&& (q.is_prepared <==> q.subject is PreparedId)
}

impl BatchQuery {
    /// Writes the kind byte, the subject, and the counted values.
    pub fn as_bytes(&self) -> (r: Vec<u8>)
        requires
            batch_query_wf(*self),
        ensures
            r@ == batch_query_bytes(*self),
    {
        let mut bytes: Vec<u8> = Vec::new();
        if self.is_prepared {
            bytes.push(1);
        } else {
            bytes.push(0);
        }
        match self.subject {
            BatchQuerySubj::PreparedId(ref s) => {
                let mut b = s.id.as_bytes();
                bytes.append(&mut b);
            },
            BatchQuerySubj::QueryString(ref s) => {
                let mut b = s.as_bytes();
                bytes.append(&mut b);
            },
        }
        let mut count = to_u_short(self.values.len() as u16);
        bytes.append(&mut count);
        let mut vbytes = self.values.as_bytes();
        bytes.append(&mut vbytes);
        proof {
            assert(bytes@ =~= batch_query_bytes(*self));
        }
        bytes
    }
}

/// Concatenated wire forms of the queries of a batch.
pub open spec fn batch_queries_bytes(qs: Seq<BatchQuery>) -> Seq<u8>
    decreases qs.len(),
{
    if qs.len() == 0 {
        seq![]
    } else {
        batch_queries_bytes(qs.drop_last()) + batch_query_bytes(qs.last())
    }
}

/// Body of a `BATCH` request.
#[derive(Debug, Clone)]
pub struct BodyReqBatch {
    pub batch_type: BatchType,
    pub queries: Vec<BatchQuery>,
    pub consistency: Consistency,
    /// Only the serial-consistency and default-timestamp flags are
    /// meaningful here; the named-values flag is rejected by servers and
    /// is never sent.
    pub query_flags: Vec<QueryFlags>,
    pub serial_consistency: Option<Consistency>,
    pub timestamp: Option<i64>,
}

/// Wire form of a `BATCH` body: kind, counted queries, consistency, flag
/// byte, then the optional sections the flags announce.
pub open spec fn body_req_batch_bytes(b: BodyReqBatch) -> Seq<u8> {
    seq![batch_type_byte(b.batch_type)] + be_bytes(b.queries@.len(), 2) + batch_queries_bytes(
        b.queries@,
    ) + be_bytes(consistency_value(b.consistency) as nat, 2) + seq![
        query_flags_byte(b.query_flags@),
    ] + (match b.serial_consistency {
        Some(c) => be_bytes(consistency_value(c) as nat, 2),
        None => seq![],
    }) + (match b.timestamp {
        Some(t) => be_ibytes(t as int, 8),
        None => seq![],
    })
}

/// Every query of the batch fits the wire, and the count fits its field.
pub open spec fn body_req_batch_wf(b: BodyReqBatch) -> bool {
    &&& b.queries@.len() <= u16::MAX
    &&& (forall|i: int| 0 <= i < b.queries@.len() ==> batch_query_wf(#[trigger] b.queries@[i]))
}

impl BodyReqBatch {
    /// Writes the whole batch body.
    pub fn as_bytes(&self) -> (r: Vec<u8>)
        requires
            body_req_batch_wf(*self),
        ensures
            r@ == body_req_batch_bytes(*self),
    {
        let mut bytes: Vec<u8> = Vec::new();
        bytes.push(self.batch_type.as_byte());
        let n = self.queries.len();
        let mut count = to_u_short(n as u16);
        bytes.append(&mut count);
        let ghost head = seq![batch_type_byte(self.batch_type)] + be_bytes(n as nat, 2);
        let mut i: usize = 0;
        proof {
            assert(batch_queries_bytes(self.queries@.subrange(0, 0)) =~= Seq::<u8>::empty());
            assert(bytes@ =~= head + batch_queries_bytes(self.queries@.subrange(0, 0)));
        }
        while i < n
            invariant
                i <= n,
                n == self.queries@.len(),
                n <= u16::MAX,
                forall|k: int| 0 <= k < self.queries@.len() ==> batch_query_wf(
                    #[trigger] self.queries@[k],
                ),
                bytes@ == head + batch_queries_bytes(self.queries@.subrange(0, i as int)),
            decreases n - i,
        {
            let mut piece = self.queries[i].as_bytes();
            proof {
                let pre = self.queries@.subrange(0, i as int);
                let ext = self.queries@.subrange(0, i + 1);
                assert(ext.drop_last() =~= pre);
                assert(ext.last() == self.queries@[i as int]);
                assert((head + batch_queries_bytes(pre)) + batch_query_bytes(
                    self.queries@[i as int],
                ) =~= head + batch_queries_bytes(ext));
            }
            bytes.append(&mut piece);
            i = i + 1;
        }
        proof {
            assert(self.queries@.subrange(0, n as int) =~= self.queries@);
        }
        let mut cons = self.consistency.as_bytes();
        bytes.append(&mut cons);
        bytes.push(QueryFlags::many_to_byte(self.query_flags.as_slice()));
        match self.serial_consistency {
            Some(ref c) => {
                let mut b = c.as_bytes();
                bytes.append(&mut b);
            },
            None => {},
        }
        match self.timestamp {
            Some(t) => {
                let mut b = to_bigint(t);
                bytes.append(&mut b);
            },
            None => {},
        }
        proof {
            assert(bytes@ =~= body_req_batch_bytes(*self));
        }
        bytes
    }
}

impl Frame {
    /// Builds a `BATCH` request frame from a batch body.
    pub fn new_req_batch(
        query: BodyReqBatch,
        flags: Vec<Flag>,
        alloc: &mut StreamIdAllocator,
    ) -> (r: Frame)
        requires
            old(alloc).inv(),
            body_req_batch_wf(query),
        ensures
            final(alloc).inv(),
            final(alloc).counter() == next_stream_counter(old(alloc).counter()),
            r@.version == Version::Request,
            r@.opcode == Opcode::Batch,
            r@.flags == flags@,
            r@.stream == old(alloc).counter(),
            r@.tracing_id is None,
            r@.warnings.len() == 0,
            r@.body == body_req_batch_bytes(query),
    {
        let body = query.as_bytes();
        let r = Frame::new(Version::Request, flags, Opcode::Batch, body, None, Vec::new(), alloc);
        proof {
            assert(r@.warnings =~= Seq::<Seq<char>>::empty());
        }
        r
    }
}

} // verus!
