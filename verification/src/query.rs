//! Query requests: consistency levels, query flags, bound values, query
//! parameters, and the `QUERY` frame builder.

use vstd::prelude::*;
use crate::frame::{Flag, Frame, Opcode, StreamIdAllocator, Version, next_stream_counter};
use crate::types::{
    be_bytes, be_ibytes, cbytes_bytes, cstring_bytes, cstring_long_bytes, lemma_pow256_8, to_int,
    to_u_short, to_bigint, CBytes, CStringLong,
};

verus! {

/// A replication consistency level, with its wire short.
#[derive(Debug, Clone, Copy, PartialEq, Eq, Structural)]
pub enum Consistency {
    Any,
    One,
    Two,
    Three,
    Quorum,
    All,
    LocalQuorum,
    EachQuorum,
    Serial,
    LocalSerial,
    LocalOne,
}

/// The wire short of a consistency level.
pub open spec fn consistency_value(c: Consistency) -> u16 {
    match c {
        Consistency::Any => 0x00,
        Consistency::One => 0x01,
        Consistency::Two => 0x02,
        Consistency::Three => 0x03,
        Consistency::Quorum => 0x04,
        Consistency::All => 0x05,
        Consistency::LocalQuorum => 0x06,
        Consistency::EachQuorum => 0x07,
        Consistency::Serial => 0x08,
        Consistency::LocalSerial => 0x09,
        Consistency::LocalOne => 0x0A,
    }
}

/// The consistency level encoded by a wire short, if it is in the table.
pub open spec fn spec_consistency_of(v: int) -> Option<Consistency> {
    if v == 0x00 {
        Some(Consistency::Any)
    } else if v == 0x01 {
        Some(Consistency::One)
    } else if v == 0x02 {
        Some(Consistency::Two)
    } else if v == 0x03 {
        Some(Consistency::Three)
    } else if v == 0x04 {
        Some(Consistency::Quorum)
    } else if v == 0x05 {
        Some(Consistency::All)
    } else if v == 0x06 {
        Some(Consistency::LocalQuorum)
    } else if v == 0x07 {
        Some(Consistency::EachQuorum)
    } else if v == 0x08 {
        Some(Consistency::Serial)
    } else if v == 0x09 {
        Some(Consistency::LocalSerial)
    } else if v == 0x0A {
        Some(Consistency::LocalOne)
    } else {
        None
    }
}

impl Consistency {
    /// Writes the two-byte wire short of this level.
    pub fn as_bytes(&self) -> (r: Vec<u8>)
        ensures
            r@ == be_bytes(consistency_value(*self) as nat, 2),
    {
        let v: u16 = match self {
            Consistency::Any => 0x00,
            Consistency::One => 0x01,
            Consistency::Two => 0x02,
            Consistency::Three => 0x03,
            Consistency::Quorum => 0x04,
            Consistency::All => 0x05,
            Consistency::LocalQuorum => 0x06,
            Consistency::EachQuorum => 0x07,
            Consistency::Serial => 0x08,
            Consistency::LocalSerial => 0x09,
            Consistency::LocalOne => 0x0A,
        };
        to_u_short(v)
    }

    /// The level with wire short `v`, or nothing for an unknown short.
    pub fn from_short(v: u16) -> (r: Option<Consistency>)
        ensures
            r == spec_consistency_of(v as int),
    {
        match v {
            0x00 => Some(Consistency::Any),
            0x01 => Some(Consistency::One),
            0x02 => Some(Consistency::Two),
            0x03 => Some(Consistency::Three),
            0x04 => Some(Consistency::Quorum),
            0x05 => Some(Consistency::All),
            0x06 => Some(Consistency::LocalQuorum),
            0x07 => Some(Consistency::EachQuorum),
            0x08 => Some(Consistency::Serial),
            0x09 => Some(Consistency::LocalSerial),
            0x0A => Some(Consistency::LocalOne),
            _ => None,
        }
    }
}

/// A flag of the query-parameters bitmask.
#[derive(Debug, Clone, Copy, PartialEq, Eq, Structural)]
pub enum QueryFlags {
    Value,
    SkipMetadata,
    PageSize,
    WithPagingState,
    WithSerialConsistency,
    WithDefaultTimestamp,
    WithNamesForValues,
}

/// The wire bit of a query flag.
pub open spec fn query_flag_byte(f: QueryFlags) -> u8 {
    match f {
        QueryFlags::Value => 0x01,
        QueryFlags::SkipMetadata => 0x02,
        QueryFlags::PageSize => 0x04,
        QueryFlags::WithPagingState => 0x08,
        QueryFlags::WithSerialConsistency => 0x10,
        QueryFlags::WithDefaultTimestamp => 0x20,
        QueryFlags::WithNamesForValues => 0x40,
    }
}

/// The bitmask carrying every query flag of the list.
pub open spec fn query_flags_byte(fs: Seq<QueryFlags>) -> u8
    decreases fs.len(),
{
    if fs.len() == 0 {
        0
    } else {
        query_flags_byte(fs.drop_last()) | query_flag_byte(fs.last())
    }
}

impl QueryFlags {
    /// The wire bit of this query flag.
    pub fn as_byte(&self) -> (r: u8)
        ensures
            r == query_flag_byte(*self),
    {
        match self {
            QueryFlags::Value => 0x01,
            QueryFlags::SkipMetadata => 0x02,
            QueryFlags::PageSize => 0x04,
            QueryFlags::WithPagingState => 0x08,
            QueryFlags::WithSerialConsistency => 0x10,
            QueryFlags::WithDefaultTimestamp => 0x20,
            QueryFlags::WithNamesForValues => 0x40,
        }
    }

    /// Folds a series of query flags into the wire bitmask.
    pub fn many_to_byte(flags: &[QueryFlags]) -> (r: u8)
        ensures
            r == query_flags_byte(flags@),
    {
        let n = flags.len();
        let mut acc: u8 = 0;
        let mut i: usize = 0;
        proof {
            assert(flags@.subrange(0, 0) =~= Seq::<QueryFlags>::empty());
        }
        while i < n
            invariant
                i <= n,
                n == flags@.len(),
                acc == query_flags_byte(flags@.subrange(0, i as int)),
            decreases n - i,
        {
            proof {
                assert(flags@.subrange(0, i + 1).drop_last() =~= flags@.subrange(0, i as int));
                assert(flags@.subrange(0, i + 1).last() == flags@[i as int]);
            }
            acc = acc | flags[i].as_byte();
            i = i + 1;
        }
        proof {
            assert(flags@.subrange(0, n as int) =~= flags@);
        }
        acc
    }
}

/// A single bound value: bytes, an explicit null, or a not-set marker.
#[derive(Debug, Clone, PartialEq, Eq)]
pub enum Value {
    Normal(Vec<u8>),
    Null,
    NotSet,
}

/// Wire form of one bound value: four-byte length and bytes, or the
/// negative lengths -1 (null) and -2 (not set).
pub open spec fn value_bytes(v: Value) -> Seq<u8> {
    match v {
        Value::Normal(b) => be_bytes(b@.len(), 4) + b@,
        Value::Null => seq![0xFFu8, 0xFFu8, 0xFFu8, 0xFFu8],
        Value::NotSet => seq![0xFFu8, 0xFFu8, 0xFFu8, 0xFEu8],
    }
}

/// The value's payload fits its four-byte length field.
pub open spec fn value_wf(v: Value) -> bool {
    v matches Value::Normal(b) ==> b@.len() <= i32::MAX
}

impl Value {
    /// Writes the four-byte length (or a negative marker) and the bytes.
    pub fn as_bytes(&self) -> (r: Vec<u8>)
        requires
            value_wf(*self),
        ensures
            r@ == value_bytes(*self),
    {
        match self {
            Value::Normal(b) => {
                let mut v = crate::types::to_u(b.len() as u32);
                v.extend_from_slice(b.as_slice());
                v
            },
            Value::Null => {
                let v = to_int(-1);
                proof {
                    lemma_minus_one_bytes();
                    assert(v@ =~= value_bytes(*self));
                }
                v
            },
            Value::NotSet => {
                let v = to_int(-2);
                proof {
                    lemma_minus_two_bytes();
                    assert(v@ =~= value_bytes(*self));
                }
                v
            },
        }
    }
}

/// The four-byte two's complement of -1 is four 0xFF bytes.
proof fn lemma_minus_one_bytes()
    ensures
        be_ibytes(-1, 4) =~= seq![0xFFu8, 0xFFu8, 0xFFu8, 0xFFu8],
{
    lemma_pow256_8();
    vstd::arithmetic::div_mod::lemma_mod_add_multiples_vanish(-1, 0x1_0000_0000);
    vstd::arithmetic::div_mod::lemma_small_mod(0xFFFF_FFFF as nat, 0x1_0000_0000 as nat);
    assert(be_bytes(0xFFFF_FFFF as nat, 4) =~= seq![0xFFu8, 0xFFu8, 0xFFu8, 0xFFu8]) by {
        reveal_with_fuel(be_bytes, 5);
    }
}

/// The four-byte two's complement of -2 ends in 0xFE.
proof fn lemma_minus_two_bytes()
    ensures
        be_ibytes(-2, 4) =~= seq![0xFFu8, 0xFFu8, 0xFFu8, 0xFEu8],
{
    lemma_pow256_8();
    vstd::arithmetic::div_mod::lemma_mod_add_multiples_vanish(-2, 0x1_0000_0000);
    vstd::arithmetic::div_mod::lemma_small_mod(0xFFFF_FFFE as nat, 0x1_0000_0000 as nat);
    assert(be_bytes(0xFFFF_FFFE as nat, 4) =~= seq![0xFFu8, 0xFFu8, 0xFFu8, 0xFEu8]) by {
        reveal_with_fuel(be_bytes, 5);
    }
}

/// Concatenated wire forms of a run of positional values.
pub open spec fn values_bytes(vs: Seq<Value>) -> Seq<u8>
    decreases vs.len(),
{
    if vs.len() == 0 {
        seq![]
    } else {
        values_bytes(vs.drop_last()) + value_bytes(vs.last())
    }
}

/// Concatenated wire forms of a run of named values.
pub open spec fn named_values_bytes(vs: Seq<(String, Value)>) -> Seq<u8>
    decreases vs.len(),
{
    if vs.len() == 0 {
        seq![]
    } else {
        named_values_bytes(vs.drop_last()) + cstring_bytes(vs.last().0@) + value_bytes(
            vs.last().1,
        )
    }
}

/// The bound values of a query: positional, or named (the named form is
/// specified by the protocol but rejected by servers, and is never sent).
#[derive(Debug, Clone, PartialEq, Eq)]
pub enum QueryValues {
    SimpleValues(Vec<Value>),
    NamedValues(Vec<(String, Value)>),
}

/// How many values are bound.
pub open spec fn query_values_len(qv: QueryValues) -> nat {
    match qv {
        QueryValues::SimpleValues(vs) => vs@.len(),
        QueryValues::NamedValues(vs) => vs@.len(),
    }
}

/// Wire form of the bound values, without their leading count.
pub open spec fn query_values_bytes(qv: QueryValues) -> Seq<u8> {
    match qv {
        QueryValues::SimpleValues(vs) => values_bytes(vs@),
        QueryValues::NamedValues(vs) => named_values_bytes(vs@),
    }
}

/// Every value (and name) fits its length field.
pub open spec fn query_values_wf(qv: QueryValues) -> bool {
    match qv {
        QueryValues::SimpleValues(vs) => forall|i: int|
            0 <= i < vs@.len() ==> value_wf(#[trigger] vs@[i]),
        QueryValues::NamedValues(vs) => forall|i: int|
            0 <= i < vs@.len() ==> value_wf(#[trigger] vs@[i].1) && vstd::utf8::encode_utf8(
                vs@[i].0@,
            ).len() <= u16::MAX,
    }
}

impl QueryValues {
    /// How many values are bound.
    pub fn len(&self) -> (r: usize)
        ensures
            r as nat == query_values_len(*self),
    {
        match self {
            QueryValues::SimpleValues(vs) => vs.len(),
            QueryValues::NamedValues(vs) => vs.len(),
        }
    }

    /// Writes every value in order, without the leading count.
    pub fn as_bytes(&self) -> (r: Vec<u8>)
        requires
            query_values_wf(*self),
        ensures
            r@ == query_values_bytes(*self),
    {
        let mut out: Vec<u8> = Vec::new();
        match self {
            QueryValues::SimpleValues(vs) => {
                let n = vs.len();
                let mut i: usize = 0;
                proof {
                    assert(out@ =~= values_bytes(vs@.subrange(0, 0)));
                }
                while i < n
                    invariant
                        i <= n,
                        n == vs@.len(),
                        forall|k: int| 0 <= k < vs@.len() ==> value_wf(#[trigger] vs@[k]),
                        out@ == values_bytes(vs@.subrange(0, i as int)),
                    decreases n - i,
                {
                    let mut piece = vs[i].as_bytes();
                    proof {
                        let pre = vs@.subrange(0, i as int);
                        let ext = vs@.subrange(0, i + 1);
                        assert(ext.drop_last() =~= pre);
                        assert(ext.last() == vs@[i as int]);
                        assert(values_bytes(pre) + value_bytes(vs@[i as int]) =~= values_bytes(
                            ext,
                        ));
                    }
                    out.append(&mut piece);
                    i = i + 1;
                }
                proof {
                    assert(vs@.subrange(0, n as int) =~= vs@);
                }
            },
            QueryValues::NamedValues(vs) => {
                let n = vs.len();
                let mut i: usize = 0;
                proof {
                    assert(out@ =~= named_values_bytes(vs@.subrange(0, 0)));
                }
                while i < n
                    invariant
                        i <= n,
                        n == vs@.len(),
                        forall|k: int| 0 <= k < vs@.len() ==> value_wf(#[trigger] vs@[k].1)
                            && vstd::utf8::encode_utf8(vs@[k].0@).len() <= u16::MAX,
                        out@ == named_values_bytes(vs@.subrange(0, i as int)),
                    decreases n - i,
                {
                    proof {
                        assert(value_wf(vs@[i as int].1));
                    }
                    let name = crate::types::CString::new(vs[i].0.clone());
                    proof {
                        assert(name@ == vs@[i as int].0@);
                    }
                    let mut npiece = name.as_bytes();
                    let mut vpiece = vs[i].1.as_bytes();
                    proof {
                        let pre = vs@.subrange(0, i as int);
                        let ext = vs@.subrange(0, i + 1);
                        assert(ext.drop_last() =~= pre);
                        assert(ext.last() == vs@[i as int]);
                        assert((named_values_bytes(pre) + cstring_bytes(vs@[i as int].0@))
                            + value_bytes(vs@[i as int].1) =~= named_values_bytes(ext));
                    }
                    out.append(&mut npiece);
                    out.append(&mut vpiece);
                    i = i + 1;
                }
                proof {
                    assert(vs@.subrange(0, n as int) =~= vs@);
                }
            },
        }
        out
    }
}

/// The parameters of a query: consistency, the derived flag bitmask, and
/// the optional sections that the flags announce.
#[derive(Debug, Clone, PartialEq, Eq)]
pub struct QueryParams {
    pub consistency: Consistency,
    pub flags: Vec<QueryFlags>,
    pub with_names: Option<bool>,
    pub values: Option<QueryValues>,
    pub page_size: Option<i32>,
    pub paging_state: Option<CBytes>,
    pub serial_consistency: Option<Consistency>,
    pub timestamp: Option<i64>,
}

/// Wire form of query parameters given as parts: consistency short, flag
/// byte, then each present optional section in protocol order.
pub open spec fn query_params_bytes_parts(
    consistency: Consistency,
    flags: Seq<QueryFlags>,
    values: Option<QueryValues>,
    page_size: Option<i32>,
    paging_state: Option<CBytes>,
    serial_consistency: Option<Consistency>,
    timestamp: Option<i64>,
) -> Seq<u8> {
    be_bytes(consistency_value(consistency) as nat, 2) + seq![query_flags_byte(flags)] + (match
    values {
        Some(qv) => be_bytes(query_values_len(qv), 2) + query_values_bytes(qv),
        None => seq![],
    }) + (match page_size {
        Some(ps) => be_ibytes(ps as int, 4),
        None => seq![],
    }) + (match paging_state {
        Some(cb) => cbytes_bytes(cb@),
        None => seq![],
    }) + (match serial_consistency {
        Some(c) => be_bytes(consistency_value(c) as nat, 2),
        None => seq![],
    }) + (match timestamp {
        Some(t) => be_ibytes(t as int, 8),
        None => seq![],
    })
}

/// Wire form of query parameters: consistency short, flag byte, then each
/// present optional section in protocol order.
pub open spec fn query_params_bytes(p: QueryParams) -> Seq<u8> {
    query_params_bytes_parts(
        p.consistency,
        p.flags@,
        p.values,
        p.page_size,
        p.paging_state,
        p.serial_consistency,
        p.timestamp,
    )
}

/// Every present section fits its length fields.
pub open spec fn query_params_wf(p: QueryParams) -> bool {
    &&& (p.values matches Some(qv) ==> query_values_wf(qv) && query_values_len(qv) <= u16::MAX)
    &&& (p.paging_state matches Some(cb) ==> (cb@ matches Some(b) ==> b.len() <= i32::MAX))
}

impl QueryParams {
    /// Writes the parameters as they follow the query string on the wire.
    #[verifier::rlimit(60)]
    pub fn as_bytes(&self) -> (r: Vec<u8>)
        requires
            query_params_wf(*self),
        ensures
            r@ == query_params_bytes(*self),
    {
        let mut out = self.consistency.as_bytes();
        out.push(QueryFlags::many_to_byte(self.flags.as_slice()));
        match self.values {
            Some(ref qv) => {
                let mut count = to_u_short(qv.len() as u16);
                out.append(&mut count);
                let mut vbytes = qv.as_bytes();
                out.append(&mut vbytes);
            },
            None => {},
        }
        match self.page_size {
            Some(ps) => {
                let mut b = to_int(ps);
                out.append(&mut b);
            },
            None => {},
        }
        match self.paging_state {
            Some(ref cb) => {
                let mut b = cb.as_bytes();
                out.append(&mut b);
            },
            None => {},
        }
        match self.serial_consistency {
            Some(ref c) => {
                let mut b = c.as_bytes();
                out.append(&mut b);
            },
            None => {},
        }
        match self.timestamp {
            Some(t) => {
                let mut b = to_bigint(t);
                out.append(&mut b);
            },
            None => {},
        }
        proof {
            assert(out@ =~= query_params_bytes(*self));
        }
        out
    }
}

/// The flag list derived from which optional sections are present. The
/// named-values flag is never set: servers reject it.
pub open spec fn derived_query_flags(
    has_values: bool,
    has_page_size: bool,
    has_paging_state: bool,
    has_serial_consistency: bool,
    has_timestamp: bool,
) -> Seq<QueryFlags> {
    (if has_values {
        seq![QueryFlags::Value]
    } else {
        seq![]
    }) + (if has_page_size {
        seq![QueryFlags::PageSize]
    } else {
        seq![]
    }) + (if has_paging_state {
        seq![QueryFlags::WithPagingState]
    } else {
        seq![]
    }) + (if has_serial_consistency {
        seq![QueryFlags::WithSerialConsistency]
    } else {
        seq![]
    }) + (if has_timestamp {
        seq![QueryFlags::WithDefaultTimestamp]
    } else {
        seq![]
    })
}

/// Body of a `QUERY` request: the query string and its parameters.
#[derive(Debug, Clone)]
pub struct BodyReqQuery {
    /// Query string.
    pub query: CStringLong,
    /// Query parameters.
    pub query_params: QueryParams,
}

/// Wire form of a `QUERY` body.
pub open spec fn body_req_query_bytes(b: BodyReqQuery) -> Seq<u8> {
    cstring_long_bytes(b.query@) + query_params_bytes(b.query_params)
}

/// A `QUERY` body fit for the wire.
pub open spec fn body_req_query_wf(b: BodyReqQuery) -> bool {
    &&& vstd::utf8::encode_utf8(b.query@).len() <= i32::MAX
    &&& query_params_wf(b.query_params)
}

impl BodyReqQuery {
    /// Assembles a `QUERY` body; the flag bitmask is derived from exactly
    /// the optional sections that are present.
    pub fn new(
        query: String,
        consistency: Consistency,
        values: Option<QueryValues>,
        with_names: Option<bool>,
        page_size: Option<i32>,
        paging_state: Option<CBytes>,
        serial_consistency: Option<Consistency>,
        timestamp: Option<i64>,
    ) -> (r: BodyReqQuery)
        ensures
            r.query@ == query@,
            r.query_params.flags@ == derived_query_flags(
                values is Some,
                page_size is Some,
                paging_state is Some,
                serial_consistency is Some,
                timestamp is Some,
            ),
            r.query_params.consistency == consistency,
            r.query_params.values == values,
            r.query_params.with_names == with_names,
            r.query_params.page_size == page_size,
            r.query_params.paging_state == paging_state,
            r.query_params.serial_consistency == serial_consistency,
            r.query_params.timestamp == timestamp,
    {
        let mut flags: Vec<QueryFlags> = Vec::new();
        if values.is_some() {
            flags.push(QueryFlags::Value);
        }
        if page_size.is_some() {
            flags.push(QueryFlags::PageSize);
        }
        if paging_state.is_some() {
            flags.push(QueryFlags::WithPagingState);
        }
        if serial_consistency.is_some() {
            flags.push(QueryFlags::WithSerialConsistency);
        }
        if timestamp.is_some() {
            flags.push(QueryFlags::WithDefaultTimestamp);
        }
        proof {
            assert(flags@ =~= derived_query_flags(
                values is Some,
                page_size is Some,
                paging_state is Some,
                serial_consistency is Some,
                timestamp is Some,
            ));
        }
        BodyReqQuery {
            query: CStringLong::new(query),
            query_params: QueryParams {
                consistency,
                flags,
                with_names,
                values,
                page_size,
                paging_state,
                serial_consistency,
                timestamp,
            },
        }
    }

    /// Writes the query string and parameters as the frame body.
    pub fn as_bytes(&self) -> (r: Vec<u8>)
        requires
            body_req_query_wf(*self),
        ensures
            r@ == body_req_query_bytes(*self),
    {
        let mut v = self.query.as_bytes();
        let mut params = self.query_params.as_bytes();
        v.append(&mut params);
        v
    }
}

/// A query to run: its string and parameters.
#[derive(Debug, Clone, PartialEq, Eq)]
pub struct Query {
    pub query: String,
    pub params: QueryParams,
}

/// The header flags a request carries for the tracing and warning
/// options, in canonical order.
pub fn prepare_flags(with_tracing: bool, with_warnings: bool) -> (r: Vec<Flag>)
    ensures
        r@ == (if with_tracing {
            seq![Flag::Tracing]
        } else {
            Seq::<Flag>::empty()
        }) + (if with_warnings {
            seq![Flag::Warning]
        } else {
            Seq::<Flag>::empty()
        }),
{
    let mut flags: Vec<Flag> = Vec::new();
    if with_tracing {
        flags.push(Flag::Tracing);
    }
    if with_warnings {
        flags.push(Flag::Warning);
    }
    proof {
        assert(flags@ =~= (if with_tracing {
            seq![Flag::Tracing]
        } else {
            Seq::<Flag>::empty()
        }) + (if with_warnings {
            seq![Flag::Warning]
        } else {
            Seq::<Flag>::empty()
        }));
    }
    flags
}

impl Frame {
    /// Builds a `QUERY` request frame from the parts of its body.
    pub fn new_req_query(
        query: String,
        consistency: Consistency,
        values: Option<QueryValues>,
        with_names: Option<bool>,
        page_size: Option<i32>,
        paging_state: Option<CBytes>,
        serial_consistency: Option<Consistency>,
        timestamp: Option<i64>,
        flags: Vec<Flag>,
        alloc: &mut StreamIdAllocator,
    ) -> (r: Frame)
        requires
            old(alloc).inv(),
            vstd::utf8::encode_utf8(query@).len() <= i32::MAX,
            values matches Some(qv) ==> query_values_wf(qv) && query_values_len(qv) <= u16::MAX,
            paging_state matches Some(cb) ==> (cb@ matches Some(b) ==> b.len() <= i32::MAX),
        ensures
            final(alloc).inv(),
            final(alloc).counter() == next_stream_counter(old(alloc).counter()),
            r@.version == Version::Request,
            r@.opcode == Opcode::Query,
            r@.flags == flags@,
            r@.stream == old(alloc).counter(),
            r@.tracing_id is None,
            r@.warnings.len() == 0,
            r@.body == cstring_long_bytes(query@) + query_params_bytes_parts(
                consistency,
                derived_query_flags(
                    values is Some,
                    page_size is Some,
                    paging_state is Some,
                    serial_consistency is Some,
                    timestamp is Some,
                ),
                values,
                page_size,
                paging_state,
                serial_consistency,
                timestamp,
            ),
    {
        let body = BodyReqQuery::new(
            query,
            consistency,
            values,
            with_names,
            page_size,
            paging_state,
            serial_consistency,
            timestamp,
        );
        let body_bytes = body.as_bytes();
        let r = Frame::new(
            Version::Request,
            flags,
            Opcode::Query,
            body_bytes,
            None,
            Vec::new(),
            alloc,
        );
        proof {
            assert(r@.warnings =~= Seq::<Seq<char>>::empty());
        }
        r
    }

    /// Builds a `QUERY` request frame from a `Query` value.
    pub fn new_query(query: Query, flags: Vec<Flag>, alloc: &mut StreamIdAllocator) -> (r: Frame)
        requires
            old(alloc).inv(),
            vstd::utf8::encode_utf8(query.query@).len() <= i32::MAX,
            query.params.values matches Some(qv) ==> query_values_wf(qv) && query_values_len(qv)
                <= u16::MAX,
            query.params.paging_state matches Some(cb) ==> (cb@ matches Some(b) ==> b.len()
                <= i32::MAX),
        ensures
            final(alloc).inv(),
            final(alloc).counter() == next_stream_counter(old(alloc).counter()),
            r@.version == Version::Request,
            r@.opcode == Opcode::Query,
            r@.flags == flags@,
            r@.stream == old(alloc).counter(),
            r@.body == cstring_long_bytes(query.query@) + query_params_bytes_parts(
                query.params.consistency,
                derived_query_flags(
                    query.params.values is Some,
                    query.params.page_size is Some,
                    query.params.paging_state is Some,
                    query.params.serial_consistency is Some,
                    query.params.timestamp is Some,
                ),
                query.params.values,
                query.params.page_size,
                query.params.paging_state,
                query.params.serial_consistency,
                query.params.timestamp,
            ),
    {
        Frame::new_req_query(
            query.query,
            query.params.consistency,
            query.params.values,
            query.params.with_names,
            query.params.page_size,
            query.params.paging_state,
            query.params.serial_consistency,
            query.params.timestamp,
            flags,
            alloc,
        )
    }
}

} // verus!
