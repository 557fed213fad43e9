//! The request frames of the session surface beyond queries and batches:
//! `STARTUP`, `OPTIONS`, `REGISTER`, `AUTH_RESPONSE`, `PREPARE` and
//! `EXECUTE`.

use vstd::prelude::*;
use crate::frame::{Flag, Frame, Opcode, StreamIdAllocator, Version, next_stream_counter};
use crate::query::{query_params_bytes, query_params_wf, QueryParams};
use crate::types::{
    be_bytes, cbytes_bytes, cbytes_short_bytes, cstring_bytes, cstring_list_bytes,
    cstring_long_bytes, to_u_short, CBytes, CBytesShort, CString, CStringLong,
};

verus! {

/// Concatenated wire forms of string-to-string map entries.
pub open spec fn string_map_bytes(entries: Seq<(Seq<char>, Seq<char>)>) -> Seq<u8>
    decreases entries.len(),
{
    if entries.len() == 0 {
        seq![]
    } else {
        string_map_bytes(entries.drop_last()) + cstring_bytes(entries.last().0)
            + cstring_bytes(entries.last().1)
    }
}

/// The entries a `STARTUP` body announces: the protocol version, and the
/// compression codec when one is chosen.
pub open spec fn startup_entries(cql_version: Seq<char>, compression: Option<Seq<char>>) -> Seq<
    (Seq<char>, Seq<char>),
> {
    seq![("CQL_VERSION"@, cql_version)] + (match compression {
        Some(c) => seq![("COMPRESSION"@, c)],
        None => seq![],
    })
}

/// Writes a `STARTUP` body: a string map holding `CQL_VERSION` and,
/// when chosen, `COMPRESSION`.
pub fn body_req_startup(cql_version: &str, compression: Option<&str>) -> (r: Vec<u8>)
    requires
        vstd::utf8::encode_utf8(cql_version@).len() <= u16::MAX,
        compression matches Some(c) ==> vstd::utf8::encode_utf8(c@).len() <= u16::MAX,
    ensures
        r@ == be_bytes(startup_entries(cql_version@, spec_opt_view(compression)).len(), 2)
            + string_map_bytes(startup_entries(cql_version@, spec_opt_view(compression))),
{
    proof {
        vstd::utf8::encode_utf8_valid_utf8("CQL_VERSION"@);
        vstd::utf8::encode_utf8_valid_utf8("COMPRESSION"@);
        lemma_ascii_keys();
    }
    let n: u16 = if compression.is_some() {
        2
    } else {
        1
    };
    let mut out = to_u_short(n);
    let key = CString::new(String::from_str("CQL_VERSION"));
    let mut piece = key.as_bytes();
    out.append(&mut piece);
    let val = CString::new(String::from_str(cql_version));
    let mut piece = val.as_bytes();
    out.append(&mut piece);
    match compression {
        Some(c) => {
            let ckey = CString::new(String::from_str("COMPRESSION"));
            let mut piece = ckey.as_bytes();
            out.append(&mut piece);
            let cval = CString::new(String::from_str(c));
            let mut piece = cval.as_bytes();
            out.append(&mut piece);
        },
        None => {},
    }
    proof {
        reveal_with_fuel(string_map_bytes, 3);
        let entries = startup_entries(cql_version@, spec_opt_view(compression));
        let first = ("CQL_VERSION"@, cql_version@);
        if spec_opt_view(compression) is Some {
            let c = spec_opt_view(compression)->0;
            assert(entries.len() == 2);
            assert(entries.drop_last() =~= seq![first]);
            assert(entries.last() == ("COMPRESSION"@, c));
            assert(seq![first].drop_last() =~= Seq::<(Seq<char>, Seq<char>)>::empty());
            assert(seq![first].last() == first);
            assert(string_map_bytes(entries) == cstring_bytes("CQL_VERSION"@) + cstring_bytes(
                cql_version@,
            ) + cstring_bytes("COMPRESSION"@) + cstring_bytes(c)) by {
                assert(string_map_bytes(Seq::<(Seq<char>, Seq<char>)>::empty()) + cstring_bytes(
                    "CQL_VERSION"@,
                ) + cstring_bytes(cql_version@) =~= cstring_bytes("CQL_VERSION"@) + cstring_bytes(
                    cql_version@,
                ));
            }
        } else {
            assert(entries =~= seq![first]);
            assert(entries.drop_last() =~= Seq::<(Seq<char>, Seq<char>)>::empty());
            assert(entries.last() == first);
            assert(string_map_bytes(entries) == cstring_bytes("CQL_VERSION"@) + cstring_bytes(
                cql_version@,
            )) by {
                assert(string_map_bytes(Seq::<(Seq<char>, Seq<char>)>::empty()) + cstring_bytes(
                    "CQL_VERSION"@,
                ) + cstring_bytes(cql_version@) =~= cstring_bytes("CQL_VERSION"@) + cstring_bytes(
                    cql_version@,
                ));
            }
        }
        assert(out@ =~= be_bytes(entries.len(), 2) + string_map_bytes(entries));
    }
    out
}

/// The view of an optional string slice.
pub open spec fn spec_opt_view(o: Option<&str>) -> Option<Seq<char>> {
    match o {
        Some(s) => Some(s@),
        None => None,
    }
}

/// The option keys of a `STARTUP` body hold their UTF-8 length.
proof fn lemma_ascii_keys()
    ensures
        vstd::utf8::encode_utf8("CQL_VERSION"@).len() <= u16::MAX,
        vstd::utf8::encode_utf8("COMPRESSION"@).len() <= u16::MAX,
{
    reveal_strlit("CQL_VERSION");
    reveal_strlit("COMPRESSION");
    vstd::utf8::is_ascii_chars_encode_utf8("CQL_VERSION"@);
    vstd::utf8::is_ascii_chars_encode_utf8("COMPRESSION"@);
    assert(vstd::utf8::is_ascii_chars("CQL_VERSION"@));
    assert(vstd::utf8::is_ascii_chars("COMPRESSION"@));
}

impl Frame {
    /// Builds a `STARTUP` request frame.
    pub fn new_req_startup(
        cql_version: &str,
        compression: Option<&str>,
        alloc: &mut StreamIdAllocator,
    ) -> (r: Frame)
        requires
            old(alloc).inv(),
            vstd::utf8::encode_utf8(cql_version@).len() <= u16::MAX,
            compression matches Some(c) ==> vstd::utf8::encode_utf8(c@).len() <= u16::MAX,
        ensures
            final(alloc).inv(),
            final(alloc).counter() == next_stream_counter(old(alloc).counter()),
            r@.version == Version::Request,
            r@.opcode == Opcode::Startup,
            r@.stream == old(alloc).counter(),
            r@.flags == Seq::<Flag>::empty(),
            r@.body == be_bytes(startup_entries(cql_version@, spec_opt_view(compression)).len(), 2)
                + string_map_bytes(startup_entries(cql_version@, spec_opt_view(compression))),
    {
        let body = body_req_startup(cql_version, compression);
        let r = Frame::new(
            Version::Request,
            Vec::new(),
            Opcode::Startup,
            body,
            None,
            Vec::new(),
            alloc,
        );
        proof {
            assert(r@.flags =~= Seq::<Flag>::empty());
        }
        r
    }

    /// Builds an `OPTIONS` request frame (its body is empty).
    pub fn new_req_options(alloc: &mut StreamIdAllocator) -> (r: Frame)
        requires
            old(alloc).inv(),
        ensures
            final(alloc).inv(),
            final(alloc).counter() == next_stream_counter(old(alloc).counter()),
            r@.version == Version::Request,
            r@.opcode == Opcode::Options,
            r@.stream == old(alloc).counter(),
            r@.flags == Seq::<Flag>::empty(),
            r@.body == Seq::<u8>::empty(),
    {
        let r = Frame::new(
            Version::Request,
            Vec::new(),
            Opcode::Options,
            Vec::new(),
            None,
            Vec::new(),
            alloc,
        );
        proof {
            assert(r@.flags =~= Seq::<Flag>::empty());
            assert(r@.body =~= Seq::<u8>::empty());
        }
        r
    }

    /// Builds a `REGISTER` request frame for the given event kinds.
    pub fn new_req_register(events: Vec<String>, alloc: &mut StreamIdAllocator) -> (r: Frame)
        requires
            old(alloc).inv(),
            events@.len() <= u16::MAX,
            forall|i: int| 0 <= i < events@.len() ==> vstd::utf8::encode_utf8(
                (#[trigger] events@[i])@,
            ).len() <= u16::MAX,
        ensures
            final(alloc).inv(),
            final(alloc).counter() == next_stream_counter(old(alloc).counter()),
            r@.version == Version::Request,
            r@.opcode == Opcode::Register,
            r@.stream == old(alloc).counter(),
            r@.flags == Seq::<Flag>::empty(),
            r@.body == be_bytes(events@.len(), 2) + cstring_list_bytes(
                Seq::new(events@.len(), |i: int| events@[i]@),
            ),
    {
        let n = events.len();
        let mut list: Vec<CString> = Vec::new();
        let mut i: usize = 0;
        while i < n
            invariant
                i <= n,
                n == events@.len(),
                list@.len() == i,
                forall|k: int| 0 <= k < i ==> (#[trigger] list@[k])@ == events@[k]@,
            decreases n - i,
        {
            list.push(CString::new(events[i].clone()));
            i = i + 1;
        }
        let cl = crate::types::CStringList { list };
        proof {
            assert(cl@ =~= Seq::new(events@.len(), |k: int| events@[k]@));
        }
        let body = cl.as_bytes();
        let r = Frame::new(
            Version::Request,
            Vec::new(),
            Opcode::Register,
            body,
            None,
            Vec::new(),
            alloc,
        );
        proof {
            assert(r@.flags =~= Seq::<Flag>::empty());
        }
        r
    }

    /// Builds an `AUTH_RESPONSE` request frame carrying a token.
    pub fn new_req_auth_response(token: CBytes, alloc: &mut StreamIdAllocator) -> (r: Frame)
        requires
            old(alloc).inv(),
            token@ matches Some(b) ==> b.len() <= i32::MAX,
        ensures
            final(alloc).inv(),
            final(alloc).counter() == next_stream_counter(old(alloc).counter()),
            r@.version == Version::Request,
            r@.opcode == Opcode::AuthResponse,
            r@.stream == old(alloc).counter(),
            r@.flags == Seq::<Flag>::empty(),
            r@.body == cbytes_bytes(token@),
    {
        let body = token.as_bytes();
        let r = Frame::new(
            Version::Request,
            Vec::new(),
            Opcode::AuthResponse,
            body,
            None,
            Vec::new(),
            alloc,
        );
        proof {
            assert(r@.flags =~= Seq::<Flag>::empty());
        }
        r
    }

    /// Builds a `PREPARE` request frame for a query string.
    pub fn new_req_prepare(query: String, flags: Vec<Flag>, alloc: &mut StreamIdAllocator) -> (r:
        Frame)
        requires
            old(alloc).inv(),
            vstd::utf8::encode_utf8(query@).len() <= i32::MAX,
        ensures
            final(alloc).inv(),
            final(alloc).counter() == next_stream_counter(old(alloc).counter()),
            r@.version == Version::Request,
            r@.opcode == Opcode::Prepare,
            r@.stream == old(alloc).counter(),
            r@.flags == flags@,
            r@.body == cstring_long_bytes(query@),
    {
        let q = CStringLong::new(query);
        let body = q.as_bytes();
        Frame::new(Version::Request, flags, Opcode::Prepare, body, None, Vec::new(), alloc)
    }

    /// Builds an `EXECUTE` request frame: the prepared id and the
    /// parameters.
    pub fn new_req_execute(
        id: &CBytesShort,
        params: QueryParams,
        flags: Vec<Flag>,
        alloc: &mut StreamIdAllocator,
    ) -> (r: Frame)
        requires
            old(alloc).inv(),
            id@ matches Some(b) && b.len() <= i16::MAX,
            query_params_wf(params),
        ensures
            final(alloc).inv(),
            final(alloc).counter() == next_stream_counter(old(alloc).counter()),
            r@.version == Version::Request,
            r@.opcode == Opcode::Execute,
            r@.stream == old(alloc).counter(),
            r@.flags == flags@,
            r@.body == cbytes_short_bytes(id@) + query_params_bytes(params),
    {
        let mut body = id.as_bytes();
        let mut pbytes = params.as_bytes();
        body.append(&mut pbytes);
        Frame::new(Version::Request, flags, Opcode::Execute, body, None, Vec::new(), alloc)
    }
}

} // verus!
