//! Response bodies: the typed decoding of every response opcode's body,
//! from raw frame bytes to the driver's value model.

use vstd::prelude::*;
use crate::error::DecodeError;
use crate::frame::Opcode;
use crate::query::{spec_consistency_of, Consistency};
use crate::types::{
    be_bytes, be_ival, be_val, cint_from_cursor, cint_short_from_cursor, cursor_next_value, spec_parse_cbytes,
    spec_parse_cbytes_short, spec_parse_cinet, spec_parse_cstring, spec_parse_cstring_list, CBytes,
    CBytesShort, CInet, CString, CStringList,
};

verus! {

/// Compares two string slices by their characters.
pub fn str_eq(a: &str, b: &str) -> (r: bool)
    ensures
        r == (a@ == b@),
{
    let sa = String::from_str(a);
    let sb = String::from_str(b);
    sa == sb
}

/// The empty body of `READY` and of a void result.
#[derive(Debug, Clone, PartialEq, Eq)]
pub struct BodyResResultVoid {}

/// Body of `AUTHENTICATE`: the fully qualified authenticator class name.
#[derive(Debug, Clone)]
pub struct BodyResAuthenticate {
    /// The authenticator the server demands.
    pub data: CString,
}

/// Body of `AUTH_CHALLENGE`: server-supplied challenge bytes.
#[derive(Debug, Clone)]
pub struct BodyResAuthChallenge {
    /// The challenge to answer.
    pub data: CBytes,
}

/// Body of `AUTH_SUCCESS`: optional final token bytes.
#[derive(Debug, Clone)]
pub struct BodyReqAuthSuccess {
    /// The token that concludes authentication.
    pub data: CBytes,
}

/// Parses an `AUTHENTICATE` body at `pos`.
pub open spec fn spec_parse_authenticate(bytes: Seq<u8>, pos: int) -> Option<(Seq<char>, int)> {
    spec_parse_cstring(bytes, pos)
}

impl BodyResAuthenticate {
    /// Reads the authenticator name off an `AUTHENTICATE` body.
    pub fn from_cursor(bytes: &[u8], pos: &mut usize) -> (r: Result<
        BodyResAuthenticate,
        DecodeError,
    >)
        ensures
            r matches Ok(b) ==> spec_parse_authenticate(bytes@, *old(pos) as int) == Some(
                (b.data@, *final(pos) as int),
            ),
            r is Err ==> spec_parse_authenticate(bytes@, *old(pos) as int) is None && *final(pos)
                == *old(pos),
    {
        let data = match CString::from_cursor(bytes, pos) {
            Ok(s) => s,
            Err(e) => {
                return Err(e);
            },
        };
        Ok(BodyResAuthenticate { data })
    }
}

/// The multimap of a `SUPPORTED` body: each option name with its values.
#[derive(Debug, Clone)]
pub struct BodyResSupported {
    /// Option names, each with the values the server supports for it.
    pub data: Vec<(String, Vec<String>)>,
}

impl View for BodyResSupported {
    type V = Seq<(Seq<char>, Seq<Seq<char>>)>;

    open spec fn view(&self) -> Seq<(Seq<char>, Seq<Seq<char>>)> {
        Seq::new(
            self.data@.len(),
            |i: int|
                (
                    self.data@[i].0@,
                    Seq::new(self.data@[i].1@.len(), |j: int| self.data@[i].1@[j]@),
                ),
        )
    }
}

/// Parses `n` consecutive pairs of a `[string]` key and a `[string list]`
/// of values.
pub open spec fn spec_parse_string_multimap(bytes: Seq<u8>, pos: int, n: nat) -> Option<
    (Seq<(Seq<char>, Seq<Seq<char>>)>, int),
>
    decreases n,
{
    if n == 0 {
        Some((seq![], pos))
    } else {
        match spec_parse_cstring(bytes, pos) {
            Some((k, p2)) => match spec_parse_cstring_list(bytes, p2) {
                Some((vs, p3)) => match spec_parse_string_multimap(bytes, p3, (n - 1) as nat) {
                    Some((rest, p4)) => Some((seq![(k, vs)] + rest, p4)),
                    None => None,
                },
                None => None,
            },
            None => None,
        }
    }
}

/// Parses a `SUPPORTED` body at `pos`: a two-byte pair count, then that
/// many key/values pairs.
pub open spec fn spec_parse_supported(bytes: Seq<u8>, pos: int) -> Option<
    (Seq<(Seq<char>, Seq<Seq<char>>)>, int),
> {
    if 0 <= pos && pos + 2 <= bytes.len() {
        spec_parse_string_multimap(bytes, pos + 2, be_val(bytes.subrange(pos, pos + 2)))
    } else {
        None
    }
}

impl BodyResSupported {
    /// Reads the option multimap off a `SUPPORTED` body.
    pub fn from_cursor(bytes: &[u8], pos: &mut usize) -> (r: Result<BodyResSupported, DecodeError>)
        ensures
            r matches Ok(b) ==> spec_parse_supported(bytes@, *old(pos) as int) == Some(
                (b@, *final(pos) as int),
            ),
            r is Err ==> spec_parse_supported(bytes@, *old(pos) as int) is None && *final(pos)
                == *old(pos),
    {
        let ghost pos0 = *pos as int;
        let mut cur = *pos;
        let lenv = match cursor_next_value(bytes, &mut cur, 2) {
            Some(v) => v,
            None => {
                return Err(DecodeError::UnexpectedEnd);
            },
        };
        proof {
            assert(lenv@.subrange(0, 2) =~= lenv@);
        }
        let n = crate::types::from_u16_bytes(lenv.as_slice()) as usize;
        let ghost n0 = be_val(bytes@.subrange(pos0, pos0 + 2));
        let mut data: Vec<(String, Vec<String>)> = Vec::new();
        let mut i: usize = 0;
        while i < n
            invariant
                i <= n,
                n as nat == n0,
                data@.len() == i,
                0 <= pos0,
                pos0 + 2 <= bytes@.len(),
                *pos == *old(pos),
                pos0 == *old(pos) as int,
                n0 == be_val(bytes@.subrange(pos0, pos0 + 2)),
                spec_parse_string_multimap(bytes@, pos0 + 2, n0) == (match
                    spec_parse_string_multimap(bytes@, cur as int, (n - i) as nat) {
                    Some((rest, p)) => Some(
                        (
                            Seq::new(
                                data@.len(),
                                |k: int|
                                    (
                                        data@[k].0@,
                                        Seq::new(
                                            data@[k].1@.len(),
                                            |j: int| data@[k].1@[j]@,
                                        ),
                                    ),
                            ) + rest,
                            p,
                        ),
                    ),
                    None => None::<(Seq<(Seq<char>, Seq<Seq<char>>)>, int)>,
                }),
            decreases n - i,
        {
            let ghost view_pre = Seq::new(
                data@.len(),
                |k: int|
                    (data@[k].0@, Seq::new(data@[k].1@.len(), |j: int| data@[k].1@[j]@)),
            );
            let key = match CString::from_cursor(bytes, &mut cur) {
                Ok(s) => s,
                Err(e) => {
                    return Err(e);
                },
            };
            let vals = match CStringList::from_cursor(bytes, &mut cur) {
                Ok(v) => v,
                Err(e) => {
                    return Err(e);
                },
            };
            let ghost kv = (key@, vals@);
            let entry = (key.into_plain(), vals.into_plain());
            proof {
                assert(entry.0@ == kv.0);
                assert(Seq::new(entry.1@.len(), |j: int| entry.1@[j]@) =~= kv.1);
            }
            data.push(entry);
            i = i + 1;
            proof {
                let view_post = Seq::new(
                    data@.len(),
                    |k: int|
                        (
                            data@[k].0@,
                            Seq::new(data@[k].1@.len(), |j: int| data@[k].1@[j]@),
                        ),
                );
                assert(view_post =~= view_pre.push((kv.0, kv.1)));
                assert forall|rest: Seq<(Seq<char>, Seq<Seq<char>>)>| true implies view_pre + (
                seq![(kv.0, kv.1)] + rest) =~= view_post + rest by {
                    assert(view_pre + (seq![(kv.0, kv.1)] + rest) =~= view_pre.push(
                        (kv.0, kv.1),
                    ) + rest);
                }
            }
        }
        proof {
            assert(spec_parse_string_multimap(bytes@, cur as int, 0) == Some(
                (Seq::<(Seq<char>, Seq<Seq<char>>)>::empty(), cur as int),
            ));
        }
        let out = BodyResSupported { data };
        proof {
            let v = Seq::new(
                out.data@.len(),
                |k: int|
                    (
                        out.data@[k].0@,
                        Seq::new(out.data@[k].1@.len(), |j: int| out.data@[k].1@[j]@),
                    ),
            );
            assert(v + Seq::<(Seq<char>, Seq<Seq<char>>)>::empty() =~= v);
            assert(out@ =~= v);
        }
        *pos = cur;
        Ok(out)
    }
}

/// Reads one byte at `*pos`.
fn read_byte(bytes: &[u8], pos: &mut usize) -> (r: Option<u8>)
    ensures
        *old(pos) + 1 <= bytes@.len() ==> (r == Some(bytes@[*old(pos) as int]) && *final(pos)
            == *old(pos) + 1),
        *old(pos) + 1 > bytes@.len() ==> (r is None && *final(pos) == *old(pos)),
{
    match cursor_next_value(bytes, pos, 1) {
        Some(v) => Some(v[0]),
        None => None,
    }
}

/// Reads a two-byte unsigned short at `*pos`.
fn read_u16(bytes: &[u8], pos: &mut usize) -> (r: Option<u16>)
    ensures
        *old(pos) + 2 <= bytes@.len() ==> (r matches Some(v) && v as nat == be_val(
            bytes@.subrange(*old(pos) as int, *old(pos) + 2),
        ) && *final(pos) == *old(pos) + 2),
        *old(pos) + 2 > bytes@.len() ==> (r is None && *final(pos) == *old(pos)),
{
    match cursor_next_value(bytes, pos, 2) {
        Some(v) => {
            proof {
                assert(v@.subrange(0, 2) =~= v@);
            }
            Some(crate::types::from_u16_bytes(v.as_slice()))
        },
        None => None,
    }
}

/// Parses a consistency short at `pos`.
pub open spec fn spec_parse_consistency(bytes: Seq<u8>, pos: int) -> Option<(Consistency, int)> {
    if 0 <= pos && pos + 2 <= bytes.len() {
        match spec_consistency_of(be_val(bytes.subrange(pos, pos + 2)) as int) {
            Some(c) => Some((c, pos + 2)),
            None => None,
        }
    } else {
        None
    }
}

/// Reads a consistency level at `*pos`.
fn consistency_from_cursor(bytes: &[u8], pos: &mut usize) -> (r: Result<Consistency, DecodeError>)
    ensures
        r matches Ok(c) ==> spec_parse_consistency(bytes@, *old(pos) as int) == Some(
            (c, *final(pos) as int),
        ),
        r is Err ==> spec_parse_consistency(bytes@, *old(pos) as int) is None && *final(pos)
            == *old(pos),
{
    let mut cur = *pos;
    let v = match read_u16(bytes, &mut cur) {
        Some(v) => v,
        None => {
            return Err(DecodeError::UnexpectedEnd);
        },
    };
    match Consistency::from_short(v) {
        Some(c) => {
            *pos = cur;
            Ok(c)
        },
        None => Err(DecodeError::UnknownConsistency),
    }
}

/// The code-specific extras of a server error, as plain values.
pub enum ErrorInfoView {
    Server,
    Protocol,
    Authentication,
    Unavailable(Consistency, int, int),
    Overloaded,
    IsBootstrapping,
    Truncate,
    WriteTimeout(Consistency, int, int, Seq<char>),
    ReadTimeout(Consistency, int, int, u8),
    ReadFailure(Consistency, int, int, int, u8),
    FunctionFailure(Seq<char>, Seq<char>, Seq<Seq<char>>),
    WriteFailure(Consistency, int, int, int, Seq<char>),
    Syntax,
    Unauthorized,
    Invalid,
    Config,
    AlreadyExists(Seq<char>, Seq<char>),
    Unprepared(Option<Seq<u8>>),
}

/// The code-specific extras of a server error.
#[derive(Debug, Clone)]
pub enum AdditionalErrorInfo {
    Server,
    Protocol,
    Authentication,
    /// Consistency, required replica count, alive replica count.
    Unavailable(Consistency, i32, i32),
    Overloaded,
    IsBootstrapping,
    Truncate,
    /// Consistency, acknowledged, required, write type.
    WriteTimeout(Consistency, i32, i32, String),
    /// Consistency, received, required, whether data was present.
    ReadTimeout(Consistency, i32, i32, u8),
    /// Consistency, received, required, failure count, data presence.
    ReadFailure(Consistency, i32, i32, i32, u8),
    /// Keyspace, function name, argument types.
    FunctionFailure(String, String, Vec<String>),
    /// Consistency, received, required, failure count, write type.
    WriteFailure(Consistency, i32, i32, i32, String),
    Syntax,
    Unauthorized,
    Invalid,
    Config,
    /// Keyspace and table of the object that already exists.
    AlreadyExists(String, String),
    /// The unknown prepared-statement id.
    Unprepared(CBytesShort),
}

impl View for AdditionalErrorInfo {
    type V = ErrorInfoView;

    open spec fn view(&self) -> ErrorInfoView {
        match self {
            AdditionalErrorInfo::Server => ErrorInfoView::Server,
            AdditionalErrorInfo::Protocol => ErrorInfoView::Protocol,
            AdditionalErrorInfo::Authentication => ErrorInfoView::Authentication,
            AdditionalErrorInfo::Unavailable(c, r, a) => ErrorInfoView::Unavailable(
                *c,
                *r as int,
                *a as int,
            ),
            AdditionalErrorInfo::Overloaded => ErrorInfoView::Overloaded,
            AdditionalErrorInfo::IsBootstrapping => ErrorInfoView::IsBootstrapping,
            AdditionalErrorInfo::Truncate => ErrorInfoView::Truncate,
            AdditionalErrorInfo::WriteTimeout(c, rc, bf, wt) => ErrorInfoView::WriteTimeout(
                *c,
                *rc as int,
                *bf as int,
                wt@,
            ),
            AdditionalErrorInfo::ReadTimeout(c, rc, bf, dp) => ErrorInfoView::ReadTimeout(
                *c,
                *rc as int,
                *bf as int,
                *dp,
            ),
            AdditionalErrorInfo::ReadFailure(c, rc, bf, nf, dp) => ErrorInfoView::ReadFailure(
                *c,
                *rc as int,
                *bf as int,
                *nf as int,
                *dp,
            ),
            AdditionalErrorInfo::FunctionFailure(ks, f, args) => ErrorInfoView::FunctionFailure(
                ks@,
                f@,
                Seq::new(args@.len(), |i: int| args@[i]@),
            ),
            AdditionalErrorInfo::WriteFailure(c, rc, bf, nf, wt) => ErrorInfoView::WriteFailure(
                *c,
                *rc as int,
                *bf as int,
                *nf as int,
                wt@,
            ),
            AdditionalErrorInfo::Syntax => ErrorInfoView::Syntax,
            AdditionalErrorInfo::Unauthorized => ErrorInfoView::Unauthorized,
            AdditionalErrorInfo::Invalid => ErrorInfoView::Invalid,
            AdditionalErrorInfo::Config => ErrorInfoView::Config,
            AdditionalErrorInfo::AlreadyExists(ks, t) => ErrorInfoView::AlreadyExists(ks@, t@),
            AdditionalErrorInfo::Unprepared(id) => ErrorInfoView::Unprepared(id@),
        }
    }
}

/// A server error frame body: the error code, the message, and the
/// code-specific extras.
#[derive(Debug, Clone)]
pub struct CDRSError {
    /// The protocol error code.
    pub error_code: i32,
    /// The server's message.
    pub message: String,
    /// The extras the code announces.
    pub additional_info: AdditionalErrorInfo,
}

/// Parses the code-specific extras for `code` at `pos`.
pub open spec fn spec_parse_error_info(bytes: Seq<u8>, pos: int, code: int) -> Option<
    (ErrorInfoView, int),
> {
    if code == 0x0000 {
        Some((ErrorInfoView::Server, pos))
    } else if code == 0x000A {
        Some((ErrorInfoView::Protocol, pos))
    } else if code == 0x0100 {
        Some((ErrorInfoView::Authentication, pos))
    } else if code == 0x1000 {
        match spec_parse_consistency(bytes, pos) {
            Some((c, p1)) => if p1 + 8 <= bytes.len() {
                Some(
                    (
                        ErrorInfoView::Unavailable(
                            c,
                            be_ival(bytes.subrange(p1, p1 + 4)),
                            be_ival(bytes.subrange(p1 + 4, p1 + 8)),
                        ),
                        p1 + 8,
                    ),
                )
            } else {
                None
            },
            None => None,
        }
    } else if code == 0x1001 {
        Some((ErrorInfoView::Overloaded, pos))
    } else if code == 0x1002 {
        Some((ErrorInfoView::IsBootstrapping, pos))
    } else if code == 0x1003 {
        Some((ErrorInfoView::Truncate, pos))
    } else if code == 0x1100 {
        match spec_parse_consistency(bytes, pos) {
            Some((c, p1)) => if p1 + 8 <= bytes.len() {
                match spec_parse_cstring(bytes, p1 + 8) {
                    Some((wt, p2)) => Some(
                        (
                            ErrorInfoView::WriteTimeout(
                                c,
                                be_ival(bytes.subrange(p1, p1 + 4)),
                                be_ival(bytes.subrange(p1 + 4, p1 + 8)),
                                wt,
                            ),
                            p2,
                        ),
                    ),
                    None => None,
                }
            } else {
                None
            },
            None => None,
        }
    } else if code == 0x1200 {
        match spec_parse_consistency(bytes, pos) {
            Some((c, p1)) => if p1 + 9 <= bytes.len() {
                Some(
                    (
                        ErrorInfoView::ReadTimeout(
                            c,
                            be_ival(bytes.subrange(p1, p1 + 4)),
                            be_ival(bytes.subrange(p1 + 4, p1 + 8)),
                            bytes[p1 + 8],
                        ),
                        p1 + 9,
                    ),
                )
            } else {
                None
            },
            None => None,
        }
    } else if code == 0x1300 {
        match spec_parse_consistency(bytes, pos) {
            Some((c, p1)) => if p1 + 13 <= bytes.len() {
                Some(
                    (
                        ErrorInfoView::ReadFailure(
                            c,
                            be_ival(bytes.subrange(p1, p1 + 4)),
                            be_ival(bytes.subrange(p1 + 4, p1 + 8)),
                            be_ival(bytes.subrange(p1 + 8, p1 + 12)),
                            bytes[p1 + 12],
                        ),
                        p1 + 13,
                    ),
                )
            } else {
                None
            },
            None => None,
        }
    } else if code == 0x1400 {
        match spec_parse_cstring(bytes, pos) {
            Some((ks, p1)) => match spec_parse_cstring(bytes, p1) {
                Some((f, p2)) => match spec_parse_cstring_list(bytes, p2) {
                    Some((args, p3)) => Some((ErrorInfoView::FunctionFailure(ks, f, args), p3)),
                    None => None,
                },
                None => None,
            },
            None => None,
        }
    } else if code == 0x1500 {
        match spec_parse_consistency(bytes, pos) {
            Some((c, p1)) => if p1 + 12 <= bytes.len() {
                match spec_parse_cstring(bytes, p1 + 12) {
                    Some((wt, p2)) => Some(
                        (
                            ErrorInfoView::WriteFailure(
                                c,
                                be_ival(bytes.subrange(p1, p1 + 4)),
                                be_ival(bytes.subrange(p1 + 4, p1 + 8)),
                                be_ival(bytes.subrange(p1 + 8, p1 + 12)),
                                wt,
                            ),
                            p2,
                        ),
                    ),
                    None => None,
                }
            } else {
                None
            },
            None => None,
        }
    } else if code == 0x2000 {
        Some((ErrorInfoView::Syntax, pos))
    } else if code == 0x2100 {
        Some((ErrorInfoView::Unauthorized, pos))
    } else if code == 0x2200 {
        Some((ErrorInfoView::Invalid, pos))
    } else if code == 0x2300 {
        Some((ErrorInfoView::Config, pos))
    } else if code == 0x2400 {
        match spec_parse_cstring(bytes, pos) {
            Some((ks, p1)) => match spec_parse_cstring(bytes, p1) {
                Some((t, p2)) => Some((ErrorInfoView::AlreadyExists(ks, t), p2)),
                None => None,
            },
            None => None,
        }
    } else if code == 0x2500 {
        match spec_parse_cbytes_short(bytes, pos) {
            Some((id, p1)) => Some((ErrorInfoView::Unprepared(id), p1)),
            None => None,
        }
    } else {
        None
    }
}

/// Parses an `ERROR` body at `pos`: four-byte code, message, extras.
pub open spec fn spec_parse_error(bytes: Seq<u8>, pos: int) -> Option<
    ((int, Seq<char>, ErrorInfoView), int),
> {
    if 0 <= pos && pos + 4 <= bytes.len() {
        let code = be_ival(bytes.subrange(pos, pos + 4));
        match spec_parse_cstring(bytes, pos + 4) {
            Some((msg, p1)) => match spec_parse_error_info(bytes, p1, code) {
                Some((info, p2)) => Some(((code, msg, info), p2)),
                None => None,
            },
            None => None,
        }
    } else {
        None
    }
}

/// Reads two consecutive four-byte ints.
fn read_two_ints(bytes: &[u8], pos: &mut usize) -> (r: Option<(i32, i32)>)
    ensures
        *old(pos) + 8 <= bytes@.len() ==> (r matches Some((a, b)) && a as int == be_ival(
            bytes@.subrange(*old(pos) as int, *old(pos) + 4),
        ) && b as int == be_ival(bytes@.subrange(*old(pos) + 4, *old(pos) + 8)) && *final(pos)
            == *old(pos) + 8),
        *old(pos) + 8 > bytes@.len() ==> (r is None && *final(pos) == *old(pos)),
{
    let mut cur = *pos;
    let a = match cint_from_cursor(bytes, &mut cur) {
        Ok(a) => a,
        Err(_) => {
            return None;
        },
    };
    let b = match cint_from_cursor(bytes, &mut cur) {
        Ok(b) => b,
        Err(_) => {
            return None;
        },
    };
    *pos = cur;
    Some((a, b))
}

impl CDRSError {
    /// Reads an `ERROR` body at `*pos`: the code, the message, and the
    /// extras the code announces. An unknown code is a decode failure.
    #[verifier::rlimit(100)]
    pub fn from_cursor(bytes: &[u8], pos: &mut usize) -> (r: Result<CDRSError, DecodeError>)
        ensures
            r matches Ok(e) ==> spec_parse_error(bytes@, *old(pos) as int) == Some(
                ((e.error_code as int, e.message@, e.additional_info@), *final(pos) as int),
            ),
            r is Err ==> spec_parse_error(bytes@, *old(pos) as int) is None && *final(pos) == *old(
                pos,
            ),
    {
        let mut cur = *pos;
        let code = match cint_from_cursor(bytes, &mut cur) {
            Ok(c) => c,
            Err(e) => {
                return Err(e);
            },
        };
        let message = match CString::from_cursor(bytes, &mut cur) {
            Ok(m) => m,
            Err(e) => {
                return Err(e);
            },
        };
        let info: AdditionalErrorInfo = if code == 0x0000 {
            AdditionalErrorInfo::Server
        } else if code == 0x000A {
            AdditionalErrorInfo::Protocol
        } else if code == 0x0100 {
            AdditionalErrorInfo::Authentication
        } else if code == 0x1000 {
            let c = match consistency_from_cursor(bytes, &mut cur) {
                Ok(c) => c,
                Err(e) => {
                    return Err(e);
                },
            };
            let (required, alive) = match read_two_ints(bytes, &mut cur) {
                Some(p) => p,
                None => {
                    return Err(DecodeError::UnexpectedEnd);
                },
            };
            AdditionalErrorInfo::Unavailable(c, required, alive)
        } else if code == 0x1001 {
            AdditionalErrorInfo::Overloaded
        } else if code == 0x1002 {
            AdditionalErrorInfo::IsBootstrapping
        } else if code == 0x1003 {
            AdditionalErrorInfo::Truncate
        } else if code == 0x1100 {
            let c = match consistency_from_cursor(bytes, &mut cur) {
                Ok(c) => c,
                Err(e) => {
                    return Err(e);
                },
            };
            let (received, blockfor) = match read_two_ints(bytes, &mut cur) {
                Some(p) => p,
                None => {
                    return Err(DecodeError::UnexpectedEnd);
                },
            };
            let wt = match CString::from_cursor(bytes, &mut cur) {
                Ok(w) => w,
                Err(e) => {
                    return Err(e);
                },
            };
            AdditionalErrorInfo::WriteTimeout(c, received, blockfor, wt.into_plain())
        } else if code == 0x1200 {
            let c = match consistency_from_cursor(bytes, &mut cur) {
                Ok(c) => c,
                Err(e) => {
                    return Err(e);
                },
            };
            let (received, blockfor) = match read_two_ints(bytes, &mut cur) {
                Some(p) => p,
                None => {
                    return Err(DecodeError::UnexpectedEnd);
                },
            };
            let dp = match read_byte(bytes, &mut cur) {
                Some(b) => b,
                None => {
                    return Err(DecodeError::UnexpectedEnd);
                },
            };
            AdditionalErrorInfo::ReadTimeout(c, received, blockfor, dp)
        } else if code == 0x1300 {
            let c = match consistency_from_cursor(bytes, &mut cur) {
                Ok(c) => c,
                Err(e) => {
                    return Err(e);
                },
            };
            let (received, blockfor) = match read_two_ints(bytes, &mut cur) {
                Some(p) => p,
                None => {
                    return Err(DecodeError::UnexpectedEnd);
                },
            };
            let nf = match cint_from_cursor(bytes, &mut cur) {
                Ok(n) => n,
                Err(e) => {
                    return Err(e);
                },
            };
            let dp = match read_byte(bytes, &mut cur) {
                Some(b) => b,
                None => {
                    return Err(DecodeError::UnexpectedEnd);
                },
            };
            AdditionalErrorInfo::ReadFailure(c, received, blockfor, nf, dp)
        } else if code == 0x1400 {
            let ks = match CString::from_cursor(bytes, &mut cur) {
                Ok(s) => s,
                Err(e) => {
                    return Err(e);
                },
            };
            let f = match CString::from_cursor(bytes, &mut cur) {
                Ok(s) => s,
                Err(e) => {
                    return Err(e);
                },
            };
            let args = match CStringList::from_cursor(bytes, &mut cur) {
                Ok(a) => a,
                Err(e) => {
                    return Err(e);
                },
            };
            let ghost argsv = args@;
            let argsp = args.into_plain();
            proof {
                assert(Seq::new(argsp@.len(), |i: int| argsp@[i]@) =~= argsv);
            }
            AdditionalErrorInfo::FunctionFailure(ks.into_plain(), f.into_plain(), argsp)
        } else if code == 0x1500 {
            let c = match consistency_from_cursor(bytes, &mut cur) {
                Ok(c) => c,
                Err(e) => {
                    return Err(e);
                },
            };
            let (received, blockfor) = match read_two_ints(bytes, &mut cur) {
                Some(p) => p,
                None => {
                    return Err(DecodeError::UnexpectedEnd);
                },
            };
            let nf = match cint_from_cursor(bytes, &mut cur) {
                Ok(n) => n,
                Err(e) => {
                    return Err(e);
                },
            };
            let wt = match CString::from_cursor(bytes, &mut cur) {
                Ok(w) => w,
                Err(e) => {
                    return Err(e);
                },
            };
            AdditionalErrorInfo::WriteFailure(c, received, blockfor, nf, wt.into_plain())
        } else if code == 0x2000 {
            AdditionalErrorInfo::Syntax
        } else if code == 0x2100 {
            AdditionalErrorInfo::Unauthorized
        } else if code == 0x2200 {
            AdditionalErrorInfo::Invalid
        } else if code == 0x2300 {
            AdditionalErrorInfo::Config
        } else if code == 0x2400 {
            let ks = match CString::from_cursor(bytes, &mut cur) {
                Ok(s) => s,
                Err(e) => {
                    return Err(e);
                },
            };
            let t = match CString::from_cursor(bytes, &mut cur) {
                Ok(s) => s,
                Err(e) => {
                    return Err(e);
                },
            };
            AdditionalErrorInfo::AlreadyExists(ks.into_plain(), t.into_plain())
        } else if code == 0x2500 {
            let id = match CBytesShort::from_cursor(bytes, &mut cur) {
                Ok(i) => i,
                Err(e) => {
                    return Err(e);
                },
            };
            AdditionalErrorInfo::Unprepared(id)
        } else {
            return Err(DecodeError::UnknownErrorCode);
        };
        *pos = cur;
        Ok(CDRSError { error_code: code, message: message.into_plain(), additional_info: info })
    }
}

/// What a schema change did.
#[derive(Debug, Clone, Copy, PartialEq, Eq, Structural)]
pub enum ChangeType {
    Created,
    Updated,
    Dropped,
}

/// What kind of object a schema change touched.
#[derive(Debug, Clone, Copy, PartialEq, Eq, Structural)]
pub enum Target {
    Keyspace,
    Table,
    Type,
    Function,
    Aggregate,
}

/// The object a schema change names, as plain values.
pub enum ChangeSchemeOptionsView {
    Keyspace(Seq<char>),
    TableType(Seq<char>, Seq<char>),
    FunctionAggregate(Seq<char>, Seq<char>, Seq<Seq<char>>),
}

/// The object a schema change names.
#[derive(Debug, Clone)]
pub enum ChangeSchemeOptions {
    /// The keyspace that changed.
    Keyspace(String),
    /// A table or user type: its keyspace and its name.
    TableType(String, String),
    /// A function or aggregate: keyspace, name, argument types.
    FunctionAggregate(String, String, Vec<String>),
}

impl View for ChangeSchemeOptions {
    type V = ChangeSchemeOptionsView;

    open spec fn view(&self) -> ChangeSchemeOptionsView {
        match self {
            ChangeSchemeOptions::Keyspace(ks) => ChangeSchemeOptionsView::Keyspace(ks@),
            ChangeSchemeOptions::TableType(ks, n) => ChangeSchemeOptionsView::TableType(ks@, n@),
            ChangeSchemeOptions::FunctionAggregate(ks, n, args) =>
                ChangeSchemeOptionsView::FunctionAggregate(
                ks@,
                n@,
                Seq::new(args@.len(), |i: int| args@[i]@),
            ),
        }
    }
}

/// A schema change notification.
#[derive(Debug, Clone)]
pub struct SchemaChange {
    pub change_type: ChangeType,
    pub target: Target,
    pub options: ChangeSchemeOptions,
}

/// Parses a schema-change payload at `pos`: the change type string, the
/// target string, and the object the target announces.
pub open spec fn spec_parse_schema_change(bytes: Seq<u8>, pos: int) -> Option<
    ((ChangeType, Target, ChangeSchemeOptionsView), int),
> {
    match spec_parse_cstring(bytes, pos) {
        Some((ct, p1)) => {
            let change_type = if ct == "CREATED"@ {
                Some(ChangeType::Created)
            } else if ct == "UPDATED"@ {
                Some(ChangeType::Updated)
            } else if ct == "DROPPED"@ {
                Some(ChangeType::Dropped)
            } else {
                None
            };
            match change_type {
                Some(change_type) => match spec_parse_cstring(bytes, p1) {
                    Some((tg, p2)) => {
                        let target = if tg == "KEYSPACE"@ {
                            Some(Target::Keyspace)
                        } else if tg == "TABLE"@ {
                            Some(Target::Table)
                        } else if tg == "TYPE"@ {
                            Some(Target::Type)
                        } else if tg == "FUNCTION"@ {
                            Some(Target::Function)
                        } else if tg == "AGGREGATE"@ {
                            Some(Target::Aggregate)
                        } else {
                            None
                        };
                        match target {
                            Some(target) => match target {
                                Target::Keyspace => match spec_parse_cstring(bytes, p2) {
                                    Some((ks, p3)) => Some(
                                        (
                                            (
                                                change_type,
                                                target,
                                                ChangeSchemeOptionsView::Keyspace(ks),
                                            ),
                                            p3,
                                        ),
                                    ),
                                    None => None,
                                },
                                Target::Function | Target::Aggregate => match spec_parse_cstring(
                                    bytes,
                                    p2,
                                ) {
                                    Some((ks, p3)) => match spec_parse_cstring(bytes, p3) {
                                        Some((n, p4)) => match spec_parse_cstring_list(
                                            bytes,
                                            p4,
                                        ) {
                                            Some((args, p5)) => Some(
                                                (
                                                    (
                                                        change_type,
                                                        target,
                                                        ChangeSchemeOptionsView::FunctionAggregate(
                                                            ks,
                                                            n,
                                                            args,
                                                        ),
                                                    ),
                                                    p5,
                                                ),
                                            ),
                                            None => None,
                                        },
                                        None => None,
                                    },
                                    None => None,
                                },
                                _ => match spec_parse_cstring(bytes, p2) {
                                    Some((ks, p3)) => match spec_parse_cstring(bytes, p3) {
                                        Some((n, p4)) => Some(
                                            (
                                                (
                                                    change_type,
                                                    target,
                                                    ChangeSchemeOptionsView::TableType(ks, n),
                                                ),
                                                p4,
                                            ),
                                        ),
                                        None => None,
                                    },
                                    None => None,
                                },
                            },
                            None => None,
                        }
                    },
                    None => None,
                },
                None => None,
            }
        },
        None => None,
    }
}

impl SchemaChange {
    /// Reads a schema-change payload at `*pos`.
    pub fn from_cursor(bytes: &[u8], pos: &mut usize) -> (r: Result<SchemaChange, DecodeError>)
        ensures
            r matches Ok(sc) ==> spec_parse_schema_change(bytes@, *old(pos) as int) == Some(
                ((sc.change_type, sc.target, sc.options@), *final(pos) as int),
            ),
            r is Err ==> spec_parse_schema_change(bytes@, *old(pos) as int) is None && *final(pos)
                == *old(pos),
    {
        let mut cur = *pos;
        let ct = match CString::from_cursor(bytes, &mut cur) {
            Ok(s) => s,
            Err(e) => {
                return Err(e);
            },
        };
        let change_type = if str_eq(ct.as_str(), "CREATED") {
            ChangeType::Created
        } else if str_eq(ct.as_str(), "UPDATED") {
            ChangeType::Updated
        } else if str_eq(ct.as_str(), "DROPPED") {
            ChangeType::Dropped
        } else {
            return Err(DecodeError::UnknownChangeType);
        };
        let tg = match CString::from_cursor(bytes, &mut cur) {
            Ok(s) => s,
            Err(e) => {
                return Err(e);
            },
        };
        let target = if str_eq(tg.as_str(), "KEYSPACE") {
            Target::Keyspace
        } else if str_eq(tg.as_str(), "TABLE") {
            Target::Table
        } else if str_eq(tg.as_str(), "TYPE") {
            Target::Type
        } else if str_eq(tg.as_str(), "FUNCTION") {
            Target::Function
        } else if str_eq(tg.as_str(), "AGGREGATE") {
            Target::Aggregate
        } else {
            return Err(DecodeError::UnknownTarget);
        };
        let options: ChangeSchemeOptions = match target {
            Target::Keyspace => {
                let ks = match CString::from_cursor(bytes, &mut cur) {
                    Ok(s) => s,
                    Err(e) => {
                        return Err(e);
                    },
                };
                ChangeSchemeOptions::Keyspace(ks.into_plain())
            },
            Target::Function | Target::Aggregate => {
                let ks = match CString::from_cursor(bytes, &mut cur) {
                    Ok(s) => s,
                    Err(e) => {
                        return Err(e);
                    },
                };
                let n = match CString::from_cursor(bytes, &mut cur) {
                    Ok(s) => s,
                    Err(e) => {
                        return Err(e);
                    },
                };
                let args = match CStringList::from_cursor(bytes, &mut cur) {
                    Ok(a) => a,
                    Err(e) => {
                        return Err(e);
                    },
                };
                let ghost argsv = args@;
                let argsp = args.into_plain();
                proof {
                    assert(Seq::new(argsp@.len(), |i: int| argsp@[i]@) =~= argsv);
                }
                ChangeSchemeOptions::FunctionAggregate(ks.into_plain(), n.into_plain(), argsp)
            },
            _ => {
                let ks = match CString::from_cursor(bytes, &mut cur) {
                    Ok(s) => s,
                    Err(e) => {
                        return Err(e);
                    },
                };
                let n = match CString::from_cursor(bytes, &mut cur) {
                    Ok(s) => s,
                    Err(e) => {
                        return Err(e);
                    },
                };
                ChangeSchemeOptions::TableType(ks.into_plain(), n.into_plain())
            },
        };
        *pos = cur;
        Ok(SchemaChange { change_type, target, options })
    }
}

/// How the cluster's shape changed.
#[derive(Debug, Clone, Copy, PartialEq, Eq, Structural)]
pub enum TopologyChangeType {
    NewNode,
    RemovedNode,
}

/// How a node's status changed.
#[derive(Debug, Clone, Copy, PartialEq, Eq, Structural)]
pub enum StatusChangeType {
    Up,
    Down,
}

/// A server-initiated event, as plain values.
pub enum ServerEventView {
    TopologyChange(TopologyChangeType, Seq<u8>, int),
    StatusChange(StatusChangeType, Seq<u8>, int),
    SchemaChange(ChangeType, Target, ChangeSchemeOptionsView),
}

/// A server-initiated event.
#[derive(Debug, Clone)]
pub enum ServerEvent {
    /// A node joined or left; the address is the node's.
    TopologyChange(TopologyChangeType, CInet),
    /// A node went up or down; the address is the node's.
    StatusChange(StatusChangeType, CInet),
    /// The schema changed.
    SchemaChange(SchemaChange),
}

impl View for ServerEvent {
    type V = ServerEventView;

    open spec fn view(&self) -> ServerEventView {
        match self {
            ServerEvent::TopologyChange(t, a) => ServerEventView::TopologyChange(
                *t,
                a.ip@,
                a.port as int,
            ),
            ServerEvent::StatusChange(s, a) => ServerEventView::StatusChange(
                *s,
                a.ip@,
                a.port as int,
            ),
            ServerEvent::SchemaChange(sc) => ServerEventView::SchemaChange(
                sc.change_type,
                sc.target,
                sc.options@,
            ),
        }
    }
}

/// Body of an `EVENT` frame.
#[derive(Debug, Clone)]
pub struct BodyResEvent {
    /// The event the server pushed.
    pub event: ServerEvent,
}

/// Parses an `EVENT` body at `pos`: the event type string and the
/// type-specific payload.
pub open spec fn spec_parse_event(bytes: Seq<u8>, pos: int) -> Option<(ServerEventView, int)> {
    match spec_parse_cstring(bytes, pos) {
        Some((et, p1)) => if et == "TOPOLOGY_CHANGE"@ {
            match spec_parse_cstring(bytes, p1) {
                Some((ct, p2)) => {
                    let change = if ct == "NEW_NODE"@ {
                        Some(TopologyChangeType::NewNode)
                    } else if ct == "REMOVED_NODE"@ {
                        Some(TopologyChangeType::RemovedNode)
                    } else {
                        None
                    };
                    match change {
                        Some(change) => match spec_parse_cinet(bytes, p2) {
                            Some(((ip, port), p3)) => Some(
                                (ServerEventView::TopologyChange(change, ip, port), p3),
                            ),
                            None => None,
                        },
                        None => None,
                    }
                },
                None => None,
            }
        } else if et == "STATUS_CHANGE"@ {
            match spec_parse_cstring(bytes, p1) {
                Some((ct, p2)) => {
                    let change = if ct == "UP"@ {
                        Some(StatusChangeType::Up)
                    } else if ct == "DOWN"@ {
                        Some(StatusChangeType::Down)
                    } else {
                        None
                    };
                    match change {
                        Some(change) => match spec_parse_cinet(bytes, p2) {
                            Some(((ip, port), p3)) => Some(
                                (ServerEventView::StatusChange(change, ip, port), p3),
                            ),
                            None => None,
                        },
                        None => None,
                    }
                },
                None => None,
            }
        } else if et == "SCHEMA_CHANGE"@ {
            match spec_parse_schema_change(bytes, p1) {
                Some(((c, t, o), p2)) => Some((ServerEventView::SchemaChange(c, t, o), p2)),
                None => None,
            }
        } else {
            None
        },
        None => None,
    }
}

impl BodyResEvent {
    /// Reads an `EVENT` body at `*pos`.
    pub fn from_cursor(bytes: &[u8], pos: &mut usize) -> (r: Result<BodyResEvent, DecodeError>)
        ensures
            r matches Ok(b) ==> spec_parse_event(bytes@, *old(pos) as int) == Some(
                (b.event@, *final(pos) as int),
            ),
            r is Err ==> spec_parse_event(bytes@, *old(pos) as int) is None && *final(pos) == *old(
                pos,
            ),
    {
        let mut cur = *pos;
        let et = match CString::from_cursor(bytes, &mut cur) {
            Ok(s) => s,
            Err(e) => {
                return Err(e);
            },
        };
        let event: ServerEvent = if str_eq(et.as_str(), "TOPOLOGY_CHANGE") {
            let ct = match CString::from_cursor(bytes, &mut cur) {
                Ok(s) => s,
                Err(e) => {
                    return Err(e);
                },
            };
            let change = if str_eq(ct.as_str(), "NEW_NODE") {
                TopologyChangeType::NewNode
            } else if str_eq(ct.as_str(), "REMOVED_NODE") {
                TopologyChangeType::RemovedNode
            } else {
                return Err(DecodeError::UnknownChangeType);
            };
            let addr = match CInet::from_cursor(bytes, &mut cur) {
                Ok(a) => a,
                Err(e) => {
                    return Err(e);
                },
            };
            ServerEvent::TopologyChange(change, addr)
        } else if str_eq(et.as_str(), "STATUS_CHANGE") {
            let ct = match CString::from_cursor(bytes, &mut cur) {
                Ok(s) => s,
                Err(e) => {
                    return Err(e);
                },
            };
            let change = if str_eq(ct.as_str(), "UP") {
                StatusChangeType::Up
            } else if str_eq(ct.as_str(), "DOWN") {
                StatusChangeType::Down
            } else {
                return Err(DecodeError::UnknownChangeType);
            };
            let addr = match CInet::from_cursor(bytes, &mut cur) {
                Ok(a) => a,
                Err(e) => {
                    return Err(e);
                },
            };
            ServerEvent::StatusChange(change, addr)
        } else if str_eq(et.as_str(), "SCHEMA_CHANGE") {
            let sc = match SchemaChange::from_cursor(bytes, &mut cur) {
                Ok(s) => s,
                Err(e) => {
                    return Err(e);
                },
            };
            ServerEvent::SchemaChange(sc)
        } else {
            return Err(DecodeError::UnknownEventType);
        };
        *pos = cur;
        Ok(BodyResEvent { event })
    }
}

/// A CQL column type, by its wire id.
#[derive(Debug, Clone, Copy, PartialEq, Eq, Structural)]
pub enum ColType {
    Custom,
    Ascii,
    Bigint,
    Blob,
    Boolean,
    Counter,
    Decimal,
    Double,
    Float,
    Int,
    Timestamp,
    Uuid,
    Varchar,
    Varint,
    Timeuuid,
    Inet,
    Date,
    Time,
    Smallint,
    Tinyint,
    List,
    CMap,
    CSet,
    Udt,
    Tuple,
}

/// The wire short of a column type id.
pub open spec fn col_type_short(t: ColType) -> u16 {
    match t {
        ColType::Custom => 0x0000,
        ColType::Ascii => 0x0001,
        ColType::Bigint => 0x0002,
        ColType::Blob => 0x0003,
        ColType::Boolean => 0x0004,
        ColType::Counter => 0x0005,
        ColType::Decimal => 0x0006,
        ColType::Double => 0x0007,
        ColType::Float => 0x0008,
        ColType::Int => 0x0009,
        ColType::Timestamp => 0x000B,
        ColType::Uuid => 0x000C,
        ColType::Varchar => 0x000D,
        ColType::Varint => 0x000E,
        ColType::Timeuuid => 0x000F,
        ColType::Inet => 0x0010,
        ColType::Date => 0x0011,
        ColType::Time => 0x0012,
        ColType::Smallint => 0x0013,
        ColType::Tinyint => 0x0014,
        ColType::List => 0x0020,
        ColType::CMap => 0x0021,
        ColType::CSet => 0x0022,
        ColType::Udt => 0x0030,
        ColType::Tuple => 0x0031,
    }
}

/// The column type with wire short `v`, if it is in the table. Only the
/// simple (non-parameterised) types are returned here; the parameterised
/// ids are handled by the type-descriptor parser.
fn simple_col_type_of(v: u16) -> (r: Option<ColType>)
    ensures
        r matches Some(t) ==> col_type_short(t) == v && !(t == ColType::Custom || t
            == ColType::List || t == ColType::CMap || t == ColType::CSet || t == ColType::Udt || t
            == ColType::Tuple),
        r is None ==> (v == 0x0000 || v == 0x0020 || v == 0x0021 || v == 0x0022 || v == 0x0030 || v
            == 0x0031 || !is_simple_col_type_short(v as int)),
{
    match v {
        0x0001 => Some(ColType::Ascii),
        0x0002 => Some(ColType::Bigint),
        0x0003 => Some(ColType::Blob),
        0x0004 => Some(ColType::Boolean),
        0x0005 => Some(ColType::Counter),
        0x0006 => Some(ColType::Decimal),
        0x0007 => Some(ColType::Double),
        0x0008 => Some(ColType::Float),
        0x0009 => Some(ColType::Int),
        0x000B => Some(ColType::Timestamp),
        0x000C => Some(ColType::Uuid),
        0x000D => Some(ColType::Varchar),
        0x000E => Some(ColType::Varint),
        0x000F => Some(ColType::Timeuuid),
        0x0010 => Some(ColType::Inet),
        0x0011 => Some(ColType::Date),
        0x0012 => Some(ColType::Time),
        0x0013 => Some(ColType::Smallint),
        0x0014 => Some(ColType::Tinyint),
        _ => None,
    }
}

/// Whether the short names a simple (non-parameterised) column type.
pub open spec fn is_simple_col_type_short(v: int) -> bool {
    (0x0001 <= v <= 0x0014 && v != 0x000A)
}

/// A user-defined type descriptor: keyspace, name, and the name and type
/// of each field.
#[derive(Debug)]
pub struct CUdt {
    pub ks: String,
    pub udt_name: String,
    pub descriptions: Vec<(String, ColTypeOption)>,
}

/// A full column type descriptor: a simple type, or a parameterised type
/// with its element types.
#[derive(Debug)]
pub enum ColTypeOption {
    /// A non-parameterised type.
    Simple(ColType),
    /// A custom type, by its class name.
    Custom(String),
    /// A list and its element type.
    CList(Box<ColTypeOption>),
    /// A map and its key and value types.
    CMap(Box<ColTypeOption>, Box<ColTypeOption>),
    /// A set and its element type.
    CSet(Box<ColTypeOption>),
    /// A user-defined type.
    Udt(CUdt),
    /// A tuple and its member types.
    Tuple(Vec<ColTypeOption>),
}

/// The wire form of a column type descriptor: the id short, then the
/// parameters the id announces.
pub open spec fn col_type_bytes(t: ColTypeOption) -> Seq<u8>
    decreases t,
{
    match t {
        ColTypeOption::Simple(ct) => be_bytes(col_type_short(ct) as nat, 2),
        ColTypeOption::Custom(s) => be_bytes(0x0000, 2) + crate::types::cstring_bytes(s@),
        ColTypeOption::CList(inner) => be_bytes(0x0020, 2) + col_type_bytes(*inner),
        ColTypeOption::CMap(k, v) => be_bytes(0x0021, 2) + col_type_bytes(*k) + col_type_bytes(*v),
        ColTypeOption::CSet(inner) => be_bytes(0x0022, 2) + col_type_bytes(*inner),
        ColTypeOption::Udt(u) => be_bytes(0x0030, 2) + crate::types::cstring_bytes(u.ks@)
            + crate::types::cstring_bytes(u.udt_name@) + be_bytes(u.descriptions@.len(), 2)
            + udt_fields_bytes(u.descriptions@),
        ColTypeOption::Tuple(ts) => be_bytes(0x0031, 2) + be_bytes(ts@.len(), 2) + col_types_bytes(
            ts@,
        ),
    }
}

/// Concatenated wire forms of the named fields of a user-defined type.
pub open spec fn udt_fields_bytes(fs: Seq<(String, ColTypeOption)>) -> Seq<u8>
    decreases fs,
{
    if fs.len() == 0 {
        seq![]
    } else {
        udt_fields_bytes(fs.drop_last()) + crate::types::cstring_bytes(fs.last().0@)
            + col_type_bytes(fs.last().1)
    }
}

/// Concatenated wire forms of a run of column type descriptors.
pub open spec fn col_types_bytes(ts: Seq<ColTypeOption>) -> Seq<u8>
    decreases ts,
{
    if ts.len() == 0 {
        seq![]
    } else {
        col_types_bytes(ts.drop_last()) + col_type_bytes(ts.last())
    }
}

/// Reads a column type descriptor at `pos`; the bytes consumed are
/// exactly the canonical wire form of the returned descriptor.
#[verifier::loop_isolation(false)]
pub fn parse_col_type(bytes: &[u8], pos: usize) -> (r: Result<(ColTypeOption, usize), DecodeError>)
    ensures
        r matches Ok((t, p2)) ==> pos + 2 <= p2 <= bytes@.len() && bytes@.subrange(
            pos as int,
            p2 as int,
        ) == col_type_bytes(t),
    decreases bytes@.len() - pos,
{
    let mut cur = pos;
    let id = match read_u16(bytes, &mut cur) {
        Some(v) => v,
        None => {
            return Err(DecodeError::UnexpectedEnd);
        },
    };
    proof {
        crate::types::lemma_be_bytes_inv(bytes@.subrange(pos as int, pos + 2));
    }
    if id == 0x0000 {
        let s = match CString::from_cursor(bytes, &mut cur) {
            Ok(s) => s,
            Err(e) => {
                return Err(e);
            },
        };
        proof {
            crate::types::lemma_cstring_encoding_of_parse(bytes@, pos + 2);
            assert(bytes@.subrange(pos as int, cur as int) =~= bytes@.subrange(pos as int, pos + 2)
                + bytes@.subrange(pos + 2, cur as int));
        }
        let t = ColTypeOption::Custom(s.into_plain());
        Ok((t, cur))
    } else if id == 0x0020 || id == 0x0022 {
        let (inner, p2) = match parse_col_type(bytes, cur) {
            Ok(p) => p,
            Err(e) => {
                return Err(e);
            },
        };
        let t = if id == 0x0020 {
            ColTypeOption::CList(Box::new(inner))
        } else {
            ColTypeOption::CSet(Box::new(inner))
        };
        proof {
            assert(bytes@.subrange(pos as int, p2 as int) =~= bytes@.subrange(pos as int, pos + 2)
                + bytes@.subrange(pos + 2, p2 as int));
        }
        Ok((t, p2))
    } else if id == 0x0021 {
        let (kt, p2) = match parse_col_type(bytes, cur) {
            Ok(p) => p,
            Err(e) => {
                return Err(e);
            },
        };
        let (vt, p3) = match parse_col_type(bytes, p2) {
            Ok(p) => p,
            Err(e) => {
                return Err(e);
            },
        };
        proof {
            assert(bytes@.subrange(pos as int, p3 as int) =~= bytes@.subrange(pos as int, pos + 2)
                + bytes@.subrange(pos + 2, p2 as int) + bytes@.subrange(p2 as int, p3 as int));
        }
        Ok((ColTypeOption::CMap(Box::new(kt), Box::new(vt)), p3))
    } else if id == 0x0030 {
        let ks = match CString::from_cursor(bytes, &mut cur) {
            Ok(s) => s,
            Err(e) => {
                return Err(e);
            },
        };
        proof {
            crate::types::lemma_cstring_encoding_of_parse(bytes@, pos + 2);
        }
        let ghost p_ks = cur as int;
        let name = match CString::from_cursor(bytes, &mut cur) {
            Ok(s) => s,
            Err(e) => {
                return Err(e);
            },
        };
        proof {
            crate::types::lemma_cstring_encoding_of_parse(bytes@, p_ks);
        }
        let ghost p_name = cur as int;
        let n = match read_u16(bytes, &mut cur) {
            Some(v) => v,
            None => {
                return Err(DecodeError::UnexpectedEnd);
            },
        };
        proof {
            crate::types::lemma_be_bytes_inv(bytes@.subrange(p_name, p_name + 2));
        }
        let ghost p_fields = cur as int;
        let mut fields: Vec<(String, ColTypeOption)> = Vec::new();
        let mut i: usize = 0;
        proof {
            assert(bytes@.subrange(p_fields, cur as int) =~= udt_fields_bytes(fields@));
        }
        while i < n as usize
            invariant
                i <= n as usize,
                fields@.len() == i,
                pos + 2 < cur <= bytes@.len(),
                p_fields <= cur as int,
                bytes@.subrange(p_fields, cur as int) == udt_fields_bytes(fields@),
            decreases n as usize - i,
        {
            let ghost p_f = cur as int;
            let fname = match CString::from_cursor(bytes, &mut cur) {
                Ok(s) => s,
                Err(e) => {
                    return Err(e);
                },
            };
            proof {
                crate::types::lemma_cstring_encoding_of_parse(bytes@, p_f);
            }
            let ghost p_mid = cur as int;
            let ft = match parse_col_type(bytes, cur) {
                Ok((t, p2)) => {
                    cur = p2;
                    t
                },
                Err(e) => {
                    return Err(e);
                },
            };
            let entry = (fname.into_plain(), ft);
            proof {
                assert(bytes@.subrange(p_f, p_mid) == crate::types::cstring_bytes(fname@));
                assert(bytes@.subrange(p_mid, cur as int) == col_type_bytes(ft));
                let ext = fields@.push(entry);
                assert(ext.drop_last() =~= fields@);
                assert(ext.last() == entry);
                assert(ext.len() == fields@.len() + 1);
                reveal_with_fuel(udt_fields_bytes, 2);
                assert(udt_fields_bytes(ext) == udt_fields_bytes(ext.drop_last())
                    + crate::types::cstring_bytes(ext.last().0@) + col_type_bytes(ext.last().1));
                assert(udt_fields_bytes(ext) == udt_fields_bytes(fields@)
                    + crate::types::cstring_bytes(entry.0@) + col_type_bytes(entry.1));
                assert(0 <= p_fields <= p_f <= p_mid <= cur as int <= bytes@.len());
                assert(bytes@.subrange(p_fields, p_mid) =~= bytes@.subrange(p_fields, p_f)
                    + bytes@.subrange(p_f, p_mid));
                assert(bytes@.subrange(p_fields, cur as int) =~= bytes@.subrange(p_fields, p_mid)
                    + bytes@.subrange(p_mid, cur as int));
                assert(bytes@.subrange(p_fields, cur as int) == udt_fields_bytes(ext));
            }
            fields.push(entry);
            i = i + 1;
        }
        let t = ColTypeOption::Udt(
            CUdt { ks: ks.into_plain(), udt_name: name.into_plain(), descriptions: fields },
        );
        proof {
            assert(bytes@.subrange(pos as int, cur as int) =~= bytes@.subrange(
                pos as int,
                pos + 2,
            ) + bytes@.subrange(pos + 2, p_ks) + bytes@.subrange(p_ks, p_name) + bytes@.subrange(
                p_name,
                p_name + 2,
            ) + bytes@.subrange(p_fields, cur as int));
        }
        Ok((t, cur))
    } else if id == 0x0031 {
        let n = match read_u16(bytes, &mut cur) {
            Some(v) => v,
            None => {
                return Err(DecodeError::UnexpectedEnd);
            },
        };
        proof {
            crate::types::lemma_be_bytes_inv(bytes@.subrange(pos + 2, pos + 4));
        }
        let ghost p_types = cur as int;
        let mut types: Vec<ColTypeOption> = Vec::new();
        let mut i: usize = 0;
        proof {
            assert(bytes@.subrange(p_types, cur as int) =~= col_types_bytes(types@));
        }
        while i < n as usize
            invariant
                i <= n as usize,
                types@.len() == i,
                pos + 2 < cur,
                cur <= bytes@.len(),
                p_types <= cur as int,
                bytes@.subrange(p_types, cur as int) == col_types_bytes(types@),
            decreases n as usize - i,
        {
            let ghost p_t = cur as int;
            let t = match parse_col_type(bytes, cur) {
                Ok((t, p2)) => {
                    cur = p2;
                    t
                },
                Err(e) => {
                    return Err(e);
                },
            };
            proof {
                assert(bytes@.subrange(p_t, cur as int) == col_type_bytes(t));
                let ext = types@.push(t);
                assert(ext.drop_last() =~= types@);
                assert(ext.last() == t);
                assert(ext.len() == types@.len() + 1);
                reveal_with_fuel(col_types_bytes, 2);
                assert(col_types_bytes(ext) == col_types_bytes(ext.drop_last()) + col_type_bytes(
                    ext.last(),
                ));
                assert(col_types_bytes(ext) == col_types_bytes(types@) + col_type_bytes(t));
                assert(0 <= p_types <= p_t <= cur as int <= bytes@.len());
                assert(bytes@.subrange(p_types, cur as int) =~= bytes@.subrange(p_types, p_t)
                    + bytes@.subrange(p_t, cur as int));
                assert(bytes@.subrange(p_types, cur as int) == col_types_bytes(ext));
            }
            types.push(t);
            i = i + 1;
        }
        let t = ColTypeOption::Tuple(types);
        proof {
            assert(bytes@.subrange(pos as int, cur as int) =~= bytes@.subrange(
                pos as int,
                pos + 4,
            ) + bytes@.subrange(p_types, cur as int));
            assert(bytes@.subrange(pos as int, pos + 4) =~= bytes@.subrange(pos as int, pos + 2)
                + bytes@.subrange(pos + 2, pos + 4));
        }
        Ok((t, cur))
    } else {
        match simple_col_type_of(id) {
            Some(ct) => {
                Ok((ColTypeOption::Simple(ct), cur))
            },
            None => Err(DecodeError::UnknownColType),
        }
    }
}

/// Reads a `[bytes]` value in canonical form: a non-negative length, or
/// exactly -1 for null. Any other negative length is rejected, since the
/// re-encoding of the value must reproduce the input.
fn cbytes_canon(bytes: &[u8], pos: usize) -> (r: Result<(CBytes, usize), DecodeError>)
    ensures
        r matches Ok((cb, p2)) ==> pos + 4 <= p2 <= bytes@.len() && bytes@.subrange(
            pos as int,
            p2 as int,
        ) == crate::types::cbytes_bytes(cb@),
{
    let mut cur = pos;
    let l = match cint_from_cursor(bytes, &mut cur) {
        Ok(l) => l,
        Err(e) => {
            return Err(e);
        },
    };
    proof {
        crate::types::lemma_be_ibytes_inv(bytes@.subrange(pos as int, pos + 4));
    }
    if l == -1 {
        proof {
            crate::types::lemma_minus_one_4();
        }
        let cb = CBytes::new_empty();
        proof {
            assert(crate::types::cbytes_bytes(cb@) =~= bytes@.subrange(pos as int, pos + 4));
        }
        return Ok((cb, cur));
    }
    if l < 0 {
        return Err(DecodeError::NegativeLength);
    }
    let body = match cursor_next_value(bytes, &mut cur, l as usize) {
        Some(b) => b,
        None => {
            return Err(DecodeError::UnexpectedEnd);
        },
    };
    proof {
        crate::types::lemma_pow256_8();
        vstd::arithmetic::div_mod::lemma_small_mod(l as nat, crate::types::pow256(4));
        assert(bytes@.subrange(pos as int, pos + 4) == be_bytes(l as nat, 4));
    }
    let cb = CBytes::new(body);
    proof {
        assert(bytes@.subrange(pos as int, cur as int) =~= bytes@.subrange(pos as int, pos + 4)
            + bytes@.subrange(pos + 4, cur as int));
    }
    Ok((cb, cur))
}

/// Reads a `[short bytes]` value in canonical form: a non-negative
/// length, or exactly -1 for null.
fn cbytes_short_canon(bytes: &[u8], pos: usize) -> (r: Result<(CBytesShort, usize), DecodeError>)
    ensures
        r matches Ok((cb, p2)) ==> pos + 2 <= p2 <= bytes@.len() && bytes@.subrange(
            pos as int,
            p2 as int,
        ) == crate::types::cbytes_short_bytes(cb@),
{
    let mut cur = pos;
    let l = match cint_short_from_cursor(bytes, &mut cur) {
        Ok(l) => l,
        Err(e) => {
            return Err(e);
        },
    };
    proof {
        crate::types::lemma_be_ibytes_inv(bytes@.subrange(pos as int, pos + 2));
    }
    if l == -1 {
        proof {
            crate::types::lemma_minus_one_2();
        }
        let cb = CBytesShort::new_empty();
        proof {
            assert(crate::types::cbytes_short_bytes(cb@) =~= bytes@.subrange(pos as int, pos + 2));
        }
        return Ok((cb, cur));
    }
    if l < 0 {
        return Err(DecodeError::NegativeLength);
    }
    let body = match cursor_next_value(bytes, &mut cur, l as usize) {
        Some(b) => b,
        None => {
            return Err(DecodeError::UnexpectedEnd);
        },
    };
    proof {
        crate::types::lemma_pow256_8();
        vstd::arithmetic::div_mod::lemma_small_mod(l as nat, crate::types::pow256(2));
        assert(bytes@.subrange(pos as int, pos + 2) == be_bytes(l as nat, 2));
    }
    let cb = CBytesShort::new(body);
    proof {
        assert(bytes@.subrange(pos as int, cur as int) =~= bytes@.subrange(pos as int, pos + 2)
            + bytes@.subrange(pos + 2, cur as int));
    }
    Ok((cb, cur))
}

/// One column of a result's metadata: its (optional per-column) table
/// spec, its name, and its type.
#[derive(Debug)]
pub struct ColSpec {
    /// Keyspace and table, present only when there is no global spec.
    pub table_spec: Option<(String, String)>,
    /// The column's name.
    pub name: String,
    /// The column's type descriptor.
    pub col_type: ColTypeOption,
}

/// Wire form of one column spec.
pub open spec fn col_spec_bytes(cs: ColSpec) -> Seq<u8> {
    (match cs.table_spec {
        Some((k, t)) => crate::types::cstring_bytes(k@) + crate::types::cstring_bytes(t@),
        None => seq![],
    }) + crate::types::cstring_bytes(cs.name@) + col_type_bytes(cs.col_type)
}

/// Concatenated wire forms of a run of column specs.
pub open spec fn col_specs_bytes(css: Seq<ColSpec>) -> Seq<u8>
    decreases css,
{
    if css.len() == 0 {
        seq![]
    } else {
        col_specs_bytes(css.drop_last()) + col_spec_bytes(css.last())
    }
}

/// Reads two consecutive `[string]`s (a keyspace and a table name).
fn parse_table_pair(bytes: &[u8], pos: usize) -> (r: Result<((String, String), usize), DecodeError>)
    ensures
        r matches Ok(((k, t), p2)) ==> pos <= p2 <= bytes@.len() && bytes@.subrange(
            pos as int,
            p2 as int,
        ) == crate::types::cstring_bytes(k@) + crate::types::cstring_bytes(t@),
{
    let mut cur = pos;
    let k = match CString::from_cursor(bytes, &mut cur) {
        Ok(s) => s,
        Err(e) => {
            return Err(e);
        },
    };
    proof {
        crate::types::lemma_cstring_encoding_of_parse(bytes@, pos as int);
    }
    let ghost p_t = cur as int;
    let t = match CString::from_cursor(bytes, &mut cur) {
        Ok(s) => s,
        Err(e) => {
            return Err(e);
        },
    };
    proof {
        crate::types::lemma_cstring_encoding_of_parse(bytes@, p_t);
        assert(bytes@.subrange(pos as int, cur as int) =~= bytes@.subrange(pos as int, p_t)
            + bytes@.subrange(p_t, cur as int));
    }
    Ok(((k.into_plain(), t.into_plain()), cur))
}

/// Reads `count` column specs at `pos`, each with its own table spec
/// exactly when no global one was announced.
#[verifier::loop_isolation(false)]
#[verifier::rlimit(100)]
fn parse_col_specs(bytes: &[u8], pos: usize, count: usize, with_table_spec: bool) -> (r: Result<
    (Vec<ColSpec>, usize),
    DecodeError,
>)
    requires
        pos <= bytes@.len(),
    ensures
        r matches Ok((css, p2)) ==> pos <= p2 <= bytes@.len() && bytes@.subrange(
            pos as int,
            p2 as int,
        ) == col_specs_bytes(css@) && css@.len() == count && (forall|k: int|
            0 <= k < css@.len() ==> ((#[trigger] css@[k]).table_spec is Some <==> with_table_spec)),
{
    let mut cur = pos;
    let mut col_specs: Vec<ColSpec> = Vec::new();
    let mut i: usize = 0;
    proof {
        assert(bytes@.subrange(pos as int, cur as int) =~= col_specs_bytes(col_specs@));
    }
    while i < count
        invariant
            i <= count,
            col_specs@.len() == i,
            pos <= cur,
            cur <= bytes@.len(),
            bytes@.subrange(pos as int, cur as int) == col_specs_bytes(col_specs@),
            forall|k: int| 0 <= k < col_specs@.len() ==> ((#[trigger] col_specs@[k]).table_spec
                is Some <==> with_table_spec),
        decreases count - i,
    {
        let ghost p_cs = cur as int;
        let table_spec: Option<(String, String)> = if with_table_spec {
            match parse_table_pair(bytes, cur) {
                Ok((kt, p2)) => {
                    cur = p2;
                    Some(kt)
                },
                Err(e) => {
                    return Err(e);
                },
            }
        } else {
            None
        };
        let ghost p_name = cur as int;
        let name = match CString::from_cursor(bytes, &mut cur) {
            Ok(s) => s,
            Err(e) => {
                return Err(e);
            },
        };
        proof {
            crate::types::lemma_cstring_encoding_of_parse(bytes@, p_name);
        }
        let ghost p_type = cur as int;
        let col_type = match parse_col_type(bytes, cur) {
            Ok((t, p2)) => {
                cur = p2;
                t
            },
            Err(e) => {
                return Err(e);
            },
        };
        let cs = ColSpec { table_spec, name: name.into_plain(), col_type };
        proof {
            assert(bytes@.subrange(p_cs, cur as int) =~= bytes@.subrange(p_cs, p_name)
                + bytes@.subrange(p_name, p_type) + bytes@.subrange(p_type, cur as int));
            assert(bytes@.subrange(p_cs, cur as int) == col_spec_bytes(cs));
            let ext = col_specs@.push(cs);
            assert(ext.drop_last() =~= col_specs@);
            assert(ext.last() == cs);
            reveal_with_fuel(col_specs_bytes, 2);
            assert(col_specs_bytes(ext) == col_specs_bytes(col_specs@) + col_spec_bytes(cs));
            assert(bytes@.subrange(pos as int, cur as int) =~= bytes@.subrange(pos as int, p_cs)
                + bytes@.subrange(p_cs, cur as int));
        }
        col_specs.push(cs);
        i = i + 1;
    }
    Ok((col_specs, cur))
}

/// The metadata of a rows result: flags, column count, paging state, and
/// the column specs.
#[derive(Debug)]
pub struct RowsMetadata {
    /// The metadata flag bitmask.
    pub flags: i32,
    /// How many columns each row holds.
    pub columns_count: i32,
    /// The paging state, when the has-more-pages flag is set.
    pub paging_state: Option<CBytes>,
    /// Keyspace and table shared by all columns, when the global flag is
    /// set.
    pub global_table_spec: Option<(String, String)>,
    /// The column specs (absent under the no-metadata flag).
    pub col_specs: Vec<ColSpec>,
}

/// Wire form of a rows-result metadata block.
pub open spec fn rows_metadata_bytes(m: RowsMetadata) -> Seq<u8> {
    crate::types::be_ibytes(m.flags as int, 4) + crate::types::be_ibytes(m.columns_count as int, 4)
        + (match m.paging_state {
        Some(cb) => crate::types::cbytes_bytes(cb@),
        None => seq![],
    }) + (match m.global_table_spec {
        Some((k, t)) => crate::types::cstring_bytes(k@) + crate::types::cstring_bytes(t@),
        None => seq![],
    }) + col_specs_bytes(m.col_specs@)
}

/// The structural facts the metadata flags promise: the global spec and
/// the paging state are present exactly when their flags are set, the
/// spec count matches the column count (unless the no-metadata flag is
/// set), and per-column table specs appear exactly without a global one.
pub open spec fn rows_metadata_wf(m: RowsMetadata) -> bool {
    &&& (m.flags & 0x0001 != 0 <==> m.global_table_spec is Some)
    &&& (m.flags & 0x0002 != 0 <==> m.paging_state is Some)
    &&& m.columns_count >= 0
    &&& (if m.flags & 0x0004 != 0 {
        m.col_specs@.len() == 0
    } else {
        m.col_specs@.len() == m.columns_count
    })
    &&& (forall|i: int| 0 <= i < m.col_specs@.len() ==> ((#[trigger] m.col_specs@[i]).table_spec
        is Some <==> m.flags & 0x0001 == 0))
}

/// Reads a rows-result metadata block at `pos`; the bytes consumed are
/// exactly the wire form of the returned metadata, which is well formed.
#[verifier::loop_isolation(false)]
#[verifier::rlimit(100)]
fn parse_rows_metadata(bytes: &[u8], pos: usize) -> (r: Result<(RowsMetadata, usize), DecodeError>)
    ensures
        r matches Ok((m, p2)) ==> pos <= p2 <= bytes@.len() && bytes@.subrange(
            pos as int,
            p2 as int,
        ) == rows_metadata_bytes(m) && rows_metadata_wf(m),
{
    let mut cur = pos;
    let flags = match cint_from_cursor(bytes, &mut cur) {
        Ok(f) => f,
        Err(e) => {
            return Err(e);
        },
    };
    let columns_count = match cint_from_cursor(bytes, &mut cur) {
        Ok(c) => c,
        Err(e) => {
            return Err(e);
        },
    };
    if columns_count < 0 {
        return Err(DecodeError::NegativeLength);
    }
    proof {
        crate::types::lemma_be_ibytes_inv(bytes@.subrange(pos as int, pos + 4));
        crate::types::lemma_be_ibytes_inv(bytes@.subrange(pos + 4, pos + 8));
    }
    let ghost p_head = cur as int;
    let paging_state: Option<CBytes> = if flags & 0x0002 != 0 {
        match cbytes_canon(bytes, cur) {
            Ok((cb, p2)) => {
                cur = p2;
                Some(cb)
            },
            Err(e) => {
                return Err(e);
            },
        }
    } else {
        None
    };
    let ghost p_ps = cur as int;
    let global_table_spec: Option<(String, String)> = if flags & 0x0001 != 0 {
        match parse_table_pair(bytes, cur) {
            Ok((kt, p2)) => {
                cur = p2;
                Some(kt)
            },
            Err(e) => {
                return Err(e);
            },
        }
    } else {
        None
    };
    let ghost p_gts = cur as int;
    let specs_count: usize = if flags & 0x0004 != 0 {
        0
    } else {
        columns_count as usize
    };
    let col_specs = match parse_col_specs(bytes, cur, specs_count, flags & 0x0001 == 0) {
        Ok((css, p2)) => {
            cur = p2;
            css
        },
        Err(e) => {
            return Err(e);
        },
    };
    let m = RowsMetadata { flags, columns_count, paging_state, global_table_spec, col_specs };
    proof {
        assert(bytes@.subrange(pos as int, pos + 8) =~= bytes@.subrange(pos as int, pos + 4)
            + bytes@.subrange(pos + 4, pos + 8));
        assert(bytes@.subrange(pos as int, cur as int) =~= bytes@.subrange(pos as int, pos + 8)
            + bytes@.subrange(p_head, p_ps) + bytes@.subrange(p_ps, p_gts) + bytes@.subrange(
            p_gts,
            cur as int,
        ));
        assert(bytes@.subrange(pos as int, cur as int) == rows_metadata_bytes(m));
    }
    Ok((m, cur))
}

/// Concatenated wire forms of one row's cells.
pub open spec fn row_cells_bytes(row: Seq<CBytes>) -> Seq<u8>
    decreases row,
{
    if row.len() == 0 {
        seq![]
    } else {
        row_cells_bytes(row.drop_last()) + crate::types::cbytes_bytes(row.last()@)
    }
}

/// Concatenated wire forms of a run of rows.
pub open spec fn rows_bytes(rows: Seq<Vec<CBytes>>) -> Seq<u8>
    decreases rows,
{
    if rows.len() == 0 {
        seq![]
    } else {
        rows_bytes(rows.drop_last()) + row_cells_bytes(rows.last()@)
    }
}

/// Body of a rows result: metadata, the row count, and the raw cells of
/// every row; the cells are interpreted lazily against the column types.
#[derive(Debug)]
pub struct BodyResResultRows {
    pub metadata: RowsMetadata,
    pub rows_count: i32,
    pub rows_content: Vec<Vec<CBytes>>,
}

/// Wire form of a rows result body.
pub open spec fn body_rows_bytes(b: BodyResResultRows) -> Seq<u8> {
    rows_metadata_bytes(b.metadata) + crate::types::be_ibytes(b.rows_count as int, 4) + rows_bytes(
        b.rows_content@,
    )
}

/// Every row holds exactly one cell per column.
pub open spec fn body_rows_wf(b: BodyResResultRows) -> bool {
    &&& rows_metadata_wf(b.metadata)
    &&& b.rows_count >= 0
    &&& b.rows_content@.len() == b.rows_count
    &&& (forall|i: int| 0 <= i < b.rows_content@.len() ==> (#[trigger] b.rows_content@[i])@.len()
        == b.metadata.columns_count)
}

/// Reads a rows result body at `pos`; the bytes consumed are exactly the
/// wire form of the returned body, which is well formed.
#[verifier::loop_isolation(false)]
#[verifier::rlimit(100)]
fn parse_rows(bytes: &[u8], pos: usize) -> (r: Result<(BodyResResultRows, usize), DecodeError>)
    ensures
        r matches Ok((b, p2)) ==> pos <= p2 <= bytes@.len() && bytes@.subrange(
            pos as int,
            p2 as int,
        ) == body_rows_bytes(b) && body_rows_wf(b),
{
    let (metadata, p1) = match parse_rows_metadata(bytes, pos) {
        Ok(m) => m,
        Err(e) => {
            return Err(e);
        },
    };
    let mut cur = p1;
    let rows_count = match cint_from_cursor(bytes, &mut cur) {
        Ok(c) => c,
        Err(e) => {
            return Err(e);
        },
    };
    if rows_count < 0 {
        return Err(DecodeError::NegativeLength);
    }
    proof {
        crate::types::lemma_be_ibytes_inv(bytes@.subrange(p1 as int, p1 + 4));
    }
    let cols = if metadata.columns_count >= 0 {
        metadata.columns_count as usize
    } else {
        0
    };
    let ghost p_rows = cur as int;
    let mut rows_content: Vec<Vec<CBytes>> = Vec::new();
    let mut i: usize = 0;
    proof {
        assert(bytes@.subrange(p_rows, cur as int) =~= rows_bytes(rows_content@));
    }
    while i < rows_count as usize
        invariant
            i <= rows_count as usize,
            rows_content@.len() == i,
            p_rows <= cur as int,
            cur <= bytes@.len(),
            bytes@.subrange(p_rows, cur as int) == rows_bytes(rows_content@),
            forall|k: int| 0 <= k < rows_content@.len() ==> (#[trigger] rows_content@[k])@.len()
                == cols,
        decreases rows_count as usize - i,
    {
        let ghost p_row = cur as int;
        let mut row: Vec<CBytes> = Vec::new();
        let mut j: usize = 0;
        proof {
            assert(bytes@.subrange(p_row, cur as int) =~= row_cells_bytes(row@));
        }
        while j < cols
            invariant
                j <= cols,
                row@.len() == j,
                p_row <= cur as int,
                cur <= bytes@.len(),
                bytes@.subrange(p_row, cur as int) == row_cells_bytes(row@),
            decreases cols - j,
        {
            let ghost p_cell = cur as int;
            let cell = match cbytes_canon(bytes, cur) {
                Ok((cb, p2)) => {
                    cur = p2;
                    cb
                },
                Err(e) => {
                    return Err(e);
                },
            };
            proof {
                let ext = row@.push(cell);
                assert(ext.drop_last() =~= row@);
                assert(ext.last() == cell);
                reveal_with_fuel(row_cells_bytes, 2);
                assert(row_cells_bytes(ext) == row_cells_bytes(row@) + crate::types::cbytes_bytes(
                    cell@,
                ));
                assert(bytes@.subrange(p_row, cur as int) =~= bytes@.subrange(p_row, p_cell)
                    + bytes@.subrange(p_cell, cur as int));
            }
            row.push(cell);
            j = j + 1;
        }
        proof {
            let ext = rows_content@.push(row);
            assert(ext.drop_last() =~= rows_content@);
            assert(ext.last() == row);
            reveal_with_fuel(rows_bytes, 2);
            assert(rows_bytes(ext) == rows_bytes(rows_content@) + row_cells_bytes(row@));
            assert(bytes@.subrange(p_rows, cur as int) =~= bytes@.subrange(p_rows, p_row)
                + bytes@.subrange(p_row, cur as int));
        }
        rows_content.push(row);
        i = i + 1;
    }
    let b = BodyResResultRows { metadata, rows_count, rows_content };
    proof {
        assert(bytes@.subrange(pos as int, cur as int) =~= bytes@.subrange(pos as int, p1 as int)
            + bytes@.subrange(p1 as int, p1 + 4) + bytes@.subrange(p_rows, cur as int));
        assert(bytes@.subrange(pos as int, cur as int) == body_rows_bytes(b));
    }
    Ok((b, cur))
}

/// The metadata a `PREPARE` result carries: bind-marker specs and the
/// partition-key indices among them.
#[derive(Debug)]
pub struct PreparedMetadata {
    /// The metadata flag bitmask.
    pub flags: i32,
    /// How many bind markers the statement has.
    pub columns_count: i32,
    /// Which bind markers form the partition key, in order.
    pub pk_indices: Vec<u16>,
    /// Keyspace and table shared by all markers, when the global flag is
    /// set.
    pub global_table_spec: Option<(String, String)>,
    /// The bind-marker specs.
    pub col_specs: Vec<ColSpec>,
}

/// Concatenated wire shorts of the partition-key indices.
pub open spec fn pk_indices_bytes(ix: Seq<u16>) -> Seq<u8>
    decreases ix,
{
    if ix.len() == 0 {
        seq![]
    } else {
        pk_indices_bytes(ix.drop_last()) + be_bytes(ix.last() as nat, 2)
    }
}

/// Wire form of a prepared-result metadata block.
pub open spec fn prepared_metadata_bytes(m: PreparedMetadata) -> Seq<u8> {
    crate::types::be_ibytes(m.flags as int, 4) + crate::types::be_ibytes(m.columns_count as int, 4)
        + crate::types::be_ibytes(m.pk_indices@.len() as int, 4) + pk_indices_bytes(m.pk_indices@)
        + (match m.global_table_spec {
        Some((k, t)) => crate::types::cstring_bytes(k@) + crate::types::cstring_bytes(t@),
        None => seq![],
    }) + col_specs_bytes(m.col_specs@)
}

/// The structural facts the prepared-metadata flags promise.
pub open spec fn prepared_metadata_wf(m: PreparedMetadata) -> bool {
    &&& (m.flags & 0x0001 != 0 <==> m.global_table_spec is Some)
    &&& m.columns_count >= 0
    &&& m.col_specs@.len() == m.columns_count
    &&& m.pk_indices@.len() <= i32::MAX
    &&& (forall|i: int| 0 <= i < m.col_specs@.len() ==> ((#[trigger] m.col_specs@[i]).table_spec
        is Some <==> m.flags & 0x0001 == 0))
}

/// Reads a prepared-result metadata block at `pos`.
#[verifier::loop_isolation(false)]
#[verifier::rlimit(100)]
fn parse_prepared_metadata(bytes: &[u8], pos: usize) -> (r: Result<
    (PreparedMetadata, usize),
    DecodeError,
>)
    ensures
        r matches Ok((m, p2)) ==> pos <= p2 <= bytes@.len() && bytes@.subrange(
            pos as int,
            p2 as int,
        ) == prepared_metadata_bytes(m) && prepared_metadata_wf(m),
{
    let mut cur = pos;
    let flags = match cint_from_cursor(bytes, &mut cur) {
        Ok(f) => f,
        Err(e) => {
            return Err(e);
        },
    };
    let columns_count = match cint_from_cursor(bytes, &mut cur) {
        Ok(c) => c,
        Err(e) => {
            return Err(e);
        },
    };
    let pk_count = match cint_from_cursor(bytes, &mut cur) {
        Ok(c) => c,
        Err(e) => {
            return Err(e);
        },
    };
    if columns_count < 0 || pk_count < 0 {
        return Err(DecodeError::NegativeLength);
    }
    proof {
        crate::types::lemma_be_ibytes_inv(bytes@.subrange(pos as int, pos + 4));
        crate::types::lemma_be_ibytes_inv(bytes@.subrange(pos + 4, pos + 8));
        crate::types::lemma_be_ibytes_inv(bytes@.subrange(pos + 8, pos + 12));
    }
    let ghost p_head = cur as int;
    let mut pk_indices: Vec<u16> = Vec::new();
    let mut i: usize = 0;
    proof {
        assert(bytes@.subrange(p_head, cur as int) =~= pk_indices_bytes(pk_indices@));
    }
    while i < pk_count as usize
        invariant
            i <= pk_count as usize,
            pk_indices@.len() == i,
            p_head <= cur as int,
            cur <= bytes@.len(),
            bytes@.subrange(p_head, cur as int) == pk_indices_bytes(pk_indices@),
        decreases pk_count as usize - i,
    {
        let ghost p_ix = cur as int;
        let ix = match read_u16(bytes, &mut cur) {
            Some(v) => v,
            None => {
                return Err(DecodeError::UnexpectedEnd);
            },
        };
        proof {
            crate::types::lemma_be_bytes_inv(bytes@.subrange(p_ix, p_ix + 2));
            let ext = pk_indices@.push(ix);
            assert(ext.drop_last() =~= pk_indices@);
            assert(ext.last() == ix);
            reveal_with_fuel(pk_indices_bytes, 2);
            assert(pk_indices_bytes(ext) == pk_indices_bytes(pk_indices@) + be_bytes(
                ix as nat,
                2,
            ));
            assert(bytes@.subrange(p_head, cur as int) =~= bytes@.subrange(p_head, p_ix)
                + bytes@.subrange(p_ix, cur as int));
        }
        pk_indices.push(ix);
        i = i + 1;
    }
    let ghost p_pk = cur as int;
    let global_table_spec: Option<(String, String)> = if flags & 0x0001 != 0 {
        match parse_table_pair(bytes, cur) {
            Ok((kt, p2)) => {
                cur = p2;
                Some(kt)
            },
            Err(e) => {
                return Err(e);
            },
        }
    } else {
        None
    };
    let ghost p_gts = cur as int;
    let col_specs = match parse_col_specs(bytes, cur, columns_count as usize, flags & 0x0001 == 0) {
        Ok((css, p2)) => {
            cur = p2;
            css
        },
        Err(e) => {
            return Err(e);
        },
    };
    let m = PreparedMetadata { flags, columns_count, pk_indices, global_table_spec, col_specs };
    proof {
        assert(bytes@.subrange(pos as int, pos + 12) =~= bytes@.subrange(pos as int, pos + 4)
            + bytes@.subrange(pos + 4, pos + 8) + bytes@.subrange(pos + 8, pos + 12));
        assert(bytes@.subrange(pos as int, cur as int) =~= bytes@.subrange(pos as int, pos + 12)
            + bytes@.subrange(p_head, p_pk) + bytes@.subrange(p_pk, p_gts) + bytes@.subrange(
            p_gts,
            cur as int,
        ));
        assert(bytes@.subrange(pos as int, cur as int) == prepared_metadata_bytes(m));
    }
    Ok((m, cur))
}

/// Result of a `PREPARE` request: the statement id and the metadata of
/// its bind markers and of its result rows.
#[derive(Debug)]
pub struct BodyResResultPrepared {
    /// The server-issued prepared-statement id.
    pub id: CBytesShort,
    /// The bind-marker metadata.
    pub metadata: PreparedMetadata,
    /// The metadata of the rows the statement will return.
    pub result_metadata: RowsMetadata,
}

/// Wire form of a prepared result body.
pub open spec fn prepared_bytes(p: BodyResResultPrepared) -> Seq<u8> {
    crate::types::cbytes_short_bytes(p.id@) + prepared_metadata_bytes(p.metadata)
        + rows_metadata_bytes(p.result_metadata)
}

/// Result of a `USE` query: the keyspace now current.
#[derive(Debug, Clone)]
pub struct BodyResResultSetKeyspace {
    /// The keyspace the connection switched to.
    pub body: CString,
}

/// The tagged body of a `RESULT` frame.
#[derive(Debug)]
pub enum ResResultBody {
    Void,
    Rows(BodyResResultRows),
    SetKeyspace(BodyResResultSetKeyspace),
    Prepared(BodyResResultPrepared),
    SchemaChange(SchemaChange),
}

/// What a successful `RESULT` body parse promises: the right kind int,
/// and the consumed bytes reproduce (or parse to) the returned value.
pub open spec fn result_body_sound(bytes: Seq<u8>, b: ResResultBody) -> bool {
    &&& bytes.len() >= 4
    &&& match b {
        ResResultBody::Void => be_ival(bytes.subrange(0, 4)) == 1,
        ResResultBody::Rows(rows) => be_ival(bytes.subrange(0, 4)) == 2 && body_rows_wf(rows)
            && bytes.subrange(4, 4 + body_rows_bytes(rows).len() as int) == body_rows_bytes(rows),
        ResResultBody::SetKeyspace(sk) => be_ival(bytes.subrange(0, 4)) == 3 && (
        spec_parse_cstring(bytes, 4) matches Some((s, _)) && sk.body@ == s),
        ResResultBody::Prepared(p) => be_ival(bytes.subrange(0, 4)) == 4 && prepared_metadata_wf(
            p.metadata,
        ) && rows_metadata_wf(p.result_metadata) && bytes.subrange(
            4,
            4 + prepared_bytes(p).len() as int,
        ) == prepared_bytes(p),
        ResResultBody::SchemaChange(sc) => be_ival(bytes.subrange(0, 4)) == 5 && (
        spec_parse_schema_change(bytes, 4) matches Some(((c, t, o), _)) && sc.change_type == c
            && sc.target == t && sc.options@ == o),
    }
}

impl ResResultBody {
    /// Reads a whole `RESULT` body: the four-byte kind, then the
    /// kind-specific payload. For the void, set-keyspace and
    /// schema-change kinds, failure happens exactly when the payload does
    /// not parse; a rows or prepared payload must additionally be in
    /// canonical form (null cells written with length -1).
    pub fn from_cursor(bytes: &[u8]) -> (r: Result<ResResultBody, DecodeError>)
        ensures
            r matches Ok(b) ==> result_body_sound(bytes@, b),
            r is Err ==> (bytes@.len() < 4 || {
                let kind = be_ival(bytes@.subrange(0, 4));
                ||| (kind == 3 && spec_parse_cstring(bytes@, 4) is None)
                ||| (kind == 5 && spec_parse_schema_change(bytes@, 4) is None)
                ||| kind == 2
                ||| kind == 4
                ||| !(kind == 1 || kind == 3 || kind == 5)
            }),
    {
        let mut cur: usize = 0;
        let kind = match cint_from_cursor(bytes, &mut cur) {
            Ok(k) => k,
            Err(e) => {
                return Err(e);
            },
        };
        if kind == 1 {
            Ok(ResResultBody::Void)
        } else if kind == 2 {
            let (rows, p2) = match parse_rows(bytes, cur) {
                Ok(p) => p,
                Err(e) => {
                    return Err(e);
                },
            };
            proof {
                assert(bytes@.subrange(4, 4 + body_rows_bytes(rows).len() as int)
                    == body_rows_bytes(rows));
            }
            Ok(ResResultBody::Rows(rows))
        } else if kind == 3 {
            let ks = match CString::from_cursor(bytes, &mut cur) {
                Ok(s) => s,
                Err(e) => {
                    return Err(e);
                },
            };
            Ok(ResResultBody::SetKeyspace(BodyResResultSetKeyspace { body: ks }))
        } else if kind == 4 {
            let (id, c2) = match cbytes_short_canon(bytes, cur) {
                Ok(p) => p,
                Err(e) => {
                    return Err(e);
                },
            };
            let ghost p_id = c2 as int;
            let (metadata, p3) = match parse_prepared_metadata(bytes, c2) {
                Ok(m) => m,
                Err(e) => {
                    return Err(e);
                },
            };
            let (result_metadata, p4) = match parse_rows_metadata(bytes, p3) {
                Ok(m) => m,
                Err(e) => {
                    return Err(e);
                },
            };
            let p = BodyResResultPrepared { id, metadata, result_metadata };
            proof {
                assert(bytes@.subrange(4, p4 as int) =~= bytes@.subrange(4, p_id)
                    + bytes@.subrange(p_id, p3 as int) + bytes@.subrange(p3 as int, p4 as int));
                assert(bytes@.subrange(4, p4 as int) == prepared_bytes(p));
                assert(bytes@.subrange(4, 4 + prepared_bytes(p).len() as int) == prepared_bytes(
                    p,
                ));
            }
            Ok(ResResultBody::Prepared(p))
        } else if kind == 5 {
            let sc = match SchemaChange::from_cursor(bytes, &mut cur) {
                Ok(s) => s,
                Err(e) => {
                    return Err(e);
                },
            };
            Ok(ResResultBody::SchemaChange(sc))
        } else {
            Err(DecodeError::UnknownResultKind)
        }
    }

    /// The rows of a rows result, if this is one.
    pub fn into_rows(self) -> (r: Option<Vec<Row>>)
        ensures
            r is Some <==> self is Rows,
            r matches Some(rows) ==> (self matches ResResultBody::Rows(b) && rows@.len()
                == b.rows_content@.len() && forall|i: int|
                0 <= i < rows@.len() ==> (#[trigger] rows@[i]).row_content == b.rows_content@[i]),
    {
        match self {
            ResResultBody::Rows(b) => {
                let mut rows: Vec<Row> = Vec::new();
                let mut content = b.rows_content;
                let n = content.len();
                let ghost content0 = content@;
                let mut i: usize = 0;
                while i < n
                    invariant
                        i <= n,
                        n == content0.len(),
                        content@ =~= content0.subrange(i as int, n as int),
                        rows@.len() == i,
                        forall|k: int| 0 <= k < i ==> (#[trigger] rows@[k]).row_content
                            == content0[k],
                    decreases n - i,
                {
                    let rc = content.remove(0);
                    rows.push(Row { row_content: rc });
                    proof {
                        assert(content@ =~= content0.subrange(i + 1, n as int));
                    }
                    i = i + 1;
                }
                Some(rows)
            },
            _ => None,
        }
    }

    /// The rows metadata, if this is a rows result.
    pub fn as_rows_metadata(&self) -> (r: Option<&RowsMetadata>)
        ensures
            r is Some <==> self is Rows,
            r matches Some(m) ==> (self matches ResResultBody::Rows(b) && *m == b.metadata),
    {
        match self {
            ResResultBody::Rows(b) => Some(&b.metadata),
            _ => None,
        }
    }

    /// The prepared result, if this is one.
    pub fn into_prepared(self) -> (r: Option<BodyResResultPrepared>)
        ensures
            r is Some <==> self is Prepared,
            r matches Some(p) ==> self == ResResultBody::Prepared(p),
    {
        match self {
            ResResultBody::Prepared(p) => Some(p),
            _ => None,
        }
    }

    /// The set-keyspace result, if this is one.
    pub fn into_set_keyspace(self) -> (r: Option<BodyResResultSetKeyspace>)
        ensures
            r is Some <==> self is SetKeyspace,
            r matches Some(s) ==> self == ResResultBody::SetKeyspace(s),
    {
        match self {
            ResResultBody::SetKeyspace(s) => Some(s),
            _ => None,
        }
    }
}

/// One row of a rows result: the raw cell of each column, interpreted
/// lazily against the column types.
#[derive(Debug, Clone)]
pub struct Row {
    /// The raw cells, one per column.
    pub row_content: Vec<CBytes>,
}

/// The decoded body of a response frame, by opcode.
#[derive(Debug)]
pub enum ResponseBody {
    Error(CDRSError),
    Ready(BodyResResultVoid),
    Authenticate(BodyResAuthenticate),
    Supported(BodyResSupported),
    Result(ResResultBody),
    Event(BodyResEvent),
    AuthChallenge(BodyResAuthChallenge),
    AuthSuccess(BodyReqAuthSuccess),
}

/// The opcodes a server response may carry.
pub open spec fn is_response_opcode(o: Opcode) -> bool {
    o == Opcode::Error || o == Opcode::Ready || o == Opcode::Authenticate || o == Opcode::Supported
        || o == Opcode::Result || o == Opcode::Event || o == Opcode::AuthChallenge || o
        == Opcode::AuthSuccess
}

/// What a successful body decode promises, opcode by opcode.
pub open spec fn response_body_matches(bytes: Seq<u8>, o: Opcode, b: ResponseBody) -> bool {
    match o {
        Opcode::Error => b matches ResponseBody::Error(e) && (spec_parse_error(bytes, 0)
            matches Some(((c, m, i), _)) && e.error_code == c && e.message@ == m
            && e.additional_info@ == i),
        Opcode::Ready => b == ResponseBody::Ready(BodyResResultVoid {  }),
        Opcode::Authenticate => b matches ResponseBody::Authenticate(a) && (
        spec_parse_authenticate(bytes, 0) matches Some((s, _)) && a.data@ == s),
        Opcode::Supported => b matches ResponseBody::Supported(s) && (spec_parse_supported(
            bytes,
            0,
        ) matches Some((m, _)) && s@ == m),
        Opcode::Result => b matches ResponseBody::Result(res) && result_body_sound(bytes, res),
        Opcode::Event => b matches ResponseBody::Event(ev) && (spec_parse_event(bytes, 0)
            matches Some((v, _)) && ev.event@ == v),
        Opcode::AuthChallenge => b matches ResponseBody::AuthChallenge(c) && (
        crate::types::spec_parse_cbytes(bytes, 0) matches Some((v, _)) && c.data@ == v),
        Opcode::AuthSuccess => b matches ResponseBody::AuthSuccess(s) && (
        crate::types::spec_parse_cbytes(bytes, 0) matches Some((v, _)) && s.data@ == v),
        _ => false,
    }
}

impl ResponseBody {
    /// Decodes a response frame's body bytes under its opcode. Request
    /// opcodes never carry a decodable response body and are excluded.
    pub fn from(bytes: &[u8], response_type: &Opcode) -> (r: Result<ResponseBody, DecodeError>)
        requires
            is_response_opcode(*response_type),
        ensures
            r matches Ok(b) ==> response_body_matches(bytes@, *response_type, b),
            r is Err ==> match *response_type {
                Opcode::Error => spec_parse_error(bytes@, 0) is None,
                Opcode::Ready => false,
                Opcode::Authenticate => spec_parse_authenticate(bytes@, 0) is None,
                Opcode::Supported => spec_parse_supported(bytes@, 0) is None,
                Opcode::Event => spec_parse_event(bytes@, 0) is None,
                Opcode::AuthChallenge => crate::types::spec_parse_cbytes(bytes@, 0) is None,
                Opcode::AuthSuccess => crate::types::spec_parse_cbytes(bytes@, 0) is None,
                _ => true,
            },
    {
        let mut cur: usize = 0;
        match *response_type {
            Opcode::Error => match CDRSError::from_cursor(bytes, &mut cur) {
                Ok(e) => Ok(ResponseBody::Error(e)),
                Err(e) => Err(e),
            },
            Opcode::Ready => Ok(ResponseBody::Ready(BodyResResultVoid {  })),
            Opcode::Authenticate => match BodyResAuthenticate::from_cursor(bytes, &mut cur) {
                Ok(a) => Ok(ResponseBody::Authenticate(a)),
                Err(e) => Err(e),
            },
            Opcode::Supported => match BodyResSupported::from_cursor(bytes, &mut cur) {
                Ok(s) => Ok(ResponseBody::Supported(s)),
                Err(e) => Err(e),
            },
            Opcode::Result => match ResResultBody::from_cursor(bytes) {
                Ok(b) => Ok(ResponseBody::Result(b)),
                Err(e) => Err(e),
            },
            Opcode::Event => match BodyResEvent::from_cursor(bytes, &mut cur) {
                Ok(ev) => Ok(ResponseBody::Event(ev)),
                Err(e) => Err(e),
            },
            Opcode::AuthChallenge => match CBytes::from_cursor(bytes, &mut cur) {
                Ok(c) => Ok(ResponseBody::AuthChallenge(BodyResAuthChallenge { data: c })),
                Err(e) => Err(e),
            },
            Opcode::AuthSuccess => match CBytes::from_cursor(bytes, &mut cur) {
                Ok(c) => Ok(ResponseBody::AuthSuccess(BodyReqAuthSuccess { data: c })),
                Err(e) => Err(e),
            },
            _ => Err(DecodeError::UnexpectedEventOpcode),
        }
    }

    /// The rows of a rows result, if this body is one.
    pub fn into_rows(self) -> (r: Option<Vec<Row>>)
        ensures
            r is Some <==> (self matches ResponseBody::Result(res) && res is Rows),
            r matches Some(rows) ==> (self matches ResponseBody::Result(ResResultBody::Rows(b))
                && rows@.len() == b.rows_content@.len() && forall|i: int|
                0 <= i < rows@.len() ==> (#[trigger] rows@[i]).row_content
                    == b.rows_content@[i]),
    {
        match self {
            ResponseBody::Result(res) => res.into_rows(),
            _ => None,
        }
    }

    /// The rows metadata, if this body is a rows result.
    pub fn as_rows_metadata(&self) -> (r: Option<&RowsMetadata>)
        ensures
            r is Some <==> (self matches ResponseBody::Result(res) && res is Rows),
            r matches Some(m) ==> (self matches ResponseBody::Result(ResResultBody::Rows(b)) && *m
                == b.metadata),
    {
        match self {
            ResponseBody::Result(ref res) => res.as_rows_metadata(),
            _ => None,
        }
    }

    /// The whole rows result, if this body is one.
    pub fn as_cols(&self) -> (r: Option<&BodyResResultRows>)
        ensures
            r is Some <==> (self matches ResponseBody::Result(res) && res is Rows),
            r matches Some(rows) ==> (self matches ResponseBody::Result(res) && res
                == ResResultBody::Rows(*rows)),
    {
        match self {
            ResponseBody::Result(ResResultBody::Rows(ref rows)) => Some(rows),
            _ => None,
        }
    }

    /// The exact result of a `PREPARE` query; `None` when the body is not
    /// a result.
    pub fn into_prepared(self) -> (r: Option<BodyResResultPrepared>)
        ensures
            r is Some <==> (self matches ResponseBody::Result(res) && res is Prepared),
            r matches Some(p) ==> self == ResponseBody::Result(ResResultBody::Prepared(p)),
    {
        match self {
            ResponseBody::Result(res) => res.into_prepared(),
            _ => None,
        }
    }

    /// The result of a `USE` query; `None` when the body is not a result.
    pub fn into_set_keyspace(self) -> (r: Option<BodyResResultSetKeyspace>)
        ensures
            r is Some <==> (self matches ResponseBody::Result(res) && res is SetKeyspace),
            r matches Some(s) ==> self == ResponseBody::Result(ResResultBody::SetKeyspace(s)),
    {
        match self {
            ResponseBody::Result(res) => res.into_set_keyspace(),
            _ => None,
        }
    }

    /// The event body; `None` when the body is not an event.
    pub fn into_server_event(self) -> (r: Option<BodyResEvent>)
        ensures
            r is Some <==> self is Event,
            r matches Some(ev) ==> self == ResponseBody::Event(ev),
    {
        match self {
            ResponseBody::Event(event) => Some(event),
            _ => None,
        }
    }

    /// The authenticator the server demands; `None` when the body is not
    /// an `AUTHENTICATE`.
    pub fn get_authenticator(&self) -> (r: Option<&str>)
        ensures
            r is Some <==> self is Authenticate,
            r matches Some(s) ==> (self matches ResponseBody::Authenticate(a) && s@ == a.data@),
    {
        match *self {
            ResponseBody::Authenticate(ref auth) => Some(auth.data.as_str()),
            _ => None,
        }
    }
}

impl crate::frame::Frame {
    /// Decodes this frame's body under its opcode; the frame must be a
    /// response (request bodies are never decoded by a client).
    pub fn get_body(&self) -> (r: Result<ResponseBody, DecodeError>)
        requires
            is_response_opcode(self.opcode),
        ensures
            r matches Ok(b) ==> response_body_matches(self.body@, self.opcode, b),
            r is Err ==> match self.opcode {
                Opcode::Error => spec_parse_error(self.body@, 0) is None,
                Opcode::Ready => false,
                Opcode::Authenticate => spec_parse_authenticate(self.body@, 0) is None,
                Opcode::Supported => spec_parse_supported(self.body@, 0) is None,
                Opcode::Event => spec_parse_event(self.body@, 0) is None,
                Opcode::AuthChallenge => crate::types::spec_parse_cbytes(self.body@, 0) is None,
                Opcode::AuthSuccess => crate::types::spec_parse_cbytes(self.body@, 0) is None,
                _ => true,
            },
    {
        ResponseBody::from(self.body.as_slice(), &self.opcode)
    }
}

impl crate::types::IntoRustByIndex<CBytes> for Row {
    /// The raw cell at `index`: `None` when the column is null, not set,
    /// or beyond the row.
    fn get_by_index(&self, index: usize) -> Result<Option<CBytes>, DecodeError> {
        if index < self.row_content.len() {
            let cell = self.row_content[index].clone();
            if cell.is_empty() {
                Ok(None)
            } else {
                Ok(Some(cell))
            }
        } else {
            Ok(None)
        }
    }
}

impl crate::types::ByIndex for Row {

}

} // verus!
