//! Executable primitive readers over a bounded region of a byte buffer.
//!
//! Each reader takes the buffer together with the bounds `pos..end` of the
//! region it may read, and returns the decoded value with the position just
//! past the bytes it consumed.  Every contract is stated as exact agreement
//! with the corresponding `wire` spec function on `data[pos..end]`.

use vstd::prelude::*;
use vstd::utf8::{valid_utf8, decode_utf8};
use crate::error::OscError;
use crate::wire::{
    be_u32, be_i32, blob_pad_len, chunk_pad_ok, chunk_zero_idx, no_null, parse_blob, parse_token,
    parse_token_raw,
};

verus! {

/// Relies on `str::from_utf8`: it returns `Ok` exactly when the bytes are
/// valid UTF-8.
#[verifier::external_body]
pub(crate) fn utf8_ok(v: &Vec<u8>) -> (r: bool)
    ensures
        r == valid_utf8(v@),
{
    std::str::from_utf8(v.as_slice()).is_ok()
}

/// Relies on `String::from_utf8`: it returns, exactly when the bytes are
/// valid UTF-8, the string those bytes encode.
#[verifier::external_body]
pub(crate) fn bytes_into_string(b: Vec<u8>) -> (r: Result<String, OscError>)
    ensures
        r is Ok <==> valid_utf8(b@),
        r matches Ok(s) ==> s@ == decode_utf8(b@),
{
    match String::from_utf8(b) {
        Ok(s) => Ok(s),
        Err(_) => Err(OscError::StrParseError),
    }
}

/// What the raw token reader consumes: at least one whole 4-byte chunk, a
/// multiple of 4, never more than the region; the token is shorter than the
/// consumed bytes and holds no null.
pub proof fn lemma_parse_token_raw_bounds(s: Seq<u8>)
    ensures
        parse_token_raw(s) matches Ok(r) ==> {
            &&& 4 <= r.1 <= s.len()
            &&& r.1 % 4 == 0
            &&& r.0.len() < r.1
            &&& no_null(r.0)
        },
    decreases s.len(),
{
    if s.len() < 4 {
    } else {
        let c = s.subrange(0, 4);
        if chunk_zero_idx(c) == 4 {
            lemma_parse_token_raw_bounds(s.skip(4));
            if parse_token_raw(s.skip(4)) is Ok {
                let t = parse_token_raw(s.skip(4))->Ok_0.0;
                assert forall|i: int| 0 <= i < (c + t).len() implies (c + t)[i] != 0 by {
                    if i < 4 {
                        assert((c + t)[i] == c[i]);
                    } else {
                        assert((c + t)[i] == t[i - 4]);
                    }
                }
            }
        } else {
        }
    }
}

/// Reads one 32-bit big-endian unsigned integer.
pub(crate) fn read_u32_be(data: &Vec<u8>, pos: usize, end: usize) -> (r: Result<(u32, usize), OscError>)
    requires
        pos <= end <= data@.len(),
    ensures
        ({
            let s = data@.subrange(pos as int, end as int);
            match r {
                Ok((v, p)) => s.len() >= 4 && p == pos + 4 && v == be_u32(s),
                Err(e) => s.len() < 4 && e == OscError::EndOfData,
            }
        }),
{
    if end - pos < 4 {
        return Err(OscError::EndOfData);
    }
    let v = (data[pos] as u32) * 0x1000000 + (data[pos + 1] as u32) * 0x10000 + (data[pos + 2]
        as u32) * 0x100 + (data[pos + 3] as u32);
    proof {
        let s = data@.subrange(pos as int, end as int);
        assert(s[0] == data@[pos as int] && s[1] == data@[pos + 1] && s[2] == data@[pos + 2] && s[3]
            == data@[pos + 3]);
    }
    Ok((v, pos + 4))
}

/// Reads one 32-bit big-endian signed integer (two's complement).
pub(crate) fn read_i32_be(data: &Vec<u8>, pos: usize, end: usize) -> (r: Result<(i32, usize), OscError>)
    requires
        pos <= end <= data@.len(),
    ensures
        ({
            let s = data@.subrange(pos as int, end as int);
            match r {
                Ok((v, p)) => s.len() >= 4 && p == pos + 4 && v == be_i32(s),
                Err(e) => s.len() < 4 && e == OscError::EndOfData,
            }
        }),
{
    match read_u32_be(data, pos, end) {
        Ok((v, p)) => Ok((#[verifier::truncate] (v as i32), p)),
        Err(e) => Err(e),
    }
}

/// Reads one null-terminated, 4-byte-padded token's raw bytes: whole chunks
/// until one holds a null, whose trailing bytes must all be null.
pub(crate) fn read_token_raw(data: &Vec<u8>, pos: usize, end: usize) -> (r: Result<
    (Vec<u8>, usize),
    OscError,
>)
    requires
        pos <= end <= data@.len(),
    ensures
        ({
            let s = data@.subrange(pos as int, end as int);
            match r {
                Ok((t, p)) => {
                    &&& pos + 4 <= p <= end
                    &&& parse_token_raw(s) == Ok::<(Seq<u8>, int), OscError>((t@, p - pos))
                },
                Err(e) => parse_token_raw(s) == Err::<(Seq<u8>, int), OscError>(e),
            }
        }),
{
    let mut out: Vec<u8> = Vec::new();
    let mut p: usize = pos;
    loop
        invariant
            pos <= p <= end <= data@.len(),
            out@.len() <= p - pos,
            parse_token_raw(data@.subrange(pos as int, end as int)) == (match parse_token_raw(
                data@.subrange(p as int, end as int),
            ) {
                Ok((t, n)) => Ok::<(Seq<u8>, int), OscError>((out@ + t, (p - pos) + n)),
                Err(e) => Err::<(Seq<u8>, int), OscError>(e),
            }),
        decreases end - p,
    {
        let ghost srest = data@.subrange(p as int, end as int);
        if end - p < 4 {
            assert(srest.len() < 4);
            return Err(OscError::EndOfData);
        }
        let c0 = data[p];
        let c1 = data[p + 1];
        let c2 = data[p + 2];
        let c3 = data[p + 3];
        let ghost c = srest.subrange(0, 4);
        proof {
            assert(c[0] == c0 && c[1] == c1 && c[2] == c2 && c[3] == c3);
        }
        let z: usize = if c0 == 0 {
            0
        } else if c1 == 0 {
            1
        } else if c2 == 0 {
            2
        } else if c3 == 0 {
            3
        } else {
            4
        };
        proof {
            assert(chunk_zero_idx(c) == z);
        }
        if z == 4 {
            let ghost out_old = out@;
            out.push(c0);
            out.push(c1);
            out.push(c2);
            out.push(c3);
            proof {
                assert(out@ =~= out_old + c);
                assert(srest.skip(4) =~= data@.subrange(p + 4, end as int));
                if parse_token_raw(srest.skip(4)) is Ok {
                    let t = parse_token_raw(srest.skip(4))->Ok_0.0;
                    assert((out_old + c) + t =~= out_old + (c + t));
                }
            }
            p = p + 4;
        } else {
            let pad_ok = if z == 0 {
                c1 == 0 && c2 == 0 && c3 == 0
            } else if z == 1 {
                c2 == 0 && c3 == 0
            } else if z == 2 {
                c3 == 0
            } else {
                true
            };
            if !pad_ok {
                proof {
                    assert(!chunk_pad_ok(c)) by {
                        if z == 0 {
                            if c1 != 0 {
                                assert(!(forall|j: int| chunk_zero_idx(c) <= j < 4 ==> c[j] == 0))
                                    by { assert(c[1] != 0); };
                            } else if c2 != 0 {
                                assert(c[2] != 0);
                            } else {
                                assert(c[3] != 0);
                            }
                        } else if z == 1 {
                            if c2 != 0 {
                                assert(c[2] != 0);
                            } else {
                                assert(c[3] != 0);
                            }
                        } else {
                            assert(c[3] != 0);
                        }
                    }
                }
                return Err(OscError::BadPadding);
            }
            proof {
                assert(chunk_pad_ok(c));
            }
            let ghost out_old = out@;
            if z >= 1 {
                out.push(c0);
            }
            if z >= 2 {
                out.push(c1);
            }
            if z >= 3 {
                out.push(c2);
            }
            proof {
                assert(out@ =~= out_old + c.subrange(0, z as int));
            }
            return Ok((out, p + 4));
        }
    }
}

/// Reads one full token: raw bytes that must also be valid UTF-8.
pub(crate) fn read_token(data: &Vec<u8>, pos: usize, end: usize) -> (r: Result<
    (Vec<u8>, usize),
    OscError,
>)
    requires
        pos <= end <= data@.len(),
    ensures
        ({
            let s = data@.subrange(pos as int, end as int);
            match r {
                Ok((t, p)) => {
                    &&& pos + 4 <= p <= end
                    &&& parse_token(s) == Ok::<(Seq<u8>, int), OscError>((t@, p - pos))
                },
                Err(e) => parse_token(s) == Err::<(Seq<u8>, int), OscError>(e),
            }
        }),
{
    match read_token_raw(data, pos, end) {
        Ok((t, p)) => {
            if utf8_ok(&t) {
                Ok((t, p))
            } else {
                Err(OscError::StrParseError)
            }
        },
        Err(e) => Err(e),
    }
}

/// Reads one blob: 4-byte big-endian length, payload, then just enough null
/// bytes to restore 4-byte alignment.
#[verifier::loop_isolation(false)]
pub(crate) fn read_blob(data: &Vec<u8>, pos: usize, end: usize) -> (r: Result<
    (Vec<u8>, usize),
    OscError,
>)
    requires
        pos <= end <= data@.len(),
    ensures
        ({
            let s = data@.subrange(pos as int, end as int);
            match r {
                Ok((d, p)) => {
                    &&& pos + 4 <= p <= end
                    &&& parse_blob(s) == Ok::<(Seq<u8>, int), OscError>((d@, p - pos))
                },
                Err(e) => parse_blob(s) == Err::<(Seq<u8>, int), OscError>(e),
            }
        }),
{
    let ghost s = data@.subrange(pos as int, end as int);
    let lv = match read_u32_be(data, pos, end) {
        Ok((lv, _)) => lv,
        Err(e) => {
            return Err(e);
        },
    };
    let p1 = pos + 4;
    let l = lv as usize;
    let pad = ((4 - (lv % 4)) % 4) as usize;
    proof {
        assert(be_u32(s.subrange(0, 4)) == be_u32(s));
        assert(pad == blob_pad_len(l as int));
    }
    let avail = end - p1;
    if avail < l || avail - l < pad {
        assert(s.len() < 4 + l + pad);
        return Err(OscError::EndOfData);
    }
    let mut d: Vec<u8> = Vec::new();
    let mut i: usize = 0;
    while i < l
        invariant
            i <= l,
            p1 == pos + 4,
            p1 + l + pad <= end <= data@.len(),
            d@.len() == i,
            forall|k: int| 0 <= k < i ==> d@[k] == data@[p1 + k],
        decreases l - i,
    {
        d.push(data[p1 + i]);
        i = i + 1;
    }
    proof {
        assert(d@ =~= s.subrange(4, 4 + l));
    }
    let mut j: usize = 0;
    while j < pad
        invariant
            j <= pad,
            p1 == pos + 4,
            p1 + l + pad <= end <= data@.len(),
            forall|k: int| 0 <= k < j ==> #[trigger] data@[p1 + l + k] == 0,
        decreases pad - j,
    {
        if data[p1 + l + j] != 0 {
            proof {
                assert(s[4 + l + j] == data@[pos + 4 + l + j]);
            }
            return Err(OscError::BadPadding);
        }
        j = j + 1;
    }
    proof {
        assert forall|k: int| 4 + l <= k < 4 + l + pad implies s[k] == 0 by {
            assert(data@[pos + k] == data@[p1 + l + (k - 4 - l)]);
        }
    }
    Ok((d, p1 + l + pad))
}

} // verus!
