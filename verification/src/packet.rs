//! Packet classifier, message decoder and bundle decoder.
//!
//! `read_packet` inspects the leading token of a bounded region and decodes
//! a whole message or bundle from it; `from_vec` decodes one packet from an
//! exactly-framed buffer.  Each contract is exact agreement with the `wire`
//! spec parser, on success and on failure alike.

use vstd::prelude::*;
use crate::error::OscError;
use crate::prim::{
    lemma_parse_token_raw_bounds, read_blob, read_i32_be, read_token, read_token_raw, read_u32_be,
};
use crate::value::{
    args_view, lemma_packets_view_push, packets_view, Bundle, Message, OscArg, Packet,
};
use crate::wire::{
    bundle_marker, be_u32, parse_arg, parse_args, parse_elems, parse_msg_rest, parse_packet,
    parse_token, ArgV, MsgV, PacketV, COMMA, SLASH, TC_BLOB, TC_FLOAT32, TC_INT32, TC_STR,
};

verus! {

/// Bundles nested deeper than this are rejected, guarding the call stack
/// against adversarial input.
pub const MAX_BUNDLE_DEPTH: u32 = 32;

/// Reads the one argument the typestring character `code` announces.
pub(crate) fn read_arg(code: u8, data: &Vec<u8>, pos: usize, end: usize) -> (r: Result<
    (OscArg, usize),
    OscError,
>)
    requires
        pos <= end <= data@.len(),
    ensures
        ({
            let s = data@.subrange(pos as int, end as int);
            match r {
                Ok((a, p)) => {
                    &&& pos <= p <= end
                    &&& parse_arg(code, s) == Ok::<(ArgV, int), OscError>((a@, p - pos))
                },
                Err(e) => parse_arg(code, s) == Err::<(ArgV, int), OscError>(e),
            }
        }),
{
    let ghost s = data@.subrange(pos as int, end as int);
    if code == TC_INT32 {
        match read_i32_be(data, pos, end) {
            Ok((v, p)) => {
                proof {
                    assert(be_u32(s.subrange(0, 4)) == be_u32(s));
                }
                Ok((OscArg::I(v), p))
            },
            Err(e) => Err(e),
        }
    } else if code == TC_FLOAT32 {
        match read_u32_be(data, pos, end) {
            Ok((v, p)) => {
                proof {
                    assert(be_u32(s.subrange(0, 4)) == be_u32(s));
                }
                Ok((OscArg::F(v), p))
            },
            Err(e) => Err(e),
        }
    } else if code == TC_STR {
        match read_token(data, pos, end) {
            Ok((t, p)) => Ok((OscArg::S(t), p)),
            Err(e) => Err(e),
        }
    } else if code == TC_BLOB {
        match read_blob(data, pos, end) {
            Ok((d, p)) => Ok((OscArg::B(d), p)),
            Err(e) => Err(e),
        }
    } else {
        Err(OscError::UnknownType(code))
    }
}

/// Reads one argument per typestring character, in order.
#[verifier::loop_isolation(false)]
pub(crate) fn read_args(tags: &Vec<u8>, data: &Vec<u8>, pos: usize, end: usize) -> (r: Result<
    (Vec<OscArg>, usize),
    OscError,
>)
    requires
        pos <= end <= data@.len(),
    ensures
        ({
            let s = data@.subrange(pos as int, end as int);
            match r {
                Ok((args, p)) => {
                    &&& pos <= p <= end
                    &&& parse_args(tags@, s) == Ok::<(Seq<ArgV>, int), OscError>(
                        (args_view(args@), p - pos),
                    )
                },
                Err(e) => parse_args(tags@, s) == Err::<(Seq<ArgV>, int), OscError>(e),
            }
        }),
{
    let mut args: Vec<OscArg> = Vec::new();
    let mut p: usize = pos;
    let mut i: usize = 0;
    proof {
        assert(tags@.skip(0) =~= tags@);
        assert(args_view(args@) =~= Seq::<ArgV>::empty());
        if parse_args(tags@, data@.subrange(pos as int, end as int)) is Ok {
            let rest = parse_args(tags@, data@.subrange(pos as int, end as int))->Ok_0.0;
            assert(args_view(args@) + rest =~= rest);
        }
    }
    while i < tags.len()
        invariant
            i <= tags@.len(),
            pos <= p <= end,
            args@.len() == i,
            parse_args(tags@, data@.subrange(pos as int, end as int)) == (match parse_args(
                tags@.skip(i as int),
                data@.subrange(p as int, end as int),
            ) {
                Ok((rest, m)) => Ok::<(Seq<ArgV>, int), OscError>(
                    (args_view(args@) + rest, (p - pos) + m),
                ),
                Err(e) => Err::<(Seq<ArgV>, int), OscError>(e),
            }),
        decreases tags@.len() - i,
    {
        let ghost sp = data@.subrange(p as int, end as int);
        let code = tags[i];
        proof {
            assert(tags@.skip(i as int)[0] == code);
        }
        match read_arg(code, data, p, end) {
            Ok((a, p2)) => {
                proof {
                    let n = p2 - p;
                    assert(sp.skip(n) =~= data@.subrange(p2 as int, end as int));
                    assert(tags@.skip(i as int).skip(1) =~= tags@.skip(i + 1));
                    let ghost av = args_view(args@);
                    assert(args_view(args@.push(a)) =~= av + seq![a@]);
                    if parse_args(tags@.skip(i + 1), sp.skip(n)) is Ok {
                        let rest = parse_args(tags@.skip(i + 1), sp.skip(n))->Ok_0.0;
                        assert((av + seq![a@]) + rest =~= av + (seq![a@] + rest));
                    }
                }
                args.push(a);
                p = p2;
                i = i + 1;
            },
            Err(e) => {
                return Err(e);
            },
        }
    }
    proof {
        assert(tags@.skip(tags@.len() as int) =~= Seq::<u8>::empty());
        assert(args_view(args@) + Seq::<ArgV>::empty() =~= args_view(args@));
    }
    Ok((args, p))
}

/// Decodes the rest of a message whose address token is already in hand:
/// the comma-led typestring token, then its arguments.
#[verifier::loop_isolation(false)]
pub fn read_message_rest(address: Vec<u8>, data: &Vec<u8>, pos: usize, end: usize) -> (r: Result<
    (Message, usize),
    OscError,
>)
    requires
        pos <= end <= data@.len(),
    ensures
        ({
            let s = data@.subrange(pos as int, end as int);
            match r {
                Ok((m, p)) => {
                    &&& pos <= p <= end
                    &&& parse_msg_rest(address@, s) == Ok::<(MsgV, int), OscError>((m@, p - pos))
                },
                Err(e) => parse_msg_rest(address@, s) == Err::<(MsgV, int), OscError>(e),
            }
        }),
{
    let (tt, p1) = match read_token(data, pos, end) {
        Ok(x) => x,
        Err(e) => {
            return Err(e);
        },
    };
    if tt.len() == 0 {
        return Err(OscError::MalformedPacket);
    }
    if tt[0] != COMMA {
        return Err(OscError::MalformedPacket);
    }
    let mut tags: Vec<u8> = Vec::new();
    let mut i: usize = 1;
    while i < tt.len()
        invariant
            1 <= i <= tt@.len(),
            tags@.len() == i - 1,
            forall|k: int| 0 <= k < i - 1 ==> tags@[k] == tt@[k + 1],
        decreases tt@.len() - i,
    {
        tags.push(tt[i]);
        i = i + 1;
    }
    proof {
        assert(tags@ =~= tt@.skip(1));
        assert(data@.subrange(pos as int, end as int).skip(p1 - pos) =~= data@.subrange(
            p1 as int,
            end as int,
        ));
    }
    match read_args(&tags, data, p1, end) {
        Ok((args, p2)) => Ok((Message { address, typetags: tags, args }, p2)),
        Err(e) => Err(e),
    }
}

/// Classifies and decodes one packet from `data[pos..end]`.  The bundle
/// marker opens a time tag and size-prefixed elements that must exhaust the
/// region; a token starting with `/` opens a message; anything else is
/// malformed.  `depth` bounds how many bundle levels may still be entered.
#[verifier::loop_isolation(false)]
pub fn read_packet(data: &Vec<u8>, pos: usize, end: usize, depth: u32) -> (r: Result<
    (Packet, usize),
    OscError,
>)
    requires
        pos <= end <= data@.len(),
    ensures
        ({
            let s = data@.subrange(pos as int, end as int);
            match r {
                Ok((p, q)) => {
                    &&& pos <= q <= end
                    &&& parse_packet(s, depth as nat) == Ok::<(PacketV, int), OscError>(
                        (p@, q - pos),
                    )
                },
                Err(e) => parse_packet(s, depth as nat) == Err::<(PacketV, int), OscError>(e),
            }
        }),
    decreases end - pos,
{
    let ghost s = data@.subrange(pos as int, end as int);
    let (t, p1) = match read_token(data, pos, end) {
        Ok(x) => x,
        Err(e) => {
            return Err(e);
        },
    };
    let ghost tv = t@;
    let ghost n = p1 - pos;
    proof {
        lemma_parse_token_raw_bounds(s);
        assert(s.skip(n) =~= data@.subrange(p1 as int, end as int));
    }
    let is_bundle = t.len() == 7 && t[0] == 35 && t[1] == 98 && t[2] == 117 && t[3] == 110 && t[4]
        == 100 && t[5] == 108 && t[6] == 101;
    proof {
        if is_bundle {
            assert(tv =~= bundle_marker());
        } else {
            assert(tv != bundle_marker()) by {
                if tv == bundle_marker() {
                    assert(tv.len() == 7);
                    assert(tv[0] == 35 && tv[1] == 98 && tv[2] == 117 && tv[3] == 110 && tv[4]
                        == 100 && tv[5] == 108 && tv[6] == 101);
                }
            }
        }
    }
    if is_bundle {
        if depth == 0 {
            return Err(OscError::MalformedPacket);
        }
        if end - p1 < 8 {
            return Err(OscError::EndOfData);
        }
        let ghost body = s.skip(n);
        let sec = match read_u32_be(data, p1, end) {
            Ok((v, _)) => v,
            Err(e) => {
                return Err(e);
            },
        };
        let frac = match read_u32_be(data, p1 + 4, end) {
            Ok((v, _)) => v,
            Err(e) => {
                return Err(e);
            },
        };
        proof {
            assert(body.subrange(0, 4) =~= data@.subrange(p1 as int, end as int).subrange(0, 4));
            assert(be_u32(body.subrange(0, 4)) == be_u32(data@.subrange(p1 as int, end as int)));
            assert(body.subrange(4, 8) =~= data@.subrange(p1 + 4, end as int).subrange(0, 4));
            assert(be_u32(body.subrange(4, 8)) == be_u32(data@.subrange(p1 + 4, end as int)));
            assert(body.skip(8) =~= data@.subrange(p1 + 8, end as int));
        }
        let ghost d2 = (depth - 1) as nat;
        let mut elems: Vec<Packet> = Vec::new();
        let mut p: usize = p1 + 8;
        loop
            invariant
                p1 + 8 <= p <= end,
                pos + 8 <= p1,
                parse_elems(data@.subrange(p1 + 8, end as int), d2) == (match parse_elems(
                    data@.subrange(p as int, end as int),
                    d2,
                ) {
                    Ok(rest) => Ok::<Seq<PacketV>, OscError>(packets_view(elems@) + rest),
                    Err(e) => Err::<Seq<PacketV>, OscError>(e),
                }),
            decreases end - p,
        {
            let ghost sp = data@.subrange(p as int, end as int);
            if end - p == 0 {
                proof {
                    assert(packets_view(elems@) + Seq::<PacketV>::empty() =~= packets_view(
                        elems@,
                    ));
                }
                break ;
            }
            if end - p < 4 {
                return Err(OscError::FramingMismatch);
            }
            let l32 = match read_u32_be(data, p, end) {
                Ok((v, _)) => v,
                Err(e) => {
                    return Err(e);
                },
            };
            proof {
                assert(sp.subrange(0, 4) =~= data@.subrange(p as int, end as int).subrange(0, 4));
                assert(be_u32(sp.subrange(0, 4)) == l32);
            }
            let l = l32 as usize;
            if l > end - (p + 4) {
                return Err(OscError::EndOfData);
            }
            let sub_end = p + 4 + l;
            proof {
                assert(sp.subrange(4, 4 + l as int) =~= data@.subrange(p + 4, sub_end as int));
            }
            match read_packet(data, p + 4, sub_end, depth - 1) {
                Ok((pkt, q)) => {
                    if q != sub_end {
                        return Err(OscError::FramingMismatch);
                    }
                    proof {
                        lemma_packets_view_push(elems@, pkt);
                        assert(sp.skip(4 + l as int) =~= data@.subrange(
                            sub_end as int,
                            end as int,
                        ));
                        if parse_elems(data@.subrange(sub_end as int, end as int), d2) is Ok {
                            let rest = parse_elems(
                                data@.subrange(sub_end as int, end as int),
                                d2,
                            )->Ok_0;
                            assert((packets_view(elems@) + seq![pkt@]) + rest =~= packets_view(
                                elems@,
                            ) + (seq![pkt@] + rest));
                        }
                    }
                    elems.push(pkt);
                    p = sub_end;
                },
                Err(e) => {
                    return Err(e);
                },
            }
        }
        Ok((Packet::Bun(Bundle { sec, frac, elements: elems }), end))
    } else {
        if t.len() == 0 {
            return Err(OscError::MalformedPacket);
        }
        if t[0] != SLASH {
            return Err(OscError::MalformedPacket);
        }
        match read_message_rest(t, data, p1, end) {
            Ok((m, p2)) => Ok((Packet::Msg(m), p2)),
            Err(e) => Err(e),
        }
    }
}

/// Decodes one packet from a buffer that frames it exactly: trailing bytes
/// the packet does not account for are a framing error.  Bundles may nest
/// at most `MAX_BUNDLE_DEPTH` levels.
pub fn from_vec(vec: &Vec<u8>) -> (r: Result<Packet, OscError>)
    ensures
        ({
            match parse_packet(vec@, MAX_BUNDLE_DEPTH as nat) {
                Ok((p, n)) => if n == vec@.len() {
                    r matches Ok(q) && q@ == p
                } else {
                    r == Err::<Packet, OscError>(OscError::FramingMismatch)
                },
                Err(e) => r == Err::<Packet, OscError>(e),
            }
        }),
{
    proof {
        assert(vec@.subrange(0, vec@.len() as int) =~= vec@);
    }
    match read_packet(vec, 0, vec.len(), MAX_BUNDLE_DEPTH) {
        Ok((p, q)) => {
            if q != vec.len() {
                return Err(OscError::FramingMismatch);
            }
            Ok(p)
        },
        Err(e) => Err(e),
    }
}

} // verus!
