//! The laws the wire format obeys, proved once and for all over the spec
//! grammar in `wire`.  The executable readers and the encoder are each tied
//! to that grammar by their own contracts, so these laws carry over to them.

use vstd::prelude::*;
use vstd::utf8::{
    is_leading_byte_width_1, partial_valid_utf8, partial_valid_utf8_extend_ascii_block, valid_utf8,
};
use crate::error::OscError;
use crate::wire::{
    arg_matches, be_bytes, be_i32, be_u32, blob_pad_len, bundle_marker, encode_args, encode_arg,
    encode_message, encode_token, known_code, no_null, parse_args, parse_arg, parse_elems,
    parse_msg_rest, parse_packet, parse_token, parse_token_raw, str_pad_len, wf_msg, zeros, ArgV,
    MsgV, PacketV, COMMA,
};

verus! {

/// Bytes below 128 always form valid UTF-8.
pub proof fn lemma_ascii_valid_utf8(s: Seq<u8>)
    requires
        forall|i: int| 0 <= i < s.len() ==> s[i] < 128,
    ensures
        valid_utf8(s),
{
    assert(s.subrange(0, 0) =~= Seq::<u8>::empty());
    assert(partial_valid_utf8(s, 0));
    assert forall|i: int| 0 <= i < s.len() implies is_leading_byte_width_1(s[i]) by {}
    partial_valid_utf8_extend_ascii_block(s, 0, s.len() as int);
    assert(s.subrange(0, s.len() as int) =~= s);
}

/// Token padding law: a token of length `L` always carries `4 - (L mod 4)`
/// null bytes — between 1 and 4, never 0 — so its wire form is a non-empty
/// multiple of 4 bytes.
pub proof fn lemma_token_padding(t: Seq<u8>)
    ensures
        1 <= str_pad_len(t.len() as int) <= 4,
        encode_token(t).len() == t.len() + str_pad_len(t.len() as int),
        encode_token(t).len() % 4 == 0,
{
}

/// Token round trip, raw side: decoding a validly padded token recovers
/// exactly the bytes that were encoded, whatever follows them.
pub proof fn lemma_token_raw_round_trip(t: Seq<u8>, rest: Seq<u8>)
    requires
        no_null(t),
    ensures
        parse_token_raw(encode_token(t) + rest) == Ok::<(Seq<u8>, int), OscError>(
            (t, t.len() + str_pad_len(t.len() as int)),
        ),
    decreases t.len(),
{
    let pad = str_pad_len(t.len() as int);
    let s = encode_token(t) + rest;
    let c = s.subrange(0, 4);
    if t.len() < 4 {
        assert(c =~= t + zeros(pad));
        assert(crate::wire::chunk_zero_idx(c) == t.len());
        assert(crate::wire::chunk_pad_ok(c));
        assert(c.subrange(0, t.len() as int) =~= t);
    } else {
        assert(c[0] == t[0] && c[1] == t[1] && c[2] == t[2] && c[3] == t[3]);
        assert(crate::wire::chunk_zero_idx(c) == 4);
        let t2 = t.skip(4);
        assert(str_pad_len(t2.len() as int) == pad);
        lemma_token_raw_round_trip(t2, rest);
        assert(s.skip(4) =~= encode_token(t2) + rest);
        assert(c + t2 =~= t);
    }
}

/// Token round trip: a null-free, valid-UTF-8 token survives encoding and
/// decoding unchanged, consuming exactly its padded length.
pub proof fn lemma_token_round_trip(t: Seq<u8>, rest: Seq<u8>)
    requires
        no_null(t),
        valid_utf8(t),
    ensures
        parse_token(encode_token(t) + rest) == Ok::<(Seq<u8>, int), OscError>(
            (t, t.len() + str_pad_len(t.len() as int)),
        ),
{
    lemma_token_raw_round_trip(t, rest);
}

/// The four big-endian bytes of a value decode back to it.
pub proof fn lemma_be_bytes_round_trip(v: u32)
    ensures
        be_bytes(v).len() == 4,
        be_u32(be_bytes(v)) == v,
{
    assert(v == (v / 0x1000000) * 0x1000000 + ((v / 0x10000) % 0x100) * 0x10000 + ((v / 0x100)
        % 0x100) * 0x100 + (v % 0x100)) by (bit_vector);
}

/// One argument of matching kind survives encoding and decoding unchanged,
/// consuming exactly its wire form, whatever follows it.
pub proof fn lemma_arg_round_trip(code: u8, a: ArgV, rest: Seq<u8>)
    requires
        arg_matches(code, a),
    ensures
        parse_arg(code, encode_arg(a) + rest) == Ok::<(ArgV, int), OscError>(
            (a, encode_arg(a).len() as int),
        ),
{
    let s = encode_arg(a) + rest;
    match a {
        ArgV::I(v) => {
            lemma_be_bytes_round_trip(v as u32);
            assert(s.subrange(0, 4) =~= be_bytes(v as u32));
            assert(((v as u32) as i32) == v) by (bit_vector);
            assert(be_i32(s.subrange(0, 4)) == v);
        },
        ArgV::F(bits) => {
            lemma_be_bytes_round_trip(bits);
            assert(s.subrange(0, 4) =~= be_bytes(bits));
        },
        ArgV::S(t) => {
            lemma_token_round_trip(t, rest);
        },
        ArgV::B(d) => {
            let lv = d.len() as u32;
            let pad = blob_pad_len(d.len() as int);
            lemma_be_bytes_round_trip(lv);
            assert(s.subrange(0, 4) =~= be_bytes(lv));
            assert(be_u32(s.subrange(0, 4)) as int == d.len() as int);
            assert forall|j: int| 4 + d.len() <= j < 4 + d.len() + pad implies s[j] == 0 by {
                assert(s[j] == zeros(pad)[j - 4 - d.len()]);
            }
            assert(s.subrange(4, 4 + d.len() as int) =~= d);
        },
    }
}

/// A run of arguments of matching kinds survives encoding and decoding
/// unchanged, consuming exactly its wire form, whatever follows it.
pub proof fn lemma_args_round_trip(tags: Seq<u8>, args: Seq<ArgV>, rest: Seq<u8>)
    requires
        tags.len() == args.len(),
        forall|i: int| 0 <= i < tags.len() ==> arg_matches(tags[i], #[trigger] args[i]),
    ensures
        parse_args(tags, encode_args(args) + rest) == Ok::<(Seq<ArgV>, int), OscError>(
            (args, encode_args(args).len() as int),
        ),
    decreases tags.len(),
{
    if tags.len() == 0 {
        assert(encode_args(args) + rest =~= rest);
        assert(args =~= Seq::<ArgV>::empty());
    } else {
        let a0 = args[0];
        let rest2 = encode_args(args.skip(1)) + rest;
        lemma_arg_round_trip(tags[0], a0, rest2);
        assert(encode_args(args) + rest =~= encode_arg(a0) + rest2);
        let n0 = encode_arg(a0).len() as int;
        assert forall|i: int| 0 <= i < tags.skip(1).len() implies arg_matches(
            tags.skip(1)[i],
            #[trigger] args.skip(1)[i],
        ) by {
            assert(tags.skip(1)[i] == tags[i + 1] && args.skip(1)[i] == args[i + 1]);
        }
        lemma_args_round_trip(tags.skip(1), args.skip(1), rest);
        assert((encode_args(args) + rest).skip(n0) =~= encode_args(args.skip(1)) + rest);
        assert(seq![a0] + args.skip(1) =~= args);
    }
}

/// Message round trip: every well-formed message, encoded and then decoded
/// as a packet, comes back unchanged and accounts for every encoded byte —
/// at any nesting budget, since messages never recurse.
pub proof fn lemma_message_round_trip(m: MsgV, depth: nat)
    requires
        wf_msg(m),
    ensures
        parse_packet(encode_message(m), depth) == Ok::<(PacketV, int), OscError>(
            (PacketV::Msg(m), encode_message(m).len() as int),
        ),
{
    let tt = seq![COMMA] + m.tags;
    let rest1 = encode_token(tt) + encode_args(m.args);
    let s = encode_message(m);
    assert(s =~= encode_token(m.addr) + rest1);
    lemma_token_round_trip(m.addr, rest1);
    let n1 = m.addr.len() as int + str_pad_len(m.addr.len() as int);
    assert(parse_token(s) == Ok::<(Seq<u8>, int), OscError>((m.addr, n1)));
    assert(m.addr != bundle_marker()) by {
        if m.addr == bundle_marker() {
            assert(m.addr[0] == 35);
        }
    }
    assert(s.skip(n1) =~= encode_token(tt) + encode_args(m.args));
    assert forall|i: int| 0 <= i < tt.len() implies tt[i] != 0 && tt[i] < 128 by {
        if i == 0 {
        } else {
            assert(arg_matches(m.tags[i - 1], m.args[i - 1]));
            assert(known_code(tt[i]));
        }
    }
    lemma_ascii_valid_utf8(tt);
    lemma_token_round_trip(tt, encode_args(m.args));
    let n2 = tt.len() as int + str_pad_len(tt.len() as int);
    assert(tt.skip(1) =~= m.tags);
    lemma_args_round_trip(m.tags, m.args, Seq::empty());
    assert(encode_args(m.args) + Seq::<u8>::empty() =~= encode_args(m.args));
    assert(s.skip(n1).skip(n2) =~= encode_args(m.args));
    let m2 = MsgV { addr: m.addr, tags: tt.skip(1), args: m.args };
    assert(m2 == m);
    assert(parse_msg_rest(m.addr, s.skip(n1)) == Ok::<(MsgV, int), OscError>(
        (m, n2 + encode_args(m.args).len()),
    ));
    assert(s.len() == n1 + n2 + encode_args(m.args).len());
}

/// Argument count law: a decoded argument run holds exactly one argument
/// per typestring character.  Asking for one more is an argument-count
/// mismatch by the dispatcher's contract, and a message whose arguments do
/// not fill its framed region is a framing error at the packet layer.
pub proof fn lemma_argument_count(tags: Seq<u8>, s: Seq<u8>)
    ensures
        parse_args(tags, s) matches Ok(r) ==> r.0.len() == tags.len(),
    decreases tags.len(),
{
    if tags.len() == 0 {
    } else {
        if parse_arg(tags[0], s) is Ok {
            let n = parse_arg(tags[0], s)->Ok_0.1;
            lemma_argument_count(tags.skip(1), s.skip(n));
        }
    }
}

/// Corollary for whole messages: every message the wire grammar accepts
/// carries exactly one argument per typestring character.
pub proof fn lemma_decoded_message_argument_count(addr: Seq<u8>, s: Seq<u8>)
    ensures
        parse_msg_rest(addr, s) matches Ok(r) ==> r.0.args.len() == r.0.tags.len(),
{
    if parse_token(s) is Ok {
        let tn = parse_token(s)->Ok_0;
        lemma_argument_count(tn.0.skip(1), s.skip(tn.1));
    }
}

/// Bundle framing law: an element is accepted exactly when its nested
/// packet occupies the size its 4-byte prefix declares; a nested packet of
/// any other size makes the whole bundle a framing mismatch.
pub proof fn lemma_bundle_framing(s: Seq<u8>, depth: nat)
    requires
        s.len() >= 4,
        s.len() >= 4 + be_u32(s.subrange(0, 4)) as int,
    ensures
        parse_elems(s, depth) is Ok ==> (parse_packet(
            s.subrange(4, 4 + be_u32(s.subrange(0, 4)) as int),
            depth,
        ) matches Ok(pn) && pn.1 == be_u32(s.subrange(0, 4)) as int),
        (parse_packet(s.subrange(4, 4 + be_u32(s.subrange(0, 4)) as int), depth) matches Ok(pn)
            && pn.1 != be_u32(s.subrange(0, 4)) as int) ==> parse_elems(s, depth) == Err::<
            Seq<PacketV>,
            OscError,
        >(OscError::FramingMismatch),
{
}

/// Unknown type rejection: a typestring announcing any unknown code makes
/// the message fail with that code, whatever payload follows.
pub proof fn lemma_unknown_type_rejected(addr: Seq<u8>, code: u8, payload: Seq<u8>)
    requires
        !known_code(code),
        code != 0,
        code < 128,
    ensures
        parse_msg_rest(addr, encode_token(seq![COMMA, code]) + payload) == Err::<
            (MsgV, int),
            OscError,
        >(OscError::UnknownType(code)),
{
    let tt = seq![COMMA, code];
    assert(no_null(tt)) by {
        assert(tt[0] == COMMA && tt[1] == code);
    }
    assert forall|i: int| 0 <= i < tt.len() implies tt[i] < 128 by {
        assert(tt[0] == COMMA && tt[1] == code);
    }
    lemma_ascii_valid_utf8(tt);
    lemma_token_round_trip(tt, payload);
    assert(tt.skip(1) =~= seq![code]);
    assert(parse_arg(code, (encode_token(tt) + payload).skip(8)) == Err::<(ArgV, int), OscError>(
        OscError::UnknownType(code),
    ));
}

} // verus!
