//! The OSC wire grammar, written once as spec functions over byte sequences.
//!
//! `parse_*` are the mathematical decoders: each takes the byte region it may
//! read and returns either the decoded value together with the exact number
//! of bytes consumed, or the error the wire form deserves.  `encode_*` are
//! their mirrors.  Every executable reader in this crate is proved to agree
//! with these functions.

use vstd::prelude::*;
use vstd::utf8::valid_utf8;
use crate::error::OscError;

verus! {

/// Typestring character announcing a 32-bit signed integer (`i`).
pub const TC_INT32: u8 = 105;

/// Typestring character announcing a 32-bit float (`f`).
pub const TC_FLOAT32: u8 = 102;

/// Typestring character announcing a string token (`s`).
pub const TC_STR: u8 = 115;

/// Typestring character announcing a blob (`b`).
pub const TC_BLOB: u8 = 98;

/// The comma every typestring begins with.
pub const COMMA: u8 = 44;

/// The slash every message address begins with.
pub const SLASH: u8 = 47;

/// Mathematical form of a decoded argument.  A 32-bit float is carried as
/// its raw big-endian bit pattern, which is all the wire format says of it.
pub enum ArgV {
    I(i32),
    F(u32),
    S(Seq<u8>),
    B(Seq<u8>),
}

/// Mathematical form of a decoded message.
pub struct MsgV {
    pub addr: Seq<u8>,
    pub tags: Seq<u8>,
    pub args: Seq<ArgV>,
}

/// Mathematical form of a decoded bundle.
pub struct BunV {
    pub sec: u32,
    pub frac: u32,
    pub elems: Seq<PacketV>,
}

/// Mathematical form of a decoded packet.
pub enum PacketV {
    Msg(MsgV),
    Bun(BunV),
}

/// A run of `n` null bytes.
pub open spec fn zeros(n: int) -> Seq<u8> {
    Seq::new(n as nat, |i: int| 0u8)
}

/// Null padding a token of length `l` carries: always 1 to 4 bytes, so that
/// the whole token ends on a 4-byte boundary and holds a terminator.
pub open spec fn str_pad_len(l: int) -> int {
    4 - (l % 4)
}

/// Null padding a blob payload of length `l` carries: 0 to 3 bytes, just
/// enough to restore 4-byte alignment.
pub open spec fn blob_pad_len(l: int) -> int {
    (4 - (l % 4)) % 4
}

/// No byte of `s` is null.
pub open spec fn no_null(s: Seq<u8>) -> bool {
    forall|i: int| 0 <= i < s.len() ==> s[i] != 0
}

/// The 32-bit big-endian value of the first four bytes of `s`.
pub open spec fn be_u32(s: Seq<u8>) -> u32
    recommends
        s.len() >= 4,
{
    ((s[0] as int) * 0x1000000 + (s[1] as int) * 0x10000 + (s[2] as int) * 0x100 + (
    s[3] as int)) as u32
}

/// The same four bytes read as a signed value (two's complement).
pub open spec fn be_i32(s: Seq<u8>) -> i32
    recommends
        s.len() >= 4,
{
    be_u32(s) as i32
}

/// The four big-endian bytes of `v`.
pub open spec fn be_bytes(v: u32) -> Seq<u8> {
    seq![
        (v / 0x1000000) as u8,
        ((v / 0x10000) % 0x100) as u8,
        ((v / 0x100) % 0x100) as u8,
        (v % 0x100) as u8,
    ]
}

/// Index of the first null byte in a 4-byte chunk, or 4 if it has none.
pub open spec fn chunk_zero_idx(c: Seq<u8>) -> int
    recommends
        c.len() == 4,
{
    if c[0] == 0 {
        0
    } else if c[1] == 0 {
        1
    } else if c[2] == 0 {
        2
    } else if c[3] == 0 {
        3
    } else {
        4
    }
}

/// In the chunk that ends a token, every byte from the first null on must be
/// null; anything else is a padding violation.
pub open spec fn chunk_pad_ok(c: Seq<u8>) -> bool
    recommends
        c.len() == 4,
{
    forall|j: int| chunk_zero_idx(c) <= j < 4 ==> c[j] == 0
}

/// Token reader over raw bytes: consume 4-byte chunks until one holds a
/// null, check the terminating chunk's padding, and return the non-null
/// bytes together with the count of bytes consumed (a positive multiple
/// of 4).
pub open spec fn parse_token_raw(s: Seq<u8>) -> Result<(Seq<u8>, int), OscError>
    decreases s.len(),
{
    if s.len() < 4 {
        Err(OscError::EndOfData)
    } else {
        let c = s.subrange(0, 4);
        if chunk_zero_idx(c) == 4 {
            match parse_token_raw(s.skip(4)) {
                Ok((t, n)) => Ok((c + t, 4 + n)),
                Err(e) => Err(e),
            }
        } else if chunk_pad_ok(c) {
            Ok((c.subrange(0, chunk_zero_idx(c)), 4))
        } else {
            Err(OscError::BadPadding)
        }
    }
}

/// A full token: raw bytes that must also form valid UTF-8.
pub open spec fn parse_token(s: Seq<u8>) -> Result<(Seq<u8>, int), OscError> {
    match parse_token_raw(s) {
        Ok((t, n)) => if valid_utf8(t) {
            Ok((t, n))
        } else {
            Err(OscError::StrParseError)
        },
        Err(e) => Err(e),
    }
}

/// Blob reader: a 4-byte big-endian length, that many payload bytes, then
/// 0 to 3 null bytes restoring 4-byte alignment.
pub open spec fn parse_blob(s: Seq<u8>) -> Result<(Seq<u8>, int), OscError> {
    if s.len() < 4 {
        Err(OscError::EndOfData)
    } else {
        let l = be_u32(s.subrange(0, 4)) as int;
        let pad = blob_pad_len(l);
        if s.len() < 4 + l + pad {
            Err(OscError::EndOfData)
        } else if exists|j: int| 4 + l <= j < 4 + l + pad && s[j] != 0 {
            Err(OscError::BadPadding)
        } else {
            Ok((s.subrange(4, 4 + l), 4 + l + pad))
        }
    }
}

/// The four typestring characters this decoder knows.
pub open spec fn known_code(c: u8) -> bool {
    c == TC_INT32 || c == TC_FLOAT32 || c == TC_STR || c == TC_BLOB
}

/// Argument dispatcher: one typestring character chooses the reader that
/// runs next; anything else is rejected, never skipped.
pub open spec fn parse_arg(code: u8, s: Seq<u8>) -> Result<(ArgV, int), OscError> {
    if code == TC_INT32 {
        if s.len() < 4 {
            Err(OscError::EndOfData)
        } else {
            Ok((ArgV::I(be_i32(s.subrange(0, 4))), 4))
        }
    } else if code == TC_FLOAT32 {
        if s.len() < 4 {
            Err(OscError::EndOfData)
        } else {
            Ok((ArgV::F(be_u32(s.subrange(0, 4))), 4))
        }
    } else if code == TC_STR {
        match parse_token(s) {
            Ok((t, n)) => Ok((ArgV::S(t), n)),
            Err(e) => Err(e),
        }
    } else if code == TC_BLOB {
        match parse_blob(s) {
            Ok((d, n)) => Ok((ArgV::B(d), n)),
            Err(e) => Err(e),
        }
    } else {
        Err(OscError::UnknownType(code))
    }
}

/// One argument per typestring character, in order, each consumed exactly
/// once.
pub open spec fn parse_args(tags: Seq<u8>, s: Seq<u8>) -> Result<(Seq<ArgV>, int), OscError>
    decreases tags.len(),
{
    if tags.len() == 0 {
        Ok((Seq::empty(), 0))
    } else {
        match parse_arg(tags[0], s) {
            Ok((a, n)) => match parse_args(tags.skip(1), s.skip(n)) {
                Ok((rest, m)) => Ok((seq![a] + rest, n + m)),
                Err(e) => Err(e),
            },
            Err(e) => Err(e),
        }
    }
}

/// The rest of a message once its address token is in hand: a typestring
/// token that must begin with a comma, then the arguments it announces.
pub open spec fn parse_msg_rest(addr: Seq<u8>, s: Seq<u8>) -> Result<(MsgV, int), OscError> {
    match parse_token(s) {
        Ok((tt, n)) => if tt.len() == 0 || tt[0] != COMMA {
            Err(OscError::MalformedPacket)
        } else {
            match parse_args(tt.skip(1), s.skip(n)) {
                Ok((args, m)) => Ok((MsgV { addr: addr, tags: tt.skip(1), args: args }, n + m)),
                Err(e) => Err(e),
            }
        },
        Err(e) => Err(e),
    }
}

/// The token that announces a bundle.
pub open spec fn bundle_marker() -> Seq<u8> {
    seq![35u8, 98u8, 117u8, 110u8, 100u8, 108u8, 101u8]
}

/// Packet classifier and bundle reader.  The leading token decides: the
/// bundle marker opens a time tag and a run of size-prefixed elements that
/// must exhaust the region exactly; a token starting with `/` opens a
/// message; anything else is malformed.  `depth` bounds bundle nesting.
pub open spec fn parse_packet(s: Seq<u8>, depth: nat) -> Result<(PacketV, int), OscError>
    decreases s.len(),
{
    match parse_token(s) {
        Ok((t, n)) => if n < 4 || s.len() < n {
            // unreachable: a token always consumes 4 to s.len() bytes
            Err(OscError::MalformedPacket)
        } else if t == bundle_marker() {
            if depth == 0 {
                Err(OscError::MalformedPacket)
            } else {
                let body = s.skip(n);
                if body.len() < 8 {
                    Err(OscError::EndOfData)
                } else {
                    match parse_elems(body.skip(8), (depth - 1) as nat) {
                        Ok(elems) => Ok(
                            (
                                PacketV::Bun(
                                    BunV {
                                        sec: be_u32(body.subrange(0, 4)),
                                        frac: be_u32(body.subrange(4, 8)),
                                        elems: elems,
                                    },
                                ),
                                s.len() as int,
                            ),
                        ),
                        Err(e) => Err(e),
                    }
                }
            }
        } else if t.len() > 0 && t[0] == SLASH {
            match parse_msg_rest(t, s.skip(n)) {
                Ok((m, k)) => Ok((PacketV::Msg(m), n + k)),
                Err(e) => Err(e),
            }
        } else {
            Err(OscError::MalformedPacket)
        },
        Err(e) => Err(e),
    }
}

/// Bundle element loop: while bytes remain, a 4-byte size prefix announces
/// exactly how many bytes the nested packet must occupy.  A remainder too
/// small for a prefix, or a nested packet that does not fill its declared
/// size, is a framing error.
pub open spec fn parse_elems(s: Seq<u8>, depth: nat) -> Result<Seq<PacketV>, OscError>
    decreases s.len(),
{
    if s.len() == 0 {
        Ok(Seq::empty())
    } else if s.len() < 4 {
        Err(OscError::FramingMismatch)
    } else {
        let l = be_u32(s.subrange(0, 4)) as int;
        if s.len() < 4 + l {
            Err(OscError::EndOfData)
        } else {
            match parse_packet(s.subrange(4, 4 + l), depth) {
                Ok((p, n)) => if n == l {
                    match parse_elems(s.skip(4 + l), depth) {
                        Ok(rest) => Ok(seq![p] + rest),
                        Err(e) => Err(e),
                    }
                } else {
                    Err(OscError::FramingMismatch)
                },
                Err(e) => Err(e),
            }
        }
    }
}

/// A token as it stands on the wire: its bytes, then 1 to 4 null bytes.
pub open spec fn encode_token(t: Seq<u8>) -> Seq<u8> {
    t + zeros(str_pad_len(t.len() as int))
}

/// One argument as it stands on the wire.
pub open spec fn encode_arg(a: ArgV) -> Seq<u8> {
    match a {
        ArgV::I(v) => be_bytes(v as u32),
        ArgV::F(bits) => be_bytes(bits),
        ArgV::S(t) => encode_token(t),
        ArgV::B(d) => be_bytes(d.len() as u32) + d + zeros(blob_pad_len(d.len() as int)),
    }
}

/// The arguments of a message, one after the other.
pub open spec fn encode_args(args: Seq<ArgV>) -> Seq<u8>
    decreases args.len(),
{
    if args.len() == 0 {
        Seq::empty()
    } else {
        encode_arg(args[0]) + encode_args(args.skip(1))
    }
}

/// A whole message: address token, comma-led typestring token, arguments.
pub open spec fn encode_message(m: MsgV) -> Seq<u8> {
    encode_token(m.addr) + encode_token(seq![COMMA] + m.tags) + encode_args(m.args)
}

/// A value of `a`'s kind is announced by typestring character `code`, and
/// carries nothing the wire form cannot: a string argument is null-free
/// valid UTF-8, a blob's length fits its 32-bit size prefix.
pub open spec fn arg_matches(code: u8, a: ArgV) -> bool {
    match a {
        ArgV::I(_) => code == TC_INT32,
        ArgV::F(_) => code == TC_FLOAT32,
        ArgV::S(t) => code == TC_STR && no_null(t) && valid_utf8(t),
        ArgV::B(d) => code == TC_BLOB && d.len() < 0x100000000,
    }
}

/// A message the wire format can carry: an address that begins with `/`,
/// holds no null byte and is valid UTF-8, and one matching argument per
/// typestring character.
pub open spec fn wf_msg(m: MsgV) -> bool {
    &&& m.addr.len() > 0
    &&& m.addr[0] == SLASH
    &&& no_null(m.addr)
    &&& valid_utf8(m.addr)
    &&& m.tags.len() == m.args.len()
    &&& forall|i: int| 0 <= i < m.tags.len() ==> arg_matches(m.tags[i], #[trigger] m.args[i])
}

} // verus!
