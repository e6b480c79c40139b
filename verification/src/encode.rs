//! Executable message encoder, the mirror of the decoder: its output is
//! proved to be exactly the spec encoding, so the round-trip law in `laws`
//! applies to every message it emits.

use vstd::prelude::*;
use crate::value::{args_view, Message, OscArg};
use crate::wire::{arg_matches, wf_msg, ArgV, COMMA};

verus! {

/// Appending one encoded argument appends its encoding.
proof fn lemma_encode_args_snoc(args: Seq<ArgV>, a: ArgV)
    ensures
        crate::wire::encode_args(args.push(a)) == crate::wire::encode_args(args)
            + crate::wire::encode_arg(a),
    decreases args.len(),
{
    reveal_with_fuel(crate::wire::encode_args, 3);
    let sp = args.push(a);
    if args.len() == 0 {
        assert(sp.skip(1) =~= Seq::<ArgV>::empty());
        assert(sp[0] == a);
        assert(crate::wire::encode_arg(a) + Seq::<u8>::empty() =~= crate::wire::encode_arg(a));
        assert(Seq::<u8>::empty() + crate::wire::encode_arg(a) =~= crate::wire::encode_arg(a));
    } else {
        lemma_encode_args_snoc(args.skip(1), a);
        assert(sp.skip(1) =~= args.skip(1).push(a));
        assert(sp[0] == args[0]);
        assert(crate::wire::encode_arg(args[0]) + (crate::wire::encode_args(args.skip(1))
            + crate::wire::encode_arg(a)) =~= (crate::wire::encode_arg(args[0])
            + crate::wire::encode_args(args.skip(1))) + crate::wire::encode_arg(a));
    }
}

/// Appends `n` null bytes.
fn push_zeros(out: &mut Vec<u8>, n: usize)
    ensures
        final(out)@ == old(out)@ + crate::wire::zeros(n as int),
{
    let mut i: usize = 0;
    while i < n
        invariant
            i <= n,
            out@.len() == old(out)@.len() + i,
            forall|k: int| 0 <= k < old(out)@.len() ==> out@[k] == old(out)@[k],
            forall|k: int| old(out)@.len() <= k < out@.len() ==> out@[k] == 0,
        decreases n - i,
    {
        out.push(0);
        i = i + 1;
    }
    proof {
        assert(out@ =~= old(out)@ + crate::wire::zeros(n as int));
    }
}

/// Appends the bytes of `b`.
fn push_bytes(out: &mut Vec<u8>, b: &Vec<u8>)
    ensures
        final(out)@ == old(out)@ + b@,
{
    let mut i: usize = 0;
    while i < b.len()
        invariant
            i <= b@.len(),
            out@.len() == old(out)@.len() + i,
            forall|k: int| 0 <= k < old(out)@.len() ==> out@[k] == old(out)@[k],
            forall|k: int| 0 <= k < i ==> out@[old(out)@.len() + k] == b@[k],
        decreases b@.len() - i,
    {
        out.push(b[i]);
        i = i + 1;
    }
    proof {
        assert(out@ =~= old(out)@ + b@);
    }
}

/// Appends one token: its bytes, then 1 to 4 null bytes up to the next
/// 4-byte boundary.
fn push_token(out: &mut Vec<u8>, t: &Vec<u8>)
    ensures
        final(out)@ == old(out)@ + crate::wire::encode_token(t@),
{
    push_bytes(out, t);
    let pad = 4 - (t.len() % 4);
    push_zeros(out, pad);
    proof {
        assert((old(out)@ + t@) + crate::wire::zeros(pad as int) =~= old(out)@ + (t@
            + crate::wire::zeros(pad as int)));
    }
}

/// Appends the four big-endian bytes of `v`.
fn push_be_u32(out: &mut Vec<u8>, v: u32)
    ensures
        final(out)@ == old(out)@ + crate::wire::be_bytes(v),
{
    out.push((v / 0x1000000) as u8);
    out.push(((v / 0x10000) % 0x100) as u8);
    out.push(((v / 0x100) % 0x100) as u8);
    out.push((v % 0x100) as u8);
    proof {
        assert(out@ =~= old(out)@ + crate::wire::be_bytes(v));
    }
}

/// Appends one argument's wire form.
fn push_arg(out: &mut Vec<u8>, a: &OscArg)
    requires
        a@ matches ArgV::B(d) ==> d.len() < 0x100000000,
    ensures
        final(out)@ == old(out)@ + crate::wire::encode_arg(a@),
{
    match a {
        OscArg::I(v) => {
            push_be_u32(out, #[verifier::truncate] (*v as u32));
        },
        OscArg::F(bits) => {
            push_be_u32(out, *bits);
        },
        OscArg::S(t) => {
            push_token(out, t);
        },
        OscArg::B(d) => {
            let ghost o0 = out@;
            push_be_u32(out, d.len() as u32);
            push_bytes(out, d);
            let pad = (4 - (d.len() % 4)) % 4;
            push_zeros(out, pad);
            proof {
                assert(pad == crate::wire::blob_pad_len(d@.len() as int));
                assert(((o0 + crate::wire::be_bytes(d@.len() as u32)) + d@) + crate::wire::zeros(
                    pad as int,
                ) =~= o0 + (crate::wire::be_bytes(d@.len() as u32) + d@ + crate::wire::zeros(
                    pad as int,
                )));
            }
        },
    }
}

/// Encodes one message: address token, comma-led typestring token, then the
/// arguments in order.  The output is exactly the spec encoding, so by the
/// round-trip law decoding it yields the message back.
#[verifier::loop_isolation(false)]
pub fn encode_message(m: &Message) -> (r: Vec<u8>)
    requires
        wf_msg(m@),
    ensures
        r@ == crate::wire::encode_message(m@),
{
    let mut out: Vec<u8> = Vec::new();
    push_token(&mut out, &m.address);
    let mut tt: Vec<u8> = Vec::new();
    tt.push(COMMA);
    push_bytes(&mut tt, &m.typetags);
    proof {
        assert(tt@ =~= seq![COMMA] + m.typetags@);
    }
    push_token(&mut out, &tt);
    let ghost prefix = out@;
    let ghost argsv = args_view(m.args@);
    let mut i: usize = 0;
    proof {
        assert(argsv.take(0) =~= Seq::<ArgV>::empty());
        assert(prefix + Seq::<u8>::empty() =~= prefix);
    }
    while i < m.args.len()
        invariant
            i <= m.args@.len(),
            out@ == prefix + crate::wire::encode_args(argsv.take(i as int)),
        decreases m.args@.len() - i,
    {
        proof {
            assert(arg_matches(m@.tags[i as int], argsv[i as int]));
        }
        let a = &m.args[i];
        let ghost o0 = out@;
        push_arg(&mut out, a);
        proof {
            lemma_encode_args_snoc(argsv.take(i as int), argsv[i as int]);
            assert(argsv.take(i + 1) =~= argsv.take(i as int).push(argsv[i as int]));
            assert((prefix + crate::wire::encode_args(argsv.take(i as int)))
                + crate::wire::encode_arg(argsv[i as int]) =~= prefix + (crate::wire::encode_args(
                argsv.take(i as int),
            ) + crate::wire::encode_arg(argsv[i as int])));
        }
        i = i + 1;
    }
    proof {
        assert(argsv.take(m.args@.len() as int) =~= argsv);
        assert(prefix + crate::wire::encode_args(argsv) =~= crate::wire::encode_message(m@));
    }
    out
}

} // verus!
