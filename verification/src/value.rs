//! Decoded values: arguments, messages, bundles, packets.
//!
//! Tokens are kept as their raw bytes (always valid UTF-8 once decoded);
//! a 32-bit float argument is kept as its raw bit pattern.  Each type views
//! to its mathematical form from `wire`.

use vstd::prelude::*;
use crate::wire::{ArgV, MsgV, BunV, PacketV};

verus! {

broadcast use {
    vstd::std_specs::vec::group_vec_axioms,
    vstd::seq::axiom_seq_index_decreases,
    vstd::seq::axiom_seq_subrange_decreases,
};

/// One decoded argument.  The kind is chosen by the typestring character
/// alone: `i`, `f`, `s` or `b`.
#[derive(Debug, Clone, PartialEq)]
pub enum OscArg {
    /// 32-bit signed integer.
    I(i32),
    /// 32-bit float, as its raw big-endian bit pattern.
    F(u32),
    /// String token bytes (valid UTF-8, no null byte).
    S(Vec<u8>),
    /// Binary blob payload.
    B(Vec<u8>),
}

impl View for OscArg {
    type V = ArgV;

    open spec fn view(&self) -> ArgV {
        match self {
            OscArg::I(v) => ArgV::I(*v),
            OscArg::F(bits) => ArgV::F(*bits),
            OscArg::S(t) => ArgV::S(t@),
            OscArg::B(d) => ArgV::B(d@),
        }
    }
}

/// A decoded message: address, typestring characters (the leading comma
/// already discarded), and one argument per character.
#[derive(Debug, Clone, PartialEq)]
pub struct Message {
    /// Address token bytes; begins with `/` and holds no null byte.
    pub address: Vec<u8>,
    /// Type-code characters, in the order their arguments follow.
    pub typetags: Vec<u8>,
    /// The arguments, one per type code.
    pub args: Vec<OscArg>,
}

/// The view of a run of arguments.
pub open spec fn args_view(args: Seq<OscArg>) -> Seq<ArgV> {
    args.map_values(|a: OscArg| a@)
}

impl View for Message {
    type V = MsgV;

    open spec fn view(&self) -> MsgV {
        MsgV { addr: self.address@, tags: self.typetags@, args: args_view(self.args@) }
    }
}

/// A decoded bundle: its time tag and its nested packets.
#[derive(Debug, PartialEq)]
pub struct Bundle {
    /// Time tag, seconds part.
    pub sec: u32,
    /// Time tag, fractional part.
    pub frac: u32,
    /// The bundle's elements, in wire order.
    pub elements: Vec<Packet>,
}

/// A decoded packet: a message or a bundle.
#[derive(Debug, PartialEq)]
pub enum Packet {
    Msg(Message),
    Bun(Bundle),
}

/// The view of a packet, elementwise through nested bundles.
pub open spec fn packet_view(p: Packet) -> PacketV
    decreases p,
{
    match p {
        Packet::Msg(m) => PacketV::Msg(m@),
        Packet::Bun(b) => PacketV::Bun(
            BunV { sec: b.sec, frac: b.frac, elems: packets_view(b.elements@) },
        ),
    }
}

/// The views of a run of packets, in order.
pub open spec fn packets_view(s: Seq<Packet>) -> Seq<PacketV>
    decreases s,
{
    if s.len() == 0 {
        Seq::empty()
    } else {
        seq![packet_view(s[0])] + packets_view(s.subrange(1, s.len() as int))
    }
}

impl View for Packet {
    type V = PacketV;

    open spec fn view(&self) -> PacketV {
        packet_view(*self)
    }
}

/// Appending a packet views to appending its view.
pub proof fn lemma_packets_view_push(s: Seq<Packet>, p: Packet)
    ensures
        packets_view(s.push(p)) == packets_view(s) + seq![packet_view(p)],
    decreases s.len(),
{
    let sp = s.push(p);
    if s.len() == 0 {
        assert(sp.subrange(1, sp.len() as int) =~= Seq::<Packet>::empty());
        assert(sp[0] == p);
        assert(packets_view(sp) == seq![packet_view(p)] + packets_view(Seq::<Packet>::empty()));
        assert(seq![packet_view(p)] + Seq::<PacketV>::empty() =~= seq![packet_view(p)]);
        assert(packets_view(s) + seq![packet_view(p)] =~= seq![packet_view(p)]);
    } else {
        let tail = s.subrange(1, s.len() as int);
        lemma_packets_view_push(tail, p);
        assert(sp.subrange(1, sp.len() as int) =~= tail.push(p));
        assert(sp[0] == s[0]);
        assert(packets_view(sp) == seq![packet_view(s[0])] + (packets_view(tail) + seq![
            packet_view(p),
        ]));
        assert(seq![packet_view(s[0])] + (packets_view(tail) + seq![packet_view(p)]) =~= (seq![
            packet_view(s[0]),
        ] + packets_view(tail)) + seq![packet_view(p)]);
    }
}

} // verus!
