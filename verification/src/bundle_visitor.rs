//! Pull-based bundle decoder.
//!
//! A `BundleVisitor` walks the body of one bundle whose marker token is
//! already consumed: it yields the time tag first, then one size-prefixed
//! element at a time, and `None` when the bounded region is exhausted.

use vstd::prelude::*;
use crate::de::OscDeserializer;
use crate::error::OscError;
use crate::packet::read_packet;
use crate::prim::read_u32_be;
use crate::value::Packet;
use crate::wire::{be_u32, parse_packet};

verus! {

/// Which part of the bundle is being parsed.
pub enum BundleState {
    /// Parsing the 64-bit time tag.
    TimeTag,
    /// Parsing the bundle elements.
    Elements,
}

/// One item a bundle yields: its time tag, or one decoded element.
#[derive(Debug, PartialEq)]
pub enum BundleItem {
    /// The two halves of the time tag: seconds, then fraction.
    TimeTag(u32, u32),
    /// One nested packet.
    Element(Packet),
}

/// Deserializes a single bundle, within a packet: the time tag, then each
/// size-prefixed element of the bundle in wire order.
pub struct BundleVisitor {
    /// The bounded reader over the bundle body.
    pub read: OscDeserializer,
    /// Which part of the bundle comes next.
    pub state: BundleState,
}

impl BundleVisitor {
    /// The inner reader is well formed.
    pub open spec fn wf(&self) -> bool {
        self.read.wf()
    }

    /// Makes a visitor over a bundle body: `read` stands just past the
    /// bundle marker token, before the time tag.
    pub fn new(read: OscDeserializer) -> (r: Self)
        ensures
            r.read == read,
            r.state == BundleState::TimeTag,
    {
        BundleVisitor { read, state: BundleState::TimeTag }
    }

    /// One pull step: `None` once the region is exhausted; otherwise the
    /// time tag on the first call, then one element per call, each decoded
    /// from exactly the size its 4-byte prefix declares.  `depth` bounds
    /// how deep bundles may nest inside an element.
    pub fn next_item(&mut self, depth: u32) -> (r: Result<Option<BundleItem>, OscError>)
        requires
            old(self).wf(),
        ensures
            final(self).wf(),
            final(self).read.data == old(self).read.data,
            final(self).read.end == old(self).read.end,
            ({
                let s = old(self).read.region();
                if s.len() == 0 {
                    r == Ok::<Option<BundleItem>, OscError>(None) && *final(self) == *old(self)
                } else {
                    match old(self).state {
                        BundleState::TimeTag => if s.len() < 8 {
                            r == Err::<Option<BundleItem>, OscError>(OscError::EndOfData)
                                && *final(self) == *old(self)
                        } else {
                            &&& r == Ok::<Option<BundleItem>, OscError>(
                                Some(BundleItem::TimeTag(be_u32(s), be_u32(s.skip(4)))),
                            )
                            &&& final(self).read.pos == old(self).read.pos + 8
                            &&& final(self).state == BundleState::Elements
                        },
                        BundleState::Elements => if s.len() < 4 {
                            r == Err::<Option<BundleItem>, OscError>(OscError::FramingMismatch)
                                && *final(self) == *old(self)
                        } else {
                            let l = be_u32(s) as int;
                            if s.len() < 4 + l {
                                r == Err::<Option<BundleItem>, OscError>(OscError::EndOfData)
                                    && *final(self) == *old(self)
                            } else {
                                match parse_packet(s.subrange(4, 4 + l), depth as nat) {
                                    Ok((p, n)) => if n == l {
                                        &&& r matches Ok(o) && o matches Some(it) && it matches
                                            BundleItem::Element(pkt) && pkt@ == p
                                        &&& final(self).read.pos == old(self).read.pos + 4 + l
                                        &&& final(self).state == BundleState::Elements
                                    } else {
                                        r == Err::<Option<BundleItem>, OscError>(
                                            OscError::FramingMismatch,
                                        ) && *final(self) == *old(self)
                                    },
                                    Err(e) => r == Err::<Option<BundleItem>, OscError>(e)
                                        && *final(self) == *old(self),
                                }
                            }
                        },
                    }
                }
            }),
    {
        let ghost s = self.read.region();
        if self.read.remaining() == 0 {
            return Ok(None);
        }
        match self.state {
            BundleState::TimeTag => {
                if self.read.end - self.read.pos < 8 {
                    return Err(OscError::EndOfData);
                }
                let sec = match read_u32_be(&self.read.data, self.read.pos, self.read.end) {
                    Ok((v, _)) => v,
                    Err(e) => {
                        return Err(e);
                    },
                };
                let frac = match read_u32_be(&self.read.data, self.read.pos + 4, self.read.end) {
                    Ok((v, _)) => v,
                    Err(e) => {
                        return Err(e);
                    },
                };
                proof {
                    assert(s.skip(4) =~= self.read.data@.subrange(
                        self.read.pos + 4,
                        self.read.end as int,
                    ));
                }
                self.read.pos = self.read.pos + 8;
                self.state = BundleState::Elements;
                Ok(Some(BundleItem::TimeTag(sec, frac)))
            },
            BundleState::Elements => {
                if self.read.end - self.read.pos < 4 {
                    return Err(OscError::FramingMismatch);
                }
                let l32 = match read_u32_be(&self.read.data, self.read.pos, self.read.end) {
                    Ok((v, _)) => v,
                    Err(e) => {
                        return Err(e);
                    },
                };
                let l = l32 as usize;
                let p1 = self.read.pos + 4;
                if l > self.read.end - p1 {
                    return Err(OscError::EndOfData);
                }
                let sub_end = p1 + l;
                proof {
                    assert(s.subrange(4, 4 + l as int) =~= self.read.data@.subrange(
                        p1 as int,
                        sub_end as int,
                    ));
                }
                match read_packet(&self.read.data, p1, sub_end, depth) {
                    Ok((pkt, q)) => {
                        if q != sub_end {
                            return Err(OscError::FramingMismatch);
                        }
                        self.read.pos = sub_end;
                        Ok(Some(BundleItem::Element(pkt)))
                    },
                    Err(e) => Err(e),
                }
            },
        }
    }
}

} // verus!
