//! Pull-based message deserializer.
//!
//! `OscDeserializer` walks one message in strict state order — address,
//! typestring, arguments — and yields each decoded value the moment it is
//! asked for, never buffering the arguments as a batch.  Bounded sub-reads
//! are the `pos..end` pair: nothing is ever read past `end`.

use vstd::prelude::*;
use vstd::utf8::decode_utf8;
use crate::error::OscError;
use crate::packet::read_arg;
use crate::prim::{bytes_into_string, read_blob, read_i32_be, read_token, read_token_raw, read_u32_be};
use crate::value::OscArg;
use crate::wire::{be_i32, be_u32, parse_token, parse_token_raw, ArgV, COMMA};

verus! {

/// Which part of the message is being parsed.  The arguments state carries
/// the type codes together with how many of them are already consumed.
pub enum DecodeState {
    /// Deserializing the address token.
    Address,
    /// Deserializing the typestring token.
    Typestring,
    /// Deserializing the argument data, one type code at a time.
    Arguments(Vec<u8>, usize),
}

/// Pull decoder over one bounded region of bytes: call `parse_next`
/// repeatedly to receive the address, then one argument per typestring
/// character.
pub struct OscDeserializer {
    /// The buffer being decoded.
    pub data: Vec<u8>,
    /// Next byte to read.
    pub pos: usize,
    /// End of the bounded region this decoder may read.
    pub end: usize,
    /// Where in the message the decoder stands.
    pub state: DecodeState,
}

impl OscDeserializer {
    /// The region lies inside the buffer, and the argument index never
    /// passes the code count.
    pub open spec fn wf(&self) -> bool {
        &&& self.pos <= self.end <= self.data@.len()
        &&& match self.state {
            DecodeState::Arguments(tags, i) => i <= tags@.len(),
            _ => true,
        }
    }

    /// The bytes still unread.
    pub open spec fn region(&self) -> Seq<u8> {
        self.data@.subrange(self.pos as int, self.end as int)
    }

    /// Makes a decoder over a whole buffer, standing before the address.
    pub fn new(data: Vec<u8>) -> (r: Self)
        ensures
            r.wf(),
            r.data@ == data@,
            r.pos == 0,
            r.end == data@.len(),
            r.state == DecodeState::Address,
    {
        let end = data.len();
        OscDeserializer { data, pos: 0, end, state: DecodeState::Address }
    }

    /// How many bytes of the bounded region are left.
    pub fn remaining(&self) -> (r: usize)
        requires
            self.wf(),
        ensures
            r == self.region().len(),
    {
        self.end - self.pos
    }

    /// Reads one token's raw bytes: whole 4-byte chunks up to and including
    /// the first chunk holding a null, whose trailing bytes must be null.
    /// On an error nothing is consumed.
    pub fn read_0term_bytes(&mut self) -> (r: Result<Vec<u8>, OscError>)
        requires
            old(self).wf(),
        ensures
            final(self).wf(),
            final(self).data == old(self).data,
            final(self).end == old(self).end,
            final(self).state == old(self).state,
            match r {
                Ok(t) => {
                    &&& parse_token_raw(old(self).region()) == Ok::<(Seq<u8>, int), OscError>(
                        (t@, final(self).pos - old(self).pos),
                    )
                    &&& old(self).pos < final(self).pos <= old(self).end
                },
                Err(e) => {
                    &&& parse_token_raw(old(self).region()) == Err::<(Seq<u8>, int), OscError>(e)
                    &&& final(self).pos == old(self).pos
                },
            },
    {
        match read_token_raw(&self.data, self.pos, self.end) {
            Ok((t, p)) => {
                self.pos = p;
                Ok(t)
            },
            Err(e) => Err(e),
        }
    }

    /// Reads one token and interprets its bytes as UTF-8.  On an error
    /// nothing is consumed.
    pub fn parse_str(&mut self) -> (r: Result<String, OscError>)
        requires
            old(self).wf(),
        ensures
            final(self).wf(),
            final(self).data == old(self).data,
            final(self).end == old(self).end,
            final(self).state == old(self).state,
            match r {
                Ok(st) => {
                    &&& parse_token(old(self).region()) matches Ok(tn) && st@ == decode_utf8(tn.0)
                        && final(self).pos == old(self).pos + tn.1
                    &&& old(self).pos < final(self).pos <= old(self).end
                },
                Err(e) => {
                    &&& parse_token(old(self).region()) == Err::<(Seq<u8>, int), OscError>(e)
                    &&& final(self).pos == old(self).pos
                },
            },
    {
        match read_token(&self.data, self.pos, self.end) {
            Ok((t, p)) => match bytes_into_string(t) {
                Ok(s) => {
                    self.pos = p;
                    Ok(s)
                },
                Err(e) => Err(e),
            },
            Err(e) => Err(e),
        }
    }

    /// Reads the typestring token and returns its raw bytes, the leading
    /// comma included.  On an error nothing is consumed.
    pub fn parse_typetag(&mut self) -> (r: Result<Vec<u8>, OscError>)
        requires
            old(self).wf(),
        ensures
            final(self).wf(),
            final(self).data == old(self).data,
            final(self).end == old(self).end,
            final(self).state == old(self).state,
            match r {
                Ok(t) => {
                    &&& parse_token(old(self).region()) == Ok::<(Seq<u8>, int), OscError>(
                        (t@, final(self).pos - old(self).pos),
                    )
                    &&& old(self).pos < final(self).pos <= old(self).end
                },
                Err(e) => {
                    &&& parse_token(old(self).region()) == Err::<(Seq<u8>, int), OscError>(e)
                    &&& final(self).pos == old(self).pos
                },
            },
    {
        match read_token(&self.data, self.pos, self.end) {
            Ok((t, p)) => {
                self.pos = p;
                Ok(t)
            },
            Err(e) => Err(e),
        }
    }

    /// Reads one 32-bit big-endian signed integer.
    pub fn parse_i32(&mut self) -> (r: Result<i32, OscError>)
        requires
            old(self).wf(),
        ensures
            final(self).wf(),
            final(self).data == old(self).data,
            final(self).end == old(self).end,
            final(self).state == old(self).state,
            match r {
                Ok(v) => {
                    &&& old(self).region().len() >= 4
                    &&& v == be_i32(old(self).region())
                    &&& final(self).pos == old(self).pos + 4
                },
                Err(e) => {
                    &&& old(self).region().len() < 4
                    &&& e == OscError::EndOfData
                    &&& final(self).pos == old(self).pos
                },
            },
    {
        match read_i32_be(&self.data, self.pos, self.end) {
            Ok((v, p)) => {
                self.pos = p;
                Ok(v)
            },
            Err(e) => Err(e),
        }
    }

    /// Reads the raw bit pattern of one 32-bit big-endian float.  The bits
    /// are handed out untouched; only a caller that wants arithmetic need
    /// reinterpret them.
    pub fn parse_float_bits(&mut self) -> (r: Result<u32, OscError>)
        requires
            old(self).wf(),
        ensures
            final(self).wf(),
            final(self).data == old(self).data,
            final(self).end == old(self).end,
            final(self).state == old(self).state,
            match r {
                Ok(v) => {
                    &&& old(self).region().len() >= 4
                    &&& v == be_u32(old(self).region())
                    &&& final(self).pos == old(self).pos + 4
                },
                Err(e) => {
                    &&& old(self).region().len() < 4
                    &&& e == OscError::EndOfData
                    &&& final(self).pos == old(self).pos
                },
            },
    {
        match read_u32_be(&self.data, self.pos, self.end) {
            Ok((v, p)) => {
                self.pos = p;
                Ok(v)
            },
            Err(e) => Err(e),
        }
    }

    /// Reads one blob: length prefix, payload, null padding to alignment.
    /// On an error nothing is consumed.
    pub fn parse_blob(&mut self) -> (r: Result<Vec<u8>, OscError>)
        requires
            old(self).wf(),
        ensures
            final(self).wf(),
            final(self).data == old(self).data,
            final(self).end == old(self).end,
            final(self).state == old(self).state,
            match r {
                Ok(d) => {
                    &&& crate::wire::parse_blob(old(self).region()) == Ok::<
                        (Seq<u8>, int),
                        OscError,
                    >((d@, final(self).pos - old(self).pos))
                    &&& old(self).pos < final(self).pos <= old(self).end
                },
                Err(e) => {
                    &&& crate::wire::parse_blob(old(self).region()) == Err::<
                        (Seq<u8>, int),
                        OscError,
                    >(e)
                    &&& final(self).pos == old(self).pos
                },
            },
    {
        match read_blob(&self.data, self.pos, self.end) {
            Ok((d, p)) => {
                self.pos = p;
                Ok(d)
            },
            Err(e) => Err(e),
        }
    }

    /// Argument dispatcher: decodes the one argument `typecode` announces;
    /// asking for an argument with no code left is an argument-count
    /// mismatch.  On an error nothing is consumed.
    pub fn parse_arg(&mut self, typecode: Option<u8>) -> (r: Result<OscArg, OscError>)
        requires
            old(self).wf(),
        ensures
            final(self).wf(),
            final(self).data == old(self).data,
            final(self).end == old(self).end,
            final(self).state == old(self).state,
            match typecode {
                None => r == Err::<OscArg, OscError>(OscError::ArgMiscount) && final(self).pos
                    == old(self).pos,
                Some(c) => match r {
                    Ok(a) => {
                        &&& crate::wire::parse_arg(c, old(self).region()) == Ok::<
                            (ArgV, int),
                            OscError,
                        >((a@, final(self).pos - old(self).pos))
                        &&& old(self).pos <= final(self).pos <= old(self).end
                    },
                    Err(e) => {
                        &&& crate::wire::parse_arg(c, old(self).region()) == Err::<
                            (ArgV, int),
                            OscError,
                        >(e)
                        &&& final(self).pos == old(self).pos
                    },
                },
            },
    {
        match typecode {
            Some(c) => match read_arg(c, &self.data, self.pos, self.end) {
                Ok((a, p)) => {
                    self.pos = p;
                    Ok(a)
                },
                Err(e) => Err(e),
            },
            None => Err(OscError::ArgMiscount),
        }
    }

    /// One pull step.  Before the address it yields the address token as a
    /// string argument; before the typestring it reads the comma-led
    /// typestring and yields the first argument; inside the arguments it
    /// yields the next one, or an argument-count mismatch when the
    /// typestring is exhausted.  On an error nothing is consumed and the
    /// state does not advance.
    pub fn parse_next(&mut self) -> (r: Result<OscArg, OscError>)
        requires
            old(self).wf(),
        ensures
            final(self).wf(),
            final(self).data == old(self).data,
            final(self).end == old(self).end,
            match old(self).state {
                DecodeState::Address => match parse_token(old(self).region()) {
                    Ok((t, n)) => {
                        &&& r matches Ok(a) && a@ == ArgV::S(t)
                        &&& final(self).pos == old(self).pos + n
                        &&& final(self).state == DecodeState::Typestring
                    },
                    Err(e) => r == Err::<OscArg, OscError>(e) && *final(self) == *old(self),
                },
                DecodeState::Typestring => match parse_token(old(self).region()) {
                    Ok((tt, n)) => if tt.len() == 0 || tt[0] != COMMA {
                        r == Err::<OscArg, OscError>(OscError::MalformedPacket) && *final(self)
                            == *old(self)
                    } else if tt.len() == 1 {
                        r == Err::<OscArg, OscError>(OscError::ArgMiscount) && *final(self) == *old(
                            self,
                        )
                    } else {
                        match crate::wire::parse_arg(tt[1], old(self).region().skip(n)) {
                            Ok((a, m)) => {
                                &&& r matches Ok(b) && b@ == a
                                &&& final(self).pos == old(self).pos + n + m
                                &&& final(self).state matches DecodeState::Arguments(tags, i)
                                    && tags@ == tt.skip(1) && i == 1
                            },
                            Err(e) => r == Err::<OscArg, OscError>(e) && *final(self) == *old(
                                self,
                            ),
                        }
                    },
                    Err(e) => r == Err::<OscArg, OscError>(e) && *final(self) == *old(self),
                },
                DecodeState::Arguments(tags, i) => if i == tags@.len() {
                    r == Err::<OscArg, OscError>(OscError::ArgMiscount) && *final(self) == *old(
                        self,
                    )
                } else {
                    match crate::wire::parse_arg(tags@[i as int], old(self).region()) {
                        Ok((a, m)) => {
                            &&& r matches Ok(b) && b@ == a
                            &&& final(self).pos == old(self).pos + m
                            &&& final(self).state matches DecodeState::Arguments(tags2, j)
                                && tags2@ == tags@ && j == i + 1
                        },
                        Err(e) => r == Err::<OscArg, OscError>(e) && *final(self) == *old(self),
                    }
                },
            },
    {
        let mut st = DecodeState::Address;
        core::mem::swap(&mut st, &mut self.state);
        match st {
            DecodeState::Address => {
                match read_token(&self.data, self.pos, self.end) {
                    Ok((t, p)) => {
                        self.pos = p;
                        self.state = DecodeState::Typestring;
                        Ok(OscArg::S(t))
                    },
                    Err(e) => {
                        self.state = DecodeState::Address;
                        Err(e)
                    },
                }
            },
            DecodeState::Typestring => {
                match read_token(&self.data, self.pos, self.end) {
                    Ok((tt, p)) => {
                        if tt.len() == 0 || tt[0] != COMMA {
                            self.state = DecodeState::Typestring;
                            return Err(OscError::MalformedPacket);
                        }
                        if tt.len() == 1 {
                            self.state = DecodeState::Typestring;
                            return Err(OscError::ArgMiscount);
                        }
                        let code = tt[1];
                        proof {
                            assert(old(self).region().skip(p - old(self).pos) =~= self.data@
                                .subrange(p as int, self.end as int));
                        }
                        match read_arg(code, &self.data, p, self.end) {
                            Ok((a, p2)) => {
                                let mut tags: Vec<u8> = Vec::new();
                                let mut i: usize = 1;
                                while i < tt.len()
                                    invariant
                                        1 <= i <= tt@.len(),
                                        tags@.len() == i - 1,
                                        forall|k: int| 0 <= k < i - 1 ==> tags@[k] == tt@[k + 1],
                                    decreases tt@.len() - i,
                                {
                                    tags.push(tt[i]);
                                    i = i + 1;
                                }
                                proof {
                                    assert(tags@ =~= tt@.skip(1));
                                }
                                self.pos = p2;
                                self.state = DecodeState::Arguments(tags, 1);
                                Ok(a)
                            },
                            Err(e) => {
                                self.state = DecodeState::Typestring;
                                Err(e)
                            },
                        }
                    },
                    Err(e) => {
                        self.state = DecodeState::Typestring;
                        Err(e)
                    },
                }
            },
            DecodeState::Arguments(tags, i) => {
                if i >= tags.len() {
                    self.state = DecodeState::Arguments(tags, i);
                    return Err(OscError::ArgMiscount);
                }
                let code = tags[i];
                match read_arg(code, &self.data, self.pos, self.end) {
                    Ok((a, p2)) => {
                        self.pos = p2;
                        self.state = DecodeState::Arguments(tags, i + 1);
                        Ok(a)
                    },
                    Err(e) => {
                        self.state = DecodeState::Arguments(tags, i);
                        Err(e)
                    },
                }
            },
        }
    }
}

} // verus!
