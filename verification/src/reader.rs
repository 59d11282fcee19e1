use vstd::prelude::*;
use vstd::slice::{slice_index_get, slice_subrange};

verus! {

/// Error returned by the reader primitives when a read would run past the
/// end of the remaining input.
#[derive(Clone, Copy, Debug, PartialEq, Eq, Structural)]
pub struct EndOfInput;

/// A bounds-checked, non-owning cursor over a borrowed byte buffer. Reads
/// hand out contiguous sub-slices of the underlying buffer and never copy;
/// every primitive fails with [`EndOfInput`] rather than reading past the
/// end. A reader's model is [`Reader::remaining`], the bytes not yet
/// consumed.
pub struct Reader<'a> {
    data: &'a [u8],
    pos: usize,
}

impl<'a> Reader<'a> {
    #[verifier::type_invariant]
    spec fn inv(self) -> bool {
        self.pos <= self.data@.len()
    }

    /// The bytes not yet consumed, in order.
    pub closed spec fn remaining(self) -> Seq<u8> {
        self.data@.skip(self.pos as int)
    }

    /// A fresh reader positioned at the start of `input`.
    pub fn new(input: &'a [u8]) -> (r: Reader<'a>)
        ensures
            r.remaining() == input@,
    {
        proof {
            assert(input@.skip(0) =~= input@);
        }
        Reader { data: input, pos: 0 }
    }

    /// Reads the next byte, consuming it.
    pub fn read_byte(&mut self) -> (res: Result<u8, EndOfInput>)
        ensures
            ({
                let s = old(self).remaining();
                if s.len() == 0 {
                    res == Err::<u8, EndOfInput>(EndOfInput) && final(self).remaining() == s
                } else {
                    res == Ok::<u8, EndOfInput>(s[0]) && final(self).remaining() == s.skip(1)
                }
            }),
    {
        proof {
            use_type_invariant(&*self);
        }
        if self.pos < self.data.len() {
            let b = *slice_index_get(self.data, self.pos);
            let ghost old_pos = self.pos as int;
            self.pos = self.pos + 1;
            proof {
                assert(self.data@.skip(old_pos + 1) =~= self.data@.skip(old_pos).skip(1));
            }
            Ok(b)
        } else {
            Err(EndOfInput)
        }
    }

    /// Reads the next `num_bytes` bytes as one borrowed sub-slice.
    pub fn read_bytes(&mut self, num_bytes: usize) -> (res: Result<&'a [u8], EndOfInput>)
        ensures
            ({
                let s = old(self).remaining();
                if num_bytes <= s.len() {
                    res matches Ok(out) && out@ == s.take(num_bytes as int)
                        && final(self).remaining() == s.skip(num_bytes as int)
                } else {
                    res == Err::<&'a [u8], EndOfInput>(EndOfInput) && final(self).remaining() == s
                }
            }),
    {
        proof {
            use_type_invariant(&*self);
        }
        if num_bytes <= self.data.len() - self.pos {
            let out = slice_subrange(self.data, self.pos, self.pos + num_bytes);
            let ghost old_pos = self.pos as int;
            self.pos = self.pos + num_bytes;
            proof {
                assert(out@ =~= self.data@.skip(old_pos).take(num_bytes as int));
                assert(self.data@.skip(old_pos + num_bytes) =~= self.data@.skip(old_pos).skip(
                    num_bytes as int,
                ));
            }
            Ok(out)
        } else {
            Err(EndOfInput)
        }
    }

    /// Tests, without consuming anything, whether the next byte equals `b`.
    /// False when no bytes remain.
    pub fn peek(&self, b: u8) -> (res: bool)
        ensures
            res == (self.remaining().len() > 0 && self.remaining()[0] == b),
    {
        proof {
            use_type_invariant(&*self);
        }
        if self.pos < self.data.len() {
            *slice_index_get(self.data, self.pos) == b
        } else {
            false
        }
    }

    /// Tests whether every byte has been consumed.
    pub fn at_end(&self) -> (res: bool)
        ensures
            res == (self.remaining().len() == 0),
    {
        proof {
            use_type_invariant(&*self);
        }
        self.pos == self.data.len()
    }

    /// Consumes and returns all remaining bytes as one borrowed sub-slice.
    pub fn read_bytes_to_end(&mut self) -> (res: &'a [u8])
        ensures
            res@ == old(self).remaining(),
            final(self).remaining().len() == 0,
    {
        proof {
            use_type_invariant(&*self);
        }
        let out = slice_subrange(self.data, self.pos, self.data.len());
        let ghost old_pos = self.pos as int;
        self.pos = self.data.len();
        proof {
            assert(out@ =~= self.data@.skip(old_pos));
        }
        out
    }
}

} // verus!
