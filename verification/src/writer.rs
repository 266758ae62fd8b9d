use vstd::prelude::*;

verus! {

/// A sink that takes the interpreter's output one byte at a time.
///
/// An implementation need only give `Error` and `push_byte`. One that is
/// verified may say more of itself through `held` and `takes_all`, and
/// `push_byte` is then held to it.
pub trait Writer {
    type Error;

    /// The bytes this sink holds, for a sink that keeps what it is given.
    /// A sink that makes no such promise leaves this at `None`.
    open spec fn held(&self) -> Option<Seq<u8>> {
        None
    }

    /// Whether this sink takes every byte it is handed. A sink that makes
    /// no such promise leaves this at `false`.
    open spec fn takes_all(&self) -> bool {
        false
    }

    /// Hands one byte to the sink. A sink that keeps its bytes holds one
    /// more after an `Ok`, and the same as before after an `Err`. A sink
    /// that takes every byte answers `Ok`, and goes on taking every byte.
    fn push_byte(&mut self, byte: u8) -> (r: Result<(), Self::Error>)
        ensures
            old(self).held() matches Some(h) ==> final(self).held() == Some(
                if r is Ok {
                    h.push(byte)
                } else {
                    h
                },
            ),
            old(self).takes_all() ==> r is Ok && final(self).takes_all(),
    ;
}

/// A sink that drops every byte and never fails.
pub struct NoOutput;

impl Writer for NoOutput {
    type Error = core::convert::Infallible;

    open spec fn takes_all(&self) -> bool {
        true
    }

    fn push_byte(&mut self, _byte: u8) -> (r: Result<(), Self::Error>)
        ensures
            r is Ok,
    {
        Ok(())
    }
}

impl Writer for Vec<u8> {
    type Error = core::convert::Infallible;

    open spec fn held(&self) -> Option<Seq<u8>> {
        Some(self@)
    }

    open spec fn takes_all(&self) -> bool {
        true
    }

    fn push_byte(&mut self, byte: u8) -> (r: Result<(), Self::Error>)
        ensures
            r is Ok,
            final(self)@ == old(self)@.push(byte),
    {
        self.push(byte);
        Ok(())
    }
}

impl<W: Writer> Writer for &mut W {
    type Error = W::Error;

    open spec fn held(&self) -> Option<Seq<u8>> {
        (**self).held()
    }

    open spec fn takes_all(&self) -> bool {
        (**self).takes_all()
    }

    fn push_byte(&mut self, byte: u8) -> (r: Result<(), Self::Error>) {
        (**self).push_byte(byte)
    }
}

} // verus!
