//! The message channel of the fork-server protocol: a connection that reads whole messages or
//! nothing.

use crate::vl_fork_server::error::ProtocolError;
use crate::vl_fork_server::error::ProtocolResult;
use crate::vl_fork_server::message::decodes_to;
use crate::vl_fork_server::message::parse_message;
use crate::vl_fork_server::message::FromReader;
use crate::vl_fork_server::message::Message;
use crate::wire::Parsed;
use vstd::prelude::*;

verus! {

/// A bidirectional connection that reads whole messages or nothing.
///
/// Bytes may arrive before a whole message has: the channel keeps what it has received and
/// continues from there next time. The connection itself, `T`, is only held here; reading from
/// it and writing to it happen outside, which hand the received bytes to [`Self::receive`].
#[derive(Debug)]
pub struct MessageChannel<T> {
    inner: T,
    buffer: Vec<u8>,
}

impl<T> MessageChannel<T> {
    /// The underlying connection.
    pub closed spec fn connection(&self) -> T {
        self.inner
    }

    /// Bytes received but not yet taken as messages.
    pub closed spec fn pending(&self) -> Seq<u8> {
        self.buffer@
    }

    pub fn new(inner: T) -> (channel: Self)
        ensures
            channel.connection() == inner,
            channel.pending() == Seq::<u8>::empty(),
    {
        MessageChannel { inner, buffer: Vec::new() }
    }

    /// Replaces the underlying connection with a new one, returning the old one. This drops the
    /// bytes received so far (keeping the buffer's allocation).
    pub fn replace(&mut self, new_inner: T) -> (old_inner: T)
        ensures
            old_inner == old(self).connection(),
            final(self).connection() == new_inner,
            final(self).pending() == Seq::<u8>::empty(),
    {
        let mut old_inner = new_inner;
        std::mem::swap(&mut self.inner, &mut old_inner);
        self.buffer.clear();
        old_inner
    }

    /// The underlying connection, to read from or write to.
    pub fn connection_mut(&mut self) -> (inner: &mut T)
        ensures
            *inner == old(self).connection(),
            final(self).connection() == *final(inner),
            final(self).pending() == old(self).pending(),
    {
        &mut self.inner
    }

    /// Adds bytes read from the connection to the pending ones.
    pub fn receive(&mut self, bytes: &[u8])
        ensures
            final(self).connection() == old(self).connection(),
            final(self).pending() == old(self).pending() + bytes@,
    {
        self.buffer.extend_from_slice(bytes);
    }

    /// Drops the first `n` pending bytes, moving the rest to the front of the buffer.
    fn discard_front(&mut self, n: usize)
        requires
            n <= old(self).pending().len(),
        ensures
            final(self).connection() == old(self).connection(),
            final(self).pending() == old(self).pending().skip(n as int),
    {
        let len = self.buffer.len();
        if n == len {
            self.buffer.clear();
            assert(self.buffer@ =~= old(self).pending().skip(n as int));
            return;
        }
        let ghost before = self.buffer@;
        let keep = len - n;
        let mut i: usize = 0;
        while i < keep
            invariant
                keep == len - n,
                n <= len,
                i <= keep,
                before.len() == len,
                self.buffer@.len() == len,
                self.inner == old(self).inner,
                before == old(self).buffer@,
                forall|j: int| 0 <= j < i ==> self.buffer@[j] == before[n + j],
                forall|j: int| i <= j < len ==> self.buffer@[j] == before[j],
            decreases keep - i,
        {
            let b = self.buffer[n + i];
            self.buffer.set(i, b);
            i = i + 1;
        }
        self.buffer.truncate(keep);
        assert(self.buffer@ =~= before.skip(n as int));
    }

    /// Takes the message at the front of the pending bytes. When they hold a whole message, it
    /// is returned and its bytes are dropped; otherwise the pending bytes stay as they are, and
    /// the error is that of reading past their end (`Io`), an unknown variant byte, or a string
    /// that is not UTF-8.
    pub fn take_message(&mut self) -> (r: ProtocolResult<Message>)
        ensures
            final(self).connection() == old(self).connection(),
            decodes_to(
                parse_message(old(self).pending()),
                r,
                |m: Message| m@,
                old(self).pending(),
                final(self).pending(),
            ),
            !(parse_message(old(self).pending()) is Done) ==> final(self).pending() == old(
                self,
            ).pending(),
    {
        let mut reader: &[u8] = self.buffer.as_slice();
        let message = Message::from_reader(&mut reader);
        let remaining = reader.len();
        match message {
            Ok(m) => {
                let consumed = self.buffer.len() - remaining;
                self.discard_front(consumed);
                Ok(m)
            },
            Err(e) => Err(e),
        }
    }

    /// Like [`Self::take_message`], but `Ok(None)` when the pending bytes do not yet hold a whole
    /// message.
    pub fn try_take_message(&mut self) -> (r: ProtocolResult<Option<Message>>)
        ensures
            final(self).connection() == old(self).connection(),
            match parse_message(old(self).pending()) {
                Parsed::Done(m, k) => r matches Ok(Some(x)) && x@ == m && final(self).pending()
                    == old(self).pending().skip(k),
                Parsed::Incomplete => r matches Ok(None) && final(self).pending() == old(
                    self,
                ).pending(),
                Parsed::BadVariant(b) => r matches Err(ProtocolError::InvalidMessageVariant(c))
                    && c == b && final(self).pending() == old(self).pending(),
                Parsed::BadUtf8 => r matches Err(ProtocolError::Utf8(_)) && final(self).pending()
                    == old(self).pending(),
            },
    {
        match self.take_message() {
            Ok(m) => Ok(Some(m)),
            Err(ProtocolError::Io(_)) => Ok(None),
            Err(e) => Err(e),
        }
    }
}

} // verus!
