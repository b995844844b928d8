//! The messages of one input.

use vstd::prelude::*;
use crate::errors::Error;
use crate::structs::versions::BUFRMessage;

verus! {

/// One message of an input.
#[derive(Clone, Debug)]
pub struct MessageBlock {
    message: BUFRMessage,
    offset: u64,
}

impl MessageBlock {
    pub closed spec fn spec_message(&self) -> BUFRMessage {
        self.message
    }

    /// Where in its input the message begins.
    pub closed spec fn spec_offset(&self) -> u64 {
        self.offset
    }

    /// A message that stands alone, at offset 0.
    pub fn new(message: BUFRMessage) -> (r: Self)
        ensures
            r.spec_message() == message,
            r.spec_offset() == 0,
    {
        MessageBlock { message, offset: 0 }
    }

    /// A message that begins at an offset of its input.
    pub fn at(message: BUFRMessage, offset: u64) -> (r: Self)
        ensures
            r.spec_message() == message,
            r.spec_offset() == offset,
    {
        MessageBlock { message, offset }
    }

    /// Where in its input the message begins.
    pub fn offset(&self) -> (r: u64)
        ensures
            r == self.spec_offset(),
    {
        self.offset
    }

    /// The message itself.
    pub fn message(&self) -> (r: &BUFRMessage)
        ensures
            *r == self.spec_message(),
    {
        &self.message
    }
}

/// A start marker in the input behind which no message could be read.
#[derive(Clone, Copy, Debug, PartialEq, Eq, Structural)]
pub struct Rejected {
    /// Where the marker stands.
    pub offset: u64,
    /// Why no message was read there.
    pub error: Error,
}

/// The messages found in an input, in their order, and the places where a
/// start marker did not begin a message.
#[derive(Clone, Debug)]
pub struct BUFRFile {
    messages: Vec<MessageBlock>,
    rejected: Vec<Rejected>,
}

impl BUFRFile {
    pub closed spec fn spec_messages(&self) -> Seq<MessageBlock> {
        self.messages@
    }

    pub closed spec fn spec_rejected(&self) -> Seq<Rejected> {
        self.rejected@
    }

    pub fn new() -> (r: Self)
        ensures
            r.spec_messages().len() == 0,
            r.spec_rejected().len() == 0,
    {
        BUFRFile { messages: Vec::new(), rejected: Vec::new() }
    }

    /// Appends a message that stands alone.
    pub fn push_message(&mut self, message: BUFRMessage)
        ensures
            final(self).spec_messages().len() == old(self).spec_messages().len() + 1,
            final(self).spec_messages().last().spec_message() == message,
            final(self).spec_messages().last().spec_offset() == 0,
            forall|i: int|
                0 <= i < old(self).spec_messages().len() ==> final(self).spec_messages()[i] == old(
                    self,
                ).spec_messages()[i],
            final(self).spec_rejected() == old(self).spec_rejected(),
    {
        self.messages.push(MessageBlock::new(message));
    }

    /// Appends a message that begins at an offset of the input.
    pub fn push_block(&mut self, block: MessageBlock)
        ensures
            final(self).spec_messages() == old(self).spec_messages().push(block),
            final(self).spec_rejected() == old(self).spec_rejected(),
    {
        self.messages.push(block);
    }

    pub fn push_rejected(&mut self, offset: u64, error: Error)
        ensures
            final(self).spec_rejected() == old(self).spec_rejected().push(
                Rejected { offset, error },
            ),
            final(self).spec_messages() == old(self).spec_messages(),
    {
        self.rejected.push(Rejected { offset, error });
    }

    pub fn message_count(&self) -> (r: usize)
        ensures
            r == self.spec_messages().len(),
    {
        self.messages.len()
    }

    pub fn message_at(&self, index: usize) -> (r: Option<&MessageBlock>)
        ensures
            match r {
                Some(m) => index < self.spec_messages().len() && *m == self.spec_messages()[index as int],
                None => index >= self.spec_messages().len(),
            },
    {
        if index < self.messages.len() {
            Some(&self.messages[index])
        } else {
            None
        }
    }

    pub fn messages(&self) -> (r: &[MessageBlock])
        ensures
            r@ == self.spec_messages(),
    {
        self.messages.as_slice()
    }

    /// The start markers behind which no message could be read.
    pub fn rejected(&self) -> (r: &[Rejected])
        ensures
            r@ == self.spec_rejected(),
    {
        self.rejected.as_slice()
    }
}

} // verus!
