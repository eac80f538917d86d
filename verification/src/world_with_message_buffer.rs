//! A state that can hold back the messages sent to it.

use crate::universe::AppUniverseCore;
use std::ops::Deref;
use vstd::prelude::*;

verus! {

/// A state together with a buffer that can take the messages sent to it in
/// place of the reducer. That serves to check that an event handler sent the
/// messages that were expected of it.
pub struct WorldWithMessageBuffer<W: AppUniverseCore> {
    world: W,
    message_buffer: Vec<W::Message>,
    capture_messages: bool,
}

/// A buffered state as the contracts see it.
pub struct BufferedWorld<W: AppUniverseCore> {
    /// The state.
    pub world: W,
    /// The messages that were held back, oldest first.
    pub buffer: Seq<W::Message>,
    /// Whether messages are held back.
    pub capturing: bool,
}

impl<W: AppUniverseCore> BufferedWorld<W> {
    /// Whether handing over `message` may lead to `after`: while messages are
    /// held back it joins the buffer and the state stays, else the reducer
    /// takes the state to that of `after` and the buffer stays.
    pub open spec fn message(self, message: W::Message, after: Self) -> bool {
        &&& after.capturing == self.capturing
        &&& self.capturing ==> after.world == self.world && after.buffer == self.buffer.push(
            message,
        )
        &&& !self.capturing ==> self.world.reduces_to(message, after.world) && after.buffer
            == self.buffer
    }
}

impl<W: AppUniverseCore> View for WorldWithMessageBuffer<W> {
    type V = BufferedWorld<W>;

    closed spec fn view(&self) -> BufferedWorld<W> {
        BufferedWorld {
            world: self.world,
            buffer: self.message_buffer@,
            capturing: self.capture_messages,
        }
    }
}

impl<W: AppUniverseCore> WorldWithMessageBuffer<W> {
    /// Creates a new state and message buffer. Messages are not held back
    /// until `set_capture_messages` says so.
    pub fn new(state: W) -> (buffered: Self)
        ensures
            buffered@ == (BufferedWorld { world: state, buffer: Seq::empty(), capturing: false }),
    {
        WorldWithMessageBuffer { world: state, message_buffer: Vec::new(), capture_messages: false }
    }

    /// Sets whether messages are held back in the buffer.
    pub fn set_capture_messages(&mut self, capture: bool)
        ensures
            final(self)@ == (BufferedWorld { capturing: capture, ..old(self)@ }),
    {
        self.capture_messages = capture;
    }

    /// The messages that were held back, oldest first.
    pub fn message_buffer(&self) -> (buffer: &Vec<W::Message>)
        ensures
            buffer@ == self@.buffer,
    {
        &self.message_buffer
    }

    /// Takes a message: into the buffer while messages are held back, else
    /// to the reducer.
    pub fn message_maybe_capture(&mut self, message: W::Message)
        ensures
            old(self)@.message(message, final(self)@),
    {
        if self.capture_messages {
            self.message_buffer.push(message);
        } else {
            self.world.msg(message);
        }
    }
}

impl<W: AppUniverseCore> Deref for WorldWithMessageBuffer<W> {
    type Target = W;

    /// Read access to the state.
    fn deref(&self) -> (world: &W)
        ensures
            *world == self@.world,
    {
        &self.world
    }
}

} // verus!
