//! The life of one client connection, as decisions: from the connection's
//! phase and what just happened on its socket or queue, the next phase and
//! the one thing to do next. The caller performs the I/O.

use vstd::prelude::*;
use crate::wire::{bytes_be32, encode, encode_command, state_frame, steer_frame, Command, TAG_STEER};

verus! {

/// Where a connection stands.
#[derive(PartialEq, Eq, Structural, Debug, Clone, Copy)]
pub enum Phase {
    /// Admitted, nothing done yet.
    Fresh,
    /// A command frame is being posted to the queue.
    Posting,
    /// Waiting for a snapshot this player has not read.
    Waiting,
    /// A state frame is being written to the socket.
    Sending,
    /// Reading the client's steering frame.
    Reading,
    /// Torn down: its ship's removal has been asked for.
    Closed,
}

/// What happened since the last step.
pub enum Event {
    Start,
    Posted,
    Snapshot(Vec<u8>),
    Written,
    Frame([u8; 9]),
    /// A read, a write or a post failed.
    Failed,
}

/// The next thing to do.
pub enum Action {
    /// Post this frame to the command queue.
    Post(Vec<u8>),
    /// Wait for the next unread snapshot.
    AwaitSnapshot,
    /// Write this frame to the socket.
    Write(Vec<u8>),
    /// Read one steering frame from the socket.
    ReadFrame,
    /// Post this frame (the ship's removal), free the player id, and stop.
    Finish(Vec<u8>),
    /// Nothing: the event does not fit the phase.
    Idle,
}

/// One connection, under player id `id`.
pub struct Session {
    pub id: u8,
    pub phase: Phase,
}

impl Session {
    pub fn new(id: u8) -> (s: Session)
        ensures
            s.id == id,
            s.phase == Phase::Fresh,
    {
        Session { id, phase: Phase::Fresh }
    }

    /// Advances the connection by one event. The connection joins by posting
    /// its ship's spawn, then loops: wait for the newest snapshot, write it
    /// as a state frame, read a steering frame, post it. Any failure (or a
    /// snapshot too long for a frame) tears it down once, posting the ship's
    /// removal; a closed connection ignores everything.
    pub fn step(&mut self, event: Event) -> (a: Action)
        ensures
            final(self).id == old(self).id,
            match (old(self).phase, event) {
                (Phase::Closed, _) => final(self).phase == Phase::Closed && a is Idle,
                (_, Event::Failed) => final(self).phase == Phase::Closed && (a matches Action::Finish(
                    f,
                ) && f@ == encode(Command::Remove(old(self).id))),
                (Phase::Fresh, Event::Start) => final(self).phase == Phase::Posting && (
                a matches Action::Post(f) && f@ == encode(Command::Spawn(old(self).id))),
                (Phase::Posting, Event::Posted) => final(self).phase == Phase::Waiting
                    && a is AwaitSnapshot,
                (Phase::Waiting, Event::Snapshot(s)) => if s.len() <= u32::MAX {
                    final(self).phase == Phase::Sending && (a matches Action::Write(f) && f@
                        == bytes_be32(s.len() as u32) + s@)
                } else {
                    final(self).phase == Phase::Closed && (a matches Action::Finish(f) && f@
                        == encode(Command::Remove(old(self).id)))
                },
                (Phase::Sending, Event::Written) => final(self).phase == Phase::Reading
                    && a is ReadFrame,
                (Phase::Reading, Event::Frame(c)) => final(self).phase == Phase::Posting && (
                a matches Action::Post(f) && f@ == seq![TAG_STEER, old(self).id] + c@),
                _ => final(self).phase == old(self).phase && a is Idle,
            },
    {
        if self.phase == Phase::Closed {
            return Action::Idle;
        }
        match event {
            Event::Failed => self.finish(),
            Event::Start => {
                if self.phase == Phase::Fresh {
                    self.phase = Phase::Posting;
                    Action::Post(encode_command(&Command::Spawn(self.id)))
                } else {
                    Action::Idle
                }
            },
            Event::Posted => {
                if self.phase == Phase::Posting {
                    self.phase = Phase::Waiting;
                    Action::AwaitSnapshot
                } else {
                    Action::Idle
                }
            },
            Event::Snapshot(s) => {
                if self.phase == Phase::Waiting {
                    match state_frame(&s) {
                        Some(f) => {
                            self.phase = Phase::Sending;
                            Action::Write(f)
                        },
                        None => self.finish(),
                    }
                } else {
                    Action::Idle
                }
            },
            Event::Written => {
                if self.phase == Phase::Sending {
                    self.phase = Phase::Reading;
                    Action::ReadFrame
                } else {
                    Action::Idle
                }
            },
            Event::Frame(c) => {
                if self.phase == Phase::Reading {
                    self.phase = Phase::Posting;
                    Action::Post(steer_frame(self.id, &c))
                } else {
                    Action::Idle
                }
            },
        }
    }

    fn finish(&mut self) -> (a: Action)
        ensures
            final(self).id == old(self).id,
            final(self).phase == Phase::Closed,
            a matches Action::Finish(f) && f@ == encode(Command::Remove(old(self).id)),
    {
        self.phase = Phase::Closed;
        Action::Finish(encode_command(&Command::Remove(self.id)))
    }
}

} // verus!
