//! Applying a command frame from the queue to the world.

use vstd::prelude::*;
use crate::wire::{decode, decode_command, Command};
use crate::world::{fired, spawned_as, steered, without, Ballistic, Space};

verus! {

/// Applies one command frame to the world. A spawn places the new ship with
/// `spawn_body`; a malformed frame clears the steering of the fallback player.
pub fn run_command<B: Ballistic>(space: &mut Space<B>, command: Vec<u8>, spawn_body: B)
    requires
        old(space).wf(),
    ensures
        final(space).wf(),
        final(space).planets() == old(space).planets(),
        match decode(command@) {
            Command::Spawn(id) => final(space).ships() == spawned_as(old(space).ships(), id, spawn_body)
                && final(space).bullets() == old(space).bullets(),
            Command::Remove(id) => final(space).ships() == without(old(space).ships(), id)
                && final(space).bullets() == old(space).bullets(),
            Command::Steer(id, d) => final(space).ships() == steered(old(space).ships(), id, d)
                && final(space).bullets() == old(space).bullets(),
            Command::Fire(id, a) => final(space).ships() == old(space).ships() && fired(
                old(space).ships(),
                old(space).bullets(),
                final(space).bullets(),
                id,
            ),
        },
{
    match decode_command(&command) {
        Command::Spawn(id) => {
            space.spawn_ship(id, spawn_body);
        },
        Command::Remove(id) => {
            space.remove_ship(id);
        },
        Command::Steer(id, d) => {
            space.move_ship(id, d);
        },
        Command::Fire(id, a) => {
            space.shoot(id, a);
        },
    }
}

} // verus!
