//! The parameter store: four cells that one thread writes and another
//! reads, each on its own and without a lock.
//!
//! A cell holds the value written last. Nothing ties the four cells
//! together: a reader may see the pitch of a new note beside the volume of
//! the one before it. What a reader sees therefore depends on the writer's
//! progress, and the contracts of the readers promise of a value read only
//! that it is in range. How a cell value is read, whatever it is, is stated
//! exactly by the decoding functions, which the readers call on what they
//! load.

use vstd::prelude::*;
use std::sync::atomic::{AtomicI8, AtomicU16, AtomicU8, Ordering};
use crate::controls::{translate, writes_of, Controls, Gate, Update};
use crate::event::{Event, BEND_CENTER, BEND_MAX, DATA_MAX};

verus! {

/// The four cells.
pub struct ParameterStore {
    /// Zero while no note has been played, else the note plus one.
    pitch: AtomicU8,
    velocity: AtomicU8,
    bend: AtomicU16,
    /// The envelope gate as a signed unit.
    gate: AtomicI8,
}

/// The pitch that a cell value stands for.
pub open spec fn pitch_of(cell: u8) -> Option<u8> {
    if cell == 0 {
        None
    } else if cell > DATA_MAX {
        Some(DATA_MAX)
    } else {
        Some((cell - 1) as u8)
    }
}

/// The cell value that stands for a pitch.
pub open spec fn cell_of(pitch: Option<u8>) -> u8 {
    match pitch {
        None => 0,
        Some(n) => if n >= DATA_MAX {
            128
        } else {
            (n + 1) as u8
        },
    }
}

/// The envelope gate that a cell value stands for: open if positive, released if
/// negative.
pub open spec fn gate_of(cell: i8) -> Gate {
    if cell > 0 {
        Gate::Attack
    } else if cell < 0 {
        Gate::Release
    } else {
        Gate::Rest
    }
}

/// The velocity that a cell value stands for: the value itself, held to
/// the seven bits of a velocity.
pub open spec fn velocity_of(cell: u8) -> u8 {
    if cell > DATA_MAX {
        DATA_MAX
    } else {
        cell
    }
}

/// The bend that a cell value stands for: the value itself, held to the
/// fourteen bits of a bend.
pub open spec fn bend_of(cell: u16) -> u16 {
    if cell > BEND_MAX {
        BEND_MAX
    } else {
        cell
    }
}

/// The control values that four cell values stand for.
pub open spec fn controls_of(pitch: u8, velocity: u8, bend: u16, gate: i8) -> Controls {
    Controls {
        pitch: pitch_of(pitch),
        velocity: velocity_of(velocity),
        bend: bend_of(bend),
        gate: gate_of(gate),
    }
}

/// The four cell values that stand for control values.
pub open spec fn cells_of(c: Controls) -> (u8, u8, u16, i8) {
    (cell_of(c.pitch), c.velocity, c.bend, c.gate.signum() as i8)
}

/// Whatever four cells hold, they stand for control values in range.
pub proof fn lemma_cells_in_range(pitch: u8, velocity: u8, bend: u16, gate: i8)
    ensures
        controls_of(pitch, velocity, bend, gate).wf(),
{
}

/// Control values in range come back from their cells as they went in.
pub proof fn lemma_cells_round_trip(c: Controls)
    requires
        c.wf(),
    ensures
        ({
            let cells = cells_of(c);
            controls_of(cells.0, cells.1, cells.2, cells.3) == c
        }),
{
}

/// A pitch in range comes back from its cell as it went in.
pub proof fn lemma_pitch_cell_round_trip(pitch: Option<u8>)
    requires
        pitch matches Some(n) ==> n <= DATA_MAX,
    ensures
        pitch_of(cell_of(pitch)) == pitch,
{
}

/// A gate comes back from its cell as it went in.
pub proof fn lemma_gate_cell_round_trip(gate: Gate)
    ensures
        gate_of(gate.signum() as i8) == gate,
{
}

/// Reads a cell value as a pitch.
pub fn decode_pitch(cell: u8) -> (pitch: Option<u8>)
    ensures
        pitch == pitch_of(cell),
        pitch matches Some(n) ==> n <= DATA_MAX,
{
    if cell == 0 {
        None
    } else if cell > DATA_MAX {
        Some(DATA_MAX)
    } else {
        Some(cell - 1)
    }
}

/// Writes a pitch as a cell value.
pub fn encode_pitch(pitch: Option<u8>) -> (cell: u8)
    ensures
        cell == cell_of(pitch),
{
    match pitch {
        None => 0,
        Some(n) => if n >= DATA_MAX {
            128
        } else {
            n + 1
        },
    }
}

/// Reads a cell value as a gate.
pub fn decode_gate(cell: i8) -> (gate: Gate)
    ensures
        gate == gate_of(cell),
{
    if cell > 0 {
        Gate::Attack
    } else if cell < 0 {
        Gate::Release
    } else {
        Gate::Rest
    }
}

/// Reads a cell value as a velocity.
pub fn decode_velocity(cell: u8) -> (velocity: u8)
    ensures
        velocity == velocity_of(cell),
        velocity <= DATA_MAX,
{
    if cell > DATA_MAX {
        DATA_MAX
    } else {
        cell
    }
}

/// Reads a cell value as a bend.
pub fn decode_bend(cell: u16) -> (bend: u16)
    ensures
        bend == bend_of(cell),
        bend <= BEND_MAX,
{
    if cell > BEND_MAX {
        BEND_MAX
    } else {
        cell
    }
}

/// Reads four cell values as control values.
pub fn decode_cells(pitch: u8, velocity: u8, bend: u16, gate: i8) -> (c: Controls)
    ensures
        c == controls_of(pitch, velocity, bend, gate),
        c.wf(),
{
    Controls {
        pitch: decode_pitch(pitch),
        velocity: decode_velocity(velocity),
        bend: decode_bend(bend),
        gate: decode_gate(gate),
    }
}

/// Writes control values as four cell values.
pub fn encode_cells(c: Controls) -> (cells: (u8, u8, u16, i8))
    ensures
        cells == cells_of(c),
        c.wf() ==> controls_of(cells.0, cells.1, cells.2, cells.3) == c,
{
    (encode_pitch(c.pitch), c.velocity, c.bend, c.gate.sign())
}

impl ParameterStore {
    /// A store with every cell at its default: no pitch, no volume, the
    /// wheel at rest, the envelope gate at zero. The cells are made with the
    /// values that stand for [`Controls::initial`].
    pub fn new() -> (store: ParameterStore) {
        let cells = encode_cells(Controls::new());
        ParameterStore {
            pitch: AtomicU8::new(cells.0),
            velocity: AtomicU8::new(cells.1),
            bend: AtomicU16::new(cells.2),
            gate: AtomicI8::new(cells.3),
        }
    }

    /// Reads the pitch cell: [`decode_pitch`] of what it holds.
    pub fn pitch(&self) -> (pitch: Option<u8>)
        ensures
            pitch matches Some(n) ==> n <= DATA_MAX,
    {
        decode_pitch(self.pitch.load(Ordering::Relaxed))
    }

    /// Reads the velocity cell: [`decode_velocity`] of what it holds.
    pub fn velocity(&self) -> (velocity: u8)
        ensures
            velocity <= DATA_MAX,
    {
        decode_velocity(self.velocity.load(Ordering::Relaxed))
    }

    /// Reads the bend cell: [`decode_bend`] of what it holds.
    pub fn bend(&self) -> (bend: u16)
        ensures
            bend <= BEND_MAX,
    {
        decode_bend(self.bend.load(Ordering::Relaxed))
    }

    /// Reads the envelope gate cell: [`decode_gate`] of what it holds.
    pub fn gate(&self) -> (gate: Gate) {
        decode_gate(self.gate.load(Ordering::Relaxed))
    }

    /// Reads the four cells, one after the other: [`decode_cells`] of what
    /// they hold.
    pub fn read(&self) -> (c: Controls)
        ensures
            c.wf(),
    {
        let pitch = self.pitch.load(Ordering::Relaxed);
        let velocity = self.velocity.load(Ordering::Relaxed);
        let bend = self.bend.load(Ordering::Relaxed);
        let gate = self.gate.load(Ordering::Relaxed);
        decode_cells(pitch, velocity, bend, gate)
    }

    /// Performs the writes of `update`, one cell after the other.
    pub fn write(&self, update: Update) {
        if update.pitch.is_some() {
            self.pitch.store(encode_pitch(update.pitch), Ordering::Relaxed);
        }
        if let Some(v) = update.velocity {
            self.velocity.store(v, Ordering::Relaxed);
        }
        if let Some(b) = update.bend {
            self.bend.store(b, Ordering::Relaxed);
        }
        if let Some(g) = update.gate {
            self.gate.store(g.sign(), Ordering::Relaxed);
        }
    }

    /// Consumes one event: reads the pitch that is held, translates the
    /// event against it and performs the writes. Returns the pitch that was
    /// read and the writes that were made.
    pub fn handle(&self, event: Event) -> (done: (Option<u8>, Update))
        ensures
            done.1 == writes_of(done.0, event),
    {
        let held = self.pitch();
        let update = translate(held, event);
        self.write(update);
        (held, update)
    }
}

} // verus!
