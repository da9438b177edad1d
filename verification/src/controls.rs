//! The control values that the event path writes and the render path reads,
//! and the writes that each event makes to them.

use vstd::prelude::*;
use crate::event::{Event, BEND_CENTER, BEND_MAX, DATA_MAX};
use crate::fixed::ONE;
use crate::pitch::{millihertz, note_millihertz};

verus! {

/// The envelope gate.
#[derive(Clone, Copy, Debug, PartialEq, Eq, Structural)]
pub enum Gate {
    /// No note has been played yet: the envelope gate stands at zero.
    Rest,
    /// A note is held: the envelope gate is positive and the envelope attacks.
    Attack,
    /// The held note was let go: the envelope gate is negative and the envelope
    /// releases.
    Release,
}

impl Gate {
    /// The envelope gate as a signed unit: 1, 0 or -1.
    pub open spec fn signum(self) -> int {
        match self {
            Gate::Rest => 0,
            Gate::Attack => 1,
            Gate::Release => -1,
        }
    }

    /// Whether the envelope gate is positive.
    pub open spec fn open(self) -> bool {
        self == Gate::Attack
    }

    /// The envelope gate as a signed unit: 1, 0 or -1.
    pub fn sign(&self) -> (s: i8)
        ensures
            s == self.signum(),
    {
        match *self {
            Gate::Rest => 0,
            Gate::Attack => 1,
            Gate::Release => -1,
        }
    }

    /// Whether the envelope gate is positive.
    pub fn is_open(&self) -> (b: bool)
        ensures
            b == self.open(),
    {
        match *self {
            Gate::Attack => true,
            _ => false,
        }
    }
}

/// The four control values. The pitch is kept as the number of the note that
/// set it, the volume as the velocity that set it, and the bend as the raw
/// wheel position.
#[derive(Clone, Copy, Debug, PartialEq, Eq, Structural)]
pub struct Controls {
    /// The note that was played last, if any.
    pub pitch: Option<u8>,
    /// The velocity of that note; 127 is full volume.
    pub velocity: u8,
    /// The position of the pitch wheel; 8192 leaves the pitch as it is.
    pub bend: u16,
    /// The envelope gate.
    pub gate: Gate,
}

/// The writes that one event makes. A field that is `None` is left alone.
#[derive(Clone, Copy, Debug, PartialEq, Eq, Structural)]
pub struct Update {
    pub pitch: Option<u8>,
    pub velocity: Option<u8>,
    pub bend: Option<u16>,
    pub gate: Option<Gate>,
}

/// The writes that `event` makes when `held` is the pitch in the store.
///
/// A note-on writes all four values. A note-off closes the envelope gate only if its
/// note is the one that set the pitch, so that a key let go late cannot
/// silence a newer note. A pitch-bend writes the bend. Nothing else writes.
pub open spec fn writes_of(held: Option<u8>, event: Event) -> Update {
    match event {
        Event::NoteOn { note, velocity } => (Update {
            pitch: Some(note),
            velocity: Some(velocity),
            bend: Some(BEND_CENTER),
            gate: Some(Gate::Attack),
        }),
        Event::NoteOff { note, velocity } => (Update {
            pitch: None,
            velocity: None,
            bend: None,
            gate: if held == Some(note) {
                Some(Gate::Release)
            } else {
                None
            },
        }),
        Event::PitchBend { bend } => (Update {
            pitch: None,
            velocity: None,
            bend: Some(bend),
            gate: None,
        }),
        Event::Other => (Update { pitch: None, velocity: None, bend: None, gate: None }),
    }
}

/// Translates one event into the writes it makes.
pub fn translate(held: Option<u8>, event: Event) -> (update: Update)
    ensures
        update == writes_of(held, event),
{
    match event {
        Event::NoteOn { note, velocity } => Update {
            pitch: Some(note),
            velocity: Some(velocity),
            bend: Some(BEND_CENTER),
            gate: Some(Gate::Attack),
        },
        Event::NoteOff { note, velocity: _ } => {
            let matches_held = match held {
                Some(h) => h == note,
                None => false,
            };
            Update {
                pitch: None,
                velocity: None,
                bend: None,
                gate: if matches_held {
                    Some(Gate::Release)
                } else {
                    None
                },
            }
        },
        Event::PitchBend { bend } => Update {
            pitch: None,
            velocity: None,
            bend: Some(bend),
            gate: None,
        },
        Event::Other => Update { pitch: None, velocity: None, bend: None, gate: None },
    }
}

impl Controls {
    /// Whether every value lies in its range.
    pub open spec fn wf(self) -> bool {
        &&& self.velocity <= DATA_MAX
        &&& self.bend <= BEND_MAX
        &&& (self.pitch matches Some(n) ==> n <= DATA_MAX)
    }

    /// The values before any event: no pitch, no volume, the wheel at rest,
    /// the envelope gate at zero.
    pub open spec fn initial() -> Controls {
        Controls { pitch: None, velocity: 0, bend: BEND_CENTER, gate: Gate::Rest }
    }

    /// The values after the writes of `update`.
    pub open spec fn written(self, update: Update) -> Controls {
        Controls {
            pitch: if update.pitch is Some {
                update.pitch
            } else {
                self.pitch
            },
            velocity: if let Some(v) = update.velocity {
                v
            } else {
                self.velocity
            },
            bend: if let Some(b) = update.bend {
                b
            } else {
                self.bend
            },
            gate: if let Some(g) = update.gate {
                g
            } else {
                self.gate
            },
        }
    }

    /// The values after `event`.
    pub open spec fn after(self, event: Event) -> Controls {
        match event {
            Event::NoteOn { note, velocity } => Controls {
                pitch: Some(note),
                velocity,
                bend: BEND_CENTER,
                gate: Gate::Attack,
            },
            Event::NoteOff { note, velocity } => if self.pitch == Some(note) {
                Controls { gate: Gate::Release, ..self }
            } else {
                self
            },
            Event::PitchBend { bend } => Controls { bend, ..self },
            Event::Other => self,
        }
    }

    /// The values after each event of `events` in turn.
    pub open spec fn after_all(self, events: Seq<Event>) -> Controls
        decreases events.len(),
    {
        if events.len() == 0 {
            self
        } else {
            self.after(events[0]).after_all(events.drop_first())
        }
    }

    /// The volume as a fixed-point fraction of full volume.
    pub open spec fn volume_level(self) -> int {
        self.velocity as int * ONE as int / 127
    }

    /// The pitch in millihertz: the frequency of the note that set it, and
    /// zero while no note has been played.
    pub open spec fn pitch_level(self) -> int {
        match self.pitch {
            None => 0,
            Some(note) => millihertz(note as int),
        }
    }

    /// The position of the wheel relative to its centre, in units of
    /// 1/8192 of a semitone.
    pub open spec fn bend_offset(self) -> int {
        self.bend as int - BEND_CENTER as int
    }

    /// The control values before any event.
    pub fn new() -> (c: Controls)
        ensures
            c == Controls::initial(),
            c.wf(),
    {
        Controls { pitch: None, velocity: 0, bend: BEND_CENTER, gate: Gate::Rest }
    }

    /// Performs the writes of `update`.
    pub fn apply(&mut self, update: Update)
        ensures
            *final(self) == old(self).written(update),
    {
        if update.pitch.is_some() {
            self.pitch = update.pitch;
        }
        if let Some(v) = update.velocity {
            self.velocity = v;
        }
        if let Some(b) = update.bend {
            self.bend = b;
        }
        if let Some(g) = update.gate {
            self.gate = g;
        }
    }

    /// Consumes one event.
    pub fn handle(&mut self, event: Event)
        ensures
            *final(self) == old(self).after(event),
            *final(self) == old(self).written(writes_of(old(self).pitch, event)),
            old(self).wf() && event.valid() ==> final(self).wf(),
    {
        let update = translate(self.pitch, event);
        self.apply(update);
    }

    /// Consumes a run of events in order.
    pub fn handle_all(&mut self, events: &[Event])
        ensures
            *final(self) == old(self).after_all(events@),
    {
        let ghost start = *self;
        let mut i: usize = 0;
        assert(events@.skip(0) =~= events@);
        while i < events.len()
            invariant
                i <= events.len(),
                start.after_all(events@) == self.after_all(events@.skip(i as int)),
            decreases events.len() - i,
        {
            proof {
                let rest = events@.skip(i as int);
                assert(rest[0] == events@[i as int]);
                assert(rest.drop_first() =~= events@.skip(i + 1));
            }
            self.handle(events[i]);
            i += 1;
        }
        proof {
            assert(events@.skip(i as int).len() == 0);
        }
    }

    /// The volume as a fixed-point fraction: the velocity over 127.
    pub fn volume(&self) -> (v: u64)
        ensures
            v == self.volume_level(),
            self.velocity <= DATA_MAX ==> v <= ONE,
            self.velocity == DATA_MAX ==> v == ONE,
            self.velocity == 0 ==> v == 0,
    {
        let v: u64 = self.velocity as u64;
        v * ONE / 127
    }

    /// The pitch in millihertz.
    pub fn pitch_millihertz(&self) -> (f: u64)
        requires
            self.wf(),
        ensures
            f == self.pitch_level(),
            self.pitch is None <==> f == 0,
    {
        match self.pitch {
            None => 0,
            Some(note) => note_millihertz(note),
        }
    }

    /// The position of the wheel relative to its centre.
    pub fn bend_from_center(&self) -> (d: i32)
        ensures
            d == self.bend_offset(),
    {
        self.bend as i32 - BEND_CENTER as i32
    }
}

/// Of two writes to one value the later is the one that stays, and a value
/// that the later write leaves alone stays as the earlier one left it.
pub proof fn lemma_last_write_wins(c: Controls, first: Update, second: Update)
    ensures
        ({
            let both = c.written(first).written(second);
            let once = c.written(first);
            &&& both.pitch == (if second.pitch is Some {
                second.pitch
            } else {
                once.pitch
            })
            &&& both.velocity == (if let Some(v) = second.velocity {
                v
            } else {
                once.velocity
            })
            &&& both.bend == (if let Some(b) = second.bend {
                b
            } else {
                once.bend
            })
            &&& both.gate == (if let Some(g) = second.gate {
                g
            } else {
                once.gate
            })
        }),
{
}

/// What an event does to the values is what its writes do to them.
pub proof fn lemma_after_is_written(c: Controls, event: Event)
    ensures
        c.after(event) == c.written(writes_of(c.pitch, event)),
{
}

/// A note-off for the note that is held closes the envelope gate.
pub proof fn lemma_release_of_held_note(c: Controls, note: u8, on_velocity: u8, off_velocity: u8)
    ensures
        c.after(Event::NoteOn { note, velocity: on_velocity }).after(
            Event::NoteOff { note, velocity: off_velocity },
        ).gate == Gate::Release,
{
}

/// A note-off for a note that a newer note has replaced changes nothing: the
/// newer note keeps sounding.
pub proof fn lemma_stale_release_ignored(
    c: Controls,
    first: u8,
    second: u8,
    v1: u8,
    v2: u8,
    v3: u8,
)
    requires
        first != second,
    ensures
        ({
            let held = c.after(Event::NoteOn { note: first, velocity: v1 }).after(
                Event::NoteOn { note: second, velocity: v2 },
            );
            &&& held.after(Event::NoteOff { note: first, velocity: v3 }) == held
            &&& held.gate == Gate::Attack
            &&& held.pitch == Some(second)
        }),
{
}

/// A note-off can only ever close the envelope gate, and only for the held note.
pub proof fn lemma_note_off_touches_gate_only(c: Controls, note: u8, velocity: u8)
    ensures
        ({
            let next = c.after(Event::NoteOff { note, velocity });
            &&& next.pitch == c.pitch
            &&& next.velocity == c.velocity
            &&& next.bend == c.bend
            &&& next.gate != c.gate ==> c.pitch == Some(note) && next.gate == Gate::Release
        }),
{
}

} // verus!
