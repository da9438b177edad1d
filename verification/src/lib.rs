//! A plucked-string synthesizer core in fixed-point arithmetic.
//!
//! Performance events are decoded and turned into control values; an
//! envelope generator, a feedback delay line and a bank of resonant filters
//! are advanced one sample at a time and their sum is written out as
//! interleaved stereo frames.
//!
//! - [`event`] decodes raw MIDI messages.
//! - [`controls`] holds the four control values and says what each event
//!   writes; [`store`] shares them between two threads.
//! - [`pitch`] gives the frequency of a note.
//! - [`string`] measures a physical string: the length of its delay line
//!   and its fundamental.
//! - [`envelope`], [`waveguide`] and [`harmonics`] are the three parts of a
//!   voice, and [`render`] composes them.
//! - [`fixed`] is the arithmetic they share.

pub mod controls;
pub mod envelope;
pub mod event;
pub mod fixed;
pub mod harmonics;
pub mod pitch;
pub mod render;
pub mod store;
pub mod string;
pub mod waveguide;
