//! An offline audio-effects engine.
//!
//! The engine takes a decoded sample stream, applies a chain of effects to it
//! (feedback delay, equalizer filters, gain, soft clipping, peak
//! normalization) and hands the stream back for encoding. It reads the text
//! form of a chain, checks the arguments of every effect before it applies the
//! first, and keeps the stream in whole frames.
//!
//! Samples are carried as IEEE-754 bit patterns. Everything that the engine
//! decides (which sample meets which, what enters the delay line, when a tail
//! ends, what is refused) is decided here and proved. The floating-point
//! formulas themselves are the methods of `arithmetic::Arithmetic`, which the
//! host of the engine implements.
//!
//! - `ieee`: order and sign of values, read off their bit patterns.
//! - `text`, `number`: characters, trimming, splitting, and the grammar of a
//!   floating-point literal.
//! - `grammar`, `effect_parser`, `parse_utils`: the text form of a chain in
//!   its two syntaxes.
//! - `types`: buffer, format, entries, argument sets and errors.
//! - `arithmetic`: the formulas that the host supplies.
//! - `delay_line`, `effect_modules`, `dynamics`, `delay`: the effects.
//! - `chain`: the registry of effects and the dispatcher.
//! - `decoder`, `encoder`: between the samples of a file and those of the
//!   engine.
pub mod arithmetic;
pub mod chain;
pub mod decoder;
pub mod delay;
pub mod delay_line;
pub mod dynamics;
pub mod effect_modules;
pub mod effect_parser;
pub mod encoder;
pub mod grammar;
pub mod ieee;
pub mod number;
pub mod parse_utils;
pub mod text;
pub mod types;
