//! A text-driven live MIDI sequencer core: a tokenizer for the notation, a
//! stack interpreter that turns tokens into scheduling commands, and the
//! playback state that maps those commands to MIDI messages.

pub mod backend;
pub mod command;
pub mod interpreter;
pub mod lexer;
pub mod lemmas;
pub mod lexer_lemmas;
pub mod machine;
pub mod token;

pub use backend::Backend;
pub use command::{Command, MidiMessage, PitchSpec};
pub use interpreter::Interpreter;
pub use lexer::tokenize;
pub use token::Token;
