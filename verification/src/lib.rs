//! Text preparation, chunking, shortcut parsing and settings rules of a
//! local text-to-speech reader, with their contracts proved by Verus.
use vstd::prelude::*;

pub mod text;
pub mod chunking;
pub mod lang;
pub mod preprocess;
pub mod processor;
pub mod shortcut;
pub mod settings;
pub mod model_files;
pub mod playback;
pub mod session;

verus! {

} // verus!
