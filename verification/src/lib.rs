//! A reader for Python's pickle format: it runs the pickle stack machine
//! over a byte buffer and hands back the value the stream builds.
use vstd::prelude::*;

pub mod op;
pub mod sizes;
pub mod value;
pub mod machine;
pub mod unpickle;
pub mod laws;
pub mod opcode_laws;
pub mod model_laws;
pub mod message_laws;

pub use unpickle::{unpickle, unpickle_checked};
pub use value::{PickleData, PickleValue};

verus! {

} // verus!
