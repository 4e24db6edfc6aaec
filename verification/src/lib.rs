//! Report logic of a Nintendo Switch Pro Controller emulator.
use vstd::prelude::*;

pub mod controller;
pub mod effect;
pub mod frame;
pub mod input;
pub mod lines;
pub mod response;
pub mod scripts;
pub mod text;
pub mod uart;

verus! {

} // verus!
