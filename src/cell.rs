use vstd::prelude::*;

verus! {

/// A position of the grid together with its state.
#[derive(Debug)]
pub struct Cell<T> {
    pub value: T,
    pub x: usize,
    pub y: usize,
}

} // verus!
