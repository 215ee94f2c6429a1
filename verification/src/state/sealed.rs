//! Keeps the set of label states closed.

use vstd::prelude::*;

verus! {

/// Implemented by the label states of this crate and by nothing else.
pub trait Sealed {

}

impl Sealed for super::Full {

}

impl Sealed for super::Active {

}

} // verus!
