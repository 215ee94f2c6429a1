//! The states of an encoded value.

use crate::label::Delta;
use vstd::prelude::*;

mod sealed;

verus! {

/// Marker trait for label state.
pub trait LabelState: sealed::Sealed + Clone {

}

/// Full label state: both the low and the high label of each wire are known,
/// the low one stored and the high one reached through the offset.
#[derive(Debug, Clone, Copy, PartialEq)]
pub struct Full {
    pub(crate) delta: Delta,
}

impl LabelState for Full {

}

/// Active label state: one label per wire, and no offset.
#[derive(Debug, Clone, Copy, PartialEq)]
pub struct Active;

impl LabelState for Active {

}

} // verus!
