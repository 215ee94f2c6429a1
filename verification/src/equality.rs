//! Checking that an active encoding stands for an expected value.

use crate::labels::select_wires;
use crate::state::{Active, Full};
use crate::value::{EncodedValue, Value, ValueError, ValueType};
use vstd::prelude::*;

verus! {

/// The active encoding that an expected value has under a full encoding,
/// against which the active encoding that a computation gave is compared.
#[derive(Debug, Clone, PartialEq)]
pub struct EqualityCheck {
    expected: EncodedValue<Active>,
}

impl EqualityCheck {
    /// The type of the expected value.
    pub closed spec fn spec_value_type(&self) -> ValueType {
        self.expected.spec_value_type()
    }

    /// The bytes of the label that is expected on each wire.
    pub closed spec fn wires(&self) -> Seq<Seq<u8>> {
        self.expected.wires()
    }

    /// Creates the check for `value` under the full encoding `full`.
    ///
    /// Fails with `TypeMismatch` unless `value` has the type of the encoding.
    pub fn new(full: &EncodedValue<Full>, value: &Value) -> (res: Result<EqualityCheck, ValueError>)
        ensures
            res is Ok <==> value.spec_value_type() == full.spec_value_type(),
            res is Err ==> res->Err_0 == ValueError::TypeMismatch,
            res is Ok ==> res->Ok_0.spec_value_type() == full.spec_value_type()
                && res->Ok_0.wires() == select_wires(
                full.wires(),
                full.delta_view(),
                value.bits(),
            ),
    {
        match full.select(value) {
            Ok(expected) => Ok(EqualityCheck { expected }),
            Err(e) => Err(e),
        }
    }

    /// Returns whether `active` holds the expected label on every wire.
    ///
    /// Fails with `TypeMismatch` unless `active` has the type of the expected value.
    pub fn check(&self, active: &EncodedValue<Active>) -> (res: Result<bool, ValueError>)
        ensures
            res is Ok <==> active.spec_value_type() == self.spec_value_type(),
            res is Err ==> res->Err_0 == ValueError::TypeMismatch,
            res is Ok ==> res->Ok_0 == (active.wires() == self.wires()),
    {
        if !same_type(active.value_type(), self.expected.value_type()) {
            return Err(ValueError::TypeMismatch);
        }
        Ok(self.expected.same_labels(active))
    }
}

/// Returns whether two types are the same.
fn same_type(a: ValueType, b: ValueType) -> (same: bool)
    ensures
        same == (a == b),
{
    a == b
}

} // verus!
