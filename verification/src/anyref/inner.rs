//! Values whose type is known only at run time.
use vstd::prelude::*;

verus! {

/// A value with the identity and the name of its type. `I` tells types apart,
/// and `V` can hold a value of any of them.
pub struct Erased<I, V> {
    pub type_id: I,
    pub type_label: &'static str,
    pub data: V,
}

} // verus!
