use vstd::prelude::*;

verus! {

/// Carbide type: a marker for the types the language will know, pairing a
/// native representation with the keyword that names it. Only a placeholder
/// capability; no logic consumes it yet.
pub trait TType {
    type Native;

    const KEYWORD: &'static str;
}

pub struct Bool {}

impl TType for Bool {
    type Native = bool;

    const KEYWORD: &'static str = "bool";
}

} // verus!
