use vstd::prelude::*;

verus! {

/// One decoded input control: a qualified `(usage page, usage)` pair and
/// the value read from the report buffer.
#[derive(Debug, Clone, Copy, PartialEq, Eq)]
pub struct Input {
    pub usage: (u16, u16),
    pub value: InputValue,
}

/// The value of a single input control.
#[derive(Debug, Clone, Copy, PartialEq, Eq, Structural)]
pub enum InputValue {
    Bool(bool),
    UInt(u32),
    Int(i32),
    /// The control is in its null state: its null-state flag is set and the
    /// raw value lies outside the logical bounds.
    Null,
}

} // verus!
