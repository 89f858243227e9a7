use vstd::prelude::*;

verus! {

/// Maximum number of cells in the dictionary (data layer).
pub const MAX_DICTIONARY_CELLS: usize = 1_048_576;

/// Maximum depth of the data stack.
pub const MAX_DATA_STACK_DEPTH: usize = 65_536;

/// Maximum depth of the return stack.
pub const MAX_RETURN_STACK_DEPTH: usize = 4_096;

/// Maximum number of elements a single array may hold.
pub const MAX_ARRAY_ELEMENTS: usize = 16_777_216;

/// Base index offset for VAR-declared local variables in variadic words.
pub const VARIADIC_LOCAL_BASE: usize = 0x4000_0000;

/// Upper bound on the number of instructions a single run of the inner
/// interpreter executes before it gives up.
pub const MAX_RUN_STEPS: u64 = 0xFFFF_FFFF_FFFF_FFFF;

} // verus!
