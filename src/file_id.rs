use vstd::prelude::*;

verus! {

/// Identifies one source file; compared and ordered by its number.
#[derive(Debug, Clone, Copy, PartialEq, Eq, Structural, PartialOrd, Ord, Hash)]
pub struct FileId(pub u32);

} // verus!
