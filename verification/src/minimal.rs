//! The smallest application shape the core serves: an initializer that
//! produces the (here empty) shared and local state, and one hardware-bound
//! handler on the non-maskable vector whose body is opaque user code.

use vstd::prelude::*;

verus! {

/// State shared between tasks; the minimal application shares nothing.
pub struct Shared {}

/// State local to one task; the minimal application keeps none.
pub struct Local {}

/// Runs once at startup, before any task, and hands the system its shared
/// and local state.
pub fn init() -> (r: (Shared, Local))
    ensures
        r == ((Shared {  }, Local {  })),
{
    (Shared {  }, Local {  })
}

/// The handler bound to the non-maskable interrupt vector.  Its body is the
/// user's; the minimal application does nothing in it.
pub fn nmi() {
}

} // verus!
