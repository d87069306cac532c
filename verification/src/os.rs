//! The operating-system flavors the renderer distinguishes.

use vstd::prelude::*;

verus! {

/// The platform a tree is rendered for; it decides how stored directory
/// names are shortened for display.
#[derive(Debug, Clone, Copy, PartialEq, Eq, Structural)]
pub enum OS {
    Windows,
    Mac,
}

impl OS {
    /// The platform's human-readable name.
    pub fn get_name(&self) -> (r: &'static str)
        ensures
            *self is Windows ==> r@ == "Windows"@,
            *self is Mac ==> r@ == "Mac"@,
    {
        match self {
            OS::Windows => "Windows",
            OS::Mac => "Mac",
        }
    }
}

} // verus!
