//! The choice of a GPU backend when a renderer is made.

use crate::text::same_text;
use vstd::prelude::*;

verus! {

/// The oldest system that has the Metal 4 interfaces. On an older one they cannot even be called.
pub const MIN_OS_MAJOR: isize = 26;

pub const MIN_OS_MINOR: isize = 0;

pub const MIN_OS_PATCH: isize = 0;

/// Whether a machine can run the Metal 4 renderer: its system is new enough, and one of its GPUs
/// is of the Metal 4 family. Neither alone is sufficient.
///
/// The GPUs need not be asked for where the system is too old.
pub fn metal4_available(os_supports_metal4: bool, gpus: &Vec<bool>) -> (r: bool)
    ensures
        r == (os_supports_metal4 && gpus@.contains(true)),
{
    if !os_supports_metal4 {
        return false;
    }
    let mut i: usize = 0;
    while i < gpus.len()
        invariant
            i <= gpus@.len(),
            os_supports_metal4,
            forall|j: int| 0 <= j < i ==> !gpus@[j],
        decreases gpus@.len() - i,
    {
        if gpus[i] {
            assert(gpus@[i as int] == true);
            return true;
        }
        i = i + 1;
    }
    false
}

#[derive(Clone, Copy, Debug, PartialEq, Eq, Structural)]
pub enum Backend {
    Metal3,
    Metal4,
}

/// Chooses the backend. Metal 4 has to be asked for by name, and is chosen only where it is
/// available; everything else is Metal 3.
pub fn choose_backend(metal4_available: bool, requested: Option<&str>) -> (r: Backend)
    ensures
        r is Metal4 == (metal4_available && requested is Some && requested->0@ == "metal4"@),
{
    if !metal4_available {
        return Backend::Metal3;
    }
    match requested {
        Some(name) => if same_text(name, "metal4") {
            Backend::Metal4
        } else {
            Backend::Metal3
        },
        None => Backend::Metal3,
    }
}

impl Backend {
    /// Only the Metal 3 renderer can render what its window shows to an image.
    pub fn renders_to_image(self) -> (r: bool)
        ensures
            r == (self is Metal3),
    {
        match self {
            Backend::Metal3 => true,
            Backend::Metal4 => false,
        }
    }
}

} // verus!
