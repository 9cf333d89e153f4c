//! The rendering vocabulary: which graphics interface a caller asks for and
//! the frame-lifecycle contract every backend follows.  The backends that
//! talk to a real graphics interface live with the unverified shell; the two
//! placeholder backends here accept the lifecycle and draw nothing yet.

use vstd::prelude::*;
use vstd::string::StringExecFns;

verus! {

/// The graphics interfaces a caller can ask for.
#[derive(Clone, Copy, Debug, PartialEq, Eq, Structural)]
pub enum RenderApi {
    Dx12,
    Vulkan,
    Metal,
}

impl RenderApi {
    /// The human-readable name of the interface.
    pub fn display_name(&self) -> (r: String)
        ensures
            self is Dx12 ==> r@ == "DirectX 12"@,
            self is Vulkan ==> r@ == "Vulkan"@,
            self is Metal ==> r@ == "Metal"@,
    {
        match self {
            RenderApi::Dx12 => String::from_str("DirectX 12"),
            RenderApi::Vulkan => String::from_str("Vulkan"),
            RenderApi::Metal => String::from_str("Metal"),
        }
    }
}

/// The frame lifecycle every rendering backend follows.
pub trait Renderer {
    /// Prepare to take rendering commands.
    fn begin_frame(&mut self);

    /// Send rendering commands to the device and present the frame.
    fn end_frame(&mut self);

    /// Shut down rendering.
    fn shutdown(&mut self);
}

/// The direct-rendering backend; a placeholder that accepts every call and
/// draws nothing yet.
#[derive(Clone, Copy, Debug)]
pub struct Dx12Renderer {}

impl Dx12Renderer {
    pub fn new() -> (r: Option<Dx12Renderer>)
        ensures
            r is Some,
    {
        Some(Dx12Renderer {  })
    }
}

impl Renderer for Dx12Renderer {
    fn begin_frame(&mut self) {
    }

    fn end_frame(&mut self) {
    }

    fn shutdown(&mut self) {
    }
}

/// The Metal backend; a placeholder that accepts every call and draws
/// nothing yet.
#[derive(Clone, Copy, Debug)]
pub struct MtlRenderer {}

impl MtlRenderer {
    pub fn new() -> (r: Option<MtlRenderer>)
        ensures
            r is Some,
    {
        Some(MtlRenderer {  })
    }
}

impl Renderer for MtlRenderer {
    fn begin_frame(&mut self) {
    }

    fn end_frame(&mut self) {
    }

    fn shutdown(&mut self) {
    }
}

} // verus!
