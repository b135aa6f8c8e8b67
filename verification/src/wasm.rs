//! The state behind the scripting-runtime interface: an engine that must be
//! initialised before it processes input.

use vstd::prelude::*;
use vstd::string::StringExecFns;

verus! {

/// The engine as the scripting runtime holds it.
pub struct AGIWasm {
    version: String,
    is_initialized: bool,
}

impl AGIWasm {
    /// The version that the engine reports.
    pub closed spec fn version_spec(&self) -> Seq<char> {
        self.version@
    }

    /// The engine has been initialised.
    pub closed spec fn ready_spec(&self) -> bool {
        self.is_initialized
    }

    /// An engine of version 1.0.0 that is not initialised yet.
    pub fn new() -> (r: Self)
        ensures
            r.version_spec() == "1.0.0"@,
            !r.ready_spec(),
    {
        AGIWasm { version: "1.0.0".to_owned(), is_initialized: false }
    }

    /// Initialises the engine. This always succeeds.
    pub fn initialize(&mut self) -> (r: Result<(), String>)
        ensures
            r.is_ok(),
            final(self).ready_spec(),
            final(self).version_spec() == old(self).version_spec(),
    {
        self.is_initialized = true;
        Ok(())
    }

    /// The text that processing `input` gives: the input behind a fixed
    /// prefix. An engine that is not initialised refuses.
    pub fn process_input(&self, input: &str) -> (r: Result<String, String>)
        ensures
            match r {
                Ok(output) => self.ready_spec() && output@ == "WASM Processed: "@ + input@,
                Err(reason) => !self.ready_spec() && reason@ == "AGI not initialized"@,
            },
    {
        if !self.is_initialized {
            return Err("AGI not initialized".to_owned());
        }
        Ok("WASM Processed: ".to_owned().concat(input))
    }

    /// The version of the engine.
    pub fn get_version(&self) -> (r: String)
        ensures
            r@ == self.version_spec(),
    {
        self.version.clone()
    }

    /// Whether the engine has been initialised.
    pub fn is_ready(&self) -> (r: bool)
        ensures
            r == self.ready_spec(),
    {
        self.is_initialized
    }
}

} // verus!
