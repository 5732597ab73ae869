//! The settings of a compilation.
use vstd::prelude::*;

verus! {

/// The settings of a compilation: the input, where modules are searched, and whether the
/// output is JSON or carries debugging information. Paths are held as text.
#[derive(Debug)]
pub struct CompilerCtx {
    pub input_path: String,
    pub search_paths: Vec<String>,
    pub output_json: bool,
    pub debug: bool,
}

impl CompilerCtx {
    /// The settings asked for, unless both JSON output and debugging are asked for, which
    /// cannot go together (then nothing).
    pub fn new(input_path: String, search_paths: Vec<String>, output_json: bool, debug: bool) -> (res:
        Option<Self>)
        ensures
            (output_json && debug) <==> res is None,
            res matches Some(c) ==> c.input_path == input_path && c.search_paths == search_paths
                && c.output_json == output_json && c.debug == debug,
    {
        if output_json && debug {
            return None;
        }
        Some(Self { input_path, search_paths, output_json, debug })
    }
}

} // verus!
