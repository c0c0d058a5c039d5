//! Settings for one run of the code generator.
use vstd::prelude::*;

use crate::text::{chars_of, string_of};

verus! {

/// How code generation is to be done; built once per run.
#[derive(Debug, Clone)]
pub struct TranspileConfig {
    /// Target board id, one of the catalog's ids.
    pub board: String,
    /// C++ standard: "c++11", "c++14" or "c++17".
    pub cpp_std: String,
    /// Go `string` becomes Arduino `String` (true) or `const char*` (false).
    pub arduino_string: bool,
    /// Replace goroutines, channels, `select` and `defer` with a comment instead of failing.
    pub annotate_unsupported: bool,
    /// Emit `#line` markers that map generated code back to the source.
    pub emit_source_map: bool,
    /// Emit calls to unknown members of the intrinsic package unchanged instead of failing.
    pub passthrough_unknown: bool,
}

fn owned(s: &str) -> (r: String)
    ensures
        r@ == s@,
{
    let v = chars_of(s);
    string_of(&v)
}

impl Default for TranspileConfig {
    /// The Uno board, C++11, Arduino strings, annotation and passthrough on, no source map.
    fn default() -> (r: TranspileConfig)
        ensures
            r.board@ == "uno"@,
            r.cpp_std@ == "c++11"@,
            r.arduino_string,
            r.annotate_unsupported,
            !r.emit_source_map,
            r.passthrough_unknown,
    {
        TranspileConfig {
            board: owned("uno"),
            cpp_std: owned("c++11"),
            arduino_string: true,
            annotate_unsupported: true,
            emit_source_map: false,
            passthrough_unknown: true,
        }
    }
}

} // verus!
