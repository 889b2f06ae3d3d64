//! Verified core of the Maodie compiler front end.
pub mod source;
pub mod text;
pub mod diagnostic;
pub mod lexer;
pub mod unicode;
pub mod highlight;
pub mod lex_laws;
pub mod incremental;
pub mod ast;
pub mod parser;
pub mod hir;
pub mod resolver;
pub mod corelib;
pub mod log_format;
pub mod typeck;
pub mod mir;
pub mod wasm;
pub mod pipeline;
pub mod wasm_api;

use vstd::prelude::*;

verus! {

/// Stable metadata for the compiler facade crate.
#[derive(Clone, Copy, Debug, PartialEq, Eq)]
pub struct CompilerFacade {
    crate_name: &'static str,
    version: &'static str,
}

impl CompilerFacade {
    /// The package name the facade reports.
    pub closed spec fn crate_name_view(&self) -> Seq<char> {
        self.crate_name@
    }

    /// The package version the facade reports.
    pub closed spec fn version_view(&self) -> Seq<char> {
        self.version@
    }

    /// Creates a facade describing the current compiler crate.
    pub fn new() -> (r: Self)
        ensures
            r.crate_name_view() == "maodie_compiler"@,
            r.version_view() == "0.1.0"@,
    {
        CompilerFacade { crate_name: "maodie_compiler", version: "0.1.0" }
    }

    /// The name of the package that owns the compiler facade.
    pub fn crate_name(self) -> (r: &'static str)
        ensures
            r@ == self.crate_name_view(),
    {
        self.crate_name
    }

    /// The package version of the facade crate.
    pub fn version(self) -> (r: &'static str)
        ensures
            r@ == self.version_view(),
    {
        self.version
    }
}

impl Default for CompilerFacade {
    fn default() -> (r: Self)
        ensures
            r.crate_name_view() == "maodie_compiler"@,
            r.version_view() == "0.1.0"@,
    {
        Self::new()
    }
}

} // verus!
