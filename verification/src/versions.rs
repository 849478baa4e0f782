//! The versions of the first-party crates the generated project depends on.

use vstd::prelude::*;

verus! {

/// The version of the core abstraction crates targeted by generated code.
pub open spec fn spec_core_version() -> Seq<char> {
    "0.11.3"@
}

/// The version of the processing-block support crate.
pub open spec fn spec_proc_block_version() -> Seq<char> {
    "0.11.3"@
}

/// Relies on `hotg_rune_core::VERSION`: the crate's own version string,
/// `"0.11.3"` in the release built against.
#[verifier::external_body]
pub(crate) fn core_version() -> (r: &'static str)
    ensures
        r@ == spec_core_version(),
{
    hotg_rune_core::VERSION
}

/// Relies on `hotg_rune_proc_blocks::VERSION`: the crate's own version
/// string, `"0.11.3"` in the release built against.
#[verifier::external_body]
pub(crate) fn proc_block_version() -> (r: &'static str)
    ensures
        r@ == spec_proc_block_version(),
{
    hotg_rune_proc_blocks::VERSION
}

} // verus!
