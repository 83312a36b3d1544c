//! Generation of human-readable display names for fresh connections.

use vstd::prelude::*;

verus! {

/// Relies on names::Generator::next: the default generator draws an
/// adjective and a noun from its built-in, non-empty word lists and joins
/// them, so it always yields a name.  Which name comes back is random, so
/// nothing more is promised; callers check freshness themselves.
#[verifier::external_body]
pub(crate) fn generate_name() -> (r: Option<String>)
    ensures
        r is Some,
{
    names::Generator::default().next()
}

} // verus!
