//! The action catalog's naming rule.
//!
//! Actions are a fixed, ordered catalog of named remediation operations.
//! The catalog itself, with its interactive dispatch, lives outside this
//! crate; the naming rule it relies on is here: an action that defines no
//! custom label reports this fixed fallback name.

use vstd::prelude::*;

verus! {

/// The fixed fallback label of an action that defines no custom one.
pub open spec fn default_action_name_spec() -> Seq<char> {
    "Invalid Action"@
}

/// The name an action without a custom label reports.
pub fn default_action_name() -> (r: String)
    ensures
        r@ == default_action_name_spec(),
{
    String::from_str("Invalid Action")
}

} // verus!
