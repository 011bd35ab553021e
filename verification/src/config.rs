//! The slice of configuration the verified core consumes: the hostname
//! allow-list.  Loading and the rest of the configuration live with the
//! surrounding program.

use vstd::prelude::*;

verus! {

/// Allow-list rules: hostname patterns with `*` wildcards.  An empty
/// list allows every hostname.
pub struct RulesConfig {
    pub allow: Vec<Vec<u8>>,
}

impl RulesConfig {
    /// The mathematical image: one byte sequence per pattern.
    pub open spec fn view_patterns(&self) -> Seq<Seq<u8>> {
        Seq::new(self.allow@.len(), |i: int| self.allow@[i]@)
    }
}

impl Default for RulesConfig {
    /// The default rule set is empty, which allows all hostnames.
    fn default() -> (r: RulesConfig)
        ensures
            r.allow@.len() == 0,
    {
        RulesConfig { allow: Vec::new() }
    }
}

} // verus!
