//! Domain newtypes of the engine.

use vstd::prelude::*;
use crate::text::{decimal, signed_decimal, push_decimal, push_signed_decimal};

verus! {

/// A resolved asset identifier, assigned by the asset registry.
#[derive(Debug, Clone, Copy, PartialEq, Eq, Hash, PartialOrd, Ord)]
pub struct AssetId(pub u32);

impl AssetId {
    /// Returns the underlying `u32` value.
    pub fn as_u32(self) -> (r: u32)
        ensures
            r == self.0,
    {
        self.0
    }

    /// The text `Asset(<id>)` that names the asset in reports.
    pub open spec fn display(self) -> Seq<char> {
        seq!['A', 's', 's', 'e', 't', '('] + decimal(self.0 as nat) + seq![')']
    }

    /// Renders the identifier as `Asset(<id>)`.
    pub fn to_string(self) -> (s: String)
        ensures
            s@ == self.display(),
    {
        proof { reveal_strlit("Asset("); reveal_strlit(")"); }
        let mut s = String::from_str("Asset(");
        push_decimal(&mut s, self.0 as u64);
        s.append(")");
        s
    }
}

/// A UTC timestamp in nanoseconds since the Unix epoch.
#[derive(Debug, Clone, Copy, PartialEq, Eq, Hash, PartialOrd, Ord)]
pub struct TimestampNs(pub i64);

impl TimestampNs {
    /// Returns the underlying `i64` nanosecond epoch value.
    pub fn as_nanos(self) -> (r: i64)
        ensures
            r == self.0,
    {
        self.0
    }

    /// The text `<nanoseconds>ns`.
    pub open spec fn display(self) -> Seq<char> {
        signed_decimal(self.0 as int) + seq!['n', 's']
    }

    /// Renders the timestamp as `<nanoseconds>ns`.
    pub fn to_string(self) -> (s: String)
        ensures
            s@ == self.display(),
    {
        proof { reveal_strlit("ns"); }
        let mut s = String::new();
        push_signed_decimal(&mut s, self.0);
        s.append("ns");
        s
    }
}

} // verus!
