//! The security posture shown to the operator. The rules are fixed: the
//! monitor never reads filesystem contents or raw user data.
use vstd::prelude::*;

verus! {

#[derive(Debug, Clone, Copy, PartialEq, Eq, Structural)]
pub struct SecurityPosture {
    pub outbound_notifications: bool,
    pub legacy_external_collectors: bool,
}

/// The disclosure line of a posture: content access is always denied.
pub open spec fn disclosure_text(p: SecurityPosture) -> Seq<char> {
    "metadata only · content access DENIED · "@ + (if p.outbound_notifications {
        "Discord ON"@
    } else {
        "network OFF"@
    }) + " · "@ + (if p.legacy_external_collectors {
        "legacy tools ON"@
    } else {
        "native collectors"@
    })
}

impl SecurityPosture {
    /// The posture of a run; the external collectors are in use.
    pub fn new(outbound_notifications: bool) -> (p: SecurityPosture)
        ensures
            p.outbound_notifications == outbound_notifications,
            p.legacy_external_collectors,
    {
        SecurityPosture { outbound_notifications, legacy_external_collectors: true }
    }

    pub fn disclosure(&self) -> (t: String)
        ensures
            t@ == disclosure_text(*self),
    {
        let network = if self.outbound_notifications {
            "Discord ON"
        } else {
            "network OFF"
        };
        let collectors = if self.legacy_external_collectors {
            "legacy tools ON"
        } else {
            "native collectors"
        };
        String::from_str("metadata only · content access DENIED · ").concat(network).concat(
            " · ",
        ).concat(collectors)
    }
}

} // verus!
