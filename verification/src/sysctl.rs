//! Interface-scoped kernel tunables and the plan for applying them
//! idempotently.
//!
//! The configuration text holds two tunables for the primary interface —
//! accept router advertisements, and loose reverse-path filtering — each
//! prefixed with `-` so that a failure to set that one line is logged by
//! the apply tool but does not fail the whole batch.  Application is
//! marker-based: the file is written only while the destination is absent,
//! and the apply tool runs only while the marker is absent; the caller
//! creates the marker after a successful apply.

use vstd::prelude::*;

verus! {

/// The tunable lines for one interface.
pub open spec fn spec_sysctl_conf(name: Seq<char>) -> Seq<char> {
    "-net.ipv6.conf."@ + name + ".accept_ra = 2\n"@ + "-net.ipv4.conf."@ + name
        + ".rp_filter = 2\n"@
}

/// The string `"-net.ipv6.conf."`.
fn ipv6_prefix() -> (r: &'static str)
    ensures
        r@ == "-net.ipv6.conf."@,
{
    "-net.ipv6.conf."
}

/// The string `".accept_ra = 2\n"`.
fn accept_ra_suffix() -> (r: &'static str)
    ensures
        r@ == ".accept_ra = 2\n"@,
{
    ".accept_ra = 2\n"
}

/// The string `"-net.ipv4.conf."`.
fn ipv4_prefix() -> (r: &'static str)
    ensures
        r@ == "-net.ipv4.conf."@,
{
    "-net.ipv4.conf."
}

/// The string `".rp_filter = 2\n"`.
fn rp_filter_suffix() -> (r: &'static str)
    ensures
        r@ == ".rp_filter = 2\n"@,
{
    ".rp_filter = 2\n"
}

/// Renders the sysctl configuration for one interface: exactly the two
/// prefixed tunable lines, each scoped to the given interface name.
pub fn sysctl_conf_text(interface: &str) -> (r: String)
    ensures
        r@ == spec_sysctl_conf(interface@),
{
    let mut r = ipv6_prefix().to_owned();
    r.append(interface);
    r.append(accept_ra_suffix());
    r.append(ipv4_prefix());
    r.append(interface);
    r.append(rp_filter_suffix());
    r
}

/// What one responder invocation must do, given what is already on disk.
#[derive(Debug, Clone, Copy, PartialEq, Eq, Structural)]
pub struct SysctlPlan {
    /// Write the configuration file.
    pub write_config: bool,
    /// Run the apply tool against the configuration file, and create the
    /// marker after it succeeds.
    pub run_apply: bool,
}

/// The plan as a function of what exists.
pub open spec fn spec_sysctl_plan(config_exists: bool, marker_exists: bool) -> SysctlPlan {
    SysctlPlan { write_config: !config_exists, run_apply: !marker_exists }
}

/// Decides what to do: the configuration is written only while the
/// destination file is absent, and the apply tool runs only while the
/// marker is absent.
pub fn sysctl_plan(config_exists: bool, marker_exists: bool) -> (r: SysctlPlan)
    ensures
        r == spec_sysctl_plan(config_exists, marker_exists),
        r.write_config == !config_exists,
        r.run_apply == !marker_exists,
{
    SysctlPlan { write_config: !config_exists, run_apply: !marker_exists }
}

/// Law: marker-based idempotence.  A first invocation, finding neither the
/// configuration nor the marker, writes the file and runs the apply tool;
/// an invocation that finds both in place does neither, so repeating the
/// responder after a completed run performs no further writes and no
/// further tool invocation.
pub proof fn lemma_sysctl_idempotent()
    ensures
        spec_sysctl_plan(false, false) == (SysctlPlan { write_config: true, run_apply: true }),
        spec_sysctl_plan(true, true) == (SysctlPlan { write_config: false, run_apply: false }),
{
}

} // verus!
