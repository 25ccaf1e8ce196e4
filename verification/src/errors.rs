//! The error taxonomy of the synthesis core.
//!
//! Every failure a synthesis step can report is one structured kind here;
//! callers match on the variant rather than on message text.

use vstd::prelude::*;

verus! {

/// One error kind per way a synthesis invocation can fail.
///
/// - `StatusQueryFailed`: the status query process could not run or exited
///   non-zero; carries its standard-error text.
/// - `StatusParseFailed`: the status report was not valid structured data
///   matching the expected schema.
/// - `BadAddressEncoding`: a byte-array address was neither 4 nor 16 octets.
/// - `NoAddressForInterface`: primary-address selection found no usable
///   address; carries the interface name.
/// - `ConfigParseFailed`: the static configuration file was non-empty but
///   not a valid configuration document.
/// - `ResolvConfWriteFailed`: writing the resolver file failed; carries the
///   destination path.
/// - `SysctlApplyFailed`: the sysctl-apply tool exited non-zero; carries its
///   standard-error text.
/// - `InvalidInterfaceName`: interface-name validation rejected the input;
///   carries the input and the reason.
#[derive(Debug, Clone)]
pub enum NetdogError {
    StatusQueryFailed { stderr: String },
    StatusParseFailed,
    BadAddressEncoding { bytes: Vec<u8>, reason: String },
    NoAddressForInterface { interface: String },
    ConfigParseFailed,
    ResolvConfWriteFailed { path: String },
    SysctlApplyFailed { stderr: String },
    InvalidInterfaceName { input: String, msg: String },
}

} // verus!
