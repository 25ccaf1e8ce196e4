//! Validated network interface names.
//!
//! A valid interface name is 1 to 15 characters long and contains no `.`,
//! no `/`, no whitespace and no Unicode line-terminator code point.
//! Construction through [`InterfaceName::try_from`] is the only validation
//! point: a value of the type always holds a valid name, unchanged from the
//! string it was built from.

use vstd::prelude::*;

use crate::errors::NetdogError;

verus! {

/// The Unicode line-terminator code points: newline, carriage return,
/// vertical tab, form feed, next line, line separator, paragraph separator.
pub open spec fn spec_line_terminator(c: char) -> bool {
    c == '\n' || c == '\r' || c == '\u{000B}' || c == '\u{000C}' || c == '\u{0085}'
        || c == '\u{2028}' || c == '\u{2029}'
}

/// Decides [`spec_line_terminator`].
#[verifier::when_used_as_spec(spec_line_terminator)]
pub fn is_line_terminator(c: char) -> (b: bool)
    ensures
        b == spec_line_terminator(c),
{
    c == '\n' || c == '\r' || c == '\u{000B}' || c == '\u{000C}' || c == '\u{0085}'
        || c == '\u{2028}' || c == '\u{2029}'
}

/// The Unicode white-space code points.
pub open spec fn spec_whitespace(c: char) -> bool {
    c == '\u{0009}' || c == '\u{000A}' || c == '\u{000B}' || c == '\u{000C}' || c == '\u{000D}'
        || c == ' ' || c == '\u{0085}' || c == '\u{00A0}' || c == '\u{1680}'
        || (0x2000 <= c as u32 && c as u32 <= 0x200A)
        || c == '\u{2028}' || c == '\u{2029}' || c == '\u{202F}' || c == '\u{205F}'
        || c == '\u{3000}'
}

/// Decides [`spec_whitespace`].
#[verifier::when_used_as_spec(spec_whitespace)]
pub fn is_whitespace(c: char) -> (b: bool)
    ensures
        b == spec_whitespace(c),
{
    c == '\u{0009}' || c == '\u{000A}' || c == '\u{000B}' || c == '\u{000C}' || c == '\u{000D}'
        || c == ' ' || c == '\u{0085}' || c == '\u{00A0}' || c == '\u{1680}'
        || (0x2000 <= c as u32 && c as u32 <= 0x200A)
        || c == '\u{2028}' || c == '\u{2029}' || c == '\u{202F}' || c == '\u{205F}'
        || c == '\u{3000}'
}

/// A character that may not occur anywhere in an interface name.
pub open spec fn spec_forbidden_char(c: char) -> bool {
    spec_line_terminator(c) || spec_whitespace(c) || c == '.' || c == '/'
}

/// Decides [`spec_forbidden_char`].
#[verifier::when_used_as_spec(spec_forbidden_char)]
pub fn is_forbidden_char(c: char) -> (b: bool)
    ensures
        b == spec_forbidden_char(c),
{
    is_line_terminator(c) || is_whitespace(c) || c == '.' || c == '/'
}

/// A valid interface name: 1 to 15 characters, none of them forbidden.
pub open spec fn valid_interface_name(s: Seq<char>) -> bool {
    1 <= s.len() && s.len() <= 15 && (forall|i: int|
        0 <= i < s.len() ==> !spec_forbidden_char(s[i]))
}

/// A network interface name that passed validation.
#[derive(Debug, Clone)]
pub struct InterfaceName {
    inner: String,
}

impl View for InterfaceName {
    type V = Seq<char>;

    closed spec fn view(&self) -> Seq<char> {
        self.inner@
    }
}

impl InterfaceName {
    /// Every constructed value satisfies this.
    pub open spec fn wf(&self) -> bool {
        valid_interface_name(self@)
    }

    /// Validates `input` as an interface name.
    ///
    /// Succeeds exactly on valid names, and the constructed value carries
    /// the input string unchanged; every invalid input is rejected with
    /// `InvalidInterfaceName` holding that input.
    pub fn try_from(input: &str) -> (r: Result<InterfaceName, NetdogError>)
        ensures
            r is Ok <==> valid_interface_name(input@),
            r is Ok ==> r->Ok_0@ == input@ && r->Ok_0.wf(),
            r is Err ==> (r->Err_0 matches NetdogError::InvalidInterfaceName {
                input: bad,
                ..
            } && bad@ == input@),
    {
        if scan_line_terminator(input) {
            return Err(NetdogError::InvalidInterfaceName {
                input: input.to_owned(),
                msg: String::from_str("contains line terminators"),
            });
        }
        let n = input.unicode_len();
        if n == 0 || n > 15 {
            return Err(NetdogError::InvalidInterfaceName {
                input: input.to_owned(),
                msg: String::from_str("invalid length, must be 1 to 15 characters long"),
            });
        }
        if scan_forbidden(input) {
            return Err(NetdogError::InvalidInterfaceName {
                input: input.to_owned(),
                msg: String::from_str("contains invalid characters"),
            });
        }
        Ok(InterfaceName { inner: input.to_owned() })
    }

    /// The validated name, exactly as it was given to `try_from`.
    pub fn name(&self) -> (r: &str)
        ensures
            r@ == self@,
    {
        self.inner.as_str()
    }

    /// The validated name as an owned string.
    pub fn to_text(&self) -> (r: String)
        ensures
            r@ == self@,
    {
        self.inner.clone()
    }
}

/// Whether any character of `s` is a line terminator.
fn scan_line_terminator(s: &str) -> (b: bool)
    ensures
        b == exists|i: int| 0 <= i < s@.len() && spec_line_terminator(s@[i]),
{
    let n = s.unicode_len();
    let mut k: usize = 0;
    while k < n
        invariant
            n == s@.len(),
            0 <= k <= n,
            forall|j: int| 0 <= j < k ==> !spec_line_terminator(s@[j]),
        decreases n - k,
    {
        let c = s.get_char(k);
        if is_line_terminator(c) {
            assert(spec_line_terminator(s@[k as int]));
            return true;
        }
        k += 1;
    }
    false
}

/// Whether any character of `s` is forbidden in an interface name.
fn scan_forbidden(s: &str) -> (b: bool)
    ensures
        b == exists|i: int| 0 <= i < s@.len() && spec_forbidden_char(s@[i]),
{
    let n = s.unicode_len();
    let mut k: usize = 0;
    while k < n
        invariant
            n == s@.len(),
            0 <= k <= n,
            forall|j: int| 0 <= j < k ==> !spec_forbidden_char(s@[j]),
        decreases n - k,
    {
        let c = s.get_char(k);
        if is_forbidden_char(c) {
            assert(spec_forbidden_char(s@[k as int]));
            return true;
        }
        k += 1;
    }
    false
}

} // verus!
