//! Validated ECS agent settings values.
//!
//! Each type wraps a string (or names an enumerated choice) that passed
//! its validation; construction is the only validation point, and a
//! constructed value carries the accepted input unchanged.

use vstd::prelude::*;

use crate::ip::{dec_prefix_len, dec_prefix_len_exec};
use crate::strutil::str_eq;

verus! {

/// One error kind per way a settings value can be rejected.
///
/// - `BigPattern`: the input did not match the named value's pattern.
/// - `InvalidPlainValue`: the input named none of the field's choices.
/// - `InvalidECSDurationValue`: the input was not a duration.
#[derive(Debug, Clone)]
pub enum EcsError {
    BigPattern { thing: String, input: String },
    InvalidPlainValue { field: String },
    InvalidECSDurationValue { input: String },
}

/// An ASCII letter or digit.
pub open spec fn is_ascii_alnum(c: char) -> bool {
    ('a' as u32 <= c as u32 && c as u32 <= 'z' as u32) || ('A' as u32 <= c as u32 && c as u32
        <= 'Z' as u32) || ('0' as u32 <= c as u32 && c as u32 <= '9' as u32)
}

/// Decides [`is_ascii_alnum`].
#[verifier::when_used_as_spec(is_ascii_alnum)]
fn ascii_alnum_exec(c: char) -> (b: bool)
    ensures
        b == is_ascii_alnum(c),
{
    ('a' as u32 <= c as u32 && c as u32 <= 'z' as u32) || ('A' as u32 <= c as u32 && c as u32
        <= 'Z' as u32) || ('0' as u32 <= c as u32 && c as u32 <= '9' as u32)
}

/// A character an attribute key may hold: a letter, a digit, a period,
/// an underscore, a forward slash or a hyphen.
pub open spec fn is_key_char(c: char) -> bool {
    is_ascii_alnum(c) || c == '.' || c == '_' || c == '/' || c == '-'
}

/// Decides [`is_key_char`].
#[verifier::when_used_as_spec(is_key_char)]
fn key_char_exec(c: char) -> (b: bool)
    ensures
        b == is_key_char(c),
{
    ascii_alnum_exec(c) || c == '.' || c == '_' || c == '/' || c == '-'
}

/// A non-space character an attribute value may hold.
pub open spec fn is_value_char(c: char) -> bool {
    is_ascii_alnum(c) || c == '.' || c == '@' || c == ':' || c == '_' || c == '/' || c == '\\' || c
        == '-'
}

/// Decides [`is_value_char`].
#[verifier::when_used_as_spec(is_value_char)]
fn value_char_exec(c: char) -> (b: bool)
    ensures
        b == is_value_char(c),
{
    ascii_alnum_exec(c) || c == '.' || c == '@' || c == ':' || c == '_' || c == '/' || c == '\\'
        || c == '-'
}

/// A valid attribute key: 1 to 128 characters of the key class.
pub open spec fn valid_attr_key(s: Seq<char>) -> bool {
    1 <= s.len() && s.len() <= 128 && (forall|i: int| 0 <= i < s.len() ==> is_key_char(s[i]))
}

/// A valid attribute value: 1 to 128 characters of the value class or
/// spaces, with no leading and no trailing space.
pub open spec fn valid_attr_value(s: Seq<char>) -> bool {
    1 <= s.len() && s.len() <= 128 && (forall|i: int|
        0 <= i < s.len() ==> (is_value_char(s[i]) || s[i] == ' ')) && s[0] != ' ' && s[s.len() - 1]
        != ' '
}

/// Whether every character satisfies the key class.
fn scan_key_chars(s: &str) -> (b: bool)
    ensures
        b == forall|i: int| 0 <= i < s@.len() ==> is_key_char(s@[i]),
{
    let n = s.unicode_len();
    let mut k: usize = 0;
    while k < n
        invariant
            n == s@.len(),
            0 <= k <= n,
            forall|j: int| 0 <= j < k ==> is_key_char(s@[j]),
        decreases n - k,
    {
        if !key_char_exec(s.get_char(k)) {
            return false;
        }
        k += 1;
    }
    true
}

/// Whether every character satisfies the value class or is a space.
fn scan_value_chars(s: &str) -> (b: bool)
    ensures
        b == forall|i: int| 0 <= i < s@.len() ==> (is_value_char(s@[i]) || s@[i] == ' '),
{
    let n = s.unicode_len();
    let mut k: usize = 0;
    while k < n
        invariant
            n == s@.len(),
            0 <= k <= n,
            forall|j: int| 0 <= j < k ==> (is_value_char(s@[j]) || s@[j] == ' '),
        decreases n - k,
    {
        let c = s.get_char(k);
        if !value_char_exec(c) && c != ' ' {
            return false;
        }
        k += 1;
    }
    true
}

/// An ECS attribute key that passed validation.
#[derive(Debug, Clone, Eq, PartialEq, Hash)]
pub struct ECSAttributeKey {
    inner: String,
}

impl View for ECSAttributeKey {
    type V = Seq<char>;

    closed spec fn view(&self) -> Seq<char> {
        self.inner@
    }
}

impl ECSAttributeKey {
    /// Every constructed value satisfies this.
    pub open spec fn wf(&self) -> bool {
        valid_attr_key(self@)
    }

    /// Validates an attribute key: 1 to 128 characters, each a letter, a
    /// digit, `.`, `_`, `/` or `-`.  Succeeds exactly on such inputs and
    /// carries the input unchanged.
    pub fn validate(input: &str) -> (r: Result<ECSAttributeKey, EcsError>)
        ensures
            r is Ok <==> valid_attr_key(input@),
            r is Ok ==> r->Ok_0@ == input@ && r->Ok_0.wf(),
            r is Err ==> r->Err_0 is BigPattern,
    {
        let n = input.unicode_len();
        if n < 1 || n > 128 || !scan_key_chars(input) {
            return Err(EcsError::BigPattern {
                thing: String::from_str("ECS attribute key"),
                input: input.to_owned(),
            });
        }
        Ok(ECSAttributeKey { inner: input.to_owned() })
    }

    /// Validates, as [`ECSAttributeKey::validate`] does.
    pub fn try_from(input: &str) -> (r: Result<ECSAttributeKey, EcsError>)
        ensures
            r is Ok <==> valid_attr_key(input@),
            r is Ok ==> r->Ok_0@ == input@ && r->Ok_0.wf(),
            r is Err ==> r->Err_0 is BigPattern,
    {
        ECSAttributeKey::validate(input)
    }

    /// The accepted input.
    pub fn text(&self) -> (r: &str)
        ensures
            r@ == self@,
    {
        self.inner.as_str()
    }
}

/// An ECS attribute value that passed validation.
#[derive(Debug, Clone, Eq, PartialEq, Hash)]
pub struct ECSAttributeValue {
    inner: String,
}

impl View for ECSAttributeValue {
    type V = Seq<char>;

    closed spec fn view(&self) -> Seq<char> {
        self.inner@
    }
}

impl ECSAttributeValue {
    /// Every constructed value satisfies this.
    pub open spec fn wf(&self) -> bool {
        valid_attr_value(self@)
    }

    /// Validates an attribute value: 1 to 128 characters — letters,
    /// digits, `.`, `@`, `:`, `_`, `/`, `\`, `-` or spaces — with no
    /// leading and no trailing space.  Succeeds exactly on such inputs
    /// and carries the input unchanged.
    pub fn try_from(input: &str) -> (r: Result<ECSAttributeValue, EcsError>)
        ensures
            r is Ok <==> valid_attr_value(input@),
            r is Ok ==> r->Ok_0@ == input@ && r->Ok_0.wf(),
            r is Err ==> r->Err_0 is BigPattern,
    {
        let n = input.unicode_len();
        if n < 1 || n > 128 || !scan_value_chars(input) || input.get_char(0) == ' '
            || input.get_char(n - 1) == ' ' {
            return Err(EcsError::BigPattern {
                thing: String::from_str("ECS attribute value"),
                input: input.to_owned(),
            });
        }
        Ok(ECSAttributeValue { inner: input.to_owned() })
    }

    /// The accepted input.
    pub fn text(&self) -> (r: &str)
        ensures
            r@ == self@,
    {
        self.inner.as_str()
    }
}

/// The log levels the agent accepts.
pub open spec fn valid_log_level(s: Seq<char>) -> bool {
    s == "debug"@ || s == "info"@ || s == "warn"@ || s == "error"@ || s == "crit"@
}

/// An ECS agent log level that passed validation.
#[derive(Debug, Clone, Eq, PartialEq, Hash)]
pub struct ECSAgentLogLevel {
    inner: String,
}

impl View for ECSAgentLogLevel {
    type V = Seq<char>;

    closed spec fn view(&self) -> Seq<char> {
        self.inner@
    }
}

impl ECSAgentLogLevel {
    /// Every constructed value satisfies this.
    pub open spec fn wf(&self) -> bool {
        valid_log_level(self@)
    }

    /// Validates a log level: exactly `debug`, `info`, `warn`, `error` or
    /// `crit`, carried unchanged.
    pub fn try_from(input: &str) -> (r: Result<ECSAgentLogLevel, EcsError>)
        ensures
            r is Ok <==> valid_log_level(input@),
            r is Ok ==> r->Ok_0@ == input@ && r->Ok_0.wf(),
            r is Err ==> r->Err_0 is InvalidPlainValue,
    {
        if str_eq(input, "debug") || str_eq(input, "info") || str_eq(input, "warn") || str_eq(
            input,
            "error",
        ) || str_eq(input, "crit") {
            Ok(ECSAgentLogLevel { inner: input.to_owned() })
        } else {
            Err(EcsError::InvalidPlainValue { field: String::from_str("ecs.loglevel") })
        }
    }

    /// The accepted input.
    pub fn text(&self) -> (r: &str)
        ensures
            r@ == self@,
    {
        self.inner.as_str()
    }
}

/// The image pull behaviors the agent accepts.
pub open spec fn valid_pull_behavior(s: Seq<char>) -> bool {
    s == "default"@ || s == "always"@ || s == "once"@ || s == "prefer-cached"@
}

/// One of the agent's image pull behaviors.
#[derive(Debug, Clone, Eq, PartialEq, Hash)]
pub enum ECSImagePullBehavior {
    Default,
    Always,
    Once,
    PreferCached,
}

impl ECSImagePullBehavior {
    /// Validates an image pull behavior: exactly `default`, `always`,
    /// `once` or `prefer-cached`, each naming its variant.
    pub fn try_from(input: &str) -> (r: Result<ECSImagePullBehavior, EcsError>)
        ensures
            r is Ok <==> valid_pull_behavior(input@),
            input@ == "default"@ ==> r == Ok::<_, EcsError>(ECSImagePullBehavior::Default),
            input@ == "always"@ ==> r == Ok::<_, EcsError>(ECSImagePullBehavior::Always),
            input@ == "once"@ ==> r == Ok::<_, EcsError>(ECSImagePullBehavior::Once),
            input@ == "prefer-cached"@ ==> r == Ok::<_, EcsError>(
                ECSImagePullBehavior::PreferCached,
            ),
            r is Err ==> r->Err_0 is InvalidPlainValue,
    {
        proof {
            reveal_strlit("default");
            reveal_strlit("always");
            reveal_strlit("once");
            reveal_strlit("prefer-cached");
            assert("default"@.len() == 7);
            assert("always"@.len() == 6);
            assert("once"@.len() == 4);
            assert("prefer-cached"@.len() == 13);
        }
        if str_eq(input, "default") {
            Ok(ECSImagePullBehavior::Default)
        } else if str_eq(input, "always") {
            Ok(ECSImagePullBehavior::Always)
        } else if str_eq(input, "once") {
            Ok(ECSImagePullBehavior::Once)
        } else if str_eq(input, "prefer-cached") {
            Ok(ECSImagePullBehavior::PreferCached)
        } else {
            Err(EcsError::InvalidPlainValue { field: String::from_str("ecs.image_pull_behavior") })
        }
    }
}

/// An ECS agent image pull behavior that passed validation, kept as the
/// string it was given as.
#[derive(Debug, Clone, Eq, PartialEq, Hash)]
pub struct ECSAgentImagePullBehavior {
    inner: String,
}

impl View for ECSAgentImagePullBehavior {
    type V = Seq<char>;

    closed spec fn view(&self) -> Seq<char> {
        self.inner@
    }
}

impl ECSAgentImagePullBehavior {
    /// Every constructed value satisfies this.
    pub open spec fn wf(&self) -> bool {
        valid_pull_behavior(self@)
    }

    /// Validates an image pull behavior and carries the input unchanged.
    pub fn try_from(input: &str) -> (r: Result<ECSAgentImagePullBehavior, EcsError>)
        ensures
            r is Ok <==> valid_pull_behavior(input@),
            r is Ok ==> r->Ok_0@ == input@ && r->Ok_0.wf(),
            r is Err ==> r->Err_0 is InvalidPlainValue,
    {
        match ECSImagePullBehavior::try_from(input) {
            Ok(_) => Ok(ECSAgentImagePullBehavior { inner: input.to_owned() }),
            Err(e) => Err(e),
        }
    }

    /// The accepted input.
    pub fn text(&self) -> (r: &str)
        ensures
            r@ == self@,
    {
        self.inner.as_str()
    }
}

/// The duration grammar, from a least admissible unit on: the empty rest
/// is valid; otherwise one segment — digits, an optional fraction of a
/// `.` and digits, and a unit no smaller than `min_rank` — must lead a
/// valid rest admitting only strictly larger units.  Units rank in the
/// order hours, minutes, seconds, milliseconds, microseconds (with `u`
/// or the micro sign), nanoseconds, each usable at most once.
pub open spec fn spec_duration_from(s: Seq<char>, min_rank: int) -> bool
    decreases s.len(),
{
    if s.len() == 0 {
        true
    } else {
        let d1 = dec_prefix_len(s);
        if d1 < 1 || d1 > s.len() {
            false
        } else {
            let pos = if d1 < s.len() && s[d1] == '.' {
                let d2 = dec_prefix_len(s.skip(d1 + 1));
                if d2 < 1 || d1 + 1 + d2 > s.len() {
                    -1
                } else {
                    d1 + 1 + d2
                }
            } else {
                d1
            };
            if pos < 1 || pos >= s.len() {
                false
            } else {
                let c = s[pos];
                let rank = if c == 'h' {
                    0
                } else if c == 'm' && pos + 1 < s.len() && s[pos + 1] == 's' {
                    3
                } else if c == 'm' {
                    1
                } else if c == 's' {
                    2
                } else if (c == 'u' || c == '\u{00B5}') && pos + 1 < s.len() && s[pos + 1] == 's' {
                    4
                } else if c == 'n' && pos + 1 < s.len() && s[pos + 1] == 's' {
                    5
                } else {
                    -1
                };
                let ulen: int = if rank == 3 || rank == 4 || rank == 5 {
                    2
                } else {
                    1
                };
                if rank < min_rank {
                    false
                } else if pos + ulen > s.len() {
                    false
                } else {
                    spec_duration_from(s.skip(pos + ulen), rank + 1)
                }
            }
        }
    }
}

/// A valid duration: non-empty, and made of ranked unit segments.
pub open spec fn valid_duration(s: Seq<char>) -> bool {
    s.len() > 0 && spec_duration_from(s, 0)
}

/// Decides [`spec_duration_from`].
fn duration_from(s: &str, min_rank: i8) -> (b: bool)
    requires
        0 <= min_rank <= 6,
    ensures
        b == spec_duration_from(s@, min_rank as int),
    decreases s@.len(),
{
    let n = s.unicode_len();
    if n == 0 {
        return true;
    }
    let d1 = dec_prefix_len_exec(s);
    if d1 < 1 {
        return false;
    }
    let pos = if d1 < n && s.get_char(d1) == '.' {
        let frac = s.substring_char(d1 + 1, n);
        proof {
            assert(frac@ =~= s@.skip(d1 + 1 as int));
        }
        let d2 = dec_prefix_len_exec(frac);
        if d2 < 1 {
            return false;
        }
        d1 + 1 + d2
    } else {
        d1
    };
    if pos >= n {
        return false;
    }
    let c = s.get_char(pos);
    let rank: i8 = if c == 'h' {
        0
    } else if c == 'm' && pos + 1 < n && s.get_char(pos + 1) == 's' {
        3
    } else if c == 'm' {
        1
    } else if c == 's' {
        2
    } else if (c == 'u' || c == '\u{00B5}') && pos + 1 < n && s.get_char(pos + 1) == 's' {
        4
    } else if c == 'n' && pos + 1 < n && s.get_char(pos + 1) == 's' {
        5
    } else {
        return false;
    };
    let ulen: usize = if rank == 3 || rank == 4 || rank == 5 {
        2
    } else {
        1
    };
    if rank < min_rank {
        return false;
    }
    let rest = s.substring_char(pos + ulen, n);
    proof {
        assert(rest@ =~= s@.skip(pos + ulen as int));
    }
    duration_from(rest, rank + 1)
}

/// An ECS duration value that passed validation.
#[derive(Debug, Clone, Eq, PartialEq, Hash)]
pub struct ECSDurationValue {
    inner: String,
}

impl View for ECSDurationValue {
    type V = Seq<char>;

    closed spec fn view(&self) -> Seq<char> {
        self.inner@
    }
}

impl ECSDurationValue {
    /// Every constructed value satisfies this.
    pub open spec fn wf(&self) -> bool {
        valid_duration(self@)
    }

    /// Validates a duration: a non-empty sequence of number segments, each
    /// with a unit, units in decreasing magnitude and each at most once.
    /// Succeeds exactly on such inputs and carries the input unchanged.
    pub fn try_from(input: &str) -> (r: Result<ECSDurationValue, EcsError>)
        ensures
            r is Ok <==> valid_duration(input@),
            r is Ok ==> r->Ok_0@ == input@ && r->Ok_0.wf(),
            r is Err ==> r->Err_0 is InvalidECSDurationValue,
    {
        if input.unicode_len() > 0 && duration_from(input, 0) {
            Ok(ECSDurationValue { inner: input.to_owned() })
        } else {
            Err(EcsError::InvalidECSDurationValue { input: input.to_owned() })
        }
    }

    /// The accepted input.
    pub fn text(&self) -> (r: &str)
        ensures
            r@ == self@,
    {
        self.inner.as_str()
    }
}

} // verus!
