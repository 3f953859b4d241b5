//! Classifies the current OS user into one of four permission tiers.
//!
//! The tier is purely informational: it answers "what kind of account is
//! this?" and must never be used to gate privileged operations.

use vstd::prelude::*;
use vstd::string::StringExecFns;

pub mod shadow;
pub mod winapi;

pub use shadow::omst;
pub use shadow::Error;

verus! {

/// Summary of a user's permissions.
///
/// This indicator is purely informational and should not be assumed to have
/// any level of security. Variants are ordered by ascending privilege.
#[derive(Copy, Clone, Eq, PartialEq, Hash, PartialOrd, Ord, Debug, Structural)]
pub enum Permissions {
    /// Restricted permissions, typically ephemeral guest accounts.
    Guest,
    /// Ordinary user permissions, accounts that represent a real person.
    User,
    /// System service permissions: elevated, but not absolute, access.
    System,
    /// Absolute permissions: full access to the system.
    Absolute,
}

/// The single ASCII byte that stands for each tier.
pub open spec fn byte_of(p: Permissions) -> u8 {
    match p {
        Permissions::Guest => 37,  // '%'
        Permissions::User => 36,  // '$'
        Permissions::System => 64,  // '@'
        Permissions::Absolute => 35,  // '#'
    }
}

impl Permissions {
    /// The permissions as a single ASCII character.
    ///
    /// In most cases, you want to use [`be`](Self::be) instead.
    pub fn byte(self) -> (r: u8)
        ensures
            r == byte_of(self),
    {
        match self {
            Permissions::Guest => 37,
            Permissions::User => 36,
            Permissions::System => 64,
            Permissions::Absolute => 35,
        }
    }

    /// The permissions as a single character.
    ///
    /// Most often used on the result of a classification.
    pub fn be(self) -> (r: char)
        ensures
            r == byte_of(self) as char,
    {
        match self {
            Permissions::Guest => '%',
            Permissions::User => '$',
            Permissions::System => '@',
            Permissions::Absolute => '#',
        }
    }

    /// Reads a tier back from its symbolic byte.
    pub fn from_byte(b: u8) -> (r: Option<Permissions>)
        ensures
            r == tier_of_byte(b),
    {
        if b == 37 {
            Some(Permissions::Guest)
        } else if b == 36 {
            Some(Permissions::User)
        } else if b == 64 {
            Some(Permissions::System)
        } else if b == 35 {
            Some(Permissions::Absolute)
        } else {
            None
        }
    }

    /// The lowercase word for the tier, for human-readable output.
    pub fn name(self) -> (r: &'static str)
        ensures
            r@ == name_of(self),
    {
        match self {
            Permissions::Guest => "guest",
            Permissions::User => "user",
            Permissions::System => "system",
            Permissions::Absolute => "absolute",
        }
    }
}

/// The tier whose symbolic byte is `b`, if any.
pub open spec fn tier_of_byte(b: u8) -> Option<Permissions> {
    if b == 37 {
        Some(Permissions::Guest)
    } else if b == 36 {
        Some(Permissions::User)
    } else if b == 64 {
        Some(Permissions::System)
    } else if b == 35 {
        Some(Permissions::Absolute)
    } else {
        None
    }
}

/// The lowercase word for each tier.
pub open spec fn name_of(p: Permissions) -> Seq<char> {
    match p {
        Permissions::Guest => "guest"@,
        Permissions::User => "user"@,
        Permissions::System => "system"@,
        Permissions::Absolute => "absolute"@,
    }
}

/// Law: the symbolic byte determines the tier. Producing a tier's byte and
/// reading it back recovers the same tier, for every variant.
pub proof fn lemma_byte_round_trip(p: Permissions)
    ensures
        tier_of_byte(byte_of(p)) == Some(p),
{
}

/// The characters that a sequence of ASCII bytes stands for.
pub open spec fn chars_of(s: Seq<u8>) -> Seq<char> {
    Seq::new(s.len(), |i: int| s[i] as char)
}

/// Relies on `String::from_utf8`: a vector of ASCII bytes is valid UTF-8 and
/// decodes to exactly the characters with those code points.
#[verifier::external_body]
pub(crate) fn ascii_to_string(v: Vec<u8>) -> (r: String)
    requires
        forall|i: int| 0 <= i < v@.len() ==> v@[i] < 128,
    ensures
        r@ == chars_of(v@),
{
    match String::from_utf8(v) {
        Ok(s) => s,
        Err(_) => String::new(),
    }
}

/// The ASCII code of the hex digit for `n`, lowercase.
pub open spec fn hex_digit(n: u8) -> u8 {
    if n < 10 {
        (48 + n) as u8
    } else {
        (87 + n) as u8
    }
}

pub(crate) fn hex_digit_of(n: u8) -> (r: u8)
    requires
        n < 16,
    ensures
        r == hex_digit(n),
{
    if n < 10 {
        48 + n
    } else {
        87 + n
    }
}

/// The byte that stands for a classification outcome: the tier's byte on
/// success, `?` on error.
pub open spec fn result_byte_of(r: Result<Permissions, Error>) -> u8 {
    match r {
        Ok(p) => byte_of(p),
        Err(_) => 63,
    }
}

/// A classification outcome that renders as the tier's word on success and
/// as the error's full one-line message otherwise.
pub struct DisplayResult(pub Result<Permissions, Error>);

impl DisplayResult {
    /// What the rendering says.
    pub open spec fn message_spec(&self) -> Seq<char> {
        match &self.0 {
            Ok(p) => name_of(*p),
            Err(e) => e.message_spec(),
        }
    }

    /// Renders the outcome for human-readable output.
    pub fn message(&self) -> (r: String)
        ensures
            r@ == self.message_spec(),
    {
        match &self.0 {
            Ok(p) => String::from_str(p.name()),
            Err(e) => e.message(),
        }
    }
}

/// Extension trait for the outcome of a classification.
pub trait ResultExt: Sized {
    /// The outcome this value stands for.
    spec fn result_spec(self) -> Result<Permissions, Error>;

    /// The outcome as a single ASCII byte; an error renders as `?`.
    ///
    /// In most cases, you want to use [`be`](Self::be) instead.
    fn byte(self) -> (r: u8)
        ensures
            r == result_byte_of(self.result_spec()),
    ;

    /// The outcome as a single character; an error renders as `?`.
    fn be(self) -> (r: char)
        ensures
            r == result_byte_of(self.result_spec()) as char,
    ;

    /// The outcome as a displayable value that fully explains errors.
    fn display(self) -> (r: DisplayResult)
        ensures
            r.0 == self.result_spec(),
    ;
}

impl ResultExt for Result<Permissions, Error> {
    open spec fn result_spec(self) -> Result<Permissions, Error> {
        self
    }

    fn byte(self) -> (r: u8) {
        match self {
            Ok(p) => p.byte(),
            Err(_) => 63,
        }
    }

    fn be(self) -> (r: char) {
        match self {
            Ok(p) => p.be(),
            Err(_) => '?',
        }
    }

    fn display(self) -> (r: DisplayResult) {
        DisplayResult(self)
    }
}

} // verus!
