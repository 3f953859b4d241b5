//! Windows resolver: maps the privilege code of the OS user-information
//! record to a tier.
//!
//! The OS query hands back an opaque, heap-allocated record that this call
//! owns exclusively and must hand to the matching release function exactly
//! once, on every path. The record is modeled here by [`UserInfo`], which
//! keeps the one field the classifier reads, and the release discipline by
//! [`Releaser`], which counts invocations of the release function; the
//! contract of [`omst`] pins the count's growth to exactly one on every
//! path. The unverified edge makes the two OS calls, builds the record, and
//! performs the actual deallocation inside [`Releaser::release`]'s role.

use vstd::prelude::*;
use vstd::string::StringExecFns;

use crate::ascii_to_string;
use crate::chars_of;
use crate::hex_digit;
use crate::hex_digit_of;
use crate::Permissions;

verus! {

/// Windows user privileges.
#[derive(Copy, Clone, Eq, PartialEq, Hash, PartialOrd, Ord, Debug, Structural)]
pub enum Priv {
    /// Guest user privileges.
    Guest,
    /// Regular user privileges.
    User,
    /// Administrator privileges.
    Admin,
}

/// The numeric privilege code of a guest account (`USER_PRIV_GUEST`).
pub const USER_PRIV_GUEST: u32 = 0;

/// The numeric privilege code of an ordinary user (`USER_PRIV_USER`).
pub const USER_PRIV_USER: u32 = 1;

/// The numeric privilege code of an administrator (`USER_PRIV_ADMIN`).
pub const USER_PRIV_ADMIN: u32 = 2;

/// The privilege that a numeric code names, if any.
pub open spec fn priv_of_code(code: u32) -> Option<Priv> {
    if code == 2 {
        Some(Priv::Admin)
    } else if code == 0 {
        Some(Priv::Guest)
    } else if code == 1 {
        Some(Priv::User)
    } else {
        None
    }
}

/// The tier that each privilege level carries.
pub open spec fn perm_of_priv(p: Priv) -> Permissions {
    match p {
        Priv::Guest => Permissions::Guest,
        Priv::User => Permissions::User,
        Priv::Admin => Permissions::Absolute,
    }
}

impl core::convert::From<Priv> for Permissions {
    fn from(p: Priv) -> (r: Permissions) {
        match p {
            Priv::Guest => Permissions::Guest,
            Priv::User => Permissions::User,
            Priv::Admin => Permissions::Absolute,
        }
    }
}

impl vstd::std_specs::convert::FromSpecImpl<Priv> for Permissions {
    open spec fn obeys_from_spec() -> bool {
        true
    }

    open spec fn from_spec(p: Priv) -> Permissions {
        perm_of_priv(p)
    }
}

/// Operation done when getting user privileges.
#[derive(Copy, Clone, Eq, PartialEq, Debug, Structural)]
pub enum Operation {
    /// Resolving the current user's name.
    GetUserName,
    /// Querying the user-information record for that name.
    NetUserGetInfo,
}

/// Error that can occur when getting permissions from the OS identity APIs.
#[derive(Eq, PartialEq, Debug)]
pub enum Error {
    /// Error getting privileges; carries the rendered text of the underlying
    /// OS failure.
    GetPriv {
        /// Operation that failed.
        operation: Operation,
        /// Description of the failure.
        error: String,
    },
    /// The record's privilege field held none of the three known codes.
    InvalidPriv {
        /// The raw code, kept for diagnostics.
        data: u32,
    },
}

/// Maps the privilege code of a user-information record:
/// administrator, guest and ordinary-user codes map to their privilege,
/// and any other value is an invalid-privilege error keeping the raw code.
pub fn priv_from_code(code: u32) -> (r: Result<Priv, Error>)
    ensures
        match priv_of_code(code) {
            Some(p) => r == Ok::<Priv, Error>(p),
            None => r matches Err(e) && e matches Error::InvalidPriv { data } && data == code,
        },
{
    if code == USER_PRIV_ADMIN {
        Ok(Priv::Admin)
    } else if code == USER_PRIV_GUEST {
        Ok(Priv::Guest)
    } else if code == USER_PRIV_USER {
        Ok(Priv::User)
    } else {
        Err(Error::InvalidPriv { data: code })
    }
}

/// Stands for the opaque user-information record that the OS query returns,
/// reduced to the one field the classifier reads. The value is not `Copy`
/// and not `Clone`: whoever holds it owns the record.
#[derive(Debug)]
pub struct UserInfo {
    /// The numeric privilege field of the record.
    pub privilege: u32,
}

/// Tracks invocations of the record's release function, so that the
/// release-exactly-once discipline is visible in contracts and checkable by
/// a test double.
#[derive(Debug)]
pub struct Releaser {
    /// How many times the release function has run.
    pub count: u64,
}

impl Releaser {
    /// A fresh release counter.
    pub fn new() -> (r: Releaser)
        ensures
            r.count == 0,
    {
        Releaser { count: 0 }
    }

    /// Releases a record. Consuming the record guarantees that no path can
    /// release it a second time or read it afterwards.
    pub fn release(&mut self, record: UserInfo)
        requires
            old(self).count < u64::MAX,
        ensures
            final(self).count == old(self).count + 1,
    {
        let UserInfo { privilege: _ } = record;
        self.count = self.count + 1;
    }
}

/// Determine [`Priv`] from the user-information record.
///
/// The record is consumed and released exactly once — the first clause of
/// the contract holds on the success path and on the invalid-privilege
/// error path alike.
pub fn omst(record: UserInfo, releaser: &mut Releaser) -> (r: Result<Priv, Error>)
    requires
        old(releaser).count < u64::MAX,
    ensures
        final(releaser).count == old(releaser).count + 1,
        match priv_of_code(record.privilege) {
            Some(p) => r == Ok::<Priv, Error>(p),
            None => r matches Err(e) && e matches Error::InvalidPriv { data } && data
                == record.privilege,
        },
{
    let code = record.privilege;
    releaser.release(record);
    priv_from_code(code)
}

// ---------------------------------------------------------------------------
// Messages
// ---------------------------------------------------------------------------

/// The hexadecimal digits of `n`, most significant first, no leading zeros.
pub open spec fn hex_bytes(n: u32) -> Seq<u8>
    decreases n,
{
    if n < 16 {
        seq![hex_digit(n as u8)]
    } else {
        hex_bytes(n / 16) + seq![hex_digit((n % 16) as u8)]
    }
}

proof fn lemma_hex_bytes_ascii(n: u32)
    ensures
        forall|i: int| 0 <= i < hex_bytes(n).len() ==> #[trigger] hex_bytes(n)[i] < 128,
    decreases n,
{
    if n >= 16 {
        lemma_hex_bytes_ascii(n / 16);
        let pre = hex_bytes(n / 16);
        let e = seq![hex_digit((n % 16) as u8)];
        assert forall|i: int| 0 <= i < hex_bytes(n).len() implies #[trigger] hex_bytes(n)[i]
            < 128 by {
            if i < pre.len() {
                assert(hex_bytes(n)[i] == pre[i]);
            } else {
                assert(hex_bytes(n)[i] == e[i - pre.len()]);
            }
        }
    }
}

/// Appends the hex digits of `n` to `out`.
fn push_hex(n: u32, out: &mut Vec<u8>)
    ensures
        final(out)@ == old(out)@ + hex_bytes(n),
    decreases n,
{
    if n < 16 {
        out.push(hex_digit_of(n as u8));
        assert(out@ =~= old(out)@ + hex_bytes(n));
    } else {
        push_hex(n / 16, out);
        out.push(hex_digit_of((n % 16) as u8));
        assert(out@ =~= old(out)@ + hex_bytes(n));
    }
}

/// The lowercase hexadecimal rendering of `n`.
fn hex_string(n: u32) -> (r: String)
    ensures
        r@ == chars_of(hex_bytes(n)),
{
    let mut v: Vec<u8> = Vec::new();
    push_hex(n, &mut v);
    proof {
        lemma_hex_bytes_ascii(n);
    }
    ascii_to_string(v)
}

impl Operation {
    /// The phrase for the operation in diagnostics.
    pub open spec fn name_spec(self) -> Seq<char> {
        match self {
            Operation::GetUserName => "get username"@,
            Operation::NetUserGetInfo => "get user info"@,
        }
    }

    /// The phrase for the operation, for human-readable output.
    pub fn name(self) -> (r: &'static str)
        ensures
            r@ == self.name_spec(),
    {
        match self {
            Operation::GetUserName => "get username",
            Operation::NetUserGetInfo => "get user info",
        }
    }
}

impl Error {
    /// The one-line description of the error; an invalid privilege code
    /// renders in hexadecimal.
    pub open spec fn message_spec(&self) -> Seq<char> {
        match self {
            Error::GetPriv { operation, error } => "could not "@ + operation.name_spec()
                + " due to error: "@ + error@,
            Error::InvalidPriv { data } => "user privileges had invalid value (0x"@ + chars_of(
                hex_bytes(*data),
            ) + ")"@,
        }
    }

    /// Renders the error for human-readable output.
    pub fn message(&self) -> (r: String)
        ensures
            r@ == self.message_spec(),
    {
        match self {
            Error::GetPriv { operation, error } => {
                let mut out = String::from_str("could not ");
                out.append(operation.name());
                out.append(" due to error: ");
                out.append(error.as_str());
                out
            },
            Error::InvalidPriv { data } => {
                let mut out = String::from_str("user privileges had invalid value (0x");
                let hx = hex_string(*data);
                out.append(hx.as_str());
                out.append(")");
                out
            },
        }
    }
}

} // verus!
