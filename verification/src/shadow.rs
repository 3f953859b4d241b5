//! POSIX resolver: classifies a user by effective UID against the
//! `UID_MIN..=UID_MAX` range that `/etc/login.defs` defines.
//!
//! The caller supplies the effective UID and the raw bytes of the
//! configuration file; everything from there on — line splitting, comment
//! stripping, key/value extraction, decimal parsing, and the classification
//! itself — is verified here.

use vstd::prelude::*;
use vstd::string::StringExecFns;

use crate::ascii_to_string;
use crate::chars_of;
use crate::hex_digit;
use crate::hex_digit_of;
use crate::Permissions;

verus! {

/// Where a UID falls relative to the `UID_MIN..=UID_MAX` range.
#[derive(Copy, Clone, Eq, PartialEq, Hash, PartialOrd, Ord, Debug, Structural)]
pub enum UidRange {
    /// Above `UID_MAX`.
    AboveMax,
    /// Inside the `UID_MIN..=UID_MAX` range.
    InRange,
    /// Below `UID_MIN`.
    BelowMin,
    /// UID 0, root.
    Zero,
}

/// The tier that each position relative to the range carries.
pub open spec fn perm_of_range(r: UidRange) -> Permissions {
    match r {
        UidRange::AboveMax => Permissions::Guest,
        UidRange::InRange => Permissions::User,
        UidRange::BelowMin => Permissions::System,
        UidRange::Zero => Permissions::Absolute,
    }
}

impl core::convert::From<UidRange> for Permissions {
    fn from(range: UidRange) -> (r: Permissions) {
        match range {
            UidRange::AboveMax => Permissions::Guest,
            UidRange::InRange => Permissions::User,
            UidRange::BelowMin => Permissions::System,
            UidRange::Zero => Permissions::Absolute,
        }
    }
}

impl vstd::std_specs::convert::FromSpecImpl<UidRange> for Permissions {
    open spec fn obeys_from_spec() -> bool {
        true
    }

    open spec fn from_spec(range: UidRange) -> Permissions {
        perm_of_range(range)
    }
}

/// Operation performed on `/etc/login.defs`.
#[derive(Copy, Clone, Eq, PartialEq, Debug, Structural)]
pub enum Operation {
    /// Opening the file.
    Open,
    /// Reading the file.
    Read,
}

/// Definition in `/etc/login.defs`.
#[derive(Copy, Clone, Eq, PartialEq, Debug, Structural)]
pub enum Def {
    /// `UID_MIN`.
    Min,
    /// `UID_MAX`.
    Max,
}

/// Problem with a definition in `/etc/login.defs`.
#[derive(Eq, PartialEq, Debug)]
pub enum Problem {
    /// Definition was missing.
    Missing,
    /// Definition was provided, but empty.
    Empty,
    /// Definition was not a valid UID.
    Invalid {
        /// Actual bytes of the value.
        data: Vec<u8>,
    },
}

/// Spec-level image of [`Problem`], with the offending bytes as a sequence.
pub enum ProblemSpec {
    Missing,
    Empty,
    Invalid(Seq<u8>),
}

impl View for Problem {
    type V = ProblemSpec;

    open spec fn view(&self) -> ProblemSpec {
        match self {
            Problem::Missing => ProblemSpec::Missing,
            Problem::Empty => ProblemSpec::Empty,
            Problem::Invalid { data } => ProblemSpec::Invalid(data@),
        }
    }
}

/// Error that might occur when classifying through `/etc/login.defs`.
#[derive(Eq, PartialEq, Debug)]
pub enum Error {
    /// Error opening or reading `/etc/login.defs`; carries the rendered text
    /// of the underlying I/O failure.
    LoginDefs {
        /// What operation caused the error.
        operation: Operation,
        /// Description of the I/O failure.
        error: String,
    },
    /// Invalid definition in `/etc/login.defs`.
    InvalidDef {
        /// Which definition was invalid.
        def: Def,
        /// What the problem was.
        problem: Problem,
    },
}

/// Spec-level image of [`Error`].
pub enum ErrorSpec {
    LoginDefs(Operation, Seq<char>),
    InvalidDef(Def, ProblemSpec),
}

impl View for Error {
    type V = ErrorSpec;

    open spec fn view(&self) -> ErrorSpec {
        match self {
            Error::LoginDefs { operation, error } => ErrorSpec::LoginDefs(*operation, error@),
            Error::InvalidDef { def, problem } => ErrorSpec::InvalidDef(*def, problem@),
        }
    }
}

impl Error {
    /// Tags an I/O failure, rendered as text, with the operation that it
    /// interrupted.
    pub fn login_defs(operation: Operation, error: String) -> (r: Error)
        ensures
            r@ == ErrorSpec::LoginDefs(operation, error@),
    {
        Error::LoginDefs { operation, error }
    }
}

// ---------------------------------------------------------------------------
// Messages
// ---------------------------------------------------------------------------

/// How one byte renders in diagnostics: printable ASCII stands for itself,
/// the common control characters and the quoting characters get a two-byte
/// backslash escape, and everything else renders as `\xNN`.
pub open spec fn escape_byte(b: u8) -> Seq<u8> {
    if b == 9 {
        seq![92u8, 116u8]
    } else if b == 13 {
        seq![92u8, 114u8]
    } else if b == 10 {
        seq![92u8, 110u8]
    } else if b == 92 {
        seq![92u8, 92u8]
    } else if b == 39 {
        seq![92u8, 39u8]
    } else if b == 34 {
        seq![92u8, 34u8]
    } else if 32 <= b && b <= 126 {
        seq![b]
    } else {
        seq![92u8, 120u8, hex_digit(b / 16), hex_digit(b % 16)]
    }
}

/// The rendering of a whole byte string.
pub open spec fn escape_bytes(s: Seq<u8>) -> Seq<u8>
    decreases s.len(),
{
    if s.len() == 0 {
        seq![]
    } else {
        escape_bytes(s.drop_last()) + escape_byte(s.last())
    }
}

proof fn lemma_escape_bytes_ascii(s: Seq<u8>)
    ensures
        forall|i: int| 0 <= i < escape_bytes(s).len() ==> #[trigger] escape_bytes(s)[i] < 128,
    decreases s.len(),
{
    if s.len() > 0 {
        lemma_escape_bytes_ascii(s.drop_last());
        let pre = escape_bytes(s.drop_last());
        let e = escape_byte(s.last());
        assert(forall|i: int| 0 <= i < e.len() ==> #[trigger] e[i] < 128);
        assert forall|i: int| 0 <= i < escape_bytes(s).len() implies #[trigger] escape_bytes(
            s,
        )[i] < 128 by {
            if i < pre.len() {
                assert(escape_bytes(s)[i] == pre[i]);
            } else {
                assert(escape_bytes(s)[i] == e[i - pre.len()]);
            }
        }
    }
}

/// Renders bytes for diagnostics, byte for byte.
fn escape_ascii_bytes(data: &Vec<u8>) -> (r: Vec<u8>)
    ensures
        r@ == escape_bytes(data@),
{
    let mut out: Vec<u8> = Vec::new();
    let mut i: usize = 0;
    while i < data.len()
        invariant
            0 <= i <= data@.len(),
            out@ == escape_bytes(data@.take(i as int)),
        decreases data@.len() - i,
    {
        let b = data[i];
        if b == 9 {
            out.push(92);
            out.push(116);
        } else if b == 13 {
            out.push(92);
            out.push(114);
        } else if b == 10 {
            out.push(92);
            out.push(110);
        } else if b == 92 {
            out.push(92);
            out.push(92);
        } else if b == 39 {
            out.push(92);
            out.push(39);
        } else if b == 34 {
            out.push(92);
            out.push(34);
        } else if 32 <= b && b <= 126 {
            out.push(b);
        } else {
            out.push(92);
            out.push(120);
            out.push(hex_digit_of(b / 16));
            out.push(hex_digit_of(b % 16));
        }
        proof {
            assert(data@.take(i + 1).drop_last() =~= data@.take(i as int));
            assert(data@.take(i + 1).last() == data@[i as int]);
            assert(out@ =~= escape_bytes(data@.take(i + 1)));
        }
        i += 1;
    }
    proof {
        assert(data@.take(i as int) =~= data@);
    }
    out
}

impl Operation {
    /// The word for the operation in diagnostics.
    pub open spec fn name_spec(self) -> Seq<char> {
        match self {
            Operation::Open => "open"@,
            Operation::Read => "read"@,
        }
    }

    /// The word for the operation, for human-readable output.
    pub fn name(self) -> (r: &'static str)
        ensures
            r@ == self.name_spec(),
    {
        match self {
            Operation::Open => "open",
            Operation::Read => "read",
        }
    }
}

impl Def {
    /// The key exactly as it stands in the config file.
    pub open spec fn name_spec(self) -> Seq<char> {
        match self {
            Def::Min => "UID_MIN"@,
            Def::Max => "UID_MAX"@,
        }
    }

    /// The key's name, for human-readable output.
    pub fn name(self) -> (r: &'static str)
        ensures
            r@ == self.name_spec(),
    {
        match self {
            Def::Min => "UID_MIN",
            Def::Max => "UID_MAX",
        }
    }
}

impl Problem {
    /// The one-line description of the problem; an invalid value carries its
    /// raw bytes, rendered with [`escape_bytes`].
    pub open spec fn message_spec(&self) -> Seq<char> {
        match self {
            Problem::Missing => "was missing"@,
            Problem::Empty => "was empty"@,
            Problem::Invalid { data } => "was not a valid UID ("@ + chars_of(escape_bytes(data@))
                + ")"@,
        }
    }

    /// Renders the problem for human-readable output.
    pub fn message(&self) -> (r: String)
        ensures
            r@ == self.message_spec(),
    {
        match self {
            Problem::Missing => String::from_str("was missing"),
            Problem::Empty => String::from_str("was empty"),
            Problem::Invalid { data } => {
                let esc = escape_ascii_bytes(data);
                proof {
                    lemma_escape_bytes_ascii(data@);
                }
                let mid = ascii_to_string(esc);
                let mut out = String::from_str("was not a valid UID (");
                out.append(mid.as_str());
                out.append(")");
                out
            },
        }
    }
}

impl Error {
    /// The one-line description of the error: it names the resource, the
    /// operation or definition concerned, and the underlying problem.
    pub open spec fn message_spec(&self) -> Seq<char> {
        match self {
            Error::LoginDefs { operation, error } => "could not "@ + operation.name_spec()
                + " /etc/login.defs due to error: "@ + error@,
            Error::InvalidDef { def, problem } => def.name_spec() + " in /etc/login.defs "@
                + problem.message_spec(),
        }
    }

    /// Renders the error for human-readable output.
    pub fn message(&self) -> (r: String)
        ensures
            r@ == self.message_spec(),
    {
        match self {
            Error::LoginDefs { operation, error } => {
                let mut out = String::from_str("could not ");
                out.append(operation.name());
                out.append(" /etc/login.defs due to error: ");
                out.append(error.as_str());
                out
            },
            Error::InvalidDef { def, problem } => {
                let mut out = String::from_str(def.name());
                out.append(" in /etc/login.defs ");
                let pm = problem.message();
                out.append(pm.as_str());
                out
            },
        }
    }
}

// ---------------------------------------------------------------------------
// Decimal values
// ---------------------------------------------------------------------------

/// ASCII whitespace, as the config format understands it.
pub open spec fn is_space(b: u8) -> bool {
    b == 32 || b == 9 || b == 10 || b == 12 || b == 13
}

/// ASCII decimal digit.
pub open spec fn is_digit(b: u8) -> bool {
    48 <= b && b <= 57
}

pub open spec fn all_digits(s: Seq<u8>) -> bool {
    forall|i: int| 0 <= i < s.len() ==> is_digit(#[trigger] s[i])
}

/// The number that a sequence of decimal digits denotes.
pub open spec fn digits_value(s: Seq<u8>) -> int
    decreases s.len(),
{
    if s.len() == 0 {
        0
    } else {
        digits_value(s.drop_last()) * 10 + (s.last() - 48)
    }
}

/// A value token parses exactly when it is nonempty, all decimal digits, and
/// its value fits the UID domain.
pub open spec fn parse_uid_spec(s: Seq<u8>) -> Option<u32> {
    if s.len() > 0 && all_digits(s) && digits_value(s) <= u32::MAX {
        Some(digits_value(s) as u32)
    } else {
        None
    }
}

proof fn lemma_digits_value_nonneg(s: Seq<u8>)
    requires
        all_digits(s),
    ensures
        digits_value(s) >= 0,
    decreases s.len(),
{
    if s.len() > 0 {
        assert(all_digits(s.drop_last()));
        lemma_digits_value_nonneg(s.drop_last());
    }
}

/// The value of a digit string dominates the value of each of its prefixes.
proof fn lemma_digits_value_prefix(s: Seq<u8>, j: int)
    requires
        all_digits(s),
        0 <= j <= s.len(),
    ensures
        digits_value(s.take(j)) <= digits_value(s),
    decreases s.len() - j,
{
    if j < s.len() {
        lemma_digits_value_prefix(s, j + 1);
        let t = s.take(j + 1);
        assert(t.drop_last() =~= s.take(j));
        assert(all_digits(s.take(j)));
        lemma_digits_value_nonneg(s.take(j));
        assert(digits_value(t) == digits_value(s.take(j)) * 10 + (t.last() - 48));
        assert(digits_value(s.take(j)) * 10 >= digits_value(s.take(j)));
    } else {
        assert(s.take(j) =~= s);
    }
}

/// Parses a decimal UID token: nonempty, digits only, no overflow.
fn parse_uid(s: &Vec<u8>) -> (r: Option<u32>)
    ensures
        r == parse_uid_spec(s@),
{
    if s.len() == 0 {
        return None;
    }
    let mut acc: u32 = 0;
    let mut i: usize = 0;
    while i < s.len()
        invariant
            0 <= i <= s@.len(),
            all_digits(s@.take(i as int)),
            acc == digits_value(s@.take(i as int)),
        decreases s@.len() - i,
    {
        let b = s[i];
        if b < 48 || b > 57 {
            assert(!is_digit(s@[i as int]));
            assert(!all_digits(s@));
            return None;
        }
        let d = (b - 48) as u32;
        let next = acc as u64 * 10 + d as u64;
        assert(s@.take(i + 1).drop_last() =~= s@.take(i as int));
        assert(s@.take(i + 1).last() == s@[i as int]);
        assert(all_digits(s@.take(i + 1)));
        assert(next == digits_value(s@.take(i + 1)));
        if next > u32::MAX as u64 {
            proof {
                if all_digits(s@) {
                    lemma_digits_value_prefix(s@, i + 1);
                    assert(digits_value(s@) > u32::MAX);
                }
            }
            return None;
        }
        acc = next as u32;
        i += 1;
    }
    assert(s@.take(i as int) =~= s@);
    Some(acc)
}

// ---------------------------------------------------------------------------
// Lines
// ---------------------------------------------------------------------------

pub open spec fn has_hash(s: Seq<u8>) -> bool {
    exists|k: int| 0 <= k < s.len() && #[trigger] s[k] == 35
}

/// The prefix that precedes the last `#` of a sequence that contains one.
pub open spec fn cut_last_hash(s: Seq<u8>) -> Seq<u8>
    decreases s.len(),
{
    if s.len() == 0 {
        s
    } else if s.last() == 35 {
        s.drop_last()
    } else {
        cut_last_hash(s.drop_last())
    }
}

/// Comment handling: everything from the last `#` onward is discarded.
pub open spec fn strip_comment(s: Seq<u8>) -> Seq<u8> {
    if has_hash(s) {
        cut_last_hash(s)
    } else {
        s
    }
}

/// The sequence with its leading whitespace removed.
pub open spec fn skip_ws(s: Seq<u8>) -> Seq<u8>
    decreases s.len(),
{
    if s.len() == 0 {
        s
    } else if is_space(s[0]) {
        skip_ws(s.drop_first())
    } else {
        s
    }
}

/// Length of the leading run of non-whitespace bytes.
pub open spec fn token_len(s: Seq<u8>) -> int
    decreases s.len(),
{
    if s.len() == 0 {
        0
    } else if is_space(s[0]) {
        0
    } else {
        1 + token_len(s.drop_first())
    }
}

/// The bytes of the key `UID_MIN`.
pub open spec fn uid_min_key() -> Seq<u8> {
    seq![85u8, 73u8, 68u8, 95u8, 77u8, 73u8, 78u8]
}

/// The bytes of the key `UID_MAX`.
pub open spec fn uid_max_key() -> Seq<u8> {
    seq![85u8, 73u8, 68u8, 95u8, 77u8, 65u8, 88u8]
}

/// What a single config line contributes.
pub enum LineClass {
    /// Blank, comment-only, or an unrecognized key: ignored.
    Skip,
    /// Assigns a value to one of the two recognized definitions.
    Assign(Def, u32),
    /// A recognized key whose value is absent or does not parse.
    Fail(Def, ProblemSpec),
}

/// How the remainder after a recognized key classifies.
pub open spec fn class_value(def: Def, rest: Seq<u8>) -> LineClass {
    let vs = skip_ws(rest);
    if vs.len() == 0 {
        LineClass::Fail(def, ProblemSpec::Empty)
    } else {
        let val = vs.take(token_len(vs));
        match parse_uid_spec(val) {
            Some(v) => LineClass::Assign(def, v),
            None => LineClass::Fail(def, ProblemSpec::Invalid(val)),
        }
    }
}

/// How one line of the config classifies: strip the trailing comment, skip
/// leading whitespace, split the key at the first whitespace run, and read
/// the value token that follows.
pub open spec fn line_class(line: Seq<u8>) -> LineClass {
    let t = skip_ws(strip_comment(line));
    if t.len() == 0 {
        LineClass::Skip
    } else {
        let key = t.take(token_len(t));
        let rest = t.skip(token_len(t));
        if key == uid_min_key() {
            class_value(Def::Min, rest)
        } else if key == uid_max_key() {
            class_value(Def::Max, rest)
        } else {
            LineClass::Skip
        }
    }
}

/// Index of the first newline of `s`, or `s.len()` if there is none.
pub open spec fn line_end(s: Seq<u8>) -> int
    decreases s.len(),
{
    if s.len() == 0 {
        0
    } else if s[0] == 10 {
        0
    } else {
        1 + line_end(s.drop_first())
    }
}

pub proof fn lemma_line_end(s: Seq<u8>)
    ensures
        0 <= line_end(s) <= s.len(),
        forall|k: int| 0 <= k < line_end(s) ==> #[trigger] s[k] != 10,
        line_end(s) < s.len() ==> s[line_end(s)] == 10,
    decreases s.len(),
{
    if s.len() == 0 || s[0] == 10 {
    } else {
        lemma_line_end(s.drop_first());
        assert forall|k: int| 0 <= k < line_end(s) implies #[trigger] s[k] != 10 by {
            if k >= 1 {
                assert(s[k] == s.drop_first()[k - 1]);
            }
        }
    }
}

/// The content split into lines at each newline; a trailing fragment without
/// a newline is a line of its own, and nothing follows a trailing newline.
pub open spec fn split_lines(s: Seq<u8>) -> Seq<Seq<u8>>
    decreases s.len(),
{
    if s.len() == 0 {
        seq![]
    } else {
        proof {
            lemma_line_end(s);
        }
        let e = line_end(s);
        if e < s.len() {
            seq![s.take(e)] + split_lines(s.skip(e + 1))
        } else {
            seq![s]
        }
    }
}

// ---------------------------------------------------------------------------
// Scanning the whole config
// ---------------------------------------------------------------------------

/// What the parser reports once the source is exhausted: both definitions
/// must have been seen, `UID_MIN` being checked first.
pub open spec fn finish(min: Option<u32>, max: Option<u32>) -> Result<(u32, u32), (
    Def,
    ProblemSpec,
)> {
    match min {
        Option::None => Err((Def::Min, ProblemSpec::Missing)),
        Option::Some(mn) => match max {
            Option::None => Err((Def::Max, ProblemSpec::Missing)),
            Option::Some(mx) => Ok((mn, mx)),
        },
    }
}

/// The parse of `lines`, starting from already-accumulated definitions:
/// lines apply in order, later assignments overwrite earlier ones, and the
/// first failing line stops the scan.
pub open spec fn scan_lines(lines: Seq<Seq<u8>>, min: Option<u32>, max: Option<u32>) -> Result<
    (u32, u32),
    (Def, ProblemSpec),
>
    decreases lines.len(),
{
    if lines.len() == 0 {
        finish(min, max)
    } else {
        match line_class(lines[0]) {
            LineClass::Skip => scan_lines(lines.drop_first(), min, max),
            LineClass::Assign(d, v) => scan_lines(
                lines.drop_first(),
                if d is Min {
                    Some(v)
                } else {
                    min
                },
                if d is Max {
                    Some(v)
                } else {
                    max
                },
            ),
            LineClass::Fail(d, p) => Err((d, p)),
        }
    }
}

/// The parse of a whole byte source.
pub open spec fn parse_spec(content: Seq<u8>) -> Result<(u32, u32), (Def, ProblemSpec)> {
    scan_lines(split_lines(content), None, None)
}

// ---------------------------------------------------------------------------
// Characterizations of the scanning spec functions
// ---------------------------------------------------------------------------

proof fn lemma_cut_last_hash(s: Seq<u8>, q: int)
    requires
        0 <= q < s.len(),
        s[q] == 35,
        forall|k: int| q < k < s.len() ==> #[trigger] s[k] != 35,
    ensures
        cut_last_hash(s) == s.take(q),
    decreases s.len(),
{
    if s.last() == 35 {
        assert(q == s.len() - 1);
        assert(s.drop_last() =~= s.take(q));
    } else {
        assert(q < s.len() - 1);
        let t = s.drop_last();
        assert(forall|k: int| q < k < t.len() ==> #[trigger] t[k] != 35);
        lemma_cut_last_hash(t, q);
        assert(t.take(q) =~= s.take(q));
    }
}

proof fn lemma_skip_ws(s: Seq<u8>, p: int)
    requires
        0 <= p <= s.len(),
        forall|k: int| 0 <= k < p ==> is_space(#[trigger] s[k]),
        p < s.len() ==> !is_space(s[p]),
    ensures
        skip_ws(s) == s.skip(p),
    decreases p,
{
    if p == 0 {
        assert(s.skip(0) =~= s);
    } else {
        let t = s.drop_first();
        assert(forall|k: int| 0 <= k < p - 1 ==> is_space(#[trigger] t[k]));
        lemma_skip_ws(t, p - 1);
        assert(t.skip(p - 1) =~= s.skip(p));
    }
}

proof fn lemma_token_len(s: Seq<u8>, e: int)
    requires
        0 <= e <= s.len(),
        forall|k: int| 0 <= k < e ==> !is_space(#[trigger] s[k]),
        e < s.len() ==> is_space(s[e]),
    ensures
        token_len(s) == e,
    decreases e,
{
    if e > 0 {
        let t = s.drop_first();
        assert(forall|k: int| 0 <= k < e - 1 ==> !is_space(#[trigger] t[k]));
        lemma_token_len(t, e - 1);
    }
}

// ---------------------------------------------------------------------------
// Classifying one line
// ---------------------------------------------------------------------------

/// Executable image of [`LineClass`].
enum LineAction {
    Skip,
    Assign(Def, u32),
    Fail(Def, Problem),
}

impl View for LineAction {
    type V = LineClass;

    closed spec fn view(&self) -> LineClass {
        match self {
            LineAction::Skip => LineClass::Skip,
            LineAction::Assign(d, v) => LineClass::Assign(*d, *v),
            LineAction::Fail(d, p) => LineClass::Fail(*d, p@),
        }
    }
}

/// First position at or after `start` (but before `end`) that does not hold
/// whitespace.
fn scan_ws_end(line: &Vec<u8>, start: usize, end: usize) -> (r: usize)
    requires
        start <= end && end <= line@.len(),
    ensures
        start <= r <= end,
        forall|k: int| start <= k < r ==> is_space(#[trigger] line@[k]),
        r < end ==> !is_space(line@[r as int]),
{
    let mut p = start;
    while p < end && (line[p] == 32 || line[p] == 9 || line[p] == 10 || line[p] == 12 || line[p]
        == 13)
        invariant
            start <= p <= end <= line@.len(),
            forall|k: int| start <= k < p ==> is_space(#[trigger] line@[k]),
        decreases end - p,
    {
        p += 1;
    }
    p
}

/// First position at or after `start` (but before `end`) that holds
/// whitespace.
fn scan_token_end(line: &Vec<u8>, start: usize, end: usize) -> (r: usize)
    requires
        start <= end && end <= line@.len(),
    ensures
        start <= r <= end,
        forall|k: int| start <= k < r ==> !is_space(#[trigger] line@[k]),
        r < end ==> is_space(line@[r as int]),
{
    let mut p = start;
    while p < end && !(line[p] == 32 || line[p] == 9 || line[p] == 10 || line[p] == 12 || line[p]
        == 13)
        invariant
            start <= p <= end <= line@.len(),
            forall|k: int| start <= k < p ==> !is_space(#[trigger] line@[k]),
        decreases end - p,
    {
        p += 1;
    }
    p
}

/// Which definition the key bytes `line[start..end]` name, if either.
fn match_def(line: &Vec<u8>, start: usize, end: usize) -> (d: Option<Def>)
    requires
        start <= end && end <= line@.len(),
    ensures
        match d {
            Some(Def::Min) => line@.subrange(start as int, end as int) == uid_min_key(),
            Some(Def::Max) => line@.subrange(start as int, end as int) == uid_max_key(),
            None => line@.subrange(start as int, end as int) != uid_min_key() && line@.subrange(
                start as int,
                end as int,
            ) != uid_max_key(),
        },
{
    let ghost key = line@.subrange(start as int, end as int);
    if end - start != 7 {
        proof {
            assert(key.len() != 7);
        }
        return None;
    }
    if !(line[start] == 85 && line[start + 1] == 73 && line[start + 2] == 68 && line[start + 3]
        == 95 && line[start + 4] == 77) {
        proof {
            assert(key != uid_min_key() && key != uid_max_key()) by {
                if key == uid_min_key() || key == uid_max_key() {
                    assert(key[0] == 85 && key[1] == 73 && key[2] == 68 && key[3] == 95 && key[4]
                        == 77);
                }
            }
        }
        return None;
    }
    if line[start + 5] == 73 && line[start + 6] == 78 {
        proof {
            assert(key =~= uid_min_key());
        }
        Some(Def::Min)
    } else if line[start + 5] == 65 && line[start + 6] == 88 {
        proof {
            assert(key =~= uid_max_key());
        }
        Some(Def::Max)
    } else {
        proof {
            assert(key != uid_min_key() && key != uid_max_key()) by {
                if key == uid_min_key() {
                    assert(key[5] == 73 && key[6] == 78);
                }
                if key == uid_max_key() {
                    assert(key[5] == 65 && key[6] == 88);
                }
            }
        }
        None
    }
}

/// Classifies one line of the config, tracking [`line_class`] exactly.
fn process_line(line: &Vec<u8>) -> (a: LineAction)
    ensures
        a@ == line_class(line@),
{
    let n = line.len();

    // Locate the last `#`, if any; the line is effective only up to it.
    let mut j: usize = n;
    while j > 0 && line[j - 1] != 35
        invariant
            0 <= j <= n,
            n == line@.len(),
            forall|k: int| j <= k < n ==> #[trigger] line@[k] != 35,
        decreases j,
    {
        j -= 1;
    }
    let eff_end: usize = if j == 0 {
        n
    } else {
        j - 1
    };
    proof {
        if j == 0 {
            assert(!has_hash(line@));
            assert(strip_comment(line@) =~= line@.take(eff_end as int));
        } else {
            assert(has_hash(line@));
            lemma_cut_last_hash(line@, j - 1);
        }
        assert(strip_comment(line@) == line@.take(eff_end as int));
    }
    let ghost eff = line@.take(eff_end as int);

    // Skip leading whitespace; a line with nothing left is skipped entirely.
    let p = scan_ws_end(line, 0, eff_end);
    proof {
        assert(forall|k: int| 0 <= k < p ==> is_space(#[trigger] eff[k]));
        lemma_skip_ws(eff, p as int);
        assert(skip_ws(eff) =~= line@.subrange(p as int, eff_end as int));
    }
    let ghost t = line@.subrange(p as int, eff_end as int);
    if p == eff_end {
        assert(t.len() == 0);
        return LineAction::Skip;
    }

    // The key runs to the first whitespace after it.
    let ke = scan_token_end(line, p, eff_end);
    proof {
        assert(forall|k: int| 0 <= k < ke - p ==> !is_space(#[trigger] t[k]));
        lemma_token_len(t, ke - p);
        assert(t.take(ke - p) =~= line@.subrange(p as int, ke as int));
        assert(t.skip(ke - p) =~= line@.subrange(ke as int, eff_end as int));
    }
    let def = match match_def(line, p, ke) {
        Some(d) => d,
        None => {
            return LineAction::Skip;
        },
    };
    let ghost rest = line@.subrange(ke as int, eff_end as int);

    // The value token, if any follows.
    let vp = scan_ws_end(line, ke, eff_end);
    proof {
        assert(forall|k: int| 0 <= k < vp - ke ==> is_space(#[trigger] rest[k]));
        lemma_skip_ws(rest, vp - ke);
        assert(skip_ws(rest) =~= line@.subrange(vp as int, eff_end as int));
    }
    let ghost vs = line@.subrange(vp as int, eff_end as int);
    if vp == eff_end {
        assert(vs.len() == 0);
        return LineAction::Fail(def, Problem::Empty);
    }
    let ve = scan_token_end(line, vp, eff_end);
    proof {
        assert(forall|k: int| 0 <= k < ve - vp ==> !is_space(#[trigger] vs[k]));
        lemma_token_len(vs, ve - vp);
        assert(vs.take(ve - vp) =~= line@.subrange(vp as int, ve as int));
    }

    let mut data: Vec<u8> = Vec::new();
    let mut k = vp;
    while k < ve
        invariant
            vp <= k <= ve <= line@.len(),
            data@ == line@.subrange(vp as int, k as int),
        decreases ve - k,
    {
        data.push(line[k]);
        proof {
            assert(data@ =~= line@.subrange(vp as int, k + 1));
        }
        k += 1;
    }
    assert(data@ == vs.take(ve - vp));

    match parse_uid(&data) {
        Some(v) => LineAction::Assign(def, v),
        None => LineAction::Fail(def, Problem::Invalid { data }),
    }
}

// ---------------------------------------------------------------------------
// Parsing the whole config
// ---------------------------------------------------------------------------

proof fn lemma_line_end_from_scan(s: Seq<u8>, e: int)
    requires
        0 <= e <= s.len(),
        forall|k: int| 0 <= k < e ==> #[trigger] s[k] != 10,
        e < s.len() ==> s[e] == 10,
    ensures
        line_end(s) == e,
    decreases e,
{
    if e > 0 {
        let t = s.drop_first();
        assert(forall|k: int| 0 <= k < e - 1 ==> #[trigger] t[k] != 10);
        lemma_line_end_from_scan(t, e - 1);
    }
}

/// Loads the `UID_MIN..=UID_MAX` range from the bytes of `login.defs`.
///
/// Lines apply in order and later occurrences of a key overwrite earlier
/// ones; the first malformed definition stops the parse; once the source is
/// exhausted, both definitions must have been seen.
pub fn login_defs_uid_range(content: &Vec<u8>) -> (r: Result<(u32, u32), Error>)
    ensures
        match r {
            Ok(bounds) => parse_spec(content@) == Ok::<(u32, u32), (Def, ProblemSpec)>(
                (bounds.0, bounds.1),
            ),
            Err(e) => parse_spec(content@) matches Err(dp) && e@ == ErrorSpec::InvalidDef(
                dp.0,
                dp.1,
            ),
        },
{
    let mut min: Option<u32> = None;
    let mut max: Option<u32> = None;
    let mut i: usize = 0;
    proof {
        assert(content@.skip(0) =~= content@);
    }
    while i < content.len()
        invariant
            0 <= i <= content@.len(),
            scan_lines(split_lines(content@.skip(i as int)), min, max) == parse_spec(content@),
        decreases content@.len() - i,
    {
        // The current line runs to the next newline, or to the end.
        let mut j = i;
        while j < content.len() && content[j] != 10
            invariant
                i <= j <= content@.len(),
                forall|k: int| i <= k < j ==> #[trigger] content@[k] != 10,
            decreases content@.len() - j,
        {
            j += 1;
        }
        let mut line: Vec<u8> = Vec::new();
        let mut k = i;
        while k < j
            invariant
                i <= k <= j <= content@.len(),
                line@ == content@.subrange(i as int, k as int),
            decreases j - k,
        {
            line.push(content[k]);
            proof {
                assert(line@ =~= content@.subrange(i as int, k + 1));
            }
            k += 1;
        }

        let ghost s = content@.skip(i as int);
        let ghost rest_lines = split_lines(content@.skip(
            if j < content@.len() {
                j + 1
            } else {
                j as int
            },
        ));
        proof {
            assert(forall|k: int| 0 <= k < j - i ==> #[trigger] s[k] != 10);
            lemma_line_end_from_scan(s, j - i);
            if j < content@.len() {
                assert(split_lines(s) == seq![s.take(j - i)] + split_lines(s.skip(j - i + 1)));
                assert(s.take(j - i) =~= line@);
                assert(s.skip(j - i + 1) =~= content@.skip(j + 1));
                assert(split_lines(s)[0] == line@);
                assert(split_lines(s).drop_first() =~= rest_lines);
            } else {
                assert(split_lines(s) == seq![s]);
                assert(s =~= line@);
                assert(split_lines(s)[0] == line@);
                assert(content@.skip(j as int) =~= Seq::<u8>::empty());
                assert(split_lines(s).drop_first() =~= rest_lines);
            }
        }

        match process_line(&line) {
            LineAction::Skip => {},
            LineAction::Assign(d, v) => {
                match d {
                    Def::Min => min = Some(v),
                    Def::Max => max = Some(v),
                }
            },
            LineAction::Fail(d, p) => {
                return Err(Error::InvalidDef { def: d, problem: p });
            },
        }
        i = if j < content.len() {
            j + 1
        } else {
            j
        };
    }
    proof {
        assert(content@.skip(i as int) =~= Seq::<u8>::empty());
        assert(split_lines(Seq::<u8>::empty()) =~= Seq::<Seq<u8>>::empty());
    }
    match min {
        Some(mn) => match max {
            Some(mx) => Ok((mn, mx)),
            None => Err(Error::InvalidDef { def: Def::Max, problem: Problem::Missing }),
        },
        None => Err(Error::InvalidDef { def: Def::Min, problem: Problem::Missing }),
    }
}

// ---------------------------------------------------------------------------
// Laws of the scan
// ---------------------------------------------------------------------------

/// `a`, unless it is absent, in which case `b`.
pub open spec fn or_else(a: Option<u32>, b: Option<u32>) -> Option<u32> {
    if a is Some {
        a
    } else {
        b
    }
}

/// The value that one line assigns to definition `d`, if any.
pub open spec fn line_assign(line: Seq<u8>, d: Def) -> Option<u32> {
    match line_class(line) {
        LineClass::Assign(dd, v) => if dd == d {
            Some(v)
        } else {
            None
        },
        _ => None,
    }
}

/// The value of the last line that assigns to `d`, if any line does.
pub open spec fn last_assign(lines: Seq<Seq<u8>>, d: Def) -> Option<u32>
    decreases lines.len(),
{
    if lines.len() == 0 {
        None
    } else {
        or_else(last_assign(lines.drop_first(), d), line_assign(lines[0], d))
    }
}

/// No line is a malformed definition.
pub open spec fn no_fail(lines: Seq<Seq<u8>>) -> bool {
    forall|i: int| 0 <= i < lines.len() ==> !(line_class(#[trigger] lines[i]) is Fail)
}

/// Law: when no line is malformed, the parse is determined by the last
/// assignment to each key alone — later occurrences of a duplicated key
/// overwrite earlier ones, and lines of other shapes have no effect.
pub proof fn lemma_scan_by_last_assign(lines: Seq<Seq<u8>>, min: Option<u32>, max: Option<u32>)
    requires
        no_fail(lines),
    ensures
        scan_lines(lines, min, max) == finish(
            or_else(last_assign(lines, Def::Min), min),
            or_else(last_assign(lines, Def::Max), max),
        ),
    decreases lines.len(),
{
    if lines.len() > 0 {
        let rest = lines.drop_first();
        assert(forall|i: int| 0 <= i < rest.len() ==> rest[i] == #[trigger] lines[i + 1]);
        assert(no_fail(rest));
        match line_class(lines[0]) {
            LineClass::Skip => {
                lemma_scan_by_last_assign(rest, min, max);
            },
            LineClass::Assign(d, v) => {
                lemma_scan_by_last_assign(
                    rest,
                    if d is Min {
                        Some(v)
                    } else {
                        min
                    },
                    if d is Max {
                        Some(v)
                    } else {
                        max
                    },
                );
            },
            LineClass::Fail(d, p) => {
                assert(!(line_class(lines[0]) is Fail));
            },
        }
    }
}

/// Law: for configs without malformed lines, parsing is order-independent in
/// the sense that only the last assignment to each key matters: two line
/// sequences that agree on those parse identically, wherever the lines stand.
pub proof fn lemma_parse_order_independent(a: Seq<Seq<u8>>, b: Seq<Seq<u8>>)
    requires
        no_fail(a),
        no_fail(b),
        last_assign(a, Def::Min) == last_assign(b, Def::Min),
        last_assign(a, Def::Max) == last_assign(b, Def::Max),
    ensures
        scan_lines(a, None, None) == scan_lines(b, None, None),
{
    lemma_scan_by_last_assign(a, None, None);
    lemma_scan_by_last_assign(b, None, None);
}

proof fn lemma_last_assign_none(lines: Seq<Seq<u8>>, d: Def)
    requires
        forall|i: int| 0 <= i < lines.len() ==> line_assign(#[trigger] lines[i], d) is None,
    ensures
        last_assign(lines, d) is None,
    decreases lines.len(),
{
    if lines.len() > 0 {
        let rest = lines.drop_first();
        assert(forall|i: int| 0 <= i < rest.len() ==> rest[i] == #[trigger] lines[i + 1]);
        lemma_last_assign_none(rest, d);
    }
}

/// Law: for a duplicated key, the last occurrence wins: if line `i` assigns
/// `v` to `d` and no later line assigns to `d`, the scan keeps `v` for `d`.
pub proof fn lemma_duplicate_last_wins(lines: Seq<Seq<u8>>, d: Def, i: int, v: u32)
    requires
        0 <= i < lines.len(),
        line_assign(lines[i], d) == Some(v),
        forall|j: int| i < j < lines.len() ==> line_assign(#[trigger] lines[j], d) is None,
    ensures
        last_assign(lines, d) == Some(v),
    decreases lines.len(),
{
    let rest = lines.drop_first();
    assert(forall|k: int| 0 <= k < rest.len() ==> rest[k] == #[trigger] lines[k + 1]);
    if i == 0 {
        lemma_last_assign_none(rest, d);
    } else {
        lemma_duplicate_last_wins(rest, d, i - 1, v);
    }
}

// ---------------------------------------------------------------------------
// Classification
// ---------------------------------------------------------------------------

/// Where a UID falls: root is special-cased, then the UID compares against
/// the inclusive `min..=max` range.
pub open spec fn uid_range_of(uid: u32, min: u32, max: u32) -> UidRange {
    if uid == 0 {
        UidRange::Zero
    } else if uid < min {
        UidRange::BelowMin
    } else if uid > max {
        UidRange::AboveMax
    } else {
        UidRange::InRange
    }
}

/// Places a UID relative to a parsed `UID_MIN..=UID_MAX` range.
pub fn classify_uid(uid: u32, min: u32, max: u32) -> (r: UidRange)
    ensures
        r == uid_range_of(uid, min, max),
{
    if uid == 0 {
        UidRange::Zero
    } else if uid < min {
        UidRange::BelowMin
    } else if uid > max {
        UidRange::AboveMax
    } else {
        UidRange::InRange
    }
}

/// Law: UID 0 maps to the absolute tier whatever the range holds.
pub proof fn lemma_root_absolute(min: u32, max: u32)
    ensures
        perm_of_range(uid_range_of(0, min, max)) == Permissions::Absolute,
{
}

/// Law: for a well-formed range and a nonroot UID, the tier follows the
/// UID's position relative to the range: below it is a system account,
/// inside it an ordinary user, above it a guest. (A root UID is exempt:
/// UID 0 classifies as absolute even when the range starts at 0.)
pub proof fn lemma_uid_tier(u: u32, min: u32, max: u32)
    requires
        min <= max,
        u != 0,
    ensures
        u < min ==> perm_of_range(uid_range_of(u, min, max)) == Permissions::System,
        min <= u && u <= max ==> perm_of_range(uid_range_of(u, min, max)) == Permissions::User,
        u > max ==> perm_of_range(uid_range_of(u, min, max)) == Permissions::Guest,
{
}

/// Determine [`UidRange`] from the effective UID and the bytes of
/// `/etc/login.defs`.
///
/// UID 0 is classified as [`UidRange::Zero`] outright, whatever the config
/// holds — even if it could not be read at all. Any other UID takes the
/// `UID_MIN..=UID_MAX` range parsed from `config` and is placed below,
/// inside, or above it; a parse failure propagates unchanged.
pub fn omst(uid: u32, config: &Vec<u8>) -> (r: Result<UidRange, Error>)
    ensures
        uid == 0 ==> r == Ok::<UidRange, Error>(UidRange::Zero),
        uid != 0 ==> match parse_spec(config@) {
            Ok(bounds) => r == Ok::<UidRange, Error>(uid_range_of(uid, bounds.0, bounds.1)),
            Err(dp) => r matches Err(e) && e@ == ErrorSpec::InvalidDef(dp.0, dp.1),
        },
{
    if uid == 0 {
        return Ok(UidRange::Zero);
    }
    match login_defs_uid_range(config) {
        Ok(bounds) => Ok(classify_uid(uid, bounds.0, bounds.1)),
        Err(e) => Err(e),
    }
}

} // verus!
