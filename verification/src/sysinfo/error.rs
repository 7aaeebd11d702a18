//! Errors of the system information readers.
use vstd::prelude::*;
use crate::text::{append_str, CharErrorKind, IntErrorKind};

verus! {

/// The standard library's I/O error, carried unchanged.
#[verifier::external_type_specification]
#[verifier::external_body]
pub struct ExIoError(std::io::Error);

/// Error of the system information readers.
#[derive(Debug)]
pub enum Error {
    /// An error reported by the operating system.
    Os(std::io::Error),
    /// An error found by the readers themselves.
    Internal(InnerError),
}

/// Error found by the system information readers.
#[derive(Debug, PartialEq, Eq)]
pub enum InnerError {
    CreateQueryFailed,
    AddCounterFailed,
    UpdateQueryFailed,
    CannotConvert,
    GetVolumeInfoFailed,
    GetDiskFreeSpaceFailed,
    NotEnoughMemory,
    GetAdaptersAddressesFailed,
    GetIPAddressFailed,
    GetMemoryFailed,
    GetProcessesFailed,
    NotFound,
    Overflow,
    ParseIntError,
    LenSizeError,
    ReadError(String),
}

/// The text of an inner error.
pub open spec fn inner_error_text(e: InnerError) -> Seq<char> {
    match e {
        InnerError::CreateQueryFailed => "Creates query failed"@,
        InnerError::AddCounterFailed => "Adds counter failed"@,
        InnerError::UpdateQueryFailed => "Updates query failed"@,
        InnerError::CannotConvert => "Cannot convert number to DriveType"@,
        InnerError::GetVolumeInfoFailed => "Gets volume info failed"@,
        InnerError::GetDiskFreeSpaceFailed => "Gets disk free space failed"@,
        InnerError::NotEnoughMemory => "Not enough memory"@,
        InnerError::GetAdaptersAddressesFailed => "Gets adapters addresses failed"@,
        InnerError::GetIPAddressFailed => "Gets ip address failed"@,
        InnerError::GetMemoryFailed => "Gets memory status failed"@,
        InnerError::GetProcessesFailed => "Gets processed information failed"@,
        InnerError::NotFound => "NotFound"@,
        InnerError::Overflow => "Overflow"@,
        InnerError::ParseIntError => "ParseIntError"@,
        InnerError::LenSizeError => "Parts len less than 2"@,
        InnerError::ReadError(content) => content@,
    }
}

impl InnerError {
    /// The text that describes the error.
    pub fn as_str(&self) -> (s: &str)
        ensures
            s@ == inner_error_text(*self),
    {
        match self {
            InnerError::CreateQueryFailed => "Creates query failed",
            InnerError::AddCounterFailed => "Adds counter failed",
            InnerError::UpdateQueryFailed => "Updates query failed",
            InnerError::CannotConvert => "Cannot convert number to DriveType",
            InnerError::GetVolumeInfoFailed => "Gets volume info failed",
            InnerError::GetDiskFreeSpaceFailed => "Gets disk free space failed",
            InnerError::NotEnoughMemory => "Not enough memory",
            InnerError::GetAdaptersAddressesFailed => "Gets adapters addresses failed",
            InnerError::GetIPAddressFailed => "Gets ip address failed",
            InnerError::GetMemoryFailed => "Gets memory status failed",
            InnerError::GetProcessesFailed => "Gets processed information failed",
            InnerError::NotFound => "NotFound",
            InnerError::Overflow => "Overflow",
            InnerError::ParseIntError => "ParseIntError",
            InnerError::LenSizeError => "Parts len less than 2",
            InnerError::ReadError(content) => content.as_str(),
        }
    }
}

/// Debug text of the standard library's integer parse error of the given kind.
pub open spec fn int_error_debug(k: IntErrorKind) -> Seq<char> {
    match k {
        IntErrorKind::Empty => "ParseIntError { kind: Empty }"@,
        IntErrorKind::InvalidDigit => "ParseIntError { kind: InvalidDigit }"@,
        IntErrorKind::PosOverflow => "ParseIntError { kind: PosOverflow }"@,
    }
}

/// Debug text of the integer parse error of the given kind.
pub fn int_error_debug_str(k: IntErrorKind) -> (s: &'static str)
    ensures
        s@ == int_error_debug(k),
{
    match k {
        IntErrorKind::Empty => "ParseIntError { kind: Empty }",
        IntErrorKind::InvalidDigit => "ParseIntError { kind: InvalidDigit }",
        IntErrorKind::PosOverflow => "ParseIntError { kind: PosOverflow }",
    }
}

/// The text that the standard library's integer parse error of the given kind displays.
pub open spec fn int_error_text(k: IntErrorKind) -> Seq<char> {
    match k {
        IntErrorKind::Empty => "cannot parse integer from empty string"@,
        IntErrorKind::InvalidDigit => "invalid digit found in string"@,
        IntErrorKind::PosOverflow => "number too large to fit in target type"@,
    }
}

/// The text that the integer parse error of the given kind displays.
pub fn int_error_text_str(k: IntErrorKind) -> (s: &'static str)
    ensures
        s@ == int_error_text(k),
{
    match k {
        IntErrorKind::Empty => "cannot parse integer from empty string",
        IntErrorKind::InvalidDigit => "invalid digit found in string",
        IntErrorKind::PosOverflow => "number too large to fit in target type",
    }
}

/// The text of an error made of `head`, the display text of the integer parse error of
/// kind `k`, and `tail`.
pub open spec fn int_failure_text(head: Seq<char>, k: IntErrorKind, tail: Seq<char>) -> Seq<char> {
    head + int_error_text(k) + tail
}

/// The error `head`, the integer parse error of kind `k`, then `tail`.
pub fn int_failure(head: &str, k: IntErrorKind, tail: &str) -> (e: Error)
    ensures
        e matches Error::Internal(InnerError::ReadError(m)) && m@ == int_failure_text(
            head@,
            k,
            tail@,
        ),
{
    let mut m = String::new();
    append_str(&mut m, head);
    append_str(&mut m, int_error_text_str(k));
    append_str(&mut m, tail);
    Error::Internal(InnerError::ReadError(m))
}

/// Debug text of the standard library's character parse error of the given kind.
pub open spec fn char_error_debug(k: CharErrorKind) -> Seq<char> {
    match k {
        CharErrorKind::EmptyString => "ParseCharError { kind: EmptyString }"@,
        CharErrorKind::TooManyChars => "ParseCharError { kind: TooManyChars }"@,
    }
}

/// Debug text of the character parse error of the given kind.
pub fn char_error_debug_str(k: CharErrorKind) -> (s: &'static str)
    ensures
        s@ == char_error_debug(k),
{
    match k {
        CharErrorKind::EmptyString => "ParseCharError { kind: EmptyString }",
        CharErrorKind::TooManyChars => "ParseCharError { kind: TooManyChars }",
    }
}

/// Text of a failed read: `Get {name} {part} fail, error is {detail}.`
pub open spec fn read_error_text(name: Seq<char>, part: Seq<char>, detail: Seq<char>) -> Seq<
    char,
> {
    "Get "@ + name + " "@ + part + " fail, error is "@ + detail + "."@
}

/// The error of a failed read of `part` of `name`, whose cause is described by `detail`.
pub fn read_error(name: &str, part: &str, detail: &str) -> (e: Error)
    ensures
        e matches Error::Internal(InnerError::ReadError(m)) && m@ == read_error_text(
            name@,
            part@,
            detail@,
        ),
{
    let mut m = String::new();
    append_str(&mut m, "Get ");
    append_str(&mut m, name);
    append_str(&mut m, " ");
    append_str(&mut m, part);
    append_str(&mut m, " fail, error is ");
    append_str(&mut m, detail);
    append_str(&mut m, ".");
    proof {
        reveal_strlit("Get ");
        reveal_strlit(" ");
        reveal_strlit(" fail, error is ");
        reveal_strlit(".");
    }
    Error::Internal(InnerError::ReadError(m))
}

/// Debug text of a list of names: `["a", "b"]`.
pub open spec fn names_debug(names: Seq<Seq<char>>) -> Seq<char>
    decreases names.len(),
{
    if names.len() == 0 {
        "[]"@
    } else {
        names_debug_items(names) + "]"@
    }
}

/// `["a", "b"` without the closing bracket.
pub open spec fn names_debug_items(names: Seq<Seq<char>>) -> Seq<char>
    decreases names.len(),
{
    if names.len() == 0 {
        Seq::empty()
    } else if names.len() == 1 {
        "[\""@ + names[0] + "\""@
    } else {
        names_debug_items(names.drop_last()) + ", \""@ + names.last() + "\""@
    }
}

/// Text of a missing entry: `{names:?} is not found in {file}.`
pub open spec fn find_error_text(names: Seq<Seq<char>>, file: Seq<char>) -> Seq<char> {
    names_debug(names) + " is not found in "@ + file + "."@
}

/// The views of a list of string slices.
pub open spec fn strs_view(v: Seq<&str>) -> Seq<Seq<char>> {
    v.map_values(|x: &str| x@)
}

/// The error of entries `names` missing from `file`. The names are plain words, which
/// their debug notation quotes without escapes.
pub fn find_error(names: &Vec<&str>, file: &str) -> (e: Error)
    ensures
        e matches Error::Internal(InnerError::ReadError(m)) && m@ == find_error_text(
            strs_view(names@),
            file@,
        ),
{
    let mut m = String::new();
    let mut i: usize = 0;
    proof {
        reveal_strlit("[\"");
        reveal_strlit(", \"");
        reveal_strlit("\"");
        reveal_strlit("[]");
        reveal_strlit("]");
        reveal_strlit(" is not found in ");
        reveal_strlit(".");
    }
    while i < names.len()
        invariant
            i <= names@.len(),
            m@ == names_debug_items(strs_view(names@).subrange(0, i as int)),
        decreases names.len() - i,
    {
        let ghost before = strs_view(names@).subrange(0, i as int);
        let ghost after = strs_view(names@).subrange(0, i + 1);
        assert(after.drop_last() =~= before);
        if i == 0 {
            append_str(&mut m, "[\"");
        } else {
            append_str(&mut m, ", \"");
        }
        append_str(&mut m, names[i]);
        append_str(&mut m, "\"");
        i = i + 1;
    }
    assert(strs_view(names@).subrange(0, names@.len() as int) =~= strs_view(names@));
    if names.len() == 0 {
        append_str(&mut m, "[]");
    } else {
        append_str(&mut m, "]");
    }
    append_str(&mut m, " is not found in ");
    append_str(&mut m, file);
    append_str(&mut m, ".");
    Error::Internal(InnerError::ReadError(m))
}

} // verus!
