//! Errors that carry where they were raised: the name of the source file, without its
//! directories and extension, and the line.
use vstd::prelude::*;
use crate::text::{
    chars_of, decimal, decimal_chars, lemma_last_index_bounds, push_all, push_str, rfind,
    rfind_char, string_of,
};

verus! {

/// The character that separates the directories of a path.
pub const PATH_SEP: char = '/';

/// Whether the name of `file` can be cut out: where it has both a separator and a dot, the
/// last dot comes after the last separator.
pub open spec fn stem_cuttable(file: Seq<char>) -> bool {
    rfind(file, PATH_SEP) == -1 || rfind(file, '.') == -1 || rfind(file, PATH_SEP) < rfind(
        file,
        '.',
    )
}

/// The name of `file` as a location shows it: the path itself where it has no separator;
/// otherwise what follows the last separator, up to the last dot where there is one.
pub open spec fn file_stem(file: Seq<char>) -> Seq<char> {
    let start = rfind(file, PATH_SEP);
    let end = rfind(file, '.');
    if start == -1 {
        file
    } else if end == -1 {
        file.subrange(start + 1, file.len() as int)
    } else {
        file.subrange(start + 1, end)
    }
}

/// The location of an error raised at `line` of `file`: its name, then the line in
/// brackets.
pub open spec fn location_of(file: Seq<char>, line: nat) -> Seq<char> {
    file_stem(file) + seq!['('] + decimal(line) + seq![')']
}

/// `str::to_lowercase`: the lowercase form of a text.
pub uninterp spec fn lowercase(s: Seq<char>) -> Seq<char>;

/// `str::to_lowercase`.
#[verifier::external_body]
fn to_lowercase(s: &str) -> (r: String)
    ensures
        r@ == lowercase(s@),
{
    s.to_lowercase()
}

/// The location of an error raised at `line` and `column` of `file`, with the whole path:
/// the path, then the line and the column in brackets, split by `/`.
pub open spec fn full_location_of(file: Seq<char>, line: nat, column: nat) -> Seq<char> {
    file + seq!['('] + decimal(line) + seq!['/'] + decimal(column) + seq![')']
}

/// Decides `stem_cuttable`.
pub fn can_locate(file: &str) -> (b: bool)
    ensures
        b == stem_cuttable(file@),
{
    let path = chars_of(file);
    match rfind_char(path.as_slice(), PATH_SEP) {
        None => true,
        Some(start) => match rfind_char(path.as_slice(), '.') {
            None => true,
            Some(end) => start < end,
        },
    }
}

/// An error with the place where it was raised.
#[derive(Debug)]
pub struct ErrorWrapper<E> {
    err: E,
    location: String,
}

impl<E> ErrorWrapper<E> {
    /// The wrapped error.
    pub closed spec fn error_spec(&self) -> E {
        self.err
    }

    /// Where the error was raised.
    pub closed spec fn location_spec(&self) -> Seq<char> {
        self.location@
    }

    /// Wraps `err`, raised at `line` of `file`; the column is not shown.
    pub fn new(err: E, file: &str, line: u32, column: u32) -> (r: Self)
        requires
            stem_cuttable(file@),
        ensures
            r.error_spec() == err,
            r.location_spec() == location_of(file@, line as nat),
    {
        let path = chars_of(file);
        let mut loc: Vec<char> = Vec::new();
        match rfind_char(path.as_slice(), PATH_SEP) {
            None => {
                push_all(&mut loc, path.as_slice());
            },
            Some(start) => {
                let end = match rfind_char(path.as_slice(), '.') {
                    Some(end) => end,
                    None => path.len(),
                };
                let mut i = start + 1;
                while i < end
                    invariant
                        start + 1 <= i <= end <= path@.len(),
                        loc@ == path@.subrange(start + 1, i as int),
                    decreases end - i,
                {
                    loc.push(path[i]);
                    i = i + 1;
                    assert(loc@ =~= path@.subrange(start + 1, i as int));
                }
            },
        }
        assert(loc@ == file_stem(file@));
        loc.push('(');
        let digits = decimal_chars(line as u64);
        push_all(&mut loc, digits.as_slice());
        loc.push(')');
        assert(loc@ =~= location_of(file@, line as nat));
        ErrorWrapper { err, location: string_of(loc.as_slice()) }
    }

    /// Wraps `err`, raised at `line` and `column` of `file`, with the whole path shown:
    /// the location is the path, then the line and the column in brackets, split by `/`.
    pub fn new_full_path(err: E, file: &str, line: u32, column: u32) -> (r: Self)
        ensures
            r.error_spec() == err,
            r.location_spec() == full_location_of(file@, line as nat, column as nat),
    {
        let mut loc: Vec<char> = chars_of(file);
        loc.push('(');
        let l = decimal_chars(line as u64);
        push_all(&mut loc, l.as_slice());
        loc.push('/');
        let c = decimal_chars(column as u64);
        push_all(&mut loc, c.as_slice());
        loc.push(')');
        assert(loc@ =~= full_location_of(file@, line as nat, column as nat));
        ErrorWrapper { err, location: string_of(loc.as_slice()) }
    }

    /// The wrapped error.
    pub fn error(&self) -> (r: &E)
        ensures
            *r == self.error_spec(),
    {
        &self.err
    }

    /// Where the error was raised.
    pub fn location(&self) -> (r: &str)
        ensures
            r@ == self.location_spec(),
    {
        self.location.as_str()
    }

    /// The text of the error, given the text of the wrapped error: that text, then ` at `
    /// and the location.
    pub fn describe(&self, err_text: &str) -> (r: String)
        ensures
            r@ == err_text@ + " at "@ + self.location_spec(),
    {
        let mut v: Vec<char> = chars_of(err_text);
        push_str(&mut v, " at ");
        push_str(&mut v, self.location.as_str());
        string_of(v.as_slice())
    }

    /// The text of the error under the name of its kind; the name is not shown.
    pub fn format(&self, err_text: &str, name: &str) -> (r: String)
        ensures
            r@ == err_text@ + " at "@ + self.location_spec(),
    {
        self.describe(err_text)
    }

    /// The text of the error under the name of its kind, with the prefix of that kind: the
    /// name in lower case and `-error: `, then the text and the location.
    pub fn prefixed_format(&self, err_text: &str, name: &str) -> (r: String)
        ensures
            r@ == lowercase(name@) + "-error: "@ + err_text@ + " at "@ + self.location_spec(),
    {
        let lower = to_lowercase(name);
        let mut v: Vec<char> = chars_of(lower.as_str());
        push_str(&mut v, "-error: ");
        push_str(&mut v, err_text);
        push_str(&mut v, " at ");
        push_str(&mut v, self.location.as_str());
        string_of(v.as_slice())
    }
}

/// An error that is a message.
#[derive(Debug)]
pub struct CustomMessageError {
    message: String,
}

impl CustomMessageError {
    /// The message.
    pub closed spec fn message_spec(&self) -> Seq<char> {
        self.message@
    }

    /// An error with `message`.
    pub fn new(message: String) -> (r: Self)
        ensures
            r.message_spec() == message@,
    {
        CustomMessageError { message }
    }

    /// The text of the error: its message.
    pub fn message(&self) -> (r: &str)
        ensures
            r@ == self.message_spec(),
    {
        self.message.as_str()
    }

    /// The text of the error with the prefix of messages: `custom-error: ` and the message.
    pub fn prefixed_message(&self) -> (r: String)
        ensures
            r@ == "custom-error: "@ + self.message_spec(),
    {
        let mut v: Vec<char> = chars_of("custom-error: ");
        push_str(&mut v, self.message.as_str());
        string_of(v.as_slice())
    }
}

/// The name that a location shows holds no separator.
pub proof fn law_stem_has_no_separator(file: Seq<char>)
    requires
        stem_cuttable(file),
    ensures
        forall|k: int| 0 <= k < file_stem(file).len() ==> file_stem(file)[k] != PATH_SEP,
{
    lemma_last_index_bounds(file, PATH_SEP, file.len() as int);
    lemma_last_index_bounds(file, '.', file.len() as int);
    let start = rfind(file, PATH_SEP);
    assert forall|k: int| 0 <= k < file_stem(file).len() implies file_stem(file)[k] != PATH_SEP by {
        if start >= 0 {
            assert(file_stem(file)[k] == file[start + 1 + k]);
        }
    }
}

} // verus!
