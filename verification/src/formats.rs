//! The formats of input documents, and how a file name selects one.

use crate::error::IoFailure;
use vstd::prelude::*;
use vstd::string::StrSliceExecFns;

verus! {

/// The formats that an input document can have.
#[derive(Copy, Clone, Debug, PartialEq, Eq, Structural)]
pub enum SupportedFormat {
    JSON,
    JSON5,
    TOML,
    YAML,
    Pickle,
}

/// What can go wrong when a file is converted.
#[derive(Copy, Clone, Debug, PartialEq, Eq, Structural)]
pub enum Error {
    /// A value that had to be present was missing.
    NullException,
    /// The file does not exist.
    FileNotFound,
    /// The file may not be read or written.
    PermissionDenied,
    /// Reading or writing failed in another way.
    UnknownIOError,
    /// The document could not be parsed.
    ParseFailed,
}

impl Error {
    /// The error that stands for a failure of reading or writing.
    pub fn from_io(failure: IoFailure) -> (e: Error)
        ensures
            e == match failure {
                IoFailure::NotFound => Error::FileNotFound,
                IoFailure::PermissionDenied => Error::PermissionDenied,
                IoFailure::Other => Error::UnknownIOError,
            },
    {
        match failure {
            IoFailure::NotFound => Error::FileNotFound,
            IoFailure::PermissionDenied => Error::PermissionDenied,
            IoFailure::Other => Error::UnknownIOError,
        }
    }
}

/// The part of a path after its last slash or dot; the whole path where it
/// holds neither.
pub open spec fn suffix_of(path: Seq<char>) -> Seq<char>
    decreases path.len(),
{
    if path.len() == 0 {
        Seq::empty()
    } else if path.last() == '/' || path.last() == '.' {
        Seq::empty()
    } else {
        suffix_of(path.drop_last()).push(path.last())
    }
}

/// A character with an ASCII capital turned into its small letter.
pub open spec fn lowered_char(c: char) -> char {
    if 'A' <= c <= 'Z' {
        ((c as u8) + 32) as char
    } else {
        c
    }
}

/// A text with its ASCII capitals turned into small letters.
pub open spec fn lowered(s: Seq<char>) -> Seq<char> {
    Seq::new(s.len(), |i: int| lowered_char(s[i]))
}

/// The format that a suffix selects, whatever its case: `yml` and `yaml`
/// select YAML, `json` selects JSON, any other suffix TOML.
pub open spec fn format_of(suffix: Seq<char>) -> SupportedFormat {
    if lowered(suffix) == "yml"@ || lowered(suffix) == "yaml"@ {
        SupportedFormat::YAML
    } else if lowered(suffix) == "json"@ {
        SupportedFormat::JSON
    } else {
        SupportedFormat::TOML
    }
}

/// Tells whether a text, its ASCII capitals made small, is the given text.
fn is_lowered(s: &str, target: &str) -> (r: bool)
    ensures
        r == (lowered(s@) == target@),
{
    let n = s.unicode_len();
    if n != target.unicode_len() {
        return false;
    }
    let mut i: usize = 0;
    while i < n
        invariant
            i <= n,
            n == s@.len(),
            n == target@.len(),
            forall|j: int| 0 <= j < i ==> lowered_char(s@[j]) == target@[j],
        decreases n - i,
    {
        let c = s.get_char(i);
        let l = if 'A' <= c && c <= 'Z' {
            ((c as u8) + 32) as char
        } else {
            c
        };
        if l != target.get_char(i) {
            assert(lowered(s@)[i as int] != target@[i as int]);
            return false;
        }
        i += 1;
    }
    assert(lowered(s@) =~= target@);
    true
}

/// The format that a suffix selects.
pub fn format_of_suffix(suffix: &str) -> (f: SupportedFormat)
    ensures
        f == format_of(suffix@),
{
    if is_lowered(suffix, "yml") || is_lowered(suffix, "yaml") {
        SupportedFormat::YAML
    } else if is_lowered(suffix, "json") {
        SupportedFormat::JSON
    } else {
        SupportedFormat::TOML
    }
}

/// The part of a path after its last slash or dot.
pub fn path_suffix(path: &str) -> (r: &str)
    ensures
        r@ == suffix_of(path@),
{
    let n = path.unicode_len();
    let mut i: usize = n;
    assert(path@.subrange(0, n as int) =~= path@);
    assert(path@.subrange(n as int, n as int) =~= Seq::<char>::empty());
    let mut stop = false;
    while i > 0 && !stop
        invariant
            i <= n,
            n == path@.len(),
            suffix_of(path@) == suffix_of(path@.subrange(0, i as int)) + path@.subrange(
                i as int,
                n as int,
            ),
            stop ==> suffix_of(path@.subrange(0, i as int)) == Seq::<char>::empty(),
        decreases i + (if stop { 0int } else { 1int }),
    {
        let c = path.get_char(i - 1);
        let ghost head = path@.subrange(0, i as int);
        assert(head.last() == c);
        if c == '/' || c == '.' {
            stop = true;
        } else {
            assert(head.drop_last() =~= path@.subrange(0, i - 1));
            assert(suffix_of(head.drop_last()).push(c) + path@.subrange(i as int, n as int)
                =~= suffix_of(head.drop_last()) + path@.subrange(i - 1, n as int));
            i -= 1;
        }
    }
    assert(i == 0 ==> path@.subrange(0, 0) =~= Seq::<char>::empty());
    assert(suffix_of(path@) =~= path@.subrange(i as int, n as int));
    path.substring_char(i, n)
}

/// The format of a file: that of the explicit format name where there is
/// one, else that of the suffix of the path.
pub fn detect_format(path: &str, format: Option<&str>) -> (f: SupportedFormat)
    ensures
        f == match format {
            Some(name) => format_of(name@),
            None => format_of(suffix_of(path@)),
        },
{
    match format {
        Some(name) => format_of_suffix(name),
        None => format_of_suffix(path_suffix(path)),
    }
}

} // verus!
