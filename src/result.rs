use vstd::prelude::*;

verus! {

/// The status code the engine reports when the last call succeeded.
pub const SQLITE_OK: i32 = 0;

/// Everything that can go wrong in this library.
#[derive(Debug)]
pub enum Error {
    /// The engine reported a failure: its numeric code and, where it gave one, its message.
    Sqlite { code: Option<isize>, message: Option<String> },
    /// A text handed to the engine holds a NUL character at this character position.
    NulError { position: usize },
    /// A query expected to yield a row yielded none.
    NoRows,
    /// The engine reported a storage class outside the five known ones.
    UnknownColumnType { type_code: i32 },
    /// A text column held bytes that are not UTF-8.
    InvalidText,
    /// An integer column held a value outside the range of the requested type.
    OutOfRange,
    /// A statement kept yielding rows past the largest count the library can track.
    StepLimit,
}

pub type Result<T> = core::result::Result<T, Error>;

/// Turns the engine's last status into a result: success exactly when the code says so,
/// otherwise the code and message as reported.
pub fn status_result(code: i32, message: Option<String>) -> (r: Result<()>)
    ensures
        r is Ok <==> code == SQLITE_OK,
        r is Err ==> r == Err::<(), Error>(Error::Sqlite { code: Some(code as isize), message }),
{
    if code == SQLITE_OK {
        Ok(())
    } else {
        Err(Error::Sqlite { code: Some(code as isize), message })
    }
}


/// Checks that a text can cross the engine's NUL-terminated text boundary.
pub fn check_text(text: &str) -> (r: Result<()>)
    ensures
        r is Ok <==> !has_nul(text@),
        r is Err ==> (exists|p: usize| r == Err::<(), Error>(Error::NulError { position: p })
            && p < text@.len() && text@[p as int] == '\0'
            && forall|j: int| 0 <= j < p ==> text@[j] != '\0'),
{
    let n = text.unicode_len();
    let mut i: usize = 0;
    while i < n
        invariant
            n == text@.len(),
            i <= n,
            forall|j: int| 0 <= j < i ==> text@[j] != '\0',
        decreases n - i,
    {
        if text.get_char(i) == '\0' {
            return Err(Error::NulError { position: i });
        }
        i = i + 1;
    }
    Ok(())
}

/// Whether `s` holds a NUL character.
pub open spec fn has_nul(s: Seq<char>) -> bool {
    exists|i: int| 0 <= i < s.len() && s[i] == '\0'
}

} // verus!

verus! {

/// Whether `e` is a failure that the engine reported with a non-success code.
pub open spec fn engine_failure(e: Error) -> bool {
    e matches Error::Sqlite { code: Some(c), .. } && c != SQLITE_OK as isize
}

/// Whether `e` is a failure that decoding a column may give: the engine's, text
/// that is not UTF-8, or an integer out of range.
pub open spec fn decode_failure(e: Error) -> bool {
    engine_failure(e) || e is InvalidText || e is OutOfRange
}

} // verus!
