use vstd::prelude::*;

use crate::error::AppError;

verus! {

pub const DEFAULT_DELIMITER: char = '\t';

pub const DELIMITER_NOT_BYTE_MESSAGE: &'static str = "Delimiter must be a single-byte character";

/// What `str::to_uppercase` returns for `s`.
pub uninterp spec fn upper_of(s: Seq<char>) -> Seq<char>;

/// Relies on `str::to_uppercase`: the upper-case form of the file name,
/// a function of its characters alone.
#[verifier::external_body]
fn to_upper(s: &str) -> (r: String)
    ensures
        r@ == upper_of(s@),
{
    s.to_uppercase()
}

pub open spec fn ends_with(s: Seq<char>, suffix: Seq<char>) -> bool {
    suffix.len() <= s.len() && s.skip(s.len() - suffix.len()) == suffix
}

/// The delimiter that an upper-case file name implies, if any.
pub open spec fn delimiter_for_upper(upper: Seq<char>) -> Option<char> {
    if ends_with(upper, ".CSV"@) {
        Some(',')
    } else if ends_with(upper, ".TSV"@) {
        Some('\t')
    } else if ends_with(upper, ".PSV"@) {
        Some('|')
    } else {
        None
    }
}

/// The delimiter as a byte, or the error for a character wider than one.
pub open spec fn delimiter_byte(c: char) -> Result<u8, Seq<char>> {
    if (c as u32) < 256 {
        Ok((c as u32) as u8)
    } else {
        Err(DELIMITER_NOT_BYTE_MESSAGE@)
    }
}

/// The delimiter of a run: the one given, else the one that the file name
/// implies, else a tab.
pub open spec fn chosen_delimiter(filename: Option<Seq<char>>, passed: Option<char>) -> char {
    match passed {
        Some(d) => d,
        None => match filename {
            Some(f) => match delimiter_for_upper(upper_of(f)) {
                Some(d) => d,
                None => DEFAULT_DELIMITER,
            },
            None => DEFAULT_DELIMITER,
        },
    }
}

fn ends_with_exec(s: &str, suffix: &str) -> (r: bool)
    ensures
        r == ends_with(s@, suffix@),
{
    let n = s.unicode_len();
    let m = suffix.unicode_len();
    if m > n {
        return false;
    }
    let mut i: usize = 0;
    while i < m
        invariant
            n == s@.len(),
            m == suffix@.len(),
            m <= n,
            i <= m,
            forall|j: int| 0 <= j < i ==> s@[n - m + j] == suffix@[j],
        decreases m - i,
    {
        if s.get_char(n - m + i) != suffix.get_char(i) {
            assert(s@.skip(n - m)[i as int] != suffix@[i as int]);
            return false;
        }
        i = i + 1;
    }
    assert(s@.skip(n - m) =~= suffix@);
    true
}

/// The delimiter that an upper-case file name implies: `,` for `.CSV`,
/// tab for `.TSV`, `|` for `.PSV`.
pub fn get_delimiter_from_upper(upper: &str) -> (r: Option<char>)
    ensures
        r == delimiter_for_upper(upper@),
{
    if ends_with_exec(upper, ".CSV") {
        Some(',')
    } else if ends_with_exec(upper, ".TSV") {
        Some('\t')
    } else if ends_with_exec(upper, ".PSV") {
        Some('|')
    } else {
        None
    }
}

/// The delimiter that a file name implies, its case ignored.
pub fn get_delimiter_from_filename(filename: &str) -> (r: Option<char>)
    ensures
        r == delimiter_for_upper(upper_of(filename@)),
{
    let upper = to_upper(filename);
    get_delimiter_from_upper(upper.as_str())
}

/// The given delimiter, or a tab, as a byte.
pub fn get_delimiter_u8(delimiter: Option<char>) -> (r: Result<u8, AppError>)
    ensures
        match delimiter_byte(
            match delimiter {
                Some(d) => d,
                None => DEFAULT_DELIMITER,
            },
        ) {
            Ok(b) => r is Ok && r->Ok_0 == b,
            Err(e) => r is Err && r->Err_0@ == e,
        },
{
    let c = match delimiter {
        Some(d) => d,
        None => DEFAULT_DELIMITER,
    };
    let v = c as u32;
    if v < 256 {
        Ok(v as u8)
    } else {
        Err(AppError::new(DELIMITER_NOT_BYTE_MESSAGE))
    }
}

/// The input delimiter of a run, as a byte.
pub fn get_delimiter(filename_option: &Option<String>, passed_delimiter: &Option<char>) -> (r: Result<
    u8,
    AppError,
>)
    ensures
        match delimiter_byte(
            chosen_delimiter(
                match filename_option {
                    Some(f) => Some(f@),
                    None => None,
                },
                *passed_delimiter,
            ),
        ) {
            Ok(b) => r is Ok && r->Ok_0 == b,
            Err(e) => r is Err && r->Err_0@ == e,
        },
{
    let d = match passed_delimiter {
        Some(d) => Some(*d),
        None => match filename_option {
            Some(f) => get_delimiter_from_filename(f.as_str()),
            None => None,
        },
    };
    get_delimiter_u8(d)
}

} // verus!
