//! Checks on user input.
use regex::Regex;
use vstd::prelude::*;
use vstd::string::StrSliceExecFns;

verus! {

/// Whether the regular expression `pattern` matches somewhere in `text`, in
/// the syntax of the regex crate; false for a pattern that is not valid.
pub uninterp spec fn regex_matches(pattern: Seq<char>, text: Seq<char>) -> bool;

/// Relies on regex's `Regex::new` to compile `pattern` and on
/// `Regex::is_match` to search `text` with it.
#[verifier::external_body]
fn regex_is_match(pattern: &str, text: &str) -> (r: bool)
    ensures
        r == regex_matches(pattern@, text@),
{
    match Regex::new(pattern) {
        Ok(re) => re.is_match(text),
        Err(_) => false,
    }
}

/// Whether `email` has the shape of an email address: a local part of
/// letters, digits and `._%+-`, an `@`, a domain of letters, digits and
/// `.-`, and a final dot-separated label of at least two letters.
pub fn is_valid_email(email: &str) -> (r: bool)
    ensures
        r == regex_matches("^[a-zA-Z0-9._%+-]+@[a-zA-Z0-9.-]+\\.[a-zA-Z]{2,}$"@, email@),
{
    regex_is_match("^[a-zA-Z0-9._%+-]+@[a-zA-Z0-9.-]+\\.[a-zA-Z]{2,}$", email)
}

/// Whether `address` is an EVM address: `0x` followed by forty hexadecimal
/// digits.
pub fn is_valid_evm_address(address: &str) -> (r: bool)
    ensures
        r == regex_matches("^0x[a-fA-F0-9]{40}$"@, address@),
{
    regex_is_match("^0x[a-fA-F0-9]{40}$", address)
}

pub open spec fn is_ascii_uppercase(c: char) -> bool {
    'A' <= c && c <= 'Z'
}

/// A password is valid when it takes 8 to 32 bytes and holds an ASCII
/// uppercase letter.
pub open spec fn valid_password(p: &str) -> bool {
    &&& 8 <= p.len() <= 32
    &&& exists|i: int| 0 <= i < p@.len() && is_ascii_uppercase(#[trigger] p@[i])
}

/// Whether `password` takes 8 to 32 bytes and holds an ASCII uppercase
/// letter.
pub fn is_valid_password(password: &str) -> (r: bool)
    ensures
        r == valid_password(password),
{
    let len = password.len();
    if len < 8 || len > 32 {
        return false;
    }
    let n = password.unicode_len();
    let mut i: usize = 0;
    while i < n
        invariant
            n == password@.len(),
            i <= n,
            8 <= password.len() <= 32,
            forall|j: int| 0 <= j < i ==> !is_ascii_uppercase(#[trigger] password@[j]),
        decreases n - i,
    {
        let c = password.get_char(i);
        if 'A' <= c && c <= 'Z' {
            assert(is_ascii_uppercase(password@[i as int]));
            return true;
        }
        i = i + 1;
    }
    false
}

/// The loose shape check of a `YYYY-MM-DD` date: ten bytes holding a dash.
pub open spec fn valid_date_shape(s: &str) -> bool {
    &&& s.len() == 10
    &&& exists|i: int| 0 <= i < s@.len() && #[trigger] s@[i] == '-'
}

/// Whether `date` takes ten bytes and holds a dash, the loose shape of a
/// `YYYY-MM-DD` date.
pub fn is_valid_date(date: &str) -> (r: bool)
    ensures
        r == valid_date_shape(date),
{
    if date.len() != 10 {
        return false;
    }
    let n = date.unicode_len();
    let mut i: usize = 0;
    while i < n
        invariant
            n == date@.len(),
            i <= n,
            date.len() == 10,
            forall|j: int| 0 <= j < i ==> #[trigger] date@[j] != '-',
        decreases n - i,
    {
        if date.get_char(i) == '-' {
            assert(date@[i as int] == '-');
            return true;
        }
        i = i + 1;
    }
    false
}

} // verus!
