//! Pre-flight validation of file and folder names before they reach the
//! Graph API.

use vstd::prelude::*;
use crate::text::{chars_of, extend_str, string_of};

verus! {

/// Longest name accepted, in characters.
pub const MAX_NAME_LENGTH: usize = 400;

/// Characters OneDrive and SharePoint refuse in names.
pub open spec fn is_invalid_name_char(c: char) -> bool {
    c == '\\' || c == '/' || c == ':' || c == '*' || c == '?' || c == '"' || c == '<' || c == '>'
        || c == '|'
}

/// Index of the first refused character of `s`, if any.
pub open spec fn first_invalid_char(s: Seq<char>) -> Option<int> {
    if exists|i: int| 0 <= i < s.len() && is_invalid_name_char(#[trigger] s[i]) {
        Some(
            choose|i: int|
                0 <= i < s.len() && is_invalid_name_char(#[trigger] s[i]) && forall|j: int|
                    0 <= j < i ==> !is_invalid_name_char(#[trigger] s[j]),
        )
    } else {
        None
    }
}

/// The outcome of validating `name`.
pub open spec fn name_check(name: Seq<char>) -> Result<(), Seq<char>> {
    if name.len() == 0 {
        Err("File name cannot be empty"@)
    } else if name.len() > 400 {
        Err("File name must be 400 characters or fewer"@)
    } else {
        match first_invalid_char(name) {
            Some(i) => Err("File name contains invalid character: "@.push(name[i])),
            None => Ok(()),
        }
    }
}

fn is_invalid_char(c: char) -> (b: bool)
    ensures
        b == is_invalid_name_char(c),
{
    c == '\\' || c == '/' || c == ':' || c == '*' || c == '?' || c == '"' || c == '<' || c == '>'
        || c == '|'
}

/// Validate a file or folder name against the OneDrive/SharePoint naming
/// rules: between 1 and 400 characters, none of `\ / : * ? " < > |`.
/// The error names the first refused character.
pub fn validate_file_name(name: &str) -> (r: Result<(), String>)
    ensures
        match r {
            Ok(()) => name_check(name@) == Ok::<(), Seq<char>>(()),
            Err(msg) => name_check(name@) == Err::<(), Seq<char>>(msg@),
        },
{
    let v = chars_of(name);
    if v.len() == 0 {
        return Err("File name cannot be empty".to_owned());
    }
    if v.len() > MAX_NAME_LENGTH {
        return Err("File name must be 400 characters or fewer".to_owned());
    }
    let mut i: usize = 0;
    while i < v.len()
        invariant
            i <= v.len(),
            v@ == name@,
            v.len() > 0,
            v.len() <= 400,
            forall|j: int| 0 <= j < i ==> !is_invalid_name_char(#[trigger] v@[j]),
        decreases v.len() - i,
    {
        if is_invalid_char(v[i]) {
            let mut out: Vec<char> = Vec::new();
            extend_str(&mut out, "File name contains invalid character: ");
            out.push(v[i]);
            proof {
                assert(is_invalid_name_char(name@[i as int]));
                let w = choose|k: int|
                    0 <= k < name@.len() && is_invalid_name_char(#[trigger] name@[k]) && forall|
                        j: int,
                    |
                        0 <= j < k ==> !is_invalid_name_char(#[trigger] name@[j]);
                assert(0 <= i < name@.len() && is_invalid_name_char(name@[i as int]));
                if w < i {
                    assert(!is_invalid_name_char(v@[w]));
                } else if w > i {
                    assert(!is_invalid_name_char(name@[i as int]));
                }
                assert(w == i);
                assert(out@ =~= "File name contains invalid character: "@.push(name@[i as int]));
            }
            return Err(string_of(out.as_slice()));
        }
        i = i + 1;
    }
    Ok(())
}

} // verus!
