//! File names of the file-based front end: where the converted theme goes
//! when the caller names no output file.

use crate::converter::text::str_eq;
use crate::converter::vscode::view_of;
use vstd::prelude::*;
use vstd::string::*;

verus! {

/// Whether `s` ends with `x`.
pub open spec fn has_suffix(s: Seq<char>, x: Seq<char>) -> bool {
    x.len() <= s.len() && s.skip(s.len() - x.len()) == x
}

/// `s` without its last `n` characters.
pub open spec fn without_last(s: Seq<char>, n: nat) -> Seq<char> {
    s.take(s.len() - n)
}

/// The output file that belongs to the input file `input`: the same name
/// with `.toml` in place of `.jsonc`, or else in place of `.json`. A name
/// with neither ending has none.
pub open spec fn toml_path(input: Seq<char>) -> Option<Seq<char>> {
    if has_suffix(input, ".jsonc"@) {
        Some(without_last(input, ".jsonc"@.len()) + ".toml"@)
    } else if has_suffix(input, ".json"@) {
        Some(without_last(input, ".json"@.len()) + ".toml"@)
    } else {
        None
    }
}

/// `s` without the ending `x`, if it ends with `x`.
pub fn strip_suffix<'a>(s: &'a str, x: &str) -> (r: Option<&'a str>)
    ensures
        match r {
            Some(stem) => has_suffix(s@, x@) && stem@ == without_last(s@, x@.len()),
            None => !has_suffix(s@, x@),
        },
{
    let len = s.unicode_len();
    let cut = x.unicode_len();
    if cut > len {
        return None;
    }
    let end = s.substring_char(len - cut, len);
    proof {
        assert(end@ =~= s@.skip(s@.len() - x@.len()));
    }
    if str_eq(end, x) {
        let stem = s.substring_char(0, len - cut);
        proof {
            assert(stem@ =~= without_last(s@, x@.len()));
        }
        Some(stem)
    } else {
        None
    }
}

/// The output file that belongs to the input file `input`.
pub fn default_output(input: &str) -> (r: Option<String>)
    ensures
        view_of(r) == toml_path(input@),
{
    match strip_suffix(input, ".jsonc") {
        Some(stem) => Some(stem.to_owned().concat(".toml")),
        None => match strip_suffix(input, ".json") {
            Some(stem) => Some(stem.to_owned().concat(".toml")),
            None => None,
        },
    }
}

/// The file to write: `output` where the caller names one, and otherwise
/// the output file that belongs to `input`.
pub fn output_path(input: &str, output: Option<String>) -> (r: Option<String>)
    ensures
        view_of(r) == match output {
            Some(path) => Some(path@),
            None => toml_path(input@),
        },
{
    match output {
        Some(path) => Some(path),
        None => default_output(input),
    }
}

} // verus!
