//! Where the report of an ended game is kept.

use vstd::prelude::*;

use crate::text::{append_str, chars_of, string_of};

verus! {

/// A character as it stands in a path: a blank, a hyphen and a colon each
/// become an underscore.
pub open spec fn path_char(c: char) -> char {
    if c == ' ' || c == '-' || c == ':' {
        '_'
    } else {
        c
    }
}

/// The path of a report's file: the directory of the reports, then the
/// file's name with its blanks, hyphens and colons replaced.
pub open spec fn report_path(file_name: Seq<char>) -> Seq<char> {
    "./res/games/"@ + file_name.map_values(|c: char| path_char(c))
}

/// The path under which the report with this file name is kept.
pub fn append_file_to_path(file_name: &str) -> (r: String)
    ensures
        r@ == report_path(file_name@),
{
    let name = chars_of(file_name);
    let mut out: Vec<char> = Vec::new();
    append_str(&mut out, "./res/games/");
    let ghost prefix = out@;
    let mut i: usize = 0;
    while i < name.len()
        invariant
            i <= name.len(),
            out@ == prefix + name@.take(i as int).map_values(|c: char| path_char(c)),
        decreases name.len() - i,
    {
        let c = name[i];
        assert(name@.take(i + 1).map_values(|c: char| path_char(c)) == name@.take(
            i as int,
        ).map_values(|c: char| path_char(c)).push(path_char(c)));
        if c == ' ' || c == '-' || c == ':' {
            out.push('_');
        } else {
            out.push(c);
        }
        i += 1;
    }
    assert(name@.take(name.len() as int) == name@);
    string_of(&out)
}

} // verus!
