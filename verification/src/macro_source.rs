//! Where the base source of a module override is read from.
//!
//! The override attribute names, as a string literal, the path from the
//! crate's manifest directory to the root of the sources; the base file lies
//! below that root at a path that depends on the attribute. The literal's
//! first and last characters (its quotes) are cut off.

use vstd::prelude::*;

verus! {

/// Whether `c` is encoded in one byte.
pub open spec fn is_one_byte(c: char) -> bool {
    (c as u32) < 128
}

/// Whether the quotes of `literal` can be cut off: it has at least two
/// characters, and the first and the last are one byte long each.
pub open spec fn cuttable(literal: Seq<char>) -> bool {
    &&& literal.len() >= 2
    &&& is_one_byte(literal[0])
    &&& is_one_byte(literal[literal.len() - 1])
}

/// The path of the base file: the manifest directory, a slash, the literal
/// without its first and last character, and the file's path below the root.
pub open spec fn source_path_of(manifest_dir: Seq<char>, literal: Seq<char>, file_path: Seq<char>) -> Seq<char> {
    manifest_dir + seq!['/'] + literal.subrange(1, literal.len() - 1) + file_path
}

/// Whether the quotes of `literal` can be cut off (see `cuttable`).
pub fn literal_is_cuttable(literal: &str) -> (b: bool)
    ensures
        b == cuttable(literal@),
{
    let n = literal.unicode_len();
    if n < 2 {
        return false;
    }
    let first = literal.get_char(0);
    let last = literal.get_char(n - 1);
    (first as u32) < 128 && (last as u32) < 128
}

/// The path of the base file that an override attribute with the string
/// literal `literal` reads, for the file at `file_path` below the root.
pub fn source_path(manifest_dir: &str, literal: &str, file_path: &str) -> (path: String)
    requires
        cuttable(literal@),
    ensures
        path@ == source_path_of(manifest_dir@, literal@, file_path@),
{
    let n = literal.unicode_len();
    let inner = literal.substring_char(1, n - 1);
    let mut path = String::from_str(manifest_dir);
    proof {
        reveal_strlit("/");
    }
    path.append("/");
    path.append(inner);
    path.append(file_path);
    assert(path@ =~= source_path_of(manifest_dir@, literal@, file_path@));
    path
}

} // verus!
