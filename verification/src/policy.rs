//! Eligibility policies: which directory entries are walked, which files are
//! scanned, which candidate names are considered, and validation of the scan
//! root.

use vstd::prelude::*;

use crate::text::{contains_bytes, contains_seq};

verus! {

/// `.`, the hidden-entry marker.
pub const BYTE_DOT: u8 = 46;

/// The marker of a conventional test function name: `test_`.
pub open spec fn test_marker() -> Seq<u8> {
    seq![116u8, 101u8, 115u8, 116u8, 95u8]
}

/// The double-underscore marker: `__`.
pub open spec fn dunder_marker() -> Seq<u8> {
    seq![95u8, 95u8]
}

/// The `.py` file suffix.
pub open spec fn py_suffix() -> Seq<u8> {
    seq![46u8, 112u8, 121u8]
}

/// A candidate name is considered only when it contains neither the test
/// marker nor a double underscore, anywhere in the name.
pub open spec fn considered(name: Seq<u8>) -> bool {
    !contains_seq(name, test_marker()) && !contains_seq(name, dunder_marker())
}

/// An entry name is useful when it does not start with a dot; hidden entries
/// are skipped, pruning whole hidden directories.
pub open spec fn useful_name(name: Seq<u8>) -> bool {
    name.len() == 0 || name[0] != BYTE_DOT
}

/// A file name ends in `.py`.
pub open spec fn python_name(name: Seq<u8>) -> bool {
    &&& name.len() >= 3
    &&& name[name.len() - 3] == py_suffix()[0]
    &&& name[name.len() - 2] == py_suffix()[1]
    &&& name[name.len() - 1] == py_suffix()[2]
}

/// Test and dunder names are allowed to be "unused": they are never
/// candidates, whatever their occurrence count.
pub fn should_consider_function(name: &Vec<u8>) -> (r: bool)
    ensures
        r == considered(name@),
{
    let test_tok: Vec<u8> = vec![116u8, 101u8, 115u8, 116u8, 95u8];
    let dunder_tok: Vec<u8> = vec![95u8, 95u8];
    proof {
        assert(test_tok@ =~= test_marker());
        assert(dunder_tok@ =~= dunder_marker());
    }
    !contains_bytes(name, &test_tok) && !contains_bytes(name, &dunder_tok)
}

/// Only non-hidden entries are walked.
pub fn is_useful(name: &Vec<u8>) -> (r: bool)
    ensures
        r == useful_name(name@),
{
    name.len() == 0 || name[0] != BYTE_DOT
}

/// Anything that is a regular file and ends with `.py` counts as a Python
/// source file.
pub fn is_python_file(is_regular_file: bool, name: &Vec<u8>) -> (r: bool)
    ensures
        r == (is_regular_file && python_name(name@)),
{
    let n = name.len();
    is_regular_file && n >= 3 && name[n - 3] == 46 && name[n - 2] == 112 && name[n - 1] == 121
}

/// Failure categories of the scan.
#[derive(Clone, Copy, PartialEq, Eq, Structural, Debug)]
pub enum ScanError {
    /// The supplied root path does not exist: a usage error, raised before
    /// any scanning begins.
    PathDoesNotExist,
}

/// Relies on std::path::Path::exists, which answers whether the path named
/// the moment the call was made; nothing can be promised of the answer.
#[verifier::external_body]
fn path_exists_on_disk(s: &str) -> bool {
    std::path::Path::new(s).exists()
}

/// Decide the fate of a root path from the outcome of an existence check.
pub fn validate_root(exists: bool) -> (r: Result<(), ScanError>)
    ensures
        r is Ok <==> exists,
        r is Err ==> r->Err_0 == ScanError::PathDoesNotExist,
{
    if exists {
        Ok(())
    } else {
        Err(ScanError::PathDoesNotExist)
    }
}

/// Validates that a path exists.  The answer depends on the file system at
/// the moment of the call; whatever it is, a missing path is the only error.
pub fn path_exists(s: &str) -> (r: Result<(), ScanError>)
    ensures
        r is Err ==> r->Err_0 == ScanError::PathDoesNotExist,
{
    let e = path_exists_on_disk(s);
    validate_root(e)
}

} // verus!
