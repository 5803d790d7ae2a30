//! Names for the temporary directory and the temporary files of a run.

use vstd::prelude::*;

verus! {

/// A digit or one of the letters `a` to `f`.
pub open spec fn is_lower_hex(c: char) -> bool {
    '0' <= c <= '9' || 'a' <= c <= 'f'
}

/// `s` is written like a UUID: 36 characters, hyphens at four fixed
/// places and lower-case hexadecimal digits everywhere else.
pub open spec fn is_uuid_text(s: Seq<char>) -> bool {
    &&& s.len() == 36
    &&& forall|i: int|
        0 <= i < 36 ==> if i == 8 || i == 13 || i == 18 || i == 23 {
            s[i] == '-'
        } else {
            is_lower_hex(#[trigger] s[i])
        }
}

/// A name that was not handed out before, as far as chance allows.
///
/// Calls `Uuid::new_v4` of the crate `uuid` and writes the result out with
/// its `Display`, which gives the hyphenated lower-case form. The value is
/// random, so the contract states only the shape that every outcome has.
#[verifier::external_body]
fn random_name() -> (name: String)
    ensures
        is_uuid_text(name@),
{
    uuid::Uuid::new_v4().to_string()
}

/// Knows the directory in which the temporary files of a run are made.
#[derive(Debug)]
pub struct FileManager {
    temporary_directory: String,
}

impl FileManager {
    /// A manager of the directory `temporary_directory`.
    pub fn new(temporary_directory: String) -> (manager: Self)
        ensures
            manager.directory() == temporary_directory@,
    {
        Self { temporary_directory }
    }

    /// The directory's name, as characters.
    pub closed spec fn directory(&self) -> Seq<char> {
        self.temporary_directory@
    }

    /// The directory's name.
    pub fn temporary_directory(&self) -> (name: &String)
        ensures
            name@ == self.directory(),
    {
        &self.temporary_directory
    }

    /// A fresh name for a file in the directory.
    pub fn temporary_file_name(&self) -> (name: String)
        ensures
            is_uuid_text(name@),
    {
        random_name()
    }
}

impl Default for FileManager {
    /// A manager of a directory with a fresh name.
    fn default() -> (manager: Self)
        ensures
            is_uuid_text(manager.directory()),
    {
        Self::new(random_name())
    }
}

} // verus!
