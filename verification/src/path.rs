//! Paths of files, as far as this library looks at them.

use vstd::prelude::*;

verus! {

/// A file's path: the bytes that tell it from other paths, and the name that its
/// last component spells in Unicode. Two values with the same bytes are the same
/// path.
#[derive(Debug)]
pub struct FilePath {
    identity: Vec<u8>,
    name: Option<String>,
}

impl View for FilePath {
    type V = Seq<u8>;

    /// The bytes that identify the path.
    closed spec fn view(&self) -> Seq<u8> {
        self.identity@
    }
}

/// The characters of an optional text.
pub open spec fn text_of(name: Option<String>) -> Option<Seq<char>> {
    match name {
        Some(name) => Some(name@),
        None => None,
    }
}

impl FilePath {
    /// The name of the file, where it has one that is Unicode.
    pub closed spec fn file_name(&self) -> Option<Seq<char>> {
        text_of(self.name)
    }

    /// Makes the path with the given bytes and name. Paths that are equal must be
    /// given equal bytes; `name` is `None` where the path names no file or its
    /// name is not Unicode.
    pub fn new(identity: Vec<u8>, name: Option<String>) -> (path: FilePath)
        ensures
            path@ == identity@,
            path.file_name() == text_of(name),
            name matches Some(name) ==> path.file_name() == Some(name@),
            name is None ==> path.file_name() is None,
    {
        FilePath { identity, name }
    }

    /// The name of the file, where it has one that is Unicode.
    pub fn name(&self) -> (name: Option<&str>)
        ensures
            match name {
                Some(name) => self.file_name() == Some(name@),
                None => self.file_name() is None,
            },
    {
        match &self.name {
            Some(name) => Some(name.as_str()),
            None => None,
        }
    }

    /// Whether the two paths are the same.
    pub fn same_as(&self, other: &FilePath) -> (same: bool)
        ensures
            same == (self@ == other@),
    {
        if self.identity.len() != other.identity.len() {
            return false;
        }
        let mut i: usize = 0;
        while i < self.identity.len()
            invariant
                self.identity.len() == other.identity.len(),
                forall|j: int| 0 <= j < i ==> self.identity@[j] == other.identity@[j],
            decreases self.identity.len() - i,
        {
            if self.identity[i] != other.identity[i] {
                return false;
            }
            i += 1;
        }
        assert(self.identity@ =~= other.identity@);
        true
    }
}

impl Clone for FilePath {
    fn clone(&self) -> (copy: FilePath)
        ensures
            copy@ == self@,
            copy.file_name() == self.file_name(),
    {
        let identity: Vec<u8> = self.identity.clone();
        assert(identity@ =~= self.identity@);
        let name: Option<String> = match &self.name {
            Some(name) => Some(name.clone()),
            None => None,
        };
        FilePath { identity, name }
    }
}

/// A path has the name that it was given, whatever that is, and none if it was
/// given none.
pub proof fn law_name_is_the_one_given(name: Option<String>)
    ensures
        name matches Some(name) ==> text_of(Some(name)) == Some(name@),
        text_of(None) is None,
{
}

} // verus!
