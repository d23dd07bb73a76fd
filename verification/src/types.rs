//! Plain data types of the library.

use vstd::prelude::*;

verus! {

/// A name bound to a value.
#[derive(Debug)]
pub struct Variable {
    pub name: String,
    pub value: String,
}

impl View for Variable {
    type V = (Seq<char>, Seq<char>);

    /// The name and the value, as character sequences.
    open spec fn view(&self) -> (Seq<char>, Seq<char>) {
        (self.name@, self.value@)
    }
}

impl Clone for Variable {
    fn clone(&self) -> (res: Self)
        ensures
            res@ == self@,
    {
        Variable { name: self.name.clone(), value: self.value.clone() }
    }
}

/// The name/value pairs of a sequence of variables, in the same order.
pub open spec fn views_of(vars: Seq<Variable>) -> Seq<(Seq<char>, Seq<char>)> {
    vars.map_values(|v: Variable| v@)
}

/// An ordered list of variables: the shape in which the global variables
/// are written out and read back.
#[derive(Debug)]
pub struct VariableSet {
    pub variables: Vec<Variable>,
}

impl View for VariableSet {
    type V = Seq<(Seq<char>, Seq<char>)>;

    /// The name/value pairs, in order.
    open spec fn view(&self) -> Seq<(Seq<char>, Seq<char>)> {
        views_of(self.variables@)
    }
}

/// What is recorded of a file to detect later changes.
#[derive(Debug)]
pub struct FileHashInfo {
    pub hash: String,
    pub modified_time: u64,
    pub file_size: u64,
}

impl Clone for FileHashInfo {
    fn clone(&self) -> (res: Self)
        ensures
            res.hash@ == self.hash@,
            res.modified_time == self.modified_time,
            res.file_size == self.file_size,
    {
        FileHashInfo {
            hash: self.hash.clone(),
            modified_time: self.modified_time,
            file_size: self.file_size,
        }
    }
}

/// The payload of the event that asks the frontend to open a file.
#[derive(Debug)]
pub struct OpenFileEvent {
    pub file_path: String,
}

impl Clone for OpenFileEvent {
    fn clone(&self) -> (res: Self)
        ensures
            res.file_path@ == self.file_path@,
    {
        OpenFileEvent { file_path: self.file_path.clone() }
    }
}

} // verus!
