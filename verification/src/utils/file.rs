use vstd::prelude::*;

verus! {

/// Why a file could not be read.
#[derive(Clone, Debug)]
pub struct FileReaderError {
    msg: String,
}

impl FileReaderError {
    /// The message as a sequence of characters.
    pub closed spec fn view(&self) -> Seq<char> {
        self.msg@
    }

    /// An error with the message `msg`.
    pub fn new(msg: String) -> (e: Self)
        ensures
            e@ == msg@,
    {
        FileReaderError { msg }
    }

    /// The message of the error.
    pub fn message(&self) -> (msg: &String)
        ensures
            msg@ == self@,
    {
        &self.msg
    }
}

} // verus!
