//! The one error of this crate: a message.
use vstd::prelude::*;
use vstd::string::StringExecFns;

verus! {

/// Why an operation gave no result, as text.
#[derive(Debug)]
pub struct Error {
    msg: String,
}

impl View for Error {
    type V = Seq<char>;

    /// The characters of the message.
    closed spec fn view(&self) -> Seq<char> {
        self.msg@
    }
}

impl Error {
    pub fn new(msg: String) -> (e: Self)
        ensures
            e@ == msg@,
    {
        Self { msg }
    }

    /// An error of reading or writing, with the system's own words for it.
    pub fn io(cause: &str) -> (e: Self)
        ensures
            e@ == "IO error: "@ + cause@,
    {
        Self { msg: String::from_str("IO error: ").concat(cause) }
    }

    /// An error in a scene file, with the reader's own words for it.
    pub fn load(cause: &str) -> (e: Self)
        ensures
            e@ == "OBJ load error: "@ + cause@,
    {
        Self { msg: String::from_str("OBJ load error: ").concat(cause) }
    }

    /// The message, as the error would print it.
    pub fn message(&self) -> (s: String)
        ensures
            s@ == self@,
    {
        self.msg.clone()
    }
}

} // verus!
