//! The command line of the client: what to do and with which file.
use vstd::prelude::*;

verus! {

/// What the client is asked to do.
#[derive(Copy, Clone, Debug, PartialEq, Eq, Structural)]
pub enum Action {
    /// Hand a file to the domain and keep its hashes in its place.
    Send,
    /// Take a file back from the domain by the hashes kept in its place.
    Receive,
}

/// The arguments of the client.
pub struct Args {
    action: Action,
    file: String,
}

impl Args {
    /// The action.
    pub closed spec fn action(self) -> Action {
        self.action
    }

    /// The path of the target file.
    pub closed spec fn file(self) -> Seq<char> {
        self.file@
    }

    /// Arguments made of an action and a file path.
    pub fn new(action: Action, file: String) -> (a: Args)
        ensures
            a.action() == action,
            a.file() == file@,
    {
        Args { action, file }
    }

    /// The action.
    pub fn get_action(&self) -> (a: Action)
        ensures
            a == self.action(),
    {
        self.action
    }

    /// The path of the target file, as text.
    pub fn get_file(&self) -> (f: String)
        ensures
            f@ == self.file(),
    {
        self.file.clone()
    }
}

} // verus!
