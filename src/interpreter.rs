//! The action interpreter's working memory. Actions arrive decoded from an
//! action segment; those that need the outside world (reading a line from the
//! user, fetching documents) are handed back to the caller, which performs
//! them and stores what it got.

use vstd::prelude::*;
use crate::coordinator::Status;

verus! {

/// One action of an action segment.
#[derive(Debug)]
pub enum Action {
    Search { query: String, collection: String },
    Writetofile { filename: String, content: String },
    RetrieveDocuments,
    IndexDocuments,
    GetStdInput { prompt: String },
}

/// The actions of one action segment, in order.
#[derive(Debug)]
pub struct ThoughtActions {
    pub actions: Vec<Action>,
}

/// An entry of the interpreter's memory.
#[derive(Debug)]
pub enum MemoryItem {
    Documents(Vec<String>),
    Input(String),
}

/// What the caller must do after an action.
#[derive(Debug)]
pub enum ActionOutcome {
    /// Nothing is left to do.
    Nothing,
    /// Show the prompt, read a line from the user and store it with `store_input`.
    AskInput(String),
    /// Fetch the documents for this input and store them with `store_documents`.
    Retrieve(String),
    /// Index these documents.
    Index(Vec<String>),
}

#[derive(Clone, Copy, Debug, PartialEq, Eq, Structural)]
pub enum InterpreterError {
    /// Retrieval needs the user's input on top of memory.
    MissingInput,
    /// Indexing needs documents on top of memory.
    MissingDocuments,
}

pub struct Interpreter {
    memory: Vec<MemoryItem>,
    idle: bool,
}

impl View for Interpreter {
    type V = (Seq<MemoryItem>, bool);

    closed spec fn view(&self) -> (Seq<MemoryItem>, bool) {
        (self.memory@, self.idle)
    }
}

impl Interpreter {
    /// An idle interpreter with an empty memory.
    pub fn with() -> (r: Self)
        ensures
            r@.0.len() == 0,
            r@.1,
    {
        Interpreter { memory: Vec::new(), idle: true }
    }

    /// Carries out the memory part of `action`.
    /// - A search or a file write leaves memory as it is.
    /// - Asking for input hands the prompt to the caller.
    /// - Retrieval takes the input on top of memory and hands it to the caller;
    ///   without an input there it fails with `MissingInput`.
    /// - Indexing takes the documents on top of memory and hands them to the
    ///   caller; without documents there it fails with `MissingDocuments`.
    /// A failed action leaves memory as it was.
    pub fn apply(&mut self, action: &Action) -> (r: Result<ActionOutcome, InterpreterError>)
        ensures
            final(self)@.1 == old(self)@.1,
            match *action {
                Action::Search { .. } | Action::Writetofile { .. } => r matches Ok(
                    ActionOutcome::Nothing,
                ) && final(self)@ == old(self)@,
                Action::GetStdInput { prompt } => r matches Ok(ActionOutcome::AskInput(p)) && p
                    == prompt && final(self)@ == old(self)@,
                Action::RetrieveDocuments => if old(self)@.0.len() > 0 && old(
                    self,
                )@.0.last() is Input {
                    r matches Ok(ActionOutcome::Retrieve(q)) && MemoryItem::Input(q) == old(
                        self,
                    )@.0.last() && final(self)@.0 == old(self)@.0.drop_last()
                } else {
                    r == Err::<ActionOutcome, InterpreterError>(InterpreterError::MissingInput)
                        && final(self)@ == old(self)@
                },
                Action::IndexDocuments => if old(self)@.0.len() > 0 && old(
                    self,
                )@.0.last() is Documents {
                    r matches Ok(ActionOutcome::Index(d)) && MemoryItem::Documents(d) == old(
                        self,
                    )@.0.last() && final(self)@.0 == old(self)@.0.drop_last()
                } else {
                    r == Err::<ActionOutcome, InterpreterError>(
                        InterpreterError::MissingDocuments,
                    ) && final(self)@ == old(self)@
                },
            },
    {
        match action {
            Action::Search { .. } => Ok(ActionOutcome::Nothing),
            Action::Writetofile { .. } => Ok(ActionOutcome::Nothing),
            Action::GetStdInput { prompt } => Ok(ActionOutcome::AskInput(prompt.clone())),
            Action::RetrieveDocuments => match self.memory.pop() {
                Some(MemoryItem::Input(q)) => Ok(ActionOutcome::Retrieve(q)),
                Some(other) => {
                    self.memory.push(other);
                    proof {
                        assert(self.memory@ =~= old(self).memory@);
                    }
                    Err(InterpreterError::MissingInput)
                },
                None => Err(InterpreterError::MissingInput),
            },
            Action::IndexDocuments => match self.memory.pop() {
                Some(MemoryItem::Documents(d)) => Ok(ActionOutcome::Index(d)),
                Some(other) => {
                    self.memory.push(other);
                    proof {
                        assert(self.memory@ =~= old(self).memory@);
                    }
                    Err(InterpreterError::MissingDocuments)
                },
                None => Err(InterpreterError::MissingDocuments),
            },
        }
    }

    /// Stores the line the user entered.
    pub fn store_input(&mut self, input: String)
        ensures
            final(self)@ == (old(self)@.0.push(MemoryItem::Input(input)), old(self)@.1),
    {
        self.memory.push(MemoryItem::Input(input));
    }

    /// Stores retrieved documents.
    pub fn store_documents(&mut self, documents: Vec<String>)
        ensures
            final(self)@ == (old(self)@.0.push(MemoryItem::Documents(documents)), old(self)@.1),
    {
        self.memory.push(MemoryItem::Documents(documents));
    }

    /// Marks the interpreter busy while it carries out a segment's actions.
    pub fn begin(&mut self)
        ensures
            final(self)@ == (old(self)@.0, false),
    {
        self.idle = false;
    }

    /// Marks the interpreter idle again.
    pub fn finish(&mut self)
        ensures
            final(self)@ == (old(self)@.0, true),
    {
        self.idle = true;
    }

    pub fn status(&self) -> (r: Status)
        ensures
            r == (if self@.1 {
                Status::Idle
            } else {
                Status::Busy
            }),
    {
        if self.idle {
            Status::Idle
        } else {
            Status::Busy
        }
    }

    /// The number of entries in memory.
    pub fn memory_len(&self) -> (r: usize)
        ensures
            r == self@.0.len(),
    {
        self.memory.len()
    }
}

} // verus!
