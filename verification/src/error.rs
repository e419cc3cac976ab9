//! What can go wrong.
use vstd::prelude::*;
use vstd::string::*;

use crate::model::manifest::SourceLocation;

verus! {

/// An error with its place in the repository.
#[derive(Debug, PartialEq)]
pub struct Diagnostic {
    /// What went wrong
    pub message: String,
    /// Where
    pub primary: Option<SourceLocation>,
    /// The line at that place
    pub source_line: Option<String>,
    /// The places that led there
    pub user_frames: Vec<SourceLocation>,
    /// What else is worth knowing
    pub notes: Vec<String>,
    /// The error underneath
    pub underlying: Option<String>,
}

/// Everything that can go wrong.
#[derive(Debug, PartialEq)]
pub enum WombatError {
    /// The repository or the command line asks for something that cannot be
    Configuration(String),
    /// Stored state does not hold together
    CorruptState(String),
    /// The operation is not allowed
    Policy(String),
    /// A process failed
    Process(String),
    /// What should always hold does not
    Invariant(String),
    /// Something is no JSON
    Json(String),
    /// Lua refused a conversion
    Lua(String),
    /// The file system refused an operation
    Io(String),
    /// An error with its place in the repository
    Located(Diagnostic),
    /// The help of the project was asked for
    ProjectHelpRequested,
}

/// An error and what is to be said of what was going on.
#[derive(Debug, PartialEq)]
pub struct Noted {
    /// The error
    pub error: WombatError,
    /// What is to be said
    pub note: Option<String>,
}

/// The result of an operation that can go wrong.
pub type Result<T> = std::result::Result<T, WombatError>;

/// A configuration error with this message.
pub open spec fn is_configuration(error: WombatError, message: Seq<char>) -> bool {
    error matches WombatError::Configuration(m) && m@ == message
}

/// An error about stored state with this message.
pub open spec fn is_corrupt_state(error: WombatError, message: Seq<char>) -> bool {
    error matches WombatError::CorruptState(m) && m@ == message
}

/// A refused operation with this message.
pub open spec fn is_policy(error: WombatError, message: Seq<char>) -> bool {
    error matches WombatError::Policy(m) && m@ == message
}

/// A failed process with this message.
pub open spec fn is_process(error: WombatError, message: Seq<char>) -> bool {
    error matches WombatError::Process(m) && m@ == message
}

/// A refused conversion with this message.
pub open spec fn is_lua(error: WombatError, message: Seq<char>) -> bool {
    error matches WombatError::Lua(m) && m@ == message
}

/// What goes wrong, and how it is reported.
pub enum Problem {
    /// A configuration error
    Configuration(Seq<char>),
    /// A refused conversion
    Lua(Seq<char>),
    /// A refused operation of the file system
    Io(Seq<char>),
    /// Stored state that does not hold together
    Corrupt(Seq<char>),
    /// An error that is handed on
    Given(WombatError),
}

/// A broken invariant with this message.
pub open spec fn is_invariant(error: WombatError, message: Seq<char>) -> bool {
    error matches WombatError::Invariant(m) && m@ == message
}

/// Whether an error reports this problem.
pub open spec fn fails_with(error: WombatError, problem: Problem) -> bool {
    match problem {
        Problem::Configuration(message) => is_configuration(error, message),
        Problem::Lua(message) => is_lua(error, message),
        Problem::Io(message) => error matches WombatError::Io(m) && m@ == message,
        Problem::Corrupt(message) => is_corrupt_state(error, message),
        Problem::Given(given) => error == given,
    }
}

/// Stored state that does not hold together, where the condition holds.
pub open spec fn corrupt_if(condition: bool, message: Seq<char>) -> Option<Problem> {
    if condition {
        Some(Problem::Corrupt(message))
    } else {
        None
    }
}

/// What an outcome should be: success exactly where there is no problem, and
/// otherwise an error that reports the first one.
pub open spec fn settles<T>(r: Result<T>, problem: Option<Problem>) -> bool {
    match r {
        Ok(_) => problem is None,
        Err(e) => problem is Some && fails_with(e, problem->0),
    }
}

/// What an outcome should be where an error may carry a note: success exactly where there
/// is no problem, and otherwise an error that reports the first one, with this note.
pub open spec fn settles_noted<T>(
    r: std::result::Result<T, Noted>,
    problem: Option<Problem>,
    note: Option<Seq<char>>,
) -> bool {
    match r {
        Ok(_) => problem is None,
        Err(noted) => problem is Some && fails_with(noted.error, problem->0) && match noted.note {
            Some(text) => note == Some(text@),
            None => note is None,
        },
    }
}

/// An error without a note.
pub fn unnoted<T>(r: Result<T>) -> (noted: std::result::Result<T, Noted>)
    ensures
        match r {
            Ok(value) => noted is Ok && noted->Ok_0 == value,
            Err(error) => noted is Err && noted->Err_0.error == error && noted->Err_0.note is None,
        },
{
    match r {
        Ok(value) => Ok(value),
        Err(error) => Err(Noted { error, note: None }),
    }
}

/// A configuration problem.
pub open spec fn configured(problem: Option<Seq<char>>) -> Option<Problem> {
    match problem {
        Some(message) => Some(Problem::Configuration(message)),
        None => None,
    }
}

/// The first of two problems.
pub open spec fn either(a: Option<Problem>, b: Option<Problem>) -> Option<Problem> {
    if a is Some {
        a
    } else {
        b
    }
}

/// What an outcome should be: success exactly where there is no problem, and
/// otherwise a configuration error that names the first problem.
pub open spec fn reports<T>(r: Result<T>, problem: Option<Seq<char>>) -> bool {
    match r {
        Ok(_) => problem is None,
        Err(e) => problem is Some && is_configuration(e, problem->0),
    }
}

/// The first of two problems.
pub open spec fn first(a: Option<Seq<char>>, b: Option<Seq<char>>) -> Option<Seq<char>> {
    if a is Some {
        a
    } else {
        b
    }
}

/// A problem, where the condition holds.
pub open spec fn problem_if(condition: bool, message: Seq<char>) -> Option<Seq<char>> {
    if condition {
        Some(message)
    } else {
        None
    }
}

/// The first problem that one of the items has.
pub open spec fn first_among(
    items: Seq<Seq<char>>,
    problem: spec_fn(Seq<char>) -> Option<Seq<char>>,
) -> Option<Seq<char>>
    decreases items.len(),
{
    if items.len() == 0 {
        None
    } else {
        first(first_among(items.drop_last(), problem), problem(items.last()))
    }
}

/// A problem of a prefix is the first problem of the whole.
pub proof fn lemma_first_among(
    items: Seq<Seq<char>>,
    problem: spec_fn(Seq<char>) -> Option<Seq<char>>,
    count: int,
)
    requires
        0 <= count <= items.len(),
    ensures
        first_among(items.take(count), problem) is Some ==> first_among(items, problem)
            == first_among(items.take(count), problem),
    decreases items.len() - count,
{
    if count < items.len() {
        lemma_first_among(items, problem, count + 1);
        assert(items.take(count + 1).drop_last() =~= items.take(count));
    } else {
        assert(items.take(count) =~= items);
    }
}

impl WombatError {
    /// A configuration error.
    pub fn configuration(message: &str) -> (r: WombatError)
        ensures
            is_configuration(r, message@),
    {
        WombatError::Configuration(message.to_owned())
    }

    /// What the error says.
    pub open spec fn message(self) -> Seq<char> {
        match self {
            WombatError::Configuration(m) => m@,
            WombatError::CorruptState(m) => m@,
            WombatError::Policy(m) => m@,
            WombatError::Process(m) => m@,
            WombatError::Invariant(m) => m@,
            WombatError::Json(m) => m@,
            WombatError::Lua(m) => m@,
            WombatError::Io(m) => m@,
            WombatError::Located(d) => d.message@,
            WombatError::ProjectHelpRequested => "project help was requested"@,
        }
    }

    /// What the error says.
    pub fn text(&self) -> (r: String)
        ensures
            r@ == self.message(),
    {
        match self {
            WombatError::Configuration(m) => m.clone(),
            WombatError::CorruptState(m) => m.clone(),
            WombatError::Policy(m) => m.clone(),
            WombatError::Process(m) => m.clone(),
            WombatError::Invariant(m) => m.clone(),
            WombatError::Json(m) => m.clone(),
            WombatError::Lua(m) => m.clone(),
            WombatError::Io(m) => m.clone(),
            WombatError::Located(d) => d.message.clone(),
            WombatError::ProjectHelpRequested => "project help was requested".to_owned(),
        }
    }
}

impl Diagnostic {
    /// A diagnostic with nothing but its message.
    pub fn new(message: &str) -> (r: Diagnostic)
        ensures
            r.message@ == message@,
            r.primary is None,
            r.source_line is None,
            r.user_frames@.len() == 0,
            r.notes@.len() == 0,
            r.underlying is None,
    {
        Diagnostic {
            message: message.to_owned(),
            primary: None,
            source_line: None,
            user_frames: Vec::new(),
            notes: Vec::new(),
            underlying: None,
        }
    }
}

} // verus!
