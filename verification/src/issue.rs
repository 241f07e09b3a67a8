//! The issues that an evaluation may raise.
use vstd::prelude::*;

verus! {

/// How serious an issue is.
#[derive(Debug, Clone, Copy, PartialEq, Eq, Structural)]
pub enum IssueSeverity {
    Error,
    Warning,
}

/// An issue that occurred while evaluating node code. `P` is the type of a
/// path, `E` that of the error.
#[derive(Debug)]
pub struct EvaluationIssue<P, E> {
    pub context_path: P,
    pub error: E,
}

impl<P: Copy, E> EvaluationIssue<P, E> {
    pub fn title(&self) -> (title: String)
        ensures
            title@ == "Error evaluating Node.js code"@,
    {
        "Error evaluating Node.js code".to_string()
    }

    pub fn category(&self) -> (category: String)
        ensures
            category@ == "build"@,
    {
        "build".to_string()
    }

    pub fn context(&self) -> (context: P)
        ensures
            context == self.context_path,
    {
        self.context_path
    }
}

/// An issue that occurred while evaluating node code: it named a file as a build
/// dependency.
#[derive(Debug)]
pub struct BuildDependencyIssue<P> {
    pub context_path: P,
    pub path: P,
}

/// The text that stands before the path in the description of a
/// [`BuildDependencyIssue`].
pub open spec fn description_before() -> Seq<char> {
    "The file at "@
}

/// The text that follows the path in the description of a
/// [`BuildDependencyIssue`].
pub open spec fn description_after() -> Seq<char> {
    " is a build dependency, which is not yet implemented.\nChanging this file or any dependency will not be recognized and might require restarting the server"@
}

impl<P: Copy> BuildDependencyIssue<P> {
    pub fn severity(&self) -> (severity: IssueSeverity)
        ensures
            severity == IssueSeverity::Warning,
    {
        IssueSeverity::Warning
    }

    pub fn title(&self) -> (title: String)
        ensures
            title@ == "Build dependencies are not yet supported"@,
    {
        "Build dependencies are not yet supported".to_string()
    }

    pub fn category(&self) -> (category: String)
        ensures
            category@ == "build"@,
    {
        "build".to_string()
    }

    pub fn context(&self) -> (context: P)
        ensures
            context == self.context_path,
    {
        self.context_path
    }

    /// The description of the issue, given how its path is displayed.
    pub fn description(&self, path: &str) -> (text: String)
        ensures
            text@ == description_before() + path@ + description_after(),
            text@ == "The file at "@ + path@
                + " is a build dependency, which is not yet implemented.\nChanging this file or any dependency will not be recognized and might require restarting the server"@,
    {
        let mut text = "The file at ".to_string();
        text.append(path);
        text.append(
            " is a build dependency, which is not yet implemented.\nChanging this file or any dependency will not be recognized and might require restarting the server",
        );
        text
    }
}


/// The description names the path as it is displayed, between two texts that do
/// not depend on it: different paths give different descriptions.
pub proof fn law_description_names_the_path(a: Seq<char>, b: Seq<char>)
    ensures
        description_before() == "The file at "@,
        description_after()
            == " is a build dependency, which is not yet implemented.\nChanging this file or any dependency will not be recognized and might require restarting the server"@,
        description_before() + a + description_after() == description_before() + b
            + description_after() <==> a == b,
{
    let x = description_before() + a + description_after();
    let y = description_before() + b + description_after();
    if x == y {
        let from = description_before().len() as int;
        let to = x.len() - description_after().len();
        assert(a =~= x.subrange(from, to));
        assert(b =~= y.subrange(from, to));
    }
}

}
