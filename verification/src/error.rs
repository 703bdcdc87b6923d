use vstd::prelude::*;

verus! {

/// Why a run was abandoned, with the name that it was abandoned on.
pub ghost enum Failure {
    /// The name of a referenced type that the registry lacks, or of an
    /// implemented type that has no resolved fields.
    UnresolvedType(Seq<char>),
    /// The name of an interface that waits on others, which wait as well.
    DependencyCycle(Seq<char>),
    /// The name of a field, argument or nested input field whose underlying
    /// type has no rendering in that position.
    UnsupportedFieldType(Seq<char>),
}

/// Why a run was abandoned. Every failure ends the whole run.
#[derive(Clone, Debug, PartialEq, Eq)]
pub enum FragmentGeneratorError {
    /// A referenced named type is absent from the registry, or a type names
    /// something as implemented that has no resolved fields. Holds that name.
    UnresolvedType(String),
    /// The interfaces that are still outstanding wait on one another. Holds
    /// the name of one of them.
    DependencyCycle(String),
    /// The underlying type of a field, argument or nested input field has no
    /// rendering in that position. Holds the name of the field or argument.
    UnsupportedFieldType(String),
}

impl View for FragmentGeneratorError {
    type V = Failure;

    open spec fn view(&self) -> Failure {
        match self {
            FragmentGeneratorError::UnresolvedType(name) => Failure::UnresolvedType(name@),
            FragmentGeneratorError::DependencyCycle(name) => Failure::DependencyCycle(name@),
            FragmentGeneratorError::UnsupportedFieldType(name) => Failure::UnsupportedFieldType(
                name@,
            ),
        }
    }
}

/// What a failure tells the user.
pub open spec fn message_of(failure: Failure) -> Seq<char> {
    match failure {
        Failure::UnresolvedType(name) => "Schema error: unresolved type "@ + name,
        Failure::DependencyCycle(name) => "Schema error: dependency cycle at "@ + name,
        Failure::UnsupportedFieldType(name) => "Schema error: unsupported field type of "@ + name,
    }
}

impl FragmentGeneratorError {
    /// A short description for the user: the kind of failure and the name.
    pub fn message(&self) -> (text: String)
        ensures
            text@ == message_of(self@),
    {
        match self {
            FragmentGeneratorError::UnresolvedType(name) => {
                let mut out = String::from_str("Schema error: unresolved type ");
                out.append(name.as_str());
                out
            },
            FragmentGeneratorError::DependencyCycle(name) => {
                let mut out = String::from_str("Schema error: dependency cycle at ");
                out.append(name.as_str());
                out
            },
            FragmentGeneratorError::UnsupportedFieldType(name) => {
                let mut out = String::from_str("Schema error: unsupported field type of ");
                out.append(name.as_str());
                out
            },
        }
    }
}

} // verus!
