//! Failures of include-directory discovery.
use vstd::prelude::*;
use vstd::string::StringExecFns;

verus! {

/// Why no list of include directories could be produced.
#[derive(Debug, PartialEq, Eq)]
pub enum IncludeDirsError {
    /// The environment variable that lists the directories is not set.
    EnvironmentVariableMissing,
    /// The compiler could not be started; holds the system's description.
    CompilerLaunchFailed(String),
    /// The compiler's output held no directory.
    NoIncludeDirectoriesFound,
}

impl IncludeDirsError {
    /// The human-readable description of the failure.
    pub open spec fn message_spec(&self) -> Seq<char> {
        match self {
            IncludeDirsError::EnvironmentVariableMissing => "INCLUDE environment variable not set"@,
            IncludeDirsError::CompilerLaunchFailed(e) => "Failed to execute compiler: "@ + e@,
            IncludeDirsError::NoIncludeDirectoriesFound => "No include directories found in compiler output"@,
        }
    }

    /// The human-readable description of the failure.
    pub fn message(&self) -> (r: String)
        ensures
            r@ == self.message_spec(),
    {
        match self {
            IncludeDirsError::EnvironmentVariableMissing => "INCLUDE environment variable not set".to_owned(),
            IncludeDirsError::CompilerLaunchFailed(e) => {
                let mut m = "Failed to execute compiler: ".to_owned();
                m.append(e.as_str());
                m
            },
            IncludeDirsError::NoIncludeDirectoriesFound => "No include directories found in compiler output".to_owned(),
        }
    }
}

} // verus!
