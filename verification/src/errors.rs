//! The fatal startup errors and their reported codes.
//!
//! Only four things can end a run before verification starts: the working
//! directory cannot be resolved, the lockfile cannot be opened, or either
//! root document cannot be parsed. Each carries the underlying diagnostic
//! as text and maps to its own reserved exit code.

use vstd::prelude::*;
use vstd::string::StringExecFns;

verus! {

/// Numeric code reported for an error.
pub trait ErrorCode {
    /// The code this error maps to.
    spec fn spec_error_code(&self) -> i32;

    /// Get error code for the error.
    fn error_code(&self) -> (r: i32)
        ensures
            r == self.spec_error_code(),
    ;
}

/// A fatal startup failure. The per-package descriptor failures are not
/// here: those are folded into discrepancies and never abort the run.
#[derive(Debug)]
pub enum VerifyNodeModulesError {
    CouldNotGetCwd(String),
    CouldNotOpenPackageLock(String),
    CouldNotOpenPackageJson(String),
    CouldNotParsePackageLock(String),
    CouldNotParsePackageJson(String),
}

/// The full diagnostic line for an error: a fixed heading with the
/// underlying diagnostic appended.
pub open spec fn error_message(e: VerifyNodeModulesError) -> Seq<char> {
    match e {
        VerifyNodeModulesError::CouldNotGetCwd(t) => "Could not get current working directory: "@
            + t@,
        VerifyNodeModulesError::CouldNotOpenPackageLock(t) => "Could not open package-lock.json: "@
            + t@,
        VerifyNodeModulesError::CouldNotOpenPackageJson(t) => "Could not open package.json: "@
            + t@,
        VerifyNodeModulesError::CouldNotParsePackageLock(t) => "Could not parse package-lock.json: "@
            + t@,
        VerifyNodeModulesError::CouldNotParsePackageJson(t) => "Could not parse package.json: "@
            + t@,
    }
}

impl VerifyNodeModulesError {
    /// The human-readable description of this error.
    pub fn message(&self) -> (r: String)
        ensures
            r@ == error_message(*self),
    {
        match self {
            VerifyNodeModulesError::CouldNotGetCwd(t) => {
                let mut s = "Could not get current working directory: ".to_owned();
                s.append(t.as_str());
                s
            },
            VerifyNodeModulesError::CouldNotOpenPackageLock(t) => {
                let mut s = "Could not open package-lock.json: ".to_owned();
                s.append(t.as_str());
                s
            },
            VerifyNodeModulesError::CouldNotOpenPackageJson(t) => {
                let mut s = "Could not open package.json: ".to_owned();
                s.append(t.as_str());
                s
            },
            VerifyNodeModulesError::CouldNotParsePackageLock(t) => {
                let mut s = "Could not parse package-lock.json: ".to_owned();
                s.append(t.as_str());
                s
            },
            VerifyNodeModulesError::CouldNotParsePackageJson(t) => {
                let mut s = "Could not parse package.json: ".to_owned();
                s.append(t.as_str());
                s
            },
        }
    }
}

impl ErrorCode for VerifyNodeModulesError {
    open spec fn spec_error_code(&self) -> i32 {
        match *self {
            VerifyNodeModulesError::CouldNotGetCwd(_) => -1i32,
            VerifyNodeModulesError::CouldNotOpenPackageLock(_) => -2i32,
            VerifyNodeModulesError::CouldNotOpenPackageJson(_) => -3i32,
            VerifyNodeModulesError::CouldNotParsePackageLock(_) => -4i32,
            VerifyNodeModulesError::CouldNotParsePackageJson(_) => -5i32,
        }
    }

    fn error_code(&self) -> (r: i32) {
        match self {
            VerifyNodeModulesError::CouldNotGetCwd(_) => -1,
            VerifyNodeModulesError::CouldNotOpenPackageLock(_) => -2,
            VerifyNodeModulesError::CouldNotOpenPackageJson(_) => -3,
            VerifyNodeModulesError::CouldNotParsePackageLock(_) => -4,
            VerifyNodeModulesError::CouldNotParsePackageJson(_) => -5,
        }
    }
}

} // verus!
