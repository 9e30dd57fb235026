//! Errors of skill-package validation.
use vstd::prelude::*;

use crate::text::concat;

verus! {

/// A rejected skill package: the package-relative path (or field) at fault
/// and what is wrong with it.
#[derive(Debug, PartialEq, Eq)]
pub enum SkillPackageError {
    Invalid { path: String, message: String },
    Parse { path: String, source: String },
    Validation { path: String, source: String },
}

impl SkillPackageError {
    pub open spec fn path_view(&self) -> Seq<char> {
        match self {
            SkillPackageError::Invalid { path, .. } => path@,
            SkillPackageError::Parse { path, .. } => path@,
            SkillPackageError::Validation { path, .. } => path@,
        }
    }

    pub open spec fn message_view(&self) -> Seq<char> {
        match self {
            SkillPackageError::Invalid { message, .. } => message@,
            SkillPackageError::Parse { source, .. } => source@,
            SkillPackageError::Validation { source, .. } => source@,
        }
    }

    pub fn invalid(path: &str, message: String) -> (r: Self)
        ensures
            r matches SkillPackageError::Invalid { path: p, message: m } && p@ == path@ && m@
                == message@,
    {
        SkillPackageError::Invalid { path: path.to_owned(), message }
    }

    /// The path or field the error is about.
    pub fn path(&self) -> (r: &String)
        ensures
            r@ == self.path_view(),
    {
        match self {
            SkillPackageError::Invalid { path, .. } => path,
            SkillPackageError::Parse { path, .. } => path,
            SkillPackageError::Validation { path, .. } => path,
        }
    }

    /// The explanation, without the path.
    pub fn message(&self) -> (r: &String)
        ensures
            r@ == self.message_view(),
    {
        match self {
            SkillPackageError::Invalid { message, .. } => message,
            SkillPackageError::Parse { source, .. } => source,
            SkillPackageError::Validation { source, .. } => source,
        }
    }

    /// `path: message`, the text the error displays.
    pub fn to_text(&self) -> (r: String)
        ensures
            r@ == self.path_view() + ": "@ + self.message_view(),
    {
        let head = concat(self.path().as_str(), ": ");
        concat(head.as_str(), self.message().as_str())
    }
}

} // verus!
