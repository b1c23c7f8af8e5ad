//! The failures the engine reports: parse/analyze-time errors, cross-file
//! resolution errors, and render-time evaluation errors.

use vstd::prelude::*;

verus! {

/// One typed failure. Parse/analyze errors abort registration of the file
/// they occur in; resolution errors abort the whole `resolve` call; render
/// errors abort only the render call that raised them.
#[derive(Debug, Clone)]
pub enum Error {
    /// The source text could not be parsed; carries the character position
    /// at which parsing stopped.
    SyntaxError { pos: usize },
    /// A block name is used twice in one file, at any nesting depth.
    DuplicateBlock { name: String },
    /// Two top-level macros in one file share a name.
    DuplicateMacro { name: String },
    /// A file holds more than one top-level `extends` tag.
    DuplicateExtends,
    /// Two templates were registered under the same name.
    DuplicateTemplate { name: String },
    /// A template's `extends` names a template that is not registered.
    MissingParent { parent: String },
    /// Following `extends` pointers revisits a template name.
    CircularInheritance { name: String },
    /// An `import` names a file that is not registered.
    MissingMacroFile { file: String },
    /// A render call named a template that is not registered.
    TemplateNotFound { name: String },
    /// A render call was made before a successful `resolve`.
    RegistryNotResolved,
    /// Strict-mode lookup of a variable that is absent from every scope.
    UndefinedVariable { name: String },
    /// A filter chain names a filter that does not exist.
    FilterNotFound { name: String },
    /// A filter was applied to a value it does not accept, or given arguments.
    FilterArgumentError { name: String },
    /// An operator was applied to operands of incompatible kinds (this also
    /// covers arithmetic overflow and division by zero).
    TypeMismatch,
    /// A macro call leaves a parameter without default unbound, or binds a
    /// name the macro does not declare.
    MacroArgumentError { name: String },
    /// Rendering exceeded the configured maximum nesting depth.
    RecursionLimitExceeded,
}

impl Error {
    /// A short stable label for the kind of failure, for host-side reporting.
    pub fn kind(&self) -> (r: &'static str)
        ensures
            r@ == self.kind_spec(),
    {
        match self {
            Error::SyntaxError { .. } => "SyntaxError",
            Error::DuplicateBlock { .. } => "DuplicateBlock",
            Error::DuplicateMacro { .. } => "DuplicateMacro",
            Error::DuplicateExtends => "DuplicateExtends",
            Error::DuplicateTemplate { .. } => "DuplicateTemplate",
            Error::MissingParent { .. } => "MissingParent",
            Error::CircularInheritance { .. } => "CircularInheritance",
            Error::MissingMacroFile { .. } => "MissingMacroFile",
            Error::TemplateNotFound { .. } => "TemplateNotFound",
            Error::RegistryNotResolved => "RegistryNotResolved",
            Error::UndefinedVariable { .. } => "UndefinedVariable",
            Error::FilterNotFound { .. } => "FilterNotFound",
            Error::FilterArgumentError { .. } => "FilterArgumentError",
            Error::TypeMismatch => "TypeMismatch",
            Error::MacroArgumentError { .. } => "MacroArgumentError",
            Error::RecursionLimitExceeded => "RecursionLimitExceeded",
        }
    }

    /// The label `kind` returns, as a sequence of characters.
    pub open spec fn kind_spec(&self) -> Seq<char> {
        match self {
            Error::SyntaxError { .. } => "SyntaxError"@,
            Error::DuplicateBlock { .. } => "DuplicateBlock"@,
            Error::DuplicateMacro { .. } => "DuplicateMacro"@,
            Error::DuplicateExtends => "DuplicateExtends"@,
            Error::DuplicateTemplate { .. } => "DuplicateTemplate"@,
            Error::MissingParent { .. } => "MissingParent"@,
            Error::CircularInheritance { .. } => "CircularInheritance"@,
            Error::MissingMacroFile { .. } => "MissingMacroFile"@,
            Error::TemplateNotFound { .. } => "TemplateNotFound"@,
            Error::RegistryNotResolved => "RegistryNotResolved"@,
            Error::UndefinedVariable { .. } => "UndefinedVariable"@,
            Error::FilterNotFound { .. } => "FilterNotFound"@,
            Error::FilterArgumentError { .. } => "FilterArgumentError"@,
            Error::TypeMismatch => "TypeMismatch"@,
            Error::MacroArgumentError { .. } => "MacroArgumentError"@,
            Error::RecursionLimitExceeded => "RecursionLimitExceeded"@,
        }
    }
}

} // verus!
