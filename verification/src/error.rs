use vstd::prelude::*;

verus! {

/// The fatal conditions of the bundler.  Each carries the path or name it
/// concerns; none is recovered from.
#[derive(Debug, Clone, PartialEq)]
pub enum BundlerError {
    /// The manifest text is not well-formed TOML.
    CargoTomlParseError,
    /// The manifest document is not a table.
    TomlNotTable,
    /// The manifest's `dependencies` entry is not a table.
    DependenciesNotTable,
    /// A dependency entry's `path` value is not a string; carries the
    /// dependency's name.
    PathNotString { dependency: String },
    /// A module path could not be resolved to content.
    ModuleFileNotFound { mod_path: String },
    /// An inline module block was still open at the end of its source.
    UnterminatedModule { mod_path: String },
}

/// Mathematical model of a `BundlerError`.
#[verifier::ext_equal]
pub ghost enum BundlerErrorV {
    CargoTomlParseError,
    TomlNotTable,
    DependenciesNotTable,
    PathNotString { dependency: Seq<char> },
    ModuleFileNotFound { mod_path: Seq<char> },
    UnterminatedModule { mod_path: Seq<char> },
}

impl View for BundlerError {
    type V = BundlerErrorV;

    open spec fn view(&self) -> BundlerErrorV {
        match self {
            BundlerError::CargoTomlParseError => BundlerErrorV::CargoTomlParseError,
            BundlerError::TomlNotTable => BundlerErrorV::TomlNotTable,
            BundlerError::DependenciesNotTable => BundlerErrorV::DependenciesNotTable,
            BundlerError::PathNotString { dependency } => BundlerErrorV::PathNotString {
                dependency: dependency@,
            },
            BundlerError::ModuleFileNotFound { mod_path } => BundlerErrorV::ModuleFileNotFound {
                mod_path: mod_path@,
            },
            BundlerError::UnterminatedModule { mod_path } => BundlerErrorV::UnterminatedModule {
                mod_path: mod_path@,
            },
        }
    }
}

impl BundlerError {
    /// A short description of the condition, for callers that report it.
    pub fn message(&self) -> (r: String)
        ensures
            r@ == match self@ {
                BundlerErrorV::CargoTomlParseError => "the manifest is not well-formed TOML"@,
                BundlerErrorV::TomlNotTable => "the manifest document is not a table"@,
                BundlerErrorV::DependenciesNotTable => "the dependencies section is not a table"@,
                BundlerErrorV::PathNotString { .. } => "a dependency path value is not a string"@,
                BundlerErrorV::ModuleFileNotFound { .. } => "a module file was not found"@,
                BundlerErrorV::UnterminatedModule { .. } => "an inline module block is unterminated"@,
            },
    {
        match self {
            BundlerError::CargoTomlParseError => "the manifest is not well-formed TOML".to_owned(),
            BundlerError::TomlNotTable => "the manifest document is not a table".to_owned(),
            BundlerError::DependenciesNotTable => "the dependencies section is not a table".to_owned(),
            BundlerError::PathNotString { dependency: _ } => "a dependency path value is not a string".to_owned(),
            BundlerError::ModuleFileNotFound { mod_path: _ } => "a module file was not found".to_owned(),
            BundlerError::UnterminatedModule { mod_path: _ } => "an inline module block is unterminated".to_owned(),
        }
    }
}

} // verus!
