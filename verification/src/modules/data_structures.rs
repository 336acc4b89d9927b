use vstd::prelude::*;

verus! {

/// A module declaration found in a source file: its visibility qualifier,
/// its name, and whether it is inline or lives in its own file.
#[derive(Debug, Clone, PartialEq)]
pub struct Module {
    pub vis: Vis,
    pub name: Segment,
    pub location: Location,
}

/// A visibility qualifier, as written; empty for private modules.
#[derive(Debug, Clone, PartialEq)]
pub struct Vis(pub String);

/// A path through the module tree.
#[derive(Debug, Clone, PartialEq)]
pub struct ModulePath(pub Vec<Segment>);

/// One segment of a module path.
#[derive(Debug, Clone, PartialEq)]
pub struct Segment(pub String);

/// Where a module's source lives.
#[derive(Debug, Clone, PartialEq)]
pub enum Location {
    Inline,
    External,
}

} // verus!
