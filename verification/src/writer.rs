use vstd::prelude::*;

use crate::fmt::{emitted, fmt_dfs_core, height_m, render};
use crate::types::Module;

verus! {

/// A crate name paired with a built module tree, ready to be written out as
/// bare nested blocks: no fold markers and no attribute header, the crate
/// name used as-is for the root.
pub struct CrateWriter<'a> {
    pub name: &'a str,
    pub root: &'a Module,
}

impl<'a> CrateWriter<'a> {
    /// The nested block form of the tree, as `fmt_dfs` emits it from depth
    /// zero.
    pub fn to_text(&self) -> (r: String)
        requires
            height_m(self.root@) <= usize::MAX,
        ensures
            r@ == render(emitted(self.name@, self.root@, 0)),
    {
        let mut out = String::new();
        fmt_dfs(&mut out, self.name, self.root, 0);
        proof {
            assert(out@ =~= render(emitted(self.name@, self.root@, 0)));
        }
        out
    }
}

/// Appends the nested block form of `module` at `indent_level`, the crate
/// name standing in, unchanged, for the root.
pub fn fmt_dfs(out: &mut String, crate_name: &str, module: &Module, indent_level: usize)
    requires
        indent_level + height_m(module@) <= usize::MAX,
    ensures
        final(out)@ == old(out)@ + render(emitted(crate_name@, module@, indent_level as int)),
{
    fmt_dfs_core(out, crate_name, module, indent_level);
}

} // verus!
