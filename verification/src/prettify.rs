use vstd::prelude::*;
use vstd::string::StringExecFns;

use crate::fmt::{emitted, fmt_dfs_core, height_m, render};
use crate::text::{chars_to_string, to_underscored, underscored};
use crate::types::{Crate, CrateV, Module};

verus! {

/// The published output text for a crate: fold markers, a documentation
/// link for the crate, an `allow(dead_code)` attribute, and the root
/// module's nested block form; the closing fold marker carries no final
/// newline.
pub open spec fn prettify_crate_text(c: CrateV) -> Seq<char> {
    let u = underscored(c.name);
    "// "@ + u + " {{{\n"@ + "// https://ngtkana.github.io/ac-adapter-rs/"@ + u
        + "/index.html\n"@ + "\n"@ + "#[allow(dead_code)]\n"@ + render(emitted(u, c.root, 0))
        + "// }}}"@
}

/// Serializes the whole crate in its published form.
pub fn format_crate_to_string(my_crate: Crate) -> (r: String)
    requires
        height_m(my_crate.root@) <= usize::MAX,
    ensures
        r@ == prettify_crate_text(my_crate@),
{
    proof {
        reveal_strlit("// ");
        reveal_strlit(" {{{\n");
        reveal_strlit("// https://ngtkana.github.io/ac-adapter-rs/");
        reveal_strlit("/index.html\n");
        reveal_strlit("\n");
        reveal_strlit("#[allow(dead_code)]\n");
        reveal_strlit("// }}}");
    }
    let mut out = String::new();
    let u = chars_to_string(to_underscored(my_crate.name.as_str()).as_slice());
    out.append("// ");
    out.append(u.as_str());
    out.append(" {{{\n");
    out.append("// https://ngtkana.github.io/ac-adapter-rs/");
    out.append(u.as_str());
    out.append("/index.html\n");
    out.append("\n");
    out.append("#[allow(dead_code)]\n");
    fmt_dfs_core(&mut out, u.as_str(), &my_crate.root, 0);
    out.append("// }}}");
    proof {
        assert(out@ =~= prettify_crate_text(my_crate@));
    }
    out
}

/// Appends the nested block form of `module` at `indent_level`, the crate
/// name (dashes written as underscores) standing in for the root.
pub fn fmt_dfs(out: &mut String, crate_name: &str, module: &Module, indent_level: usize)
    requires
        indent_level + height_m(module@) <= usize::MAX,
    ensures
        final(out)@ == old(out)@ + render(
            emitted(underscored(crate_name@), module@, indent_level as int),
        ),
{
    crate::fmt::fmt_dfs(out, crate_name, module, indent_level);
}

} // verus!
