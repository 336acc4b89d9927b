use vstd::prelude::*;
use vstd::string::StringExecFns;

use crate::text::{join_lines, join_nl, split_lines_plain, split_plain, str_to_string, strs_view};

verus! {

/// Every non-empty line pushed right by one indentation unit.
pub open spec fn indent_all(ls: Seq<Seq<char>>) -> Seq<Seq<char>> {
    Seq::new(
        ls.len(),
        |i: int|
            if ls[i].len() == 0 {
                ls[i]
            } else {
                "    "@ + ls[i]
            },
    )
}

/// A whole file wrapped into one module block: the text's lines are
/// indented under a `mod <name> {` header (the header itself indented with
/// them), closed with `}`, preceded by `#[allow(dead_code)]`, and the whole
/// framed in fold-marker comments.
pub open spec fn wrap_spec(content: Seq<char>, mod_name: Seq<char>) -> Seq<char> {
    let header = "mod "@ + mod_name + " {"@;
    let blocked = indent_all(seq![header] + split_plain(content)).push("}"@);
    let marker = "// "@ + mod_name + " {{{"@;
    join_nl(seq![marker] + (seq!["#[allow(dead_code)]"@] + blocked) + seq!["// }}}"@])
}

/// Wraps `file_content` into a fold-marked `mod <mod_name>` block.
pub fn wrap(file_content: &str, mod_name: &str) -> (r: String)
    ensures
        r@ == wrap_spec(file_content@, mod_name@),
{
    let mut lines = split_lines_plain(file_content);
    mod_block(&mut lines, mod_name);
    allow_dead_code(&mut lines);
    fold_marker(&mut lines, mod_name);
    join_lines(&lines)
}

/// Puts a `mod <name> {` header in front, indents every non-empty line
/// (header included), and closes with `}`.
fn mod_block(lines: &mut Vec<String>, mod_name: &str)
    ensures
        strs_view(final(lines)@) == indent_all(
            seq!["mod "@ + mod_name@ + " {"@] + strs_view(old(lines)@),
        ).push("}"@),
{
    proof {
        reveal_strlit("mod ");
        reveal_strlit(" {");
        reveal_strlit("    ");
        reveal_strlit("}");
    }
    let mut header = str_to_string("mod ");
    header.append(mod_name);
    header.append(" {");
    lines.insert(0, header);
    let ghost pre = seq!["mod "@ + mod_name@ + " {"@] + strs_view(old(lines)@);
    proof {
        assert(strs_view(lines@) =~= pre);
    }
    let mut i: usize = 0;
    while i < lines.len()
        invariant
            0 <= i <= lines@.len(),
            lines@.len() == pre.len(),
            forall|j: int| 0 <= j < i ==> #[trigger] lines@[j]@ == indent_all(pre)[j],
            forall|j: int| i <= j < pre.len() ==> #[trigger] lines@[j]@ == pre[j],
        decreases lines@.len() - i,
    {
        proof {
            reveal_strlit("    ");
        }
        let line = &lines[i];
        if !line.as_str().is_empty() {
            let mut indented = str_to_string("    ");
            indented.append(line.as_str());
            lines.set(i, indented);
        }
        i = i + 1;
    }
    let closer = str_to_string("}");
    lines.push(closer);
    proof {
        assert(strs_view(lines@) =~= indent_all(pre).push("}"@));
    }
}

/// Puts an `#[allow(dead_code)]` attribute line in front.
fn allow_dead_code(lines: &mut Vec<String>)
    ensures
        strs_view(final(lines)@) == seq!["#[allow(dead_code)]"@] + strs_view(old(lines)@),
{
    proof {
        reveal_strlit("#[allow(dead_code)]");
    }
    lines.insert(0, str_to_string("#[allow(dead_code)]"));
    proof {
        assert(strs_view(lines@) =~= seq!["#[allow(dead_code)]"@] + strs_view(old(lines)@));
    }
}

/// Frames the lines in fold-marker comments.
fn fold_marker(lines: &mut Vec<String>, mod_name: &str)
    ensures
        strs_view(final(lines)@) == seq!["// "@ + mod_name@ + " {{{"@] + strs_view(old(lines)@)
            + seq!["// }}}"@],
{
    proof {
        reveal_strlit("// ");
        reveal_strlit(" {{{");
        reveal_strlit("// }}}");
    }
    let mut marker = str_to_string("// ");
    marker.append(mod_name);
    marker.append(" {{{");
    lines.insert(0, marker);
    lines.push(str_to_string("// }}}"));
    proof {
        assert(strs_view(lines@) =~= seq!["// "@ + mod_name@ + " {{{"@] + strs_view(old(lines)@)
            + seq!["// }}}"@]);
    }
}

} // verus!
