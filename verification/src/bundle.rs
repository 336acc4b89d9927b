use vstd::prelude::*;

use crate::modules::{mod_word_at, scan_start};
use crate::parse_line::{at, is_ws, ws_to};
use crate::text::{str_to_chars, str_to_string, strs_view};

pub mod make;
pub mod wrap;

verus! {

/// A name character of this scan: letters, `|`, digits and `_`.
pub open spec fn tm_cont(c: char) -> bool {
    scan_start(c) || ('0' <= c && c <= '9') || c == '_'
}

/// Index of the first character at or after `i` that cannot continue a
/// name, or the length.
pub open spec fn tm_to(l: Seq<char>, i: int) -> int
    decreases l.len() - i,
    when 0 <= i <= l.len()
{
    if i == l.len() || !tm_cont(l[i]) {
        i
    } else {
        tm_to(l, i + 1)
    }
}

proof fn lemma_tm_to(l: Seq<char>, i: int)
    requires
        0 <= i <= l.len(),
    ensures
        i <= tm_to(l, i) <= l.len(),
        forall|j: int| i <= j < tm_to(l, i) ==> tm_cont(l[j]),
        tm_to(l, i) < l.len() ==> !tm_cont(l[tm_to(l, i)]),
    decreases l.len() - i,
{
    if !(i == l.len() || !tm_cont(l[i])) {
        lemma_tm_to(l, i + 1);
    }
}

/// An inline module opening appears at `p`: `mod`, whitespace, a name,
/// whitespace, `{`.
pub open spec fn start_at(l: Seq<char>, p: int) -> bool {
    mod_word_at(l, p) && {
        let n0 = ws_to(l, p + 3);
        n0 < l.len() && scan_start(l[n0]) && at(l, ws_to(l, tm_to(l, n0 + 1)), '{')
    }
}

/// The line holds an inline module opening somewhere.
pub open spec fn is_start(l: Seq<char>) -> bool {
    exists|p: int| 0 <= p < l.len() && #[trigger] start_at(l, p)
}

/// The line begins with the test marker, written exactly `#[cfg(test)]`.
pub open spec fn is_cfg_prefix(l: Seq<char>) -> bool {
    crate::modules::word_at(l, 0, "#[cfg(test)]"@)
}

/// The line begins with `}`.
pub open spec fn is_end(l: Seq<char>) -> bool {
    at(l, 0, '}')
}

/// First index at or after `j` where a test marker line directly precedes
/// an inline opening, or the length when there is none.
pub open spec fn pair_to(lines: Seq<Seq<char>>, j: int) -> int
    decreases lines.len() - j,
    when 0 <= j <= lines.len()
{
    if j + 1 >= lines.len() {
        lines.len() as int
    } else if is_cfg_prefix(lines[j]) && is_start(lines[j + 1]) {
        j
    } else {
        pair_to(lines, j + 1)
    }
}

proof fn lemma_pair_to(lines: Seq<Seq<char>>, j: int)
    requires
        0 <= j <= lines.len(),
    ensures
        j <= pair_to(lines, j) <= lines.len(),
        pair_to(lines, j) < lines.len() ==> pair_to(lines, j) + 1 < lines.len() && is_cfg_prefix(
            lines[pair_to(lines, j)],
        ) && is_start(lines[pair_to(lines, j) + 1]),
        forall|k: int|
            j <= k < pair_to(lines, j) && k + 1 < lines.len() ==> !(is_cfg_prefix(lines[k])
                && is_start(#[trigger] lines[k + 1])),
    decreases lines.len() - j,
{
    if !(j + 1 >= lines.len()) && !(is_cfg_prefix(lines[j]) && is_start(lines[j + 1])) {
        lemma_pair_to(lines, j + 1);
    }
}

/// First index at or after `s` whose line begins with `}`, or the length.
pub open spec fn end_to(lines: Seq<Seq<char>>, s: int) -> int
    decreases lines.len() - s,
    when 0 <= s <= lines.len()
{
    if s == lines.len() || is_end(lines[s]) {
        s
    } else {
        end_to(lines, s + 1)
    }
}

proof fn lemma_end_to(lines: Seq<Seq<char>>, s: int)
    requires
        0 <= s <= lines.len(),
    ensures
        s <= end_to(lines, s) <= lines.len(),
        end_to(lines, s) < lines.len() ==> is_end(lines[end_to(lines, s)]),
        forall|k: int| s <= k < end_to(lines, s) ==> !is_end(lines[k]),
    decreases lines.len() - s,
{
    if !(s == lines.len() || is_end(lines[s])) {
        lemma_end_to(lines, s + 1);
    }
}

/// The repeated removal only makes sense when every round that finds a
/// marked opening also finds a closing line after it.
pub open spec fn strip_ok(lines: Seq<Seq<char>>) -> bool
    decreases lines.len(),
    via strip_ok_decreases
{
    let s = pair_to(lines, 0);
    s == lines.len() || (end_to(lines, s) < lines.len() && strip_ok(
        lines.subrange(0, s) + lines.skip(end_to(lines, s) + 1),
    ))
}

#[via_fn]
proof fn strip_ok_decreases(lines: Seq<Seq<char>>) {
    lemma_pair_to(lines, 0);
    let s = pair_to(lines, 0);
    if s < lines.len() {
        lemma_end_to(lines, s);
    }
}

/// The lines with every test-marked inline module block removed: while a
/// `#[cfg(test)]` line directly precedes an inline opening, everything from
/// the marker through the next line that begins with `}` is dropped.
pub open spec fn tests_stripped(lines: Seq<Seq<char>>) -> Seq<Seq<char>>
    decreases lines.len(),
    via tests_stripped_decreases
{
    let s = pair_to(lines, 0);
    if s == lines.len() || end_to(lines, s) == lines.len() {
        lines
    } else {
        tests_stripped(lines.subrange(0, s) + lines.skip(end_to(lines, s) + 1))
    }
}

#[via_fn]
proof fn tests_stripped_decreases(lines: Seq<Seq<char>>) {
    lemma_pair_to(lines, 0);
    let s = pair_to(lines, 0);
    if s < lines.len() {
        lemma_end_to(lines, s);
    }
}

// ---------------------------------------------------------------------------
// Executable helpers.
// ---------------------------------------------------------------------------

fn line_is_cfg_prefix(l: &str) -> (r: bool)
    ensures
        r == is_cfg_prefix(l@),
{
    proof {
        reveal_strlit("#[cfg(test)]");
    }
    let cs = str_to_chars(l);
    let w = str_to_chars("#[cfg(test)]");
    if cs.len() < w.len() {
        proof {
            assert(!crate::modules::word_at(l@, 0, "#[cfg(test)]"@));
        }
        return false;
    }
    let mut k: usize = 0;
    let n = w.len();
    while k < n
        invariant
            0 <= k <= n,
            n == w@.len(),
            w@ == "#[cfg(test)]"@,
            cs@ == l@,
            n <= cs@.len(),
            forall|j: int| 0 <= j < k ==> cs@[j] == w@[j],
        decreases n - k,
    {
        if cs[k] != w[k] {
            proof {
                assert(cs@.subrange(0, w@.len() as int)[k as int] == cs@[k as int]);
            }
            return false;
        }
        k = k + 1;
    }
    proof {
        assert(cs@.subrange(0, w@.len() as int) =~= w@);
    }
    true
}

fn start_at_exec(cs: &[char], p: usize) -> (r: bool)
    requires
        p < cs@.len(),
    ensures
        r == start_at(cs@, p as int),
{
    if !(cs.len() - p >= 3 && cs[p] == 'm' && cs[p + 1] == 'o' && cs[p + 2] == 'd') {
        return false;
    }
    let n0 = skip_ws_b(cs, p + 3);
    if !(n0 < cs.len()) {
        return false;
    }
    let c = cs[n0];
    if !(('a' <= c && c <= 'z') || ('A' <= c && c <= 'Z') || c == '|') {
        return false;
    }
    let e = skip_tm(cs, n0 + 1);
    let w = skip_ws_b(cs, e);
    w < cs.len() && cs[w] == '{'
}

fn skip_ws_b(cs: &[char], i: usize) -> (r: usize)
    requires
        i <= cs@.len(),
    ensures
        r == ws_to(cs@, i as int),
        i <= r <= cs@.len(),
    decreases cs@.len() - i,
{
    let cont = i < cs.len() && (cs[i] == ' ' || cs[i] == '\t' || cs[i] == '\n' || cs[i] == '\r'
        || cs[i] == '\u{b}' || cs[i] == '\u{c}');
    if cont {
        skip_ws_b(cs, i + 1)
    } else {
        proof {
            assert(i == cs@.len() || !is_ws(cs@[i as int]));
        }
        i
    }
}

fn skip_tm(cs: &[char], i: usize) -> (r: usize)
    requires
        i <= cs@.len(),
    ensures
        r == tm_to(cs@, i as int),
        i <= r <= cs@.len(),
    decreases cs@.len() - i,
{
    let cont = i < cs.len() && {
        let c = cs[i];
        ('a' <= c && c <= 'z') || ('A' <= c && c <= 'Z') || c == '|' || ('0' <= c && c <= '9') || c
            == '_'
    };
    if cont {
        skip_tm(cs, i + 1)
    } else {
        i
    }
}

fn line_is_start(l: &str) -> (r: bool)
    ensures
        r == is_start(l@),
{
    let cs = str_to_chars(l);
    let mut p: usize = 0;
    while p < cs.len()
        invariant
            0 <= p <= cs@.len(),
            cs@ == l@,
            forall|j: int| 0 <= j < p ==> !(#[trigger] start_at(l@, j)),
        decreases cs@.len() - p,
    {
        if start_at_exec(cs.as_slice(), p) {
            return true;
        }
        p = p + 1;
    }
    false
}

fn line_is_end(l: &str) -> (r: bool)
    ensures
        r == is_end(l@),
{
    let cs = str_to_chars(l);
    cs.len() > 0 && cs[0] == '}'
}

/// Removes every `#[cfg(test)]`-marked inline module block, each from its
/// marker line through the next line that begins with `}`.
pub fn remove_test_modules(lines: Vec<String>) -> (r: Vec<String>)
    requires
        strip_ok(strs_view(lines@)),
    ensures
        strs_view(r@) == tests_stripped(strs_view(lines@)),
    decreases lines@.len(),
{
    let ghost lv = strs_view(lines@);
    let n = lines.len();
    let mut s: usize = 0;
    let mut hit = false;
    while n >= 1 && s < n - 1 && !hit
        invariant
            0 <= s <= lines@.len(),
            n == lines@.len(),
            lv == strs_view(lines@),
            hit ==> s + 1 < n && is_cfg_prefix(lv[s as int]) && is_start(lv[s + 1 as int]),
            forall|k: int|
                0 <= k < s && k + 1 < lines@.len() ==> !(is_cfg_prefix(lv[k]) && is_start(
                    #[trigger] lv[k + 1],
                )),
        decreases n - s + (if hit { 0int } else { 1 }),
    {
        if line_is_cfg_prefix(lines[s].as_str()) && line_is_start(lines[s + 1].as_str()) {
            hit = true;
        } else {
            s = s + 1;
        }
    }
    proof {
        lemma_pair_to(lv, 0);
        assert(pair_to(lv, 0) == if hit {
            s as int
        } else {
            lv.len() as int
        }) by {
            if hit {
                if pair_to(lv, 0) < s {
                }
            } else {
                if pair_to(lv, 0) < lv.len() {
                }
            }
        }
    }
    if !hit {
        return lines;
    }
    let mut c: usize = s;
    let mut closed = false;
    while c < n && !closed
        invariant
            s <= c <= lines@.len(),
            n == lines@.len(),
            lv == strs_view(lines@),
            closed ==> c < n && is_end(lv[c as int]),
            forall|k: int| s <= k < c ==> !is_end(lv[k]),
        decreases n - c + (if closed { 0int } else { 1 }),
    {
        if line_is_end(lines[c].as_str()) {
            closed = true;
        } else {
            c = c + 1;
        }
    }
    proof {
        lemma_end_to(lv, s as int);
        assert(end_to(lv, s as int) == if closed {
            c as int
        } else {
            lv.len() as int
        }) by {
            if closed {
                if end_to(lv, s as int) < c {
                }
            } else {
                if end_to(lv, s as int) < lv.len() {
                }
            }
        }
    }
    if !closed {
        proof {
            assert(!strip_ok(lv));
        }
        return lines;
    }
    let mut shorter: Vec<String> = Vec::new();
    let mut k: usize = 0;
    while k < s
        invariant
            0 <= k <= s <= lines@.len(),
            lv == strs_view(lines@),
            strs_view(shorter@) == lv.subrange(0, k as int),
        decreases s - k,
    {
        let kept = str_to_string(lines[k].as_str());
        let ghost before = shorter@;
        shorter.push(kept);
        k = k + 1;
        proof {
            crate::text::lemma_strs_view_push(before, kept);
            assert(strs_view(shorter@) =~= lv.subrange(0, k as int));
        }
    }
    let mut k2: usize = c + 1;
    while k2 < n
        invariant
            c + 1 <= k2 <= lines@.len(),
            n == lines@.len(),
            s <= c < lines@.len(),
            lv == strs_view(lines@),
            strs_view(shorter@) == lv.subrange(0, s as int) + lv.subrange(c + 1 as int, k2 as int),
        decreases n - k2,
    {
        let kept = str_to_string(lines[k2].as_str());
        let ghost before = shorter@;
        shorter.push(kept);
        k2 = k2 + 1;
        proof {
            crate::text::lemma_strs_view_push(before, kept);
            assert(strs_view(shorter@) =~= lv.subrange(0, s as int) + lv.subrange(
                c + 1 as int,
                k2 as int,
            ));
        }
    }
    proof {
        assert(lv.subrange(c + 1 as int, lv.len() as int) =~= lv.skip(c + 1 as int));
        assert(strs_view(shorter@) =~= lv.subrange(0, s as int) + lv.skip(c + 1 as int));
    }
    remove_test_modules(shorter)
}

/// Removes test modules, the step applied before a module is expanded.
pub fn preprocess(lines: Vec<String>) -> (r: Vec<String>)
    requires
        strip_ok(strs_view(lines@)),
    ensures
        strs_view(r@) == tests_stripped(strs_view(lines@)),
{
    remove_test_modules(lines)
}

/// A line consisting of whitespace alone.
pub open spec fn is_blank(l: Seq<char>) -> bool {
    ws_to(l, 0) == l.len()
}

/// The lines with trailing whitespace-only lines removed.
pub open spec fn ws_trail_trimmed(lines: Seq<Seq<char>>) -> Seq<Seq<char>>
    decreases lines.len(),
{
    if lines.len() > 0 && is_blank(lines.last()) {
        ws_trail_trimmed(lines.drop_last())
    } else {
        lines
    }
}

/// Removes trailing whitespace-only lines.
pub fn remove_trailing_empty_lines(lines: &mut Vec<String>)
    ensures
        strs_view(final(lines)@) == ws_trail_trimmed(strs_view(old(lines)@)),
{
    loop
        invariant
            ws_trail_trimmed(strs_view(lines@)) == ws_trail_trimmed(strs_view(old(lines)@)),
        ensures
            strs_view(lines@) == ws_trail_trimmed(strs_view(old(lines)@)),
        decreases lines@.len(),
    {
        let n = lines.len();
        if n == 0 {
            proof {
                assert(ws_trail_trimmed(strs_view(lines@)) == strs_view(lines@));
            }
            return;
        }
        let cs = str_to_chars(lines[n - 1].as_str());
        let w = skip_ws_b(cs.as_slice(), 0);
        let ghost sv = strs_view(lines@);
        if w == cs.len() {
            proof {
                assert(is_blank(sv.last()));
            }
            lines.pop();
            proof {
                assert(strs_view(lines@) =~= sv.drop_last());
            }
        } else {
            proof {
                assert(!is_blank(sv.last()));
                assert(ws_trail_trimmed(sv) == sv);
            }
            return;
        }
    }
}

/// The `mod` header of a block: the visibility and a space before it when
/// the visibility is not empty.
pub open spec fn block_header(vis: Seq<char>, name: Seq<char>) -> Seq<char> {
    if vis.len() == 0 {
        "mod "@ + name + " {"@
    } else {
        vis + " "@ + "mod "@ + name + " {"@
    }
}

/// Indents every non-empty line, then frames the lines between a
/// `[vis ]mod <name> {` header and a closing `}`; the header itself is not
/// indented.
pub fn mod_block(lines: &mut Vec<String>, vis: &str, name: &str)
    ensures
        strs_view(final(lines)@) == seq![block_header(vis@, name@)] + crate::bundle::wrap::indent_all(
            strs_view(old(lines)@),
        ).push("}"@),
{
    proof {
        reveal_strlit("mod ");
        reveal_strlit(" {");
        reveal_strlit(" ");
        reveal_strlit("}");
        reveal_strlit("    ");
    }
    let ghost before = strs_view(lines@);
    let mut i: usize = 0;
    while i < lines.len()
        invariant
            0 <= i <= lines@.len(),
            lines@.len() == before.len(),
            forall|j: int|
                0 <= j < i ==> #[trigger] lines@[j]@ == crate::bundle::wrap::indent_all(before)[j],
            forall|j: int| i <= j < before.len() ==> #[trigger] lines@[j]@ == before[j],
        decreases lines@.len() - i,
    {
        proof {
            reveal_strlit("    ");
        }
        let line = &lines[i];
        if !line.as_str().is_empty() {
            let mut indented = str_to_string("    ");
            vstd::string::StringExecFns::append(&mut indented, line.as_str());
            lines.set(i, indented);
        }
        i = i + 1;
    }
    let mut header: String;
    if vis.is_empty() {
        header = str_to_string("mod ");
    } else {
        header = str_to_string(vis);
        vstd::string::StringExecFns::append(&mut header, " ");
        vstd::string::StringExecFns::append(&mut header, "mod ");
    }
    vstd::string::StringExecFns::append(&mut header, name);
    vstd::string::StringExecFns::append(&mut header, " {");
    proof {
        assert(header@ == block_header(vis@, name@));
    }
    lines.insert(0, header);
    lines.push(str_to_string("}"));
    proof {
        assert(strs_view(lines@) =~= seq![block_header(vis@, name@)]
            + crate::bundle::wrap::indent_all(before).push("}"@));
    }
}

/// Trims trailing blank lines and closes the module block, the steps
/// applied after a module is expanded.
pub fn postprocess(lines: &mut Vec<String>, vis: &str, name: &str)
    ensures
        strs_view(final(lines)@) == seq![block_header(vis@, name@)] + crate::bundle::wrap::indent_all(
            ws_trail_trimmed(strs_view(old(lines)@)),
        ).push("}"@),
{
    remove_trailing_empty_lines(lines);
    mod_block(lines, vis, name);
}

/// Puts an `#[allow(dead_code)]` attribute line in front.
pub fn allow_dead_code(lines: &mut Vec<String>)
    ensures
        strs_view(final(lines)@) == seq!["#[allow(dead_code)]"@] + strs_view(old(lines)@),
{
    proof {
        reveal_strlit("#[allow(dead_code)]");
    }
    lines.insert(0, str_to_string("#[allow(dead_code)]"));
    proof {
        assert(strs_view(lines@) =~= seq!["#[allow(dead_code)]"@] + strs_view(old(lines)@));
    }
}

/// Frames the lines in fold-marker comments.
pub fn fold_marker(lines: &mut Vec<String>, name: &str)
    ensures
        strs_view(final(lines)@) == seq!["// "@ + name@ + " {{{"@] + strs_view(old(lines)@) + seq![
            "// }}}"@,
        ],
{
    proof {
        reveal_strlit("// ");
        reveal_strlit(" {{{");
        reveal_strlit("// }}}");
    }
    let mut marker = str_to_string("// ");
    vstd::string::StringExecFns::append(&mut marker, name);
    vstd::string::StringExecFns::append(&mut marker, " {{{");
    lines.insert(0, marker);
    lines.push(str_to_string("// }}}"));
    proof {
        assert(strs_view(lines@) =~= seq!["// "@ + name@ + " {{{"@] + strs_view(old(lines)@)
            + seq!["// }}}"@]);
    }
}

} // verus!
