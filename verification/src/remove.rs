use vstd::prelude::*;

use crate::parse_line::{at, push_range};
use crate::text::{
    chars_to_string, join_lines, join_nl, split_lines_plain, split_plain, str_eq, str_to_chars,
    strs_view,
};

verus! {

/// Whether the line holds a documentation-comment marker anywhere: `//`
/// followed by `/`, `|` or `!`.
pub open spec fn has_doc_marker(l: Seq<char>) -> bool {
    exists|i: int|
        0 <= i && #[trigger] at(l, i, '/') && at(l, i + 1, '/') && (at(l, i + 2, '/') || at(
            l,
            i + 2,
            '|',
        ) || at(l, i + 2, '!'))
}

/// The lines with documentation-comment lines removed.
pub open spec fn doc_filtered(lines: Seq<Seq<char>>) -> Seq<Seq<char>>
    decreases lines.len(),
{
    if lines.len() == 0 {
        Seq::empty()
    } else if has_doc_marker(lines[0]) {
        doc_filtered(lines.drop_first())
    } else {
        seq![lines[0]] + doc_filtered(lines.drop_first())
    }
}

/// First index at or after `s` whose line is exactly `t`, or the length.
pub open spec fn line_to(lines: Seq<Seq<char>>, s: int, t: Seq<char>) -> int
    decreases lines.len() - s,
    when 0 <= s <= lines.len()
{
    if s == lines.len() || lines[s] == t {
        s
    } else {
        line_to(lines, s + 1, t)
    }
}

proof fn lemma_line_to(lines: Seq<Seq<char>>, s: int, t: Seq<char>)
    requires
        0 <= s <= lines.len(),
    ensures
        s <= line_to(lines, s, t) <= lines.len(),
        line_to(lines, s, t) < lines.len() ==> lines[line_to(lines, s, t)] == t,
        forall|j: int| s <= j < line_to(lines, s, t) ==> lines[j] != t,
    decreases lines.len() - s,
{
    if !(s == lines.len() || lines[s] == t) {
        lemma_line_to(lines, s + 1, t);
    }
}

/// The test-module removal is only defined where its assumptions hold: the
/// first `mod tests {` line, if any, directly follows a `#[cfg(test)]`
/// line, and a lone `}` line follows somewhere after.
pub open spec fn remove_tests_ok(lines: Seq<Seq<char>>) -> bool {
    let t = line_to(lines, 0, "mod tests {"@);
    t == lines.len() || (t >= 1 && lines[t - 1] == "#[cfg(test)]"@ && line_to(lines, t - 1, "}"@)
        < lines.len())
}

/// The lines with the first `#[cfg(test)] mod tests { ... }` block removed:
/// from the attribute line up to and including the first lone `}` line.
pub open spec fn tests_removed(lines: Seq<Seq<char>>) -> Seq<Seq<char>> {
    let t = line_to(lines, 0, "mod tests {"@);
    if t == lines.len() {
        lines
    } else {
        lines.subrange(0, t - 1) + lines.skip(line_to(lines, t - 1, "}"@) + 1)
    }
}

/// `pat` occurs in `l` at index `i`.
pub open spec fn sub_at(l: Seq<char>, pat: Seq<char>, i: int) -> bool {
    0 <= i && i + pat.len() <= l.len() && l.subrange(i, i + pat.len()) == pat
}

/// First index at or after `i` where `pat` occurs, or the length.
pub open spec fn sub_to(l: Seq<char>, pat: Seq<char>, i: int) -> int
    decreases l.len() - i,
    when 0 <= i <= l.len()
{
    if i == l.len() || sub_at(l, pat, i) {
        i
    } else {
        sub_to(l, pat, i + 1)
    }
}

proof fn lemma_sub_to(l: Seq<char>, pat: Seq<char>, i: int)
    requires
        0 <= i <= l.len(),
    ensures
        i <= sub_to(l, pat, i) <= l.len(),
        sub_to(l, pat, i) < l.len() ==> sub_at(l, pat, sub_to(l, pat, i)),
        forall|j: int| i <= j < sub_to(l, pat, i) ==> !sub_at(l, pat, j),
    decreases l.len() - i,
{
    if !(i == l.len() || sub_at(l, pat, i)) {
        lemma_sub_to(l, pat, i + 1);
    }
}

/// `l` with the first occurrence of `pat` replaced by `rep`; `l` itself when
/// `pat` does not occur.
pub open spec fn replace_first(l: Seq<char>, pat: Seq<char>, rep: Seq<char>) -> Seq<char> {
    let i = sub_to(l, pat, 0);
    if i == l.len() {
        l
    } else {
        l.take(i) + rep + l.skip(i + pat.len())
    }
}

/// One line with, for each dependency in order, the first `<dep>::`
/// reference routed to `crate::constant::`.  Dependency names are matched
/// literally.
pub open spec fn deps_replaced(l: Seq<char>, deps: Seq<Seq<char>>, k: int) -> Seq<char>
    decreases deps.len() - k,
    when 0 <= k <= deps.len()
{
    if k == deps.len() {
        l
    } else {
        deps_replaced(replace_first(l, deps[k] + "::"@, "crate::constant::"@), deps, k + 1)
    }
}

/// Every line with its dependency references rewritten.
pub open spec fn all_deps_replaced(lines: Seq<Seq<char>>, deps: Seq<Seq<char>>) -> Seq<
    Seq<char>,
> {
    Seq::new(lines.len(), |i: int| deps_replaced(lines[i], deps, 0))
}

/// The lines with trailing empty lines removed.
pub open spec fn trail_trimmed(lines: Seq<Seq<char>>) -> Seq<Seq<char>>
    decreases lines.len(),
{
    if lines.len() > 0 && lines.last().len() == 0 {
        trail_trimmed(lines.drop_last())
    } else {
        lines
    }
}

/// The whole cleanup a bundled file goes through: documentation comments
/// out, the first test module out, dependency paths rewritten, trailing
/// blank lines dropped.
pub open spec fn remove_spec(content: Seq<char>, deps: Seq<Seq<char>>) -> Seq<char> {
    let l1 = doc_filtered(split_plain(content));
    let l2 = tests_removed(l1);
    let l3 = all_deps_replaced(l2, deps);
    join_nl(trail_trimmed(l3))
}

// ---------------------------------------------------------------------------
// Executable cleanup.
// ---------------------------------------------------------------------------

fn line_has_doc_marker(l: &str) -> (r: bool)
    ensures
        r == has_doc_marker(l@),
{
    let cs = str_to_chars(l);
    let n = cs.len();
    let mut i: usize = 0;
    while i < n
        invariant
            0 <= i <= n,
            n == cs@.len(),
            cs@ == l@,
            forall|j: int|
                0 <= j < i ==> !(#[trigger] at(l@, j, '/') && at(l@, j + 1, '/') && (at(
                    l@,
                    j + 2,
                    '/',
                ) || at(l@, j + 2, '|') || at(l@, j + 2, '!'))),
        decreases n - i,
    {
        if n - i >= 3 && cs[i] == '/' && cs[i + 1] == '/' && (cs[i + 2] == '/' || cs[i + 2] == '|'
            || cs[i + 2] == '!') {
            proof {
                assert(at(l@, i as int, '/'));
            }
            return true;
        }
        i = i + 1;
    }
    proof {
        assert forall|j: int|
            0 <= j implies !(#[trigger] at(l@, j, '/') && at(l@, j + 1, '/') && (at(l@, j + 2, '/')
            || at(l@, j + 2, '|') || at(l@, j + 2, '!'))) by {
            if j < n {
            }
        }
    }
    false
}

/// Removes every line that holds a documentation-comment marker.
fn remove_doc_comments(lines: &Vec<String>) -> (r: Vec<String>)
    ensures
        strs_view(r@) == doc_filtered(strs_view(lines@)),
{
    let ghost lv = strs_view(lines@);
    let mut r: Vec<String> = Vec::new();
    let mut i: usize = 0;
    proof {
        assert(lv.skip(0) =~= lv);
        assert(strs_view(r@) =~= Seq::<Seq<char>>::empty());
    }
    while i < lines.len()
        invariant
            0 <= i <= lines@.len(),
            lv == strs_view(lines@),
            doc_filtered(lv) == strs_view(r@) + doc_filtered(lv.skip(i as int)),
        decreases lines@.len() - i,
    {
        proof {
            assert(lv.skip(i as int)[0] == lv[i as int]);
            assert(lv.skip(i as int).drop_first() =~= lv.skip(i as int + 1));
        }
        if !line_has_doc_marker(lines[i].as_str()) {
            let kept = crate::text::str_to_string(lines[i].as_str());
            let ghost before = r@;
            r.push(kept);
            proof {
                crate::text::lemma_strs_view_push(before, kept);
            }
        }
        i = i + 1;
    }
    proof {
        assert(lv.skip(lv.len() as int) =~= Seq::<Seq<char>>::empty());
        assert(doc_filtered(Seq::<Seq<char>>::empty()) =~= Seq::<Seq<char>>::empty());
        assert(strs_view(r@) =~= doc_filtered(lv));
    }
    r
}

/// Removes the first `#[cfg(test)] mod tests { ... }` block.
fn remove_tests(lines: &Vec<String>) -> (r: Vec<String>)
    requires
        remove_tests_ok(strs_view(lines@)),
    ensures
        strs_view(r@) == tests_removed(strs_view(lines@)),
{
    let ghost lv = strs_view(lines@);
    proof {
        reveal_strlit("mod tests {");
        reveal_strlit("#[cfg(test)]");
        reveal_strlit("}");
    }
    let mut t: usize = 0;
    let mut hit = false;
    while t < lines.len() && !hit
        invariant
            0 <= t <= lines@.len(),
            lv == strs_view(lines@),
            hit ==> t < lv.len() && lv[t as int] == "mod tests {"@,
            forall|j: int| 0 <= j < t ==> lv[j] != "mod tests {"@,
        decreases lines@.len() - t + (if hit { 0int } else { 1 }),
    {
        if str_eq(lines[t].as_str(), "mod tests {") {
            hit = true;
        } else {
            t = t + 1;
        }
    }
    proof {
        lemma_line_to(lv, 0, "mod tests {"@);
        assert(line_to(lv, 0, "mod tests {"@) == t) by {
            if line_to(lv, 0, "mod tests {"@) < t {
            }
        }
    }
    if t == lines.len() {
        let mut r: Vec<String> = Vec::new();
        let mut k: usize = 0;
        while k < lines.len()
            invariant
                0 <= k <= lines@.len(),
                lv == strs_view(lines@),
                strs_view(r@) == lv.subrange(0, k as int),
            decreases lines@.len() - k,
        {
            let kept = crate::text::str_to_string(lines[k].as_str());
            let ghost before = r@;
            r.push(kept);
            k = k + 1;
            proof {
                crate::text::lemma_strs_view_push(before, kept);
                assert(strs_view(r@) =~= lv.subrange(0, k as int));
            }
        }
        proof {
            assert(lv.subrange(0, lv.len() as int) =~= lv);
        }
        return r;
    }
    let start = t - 1;
    let mut c: usize = start;
    let mut closed = false;
    while c < lines.len() && !closed
        invariant
            start <= c <= lines@.len(),
            lv == strs_view(lines@),
            closed ==> c < lv.len() && lv[c as int] == "}"@,
            forall|j: int| start <= j < c ==> lv[j] != "}"@,
        decreases lines@.len() - c + (if closed { 0int } else { 1 }),
    {
        if str_eq(lines[c].as_str(), "}") {
            closed = true;
        } else {
            c = c + 1;
        }
    }
    proof {
        lemma_line_to(lv, start as int, "}"@);
        assert(line_to(lv, start as int, "}"@) == c) by {
            if line_to(lv, start as int, "}"@) < c {
            }
        }
        assert(c < lv.len());
    }
    let mut r: Vec<String> = Vec::new();
    let mut k: usize = 0;
    while k < start
        invariant
            0 <= k <= start,
            start < lines@.len(),
            lv == strs_view(lines@),
            strs_view(r@) == lv.subrange(0, k as int),
        decreases start - k,
    {
        let kept = crate::text::str_to_string(lines[k].as_str());
        let ghost before = r@;
        r.push(kept);
        k = k + 1;
        proof {
            crate::text::lemma_strs_view_push(before, kept);
            assert(strs_view(r@) =~= lv.subrange(0, k as int));
        }
    }
    let mut k2: usize = c + 1;
    while k2 < lines.len()
        invariant
            c + 1 <= k2 <= lines@.len(),
            start < lines@.len(),
            lv == strs_view(lines@),
            strs_view(r@) == lv.subrange(0, start as int) + lv.subrange(c + 1 as int, k2 as int),
        decreases lines@.len() - k2,
    {
        let kept = crate::text::str_to_string(lines[k2].as_str());
        let ghost before = r@;
        r.push(kept);
        k2 = k2 + 1;
        proof {
            crate::text::lemma_strs_view_push(before, kept);
            assert(strs_view(r@) =~= lv.subrange(0, start as int) + lv.subrange(
                c + 1 as int,
                k2 as int,
            ));
        }
    }
    proof {
        assert(lv.subrange(c + 1 as int, lv.len() as int) =~= lv.skip(c + 1 as int));
        assert(strs_view(r@) =~= tests_removed(lv));
    }
    r
}

fn subrange_matches(cs: &[char], pat: &[char], p: usize) -> (r: bool)
    requires
        p <= cs@.len(),
    ensures
        r == sub_at(cs@, pat@, p as int),
{
    let n = cs.len();
    if n - p < pat.len() {
        proof {
            assert(!sub_at(cs@, pat@, p as int));
        }
        return false;
    }
    let mut k: usize = 0;
    while k < pat.len()
        invariant
            0 <= k <= pat@.len(),
            n == cs@.len(),
            p + pat@.len() <= n,
            forall|j: int| 0 <= j < k ==> cs@[p + j] == pat@[j],
        decreases pat@.len() - k,
    {
        if cs[p + k] != pat[k] {
            proof {
                assert(cs@.subrange(p as int, p + pat@.len())[k as int] == cs@[p + k]);
            }
            return false;
        }
        k = k + 1;
    }
    proof {
        assert(cs@.subrange(p as int, p + pat@.len()) =~= pat@);
    }
    true
}

/// Replaces the first occurrence of `pat` in `l` with `crate::constant::`.
fn replace_dep_once(l: &String, pat: &Vec<char>) -> (r: String)
    ensures
        r@ == replace_first(l@, pat@, "crate::constant::"@),
{
    proof {
        reveal_strlit("crate::constant::");
    }
    let cs = str_to_chars(l.as_str());
    let mut p: usize = 0;
    let mut hit = false;
    while p < cs.len() && !hit
        invariant
            0 <= p <= cs@.len(),
            cs@ == l@,
            hit ==> sub_at(cs@, pat@, p as int),
            forall|j: int| 0 <= j < p ==> !sub_at(cs@, pat@, j),
        decreases cs@.len() - p + (if hit { 0int } else { 1 }),
    {
        if subrange_matches(cs.as_slice(), pat.as_slice(), p) {
            hit = true;
        } else {
            p = p + 1;
        }
    }
    proof {
        lemma_sub_to(cs@, pat@, 0);
        assert(sub_to(cs@, pat@, 0) == p) by {
            if sub_to(cs@, pat@, 0) < p {
            }
        }
    }
    if p == cs.len() {
        crate::text::str_to_string(l.as_str())
    } else {
        let mut out: Vec<char> = Vec::new();
        push_range(&mut out, cs.as_slice(), 0, p);
        let rep = str_to_chars("crate::constant::");
        push_range(&mut out, rep.as_slice(), 0, rep.len());
        let back = p + pat.len();
        push_range(&mut out, cs.as_slice(), back, cs.len());
        proof {
            assert(cs@.subrange(0, p as int) =~= cs@.take(p as int));
            assert(rep@.subrange(0, rep@.len() as int) =~= "crate::constant::"@);
            assert(cs@.subrange(back as int, cs@.len() as int) =~= cs@.skip(p + pat@.len()));
            assert(out@ =~= replace_first(l@, pat@, "crate::constant::"@));
        }
        chars_to_string(out.as_slice())
    }
}

/// Cleans a bundled file: removes documentation-comment lines, removes the
/// first `#[cfg(test)] mod tests { ... }` block, routes each dependency's
/// first `<dep>::` reference through `crate::constant::`, and drops
/// trailing blank lines.
pub fn remove(file_content: &str, deps: &[String]) -> (r: String)
    requires
        remove_tests_ok(doc_filtered(split_plain(file_content@))),
    ensures
        r@ == remove_spec(file_content@, strs_view(deps@)),
{
    let split = split_lines_plain(file_content);
    let filtered = remove_doc_comments(&split);
    let cleaned = remove_tests(&filtered);
    let ghost base = strs_view(cleaned@);
    let ghost dv = strs_view(deps@);
    let mut replaced: Vec<String> = Vec::new();
    let mut i: usize = 0;
    while i < cleaned.len()
        invariant
            0 <= i <= cleaned@.len(),
            base == strs_view(cleaned@),
            dv == strs_view(deps@),
            strs_view(replaced@) == all_deps_replaced(base, dv).take(i as int),
        decreases cleaned@.len() - i,
    {
        let mut line = crate::text::str_to_string(cleaned[i].as_str());
        proof {
            assert(line@ == base[i as int]);
        }
        let mut k: usize = 0;
        while k < deps.len()
            invariant
                0 <= k <= deps@.len(),
                dv == strs_view(deps@),
                base == strs_view(cleaned@),
                0 <= i < cleaned@.len(),
                deps_replaced(base[i as int], dv, 0) == deps_replaced(line@, dv, k as int),
            decreases deps@.len() - k,
        {
            proof {
                reveal_strlit("::");
            }
            let ghost old_line = line@;
            let mut pat = str_to_chars(deps[k].as_str());
            pat.push(':');
            pat.push(':');
            proof {
                assert(pat@ =~= dv[k as int] + "::"@);
            }
            line = replace_dep_once(&line, &pat);
            k = k + 1;
            proof {
                assert(deps_replaced(old_line, dv, k - 1 as int) == deps_replaced(
                    line@,
                    dv,
                    k as int,
                ));
            }
        }
        proof {
            assert(deps_replaced(line@, dv, dv.len() as int) == line@);
        }
        let ghost before = replaced@;
        let ghost lv2 = line@;
        replaced.push(line);
        i = i + 1;
        proof {
            crate::text::lemma_strs_view_push(before, replaced@[i - 1 as int]);
            assert(all_deps_replaced(base, dv)[i - 1 as int] == deps_replaced(
                base[i - 1 as int],
                dv,
                0,
            ));
            assert(all_deps_replaced(base, dv).take(i as int) =~= all_deps_replaced(
                base,
                dv,
            ).take(i - 1 as int).push(lv2));
            assert(strs_view(replaced@) =~= all_deps_replaced(base, dv).take(i as int));
        }
    }
    proof {
        assert(all_deps_replaced(base, dv).take(base.len() as int) =~= all_deps_replaced(
            base,
            dv,
        ));
    }
    let mut trimmed = replaced;
    while trimmed.len() > 0 && trimmed[trimmed.len() - 1].as_str().is_empty()
        invariant
            trail_trimmed(strs_view(trimmed@)) == trail_trimmed(all_deps_replaced(base, dv)),
        decreases trimmed@.len(),
    {
        let ghost old_sv = strs_view(trimmed@);
        proof {
            assert(old_sv.last().len() == 0);
        }
        trimmed.pop();
        proof {
            assert(strs_view(trimmed@) =~= old_sv.drop_last());
            assert(trail_trimmed(old_sv) == trail_trimmed(old_sv.drop_last()));
        }
    }
    proof {
        let sv = strs_view(trimmed@);
        assert(trail_trimmed(sv) == sv) by {
            if sv.len() > 0 {
                assert(sv.last() == trimmed@[trimmed@.len() - 1]@);
            }
        }
    }
    join_lines(&trimmed)
}

} // verus!
