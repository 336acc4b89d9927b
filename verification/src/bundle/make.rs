use vstd::prelude::*;

use crate::parse_line::{at, is_ws, lemma_ws_to, rtrim_len, ws_to};
use crate::text::{chars_to_string, split_lines_plain, split_plain, str_eq, str_to_chars, strs_view};

verus! {

/// What the hand-rolled manifest reader yields: the crate's name and the
/// names of its dependencies.
pub struct Made {
    pub name: String,
    pub deps: Vec<String>,
}

/// `name = "` appears at index `p`.
pub open spec fn name_pat_at(l: Seq<char>, p: int) -> bool {
    at(l, p, 'n') && at(l, p + 1, 'a') && at(l, p + 2, 'm') && at(l, p + 3, 'e') && at(
        l,
        p + 4,
        ' ',
    ) && at(l, p + 5, '=') && at(l, p + 6, ' ') && at(l, p + 7, '"')
}

/// First index at or after `i` where `name = "` appears, or the length.
pub open spec fn pat_to(l: Seq<char>, i: int) -> int
    decreases l.len() - i,
    when 0 <= i <= l.len()
{
    if i == l.len() || name_pat_at(l, i) {
        i
    } else {
        pat_to(l, i + 1)
    }
}

proof fn lemma_pat_to(l: Seq<char>, i: int)
    requires
        0 <= i <= l.len(),
    ensures
        i <= pat_to(l, i) <= l.len(),
        pat_to(l, i) < l.len() ==> name_pat_at(l, pat_to(l, i)),
        forall|j: int| i <= j < pat_to(l, i) ==> !name_pat_at(l, j),
    decreases l.len() - i,
{
    if !(i == l.len() || name_pat_at(l, i)) {
        lemma_pat_to(l, i + 1);
    }
}

/// Index of the last `"` of `l`, or `-1`.
pub open spec fn last_quote(l: Seq<char>) -> int
    decreases l.len(),
{
    if l.len() == 0 {
        -1
    } else if l.last() == '"' {
        l.len() - 1
    } else {
        last_quote(l.drop_last())
    }
}

proof fn lemma_last_quote_at(l: Seq<char>, e: int)
    requires
        0 <= e <= l.len(),
        forall|k: int| e <= k < l.len() ==> l[k] != '"',
        e == 0 || l[e - 1] == '"',
    ensures
        last_quote(l) == e - 1,
    decreases l.len(),
{
    if e == l.len() {
        if l.len() != 0 {
            assert(l.last() == '"');
        }
    } else {
        assert(l.last() != '"');
        lemma_last_quote_at(l.drop_last(), e);
    }
}

/// What a `name = "..."` line names: the text between the opening quote of
/// the first such pattern and the line's last quote.
pub open spec fn name_capture(l: Seq<char>) -> Option<Seq<char>> {
    let p = pat_to(l, 0);
    if p == l.len() {
        None
    } else {
        let q = last_quote(l);
        if q >= p + 8 {
            Some(l.subrange(p + 8, q))
        } else {
            None
        }
    }
}

/// The crate name the manifest's first `name = "..."` line gives.
pub open spec fn crate_name_of(lines: Seq<Seq<char>>) -> Option<Seq<char>>
    decreases lines.len(),
{
    if lines.len() == 0 {
        None
    } else {
        match name_capture(lines[0]) {
            Some(n) => Some(n),
            None => crate_name_of(lines.drop_first()),
        }
    }
}

/// First index at or after `i` holding `c`, or the length.
pub open spec fn char_to(l: Seq<char>, i: int, c: char) -> int
    decreases l.len() - i,
    when 0 <= i <= l.len()
{
    if i == l.len() || l[i] == c {
        i
    } else {
        char_to(l, i + 1, c)
    }
}

proof fn lemma_char_to(l: Seq<char>, i: int, c: char)
    requires
        0 <= i <= l.len(),
    ensures
        i <= char_to(l, i, c) <= l.len(),
        char_to(l, i, c) < l.len() ==> l[char_to(l, i, c)] == c,
        forall|j: int| i <= j < char_to(l, i, c) ==> l[j] != c,
    decreases l.len() - i,
{
    if !(i == l.len() || l[i] == c) {
        lemma_char_to(l, i + 1, c);
    }
}

/// Whether the line mentions a section: a `[` with some `]` after it.
pub open spec fn has_section(l: Seq<char>) -> bool {
    let b = char_to(l, 0, '[');
    b < l.len() && char_to(l, b + 1, ']') < l.len()
}

/// First index at or after `s` whose line mentions a section, or the length.
pub open spec fn section_to(lines: Seq<Seq<char>>, s: int) -> int
    decreases lines.len() - s,
    when 0 <= s <= lines.len()
{
    if s == lines.len() || has_section(lines[s]) {
        s
    } else {
        section_to(lines, s + 1)
    }
}

proof fn lemma_section_to(lines: Seq<Seq<char>>, s: int)
    requires
        0 <= s <= lines.len(),
    ensures
        s <= section_to(lines, s) <= lines.len(),
        section_to(lines, s) < lines.len() ==> has_section(lines[section_to(lines, s)]),
        forall|j: int| s <= j < section_to(lines, s) ==> !has_section(lines[j]),
    decreases lines.len() - s,
{
    if !(s == lines.len() || has_section(lines[s])) {
        lemma_section_to(lines, s + 1);
    }
}

/// First index at or after `s` whose line is exactly `[dependencies]`, or
/// the length.
pub open spec fn deps_header_to(lines: Seq<Seq<char>>, s: int) -> int
    decreases lines.len() - s,
    when 0 <= s <= lines.len()
{
    if s == lines.len() || lines[s] == "[dependencies]"@ {
        s
    } else {
        deps_header_to(lines, s + 1)
    }
}

proof fn lemma_deps_header_to(lines: Seq<Seq<char>>, s: int)
    requires
        0 <= s <= lines.len(),
    ensures
        s <= deps_header_to(lines, s) <= lines.len(),
        deps_header_to(lines, s) < lines.len() ==> lines[deps_header_to(lines, s)]
            == "[dependencies]"@,
        forall|j: int| s <= j < deps_header_to(lines, s) ==> lines[j] != "[dependencies]"@,
    decreases lines.len() - s,
{
    if !(s == lines.len() || lines[s] == "[dependencies]"@) {
        lemma_deps_header_to(lines, s + 1);
    }
}

/// The lines of the `[dependencies]` section: those between the header and
/// the next section line, or nothing without a header.
pub open spec fn dependencies_lines_spec(lines: Seq<Seq<char>>) -> Seq<Seq<char>> {
    let s = deps_header_to(lines, 0);
    if s == lines.len() {
        Seq::empty()
    } else {
        lines.subrange(s + 1, section_to(lines, s + 1))
    }
}

/// `l` with leading and trailing whitespace removed.
pub open spec fn trimmed(l: Seq<char>) -> Seq<char> {
    if ws_to(l, 0) >= rtrim_len(l) {
        Seq::empty()
    } else {
        l.subrange(ws_to(l, 0), rtrim_len(l))
    }
}

/// The dependency name of one section line: what stands left of the first
/// `=`, trimmed; nothing when that is empty before trimming.
pub open spec fn dep_name_of_line(l: Seq<char>) -> Option<Seq<char>> {
    let e = char_to(l, 0, '=');
    if e == 0 {
        None
    } else {
        Some(trimmed(l.take(e)))
    }
}

/// All dependency names of the section lines, in order.
pub open spec fn dep_names_of(lines: Seq<Seq<char>>) -> Seq<Seq<char>>
    decreases lines.len(),
{
    if lines.len() == 0 {
        Seq::empty()
    } else {
        match dep_name_of_line(lines[0]) {
            Some(n) => seq![n] + dep_names_of(lines.drop_first()),
            None => dep_names_of(lines.drop_first()),
        }
    }
}

// ---------------------------------------------------------------------------
// Executable readers.
// ---------------------------------------------------------------------------

fn has_name_pat(cs: &[char], p: usize) -> (r: bool)
    requires
        p <= cs@.len(),
    ensures
        r == name_pat_at(cs@, p as int),
{
    cs.len() - p >= 8 && cs[p] == 'n' && cs[p + 1] == 'a' && cs[p + 2] == 'm' && cs[p + 3] == 'e'
        && cs[p + 4] == ' ' && cs[p + 5] == '=' && cs[p + 6] == ' ' && cs[p + 7] == '"'
}

fn find_char(cs: &[char], i: usize, c: char) -> (r: usize)
    requires
        i <= cs@.len(),
    ensures
        r == char_to(cs@, i as int, c),
        i <= r <= cs@.len(),
    decreases cs@.len() - i,
{
    if i == cs.len() || cs[i] == c {
        i
    } else {
        find_char(cs, i + 1, c)
    }
}

/// The crate name of one `name = "..."` line, if the line is one.
fn name_of_line(l: &str) -> (r: Option<String>)
    ensures
        match r {
            Some(n) => name_capture(l@) == Some(n@),
            None => name_capture(l@) is None,
        },
{
    let cs = str_to_chars(l);
    let mut p: usize = 0;
    while p < cs.len() && !has_name_pat(cs.as_slice(), p)
        invariant
            0 <= p <= cs@.len(),
            cs@ == l@,
            forall|j: int| 0 <= j < p ==> !name_pat_at(cs@, j),
        decreases cs@.len() - p,
    {
        p = p + 1;
    }
    proof {
        lemma_pat_to(cs@, 0);
        assert(pat_to(cs@, 0) == p) by {
            lemma_pat_to(cs@, 0);
            if pat_to(cs@, 0) < p {
            }
        }
    }
    if p == cs.len() {
        return None;
    }
    let mut e: usize = cs.len();
    while e > 0 && cs[e - 1] != '"'
        invariant
            0 <= e <= cs@.len(),
            cs@ == l@,
            forall|k: int| e <= k < cs@.len() ==> cs@[k] != '"',
        decreases e,
    {
        e = e - 1;
    }
    proof {
        lemma_last_quote_at(cs@, e as int);
    }
    if e >= 1 && e - 1 >= p + 8 {
        Some(chars_to_string(vstd::slice::slice_subrange(cs.as_slice(), p + 8, e - 1)))
    } else {
        None
    }
}

fn line_has_section(l: &str) -> (r: bool)
    ensures
        r == has_section(l@),
{
    let cs = str_to_chars(l);
    let b = find_char(cs.as_slice(), 0, '[');
    if b == cs.len() {
        return false;
    }
    let c = find_char(cs.as_slice(), b + 1, ']');
    c < cs.len()
}

/// The names of the `[dependencies]` section's entries, in order.
pub fn dependencies_names(lines: &Vec<String>) -> (r: Vec<String>)
    ensures
        strs_view(r@) == dep_names_of(dependencies_lines_spec(strs_view(lines@))),
{
    let ghost lv = strs_view(lines@);
    proof {
        reveal_strlit("[dependencies]");
    }
    let mut s: usize = 0;
    let mut hit = false;
    while s < lines.len() && !hit
        invariant
            0 <= s <= lines@.len(),
            lv == strs_view(lines@),
            hit ==> s < lv.len() && lv[s as int] == "[dependencies]"@,
            forall|j: int| 0 <= j < s ==> lv[j] != "[dependencies]"@,
        decreases lines@.len() - s + (if hit { 0int } else { 1 }),
    {
        if str_eq(lines[s].as_str(), "[dependencies]") {
            hit = true;
        } else {
            s = s + 1;
        }
    }
    proof {
        lemma_deps_header_to(lv, 0);
        assert(deps_header_to(lv, 0) == s) by {
            if deps_header_to(lv, 0) < s {
            }
        }
    }
    if s == lines.len() {
        let r: Vec<String> = Vec::new();
        proof {
            assert(strs_view(r@) =~= Seq::<Seq<char>>::empty());
            assert(dep_names_of(Seq::<Seq<char>>::empty()) =~= Seq::<Seq<char>>::empty());
        }
        return r;
    }
    let mut e: usize = s + 1;
    let mut ended = false;
    while e < lines.len() && !ended
        invariant
            s + 1 <= e <= lines@.len(),
            lv == strs_view(lines@),
            ended ==> e < lv.len() && has_section(lv[e as int]),
            forall|j: int| s + 1 <= j < e ==> !has_section(lv[j]),
        decreases lines@.len() - e + (if ended { 0int } else { 1 }),
    {
        if line_has_section(lines[e].as_str()) {
            ended = true;
        } else {
            e = e + 1;
        }
    }
    proof {
        lemma_section_to(lv, s as int + 1);
        assert(section_to(lv, s as int + 1) == e) by {
            if section_to(lv, s as int + 1) < e {
            }
        }
    }
    let ghost section = lv.subrange(s as int + 1, e as int);
    let mut r: Vec<String> = Vec::new();
    let mut k: usize = s + 1;
    proof {
        assert(strs_view(r@) =~= Seq::<Seq<char>>::empty());
        assert(section.skip(0) =~= section);
        assert(dep_names_of(section) =~= Seq::<Seq<char>>::empty() + dep_names_of(
            section.skip(0),
        ));
    }
    while k < e
        invariant
            s + 1 <= k <= e <= lines@.len(),
            lv == strs_view(lines@),
            section == lv.subrange(s as int + 1, e as int),
            dep_names_of(section) == strs_view(r@) + dep_names_of(
                section.skip(k - s - 1 as int),
            ),
        decreases e - k,
    {
        let ghost off = k - s - 1 as int;
        proof {
            assert(section.skip(off)[0] == section[off]);
            assert(section[off] == lv[k as int]);
            assert(section.skip(off).drop_first() =~= section.skip(off + 1));
        }
        let cs = str_to_chars(lines[k].as_str());
        let eq = find_char(cs.as_slice(), 0, '=');
        if eq > 0 {
            let left = vstd::slice::slice_subrange(cs.as_slice(), 0, eq);
            proof {
                assert(left@ =~= lv[k as int].take(char_to(lv[k as int], 0, '=')));
            }
            let t = trim_chars(left);
            let ghost before = r@;
            r.push(t);
            proof {
                crate::text::lemma_strs_view_push(before, t);
                assert(strs_view(r@) =~= strs_view(before).push(t@));
            }
        }
        k = k + 1;
    }
    proof {
        assert(section.skip(e - s - 1 as int) =~= Seq::<Seq<char>>::empty());
        assert(dep_names_of(Seq::<Seq<char>>::empty()) =~= Seq::<Seq<char>>::empty());
        assert(strs_view(r@) =~= dep_names_of(section));
        assert(dependencies_lines_spec(lv) == section);
    }
    r
}

/// The line's characters with leading and trailing whitespace removed.
fn trim_chars(cs: &[char]) -> (r: String)
    ensures
        r@ == trimmed(cs@),
{
    let mut a: usize = 0;
    while a < cs.len() && is_ws_exec(cs[a])
        invariant
            0 <= a <= cs@.len(),
            forall|j: int| 0 <= j < a ==> is_ws(cs@[j]),
        decreases cs@.len() - a,
    {
        a = a + 1;
    }
    proof {
        lemma_ws_to(cs@, 0);
        assert(ws_to(cs@, 0) == a) by {
            lemma_ws_to_pin(cs@, a as int);
        }
    }
    let mut b: usize = cs.len();
    while b > 0 && is_ws_exec(cs[b - 1])
        invariant
            0 <= b <= cs@.len(),
            forall|k: int| b <= k < cs@.len() ==> is_ws(cs@[k]),
        decreases b,
    {
        b = b - 1;
    }
    proof {
        crate::parse_line::lemma_rtrim_len(cs@, b as int);
    }
    if a >= b {
        let r = String::new();
        r
    } else {
        chars_to_string(vstd::slice::slice_subrange(cs, a, b))
    }
}

fn is_ws_exec(c: char) -> (r: bool)
    ensures
        r == is_ws(c),
{
    c == ' ' || c == '\t' || c == '\n' || c == '\r' || c == '\u{b}' || c == '\u{c}'
}

/// Pins the whitespace scan down to the index the loop found.
proof fn lemma_ws_to_pin(l: Seq<char>, a: int)
    requires
        0 <= a <= l.len(),
        forall|j: int| 0 <= j < a ==> is_ws(l[j]),
        a == l.len() || !is_ws(l[a]),
    ensures
        ws_to(l, 0) == a,
{
    lemma_ws_to(l, 0);
    if ws_to(l, 0) < a {
    }
}

/// Reads the crate name and the dependency names out of a manifest text,
/// line by line: the name from the first `name = "..."` line, the
/// dependencies from what stands left of `=` in the `[dependencies]`
/// section.
pub fn make(lines: &str) -> (r: Made)
    requires
        crate_name_of(split_plain(lines@)) is Some,
    ensures
        Some(r.name@) == crate_name_of(split_plain(lines@)),
        strs_view(r.deps@) == dep_names_of(dependencies_lines_spec(split_plain(lines@))),
{
    let split = split_lines_plain(lines);
    let ghost lv = strs_view(split@);
    let mut i: usize = 0;
    let mut found: Option<String> = None;
    proof {
        assert(lv.skip(0) =~= lv);
    }
    while i < split.len() && found.is_none()
        invariant
            0 <= i <= split@.len(),
            lv == strs_view(split@),
            match found {
                Some(n) => crate_name_of(lv.skip(0)) == Some(n@),
                None => crate_name_of(lv) == crate_name_of(lv.skip(i as int)),
            },
        decreases split@.len() - i + (if found is None { 1int } else { 0 }),
    {
        proof {
            assert(lv.skip(i as int)[0] == lv[i as int]);
            assert(lv.skip(i as int).drop_first() =~= lv.skip(i as int + 1));
        }
        match name_of_line(split[i].as_str()) {
            Some(n) => {
                proof {
                    assert(lv.skip(0) =~= lv);
                }
                found = Some(n);
            },
            None => {
                i = i + 1;
            },
        }
    }
    match found {
        Some(name) => {
            proof {
                assert(lv.skip(0) =~= lv);
            }
            let deps = dependencies_names(&split);
            Made { name, deps }
        },
        None => {
            proof {
                assert(lv.skip(lv.len() as int) =~= Seq::<Seq<char>>::empty());
                assert(crate_name_of(Seq::<Seq<char>>::empty()) is None);
                assert(false);
            }
            Made { name: String::new(), deps: Vec::new() }
        },
    }
}

} // verus!
