use vstd::prelude::*;

use crate::parse_line::{at, is_ws, lemma_ws_to, ws_to};
use crate::text::{chars_to_string, split_lines_plain, split_plain, str_to_chars, strs_view};

pub mod data_structures;

use data_structures::{Location, Module, Segment, Vis};

verus! {

/// First character of a module name in this scan: letters or `|`.
pub open spec fn scan_start(c: char) -> bool {
    ('a' <= c && c <= 'z') || ('A' <= c && c <= 'Z') || c == '|'
}

/// Later characters of a module name in this scan: letters, digits, `_`,
/// `|` and `}`.
pub open spec fn scan_cont(c: char) -> bool {
    scan_start(c) || ('0' <= c && c <= '9') || c == '_' || c == '}'
}

/// Index of the first character at or after `i` that cannot continue a
/// scanned name, or the length.
pub open spec fn scan_to(l: Seq<char>, i: int) -> int
    decreases l.len() - i,
    when 0 <= i <= l.len()
{
    if i == l.len() || !scan_cont(l[i]) {
        i
    } else {
        scan_to(l, i + 1)
    }
}

proof fn lemma_scan_to(l: Seq<char>, i: int)
    requires
        0 <= i <= l.len(),
    ensures
        i <= scan_to(l, i) <= l.len(),
        scan_to(l, i) < l.len() ==> !scan_cont(l[scan_to(l, i)]),
        forall|j: int| i <= j < scan_to(l, i) ==> scan_cont(l[j]),
    decreases l.len() - i,
{
    if !(i == l.len() || !scan_cont(l[i])) {
        lemma_scan_to(l, i + 1);
    }
}

pub open spec fn mod_word_at(l: Seq<char>, m: int) -> bool {
    at(l, m, 'm') && at(l, m + 1, 'o') && at(l, m + 2, 'd')
}

/// The rest of an inline opening after a visibility qualifier ending at `q`:
/// whitespace, `mod`, whitespace, a name, whitespace, `{`.
pub open spec fn rest_inline(l: Seq<char>, q: int) -> Option<Seq<char>> {
    let m = ws_to(l, q);
    if mod_word_at(l, m) {
        let n0 = ws_to(l, m + 3);
        if n0 < l.len() && scan_start(l[n0]) {
            let e = scan_to(l, n0 + 1);
            if at(l, ws_to(l, e), '{') {
                Some(l.subrange(n0, e))
            } else {
                None
            }
        } else {
            None
        }
    } else {
        None
    }
}

/// The rest of an external declaration after a visibility qualifier ending
/// at `q`: whitespace, `mod` and one space, a name, `;` directly after.
pub open spec fn rest_external(l: Seq<char>, q: int) -> Option<Seq<char>> {
    let m = ws_to(l, q);
    if mod_word_at(l, m) && at(l, m + 3, ' ') {
        let n0 = m + 4;
        if n0 < l.len() && scan_start(l[n0]) {
            let e = scan_to(l, n0 + 1);
            if at(l, e, ';') {
                Some(l.subrange(n0, e))
            } else {
                None
            }
        } else {
            None
        }
    } else {
        None
    }
}

pub open spec fn word_at(l: Seq<char>, p: int, w: Seq<char>) -> bool {
    p + w.len() <= l.len() && l.subrange(p, p + w.len()) == w
}

/// The rest of a declaration, inline or external.
pub open spec fn rest_of(inline: bool, s: Seq<char>, q: int) -> Option<Seq<char>> {
    if inline {
        rest_inline(s, q)
    } else {
        rest_external(s, q)
    }
}

/// One visibility qualifier together with the declaration's rest, tried at
/// position `p` in the order the scanner prefers: no qualifier first, then
/// `pub`, `pub(self)`, `pub(super)`, `pub(crate)`.
pub open spec fn decl_at(l: Seq<char>, p: int, inline: bool) -> Option<(Seq<char>, Seq<char>)> {
    if rest_of(inline, l, p) is Some {
        Some((Seq::empty(), rest_of(inline, l, p)->Some_0))
    } else if word_at(l, p, "pub"@) && rest_of(inline, l, p + 3) is Some {
        Some(("pub"@, rest_of(inline, l, p + 3)->Some_0))
    } else if word_at(l, p, "pub(self)"@) && rest_of(inline, l, p + 9) is Some {
        Some(("pub(self)"@, rest_of(inline, l, p + 9)->Some_0))
    } else if word_at(l, p, "pub(super)"@) && rest_of(inline, l, p + 10) is Some {
        Some(("pub(super)"@, rest_of(inline, l, p + 10)->Some_0))
    } else if word_at(l, p, "pub(crate)"@) && rest_of(inline, l, p + 10) is Some {
        Some(("pub(crate)"@, rest_of(inline, l, p + 10)->Some_0))
    } else {
        None
    }
}

/// First position at or after `p` where a declaration matches, or the length.
pub open spec fn decl_to(l: Seq<char>, p: int, inline: bool) -> int
    decreases l.len() - p,
    when 0 <= p <= l.len()
{
    if p == l.len() || decl_at(l, p, inline) is Some {
        p
    } else {
        decl_to(l, p + 1, inline)
    }
}

proof fn lemma_decl_to(l: Seq<char>, p: int, inline: bool)
    requires
        0 <= p <= l.len(),
    ensures
        p <= decl_to(l, p, inline) <= l.len(),
        decl_to(l, p, inline) < l.len() ==> decl_at(l, decl_to(l, p, inline), inline) is Some,
        forall|j: int| p <= j < decl_to(l, p, inline) ==> decl_at(l, j, inline) is None,
    decreases l.len() - p,
{
    if !(p == l.len() || decl_at(l, p, inline) is Some) {
        lemma_decl_to(l, p + 1, inline);
    }
}

/// The leftmost inline-opening match of the line.
pub open spec fn inline_match(l: Seq<char>) -> Option<(Seq<char>, Seq<char>)> {
    let p = decl_to(l, 0, true);
    if p == l.len() {
        None
    } else {
        decl_at(l, p, true)
    }
}

/// The leftmost external-declaration match of the line.
pub open spec fn external_match(l: Seq<char>) -> Option<(Seq<char>, Seq<char>)> {
    let p = decl_to(l, 0, false);
    if p == l.len() {
        None
    } else {
        decl_at(l, p, false)
    }
}

/// What one line declares: an inline opening when it holds one, else an
/// external declaration, else nothing.
pub open spec fn line_module(l: Seq<char>) -> Option<(Seq<char>, Seq<char>, Location)> {
    match inline_match(l) {
        Some((vis, name)) => Some((vis, name, Location::Inline)),
        None => match external_match(l) {
            Some((vis, name)) => Some((vis, name, Location::External)),
            None => None,
        },
    }
}

/// The declarations of every line, in order.
pub open spec fn modules_of(lines: Seq<Seq<char>>) -> Seq<(Seq<char>, Seq<char>, Location)>
    decreases lines.len(),
{
    if lines.len() == 0 {
        Seq::empty()
    } else {
        match line_module(lines[0]) {
            Some(m) => seq![m] + modules_of(lines.drop_first()),
            None => modules_of(lines.drop_first()),
        }
    }
}

/// The view of one found declaration.
pub open spec fn module_decl_view(m: Module) -> (Seq<char>, Seq<char>, Location) {
    (m.vis.0@, m.name.0@, m.location)
}

// ---------------------------------------------------------------------------
// Executable scanner.
// ---------------------------------------------------------------------------

fn skip_ws(cs: &[char], i: usize) -> (r: usize)
    requires
        i <= cs@.len(),
    ensures
        r == ws_to(cs@, i as int),
        i <= r <= cs@.len(),
    decreases cs@.len() - i,
{
    let cont = i < cs.len() && (cs[i] == ' ' || cs[i] == '\t' || cs[i] == '\n' || cs[i] == '\r'
        || cs[i] == '\u{b}' || cs[i] == '\u{c}');
    if cont {
        skip_ws(cs, i + 1)
    } else {
        proof {
            assert(i == cs@.len() || !is_ws(cs@[i as int]));
        }
        i
    }
}

fn skip_scan(cs: &[char], i: usize) -> (r: usize)
    requires
        i <= cs@.len(),
    ensures
        r == scan_to(cs@, i as int),
        i <= r <= cs@.len(),
    decreases cs@.len() - i,
{
    let cont = i < cs.len() && {
        let c = cs[i];
        ('a' <= c && c <= 'z') || ('A' <= c && c <= 'Z') || c == '|' || ('0' <= c && c <= '9') || c
            == '_' || c == '}'
    };
    if cont {
        skip_scan(cs, i + 1)
    } else {
        i
    }
}

fn rest_inline_exec(cs: &[char], q: usize) -> (r: Option<(usize, usize)>)
    requires
        q <= cs@.len(),
    ensures
        match r {
            Some((n0, e)) => rest_inline(cs@, q as int) == Some(cs@.subrange(n0 as int, e as int))
                && n0 <= e <= cs@.len(),
            None => rest_inline(cs@, q as int) is None,
        },
{
    let m = skip_ws(cs, q);
    if !(cs.len() - m >= 3 && cs[m] == 'm' && cs[m + 1] == 'o' && cs[m + 2] == 'd') {
        return None;
    }
    let n0 = skip_ws(cs, m + 3);
    if n0 < cs.len() {
        let c = cs[n0];
        if ('a' <= c && c <= 'z') || ('A' <= c && c <= 'Z') || c == '|' {
            let e = skip_scan(cs, n0 + 1);
            let w = skip_ws(cs, e);
            if w < cs.len() && cs[w] == '{' {
                return Some((n0, e));
            }
        }
    }
    None
}

fn rest_external_exec(cs: &[char], q: usize) -> (r: Option<(usize, usize)>)
    requires
        q <= cs@.len(),
    ensures
        match r {
            Some((n0, e)) => rest_external(cs@, q as int) == Some(
                cs@.subrange(n0 as int, e as int),
            ) && n0 <= e <= cs@.len(),
            None => rest_external(cs@, q as int) is None,
        },
{
    let m = skip_ws(cs, q);
    if !(cs.len() - m >= 4 && cs[m] == 'm' && cs[m + 1] == 'o' && cs[m + 2] == 'd' && cs[m + 3]
        == ' ') {
        return None;
    }
    let n0 = m + 4;
    if n0 < cs.len() {
        let c = cs[n0];
        if ('a' <= c && c <= 'z') || ('A' <= c && c <= 'Z') || c == '|' {
            let e = skip_scan(cs, n0 + 1);
            if e < cs.len() && cs[e] == ';' {
                return Some((n0, e));
            }
        }
    }
    None
}

fn has_word(cs: &[char], p: usize, w: &str) -> (r: bool)
    requires
        p <= cs@.len(),
    ensures
        r == word_at(cs@, p as int, w@),
{
    let wc = str_to_chars(w);
    if cs.len() - p < wc.len() {
        proof {
            assert(!word_at(cs@, p as int, w@));
        }
        return false;
    }
    let total = cs.len();
    let n = wc.len();
    let mut k: usize = 0;
    while k < n
        invariant
            0 <= k <= n,
            n == wc@.len(),
            wc@ == w@,
            total == cs@.len(),
            p + n <= total,
            forall|j: int| 0 <= j < k ==> cs@[p + j] == w@[j],
        decreases n - k,
    {
        if cs[p + k] != wc[k] {
            proof {
                assert(cs@.subrange(p as int, p + w@.len())[k as int] == cs@[p + k]);
            }
            return false;
        }
        k = k + 1;
    }
    proof {
        assert(cs@.subrange(p as int, p + w@.len()) =~= w@);
    }
    true
}

fn try_rest(cs: &[char], q: usize, inline: bool) -> (r: Option<(usize, usize)>)
    requires
        q <= cs@.len(),
    ensures
        match r {
            Some((n0, e)) => rest_of(inline, cs@, q as int) == Some(
                cs@.subrange(n0 as int, e as int),
            ) && n0 <= e <= cs@.len(),
            None => rest_of(inline, cs@, q as int) is None,
        },
{
    if inline {
        rest_inline_exec(cs, q)
    } else {
        rest_external_exec(cs, q)
    }
}

/// A declaration with an inline or external rest at position `p`.
fn decl_at_exec(cs: &[char], p: usize, inline: bool) -> (r: Option<(String, String)>)
    requires
        p <= cs@.len(),
    ensures
        match r {
            Some(vn) => decl_at(cs@, p as int, inline) == Some((vn.0@, vn.1@)),
            None => decl_at(cs@, p as int, inline) is None,
        },
{
    proof {
        reveal_strlit("pub");
        reveal_strlit("pub(self)");
        reveal_strlit("pub(super)");
        reveal_strlit("pub(crate)");
        reveal_strlit("");
    }
    let total = cs.len();
    if let Some((n0, e)) = try_rest(cs, p, inline) {
        let name = chars_to_string(vstd::slice::slice_subrange(cs, n0, e));
        return Some((crate::text::str_to_string(""), name));
    }
    if has_word(cs, p, "pub") {
        proof {
            assert(p + 3 <= cs@.len());
        }
        if let Some((n0, e)) = try_rest(cs, p + 3, inline) {
            let name = chars_to_string(vstd::slice::slice_subrange(cs, n0, e));
            return Some((crate::text::str_to_string("pub"), name));
        }
    }
    if has_word(cs, p, "pub(self)") {
        proof {
            assert(p + 9 <= cs@.len());
        }
        if let Some((n0, e)) = try_rest(cs, p + 9, inline) {
            let name = chars_to_string(vstd::slice::slice_subrange(cs, n0, e));
            return Some((crate::text::str_to_string("pub(self)"), name));
        }
    }
    if has_word(cs, p, "pub(super)") {
        proof {
            assert(p + 10 <= cs@.len());
        }
        if let Some((n0, e)) = try_rest(cs, p + 10, inline) {
            let name = chars_to_string(vstd::slice::slice_subrange(cs, n0, e));
            return Some((crate::text::str_to_string("pub(super)"), name));
        }
    }
    if has_word(cs, p, "pub(crate)") {
        proof {
            assert(p + 10 <= cs@.len());
        }
        if let Some((n0, e)) = try_rest(cs, p + 10, inline) {
            let name = chars_to_string(vstd::slice::slice_subrange(cs, n0, e));
            return Some((crate::text::str_to_string("pub(crate)"), name));
        }
    }
    None
}

/// The leftmost declaration of the line, inline (`inline` true) or external.
fn line_match_exec(l: &str, inline: bool) -> (r: Option<(String, String)>)
    ensures
        ({
            let spec_r = if decl_to(l@, 0, inline) == l@.len() {
                None
            } else {
                decl_at(l@, decl_to(l@, 0, inline), inline)
            };
            match r {
                Some(vn) => spec_r == Some((vn.0@, vn.1@)),
                None => spec_r is None,
            }
        }),
{
    let cs = str_to_chars(l);
    let mut p: usize = 0;
    let mut hit: Option<(String, String)> = None;
    while p < cs.len() && hit.is_none()
        invariant
            0 <= p <= cs@.len(),
            cs@ == l@,
            forall|j: int| 0 <= j < p ==> decl_at(l@, j, inline) is None,
            match hit {
                Some(vn) => p < cs@.len() && decl_at(l@, p as int, inline) == Some((
                    vn.0@,
                    vn.1@,
                )),
                None => true,
            },
        decreases cs@.len() - p + (if hit is None { 1int } else { 0 }),
    {
        match decl_at_exec(cs.as_slice(), p, inline) {
            Some(vn) => {
                hit = Some(vn);
            },
            None => {
                p = p + 1;
            },
        }
    }
    proof {
        lemma_decl_to(l@, 0, inline);
        let d = decl_to(l@, 0, inline);
        assert(d == p) by {
            if d < p {
                assert(decl_at(l@, d, inline) is None);
                assert(decl_at(l@, d, inline) is Some);
            }
            if d > p {
                assert(decl_at(l@, p as int, inline) is None);
                match hit {
                    Some(_) => {
                        assert(false);
                    },
                    None => {
                        assert(p == l@.len());
                        assert(false);
                    },
                }
            }
        }
    }
    hit
}

/// Scans every line of the text for module declarations, inline openings
/// preferred over external declarations, the leftmost match of each line
/// deciding its visibility and name.
pub fn extract(content: &str) -> (r: Vec<Module>)
    ensures
        r@.len() == modules_of(split_plain(content@)).len(),
        forall|i: int|
            0 <= i < r@.len() ==> #[trigger] module_decl_view(r@[i]) == modules_of(
                split_plain(content@),
            )[i],
{
    let split = split_lines_plain(content);
    let ghost lv = strs_view(split@);
    let ghost target = modules_of(lv);
    let mut r: Vec<Module> = Vec::new();
    let mut i: usize = 0;
    proof {
        assert(lv.skip(0) =~= lv);
    }
    while i < split.len()
        invariant
            0 <= i <= split@.len(),
            lv == strs_view(split@),
            target == modules_of(lv),
            modules_of(lv) == Seq::new(r@.len(), |j: int| module_decl_view(r@[j])) + modules_of(
                lv.skip(i as int),
            ),
        decreases split@.len() - i,
    {
        proof {
            assert(lv.skip(i as int)[0] == lv[i as int]);
            assert(lv.skip(i as int).drop_first() =~= lv.skip(i as int + 1));
        }
        let found: Option<(String, String, Location)> = match line_match_exec(
            split[i].as_str(),
            true,
        ) {
            Some(vn) => Some((vn.0, vn.1, Location::Inline)),
            None => match line_match_exec(split[i].as_str(), false) {
                Some(vn) => Some((vn.0, vn.1, Location::External)),
                None => None,
            },
        };
        match found {
            Some(vnl) => {
                let ghost before = r@;
                let m = Module { vis: Vis(vnl.0), name: Segment(vnl.1), location: vnl.2 };
                r.push(m);
                proof {
                    assert(Seq::new(r@.len(), |j: int| module_decl_view(r@[j])) =~= Seq::new(
                        before.len(),
                        |j: int| module_decl_view(before[j]),
                    ).push(module_decl_view(m)));
                }
            },
            None => {},
        }
        i = i + 1;
        proof {
            assert(modules_of(lv) =~= Seq::new(r@.len(), |j: int| module_decl_view(r@[j]))
                + modules_of(lv.skip(i as int)));
        }
    }
    proof {
        assert(lv.skip(lv.len() as int) =~= Seq::<Seq<char>>::empty());
        assert(modules_of(Seq::<Seq<char>>::empty()) =~= Seq::<
            (Seq<char>, Seq<char>, Location),
        >::empty());
        assert(Seq::new(r@.len(), |j: int| module_decl_view(r@[j])) + Seq::<
            (Seq<char>, Seq<char>, Location),
        >::empty() =~= Seq::new(r@.len(), |j: int| module_decl_view(r@[j])));
    }
    r
}

} // verus!
