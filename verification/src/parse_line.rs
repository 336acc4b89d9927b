use vstd::prelude::*;

use crate::text::{chars_to_string, str_to_chars, underscored};
use crate::TAB_LENGTH;

verus! {

/// The whitespace characters the line grammar recognizes.
pub open spec fn is_ws(c: char) -> bool {
    c == ' ' || c == '\t' || c == '\n' || c == '\r' || c == '\u{b}' || c == '\u{c}'
}

/// `s[i]` exists and is `c`.
pub open spec fn at(s: Seq<char>, i: int, c: char) -> bool {
    0 <= i < s.len() && s[i] == c
}

/// Index of the first non-whitespace character at or after `i`, or the length.
pub open spec fn ws_to(s: Seq<char>, i: int) -> int
    decreases s.len() - i,
    when 0 <= i <= s.len()
{
    if i == s.len() || !is_ws(s[i]) {
        i
    } else {
        ws_to(s, i + 1)
    }
}

pub proof fn lemma_ws_to(s: Seq<char>, i: int)
    requires
        0 <= i <= s.len(),
    ensures
        i <= ws_to(s, i) <= s.len(),
        ws_to(s, i) < s.len() ==> !is_ws(s[ws_to(s, i)]),
        forall|j: int| i <= j < ws_to(s, i) ==> is_ws(s[j]),
    decreases s.len() - i,
{
    if !(i == s.len() || !is_ws(s[i])) {
        lemma_ws_to(s, i + 1);
    }
}

/// First character that can start an identifier.
pub open spec fn ident_start(c: char) -> bool {
    ('a' <= c && c <= 'z') || ('A' <= c && c <= 'Z') || c == '_'
}

/// Character that can continue an identifier.
pub open spec fn ident_cont(c: char) -> bool {
    ident_start(c) || ('0' <= c && c <= '9')
}

/// Index of the first non-identifier character at or after `i`, or the length.
pub open spec fn ident_to(s: Seq<char>, i: int) -> int
    decreases s.len() - i,
    when 0 <= i <= s.len()
{
    if i == s.len() || !ident_cont(s[i]) {
        i
    } else {
        ident_to(s, i + 1)
    }
}

pub proof fn lemma_ident_to(s: Seq<char>, i: int)
    requires
        0 <= i <= s.len(),
    ensures
        i <= ident_to(s, i) <= s.len(),
        ident_to(s, i) < s.len() ==> !ident_cont(s[ident_to(s, i)]),
        forall|j: int| i <= j < ident_to(s, i) ==> ident_cont(s[j]),
    decreases s.len() - i,
{
    if !(i == s.len() || !ident_cont(s[i])) {
        lemma_ident_to(s, i + 1);
    }
}

/// Index of the first `)` at or after `i`, or the length.
pub open spec fn rparen_to(s: Seq<char>, i: int) -> int
    decreases s.len() - i,
    when 0 <= i <= s.len()
{
    if i == s.len() || s[i] == ')' {
        i
    } else {
        rparen_to(s, i + 1)
    }
}

pub proof fn lemma_rparen_to(s: Seq<char>, i: int)
    requires
        0 <= i <= s.len(),
    ensures
        i <= rparen_to(s, i) <= s.len(),
        rparen_to(s, i) < s.len() ==> s[rparen_to(s, i)] == ')',
        forall|j: int| i <= j < rparen_to(s, i) ==> s[j] != ')',
    decreases s.len() - i,
{
    if !(i == s.len() || s[i] == ')') {
        lemma_rparen_to(s, i + 1);
    }
}

pub open spec fn pub_at(s: Seq<char>, i: int) -> bool {
    at(s, i, 'p') && at(s, i + 1, 'u') && at(s, i + 2, 'b')
}

pub open spec fn mod_at(s: Seq<char>, i: int) -> bool {
    at(s, i, 'm') && at(s, i + 1, 'o') && at(s, i + 2, 'd')
}

/// Index just past a visibility qualifier (`pub` or `pub(...)`) and the
/// whitespace that must follow it, starting from the first non-whitespace
/// index `i`; `i` itself when there is no qualifier; nothing when a qualifier
/// starts but is malformed.
pub open spec fn after_vis(s: Seq<char>, i: int) -> Option<int> {
    if pub_at(s, i) {
        let j = i + 3;
        let k = ws_to(s, j);
        if at(s, k, '(') {
            let c = rparen_to(s, k + 1);
            if c >= s.len() || c == k + 1 {
                None
            } else if c + 1 < s.len() && is_ws(s[c + 1]) {
                Some(ws_to(s, c + 1))
            } else {
                None
            }
        } else if j < s.len() && is_ws(s[j]) {
            Some(k)
        } else {
            None
        }
    } else {
        Some(i)
    }
}

/// Start and end of the module name after a `mod` keyword at `m`.
pub open spec fn mod_name_at(s: Seq<char>, m: int) -> Option<(int, int)> {
    if mod_at(s, m) && m + 3 < s.len() && is_ws(s[m + 3]) {
        let n0 = ws_to(s, m + 3);
        if n0 < s.len() && ident_start(s[n0]) {
            Some((n0, ident_to(s, n0 + 1)))
        } else {
            None
        }
    } else {
        None
    }
}

/// Name start and end of a line of the form `[vis] mod <name>`, leaving the
/// terminator for the caller.
pub open spec fn module_head(s: Seq<char>) -> Option<(int, int)> {
    match after_vis(s, ws_to(s, 0)) {
        None => None,
        Some(m) => mod_name_at(s, m),
    }
}

/// The module name of an external module declaration `[vis] mod <name> ;`,
/// if the line is one.
pub open spec fn module_decl_name(s: Seq<char>) -> Option<Seq<char>> {
    match module_head(s) {
        None => None,
        Some((n0, n1)) => {
            let t = ws_to(s, n1);
            if at(s, t, ';') && ws_to(s, t + 1) == s.len() {
                Some(s.subrange(n0, n1))
            } else {
                None
            }
        },
    }
}

/// The module name of an inline module opening `[vis] mod <name> {`,
/// if the line is one.
pub open spec fn module_block_name(s: Seq<char>) -> Option<Seq<char>> {
    match module_head(s) {
        None => None,
        Some((n0, n1)) => {
            let t = ws_to(s, n1);
            if at(s, t, '{') && ws_to(s, t + 1) == s.len() {
                Some(s.subrange(n0, n1))
            } else {
                None
            }
        },
    }
}

/// The count of leading whitespace characters of a line that consists of
/// whitespace, one `}`, and whitespace, if the line is one.
pub open spec fn block_end_spaces(s: Seq<char>) -> Option<int> {
    let i = ws_to(s, 0);
    if at(s, i, '}') && ws_to(s, i + 1) == s.len() {
        Some(i)
    } else {
        None
    }
}

pub open spec fn cfg_word_at(s: Seq<char>, i: int) -> bool {
    at(s, i, 'c') && at(s, i + 1, 'f') && at(s, i + 2, 'g')
}

pub open spec fn test_word_at(s: Seq<char>, i: int) -> bool {
    at(s, i, 't') && at(s, i + 1, 'e') && at(s, i + 2, 's') && at(s, i + 3, 't')
}

/// Whether the line begins with the test-only attribute marker
/// `#[cfg(test)]`, any amount of whitespace allowed between the tokens.
pub open spec fn is_cfg_test(s: Seq<char>) -> bool {
    let i1 = ws_to(s, 0);
    at(s, i1, '#') && {
        let i2 = ws_to(s, i1 + 1);
        at(s, i2, '[') && {
            let i3 = ws_to(s, i2 + 1);
            cfg_word_at(s, i3) && {
                let i4 = ws_to(s, i3 + 3);
                at(s, i4, '(') && {
                    let i5 = ws_to(s, i4 + 1);
                    test_word_at(s, i5) && {
                        let i6 = ws_to(s, i5 + 4);
                        at(s, i6, ')') && {
                            let i7 = ws_to(s, i6 + 1);
                            at(s, i7, ']')
                        }
                    }
                }
            }
        }
    }
}

/// Whether the line, after leading whitespace, starts with `///` or `//!`.
pub open spec fn is_oneline_doc(s: Seq<char>) -> bool {
    let i = ws_to(s, 0);
    at(s, i, '/') && at(s, i + 1, '/') && (at(s, i + 2, '/') || at(s, i + 2, '!'))
}

/// Whether the line, after leading whitespace, starts with `/*!` or `/**`.
pub open spec fn is_block_doc_start(s: Seq<char>) -> bool {
    let i = ws_to(s, 0);
    at(s, i, '/') && at(s, i + 1, '*') && (at(s, i + 2, '!') || at(s, i + 2, '*'))
}

/// Length of `s` with trailing whitespace removed.
pub open spec fn rtrim_len(s: Seq<char>) -> int
    decreases s.len(),
{
    if s.len() == 0 {
        0
    } else if is_ws(s.last()) {
        rtrim_len(s.drop_last())
    } else {
        s.len() as int
    }
}

pub proof fn lemma_rtrim_len(s: Seq<char>, e: int)
    requires
        0 <= e <= s.len(),
        forall|j: int| e <= j < s.len() ==> is_ws(s[j]),
        e > 0 ==> !is_ws(s[e - 1]),
    ensures
        rtrim_len(s) == e,
    decreases s.len(),
{
    if s.len() > 0 {
        if e < s.len() {
            lemma_rtrim_len(s.drop_last(), e);
        }
    }
}

/// Whether the line, after trailing whitespace is removed, ends with `*/`.
pub open spec fn is_block_comment_end(s: Seq<char>) -> bool {
    let e = rtrim_len(s);
    e >= 2 && s[e - 2] == '*' && s[e - 1] == '/'
}


// ---------------------------------------------------------------------------
// Indentation removal.
// ---------------------------------------------------------------------------

/// `s` with leading whitespace consumed against `budget`: a space costs one
/// column, a tab costs a whole unit of four and is only consumed while at
/// least four columns remain; consumption stops at the first character that
/// does not fit.
pub open spec fn strip_indent(s: Seq<char>, budget: int) -> Seq<char>
    decreases s.len(),
{
    if s.len() == 0 {
        s
    } else if s[0] == ' ' {
        if budget <= 0 {
            s
        } else {
            strip_indent(s.drop_first(), budget - 1)
        }
    } else if s[0] == '\t' {
        if budget < TAB_LENGTH {
            s
        } else {
            strip_indent(s.drop_first(), budget - TAB_LENGTH)
        }
    } else {
        s
    }
}

fn strip_step(c: char, rest: u128) -> (r: bool)
    ensures
        r == ((c == ' ' && rest > 0) || (c == '\t' && rest >= TAB_LENGTH)),
{
    (c == ' ' && rest > 0) || (c == '\t' && rest >= 4)
}

/// Removes at most `indent_level` units of leading indentation.
pub fn remove_indentation(line: &str, indent_level: usize) -> (r: String)
    ensures
        r@ == strip_indent(line@, indent_level as int * TAB_LENGTH),
{
    let cs = str_to_chars(line);
    let ghost budget0: int = indent_level as int * TAB_LENGTH;
    let mut rest: u128 = (indent_level as u128) * 4;
    let mut i: usize = 0;
    proof {
        assert(cs@.skip(0) =~= cs@);
        assert(rest as int == budget0);
    }
    while i < cs.len() && strip_step(cs[i], rest)
        invariant
            0 <= i <= cs@.len(),
            cs@ == line@,
            rest <= budget0,
            strip_indent(line@, budget0) == strip_indent(cs@.skip(i as int), rest as int),
        decreases cs@.len() - i,
    {
        let c = cs[i];
        proof {
            assert(cs@.skip(i as int)[0] == cs@[i as int]);
            assert(cs@.skip(i as int).drop_first() =~= cs@.skip(i as int + 1));
        }
        if c == ' ' {
            rest = rest - 1;
        } else {
            rest = rest - 4;
        }
        i = i + 1;
    }
    proof {
        assert(strip_indent(cs@.skip(i as int), rest as int) == cs@.skip(i as int)) by {
            if i < cs@.len() {
                assert(cs@.skip(i as int)[0] == cs@[i as int]);
            }
        }
    }
    chars_to_string(vstd::slice::slice_subrange(cs.as_slice(), i, cs.len()))
}

// ---------------------------------------------------------------------------
// Path substitution.
// ---------------------------------------------------------------------------

/// `crate::` spelled out.
pub open spec fn crate_colon_seq() -> Seq<char> {
    seq!['c', 'r', 'a', 't', 'e', ':', ':']
}

/// The path separator `::`.
pub open spec fn colcol() -> Seq<char> {
    seq![':', ':']
}

/// `crate::` appears at index `i`.
pub open spec fn crate_ref_at(s: Seq<char>, i: int) -> bool {
    at(s, i, 'c') && at(s, i + 1, 'r') && at(s, i + 2, 'a') && at(s, i + 3, 't') && at(
        s,
        i + 4,
        'e',
    ) && at(s, i + 5, ':') && at(s, i + 6, ':')
}

/// `$crate` appears at index `i`.
pub open spec fn dollar_crate_at(s: Seq<char>, i: int) -> bool {
    at(s, i, '$') && at(s, i + 1, 'c') && at(s, i + 2, 'r') && at(s, i + 3, 'a') && at(
        s,
        i + 4,
        't',
    ) && at(s, i + 5, 'e')
}

/// First rewrite: every `crate::` that has some preceding character other
/// than `$` is qualified with the crate's own (underscore) name, scanning
/// left to right without overlap.
pub open spec fn subst_self(s: Seq<char>, nameu: Seq<char>) -> Seq<char>
    decreases s.len(),
{
    if crate_ref_at(s, 1) && s[0] != '$' {
        s.take(8) + nameu + colcol() + subst_self(s.skip(8), nameu)
    } else if s.len() == 0 {
        s
    } else {
        seq![s[0]] + subst_self(s.skip(1), nameu)
    }
}

/// Second rewrite: every `$crate` is extended to `$crate::<name>`, scanning
/// left to right without overlap.
pub open spec fn subst_dollar(s: Seq<char>, nameu: Seq<char>) -> Seq<char>
    decreases s.len(),
{
    if dollar_crate_at(s, 0) {
        s.take(6) + colcol() + nameu + subst_dollar(s.skip(6), nameu)
    } else if s.len() == 0 {
        s
    } else {
        seq![s[0]] + subst_dollar(s.skip(1), nameu)
    }
}

/// Character that can continue a dependency name: identifier characters and `-`.
pub open spec fn dep_cont(c: char) -> bool {
    ident_cont(c) || c == '-'
}

/// Index of the first character at or after `i` that cannot continue a
/// dependency name, or the length.
pub open spec fn dep_to(s: Seq<char>, i: int) -> int
    decreases s.len() - i,
    when 0 <= i <= s.len()
{
    if i == s.len() || !dep_cont(s[i]) {
        i
    } else {
        dep_to(s, i + 1)
    }
}

pub proof fn lemma_dep_to(s: Seq<char>, i: int)
    requires
        0 <= i <= s.len(),
    ensures
        i <= dep_to(s, i) <= s.len(),
        dep_to(s, i) < s.len() ==> !dep_cont(s[dep_to(s, i)]),
        forall|j: int| i <= j < dep_to(s, i) ==> dep_cont(s[j]),
    decreases s.len() - i,
{
    if !(i == s.len() || !dep_cont(s[i])) {
        lemma_dep_to(s, i + 1);
    }
}

/// Third rewrite: a whole name (identifier characters and `-`) directly
/// followed by `::` is routed through `crate::` when the name is a known
/// path dependency, and left alone otherwise, scanning left to right
/// without overlap.
pub open spec fn subst_deps(s: Seq<char>, deps: Seq<(String, String)>) -> Seq<char>
    decreases s.len(),
    via subst_deps_decreases
{
    if s.len() == 0 {
        s
    } else if ident_start(s[0]) && at(s, dep_to(s, 1), ':') && at(s, dep_to(s, 1) + 1, ':') {
        let e = dep_to(s, 1);
        let name = s.take(e);
        if crate::config_toml::is_dep_name(deps, name) {
            crate_colon_seq() + name + colcol() + subst_deps(s.skip(e + 2), deps)
        } else {
            name + colcol() + subst_deps(s.skip(e + 2), deps)
        }
    } else {
        seq![s[0]] + subst_deps(s.skip(1), deps)
    }
}

#[via_fn]
proof fn subst_deps_decreases(s: Seq<char>, deps: Seq<(String, String)>) {
    if s.len() > 0 {
        lemma_dep_to(s, 1);
    }
}

/// All three rewrites, applied in order.
pub open spec fn substituted(s: Seq<char>, crate_name: Seq<char>, deps: Seq<(String, String)>) -> Seq<
    char,
> {
    subst_deps(
        subst_dollar(subst_self(s, underscored(crate_name)), underscored(crate_name)),
        deps,
    )
}

/// Appends `cs[a..b]` to `out`.
pub(crate) fn push_range(out: &mut Vec<char>, cs: &[char], a: usize, b: usize)
    requires
        a <= b <= cs@.len(),
    ensures
        final(out)@ == old(out)@ + cs@.subrange(a as int, b as int),
    decreases cs@.len(),
{
    let mut k: usize = a;
    while k < b
        invariant
            a <= k <= b <= cs@.len(),
            out@ == old(out)@ + cs@.subrange(a as int, k as int),
        decreases b - k,
    {
        out.push(cs[k]);
        k = k + 1;
        proof {
            assert(out@ =~= old(out)@ + cs@.subrange(a as int, k as int));
        }
    }
    proof {
        assert(out@ =~= old(out)@ + cs@.subrange(a as int, b as int));
    }
}

fn has_crate_ref(cs: &[char], i: usize) -> (r: bool)
    requires
        i <= cs@.len(),
    ensures
        r == crate_ref_at(cs@, i as int),
{
    cs.len() - i >= 7 && cs[i] == 'c' && cs[i + 1] == 'r' && cs[i + 2] == 'a' && cs[i + 3] == 't'
        && cs[i + 4] == 'e' && cs[i + 5] == ':' && cs[i + 6] == ':'
}

fn has_dollar_crate(cs: &[char], i: usize) -> (r: bool)
    requires
        i <= cs@.len(),
    ensures
        r == dollar_crate_at(cs@, i as int),
{
    cs.len() - i >= 6 && cs[i] == '$' && cs[i + 1] == 'c' && cs[i + 2] == 'r' && cs[i + 3] == 'a'
        && cs[i + 4] == 't' && cs[i + 5] == 'e'
}

fn subst_self_into(cs: &[char], i: usize, nameu: &[char], out: &mut Vec<char>)
    requires
        i <= cs@.len(),
    ensures
        final(out)@ == old(out)@ + subst_self(cs@.skip(i as int), nameu@),
    decreases cs@.len() - i,
{
    let ghost sk = cs@.skip(i as int);
    if i == cs.len() {
        proof {
            assert(out@ =~= old(out)@ + subst_self(sk, nameu@));
        }
        return;
    }
    proof {
        assert(sk.len() > 0);
        assert(forall|k: int| 0 <= k < sk.len() ==> sk[k] == cs@[i + k]);
    }
    if has_crate_ref(cs, i + 1) && cs[i] != '$' {
        proof {
            assert(crate_ref_at(sk, 1));
            assert(sk.take(8) =~= cs@.subrange(i as int, i as int + 8));
            assert(sk.skip(8) =~= cs@.skip(i as int + 8));
        }
        push_range(out, cs, i, i + 8);
        let mut k: usize = 0;
        push_range(out, nameu, 0, nameu.len());
        proof {
            assert(nameu@.subrange(0, nameu@.len() as int) =~= nameu@);
        }
        out.push(':');
        out.push(':');
        let ghost mid = out@;
        subst_self_into(cs, i + 8, nameu, out);
        proof {
            assert(mid =~= old(out)@ + sk.take(8) + nameu@ + colcol());
            assert(out@ =~= old(out)@ + subst_self(sk, nameu@));
        }
    } else {
        proof {
            assert(!(crate_ref_at(sk, 1) && sk[0] != '$'));
            assert(sk.skip(1) =~= cs@.skip(i as int + 1));
        }
        out.push(cs[i]);
        let ghost mid = out@;
        subst_self_into(cs, i + 1, nameu, out);
        proof {
            assert(mid =~= old(out)@ + seq![sk[0]]);
            assert(out@ =~= old(out)@ + subst_self(sk, nameu@));
        }
    }
}

fn subst_dollar_into(cs: &[char], i: usize, nameu: &[char], out: &mut Vec<char>)
    requires
        i <= cs@.len(),
    ensures
        final(out)@ == old(out)@ + subst_dollar(cs@.skip(i as int), nameu@),
    decreases cs@.len() - i,
{
    let ghost sk = cs@.skip(i as int);
    if i == cs.len() {
        proof {
            assert(out@ =~= old(out)@ + subst_dollar(sk, nameu@));
        }
        return;
    }
    proof {
        assert(forall|k: int| 0 <= k < sk.len() ==> sk[k] == cs@[i + k]);
    }
    if has_dollar_crate(cs, i) {
        proof {
            assert(dollar_crate_at(sk, 0));
            assert(sk.take(6) =~= cs@.subrange(i as int, i as int + 6));
            assert(sk.skip(6) =~= cs@.skip(i as int + 6));
        }
        push_range(out, cs, i, i + 6);
        out.push(':');
        out.push(':');
        push_range(out, nameu, 0, nameu.len());
        proof {
            assert(nameu@.subrange(0, nameu@.len() as int) =~= nameu@);
        }
        let ghost mid = out@;
        subst_dollar_into(cs, i + 6, nameu, out);
        proof {
            assert(mid =~= old(out)@ + sk.take(6) + colcol() + nameu@);
            assert(out@ =~= old(out)@ + subst_dollar(sk, nameu@));
        }
    } else {
        proof {
            assert(!dollar_crate_at(sk, 0));
            assert(sk.skip(1) =~= cs@.skip(i as int + 1));
        }
        out.push(cs[i]);
        let ghost mid = out@;
        subst_dollar_into(cs, i + 1, nameu, out);
        proof {
            assert(mid =~= old(out)@ + seq![sk[0]]);
            assert(out@ =~= old(out)@ + subst_dollar(sk, nameu@));
        }
    }
}

fn skip_dep_name(cs: &[char], i: usize) -> (r: usize)
    requires
        i <= cs@.len(),
    ensures
        r == dep_to(cs@, i as int),
        i <= r <= cs@.len(),
    decreases cs@.len() - i,
{
    if i == cs.len() {
        return i;
    }
    let c = cs[i];
    let cont = ('a' <= c && c <= 'z') || ('A' <= c && c <= 'Z') || c == '_' || ('0' <= c && c
        <= '9') || c == '-';
    if cont {
        skip_dep_name(cs, i + 1)
    } else {
        i
    }
}

fn subst_deps_into(
    cs: &[char],
    i: usize,
    config: &crate::config_toml::ConfigToml,
    out: &mut Vec<char>,
)
    requires
        i <= cs@.len(),
    ensures
        final(out)@ == old(out)@ + subst_deps(cs@.skip(i as int), config.deps@),
    decreases cs@.len() - i,
{
    let ghost sk = cs@.skip(i as int);
    if i == cs.len() {
        proof {
            assert(out@ =~= old(out)@ + subst_deps(sk, config.deps@));
        }
        return;
    }
    proof {
        assert(forall|k: int| 0 <= k < sk.len() ==> sk[k] == cs@[i + k]);
    }
    let c = cs[i];
    let starts = ('a' <= c && c <= 'z') || ('A' <= c && c <= 'Z') || c == '_';
    if starts {
        let e = skip_dep_name(cs, i + 1);
        proof {
            lemma_dep_to_skip(cs@, i as int, 1);
        }
        if e < cs.len() && e + 1 < cs.len() && cs[e] == ':' && cs[e + 1] == ':' {
            proof {
                assert(at(sk, dep_to(sk, 1), ':'));
                assert(at(sk, dep_to(sk, 1) + 1, ':'));
                assert(sk.take(e - i) =~= cs@.subrange(i as int, e as int));
                assert(sk.skip(e - i + 2) =~= cs@.skip(e as int + 2));
            }
            let name_slice = vstd::slice::slice_subrange(cs, i, e);
            let known = config.knows_dep(name_slice);
            if known {
                out.push('c');
                out.push('r');
                out.push('a');
                out.push('t');
                out.push('e');
                out.push(':');
                out.push(':');
                proof {
                    assert(out@ =~= old(out)@ + crate_colon_seq());
                }
            }
            push_range(out, cs, i, e);
            out.push(':');
            out.push(':');
            let ghost mid = out@;
            subst_deps_into(cs, e + 2, config, out);
            proof {
                if known {
                    assert(mid =~= old(out)@ + crate_colon_seq() + sk.take(e - i) + colcol());
                } else {
                    assert(mid =~= old(out)@ + sk.take(e - i) + colcol());
                }
                assert(out@ =~= old(out)@ + subst_deps(sk, config.deps@));
            }
        } else {
            proof {
                assert(!(at(sk, dep_to(sk, 1), ':') && at(sk, dep_to(sk, 1) + 1, ':'))) by {
                    lemma_dep_to(cs@, i as int + 1);
                    if e < cs@.len() && cs@[e as int] == ':' {
                        assert(e + 1 >= cs@.len() || cs@[e as int + 1] != ':');
                    }
                }
                assert(sk.skip(1) =~= cs@.skip(i as int + 1));
            }
            out.push(c);
            let ghost mid = out@;
            subst_deps_into(cs, i + 1, config, out);
            proof {
                assert(mid =~= old(out)@ + seq![sk[0]]);
                assert(out@ =~= old(out)@ + subst_deps(sk, config.deps@));
            }
        }
    } else {
        proof {
            assert(sk.skip(1) =~= cs@.skip(i as int + 1));
        }
        out.push(c);
        let ghost mid = out@;
        subst_deps_into(cs, i + 1, config, out);
        proof {
            assert(mid =~= old(out)@ + seq![sk[0]]);
            assert(out@ =~= old(out)@ + subst_deps(sk, config.deps@));
        }
    }
}

/// `dep_to` on a suffix mirrors `dep_to` on the whole, shifted.
proof fn lemma_dep_to_skip(s: Seq<char>, i: int, d: int)
    requires
        0 <= i,
        1 <= d,
        i + d <= s.len(),
    ensures
        dep_to(s.skip(i), d) == dep_to(s, i + d) - i,
    decreases s.len() - i - d,
{
    let sk = s.skip(i);
    if i + d == s.len() {
        assert(sk.len() == s.len() - i);
    } else if !dep_cont(s[i + d]) {
        assert(sk[d] == s[i + d]);
    } else {
        assert(sk[d] == s[i + d]);
        lemma_dep_to_skip(s, i, d + 1);
    }
}

/// Rewrites the path references of one line: `crate::` and `$crate` are
/// qualified with the bundling crate's own name, and a qualified path through
/// a known path dependency is routed through `crate::`.
pub fn substitute_path(line: &str, crate_name: &str, config: &crate::config_toml::ConfigToml) -> (r:
    String)
    ensures
        r@ == substituted(line@, crate_name@, config.deps@),
{
    let cs = str_to_chars(line);
    let nameu = crate::text::to_underscored(crate_name);
    let mut pass1: Vec<char> = Vec::new();
    subst_self_into(cs.as_slice(), 0, nameu.as_slice(), &mut pass1);
    let mut pass2: Vec<char> = Vec::new();
    subst_dollar_into(pass1.as_slice(), 0, nameu.as_slice(), &mut pass2);
    let mut pass3: Vec<char> = Vec::new();
    subst_deps_into(pass2.as_slice(), 0, config, &mut pass3);
    proof {
        assert(cs@.skip(0) =~= cs@);
        assert(pass1@.skip(0) =~= pass1@);
        assert(pass2@.skip(0) =~= pass2@);
        assert(Seq::<char>::empty() + subst_self(cs@, nameu@) =~= subst_self(cs@, nameu@));
        assert(Seq::<char>::empty() + subst_dollar(pass1@, nameu@) =~= subst_dollar(
            pass1@,
            nameu@,
        ));
        assert(Seq::<char>::empty() + subst_deps(pass2@, config.deps@) =~= subst_deps(
            pass2@,
            config.deps@,
        ));
    }
    chars_to_string(pass3.as_slice())
}

// ---------------------------------------------------------------------------
// Executable classifiers.
// ---------------------------------------------------------------------------

fn is_ws_char(c: char) -> (r: bool)
    ensures
        r == is_ws(c),
{
    c == ' ' || c == '\t' || c == '\n' || c == '\r' || c == '\u{b}' || c == '\u{c}'
}

/// Scans past whitespace starting at `i`.
fn skip_ws(cs: &[char], i: usize) -> (r: usize)
    requires
        i <= cs@.len(),
    ensures
        r == ws_to(cs@, i as int),
        i <= r <= cs@.len(),
        r < cs@.len() ==> !is_ws(cs@[r as int]),
    decreases cs@.len() - i,
{
    if i == cs.len() || !is_ws_char(cs[i]) {
        i
    } else {
        skip_ws(cs, i + 1)
    }
}

/// Scans past identifier characters starting at `i`.
fn skip_ident(cs: &[char], i: usize) -> (r: usize)
    requires
        i <= cs@.len(),
    ensures
        r == ident_to(cs@, i as int),
        i <= r <= cs@.len(),
    decreases cs@.len() - i,
{
    if i == cs.len() {
        return i;
    }
    let c = cs[i];
    let cont = ('a' <= c && c <= 'z') || ('A' <= c && c <= 'Z') || c == '_' || ('0' <= c && c
        <= '9');
    if cont {
        skip_ident(cs, i + 1)
    } else {
        i
    }
}

/// Scans for the first `)` at or after `i`.
fn skip_to_rparen(cs: &[char], i: usize) -> (r: usize)
    requires
        i <= cs@.len(),
    ensures
        r == rparen_to(cs@, i as int),
        i <= r <= cs@.len(),
    decreases cs@.len() - i,
{
    if i == cs.len() || cs[i] == ')' {
        i
    } else {
        skip_to_rparen(cs, i + 1)
    }
}

fn has_pub(cs: &[char], i: usize) -> (r: bool)
    requires
        i <= cs@.len(),
    ensures
        r == pub_at(cs@, i as int),
{
    cs.len() - i >= 3 && cs[i] == 'p' && cs[i + 1] == 'u' && cs[i + 2] == 'b'
}

fn has_mod(cs: &[char], i: usize) -> (r: bool)
    requires
        i <= cs@.len(),
    ensures
        r == mod_at(cs@, i as int),
{
    cs.len() - i >= 3 && cs[i] == 'm' && cs[i + 1] == 'o' && cs[i + 2] == 'd'
}

fn vis_end(cs: &[char], i: usize) -> (r: Option<usize>)
    requires
        i <= cs@.len(),
    ensures
        match r {
            Some(k) => after_vis(cs@, i as int) == Some(k as int) && k <= cs@.len(),
            None => after_vis(cs@, i as int) is None,
        },
{
    let n = cs.len();
    if has_pub(cs, i) {
        let j = i + 3;
        let k = skip_ws(cs, j);
        if k < cs.len() && cs[k] == '(' {
            let c = skip_to_rparen(cs, k + 1);
            if c >= cs.len() || c == k + 1 {
                None
            } else if c + 1 < cs.len() && is_ws_char(cs[c + 1]) {
                Some(skip_ws(cs, c + 1))
            } else {
                None
            }
        } else if j < cs.len() && is_ws_char(cs[j]) {
            Some(k)
        } else {
            None
        }
    } else {
        Some(i)
    }
}

fn head_name(cs: &[char]) -> (r: Option<(usize, usize)>)
    ensures
        match r {
            Some((n0, n1)) => module_head(cs@) == Some((n0 as int, n1 as int)) && n0 < n1 <= cs@.len()
                && n0 < cs@.len(),
            None => module_head(cs@) is None,
        },
{
    let i0 = skip_ws(cs, 0);
    match vis_end(cs, i0) {
        None => None,
        Some(m) => {
            let n = cs.len();
            if has_mod(cs, m) && n - m >= 4 && is_ws_char(cs[m + 3]) {
                let n0 = skip_ws(cs, m + 3);
                if n0 < cs.len() {
                    let c = cs[n0];
                    if ('a' <= c && c <= 'z') || ('A' <= c && c <= 'Z') || c == '_' {
                        let n1 = skip_ident(cs, n0 + 1);
                        Some((n0, n1))
                    } else {
                        None
                    }
                } else {
                    None
                }
            } else {
                None
            }
        },
    }
}

/// Extracts the module name of an external module declaration
/// `[vis] mod <name> ;`; `None` when the line is not one.
pub fn parse_module_decl(line: &str) -> (r: Option<String>)
    ensures
        match r {
            Some(name) => module_decl_name(line@) == Some(name@),
            None => module_decl_name(line@) is None,
        },
{
    let cs = str_to_chars(line);
    match head_name(cs.as_slice()) {
        None => None,
        Some((n0, n1)) => {
            let t = skip_ws(cs.as_slice(), n1);
            if t < cs.len() && cs[t] == ';' && skip_ws(cs.as_slice(), t + 1) == cs.len() {
                Some(chars_to_string(vstd::slice::slice_subrange(cs.as_slice(), n0, n1)))
            } else {
                None
            }
        },
    }
}

/// Extracts the module name of an inline module opening `[vis] mod <name> {`;
/// `None` when the line is not one.
pub fn parse_module_block_begin(line: &str) -> (r: Option<String>)
    ensures
        match r {
            Some(name) => module_block_name(line@) == Some(name@),
            None => module_block_name(line@) is None,
        },
{
    let cs = str_to_chars(line);
    match head_name(cs.as_slice()) {
        None => None,
        Some((n0, n1)) => {
            let t = skip_ws(cs.as_slice(), n1);
            if t < cs.len() && cs[t] == '{' && skip_ws(cs.as_slice(), t + 1) == cs.len() {
                Some(chars_to_string(vstd::slice::slice_subrange(cs.as_slice(), n0, n1)))
            } else {
                None
            }
        },
    }
}

/// Recognizes a line that holds nothing but a closing `}`; returns the count
/// of its leading whitespace characters.
pub fn parse_block_end(line: &str) -> (r: Option<usize>)
    ensures
        match r {
            Some(k) => block_end_spaces(line@) == Some(k as int),
            None => block_end_spaces(line@) is None,
        },
{
    let cs = str_to_chars(line);
    let i = skip_ws(cs.as_slice(), 0);
    if i < cs.len() && cs[i] == '}' && skip_ws(cs.as_slice(), i + 1) == cs.len() {
        Some(i)
    } else {
        None
    }
}

/// Recognizes the test-only attribute marker `#[cfg(test)]` at the start of
/// the line, whitespace between tokens allowed.
pub fn parse_cfg_test(line: &str) -> (r: bool)
    ensures
        r == is_cfg_test(line@),
{
    let cs0 = str_to_chars(line);
    let cs = cs0.as_slice();
    let i1 = skip_ws(cs, 0);
    if !(i1 < cs.len() && cs[i1] == '#') {
        return false;
    }
    let i2 = skip_ws(cs, i1 + 1);
    if !(i2 < cs.len() && cs[i2] == '[') {
        return false;
    }
    let i3 = skip_ws(cs, i2 + 1);
    if !(cs.len() - i3 >= 3 && cs[i3] == 'c' && cs[i3 + 1] == 'f' && cs[i3 + 2] == 'g') {
        return false;
    }
    let i4 = skip_ws(cs, i3 + 3);
    if !(i4 < cs.len() && cs[i4] == '(') {
        return false;
    }
    let i5 = skip_ws(cs, i4 + 1);
    if !(cs.len() - i5 >= 4 && cs[i5] == 't' && cs[i5 + 1] == 'e' && cs[i5 + 2] == 's' && cs[i5
        + 3] == 't') {
        return false;
    }
    let i6 = skip_ws(cs, i5 + 4);
    if !(i6 < cs.len() && cs[i6] == ')') {
        return false;
    }
    let i7 = skip_ws(cs, i6 + 1);
    i7 < cs.len() && cs[i7] == ']'
}

/// Recognizes a one-line documentation comment: the line starts, after
/// leading whitespace, with `///` or `//!`.
pub fn parse_oneline_doc_comments(line: &str) -> (r: bool)
    ensures
        r == is_oneline_doc(line@),
{
    let cs = str_to_chars(line);
    let i = skip_ws(cs.as_slice(), 0);
    cs.len() - i >= 3 && cs[i] == '/' && cs[i + 1] == '/' && (cs[i + 2] == '/' || cs[i + 2] == '!')
}

/// Recognizes the start of a block documentation comment: the line starts,
/// after leading whitespace, with `/*!` or `/**`.
pub fn parse_block_doc_comments_start(line: &str) -> (r: bool)
    ensures
        r == is_block_doc_start(line@),
{
    let cs = str_to_chars(line);
    let i = skip_ws(cs.as_slice(), 0);
    cs.len() - i >= 3 && cs[i] == '/' && cs[i + 1] == '*' && (cs[i + 2] == '!' || cs[i + 2] == '*')
}

/// Recognizes the end of a block comment: the line ends, before trailing
/// whitespace, with `*/`.
pub fn parse_block_doc_comments_end(line: &str) -> (r: bool)
    ensures
        r == is_block_comment_end(line@),
{
    let cs = str_to_chars(line);
    let mut e: usize = cs.len();
    while e > 0 && is_ws_char(cs[e - 1])
        invariant
            0 <= e <= cs@.len(),
            cs@ == line@,
            forall|j: int| e <= j < cs@.len() ==> is_ws(cs@[j]),
        decreases e,
    {
        e = e - 1;
    }
    proof {
        lemma_rtrim_len(cs@, e as int);
    }
    e >= 2 && cs[e - 2] == '*' && cs[e - 1] == '/'
}

} // verus!
// appended: indentation removal and path substitution
