use vstd::prelude::*;
use vstd::string::StringExecFns;

use crate::text::{chars_to_string, str_to_chars, strs_view, to_underscored, underscored};
use crate::types::{module_view, spans_view, Crate, Module, ModuleV, Span, SpanV};

verus! {

// ---------------------------------------------------------------------------
// The emission model: what the formatter writes, line by line.
// ---------------------------------------------------------------------------

/// One line of formatter output: a module's opening header, one content
/// line, or a closing brace, each at a nesting depth.
#[verifier::ext_equal]
pub ghost enum EmitLine {
    Header(int, Seq<char>),
    Content(int, Seq<char>),
    Closer(int),
}

/// The spaces that indent a line at depth `d`.
pub open spec fn indent_seq(d: int) -> Seq<char> {
    Seq::new(if d >= 0 { (d * 4) as nat } else { 0 }, |i: int| ' ')
}

/// One emitted line as text, with its trailing newline.
pub open spec fn render_one(e: EmitLine) -> Seq<char> {
    match e {
        EmitLine::Header(d, name) => indent_seq(d) + "mod "@ + name + " {\n"@,
        EmitLine::Content(d, l) => indent_seq(d) + l + "\n"@,
        EmitLine::Closer(d) => indent_seq(d) + "}\n"@,
    }
}

/// A whole emission as text.
pub open spec fn render(es: Seq<EmitLine>) -> Seq<char>
    decreases es.len(),
{
    if es.len() == 0 {
        Seq::empty()
    } else {
        render_one(es[0]) + render(es.drop_first())
    }
}

/// The segment of `p` after its last `/`; all of `p` when it has none.
pub open spec fn after_last_slash(p: Seq<char>) -> Seq<char>
    decreases p.len(),
{
    if p.len() == 0 {
        p
    } else if p.last() == '/' {
        Seq::empty()
    } else {
        after_last_slash(p.drop_last()).push(p.last())
    }
}

/// Index of the last `.` of `s`, or `-1`.
pub open spec fn last_dot_index(s: Seq<char>) -> int
    decreases s.len(),
{
    if s.len() == 0 {
        -1
    } else if s.last() == '.' {
        s.len() - 1
    } else {
        last_dot_index(s.drop_last())
    }
}

/// A file name without its extension: everything before the last `.`, except
/// that a leading `.` never starts an extension.
pub open spec fn stem_of(seg: Seq<char>) -> Seq<char> {
    if last_dot_index(seg) > 0 {
        seg.take(last_dot_index(seg))
    } else {
        seg
    }
}

/// The name a module is emitted under: the stem of its path's last segment,
/// or `fallback` where the path has no stem (the root path `.`).
pub open spec fn mod_name_of(fallback: Seq<char>, path: Seq<char>) -> Seq<char> {
    let seg = after_last_slash(path);
    if seg.len() == 0 || seg == seq!['.'] || seg == seq!['.', '.'] {
        fallback
    } else {
        stem_of(seg)
    }
}

/// The lines a module emits at depth `d`: its header, each span in order —
/// content lines one level deeper, child modules recursively, test-flagged
/// children not at all — and its closing brace.
pub open spec fn emitted(fallback: Seq<char>, m: ModuleV, d: int) -> Seq<EmitLine>
    decreases m,
{
    seq![EmitLine::Header(d, mod_name_of(fallback, m.path))] + emit_spans(fallback, m.spans, d)
        + seq![EmitLine::Closer(d)]
}

pub open spec fn emit_spans(fallback: Seq<char>, ss: Seq<SpanV>, d: int) -> Seq<EmitLine>
    decreases ss,
{
    if ss.len() == 0 {
        Seq::empty()
    } else {
        emit_span(fallback, ss[0], d) + emit_spans(fallback, ss.drop_first(), d)
    }
}

pub open spec fn emit_span(fallback: Seq<char>, sp: SpanV, d: int) -> Seq<EmitLine>
    decreases sp,
{
    match sp {
        SpanV::Lines(ls) => content_emits(ls, d + 1),
        SpanV::Module(c) => if c.is_test {
            Seq::empty()
        } else {
            emitted(fallback, c, d + 1)
        },
    }
}

pub open spec fn content_emits(ls: Seq<Seq<char>>, d: int) -> Seq<EmitLine>
    decreases ls.len(),
{
    if ls.len() == 0 {
        Seq::empty()
    } else {
        seq![EmitLine::Content(d, ls[0])] + content_emits(ls.drop_first(), d)
    }
}

/// Rendering distributes over concatenation.
pub proof fn lemma_render_concat(a: Seq<EmitLine>, b: Seq<EmitLine>)
    ensures
        render(a + b) == render(a) + render(b),
    decreases a.len(),
{
    if a.len() == 0 {
        assert(a + b =~= b);
        assert(render(a) + render(b) =~= render(b));
    } else {
        lemma_render_concat(a.drop_first(), b);
        assert((a + b).drop_first() =~= a.drop_first() + b);
        assert((a + b)[0] == a[0]);
        assert(render_one(a[0]) + (render(a.drop_first()) + render(b)) =~= (render_one(a[0])
            + render(a.drop_first())) + render(b));
    }
}

/// Emitting one more span appends its emission.
pub proof fn lemma_emit_spans_snoc(fallback: Seq<char>, ss: Seq<SpanV>, x: SpanV, d: int)
    ensures
        emit_spans(fallback, ss.push(x), d) == emit_spans(fallback, ss, d) + emit_span(
            fallback,
            x,
            d,
        ),
    decreases ss.len(),
{
    if ss.len() == 0 {
        assert(ss.push(x)[0] == x);
        assert(ss.push(x).drop_first() =~= Seq::<SpanV>::empty());
        assert(emit_spans(fallback, Seq::<SpanV>::empty(), d) =~= Seq::<EmitLine>::empty());
        assert(emit_spans(fallback, ss.push(x), d) =~= emit_spans(fallback, ss, d) + emit_span(
            fallback,
            x,
            d,
        ));
    } else {
        lemma_emit_spans_snoc(fallback, ss.drop_first(), x, d);
        assert(ss.push(x).drop_first() =~= ss.drop_first().push(x));
        assert(ss.push(x)[0] == ss[0]);
        assert(emit_span(fallback, ss[0], d) + (emit_spans(fallback, ss.drop_first(), d)
            + emit_span(fallback, x, d)) =~= (emit_span(fallback, ss[0], d) + emit_spans(
            fallback,
            ss.drop_first(),
            d,
        )) + emit_span(fallback, x, d));
    }
}

/// Emitting one more content line appends it.
pub proof fn lemma_content_emits_snoc(ls: Seq<Seq<char>>, x: Seq<char>, d: int)
    ensures
        content_emits(ls.push(x), d) == content_emits(ls, d) + seq![EmitLine::Content(d, x)],
    decreases ls.len(),
{
    if ls.len() == 0 {
        assert(ls.push(x)[0] == x);
        assert(ls.push(x).drop_first() =~= Seq::<Seq<char>>::empty());
        assert(content_emits(Seq::<Seq<char>>::empty(), d) =~= Seq::<EmitLine>::empty());
        assert(content_emits(ls.push(x), d) =~= content_emits(ls, d) + seq![
            EmitLine::Content(d, x),
        ]);
    } else {
        lemma_content_emits_snoc(ls.drop_first(), x, d);
        assert(ls.push(x).drop_first() =~= ls.drop_first().push(x));
        assert(ls.push(x)[0] == ls[0]);
        assert(seq![EmitLine::Content(d, ls[0])] + (content_emits(ls.drop_first(), d) + seq![
            EmitLine::Content(d, x),
        ]) =~= (seq![EmitLine::Content(d, ls[0])] + content_emits(ls.drop_first(), d)) + seq![
            EmitLine::Content(d, x),
        ]);
    }
}

// ---------------------------------------------------------------------------
// Tree height, which bounds the emission depth.
// ---------------------------------------------------------------------------

pub open spec fn height_m(m: ModuleV) -> nat
    decreases m,
{
    1 + height_spans(m.spans)
}

pub open spec fn height_spans(ss: Seq<SpanV>) -> nat
    decreases ss,
{
    if ss.len() == 0 {
        0
    } else if height_span(ss[0]) >= height_spans(ss.drop_first()) {
        height_span(ss[0])
    } else {
        height_spans(ss.drop_first())
    }
}

pub open spec fn height_span(sp: SpanV) -> nat
    decreases sp,
{
    match sp {
        SpanV::Lines(_) => 0,
        SpanV::Module(c) => height_m(c),
    }
}

/// Each span's height is within the spans' height.
pub proof fn lemma_height_spans_index(ss: Seq<SpanV>, j: int)
    requires
        0 <= j < ss.len(),
    ensures
        height_span(ss[j]) <= height_spans(ss),
    decreases ss.len(),
{
    if j > 0 {
        lemma_height_spans_index(ss.drop_first(), j - 1);
    }
}

// ---------------------------------------------------------------------------
// Executable formatting.
// ---------------------------------------------------------------------------

/// One more indentation unit.
proof fn lemma_indent_step(k: int)
    requires
        k >= 1,
    ensures
        indent_seq(k - 1) + seq![' ', ' ', ' ', ' '] =~= indent_seq(k),
{
}

/// Appends `n` indentation units of spaces.
fn push_indent(out: &mut String, n: usize)
    ensures
        final(out)@ == old(out)@ + indent_seq(n as int),
{
    let mut k: usize = 0;
    proof {
        reveal_strlit("    ");
    }
    while k < n
        invariant
            0 <= k <= n,
            out@ == old(out)@ + indent_seq(k as int),
        decreases n - k,
    {
        out.append("    ");
        k = k + 1;
        proof {
            reveal_strlit("    ");
            assert("    "@ =~= seq![' ', ' ', ' ', ' ']);
            lemma_indent_step(k as int);
            assert(out@ =~= old(out)@ + indent_seq(k as int));
        }
    }
}

/// The emitted name of `module` under `fallback`.
fn display_name(fallback: &str, path: &str) -> (r: String)
    ensures
        r@ == mod_name_of(fallback@, path@),
{
    let cs = str_to_chars(path);
    let n = cs.len();
    let mut j: usize = n;
    while j > 0 && cs[j - 1] != '/'
        invariant
            0 <= j <= n,
            n == cs@.len(),
            cs@ == path@,
            forall|k: int| j <= k < n ==> cs@[k] != '/',
        decreases j,
    {
        j = j - 1;
    }
    proof {
        lemma_after_last_slash_at(cs@, j as int);
    }
    let seg = vstd::slice::slice_subrange(cs.as_slice(), j, n);
    let ghost seg_v = after_last_slash(path@);
    proof {
        assert(seg@ =~= seg_v);
    }
    let seg_len = seg.len();
    let is_bare = seg_len == 0 || (seg_len == 1 && seg[0] == '.') || (seg_len == 2 && seg[0] == '.'
        && seg[1] == '.');
    if is_bare {
        proof {
            if seg_len == 1 && seg@[0] == '.' {
                assert(seg_v =~= seq!['.']);
            }
            if seg_len == 2 && seg@[0] == '.' && seg@[1] == '.' {
                assert(seg_v =~= seq!['.', '.']);
            }
        }
        crate::text::str_to_string(fallback)
    } else {
        proof {
            if seg_v == seq!['.'] {
                assert(seg@[0] == '.');
            }
            if seg_v == seq!['.', '.'] {
                assert(seg@[0] == '.' && seg@[1] == '.');
            }
        }
        let mut e: usize = seg_len;
        while e > 0 && seg[e - 1] != '.'
            invariant
                0 <= e <= seg_len,
                seg_len == seg@.len(),
                seg@ == seg_v,
                forall|k: int| e <= k < seg_len ==> seg@[k] != '.',
            decreases e,
        {
            e = e - 1;
        }
        proof {
            lemma_last_dot_at(seg@, e as int);
        }
        if e > 1 {
            chars_to_string(vstd::slice::slice_subrange(seg, 0, e - 1))
        } else {
            chars_to_string(seg)
        }
    }
}

/// A boundary `j` with no `/` at or after it, preceded by `/` or the start,
/// pins down the last segment.
proof fn lemma_after_last_slash_at(s: Seq<char>, j: int)
    requires
        0 <= j <= s.len(),
        forall|k: int| j <= k < s.len() ==> s[k] != '/',
        j == 0 || s[j - 1] == '/',
    ensures
        after_last_slash(s) == s.skip(j),
    decreases s.len(),
{
    if j == s.len() {
        if s.len() == 0 {
            assert(after_last_slash(s) =~= s.skip(j));
        } else {
            assert(s.last() == '/');
            assert(after_last_slash(s) =~= s.skip(j));
        }
    } else {
        assert(s.last() != '/');
        if s.len() > 0 {
            lemma_after_last_slash_at(s.drop_last(), j);
            assert(s.drop_last().skip(j) =~= s.skip(j).drop_last());
            assert(after_last_slash(s) =~= s.skip(j));
        }
    }
}

/// A boundary `e` with no `.` at or after it, preceded by `.` or the start,
/// pins down the last dot.
proof fn lemma_last_dot_at(s: Seq<char>, e: int)
    requires
        0 <= e <= s.len(),
        forall|k: int| e <= k < s.len() ==> s[k] != '.',
        e == 0 || s[e - 1] == '.',
    ensures
        last_dot_index(s) == e - 1,
    decreases s.len(),
{
    if e == s.len() {
        if s.len() != 0 {
            assert(s.last() == '.');
        }
    } else {
        assert(s.last() != '.');
        lemma_last_dot_at(s.drop_last(), e);
    }
}

/// Writes the nested block form of `module` at `indent_level`, headers and
/// closers included, test-flagged children dropped, with the name `fallback`
/// standing in for a path with no stem of its own.
#[verifier::rlimit(60)]
pub(crate) fn fmt_dfs_core(out: &mut String, fallback: &str, module: &Module, indent_level: usize)
    requires
        indent_level + height_m(module@) <= usize::MAX,
    ensures
        final(out)@ == old(out)@ + render(emitted(fallback@, module@, indent_level as int)),
    decreases module,
{
    let ghost d = indent_level as int;
    let ghost f = fallback@;
    let ghost mv = module@;
    proof {
        reveal_strlit("mod ");
        reveal_strlit(" {\n");
        reveal_strlit("}\n");
        reveal_strlit("\n");
        crate::types::lemma_spans_view_index(module.spans@);
    }
    push_indent(out, indent_level);
    out.append("mod ");
    let name = display_name(fallback, module.path.as_str());
    out.append(name.as_str());
    out.append(" {\n");
    proof {
        assert(out@ =~= old(out)@ + render_one(EmitLine::Header(d, mod_name_of(f, mv.path))));
    }
    let ghost base = out@;
    let mut j: usize = 0;
    while j < module.spans.len()
        invariant
            0 <= j <= module.spans@.len(),
            d == indent_level as int,
            f == fallback@,
            mv == module@,
            mv.spans == spans_view(module.spans@),
            mv.spans.len() == module.spans@.len(),
            forall|k: int|
                0 <= k < module.spans@.len() ==> mv.spans[k] == crate::types::span_view(
                    module.spans@[k],
                ),
            indent_level + height_m(mv) <= usize::MAX,
            out@ == base + render(emit_spans(f, mv.spans.take(j as int), d)),
        decreases module.spans@.len() - j,
    {
        let ghost spv = mv.spans[j as int];
        proof {
            assert(mv.spans.take(j as int + 1) =~= mv.spans.take(j as int).push(spv));
            lemma_emit_spans_snoc(f, mv.spans.take(j as int), spv, d);
            lemma_render_concat(
                emit_spans(f, mv.spans.take(j as int), d),
                emit_span(f, spv, d),
            );
        }
        match &module.spans[j] {
            Span::Lines(ls) => {
                let ghost lsv = strs_view(ls@);
                let ghost base2 = out@;
                let mut k: usize = 0;
                while k < ls.len()
                    invariant
                        0 <= k <= ls@.len(),
                        lsv == strs_view(ls@),
                        lsv.len() == ls@.len(),
                        d == indent_level as int,
                        out@ == base2 + render(content_emits(lsv.take(k as int), d + 1)),
                        indent_level < usize::MAX,
                    decreases ls@.len() - k,
                {
                    let ghost lv = lsv[k as int];
                    proof {
                        assert(lsv.take(k as int + 1) =~= lsv.take(k as int).push(lv));
                        lemma_content_emits_snoc(lsv.take(k as int), lv, d + 1);
                        lemma_render_concat(
                            content_emits(lsv.take(k as int), d + 1),
                            seq![EmitLine::Content(d + 1, lv)],
                        );
                        reveal_strlit("\n");
                    }
                    push_indent(out, indent_level + 1);
                    out.append(ls[k].as_str());
                    out.append("\n");
                    k = k + 1;
                    proof {
                        assert(render(Seq::<EmitLine>::empty()) =~= Seq::<char>::empty());
                        assert(seq![EmitLine::Content(d + 1, lv)].drop_first() =~= Seq::<
                            EmitLine,
                        >::empty());
                        assert(seq![EmitLine::Content(d + 1, lv)][0] == EmitLine::Content(
                            d + 1,
                            lv,
                        ));
                        assert(render(seq![EmitLine::Content(d + 1, lv)]) =~= render_one(
                            EmitLine::Content(d + 1, lv),
                        ));
                        assert(render_one(EmitLine::Content(d + 1, lv)) =~= indent_seq(d + 1) + lv
                            + "\n"@);
                        assert(out@ =~= base2 + render(content_emits(lsv.take(k as int), d + 1)));
                    }
                }
                proof {
                    assert(lsv.take(lsv.len() as int) =~= lsv);
                    assert(emit_span(f, spv, d) == content_emits(lsv, d + 1));
                    assert(out@ =~= base + render(emit_spans(f, mv.spans.take(j as int + 1), d)));
                }
            },
            Span::Module(c) => {
                proof {
                    assert(spv == SpanV::Module(module_view(*(*c))));
                    lemma_height_spans_index(mv.spans, j as int);
                }
                if !c.is_test {
                    fmt_dfs_core(out, fallback, c, indent_level + 1);
                    proof {
                        assert(out@ =~= base + render(
                            emit_spans(f, mv.spans.take(j as int + 1), d),
                        ));
                    }
                } else {
                    proof {
                        assert(render(emit_span(f, spv, d)) =~= Seq::<char>::empty());
                        assert(out@ =~= base + render(
                            emit_spans(f, mv.spans.take(j as int + 1), d),
                        ));
                    }
                }
            },
        }
        j = j + 1;
    }
    proof {
        assert(mv.spans.take(mv.spans.len() as int) =~= mv.spans);
    }
    push_indent(out, indent_level);
    out.append("}\n");
    proof {
        lemma_render_concat(
            seq![EmitLine::Header(d, mod_name_of(f, mv.path))],
            emit_spans(f, mv.spans, d),
        );
        lemma_render_concat(
            seq![EmitLine::Header(d, mod_name_of(f, mv.path))] + emit_spans(f, mv.spans, d),
            seq![EmitLine::Closer(d)],
        );
        assert(render(Seq::<EmitLine>::empty()) =~= Seq::<char>::empty());
        assert(seq![EmitLine::Header(d, mod_name_of(f, mv.path))].drop_first() =~= Seq::<
            EmitLine,
        >::empty());
        assert(seq![EmitLine::Closer(d)].drop_first() =~= Seq::<EmitLine>::empty());
        assert(render(seq![EmitLine::Header(d, mod_name_of(f, mv.path))]) =~= render_one(
            EmitLine::Header(d, mod_name_of(f, mv.path)),
        ));
        assert(render(seq![EmitLine::Closer(d)]) =~= render_one(EmitLine::Closer(d)));
        assert(out@ =~= old(out)@ + render(emitted(f, mv, d)));
    }
}

/// Appends the nested block form of `module` at `indent_level`, the crate
/// name (dashes written as underscores) standing in for the root.
pub fn fmt_dfs(out: &mut String, crate_name: &str, module: &Module, indent_level: usize)
    requires
        indent_level + height_m(module@) <= usize::MAX,
    ensures
        final(out)@ == old(out)@ + render(
            emitted(underscored(crate_name@), module@, indent_level as int),
        ),
{
    let fallback = chars_to_string(to_underscored(crate_name).as_slice());
    fmt_dfs_core(out, fallback.as_str(), module, indent_level);
}

/// The full output text for a crate: a fold-marker comment naming the crate,
/// an `allow(dead_code)` attribute, the root module's nested block form, and
/// the closing fold marker.
pub open spec fn fmt_crate_text(c: CrateV) -> Seq<char> {
    let u = underscored(c.name);
    "// "@ + u + " {{{\n"@ + "#[allow(dead_code)]\n"@ + render(emitted(u, c.root, 0)) + "// }}}\n"@
}

use crate::types::CrateV;

/// Serializes the whole crate, fold markers and `allow(dead_code)` included.
pub fn format_crate_to_string(my_crate: Crate) -> (r: String)
    requires
        height_m(my_crate.root@) <= usize::MAX,
    ensures
        r@ == fmt_crate_text(my_crate@),
{
    proof {
        reveal_strlit("// ");
        reveal_strlit(" {{{\n");
        reveal_strlit("#[allow(dead_code)]\n");
        reveal_strlit("// }}}\n");
    }
    let mut out = String::new();
    out.append("// ");
    let u = chars_to_string(to_underscored(my_crate.name.as_str()).as_slice());
    out.append(u.as_str());
    out.append(" {{{\n");
    out.append("#[allow(dead_code)]\n");
    fmt_dfs(&mut out, my_crate.name.as_str(), &my_crate.root, 0);
    out.append("// }}}\n");
    proof {
        assert(out@ =~= fmt_crate_text(my_crate@));
    }
    out
}

} // verus!
