use vstd::prelude::*;

use crate::bundle_crate::{
    build_lines, ctx_wf, init_state, push_content_m, push_span_m, set_top, st_wf, transformed,
    BuildCtx, BuildStateV, PendingV,
};
use crate::parse_line::is_block_comment_end;
use crate::parse_line::{
    block_end_spaces, is_block_doc_start, is_cfg_test, is_oneline_doc, module_block_name,
    module_decl_name,
};
use crate::fmt::{content_emits, emit_span, emit_spans, emitted, EmitLine};
use crate::types::{ModuleV, SpanV};
use crate::TAB_LENGTH;

verus! {

/// Block-end disambiguation: a closing-delimiter line whose leading
/// whitespace width is not the expected close width for the innermost inline
/// frame — `(depth - 2)` indentation units, with at least two frames open —
/// does not close anything.  It is treated as ordinary content: no frame is
/// popped, and the line lands, transformed like any content line, in the
/// innermost frame's trailing content run.
pub proof fn lemma_block_end_is_content(
    ctx: BuildCtx,
    lines: Seq<Seq<char>>,
    i: int,
    st: BuildStateV,
    root_len: int,
    cnt: int,
)
    requires
        0 <= i < lines.len(),
        st_wf(st, root_len),
        ctx_wf(ctx),
        0 <= root_len <= ctx.bound + 1,
        !st.in_doc,
        module_decl_name(lines[i]) is None,
        module_block_name(lines[i]) is None,
        block_end_spaces(lines[i]) == Some(cnt),
        !(st.stack.len() >= 2 && cnt == (st.stack.len() - 2) * (TAB_LENGTH as int)),
    ensures
        build_lines(ctx, lines, i, st, root_len) == build_lines(
            ctx,
            lines,
            i + 1,
            BuildStateV {
                stack: set_top(
                    st.stack,
                    push_content_m(
                        st.stack.last(),
                        transformed(lines[i], ctx, st.stack.len() as int),
                    ),
                ),
                ..st
            },
            root_len,
        ),
{
}

/// Attribute lookahead, first half: a test marker line directly followed by
/// an inline module opening marks that module test-only and is itself
/// consumed — after the two lines, the only change of state is one new open
/// frame with its test flag set, and no content line was appended anywhere.
pub proof fn lemma_marker_then_block_marks_test(
    ctx: BuildCtx,
    lines: Seq<Seq<char>>,
    i: int,
    st: BuildStateV,
    root_len: int,
    name: Seq<char>,
)
    requires
        0 <= i,
        i + 2 <= lines.len(),
        st_wf(st, root_len),
        ctx_wf(ctx),
        0 <= root_len <= ctx.bound + 1,
        !st.in_doc,
        st.pending is Absent,
        module_decl_name(lines[i]) is None,
        module_block_name(lines[i]) is None,
        block_end_spaces(lines[i]) is None,
        is_cfg_test(lines[i]),
        module_decl_name(lines[i + 1]) is None,
        module_block_name(lines[i + 1]) == Some(name),
    ensures
        build_lines(ctx, lines, i, st, root_len) == build_lines(
            ctx,
            lines,
            i + 2,
            BuildStateV {
                stack: st.stack.push(
                    ModuleV {
                        path: st.stack.last().path + seq!['/'] + name,
                        spans: Seq::empty(),
                        is_test: true,
                    },
                ),
                pending: PendingV::Absent,
                in_doc: false,
            },
            root_len,
        ),
{
    let st1 = BuildStateV { pending: PendingV::Unresolved(lines[i]), ..st };
    assert(build_lines(ctx, lines, i, st, root_len) == build_lines(
        ctx,
        lines,
        i + 1,
        st1,
        root_len,
    ));
    assert(st1.stack == st.stack);
    assert(build_lines(ctx, lines, i + 1, st1, root_len) == build_lines(
        ctx,
        lines,
        i + 2,
        BuildStateV {
            stack: st1.stack.push(
                ModuleV {
                    path: st1.stack.last().path + seq!['/'] + name,
                    spans: Seq::empty(),
                    is_test: st1.pending is Unresolved,
                },
            ),
            pending: PendingV::Absent,
            in_doc: false,
        },
        root_len,
    ));
}

/// Attribute lookahead, first half, for an external module declaration: a
/// test marker line directly followed by `mod <name>;` marks the resolved
/// child module test-only, whatever it was built as, and is itself consumed.
pub proof fn lemma_marker_then_decl_marks_test(
    ctx: BuildCtx,
    lines: Seq<Seq<char>>,
    i: int,
    st: BuildStateV,
    root_len: int,
    name: Seq<char>,
    m: ModuleV,
)
    requires
        0 <= i,
        i + 2 <= lines.len(),
        st_wf(st, root_len),
        ctx_wf(ctx),
        0 <= root_len <= ctx.bound + 1,
        !st.in_doc,
        st.pending is Absent,
        module_decl_name(lines[i]) is None,
        module_block_name(lines[i]) is None,
        block_end_spaces(lines[i]) is None,
        is_cfg_test(lines[i]),
        module_decl_name(lines[i + 1]) == Some(name),
        ctx.contents.dom().contains(st.stack.last().path + seq!['/'] + name),
        ({
            let child_path = st.stack.last().path + seq!['/'] + name;
            build_lines(
                ctx,
                ctx.contents[child_path],
                0,
                crate::bundle_crate::init_state(child_path),
                child_path.len() as int,
            ) == Ok::<ModuleV, crate::error::BundlerErrorV>(m)
        }),
    ensures
        build_lines(ctx, lines, i, st, root_len) == build_lines(
            ctx,
            lines,
            i + 2,
            BuildStateV {
                stack: set_top(
                    st.stack,
                    push_span_m(
                        st.stack.last(),
                        SpanV::Module(ModuleV { is_test: true, ..m }),
                    ),
                ),
                pending: PendingV::Absent,
                in_doc: false,
            },
            root_len,
        ),
{
    let st1 = BuildStateV { pending: PendingV::Unresolved(lines[i]), ..st };
    assert(build_lines(ctx, lines, i, st, root_len) == build_lines(
        ctx,
        lines,
        i + 1,
        st1,
        root_len,
    ));
    assert(st1.stack == st.stack);
}

/// Attribute lookahead, second half: a test marker followed by a plain
/// content line affects no module.  The marker itself lands in the output as
/// a content line (transformed like any other), directly before the content
/// line that follows it, and the pending state ends settled, so no later
/// module can inherit the marker.
pub proof fn lemma_marker_then_content_is_literal(
    ctx: BuildCtx,
    lines: Seq<Seq<char>>,
    i: int,
    st: BuildStateV,
    root_len: int,
)
    requires
        0 <= i,
        i + 2 <= lines.len(),
        st_wf(st, root_len),
        ctx_wf(ctx),
        0 <= root_len <= ctx.bound + 1,
        !st.in_doc,
        st.pending is Absent,
        module_decl_name(lines[i]) is None,
        module_block_name(lines[i]) is None,
        block_end_spaces(lines[i]) is None,
        is_cfg_test(lines[i]),
        module_decl_name(lines[i + 1]) is None,
        module_block_name(lines[i + 1]) is None,
        block_end_spaces(lines[i + 1]) is None,
        !is_cfg_test(lines[i + 1]),
        !is_block_doc_start(lines[i + 1]),
        !is_oneline_doc(lines[i + 1]),
        lines[i + 1].len() != 0,
    ensures
        build_lines(ctx, lines, i, st, root_len) == build_lines(
            ctx,
            lines,
            i + 2,
            BuildStateV {
                stack: set_top(
                    set_top(
                        st.stack,
                        push_content_m(
                            st.stack.last(),
                            transformed(lines[i], ctx, st.stack.len() as int),
                        ),
                    ),
                    push_content_m(
                        push_content_m(
                            st.stack.last(),
                            transformed(lines[i], ctx, st.stack.len() as int),
                        ),
                        transformed(lines[i + 1], ctx, st.stack.len() as int),
                    ),
                ),
                pending: PendingV::Confirmed,
                in_doc: false,
            },
            root_len,
        ),
{
    let st1 = BuildStateV { pending: PendingV::Unresolved(lines[i]), ..st };
    assert(build_lines(ctx, lines, i, st, root_len) == build_lines(
        ctx,
        lines,
        i + 1,
        st1,
        root_len,
    ));
    let flushed = BuildStateV {
        stack: set_top(
            st1.stack,
            push_content_m(st1.stack.last(), transformed(lines[i], ctx, st1.stack.len() as int)),
        ),
        pending: PendingV::Confirmed,
        ..st1
    };
    let st2 = BuildStateV {
        stack: set_top(
            flushed.stack,
            push_content_m(
                flushed.stack.last(),
                transformed(lines[i + 1], ctx, flushed.stack.len() as int),
            ),
        ),
        ..flushed
    };
    assert(build_lines(ctx, lines, i + 1, st1, root_len) == build_lines(
        ctx,
        lines,
        i + 2,
        st2,
        root_len,
    ));
    assert(flushed.stack.last() == push_content_m(
        st.stack.last(),
        transformed(lines[i], ctx, st.stack.len() as int),
    ));
    assert(flushed.stack.len() == st.stack.len());
    assert(st2 =~~= (BuildStateV {
        stack: set_top(
            set_top(
                st.stack,
                push_content_m(
                    st.stack.last(),
                    transformed(lines[i], ctx, st.stack.len() as int),
                ),
            ),
            push_content_m(
                push_content_m(
                    st.stack.last(),
                    transformed(lines[i], ctx, st.stack.len() as int),
                ),
                transformed(lines[i + 1], ctx, st.stack.len() as int),
            ),
        ),
        pending: PendingV::Confirmed,
        in_doc: false,
    }));
}



/// Attribute lookahead, second half, for a blank or documentation line: the
/// marker still lands in the output as a content line and the following
/// line is dropped, with no module affected.
pub proof fn lemma_marker_then_blank_is_literal(
    ctx: BuildCtx,
    lines: Seq<Seq<char>>,
    i: int,
    st: BuildStateV,
    root_len: int,
)
    requires
        0 <= i,
        i + 2 <= lines.len(),
        st_wf(st, root_len),
        ctx_wf(ctx),
        0 <= root_len <= ctx.bound + 1,
        !st.in_doc,
        st.pending is Absent,
        module_decl_name(lines[i]) is None,
        module_block_name(lines[i]) is None,
        block_end_spaces(lines[i]) is None,
        is_cfg_test(lines[i]),
        module_decl_name(lines[i + 1]) is None,
        module_block_name(lines[i + 1]) is None,
        block_end_spaces(lines[i + 1]) is None,
        !is_cfg_test(lines[i + 1]),
        !is_block_doc_start(lines[i + 1]),
        is_oneline_doc(lines[i + 1]) || lines[i + 1].len() == 0,
    ensures
        build_lines(ctx, lines, i, st, root_len) == build_lines(
            ctx,
            lines,
            i + 2,
            BuildStateV {
                stack: set_top(
                    st.stack,
                    push_content_m(
                        st.stack.last(),
                        transformed(lines[i], ctx, st.stack.len() as int),
                    ),
                ),
                pending: PendingV::Confirmed,
                in_doc: false,
            },
            root_len,
        ),
{
    let st1 = BuildStateV { pending: PendingV::Unresolved(lines[i]), ..st };
    assert(build_lines(ctx, lines, i, st, root_len) == build_lines(
        ctx,
        lines,
        i + 1,
        st1,
        root_len,
    ));
}

/// Attribute lookahead for two markers in a row: the first lands in the
/// output as a content line, and only the second stays pending.
pub proof fn lemma_marker_then_marker_is_literal(
    ctx: BuildCtx,
    lines: Seq<Seq<char>>,
    i: int,
    st: BuildStateV,
    root_len: int,
)
    requires
        0 <= i,
        i + 2 <= lines.len(),
        st_wf(st, root_len),
        ctx_wf(ctx),
        0 <= root_len <= ctx.bound + 1,
        !st.in_doc,
        st.pending is Absent,
        module_decl_name(lines[i]) is None,
        module_block_name(lines[i]) is None,
        block_end_spaces(lines[i]) is None,
        is_cfg_test(lines[i]),
        module_decl_name(lines[i + 1]) is None,
        module_block_name(lines[i + 1]) is None,
        block_end_spaces(lines[i + 1]) is None,
        is_cfg_test(lines[i + 1]),
    ensures
        build_lines(ctx, lines, i, st, root_len) == build_lines(
            ctx,
            lines,
            i + 2,
            BuildStateV {
                stack: set_top(
                    st.stack,
                    push_content_m(
                        st.stack.last(),
                        transformed(lines[i], ctx, st.stack.len() as int),
                    ),
                ),
                pending: PendingV::Unresolved(lines[i + 1]),
                in_doc: false,
            },
            root_len,
        ),
{
    let st1 = BuildStateV { pending: PendingV::Unresolved(lines[i]), ..st };
    assert(build_lines(ctx, lines, i, st, root_len) == build_lines(
        ctx,
        lines,
        i + 1,
        st1,
        root_len,
    ));
}

// ---------------------------------------------------------------------------
// Structural nesting correctness.
// ---------------------------------------------------------------------------

/// The tree with every test-flagged child, and so its whole subtree,
/// removed.
pub open spec fn strip_tests(m: ModuleV) -> ModuleV
    decreases m,
{
    ModuleV { spans: strip_spans(m.spans), ..m }
}

pub open spec fn strip_spans(ss: Seq<SpanV>) -> Seq<SpanV>
    decreases ss,
{
    if ss.len() == 0 {
        Seq::empty()
    } else {
        match ss[0] {
            SpanV::Lines(ls) => seq![SpanV::Lines(ls)] + strip_spans(ss.drop_first()),
            SpanV::Module(c) => if c.is_test {
                strip_spans(ss.drop_first())
            } else {
                seq![SpanV::Module(strip_tests(c))] + strip_spans(ss.drop_first())
            },
        }
    }
}

/// A test-flagged module and its entire subtree never reach the output: the
/// formatter emits exactly the same lines for a tree and for that tree with
/// all test-flagged children removed.
pub proof fn lemma_test_modules_absent(fallback: Seq<char>, m: ModuleV, d: int)
    ensures
        emitted(fallback, m, d) == emitted(fallback, strip_tests(m), d),
    decreases m,
{
    lemma_strip_spans_emit(fallback, m.spans, d);
}

proof fn lemma_strip_spans_emit(fallback: Seq<char>, ss: Seq<SpanV>, d: int)
    ensures
        emit_spans(fallback, ss, d) == emit_spans(fallback, strip_spans(ss), d),
    decreases ss,
{
    if ss.len() == 0 {
    } else {
        lemma_strip_spans_emit(fallback, ss.drop_first(), d);
        match ss[0] {
            SpanV::Lines(ls) => {
                let st = seq![SpanV::Lines(ls)] + strip_spans(ss.drop_first());
                assert(st[0] == SpanV::Lines(ls));
                assert(st.drop_first() =~= strip_spans(ss.drop_first()));
                assert(emit_spans(fallback, ss, d) =~= emit_spans(
                    fallback,
                    strip_spans(ss),
                    d,
                ));
            },
            SpanV::Module(c) => {
                if c.is_test {
                    assert(emit_span(fallback, ss[0], d) =~= Seq::<EmitLine>::empty());
                    assert(emit_spans(fallback, ss, d) =~= emit_spans(
                        fallback,
                        strip_spans(ss),
                        d,
                    ));
                } else {
                    lemma_test_modules_absent(fallback, c, d + 1);
                    let st = seq![SpanV::Module(strip_tests(c))] + strip_spans(ss.drop_first());
                    assert(st[0] == SpanV::Module(strip_tests(c)));
                    assert(st.drop_first() =~= strip_spans(ss.drop_first()));
                    assert(strip_tests(c).is_test == c.is_test);
                    assert(emit_span(fallback, st[0], d) == emitted(fallback, strip_tests(c), d + 1));
                    assert(emit_span(fallback, ss[0], d) == emitted(fallback, c, d + 1));
                    assert(emit_spans(fallback, ss, d) =~= emit_spans(
                        fallback,
                        strip_spans(ss),
                        d,
                    ));
                }
            },
        }
    }
}

/// `sub` occurs contiguously inside `s`.
pub open spec fn is_sub_seq<T>(sub: Seq<T>, s: Seq<T>) -> bool {
    exists|at: int|
        0 <= at && at + sub.len() <= s.len() && #[trigger] s.subrange(at, at + sub.len()) == sub
}

proof fn lemma_sub_seq_refl<T>(s: Seq<T>)
    ensures
        is_sub_seq(s, s),
{
    let at: int = 0;
    assert(s.subrange(at, at + s.len()) =~= s);
}

proof fn lemma_sub_seq_trans<T>(a: Seq<T>, b: Seq<T>, c: Seq<T>)
    requires
        is_sub_seq(a, b),
        is_sub_seq(b, c),
    ensures
        is_sub_seq(a, c),
{
    let i = choose|i: int|
        0 <= i && i + a.len() <= b.len() && #[trigger] b.subrange(i, i + a.len()) == a;
    let j = choose|j: int|
        0 <= j && j + b.len() <= c.len() && #[trigger] c.subrange(j, j + b.len()) == b;
    let at: int = j + i;
    assert(c.subrange(at, at + a.len()) =~= b.subrange(i, i + a.len()));
}

proof fn lemma_sub_seq_concat_left<T>(a: Seq<T>, b: Seq<T>)
    ensures
        is_sub_seq(a, a + b),
{
    let at: int = 0;
    assert((a + b).subrange(at, at + a.len()) =~= a);
}

proof fn lemma_sub_seq_within<T>(x: Seq<T>, a: Seq<T>, b: Seq<T>)
    requires
        is_sub_seq(x, b),
    ensures
        is_sub_seq(x, a + b),
{
    let i = choose|i: int|
        0 <= i && i + x.len() <= b.len() && #[trigger] b.subrange(i, i + x.len()) == x;
    let at: int = a.len() + i;
    assert((a + b).subrange(at, at + x.len()) =~= b.subrange(i, i + x.len()));
}

/// A non-test child module's whole emission occurs contiguously inside its
/// parent's, one depth deeper.
proof fn lemma_child_block_within(fallback: Seq<char>, m: ModuleV, d: int, j: int)
    requires
        0 <= j < m.spans.len(),
        m.spans[j] is Module,
        !(m.spans[j]->Module_0.is_test),
    ensures
        is_sub_seq(emitted(fallback, m.spans[j]->Module_0, d + 1), emitted(fallback, m, d)),
{
    lemma_span_within(fallback, m.spans, d, j);
    let hdr = seq![EmitLine::Header(d, crate::fmt::mod_name_of(fallback, m.path))];
    let closer = seq![EmitLine::Closer(d)];
    let body = emit_spans(fallback, m.spans, d);
    assert(is_sub_seq(emit_span(fallback, m.spans[j], d), body));
    lemma_sub_seq_within(emit_span(fallback, m.spans[j], d), hdr, body);
    let i = choose|i: int|
        0 <= i && i + emit_span(fallback, m.spans[j], d).len() <= (hdr + body).len() && #[trigger] (
        hdr + body).subrange(i, i + emit_span(fallback, m.spans[j], d).len()) == emit_span(
            fallback,
            m.spans[j],
            d,
        );
    let at: int = i;
    assert(((hdr + body) + closer).subrange(at, at + emit_span(fallback, m.spans[j], d).len()) =~= (
    hdr + body).subrange(i, i + emit_span(fallback, m.spans[j], d).len()));
    assert(emitted(fallback, m, d) == (hdr + body) + closer);
}

proof fn lemma_span_within(fallback: Seq<char>, ss: Seq<SpanV>, d: int, j: int)
    requires
        0 <= j < ss.len(),
    ensures
        is_sub_seq(emit_span(fallback, ss[j], d), emit_spans(fallback, ss, d)),
    decreases ss.len(),
{
    if j == 0 {
        lemma_sub_seq_concat_left(
            emit_span(fallback, ss[0], d),
            emit_spans(fallback, ss.drop_first(), d),
        );
    } else {
        lemma_span_within(fallback, ss.drop_first(), d, j - 1);
        lemma_sub_seq_within(
            emit_span(fallback, ss[j], d),
            emit_span(fallback, ss[0], d),
            emit_spans(fallback, ss.drop_first(), d),
        );
    }
}

/// One step of descent: the `idxs`-selected chain of non-test child modules
/// under `m`, when every link exists.
pub open spec fn descend(m: ModuleV, idxs: Seq<int>) -> Option<ModuleV>
    decreases idxs.len(),
{
    if idxs.len() == 0 {
        Some(m)
    } else {
        let j = idxs[0];
        if 0 <= j < m.spans.len() && (m.spans[j] is Module) && !(m.spans[j]->Module_0.is_test) {
            descend(m.spans[j]->Module_0, idxs.drop_first())
        } else {
            None
        }
    }
}

/// Structural nesting correctness: a module reachable from `m` through a
/// chain of `k` non-test child links is emitted as one contiguous block
/// whose lines sit exactly `k` levels deeper, its header line first, at
/// depth `d + k` — so the depth of every emitted block equals the module's
/// depth in the reachability tree.
pub proof fn lemma_structural_nesting(
    fallback: Seq<char>,
    m: ModuleV,
    d: int,
    idxs: Seq<int>,
    c: ModuleV,
)
    requires
        descend(m, idxs) == Some(c),
    ensures
        is_sub_seq(emitted(fallback, c, d + idxs.len()), emitted(fallback, m, d)),
        emitted(fallback, c, d + idxs.len())[0] == EmitLine::Header(
            d + idxs.len(),
            crate::fmt::mod_name_of(fallback, c.path),
        ),
    decreases idxs.len(),
{
    let hdr = seq![EmitLine::Header(d + idxs.len(), crate::fmt::mod_name_of(fallback, c.path))];
    assert(emitted(fallback, c, d + idxs.len())[0] == (hdr + emit_spans(
        fallback,
        c.spans,
        d + idxs.len(),
    ) + seq![EmitLine::Closer(d + idxs.len())])[0]);
    if idxs.len() == 0 {
        lemma_sub_seq_refl(emitted(fallback, c, d));
    } else {
        let j = idxs[0];
        let child = m.spans[j]->Module_0;
        lemma_child_block_within(fallback, m, d, j);
        lemma_structural_nesting(fallback, child, d + 1, idxs.drop_first(), c);
        lemma_sub_seq_trans(
            emitted(fallback, c, d + idxs.len()),
            emitted(fallback, child, d + 1),
            emitted(fallback, m, d),
        );
    }
}


// ---------------------------------------------------------------------------
// Content preservation.
// ---------------------------------------------------------------------------

/// The content lines of the tree that reach the output, in order: lines of
/// every span, with test-flagged child modules and their subtrees skipped.
pub open spec fn vis_content(m: ModuleV) -> Seq<Seq<char>>
    decreases m,
{
    vis_spans(m.spans)
}

pub open spec fn vis_spans(ss: Seq<SpanV>) -> Seq<Seq<char>>
    decreases ss,
{
    if ss.len() == 0 {
        Seq::empty()
    } else {
        vis_span(ss[0]) + vis_spans(ss.drop_first())
    }
}

pub open spec fn vis_span(sp: SpanV) -> Seq<Seq<char>>
    decreases sp,
{
    match sp {
        SpanV::Lines(ls) => ls,
        SpanV::Module(c) => if c.is_test {
            Seq::empty()
        } else {
            vis_content(c)
        },
    }
}

/// The payloads of the content lines of an emission, in order.
pub open spec fn content_of(es: Seq<EmitLine>) -> Seq<Seq<char>>
    decreases es.len(),
{
    if es.len() == 0 {
        Seq::empty()
    } else {
        match es[0] {
            EmitLine::Content(_, l) => seq![l] + content_of(es.drop_first()),
            _ => content_of(es.drop_first()),
        }
    }
}

proof fn lemma_content_of_concat(a: Seq<EmitLine>, b: Seq<EmitLine>)
    ensures
        content_of(a + b) == content_of(a) + content_of(b),
    decreases a.len(),
{
    if a.len() == 0 {
        assert(a + b =~= b);
        assert(content_of(a) + content_of(b) =~= content_of(b));
    } else {
        lemma_content_of_concat(a.drop_first(), b);
        assert((a + b).drop_first() =~= a.drop_first() + b);
        assert((a + b)[0] == a[0]);
        match a[0] {
            EmitLine::Content(_, l) => {
                assert(seq![l] + (content_of(a.drop_first()) + content_of(b)) =~= (seq![l]
                    + content_of(a.drop_first())) + content_of(b));
            },
            _ => {},
        }
    }
}

proof fn lemma_content_of_contents(ls: Seq<Seq<char>>, d: int)
    ensures
        content_of(content_emits(ls, d)) == ls,
    decreases ls.len(),
{
    if ls.len() == 0 {
        assert(content_of(content_emits(ls, d)) =~= ls);
    } else {
        lemma_content_of_contents(ls.drop_first(), d);
        let es = seq![EmitLine::Content(d, ls[0])] + content_emits(ls.drop_first(), d);
        assert(es[0] == EmitLine::Content(d, ls[0]));
        assert(es.drop_first() =~= content_emits(ls.drop_first(), d));
        assert(content_of(es) =~= ls);
    }
}

/// The formatter writes exactly the tree's visible content lines, in order.
pub proof fn lemma_format_content(fallback: Seq<char>, m: ModuleV, d: int)
    ensures
        content_of(emitted(fallback, m, d)) == vis_content(m),
    decreases m,
{
    let hdr = seq![EmitLine::Header(d, crate::fmt::mod_name_of(fallback, m.path))];
    let closer = seq![EmitLine::Closer(d)];
    let body = emit_spans(fallback, m.spans, d);
    lemma_content_of_concat(hdr + body, closer);
    lemma_content_of_concat(hdr, body);
    assert(content_of(hdr) =~= Seq::<Seq<char>>::empty()) by {
        assert(hdr[0] == EmitLine::Header(d, crate::fmt::mod_name_of(fallback, m.path)));
        assert(hdr.drop_first() =~= Seq::<EmitLine>::empty());
        assert(content_of(Seq::<EmitLine>::empty()) =~= Seq::<Seq<char>>::empty());
    }
    assert(content_of(closer) =~= Seq::<Seq<char>>::empty()) by {
        assert(closer[0] == EmitLine::Closer(d));
        assert(closer.drop_first() =~= Seq::<EmitLine>::empty());
        assert(content_of(Seq::<EmitLine>::empty()) =~= Seq::<Seq<char>>::empty());
    }
    lemma_format_content_spans(fallback, m.spans, d);
    assert(content_of(emitted(fallback, m, d)) =~= vis_content(m));
}

proof fn lemma_format_content_spans(fallback: Seq<char>, ss: Seq<SpanV>, d: int)
    ensures
        content_of(emit_spans(fallback, ss, d)) == vis_spans(ss),
    decreases ss,
{
    if ss.len() == 0 {
        assert(content_of(emit_spans(fallback, ss, d)) =~= vis_spans(ss));
    } else {
        lemma_format_content_spans(fallback, ss.drop_first(), d);
        lemma_content_of_concat(
            emit_span(fallback, ss[0], d),
            emit_spans(fallback, ss.drop_first(), d),
        );
        match ss[0] {
            SpanV::Lines(ls) => {
                lemma_content_of_contents(ls, d + 1);
                assert(emit_span(fallback, ss[0], d) == content_emits(ls, d + 1));
                assert(vis_span(ss[0]) == ls);
            },
            SpanV::Module(c) => {
                if c.is_test {
                    assert(emit_span(fallback, ss[0], d) =~= Seq::<EmitLine>::empty());
                    assert(content_of(Seq::<EmitLine>::empty()) =~= Seq::<Seq<char>>::empty());
                    assert(vis_span(ss[0]) =~= Seq::<Seq<char>>::empty());
                } else {
                    lemma_format_content(fallback, c, d + 1);
                    assert(emit_span(fallback, ss[0], d) == emitted(fallback, c, d + 1));
                    assert(vis_span(ss[0]) == vis_content(c));
                }
            },
        }
        assert(emit_spans(fallback, ss, d) == emit_span(fallback, ss[0], d) + emit_spans(
            fallback,
            ss.drop_first(),
            d,
        ));
        assert(content_of(emit_spans(fallback, ss, d)) == content_of(emit_span(fallback, ss[0], d))
            + content_of(emit_spans(fallback, ss.drop_first(), d)));
        assert(content_of(emit_spans(fallback, ss, d)) =~= vis_spans(ss));
    }
}

/// Content appended below the innermost frame is visible in the final root
/// only while every open frame below the root is not test-flagged.
pub open spec fn open_visible(stack: Seq<ModuleV>) -> bool {
    forall|j: int| 1 <= j < stack.len() ==> !(#[trigger] stack[j].is_test)
}

/// The visible content already accumulated in a stack of open frames: the
/// root frame's, then each deeper frame's as long as the chain of open
/// frames stays free of test flags.
pub open spec fn vc_open(stack: Seq<ModuleV>) -> Seq<Seq<char>>
    decreases stack.len(),
{
    if stack.len() == 0 {
        Seq::empty()
    } else {
        vis_content(stack[0]) + (if stack.len() >= 2 && !stack[1].is_test {
            vc_open(stack.drop_first())
        } else {
            Seq::empty()
        })
    }
}

proof fn lemma_vis_spans_snoc(ss: Seq<SpanV>, x: SpanV)
    ensures
        vis_spans(ss.push(x)) == vis_spans(ss) + vis_span(x),
    decreases ss.len(),
{
    if ss.len() == 0 {
        assert(ss.push(x)[0] == x);
        assert(ss.push(x).drop_first() =~= Seq::<SpanV>::empty());
        assert(vis_spans(Seq::<SpanV>::empty()) =~= Seq::<Seq<char>>::empty());
        assert(vis_spans(ss.push(x)) =~= vis_spans(ss) + vis_span(x));
    } else {
        lemma_vis_spans_snoc(ss.drop_first(), x);
        assert(ss.push(x).drop_first() =~= ss.drop_first().push(x));
        assert(ss.push(x)[0] == ss[0]);
        assert(vis_span(ss[0]) + (vis_spans(ss.drop_first()) + vis_span(x)) =~= (vis_span(ss[0])
            + vis_spans(ss.drop_first())) + vis_span(x));
    }
}

/// Appending a content line extends the visible content by that line.
proof fn lemma_vis_push_content(m: ModuleV, l: Seq<char>)
    ensures
        vis_content(push_content_m(m, l)) == vis_content(m) + seq![l],
{
    if m.spans.len() > 0 && (m.spans.last() is Lines) {
        let ls = m.spans.last()->Lines_0;
        let dl = m.spans.drop_last();
        lemma_vis_spans_snoc(dl, SpanV::Lines(ls.push(l)));
        lemma_vis_spans_snoc(dl, m.spans.last());
        assert(dl.push(m.spans.last()) =~= m.spans);
        assert(vis_content(push_content_m(m, l)) =~= vis_content(m) + seq![l]);
    } else {
        lemma_vis_spans_snoc(m.spans, SpanV::Lines(seq![l]));
        assert(vis_content(push_content_m(m, l)) =~= vis_content(m) + seq![l]);
    }
}

/// Appending a child module span extends the visible content by the child's,
/// unless the child is test-flagged.
proof fn lemma_vis_push_span(m: ModuleV, c: ModuleV)
    ensures
        vis_content(push_span_m(m, SpanV::Module(c))) == vis_content(m) + (if c.is_test {
            Seq::<Seq<char>>::empty()
        } else {
            vis_content(c)
        }),
{
    lemma_vis_spans_snoc(m.spans, SpanV::Module(c));
    if c.is_test {
        assert(vis_content(m) + Seq::<Seq<char>>::empty() =~= vis_content(m));
    }
}

/// Pushing a content line onto the innermost frame adds it to the
/// accumulated visible content exactly when the open chain is visible.
proof fn lemma_vc_open_content(stack: Seq<ModuleV>, l: Seq<char>)
    requires
        stack.len() >= 1,
    ensures
        vc_open(set_top(stack, push_content_m(stack.last(), l))) == vc_open(stack) + (
        if open_visible(stack) {
            seq![l]
        } else {
            Seq::<Seq<char>>::empty()
        }),
    decreases stack.len(),
{
    let m2 = push_content_m(stack.last(), l);
    let s2 = set_top(stack, m2);
    if stack.len() == 1 {
        assert(s2 =~= seq![m2]);
        lemma_vis_push_content(stack.last(), l);
        assert(vc_open(s2) =~= vc_open(stack) + seq![l]);
    } else {
        lemma_vc_open_content(stack.drop_first(), l);
        assert(set_top(stack.drop_first(), m2) =~= s2.drop_first());
        assert(s2[0] == stack[0]);
        assert(s2[1].is_test == stack[1].is_test) by {
            if stack.len() == 2 {
                assert(s2[1] == m2);
            } else {
                assert(s2[1] == stack[1]);
            }
        }
        assert(stack.drop_first().last() == stack.last());
        assert(open_visible(stack) == (!stack[1].is_test && open_visible(stack.drop_first())))
            by {
            if !stack[1].is_test && open_visible(stack.drop_first()) {
                assert forall|j: int| 1 <= j < stack.len() implies !(#[trigger] stack[j].is_test)
                    by {
                    if j >= 2 {
                        assert(stack.drop_first()[j - 1] == stack[j]);
                    }
                }
            }
            if open_visible(stack) {
                let dt = stack.drop_first();
                assert forall|j: int| 1 <= j < dt.len() implies !(#[trigger] dt[j].is_test) by {
                    assert(dt[j] == stack[j + 1]);
                }
            }
        }
        if !stack[1].is_test {
            assert(vc_open(s2) =~= vc_open(stack) + (if open_visible(stack) {
                seq![l]
            } else {
                Seq::<Seq<char>>::empty()
            }));
        } else {
            assert(vc_open(s2) =~= vc_open(stack));
            assert(vc_open(stack) + Seq::<Seq<char>>::empty() =~= vc_open(stack));
        }
    }
}

/// Pushing a child module span onto the innermost frame adds the child's
/// visible content exactly when the chain is visible and the child is not
/// test-flagged.
proof fn lemma_vc_open_span(stack: Seq<ModuleV>, c: ModuleV)
    requires
        stack.len() >= 1,
    ensures
        vc_open(set_top(stack, push_span_m(stack.last(), SpanV::Module(c)))) == vc_open(stack) + (
        if open_visible(stack) && !c.is_test {
            vis_content(c)
        } else {
            Seq::<Seq<char>>::empty()
        }),
    decreases stack.len(),
{
    let m2 = push_span_m(stack.last(), SpanV::Module(c));
    let s2 = set_top(stack, m2);
    if stack.len() == 1 {
        assert(s2 =~= seq![m2]);
        lemma_vis_push_span(stack.last(), c);
        assert(vc_open(s2) =~= vc_open(stack) + (if open_visible(stack) && !c.is_test {
            vis_content(c)
        } else {
            Seq::<Seq<char>>::empty()
        }));
    } else {
        lemma_vc_open_span(stack.drop_first(), c);
        assert(set_top(stack.drop_first(), m2) =~= s2.drop_first());
        assert(s2[0] == stack[0]);
        assert(s2[1].is_test == stack[1].is_test) by {
            if stack.len() == 2 {
                assert(s2[1] == m2);
            } else {
                assert(s2[1] == stack[1]);
            }
        }
        assert(stack.drop_first().last() == stack.last());
        assert(open_visible(stack) == (!stack[1].is_test && open_visible(stack.drop_first())))
            by {
            if !stack[1].is_test && open_visible(stack.drop_first()) {
                assert forall|j: int| 1 <= j < stack.len() implies !(#[trigger] stack[j].is_test)
                    by {
                    if j >= 2 {
                        assert(stack.drop_first()[j - 1] == stack[j]);
                    }
                }
            }
            if open_visible(stack) {
                let dt = stack.drop_first();
                assert forall|j: int| 1 <= j < dt.len() implies !(#[trigger] dt[j].is_test) by {
                    assert(dt[j] == stack[j + 1]);
                }
            }
        }
        if !stack[1].is_test {
            assert(vc_open(s2) =~= vc_open(stack) + (if open_visible(stack) && !c.is_test {
                vis_content(c)
            } else {
                Seq::<Seq<char>>::empty()
            }));
        } else {
            assert(vc_open(s2) =~= vc_open(stack));
            assert(vc_open(stack) + Seq::<Seq<char>>::empty() =~= vc_open(stack));
        }
    }
}

/// Opening a fresh frame leaves the accumulated visible content unchanged.
proof fn lemma_vc_open_push_frame(stack: Seq<ModuleV>, f: ModuleV)
    requires
        stack.len() >= 1,
        f.spans.len() == 0,
    ensures
        vc_open(stack.push(f)) == vc_open(stack),
    decreases stack.len(),
{
    let s2 = stack.push(f);
    assert(vis_content(f) =~= Seq::<Seq<char>>::empty());
    if stack.len() == 1 {
        assert(s2.drop_first() =~= seq![f]);
        assert(s2[0] == stack[0]);
        if !f.is_test {
            assert(vc_open(seq![f]) =~= Seq::<Seq<char>>::empty());
        }
        assert(vc_open(s2) =~= vc_open(stack));
    } else {
        lemma_vc_open_push_frame(stack.drop_first(), f);
        assert(stack.drop_first().push(f) =~= s2.drop_first());
        assert(s2[0] == stack[0]);
        assert(s2[1] == stack[1]);
        assert(vc_open(s2) =~= vc_open(stack));
    }
}

/// Closing the innermost frame into its parent leaves the accumulated
/// visible content unchanged.
proof fn lemma_vc_open_pop(stack: Seq<ModuleV>)
    requires
        stack.len() >= 2,
    ensures
        vc_open(
            set_top(
                stack.drop_last(),
                push_span_m(stack.drop_last().last(), SpanV::Module(stack.last())),
            ),
        ) == vc_open(stack),
    decreases stack.len(),
{
    let rest = stack.drop_last();
    let m2 = push_span_m(rest.last(), SpanV::Module(stack.last()));
    let s2 = set_top(rest, m2);
    if stack.len() == 2 {
        assert(s2 =~= seq![m2]);
        lemma_vis_push_span(rest.last(), stack.last());
        assert(rest.last() == stack[0]);
        assert(stack.drop_first().len() == 1);
        assert(stack.drop_first()[0] == stack[1]);
        assert(vc_open(stack.drop_first()) =~= vis_content(stack[1]));
        if stack.last().is_test {
            assert(vc_open(stack) =~= vis_content(stack[0]));
            assert(vc_open(s2) =~= vis_content(stack[0]) + Seq::<Seq<char>>::empty());
            assert(vc_open(s2) =~= vc_open(stack));
        } else {
            assert(vc_open(stack) =~= vis_content(stack[0]) + vis_content(stack[1]));
            assert(vc_open(s2) =~= vc_open(stack));
        }
    } else {
        lemma_vc_open_pop(stack.drop_first());
        assert(stack.drop_first().drop_last() =~= rest.drop_first());
        assert(stack.drop_first().last() == stack.last());
        assert(rest.drop_first().last() == rest.last());
        assert(set_top(
            rest.drop_first(),
            push_span_m(rest.drop_first().last(), SpanV::Module(stack.last())),
        ) =~= s2.drop_first());
        assert(s2[0] == stack[0]);
        assert(s2[1].is_test == stack[1].is_test) by {
            if stack.len() == 3 {
                assert(s2[1] == m2);
                assert(rest.last() == stack[1]);
            } else {
                assert(s2[1] == stack[1]);
            }
        }
        if !stack[1].is_test {
            assert(vc_open(s2) =~= vc_open(stack));
        } else {
            assert(vc_open(s2) =~= vis_content(stack[0]));
            assert(vc_open(stack) =~= vis_content(stack[0]));
        }
    }
}


/// The content lines, already transformed, that the builder will still add
/// to the visible part of its result from state `st` on: the filter of the
/// remaining input — documentation and blank lines, markers that annotate
/// modules, structural lines and everything inside test-flagged frames
/// dropped; external modules' own kept lines spliced in at their
/// declaration, in resolution order.
pub open spec fn kept(
    ctx: BuildCtx,
    lines: Seq<Seq<char>>,
    i: int,
    st: BuildStateV,
    root_len: int,
) -> Seq<Seq<char>>
    decreases ctx.bound + 1 - root_len, lines.len() - i,
    when 0 <= i <= lines.len() && st_wf(st, root_len) && ctx_wf(ctx) && 0 <= root_len <= ctx.bound
        + 1
    via kept_decreases
{
    if i == lines.len() {
        Seq::empty()
    } else {
        let line = lines[i];
        if st.in_doc {
            kept(ctx, lines, i + 1, BuildStateV { in_doc: !is_block_comment_end(line), ..st }, root_len)
        } else {
            match module_decl_name(line) {
                Some(name) => {
                    let child_path = st.stack.last().path + seq!['/'] + name;
                    if !ctx.contents.dom().contains(child_path) {
                        Seq::empty()
                    } else {
                        match build_lines(
                            ctx,
                            ctx.contents[child_path],
                            0,
                            init_state(child_path),
                            child_path.len() as int,
                        ) {
                            Err(_) => Seq::empty(),
                            Ok(m) => {
                                let child_kept = if open_visible(st.stack) && !(st.pending
                                    is Unresolved) {
                                    kept(
                                        ctx,
                                        ctx.contents[child_path],
                                        0,
                                        init_state(child_path),
                                        child_path.len() as int,
                                    )
                                } else {
                                    Seq::empty()
                                };
                                child_kept + kept(
                                    ctx,
                                    lines,
                                    i + 1,
                                    BuildStateV {
                                        stack: set_top(
                                            st.stack,
                                            push_span_m(
                                                st.stack.last(),
                                                SpanV::Module(
                                                    ModuleV {
                                                        is_test: st.pending is Unresolved,
                                                        ..m
                                                    },
                                                ),
                                            ),
                                        ),
                                        pending: PendingV::Absent,
                                        in_doc: false,
                                    },
                                    root_len,
                                )
                            },
                        }
                    }
                },
                None => match module_block_name(line) {
                    Some(name) => kept(
                        ctx,
                        lines,
                        i + 1,
                        BuildStateV {
                            stack: st.stack.push(
                                ModuleV {
                                    path: st.stack.last().path + seq!['/'] + name,
                                    spans: Seq::empty(),
                                    is_test: st.pending is Unresolved,
                                },
                            ),
                            pending: PendingV::Absent,
                            in_doc: false,
                        },
                        root_len,
                    ),
                    None => match block_end_spaces(line) {
                        Some(cnt) => {
                            if st.stack.len() >= 2 && cnt == (st.stack.len() - 2) * (
                            TAB_LENGTH as int) {
                                kept(
                                    ctx,
                                    lines,
                                    i + 1,
                                    BuildStateV {
                                        stack: set_top(
                                            st.stack.drop_last(),
                                            push_span_m(
                                                st.stack.drop_last().last(),
                                                SpanV::Module(st.stack.last()),
                                            ),
                                        ),
                                        ..st
                                    },
                                    root_len,
                                )
                            } else {
                                (if open_visible(st.stack) {
                                    seq![transformed(line, ctx, st.stack.len() as int)]
                                } else {
                                    Seq::empty()
                                }) + kept(
                                    ctx,
                                    lines,
                                    i + 1,
                                    BuildStateV {
                                        stack: set_top(
                                            st.stack,
                                            push_content_m(
                                                st.stack.last(),
                                                transformed(line, ctx, st.stack.len() as int),
                                            ),
                                        ),
                                        ..st
                                    },
                                    root_len,
                                )
                            }
                        },
                        None => {
                            let flushed = match st.pending {
                                PendingV::Unresolved(txt) => if open_visible(st.stack) {
                                    seq![transformed(txt, ctx, st.stack.len() as int)]
                                } else {
                                    Seq::empty()
                                },
                                _ => Seq::empty(),
                            };
                            let st1 = match st.pending {
                                PendingV::Unresolved(txt) => BuildStateV {
                                    stack: set_top(
                                        st.stack,
                                        push_content_m(
                                            st.stack.last(),
                                            transformed(txt, ctx, st.stack.len() as int),
                                        ),
                                    ),
                                    pending: PendingV::Confirmed,
                                    ..st
                                },
                                _ => st,
                            };
                            if is_cfg_test(line) {
                                flushed + kept(
                                    ctx,
                                    lines,
                                    i + 1,
                                    BuildStateV { pending: PendingV::Unresolved(line), ..st1 },
                                    root_len,
                                )
                            } else if is_block_doc_start(line) {
                                flushed + kept(
                                    ctx,
                                    lines,
                                    i + 1,
                                    BuildStateV { in_doc: true, ..st1 },
                                    root_len,
                                )
                            } else if is_oneline_doc(line) || line.len() == 0 {
                                flushed + kept(ctx, lines, i + 1, st1, root_len)
                            } else {
                                flushed + (if open_visible(st1.stack) {
                                    seq![transformed(line, ctx, st1.stack.len() as int)]
                                } else {
                                    Seq::empty()
                                }) + kept(
                                    ctx,
                                    lines,
                                    i + 1,
                                    BuildStateV {
                                        stack: set_top(
                                            st1.stack,
                                            push_content_m(
                                                st1.stack.last(),
                                                transformed(line, ctx, st1.stack.len() as int),
                                            ),
                                        ),
                                        ..st1
                                    },
                                    root_len,
                                )
                            }
                        },
                    },
                },
            }
        }
    }
}

#[via_fn]
proof fn kept_decreases(
    ctx: BuildCtx,
    lines: Seq<Seq<char>>,
    i: int,
    st: BuildStateV,
    root_len: int,
) {
    if 0 <= i < lines.len() && st_wf(st, root_len) && ctx_wf(ctx) && 0 <= root_len <= ctx.bound
        + 1 {
        assert(st.stack.last().path.len() >= root_len);
        crate::bundle_crate::lemma_step_states_wf_pub(st, root_len);
    }
}


/// Builder side of content preservation: when the build succeeds, the
/// visible content of the resulting tree is exactly what was already
/// accumulated in the open frames, followed by the kept lines of the
/// remaining input.
#[verifier::rlimit(100)]
#[verifier::spinoff_prover]
proof fn lemma_build_visible(
    ctx: BuildCtx,
    lines: Seq<Seq<char>>,
    i: int,
    st: BuildStateV,
    root_len: int,
)
    requires
        0 <= i <= lines.len(),
        st_wf(st, root_len),
        ctx_wf(ctx),
        0 <= root_len <= ctx.bound + 1,
        build_lines(ctx, lines, i, st, root_len) is Ok,
    ensures
        vis_content(build_lines(ctx, lines, i, st, root_len)->Ok_0) == vc_open(st.stack) + kept(
            ctx,
            lines,
            i,
            st,
            root_len,
        ),
    decreases ctx.bound + 1 - root_len, lines.len() - i,
{
    let r = build_lines(ctx, lines, i, st, root_len);
    let k = kept(ctx, lines, i, st, root_len);
    crate::bundle_crate::lemma_step_states_wf_pub(st, root_len);
    if i == lines.len() {
        assert(st.stack.len() == 1);
        assert(vc_open(st.stack) =~= vis_content(st.stack[0]));
        assert(vis_content(r->Ok_0) =~= vc_open(st.stack) + k);
    } else {
        let line = lines[i];
        if st.in_doc {
            let st2 = BuildStateV { in_doc: !is_block_comment_end(line), ..st };
            lemma_build_visible(ctx, lines, i + 1, st2, root_len);
            assert(vis_content(r->Ok_0) =~= vc_open(st.stack) + k);
        } else {
            match module_decl_name(line) {
                Some(name) => {
                    let child_path = st.stack.last().path + seq!['/'] + name;
                    assert(ctx.contents.dom().contains(child_path));
                    let child_lines = ctx.contents[child_path];
                    let cl = child_path.len() as int;
                    let rc = build_lines(ctx, child_lines, 0, init_state(child_path), cl);
                    assert(rc is Ok);
                    let m0 = rc->Ok_0;
                    assert(st_wf(init_state(child_path), cl)) by {
                        assert(init_state(child_path).stack[0].path =~= child_path);
                    }
                    assert(0 <= cl <= ctx.bound + 1);
                    lemma_build_visible(ctx, child_lines, 0, init_state(child_path), cl);
                    assert(vc_open(init_state(child_path).stack) =~= Seq::<Seq<char>>::empty())
                        by {
                        assert(vis_content(init_state(child_path).stack[0]) =~= Seq::<
                            Seq<char>,
                        >::empty());
                    }
                    assert(vis_content(m0) =~= kept(
                        ctx,
                        child_lines,
                        0,
                        init_state(child_path),
                        cl,
                    ));
                    let m2 = ModuleV { is_test: st.pending is Unresolved, ..m0 };
                    assert(rc == Ok::<ModuleV, crate::error::BundlerErrorV>(m0));
                    assert(vis_content(m2) == vis_content(m0));
                    let st2 = BuildStateV {
                        stack: set_top(st.stack, push_span_m(st.stack.last(), SpanV::Module(m2))),
                        pending: PendingV::Absent,
                        in_doc: false,
                    };
                    assert(r == build_lines(ctx, lines, i + 1, st2, root_len));
                    assert(push_span_m(st.stack.last(), SpanV::Module(m2)).path.len()
                        >= root_len) by {
                        assert(st.stack.last().path.len() >= root_len);
                    }
                    lemma_build_visible(ctx, lines, i + 1, st2, root_len);
                    lemma_vc_open_span(st.stack, m2);
                    assert(vis_content(r->Ok_0) =~= vc_open(st.stack) + k);
                },
                None => match module_block_name(line) {
                    Some(name) => {
                        let frame = ModuleV {
                            path: st.stack.last().path + seq!['/'] + name,
                            spans: Seq::empty(),
                            is_test: st.pending is Unresolved,
                        };
                        let st2 = BuildStateV {
                            stack: st.stack.push(frame),
                            pending: PendingV::Absent,
                            in_doc: false,
                        };
                        assert(frame.path.len() >= root_len) by {
                            assert(st.stack.last().path.len() >= root_len);
                        }
                        lemma_build_visible(ctx, lines, i + 1, st2, root_len);
                        lemma_vc_open_push_frame(st.stack, frame);
                        assert(vis_content(r->Ok_0) =~= vc_open(st.stack) + k);
                    },
                    None => match block_end_spaces(line) {
                        Some(cnt) => {
                            if st.stack.len() >= 2 && cnt == (st.stack.len() - 2) * (
                            TAB_LENGTH as int) {
                                let st2 = BuildStateV {
                                    stack: set_top(
                                        st.stack.drop_last(),
                                        push_span_m(
                                            st.stack.drop_last().last(),
                                            SpanV::Module(st.stack.last()),
                                        ),
                                    ),
                                    ..st
                                };
                                lemma_build_visible(ctx, lines, i + 1, st2, root_len);
                                lemma_vc_open_pop(st.stack);
                                assert(vis_content(r->Ok_0) =~= vc_open(st.stack) + k);
                            } else {
                                let t = transformed(line, ctx, st.stack.len() as int);
                                let st2 = BuildStateV {
                                    stack: set_top(
                                        st.stack,
                                        push_content_m(st.stack.last(), t),
                                    ),
                                    ..st
                                };
                                assert(push_content_m(st.stack.last(), t).path.len() >= root_len)
                                    by {
                                    assert(st.stack.last().path.len() >= root_len);
                                }
                                lemma_build_visible(ctx, lines, i + 1, st2, root_len);
                                lemma_vc_open_content(st.stack, t);
                                assert(vis_content(r->Ok_0) =~= vc_open(st.stack) + k);
                            }
                        },
                        None => {
                            let st1 = match st.pending {
                                PendingV::Unresolved(txt) => BuildStateV {
                                    stack: set_top(
                                        st.stack,
                                        push_content_m(
                                            st.stack.last(),
                                            transformed(txt, ctx, st.stack.len() as int),
                                        ),
                                    ),
                                    pending: PendingV::Confirmed,
                                    ..st
                                },
                                _ => st,
                            };
                            let flushed: Seq<Seq<char>> = match st.pending {
                                PendingV::Unresolved(txt) => if open_visible(st.stack) {
                                    seq![transformed(txt, ctx, st.stack.len() as int)]
                                } else {
                                    Seq::empty()
                                },
                                _ => Seq::empty(),
                            };
                            match st.pending {
                                PendingV::Unresolved(txt) => {
                                    let t = transformed(txt, ctx, st.stack.len() as int);
                                    assert(push_content_m(st.stack.last(), t).path.len()
                                        >= root_len) by {
                                        assert(st.stack.last().path.len() >= root_len);
                                    }
                                    lemma_vc_open_content(st.stack, t);
                                    assert(vc_open(st1.stack) == vc_open(st.stack) + flushed);
                                },
                                _ => {
                                    assert(vc_open(st1.stack) =~= vc_open(st.stack) + flushed);
                                },
                            }
                            assert(st_wf(st1, root_len));
                            crate::bundle_crate::lemma_step_states_wf_pub(st1, root_len);
                            assert(st1.stack.len() == st.stack.len());
                            assert(st1.stack.last().path.len() >= root_len);
                            assert(open_visible(st1.stack) == open_visible(st.stack)) by {
                                match st.pending {
                                    PendingV::Unresolved(txt) => {
                                        let t = transformed(txt, ctx, st.stack.len() as int);
                                        let s2 = set_top(
                                            st.stack,
                                            push_content_m(st.stack.last(), t),
                                        );
                                        assert forall|j: int| 1 <= j < s2.len() implies s2[
                                        j].is_test == st.stack[j].is_test by {
                                            if j < s2.len() - 1 {
                                                assert(s2[j] == st.stack[j]);
                                            } else {
                                                assert(s2[j] == push_content_m(
                                                    st.stack.last(),
                                                    t,
                                                ));
                                            }
                                        }
                                        if open_visible(st.stack) {
                                            assert forall|j: int|
                                                1 <= j < s2.len() implies !(#[trigger] s2[
                                            j].is_test) by {}
                                        }
                                        if open_visible(s2) {
                                            assert forall|j: int|
                                                1 <= j < st.stack.len() implies !(
                                            #[trigger] st.stack[j].is_test) by {
                                                assert(s2[j].is_test == st.stack[j].is_test);
                                            }
                                        }
                                    },
                                    _ => {},
                                }
                            }
                            if is_cfg_test(line) {
                                let st2 = BuildStateV {
                                    pending: PendingV::Unresolved(line),
                                    ..st1
                                };
                                lemma_build_visible(ctx, lines, i + 1, st2, root_len);
                                assert(vis_content(r->Ok_0) =~= vc_open(st.stack) + k);
                            } else if is_block_doc_start(line) {
                                let st2 = BuildStateV { in_doc: true, ..st1 };
                                lemma_build_visible(ctx, lines, i + 1, st2, root_len);
                                assert(vis_content(r->Ok_0) =~= vc_open(st.stack) + k);
                            } else if is_oneline_doc(line) || line.len() == 0 {
                                lemma_build_visible(ctx, lines, i + 1, st1, root_len);
                                assert(vis_content(r->Ok_0) =~= vc_open(st.stack) + k);
                            } else {
                                let t = transformed(line, ctx, st1.stack.len() as int);
                                let st2 = BuildStateV {
                                    stack: set_top(
                                        st1.stack,
                                        push_content_m(st1.stack.last(), t),
                                    ),
                                    ..st1
                                };
                                assert(push_content_m(st1.stack.last(), t).path.len()
                                    >= root_len);
                                lemma_build_visible(ctx, lines, i + 1, st2, root_len);
                                lemma_vc_open_content(st1.stack, t);
                                assert(vis_content(r->Ok_0) =~= vc_open(st.stack) + k);
                            }
                        },
                    },
                },
            }
        }
    }
}

/// Idempotent round trip on content preservation: when a module builds
/// successfully, the formatter's content lines for the resulting tree are
/// exactly the kept lines of the input — every non-comment, non-test,
/// non-blank line of every transitively reached module appears exactly once,
/// in order, modulo indentation normalization and path substitution, and
/// nothing else appears.
pub proof fn lemma_content_preservation(
    ctx: BuildCtx,
    fallback: Seq<char>,
    lines: Seq<Seq<char>>,
    path: Seq<char>,
    d: int,
)
    requires
        ctx_wf(ctx),
        path.len() <= ctx.bound + 1,
        build_lines(ctx, lines, 0, init_state(path), path.len() as int) is Ok,
    ensures
        content_of(
            emitted(
                fallback,
                build_lines(ctx, lines, 0, init_state(path), path.len() as int)->Ok_0,
                d,
            ),
        ) == kept(ctx, lines, 0, init_state(path), path.len() as int),
{
    let rl = path.len() as int;
    assert(st_wf(init_state(path), rl)) by {
        assert(init_state(path).stack[0].path =~= path);
    }
    lemma_build_visible(ctx, lines, 0, init_state(path), rl);
    let m = build_lines(ctx, lines, 0, init_state(path), rl)->Ok_0;
    lemma_format_content(fallback, m, d);
    assert(vc_open(init_state(path).stack) =~= Seq::<Seq<char>>::empty()) by {
        assert(vis_content(init_state(path).stack[0]) =~= Seq::<Seq<char>>::empty());
    }
    assert(content_of(emitted(fallback, m, d)) =~= kept(ctx, lines, 0, init_state(path), rl));
}

} // verus!
