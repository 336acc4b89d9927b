use vstd::prelude::*;
use vstd::string::StringExecFns;

use crate::config_toml::ConfigToml;
use crate::error::{BundlerError, BundlerErrorV};
use crate::parse_line::{
    block_end_spaces, is_block_comment_end, is_block_doc_start, is_cfg_test, is_oneline_doc,
    module_block_name, module_decl_name, parse_block_doc_comments_end,
    parse_block_doc_comments_start, parse_block_end, parse_cfg_test, parse_module_block_begin,
    parse_module_decl, parse_oneline_doc_comments, remove_indentation, strip_indent,
    substitute_path, substituted,
};
use crate::resolver::Resolve;
use crate::text::{str_to_string, strs_view};
use crate::types::{module_view, Crate, Module, ModuleV, Span, SpanV};
use crate::TAB_LENGTH;

verus! {

/// The pending test-marker attribute: absent, seen on the previous line but
/// not yet known to annotate a module, or already settled as ordinary content.
enum PendingAttr {
    Absent,
    Unresolved(String),
    Confirmed,
}

/// Mathematical model of the pending attribute.
#[verifier::ext_equal]
pub ghost enum PendingV {
    Absent,
    Unresolved(Seq<char>),
    Confirmed,
}

impl View for PendingAttr {
    type V = PendingV;

    closed spec fn view(&self) -> PendingV {
        match self {
            PendingAttr::Absent => PendingV::Absent,
            PendingAttr::Unresolved(t) => PendingV::Unresolved(t@),
            PendingAttr::Confirmed => PendingV::Confirmed,
        }
    }
}

/// The full state the builder carries between lines: the stack of open
/// frames (root first, innermost last), the pending attribute, and whether
/// the scan is inside a block documentation comment.
#[verifier::ext_equal]
pub ghost struct BuildStateV {
    pub stack: Seq<ModuleV>,
    pub pending: PendingV,
    pub in_doc: bool,
}

/// What the builder reads from its surroundings: the resolver's model, the
/// bound on resolvable path lengths, the bundling crate's name, and the
/// dependency map.
#[verifier::ext_equal]
pub ghost struct BuildCtx {
    pub contents: Map<Seq<char>, Seq<Seq<char>>>,
    pub bound: nat,
    pub crate_name: Seq<char>,
    pub deps: Seq<(String, String)>,
}

/// Every resolvable path is within the bound.
pub open spec fn ctx_wf(ctx: BuildCtx) -> bool {
    forall|p: Seq<char>| ctx.contents.dom().contains(p) ==> p.len() <= ctx.bound
}

/// The state a fresh builder starts from: one open frame at `path`.
pub open spec fn init_state(path: Seq<char>) -> BuildStateV {
    BuildStateV {
        stack: seq![ModuleV { path: path, spans: Seq::empty(), is_test: false }],
        pending: PendingV::Absent,
        in_doc: false,
    }
}

/// A content line appended to a module: it extends a trailing run of lines,
/// or begins a new one after a child module.
pub open spec fn push_content_m(m: ModuleV, l: Seq<char>) -> ModuleV {
    if m.spans.len() > 0 && (m.spans.last() is Lines) {
        ModuleV {
            spans: m.spans.drop_last().push(SpanV::Lines(m.spans.last()->Lines_0.push(l))),
            ..m
        }
    } else {
        ModuleV { spans: m.spans.push(SpanV::Lines(seq![l])), ..m }
    }
}

/// A span appended to a module.
pub open spec fn push_span_m(m: ModuleV, sp: SpanV) -> ModuleV {
    ModuleV { spans: m.spans.push(sp), ..m }
}

/// The stack with its innermost frame replaced.
pub open spec fn set_top(stack: Seq<ModuleV>, m: ModuleV) -> Seq<ModuleV> {
    stack.drop_last().push(m)
}

/// How one content line reaches a frame at stack depth `depth`: paths are
/// substituted, then one indentation unit is removed for every enclosing
/// frame.
pub open spec fn transformed(l: Seq<char>, ctx: BuildCtx, depth: int) -> Seq<char> {
    strip_indent(substituted(l, ctx.crate_name, ctx.deps), (depth - 1) * (TAB_LENGTH as int))
}

/// The builder's state is well formed when at least one frame is open and no
/// frame's path is shorter than `root_len`, the length of the path this
/// builder invocation was started at.
pub open spec fn st_wf(st: BuildStateV, root_len: int) -> bool {
    &&& st.stack.len() >= 1
    &&& forall|j: int| 0 <= j < st.stack.len() ==> #[trigger] st.stack[j].path.len() >= root_len
}

/// The module tree builder, one line at a time.
///
/// Lines are classified in a fixed order: inside a block documentation
/// comment everything up to its closing line is dropped; an external module
/// declaration resolves and builds the child recursively; an inline module
/// opening pushes a frame; a closing `}` whose leading whitespace matches the
/// expected width for the innermost inline frame pops it, and any other
/// closing line falls through as content; everything else first settles a
/// pending test marker (it was not followed by a module, so it becomes
/// content), then either records a new test marker, enters a comment block,
/// drops a documentation or blank line, or lands as transformed content.  At
/// the end of input exactly the root frame may remain open.
pub open spec fn build_lines(
    ctx: BuildCtx,
    lines: Seq<Seq<char>>,
    i: int,
    st: BuildStateV,
    root_len: int,
) -> Result<ModuleV, BundlerErrorV>
    decreases ctx.bound + 1 - root_len, lines.len() - i,
    when 0 <= i <= lines.len() && st_wf(st, root_len) && ctx_wf(ctx) && 0 <= root_len <= ctx.bound
        + 1
    via build_lines_decreases
{
    if i == lines.len() {
        if st.stack.len() == 1 {
            Ok(st.stack[0])
        } else {
            Err(BundlerErrorV::UnterminatedModule { mod_path: st.stack.last().path })
        }
    } else {
        let line = lines[i];
        if st.in_doc {
            build_lines(
                ctx,
                lines,
                i + 1,
                BuildStateV { in_doc: !is_block_comment_end(line), ..st },
                root_len,
            )
        } else {
            match module_decl_name(line) {
                Some(name) => {
                    let child_path = st.stack.last().path + seq!['/'] + name;
                    if !ctx.contents.dom().contains(child_path) {
                        Err(BundlerErrorV::ModuleFileNotFound { mod_path: child_path })
                    } else {
                        match build_lines(
                            ctx,
                            ctx.contents[child_path],
                            0,
                            init_state(child_path),
                            child_path.len() as int,
                        ) {
                            Err(e) => Err(e),
                            Ok(m) => build_lines(
                                ctx,
                                lines,
                                i + 1,
                                BuildStateV {
                                    stack: set_top(
                                        st.stack,
                                        push_span_m(
                                            st.stack.last(),
                                            SpanV::Module(
                                                ModuleV {
                                                    is_test: st.pending is Unresolved,
                                                    ..m
                                                },
                                            ),
                                        ),
                                    ),
                                    pending: PendingV::Absent,
                                    in_doc: false,
                                },
                                root_len,
                            ),
                        }
                    }
                },
                None => match module_block_name(line) {
                    Some(name) => build_lines(
                        ctx,
                        lines,
                        i + 1,
                        BuildStateV {
                            stack: st.stack.push(
                                ModuleV {
                                    path: st.stack.last().path + seq!['/'] + name,
                                    spans: Seq::empty(),
                                    is_test: st.pending is Unresolved,
                                },
                            ),
                            pending: PendingV::Absent,
                            in_doc: false,
                        },
                        root_len,
                    ),
                    None => match block_end_spaces(line) {
                        Some(cnt) => {
                            if st.stack.len() >= 2 && cnt == (st.stack.len() - 2) * (
                            TAB_LENGTH as int) {
                                build_lines(
                                    ctx,
                                    lines,
                                    i + 1,
                                    BuildStateV {
                                        stack: set_top(
                                            st.stack.drop_last(),
                                            push_span_m(
                                                st.stack.drop_last().last(),
                                                SpanV::Module(st.stack.last()),
                                            ),
                                        ),
                                        ..st
                                    },
                                    root_len,
                                )
                            } else {
                                build_lines(
                                    ctx,
                                    lines,
                                    i + 1,
                                    BuildStateV {
                                        stack: set_top(
                                            st.stack,
                                            push_content_m(
                                                st.stack.last(),
                                                transformed(line, ctx, st.stack.len() as int),
                                            ),
                                        ),
                                        ..st
                                    },
                                    root_len,
                                )
                            }
                        },
                        None => {
                            let st1 = match st.pending {
                                PendingV::Unresolved(txt) => BuildStateV {
                                    stack: set_top(
                                        st.stack,
                                        push_content_m(
                                            st.stack.last(),
                                            transformed(txt, ctx, st.stack.len() as int),
                                        ),
                                    ),
                                    pending: PendingV::Confirmed,
                                    ..st
                                },
                                _ => st,
                            };
                            let st2 = if is_cfg_test(line) {
                                BuildStateV { pending: PendingV::Unresolved(line), ..st1 }
                            } else if is_block_doc_start(line) {
                                BuildStateV { in_doc: true, ..st1 }
                            } else if is_oneline_doc(line) || line.len() == 0 {
                                st1
                            } else {
                                BuildStateV {
                                    stack: set_top(
                                        st1.stack,
                                        push_content_m(
                                            st1.stack.last(),
                                            transformed(line, ctx, st1.stack.len() as int),
                                        ),
                                    ),
                                    ..st1
                                }
                            };
                            build_lines(ctx, lines, i + 1, st2, root_len)
                        },
                    },
                },
            }
        }
    }
}

#[via_fn]
proof fn build_lines_decreases(
    ctx: BuildCtx,
    lines: Seq<Seq<char>>,
    i: int,
    st: BuildStateV,
    root_len: int,
) {
    if 0 <= i < lines.len() && st_wf(st, root_len) && ctx_wf(ctx) && 0 <= root_len <= ctx.bound
        + 1 {
        assert(st.stack.last().path.len() >= root_len);
        lemma_step_states_wf_pub(st, root_len);
    }
}

/// Every state one step can move to from a well-formed state is well formed
/// again, for the same root length.
pub proof fn lemma_step_states_wf_pub(st: BuildStateV, root_len: int)
    requires
        st_wf(st, root_len),
    ensures
        forall|m: ModuleV, p: PendingV, d: bool|
            m.path.len() >= root_len ==> #[trigger] st_wf(
                BuildStateV { stack: set_top(st.stack, m), pending: p, in_doc: d },
                root_len,
            ),
        forall|m: ModuleV, p: PendingV, d: bool|
            m.path.len() >= root_len ==> #[trigger] st_wf(
                BuildStateV { stack: st.stack.push(m), pending: p, in_doc: d },
                root_len,
            ),
        st.stack.len() >= 2 ==> st_wf(
            BuildStateV {
                stack: set_top(
                    st.stack.drop_last(),
                    push_span_m(st.stack.drop_last().last(), SpanV::Module(st.stack.last())),
                ),
                pending: st.pending,
                in_doc: st.in_doc,
            },
            root_len,
        ),
        forall|p: PendingV, d: bool|
            #[trigger] st_wf(BuildStateV { stack: st.stack, pending: p, in_doc: d }, root_len),
{
    assert forall|m: ModuleV, p: PendingV, d: bool|
        m.path.len() >= root_len implies #[trigger] st_wf(
        BuildStateV { stack: set_top(st.stack, m), pending: p, in_doc: d },
        root_len,
    ) by {
        let s2 = set_top(st.stack, m);
        assert forall|j: int| 0 <= j < s2.len() implies #[trigger] s2[j].path.len()
            >= root_len by {
            if j < s2.len() - 1 {
                assert(s2[j] == st.stack[j]);
            } else {
                assert(s2[j] == m);
            }
        }
    }
    assert forall|m: ModuleV, p: PendingV, d: bool|
        m.path.len() >= root_len implies #[trigger] st_wf(
        BuildStateV { stack: st.stack.push(m), pending: p, in_doc: d },
        root_len,
    ) by {
        let s2 = st.stack.push(m);
        assert forall|j: int| 0 <= j < s2.len() implies #[trigger] s2[j].path.len()
            >= root_len by {
            if j < s2.len() - 1 {
                assert(s2[j] == st.stack[j]);
            } else {
                assert(s2[j] == m);
            }
        }
    }
    if st.stack.len() >= 2 {
        let rest = st.stack.drop_last();
        let m = push_span_m(rest.last(), SpanV::Module(st.stack.last()));
        assert(rest.last() == st.stack[st.stack.len() - 2]);
        assert(m.path.len() >= root_len);
        let s2 = set_top(rest, m);
        assert forall|j: int| 0 <= j < s2.len() implies #[trigger] s2[j].path.len()
            >= root_len by {
            if j < s2.len() - 1 {
                assert(s2[j] == rest[j]);
                assert(rest[j] == st.stack[j]);
            } else {
                assert(s2[j] == m);
            }
        }
    }
}

/// The whole bundle: the root module is resolved at `"."` and built; its
/// failure, or any failure below it, is the result.
pub open spec fn bundle_spec(
    contents: Map<Seq<char>, Seq<Seq<char>>>,
    bound: nat,
    crate_name: Seq<char>,
    deps: Seq<(String, String)>,
) -> Result<ModuleV, BundlerErrorV> {
    let root: Seq<char> = seq!['.'];
    if !contents.dom().contains(root) {
        Err(BundlerErrorV::ModuleFileNotFound { mod_path: root })
    } else {
        let ctx = BuildCtx { contents: contents, bound: bound, crate_name: crate_name, deps: deps };
        build_lines(ctx, contents[root], 0, init_state(root), 1)
    }
}

/// Bundles the crate rooted at the resolver's `"."` into a tree: every
/// reachable module inlined, documentation comments and blank lines dropped,
/// test-marked modules flagged, paths substituted, indentation normalized.
pub fn bundle_crate<R: Resolve>(crate_name: &str, resolver: R, config_toml: ConfigToml) -> (r:
    Result<Crate, BundlerError>)
    ensures
        ({
            let spec_r = bundle_spec(
                resolver.contents(),
                resolver.path_bound(),
                crate_name@,
                config_toml.deps@,
            );
            match r {
                Ok(c) => c@.name == crate_name@ && Ok::<ModuleV, BundlerErrorV>(c@.root) == spec_r,
                Err(e) => Err::<ModuleV, BundlerErrorV>(e@) == spec_r,
            }
        }),
{
    CrateBundler::new(crate_name, resolver, config_toml).bundle_crate()
}

struct CrateBundler<'a, R> {
    crate_name: &'a str,
    resolver: R,
    config_toml: ConfigToml,
}

impl<'a, R: Resolve> CrateBundler<'a, R> {
    /// The surroundings this bundler builds in.
    spec fn ctx(&self) -> BuildCtx {
        BuildCtx {
            contents: self.resolver.contents(),
            bound: self.resolver.path_bound(),
            crate_name: self.crate_name@,
            deps: self.config_toml.deps@,
        }
    }

    fn new(crate_name: &'a str, resolver: R, config_toml: ConfigToml) -> (r: Self)
        ensures
            r.crate_name == crate_name,
            r.resolver == resolver,
            r.config_toml == config_toml,
    {
        Self { crate_name, resolver, config_toml }
    }

    fn bundle_crate(&self) -> (r: Result<Crate, BundlerError>)
        ensures
            ({
                let spec_r = bundle_spec(
                    self.resolver.contents(),
                    self.resolver.path_bound(),
                    self.crate_name@,
                    self.config_toml.deps@,
                );
                match r {
                    Ok(c) => c@.name == self.crate_name@ && Ok::<ModuleV, BundlerErrorV>(c@.root)
                        == spec_r,
                    Err(e) => Err::<ModuleV, BundlerErrorV>(e@) == spec_r,
                }
            }),
    {
        let root = root_path_string();
        proof {
            self.resolver.lemma_paths_bounded();
        }
        match self.resolver.resolve(root.as_str()) {
            Err(e) => Err(e),
            Ok(lines) => {
                match self.bundle_module(lines, root) {
                    Err(e) => Err(e),
                    Ok(m) => Ok(Crate { name: str_to_string(self.crate_name), root: m }),
                }
            },
        }
    }

    /// One content line, substituted and with the indentation of `stack_len - 1`
    /// enclosing frames removed.
    fn transform_line(&self, l: &str, stack_len: usize) -> (r: String)
        requires
            stack_len >= 1,
        ensures
            r@ == transformed(l@, self.ctx(), stack_len as int),
    {
        let s = substitute_path(l, self.crate_name, &self.config_toml);
        remove_indentation(s.as_str(), stack_len - 1)
    }

    /// Runs the per-line state machine over `lines`, the source of the module
    /// at `path`, resolving and building external child modules recursively.
    fn bundle_module(&self, lines: Vec<String>, path: String) -> (r: Result<Module, BundlerError>)
        requires
            path@.len() <= self.resolver.path_bound() + 1,
        ensures
            ({
                let spec_r = build_lines(
                    self.ctx(),
                    strs_view(lines@),
                    0,
                    init_state(path@),
                    path@.len() as int,
                );
                match r {
                    Ok(m) => Ok::<ModuleV, BundlerErrorV>(m@) == spec_r,
                    Err(e) => Err::<ModuleV, BundlerErrorV>(e@) == spec_r,
                }
            }),
        decreases self.resolver.path_bound() + 1 - path@.len(),
    {
        let ghost ctx = self.ctx();
        let ghost all = strs_view(lines@);
        let ghost path0 = path@;
        let ghost root_len = path@.len() as int;
        proof {
            self.resolver.lemma_paths_bounded();
        }
        let mut stack: Vec<Module> = Vec::new();
        stack.push(Module::new(path));
        let mut pending: PendingAttr = PendingAttr::Absent;
        let mut in_doc: bool = false;
        let mut i: usize = 0;
        proof {
            assert(frames_view(stack@) =~= init_state(path0).stack);
            assert(cur_state(stack@, pending, in_doc) =~~= init_state(path0));
        }
        while i < lines.len()
            invariant
                0 <= i <= lines@.len(),
                stack@.len() >= 1,
                ctx == self.ctx(),
                ctx_wf(ctx),
                all == strs_view(lines@),
                path0 == path@,
                root_len == path0.len() as int,
                0 <= root_len <= ctx.bound + 1,
                self.resolver.path_bound() + 1 - path@.len() == ctx.bound + 1 - root_len,
                st_wf(cur_state(stack@, pending, in_doc), root_len),
                build_lines(ctx, all, 0, init_state(path0), root_len) == build_lines(
                    ctx,
                    all,
                    i as int,
                    cur_state(stack@, pending, in_doc),
                    root_len,
                ),
            decreases lines@.len() - i,
        {
            let ghost st = cur_state(stack@, pending, in_doc);
            let ghost line_v = all[i as int];
            proof {
                assert(line_v == lines@[i as int]@);
                lemma_step_states_wf_pub(st, root_len);
                assert(st.stack.last() == frames_view(stack@)[stack@.len() - 1]);
            }
            let line: &String = &lines[i];
            if in_doc {
                if parse_block_doc_comments_end(line.as_str()) {
                    in_doc = false;
                }
                proof {
                    assert(cur_state(stack@, pending, in_doc) =~~= (BuildStateV {
                        in_doc: !is_block_comment_end(line_v),
                        ..st
                    }));
                }
            } else if let Some(name) = parse_module_decl(line.as_str()) {
                let ghost name_v = name@;
                let ghost child_v = st.stack.last().path + seq!['/'] + name_v;
                let top_index = stack.len() - 1;
                let mut child_path = clone_string(&stack[top_index].path);
                append_str_slash(&mut child_path);
                append_string(&mut child_path, &name);
                proof {
                    assert(module_view(stack@[top_index as int]).path == stack@[top_index as int].path@);
                    assert(child_path@ == child_v);
                }
                let was_test = matches_unresolved(&pending);
                pending = PendingAttr::Absent;
                match self.resolver.resolve(child_path.as_str()) {
                    Err(e) => {
                        proof {
                            assert(build_lines(ctx, all, i as int, st, root_len) == Err::<
                                ModuleV,
                                BundlerErrorV,
                            >(e@));
                        }
                        return Err(e);
                    },
                    Ok(sub_lines) => {
                        proof {
                            assert(ctx.contents.dom().contains(child_v));
                            assert(child_v.len() <= ctx.bound);
                            assert(st.stack.last().path.len() >= root_len);
                            assert(child_v.len() >= root_len + 1);
                        }
                        match self.bundle_module(sub_lines, child_path) {
                            Err(e) => {
                                proof {
                                    assert(build_lines(ctx, all, i as int, st, root_len) == Err::<
                                        ModuleV,
                                        BundlerErrorV,
                                    >(e@));
                                }
                                return Err(e);
                            },
                            Ok(mut m) => {
                                let ghost m0 = m@;
                                m.is_test = was_test;
                                proof {
                                    assert(m@ =~~= (ModuleV {
                                        is_test: st.pending is Unresolved,
                                        ..m0
                                    }));
                                }
                                push_span_top(&mut stack, Span::Module(Box::new(m)));
                                proof {
                                    assert(cur_state(stack@, pending, in_doc) =~~= (BuildStateV {
                                        stack: set_top(
                                            st.stack,
                                            push_span_m(
                                                st.stack.last(),
                                                SpanV::Module(
                                                    ModuleV {
                                                        is_test: st.pending is Unresolved,
                                                        ..m0
                                                    },
                                                ),
                                            ),
                                        ),
                                        pending: PendingV::Absent,
                                        in_doc: false,
                                    }));
                                }
                            },
                        }
                    },
                }
            } else if let Some(name) = parse_module_block_begin(line.as_str()) {
                let ghost name_v = name@;
                let ghost child_v = st.stack.last().path + seq!['/'] + name_v;
                let top_index = stack.len() - 1;
                let mut child_path = clone_string(&stack[top_index].path);
                append_str_slash(&mut child_path);
                append_string(&mut child_path, &name);
                proof {
                    assert(child_path@ == child_v);
                }
                let mut frame = Module::new(child_path);
                frame.is_test = matches_unresolved(&pending);
                pending = PendingAttr::Absent;
                let ghost frame_v = frame@;
                stack.push(frame);
                proof {
                    assert(frames_view(stack@) =~= st.stack.push(frame_v));
                    assert(cur_state(stack@, pending, in_doc) =~~= (BuildStateV {
                        stack: st.stack.push(
                            ModuleV {
                                path: child_v,
                                spans: Seq::empty(),
                                is_test: st.pending is Unresolved,
                            },
                        ),
                        pending: PendingV::Absent,
                        in_doc: false,
                    }));
                }
            } else if let Some(cnt) = parse_block_end(line.as_str()) {
                let is_close = stack.len() >= 2 && (cnt as u128) == (stack.len() as u128 - 2) * (
                4 as u128);
                if is_close {
                    let closed = stack.pop().unwrap();
                    let ghost closed_v = closed@;
                    proof {
                        assert(closed_v == st.stack.last());
                        assert(frames_view(stack@) =~= st.stack.drop_last());
                    }
                    push_span_top(&mut stack, Span::Module(Box::new(closed)));
                    proof {
                        assert(cur_state(stack@, pending, in_doc) =~~= (BuildStateV {
                            stack: set_top(
                                st.stack.drop_last(),
                                push_span_m(
                                    st.stack.drop_last().last(),
                                    SpanV::Module(st.stack.last()),
                                ),
                            ),
                            ..st
                        }));
                    }
                } else {
                    let t = self.transform_line(line.as_str(), stack.len());
                    let ghost t_v = t@;
                    push_content_top(&mut stack, t);
                    proof {
                        assert(t_v == transformed(line_v, ctx, st.stack.len() as int));
                        assert(cur_state(stack@, pending, in_doc) =~~= (BuildStateV {
                            stack: set_top(
                                st.stack,
                                push_content_m(
                                    st.stack.last(),
                                    transformed(line_v, ctx, st.stack.len() as int),
                                ),
                            ),
                            ..st
                        }));
                    }
                }
            } else {
                pending = match pending {
                    PendingAttr::Unresolved(txt) => {
                        let t = self.transform_line(txt.as_str(), stack.len());
                        let ghost t_v = t@;
                        push_content_top(&mut stack, t);
                        PendingAttr::Confirmed
                    },
                    other => other,
                };
                let ghost st1 = cur_state(stack@, pending, in_doc);
                proof {
                    lemma_step_states_wf_pub(st, root_len);
                    assert(st1 =~~= (match st.pending {
                        PendingV::Unresolved(txt) => BuildStateV {
                            stack: set_top(
                                st.stack,
                                push_content_m(
                                    st.stack.last(),
                                    transformed(txt, ctx, st.stack.len() as int),
                                ),
                            ),
                            pending: PendingV::Confirmed,
                            ..st
                        },
                        _ => st,
                    }));
                    assert(st_wf(st1, root_len)) by {
                        lemma_step_states_wf_pub(st, root_len);
                    }
                    lemma_step_states_wf_pub(st1, root_len);
                    assert(st1.stack.len() == st.stack.len());
                }
                if parse_cfg_test(line.as_str()) {
                    pending = PendingAttr::Unresolved(clone_string(line));
                    proof {
                        assert(cur_state(stack@, pending, in_doc) =~~= (BuildStateV {
                            pending: PendingV::Unresolved(line_v),
                            ..st1
                        }));
                    }
                } else if parse_block_doc_comments_start(line.as_str()) {
                    in_doc = true;
                    proof {
                        assert(cur_state(stack@, pending, in_doc) =~~= (BuildStateV {
                            in_doc: true,
                            ..st1
                        }));
                    }
                } else if parse_oneline_doc_comments(line.as_str()) || str_is_empty(line.as_str()) {
                    proof {
                        assert(cur_state(stack@, pending, in_doc) =~~= st1);
                    }
                } else {
                    let t = self.transform_line(line.as_str(), stack.len());
                    let ghost t_v = t@;
                    push_content_top(&mut stack, t);
                    proof {
                        assert(t_v == transformed(line_v, ctx, st1.stack.len() as int));
                        assert(cur_state(stack@, pending, in_doc) =~~= (BuildStateV {
                            stack: set_top(
                                st1.stack,
                                push_content_m(
                                    st1.stack.last(),
                                    transformed(line_v, ctx, st1.stack.len() as int),
                                ),
                            ),
                            ..st1
                        }));
                    }
                }
            }
            i = i + 1;
            proof {
                assert(build_lines(ctx, all, i - 1 as int, st, root_len) == build_lines(
                    ctx,
                    all,
                    i as int,
                    cur_state(stack@, pending, in_doc),
                    root_len,
                ));
            }
        }
        let ghost st_end = cur_state(stack@, pending, in_doc);
        let top = stack.pop().unwrap();
        if stack.len() == 0 {
            proof {
                assert(st_end.stack.len() == 1);
                assert(st_end.stack[0] == top@);
            }
            Ok(top)
        } else {
            proof {
                assert(st_end.stack.len() != 1);
                assert(st_end.stack.last() == top@);
            }
            Err(BundlerError::UnterminatedModule { mod_path: top.path })
        }
    }
}

/// The path of the crate root module.
fn root_path_string() -> (r: String)
    ensures
        r@ == seq!['.'],
{
    proof {
        reveal_strlit(".");
    }
    let r = str_to_string(".");
    proof {
        assert(r@ =~= seq!['.']);
    }
    r
}

/// The views of a sequence of modules, index by index.
pub open spec fn frames_view(v: Seq<Module>) -> Seq<ModuleV> {
    Seq::new(v.len(), |i: int| module_view(v[i]))
}

/// The builder's ghost state, from its executable pieces.
spec fn cur_state(stack: Seq<Module>, p: PendingAttr, d: bool) -> BuildStateV {
    BuildStateV { stack: frames_view(stack), pending: p@, in_doc: d }
}

fn clone_string(s: &String) -> (r: String)
    ensures
        r@ == s@,
{
    s.clone()
}

/// Appends one `/` separator.
fn append_str_slash(s: &mut String)
    ensures
        final(s)@ == old(s)@ + seq!['/'],
{
    proof {
        reveal_strlit("/");
        assert("/"@ =~= seq!['/']);
    }
    s.append("/");
}

fn append_string(s: &mut String, t: &String)
    ensures
        final(s)@ == old(s)@ + t@,
{
    s.append(t.as_str());
}

fn str_is_empty(s: &str) -> (r: bool)
    ensures
        r == (s@.len() == 0),
{
    s.is_empty()
}

fn matches_unresolved(p: &PendingAttr) -> (r: bool)
    ensures
        r == (p@ is Unresolved),
{
    matches!(p, PendingAttr::Unresolved(_))
}

/// Appends a span to the innermost frame.
fn push_span_top(stack: &mut Vec<Module>, sp: Span)
    requires
        old(stack)@.len() >= 1,
    ensures
        frames_view(final(stack)@) == set_top(
            frames_view(old(stack)@),
            push_span_m(frames_view(old(stack)@).last(), sp@),
        ),
{
    let mut top = stack.pop().unwrap();
    let ghost top0 = top;
    top.spans.push(sp);
    proof {
        crate::types::lemma_spans_view_push(top0.spans@, sp);
    }
    stack.push(top);
    proof {
        assert(frames_view(stack@) =~= set_top(
            frames_view(old(stack)@),
            push_span_m(frames_view(old(stack)@).last(), sp@),
        ));
    }
}

/// Appends a content line to the innermost frame.
fn push_content_top(stack: &mut Vec<Module>, l: String)
    requires
        old(stack)@.len() >= 1,
    ensures
        frames_view(final(stack)@) == set_top(
            frames_view(old(stack)@),
            push_content_m(frames_view(old(stack)@).last(), l@),
        ),
{
    let mut top = stack.pop().unwrap();
    let ghost top0 = top;
    let ghost lv = l@;
    proof {
        crate::types::lemma_spans_view_index(top0.spans@);
    }
    let tail_is_lines = top.spans.len() > 0 && matches!(top.spans[top.spans.len() - 1], Span::Lines(
        _,
    ));
    if tail_is_lines {
        let last_span = top.spans.pop().unwrap();
        match last_span {
            Span::Lines(mut ls) => {
                let ghost ls0 = ls@;
                ls.push(l);
                proof {
                    crate::text::lemma_strs_view_push(ls0, l);
                }
                let ghost spans_mid = top.spans@;
                top.spans.push(Span::Lines(ls));
                proof {
                    crate::types::lemma_spans_view_push(spans_mid, Span::Lines(ls));
                    assert(spans_mid =~= top0.spans@.drop_last());
                    crate::types::lemma_spans_view_index(top0.spans@.drop_last());
                    assert(crate::types::spans_view(top.spans@) =~= push_content_m(
                        module_view(top0),
                        lv,
                    ).spans);
                }
            },
            _ => {
                proof {
                    assert(false);
                }
            },
        }
    } else {
        let mut v: Vec<String> = Vec::new();
        v.push(l);
        proof {
            assert(crate::text::strs_view(v@) =~= seq![lv]);
        }
        let ghost spans_mid = top.spans@;
        top.spans.push(Span::Lines(v));
        proof {
            crate::types::lemma_spans_view_push(spans_mid, Span::Lines(v));
            assert(crate::types::spans_view(top.spans@) =~= push_content_m(
                module_view(top0),
                lv,
            ).spans);
        }
    }
    proof {
        assert(module_view(top) =~~= push_content_m(module_view(top0), lv));
    }
    stack.push(top);
    proof {
        assert(frames_view(stack@) =~= set_top(
            frames_view(old(stack)@),
            push_content_m(frames_view(old(stack)@).last(), lv),
        ));
    }
}

} // verus!
