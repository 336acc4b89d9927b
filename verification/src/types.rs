use vstd::prelude::*;

verus! {

/// One node of the merged module tree.
///
/// `path` is the module's position in the original hierarchy, written as a
/// `/`-separated string starting at `"."` (the crate root); it serves both as
/// the key under which the module's source was resolved and as the emitted
/// name (its last segment).  `spans` records, in source order, the
/// interleaving of plain content and nested modules.  `is_test` is true when
/// the module was annotated as test-only by its parent context.
#[derive(Debug, PartialEq)]
pub struct Module {
    pub path: String,
    pub spans: Vec<Span>,
    pub is_test: bool,
}

/// A maximal run of content lines, or one owned child module.
#[derive(Debug, PartialEq)]
pub enum Span {
    Lines(Vec<String>),
    Module(Box<Module>),
}

/// The root container: a crate name together with the root module.
#[derive(Debug, PartialEq)]
pub struct Crate {
    pub name: String,
    pub root: Module,
}

/// Mathematical model of a `Module`.
#[verifier::ext_equal]
pub ghost struct ModuleV {
    pub path: Seq<char>,
    pub spans: Seq<SpanV>,
    pub is_test: bool,
}

/// Mathematical model of a `Span`.
#[verifier::ext_equal]
pub ghost enum SpanV {
    Lines(Seq<Seq<char>>),
    Module(ModuleV),
}

/// Mathematical model of a `Crate`.
#[verifier::ext_equal]
pub ghost struct CrateV {
    pub name: Seq<char>,
    pub root: ModuleV,
}

pub open spec fn module_view(m: Module) -> ModuleV
    decreases m,
{
    ModuleV { path: m.path@, spans: spans_view(m.spans@), is_test: m.is_test }
}

pub open spec fn spans_view(ss: Seq<Span>) -> Seq<SpanV>
    decreases ss,
{
    if ss.len() == 0 {
        Seq::empty()
    } else {
        seq![span_view(ss[0])] + spans_view(ss.drop_first())
    }
}

pub open spec fn span_view(s: Span) -> SpanV
    decreases s,
{
    match s {
        Span::Lines(ls) => SpanV::Lines(crate::text::strs_view(ls@)),
        Span::Module(m) => SpanV::Module(module_view(*m)),
    }
}

impl View for Module {
    type V = ModuleV;

    open spec fn view(&self) -> ModuleV {
        module_view(*self)
    }
}

impl View for Span {
    type V = SpanV;

    open spec fn view(&self) -> SpanV {
        span_view(*self)
    }
}

impl View for Crate {
    type V = CrateV;

    open spec fn view(&self) -> CrateV {
        CrateV { name: self.name@, root: self.root@ }
    }
}

/// The view of a span sequence is the sequence of span views, index by index.
pub proof fn lemma_spans_view_index(ss: Seq<Span>)
    ensures
        spans_view(ss).len() == ss.len(),
        forall|i: int| 0 <= i < ss.len() ==> spans_view(ss)[i] == span_view(ss[i]),
    decreases ss,
{
    if ss.len() > 0 {
        lemma_spans_view_index(ss.drop_first());
    }
}

/// Appending a span extends the view by the span's view.
pub proof fn lemma_spans_view_push(ss: Seq<Span>, s: Span)
    ensures
        spans_view(ss.push(s)) == spans_view(ss).push(span_view(s)),
{
    lemma_spans_view_index(ss.push(s));
    lemma_spans_view_index(ss);
    assert(ss.push(s)[ss.len() as int] == s);
    assert(spans_view(ss.push(s)) =~= spans_view(ss).push(span_view(s)));
}

impl Module {
    /// A fresh module at `path`, with no spans and the test flag clear.
    pub fn new(path: String) -> (r: Module)
        ensures
            r@ == (ModuleV { path: path@, spans: Seq::<SpanV>::empty(), is_test: false }),
    {
        let m = Module { path, spans: Vec::new(), is_test: false };
        proof {
            assert(m.spans@ =~= Seq::<Span>::empty());
        }
        m
    }
}

} // verus!
