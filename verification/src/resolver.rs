use vstd::prelude::*;

use crate::error::{BundlerError, BundlerErrorV};
use crate::text::{lines_of, read_lines, str_eq, strs_view};

verus! {

/// The resolution capability: maps a module path to the lines of its source.
///
/// `contents()` is the mathematical model: the paths that resolve, each with
/// the lines it yields.  `path_bound()` bounds the length of every resolvable
/// path, which bounds the depth of module recursion; `lemma_paths_bounded`
/// obliges every implementation to prove the bound.
pub trait Resolve: Sized {
    /// The paths this resolver can serve, each mapped to its lines.
    spec fn contents(&self) -> Map<Seq<char>, Seq<Seq<char>>>;

    /// An upper bound on the length of every resolvable path.
    spec fn path_bound(&self) -> nat;

    proof fn lemma_paths_bounded(&self)
        ensures
            forall|p: Seq<char>|
                self.contents().dom().contains(p) ==> p.len() <= self.path_bound(),
    ;

    /// Yields the lines of the module at `mod_path`, or the
    /// module-not-found failure carrying that path.
    fn resolve(&self, mod_path: &str) -> (r: Result<Vec<String>, BundlerError>)
        ensures
            match r {
                Ok(lines) => self.contents().dom().contains(mod_path@) && strs_view(lines@)
                    == self.contents()[mod_path@],
                Err(e) => !self.contents().dom().contains(mod_path@) && e@
                    == (BundlerErrorV::ModuleFileNotFound { mod_path: mod_path@ }),
            },
    ;
}

/// A resolver over a fixed table of sources: each entry pairs a module path
/// with the full text of that module, and resolution returns the text's
/// lines.  The first entry with a matching path wins.
pub struct ManualResolver {
    pub entries: Vec<(String, String)>,
}

/// The map that a table of (path, text) entries denotes: each path maps to
/// the lines of its text, earlier entries shadowing later ones.
pub open spec fn entries_map(es: Seq<(String, String)>) -> Map<Seq<char>, Seq<Seq<char>>>
    decreases es.len(),
{
    if es.len() == 0 {
        Map::empty()
    } else {
        entries_map(es.drop_first()).insert(es[0].0@, lines_of(es[0].1@))
    }
}

/// The longest path among the entries.
pub open spec fn entries_bound(es: Seq<(String, String)>) -> nat
    decreases es.len(),
{
    if es.len() == 0 {
        0
    } else if es[0].0@.len() >= entries_bound(es.drop_first()) {
        es[0].0@.len()
    } else {
        entries_bound(es.drop_first())
    }
}

proof fn lemma_entries_bound(es: Seq<(String, String)>)
    ensures
        forall|p: Seq<char>|
            entries_map(es).dom().contains(p) ==> p.len() <= entries_bound(es),
    decreases es.len(),
{
    if es.len() > 0 {
        lemma_entries_bound(es.drop_first());
        assert forall|p: Seq<char>|
            entries_map(es).dom().contains(p) implies p.len() <= entries_bound(es) by {
            if p != es[0].0@ {
                assert(entries_map(es.drop_first()).dom().contains(p));
            }
        }
    }
}

/// A first match at index `j` settles the lookup.
proof fn lemma_entries_map_found(es: Seq<(String, String)>, p: Seq<char>, j: int)
    requires
        0 <= j < es.len(),
        es[j].0@ == p,
        forall|i: int| 0 <= i < j ==> es[i].0@ != p,
    ensures
        entries_map(es).dom().contains(p),
        entries_map(es)[p] == lines_of(es[j].1@),
    decreases es.len(),
{
    if j > 0 {
        lemma_entries_map_found(es.drop_first(), p, j - 1);
    }
}

/// No match anywhere means the path is not in the map.
proof fn lemma_entries_map_missing(es: Seq<(String, String)>, p: Seq<char>)
    requires
        forall|i: int| 0 <= i < es.len() ==> es[i].0@ != p,
    ensures
        !entries_map(es).dom().contains(p),
    decreases es.len(),
{
    if es.len() > 0 {
        lemma_entries_map_missing(es.drop_first(), p);
    }
}

impl Resolve for ManualResolver {
    open spec fn contents(&self) -> Map<Seq<char>, Seq<Seq<char>>> {
        entries_map(self.entries@)
    }

    open spec fn path_bound(&self) -> nat {
        entries_bound(self.entries@)
    }

    proof fn lemma_paths_bounded(&self) {
        lemma_entries_bound(self.entries@);
    }

    fn resolve(&self, mod_path: &str) -> (r: Result<Vec<String>, BundlerError>) {
        let ghost target = mod_path@;
        let mut k: usize = 0;
        while k < self.entries.len()
            invariant
                0 <= k <= self.entries@.len(),
                target == mod_path@,
                forall|i: int| 0 <= i < k ==> self.entries@[i].0@ != target,
            decreases self.entries@.len() - k,
        {
            let entry = &self.entries[k];
            if str_eq(entry.0.as_str(), mod_path) {
                let lines = read_lines(entry.1.as_str());
                proof {
                    lemma_entries_map_found(self.entries@, target, k as int);
                }
                return Ok(lines);
            }
            k = k + 1;
        }
        proof {
            lemma_entries_map_missing(self.entries@, target);
        }
        Err(
            BundlerError::ModuleFileNotFound {
                mod_path: crate::text::str_to_string(mod_path),
            },
        )
    }
}

impl ManualResolver {
    /// A resolver over the given (path, text) table.
    pub fn new(entries: Vec<(String, String)>) -> (r: ManualResolver)
        ensures
            r.entries == entries,
    {
        ManualResolver { entries }
    }
}

} // verus!
