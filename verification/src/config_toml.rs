use vstd::prelude::*;

use crate::error::{BundlerError, BundlerErrorV};
use crate::text::{str_eq, str_to_string, strs_view};

verus! {

// ---------------------------------------------------------------------------
// The library's model of a parsed TOML document.
// ---------------------------------------------------------------------------

/// What the bundler reads out of a TOML document: strings, arrays and
/// tables; every other kind of value is opaque.
#[derive(Debug, PartialEq)]
pub enum TomlValue {
    Str(String),
    Arr(Vec<TomlValue>),
    Table(Vec<(String, TomlValue)>),
    Other,
}

/// Mathematical model of a `TomlValue`.
#[verifier::ext_equal]
pub ghost enum TomlV {
    Str(Seq<char>),
    Arr(Seq<TomlV>),
    Table(Seq<(Seq<char>, TomlV)>),
    Other,
}

pub open spec fn value_view(v: TomlValue) -> TomlV
    decreases v,
{
    match v {
        TomlValue::Str(s) => TomlV::Str(s@),
        TomlValue::Arr(a) => TomlV::Arr(arr_view(a@)),
        TomlValue::Table(t) => TomlV::Table(entries_view(t@)),
        TomlValue::Other => TomlV::Other,
    }
}

pub open spec fn arr_view(a: Seq<TomlValue>) -> Seq<TomlV>
    decreases a,
{
    if a.len() == 0 {
        Seq::empty()
    } else {
        seq![value_view(a[0])] + arr_view(a.drop_first())
    }
}

pub open spec fn entries_view(es: Seq<(String, TomlValue)>) -> Seq<(Seq<char>, TomlV)>
    decreases es,
{
    if es.len() == 0 {
        Seq::empty()
    } else {
        seq![(es[0].0@, value_view(es[0].1))] + entries_view(es.drop_first())
    }
}

impl View for TomlValue {
    type V = TomlV;

    open spec fn view(&self) -> TomlV {
        value_view(*self)
    }
}

pub proof fn lemma_entries_view_index(es: Seq<(String, TomlValue)>)
    ensures
        entries_view(es).len() == es.len(),
        forall|i: int|
            0 <= i < es.len() ==> entries_view(es)[i] == (es[i].0@, value_view(es[i].1)),
    decreases es,
{
    if es.len() > 0 {
        lemma_entries_view_index(es.drop_first());
    }
}

pub proof fn lemma_arr_view_index(a: Seq<TomlValue>)
    ensures
        arr_view(a).len() == a.len(),
        forall|i: int| 0 <= i < a.len() ==> arr_view(a)[i] == value_view(a[i]),
    decreases a,
{
    if a.len() > 0 {
        lemma_arr_view_index(a.drop_first());
    }
}

// ---------------------------------------------------------------------------
// The trusted boundary to the `toml` crate.
// ---------------------------------------------------------------------------

#[verifier::external_type_specification]
#[verifier::external_body]
pub struct ExTomlValue(toml::Value);

/// What `toml::from_str::<toml::Value>` yields for a document, read into the
/// library's model; parse failure is `None`.  The result is a function of
/// the text alone.
pub uninterp spec fn toml_doc(text: Seq<char>) -> Option<TomlV>;

/// Relies on `toml::Value`: reads a parsed value into the library's model,
/// one arm per variant, strings, arrays and tables kept, every other
/// variant opaque.
#[verifier::external_body]
fn to_model(v: toml::Value) -> TomlValue {
    match v {
        toml::Value::String(s) => TomlValue::Str(s),
        toml::Value::Array(a) => TomlValue::Arr(a.into_iter().map(to_model).collect()),
        toml::Value::Table(t) => TomlValue::Table(
            t.into_iter().map(|(k, x)| (k, to_model(x))).collect(),
        ),
        _ => TomlValue::Other,
    }
}

/// Relies on `toml::from_str::<toml::Value>`: parses a TOML document; the
/// parse, and so the model read from it, depends on the text alone.
#[verifier::external_body]
pub(crate) fn parse_toml(text: &str) -> (r: Option<TomlValue>)
    ensures
        match r {
            Some(v) => toml_doc(text@) == Some(v@),
            None => toml_doc(text@) is None,
        },
{
    match toml::from_str::<toml::Value>(text) {
        Ok(v) => Some(to_model(v)),
        Err(_) => None,
    }
}

// ---------------------------------------------------------------------------
// Table lookup over the model.
// ---------------------------------------------------------------------------

/// The value under `key`, the first entry with that key deciding.
pub open spec fn tbl_get(es: Seq<(Seq<char>, TomlV)>, key: Seq<char>) -> Option<TomlV>
    decreases es.len(),
{
    if es.len() == 0 {
        None
    } else if es[0].0 == key {
        Some(es[0].1)
    } else {
        tbl_get(es.drop_first(), key)
    }
}

proof fn lemma_tbl_get_found(es: Seq<(Seq<char>, TomlV)>, key: Seq<char>, j: int)
    requires
        0 <= j < es.len(),
        es[j].0 == key,
        forall|i: int| 0 <= i < j ==> es[i].0 != key,
    ensures
        tbl_get(es, key) == Some(es[j].1),
    decreases es.len(),
{
    if j > 0 {
        lemma_tbl_get_found(es.drop_first(), key, j - 1);
    }
}

proof fn lemma_tbl_get_missing(es: Seq<(Seq<char>, TomlV)>, key: Seq<char>)
    requires
        forall|i: int| 0 <= i < es.len() ==> es[i].0 != key,
    ensures
        tbl_get(es, key) is None,
    decreases es.len(),
{
    if es.len() > 0 {
        lemma_tbl_get_missing(es.drop_first(), key);
    }
}

/// Finds `key` in a table, first entry with that key deciding.
pub(crate) fn table_get<'x>(es: &'x Vec<(String, TomlValue)>, key: &str) -> (r: Option<&'x TomlValue>)
    ensures
        match r {
            Some(v) => tbl_get(entries_view(es@), key@) == Some(value_view(*v)),
            None => tbl_get(entries_view(es@), key@) is None,
        },
{
    proof {
        lemma_entries_view_index(es@);
    }
    let mut k: usize = 0;
    while k < es.len()
        invariant
            0 <= k <= es@.len(),
            entries_view(es@).len() == es@.len(),
            forall|i: int|
                0 <= i < es@.len() ==> entries_view(es@)[i] == (es@[i].0@, value_view(es@[i].1)),
            forall|i: int| 0 <= i < k ==> es@[i].0@ != key@,
        decreases es@.len() - k,
    {
        let entry = &es[k];
        if str_eq(entry.0.as_str(), key) {
            proof {
                lemma_tbl_get_found(entries_view(es@), key@, k as int);
            }
            return Some(&entry.1);
        }
        k = k + 1;
    }
    proof {
        lemma_tbl_get_missing(entries_view(es@), key@);
    }
    None
}

// ---------------------------------------------------------------------------
// The dependency map.
// ---------------------------------------------------------------------------

/// The dependency map read from a crate's manifest: each path dependency's
/// name paired with its local path, in the order the parsed manifest lists
/// them.  Only entries that give a local `path` are retained; registry and
/// git dependencies are not bundled and so are excluded.
#[derive(Debug, PartialEq)]
pub struct ConfigToml {
    pub deps: Vec<(String, String)>,
}

/// The name/path pairs, as sequences of characters.
pub open spec fn pairs_view(deps: Seq<(String, String)>) -> Seq<(Seq<char>, Seq<char>)> {
    Seq::new(deps.len(), |i: int| (deps[i].0@, deps[i].1@))
}

/// Whether `name` is one of the dependency names.
pub open spec fn is_dep_name(deps: Seq<(String, String)>, name: Seq<char>) -> bool {
    exists|k: int| 0 <= k < deps.len() && deps[k].0@ == name
}

/// `acc` with the pair for `name` replaced in place, or appended when absent.
pub open spec fn upsert(
    acc: Seq<(Seq<char>, Seq<char>)>,
    name: Seq<char>,
    path: Seq<char>,
) -> Seq<(Seq<char>, Seq<char>)>
    decreases acc.len(),
{
    if acc.len() == 0 {
        seq![(name, path)]
    } else if acc[0].0 == name {
        seq![(name, path)] + acc.drop_first()
    } else {
        seq![acc[0]] + upsert(acc.drop_first(), name, path)
    }
}

/// What one `dependencies` entry contributes.
pub ghost enum DepEntry {
    Skip,
    Keep(Seq<char>, Seq<char>),
    Bad(Seq<char>),
}

/// Classifies one entry: a table with a string `path` is kept, a table with
/// a `path` of any other kind is the malformed-manifest failure, anything
/// else is skipped.
pub open spec fn classify_dep(name: Seq<char>, v: TomlV) -> DepEntry {
    match v {
        TomlV::Table(res) => match tbl_get(res, "path"@) {
            Some(TomlV::Str(p)) => DepEntry::Keep(name, p),
            Some(_) => DepEntry::Bad(name),
            None => DepEntry::Skip,
        },
        _ => DepEntry::Skip,
    }
}

/// Folds the `dependencies` table into the map, stopping at the first
/// malformed entry.
pub open spec fn deps_fold(
    des: Seq<(Seq<char>, TomlV)>,
    acc: Seq<(Seq<char>, Seq<char>)>,
) -> Result<Seq<(Seq<char>, Seq<char>)>, BundlerErrorV>
    decreases des.len(),
{
    if des.len() == 0 {
        Ok(acc)
    } else {
        match classify_dep(des[0].0, des[0].1) {
            DepEntry::Bad(name) => Err(BundlerErrorV::PathNotString { dependency: name }),
            DepEntry::Skip => deps_fold(des.drop_first(), acc),
            DepEntry::Keep(name, path) => deps_fold(des.drop_first(), upsert(acc, name, path)),
        }
    }
}

/// The dependency map a parsed manifest denotes, or the failure it raises.
pub open spec fn config_of_doc(doc: TomlV) -> Result<
    Seq<(Seq<char>, Seq<char>)>,
    BundlerErrorV,
> {
    match doc {
        TomlV::Table(es) => match tbl_get(es, "dependencies"@) {
            None => Ok(Seq::empty()),
            Some(TomlV::Table(des)) => deps_fold(des, Seq::empty()),
            Some(_) => Err(BundlerErrorV::DependenciesNotTable),
        },
        _ => Err(BundlerErrorV::TomlNotTable),
    }
}

/// The dependency map of a manifest text: a parse failure, or the map the
/// parsed document denotes.
pub open spec fn config_spec(text: Seq<char>) -> Result<
    Seq<(Seq<char>, Seq<char>)>,
    BundlerErrorV,
> {
    match toml_doc(text) {
        None => Err(BundlerErrorV::CargoTomlParseError),
        Some(doc) => config_of_doc(doc),
    }
}

proof fn lemma_upsert_found(acc: Seq<(Seq<char>, Seq<char>)>, name: Seq<char>, path: Seq<char>, j: int)
    requires
        0 <= j < acc.len(),
        acc[j].0 == name,
        forall|i: int| 0 <= i < j ==> acc[i].0 != name,
    ensures
        upsert(acc, name, path) =~= acc.update(j, (name, path)),
    decreases acc.len(),
{
    if j > 0 {
        lemma_upsert_found(acc.drop_first(), name, path, j - 1);
        assert(acc.update(j, (name, path)).drop_first() =~= acc.drop_first().update(
            j - 1,
            (name, path),
        ));
    }
}

proof fn lemma_upsert_missing(acc: Seq<(Seq<char>, Seq<char>)>, name: Seq<char>, path: Seq<char>)
    requires
        forall|i: int| 0 <= i < acc.len() ==> acc[i].0 != name,
    ensures
        upsert(acc, name, path) =~= acc.push((name, path)),
    decreases acc.len(),
{
    if acc.len() > 0 {
        lemma_upsert_missing(acc.drop_first(), name, path);
        assert(acc.push((name, path)).drop_first() =~= acc.drop_first().push((name, path)));
    }
}

/// Replaces the pair for `name`, or appends it.
fn upsert_exec(acc: &mut Vec<(String, String)>, name: String, path: String)
    ensures
        pairs_view(final(acc)@) == upsert(pairs_view(old(acc)@), name@, path@),
{
    let ghost before = pairs_view(acc@);
    let mut k: usize = 0;
    while k < acc.len()
        invariant
            0 <= k <= acc@.len(),
            before == pairs_view(acc@),
            before == pairs_view(old(acc)@),
            forall|i: int| 0 <= i < k ==> acc@[i].0@ != name@,
        decreases acc@.len() - k,
    {
        let hit = str_eq(acc[k].0.as_str(), name.as_str());
        if hit {
            proof {
                assert(before[k as int].0 == name@);
                assert(forall|i: int| 0 <= i < k ==> #[trigger] before[i].0 != name@);
                lemma_upsert_found(before, name@, path@, k as int);
            }
            let ghost nv = name@;
            let ghost pv = path@;
            acc.set(k, (name, path));
            proof {
                assert(pairs_view(acc@) =~= before.update(k as int, (nv, pv)));
            }
            return;
        }
        k = k + 1;
    }
    proof {
        assert(forall|i: int| 0 <= i < before.len() ==> #[trigger] before[i].0 != name@);
        lemma_upsert_missing(before, name@, path@);
    }
    let ghost nv = name@;
    let ghost pv = path@;
    acc.push((name, path));
    proof {
        assert(pairs_view(acc@) =~= before.push((nv, pv)));
    }
}

impl ConfigToml {
    /// Reads the dependency map out of a manifest text: for each entry of the
    /// `dependencies` table that is itself a table with a string `path`, the
    /// dependency's name mapped to that path.  A text that is not well-formed
    /// TOML, a document or `dependencies` value that is not a table, and a
    /// `path` value that is not a string are each the matching failure.
    pub fn new(file_content: &str) -> (r: Result<ConfigToml, BundlerError>)
        ensures
            match r {
                Ok(c) => config_spec(file_content@) == Ok::<_, BundlerErrorV>(pairs_view(c.deps@)),
                Err(e) => config_spec(file_content@) == Err::<Seq<(Seq<char>, Seq<char>)>, _>(e@),
            },
    {
        proof {
            reveal_strlit("dependencies");
            reveal_strlit("path");
        }
        match parse_toml(file_content) {
            None => Err(BundlerError::CargoTomlParseError),
            Some(doc) => match doc {
                TomlValue::Table(es) => {
                    match table_get(&es, "dependencies") {
                        None => {
                            let c = ConfigToml { deps: Vec::new() };
                            proof {
                                assert(pairs_view(c.deps@) =~= Seq::<(Seq<char>, Seq<char>)>::empty());
                            }
                            Ok(c)
                        },
                        Some(deps_val) => match deps_val {
                            TomlValue::Table(des) => {
                                let ghost des_v = entries_view(des@);
                                proof {
                                    lemma_entries_view_index(des@);
                                }
                                let mut acc: Vec<(String, String)> = Vec::new();
                                let mut i: usize = 0;
                                proof {
                                    assert(des_v.skip(0) =~= des_v);
                                    assert(pairs_view(acc@) =~= Seq::<(Seq<char>, Seq<char>)>::empty());
                                }
                                while i < des.len()
                                    invariant
                                        0 <= i <= des@.len(),
                                        des_v == entries_view(des@),
                                        des_v.len() == des@.len(),
                                        forall|j: int|
                                            0 <= j < des@.len() ==> des_v[j] == (
                                            des@[j].0@,
                                            value_view(des@[j].1),
                                            ),
                                        config_spec(file_content@) == deps_fold(
                                            des_v.skip(i as int),
                                            pairs_view(acc@),
                                        ),
                                    decreases des@.len() - i,
                                {
                                    proof {
                                        reveal_strlit("path");
                                        assert(des_v.skip(i as int)[0] == des_v[i as int]);
                                        assert(des_v.skip(i as int).drop_first() =~= des_v.skip(
                                            i as int + 1,
                                        ));
                                    }
                                    let entry = &des[i];
                                    match &entry.1 {
                                        TomlValue::Table(res) => {
                                            match table_get(res, "path") {
                                                Some(TomlValue::Str(p)) => {
                                                    let name = str_to_string(entry.0.as_str());
                                                    let path = str_to_string(p.as_str());
                                                    upsert_exec(&mut acc, name, path);
                                                },
                                                Some(TomlValue::Arr(_)) | Some(TomlValue::Table(_))
                                                    | Some(TomlValue::Other) => {
                                                    let e = BundlerError::PathNotString {
                                                        dependency: str_to_string(entry.0.as_str()),
                                                    };
                                                    proof {
                                                        assert(deps_fold(
                                                            des_v.skip(i as int),
                                                            pairs_view(acc@),
                                                        ) == Err::<Seq<(Seq<char>, Seq<char>)>, _>(
                                                            e@,
                                                        ));
                                                    }
                                                    return Err(e);
                                                },
                                                None => {},
                                            }
                                        },
                                        TomlValue::Str(_) => {},
                                        TomlValue::Arr(_) => {},
                                        TomlValue::Other => {},
                                    }
                                    i = i + 1;
                                }
                                proof {
                                    assert(des_v.skip(i as int) =~= Seq::<
                                        (Seq<char>, TomlV),
                                    >::empty());
                                    assert(deps_fold(des_v.skip(i as int), pairs_view(acc@))
                                        == Ok::<_, BundlerErrorV>(pairs_view(acc@)));
                                }
                                Ok(ConfigToml { deps: acc })
                            },
                            TomlValue::Str(_) | TomlValue::Arr(_) | TomlValue::Other => Err(
                                BundlerError::DependenciesNotTable,
                            ),
                        },
                    }
                },
                TomlValue::Str(_) | TomlValue::Arr(_) | TomlValue::Other => Err(
                    BundlerError::TomlNotTable,
                ),
            },
        }
    }

    /// Whether `name` names a known path dependency.
    pub fn knows_dep(&self, name: &[char]) -> (r: bool)
        ensures
            r == is_dep_name(self.deps@, name@),
    {
        let mut k: usize = 0;
        while k < self.deps.len()
            invariant
                0 <= k <= self.deps@.len(),
                forall|j: int| 0 <= j < k ==> self.deps@[j].0@ != name@,
            decreases self.deps@.len() - k,
        {
            let hit = crate::text::str_eq_chars(self.deps[k].0.as_str(), name);
            if hit {
                return true;
            }
            k = k + 1;
        }
        false
    }
}

} // verus!
