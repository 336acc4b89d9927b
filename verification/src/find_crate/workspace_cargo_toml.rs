use vstd::prelude::*;

use crate::config_toml::{lemma_arr_view_index, tbl_get, toml_doc, TomlV, TomlValue};
use crate::text::{str_to_string, strs_view};

verus! {

/// The `workspace.members` list of a workspace manifest.
#[derive(Debug, PartialEq)]
pub struct WorkspaceCargoToml {
    pub members: Vec<String>,
}

/// The member strings of an array of values, defined only when every
/// element is a string.
pub open spec fn strings_of(vs: Seq<TomlV>) -> Option<Seq<Seq<char>>>
    decreases vs.len(),
{
    if vs.len() == 0 {
        Some(Seq::empty())
    } else {
        match vs[0] {
            TomlV::Str(s) => match strings_of(vs.drop_first()) {
                Some(r) => Some(seq![s] + r),
                None => None,
            },
            _ => None,
        }
    }
}

/// The members a parsed workspace manifest lists: the string elements of
/// the `workspace.members` array; nothing when the document does not hold
/// such an array of strings.
pub open spec fn members_of_doc(doc: TomlV) -> Option<Seq<Seq<char>>> {
    match doc {
        TomlV::Table(es) => match tbl_get(es, "workspace"@) {
            Some(TomlV::Table(ws)) => match tbl_get(ws, "members"@) {
                Some(TomlV::Arr(vs)) => strings_of(vs),
                _ => None,
            },
            _ => None,
        },
        _ => None,
    }
}

/// The members of a workspace manifest text.
pub open spec fn members_spec(text: Seq<char>) -> Option<Seq<Seq<char>>> {
    match toml_doc(text) {
        None => None,
        Some(doc) => members_of_doc(doc),
    }
}

proof fn lemma_strings_of_all(vs: Seq<TomlV>)
    requires
        forall|j: int| 0 <= j < vs.len() ==> vs[j] is Str,
    ensures
        strings_of(vs) == Some(Seq::new(vs.len(), |j: int| vs[j]->Str_0)),
    decreases vs.len(),
{
    if vs.len() == 0 {
        assert(Seq::new(vs.len(), |j: int| vs[j]->Str_0) =~= Seq::<Seq<char>>::empty());
    } else {
        lemma_strings_of_all(vs.drop_first());
        assert(seq![vs[0]->Str_0] + Seq::new(
            vs.drop_first().len(),
            |j: int| vs.drop_first()[j]->Str_0,
        ) =~= Seq::new(vs.len(), |j: int| vs[j]->Str_0));
    }
}

proof fn lemma_strings_of_bad(vs: Seq<TomlV>, j: int)
    requires
        0 <= j < vs.len(),
        !(vs[j] is Str),
    ensures
        strings_of(vs) is None,
    decreases vs.len(),
{
    if j > 0 {
        if vs[0] is Str {
            lemma_strings_of_bad(vs.drop_first(), j - 1);
        }
    }
}

impl WorkspaceCargoToml {
    /// Reads the `workspace.members` list out of a workspace manifest text;
    /// nothing when the text does not parse or does not hold such a list of
    /// strings.
    pub fn new(file_content: &str) -> (r: Option<WorkspaceCargoToml>)
        ensures
            match r {
                Some(w) => members_spec(file_content@) == Some(strs_view(w.members@)),
                None => members_spec(file_content@) is None,
            },
    {
        proof {
            reveal_strlit("workspace");
            reveal_strlit("members");
        }
        match crate::config_toml::parse_toml(file_content) {
            None => None,
            Some(doc) => match doc {
                TomlValue::Table(es) => {
                    match crate::config_toml::table_get(&es, "workspace") {
                        Some(TomlValue::Table(ws)) => {
                            match crate::config_toml::table_get(ws, "members") {
                                Some(TomlValue::Arr(vs)) => {
                                    let ghost vs_v = crate::config_toml::arr_view(vs@);
                                    proof {
                                        lemma_arr_view_index(vs@);
                                    }
                                    let mut acc: Vec<String> = Vec::new();
                                    let mut i: usize = 0;
                                    while i < vs.len()
                                        invariant
                                            0 <= i <= vs@.len(),
                                            vs_v == crate::config_toml::arr_view(vs@),
                                            members_spec(file_content@) == strings_of(vs_v),
                                            vs_v.len() == vs@.len(),
                                            forall|j: int|
                                                0 <= j < vs@.len() ==> vs_v[j]
                                                    == crate::config_toml::value_view(vs@[j]),
                                            acc@.len() == i,
                                            forall|j: int| 0 <= j < i ==> vs_v[j] is Str,
                                            forall|j: int|
                                                0 <= j < i ==> #[trigger] acc@[j]@ == vs_v[j]->Str_0,
                                        decreases vs@.len() - i,
                                    {
                                        match &vs[i] {
                                            TomlValue::Str(s) => {
                                                acc.push(str_to_string(s.as_str()));
                                            },
                                            TomlValue::Arr(_) | TomlValue::Table(_)
                                                | TomlValue::Other => {
                                                proof {
                                                    lemma_strings_of_bad(vs_v, i as int);
                                                }
                                                return None;
                                            },
                                        }
                                        i = i + 1;
                                    }
                                    proof {
                                        lemma_strings_of_all(vs_v);
                                        assert(strs_view(acc@) =~= Seq::new(
                                            vs_v.len(),
                                            |j: int| vs_v[j]->Str_0,
                                        ));
                                    }
                                    Some(WorkspaceCargoToml { members: acc })
                                },
                                Some(TomlValue::Str(_)) | Some(TomlValue::Table(_)) | Some(
                                    TomlValue::Other,
                                ) => None,
                                None => None,
                            }
                        },
                        Some(TomlValue::Str(_)) | Some(TomlValue::Arr(_)) | Some(
                            TomlValue::Other,
                        ) => None,
                        None => None,
                    }
                },
                TomlValue::Str(_) | TomlValue::Arr(_) | TomlValue::Other => None,
            },
        }
    }
}

} // verus!
