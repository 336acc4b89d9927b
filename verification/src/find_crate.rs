use vstd::prelude::*;

use crate::text::{chars_to_string, str_to_chars};

pub mod workspace_cargo_toml;

verus! {

/// `a` extended by the path component `b`: `b` alone when it is absolute or
/// `a` is empty, otherwise the two joined with a single `/`.
pub open spec fn path_join(a: Seq<char>, b: Seq<char>) -> Seq<char> {
    if b.len() > 0 && b[0] == '/' {
        b
    } else if a.len() == 0 {
        b
    } else if a.last() == '/' {
        a + b
    } else {
        a + seq!['/'] + b
    }
}

/// Joins two path components.
pub fn join_paths(a: &str, b: &str) -> (r: String)
    ensures
        r@ == path_join(a@, b@),
{
    let ca = str_to_chars(a);
    let cb = str_to_chars(b);
    if cb.len() > 0 && cb[0] == '/' {
        chars_to_string(cb.as_slice())
    } else if ca.len() == 0 {
        chars_to_string(cb.as_slice())
    } else {
        let mut v = ca;
        if v[v.len() - 1] != '/' {
            v.push('/');
        }
        let mut k: usize = 0;
        let ghost base = v@;
        while k < cb.len()
            invariant
                0 <= k <= cb@.len(),
                v@ == base + cb@.take(k as int),
            decreases cb@.len() - k,
        {
            v.push(cb[k]);
            k = k + 1;
            proof {
                assert(v@ =~= base + cb@.take(k as int));
            }
        }
        proof {
            assert(cb@.take(cb@.len() as int) =~= cb@);
            if a@.last() == '/' {
                assert(v@ =~= path_join(a@, b@));
            } else {
                assert(base =~= a@ + seq!['/']);
                assert(v@ =~= path_join(a@, b@));
            }
        }
        chars_to_string(v.as_slice())
    }
}

/// Where a crate of `crate_name` lives in a workspace: under the
/// workspace root's `libs` directory.
pub fn find(workspace_root: &str, crate_name: &str) -> (r: String)
    ensures
        r@ == path_join(path_join(workspace_root@, "libs"@), crate_name@),
{
    let libs = join_paths(workspace_root, "libs");
    join_paths(libs.as_str(), crate_name)
}

} // verus!
