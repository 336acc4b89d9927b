use vstd::prelude::*;
use vstd::string::StrSliceExecFns;

verus! {

/// Relies on `String::push`: appends one character to the end of the string.
#[verifier::external_body]
pub(crate) fn push_char(s: &mut String, c: char)
    ensures
        final(s)@ == old(s)@.push(c),
{
    s.push(c)
}

/// The characters of `s`, as a vector.
pub fn str_to_chars(s: &str) -> (r: Vec<char>)
    ensures
        r@ == s@,
{
    let n = s.unicode_len();
    let mut v: Vec<char> = Vec::new();
    let mut i: usize = 0;
    while i < n
        invariant
            n == s@.len(),
            0 <= i <= n,
            v@ == s@.take(i as int),
        decreases n - i,
    {
        v.push(s.get_char(i));
        i = i + 1;
        proof {
            assert(v@ =~= s@.take(i as int));
        }
    }
    proof {
        assert(v@ =~= s@);
    }
    v
}

/// The string spelled by the characters of `cs`.
pub fn chars_to_string(cs: &[char]) -> (r: String)
    ensures
        r@ == cs@,
{
    let mut s = String::new();
    let mut i: usize = 0;
    while i < cs.len()
        invariant
            0 <= i <= cs@.len(),
            s@ == cs@.take(i as int),
        decreases cs@.len() - i,
    {
        push_char(&mut s, cs[i]);
        i = i + 1;
        proof {
            assert(s@ =~= cs@.take(i as int));
        }
    }
    proof {
        assert(s@ =~= cs@);
    }
    s
}

/// Whether `s` spells exactly the characters `cs`.
pub fn str_eq_chars(s: &str, cs: &[char]) -> (r: bool)
    ensures
        r == (s@ == cs@),
{
    let n = s.unicode_len();
    if n != cs.len() {
        return false;
    }
    let mut i: usize = 0;
    while i < n
        invariant
            n == s@.len() && n == cs@.len(),
            0 <= i <= n,
            forall|j: int| 0 <= j < i ==> s@[j] == cs@[j],
        decreases n - i,
    {
        if s.get_char(i) != cs[i] {
            return false;
        }
        i = i + 1;
    }
    proof {
        assert(s@ =~= cs@);
    }
    true
}

/// The crate name with every `-` replaced by `_`, as it appears in emitted paths.
pub open spec fn underscored(s: Seq<char>) -> Seq<char> {
    s.map_values(|c: char| if c == '-' { '_' } else { c })
}

/// Replaces every `-` with `_`.
pub fn to_underscored(s: &str) -> (r: Vec<char>)
    ensures
        r@ == underscored(s@),
{
    let cs = str_to_chars(s);
    let mut v: Vec<char> = Vec::new();
    let mut i: usize = 0;
    while i < cs.len()
        invariant
            0 <= i <= cs@.len(),
            cs@ == s@,
            v@ == underscored(s@.take(i as int)),
        decreases cs@.len() - i,
    {
        let c = cs[i];
        if c == '-' {
            v.push('_');
        } else {
            v.push(c);
        }
        i = i + 1;
        proof {
            assert(v@ =~= underscored(s@.take(i as int)));
        }
    }
    proof {
        assert(s@.take(s@.len() as int) =~= s@);
    }
    v
}

/// Index of the first `\n` at or after `i`, or the length when there is none.
pub open spec fn line_end(s: Seq<char>, i: int) -> int
    decreases s.len() - i,
    when 0 <= i <= s.len()
{
    if i == s.len() || s[i] == '\n' {
        i
    } else {
        line_end(s, i + 1)
    }
}

pub proof fn lemma_line_end_bounds(s: Seq<char>, i: int)
    requires
        0 <= i <= s.len(),
    ensures
        i <= line_end(s, i) <= s.len(),
        line_end(s, i) < s.len() ==> s[line_end(s, i)] == '\n',
        forall|j: int| i <= j < line_end(s, i) ==> s[j] != '\n',
    decreases s.len() - i,
{
    if !(i == s.len() || s[i] == '\n') {
        lemma_line_end_bounds(s, i + 1);
    }
}

/// The pieces of `s` between `\n` separators, every piece kept.
pub open spec fn split_plain(s: Seq<char>) -> Seq<Seq<char>>
    decreases s.len(),
    via split_plain_decreases
{
    let e = line_end(s, 0);
    if e == s.len() {
        seq![s]
    } else {
        seq![s.take(e)] + split_plain(s.skip(e + 1))
    }
}

#[via_fn]
proof fn split_plain_decreases(s: Seq<char>) {
    lemma_line_end_bounds(s, 0);
}

/// The lines of `s`: split at `\n`, dropping the separator and one `\r`
/// directly before it; a final piece after the last `\n` is kept only when
/// it is not empty.
pub open spec fn lines_of(s: Seq<char>) -> Seq<Seq<char>>
    decreases s.len(),
    via lines_of_decreases
{
    if s.len() == 0 {
        Seq::empty()
    } else {
        let e = line_end(s, 0);
        if e == s.len() {
            seq![s]
        } else {
            let piece = s.take(e);
            let stripped = if piece.len() > 0 && piece.last() == '\r' {
                piece.drop_last()
            } else {
                piece
            };
            seq![stripped] + lines_of(s.skip(e + 1))
        }
    }
}

#[via_fn]
proof fn lines_of_decreases(s: Seq<char>) {
    lemma_line_end_bounds(s, 0);
}

/// The views of a sequence of strings, index by index.
pub open spec fn strs_view(ss: Seq<String>) -> Seq<Seq<char>> {
    Seq::new(ss.len(), |i: int| ss[i]@)
}

/// Pushing a string appends its view to the sequence of views.
pub proof fn lemma_strs_view_push(v: Seq<String>, x: String)
    ensures
        strs_view(v.push(x)) =~= strs_view(v).push(x@),
{
}

/// The pieces joined by `\n`, inverse of `split_plain`.
pub open spec fn join_nl(ls: Seq<Seq<char>>) -> Seq<char>
    decreases ls.len(),
{
    if ls.len() == 0 {
        Seq::empty()
    } else if ls.len() == 1 {
        ls[0]
    } else {
        ls[0] + seq!['\n'] + join_nl(ls.drop_first())
    }
}


/// Joining one more piece appends a separator and the piece, except to an
/// empty list.
pub proof fn lemma_join_nl_snoc(ls: Seq<Seq<char>>, x: Seq<char>)
    ensures
        join_nl(ls.push(x)) == if ls.len() == 0 {
            x
        } else {
            join_nl(ls) + seq!['\n'] + x
        },
    decreases ls.len(),
{
    if ls.len() == 0 {
        assert(ls.push(x)[0] == x);
    } else if ls.len() == 1 {
        assert(ls.push(x)[0] == ls[0]);
        assert(ls.push(x).drop_first() =~= seq![x]);
        assert(join_nl(seq![x]) == x);
    } else {
        lemma_join_nl_snoc(ls.drop_first(), x);
        assert(ls.push(x).drop_first() =~= ls.drop_first().push(x));
        assert(ls.push(x)[0] == ls[0]);
        assert(ls[0] + seq!['\n'] + (join_nl(ls.drop_first()) + seq!['\n'] + x) =~= (ls[0]
            + seq!['\n'] + join_nl(ls.drop_first())) + seq!['\n'] + x);
    }
}

/// Joins the lines with `\n`.
pub fn join_lines(ls: &Vec<String>) -> (r: String)
    ensures
        r@ == join_nl(strs_view(ls@)),
{
    if ls.len() == 0 {
        let r = String::new();
        proof {
            assert(strs_view(ls@) =~= Seq::<Seq<char>>::empty());
        }
        return r;
    }
    let mut out = str_to_string(ls[0].as_str());
    let mut k: usize = 1;
    proof {
        assert(strs_view(ls@).take(1) =~= seq![ls@[0]@]);
        assert(join_nl(seq![ls@[0]@]) == ls@[0]@);
    }
    while k < ls.len()
        invariant
            1 <= k <= ls@.len(),
            out@ == join_nl(strs_view(ls@).take(k as int)),
        decreases ls@.len() - k,
    {
        proof {
            assert(strs_view(ls@).take(k as int + 1) =~= strs_view(ls@).take(k as int).push(
                ls@[k as int]@,
            ));
            lemma_join_nl_snoc(strs_view(ls@).take(k as int), ls@[k as int]@);
        }
        push_char(&mut out, '\n');
        let item = &ls[k];
        vstd::string::StringExecFns::append(&mut out, item.as_str());
        k = k + 1;
        proof {
            assert(out@ =~= join_nl(strs_view(ls@).take(k as int)));
        }
    }
    proof {
        assert(strs_view(ls@).take(ls@.len() as int) =~= strs_view(ls@));
    }
    out
}

/// Scans for the next `\n` starting at `i`.
fn find_line_end(cs: &[char], i: usize) -> (r: usize)
    requires
        i <= cs@.len(),
    ensures
        r == line_end(cs@, i as int),
        i <= r <= cs@.len(),
    decreases cs@.len() - i,
{
    if i == cs.len() || cs[i] == '\n' {
        i
    } else {
        find_line_end(cs, i + 1)
    }
}

/// Splits `s` at `\n`, keeping every piece.
pub fn split_lines_plain(s: &str) -> (r: Vec<String>)
    ensures
        strs_view(r@) == split_plain(s@),
{
    let cs = str_to_chars(s);
    let mut r: Vec<String> = Vec::new();
    let ghost init = r@;
    split_chars_plain(cs.as_slice(), 0, &mut r);
    proof {
        assert(cs@.skip(0) =~= cs@);
        assert(strs_view(init) =~= Seq::<Seq<char>>::empty());
        assert(strs_view(r@) =~= split_plain(s@));
    }
    r
}

fn split_chars_plain(cs: &[char], from: usize, acc: &mut Vec<String>)
    requires
        from <= cs@.len(),
    ensures
        strs_view(final(acc)@) == strs_view(old(acc)@) + split_plain(cs@.skip(from as int)),
    decreases cs@.len() - from,
{
    let e = find_line_end(cs, from);
    proof {
        lemma_line_end_skip(cs@, from as int);
        lemma_line_end_bounds(cs@, from as int);
    }
    let piece = chars_to_string(vstd::slice::slice_subrange(cs, from, e));
    let ghost before = acc@;
    acc.push(piece);
    proof {
        lemma_strs_view_push(before, piece);
        let sk = cs@.skip(from as int);
        assert(sk.take(line_end(sk, 0)) =~= cs@.subrange(from as int, e as int));
        if e == cs@.len() {
            assert(sk.take(line_end(sk, 0)) =~= sk);
        }
    }
    if e == cs.len() {
        proof {
            assert(strs_view(acc@) =~= strs_view(old(acc)@) + split_plain(cs@.skip(from as int)));
        }
    } else {
        split_chars_plain(cs, e + 1, acc);
        proof {
            let sk = cs@.skip(from as int);
            assert(sk.skip(line_end(sk, 0) + 1) =~= cs@.skip(e + 1 as int));
            assert(strs_view(acc@) =~= strs_view(old(acc)@) + split_plain(cs@.skip(from as int)));
        }
    }
}

/// A fresh `String` with the same characters.
pub fn str_to_string(s: &str) -> (r: String)
    ensures
        r@ == s@,
{
    let cs = str_to_chars(s);
    chars_to_string(cs.as_slice())
}

/// Whether two strings spell the same characters.
pub fn str_eq(a: &str, b: &str) -> (r: bool)
    ensures
        r == (a@ == b@),
{
    let cs = str_to_chars(b);
    str_eq_chars(a, cs.as_slice())
}

/// Reads `s` as lines: split at `\n`, the separator dropped together with a
/// `\r` directly before it; a final empty piece is not a line.
pub fn read_lines(s: &str) -> (r: Vec<String>)
    ensures
        strs_view(r@) == lines_of(s@),
{
    let cs = str_to_chars(s);
    let mut r: Vec<String> = Vec::new();
    let ghost init = r@;
    read_lines_from(cs.as_slice(), 0, &mut r);
    proof {
        assert(cs@.skip(0) =~= cs@);
        assert(strs_view(init) =~= Seq::<Seq<char>>::empty());
        assert(strs_view(r@) =~= lines_of(s@));
    }
    r
}

fn read_lines_from(cs: &[char], from: usize, acc: &mut Vec<String>)
    requires
        from <= cs@.len(),
    ensures
        strs_view(final(acc)@) == strs_view(old(acc)@) + lines_of(cs@.skip(from as int)),
    decreases cs@.len() - from,
{
    let ghost sk = cs@.skip(from as int);
    if from == cs.len() {
        proof {
            assert(strs_view(acc@) =~= strs_view(old(acc)@) + lines_of(sk));
        }
        return;
    }
    let e = find_line_end(cs, from);
    proof {
        lemma_line_end_skip(cs@, from as int);
        lemma_line_end_bounds(cs@, from as int);
    }
    if e == cs.len() {
        let piece = chars_to_string(vstd::slice::slice_subrange(cs, from, e));
        let ghost before = acc@;
        acc.push(piece);
        proof {
            lemma_strs_view_push(before, piece);
            assert(sk.take(line_end(sk, 0)) =~= sk);
            assert(strs_view(acc@) =~= strs_view(old(acc)@) + lines_of(sk));
        }
    } else {
        let cut = if e > from && cs[e - 1] == '\r' {
            e - 1
        } else {
            e
        };
        let piece = chars_to_string(vstd::slice::slice_subrange(cs, from, cut));
        let ghost before = acc@;
        acc.push(piece);
        proof {
            lemma_strs_view_push(before, piece);
            let sp = sk.take(line_end(sk, 0));
            assert(sp =~= cs@.subrange(from as int, e as int));
            if e > from && cs@[e - 1] == '\r' {
                assert(sp.len() > 0 && sp.last() == '\r');
                assert(sp.drop_last() =~= cs@.subrange(from as int, e - 1 as int));
            } else {
                assert(!(sp.len() > 0 && sp.last() == '\r'));
            }
        }
        read_lines_from(cs, e + 1, acc);
        proof {
            assert(sk.skip(line_end(sk, 0) + 1) =~= cs@.skip(e + 1 as int));
            assert(strs_view(acc@) =~= strs_view(old(acc)@) + lines_of(sk));
        }
    }
}

/// `line_end` looks only at the suffix.
pub proof fn lemma_line_end_skip(s: Seq<char>, i: int)
    requires
        0 <= i <= s.len(),
    ensures
        line_end(s, i) == i + line_end(s.skip(i), 0),
    decreases s.len() - i,
{
    let sk = s.skip(i);
    lemma_line_end_bounds(s, i);
    lemma_line_end_bounds(sk, 0);
    if i == s.len() || s[i] == '\n' {
        assert(line_end(sk, 0) == 0);
    } else {
        lemma_line_end_skip(s, i + 1);
        assert(s.skip(i + 1) =~= sk.skip(1));
        lemma_line_end_shift(sk);
    }
}

/// Helper: on a sequence whose head is not `\n`, the first `\n` from 0 is the
/// first `\n` from 1.
proof fn lemma_line_end_shift(s: Seq<char>)
    requires
        s.len() > 0,
        s[0] != '\n',
    ensures
        line_end(s, 0) == 1 + line_end(s.skip(1), 0),
    decreases s.len(),
{
    lemma_line_end_aux(s, 1);
}

proof fn lemma_line_end_aux(s: Seq<char>, i: int)
    requires
        1 <= i <= s.len(),
    ensures
        line_end(s, i) == 1 + line_end(s.skip(1), i - 1),
    decreases s.len() - i,
{
    if i == s.len() {
        assert(s.skip(1).len() == i - 1);
    } else if s[i] == '\n' {
        assert(s.skip(1)[i - 1] == s[i]);
    } else {
        assert(s.skip(1)[i - 1] == s[i]);
        lemma_line_end_aux(s, i + 1);
    }
}

} // verus!
