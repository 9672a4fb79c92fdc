//! Character-level helpers shared by the lexer, the evaluator and the ranking engine.

use vstd::prelude::*;
use vstd::string::StrSliceExecFns;

verus! {

/// The lower-case form of a text, as std's Unicode case mapping gives it.
pub uninterp spec fn lower_of(s: Seq<char>) -> Seq<char>;

/// Relies on `str::to_lowercase`: the result is a function of the characters
/// alone, each character maps to one or more characters, so a text is empty
/// exactly when its lower-case form is.
#[verifier::external_body]
pub(crate) fn lowercase(s: &str) -> (r: String)
    ensures
        r@ == lower_of(s@),
        s@.len() == 0 ==> r@.len() == 0,
        s@.len() > 0 ==> r@.len() > 0,
{
    s.to_lowercase()
}

/// Relies on `Vec`'s `FromIterator<char>` over `str::chars`: the characters
/// in order.
#[verifier::external_body]
pub(crate) fn char_vec(s: &str) -> (r: Vec<char>)
    ensures
        r@ == s@,
{
    Vec::from_iter(s.chars())
}

/// Relies on `String`'s `FromIterator<&char>`: the characters in order.
#[verifier::external_body]
pub(crate) fn string_of(v: &Vec<char>) -> (r: String)
    ensures
        r@ == v@,
{
    String::from_iter(v.iter())
}


/// `needle` occurs in `hay` as a contiguous run.
pub open spec fn text_has(hay: Seq<char>, needle: Seq<char>) -> bool {
    exists|i: int| 0 <= i <= hay.len() - needle.len() && #[trigger] hay.subrange(i, i + needle.len()) == needle
}

/// `needle` occurs in `hay`, compared without regard to case.
pub open spec fn has_ci(hay: Seq<char>, needle: Seq<char>) -> bool {
    text_has(lower_of(hay), lower_of(needle))
}

/// Whether `needle` occurs in `hay`.
pub(crate) fn vec_has(hay: &Vec<char>, needle: &Vec<char>) -> (r: bool)
    ensures
        r == text_has(hay@, needle@),
{
    let n = needle.len();
    if n > hay.len() {
        return false;
    }
    let hl = hay.len();
    let mut i: usize = 0;
    while i <= hl - n
        invariant
            hl == hay@.len(),
            n == needle@.len(),
            n <= hay@.len(),
            i <= hay@.len() - n + 1,
            forall|k: int| 0 <= k < i ==> #[trigger] hay@.subrange(k, k + n) != needle@,
        decreases hay@.len() - n + 1 - i,
    {
        let mut j: usize = 0;
        let mut same = true;
        while same && j < n
            invariant
                n == needle@.len(),
                hl == hay@.len(),
                i + n <= hl,
                j <= n,
                forall|k: int| 0 <= k < j ==> hay@[i + k] == needle@[k],
                !same ==> j < n && hay@[i + j] != needle@[j as int],
            decreases n - j + (if same { 1int } else { 0int }),
        {
            if hay[i + j] == needle[j] {
                j += 1;
            } else {
                same = false;
            }
        }
        if j == n {
            assert(hay@.subrange(i as int, i + n) =~= needle@);
            return true;
        }
        assert(hay@.subrange(i as int, i + n)[j as int] != needle@[j as int]);
        i += 1;
    }
    false
}

/// Whether `needle` occurs in `hay`, compared without regard to case.
pub(crate) fn contains_ci(hay: &str, needle: &str) -> (r: bool)
    ensures
        r == has_ci(hay@, needle@),
{
    let h = lowercase(hay);
    let n = lowercase(needle);
    contains_folded(h.as_str(), n.as_str())
}

/// Whether `needle` occurs in `hay`, comparing characters exactly; for texts
/// already in one case.
pub fn contains_folded(hay: &str, needle: &str) -> (r: bool)
    ensures
        r == text_has(hay@, needle@),
{
    vec_has(&char_vec(hay), &char_vec(needle))
}

/// Whether the text `w` is the literal `lit`.
pub(crate) fn eq_text(w: &Vec<char>, lit: &str) -> (r: bool)
    ensures
        r == (w@ == lit@),
{
    let n = lit.unicode_len();
    if w.len() != n {
        return false;
    }
    let mut i: usize = 0;
    while i < n
        invariant
            n == lit@.len(),
            w@.len() == n,
            i <= n,
            forall|k: int| 0 <= k < i ==> w@[k] == lit@[k],
        decreases n - i,
    {
        if w[i] != lit.get_char(i) {
            return false;
        }
        i += 1;
    }
    assert(w@ =~= lit@);
    true
}

/// The characters of `v` from `i` up to `e`.
pub(crate) fn sub_vec(v: &Vec<char>, i: usize, e: usize) -> (r: Vec<char>)
    requires
        i <= e <= v@.len(),
    ensures
        r@ == v@.subrange(i as int, e as int),
{
    let mut r: Vec<char> = Vec::new();
    let mut k: usize = i;
    while k < e
        invariant
            i <= k <= e <= v@.len(),
            r@ == v@.subrange(i as int, k as int),
        decreases e - k,
    {
        r.push(v[k]);
        k += 1;
        assert(r@ =~= v@.subrange(i as int, k as int));
    }
    r
}


/// The views of a sequence of character vectors.
pub open spec fn seqs_view(v: Seq<Vec<char>>) -> Seq<Seq<char>> {
    v.map_values(|x: Vec<char>| x@)
}

/// The pieces of `s` between occurrences of `sep`, scanning from `i` with
/// the current piece starting at `start`. Like `str::split`, there is always
/// at least one piece.
pub open spec fn split_from(s: Seq<char>, sep: Seq<char>, i: int, start: int) -> Seq<Seq<char>>
    recommends
        sep.len() > 0,
    decreases s.len() - i,
{
    if sep.len() == 0 || i < 0 || i + sep.len() > s.len() {
        seq![s.subrange(start, s.len() as int)]
    } else if s.subrange(i, i + sep.len()) == sep {
        seq![s.subrange(start, i)] + split_from(s, sep, i + sep.len(), i + sep.len())
    } else {
        split_from(s, sep, i + 1, start)
    }
}

/// Splits `s` at every occurrence of `sep`.
pub(crate) fn split_text(s: &Vec<char>, sep: &Vec<char>) -> (r: Vec<Vec<char>>)
    requires
        sep@.len() > 0,
    ensures
        seqs_view(r@) == split_from(s@, sep@, 0, 0),
{
    let n = s.len();
    let m = sep.len();
    let mut out: Vec<Vec<char>> = Vec::new();
    let mut i: usize = 0;
    let mut start: usize = 0;
    while m <= n && i <= n - m
        invariant
            n == s@.len(),
            m == sep@.len(),
            m > 0,
            start <= i,
            i <= n,
            seqs_view(out@) + split_from(s@, sep@, i as int, start as int) == split_from(s@, sep@, 0, 0),
        decreases n - i,
    {
        let mut j: usize = 0;
        let mut same = true;
        while same && j < m
            invariant
                i + m <= n,
                n == s@.len(),
                m == sep@.len(),
                j <= m,
                forall|k: int| 0 <= k < j ==> s@[i + k] == sep@[k],
                !same ==> j < m && s@[i + j] != sep@[j as int],
            decreases m - j + (if same { 1int } else { 0int }),
        {
            if s[i + j] == sep[j] {
                j += 1;
            } else {
                same = false;
            }
        }
        if same {
            assert(s@.subrange(i as int, i + m) =~= sep@);
            let piece = sub_vec(s, start, i);
            let ghost before = out@;
            out.push(piece);
            assert(seqs_view(out@) =~= seqs_view(before) + seq![piece@]);
            assert(seqs_view(out@) + split_from(s@, sep@, i + m, i + m) =~= seqs_view(before) + (
            seq![s@.subrange(start as int, i as int)] + split_from(s@, sep@, i + m, i + m)));
            i = i + m;
            start = i;
        } else {
            assert(s@.subrange(i as int, i + m)[j as int] != sep@[j as int]);
            i += 1;
        }
    }
    let last = sub_vec(s, start, n);
    let ghost before = out@;
    out.push(last);
    assert(seqs_view(out@) =~= seqs_view(before) + seq![last@]);
    out
}

pub open spec fn is_blank(c: char) -> bool {
    c == ' ' || c == '\t' || c == '\n' || c == '\r' || c == '\x0C'
}

/// The first index from `j` on that holds a blank, or the length.
pub open spec fn run_end(s: Seq<char>, j: int) -> int
    decreases s.len() - j,
{
    if j < 0 || j >= s.len() || is_blank(s[j]) {
        j
    } else {
        run_end(s, j + 1)
    }
}

proof fn lemma_run_end(s: Seq<char>, j: int)
    requires
        0 <= j,
    ensures
        j <= run_end(s, j),
        run_end(s, j) <= s.len() || run_end(s, j) == j,
        j < s.len() && !is_blank(s[j]) ==> j < run_end(s, j),
    decreases s.len() - j,
{
    if !(j >= s.len() || is_blank(s[j])) {
        lemma_run_end(s, j + 1);
    }
}

/// The words of `s` from `i` on: the maximal runs without blanks.
pub open spec fn words_from(s: Seq<char>, i: int) -> Seq<Seq<char>>
    decreases s.len() - i via words_from_decreases
{
    if i < 0 || i >= s.len() {
        seq![]
    } else if is_blank(s[i]) {
        words_from(s, i + 1)
    } else {
        let e = run_end(s, i);
        seq![s.subrange(i, e)] + words_from(s, e)
    }
}

#[via_fn]
proof fn words_from_decreases(s: Seq<char>, i: int) {
    if 0 <= i < s.len() {
        lemma_run_end(s, i);
    }
}

/// The words of `s`.
pub(crate) fn words(s: &Vec<char>) -> (r: Vec<Vec<char>>)
    ensures
        seqs_view(r@) == words_from(s@, 0),
{
    let n = s.len();
    let mut out: Vec<Vec<char>> = Vec::new();
    let mut i: usize = 0;
    while i < n
        invariant
            n == s@.len(),
            i <= n,
            seqs_view(out@) + words_from(s@, i as int) == words_from(s@, 0),
        decreases n - i,
    {
        let c = s[i];
        if c == ' ' || c == '\t' || c == '\n' || c == '\r' || c == '\x0C' {
            i += 1;
        } else {
            let mut e = i;
            while e < n && !(s[e] == ' ' || s[e] == '\t' || s[e] == '\n' || s[e] == '\r' || s[e]
                == '\x0C')
                invariant
                    n == s@.len(),
                    i <= e <= n,
                    run_end(s@, i as int) == run_end(s@, e as int),
                decreases n - e,
            {
                e += 1;
            }
            proof {
                lemma_run_end(s@, i as int);
            }
            let w = sub_vec(s, i, e);
            let ghost before = out@;
            out.push(w);
            assert(seqs_view(out@) =~= seqs_view(before) + seq![w@]);
            assert(seqs_view(out@) + words_from(s@, e as int) =~= seqs_view(before) + (seq![w@]
                + words_from(s@, e as int)));
            i = e;
        }
    }
    assert(seqs_view(out@) + words_from(s@, i as int) =~= seqs_view(out@));
    out
}

/// Appends the characters of `s`.
pub(crate) fn append_chars(out: &mut Vec<char>, s: &str)
    ensures
        final(out)@ == old(out)@ + s@,
{
    let v = char_vec(s);
    let mut k: usize = 0;
    while k < v.len()
        invariant
            k <= v@.len(),
            v@ == s@,
            out@ == old(out)@ + v@.subrange(0, k as int),
        decreases v@.len() - k,
    {
        out.push(v[k]);
        k += 1;
        assert(out@ =~= old(out)@ + v@.subrange(0, k as int));
    }
    assert(v@.subrange(0, v@.len() as int) =~= v@);
}

} // verus!
