//! Character-level helpers: ASCII-case-insensitive comparison of strings,
//! used for the textual forms of `Reason` and `Medium` and for the URL
//! scheme check.

use vstd::prelude::*;
use vstd::string::StrSliceExecFns;

verus! {

/// The code point of `c` with an ASCII capital letter folded to lower case.
pub open spec fn fold_char(c: char) -> int {
    if 65 <= c as int && c as int <= 90 {
        c as int + 32
    } else {
        c as int
    }
}

/// Character sequences equal up to ASCII case.
pub open spec fn eq_fold(a: Seq<char>, b: Seq<char>) -> bool {
    a.len() == b.len() && forall|i: int| 0 <= i < a.len() ==> fold_char(a[i]) == fold_char(b[i])
}

/// Whether the sequence contains no ASCII capital letter.
pub open spec fn is_folded(a: Seq<char>) -> bool
    decreases a.len(),
{
    if a.len() == 0 {
        true
    } else {
        !(65 <= a[0] as int && a[0] as int <= 90) && is_folded(a.drop_first())
    }
}

pub proof fn lemma_eq_fold_transitive(a: Seq<char>, b: Seq<char>, c: Seq<char>)
    requires
        eq_fold(a, b),
        eq_fold(b, c),
    ensures
        eq_fold(a, c),
{
}

/// A sequence that differs from another in length, or in its first character
/// after case folding, is not case-insensitively equal to it.
pub proof fn lemma_ne_fold(a: Seq<char>, b: Seq<char>)
    requires
        a.len() != b.len() || (a.len() > 0 && fold_char(a[0]) != fold_char(b[0])),
    ensures
        !eq_fold(a, b),
{
    if a.len() == b.len() && a.len() > 0 && eq_fold(a, b) {
        assert(fold_char(a[0]) == fold_char(b[0]));
    }
}

/// Case-folded code point of one character, as executable code.
fn fold_char_exec(c: char) -> (r: u32)
    ensures
        r == fold_char(c),
{
    let x = c as u32;
    if 65 <= x && x <= 90 {
        x + 32
    } else {
        x
    }
}

/// Whether `a` and `b` are equal up to ASCII case.
pub fn eq_ignore_ascii_case(a: &str, b: &str) -> (r: bool)
    ensures
        r == eq_fold(a@, b@),
{
    let n = a.unicode_len();
    if n != b.unicode_len() {
        return false;
    }
    for i in 0..n
        invariant
            n == a@.len(),
            n == b@.len(),
            forall|j: int| 0 <= j < i ==> fold_char(a@[j]) == fold_char(b@[j]),
    {
        if fold_char_exec(a.get_char(i)) != fold_char_exec(b.get_char(i)) {
            return false;
        }
    }
    true
}

/// Whether `s` begins, up to ASCII case, with the four characters `http`.
pub open spec fn spec_has_http_scheme(s: Seq<char>) -> bool {
    s.len() >= 4 && eq_fold(s.take(4), "http"@)
}

/// Whether the string starts with `http`, compared without regard to ASCII case.
pub fn has_http_scheme(s: &str) -> (r: bool)
    ensures
        r == spec_has_http_scheme(s@),
{
    proof {
        reveal_strlit("http");
    }
    let n = s.unicode_len();
    if n < 4 {
        return false;
    }
    let r = fold_char_exec(s.get_char(0)) == 104 && fold_char_exec(s.get_char(1)) == 116
        && fold_char_exec(s.get_char(2)) == 116 && fold_char_exec(s.get_char(3)) == 112;
    proof {
        assert(s@.take(4)[0] == s@[0]);
        assert(s@.take(4)[1] == s@[1]);
        assert(s@.take(4)[2] == s@[2]);
        assert(s@.take(4)[3] == s@[3]);
    }
    r
}

/// Whether `a` and `b` hold the same characters.
pub fn str_eq(a: &str, b: &str) -> (r: bool)
    ensures
        r == (a@ == b@),
{
    let n = a.unicode_len();
    if n != b.unicode_len() {
        return false;
    }
    for i in 0..n
        invariant
            n == a@.len(),
            n == b@.len(),
            forall|j: int| 0 <= j < i ==> a@[j] == b@[j],
    {
        if a.get_char(i) != b.get_char(i) {
            return false;
        }
    }
    proof {
        assert(a@ =~= b@);
    }
    true
}

} // verus!
