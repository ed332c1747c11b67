//! Character-level scanning helpers shared by the request-line and
//! query-string parsers: locating the first occurrence of a delimiter
//! in a string, and exact string equality.

use vstd::prelude::*;
use vstd::string::StrSliceExecFns;

verus! {

/// Index of the first occurrence of `a` or `b` in `s`, or `s.len()`
/// if neither character occurs.
pub open spec fn first_index_of_either(s: Seq<char>, a: char, b: char) -> nat
    decreases s.len(),
{
    if s.len() == 0 {
        0
    } else if s[0] == a || s[0] == b {
        0
    } else {
        1 + first_index_of_either(s.drop_first(), a, b)
    }
}

/// `first_index_of_either` names the first delimiter position: nothing
/// before it is a delimiter, and the position itself (when inside the
/// string) holds one.
proof fn lemma_first_index_of_either(s: Seq<char>, a: char, b: char)
    ensures
        first_index_of_either(s, a, b) <= s.len(),
        forall|i: int| 0 <= i < first_index_of_either(s, a, b) ==> s[i] != a && s[i] != b,
        first_index_of_either(s, a, b) < s.len() ==> (s[first_index_of_either(s, a, b) as int]
            == a || s[first_index_of_either(s, a, b) as int] == b),
    decreases s.len(),
{
    if s.len() == 0 {
    } else if s[0] == a || s[0] == b {
    } else {
        lemma_first_index_of_either(s.drop_first(), a, b);
        let n = first_index_of_either(s, a, b);
        assert forall|i: int| 0 <= i < n implies s[i] != a && s[i] != b by {
            if i > 0 {
                assert(s.drop_first()[i - 1] == s[i]);
            }
        }
        if n < s.len() {
            assert(s.drop_first()[n - 1] == s[n as int]);
        }
    }
}

/// A position with no delimiter before it that is either the string's
/// end or a delimiter is exactly `first_index_of_either`.
pub proof fn lemma_first_index_of_either_is(s: Seq<char>, a: char, b: char, n: int)
    requires
        0 <= n <= s.len(),
        forall|i: int| 0 <= i < n ==> s[i] != a && s[i] != b,
        n < s.len() ==> (s[n] == a || s[n] == b),
    ensures
        first_index_of_either(s, a, b) == n,
{
    lemma_first_index_of_either(s, a, b);
    let m = first_index_of_either(s, a, b) as int;
    if m < n {
        assert(s[m] == a || s[m] == b);
        assert(s[m] != a && s[m] != b);
    } else if n < m {
        assert(s[n] != a && s[n] != b);
        assert(s[n] == a || s[n] == b);
    }
}

/// Character-for-character equality of two string slices.
pub fn str_eq(a: &str, b: &str) -> (r: bool)
    ensures
        r == (a@ == b@),
{
    let a_len = a.unicode_len();
    let b_len = b.unicode_len();
    if a_len != b_len {
        return false;
    }
    let mut i: usize = 0;
    while i < a_len
        invariant
            0 <= i <= a_len,
            a_len == a@.len(),
            a_len == b@.len(),
            forall|j: int| 0 <= j < i ==> a@[j] == b@[j],
        decreases a_len - i,
    {
        if a.get_char(i) != b.get_char(i) {
            return false;
        }
        i = i + 1;
    }
    proof {
        assert(a@ =~= b@);
    }
    true
}

} // verus!
