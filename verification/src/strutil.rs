//! Small verified string helpers: splitting on a separator character,
//! trimming surrounding whitespace, and concatenation, each pinned to a
//! specification over character sequences.

use vstd::prelude::*;
use vstd::string::*;

verus! {

/// The index of the first occurrence of `sep`, or the length when absent.
pub open spec fn find_sep(s: Seq<char>, sep: char) -> int
    decreases s.len(),
{
    if s.len() == 0 {
        0
    } else if s[0] == sep {
        0
    } else {
        1 + find_sep(s.subrange(1, s.len() as int), sep)
    }
}

pub proof fn lemma_find_sep(s: Seq<char>, sep: char)
    ensures
        0 <= find_sep(s, sep) <= s.len(),
        find_sep(s, sep) < s.len() ==> s[find_sep(s, sep)] == sep,
        forall|j: int| 0 <= j < find_sep(s, sep) ==> s[j] != sep,
    decreases s.len(),
{
    if s.len() > 0 && s[0] != sep {
        let t = s.subrange(1, s.len() as int);
        lemma_find_sep(t, sep);
        assert(forall|j: int| 0 <= j < t.len() ==> t[j] == s[j + 1]);
        assert forall|j: int| 0 <= j < find_sep(s, sep) implies s[j] != sep by {
            if j > 0 {
                assert(t[j - 1] != sep);
            }
        }
    }
}

/// The first index at or after `from` holding `sep` is exactly where
/// `find_sep` points, and the other way round.
pub proof fn lemma_find_sep_at(s: Seq<char>, sep: char, k: int)
    requires
        0 <= k <= s.len(),
        forall|j: int| 0 <= j < k ==> s[j] != sep,
        k < s.len() ==> s[k] == sep,
    ensures
        find_sep(s, sep) == k,
    decreases s.len(),
{
    lemma_find_sep(s, sep);
    if s.len() > 0 && s[0] != sep {
        let t = s.subrange(1, s.len() as int);
        assert(forall|j: int| 0 <= j < t.len() ==> t[j] == s[j + 1]);
        lemma_find_sep_at(t, sep, k - 1);
    }
}

/// Splitting on a separator: the tokens between its occurrences, in order,
/// empty tokens kept.
pub open spec fn spec_split(s: Seq<char>, sep: char) -> Seq<Seq<char>>
    decreases s.len(),
{
    let i = find_sep(s, sep);
    if 0 <= i < s.len() {
        seq![s.subrange(0, i)] + spec_split(s.subrange(i + 1, s.len() as int), sep)
    } else {
        seq![s]
    }
}

/// Split a string on a separator character.
pub fn split_char(s: &String, sep: char) -> (r: Vec<String>)
    ensures
        r@.map_values(|t: String| t@) == spec_split(s@, sep),
        r@.len() > 0,
{
    let text = s.as_str();
    let n: usize = text.unicode_len();
    let mut r: Vec<String> = Vec::new();
    let mut start: usize = 0;
    let mut i: usize = 0;
    proof {
        assert(s@.subrange(0, n as int) =~= s@);
        assert(r@.map_values(|t: String| t@) =~= Seq::<Seq<char>>::empty());
    }
    while i < n
        invariant
            0 <= start <= i <= n,
            n == s@.len(),
            text@ == s@,
            forall|j: int| start <= j < i ==> s@[j] != sep,
            spec_split(s@, sep) =~= r@.map_values(|t: String| t@) + spec_split(
                s@.subrange(start as int, n as int),
                sep,
            ),
        decreases n - i,
    {
        let c = text.get_char(i);
        if c == sep {
            let token = text.substring_char(start, i);
            let ghost rem = s@.subrange(start as int, n as int);
            let ghost k = i - start;
            proof {
                assert(forall|j: int| 0 <= j < k ==> rem[j] == s@[start + j] && rem[j] != sep);
                assert(rem[k] == sep);
                lemma_find_sep_at(rem, sep, k);
                assert(rem.subrange(0, k) =~= s@.subrange(start as int, i as int));
                assert(rem.subrange(k + 1, rem.len() as int) =~= s@.subrange(
                    i + 1,
                    n as int,
                ));
            }
            let ghost prev = r@;
            r.push(String::from_str(token));
            proof {
                assert(r@.map_values(|t: String| t@) =~= prev.map_values(|t: String| t@).push(
                    s@.subrange(start as int, i as int),
                ));
            }
            start = i + 1;
        }
        i = i + 1;
    }
    let token = text.substring_char(start, n);
    let ghost rem = s@.subrange(start as int, n as int);
    proof {
        assert(forall|j: int| 0 <= j < rem.len() ==> rem[j] == s@[start + j] && rem[j] != sep);
        lemma_find_sep_at(rem, sep, rem.len() as int);
        assert(spec_split(rem, sep) =~= seq![rem]);
        assert(rem =~= s@.subrange(start as int, n as int));
    }
    let ghost prev = r@;
    r.push(String::from_str(token));
    proof {
        assert(r@.map_values(|t: String| t@) =~= prev.map_values(|t: String| t@).push(rem));
    }
    r
}

/// The whitespace characters the trim helper strips.
pub open spec fn is_space(c: char) -> bool {
    c == ' ' || c == '\t' || c == '\n' || c == '\r'
}

/// A sequence with leading whitespace removed.
pub open spec fn trim_start_spec(s: Seq<char>) -> Seq<char>
    decreases s.len(),
{
    if s.len() > 0 && is_space(s[0]) {
        trim_start_spec(s.subrange(1, s.len() as int))
    } else {
        s
    }
}

/// A sequence with trailing whitespace removed.
pub open spec fn trim_end_spec(s: Seq<char>) -> Seq<char>
    decreases s.len(),
{
    if s.len() > 0 && is_space(s.last()) {
        trim_end_spec(s.drop_last())
    } else {
        s
    }
}

/// A sequence with surrounding whitespace removed.
pub open spec fn spec_trim(s: Seq<char>) -> Seq<char> {
    trim_end_spec(trim_start_spec(s))
}

proof fn lemma_trim_start_at(s: Seq<char>, k: int)
    requires
        0 <= k <= s.len(),
        forall|j: int| 0 <= j < k ==> is_space(s[j]),
        k < s.len() ==> !is_space(s[k]),
    ensures
        trim_start_spec(s) =~= s.subrange(k, s.len() as int),
    decreases s.len(),
{
    if s.len() > 0 && is_space(s[0]) {
        let t = s.subrange(1, s.len() as int);
        assert(forall|j: int| 0 <= j < t.len() ==> t[j] == s[j + 1]);
        assert(k > 0);
        lemma_trim_start_at(t, k - 1);
        assert(t.subrange(k - 1, t.len() as int) =~= s.subrange(k, s.len() as int));
    } else {
        assert(k == 0);
    }
}

proof fn lemma_trim_end_at(s: Seq<char>, k: int)
    requires
        0 <= k <= s.len(),
        forall|j: int| k <= j < s.len() ==> is_space(s[j]),
        k > 0 ==> !is_space(s[k - 1]),
    ensures
        trim_end_spec(s) =~= s.subrange(0, k),
    decreases s.len(),
{
    if s.len() > 0 && is_space(s.last()) {
        assert(k < s.len());
        lemma_trim_end_at(s.drop_last(), k);
        assert(s.drop_last().subrange(0, k) =~= s.subrange(0, k));
    } else {
        assert(k == s.len());
    }
}

/// Trim surrounding whitespace from a string.
pub fn trim(s: &String) -> (r: String)
    ensures
        r@ == spec_trim(s@),
{
    let text = s.as_str();
    let n: usize = text.unicode_len();
    let mut a: usize = 0;
    while a < n && is_space_char(text.get_char(a))
        invariant
            0 <= a <= n,
            n == s@.len(),
            text@ == s@,
            forall|j: int| 0 <= j < a ==> is_space(s@[j]),
        decreases n - a,
    {
        a = a + 1;
    }
    let mut b: usize = n;
    while b > a && is_space_char(text.get_char(b - 1))
        invariant
            a <= b <= n,
            n == s@.len(),
            text@ == s@,
            forall|j: int| 0 <= j < a ==> is_space(s@[j]),
            a < n ==> !is_space(s@[a as int]),
            forall|j: int| b <= j < n ==> is_space(s@[j]),
        decreases b,
    {
        b = b - 1;
    }
    let part = text.substring_char(a, b);
    proof {
        lemma_trim_start_at(s@, a as int);
        let t = trim_start_spec(s@);
        if a < n {
            assert(forall|j: int| 0 <= j < t.len() ==> t[j] == s@[a + j]);
            lemma_trim_end_at(t, b - a);
            assert(t.subrange(0, b - a) =~= s@.subrange(a as int, b as int));
        } else {
            assert(a == b);
            assert(t.len() == 0);
            assert(trim_end_spec(t) =~= s@.subrange(a as int, b as int));
        }
    }
    String::from_str(part)
}

fn is_space_char(c: char) -> (r: bool)
    ensures
        r == is_space(c),
{
    c == ' ' || c == '\t' || c == '\n' || c == '\r'
}

/// Concatenate two pieces, as a message template is completed by a value.
pub fn concat2(a: &str, b: &str) -> (r: String)
    ensures
        r@ == a@ + b@,
{
    let mut r = String::from_str(a);
    r.append(b);
    r
}

/// Concatenate three pieces, as error messages are built from a template
/// around a value.
pub fn concat3(a: &str, b: &str, c: &str) -> (r: String)
    ensures
        r@ == a@ + b@ + c@,
{
    let mut r = String::from_str(a);
    r.append(b);
    r.append(c);
    r
}

} // verus!
