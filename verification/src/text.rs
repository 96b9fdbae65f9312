//! Small operations on strings, stated over sequences of characters.

use vstd::prelude::*;
use vstd::string::StrSliceExecFns;

verus! {

/// `str::eq` of std: two string slices are equal exactly when they hold the
/// same characters.
pub assume_specification[ <str as PartialEq>::eq ](a: &str, b: &str) -> (r: bool)
    ensures
        r == (a@ == b@),
;

/// The lowercase form that `str::to_lowercase` gives a string. Nothing more
/// is said of it here.
pub uninterp spec fn lowercase_of(s: Seq<char>) -> Seq<char>;

/// Calls `str::to_lowercase` of std. The contract claims only that the
/// result is the form named by [`lowercase_of`], which depends on the
/// characters of `s` and on nothing else.
#[verifier::external_body]
pub(crate) fn to_lowercase(s: &str) -> (r: String)
    ensures
        r@ == lowercase_of(s@),
{
    s.to_lowercase()
}

/// The position of the first `.` in `s`, or the length of `s` if it has none.
pub open spec fn first_dot(s: Seq<char>) -> int
    decreases s.len(),
{
    if s.len() == 0 {
        0
    } else if s[0] == '.' {
        0
    } else {
        1 + first_dot(s.skip(1))
    }
}

/// The pieces of `s` between its dots, in order. A string without a dot is
/// its own single piece; two dots in a row hold an empty piece.
pub open spec fn dot_tokens(s: Seq<char>) -> Seq<Seq<char>>
    decreases s.len(),
{
    let i = first_dot(s);
    if 0 <= i < s.len() {
        seq![s.take(i)] + dot_tokens(s.skip(i + 1))
    } else {
        seq![s]
    }
}

/// Where the first dot of a string lies, in terms of its characters.
pub proof fn lemma_first_dot(s: Seq<char>)
    ensures
        0 <= first_dot(s) <= s.len(),
        forall|j: int| 0 <= j < first_dot(s) ==> s[j] != '.',
        first_dot(s) < s.len() ==> s[first_dot(s)] == '.',
    decreases s.len(),
{
    if s.len() > 0 && s[0] != '.' {
        let rest = s.skip(1);
        lemma_first_dot(rest);
        assert forall|j: int| 0 <= j < first_dot(s) implies s[j] != '.' by {
            if j > 0 {
                assert(rest[j - 1] == s[j]);
            }
        }
        if first_dot(s) < s.len() {
            assert(rest[first_dot(rest)] == s[first_dot(s)]);
        }
    }
}

/// The first dot is found at `i` when `i` holds a dot and nothing before it does.
pub proof fn lemma_first_dot_at(s: Seq<char>, i: int)
    requires
        0 <= i <= s.len(),
        forall|j: int| 0 <= j < i ==> s[j] != '.',
        i < s.len() ==> s[i] == '.',
    ensures
        first_dot(s) == i,
{
    lemma_first_dot(s);
    let d = first_dot(s);
    if d < i {
        assert(s[d] == '.');
    } else if d > i {
        assert(s[i] != '.');
    }
}

/// A string has at least one piece; with a dot it has more, and the first
/// is what stands before the first dot.
pub proof fn lemma_dot_tokens_first(s: Seq<char>)
    ensures
        dot_tokens(s).len() >= 1,
        first_dot(s) < s.len() ==> dot_tokens(s).len() >= 2 && dot_tokens(s)[0] == s.take(
            first_dot(s),
        ),
        first_dot(s) >= s.len() ==> dot_tokens(s) == seq![s],
    decreases s.len(),
{
    lemma_first_dot(s);
    let i = first_dot(s);
    if i < s.len() {
        lemma_dot_tokens_first(s.skip(i + 1));
    }
}

/// Splits `s` at its dots.
pub fn split_dots(s: &str) -> (r: Vec<String>)
    ensures
        r@.len() == dot_tokens(s@).len(),
        forall|k: int| 0 <= k < r@.len() ==> (#[trigger] r@[k])@ == dot_tokens(s@)[k],
{
    let n = s.unicode_len();
    let mut tokens: Vec<String> = Vec::new();
    let mut start: usize = 0;
    let mut i: usize = 0;
    assert(s@.skip(0) =~= s@);
    while i < n
        invariant
            n == s@.len(),
            0 <= start <= i <= n,
            forall|j: int| start <= j < i ==> s@[j] != '.',
            dot_tokens(s@).len() == tokens@.len() + dot_tokens(s@.skip(start as int)).len(),
            forall|k: int| 0 <= k < tokens@.len() ==> (#[trigger] tokens@[k])@ == dot_tokens(s@)[k],
            forall|k: int|
                0 <= k < dot_tokens(s@.skip(start as int)).len() ==> dot_tokens(s@)[tokens@.len()
                    + k] == #[trigger] dot_tokens(s@.skip(start as int))[k],
        decreases n - i,
    {
        if s.get_char(i) == '.' {
            let piece = s.substring_char(start, i).to_owned();
            proof {
                let rest = s@.skip(start as int);
                assert forall|j: int| 0 <= j < i - start implies rest[j] != '.' by {
                    assert(rest[j] == s@[start + j]);
                }
                assert(rest[i - start] == s@[i as int]);
                lemma_first_dot_at(rest, i - start);
                assert(rest.take(i - start) =~= s@.subrange(start as int, i as int));
                assert(rest.skip(i - start + 1) =~= s@.skip(i + 1));
                let tail = dot_tokens(s@.skip(i + 1));
                assert(dot_tokens(rest) == seq![piece@] + tail);
                assert forall|k: int| 0 <= k < tail.len() implies dot_tokens(s@)[tokens@.len() + 1
                    + k] == #[trigger] tail[k] by {
                    assert(dot_tokens(rest)[k + 1] == tail[k]);
                }
                assert(dot_tokens(rest)[0] == piece@);
            }
            tokens.push(piece);
            start = i + 1;
        }
        i = i + 1;
    }
    let piece = s.substring_char(start, n).to_owned();
    proof {
        let rest = s@.skip(start as int);
        assert forall|j: int| 0 <= j < rest.len() implies rest[j] != '.' by {
            assert(rest[j] == s@[start + j]);
        }
        lemma_first_dot_at(rest, rest.len() as int);
        assert(rest =~= s@.subrange(start as int, n as int));
        assert(dot_tokens(rest) == seq![rest]);
        assert(dot_tokens(rest)[0] == piece@);
    }
    tokens.push(piece);
    tokens
}

} // verus!
