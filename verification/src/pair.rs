//! Splitting a text at a separator and reading a pair of values from the two halves.

use std::str::FromStr;
use vstd::prelude::*;
use vstd::std_specs::iter::IteratorSpec;

verus! {

/// `i` is the position of the first `c` in `s`.
pub open spec fn is_first_at(s: Seq<char>, c: char, i: int) -> bool {
    &&& 0 <= i < s.len()
    &&& s[i] == c
    &&& forall|j: int| 0 <= j < i ==> s[j] != c
}

/// The text before the first `separator` in `s` and the text after it, or
/// `None` where `s` holds no `separator`.
pub open spec fn halves(s: Seq<char>, separator: char) -> Option<(Seq<char>, Seq<char>)> {
    if s.contains(separator) {
        let i = choose|i: int| is_first_at(s, separator, i);
        Some((s.subrange(0, i), s.subrange(i + 1, s.len() as int)))
    } else {
        None
    }
}

/// Finds the first `separator` in `s`, counting in characters.
pub fn find_separator(s: &str, separator: char) -> (r: Option<usize>)
    ensures
        match r {
            Some(i) => is_first_at(s@, separator, i as int),
            None => !s@.contains(separator),
        },
{
    let n: usize = s.unicode_len();
    let mut it = s.chars();
    let mut i: usize = 0;
    loop
        invariant
            n == s@.len(),
            i <= n,
            it.remaining() == s@.skip(i as int),
            forall|j: int| 0 <= j < i ==> s@[j] != separator,
        decreases n - i,
    {
        match it.next() {
            Some(c) => {
                if c == separator {
                    return Some(i);
                }
                i = i + 1;
            },
            None => {
                return None;
            },
        }
    }
}

/// Only one position is that of the first `c` in `s`.
pub proof fn lemma_first_is_unique(s: Seq<char>, c: char, i: int, j: int)
    requires
        is_first_at(s, c, i),
        is_first_at(s, c, j),
    ensures
        i == j,
{
}

/// Where the first `separator` of `s` stands at `i`, the halves of `s` are
/// what stands before `i` and what stands after it.
pub proof fn lemma_halves_at(s: Seq<char>, separator: char, i: int)
    requires
        is_first_at(s, separator, i),
    ensures
        halves(s, separator) == Some((s.subrange(0, i), s.subrange(i + 1, s.len() as int))),
{
    assert(s.contains(separator));
    let k = choose|k: int| is_first_at(s, separator, k);
    lemma_first_is_unique(s, separator, i, k);
}

/// Two texts joined by a separator that the first of them does not hold are
/// split into those two texts again.
pub proof fn lemma_halves_of_joined(a: Seq<char>, separator: char, b: Seq<char>)
    requires
        !a.contains(separator),
    ensures
        halves(a + seq![separator] + b, separator) == Some((a, b)),
{
    let s = a + seq![separator] + b;
    let i = a.len() as int;
    assert(s[i] == separator);
    assert forall|j: int| 0 <= j < i implies s[j] != separator by {
        assert(s[j] == a[j]);
        assert(a.contains(a[j]));
    }
    lemma_halves_at(s, separator, i);
    assert(s.subrange(0, i) =~= a);
    assert(s.subrange(i + 1, s.len() as int) =~= b);
}

/// A text has no halves exactly where it does not hold the separator; the
/// empty text has none.
pub proof fn lemma_halves_none(s: Seq<char>, separator: char)
    ensures
        halves(s, separator) is None <==> !s.contains(separator),
        s.len() == 0 ==> halves(s, separator) is None,
{
}

/// The halves of a text, joined by the separator, are the text, and the
/// first half does not hold the separator.
pub proof fn lemma_halves_rejoin(s: Seq<char>, separator: char)
    requires
        halves(s, separator) is Some,
    ensures
        ({
            let (left, right) = halves(s, separator)->0;
            &&& s == left + seq![separator] + right
            &&& !left.contains(separator)
        }),
{
    let i = choose|i: int| is_first_at(s, separator, i);
    let j = choose|j: int| 0 <= j < s.len() && s[j] == separator;
    lemma_some_first(s, separator, j);
    let (left, right) = halves(s, separator)->0;
    assert(s =~= left + seq![separator] + right);
}

/// A text that holds `c` at `at` holds a first `c`.
proof fn lemma_some_first(s: Seq<char>, c: char, at: int)
    requires
        0 <= at < s.len(),
        s[at] == c,
    ensures
        exists|i: int| is_first_at(s, c, i),
    decreases at,
{
    if exists|j: int| 0 <= j < at && s[j] == c {
        let j = choose|j: int| 0 <= j < at && s[j] == c;
        lemma_some_first(s, c, j);
    } else {
        assert(is_first_at(s, c, at));
    }
}

/// Splits `s` at its first `separator`: the text before it and the text
/// after it.
pub fn split_pair<'a>(s: &'a str, separator: char) -> (r: Option<(&'a str, &'a str)>)
    ensures
        match r {
            Some((left, right)) => halves(s@, separator) == Some((left@, right@)),
            None => halves(s@, separator) is None,
        },
{
    match find_separator(s, separator) {
        None => None,
        Some(index) => {
            let n: usize = s.unicode_len();
            proof {
                lemma_halves_at(s@, separator, index as int);
            }
            let left = s.substring_char(0, index);
            let right = s.substring_char(index + 1, n);
            Some((left, right))
        },
    }
}

/// What two readings give together: both values where both were read,
/// nothing where either failed.
pub open spec fn both<T>(first: Option<T>, second: Option<T>) -> Option<(T, T)> {
    match (first, second) {
        (Some(a), Some(b)) => Some((a, b)),
        _ => None,
    }
}

/// What reading a pair from `s` gives, where reading its two halves has given
/// `first` and `second`.
pub open spec fn pair_read<T>(
    s: Seq<char>,
    separator: char,
    first: Option<T>,
    second: Option<T>,
) -> Option<(T, T)> {
    if halves(s, separator) is Some {
        both(first, second)
    } else {
        None
    }
}

/// Where `a` does not hold the separator and the two texts are read as `x` and
/// `y`, the pair read from `a`, the separator and `b` is `(x, y)`.
pub proof fn lemma_pair_of_joined<T>(a: Seq<char>, separator: char, b: Seq<char>, x: T, y: T)
    requires
        !a.contains(separator),
    ensures
        halves(a + seq![separator] + b, separator) == Some((a, b)),
        pair_read(a + seq![separator] + b, separator, Some(x), Some(y)) == Some((x, y)),
{
    lemma_halves_of_joined(a, separator, b);
}

/// Puts two readings together.
pub fn pair_of<T>(first: Option<T>, second: Option<T>) -> (r: Option<(T, T)>)
    ensures
        r == both(first, second),
{
    match (first, second) {
        (Some(a), Some(b)) => Some((a, b)),
        _ => None,
    }
}

/// Calls `FromStr::from_str` of `T` on `s` and drops the error. What comes
/// back is up to that impl, so nothing is claimed of it.
#[verifier::external_body]
fn read_value<T: FromStr>(s: &str) -> (r: Option<T>) {
    T::from_str(s).ok()
}

/// Reads a pair of values from a text such as `"400x600"` or `"1.0,0.5"`: the
/// text before the first `separator` and the text after it, each read as a `T`.
/// The result is the pair read from `s` for what the two readings gave; without
/// a separator there is none.
pub fn parse_pair<T: FromStr>(s: &str, separator: char) -> (r: Option<(T, T)>)
    ensures
        exists|first: Option<T>, second: Option<T>|
            r == #[trigger] pair_read(s@, separator, first, second),
        halves(s@, separator) is None ==> r is None,
{
    match split_pair(s, separator) {
        None => {
            assert(None::<(T, T)> == pair_read(s@, separator, None::<T>, None::<T>));
            None
        },
        Some((left, right)) => {
            let first = read_value::<T>(left);
            let second = read_value::<T>(right);
            assert(both(first, second) == pair_read(s@, separator, first, second));
            pair_of(first, second)
        },
    }
}

} // verus!
