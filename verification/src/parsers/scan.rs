//! Searching a text for a character or a pair of characters, comparing a
//! window of it with a word, and reading decimal numbers.

use vstd::prelude::*;
use vstd::string::*;

verus! {

/// `a` stands at index `i` of `s` and `b` right behind it.
pub open spec fn pair_at(s: Seq<char>, i: int, a: char, b: char) -> bool {
    0 <= i && i + 1 < s.len() && s[i] == a && s[i + 1] == b
}

/// The least index at or after `from` where the pair `a`, `b` stands, or
/// `s.len()` where it stands nowhere.
pub open spec fn first_pair_from(s: Seq<char>, a: char, b: char, from: int) -> int
    decreases s.len() - from,
{
    if from < 0 || from + 1 >= s.len() {
        s.len() as int
    } else if s[from] == a && s[from + 1] == b {
        from
    } else {
        first_pair_from(s, a, b, from + 1)
    }
}

/// The index of the first pair `a`, `b` in `s`, or `s.len()`.
pub open spec fn first_pair(s: Seq<char>, a: char, b: char) -> int {
    first_pair_from(s, a, b, 0)
}

/// What `first_pair_from` returns lies in range, is a hit unless it is the
/// length, and has no hit before it.
pub proof fn lemma_first_pair_from(s: Seq<char>, a: char, b: char, from: int)
    requires
        0 <= from <= s.len(),
    ensures
        from <= first_pair_from(s, a, b, from) <= s.len(),
        first_pair_from(s, a, b, from) < s.len() ==> pair_at(
            s,
            first_pair_from(s, a, b, from),
            a,
            b,
        ),
        forall|j: int| from <= j < first_pair_from(s, a, b, from) ==> !pair_at(s, j, a, b),
    decreases s.len() - from,
{
    if from + 1 >= s.len() {
    } else if s[from] == a && s[from + 1] == b {
    } else {
        lemma_first_pair_from(s, a, b, from + 1);
    }
}

/// An index with no hit before it that is a hit or the length is what
/// `first_pair_from` returns.
pub proof fn lemma_first_pair_is(s: Seq<char>, a: char, b: char, from: int, e: int)
    requires
        0 <= from <= e <= s.len(),
        forall|j: int| from <= j < e ==> !pair_at(s, j, a, b),
        e == s.len() || pair_at(s, e, a, b),
    ensures
        first_pair_from(s, a, b, from) == e,
    decreases e - from,
{
    if from + 1 >= s.len() {
    } else if from == e {
    } else {
        assert(!pair_at(s, from, a, b));
        lemma_first_pair_is(s, a, b, from + 1, e);
    }
}

/// The least index at or after `from` where `c` stands, or `s.len()`.
pub open spec fn first_char_from(s: Seq<char>, c: char, from: int) -> int
    decreases s.len() - from,
{
    if from < 0 || from >= s.len() {
        s.len() as int
    } else if s[from] == c {
        from
    } else {
        first_char_from(s, c, from + 1)
    }
}

/// The index of the first `c` in `s`, or `s.len()`.
pub open spec fn first_char(s: Seq<char>, c: char) -> int {
    first_char_from(s, c, 0)
}

/// What `first_char_from` returns lies in range, holds `c` unless it is the
/// length, and has no `c` before it.
pub proof fn lemma_first_char_from(s: Seq<char>, c: char, from: int)
    requires
        0 <= from <= s.len(),
    ensures
        from <= first_char_from(s, c, from) <= s.len(),
        first_char_from(s, c, from) < s.len() ==> s[first_char_from(s, c, from)] == c,
        forall|j: int| from <= j < first_char_from(s, c, from) ==> s[j] != c,
    decreases s.len() - from,
{
    if from >= s.len() {
    } else if s[from] == c {
    } else {
        lemma_first_char_from(s, c, from + 1);
    }
}

/// An index with no `c` before it that holds `c` or is the length is what
/// `first_char_from` returns.
pub proof fn lemma_first_char_is(s: Seq<char>, c: char, from: int, e: int)
    requires
        0 <= from <= e <= s.len(),
        forall|j: int| from <= j < e ==> s[j] != c,
        e == s.len() || s[e] == c,
    ensures
        first_char_from(s, c, from) == e,
    decreases e - from,
{
    if from >= s.len() {
    } else if from == e {
    } else {
        lemma_first_char_is(s, c, from + 1, e);
    }
}

/// Finds the first pair `a`, `b` in the window `from..to` of `chars`.
pub fn find_pair(chars: &[char], from: usize, to: usize, a: char, b: char) -> (r: usize)
    requires
        from <= to <= chars.len(),
    ensures
        from <= r <= to,
        r - from == first_pair(chars@.subrange(from as int, to as int), a, b),
{
    let ghost window = chars@.subrange(from as int, to as int);
    let mut i: usize = from;
    while to - i >= 2
        invariant
            from <= i <= to <= chars.len(),
            window == chars@.subrange(from as int, to as int),
            forall|j: int| 0 <= j < i - from ==> !pair_at(window, j, a, b),
        decreases to - i,
    {
        if chars[i] == a && chars[i + 1] == b {
            proof {
                lemma_first_pair_is(window, a, b, 0, i - from);
            }
            return i;
        }
        i = i + 1;
    }
    proof {
        lemma_first_pair_is(window, a, b, 0, to - from);
    }
    to
}

/// Finds the first `c` in the window `from..to` of `chars`.
pub fn find_char(chars: &[char], from: usize, to: usize, c: char) -> (r: usize)
    requires
        from <= to <= chars.len(),
    ensures
        from <= r <= to,
        r - from == first_char(chars@.subrange(from as int, to as int), c),
{
    let ghost window = chars@.subrange(from as int, to as int);
    let mut i: usize = from;
    while i < to
        invariant
            from <= i <= to <= chars.len(),
            window == chars@.subrange(from as int, to as int),
            forall|j: int| 0 <= j < i - from ==> window[j] != c,
        decreases to - i,
    {
        if chars[i] == c {
            proof {
                lemma_first_char_is(window, c, 0, i - from);
            }
            return i;
        }
        i = i + 1;
    }
    proof {
        lemma_first_char_is(window, c, 0, to - from);
    }
    to
}

/// Tells whether the window `from..to` of `chars` spells `word`.
pub fn is_word(chars: &[char], from: usize, to: usize, word: &str) -> (r: bool)
    requires
        from <= to <= chars.len(),
    ensures
        r == (chars@.subrange(from as int, to as int) == word@),
{
    let n = word.unicode_len();
    if to - from != n {
        return false;
    }
    let mut j: usize = 0;
    while j < n
        invariant
            from <= to <= chars.len(),
            to - from == n,
            n == word@.len(),
            0 <= j <= n,
            forall|k: int| 0 <= k < j ==> chars@[from + k] == word@[k],
        decreases n - j,
    {
        if chars[from + j] != word.get_char(j) {
            assert(chars@.subrange(from as int, to as int)[j as int] != word@[j as int]);
            return false;
        }
        j = j + 1;
    }
    assert(chars@.subrange(from as int, to as int) =~= word@);
    true
}

/// Tells whether the window `from..to` of `chars` begins with `word`.
pub fn has_prefix(chars: &[char], from: usize, to: usize, word: &str) -> (r: bool)
    requires
        from <= to <= chars.len(),
    ensures
        r == word@.is_prefix_of(chars@.subrange(from as int, to as int)),
{
    let n = word.unicode_len();
    if to - from < n {
        return false;
    }
    assert(chars@.subrange(from as int, to as int).subrange(0, n as int) =~= chars@.subrange(
        from as int,
        from + n,
    ));
    is_word(chars, from, from + n, word)
}

} // verus!
