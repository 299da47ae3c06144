use vstd::prelude::*;

verus! {

/// The characters that separate records: space, tab, carriage return and
/// line feed.
pub open spec fn is_space(c: char) -> bool {
    c == ' ' || c == '\t' || c == '\r' || c == '\n'
}

/// The first position at or after `from` that holds `a` or `b`, or the length
/// of `s` when neither occurs from there on.
pub open spec fn first_of(s: Seq<char>, from: int, a: char, b: char) -> int
    decreases s.len() - from,
{
    if 0 <= from < s.len() && s[from] != a && s[from] != b {
        first_of(s, from + 1, a, b)
    } else {
        from
    }
}

/// The first position at or after `from` that holds no separator character,
/// or the length of `s` when only separators follow.
pub open spec fn skip_spaces(s: Seq<char>, from: int) -> int
    decreases s.len() - from,
{
    if 0 <= from < s.len() && is_space(s[from]) {
        skip_spaces(s, from + 1)
    } else {
        from
    }
}

/// What `first_of` returns, stated without recursion: the result lies between
/// `from` and the end, nothing before it is a stop character, and it is the
/// end or a stop character.
pub proof fn lemma_first_of_bounds(s: Seq<char>, from: int, a: char, b: char)
    requires
        0 <= from <= s.len(),
    ensures
        from <= first_of(s, from, a, b) <= s.len(),
        forall|k: int| from <= k < first_of(s, from, a, b) ==> s[k] != a && s[k] != b,
        first_of(s, from, a, b) < s.len() ==> s[first_of(s, from, a, b)] == a || s[first_of(
            s,
            from,
            a,
            b,
        )] == b,
    decreases s.len() - from,
{
    if from < s.len() && s[from] != a && s[from] != b {
        lemma_first_of_bounds(s, from + 1, a, b);
    }
}

/// Any position that meets the three conditions of `lemma_first_of_bounds` is
/// the one `first_of` returns.
pub proof fn lemma_first_of_is(s: Seq<char>, from: int, a: char, b: char, at: int)
    requires
        0 <= from <= at <= s.len(),
        forall|k: int| from <= k < at ==> s[k] != a && s[k] != b,
        at < s.len() ==> s[at] == a || s[at] == b,
    ensures
        first_of(s, from, a, b) == at,
    decreases at - from,
{
    if from < at {
        lemma_first_of_is(s, from + 1, a, b, at);
    }
}

/// What `skip_spaces` returns, stated without recursion.
pub proof fn lemma_skip_spaces_bounds(s: Seq<char>, from: int)
    requires
        0 <= from <= s.len(),
    ensures
        from <= skip_spaces(s, from) <= s.len(),
        forall|k: int| from <= k < skip_spaces(s, from) ==> is_space(s[k]),
        skip_spaces(s, from) < s.len() ==> !is_space(s[skip_spaces(s, from)]),
    decreases s.len() - from,
{
    if from < s.len() && is_space(s[from]) {
        lemma_skip_spaces_bounds(s, from + 1);
    }
}

/// Scans `input` from `from` for the first `a` or `b`.
pub fn find_either(input: &[char], from: usize, a: char, b: char) -> (at: usize)
    ensures
        at == first_of(input@, from as int, a, b),
        from <= input@.len() ==> from <= at <= input@.len(),
{
    if from >= input.len() {
        return from;
    }
    let mut i: usize = from;
    while i < input.len() && input[i] != a && input[i] != b
        invariant
            from <= i <= input@.len(),
            first_of(input@, from as int, a, b) == first_of(input@, i as int, a, b),
        decreases input@.len() - i,
    {
        i += 1;
    }
    i
}

/// Steps over the run of separator characters that starts at `from`.
pub fn skip_whitespace(input: &[char], from: usize) -> (at: usize)
    ensures
        at == skip_spaces(input@, from as int),
        from <= input@.len() ==> from <= at <= input@.len(),
{
    if from >= input.len() {
        return from;
    }
    let mut i: usize = from;
    while i < input.len() && (input[i] == ' ' || input[i] == '\t' || input[i] == '\r' || input[i]
        == '\n')
        invariant
            from <= i <= input@.len(),
            skip_spaces(input@, from as int) == skip_spaces(input@, i as int),
        decreases input@.len() - i,
    {
        i += 1;
    }
    i
}

} // verus!
