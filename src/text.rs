//! Character-level helpers: token matching on lines held as `Vec<char>`.
use vstd::prelude::*;

verus! {

/// Whether a character is horizontal whitespace (a space or a tab).
pub open spec fn is_space(c: char) -> bool {
    c == ' ' || c == '\t'
}

/// Whether every character of `s` in `[from, to)` is horizontal whitespace.
pub open spec fn spaces_only(s: Seq<char>, from: int, to: int) -> bool {
    forall|i: int| from <= i < to ==> #[trigger] is_space(s[i])
}

/// `t` occurs in `s` starting at position `p`.
pub open spec fn prefix_at(s: Seq<char>, p: int, t: Seq<char>) -> bool {
    0 <= p && p + t.len() <= s.len() && s.subrange(p, p + t.len()) == t
}

/// A delimiter token matches at `p`: it is non-empty and occurs there.
/// Well-formed tables have no empty delimiter (see `SyntaxModel::wf`).
pub open spec fn token_at(s: Seq<char>, p: int, t: Seq<char>) -> bool {
    t.len() > 0 && prefix_at(s, p, t)
}

/// Copies the characters of a string into a vector.
pub fn str_to_chars(s: &str) -> (r: Vec<char>)
    ensures
        r@ == s@,
{
    let mut r: Vec<char> = Vec::new();
    for c in it: s.chars()
        invariant
            r@ == it.seq().subrange(0, it.index() as int),
            it.seq() == s@,
    {
        r.push(c);
    }
    r
}

} // verus!

verus! {

/// Whether two strings hold the same characters.
pub fn str_eq(a: &str, b: &str) -> (r: bool)
    ensures
        r == (a@ == b@),
{
    let n = a.unicode_len();
    if n != b.unicode_len() {
        return false;
    }
    let mut i: usize = 0;
    while i < n
        invariant
            n == a@.len(),
            n == b@.len(),
            i <= n,
            forall|j: int| 0 <= j < i ==> a@[j] == b@[j],
        decreases n - i,
    {
        if a.get_char(i) != b.get_char(i) {
            return false;
        }
        i = i + 1;
    }
    assert(a@ =~= b@);
    true
}

/// Whether `t` occurs in `s` at position `p`.
pub fn has_prefix_at(s: &Vec<char>, p: usize, t: &str) -> (r: bool)
    ensures
        r == prefix_at(s@, p as int, t@),
{
    let n = t.unicode_len();
    if p > s.len() || n > s.len() - p {
        return false;
    }
    let mut i: usize = 0;
    while i < n
        invariant
            n == t@.len(),
            p + n <= s.len(),
            i <= n,
            forall|j: int| 0 <= j < i ==> s@[p + j] == t@[j],
        decreases n - i,
    {
        if s[p + i] != t.get_char(i) {
            assert(s@.subrange(p as int, p + n)[i as int] != t@[i as int]);
            return false;
        }
        i = i + 1;
    }
    assert(s@.subrange(p as int, p + n) =~= t@);
    true
}

/// Whether the delimiter `t` matches in `s` at position `p`.
pub fn has_token_at(s: &Vec<char>, p: usize, t: &str) -> (r: bool)
    ensures
        r == token_at(s@, p as int, t@),
{
    if t.is_empty() {
        false
    } else {
        has_prefix_at(s, p, t)
    }
}

/// Whether `s[from..to]` holds only spaces and tabs.
pub fn only_spaces(s: &Vec<char>, from: usize, to: usize) -> (r: bool)
    requires
        from <= to <= s@.len(),
    ensures
        r == spaces_only(s@, from as int, to as int),
{
    let mut i: usize = from;
    while i < to
        invariant
            from <= i <= to <= s@.len(),
            spaces_only(s@, from as int, i as int),
        decreases to - i,
    {
        if s[i] != ' ' && s[i] != '\t' {
            assert(!is_space(s@[i as int]));
            return false;
        }
        i = i + 1;
    }
    true
}

} // verus!
