//! Scanning a line for delimiters: the first construct on a line, the close
//! of a string, the balance of nested comments, the end of an embedded region.
use vstd::prelude::*;

use crate::language::{
    nonempty_pairs, nonempty_tokens, pairs_view, strs_view, sublang_delims, sublang_view, LanguageSyntax, SyntaxModel, SyntaxPair,
    SyntaxType, LanguageType,
};
use crate::text::{has_prefix_at, has_token_at, prefix_at, token_at};

verus! {

/// The left tokens of a pair table.
pub open spec fn lefts(ps: Seq<(Seq<char>, Seq<char>)>) -> Seq<Seq<char>> {
    Seq::new(ps.len(), |i: int| ps[i].0)
}

/// The right tokens of a pair table.
pub open spec fn rights(ps: Seq<(Seq<char>, Seq<char>)>) -> Seq<Seq<char>> {
    Seq::new(ps.len(), |i: int| ps[i].1)
}

/// The index of the first token of `toks`, from index `i` on, that matches at `p`.
pub open spec fn first_token_from(toks: Seq<Seq<char>>, s: Seq<char>, p: int, i: int) -> Option<
    int,
>
    decreases toks.len() - i,
{
    if i < 0 || i >= toks.len() {
        None
    } else if token_at(s, p, toks[i]) {
        Some(i)
    } else {
        first_token_from(toks, s, p, i + 1)
    }
}

/// The index of the first token of `toks` that matches at `p`: the first match
/// in table order wins, not the longest.
pub open spec fn first_token(toks: Seq<Seq<char>>, s: Seq<char>, p: int) -> Option<int> {
    first_token_from(toks, s, p, 0)
}

pub proof fn lemma_first_token_from(toks: Seq<Seq<char>>, s: Seq<char>, p: int, i: int)
    requires
        0 <= i,
    ensures
        match first_token_from(toks, s, p, i) {
            Some(j) => i <= j < toks.len() && token_at(s, p, toks[j]),
            None => true,
        },
    decreases toks.len() - i,
{
    if i < toks.len() && !token_at(s, p, toks[i]) {
        lemma_first_token_from(toks, s, p, i + 1);
    }
}

/// What a matched token says of the index it returned.
pub proof fn lemma_first_token(toks: Seq<Seq<char>>, s: Seq<char>, p: int)
    ensures
        match first_token(toks, s, p) {
            Some(j) => 0 <= j < toks.len() && token_at(s, p, toks[j]) && toks[j].len() > 0,
            None => true,
        },
{
    lemma_first_token_from(toks, s, p, 0);
}

/// An optional index as a mathematical integer.
pub open spec fn opt_int(o: Option<usize>) -> Option<int> {
    match o {
        Some(i) => Some(i as int),
        None => None,
    }
}

/// First of the string tokens `toks` that matches at `p`.
pub fn first_str_token(toks: &Vec<&'static str>, s: &Vec<char>, p: usize) -> (r: Option<usize>)
    requires
        nonempty_tokens(strs_view(toks@)),
    ensures
        opt_int(r) == first_token(strs_view(toks@), s@, p as int),
{
    let ghost tv = strs_view(toks@);
    let mut i: usize = 0;
    while i < toks.len()
        invariant
            i <= toks@.len(),
            tv == strs_view(toks@),
            first_token(tv, s@, p as int) == first_token_from(tv, s@, p as int, i as int),
        decreases toks.len() - i,
    {
        if has_token_at(s, p, toks[i]) {
            return Some(i);
        }
        i = i + 1;
    }
    None
}

/// First pair whose left (or, with `by_right`, right) token matches at `p`.
pub fn first_pair_token(pairs: &Vec<SyntaxPair>, s: &Vec<char>, p: usize, by_right: bool) -> (r:
    Option<usize>)
    requires
        nonempty_pairs(pairs_view(pairs@)),
    ensures
        opt_int(r) == first_token(
            if by_right {
                rights(pairs_view(pairs@))
            } else {
                lefts(pairs_view(pairs@))
            },
            s@,
            p as int,
        ),
{
    let ghost tv = if by_right {
        rights(pairs_view(pairs@))
    } else {
        lefts(pairs_view(pairs@))
    };
    let mut i: usize = 0;
    while i < pairs.len()
        invariant
            i <= pairs@.len(),
            tv == (if by_right {
                rights(pairs_view(pairs@))
            } else {
                lefts(pairs_view(pairs@))
            }),
            first_token(tv, s@, p as int) == first_token_from(tv, s@, p as int, i as int),
        decreases pairs.len() - i,
    {
        let t = if by_right {
            pairs[i].right
        } else {
            pairs[i].left
        };
        if has_token_at(s, p, t) {
            return Some(i);
        }
        i = i + 1;
    }
    None
}

/// First sub-language entry whose opening token matches at `p`.
pub fn first_sublang_token(pairs: &Vec<(SyntaxPair, LanguageType)>, s: &Vec<char>, p: usize) -> (r:
    Option<usize>)
    requires
        nonempty_pairs(sublang_delims(sublang_view(pairs@))),
    ensures
        opt_int(r) == first_token(lefts(sublang_delims(sublang_view(pairs@))), s@, p as int),
{
    let ghost tv = lefts(sublang_delims(sublang_view(pairs@)));
    let mut i: usize = 0;
    while i < pairs.len()
        invariant
            i <= pairs@.len(),
            tv == lefts(sublang_delims(sublang_view(pairs@))),
            first_token(tv, s@, p as int) == first_token_from(tv, s@, p as int, i as int),
        decreases pairs.len() - i,
    {
        if has_token_at(s, p, pairs[i].0.left) {
            return Some(i);
        }
        i = i + 1;
    }
    None
}

} // verus!

verus! {

/// The construct that starts at `p`, with the index of its entry in its table.
/// Families are tried in a fixed order: sub-language, documentation block
/// comment, block comment, literal string, documentation string, string,
/// documentation line comment, line comment.
pub open spec fn construct_at(m: SyntaxModel, s: Seq<char>, p: int) -> Option<(SyntaxType, int)> {
    let sl = first_token(lefts(sublang_delims(m.sublang_pairs)), s, p);
    let dm = first_token(lefts(m.doc_comment_pairs), s, p);
    let mc = first_token(lefts(m.comment_pairs), s, p);
    let lq = first_token(lefts(m.literal_quote_pairs), s, p);
    let dq = first_token(lefts(m.doc_quote_pairs), s, p);
    let nq = first_token(lefts(m.quote_pairs), s, p);
    let dc = first_token(m.doc_comment, s, p);
    let sc = first_token(m.simple_comment, s, p);
    if sl is Some {
        Some((SyntaxType::SubLanguage, sl->0))
    } else if dm is Some {
        Some((SyntaxType::DocMultiComment, dm->0))
    } else if mc is Some {
        Some((SyntaxType::MultiComment, mc->0))
    } else if lq is Some {
        Some((SyntaxType::LitString, lq->0))
    } else if dq is Some {
        Some((SyntaxType::DocString, dq->0))
    } else if nq is Some {
        Some((SyntaxType::String, nq->0))
    } else if dc is Some {
        Some((SyntaxType::DocComment, dc->0))
    } else if sc is Some {
        Some((SyntaxType::SimpleComment, sc->0))
    } else {
        None
    }
}

/// The first construct at or after `p`: its position, kind and table index.
pub open spec fn next_construct(m: SyntaxModel, s: Seq<char>, p: int) -> Option<
    (int, SyntaxType, int),
>
    decreases s.len() - p,
{
    if p < 0 || p >= s.len() {
        None
    } else {
        match construct_at(m, s, p) {
            Some((k, i)) => Some((p, k, i)),
            None => next_construct(m, s, p + 1),
        }
    }
}

/// The opening token of the construct of kind `k` at index `i` of its table.
pub open spec fn opener(m: SyntaxModel, k: SyntaxType, i: int) -> Seq<char> {
    match k {
        SyntaxType::SubLanguage => m.sublang_pairs[i].0.0,
        SyntaxType::DocMultiComment => m.doc_comment_pairs[i].0,
        SyntaxType::MultiComment => m.comment_pairs[i].0,
        SyntaxType::LitString => m.literal_quote_pairs[i].0,
        SyntaxType::DocString => m.doc_quote_pairs[i].0,
        SyntaxType::String => m.quote_pairs[i].0,
        SyntaxType::DocComment => m.doc_comment[i],
        _ => m.simple_comment[i],
    }
}

/// A construct found at `q` has a real entry, and its opening token matches there.
pub proof fn lemma_construct_at(m: SyntaxModel, s: Seq<char>, q: int)
    ensures
        match construct_at(m, s, q) {
            Some((k, i)) => {
                &&& k is SubLanguage ==> 0 <= i < m.sublang_pairs.len()
                &&& k is DocMultiComment ==> 0 <= i < m.doc_comment_pairs.len()
                &&& k is MultiComment ==> 0 <= i < m.comment_pairs.len()
                &&& k is LitString ==> 0 <= i < m.literal_quote_pairs.len()
                &&& k is DocString ==> 0 <= i < m.doc_quote_pairs.len()
                &&& k is String ==> 0 <= i < m.quote_pairs.len()
                &&& k is DocComment ==> 0 <= i < m.doc_comment.len()
                &&& k is SimpleComment ==> 0 <= i < m.simple_comment.len()
                &&& token_at(s, q, opener(m, k, i))
            },
            None => true,
        },
{
    lemma_first_token(lefts(sublang_delims(m.sublang_pairs)), s, q);
    lemma_first_token(lefts(m.doc_comment_pairs), s, q);
    lemma_first_token(lefts(m.comment_pairs), s, q);
    lemma_first_token(lefts(m.literal_quote_pairs), s, q);
    lemma_first_token(lefts(m.doc_quote_pairs), s, q);
    lemma_first_token(lefts(m.quote_pairs), s, q);
    lemma_first_token(m.doc_comment, s, q);
    lemma_first_token(m.simple_comment, s, q);
}

/// What the first construct after `p` is: at or after `p`, none before it.
pub proof fn lemma_next_construct(m: SyntaxModel, s: Seq<char>, p: int)
    requires
        0 <= p,
    ensures
        match next_construct(m, s, p) {
            Some((q, k, i)) => p <= q < s.len() && construct_at(m, s, q) == Some((k, i)),
            None => true,
        },
    decreases s.len() - p,
{
    if p < s.len() && construct_at(m, s, p) is None {
        lemma_next_construct(m, s, p + 1);
    }
}

/// The construct that starts at `p`.
pub fn find_construct_at(syn: &LanguageSyntax, s: &Vec<char>, p: usize) -> (r: Option<
    (SyntaxType, usize),
>)
    requires
        syn@.wf(),
    ensures
        match r {
            Some((k, i)) => construct_at(syn@, s@, p as int) == Some((k, i as int)),
            None => construct_at(syn@, s@, p as int) is None,
        },
{
    if let Some(i) = first_sublang_token(&syn.sublang_pairs, s, p) {
        return Some((SyntaxType::SubLanguage, i));
    }
    if let Some(i) = first_pair_token(&syn.doc_comment_pairs, s, p, false) {
        return Some((SyntaxType::DocMultiComment, i));
    }
    if let Some(i) = first_pair_token(&syn.comment_pairs, s, p, false) {
        return Some((SyntaxType::MultiComment, i));
    }
    if let Some(i) = first_pair_token(&syn.literal_quote_pairs, s, p, false) {
        return Some((SyntaxType::LitString, i));
    }
    if let Some(i) = first_pair_token(&syn.doc_quote_pairs, s, p, false) {
        return Some((SyntaxType::DocString, i));
    }
    if let Some(i) = first_pair_token(&syn.quote_pairs, s, p, false) {
        return Some((SyntaxType::String, i));
    }
    if let Some(i) = first_str_token(&syn.doc_comment, s, p) {
        return Some((SyntaxType::DocComment, i));
    }
    if let Some(i) = first_str_token(&syn.simple_comment, s, p) {
        return Some((SyntaxType::SimpleComment, i));
    }
    None
}

/// The first construct at or after `p`.
pub fn find_next_construct(syn: &LanguageSyntax, s: &Vec<char>, p: usize) -> (r: Option<
    (usize, SyntaxType, usize),
>)
    requires
        syn@.wf(),
    ensures
        match r {
            Some((q, k, i)) => next_construct(syn@, s@, p as int) == Some((q as int, k, i as int)),
            None => next_construct(syn@, s@, p as int) is None,
        },
{
    let mut q: usize = p;
    while q < s.len()
        invariant
            p <= q,
            syn@.wf(),
            next_construct(syn@, s@, p as int) == next_construct(syn@, s@, q as int),
        decreases s.len() - q,
    {
        if let Some((k, i)) = find_construct_at(syn, s, q) {
            return Some((q, k, i));
        }
        q = q + 1;
    }
    None
}

} // verus!

verus! {

/// Where a literal (raw) string closes, scanning from `p`: only the closing
/// token ends it, and a doubled quote `""` is skipped as an embedded quote.
/// The result is the position just after the closing token.
pub open spec fn literal_close(s: Seq<char>, p: int, right: Seq<char>) -> Option<int>
    decreases s.len() - p,
{
    if p < 0 || p >= s.len() {
        None
    } else if prefix_at(s, p, seq!['"', '"']) {
        literal_close(s, p + 2, right)
    } else if token_at(s, p, right) {
        Some(p + right.len())
    } else {
        literal_close(s, p + 1, right)
    }
}

/// Where an ordinary string closing with `right` closes, scanning from `p`:
/// an escaped backslash before the closing token (`\\` then `right`) closes
/// it, an escaped closing token (`\` then `right`) does not, and otherwise
/// the closing token does. The result is the position just after the close.
pub open spec fn normal_close(s: Seq<char>, p: int, right: Seq<char>) -> Option<int>
    decreases s.len() - p,
{
    if p < 0 || p >= s.len() {
        None
    } else if right.len() > 0 && prefix_at(s, p, seq!['\\', '\\'] + right) {
        Some(p + 2 + right.len())
    } else if right.len() > 0 && prefix_at(s, p, seq!['\\'] + right) {
        normal_close(s, p + 1 + right.len(), right)
    } else if token_at(s, p, right) {
        Some(p + right.len())
    } else {
        normal_close(s, p + 1, right)
    }
}

/// A string close lies after the start and within the line.
pub proof fn lemma_string_close(s: Seq<char>, p: int, right: Seq<char>, literal: bool)
    requires
        0 <= p,
    ensures
        match (if literal {
            literal_close(s, p, right)
        } else {
            normal_close(s, p, right)
        }) {
            Some(e) => p < e <= s.len(),
            None => true,
        },
    decreases s.len() - p,
{
    if p < s.len() {
        if literal {
            if prefix_at(s, p, seq!['"', '"']) {
                lemma_string_close(s, p + 2, right, literal);
            } else if !token_at(s, p, right) {
                lemma_string_close(s, p + 1, right, literal);
            }
        } else {
            if right.len() > 0 && prefix_at(s, p, seq!['\\', '\\'] + right) {
            } else if right.len() > 0 && prefix_at(s, p, seq!['\\'] + right) {
                lemma_string_close(s, p + 1 + right.len(), right, literal);
            } else if !token_at(s, p, right) {
                lemma_string_close(s, p + 1, right, literal);
            }
        }
    }
}

fn chars_at2(s: &Vec<char>, p: usize, a: char, b: char) -> (r: bool)
    ensures
        r == prefix_at(s@, p as int, seq![a, b]),
{
    if p < s.len() && s.len() - p >= 2 && s[p] == a && s[p + 1] == b {
        assert(s@.subrange(p as int, p + 2) =~= seq![a, b]);
        true
    } else {
        if p < s.len() && s.len() - p >= 2 {
            assert(s@.subrange(p as int, p + 2)[0] == s@[p as int]);
            assert(s@.subrange(p as int, p + 2)[1] == s@[p + 1]);
        }
        false
    }
}

/// `t` occurs in `s` at `p` exactly when its first part occurs there and
/// its second part follows.
pub proof fn lemma_prefix_concat(s: Seq<char>, p: int, a: Seq<char>, b: Seq<char>)
    ensures
        prefix_at(s, p, a + b) <==> prefix_at(s, p, a) && prefix_at(s, p + a.len(), b),
{
    if prefix_at(s, p, a + b) {
        assert(s.subrange(p, p + a.len()) =~= (a + b).subrange(0, a.len() as int));
        assert((a + b).subrange(0, a.len() as int) =~= a);
        assert(s.subrange(p + a.len(), p + a.len() + b.len()) =~= (a + b).subrange(
            a.len() as int,
            (a + b).len() as int,
        ));
        assert((a + b).subrange(a.len() as int, (a + b).len() as int) =~= b);
    }
    if prefix_at(s, p, a) && prefix_at(s, p + a.len(), b) {
        assert(s.subrange(p, p + (a + b).len()) =~= a + b) by {
            assert forall|i: int| 0 <= i < (a + b).len() implies s.subrange(p, p + (a + b).len())[i]
                == (a + b)[i] by {
                if i < a.len() {
                    assert(s.subrange(p, p + a.len())[i] == a[i]);
                } else {
                    assert(s.subrange(p + a.len(), p + a.len() + b.len())[i - a.len()] == b[i - a.len()]);
                }
            }
        }
    }
}

/// Whether `count` backslashes (one or two) followed by `t` occur at `p`.
fn escaped_at(s: &Vec<char>, p: usize, count: usize, t: &str) -> (r: bool)
    requires
        count == 1 || count == 2,
    ensures
        count == 1 ==> r == prefix_at(s@, p as int, seq!['\\'] + t@),
        count == 2 ==> r == prefix_at(s@, p as int, seq!['\\', '\\'] + t@),
{
    let ghost bs = if count == 1 { seq!['\\'] } else { seq!['\\', '\\'] };
    proof {
        lemma_prefix_concat(s@, p as int, bs, t@);
    }
    if p >= s.len() || s.len() - p < count {
        return false;
    }
    let head = if count == 1 {
        s[p] == '\\'
    } else {
        s[p] == '\\' && s[p + 1] == '\\'
    };
    proof {
        if count == 1 {
            if head {
                assert(s@.subrange(p as int, p + 1) =~= bs);
            } else {
                assert(s@.subrange(p as int, p + 1)[0] == s@[p as int]);
            }
        } else {
            if head {
                assert(s@.subrange(p as int, p + 2) =~= bs);
            } else {
                assert(s@.subrange(p as int, p + 2)[0] == s@[p as int]);
                assert(s@.subrange(p as int, p + 2)[1] == s@[p + 1]);
            }
        }
    }
    head && has_prefix_at(s, p + count, t)
}

/// Where a literal string closing with `right` ends on this line, from `p`.
pub fn litral_string(s: &Vec<char>, p: usize, right: &str) -> (r: Option<usize>)
    ensures
        opt_int(r) == literal_close(s@, p as int, right@),
{
    let mut q: usize = p;
    while q < s.len()
        invariant
            literal_close(s@, p as int, right@) == literal_close(s@, q as int, right@),
        decreases s.len() - q,
    {
        if chars_at2(s, q, '"', '"') {
            q = q + 2;
        } else if has_token_at(s, q, right) {
            return Some(q + right.unicode_len());
        } else {
            q = q + 1;
        }
    }
    None
}

/// Where an ordinary string closing with `right` ends on this line, from `p`.
pub fn normal_string(s: &Vec<char>, p: usize, right: &str) -> (r: Option<usize>)
    ensures
        opt_int(r) == normal_close(s@, p as int, right@),
{
    let mut q: usize = p;
    while q < s.len()
        invariant
            normal_close(s@, p as int, right@) == normal_close(s@, q as int, right@),
        decreases s.len() - q,
    {
        let n = right.unicode_len();
        if n > 0 && escaped_at(s, q, 2, right) {
            return Some(q + 2 + n);
        } else if n > 0 && escaped_at(s, q, 1, right) {
            q = q + 1 + n;
        } else if has_token_at(s, q, right) {
            return Some(q + right.unicode_len());
        } else {
            q = q + 1;
        }
    }
    None
}

/// The first position at or after `p` where the token `t` matches.
pub open spec fn find_token(s: Seq<char>, p: int, t: Seq<char>) -> Option<int>
    decreases s.len() - p,
{
    if p < 0 || p >= s.len() {
        None
    } else if token_at(s, p, t) {
        Some(p)
    } else {
        find_token(s, p + 1, t)
    }
}

pub proof fn lemma_find_token(s: Seq<char>, p: int, t: Seq<char>)
    requires
        0 <= p,
    ensures
        match find_token(s, p, t) {
            Some(q) => p <= q && token_at(s, q, t),
            None => true,
        },
    decreases s.len() - p,
{
    if p < s.len() && !token_at(s, p, t) {
        lemma_find_token(s, p + 1, t);
    }
}

/// The first position at or after `p` where `t` matches.
pub fn search_token(s: &Vec<char>, p: usize, t: &str) -> (r: Option<usize>)
    ensures
        opt_int(r) == find_token(s@, p as int, t@),
{
    let mut q: usize = p;
    while q < s.len()
        invariant
            find_token(s@, p as int, t@) == find_token(s@, q as int, t@),
        decreases s.len() - q,
    {
        if has_token_at(s, q, t) {
            return Some(q);
        }
        q = q + 1;
    }
    None
}

} // verus!

verus! {

/// The state of a nested block comment: the opening tokens not yet matched
/// (`leading`) and the closing tokens counted on their own (`trailing`).
/// The comment is closed when both hold as many tokens.
pub struct Balance {
    pub leading: Seq<Seq<char>>,
    pub trailing: Seq<Seq<char>>,
}

/// The block-comment pairs that take part in balancing: documentation pairs first.
pub open spec fn comment_tables(m: SyntaxModel) -> Seq<(Seq<char>, Seq<char>)> {
    m.doc_comment_pairs + m.comment_pairs
}

/// The comment delimiter at `p`, and whether it opens. Closers are tried
/// before openers, documentation pairs before ordinary ones.
pub open spec fn comment_token_at(m: SyntaxModel, s: Seq<char>, p: int) -> Option<(Seq<char>, bool)> {
    let dr = first_token(rights(m.doc_comment_pairs), s, p);
    let cr = first_token(rights(m.comment_pairs), s, p);
    let dl = first_token(lefts(m.doc_comment_pairs), s, p);
    let cl = first_token(lefts(m.comment_pairs), s, p);
    if dr is Some {
        Some((m.doc_comment_pairs[dr->0].1, false))
    } else if cr is Some {
        Some((m.comment_pairs[cr->0].1, false))
    } else if dl is Some {
        Some((m.doc_comment_pairs[dl->0].0, true))
    } else if cl is Some {
        Some((m.comment_pairs[cl->0].0, true))
    } else {
        None
    }
}

pub proof fn lemma_comment_token_at(m: SyntaxModel, s: Seq<char>, p: int)
    ensures
        match comment_token_at(m, s, p) {
            Some((t, _)) => token_at(s, p, t),
            None => true,
        },
{
    lemma_first_token(rights(m.doc_comment_pairs), s, p);
    lemma_first_token(rights(m.comment_pairs), s, p);
    lemma_first_token(lefts(m.doc_comment_pairs), s, p);
    lemma_first_token(lefts(m.comment_pairs), s, p);
}

/// `l` is an open token that a pair of the comment tables closes with `c`.
pub open spec fn is_candidate(m: SyntaxModel, leading: Seq<Seq<char>>, c: Seq<char>, l: Seq<char>) -> bool {
    leading.contains(l) && comment_tables(m).contains((l, c))
}

/// Exactly one open token is closed by `c`.
pub open spec fn has_sole_candidate(m: SyntaxModel, leading: Seq<Seq<char>>, c: Seq<char>) -> bool {
    exists|l: Seq<char>|
        #[trigger] is_candidate(m, leading, c, l) && forall|l2: Seq<char>|
            #[trigger] is_candidate(m, leading, c, l2) ==> l2 == l
}

/// The one open token closed by `c` (see `has_sole_candidate`).
pub open spec fn sole_candidate(m: SyntaxModel, leading: Seq<Seq<char>>, c: Seq<char>) -> Seq<char> {
    choose|l: Seq<char>|
        #[trigger] is_candidate(m, leading, c, l) && forall|l2: Seq<char>|
            #[trigger] is_candidate(m, leading, c, l2) ==> l2 == l
}

/// The first index of `t` in `s`.
pub open spec fn first_index(s: Seq<Seq<char>>, t: Seq<char>) -> int {
    choose|i: int| 0 <= i < s.len() && s[i] == t && forall|j: int| 0 <= j < i ==> s[j] != t
}

/// One delimiter `t` seen inside a block comment. An opener is counted as
/// leading. A closer whose only open candidate is one token takes one
/// occurrence of that token off the leading count; any other closer is
/// counted as trailing.
pub open spec fn balance_step(m: SyntaxModel, b: Balance, t: Seq<char>, open: bool) -> Balance {
    if open {
        Balance { leading: b.leading.push(t), trailing: b.trailing }
    } else if has_sole_candidate(m, b.leading, t) {
        Balance {
            leading: b.leading.remove(first_index(b.leading, sole_candidate(m, b.leading, t))),
            trailing: b.trailing,
        }
    } else {
        Balance { leading: b.leading, trailing: b.trailing.push(t) }
    }
}

/// Scans a line from `p` inside a block comment. Returns the position where
/// the comment is closed (leading and trailing counts equal), or `None` when
/// the line ends first, with the balance reached.
pub open spec fn comment_scan(m: SyntaxModel, s: Seq<char>, p: int, b: Balance) -> (Option<int>, Balance)
    decreases s.len() - p,
{
    if b.leading.len() == b.trailing.len() {
        (Some(p), b)
    } else if p < 0 || p >= s.len() {
        (None, b)
    } else {
        match comment_token_at(m, s, p) {
            Some((t, open)) => {
                proof {
                    lemma_comment_token_at(m, s, p);
                }
                comment_scan(m, s, p + t.len(), balance_step(m, b, t, open))
            },
            None => comment_scan(m, s, p + 1, b),
        }
    }
}

pub proof fn lemma_comment_scan(m: SyntaxModel, s: Seq<char>, p: int, b: Balance)
    requires
        0 <= p <= s.len(),
    ensures
        match comment_scan(m, s, p, b).0 {
            Some(e) => p <= e <= s.len() && (e == p ==> b.leading.len() == b.trailing.len()),
            None => true,
        },
    decreases s.len() - p,
{
    if b.leading.len() != b.trailing.len() && p < s.len() {
        lemma_comment_token_at(m, s, p);
        match comment_token_at(m, s, p) {
            Some((t, open)) => lemma_comment_scan(m, s, p + t.len(), balance_step(m, b, t, open)),
            None => lemma_comment_scan(m, s, p + 1, b),
        }
    }
}

/// The view of a list of tokens.
pub open spec fn balance_of(leading: Seq<&'static str>, trailing: Seq<&'static str>) -> Balance {
    Balance { leading: strs_view(leading), trailing: strs_view(trailing) }
}

/// The comment delimiter at `p`, and whether it opens.
fn find_comment_token(syn: &LanguageSyntax, s: &Vec<char>, p: usize) -> (r: Option<(&'static str, bool)>)
    requires
        syn@.wf(),
    ensures
        match r {
            Some((t, o)) => comment_token_at(syn@, s@, p as int) == Some((t@, o)),
            None => comment_token_at(syn@, s@, p as int) is None,
        },
{
    proof {
        lemma_first_token(rights(syn@.doc_comment_pairs), s@, p as int);
        lemma_first_token(rights(syn@.comment_pairs), s@, p as int);
        lemma_first_token(lefts(syn@.doc_comment_pairs), s@, p as int);
        lemma_first_token(lefts(syn@.comment_pairs), s@, p as int);
    }
    if let Some(i) = first_pair_token(&syn.doc_comment_pairs, s, p, true) {
        return Some((syn.doc_comment_pairs[i].right, false));
    }
    if let Some(i) = first_pair_token(&syn.comment_pairs, s, p, true) {
        return Some((syn.comment_pairs[i].right, false));
    }
    if let Some(i) = first_pair_token(&syn.doc_comment_pairs, s, p, false) {
        return Some((syn.doc_comment_pairs[i].left, true));
    }
    if let Some(i) = first_pair_token(&syn.comment_pairs, s, p, false) {
        return Some((syn.comment_pairs[i].left, true));
    }
    None
}

/// Whether a pair of the comment tables opens with `l` and closes with `c`.
fn closes_with(syn: &LanguageSyntax, l: &str, c: &str) -> (r: bool)
    ensures
        r == comment_tables(syn@).contains((l@, c@)),
{
    let ghost ct = comment_tables(syn@);
    let ghost nd = syn.doc_comment_pairs@.len();
    let mut i: usize = 0;
    while i < syn.doc_comment_pairs.len()
        invariant
            ct == comment_tables(syn@),
            nd == syn.doc_comment_pairs@.len(),
            i <= nd,
            forall|j: int| 0 <= j < i ==> ct[j] != (l@, c@),
        decreases syn.doc_comment_pairs.len() - i,
    {
        if str_eq_both(&syn.doc_comment_pairs[i], l, c) {
            assert(ct[i as int] == (l@, c@));
            return true;
        }
        i = i + 1;
    }
    let mut i: usize = 0;
    while i < syn.comment_pairs.len()
        invariant
            ct == comment_tables(syn@),
            nd == syn.doc_comment_pairs@.len(),
            i <= syn.comment_pairs@.len(),
            forall|j: int| 0 <= j < nd + i ==> ct[j] != (l@, c@),
        decreases syn.comment_pairs.len() - i,
    {
        if str_eq_both(&syn.comment_pairs[i], l, c) {
            assert(ct[nd + i] == (l@, c@));
            return true;
        }
        i = i + 1;
    }
    assert(!ct.contains((l@, c@)));
    false
}

fn str_eq_both(p: &SyntaxPair, l: &str, c: &str) -> (r: bool)
    ensures
        r == (p@ == (l@, c@)),
{
    crate::text::str_eq(p.left, l) && crate::text::str_eq(p.right, c)
}

/// The index in `leading` of the one open token that `c` closes, if there is
/// exactly one such token; its first occurrence.
fn sole_candidate_index(syn: &LanguageSyntax, leading: &Vec<&'static str>, c: &str) -> (r: Option<usize>)
    ensures
        match r {
            Some(f) => {
                let lv = strs_view(leading@);
                &&& has_sole_candidate(syn@, lv, c@)
                &&& f < lv.len()
                &&& f == first_index(lv, sole_candidate(syn@, lv, c@))
            },
            None => !has_sole_candidate(syn@, strs_view(leading@), c@),
        },
{
    let ghost lv = strs_view(leading@);
    let ghost ct = comment_tables(syn@);
    let mut found: Option<usize> = None;
    let mut many = false;
    let mut j: usize = 0;
    while j < leading.len()
        invariant
            lv == strs_view(leading@),
            ct == comment_tables(syn@),
            j <= lv.len(),
            found is None ==> !many,
            found is None ==> forall|i: int| 0 <= i < j ==> !ct.contains((#[trigger] lv[i], c@)),
            found is Some ==> found->0 < j && ct.contains((lv[found->0 as int], c@)),
            found is Some ==> forall|i: int|
                0 <= i < found->0 ==> !ct.contains((#[trigger] lv[i], c@)),
            found is Some && !many ==> forall|i: int|
                0 <= i < j && ct.contains((#[trigger] lv[i], c@)) ==> lv[i] == lv[found->0 as int],
            found is Some && many ==> exists|i: int|
                0 <= i < j && ct.contains((#[trigger] lv[i], c@)) && lv[i] != lv[found->0 as int],
        decreases leading.len() - j,
    {
        let cw = closes_with(syn, leading[j], c);
        assert(lv[j as int] == leading@[j as int]@);
        if cw {
            match found {
                None => {
                    found = Some(j);
                },
                Some(f) => {
                    if !crate::text::str_eq(leading[f], leading[j]) {
                        assert(lv[f as int] == leading@[f as int]@);
                        assert(ct.contains((lv[j as int], c@)) && lv[j as int] != lv[f as int]);
                        many = true;
                    }
                },
            }
        }
        j = j + 1;
    }
    match found {
        None => {
            proof {
                assert forall|l: Seq<char>| !is_candidate(syn@, lv, c@, l) by {
                    if lv.contains(l) {
                        let i = choose|i: int| 0 <= i < lv.len() && lv[i] == l;
                        assert(!ct.contains((lv[i], c@)));
                    }
                }
            }
            None
        },
        Some(f) => {
            if many {
                proof {
                    let i = choose|i: int|
                        0 <= i < j && ct.contains((#[trigger] lv[i], c@)) && lv[i] != lv[f as int];
                    assert(is_candidate(syn@, lv, c@, lv[i]));
                    assert(is_candidate(syn@, lv, c@, lv[f as int]));
                }
                None
            } else {
                proof {
                let l = lv[f as int];
                assert(is_candidate(syn@, lv, c@, l));
                assert forall|l2: Seq<char>| #[trigger] is_candidate(syn@, lv, c@, l2) implies l2 == l by {
                    let i = choose|i: int| 0 <= i < lv.len() && lv[i] == l2;
                    assert(ct.contains((lv[i], c@)));
                }
                assert(has_sole_candidate(syn@, lv, c@));
                let sc = sole_candidate(syn@, lv, c@);
                assert(sc == l);
                assert forall|i: int| 0 <= i < f implies lv[i] != l by {
                    assert(!ct.contains((lv[i], c@)));
                }
                assert(first_index(lv, l) == f) by {
                    let fi = first_index(lv, l);
                    assert(0 <= f < lv.len() && lv[f as int] == l && forall|i: int| 0 <= i < f ==> lv[i] != l);
                    if fi < f {
                        assert(lv[fi] != l);
                    } else if fi > f {
                        assert(lv[f as int] != l);
                    }
                }
                }
                Some(f)
            }
        },
    }
}

} // verus!

verus! {

/// Scans a line from `p` inside a block comment, updating the open and close
/// counts; returns where the comment closes, or `None` when the line ends first.
pub fn multi_comment(
    syn: &LanguageSyntax,
    s: &Vec<char>,
    p: usize,
    leading: &mut Vec<&'static str>,
    trailing: &mut Vec<&'static str>,
) -> (r: Option<usize>)
    requires
        syn@.wf(),
    ensures
        (opt_int(r), balance_of(final(leading)@, final(trailing)@)) == comment_scan(
            syn@,
            s@,
            p as int,
            balance_of(old(leading)@, old(trailing)@),
        ),
{
    let ghost start = comment_scan(syn@, s@, p as int, balance_of(old(leading)@, old(trailing)@));
    let mut q: usize = p;
    let mut result: Option<usize> = None;
    loop
        invariant_except_break
            start == comment_scan(syn@, s@, q as int, balance_of(leading@, trailing@)),
            syn@.wf(),
            p <= q,
            q > s@.len() ==> q == p,
        ensures
            start == (opt_int(result), balance_of(leading@, trailing@)),
        decreases s@.len() - q,
    {
        assert(balance_of(leading@, trailing@).leading.len() == leading@.len());
        assert(balance_of(leading@, trailing@).trailing.len() == trailing@.len());
        if leading.len() == trailing.len() {
            result = Some(q);
            break;
        }
        if q >= s.len() {
            result = None;
            break;
        }
        proof {
            lemma_comment_token_at(syn@, s@, q as int);
        }
        match find_comment_token(syn, s, q) {
            Some((t, open)) => {
                let ghost b = balance_of(leading@, trailing@);
                if open {
                    leading.push(t);
                    assert(strs_view(leading@) =~= b.leading.push(t@));
                } else {
                    match sole_candidate_index(syn, leading, t) {
                        Some(f) => {
                            leading.remove(f);
                            assert(strs_view(leading@) =~= b.leading.remove(f as int));
                        },
                        None => {
                            trailing.push(t);
                            assert(strs_view(trailing@) =~= b.trailing.push(t@));
                        },
                    }
                }
                assert(balance_of(leading@, trailing@) == balance_step(syn@, b, t@, open));
                q = q + t.unicode_len();
            },
            None => {
                q = q + 1;
            },
        }
    }
    result
}

} // verus!
