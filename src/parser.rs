//! The line classifier: a state machine over physical lines that counts code,
//! blank and comment lines, and parses embedded regions with their own syntax.
use vstd::prelude::*;

use crate::error::{CoreError, SyntaxErrorKind};
use crate::language::{strs_view, LanguageSyntax, LanguageType, SyntaxModel, SyntaxType};
use crate::result::{join_stats, zero_stats, ParseResult, Stats};
use crate::scan::{
    balance_of, comment_scan, find_next_construct, find_token, lemma_comment_scan,
    lemma_construct_at, lemma_find_token, lemma_next_construct, lemma_string_close, literal_close,
    litral_string, multi_comment, next_construct, normal_close, normal_string, opener, opt_int,
    search_token, Balance,
};
use crate::text::{has_prefix_at, only_spaces, prefix_at, spaces_only, str_to_chars, token_at};

verus! {

/// The phases of the classifier's loop.
#[derive(Debug, Clone, Copy, PartialEq, Eq, Structural)]
pub enum ParseState {
    Soi,
    Plain,
    Comment,
    String,
    SubLanguage,
    Eoi,
}

/// The cost of the lines from index `k` on: two per character and two per line.
pub open spec fn tail_cost(lines: Seq<Seq<char>>, k: int) -> nat
    decreases lines.len() - k,
{
    if k < 0 || k >= lines.len() {
        0
    } else {
        (2 * lines[k].len() + 2) + tail_cost(lines, k + 1)
    }
}

/// The cost of a whole input.
pub open spec fn lines_cost(lines: Seq<Seq<char>>) -> nat {
    tail_cost(lines, 0)
}

/// The cost of what is left to read: the lines not pulled yet, and the rest of
/// the current line from position `p` when one is pending.
pub open spec fn state_cost(lines: Seq<Seq<char>>, next: int, cur: Option<int>) -> nat {
    tail_cost(lines, next) + match cur {
        Some(p) => if 1 <= next <= lines.len() && 0 <= p <= lines[next - 1].len() {
            (2 * (lines[next - 1].len() - p) + 1) as nat
        } else {
            1
        },
        None => 0,
    }
}

pub proof fn lemma_tail_cost(lines: Seq<Seq<char>>, k: int, j: int)
    requires
        0 <= k <= j,
    ensures
        tail_cost(lines, j) <= tail_cost(lines, k),
        k < lines.len() ==> tail_cost(lines, k) == 2 * lines[k].len() + 2 + tail_cost(lines, k + 1),
        k < j <= lines.len() ==> tail_cost(lines, k) >= tail_cost(lines, j) + 2 * (j - k),
    decreases j - k,
{
    if k < j {
        lemma_tail_cost(lines, k + 1, j);
    }
}

/// Where a block comment opened with `open` closes: scanning line `li` from
/// `start`, then the lines after it. The result is the line of the close and
/// the position just after it.
pub open spec fn comment_end(m: SyntaxModel, lines: Seq<Seq<char>>, li: int, start: int, open: Seq<char>) -> Option<(int, int)> {
    let b0 = Balance { leading: seq![open], trailing: Seq::empty() };
    match comment_scan(m, lines[li], start, b0) {
        (Some(e), _) => Some((li, e)),
        (None, b1) => comment_lines(m, lines, li + 1, b1),
    }
}

/// Where a block comment in the state `b` closes, from line `k` on.
pub open spec fn comment_lines(m: SyntaxModel, lines: Seq<Seq<char>>, k: int, b: Balance) -> Option<(int, int)>
    decreases lines.len() - k,
{
    if k < 0 || k >= lines.len() {
        None
    } else {
        match comment_scan(m, lines[k], 0, b) {
            (Some(e), _) => Some((k, e)),
            (None, b2) => comment_lines(m, lines, k + 1, b2),
        }
    }
}

/// Where a string closes on line `k` from `p`.
pub open spec fn string_close(s: Seq<char>, p: int, right: Seq<char>, literal: bool) -> Option<int> {
    if literal {
        literal_close(s, p, right)
    } else {
        normal_close(s, p, right)
    }
}

/// Where a string closes, from line `k` on, each line scanned from its start.
pub open spec fn string_lines(lines: Seq<Seq<char>>, k: int, right: Seq<char>, literal: bool) -> Option<(int, int)>
    decreases lines.len() - k,
{
    if k < 0 || k >= lines.len() {
        None
    } else {
        match string_close(lines[k], 0, right, literal) {
            Some(e) => Some((k, e)),
            None => string_lines(lines, k + 1, right, literal),
        }
    }
}

/// Where the closing token `right` of an embedded region first occurs, from
/// line `k` on: the line, and the position where the token starts.
pub open spec fn region_lines(lines: Seq<Seq<char>>, k: int, right: Seq<char>) -> Option<(int, int)>
    decreases lines.len() - k,
{
    if k < 0 || k >= lines.len() {
        None
    } else {
        match find_token(lines[k], 0, right) {
            Some(c) => Some((k, c)),
            None => region_lines(lines, k + 1, right),
        }
    }
}

/// The text of an embedded region that starts on line `li` at `start` and
/// ends on line `end.0` where its closing token starts, `end.1`.
pub open spec fn region_content(lines: Seq<Seq<char>>, li: int, start: int, end: (int, int)) -> Seq<Seq<char>> {
    if end.0 == li {
        seq![lines[li].subrange(start, end.1)]
    } else {
        seq![lines[li].subrange(start, lines[li].len() as int)] + lines.subrange(li + 1, end.0)
            + seq![lines[end.0].subrange(0, end.1)]
    }
}

} // verus!

verus! {

pub proof fn lemma_tail_concat(a: Seq<Seq<char>>, b: Seq<Seq<char>>, k: int)
    requires
        0 <= k <= a.len(),
    ensures
        tail_cost(a + b, k) == tail_cost(a, k) + tail_cost(b, 0),
    decreases a.len() - k,
{
    if k < a.len() {
        lemma_tail_concat(a, b, k + 1);
        assert((a + b)[k] == a[k]);
    } else {
        lemma_tail_shift(a, b, 0);
    }
}

proof fn lemma_tail_shift(a: Seq<Seq<char>>, b: Seq<Seq<char>>, j: int)
    requires
        0 <= j <= b.len(),
    ensures
        tail_cost(a + b, a.len() + j) == tail_cost(b, j),
    decreases b.len() - j,
{
    if j < b.len() {
        lemma_tail_shift(a, b, j + 1);
        assert((a + b)[a.len() + j] == b[j]);
    }
}

pub proof fn lemma_tail_sub(lines: Seq<Seq<char>>, i: int, j: int, k: int)
    requires
        0 <= i <= k <= j <= lines.len(),
    ensures
        tail_cost(lines.subrange(i, j), k - i) + tail_cost(lines, j) == tail_cost(lines, k),
    decreases j - k,
{
    if k < j {
        lemma_tail_sub(lines, i, j, k + 1);
        assert(lines.subrange(i, j)[k - i] == lines[k]);
    }
}

pub proof fn lemma_tail_single(x: Seq<char>)
    ensures
        tail_cost(seq![x], 0) == 2 * x.len() + 2,
{
    assert(tail_cost(seq![x], 1) == 0);
}

/// Moving from the rest of line `next - 1` at `p` to the rest of line `k2` at
/// `e` (a later line, or further on the same line) lowers the cost.
pub proof fn lemma_cost_after(lines: Seq<Seq<char>>, next: int, p: int, k2: int, e: int)
    requires
        1 <= next <= lines.len(),
        0 <= p <= lines[next - 1].len(),
        next - 1 <= k2 < lines.len(),
        0 <= e <= lines[k2].len(),
        k2 == next - 1 ==> p < e,
    ensures
        state_cost(lines, k2 + 1, Some(e)) + 2 * (k2 + 1 - next) <= state_cost(lines, next, Some(p)),
        state_cost(lines, k2 + 1, Some(e)) + 2 <= state_cost(lines, next, Some(p)),
{
    if k2 >= next {
        lemma_tail_cost(lines, next, k2);
        lemma_tail_cost(lines, k2, k2 + 1);
    }
}

/// The text of an embedded region costs less than what reading it consumes.
pub proof fn lemma_region_cost(lines: Seq<Seq<char>>, next: int, p: int, start: int, k2: int, c: int, rl: int)
    requires
        1 <= next <= lines.len(),
        0 <= p <= start <= lines[next - 1].len(),
        next - 1 <= k2 < lines.len(),
        0 <= c,
        rl >= 1,
        c + rl <= lines[k2].len(),
        k2 == next - 1 ==> start <= c,
    ensures
        lines_cost(region_content(lines, next - 1, start, (k2, c))) + 2 * (start - p) + state_cost(
            lines,
            k2 + 1,
            Some(c + rl),
        ) <= state_cost(lines, next, Some(p)),
{
    let li = next - 1;
    if k2 == li {
        lemma_tail_single(lines[li].subrange(start, c));
    } else {
        let a = seq![lines[li].subrange(start, lines[li].len() as int)];
        let mid = lines.subrange(li + 1, k2);
        let z = seq![lines[k2].subrange(0, c)];
        lemma_tail_concat(a + mid, z, 0);
        lemma_tail_concat(a, mid, 0);
        lemma_tail_single(lines[li].subrange(start, lines[li].len() as int));
        lemma_tail_single(lines[k2].subrange(0, c));
        lemma_tail_sub(lines, li + 1, k2, li + 1);
        lemma_tail_cost(lines, k2, k2 + 1);
    }
}

pub proof fn lemma_comment_lines(m: SyntaxModel, lines: Seq<Seq<char>>, k: int, b: Balance)
    requires
        0 <= k,
    ensures
        match comment_lines(m, lines, k, b) {
            Some((k2, e)) => k <= k2 < lines.len() && 0 <= e <= lines[k2].len(),
            None => true,
        },
    decreases lines.len() - k,
{
    if k < lines.len() {
        lemma_comment_scan(m, lines[k], 0, b);
        lemma_comment_lines(m, lines, k + 1, comment_scan(m, lines[k], 0, b).1);
    }
}

pub proof fn lemma_comment_end(m: SyntaxModel, lines: Seq<Seq<char>>, li: int, start: int, open: Seq<char>)
    requires
        0 <= li < lines.len(),
        0 <= start <= lines[li].len(),
    ensures
        match comment_end(m, lines, li, start, open) {
            Some((k2, e)) => li <= k2 < lines.len() && 0 <= e <= lines[k2].len() && (k2 == li
                ==> start < e),
            None => true,
        },
{
    let b0 = Balance { leading: seq![open], trailing: Seq::empty() };
    lemma_comment_scan(m, lines[li], start, b0);
    lemma_comment_lines(m, lines, li + 1, comment_scan(m, lines[li], start, b0).1);
}

pub proof fn lemma_string_lines(lines: Seq<Seq<char>>, k: int, right: Seq<char>, literal: bool)
    requires
        0 <= k,
    ensures
        match string_lines(lines, k, right, literal) {
            Some((k2, e)) => k <= k2 < lines.len() && 0 <= e <= lines[k2].len(),
            None => true,
        },
    decreases lines.len() - k,
{
    if k < lines.len() {
        lemma_string_close(lines[k], 0, right, literal);
        lemma_string_lines(lines, k + 1, right, literal);
    }
}

pub proof fn lemma_region_lines(lines: Seq<Seq<char>>, k: int, right: Seq<char>)
    requires
        0 <= k,
    ensures
        match region_lines(lines, k, right) {
            Some((k2, c)) => k <= k2 < lines.len() && 0 <= c && c + right.len() <= lines[k2].len()
                && right.len() > 0,
            None => true,
        },
    decreases lines.len() - k,
{
    if k < lines.len() {
        lemma_find_token(lines[k], 0, right);
        lemma_region_lines(lines, k + 1, right);
    }
}

} // verus!

verus! {

/// Where a string opened on line `li` closes: scanning from `start`, then the
/// following lines from their start.
pub open spec fn string_end(lines: Seq<Seq<char>>, li: int, start: int, right: Seq<char>, literal: bool) -> Option<(int, int)> {
    match string_close(lines[li], start, right, literal) {
        Some(e) => Some((li, e)),
        None => string_lines(lines, li + 1, right, literal),
    }
}

/// Where the closing token of a region opened on line `li` first occurs.
pub open spec fn region_end(lines: Seq<Seq<char>>, li: int, start: int, right: Seq<char>) -> Option<(int, int)> {
    match find_token(lines[li], start, right) {
        Some(c) => Some((li, c)),
        None => region_lines(lines, li + 1, right),
    }
}

/// `acc` with each counter raised by the given amount.
pub open spec fn bump(acc: Stats, code: nat, blank: nat, all: nat, doc: nat, normal: nat, doc_quote: nat) -> Stats {
    Stats {
        code: acc.code + code,
        blank: acc.blank + blank,
        all: acc.all + all,
        doc: acc.doc + doc,
        normal: acc.normal + normal,
        doc_quote: acc.doc_quote + doc_quote,
        sub: acc.sub,
    }
}

/// The statistics of `lines` under the syntax `m`, or the rule they break.
pub open spec fn parse_model(m: SyntaxModel, lines: Seq<Seq<char>>) -> Result<Stats, SyntaxErrorKind>
    decreases lines_cost(lines), 2nat,
{
    run(m, lines, 0, None, false, zero_stats())
}

/// The classifier's main loop. `next` is the index of the next line to pull;
/// `cur`, when present, is where the rest of line `next - 1` starts, left over
/// by a construct that closed on it; `prev` says that the current physical
/// line has already been counted as code; `acc` holds the counts so far.
pub open spec fn run(m: SyntaxModel, lines: Seq<Seq<char>>, next: int, cur: Option<int>, prev: bool, acc: Stats) -> Result<Stats, SyntaxErrorKind>
    decreases state_cost(lines, next, cur), 1nat,
{
    match cur {
        Some(p) => {
            if 1 <= next <= lines.len() && 0 <= p < lines[next - 1].len() {
                segment(m, lines, next, p, false, prev, acc)
            } else {
                run(m, lines, next, None, false, acc)
            }
        },
        None => {
            if 0 <= next < lines.len() {
                proof {
                    lemma_tail_cost(lines, next, next + 1);
                }
                let acc1 = bump(acc, 0, 0, 1, 0, 0, 0);
                match m.line_prefix {
                    Some(pf) => {
                        if prefix_at(lines[next], 0, pf) {
                            segment(m, lines, next + 1, pf.len() as int, true, false, acc1)
                        } else {
                            Err(SyntaxErrorKind::MissingPrefix)
                        }
                    },
                    None => segment(m, lines, next + 1, 0, true, false, acc1),
                }
            } else {
                Ok(acc)
            }
        },
    }
}

/// One step on the rest of line `next - 1` from `p`: a blank rest, plain
/// code, or the first construct found there, handled to its end. `is_new`
/// says that the rest is a freshly pulled line rather than a remainder.
pub open spec fn segment(m: SyntaxModel, lines: Seq<Seq<char>>, next: int, p: int, is_new: bool, prev: bool, acc: Stats) -> Result<Stats, SyntaxErrorKind>
    decreases state_cost(lines, next, Some(p)), 0nat,
{
    if !(1 <= next <= lines.len() && 0 <= p <= lines[next - 1].len()) {
        Ok(acc)
    } else {
        let li = next - 1;
        let s = lines[li];
        if spaces_only(s, p, s.len() as int) {
            run(m, lines, next, None, prev, if !prev && is_new { bump(acc, 0, 1, 0, 0, 0, 0) } else { acc })
        } else {
            match next_construct(m, s, p) {
                None => {
                    if !prev {
                        run(m, lines, next, None, false, bump(acc, 1, 0, 0, 0, 0, 0))
                    } else {
                        run(m, lines, next, None, prev, acc)
                    }
                },
                Some((q, k, i)) => {
                    proof {
                        lemma_next_construct(m, s, p);
                        lemma_construct_at(m, s, q);
                    }
                    let cc = !prev && !(k == SyntaxType::DocString || k == SyntaxType::LitString || k
                        == SyntaxType::String) && q > p && !spaces_only(s, p, q);
                    let prev1 = prev || cc;
                    let acc1 = if cc { bump(acc, 1, 0, 0, 0, 0, 0) } else { acc };
                    let start = q + opener(m, k, i).len();
                    if k == SyntaxType::SubLanguage {
                        let right = m.sublang_pairs[i].0.1;
                        let lang = m.sublang_pairs[i].1;
                        match region_end(lines, li, start, right) {
                            None => Err(SyntaxErrorKind::UnterminatedSubLanguage),
                            Some((k2, c)) => {
                                proof {
                                    lemma_find_token(s, start, right);
                                    lemma_region_lines(lines, next, right);
                                    lemma_region_cost(lines, next, p, start, k2, c, right.len() as int);
                                }
                                match parse_model(lang.syntax_model(), region_content(lines, li, start, (k2, c))) {
                                    Err(e) => Err(e),
                                    Ok(sub) => {
                                        let acc2 = join_stats(acc1, lang, sub);
                                        let acc3 = Stats { all: (acc2.all - 1) as nat, ..acc2 };
                                        run(m, lines, k2 + 1, Some(c + right.len()), k2 == li && prev1, acc3)
                                    },
                                }
                            },
                        }
                    } else if k == SyntaxType::DocMultiComment || k == SyntaxType::MultiComment {
                        let doc: nat = if k == SyntaxType::DocMultiComment { 1 } else { 0 };
                        let normal: nat = if k == SyntaxType::DocMultiComment { 0 } else { 1 };
                        match comment_end(m, lines, li, start, opener(m, k, i)) {
                            None => Err(SyntaxErrorKind::UnterminatedComment),
                            Some((k2, e)) => {
                                proof {
                                    lemma_comment_end(m, lines, li, start, opener(m, k, i));
                                    lemma_cost_after(lines, next, p, k2, e);
                                }
                                let n = (k2 - li) as nat;
                                run(m, lines, k2 + 1, Some(e), k2 == li && prev1, bump(acc1, 0, 0, n, doc * (n + 1), normal * (n + 1), 0))
                            },
                        }
                    } else if k == SyntaxType::DocString || k == SyntaxType::LitString || k == SyntaxType::String {
                        let right = if k == SyntaxType::DocString {
                            m.doc_quote_pairs[i].1
                        } else if k == SyntaxType::LitString {
                            m.literal_quote_pairs[i].1
                        } else {
                            m.quote_pairs[i].1
                        };
                        let literal = k == SyntaxType::LitString;
                        let dq: nat = if k == SyntaxType::DocString { 1 } else { 0 };
                        let acc2 = if !prev1 { bump(acc1, 1, 0, 0, 0, 0, 0) } else { acc1 };
                        match string_end(lines, li, start, right, literal) {
                            None => Err(if k == SyntaxType::DocString {
                                SyntaxErrorKind::UnterminatedDocQuote
                            } else if literal {
                                SyntaxErrorKind::UnterminatedLitQuote
                            } else {
                                SyntaxErrorKind::UnterminatedQuote
                            }),
                            Some((k2, e)) => {
                                proof {
                                    lemma_string_close(s, start, right, literal);
                                    lemma_string_lines(lines, next, right, literal);
                                    lemma_cost_after(lines, next, p, k2, e);
                                }
                                let n = (k2 - li) as nat;
                                run(m, lines, k2 + 1, Some(e), true, bump(acc2, n, 0, n, 0, 0, dq * (n + 1)))
                            },
                        }
                    } else if k == SyntaxType::DocComment {
                        run(m, lines, next, None, prev1, bump(acc1, 0, 0, 0, 1, 0, 0))
                    } else {
                        run(m, lines, next, None, prev1, bump(acc1, 0, 0, 0, 0, 1, 0))
                    }
                },
            }
        }
    }
}

} // verus!

verus! {

/// The characters of each line.
pub open spec fn lines_view(v: Seq<Vec<char>>) -> Seq<Seq<char>> {
    Seq::new(v.len(), |i: int| v[i]@)
}

/// An optional pair of indices as mathematical integers.
pub open spec fn opt_pair(o: Option<(usize, usize)>) -> Option<(int, int)> {
    match o {
        Some((a, b)) => Some((a as int, b as int)),
        None => None,
    }
}

/// Where a block comment opened with `open` on line `li` closes.
fn find_comment_end(syn: &LanguageSyntax, lines: &Vec<Vec<char>>, li: usize, start: usize, open: &'static str) -> (r: Option<(usize, usize)>)
    requires
        syn@.wf(),
        li < lines.len(),
    ensures
        opt_pair(r) == comment_end(syn@, lines_view(lines@), li as int, start as int, open@),
{
    let ghost lv = lines_view(lines@);
    let mut leading: Vec<&'static str> = vec![open];
    let mut trailing: Vec<&'static str> = Vec::new();
    assert(balance_of(leading@, trailing@) == Balance { leading: seq![open@], trailing: Seq::<Seq<char>>::empty() }) by {
        assert(strs_view(leading@) =~= seq![open@]);
        assert(strs_view(trailing@) =~= Seq::<Seq<char>>::empty());
    }
    assert(lv[li as int] == lines@[li as int]@);
    if let Some(e) = multi_comment(syn, &lines[li], start, &mut leading, &mut trailing) {
        return Some((li, e));
    }
    let mut k: usize = li + 1;
    while k < lines.len()
        invariant
            lv == lines_view(lines@),
            li < k <= lines@.len(),
            syn@.wf(),
            comment_end(syn@, lv, li as int, start as int, open@) == comment_lines(syn@, lv, k as int, balance_of(leading@, trailing@)),
        decreases lines.len() - k,
    {
        assert(lv[k as int] == lines@[k as int]@);
        if let Some(e) = multi_comment(syn, &lines[k], 0, &mut leading, &mut trailing) {
            return Some((k, e));
        }
        k = k + 1;
    }
    None
}

/// Where a string opened on line `li` closes.
fn find_string_end(lines: &Vec<Vec<char>>, li: usize, start: usize, right: &str, literal: bool) -> (r: Option<(usize, usize)>)
    requires
        li < lines.len(),
    ensures
        opt_pair(r) == string_end(lines_view(lines@), li as int, start as int, right@, literal),
{
    let ghost lv = lines_view(lines@);
    assert(lv[li as int] == lines@[li as int]@);
    let first = if literal {
        litral_string(&lines[li], start, right)
    } else {
        normal_string(&lines[li], start, right)
    };
    if let Some(e) = first {
        return Some((li, e));
    }
    let mut k: usize = li + 1;
    while k < lines.len()
        invariant
            lv == lines_view(lines@),
            li < k <= lines@.len(),
            string_end(lv, li as int, start as int, right@, literal) == string_lines(lv, k as int, right@, literal),
        decreases lines.len() - k,
    {
        assert(lv[k as int] == lines@[k as int]@);
        let found = if literal {
            litral_string(&lines[k], 0, right)
        } else {
            normal_string(&lines[k], 0, right)
        };
        if let Some(e) = found {
            return Some((k, e));
        }
        k = k + 1;
    }
    None
}

/// Where the closing token of a region opened on line `li` first occurs.
fn find_region_end(lines: &Vec<Vec<char>>, li: usize, start: usize, right: &str) -> (r: Option<(usize, usize)>)
    requires
        li < lines.len(),
    ensures
        opt_pair(r) == region_end(lines_view(lines@), li as int, start as int, right@),
{
    let ghost lv = lines_view(lines@);
    assert(lv[li as int] == lines@[li as int]@);
    if let Some(c) = search_token(&lines[li], start, right) {
        return Some((li, c));
    }
    let mut k: usize = li + 1;
    while k < lines.len()
        invariant
            lv == lines_view(lines@),
            li < k <= lines@.len(),
            region_end(lv, li as int, start as int, right@) == region_lines(lv, k as int, right@),
        decreases lines.len() - k,
    {
        assert(lv[k as int] == lines@[k as int]@);
        if let Some(c) = search_token(&lines[k], 0, right) {
            return Some((k, c));
        }
        k = k + 1;
    }
    None
}

/// The characters of `s` in `[a, b)`.
fn copy_range(s: &Vec<char>, a: usize, b: usize) -> (r: Vec<char>)
    requires
        a <= b <= s@.len(),
    ensures
        r@ == s@.subrange(a as int, b as int),
{
    let mut r: Vec<char> = Vec::new();
    let mut i: usize = a;
    while i < b
        invariant
            a <= i <= b <= s@.len(),
            r@ == s@.subrange(a as int, i as int),
        decreases b - i,
    {
        r.push(s[i]);
        i = i + 1;
        assert(r@ =~= s@.subrange(a as int, i as int));
    }
    r
}

/// The text of the region from line `li` at `start` to line `k2` at `c`.
fn copy_region(lines: &Vec<Vec<char>>, li: usize, start: usize, k2: usize, c: usize) -> (r: Vec<Vec<char>>)
    requires
        li <= k2 < lines@.len(),
        start <= lines@[li as int]@.len(),
        c <= lines@[k2 as int]@.len(),
        k2 == li ==> start <= c,
    ensures
        lines_view(r@) == region_content(lines_view(lines@), li as int, start as int, (k2 as int, c as int)),
{
    let ghost lv = lines_view(lines@);
    let mut r: Vec<Vec<char>> = Vec::new();
    if k2 == li {
        r.push(copy_range(&lines[li], start, c));
        assert(lines_view(r@) =~= region_content(lv, li as int, start as int, (k2 as int, c as int)));
        return r;
    }
    r.push(copy_range(&lines[li], start, lines[li].len()));
    assert(lines_view(r@) =~= seq![lv[li as int].subrange(start as int, lv[li as int].len() as int)]
        + lv.subrange(li + 1, li + 1));
    let mut k: usize = li + 1;
    while k < k2
        invariant
            lv == lines_view(lines@),
            li < k <= k2 < lines@.len(),
            start <= lv[li as int].len(),
            lines_view(r@) == seq![lv[li as int].subrange(start as int, lv[li as int].len() as int)]
                + lv.subrange(li + 1, k as int),
        decreases k2 - k,
    {
        let ghost before = lines_view(r@);
        r.push(copy_range(&lines[k], 0, lines[k].len()));
        assert(lines[k as int]@.subrange(0, lines[k as int]@.len() as int) =~= lv[k as int]);
        assert(lines_view(r@) =~= before.push(lv[k as int]));
        assert(lines_view(r@) =~= seq![lv[li as int].subrange(start as int, lv[li as int].len() as int)]
                + lv.subrange(li + 1, k + 1));
        k = k + 1;
    }
    let ghost before = lines_view(r@);
    r.push(copy_range(&lines[k2], 0, c));
    assert(lines_view(r@) =~= before.push(lv[k2 as int].subrange(0, c as int)));
    assert(lines_view(r@) =~= region_content(lv, li as int, start as int, (k2 as int, c as int)));
    r
}

} // verus!

verus! {

/// Each counter of `s` is at most `b`.
pub open spec fn counts_within(s: Stats, b: int) -> bool {
    &&& s.code <= b
    &&& s.blank <= b
    &&& s.all <= b
    &&& s.doc <= b
    &&& s.normal <= b
    &&& s.doc_quote <= b
}

/// The opening token of the construct of kind `k` at index `i` of its table.
fn opener_token(syn: &LanguageSyntax, k: SyntaxType, i: usize) -> (r: &'static str)
    requires
        k is SubLanguage ==> i < syn@.sublang_pairs.len(),
        k is DocMultiComment ==> i < syn@.doc_comment_pairs.len(),
        k is MultiComment ==> i < syn@.comment_pairs.len(),
        k is LitString ==> i < syn@.literal_quote_pairs.len(),
        k is DocString ==> i < syn@.doc_quote_pairs.len(),
        k is String ==> i < syn@.quote_pairs.len(),
        k is DocComment ==> i < syn@.doc_comment.len(),
        !(k is SubLanguage || k is DocMultiComment || k is MultiComment || k is LitString
            || k is DocString || k is String || k is DocComment) ==> i < syn@.simple_comment.len(),
    ensures
        r@ == opener(syn@, k, i as int),
{
    match k {
        SyntaxType::SubLanguage => syn.sublang_pairs[i].0.left,
        SyntaxType::DocMultiComment => syn.doc_comment_pairs[i].left,
        SyntaxType::MultiComment => syn.comment_pairs[i].left,
        SyntaxType::LitString => syn.literal_quote_pairs[i].left,
        SyntaxType::DocString => syn.doc_quote_pairs[i].left,
        SyntaxType::String => syn.quote_pairs[i].left,
        SyntaxType::DocComment => syn.doc_comment[i],
        _ => syn.simple_comment[i],
    }
}

/// The closing token of the string construct of kind `k` at index `i`.
fn string_closer(syn: &LanguageSyntax, k: SyntaxType, i: usize) -> (r: &'static str)
    requires
        k is DocString ==> i < syn@.doc_quote_pairs.len(),
        k is LitString ==> i < syn@.literal_quote_pairs.len(),
        !(k is DocString || k is LitString) ==> i < syn@.quote_pairs.len(),
    ensures
        r@ == (if k == SyntaxType::DocString {
            syn@.doc_quote_pairs[i as int].1
        } else if k == SyntaxType::LitString {
            syn@.literal_quote_pairs[i as int].1
        } else {
            syn@.quote_pairs[i as int].1
        }),
{
    if k == SyntaxType::DocString {
        syn.doc_quote_pairs[i].right
    } else if k == SyntaxType::LitString {
        syn.literal_quote_pairs[i].right
    } else {
        syn.quote_pairs[i].right
    }
}

} // verus!

verus! {

/// A parse outcome agrees with the model's: the same statistics, or an error
/// that carries the message of the same broken rule.
pub open spec fn outcome_matches(r: Result<ParseResult, CoreError>, expected: Result<Stats, SyntaxErrorKind>) -> bool {
    match r {
        Ok(v) => expected == Ok::<Stats, SyntaxErrorKind>(v@),
        Err(CoreError::SyntaxError(msg)) => expected is Err && msg@ == expected->Err_0.spec_message(),
    }
}

/// What a step on the rest of line `next - 1` from `p` may assume.
pub open spec fn step_pre(lv: Seq<Seq<char>>, m0: int, next: int, p: int, acc: Stats) -> bool {
    &&& 1 <= next <= lv.len()
    &&& 0 <= p <= lv[next - 1].len()
    &&& m0 == lines_cost(lv)
    &&& m0 <= usize::MAX
    &&& counts_within(acc, m0 - state_cost(lv, next, Some(p)))
    &&& acc.all >= next
}

/// A step that ended in the state `(a, n2, c2, pr2)` did what `segment` says,
/// and the loop's bounds hold of the new state.
pub open spec fn step_ok(
    m: SyntaxModel,
    lv: Seq<Seq<char>>,
    next: int,
    p: int,
    is_new: bool,
    prev: bool,
    acc: Stats,
    r: (ParseResult, usize, Option<usize>, bool),
) -> bool {
    let m0 = lines_cost(lv) as int;
    &&& segment(m, lv, next, p, is_new, prev, acc) == run(m, lv, r.1 as int, opt_int(r.2), r.3, r.0@)
    &&& r.1 <= lv.len()
    &&& (r.2 is Some ==> 1 <= r.1)
    &&& counts_within(r.0@, m0 - state_cost(lv, r.1 as int, opt_int(r.2)))
    &&& r.0.all >= r.1
    &&& state_cost(lv, r.1 as int, opt_int(r.2)) < state_cost(lv, next, Some(p))
}

/// A step that failed with `msg` did so where `segment` fails, with its message.
pub open spec fn step_err(
    m: SyntaxModel,
    lv: Seq<Seq<char>>,
    next: int,
    p: int,
    is_new: bool,
    prev: bool,
    acc: Stats,
    msg: Seq<char>,
) -> bool {
    &&& segment(m, lv, next, p, is_new, prev, acc) is Err
    &&& msg == segment(m, lv, next, p, is_new, prev, acc)->Err_0.spec_message()
}

/// The outcome of a step, against `segment`.
pub open spec fn step_post(
    m: SyntaxModel,
    lv: Seq<Seq<char>>,
    next: int,
    p: int,
    is_new: bool,
    prev: bool,
    acc: Stats,
    r: Result<(ParseResult, usize, Option<usize>, bool), CoreError>,
) -> bool {
    match r {
        Ok(t) => step_ok(m, lv, next, p, is_new, prev, acc, t),
        Err(CoreError::SyntaxError(msg)) => step_err(m, lv, next, p, is_new, prev, acc, msg@),
    }
}

/// Whether the text before a construct at `q` makes the line count as code.
fn counts_as_code(s: &Vec<char>, p: usize, q: usize, k: SyntaxType, prev: bool) -> (r: bool)
    requires
        p <= q <= s@.len(),
    ensures
        r == (!prev && !(k == SyntaxType::DocString || k == SyntaxType::LitString || k
            == SyntaxType::String) && q > p && !spaces_only(s@, p as int, q as int)),
{
    !prev && !(k == SyntaxType::DocString || k == SyntaxType::LitString || k == SyntaxType::String)
        && q > p && !only_spaces(s, p, q)
}

/// A step whose first construct is a block comment.
#[verifier::rlimit(50)]
fn handle_comment(
    lines: &Vec<Vec<char>>,
    syntax: &LanguageSyntax,
    next: usize,
    p: usize,
    is_new: bool,
    prev: bool,
    acc: ParseResult,
    q: usize,
    k: SyntaxType,
    i: usize,
) -> (r: Result<(ParseResult, usize, Option<usize>, bool), CoreError>)
    requires
        syntax@.wf(),
        step_pre(lines_view(lines@), lines_cost(lines_view(lines@)) as int, next as int, p as int, acc@),
        !spaces_only(lines_view(lines@)[next - 1], p as int, lines_view(lines@)[next - 1].len() as int),
        k == SyntaxType::DocMultiComment || k == SyntaxType::MultiComment,
        next_construct(syntax@, lines_view(lines@)[next - 1], p as int) == Some((q as int, k, i as int)),
    ensures
        step_post(syntax@, lines_view(lines@), next as int, p as int, is_new, prev, acc@, r),
{
    let ghost lv = lines_view(lines@);
    let ghost m = syntax@;
    let ghost m0 = lines_cost(lv) as int;
    let ghost acc0 = acc@;
    let mut acc = acc;
    let li: usize = next - 1;
    let s = &lines[li];
    assert(lv[li as int] == s@);
    proof {
        lemma_next_construct(m, s@, p as int);
        lemma_construct_at(m, s@, q as int);
    }
    let cc = counts_as_code(s, p, q, k, prev);
    if cc {
        acc.code = acc.code + 1;
    }
    let prev1 = prev || cc;
    let open_tok = opener_token(syntax, k, i);
    assert(token_at(s@, q as int, open_tok@));
    assert(q + open_tok@.len() <= s.len());
    let start = q + open_tok.unicode_len();
    match find_comment_end(syntax, lines, li, start, open_tok) {
        None => Err(SyntaxErrorKind::UnterminatedComment.to_error()),
        Some((k2, e)) => {
            proof {
                lemma_comment_end(m, lv, li as int, start as int, open_tok@);
                lemma_cost_after(lv, next as int, p as int, k2 as int, e as int);
            }
            let n = k2 - li;
            acc.all = acc.all + n;
            if k == SyntaxType::DocMultiComment {
                acc.comment.doc = acc.comment.doc + n + 1;
            } else {
                acc.comment.normal = acc.comment.normal + n + 1;
            }
            Ok((acc, k2 + 1, Some(e), k2 == li && prev1))
        },
    }
}

} // verus!

verus! {

/// A step whose first construct is a string.
#[verifier::rlimit(50)]
fn handle_string(
    lines: &Vec<Vec<char>>,
    syntax: &LanguageSyntax,
    next: usize,
    p: usize,
    is_new: bool,
    prev: bool,
    acc: ParseResult,
    q: usize,
    k: SyntaxType,
    i: usize,
) -> (r: Result<(ParseResult, usize, Option<usize>, bool), CoreError>)
    requires
        syntax@.wf(),
        step_pre(lines_view(lines@), lines_cost(lines_view(lines@)) as int, next as int, p as int, acc@),
        !spaces_only(lines_view(lines@)[next - 1], p as int, lines_view(lines@)[next - 1].len() as int),
        k == SyntaxType::DocString || k == SyntaxType::LitString || k == SyntaxType::String,
        next_construct(syntax@, lines_view(lines@)[next - 1], p as int) == Some((q as int, k, i as int)),
    ensures
        step_post(syntax@, lines_view(lines@), next as int, p as int, is_new, prev, acc@, r),
{
    let ghost lv = lines_view(lines@);
    let ghost m = syntax@;
    let mut acc = acc;
    let li: usize = next - 1;
    let s = &lines[li];
    assert(lv[li as int] == s@);
    proof {
        lemma_next_construct(m, s@, p as int);
        lemma_construct_at(m, s@, q as int);
    }
    let open_tok = opener_token(syntax, k, i);
    assert(token_at(s@, q as int, open_tok@));
    assert(q + open_tok@.len() <= s.len());
    let start = q + open_tok.unicode_len();
    let right = string_closer(syntax, k, i);
    let literal = k == SyntaxType::LitString;
    if !prev {
        acc.code = acc.code + 1;
    }
    match find_string_end(lines, li, start, right, literal) {
        None => {
            let kind = if k == SyntaxType::DocString {
                SyntaxErrorKind::UnterminatedDocQuote
            } else if literal {
                SyntaxErrorKind::UnterminatedLitQuote
            } else {
                SyntaxErrorKind::UnterminatedQuote
            };
            Err(kind.to_error())
        },
        Some((k2, e)) => {
            proof {
                lemma_string_close(s@, start as int, right@, literal);
                lemma_string_lines(lv, next as int, right@, literal);
                lemma_cost_after(lv, next as int, p as int, k2 as int, e as int);
            }
            let n = k2 - li;
            acc.all = acc.all + n;
            acc.code = acc.code + n;
            if k == SyntaxType::DocString {
                acc.comment.doc_quote = acc.comment.doc_quote + n + 1;
            }
            Ok((acc, k2 + 1, Some(e), true))
        },
    }
}

/// A step whose first construct opens an embedded region: the region's text
/// is parsed with its own language's syntax and folded into the counts.
#[verifier::rlimit(80)]
fn handle_sublang(
    lines: &Vec<Vec<char>>,
    syntax: &LanguageSyntax,
    next: usize,
    p: usize,
    is_new: bool,
    prev: bool,
    acc: ParseResult,
    q: usize,
    i: usize,
) -> (r: Result<(ParseResult, usize, Option<usize>, bool), CoreError>)
    requires
        syntax@.wf(),
        step_pre(lines_view(lines@), lines_cost(lines_view(lines@)) as int, next as int, p as int, acc@),
        !spaces_only(lines_view(lines@)[next - 1], p as int, lines_view(lines@)[next - 1].len() as int),
        next_construct(syntax@, lines_view(lines@)[next - 1], p as int) == Some((q as int, SyntaxType::SubLanguage, i as int)),
    ensures
        step_post(syntax@, lines_view(lines@), next as int, p as int, is_new, prev, acc@, r),
    decreases lines_cost(lines_view(lines@)), 1nat,
{
    let ghost lv = lines_view(lines@);
    let ghost m = syntax@;
    let ghost m0 = lines_cost(lv) as int;
    let mut acc = acc;
    let li: usize = next - 1;
    let s = &lines[li];
    assert(lv[li as int] == s@);
    proof {
        lemma_next_construct(m, s@, p as int);
        lemma_construct_at(m, s@, q as int);
    }
    let cc = counts_as_code(s, p, q, SyntaxType::SubLanguage, prev);
    if cc {
        acc.code = acc.code + 1;
    }
    let prev1 = prev || cc;
    let open_tok = syntax.sublang_pairs[i].0.left;
    assert(token_at(s@, q as int, open_tok@));
    assert(q + open_tok@.len() <= s.len());
    let start = q + open_tok.unicode_len();
    let right = syntax.sublang_pairs[i].0.right;
    let lang = syntax.sublang_pairs[i].1;
    assert(state_cost(lv, next as int, Some(start as int)) + 2 * (start - p) == state_cost(
        lv,
        next as int,
        Some(p as int),
    ));
    proof {
        lemma_find_token(s@, start as int, right@);
        lemma_region_lines(lv, next as int, right@);
    }
    match split_sublang_part(lines, li, start, right, lang) {
        Err(e) => Err(e),
        Ok((k2, end, sub)) => {
            acc.join((lang, sub));
            acc.all = acc.all - 1;
            Ok((acc, k2 + 1, Some(end), k2 == li && prev1))
        },
    }
}

/// Splits off the embedded region that starts on line `li` at `start` and
/// ends at the first `right` token, and parses its text with the syntax of
/// `lang`. Returns the line where the region ends, the position just after its
/// closing token, and the region's statistics.
pub fn split_sublang_part(
    lines: &Vec<Vec<char>>,
    li: usize,
    start: usize,
    right: &str,
    lang: LanguageType,
) -> (r: Result<(usize, usize, ParseResult), CoreError>)
    requires
        li < lines.len(),
        start <= lines@[li as int]@.len(),
        lines_cost(lines_view(lines@)) <= usize::MAX,
    ensures
        match region_end(lines_view(lines@), li as int, start as int, right@) {
            None => r matches Err(CoreError::SyntaxError(m)) && m@
                == SyntaxErrorKind::UnterminatedSubLanguage.spec_message(),
            Some((k2, c)) => {
                let content = region_content(lines_view(lines@), li as int, start as int, (k2, c));
                &&& lines_cost(content) + state_cost(lines_view(lines@), k2 + 1, Some(c + right@.len()))
                    <= state_cost(lines_view(lines@), li + 1, Some(start as int))
                &&& match r {
                    Ok((rk, re, sub)) => rk == k2 && re == c + right@.len() && parse_model(
                        lang.syntax_model(),
                        content,
                    ) == Ok::<Stats, SyntaxErrorKind>(sub@) && sub.all >= content.len()
                        && counts_within(sub@, lines_cost(content) as int),
                    Err(CoreError::SyntaxError(m)) => parse_model(lang.syntax_model(), content) is Err
                        && m@ == parse_model(lang.syntax_model(), content)->Err_0.spec_message(),
                }
            },
        },
    decreases lines_cost(lines_view(lines@)), 0nat,
{
    let ghost lv = lines_view(lines@);
    assert(lv[li as int] == lines@[li as int]@);
    proof {
        lemma_find_token(lv[li as int], start as int, right@);
        lemma_region_lines(lv, li + 1, right@);
    }
    match find_region_end(lines, li, start, right) {
        None => Err(SyntaxErrorKind::UnterminatedSubLanguage.to_error()),
        Some((k2, c)) => {
            proof {
                lemma_region_cost(lv, li + 1, start as int, start as int, k2 as int, c as int, right@.len() as int);
                lemma_tail_cost(lv, 0, li as int);
                lemma_tail_cost(lv, li as int, li + 1);
            }
            assert(lv[k2 as int] == lines@[k2 as int]@);
            let line_len = lines[k2].len();
            assert(c + right@.len() <= line_len);
            let end = c + right.unicode_len();
            let content = copy_region(lines, li, start, k2, c);
            let sub_syntax = lang.get_language_syntax();
            proof {
                lang.lemma_wf();
            }
            match parse_char_lines(&content, &sub_syntax) {
                Err(e) => Err(e),
                Ok(sub) => Ok((k2, end, sub)),
            }
        },
    }
}

} // verus!

verus! {

/// One step on the rest of line `next - 1` from `p` (see `segment`).
#[verifier::rlimit(50)]
fn classify_segment(
    lines: &Vec<Vec<char>>,
    syntax: &LanguageSyntax,
    next: usize,
    p: usize,
    is_new: bool,
    prev: bool,
    acc: ParseResult,
) -> (r: Result<(ParseResult, usize, Option<usize>, bool), CoreError>)
    requires
        syntax@.wf(),
        step_pre(lines_view(lines@), lines_cost(lines_view(lines@)) as int, next as int, p as int, acc@),
    ensures
        step_post(syntax@, lines_view(lines@), next as int, p as int, is_new, prev, acc@, r),
    decreases lines_cost(lines_view(lines@)), 2nat,
{
    let ghost lv = lines_view(lines@);
    let ghost m = syntax@;
    let mut acc = acc;
    let li: usize = next - 1;
    let s = &lines[li];
    assert(lv[li as int] == s@);
    proof {
        lemma_tail_cost(lv, next as int, next as int);
    }
    if only_spaces(s, p, s.len()) {
        if !prev && is_new {
            acc.blank = acc.blank + 1;
        }
        return Ok((acc, next, None, prev));
    }
    match find_next_construct(syntax, s, p) {
        None => {
            if !prev {
                acc.code = acc.code + 1;
            }
            Ok((acc, next, None, prev))
        },
        Some((q, k, i)) => {
            if k == SyntaxType::SubLanguage {
                handle_sublang(lines, syntax, next, p, is_new, prev, acc, q, i)
            } else if k == SyntaxType::DocMultiComment || k == SyntaxType::MultiComment {
                handle_comment(lines, syntax, next, p, is_new, prev, acc, q, k, i)
            } else if k == SyntaxType::DocString || k == SyntaxType::LitString || k == SyntaxType::String {
                handle_string(lines, syntax, next, p, is_new, prev, acc, q, k, i)
            } else {
                proof {
                    lemma_next_construct(m, s@, p as int);
                }
                let cc = counts_as_code(s, p, q, k, prev);
                if cc {
                    acc.code = acc.code + 1;
                }
                if k == SyntaxType::DocComment {
                    acc.comment.doc = acc.comment.doc + 1;
                } else {
                    acc.comment.normal = acc.comment.normal + 1;
                }
                Ok((acc, next, None, prev || cc))
            }
        },
    }
}

/// Classifies `lines` under `syntax`. On success the result is the statistics
/// that `parse_model` gives; on failure the error carries the message of the
/// rule that `parse_model` reports broken.
pub fn parse_char_lines(lines: &Vec<Vec<char>>, syntax: &LanguageSyntax) -> (r: Result<ParseResult, CoreError>)
    requires
        syntax@.wf(),
        lines_cost(lines_view(lines@)) <= usize::MAX,
    ensures
        outcome_matches(r, parse_model(syntax@, lines_view(lines@))),
        r matches Ok(v) ==> v.all >= lines@.len() && counts_within(v@, lines_cost(lines_view(lines@)) as int),
    decreases lines_cost(lines_view(lines@)), 3nat,
{
    let ghost lv = lines_view(lines@);
    let ghost m = syntax@;
    let ghost m0 = lines_cost(lv) as int;
    let mut acc = ParseResult::zero();
    let mut next: usize = 0;
    let mut cur: Option<usize> = None;
    let mut prev = false;
    loop
        invariant
            lv == lines_view(lines@),
            m == syntax@,
            syntax@.wf(),
            m0 == lines_cost(lv),
            m0 <= usize::MAX,
            next <= lines@.len(),
            cur is Some ==> 1 <= next,
            parse_model(m, lv) == run(m, lv, next as int, opt_int(cur), prev, acc@),
            counts_within(acc@, m0 - state_cost(lv, next as int, opt_int(cur))),
            acc.all >= next,
        decreases state_cost(lv, next as int, opt_int(cur)),
    {
        let p: usize;
        let is_new: bool;
        match cur {
            Some(cp) => {
                assert(lv[next - 1] == lines@[next - 1]@);
                if cp >= lines[next - 1].len() {
                    cur = None;
                    prev = false;
                    continue;
                }
                p = cp;
                is_new = false;
            },
            None => {
                if next >= lines.len() {
                    return Ok(acc);
                }
                assert(lv[next as int] == lines@[next as int]@);
                proof {
                    lemma_tail_cost(lv, next as int, next + 1);
                }
                acc.all = acc.all + 1;
                prev = false;
                next = next + 1;
                match syntax.line_prefix {
                    Some(pf) => {
                        if !has_prefix_at(&lines[next - 1], 0, pf) {
                            return Err(SyntaxErrorKind::MissingPrefix.to_error());
                        }
                        p = pf.unicode_len();
                    },
                    None => {
                        p = 0;
                    },
                }
                is_new = true;
            },
        }
        match classify_segment(lines, syntax, next, p, is_new, prev, acc) {
            Ok((a, n2, c2, pr2)) => {
                acc = a;
                next = n2;
                cur = c2;
                prev = pr2;
            },
            Err(e) => {
                return Err(e);
            },
        }
    }
}

} // verus!

verus! {

/// A line without its trailing carriage return, if it has one.
pub open spec fn strip_cr(x: Seq<char>) -> Seq<char> {
    if x.len() > 0 && x.last() == '\r' {
        x.drop_last()
    } else {
        x
    }
}

/// The first position at or after `i` that holds `c`.
pub open spec fn find_char(s: Seq<char>, i: int, c: char) -> Option<int>
    decreases s.len() - i,
{
    if i < 0 || i >= s.len() {
        None
    } else if s[i] == c {
        Some(i)
    } else {
        find_char(s, i + 1, c)
    }
}

pub proof fn lemma_find_char(s: Seq<char>, i: int, c: char)
    requires
        0 <= i,
    ensures
        match find_char(s, i, c) {
            Some(j) => i <= j < s.len() && s[j] == c,
            None => true,
        },
    decreases s.len() - i,
{
    if i < s.len() && s[i] != c {
        lemma_find_char(s, i + 1, c);
    }
}

/// The physical lines of `s` from position `i`: split at each line feed, a
/// final empty piece dropped, a carriage return before the line feed removed.
pub open spec fn split_from(s: Seq<char>, i: int) -> Seq<Seq<char>>
    decreases s.len() - i,
{
    if i < 0 || i >= s.len() {
        Seq::empty()
    } else {
        match find_char(s, i, '\n') {
            Some(j) => {
                proof {
                    lemma_find_char(s, i, '\n');
                }
                seq![strip_cr(s.subrange(i, j))] + split_from(s, j + 1)
            },
            None => seq![strip_cr(s.subrange(i, s.len() as int))],
        }
    }
}

/// The physical lines of a text.
pub open spec fn split_text(s: Seq<char>) -> Seq<Seq<char>> {
    split_from(s, 0)
}

/// The cost of the lines of a text is at most four per character.
pub proof fn lemma_split_cost(s: Seq<char>, i: int)
    requires
        0 <= i,
    ensures
        lines_cost(split_from(s, i)) <= 4 * (s.len() - i) || i >= s.len(),
        i >= s.len() ==> lines_cost(split_from(s, i)) == 0,
    decreases s.len() - i,
{
    if i < s.len() {
        lemma_find_char(s, i, '\n');
        match find_char(s, i, '\n') {
            Some(j) => {
                lemma_split_cost(s, j + 1);
                let x = strip_cr(s.subrange(i, j));
                lemma_tail_concat(seq![x], split_from(s, j + 1), 0);
                lemma_tail_single(x);
            },
            None => {
                lemma_tail_single(strip_cr(s.subrange(i, s.len() as int)));
            },
        }
    }
}

/// The lines of `s` (see `split_text`).
pub fn split_chars(s: &Vec<char>) -> (r: Vec<Vec<char>>)
    ensures
        lines_view(r@) == split_text(s@),
        lines_cost(lines_view(r@)) <= 4 * s@.len(),
{
    let mut r: Vec<Vec<char>> = Vec::new();
    let mut i: usize = 0;
    while i < s.len()
        invariant
            i <= s@.len(),
            split_text(s@) == lines_view(r@) + split_from(s@, i as int),
        decreases s.len() - i,
    {
        let mut j: usize = i;
        while j < s.len() && s[j] != '\n'
            invariant
                i <= j <= s@.len(),
                find_char(s@, i as int, '\n') == find_char(s@, j as int, '\n'),
            decreases s.len() - j,
        {
            j = j + 1;
        }
        let mut e: usize = j;
        if e > i && s[e - 1] == '\r' {
            e = e - 1;
        }
        let piece = copy_range(s, i, e);
        assert(piece@ == strip_cr(s@.subrange(i as int, j as int))) by {
            if j > i && s@[j - 1] == '\r' {
                assert(s@.subrange(i as int, j as int).drop_last() =~= s@.subrange(i as int, e as int));
            } else {
                assert(s@.subrange(i as int, j as int) =~= s@.subrange(i as int, e as int));
            }
        }
        let ghost before = lines_view(r@);
        r.push(piece);
        assert(lines_view(r@) =~= before.push(piece@));
        if j < s.len() {
            assert(split_from(s@, i as int) == seq![piece@] + split_from(s@, j + 1));
            assert(lines_view(r@) + split_from(s@, j + 1) =~= before + split_from(s@, i as int));
            i = j + 1;
        } else {
            assert(split_from(s@, i as int) == seq![piece@]);
            assert(split_from(s@, j as int) =~= Seq::<Seq<char>>::empty());
            assert(lines_view(r@) + split_from(s@, j as int) =~= before + split_from(s@, i as int));
            i = j;
        }
    }
    assert(lines_view(r@) =~= split_text(s@));
    proof {
        lemma_split_cost(s@, 0);
    }
    r
}

} // verus!

verus! {

/// The characters of each of a list of lines.
pub open spec fn str_lines(s: Seq<&str>) -> Seq<Seq<char>> {
    Seq::new(s.len(), |i: int| s[i]@)
}

/// A classifier for one language, holding the text to classify.
pub struct CoreParser {
    content: Vec<char>,
    syntax: LanguageSyntax,
}

impl CoreParser {
    /// The text held.
    pub closed spec fn spec_content(&self) -> Seq<char> {
        self.content@
    }

    /// The syntax that the text is classified with.
    pub closed spec fn spec_syntax(&self) -> SyntaxModel {
        self.syntax@
    }

    /// A classifier for `lang`, holding no text.
    pub fn from_lang(lang: &LanguageType) -> (r: Self)
        ensures
            r.spec_content() == Seq::<char>::empty(),
            r.spec_syntax() == lang.syntax_model(),
            r.spec_syntax().wf(),
    {
        proof {
            lang.lemma_wf();
        }
        CoreParser { content: Vec::new(), syntax: lang.get_language_syntax() }
    }

    /// Replaces the text held.
    pub fn init_content(&mut self, content: &str)
        ensures
            final(self).spec_content() == content@,
            final(self).spec_syntax() == old(self).spec_syntax(),
    {
        self.content = str_to_chars(content);
    }

    /// The physical lines of the text held (see `split_text`).
    pub fn split_lines(&self) -> (r: Vec<Vec<char>>)
        ensures
            lines_view(r@) == split_text(self.spec_content()),
    {
        split_chars(&self.content)
    }

    /// Classifies the text held.
    pub fn parse(&self) -> (r: Result<ParseResult, CoreError>)
        requires
            self.spec_syntax().wf(),
            4 * self.spec_content().len() <= usize::MAX,
        ensures
            outcome_matches(r, parse_model(self.spec_syntax(), split_text(self.spec_content()))),
    {
        let lines = split_chars(&self.content);
        parse_char_lines(&lines, &self.syntax)
    }

    /// Classifies `lines` under `syntax`.
    pub fn parse_lines(lines: &[&str], syntax: &LanguageSyntax) -> (r: Result<ParseResult, CoreError>)
        requires
            syntax@.wf(),
            lines_cost(str_lines(lines@)) <= usize::MAX,
        ensures
            outcome_matches(r, parse_model(syntax@, str_lines(lines@))),
    {
        let mut v: Vec<Vec<char>> = Vec::new();
        let mut i: usize = 0;
        while i < lines.len()
            invariant
                i <= lines@.len(),
                lines_view(v@) == str_lines(lines@).subrange(0, i as int),
            decreases lines.len() - i,
        {
            let ghost before = lines_view(v@);
            v.push(str_to_chars(lines[i]));
            assert(lines_view(v@) =~= before.push(lines@[i as int]@));
            assert(str_lines(lines@).subrange(0, i + 1) =~= str_lines(lines@).subrange(0, i as int).push(lines@[i as int]@));
            i = i + 1;
        }
        assert(lines_view(v@) =~= str_lines(lines@));
        parse_char_lines(&v, syntax)
    }
}

} // verus!
