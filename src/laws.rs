//! Properties of the classifier, stated over the model and proved.
use vstd::prelude::*;

use crate::error::SyntaxErrorKind;
use crate::language::{LanguageType, SyntaxModel, SyntaxType};
use crate::parser::{
    bump, comment_end, lemma_comment_end, lemma_cost_after, lemma_region_cost, lemma_region_lines,
    lemma_string_lines, lemma_tail_cost, parse_model, region_content, region_end, run, segment,
    state_cost, string_end,
};
use crate::result::{join_stats, zero_stats, Stats};
use crate::scan::{
    balance_step, comment_scan, comment_tables, comment_token_at, construct_at, first_index, has_sole_candidate,
    is_candidate, lemma_construct_at, lemma_find_token, lemma_next_construct, lemma_string_close,
    next_construct, opener, sole_candidate, Balance,
};
use crate::text::{prefix_at, spaces_only};

verus! {

/// The syntax has no comment, string or embedded-language delimiter, and no
/// mandatory line prefix.
pub open spec fn no_constructs(m: SyntaxModel) -> bool {
    &&& m.line_prefix is None
    &&& m.doc_comment.len() == 0
    &&& m.simple_comment.len() == 0
    &&& m.doc_comment_pairs.len() == 0
    &&& m.comment_pairs.len() == 0
    &&& m.literal_quote_pairs.len() == 0
    &&& m.quote_pairs.len() == 0
    &&& m.doc_quote_pairs.len() == 0
    &&& m.sublang_pairs.len() == 0
}

/// The number of lines from index `k` on that are empty or hold only spaces and tabs.
pub open spec fn blank_lines(lines: Seq<Seq<char>>, k: int) -> nat
    decreases lines.len() - k,
{
    if k < 0 || k >= lines.len() {
        0
    } else {
        (if spaces_only(lines[k], 0, lines[k].len() as int) { 1nat } else { 0nat }) + blank_lines(lines, k + 1)
    }
}

proof fn lemma_no_construct_scan(m: SyntaxModel, s: Seq<char>, p: int)
    requires
        no_constructs(m),
    ensures
        next_construct(m, s, p) is None,
    decreases s.len() - p,
{
    if 0 <= p < s.len() {
        assert(construct_at(m, s, p) is None);
        lemma_no_construct_scan(m, s, p + 1);
    }
}

proof fn lemma_plain_run(m: SyntaxModel, lines: Seq<Seq<char>>, next: int, prev: bool, acc: Stats)
    requires
        no_constructs(m),
        0 <= next <= lines.len(),
    ensures
        run(m, lines, next, None, prev, acc) == Ok::<Stats, SyntaxErrorKind>(
            Stats {
                code: (acc.code + (lines.len() - next) - blank_lines(lines, next)) as nat,
                blank: acc.blank + blank_lines(lines, next),
                all: (acc.all + (lines.len() - next)) as nat,
                ..acc
            },
        ),
        blank_lines(lines, next) <= lines.len() - next,
    decreases lines.len() - next,
{
    if next < lines.len() {
        lemma_no_construct_scan(m, lines[next], 0);
        let acc1 = bump(acc, 0, 0, 1, 0, 0, 0);
        assert(run(m, lines, next, None, prev, acc) == segment(m, lines, next + 1, 0, true, false, acc1));
        if spaces_only(lines[next], 0, lines[next].len() as int) {
            let acc2 = bump(acc1, 0, 1, 0, 0, 0, 0);
            assert(segment(m, lines, next + 1, 0, true, false, acc1) == run(m, lines, next + 1, None, false, acc2));
            lemma_plain_run(m, lines, next + 1, false, acc2);
        } else {
            let acc2 = bump(acc1, 1, 0, 0, 0, 0, 0);
            assert(segment(m, lines, next + 1, 0, true, false, acc1) == run(m, lines, next + 1, None, false, acc2));
            lemma_plain_run(m, lines, next + 1, false, acc2);
        }
    }
}

/// With a syntax that has no comment, string or embedded-language construct,
/// every line is code or blank: `all == code + blank`, and `blank` is the
/// number of lines that are empty or hold only spaces and tabs.
pub proof fn lemma_plain_text(m: SyntaxModel, lines: Seq<Seq<char>>)
    requires
        no_constructs(m),
    ensures
        parse_model(m, lines) is Ok,
        parse_model(m, lines)->Ok_0.all == parse_model(m, lines)->Ok_0.code + parse_model(
            m,
            lines,
        )->Ok_0.blank,
        parse_model(m, lines)->Ok_0.all == lines.len(),
        parse_model(m, lines)->Ok_0.blank == blank_lines(lines, 0),
        parse_model(m, lines)->Ok_0.doc == 0,
        parse_model(m, lines)->Ok_0.normal == 0,
        parse_model(m, lines)->Ok_0.doc_quote == 0,
{
    lemma_plain_run(m, lines, 0, false, zero_stats());
}

} // verus!

verus! {

/// A line that holds a line-comment token (the first construct recognised at
/// its start) followed by text adds one to `all` and one to the comment
/// counter (documentation for a documentation token), and nothing to `code`
/// or `blank`.
pub proof fn lemma_line_comment(
    m: SyntaxModel,
    lines: Seq<Seq<char>>,
    next: int,
    prev: bool,
    acc: Stats,
    k: SyntaxType,
    i: int,
)
    requires
        m.line_prefix is None,
        0 <= next < lines.len(),
        k == SyntaxType::DocComment || k == SyntaxType::SimpleComment,
        construct_at(m, lines[next], 0) == Some((k, i)),
        !spaces_only(lines[next], 0, lines[next].len() as int),
    ensures
        run(m, lines, next, None, prev, acc) == run(
            m,
            lines,
            next + 1,
            None,
            false,
            bump(
                acc,
                0,
                0,
                1,
                if k == SyntaxType::DocComment { 1 } else { 0 },
                if k == SyntaxType::DocComment { 0 } else { 1 },
                0,
            ),
        ),
{
    let acc1 = bump(acc, 0, 0, 1, 0, 0, 0);
    assert(run(m, lines, next, None, prev, acc) == segment(m, lines, next + 1, 0, true, false, acc1));
    assert(next_construct(m, lines[next], 0) == Some((0int, k, i)));
}

/// A block comment that opens at the start of a line and closes on a later
/// (or the same) line, with nothing but spaces after its close, adds the
/// number `n` of lines it spans to `all` and to its comment counter, and
/// nothing to `code`.
pub proof fn lemma_block_comment(
    m: SyntaxModel,
    lines: Seq<Seq<char>>,
    next: int,
    prev: bool,
    acc: Stats,
    k: SyntaxType,
    i: int,
    k2: int,
    e: int,
)
    requires
        m.line_prefix is None,
        0 <= next < lines.len(),
        k == SyntaxType::DocMultiComment || k == SyntaxType::MultiComment,
        construct_at(m, lines[next], 0) == Some((k, i)),
        !spaces_only(lines[next], 0, lines[next].len() as int),
        comment_end(m, lines, next, opener(m, k, i).len() as int, opener(m, k, i)) == Some((k2, e)),
        spaces_only(lines[k2], e, lines[k2].len() as int),
    ensures
        ({
            let n = (k2 - next + 1) as nat;
            run(m, lines, next, None, prev, acc) == run(
                m,
                lines,
                k2 + 1,
                None,
                false,
                bump(
                    acc,
                    0,
                    0,
                    n,
                    if k == SyntaxType::DocMultiComment { n } else { 0 },
                    if k == SyntaxType::DocMultiComment { 0 } else { n },
                    0,
                ),
            )
        }),
{
    let acc1 = bump(acc, 0, 0, 1, 0, 0, 0);
    crate::scan::lemma_construct_at(m, lines[next], 0);
    crate::parser::lemma_comment_end(m, lines, next, opener(m, k, i).len() as int, opener(m, k, i));
    assert(run(m, lines, next, None, prev, acc) == segment(m, lines, next + 1, 0, true, false, acc1));
    assert(next_construct(m, lines[next], 0) == Some((0int, k, i)));
    let n = (k2 - next) as nat;
    let doc: nat = if k == SyntaxType::DocMultiComment { 1 } else { 0 };
    let normal: nat = if k == SyntaxType::DocMultiComment { 0 } else { 1 };
    let acc2 = bump(acc1, 0, 0, n, doc * (n + 1), normal * (n + 1), 0);
    assert(segment(m, lines, next + 1, 0, true, false, acc1) == run(m, lines, k2 + 1, Some(e), false, acc2));
    if e < lines[k2].len() {
        assert(run(m, lines, k2 + 1, Some(e), false, acc2) == segment(m, lines, k2 + 1, e, false, false, acc2));
    }
    assert(run(m, lines, k2 + 1, Some(e), false, acc2) == run(m, lines, k2 + 1, None, false, acc2));
    assert(doc * (n + 1) == (if k == SyntaxType::DocMultiComment { n + 1 } else { 0 })) by (nonlinear_arith)
        requires doc == (if k == SyntaxType::DocMultiComment { 1nat } else { 0nat });
    assert(normal * (n + 1) == (if k == SyntaxType::DocMultiComment { 0 } else { n + 1 })) by (nonlinear_arith)
        requires normal == (if k == SyntaxType::DocMultiComment { 0nat } else { 1nat });
}

/// A block comment that opens at the start of a line and never closes makes
/// the parse fail with the unterminated-comment error.
pub proof fn lemma_unterminated_comment(
    m: SyntaxModel,
    lines: Seq<Seq<char>>,
    next: int,
    prev: bool,
    acc: Stats,
    k: SyntaxType,
    i: int,
)
    requires
        m.line_prefix is None,
        0 <= next < lines.len(),
        k == SyntaxType::DocMultiComment || k == SyntaxType::MultiComment,
        construct_at(m, lines[next], 0) == Some((k, i)),
        !spaces_only(lines[next], 0, lines[next].len() as int),
        comment_end(m, lines, next, opener(m, k, i).len() as int, opener(m, k, i)) is None,
    ensures
        run(m, lines, next, None, prev, acc) == Err::<Stats, SyntaxErrorKind>(SyntaxErrorKind::UnterminatedComment),
{
    let acc1 = bump(acc, 0, 0, 1, 0, 0, 0);
    assert(run(m, lines, next, None, prev, acc) == segment(m, lines, next + 1, 0, true, false, acc1));
    assert(next_construct(m, lines[next], 0) == Some((0int, k, i)));
}

} // verus!

verus! {

/// A block comment closes exactly when the balance is even: a scan that
/// reports a close leaves as many leading as trailing tokens, and one that
/// reaches the end of the line first leaves them unequal.
pub proof fn lemma_comment_closes_when_balanced(m: SyntaxModel, s: Seq<char>, p: int, b: Balance)
    ensures
        match comment_scan(m, s, p, b) {
            (Some(_), b2) => b2.leading.len() == b2.trailing.len(),
            (None, b2) => b2.leading.len() != b2.trailing.len(),
        },
    decreases s.len() - p,
{
    if b.leading.len() != b.trailing.len() && 0 <= p < s.len() {
        crate::scan::lemma_comment_token_at(m, s, p);
        match comment_token_at(m, s, p) {
            Some((t, open)) => lemma_comment_closes_when_balanced(m, s, p + t.len(), balance_step(m, b, t, open)),
            None => lemma_comment_closes_when_balanced(m, s, p + 1, b),
        }
    }
}

proof fn lemma_first_index(s: Seq<Seq<char>>, t: Seq<char>, i: int)
    requires
        0 <= i < s.len(),
        s[i] == t,
    ensures
        0 <= first_index(s, t) < s.len(),
        s[first_index(s, t)] == t,
    decreases i,
{
    if exists|j: int| 0 <= j < i && s[j] == t {
        let j = choose|j: int| 0 <= j < i && s[j] == t;
        lemma_first_index(s, t, j);
    } else {
        assert(0 <= i < s.len() && s[i] == t && forall|j: int| 0 <= j < i ==> s[j] != t);
    }
}

/// A closer whose only open candidate is one token takes one occurrence of
/// that token off the leading tokens and leaves the trailing ones as they
/// are; a closer without such a candidate is added to the trailing tokens.
pub proof fn lemma_closer_absorbed(m: SyntaxModel, b: Balance, c: Seq<char>)
    ensures
        has_sole_candidate(m, b.leading, c) ==> ({
            let b2 = balance_step(m, b, c, false);
            &&& b2.trailing == b.trailing
            &&& (exists|j: int|
                0 <= j < b.leading.len() && b.leading[j] == sole_candidate(m, b.leading, c)
                    && b2.leading == b.leading.remove(j))
        }),
        !has_sole_candidate(m, b.leading, c) ==> (balance_step(m, b, c, false) == (Balance {
            leading: b.leading,
            trailing: b.trailing.push(c),
        })),
{
    if has_sole_candidate(m, b.leading, c) {
        let l = sole_candidate(m, b.leading, c);
        assert(is_candidate(m, b.leading, c, l));
        let i = choose|i: int| 0 <= i < b.leading.len() && b.leading[i] == l;
        lemma_first_index(b.leading, l, i);
        let j = first_index(b.leading, l);
        assert(0 <= j < b.leading.len() && b.leading[j] == l);
    }
}

} // verus!

verus! {

/// An embedded region that opens at the start of a line is parsed on its own:
/// the statistics folded in are those of an independent parse of the region's
/// text with the embedded language's syntax. Its counters are added to the
/// host's, and it is recorded under its language unless that language already
/// has an entry (the first region wins). The opening line is counted once in
/// `all`, as the region's first line.
pub proof fn lemma_region_parsed_alone(
    m: SyntaxModel,
    lines: Seq<Seq<char>>,
    next: int,
    prev: bool,
    acc: Stats,
    i: int,
    k2: int,
    c: int,
    sub: Stats,
)
    requires
        m.line_prefix is None,
        0 <= next < lines.len(),
        construct_at(m, lines[next], 0) == Some((SyntaxType::SubLanguage, i)),
        !spaces_only(lines[next], 0, lines[next].len() as int),
        region_end(lines, next, m.sublang_pairs[i].0.0.len() as int, m.sublang_pairs[i].0.1) == Some(
            (k2, c),
        ),
        parse_model(
            m.sublang_pairs[i].1.syntax_model(),
            region_content(lines, next, m.sublang_pairs[i].0.0.len() as int, (k2, c)),
        ) == Ok::<Stats, SyntaxErrorKind>(sub),
    ensures
        ({
            let lang = m.sublang_pairs[i].1;
            let after = join_stats(acc, lang, sub);
            &&& run(m, lines, next, None, prev, acc) == run(
                m,
                lines,
                k2 + 1,
                Some(c + m.sublang_pairs[i].0.1.len()),
                false,
                after,
            )
            &&& after.code == acc.code + sub.code
            &&& after.blank == acc.blank + sub.blank
            &&& after.all == acc.all + sub.all
            &&& after.doc == acc.doc + sub.doc
            &&& after.normal == acc.normal + sub.normal
            &&& after.doc_quote == acc.doc_quote + sub.doc_quote
            &&& !acc.sub.contains_key(lang) ==> after.sub == acc.sub.insert(lang, sub)
            &&& acc.sub.contains_key(lang) ==> after.sub == acc.sub
        }),
{
    let acc1 = bump(acc, 0, 0, 1, 0, 0, 0);
    let lang = m.sublang_pairs[i].1;
    assert(run(m, lines, next, None, prev, acc) == segment(m, lines, next + 1, 0, true, false, acc1));
    assert(next_construct(m, lines[next], 0) == Some((0int, SyntaxType::SubLanguage, i)));
    let acc2 = join_stats(acc1, lang, sub);
    assert(Stats { all: (acc2.all - 1) as nat, ..acc2 } == join_stats(acc, lang, sub));
}

} // verus!

verus! {

/// A text of one line that is a line-comment token followed by text counts
/// one line, as one comment line (documentation for a documentation token).
pub proof fn lemma_line_comment_text(m: SyntaxModel, l: Seq<char>, k: SyntaxType, i: int)
    requires
        m.line_prefix is None,
        k == SyntaxType::DocComment || k == SyntaxType::SimpleComment,
        construct_at(m, l, 0) == Some((k, i)),
        !spaces_only(l, 0, l.len() as int),
    ensures
        parse_model(m, seq![l]) == Ok::<Stats, SyntaxErrorKind>(
            bump(
                zero_stats(),
                0,
                0,
                1,
                if k == SyntaxType::DocComment { 1 } else { 0 },
                if k == SyntaxType::DocComment { 0 } else { 1 },
                0,
            ),
        ),
{
    lemma_line_comment(m, seq![l], 0, false, zero_stats(), k, i);
}

/// A text whose lines form one block comment, opened at the start of the
/// first line and closed on the last with nothing but spaces after it,
/// counts all its lines as comment lines and none as code or blank.
pub proof fn lemma_block_comment_text(m: SyntaxModel, lines: Seq<Seq<char>>, k: SyntaxType, i: int, e: int)
    requires
        m.line_prefix is None,
        lines.len() > 0,
        k == SyntaxType::DocMultiComment || k == SyntaxType::MultiComment,
        construct_at(m, lines[0], 0) == Some((k, i)),
        !spaces_only(lines[0], 0, lines[0].len() as int),
        comment_end(m, lines, 0, opener(m, k, i).len() as int, opener(m, k, i)) == Some(
            (lines.len() - 1, e),
        ),
        spaces_only(lines[lines.len() - 1], e, lines[lines.len() - 1].len() as int),
    ensures
        parse_model(m, lines) == Ok::<Stats, SyntaxErrorKind>(
            bump(
                zero_stats(),
                0,
                0,
                lines.len(),
                if k == SyntaxType::DocMultiComment { lines.len() } else { 0 },
                if k == SyntaxType::DocMultiComment { 0 } else { lines.len() },
                0,
            ),
        ),
{
    lemma_block_comment(m, lines, 0, false, zero_stats(), k, i, lines.len() - 1, e);
}

/// A text whose first line opens a block comment that never closes fails
/// with the unterminated-comment error, whatever follows.
pub proof fn lemma_unterminated_comment_text(m: SyntaxModel, lines: Seq<Seq<char>>, k: SyntaxType, i: int)
    requires
        m.line_prefix is None,
        lines.len() > 0,
        k == SyntaxType::DocMultiComment || k == SyntaxType::MultiComment,
        construct_at(m, lines[0], 0) == Some((k, i)),
        !spaces_only(lines[0], 0, lines[0].len() as int),
        comment_end(m, lines, 0, opener(m, k, i).len() as int, opener(m, k, i)) is None,
    ensures
        parse_model(m, lines) == Err::<Stats, SyntaxErrorKind>(SyntaxErrorKind::UnterminatedComment),
{
    lemma_unterminated_comment(m, lines, 0, false, zero_stats(), k, i);
}

} // verus!

verus! {

/// Once a language has an entry in the counts, the rest of the parse keeps
/// that entry as it is: a later region of the same language adds to the
/// counters but does not replace the recorded statistics.
pub proof fn lemma_run_keeps_entry(
    m: SyntaxModel,
    lines: Seq<Seq<char>>,
    next: int,
    cur: Option<int>,
    prev: bool,
    acc: Stats,
    k: LanguageType,
)
    requires
        acc.sub.contains_key(k),
        run(m, lines, next, cur, prev, acc) is Ok,
    ensures
        run(m, lines, next, cur, prev, acc)->Ok_0.sub.contains_key(k),
        run(m, lines, next, cur, prev, acc)->Ok_0.sub[k] == acc.sub[k],
    decreases state_cost(lines, next, cur), 1nat,
{
    match cur {
        Some(p) => {
            if 1 <= next <= lines.len() && 0 <= p < lines[next - 1].len() {
                lemma_segment_keeps_entry(m, lines, next, p, false, prev, acc, k);
            } else {
                lemma_run_keeps_entry(m, lines, next, None, false, acc, k);
            }
        },
        None => {
            if 0 <= next < lines.len() {
                lemma_tail_cost(lines, next, next + 1);
                let acc1 = bump(acc, 0, 0, 1, 0, 0, 0);
                match m.line_prefix {
                    Some(pf) => {
                        if prefix_at(lines[next], 0, pf) {
                            lemma_segment_keeps_entry(m, lines, next + 1, pf.len() as int, true, false, acc1, k);
                        }
                    },
                    None => lemma_segment_keeps_entry(m, lines, next + 1, 0, true, false, acc1, k),
                }
            }
        },
    }
}

proof fn lemma_segment_keeps_entry(
    m: SyntaxModel,
    lines: Seq<Seq<char>>,
    next: int,
    p: int,
    is_new: bool,
    prev: bool,
    acc: Stats,
    k: LanguageType,
)
    requires
        acc.sub.contains_key(k),
        segment(m, lines, next, p, is_new, prev, acc) is Ok,
    ensures
        segment(m, lines, next, p, is_new, prev, acc)->Ok_0.sub.contains_key(k),
        segment(m, lines, next, p, is_new, prev, acc)->Ok_0.sub[k] == acc.sub[k],
    decreases state_cost(lines, next, Some(p)), 0nat,
{
    if 1 <= next <= lines.len() && 0 <= p <= lines[next - 1].len() {
        let li = next - 1;
        let s = lines[li];
        if spaces_only(s, p, s.len() as int) {
            let a = if !prev && is_new { bump(acc, 0, 1, 0, 0, 0, 0) } else { acc };
            lemma_run_keeps_entry(m, lines, next, None, prev, a, k);
        } else {
            match next_construct(m, s, p) {
                None => {
                    if !prev {
                        lemma_run_keeps_entry(m, lines, next, None, false, bump(acc, 1, 0, 0, 0, 0, 0), k);
                    } else {
                        lemma_run_keeps_entry(m, lines, next, None, prev, acc, k);
                    }
                },
                Some((q, kind, i)) => {
                    lemma_next_construct(m, s, p);
                    lemma_construct_at(m, s, q);
                    let cc = !prev && !(kind == SyntaxType::DocString || kind == SyntaxType::LitString
                        || kind == SyntaxType::String) && q > p && !spaces_only(s, p, q);
                    let prev1 = prev || cc;
                    let acc1 = if cc { bump(acc, 1, 0, 0, 0, 0, 0) } else { acc };
                    let start = q + opener(m, kind, i).len();
                    if kind == SyntaxType::SubLanguage {
                        let right = m.sublang_pairs[i].0.1;
                        let lang = m.sublang_pairs[i].1;
                        if let Some((k2, c)) = region_end(lines, li, start, right) {
                            lemma_find_token(s, start, right);
                            lemma_region_lines(lines, next, right);
                            lemma_region_cost(lines, next, p, start, k2, c, right.len() as int);
                            if let Ok(sub) = parse_model(lang.syntax_model(), region_content(lines, li, start, (k2, c))) {
                                let acc2 = join_stats(acc1, lang, sub);
                                let acc3 = Stats { all: (acc2.all - 1) as nat, ..acc2 };
                                lemma_run_keeps_entry(m, lines, k2 + 1, Some(c + right.len()), k2 == li && prev1, acc3, k);
                            }
                        }
                    } else if kind == SyntaxType::DocMultiComment || kind == SyntaxType::MultiComment {
                        let doc: nat = if kind == SyntaxType::DocMultiComment { 1 } else { 0 };
                        let normal: nat = if kind == SyntaxType::DocMultiComment { 0 } else { 1 };
                        if let Some((k2, e)) = comment_end(m, lines, li, start, opener(m, kind, i)) {
                            lemma_comment_end(m, lines, li, start, opener(m, kind, i));
                            lemma_cost_after(lines, next, p, k2, e);
                            let n = (k2 - li) as nat;
                            lemma_run_keeps_entry(m, lines, k2 + 1, Some(e), k2 == li && prev1, bump(acc1, 0, 0, n, doc * (n + 1), normal * (n + 1), 0), k);
                        }
                    } else if kind == SyntaxType::DocString || kind == SyntaxType::LitString || kind == SyntaxType::String {
                        let right = if kind == SyntaxType::DocString {
                            m.doc_quote_pairs[i].1
                        } else if kind == SyntaxType::LitString {
                            m.literal_quote_pairs[i].1
                        } else {
                            m.quote_pairs[i].1
                        };
                        let literal = kind == SyntaxType::LitString;
                        let dq: nat = if kind == SyntaxType::DocString { 1 } else { 0 };
                        let acc2 = if !prev1 { bump(acc1, 1, 0, 0, 0, 0, 0) } else { acc1 };
                        if let Some((k2, e)) = string_end(lines, li, start, right, literal) {
                            lemma_string_close(s, start, right, literal);
                            lemma_string_lines(lines, next, right, literal);
                            lemma_cost_after(lines, next, p, k2, e);
                            let n = (k2 - li) as nat;
                            lemma_run_keeps_entry(m, lines, k2 + 1, Some(e), true, bump(acc2, n, 0, n, 0, 0, dq * (n + 1)), k);
                        }
                    } else if kind == SyntaxType::DocComment {
                        lemma_run_keeps_entry(m, lines, next, None, prev1, bump(acc1, 0, 0, 0, 1, 0, 0), k);
                    } else {
                        lemma_run_keeps_entry(m, lines, next, None, prev1, bump(acc1, 0, 0, 0, 0, 1, 0), k);
                    }
                },
            }
        }
    }
}

} // verus!

verus! {

/// When a text opens with an embedded region and parses, its statistics
/// record, under the region's language, exactly an independent parse of the
/// region's text with that language's syntax.
pub proof fn lemma_first_region_recorded(
    m: SyntaxModel,
    lines: Seq<Seq<char>>,
    i: int,
    k2: int,
    c: int,
    sub: Stats,
)
    requires
        m.line_prefix is None,
        lines.len() > 0,
        construct_at(m, lines[0], 0) == Some((SyntaxType::SubLanguage, i)),
        !spaces_only(lines[0], 0, lines[0].len() as int),
        region_end(lines, 0, m.sublang_pairs[i].0.0.len() as int, m.sublang_pairs[i].0.1) == Some(
            (k2, c),
        ),
        parse_model(
            m.sublang_pairs[i].1.syntax_model(),
            region_content(lines, 0, m.sublang_pairs[i].0.0.len() as int, (k2, c)),
        ) == Ok::<Stats, SyntaxErrorKind>(sub),
        parse_model(m, lines) is Ok,
    ensures
        parse_model(m, lines)->Ok_0.sub.contains_key(m.sublang_pairs[i].1),
        parse_model(m, lines)->Ok_0.sub[m.sublang_pairs[i].1] == sub,
{
    let lang = m.sublang_pairs[i].1;
    lemma_region_parsed_alone(m, lines, 0, false, zero_stats(), i, k2, c, sub);
    let after = join_stats(zero_stats(), lang, sub);
    lemma_run_keeps_entry(m, lines, k2 + 1, Some(c + m.sublang_pairs[i].0.1.len()), false, after, lang);
}

} // verus!

verus! {

/// Inside a comment opened by `l` alone, a closer `c` of a pair `(l, c)` is
/// absorbed by `l`: the comment closes right after `c`, with no leading and
/// no trailing token left.
pub proof fn lemma_single_open_closes(m: SyntaxModel, s: Seq<char>, p: int, l: Seq<char>, c: Seq<char>)
    requires
        0 <= p < s.len(),
        comment_tables(m).contains((l, c)),
        comment_token_at(m, s, p) == Some((c, false)),
    ensures
        comment_scan(m, s, p, Balance { leading: seq![l], trailing: Seq::empty() }) == (
            Some(p + c.len()),
            Balance { leading: Seq::<Seq<char>>::empty(), trailing: Seq::<Seq<char>>::empty() },
        ),
{
    let b = Balance { leading: seq![l], trailing: Seq::<Seq<char>>::empty() };
    crate::scan::lemma_comment_token_at(m, s, p);
    assert(is_candidate(m, b.leading, c, l)) by {
        assert(b.leading[0] == l);
    }
    assert forall|l2: Seq<char>| #[trigger] is_candidate(m, b.leading, c, l2) implies l2 == l by {
        let t = choose|t: int| 0 <= t < b.leading.len() && b.leading[t] == l2;
        assert(t == 0);
    }
    assert(has_sole_candidate(m, b.leading, c));
    assert(sole_candidate(m, b.leading, c) == l);
    lemma_first_index(b.leading, l, 0);
    assert(first_index(b.leading, l) == 0);
    let b2 = balance_step(m, b, c, false);
    assert(b2.leading =~= Seq::<Seq<char>>::empty());
    assert(b2 == Balance { leading: Seq::<Seq<char>>::empty(), trailing: Seq::<Seq<char>>::empty() });
    assert(b.leading.len() != b.trailing.len());
    assert(comment_scan(m, s, p, b) == comment_scan(m, s, p + c.len(), b2));
    assert(comment_scan(m, s, p + c.len(), b2) == (Some(p + c.len()), b2));
}

} // verus!
