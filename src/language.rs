//! Languages and their lexical syntax tables.
use vstd::prelude::*;

use crate::text::str_eq;

verus! {

/// The kinds of lexical construct that the classifier tells apart.
#[derive(Debug, Clone, Copy, PartialEq, Eq, Structural, PartialOrd, Ord)]
pub enum SyntaxType {
    Soi,
    Blank,
    Code,
    DocString,
    LitString,
    String,
    DocMultiComment,
    MultiComment,
    DocComment,
    SimpleComment,
    SubLanguage,
    Eoi,
}

/// A named pair of delimiters: `left` opens a construct, `right` closes it.
#[derive(Debug, Clone, PartialEq, Eq)]
pub struct SyntaxPair {
    pub name: &'static str,
    pub left: &'static str,
    pub right: &'static str,
}

impl View for SyntaxPair {
    type V = (Seq<char>, Seq<char>);

    open spec fn view(&self) -> (Seq<char>, Seq<char>) {
        (self.left@, self.right@)
    }
}

/// The languages whose syntax the library knows.
#[derive(Debug, Clone, Copy, PartialEq, Eq, Structural, PartialOrd, Ord, Hash)]
pub enum LanguageType {
    C,
    Css,
    Html,
    JavaScript,
    PlainText,
    Python,
    Rust,
}

/// What the classifier reads of a language's syntax, as plain values.
pub struct SyntaxModel {
    pub line_prefix: Option<Seq<char>>,
    pub ignore_prefix_space: bool,
    pub doc_comment: Seq<Seq<char>>,
    pub simple_comment: Seq<Seq<char>>,
    pub block_pairs: Seq<(Seq<char>, Seq<char>)>,
    pub doc_comment_pairs: Seq<(Seq<char>, Seq<char>)>,
    pub comment_pairs: Seq<(Seq<char>, Seq<char>)>,
    pub literal_quote_pairs: Seq<(Seq<char>, Seq<char>)>,
    pub quote_pairs: Seq<(Seq<char>, Seq<char>)>,
    pub doc_quote_pairs: Seq<(Seq<char>, Seq<char>)>,
    pub sublang_pairs: Seq<((Seq<char>, Seq<char>), LanguageType)>,
    /// The names of the pairs, one list per table: block, documentation
    /// comment, comment, literal string, string, documentation string, and
    /// sub-language.
    pub pair_names: Seq<Seq<Seq<char>>>,
}

/// Every token of the list is non-empty.
pub open spec fn nonempty_tokens(ts: Seq<Seq<char>>) -> bool {
    forall|i: int| 0 <= i < ts.len() ==> (#[trigger] ts[i]).len() > 0
}

/// Both tokens of every pair of the table are non-empty.
pub open spec fn nonempty_pairs(ps: Seq<(Seq<char>, Seq<char>)>) -> bool {
    forall|i: int| 0 <= i < ps.len() ==> (#[trigger] ps[i]).0.len() > 0 && ps[i].1.len() > 0
}

impl SyntaxModel {
    /// Well-formed tables: every delimiter is non-empty. This is a rule on a
    /// language's configuration; the classifier is defined on well-formed
    /// tables only, and every built-in language meets it.
    pub open spec fn wf(self) -> bool {
        &&& nonempty_tokens(self.doc_comment)
        &&& nonempty_tokens(self.simple_comment)
        &&& nonempty_pairs(self.block_pairs)
        &&& nonempty_pairs(self.doc_comment_pairs)
        &&& nonempty_pairs(self.comment_pairs)
        &&& nonempty_pairs(self.literal_quote_pairs)
        &&& nonempty_pairs(self.quote_pairs)
        &&& nonempty_pairs(self.doc_quote_pairs)
        &&& nonempty_pairs(sublang_delims(self.sublang_pairs))
    }
}

/// The immutable delimiter tables of one language.
///
/// Every list is ordered: lookups return the first entry that matches.
#[derive(Debug, Clone)]
pub struct LanguageSyntax {
    pub line_prefix: Option<&'static str>,
    pub ignore_prefix_space: bool,
    pub doc_comment: Vec<&'static str>,
    pub simple_comment: Vec<&'static str>,
    pub block_pairs: Vec<SyntaxPair>,
    pub doc_comment_pairs: Vec<SyntaxPair>,
    pub comment_pairs: Vec<SyntaxPair>,
    pub literal_quote_pairs: Vec<SyntaxPair>,
    pub quote_pairs: Vec<SyntaxPair>,
    pub doc_quote_pairs: Vec<SyntaxPair>,
    pub sublang_pairs: Vec<(SyntaxPair, LanguageType)>,
}

pub open spec fn strs_view(s: Seq<&'static str>) -> Seq<Seq<char>> {
    Seq::new(s.len(), |i: int| s[i]@)
}

pub open spec fn pairs_view(s: Seq<SyntaxPair>) -> Seq<(Seq<char>, Seq<char>)> {
    Seq::new(s.len(), |i: int| s[i]@)
}

/// The names of a pair table.
pub open spec fn names_view(s: Seq<SyntaxPair>) -> Seq<Seq<char>> {
    Seq::new(s.len(), |i: int| s[i].name@)
}

pub open spec fn sublang_view(s: Seq<(SyntaxPair, LanguageType)>) -> Seq<
    ((Seq<char>, Seq<char>), LanguageType),
> {
    Seq::new(s.len(), |i: int| (s[i].0@, s[i].1))
}

impl View for LanguageSyntax {
    type V = SyntaxModel;

    open spec fn view(&self) -> SyntaxModel {
        SyntaxModel {
            line_prefix: match self.line_prefix {
                Some(p) => Some(p@),
                None => None,
            },
            ignore_prefix_space: self.ignore_prefix_space,
            doc_comment: strs_view(self.doc_comment@),
            simple_comment: strs_view(self.simple_comment@),
            block_pairs: pairs_view(self.block_pairs@),
            doc_comment_pairs: pairs_view(self.doc_comment_pairs@),
            comment_pairs: pairs_view(self.comment_pairs@),
            literal_quote_pairs: pairs_view(self.literal_quote_pairs@),
            quote_pairs: pairs_view(self.quote_pairs@),
            doc_quote_pairs: pairs_view(self.doc_quote_pairs@),
            sublang_pairs: sublang_view(self.sublang_pairs@),
            pair_names: seq![
                names_view(self.block_pairs@),
                names_view(self.doc_comment_pairs@),
                names_view(self.comment_pairs@),
                names_view(self.literal_quote_pairs@),
                names_view(self.quote_pairs@),
                names_view(self.doc_quote_pairs@),
                Seq::new(self.sublang_pairs@.len(), |i: int| self.sublang_pairs@[i].0.name@),
            ],
        }
    }
}

/// The index of the first pair whose `left` (or, with `by_right`, whose `right`)
/// token equals `t`, looking from index `i` on.
pub open spec fn first_pair_from(
    pairs: Seq<(Seq<char>, Seq<char>)>,
    t: Seq<char>,
    by_right: bool,
    i: int,
) -> Option<int>
    decreases pairs.len() - i,
{
    if i < 0 || i >= pairs.len() {
        None
    } else if (if by_right {
        pairs[i].1
    } else {
        pairs[i].0
    }) == t {
        Some(i)
    } else {
        first_pair_from(pairs, t, by_right, i + 1)
    }
}

/// The pairs whose `right` token equals `t`, in table order.
pub open spec fn pairs_closed_by(pairs: Seq<SyntaxPair>, t: Seq<char>) -> Seq<SyntaxPair>
    decreases pairs.len(),
{
    if pairs.len() == 0 {
        Seq::empty()
    } else {
        let rest = pairs_closed_by(pairs.drop_last(), t);
        if pairs.last().right@ == t {
            rest.push(pairs.last())
        } else {
            rest
        }
    }
}

/// The pairs that a sequence of references points to.
pub open spec fn deref_all(s: Seq<&SyntaxPair>) -> Seq<SyntaxPair> {
    s.map_values(|p: &SyntaxPair| *p)
}

/// First pair of `pairs` whose left token is `left`.
fn find_by_left<'a>(pairs: &'a Vec<SyntaxPair>, left: &str) -> (r: Option<&'a SyntaxPair>)
    ensures
        match first_pair_from(pairs_view(pairs@), left@, false, 0) {
            Some(i) => r == Some(&pairs@[i]),
            None => r is None,
        },
{
    let ghost pv = pairs_view(pairs@);
    let mut i: usize = 0;
    while i < pairs.len()
        invariant
            i <= pairs@.len(),
            pv == pairs_view(pairs@),
            first_pair_from(pv, left@, false, 0) == first_pair_from(pv, left@, false, i as int),
        decreases pairs.len() - i,
    {
        if str_eq(pairs[i].left, left) {
            return Some(&pairs[i]);
        }
        i = i + 1;
    }
    None
}

/// Every pair of `pairs` whose right token is `right`, in table order.
fn find_by_right<'a>(pairs: &'a Vec<SyntaxPair>, right: &str) -> (r: Vec<&'a SyntaxPair>)
    ensures
        deref_all(r@) == pairs_closed_by(pairs@, right@),
{
    let mut ls: Vec<&'a SyntaxPair> = Vec::new();
    let mut i: usize = 0;
    while i < pairs.len()
        invariant
            i <= pairs@.len(),
            deref_all(ls@) == pairs_closed_by(pairs@.subrange(0, i as int), right@),
        decreases pairs.len() - i,
    {
        assert(pairs@.subrange(0, i + 1).drop_last() =~= pairs@.subrange(0, i as int));
        let ghost old_ls = ls@;
        if str_eq(pairs[i].right, right) {
            ls.push(&pairs[i]);
            assert(deref_all(ls@) =~= deref_all(old_ls).push(pairs@[i as int]));
        } else {
            assert(deref_all(ls@) =~= deref_all(old_ls));
        }
        i = i + 1;
    }
    assert(pairs@.subrange(0, pairs@.len() as int) =~= pairs@);
    ls
}

/// The delimiter pairs of the sub-language table.
pub open spec fn sublang_delims(s: Seq<((Seq<char>, Seq<char>), LanguageType)>) -> Seq<
    (Seq<char>, Seq<char>),
> {
    s.map_values(|e: ((Seq<char>, Seq<char>), LanguageType)| e.0)
}

/// First sub-language entry whose left (or, with `by_right`, right) token is `t`.
fn find_sublang<'a>(pairs: &'a Vec<(SyntaxPair, LanguageType)>, t: &str, by_right: bool) -> (r:
    Option<&'a (SyntaxPair, LanguageType)>)
    ensures
        match first_pair_from(sublang_delims(sublang_view(pairs@)), t@, by_right, 0) {
            Some(i) => r == Some(&pairs@[i]),
            None => r is None,
        },
{
    let ghost pv = sublang_delims(sublang_view(pairs@));
    let mut i: usize = 0;
    while i < pairs.len()
        invariant
            i <= pairs@.len(),
            pv == sublang_delims(sublang_view(pairs@)),
            first_pair_from(pv, t@, by_right, 0) == first_pair_from(pv, t@, by_right, i as int),
        decreases pairs.len() - i,
    {
        let tok = if by_right {
            pairs[i].0.right
        } else {
            pairs[i].0.left
        };
        if str_eq(tok, t) {
            return Some(&pairs[i]);
        }
        i = i + 1;
    }
    None
}

impl LanguageSyntax {
    /// The first block pair that opens with `left`.
    pub fn find_right_block_pair(&self, left: &str) -> (r: Option<&SyntaxPair>)
        ensures
            match first_pair_from(self@.block_pairs, left@, false, 0) {
                Some(i) => r == Some(&self.block_pairs@[i]),
                None => r is None,
            },
    {
        find_by_left(&self.block_pairs, left)
    }

    /// The block pairs that close with `right`, in table order.
    pub fn find_left_block_pair(&self, right: &str) -> (r: Vec<&SyntaxPair>)
        ensures
            deref_all(r@) == pairs_closed_by(self.block_pairs@, right@),
    {
        find_by_right(&self.block_pairs, right)
    }
    /// The first comment pair that opens with `left`.
    pub fn find_right_comment_pair(&self, left: &str) -> (r: Option<&SyntaxPair>)
        ensures
            match first_pair_from(self@.comment_pairs, left@, false, 0) {
                Some(i) => r == Some(&self.comment_pairs@[i]),
                None => r is None,
            },
    {
        find_by_left(&self.comment_pairs, left)
    }

    /// The comment pairs that close with `right`, in table order.
    pub fn find_left_comment_pair(&self, right: &str) -> (r: Vec<&SyntaxPair>)
        ensures
            deref_all(r@) == pairs_closed_by(self.comment_pairs@, right@),
    {
        find_by_right(&self.comment_pairs, right)
    }

    /// The first doc-comment pair that opens with `left`.
    pub fn find_right_doc_comment_pair(&self, left: &str) -> (r: Option<&SyntaxPair>)
        ensures
            match first_pair_from(self@.doc_comment_pairs, left@, false, 0) {
                Some(i) => r == Some(&self.doc_comment_pairs@[i]),
                None => r is None,
            },
    {
        find_by_left(&self.doc_comment_pairs, left)
    }

    /// The doc-comment pairs that close with `right`, in table order.
    pub fn find_left_doc_comment_pair(&self, right: &str) -> (r: Vec<&SyntaxPair>)
        ensures
            deref_all(r@) == pairs_closed_by(self.doc_comment_pairs@, right@),
    {
        find_by_right(&self.doc_comment_pairs, right)
    }

    /// The first quote pair that opens with `left`.
    pub fn find_right_quote_pair(&self, left: &str) -> (r: Option<&SyntaxPair>)
        ensures
            match first_pair_from(self@.quote_pairs, left@, false, 0) {
                Some(i) => r == Some(&self.quote_pairs@[i]),
                None => r is None,
            },
    {
        find_by_left(&self.quote_pairs, left)
    }

    /// The quote pairs that close with `right`, in table order.
    pub fn find_left_quote_pair(&self, right: &str) -> (r: Vec<&SyntaxPair>)
        ensures
            deref_all(r@) == pairs_closed_by(self.quote_pairs@, right@),
    {
        find_by_right(&self.quote_pairs, right)
    }

    /// The first literal-quote pair that opens with `left`.
    pub fn find_right_lit_quote_pair(&self, left: &str) -> (r: Option<&SyntaxPair>)
        ensures
            match first_pair_from(self@.literal_quote_pairs, left@, false, 0) {
                Some(i) => r == Some(&self.literal_quote_pairs@[i]),
                None => r is None,
            },
    {
        find_by_left(&self.literal_quote_pairs, left)
    }

    /// The literal-quote pairs that close with `right`, in table order.
    pub fn find_left_lit_quote_pair(&self, right: &str) -> (r: Vec<&SyntaxPair>)
        ensures
            deref_all(r@) == pairs_closed_by(self.literal_quote_pairs@, right@),
    {
        find_by_right(&self.literal_quote_pairs, right)
    }

    /// The first sub-language region whose opening token is `left`.
    pub fn find_right_sublang_pair(&self, left: &str) -> (r: Option<&(SyntaxPair, LanguageType)>)
        ensures
            match first_pair_from(sublang_delims(self@.sublang_pairs), left@, false, 0) {
                Some(i) => r == Some(&self.sublang_pairs@[i]),
                None => r is None,
            },
    {
        find_sublang(&self.sublang_pairs, left, false)
    }

    /// The first sub-language region whose closing token is `right`.
    pub fn find_left_sublang_pair(&self, right: &str) -> (r: Option<&(SyntaxPair, LanguageType)>)
        ensures
            match first_pair_from(sublang_delims(self@.sublang_pairs), right@, true, 0) {
                Some(i) => r == Some(&self.sublang_pairs@[i]),
                None => r is None,
            },
    {
        find_sublang(&self.sublang_pairs, right, true)
    }
}

} // verus!

verus! {

fn pair(name: &'static str, left: &'static str, right: &'static str) -> (r: SyntaxPair)
    ensures
        r.name == name,
        r.left == left,
        r.right == right,
{
    SyntaxPair { name, left, right }
}

impl LanguageType {
    /// The delimiter tables of this language, as plain values.
    pub open spec fn syntax_model(self) -> SyntaxModel {
        match self {
            LanguageType::C => SyntaxModel {
                line_prefix: None,
                ignore_prefix_space: true,
                doc_comment: seq![],
                simple_comment: seq!["//"@],
                block_pairs: seq![("{"@, "}"@)],
                doc_comment_pairs: seq![],
                comment_pairs: seq![("/*"@, "*/"@)],
                literal_quote_pairs: seq![],
                quote_pairs: seq![("\""@, "\""@), ("'"@, "'"@)],
                doc_quote_pairs: seq![],
                sublang_pairs: seq![],
                pair_names: seq![seq!["block1"@], seq![], seq!["cop1"@], seq![], seq!["quotep1"@, "quotep2"@], seq![], seq![]],
            },
            LanguageType::Css => SyntaxModel {
                line_prefix: None,
                ignore_prefix_space: true,
                doc_comment: seq![],
                simple_comment: seq![],
                block_pairs: seq![("{"@, "}"@)],
                doc_comment_pairs: seq![],
                comment_pairs: seq![("/*"@, "*/"@)],
                literal_quote_pairs: seq![],
                quote_pairs: seq![("\""@, "\""@), ("'"@, "'"@)],
                doc_quote_pairs: seq![],
                sublang_pairs: seq![],
                pair_names: seq![seq!["block1"@], seq![], seq!["cop1"@], seq![], seq!["quotep1"@, "quotep2"@], seq![], seq![]],
            },
            LanguageType::Html => SyntaxModel {
                line_prefix: None,
                ignore_prefix_space: true,
                doc_comment: seq![],
                simple_comment: seq![],
                block_pairs: seq![],
                doc_comment_pairs: seq![],
                comment_pairs: seq![("<!--"@, "-->"@)],
                literal_quote_pairs: seq![],
                quote_pairs: seq![],
                doc_quote_pairs: seq![],
                sublang_pairs: seq![(("<script>"@, "</script>"@), LanguageType::JavaScript), (("<style>"@, "</style>"@), LanguageType::Css)],
                pair_names: seq![seq![], seq![], seq!["cop1"@], seq![], seq![], seq![], seq!["sbp1"@, "sbp2"@]],
            },
            LanguageType::JavaScript => SyntaxModel {
                line_prefix: None,
                ignore_prefix_space: true,
                doc_comment: seq![],
                simple_comment: seq!["//"@],
                block_pairs: seq![("{"@, "}"@)],
                doc_comment_pairs: seq![("/**"@, "*/"@)],
                comment_pairs: seq![("/*"@, "*/"@)],
                literal_quote_pairs: seq![],
                quote_pairs: seq![("\""@, "\""@), ("'"@, "'"@), ("`"@, "`"@)],
                doc_quote_pairs: seq![],
                sublang_pairs: seq![],
                pair_names: seq![seq!["block1"@], seq!["dcp1"@], seq!["cop1"@], seq![], seq!["quotep1"@, "quotep2"@, "quotep3"@], seq![], seq![]],
            },
            LanguageType::PlainText => SyntaxModel {
                line_prefix: None,
                ignore_prefix_space: true,
                doc_comment: seq![],
                simple_comment: seq![],
                block_pairs: seq![],
                doc_comment_pairs: seq![],
                comment_pairs: seq![],
                literal_quote_pairs: seq![],
                quote_pairs: seq![],
                doc_quote_pairs: seq![],
                sublang_pairs: seq![],
                pair_names: seq![seq![], seq![], seq![], seq![], seq![], seq![], seq![]],
            },
            LanguageType::Python => SyntaxModel {
                line_prefix: None,
                ignore_prefix_space: true,
                doc_comment: seq![],
                simple_comment: seq!["#"@],
                block_pairs: seq![],
                doc_comment_pairs: seq![],
                comment_pairs: seq![],
                literal_quote_pairs: seq![],
                quote_pairs: seq![("\""@, "\""@), ("'"@, "'"@)],
                doc_quote_pairs: seq![("\"\"\""@, "\"\"\""@), ("'''"@, "'''"@)],
                sublang_pairs: seq![],
                pair_names: seq![seq![], seq![], seq![], seq![], seq!["quotep1"@, "quotep2"@], seq!["dqp1"@, "dqp2"@], seq![]],
            },
            LanguageType::Rust => SyntaxModel {
                line_prefix: None,
                ignore_prefix_space: true,
                doc_comment: seq!["///"@, "//!"@],
                simple_comment: seq!["//"@],
                block_pairs: seq![("{"@, "}"@)],
                doc_comment_pairs: seq![("/**"@, "*/"@), ("/*!"@, "*/"@)],
                comment_pairs: seq![("/*"@, "*/"@)],
                literal_quote_pairs: seq![("r##\""@, "\"##"@), ("r#\""@, "\"#"@), ("r\""@, "\""@)],
                quote_pairs: seq![("\""@, "\""@)],
                doc_quote_pairs: seq![],
                sublang_pairs: seq![],
                pair_names: seq![seq!["block1"@], seq!["dcp1"@, "dcp2"@], seq!["cop1"@], seq!["litqp1"@, "litqp2"@, "litqp3"@], seq!["quotep1"@], seq![], seq![]],
            },
        }
    }

    /// The tables of every built-in language are well formed.
    pub proof fn lemma_wf(self)
        ensures
            self.syntax_model().wf(),
    {
        match self {
            LanguageType::C => {
                reveal_strlit("//");
                reveal_strlit("{");
                reveal_strlit("}");
                reveal_strlit("/*");
                reveal_strlit("*/");
                reveal_strlit("\"");
                reveal_strlit("'");
            },
            LanguageType::Css => {
                reveal_strlit("{");
                reveal_strlit("}");
                reveal_strlit("/*");
                reveal_strlit("*/");
                reveal_strlit("\"");
                reveal_strlit("'");
            },
            LanguageType::Html => {
                reveal_strlit("<!--");
                reveal_strlit("-->");
                reveal_strlit("<script>");
                reveal_strlit("</script>");
                reveal_strlit("<style>");
                reveal_strlit("</style>");
            },
            LanguageType::JavaScript => {
                reveal_strlit("//");
                reveal_strlit("{");
                reveal_strlit("}");
                reveal_strlit("/**");
                reveal_strlit("*/");
                reveal_strlit("/*");
                reveal_strlit("\"");
                reveal_strlit("'");
                reveal_strlit("`");
            },
            LanguageType::PlainText => {
            },
            LanguageType::Python => {
                reveal_strlit("#");
                reveal_strlit("\"");
                reveal_strlit("'");
                reveal_strlit("\"\"\"");
                reveal_strlit("'''");
            },
            LanguageType::Rust => {
                reveal_strlit("//");
                reveal_strlit("///");
                reveal_strlit("//!");
                reveal_strlit("{");
                reveal_strlit("}");
                reveal_strlit("/**");
                reveal_strlit("*/");
                reveal_strlit("/*!");
                reveal_strlit("/*");
                reveal_strlit("r##\"");
                reveal_strlit("\"##");
                reveal_strlit("r#\"");
                reveal_strlit("\"#");
                reveal_strlit("r\"");
                reveal_strlit("\"");
            },
        }
    }

    /// The delimiter tables of this language.
    pub fn get_language_syntax(&self) -> (r: LanguageSyntax)
        ensures
            r@ == self.syntax_model(),
    {
        let r = match self {
            LanguageType::C => LanguageSyntax {
                line_prefix: None,
                ignore_prefix_space: true,
                doc_comment: vec![],
                simple_comment: vec!["//"],
                block_pairs: vec![pair("block1", "{", "}")],
                doc_comment_pairs: vec![],
                comment_pairs: vec![pair("cop1", "/*", "*/")],
                literal_quote_pairs: vec![],
                quote_pairs: vec![pair("quotep1", "\"", "\""), pair("quotep2", "'", "'")],
                doc_quote_pairs: vec![],
                sublang_pairs: vec![],
            },
            LanguageType::Css => LanguageSyntax {
                line_prefix: None,
                ignore_prefix_space: true,
                doc_comment: vec![],
                simple_comment: vec![],
                block_pairs: vec![pair("block1", "{", "}")],
                doc_comment_pairs: vec![],
                comment_pairs: vec![pair("cop1", "/*", "*/")],
                literal_quote_pairs: vec![],
                quote_pairs: vec![pair("quotep1", "\"", "\""), pair("quotep2", "'", "'")],
                doc_quote_pairs: vec![],
                sublang_pairs: vec![],
            },
            LanguageType::Html => LanguageSyntax {
                line_prefix: None,
                ignore_prefix_space: true,
                doc_comment: vec![],
                simple_comment: vec![],
                block_pairs: vec![],
                doc_comment_pairs: vec![],
                comment_pairs: vec![pair("cop1", "<!--", "-->")],
                literal_quote_pairs: vec![],
                quote_pairs: vec![],
                doc_quote_pairs: vec![],
                sublang_pairs: vec![(pair("sbp1", "<script>", "</script>"), LanguageType::JavaScript), (pair("sbp2", "<style>", "</style>"), LanguageType::Css)],
            },
            LanguageType::JavaScript => LanguageSyntax {
                line_prefix: None,
                ignore_prefix_space: true,
                doc_comment: vec![],
                simple_comment: vec!["//"],
                block_pairs: vec![pair("block1", "{", "}")],
                doc_comment_pairs: vec![pair("dcp1", "/**", "*/")],
                comment_pairs: vec![pair("cop1", "/*", "*/")],
                literal_quote_pairs: vec![],
                quote_pairs: vec![pair("quotep1", "\"", "\""), pair("quotep2", "'", "'"), pair("quotep3", "`", "`")],
                doc_quote_pairs: vec![],
                sublang_pairs: vec![],
            },
            LanguageType::PlainText => LanguageSyntax {
                line_prefix: None,
                ignore_prefix_space: true,
                doc_comment: vec![],
                simple_comment: vec![],
                block_pairs: vec![],
                doc_comment_pairs: vec![],
                comment_pairs: vec![],
                literal_quote_pairs: vec![],
                quote_pairs: vec![],
                doc_quote_pairs: vec![],
                sublang_pairs: vec![],
            },
            LanguageType::Python => LanguageSyntax {
                line_prefix: None,
                ignore_prefix_space: true,
                doc_comment: vec![],
                simple_comment: vec!["#"],
                block_pairs: vec![],
                doc_comment_pairs: vec![],
                comment_pairs: vec![],
                literal_quote_pairs: vec![],
                quote_pairs: vec![pair("quotep1", "\"", "\""), pair("quotep2", "'", "'")],
                doc_quote_pairs: vec![pair("dqp1", "\"\"\"", "\"\"\""), pair("dqp2", "'''", "'''")],
                sublang_pairs: vec![],
            },
            LanguageType::Rust => LanguageSyntax {
                line_prefix: None,
                ignore_prefix_space: true,
                doc_comment: vec!["///", "//!"],
                simple_comment: vec!["//"],
                block_pairs: vec![pair("block1", "{", "}")],
                doc_comment_pairs: vec![pair("dcp1", "/**", "*/"), pair("dcp2", "/*!", "*/")],
                comment_pairs: vec![pair("cop1", "/*", "*/")],
                literal_quote_pairs: vec![pair("litqp1", "r##\"", "\"##"), pair("litqp2", "r#\"", "\"#"), pair("litqp3", "r\"", "\"")],
                quote_pairs: vec![pair("quotep1", "\"", "\"")],
                doc_quote_pairs: vec![],
                sublang_pairs: vec![],
            },
        };
        assert(r@.doc_comment =~= self.syntax_model().doc_comment);
        assert(r@.simple_comment =~= self.syntax_model().simple_comment);
        assert(r@.block_pairs =~= self.syntax_model().block_pairs);
        assert(r@.doc_comment_pairs =~= self.syntax_model().doc_comment_pairs);
        assert(r@.comment_pairs =~= self.syntax_model().comment_pairs);
        assert(r@.literal_quote_pairs =~= self.syntax_model().literal_quote_pairs);
        assert(r@.quote_pairs =~= self.syntax_model().quote_pairs);
        assert(r@.doc_quote_pairs =~= self.syntax_model().doc_quote_pairs);
        assert(r@.sublang_pairs =~= self.syntax_model().sublang_pairs);
        assert(r@.pair_names.len() == self.syntax_model().pair_names.len());
        assert forall|j: int| 0 <= j < r@.pair_names.len() implies r@.pair_names[j]
            =~= self.syntax_model().pair_names[j] by {}
        assert(r@.pair_names =~= self.syntax_model().pair_names);
        r
    }
    /// The display name of this language.
    pub open spec fn spec_name(self) -> Seq<char> {
        match self {
            LanguageType::C => "C"@,
            LanguageType::Css => "CSS"@,
            LanguageType::Html => "HTML"@,
            LanguageType::JavaScript => "JavaScript"@,
            LanguageType::PlainText => "Plain Text"@,
            LanguageType::Python => "Python"@,
            LanguageType::Rust => "Rust"@,
        }
    }

    /// Every language, in declaration order.
    pub open spec fn all_languages() -> Seq<LanguageType> {
        seq![LanguageType::C, LanguageType::Css, LanguageType::Html, LanguageType::JavaScript, LanguageType::PlainText, LanguageType::Python, LanguageType::Rust]
    }

    /// The display name of this language.
    pub fn get_name(&self) -> (r: &'static str)
        ensures
            r@ == self.spec_name(),
    {
        match self {
            LanguageType::C => "C",
            LanguageType::Css => "CSS",
            LanguageType::Html => "HTML",
            LanguageType::JavaScript => "JavaScript",
            LanguageType::PlainText => "Plain Text",
            LanguageType::Python => "Python",
            LanguageType::Rust => "Rust",
        }
    }

    /// Every language with its delimiter tables, in declaration order.
    pub fn all_language_syntax() -> (r: Vec<(LanguageType, LanguageSyntax)>)
        ensures
            r@.len() == Self::all_languages().len(),
            forall|i: int|
                0 <= i < r@.len() ==> r@[i].0 == Self::all_languages()[i] && (#[trigger] r@[i]).1@
                    == r@[i].0.syntax_model(),
    {
        let mut v: Vec<(LanguageType, LanguageSyntax)> = Vec::new();
        v.push((LanguageType::C, LanguageType::C.get_language_syntax()));
        v.push((LanguageType::Css, LanguageType::Css.get_language_syntax()));
        v.push((LanguageType::Html, LanguageType::Html.get_language_syntax()));
        v.push((LanguageType::JavaScript, LanguageType::JavaScript.get_language_syntax()));
        v.push((LanguageType::PlainText, LanguageType::PlainText.get_language_syntax()));
        v.push((LanguageType::Python, LanguageType::Python.get_language_syntax()));
        v.push((LanguageType::Rust, LanguageType::Rust.get_language_syntax()));
        v
    }

    /// Every language with its display name, in declaration order.
    pub fn all_name() -> (r: Vec<(LanguageType, &'static str)>)
        ensures
            r@.len() == Self::all_languages().len(),
            forall|i: int|
                0 <= i < r@.len() ==> r@[i].0 == Self::all_languages()[i] && (#[trigger] r@[i]).1@
                    == r@[i].0.spec_name(),
    {
        let mut v: Vec<(LanguageType, &'static str)> = Vec::new();
        v.push((LanguageType::C, LanguageType::C.get_name()));
        v.push((LanguageType::Css, LanguageType::Css.get_name()));
        v.push((LanguageType::Html, LanguageType::Html.get_name()));
        v.push((LanguageType::JavaScript, LanguageType::JavaScript.get_name()));
        v.push((LanguageType::PlainText, LanguageType::PlainText.get_name()));
        v.push((LanguageType::Python, LanguageType::Python.get_name()));
        v.push((LanguageType::Rust, LanguageType::Rust.get_name()));
        v
    }
}

} // verus!

verus! {

fn tokens_nonempty(v: &Vec<&'static str>) -> (r: bool)
    ensures
        r == nonempty_tokens(strs_view(v@)),
{
    let ghost tv = strs_view(v@);
    let mut i: usize = 0;
    while i < v.len()
        invariant
            tv == strs_view(v@),
            i <= tv.len(),
            forall|j: int| 0 <= j < i ==> (#[trigger] tv[j]).len() > 0,
        decreases v.len() - i,
    {
        if v[i].is_empty() {
            assert(tv[i as int].len() == 0);
            return false;
        }
        i = i + 1;
    }
    true
}

fn pairs_nonempty(v: &Vec<SyntaxPair>) -> (r: bool)
    ensures
        r == nonempty_pairs(pairs_view(v@)),
{
    let ghost pv = pairs_view(v@);
    let mut i: usize = 0;
    while i < v.len()
        invariant
            pv == pairs_view(v@),
            i <= pv.len(),
            forall|j: int| 0 <= j < i ==> (#[trigger] pv[j]).0.len() > 0 && pv[j].1.len() > 0,
        decreases v.len() - i,
    {
        if v[i].left.is_empty() || v[i].right.is_empty() {
            assert(!(pv[i as int].0.len() > 0 && pv[i as int].1.len() > 0));
            return false;
        }
        i = i + 1;
    }
    true
}

fn sublang_nonempty(v: &Vec<(SyntaxPair, LanguageType)>) -> (r: bool)
    ensures
        r == nonempty_pairs(sublang_delims(sublang_view(v@))),
{
    let ghost pv = sublang_delims(sublang_view(v@));
    let mut i: usize = 0;
    while i < v.len()
        invariant
            pv == sublang_delims(sublang_view(v@)),
            i <= pv.len(),
            forall|j: int| 0 <= j < i ==> (#[trigger] pv[j]).0.len() > 0 && pv[j].1.len() > 0,
        decreases v.len() - i,
    {
        if v[i].0.left.is_empty() || v[i].0.right.is_empty() {
            assert(!(pv[i as int].0.len() > 0 && pv[i as int].1.len() > 0));
            return false;
        }
        i = i + 1;
    }
    true
}

impl LanguageSyntax {
    /// Whether the tables are well formed: no delimiter is empty.
    pub fn is_well_formed(&self) -> (r: bool)
        ensures
            r == self@.wf(),
    {
        tokens_nonempty(&self.doc_comment) && tokens_nonempty(&self.simple_comment)
            && pairs_nonempty(&self.block_pairs) && pairs_nonempty(&self.doc_comment_pairs)
            && pairs_nonempty(&self.comment_pairs) && pairs_nonempty(&self.literal_quote_pairs)
            && pairs_nonempty(&self.quote_pairs) && pairs_nonempty(&self.doc_quote_pairs)
            && sublang_nonempty(&self.sublang_pairs)
    }
}

} // verus!
