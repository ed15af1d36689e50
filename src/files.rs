//! Which files belong to a language: by file name or extension, compared
//! literally, ignoring ASCII case, or by regular expression.
use vstd::prelude::*;

use crate::language::{strs_view, LanguageType};
use crate::text::str_eq;

verus! {

/// Whether the regular expression `pattern` matches somewhere in `text`; a
/// pattern that does not compile matches nothing.
pub uninterp spec fn pattern_matches(pattern: Seq<char>, text: Seq<char>) -> bool;

/// Relies on `regex::Regex::new` to compile `pattern` and on
/// `Regex::is_match` to tell whether it matches anywhere in `text`. The
/// answer depends on the two strings alone.
#[verifier::external_body]
fn regex_matches(pattern: &str, text: &str) -> (r: bool)
    ensures
        r == pattern_matches(pattern@, text@),
{
    match regex::Regex::new(pattern) {
        Ok(re) => re.is_match(text),
        Err(_) => false,
    }
}

/// A character with ASCII upper case letters turned to lower case.
pub open spec fn lower_char(c: char) -> char {
    if 'A' <= c <= 'Z' {
        ((c as u8) + 32) as char
    } else {
        c
    }
}

/// A string with ASCII upper case letters turned to lower case.
pub open spec fn lower_ascii(s: Seq<char>) -> Seq<char> {
    Seq::new(s.len(), |i: int| lower_char(s[i]))
}

fn ascii_lower(s: &str) -> (r: Vec<char>)
    ensures
        r@ == lower_ascii(s@),
{
    let mut r: Vec<char> = Vec::new();
    for c in it: s.chars()
        invariant
            it.seq() == s@,
            r@ == lower_ascii(it.seq().subrange(0, it.index() as int)),
    {
        let l = if 'A' <= c && c <= 'Z' {
            ((c as u8) + 32) as char
        } else {
            c
        };
        r.push(l);
        assert(r@ =~= lower_ascii(it.seq().subrange(0, it.index() + 1)));
    }
    r
}

fn chars_eq_str(a: &Vec<char>, b: &str) -> (r: bool)
    ensures
        r == (a@ == b@),
{
    let r = a.len() == b.unicode_len() && crate::text::has_prefix_at(a, 0, b);
    assert(a@.subrange(0, a@.len() as int) =~= a@);
    r
}

/// The names that a file item accepts. Patterns are compiled when a name is
/// matched; a pattern that does not compile accepts nothing.
pub struct FileItem {
    pub regex: Vec<&'static str>,
    pub case_insensitive: Vec<&'static str>,
    pub plain: Vec<&'static str>,
}

/// Whether a file item accepts `text`: literally, after ASCII lower-casing,
/// or by one of its regular expressions.
pub open spec fn item_accepts(item: FileItem, text: Seq<char>) -> bool {
    ||| strs_view(item.plain@).contains(text)
    ||| strs_view(item.case_insensitive@).contains(lower_ascii(text))
    ||| exists|i: int| 0 <= i < item.regex@.len() && pattern_matches(#[trigger] item.regex@[i]@, text)
}

impl FileItem {
    pub fn is_match(&self, content: &str) -> (r: bool)
        ensures
            r == item_accepts(*self, content@),
    {
        let ghost pv = strs_view(self.plain@);
        let mut i: usize = 0;
        while i < self.plain.len()
            invariant
                pv == strs_view(self.plain@),
                i <= pv.len(),
                forall|j: int| 0 <= j < i ==> pv[j] != content@,
            decreases self.plain.len() - i,
        {
            if str_eq(self.plain[i], content) {
                assert(pv[i as int] == content@);
                return true;
            }
            i = i + 1;
        }
        let lower = ascii_lower(content);
        let ghost cv = strs_view(self.case_insensitive@);
        let mut i: usize = 0;
        while i < self.case_insensitive.len()
            invariant
                cv == strs_view(self.case_insensitive@),
                i <= cv.len(),
                lower@ == lower_ascii(content@),
                forall|j: int| 0 <= j < pv.len() ==> pv[j] != content@,
                pv == strs_view(self.plain@),
                forall|j: int| 0 <= j < i ==> cv[j] != lower@,
            decreases self.case_insensitive.len() - i,
        {
            if chars_eq_str(&lower, self.case_insensitive[i]) {
                assert(cv[i as int] == lower@);
                return true;
            }
            i = i + 1;
        }
        let mut i: usize = 0;
        while i < self.regex.len()
            invariant
                i <= self.regex@.len(),
                forall|j: int| 0 <= j < i ==> !pattern_matches(#[trigger] self.regex@[j]@, content@),
            decreases self.regex.len() - i,
        {
            if regex_matches(self.regex[i], content) {
                return true;
            }
            i = i + 1;
        }
        false
    }
}

/// The file names and extensions of a language.
pub struct LanguageFile {
    pub extension: Option<FileItem>,
    pub file_name: Option<FileItem>,
}

/// Whether an optional item accepts an optional name.
pub open spec fn opt_accepts(item: Option<FileItem>, text: Option<Seq<char>>) -> bool {
    match (item, text) {
        (Some(i), Some(t)) => item_accepts(i, t),
        _ => false,
    }
}

/// An optional string as an optional sequence of characters.
pub open spec fn opt_view(s: Option<&str>) -> Option<Seq<char>> {
    match s {
        Some(t) => Some(t@),
        None => None,
    }
}

impl LanguageFile {
    /// Whether a file with this name, or this extension, belongs to the language.
    pub fn is_match(&self, file_name: Option<&str>, ext: Option<&str>) -> (r: bool)
        ensures
            r == (opt_accepts(self.file_name, opt_view(file_name)) || opt_accepts(
                self.extension,
                opt_view(ext),
            )),
    {
        let by_name = match (&self.file_name, file_name) {
            (Some(item), Some(name)) => item.is_match(name),
            _ => false,
        };
        by_name || match (&self.extension, ext) {
            (Some(item), Some(e)) => item.is_match(e),
            _ => false,
        }
    }
}

} // verus!

verus! {

/// A file item as plain values: its regular expressions, its names compared
/// ignoring ASCII case, and its plain names.
pub open spec fn item_view(i: FileItem) -> (Seq<Seq<char>>, Seq<Seq<char>>, Seq<Seq<char>>) {
    (strs_view(i.regex@), strs_view(i.case_insensitive@), strs_view(i.plain@))
}

pub open spec fn opt_item_view(o: Option<FileItem>) -> Option<(Seq<Seq<char>>, Seq<Seq<char>>, Seq<Seq<char>>)> {
    match o {
        Some(i) => Some(item_view(i)),
        None => None,
    }
}

impl LanguageType {
    /// The extension and file-name rules of this language, as plain values.
    pub open spec fn file_model(self) -> (
        Option<(Seq<Seq<char>>, Seq<Seq<char>>, Seq<Seq<char>>)>,
        Option<(Seq<Seq<char>>, Seq<Seq<char>>, Seq<Seq<char>>)>,
    ) {
        match self {
            LanguageType::C => (Some((seq![], seq![], seq!["c"@, "h"@])), None),
            LanguageType::Css => (Some((seq![], seq![], seq!["css"@])), None),
            LanguageType::Html => (Some((seq![], seq!["xhtml"@], seq!["html"@, "htm"@])), None),
            LanguageType::JavaScript => (Some((seq![], seq![], seq!["js"@, "mjs"@, "cjs"@])), None),
            LanguageType::PlainText => (Some((seq![], seq!["txt"@], seq![])), Some((seq!["^(README|LICENSE|COPYING)$"@], seq![], seq![]))),
            LanguageType::Python => (Some((seq![], seq![], seq!["py"@, "pyw"@, "pyi"@])), Some((seq![], seq![], seq!["SConstruct"@]))),
            LanguageType::Rust => (Some((seq![], seq![], seq!["rs"@])), None),
        }
    }

    /// The extension and file-name rules of this language.
    pub fn get_language_file(&self) -> (r: LanguageFile)
        ensures
            opt_item_view(r.extension) == self.file_model().0,
            opt_item_view(r.file_name) == self.file_model().1,
    {
        let r = match self {
            LanguageType::C => LanguageFile {
                extension: Some(FileItem { regex: vec![], case_insensitive: vec![], plain: vec!["c", "h"] }),
                file_name: None,
            },
            LanguageType::Css => LanguageFile {
                extension: Some(FileItem { regex: vec![], case_insensitive: vec![], plain: vec!["css"] }),
                file_name: None,
            },
            LanguageType::Html => LanguageFile {
                extension: Some(FileItem { regex: vec![], case_insensitive: vec!["xhtml"], plain: vec!["html", "htm"] }),
                file_name: None,
            },
            LanguageType::JavaScript => LanguageFile {
                extension: Some(FileItem { regex: vec![], case_insensitive: vec![], plain: vec!["js", "mjs", "cjs"] }),
                file_name: None,
            },
            LanguageType::PlainText => LanguageFile {
                extension: Some(FileItem { regex: vec![], case_insensitive: vec!["txt"], plain: vec![] }),
                file_name: Some(FileItem { regex: vec!["^(README|LICENSE|COPYING)$"], case_insensitive: vec![], plain: vec![] }),
            },
            LanguageType::Python => LanguageFile {
                extension: Some(FileItem { regex: vec![], case_insensitive: vec![], plain: vec!["py", "pyw", "pyi"] }),
                file_name: Some(FileItem { regex: vec![], case_insensitive: vec![], plain: vec!["SConstruct"] }),
            },
            LanguageType::Rust => LanguageFile {
                extension: Some(FileItem { regex: vec![], case_insensitive: vec![], plain: vec!["rs"] }),
                file_name: None,
            },
        };
        proof {
            if r.extension is Some {
                let item = r.extension->0;
                let mm = self.file_model().0->0;
                assert(strs_view(item.regex@) =~= mm.0);
                assert(strs_view(item.case_insensitive@) =~= mm.1);
                assert(strs_view(item.plain@) =~= mm.2);
            }
            if r.file_name is Some {
                let item = r.file_name->0;
                let mm = self.file_model().1->0;
                assert(strs_view(item.regex@) =~= mm.0);
                assert(strs_view(item.case_insensitive@) =~= mm.1);
                assert(strs_view(item.plain@) =~= mm.2);
            }
        }
        r
    }

    /// Every language with its file rules, in declaration order.
    pub fn all_language_file() -> (r: Vec<(LanguageType, LanguageFile)>)
        ensures
            r@.len() == Self::all_languages().len(),
            forall|i: int|
                0 <= i < r@.len() ==> r@[i].0 == Self::all_languages()[i] && opt_item_view(
                    (#[trigger] r@[i]).1.extension,
                ) == r@[i].0.file_model().0 && opt_item_view(r@[i].1.file_name)
                    == r@[i].0.file_model().1,
    {
        let mut v: Vec<(LanguageType, LanguageFile)> = Vec::new();
        v.push((LanguageType::C, LanguageType::C.get_language_file()));
        v.push((LanguageType::Css, LanguageType::Css.get_language_file()));
        v.push((LanguageType::Html, LanguageType::Html.get_language_file()));
        v.push((LanguageType::JavaScript, LanguageType::JavaScript.get_language_file()));
        v.push((LanguageType::PlainText, LanguageType::PlainText.get_language_file()));
        v.push((LanguageType::Python, LanguageType::Python.get_language_file()));
        v.push((LanguageType::Rust, LanguageType::Rust.get_language_file()));
        v
    }
}

} // verus!
