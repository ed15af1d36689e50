use loc_core::error::{CoreError, SyntaxErrorKind};
use loc_core::files::FileItem;
use loc_core::language::{LanguageSyntax, LanguageType, SyntaxPair};
use loc_core::parser::{split_sublang_part, CoreParser};
use loc_core::scan::multi_comment;
use loc_core::result::ParseResult;

fn parse(lang: LanguageType, lines: &[&str]) -> Result<ParseResult, CoreError> {
    CoreParser::parse_lines(lines, &lang.get_language_syntax())
}

fn message(r: Result<ParseResult, CoreError>) -> String {
    match r {
        Err(CoreError::SyntaxError(m)) => m,
        Ok(v) => panic!("expected an error, got {:?}", v),
    }
}

#[test]
fn c_like_scenario() {
    let r = parse(LanguageType::C, &["int x = 1; // comment", "", "/* block */"]).unwrap();
    assert_eq!(r.code, 1);
    assert_eq!(r.blank, 1);
    assert_eq!(r.comment.normal, 2);
    assert_eq!(r.comment.doc, 0);
    assert_eq!(r.all, 3);
}

#[test]
fn plain_text_is_code_or_blank() {
    let r = parse(LanguageType::PlainText, &["a", "", "  \t", "b // not a comment", " x"]).unwrap();
    assert_eq!(r.all, 5);
    assert_eq!(r.blank, 2);
    assert_eq!(r.code, 3);
    assert_eq!(r.all, r.code + r.blank);
    assert_eq!(r.comment.normal + r.comment.doc + r.comment.doc_quote, 0);
}

#[test]
fn empty_input() {
    let r = parse(LanguageType::C, &[]).unwrap();
    assert_eq!(r, ParseResult::zero());
}

#[test]
fn line_comment_alone() {
    let r = parse(LanguageType::C, &["// hello"]).unwrap();
    assert_eq!((r.all, r.code, r.blank, r.comment.normal, r.comment.doc), (1, 0, 0, 1, 0));
    let d = parse(LanguageType::Rust, &["   /// docs", "//! inner"]).unwrap();
    assert_eq!((d.all, d.code, d.blank, d.comment.normal, d.comment.doc), (2, 0, 0, 0, 2));
}

#[test]
fn block_comment_spanning_lines() {
    let r = parse(LanguageType::C, &["/* a", "b", "", "c */"]).unwrap();
    assert_eq!((r.all, r.code, r.blank, r.comment.normal), (4, 0, 0, 4));
    let d = parse(LanguageType::Rust, &["/** a", "b */"]).unwrap();
    assert_eq!((d.all, d.code, d.comment.doc, d.comment.normal), (2, 0, 2, 0));
}

#[test]
fn code_after_comment_close() {
    let r = parse(LanguageType::C, &["/* a", "b */ x = 1;"]).unwrap();
    assert_eq!((r.all, r.code, r.comment.normal), (2, 1, 2));
}

#[test]
fn nested_block_comment() {
    let r = parse(LanguageType::C, &["/* a /* b */ c */"]).unwrap();
    assert_eq!((r.all, r.code, r.comment.normal), (1, 0, 1));
    let m = parse(LanguageType::C, &["/* a /* b */", "c */ d"]).unwrap();
    assert_eq!((m.all, m.code, m.comment.normal), (2, 1, 2));
}

#[test]
fn unterminated_constructs() {
    assert_eq!(message(parse(LanguageType::C, &["/* open", "still open"])), "No Comment Ending found.");
    assert_eq!(message(parse(LanguageType::C, &["x = \"abc"])), "No Normal Quote Ending found.");
    assert_eq!(message(parse(LanguageType::Rust, &["let s = r#\"abc"])), "No Literal Quote Ending found.");
    assert_eq!(message(parse(LanguageType::Python, &["\"\"\"doc"])), "No Normal Document Quote Ending found.");
    assert_eq!(message(parse(LanguageType::Html, &["<script>", "var a;"])), "Ended sub language part.");
}

#[test]
fn missing_line_prefix() {
    let syntax = LanguageSyntax {
        line_prefix: Some(">"),
        ignore_prefix_space: true,
        doc_comment: vec![],
        simple_comment: vec!["#"],
        block_pairs: vec![],
        doc_comment_pairs: vec![],
        comment_pairs: vec![],
        literal_quote_pairs: vec![],
        quote_pairs: vec![],
        doc_quote_pairs: vec![],
        sublang_pairs: vec![],
    };
    let ok = CoreParser::parse_lines(&["> a", ">", "># c"], &syntax).unwrap();
    assert_eq!((ok.all, ok.code, ok.blank, ok.comment.normal), (3, 1, 1, 1));
    let bad = CoreParser::parse_lines(&["> a", "b"], &syntax);
    assert_eq!(message(bad), "Missing line prefix.");
}

#[test]
fn strings_hide_comment_tokens() {
    let r = parse(LanguageType::C, &["char *s = \"a // b\";"]).unwrap();
    assert_eq!((r.all, r.code, r.comment.normal), (1, 1, 0));
    let m = parse(LanguageType::C, &["x = \"a", "b\";"]).unwrap();
    assert_eq!((m.all, m.code), (2, 2));
}

#[test]
fn string_escapes() {
    let r = parse(LanguageType::C, &["s = \"a\\\"b // c\";"]).unwrap();
    assert_eq!((r.code, r.comment.normal), (1, 0));
    let e = parse(LanguageType::C, &["s = \"a\\\\\" // c"]).unwrap();
    assert_eq!((e.code, e.comment.normal), (1, 1));
}

#[test]
fn literal_string_spanning_lines() {
    let r = parse(LanguageType::Rust, &["let s = r#\"a", "// b", "\"#; // c"]).unwrap();
    assert_eq!((r.all, r.code, r.comment.normal), (3, 3, 1));
}

#[test]
fn doc_quote_counts_code_and_doc() {
    let r = parse(LanguageType::Python, &["\"\"\"", "doc", "\"\"\""]).unwrap();
    assert_eq!((r.all, r.code, r.comment.doc_quote), (3, 3, 3));
    let one = parse(LanguageType::Python, &["x = '''a''' # c"]).unwrap();
    assert_eq!((one.all, one.code, one.comment.doc_quote, one.comment.normal), (1, 1, 1, 1));
}

#[test]
fn embedded_region_on_its_own_lines() {
    let r = parse(LanguageType::Html, &["<script>", "var x = 1;", "</script>"]).unwrap();
    assert_eq!((r.all, r.code, r.blank), (3, 1, 2));
    assert_eq!(r.sub_language.len(), 1);
    let (lang, sub) = &r.sub_language[0];
    assert_eq!(*lang, LanguageType::JavaScript);
    let alone = parse(LanguageType::JavaScript, &["", "var x = 1;", ""]).unwrap();
    assert_eq!(*sub, alone);
    assert_eq!((sub.all, sub.code, sub.blank), (3, 1, 2));
}

#[test]
fn embedded_region_inline() {
    let r = parse(LanguageType::Html, &["<p><script>var a; // n</script></p>"]).unwrap();
    assert_eq!((r.all, r.code, r.comment.normal), (1, 2, 1));
    assert_eq!(r.sub_language.len(), 1);
    assert_eq!(r.sub_language[0].0, LanguageType::JavaScript);
    assert_eq!((r.sub_language[0].1.code, r.sub_language[0].1.comment.normal), (1, 1));
}

#[test]
fn first_region_of_a_language_is_kept() {
    let r = parse(
        LanguageType::Html,
        &["<style>a {}</style>", "<style>", "b {}", "c {}", "</style>", "<script>x</script>"],
    )
    .unwrap();
    assert_eq!(r.sub_language.len(), 2);
    assert_eq!(r.sub_language[0].0, LanguageType::Css);
    assert_eq!(r.sub_language[0].1.code, 1);
    assert_eq!(r.sub_language[0].1.all, 1);
    assert_eq!(r.sub_language[1].0, LanguageType::JavaScript);
}

#[test]
fn html_comment_hides_region() {
    let r = parse(LanguageType::Html, &["<!-- <script> -->", "text"]).unwrap();
    assert_eq!((r.all, r.code, r.comment.normal), (2, 1, 1));
    assert!(r.sub_language.is_empty());
}

#[test]
fn parser_holds_and_splits_text() {
    let mut p = CoreParser::from_lang(&LanguageType::C);
    p.init_content("int a;\r\n// c\n\n/* x\ny */\n");
    let lines = p.split_lines();
    let expected: Vec<Vec<char>> =
        vec!["int a;", "// c", "", "/* x", "y */"].iter().map(|l| l.chars().collect()).collect();
    assert_eq!(lines, expected);
    let r = p.parse().unwrap();
    assert_eq!((r.all, r.code, r.blank, r.comment.normal), (5, 1, 1, 3));
}

#[test]
fn split_without_final_newline() {
    let mut p = CoreParser::from_lang(&LanguageType::PlainText);
    p.init_content("a\n\nb");
    assert_eq!(p.split_lines().len(), 3);
    p.init_content("\n");
    assert_eq!(p.split_lines(), vec![Vec::<char>::new()]);
    p.init_content("");
    assert!(p.split_lines().is_empty());
}

#[test]
fn pair_lookups() {
    let c = LanguageType::C.get_language_syntax();
    assert_eq!(c.find_right_comment_pair("/*").map(|p| p.right), Some("*/"));
    assert!(c.find_right_comment_pair("*/").is_none());
    assert_eq!(c.find_left_comment_pair("*/").len(), 1);
    assert!(c.find_left_doc_comment_pair("*/").is_empty());
    assert_eq!(c.find_right_quote_pair("'").map(|p| p.right), Some("'"));
    assert_eq!(c.find_left_quote_pair("\"").len(), 1);
    assert_eq!(c.find_right_block_pair("{").map(|p| p.right), Some("}"));
    assert_eq!(c.find_left_block_pair("}").len(), 1);
    let rust = LanguageType::Rust.get_language_syntax();
    assert_eq!(rust.find_left_doc_comment_pair("*/").len(), 2);
    assert_eq!(rust.find_right_doc_comment_pair("/*!").map(|p| p.right), Some("*/"));
    assert_eq!(rust.find_right_lit_quote_pair("r#\"").map(|p| p.right), Some("\"#"));
    assert_eq!(rust.find_left_lit_quote_pair("\"#").len(), 1);
    let html = LanguageType::Html.get_language_syntax();
    assert_eq!(html.find_right_sublang_pair("<script>").map(|p| p.1), Some(LanguageType::JavaScript));
    assert_eq!(html.find_left_sublang_pair("</style>").map(|p| p.1), Some(LanguageType::Css));
    assert!(html.find_left_sublang_pair("</p>").is_none());
    let pair: &SyntaxPair = html.find_right_sublang_pair("<style>").map(|p| &p.0).unwrap();
    assert_eq!(pair.right, "</style>");
}

#[test]
fn language_tables() {
    assert_eq!(LanguageType::Html.get_name(), "HTML");
    assert_eq!(LanguageType::PlainText.get_name(), "Plain Text");
    let names = LanguageType::all_name();
    assert_eq!(names.len(), 7);
    assert_eq!(names[3], (LanguageType::JavaScript, "JavaScript"));
    let all = LanguageType::all_language_syntax();
    assert_eq!(all.len(), 7);
    assert_eq!(all[0].0, LanguageType::C);
    assert_eq!(all[0].1.find_right_comment_pair("/*").map(|p| p.right), Some("*/"));
}

#[test]
fn error_messages() {
    assert_eq!(SyntaxErrorKind::UnterminatedSubLanguage.message(), "Ended sub language part.");
    match SyntaxErrorKind::MissingPrefix.to_error() {
        CoreError::SyntaxError(m) => assert_eq!(m, "Missing line prefix."),
    }
}

#[test]
fn file_rules() {
    let item = FileItem { regex: vec!["^Make.*$"], case_insensitive: vec!["txt"], plain: vec!["rs"] };
    assert!(item.is_match("rs"));
    assert!(!item.is_match("RS"));
    assert!(item.is_match("TXT"));
    assert!(item.is_match("Txt"));
    assert!(item.is_match("Makefile"));
    assert!(!item.is_match("makefile"));
    assert!(!item.is_match("cmake"));
    let broken = FileItem { regex: vec!["("], case_insensitive: vec![], plain: vec![] };
    assert!(!broken.is_match("("));
    let rust = LanguageType::Rust.get_language_file();
    assert!(rust.is_match(Some("main.rs"), Some("rs")));
    assert!(!rust.is_match(Some("main.c"), Some("c")));
    assert!(!rust.is_match(None, None));
    let text = LanguageType::PlainText.get_language_file();
    assert!(text.is_match(Some("README"), None));
    assert!(text.is_match(Some("notes.TXT"), Some("TXT")));
    assert!(!text.is_match(Some("README.md"), Some("md")));
    let html = LanguageType::Html.get_language_file();
    assert!(html.is_match(None, Some("XHTML")));
    assert_eq!(LanguageType::all_language_file().len(), 7);
}

#[test]
fn non_ascii_text() {
    let r = parse(LanguageType::C, &["é = \"ü\"; // ñ", "  \t", "/* ß", "ø */"]).unwrap();
    assert_eq!((r.all, r.code, r.blank, r.comment.normal), (4, 1, 1, 3));
}

#[test]
fn code_between_comments_on_one_line() {
    let r = parse(LanguageType::C, &["a /* b */ c /* d */ e"]).unwrap();
    assert_eq!((r.all, r.code, r.comment.normal), (1, 1, 2));
    let s = parse(LanguageType::C, &["int x; /* c */ int y;"]).unwrap();
    assert_eq!((s.all, s.code, s.comment.normal), (1, 1, 1));
    let t = parse(LanguageType::C, &["/* c */ int y;"]).unwrap();
    assert_eq!((t.all, t.code, t.comment.normal), (1, 1, 1));
}

#[test]
fn escapes_follow_the_closing_token() {
    let r = parse(LanguageType::C, &["c = '\\'';"]).unwrap();
    assert_eq!((r.all, r.code, r.comment.normal), (1, 1, 0));
    let b = parse(LanguageType::C, &["c = '\\\\'; // c"]).unwrap();
    assert_eq!((b.all, b.code, b.comment.normal), (1, 1, 1));
    let q = parse(LanguageType::C, &["c = '\\\"'; // c"]).unwrap();
    assert_eq!((q.code, q.comment.normal), (1, 1));
}

#[test]
fn region_lines_counted_once() {
    let r = parse(LanguageType::Html, &["<script>", "var x = 1;", "</script>", "<p>"]).unwrap();
    assert_eq!((r.all, r.code, r.blank), (4, 2, 2));
    let two = parse(LanguageType::Html, &["<script>x</script>", "<script>y</script>"]).unwrap();
    assert_eq!((two.all, two.code, two.blank), (2, 2, 0));
    assert_eq!(two.sub_language.len(), 1);
    assert_eq!((two.sub_language[0].1.code, two.sub_language[0].1.all), (1, 1));
}

#[test]
fn well_formed_tables() {
    for (_, syntax) in LanguageType::all_language_syntax() {
        assert!(syntax.is_well_formed());
    }
    let mut bad = LanguageType::C.get_language_syntax();
    bad.simple_comment = vec!["", "/"];
    assert!(!bad.is_well_formed());
    let mut bad_pair = LanguageType::C.get_language_syntax();
    bad_pair.quote_pairs = vec![SyntaxPair { name: "q", left: "'", right: "" }];
    assert!(!bad_pair.is_well_formed());
}

fn chars(s: &str) -> Vec<char> {
    s.chars().collect()
}

#[test]
fn region_split_on_one_line() {
    let lines = vec![chars("x = 1</s>tail")];
    let (k2, end, sub) =
        split_sublang_part(&lines, 0, 0, "</s>", LanguageType::PlainText).unwrap();
    assert_eq!((k2, end), (0, 9));
    assert_eq!(sub, parse(LanguageType::PlainText, &["x = 1"]).unwrap());
}

#[test]
fn region_split_over_lines() {
    let lines = vec![chars("<s>a"), chars("b"), chars("c</s>tail"), chars("next")];
    let (k2, end, sub) =
        split_sublang_part(&lines, 0, 3, "</s>", LanguageType::PlainText).unwrap();
    assert_eq!((k2, end), (2, 5));
    assert_eq!(sub, parse(LanguageType::PlainText, &["a", "b", "c"]).unwrap());
    let open = vec![chars("<s>a"), chars("b")];
    let e = split_sublang_part(&open, 0, 3, "</s>", LanguageType::PlainText);
    assert!(matches!(e, Err(CoreError::SyntaxError(ref m)) if m == "Ended sub language part."));
}

#[test]
fn shared_closer_absorbed_by_sole_candidate() {
    let mut syntax = LanguageType::C.get_language_syntax();
    syntax.comment_pairs = vec![
        SyntaxPair { name: "a", left: "(*", right: "*)" },
        SyntaxPair { name: "b", left: "{*", right: "*)" },
    ];
    let line = chars("text *) rest");
    let mut leading = vec!["(*"];
    let mut trailing: Vec<&'static str> = vec![];
    let r = multi_comment(&syntax, &line, 0, &mut leading, &mut trailing);
    assert_eq!(r, Some(7));
    assert!(leading.is_empty());
    assert!(trailing.is_empty());
    let mut leading2 = vec!["(*", "{*"];
    let mut trailing2: Vec<&'static str> = vec![];
    let r2 = multi_comment(&syntax, &line, 0, &mut leading2, &mut trailing2);
    assert_eq!(r2, None);
    assert_eq!(leading2.len(), 2);
    assert_eq!(trailing2, vec!["*)"]);
}
