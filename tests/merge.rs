use loc_core::language::LanguageType;
use loc_core::result::{CommentResult, ParseResult};

fn stats(code: usize, blank: usize, all: usize, doc: usize, normal: usize, dq: usize) -> ParseResult {
    ParseResult {
        code,
        blank,
        all,
        comment: CommentResult { doc, normal, doc_quote: dq },
        sub_language: Vec::new(),
    }
}

fn sample_a() -> ParseResult {
    let mut a = stats(3, 1, 5, 0, 1, 0);
    a.join((LanguageType::JavaScript, stats(1, 0, 1, 0, 0, 0)));
    a
}

fn sample_b() -> ParseResult {
    let mut b = stats(2, 2, 4, 1, 0, 1);
    b.join((LanguageType::Css, stats(1, 1, 2, 0, 0, 0)));
    b.join((LanguageType::JavaScript, stats(2, 0, 2, 0, 1, 0)));
    b
}

#[test]
fn merge_adds_counters_and_languages() {
    let m = sample_a().merged(&sample_b());
    assert_eq!((m.code, m.blank, m.all), (3 + 1 + 2 + 3, 1 + 2 + 1, 5 + 1 + 4 + 2 + 2));
    assert_eq!(m.comment, CommentResult { doc: 1, normal: 2, doc_quote: 1 });
    assert_eq!(m.sub_language.len(), 2);
    let js = m.sub_language.iter().find(|e| e.0 == LanguageType::JavaScript).unwrap();
    assert_eq!((js.1.code, js.1.all, js.1.comment.normal), (3, 3, 1));
    let css = m.sub_language.iter().find(|e| e.0 == LanguageType::Css).unwrap();
    assert_eq!((css.1.code, css.1.blank), (1, 1));
}

#[test]
fn merge_is_commutative() {
    let ab = sample_a().merged(&sample_b());
    let ba = sample_b().merged(&sample_a());
    assert_eq!(ab, ba);
}

#[test]
fn merge_is_associative() {
    let c = stats(7, 0, 7, 0, 0, 0);
    let left = sample_a().merged(&sample_b()).merged(&c);
    let right = sample_a().merged(&sample_b().merged(&c));
    assert_eq!(left, right);
}

#[test]
fn merge_with_zero_is_identity() {
    let a = sample_b();
    assert_eq!(a.merged(&ParseResult::zero()), a);
    assert_eq!(ParseResult::zero().merged(&a), a);
    assert_eq!(a.duplicate(), a);
}

#[test]
fn join_keeps_first_entry() {
    let mut r = stats(0, 0, 1, 0, 0, 0);
    r.join((LanguageType::Css, stats(2, 0, 2, 0, 0, 0)));
    r.join((LanguageType::Css, stats(5, 0, 5, 0, 0, 0)));
    assert_eq!((r.code, r.all), (7, 8));
    assert_eq!(r.sub_language.len(), 1);
    assert_eq!(r.sub_language[0].1.code, 2);
}

#[test]
fn comment_sum() {
    let a = CommentResult { doc: 1, normal: 2, doc_quote: 3 };
    let b = CommentResult { doc: 10, normal: 20, doc_quote: 30 };
    assert_eq!(a.sum(&b), CommentResult { doc: 11, normal: 22, doc_quote: 33 });
}

#[test]
fn merge_from_and_defaults() {
    let mut a = sample_a();
    a.merge_from(&sample_b());
    assert_eq!(a, sample_a().merged(&sample_b()));
    assert_eq!(ParseResult::default(), ParseResult::zero());
    assert_eq!(CommentResult::default(), CommentResult { doc: 0, normal: 0, doc_quote: 0 });
    let c = sample_b().clone();
    assert_eq!(c, sample_b());
    let mut x = CommentResult { doc: 1, normal: 1, doc_quote: 1 };
    x.add_from(&CommentResult { doc: 2, normal: 0, doc_quote: 5 });
    assert_eq!(x, CommentResult { doc: 3, normal: 1, doc_quote: 6 });
}

#[test]
fn equality_ignores_entry_order() {
    let mut a = stats(1, 0, 1, 0, 0, 0);
    a.join((LanguageType::Css, stats(1, 0, 1, 0, 0, 0)));
    a.join((LanguageType::Rust, stats(2, 0, 2, 0, 0, 0)));
    let mut b = stats(1, 0, 1, 0, 0, 0);
    b.join((LanguageType::Rust, stats(2, 0, 2, 0, 0, 0)));
    b.join((LanguageType::Css, stats(1, 0, 1, 0, 0, 0)));
    assert_eq!(a, b);
    let mut c = stats(1, 0, 1, 0, 0, 0);
    c.join((LanguageType::Rust, stats(2, 0, 2, 0, 0, 0)));
    assert_ne!(a, c);
    assert_ne!(a, stats(4, 0, 4, 0, 0, 0));
}
