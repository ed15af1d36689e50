//! Line statistics of one parse, with a breakdown per embedded language.
use vstd::prelude::*;

use crate::language::LanguageType;

verus! {

/// The counters of a parse as plain numbers, with the statistics of each
/// embedded language.
pub struct Stats {
    pub code: nat,
    pub blank: nat,
    pub all: nat,
    pub doc: nat,
    pub normal: nat,
    pub doc_quote: nat,
    pub sub: Map<LanguageType, Stats>,
}

/// Statistics with every counter at zero and no embedded language.
pub open spec fn zero_stats() -> Stats {
    Stats { code: 0, blank: 0, all: 0, doc: 0, normal: 0, doc_quote: 0, sub: Map::empty() }
}

/// Comment counters: documentation lines, ordinary comment lines, and lines of
/// documentation strings.
#[derive(Debug, Clone, Copy, PartialEq, Eq, Structural)]
pub struct CommentResult {
    pub doc: usize,
    pub normal: usize,
    pub doc_quote: usize,
}

/// The statistics of one parse. `sub_language` holds, for each embedded
/// language, the statistics of its first region; where a key occurs twice the
/// first entry counts. Two results are equal (`==`) when they stand for the
/// same statistics, whatever the order of their entries.
#[derive(Debug)]
pub struct ParseResult {
    pub code: usize,
    pub blank: usize,
    pub all: usize,
    pub comment: CommentResult,
    pub sub_language: Vec<(LanguageType, ParseResult)>,
}

/// The statistics that a result stands for.
pub open spec fn stats_of(r: ParseResult) -> Stats
    decreases r,
{
    Stats {
        code: r.code as nat,
        blank: r.blank as nat,
        all: r.all as nat,
        doc: r.comment.doc as nat,
        normal: r.comment.normal as nat,
        doc_quote: r.comment.doc_quote as nat,
        sub: entries_map(r.sub_language@),
    }
}

/// The map that a list of entries stands for; where a key occurs twice the
/// first entry counts.
pub open spec fn entries_map(s: Seq<(LanguageType, ParseResult)>) -> Map<LanguageType, Stats>
    decreases s,
{
    if s.len() == 0 {
        Map::empty()
    } else {
        let m = entries_map(s.drop_last());
        let e = s.last();
        if m.contains_key(e.0) {
            m
        } else {
            m.insert(e.0, stats_of(e.1))
        }
    }
}

impl View for ParseResult {
    type V = Stats;

    open spec fn view(&self) -> Stats {
        stats_of(*self)
    }
}

} // verus!

verus! {

/// The key of every entry is in the map, and only those.
pub proof fn lemma_entries_dom(s: Seq<(LanguageType, ParseResult)>, k: LanguageType)
    ensures
        entries_map(s).contains_key(k) <==> exists|j: int| 0 <= j < s.len() && (#[trigger] s[j]).0 == k,
    decreases s.len(),
{
    if s.len() > 0 {
        lemma_entries_dom(s.drop_last(), k);
        if exists|j: int| 0 <= j < s.len() && (#[trigger] s[j]).0 == k {
            let j = choose|j: int| 0 <= j < s.len() && (#[trigger] s[j]).0 == k;
            if j < s.len() - 1 {
                assert(s.drop_last()[j].0 == k);
            }
        }
        if exists|j: int| 0 <= j < s.drop_last().len() && (#[trigger] s.drop_last()[j]).0 == k {
            let j = choose|j: int| 0 <= j < s.drop_last().len() && (#[trigger] s.drop_last()[j]).0 == k;
            assert(s[j].0 == k);
        }
    }
}

/// The first entry with a key gives the map's value for it.
pub proof fn lemma_entries_first(s: Seq<(LanguageType, ParseResult)>, j: int)
    requires
        0 <= j < s.len(),
        forall|i: int| 0 <= i < j ==> (#[trigger] s[i]).0 != s[j].0,
    ensures
        entries_map(s).contains_key(s[j].0),
        entries_map(s)[s[j].0] == stats_of(s[j].1),
    decreases s.len(),
{
    if j < s.len() - 1 {
        assert(s.drop_last()[j] == s[j]);
        assert forall|i: int| 0 <= i < j implies (#[trigger] s.drop_last()[i]).0 != s.drop_last()[j].0 by {
            assert(s.drop_last()[i] == s[i]);
        }
        lemma_entries_first(s.drop_last(), j);
    } else {
        lemma_entries_dom(s.drop_last(), s[j].0);
        assert forall|i: int| 0 <= i < s.drop_last().len() implies (#[trigger] s.drop_last()[i]).0 != s[j].0 by {
            assert(s.drop_last()[i] == s[i]);
        }
    }
}

/// Appending an entry whose key is new adds exactly that key.
pub proof fn lemma_entries_push(s: Seq<(LanguageType, ParseResult)>, e: (LanguageType, ParseResult))
    requires
        !entries_map(s).contains_key(e.0),
    ensures
        entries_map(s.push(e)) == entries_map(s).insert(e.0, stats_of(e.1)),
{
    assert(s.push(e).drop_last() =~= s);
}

/// Index of the first entry of `s` with key `k`.
fn find_entry(s: &Vec<(LanguageType, ParseResult)>, k: LanguageType) -> (r: Option<usize>)
    ensures
        match r {
            Some(j) => j < s@.len() && s@[j as int].0 == k && entries_map(s@).contains_key(k)
                && entries_map(s@)[k] == stats_of(s@[j as int].1),
            None => !entries_map(s@).contains_key(k),
        },
{
    let mut i: usize = 0;
    while i < s.len()
        invariant
            i <= s@.len(),
            forall|j: int| 0 <= j < i ==> (#[trigger] s@[j]).0 != k,
        decreases s.len() - i,
    {
        if s[i].0 == k {
            proof {
                lemma_entries_first(s@, i as int);
            }
            return Some(i);
        }
        i = i + 1;
    }
    proof {
        lemma_entries_dom(s@, k);
    }
    None
}

impl ParseResult {
    /// A result with every counter at zero.
    pub fn zero() -> (r: ParseResult)
        ensures
            r@ == zero_stats(),
    {
        let r = ParseResult {
            code: 0,
            blank: 0,
            all: 0,
            comment: CommentResult { doc: 0, normal: 0, doc_quote: 0 },
            sub_language: Vec::new(),
        };
        assert(r@.sub =~= Map::empty());
        r
    }

    /// A copy of this result.
    pub fn duplicate(&self) -> (r: ParseResult)
        ensures
            r@ == self@,
        decreases self,
    {
        let mut subs: Vec<(LanguageType, ParseResult)> = Vec::new();
        let mut i: usize = 0;
        while i < self.sub_language.len()
            invariant
                i <= self.sub_language@.len(),
                subs@.len() == i,
                forall|j: int| 0 <= j < i ==> (#[trigger] subs@[j]).0 == self.sub_language@[j].0
                    && stats_of(subs@[j].1) == stats_of(self.sub_language@[j].1),
            decreases self.sub_language.len() - i,
        {
            let e = &self.sub_language[i];
            assert(decreases_to!(self => self.sub_language@[i as int].1));
            let c = e.1.duplicate();
            subs.push((e.0, c));
            i = i + 1;
        }
        proof {
            lemma_entries_same(subs@, self.sub_language@);
        }
        ParseResult {
            code: self.code,
            blank: self.blank,
            all: self.all,
            comment: self.comment,
            sub_language: subs,
        }
    }
}

/// Entries with the same keys and the same statistics stand for the same map.
pub proof fn lemma_entries_same(a: Seq<(LanguageType, ParseResult)>, b: Seq<(LanguageType, ParseResult)>)
    requires
        a.len() == b.len(),
        forall|j: int| 0 <= j < a.len() ==> (#[trigger] a[j]).0 == b[j].0 && stats_of(a[j].1)
            == stats_of(b[j].1),
    ensures
        entries_map(a) == entries_map(b),
    decreases a.len(),
{
    if a.len() > 0 {
        assert forall|j: int| 0 <= j < a.drop_last().len() implies (#[trigger] a.drop_last()[j]).0
            == b.drop_last()[j].0 && stats_of(a.drop_last()[j].1) == stats_of(b.drop_last()[j].1) by {
            assert(a.drop_last()[j] == a[j] && b.drop_last()[j] == b[j]);
        }
        lemma_entries_same(a.drop_last(), b.drop_last());
    }
}

} // verus!

verus! {

/// The sum of two statistics: counters are added, and embedded languages are
/// merged key by key (a key present on one side only keeps its value).
pub open spec fn merge(a: Stats, b: Stats) -> Stats
    decreases a,
{
    Stats {
        code: a.code + b.code,
        blank: a.blank + b.blank,
        all: a.all + b.all,
        doc: a.doc + b.doc,
        normal: a.normal + b.normal,
        doc_quote: a.doc_quote + b.doc_quote,
        sub: Map::new(
            |k: LanguageType| a.sub.contains_key(k) || b.sub.contains_key(k),
            |k: LanguageType|
                if a.sub.contains_key(k) && b.sub.contains_key(k) {
                    merge(a.sub[k], b.sub[k])
                } else if a.sub.contains_key(k) {
                    a.sub[k]
                } else {
                    b.sub[k]
                },
        ),
    }
}

/// Every sum that `merge(a, b)` forms, at every depth, fits in a `usize`.
pub open spec fn merge_fits(a: Stats, b: Stats) -> bool
    decreases a,
{
    &&& a.code + b.code <= usize::MAX
    &&& a.blank + b.blank <= usize::MAX
    &&& a.all + b.all <= usize::MAX
    &&& a.doc + b.doc <= usize::MAX
    &&& a.normal + b.normal <= usize::MAX
    &&& a.doc_quote + b.doc_quote <= usize::MAX
    &&& forall|k: LanguageType|
        #![trigger a.sub[k], b.sub[k]]
        a.sub.contains_key(k) && b.sub.contains_key(k) ==> merge_fits(a.sub[k], b.sub[k])
}

/// Adds the counters of `s` and records `s` under `k` unless `k` is already there.
pub open spec fn join_stats(a: Stats, k: LanguageType, s: Stats) -> Stats {
    Stats {
        code: a.code + s.code,
        blank: a.blank + s.blank,
        all: a.all + s.all,
        doc: a.doc + s.doc,
        normal: a.normal + s.normal,
        doc_quote: a.doc_quote + s.doc_quote,
        sub: if a.sub.contains_key(k) {
            a.sub
        } else {
            a.sub.insert(k, s)
        },
    }
}

impl CommentResult {
    /// Counter-wise sum.
    pub fn sum(&self, rhs: &CommentResult) -> (r: CommentResult)
        requires
            self.doc + rhs.doc <= usize::MAX,
            self.normal + rhs.normal <= usize::MAX,
            self.doc_quote + rhs.doc_quote <= usize::MAX,
        ensures
            r.doc == self.doc + rhs.doc,
            r.normal == self.normal + rhs.normal,
            r.doc_quote == self.doc_quote + rhs.doc_quote,
    {
        CommentResult {
            doc: self.doc + rhs.doc,
            normal: self.normal + rhs.normal,
            doc_quote: self.doc_quote + rhs.doc_quote,
        }
    }
}

impl ParseResult {
    /// Folds the result of an embedded region into this one: its counters are
    /// added, and it is recorded under its language unless that language is
    /// already recorded.
    pub fn join(&mut self, other: (LanguageType, Self))
        requires
            old(self).code + other.1.code <= usize::MAX,
            old(self).blank + other.1.blank <= usize::MAX,
            old(self).all + other.1.all <= usize::MAX,
            old(self).comment.doc + other.1.comment.doc <= usize::MAX,
            old(self).comment.normal + other.1.comment.normal <= usize::MAX,
            old(self).comment.doc_quote + other.1.comment.doc_quote <= usize::MAX,
        ensures
            final(self)@ == join_stats(old(self)@, other.0, other.1@),
    {
        let (lang, res) = other;
        self.code = self.code + res.code;
        self.blank = self.blank + res.blank;
        self.all = self.all + res.all;
        self.comment = self.comment.sum(&res.comment);
        let found = find_entry(&self.sub_language, lang);
        if found.is_none() {
            proof {
                lemma_entries_push(self.sub_language@, (lang, res));
            }
            self.sub_language.push((lang, res));
        }
        assert(self@.sub =~= join_stats(old(self)@, lang, res@).sub);
    }

    /// The sum of two results (see `merge`).
    pub fn merged(&self, rhs: &ParseResult) -> (r: ParseResult)
        requires
            merge_fits(self@, rhs@),
        ensures
            r@ == merge(self@, rhs@),
        decreases self,
    {
        let ghost a = self@;
        let ghost b = rhs@;
        let ghost m = merge(a, b);
        let ghost sa = self.sub_language@;
        let ghost sb = rhs.sub_language@;
        assert(merge_fits(a, b));
        let mut subs: Vec<(LanguageType, ParseResult)> = Vec::new();
        let mut i: usize = 0;
        while i < self.sub_language.len()
            invariant
                i <= sa.len(),
                sa == self.sub_language@,
                sb == rhs.sub_language@,
                a == self@,
                b == rhs@,
                m == merge(a, b),
                merge_fits(a, b),
                forall|k: LanguageType|
                    #[trigger] entries_map(subs@).contains_key(k) <==> entries_map(
                        sa.subrange(0, i as int),
                    ).contains_key(k),
                forall|k: LanguageType| #[trigger]
                    entries_map(subs@).contains_key(k) ==> m.sub.contains_key(k)
                        && entries_map(subs@)[k] == m.sub[k],
            decreases sa.len() - i,
        {
            assert(sa.subrange(0, i + 1).drop_last() =~= sa.subrange(0, i as int));
            let k = self.sub_language[i].0;
            if find_entry(&subs, k).is_none() {
                proof {
                    lemma_entries_dom(sa.subrange(0, i as int), k);
                    assert forall|j: int| 0 <= j < i implies (#[trigger] sa[j]).0 != k by {
                        assert(sa.subrange(0, i as int)[j] == sa[j]);
                    }
                    lemma_entries_first(sa, i as int);
                }
                assert(decreases_to!(self => self.sub_language@[i as int].1));
                let found = find_entry(&rhs.sub_language, k);
                let v = if let Some(j) = found {
                    assert(a.sub[k] == stats_of(sa[i as int].1));
                    assert(b.sub[k] == stats_of(sb[j as int].1));
                    assert(a.sub.contains_key(k));
                    assert(b.sub.contains_key(k));
                    assert(merge_fits(a.sub[k], b.sub[k]));
                    self.sub_language[i].1.merged(&rhs.sub_language[j].1)
                } else {
                    self.sub_language[i].1.duplicate()
                };
                proof {
                    lemma_entries_push(subs@, (k, v));
                }
                subs.push((k, v));
            }
            i = i + 1;
        }
        assert(sa.subrange(0, sa.len() as int) =~= sa);
        let mut i: usize = 0;
        while i < rhs.sub_language.len()
            invariant
                i <= sb.len(),
                sa == self.sub_language@,
                sb == rhs.sub_language@,
                a == self@,
                b == rhs@,
                m == merge(a, b),
                forall|k: LanguageType|
                    #[trigger] entries_map(subs@).contains_key(k) <==> (a.sub.contains_key(k)
                        || entries_map(sb.subrange(0, i as int)).contains_key(k)),
                forall|k: LanguageType| #[trigger]
                    entries_map(subs@).contains_key(k) ==> m.sub.contains_key(k)
                        && entries_map(subs@)[k] == m.sub[k],
            decreases sb.len() - i,
        {
            assert(sb.subrange(0, i + 1).drop_last() =~= sb.subrange(0, i as int));
            let k = rhs.sub_language[i].0;
            if find_entry(&subs, k).is_none() {
                proof {
                    lemma_entries_dom(sb.subrange(0, i as int), k);
                    assert forall|j: int| 0 <= j < i implies (#[trigger] sb[j]).0 != k by {
                        assert(sb.subrange(0, i as int)[j] == sb[j]);
                    }
                    lemma_entries_first(sb, i as int);
                }
                let v = rhs.sub_language[i].1.duplicate();
                proof {
                    lemma_entries_push(subs@, (k, v));
                }
                subs.push((k, v));
            }
            i = i + 1;
        }
        assert(sb.subrange(0, sb.len() as int) =~= sb);
        let r = ParseResult {
            code: self.code + rhs.code,
            blank: self.blank + rhs.blank,
            all: self.all + rhs.all,
            comment: self.comment.sum(&rhs.comment),
            sub_language: subs,
        };
        assert(r@.sub == entries_map(subs@));
        assert(b.sub == entries_map(sb));
        assert(r@.sub =~= m.sub);
        r
    }
}

} // verus!

verus! {

/// Merging statistics is commutative: `a + b` and `b + a` agree, at every depth.
pub proof fn lemma_merge_commutative(a: Stats, b: Stats)
    ensures
        merge(a, b) == merge(b, a),
    decreases a,
{
    assert forall|k: LanguageType| a.sub.contains_key(k) && b.sub.contains_key(k) implies merge(
        a.sub[k],
        b.sub[k],
    ) == merge(b.sub[k], a.sub[k]) by {
        lemma_merge_commutative(a.sub[k], b.sub[k]);
    }
    assert(merge(a, b).sub =~= merge(b, a).sub);
}

/// Merging statistics is associative: `(a + b) + c` and `a + (b + c)` agree.
pub proof fn lemma_merge_associative(a: Stats, b: Stats, c: Stats)
    ensures
        merge(merge(a, b), c) == merge(a, merge(b, c)),
    decreases a,
{
    assert forall|k: LanguageType|
        a.sub.contains_key(k) && b.sub.contains_key(k) && c.sub.contains_key(k) implies merge(
        merge(a.sub[k], b.sub[k]),
        c.sub[k],
    ) == merge(a.sub[k], merge(b.sub[k], c.sub[k])) by {
        lemma_merge_associative(a.sub[k], b.sub[k], c.sub[k]);
    }
    assert(merge(merge(a, b), c).sub =~= merge(a, merge(b, c)).sub);
}

/// The zero statistics are neutral on both sides of a merge.
pub proof fn lemma_merge_zero(a: Stats)
    ensures
        merge(a, zero_stats()) == a,
        merge(zero_stats(), a) == a,
{
    assert(merge(a, zero_stats()).sub =~= a.sub);
    assert(merge(zero_stats(), a).sub =~= a.sub);
}

} // verus!

verus! {

impl ParseResult {
    /// Adds `rhs` into this result (see `merge`).
    pub fn merge_from(&mut self, rhs: &ParseResult)
        requires
            merge_fits(old(self)@, rhs@),
        ensures
            final(self)@ == merge(old(self)@, rhs@),
    {
        let m = self.merged(rhs);
        *self = m;
    }
}

impl CommentResult {
    /// Adds `rhs` into these counters.
    pub fn add_from(&mut self, rhs: &CommentResult)
        requires
            old(self).doc + rhs.doc <= usize::MAX,
            old(self).normal + rhs.normal <= usize::MAX,
            old(self).doc_quote + rhs.doc_quote <= usize::MAX,
        ensures
            final(self).doc == old(self).doc + rhs.doc,
            final(self).normal == old(self).normal + rhs.normal,
            final(self).doc_quote == old(self).doc_quote + rhs.doc_quote,
    {
        self.doc = self.doc + rhs.doc;
        self.normal = self.normal + rhs.normal;
        self.doc_quote = self.doc_quote + rhs.doc_quote;
    }
}

impl Default for CommentResult {
    fn default() -> (r: CommentResult)
        ensures
            r.doc == 0 && r.normal == 0 && r.doc_quote == 0,
    {
        CommentResult { doc: 0, normal: 0, doc_quote: 0 }
    }
}

impl Default for ParseResult {
    fn default() -> (r: ParseResult)
        ensures
            r@ == zero_stats(),
    {
        ParseResult::zero()
    }
}

impl Clone for ParseResult {
    fn clone(&self) -> (r: ParseResult)
        ensures
            r@ == self@,
    {
        self.duplicate()
    }
}

} // verus!

verus! {

impl ParseResult {
    /// Whether two results stand for the same statistics.
    pub fn view_eq(&self, other: &ParseResult) -> (r: bool)
        ensures
            r == (self@ == other@),
        decreases self,
    {
        if self.code != other.code || self.blank != other.blank || self.all != other.all
            || self.comment.doc != other.comment.doc || self.comment.normal != other.comment.normal
            || self.comment.doc_quote != other.comment.doc_quote {
            return false;
        }
        let ghost sa = self.sub_language@;
        let ghost sb = other.sub_language@;
        let mut i: usize = 0;
        while i < self.sub_language.len()
            invariant
                sa == self.sub_language@,
                sb == other.sub_language@,
                i <= sa.len(),
                forall|j: int|
                    0 <= j < i ==> entries_map(sb).contains_key((#[trigger] sa[j]).0)
                        && entries_map(sb)[sa[j].0] == entries_map(sa)[sa[j].0],
            decreases self.sub_language.len() - i,
        {
            let k = self.sub_language[i].0;
            proof {
                lemma_entries_dom(sa, k);
            }
            let fa = match find_entry(&self.sub_language, k) {
                Some(f) => f,
                None => {
                    return false;
                },
            };
            match find_entry(&other.sub_language, k) {
                None => {
                    assert(self@.sub.contains_key(k));
                    return false;
                },
                Some(j) => {
                    assert(decreases_to!(self => self.sub_language@[fa as int].1));
                    if !self.sub_language[fa].1.view_eq(&other.sub_language[j].1) {
                        assert(self@.sub[k] != other@.sub[k]);
                        return false;
                    }
                },
            }
            i = i + 1;
        }
        let mut j: usize = 0;
        while j < other.sub_language.len()
            invariant
                sa == self.sub_language@,
                sb == other.sub_language@,
                j <= sb.len(),
                forall|t: int| 0 <= t < j ==> entries_map(sa).contains_key((#[trigger] sb[t]).0),
            decreases other.sub_language.len() - j,
        {
            let k = other.sub_language[j].0;
            proof {
                lemma_entries_dom(sb, k);
            }
            if find_entry(&self.sub_language, k).is_none() {
                assert(other@.sub.contains_key(k));
                return false;
            }
            j = j + 1;
        }
        proof {
            assert forall|k: LanguageType| #[trigger] entries_map(sa).contains_key(k) implies entries_map(
                sb,
            ).contains_key(k) && entries_map(sb)[k] == entries_map(sa)[k] by {
                lemma_entries_dom(sa, k);
                let t = choose|t: int| 0 <= t < sa.len() && (#[trigger] sa[t]).0 == k;
                assert(entries_map(sb).contains_key(sa[t].0));
            }
            assert forall|k: LanguageType| #[trigger] entries_map(sb).contains_key(k) implies entries_map(
                sa,
            ).contains_key(k) by {
                lemma_entries_dom(sb, k);
                let t = choose|t: int| 0 <= t < sb.len() && (#[trigger] sb[t]).0 == k;
                assert(entries_map(sa).contains_key(sb[t].0));
            }
            assert(entries_map(sa) =~= entries_map(sb));
        }
        true
    }
}

impl PartialEq for ParseResult {
    fn eq(&self, other: &ParseResult) -> (r: bool) {
        self.view_eq(other)
    }
}

impl vstd::std_specs::cmp::PartialEqSpecImpl for ParseResult {
    open spec fn obeys_eq_spec() -> bool {
        true
    }

    open spec fn eq_spec(&self, other: &ParseResult) -> bool {
        self@ == other@
    }
}

impl Eq for ParseResult {

}

} // verus!
