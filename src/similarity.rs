//! The lexical scorer: both texts are split on whitespace, each becomes a
//! vector of term counts, and the result is the cosine of the two vectors,
//! held exactly as its dot product and the two squared magnitudes.
use vstd::prelude::*;
use crate::task::SCORE_SCALE;
use crate::text::chars_of;

verus! {

/// `c` is a white space character in Unicode's sense, as `char::is_whitespace`
/// documents it.
pub open spec fn is_space(c: char) -> bool {
    ('\u{9}' <= c && c <= '\u{d}') || c == ' ' || c == '\u{85}' || c == '\u{a0}' || c
        == '\u{1680}' || ('\u{2000}' <= c && c <= '\u{200a}') || c == '\u{2028}' || c
        == '\u{2029}' || c == '\u{202f}' || c == '\u{205f}' || c == '\u{3000}'
}

fn space(c: char) -> (r: bool)
    ensures
        r == is_space(c),
{
    ('\u{9}' <= c && c <= '\u{d}') || c == ' ' || c == '\u{85}' || c == '\u{a0}' || c
        == '\u{1680}' || ('\u{2000}' <= c && c <= '\u{200a}') || c == '\u{2028}' || c
        == '\u{2029}' || c == '\u{202f}' || c == '\u{205f}' || c == '\u{3000}'
}

pub open spec fn word_if_any(cur: Seq<char>) -> Seq<Seq<char>> {
    if cur.len() > 0 {
        seq![cur]
    } else {
        Seq::empty()
    }
}

/// The words of `s` from position `i` on, where `cur` is the part of a word
/// already read before `i`.
pub open spec fn words_from(s: Seq<char>, i: int, cur: Seq<char>) -> Seq<Seq<char>>
    decreases s.len() - i,
{
    if i >= s.len() || i < 0 {
        word_if_any(cur)
    } else if is_space(s[i]) {
        word_if_any(cur) + words_from(s, i + 1, Seq::empty())
    } else {
        words_from(s, i + 1, cur.push(s[i]))
    }
}

/// The maximal runs of non-space characters of `s`, in order.
pub open spec fn words(s: Seq<char>) -> Seq<Seq<char>> {
    words_from(s, 0, Seq::empty())
}

/// How often `t` occurs in `ws`.
pub open spec fn count_of(ws: Seq<Seq<char>>, t: Seq<char>) -> nat
    decreases ws.len(),
{
    if ws.len() == 0 {
        0
    } else {
        count_of(ws.drop_last(), t) + if ws.last() == t {
            1nat
        } else {
            0nat
        }
    }
}

/// The dot product of the term-count vectors of `a` and `b`: each word of
/// `a`, once per occurrence, adds its count in `b`.
pub open spec fn term_dot(a: Seq<Seq<char>>, b: Seq<Seq<char>>) -> nat
    decreases a.len(),
{
    if a.len() == 0 {
        0
    } else {
        term_dot(a.drop_last(), b) + count_of(b, a.last())
    }
}

/// The cosine of two term-count vectors, as `dot / sqrt(left * right)`;
/// `left` and `right` are the squared magnitudes.
#[derive(Clone, Copy, Debug, PartialEq, Eq, Structural)]
pub struct Cosine {
    pub dot: u128,
    pub left: u128,
    pub right: u128,
}

impl Cosine {
    /// One of the vectors is zero: the similarity is then 0.
    pub open spec fn spec_zero_magnitude(self) -> bool {
        self.left == 0 || self.right == 0
    }

    /// The similarity is exactly 1.
    pub open spec fn spec_is_one(self) -> bool {
        self.dot > 0 && self.dot * self.dot == self.left * self.right
    }

    /// The similarity is exactly 0.
    pub open spec fn spec_is_zero(self) -> bool {
        self.dot == 0
    }

    pub fn is_zero_magnitude(&self) -> (r: bool)
        ensures
            r == self.spec_zero_magnitude(),
    {
        self.left == 0 || self.right == 0
    }

    /// `s` millionths is at most the similarity: `s / 10^6 <= dot / sqrt(left * right)`.
    pub open spec fn within(self, s: int) -> bool {
        s * s * self.left * self.right <= 1000000000000 * self.dot * self.dot
    }

    /// The similarity in millionths, rounded down and at most 1: 0 when a
    /// vector has zero magnitude, else the largest `s` up to `SCORE_SCALE`
    /// that is `within` it. `None` when a sum exceeds `u32::MAX`, where the
    /// products would not fit.
    pub fn millionths(&self) -> (r: Option<u32>)
        ensures
            self.spec_zero_magnitude() ==> r == Some(0u32),
            !self.spec_zero_magnitude() ==> ((r is None) == (self.dot > u32::MAX || self.left
                > u32::MAX || self.right > u32::MAX)),
            !self.spec_zero_magnitude() && r is Some ==> {
                &&& r->0 <= SCORE_SCALE
                &&& self.within(r->0 as int)
                &&& r->0 < SCORE_SCALE ==> !self.within(r->0 + 1)
            },
    {
        if self.left == 0 || self.right == 0 {
            return Some(0);
        }
        if self.dot > u32::MAX as u128 || self.left > u32::MAX as u128 || self.right > u32::MAX as u128 {
            return None;
        }
        proof {
            assert(self.left * self.right <= 0xffff_ffff * 0xffff_ffff) by (nonlinear_arith)
                requires
                    self.left <= 0xffff_ffff,
                    self.right <= 0xffff_ffff,
            ;
            assert(self.dot * self.dot <= 0xffff_ffff * 0xffff_ffff) by (nonlinear_arith)
                requires
                    self.dot <= 0xffff_ffff,
            ;
        }
        let n: u128 = self.left * self.right;
        let d2: u128 = self.dot * self.dot;
        let m: u128 = 1000000000000u128 * d2;
        let mut lo: u128 = 0;
        let mut hi: u128 = SCORE_SCALE as u128 + 1;
        proof {
            assert(0 * 0 * self.left * self.right <= 1000000000000 * self.dot * self.dot) by (nonlinear_arith);
        }
        while hi - lo > 1
            invariant
                lo < hi <= SCORE_SCALE + 1,
                n == self.left * self.right,
                n <= 0xffff_ffff * 0xffff_ffff,
                m == 1000000000000 * (self.dot * self.dot),
                self.within(lo as int),
                hi == SCORE_SCALE + 1 || !self.within(hi as int),
            decreases hi - lo,
        {
            let mid = lo + (hi - lo) / 2;
            proof {
                assert(mid * mid <= 1000001 * 1000001) by (nonlinear_arith)
                    requires
                        mid <= 1000001,
                ;
                assert((mid * mid) * n <= (1000001 * 1000001) * (0xffff_ffff * 0xffff_ffff)) by (nonlinear_arith)
                    requires
                        mid * mid <= 1000001 * 1000001,
                        n <= 0xffff_ffff * 0xffff_ffff,
                ;
                assert(mid * mid * self.left * self.right == mid * mid * n) by (nonlinear_arith)
                    requires
                        n == self.left * self.right,
                ;
                assert(1000000000000 * self.dot * self.dot == m) by (nonlinear_arith)
                    requires
                        m == 1000000000000 * (self.dot * self.dot),
                ;
            }
            let sq = mid * mid;
            if sq * n <= m {
                lo = mid;
            } else {
                hi = mid;
            }
        }
        proof {
            if lo < SCORE_SCALE {
                assert(hi == lo + 1);
            }
        }
        Some(lo as u32)
    }
}

/// A similarity of exactly 1 is 1 in millionths too.
pub proof fn lemma_one_is_full_score(c: Cosine)
    requires
        c.spec_is_one(),
    ensures
        c.within(SCORE_SCALE as int),
        forall|s: int| 0 <= s <= SCORE_SCALE ==> c.within(s),
{
    assert forall|s: int| 0 <= s <= SCORE_SCALE implies c.within(s) by {
        assert(s * s * c.left * c.right <= 1000000000000 * c.dot * c.dot) by (nonlinear_arith)
            requires
                0 <= s <= 1000000,
                c.dot * c.dot == c.left * c.right,
        ;
    }
}

/// The characters of each word of `ws`.
pub open spec fn views(ws: Seq<Vec<char>>) -> Seq<Seq<char>> {
    ws.map_values(|w: Vec<char>| w@)
}

/// The lexical cosine of two texts, as exact term-count sums.
pub open spec fn lexical_cosine(text1: Seq<char>, text2: Seq<char>) -> Cosine {
    let a = words(text1);
    let b = words(text2);
    Cosine {
        dot: term_dot(a, b) as u128,
        left: term_dot(a, a) as u128,
        right: term_dot(b, b) as u128,
    }
}

proof fn lemma_usize_square()
    ensures
        usize::MAX * usize::MAX < u128::MAX,
{
    assert(usize::MAX <= 0xffff_ffff_ffff_ffff);
    assert(usize::MAX * usize::MAX <= 0xffff_ffff_ffff_ffff * 0xffff_ffff_ffff_ffff) by (nonlinear_arith)
        requires
            0 <= usize::MAX <= 0xffff_ffff_ffff_ffff,
    ;
}

proof fn lemma_count_le(ws: Seq<Seq<char>>, t: Seq<char>)
    ensures
        count_of(ws, t) <= ws.len(),
    decreases ws.len(),
{
    if ws.len() > 0 {
        lemma_count_le(ws.drop_last(), t);
    }
}

proof fn lemma_dot_le(a: Seq<Seq<char>>, b: Seq<Seq<char>>)
    ensures
        term_dot(a, b) <= a.len() * b.len(),
    decreases a.len(),
{
    if a.len() > 0 {
        lemma_dot_le(a.drop_last(), b);
        lemma_count_le(b, a.last());
        assert((a.len() - 1) * b.len() + b.len() == a.len() * b.len()) by (nonlinear_arith);
    }
}

fn same_word(a: &Vec<char>, b: &Vec<char>) -> (r: bool)
    ensures
        r == (a@ == b@),
{
    if a.len() != b.len() {
        return false;
    }
    let mut i: usize = 0;
    while i < a.len()
        invariant
            a.len() == b.len(),
            i <= a.len(),
            forall|j: int| 0 <= j < i ==> a@[j] == b@[j],
        decreases a.len() - i,
    {
        if a[i] != b[i] {
            return false;
        }
        i = i + 1;
    }
    assert(a@ =~= b@);
    true
}

fn count_word(ws: &Vec<Vec<char>>, t: &Vec<char>) -> (r: usize)
    ensures
        r == count_of(views(ws@), t@),
{
    let mut n: usize = 0;
    let mut i: usize = 0;
    while i < ws.len()
        invariant
            i <= ws.len(),
            n == count_of(views(ws@).take(i as int), t@),
            n <= i,
        decreases ws.len() - i,
    {
        assert(views(ws@).take(i + 1).drop_last() =~= views(ws@).take(i as int));
        assert(views(ws@).take(i + 1).last() == ws@[i as int]@);
        if same_word(&ws[i], t) {
            n = n + 1;
        }
        i = i + 1;
    }
    assert(views(ws@).take(ws.len() as int) =~= views(ws@));
    n
}

fn dot_words(a: &Vec<Vec<char>>, b: &Vec<Vec<char>>) -> (r: u128)
    ensures
        r == term_dot(views(a@), views(b@)),
{
    let mut sum: u128 = 0;
    let mut i: usize = 0;
    while i < a.len()
        invariant
            i <= a.len(),
            sum == term_dot(views(a@).take(i as int), views(b@)),
        decreases a.len() - i,
    {
        let c = count_word(b, &a[i]);
        assert(views(a@).take(i + 1).drop_last() =~= views(a@).take(i as int));
        assert(views(a@).take(i + 1).last() == a@[i as int]@);
        assert(c == count_of(views(b@), views(a@).take(i + 1).last()));
        proof {
            lemma_dot_le(views(a@).take(i + 1), views(b@));
            assert((i + 1) * b.len() <= usize::MAX * usize::MAX) by (nonlinear_arith)
                requires
                    i < a.len(),
                    a.len() <= usize::MAX,
                    b.len() <= usize::MAX,
            ;
            lemma_usize_square();
            assert(term_dot(views(a@).take(i + 1), views(b@)) == sum + c);
            assert(views(a@).take(i + 1).len() == i + 1);
        }
        sum = sum + c as u128;
        i = i + 1;
    }
    assert(views(a@).take(a.len() as int) =~= views(a@));
    sum
}

/// The words of `text`: its maximal runs of non-whitespace characters.
pub fn split_words(text: &str) -> (r: Vec<Vec<char>>)
    ensures
        views(r@) == words(text@),
{
    let s = chars_of(text);
    let mut out: Vec<Vec<char>> = Vec::new();
    let mut cur: Vec<char> = Vec::new();
    let mut i: usize = 0;
    while i < s.len()
        invariant
            i <= s.len(),
            views(out@) + words_from(s@, i as int, cur@) == words(s@),
        decreases s.len() - i,
    {
        let c = s[i];
        if space(c) {
            let ghost before = views(out@);
            let ghost w = cur@;
            if cur.len() > 0 {
                out.push(cur);
                assert(views(out@) =~= before.push(w));
                assert(views(out@) =~= before + word_if_any(w));
            } else {
                assert(views(out@) =~= before + word_if_any(cur@));
            }
            assert(views(out@) + words_from(s@, i + 1, Seq::empty()) =~= before + (
            word_if_any(cur@) + words_from(s@, i + 1, Seq::empty())));
            cur = Vec::new();
        } else {
            cur.push(c);
        }
        i = i + 1;
    }
    let ghost before = views(out@);
    let ghost w = cur@;
    if cur.len() > 0 {
        out.push(cur);
        assert(views(out@) =~= before.push(w));
    }
    assert(views(out@) =~= before + word_if_any(w));
    out
}

/// The cosine of the term-count vectors of the two texts.
pub fn lexical_similarity(text1: &str, text2: &str) -> (r: Cosine)
    ensures
        r == lexical_cosine(text1@, text2@),
{
    let a = split_words(text1);
    let b = split_words(text2);
    let dot = dot_words(&a, &b);
    let left = dot_words(&a, &a);
    let right = dot_words(&b, &b);
    Cosine { dot, left, right }
}

proof fn lemma_words_from_len(s: Seq<char>, i: int, cur: Seq<char>)
    requires
        0 <= i <= s.len(),
    ensures
        words_from(s, i, cur).len() <= s.len() - i + if cur.len() > 0 {
            1int
        } else {
            0int
        },
    decreases s.len() - i,
{
    if i < s.len() {
        if is_space(s[i]) {
            lemma_words_from_len(s, i + 1, Seq::empty());
        } else {
            lemma_words_from_len(s, i + 1, cur.push(s[i]));
        }
    }
}

proof fn lemma_count_last(ws: Seq<Seq<char>>)
    requires
        ws.len() > 0,
    ensures
        count_of(ws, ws.last()) >= 1,
{
}

proof fn lemma_count_absent(ws: Seq<Seq<char>>, t: Seq<char>)
    requires
        !ws.contains(t),
    ensures
        count_of(ws, t) == 0,
    decreases ws.len(),
{
    if ws.len() > 0 {
        assert(ws.drop_last().contains(t) ==> ws.contains(t)) by {
            if ws.drop_last().contains(t) {
                let k = choose|k: int| 0 <= k < ws.drop_last().len() && ws.drop_last()[k] == t;
                assert(ws[k] == t);
            }
        }
        assert(ws[ws.len() - 1] == ws.last());
        lemma_count_absent(ws.drop_last(), t);
    }
}

proof fn lemma_dot_disjoint(a: Seq<Seq<char>>, b: Seq<Seq<char>>)
    requires
        forall|k: int| 0 <= k < a.len() ==> !b.contains(#[trigger] a[k]),
    ensures
        term_dot(a, b) == 0,
    decreases a.len(),
{
    if a.len() > 0 {
        assert forall|k: int| 0 <= k < a.drop_last().len() implies !b.contains(
            #[trigger] a.drop_last()[k],
        ) by {
            assert(a.drop_last()[k] == a[k]);
        }
        lemma_dot_disjoint(a.drop_last(), b);
        assert(a.last() == a[a.len() - 1]);
        lemma_count_absent(b, a.last());
    }
}

/// A text that holds at least one word has lexical similarity exactly 1 with
/// itself, and so a score of `SCORE_SCALE` millionths.
pub proof fn lemma_same_text_scores_one(t: Seq<char>)
    requires
        t.len() <= usize::MAX,
        words(t).len() > 0,
    ensures
        lexical_cosine(t, t).spec_is_one(),
        lexical_cosine(t, t).within(SCORE_SCALE as int),
{
    let a = words(t);
    lemma_words_from_len(t, 0, Seq::empty());
    lemma_dot_le(a, a);
    assert(a.len() * a.len() <= usize::MAX * usize::MAX) by (nonlinear_arith)
        requires
            a.len() <= usize::MAX,
    ;
    lemma_count_last(a);
    assert(term_dot(a, a) >= 1);
    lemma_usize_square();
    let x = term_dot(a, a);
    assert(x <= u128::MAX);
    assert((x as u128) as int == x);
    let c = lexical_cosine(t, t);
    assert(c.dot == x as u128 && c.left == x as u128 && c.right == x as u128);
    lemma_one_is_full_score(c);
}

/// Texts with no word in common have lexical similarity exactly 0.
pub proof fn lemma_disjoint_texts_score_zero(t1: Seq<char>, t2: Seq<char>)
    requires
        forall|w: Seq<char>| words(t1).contains(w) ==> !words(t2).contains(w),
    ensures
        lexical_cosine(t1, t2).spec_is_zero(),
{
    let a = words(t1);
    let b = words(t2);
    assert forall|k: int| 0 <= k < a.len() implies !b.contains(#[trigger] a[k]) by {
        assert(a.contains(a[k]));
    }
    lemma_dot_disjoint(a, b);
}

/// Against an empty text one vector has zero magnitude, and the similarity
/// is 0.
pub proof fn lemma_empty_text_scores_zero(t1: Seq<char>, t2: Seq<char>)
    requires
        t1.len() == 0 || t2.len() == 0,
    ensures
        lexical_cosine(t1, t2).spec_zero_magnitude(),
        lexical_cosine(t1, t2).spec_is_zero(),
{
    let a = words(t1);
    let b = words(t2);
    if t1.len() == 0 {
        assert(a.len() == 0);
        assert forall|k: int| 0 <= k < a.len() implies !b.contains(#[trigger] a[k]) by {}
        lemma_dot_disjoint(a, b);
    } else {
        assert(b.len() == 0);
        assert(b.len() == 0 ==> term_dot(b, b) == 0);
        assert forall|k: int| 0 <= k < a.len() implies !b.contains(#[trigger] a[k]) by {}
        lemma_dot_disjoint(a, b);
    }
}

} // verus!
