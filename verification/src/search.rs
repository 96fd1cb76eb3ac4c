//! Keyword-relevance search over the stored conversations.
//!
//! The query is split on whitespace and case-folded; each query word found
//! in a conversation's user message adds 5 score tenths, one found in the
//! assistant response adds 3. Records with zero score are excluded, the
//! rest are ordered by descending score; records with equal score keep
//! store order, a deliberate deterministic tie-break.
use crate::store::Memory;
use crate::text::contains_chars;
use crate::text::contains_sub;
use crate::text::is_space_char;
use crate::text::lower_of;
use crate::text::lowercase;
use crate::text::str_chars;
use crate::text::take_spec;
use crate::text::take_chars;
use crate::text::chars_string;
use crate::types::ConvView;
use crate::types::SearchResult;
use crate::types::SearchResultView;
use vstd::multiset::Multiset;
use vstd::prelude::*;

verus! {

impl DeepView for SearchResult {
    type V = SearchResultView;

    open spec fn deep_view(&self) -> SearchResultView {
        self.view()
    }
}

/// Whitespace splitting, carrying the word collected so far.
pub open spec fn split_acc(s: Seq<char>, i: int, cur: Seq<char>) -> Seq<Seq<char>>
    decreases s.len() - i,
{
    if i < 0 || i >= s.len() {
        if cur.len() > 0 {
            seq![cur]
        } else {
            Seq::empty()
        }
    } else if is_space_char(s[i]) {
        if cur.len() > 0 {
            seq![cur] + split_acc(s, i + 1, Seq::empty())
        } else {
            split_acc(s, i + 1, Seq::empty())
        }
    } else {
        split_acc(s, i + 1, cur.push(s[i]))
    }
}

/// The whitespace-separated words of the text, in order.
pub open spec fn split_ws_spec(s: Seq<char>) -> Seq<Seq<char>> {
    split_acc(s, 0, Seq::empty())
}

/// Splits a character sequence into its whitespace-separated words.
pub fn split_words(s: &Vec<char>) -> (r: Vec<Vec<char>>)
    ensures
        r.deep_view() == split_ws_spec(s@),
{
    broadcast use crate::text::lemma_char_vec_deep_view;

    let mut r: Vec<Vec<char>> = Vec::new();
    let mut cur: Vec<char> = Vec::new();
    proof {
        assert(r.deep_view() + split_acc(s@, 0, cur@) =~= split_acc(s@, 0, cur@));
    }
    let n = s.len();
    let mut i: usize = 0;
    while i < n
        invariant
            i <= n,
            n == s@.len(),
            split_ws_spec(s@) == r.deep_view() + split_acc(s@, i as int, cur@),
        decreases n - i,
    {
        let c = s[i];
        if c == ' ' || c == '\t' || c == '\n' || c == '\r' {
            if cur.len() > 0 {
                let ghost pre = r.deep_view();
                let ghost w = cur@;
                r.push(cur);
                cur = Vec::new();
                proof {
                    assert(r.deep_view() =~= pre.push(w));
                    assert(pre.push(w) =~= pre + seq![w]);
                    assert((pre + seq![w]) + split_acc(s@, i + 1 as int, cur@) =~= pre + (seq![w]
                        + split_acc(s@, i + 1 as int, cur@)));
                }
            } else {
                proof {
                    assert(cur@ =~= Seq::<char>::empty());
                }
            }
        } else {
            cur.push(c);
        }
        i = i + 1;
    }
    if cur.len() > 0 {
        let ghost pre = r.deep_view();
        let ghost w = cur@;
        r.push(cur);
        proof {
            assert(r.deep_view() =~= pre.push(w));
            assert(pre.push(w) =~= pre + seq![w]);
        }
    } else {
        proof {
            assert(r.deep_view() + Seq::<Seq<char>>::empty() =~= r.deep_view());
        }
    }
    r
}

/// Score of one query word against the folded messages, in tenths.
pub open spec fn word_score(w: Seq<char>, u_low: Seq<char>, a_low: Seq<char>) -> int {
    (if contains_sub(u_low, w) {
        5int
    } else {
        0int
    }) + (if contains_sub(a_low, w) {
        3int
    } else {
        0int
    })
}

/// Total score of a word list against the folded messages.
pub open spec fn score_sum(words: Seq<Seq<char>>, u_low: Seq<char>, a_low: Seq<char>) -> int
    decreases words.len(),
{
    if words.len() == 0 {
        0
    } else {
        word_score(words[0], u_low, a_low) + score_sum(words.drop_first(), u_low, a_low)
    }
}

/// Scores the machine can hold; larger sums saturate.
pub open spec fn capped(x: int) -> int {
    if x > u64::MAX {
        u64::MAX as int
    } else {
        x
    }
}

proof fn lemma_score_sum_nonneg(words: Seq<Seq<char>>, u_low: Seq<char>, a_low: Seq<char>)
    ensures
        score_sum(words, u_low, a_low) >= 0,
    decreases words.len(),
{
    if words.len() > 0 {
        lemma_score_sum_nonneg(words.drop_first(), u_low, a_low);
    }
}

proof fn lemma_score_sum_push(
    words: Seq<Seq<char>>,
    w: Seq<char>,
    u_low: Seq<char>,
    a_low: Seq<char>,
)
    ensures
        score_sum(words.push(w), u_low, a_low) == score_sum(words, u_low, a_low) + word_score(
            w,
            u_low,
            a_low,
        ),
    decreases words.len(),
{
    if words.len() == 0 {
        assert(words.push(w)[0] == w);
        assert(words.push(w).drop_first() =~= words);
    } else {
        assert(words.push(w)[0] == words[0]);
        assert(words.push(w).drop_first() =~= words.drop_first().push(w));
        lemma_score_sum_push(words.drop_first(), w, u_low, a_low);
    }
}

fn sat_add_u64(a: u64, b: u64) -> (r: u64)
    ensures
        r as int == capped(a + b),
{
    if a <= u64::MAX - b {
        a + b
    } else {
        u64::MAX
    }
}

/// The score of the folded messages against the query words, saturating
/// at the machine limit.
fn score_against(words: &Vec<Vec<char>>, u_low: &Vec<char>, a_low: &Vec<char>) -> (r: u64)
    ensures
        r as int == capped(score_sum(words.deep_view(), u_low@, a_low@)),
{
    broadcast use crate::text::lemma_char_vec_deep_view;

    let ghost wv = words.deep_view();
    let mut acc: u64 = 0;
    proof {
        assert(wv.take(0) =~= Seq::<Seq<char>>::empty());
    }
    let n = words.len();
    let mut k: usize = 0;
    while k < n
        invariant
            k <= n,
            n == words@.len(),
            wv == words.deep_view(),
            acc as int == capped(score_sum(wv.take(k as int), u_low@, a_low@)),
        decreases n - k,
    {
        let w = &words[k];
        proof {
            assert(wv[k as int] == words@[k as int]@);
        }
        let mut ws: u64 = 0;
        if contains_chars(u_low, w) {
            ws = ws + 5;
        }
        if contains_chars(a_low, w) {
            ws = ws + 3;
        }
        proof {
            assert(ws as int == word_score(wv[k as int], u_low@, a_low@));
            lemma_score_sum_push(wv.take(k as int), wv[k as int], u_low@, a_low@);
            assert(wv.take(k as int).push(wv[k as int]) =~= wv.take(k + 1 as int));
            lemma_score_sum_nonneg(wv.take(k as int), u_low@, a_low@);
        }
        acc = sat_add_u64(acc, ws);
        k = k + 1;
    }
    proof {
        assert(wv.take(wv.len() as int) =~= wv);
    }
    acc
}

/// The total score of one conversation, in tenths.
pub open spec fn conv_score(c: ConvView, qwords: Seq<Seq<char>>) -> int {
    score_sum(qwords, lower_of(c.user_message), lower_of(c.assistant_response))
}

/// Display preview: the text, truncated with an ellipsis when longer
/// than `n` characters.
pub open spec fn preview_spec(s: Seq<char>, n: int) -> Seq<char> {
    if s.len() > n {
        take_spec(s, n) + "..."@
    } else {
        s
    }
}

/// The two-line display snippet of a conversation.
pub open spec fn snippet_spec(u: Seq<char>, a: Seq<char>) -> Seq<char> {
    "User: "@ + (preview_spec(u, 100) + ("\nAssistant: "@ + preview_spec(a, 200)))
}

fn build_preview(s: &str, n: usize) -> (r: String)
    ensures
        r@ == preview_spec(s@, n as int),
{
    let cs = str_chars(s);
    if cs.len() > n {
        let head = take_chars(&cs, n);
        let mut out = chars_string(&head);
        out.append("...");
        out
    } else {
        chars_string(&cs)
    }
}

/// Builds the display snippet: user message truncated to 100 characters,
/// assistant response to 200, as two labelled lines.
pub fn build_snippet(user_message: &str, assistant_response: &str) -> (r: String)
    ensures
        r@ == snippet_spec(user_message@, assistant_response@),
{
    let mut out = String::new();
    out.append("User: ");
    let up = build_preview(user_message, 100);
    out.append(up.as_str());
    out.append("\nAssistant: ");
    let ap = build_preview(assistant_response, 200);
    out.append(ap.as_str());
    proof {
        let u = preview_spec(user_message@, 100);
        let a = preview_spec(assistant_response@, 200);
        assert((((Seq::<char>::empty() + "User: "@) + u) + "\nAssistant: "@) + a =~= "User: "@ + (u
            + ("\nAssistant: "@ + a)));
    }
    out
}

/// The view of the search hit made from one conversation.
pub open spec fn result_view(c: ConvView, qwords: Seq<Seq<char>>) -> SearchResultView {
    SearchResultView {
        conversation: c,
        score: capped(conv_score(c, qwords)),
        snippet: snippet_spec(c.user_message, c.assistant_response),
    }
}

/// The hits: every conversation with a positive score, in store order.
pub open spec fn matches_spec(s: Seq<ConvView>, qwords: Seq<Seq<char>>) -> Seq<SearchResultView>
    decreases s.len(),
{
    if s.len() == 0 {
        Seq::empty()
    } else {
        let rest = matches_spec(s.drop_first(), qwords);
        if conv_score(s[0], qwords) > 0 {
            seq![result_view(s[0], qwords)] + rest
        } else {
            rest
        }
    }
}

proof fn lemma_matches_push(s: Seq<ConvView>, c: ConvView, qwords: Seq<Seq<char>>)
    ensures
        matches_spec(s.push(c), qwords) == matches_spec(s, qwords) + (if conv_score(c, qwords)
            > 0 {
            seq![result_view(c, qwords)]
        } else {
            Seq::<SearchResultView>::empty()
        }),
    decreases s.len(),
{
    let tail: Seq<SearchResultView> = if conv_score(c, qwords) > 0 {
        seq![result_view(c, qwords)]
    } else {
        Seq::empty()
    };
    if s.len() == 0 {
        assert(s.push(c)[0] == c);
        assert(s.push(c).drop_first() =~= s);
        assert(matches_spec(s, qwords) + tail =~= tail);
    } else {
        assert(s.push(c)[0] == s[0]);
        assert(s.push(c).drop_first() =~= s.drop_first().push(c));
        lemma_matches_push(s.drop_first(), c, qwords);
        if conv_score(s[0], qwords) > 0 {
            assert((seq![result_view(s[0], qwords)] + matches_spec(s.drop_first(), qwords)) + tail
                =~= seq![result_view(s[0], qwords)] + (matches_spec(s.drop_first(), qwords)
                + tail));
        }
    }
}

/// Where a new hit goes: after every hit that scores at least as much,
/// so that equal scores keep their earlier order.
pub open spec fn insert_sorted(x: SearchResultView, l: Seq<SearchResultView>) -> Seq<
    SearchResultView,
>
    decreases l.len(),
{
    if l.len() == 0 {
        seq![x]
    } else if l[0].score >= x.score {
        seq![l[0]] + insert_sorted(x, l.drop_first())
    } else {
        seq![x] + l
    }
}

/// The hits ordered by descending score, stably.
pub open spec fn sort_desc(l: Seq<SearchResultView>) -> Seq<SearchResultView>
    decreases l.len(),
{
    if l.len() == 0 {
        Seq::empty()
    } else {
        insert_sorted(l.last(), sort_desc(l.drop_last()))
    }
}

pub open spec fn sorted_desc(l: Seq<SearchResultView>) -> bool {
    forall|i: int, j: int| 0 <= i < j < l.len() ==> l[i].score >= l[j].score
}

proof fn lemma_insert_sorted_props(x: SearchResultView, l: Seq<SearchResultView>)
    requires
        sorted_desc(l),
    ensures
        insert_sorted(x, l).len() == l.len() + 1,
        sorted_desc(insert_sorted(x, l)),
        insert_sorted(x, l).to_multiset() == l.to_multiset().insert(x),
    decreases l.len(),
{
    broadcast use vstd::seq_lib::group_to_multiset_ensures;

    let r = insert_sorted(x, l);
    if l.len() == 0 {
        assert(seq![x] =~= Seq::<SearchResultView>::empty().push(x));
        assert(r.to_multiset() =~= l.to_multiset().insert(x));
    } else if l[0].score >= x.score {
        let rest = l.drop_first();
        assert(sorted_desc(rest)) by {
            assert(forall|i: int, j: int|
                0 <= i < j < rest.len() ==> rest[i] == l[i + 1] && rest[j] == l[j + 1]);
        }
        lemma_insert_sorted_props(x, rest);
        let sub = insert_sorted(x, rest);
        assert(sorted_desc(r)) by {
            assert forall|i: int, j: int| 0 <= i < j < r.len() implies r[i].score >= r[j].score by {
                if i == 0 {
                    assert(r[0] == l[0]);
                    assert(r[j] == sub[j - 1]);
                    if sub[j - 1] == x {
                    } else {
                        assert(sub.to_multiset().count(sub[j - 1]) > 0);
                        if rest.to_multiset().count(sub[j - 1]) > 0 {
                            assert(rest.contains(sub[j - 1]));
                            let k = choose|k: int|
                                0 <= k < rest.len() && rest[k] == sub[j - 1];
                            assert(l[k + 1] == sub[j - 1]);
                        }
                    }
                } else {
                    assert(r[i] == sub[i - 1] && r[j] == sub[j - 1]);
                }
            }
        }
        vstd::seq_lib::lemma_multiset_commutative(seq![l[0]], sub);
        assert(seq![l[0]].to_multiset() =~= Multiset::<SearchResultView>::empty().insert(l[0]))
            by {
            assert(seq![l[0]] =~= Seq::<SearchResultView>::empty().push(l[0]));
        }
        vstd::seq_lib::lemma_multiset_commutative(seq![l[0]], rest);
        assert(seq![l[0]] + rest =~= l);
        assert(r.to_multiset() =~= l.to_multiset().insert(x));
    } else {
        assert(sorted_desc(r)) by {
            assert forall|i: int, j: int| 0 <= i < j < r.len() implies r[i].score >= r[j].score by {
                if i == 0 {
                    assert(r[0] == x);
                    assert(r[j] == l[j - 1]);
                    if j - 1 > 0 {
                        assert(l[0].score >= l[j - 1].score);
                    }
                } else {
                    assert(r[i] == l[i - 1] && r[j] == l[j - 1]);
                }
            }
        }
        vstd::seq_lib::lemma_multiset_commutative(seq![x], l);
        assert(seq![x].to_multiset() =~= Multiset::<SearchResultView>::empty().insert(x)) by {
            assert(seq![x] =~= Seq::<SearchResultView>::empty().push(x));
        }
        assert(r.to_multiset() =~= l.to_multiset().insert(x));
    }
}

/// The stable sort keeps length, order and contents: same hits, sorted,
/// by descending score.
pub proof fn lemma_sort_desc_props(l: Seq<SearchResultView>)
    ensures
        sort_desc(l).len() == l.len(),
        sorted_desc(sort_desc(l)),
        sort_desc(l).to_multiset() == l.to_multiset(),
    decreases l.len(),
{
    broadcast use vstd::seq_lib::group_to_multiset_ensures;

    if l.len() > 0 {
        lemma_sort_desc_props(l.drop_last());
        lemma_insert_sorted_props(l.last(), sort_desc(l.drop_last()));
        assert(l.drop_last().push(l.last()) =~= l);
        assert(l.drop_last().to_multiset().insert(l.last()) =~= l.to_multiset());
    }
}

/// In a non-empty sorted result, the first entry scores at least as much
/// as every hit: a limit of one returns the highest-scoring record.
pub proof fn lemma_sort_desc_first_is_max(l: Seq<SearchResultView>, k: int)
    requires
        0 <= k < l.len(),
    ensures
        sort_desc(l).len() == l.len(),
        l[k].score <= sort_desc(l)[0].score,
{
    broadcast use vstd::seq_lib::group_to_multiset_ensures;

    lemma_sort_desc_props(l);
    let s = sort_desc(l);
    assert(l.to_multiset().count(l[k]) > 0) by {
        assert(l.contains(l[k]));
    }
    assert(s.to_multiset().count(l[k]) > 0);
    assert(s.contains(l[k]));
    let j = choose|j: int| 0 <= j < s.len() && s[j] == l[k];
    if j > 0 {
        assert(s[0].score >= s[j].score);
    }
}

fn insert_by_score(v: &mut Vec<SearchResult>, x: SearchResult)
    ensures
        final(v).deep_view() == insert_sorted(x@, old(v).deep_view()),
{
    let ghost l = v.deep_view();
    let ghost xv = x@;
    let n = v.len();
    let mut k: usize = 0;
    while k < n && v[k].score >= x.score
        invariant
            k <= n,
            n == v@.len(),
            l == v.deep_view(),
            forall|j: int| 0 <= j < k ==> l[j].score >= xv.score,
        decreases n - k,
    {
        proof {
            assert(l[k as int] == v@[k as int]@);
        }
        k = k + 1;
    }
    proof {
        if k < n {
            assert(l[k as int] == v@[k as int]@);
            assert(l[k as int].score < xv.score);
        }
    }
    let ghost vecs = v@;
    v.insert(k, x);
    proof {
        lemma_insert_sorted_at(xv, l, k as int);
        assert forall|j: int|
            0 <= j < v.deep_view().len() implies v.deep_view()[j] == (l.take(k as int) + seq![xv]
            + l.skip(k as int))[j] by {
            assert(v@[j] == vecs.insert(k as int, x)[j]);
            if j < k {
                assert(v@[j] == vecs[j]);
                assert(l[j] == vecs[j]@);
            } else if j == k {
                assert(v@[j] == x);
            } else {
                assert(v@[j] == vecs[j - 1]);
                assert(l[j - 1] == vecs[j - 1]@);
            }
        }
        assert(v.deep_view() =~= l.take(k as int) + seq![xv] + l.skip(k as int));
    }
}

proof fn lemma_insert_sorted_at(x: SearchResultView, l: Seq<SearchResultView>, k: int)
    requires
        0 <= k <= l.len(),
        forall|j: int| 0 <= j < k ==> l[j].score >= x.score,
        k < l.len() ==> l[k].score < x.score,
    ensures
        insert_sorted(x, l) == l.take(k) + seq![x] + l.skip(k),
    decreases l.len(),
{
    if l.len() == 0 {
        assert(l.take(0) + seq![x] + l.skip(0) =~= seq![x]);
    } else if k == 0 {
        assert(l[0].score < x.score);
        assert(l.take(0) + seq![x] + l.skip(0) =~= seq![x] + l);
    } else {
        assert(l[0].score >= x.score);
        let rest = l.drop_first();
        assert(forall|j: int| 0 <= j < k - 1 ==> rest[j] == l[j + 1]);
        assert(k - 1 < rest.len() ==> rest[k - 1] == l[k]);
        lemma_insert_sorted_at(x, rest, k - 1);
        assert(seq![l[0]] + (rest.take(k - 1) + seq![x] + rest.skip(k - 1)) =~= l.take(k) + seq![x]
            + l.skip(k)) by {
            assert(rest.take(k - 1) =~= l.subrange(1, k));
            assert(rest.skip(k - 1) =~= l.skip(k));
            assert(seq![l[0]] + (l.subrange(1, k) + seq![x] + l.skip(k)) =~= l.take(k) + seq![x]
                + l.skip(k));
        }
    }
}

impl Memory {
    /// Ranked keyword search: at most `limit` hits, highest score first,
    /// equal scores in store order.
    pub fn search(&self, query: &str, limit: usize) -> (r: Vec<SearchResult>)
        ensures
            ({
                let qwords = split_ws_spec(lower_of(query@));
                let sorted = sort_desc(matches_spec(self@, qwords));
                r.deep_view() == if sorted.len() <= limit {
                    sorted
                } else {
                    sorted.take(limit as int)
                }
            }),
            ({
                let qwords = split_ws_spec(lower_of(query@));
                let hits2 = matches_spec(self@, qwords);
                r.deep_view().len() > 0 ==> forall|k: int|
                    0 <= k < hits2.len() ==> (#[trigger] hits2[k]).score <= r.deep_view()[0].score
            }),
    {
        let ghost sv = self@;
        let qlow = lowercase(query);
        let qchars = str_chars(qlow.as_str());
        let words = split_words(&qchars);
        let ghost qwords = split_ws_spec(lower_of(query@));
        proof {
            assert(words.deep_view() == qwords);
        }
        let all = self.all_conversations();
        let mut scored: Vec<SearchResult> = Vec::new();
        proof {
            assert(sv.take(0) =~= Seq::<ConvView>::empty());
            assert(scored.deep_view() =~= matches_spec(sv.take(0), qwords));
        }
        let n = all.len();
        let mut i: usize = 0;
        while i < n
            invariant
                i <= n,
                n == all@.len(),
                all.deep_view() == sv,
                qwords == words.deep_view(),
                scored.deep_view() == matches_spec(sv.take(i as int), qwords),
            decreases n - i,
        {
            let c = &all[i];
            proof {
                assert(sv[i as int] == all@[i as int]@);
            }
            let u_low = str_chars(lowercase(c.user_message.as_str()).as_str());
            let a_low = str_chars(lowercase(c.assistant_response.as_str()).as_str());
            let score = score_against(&words, &u_low, &a_low);
            let ghost pre = scored.deep_view();
            proof {
                lemma_score_sum_nonneg(qwords, lower_of(c@.user_message), lower_of(
                    c@.assistant_response,
                ));
                lemma_matches_push(sv.take(i as int), sv[i as int], qwords);
                assert(sv.take(i as int).push(sv[i as int]) =~= sv.take(i + 1 as int));
            }
            if score > 0 {
                let snippet = build_snippet(c.user_message.as_str(), c.assistant_response.as_str());
                let hit = SearchResult { conversation: c.duplicate(), score, snippet };
                let ghost hv = hit@;
                scored.push(hit);
                proof {
                    assert(hv == result_view(sv[i as int], qwords));
                    assert(scored.deep_view() =~= pre.push(hv));
                    assert(pre.push(hv) =~= pre + seq![hv]);
                }
            } else {
                proof {
                    assert(pre + Seq::<SearchResultView>::empty() =~= pre);
                }
            }
            i = i + 1;
        }
        proof {
            assert(sv.take(sv.len() as int) =~= sv);
        }
        let ghost hits = matches_spec(sv, qwords);
        let mut sorted: Vec<SearchResult> = Vec::new();
        proof {
            assert(hits.take(0) =~= Seq::<SearchResultView>::empty());
            assert(sorted.deep_view() =~= sort_desc(hits.take(0)));
        }
        let m = scored.len();
        let mut k: usize = 0;
        while k < m
            invariant
                k <= m,
                m == scored@.len(),
                scored.deep_view() == hits,
                sorted.deep_view() == sort_desc(hits.take(k as int)),
            decreases m - k,
        {
            proof {
                assert(hits[k as int] == scored@[k as int]@);
            }
            insert_by_score(&mut sorted, scored[k].duplicate_result());
            proof {
                assert(hits.take(k + 1 as int).drop_last() =~= hits.take(k as int));
                assert(hits.take(k + 1 as int).last() == hits[k as int]);
            }
            k = k + 1;
        }
        proof {
            assert(hits.take(hits.len() as int) =~= hits);
        }
        let ghost full = sort_desc(hits);
        let ghost prevec = sorted@;
        sorted.truncate(limit);
        proof {
            let target = if full.len() <= limit {
                full
            } else {
                full.take(limit as int)
            };
            assert forall|j: int|
                0 <= j < sorted.deep_view().len() implies sorted.deep_view()[j] == target[j] by {
                assert(sorted@[j] == prevec[j]);
                assert(full[j] == prevec[j]@);
            }
            assert(sorted.deep_view().len() == target.len());
            assert(sorted.deep_view() =~= target);
            if sorted.deep_view().len() > 0 {
                assert(sorted.deep_view()[0] == full[0]);
                assert forall|k: int|
                    0 <= k < hits.len() implies (#[trigger] hits[k]).score
                    <= sorted.deep_view()[0].score by {
                    lemma_sort_desc_first_is_max(hits, k);
                }
            }
        }
        sorted
    }
}

impl SearchResult {
    /// A copy with the same view (the derived `Clone` proves nothing).
    pub fn duplicate_result(&self) -> (r: SearchResult)
        ensures
            r@ == self@,
    {
        SearchResult {
            conversation: self.conversation.duplicate(),
            score: self.score,
            snippet: self.snippet.clone(),
        }
    }
}

} // verus!
