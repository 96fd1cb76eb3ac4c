//! Session-aware context selection: deciding what stored context to
//! prepend to a new prompt.
//!
//! Two policies exist. The structured policy groups records by session,
//! orders each group by timestamp, orders groups by their latest record,
//! and quotes the last three turns of the most recent session other than
//! the current one inside a fixed instruction delimiter. The compact
//! policy takes the last two records overall, strips known noise from
//! both sides, and renders one short bracketed block; a record whose
//! cleaned text is empty on either side is skipped, and with no usable
//! record the prompt passes through unchanged.
//!
//! Ordering ties are resolved deterministically: records with equal
//! timestamps keep store order, and among groups whose latest records
//! share a timestamp the one appearing later in the store wins.
use crate::text::chars_string;
use crate::text::eq_chars;
use crate::text::lower_of;
use crate::text::lowercase;
use crate::text::remove_all;
use crate::text::remove_all_spec;
use crate::text::str_chars;
use crate::text::tail_after;
use crate::text::tail_after_spec;
use crate::text::take_chars;
use crate::text::take_spec;
use crate::text::trim_chars;
use crate::text::trim_spec;
use crate::text::trim_start_spec;
use crate::text::trim_end_spec;
use crate::types::Conversation;
use crate::types::ConvView;
use vstd::multiset::Multiset;
use vstd::prelude::*;

verus! {

/// Stable ascending insertion by timestamp: a record goes after every
/// record with an equal or earlier timestamp.
pub open spec fn insert_by_ts(x: ConvView, l: Seq<ConvView>) -> Seq<ConvView>
    decreases l.len(),
{
    if l.len() == 0 {
        seq![x]
    } else if l[0].timestamp <= x.timestamp {
        seq![l[0]] + insert_by_ts(x, l.drop_first())
    } else {
        seq![x] + l
    }
}

/// The records ordered by ascending timestamp, stably.
pub open spec fn sort_ts(l: Seq<ConvView>) -> Seq<ConvView>
    decreases l.len(),
{
    if l.len() == 0 {
        Seq::empty()
    } else {
        insert_by_ts(l.last(), sort_ts(l.drop_last()))
    }
}

pub open spec fn sorted_by_ts(l: Seq<ConvView>) -> bool {
    forall|i: int, j: int| 0 <= i < j < l.len() ==> l[i].timestamp <= l[j].timestamp
}

proof fn lemma_insert_by_ts_props(x: ConvView, l: Seq<ConvView>)
    requires
        sorted_by_ts(l),
    ensures
        insert_by_ts(x, l).len() == l.len() + 1,
        sorted_by_ts(insert_by_ts(x, l)),
        insert_by_ts(x, l).to_multiset() == l.to_multiset().insert(x),
    decreases l.len(),
{
    broadcast use vstd::seq_lib::group_to_multiset_ensures;

    let r = insert_by_ts(x, l);
    if l.len() == 0 {
        assert(seq![x] =~= Seq::<ConvView>::empty().push(x));
        assert(r.to_multiset() =~= l.to_multiset().insert(x));
    } else if l[0].timestamp <= x.timestamp {
        let rest = l.drop_first();
        assert(sorted_by_ts(rest)) by {
            assert(forall|i: int, j: int|
                0 <= i < j < rest.len() ==> rest[i] == l[i + 1] && rest[j] == l[j + 1]);
        }
        lemma_insert_by_ts_props(x, rest);
        let sub = insert_by_ts(x, rest);
        assert(sorted_by_ts(r)) by {
            assert forall|i: int, j: int|
                0 <= i < j < r.len() implies r[i].timestamp <= r[j].timestamp by {
                if i == 0 {
                    assert(r[0] == l[0]);
                    assert(r[j] == sub[j - 1]);
                    if sub[j - 1] == x {
                    } else {
                        assert(sub.to_multiset().count(sub[j - 1]) > 0);
                        if rest.to_multiset().count(sub[j - 1]) > 0 {
                            assert(rest.contains(sub[j - 1]));
                            let k = choose|k: int| 0 <= k < rest.len() && rest[k] == sub[j - 1];
                            assert(l[k + 1] == sub[j - 1]);
                        }
                    }
                } else {
                    assert(r[i] == sub[i - 1] && r[j] == sub[j - 1]);
                }
            }
        }
        vstd::seq_lib::lemma_multiset_commutative(seq![l[0]], sub);
        assert(seq![l[0]].to_multiset() =~= Multiset::<ConvView>::empty().insert(l[0])) by {
            assert(seq![l[0]] =~= Seq::<ConvView>::empty().push(l[0]));
        }
        vstd::seq_lib::lemma_multiset_commutative(seq![l[0]], rest);
        assert(seq![l[0]] + rest =~= l);
        assert(r.to_multiset() =~= l.to_multiset().insert(x));
    } else {
        assert(sorted_by_ts(r)) by {
            assert forall|i: int, j: int|
                0 <= i < j < r.len() implies r[i].timestamp <= r[j].timestamp by {
                if i == 0 {
                    assert(r[0] == x);
                    assert(r[j] == l[j - 1]);
                    if j - 1 > 0 {
                        assert(l[0].timestamp <= l[j - 1].timestamp);
                    }
                } else {
                    assert(r[i] == l[i - 1] && r[j] == l[j - 1]);
                }
            }
        }
        vstd::seq_lib::lemma_multiset_commutative(seq![x], l);
        assert(seq![x].to_multiset() =~= Multiset::<ConvView>::empty().insert(x)) by {
            assert(seq![x] =~= Seq::<ConvView>::empty().push(x));
        }
        assert(r.to_multiset() =~= l.to_multiset().insert(x));
    }
}

/// The timestamp sort keeps length and contents and orders the records
/// by ascending timestamp.
pub proof fn lemma_sort_ts_props(l: Seq<ConvView>)
    ensures
        sort_ts(l).len() == l.len(),
        sorted_by_ts(sort_ts(l)),
        sort_ts(l).to_multiset() == l.to_multiset(),
    decreases l.len(),
{
    broadcast use vstd::seq_lib::group_to_multiset_ensures;

    if l.len() > 0 {
        lemma_sort_ts_props(l.drop_last());
        lemma_insert_by_ts_props(l.last(), sort_ts(l.drop_last()));
        assert(l.drop_last().push(l.last()) =~= l);
        assert(l.drop_last().to_multiset().insert(l.last()) =~= l.to_multiset());
    }
}

proof fn lemma_insert_by_ts_at(x: ConvView, l: Seq<ConvView>, k: int)
    requires
        0 <= k <= l.len(),
        forall|j: int| 0 <= j < k ==> l[j].timestamp <= x.timestamp,
        k < l.len() ==> l[k].timestamp > x.timestamp,
    ensures
        insert_by_ts(x, l) == l.take(k) + seq![x] + l.skip(k),
    decreases l.len(),
{
    if l.len() == 0 {
        assert(l.take(0) + seq![x] + l.skip(0) =~= seq![x]);
    } else if k == 0 {
        assert(l.take(0) + seq![x] + l.skip(0) =~= seq![x] + l);
    } else {
        let rest = l.drop_first();
        assert(forall|j: int| 0 <= j < k - 1 ==> rest[j] == l[j + 1]);
        assert(k - 1 < rest.len() ==> rest[k - 1] == l[k]);
        lemma_insert_by_ts_at(x, rest, k - 1);
        assert(rest.take(k - 1) =~= l.subrange(1, k));
        assert(rest.skip(k - 1) =~= l.skip(k));
        assert(seq![l[0]] + (l.subrange(1, k) + seq![x] + l.skip(k)) =~= l.take(k) + seq![x]
            + l.skip(k));
    }
}

fn insert_conv_by_ts(v: &mut Vec<Conversation>, x: Conversation)
    ensures
        final(v).deep_view() == insert_by_ts(x@, old(v).deep_view()),
{
    let ghost l = v.deep_view();
    let ghost xv = x@;
    let n = v.len();
    let mut k: usize = 0;
    while k < n && v[k].timestamp <= x.timestamp
        invariant
            k <= n,
            n == v@.len(),
            l == v.deep_view(),
            forall|j: int| 0 <= j < k ==> l[j].timestamp <= xv.timestamp,
        decreases n - k,
    {
        proof {
            assert(l[k as int] == v@[k as int]@);
        }
        k = k + 1;
    }
    proof {
        if k < n {
            assert(l[k as int] == v@[k as int]@);
        }
    }
    let ghost vecs = v@;
    v.insert(k, x);
    proof {
        lemma_insert_by_ts_at(xv, l, k as int);
        assert forall|j: int|
            0 <= j < v.deep_view().len() implies v.deep_view()[j] == (l.take(k as int) + seq![xv]
            + l.skip(k as int))[j] by {
            assert(v@[j] == vecs.insert(k as int, x)[j]);
            if j < k {
                assert(v@[j] == vecs[j]);
                assert(l[j] == vecs[j]@);
            } else if j == k {
                assert(v@[j] == x);
            } else {
                assert(v@[j] == vecs[j - 1]);
                assert(l[j - 1] == vecs[j - 1]@);
            }
        }
        assert(v.deep_view() =~= l.take(k as int) + seq![xv] + l.skip(k as int));
    }
}

/// Sorts the records by ascending timestamp, stably.
pub fn sort_conversations_by_ts(convs: &Vec<Conversation>) -> (r: Vec<Conversation>)
    ensures
        r.deep_view() == sort_ts(convs.deep_view()),
{
    let ghost dv = convs.deep_view();
    let mut r: Vec<Conversation> = Vec::new();
    proof {
        assert(dv.take(0) =~= Seq::<ConvView>::empty());
        assert(r.deep_view() =~= sort_ts(dv.take(0)));
    }
    let n = convs.len();
    let mut i: usize = 0;
    while i < n
        invariant
            i <= n,
            n == convs@.len(),
            dv == convs.deep_view(),
            r.deep_view() == sort_ts(dv.take(i as int)),
        decreases n - i,
    {
        proof {
            assert(dv[i as int] == convs@[i as int]@);
        }
        insert_conv_by_ts(&mut r, convs[i].duplicate());
        proof {
            assert(dv.take(i + 1 as int).drop_last() =~= dv.take(i as int));
            assert(dv.take(i + 1 as int).last() == dv[i as int]);
        }
        i = i + 1;
    }
    proof {
        assert(dv.take(dv.len() as int) =~= dv);
    }
    r
}

/// The cleaned user side: known hook markers and log noise removed,
/// whitespace trimmed, then cut to 80 characters.
pub open spec fn clean_user_spec(s: Seq<char>) -> Seq<char> {
    take_spec(
        trim_spec(
            remove_all_spec(
                remove_all_spec(
                    remove_all_spec(
                        tail_after_spec(
                            tail_after_spec(
                                remove_all_spec(
                                    remove_all_spec(
                                        remove_all_spec(s, "<user-prompt-submit-hook>"@),
                                        "[CONTEXT FROM PREVIOUS CONVERSATIONS]"@,
                                    ),
                                    "[END CONTEXT]"@,
                                ),
                                "INFO Configuration loaded successfully"@,
                            ),
                            "Previous: User said"@,
                        ),
                        "[2m"@,
                    ),
                    "[0m"@,
                ),
                "[32m"@,
            ),
        ),
        80,
    )
}

/// The cleaned assistant side: hook marker and colour codes removed,
/// whitespace trimmed, then cut to 200 characters.
pub open spec fn clean_assistant_spec(s: Seq<char>) -> Seq<char> {
    take_spec(
        trim_spec(
            remove_all_spec(
                remove_all_spec(
                    remove_all_spec(
                        remove_all_spec(s, "<user-prompt-submit-hook>"@),
                        "[2m"@,
                    ),
                    "[0m"@,
                ),
                "[32m"@,
            ),
        ),
        200,
    )
}

fn clean_user(s: &str) -> (r: Vec<char>)
    ensures
        r@ == clean_user_spec(s@),
{
    let mut t = str_chars(s);
    t = remove_all(&t, &str_chars("<user-prompt-submit-hook>"));
    t = remove_all(&t, &str_chars("[CONTEXT FROM PREVIOUS CONVERSATIONS]"));
    t = remove_all(&t, &str_chars("[END CONTEXT]"));
    t = tail_after(&t, &str_chars("INFO Configuration loaded successfully"));
    t = tail_after(&t, &str_chars("Previous: User said"));
    t = remove_all(&t, &str_chars("[2m"));
    t = remove_all(&t, &str_chars("[0m"));
    t = remove_all(&t, &str_chars("[32m"));
    t = trim_chars(&t);
    take_chars(&t, 80)
}

fn clean_assistant(s: &str) -> (r: Vec<char>)
    ensures
        r@ == clean_assistant_spec(s@),
{
    let mut t = str_chars(s);
    t = remove_all(&t, &str_chars("<user-prompt-submit-hook>"));
    t = remove_all(&t, &str_chars("[2m"));
    t = remove_all(&t, &str_chars("[0m"));
    t = remove_all(&t, &str_chars("[32m"));
    t = trim_chars(&t);
    take_chars(&t, 200)
}

/// The rendering of one cleaned pair inside the compact block.
pub open spec fn pair_text(u: Seq<char>, a: Seq<char>) -> Seq<char> {
    "U:\""@ + (u + ("\" A:\""@ + (a + "\""@)))
}

/// The cleaned pairs of the given records, skipping any record whose
/// cleaned text is empty on either side.
pub open spec fn cleaned_pairs(l: Seq<ConvView>) -> Seq<Seq<char>>
    decreases l.len(),
{
    if l.len() == 0 {
        Seq::empty()
    } else {
        let u = clean_user_spec(l[0].user_message);
        let a = clean_assistant_spec(l[0].assistant_response);
        let rest = cleaned_pairs(l.drop_first());
        if u.len() > 0 && a.len() > 0 {
            seq![pair_text(u, a)] + rest
        } else {
            rest
        }
    }
}

proof fn lemma_cleaned_pairs_push(l: Seq<ConvView>, c: ConvView)
    ensures
        cleaned_pairs(l.push(c)) == cleaned_pairs(l) + ({
            let u = clean_user_spec(c.user_message);
            let a = clean_assistant_spec(c.assistant_response);
            if u.len() > 0 && a.len() > 0 {
                seq![pair_text(u, a)]
            } else {
                Seq::<Seq<char>>::empty()
            }
        }),
    decreases l.len(),
{
    let tail: Seq<Seq<char>> = {
        let u = clean_user_spec(c.user_message);
        let a = clean_assistant_spec(c.assistant_response);
        if u.len() > 0 && a.len() > 0 {
            seq![pair_text(u, a)]
        } else {
            Seq::empty()
        }
    };
    if l.len() == 0 {
        assert(l.push(c)[0] == c);
        assert(l.push(c).drop_first() =~= l);
        assert(cleaned_pairs(l) + tail =~= tail);
    } else {
        assert(l.push(c)[0] == l[0]);
        assert(l.push(c).drop_first() =~= l.drop_first().push(c));
        lemma_cleaned_pairs_push(l.drop_first(), c);
        let u0 = clean_user_spec(l[0].user_message);
        let a0 = clean_assistant_spec(l[0].assistant_response);
        if u0.len() > 0 && a0.len() > 0 {
            assert((seq![pair_text(u0, a0)] + cleaned_pairs(l.drop_first())) + tail =~= seq![
                pair_text(u0, a0),
            ] + (cleaned_pairs(l.drop_first()) + tail));
        }
    }
}

/// The pieces joined with `"; "`.
pub open spec fn join_pairs(l: Seq<Seq<char>>) -> Seq<char>
    decreases l.len(),
{
    if l.len() == 0 {
        Seq::empty()
    } else {
        l[0] + join_tail(l.drop_first())
    }
}

pub open spec fn join_tail(l: Seq<Seq<char>>) -> Seq<char>
    decreases l.len(),
{
    if l.len() == 0 {
        Seq::empty()
    } else {
        "; "@ + (l[0] + join_tail(l.drop_first()))
    }
}

/// The last `n` records, in order.
pub open spec fn last_n(l: Seq<ConvView>, n: int) -> Seq<ConvView> {
    if l.len() <= n {
        l
    } else {
        l.skip(l.len() - n)
    }
}

/// The compact context block, if any record survives cleaning.
pub open spec fn policy_b_block(convs: Seq<ConvView>) -> Option<Seq<char>> {
    let recent = last_n(sort_ts(convs), 2);
    let pieces = cleaned_pairs(recent);
    if pieces.len() == 0 {
        None
    } else {
        Some("[PREV: "@ + (join_pairs(pieces) + "]\n\n"@))
    }
}

proof fn lemma_join_pairs_push(l: Seq<Seq<char>>, p: Seq<char>)
    ensures
        join_pairs(l.push(p)) == join_pairs(l) + (if l.len() == 0 {
            p
        } else {
            "; "@ + p
        }),
    decreases l.len(),
{
    if l.len() == 0 {
        assert(l.push(p)[0] == p);
        assert(l.push(p).drop_first() =~= l);
        assert(join_pairs(l) + p =~= p + join_tail(l));
        assert(p + Seq::<char>::empty() =~= p);
        assert(Seq::<char>::empty() + p =~= p);
    } else {
        assert(l.push(p)[0] == l[0]);
        assert(l.push(p).drop_first() =~= l.drop_first().push(p));
        lemma_join_tail_push(l.drop_first(), p);
        assert(l[0] + (join_tail(l.drop_first()) + ("; "@ + p)) =~= (l[0] + join_tail(
            l.drop_first(),
        )) + ("; "@ + p));
    }
}

proof fn lemma_join_tail_push(l: Seq<Seq<char>>, p: Seq<char>)
    ensures
        join_tail(l.push(p)) == join_tail(l) + ("; "@ + p),
    decreases l.len(),
{
    if l.len() == 0 {
        assert(l.push(p)[0] == p);
        assert(l.push(p).drop_first() =~= l);
        assert(p + join_tail(l) =~= p);
        assert(Seq::<char>::empty() + ("; "@ + p) =~= "; "@ + p);
        assert("; "@ + (p + Seq::<char>::empty()) =~= "; "@ + p);
    } else {
        assert(l.push(p)[0] == l[0]);
        assert(l.push(p).drop_first() =~= l.drop_first().push(p));
        lemma_join_tail_push(l.drop_first(), p);
        assert("; "@ + (l[0] + (join_tail(l.drop_first()) + ("; "@ + p))) =~= ("; "@ + (l[0]
            + join_tail(l.drop_first()))) + ("; "@ + p));
    }
}

/// The compact injection: prepends the block of the last two usable
/// records, or returns the prompt unchanged when none survives cleaning.
pub fn inject_context_simple(prompt: &str, convs: &Vec<Conversation>) -> (r: String)
    ensures
        r@ == match policy_b_block(convs.deep_view()) {
            Some(b) => b + prompt@,
            None => prompt@,
        },
{
    let sorted = sort_conversations_by_ts(convs);
    let ghost sl = sorted.deep_view();
    let start = if sorted.len() <= 2 {
        0
    } else {
        sorted.len() - 2
    };
    let ghost recent = last_n(sl, 2);
    proof {
        if sl.len() <= 2 {
            assert(sl.skip(0) =~= sl);
        }
    }
    let mut pieces: Vec<Vec<char>> = Vec::new();
    proof {
        assert(recent.take(0) =~= Seq::<ConvView>::empty());
        assert(pieces.deep_view() =~= cleaned_pairs(recent.take(0)));
    }
    let n = sorted.len();
    let mut i: usize = start;
    while i < n
        invariant
            start <= i <= n,
            n == sorted@.len(),
            sl == sorted.deep_view(),
            recent == last_n(sl, 2),
            recent == sl.skip(start as int),
            pieces.deep_view() == cleaned_pairs(recent.take(i - start)),
        decreases n - i,
    {
        broadcast use crate::text::lemma_char_vec_deep_view;

        let c = &sorted[i];
        proof {
            assert(sl[i as int] == sorted@[i as int]@);
            assert(recent[i - start] == sl[i as int]);
        }
        let u = clean_user(c.user_message.as_str());
        let a = clean_assistant(c.assistant_response.as_str());
        let ghost pre = pieces.deep_view();
        proof {
            lemma_cleaned_pairs_push(recent.take(i - start), recent[i - start]);
            assert(recent.take(i - start).push(recent[i - start]) =~= recent.take(i - start + 1));
        }
        if u.len() > 0 && a.len() > 0 {
            let mut piece: Vec<char> = str_chars("U:\"");
            let ghost uv = u@;
            let ghost av = a@;
            let mut u2 = u;
            piece.append(&mut u2);
            let mut mid = str_chars("\" A:\"");
            piece.append(&mut mid);
            let mut a2 = a;
            piece.append(&mut a2);
            let mut close = str_chars("\"");
            piece.append(&mut close);
            proof {
                assert(piece@ =~= pair_text(uv, av));
            }
            pieces.push(piece);
            proof {
                assert(pieces.deep_view() =~= pre.push(pair_text(uv, av)));
                assert(pre.push(pair_text(uv, av)) =~= pre + seq![pair_text(uv, av)]);
            }
        } else {
            proof {
                assert(pre + Seq::<Seq<char>>::empty() =~= pre);
            }
        }
        i = i + 1;
    }
    proof {
        assert(recent.take(n - start) =~= recent);
    }
    if pieces.len() == 0 {
        let out = chars_string(&str_chars(prompt));
        return out;
    }
    let mut block: Vec<char> = str_chars("[PREV: ");
    let ghost pv = pieces.deep_view();
    proof {
        assert(pv.take(0) =~= Seq::<Seq<char>>::empty());
        assert("[PREV: "@ + join_pairs(pv.take(0)) =~= "[PREV: "@);
    }
    let m = pieces.len();
    let mut k: usize = 0;
    while k < m
        invariant
            k <= m,
            m == pieces@.len(),
            pv == pieces.deep_view(),
            block@ == "[PREV: "@ + join_pairs(pv.take(k as int)),
        decreases m - k,
    {
        broadcast use crate::text::lemma_char_vec_deep_view;

        proof {
            assert(pv[k as int] == pieces@[k as int]@);
            lemma_join_pairs_push(pv.take(k as int), pv[k as int]);
            assert(pv.take(k as int).push(pv[k as int]) =~= pv.take(k + 1 as int));
        }
        if k > 0 {
            let mut sep = str_chars("; ");
            block.append(&mut sep);
        }
        let mut piece = crate::text::take_chars(&pieces[k], pieces[k].len());
        proof {
            assert(piece@ =~= pv[k as int]);
        }
        block.append(&mut piece);
        proof {
            if k == 0 {
                assert(pv.take(0).len() == 0);
                assert(("[PREV: "@ + join_pairs(pv.take(0))) + pv[k as int] =~= "[PREV: "@ + (
                join_pairs(pv.take(0)) + pv[k as int]));
            } else {
                assert((("[PREV: "@ + join_pairs(pv.take(k as int))) + "; "@) + pv[k as int] =~=
                    "[PREV: "@ + (join_pairs(pv.take(k as int)) + ("; "@ + pv[k as int])));
            }
        }
        k = k + 1;
    }
    proof {
        assert(pv.take(pv.len() as int) =~= pv);
    }
    let mut tail = str_chars("]\n\n");
    block.append(&mut tail);
    let mut prompt_chars = str_chars(prompt);
    block.append(&mut prompt_chars);
    proof {
        assert((("[PREV: "@ + join_pairs(pv)) + "]\n\n"@) + prompt@ =~= ("[PREV: "@ + (join_pairs(
            pv,
        ) + "]\n\n"@)) + prompt@);
    }
    chars_string(&block)
}

pub open spec fn seq_contains_str(l: Seq<Seq<char>>, x: Seq<char>) -> bool {
    exists|k: int| 0 <= k < l.len() && l[k] == x
}

/// The distinct session ids, in order of first appearance; records with
/// no session id join no group.
pub open spec fn sids_acc(s: Seq<ConvView>, i: int, acc: Seq<Seq<char>>) -> Seq<Seq<char>>
    decreases s.len() - i,
{
    if i < 0 || i >= s.len() {
        acc
    } else {
        match s[i].metadata.session_id {
            Some(sid) => if seq_contains_str(acc, sid) {
                sids_acc(s, i + 1, acc)
            } else {
                sids_acc(s, i + 1, acc.push(sid))
            },
            None => sids_acc(s, i + 1, acc),
        }
    }
}

pub open spec fn session_ids(s: Seq<ConvView>) -> Seq<Seq<char>> {
    sids_acc(s, 0, Seq::empty())
}

/// The records of one session, in store order.
pub open spec fn group_of(s: Seq<ConvView>, sid: Seq<char>) -> Seq<ConvView>
    decreases s.len(),
{
    if s.len() == 0 {
        Seq::empty()
    } else {
        let rest = group_of(s.drop_first(), sid);
        if s[0].metadata.session_id == Some(sid) {
            seq![s[0]] + rest
        } else {
            rest
        }
    }
}

proof fn lemma_group_of_push(s: Seq<ConvView>, c: ConvView, sid: Seq<char>)
    ensures
        group_of(s.push(c), sid) == group_of(s, sid) + (if c.metadata.session_id == Some(sid) {
            seq![c]
        } else {
            Seq::<ConvView>::empty()
        }),
    decreases s.len(),
{
    let tail: Seq<ConvView> = if c.metadata.session_id == Some(sid) {
        seq![c]
    } else {
        Seq::empty()
    };
    if s.len() == 0 {
        assert(s.push(c)[0] == c);
        assert(s.push(c).drop_first() =~= s);
        assert(group_of(s, sid) + tail =~= tail);
    } else {
        assert(s.push(c)[0] == s[0]);
        assert(s.push(c).drop_first() =~= s.drop_first().push(c));
        lemma_group_of_push(s.drop_first(), c, sid);
        if s[0].metadata.session_id == Some(sid) {
            assert((seq![s[0]] + group_of(s.drop_first(), sid)) + tail =~= seq![s[0]] + (group_of(
                s.drop_first(),
                sid,
            ) + tail));
        }
    }
}

/// When the latest record of a session happened: the timestamp of the
/// last record of the time-ordered group (zero for an absent session).
pub open spec fn last_ts(s: Seq<ConvView>, sid: Seq<char>) -> int {
    let g = sort_ts(group_of(s, sid));
    if g.len() == 0 {
        0
    } else {
        g.last().timestamp
    }
}

/// Scans the candidate sessions, keeping the one whose latest record is
/// most recent; a later candidate wins a timestamp tie, and the current
/// session is never a candidate.
pub open spec fn pick_acc(
    sids: Seq<Seq<char>>,
    i: int,
    s: Seq<ConvView>,
    current: Option<Seq<char>>,
    best: Option<Seq<char>>,
) -> Option<Seq<char>>
    decreases sids.len() - i,
{
    if i < 0 || i >= sids.len() {
        best
    } else {
        let sid = sids[i];
        if current == Some(sid) {
            pick_acc(sids, i + 1, s, current, best)
        } else {
            match best {
                None => pick_acc(sids, i + 1, s, current, Some(sid)),
                Some(b) => if last_ts(s, sid) >= last_ts(s, b) {
                    pick_acc(sids, i + 1, s, current, Some(sid))
                } else {
                    pick_acc(sids, i + 1, s, current, best)
                },
            }
        }
    }
}

/// The session whose context is injected: the most recent one other
/// than the current session.
pub open spec fn chosen_session(s: Seq<ConvView>, current: Option<Seq<char>>) -> Option<Seq<char>> {
    pick_acc(session_ids(s), 0, s, current, None)
}

/// The chosen session is never the current one.
pub proof fn lemma_selection_excludes_current(s: Seq<ConvView>, current: Seq<char>)
    ensures
        match chosen_session(s, Some(current)) {
            Some(sid) => sid != current,
            None => true,
        },
{
    lemma_pick_acc_excludes(session_ids(s), 0, s, current, None);
}

proof fn lemma_pick_acc_excludes(
    sids: Seq<Seq<char>>,
    i: int,
    s: Seq<ConvView>,
    current: Seq<char>,
    best: Option<Seq<char>>,
)
    requires
        best is Some ==> best->0 != current,
    ensures
        match pick_acc(sids, i, s, Some(current), best) {
            Some(sid) => sid != current,
            None => true,
        },
    decreases sids.len() - i,
{
    if i < 0 || i >= sids.len() {
    } else {
        let sid = sids[i];
        if Some(sid) == Some(current) {
            lemma_pick_acc_excludes(sids, i + 1, s, current, best);
        } else {
            match best {
                None => {
                    lemma_pick_acc_excludes(sids, i + 1, s, current, Some(sid));
                },
                Some(b) => {
                    if last_ts(s, sid) >= last_ts(s, b) {
                        lemma_pick_acc_excludes(sids, i + 1, s, current, Some(sid));
                    } else {
                        lemma_pick_acc_excludes(sids, i + 1, s, current, best);
                    }
                },
            }
        }
    }
}

/// The chosen session is the most recent eligible one: no session other
/// than the current one has a later latest record.
pub proof fn lemma_chosen_is_most_recent(s: Seq<ConvView>, current: Option<Seq<char>>)
    ensures
        match chosen_session(s, current) {
            Some(sid) => forall|k: int|
                0 <= k < session_ids(s).len() && current != Some(#[trigger] session_ids(s)[k])
                    ==> last_ts(s, session_ids(s)[k]) <= last_ts(s, sid),
            None => true,
        },
{
    lemma_pick_acc_dominates(session_ids(s), 0, s, current, None);
}

proof fn lemma_pick_acc_dominates(
    sids: Seq<Seq<char>>,
    i: int,
    s: Seq<ConvView>,
    current: Option<Seq<char>>,
    best: Option<Seq<char>>,
)
    requires
        i >= 0,
    ensures
        match pick_acc(sids, i, s, current, best) {
            Some(r) => (forall|k: int|
                i <= k < sids.len() && current != Some(#[trigger] sids[k]) ==> last_ts(s, sids[k])
                    <= last_ts(s, r)) && (best is Some ==> last_ts(s, best->0) <= last_ts(s, r)),
            None => true,
        },
    decreases sids.len() - i,
{
    if i >= sids.len() {
    } else {
        let sid = sids[i];
        if current == Some(sid) {
            lemma_pick_acc_dominates(sids, i + 1, s, current, best);
        } else {
            match best {
                None => {
                    lemma_pick_acc_dominates(sids, i + 1, s, current, Some(sid));
                },
                Some(b) => {
                    if last_ts(s, sid) >= last_ts(s, b) {
                        lemma_pick_acc_dominates(sids, i + 1, s, current, Some(sid));
                    } else {
                        lemma_pick_acc_dominates(sids, i + 1, s, current, best);
                    }
                },
            }
        }
    }
}

/// When every stored record belongs to the current session or to no
/// session at all, no prior session is eligible: the chosen session is
/// none and the instruction body stays empty.
pub proof fn lemma_only_current_session_empty_body(s: Seq<ConvView>, current: Seq<char>)
    requires
        forall|k: int|
            0 <= k < s.len() ==> (#[trigger] s[k].metadata.session_id) is None
                || s[k].metadata.session_id == Some(current),
    ensures
        chosen_session(s, Some(current)) is None,
        policy_a_body(s, Some(current)) == Seq::<char>::empty(),
{
    lemma_sids_all_current(s, 0, Seq::empty(), current);
    lemma_pick_all_current(session_ids(s), 0, s, current);
}

proof fn lemma_sids_all_current(s: Seq<ConvView>, i: int, acc: Seq<Seq<char>>, current: Seq<char>)
    requires
        i >= 0,
        forall|k: int| 0 <= k < acc.len() ==> #[trigger] acc[k] == current,
        forall|k: int|
            0 <= k < s.len() ==> (#[trigger] s[k].metadata.session_id) is None
                || s[k].metadata.session_id == Some(current),
    ensures
        forall|k: int|
            0 <= k < sids_acc(s, i, acc).len() ==> #[trigger] sids_acc(s, i, acc)[k] == current,
    decreases s.len() - i,
{
    let res = sids_acc(s, i, acc);
    if i >= s.len() {
        assert(res == acc);
    } else {
        match s[i].metadata.session_id {
            Some(sid) => {
                assert(sid == current);
                if seq_contains_str(acc, sid) {
                    lemma_sids_all_current(s, i + 1, acc, current);
                    assert(res == sids_acc(s, i + 1, acc));
                } else {
                    assert forall|k: int|
                        0 <= k < acc.push(sid).len() implies #[trigger] acc.push(sid)[k]
                        == current by {
                        if k < acc.len() {
                            assert(acc.push(sid)[k] == acc[k]);
                        }
                    }
                    lemma_sids_all_current(s, i + 1, acc.push(sid), current);
                    assert(res == sids_acc(s, i + 1, acc.push(sid)));
                }
            },
            None => {
                lemma_sids_all_current(s, i + 1, acc, current);
                assert(res == sids_acc(s, i + 1, acc));
            },
        }
    }
}

proof fn lemma_pick_all_current(
    sids: Seq<Seq<char>>,
    i: int,
    s: Seq<ConvView>,
    current: Seq<char>,
)
    requires
        forall|k: int| 0 <= k < sids.len() ==> #[trigger] sids[k] == current,
    ensures
        pick_acc(sids, i, s, Some(current), None) is None,
    decreases sids.len() - i,
{
    if 0 <= i < sids.len() {
        lemma_pick_all_current(sids, i + 1, s, current);
    }
}

/// The "remember" sentence quoting one stored turn.
pub open spec fn sentence(c: ConvView) -> Seq<char> {
    "Remember: in the last conversation, you answered \""@ + (c.assistant_response + (
    "\" to the question \""@ + (c.user_message + "\".\n"@)))
}

pub open spec fn sentences(l: Seq<ConvView>) -> Seq<char>
    decreases l.len(),
{
    if l.len() == 0 {
        Seq::empty()
    } else {
        sentence(l[0]) + sentences(l.drop_first())
    }
}

proof fn lemma_sentences_push(l: Seq<ConvView>, c: ConvView)
    ensures
        sentences(l.push(c)) == sentences(l) + sentence(c),
    decreases l.len(),
{
    if l.len() == 0 {
        assert(l.push(c)[0] == c);
        assert(l.push(c).drop_first() =~= l);
        assert(sentence(c) + sentences(l) =~= sentence(c));
        assert(sentences(l) + sentence(c) =~= sentence(c));
    } else {
        assert(l.push(c)[0] == l[0]);
        assert(l.push(c).drop_first() =~= l.drop_first().push(c));
        lemma_sentences_push(l.drop_first(), c);
        assert(sentence(l[0]) + (sentences(l.drop_first()) + sentence(c)) =~= (sentence(l[0])
            + sentences(l.drop_first())) + sentence(c));
    }
}

/// The instruction body: the last three turns of the chosen session,
/// or nothing when no other session exists.
pub open spec fn policy_a_body(s: Seq<ConvView>, current: Option<Seq<char>>) -> Seq<char> {
    match chosen_session(s, current) {
        None => Seq::empty(),
        Some(sid) => sentences(last_n(sort_ts(group_of(s, sid)), 3)),
    }
}

/// The whole injected text: the delimited instruction block (emitted
/// even with an empty body) followed by the original prompt.
pub open spec fn policy_a_result(
    s: Seq<ConvView>,
    current: Option<Seq<char>>,
    prompt: Seq<char>,
) -> Seq<char> {
    "[INSTRUCTION]\n"@ + (policy_a_body(s, current) + ("[/INSTRUCTION]\n\n"@ + prompt))
}

fn contains_string(v: &Vec<String>, x: &String) -> (r: bool)
    ensures
        r == seq_contains_str(v.deep_view(), x@),
{
    let n = v.len();
    let mut k: usize = 0;
    while k < n
        invariant
            k <= n,
            n == v@.len(),
            forall|j: int| 0 <= j < k ==> v.deep_view()[j] != x@,
        decreases n - k,
    {
        if eq_chars(&str_chars(v[k].as_str()), &str_chars(x.as_str())) {
            proof {
                assert(v.deep_view()[k as int] == x@);
            }
            return true;
        }
        proof {
            assert(v.deep_view()[k as int] == v@[k as int]@);
        }
        k = k + 1;
    }
    false
}

fn collect_session_ids(convs: &Vec<Conversation>) -> (r: Vec<String>)
    ensures
        r.deep_view() == session_ids(convs.deep_view()),
{
    let ghost dv = convs.deep_view();
    let mut acc: Vec<String> = Vec::new();
    proof {
        assert(acc.deep_view() =~= Seq::<Seq<char>>::empty());
    }
    let n = convs.len();
    let mut i: usize = 0;
    while i < n
        invariant
            i <= n,
            n == convs@.len(),
            dv == convs.deep_view(),
            session_ids(dv) == sids_acc(dv, i as int, acc.deep_view()),
        decreases n - i,
    {
        proof {
            assert(dv[i as int] == convs@[i as int]@);
        }
        match &convs[i].metadata.session_id {
            Some(sid) => {
                if !contains_string(&acc, sid) {
                    let ghost pre = acc.deep_view();
                    acc.push(sid.clone());
                    proof {
                        assert(acc.deep_view() =~= pre.push(sid@));
                    }
                }
            },
            None => {},
        }
        i = i + 1;
    }
    acc
}

fn collect_group(convs: &Vec<Conversation>, sid: &String) -> (r: Vec<Conversation>)
    ensures
        r.deep_view() == group_of(convs.deep_view(), sid@),
{
    let ghost dv = convs.deep_view();
    let mut r: Vec<Conversation> = Vec::new();
    proof {
        assert(dv.take(0) =~= Seq::<ConvView>::empty());
        assert(r.deep_view() =~= group_of(dv.take(0), sid@));
    }
    let n = convs.len();
    let mut i: usize = 0;
    while i < n
        invariant
            i <= n,
            n == convs@.len(),
            dv == convs.deep_view(),
            r.deep_view() == group_of(dv.take(i as int), sid@),
        decreases n - i,
    {
        let c = &convs[i];
        proof {
            assert(dv[i as int] == convs@[i as int]@);
            lemma_group_of_push(dv.take(i as int), dv[i as int], sid@);
            assert(dv.take(i as int).push(dv[i as int]) =~= dv.take(i + 1 as int));
        }
        let ghost pre = r.deep_view();
        let is_member = match &c.metadata.session_id {
            Some(s) => eq_chars(&str_chars(s.as_str()), &str_chars(sid.as_str())),
            None => false,
        };
        if is_member {
            r.push(c.duplicate());
            proof {
                assert(r.deep_view() =~= pre.push(dv[i as int]));
                assert(pre.push(dv[i as int]) =~= pre + seq![dv[i as int]]);
            }
        } else {
            proof {
                assert(pre + Seq::<ConvView>::empty() =~= pre);
            }
        }
        i = i + 1;
    }
    proof {
        assert(dv.take(dv.len() as int) =~= dv);
    }
    r
}

fn latest_group_ts(convs: &Vec<Conversation>, sid: &String) -> (r: i64)
    ensures
        r as int == last_ts(convs.deep_view(), sid@),
{
    let group = collect_group(convs, sid);
    let sorted = sort_conversations_by_ts(&group);
    if sorted.len() == 0 {
        0
    } else {
        let last = sorted.len() - 1;
        proof {
            assert(sorted.deep_view()[last as int] == sorted@[last as int]@);
        }
        sorted[last].timestamp
    }
}

fn choose_session(convs: &Vec<Conversation>, current_session_id: &Option<String>) -> (r: Option<
    String,
>)
    ensures
        r.deep_view() == chosen_session(convs.deep_view(), current_session_id.deep_view()),
{
    let ghost dv = convs.deep_view();
    let ghost cur = current_session_id.deep_view();
    let sids = collect_session_ids(convs);
    let ghost sv = sids.deep_view();
    let mut best: Option<String> = None;
    let n = sids.len();
    let mut i: usize = 0;
    while i < n
        invariant
            i <= n,
            n == sids@.len(),
            sv == sids.deep_view(),
            dv == convs.deep_view(),
            cur == current_session_id.deep_view(),
            chosen_session(dv, cur) == pick_acc(sv, i as int, dv, cur, best.deep_view()),
        decreases n - i,
    {
        let sid = &sids[i];
        proof {
            assert(sv[i as int] == sids@[i as int]@);
        }
        let is_current = match current_session_id {
            Some(c) => eq_chars(&str_chars(c.as_str()), &str_chars(sid.as_str())),
            None => false,
        };
        if !is_current {
            let better = match &best {
                None => true,
                Some(b) => latest_group_ts(convs, sid) >= latest_group_ts(convs, b),
            };
            if better {
                best = Some(sid.clone());
            }
        }
        i = i + 1;
    }
    best
}

/// Builds the structured injection for a prompt: the last three turns of
/// the most recent other session, quoted inside the instruction
/// delimiter (emitted even when empty), followed by the prompt.
#[verifier::rlimit(50)]
pub fn inject_context_internal(
    prompt: &str,
    current_session_id: &Option<String>,
    convs: &Vec<Conversation>,
) -> (r: String)
    ensures
        r@ == policy_a_result(convs.deep_view(), current_session_id.deep_view(), prompt@),
{
    let ghost dv = convs.deep_view();
    let ghost cur = current_session_id.deep_view();
    let mut block: Vec<char> = str_chars("[INSTRUCTION]\n");
    let chosen = choose_session(convs, current_session_id);
    match &chosen {
        None => {
            proof {
                assert(policy_a_body(dv, cur) =~= Seq::<char>::empty());
            }
        },
        Some(sid) => {
            let group = collect_group(convs, sid);
            let sorted = sort_conversations_by_ts(&group);
            let ghost sl = sorted.deep_view();
            let ghost chosen_turns = last_n(sl, 3);
            let start = if sorted.len() <= 3 {
                0
            } else {
                sorted.len() - 3
            };
            proof {
                if sl.len() <= 3 {
                    assert(sl.skip(0) =~= sl);
                }
                assert(chosen_turns == sl.skip(start as int));
                assert(chosen_turns.take(0) =~= Seq::<ConvView>::empty());
                assert(block@ =~= "[INSTRUCTION]\n"@ + sentences(chosen_turns.take(0)));
            }
            let n = sorted.len();
            let mut i: usize = start;
            while i < n
                invariant
                    start <= i <= n,
                    n == sorted@.len(),
                    sl == sorted.deep_view(),
                    chosen_turns == last_n(sl, 3),
                    chosen_turns == sl.skip(start as int),
                    block@ == "[INSTRUCTION]\n"@ + sentences(chosen_turns.take(i - start)),
                decreases n - i,
            {
                let c = &sorted[i];
                proof {
                    assert(sl[i as int] == sorted@[i as int]@);
                    assert(chosen_turns[i - start] == sl[i as int]);
                    lemma_sentences_push(chosen_turns.take(i - start), chosen_turns[i - start]);
                    assert(chosen_turns.take(i - start).push(chosen_turns[i - start])
                        =~= chosen_turns.take(i - start + 1));
                }
                let ghost pre = block@;
                let mut s1 = str_chars("Remember: in the last conversation, you answered \"");
                block.append(&mut s1);
                let mut ans = str_chars(c.assistant_response.as_str());
                block.append(&mut ans);
                let mut s2 = str_chars("\" to the question \"");
                block.append(&mut s2);
                let mut q = str_chars(c.user_message.as_str());
                block.append(&mut q);
                let mut s3 = str_chars("\".\n");
                block.append(&mut s3);
                proof {
                    assert(block@ =~= pre + sentence(sl[i as int]));
                    assert(pre + sentence(sl[i as int]) =~= "[INSTRUCTION]\n"@ + (sentences(
                        chosen_turns.take(i - start),
                    ) + sentence(chosen_turns[i - start])));
                }
                i = i + 1;
            }
            proof {
                assert(chosen_turns.take(n - start) =~= chosen_turns);
            }
        },
    }
    let mut closing = str_chars("[/INSTRUCTION]\n\n");
    block.append(&mut closing);
    let mut prompt_chars = str_chars(prompt);
    block.append(&mut prompt_chars);
    proof {
        let body = policy_a_body(dv, cur);
        assert((("[INSTRUCTION]\n"@ + body) + "[/INSTRUCTION]\n\n"@) + prompt@ =~=
            "[INSTRUCTION]\n"@ + (body + ("[/INSTRUCTION]\n\n"@ + prompt@)));
    }
    chars_string(&block)
}

/// The fixed acknowledgement phrases that never receive injected
/// context.
pub open spec fn is_simple_spec(low: Seq<char>) -> bool {
    ||| low == "hi"@
    ||| low == "hello"@
    ||| low == "help"@
    ||| low == "thanks"@
    ||| low == "thank you"@
    ||| low == "yes"@
    ||| low == "no"@
    ||| low == "ok"@
    ||| low == "okay"@
    ||| low == "continue"@
    ||| low == "go on"@
    ||| low == "next"@
    ||| low == "stop"@
    ||| low == "quit"@
    ||| low == "exit"@
}

/// Whether the trimmed, lowercased query is one of the fixed
/// acknowledgement phrases.
pub fn is_simple_command(query: &str) -> (r: bool)
    ensures
        r == is_simple_spec(lower_of(trim_spec(query@))),
{
    let trimmed = trim_chars(&str_chars(query));
    let low_string = lowercase(chars_string(&trimmed).as_str());
    let low = str_chars(low_string.as_str());
    eq_chars(&low, &str_chars("hi")) || eq_chars(&low, &str_chars("hello")) || eq_chars(
        &low,
        &str_chars("help"),
    ) || eq_chars(&low, &str_chars("thanks")) || eq_chars(&low, &str_chars("thank you"))
        || eq_chars(&low, &str_chars("yes")) || eq_chars(&low, &str_chars("no")) || eq_chars(
        &low,
        &str_chars("ok"),
    ) || eq_chars(&low, &str_chars("okay")) || eq_chars(&low, &str_chars("continue")) || eq_chars(
        &low,
        &str_chars("go on"),
    ) || eq_chars(&low, &str_chars("next")) || eq_chars(&low, &str_chars("stop")) || eq_chars(
        &low,
        &str_chars("quit"),
    ) || eq_chars(&low, &str_chars("exit"))
}

/// The interactive guard: injection is skipped for inputs under ten
/// characters once trimmed, and for the fixed acknowledgement phrases.
pub open spec fn skip_guard_spec(q: Seq<char>) -> bool {
    trim_spec(q).len() < 10 || is_simple_spec(lower_of(trim_spec(q)))
}

pub fn should_skip_injection(query: &str) -> (r: bool)
    ensures
        r == skip_guard_spec(query@),
{
    let trimmed = trim_chars(&str_chars(query));
    if trimmed.len() < 10 {
        return true;
    }
    is_simple_command(query)
}

proof fn lemma_trim_start_le(s: Seq<char>)
    ensures
        trim_start_spec(s).len() <= s.len(),
    decreases s.len(),
{
    if s.len() > 0 && crate::text::is_space_char(s[0]) {
        lemma_trim_start_le(s.drop_first());
    }
}

proof fn lemma_trim_end_le(s: Seq<char>)
    ensures
        trim_end_spec(s).len() <= s.len(),
    decreases s.len(),
{
    if s.len() > 0 && crate::text::is_space_char(s.last()) {
        lemma_trim_end_le(s.drop_last());
    }
}

/// An input under ten characters is always below the guard's floor,
/// whatever the store holds: the guard passes it through unchanged.
pub proof fn lemma_short_prompt_skipped(q: Seq<char>)
    requires
        q.len() < 10,
    ensures
        skip_guard_spec(q),
{
    lemma_trim_start_le(q);
    lemma_trim_end_le(trim_start_spec(q));
}

/// The guarded interactive path: a prompt the guard stops is returned
/// verbatim; any other prompt receives the structured injection.
pub fn inject_context_guarded(
    prompt: &str,
    current_session_id: &Option<String>,
    convs: &Vec<Conversation>,
) -> (r: String)
    ensures
        skip_guard_spec(prompt@) ==> r@ == prompt@,
        !skip_guard_spec(prompt@) ==> r@ == policy_a_result(
            convs.deep_view(),
            current_session_id.deep_view(),
            prompt@,
        ),
{
    if should_skip_injection(prompt) {
        chars_string(&str_chars(prompt))
    } else {
        inject_context_internal(prompt, current_session_id, convs)
    }
}

} // verus!
