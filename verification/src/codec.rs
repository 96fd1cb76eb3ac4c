//! The persisted snapshot format.
//!
//! A snapshot is one text document holding the whole conversation
//! collection: a record count, then each record's fields in a fixed order.
//! Every field is framed by a decimal length (or is a decimal number
//! itself) and terminated by a newline, so the document can hold arbitrary
//! text, including newlines, without escaping.
//!
//! `spec_snapshot` and `spec_decode` define the format mathematically;
//! [`encode_snapshot`] and [`decode_snapshot`] are proved to match them,
//! and [`lemma_snapshot_round_trip`] shows that decoding an encoded
//! collection gives the collection back.
use crate::text::chars_string;
use crate::text::str_chars;
use crate::types::Conversation;
use crate::types::ConversationMetadata;
use crate::types::ConvView;
use crate::types::MetaView;
use crate::types::StoreError;
use vstd::arithmetic::div_mod::lemma_div_by_multiple;
use vstd::arithmetic::div_mod::lemma_div_is_ordered;
use vstd::prelude::*;

verus! {

pub open spec fn digit_char(d: int) -> char {
    if d == 0 {
        '0'
    } else if d == 1 {
        '1'
    } else if d == 2 {
        '2'
    } else if d == 3 {
        '3'
    } else if d == 4 {
        '4'
    } else if d == 5 {
        '5'
    } else if d == 6 {
        '6'
    } else if d == 7 {
        '7'
    } else if d == 8 {
        '8'
    } else {
        '9'
    }
}

/// The value of a decimal digit character, or -1 for any other character.
pub open spec fn digit_val(c: char) -> int {
    if c == '0' {
        0
    } else if c == '1' {
        1
    } else if c == '2' {
        2
    } else if c == '3' {
        3
    } else if c == '4' {
        4
    } else if c == '5' {
        5
    } else if c == '6' {
        6
    } else if c == '7' {
        7
    } else if c == '8' {
        8
    } else if c == '9' {
        9
    } else {
        -1
    }
}

pub open spec fn is_digit(c: char) -> bool {
    digit_val(c) >= 0
}

/// The decimal digits of `n`, most significant first.
pub open spec fn dec_digits(n: nat) -> Seq<char>
    decreases n,
{
    if n < 10 {
        seq![digit_char(n as int)]
    } else {
        dec_digits(n / 10).push(digit_char((n % 10) as int))
    }
}

pub open spec fn pow10(k: nat) -> nat
    decreases k,
{
    if k == 0 {
        1
    } else {
        10 * pow10((k - 1) as nat)
    }
}

/// Reads decimal digits starting at `i`, accumulating onto `acc`, until a
/// terminating newline. Fails on any other character, on running off the
/// end, and on values that would not fit in a `u64`.
pub open spec fn scan_nat(s: Seq<char>, i: int, acc: nat) -> Option<(nat, int)>
    decreases s.len() - i,
{
    if i < 0 || i >= s.len() {
        None
    } else if s[i] == '\n' {
        Some((acc, i + 1))
    } else if is_digit(s[i]) {
        if acc > (u64::MAX - digit_val(s[i])) / 10 {
            None
        } else {
            scan_nat(s, i + 1, (acc * 10 + digit_val(s[i])) as nat)
        }
    } else {
        None
    }
}

/// A number field: its decimal digits and the terminating newline.
pub open spec fn enc_nat(n: nat) -> Seq<char> {
    dec_digits(n).push('\n')
}

pub open spec fn dec_nat(s: Seq<char>, i: int) -> Option<(nat, int)> {
    scan_nat(s, i, 0)
}

proof fn lemma_digit_char_val(d: int)
    requires
        0 <= d <= 9,
    ensures
        digit_val(digit_char(d)) == d,
        is_digit(digit_char(d)),
        digit_char(d) != '\n',
{
}

proof fn lemma_dec_digits_all_digits(n: nat)
    ensures
        dec_digits(n).len() >= 1,
        forall|k: int|
            0 <= k < dec_digits(n).len() ==> is_digit(#[trigger] dec_digits(n)[k]) && dec_digits(
                n,
            )[k] != '\n',
    decreases n,
{
    if n < 10 {
        lemma_digit_char_val(n as int);
    } else {
        lemma_dec_digits_all_digits(n / 10);
        lemma_digit_char_val((n % 10) as int);
    }
}

/// Scanning the digits of `n` multiplies the accumulator by the right
/// power of ten and adds `n`.
proof fn lemma_scan_digits(s: Seq<char>, i: int, acc: nat, n: nat)
    requires
        0 <= i,
        i + dec_digits(n).len() <= s.len(),
        s.subrange(i, i + dec_digits(n).len()) == dec_digits(n),
        acc * pow10(dec_digits(n).len()) + n <= u64::MAX,
    ensures
        scan_nat(s, i, acc) == scan_nat(
            s,
            i + dec_digits(n).len(),
            (acc * pow10(dec_digits(n).len()) + n) as nat,
        ),
    decreases n,
{
    let dd = dec_digits(n);
    let l = dd.len();
    assert(s.subrange(i, i + l)[0] == s[i]);
    if n < 10 {
        lemma_digit_char_val(n as int);
        assert(s[i] == digit_char(n as int));
        let d = digit_val(s[i]);
        assert(d == n);
        assert(pow10(0) == 1);
        assert(pow10(1) == 10);
        assert(acc * 10 + d <= u64::MAX);
        // the overflow guard in scan_nat does not fire
        assert(acc * 10 <= u64::MAX - d);
        lemma_div_by_multiple(acc as int, 10);
        lemma_div_is_ordered((acc * 10) as int, u64::MAX - d, 10);
        assert(acc <= (u64::MAX - d) / 10);
        assert(scan_nat(s, i, acc) == scan_nat(s, i + 1, (acc * 10 + d) as nat));
    } else {
        let q = n / 10;
        let r = (n % 10) as int;
        assert(dd == dec_digits(q).push(digit_char(r)));
        let lq = dec_digits(q).len();
        assert(l == lq + 1);
        assert(s.subrange(i, i + lq) =~= dec_digits(q)) by {
            assert forall|k: int| 0 <= k < lq implies s.subrange(i, i + lq)[k] == dec_digits(q)[k]
            by {
                assert(s.subrange(i, i + l)[k] == dec_digits(q).push(digit_char(r))[k]);
            }
        }
        assert(pow10(l) == 10 * pow10(lq));
        assert(n == 10 * q + r) by {
            vstd::arithmetic::div_mod::lemma_fundamental_div_mod(n as int, 10);
        }
        let acc2 = (acc * pow10(lq) + q) as nat;
        assert(acc2 * 10 + r == acc * pow10(l) + n) by (nonlinear_arith)
            requires
                acc2 == acc * pow10(lq) + q,
                pow10(l) == 10 * pow10(lq),
                n == 10 * q + r,
        ;
        assert(acc * pow10(lq) + q <= u64::MAX) by (nonlinear_arith)
            requires
                acc2 * 10 + r == acc * pow10(l) + n,
                acc2 == acc * pow10(lq) + q,
                acc * pow10(l) + n <= u64::MAX,
                r >= 0,
                acc2 >= 0,
        ;
        lemma_scan_digits(s, i, acc, q);
        // one more digit step at position i + lq
        assert(s[i + lq] == digit_char(r)) by {
            assert(s.subrange(i, i + l)[lq as int] == dd[lq as int]);
        }
        lemma_digit_char_val(r);
        let d = digit_val(s[i + lq]);
        assert(d == r);
        assert(acc2 * 10 <= u64::MAX - d);
        lemma_div_by_multiple(acc2 as int, 10);
        lemma_div_is_ordered((acc2 * 10) as int, u64::MAX - d, 10);
        assert(acc2 <= (u64::MAX - d) / 10);
        assert(scan_nat(s, i + lq, acc2) == scan_nat(s, i + l, (acc2 * 10 + d) as nat));
    }
}

/// Decoding right after an encoded number field finds that number.
proof fn lemma_dec_nat_enc(s: Seq<char>, i: int, n: nat)
    requires
        0 <= i,
        n <= u64::MAX,
        i + enc_nat(n).len() <= s.len(),
        s.subrange(i, i + enc_nat(n).len()) == enc_nat(n),
    ensures
        dec_nat(s, i) == Some((n, i + enc_nat(n).len())),
{
    let dd = dec_digits(n);
    let l = dd.len();
    assert(enc_nat(n).len() == l + 1);
    assert(s.subrange(i, i + l) =~= dd) by {
        assert forall|k: int| 0 <= k < l implies s.subrange(i, i + l)[k] == dd[k] by {
            assert(s.subrange(i, i + l + 1)[k] == dd.push('\n')[k]);
        }
    }
    assert(pow10(l) >= 1) by {
        lemma_pow10_pos(l);
    }
    assert(0 * pow10(l) + n <= u64::MAX) by (nonlinear_arith)
        requires
            n <= u64::MAX,
    ;
    lemma_scan_digits(s, i, 0, n);
    assert(0 * pow10(l) + n == n) by (nonlinear_arith);
    assert(s[i + l] == '\n') by {
        assert(s.subrange(i, i + l + 1)[l as int] == dd.push('\n')[l as int]);
    }
    assert(scan_nat(s, i + l, n) == Some((n, i + l + 1)));
}

/// A number field never starts with whitespace: its first character is a
/// decimal digit.
pub proof fn lemma_enc_nat_first_digit(n: nat)
    ensures
        enc_nat(n).len() > 0,
        is_digit(enc_nat(n)[0]),
{
    lemma_dec_digits_all_digits(n);
    assert(enc_nat(n)[0] == dec_digits(n)[0]);
}

proof fn lemma_pow10_pos(k: nat)
    ensures
        pow10(k) >= 1,
    decreases k,
{
    if k > 0 {
        lemma_pow10_pos((k - 1) as nat);
    }
}

/// Splitting a subrange equation over a concatenation into its two halves.
proof fn lemma_peel(s: Seq<char>, i: int, a: Seq<char>, b: Seq<char>)
    requires
        0 <= i,
        i + a.len() + b.len() <= s.len(),
        s.subrange(i, i + a.len() + b.len()) == a + b,
    ensures
        s.subrange(i, i + a.len()) == a,
        s.subrange(i + a.len(), i + a.len() + b.len()) == b,
{
    let w = s.subrange(i, i + a.len() + b.len());
    assert(s.subrange(i, i + a.len()) =~= a) by {
        assert forall|t: int| 0 <= t < a.len() implies s.subrange(i, i + a.len())[t] == a[t] by {
            assert(w[t] == (a + b)[t]);
        }
    }
    assert(s.subrange(i + a.len(), i + a.len() + b.len()) =~= b) by {
        assert forall|t: int|
            0 <= t < b.len() implies s.subrange(i + a.len(), i + a.len() + b.len())[t] == b[t] by {
            assert(w[a.len() + t] == (a + b)[a.len() + t]);
        }
    }
}

/// A text field: its length, the text itself, and a closing newline.
pub open spec fn enc_str(t: Seq<char>) -> Seq<char> {
    enc_nat(t.len()) + (t + seq!['\n'])
}

pub open spec fn dec_str(s: Seq<char>, i: int) -> Option<(Seq<char>, int)> {
    match dec_nat(s, i) {
        Some((n, j)) => if j + n + 1 <= s.len() && s[j + n] == '\n' {
            Some((s.subrange(j, j + n), j + n + 1))
        } else {
            None
        },
        None => None,
    }
}

proof fn lemma_dec_str_enc(s: Seq<char>, i: int, t: Seq<char>)
    requires
        0 <= i,
        t.len() <= u64::MAX,
        i + enc_str(t).len() <= s.len(),
        s.subrange(i, i + enc_str(t).len()) == enc_str(t),
    ensures
        dec_str(s, i) == Some((t, i + enc_str(t).len())),
{
    let e = enc_nat(t.len());
    lemma_peel(s, i, e, t + seq!['\n']);
    lemma_dec_nat_enc(s, i, t.len());
    let j = i + e.len();
    lemma_peel(s, j, t, seq!['\n']);
    assert(s.subrange(j, j + t.len()) == t);
    assert(s[j + t.len()] == '\n') by {
        assert(s.subrange(j + t.len(), j + t.len() + 1)[0] == s[j + t.len()]);
    }
}

/// An optional text field: a marker line, then the text when present.
pub open spec fn enc_opt_str(o: Option<Seq<char>>) -> Seq<char> {
    match o {
        None => seq!['N', '\n'],
        Some(t) => seq!['S', '\n'] + enc_str(t),
    }
}

pub open spec fn dec_opt_str(s: Seq<char>, i: int) -> Option<(Option<Seq<char>>, int)> {
    if 0 <= i && i + 2 <= s.len() {
        if s[i] == 'N' && s[i + 1] == '\n' {
            Some((None, i + 2))
        } else if s[i] == 'S' && s[i + 1] == '\n' {
            match dec_str(s, i + 2) {
                Some((t, j)) => Some((Some(t), j)),
                None => None,
            }
        } else {
            None
        }
    } else {
        None
    }
}

proof fn lemma_dec_opt_str_enc(s: Seq<char>, i: int, o: Option<Seq<char>>)
    requires
        0 <= i,
        o is Some ==> o->0.len() <= u64::MAX,
        i + enc_opt_str(o).len() <= s.len(),
        s.subrange(i, i + enc_opt_str(o).len()) == enc_opt_str(o),
    ensures
        dec_opt_str(s, i) == Some((o, i + enc_opt_str(o).len())),
{
    let e = enc_opt_str(o);
    match o {
        None => {
            assert(s[i] == 'N' && s[i + 1] == '\n') by {
                assert(s.subrange(i, i + 2)[0] == s[i]);
                assert(s.subrange(i, i + 2)[1] == s[i + 1]);
            }
        },
        Some(t) => {
            lemma_peel(s, i, seq!['S', '\n'], enc_str(t));
            assert(s[i] == 'S' && s[i + 1] == '\n') by {
                assert(s.subrange(i, i + 2)[0] == s[i]);
                assert(s.subrange(i, i + 2)[1] == s[i + 1]);
            }
            lemma_dec_str_enc(s, i + 2, t);
        },
    }
}

/// A run of text fields, one after the other.
pub open spec fn enc_str_list(l: Seq<Seq<char>>) -> Seq<char>
    decreases l.len(),
{
    if l.len() == 0 {
        Seq::empty()
    } else {
        enc_str(l[0]) + enc_str_list(l.drop_first())
    }
}

pub open spec fn dec_str_list(s: Seq<char>, i: int, count: nat) -> Option<(Seq<Seq<char>>, int)>
    decreases count,
{
    if count == 0 {
        Some((Seq::empty(), i))
    } else {
        match dec_str(s, i) {
            Some((t, j)) => match dec_str_list(s, j, (count - 1) as nat) {
                Some((l, k)) => Some((seq![t] + l, k)),
                None => None,
            },
            None => None,
        }
    }
}

proof fn lemma_dec_str_list_enc(s: Seq<char>, i: int, l: Seq<Seq<char>>)
    requires
        0 <= i,
        forall|k: int| 0 <= k < l.len() ==> #[trigger] l[k].len() <= u64::MAX,
        i + enc_str_list(l).len() <= s.len(),
        s.subrange(i, i + enc_str_list(l).len()) == enc_str_list(l),
    ensures
        dec_str_list(s, i, l.len()) == Some((l, i + enc_str_list(l).len())),
    decreases l.len(),
{
    if l.len() == 0 {
        assert(dec_str_list(s, i, 0) == Some((Seq::<Seq<char>>::empty(), i)));
        assert(Seq::<Seq<char>>::empty() =~= l);
    } else {
        let h = l[0];
        let rest = l.drop_first();
        lemma_peel(s, i, enc_str(h), enc_str_list(rest));
        lemma_dec_str_enc(s, i, h);
        let j = i + enc_str(h).len();
        lemma_dec_str_list_enc(s, j, rest);
        assert(seq![h] + rest =~= l);
    }
}

/// Machine bounds under which a record can be framed and recovered:
/// every text fits a `u64` length, the tag list is bounded, the timestamp
/// is a millisecond count in `i64` range, and the token estimate fits
/// a `usize`.
pub open spec fn wf_view(c: ConvView) -> bool {
    &&& c.id.len() <= u64::MAX
    &&& c.user_message.len() <= u64::MAX
    &&& c.assistant_response.len() <= u64::MAX
    &&& (c.metadata.session_id is Some ==> c.metadata.session_id->0.len() <= u64::MAX)
    &&& (c.metadata.project_path is Some ==> c.metadata.project_path->0.len() <= u64::MAX)
    &&& (c.metadata.embedding_model is Some ==> c.metadata.embedding_model->0.len() <= u64::MAX)
    &&& c.metadata.tags.len() <= u64::MAX
    &&& (forall|k: int|
        0 <= k < c.metadata.tags.len() ==> #[trigger] c.metadata.tags[k].len() <= u64::MAX)
    &&& i64::MIN <= c.timestamp <= i64::MAX
    &&& 0 <= c.metadata.token_count <= usize::MAX
}

/// The timestamp shifted so that the whole `i64` range becomes a `u64`.
pub open spec fn ts_offset(t: int) -> nat {
    (t + 0x8000000000000000) as nat
}

/// One record: every field of the conversation, in a fixed order.
pub open spec fn enc_record(c: ConvView) -> Seq<char> {
    enc_str(c.id) + (enc_nat(ts_offset(c.timestamp)) + (enc_str(c.user_message) + (enc_str(
        c.assistant_response,
    ) + (enc_opt_str(c.metadata.session_id) + (enc_opt_str(c.metadata.project_path) + (enc_nat(
        c.metadata.tags.len(),
    ) + (enc_str_list(c.metadata.tags) + (enc_nat(c.metadata.token_count as nat) + enc_opt_str(
        c.metadata.embedding_model,
    )))))))))
}

pub open spec fn dec_record(s: Seq<char>, i: int) -> Option<(ConvView, int)> {
    match dec_str(s, i) {
        None => None,
        Some((id, i1)) => match dec_nat(s, i1) {
            None => None,
            Some((ts_off, i2)) => match dec_str(s, i2) {
                None => None,
                Some((user_message, i3)) => match dec_str(s, i3) {
                    None => None,
                    Some((assistant_response, i4)) => match dec_opt_str(s, i4) {
                        None => None,
                        Some((session_id, i5)) => match dec_opt_str(s, i5) {
                            None => None,
                            Some((project_path, i6)) => match dec_nat(s, i6) {
                                None => None,
                                Some((tag_count, i7)) => match dec_str_list(s, i7, tag_count) {
                                    None => None,
                                    Some((tags, i8)) => match dec_nat(s, i8) {
                                        None => None,
                                        Some((token_count, i9)) => match dec_opt_str(s, i9) {
                                            None => None,
                                            Some((embedding_model, i10)) => {
                                                if token_count <= usize::MAX {
                                                    Some(
                                                        (
                                                            ConvView {
                                                                id,
                                                                timestamp: ts_off
                                                                    - 0x8000000000000000,
                                                                user_message,
                                                                assistant_response,
                                                                metadata: MetaView {
                                                                    session_id,
                                                                    project_path,
                                                                    tags,
                                                                    token_count: token_count as int,
                                                                    embedding_model,
                                                                },
                                                            },
                                                            i10,
                                                        ),
                                                    )
                                                } else {
                                                    None
                                                }
                                            },
                                        },
                                    },
                                },
                            },
                        },
                    },
                },
            },
        },
    }
}

proof fn lemma_dec_record_enc(s: Seq<char>, i: int, c: ConvView)
    requires
        0 <= i,
        wf_view(c),
        i + enc_record(c).len() <= s.len(),
        s.subrange(i, i + enc_record(c).len()) == enc_record(c),
    ensures
        dec_record(s, i) == Some((c, i + enc_record(c).len())),
{
    let e1 = enc_str(c.id);
    let e2 = enc_nat(ts_offset(c.timestamp));
    let e3 = enc_str(c.user_message);
    let e4 = enc_str(c.assistant_response);
    let e5 = enc_opt_str(c.metadata.session_id);
    let e6 = enc_opt_str(c.metadata.project_path);
    let e7 = enc_nat(c.metadata.tags.len());
    let e8 = enc_str_list(c.metadata.tags);
    let e9 = enc_nat(c.metadata.token_count as nat);
    let e10 = enc_opt_str(c.metadata.embedding_model);
    let i1 = i + e1.len();
    lemma_peel(s, i, e1, e2 + (e3 + (e4 + (e5 + (e6 + (e7 + (e8 + (e9 + e10))))))));
    lemma_dec_str_enc(s, i, c.id);
    let i2 = i1 + e2.len();
    lemma_peel(s, i1, e2, e3 + (e4 + (e5 + (e6 + (e7 + (e8 + (e9 + e10)))))));
    lemma_dec_nat_enc(s, i1, ts_offset(c.timestamp));
    let i3 = i2 + e3.len();
    lemma_peel(s, i2, e3, e4 + (e5 + (e6 + (e7 + (e8 + (e9 + e10))))));
    lemma_dec_str_enc(s, i2, c.user_message);
    let i4 = i3 + e4.len();
    lemma_peel(s, i3, e4, e5 + (e6 + (e7 + (e8 + (e9 + e10)))));
    lemma_dec_str_enc(s, i3, c.assistant_response);
    let i5 = i4 + e5.len();
    lemma_peel(s, i4, e5, e6 + (e7 + (e8 + (e9 + e10))));
    lemma_dec_opt_str_enc(s, i4, c.metadata.session_id);
    let i6 = i5 + e6.len();
    lemma_peel(s, i5, e6, e7 + (e8 + (e9 + e10)));
    lemma_dec_opt_str_enc(s, i5, c.metadata.project_path);
    let i7 = i6 + e7.len();
    lemma_peel(s, i6, e7, e8 + (e9 + e10));
    lemma_dec_nat_enc(s, i6, c.metadata.tags.len());
    let i8 = i7 + e8.len();
    lemma_peel(s, i7, e8, e9 + e10);
    lemma_dec_str_list_enc(s, i7, c.metadata.tags);
    let i9 = i8 + e9.len();
    lemma_peel(s, i8, e9, e10);
    lemma_dec_nat_enc(s, i8, c.metadata.token_count as nat);
    lemma_dec_opt_str_enc(s, i9, c.metadata.embedding_model);
    assert(ts_offset(c.timestamp) - 0x8000000000000000 == c.timestamp);
}

/// A run of records, one after the other.
pub open spec fn enc_record_list(l: Seq<ConvView>) -> Seq<char>
    decreases l.len(),
{
    if l.len() == 0 {
        Seq::empty()
    } else {
        enc_record(l[0]) + enc_record_list(l.drop_first())
    }
}

pub open spec fn dec_record_list(s: Seq<char>, i: int, count: nat) -> Option<(Seq<ConvView>, int)>
    decreases count,
{
    if count == 0 {
        Some((Seq::empty(), i))
    } else {
        match dec_record(s, i) {
            Some((c, j)) => match dec_record_list(s, j, (count - 1) as nat) {
                Some((l, k)) => Some((seq![c] + l, k)),
                None => None,
            },
            None => None,
        }
    }
}

proof fn lemma_dec_record_list_enc(s: Seq<char>, i: int, l: Seq<ConvView>)
    requires
        0 <= i,
        forall|k: int| 0 <= k < l.len() ==> wf_view(#[trigger] l[k]),
        i + enc_record_list(l).len() <= s.len(),
        s.subrange(i, i + enc_record_list(l).len()) == enc_record_list(l),
    ensures
        dec_record_list(s, i, l.len()) == Some((l, i + enc_record_list(l).len())),
    decreases l.len(),
{
    if l.len() == 0 {
        assert(Seq::<ConvView>::empty() =~= l);
    } else {
        let h = l[0];
        let rest = l.drop_first();
        lemma_peel(s, i, enc_record(h), enc_record_list(rest));
        lemma_dec_record_enc(s, i, h);
        let j = i + enc_record(h).len();
        lemma_dec_record_list_enc(s, j, rest);
        assert(seq![h] + rest =~= l);
    }
}

/// The whole snapshot: a record count, then the records.
pub open spec fn spec_snapshot(l: Seq<ConvView>) -> Seq<char> {
    enc_nat(l.len()) + enc_record_list(l)
}

/// What any snapshot text decodes to, if it is well formed; the whole
/// text must be consumed.
pub open spec fn spec_decode(s: Seq<char>) -> Option<Seq<ConvView>> {
    match dec_nat(s, 0) {
        None => None,
        Some((n, i)) => match dec_record_list(s, i, n) {
            None => None,
            Some((l, j)) => if j == s.len() {
                Some(l)
            } else {
                None
            },
        },
    }
}

/// Decoding an encoded collection gives the collection back.
pub proof fn lemma_snapshot_round_trip(l: Seq<ConvView>)
    requires
        l.len() <= u64::MAX,
        forall|k: int| 0 <= k < l.len() ==> wf_view(#[trigger] l[k]),
    ensures
        spec_decode(spec_snapshot(l)) == Some(l),
{
    let s = spec_snapshot(l);
    assert(s.subrange(0, s.len() as int) =~= s);
    lemma_peel(s, 0, enc_nat(l.len()), enc_record_list(l));
    lemma_dec_nat_enc(s, 0, l.len());
    let i = enc_nat(l.len()).len() as int;
    lemma_dec_record_list_enc(s, i, l);
}

fn digit_of(d: u64) -> (c: char)
    requires
        d <= 9,
    ensures
        c == digit_char(d as int),
{
    match d {
        0 => '0',
        1 => '1',
        2 => '2',
        3 => '3',
        4 => '4',
        5 => '5',
        6 => '6',
        7 => '7',
        8 => '8',
        _ => '9',
    }
}

fn val_of_digit(c: char) -> (d: i8)
    ensures
        d as int == digit_val(c),
{
    match c {
        '0' => 0,
        '1' => 1,
        '2' => 2,
        '3' => 3,
        '4' => 4,
        '5' => 5,
        '6' => 6,
        '7' => 7,
        '8' => 8,
        '9' => 9,
        _ => -1,
    }
}

pub(crate) fn push_digits(out: &mut Vec<char>, n: u64)
    ensures
        final(out)@ == old(out)@ + dec_digits(n as nat),
    decreases n,
{
    if n < 10 {
        out.push(digit_of(n));
        proof {
            assert(old(out)@.push(digit_char(n as int)) =~= old(out)@ + dec_digits(n as nat));
        }
    } else {
        push_digits(out, n / 10);
        out.push(digit_of(n % 10));
        proof {
            assert((old(out)@ + dec_digits((n / 10) as nat)).push(
                digit_char((n % 10) as int),
            ) =~= old(out)@ + dec_digits(n as nat));
        }
    }
}

/// Appends a number field: decimal digits and a newline.
fn emit_nat(out: &mut Vec<char>, n: u64)
    ensures
        final(out)@ == old(out)@ + enc_nat(n as nat),
{
    push_digits(out, n);
    out.push('\n');
    proof {
        assert((old(out)@ + dec_digits(n as nat)).push('\n') =~= old(out)@ + enc_nat(n as nat));
    }
}

/// Reads a number field starting at `i`; mirrors `dec_nat`.
fn read_nat(s: &Vec<char>, i: usize) -> (r: Option<(u64, usize)>)
    requires
        i <= s@.len(),
    ensures
        match r {
            Some((n, j)) => dec_nat(s@, i as int) == Some((n as nat, j as int)) && i < j <= s@.len(),
            None => dec_nat(s@, i as int) is None,
        },
{
    let len = s.len();
    let mut p: usize = i;
    let mut acc: u64 = 0;
    loop
        invariant
            i <= p <= len,
            len == s@.len(),
            scan_nat(s@, i as int, 0) == scan_nat(s@, p as int, acc as nat),
        decreases len - p,
    {
        if p >= len {
            return None;
        }
        let c = s[p];
        if c == '\n' {
            return Some((acc, p + 1));
        }
        let d = val_of_digit(c);
        if d < 0 {
            return None;
        }
        let dv = d as u64;
        if acc > (u64::MAX - dv) / 10 {
            return None;
        }
        proof {
            lemma_div_by_multiple(((u64::MAX - dv) / 10) as int, 10);
            lemma_div_is_ordered(acc as int, ((u64::MAX - dv) / 10) as int, 1);
            assert(acc * 10 + dv <= u64::MAX) by (nonlinear_arith)
                requires
                    acc <= (u64::MAX - dv) / 10,
                    ((u64::MAX - dv) / 10) * 10 <= u64::MAX - dv,
                    dv <= 9,
            ;
        }
        acc = acc * 10 + dv;
        p = p + 1;
    }
}

proof fn seq_assoc(a: Seq<char>, b: Seq<char>, c: Seq<char>)
    ensures
        (a + b) + c == a + (b + c),
{
    assert((a + b) + c =~= a + (b + c));
}

proof fn lemma_enc_str_list_push(l: Seq<Seq<char>>, t: Seq<char>)
    ensures
        enc_str_list(l.push(t)) == enc_str_list(l) + enc_str(t),
    decreases l.len(),
{
    if l.len() == 0 {
        assert(l.push(t)[0] == t);
        assert(l.push(t).drop_first() =~= l);
        assert(enc_str_list(l.push(t)) == enc_str(t) + enc_str_list(l));
        assert(enc_str(t) + Seq::<char>::empty() =~= Seq::<char>::empty() + enc_str(t));
    } else {
        assert(l.push(t).drop_first() =~= l.drop_first().push(t));
        lemma_enc_str_list_push(l.drop_first(), t);
        assert(l.push(t)[0] == l[0]);
        assert(enc_str(l[0]) + (enc_str_list(l.drop_first()) + enc_str(t)) =~= (enc_str(l[0])
            + enc_str_list(l.drop_first())) + enc_str(t));
    }
}

proof fn lemma_enc_record_list_push(l: Seq<ConvView>, c: ConvView)
    ensures
        enc_record_list(l.push(c)) == enc_record_list(l) + enc_record(c),
    decreases l.len(),
{
    if l.len() == 0 {
        assert(l.push(c)[0] == c);
        assert(l.push(c).drop_first() =~= l);
        assert(enc_record_list(l.push(c)) == enc_record(c) + enc_record_list(l));
        assert(enc_record(c) + Seq::<char>::empty() =~= Seq::<char>::empty() + enc_record(c));
    } else {
        assert(l.push(c).drop_first() =~= l.drop_first().push(c));
        lemma_enc_record_list_push(l.drop_first(), c);
        assert(l.push(c)[0] == l[0]);
        assert(enc_record(l[0]) + (enc_record_list(l.drop_first()) + enc_record(c)) =~= (enc_record(
            l[0],
        ) + enc_record_list(l.drop_first())) + enc_record(c));
    }
}

/// Appends a text field.
fn emit_str(out: &mut Vec<char>, t: &str)
    ensures
        final(out)@ == old(out)@ + enc_str(t@),
{
    let mut cs = str_chars(t);
    let n = cs.len();
    emit_nat(out, n as u64);
    out.append(&mut cs);
    out.push('\n');
    proof {
        assert(((old(out)@ + enc_nat(t@.len())) + t@).push('\n') =~= old(out)@ + enc_str(t@));
    }
}

/// Appends an optional text field.
fn emit_opt_str(out: &mut Vec<char>, o: &Option<String>)
    ensures
        final(out)@ == old(out)@ + enc_opt_str(o.deep_view()),
{
    match o {
        None => {
            out.push('N');
            out.push('\n');
            proof {
                assert(old(out)@.push('N').push('\n') =~= old(out)@ + enc_opt_str(o.deep_view()));
            }
        },
        Some(t) => {
            out.push('S');
            out.push('\n');
            emit_str(out, t.as_str());
            proof {
                assert((old(out)@.push('S').push('\n')) + enc_str(t@) =~= old(out)@ + enc_opt_str(
                    o.deep_view(),
                ));
            }
        },
    }
}

/// Appends a tag list: its count, then each tag as a text field.
fn emit_tags(out: &mut Vec<char>, tags: &Vec<String>)
    ensures
        final(out)@ == old(out)@ + (enc_nat(tags.deep_view().len()) + enc_str_list(
            tags.deep_view(),
        )),
{
    let n = tags.len();
    emit_nat(out, n as u64);
    let ghost dv = tags.deep_view();
    let ghost base = old(out)@ + enc_nat(dv.len());
    proof {
        assert(enc_str_list(dv.take(0)) =~= Seq::<char>::empty());
        assert(base + Seq::<char>::empty() =~= base);
    }
    let mut i: usize = 0;
    while i < n
        invariant
            i <= n,
            n == tags@.len(),
            dv == tags.deep_view(),
            base == old(out)@ + enc_nat(dv.len()),
            out@ == base + enc_str_list(dv.take(i as int)),
        decreases n - i,
    {
        emit_str(out, tags[i].as_str());
        proof {
            lemma_enc_str_list_push(dv.take(i as int), dv[i as int]);
            assert(dv.take(i as int).push(dv[i as int]) =~= dv.take(i + 1 as int));
            assert((base + enc_str_list(dv.take(i as int))) + enc_str(dv[i as int]) =~= base + (
            enc_str_list(dv.take(i as int)) + enc_str(dv[i as int])));
        }
        i = i + 1;
    }
    proof {
        assert(dv.take(dv.len() as int) =~= dv);
        assert(base + enc_str_list(dv) =~= old(out)@ + (enc_nat(dv.len()) + enc_str_list(dv)));
    }
}

/// Appends one whole record.
fn emit_record(out: &mut Vec<char>, c: &Conversation)
    ensures
        final(out)@ == old(out)@ + enc_record(c@),
{
    let ghost v = c@;
    emit_str(out, c.id.as_str());
    let off: u64 = ((c.timestamp as i128) + 9223372036854775808i128) as u64;
    proof {
        assert(off as nat == ts_offset(v.timestamp));
    }
    emit_nat(out, off);
    emit_str(out, c.user_message.as_str());
    emit_str(out, c.assistant_response.as_str());
    emit_opt_str(out, &c.metadata.session_id);
    emit_opt_str(out, &c.metadata.project_path);
    emit_tags(out, &c.metadata.tags);
    emit_nat(out, c.metadata.token_count as u64);
    emit_opt_str(out, &c.metadata.embedding_model);
    proof {
        let e1 = enc_str(v.id);
        let e2 = enc_nat(ts_offset(v.timestamp));
        let e3 = enc_str(v.user_message);
        let e4 = enc_str(v.assistant_response);
        let e5 = enc_opt_str(v.metadata.session_id);
        let e6 = enc_opt_str(v.metadata.project_path);
        let e7 = enc_nat(v.metadata.tags.len());
        let e8 = enc_str_list(v.metadata.tags);
        let e9 = enc_nat(v.metadata.token_count as nat);
        let e10 = enc_opt_str(v.metadata.embedding_model);
        let o = old(out)@;
        let x1 = o + e1;
        let x2 = x1 + e2;
        let x3 = x2 + e3;
        let x4 = x3 + e4;
        let x5 = x4 + e5;
        let x6 = x5 + e6;
        let x78 = x6 + (e7 + e8);
        let x9 = x78 + e9;
        assert(out@ == x9 + e10);
        let r9 = e9 + e10;
        seq_assoc(x78, e9, e10);
        seq_assoc(x6, e7 + e8, r9);
        seq_assoc(e7, e8, r9);
        let r7 = e7 + (e8 + r9);
        seq_assoc(x5, e6, r7);
        let r6 = e6 + r7;
        seq_assoc(x4, e5, r6);
        let r5 = e5 + r6;
        seq_assoc(x3, e4, r5);
        let r4 = e4 + r5;
        seq_assoc(x2, e3, r4);
        let r3 = e3 + r4;
        seq_assoc(x1, e2, r3);
        let r2 = e2 + r3;
        seq_assoc(o, e1, r2);
        assert(out@ == o + (e1 + r2));
    }
}

/// The snapshot document for the given records, as defined by
/// `spec_snapshot`.
pub fn encode_snapshot(convs: &Vec<Conversation>) -> (r: String)
    ensures
        r@ == spec_snapshot(convs.deep_view()),
{
    let ghost dv = convs.deep_view();
    let mut out: Vec<char> = Vec::new();
    let n = convs.len();
    emit_nat(&mut out, n as u64);
    let ghost base = enc_nat(dv.len());
    proof {
        assert(Seq::<char>::empty() + base =~= base);
        assert(enc_record_list(dv.take(0)) =~= Seq::<char>::empty());
        assert(base + Seq::<char>::empty() =~= base);
    }
    let mut i: usize = 0;
    while i < n
        invariant
            i <= n,
            n == convs@.len(),
            dv == convs.deep_view(),
            base == enc_nat(dv.len()),
            out@ == base + enc_record_list(dv.take(i as int)),
        decreases n - i,
    {
        let c = &convs[i];
        emit_record(&mut out, c);
        proof {
            lemma_enc_record_list_push(dv.take(i as int), dv[i as int]);
            assert(dv.take(i as int).push(dv[i as int]) =~= dv.take(i + 1 as int));
            assert((base + enc_record_list(dv.take(i as int))) + enc_record(dv[i as int]) =~= base
                + (enc_record_list(dv.take(i as int)) + enc_record(dv[i as int])));
        }
        i = i + 1;
    }
    proof {
        assert(dv.take(dv.len() as int) =~= dv);
    }
    chars_string(&out)
}

fn copy_range(s: &Vec<char>, from: usize, to: usize) -> (r: Vec<char>)
    requires
        from <= to <= s@.len(),
    ensures
        r@ == s@.subrange(from as int, to as int),
{
    let mut r: Vec<char> = Vec::new();
    let mut i: usize = from;
    while i < to
        invariant
            from <= i <= to <= s@.len(),
            r@ == s@.subrange(from as int, i as int),
        decreases to - i,
    {
        r.push(s[i]);
        proof {
            assert(s@.subrange(from as int, i + 1 as int) =~= s@.subrange(
                from as int,
                i as int,
            ).push(s@[i as int]));
        }
        i = i + 1;
    }
    r
}

/// Reads a text field; mirrors `dec_str`.
fn read_str(s: &Vec<char>, i: usize) -> (r: Option<(String, usize)>)
    requires
        i <= s@.len(),
    ensures
        match r {
            Some((t, j)) => dec_str(s@, i as int) == Some((t@, j as int)) && i < j <= s@.len(),
            None => dec_str(s@, i as int) is None,
        },
{
    match read_nat(s, i) {
        None => None,
        Some((n, j)) => {
            let rem = s.len() - j;
            if rem == 0 {
                return None;
            }
            if n > (rem - 1) as u64 {
                return None;
            }
            let n_us = n as usize;
            if s[j + n_us] != '\n' {
                return None;
            }
            let body = copy_range(s, j, j + n_us);
            let st = chars_string(&body);
            Some((st, j + n_us + 1))
        },
    }
}

/// Reads an optional text field; mirrors `dec_opt_str`.
fn read_opt_str(s: &Vec<char>, i: usize) -> (r: Option<(Option<String>, usize)>)
    requires
        i <= s@.len(),
    ensures
        match r {
            Some((o, j)) => dec_opt_str(s@, i as int) == Some((o.deep_view(), j as int)) && i < j
                <= s@.len(),
            None => dec_opt_str(s@, i as int) is None,
        },
{
    if s.len() - i < 2 {
        return None;
    }
    let c0 = s[i];
    let c1 = s[i + 1];
    if c0 == 'N' && c1 == '\n' {
        let o: Option<String> = None;
        Some((o, i + 2))
    } else if c0 == 'S' && c1 == '\n' {
        match read_str(s, i + 2) {
            Some((t, j)) => Some((Some(t), j)),
            None => None,
        }
    } else {
        None
    }
}

/// Reads `count` text fields; mirrors `dec_str_list`.
fn read_tags(s: &Vec<char>, i: usize, count: u64) -> (r: Option<(Vec<String>, usize)>)
    requires
        i <= s@.len(),
    ensures
        match r {
            Some((v, j)) => dec_str_list(s@, i as int, count as nat) == Some(
                (v.deep_view(), j as int),
            ) && i <= j <= s@.len(),
            None => dec_str_list(s@, i as int, count as nat) is None,
        },
{
    let mut acc: Vec<String> = Vec::new();
    let mut p: usize = i;
    let mut k: u64 = 0;
    while k < count
        invariant
            k <= count,
            i <= p <= s@.len(),
            forall|l2: Seq<Seq<char>>, j2: int|
                dec_str_list(s@, p as int, (count - k) as nat) == Some((l2, j2)) ==> dec_str_list(
                    s@,
                    i as int,
                    count as nat,
                ) == Some((acc.deep_view() + l2, j2)),
            dec_str_list(s@, p as int, (count - k) as nat) is None ==> dec_str_list(
                s@,
                i as int,
                count as nat,
            ) is None,
        decreases count - k,
    {
        let ghost pre_acc = acc.deep_view();
        match read_str(s, p) {
            None => {
                return None;
            },
            Some((t, p2)) => {
                acc.push(t);
                proof {
                    assert forall|l2: Seq<Seq<char>>, j2: int|
                        dec_str_list(s@, p2 as int, (count - k - 1) as nat) == Some(
                            (l2, j2),
                        ) implies dec_str_list(s@, i as int, count as nat) == Some(
                        (acc.deep_view() + l2, j2),
                    ) by {
                        assert(dec_str_list(s@, p as int, (count - k) as nat) == Some(
                            (seq![t@] + l2, j2),
                        ));
                        assert(pre_acc + (seq![t@] + l2) =~= (pre_acc.push(t@)) + l2);
                        assert(acc.deep_view() =~= pre_acc.push(t@));
                    }
                }
                p = p2;
                k = k + 1;
            },
        }
    }
    proof {
        assert(dec_str_list(s@, p as int, 0) == Some((Seq::<Seq<char>>::empty(), p as int)));
        assert(acc.deep_view() + Seq::<Seq<char>>::empty() =~= acc.deep_view());
    }
    Some((acc, p))
}

/// Reads one record; mirrors `dec_record`.
fn read_record(s: &Vec<char>, i: usize) -> (r: Option<(Conversation, usize)>)
    requires
        i <= s@.len(),
    ensures
        match r {
            Some((c, j)) => dec_record(s@, i as int) == Some((c@, j as int)) && i <= j <= s@.len(),
            None => dec_record(s@, i as int) is None,
        },
{
    let id = match read_str(s, i) {
        Some(x) => x,
        None => {
            return None;
        },
    };
    let ts = match read_nat(s, id.1) {
        Some(x) => x,
        None => {
            return None;
        },
    };
    let user_message = match read_str(s, ts.1) {
        Some(x) => x,
        None => {
            return None;
        },
    };
    let assistant_response = match read_str(s, user_message.1) {
        Some(x) => x,
        None => {
            return None;
        },
    };
    let session_id = match read_opt_str(s, assistant_response.1) {
        Some(x) => x,
        None => {
            return None;
        },
    };
    let project_path = match read_opt_str(s, session_id.1) {
        Some(x) => x,
        None => {
            return None;
        },
    };
    let tag_count = match read_nat(s, project_path.1) {
        Some(x) => x,
        None => {
            return None;
        },
    };
    let tags = match read_tags(s, tag_count.1, tag_count.0) {
        Some(x) => x,
        None => {
            return None;
        },
    };
    let token_count = match read_nat(s, tags.1) {
        Some(x) => x,
        None => {
            return None;
        },
    };
    let embedding_model = match read_opt_str(s, token_count.1) {
        Some(x) => x,
        None => {
            return None;
        },
    };
    if token_count.0 > usize::MAX as u64 {
        return None;
    }
    let timestamp: i64 = ((ts.0 as i128) - 9223372036854775808i128) as i64;
    proof {
        assert(timestamp as int == ts.0 - 0x8000000000000000);
    }
    let conv = Conversation {
        id: id.0,
        timestamp,
        user_message: user_message.0,
        assistant_response: assistant_response.0,
        metadata: ConversationMetadata {
            session_id: session_id.0,
            project_path: project_path.0,
            tags: tags.0,
            token_count: token_count.0 as usize,
            embedding_model: embedding_model.0,
        },
    };
    Some((conv, embedding_model.1))
}

/// Reads `count` records; mirrors `dec_record_list`.
fn read_records(s: &Vec<char>, i: usize, count: u64) -> (r: Option<(Vec<Conversation>, usize)>)
    requires
        i <= s@.len(),
    ensures
        match r {
            Some((v, j)) => dec_record_list(s@, i as int, count as nat) == Some(
                (v.deep_view(), j as int),
            ) && i <= j <= s@.len(),
            None => dec_record_list(s@, i as int, count as nat) is None,
        },
{
    let mut acc: Vec<Conversation> = Vec::new();
    let mut p: usize = i;
    let mut k: u64 = 0;
    while k < count
        invariant
            k <= count,
            i <= p <= s@.len(),
            forall|l2: Seq<ConvView>, j2: int|
                dec_record_list(s@, p as int, (count - k) as nat) == Some((l2, j2))
                    ==> dec_record_list(s@, i as int, count as nat) == Some(
                    (acc.deep_view() + l2, j2),
                ),
            dec_record_list(s@, p as int, (count - k) as nat) is None ==> dec_record_list(
                s@,
                i as int,
                count as nat,
            ) is None,
        decreases count - k,
    {
        let ghost pre_acc = acc.deep_view();
        match read_record(s, p) {
            None => {
                return None;
            },
            Some((c, p2)) => {
                let ghost cv = c@;
                acc.push(c);
                proof {
                    assert forall|l2: Seq<ConvView>, j2: int|
                        dec_record_list(s@, p2 as int, (count - k - 1) as nat) == Some(
                            (l2, j2),
                        ) implies dec_record_list(s@, i as int, count as nat) == Some(
                        (acc.deep_view() + l2, j2),
                    ) by {
                        assert(dec_record_list(s@, p as int, (count - k) as nat) == Some(
                            (seq![cv] + l2, j2),
                        ));
                        assert(pre_acc + (seq![cv] + l2) =~= (pre_acc.push(cv)) + l2);
                        assert(acc.deep_view() =~= pre_acc.push(cv));
                    }
                }
                p = p2;
                k = k + 1;
            },
        }
    }
    proof {
        assert(dec_record_list(s@, p as int, 0) == Some((Seq::<ConvView>::empty(), p as int)));
        assert(acc.deep_view() + Seq::<ConvView>::empty() =~= acc.deep_view());
    }
    Some((acc, p))
}

/// Decodes a snapshot document, as defined by `spec_decode`; a document
/// that does not decode is reported as corruption.
pub fn decode_snapshot(text: &str) -> (r: Result<Vec<Conversation>, StoreError>)
    ensures
        match spec_decode(text@) {
            Some(l) => r is Ok && r->Ok_0.deep_view() == l,
            None => r is Err && r->Err_0 == StoreError::CorruptSnapshot,
        },
{
    let s = str_chars(text);
    match read_nat(&s, 0) {
        None => Err(StoreError::CorruptSnapshot),
        Some((n, i)) => match read_records(&s, i, n) {
            None => Err(StoreError::CorruptSnapshot),
            Some((v, j)) => {
                if j == s.len() {
                    Ok(v)
                } else {
                    Err(StoreError::CorruptSnapshot)
                }
            },
        },
    }
}

} // verus!
