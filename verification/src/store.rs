//! The conversation store: an in-memory collection keyed by conversation
//! id, together with its persisted snapshot document.
//!
//! The store itself owns no file handle: a caller brings the snapshot text
//! when opening the store and writes [`Memory::snapshot`] back out after a
//! mutation. Inside one process the caller is expected to guard the store
//! with a lock and to take the snapshot text inside the critical section,
//! so that the disk write happens outside it.
use crate::codec::decode_snapshot;
use crate::codec::encode_snapshot;
use crate::codec::lemma_snapshot_round_trip;
use crate::codec::spec_decode;
use crate::codec::spec_snapshot;
use crate::codec::wf_view;
use crate::text::trim_spec;
use crate::text::is_space_char;
use crate::text::str_chars;
use crate::text::trim_chars;
use crate::types::Conversation;
use crate::types::ConvView;
use crate::types::StoreError;
use vstd::prelude::*;

verus! {

/// First position holding a record with this id, if any.
pub open spec fn find_by_id(s: Seq<ConvView>, id: Seq<char>) -> Option<int>
    decreases s.len(),
{
    if s.len() == 0 {
        None
    } else if s[0].id == id {
        Some(0)
    } else {
        match find_by_id(s.drop_first(), id) {
            Some(i) => Some(i + 1),
            None => None,
        }
    }
}

pub open spec fn has_id(s: Seq<ConvView>, id: Seq<char>) -> bool {
    find_by_id(s, id) is Some
}

/// No two records share an id.
pub open spec fn ids_unique(s: Seq<ConvView>) -> bool {
    forall|i: int, j: int| 0 <= i < j < s.len() ==> s[i].id != s[j].id
}

/// Inserting replaces the record with the same id, or appends.
pub open spec fn insert_spec(s: Seq<ConvView>, c: ConvView) -> Seq<ConvView> {
    match find_by_id(s, c.id) {
        Some(i) => s.update(i, c),
        None => s.push(c),
    }
}

/// The store contents after inserting every record of `l` in order.
pub open spec fn store_all(acc: Seq<ConvView>, l: Seq<ConvView>) -> Seq<ConvView>
    decreases l.len(),
{
    if l.len() == 0 {
        acc
    } else {
        store_all(insert_spec(acc, l[0]), l.drop_first())
    }
}

proof fn lemma_find_by_id_props(s: Seq<ConvView>, id: Seq<char>)
    ensures
        match find_by_id(s, id) {
            Some(i) => 0 <= i < s.len() && s[i].id == id && forall|j: int|
                0 <= j < i ==> s[j].id != id,
            None => forall|j: int| 0 <= j < s.len() ==> s[j].id != id,
        },
    decreases s.len(),
{
    if s.len() == 0 {
    } else if s[0].id == id {
    } else {
        let rest = s.drop_first();
        lemma_find_by_id_props(rest, id);
        match find_by_id(rest, id) {
            Some(i2) => {
                assert(s[i2 + 1].id == id) by {
                    assert(rest[i2] == s[i2 + 1]);
                }
                assert forall|j: int| 0 <= j < i2 + 1 implies s[j].id != id by {
                    if j > 0 {
                        assert(rest[j - 1] == s[j]);
                    }
                }
            },
            None => {
                assert forall|j: int| 0 <= j < s.len() implies s[j].id != id by {
                    if j > 0 {
                        assert(rest[j - 1] == s[j]);
                    }
                }
            },
        }
    }
}

proof fn lemma_insert_keeps_unique(s: Seq<ConvView>, c: ConvView)
    requires
        ids_unique(s),
    ensures
        ids_unique(insert_spec(s, c)),
{
    lemma_find_by_id_props(s, c.id);
    match find_by_id(s, c.id) {
        Some(i) => {
            let t = s.update(i, c);
            assert forall|x: int, y: int| 0 <= x < y < t.len() implies t[x].id != t[y].id by {
                if x != i && y != i {
                    assert(t[x] == s[x] && t[y] == s[y]);
                }
            }
        },
        None => {
            let t = s.push(c);
            assert forall|x: int, y: int| 0 <= x < y < t.len() implies t[x].id != t[y].id by {
                if y == s.len() as int {
                    assert(t[y] == c);
                    assert(t[x] == s[x]);
                } else {
                    assert(t[x] == s[x] && t[y] == s[y]);
                }
            }
        },
    }
}

/// Inserting records whose ids are fresh and mutually distinct appends
/// them in order.
pub proof fn lemma_store_all_unique(acc: Seq<ConvView>, l: Seq<ConvView>)
    requires
        ids_unique(acc + l),
    ensures
        store_all(acc, l) == acc + l,
    decreases l.len(),
{
    if l.len() == 0 {
        assert(acc + l =~= acc);
    } else {
        let c = l[0];
        lemma_find_by_id_props(acc, c.id);
        assert(forall|j: int| 0 <= j < acc.len() ==> (acc + l)[j] == acc[j]);
        assert((acc + l)[acc.len() as int] == c);
        if find_by_id(acc, c.id) is Some {
            let i = find_by_id(acc, c.id)->Some_0;
            assert((acc + l)[i].id == (acc + l)[acc.len() as int].id);
            assert(false);
        }
        assert(insert_spec(acc, c) == acc.push(c));
        assert(acc.push(c) + l.drop_first() =~= acc + l);
        lemma_store_all_unique(acc.push(c), l.drop_first());
        assert(store_all(acc, l) == store_all(acc.push(c), l.drop_first()));
    }
}

/// An in-process collection of conversations, keyed by id, with a
/// persisted snapshot document.
pub struct Memory {
    conversations: Vec<Conversation>,
}

impl View for Memory {
    type V = Seq<ConvView>;

    closed spec fn view(&self) -> Seq<ConvView> {
        self.conversations.deep_view()
    }
}

impl Memory {
    /// The store invariant: ids are unique for the store's lifetime.
    pub open spec fn inv(&self) -> bool {
        ids_unique(self@)
    }

    /// Opens a store from its persisted snapshot document.
    ///
    /// A missing document or one holding only whitespace means an empty
    /// store; any other text that is not a well-formed snapshot is
    /// corruption and is surfaced rather than silently discarded. Records
    /// are entered in document order, a later duplicate id replacing the
    /// earlier record.
    pub fn new(snapshot: Option<&str>) -> (r: Result<Memory, StoreError>)
        ensures
            match snapshot {
                None => r is Ok && r->Ok_0@ == Seq::<ConvView>::empty(),
                Some(text) => {
                    if trim_spec(text@).len() == 0 {
                        r is Ok && r->Ok_0@ == Seq::<ConvView>::empty()
                    } else {
                        match spec_decode(text@) {
                            Some(l) => r is Ok && r->Ok_0@ == store_all(
                                Seq::<ConvView>::empty(),
                                l,
                            ),
                            None => r is Err && r->Err_0 == StoreError::CorruptSnapshot,
                        }
                    }
                },
            },
            r is Ok ==> r->Ok_0.inv(),
    {
        let text = match snapshot {
            None => {
                let m = Memory { conversations: Vec::new() };
                proof {
                    assert(m@ =~= Seq::<ConvView>::empty());
                }
                return Ok(m);
            },
            Some(text) => text,
        };
        let cs = str_chars(text);
        let trimmed = trim_chars(&cs);
        if trimmed.len() == 0 {
            let m = Memory { conversations: Vec::new() };
            proof {
                assert(m@ =~= Seq::<ConvView>::empty());
            }
            return Ok(m);
        }
        let records = match decode_snapshot(text) {
            Ok(records) => records,
            Err(e) => {
                return Err(e);
            },
        };
        let mut m = Memory { conversations: Vec::new() };
        proof {
            assert(m@ =~= Seq::<ConvView>::empty());
        }
        let ghost l = records.deep_view();
        let mut i: usize = 0;
        while i < records.len()
            invariant
                i <= records.len(),
                l == records.deep_view(),
                m@ == store_all(Seq::<ConvView>::empty(), l.take(i as int)),
                m.inv(),
            decreases records.len() - i,
        {
            let c = &records[i];
            m.store_conversation(c);
            proof {
                lemma_store_all_step(Seq::<ConvView>::empty(), l, i as int);
            }
            i = i + 1;
        }
        proof {
            assert(l.take(l.len() as int) =~= l);
        }
        Ok(m)
    }

    /// Adds or replaces by id.
    pub fn store_conversation(&mut self, conversation: &Conversation)
        requires
            old(self).inv(),
        ensures
            final(self).inv(),
            final(self)@ == insert_spec(old(self)@, conversation@),
    {
        let ghost s = self@;
        let n = self.conversations.len();
        let mut i: usize = 0;
        while i < n
            invariant
                i <= n,
                n == self.conversations@.len(),
                s == self.conversations.deep_view(),
                forall|j: int| 0 <= j < i ==> s[j].id != conversation@.id,
            decreases n - i,
        {
            if string_eq(&self.conversations[i].id, &conversation.id) {
                proof {
                    assert(s[i as int] == self.conversations@[i as int].deep_view());
                    assert(s[i as int].id == conversation@.id);
                }
                let ghost vecs = self.conversations@;
                let replacement = conversation.duplicate();
                let ghost rv = replacement@;
                self.conversations.remove(i);
                self.conversations.insert(i, replacement);
                proof {
                    assert(self.conversations@ =~= vecs.update(i as int, replacement));
                    lemma_find_by_id_props(s, conversation@.id);
                    match find_by_id(s, conversation@.id) {
                        Some(k) => {
                            if k < i {
                                assert(s[k].id == conversation@.id);
                            } else if k > i {
                                assert(s[i as int].id != conversation@.id);
                            }
                            assert(k == i);
                        },
                        None => {
                            assert(s[i as int].id != conversation@.id);
                            assert(false);
                        },
                    }
                    assert forall|j: int|
                        0 <= j < s.len() implies self.conversations.deep_view()[j] == s.update(
                        i as int,
                        conversation@,
                    )[j] by {
                        if j == i {
                            assert(self.conversations@[j] == replacement);
                        } else {
                            assert(self.conversations@[j] == vecs[j]);
                            assert(s[j] == vecs[j].deep_view());
                        }
                    }
                    assert(self.conversations.deep_view() =~= s.update(i as int, conversation@));
                    lemma_insert_keeps_unique(s, conversation@);
                }
                return ;
            }
            i = i + 1;
        }
        self.conversations.push(conversation.duplicate());
        proof {
            lemma_find_by_id_props(s, conversation@.id);
            if find_by_id(s, conversation@.id) is Some {
                let k = find_by_id(s, conversation@.id)->Some_0;
                assert(s[k].id == conversation@.id);
                assert(false);
            }
            assert(self.conversations.deep_view() =~= s.push(conversation@));
            lemma_insert_keeps_unique(s, conversation@);
        }
    }

    /// The record stored under this id, if any.
    pub fn get_conversation(&self, id: &str) -> (r: Option<Conversation>)
        ensures
            match find_by_id(self@, id@) {
                Some(i) => r is Some && r->0@ == self@[i],
                None => r is None,
            },
    {
        let ghost s = self@;
        proof {
            lemma_find_by_id_props(s, id@);
        }
        let n = self.conversations.len();
        let mut i: usize = 0;
        while i < n
            invariant
                i <= n,
                n == self.conversations@.len(),
                s == self.conversations.deep_view(),
                forall|j: int| 0 <= j < i ==> s[j].id != id@,
                match find_by_id(s, id@) {
                    Some(k) => 0 <= k < s.len() && s[k].id == id@ && forall|j: int|
                        0 <= j < k ==> s[j].id != id@,
                    None => forall|j: int| 0 <= j < s.len() ==> s[j].id != id@,
                },
            decreases n - i,
        {
            if str_eq_string(id, &self.conversations[i].id) {
                proof {
                    assert(s[i as int] == self.conversations@[i as int].deep_view());
                    assert(s[i as int].id == id@);
                    match find_by_id(s, id@) {
                        Some(k) => {
                            if k < i {
                                assert(s[k].id != id@);
                            } else if k > i {
                                assert(s[i as int].id != id@);
                            }
                            assert(k == i);
                        },
                        None => {
                            assert(false);
                        },
                    }
                }
                return Some(self.conversations[i].duplicate());
            }
            i = i + 1;
        }
        None
    }

    /// Every stored record, in store order.
    pub fn all_conversations(&self) -> (r: Vec<Conversation>)
        ensures
            r.deep_view() == self@,
    {
        let mut r: Vec<Conversation> = Vec::new();
        let n = self.conversations.len();
        let mut i: usize = 0;
        while i < n
            invariant
                i <= n,
                n == self.conversations@.len(),
                r.deep_view() == self.conversations.deep_view().subrange(0, i as int),
            decreases n - i,
        {
            r.push(self.conversations[i].duplicate());
            proof {
                assert(r.deep_view() =~= self.conversations.deep_view().subrange(
                    0,
                    i + 1 as int,
                ));
            }
            i = i + 1;
        }
        proof {
            assert(self.conversations.deep_view().subrange(
                0,
                self.conversations.deep_view().len() as int,
            ) =~= self.conversations.deep_view());
        }
        r
    }

    /// How many records are stored.
    pub fn conversation_count(&self) -> (r: usize)
        ensures
            r == self@.len(),
    {
        self.conversations.len()
    }

    /// Empties the collection. Clearing twice is the same as clearing
    /// once, and clearing cannot fail.
    pub fn clear(&mut self)
        ensures
            final(self)@ == Seq::<ConvView>::empty(),
            final(self).inv(),
    {
        self.conversations.clear();
        proof {
            assert(self.conversations.deep_view() =~= Seq::<ConvView>::empty());
        }
    }

    /// The snapshot document holding the whole current collection.
    pub fn snapshot(&self) -> (r: String)
        ensures
            r@ == spec_snapshot(self@),
    {
        encode_snapshot(&self.conversations)
    }
}

proof fn lemma_store_all_step(acc: Seq<ConvView>, l: Seq<ConvView>, i: int)
    requires
        0 <= i < l.len(),
    ensures
        store_all(acc, l.take(i + 1)) == insert_spec(store_all(acc, l.take(i)), l[i]),
    decreases i,
{
    if i == 0 {
        assert(l.take(0) =~= Seq::<ConvView>::empty());
        assert(l.take(1) =~= seq![l[0]]);
        assert(l.take(1).drop_first() =~= Seq::<ConvView>::empty());
        assert(store_all(acc, l.take(0)) == acc);
        assert(store_all(acc, l.take(1)) == store_all(
            insert_spec(acc, l.take(1)[0]),
            l.take(1).drop_first(),
        ));
        assert(l.take(1)[0] == l[0]);
    } else {
        assert(l.take(i + 1)[0] == l[0]);
        assert(l.take(i)[0] == l[0]);
        assert(l.take(i + 1).drop_first() =~= l.drop_first().take(i));
        assert(l.take(i).drop_first() =~= l.drop_first().take(i - 1));
        assert(store_all(acc, l.take(i + 1)) == store_all(
            insert_spec(acc, l[0]),
            l.drop_first().take(i),
        ));
        assert(store_all(acc, l.take(i)) == store_all(
            insert_spec(acc, l[0]),
            l.drop_first().take(i - 1),
        ));
        lemma_store_all_step(insert_spec(acc, l[0]), l.drop_first(), i - 1);
        assert(l.drop_first()[i - 1] == l[i]);
    }
}

fn string_eq(a: &String, b: &String) -> (r: bool)
    ensures
        r == (a@ == b@),
{
    crate::text::eq_chars(&str_chars(a.as_str()), &str_chars(b.as_str()))
}

fn str_eq_string(a: &str, b: &String) -> (r: bool)
    ensures
        r == (a@ == b@),
{
    crate::text::eq_chars(&str_chars(a), &str_chars(b.as_str()))
}

/// Round trip: the snapshot of a store decodes to exactly the records it
/// held, and reloading enters them unchanged, so a store persisted and
/// reopened holds the identical records.
pub proof fn lemma_store_round_trip(s: Seq<ConvView>)
    requires
        ids_unique(s),
        s.len() <= u64::MAX,
        forall|k: int| 0 <= k < s.len() ==> wf_view(#[trigger] s[k]),
    ensures
        spec_decode(spec_snapshot(s)) == Some(s),
        store_all(Seq::<ConvView>::empty(), s) == s,
        trim_spec(spec_snapshot(s)).len() > 0,
{
    lemma_snapshot_round_trip(s);
    assert(Seq::<ConvView>::empty() + s =~= s);
    lemma_store_all_unique(Seq::<ConvView>::empty(), s);
    lemma_snapshot_starts_nonspace(s);
}

proof fn lemma_snapshot_starts_nonspace(s: Seq<ConvView>)
    ensures
        spec_snapshot(s).len() > 0,
        trim_spec(spec_snapshot(s)).len() > 0,
{
    let t = spec_snapshot(s);
    crate::codec::lemma_enc_nat_first_digit(s.len());
    assert(t[0] == crate::codec::enc_nat(s.len())[0]);
    assert(!is_space_char(t[0]));
    lemma_trim_nonspace_head(t);
}

proof fn lemma_trim_end_keeps_head(t: Seq<char>)
    requires
        t.len() > 0,
        !is_space_char(t[0]),
    ensures
        crate::text::trim_end_spec(t).len() > 0,
    decreases t.len(),
{
    if t.len() > 0 && is_space_char(t.last()) {
        assert(t.drop_last()[0] == t[0]);
        lemma_trim_end_keeps_head(t.drop_last());
    }
}

proof fn lemma_trim_nonspace_head(t: Seq<char>)
    requires
        t.len() > 0,
        !is_space_char(t[0]),
    ensures
        trim_spec(t).len() > 0,
{
    assert(crate::text::trim_start_spec(t) == t);
    lemma_trim_end_keeps_head(t);
}

} // verus!
