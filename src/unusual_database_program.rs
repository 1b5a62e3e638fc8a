//! The datagram key-value store: `key=value` stores, `key` asks, and
//! `version` asks for the version of the store.
use crate::text::{decode_lossy, string_of, sub_chars, utf8_lossy};
use vstd::prelude::*;

verus! {

/// The version the store reports.
pub const VERSION: &'static str = "MM Key-Value Store: 1.0.0";

/// The map that a list of pairs makes, a later pair overriding an earlier
/// one with the same key.
pub open spec fn store_map(s: Seq<(Seq<char>, Seq<char>)>) -> Map<Seq<char>, Seq<char>>
    decreases s.len(),
{
    if s.len() == 0 {
        Map::empty()
    } else {
        store_map(s.drop_last()).insert(s.last().0, s.last().1)
    }
}

/// No two pairs of `s` share a key.
pub open spec fn keys_distinct(s: Seq<(Seq<char>, Seq<char>)>) -> bool {
    forall|i: int, j: int| 0 <= i < j < s.len() ==> #[trigger] s[i].0 != #[trigger] s[j].0
}

/// The position of the first `=` in `s` from `i` on, or its length.
pub open spec fn find_eq(s: Seq<char>, i: int) -> int
    decreases s.len() - i,
{
    if i < 0 || i >= s.len() {
        s.len() as int
    } else if s[i] == '=' {
        i
    } else {
        find_eq(s, i + 1)
    }
}

/// A request to the store `m`: the store after it, and the reply, if any.
/// `version` is answered with the version; a request with an `=` stores
/// what follows the first `=` under what precedes it; any other request is
/// answered with itself, `=`, and its value, empty when it has none.
pub open spec fn request_spec(m: Map<Seq<char>, Seq<char>>, msg: Seq<char>) -> (
    Map<Seq<char>, Seq<char>>,
    Option<Seq<char>>,
) {
    let i = find_eq(msg, 0);
    if msg == "version"@ {
        (m, Some("version="@ + VERSION@))
    } else if i < msg.len() {
        (m.insert(msg.subrange(0, i), msg.subrange(i + 1, msg.len() as int)), None)
    } else {
        let value = if m.contains_key(msg) {
            m[msg]
        } else {
            seq![]
        };
        (m, Some(msg + seq!['='] + value))
    }
}

/// The view of an optional reply.
pub open spec fn reply_view(r: Option<String>) -> Option<Seq<char>> {
    match r {
        Some(t) => Some(t@),
        None => None,
    }
}

proof fn lemma_store_update(s: Seq<(Seq<char>, Seq<char>)>, i: int, v: Seq<char>)
    requires
        0 <= i < s.len(),
        keys_distinct(s),
    ensures
        store_map(s.update(i, (s[i].0, v))) == store_map(s).insert(s[i].0, v),
    decreases s.len(),
{
    let k = s[i].0;
    let t = s.update(i, (k, v));
    if i == s.len() - 1 {
        assert(t.drop_last() =~= s.drop_last());
        assert(store_map(t) =~= store_map(s).insert(k, v));
    } else {
        lemma_store_update(s.drop_last(), i, v);
        assert(t.drop_last() =~= s.drop_last().update(i, (k, v)));
        assert(s.last() == s[s.len() - 1]);
        assert(s[i].0 != s[s.len() - 1].0);
        assert(store_map(t) =~= store_map(s).insert(k, v));
    }
}

proof fn lemma_store_lookup(s: Seq<(Seq<char>, Seq<char>)>, i: int)
    requires
        0 <= i < s.len(),
        keys_distinct(s),
    ensures
        store_map(s).contains_key(s[i].0),
        store_map(s)[s[i].0] == s[i].1,
    decreases s.len(),
{
    if i < s.len() - 1 {
        lemma_store_lookup(s.drop_last(), i);
        assert(s[i].0 != s[s.len() - 1].0);
    }
}

proof fn lemma_store_absent(s: Seq<(Seq<char>, Seq<char>)>, k: Seq<char>)
    requires
        forall|j: int| 0 <= j < s.len() ==> #[trigger] s[j].0 != k,
    ensures
        !store_map(s).contains_key(k),
    decreases s.len(),
{
    if s.len() > 0 {
        lemma_store_absent(s.drop_last(), k);
        assert(s[s.len() - 1].0 != k);
    }
}

/// The key-value store, as its pairs in the order their keys were first
/// stored.
pub struct UnusualDatabaseProgram {
    entries: Vec<(String, String)>,
}

impl View for UnusualDatabaseProgram {
    type V = Map<Seq<char>, Seq<char>>;

    closed spec fn view(&self) -> Map<Seq<char>, Seq<char>> {
        store_map(self.pairs())
    }
}

impl UnusualDatabaseProgram {
    /// The pairs of the store, as text.
    closed spec fn pairs(&self) -> Seq<(Seq<char>, Seq<char>)> {
        self.entries@.map_values(|e: (String, String)| (e.0@, e.1@))
    }

    /// Each key is stored once.
    pub closed spec fn wf(&self) -> bool {
        keys_distinct(self.pairs())
    }

    /// An empty store.
    pub fn new() -> (r: UnusualDatabaseProgram)
        ensures
            r.wf(),
            r@ == Map::<Seq<char>, Seq<char>>::empty(),
    {
        let r = UnusualDatabaseProgram { entries: Vec::new() };
        assert(r.pairs() =~= Seq::<(Seq<char>, Seq<char>)>::empty());
        r
    }

    /// The position of the pair with key `key`, if there is one.
    fn position(&self, key: &String) -> (r: Option<usize>)
        requires
            self.wf(),
        ensures
            match r {
                Some(i) => i < self.pairs().len() && self.pairs()[i as int].0 == key@,
                None => forall|j: int| 0 <= j < self.pairs().len() ==> #[trigger] self.pairs()[j].0 != key@,
            },
    {
        let mut i: usize = 0;
        while i < self.entries.len()
            invariant
                i <= self.entries@.len(),
                forall|j: int| 0 <= j < i ==> #[trigger] self.pairs()[j].0 != key@,
            decreases self.entries@.len() - i,
        {
            if self.entries[i].0 == *key {
                return Some(i);
            }
            i = i + 1;
        }
        None
    }

    /// The value stored under `key`, if any.
    pub fn get(&self, key: &String) -> (r: Option<String>)
        requires
            self.wf(),
        ensures
            r.is_some() == self@.contains_key(key@),
            r.is_some() ==> r.unwrap()@ == self@[key@],
    {
        match self.position(key) {
            Some(i) => {
                proof {
                    lemma_store_lookup(self.pairs(), i as int);
                }
                Some(self.entries[i].1.clone())
            },
            None => {
                proof {
                    lemma_store_absent(self.pairs(), key@);
                }
                None
            },
        }
    }

    /// Stores `value` under `key`, in place of what was there.
    pub fn insert(&mut self, key: String, value: String)
        requires
            old(self).wf(),
        ensures
            final(self).wf(),
            final(self)@ == old(self)@.insert(key@, value@),
    {
        let ghost before = self.pairs();
        match self.position(&key) {
            Some(i) => {
                let ghost k = key@;
                let ghost v = value@;
                self.entries[i] = (key, value);
                assert(self.pairs() =~= before.update(i as int, (k, v)));
                proof {
                    lemma_store_update(before, i as int, v);
                }
            },
            None => {
                let ghost k = key@;
                let ghost v = value@;
                self.entries.push((key, value));
                assert(self.pairs() =~= before.push((k, v)));
                assert(self.pairs().drop_last() =~= before);
            },
        }
    }

    /// Handles one datagram, decoded as UTF-8 with invalid sequences
    /// replaced, as [`request_spec`] says; returns the reply to send, if any.
    pub fn handle(&mut self, data: &[u8]) -> (r: Option<String>)
        requires
            old(self).wf(),
        ensures
            final(self).wf(),
            (final(self)@, reply_view(r)) == request_spec(old(self)@, utf8_lossy(data@)),
    {
        let chars = decode_lossy(data);
        let message = string_of(&chars);
        if message == String::from_str("version") {
            let mut reply = String::from_str("version=");
            reply.append(VERSION);
            return Some(reply);
        }
        let mut i: usize = 0;
        while i < chars.len() && chars[i] != '='
            invariant
                i <= chars@.len(),
                find_eq(chars@, 0) == find_eq(chars@, i as int),
            decreases chars@.len() - i,
        {
            i = i + 1;
        }
        if i < chars.len() {
            let key = string_of(&sub_chars(&chars, 0, i));
            let value = string_of(&sub_chars(&chars, i + 1, chars.len()));
            self.insert(key, value);
            None
        } else {
            let mut reply = message.clone();
            reply.append("=");
            proof {
                reveal_strlit("=");
            }
            match self.get(&message) {
                Some(value) => reply.append(value.as_str()),
                None => {},
            }
            Some(reply)
        }
    }
}

} // verus!
