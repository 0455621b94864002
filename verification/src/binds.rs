//! Key-to-UID binds where the first bind of a key is the one kept.
use vstd::prelude::*;

verus! {

/// What `key` is bound to: the value of its first entry.
pub open spec fn bind_get(s: Seq<(u8, u32)>, key: u8) -> Option<u32>
    decreases s.len(),
{
    if s.len() == 0 {
        None
    } else {
        match bind_get(s.drop_last(), key) {
            Some(v) => Some(v),
            None => if s.last().0 == key {
                Some(s.last().1)
            } else {
                None
            },
        }
    }
}

/// Bind `key` to `id` unless it is bound already.
pub open spec fn bind_insert(s: Seq<(u8, u32)>, key: u8, id: u32) -> Seq<(u8, u32)> {
    if bind_get(s, key) is Some {
        s
    } else {
        s.push((key, id))
    }
}

pub proof fn lemma_bind_get_extend(s: Seq<(u8, u32)>, n: int, key: u8)
    requires
        0 <= n <= s.len(),
        bind_get(s.take(n), key) is Some,
    ensures
        bind_get(s, key) == bind_get(s.take(n), key),
    decreases s.len() - n,
{
    if n < s.len() {
        assert(s.take(n + 1).drop_last() =~= s.take(n));
        lemma_bind_get_extend(s, n + 1, key);
    } else {
        assert(s.take(n) =~= s);
    }
}

/// Inserting never changes what an already bound key is bound to.
pub proof fn lemma_bind_insert_keeps(s: Seq<(u8, u32)>, key: u8, id: u32, other: u8)
    ensures
        bind_get(s, other) is Some ==> bind_get(bind_insert(s, key, id), other) == bind_get(
            s,
            other,
        ),
        bind_get(bind_insert(s, key, id), key) is Some,
        bind_get(s, key) is None ==> bind_get(bind_insert(s, key, id), key) == Some(id),
{
    if bind_get(s, key) is None {
        assert(s.push((key, id)).drop_last() =~= s);
    }
}

/// No key occurs twice among the entries.
pub open spec fn keys_unique(s: Seq<(u8, u32)>) -> bool {
    forall|i: int, j: int| 0 <= i < j < s.len() ==> #[trigger] s[i].0 != #[trigger] s[j].0
}

/// An unbound key occurs in no entry.
pub proof fn lemma_bind_get_none(s: Seq<(u8, u32)>, key: u8)
    requires
        bind_get(s, key) is None,
    ensures
        forall|i: int| 0 <= i < s.len() ==> #[trigger] s[i].0 != key,
    decreases s.len(),
{
    if s.len() > 0 {
        lemma_bind_get_none(s.drop_last(), key);
        assert forall|i: int| 0 <= i < s.len() implies #[trigger] s[i].0 != key by {
            if i < s.len() - 1 {
                assert(s.drop_last()[i] == s[i]);
            }
        }
    }
}

/// Inserting keeps the keys unique.
pub proof fn lemma_bind_insert_unique(s: Seq<(u8, u32)>, key: u8, id: u32)
    requires
        keys_unique(s),
    ensures
        keys_unique(bind_insert(s, key, id)),
{
    if bind_get(s, key) is None {
        lemma_bind_get_none(s, key);
        let t = s.push((key, id));
        assert forall|i: int, j: int| 0 <= i < j < t.len() implies #[trigger] t[i].0 != #[trigger] t[j].0 by {
            if j == s.len() {
                assert(t[i] == s[i]);
            } else {
                assert(t[i] == s[i] && t[j] == s[j]);
            }
        }
    }
}

/// Binds kept as a list of `(key, uid)` entries; no key occurs twice.
#[derive(Debug)]
pub struct Binds {
    pub entries: Vec<(u8, u32)>,
}

impl Binds {
    pub fn new() -> (r: Binds)
        ensures
            r.entries@ == Seq::<(u8, u32)>::empty(),
            keys_unique(r.entries@),
    {
        Binds { entries: Vec::new() }
    }

    pub fn get(&self, key: u8) -> (r: Option<u32>)
        ensures
            r == bind_get(self.entries@, key),
    {
        let mut i: usize = 0;
        while i < self.entries.len()
            invariant
                i <= self.entries@.len(),
                bind_get(self.entries@.take(i as int), key) is None,
            decreases self.entries.len() - i,
        {
            let (k, v) = self.entries[i];
            assert(self.entries@.take(i + 1).drop_last() =~= self.entries@.take(i as int));
            if k == key {
                proof {
                    lemma_bind_get_extend(self.entries@, i + 1, key);
                }
                return Some(v);
            }
            i = i + 1;
        }
        assert(self.entries@.take(i as int) =~= self.entries@);
        None
    }

    pub fn insert(&mut self, key: u8, id: u32)
        ensures
            final(self).entries@ == bind_insert(old(self).entries@, key, id),
            keys_unique(old(self).entries@) ==> keys_unique(final(self).entries@),
    {
        proof {
            if keys_unique(self.entries@) {
                lemma_bind_insert_unique(self.entries@, key, id);
            }
        }
        if self.get(key).is_none() {
            self.entries.push((key, id));
        }
    }
}

} // verus!
