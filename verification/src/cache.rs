//! Metadata cache: the minimum order size of each market, in shares, keyed by
//! the token text that the host uses.

use crate::fixed_point::{DecimalSpec, DecimalValue};
use vstd::prelude::*;
use vstd::string::StringSliceAdditionalSpecFns;
use vstd::utf8::encode_utf8_decode_utf8;

verus! {

/// One entry of the cache.
struct CacheEntry {
    token: String,
    min_size: DecimalValue,
}

/// The minimum order sizes that were fetched so far. An entry is created by
/// the first insert for a token and overwritten by a later one; none expires.
pub struct MinSizeCache {
    entries: Vec<CacheEntry>,
}

/// The mapping that a list of entries stands for; a later entry for a token
/// goes before an earlier one.
spec fn entries_map(entries: Seq<CacheEntry>) -> Map<Seq<char>, DecimalSpec>
    decreases entries.len(),
{
    if entries.len() == 0 {
        Map::empty()
    } else {
        entries_map(entries.drop_last()).insert(entries.last().token@, entries.last().min_size@)
    }
}

/// No token occurs twice in the list.
spec fn distinct_tokens(entries: Seq<CacheEntry>) -> bool {
    forall|i: int, j: int|
        0 <= i < entries.len() && 0 <= j < entries.len() && i != j ==> entries[i].token@
            != entries[j].token@
}

/// A token is in the mapping exactly if some entry holds it.
proof fn lemma_contains(entries: Seq<CacheEntry>, token: Seq<char>)
    ensures
        entries_map(entries).contains_key(token) <==> exists|i: int|
            0 <= i < entries.len() && entries[i].token@ == token,
    decreases entries.len(),
{
    if entries.len() > 0 {
        let front = entries.drop_last();
        lemma_contains(front, token);
        if entries_map(entries).contains_key(token) {
            if entries.last().token@ == token {
                assert(entries[entries.len() - 1].token@ == token);
            } else {
                let i = choose|i: int| 0 <= i < front.len() && front[i].token@ == token;
                assert(entries[i].token@ == token);
            }
        }
        if exists|i: int| 0 <= i < entries.len() && entries[i].token@ == token {
            let i = choose|i: int| 0 <= i < entries.len() && entries[i].token@ == token;
            if i < entries.len() - 1 {
                assert(front[i].token@ == token);
            }
        }
    }
}

/// Where no token occurs twice, the mapping gives each entry's own size.
proof fn lemma_value(entries: Seq<CacheEntry>, i: int)
    requires
        distinct_tokens(entries),
        0 <= i < entries.len(),
    ensures
        entries_map(entries).contains_key(entries[i].token@),
        entries_map(entries)[entries[i].token@] == entries[i].min_size@,
    decreases entries.len(),
{
    let front = entries.drop_last();
    if i < entries.len() - 1 {
        assert(distinct_tokens(front)) by {
            assert forall|a: int, b: int|
                0 <= a < front.len() && 0 <= b < front.len() && a != b implies front[a].token@
                != front[b].token@ by {
                assert(front[a] == entries[a] && front[b] == entries[b]);
            }
        }
        lemma_value(front, i);
        assert(front[i] == entries[i]);
        assert(entries[i].token@ != entries[entries.len() - 1].token@);
    }
}

/// Where no token occurs twice, replacing the size of one entry overwrites
/// its token in the mapping.
proof fn lemma_replace(entries: Seq<CacheEntry>, i: int, entry: CacheEntry)
    requires
        distinct_tokens(entries),
        0 <= i < entries.len(),
        entry.token@ == entries[i].token@,
    ensures
        distinct_tokens(entries.update(i, entry)),
        entries_map(entries.update(i, entry)) == entries_map(entries).insert(
            entry.token@,
            entry.min_size@,
        ),
    decreases entries.len(),
{
    let after = entries.update(i, entry);
    let front = entries.drop_last();
    assert(distinct_tokens(after)) by {
        assert forall|a: int, b: int|
            0 <= a < after.len() && 0 <= b < after.len() && a != b implies after[a].token@
            != after[b].token@ by {
            assert(after[a].token@ == entries[a].token@);
            assert(after[b].token@ == entries[b].token@);
        }
    }
    if i == entries.len() - 1 {
        assert(after.drop_last() =~= front);
        assert(entries_map(after) =~= entries_map(entries).insert(entry.token@, entry.min_size@));
    } else {
        assert(distinct_tokens(front)) by {
            assert forall|a: int, b: int|
                0 <= a < front.len() && 0 <= b < front.len() && a != b implies front[a].token@
                != front[b].token@ by {
                assert(front[a] == entries[a] && front[b] == entries[b]);
            }
        }
        assert(front[i] == entries[i]);
        lemma_replace(front, i, entry);
        assert(after.drop_last() =~= front.update(i, entry));
        assert(after.last() == entries.last());
        assert(entries[i].token@ != entries[entries.len() - 1].token@);
        assert(entries_map(after) =~= entries_map(entries).insert(entry.token@, entry.min_size@));
    }
}

/// Whether two texts are the same, compared byte by byte.
pub fn same_text(a: &str, b: &str) -> (same: bool)
    ensures
        same == (a@ == b@),
{
    let x = a.as_bytes();
    let y = b.as_bytes();
    proof {
        encode_utf8_decode_utf8(a@);
        encode_utf8_decode_utf8(b@);
    }
    if x.len() != y.len() {
        return false;
    }
    let mut i: usize = 0;
    while i < x.len()
        invariant
            i <= x.len(),
            x@ == a.spec_bytes(),
            y@ == b.spec_bytes(),
            x@.len() == y@.len(),
            forall|j: int| 0 <= j < i ==> x@[j] == y@[j],
        decreases x.len() - i,
    {
        if x[i] != y[i] {
            return false;
        }
        i = i + 1;
    }
    assert(x@ =~= y@);
    true
}

impl View for MinSizeCache {
    type V = Map<Seq<char>, DecimalSpec>;

    closed spec fn view(&self) -> Map<Seq<char>, DecimalSpec> {
        entries_map(self.entries@)
    }
}

impl MinSizeCache {
    #[verifier::type_invariant]
    spec fn valid(self) -> bool {
        distinct_tokens(self.entries@)
    }

    /// A cache without entries.
    pub fn new() -> (cache: MinSizeCache)
        ensures
            cache@ == Map::<Seq<char>, DecimalSpec>::empty(),
    {
        MinSizeCache { entries: Vec::new() }
    }

    /// Position of the entry for `token`, if there is one.
    fn position(&self, token: &str) -> (at: Option<usize>)
        ensures
            at matches Some(i) ==> i < self.entries@.len() && self.entries@[i as int].token@
                == token@,
            at is None ==> !self@.contains_key(token@),
    {
        let mut i: usize = 0;
        while i < self.entries.len()
            invariant
                i <= self.entries@.len(),
                forall|j: int| 0 <= j < i ==> self.entries@[j].token@ != token@,
            decreases self.entries@.len() - i,
        {
            if same_text(self.entries[i].token.as_str(), token) {
                return Some(i);
            }
            i = i + 1;
        }
        proof {
            lemma_contains(self.entries@, token@);
        }
        None
    }

    /// The minimum order size cached for `token`; `None` where the token was
    /// never stored.
    pub fn get(&self, token: &str) -> (min_size: Option<DecimalValue>)
        ensures
            min_size is Some == self@.contains_key(token@),
            min_size matches Some(v) ==> v@ == self@[token@],
    {
        proof {
            use_type_invariant(self);
        }
        match self.position(token) {
            Some(i) => {
                proof {
                    lemma_value(self.entries@, i as int);
                }
                Some(self.entries[i].min_size)
            },
            None => None,
        }
    }

    /// Stores the minimum order size of `token`, over what was stored for it
    /// before. The other entries stay.
    pub fn insert(&mut self, token: &str, min_size: DecimalValue)
        ensures
            final(self)@ == old(self)@.insert(token@, min_size@),
    {
        proof {
            use_type_invariant(&*self);
        }
        let entry = CacheEntry { token: token.to_owned(), min_size };
        let found = self.position(token);
        let mut entries: Vec<CacheEntry> = Vec::new();
        core::mem::swap(&mut self.entries, &mut entries);
        match found {
            Some(i) => {
                proof {
                    lemma_replace(entries@, i as int, entry);
                }
                entries.set(i, entry);
            },
            None => {
                proof {
                    lemma_contains(entries@, token@);
                    let before = entries@;
                    let after = before.push(entry);
                    assert(after.drop_last() =~= before);
                    assert forall|a: int, b: int|
                        0 <= a < after.len() && 0 <= b < after.len() && a != b implies after[a]
                            .token@ != after[b].token@ by {
                        if a < before.len() {
                            assert(after[a] == before[a]);
                        }
                        if b < before.len() {
                            assert(after[b] == before[b]);
                        }
                    }
                }
                entries.push(entry);
            },
        }
        self.entries = entries;
    }
}

} // verus!
