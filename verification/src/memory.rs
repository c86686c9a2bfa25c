//! The core stored entity: a `Memory` with its identifier, free-form
//! metadata, token count, and timestamps.

use vstd::prelude::*;
use vstd::string::StrSliceExecFns;
use vstd::string::StringExecFns;

use crate::time::{now_timestamp, valid_timestamp};
use crate::tokenizer::{simple_count, TokenCount, Tokenizer, TokenizerType};

verus! {

pub assume_specification[ String::push ](s: &mut String, c: char)
    ensures
        final(s)@ == old(s)@.push(c),
;

/// Relies on uuid's Uuid::new_v4: 128 random bits. Nothing is assumed of
/// the value.
#[verifier::external_body]
fn random_bits() -> u128 {
    uuid::Uuid::new_v4().as_u128()
}

/// A lowercase hexadecimal digit.
pub open spec fn is_hex_lower(c: char) -> bool {
    ('0' <= c && c <= '9') || ('a' <= c && c <= 'f')
}

/// The lowercase hexadecimal digit for a value below 16.
fn hex_char(d: u8) -> (c: char)
    requires
        d < 16,
    ensures
        is_hex_lower(c),
{
    match d {
        0 => '0',
        1 => '1',
        2 => '2',
        3 => '3',
        4 => '4',
        5 => '5',
        6 => '6',
        7 => '7',
        8 => '8',
        9 => '9',
        10 => 'a',
        11 => 'b',
        12 => 'c',
        13 => 'd',
        14 => 'e',
        _ => 'f',
    }
}

/// An identifier in the shape `MemoryId::new` mints: `mem_` followed by
/// eight lowercase hexadecimal digits.
pub open spec fn is_minted_id(s: Seq<char>) -> bool {
    &&& s.len() == 12
    &&& s[0] == 'm'
    &&& s[1] == 'e'
    &&& s[2] == 'm'
    &&& s[3] == '_'
    &&& forall|i: int| 4 <= i < 12 ==> is_hex_lower(#[trigger] s[i])
}

/// An opaque identifier for a memory, generated once at creation and never
/// reassigned.
#[derive(Debug, Hash)]
pub struct MemoryId {
    id: String,
}

impl View for MemoryId {
    type V = Seq<char>;

    closed spec fn view(&self) -> Seq<char> {
        self.id@
    }
}

impl MemoryId {
    /// Mint a fresh random identifier: `mem_` plus eight hexadecimal digits
    /// drawn from a random 32-bit value.
    pub fn new() -> (r: MemoryId)
        ensures
            is_minted_id(r@),
    {
        let bits = random_bits();
        let x: u32 = (bits >> 96) as u32;
        let mut s = String::from_str("mem_");
        proof {
            reveal_strlit("mem_");
        }
        let mut shift: u32 = 32;
        while shift > 0
            invariant
                shift % 4 == 0,
                shift <= 32,
                s@.len() == 4 + (32 - shift) / 4,
                s@[0] == 'm' && s@[1] == 'e' && s@[2] == 'm' && s@[3] == '_',
                forall|i: int| 4 <= i < s@.len() ==> is_hex_lower(#[trigger] s@[i]),
            decreases shift,
        {
            shift = shift - 4;
            let nibble: u32 = (x >> shift) & 0xF;
            proof {
                assert((x >> shift) & 0xF < 16) by (bit_vector);
            }
            s.push(hex_char(nibble as u8));
        }
        MemoryId { id: s }
    }

    /// Wrap an existing identifier string (as read back from storage).
    pub fn from_string(id: String) -> (r: MemoryId)
        ensures
            r@ == id@,
    {
        MemoryId { id }
    }

    /// The string form of the identifier.
    pub fn as_str(&self) -> (r: &str)
        ensures
            r@ == self@,
    {
        self.id.as_str()
    }
}

impl Clone for MemoryId {
    fn clone(&self) -> (r: Self)
        ensures
            r@ == self@,
    {
        MemoryId { id: self.id.clone() }
    }
}

impl PartialEq for MemoryId {
    fn eq(&self, other: &Self) -> (r: bool) {
        self.id == other.id
    }
}

impl Eq for MemoryId {

}

impl vstd::std_specs::cmp::PartialEqSpecImpl for MemoryId {
    open spec fn obeys_eq_spec() -> bool {
        true
    }

    open spec fn eq_spec(&self, other: &Self) -> bool {
        self@ == other@
    }
}

/// The mapping a pair list denotes: later pairs win, though well-formed
/// lists have distinct keys.
pub open spec fn map_of_pairs(pairs: Seq<(Seq<char>, Seq<char>)>) -> Map<Seq<char>, Seq<char>>
    decreases pairs.len(),
{
    if pairs.len() == 0 {
        Map::empty()
    } else {
        map_of_pairs(pairs.drop_last()).insert(pairs.last().0, pairs.last().1)
    }
}

/// Free-form string-to-string metadata attached to a memory. Keys are
/// unique; insertion order carries no meaning.
#[derive(Debug)]
pub struct MemoryMetadata {
    pub(crate) pairs: Vec<(String, String)>,
}

impl View for MemoryMetadata {
    type V = Seq<(Seq<char>, Seq<char>)>;

    closed spec fn view(&self) -> Seq<(Seq<char>, Seq<char>)> {
        self.pairs@.map_values(|p: (String, String)| (p.0@, p.1@))
    }
}

impl MemoryMetadata {
    /// Keys are pairwise distinct.
    pub open spec fn wf(&self) -> bool {
        forall|i: int, j: int| 0 <= i < j < self@.len() ==> (#[trigger] self@[i]).0 != (
        #[trigger] self@[j]).0
    }

    /// The mapping this metadata denotes.
    pub open spec fn as_map(&self) -> Map<Seq<char>, Seq<char>> {
        map_of_pairs(self@)
    }

    /// Empty metadata.
    pub fn new() -> (r: MemoryMetadata)
        ensures
            r@ == Seq::<(Seq<char>, Seq<char>)>::empty(),
            r.wf(),
    {
        MemoryMetadata { pairs: Vec::new() }
    }

    /// The number of entries.
    pub fn len(&self) -> (r: usize)
        ensures
            r == self@.len(),
    {
        self.pairs.len()
    }

    /// The key of the entry at `i`.
    pub fn key_at(&self, i: usize) -> (r: &String)
        requires
            i < self@.len(),
        ensures
            r@ == self@[i as int].0,
    {
        &self.pairs[i].0
    }

    /// The value of the entry at `i`.
    pub fn value_at(&self, i: usize) -> (r: &String)
        requires
            i < self@.len(),
        ensures
            r@ == self@[i as int].1,
    {
        &self.pairs[i].1
    }

    /// Set `key` to `value`, replacing any existing entry for `key`.
    #[verifier::loop_isolation(false)]
    pub fn insert(&mut self, key: String, value: String)
        requires
            old(self).wf(),
        ensures
            final(self).wf(),
            final(self).as_map() == old(self).as_map().insert(key@, value@),
    {
        let ghost old_pairs = old(self)@;
        let mut i: usize = 0;
        while i < self.pairs.len()
            invariant
                self@ == old_pairs,
                i <= self@.len(),
                forall|j: int| 0 <= j < i ==> (#[trigger] self@[j]).0 != key@,
                forall|a: int, b: int| 0 <= a < b < old_pairs.len() ==> (
                #[trigger] old_pairs[a]).0 != (#[trigger] old_pairs[b]).0,
            decreases self.pairs.len() - i,
        {
            if self.pairs[i].0 == key {
                proof {
                    assert(old_pairs[i as int].0 == key@);
                }
                self.pairs[i] = (key, value);
                proof {
                    lemma_map_of_pairs_update(old_pairs, i as int, key@, value@);
                    assert(self@ =~= old_pairs.update(i as int, (key@, value@)));
                    assert forall|a: int, b: int| 0 <= a < b < self@.len() implies (
                    #[trigger] self@[a]).0 != (#[trigger] self@[b]).0 by {
                        assert(self@.len() == old_pairs.len());
                        if a == i {
                            assert(self@[a].0 == key@);
                            assert(self@[b] == old_pairs[b]);
                            assert(old_pairs[i as int].0 != old_pairs[b].0);
                        } else if b == i {
                            assert(self@[a] == old_pairs[a]);
                            assert(self@[b].0 == key@);
                            assert(old_pairs[a].0 != key@);
                        } else {
                            assert(self@[a] == old_pairs[a]);
                            assert(self@[b] == old_pairs[b]);
                        }
                    }
                    assert(self@ == old_pairs.update(i as int, (key@, value@)));
                }
                return ;
            }
            i = i + 1;
        }
        self.pairs.push((key, value));
        proof {
            assert(self@ =~= old_pairs.push((key@, value@)));
            assert(self@.drop_last() =~= old_pairs);
            assert(forall|a: int| 0 <= a < old_pairs.len() ==> (#[trigger] old_pairs[a]).0 != key@);
        }
    }

    /// Look up the value stored under `key`.
    pub fn get(&self, key: &str) -> (r: Option<&String>)
        requires
            self.wf(),
        ensures
            match r {
                Some(v) => self.as_map().dom().contains(key@) && self.as_map()[key@] == v@,
                None => !self.as_map().dom().contains(key@),
            },
    {
        let ghost pairs = self@;
        let mut i: usize = 0;
        while i < self.pairs.len()
            invariant
                self@ == pairs,
                self.wf(),
                i <= pairs.len(),
                forall|j: int| 0 <= j < i ==> (#[trigger] pairs[j]).0 != key@,
            decreases self.pairs.len() - i,
        {
            if str_eq(self.pairs[i].0.as_str(), key) {
                proof {
                    lemma_map_of_pairs_key(pairs, i as int);
                }
                return Some(&self.pairs[i].1);
            }
            i = i + 1;
        }
        proof {
            lemma_map_of_pairs_absent(pairs, key@);
        }
        None
    }
}

impl Clone for MemoryMetadata {
    fn clone(&self) -> (r: Self)
        ensures
            r@ == self@,
    {
        let mut pairs: Vec<(String, String)> = Vec::new();
        let mut i: usize = 0;
        while i < self.pairs.len()
            invariant
                i <= self.pairs@.len(),
                pairs@.len() == i as int,
                forall|j: int|
                    #![trigger pairs@[j]]
                    0 <= j < i ==> pairs@[j].0@ == self.pairs@[j].0@ && pairs@[j].1@
                        == self.pairs@[j].1@,
            decreases self.pairs.len() - i,
        {
            pairs.push((self.pairs[i].0.clone(), self.pairs[i].1.clone()));
            i = i + 1;
        }
        let r = MemoryMetadata { pairs };
        proof {
            assert(r@ =~= self@);
        }
        r
    }
}

/// Compare two string slices for equality.
pub fn str_eq(a: &str, b: &str) -> (r: bool)
    ensures
        r == (a@ == b@),
{
    let an = a.unicode_len();
    let bn = b.unicode_len();
    if an != bn {
        return false;
    }
    let mut i: usize = 0;
    while i < an
        invariant
            an == a@.len(),
            an == b@.len(),
            i <= an,
            forall|j: int| 0 <= j < i ==> a@[j] == b@[j],
        decreases an - i,
    {
        if a.get_char(i) != b.get_char(i) {
            return false;
        }
        i = i + 1;
    }
    proof {
        assert(a@ =~= b@);
    }
    true
}

/// Updating the pair at `i` (whose key is `k`) keeps the denoted map an
/// insert of `k`, provided no later pair shares key `k`.
proof fn lemma_map_of_pairs_update(pairs: Seq<(Seq<char>, Seq<char>)>, i: int, k: Seq<char>, v: Seq<char>)
    requires
        0 <= i < pairs.len(),
        pairs[i].0 == k,
        forall|a: int, b: int| 0 <= a < b < pairs.len() ==> (#[trigger] pairs[a]).0 != (
        #[trigger] pairs[b]).0,
    ensures
        map_of_pairs(pairs.update(i, (k, v))) == map_of_pairs(pairs).insert(k, v),
    decreases pairs.len(),
{
    let updated = pairs.update(i, (k, v));
    if i == pairs.len() - 1 {
        assert(updated.drop_last() =~= pairs.drop_last());
        assert(updated.last() == (k, v));
    } else {
        assert(updated.drop_last() =~= pairs.drop_last().update(i, (k, v)));
        lemma_map_of_pairs_update(pairs.drop_last(), i, k, v);
        assert(updated.last() == pairs.last());
        assert(pairs.last().0 != k);
        assert(map_of_pairs(pairs.drop_last()).insert(k, v).insert(pairs.last().0, pairs.last().1)
            =~= map_of_pairs(pairs.drop_last()).insert(pairs.last().0, pairs.last().1).insert(
            k,
            v,
        ));
    }
}

/// The pair at `i` is in the denoted map, provided no later pair shares its
/// key.
proof fn lemma_map_of_pairs_key(pairs: Seq<(Seq<char>, Seq<char>)>, i: int)
    requires
        0 <= i < pairs.len(),
        forall|a: int, b: int| 0 <= a < b < pairs.len() ==> (#[trigger] pairs[a]).0 != (
        #[trigger] pairs[b]).0,
    ensures
        map_of_pairs(pairs).dom().contains(pairs[i].0),
        map_of_pairs(pairs)[pairs[i].0] == pairs[i].1,
    decreases pairs.len(),
{
    if i < pairs.len() - 1 {
        lemma_map_of_pairs_key(pairs.drop_last(), i);
        assert(pairs.drop_last()[i] == pairs[i]);
        assert(pairs.last().0 != pairs[i].0);
    }
}

/// A key that no pair holds is not in the denoted map.
proof fn lemma_map_of_pairs_absent(pairs: Seq<(Seq<char>, Seq<char>)>, k: Seq<char>)
    requires
        forall|j: int| 0 <= j < pairs.len() ==> (#[trigger] pairs[j]).0 != k,
    ensures
        !map_of_pairs(pairs).dom().contains(k),
    decreases pairs.len(),
{
    if pairs.len() > 0 {
        lemma_map_of_pairs_absent(pairs.drop_last(), k);
    }
}

/// The mathematical shape of a memory. Metadata is carried as its entry
/// list; `map_of_pairs` gives the mapping it denotes, whose insertion order
/// carries no meaning.
pub ghost struct MemoryModel {
    pub id: Seq<char>,
    pub content: Seq<char>,
    pub content_type: Seq<char>,
    pub category: Option<Seq<char>>,
    pub mode: Option<Seq<char>>,
    pub metadata: Seq<(Seq<char>, Seq<char>)>,
    pub token_count: u64,
    pub created_at: int,
    pub last_accessed: int,
}

impl MemoryModel {
    /// The mapping the metadata entries denote.
    pub open spec fn metadata_map(self) -> Map<Seq<char>, Seq<char>> {
        map_of_pairs(self.metadata)
    }
}

/// A stored memory. Immutable after creation except for `last_accessed`,
/// which every successful retrieval refreshes.
#[derive(Debug)]
pub struct Memory {
    /// Unique identifier, assigned once.
    pub id: MemoryId,
    /// The stored text.
    pub content: String,
    /// A free-form MIME-like tag.
    pub content_type: String,
    /// Optional category (e.g. "context", "decision").
    pub category: Option<String>,
    /// Optional assistant mode the memory was recorded under.
    pub mode: Option<String>,
    /// Free-form metadata.
    pub metadata: MemoryMetadata,
    /// Token count of `content`, computed once at creation.
    pub token_count: TokenCount,
    /// Creation time, set once.
    pub created_at: i64,
    /// Last successful retrieval time; the only mutable field.
    pub last_accessed: i64,
}

pub open spec fn view_opt_string(s: Option<String>) -> Option<Seq<char>> {
    match s {
        Some(x) => Some(x@),
        None => None,
    }
}

impl View for Memory {
    type V = MemoryModel;

    open spec fn view(&self) -> MemoryModel {
        MemoryModel {
            id: self.id@,
            content: self.content@,
            content_type: self.content_type@,
            category: view_opt_string(self.category),
            mode: view_opt_string(self.mode),
            metadata: self.metadata@,
            token_count: self.token_count.0,
            created_at: self.created_at as int,
            last_accessed: self.last_accessed as int,
        }
    }
}

impl Memory {
    /// The validity invariant: timestamps in range, metadata keys distinct.
    pub open spec fn wf(&self) -> bool {
        &&& valid_timestamp(self.created_at as int)
        &&& valid_timestamp(self.last_accessed as int)
        &&& self.metadata.wf()
    }

    /// Build a new memory: mint a fresh identifier, count the content's
    /// tokens once with `tokenizer`, and stamp both timestamps with the
    /// current time.
    pub fn new(
        content: String,
        content_type: String,
        category: Option<String>,
        mode: Option<String>,
        metadata: MemoryMetadata,
        tokenizer: &Tokenizer,
    ) -> (r: Memory)
        requires
            metadata.wf(),
        ensures
            r.wf(),
            is_minted_id(r@.id),
            r@.content == content@,
            r@.content_type == content_type@,
            r@.category == view_opt_string(category),
            r@.mode == view_opt_string(mode),
            r@.metadata == metadata@,
            tokenizer.spec_strategy() == TokenizerType::Simple ==> r@.token_count == simple_count(
                content@,
            ),
            r@.created_at == r@.last_accessed,
    {
        let id = MemoryId::new();
        let token_count = tokenizer.count_tokens(content.as_str());
        let now = now_timestamp();
        Memory {
            id,
            content,
            content_type,
            category,
            mode,
            metadata,
            token_count,
            created_at: now,
            last_accessed: now,
        }
    }

    /// Refresh `last_accessed` to `now`, never moving it backwards.
    pub fn touch_at(&mut self, now: i64)
        requires
            valid_timestamp(now as int),
            old(self).wf(),
        ensures
            final(self).wf(),
            final(self).last_accessed == if now > old(self).last_accessed {
                now
            } else {
                old(self).last_accessed
            },
            final(self).last_accessed >= old(self).last_accessed,
            *final(self) == (Memory { last_accessed: final(self).last_accessed, ..*old(self) }),
    {
        if now > self.last_accessed {
            self.last_accessed = now;
        }
    }

    /// Refresh `last_accessed` with the current time, never moving it
    /// backwards.
    pub fn touch(&mut self)
        requires
            old(self).wf(),
        ensures
            final(self).wf(),
            final(self).last_accessed >= old(self).last_accessed,
            *final(self) == (Memory { last_accessed: final(self).last_accessed, ..*old(self) }),
    {
        let now = now_timestamp();
        self.touch_at(now);
    }
}

impl Clone for Memory {
    fn clone(&self) -> (r: Self)
        ensures
            r@ == self@,
            r.wf() == self.wf(),
    {
        Memory {
            id: self.id.clone(),
            content: self.content.clone(),
            content_type: self.content_type.clone(),
            category: match &self.category {
                Some(c) => Some(c.clone()),
                None => None,
            },
            mode: match &self.mode {
                Some(m) => Some(m.clone()),
                None => None,
            },
            metadata: self.metadata.clone(),
            token_count: TokenCount(self.token_count.0),
            created_at: self.created_at,
            last_accessed: self.last_accessed,
        }
    }
}

} // verus!
