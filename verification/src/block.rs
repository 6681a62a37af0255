//! A generic, content-addressable block: metadata plus an ordered,
//! deduplicated set of content items, serialized to a canonical byte
//! sequence and mined by searching the nonce space.

use vstd::prelude::*;

use crate::encode::be_bytes_u128;
use crate::encode::be_bytes_u32;
use crate::encode::be_bytes_u64;
use crate::encode::push_be_u128;
use crate::encode::push_be_u32;
use crate::encode::push_be_u64;
use crate::encode::to_two_complement_u64;
use crate::encode::two_complement_u64;
use crate::hash::difficulty_of;
use crate::hash::sha256_of;
use crate::hash::zero_digest;
use crate::hash::Hashable;
use crate::order::strictly_sorted;
use crate::order::TotalOrder;

verus! {

use core::cmp::Ordering;

/// The mathematical model of a block: every field as a plain value, digests
/// and content as sequences.
#[verifier::ext_equal]
pub ghost struct BlockModel<T> {
    pub index: u32,
    pub timestamp: i64,
    pub hash: Seq<u8>,
    pub prev_block_hash: Seq<u8>,
    pub nonce: u64,
    pub content: Seq<T>,
    pub difficulty: u128,
}

/// This is a linked data container inside blockchains; it is generic since
/// anything can be stored in it.
pub struct Block<T> {
    index: u32,
    timestamp: i64,
    hash: crate::hash::Hash,
    prev_block_hash: crate::hash::Hash,
    nonce: u64,
    content: Vec<T>,
    difficulty: u128,
}

impl<T> View for Block<T> {
    type V = BlockModel<T>;

    closed spec fn view(&self) -> BlockModel<T> {
        BlockModel {
            index: self.index,
            timestamp: self.timestamp,
            hash: self.hash@,
            prev_block_hash: self.prev_block_hash@,
            nonce: self.nonce,
            content: self.content@,
            difficulty: self.difficulty,
        }
    }
}

/// The concatenation of the items' own serializations, in sequence order.
pub open spec fn items_bytes<T: Hashable>(items: Seq<T>) -> Seq<u8>
    decreases items.len(),
{
    if items.len() == 0 {
        Seq::empty()
    } else {
        items_bytes(items.drop_last()) + items.last().bytes_spec()
    }
}

/// The canonical wire format of a block: index as 4 big-endian bytes, then
/// timestamp as 8 big-endian bytes, the previous block's raw 32-byte digest,
/// nonce as 8 big-endian bytes, each content item's serialization in
/// sequence order, and finally difficulty as 16 big-endian bytes. The
/// block's own stored hash is not part of the serialization.
pub open spec fn block_serial<T: Hashable>(m: BlockModel<T>) -> Seq<u8> {
    be_bytes_u32(m.index) + be_bytes_u64(two_complement_u64(m.timestamp)) + m.prev_block_hash
        + be_bytes_u64(m.nonce) + items_bytes(m.content) + be_bytes_u128(m.difficulty)
}

/// The model of the same block with its nonce replaced.
pub open spec fn with_nonce<T>(m: BlockModel<T>, nonce: u64) -> BlockModel<T> {
    BlockModel { nonce, ..m }
}

/// The block invariant: the stored hash is either the zero digest (the block
/// is unmined) or a digest whose difficulty metric the declared difficulty
/// threshold exceeds (the proof of work is valid).
pub open spec fn mined_or_unset<T>(m: BlockModel<T>) -> bool {
    m.hash == zero_digest() || m.difficulty > difficulty_of(m.hash)
}

/// The nonce wins on this block: the digest of the block serialized with
/// that nonce has a difficulty metric strictly below the block's declared
/// difficulty threshold. A larger threshold accepts more digests, so a
/// larger declared difficulty makes mining easier; that comparison direction
/// is part of the design.
pub open spec fn nonce_wins<T: Hashable>(m: BlockModel<T>, nonce: u64) -> bool {
    m.difficulty > difficulty_of(sha256_of(block_serial(with_nonce(m, nonce))))
}

/// Scans a strictly sorted vector for `item`. Reports either the index
/// holding an equal value, or the index where `item` belongs.
fn lower_index<T: TotalOrder>(v: &Vec<T>, item: &T) -> (r: (usize, bool))
    requires
        strictly_sorted(v@),
    ensures
        r.1 ==> r.0 < v@.len() && v@[r.0 as int] == *item,
        !r.1 ==> {
            &&& r.0 <= v@.len()
            &&& forall|k: int| 0 <= k < r.0 ==> v@[k].le(*item) && v@[k] != *item
            &&& r.0 < v@.len() ==> item.le(v@[r.0 as int]) && v@[r.0 as int] != *item
        },
{
    let n = v.len();
    let mut i: usize = 0;
    while i < n
        invariant
            n == v@.len(),
            i <= n,
            strictly_sorted(v@),
            forall|k: int| 0 <= k < i ==> v@[k].le(*item) && v@[k] != *item,
        decreases n - i,
    {
        match v[i].cmp_with(item) {
            Ordering::Less => {
                i = i + 1;
            },
            Ordering::Equal => {
                return (i, true);
            },
            Ordering::Greater => {
                return (i, false);
            },
        }
    }
    (i, false)
}

/// Inserts `item` into a strictly sorted vector, keeping it strictly sorted;
/// an item equal to one already present is dropped, so the vector's set of
/// items gains `item` and nothing else.
fn insert_sorted<T: TotalOrder>(v: &mut Vec<T>, item: T)
    requires
        strictly_sorted(old(v)@),
    ensures
        strictly_sorted(final(v)@),
        final(v)@.to_set() == old(v)@.to_set().insert(item),
{
    let (i, found) = lower_index(v, &item);
    if found {
        proof {
            assert(v@.contains(item));
            assert(v@.to_set() =~= v@.to_set().insert(item));
        }
        return;
    }
    let ghost prior = v@;
    v.insert(i, item);
    proof {
        prior.insert_ensures(i as int, item);
        let w = v@;
        assert forall|p: int, q: int| 0 <= p < q < w.len() implies (#[trigger] w[p].le(w[q]))
            && w[p] != w[q] by {
            if q < i {
                assert(w[p] == prior[p] && w[q] == prior[q]);
            } else if q == i {
                assert(w[p] == prior[p]);
            } else if p < i {
                assert(w[p] == prior[p] && w[q] == prior[q - 1]);
                if p == q - 1 {
                    assert(prior[p].le(item) && prior[p] != item);
                    assert(item.le(prior[p]) && prior[p] != item) by {
                        assert(i < prior.len());
                    }
                    T::lemma_le_antisymmetric(prior[p], item);
                    assert(false);
                }
            } else if p == i {
                assert(w[p] == item && w[q] == prior[q - 1]);
                assert(i < prior.len());
                assert(item.le(prior[i as int]) && prior[i as int] != item);
                if q - 1 > i {
                    assert(prior[i as int].le(prior[q - 1]));
                    T::lemma_le_transitive(item, prior[i as int], prior[q - 1]);
                    if item == prior[q - 1] {
                        T::lemma_le_antisymmetric(item, prior[i as int]);
                        assert(false);
                    }
                }
            } else {
                assert(w[p] == prior[p - 1] && w[q] == prior[q - 1]);
            }
        }
        assert(w.to_set() =~= prior.to_set().insert(item)) by {
            assert forall|x: T| w.contains(x) implies prior.contains(x) || x == item by {
                let k = choose|k: int| 0 <= k < w.len() && w[k] == x;
                if k < i {
                    assert(prior[k] == x);
                } else if k > i {
                    assert(prior[k - 1] == x);
                }
            }
            assert forall|x: T| prior.contains(x) implies w.contains(x) by {
                let k = choose|k: int| 0 <= k < prior.len() && prior[k] == x;
                if k < i {
                    assert(w[k] == x);
                } else {
                    assert(w[k + 1] == x);
                }
            }
            assert(w.contains(item)) by {
                assert(w[i as int] == item);
            }
        }
        assert(strictly_sorted(w));
    }
}

impl<T: TotalOrder> Block<T> {
    /// Initialize a new block: zero hash, zero nonce, and the content items
    /// gathered into an ordered set — strictly ascending in the natural
    /// order, holding exactly the distinct input items.
    pub fn new(
        index: u32,
        timestamp: i64,
        prev_block_hash: crate::hash::Hash,
        content: Vec<T>,
        difficulty: u128,
    ) -> (r: Block<T>)
        ensures
            r@.index == index,
            r@.timestamp == timestamp,
            r@.hash == zero_digest(),
            r@.prev_block_hash == prev_block_hash@,
            r@.nonce == 0,
            r@.difficulty == difficulty,
            strictly_sorted(r@.content),
            r@.content.to_set() == content@.to_set(),
            mined_or_unset(r@),
    {
        let ghost input = content@;
        let mut remaining = content;
        let mut sorted: Vec<T> = Vec::new();
        proof {
            assert(sorted@.to_set() =~= input.skip(input.len() as int).to_set());
            assert(input.take(input.len() as int) =~= input);
        }
        while remaining.len() > 0
            invariant
                remaining@.len() <= input.len(),
                remaining@ == input.take(remaining@.len() as int),
                strictly_sorted(sorted@),
                sorted@.to_set() == input.skip(remaining@.len() as int).to_set(),
            decreases remaining@.len(),
        {
            let ghost before = remaining@;
            match remaining.pop() {
                Some(item) => {
                    proof {
                        let k = (remaining@.len()) as int;
                        assert(remaining@ =~= input.take(k));
                        assert(item == before[k] && before[k] == input[k]);
                        assert(input.skip(k) == seq![input[k]] + input.skip(k + 1)) by {
                            assert(input.skip(k) =~= seq![input[k]] + input.skip(k + 1));
                        }
                        assert(item == input[k]);
                        assert forall|x: T| input.skip(k).contains(x) implies input.skip(k + 1).to_set().insert(
                            item,
                        ).contains(x) by {
                            let j = choose|j: int| 0 <= j < input.skip(k).len() && input.skip(k)[j] == x;
                            if j == 0 {
                                assert(x == item);
                            } else {
                                assert(input.skip(k + 1)[j - 1] == x);
                            }
                        }
                        assert forall|x: T| input.skip(k + 1).to_set().insert(item).contains(x) implies input.skip(
                            k,
                        ).contains(x) by {
                            if x == item {
                                assert(input.skip(k)[0] == item);
                            } else {
                                let j = choose|j: int|
                                    0 <= j < input.skip(k + 1).len() && #[trigger] input.skip(
                                        k + 1,
                                    )[j] == x;
                                assert(input.skip(k)[j + 1] == x);
                            }
                        }
                        assert(input.skip(k).to_set() =~= input.skip(k + 1).to_set().insert(item));
                    }
                    insert_sorted(&mut sorted, item);
                },
                None => {},
            }
        }
        proof {
            assert(input.skip(0) =~= input);
        }
        let r = Block {
            index,
            timestamp,
            hash: crate::hash::Hash::default(),
            prev_block_hash,
            nonce: 0,
            content: sorted,
            difficulty,
        };
        r
    }
}

impl<T> Block<T> {
    /// True exactly when the block's declared difficulty threshold is
    /// strictly above the digest's difficulty metric; such a digest proves
    /// the work.
    pub fn dificulty_is_higher_than(&self, hash: &crate::hash::Hash) -> (r: bool)
        ensures
            r == (self@.difficulty > difficulty_of(hash@)),
    {
        self.difficulty > hash.difficulty()
    }

    /// The block's sequence position.
    pub fn index(&self) -> (r: u32)
        ensures
            r == self@.index,
    {
        self.index
    }

    /// The block's creation time, in milliseconds since the epoch.
    pub fn timestamp(&self) -> (r: i64)
        ensures
            r == self@.timestamp,
    {
        self.timestamp
    }

    /// The block's stored digest: zero until a mining run succeeds.
    pub fn stored_hash(&self) -> (r: crate::hash::Hash)
        ensures
            r@ == self@.hash,
    {
        self.hash
    }

    /// The digest of the previous block, as supplied at construction.
    pub fn prev_block_hash(&self) -> (r: crate::hash::Hash)
        ensures
            r@ == self@.prev_block_hash,
    {
        self.prev_block_hash
    }

    /// The nonce found by mining, or zero before any search.
    pub fn nonce(&self) -> (r: u64)
        ensures
            r == self@.nonce,
    {
        self.nonce
    }

    /// The block's content items, in ascending natural order.
    pub fn content(&self) -> (r: &Vec<T>)
        ensures
            r@ == self@.content,
    {
        &self.content
    }

    /// The block's declared difficulty threshold.
    pub fn difficulty(&self) -> (r: u128)
        ensures
            r == self@.difficulty,
    {
        self.difficulty
    }
}

impl<T: Hashable> Hashable for Block<T> {
    open spec fn bytes_spec(&self) -> Seq<u8> {
        block_serial(self@)
    }

    fn bytes(&self) -> (r: Vec<u8>) {
        let mut buf: Vec<u8> = Vec::new();
        push_be_u32(&mut buf, self.index);
        push_be_u64(&mut buf, to_two_complement_u64(self.timestamp));
        let prev = self.prev_block_hash.bytes();
        buf.extend_from_slice(prev.as_slice());
        push_be_u64(&mut buf, self.nonce);
        let ghost header = buf@;
        let n = self.content.len();
        for i in 0..n
            invariant
                n == self.content@.len(),
                buf@ == header + items_bytes(self.content@.take(i as int)),
        {
            let mut item_bytes = self.content[i].bytes();
            buf.append(&mut item_bytes);
            proof {
                let taken = self.content@.take(i + 1);
                assert(taken.drop_last() == self.content@.take(i as int)) by {
                    assert(taken.drop_last() =~= self.content@.take(i as int));
                }
                assert(taken.last() == self.content@[i as int]);
            }
        }
        proof {
            assert(self.content@.take(n as int) == self.content@) by {
                assert(self.content@.take(n as int) =~= self.content@);
            }
        }
        push_be_u128(&mut buf, self.difficulty);
        proof {
            assert(buf@ =~= block_serial(self@));
        }
        buf
    }
}

impl<T: Hashable> Block<T> {
    /// Searches nonces 0 up to (but not including) `limit` for one whose
    /// digest beats the difficulty threshold. On the first success the
    /// winning digest is stored, the nonce is left at the winning value and
    /// the search reports success; when no nonce below `limit` wins, the
    /// stored hash is untouched and the search reports failure. Nothing but
    /// the nonce and the stored hash is changed.
    pub fn mine_bounded(&mut self, limit: u64) -> (found: bool)
        ensures
            final(self)@.index == old(self)@.index,
            final(self)@.timestamp == old(self)@.timestamp,
            final(self)@.prev_block_hash == old(self)@.prev_block_hash,
            final(self)@.content == old(self)@.content,
            final(self)@.difficulty == old(self)@.difficulty,
            found ==> {
                &&& nonce_wins(old(self)@, final(self)@.nonce)
                &&& forall|m: u64| m < final(self)@.nonce ==> !nonce_wins(old(self)@, m)
                &&& final(self)@.nonce < limit
                &&& final(self)@.hash == sha256_of(block_serial(final(self)@))
                &&& final(self)@.difficulty > difficulty_of(final(self)@.hash)
            },
            !found ==> {
                &&& forall|m: u64| m < limit ==> !nonce_wins(old(self)@, m)
                &&& final(self)@.hash == old(self)@.hash
                &&& final(self)@.nonce == if limit > 0 {
                    (limit - 1) as u64
                } else {
                    old(self)@.nonce
                }
            },
            mined_or_unset(old(self)@) ==> mined_or_unset(final(self)@),
    {
        let mut nonce: u64 = 0;
        while nonce < limit
            invariant
                self@.index == old(self)@.index,
                self@.timestamp == old(self)@.timestamp,
                self@.prev_block_hash == old(self)@.prev_block_hash,
                self@.content == old(self)@.content,
                self@.difficulty == old(self)@.difficulty,
                self@.hash == old(self)@.hash,
                nonce <= limit,
                self@.nonce == if nonce > 0 {
                    (nonce - 1) as u64
                } else {
                    old(self)@.nonce
                },
                forall|m: u64| m < nonce ==> !nonce_wins(old(self)@, m),
            decreases limit - nonce,
        {
            self.nonce = nonce;
            proof {
                assert(self@ =~= with_nonce(old(self)@, nonce));
            }
            let ghost attempt = self@;
            let digest = self.hash();
            if self.dificulty_is_higher_than(&digest) {
                self.hash = digest;
                proof {
                    assert(block_serial(self@) == block_serial(attempt));
                }
                return true;
            }
            nonce = nonce + 1;
        }
        false
    }

    /// Solve the mathematical problem to issue the block: scan the whole
    /// nonce space from 0 upward, rehashing until a digest beats the
    /// difficulty threshold. Reports whether a winning nonce was found; with
    /// none in the entire space, the block is left unmined.
    pub fn mine(&mut self) -> (found: bool)
        ensures
            final(self)@.index == old(self)@.index,
            final(self)@.timestamp == old(self)@.timestamp,
            final(self)@.prev_block_hash == old(self)@.prev_block_hash,
            final(self)@.content == old(self)@.content,
            final(self)@.difficulty == old(self)@.difficulty,
            found ==> {
                &&& nonce_wins(old(self)@, final(self)@.nonce)
                &&& forall|m: u64| m < final(self)@.nonce ==> !nonce_wins(old(self)@, m)
                &&& final(self)@.hash == sha256_of(block_serial(final(self)@))
                &&& final(self)@.difficulty > difficulty_of(final(self)@.hash)
            },
            !found ==> {
                &&& forall|m: u64| m < u64::MAX ==> !nonce_wins(old(self)@, m)
                &&& final(self)@.hash == old(self)@.hash
                &&& final(self)@.nonce == u64::MAX - 1
            },
            mined_or_unset(old(self)@) ==> mined_or_unset(final(self)@),
    {
        self.mine_bounded(u64::MAX)
    }
}

/// A zero difficulty threshold accepts no digest at all: the metric is
/// unsigned, so no digest's metric lies strictly below zero and no nonce can
/// ever win on such a block — mining it must exhaust the searched space.
pub proof fn lemma_zero_difficulty_never_wins<T: Hashable>(m: BlockModel<T>, nonce: u64)
    requires
        m.difficulty == 0,
    ensures
        !nonce_wins(m, nonce),
{
}

/// Determinism: blocks with identical field values and identical content
/// sequences serialize to identical bytes and hash to identical digests. The
/// serialization and the digest are functions of the model alone; no call
/// can return two different results for one block state.
pub proof fn lemma_serialization_deterministic<T: Hashable>(m1: BlockModel<T>, m2: BlockModel<T>)
    requires
        m1.index == m2.index,
        m1.timestamp == m2.timestamp,
        m1.prev_block_hash == m2.prev_block_hash,
        m1.nonce == m2.nonce,
        m1.content == m2.content,
        m1.difficulty == m2.difficulty,
    ensures
        block_serial(m1) == block_serial(m2),
        sha256_of(block_serial(m1)) == sha256_of(block_serial(m2)),
{
}

/// Content ordering: blocks that agree on every scalar field and hold the
/// same set of content items have the same content sequence — the ordered
/// set depends on the items, not on the order they were given in — and so
/// serialize identically.
pub proof fn lemma_insertion_order_irrelevant<T: Hashable + TotalOrder>(
    m1: BlockModel<T>,
    m2: BlockModel<T>,
)
    requires
        m1.index == m2.index,
        m1.timestamp == m2.timestamp,
        m1.prev_block_hash == m2.prev_block_hash,
        m1.nonce == m2.nonce,
        m1.difficulty == m2.difficulty,
        strictly_sorted(m1.content),
        strictly_sorted(m2.content),
        m1.content.to_set() == m2.content.to_set(),
    ensures
        m1.content == m2.content,
        block_serial(m1) == block_serial(m2),
{
    crate::order::lemma_strictly_sorted_unique(m1.content, m2.content);
}

/// Deduplication: appending an item already among the input items leaves the
/// set of items unchanged, so the block built from the longer input carries
/// the same content — and the same serialized length — as the block built
/// without the repetition.
pub proof fn lemma_duplicate_item_ignored<T>(items: Seq<T>, x: T)
    requires
        items.to_set().contains(x),
    ensures
        items.push(x).to_set() == items.to_set(),
{
    assert(items.push(x).to_set() =~= items.to_set()) by {
        assert forall|y: T| items.push(x).contains(y) implies items.contains(y) by {
            let k = choose|k: int| 0 <= k < items.push(x).len() && items.push(x)[k] == y;
            if k < items.len() {
                assert(items[k] == y);
            } else {
                assert(y == x);
                assert(items.contains(x));
            }
        }
        assert forall|y: T| items.contains(y) implies items.push(x).contains(y) by {
            let k = choose|k: int| 0 <= k < items.len() && items[k] == y;
            assert(items.push(x)[k] == y);
        }
    }
}

/// Serialization order sensitivity: blocks differing in index, timestamp,
/// previous-block digest or nonce serialize differently, each field being
/// pinned at a fixed offset by an injective encoding; blocks with equal
/// content but different difficulty also serialize differently, the
/// difficulty being the last sixteen bytes. Content itself carries no length
/// framing, so two different content sets can in principle concatenate to
/// the same bytes; the claim is made per fixed-layout field.
pub proof fn lemma_serialization_field_sensitive<T: Hashable>(
    m1: BlockModel<T>,
    m2: BlockModel<T>,
)
    requires
        m1.prev_block_hash.len() == 32,
        m2.prev_block_hash.len() == 32,
    ensures
        m1.index != m2.index ==> block_serial(m1) != block_serial(m2),
        m1.timestamp != m2.timestamp ==> block_serial(m1) != block_serial(m2),
        m1.prev_block_hash != m2.prev_block_hash ==> block_serial(m1) != block_serial(m2),
        m1.nonce != m2.nonce ==> block_serial(m1) != block_serial(m2),
        m1.content == m2.content && m1.difficulty != m2.difficulty ==> block_serial(m1)
            != block_serial(m2),
{
    if block_serial(m1) == block_serial(m2) {
        lemma_block_serial_fields(m1);
        lemma_block_serial_fields(m2);
        let s1 = block_serial(m1);
        let s2 = block_serial(m2);
        assert(m1.index == m2.index) by {
            assert(s1.subrange(0, 4) == s2.subrange(0, 4));
            crate::encode::lemma_be_bytes_u32_injective(m1.index, m2.index);
        }
        assert(m1.timestamp == m2.timestamp) by {
            assert(s1.subrange(4, 12) == s2.subrange(4, 12));
            crate::encode::lemma_be_bytes_u64_injective(
                two_complement_u64(m1.timestamp),
                two_complement_u64(m2.timestamp),
            );
            crate::encode::lemma_two_complement_u64_injective(m1.timestamp, m2.timestamp);
        }
        assert(m1.prev_block_hash == m2.prev_block_hash) by {
            assert(s1.subrange(12, 44) == s2.subrange(12, 44));
        }
        assert(m1.nonce == m2.nonce) by {
            assert(s1.subrange(44, 52) == s2.subrange(44, 52));
            crate::encode::lemma_be_bytes_u64_injective(m1.nonce, m2.nonce);
        }
        if m1.content == m2.content {
            assert(m1.difficulty == m2.difficulty) by {
                assert(s1.len() == s2.len());
                assert(s1.subrange(s1.len() - 16, s1.len() as int) == s2.subrange(
                    s2.len() - 16,
                    s2.len() as int,
                ));
                crate::encode::lemma_be_bytes_u128_injective(m1.difficulty, m2.difficulty);
            }
        }
    }
}

/// Each fixed-layout field of the serialization sits at its own offset: the
/// leading 52 bytes split into the encoded index, timestamp, previous-block
/// digest and nonce, and the trailing 16 bytes are the encoded difficulty.
proof fn lemma_block_serial_fields<T: Hashable>(m: BlockModel<T>)
    requires
        m.prev_block_hash.len() == 32,
    ensures
        block_serial(m).len() == 68 + items_bytes(m.content).len(),
        block_serial(m).subrange(0, 4) == be_bytes_u32(m.index),
        block_serial(m).subrange(4, 12) == be_bytes_u64(two_complement_u64(m.timestamp)),
        block_serial(m).subrange(12, 44) == m.prev_block_hash,
        block_serial(m).subrange(44, 52) == be_bytes_u64(m.nonce),
        block_serial(m).subrange(
            block_serial(m).len() - 16,
            block_serial(m).len() as int,
        ) == be_bytes_u128(m.difficulty),
{
    let s = block_serial(m);
    assert(s.subrange(0, 4) =~= be_bytes_u32(m.index));
    assert(s.subrange(4, 12) =~= be_bytes_u64(two_complement_u64(m.timestamp)));
    assert(s.subrange(12, 44) =~= m.prev_block_hash);
    assert(s.subrange(44, 52) =~= be_bytes_u64(m.nonce));
    assert(s.subrange(s.len() - 16, s.len() as int) =~= be_bytes_u128(m.difficulty));
}

} // verus!
