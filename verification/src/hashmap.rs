//! A hash map with FNV-1a hashing and separate chaining.
use vstd::prelude::*;
use vstd::string::StringSliceAdditionalSpecFns;

verus! {

pub const FNV_INITIAL_STATE: u64 = 0xcbf2_9ce4_8422_2325;

pub const FNV_PRIME: u64 = 0x0100_0000_01b3;

/// One FNV-1a round: xor in the byte, multiply by the prime modulo 2^64.
pub open spec fn fnv_step(state: u64, b: u8) -> u64 {
    ((((state ^ (b as u64)) as nat) * (FNV_PRIME as nat)) % 0x1_0000_0000_0000_0000nat) as u64
}

/// The FNV-1a state after feeding `bytes` to `state`.
pub open spec fn fnv(state: u64, bytes: Seq<u8>) -> u64
    decreases bytes.len(),
{
    if bytes.len() == 0 {
        state
    } else {
        fnv_step(fnv(state, bytes.drop_last()), bytes.last())
    }
}

/// The 64-bit FNV-1a hash of `bytes`.
pub open spec fn fnv1a(bytes: Seq<u8>) -> u64 {
    fnv(FNV_INITIAL_STATE, bytes)
}

/// The 64-bit FNV-1a hasher.
pub struct FNV1aHasher(pub u64);

impl FNV1aHasher {
    pub fn new() -> (r: Self)
        ensures
            r.0 == FNV_INITIAL_STATE,
    {
        Self(FNV_INITIAL_STATE)
    }

    /// Feeds `bytes` to the hasher.
    pub fn write(&mut self, bytes: &[u8])
        ensures
            final(self).0 == fnv(old(self).0, bytes@),
    {
        let mut i: usize = 0;
        while i < bytes.len()
            invariant
                i <= bytes@.len(),
                self.0 == fnv(old(self).0, bytes@.take(i as int)),
            decreases bytes@.len() - i,
        {
            let b = bytes[i];
            self.0 = self.0 ^ (b as u64);
            self.0 = self.0.wrapping_mul(FNV_PRIME);
            proof {
                assert(bytes@.take(i + 1).drop_last() =~= bytes@.take(i as int));
            }
            i = i + 1;
        }
        assert(bytes@.take(i as int) =~= bytes@);
    }

    /// The hash of what was fed so far.
    pub fn finish(&self) -> (r: u64)
        ensures
            r == self.0,
    {
        self.0
    }
}

impl Default for FNV1aHasher {
    fn default() -> (r: Self)
        ensures
            r.0 == FNV_INITIAL_STATE,
    {
        Self(FNV_INITIAL_STATE)
    }
}

/// A key of the map: the bytes it hashes to, which also tell keys apart.
pub trait HashKey {
    spec fn key_bytes(&self) -> Seq<u8>;

    /// The bytes that are fed to the hasher.
    fn hash_bytes(&self) -> (r: Vec<u8>)
        ensures
            r@ == self.key_bytes(),
    ;

    /// Whether the two keys are the same.
    fn key_eq(&self, other: &Self) -> (r: bool)
        ensures
            r == (self.key_bytes() == other.key_bytes()),
    ;
}

/// The bytes of a string slice, closed by `0xff` as `str` hashes itself.
impl<'a> HashKey for &'a str {
    open spec fn key_bytes(&self) -> Seq<u8> {
        (**self).spec_bytes().push(0xffu8)
    }

    fn hash_bytes(&self) -> (r: Vec<u8>) {
        let b = self.as_bytes();
        let mut v: Vec<u8> = Vec::new();
        let mut i: usize = 0;
        while i < b.len()
            invariant
                i <= b@.len(),
                v@ == b@.take(i as int),
            decreases b@.len() - i,
        {
            v.push(b[i]);
            proof {
                assert(b@.take(i + 1) =~= b@.take(i as int).push(b@[i as int]));
            }
            i = i + 1;
        }
        assert(b@.take(i as int) =~= b@);
        v.push(0xff);
        v
    }

    fn key_eq(&self, other: &Self) -> (r: bool) {
        let a = self.as_bytes();
        let b = other.as_bytes();
        assert(a@ == (**self).spec_bytes());
        assert(b@ == (**other).spec_bytes());
        if a.len() != b.len() {
            proof {
                assert(self.key_bytes().len() != other.key_bytes().len());
            }
            return false;
        }
        let mut i: usize = 0;
        while i < a.len()
            invariant
                a@ == (**self).spec_bytes(),
                b@ == (**other).spec_bytes(),
                a@.len() == b@.len(),
                i <= a@.len(),
                a@.take(i as int) == b@.take(i as int),
            decreases a@.len() - i,
        {
            if a[i] != b[i] {
                proof {
                    assert(self.key_bytes()[i as int] != other.key_bytes()[i as int]);
                }
                return false;
            }
            proof {
                assert(a@.take(i + 1) =~= a@.take(i as int).push(a@[i as int]));
                assert(b@.take(i + 1) =~= b@.take(i as int).push(b@[i as int]));
            }
            i = i + 1;
        }
        assert(a@.take(i as int) =~= a@);
        assert(b@.take(i as int) =~= b@);
        true
    }
}

/// Two string keys have the same bytes exactly when they hold the same
/// characters: UTF-8 encoding tells strings apart.
pub proof fn lemma_str_keys_tell_apart(a: &str, b: &str)
    ensures
        (a.key_bytes() == b.key_bytes()) == (a@ == b@),
{
    if a.key_bytes() == b.key_bytes() {
        assert((*a).spec_bytes() =~= a.key_bytes().drop_last());
        assert((*b).spec_bytes() =~= b.key_bytes().drop_last());
        vstd::utf8::encode_utf8_decode_utf8(a@);
        vstd::utf8::encode_utf8_decode_utf8(b@);
    }
}

/// The four bytes of an `i32`, least significant first.
impl HashKey for i32 {
    open spec fn key_bytes(&self) -> Seq<u8> {
        let x = *self as u32;
        seq![(x & 0xff) as u8, ((x >> 8u32) & 0xff) as u8, ((x >> 16u32) & 0xff) as u8, ((x >> 24u32) & 0xff) as u8]
    }

    fn hash_bytes(&self) -> (r: Vec<u8>) {
        let x = *self as u32;
        let v = vec![(x & 0xff) as u8, ((x >> 8u32) & 0xff) as u8, ((x >> 16u32) & 0xff) as u8, ((x >> 24u32) & 0xff) as u8];
        assert(v@ =~= self.key_bytes());
        v
    }

    fn key_eq(&self, other: &Self) -> (r: bool) {
        proof {
            lemma_i32_keys_tell_apart(*self, *other);
        }
        *self == *other
    }
}

/// Two `i32` keys have the same bytes exactly when they are equal.
pub proof fn lemma_i32_keys_tell_apart(p: i32, q: i32)
    ensures
        (p.key_bytes() == q.key_bytes()) == (p == q),
{
    let x = p as u32;
    let y = q as u32;
    assert(((x & 0xff) == (y & 0xff) && ((x >> 8u32) & 0xff) == ((y >> 8u32) & 0xff) && ((x
        >> 16u32) & 0xff) == ((y >> 16u32) & 0xff) && ((x >> 24u32) & 0xff) == ((y >> 24u32)
        & 0xff)) == (x == y)) by (bit_vector);
    assert((x & 0xff) < 256 && ((x >> 8u32) & 0xff) < 256 && ((x >> 16u32) & 0xff) < 256
        && ((x >> 24u32) & 0xff) < 256) by (bit_vector);
    assert((y & 0xff) < 256 && ((y >> 8u32) & 0xff) < 256 && ((y >> 16u32) & 0xff) < 256
        && ((y >> 24u32) & 0xff) < 256) by (bit_vector);
    if p.key_bytes() == q.key_bytes() {
        assert(p.key_bytes()[0] == q.key_bytes()[0]);
        assert(p.key_bytes()[1] == q.key_bytes()[1]);
        assert(p.key_bytes()[2] == q.key_bytes()[2]);
        assert(p.key_bytes()[3] == q.key_bytes()[3]);
    }
    if x == y {
        assert(p.key_bytes() =~= q.key_bytes());
    }
    assert((p as u32 == q as u32) == (p == q)) by (bit_vector);
}

/// The byte `k` (least significant first) of `x`.
pub open spec fn byte_of(x: u64, k: u64) -> u8 {
    ((x >> (8 * k)) & 0xff) as u8
}

/// The eight bytes of a `u64`, least significant first.
impl HashKey for u64 {
    open spec fn key_bytes(&self) -> Seq<u8> {
        seq![byte_of(*self, 0), byte_of(*self, 1), byte_of(*self, 2), byte_of(*self, 3),
            byte_of(*self, 4), byte_of(*self, 5), byte_of(*self, 6), byte_of(*self, 7)]
    }

    fn hash_bytes(&self) -> (r: Vec<u8>) {
        let x = *self;
        let v = vec![(x & 0xff) as u8, ((x >> 8u64) & 0xff) as u8, ((x >> 16u64) & 0xff) as u8,
            ((x >> 24u64) & 0xff) as u8, ((x >> 32u64) & 0xff) as u8, ((x >> 40u64) & 0xff) as u8,
            ((x >> 48u64) & 0xff) as u8, ((x >> 56u64) & 0xff) as u8];
        proof {
            assert(x >> 0u64 == x) by (bit_vector);
        }
        assert(v@ =~= self.key_bytes());
        v
    }

    fn key_eq(&self, other: &Self) -> (r: bool) {
        proof {
            lemma_u64_keys_tell_apart(*self, *other);
        }
        *self == *other
    }
}

/// Two `u64` keys have the same bytes exactly when they are equal.
pub proof fn lemma_u64_keys_tell_apart(x: u64, y: u64)
    ensures
        (x.key_bytes() == y.key_bytes()) == (x == y),
{
    lemma_bytes_of_u64(x);
    lemma_bytes_of_u64(y);
    if x.key_bytes() == y.key_bytes() {
        assert(x.key_bytes()[0] == y.key_bytes()[0]);
        assert(x.key_bytes()[1] == y.key_bytes()[1]);
        assert(x.key_bytes()[2] == y.key_bytes()[2]);
        assert(x.key_bytes()[3] == y.key_bytes()[3]);
        assert(x.key_bytes()[4] == y.key_bytes()[4]);
        assert(x.key_bytes()[5] == y.key_bytes()[5]);
        assert(x.key_bytes()[6] == y.key_bytes()[6]);
        assert(x.key_bytes()[7] == y.key_bytes()[7]);
        assert(((x & 0xff) == (y & 0xff) && ((x >> 8u64) & 0xff) == ((y >> 8u64) & 0xff)
            && ((x >> 16u64) & 0xff) == ((y >> 16u64) & 0xff) && ((x >> 24u64) & 0xff) == ((y
            >> 24u64) & 0xff) && ((x >> 32u64) & 0xff) == ((y >> 32u64) & 0xff) && ((x
            >> 40u64) & 0xff) == ((y >> 40u64) & 0xff) && ((x >> 48u64) & 0xff) == ((y
            >> 48u64) & 0xff) && ((x >> 56u64) & 0xff) == ((y >> 56u64) & 0xff)) ==> x == y)
            by (bit_vector);
    }
    if x == y {
        assert(x.key_bytes() =~= y.key_bytes());
    }
}

/// The bytes of a `u64` are its masked shifts.
proof fn lemma_bytes_of_u64(x: u64)
    ensures
        byte_of(x, 0) as u64 == x & 0xff,
        byte_of(x, 1) as u64 == (x >> 8u64) & 0xff,
        byte_of(x, 2) as u64 == (x >> 16u64) & 0xff,
        byte_of(x, 3) as u64 == (x >> 24u64) & 0xff,
        byte_of(x, 4) as u64 == (x >> 32u64) & 0xff,
        byte_of(x, 5) as u64 == (x >> 40u64) & 0xff,
        byte_of(x, 6) as u64 == (x >> 48u64) & 0xff,
        byte_of(x, 7) as u64 == (x >> 56u64) & 0xff,
{
    assert(x >> 0u64 == x) by (bit_vector);
    assert((x & 0xff) < 256 && ((x >> 8u64) & 0xff) < 256 && ((x >> 16u64) & 0xff) < 256 && ((x
        >> 24u64) & 0xff) < 256 && ((x >> 32u64) & 0xff) < 256 && ((x >> 40u64) & 0xff) < 256 && ((x
        >> 48u64) & 0xff) < 256 && ((x >> 56u64) & 0xff) < 256) by (bit_vector);
}

/// The bucket a key with hash bytes `kb` belongs to among `n` buckets.
pub open spec fn bucket_index(kb: Seq<u8>, n: nat) -> int {
    (fnv1a(kb) as int) % (n as int)
}

/// The items of `s` as popping them from its end hands them out.
spec fn popped_order<T>(s: Seq<T>) -> Seq<T>
    decreases s.len(),
{
    if s.len() == 0 {
        Seq::empty()
    } else {
        seq![s.last()] + popped_order(s.drop_last())
    }
}

/// The entries of the buckets from `b` on, each bucket emptied from its end.
spec fn drain_from<K, V>(buckets: Seq<Vec<(K, V)>>, b: int) -> Seq<(K, V)>
    decreases buckets.len() - b,
{
    if b < 0 || b >= buckets.len() {
        Seq::empty()
    } else {
        popped_order(buckets[b]@) + drain_from(buckets, b + 1)
    }
}

/// `popped_order` gives the items of `s` from the last to the first.
proof fn lemma_popped_order<T>(s: Seq<T>)
    ensures
        popped_order(s).len() == s.len(),
        forall|i: int| 0 <= i < s.len() ==> #[trigger] popped_order(s)[i] == s[s.len() - 1 - i],
    decreases s.len(),
{
    if s.len() > 0 {
        lemma_popped_order(s.drop_last());
        assert forall|i: int| 0 <= i < s.len() implies #[trigger] popped_order(s)[i] == s[s.len() - 1 - i] by {
            if i > 0 {
                assert(popped_order(s)[i] == popped_order(s.drop_last())[i - 1]);
            }
        }
    }
}

/// Where the entries of `drain_from(buckets, b)` sit: bucket and place in it.
spec fn drain_pos<K, V>(buckets: Seq<Vec<(K, V)>>, b: int) -> Seq<(int, int)>
    decreases buckets.len() - b,
{
    if b < 0 || b >= buckets.len() {
        Seq::empty()
    } else {
        Seq::new(buckets[b]@.len(), |i: int| (b, buckets[b]@.len() - 1 - i)) + drain_pos(buckets, b + 1)
    }
}

/// `drain_from` lists each entry of the buckets from `b` on once, at its place.
proof fn lemma_drain<K, V>(buckets: Seq<Vec<(K, V)>>, b: int)
    requires
        0 <= b <= buckets.len(),
    ensures
        drain_from(buckets, b).len() == drain_pos(buckets, b).len(),
        forall|t: int|
            0 <= t < drain_pos(buckets, b).len() ==> {
                let (x, y) = #[trigger] drain_pos(buckets, b)[t];
                &&& b <= x < buckets.len()
                &&& 0 <= y < buckets[x]@.len()
                &&& drain_from(buckets, b)[t] == buckets[x]@[y]
            },
        forall|x: int, y: int|
            b <= x < buckets.len() && 0 <= y < buckets[x]@.len() ==> #[trigger] lists(drain_pos(buckets, b), x, y),
        forall|t1: int, t2: int|
            0 <= t1 < t2 < drain_pos(buckets, b).len() ==> #[trigger] drain_pos(buckets, b)[t1]
                != #[trigger] drain_pos(buckets, b)[t2],
    decreases buckets.len() - b,
{
    if b < buckets.len() {
        lemma_drain(buckets, b + 1);
        lemma_popped_order(buckets[b]@);
        let l = buckets[b]@.len() as int;
        let head = Seq::new(buckets[b]@.len(), |i: int| (b, l - 1 - i));
        let pos = drain_pos(buckets, b);
        let rest = drain_pos(buckets, b + 1);
        assert(pos == head + rest);
        assert(drain_from(buckets, b) == popped_order(buckets[b]@) + drain_from(buckets, b + 1));
        assert forall|t: int| 0 <= t < pos.len() implies {
            let (x, y) = #[trigger] pos[t];
            &&& b <= x < buckets.len()
            &&& 0 <= y < buckets[x]@.len()
            &&& drain_from(buckets, b)[t] == buckets[x]@[y]
        } by {
            if t >= l {
                assert(pos[t] == rest[t - l]);
            }
        }
        assert forall|x: int, y: int| b <= x < buckets.len() && 0 <= y < buckets[x]@.len() implies #[trigger] lists(
            drain_pos(buckets, b),
            x,
            y,
        ) by {
            if x == b {
                assert(pos[l - 1 - y] == (x, y));
            } else {
                assert(lists(drain_pos(buckets, b + 1), x, y));
                let t = choose|t: int| 0 <= t < rest.len() && #[trigger] rest[t] == (x, y);
                assert(pos[t + l] == rest[t]);
            }
        }
        assert forall|t1: int, t2: int| 0 <= t1 < t2 < pos.len() implies #[trigger] pos[t1] != #[trigger] pos[t2] by {
            if t2 >= l {
                assert(pos[t2] == rest[t2 - l]);
                if t1 >= l {
                    assert(pos[t1] == rest[t1 - l]);
                }
            }
        }
    }
}

/// Buckets that agree from `b` on are drained alike from `b` on.
proof fn lemma_drain_from_agree<K, V>(b1: Seq<Vec<(K, V)>>, b2: Seq<Vec<(K, V)>>, b: int)
    requires
        b1.len() == b2.len(),
        forall|i: int| b <= i < b1.len() ==> #[trigger] b1[i]@ == b2[i]@,
    ensures
        drain_from(b1, b) == drain_from(b2, b),
    decreases b1.len() - b,
{
    if 0 <= b < b1.len() {
        lemma_drain_from_agree(b1, b2, b + 1);
        assert(b1[b]@ == b2[b]@);
    }
}

/// The entries of the buckets from `b` on, bucket after bucket.
spec fn flat<K, V>(buckets: Seq<Vec<(K, V)>>, b: int) -> Seq<(K, V)>
    decreases buckets.len() - b,
{
    if b < 0 || b >= buckets.len() {
        Seq::empty()
    } else {
        buckets[b]@ + flat(buckets, b + 1)
    }
}

/// Where the entries of `flat(buckets, b)` sit: bucket and place in it.
spec fn flat_pos<K, V>(buckets: Seq<Vec<(K, V)>>, b: int) -> Seq<(int, int)>
    decreases buckets.len() - b,
{
    if b < 0 || b >= buckets.len() {
        Seq::empty()
    } else {
        Seq::new(buckets[b]@.len(), |y: int| (b, y)) + flat_pos(buckets, b + 1)
    }
}

/// The entry `y` of bucket `x` has a place in `pos`.
spec fn lists(pos: Seq<(int, int)>, x: int, y: int) -> bool {
    exists|t: int| 0 <= t < pos.len() && #[trigger] pos[t] == (x, y)
}

/// `flat` lists each entry of the buckets from `b` on once, at its place.
proof fn lemma_flat<K, V>(buckets: Seq<Vec<(K, V)>>, b: int)
    requires
        0 <= b <= buckets.len(),
    ensures
        flat(buckets, b).len() == flat_pos(buckets, b).len(),
        forall|t: int|
            0 <= t < flat_pos(buckets, b).len() ==> {
                let (x, y) = #[trigger] flat_pos(buckets, b)[t];
                &&& b <= x < buckets.len()
                &&& 0 <= y < buckets[x]@.len()
                &&& flat(buckets, b)[t] == buckets[x]@[y]
            },
        forall|x: int, y: int|
            b <= x < buckets.len() && 0 <= y < buckets[x]@.len() ==> #[trigger] lists(flat_pos(buckets, b), x, y),
        forall|t1: int, t2: int|
            0 <= t1 < t2 < flat_pos(buckets, b).len() ==> #[trigger] flat_pos(buckets, b)[t1]
                != #[trigger] flat_pos(buckets, b)[t2],
    decreases buckets.len() - b,
{
    if b < buckets.len() {
        lemma_flat(buckets, b + 1);
        let head = Seq::new(buckets[b]@.len(), |y: int| (b, y));
        let pos = flat_pos(buckets, b);
        let rest = flat_pos(buckets, b + 1);
        let l = buckets[b]@.len() as int;
        assert(pos == head + rest);
        assert(flat(buckets, b) == buckets[b]@ + flat(buckets, b + 1));
        assert forall|t: int| 0 <= t < pos.len() implies {
            let (x, y) = #[trigger] pos[t];
            &&& b <= x < buckets.len()
            &&& 0 <= y < buckets[x]@.len()
            &&& flat(buckets, b)[t] == buckets[x]@[y]
        } by {
            if t >= l {
                assert(pos[t] == rest[t - l]);
            }
        }
        assert forall|x: int, y: int| b <= x < buckets.len() && 0 <= y < buckets[x]@.len() implies #[trigger] lists(flat_pos(buckets, b), x, y) by {
            if x == b {
                assert(pos[y] == (x, y));
            } else {
                assert(lists(flat_pos(buckets, b + 1), x, y));
                let t = choose|t: int| 0 <= t < rest.len() && #[trigger] rest[t] == (x, y);
                assert(pos[t + l] == rest[t]);
            }
        }
        assert forall|t1: int, t2: int| 0 <= t1 < t2 < pos.len() implies #[trigger] pos[t1] != #[trigger] pos[t2] by {
            if t2 >= l {
                assert(pos[t2] == rest[t2 - l]);
                if t1 >= l {
                    assert(pos[t1] == rest[t1 - l]);
                }
            }
        }
    }
}

/// A map from keys to values, with at most one entry per key.
pub struct HashMap<K, V> {
    buckets: Vec<Vec<(K, V)>>,
    entry_cnt: usize,
    keys: Ghost<Set<Seq<u8>>>,
}

/// The position in `bucket` of the entry whose key has the hash bytes `kb`.
spec fn entry_position<K: HashKey, V>(bucket: Seq<(K, V)>, kb: Seq<u8>) -> int {
    choose|j: int| 0 <= j < bucket.len() && (#[trigger] bucket[j]).0.key_bytes() == kb
}

impl<K: HashKey, V> HashMap<K, V> {
    /// The value of the entry with key bytes `kb`, found in its bucket.
    spec fn value_of(&self, kb: Seq<u8>) -> V {
        let bucket = self.buckets@[bucket_index(kb, self.buckets@.len())]@;
        bucket[entry_position(bucket, kb)].1
    }

    /// The map as the keys' hash bytes to values.
    pub closed spec fn view(&self) -> Map<Seq<u8>, V> {
        self.keys@.mk_map(|kb: Seq<u8>| self.value_of(kb))
    }

    /// The first position at or after entry `j` of bucket `b`, in bucket
    /// order, that holds an entry.
    pub closed spec fn next_occupied(&self, b: int, j: int) -> Option<(int, int)>
        decreases self.buckets_len() - b,
    {
        if b < 0 || b >= self.buckets@.len() {
            None
        } else if 0 <= j < self.buckets@[b]@.len() {
            Some((b, j))
        } else {
            self.next_occupied(b + 1, 0)
        }
    }

    /// The entry `j` of bucket `b`.
    pub closed spec fn entry_at(&self, b: int, j: int) -> (K, V) {
        self.buckets@[b]@[j]
    }

    /// The entries in the order in which taking the map apart hands them out.
    pub closed spec fn drain_order(&self) -> Seq<(K, V)> {
        drain_from(self.buckets@, 0)
    }

    /// The entries in the order in which walking the map hands them out.
    pub closed spec fn walk_order(&self) -> Seq<(K, V)> {
        flat(self.buckets@, 0)
    }

    /// A listing `w` of entries, the entry `t` being the entry `pos[t]` of the
    /// buckets, that lists each entry of the buckets once, lists each entry
    /// of the map once: as many as the map has, no key twice, each key of
    /// the map, each with its value.
    proof fn lemma_listing(&self, w: Seq<(K, V)>, pos: Seq<(int, int)>)
        requires
            self.wf(),
            w.len() == pos.len(),
            forall|t: int|
                0 <= t < pos.len() ==> {
                    let (x, y) = #[trigger] pos[t];
                    &&& 0 <= x < self.buckets@.len()
                    &&& 0 <= y < self.buckets@[x]@.len()
                    &&& w[t] == self.buckets@[x]@[y]
                },
            forall|x: int, y: int|
                0 <= x < self.buckets@.len() && 0 <= y < self.buckets@[x]@.len() ==> #[trigger] lists(pos, x, y),
            forall|t1: int, t2: int| 0 <= t1 < t2 < pos.len() ==> #[trigger] pos[t1] != #[trigger] pos[t2],
        ensures
            w.len() == self.len_spec(),
            forall|i: int, j: int|
                0 <= i < j < w.len() ==> (#[trigger] w[i]).0.key_bytes()
                    != (#[trigger] w[j]).0.key_bytes(),
            forall|i: int|
                0 <= i < w.len() ==> self@.contains_key((#[trigger] w[i]).0.key_bytes())
                    && self@[w[i].0.key_bytes()] == w[i].1,
            forall|kb: Seq<u8>|
                #[trigger] self@.contains_key(kb) ==> exists|i: int|
                    0 <= i < w.len() && (#[trigger] w[i]).0.key_bytes() == kb,
    {
        let bs = self.buckets@;
        assert forall|i: int| 0 <= i < w.len() implies self@.contains_key((#[trigger] w[i]).0.key_bytes())
            && self@[w[i].0.key_bytes()] == w[i].1 by {
            let (x, y) = pos[i];
            self.lemma_value_at(x, y);
        }
        assert forall|i: int, j: int| 0 <= i < j < w.len() implies (#[trigger] w[i]).0.key_bytes()
            != (#[trigger] w[j]).0.key_bytes() by {
            let (x1, y1) = pos[i];
            let (x2, y2) = pos[j];
            assert(pos[i] != pos[j]);
            if x1 == x2 {
                if y1 < y2 {
                    assert(bs[x1]@[y1].0.key_bytes() != bs[x1]@[y2].0.key_bytes());
                } else {
                    assert(bs[x1]@[y2].0.key_bytes() != bs[x1]@[y1].0.key_bytes());
                }
            } else {
                assert(bucket_index(bs[x1]@[y1].0.key_bytes(), bs.len()) == x1);
                assert(bucket_index(bs[x2]@[y2].0.key_bytes(), bs.len()) == x2);
            }
        }
        assert forall|kb: Seq<u8>| #[trigger] self@.contains_key(kb) implies exists|i: int|
            0 <= i < w.len() && (#[trigger] w[i]).0.key_bytes() == kb by {
            assert(self.keys@.contains(kb));
            let x = bucket_index(kb, bs.len());
            let y = choose|y: int| 0 <= y < bs[x]@.len() && (#[trigger] bs[x]@[y]).0.key_bytes() == kb;
            assert(lists(pos, x, y));
            let t = choose|t: int| 0 <= t < pos.len() && #[trigger] pos[t] == (x, y);
            assert(w[t] == bs[x]@[y]);
        }
        let ks = w.map_values(|e: (K, V)| e.0.key_bytes());
        assert(ks.no_duplicates()) by {
            assert forall|i: int, j: int| 0 <= i < ks.len() && 0 <= j < ks.len() && i != j implies ks[i] != ks[j] by {
                if i < j {
                    assert(w[i].0.key_bytes() != w[j].0.key_bytes());
                } else {
                    assert(w[j].0.key_bytes() != w[i].0.key_bytes());
                }
            }
        }
        ks.unique_seq_to_set();
        assert(ks.to_set() =~= self.keys@) by {
            assert forall|kb: Seq<u8>| ks.to_set().contains(kb) implies self.keys@.contains(kb) by {
                let i = choose|i: int| 0 <= i < ks.len() && ks[i] == kb;
                assert(self@.contains_key(w[i].0.key_bytes()));
            }
            assert forall|kb: Seq<u8>| self.keys@.contains(kb) implies ks.to_set().contains(kb) by {
                assert(self@.contains_key(kb));
                let i = choose|i: int| 0 <= i < w.len() && (#[trigger] w[i]).0.key_bytes() == kb;
                assert(ks[i] == kb);
            }
        }
    }


    /// Walking the map hands out each of its entries once: as many as it
    /// has, no key twice, each key of the map, each with its value.
    pub proof fn lemma_walk_order(&self)
        requires
            self.wf(),
        ensures
            self.walk_order().len() == self.len_spec(),
            forall|i: int, j: int|
                0 <= i < j < self.walk_order().len() ==> (#[trigger] self.walk_order()[i]).0.key_bytes()
                    != (#[trigger] self.walk_order()[j]).0.key_bytes(),
            forall|i: int|
                0 <= i < self.walk_order().len() ==> self@.contains_key((#[trigger] self.walk_order()[i]).0.key_bytes())
                    && self@[self.walk_order()[i].0.key_bytes()] == self.walk_order()[i].1,
            forall|kb: Seq<u8>|
                #[trigger] self@.contains_key(kb) ==> exists|i: int|
                    0 <= i < self.walk_order().len() && (#[trigger] self.walk_order()[i]).0.key_bytes() == kb,
    {
        lemma_flat(self.buckets@, 0);
        self.lemma_listing(flat(self.buckets@, 0), flat_pos(self.buckets@, 0));
    }

    /// Taking the map apart hands out each of its entries once: as many as
    /// it has, no key twice, each key of the map, each with its value.
    pub proof fn lemma_drain_order(&self)
        requires
            self.wf(),
        ensures
            self.drain_order().len() == self.len_spec(),
            forall|i: int, j: int|
                0 <= i < j < self.drain_order().len() ==> (#[trigger] self.drain_order()[i]).0.key_bytes()
                    != (#[trigger] self.drain_order()[j]).0.key_bytes(),
            forall|i: int|
                0 <= i < self.drain_order().len() ==> self@.contains_key((#[trigger] self.drain_order()[i]).0.key_bytes())
                    && self@[self.drain_order()[i].0.key_bytes()] == self.drain_order()[i].1,
            forall|kb: Seq<u8>|
                #[trigger] self@.contains_key(kb) ==> exists|i: int|
                    0 <= i < self.drain_order().len() && (#[trigger] self.drain_order()[i]).0.key_bytes() == kb,
    {
        lemma_drain(self.buckets@, 0);
        self.lemma_listing(drain_from(self.buckets@, 0), drain_pos(self.buckets@, 0));
    }

    /// The number of buckets.
    pub closed spec fn buckets_len(&self) -> nat {
        self.buckets@.len()
    }

    /// The number of entries.
    pub closed spec fn len_spec(&self) -> nat {
        self.entry_cnt as nat
    }

    /// The map's invariant: each entry sits in the bucket of its key, no key
    /// occurs twice in a bucket, and the keys of the entries are the map's keys.
    pub closed spec fn wf(&self) -> bool {
        let b = self.buckets@;
        let n = b.len();
        &&& n <= 2
        &&& forall|i: int, j: int|
            0 <= i < n && 0 <= j < b[i]@.len() ==> bucket_index(#[trigger] b[i]@[j].0.key_bytes(), n) == i
        &&& forall|i: int, j: int, k: int|
            0 <= i < n && 0 <= j < k < b[i]@.len() ==> #[trigger] b[i]@[j].0.key_bytes()
                != #[trigger] b[i]@[k].0.key_bytes()
        &&& forall|i: int, j: int|
            0 <= i < n && 0 <= j < b[i]@.len() ==> self.keys@.contains(#[trigger] b[i]@[j].0.key_bytes())
        &&& forall|kb: Seq<u8>|
            #[trigger] self.keys@.contains(kb) ==> n > 0 && exists|j: int|
                0 <= j < b[bucket_index(kb, n)]@.len() && (#[trigger] b[bucket_index(kb, n)]@[j]).0.key_bytes()
                    == kb
        &&& self.keys@.finite()
        &&& self.keys@.len() == self.entry_cnt
    }

    /// The entry at `(i, j)` is the map's entry for its key.
    proof fn lemma_value_at(&self, i: int, j: int)
        requires
            self.wf(),
            0 <= i < self.buckets@.len(),
            0 <= j < self.buckets@[i]@.len(),
        ensures
            self@.contains_key(self.buckets@[i]@[j].0.key_bytes()),
            self@[self.buckets@[i]@[j].0.key_bytes()] == self.buckets@[i]@[j].1,
    {
        let b = self.buckets@;
        let kb = b[i]@[j].0.key_bytes();
        assert(bucket_index(kb, b.len()) == i);
        assert(self.keys@.contains(kb));
        let bucket = b[i]@;
        assert(bucket[j].0.key_bytes() == kb);
        let p = entry_position(bucket, kb);
        assert(0 <= p < bucket.len() && bucket[p].0.key_bytes() == kb);
        if p < j {
            assert(b[i]@[p].0.key_bytes() != b[i]@[j].0.key_bytes());
        } else if j < p {
            assert(b[i]@[j].0.key_bytes() != b[i]@[p].0.key_bytes());
        }
    }

    /// `b` is `a` with the value of the entry at `(i, j)` replaced by `nv`.
    spec fn value_replaced(a: Self, b: Self, i: int, j: int, nv: V) -> bool {
        &&& b.keys@ == a.keys@
        &&& b.entry_cnt == a.entry_cnt
        &&& b.buckets@.len() == a.buckets@.len()
        &&& 0 <= i < a.buckets@.len()
        &&& 0 <= j < a.buckets@[i]@.len()
        &&& b.buckets@[i]@ == a.buckets@[i]@.update(j, (a.buckets@[i]@[j].0, nv))
        &&& forall|x: int| 0 <= x < a.buckets@.len() && x != i ==> #[trigger] b.buckets@[x]@ == a.buckets@[x]@
    }

    /// Replacing the value of one entry keeps the invariant and sets that key's value.
    proof fn lemma_value_replaced(a: Self, b: Self, i: int, j: int, nv: V)
        requires
            a.wf(),
            Self::value_replaced(a, b, i, j, nv),
        ensures
            b.wf(),
            b@ == a@.insert(a.buckets@[i]@[j].0.key_bytes(), nv),
            b.len_spec() == a.len_spec(),
    {
        let ab = a.buckets@;
        let bb = b.buckets@;
        let n = ab.len();
        let kb = ab[i]@[j].0.key_bytes();
        assert forall|x: int, k: int| 0 <= x < n && 0 <= k < bb[x]@.len() implies #[trigger] bb[x]@[k].0
            == ab[x]@[k].0 && ab[x]@.len() == bb[x]@.len() by {
            if x != i {
                assert(bb[x]@ == ab[x]@);
            }
        }
        assert forall|x: int| 0 <= x < n implies #[trigger] bb[x]@.len() == ab[x]@.len() by {
            if x != i {
                assert(bb[x]@ == ab[x]@);
            }
        }
        assert forall|i2: int, k: int|
            0 <= i2 < n && 0 <= k < bb[i2]@.len() implies bucket_index(#[trigger] bb[i2]@[k].0.key_bytes(), n) == i2 by {
            assert(bb[i2]@[k].0 == ab[i2]@[k].0);
        }
        assert forall|i2: int, k: int, l: int|
            0 <= i2 < n && 0 <= k < l < bb[i2]@.len() implies #[trigger] bb[i2]@[k].0.key_bytes()
                != #[trigger] bb[i2]@[l].0.key_bytes() by {
            assert(bb[i2]@[k].0 == ab[i2]@[k].0);
            assert(bb[i2]@[l].0 == ab[i2]@[l].0);
        }
        assert forall|i2: int, k: int|
            0 <= i2 < n && 0 <= k < bb[i2]@.len() implies b.keys@.contains(#[trigger] bb[i2]@[k].0.key_bytes()) by {
            assert(bb[i2]@[k].0 == ab[i2]@[k].0);
        }
        assert forall|kb2: Seq<u8>| #[trigger] b.keys@.contains(kb2) implies n > 0 && exists|k: int|
            0 <= k < bb[bucket_index(kb2, n)]@.len() && (#[trigger] bb[bucket_index(kb2, n)]@[k]).0.key_bytes()
                == kb2 by {
            assert(a.keys@.contains(kb2));
            let bi = bucket_index(kb2, n);
            let k = choose|k: int| 0 <= k < ab[bi]@.len() && (#[trigger] ab[bi]@[k]).0.key_bytes() == kb2;
            assert(bb[bi]@[k].0 == ab[bi]@[k].0);
        }
        assert(b.wf());
        a.lemma_value_at(i, j);
        b.lemma_value_at(i, j);
        assert forall|kb2: Seq<u8>| #[trigger] b.keys@.contains(kb2) && kb2 != kb implies b@[kb2] == a@[kb2] by {
            assert(a.keys@.contains(kb2));
            let bi = bucket_index(kb2, n);
            let k = choose|k: int| 0 <= k < ab[bi]@.len() && (#[trigger] ab[bi]@[k]).0.key_bytes() == kb2;
            if bi != i {
                assert(bb[bi]@ == ab[bi]@);
            }
            assert(bb[bi]@[k] == ab[bi]@[k]);
            a.lemma_value_at(bi, k);
            b.lemma_value_at(bi, k);
        }
        assert(b@ =~= a@.insert(kb, nv));
    }

    /// `b` is `a` with the entry `e`, whose key `a` lacks, pushed on the bucket `i` of its key.
    spec fn pushed(a: Self, b: Self, i: int, e: (K, V)) -> bool {
        &&& 0 <= i < a.buckets@.len()
        &&& i == bucket_index(e.0.key_bytes(), a.buckets@.len())
        &&& !a.keys@.contains(e.0.key_bytes())
        &&& b.keys@ == a.keys@.insert(e.0.key_bytes())
        &&& b.entry_cnt == a.entry_cnt + 1
        &&& b.buckets@.len() == a.buckets@.len()
        &&& b.buckets@[i]@ == a.buckets@[i]@.push(e)
        &&& forall|x: int| 0 <= x < a.buckets@.len() && x != i ==> #[trigger] b.buckets@[x]@ == a.buckets@[x]@
    }

    /// Pushing the entry of a new key on its bucket keeps the invariant and adds the key.
    proof fn lemma_pushed(a: Self, b: Self, idx: int, e: (K, V))
        requires
            a.wf(),
            Self::pushed(a, b, idx, e),
        ensures
            b.wf(),
            b@ == a@.insert(e.0.key_bytes(), e.1),
            b.len_spec() == a.len_spec() + 1,
    {
        let old_b = a.buckets@;
        let bb = b.buckets@;
        let n = old_b.len();
        let kb = e.0.key_bytes();
        let blen = old_b[idx]@.len() as int;
        assert forall|i: int, k: int| 0 <= i < n && 0 <= k < bb[i]@.len() && !(i == idx && k == blen) implies
            #[trigger] bb[i]@[k] == old_b[i]@[k] && k < old_b[i]@.len() by {
            if i != idx {
                assert(bb[i]@ == old_b[i]@);
            }
        }
        assert forall|i: int| 0 <= i < n && i != idx implies #[trigger] bb[i]@.len() == old_b[i]@.len() by {
            assert(bb[i]@ == old_b[i]@);
        }
        assert forall|i: int, k: int|
            0 <= i < n && 0 <= k < bb[i]@.len() implies b.keys@.contains(#[trigger] bb[i]@[k].0.key_bytes()) by {
            if !(i == idx && k == blen) {
                assert(old_b[i]@[k] == bb[i]@[k]);
            }
        }
        assert forall|kb2: Seq<u8>| #[trigger] b.keys@.contains(kb2) implies n > 0 && exists|k: int|
            0 <= k < bb[bucket_index(kb2, n)]@.len() && (#[trigger] bb[bucket_index(kb2, n)]@[k]).0.key_bytes()
                == kb2 by {
            if kb2 == kb {
                assert(bb[idx]@[blen].0.key_bytes() == kb);
            } else {
                assert(a.keys@.contains(kb2));
                let k = choose|k: int|
                    0 <= k < old_b[bucket_index(kb2, n)]@.len() && (#[trigger] old_b[bucket_index(kb2, n)]@[k]).0.key_bytes()
                        == kb2;
                assert(bb[bucket_index(kb2, n)]@[k] == old_b[bucket_index(kb2, n)]@[k]);
            }
        }
        assert forall|i: int, k: int, l: int|
            0 <= i < n && 0 <= k < l < bb[i]@.len() implies #[trigger] bb[i]@[k].0.key_bytes()
                != #[trigger] bb[i]@[l].0.key_bytes() by {
            assert(old_b[i]@[k] == bb[i]@[k]);
            if !(i == idx && l == blen) {
                assert(old_b[i]@[l] == bb[i]@[l]);
            } else {
                assert(a.keys@.contains(old_b[i]@[k].0.key_bytes()));
            }
        }
        assert forall|i: int, k: int|
            0 <= i < n && 0 <= k < bb[i]@.len() implies bucket_index(#[trigger] bb[i]@[k].0.key_bytes(), n) == i by {
            if !(i == idx && k == blen) {
                assert(old_b[i]@[k] == bb[i]@[k]);
            }
        }
        assert(b.wf());
        b.lemma_value_at(idx, blen);
        assert forall|kb2: Seq<u8>| #[trigger] b.keys@.contains(kb2) && kb2 != kb implies b@[kb2] == a@[kb2] by {
            assert(a.keys@.contains(kb2));
            let bi = bucket_index(kb2, n);
            let k = choose|k: int| 0 <= k < old_b[bi]@.len() && (#[trigger] old_b[bi]@[k]).0.key_bytes() == kb2;
            assert(bb[bi]@[k] == old_b[bi]@[k]);
            a.lemma_value_at(bi, k);
            b.lemma_value_at(bi, k);
        }
        assert(b@ =~= a@.insert(kb, e.1));
    }

    pub fn new() -> (r: Self)
        ensures
            r.wf(),
            r@ == Map::<Seq<u8>, V>::empty(),
            r.len_spec() == 0,
    {
        let r = Self { buckets: Vec::new(), entry_cnt: 0, keys: Ghost(Set::empty()) };
        assert(r@ =~= Map::<Seq<u8>, V>::empty());
        r
    }

    /// The bucket a key belongs to, `None` while there are no buckets.
    fn bucket(&self, key: &K) -> (r: Option<usize>)
        requires
            self.wf(),
        ensures
            self.buckets@.len() == 0 ==> r is None,
            self.buckets@.len() > 0 ==> r == Some(
                bucket_index(key.key_bytes(), self.buckets@.len()) as usize,
            ),
    {
        if self.buckets.len() == 0 {
            return None;
        }
        let mut hasher = FNV1aHasher::default();
        let bytes = key.hash_bytes();
        hasher.write(bytes.as_slice());
        let idx = (hasher.finish() % self.buckets.len() as u64) as usize;
        Some(idx)
    }

    /// Grows the bucket array while the map is empty: to one bucket, then to two.
    fn resize_if_needed(&mut self)
        requires
            old(self).wf(),
        ensures
            final(self).wf(),
            final(self)@ == old(self)@,
            final(self).len_spec() == old(self).len_spec(),
            old(self).len_spec() == 0 ==> final(self).buckets@.len() > 0,
            old(self).len_spec() > 0 ==> final(self).buckets@ == old(self).buckets@,
    {
        if !self.is_empty() || self.entry_cnt < 3 * self.buckets.len() / 4 {
            proof {
                if self.entry_cnt == 0 {
                    assert(self.buckets@.len() >= 2);
                }
            }
            return;
        }
        let size: usize = match self.buckets.len() {
            0 => 1,
            n => 2 * n,
        };
        let mut new_buckets: Vec<Vec<(K, V)>> = Vec::with_capacity(size);
        let mut i: usize = 0;
        while i < size
            invariant
                i <= size,
                new_buckets@.len() == i,
                forall|j: int| 0 <= j < i ==> (#[trigger] new_buckets@[j])@.len() == 0,
            decreases size - i,
        {
            new_buckets.push(Vec::new());
            i = i + 1;
        }
        proof {
            assert forall|b: int| 0 <= b < self.buckets@.len() implies (#[trigger] self.buckets@[b])@.len() == 0 by {
                if self.buckets@[b]@.len() > 0 {
                    assert(self.keys@.contains(self.buckets@[b]@[0].0.key_bytes()));
                }
            }
        }
        self.buckets = new_buckets;
    }

    /// Whether the map holds no entry.

    pub fn is_empty(&self) -> (r: bool)
        requires
            self.wf(),
        ensures
            r == (self.len_spec() == 0),
            r == (self@.dom().len() == 0),
    {
        self.entry_cnt == 0
    }

    /// The number of entries.
    pub fn len(&self) -> (r: usize)
        requires
            self.wf(),
        ensures
            r == self.len_spec(),
            r == self@.dom().len(),
    {
        self.entry_cnt
    }


    /// Sets the value of `key` to `val`; the value it had, if any, comes back.
    pub fn insert(&mut self, key: K, val: V) -> (r: Option<V>)
        requires
            old(self).wf(),
            old(self).len_spec() < usize::MAX,
        ensures
            final(self).wf(),
            final(self)@ == old(self)@.insert(key.key_bytes(), val),
            old(self)@.contains_key(key.key_bytes()) ==> r == Some(old(self)@[key.key_bytes()])
                && final(self).len_spec() == old(self).len_spec(),
            !old(self)@.contains_key(key.key_bytes()) ==> r is None && final(self).len_spec()
                == old(self).len_spec() + 1,
    {
        proof {
            if self.entry_cnt > 0 {
                vstd::set_lib::lemma_set_empty_equivalency_len(self.keys@);
                let k0 = choose|x: Seq<u8>| self.keys@.contains(x);
                assert(self.keys@.contains(k0));
            }
        }
        self.resize_if_needed();
        let ghost kb = key.key_bytes();
        let idx = match self.bucket(&key) {
            Some(idx) => idx,
            None => {
                return None;
            },
        };
        let ghost n = self.buckets@.len();
        let blen = self.buckets[idx].len();
        let mut j: usize = 0;
        while j < blen
            invariant
                self.wf(),
                n == self.buckets@.len(),
                idx < n,
                idx == bucket_index(kb, n),
                kb == key.key_bytes(),
                blen == self.buckets@[idx as int]@.len(),
                j <= blen,
                forall|k: int| 0 <= k < j ==> (#[trigger] self.buckets@[idx as int]@[k]).0.key_bytes() != kb,
                self@ == old(self)@,
                self.len_spec() == old(self).len_spec(),
            decreases blen - j,
        {
            if key.key_eq(&self.buckets[idx][j].0) {
                let ghost pre = *self;
                let mut tmp = val;
                std::mem::swap(&mut self.buckets[idx][j].1, &mut tmp);
                proof {
                    pre.lemma_value_at(idx as int, j as int);
                    assert(Self::value_replaced(pre, *self, idx as int, j as int, val));
                    Self::lemma_value_replaced(pre, *self, idx as int, j as int, val);
                }
                return Some(tmp);
            }
            j = j + 1;
        }
        let ghost pre = *self;
        let ghost old_b = self.buckets@;
        proof {
            assert(!pre.keys@.contains(kb)) by {
                if pre.keys@.contains(kb) {
                    let k = choose|k: int|
                        0 <= k < old_b[bucket_index(kb, n)]@.len() && (#[trigger] old_b[bucket_index(kb, n)]@[k]).0.key_bytes()
                            == kb;
                    assert(old_b[idx as int]@[k].0.key_bytes() != kb);
                }
            }
            self.keys@ = self.keys@.insert(kb);
        }
        self.entry_cnt = self.entry_cnt + 1;
        self.buckets[idx].push((key, val));
        proof {
            Self::lemma_pushed(pre, *self, idx as int, self.buckets@[idx as int]@.last());
        }
        None
    }

    /// Whether the map has an entry for `key`.
    pub fn contains_key(&self, key: &K) -> (r: bool)
        requires
            self.wf(),
        ensures
            r == self@.contains_key(key.key_bytes()),
    {
        self.get(key).is_some()
    }

    /// Finds the position of `key` in its bucket.
    fn find(&self, key: &K) -> (r: Option<(usize, usize)>)
        requires
            self.wf(),
        ensures
            match r {
                Some((i, j)) => {
                    &&& self@.contains_key(key.key_bytes())
                    &&& i < self.buckets@.len()
                    &&& j < self.buckets@[i as int]@.len()
                    &&& self.buckets@[i as int]@[j as int].0.key_bytes() == key.key_bytes()
                    &&& i == bucket_index(key.key_bytes(), self.buckets@.len())
                },
                None => !self@.contains_key(key.key_bytes()),
            },
    {
        let ghost kb = key.key_bytes();
        let idx = match self.bucket(key) {
            Some(idx) => idx,
            None => {
                return None;
            },
        };
        let ghost n = self.buckets@.len();
        let blen = self.buckets[idx].len();
        let mut j: usize = 0;
        while j < blen
            invariant
                self.wf(),
                n == self.buckets@.len(),
                idx < n,
                idx == bucket_index(kb, n),
                kb == key.key_bytes(),
                blen == self.buckets@[idx as int]@.len(),
                j <= blen,
                forall|k: int| 0 <= k < j ==> (#[trigger] self.buckets@[idx as int]@[k]).0.key_bytes() != kb,
            decreases blen - j,
        {
            if self.buckets[idx][j].0.key_eq(key) {
                return Some((idx, j));
            }
            j = j + 1;
        }
        None
    }


    /// The value of `key`, if the map has one.
    pub fn get(&self, key: &K) -> (r: Option<&V>)
        requires
            self.wf(),
        ensures
            match r {
                Some(v) => self@.contains_key(key.key_bytes()) && *v == self@[key.key_bytes()],
                None => !self@.contains_key(key.key_bytes()),
            },
    {
        match self.find(key) {
            Some((i, j)) => {
                proof {
                    self.lemma_value_at(i as int, j as int);
                }
                Some(&self.buckets[i][j].1)
            },
            None => None,
        }
    }

    /// The value of `key`, to be changed in place, if the map has one.
    pub fn get_mut(&mut self, key: &K) -> (r: Option<&mut V>)
        requires
            old(self).wf(),
        ensures
            final(self).wf(),
            final(self).len_spec() == old(self).len_spec(),
            match r {
                Some(v) => {
                    &&& old(self)@.contains_key(key.key_bytes())
                    &&& *v == old(self)@[key.key_bytes()]
                    &&& final(self)@ == old(self)@.insert(key.key_bytes(), *final(v))
                },
                None => {
                    &&& !old(self)@.contains_key(key.key_bytes())
                    &&& final(self)@ == old(self)@
                },
            },
    {
        match self.find(key) {
            Some((i, j)) => {
                let ghost pre = *self;
                proof {
                    pre.lemma_value_at(i as int, j as int);
                    assert forall|b: Self|
                        #![trigger b.wf()]
                        #![trigger b.view()]
                        Self::value_replaced(pre, b, i as int, j as int, b.buckets@[i as int]@[j as int].1) implies b.wf()
                            && b@ == pre@.insert(key.key_bytes(), b.buckets@[i as int]@[j as int].1) && b.len_spec()
                            == pre.len_spec() by {
                        Self::lemma_value_replaced(pre, b, i as int, j as int, b.buckets@[i as int]@[j as int].1);
                    }
                }
                let entry = &mut self.buckets[i][j];
                let v = &mut entry.1;
                Some(v)
            },
            None => None,
        }
    }

    /// The entry of `key`, or the place in its bucket where one can go.
    pub fn entry(&mut self, key: K) -> (r: Entry<'_, K, V>)
        requires
            old(self).wf(),
        ensures
            match r {
                Entry::Occupied(e) => {
                    &&& old(self)@.contains_key(key.key_bytes())
                    &&& e.key().key_bytes() == key.key_bytes()
                    &&& e.value() == old(self)@[key.key_bytes()]
                    &&& final(self).wf()
                    &&& final(self)@ == old(self)@
                    &&& final(self).len_spec() == old(self).len_spec()
                },
                Entry::Vacant(e) => {
                    &&& !old(self)@.contains_key(key.key_bytes())
                    &&& e.key == key
                    &&& e.map.wf()
                    &&& e.map@ == old(self)@
                    &&& e.map.len_spec() == old(self).len_spec()
                    &&& e.map.buckets_len() > 0
                    &&& e.bucket_idx == bucket_index(key.key_bytes(), e.map.buckets_len())
                    &&& *final(e.map) == *final(self)
                },
            },
    {
        proof {
            if self.entry_cnt > 0 {
                vstd::set_lib::lemma_set_empty_equivalency_len(self.keys@);
                let k0 = choose|x: Seq<u8>| self.keys@.contains(x);
                assert(self.keys@.contains(k0));
            }
        }
        self.resize_if_needed();
        match self.find(&key) {
            Some((i, j)) => {
                proof {
                    self.lemma_value_at(i as int, j as int);
                }
                Entry::Occupied(OccupiedEntry { inner: &self.buckets[i][j] })
            },
            None => {
                let bucket_idx = self.bucket(&key).unwrap();
                Entry::Vacant(VacantEntry { key, map: self, bucket_idx })
            },
        }
    }

    /// Removes the entry of `key`; its value comes back.
    #[verifier::spinoff_prover]
    #[verifier::rlimit(40)]
    pub fn remove(&mut self, key: &K) -> (r: Option<V>)
        requires
            old(self).wf(),
        ensures
            final(self).wf(),
            final(self)@ == old(self)@.remove(key.key_bytes()),
            old(self)@.contains_key(key.key_bytes()) ==> r == Some(old(self)@[key.key_bytes()])
                && final(self).len_spec() + 1 == old(self).len_spec(),
            !old(self)@.contains_key(key.key_bytes()) ==> r is None && final(self).len_spec()
                == old(self).len_spec(),
    {
        let ghost kb = key.key_bytes();
        match self.find(key) {
            Some((i, j)) => {
                let ghost pre = *self;
                let ghost old_b = self.buckets@;
                let ghost n = old_b.len();
                proof {
                    pre.lemma_value_at(i as int, j as int);
                    assert(self.keys@.contains(kb));
                    assert(self.keys@.len() > 0);
                }
                self.entry_cnt = self.entry_cnt - 1;
                let entry = self.buckets[i].swap_remove(j);
                proof {
                    self.keys@ = self.keys@.remove(kb);
                    let last = old_b[i as int]@.len() - 1;
                    assert forall|a: int, k: int|
                        0 <= a < n && 0 <= k < self.buckets@[a]@.len() implies self.keys@.contains(
                        #[trigger] self.buckets@[a]@[k].0.key_bytes(),
                    ) by {
                        if a == i {
                            if k == j {
                                assert(self.buckets@[a]@[k] == old_b[a]@[last]);
                                assert(old_b[a]@[last].0.key_bytes() != kb);
                            } else {
                                assert(self.buckets@[a]@[k] == old_b[a]@[k]);
                            }
                        } else {
                            assert(self.buckets@[a]@[k] == old_b[a]@[k]);
                        }
                    }
                    assert forall|kb2: Seq<u8>| #[trigger] self.keys@.contains(kb2) implies n > 0
                        && exists|k: int|
                        0 <= k < self.buckets@[bucket_index(kb2, n)]@.len() && (#[trigger] self.buckets@[bucket_index(kb2, n)]@[k]).0.key_bytes()
                            == kb2 by {
                        assert(pre.keys@.contains(kb2));
                        let k = choose|k: int|
                            0 <= k < old_b[bucket_index(kb2, n)]@.len() && (#[trigger] old_b[bucket_index(kb2, n)]@[k]).0.key_bytes()
                                == kb2;
                        let bi = bucket_index(kb2, n);
                        if bi == i {
                            assert(k != j);
                            if k == last {
                                assert(self.buckets@[bi]@[j as int] == old_b[bi]@[k]);
                            } else {
                                assert(self.buckets@[bi]@[k] == old_b[bi]@[k]);
                            }
                        } else {
                            assert(self.buckets@[bi]@[k] == old_b[bi]@[k]);
                        }
                    }
                    assert forall|a: int, k: int, l: int|
                        0 <= a < n && 0 <= k < l < self.buckets@[a]@.len() implies #[trigger] self.buckets@[a]@[k].0.key_bytes()
                            != #[trigger] self.buckets@[a]@[l].0.key_bytes() by {
                        if a == i {
                            let ok = if k == j { last } else { k };
                            let ol = if l == j { last } else { l };
                            assert(self.buckets@[a]@[k] == old_b[a]@[ok]);
                            assert(self.buckets@[a]@[l] == old_b[a]@[ol]);
                        } else {
                            assert(self.buckets@[a]@[k] == old_b[a]@[k]);
                            assert(self.buckets@[a]@[l] == old_b[a]@[l]);
                        }
                    }
                    assert forall|a: int, k: int|
                        0 <= a < n && 0 <= k < self.buckets@[a]@.len() implies bucket_index(#[trigger] self.buckets@[a]@[k].0.key_bytes(), n) == a by {
                        if a == i {
                            let ok = if k == j { last } else { k };
                            assert(self.buckets@[a]@[k] == old_b[a]@[ok]);
                        } else {
                            assert(self.buckets@[a]@[k] == old_b[a]@[k]);
                        }
                    }
                    assert(self.wf());
                    assert forall|kb2: Seq<u8>| #[trigger] self.keys@.contains(kb2) implies self@[kb2] == pre@[kb2] by {
                        assert(pre.keys@.contains(kb2));
                        let bi = bucket_index(kb2, n);
                        let k = choose|k: int| 0 <= k < old_b[bi]@.len() && (#[trigger] old_b[bi]@[k]).0.key_bytes() == kb2;
                        pre.lemma_value_at(bi, k);
                        if bi == i && k == last {
                            assert(self.buckets@[bi]@[j as int] == old_b[bi]@[k]);
                            self.lemma_value_at(bi, j as int);
                        } else {
                            assert(k != j || bi != i);
                            assert(self.buckets@[bi]@[k] == old_b[bi]@[k]);
                            self.lemma_value_at(bi, k);
                        }
                    }
                    assert(self@ =~= pre@.remove(kb));
                }
                Some(entry.1)
            },
            None => {
                proof {
                    assert(self@ =~= self@.remove(kb));
                }
                None
            },
        }
    }

    /// Walks the entries bucket by bucket.
    pub fn iter(&self) -> (r: Iter<'_, K, V>)
        ensures
            r.position() == (0usize, 0usize),
            r.source() == self,
            r.remaining() == self.walk_order(),
    {
        let r = Iter { map: self, bucket_idx: 0, idx: 0 };
        proof {
            if self.buckets@.len() > 0 {
                assert(self.buckets@[0]@.skip(0) =~= self.buckets@[0]@);
            }
        }
        r
    }

    /// Takes the map apart, walking its entries bucket by bucket.
    pub fn into_iter(self) -> (r: IntoIter<K, V>)
        ensures
            r.bucket_position() == 0,
            r.remaining() == self.drain_order(),
    {
        IntoIter { map: self, bucket_idx: 0 }
    }
}


/// The entry of a key that the map holds.
pub struct OccupiedEntry<'a, K, V> {
    inner: &'a (K, V),
}

impl<'a, K, V> OccupiedEntry<'a, K, V> {
    /// The key of the entry.
    pub closed spec fn key(&self) -> K {
        self.inner.0
    }

    /// The value of the entry.
    pub closed spec fn value(&self) -> V {
        self.inner.1
    }
}

/// What the map holds for a key: its entry, or the place for one.
pub enum Entry<'a, K, V> {
    Occupied(OccupiedEntry<'a, K, V>),
    Vacant(VacantEntry<'a, K, V>),
}

/// The place for a key that the map does not hold yet.
pub struct VacantEntry<'a, K, V> {
    pub key: K,
    pub map: &'a mut HashMap<K, V>,
    pub bucket_idx: usize,
}

impl<'a, K: HashKey, V> VacantEntry<'a, K, V> {
    /// Puts the entry in its bucket; its value can then be changed in place.
    pub fn insert(self, value: V) -> (r: &'a mut V)
        requires
            old(self.map).wf(),
            old(self.map).len_spec() < usize::MAX,
            old(self.map).buckets_len() > 0,
            self.bucket_idx == bucket_index(self.key.key_bytes(), old(self.map).buckets_len()),
            !old(self.map)@.contains_key(self.key.key_bytes()),
        ensures
            *r == value,
            final(self.map).wf(),
            final(self.map)@ == old(self.map)@.insert(self.key.key_bytes(), *final(r)),
            final(self.map).len_spec() == old(self.map).len_spec() + 1,
    {
        let VacantEntry { key, map, bucket_idx } = self;
        let ghost kb = key.key_bytes();
        let ghost pre = *map;
        proof {
            map.keys@ = map.keys@.insert(kb);
        }
        map.entry_cnt = map.entry_cnt + 1;
        map.buckets[bucket_idx].push((key, value));
        let last = map.buckets[bucket_idx].len() - 1;
        let ghost mid = *map;
        proof {
            let bi = bucket_idx as int;
            let l = last as int;
            HashMap::lemma_pushed(pre, mid, bi, mid.buckets@[bi]@.last());
            assert forall|b: HashMap<K, V>|
                #![trigger b.wf()]
                #![trigger b.view()]
                HashMap::value_replaced(mid, b, bi, l, b.buckets@[bi]@[l].1) implies b.wf() && b@
                    == pre@.insert(kb, b.buckets@[bi]@[l].1) && b.len_spec() == pre.len_spec() + 1 by {
                HashMap::lemma_value_replaced(mid, b, bi, l, b.buckets@[bi]@[l].1);
                assert(b@ =~= pre@.insert(kb, b.buckets@[bi]@[l].1));
            }
        }
        &mut map.buckets[bucket_idx][last].1
    }
}

/// Walks the entries of a map.
pub struct Iter<'a, K, V> {
    map: &'a HashMap<K, V>,
    bucket_idx: usize,
    idx: usize,
}

impl<'a, K: HashKey, V> Iter<'a, K, V> {
    pub closed spec fn position(&self) -> (usize, usize) {
        (self.bucket_idx, self.idx)
    }

    /// The map being walked.
    pub closed spec fn source(&self) -> &'a HashMap<K, V> {
        self.map
    }

    /// The entries still to come, in the order they come.
    pub closed spec fn remaining(&self) -> Seq<(K, V)> {
        let bs = self.map.buckets@;
        let b = self.bucket_idx as int;
        if b >= bs.len() {
            Seq::empty()
        } else if self.idx <= bs[b]@.len() {
            bs[b]@.skip(self.idx as int) + flat(bs, b + 1)
        } else {
            flat(bs, b + 1)
        }
    }

    /// The next entry: the one at the current position, or the first of a later bucket.
    pub fn next(&mut self) -> (r: Option<(&'a K, &'a V)>)
        requires
            old(self).source().wf(),
        ensures
            final(self).source() == old(self).source(),
            match old(self).source().next_occupied(old(self).position().0 as int, old(self).position().1 as int) {
                None => r is None,
                Some((b, j)) => r matches Some((k, v)) && *k == old(self).source().entry_at(b, j).0
                    && *v == old(self).source().entry_at(b, j).1 && final(self).position() == (b as usize, (j + 1) as usize),
            },
            match r {
                Some((k, v)) => old(self).source()@.contains_key(k.key_bytes()) && *v == old(self).source()@[k.key_bytes()],
                None => true,
            },
            old(self).remaining().len() == 0 ==> r is None,
            old(self).remaining().len() > 0 ==> (r matches Some((k, v)) && *k == old(self).remaining()[0].0 && *v
                == old(self).remaining()[0].1) && final(self).remaining() == old(self).remaining().drop_first(),
    {
        while self.bucket_idx < self.map.buckets.len()
            invariant
                self.map == old(self).map,
                self.map.wf(),
                self.remaining() == old(self).remaining(),
                self.map.next_occupied(self.bucket_idx as int, self.idx as int) == old(self).map.next_occupied(
                    old(self).bucket_idx as int,
                    old(self).idx as int,
                ),
            decreases self.map.buckets@.len() - self.bucket_idx,
        {
            let bucket = &self.map.buckets[self.bucket_idx];
            if self.idx < bucket.len() {
                let ghost b = self.bucket_idx as int;
                let ghost j = self.idx as int;
                let (k, v) = &bucket[self.idx];
                proof {
                    self.map.lemma_value_at(b, j);
                }
                let ghost before = *self;
                self.idx = self.idx + 1;
                proof {
                    let bs = self.map.buckets@;
                    assert(bs[b]@.skip(j + 1) =~= bs[b]@.skip(j).drop_first());
                    assert(self.remaining() =~= before.remaining().drop_first());
                }
                return Some((k, v));
            } else {
                let ghost before = *self;
                self.bucket_idx = self.bucket_idx + 1;
                self.idx = 0;
                proof {
                    let bs = self.map.buckets@;
                    let b = before.bucket_idx as int;
                    if before.idx <= bs[b]@.len() {
                        assert(bs[b]@.skip(before.idx as int) =~= Seq::<(K, V)>::empty());
                    }
                    if b + 1 < bs.len() {
                        assert(bs[b + 1]@.skip(0) =~= bs[b + 1]@);
                    }
                    assert(self.remaining() =~= before.remaining());
                }
            }
        }
        None
    }
}

/// Takes a map apart entry by entry.
pub struct IntoIter<K, V> {
    map: HashMap<K, V>,
    bucket_idx: usize,
}

impl<K: HashKey, V> IntoIter<K, V> {
    pub closed spec fn bucket_position(&self) -> usize {
        self.bucket_idx
    }

    /// The entries still to come, in the order they come.
    pub closed spec fn remaining(&self) -> Seq<(K, V)> {
        drain_from(self.map.buckets@, self.bucket_idx as int)
    }

    /// Takes the last entry of the current bucket, moving on to later buckets
    /// while the current one is empty.
    pub fn next(&mut self) -> (r: Option<(K, V)>)
        ensures
            r is None ==> old(self).remaining().len() == 0 && final(self).remaining().len() == 0,
            r matches Some(x) ==> old(self).remaining().len() > 0 && x == old(self).remaining()[0]
                && final(self).remaining() == old(self).remaining().drop_first(),
    {
        loop
            invariant
                self.remaining() == old(self).remaining(),
            decreases self.map.buckets@.len() - self.bucket_idx,
        {
            if self.bucket_idx < self.map.buckets.len() {
                let ghost pre = self.map.buckets@;
                let ghost b = self.bucket_idx as int;
                match self.map.buckets[self.bucket_idx].pop() {
                    Some(x) => {
                        proof {
                            let post = self.map.buckets@;
                            lemma_drain_from_agree(post, pre, b + 1);
                            assert(pre[b]@.drop_last() == post[b]@);
                            assert(old(self).remaining() =~= seq![x] + self.remaining());
                        }
                        return Some(x);
                    },
                    None => {
                        proof {
                            lemma_drain_from_agree(self.map.buckets@, pre, b + 1);
                            assert(pre[b]@.len() == 0);
                            assert(drain_from(pre, b) =~= drain_from(pre, b + 1));
                        }
                        self.bucket_idx = self.bucket_idx + 1;
                    },
                }
            } else {
                return None;
            }
        }
    }
}

} // verus!
