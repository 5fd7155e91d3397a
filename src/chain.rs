use vstd::prelude::*;
use std::collections::HashMap;

verus! {

/// How far below the tip the challenge block is taken.
pub const CHALLENGE_DEPTH: u64 = 216;

/// A header as the chain reads it: its parent's hash and its own hash.
#[derive(Clone, Copy, Debug)]
pub struct HeaderLink {
    pub prev: [u8; 32],
    pub hash: [u8; 32],
}

#[derive(Clone, Copy, Debug)]
struct HashEntry {
    hash: [u8; 32],
    height: u64,
}

/// The bucket a hash is filed under: its first eight bytes, little-endian.
pub open spec fn bucket_of(h: Seq<u8>) -> u64 {
    (h[0] as u64) | ((h[1] as u64) << 8u64) | ((h[2] as u64) << 16u64) | ((h[3] as u64) << 24u64) | ((
    h[4] as u64) << 32u64) | ((h[5] as u64) << 40u64) | ((h[6] as u64) << 48u64) | ((h[7] as u64) << 56u64)
}

/// The abstract state of the trusted peer's header chain.
pub struct ChainView {
    /// The height recorded for each known hash.
    pub heights: Map<Seq<u8>, u64>,
    /// The hash recorded at each height.
    pub hashes: Seq<Seq<u8>>,
    pub tip_hash: Seq<u8>,
    pub tip_height: u64,
}

impl ChainView {
    /// The chain after recording `links` at heights `base + 1 ..`.
    pub open spec fn recorded(self, links: Seq<HeaderLink>, base: u64) -> ChainView
        decreases links.len(),
    {
        if links.len() == 0 {
            self
        } else {
            let before = self.recorded(links.drop_last(), base);
            let h = (base + links.len()) as u64;
            let hash = links.last().hash@;
            ChainView {
                heights: before.heights.insert(hash, h),
                hashes: if h < before.hashes.len() { before.hashes.update(h as int, hash) } else { before.hashes.push(hash) },
                ..before
            }
        }
    }

    /// Each header of `links` names the one before it as its parent.
    pub open spec fn linked(links: Seq<HeaderLink>) -> bool {
        forall|i: int| 0 < i < links.len() ==> (#[trigger] links[i]).prev@ == links[i - 1].hash@
    }
}

/// What a HEADERS message did to the chain.
#[derive(Clone, Copy, Debug, PartialEq, Eq, Structural)]
pub enum HeadersOutcome {
    /// No headers: nothing to do.
    Empty,
    /// The first header's parent is unknown; ask again from the tip.
    Unconnected,
    /// A header did not name the previous one as its parent: drop the session.
    Broken,
    /// The headers were recorded; the tip is now at `top_height`.
    Extended { top_height: u64 },
}

/// What a BLOCK from the trusted peer is.
#[derive(Clone, Copy, Debug, PartialEq, Eq, Structural)]
pub enum BlockOutcome {
    /// Its hash is not a known header.
    Unknown,
    /// Known, but not at the challenge depth below the tip.
    Stale,
    /// The block to challenge peers with, at this height.
    Challenge { height: u64 },
}

/// The header chain of the trusted peer: hash to height and height to hash.
pub struct HeaderChain {
    by_hash: HashMap<u64, Vec<HashEntry>>,
    by_height: Vec<[u8; 32]>,
    tip_hash: [u8; 32],
    tip_height: u64,
}

spec fn bucket_holds(b: Seq<HashEntry>, h: Seq<u8>) -> bool {
    exists|i: int| 0 <= i < b.len() && b[i].hash@ == h
}

spec fn unique_hashes(b: Seq<HashEntry>) -> bool {
    forall|i: int, j: int|
        0 <= i < b.len() && 0 <= j < b.len() && (#[trigger] b[i]).hash@ == (#[trigger] b[j]).hash@ ==> i == j
}

spec fn height_at(b: Seq<HashEntry>, h: Seq<u8>) -> u64 {
    b[choose|i: int| 0 <= i < b.len() && b[i].hash@ == h].height
}

spec fn bucket_ok(b: Seq<HashEntry>, k: u64, len: nat) -> bool {
    &&& unique_hashes(b)
    &&& forall|i: int|
        0 <= i < b.len() ==> bucket_of(#[trigger] b[i].hash@) == k && b[i].height < len && b[i].hash@.len() == 32
}

proof fn lemma_bucket_grow(b: Seq<HashEntry>, k: u64, l1: nat, l2: nat)
    requires
        bucket_ok(b, k, l1),
        l1 <= l2,
    ensures
        bucket_ok(b, k, l2),
{
    assert forall|i: int| 0 <= i < b.len() implies bucket_of(#[trigger] b[i].hash@) == k && b[i].height < l2
        && b[i].hash@.len() == 32 by {
        assert(bucket_of(b[i].hash@) == k);
        assert(b[i].height < l1);
    }
}

proof fn lemma_bucket_put(
    old_b: Seq<HashEntry>,
    nb: Seq<HashEntry>,
    pos: int,
    k: u64,
    hash: Seq<u8>,
    height: u64,
    len: nat,
)
    requires
        bucket_ok(old_b, k, len),
        bucket_of(hash) == k,
        hash.len() == 32,
        height < len,
        0 <= pos < nb.len(),
        nb[pos].hash@ == hash,
        nb[pos].height == height,
        pos < old_b.len() ==> old_b[pos].hash@ == hash,
        pos >= old_b.len() ==> !bucket_holds(old_b, hash),
        nb.len() == if pos < old_b.len() { old_b.len() } else { old_b.len() + 1 },
        forall|j: int| 0 <= j < old_b.len() && j != pos ==> nb[j] == old_b[j],
    ensures
        bucket_ok(nb, k, len),
        forall|h: Seq<u8>| #[trigger] bucket_holds(nb, h) == (bucket_holds(old_b, h) || h == hash),
        forall|h: Seq<u8>|
            #[trigger] bucket_holds(nb, h) ==> height_at(nb, h) == if h == hash {
                height
            } else {
                height_at(old_b, h)
            },
{
    assert forall|i: int, j: int|
        0 <= i < nb.len() && 0 <= j < nb.len() && (#[trigger] nb[i]).hash@ == (#[trigger] nb[j]).hash@ implies i
        == j by {
        if i != pos && j != pos {
            assert(old_b[i].hash@ == old_b[j].hash@);
        } else if i != pos {
            assert(old_b[i].hash@ == hash);
        } else if j != pos {
            assert(old_b[j].hash@ == hash);
        }
    }
    assert forall|i: int| 0 <= i < nb.len() implies bucket_of(#[trigger] nb[i].hash@) == k && nb[i].height < len
        && nb[i].hash@.len() == 32 by {
        if i != pos {
            assert(nb[i] == old_b[i]);
        }
    }
    assert forall|h: Seq<u8>| #[trigger] bucket_holds(nb, h) == (bucket_holds(old_b, h) || h == hash) by {
        if h == hash {
            assert(nb[pos].hash@ == h);
        } else {
            if bucket_holds(nb, h) {
                let c = choose|j: int| 0 <= j < nb.len() && nb[j].hash@ == h;
                assert(c != pos);
                assert(old_b[c].hash@ == h);
            }
            if bucket_holds(old_b, h) {
                let c = choose|j: int| 0 <= j < old_b.len() && old_b[j].hash@ == h;
                assert(c != pos);
                assert(nb[c].hash@ == h);
            }
        }
    }
    assert forall|h: Seq<u8>| #[trigger] bucket_holds(nb, h) implies height_at(nb, h) == if h == hash {
        height
    } else {
        height_at(old_b, h)
    } by {
        let c = choose|j: int| 0 <= j < nb.len() && nb[j].hash@ == h;
        if h == hash {
            assert(c == pos);
        } else {
            let c0 = choose|j: int| 0 <= j < old_b.len() && old_b[j].hash@ == h;
            assert(c0 != pos);
            assert(nb[c0].hash@ == h);
            assert(c == c0);
        }
    }
}

impl HeaderChain {
    spec fn knows(&self, h: Seq<u8>) -> bool {
        &&& h.len() == 32
        &&& self.by_hash@.contains_key(bucket_of(h))
        &&& bucket_holds(self.by_hash@[bucket_of(h)]@, h)
    }

    spec fn height_in(&self, h: Seq<u8>) -> u64 {
        height_at(self.by_hash@[bucket_of(h)]@, h)
    }
}

impl View for HeaderChain {
    type V = ChainView;

    closed spec fn view(&self) -> ChainView {
        ChainView {
            heights: Map::new(|h: Seq<u8>| self.knows(h), |h: Seq<u8>| self.height_in(h)),
            hashes: self.by_height@.map_values(|a: [u8; 32]| a@),
            tip_hash: self.tip_hash@,
            tip_height: self.tip_height,
        }
    }
}

fn bucket_key(h: &[u8; 32]) -> (r: u64)
    ensures
        r == bucket_of(h@),
{
    (h[0] as u64) | ((h[1] as u64) << 8u64) | ((h[2] as u64) << 16u64) | ((h[3] as u64) << 24u64) | ((
    h[4] as u64) << 32u64) | ((h[5] as u64) << 40u64) | ((h[6] as u64) << 48u64) | ((h[7] as u64) << 56u64)
}

fn hash_eq(a: &[u8; 32], b: &[u8; 32]) -> (r: bool)
    ensures
        r == (a@ == b@),
{
    let mut i: usize = 0;
    while i < 32
        invariant
            i <= 32,
            a@.len() == 32,
            b@.len() == 32,
            forall|j: int| 0 <= j < i ==> a@[j] == b@[j],
        decreases 32 - i,
    {
        if a[i] != b[i] {
            return false;
        }
        i += 1;
    }
    assert(a@ =~= b@);
    true
}

fn find_in_bucket(b: &Vec<HashEntry>, h: &[u8; 32]) -> (r: Option<usize>)
    ensures
        match r {
            Some(i) => i < b@.len() && b@[i as int].hash@ == h@,
            None => !bucket_holds(b@, h@),
        },
{
    let mut i: usize = 0;
    while i < b.len()
        invariant
            i <= b@.len(),
            forall|j: int| 0 <= j < i ==> b@[j].hash@ != h@,
        decreases b@.len() - i,
    {
        if hash_eq(&b[i].hash, h) {
            return Some(i);
        }
        i += 1;
    }
    None
}

impl HeaderChain {
    pub closed spec fn wf(&self) -> bool {
        &&& self.by_height@.len() > 0
        &&& self.tip_height < self.by_height@.len()
        &&& forall|k: u64|
            #[trigger] self.by_hash@.contains_key(k) ==> bucket_ok(self.by_hash@[k]@, k, self.by_height@.len())
    }

    proof fn lemma_heights_below(&self, h: Seq<u8>)
        requires
            self.wf(),
            self@.heights.contains_key(h),
        ensures
            self@.heights[h] < self@.hashes.len(),
    {
        let b = self.by_hash@[bucket_of(h)]@;
        let c = choose|j: int| 0 <= j < b.len() && b[j].hash@ == h;
        assert(b[c].height < self.by_height@.len());
    }

    /// A chain holding only `genesis`, at height 0.
    pub fn new(genesis: [u8; 32]) -> (r: Self)
        ensures
            r.wf(),
            r@.heights == Map::<Seq<u8>, u64>::empty().insert(genesis@, 0),
            r@.hashes == seq![genesis@],
            r@.tip_hash == genesis@,
            r@.tip_height == 0,
    {
        let mut by_hash: HashMap<u64, Vec<HashEntry>> = HashMap::new();
        let k = bucket_key(&genesis);
        by_hash.insert(k, vec![HashEntry { hash: genesis, height: 0 }]);
        let by_height = vec![genesis];
        let r = HeaderChain { by_hash, by_height, tip_hash: genesis, tip_height: 0 };
        proof {
            let b = r.by_hash@[k]@;
            assert(b.len() == 1 && b[0].hash@ == genesis@);
            assert(r.knows(genesis@));
            assert forall|h: Seq<u8>| r.knows(h) implies h == genesis@ by {
                assert(bucket_of(h) == k);
                let i = choose|i: int| 0 <= i < b.len() && b[i].hash@ == h;
                assert(i == 0);
            }
            assert(r@.heights =~= Map::<Seq<u8>, u64>::empty().insert(genesis@, 0));
            assert(r@.hashes =~= seq![genesis@]);
        }
        r
    }

    /// The height recorded for `hash`, if it is known.
    pub fn height_of(&self, hash: &[u8; 32]) -> (r: Option<u64>)
        requires
            self.wf(),
        ensures
            match r {
                Some(h) => self@.heights.contains_key(hash@) && self@.heights[hash@] == h,
                None => !self@.heights.contains_key(hash@),
            },
    {
        let k = bucket_key(hash);
        match self.by_hash.get(&k) {
            Some(b) => match find_in_bucket(b, hash) {
                Some(i) => {
                    proof {
                        let s = b@;
                        assert(self.knows(hash@));
                        let c = choose|j: int| 0 <= j < s.len() && s[j].hash@ == hash@;
                        assert(c == i as int);
                    }
                    Some(b[i].height)
                },
                None => None,
            },
            None => None,
        }
    }

    /// The hash recorded at `height`, if any.
    pub fn hash_at(&self, height: u64) -> (r: Option<[u8; 32]>)
        requires
            self.wf(),
        ensures
            match r {
                Some(h) => height < self@.hashes.len() && self@.hashes[height as int] == h@,
                None => height >= self@.hashes.len(),
            },
    {
        if height < self.by_height.len() as u64 {
            Some(self.by_height[height as usize])
        } else {
            None
        }
    }

    /// The highest header: its hash and height.
    pub fn tip(&self) -> (r: ([u8; 32], u64))
        ensures
            r.0@ == self@.tip_hash,
            r.1 == self@.tip_height,
    {
        (self.tip_hash, self.tip_height)
    }

    fn record(&mut self, hash: [u8; 32], height: u64)
        requires
            old(self).wf(),
            height <= old(self)@.hashes.len(),
        ensures
            final(self).wf(),
            final(self)@ == (ChainView {
                heights: old(self)@.heights.insert(hash@, height),
                hashes: if height < old(self)@.hashes.len() {
                    old(self)@.hashes.update(height as int, hash@)
                } else {
                    old(self)@.hashes.push(hash@)
                },
                ..old(self)@
            }),
    {
        let ghost pre = self@;
        let ghost old_map = self.by_hash@;
        let ghost old_len = self.by_height@.len();
        let k = bucket_key(&hash);
        let mut b = match self.by_hash.remove(&k) {
            Some(v) => v,
            None => Vec::new(),
        };
        let ghost old_b = b@;
        assert(old_map.contains_key(k) ==> old_b == old_map[k]@);
        assert(!old_map.contains_key(k) ==> old_b.len() == 0);
        let ghost pos: int;
        match find_in_bucket(&b, &hash) {
            Some(i) => {
                b.set(i, HashEntry { hash, height });
                proof {
                    pos = i as int;
                }
            },
            None => {
                b.push(HashEntry { hash, height });
                proof {
                    pos = old_b.len() as int;
                }
            },
        }
        let l = self.by_height.len();
        if (height as usize) < l {
            self.by_height.set(height as usize, hash);
        } else {
            self.by_height.push(hash);
        }
        let ghost nb = b@;
        proof {
            if old_map.contains_key(k) {
                assert(bucket_ok(old_b, k, old_len as nat));
            }
            lemma_bucket_grow(old_b, k, old_len as nat, self.by_height@.len());
            lemma_bucket_put(old_b, nb, pos, k, hash@, height, self.by_height@.len());
        }
        self.by_hash.insert(k, b);
        proof {
            let want = pre.heights.insert(hash@, height);
            assert(self.by_hash@[k]@ == nb);
            assert forall|kk: u64| #[trigger] self.by_hash@.contains_key(kk) implies bucket_ok(
                self.by_hash@[kk]@,
                kk,
                self.by_height@.len(),
            ) by {
                if kk != k {
                    assert(old_map.contains_key(kk));
                    lemma_bucket_grow(old_map[kk]@, kk, old_len as nat, self.by_height@.len());
                }
            }
            assert forall|h: Seq<u8>| #[trigger] self.knows(h) == want.contains_key(h) by {
                if bucket_of(h) == k {
                    assert(bucket_holds(nb, h) == (bucket_holds(old_b, h) || h == hash@));
                    if h == hash@ {
                        assert(hash@.len() == 32);
                    }
                }
            }
            assert forall|h: Seq<u8>| #[trigger] self.knows(h) implies self.height_in(h) == want[h] by {
                if bucket_of(h) == k {
                    assert(bucket_holds(nb, h));
                }
            }
            assert(self@.heights =~= want);
            assert(self@.hashes =~= (if height < pre.hashes.len() {
                pre.hashes.update(height as int, hash@)
            } else {
                pre.hashes.push(hash@)
            }));
        }
    }

    #[verifier::rlimit(60)]
    /// Records a HEADERS message: when its first header's parent is known at
    /// height `h`, and each header names the one before it as its parent,
    /// the headers are recorded at heights `h + 1 ..` and the last one becomes
    /// the tip.
    pub fn accept_headers(&mut self, links: &Vec<HeaderLink>) -> (r: HeadersOutcome)
        requires
            old(self).wf(),
        ensures
            final(self).wf(),
            links@.len() == 0 ==> r == HeadersOutcome::Empty && final(self)@ == old(self)@,
            links@.len() > 0 && !old(self)@.heights.contains_key(links@[0].prev@) ==> r
                == HeadersOutcome::Unconnected && final(self)@ == old(self)@,
            links@.len() > 0 && old(self)@.heights.contains_key(links@[0].prev@) ==> {
                let base = old(self)@.heights[links@[0].prev@];
                &&& (ChainView::linked(links@) && base + links@.len() <= u64::MAX ==> {
                    &&& r == HeadersOutcome::Extended { top_height: (base + links@.len()) as u64 }
                    &&& final(self)@ == ChainView {
                        tip_hash: links@.last().hash@,
                        tip_height: (base + links@.len()) as u64,
                        ..old(self)@.recorded(links@, base)
                    }
                })
                &&& (!ChainView::linked(links@) || base + links@.len() > u64::MAX ==> r
                    == HeadersOutcome::Broken)
                &&& (r == HeadersOutcome::Broken ==> (base + links@.len() > u64::MAX && final(self)@
                    == old(self)@) || exists|k: int|
                    1 <= k < links@.len() && ChainView::linked(links@.take(k)) && links@[k].prev@ != links@[k
                        - 1].hash@ && final(self)@ == old(self)@.recorded(links@.take(k - 1), base))
            },
    {
        let n = links.len();
        if n == 0 {
            return HeadersOutcome::Empty;
        }
        let base = match self.height_of(&links[0].prev) {
            Some(h) => h,
            None => return HeadersOutcome::Unconnected,
        };
        let ghost pre = self@;
        proof {
            self.lemma_heights_below(links@[0].prev@);
        }
        if n as u64 > u64::MAX - base {
            return HeadersOutcome::Broken;
        }
        let mut i: usize = 0;
        while i < n
            invariant
                self.wf(),
                pre == old(self)@,
                n == links@.len(),
                n > 0,
                i <= n,
                base + n <= u64::MAX,
                pre.heights.contains_key(links@[0].prev@) && base == pre.heights[links@[0].prev@],
                self@ == pre.recorded(links@.take(i as int), base),
                self@.hashes.len() >= base + 1 + i,
                forall|j: int| 0 < j < n && j <= i ==> (#[trigger] links@[j]).prev@ == links@[j - 1].hash@,
            decreases n - i,
        {
            if i + 1 < n && !hash_eq(&links[i + 1].prev, &links[i].hash) {
                assert(!ChainView::linked(links@)) by {
                    assert(links@[i + 1].prev@ != links@[(i + 1) - 1].hash@);
                }
                proof {
                    let k = i as int + 1;
                    assert(links@.take(k - 1) =~= links@.take(i as int));
                    assert forall|j: int| 0 < j < links@.take(k).len() implies (#[trigger] links@.take(k)[j]).prev@
                        == links@.take(k)[j - 1].hash@ by {
                        assert(links@.take(k)[j] == links@[j]);
                        assert(links@.take(k)[j - 1] == links@[j - 1]);
                    }
                    assert(ChainView::linked(links@.take(k)));
                    assert(self@ == old(self)@.recorded(links@.take(k - 1), base));
                    assert(1 <= k < links@.len() && links@[k].prev@ != links@[k - 1].hash@);
                }
                return HeadersOutcome::Broken;
            }
            let ghost t = links@.take(i as int + 1);
            assert(t.drop_last() =~= links@.take(i as int));
            assert(t.last() == links@[i as int]);
            self.record(links[i].hash, base + 1 + i as u64);
            assert(self@ == pre.recorded(t, base));
            i += 1;
        }
        assert(links@.take(n as int) =~= links@);
        assert(ChainView::linked(links@));
        let ghost rec = pre.recorded(links@, base);
        assert(self@ == rec);
        let top = base + n as u64;
        self.tip_hash = links[n - 1].hash;
        self.tip_height = top;
        assert(self@.heights == rec.heights);
        assert(self@.hashes == rec.hashes);
        assert(self@.tip_hash == links@.last().hash@);
        HeadersOutcome::Extended { top_height: top }
    }

    /// The hash to request as the challenge block once the tip has reached
    /// the peer's advertised height: the header `CHALLENGE_DEPTH` below the tip.
    pub fn challenge_request(&self, start_height: i32) -> (r: Option<[u8; 32]>)
        requires
            self.wf(),
        ensures
            match r {
                Some(h) => {
                    &&& self@.tip_height >= start_height
                    &&& self@.tip_height >= CHALLENGE_DEPTH
                    &&& self@.hashes[self@.tip_height - CHALLENGE_DEPTH] == h@
                },
                None => self@.tip_height < start_height || self@.tip_height < CHALLENGE_DEPTH,
            },
    {
        if start_height >= 0 && self.tip_height < start_height as u64 {
            return None;
        }
        if self.tip_height < CHALLENGE_DEPTH {
            return None;
        }
        let at = self.tip_height - CHALLENGE_DEPTH;
        let len = self.by_height.len();
        assert(at < len);
        Some(self.by_height[at as usize])
    }

    /// Whether a BLOCK from the trusted peer is the challenge block: a known
    /// header exactly `CHALLENGE_DEPTH` below the tip.
    pub fn on_block(&self, hash: &[u8; 32]) -> (r: BlockOutcome)
        requires
            self.wf(),
        ensures
            !self@.heights.contains_key(hash@) ==> r == BlockOutcome::Unknown,
            self@.heights.contains_key(hash@) ==> {
                let h = self@.heights[hash@];
                if self@.tip_height >= CHALLENGE_DEPTH && h == self@.tip_height - CHALLENGE_DEPTH {
                    r == (BlockOutcome::Challenge { height: h })
                } else {
                    r == BlockOutcome::Stale
                }
            },
    {
        match self.height_of(hash) {
            None => BlockOutcome::Unknown,
            Some(h) => {
                if self.tip_height >= CHALLENGE_DEPTH && h == self.tip_height - CHALLENGE_DEPTH {
                    BlockOutcome::Challenge { height: h }
                } else {
                    BlockOutcome::Stale
                }
            },
        }
    }
}

/// A message from the trusted peer, as far as the chain reads it.
pub enum TrustedMessage {
    Version { start_height: i32 },
    Verack,
    Headers(Vec<HeaderLink>),
    /// A block, by its header's hash.
    Block { hash: [u8; 32] },
    Ping(u64),
    Other,
}

/// A message to send to the trusted peer.
#[derive(Clone, Copy, Debug)]
pub enum TrustedReply {
    Verack,
    SendHeaders,
    /// GETHEADERS with this hash (the tip) as the only locator.
    GetHeaders([u8; 32]),
    GetAddr,
    /// GETDATA for the block of this hash (witness serialization).
    GetBlock([u8; 32]),
    Pong(u64),
}

/// What a trusted-peer message means for the rest of the system.
#[derive(Clone, Copy, Debug, PartialEq, Eq, Structural)]
pub enum TrustedEvent {
    Nothing,
    /// The tip moved to this height.
    HeaderCount(u64),
    /// A HEADERS message did not connect.
    Unconnected,
    /// This block is the new challenge block.
    NewChallenge { height: u64 },
}

/// The outcome of one trusted-peer message.
pub struct TrustedStep {
    pub replies: Vec<TrustedReply>,
    pub event: TrustedEvent,
    pub end: bool,
}

/// The session with the trusted peer: its header chain and the height the
/// peer advertised.
pub struct TrustedPeer {
    pub chain: HeaderChain,
    pub starting_height: i32,
}

impl TrustedPeer {
    /// A session whose chain holds only `genesis`.
    pub fn new(genesis: [u8; 32]) -> (r: Self)
        ensures
            r.chain.wf(),
            r.chain@.hashes == seq![genesis@],
            r.chain@.tip_height == 0,
            r.starting_height == 0,
    {
        TrustedPeer { chain: HeaderChain::new(genesis), starting_height: 0 }
    }

    /// Handles one message: VERSION is acknowledged and its height kept;
    /// VERACK asks for headers from the tip and for addresses; HEADERS are
    /// recorded, the challenge block is requested once the tip reaches the
    /// advertised height, and headers are asked for again from the new tip
    /// (not after an empty message; a broken one ends the session); a BLOCK
    /// at the challenge depth becomes the challenge; PING is answered.
    pub fn handle(&mut self, msg: TrustedMessage) -> (r: TrustedStep)
        requires
            old(self).chain.wf(),
        ensures
            final(self).chain.wf(),
            match msg {
                TrustedMessage::Version { start_height } => {
                    &&& final(self).starting_height == start_height
                    &&& final(self).chain@ == old(self).chain@
                    &&& r.replies@ == seq![TrustedReply::Verack]
                    &&& r.event == TrustedEvent::Nothing && !r.end
                },
                TrustedMessage::Verack => {
                    &&& final(self).chain@ == old(self).chain@
                    &&& r.replies@.len() == 3 && r.replies@[0] == TrustedReply::SendHeaders
                    &&& (r.replies@[1] matches TrustedReply::GetHeaders(h) && h@ == old(self).chain@.tip_hash)
                    &&& r.replies@[2] == TrustedReply::GetAddr
                    &&& r.event == TrustedEvent::Nothing && !r.end
                },
                TrustedMessage::Headers(links) => {
                    &&& final(self).starting_height == old(self).starting_height
                    &&& (links@.len() == 0 ==> r.replies@.len() == 0 && !r.end && final(self).chain@
                        == old(self).chain@)
                    &&& (r.end <==> r.replies@.len() == 0 && links@.len() > 0)
                    &&& (r.replies@.len() > 0 ==> (r.replies@.last() matches TrustedReply::GetHeaders(h) && h@
                        == final(self).chain@.tip_hash))
                    &&& (r.event is HeaderCount ==> r.event->HeaderCount_0 == final(self).chain@.tip_height)
                    &&& (links@.len() > 0 && !old(self).chain@.heights.contains_key(links@[0].prev@) ==> {
                        &&& r.event == TrustedEvent::Unconnected
                        &&& final(self).chain@ == old(self).chain@
                        &&& r.replies@.len() == 1
                    })
                    &&& (links@.len() > 0 && old(self).chain@.heights.contains_key(links@[0].prev@) ==> {
                        let base = old(self).chain@.heights[links@[0].prev@];
                        ChainView::linked(links@) && base + links@.len() <= u64::MAX ==> {
                            &&& r.event == TrustedEvent::HeaderCount((base + links@.len()) as u64)
                            &&& final(self).chain@ == ChainView {
                                tip_hash: links@.last().hash@,
                                tip_height: (base + links@.len()) as u64,
                                ..old(self).chain@.recorded(links@, base)
                            }
                        }
                    })
                    &&& (links@.len() > 0 && old(self).chain@.heights.contains_key(links@[0].prev@) ==> {
                        let base = old(self).chain@.heights[links@[0].prev@];
                        !ChainView::linked(links@) || base + links@.len() > u64::MAX ==> {
                            &&& r.end
                            &&& r.replies@.len() == 0
                            &&& r.event == TrustedEvent::Nothing
                            &&& (base + links@.len() > u64::MAX && final(self).chain@ == old(self).chain@)
                                || exists|k: int|
                                1 <= k < links@.len() && ChainView::linked(links@.take(k)) && links@[k].prev@
                                    != links@[k - 1].hash@ && final(self).chain@ == old(self).chain@.recorded(
                                    links@.take(k - 1),
                                    base,
                                )
                        }
                    })
                    &&& (r.event is HeaderCount ==> {
                        let t = final(self).chain@.tip_height;
                        if t >= final(self).starting_height && t >= CHALLENGE_DEPTH {
                            &&& r.replies@.len() == 2
                            &&& r.replies@[0] matches TrustedReply::GetBlock(h)
                            &&& h@ == final(self).chain@.hashes[t - CHALLENGE_DEPTH]
                        } else {
                            r.replies@.len() == 1
                        }
                    })
                },
                TrustedMessage::Block { hash } => {
                    &&& final(self).chain@ == old(self).chain@
                    &&& r.replies@.len() == 0 && !r.end
                    &&& (r.event is NewChallenge <==> old(self).chain@.heights.contains_key(hash@)
                        && old(self).chain@.tip_height >= CHALLENGE_DEPTH && old(self).chain@.heights[hash@]
                        == old(self).chain@.tip_height - CHALLENGE_DEPTH)
                    &&& (r.event is NewChallenge ==> r.event->height == old(self).chain@.heights[hash@])
                    &&& (!(r.event is NewChallenge) ==> r.event == TrustedEvent::Nothing)
                },
                TrustedMessage::Ping(v) => {
                    &&& final(self).chain@ == old(self).chain@
                    &&& r.replies@ == seq![TrustedReply::Pong(v)]
                    &&& r.event == TrustedEvent::Nothing && !r.end
                },
                TrustedMessage::Other => {
                    &&& final(self).chain@ == old(self).chain@
                    &&& r.replies@.len() == 0 && r.event == TrustedEvent::Nothing && !r.end
                },
            },
    {
        match msg {
            TrustedMessage::Version { start_height } => {
                self.starting_height = start_height;
                let replies = vec![TrustedReply::Verack];
                assert(replies@ =~= seq![TrustedReply::Verack]);
                TrustedStep { replies, event: TrustedEvent::Nothing, end: false }
            },
            TrustedMessage::Verack => {
                let (tip, _) = self.chain.tip();
                let replies = vec![TrustedReply::SendHeaders, TrustedReply::GetHeaders(tip), TrustedReply::GetAddr];
                TrustedStep { replies, event: TrustedEvent::Nothing, end: false }
            },
            TrustedMessage::Headers(links) => {
                let outcome = self.chain.accept_headers(&links);
                let mut replies: Vec<TrustedReply> = Vec::new();
                let mut event = TrustedEvent::Nothing;
                match outcome {
                    HeadersOutcome::Empty => {
                        return TrustedStep { replies, event, end: false };
                    },
                    HeadersOutcome::Broken => {
                        return TrustedStep { replies, event, end: true };
                    },
                    HeadersOutcome::Unconnected => {
                        event = TrustedEvent::Unconnected;
                    },
                    HeadersOutcome::Extended { top_height } => {
                        let (_, tip_height) = self.chain.tip();
                        event = TrustedEvent::HeaderCount(tip_height);
                        match self.chain.challenge_request(self.starting_height) {
                            Some(h) => replies.push(TrustedReply::GetBlock(h)),
                            None => {},
                        }
                    },
                }
                let (tip, _) = self.chain.tip();
                replies.push(TrustedReply::GetHeaders(tip));
                TrustedStep { replies, event, end: false }
            },
            TrustedMessage::Block { hash } => {
                let event = match self.chain.on_block(&hash) {
                    BlockOutcome::Challenge { height } => TrustedEvent::NewChallenge { height },
                    _ => TrustedEvent::Nothing,
                };
                TrustedStep { replies: Vec::new(), event, end: false }
            },
            TrustedMessage::Ping(v) => {
                let replies = vec![TrustedReply::Pong(v)];
                assert(replies@ =~= seq![TrustedReply::Pong(v)]);
                TrustedStep { replies, event: TrustedEvent::Nothing, end: false }
            },
            TrustedMessage::Other => TrustedStep { replies: Vec::new(), event: TrustedEvent::Nothing, end: false },
        }
    }
}

} // verus!
