use vstd::prelude::*;
use vstd::std_specs::hash::DefaultHasherAdditionalSpecFns;
use std::collections::hash_map::DefaultHasher;
use std::hash::Hasher;
use std::marker::PhantomData;
use std::time::{Duration, Instant};
use crate::rng::random_u64;

verus! {

/// Number of cells in the filter.
pub const FILTER_SIZE: usize = 64 * 1024 * 1024 * 8;

/// Number of independent hash functions.
pub const HASHES: usize = 27;

/// Soft cap on insertions per generation.
pub const ROLL_COUNT: usize = 1_240_000;

/// Bits per cell in production.
pub const GENERATION_BITS: u64 = 4;

/// Live generations in production: `2^GENERATION_BITS - 1`.
pub const GENERATION_COUNT: usize = 15;

/// The largest generation tag a cell of `bits` bits can hold.
pub open spec fn max_generation(bits: nat) -> nat {
    if bits == 2 { 3 } else { 15 }
}

/// Cells packed into one 64-bit word.
pub open spec fn cells_per_word(bits: nat) -> nat {
    if bits == 2 { 32 } else { 16 }
}

/// Words needed to hold `FILTER_SIZE` cells.
pub open spec fn word_count(bits: nat) -> nat {
    if bits == 2 { 16777216 } else { 33554432 }
}

pub open spec fn cell_mask(bits: u64) -> u64 {
    if bits == 2 { 3 } else { 15 }
}

/// The value of cell `j` of word `w`.
pub open spec fn word_cell(w: u64, j: u64, bits: u64) -> u64 {
    (w >> (j * bits)) & cell_mask(bits)
}

/// Word `w` with cell `j` replaced by `v`.
pub open spec fn set_word_cell(w: u64, j: u64, bits: u64, v: u64) -> u64 {
    (w & !(cell_mask(bits) << (j * bits))) | (v << (j * bits))
}

proof fn lemma_set_word_cell(w: u64, v: u64, i: u64, j: u64, bits: u64)
    requires
        bits == 2 || bits == 4,
        i * bits < 64,
        j * bits < 64,
        v <= cell_mask(bits),
    ensures
        word_cell(set_word_cell(w, i, bits, v), j, bits) == if i == j {
            v
        } else {
            word_cell(w, j, bits)
        },
{
    if bits == 2 {
        assert(word_cell(set_word_cell(w, i, 2, v), j, 2) == if i == j {
            v
        } else {
            word_cell(w, j, 2)
        }) by (bit_vector)
            requires
                i * 2 < 64,
                j * 2 < 64,
                v <= 3,
        ;
    } else {
        assert(word_cell(set_word_cell(w, i, 4, v), j, 4) == if i == j {
            v
        } else {
            word_cell(w, j, 4)
        }) by (bit_vector)
            requires
                i * 4 < 64,
                j * 4 < 64,
                v <= 15,
        ;
    }
}

proof fn lemma_word_cell_bounds(w: u64, j: u64, bits: u64)
    requires
        bits == 2 || bits == 4,
    ensures
        word_cell(w, j, bits) <= cell_mask(bits),
        w == 0 ==> word_cell(w, j, bits) == 0,
{
    assert(word_cell(w, j, 2) <= 3 && (w == 0 ==> word_cell(w, j, 2) == 0)) by (bit_vector);
    assert(word_cell(w, j, 4) <= 15 && (w == 0 ==> word_cell(w, j, 4) == 0)) by (bit_vector);
}

proof fn lemma_word_index(c: int, bits: nat)
    requires
        bits == 2 || bits == 4,
        0 <= c < FILTER_SIZE,
    ensures
        0 <= c / (cells_per_word(bits) as int) < word_count(bits),
        0 <= c % (cells_per_word(bits) as int) < cells_per_word(bits),
{
}

proof fn lemma_clear_word_cell(w: u64, m: u64, s: u64)
    ensures
        (w & !(m << s)) | (0u64 << s) == w & !(m << s),
{
    assert((w & !(m << s)) | (0u64 << s) == w & !(m << s)) by (bit_vector);
}

/// Word `w` with every cell that holds `g` cleared.
fn clear_generation(w: u64, g: u64, b: u64) -> (r: u64)
    requires
        b == 2 || b == 4,
        1 <= g <= cell_mask(b),
    ensures
        forall|j: u64|
            j * b < 64 ==> #[trigger] word_cell(r, j, b) == if word_cell(w, j, b) == g {
                0
            } else {
                word_cell(w, j, b)
            },
{
    let per: u64 = if b == 2 { 32 } else { 16 };
    let mask: u64 = if b == 2 { 3 } else { 15 };
    let mut r = w;
    let mut j: u64 = 0;
    while j < per
        invariant
            b == 2 || b == 4,
            per * b == 64,
            mask == cell_mask(b),
            1 <= g <= cell_mask(b),
            j <= per,
            forall|i: u64|
                i < j ==> #[trigger] word_cell(r, i, b) == if word_cell(w, i, b) == g {
                    0
                } else {
                    word_cell(w, i, b)
                },
            forall|i: u64| j <= i < per ==> #[trigger] word_cell(r, i, b) == word_cell(w, i, b),
        decreases per - j,
    {
        assert(j * b < 64) by (nonlinear_arith)
            requires
                j < per,
                per * b == 64,
        ;
        let cur = (r >> (j * b)) & mask;
        assert(cur == word_cell(r, j, b));
        if cur == g {
            let ghost prev = r;
            r = r & !(mask << (j * b));
            proof {
                lemma_clear_word_cell(prev, mask, (j * b) as u64);
                assert(r == set_word_cell(prev, j, b, 0));
                assert forall|i: u64| i < per implies #[trigger] word_cell(r, i, b) == if i == j {
                    0
                } else {
                    word_cell(prev, i, b)
                } by {
                    lemma_set_word_cell(prev, 0, j, i, b);
                }
            }
        }
        j += 1;
    }
    proof {
        assert forall|i: u64| i * b < 64 implies #[trigger] word_cell(r, i, b) == if word_cell(w, i, b) == g {
            0
        } else {
            word_cell(w, i, b)
        } by {
            assert(i < per) by (nonlinear_arith)
                requires
                    i * b < 64,
                    per * b == 64,
                    b > 0,
            ;
        }
    }
    r
}

/// The first `n` little-endian bytes of `v`.
pub open spec fn le_bytes(v: u64, n: nat) -> Seq<u8> {
    Seq::new(n, |i: int| ((v >> ((8 * i) as u64)) & 0xff) as u8)
}

fn le_bytes_vec(v: u64, n: usize) -> (r: Vec<u8>)
    requires
        n <= 8,
    ensures
        r@ == le_bytes(v, n as nat),
{
    let mut r: Vec<u8> = Vec::new();
    let mut i: usize = 0;
    while i < n
        invariant
            i <= n <= 8,
            r@ == le_bytes(v, i as nat),
        decreases n - i,
    {
        r.push(((v >> ((8 * i) as u64)) & 0xff) as u8);
        i += 1;
        assert(r@ =~= le_bytes(v, i as nat));
    }
    r
}

/// A value that the filter can hold: it is hashed through its byte encoding.
pub trait BloomKey {
    spec fn key_view(&self) -> Seq<u8>;

    fn key_bytes(&self) -> (r: Vec<u8>)
        ensures
            r@ == self.key_view(),
    ;
}

impl BloomKey for u64 {
    open spec fn key_view(&self) -> Seq<u8> {
        le_bytes(*self, 8)
    }

    fn key_bytes(&self) -> (r: Vec<u8>) {
        le_bytes_vec(*self, 8)
    }
}

impl BloomKey for u32 {
    open spec fn key_view(&self) -> Seq<u8> {
        le_bytes(*self as u64, 4)
    }

    fn key_bytes(&self) -> (r: Vec<u8>) {
        le_bytes_vec(*self as u64, 4)
    }
}

impl BloomKey for i32 {
    open spec fn key_view(&self) -> Seq<u8> {
        le_bytes(*self as u32 as u64, 4)
    }

    fn key_bytes(&self) -> (r: Vec<u8>) {
        le_bytes_vec(*self as u32 as u64, 4)
    }
}

/// The cell that the hash function keyed by `seed` picks for `key`.
pub open spec fn hash_cell(seed: u64, key: Seq<u8>) -> int {
    (DefaultHasher::spec_finish(seq![le_bytes(seed, 8), key]) % (FILTER_SIZE as u64)) as int
}

fn cell_index(seed: u64, key: &Vec<u8>) -> (r: usize)
    ensures
        r as int == hash_cell(seed, key@),
        r < FILTER_SIZE,
{
    let seed_bytes = le_bytes_vec(seed, 8);
    let mut hasher = DefaultHasher::new();
    hasher.write(seed_bytes.as_slice());
    hasher.write(key.as_slice());
    assert(hasher@ =~= seq![le_bytes(seed, 8), key@]);
    let h = hasher.finish();
    (h % (FILTER_SIZE as u64)) as usize
}

/// std's `Instant`, held opaquely: the filter keeps the time of its last roll.
#[verifier::external_type_specification]
#[verifier::external_body]
pub struct ExInstant(Instant);

/// Relies on `Instant::now`: the current monotonic time.
#[verifier::external_body]
fn now() -> Instant {
    Instant::now()
}

/// Relies on `Instant::elapsed`: the time passed since `t`.
#[verifier::external_body]
fn elapsed(t: &Instant) -> Duration {
    t.elapsed()
}

/// Relies on `Duration::as_nanos`: the whole nanoseconds of `d`.
#[verifier::external_body]
fn as_nanos(d: &Duration) -> u128 {
    d.as_nanos()
}

/// The abstract state of a filter.
pub struct BloomState {
    /// Bits per cell (2 or 4).
    pub generation_bits: nat,
    /// One generation tag per cell; 0 means empty.
    pub cells: Seq<nat>,
    /// The current generation, in `[1, max_generation(generation_bits)]`.
    pub generation: nat,
    /// Insertion counts of the previous generations, oldest first.
    pub history: Seq<nat>,
    /// Insertions in the current generation.
    pub count: nat,
    /// One key per hash function.
    pub seeds: Seq<u64>,
}

impl BloomState {
    pub open spec fn generations(self) -> nat {
        max_generation(self.generation_bits)
    }

    pub open spec fn valid(self) -> bool {
        &&& (self.generation_bits == 2 || self.generation_bits == 4)
        &&& self.cells.len() == FILTER_SIZE
        &&& 1 <= self.generation <= self.generations()
        &&& self.history.len() + 1 == self.generations()
        &&& self.seeds.len() == HASHES
        &&& forall|c: int| 0 <= c < FILTER_SIZE ==> #[trigger] self.cells[c] <= self.generations()
    }

    /// Cell `i` is one of those that the hash functions pick for `key`
    /// (among the first `n` functions).
    pub open spec fn picks(self, key: Seq<u8>, n: int, i: int) -> bool {
        exists|k: int| 0 <= k < n && hash_cell(self.seeds[k], key) == i
    }

    /// Every cell picked for `key` holds a live generation.
    pub open spec fn member(self, key: Seq<u8>) -> bool {
        forall|k: int| 0 <= k < HASHES ==> self.cells[#[trigger] hash_cell(self.seeds[k], key)] != 0
    }

    pub open spec fn next_generation(self) -> nat {
        if self.generation == self.generations() { 1 } else { self.generation + 1 }
    }

    /// The state after a generation roll: the next generation's cells are cleared.
    pub open spec fn rolled(self) -> BloomState {
        let g = self.next_generation();
        BloomState {
            cells: Seq::new(self.cells.len(), |c: int| if self.cells[c] == g { 0 } else { self.cells[c] }),
            generation: g,
            history: self.history.drop_first().push(self.count),
            count: 0,
            ..self
        }
    }

    /// The cells picked for `key` tagged with the current generation.
    pub open spec fn written(self, key: Seq<u8>) -> BloomState {
        BloomState {
            cells: Seq::new(
                self.cells.len(),
                |c: int| if self.picks(key, HASHES as int, c) { self.generation } else { self.cells[c] },
            ),
            count: self.count + 1,
            ..self
        }
    }

    /// Whether an insertion rolls first.
    pub open spec fn must_roll(self, time_due: bool) -> bool {
        time_due || self.count > ROLL_COUNT
    }

    /// One insertion of `key`.
    pub open spec fn inserted(self, key: Seq<u8>, time_due: bool) -> BloomState {
        if self.must_roll(time_due) {
            self.rolled().written(key)
        } else {
            self.written(key)
        }
    }

    /// The insertion counts of all generations, the current one last.
    pub open spec fn element_counts(self) -> Seq<nat> {
        self.history.push(self.count)
    }

    /// How many rolls ago generation `v` was the current one.
    pub open spec fn age(self, v: nat) -> nat {
        if self.generation >= v {
            (self.generation - v) as nat
        } else {
            (self.generation + self.generations() - v) as nat
        }
    }

    /// Every cell picked for `key` holds a generation at most `rolls` rolls old.
    pub open spec fn fresh_within(self, key: Seq<u8>, rolls: nat) -> bool {
        forall|k: int|
            0 <= k < HASHES ==> {
                let v = self.cells[#[trigger] hash_cell(self.seeds[k], key)];
                v != 0 && self.age(v) <= rolls
            }
    }

    /// The insertions of `keys` in order, the i-th rolling for time when `dues[i]`.
    pub open spec fn insert_all(self, keys: Seq<Seq<u8>>, dues: Seq<bool>) -> BloomState
        decreases keys.len(),
    {
        if keys.len() == 0 || dues.len() == 0 {
            self
        } else {
            self.inserted(keys[0], dues[0]).insert_all(keys.drop_first(), dues.drop_first())
        }
    }

    /// How many of the insertions of `keys` roll.
    pub open spec fn rolls_in(self, keys: Seq<Seq<u8>>, dues: Seq<bool>) -> nat
        decreases keys.len(),
    {
        if keys.len() == 0 || dues.len() == 0 {
            0
        } else {
            (if self.must_roll(dues[0]) { 1nat } else { 0nat }) + self.inserted(keys[0], dues[0]).rolls_in(
                keys.drop_first(),
                dues.drop_first(),
            )
        }
    }
}

proof fn lemma_hash_cell_in_range(seed: u64, key: Seq<u8>)
    ensures
        0 <= hash_cell(seed, key) < FILTER_SIZE,
{
}

/// Every insertion keeps the state valid: in particular the current
/// generation stays within `[1, G]` and never becomes 0.
pub proof fn lemma_inserted_valid(s: BloomState, key: Seq<u8>, time_due: bool)
    requires
        s.valid(),
    ensures
        s.inserted(key, time_due).valid(),
        1 <= s.inserted(key, time_due).generation <= s.generations(),
{
    let r = s.rolled();
    assert(r.valid()) by {
        assert forall|c: int| 0 <= c < FILTER_SIZE implies #[trigger] r.cells[c] <= r.generations() by {
            assert(s.cells[c] <= s.generations());
        }
    }
    let base = if s.must_roll(time_due) { r } else { s };
    let w = base.written(key);
    assert forall|c: int| 0 <= c < FILTER_SIZE implies #[trigger] w.cells[c] <= w.generations() by {
        assert(base.cells[c] <= base.generations());
    }
}

/// Right after its insertion, an item is a member, whether or not the
/// insertion rolled.
pub proof fn lemma_member_after_insert(s: BloomState, key: Seq<u8>, time_due: bool)
    requires
        s.valid(),
    ensures
        s.inserted(key, time_due).member(key),
        s.inserted(key, time_due).fresh_within(key, 0),
{
    let base = if s.must_roll(time_due) { s.rolled() } else { s };
    let w = base.written(key);
    assert forall|k: int| 0 <= k < HASHES implies {
        let v = w.cells[#[trigger] hash_cell(w.seeds[k], key)];
        v != 0 && w.age(v) <= 0
    } by {
        lemma_hash_cell_in_range(w.seeds[k], key);
        assert(base.picks(key, HASHES as int, hash_cell(w.seeds[k], key)));
    }
}

proof fn lemma_fresh_step(s: BloomState, key: Seq<u8>, other: Seq<u8>, time_due: bool, rolls: nat)
    requires
        s.valid(),
        s.fresh_within(key, rolls),
        s.must_roll(time_due) ==> rolls + 1 < s.generations(),
    ensures
        s.inserted(other, time_due).fresh_within(
            key,
            if s.must_roll(time_due) { rolls + 1 } else { rolls },
        ),
{
    let roll = s.must_roll(time_due);
    let base = if roll { s.rolled() } else { s };
    let nr = if roll { rolls + 1 } else { rolls };
    let w = base.written(other);
    assert forall|k: int| 0 <= k < HASHES implies {
        let v = w.cells[#[trigger] hash_cell(w.seeds[k], key)];
        v != 0 && w.age(v) <= nr
    } by {
        let c = hash_cell(s.seeds[k], key);
        lemma_hash_cell_in_range(s.seeds[k], key);
        let v = s.cells[c];
        assert(v != 0 && s.age(v) <= rolls);
        assert(v <= s.generations());
        if roll {
            assert(v != s.next_generation());
            assert(base.cells[c] == v);
        }
    }
}

/// An inserted item stays a member through any later insertions of other
/// items, as long as fewer than `G` of them roll: a roll removes only the
/// generation that was current `G` rolls ago.
pub proof fn lemma_member_survives(
    s: BloomState,
    key: Seq<u8>,
    time_due: bool,
    later: Seq<Seq<u8>>,
    dues: Seq<bool>,
)
    requires
        s.valid(),
        s.inserted(key, time_due).rolls_in(later, dues) < s.generations(),
    ensures
        s.inserted(key, time_due).insert_all(later, dues).member(key),
{
    let t = s.inserted(key, time_due);
    lemma_inserted_valid(s, key, time_due);
    lemma_member_after_insert(s, key, time_due);
    lemma_fresh_all(t, key, later, dues, 0);
}

proof fn lemma_fresh_all(t: BloomState, key: Seq<u8>, later: Seq<Seq<u8>>, dues: Seq<bool>, rolls: nat)
    requires
        t.valid(),
        t.fresh_within(key, rolls),
        rolls + t.rolls_in(later, dues) < t.generations(),
    ensures
        t.insert_all(later, dues).member(key),
    decreases later.len(),
{
    if later.len() == 0 || dues.len() == 0 {
        assert forall|k: int| 0 <= k < HASHES implies t.cells[#[trigger] hash_cell(t.seeds[k], key)] != 0 by {
            assert(t.cells[hash_cell(t.seeds[k], key)] != 0);
        }
    } else {
        let n = t.inserted(later[0], dues[0]);
        lemma_fresh_step(t, key, later[0], dues[0], rolls);
        lemma_inserted_valid(t, later[0], dues[0]);
        let nr = if t.must_roll(dues[0]) { rolls + 1 } else { rolls };
        lemma_fresh_all(n, key, later.drop_first(), dues.drop_first(), nr);
    }
}

proof fn lemma_cell_cleared(t: BloomState, c: int, later: Seq<Seq<u8>>, dues: Seq<bool>)
    requires
        t.valid(),
        0 <= c < FILTER_SIZE,
        dues.len() == later.len(),
        forall|i: int| 0 <= i < later.len() ==> !t.picks(#[trigger] later[i], HASHES as int, c),
        t.cells[c] == 0 || t.rolls_in(later, dues) + t.age(t.cells[c]) >= t.generations(),
    ensures
        t.insert_all(later, dues).cells[c] == 0,
    decreases later.len(),
{
    if later.len() > 0 {
        let n = t.inserted(later[0], dues[0]);
        lemma_inserted_valid(t, later[0], dues[0]);
        assert(!t.picks(later[0], HASHES as int, c));
        let v = t.cells[c];
        assert(v <= t.generations());
        if t.must_roll(dues[0]) {
            assert(t.rolled().seeds == t.seeds);
            assert(!t.rolled().picks(later[0], HASHES as int, c));
        }
        let rest = later.drop_first();
        assert forall|i: int| 0 <= i < rest.len() implies !n.picks(#[trigger] rest[i], HASHES as int, c) by {
            assert(rest[i] == later[i + 1]);
            assert(n.seeds == t.seeds);
        }
        lemma_cell_cleared(n, c, rest, dues.drop_first());
    }
}

/// An item whose cell was not written again is forgotten once `G` rolls
/// have passed since its insertion: the roll that brings its generation back
/// round clears that cell, so the item is no longer a member.
pub proof fn lemma_forgotten_after_generations(
    s: BloomState,
    key: Seq<u8>,
    time_due: bool,
    later: Seq<Seq<u8>>,
    dues: Seq<bool>,
    k0: int,
)
    requires
        s.valid(),
        0 <= k0 < HASHES,
        dues.len() == later.len(),
        forall|i: int|
            0 <= i < later.len() ==> !s.picks(#[trigger] later[i], HASHES as int, hash_cell(s.seeds[k0], key)),
        s.inserted(key, time_due).rolls_in(later, dues) >= s.generations(),
    ensures
        !s.inserted(key, time_due).insert_all(later, dues).member(key),
{
    let t = s.inserted(key, time_due);
    let c = hash_cell(s.seeds[k0], key);
    lemma_hash_cell_in_range(s.seeds[k0], key);
    lemma_inserted_valid(s, key, time_due);
    lemma_member_after_insert(s, key, time_due);
    assert(t.seeds == s.seeds);
    assert(t.cells[c] != 0 && t.age(t.cells[c]) <= 0);
    assert forall|i: int| 0 <= i < later.len() implies !t.picks(#[trigger] later[i], HASHES as int, c) by {
        assert(!s.picks(later[i], HASHES as int, c));
    }
    lemma_cell_cleared(t, c, later, dues);
    let f = t.insert_all(later, dues);
    lemma_insert_all_seeds(t, later, dues);
    assert(f.cells[hash_cell(f.seeds[k0], key)] == 0);
}

proof fn lemma_insert_all_seeds(t: BloomState, later: Seq<Seq<u8>>, dues: Seq<bool>)
    ensures
        t.insert_all(later, dues).seeds == t.seeds,
    decreases later.len(),
{
    if later.len() > 0 && dues.len() > 0 {
        lemma_insert_all_seeds(t.inserted(later[0], dues[0]), later.drop_first(), dues.drop_first());
    }
}

/// While the current generation holds at most `ROLL_COUNT` insertions,
/// an insertion that is not due for time does not roll; the one after the
/// count passes `ROLL_COUNT` rolls exactly once, moving the full count
/// into the history and starting the new generation at 1.
pub proof fn lemma_roll_on_count(s: BloomState, key: Seq<u8>)
    requires
        s.valid(),
    ensures
        s.count <= ROLL_COUNT ==> s.inserted(key, false).element_counts() == s.history.push(
            s.count + 1,
        ),
        s.count <= ROLL_COUNT ==> s.inserted(key, false).generation == s.generation,
        s.count > ROLL_COUNT ==> s.inserted(key, false).element_counts() == s.history.drop_first().push(
            s.count,
        ).push(1),
        s.count > ROLL_COUNT ==> s.inserted(key, false).generation == s.next_generation(),
{
}

/// Starting from an empty current generation, `ROLL_COUNT + 1` insertions
/// that are not due for time roll no generation; the next one rolls.
pub proof fn lemma_roll_count_threshold(s: BloomState, keys: Seq<Seq<u8>>, key: Seq<u8>)
    requires
        s.valid(),
        s.count == 0,
        keys.len() == ROLL_COUNT + 1,
    ensures
        s.rolls_in(keys, Seq::new(keys.len(), |i: int| false)) == 0,
        s.insert_all(keys, Seq::new(keys.len(), |i: int| false)).count == ROLL_COUNT + 1,
        s.insert_all(keys, Seq::new(keys.len(), |i: int| false)).history == s.history,
        s.insert_all(keys, Seq::new(keys.len(), |i: int| false)).inserted(key, false).element_counts()
            == s.history.drop_first().push((ROLL_COUNT + 1) as nat).push(1),
{
    lemma_no_roll_below_cap(s, keys, Seq::new(keys.len(), |i: int| false));
}

proof fn lemma_no_roll_below_cap(s: BloomState, keys: Seq<Seq<u8>>, dues: Seq<bool>)
    requires
        s.valid(),
        dues.len() == keys.len(),
        forall|i: int| 0 <= i < dues.len() ==> !#[trigger] dues[i],
        s.count + keys.len() <= ROLL_COUNT + 1,
    ensures
        s.rolls_in(keys, dues) == 0,
        s.insert_all(keys, dues).count == s.count + keys.len(),
        s.insert_all(keys, dues).history == s.history,
        s.insert_all(keys, dues).generation == s.generation,
        s.insert_all(keys, dues).valid(),
    decreases keys.len(),
{
    if keys.len() > 0 {
        assert(!dues[0]);
        lemma_inserted_valid(s, keys[0], dues[0]);
        let rest = dues.drop_first();
        assert forall|i: int| 0 <= i < rest.len() implies !#[trigger] rest[i] by {
            assert(!dues[i + 1]);
        }
        lemma_no_roll_below_cap(s.inserted(keys[0], dues[0]), keys.drop_first(), rest);
    }
}

/// A probabilistic set whose members age out generation by generation.
pub struct RollingBloomFilter<T> {
    last_roll: Instant,
    inserted_in_last_generations: Vec<usize>,
    inserted_since_last_roll: usize,
    current_generation: u8,
    generation_bits: u64,
    bits: Vec<u64>,
    hash_seeds: Vec<u64>,
    _entry_type: PhantomData<T>,
}

spec fn cell_value(bits: Seq<u64>, b: u64, c: int) -> nat {
    let per = cells_per_word(b as nat) as int;
    word_cell(bits[c / per], (c % per) as u64, b) as nat
}

impl<T> View for RollingBloomFilter<T> {
    type V = BloomState;

    closed spec fn view(&self) -> BloomState {
        BloomState {
            generation_bits: self.generation_bits as nat,
            cells: Seq::new(FILTER_SIZE as nat, |c: int| cell_value(self.bits@, self.generation_bits, c)),
            generation: self.current_generation as nat,
            history: self.inserted_in_last_generations@.map_values(|x: usize| x as nat),
            count: self.inserted_since_last_roll as nat,
            seeds: self.hash_seeds@,
        }
    }
}

impl<T: BloomKey> RollingBloomFilter<T> {
    pub closed spec fn wf(&self) -> bool {
        let b = self.generation_bits;
        &&& (b == 2 || b == 4)
        &&& self.bits@.len() == word_count(b as nat)
        &&& 1 <= self.current_generation <= max_generation(b as nat)
        &&& self.inserted_in_last_generations@.len() + 1 == max_generation(b as nat)
        &&& self.hash_seeds@.len() == HASHES
    }

    /// A well-formed filter's abstract state is valid: in particular its
    /// generation lies in `[1, G]`.
    pub proof fn lemma_wf_valid(&self)
        requires
            self.wf(),
        ensures
            self@.valid(),
    {
        let b = self.generation_bits;
        assert forall|c: int| 0 <= c < FILTER_SIZE implies #[trigger] self@.cells[c] <= self@.generations() by {
            let per = cells_per_word(b as nat) as int;
            lemma_word_cell_bounds(self.bits@[c / per], (c % per) as u64, b);
        }
    }

    /// A filter with cells of `bits` bits each (2 or 4), all empty.
    pub fn with_generation_bits(bits: u64) -> (r: Self)
        requires
            bits == 2 || bits == 4,
        ensures
            r.wf(),
            r@.valid(),
            r@.generation_bits == bits,
            r@.generation == 1,
            r@.count == 0,
            r@.history == Seq::new((max_generation(bits as nat) - 1) as nat, |i: int| 0nat),
            forall|c: int| 0 <= c < FILTER_SIZE ==> #[trigger] r@.cells[c] == 0,
    {
        let words: usize = if bits == 2 { 16777216 } else { 33554432 };
        let generations: usize = if bits == 2 { 3 } else { 15 };
        let cells: Vec<u64> = vec![0u64; words];
        assert(forall|i: int| 0 <= i < words ==> #[trigger] cells@[i] == 0);
        let history: Vec<usize> = vec![0usize; generations - 1];
        let mut seeds: Vec<u64> = Vec::new();
        let mut k: usize = 0;
        while k < HASHES
            invariant
                k <= HASHES,
                seeds@.len() == k,
            decreases HASHES - k,
        {
            seeds.push(random_u64());
            k += 1;
        }
        let r = RollingBloomFilter {
            last_roll: now(),
            inserted_in_last_generations: history,
            inserted_since_last_roll: 0,
            current_generation: 1,
            generation_bits: bits,
            bits: cells,
            hash_seeds: seeds,
            _entry_type: PhantomData,
        };
        proof {
            r.lemma_wf_valid();
            assert(r@.history =~= Seq::new((max_generation(bits as nat) - 1) as nat, |i: int| 0nat));
            assert forall|c: int| 0 <= c < FILTER_SIZE implies #[trigger] r@.cells[c] == 0 by {
                let per = cells_per_word(bits as nat) as int;
                lemma_word_index(c, bits as nat);
                assert(r.bits@[c / per] == 0);
                lemma_word_cell_bounds(r.bits@[c / per], (c % per) as u64, bits);
            }
        }
        r
    }

    /// The production filter: 4-bit cells, 15 live generations.
    pub fn new() -> (r: Self)
        ensures
            r.wf(),
            r@.valid(),
            r@.generation_bits == GENERATION_BITS,
            r@.generation == 1,
            r@.count == 0,
            r@.history == Seq::new(14, |i: int| 0nat),
            forall|c: int| 0 <= c < FILTER_SIZE ==> #[trigger] r@.cells[c] == 0,
    {
        Self::with_generation_bits(GENERATION_BITS)
    }

    fn read_cell(&self, c: usize) -> (v: u64)
        requires
            self.wf(),
            c < FILTER_SIZE,
        ensures
            v as nat == self@.cells[c as int],
    {
        let b = self.generation_bits;
        let per: usize = if b == 2 { 32 } else { 16 };
        let w = self.bits[c / per];
        let j = (c % per) as u64;
        let mask: u64 = if b == 2 { 3 } else { 15 };
        (w >> (j * b)) & mask
    }

    fn write_cell(&mut self, c: usize, v: u64)
        requires
            old(self).wf(),
            c < FILTER_SIZE,
            v <= max_generation(old(self).generation_bits as nat),
        ensures
            final(self).wf(),
            final(self)@ == (BloomState { cells: old(self)@.cells.update(c as int, v as nat), ..old(self)@ }),
    {
        let b = self.generation_bits;
        let per: usize = if b == 2 { 32 } else { 16 };
        let i = c / per;
        let j = (c % per) as u64;
        let mask: u64 = if b == 2 { 3 } else { 15 };
        let w = self.bits[i];
        let nw = (w & !(mask << (j * b))) | (v << (j * b));
        assert(nw == set_word_cell(w, j, b, v));
        let ghost pre = self@;
        self.bits.set(i, nw);
        proof {
            let post = self@;
            assert forall|d: int| 0 <= d < FILTER_SIZE implies #[trigger] post.cells[d] == pre.cells.update(
                c as int,
                v as nat,
            )[d] by {
                let pd = cells_per_word(b as nat) as int;
                if d / pd == i as int {
                    lemma_set_word_cell(w, v, j, (d % pd) as u64, b);
                }
            }
            assert(post.cells =~= pre.cells.update(c as int, v as nat));
        }
    }

    fn roll(&mut self)
        requires
            old(self).wf(),
        ensures
            final(self).wf(),
            final(self)@ == old(self)@.rolled(),
    {
        let ghost pre = self@;
        let ghost old_bits = self.bits@;
        let b = self.generation_bits;
        let max: u8 = if b == 2 { 3 } else { 15 };
        let next: u8 = if self.current_generation == max { 1 } else { self.current_generation + 1 };
        self.current_generation = next;
        let n = self.bits.len();
        let mut idx: usize = 0;
        while idx < n
            invariant
                self.generation_bits == b,
                b == 2 || b == 4,
                self.current_generation == next,
                1 <= next <= max,
                max as u64 == cell_mask(b),
                self.inserted_in_last_generations == old(self).inserted_in_last_generations,
                self.inserted_since_last_roll == old(self).inserted_since_last_roll,
                self.hash_seeds == old(self).hash_seeds,
                n == old_bits.len(),
                self.bits@.len() == n,
                idx <= n,
                forall|i: int, j: u64|
                    0 <= i < idx && j * b < 64 ==> #[trigger] word_cell(self.bits@[i], j, b) == if word_cell(
                        old_bits[i],
                        j,
                        b,
                    ) == next {
                        0
                    } else {
                        word_cell(old_bits[i], j, b)
                    },
                forall|i: int| idx <= i < n ==> #[trigger] self.bits@[i] == old_bits[i],
            decreases n - idx,
        {
            let w = self.bits[idx];
            if w != 0 {
                let nw = clear_generation(w, next as u64, b);
                self.bits.set(idx, nw);
            } else {
                proof {
                    assert forall|j: u64| j * b < 64 implies word_cell(w, j, b) == 0 by {
                        lemma_word_cell_bounds(w, j, b);
                    }
                }
            }
            idx += 1;
        }
        let len = self.inserted_in_last_generations.len();
        let mut history: Vec<usize> = Vec::new();
        let mut i: usize = 1;
        while i < len
            invariant
                1 <= i <= len,
                len == self.inserted_in_last_generations@.len(),
                len >= 2,
                history@ == self.inserted_in_last_generations@.subrange(1, i as int),
            decreases len - i,
        {
            history.push(self.inserted_in_last_generations[i]);
            i += 1;
            assert(history@ =~= self.inserted_in_last_generations@.subrange(1, i as int));
        }
        history.push(self.inserted_since_last_roll);
        self.inserted_in_last_generations = history;
        self.inserted_since_last_roll = 0;
        proof {
            let post = self@;
            let want = pre.rolled();
            let per = cells_per_word(b as nat) as int;
            assert forall|c: int| 0 <= c < FILTER_SIZE implies #[trigger] post.cells[c] == want.cells[c] by {
                lemma_word_index(c, b as nat);
                let j = (c % per) as u64;
                assert(j * b < 64) by (nonlinear_arith)
                    requires
                        j < per,
                        per * b == 64,
                ;
                assert(word_cell(self.bits@[c / per], j, b) == if word_cell(old_bits[c / per], j, b)
                    == next {
                    0
                } else {
                    word_cell(old_bits[c / per], j, b)
                });
            }
            assert(post.cells =~= want.cells);
            assert(post.history =~= want.history);
        }
    }

    fn insert_cells(&mut self, key: &Vec<u8>)
        requires
            old(self).wf(),
            old(self)@.count <= ROLL_COUNT,
        ensures
            final(self).wf(),
            final(self)@ == old(self)@.written(key@),
    {
        let ghost mid = self@;
        let g = self.current_generation as u64;
        let mut k: usize = 0;
        assert(mid.cells =~= Seq::new(
            FILTER_SIZE as nat,
            |c: int| if mid.picks(key@, 0, c) { mid.generation } else { mid.cells[c] },
        ));
        while k < HASHES
            invariant
                self.wf(),
                k <= HASHES,
                g == mid.generation,
                g <= max_generation(self.generation_bits as nat),
                mid.seeds.len() == HASHES,
                self@ == (BloomState {
                    cells: Seq::new(
                        FILTER_SIZE as nat,
                        |c: int| if mid.picks(key@, k as int, c) { mid.generation } else { mid.cells[c] },
                    ),
                    ..mid
                }),
            decreases HASHES - k,
        {
            let c = cell_index(self.hash_seeds[k], key);
            let ghost prev = self@;
            self.write_cell(c, g);
            proof {
                let want = Seq::new(
                    FILTER_SIZE as nat,
                    |d: int| if mid.picks(key@, k + 1, d) { mid.generation } else { mid.cells[d] },
                );
                assert forall|d: int| 0 <= d < FILTER_SIZE implies #[trigger] self@.cells[d] == want[d] by {
                    if d == c as int {
                        assert(mid.picks(key@, k + 1, d)) by {
                            assert(hash_cell(mid.seeds[k as int], key@) == d);
                        }
                    } else {
                        if mid.picks(key@, k + 1, d) {
                            let k2 = choose|k2: int| 0 <= k2 < k + 1 && hash_cell(mid.seeds[k2], key@) == d;
                            assert(k2 != k);
                            assert(mid.picks(key@, k as int, d));
                        }
                        if mid.picks(key@, k as int, d) {
                            let k2 = choose|k2: int| 0 <= k2 < k && hash_cell(mid.seeds[k2], key@) == d;
                            assert(mid.picks(key@, k + 1, d));
                        }
                    }
                }
                assert(self@.cells =~= want);
            }
            k += 1;
        }
        proof {
            assert(self@.cells =~= mid.written(key@).cells);
        }
        self.inserted_since_last_roll = self.inserted_since_last_roll + 1;
    }

    /// Inserts `item`, rolling to the next generation first when `time_due`
    /// or when the current generation is over its insertion cap.
    pub fn insert_rolling(&mut self, item: &T, time_due: bool)
        requires
            old(self).wf(),
        ensures
            final(self).wf(),
            final(self)@.valid(),
            final(self)@ == old(self)@.inserted(item.key_view(), time_due),
    {
        if time_due || self.inserted_since_last_roll > ROLL_COUNT {
            self.roll();
            self.last_roll = now();
        }
        let key = item.key_bytes();
        self.insert_cells(&key);
        proof {
            self.lemma_wf_valid();
        }
    }

    /// Whether the time since the last roll, `since_nanos`, exceeds one
    /// generation's share of the window `window_nanos`.
    pub fn roll_due(&self, since_nanos: u128, window_nanos: u128) -> (r: bool)
        requires
            self.wf(),
        ensures
            r == (since_nanos > window_nanos / (self@.generations() as u128)),
    {
        let generations: u128 = if self.generation_bits == 2 { 3 } else { 15 };
        since_nanos > window_nanos / generations
    }

    /// Inserts `item`; the filter rolls first when more than
    /// `roll_duration / G` has passed since the last roll, or when the
    /// current generation is over its insertion cap.
    pub fn insert(&mut self, item: &T, roll_duration: Duration)
        requires
            old(self).wf(),
        ensures
            final(self).wf(),
            final(self)@.valid(),
            final(self)@ == old(self)@.inserted(item.key_view(), true) || final(self)@ == old(
                self,
            )@.inserted(item.key_view(), false),
            old(self)@.count > ROLL_COUNT ==> final(self)@ == old(self)@.inserted(item.key_view(), true),
    {
        let since = as_nanos(&elapsed(&self.last_roll));
        let window = as_nanos(&roll_duration);
        let due = self.roll_due(since, window);
        self.insert_rolling(item, due);
    }

    /// The insertion counts of every live generation, the current one last.
    pub fn get_element_count(&self) -> (r: Vec<usize>)
        requires
            self.wf(),
        ensures
            r@.map_values(|x: usize| x as nat) == self@.element_counts(),
            r@.len() == self@.generations(),
    {
        let mut r = self.inserted_in_last_generations.clone();
        r.push(self.inserted_since_last_roll);
        assert(r@.map_values(|x: usize| x as nat) =~= self@.element_counts());
        r
    }

    /// Sets the insertion count of the current generation.
    pub fn set_inserted_since_last_roll(&mut self, count: usize)
        requires
            old(self).wf(),
        ensures
            final(self).wf(),
            final(self)@.valid(),
            final(self)@ == (BloomState { count: count as nat, ..old(self)@ }),
    {
        self.inserted_since_last_roll = count;
        proof {
            self.lemma_wf_valid();
        }
    }

    /// Whether `item` is (probably) a member: every cell that the hash
    /// functions pick for it holds a live generation.
    pub fn contains(&self, item: &T) -> (r: bool)
        requires
            self.wf(),
        ensures
            r == self@.member(item.key_view()),
    {
        let key = item.key_bytes();
        let mut k: usize = 0;
        while k < HASHES
            invariant
                self.wf(),
                k <= HASHES,
                key@ == item.key_view(),
                forall|j: int| 0 <= j < k ==> self@.cells[#[trigger] hash_cell(self@.seeds[j], key@)] != 0,
            decreases HASHES - k,
        {
            let c = cell_index(self.hash_seeds[k], &key);
            if self.read_cell(c) == 0 {
                assert(self@.cells[hash_cell(self@.seeds[k as int], item.key_view())] == 0);
                return false;
            }
            k += 1;
        }
        true
    }
}

} // verus!
