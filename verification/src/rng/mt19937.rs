//! The MT19937 generator.

use vstd::prelude::*;

verus! {

/// The number of words of the state.
pub const WORDS: usize = 624;

/// The state of the generator: a block of words and the position of the next one
/// to be handed out.
pub struct MtView {
    /// The current block.
    pub words: Seq<u32>,
    /// How many words of the block have been handed out.
    pub index: int,
}

/// The recurrence's twist of the upper bit of `a` and the lower bits of `b`.
pub open spec fn mixed(a: u32, b: u32) -> u32 {
    let y = (a & 0x8000_0000u32) | (b & 0x7fff_ffffu32);
    (y >> 1u32) ^ (if y & 1u32 == 0u32 {
        0u32
    } else {
        0x9908_b0dfu32
    })
}

/// Word `i` of the block that follows `old`: the word 397 places on, twisted with
/// words `i` and `i + 1`, where places past the end are those of the new block.
pub open spec fn fresh_word(old: Seq<u32>, i: int) -> u32
    decreases i,
    when 0 <= i < 624
{
    let far = if i < 227 {
        old[i + 397]
    } else {
        fresh_word(old, i - 227)
    };
    let near = if i < 623 {
        old[i + 1]
    } else {
        fresh_word(old, 0)
    };
    far ^ mixed(old[i], near)
}

/// The block that follows `old`.
pub open spec fn fresh_block(old: Seq<u32>) -> Seq<u32> {
    Seq::new(624, |i: int| fresh_word(old, i))
}

/// The output that a word of the state becomes.
pub open spec fn tempered(w: u32) -> u32 {
    let a = w ^ (w >> 11u32);
    let b = a ^ ((a << 7u32) & 0x9d2c_5680u32);
    let c = b ^ ((b << 15u32) & 0xefc6_0000u32);
    c ^ (c >> 18u32)
}

impl MtView {
    /// A full block, and a position in it.
    pub open spec fn wf(self) -> bool {
        self.words.len() == 624 && 0 <= self.index <= 624
    }

    /// The state with a word left to hand out.
    pub open spec fn refilled(self) -> MtView {
        if self.index >= 624 {
            MtView { words: fresh_block(self.words), index: 0 }
        } else {
            self
        }
    }

    /// The next 32-bit output.
    pub open spec fn next(self) -> u32 {
        tempered(self.refilled().words[self.refilled().index])
    }

    /// The state after one 32-bit output.
    pub open spec fn after(self) -> MtView {
        MtView { words: self.refilled().words, index: self.refilled().index + 1 }
    }

    /// The next 64-bit output: two 32-bit outputs, the high word first.
    pub open spec fn next_wide(self) -> u64 {
        ((self.next() as u64) << 32u64) | (self.after().next() as u64)
    }
}

/// Word `i` of the state seeded by `seed`.
pub open spec fn seeded_word(seed: u32, i: int) -> u32
    decreases i,
{
    if i <= 0 {
        seed
    } else {
        let p = seeded_word(seed, i - 1);
        1812433253u32.wrapping_mul(p ^ (p >> 30u32)).wrapping_add(i as u32)
    }
}

/// The state seeded by `seed`, with no word of its block handed out yet from the
/// block that follows.
pub open spec fn seeded(seed: u32) -> MtView {
    MtView { words: Seq::new(624, |i: int| seeded_word(seed, i)), index: 624 }
}

/// The words of a state under array seeding and the position of the last word
/// written.
pub struct KeyedView {
    /// The words so far.
    pub words: Seq<u32>,
    /// The position of the next word to write, from 1 to 623.
    pub place: int,
}

/// `w ^ ((p ^ (p >> 30)) * factor)`.
pub open spec fn stirred(w: u32, p: u32, factor: u32) -> u32 {
    w ^ (p ^ (p >> 30u32)).wrapping_mul(factor)
}

/// `v` with word `place` replaced by `w` and the position moved on; past the end
/// the last word is carried to the front.
pub open spec fn placed(v: KeyedView, w: u32) -> KeyedView {
    let words = v.words.update(v.place, w);
    if v.place + 1 >= 624 {
        KeyedView { words: words.update(0, words[623]), place: 1 }
    } else {
        KeyedView { words, place: v.place + 1 }
    }
}

/// The words after `k` steps of mixing the key in.
pub open spec fn key_mixed(key: Seq<u32>, k: int) -> KeyedView
    decreases k,
{
    if k <= 0 {
        KeyedView { words: seeded(19650218).words, place: 1 }
    } else {
        let v = key_mixed(key, k - 1);
        let j = (k - 1) % (key.len() as int);
        placed(
            v,
            stirred(v.words[v.place], v.words[v.place - 1], 1664525).wrapping_add(
                key[j],
            ).wrapping_add(j as u32),
        )
    }
}

/// The words after the key has been mixed in for `steps` steps and `k` further
/// steps of mixing the positions out.
pub open spec fn key_settled(key: Seq<u32>, steps: int, k: int) -> KeyedView
    decreases k,
{
    if k <= 0 {
        key_mixed(key, steps)
    } else {
        let v = key_settled(key, steps, k - 1);
        placed(
            v,
            stirred(v.words[v.place], v.words[v.place - 1], 1566083941).wrapping_sub(
                v.place as u32,
            ),
        )
    }
}

/// The number of steps for which a key of `n` words is mixed in.
pub open spec fn key_steps(n: int) -> int {
    if n > 624 {
        n
    } else {
        624
    }
}

/// The state seeded by an array.
pub open spec fn seeded_by_array(key: Seq<u32>) -> MtView {
    MtView {
        words: key_settled(key, key_steps(key.len() as int), 623).words.update(
            0,
            0x8000_0000u32,
        ),
        index: 624,
    }
}

/// The MT19937 bit generator.
#[derive(Clone)]
pub struct Mt19937 {
    /// The current block of words.
    pub words: Vec<u32>,
    /// How many words of the block have been handed out.
    pub index: usize,
}

impl Mt19937 {
    /// The state as a mathematical value.
    pub open spec fn view(&self) -> MtView {
        MtView { words: self.words@, index: self.index as int }
    }

    /// A full block, and a position in it.
    pub open spec fn wf(&self) -> bool {
        self@.wf()
    }

    /// A generator seeded by a 32-bit word.
    pub fn new_seed(seed: u32) -> (r: Self)
        ensures
            r.wf(),
            r@ == seeded(seed),
    {
        let mut words: Vec<u32> = Vec::new();
        words.push(seed);
        let mut i: usize = 1;
        while i < WORDS
            invariant
                1 <= i <= WORDS,
                words.len() == i,
                forall|k: int| 0 <= k < i ==> #[trigger] words@[k] == seeded_word(seed, k),
            decreases WORDS - i,
        {
            let p: u32 = words[i - 1];
            words.push(1812433253u32.wrapping_mul(p ^ (p >> 30)).wrapping_add(i as u32));
            i += 1;
        }
        let r = Mt19937 { words, index: WORDS };
        proof {
            assert(r.words@ =~= seeded(seed).words);
        }
        r
    }

    /// Write `w` at `place` and move on; past the end the last word is carried to
    /// the front.
    fn put(words: &mut Vec<u32>, place: usize, w: u32) -> (next: usize)
        requires
            old(words).len() == 624,
            1 <= place < 624,
        ensures
            final(words).len() == 624,
            1 <= next < 624,
            placed((KeyedView { words: old(words)@, place: place as int }), w) == (KeyedView {
                words: final(words)@,
                place: next as int,
            }),
    {
        words.set(place, w);
        if place + 1 >= WORDS {
            let last: u32 = words[WORDS - 1];
            words.set(0, last);
            1
        } else {
            place + 1
        }
    }

    /// A generator seeded by a non-empty array of words.
    pub fn new_by_array(key: &[u32]) -> (r: Self)
        requires
            key@.len() >= 1,
        ensures
            r.wf(),
            r@ == seeded_by_array(key@),
    {
        let n: usize = key.len();
        let base = Mt19937::new_seed(19650218);
        let mut words = base.words;
        let steps: usize = if n > WORDS {
            n
        } else {
            WORDS
        };
        let mut place: usize = 1;
        let mut j: usize = 0;
        let mut k: usize = 0;
        while k < steps
            invariant
                k <= steps,
                n == key@.len(),
                n >= 1,
                j == (k as int) % (n as int),
                words.len() == 624,
                1 <= place < 624,
                key_mixed(key@, k as int) == (KeyedView { words: words@, place: place as int }),
            decreases steps - k,
        {
            let p: u32 = words[place - 1];
            let w: u32 = (words[place] ^ (p ^ (p >> 30)).wrapping_mul(1664525)).wrapping_add(
                key[j],
            ).wrapping_add(j as u32);
            place = Self::put(&mut words, place, w);
            proof {
                next_remainder(k as int, n as int);
            }
            j = j + 1;
            if j >= n {
                j = 0;
            }
            k += 1;
        }
        let mut q: usize = 0;
        while q < 623
            invariant
                q <= 623,
                words.len() == 624,
                1 <= place < 624,
                key_settled(key@, steps as int, q as int) == (KeyedView {
                    words: words@,
                    place: place as int,
                }),
            decreases 623 - q,
        {
            let p: u32 = words[place - 1];
            let w: u32 = (words[place] ^ (p ^ (p >> 30)).wrapping_mul(1566083941)).wrapping_sub(
                place as u32,
            );
            place = Self::put(&mut words, place, w);
            q += 1;
        }
        words.set(0, 0x8000_0000);
        Mt19937 { words, index: WORDS }
    }

    /// Replace the block by the one that follows.
    fn twist(&mut self)
        requires
            old(self).wf(),
        ensures
            final(self).words@ == fresh_block(old(self).words@),
            final(self).index == 0,
    {
        let mut fresh: Vec<u32> = Vec::new();
        let mut i: usize = 0;
        while i < WORDS
            invariant
                i <= WORDS,
                self.words.len() == 624,
                fresh.len() == i,
                forall|k: int| 0 <= k < i ==> #[trigger] fresh@[k] == fresh_word(self.words@, k),
            decreases WORDS - i,
        {
            let far: u32 = if i < 227 {
                self.words[i + 397]
            } else {
                fresh[i - 227]
            };
            let near: u32 = if i < 623 {
                self.words[i + 1]
            } else {
                fresh[0]
            };
            let y: u32 = (self.words[i] & 0x8000_0000) | (near & 0x7fff_ffff);
            let m: u32 = if y & 1 == 0 {
                0
            } else {
                0x9908_b0df
            };
            fresh.push(far ^ ((y >> 1) ^ m));
            i += 1;
        }
        proof {
            assert(fresh@ =~= fresh_block(self.words@));
        }
        self.words = fresh;
        self.index = 0;
    }

    /// The next 32-bit output.
    pub fn next_u32(&mut self) -> (w: u32)
        requires
            old(self).wf(),
        ensures
            final(self).wf(),
            w == old(self)@.next(),
            final(self)@ == old(self)@.after(),
    {
        if self.index >= WORDS {
            self.twist();
        }
        let w: u32 = self.words[self.index];
        self.index = self.index + 1;
        let a: u32 = w ^ (w >> 11);
        let b: u32 = a ^ ((a << 7) & 0x9d2c_5680);
        let c: u32 = b ^ ((b << 15) & 0xefc6_0000);
        c ^ (c >> 18)
    }

    /// The next 64-bit output: two 32-bit outputs, the high word first.
    pub fn next_u64(&mut self) -> (w: u64)
        requires
            old(self).wf(),
        ensures
            final(self).wf(),
            w == old(self)@.next_wide(),
            final(self)@ == old(self)@.after().after(),
    {
        let high: u32 = self.next_u32();
        let low: u32 = self.next_u32();
        ((high as u64) << 32) | (low as u64)
    }
}

proof fn next_remainder(k: int, n: int)
    requires
        k >= 0,
        n >= 1,
    ensures
        (k + 1) % n == if k % n + 1 >= n {
            0
        } else {
            k % n + 1
        },
{
    vstd::arithmetic::div_mod::lemma_fundamental_div_mod(k, n);
    let q = k / n;
    let r = k % n;
    if r + 1 >= n {
        assert(k + 1 == (q + 1) * n + 0) by (nonlinear_arith)
            requires
                k == n * q + r,
                r + 1 == n,
        ;
        vstd::arithmetic::div_mod::lemma_fundamental_div_mod_converse(k + 1, n, q + 1, 0);
    } else {
        assert(k + 1 == q * n + (r + 1)) by (nonlinear_arith)
            requires
                k == n * q + r,
        ;
        vstd::arithmetic::div_mod::lemma_fundamental_div_mod_converse(k + 1, n, q, r + 1);
    }
}

} // verus!
