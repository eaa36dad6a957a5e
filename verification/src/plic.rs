//! The platform-level interrupt controller, modelled over its register
//! file: per-source priorities, the pending bitmap, per-context enable
//! bitmaps and thresholds, and the per-source gateway that closes
//! between a claim and its completion. The MMIO accesses live with the
//! platform glue; the protocol is here.
use vstd::prelude::*;

verus! {

/// Sources the register file addresses.
pub const PLIC_MAX_SOURCES: usize = 1024;

/// Contexts the register file addresses.
pub const PLIC_MAX_CONTEXTS: usize = 15872;

/// The device the driver matches in the device tree.
#[derive(Debug, Clone, Copy, PartialEq, Eq, Structural)]
pub struct Plic;

impl crate::Compat for Plic {
    fn compatible() -> Vec<String> {
        let mut v: Vec<String> = Vec::new();
        v.push(String::from_str("riscv,plic0"));
        v
    }
}

/// The controller's state.
#[derive(Debug, Clone, PartialEq, Eq)]
pub struct PlicRefer {
    pub priorities: Vec<u32>,
    pub pending: Vec<u32>,
    pub enables: Vec<Vec<u32>>,
    pub thresholds: Vec<u32>,
    pub in_service: Vec<u32>,
}

/// Bit `i % 32` of word `i / 32` in a bitmap.
pub open spec fn spec_bitmap_bit(words: Seq<u32>, i: int) -> bool {
    (words[i / 32] >> (i % 32) as u32) & 1 != 0
}

impl PlicRefer {
    pub open spec fn wf(self) -> bool {
        &&& self.priorities.len() == PLIC_MAX_SOURCES
        &&& self.pending.len() == 32
        &&& self.enables.len() == PLIC_MAX_CONTEXTS
        &&& forall|c: int|
            0 <= c < PLIC_MAX_CONTEXTS ==> (#[trigger] self.enables@[c]).len() == 32
        &&& self.thresholds.len() == PLIC_MAX_CONTEXTS
        &&& self.in_service.len() == 32
    }

    /// Source `s` is raised and not yet being serviced.
    pub open spec fn is_pending(self, s: int) -> bool {
        spec_bitmap_bit(self.pending@, s)
    }

    /// Source `s` is enabled for context `c`.
    pub open spec fn is_enabled(self, c: int, s: int) -> bool {
        spec_bitmap_bit(self.enables@[c]@, s)
    }

    /// Source `s` can be claimed by context `c`: raised, enabled, and
    /// prioritised above the context's threshold.
    pub open spec fn is_candidate(self, c: int, s: int) -> bool {
        &&& 1 <= s < PLIC_MAX_SOURCES
        &&& self.is_pending(s)
        &&& self.is_enabled(c, s)
        &&& self.priorities@[s] > self.thresholds@[c]
    }
}

/// A controller with everything masked: no priorities, nothing
/// pending, nothing enabled, all thresholds zero, no source in
/// service.
pub fn plic_new() -> (r: PlicRefer)
    ensures
        r.wf(),
        forall|i: int| 0 <= i < PLIC_MAX_SOURCES ==> r.priorities@[i] == 0,
        forall|i: int| 0 <= i < 32 ==> r.pending@[i] == 0,
        forall|c: int, i: int|
            0 <= c < PLIC_MAX_CONTEXTS && 0 <= i < 32 ==> #[trigger] (r.enables@[c])@[i] == 0,
        forall|c: int| 0 <= c < PLIC_MAX_CONTEXTS ==> r.thresholds@[c] == 0,
        forall|i: int| 0 <= i < 32 ==> r.in_service@[i] == 0,
{
    let mut priorities: Vec<u32> = Vec::new();
    let mut i: usize = 0;
    while i < PLIC_MAX_SOURCES
        invariant
            i <= PLIC_MAX_SOURCES,
            priorities.len() == i,
            forall|j: int| 0 <= j < i ==> priorities@[j] == 0,
        decreases PLIC_MAX_SOURCES - i,
    {
        priorities.push(0);
        i = i + 1;
    }
    let mut pending: Vec<u32> = Vec::new();
    let mut j: usize = 0;
    while j < 32
        invariant
            j <= 32,
            pending.len() == j,
            forall|k: int| 0 <= k < j ==> pending@[k] == 0,
        decreases 32 - j,
    {
        pending.push(0);
        j = j + 1;
    }
    let mut in_service: Vec<u32> = Vec::new();
    let mut j2: usize = 0;
    while j2 < 32
        invariant
            j2 <= 32,
            in_service.len() == j2,
            forall|k: int| 0 <= k < j2 ==> in_service@[k] == 0,
        decreases 32 - j2,
    {
        in_service.push(0);
        j2 = j2 + 1;
    }
    let mut enables: Vec<Vec<u32>> = Vec::new();
    let mut thresholds: Vec<u32> = Vec::new();
    let mut c: usize = 0;
    while c < PLIC_MAX_CONTEXTS
        invariant
            c <= PLIC_MAX_CONTEXTS,
            enables.len() == c,
            thresholds.len() == c,
            forall|d: int| 0 <= d < c ==> (#[trigger] enables@[d]).len() == 32,
            forall|d: int, k: int|
                0 <= d < c && 0 <= k < 32 ==> #[trigger] (enables@[d])@[k] == 0,
            forall|d: int| 0 <= d < c ==> thresholds@[d] == 0,
        decreases PLIC_MAX_CONTEXTS - c,
    {
        let mut word: Vec<u32> = Vec::new();
        let mut k: usize = 0;
        while k < 32
            invariant
                k <= 32,
                word.len() == k,
                forall|x: int| 0 <= x < k ==> word@[x] == 0,
            decreases 32 - k,
        {
            word.push(0);
            k = k + 1;
        }
        enables.push(word);
        thresholds.push(0);
        c = c + 1;
    }
    PlicRefer { priorities, pending, enables, thresholds, in_service }
}

/// Setting bit `b` of a word leaves every other bit alone.
proof fn lemma_word_bit_set(w: u32, b: u32, j: u32)
    requires
        b < 32,
        j < 32,
    ensures
        j != b ==> ((w | (1u32 << b)) >> j) & 1 == (w >> j) & 1,
        ((w | (1u32 << b)) >> b) & 1 != 0,
{
    assert((j != b ==> ((w | (1u32 << b)) >> j) & 1 == (w >> j) & 1) && ((w | (1u32 << b)) >> b)
        & 1 != 0) by (bit_vector)
        requires
            b < 32 && j < 32,
    ;
}

/// Clearing bit `b` of a word leaves every other bit alone.
proof fn lemma_word_bit_clear(w: u32, b: u32, j: u32)
    requires
        b < 32,
        j < 32,
    ensures
        j != b ==> ((w & !(1u32 << b)) >> j) & 1 == (w >> j) & 1,
        ((w & !(1u32 << b)) >> b) & 1 == 0,
{
    assert((j != b ==> ((w & !(1u32 << b)) >> j) & 1 == (w >> j) & 1) && ((w & !(1u32 << b)) >> b)
        & 1 == 0) by (bit_vector)
        requires
            b < 32 && j < 32,
    ;
}

/// The word/bit split of a source index.
proof fn lemma_source_split(s: int)
    requires
        0 <= s < 1024,
    ensures
        0 <= s / 32 < 32,
        0 <= s % 32 < 32,
        32 * (s / 32) + s % 32 == s,
{
    vstd::arithmetic::div_mod::lemma_fundamental_div_mod(s, 32);
    vstd::arithmetic::div_mod::lemma_mod_bound(s, 32);
    assert(s / 32 < 32) by (nonlinear_arith)
        requires
            0 <= s < 1024,
    ;
    vstd::arithmetic::div_mod::lemma_div_pos_is_pos(s, 32);
}

/// Two sources sharing a word but with equal bit positions are equal.
proof fn lemma_source_distinct(s: int, t: int)
    requires
        0 <= s < 1024,
        0 <= t < 1024,
        s != t,
        s / 32 == t / 32,
    ensures
        s % 32 != t % 32,
{
    lemma_source_split(s);
    lemma_source_split(t);
}

impl PlicRefer {
    /// Quiet `max_interrupts` sources for one context, as the boot
    /// path does: priorities to zero, every source masked, threshold
    /// zero.
    pub fn init(&mut self, max_interrupts: usize, context: usize)
        requires
            old(self).wf(),
            max_interrupts <= PLIC_MAX_SOURCES,
            context < PLIC_MAX_CONTEXTS,
        ensures
            final(self).wf(),
            forall|i: int| 1 <= i < max_interrupts ==> final(self).priorities@[i] == 0,
            forall|i: int|
                max_interrupts <= i < PLIC_MAX_SOURCES || i == 0 ==> final(self).priorities@[i]
                    == old(self).priorities@[i],
            forall|i: int| 0 <= i < max_interrupts ==> !final(self).is_enabled(context as int, i),
            final(self).thresholds@ == old(self).thresholds@.update(context as int, 0u32),
            final(self).pending == old(self).pending,
            final(self).in_service == old(self).in_service,
            forall|c: int|
                0 <= c < PLIC_MAX_CONTEXTS && c != context ==> final(self).enables@[c] == old(
                    self,
                ).enables@[c],
    {
        let mut i: usize = 1;
        while i < max_interrupts
            invariant
                self.wf(),
                max_interrupts <= PLIC_MAX_SOURCES,
                context < PLIC_MAX_CONTEXTS,
                1 <= i <= max_interrupts || (max_interrupts <= 1 && i == 1),
                forall|j: int| 1 <= j < i ==> self.priorities@[j] == 0,
                forall|j: int|
                    i <= j < PLIC_MAX_SOURCES || j == 0 ==> self.priorities@[j] == old(
                        self,
                    ).priorities@[j],
                self.pending == old(self).pending,
                self.in_service == old(self).in_service,
                self.enables == old(self).enables,
                self.thresholds == old(self).thresholds,
            decreases max_interrupts - i,
        {
            self.set_priority(i, 0);
            i = i + 1;
        }
        let mut k: usize = 0;
        while k < max_interrupts
            invariant
                self.wf(),
                max_interrupts <= PLIC_MAX_SOURCES,
                context < PLIC_MAX_CONTEXTS,
                k <= max_interrupts,
                forall|j: int| 1 <= j < max_interrupts ==> self.priorities@[j] == 0,
                forall|j: int|
                    max_interrupts <= j < PLIC_MAX_SOURCES || j == 0 ==> self.priorities@[j]
                        == old(self).priorities@[j],
                forall|j: int| 0 <= j < k ==> !self.is_enabled(context as int, j),
                self.pending == old(self).pending,
                self.in_service == old(self).in_service,
                self.thresholds == old(self).thresholds,
                forall|c: int|
                    0 <= c < PLIC_MAX_CONTEXTS && c != context ==> self.enables@[c] == old(
                        self,
                    ).enables@[c],
            decreases max_interrupts - k,
        {
            self.disable_int(context, k);
            k = k + 1;
        }
        proof {
            assert(forall|i: int|
                0 <= i < max_interrupts ==> !self.is_enabled(context as int, i));
        }
        let ghost pre = *self;
        self.threshold_and_claim(context, 0);
        proof {
            assert(self.enables == pre.enables);
            assert forall|i: int| 0 <= i < max_interrupts implies !self.is_enabled(
                context as int,
                i,
            ) by {
                assert(self.enables@[context as int]@ == pre.enables@[context as int]@);
                assert(!pre.is_enabled(context as int, i));
            }
        }
    }

    /// Write a source's priority slot.
    pub fn set_priority(&mut self, index: usize, priority: u32)
        requires
            old(self).wf(),
            index < PLIC_MAX_SOURCES,
            priority <= 7,
        ensures
            final(self).wf(),
            final(self).priorities@ == old(self).priorities@.update(index as int, priority),
            final(self).pending == old(self).pending,
            final(self).enables == old(self).enables,
            final(self).thresholds == old(self).thresholds,
            final(self).in_service == old(self).in_service,
    {
        self.priorities.set(index, priority);
    }

    /// Write a context's threshold word.
    pub fn threshold_and_claim(&mut self, context: usize, thresh: u32)
        requires
            old(self).wf(),
            context < PLIC_MAX_CONTEXTS,
        ensures
            final(self).wf(),
            final(self).thresholds@ == old(self).thresholds@.update(context as int, thresh),
            final(self).pending == old(self).pending,
            final(self).enables == old(self).enables,
            final(self).priorities == old(self).priorities,
            final(self).in_service == old(self).in_service,
    {
        self.thresholds.set(context, thresh);
    }

    /// Set bit `intr % 32` in word `intr / 32` of the context's enable
    /// bitmap; out-of-range arguments change nothing.
    pub fn enable_int(&mut self, context: usize, intr: usize)
        requires
            old(self).wf(),
        ensures
            final(self).wf(),
            context >= PLIC_MAX_CONTEXTS || intr >= PLIC_MAX_SOURCES ==> *final(self) == *old(
                self,
            ),
            context < PLIC_MAX_CONTEXTS && intr < PLIC_MAX_SOURCES ==> {
                &&& final(self).enables@[context as int]@ == old(self).enables@[
                    context as int]@.update(
                    intr as int / 32,
                    (old(self).enables@[context as int]@[intr as int / 32] | (1u32 << (intr as int
                        % 32) as u32)) as u32,
                )
                &&& forall|c: int|
                    0 <= c < PLIC_MAX_CONTEXTS && c != context ==> final(self).enables@[c] == old(
                        self,
                    ).enables@[c]
                &&& forall|s: int|
                    0 <= s < PLIC_MAX_SOURCES ==> final(self).is_enabled(context as int, s) == (
                    old(self).is_enabled(context as int, s) || s == intr as int)
                &&& final(self).pending == old(self).pending
                &&& final(self).priorities == old(self).priorities
                &&& final(self).thresholds == old(self).thresholds
                &&& final(self).in_service == old(self).in_service
            },
    {
        if context >= PLIC_MAX_CONTEXTS || intr >= PLIC_MAX_SOURCES {
            return ;
        }
        proof {
            lemma_source_split(intr as int);
            assert(intr / 32 == intr as int / 32 && intr % 32 == intr as int % 32);
        }
        let index = intr / 32;
        let bit = intr % 32;
        let w = self.enables[context][index];
        let nw = w | (1u32 << (bit as u32));
        let row = &mut self.enables[context];
        row.set(index, nw);
        proof {
            assert forall|s: int| 0 <= s < PLIC_MAX_SOURCES implies final(self).is_enabled(
                context as int,
                s,
            ) == (old(self).is_enabled(context as int, s) || s == intr as int) by {
                lemma_source_split(s);
                lemma_word_bit_set(w, (intr as int % 32) as u32, (s % 32) as u32);
                if s != intr as int && s / 32 == intr as int / 32 {
                    lemma_source_distinct(s, intr as int);
                }
            }
        }
    }

    /// Clear bit `intr % 32` in word `intr / 32` of the context's
    /// enable bitmap; out-of-range arguments change nothing.
    pub fn disable_int(&mut self, context: usize, intr: usize)
        requires
            old(self).wf(),
        ensures
            final(self).wf(),
            context >= PLIC_MAX_CONTEXTS || intr >= PLIC_MAX_SOURCES ==> *final(self) == *old(
                self,
            ),
            context < PLIC_MAX_CONTEXTS && intr < PLIC_MAX_SOURCES ==> {
                &&& final(self).enables@[context as int]@ == old(self).enables@[
                    context as int]@.update(
                    intr as int / 32,
                    (old(self).enables@[context as int]@[intr as int / 32] & !(1u32 << (
                    intr as int % 32) as u32)) as u32,
                )
                &&& forall|c: int|
                    0 <= c < PLIC_MAX_CONTEXTS && c != context ==> final(self).enables@[c] == old(
                        self,
                    ).enables@[c]
                &&& forall|s: int|
                    0 <= s < PLIC_MAX_SOURCES ==> final(self).is_enabled(context as int, s) == (
                    old(self).is_enabled(context as int, s) && s != intr as int)
                &&& final(self).pending == old(self).pending
                &&& final(self).priorities == old(self).priorities
                &&& final(self).thresholds == old(self).thresholds
                &&& final(self).in_service == old(self).in_service
            },
    {
        if context >= PLIC_MAX_CONTEXTS || intr >= PLIC_MAX_SOURCES {
            return ;
        }
        proof {
            lemma_source_split(intr as int);
            assert(intr / 32 == intr as int / 32 && intr % 32 == intr as int % 32);
        }
        let index = intr / 32;
        let bit = intr % 32;
        let w = self.enables[context][index];
        let nw = w & !(1u32 << (bit as u32));
        let row = &mut self.enables[context];
        row.set(index, nw);
        proof {
            assert forall|s: int| 0 <= s < PLIC_MAX_SOURCES implies final(self).is_enabled(
                context as int,
                s,
            ) == (old(self).is_enabled(context as int, s) && s != intr as int) by {
                lemma_source_split(s);
                lemma_word_bit_clear(w, (intr as int % 32) as u32, (s % 32) as u32);
                if s != intr as int && s / 32 == intr as int / 32 {
                    lemma_source_distinct(s, intr as int);
                }
            }
        }
    }

    /// The first word of the pending bitmap: sources 0..32.
    pub fn pending(&self) -> (r: u32)
        requires
            self.wf(),
        ensures
            r == self.pending@[0],
    {
        self.pending[0]
    }

    /// The line raises a source. While the source is being serviced
    /// its gateway is closed and the raise is lost, as the hardware's
    /// gateway behaves.
    pub fn set_pending(&mut self, source: usize)
        requires
            old(self).wf(),
            1 <= source < PLIC_MAX_SOURCES,
        ensures
            final(self).wf(),
            spec_bitmap_bit(old(self).in_service@, source as int) ==> *final(self) == *old(self),
            !spec_bitmap_bit(old(self).in_service@, source as int) ==> {
                &&& forall|s: int|
                    0 <= s < PLIC_MAX_SOURCES ==> final(self).is_pending(s) == (old(
                        self,
                    ).is_pending(s) || s == source as int)
                &&& final(self).priorities == old(self).priorities
                &&& final(self).enables == old(self).enables
                &&& final(self).thresholds == old(self).thresholds
                &&& final(self).in_service == old(self).in_service
            },
    {
        proof {
            lemma_source_split(source as int);
            assert(source / 32 == source as int / 32 && source % 32 == source as int % 32);
        }
        let index = source / 32;
        let bit = source % 32;
        let isw = self.in_service[index];
        if (isw >> (bit as u32)) & 1 != 0 {
            return ;
        }
        let w = self.pending[index];
        self.pending.set(index, w | (1u32 << (bit as u32)));
        proof {
            assert forall|s: int| 0 <= s < PLIC_MAX_SOURCES implies final(self).is_pending(s) == (
            old(self).is_pending(s) || s == source as int) by {
                lemma_source_split(s);
                lemma_word_bit_set(w, (source as int % 32) as u32, (s % 32) as u32);
                if s != source as int && s / 32 == source as int / 32 {
                    lemma_source_distinct(s, source as int);
                }
            }
        }
    }
}

impl PlicRefer {
    /// Read the claim register: take the highest-priority claimable
    /// source (lowest id on a tie), de-pend it and close its gateway.
    /// `None` when nothing is claimable.
    pub fn next(&mut self, context: usize) -> (r: Option<u32>)
        requires
            old(self).wf(),
            context < PLIC_MAX_CONTEXTS,
        ensures
            final(self).wf(),
            r == None::<u32> ==> *final(self) == *old(self) && (forall|s: int|
                !(old(self).is_candidate(context as int, s))),
            ({
                match r {
                    None => true,
                    Some(id) => {
                        &&& old(self).is_candidate(context as int, id as int)
                        &&& forall|s: int|
                            old(self).is_candidate(context as int, s) ==> old(self).priorities@[s]
                                < old(self).priorities@[id as int] || (old(self).priorities@[s]
                                == old(self).priorities@[id as int] && id as int <= s)
                        &&& forall|s: int|
                            0 <= s < PLIC_MAX_SOURCES ==> final(self).is_pending(s)
                                == (old(self).is_pending(s) && s != id as int)
                        &&& forall|s: int|
                            0 <= s < PLIC_MAX_SOURCES ==> spec_bitmap_bit(
                                final(self).in_service@,
                                s,
                            ) == (spec_bitmap_bit(old(self).in_service@, s) || s == id as int)
                        &&& final(self).priorities == old(self).priorities
                        &&& final(self).enables == old(self).enables
                        &&& final(self).thresholds == old(self).thresholds
                    },
                }
            }),
    {
        let mut best: Option<u32> = None;
        let mut s: usize = 1;
        while s < PLIC_MAX_SOURCES
            invariant
                self.wf(),
                *self == *old(self),
                context < PLIC_MAX_CONTEXTS,
                1 <= s <= PLIC_MAX_SOURCES,
                match best {
                    None => forall|t: int| 1 <= t < s ==> !self.is_candidate(context as int, t),
                    Some(id) => {
                        &&& id < s
                        &&& self.is_candidate(context as int, id as int)
                        &&& forall|t: int|
                            1 <= t < s && self.is_candidate(context as int, t)
                                ==> self.priorities@[t] < self.priorities@[id as int] || (
                            self.priorities@[t] == self.priorities@[id as int] && id as int <= t)
                    },
                },
            decreases PLIC_MAX_SOURCES - s,
        {
            proof {
                lemma_source_split(s as int);
                assert(s / 32 == s as int / 32 && s % 32 == s as int % 32);
            }
            let word = s / 32;
            let bit = s % 32;
            let pend = (self.pending[word] >> (bit as u32)) & 1 != 0;
            let enab = (self.enables[context][word] >> (bit as u32)) & 1 != 0;
            let prio = self.priorities[s];
            if pend && enab && prio > self.thresholds[context] {
                match best {
                    None => {
                        best = Some(s as u32);
                    },
                    Some(id) => {
                        if prio > self.priorities[id as usize] {
                            best = Some(s as u32);
                        }
                    },
                }
            }
            s = s + 1;
        }
        match best {
            None => None,
            Some(id) => {
                proof {
                    lemma_source_split(id as int);
                    assert(id as usize / 32 == id as int / 32 && id as usize % 32 == id as int
                        % 32);
                }
                let word = (id as usize) / 32;
                let bit = (id as usize) % 32;
                let pw = self.pending[word];
                self.pending.set(word, pw & !(1u32 << (bit as u32)));
                let iw = self.in_service[word];
                self.in_service.set(word, iw | (1u32 << (bit as u32)));
                proof {
                    assert forall|t: int| 0 <= t < PLIC_MAX_SOURCES implies final(self).is_pending(
                        t,
                    ) == (old(self).is_pending(t) && t != id as int) by {
                        lemma_source_split(t);
                        lemma_word_bit_clear(pw, (id as int % 32) as u32, (t % 32) as u32);
                        if t != id as int && t / 32 == id as int / 32 {
                            lemma_source_distinct(t, id as int);
                        }
                    }
                    assert forall|t: int| 0 <= t < PLIC_MAX_SOURCES implies spec_bitmap_bit(
                        final(self).in_service@,
                        t,
                    ) == (spec_bitmap_bit(old(self).in_service@, t) || t == id as int) by {
                        lemma_source_split(t);
                        lemma_word_bit_set(iw, (id as int % 32) as u32, (t % 32) as u32);
                        if t != id as int && t / 32 == id as int / 32 {
                            lemma_source_distinct(t, id as int);
                        }
                    }
                }
                Some(id)
            },
        }
    }

    /// Write the claim register back: completion. Re-opens the
    /// source's gateway so it can pend again; out-of-range arguments
    /// change nothing.
    pub fn claim(&mut self, context: usize, id: u32)
        requires
            old(self).wf(),
        ensures
            final(self).wf(),
            context >= PLIC_MAX_CONTEXTS || id >= 1024 ==> *final(self) == *old(self),
            context < PLIC_MAX_CONTEXTS && id < 1024 ==> {
                &&& forall|s: int|
                    0 <= s < PLIC_MAX_SOURCES ==> spec_bitmap_bit(final(self).in_service@, s) == (
                    spec_bitmap_bit(old(self).in_service@, s) && s != id as int)
                &&& final(self).pending == old(self).pending
                &&& final(self).priorities == old(self).priorities
                &&& final(self).enables == old(self).enables
                &&& final(self).thresholds == old(self).thresholds
            },
    {
        if context >= PLIC_MAX_CONTEXTS || id >= 1024 {
            return ;
        }
        proof {
            lemma_source_split(id as int);
            assert(id as usize / 32 == id as int / 32 && id as usize % 32 == id as int % 32);
        }
        let word = (id as usize) / 32;
        let bit = (id as usize) % 32;
        let iw = self.in_service[word];
        self.in_service.set(word, iw & !(1u32 << (bit as u32)));
        proof {
            assert forall|s: int| 0 <= s < PLIC_MAX_SOURCES implies spec_bitmap_bit(
                final(self).in_service@,
                s,
            ) == (spec_bitmap_bit(old(self).in_service@, s) && s != id as int) by {
                lemma_source_split(s);
                lemma_word_bit_clear(iw, (id as int % 32) as u32, (s % 32) as u32);
                if s != id as int && s / 32 == id as int / 32 {
                    lemma_source_distinct(s, id as int);
                }
            }
        }
    }
}

/// Enabling then disabling a source restores the enable word it
/// started from, provided the bit was clear; the touched bit is always
/// `s % 32` of word `s / 32`.
pub proof fn lemma_enable_disable_dual(w: u32, s: int)
    requires
        0 <= s < 1024,
        (w >> (s % 32) as u32) & 1 == 0,
    ensures
        (w | (1u32 << (s % 32) as u32)) & !(1u32 << (s % 32) as u32) == w,
{
    lemma_source_split(s);
    let b = (s % 32) as u32;
    assert((w >> b) & 1 == 0 && b < 32 ==> (w | (1u32 << b)) & !(1u32 << b) == w) by (bit_vector);
}

/// The claim/complete protocol: a source just claimed is no longer
/// claimable, and with nothing else raised, the next claim finds
/// nothing until a completion re-opens the gateway and the line raises
/// the source again.
pub proof fn lemma_claim_complete_law(p: PlicRefer, c: int, id: int)
    requires
        p.wf(),
        !p.is_pending(id),
        forall|s: int| p.is_candidate(c, s) ==> s == id,
    ensures
        forall|s: int| !p.is_candidate(c, s),
{
}

/// Once completed and raised again, an enabled source above the
/// threshold is claimable once more.
pub proof fn lemma_completed_source_claimable(p: PlicRefer, c: int, s: int)
    requires
        p.wf(),
        1 <= s < PLIC_MAX_SOURCES,
        p.is_pending(s),
        p.is_enabled(c, s),
        p.priorities@[s] > p.thresholds@[c],
    ensures
        p.is_candidate(c, s),
{
}

} // verus!
