//! A set-associative write-back cache in front of a lower level.

use super::{fits, Memory, MemoryAccess, MemoryValue, Transparency, ValueView};
use crate::processor::pipeline::StageType;
use vstd::prelude::*;

verus! {

/// Where an address falls in a cache: the place of its word within a line,
/// the first slot of its set, and the tag that tells its line from the
/// others that share the set.
#[derive(Clone, Copy, Debug)]
pub struct CacheLocation {
    pub offset: usize,
    pub index: usize,
    pub tag: usize,
}

/// How a full set chooses the slot that makes room.
#[derive(Clone, Copy, Debug, PartialEq, Eq, Structural)]
pub enum ReplacementPolicy {
    /// The least used slot, after the use counts of the set have decayed.
    LeastUsed,
    /// The slot that a hash of tag and set picks: the same slot every time
    /// for the same line.
    Hashed,
}

/// The 64-bit XXH3 hash of a sequence of bytes.
pub uninterp spec fn xxh3_64_of(input: Seq<u8>) -> u64;

/// The byte that the hashed policy hashes for a location: the low eight
/// bits of tag and set index combined.
pub open spec fn hash_key(location: CacheLocation) -> u8 {
    (location.tag ^ location.index) as u8
}

/// The slot of the set at `index` that a hash picks.
pub open spec fn hashed_slot_of(index: usize, associativity: usize, hash: u64) -> int {
    index + (hash as usize) as int % associativity as int
}

/// One slot of a cache as mathematics.
pub struct LineModel {
    /// The address that the slot was last filled or written for.
    pub addr: usize,
    pub valid: bool,
    /// Whether the slot holds words that the lower level does not have yet.
    pub dirty: bool,
    pub tag: usize,
    /// How often the slot was used since it was last written back.
    pub uses: usize,
    pub contents: Seq<usize>,
}

/// A cache as mathematics: its configuration, its access state, its slots
/// and the model of the level below.
pub struct CacheModel<LM> {
    pub size: usize,
    pub num_lines: usize,
    pub block_size: usize,
    pub word_size: usize,
    pub associativity: usize,
    pub policy: ReplacementPolicy,
    pub access: MemoryAccess,
    pub lines: Seq<LineModel>,
    pub lower: LM,
}

/// The integer part of the binary logarithm; 0 for 0 and 1.
pub open spec fn floor_log2(n: nat) -> nat
    decreases n,
{
    if n <= 1 {
        0
    } else {
        1 + floor_log2(n / 2)
    }
}

/// The use count that takes part in the choice of a slot to replace: counts
/// above four shrink to their binary logarithm, so that uses of long ago
/// do not pin a line.
pub open spec fn decayed(uses: usize) -> usize {
    if uses > 4 {
        floor_log2(uses as nat) as usize
    } else {
        uses
    }
}

/// A use count one higher; the greatest count stays.
pub open spec fn bumped(uses: usize) -> usize {
    if uses < usize::MAX {
        (uses + 1) as usize
    } else {
        uses
    }
}

/// The first slot in `lo..hi` of which `wanted` holds.
pub open spec fn first_where(
    lines: Seq<LineModel>,
    lo: int,
    hi: int,
    wanted: spec_fn(LineModel) -> bool,
) -> Option<int>
    decreases hi - lo,
{
    if lo >= hi {
        None
    } else if wanted(lines[lo]) {
        Some(lo)
    } else {
        first_where(lines, lo + 1, hi, wanted)
    }
}

/// The slot in `lo..hi` with the least use count, the earliest of them
/// where several have it; `lo` where the range is empty.
pub open spec fn least_used(lines: Seq<LineModel>, lo: int, hi: int) -> int
    decreases hi - lo,
{
    if hi <= lo + 1 {
        lo
    } else {
        let best = least_used(lines, lo, hi - 1);
        if lines[hi - 1].uses < lines[best].uses {
            hi - 1
        } else {
            best
        }
    }
}

/// The slots with the use counts of those in `lo..hi` decayed.
pub open spec fn decay_set(lines: Seq<LineModel>, lo: int, hi: int) -> Seq<LineModel> {
    Seq::new(
        lines.len(),
        |i: int|
            if lo <= i < hi {
                LineModel { uses: decayed(lines[i].uses), ..lines[i] }
            } else {
                lines[i]
            },
    )
}

/// A slot after its words went down to the lower level.
pub open spec fn cleaned(line: LineModel) -> LineModel {
    LineModel { dirty: false, uses: 0, ..line }
}

/// A slot after a value for `addr` was put into it: a line replaces the
/// words, a word the one at the offset of `addr`. The slot is then valid
/// and dirty, carries the tag of `addr`, and was used once more.
pub open spec fn inserted(
    line: LineModel,
    addr: usize,
    location: CacheLocation,
    value: ValueView,
) -> LineModel {
    LineModel {
        addr,
        valid: true,
        dirty: true,
        tag: location.tag,
        uses: bumped(line.uses),
        contents: match value {
            ValueView::Line(words) => words,
            ValueView::Value(word) => line.contents.update(location.offset as int, word),
        },
    }
}

/// What a slot answers a read with: its words, or the word at `offset`.
pub open spec fn answer_of(line: LineModel, offset: usize, whole: bool) -> ValueView {
    if whole {
        ValueView::Line(line.contents)
    } else {
        ValueView::Value(line.contents[offset as int])
    }
}

impl<LM> CacheModel<LM> {
    /// What holds of the cache's own part: the configuration is one that
    /// addresses can be mapped with, `lines` has `num_lines` slots of
    /// `block_size` words, and a dirty slot is valid.
    ///
    /// The slots divide evenly into sets of `associativity` slots.
    pub open spec fn wf(self) -> bool {
        &&& self.word_size >= 1
        &&& self.block_size >= 1
        &&& self.associativity >= 1
        &&& self.word_size * self.block_size <= usize::MAX
        &&& self.num_lines == self.size as int / self.word_size as int / self.block_size as int
        &&& self.num_lines >= 1
        &&& self.num_lines as int % self.associativity as int == 0
        &&& self.size as int / self.associativity as int >= 1
        &&& self.lines.len() == self.num_lines
        &&& forall|i: int|
            0 <= i < self.lines.len() ==> (#[trigger] self.lines[i]).contents.len()
                == self.block_size
        &&& forall|i: int| 0 <= i < self.lines.len() ==> ((#[trigger] self.lines[i]).dirty ==> self.lines[i].valid)
    }

    /// The byte address of the word that holds byte `addr`.
    pub open spec fn align(self, addr: usize) -> int {
        (addr as int / self.word_size as int) * self.word_size
    }

    /// The place of the word that holds byte `addr` within its line.
    pub open spec fn offset_of(self, addr: usize) -> int {
        (self.align(addr) / self.word_size as int) % self.block_size as int
    }

    /// The first slot of the set of `addr`.
    pub open spec fn index_of(self, addr: usize) -> int {
        ((self.align(addr) / (self.word_size * self.block_size)) * self.associativity)
            % self.num_lines as int
    }

    /// The tag of `addr`.
    pub open spec fn tag_of(self, addr: usize) -> int {
        self.align(addr) / (self.size as int / self.associativity as int)
    }

    pub open spec fn location(self, addr: usize) -> CacheLocation {
        CacheLocation {
            offset: self.offset_of(addr) as usize,
            index: self.index_of(addr) as usize,
            tag: self.tag_of(addr) as usize,
        }
    }

    /// The slot that holds the line of `location`: the first valid one in
    /// the set with the tag.
    pub open spec fn hit(self, location: CacheLocation) -> Option<int> {
        first_where(
            self.lines,
            location.index as int,
            location.index + self.associativity,
            |line: LineModel| line.valid && line.tag == location.tag,
        )
    }

    /// The slots and the slot chosen when a line has to make room: the first
    /// slot of the set that is not valid; where all are valid, the policy
    /// decides. Under `LeastUsed` the use counts of the set decay and the
    /// least used slot is chosen; under `Hashed` the slot that the hash of the
    /// location's key picks.
    pub open spec fn victim(self, location: CacheLocation) -> (Seq<LineModel>, int) {
        let lo = location.index as int;
        let hi = location.index + self.associativity;
        match first_where(self.lines, lo, hi, |line: LineModel| !line.valid) {
            Some(i) => (self.lines, i),
            None => match self.policy {
                ReplacementPolicy::LeastUsed => {
                    let lines = decay_set(self.lines, lo, hi);
                    (lines, least_used(lines, lo, hi))
                },
                ReplacementPolicy::Hashed => (
                    self.lines,
                    hashed_slot_of(
                        location.index,
                        self.associativity,
                        xxh3_64_of(seq![hash_key(location)]),
                    ),
                ),
            },
        }
    }

    /// An empty cache with the given configuration above `lower`, which
    /// replaces the least used slot.
    pub open spec fn blank(
        size: usize,
        block_size: usize,
        word_size: usize,
        latency: i32,
        associativity: usize,
        lower: LM,
    ) -> CacheModel<LM> {
        let num_lines = (size as int / word_size as int / block_size as int) as usize;
        CacheModel {
            size,
            num_lines,
            block_size,
            word_size,
            associativity,
            policy: ReplacementPolicy::LeastUsed,
            access: MemoryAccess::idle(latency),
            lines: Seq::new(num_lines as nat, |i: int| blank_line(block_size)),
            lower,
        }
    }
}

/// A slot that holds nothing.
pub open spec fn blank_line(block_size: usize) -> LineModel {
    LineModel {
        addr: 0,
        valid: false,
        dirty: false,
        tag: 0,
        uses: 0,
        contents: Seq::new(block_size as nat, |j: int| 0usize),
    }
}

/// `first_where` finds a slot in the range of which `wanted` holds and before
/// which it holds of none; it finds none only where there is none.
pub proof fn lemma_first_where(
    lines: Seq<LineModel>,
    lo: int,
    hi: int,
    wanted: spec_fn(LineModel) -> bool,
)
    ensures
        match first_where(lines, lo, hi, wanted) {
            Some(i) => lo <= i < hi && wanted(lines[i]) && forall|j: int|
                lo <= j < i ==> !wanted(#[trigger] lines[j]),
            None => forall|j: int| lo <= j < hi ==> !wanted(#[trigger] lines[j]),
        },
    decreases hi - lo,
{
    if lo < hi && !wanted(lines[lo]) {
        lemma_first_where(lines, lo + 1, hi, wanted);
    }
}

/// The least used slot of a range lies in it, no slot of the range has a
/// lower use count, and every slot before it has a higher one.
pub proof fn lemma_least_used(lines: Seq<LineModel>, lo: int, hi: int)
    requires
        lo < hi,
    ensures
        lo <= least_used(lines, lo, hi) < hi,
        forall|j: int|
            lo <= j < hi ==> lines[least_used(lines, lo, hi)].uses <= (#[trigger] lines[j]).uses,
        forall|j: int|
            lo <= j < least_used(lines, lo, hi) ==> lines[least_used(lines, lo, hi)].uses < (
            #[trigger] lines[j]).uses,
    decreases hi - lo,
{
    if hi > lo + 1 {
        lemma_least_used(lines, lo, hi - 1);
    }
}

/// With a valid configuration every address has its word within a line and
/// its set within the slots, and the three parts of its location fit a
/// `usize`.
pub proof fn lemma_location<LM>(m: CacheModel<LM>, addr: usize)
    requires
        m.wf(),
    ensures
        0 <= m.align(addr) <= addr,
        0 <= m.offset_of(addr) < m.block_size,
        0 <= m.index_of(addr),
        m.index_of(addr) + m.associativity <= m.num_lines,
        0 <= m.tag_of(addr) <= addr,
        m.location(addr).offset == m.offset_of(addr),
        m.location(addr).index == m.index_of(addr),
        m.location(addr).tag == m.tag_of(addr),
{
    let ws = m.word_size as int;
    let bs = m.block_size as int;
    let assoc = m.associativity as int;
    let n = m.num_lines as int;
    let a = addr as int;
    vstd::arithmetic::div_mod::lemma_fundamental_div_mod(a, ws);
    vstd::arithmetic::div_mod::lemma_div_pos_is_pos(a, ws);
    vstd::arithmetic::mul::lemma_mul_is_commutative(a / ws, ws);
    vstd::arithmetic::mul::lemma_mul_nonnegative(a / ws, ws);
    let aligned = m.align(addr);
    vstd::arithmetic::div_mod::lemma_div_pos_is_pos(aligned, ws);
    vstd::arithmetic::div_mod::lemma_mod_bound(aligned / ws, bs);
    // the set
    vstd::arithmetic::mul::lemma_mul_strictly_positive(ws, bs);
    let q = aligned / (ws * bs);
    vstd::arithmetic::div_mod::lemma_div_pos_is_pos(aligned, ws * bs);
    let sets = n / assoc;
    vstd::arithmetic::div_mod::lemma_fundamental_div_mod(n, assoc);
    assert(n == assoc * sets);
    assert(sets >= 1) by (nonlinear_arith)
        requires
            n == assoc * sets,
            n >= 1,
            assoc >= 1,
    ;
    vstd::arithmetic::div_mod::lemma_truncate_middle(q, assoc, sets);
    vstd::arithmetic::mul::lemma_mul_is_commutative(q, assoc);
    assert(m.index_of(addr) == assoc * (q % sets));
    vstd::arithmetic::div_mod::lemma_mod_bound(q, sets);
    assert(0 <= assoc * (q % sets) && assoc * (q % sets) + assoc <= assoc * sets)
        by (nonlinear_arith)
        requires
            0 <= q % sets < sets,
            assoc >= 1,
    ;
    // the tag
    let way = m.size as int / assoc;
    vstd::arithmetic::div_mod::lemma_div_pos_is_pos(aligned, way);
    vstd::arithmetic::div_mod::lemma_div_is_ordered_by_denominator(aligned, 1, way);
}

/// One slot of a cache.
#[derive(Debug)]
pub struct CacheLine {
    addr: usize,
    valid: bool,
    dirty: bool,
    tag: usize,
    uses: usize,
    contents: Vec<usize>,
}

impl View for CacheLine {
    type V = LineModel;

    closed spec fn view(&self) -> LineModel {
        LineModel {
            addr: self.addr,
            valid: self.valid,
            dirty: self.dirty,
            tag: self.tag,
            uses: self.uses,
            contents: self.contents@,
        }
    }
}

/// The views of a sequence of slots.
pub open spec fn slot_views(slots: Seq<CacheLine>) -> Seq<LineModel> {
    slots.map_values(|slot: CacheLine| slot@)
}

/// The integer part of the binary logarithm of `n`; 0 for 0.
pub fn ilog2(n: usize) -> (r: usize)
    ensures
        r == floor_log2(n as nat),
{
    let mut rest: usize = n;
    let mut r: usize = 0;
    while rest > 1
        invariant
            r + floor_log2(rest as nat) == floor_log2(n as nat),
            r + rest <= n || rest <= 1,
            r <= n,
        decreases rest,
    {
        rest = rest / 2;
        r = r + 1;
    }
    r
}

/// A set-associative write-back cache of `size` bytes in front of the level
/// `lower_level`.
///
/// Lines hold `block_size` words of `word_size` bytes; `associativity`
/// neighbouring slots make a set.
pub struct Cache<L: Memory> {
    size: usize,
    num_lines: usize,
    block_size: usize,
    word_size: usize,
    associativity: usize,
    policy: ReplacementPolicy,
    lower_level: Box<L>,
    access: MemoryAccess,
    contents: Vec<CacheLine>,
}

/// The slot of the set at `index` that `hash` picks.
pub fn hashed_slot(index: usize, associativity: usize, hash: u64) -> (slot: usize)
    requires
        associativity > 0,
        index + associativity <= usize::MAX,
    ensures
        slot == hashed_slot_of(index, associativity, hash),
        index <= slot < index + associativity,
{
    index + hash as usize % associativity
}

/// Calls `xxhash_rust::xxh3::xxh3_64`, which computes the 64-bit XXH3 hash of
/// its input with the default secret and no seed. The result is taken to
/// be a function of the bytes alone; nothing else is claimed of it.
#[verifier::external_body]
fn xxh3_64(input: &[u8]) -> (hash: u64)
    ensures
        hash == xxh3_64_of(input@),
{
    xxhash_rust::xxh3::xxh3_64(input)
}

impl<L: Memory> Cache<L> {
    /// An empty cache that replaces the least used slot. It is valid, and can
    /// be read and written, where its configuration is (see
    /// `CacheModel::wf`), the lower level is valid, and the lines of both
    /// have the same length.
    pub fn new(
        size: usize,
        block_size: usize,
        word_size: usize,
        latency: i32,
        associativity: usize,
        lower_level: Box<L>,
    ) -> (cache: Cache<L>)
        requires
            block_size > 0,
            word_size > 0,
        ensures
            cache.model() == CacheModel::blank(
                size,
                block_size,
                word_size,
                latency,
                associativity,
                lower_level.model(),
            ),
    {
        let num_lines = size / word_size / block_size;
        Self {
            size,
            num_lines,
            block_size,
            word_size,
            associativity,
            policy: ReplacementPolicy::LeastUsed,
            lower_level,
            access: MemoryAccess::new(latency, None),
            contents: Cache::<L>::create_blank_cache_contents(block_size, num_lines),
        }
    }

    /// The cache with another replacement policy.
    pub fn with_policy(self, policy: ReplacementPolicy) -> (cache: Cache<L>)
        ensures
            cache.model() == (CacheModel { policy, ..self.model() }),
    {
        let mut cache = self;
        cache.policy = policy;
        cache
    }

    fn create_blank_cache_contents(block_size: usize, num_lines: usize) -> (slots: Vec<CacheLine>)
        ensures
            slot_views(slots@) == Seq::new(num_lines as nat, |i: int| blank_line(block_size)),
    {
        let mut slots: Vec<CacheLine> = Vec::new();
        let mut i: usize = 0;
        while i < num_lines
            invariant
                i <= num_lines,
                slots@.len() == i,
                forall|j: int| 0 <= j < i ==> (#[trigger] slots@[j])@ == blank_line(block_size),
            decreases num_lines - i,
        {
            let contents: Vec<usize> = vec![0usize; block_size];
            assert(contents@ =~= blank_line(block_size).contents);
            slots.push(
                CacheLine { addr: 0, valid: false, dirty: false, tag: 0, uses: 0, contents },
            );
            i += 1;
        }
        assert(slot_views(slots@) =~= Seq::new(num_lines as nat, |i: int| blank_line(block_size)));
        slots
    }

    fn align(&self, addr: usize) -> (aligned: usize)
        requires
            self.model().wf(),
        ensures
            aligned == self.model().align(addr),
    {
        proof {
            lemma_location(self.model(), addr);
        }
        addr / self.word_size * self.word_size
    }

    fn cache_location(&self, addr: usize) -> (location: CacheLocation)
        requires
            self.model().wf(),
        ensures
            location == self.model().location(addr),
            location.offset < self.block_size,
            location.index + self.associativity <= self.num_lines,
    {
        proof {
            lemma_location(self.model(), addr);
        }
        let addr = self.align(addr);
        assert(self.word_size * self.block_size > 0) by (nonlinear_arith)
            requires
                self.word_size > 0,
                self.block_size > 0,
        ;
        let block: u128 = (addr / (self.word_size * self.block_size)) as u128;
        assert(block * (self.associativity as u128) <= u128::MAX) by (nonlinear_arith)
            requires
                block <= u64::MAX,
                self.associativity <= u64::MAX,
        ;
        let index: u128 = block * (self.associativity as u128) % (self.num_lines as u128);
        CacheLocation {
            offset: (addr / self.word_size) % self.block_size,
            index: index as usize,
            tag: addr / (self.size / self.associativity),
        }
    }

    /// The slot that holds the line of `location`, if one does.
    fn find_line_in_cache(&self, location: &CacheLocation) -> (found: Option<usize>)
        requires
            self.model().wf(),
            location.index + self.associativity <= self.num_lines,
        ensures
            match found {
                Some(i) => self.model().hit(*location) == Some(i as int),
                None => self.model().hit(*location) is None,
            },
            found matches Some(i) ==> location.index <= i < location.index + self.associativity,
    {
        let ghost wanted = |line: LineModel| line.valid && line.tag == location.tag;
        let hi = location.index + self.associativity;
        let mut i: usize = location.index;
        while i < hi
            invariant
                location.index <= i <= hi,
                hi == location.index + self.associativity,
                hi <= self.contents@.len(),
                wanted == |line: LineModel| line.valid && line.tag == location.tag,
                self.model().hit(*location) == first_where(
                    slot_views(self.contents@),
                    i as int,
                    hi as int,
                    wanted,
                ),
            decreases hi - i,
        {
            if self.contents[i].valid && self.contents[i].tag == location.tag {
                assert(wanted(slot_views(self.contents@)[i as int]));
                return Some(i);
            }
            assert(!wanted(slot_views(self.contents@)[i as int]));
            i += 1;
        }
        None
    }

    /// Chooses the slot that makes room for the line of `location`.
    fn find_line_to_replace(&mut self, location: &CacheLocation) -> (chosen: usize)
        requires
            old(self).model().wf(),
            location.index + old(self).associativity <= old(self).num_lines,
        ensures
            final(self).model() == (CacheModel {
                lines: old(self).model().victim(*location).0,
                ..old(self).model()
            }),
            chosen == old(self).model().victim(*location).1,
            location.index <= chosen < location.index + old(self).associativity,
            final(self).model().wf(),
    {
        let ghost wanted = |line: LineModel| !line.valid;
        let hi = location.index + self.associativity;
        let mut i: usize = location.index;
        while i < hi
            invariant
                location.index <= i <= hi,
                hi == location.index + self.associativity,
                hi <= self.contents@.len(),
                wanted == |line: LineModel| !line.valid,
                *self == *old(self),
                self.model().wf(),
                first_where(
                    slot_views(self.contents@),
                    location.index as int,
                    hi as int,
                    wanted,
                ) == first_where(slot_views(self.contents@), i as int, hi as int, wanted),
            decreases hi - i,
        {
            if !self.contents[i].valid {
                assert(wanted(slot_views(self.contents@)[i as int]));
                return i;
            }
            assert(!wanted(slot_views(self.contents@)[i as int]));
            i += 1;
        }
        match self.policy {
            ReplacementPolicy::LeastUsed => self.get_replacement(location),
            ReplacementPolicy::Hashed => {
                let key: u8 = (location.tag ^ location.index) as u8;
                let hash = xxh3_64(&[key]);
                assert([key]@ =~= seq![hash_key(*location)]);
                hashed_slot(location.index, self.associativity, hash)
            },
        }
    }

    /// The slot that a write for `location` goes to: the one that holds the
    /// line, else one that makes room.
    fn get_write_line_index(&mut self, location: &CacheLocation) -> (chosen: usize)
        requires
            old(self).model().wf(),
            location.index + old(self).associativity <= old(self).num_lines,
        ensures
            final(self).model() == (CacheModel {
                lines: write_slot(old(self).model(), *location).0,
                ..old(self).model()
            }),
            chosen == write_slot(old(self).model(), *location).1,
            location.index <= chosen < location.index + old(self).associativity,
            final(self).model().wf(),
    {
        match self.find_line_in_cache(location) {
            Some(found) => found,
            None => self.find_line_to_replace(location),
        }
    }

    /// Lets the use counts of the set decay, then picks its least used slot,
    /// the earliest of several.
    fn get_replacement(&mut self, location: &CacheLocation) -> (chosen: usize)
        requires
            old(self).model().wf(),
            location.index + old(self).associativity <= old(self).num_lines,
        ensures
            final(self).model() == (CacheModel {
                lines: decay_set(
                    old(self).model().lines,
                    location.index as int,
                    location.index + old(self).associativity,
                ),
                ..old(self).model()
            }),
            chosen == least_used(
                final(self).model().lines,
                location.index as int,
                location.index + old(self).associativity,
            ),
            location.index <= chosen < location.index + old(self).associativity,
            final(self).model().wf(),
    {
        let lo = location.index;
        let hi = location.index + self.associativity;
        let mut i: usize = lo;
        assert(slot_views(self.contents@) =~= decay_set(
            old(self).model().lines,
            lo as int,
            lo as int,
        ));
        while i < hi
            invariant
                lo <= i <= hi,
                hi <= self.contents@.len(),
                self.model() == (CacheModel {
                    lines: decay_set(old(self).model().lines, lo as int, i as int),
                    ..old(self).model()
                }),
            decreases hi - i,
        {
            let ghost before = slot_views(self.contents@);
            assert(before[i as int] == self.contents@[i as int]@);
            let uses = self.contents[i].uses;
            if uses > 4 {
                self.contents[i].uses = ilog2(uses);
            }
            assert(slot_views(self.contents@) =~= before.update(
                i as int,
                LineModel { uses: decayed(before[i as int].uses), ..before[i as int] },
            ));
            assert(slot_views(self.contents@) =~= decay_set(
                old(self).model().lines,
                lo as int,
                i + 1,
            ));
            i += 1;
        }

        let ghost decayed_model = self.model();
        proof {
            lemma_decay_keeps_shape(old(self).model(), lo as int, hi as int);
        }
        let mut least_used_index: usize = lo;
        let mut i: usize = lo + 1;
        while i < hi
            invariant
                lo < i <= hi,
                hi <= self.contents@.len(),
                lo <= least_used_index < i,
                *self == *old(self) || self.model() == decayed_model,
                self.model() == decayed_model,
                least_used_index == least_used(slot_views(self.contents@), lo as int, i as int),
            decreases hi - i,
        {
            assert(slot_views(self.contents@)[i as int] == self.contents@[i as int]@);
            assert(slot_views(self.contents@)[least_used_index as int]
                == self.contents@[least_used_index as int]@);
            if self.contents[i].uses < self.contents[least_used_index].uses {
                least_used_index = i;
            }
            i += 1;
        }
        least_used_index
    }

    /// One attempt to hand the words of slot `index` down to the lower
    /// level. Where the lower level takes them the slot is clean.
    fn write_to_lower_level(&mut self, index: usize, stage: StageType) -> (done: bool)
        requires
            Self::inv(old(self).model()),
            index < old(self).num_lines,
        ensures
            (final(self).model(), done) == written_back::<L>(
                old(self).model(),
                index as int,
                stage,
            ),
            Self::inv(final(self).model()),
    {
        let cloned_value = MemoryValue::Line(self.contents[index].contents.clone());
        let addr = self.contents[index].addr;
        assert(slot_views(self.contents@)[index as int] == self.contents@[index as int]@);
        proof {
            L::lemma_write(self.lower_level.model(), addr, cloned_value@, stage);
        }
        if !self.lower_level.write(addr, &cloned_value, stage) {
            return false;
        }
        self.contents[index].dirty = false;
        self.contents[index].uses = 0;
        assert(slot_views(self.contents@) =~= old(self).model().lines.update(
            index as int,
            cleaned(old(self).model().lines[index as int]),
        ));
        true
    }

    /// Puts a value for `addr` into slot `index`.
    fn insert_value_into_cache(
        &mut self,
        addr: usize,
        index: usize,
        location: &CacheLocation,
        value: &MemoryValue,
    )
        requires
            Self::inv(old(self).model()),
            index < old(self).num_lines,
            location.offset < old(self).block_size,
            fits(value@, old(self).block_size as nat),
        ensures
            final(self).model() == (CacheModel {
                lines: old(self).model().lines.update(
                    index as int,
                    inserted(old(self).model().lines[index as int], addr, *location, value@),
                ),
                ..old(self).model()
            }),
            Self::inv(final(self).model()),
    {
        assert(slot_views(self.contents@)[index as int] == self.contents@[index as int]@);
        match value {
            MemoryValue::Line(words) => {
                self.contents[index].contents = words.clone();
            },
            MemoryValue::Value(word) => {
                self.contents[index].contents[location.offset] = *word;
            },
        }
        self.contents[index].addr = addr;
        self.contents[index].valid = true;
        self.contents[index].dirty = true;
        self.contents[index].tag = location.tag;
        let uses = self.contents[index].uses;
        if uses < usize::MAX {
            self.contents[index].uses = uses + 1;
        }
        assert(slot_views(self.contents@) =~= old(self).model().lines.update(
            index as int,
            inserted(old(self).model().lines[index as int], addr, *location, value@),
        ));
    }

    /// One attempt to get the line of `addr` from the lower level.
    fn fetch_from_lower_level(&mut self, addr: usize, stage: StageType) -> (words: Option<
        Vec<usize>,
    >)
        requires
            Self::inv(old(self).model()),
        ensures
            final(self).model() == fetched::<L>(old(self).model(), addr, stage).0,
            match words {
                Some(w) => fetched::<L>(old(self).model(), addr, stage).1 == Some(w@),
                None => fetched::<L>(old(self).model(), addr, stage).1 is None,
            },
            words matches Some(w) ==> w@.len() == old(self).block_size,
            Self::inv(final(self).model()),
    {
        proof {
            L::lemma_read(self.lower_level.model(), addr, stage, true);
        }
        match self.lower_level.read(addr, stage, true) {
            Some(MemoryValue::Line(words)) => Some(words),
            _ => None,
        }
    }

    /// What slot `index` answers a read with.
    fn answer(&self, index: usize, offset: usize, whole: bool) -> (value: MemoryValue)
        requires
            self.model().wf(),
            index < self.num_lines,
            offset < self.block_size,
        ensures
            value@ == answer_of(self.model().lines[index as int], offset, whole),
    {
        assert(slot_views(self.contents@)[index as int] == self.contents@[index as int]@);
        if whole {
            MemoryValue::Line(self.contents[index].contents.clone())
        } else {
            MemoryValue::Value(self.contents[index].contents[offset])
        }
    }
}

/// The cache after one attempt to hand the words of slot `k` down to the
/// lower level, and whether the lower level took them. A slot whose words
/// were taken is clean.
pub open spec fn written_back<L: Memory>(m: CacheModel<L::Model>, k: int, stage: StageType) -> (
    CacheModel<L::Model>,
    bool,
) {
    let (lower, done) = L::write_model(
        m.lower,
        m.lines[k].addr,
        ValueView::Line(m.lines[k].contents),
        stage,
    );
    (
        CacheModel {
            lower,
            lines: if done {
                m.lines.update(k, cleaned(m.lines[k]))
            } else {
                m.lines
            },
            ..m
        },
        done,
    )
}

/// The cache after one attempt to get the line of `addr` from the lower
/// level, and the words of the line, where the lower level gave them.
pub open spec fn fetched<L: Memory>(m: CacheModel<L::Model>, addr: usize, stage: StageType) -> (
    CacheModel<L::Model>,
    Option<Seq<usize>>,
) {
    let (lower, answer) = L::read_model(m.lower, addr, stage, true);
    (
        CacheModel { lower, ..m },
        match answer {
            Some(ValueView::Line(words)) => Some(words),
            _ => None,
        },
    )
}

/// The slot that a write for `location` goes to, with the slots as the
/// choice leaves them: the slot that holds the line, else one that makes
/// room.
pub open spec fn write_slot<LM>(m: CacheModel<LM>, location: CacheLocation) -> (
    Seq<LineModel>,
    int,
) {
    match m.hit(location) {
        Some(i) => (m.lines, i),
        None => m.victim(location),
    }
}

impl<L: Memory> Transparency for Cache<L> {
    type Model = CacheModel<L::Model>;

    closed spec fn model(&self) -> CacheModel<L::Model> {
        CacheModel {
            size: self.size,
            num_lines: self.num_lines,
            block_size: self.block_size,
            word_size: self.word_size,
            associativity: self.associativity,
            policy: self.policy,
            access: self.access,
            lines: slot_views(self.contents@),
            lower: self.lower_level.model(),
        }
    }

    /// The cache's own part is valid, the lower level is, and the lines of
    /// both have the same length.
    open spec fn inv(m: CacheModel<L::Model>) -> bool {
        &&& m.wf()
        &&& L::inv(m.lower)
        &&& L::line_len(m.lower) == m.block_size
    }

    open spec fn lines_of(m: CacheModel<L::Model>, line_num: usize) -> Seq<Seq<usize>> {
        L::lines_of(m.lower, line_num).push(
            m.lines[if line_num < m.num_lines {
                line_num as int
            } else {
                0
            }].contents,
        )
    }

    open spec fn accesses_of(m: CacheModel<L::Model>) -> Seq<MemoryAccess> {
        L::accesses_of(m.lower).push(m.access)
    }

    open spec fn sizes_of(m: CacheModel<L::Model>) -> Seq<usize> {
        L::sizes_of(m.lower).push(m.size)
    }

    fn view_line(&self, line_num: usize) -> (lines: Vec<&Vec<usize>>) {
        let mut lines = self.lower_level.view_line(line_num);
        let shown: usize = if line_num < self.num_lines {
            line_num
        } else {
            0
        };
        lines.push(&self.contents[shown].contents);
        assert(lines.deep_view() =~= Self::lines_of(self.model(), line_num)) by {
            let below = L::lines_of(self.lower_level.model(), line_num);
            assert(lines.deep_view().len() == below.len() + 1);
            assert(slot_views(self.contents@)[shown as int] == self.contents@[shown as int]@);
            assert forall|i: int| 0 <= i < lines.deep_view().len() implies lines.deep_view()[i]
                == Self::lines_of(self.model(), line_num)[i] by {
                if i < below.len() {
                    assert(lines.deep_view()[i] == below[i]);
                } else {
                    assert(lines.deep_view()[i] =~= self.contents@[shown as int].contents@);
                }
            }
        }
        lines
    }

    fn view_access(&self) -> (accesses: Vec<&MemoryAccess>) {
        let mut accesses = self.lower_level.view_access();
        accesses.push(&self.access);
        accesses
    }

    fn view_size(&self) -> (sizes: Vec<usize>) {
        let mut sizes = self.lower_level.view_size();
        sizes.push(self.size);
        sizes
    }
}

impl<L: Memory> Memory for Cache<L> {
    open spec fn line_len(m: CacheModel<L::Model>) -> nat {
        m.block_size as nat
    }

    /// One attempt to read.
    ///
    /// Until the access is granted only the access state moves. Then, where
    /// a slot holds the line, the slot answers, is used once more, and the
    /// cache is free again. Else a slot makes room: if it is dirty its words
    /// go down first, and the line comes up from the lower level into it,
    /// clean. While the lower level is busy with either, there is no answer
    /// and the stage keeps the access.
    open spec fn read_model(
        m: CacheModel<L::Model>,
        addr: usize,
        stage: StageType,
        line: bool,
    ) -> (CacheModel<L::Model>, Option<ValueView>) {
        let m0 = CacheModel { access: m.access.attempted(stage), ..m };
        let location = m0.location(addr);
        if !m.access.grants(stage) {
            (m0, None)
        } else {
            match m0.hit(location) {
                Some(i) => (
                    CacheModel {
                        access: m0.access.released(),
                        lines: m0.lines.update(
                            i,
                            LineModel { uses: bumped(m0.lines[i].uses), ..m0.lines[i] },
                        ),
                        ..m0
                    },
                    Some(answer_of(m0.lines[i], location.offset, line)),
                ),
                None => {
                    let (lines, k) = m0.victim(location);
                    let m1 = CacheModel { lines, ..m0 };
                    let (m2, clean) = if m1.lines[k].dirty {
                        written_back::<L>(m1, k, stage)
                    } else {
                        (m1, true)
                    };
                    if !clean {
                        (m2, None)
                    } else {
                        let (m3, words) = fetched::<L>(m2, addr, stage);
                        match words {
                            None => (m3, None),
                            Some(words) => {
                                let slot = LineModel {
                                    dirty: false,
                                    ..inserted(m3.lines[k], addr, location, ValueView::Line(words))
                                };
                                (
                                    CacheModel {
                                        access: m3.access.released(),
                                        lines: m3.lines.update(k, slot),
                                        ..m3
                                    },
                                    Some(answer_of(slot, location.offset, line)),
                                )
                            },
                        }
                    }
                },
            }
        }
    }

    /// One attempt to write.
    ///
    /// Until the access is granted only the access state moves. Then the
    /// value goes to the slot that holds the line, else to one that makes
    /// room. A dirty slot with another tag hands its words down first, and a
    /// slot with another tag is then filled with the line from the lower
    /// level, so that a word is never stored into a line that was not
    /// read. While the lower level is busy with either, nothing is stored
    /// and the stage keeps the access.
    open spec fn write_model(
        m: CacheModel<L::Model>,
        addr: usize,
        value: ValueView,
        stage: StageType,
    ) -> (CacheModel<L::Model>, bool) {
        let m0 = CacheModel { access: m.access.attempted(stage), ..m };
        let location = m0.location(addr);
        if !m.access.grants(stage) {
            (m0, false)
        } else {
            let (lines, k) = write_slot(m0, location);
            let m1 = CacheModel { lines, ..m0 };
            let (m2, clean) = if m1.lines[k].dirty && m1.lines[k].tag != location.tag {
                written_back::<L>(m1, k, stage)
            } else {
                (m1, true)
            };
            if !clean {
                (m2, false)
            } else if m2.lines[k].tag != location.tag {
                let (m3, words) = fetched::<L>(m2, addr, stage);
                match words {
                    None => (m3, false),
                    Some(words) => {
                        let filled = inserted(m3.lines[k], addr, location, ValueView::Line(words));
                        (
                            CacheModel {
                                access: m3.access.released(),
                                lines: m3.lines.update(k, inserted(filled, addr, location, value)),
                                ..m3
                            },
                            true,
                        )
                    },
                }
            } else {
                (
                    CacheModel {
                        access: m2.access.released(),
                        lines: m2.lines.update(k, inserted(m2.lines[k], addr, location, value)),
                        ..m2
                    },
                    true,
                )
            }
        }
    }

    /// The program goes to the lower level; the slots stay as they are.
    open spec fn flash_model(m: CacheModel<L::Model>, addr: usize, program: Seq<usize>) -> CacheModel<
        L::Model,
    > {
        CacheModel { lower: L::flash_model(m.lower, addr, program), ..m }
    }

    open spec fn reset_state_model(m: CacheModel<L::Model>) -> CacheModel<L::Model> {
        CacheModel { access: m.access.released(), lower: L::reset_state_model(m.lower), ..m }
    }

    open spec fn reset_model(m: CacheModel<L::Model>) -> CacheModel<L::Model> {
        CacheModel {
            policy: m.policy,
            ..CacheModel::blank(
                m.size,
                m.block_size,
                m.word_size,
                m.access.latency,
                m.associativity,
                L::reset_model(m.lower),
            )
        }
    }

    proof fn lemma_read(m: CacheModel<L::Model>, addr: usize, stage: StageType, line: bool) {
        let m0 = CacheModel { access: m.access.attempted(stage), ..m };
        let location = m0.location(addr);
        lemma_location(m0, addr);
        if m.access.grants(stage) {
            lemma_slots(m0, location);
            if m0.hit(location) is None {
                let (lines, k) = m0.victim(location);
                let m1 = CacheModel { lines, ..m0 };
                if m1.lines[k].dirty {
                    lemma_written_back::<L>(m1, k, stage);
                }
                let (m2, clean) = if m1.lines[k].dirty {
                    written_back::<L>(m1, k, stage)
                } else {
                    (m1, true)
                };
                if clean {
                    lemma_fetched::<L>(m2, addr, stage);
                }
            }
        }
    }

    proof fn lemma_write(m: CacheModel<L::Model>, addr: usize, value: ValueView, stage: StageType) {
        let m0 = CacheModel { access: m.access.attempted(stage), ..m };
        let location = m0.location(addr);
        lemma_location(m0, addr);
        if m.access.grants(stage) {
            lemma_slots(m0, location);
            let (lines, k) = write_slot(m0, location);
            let m1 = CacheModel { lines, ..m0 };
            let moves = m1.lines[k].dirty && m1.lines[k].tag != location.tag;
            if moves {
                lemma_written_back::<L>(m1, k, stage);
            }
            let (m2, clean) = if moves {
                written_back::<L>(m1, k, stage)
            } else {
                (m1, true)
            };
            if clean && m2.lines[k].tag != location.tag {
                lemma_fetched::<L>(m2, addr, stage);
            }
        }
    }

    proof fn lemma_maintenance(m: CacheModel<L::Model>, addr: usize, program: Seq<usize>) {
        L::lemma_maintenance(m.lower, addr, program);
    }

    proof fn lemma_owner_only(
        m: CacheModel<L::Model>,
        addr: usize,
        value: ValueView,
        stage: StageType,
        line: bool,
    ) {
    }

    fn read(&mut self, addr: usize, stage: StageType, line: bool) -> (answer: Option<MemoryValue>) {
        proof {
            Self::lemma_read(self.model(), addr, stage, line);
        }
        if !self.access.attempt_access(stage) {
            return None;
        }
        let location = self.cache_location(addr);

        // the line is here: answer from the slot
        if let Some(found) = self.find_line_in_cache(&location) {
            let answer = self.answer(found, location.offset, line);
            self.access.reset_access_state();
            let uses = self.contents[found].uses;
            if uses < usize::MAX {
                self.contents[found].uses = uses + 1;
            }
            proof {
                let m0 = CacheModel {
                    access: old(self).model().access.attempted(stage),
                    ..old(self).model()
                };
                assert(slot_views(self.contents@) =~= m0.lines.update(
                    found as int,
                    LineModel {
                        uses: bumped(m0.lines[found as int].uses),
                        ..m0.lines[found as int]
                    },
                ));
            }
            return Some(answer);
        }
        // the line is below: a slot makes room, handing its words down first
        // if the lower level does not have them
        proof {
            lemma_slots(self.model(), location);
        }
        let index_to_replace = self.find_line_to_replace(&location);
        assert(slot_views(self.contents@)[index_to_replace as int]
            == self.contents@[index_to_replace as int]@);

        if self.contents[index_to_replace].dirty && !self.write_to_lower_level(
            index_to_replace,
            stage,
        ) {
            return None;
        }
        match self.fetch_from_lower_level(addr, stage) {
            None => None,
            Some(words) => {
                let ghost before = self.model();
                self.insert_value_into_cache(
                    addr,
                    index_to_replace,
                    &location,
                    &MemoryValue::Line(words),
                );
                let ghost mid = self.model();
                assert(mid.lines[index_to_replace as int] == self.contents@[index_to_replace as int]@);
                self.contents[index_to_replace].dirty = false;
                self.access.reset_access_state();
                proof {
                    let k = index_to_replace as int;
                    assert(slot_views(self.contents@) =~= mid.lines.update(
                        k,
                        LineModel { dirty: false, ..mid.lines[k] },
                    ));
                    let slot = LineModel {
                        dirty: false,
                        ..inserted(before.lines[k], addr, location, ValueView::Line(words@))
                    };
                    assert(slot_views(self.contents@) =~= before.lines.update(k, slot));
                }
                Some(self.answer(index_to_replace, location.offset, line))
            },
        }
    }

    fn write(&mut self, addr: usize, value: &MemoryValue, stage: StageType) -> (done: bool) {
        proof {
            Self::lemma_write(self.model(), addr, value@, stage);
        }
        if !self.access.attempt_access(stage) {
            return false;
        }
        let location = self.cache_location(addr);
        proof {
            lemma_slots(self.model(), location);
        }
        let cache_line_index = self.get_write_line_index(&location);
        assert(slot_views(self.contents@)[cache_line_index as int]
            == self.contents@[cache_line_index as int]@);

        // a dirty slot that holds another line hands its words down first
        if self.contents[cache_line_index].dirty && self.contents[cache_line_index].tag
            != location.tag && !self.write_to_lower_level(cache_line_index, stage) {
            return false;
        }
        assert(slot_views(self.contents@)[cache_line_index as int]
            == self.contents@[cache_line_index as int]@);

        // a slot that held another line is filled with the line of `addr`
        // before anything is stored in it
        let ghost k = cache_line_index as int;
        if self.contents[cache_line_index].tag != location.tag {
            match self.fetch_from_lower_level(addr, stage) {
                None => {
                    return false;
                },
                Some(words) => {
                    let ghost m3 = self.model();
                    self.insert_value_into_cache(
                        addr,
                        cache_line_index,
                        &location,
                        &MemoryValue::Line(words),
                    );
                    self.insert_value_into_cache(addr, cache_line_index, &location, value);
                    proof {
                        let filled = inserted(m3.lines[k], addr, location, ValueView::Line(words@));
                        assert(self.model().lines =~= m3.lines.update(
                            k,
                            inserted(filled, addr, location, value@),
                        ));
                    }
                },
            }
        } else {
            self.insert_value_into_cache(addr, cache_line_index, &location, value);
        }

        self.access.reset_access_state();
        true
    }

    fn flash(&mut self, addr: usize, program: &[usize]) {
        proof {
            L::lemma_maintenance(self.lower_level.model(), addr, program@);
        }
        self.lower_level.flash(addr, program);
    }

    fn reset_state(&mut self) {
        proof {
            L::lemma_maintenance(self.lower_level.model(), 0, Seq::empty());
        }
        self.lower_level.reset_state();
        self.access.reset_access_state();
    }

    fn reset(&mut self) {
        proof {
            L::lemma_maintenance(self.lower_level.model(), 0, Seq::empty());
        }
        self.contents = Cache::<L>::create_blank_cache_contents(self.block_size, self.num_lines);
        self.lower_level.reset();
        self.access.reset_access_state();
    }
}

/// Decay changes use counts only.
pub proof fn lemma_decay_keeps_shape<LM>(m: CacheModel<LM>, lo: int, hi: int)
    requires
        m.wf(),
    ensures
        (CacheModel { lines: decay_set(m.lines, lo, hi), ..m }).wf(),
{
}

/// Choosing a slot, for a read or for a write, keeps the cache's own part
/// valid, and the slot chosen lies in the set.
pub proof fn lemma_slots<LM>(m: CacheModel<LM>, location: CacheLocation)
    requires
        m.wf(),
        location.index + m.associativity <= m.num_lines,
    ensures
        (CacheModel { lines: m.victim(location).0, ..m }).wf(),
        location.index <= m.victim(location).1 < location.index + m.associativity,
        (CacheModel { lines: write_slot(m, location).0, ..m }).wf(),
        location.index <= write_slot(m, location).1 < location.index + m.associativity,
        m.hit(location) matches Some(i) ==> location.index <= i < location.index
            + m.associativity,
{
    let lo = location.index as int;
    let hi = location.index + m.associativity;
    lemma_first_where(m.lines, lo, hi, |line: LineModel| line.valid && line.tag == location.tag);
    lemma_first_where(m.lines, lo, hi, |line: LineModel| !line.valid);
    lemma_least_used(decay_set(m.lines, lo, hi), lo, hi);
    vstd::arithmetic::div_mod::lemma_mod_bound(
        (xxh3_64_of(seq![hash_key(location)]) as usize) as int,
        m.associativity as int,
    );
}

/// Handing a slot's words down keeps a valid cache valid.
pub proof fn lemma_written_back<L: Memory>(m: CacheModel<L::Model>, k: int, stage: StageType)
    requires
        Cache::<L>::inv(m),
        0 <= k < m.num_lines,
    ensures
        Cache::<L>::inv(written_back::<L>(m, k, stage).0),
        Cache::<L>::reset_model(written_back::<L>(m, k, stage).0) == Cache::<L>::reset_model(m),
{
    L::lemma_write(m.lower, m.lines[k].addr, ValueView::Line(m.lines[k].contents), stage);
}

/// Getting a line from the lower level keeps a valid cache valid, and the
/// line has the cache's line length.
pub proof fn lemma_fetched<L: Memory>(m: CacheModel<L::Model>, addr: usize, stage: StageType)
    requires
        Cache::<L>::inv(m),
    ensures
        Cache::<L>::inv(fetched::<L>(m, addr, stage).0),
        Cache::<L>::reset_model(fetched::<L>(m, addr, stage).0) == Cache::<L>::reset_model(m),
        fetched::<L>(m, addr, stage).1 matches Some(words) ==> words.len() == m.block_size,
{
    L::lemma_read(m.lower, addr, stage, true);
}

} // verus!
