//! Main memory: lines of words behind an access latency.

use super::{fits, Memory, MemoryAccess, MemoryValue, Transparency, ValueView};
use crate::processor::pipeline::StageType;
use vstd::prelude::*;

verus! {

/// Main memory as mathematics: its configuration, its access state and its
/// lines, each a sequence of words.
pub struct RamModel {
    pub size: usize,
    pub block_size: usize,
    pub word_size: usize,
    pub access: MemoryAccess,
    pub lines: Seq<Seq<usize>>,
}

/// The views of a sequence of lines.
pub open spec fn line_views(lines: Seq<Vec<usize>>) -> Seq<Seq<usize>> {
    lines.map_values(|line: Vec<usize>| line@)
}

impl RamModel {
    /// There is at least one line, a line has at least one word, a word at
    /// least one byte, and `lines` has `size` lines of `block_size` words.
    pub open spec fn wf(self) -> bool {
        &&& self.size >= 1
        &&& self.block_size >= 1
        &&& self.word_size >= 1
        &&& self.lines.len() == self.size
        &&& forall|i: int| 0 <= i < self.lines.len() ==> (#[trigger] self.lines[i]).len() == self.block_size
    }

    /// A memory of zeros that no stage is using.
    pub open spec fn blank(size: usize, block_size: usize, word_size: usize, latency: i32) -> RamModel {
        RamModel {
            size,
            block_size,
            word_size,
            access: MemoryAccess::idle(latency),
            lines: Seq::new(size as nat, |i: int| Seq::new(block_size as nat, |j: int| 0usize)),
        }
    }

    /// The byte address of the word that holds byte `addr`.
    pub open spec fn align(self, addr: usize) -> int {
        (addr as int / self.word_size as int) * self.word_size
    }

    /// The number of the word that holds byte `addr`.
    pub open spec fn word_index(self, addr: usize) -> int {
        self.align(addr) / self.word_size as int
    }

    /// The line in which byte `addr` lies: word numbers wrap at `size`.
    pub open spec fn line_index(self, addr: usize) -> int {
        (self.word_index(addr) % self.size as int) / self.block_size as int
    }

    /// The place within its line of the word that holds byte `addr`.
    pub open spec fn word_offset(self, addr: usize) -> int {
        self.word_index(addr) % self.block_size as int
    }

    /// What a read at `addr` is answered with: the line, or the word.
    pub open spec fn load(self, addr: usize, line: bool) -> ValueView {
        if line {
            ValueView::Line(self.lines[self.line_index(addr)])
        } else {
            ValueView::Value(self.lines[self.line_index(addr)][self.word_offset(addr)])
        }
    }

    /// The lines after `value` was stored at `addr`: a line replaces the
    /// line, a word the one word.
    pub open spec fn store(self, addr: usize, value: ValueView) -> Seq<Seq<usize>> {
        let l = self.line_index(addr);
        match value {
            ValueView::Line(words) => self.lines.update(l, words),
            ValueView::Value(word) => self.lines.update(
                l,
                self.lines[l].update(self.word_offset(addr), word),
            ),
        }
    }

    /// The lines after the first `n` words of `program` were stored, word
    /// `i` at `addr + 4 * i`, in this order.
    pub open spec fn flashed(self, addr: usize, program: Seq<usize>, n: nat) -> Seq<Seq<usize>>
        decreases n,
    {
        if n == 0 {
            self.lines
        } else {
            let before = RamModel { lines: self.flashed(addr, program, (n - 1) as nat), ..self };
            before.store((addr + 4 * (n - 1)) as usize, ValueView::Value(program[n - 1]))
        }
    }
}

/// In a valid memory every address lies in a line that exists and at a
/// place within the line.
pub proof fn lemma_ram_location(m: RamModel, addr: usize)
    requires
        m.size >= 1,
        m.block_size >= 1,
        m.word_size >= 1,
    ensures
        0 <= m.align(addr) <= addr,
        m.word_index(addr) == addr as int / m.word_size as int,
        0 <= m.line_index(addr) < m.size,
        0 <= m.word_offset(addr) < m.block_size,
{
    let ws = m.word_size as int;
    let bs = m.block_size as int;
    let a = addr as int;
    vstd::arithmetic::div_mod::lemma_fundamental_div_mod(a, ws);
    vstd::arithmetic::div_mod::lemma_div_pos_is_pos(a, ws);
    vstd::arithmetic::mul::lemma_mul_is_commutative(a / ws, ws);
    vstd::arithmetic::mul::lemma_mul_nonnegative(a / ws, ws);
    vstd::arithmetic::div_mod::lemma_div_multiples_vanish(a / ws, ws);
    let w = m.word_index(addr) % m.size as int;
    vstd::arithmetic::div_mod::lemma_div_pos_is_pos(w, bs);
    vstd::arithmetic::div_mod::lemma_div_is_ordered_by_denominator(w, 1, bs);
}

/// Storing a value that fits keeps a valid memory valid.
pub proof fn lemma_ram_store(m: RamModel, addr: usize, value: ValueView)
    requires
        m.wf(),
        fits(value, m.block_size as nat),
    ensures
        (RamModel { lines: m.store(addr, value), ..m }).wf(),
{
    lemma_ram_location(m, addr);
}

/// Flashing keeps a valid memory valid.
pub proof fn lemma_ram_flashed(m: RamModel, addr: usize, program: Seq<usize>, n: nat)
    requires
        m.wf(),
    ensures
        (RamModel { lines: m.flashed(addr, program, n), ..m }).wf(),
    decreases n,
{
    if n > 0 {
        lemma_ram_flashed(m, addr, program, (n - 1) as nat);
        let before = RamModel { lines: m.flashed(addr, program, (n - 1) as nat), ..m };
        lemma_ram_store(before, (addr + 4 * (n - 1)) as usize, ValueView::Value(program[n - 1]));
    }
}

/// Main memory: `size` lines of `block_size` words of `word_size` bytes.
pub struct RAM {
    size: usize,
    block_size: usize,
    word_size: usize,
    access: MemoryAccess,
    contents: Vec<Vec<usize>>,
}

impl RAM {
    /// A memory of zeros. It is valid, and so can be read and written, where
    /// the three sizes are at least one.
    pub fn new(size: usize, block_size: usize, word_size: usize, latency: i32) -> (ram: RAM)
        ensures
            ram.model() == RamModel::blank(size, block_size, word_size, latency),
            size >= 1 && block_size >= 1 && word_size >= 1 ==> RAM::inv(ram.model()),
    {
        let line: Vec<usize> = vec![0usize; block_size];
        assert(line@ =~= Seq::new(block_size as nat, |j: int| 0usize));
        let contents: Vec<Vec<usize>> = vec![line; size];
        assert(line_views(contents@) =~= RamModel::blank(size, block_size, word_size, latency).lines);
        Self { size, block_size, word_size, access: MemoryAccess::new(latency, None), contents }
    }

    fn align(&self, addr: usize) -> (aligned: usize)
        requires
            self.model().wf(),
        ensures
            aligned == self.model().align(addr),
    {
        proof {
            lemma_ram_location(self.model(), addr);
        }
        addr / self.word_size * self.word_size
    }

    /// The line and the place within it of the word that holds byte `addr`.
    fn addr_to_offset(&self, addr: usize) -> (place: (usize, usize))
        requires
            self.model().wf(),
        ensures
            place.0 == self.model().line_index(addr),
            place.1 == self.model().word_offset(addr),
            place.0 < self.contents@.len(),
            place.1 < self.contents@[place.0 as int]@.len(),
    {
        proof {
            lemma_ram_location(self.model(), addr);
        }
        let addr = self.align(addr);
        let word = addr / self.word_size;
        let place = (word % self.size / self.block_size, word % self.block_size);
        assert(self.model().lines[place.0 as int] == self.contents@[place.0 as int]@);
        place
    }

    /// Stores one word at `addr`.
    fn store_word(&mut self, addr: usize, word: usize)
        requires
            old(self).model().wf(),
        ensures
            final(self).model() == (RamModel {
                lines: old(self).model().store(addr, ValueView::Value(word)),
                ..old(self).model()
            }),
            final(self).model().wf(),
    {
        let place = self.addr_to_offset(addr);
        self.contents[place.0][place.1] = word;
        proof {
            lemma_ram_store(old(self).model(), addr, ValueView::Value(word));
            assert(line_views(self.contents@) =~= old(self).model().store(
                addr,
                ValueView::Value(word),
            ));
        }
    }
}

impl Transparency for RAM {
    type Model = RamModel;

    closed spec fn model(&self) -> RamModel {
        RamModel {
            size: self.size,
            block_size: self.block_size,
            word_size: self.word_size,
            access: self.access,
            lines: line_views(self.contents@),
        }
    }

    open spec fn inv(m: RamModel) -> bool {
        m.wf()
    }

    open spec fn lines_of(m: RamModel, line_num: usize) -> Seq<Seq<usize>> {
        seq![
            m.lines[if line_num < m.size {
                line_num as int
            } else {
                0
            }],
        ]
    }

    open spec fn accesses_of(m: RamModel) -> Seq<MemoryAccess> {
        seq![m.access]
    }

    open spec fn sizes_of(m: RamModel) -> Seq<usize> {
        seq![m.size]
    }

    fn view_line(&self, line_num: usize) -> (lines: Vec<&Vec<usize>>) {
        let shown: usize = if line_num < self.size {
            line_num
        } else {
            0
        };
        let mut lines: Vec<&Vec<usize>> = Vec::new();
        lines.push(&self.contents[shown]);
        assert(lines.deep_view() =~= RAM::lines_of(self.model(), line_num)) by {
            assert(lines.deep_view().len() == 1);
            assert(lines.deep_view()[0] =~= self.contents@[shown as int]@);
        }
        lines
    }

    fn view_access(&self) -> (accesses: Vec<&MemoryAccess>) {
        let mut accesses: Vec<&MemoryAccess> = Vec::new();
        accesses.push(&self.access);
        accesses
    }

    fn view_size(&self) -> (sizes: Vec<usize>) {
        let mut sizes: Vec<usize> = Vec::new();
        sizes.push(self.size);
        assert(sizes@ =~= RAM::sizes_of(self.model()));
        sizes
    }
}

impl Memory for RAM {
    open spec fn line_len(m: RamModel) -> nat {
        m.block_size as nat
    }

    /// Once the access is granted the memory answers from the place of
    /// `addr` and is free again; until then only the access state moves.
    open spec fn read_model(m: RamModel, addr: usize, stage: StageType, line: bool) -> (
        RamModel,
        Option<ValueView>,
    ) {
        if m.access.grants(stage) {
            (RamModel { access: m.access.released(), ..m }, Some(m.load(addr, line)))
        } else {
            (RamModel { access: m.access.attempted(stage), ..m }, None)
        }
    }

    /// Once the access is granted the value is stored at the place of
    /// `addr` and the memory is free again; until then only the access state
    /// moves.
    open spec fn write_model(m: RamModel, addr: usize, value: ValueView, stage: StageType) -> (
        RamModel,
        bool,
    ) {
        if m.access.grants(stage) {
            (RamModel { access: m.access.released(), lines: m.store(addr, value), ..m }, true)
        } else {
            (RamModel { access: m.access.attempted(stage), ..m }, false)
        }
    }

    open spec fn flash_model(m: RamModel, addr: usize, program: Seq<usize>) -> RamModel {
        RamModel { lines: m.flashed(addr, program, program.len()), ..m }
    }

    open spec fn reset_state_model(m: RamModel) -> RamModel {
        RamModel { access: m.access.released(), ..m }
    }

    open spec fn reset_model(m: RamModel) -> RamModel {
        RamModel::blank(m.size, m.block_size, m.word_size, m.access.latency)
    }

    proof fn lemma_read(m: RamModel, addr: usize, stage: StageType, line: bool) {
        lemma_ram_location(m, addr);
    }

    proof fn lemma_write(m: RamModel, addr: usize, value: ValueView, stage: StageType) {
        lemma_ram_store(m, addr, value);
    }

    proof fn lemma_maintenance(m: RamModel, addr: usize, program: Seq<usize>) {
        lemma_ram_flashed(m, addr, program, program.len());
    }

    proof fn lemma_owner_only(
        m: RamModel,
        addr: usize,
        value: ValueView,
        stage: StageType,
        line: bool,
    ) {
    }

    fn read(&mut self, addr: usize, stage: StageType, line: bool) -> (answer: Option<MemoryValue>) {
        if !self.access.attempt_access(stage) {
            return None;
        }
        self.access.reset_access_state();

        let place = self.addr_to_offset(addr);
        if line {
            Some(MemoryValue::Line(self.contents[place.0].clone()))
        } else {
            Some(MemoryValue::Value(self.contents[place.0][place.1]))
        }
    }

    fn write(&mut self, addr: usize, value: &MemoryValue, stage: StageType) -> (done: bool) {
        if !self.access.attempt_access(stage) {
            return false;
        }
        self.access.reset_access_state();

        match value {
            MemoryValue::Line(words) => {
                let place = self.addr_to_offset(addr);
                self.contents[place.0] = words.clone();
                proof {
                    lemma_ram_store(old(self).model(), addr, value@);
                    assert(line_views(self.contents@) =~= old(self).model().store(addr, value@));
                }
            },
            MemoryValue::Value(word) => {
                self.store_word(addr, *word);
            },
        }
        true
    }

    fn flash(&mut self, addr: usize, program: &[usize]) {
        let mut i: usize = 0;
        while i < program.len()
            invariant
                i <= program@.len(),
                addr + 4 * program@.len() <= usize::MAX,
                self.model().wf(),
                self.model() == (RamModel {
                    lines: old(self).model().flashed(addr, program@, i as nat),
                    ..old(self).model()
                }),
            decreases program@.len() - i,
        {
            self.store_word(addr + 4 * i, program[i]);
            i += 1;
        }
    }

    fn reset_state(&mut self) {
        self.access.reset_access_state();
    }

    fn reset(&mut self) {
        let fresh = RAM::new(self.size, self.block_size, self.word_size, self.access.latency);
        *self = fresh;
    }
}

} // verus!
