//! A branch predictor in the style of gshare: a table of saturating
//! counters, indexed by the program counter combined with the history of
//! the last branches.
//!
//! The predictor stands by itself; the pipeline resolves its branches in
//! Writeback and does not ask it.

use vstd::prelude::*;

verus! {

/// The number of branches that the history remembers.
pub const GLOBAL_HISTORY_SIZE: usize = 16;

/// The number of entries of the table: two to the power of the history's
/// length.
pub const PATTERN_HISTORY_TABLE_LENGTH: usize = 0x10000;

/// The value at which a counter starts and beyond which it does not go.
pub const COUNTER_LIMIT: u8 = 4;

/// The predictor as mathematics: the history, one bit for each of the last
/// sixteen branches with the latest lowest, and the table of counters.
pub struct PredictorModel {
    pub history: usize,
    pub table: Seq<u8>,
}

impl PredictorModel {
    /// The history has sixteen bits and the table one counter for each
    /// value of them, none above the limit.
    pub open spec fn wf(self) -> bool {
        &&& self.history < PATTERN_HISTORY_TABLE_LENGTH
        &&& self.table.len() == PATTERN_HISTORY_TABLE_LENGTH
        &&& forall|i: int| 0 <= i < self.table.len() ==> #[trigger] self.table[i] <= COUNTER_LIMIT
    }

    /// The predictor before the first branch: every counter at the limit.
    pub open spec fn fresh() -> PredictorModel {
        PredictorModel {
            history: 0,
            table: Seq::new(PATTERN_HISTORY_TABLE_LENGTH as nat, |i: int| COUNTER_LIMIT),
        }
    }

    /// The entry of the table that a branch at `program_counter` goes by:
    /// the low sixteen bits of the program counter, each flipped where the
    /// history has a one.
    pub open spec fn index(self, program_counter: u32) -> usize {
        (program_counter as usize ^ self.history) & 0xFFFF
    }

    /// Whether the branch at `program_counter` is predicted taken: its
    /// counter is in the upper half.
    pub open spec fn predicts(self, program_counter: u32) -> bool {
        self.table[self.index(program_counter) as int] > COUNTER_LIMIT / 2
    }

    /// The predictor after the branch at `program_counter` was seen to be
    /// taken or not: the branch's counter moves one step towards the limit
    /// or towards zero, and the outcome enters the history.
    pub open spec fn updated(self, program_counter: u32, branch_taken: bool) -> PredictorModel {
        let i = self.index(program_counter) as int;
        let counter = self.table[i];
        if branch_taken {
            PredictorModel {
                history: ((self.history << 1) | 1) & 0xFFFF,
                table: self.table.update(
                    i,
                    if counter < COUNTER_LIMIT {
                        (counter + 1) as u8
                    } else {
                        counter
                    },
                ),
            }
        } else {
            PredictorModel {
                history: (self.history << 1) & 0xFFFF,
                table: self.table.update(
                    i,
                    if counter > 0 {
                        (counter - 1) as u8
                    } else {
                        counter
                    },
                ),
            }
        }
    }
}

proof fn lemma_sixteen_bits(x: usize)
    by (bit_vector)
    ensures
        x & 0xFFFF < 0x10000,
{
}

/// The fresh predictor is valid, and an update keeps a valid predictor
/// valid.
pub proof fn lemma_predictor_valid(m: PredictorModel, program_counter: u32, branch_taken: bool)
    requires
        m.wf(),
    ensures
        PredictorModel::fresh().wf(),
        m.index(program_counter) < PATTERN_HISTORY_TABLE_LENGTH,
        m.updated(program_counter, branch_taken).wf(),
{
    lemma_sixteen_bits(program_counter as usize ^ m.history);
    lemma_sixteen_bits((m.history << 1) | 1);
    lemma_sixteen_bits(m.history << 1);
}

/// A branch seen taken does not lower its counter, and a branch seen not
/// taken does not raise it.
pub proof fn lemma_counter_follows_outcome(m: PredictorModel, program_counter: u32)
    requires
        m.wf(),
    ensures
        m.updated(program_counter, true).table[m.index(program_counter) as int] >= m.table[m.index(
            program_counter,
        ) as int],
        m.updated(program_counter, false).table[m.index(program_counter) as int] <= m.table[m.index(
            program_counter,
        ) as int],
{
    lemma_predictor_valid(m, program_counter, true);
}

/// A gshare-style branch predictor.
pub struct Predictor {
    global_history_register: usize,
    pattern_history_table: Vec<u8>,
}

impl View for Predictor {
    type V = PredictorModel;

    closed spec fn view(&self) -> PredictorModel {
        PredictorModel { history: self.global_history_register, table: self.pattern_history_table@ }
    }
}

impl Predictor {
    pub fn new() -> (predictor: Predictor)
        ensures
            predictor@ == PredictorModel::fresh(),
            predictor@.wf(),
    {
        let table: Vec<u8> = vec![COUNTER_LIMIT; PATTERN_HISTORY_TABLE_LENGTH];
        assert(table@ =~= PredictorModel::fresh().table);
        Predictor { global_history_register: 0, pattern_history_table: table }
    }

    fn get_table_index(&self, program_counter: u32) -> (index: usize)
        requires
            self@.wf(),
        ensures
            index == self@.index(program_counter),
            index < PATTERN_HISTORY_TABLE_LENGTH,
    {
        proof {
            lemma_predictor_valid(self@, program_counter, true);
        }
        (program_counter as usize ^ self.global_history_register) & (PATTERN_HISTORY_TABLE_LENGTH
            - 1)
    }

    /// Whether the branch at `program_counter` is predicted taken.
    pub fn predict(&self, program_counter: u32) -> (taken: bool)
        requires
            self@.wf(),
        ensures
            taken == self@.predicts(program_counter),
    {
        let index = self.get_table_index(program_counter);
        self.pattern_history_table[index] > COUNTER_LIMIT / 2
    }

    /// Records whether the branch at `program_counter` was taken.
    pub fn update(&mut self, program_counter: u32, branch_taken: bool)
        requires
            old(self)@.wf(),
        ensures
            final(self)@ == old(self)@.updated(program_counter, branch_taken),
            final(self)@.wf(),
    {
        proof {
            lemma_predictor_valid(self@, program_counter, branch_taken);
        }
        let index = self.get_table_index(program_counter);
        let counter: u8 = self.pattern_history_table[index];
        if branch_taken {
            if counter < COUNTER_LIMIT {
                self.pattern_history_table[index] = counter + 1;
            }
            self.global_history_register = ((self.global_history_register << 1) | 1) & (
            PATTERN_HISTORY_TABLE_LENGTH - 1);
        } else {
            if counter > 0 {
                self.pattern_history_table[index] = counter - 1;
            }
            self.global_history_register = (self.global_history_register << 1) & (
            PATTERN_HISTORY_TABLE_LENGTH - 1);
        }
        assert(self@.table =~= old(self)@.updated(program_counter, branch_taken).table);
    }
}

} // verus!
