//! The memory hierarchy: levels that answer a stage only after their
//! latency has passed, and that stack on one another.
//!
//! Each level has a mathematical model, and every operation of a level is a
//! function on models. The executable operations are specified as carrying
//! out exactly that function.

pub mod cache;
pub mod laws;
pub mod ram;

pub use self::cache::Cache;
pub use self::ram::RAM;
pub use crate::processor::pipeline::StageType;
use vstd::prelude::*;

verus! {

/// The stage on whose behalf a level is accessed.
pub type PipelineStage = StageType;

/// What a level hands out or takes in: one word, or a whole line.
#[derive(Debug, PartialEq, Eq)]
pub enum MemoryValue {
    Value(usize),
    Line(Vec<usize>),
}

impl Clone for MemoryValue {
    fn clone(&self) -> (copy: MemoryValue)
        ensures
            copy@ == self@,
    {
        match self {
            MemoryValue::Value(word) => MemoryValue::Value(*word),
            MemoryValue::Line(words) => MemoryValue::Line(words.clone()),
        }
    }
}

/// A `MemoryValue` as mathematics.
pub enum ValueView {
    Value(usize),
    Line(Seq<usize>),
}

impl View for MemoryValue {
    type V = ValueView;

    open spec fn view(&self) -> ValueView {
        match self {
            MemoryValue::Value(word) => ValueView::Value(*word),
            MemoryValue::Line(words) => ValueView::Line(words@),
        }
    }
}

/// The view of what a read returned.
pub open spec fn answer_view(answer: Option<MemoryValue>) -> Option<ValueView> {
    match answer {
        Some(value) => Some(value@),
        None => None,
    }
}

/// Whether a value may be written to a level whose lines hold `line_len`
/// words: any word, and a line of exactly that length.
pub open spec fn fits(value: ValueView, line_len: nat) -> bool {
    value matches ValueView::Line(words) ==> words.len() == line_len
}

/// Whether an answer has the shape that was asked for: a line of
/// `line_len` words where a line was asked for, else a word.
pub open spec fn shaped(answer: Option<ValueView>, line: bool, line_len: nat) -> bool {
    match answer {
        None => true,
        Some(ValueView::Line(words)) => line && words.len() == line_len,
        Some(ValueView::Value(_)) => !line,
    }
}

/// The access state of one level: the configured latency, the countdown of
/// the access in progress, and the stage that owns it.
#[derive(Clone, Copy, Debug, PartialEq, Eq)]
pub struct MemoryAccess {
    pub latency: i32,
    pub cycles_to_completion: i32,
    pub stage: Option<StageType>,
}

impl MemoryAccess {
    /// The state of a level that is free to be taken.
    pub open spec fn idle(latency: i32) -> MemoryAccess {
        MemoryAccess { latency, cycles_to_completion: latency, stage: None }
    }

    /// Whether `stage` is kept out: another stage owns the access.
    pub open spec fn excludes(self, stage: StageType) -> bool {
        self.stage matches Some(owner) && owner != stage
    }

    /// The state after `stage` has asked once.
    ///
    /// A stage that is kept out changes nothing. Otherwise the stage owns the
    /// access from now on and the countdown goes down by one (it stops at the
    /// least `i32`).
    pub open spec fn attempted(self, stage: StageType) -> MemoryAccess {
        if self.excludes(stage) {
            self
        } else {
            MemoryAccess {
                stage: Some(stage),
                cycles_to_completion: if self.cycles_to_completion > i32::MIN {
                    (self.cycles_to_completion - 1) as i32
                } else {
                    self.cycles_to_completion
                },
                ..self
            }
        }
    }

    /// Whether the access is granted when `stage` asks: the stage is not kept
    /// out, and with this attempt the countdown has run out.
    pub open spec fn grants(self, stage: StageType) -> bool {
        !self.excludes(stage) && self.attempted(stage).cycles_to_completion <= 0
    }

    /// The state after the access in progress was given up or has finished.
    pub open spec fn released(self) -> MemoryAccess {
        MemoryAccess::idle(self.latency)
    }

    /// The state after `stage` has asked `n` times in a row.
    pub open spec fn attempted_times(self, stage: StageType, n: nat) -> MemoryAccess
        decreases n,
    {
        if n == 0 {
            self
        } else {
            self.attempted_times(stage, (n - 1) as nat).attempted(stage)
        }
    }

    pub fn new(latency: i32, stage: Option<StageType>) -> (access: MemoryAccess)
        ensures
            access == (MemoryAccess { latency, cycles_to_completion: latency, stage }),
    {
        Self { latency, cycles_to_completion: latency, stage }
    }

    /// One attempt of `attempt_stage` to use the level. Returns whether the
    /// access is granted.
    pub fn attempt_access(&mut self, attempt_stage: StageType) -> (granted: bool)
        ensures
            *final(self) == old(self).attempted(attempt_stage),
            granted == old(self).grants(attempt_stage),
    {
        match self.stage {
            Some(current_stage) => {
                if current_stage != attempt_stage {
                    return false;
                }
            },
            None => {
                self.stage = Some(attempt_stage);
            },
        }
        if self.cycles_to_completion > i32::MIN {
            self.cycles_to_completion -= 1;
        }
        self.cycles_to_completion <= 0
    }

    pub fn reset_access_state(&mut self)
        ensures
            *final(self) == old(self).released(),
    {
        self.cycles_to_completion = self.latency;
        self.stage = None;
    }
}

/// A level that is owned by one stage leaves its state alone when another
/// stage asks, and does not grant the access.
pub proof fn lemma_excluded_stage_changes_nothing(
    access: MemoryAccess,
    owner: StageType,
    other: StageType,
)
    requires
        access.stage == Some(owner),
        other != owner,
    ensures
        access.attempted(other) == access,
        !access.grants(other),
{
}

/// A free level with latency `latency`, asked by one stage `n` times in a
/// row, has counted down to `latency - n` and belongs to that stage.
pub proof fn lemma_countdown(latency: i32, stage: StageType, n: nat)
    requires
        1 <= n,
        latency - n >= i32::MIN,
    ensures
        MemoryAccess::idle(latency).attempted_times(stage, n) == (MemoryAccess {
            latency,
            cycles_to_completion: (latency - n) as i32,
            stage: Some(stage),
        }),
    decreases n,
{
    reveal_with_fuel(MemoryAccess::attempted_times, 2);
    if n > 1 {
        lemma_countdown(latency, stage, (n - 1) as nat);
    }
}

/// A free level with latency `latency >= 1` grants the access on the
/// attempt number `latency` of a stage, and on none before: after `k`
/// attempts, `k < latency`, the next one is granted exactly when it is
/// attempt number `latency`.
pub proof fn lemma_latency_is_exact(latency: i32, stage: StageType, k: nat)
    requires
        1 <= latency,
        k < latency,
    ensures
        MemoryAccess::idle(latency).attempted_times(stage, k).grants(stage) <==> k + 1 == latency,
{
    if k >= 1 {
        lemma_countdown(latency, stage, k);
    }
}

/// What a level shows of itself and of the levels below it.
///
/// `Model` is the level as mathematics, `model` the model of a value and
/// `inv` what holds of the model of every value in use.
pub trait Transparency: Sized {
    type Model;

    spec fn model(&self) -> Self::Model;

    spec fn inv(m: Self::Model) -> bool;

    /// Line `line_num` of every level, the deepest level first. A level that
    /// has no such line shows its line 0.
    spec fn lines_of(m: Self::Model, line_num: usize) -> Seq<Seq<usize>>;

    /// The access state of every level, the deepest level first.
    spec fn accesses_of(m: Self::Model) -> Seq<MemoryAccess>;

    /// The configured size of every level, the deepest level first.
    spec fn sizes_of(m: Self::Model) -> Seq<usize>;

    fn view_line(&self, line_num: usize) -> (lines: Vec<&Vec<usize>>)
        requires
            Self::inv(self.model()),
        ensures
            lines.deep_view() == Self::lines_of(self.model(), line_num),
    ;

    fn view_access(&self) -> (accesses: Vec<&MemoryAccess>)
        ensures
            accesses@.len() == Self::accesses_of(self.model()).len(),
            forall|i: int|
                0 <= i < accesses@.len() ==> *accesses@[i] == Self::accesses_of(self.model())[i],
    ;

    fn view_size(&self) -> (sizes: Vec<usize>)
        ensures
            sizes@ == Self::sizes_of(self.model()),
    ;
}

/// A level of the hierarchy.
///
/// The five `_model` functions say what each operation does to the model of
/// a level; `read_model` and `write_model` also give the answer.
pub trait Memory: Transparency {
    /// The number of words in a line of this level.
    spec fn line_len(m: Self::Model) -> nat;

    spec fn read_model(m: Self::Model, addr: usize, stage: StageType, line: bool) -> (
        Self::Model,
        Option<ValueView>,
    );

    spec fn write_model(m: Self::Model, addr: usize, value: ValueView, stage: StageType) -> (
        Self::Model,
        bool,
    );

    spec fn flash_model(m: Self::Model, addr: usize, program: Seq<usize>) -> Self::Model;

    spec fn reset_state_model(m: Self::Model) -> Self::Model;

    spec fn reset_model(m: Self::Model) -> Self::Model;

    /// A read keeps the level valid, its line length and what a reset would
    /// make of it, and answers in the shape that was asked for.
    proof fn lemma_read(m: Self::Model, addr: usize, stage: StageType, line: bool)
        requires
            Self::inv(m),
        ensures
            Self::inv(Self::read_model(m, addr, stage, line).0),
            Self::line_len(Self::read_model(m, addr, stage, line).0) == Self::line_len(m),
            Self::reset_model(Self::read_model(m, addr, stage, line).0) == Self::reset_model(m),
            shaped(Self::read_model(m, addr, stage, line).1, line, Self::line_len(m)),
    ;

    /// A write of a value that fits keeps the level valid, its line length
    /// and what a reset would make of it.
    proof fn lemma_write(m: Self::Model, addr: usize, value: ValueView, stage: StageType)
        requires
            Self::inv(m),
            fits(value, Self::line_len(m)),
        ensures
            Self::inv(Self::write_model(m, addr, value, stage).0),
            Self::line_len(Self::write_model(m, addr, value, stage).0) == Self::line_len(m),
            Self::reset_model(Self::write_model(m, addr, value, stage).0) == Self::reset_model(m),
    ;

    /// Flashing, releasing and resetting keep the level valid, its line
    /// length and what a reset would make of it.
    proof fn lemma_maintenance(m: Self::Model, addr: usize, program: Seq<usize>)
        requires
            Self::inv(m),
        ensures
            Self::inv(Self::flash_model(m, addr, program)),
            Self::line_len(Self::flash_model(m, addr, program)) == Self::line_len(m),
            Self::reset_model(Self::flash_model(m, addr, program)) == Self::reset_model(m),
            Self::inv(Self::reset_state_model(m)),
            Self::line_len(Self::reset_state_model(m)) == Self::line_len(m),
            Self::reset_model(Self::reset_state_model(m)) == Self::reset_model(m),
            Self::inv(Self::reset_model(m)),
            Self::line_len(Self::reset_model(m)) == Self::line_len(m),
            Self::reset_model(Self::reset_model(m)) == Self::reset_model(m),
    ;

    /// While one stage owns the level, the attempt of another stage to read
    /// or to write changes nothing, not even the countdown, and gets
    /// nothing.
    proof fn lemma_owner_only(
        m: Self::Model,
        addr: usize,
        value: ValueView,
        stage: StageType,
        line: bool,
    )
        requires
            Self::accesses_of(m).len() >= 1,
            Self::accesses_of(m).last().excludes(stage),
        ensures
            Self::read_model(m, addr, stage, line) == (m, None::<ValueView>),
            Self::write_model(m, addr, value, stage) == (m, false),
    ;

    /// One attempt of `stage` to read the word at `addr`, or the line that
    /// holds it. `None` while the level is busy.
    fn read(&mut self, addr: usize, stage: StageType, line: bool) -> (answer: Option<MemoryValue>)
        requires
            Self::inv(old(self).model()),
        ensures
            (final(self).model(), answer_view(answer)) == Self::read_model(
                old(self).model(),
                addr,
                stage,
                line,
            ),
            Self::inv(final(self).model()),
    ;

    /// One attempt of `stage` to write a word at `addr`, or the line that
    /// holds it. `false` while the level is busy.
    fn write(&mut self, addr: usize, value: &MemoryValue, stage: StageType) -> (done: bool)
        requires
            Self::inv(old(self).model()),
            fits(value@, Self::line_len(old(self).model())),
        ensures
            (final(self).model(), done) == Self::write_model(
                old(self).model(),
                addr,
                value@,
                stage,
            ),
            Self::inv(final(self).model()),
    ;

    /// Writes `program[i]` to the word at `addr + 4 * i`, for every `i`, at
    /// once and whatever the access state.
    fn flash(&mut self, addr: usize, program: &[usize])
        requires
            Self::inv(old(self).model()),
            addr + 4 * program@.len() <= usize::MAX,
        ensures
            final(self).model() == Self::flash_model(old(self).model(), addr, program@),
            Self::inv(final(self).model()),
    ;

    /// Gives up the access in progress at every level.
    fn reset_state(&mut self)
        requires
            Self::inv(old(self).model()),
        ensures
            final(self).model() == Self::reset_state_model(old(self).model()),
            Self::inv(final(self).model()),
    ;

    /// Zeroes every level.
    fn reset(&mut self)
        requires
            Self::inv(old(self).model()),
        ensures
            final(self).model() == Self::reset_model(old(self).model()),
            Self::inv(final(self).model()),
    ;
}

} // verus!
