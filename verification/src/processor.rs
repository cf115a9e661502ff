//! The processor: register file, instruction record, stage semantics and the
//! pipeline that chains the five stages.

pub mod instruction;
pub mod laws;
pub mod pipeline;
pub mod predictor;
pub mod registers;
pub mod stages;

use self::pipeline::{Stage, StageType};
use vstd::prelude::*;

verus! {

/// The five-stage pipeline before its first cycle: Fetch, Decode, Execute,
/// Memory and Writeback, each empty, Writeback last and marked as the stage
/// that retires.
pub open spec fn pipeline() -> Stage {
    let fetch = Stage::created(StageType::Fetch, None, false);
    let decode = Stage::created(StageType::Decode, Some(Box::new(fetch)), false);
    let execute = Stage::created(StageType::Execute, Some(Box::new(decode)), false);
    let memory = Stage::created(StageType::Memory, Some(Box::new(execute)), false);
    Stage::created(StageType::Writeback, Some(Box::new(memory)), true)
}

/// Builds the five-stage pipeline and returns its last stage.
pub fn new() -> (head: Box<Stage>)
    ensures
        *head == pipeline(),
{
    let fetch_stage = Box::new(Stage::create(StageType::Fetch, None, false));
    let decode_stage = Box::new(Stage::create(StageType::Decode, Some(fetch_stage), false));
    let execute_stage = Box::new(Stage::create(StageType::Execute, Some(decode_stage), false));
    let memory_stage = Box::new(Stage::create(StageType::Memory, Some(execute_stage), false));
    Box::new(Stage::create(StageType::Writeback, Some(memory_stage), true))
}

/// The pipeline has five stages, none of which holds an instruction;
/// clearing it changes nothing; and the stages before its last are Fetch,
/// then Decode, Execute and Memory.
pub proof fn lemma_pipeline()
    ensures
        pipeline().depth() == 5,
        pipeline().cleared() == pipeline(),
        pipeline().in_flight() == 0,
        pipeline().prev_stage matches Some(prev) && prev.feeds_writeback(),
{
    reveal_with_fuel(Stage::depth, 6);
    reveal_with_fuel(Stage::cleared, 6);
    reveal_with_fuel(Stage::in_flight, 6);
    reveal_with_fuel(Stage::feeds_writeback, 6);
}

} // verus!
