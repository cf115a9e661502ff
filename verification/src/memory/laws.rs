//! What holds of the memory levels over more than one operation.

use super::cache::{
    answer_of, decay_set, first_where, least_used, lemma_fetched, lemma_first_where,
    lemma_location, lemma_slots, lemma_written_back, write_slot, written_back, CacheModel,
    LineModel, ReplacementPolicy,
};
use super::ram::{lemma_ram_location, RamModel};
use super::{fits, Cache, Memory, MemoryAccess, Transparency, ValueView, RAM};
use crate::processor::pipeline::StageType;
use vstd::prelude::*;

verus! {

/// A slot of the range of which `wanted` holds, and before which it holds of
/// none, is the one that `first_where` finds.
pub proof fn lemma_first_where_is(
    lines: Seq<LineModel>,
    lo: int,
    hi: int,
    wanted: spec_fn(LineModel) -> bool,
    i: int,
)
    requires
        lo <= i < hi,
        wanted(lines[i]),
        forall|j: int| lo <= j < i ==> !wanted(#[trigger] lines[j]),
    ensures
        first_where(lines, lo, hi, wanted) == Some(i),
    decreases i - lo,
{
    if lo < i {
        lemma_first_where_is(lines, lo + 1, hi, wanted, i);
    }
}

/// Two slots that differ in nothing but the use count.
pub open spec fn same_line(a: LineModel, b: LineModel) -> bool {
    &&& a.addr == b.addr
    &&& a.valid == b.valid
    &&& a.dirty == b.dirty
    &&& a.tag == b.tag
    &&& a.contents == b.contents
}

/// Main memory gives back what was written: after a write at `addr` that
/// was carried out, the next read at `addr` that is carried out, by
/// whatever stage and after however many attempts, answers with the value
/// written.
pub proof fn lemma_ram_read_after_write(
    m: RamModel,
    addr: usize,
    value: ValueView,
    writer: StageType,
    access: MemoryAccess,
    reader: StageType,
)
    requires
        m.wf(),
        fits(value, m.block_size as nat),
        RAM::write_model(m, addr, value, writer).1,
        access.grants(reader),
    ensures
        RAM::read_model(
            RamModel { access, ..RAM::write_model(m, addr, value, writer).0 },
            addr,
            reader,
            value is Line,
        ).1 == Some(value),
{
    lemma_ram_location(m, addr);
}

/// A free main memory with latency `latency >= 1` answers a stage on its
/// attempt number `latency` and on none before. The attempts before leave
/// everything but the access state as it was.
pub proof fn lemma_ram_latency(m: RamModel, addr: usize, stage: StageType, line: bool, k: nat)
    requires
        m.access == MemoryAccess::idle(m.access.latency),
        1 <= m.access.latency,
        k < m.access.latency,
    ensures
        RAM::read_model(
            RamModel { access: m.access.attempted_times(stage, k), ..m },
            addr,
            stage,
            line,
        ).1 is Some <==> k + 1 == m.access.latency,
        k + 1 < m.access.latency ==> RAM::read_model(
            RamModel { access: m.access.attempted_times(stage, k), ..m },
            addr,
            stage,
            line,
        ).0 == (RamModel { access: m.access.attempted_times(stage, k + 1), ..m }),
{
    super::lemma_latency_is_exact(m.access.latency, stage, k);
}

/// In a cache every dirty slot is valid: an empty cache has no dirty slot,
/// and no read or write brings about a dirty slot that is not valid.
pub proof fn lemma_dirty_is_valid<L: Memory>(
    m: CacheModel<L::Model>,
    addr: usize,
    value: ValueView,
    stage: StageType,
    line: bool,
    i: int,
)
    requires
        Cache::<L>::inv(m),
        fits(value, m.block_size as nat),
        0 <= i < m.lines.len(),
    ensures
        Cache::<L>::reset_model(m).lines.len() == m.lines.len(),
        !Cache::<L>::reset_model(m).lines[i].dirty,
        Cache::<L>::read_model(m, addr, stage, line).0.lines.len() == m.lines.len(),
        Cache::<L>::read_model(m, addr, stage, line).0.lines[i].dirty ==> Cache::<L>::read_model(
            m,
            addr,
            stage,
            line,
        ).0.lines[i].valid,
        Cache::<L>::write_model(m, addr, value, stage).0.lines.len() == m.lines.len(),
        Cache::<L>::write_model(m, addr, value, stage).0.lines[i].dirty ==> Cache::<
            L,
        >::write_model(m, addr, value, stage).0.lines[i].valid,
{
    Cache::<L>::lemma_read(m, addr, stage, line);
    Cache::<L>::lemma_write(m, addr, value, stage);
    Cache::<L>::lemma_maintenance(m, addr, Seq::empty());
}

/// What a write that was carried out leaves in a cache: the slot that now
/// holds the line of `addr` is valid and dirty, carries the tag of `addr`,
/// and holds the value; and the cache is free again.
pub proof fn lemma_write_lands<L: Memory>(
    m: CacheModel<L::Model>,
    addr: usize,
    value: ValueView,
    stage: StageType,
)
    requires
        Cache::<L>::inv(m),
        fits(value, m.block_size as nat),
        Cache::<L>::write_model(m, addr, value, stage).1,
    ensures
        ({
            let after = Cache::<L>::write_model(m, addr, value, stage).0;
            let location = m.location(addr);
            &&& after.location(addr) == location
            &&& after.access == m.access.released()
            &&& after.hit(location) matches Some(k) && {
                let slot = after.lines[k];
                &&& 0 <= k < after.lines.len()
                &&& slot.valid
                &&& slot.dirty
                &&& slot.tag == location.tag
                &&& slot.addr == addr
                &&& answer_of(slot, location.offset, value is Line) == value
            }
        }),
{
    let m0 = CacheModel { access: m.access.attempted(stage), ..m };
    let location = m0.location(addr);
    lemma_location(m0, addr);
    lemma_slots(m0, location);
    let lo = location.index as int;
    let hi = location.index + m.associativity;
    let wanted = |line: LineModel| line.valid && line.tag == location.tag;
    lemma_first_where(m0.lines, lo, hi, wanted);
    let (lines, k) = write_slot(m0, location);
    let m1 = CacheModel { lines, ..m0 };
    assert forall|j: int| lo <= j < k implies !wanted(#[trigger] m1.lines[j]) by {
        assert(wanted(m1.lines[j]) == wanted(m0.lines[j]));
    }
    let moves = m1.lines[k].dirty && m1.lines[k].tag != location.tag;
    if moves {
        lemma_written_back::<L>(m1, k, stage);
    }
    let (m2, clean) = if moves {
        written_back::<L>(m1, k, stage)
    } else {
        (m1, true)
    };
    assert forall|j: int| lo <= j < k implies !wanted(#[trigger] m2.lines[j]) by {
        assert(m2.lines[j] == m1.lines[j]);
    }
    if m2.lines[k].tag != location.tag {
        lemma_fetched::<L>(m2, addr, stage);
    }
    let after = Cache::<L>::write_model(m, addr, value, stage).0;
    assert forall|j: int| lo <= j < k implies !wanted(#[trigger] after.lines[j]) by {
        assert(after.lines[j] == m2.lines[j]);
    }
    assert(wanted(after.lines[k]));
    lemma_first_where_is(after.lines, lo, hi, wanted, k);
}

/// A cache gives back what was written: after a write at `addr` that was
/// carried out, the next read at `addr` that the cache grants, by whatever
/// stage and after however many attempts, answers with the value written,
/// whatever the lower level holds.
pub proof fn lemma_read_after_write<L: Memory>(
    m: CacheModel<L::Model>,
    addr: usize,
    value: ValueView,
    writer: StageType,
    access: MemoryAccess,
    reader: StageType,
)
    requires
        Cache::<L>::inv(m),
        fits(value, m.block_size as nat),
        Cache::<L>::write_model(m, addr, value, writer).1,
        access.grants(reader),
    ensures
        Cache::<L>::read_model(
            CacheModel { access, ..Cache::<L>::write_model(m, addr, value, writer).0 },
            addr,
            reader,
            value is Line,
        ).1 == Some(value),
{
    lemma_write_lands::<L>(m, addr, value, writer);
}

/// Until a cache grants the access, an attempt to read or to write moves
/// nothing but the access state, and gets nothing.
pub proof fn lemma_cache_waits<L: Memory>(
    m: CacheModel<L::Model>,
    addr: usize,
    value: ValueView,
    stage: StageType,
    line: bool,
)
    requires
        !m.access.grants(stage),
    ensures
        Cache::<L>::read_model(m, addr, stage, line) == (
            CacheModel { access: m.access.attempted(stage), ..m },
            None::<ValueView>,
        ),
        Cache::<L>::write_model(m, addr, value, stage) == (
            CacheModel { access: m.access.attempted(stage), ..m },
            false,
        ),
{
}

/// A free cache with latency `latency >= 1` that holds the line of `addr`
/// answers a stage on its attempt number `latency` and on none before.
pub proof fn lemma_cache_latency<L: Memory>(
    m: CacheModel<L::Model>,
    addr: usize,
    stage: StageType,
    line: bool,
    k: nat,
)
    requires
        m.access == MemoryAccess::idle(m.access.latency),
        1 <= m.access.latency,
        k < m.access.latency,
        m.hit(m.location(addr)) is Some,
    ensures
        Cache::<L>::read_model(
            CacheModel { access: m.access.attempted_times(stage, k), ..m },
            addr,
            stage,
            line,
        ).1 is Some <==> k + 1 == m.access.latency,
{
    super::lemma_latency_is_exact(m.access.latency, stage, k);
}

/// How a write makes room in a full set under the least-used policy.
///
/// Let the cache grant the access, let no slot hold the line of `addr`, and
/// let every slot of its set be valid. Then the slot `k` that gives way is
/// the least used of the set after decay, the earliest of several. If it is
/// dirty, its words go down to the lower level at its own address, and as
/// long as the lower level has not taken them nothing is stored. In any
/// case no other slot changes but in its use count; and when the write is
/// carried out, slot `k` holds the line of `addr`.
pub proof fn lemma_write_replaces_least_used<L: Memory>(
    m: CacheModel<L::Model>,
    addr: usize,
    value: ValueView,
    stage: StageType,
)
    requires
        Cache::<L>::inv(m),
        fits(value, m.block_size as nat),
        m.policy == ReplacementPolicy::LeastUsed,
        m.access.grants(stage),
        m.hit(m.location(addr)) is None,
        first_where(
            m.lines,
            m.location(addr).index as int,
            m.location(addr).index + m.associativity,
            |line: LineModel| !line.valid,
        ) is None,
    ensures
        ({
            let location = m.location(addr);
            let lo = location.index as int;
            let hi = location.index + m.associativity;
            let k = least_used(decay_set(m.lines, lo, hi), lo, hi);
            let (after, done) = Cache::<L>::write_model(m, addr, value, stage);
            let down = L::write_model(
                m.lower,
                m.lines[k].addr,
                ValueView::Line(m.lines[k].contents),
                stage,
            );
            &&& lo <= k < hi
            &&& after.lines.len() == m.lines.len()
            &&& forall|j: int|
                0 <= j < m.lines.len() && j != k ==> same_line(
                    #[trigger] after.lines[j],
                    m.lines[j],
                )
            &&& m.lines[k].dirty && !down.1 ==> !done && after.lower == down.0 && same_line(
                after.lines[k],
                m.lines[k],
            )
            &&& m.lines[k].dirty && down.1 ==> after.lower == L::read_model(
                down.0,
                addr,
                stage,
                true,
            ).0
            &&& !m.lines[k].dirty ==> after.lower == L::read_model(m.lower, addr, stage, true).0
            &&& done ==> after.lines[k].valid && after.lines[k].dirty && after.lines[k].tag
                == location.tag && answer_of(after.lines[k], location.offset, value is Line)
                == value
        }),
{
    let m0 = CacheModel { access: m.access.attempted(stage), ..m };
    let location = m0.location(addr);
    lemma_location(m0, addr);
    lemma_slots(m0, location);
    let lo = location.index as int;
    let hi = location.index + m.associativity;
    lemma_first_where(
        m0.lines,
        lo,
        hi,
        |line: LineModel| line.valid && line.tag == location.tag,
    );
    lemma_first_where(m0.lines, lo, hi, |line: LineModel| !line.valid);
    let (lines, k) = write_slot(m0, location);
    let m1 = CacheModel { lines, ..m0 };
    assert(m1.lines[k].valid);
    assert(m1.lines[k].tag != location.tag);
    if m1.lines[k].dirty {
        lemma_written_back::<L>(m1, k, stage);
    }
    let (m2, clean) = if m1.lines[k].dirty {
        written_back::<L>(m1, k, stage)
    } else {
        (m1, true)
    };
    if clean {
        lemma_fetched::<L>(m2, addr, stage);
    }
}

} // verus!
