use vstd::prelude::*;

verus! {

/// How the lines of the line visualisation move.
#[derive(Clone, Copy, PartialEq, Eq, Debug)]
pub enum VisualMode {
    Normal,
    Vortex,
    Waves,
    Rainbow,
}

/// The mode that follows `m` in the cycle Normal, Vortex, Waves, Rainbow.
pub open spec fn next_mode(m: VisualMode) -> VisualMode {
    match m {
        VisualMode::Normal => VisualMode::Vortex,
        VisualMode::Vortex => VisualMode::Waves,
        VisualMode::Waves => VisualMode::Rainbow,
        VisualMode::Rainbow => VisualMode::Normal,
    }
}

/// The mode that follows `mode` in the cycle.
pub fn toggle_mode(mode: VisualMode) -> (next: VisualMode)
    ensures
        next == next_mode(mode),
{
    match mode {
        VisualMode::Normal => VisualMode::Vortex,
        VisualMode::Vortex => VisualMode::Waves,
        VisualMode::Waves => VisualMode::Rainbow,
        VisualMode::Rainbow => VisualMode::Normal,
    }
}

/// The number of lines the visualisation starts with and keeps when left alone.
pub const MAX_LINES: usize = 100;

/// The most lines that can be asked for.
pub const LINE_CEILING: usize = 300;

/// The fewest lines that can be asked for.
pub const LINE_FLOOR: usize = 10;

/// The line count asked for after `count` more were requested, capped at `LINE_CEILING`.
pub open spec fn target_after_add(target: int, count: int) -> int {
    if target + count < LINE_CEILING {
        target + count
    } else {
        LINE_CEILING as int
    }
}

/// The line count asked for after `count` fewer were requested, never below `LINE_FLOOR`.
pub open spec fn target_after_remove(target: int, count: int) -> int {
    let lowered = if target > count { target - count } else { 0 };
    if lowered > LINE_FLOOR {
        lowered
    } else {
        LINE_FLOOR as int
    }
}

/// Drops the oldest lines, those at the front, until at most `keep` are left.
pub fn drop_oldest<T>(lines: &mut Vec<T>, keep: usize)
    ensures
        old(lines)@.len() > keep ==> final(lines)@ == old(lines)@.subrange(old(lines)@.len() - keep, old(lines)@.len() as int),
        old(lines)@.len() <= keep ==> final(lines)@ == old(lines)@,
{
    let ghost start = lines@;
    while lines.len() > keep
        invariant
            start.len() > keep ==> keep <= lines@.len(),
            start.len() <= keep ==> lines@.len() == start.len(),
            lines@.len() <= start.len(),
            lines@ == start.subrange(start.len() - lines@.len(), start.len() as int),
        decreases lines.len(),
    {
        lines.remove(0);
        assert(lines@ =~= start.subrange(start.len() - lines@.len(), start.len() as int));
    }
    assert(start.len() <= keep ==> lines@ =~= start);
}

/// Raises the line count asked for by `count`, capped at `LINE_CEILING`, and adds lines
/// made by `new_line` at the back until there are that many.
pub fn add_lines<T, F: Fn() -> T>(lines: &mut Vec<T>, target: &mut usize, count: usize, new_line: &F)
    requires
        *old(target) + count <= usize::MAX,
        forall|u: ()| #[trigger] call_requires(*new_line, u),
    ensures
        *final(target) == target_after_add(*old(target) as int, count as int),
        final(lines)@.len() == if old(lines)@.len() < *final(target) {
            *final(target) as int
        } else {
            old(lines)@.len() as int
        },
        final(lines)@.subrange(0, old(lines)@.len() as int) == old(lines)@,
        forall|k: int| old(lines)@.len() <= k < final(lines)@.len() ==> call_ensures(*new_line, (), #[trigger] final(lines)@[k]),
{
    let raised = target.checked_add(count).unwrap_or(usize::MAX);
    *target = if raised < LINE_CEILING { raised } else { LINE_CEILING };
    let ghost start = lines@;
    while lines.len() < *target && lines.len() < LINE_CEILING
        invariant
            *target <= LINE_CEILING,
            start.len() <= lines@.len(),
            start.len() < *target ==> lines@.len() <= *target,
            start.len() >= *target ==> lines@.len() == start.len(),
            lines@.subrange(0, start.len() as int) == start,
            forall|u: ()| #[trigger] call_requires(*new_line, u),
            forall|k: int| start.len() <= k < lines@.len() ==> call_ensures(*new_line, (), #[trigger] lines@[k]),
        decreases LINE_CEILING - lines.len(),
    {
        let line = new_line();
        lines.push(line);
        assert(lines@.subrange(0, start.len() as int) =~= start);
    }
}

/// Lowers the line count asked for by `count`, never below `LINE_FLOOR`, and drops the
/// oldest lines until there are no more than that.
pub fn remove_lines<T>(lines: &mut Vec<T>, target: &mut usize, count: usize)
    ensures
        *final(target) == target_after_remove(*old(target) as int, count as int),
        old(lines)@.len() > *final(target) ==> final(lines)@ == old(lines)@.subrange(
            old(lines)@.len() - *final(target),
            old(lines)@.len() as int,
        ),
        old(lines)@.len() <= *final(target) ==> final(lines)@ == old(lines)@,
{
    let lowered = target.saturating_sub(count);
    *target = if lowered > LINE_FLOOR { lowered } else { LINE_FLOOR };
    drop_oldest(lines, *target);
}

} // verus!
