//! What holds of the engine, proved over the model.

use crate::interpreter::lemmas::{
    lemma_blocked_at, lemma_commanded, lemma_commanded_keeps_later,
    lemma_some_position,
    lemma_data_phase_keeps, lemma_extended_over_keeps, lemma_first_position,
    lemma_last_record_is_of_last_cursor, lemma_position_is_first, lemma_replayed,
    lemma_replayed_keeps, lemma_served_add, lemma_served_elsewhere, lemma_served_keeps,
    lemma_shifted, lemma_stepped_ids, lemma_stepped_keeps, lemma_stuck_at,
    lemma_time_slice_records, lemma_walk_keeps_cells, lemma_walked,
};
use crate::interpreter::model::{
    applied, change_of, cursors_at, distinct_below, fetch, first_position, moves_ahead,
    population_ids, records, snapshot_ids, targets_in_program, CellChange, TimelineView,
};
use crate::interpreter::scheduler::RunView;
use crate::interpreter::types::{Command, TimelineMeta};
use crate::parser::types::{JumpType, MoveDirection, Token, UpdateType};
use vstd::arithmetic::div_mod::lemma_add_mod_noop_right;
use vstd::prelude::*;

verus! {

/// The tape extends itself under a walk. Let the next instructions of a timeline be
/// `moves` moves to the left or to the right, in any order. Every offset that a cursor
/// stands on after `visit` of them has a cell at the end of the walk, and the cell holds
/// what the offset read as at the start: zero, if the tape had no cell there.
pub proof fn law_visited_offsets_are_defined(
    start: TimelineView,
    tokens: Seq<Token>,
    input: Seq<char>,
    metadata: Seq<TimelineMeta>,
    history: bool,
    moves: nat,
    visit: nat,
    k: int,
)
    requires
        tokens.len() <= usize::MAX,
        moves_ahead(start, tokens, moves),
        visit <= moves,
        0 <= k < start.pointers.len(),
        visit == 0 ==> start.covers(start.pointers[k] as int),
    ensures
        ({
            let end = start.stepped_times(tokens, input, metadata, history, moves);
            let offset = start.stepped_times(tokens, input, metadata, history, visit).pointers[k] as int;
            &&& end.data_at(offset) == Some(start.cell(offset))
            &&& !start.covers(offset) ==> end.data_at(offset) == Some(0u8)
        }),
{
    let offset = start.stepped_times(tokens, input, metadata, history, visit).pointers[k] as int;
    lemma_walked(start, tokens, input, metadata, history, moves, visit, offset);
    lemma_walk_keeps_cells(start, tokens, input, metadata, history, moves, visit, moves, offset);
}

/// Incrementing and then decrementing restores the tape. Let the next two instructions
/// of a timeline be an increment and a decrement. After the two steps every offset reads
/// as before, however many cursors stand on it, and the cursors are where they were.
pub proof fn law_decrement_undoes_increment(
    timeline: TimelineView,
    tokens: Seq<Token>,
    input: Seq<char>,
    metadata: Seq<TimelineMeta>,
    history: bool,
    later_input: Seq<char>,
    later_metadata: Seq<TimelineMeta>,
    later_history: bool,
    offset: int,
)
    requires
        tokens.len() <= usize::MAX,
        fetch(tokens, timeline.instruction_pointer) == Some(Token::Update(UpdateType::Increment)),
        fetch(tokens, (timeline.instruction_pointer + 1) as usize) == Some(
            Token::Update(UpdateType::Decrement),
        ),
    ensures
        ({
            let up = timeline.stepped(tokens, input, metadata, history);
            let down = up.stepped(tokens, later_input, later_metadata, later_history);
            &&& down.cell(offset) == timeline.cell(offset)
            &&& down.pointers == timeline.pointers
            &&& down.instruction_pointer == timeline.instruction_pointer + 2
        }),
{
    let n = timeline.pointers.len();
    let count = cursors_at(timeline.pointers, n, offset);
    let up = timeline.stepped(tokens, input, metadata, history);
    lemma_served_keeps(timeline, CellChange::Add(1), n);
    lemma_served_add(timeline, 1, n, offset);
    assert(up.cell(offset) == (timeline.cell(offset) + count) % 256);
    let down = up.stepped(tokens, later_input, later_metadata, later_history);
    lemma_served_keeps(up, CellChange::Add(-1), n);
    lemma_served_add(up, -1, n, offset);
    assert(down.cell(offset) == (up.cell(offset) - count) % 256);
    lemma_add_mod_noop_right(-count, timeline.cell(offset) + count, 256);
}

/// Rewinding right after a recorded step writes back what the cursors found. Let a
/// timeline with at least one cursor increment, decrement or read with history on, and
/// let its next instruction be `Rewind`. After the two steps the log and the cursors are
/// as before the first. An offset on which no cursor stands reads as before, and an
/// offset on which cursors stand reads as the last of them found it during the first
/// step.
pub proof fn law_rewind_writes_back_the_last_record(
    timeline: TimelineView,
    tokens: Seq<Token>,
    input: Seq<char>,
    metadata: Seq<TimelineMeta>,
    later_input: Seq<char>,
    later_metadata: Seq<TimelineMeta>,
    later_history: bool,
    last: int,
    offset: int,
)
    requires
        tokens.len() <= usize::MAX,
        records(fetch(tokens, timeline.instruction_pointer)),
        fetch(tokens, (timeline.instruction_pointer + 1) as usize) == Some(Token::Rewind),
        timeline.pointers.len() > 0,
        cursors_at(timeline.pointers, timeline.pointers.len(), offset) > 0 ==> {
            &&& 0 <= last < timeline.pointers.len()
            &&& timeline.pointers[last] == offset
            &&& forall|k: int| last < k < timeline.pointers.len() ==> timeline.pointers[k] != offset
        },
    ensures
        ({
            let after = timeline.stepped(tokens, input, metadata, true);
            let back = after.stepped(tokens, later_input, later_metadata, later_history);
            let change = change_of(fetch(tokens, timeline.instruction_pointer), input);
            &&& after.tape.len() == timeline.tape.len() + 1
            &&& back.tape == timeline.tape
            &&& back.pointers == timeline.pointers
            &&& back.instruction_pointer == timeline.instruction_pointer + 2
            &&& back.cell(offset) == if cursors_at(timeline.pointers, timeline.pointers.len(), offset)
                == 0 {
                timeline.cell(offset)
            } else {
                timeline.served(change, last as nat).cell(offset)
            }
        }),
{
    let change = change_of(fetch(tokens, timeline.instruction_pointer), input);
    let n = timeline.pointers.len();
    let after = timeline.stepped(tokens, input, metadata, true);
    let slice = timeline.time_slice(change);
    let popped = TimelineView { tape: after.tape.drop_last(), ..after };
    lemma_served_keeps(timeline, change, n);
    assert(popped == (TimelineView {
        instruction_pointer: after.instruction_pointer,
        ..timeline.served(change, n)
    }));
    lemma_replayed_keeps(popped, slice, n);
    lemma_replayed(popped, slice, n, offset);
    lemma_served_elsewhere(timeline, change, n, offset);
    if cursors_at(timeline.pointers, n, offset) == 0 {
        lemma_time_slice_records(timeline, change, n, offset);
    } else {
        lemma_last_record_is_of_last_cursor(timeline, change, n, last, offset);
    }
}

/// Rewinding right after a recorded step undoes it. Let a timeline with at least one
/// cursor increment, decrement or read with history on, and let its next instruction be
/// `Rewind`. The first step pushes one entry on the log, and the second takes exactly
/// that entry off again. Every offset on which at most one cursor stands then reads as
/// before the first step.
///
/// Where several cursors stand on one offset, the entry holds a pair for each, written
/// back in order: the offset ends with the value that the last of them found. It reads
/// as before the first step exactly if that is the value from before the step, which
/// the cursors before the last may have changed.
pub proof fn law_rewind_restores(
    timeline: TimelineView,
    tokens: Seq<Token>,
    input: Seq<char>,
    metadata: Seq<TimelineMeta>,
    later_input: Seq<char>,
    later_metadata: Seq<TimelineMeta>,
    later_history: bool,
    last: int,
    offset: int,
)
    requires
        tokens.len() <= usize::MAX,
        records(fetch(tokens, timeline.instruction_pointer)),
        fetch(tokens, (timeline.instruction_pointer + 1) as usize) == Some(Token::Rewind),
        timeline.pointers.len() > 0,
        cursors_at(timeline.pointers, timeline.pointers.len(), offset) > 1 ==> {
            &&& 0 <= last < timeline.pointers.len()
            &&& timeline.pointers[last] == offset
            &&& forall|k: int| last < k < timeline.pointers.len() ==> timeline.pointers[k] != offset
            &&& timeline.served(
                change_of(fetch(tokens, timeline.instruction_pointer), input),
                last as nat,
            ).cell(offset) == timeline.cell(offset)
        },
    ensures
        ({
            let after = timeline.stepped(tokens, input, metadata, true);
            let back = after.stepped(tokens, later_input, later_metadata, later_history);
            &&& after.tape.len() == timeline.tape.len() + 1
            &&& back.tape == timeline.tape
            &&& back.pointers == timeline.pointers
            &&& back.cell(offset) == timeline.cell(offset)
        }),
{
    let change = change_of(fetch(tokens, timeline.instruction_pointer), input);
    let n = timeline.pointers.len();
    if cursors_at(timeline.pointers, n, offset) > 1 {
        law_rewind_writes_back_the_last_record(
            timeline,
            tokens,
            input,
            metadata,
            later_input,
            later_metadata,
            later_history,
            last,
            offset,
        );
    } else {
        let after = timeline.stepped(tokens, input, metadata, true);
        let slice = timeline.time_slice(change);
        let popped = TimelineView { tape: after.tape.drop_last(), ..after };
        lemma_served_keeps(timeline, change, n);
        assert(popped == (TimelineView {
            instruction_pointer: after.instruction_pointer,
            ..timeline.served(change, n)
        }));
        lemma_replayed_keeps(popped, slice, n);
        lemma_replayed(popped, slice, n, offset);
        lemma_time_slice_records(timeline, change, n, offset);
        lemma_served_elsewhere(timeline, change, n, offset);
    }
}

/// A conditional jump looks at every cursor. `Jump-If-Zero` goes to its target exactly
/// when all cursors stand on zero; `Jump-If-Not-Zero` exactly when some cursor stands on
/// another value. Otherwise the instruction pointer moves on by one. With no cursors,
/// the first jumps and the second does not.
pub proof fn law_jump(
    timeline: TimelineView,
    tokens: Seq<Token>,
    input: Seq<char>,
    metadata: Seq<TimelineMeta>,
    history: bool,
)
    requires
        tokens.len() <= usize::MAX,
        fetch(tokens, timeline.instruction_pointer) matches Some(Token::Jump { .. }),
    ensures
        ({
            let after = timeline.stepped(tokens, input, metadata, history);
            let all_zero = forall|k: int|
                0 <= k < timeline.pointers.len() ==> timeline.cell(#[trigger] timeline.pointers[k] as int)
                    == 0;
            &&& fetch(tokens, timeline.instruction_pointer) matches Some(
                Token::Jump { type_: JumpType::IfZero, index },
            ) ==> after.instruction_pointer == if all_zero {
                index as int
            } else {
                timeline.instruction_pointer + 1
            }
            &&& fetch(tokens, timeline.instruction_pointer) matches Some(
                Token::Jump { type_: JumpType::IfNotZero, index },
            ) ==> after.instruction_pointer == if !all_zero {
                index as int
            } else {
                timeline.instruction_pointer + 1
            }
            &&& after == (TimelineView { instruction_pointer: after.instruction_pointer, ..timeline })
        }),
{
    assert(timeline.any_nonzero() <==> !timeline.all_zero());
}

/// `Await` goes by the snapshot. A timeline moves on by one when the entry after its own
/// has no cursors, or when its own entry is the last; it stays at the `Await` when the
/// entry after its own has cursors.
pub proof fn law_await(
    timeline: TimelineView,
    tokens: Seq<Token>,
    input: Seq<char>,
    metadata: Seq<TimelineMeta>,
    history: bool,
    position: int,
)
    requires
        tokens.len() <= usize::MAX,
        fetch(tokens, timeline.instruction_pointer) == Some(Token::Await),
        first_position(snapshot_ids(metadata), timeline.id) == Some(position),
    ensures
        ({
            let after = timeline.stepped(tokens, input, metadata, history);
            let stalls = position + 1 < metadata.len() && metadata[position + 1].pointers_count > 0;
            &&& after.instruction_pointer == if stalls {
                timeline.instruction_pointer as int
            } else {
                timeline.instruction_pointer + 1
            }
            &&& after == (TimelineView { instruction_pointer: after.instruction_pointer, ..timeline })
        }),
{
}

/// `Spawn` forks a timeline. After the step and its command the timeline stands at the
/// target of the `Spawn`; right after it in the population stands the copy, one
/// instruction past the `Spawn`, under the fresh identifier. Both have the tape, the
/// cursors and the undo log that the timeline had before the step. Every other timeline
/// is as it was.
pub proof fn law_spawn_forks(
    population: Seq<TimelineView>,
    at: int,
    tokens: Seq<Token>,
    input: Seq<char>,
    metadata: Seq<TimelineMeta>,
    history: bool,
    target: usize,
    fresh_id: usize,
)
    requires
        tokens.len() <= usize::MAX,
        first_position(population_ids(population), population[at].id) == Some(at),
        fetch(tokens, population[at].instruction_pointer) == Some(Token::Spawn { index: target }),
    ensures
        ({
            let before = population[at];
            let stepped = population.update(at, before.stepped(tokens, input, metadata, history));
            let forked = applied(stepped, before.command(tokens), fresh_id);
            &&& forked.len() == population.len() + 1
            &&& forked[at] == (TimelineView { instruction_pointer: target, ..before })
            &&& forked[at + 1] == (TimelineView {
                id: fresh_id,
                instruction_pointer: forked[at + 1].instruction_pointer,
                ..before
            })
            &&& forked[at + 1].instruction_pointer == before.instruction_pointer + 1
            &&& forall|j: int| 0 <= j < at ==> forked[j] == population[j]
            &&& forall|j: int| at < j < population.len() ==> forked[j + 1] == population[j]
        }),
{
    let before = population[at];
    let stepped = population.update(at, before.stepped(tokens, input, metadata, history));
    assert(population_ids(stepped) =~= population_ids(population));
}

/// `Move-Up` and `Move-Down` hand cursors over. The timeline that issues the command
/// ends without cursors. If it is the first of the population, they are gone, and no
/// other timeline changes. Otherwise the timeline above (for up) or below (for down)
/// has them all, in order, after its own; the tape of the one above grows to cover them.
pub proof fn law_move_pointer(
    population: Seq<TimelineView>,
    at: int,
    direction: MoveDirection,
    fresh_id: usize,
)
    requires
        first_position(population_ids(population), population[at].id) == Some(at),
        direction == MoveDirection::Up || direction == MoveDirection::Down,
        direction == MoveDirection::Down && at != 0 ==> at + 1 < population.len(),
    ensures
        ({
            let moved = applied(
                population,
                Command::MovePointer { id: population[at].id, direction },
                fresh_id,
            );
            let to = if direction == MoveDirection::Up {
                at - 1
            } else {
                at + 1
            };
            &&& moved.len() == population.len()
            &&& moved[at] == population[at].without_cursors()
            &&& moved[at].pointers.len() == 0
            &&& at == 0 ==> forall|j: int| 0 < j < population.len() ==> moved[j] == population[j]
            &&& at != 0 ==> {
                &&& moved[to].pointers == population[to].pointers + population[at].pointers
                &&& moved[to] == population[to].joined_by(
                    population[at].pointers,
                    direction == MoveDirection::Up,
                )
                &&& forall|j: int|
                    0 <= j < population.len() && j != at && j != to ==> moved[j] == population[j]
            }
        }),
{
    let cursors = population[at].pointers;
    if at != 0 && direction == MoveDirection::Up {
        let joined = TimelineView {
            pointers: population[at - 1].pointers + cursors,
            ..population[at - 1]
        };
        lemma_extended_over_keeps(joined, cursors, cursors.len());
    }
}

/// The first timeline of a population stays. Whatever the command, a population that has
/// a timeline has one afterwards, and its first timeline keeps its place and its id.
pub proof fn law_first_timeline_stays(population: Seq<TimelineView>, command: Command, fresh_id: usize)
    requires
        population.len() > 0,
    ensures
        applied(population, command, fresh_id).len() > 0,
        applied(population, command, fresh_id)[0].id == population[0].id,
{
    match command {
        Command::RemoveAt(id) => {
            lemma_position_is_first(population_ids(population), id);
        },
        Command::SpawnAt { id, instruction_start } => {
            lemma_position_is_first(population_ids(population), id);
            match first_position(population_ids(population), id) {
                Some(i) => {
                    let parent = TimelineView { instruction_pointer: instruction_start, ..population[i] };
                    let copy = TimelineView { id: fresh_id, ..population[i] };
                    assert(population.update(i, parent).insert(i + 1, copy)[0] == population.update(
                        i,
                        parent,
                    )[0]);
                },
                None => {},
            }
        },
        Command::MovePointer { id, direction } => {
            lemma_position_is_first(population_ids(population), id);
            match first_position(population_ids(population), id) {
                Some(i) => {
                    if i != 0 && direction == MoveDirection::Up {
                        let cursors = population[i].pointers;
                        let joined = TimelineView {
                            pointers: population[i - 1].pointers + cursors,
                            ..population[i - 1]
                        };
                        lemma_extended_over_keeps(joined, cursors, cursors.len());
                    }
                },
                None => {},
            }
        },
        _ => {},
    }
}

/// A step leaves the identifier of its timeline alone.
pub proof fn law_step_keeps_identifier(
    timeline: TimelineView,
    tokens: Seq<Token>,
    input: Seq<char>,
    metadata: Seq<TimelineMeta>,
    history: bool,
)
    ensures
        timeline.stepped(tokens, input, metadata, history).id == timeline.id,
{
    match fetch(tokens, timeline.instruction_pointer) {
        Some(token) => {
            lemma_data_phase_keeps(timeline, token, input, history);
        },
        None => {},
    }
}

/// Identifiers are never used twice. Let the timelines of a population have distinct
/// identifiers, all below the next one to be handed out. After any command that is so
/// still, counting the identifier that a fork took.
pub proof fn law_identifiers_stay_distinct(population: Seq<TimelineView>, command: Command, next_id: usize)
    requires
        distinct_below(population_ids(population), next_id as int),
    ensures
        distinct_below(
            population_ids(applied(population, command, next_id)),
            if command is SpawnAt {
                next_id + 1
            } else {
                next_id as int
            },
        ),
{
    let ids = population_ids(population);
    let after = applied(population, command, next_id);
    let after_ids = population_ids(after);
    match command {
        Command::NoOp => {},
        Command::RemoveAt(id) => {
            lemma_position_is_first(ids, id);
            match first_position(ids, id) {
                Some(at) => {
                    if at != 0 {
                        assert forall|i: int| 0 <= i < after_ids.len() implies after_ids[i] == ids[if i
                            < at {
                            i
                        } else {
                            i + 1
                        }] by {}
                    }
                },
                None => {},
            }
        },
        Command::SpawnAt { id, instruction_start } => {
            lemma_position_is_first(ids, id);
            match first_position(ids, id) {
                Some(at) => {
                    assert forall|i: int| 0 <= i < after_ids.len() implies after_ids[i] == (if i <= at {
                        ids[i]
                    } else if i == at + 1 {
                        next_id
                    } else {
                        ids[i - 1]
                    }) by {}
                },
                None => {},
            }
        },
        Command::MovePointer { id, direction } => {
            lemma_position_is_first(ids, id);
            match first_position(ids, id) {
                Some(at) => {
                    let cursors = population[at].pointers;
                    if at != 0 {
                        let joined = TimelineView {
                            pointers: population[at - 1].pointers + cursors,
                            ..population[at - 1]
                        };
                        lemma_extended_over_keeps(joined, cursors, cursors.len());
                    }
                    assert(after_ids =~= ids);
                },
                None => {},
            }
        },
    }
}

/// In a population with distinct identifiers, the command of a timeline names that
/// timeline, or nothing.
pub proof fn law_command_names_its_timeline(population: Seq<TimelineView>, at: int, tokens: Seq<Token>)
    requires
        0 <= at < population.len(),
        distinct_below(population_ids(population), usize::MAX + 1),
    ensures
        first_position(population_ids(population), population[at].id) == Some(at),
        match population[at].command(tokens) {
            Command::NoOp => true,
            Command::RemoveAt(id) => id == population[at].id,
            Command::SpawnAt { id, .. } => id == population[at].id,
            Command::MovePointer { id, direction } => id == population[at].id && (direction
                == MoveDirection::Up || direction == MoveDirection::Down),
        },
{
    let ids = population_ids(population);
    assert forall|j: int| 0 <= j < at implies ids[j] != population[at].id by {
        assert(ids[j] != ids[at]);
    }
    lemma_first_position(ids, population[at].id, at);
}

/// The tape never shrinks, and a step changes values under cursors only: an offset that
/// has a cell keeps it through any step.
pub proof fn law_tape_never_shrinks(
    timeline: TimelineView,
    tokens: Seq<Token>,
    input: Seq<char>,
    metadata: Seq<TimelineMeta>,
    history: bool,
    offset: int,
)
    requires
        timeline.covers(offset),
    ensures
        timeline.stepped(tokens, input, metadata, history).covers(offset),
{
    let n = timeline.pointers.len();
    match fetch(tokens, timeline.instruction_pointer) {
        Some(Token::Move(_)) => {
            lemma_shifted(timeline, -1, offset);
            lemma_shifted(timeline, 1, offset);
        },
        Some(Token::Update(type_)) => {
            lemma_served_elsewhere(timeline, CellChange::of_update(type_), n, offset);
        },
        Some(Token::Read) => {
            lemma_served_elsewhere(timeline, CellChange::Read(input), n, offset);
        },
        Some(Token::Rewind) => {
            if timeline.tape.len() > 0 {
                let slice = timeline.tape.last();
                let popped = TimelineView { tape: timeline.tape.drop_last(), ..timeline };
                lemma_replayed(popped, slice, slice.len(), offset);
            }
        },
        _ => {},
    }
}

/// Without history nothing is recorded: a step never makes the undo log longer, and an
/// empty log stays empty.
pub proof fn law_no_history_no_record(
    timeline: TimelineView,
    tokens: Seq<Token>,
    input: Seq<char>,
    metadata: Seq<TimelineMeta>,
)
    ensures
        timeline.stepped(tokens, input, metadata, false).tape.len() <= timeline.tape.len(),
{
    let n = timeline.pointers.len();
    match fetch(tokens, timeline.instruction_pointer) {
        Some(Token::Move(_)) => {
            lemma_extended_over_keeps(timeline, timeline.shifted(-1).pointers, n);
            lemma_extended_over_keeps(timeline, timeline.shifted(1).pointers, n);
        },
        Some(Token::Update(type_)) => {
            lemma_served_keeps(timeline, CellChange::of_update(type_), n);
        },
        Some(Token::Read) => {
            lemma_served_keeps(timeline, CellChange::Read(input), n);
        },
        Some(Token::Rewind) => {
            if timeline.tape.len() > 0 {
                let slice = timeline.tape.last();
                let popped = TimelineView { tape: timeline.tape.drop_last(), ..timeline };
                lemma_replayed_keeps(popped, slice, slice.len());
            }
        },
        _ => {},
    }
}

/// A tick never empties a population, and never moves its first timeline: after any tick,
/// whether it ran to its end or stopped with a fault, the timeline that was first is first.
pub proof fn law_tick_keeps_the_first_timeline(run: RunView, tokens: Seq<Token>, history: bool)
    requires
        run.population.len() > 0,
    ensures
        run.ticked(tokens, history).0.population.len() > 0,
        run.ticked(tokens, history).0.population[0].id == run.population[0].id,
{
    let start = run.snapped();
    let n = run.population.len();
    let stepped = start.stepped(tokens, history, n);
    lemma_stepped_ids(start, tokens, history, n);
    lemma_stepped_keeps(start, tokens, history, n);
    assert(population_ids(stepped.population)[0] == population_ids(start.population)[0]);
    lemma_commanded(stepped, start.commands(tokens), n);
}

/// A tick never uses an identifier twice. If the timelines have distinct identifiers, all
/// below the next one to be handed out, then so they have after any tick, whether it ran
/// to its end or stopped with a fault; and the next identifier never goes down.
pub proof fn law_tick_keeps_identifiers_distinct(run: RunView, tokens: Seq<Token>, history: bool)
    requires
        distinct_below(population_ids(run.population), run.next_id as int),
    ensures
        distinct_below(
            population_ids(run.ticked(tokens, history).0.population),
            run.ticked(tokens, history).0.next_id as int,
        ),
        run.ticked(tokens, history).0.next_id >= run.next_id,
{
    let start = run.snapped();
    let n = run.population.len();
    let stepped = start.stepped(tokens, history, n);
    lemma_stepped_ids(start, tokens, history, n);
    lemma_stepped_keeps(start, tokens, history, n);
    lemma_commanded(stepped, start.commands(tokens), n);
}

/// Among timelines with distinct identifiers no command misses its timeline. If a tick
/// over such a population stops at a command, then the command is a fork and no
/// identifier is left, or it moves cursors down from the last timeline of a population
/// of two or more.
pub proof fn law_tick_stops_only_for_want_of_room(run: RunView, tokens: Seq<Token>, history: bool)
    requires
        distinct_below(population_ids(run.population), usize::MAX + 1),
    ensures
        ({
            let start = run.snapped();
            let n = run.population.len();
            let end = start.stepped(tokens, history, n).commanded(start.commands(tokens), n);
            end.stuck matches Some(k) ==> {
                let ids = population_ids(end.run.population);
                match run.population[k].command(tokens) {
                    Command::SpawnAt { id, .. } => end.run.next_id == usize::MAX,
                    Command::MovePointer { id, direction } => {
                        &&& direction == MoveDirection::Down
                        &&& ids.len() >= 2
                        &&& first_position(ids, id) == Some(ids.len() - 1)
                    },
                    _ => false,
                }
            }
        }),
{
    let start = run.snapped();
    let n = run.population.len();
    let stepped = start.stepped(tokens, history, n);
    let commands = start.commands(tokens);
    let end = stepped.commanded(commands, n);
    lemma_stepped_ids(start, tokens, history, n);
    match end.stuck {
        Some(k) => {
            lemma_stuck_at(stepped, commands, n);
            let before = stepped.commanded(commands, k as nat);
            lemma_commanded_keeps_later(start, stepped, tokens, k as nat, k);
            law_command_names_its_timeline(start.population, k, tokens);
            let ids = population_ids(before.run.population);
            lemma_position_is_first(ids, start.population[k].id);
        },
        None => {},
    }
}

/// The instruction pointer stays in the program. Where every target of a jump or a fork
/// is an index of the program or its length, a timeline whose instruction pointer is one
/// of those keeps it so through a step, and the target that its command names is one too.
pub proof fn law_instruction_pointer_stays_in_program(
    timeline: TimelineView,
    tokens: Seq<Token>,
    input: Seq<char>,
    metadata: Seq<TimelineMeta>,
    history: bool,
)
    requires
        tokens.len() <= usize::MAX,
        targets_in_program(tokens),
        timeline.instruction_pointer <= tokens.len(),
    ensures
        timeline.stepped(tokens, input, metadata, history).instruction_pointer <= tokens.len(),
        timeline.command(tokens) matches Command::SpawnAt { instruction_start, .. }
            ==> instruction_start <= tokens.len(),
{
    match fetch(tokens, timeline.instruction_pointer) {
        Some(token) => {
            lemma_data_phase_keeps(timeline, token, input, history);
        },
        None => {},
    }
}

/// A tick stops before its steps only at the edge of the tape. If a tick finds a timeline
/// that cannot take its step, then the instruction of that timeline moves the cursors
/// along the tape, and one of them stands on the last offset in that direction. No
/// timeline is kept from waiting: each has its entry in the snapshot of the tick.
pub proof fn law_tick_stops_before_steps_only_at_the_edge(run: RunView, tokens: Seq<Token>)
    ensures
        run.snapped().blocked(tokens, run.population.len()) matches Some(k) ==> {
            let timeline = run.population[k];
            match fetch(tokens, timeline.instruction_pointer) {
                Some(Token::Move(MoveDirection::Left)) => exists|c: int|
                    0 <= c < timeline.pointers.len() && #[trigger] timeline.pointers[c] == isize::MIN,
                Some(Token::Move(MoveDirection::Right)) => exists|c: int|
                    0 <= c < timeline.pointers.len() && #[trigger] timeline.pointers[c] == isize::MAX,
                _ => false,
            }
        },
{
    let start = run.snapped();
    match start.blocked(tokens, run.population.len()) {
        Some(k) => {
            lemma_blocked_at(start, tokens, run.population.len());
            let timeline = run.population[k];
            let ids = snapshot_ids(start.metadata);
            lemma_some_position(ids, timeline.id, k);
        },
        None => {},
    }
}

/// What the ticks keep, a run keeps. However many ticks a run takes, and whether it ends
/// with a fault or not: a population that has a timeline keeps its first timeline in its
/// place, and timelines with distinct identifiers, all below the next one to be handed
/// out, stay so.
pub proof fn law_run_keeps_the_population_in_order(
    run: RunView,
    tokens: Seq<Token>,
    history: bool,
    ticks: nat,
)
    ensures
        run.population.len() > 0 ==> run.ran(tokens, history, ticks).0.population.len() > 0
            && run.ran(tokens, history, ticks).0.population[0].id == run.population[0].id,
        distinct_below(population_ids(run.population), run.next_id as int) ==> distinct_below(
            population_ids(run.ran(tokens, history, ticks).0.population),
            run.ran(tokens, history, ticks).0.next_id as int,
        ),
    decreases ticks,
{
    if ticks > 0 && !run.finished(tokens) {
        let (next, fault) = run.ticked(tokens, history);
        if run.population.len() > 0 {
            law_tick_keeps_the_first_timeline(run, tokens, history);
        }
        if distinct_below(population_ids(run.population), run.next_id as int) {
            law_tick_keeps_identifiers_distinct(run, tokens, history);
        }
        if fault is None {
            law_run_keeps_the_population_in_order(next, tokens, history, (ticks - 1) as nat);
        }
    }
}

} // verus!
