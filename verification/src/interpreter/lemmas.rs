//! Lemmas that the proofs of the engine rest on.

use crate::interpreter::laws::{
    law_command_names_its_timeline, law_first_timeline_stays, law_identifiers_stay_distinct,
    law_step_keeps_identifier,
};
use crate::interpreter::model::{
    applied, can_apply, cursors_at, distinct_below, fetch, first_position, is_first_position,
    last_record, moves_ahead, population_ids, CellChange, TimelineView,
};
use crate::interpreter::scheduler::RunView;
use crate::interpreter::types::{Command, TimelineMeta};
use crate::parser::types::{MoveDirection, Token};
use vstd::arithmetic::div_mod::lemma_add_mod_noop_right;
use vstd::prelude::*;

verus! {

/// The first phase of a step leaves the identifier, the instruction pointer and the
/// liveness flag alone; only `Move` along the tape changes the cursors.
pub proof fn lemma_data_phase_keeps(timeline: TimelineView, token: Token, input: Seq<char>, history: bool)
    ensures
        timeline.after_data_phase(token, input, history).id == timeline.id,
        timeline.after_data_phase(token, input, history).instruction_pointer
            == timeline.instruction_pointer,
        timeline.after_data_phase(token, input, history).alive == timeline.alive,
        !(token matches Token::Move(_)) ==> timeline.after_data_phase(token, input, history).pointers
            == timeline.pointers,
{
    let n = timeline.pointers.len();
    match token {
        Token::Move(_) => {
            let left = timeline.shifted(-1).pointers;
            let right = timeline.shifted(1).pointers;
            lemma_extended_over_keeps(timeline, left, n);
            lemma_extended_over_keeps(timeline, right, n);
        },
        Token::Update(type_) => {
            lemma_served_keeps(timeline, CellChange::of_update(type_), n);
        },
        Token::Read => {
            lemma_served_keeps(timeline, CellChange::Read(input), n);
        },
        Token::Rewind => {
            if timeline.tape.len() > 0 {
                let slice = timeline.tape.last();
                let popped = TimelineView { tape: timeline.tape.drop_last(), ..timeline };
                lemma_replayed_keeps(popped, slice, slice.len());
            }
        },
        _ => {},
    }
}

/// Growing the tape changes nothing but the tape.
pub proof fn lemma_extended_over_keeps(timeline: TimelineView, offsets: Seq<isize>, n: nat)
    ensures
        timeline.extended_over(offsets, n).id == timeline.id,
        timeline.extended_over(offsets, n).pointers == timeline.pointers,
        timeline.extended_over(offsets, n).tape == timeline.tape,
        timeline.extended_over(offsets, n).instruction_pointer == timeline.instruction_pointer,
        timeline.extended_over(offsets, n).alive == timeline.alive,
    decreases n,
{
    if n > 0 {
        lemma_extended_over_keeps(timeline, offsets, (n - 1) as nat);
    }
}

/// Writing under the cursors changes nothing but the tape.
pub proof fn lemma_served_keeps(timeline: TimelineView, change: CellChange, n: nat)
    ensures
        timeline.served(change, n).id == timeline.id,
        timeline.served(change, n).pointers == timeline.pointers,
        timeline.served(change, n).tape == timeline.tape,
        timeline.served(change, n).instruction_pointer == timeline.instruction_pointer,
        timeline.served(change, n).alive == timeline.alive,
    decreases n,
{
    if n > 0 {
        lemma_served_keeps(timeline, change, (n - 1) as nat);
    }
}

/// Writing an undo entry back changes nothing but the tape.
pub proof fn lemma_replayed_keeps(timeline: TimelineView, slice: Seq<(isize, u8)>, n: nat)
    ensures
        timeline.replayed(slice, n).id == timeline.id,
        timeline.replayed(slice, n).pointers == timeline.pointers,
        timeline.replayed(slice, n).tape == timeline.tape,
        timeline.replayed(slice, n).instruction_pointer == timeline.instruction_pointer,
        timeline.replayed(slice, n).alive == timeline.alive,
    decreases n,
{
    if n > 0 {
        lemma_replayed_keeps(timeline, slice, (n - 1) as nat);
    }
}

/// What `first_position` gives is the first index that holds `id`; it gives none only
/// where no index holds it.
pub proof fn lemma_position_is_first(ids: Seq<usize>, id: usize)
    ensures
        match first_position(ids, id) {
            Some(i) => is_first_position(ids, id, i),
            None => forall|j: int| 0 <= j < ids.len() ==> ids[j] != id,
        },
{
    if first_position(ids, id) is None {
        assert forall|j: int| 0 <= j < ids.len() implies ids[j] != id by {
            if ids[j] == id {
                lemma_some_position(ids, id, j);
            }
        }
    }
}

/// Where some index up to `j` holds `id`, one of them is the first.
pub proof fn lemma_some_position(ids: Seq<usize>, id: usize, j: int)
    requires
        0 <= j < ids.len(),
        ids[j] == id,
    ensures
        exists|i: int| is_first_position(ids, id, i),
    decreases j,
{
    if exists|k: int| 0 <= k < j && ids[k] == id {
        let k = choose|k: int| 0 <= k < j && ids[k] == id;
        lemma_some_position(ids, id, k);
    } else {
        assert(is_first_position(ids, id, j));
    }
}

/// Where no index holds `id`, it has no first position.
pub proof fn lemma_no_position(ids: Seq<usize>, id: usize)
    requires
        forall|j: int| 0 <= j < ids.len() ==> ids[j] != id,
    ensures
        first_position(ids, id) is None,
{
    if exists|i: int| is_first_position(ids, id, i) {
        let i = choose|i: int| is_first_position(ids, id, i);
        assert(ids[i] == id);
    }
}

/// The first position of an identifier is the one index that `is_first_position` holds of.
pub proof fn lemma_first_position(ids: Seq<usize>, id: usize, i: int)
    requires
        is_first_position(ids, id, i),
    ensures
        first_position(ids, id) == Some(i),
{
    let chosen = choose|j: int| is_first_position(ids, id, j);
    if chosen < i {
        assert(ids[chosen] != id);
    } else if i < chosen {
        assert(ids[i] != id);
    }
}

/// Growing the tape to cover `offset` gives it a cell there, keeps every cell that it had,
/// and changes the value at no offset: the new cells are zero, as a missing cell reads.
pub proof fn lemma_extended(timeline: TimelineView, offset: int, other: int)
    ensures
        timeline.extended(offset).covers(offset),
        timeline.covers(other) ==> timeline.extended(offset).covers(other),
        timeline.extended(offset).cell(other) == timeline.cell(other),
{
}

/// Storing a value changes the value at that offset and at no other, and takes no cell
/// away.
pub proof fn lemma_stored(timeline: TimelineView, offset: int, value: u8, other: int)
    ensures
        timeline.stored(offset, value).covers(offset),
        timeline.covers(other) ==> timeline.stored(offset, value).covers(other),
        timeline.stored(offset, value).cell(other) == if other == offset {
            value
        } else {
            timeline.cell(other)
        },
{
}

/// Growing the tape over the first `n` of `offsets` covers each of them, keeps every cell
/// that it had, and changes the value at no offset.
pub proof fn lemma_extended_over(timeline: TimelineView, offsets: Seq<isize>, n: nat, other: int)
    requires
        n <= offsets.len(),
    ensures
        forall|k: int| 0 <= k < n ==> timeline.extended_over(offsets, n).covers(#[trigger] offsets[k] as int),
        timeline.covers(other) ==> timeline.extended_over(offsets, n).covers(other),
        timeline.extended_over(offsets, n).cell(other) == timeline.cell(other),
    decreases n,
{
    if n > 0 {
        let before = timeline.extended_over(offsets, (n - 1) as nat);
        lemma_extended_over(timeline, offsets, (n - 1) as nat, other);
        lemma_extended(before, offsets[n - 1] as int, other);
        assert forall|k: int| 0 <= k < n implies timeline.extended_over(offsets, n).covers(
            #[trigger] offsets[k] as int,
        ) by {
            lemma_extended(before, offsets[n - 1] as int, offsets[k] as int);
        }
    }
}

/// Moving the cursors along the tape covers each cursor, keeps every cell that the tape
/// had, and changes the value at no offset.
pub proof fn lemma_shifted(timeline: TimelineView, delta: int, other: int)
    ensures
        timeline.shifted(delta).pointers.len() == timeline.pointers.len(),
        forall|k: int|
            0 <= k < timeline.pointers.len() ==> timeline.shifted(delta).covers(
                #[trigger] timeline.shifted(delta).pointers[k] as int,
            ),
        timeline.covers(other) ==> timeline.shifted(delta).covers(other),
        timeline.shifted(delta).cell(other) == timeline.cell(other),
{
    let pointers = timeline.shifted(delta).pointers;
    lemma_extended_over(timeline, pointers, pointers.len(), other);
    lemma_extended_over_keeps(timeline, pointers, pointers.len());
}

/// A pass over the cursors takes no cell away, and leaves the value at an offset on
/// which none of the cursors served stands.
pub proof fn lemma_served_elsewhere(timeline: TimelineView, change: CellChange, n: nat, offset: int)
    requires
        n <= timeline.pointers.len(),
    ensures
        timeline.covers(offset) ==> timeline.served(change, n).covers(offset),
        cursors_at(timeline.pointers, n, offset) == 0 ==> timeline.served(change, n).cell(offset)
            == timeline.cell(offset),
    decreases n,
{
    if n > 0 {
        let before = timeline.served(change, (n - 1) as nat);
        let at = timeline.pointers[n - 1] as int;
        lemma_served_elsewhere(timeline, change, (n - 1) as nat, offset);
        lemma_stored(before, at, change.value(n - 1, before.cell(at)), offset);
    }
}

/// A pass that adds `amount` under each cursor adds it to the value at an offset once for
/// each cursor that stands there, modulo 256.
pub proof fn lemma_served_add(timeline: TimelineView, amount: int, n: nat, offset: int)
    requires
        n <= timeline.pointers.len(),
    ensures
        timeline.served(CellChange::Add(amount), n).cell(offset) == (timeline.cell(offset) + amount
            * cursors_at(timeline.pointers, n, offset)) % 256,
    decreases n,
{
    if n > 0 {
        let change = CellChange::Add(amount);
        let before = timeline.served(change, (n - 1) as nat);
        let at = timeline.pointers[n - 1] as int;
        let count = cursors_at(timeline.pointers, (n - 1) as nat, offset);
        lemma_served_add(timeline, amount, (n - 1) as nat, offset);
        lemma_stored(before, at, change.value(n - 1, before.cell(at)), offset);
        if at == offset {
            assert(amount * (count + 1) == amount * count + amount) by (nonlinear_arith);
            let sum = timeline.cell(offset) + amount * count;
            lemma_add_mod_noop_right(amount, sum, 256);
        }
    } else {
        assert(amount * 0 == 0);
    }
}

/// Writing an undo entry back takes no cell away, and leaves at each offset the value of
/// the latest pair for it; an offset without a pair keeps its value.
pub proof fn lemma_replayed(timeline: TimelineView, slice: Seq<(isize, u8)>, n: nat, offset: int)
    requires
        n <= slice.len(),
    ensures
        timeline.covers(offset) ==> timeline.replayed(slice, n).covers(offset),
        timeline.replayed(slice, n).cell(offset) == match last_record(slice, n, offset) {
            Some(value) => value,
            None => timeline.cell(offset),
        },
    decreases n,
{
    if n > 0 {
        let before = timeline.replayed(slice, (n - 1) as nat);
        lemma_replayed(timeline, slice, (n - 1) as nat, offset);
        lemma_stored(before, slice[n - 1].0 as int, slice[n - 1].1, offset);
    }
}

/// In the undo entry of a step, the latest pair for an offset on which one cursor stands
/// holds the value from before the step; an offset without a cursor has no pair.
pub proof fn lemma_time_slice_records(timeline: TimelineView, change: CellChange, n: nat, offset: int)
    requires
        n <= timeline.pointers.len(),
    ensures
        cursors_at(timeline.pointers, n, offset) == 0 ==> last_record(
            timeline.time_slice(change),
            n,
            offset,
        ) is None,
        cursors_at(timeline.pointers, n, offset) == 1 ==> last_record(
            timeline.time_slice(change),
            n,
            offset,
        ) == Some(timeline.cell(offset)),
    decreases n,
{
    if n > 0 {
        lemma_time_slice_records(timeline, change, (n - 1) as nat, offset);
        lemma_served_elsewhere(timeline, change, (n - 1) as nat, offset);
    }
}

/// In the undo entry of a step, the latest pair for an offset is that of the last cursor
/// that stands on it.
pub proof fn lemma_last_record_is_of_last_cursor(
    timeline: TimelineView,
    change: CellChange,
    n: nat,
    last: int,
    offset: int,
)
    requires
        n <= timeline.pointers.len(),
        0 <= last < n,
        timeline.pointers[last] == offset,
        forall|k: int| last < k < n ==> timeline.pointers[k] != offset,
    ensures
        last_record(timeline.time_slice(change), n, offset) == Some(
            timeline.served(change, last as nat).cell(offset),
        ),
    decreases n,
{
    if last < n - 1 {
        lemma_last_record_is_of_last_cursor(timeline, change, (n - 1) as nat, last, offset);
    }
}

/// The steps of a tick leave every identifier where it is.
pub proof fn lemma_stepped_ids(run: RunView, tokens: Seq<Token>, history: bool, n: nat)
    requires
        n <= run.population.len(),
    ensures
        population_ids(run.stepped(tokens, history, n).population) == population_ids(run.population),
    decreases n,
{
    if n > 0 {
        let before = run.stepped(tokens, history, (n - 1) as nat);
        lemma_stepped_ids(run, tokens, history, (n - 1) as nat);
        lemma_stepped_keeps(run, tokens, history, (n - 1) as nat);
        law_step_keeps_identifier(before.population[n - 1], tokens, before.input, run.metadata, history);
        assert(population_ids(run.stepped(tokens, history, n).population) =~= population_ids(
            before.population,
        ));
    }
}

/// Applying commands keeps the first timeline in its place, and keeps identifiers
/// distinct and below the next one to be handed out.
pub proof fn lemma_commanded(run: RunView, commands: Seq<Command>, n: nat)
    requires
        n <= commands.len(),
    ensures
        run.population.len() > 0 ==> run.commanded(commands, n).run.population.len() > 0
            && run.commanded(commands, n).run.population[0].id == run.population[0].id,
        distinct_below(population_ids(run.population), run.next_id as int) ==> distinct_below(
            population_ids(run.commanded(commands, n).run.population),
            run.commanded(commands, n).run.next_id as int,
        ),
        run.commanded(commands, n).run.next_id >= run.next_id,
    decreases n,
{
    if n > 0 {
        let before = run.commanded(commands, (n - 1) as nat);
        lemma_commanded(run, commands, (n - 1) as nat);
        if before.stuck is None && can_apply(before.run.population, commands[n - 1], before.run.next_id) {
            if run.population.len() > 0 {
                law_first_timeline_stays(before.run.population, commands[n - 1], before.run.next_id);
            }
            if distinct_below(population_ids(run.population), run.next_id as int) {
                law_identifiers_stay_distinct(before.run.population, commands[n - 1], before.run.next_id);
            }
        }
    }
}

/// A command takes no timeline out but the one that `RemoveAt` names.
pub proof fn lemma_applied_keeps_others(
    population: Seq<TimelineView>,
    command: Command,
    fresh_id: usize,
    id: usize,
)
    requires
        population_ids(population).contains(id),
        command matches Command::RemoveAt(removed) ==> removed != id,
    ensures
        population_ids(applied(population, command, fresh_id)).contains(id),
{
    let ids = population_ids(population);
    let after = applied(population, command, fresh_id);
    let at = choose|at: int| 0 <= at < ids.len() && ids[at] == id;
    match command {
        Command::NoOp => {},
        Command::RemoveAt(removed) => {
            lemma_position_is_first(ids, removed);
            match first_position(ids, removed) {
                Some(i) => {
                    if i != 0 {
                        let to = if at < i {
                            at
                        } else {
                            at - 1
                        };
                        assert(population_ids(after)[to] == id);
                    }
                },
                None => {},
            }
        },
        Command::SpawnAt { id: forked, .. } => {
            lemma_position_is_first(ids, forked);
            match first_position(ids, forked) {
                Some(i) => {
                    let to = if at <= i {
                        at
                    } else {
                        at + 1
                    };
                    assert(population_ids(after)[to] == id);
                },
                None => {},
            }
        },
        Command::MovePointer { id: moved, direction } => {
            lemma_position_is_first(ids, moved);
            match first_position(ids, moved) {
                Some(i) => {
                    let cursors = population[i].pointers;
                    if i != 0 {
                        let joined = TimelineView {
                            pointers: population[i - 1].pointers + cursors,
                            ..population[i - 1]
                        };
                        lemma_extended_over_keeps(joined, cursors, cursors.len());
                    }
                    assert(population_ids(after)[at] == id);
                },
                None => {},
            }
        },
    }
}

/// While the commands of a tick are applied, the timelines whose commands are still to
/// come stay in the population.
pub proof fn lemma_commanded_keeps_later(
    start: RunView,
    stepped: RunView,
    tokens: Seq<Token>,
    n: nat,
    later: int,
)
    requires
        distinct_below(population_ids(start.population), usize::MAX + 1),
        population_ids(stepped.population) == population_ids(start.population),
        n <= later < start.population.len(),
    ensures
        population_ids(stepped.commanded(start.commands(tokens), n).run.population).contains(
            start.population[later].id,
        ),
    decreases n,
{
    let ids = population_ids(start.population);
    let commands = start.commands(tokens);
    if n == 0 {
        assert(ids[later] == start.population[later].id);
    } else {
        let before = stepped.commanded(commands, (n - 1) as nat);
        lemma_commanded_keeps_later(start, stepped, tokens, (n - 1) as nat, later);
        law_command_names_its_timeline(start.population, n - 1, tokens);
        assert(ids[n - 1] != ids[later]);
        lemma_applied_keeps_others(
            before.run.population,
            commands[n - 1],
            before.run.next_id,
            start.population[later].id,
        );
    }
}

/// Where the commands are stuck, they are stuck at a command that cannot be applied to
/// the run as the commands before it left it, and that run is where they stay.
pub proof fn lemma_stuck_at(run: RunView, commands: Seq<Command>, n: nat)
    ensures
        run.commanded(commands, n).stuck matches Some(k) ==> {
            &&& 0 <= k < n
            &&& run.commanded(commands, k as nat).stuck is None
            &&& run.commanded(commands, k as nat).run == run.commanded(commands, n).run
            &&& !can_apply(
                run.commanded(commands, k as nat).run.population,
                commands[k],
                run.commanded(commands, k as nat).run.next_id,
            )
        },
    decreases n,
{
    if n > 0 {
        lemma_stuck_at(run, commands, (n - 1) as nat);
    }
}

/// Stepping the first `n` timelines leaves the others, the snapshot and the source of
/// identifiers as they were.
pub proof fn lemma_stepped_keeps(run: RunView, tokens: Seq<Token>, history: bool, n: nat)
    requires
        n <= run.population.len(),
    ensures
        run.stepped(tokens, history, n).population.len() == run.population.len(),
        forall|j: int|
            n <= j < run.population.len() ==> run.stepped(tokens, history, n).population[j]
                == run.population[j],
        run.stepped(tokens, history, n).next_id == run.next_id,
        run.stepped(tokens, history, n).metadata == run.metadata,
        run.stepped(tokens, history, n).total_timelines == run.total_timelines,
    decreases n,
{
    if n > 0 {
        lemma_stepped_keeps(run, tokens, history, (n - 1) as nat);
    }
}

/// Where none of the first `n` timelines is blocked, each of them can take its step.
pub proof fn lemma_not_blocked(run: RunView, tokens: Seq<Token>, n: nat)
    requires
        run.blocked(tokens, n) is None,
    ensures
        forall|k: int| 0 <= k < n ==> (#[trigger] run.population[k]).can_step(tokens, run.metadata),
    decreases n,
{
    if n > 0 {
        lemma_not_blocked(run, tokens, (n - 1) as nat);
    }
}

/// Once a timeline is found blocked, it stays the first blocked one.
pub proof fn lemma_blocked_stays(run: RunView, tokens: Seq<Token>, from: nat, to: nat)
    requires
        from <= to,
        run.blocked(tokens, from) is Some,
    ensures
        run.blocked(tokens, to) == run.blocked(tokens, from),
    decreases to - from,
{
    if from < to {
        lemma_blocked_stays(run, tokens, from, (to - 1) as nat);
    }
}

/// Once the commands are stuck, nothing more is applied.
pub proof fn lemma_stuck_stays(run: RunView, commands: Seq<Command>, from: nat, to: nat)
    requires
        from <= to,
        run.commanded(commands, from).stuck is Some,
    ensures
        run.commanded(commands, to) == run.commanded(commands, from),
    decreases to - from,
{
    if from < to {
        lemma_stuck_stays(run, commands, from, (to - 1) as nat);
    }
}

/// A walk of `n` moves goes through the program one instruction at a time, keeps the
/// number of cursors, keeps every cell that the tape had, and changes the value at no
/// offset.
pub proof fn lemma_walked(
    timeline: TimelineView,
    tokens: Seq<Token>,
    input: Seq<char>,
    metadata: Seq<TimelineMeta>,
    history: bool,
    moves: nat,
    n: nat,
    other: int,
)
    requires
        tokens.len() <= usize::MAX,
        moves_ahead(timeline, tokens, moves),
        n <= moves,
    ensures
        timeline.stepped_times(tokens, input, metadata, history, n).instruction_pointer
            == timeline.instruction_pointer + n,
        timeline.stepped_times(tokens, input, metadata, history, n).pointers.len()
            == timeline.pointers.len(),
        timeline.covers(other) ==> timeline.stepped_times(tokens, input, metadata, history, n).covers(
            other,
        ),
        timeline.stepped_times(tokens, input, metadata, history, n).cell(other) == timeline.cell(other),
        n > 0 ==> forall|k: int|
            0 <= k < timeline.pointers.len() ==> timeline.stepped_times(
                tokens,
                input,
                metadata,
                history,
                n,
            ).covers(
                #[trigger] timeline.stepped_times(tokens, input, metadata, history, n).pointers[k] as int,
            ),
    decreases n,
{
    if n > 0 {
        let before = timeline.stepped_times(tokens, input, metadata, history, (n - 1) as nat);
        lemma_walked(timeline, tokens, input, metadata, history, moves, (n - 1) as nat, other);
        let token = fetch(tokens, (timeline.instruction_pointer + (n - 1)) as usize);
        assert(token == Some(Token::Move(MoveDirection::Left)) || token == Some(
            Token::Move(MoveDirection::Right),
        ));
        lemma_data_phase_keeps(before, token->Some_0, input, history);
        lemma_shifted(before, -1, other);
        lemma_shifted(before, 1, other);
    }
}

/// A longer walk keeps the cells of a shorter one.
pub proof fn lemma_walk_keeps_cells(
    timeline: TimelineView,
    tokens: Seq<Token>,
    input: Seq<char>,
    metadata: Seq<TimelineMeta>,
    history: bool,
    moves: nat,
    from: nat,
    to: nat,
    other: int,
)
    requires
        tokens.len() <= usize::MAX,
        moves_ahead(timeline, tokens, moves),
        from <= to <= moves,
    ensures
        timeline.stepped_times(tokens, input, metadata, history, from).covers(other)
            ==> timeline.stepped_times(tokens, input, metadata, history, to).covers(other),
        timeline.stepped_times(tokens, input, metadata, history, to).cell(other)
            == timeline.stepped_times(tokens, input, metadata, history, from).cell(other),
    decreases to - from,
{
    lemma_walked(timeline, tokens, input, metadata, history, moves, from, other);
    lemma_walked(timeline, tokens, input, metadata, history, moves, to, other);
    if from < to {
        let before = timeline.stepped_times(tokens, input, metadata, history, (to - 1) as nat);
        lemma_walk_keeps_cells(
            timeline,
            tokens,
            input,
            metadata,
            history,
            moves,
            from,
            (to - 1) as nat,
            other,
        );
        lemma_walked(timeline, tokens, input, metadata, history, moves, (to - 1) as nat, other);
        let token = fetch(tokens, (timeline.instruction_pointer + (to - 1)) as usize);
        assert(token == Some(Token::Move(MoveDirection::Left)) || token == Some(
            Token::Move(MoveDirection::Right),
        ));
        lemma_shifted(before, -1, other);
        lemma_shifted(before, 1, other);
    }
}

/// The timeline that is found blocked cannot take its step, and those before it can.
pub proof fn lemma_blocked_at(run: RunView, tokens: Seq<Token>, n: nat)
    requires
        n <= run.population.len(),
    ensures
        run.blocked(tokens, n) matches Some(k) ==> {
            &&& 0 <= k < n
            &&& !run.population[k].can_step(tokens, run.metadata)
            &&& forall|j: int| 0 <= j < k ==> (#[trigger] run.population[j]).can_step(tokens, run.metadata)
        },
    decreases n,
{
    if n > 0 {
        lemma_blocked_at(run, tokens, (n - 1) as nat);
        if run.blocked(tokens, (n - 1) as nat) is None {
            lemma_not_blocked(run, tokens, (n - 1) as nat);
        }
    }
}

} // verus!
