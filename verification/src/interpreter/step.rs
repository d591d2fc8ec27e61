//! One step of one timeline.

use crate::interpreter::commands::{lookup, position_of};
use crate::interpreter::lemmas::{
    lemma_data_phase_keeps, lemma_extended_over_keeps, lemma_served_keeps,
};
use crate::interpreter::model::{
    first_position, input_after, input_char, released, snapshot_ids, CellChange, TimelineView,
};
use crate::interpreter::trusted::{push_char, remove_first_char};
use crate::interpreter::types::{idents, BF5DContext, Command, Timeline};
use crate::parser::types::{JumpType, MoveDirection, Token, UpdateType};
use vstd::prelude::*;

verus! {

impl BF5DContext {
    /// Whether the timeline `id` may go on past an `Await`: in the snapshot, the timeline
    /// below it has no cursors, or there is none below it.
    fn below_is_idle(&self, id: usize) -> (idle: bool)
        requires
            first_position(snapshot_ids(self.metadata@), id) is Some,
        ensures
            idle == released(self.metadata@, id),
    {
        let len = self.metadata.len();
        assert(idents(self.metadata@) =~= snapshot_ids(self.metadata@));
        let timeline_index = position_of(&self.metadata, id);
        if timeline_index + 1 < len {
            self.metadata[timeline_index + 1].pointers_count == 0
        } else {
            true
        }
    }
}

impl Timeline {
    /// Whether this timeline can take its step in `context`.
    pub fn can_update(&self, context: &BF5DContext) -> (ready: bool)
        ensures
            ready == self@.can_step(context.tokens@, context.metadata@),
    {
        if self.instruction_pointer >= context.tokens.len() {
            return true;
        }
        match context.tokens[self.instruction_pointer] {
            Token::Move(MoveDirection::Left) => self.pointers_within(isize::MIN + 1, isize::MAX),
            Token::Move(MoveDirection::Right) => self.pointers_within(isize::MIN, isize::MAX - 1),
            Token::Await => {
                assert(idents(context.metadata@) =~= snapshot_ids(context.metadata@));
                lookup(&context.metadata, self.id).is_some()
            },
            _ => true,
        }
    }

    /// Whether every cursor is at an offset from `low` to `high`.
    fn pointers_within(&self, low: isize, high: isize) -> (within: bool)
        ensures
            within == forall|k: int|
                0 <= k < self.pointers@.len() ==> low <= #[trigger] self.pointers@[k] <= high,
    {
        let n = self.pointers.len();
        let mut i: usize = 0;
        while i < n
            invariant
                i <= n,
                n == self.pointers@.len(),
                forall|k: int| 0 <= k < i ==> low <= #[trigger] self.pointers@[k] <= high,
            decreases n - i,
        {
            let ptr = self.pointers[i];
            if ptr < low || ptr > high {
                return false;
            }
            i += 1;
        }
        true
    }

    /// Executes the instruction at the instruction pointer. Returns the timeline as the
    /// step left it, and the command that the step issues. Past the end of the program the
    /// timeline asks to be removed and stays as it is.
    ///
    /// A step has three phases. The first changes the tape, the cursors, the undo log and
    /// the program's input and output. The second sets the instruction pointer. The third
    /// picks the command.
    pub fn update(&mut self, context: &mut BF5DContext) -> (result: (&Self, Command))
        requires
            old(self)@.can_step(old(context).tokens@, old(context).metadata@),
        ensures
            final(self)@ == old(self)@.stepped(
                old(context).tokens@,
                old(context).program_input@,
                old(context).metadata@,
                old(context).need_history,
            ),
            *result.0 == *final(self),
            result.1 == old(self)@.command(old(context).tokens@),
            final(context).program_input@ == old(self)@.input_left(
                old(context).tokens@,
                old(context).program_input@,
            ),
            final(context).program_output@ == old(context).program_output@ + old(self)@.output(
                old(context).tokens@,
            ),
            final(context).same_run_as(old(context)),
    {
        let id = self.id;
        if self.instruction_pointer >= context.tokens.len() {
            return (self, Command::RemoveAt(id));
        }
        let action = context.tokens[self.instruction_pointer];
        proof {
            lemma_data_phase_keeps(old(self)@, action, old(context).program_input@, old(context).need_history);
        }

        match action {
            Token::Move(MoveDirection::Left) => self.move_pointers(-1),
            Token::Move(MoveDirection::Right) => self.move_pointers(1),
            Token::Update(type_) => self.change_cells(type_, context.need_history),
            Token::Write => self.write_cells(&mut context.program_output),
            Token::Read => self.read_cells(&mut context.program_input, context.need_history),
            Token::Rewind => self.rewind(),
            _ => (),
        }

        match action {
            Token::Jump { type_, index } => {
                let taken = match type_ {
                    JumpType::IfZero => self.all_cursors_zero(),
                    JumpType::IfNotZero => self.any_cursor_nonzero(),
                };
                if taken {
                    self.instruction_pointer = index;
                } else {
                    self.instruction_pointer += 1;
                }
            },
            Token::Await => {
                if context.below_is_idle(id) {
                    self.instruction_pointer += 1;
                }
            },
            _ => {
                self.instruction_pointer += 1;
            },
        }

        let command = match action {
            Token::Kill => Command::RemoveAt(id),
            Token::Move(MoveDirection::Up) => Command::MovePointer { id, direction: MoveDirection::Up },
            Token::Move(MoveDirection::Down) => Command::MovePointer {
                id,
                direction: MoveDirection::Down,
            },
            Token::Spawn { index } => Command::SpawnAt { id, instruction_start: index },
            _ => Command::NoOp,
        };
        (self, command)
    }

    /// Moves every cursor by `delta` and grows the tape under each.
    fn move_pointers(&mut self, delta: isize)
        requires
            forall|k: int|
                0 <= k < old(self).pointers@.len() ==> isize::MIN <= #[trigger] old(self).pointers@[k]
                    + delta <= isize::MAX,
        ensures
            final(self)@ == old(self)@.shifted(delta as int),
    {
        let ghost target = old(self)@.shifted(delta as int).pointers;
        let n = self.pointers.len();
        let mut i: usize = 0;
        while i < n
            invariant
                i <= n,
                n == old(self).pointers@.len(),
                target == old(self)@.shifted(delta as int).pointers,
                self.pointers@.len() == n,
                forall|k: int| 0 <= k < i ==> self.pointers@[k] == target[k],
                forall|k: int| i <= k < n ==> self.pointers@[k] == old(self).pointers@[k],
                forall|k: int|
                    0 <= k < n ==> isize::MIN <= #[trigger] old(self).pointers@[k] + delta
                        <= isize::MAX,
                self@ == (TimelineView {
                    pointers: self.pointers@,
                    ..old(self)@.extended_over(target, i as nat)
                }),
            decreases n - i,
        {
            proof {
                lemma_extended_over_keeps(old(self)@, target, i as nat);
            }
            let ptr = self.pointers[i] + delta;
            self.pointers.set(i, ptr);
            self.extend_data(ptr);
            i += 1;
        }
        proof {
            lemma_extended_over_keeps(old(self)@, target, n as nat);
        }
    }

    /// Adds or subtracts one under every cursor, and records what was there.
    fn change_cells(&mut self, type_: UpdateType, history: bool)
        ensures
            final(self)@ == old(self)@.changed(CellChange::of_update(type_), history),
    {
        let ghost change = CellChange::of_update(type_);
        let n = self.pointers.len();
        let mut slice_of_time: Vec<(isize, u8)> = Vec::new();
        let mut i: usize = 0;
        while i < n
            invariant
                i <= n,
                n == old(self).pointers@.len(),
                change == CellChange::of_update(type_),
                self@ == old(self)@.served(change, i as nat),
                slice_of_time@ =~= old(self)@.time_slice(change).take(i as int),
            decreases n - i,
        {
            proof {
                lemma_served_keeps(old(self)@, change, i as nat);
            }
            let ptr = self.pointers[i];
            let data = self.data_at_mut(ptr);
            slice_of_time.push((ptr, *data));
            *data = match type_ {
                UpdateType::Increment => (*data).wrapping_add(1),
                UpdateType::Decrement => (*data).wrapping_sub(1),
            };
            i += 1;
        }
        proof {
            lemma_served_keeps(old(self)@, change, n as nat);
            assert(slice_of_time@ =~= old(self)@.time_slice(change));
        }
        if history && n > 0 {
            self.tape.push(slice_of_time);
        }
    }

    /// Stores one character of `input` under every cursor, and records what was there.
    fn read_cells(&mut self, input: &mut String, history: bool)
        ensures
            final(self)@ == old(self)@.changed(CellChange::Read(old(input)@), history),
            final(input)@ == input_after(old(input)@, old(self).pointers@.len()),
    {
        let ghost change = CellChange::Read(old(input)@);
        let n = self.pointers.len();
        let mut slice_of_time: Vec<(isize, u8)> = Vec::new();
        let mut i: usize = 0;
        while i < n
            invariant
                i <= n,
                n == old(self).pointers@.len(),
                change == CellChange::Read(old(input)@),
                self@ == old(self)@.served(change, i as nat),
                slice_of_time@ =~= old(self)@.time_slice(change).take(i as int),
                input@ =~= input_after(old(input)@, i as nat),
            decreases n - i,
        {
            proof {
                lemma_served_keeps(old(self)@, change, i as nat);
            }
            let c = if input.as_str().is_empty() {
                '\0'
            } else {
                remove_first_char(input)
            };
            let ptr = self.pointers[i];
            let data = self.data_at_mut(ptr);
            slice_of_time.push((ptr, *data));
            *data = ((c as u32) % 256) as u8;
            i += 1;
        }
        proof {
            lemma_served_keeps(old(self)@, change, n as nat);
            assert(slice_of_time@ =~= old(self)@.time_slice(change));
        }
        if history && n > 0 {
            self.tape.push(slice_of_time);
        }
    }

    /// Takes the latest entry off the undo log and writes its values back.
    fn rewind(&mut self)
        ensures
            final(self)@ == old(self)@.rewound(),
    {
        if let Some(slice_of_time) = self.tape.pop() {
            let ghost start = self@;
            assert(start =~= (TimelineView { tape: old(self)@.tape.drop_last(), ..old(self)@ }));
            let n = slice_of_time.len();
            let mut i: usize = 0;
            while i < n
                invariant
                    i <= n,
                    n == slice_of_time@.len(),
                    self@ == start.replayed(slice_of_time@, i as nat),
                decreases n - i,
            {
                let (offset, history) = slice_of_time[i];
                let data = self.data_at_mut(offset);
                *data = history;
                i += 1;
            }
        }
    }

    /// Appends the cell under every cursor to `output`.
    fn write_cells(&self, output: &mut String)
        ensures
            final(output)@ == old(output)@ + self@.written(),
    {
        let n = self.pointers.len();
        let mut i: usize = 0;
        while i < n
            invariant
                i <= n,
                n == self.pointers@.len(),
                output@ =~= old(output)@ + self@.written().take(i as int),
            decreases n - i,
        {
            let value = self.value_at(self.pointers[i]);
            push_char(output, value as char);
            i += 1;
        }
    }

    /// The value at `index`: zero where the tape has no cell.
    fn value_at(&self, index: isize) -> (value: u8)
        ensures
            value == self@.cell(index as int),
    {
        match self.data_at(index) {
            Some(cell) => *cell,
            None => 0,
        }
    }

    /// Whether every cursor stands on a zero.
    fn all_cursors_zero(&self) -> (zero: bool)
        ensures
            zero == self@.all_zero(),
    {
        let n = self.pointers.len();
        let mut i: usize = 0;
        while i < n
            invariant
                i <= n,
                n == self.pointers@.len(),
                forall|k: int| 0 <= k < i ==> self@.cell(#[trigger] self.pointers@[k] as int) == 0,
            decreases n - i,
        {
            if self.value_at(self.pointers[i]) != 0 {
                assert(self@.cell(self@.pointers[i as int] as int) != 0);
                return false;
            }
            i += 1;
        }
        true
    }

    /// Whether some cursor stands on a value other than zero.
    fn any_cursor_nonzero(&self) -> (nonzero: bool)
        ensures
            nonzero == self@.any_nonzero(),
    {
        let n = self.pointers.len();
        let mut i: usize = 0;
        while i < n
            invariant
                i <= n,
                n == self.pointers@.len(),
                forall|k: int| 0 <= k < i ==> self@.cell(#[trigger] self.pointers@[k] as int) == 0,
            decreases n - i,
        {
            if self.value_at(self.pointers[i]) != 0 {
                assert(self@.cell(self@.pointers[i as int] as int) != 0);
                return true;
            }
            i += 1;
        }
        false
    }
}

} // verus!
