//! The mathematical model of a timeline, of a step and of a command.
//!
//! A [`TimelineView`] is what a timeline is, in sequences and integers. Each transition is
//! a spec function from one view to the next; the executable code is proved to follow them.
//! The last part of the file holds the notions that the laws of the engine are stated
//! with.

use crate::interpreter::types::{Command, TimelineMeta};
use crate::parser::types::{JumpType, MoveDirection, Token, UpdateType};
use vstd::prelude::*;

verus! {

/// The index in the backward half of the tape that holds the cell at a negative `offset`.
pub open spec fn backward_slot(offset: int) -> int {
    -(offset + 1)
}

/// `cells`, with zero cells added at the end until there are at least `len` of them.
pub open spec fn grown(cells: Seq<u8>, len: int) -> Seq<u8> {
    if len <= cells.len() {
        cells
    } else {
        cells + Seq::new((len - cells.len()) as nat, |i: int| 0u8)
    }
}

/// The byte that a character is stored as: its code point modulo 256.
pub open spec fn byte_of(c: char) -> u8 {
    (c as u32 % 256) as u8
}

/// The `k`-th character that a step reads from `input`: the null character once `input`
/// is used up.
pub open spec fn input_char(input: Seq<char>, k: int) -> char {
    if 0 <= k < input.len() {
        input[k]
    } else {
        '\0'
    }
}

/// What is left of `input` after `reads` characters were taken from its front.
pub open spec fn input_after(input: Seq<char>, reads: nat) -> Seq<char> {
    if reads <= input.len() {
        input.skip(reads as int)
    } else {
        Seq::empty()
    }
}

/// The instruction at `instruction_pointer`, if there is one.
pub open spec fn fetch(tokens: Seq<Token>, instruction_pointer: usize) -> Option<Token> {
    if instruction_pointer < tokens.len() {
        Some(tokens[instruction_pointer as int])
    } else {
        None
    }
}

/// `i` is the first index at which `ids` holds `id`.
pub open spec fn is_first_position(ids: Seq<usize>, id: usize, i: int) -> bool {
    &&& 0 <= i < ids.len()
    &&& ids[i] == id
    &&& forall|j: int| 0 <= j < i ==> ids[j] != id
}

/// The first index at which `ids` holds `id`.
pub open spec fn first_position(ids: Seq<usize>, id: usize) -> Option<int> {
    if exists|i: int| is_first_position(ids, id, i) {
        Some(choose|i: int| is_first_position(ids, id, i))
    } else {
        None
    }
}

/// The ids of a tick snapshot, in order.
pub open spec fn snapshot_ids(metadata: Seq<TimelineMeta>) -> Seq<usize> {
    Seq::new(metadata.len(), |i: int| metadata[i].id)
}

/// Whether a timeline that waits may go on: the entry after its own in the snapshot has no
/// cursors, or its own entry is the last one.
pub open spec fn released(metadata: Seq<TimelineMeta>, id: usize) -> bool {
    match first_position(snapshot_ids(metadata), id) {
        Some(i) => i + 1 < metadata.len() ==> metadata[i + 1].pointers_count == 0,
        None => false,
    }
}

/// What a step does to the cell under each cursor.
pub enum CellChange {
    /// Add this amount, modulo 256.
    Add(int),
    /// Store the next character of this input.
    Read(Seq<char>),
}

impl CellChange {
    /// What an update of this type does to a cell.
    pub open spec fn of_update(type_: UpdateType) -> CellChange {
        match type_ {
            UpdateType::Increment => CellChange::Add(1),
            UpdateType::Decrement => CellChange::Add(-1),
        }
    }

    /// The value that the `k`-th cursor writes over `old`.
    pub open spec fn value(self, k: int, old: u8) -> u8 {
        match self {
            CellChange::Add(amount) => ((old + amount) % 256) as u8,
            CellChange::Read(input) => byte_of(input_char(input, k)),
        }
    }
}

/// A timeline as a mathematical value.
#[verifier::ext_equal]
pub struct TimelineView {
    pub id: usize,
    /// The cells at offsets `0, 1, 2, ..`.
    pub data: Seq<u8>,
    /// The cells at offsets `-1, -2, ..`.
    pub data_backwards: Seq<u8>,
    /// The cursors, as offsets into the tape.
    pub pointers: Seq<isize>,
    /// The undo log, latest entry last.
    pub tape: Seq<Seq<(isize, u8)>>,
    pub instruction_pointer: usize,
    pub alive: bool,
}

impl TimelineView {
    /// A timeline at the start of a program: one zero cell, one cursor on it, an empty log.
    pub open spec fn fresh(id: usize) -> Self {
        TimelineView {
            id,
            data: seq![0u8],
            data_backwards: Seq::empty(),
            pointers: seq![0isize],
            tape: Seq::empty(),
            instruction_pointer: 0,
            alive: true,
        }
    }

    /// Whether the tape has a cell at `offset`.
    pub open spec fn covers(self, offset: int) -> bool {
        if offset < 0 {
            backward_slot(offset) < self.data_backwards.len()
        } else {
            offset < self.data.len()
        }
    }

    /// The cell at `offset`, if the tape has one.
    pub open spec fn data_at(self, offset: int) -> Option<u8> {
        if !self.covers(offset) {
            None
        } else if offset < 0 {
            Some(self.data_backwards[backward_slot(offset)])
        } else {
            Some(self.data[offset])
        }
    }

    /// The value at `offset`: a cell that the tape does not have yet reads as zero.
    pub open spec fn cell(self, offset: int) -> u8 {
        match self.data_at(offset) {
            Some(value) => value,
            None => 0,
        }
    }

    /// The timeline with its tape grown, by zero cells, to cover `offset`.
    pub open spec fn extended(self, offset: int) -> Self {
        if offset < 0 {
            Self { data_backwards: grown(self.data_backwards, backward_slot(offset) + 1), ..self }
        } else {
            Self { data: grown(self.data, offset + 1), ..self }
        }
    }

    /// The timeline with its tape grown to cover the first `n` of `offsets`.
    pub open spec fn extended_over(self, offsets: Seq<isize>, n: nat) -> Self
        decreases n,
    {
        if n == 0 {
            self
        } else {
            self.extended_over(offsets, (n - 1) as nat).extended(offsets[n - 1] as int)
        }
    }

    /// The timeline with `value` in the cell at `offset`, the tape grown to hold it.
    pub open spec fn stored(self, offset: int, value: u8) -> Self {
        let grown = self.extended(offset);
        if offset < 0 {
            Self { data_backwards: grown.data_backwards.update(backward_slot(offset), value), ..grown }
        } else {
            Self { data: grown.data.update(offset, value), ..grown }
        }
    }

    /// The timeline with no cursors.
    pub open spec fn without_cursors(self) -> Self {
        Self { pointers: Seq::empty(), ..self }
    }

    /// The timeline with `cursors` added after its own. With `cover`, the tape grows to
    /// cover each of them.
    pub open spec fn joined_by(self, cursors: Seq<isize>, cover: bool) -> Self {
        let joined = Self { pointers: self.pointers + cursors, ..self };
        if cover {
            joined.extended_over(cursors, cursors.len())
        } else {
            joined
        }
    }

    /// Every cursor moved by `delta`, and the tape grown to cover each of them.
    pub open spec fn shifted(self, delta: int) -> Self {
        let pointers = Seq::new(self.pointers.len(), |k: int| (self.pointers[k] + delta) as isize);
        Self { pointers, ..self.extended_over(pointers, pointers.len()) }
    }

    /// The timeline after the first `n` cursors, in order, each wrote what `change` gives
    /// for the value then under it. A cursor sees what earlier cursors at its offset wrote.
    pub open spec fn served(self, change: CellChange, n: nat) -> Self
        decreases n,
    {
        if n == 0 {
            self
        } else {
            let before = self.served(change, (n - 1) as nat);
            let offset = self.pointers[n - 1] as int;
            before.stored(offset, change.value(n - 1, before.cell(offset)))
        }
    }

    /// The undo entry of such a step: for each cursor its offset and the value that it
    /// found there.
    pub open spec fn time_slice(self, change: CellChange) -> Seq<(isize, u8)> {
        Seq::new(
            self.pointers.len(),
            |k: int| (self.pointers[k], self.served(change, k as nat).cell(self.pointers[k] as int)),
        )
    }

    /// The timeline after every cursor wrote. With `history` on and at least one cursor,
    /// the undo entry is pushed on the log.
    pub open spec fn changed(self, change: CellChange, history: bool) -> Self {
        let after = self.served(change, self.pointers.len());
        if history && self.pointers.len() > 0 {
            Self { tape: self.tape.push(self.time_slice(change)), ..after }
        } else {
            after
        }
    }

    /// The timeline after the first `n` pairs of `slice` were written back, in order.
    pub open spec fn replayed(self, slice: Seq<(isize, u8)>, n: nat) -> Self
        decreases n,
    {
        if n == 0 {
            self
        } else {
            self.replayed(slice, (n - 1) as nat).stored(slice[n - 1].0 as int, slice[n - 1].1)
        }
    }

    /// The timeline with the latest undo entry taken off the log and written back. With an
    /// empty log nothing changes.
    pub open spec fn rewound(self) -> Self {
        if self.tape.len() == 0 {
            self
        } else {
            let slice = self.tape.last();
            (Self { tape: self.tape.drop_last(), ..self }).replayed(slice, slice.len())
        }
    }

    /// What `Write` emits: the cell under each cursor, in cursor order, as a character.
    pub open spec fn written(self) -> Seq<char> {
        Seq::new(self.pointers.len(), |k: int| self.cell(self.pointers[k] as int) as char)
    }

    /// Every cursor stands on a zero.
    pub open spec fn all_zero(self) -> bool {
        forall|k: int| 0 <= k < self.pointers.len() ==> self.cell(#[trigger] self.pointers[k] as int) == 0
    }

    /// Some cursor stands on a value other than zero.
    pub open spec fn any_nonzero(self) -> bool {
        exists|k: int| 0 <= k < self.pointers.len() && self.cell(#[trigger] self.pointers[k] as int) != 0
    }

    /// Whether a jump of this type is taken.
    pub open spec fn jump_taken(self, type_: JumpType) -> bool {
        match type_ {
            JumpType::IfZero => self.all_zero(),
            JumpType::IfNotZero => self.any_nonzero(),
        }
    }

    /// The first phase of a step: what `token` does to the tape, the cursors and the log.
    pub open spec fn after_data_phase(self, token: Token, input: Seq<char>, history: bool) -> Self {
        match token {
            Token::Move(MoveDirection::Left) => self.shifted(-1),
            Token::Move(MoveDirection::Right) => self.shifted(1),
            Token::Update(type_) => self.changed(CellChange::of_update(type_), history),
            Token::Read => self.changed(CellChange::Read(input), history),
            Token::Rewind => self.rewound(),
            _ => self,
        }
    }

    /// Whether the step at hand can be taken: no cursor would leave the range of offsets,
    /// and a timeline that waits has its entry in the snapshot.
    pub open spec fn can_step(self, tokens: Seq<Token>, metadata: Seq<TimelineMeta>) -> bool {
        match fetch(tokens, self.instruction_pointer) {
            Some(Token::Move(MoveDirection::Left)) => forall|k: int|
                0 <= k < self.pointers.len() ==> isize::MIN < #[trigger] self.pointers[k],
            Some(Token::Move(MoveDirection::Right)) => forall|k: int|
                0 <= k < self.pointers.len() ==> #[trigger] self.pointers[k] < isize::MAX,
            Some(Token::Await) => first_position(snapshot_ids(metadata), self.id) is Some,
            _ => true,
        }
    }

    /// The second phase of a step: where the instruction pointer goes after `token`.
    pub open spec fn next_instruction_pointer(self, token: Token, metadata: Seq<TimelineMeta>) -> usize {
        match token {
            Token::Jump { type_, index } => if self.jump_taken(type_) {
                index
            } else {
                (self.instruction_pointer + 1) as usize
            },
            Token::Await => if released(metadata, self.id) {
                (self.instruction_pointer + 1) as usize
            } else {
                self.instruction_pointer
            },
            _ => (self.instruction_pointer + 1) as usize,
        }
    }

    /// The timeline after one step. Past the end of the program nothing changes.
    pub open spec fn stepped(
        self,
        tokens: Seq<Token>,
        input: Seq<char>,
        metadata: Seq<TimelineMeta>,
        history: bool,
    ) -> Self {
        match fetch(tokens, self.instruction_pointer) {
            Some(token) => {
                let after = self.after_data_phase(token, input, history);
                Self { instruction_pointer: after.next_instruction_pointer(token, metadata), ..after }
            },
            None => self,
        }
    }

    /// The timeline after `n` steps in a row, each of which finds `input`, `metadata` and
    /// `history` as given here.
    pub open spec fn stepped_times(
        self,
        tokens: Seq<Token>,
        input: Seq<char>,
        metadata: Seq<TimelineMeta>,
        history: bool,
        n: nat,
    ) -> Self
        decreases n,
    {
        if n == 0 {
            self
        } else {
            self.stepped_times(tokens, input, metadata, history, (n - 1) as nat).stepped(
                tokens,
                input,
                metadata,
                history,
            )
        }
    }

    /// The third phase of a step: the command that it hands to the owner of the population.
    pub open spec fn command(self, tokens: Seq<Token>) -> Command {
        match fetch(tokens, self.instruction_pointer) {
            Some(Token::Kill) => Command::RemoveAt(self.id),
            Some(Token::Move(MoveDirection::Up)) => Command::MovePointer {
                id: self.id,
                direction: MoveDirection::Up,
            },
            Some(Token::Move(MoveDirection::Down)) => Command::MovePointer {
                id: self.id,
                direction: MoveDirection::Down,
            },
            Some(Token::Spawn { index }) => Command::SpawnAt { id: self.id, instruction_start: index },
            Some(_) => Command::NoOp,
            None => Command::RemoveAt(self.id),
        }
    }

    /// What a step leaves of the program input: `Read` takes one character per cursor.
    pub open spec fn input_left(self, tokens: Seq<Token>, input: Seq<char>) -> Seq<char> {
        match fetch(tokens, self.instruction_pointer) {
            Some(Token::Read) => input_after(input, self.pointers.len()),
            _ => input,
        }
    }

    /// What a step adds to the program output.
    pub open spec fn output(self, tokens: Seq<Token>) -> Seq<char> {
        match fetch(tokens, self.instruction_pointer) {
            Some(Token::Write) => self.written(),
            _ => Seq::empty(),
        }
    }
}

/// The snapshot of a population: the id and the number of cursors of each timeline, in
/// order.
pub open spec fn snapshot(population: Seq<TimelineView>) -> Seq<TimelineMeta> {
    Seq::new(
        population.len(),
        |i: int|
            TimelineMeta { id: population[i].id, pointers_count: population[i].pointers.len() as usize },
    )
}

/// The ids of a population, in order.
pub open spec fn population_ids(population: Seq<TimelineView>) -> Seq<usize> {
    Seq::new(population.len(), |i: int| population[i].id)
}

/// Whether `command` can be applied to `population`: the timeline that it names is there;
/// cursors move up or down only; below a timeline other than the first, from which
/// cursors move down, there is another; and a fork has an identifier left to take.
pub open spec fn can_apply(population: Seq<TimelineView>, command: Command, next_id: usize) -> bool {
    match command {
        Command::NoOp => true,
        Command::RemoveAt(id) => first_position(population_ids(population), id) is Some,
        Command::SpawnAt { id, .. } => first_position(population_ids(population), id) is Some && next_id
            < usize::MAX,
        Command::MovePointer { id, direction } => match first_position(population_ids(population), id) {
            Some(i) => match direction {
                MoveDirection::Up => true,
                MoveDirection::Down => i == 0 || i + 1 < population.len(),
                _ => false,
            },
            None => false,
        },
    }
}

/// The population after `command`, a fork taking the identifier `fresh_id`. A command
/// that cannot be applied leaves the population as it is.
///
/// The timeline that the command names is the first with that id; call its index `i`.
/// `RemoveAt` takes it out, unless `i` is 0. `SpawnAt` sends it to `instruction_start` and
/// puts a copy of it as it was, under `fresh_id`, right after it. `MovePointer` leaves it
/// without cursors; unless `i` is 0, they go to the end of the cursors of the timeline at
/// `i - 1` (up), whose tape grows to cover them, or at `i + 1` (down), whose tape stays.
pub open spec fn applied(population: Seq<TimelineView>, command: Command, fresh_id: usize) -> Seq<
    TimelineView,
> {
    match command {
        Command::NoOp => population,
        Command::RemoveAt(id) => match first_position(population_ids(population), id) {
            Some(i) => if i != 0 {
                population.remove(i)
            } else {
                population
            },
            None => population,
        },
        Command::SpawnAt { id, instruction_start } => match first_position(
            population_ids(population),
            id,
        ) {
            Some(i) => population.update(
                i,
                TimelineView { instruction_pointer: instruction_start, ..population[i] },
            ).insert(i + 1, TimelineView { id: fresh_id, ..population[i] }),
            None => population,
        },
        Command::MovePointer { id, direction } => match first_position(population_ids(population), id) {
            Some(i) => {
                let left = population.update(i, population[i].without_cursors());
                match direction {
                    MoveDirection::Up => if i == 0 {
                        left
                    } else {
                        left.update(i - 1, population[i - 1].joined_by(population[i].pointers, true))
                    },
                    MoveDirection::Down => if i == 0 {
                        left
                    } else if i + 1 < population.len() {
                        left.update(i + 1, population[i + 1].joined_by(population[i].pointers, false))
                    } else {
                        population
                    },
                    _ => population,
                }
            },
            None => population,
        },
    }
}

/// Whether each of the `n` instructions from that of `timeline` on moves the cursors one
/// cell along the tape.
pub open spec fn moves_ahead(timeline: TimelineView, tokens: Seq<Token>, n: nat) -> bool {
    forall|i: int|
        0 <= i < n ==> {
            let token = #[trigger] fetch(tokens, (timeline.instruction_pointer + i) as usize);
            token == Some(Token::Move(MoveDirection::Left)) || token == Some(
                Token::Move(MoveDirection::Right),
            )
        }
}

/// Whether every target of a jump or a fork is an index of the program, or its length.
pub open spec fn targets_in_program(tokens: Seq<Token>) -> bool {
    forall|i: int|
        0 <= i < tokens.len() ==> match #[trigger] tokens[i] {
            Token::Jump { index, .. } => index <= tokens.len(),
            Token::Spawn { index } => index <= tokens.len(),
            _ => true,
        }
}

/// Whether a step at this instruction records what it changes: an increment, a decrement or
/// a read.
pub open spec fn records(token: Option<Token>) -> bool {
    token matches Some(token) && (token is Update || token is Read)
}

/// What such a step does to the cell under each cursor.
pub open spec fn change_of(token: Option<Token>, input: Seq<char>) -> CellChange {
    match token {
        Some(Token::Update(type_)) => CellChange::of_update(type_),
        _ => CellChange::Read(input),
    }
}

/// How many of the first `n` cursors stand on `offset`.
pub open spec fn cursors_at(pointers: Seq<isize>, n: nat, offset: int) -> nat
    decreases n,
{
    if n == 0 {
        0
    } else {
        cursors_at(pointers, (n - 1) as nat, offset) + if pointers[n - 1] == offset {
            1nat
        } else {
            0nat
        }
    }
}

/// The value that the latest of the first `n` pairs of `slice` holds for `offset`.
pub open spec fn last_record(slice: Seq<(isize, u8)>, n: nat, offset: int) -> Option<u8>
    decreases n,
{
    if n == 0 {
        None
    } else if slice[n - 1].0 == offset {
        Some(slice[n - 1].1)
    } else {
        last_record(slice, (n - 1) as nat, offset)
    }
}

/// Every one of `ids` is below `bound`, and no two of them are equal.
pub open spec fn distinct_below(ids: Seq<usize>, bound: int) -> bool {
    &&& forall|i: int| 0 <= i < ids.len() ==> #[trigger] ids[i] < bound
    &&& forall|i: int, j: int| 0 <= i < j < ids.len() ==> #[trigger] ids[i] != #[trigger] ids[j]
}

} // verus!
