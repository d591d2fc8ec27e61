//! Timelines, the commands they issue, and the context they run in.

use crate::interpreter::model::{backward_slot, grown, snapshot, TimelineView};
use crate::parser::types::{MoveDirection, Token};
use vstd::prelude::*;

verus! {

/// One execution context: a tape, the cursors on it, an undo log and an instruction pointer.
///
/// `data` holds the cells at offsets `0, 1, 2, ..`; `data_backwards` holds the cells at
/// offsets `-1, -2, ..`. `tape` is the undo log: each entry lists, for one step, the offset
/// of every cursor and the value that the cell held before the step changed it.
#[derive(Clone, Debug, PartialEq)]
pub struct Timeline {
    pub id: usize,
    pub data: Vec<u8>,
    pub data_backwards: Vec<u8>,
    pub pointers: Vec<isize>,
    pub tape: Vec<Vec<(isize, u8)>>,
    pub instruction_pointer: usize,
    pub alive: bool,
}

impl View for Timeline {
    type V = TimelineView;

    open spec fn view(&self) -> TimelineView {
        TimelineView {
            id: self.id,
            data: self.data@,
            data_backwards: self.data_backwards@,
            pointers: self.pointers@,
            tape: Seq::new(self.tape@.len(), |i: int| self.tape@[i]@),
            instruction_pointer: self.instruction_pointer,
            alive: self.alive,
        }
    }
}

/// What a step asks the owner of the population to do.
#[derive(Clone, Copy, Debug, PartialEq, Eq, Structural)]
pub enum Command {
    /// Nothing to do.
    NoOp,
    MovePointer { id: usize, direction: MoveDirection },
    SpawnAt { id: usize, instruction_start: usize },
    RemoveAt(usize),
}

/// The part of a timeline that others may look at during a tick.
#[derive(Clone, Copy, Debug, PartialEq, Eq, Structural)]
pub struct TimelineMeta {
    pub id: usize,
    pub pointers_count: usize,
}

/// What is found by its identifier.
pub(crate) trait Identified {
    /// The identifier.
    spec fn ident(&self) -> usize;

    /// Whether `id` is the identifier.
    fn has_id(&self, id: usize) -> (found: bool)
        ensures
            found == (self.ident() == id),
    ;
}

impl Identified for Timeline {
    open spec fn ident(&self) -> usize {
        self.id
    }

    fn has_id(&self, id: usize) -> (found: bool) {
        self.id == id
    }
}

impl Identified for TimelineMeta {
    open spec fn ident(&self) -> usize {
        self.id
    }

    fn has_id(&self, id: usize) -> (found: bool) {
        self.id == id
    }
}

/// The timelines of a population as mathematical values, in order.
pub open spec fn views(timelines: Seq<Timeline>) -> Seq<TimelineView> {
    Seq::new(timelines.len(), |i: int| timelines[i]@)
}

/// The identifiers of `items`, in order.
pub(crate) open spec fn idents<T: Identified>(items: Seq<T>) -> Seq<usize> {
    Seq::new(items.len(), |i: int| items[i].ident())
}

/// What a run shares between its timelines: the program, its input and output, the
/// snapshot of the current tick, and the source of fresh identifiers.
#[derive(Clone, Debug)]
pub struct BF5DContext {
    pub raw_program: String,
    pub tokens: Vec<Token>,
    pub program_input: String,
    pub program_output: String,
    pub total_timelines: usize,
    pub metadata: Vec<TimelineMeta>,
    pub need_history: bool,
    /// The identifier that the next new timeline gets.
    pub next_id: usize,
}

impl BF5DContext {
    /// Whether `self` differs from `before` in program input and output at most.
    pub open spec fn same_run_as(&self, before: &BF5DContext) -> bool {
        &&& self.raw_program == before.raw_program
        &&& self.tokens == before.tokens
        &&& self.total_timelines == before.total_timelines
        &&& self.metadata == before.metadata
        &&& self.need_history == before.need_history
        &&& self.next_id == before.next_id
    }

    /// A context with no program, no input and no output, with history on.
    pub fn new() -> (context: BF5DContext)
        ensures
            context.raw_program@.len() == 0,
            context.tokens@.len() == 0,
            context.program_input@.len() == 0,
            context.program_output@.len() == 0,
            context.total_timelines == 0,
            context.metadata@.len() == 0,
            context.need_history,
            context.next_id == 0,
    {
        BF5DContext {
            raw_program: String::new(),
            tokens: Vec::new(),
            program_input: String::new(),
            program_output: String::new(),
            total_timelines: 0,
            metadata: Vec::new(),
            need_history: true,
            next_id: 0,
        }
    }

    /// Hands out the next identifier.
    pub fn fresh_id(&mut self) -> (id: usize)
        requires
            old(self).next_id < usize::MAX,
        ensures
            id == old(self).next_id,
            final(self).next_id == id + 1,
            final(self).raw_program == old(self).raw_program,
            final(self).tokens == old(self).tokens,
            final(self).program_input == old(self).program_input,
            final(self).program_output == old(self).program_output,
            final(self).total_timelines == old(self).total_timelines,
            final(self).metadata == old(self).metadata,
            final(self).need_history == old(self).need_history,
    {
        let id = self.next_id;
        self.next_id = id + 1;
        id
    }

    /// Takes the snapshot of a tick: the number of timelines, and the id and the number of
    /// cursors of each, in population order.
    pub fn collect_timeline_metadata(&mut self, timelines: &Vec<Timeline>)
        ensures
            final(self).total_timelines == timelines@.len(),
            final(self).metadata@ == snapshot(views(timelines@)),
            final(self).raw_program == old(self).raw_program,
            final(self).tokens == old(self).tokens,
            final(self).program_input == old(self).program_input,
            final(self).program_output == old(self).program_output,
            final(self).need_history == old(self).need_history,
            final(self).next_id == old(self).next_id,
    {
        self.total_timelines = timelines.len();
        let mut metadata: Vec<TimelineMeta> = Vec::new();
        let mut i: usize = 0;
        while i < timelines.len()
            invariant
                i <= timelines@.len(),
                metadata@ =~= snapshot(views(timelines@)).take(i as int),
            decreases timelines@.len() - i,
        {
            metadata.push(TimelineMeta { id: timelines[i].id, pointers_count: timelines[i].pointers.len() });
            i += 1;
        }
        self.metadata = metadata;
    }
}

/// The index that holds the cell at `index` in its half of the tape: `index` itself for the
/// forward half, `-(index + 1)` for the backward half.
pub fn backwards_index(index: isize) -> (slot: usize)
    ensures
        index < 0 ==> slot == backward_slot(index as int),
        index >= 0 ==> slot == index,
{
    if index < 0 {
        (-(index + 1)) as usize
    } else {
        index as usize
    }
}

/// Adds zero cells at the end of `cells` until there are at least `len` of them.
fn grow(cells: &mut Vec<u8>, len: usize)
    ensures
        final(cells)@ == grown(old(cells)@, len as int),
{
    while cells.len() < len
        invariant
            cells@ =~= grown(old(cells)@, cells@.len() as int),
            old(cells)@.len() <= cells@.len(),
            cells@.len() <= len || cells@.len() == old(cells)@.len(),
        decreases len - cells@.len(),
    {
        cells.push(0);
    }
}

/// A copy of one entry of an undo log.
fn copy_slice(slice: &Vec<(isize, u8)>) -> (copy: Vec<(isize, u8)>)
    ensures
        copy@ == slice@,
{
    let mut copy: Vec<(isize, u8)> = Vec::new();
    let mut i: usize = 0;
    while i < slice.len()
        invariant
            i <= slice@.len(),
            copy@ =~= slice@.take(i as int),
        decreases slice@.len() - i,
    {
        copy.push(slice[i]);
        i += 1;
    }
    copy
}

impl Timeline {
    /// Grows the tape to cover `index`. Returns the half of the tape that holds the cell at
    /// `index`, and the cell's place in it.
    pub fn extend_data(&mut self, index: isize) -> (r: (usize, &mut Vec<u8>))
        ensures
            r.0 == if index < 0 { backward_slot(index as int) } else { index as int },
            r.0 < r.1@.len(),
            index < 0 ==> r.1@ == old(self)@.extended(index as int).data_backwards
                && final(self)@ == (TimelineView { data_backwards: final(r.1)@, ..old(self)@ }),
            index >= 0 ==> r.1@ == old(self)@.extended(index as int).data
                && final(self)@ == (TimelineView { data: final(r.1)@, ..old(self)@ }),
    {
        let slot = backwards_index(index);
        if index < 0 {
            grow(&mut self.data_backwards, slot + 1);
            (slot, &mut self.data_backwards)
        } else {
            grow(&mut self.data, slot + 1);
            (slot, &mut self.data)
        }
    }

    /// The cell at `index`, for writing; the tape is grown to hold it.
    pub fn data_at_mut(&mut self, index: isize) -> (cell: &mut u8)
        ensures
            *cell == old(self)@.cell(index as int),
            final(self)@ == old(self)@.stored(index as int, *final(cell)),
    {
        let (slot, data) = self.extend_data(index);
        &mut data[slot]
    }

    /// The cell at `index`, if the tape has one.
    pub fn data_at(&self, index: isize) -> (cell: Option<&u8>)
        ensures
            match cell {
                Some(value) => self@.data_at(index as int) == Some(*value),
                None => self@.data_at(index as int) is None,
            },
    {
        let data = if index < 0 {
            &self.data_backwards
        } else {
            &self.data
        };
        let slot = backwards_index(index);
        if slot < data.len() {
            Some(&data[slot])
        } else {
            None
        }
    }

    /// A timeline at the start of a program: one zero cell, one cursor on it, an empty log.
    pub fn new(id: usize) -> (timeline: Timeline)
        ensures
            timeline@ == TimelineView::fresh(id),
    {
        let mut data: Vec<u8> = Vec::new();
        data.push(0);
        let mut pointers: Vec<isize> = Vec::new();
        pointers.push(0);
        let timeline = Timeline {
            id,
            data,
            data_backwards: Vec::new(),
            pointers,
            tape: Vec::new(),
            instruction_pointer: 0,
            alive: true,
        };
        timeline
    }

    /// A copy of this timeline under the identifier `id`.
    pub fn clone_new_id(&self, id: usize) -> (copy: Timeline)
        ensures
            copy@ == (TimelineView { id, ..self@ }),
    {
        let mut tape: Vec<Vec<(isize, u8)>> = Vec::new();
        let mut i: usize = 0;
        while i < self.tape.len()
            invariant
                i <= self.tape@.len(),
                tape@.len() == i,
                forall|j: int| 0 <= j < i ==> tape@[j]@ == self.tape@[j]@,
            decreases self.tape@.len() - i,
        {
            tape.push(copy_slice(&self.tape[i]));
            i += 1;
        }
        let copy = Timeline {
            id,
            data: self.data.clone(),
            data_backwards: self.data_backwards.clone(),
            pointers: self.pointers.clone(),
            tape,
            instruction_pointer: self.instruction_pointer,
            alive: self.alive,
        };
        copy
    }
}

} // verus!
