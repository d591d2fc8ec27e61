//! Commands: what a step asks for that reaches beyond its own timeline.

use crate::interpreter::lemmas::{lemma_first_position, lemma_no_position};
use crate::interpreter::model::{applied, can_apply, first_position, population_ids, TimelineView};
use crate::interpreter::trusted::find_position_by_id;
use crate::interpreter::types::{idents, views, BF5DContext, Command, Identified, Timeline};
use crate::parser::types::MoveDirection;
use vstd::prelude::*;

verus! {

/// The index of the first of `items` that has `id`, if any has.
pub(crate) fn lookup<T: Identified>(items: &Vec<T>, id: usize) -> (found: Option<usize>)
    ensures
        match found {
            Some(index) => first_position(idents(items@), id) == Some(index as int) && index
                < items@.len(),
            None => first_position(idents(items@), id) is None,
        },
{
    let found = find_position_by_id(items, id);
    proof {
        match found {
            Some(index) => {
                lemma_first_position(idents(items@), id, index as int);
            },
            None => {
                lemma_no_position(idents(items@), id);
            },
        }
    }
    found
}

/// The index of the first of `items` that has `id`.
pub(crate) fn position_of<T: Identified>(items: &Vec<T>, id: usize) -> (index: usize)
    requires
        first_position(idents(items@), id) is Some,
    ensures
        first_position(idents(items@), id) == Some(index as int),
        index < items@.len(),
{
    lookup(items, id).unwrap()
}

impl Timeline {
    /// Takes every cursor off this timeline and hands them out.
    fn release_pointers(&mut self) -> (pointers: Vec<isize>)
        ensures
            pointers@ == old(self).pointers@,
            final(self)@ == old(self)@.without_cursors(),
    {
        let pointers = self.pointers.clone();
        self.pointers.clear();
        pointers
    }

    /// Adds `pointers` after the cursors of this timeline. With `cover`, the tape grows to
    /// cover each of them.
    fn receive_pointers(&mut self, pointers: &Vec<isize>, cover: bool)
        ensures
            final(self)@ == old(self)@.joined_by(pointers@, cover),
    {
        let ghost joined = TimelineView { pointers: old(self).pointers@ + pointers@, ..old(self)@ };
        let n = pointers.len();
        let mut i: usize = 0;
        while i < n
            invariant
                i <= n,
                n == pointers@.len(),
                self@ =~= (TimelineView {
                    pointers: old(self).pointers@ + pointers@.take(i as int),
                    ..old(self)@
                }),
            decreases n - i,
        {
            self.pointers.push(pointers[i]);
            i += 1;
        }
        if cover {
            let mut i: usize = 0;
            while i < n
                invariant
                    i <= n,
                    n == pointers@.len(),
                    self@ == joined.extended_over(pointers@, i as nat),
                decreases n - i,
            {
                self.extend_data(pointers[i]);
                i += 1;
            }
        }
    }
}

impl BF5DContext {
    /// Whether `command` can be applied to the population as it stands.
    pub fn can_execute(&self, command: Command, timelines: &Vec<Timeline>) -> (ready: bool)
        ensures
            ready == can_apply(views(timelines@), command, self.next_id),
    {
        assert(idents(timelines@) =~= population_ids(views(timelines@)));
        let len = timelines.len();
        match command {
            Command::NoOp => true,
            Command::RemoveAt(id) => lookup(timelines, id).is_some(),
            Command::SpawnAt { id, .. } => lookup(timelines, id).is_some() && self.next_id < usize::MAX,
            Command::MovePointer { id, direction } => match lookup(timelines, id) {
                Some(index) => match direction {
                    MoveDirection::Up => true,
                    MoveDirection::Down => index == 0 || index + 1 < len,
                    _ => false,
                },
                None => false,
            },
        }
    }

    /// Applies `command` to the population.
    ///
    /// `RemoveAt` takes the timeline out, unless it is the first of the population.
    /// `SpawnAt` puts a copy of the timeline, under a fresh identifier, right after it, and
    /// sends the timeline itself to `instruction_start`. `MovePointer` hands the cursors of the
    /// timeline to the one above or below it; the first of the population loses them.
    pub fn execute_command(&mut self, command: Command, timelines: &mut Vec<Timeline>)
        requires
            can_apply(views(old(timelines)@), command, old(self).next_id),
        ensures
            views(final(timelines)@) == applied(views(old(timelines)@), command, old(self).next_id),
            final(self).next_id == if command is SpawnAt {
                old(self).next_id + 1
            } else {
                old(self).next_id as int
            },
            final(self).raw_program == old(self).raw_program,
            final(self).tokens == old(self).tokens,
            final(self).program_input == old(self).program_input,
            final(self).program_output == old(self).program_output,
            final(self).total_timelines == old(self).total_timelines,
            final(self).metadata == old(self).metadata,
            final(self).need_history == old(self).need_history,
    {
        let ghost before = views(timelines@);
        assert(idents(timelines@) =~= population_ids(before));
        match command {
            Command::MovePointer { id, direction } => {
                let index = position_of(timelines, id);
                assert(index < timelines.len());
                let pointers = timelines[index].release_pointers();
                if index != 0 {
                    match direction {
                        MoveDirection::Up => {
                            timelines[index - 1].receive_pointers(&pointers, true);
                        },
                        MoveDirection::Down => {
                            timelines[index + 1].receive_pointers(&pointers, false);
                        },
                        _ => {},
                    }
                }
            },
            Command::SpawnAt { id, instruction_start } => {
                let index = position_of(timelines, id);
                assert(index < timelines.len());
                let fresh = self.fresh_id();
                let new_timeline = timelines[index].clone_new_id(fresh);
                timelines[index].instruction_pointer = instruction_start;
                timelines.insert(index + 1, new_timeline);
            },
            Command::RemoveAt(id) => {
                let index = position_of(timelines, id);
                if index != 0 {
                    timelines.remove(index);
                }
            },
            Command::NoOp => (),
        }
    }
}

} // verus!
