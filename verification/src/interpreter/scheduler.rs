//! Ticks: every timeline takes one step, then the commands are applied.

use crate::interpreter::lemmas::{
    lemma_blocked_stays, lemma_not_blocked, lemma_stepped_keeps, lemma_stuck_stays,
};
use crate::interpreter::model::{applied, can_apply, snapshot, TimelineView};
use crate::interpreter::types::{views, BF5DContext, Command, Timeline, TimelineMeta};
use crate::parser::types::Token;
use vstd::prelude::*;

verus! {

/// Why a tick stopped before its end.
#[derive(Clone, Copy, Debug, PartialEq, Eq, Structural)]
pub enum Fault {
    /// The timeline at this index of the population cannot take its step: a cursor would
    /// leave the range of offsets.
    Step(usize),
    /// The command of the timeline that stood at this index when the tick began cannot be
    /// applied: cursors go down from the last timeline, or no identifier is left for a
    /// fork, or the timeline that the command names is gone.
    Command(usize),
}

/// A run at one instant, as a mathematical value: all that a tick reads and changes.
#[verifier::ext_equal]
pub struct RunView {
    pub population: Seq<TimelineView>,
    pub input: Seq<char>,
    pub output: Seq<char>,
    pub next_id: usize,
    pub metadata: Seq<TimelineMeta>,
    pub total_timelines: usize,
}

/// The run that `context` and `timelines` stand for.
pub open spec fn run_view(context: &BF5DContext, timelines: Seq<Timeline>) -> RunView {
    RunView {
        population: views(timelines),
        input: context.program_input@,
        output: context.program_output@,
        next_id: context.next_id,
        metadata: context.metadata@,
        total_timelines: context.total_timelines,
    }
}

/// A run after some of the commands of a tick, and the index of the command at which it
/// stopped, if it did.
pub struct Commanded {
    pub run: RunView,
    pub stuck: Option<int>,
}

impl RunView {
    /// The index of the first of the first `n` timelines that cannot take its step.
    pub open spec fn blocked(self, tokens: Seq<Token>, n: nat) -> Option<int>
        decreases n,
    {
        if n == 0 {
            None
        } else {
            match self.blocked(tokens, (n - 1) as nat) {
                Some(k) => Some(k),
                None => if self.population[n - 1].can_step(tokens, self.metadata) {
                    None
                } else {
                    Some(n - 1)
                },
            }
        }
    }

    /// The run after the first `n` timelines, in population order, took their step. Each
    /// reads the input that the ones before it left, and adds to the output after them.
    pub open spec fn stepped(self, tokens: Seq<Token>, history: bool, n: nat) -> RunView
        decreases n,
    {
        if n == 0 {
            self
        } else {
            let before = self.stepped(tokens, history, (n - 1) as nat);
            let timeline = before.population[n - 1];
            RunView {
                population: before.population.update(
                    n - 1,
                    timeline.stepped(tokens, before.input, self.metadata, history),
                ),
                input: timeline.input_left(tokens, before.input),
                output: before.output + timeline.output(tokens),
                ..before
            }
        }
    }

    /// The commands that the timelines issue in their steps, in population order.
    pub open spec fn commands(self, tokens: Seq<Token>) -> Seq<Command> {
        Seq::new(self.population.len(), |k: int| self.population[k].command(tokens))
    }

    /// The run after the first `n` of `commands` were applied in order, up to the first
    /// that cannot be applied.
    pub open spec fn commanded(self, commands: Seq<Command>, n: nat) -> Commanded
        decreases n,
    {
        if n == 0 {
            Commanded { run: self, stuck: None }
        } else {
            let before = self.commanded(commands, (n - 1) as nat);
            if before.stuck is Some {
                before
            } else if !can_apply(before.run.population, commands[n - 1], before.run.next_id) {
                Commanded { run: before.run, stuck: Some(n - 1) }
            } else {
                Commanded {
                    run: RunView {
                        population: applied(before.run.population, commands[n - 1], before.run.next_id),
                        next_id: if commands[n - 1] is SpawnAt {
                            (before.run.next_id + 1) as usize
                        } else {
                            before.run.next_id
                        },
                        ..before.run
                    },
                    stuck: None,
                }
            }
        }
    }

    /// The run with the snapshot of its population taken.
    pub open spec fn snapped(self) -> RunView {
        RunView {
            metadata: snapshot(self.population),
            total_timelines: self.population.len() as usize,
            ..self
        }
    }

    /// The run after one tick, and the fault that stopped the tick, if one did.
    ///
    /// A tick takes the snapshot. If some timeline cannot take its step, the tick stops
    /// there, before any step. Otherwise every timeline takes its step, in population
    /// order; then their commands are applied in that order, up to the first that cannot
    /// be.
    pub open spec fn ticked(self, tokens: Seq<Token>, history: bool) -> (RunView, Option<Fault>) {
        let start = self.snapped();
        let n = self.population.len();
        match start.blocked(tokens, n) {
            Some(k) => (start, Some(Fault::Step(k as usize))),
            None => {
                let end = start.stepped(tokens, history, n).commanded(start.commands(tokens), n);
                match end.stuck {
                    Some(k) => (end.run, Some(Fault::Command(k as usize))),
                    None => (end.run, None),
                }
            },
        }
    }

    /// Whether the run is over: no timeline is left, or the first timeline is past the end
    /// of the program. The first timeline is never removed; the run ends where it would
    /// be, and the other timelines stop where they are.
    pub open spec fn finished(self, tokens: Seq<Token>) -> bool {
        ||| self.population.len() == 0
        ||| self.population[0].instruction_pointer >= tokens.len()
    }

    /// The run after ticks up to `ticks` in number: it ends before that when it is over, or
    /// at a fault.
    pub open spec fn ran(self, tokens: Seq<Token>, history: bool, ticks: nat) -> (RunView, Option<Fault>)
        decreases ticks,
    {
        if ticks == 0 || self.finished(tokens) {
            (self, None)
        } else {
            let (next, fault) = self.ticked(tokens, history);
            if fault is Some {
                (next, fault)
            } else {
                next.ran(tokens, history, (ticks - 1) as nat)
            }
        }
    }
}

impl BF5DContext {
    /// One tick: takes the snapshot, lets every timeline take its step, in population
    /// order, and then applies their commands in that order.
    ///
    /// The tick stops with a fault before any step if some timeline cannot take its step,
    /// and after the commands applied so far at a command that cannot be applied.
    #[verifier::loop_isolation(false)]
    pub fn tick(&mut self, timelines: &mut Vec<Timeline>) -> (outcome: Result<(), Fault>)
        ensures
            ({
                let (after, fault) = run_view(old(self), old(timelines)@).ticked(
                    old(self).tokens@,
                    old(self).need_history,
                );
                &&& run_view(final(self), final(timelines)@) == after
                &&& outcome == match fault {
                    Some(fault) => Err::<(), Fault>(fault),
                    None => Ok::<(), Fault>(()),
                }
            }),
            final(self).raw_program == old(self).raw_program,
            final(self).tokens == old(self).tokens,
            final(self).need_history == old(self).need_history,
    {
        let ghost before = run_view(old(self), old(timelines)@);
        let ghost tokens = old(self).tokens@;
        let ghost history = old(self).need_history;
        self.collect_timeline_metadata(timelines);
        let ghost start = before.snapped();
        let n = timelines.len();

        let mut k: usize = 0;
        while k < n
            invariant
                k <= n,
                n == timelines@.len(),
                run_view(self, timelines@) == start,
                self.tokens == old(self).tokens,
                self.raw_program == old(self).raw_program,
                self.need_history == old(self).need_history,
                start.blocked(tokens, k as nat) is None,
            decreases n - k,
        {
            if !timelines[k].can_update(self) {
                proof {
                    lemma_blocked_stays(start, tokens, (k + 1) as nat, n as nat);
                }
                return Err(Fault::Step(k));
            }
            k += 1;
        }

        let mut commands: Vec<Command> = Vec::new();
        let mut i: usize = 0;
        while i < n
            invariant
                i <= n,
                n == timelines@.len(),
                n == start.population.len(),
                start.blocked(tokens, n as nat) is None,
                run_view(self, timelines@) == start.stepped(tokens, history, i as nat),
                self.tokens@ == tokens,
                self.need_history == history,
                self.raw_program == old(self).raw_program,
                self.tokens == old(self).tokens,
                commands@ =~= start.commands(tokens).take(i as int),
            decreases n - i,
        {
            proof {
                lemma_stepped_keeps(start, tokens, history, i as nat);
                lemma_not_blocked(start, tokens, n as nat);
                assert(start.population[i as int].can_step(tokens, start.metadata));
            }
            let command = timelines[i].update(self).1;
            commands.push(command);
            i += 1;
        }
        assert(commands@ =~= start.commands(tokens));

        let ghost stepped = start.stepped(tokens, history, n as nat);
        let mut j: usize = 0;
        while j < n
            invariant
                j <= n,
                n == commands@.len(),
                (Commanded { run: run_view(self, timelines@), stuck: None }) == stepped.commanded(
                    commands@,
                    j as nat,
                ),
                self.raw_program == old(self).raw_program,
                self.tokens == old(self).tokens,
                self.need_history == history,
            decreases n - j,
        {
            let command = commands[j];
            if !self.can_execute(command, timelines) {
                proof {
                    lemma_stuck_stays(stepped, commands@, (j + 1) as nat, n as nat);
                }
                return Err(Fault::Command(j));
            }
            self.execute_command(command, timelines);
            j += 1;
        }
        Ok(())
    }

    /// Whether the run is over: no timeline is left, or the first timeline is past the end
    /// of the program.
    pub fn is_finished(&self, timelines: &Vec<Timeline>) -> (finished: bool)
        ensures
            finished == run_view(self, timelines@).finished(self.tokens@),
    {
        timelines.len() == 0 || timelines[0].instruction_pointer >= self.tokens.len()
    }

    /// Runs ticks until the run is over, a tick stops with a fault, or `max_ticks` ticks
    /// were run. Returns whether the run is over.
    #[verifier::loop_isolation(false)]
    pub fn run(&mut self, timelines: &mut Vec<Timeline>, max_ticks: usize) -> (outcome: Result<
        bool,
        Fault,
    >)
        ensures
            ({
                let (after, fault) = run_view(old(self), old(timelines)@).ran(
                    old(self).tokens@,
                    old(self).need_history,
                    max_ticks as nat,
                );
                &&& run_view(final(self), final(timelines)@) == after
                &&& outcome == match fault {
                    Some(fault) => Err::<bool, Fault>(fault),
                    None => Ok::<bool, Fault>(after.finished(old(self).tokens@)),
                }
            }),
            final(self).raw_program == old(self).raw_program,
            final(self).tokens == old(self).tokens,
            final(self).need_history == old(self).need_history,
    {
        let ghost before = run_view(old(self), old(timelines)@);
        let ghost tokens = old(self).tokens@;
        let ghost history = old(self).need_history;
        let mut ticks: usize = 0;
        while ticks < max_ticks
            invariant
                ticks <= max_ticks,
                self.raw_program == old(self).raw_program,
                self.tokens == old(self).tokens,
                self.need_history == old(self).need_history,
                tokens == old(self).tokens@,
                history == old(self).need_history,
                before.ran(tokens, history, max_ticks as nat) == run_view(self, timelines@).ran(
                    tokens,
                    history,
                    (max_ticks - ticks) as nat,
                ),
            decreases max_ticks - ticks,
        {
            if self.is_finished(timelines) {
                return Ok(true);
            }
            match self.tick(timelines) {
                Err(fault) => {
                    return Err(fault);
                },
                Ok(()) => {},
            }
            ticks += 1;
        }
        Ok(self.is_finished(timelines))
    }
}

} // verus!
