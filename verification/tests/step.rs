use bf5d::interpreter::types::{BF5DContext, Command, Timeline, TimelineMeta};
use bf5d::parser::types::{JumpType, MoveDirection, Token, UpdateType};

fn context_running(tokens: Vec<Token>) -> BF5DContext {
    let mut context = BF5DContext::new();
    context.tokens = tokens;
    context
}

fn timeline_with(data: Vec<u8>, data_backwards: Vec<u8>, pointers: Vec<isize>) -> Timeline {
    let mut timeline = Timeline::new(0);
    timeline.data = data;
    timeline.data_backwards = data_backwards;
    timeline.pointers = pointers;
    timeline
}

#[test]
fn increment_then_write_emits_byte_one() {
    let mut context = context_running(vec![Token::Update(UpdateType::Increment), Token::Write]);
    let mut timeline = Timeline::new(0);
    assert_eq!(timeline.update(&mut context).1, Command::NoOp);
    assert_eq!(timeline.update(&mut context).1, Command::NoOp);
    assert_eq!(context.program_output.chars().next(), Some('\u{1}'));
    assert_eq!(timeline.update(&mut context).1, Command::RemoveAt(0));
}

#[test]
fn move_right_shifts_each_cursor_and_grows_the_tape() {
    let mut context = context_running(vec![Token::Move(MoveDirection::Right)]);
    let mut timeline = timeline_with(vec![7], vec![], vec![0, 2, -1]);
    assert_eq!(timeline.update(&mut context).1, Command::NoOp);
    assert_eq!(timeline.pointers, vec![1isize, 3, 0]);
    assert_eq!(timeline.data, vec![7u8, 0, 0, 0]);
    assert!(timeline.data_backwards.is_empty());
    assert_eq!(timeline.instruction_pointer, 1);
    assert!(timeline.tape.is_empty());
}

#[test]
fn move_left_reaches_the_backward_half() {
    let mut context = context_running(vec![
        Token::Move(MoveDirection::Left),
        Token::Move(MoveDirection::Left),
    ]);
    let mut timeline = timeline_with(vec![7], vec![], vec![0, 1]);
    assert_eq!(timeline.update(&mut context).1, Command::NoOp);
    assert_eq!(timeline.pointers, vec![-1isize, 0]);
    assert_eq!(timeline.data, vec![7u8]);
    assert_eq!(timeline.data_backwards, vec![0u8]);
    assert_eq!(timeline.update(&mut context).1, Command::NoOp);
    assert_eq!(timeline.pointers, vec![-2isize, -1]);
    assert_eq!(timeline.data_backwards, vec![0u8, 0]);
    assert_eq!(timeline.instruction_pointer, 2);
}

#[test]
fn every_visited_offset_has_a_cell_that_defaults_to_zero() {
    let moves = vec![
        MoveDirection::Right,
        MoveDirection::Right,
        MoveDirection::Left,
        MoveDirection::Left,
        MoveDirection::Left,
        MoveDirection::Left,
        MoveDirection::Right,
    ];
    let mut context = context_running(moves.iter().map(|d| Token::Move(*d)).collect());
    let mut timeline = timeline_with(vec![5], vec![], vec![0]);
    let mut visited = vec![0isize];
    for _ in 0..moves.len() {
        assert_eq!(timeline.update(&mut context).1, Command::NoOp);
        visited.push(timeline.pointers[0]);
    }
    assert_eq!(visited, vec![0isize, 1, 2, 1, 0, -1, -2, -1]);
    for offset in visited {
        let expected = if offset == 0 { 5u8 } else { 0u8 };
        assert_eq!(timeline.data_at(offset), Some(&expected));
    }
    assert_eq!(timeline.data, vec![5u8, 0, 0]);
    assert_eq!(timeline.data_backwards, vec![0u8, 0]);
    assert_eq!(timeline.data_at(3), None);
    assert_eq!(timeline.data_at(-3), None);
}

#[test]
fn increment_wraps_at_255() {
    let mut context = context_running(vec![Token::Update(UpdateType::Increment)]);
    let mut timeline = timeline_with(vec![255, 41], vec![], vec![0, 1]);
    assert_eq!(timeline.update(&mut context).1, Command::NoOp);
    assert_eq!(timeline.data, vec![0u8, 42]);
    assert_eq!(timeline.tape, vec![vec![(0isize, 255u8), (1, 41)]]);
    assert_eq!(timeline.instruction_pointer, 1);
}

#[test]
fn decrement_wraps_at_zero() {
    let mut context = context_running(vec![Token::Update(UpdateType::Decrement)]);
    let mut timeline = timeline_with(vec![0, 41], vec![9], vec![0, -1, 1]);
    assert_eq!(timeline.update(&mut context).1, Command::NoOp);
    assert_eq!(timeline.data, vec![255u8, 40]);
    assert_eq!(timeline.data_backwards, vec![8u8]);
    assert_eq!(timeline.tape, vec![vec![(0isize, 0u8), (-1, 9), (1, 41)]]);
}

#[test]
fn update_grows_the_tape_under_a_cursor_without_a_cell() {
    let mut context = context_running(vec![Token::Update(UpdateType::Increment)]);
    let mut timeline = timeline_with(vec![0], vec![], vec![2, -2]);
    assert_eq!(timeline.update(&mut context).1, Command::NoOp);
    assert_eq!(timeline.data, vec![0u8, 0, 1]);
    assert_eq!(timeline.data_backwards, vec![0u8, 1]);
    assert_eq!(timeline.tape, vec![vec![(2isize, 0u8), (-2, 0)]]);
}

#[test]
fn cursors_on_one_offset_are_served_one_by_one() {
    let mut context = context_running(vec![Token::Update(UpdateType::Increment)]);
    let mut timeline = timeline_with(vec![10], vec![], vec![0, 0, 0]);
    assert_eq!(timeline.update(&mut context).1, Command::NoOp);
    assert_eq!(timeline.data, vec![13u8]);
    assert_eq!(timeline.tape, vec![vec![(0isize, 10u8), (0, 11), (0, 12)]]);
}

#[test]
fn decrement_undoes_increment() {
    let mut context = context_running(vec![
        Token::Update(UpdateType::Increment),
        Token::Update(UpdateType::Decrement),
    ]);
    let mut timeline = timeline_with(vec![255, 3, 0], vec![17], vec![0, 2, 2, -1, 0]);
    assert_eq!(timeline.update(&mut context).1, Command::NoOp);
    assert_eq!(timeline.data, vec![1u8, 3, 2]);
    assert_eq!(timeline.data_backwards, vec![18u8]);
    assert_eq!(timeline.update(&mut context).1, Command::NoOp);
    assert_eq!(timeline.data, vec![255u8, 3, 0]);
    assert_eq!(timeline.data_backwards, vec![17u8]);
    assert_eq!(timeline.pointers, vec![0isize, 2, 2, -1, 0]);
}

#[test]
fn without_history_nothing_is_recorded() {
    let mut context = context_running(vec![
        Token::Update(UpdateType::Increment),
        Token::Read,
        Token::Update(UpdateType::Decrement),
        Token::Rewind,
    ]);
    context.need_history = false;
    context.program_input = "A".to_string();
    let mut timeline = Timeline::new(0);
    for _ in 0..3 {
        assert_eq!(timeline.update(&mut context).1, Command::NoOp);
        assert!(timeline.tape.is_empty());
    }
    assert_eq!(timeline.data, vec![64u8]);
    assert_eq!(timeline.update(&mut context).1, Command::NoOp);
    assert_eq!(timeline.data, vec![64u8]);
    assert!(timeline.tape.is_empty());
    assert_eq!(timeline.instruction_pointer, 4);
}

#[test]
fn without_cursors_nothing_is_recorded() {
    let mut context = context_running(vec![
        Token::Update(UpdateType::Increment),
        Token::Read,
        Token::Write,
        Token::Rewind,
    ]);
    context.program_input = "xy".to_string();
    let mut timeline = timeline_with(vec![4], vec![], vec![]);
    timeline.tape = vec![vec![(0, 1)]];
    assert_eq!(timeline.update(&mut context).1, Command::NoOp);
    assert_eq!(timeline.update(&mut context).1, Command::NoOp);
    assert_eq!(timeline.update(&mut context).1, Command::NoOp);
    assert_eq!(timeline.tape, vec![vec![(0isize, 1u8)]]);
    assert_eq!(timeline.data, vec![4u8]);
    assert_eq!(context.program_input, "xy");
    assert_eq!(context.program_output, "");
    assert_eq!(timeline.update(&mut context).1, Command::NoOp);
    assert!(timeline.tape.is_empty());
    assert_eq!(timeline.data, vec![1u8]);
    assert_eq!(timeline.instruction_pointer, 4);
}

#[test]
fn write_emits_the_cells_in_cursor_order() {
    let mut context = context_running(vec![Token::Write, Token::Write]);
    context.program_output = ">".to_string();
    let mut timeline = timeline_with(vec![72, 105], vec![33], vec![1, 0, -1, 0]);
    assert_eq!(timeline.update(&mut context).1, Command::NoOp);
    assert_eq!(context.program_output, ">iH!H");
    assert_eq!(timeline.update(&mut context).1, Command::NoOp);
    assert_eq!(context.program_output, ">iH!HiH!H");
    assert_eq!(timeline.data, vec![72u8, 105]);
    assert_eq!(timeline.data_backwards, vec![33u8]);
    assert!(timeline.tape.is_empty());
}

#[test]
fn write_turns_each_byte_into_the_character_of_that_code() {
    let mut context = context_running(vec![Token::Write]);
    let mut timeline = timeline_with(vec![0, 127, 128, 233, 255], vec![], vec![0, 1, 2, 3, 4]);
    assert_eq!(timeline.update(&mut context).1, Command::NoOp);
    assert_eq!(
        context.program_output.chars().collect::<Vec<char>>(),
        vec!['\0', '\u{7f}', '\u{80}', '\u{e9}', '\u{ff}']
    );
}

#[test]
fn write_reads_a_missing_cell_as_zero() {
    let mut context = context_running(vec![Token::Write]);
    let mut timeline = timeline_with(vec![65], vec![], vec![4, 0, -2]);
    assert_eq!(timeline.update(&mut context).1, Command::NoOp);
    assert_eq!(context.program_output, "\0A\0");
    assert_eq!(timeline.data, vec![65u8]);
    assert!(timeline.data_backwards.is_empty());
}

#[test]
fn read_takes_one_character_for_each_cursor() {
    let mut context = context_running(vec![Token::Read]);
    context.program_input = "abcd".to_string();
    let mut timeline = timeline_with(vec![1, 2], vec![3], vec![1, -1, 0]);
    assert_eq!(timeline.update(&mut context).1, Command::NoOp);
    assert_eq!(timeline.data, vec![99u8, 97]);
    assert_eq!(timeline.data_backwards, vec![98u8]);
    assert_eq!(context.program_input, "d");
    assert_eq!(timeline.tape, vec![vec![(1isize, 2u8), (-1, 3), (0, 1)]]);
    assert_eq!(timeline.instruction_pointer, 1);
}

#[test]
fn read_past_the_end_of_the_input_stores_zero() {
    let mut context = context_running(vec![Token::Read, Token::Read]);
    context.program_input = "z".to_string();
    let mut timeline = timeline_with(vec![5, 6], vec![], vec![0, 1]);
    assert_eq!(timeline.update(&mut context).1, Command::NoOp);
    assert_eq!(timeline.data, vec![122u8, 0]);
    assert_eq!(context.program_input, "");
    assert_eq!(timeline.update(&mut context).1, Command::NoOp);
    assert_eq!(timeline.data, vec![0u8, 0]);
    assert_eq!(context.program_input, "");
    assert_eq!(
        timeline.tape,
        vec![vec![(0isize, 5u8), (1, 6)], vec![(0isize, 122u8), (1, 0)]]
    );
}

#[test]
fn read_keeps_the_low_byte_of_a_character() {
    let mut context = context_running(vec![Token::Read]);
    context.program_input = "\u{e9}\u{100}\u{17f}\u{1f600}".to_string();
    let mut timeline = timeline_with(vec![9, 9, 9, 9], vec![], vec![0, 1, 2, 3]);
    assert_eq!(timeline.update(&mut context).1, Command::NoOp);
    assert_eq!(timeline.data, vec![0xe9u8, 0x00, 0x7f, 0x00]);
    assert_eq!(context.program_input, "");
}

#[test]
fn read_on_one_offset_records_what_each_cursor_found() {
    let mut context = context_running(vec![Token::Read]);
    context.program_input = "12".to_string();
    let mut timeline = timeline_with(vec![7], vec![], vec![0, 0]);
    assert_eq!(timeline.update(&mut context).1, Command::NoOp);
    assert_eq!(timeline.data, vec![50u8]);
    assert_eq!(timeline.tape, vec![vec![(0isize, 7u8), (0, 49)]]);
}

#[test]
fn rewind_restores_what_the_step_before_changed() {
    let mut context = context_running(vec![
        Token::Update(UpdateType::Increment),
        Token::Read,
        Token::Rewind,
        Token::Rewind,
        Token::Rewind,
    ]);
    context.program_input = "pq".to_string();
    let mut timeline = timeline_with(vec![255, 8], vec![], vec![0, 1]);
    assert_eq!(timeline.update(&mut context).1, Command::NoOp);
    assert_eq!(timeline.update(&mut context).1, Command::NoOp);
    assert_eq!(timeline.data, vec![112u8, 113]);
    assert_eq!(timeline.tape.len(), 2);
    assert_eq!(timeline.update(&mut context).1, Command::NoOp);
    assert_eq!(timeline.data, vec![0u8, 9]);
    assert_eq!(timeline.tape, vec![vec![(0isize, 255u8), (1, 8)]]);
    assert_eq!(timeline.update(&mut context).1, Command::NoOp);
    assert_eq!(timeline.data, vec![255u8, 8]);
    assert!(timeline.tape.is_empty());
    assert_eq!(timeline.update(&mut context).1, Command::NoOp);
    assert_eq!(timeline.data, vec![255u8, 8]);
    assert!(timeline.tape.is_empty());
    assert_eq!(timeline.pointers, vec![0isize, 1]);
    assert_eq!(timeline.instruction_pointer, 5);
    assert_eq!(context.program_input, "");
}

#[test]
fn rewind_writes_pairs_back_in_order_so_the_last_one_stays() {
    let mut context = context_running(vec![Token::Update(UpdateType::Increment), Token::Rewind]);
    let mut timeline = timeline_with(vec![10, 20], vec![], vec![0, 1, 0]);
    assert_eq!(timeline.update(&mut context).1, Command::NoOp);
    assert_eq!(timeline.data, vec![12u8, 21]);
    assert_eq!(timeline.tape, vec![vec![(0isize, 10u8), (1, 20), (0, 11)]]);
    assert_eq!(timeline.update(&mut context).1, Command::NoOp);
    assert_eq!(timeline.data, vec![11u8, 20]);
    assert!(timeline.tape.is_empty());
}

#[test]
fn rewind_grows_the_tape_for_a_recorded_offset() {
    let mut context = context_running(vec![Token::Rewind]);
    let mut timeline = Timeline::new(0);
    timeline.tape = vec![vec![(3, 1)], vec![(2, 6), (-1, 7)]];
    assert_eq!(timeline.update(&mut context).1, Command::NoOp);
    assert_eq!(timeline.data, vec![0u8, 0, 6]);
    assert_eq!(timeline.data_backwards, vec![7u8]);
    assert_eq!(timeline.tape, vec![vec![(3isize, 1u8)]]);
}

#[test]
fn jump_if_zero_jumps_only_when_all_cursors_are_on_zero() {
    let jump = Token::Jump { type_: JumpType::IfZero, index: 9 };
    let mut context = context_running(vec![jump]);

    let mut all_zero = timeline_with(vec![0, 0, 0], vec![0], vec![0, 2, -1]);
    assert_eq!(all_zero.update(&mut context).1, Command::NoOp);
    assert_eq!(all_zero.instruction_pointer, 9);

    let mut mixed = timeline_with(vec![0, 0, 1], vec![0], vec![0, 2, -1]);
    assert_eq!(mixed.update(&mut context).1, Command::NoOp);
    assert_eq!(mixed.instruction_pointer, 1);

    let mut none_zero = timeline_with(vec![3, 4], vec![], vec![0, 1]);
    assert_eq!(none_zero.update(&mut context).1, Command::NoOp);
    assert_eq!(none_zero.instruction_pointer, 1);
    assert_eq!(none_zero.data, vec![3u8, 4]);
    assert_eq!(none_zero.pointers, vec![0isize, 1]);
    assert!(none_zero.tape.is_empty());
}

#[test]
fn jump_if_not_zero_jumps_when_one_cursor_is_off_zero() {
    let jump = Token::Jump { type_: JumpType::IfNotZero, index: 4 };
    let mut context = context_running(vec![jump]);

    let mut all_zero = timeline_with(vec![0, 0, 0], vec![0], vec![0, 2, -1]);
    assert_eq!(all_zero.update(&mut context).1, Command::NoOp);
    assert_eq!(all_zero.instruction_pointer, 1);

    let mut mixed = timeline_with(vec![0, 0, 0], vec![0, 200], vec![0, 2, -2]);
    assert_eq!(mixed.update(&mut context).1, Command::NoOp);
    assert_eq!(mixed.instruction_pointer, 4);

    let mut none_zero = timeline_with(vec![3, 4], vec![], vec![0, 1]);
    assert_eq!(none_zero.update(&mut context).1, Command::NoOp);
    assert_eq!(none_zero.instruction_pointer, 4);
}

#[test]
fn jumps_read_a_missing_cell_as_zero() {
    let mut context = context_running(vec![
        Token::Jump { type_: JumpType::IfZero, index: 5 },
        Token::Jump { type_: JumpType::IfNotZero, index: 5 },
    ]);
    let mut timeline = timeline_with(vec![0], vec![], vec![6, -6]);
    timeline.instruction_pointer = 1;
    assert_eq!(timeline.update(&mut context).1, Command::NoOp);
    assert_eq!(timeline.instruction_pointer, 2);
    timeline.instruction_pointer = 0;
    assert_eq!(timeline.update(&mut context).1, Command::NoOp);
    assert_eq!(timeline.instruction_pointer, 5);
    assert_eq!(timeline.data, vec![0u8]);
    assert!(timeline.data_backwards.is_empty());
}

#[test]
fn jumps_without_cursors() {
    let mut context = context_running(vec![
        Token::Jump { type_: JumpType::IfNotZero, index: 7 },
        Token::Jump { type_: JumpType::IfZero, index: 7 },
    ]);
    let mut timeline = timeline_with(vec![1], vec![], vec![]);
    assert_eq!(timeline.update(&mut context).1, Command::NoOp);
    assert_eq!(timeline.instruction_pointer, 1);
    assert_eq!(timeline.update(&mut context).1, Command::NoOp);
    assert_eq!(timeline.instruction_pointer, 7);
}

#[test]
fn jump_may_go_backwards() {
    let mut context = context_running(vec![
        Token::Update(UpdateType::Decrement),
        Token::Jump { type_: JumpType::IfNotZero, index: 0 },
    ]);
    let mut timeline = timeline_with(vec![3], vec![], vec![0]);
    let mut steps = 0;
    while timeline.instruction_pointer < 2 {
        assert_eq!(timeline.update(&mut context).1, Command::NoOp);
        steps += 1;
    }
    assert_eq!(steps, 6);
    assert_eq!(timeline.data, vec![0u8]);
}

#[test]
fn await_moves_on_when_the_timeline_below_has_no_cursors() {
    let mut context = context_running(vec![Token::Await]);
    context.metadata = vec![
        TimelineMeta { id: 4, pointers_count: 2 },
        TimelineMeta { id: 0, pointers_count: 1 },
        TimelineMeta { id: 6, pointers_count: 0 },
    ];
    let mut timeline = Timeline::new(0);
    assert_eq!(timeline.update(&mut context).1, Command::NoOp);
    assert_eq!(timeline.instruction_pointer, 1);
}

#[test]
fn await_stalls_while_the_timeline_below_has_cursors() {
    let mut context = context_running(vec![Token::Await]);
    context.metadata = vec![
        TimelineMeta { id: 0, pointers_count: 0 },
        TimelineMeta { id: 6, pointers_count: 3 },
        TimelineMeta { id: 7, pointers_count: 0 },
    ];
    let mut timeline = Timeline::new(0);
    timeline.pointers = vec![];
    for _ in 0..3 {
        assert_eq!(timeline.update(&mut context).1, Command::NoOp);
        assert_eq!(timeline.instruction_pointer, 0);
    }
    context.metadata[1].pointers_count = 0;
    assert_eq!(timeline.update(&mut context).1, Command::NoOp);
    assert_eq!(timeline.instruction_pointer, 1);
}

#[test]
fn await_moves_on_when_no_timeline_is_below() {
    let mut context = context_running(vec![Token::Await]);
    context.metadata = vec![
        TimelineMeta { id: 3, pointers_count: 5 },
        TimelineMeta { id: 0, pointers_count: 5 },
    ];
    let mut timeline = Timeline::new(0);
    assert_eq!(timeline.update(&mut context).1, Command::NoOp);
    assert_eq!(timeline.instruction_pointer, 1);
    assert_eq!(timeline.data, vec![0u8]);
    assert_eq!(timeline.pointers, vec![0isize]);
}

#[test]
fn kill_asks_for_removal_and_moves_on() {
    let mut context = context_running(vec![Token::Kill]);
    let mut timeline = Timeline::new(5);
    assert_eq!(timeline.update(&mut context).1, Command::RemoveAt(5));
    assert_eq!(timeline.instruction_pointer, 1);
    assert_eq!(timeline.data, vec![0u8]);
    assert_eq!(timeline.pointers, vec![0isize]);
}

#[test]
fn move_up_and_down_ask_for_a_transfer_and_keep_the_cursors_for_now() {
    let mut context = context_running(vec![
        Token::Move(MoveDirection::Up),
        Token::Move(MoveDirection::Down),
    ]);
    let mut timeline = Timeline::new(5);
    timeline.pointers = vec![0, 3];
    assert_eq!(timeline.update(&mut context).1,
        Command::MovePointer { id: 5, direction: MoveDirection::Up }
    );
    assert_eq!(timeline.update(&mut context).1,
        Command::MovePointer { id: 5, direction: MoveDirection::Down }
    );
    assert_eq!(timeline.pointers, vec![0isize, 3]);
    assert_eq!(timeline.data, vec![0u8]);
    assert_eq!(timeline.instruction_pointer, 2);
}

#[test]
fn spawn_asks_for_a_fork_and_moves_on_by_one() {
    let mut context = context_running(vec![Token::Write, Token::Spawn { index: 0 }]);
    let mut timeline = Timeline::new(2);
    timeline.instruction_pointer = 1;
    assert_eq!(timeline.update(&mut context).1,
        Command::SpawnAt { id: 2, instruction_start: 0 }
    );
    assert_eq!(timeline.instruction_pointer, 2);
    assert_eq!(context.program_output, "");
}

#[test]
fn past_the_end_a_timeline_asks_for_removal_and_stays_as_it_is() {
    let mut context = context_running(vec![Token::Update(UpdateType::Increment)]);
    context.program_input = "in".to_string();
    let mut timeline = timeline_with(vec![1, 2], vec![3], vec![1]);
    timeline.id = 11;
    timeline.tape = vec![vec![(1, 0)]];
    timeline.instruction_pointer = 1;
    let before = timeline.clone();
    assert_eq!(timeline.update(&mut context).1, Command::RemoveAt(11));
    assert_eq!(timeline, before);
    timeline.instruction_pointer = 40;
    assert_eq!(timeline.update(&mut context).1, Command::RemoveAt(11));
    assert_eq!(timeline.instruction_pointer, 40);
    assert_eq!(context.program_input, "in");
    assert_eq!(context.program_output, "");
}

#[test]
fn a_step_leaves_the_rest_of_the_context_alone() {
    let mut context = context_running(vec![Token::Read, Token::Write]);
    context.raw_program = ",.".to_string();
    context.program_input = "k".to_string();
    context.total_timelines = 1;
    context.metadata = vec![TimelineMeta { id: 0, pointers_count: 1 }];
    context.next_id = 1;
    let mut timeline = Timeline::new(0);
    timeline.update(&mut context);
    timeline.update(&mut context);
    assert_eq!(context.raw_program, ",.");
    assert_eq!(context.tokens, vec![Token::Read, Token::Write]);
    assert_eq!(context.total_timelines, 1);
    assert_eq!(context.metadata, vec![TimelineMeta { id: 0, pointers_count: 1 }]);
    assert!(context.need_history);
    assert_eq!(context.next_id, 1);
    assert_eq!(context.program_output, "k");
}

#[test]
fn can_update_refuses_a_cursor_that_would_leave_the_range() {
    let context = context_running(vec![
        Token::Move(MoveDirection::Right),
        Token::Move(MoveDirection::Left),
        Token::Write,
    ]);
    let mut timeline = Timeline::new(0);
    timeline.pointers = vec![0, isize::MAX];
    assert!(!timeline.can_update(&context));
    timeline.pointers = vec![0, isize::MAX - 1, isize::MIN];
    assert!(timeline.can_update(&context));
    timeline.instruction_pointer = 1;
    assert!(!timeline.can_update(&context));
    timeline.pointers = vec![isize::MIN + 1, isize::MAX];
    assert!(timeline.can_update(&context));
    timeline.pointers = vec![isize::MIN, isize::MAX];
    timeline.instruction_pointer = 2;
    assert!(timeline.can_update(&context));
    timeline.instruction_pointer = 3;
    assert!(timeline.can_update(&context));
}

#[test]
fn can_update_refuses_to_wait_outside_the_snapshot() {
    let mut context = context_running(vec![Token::Await]);
    let timeline = Timeline::new(3);
    assert!(!timeline.can_update(&context));
    context.metadata = vec![TimelineMeta { id: 2, pointers_count: 0 }];
    assert!(!timeline.can_update(&context));
    context.metadata.push(TimelineMeta { id: 3, pointers_count: 0 });
    assert!(timeline.can_update(&context));
}

#[test]
fn update_hands_back_the_timeline_as_the_step_left_it() {
    let mut context = context_running(vec![Token::Update(UpdateType::Increment), Token::Kill]);
    let mut timeline = Timeline::new(4);
    {
        let (seen, command) = timeline.update(&mut context);
        assert_eq!(command, Command::NoOp);
        assert_eq!(seen.id, 4);
        assert_eq!(seen.data, vec![1u8]);
        assert_eq!(seen.instruction_pointer, 1);
        assert_eq!(seen.tape, vec![vec![(0isize, 0u8)]]);
    }
    let (seen, command) = timeline.update(&mut context);
    assert_eq!(command, Command::RemoveAt(4));
    assert_eq!(seen.instruction_pointer, 2);
}

#[test]
fn a_step_never_takes_a_cell_off_the_tape() {
    let tokens = vec![
        Token::Move(MoveDirection::Right),
        Token::Update(UpdateType::Decrement),
        Token::Move(MoveDirection::Left),
        Token::Move(MoveDirection::Left),
        Token::Read,
        Token::Rewind,
        Token::Write,
        Token::Rewind,
        Token::Jump { type_: JumpType::IfZero, index: 9 },
        Token::Move(MoveDirection::Up),
        Token::Spawn { index: 11 },
        Token::Kill,
    ];
    let mut context = context_running(tokens);
    context.program_input = "q".to_string();
    context.metadata = vec![TimelineMeta { id: 0, pointers_count: 2 }];
    let mut timeline = timeline_with(vec![1, 2], vec![3], vec![1, -1]);
    let mut lengths = (timeline.data.len(), timeline.data_backwards.len());
    while timeline.instruction_pointer < context.tokens.len() {
        timeline.update(&mut context);
        assert!(timeline.data.len() >= lengths.0);
        assert!(timeline.data_backwards.len() >= lengths.1);
        lengths = (timeline.data.len(), timeline.data_backwards.len());
    }
    assert_eq!(lengths, (3, 2));
    assert_eq!(timeline.instruction_pointer, 12);
}

#[test]
fn the_instruction_pointer_stays_in_a_program_with_targets_in_it() {
    let tokens = vec![
        Token::Jump { type_: JumpType::IfZero, index: 2 },
        Token::Kill,
        Token::Jump { type_: JumpType::IfNotZero, index: 0 },
        Token::Jump { type_: JumpType::IfZero, index: 4 },
    ];
    let mut context = context_running(tokens);
    let mut timeline = Timeline::new(0);
    let mut places = vec![];
    for _ in 0..4 {
        timeline.update(&mut context);
        assert!(timeline.instruction_pointer <= 4);
        places.push(timeline.instruction_pointer);
    }
    assert_eq!(places, vec![2usize, 3, 4, 4]);
}

#[test]
fn await_goes_by_the_first_entry_with_the_id() {
    let mut context = context_running(vec![Token::Await]);
    context.metadata = vec![
        TimelineMeta { id: 5, pointers_count: 1 },
        TimelineMeta { id: 2, pointers_count: 0 },
        TimelineMeta { id: 5, pointers_count: 1 },
        TimelineMeta { id: 9, pointers_count: 4 },
    ];
    let mut first = Timeline::new(5);
    assert_eq!(first.update(&mut context).1, Command::NoOp);
    assert_eq!(first.instruction_pointer, 1);
    let mut second = Timeline::new(2);
    assert_eq!(second.update(&mut context).1, Command::NoOp);
    assert_eq!(second.instruction_pointer, 0);
    let mut last = Timeline::new(9);
    assert_eq!(last.update(&mut context).1, Command::NoOp);
    assert_eq!(last.instruction_pointer, 1);
}
