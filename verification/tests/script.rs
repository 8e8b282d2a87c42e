use flight_services::script::{Opcode, State};

#[test]
fn new_state_is_empty() {
    let state = State::new(vec![Opcode::Push(1), Opcode::Push(2), Opcode::Add]);
    assert_eq!(state.stack, Vec::<i32>::new());
    assert_eq!(state.vars, Vec::<i32>::new());
    assert_eq!(state.bytecode, vec![Opcode::Push(1), Opcode::Push(2), Opcode::Add]);
    assert_eq!(state.index, 0);
}

#[test]
fn step_pushes_and_pops() {
    let mut state = State::new(vec![Opcode::Push(1), Opcode::Push(2), Opcode::Add]);
    assert!(state.step());
    assert_eq!(state.stack, vec![1]);
    assert_eq!(state.index, 1);
    assert!(state.step());
    assert_eq!(state.stack, vec![1, 2]);
    // every opcode but Push takes the top value off
    assert!(!state.step());
    assert_eq!(state.stack, vec![1]);
    assert_eq!(state.index, 3);
    assert_eq!(state.vars, Vec::<i32>::new());
}

#[test]
fn pop_on_an_empty_stack_does_nothing() {
    let mut state = State::new(vec![Opcode::Pop, Opcode::Jump(3), Opcode::Push(-7)]);
    assert!(state.step());
    assert_eq!(state.stack, Vec::<i32>::new());
    assert!(state.step());
    assert_eq!(state.stack, Vec::<i32>::new());
    assert!(!state.step());
    assert_eq!(state.stack, vec![-7]);
}

#[test]
fn single_instruction_leaves_nothing_to_run() {
    let mut state = State::new(vec![Opcode::Store(0)]);
    assert!(!state.step());
    assert_eq!(state.index, 1);
}
