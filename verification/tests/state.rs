use uring_ops::state::OperationState;

#[test]
fn pending_state_gives_its_data() {
    let state: OperationState<u32, u64> = OperationState::Pending(7);
    assert!(state.is_pending());
    assert!(!state.is_ready());
    assert_eq!(*state.as_pending(), 7);
    assert_eq!(state.into_pending(), 7);
}

#[test]
fn ready_state_gives_its_data() {
    let state: OperationState<u32, u64> = OperationState::Ready(9);
    assert!(state.is_ready());
    assert!(!state.is_pending());
    assert_eq!(*state.as_ready(), 9);
    assert_eq!(state.into_ready(), 9);
}

#[test]
fn temp_state_is_neither_pending_nor_ready() {
    let state: OperationState<u32, u64> = OperationState::Temp;
    assert!(!state.is_pending());
    assert!(!state.is_ready());
}

#[test]
fn as_pending_mut_writes_through() {
    let mut state: OperationState<u32, u64> = OperationState::Pending(1);
    *state.as_pending_mut() = 5;
    assert!(matches!(state, OperationState::Pending(5)));
    *state.as_pending_mut() += 1;
    assert_eq!(state.into_pending(), 6);
}

#[test]
fn take_leaves_temp_behind() {
    let mut state: OperationState<u32, u64> = OperationState::Pending(3);
    let taken = state.take();
    assert!(matches!(state, OperationState::Temp));
    assert_eq!(taken.into_pending(), 3);

    let mut state: OperationState<u32, u64> = OperationState::Ready(4);
    let taken = state.take();
    assert!(matches!(state, OperationState::Temp));
    assert_eq!(taken.into_ready(), 4);
}

#[test]
fn take_of_temp_is_temp() {
    let mut state: OperationState<u32, u64> = OperationState::Temp;
    let taken = state.take();
    assert!(matches!(taken, OperationState::Temp));
    assert!(matches!(state, OperationState::Temp));
}

#[test]
fn take_then_replace_swaps_phase() {
    let mut state: OperationState<String, usize> = OperationState::Pending(String::from("abc"));
    let text = state.take().into_pending();
    state = OperationState::Ready(text.len());
    assert_eq!(*state.as_ready(), 3);
}
