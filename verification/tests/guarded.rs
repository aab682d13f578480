use mf_ui::guarded::WfState;

#[test]
fn a_taken_state_can_be_put_back() {
    let mut held: WfState<usize> = WfState::new();
    let state = held.take();
    assert!(state.node(1).is_none());
    held.put(state);
    let again = held.take();
    assert!(again.node(1).is_none());
}
