use pretty_backtrace::address::{LoadedModule, Segment};
use pretty_backtrace::walker::{is_end_of_user_stack, needs_pause, FrameIterator, FrameStep, StackState, WalkStep};

fn one_module() -> Vec<LoadedModule> {
    vec![LoadedModule { bias: 0x400, segments: vec![Segment { start: 0x1000, len: 0x10000 }], path: "/bin/app".to_string() }]
}

#[test]
fn pauses_after_each_hundredth_frame() {
    assert!(!needs_pause(0));
    assert!(needs_pause(99));
    assert!(!needs_pause(100));
    assert!(needs_pause(199));
    assert!(!needs_pause(249));
}

#[test]
fn walk_of_250_frames_pauses_twice() {
    let ips: Vec<u64> = (0..250u64).map(|i| 0x1000 + i * 4).collect();
    let modules = one_module();
    let mut it = FrameIterator::new(ips);
    let mut pauses = Vec::new();
    let mut frames = 0;
    while let Some(w) = it.next(&modules) {
        match w.step {
            FrameStep::Frame { .. } => frames += 1,
            other => panic!("unexpected {:?}", other),
        }
        if w.pause {
            pauses.push(w.index);
        }
    }
    assert_eq!(frames, 250);
    assert_eq!(pauses, vec![99, 199]);
}

#[test]
fn walk_reports_end_and_unresolved_frames() {
    let modules = one_module();
    let mut it = FrameIterator::new(vec![0x1004, 0x20, 0]);
    match it.next(&modules) {
        Some(WalkStep { index: 0, step: FrameStep::Frame { addr }, pause: false }) => {
            assert_eq!(addr.svma, 0xc04);
            assert_eq!(addr.avma, 0x1004);
        }
        other => panic!("unexpected {:?}", other),
    }
    assert_eq!(it.next(&modules), Some(WalkStep { index: 1, step: FrameStep::Unresolved { ip: 0x20 }, pause: false }));
    assert_eq!(it.next(&modules), Some(WalkStep { index: 2, step: FrameStep::EndOfStack, pause: false }));
    assert_eq!(it.next(&modules), None);
    assert_eq!(it.next(&modules), None);
}

#[test]
fn walk_reports_inconsistent_layout() {
    let mut modules = one_module();
    modules.push(LoadedModule { bias: 0, segments: vec![Segment { start: 0x1000, len: 4 }], path: "x".to_string() });
    let mut it = FrameIterator::new(vec![0x1002]);
    assert_eq!(it.next(&modules), Some(WalkStep { index: 0, step: FrameStep::Inconsistent { ip: 0x1002 }, pause: false }));
}

#[test]
fn runtime_start_frames_end_user_stack() {
    assert!(is_end_of_user_stack("std::sys_common::backtrace::__rust_begin_short_backtrace"));
    assert!(is_end_of_user_stack("std::rt::lang_start::{{closure}}"));
    assert!(is_end_of_user_stack("std::rt::lang_start_internal"));
    assert!(!is_end_of_user_stack("app::main"));
    assert!(!is_end_of_user_stack("__rust_begin_short_backtrace::inner"));
    assert!(!is_end_of_user_stack(""));
}

#[test]
fn stack_state_stops_after_runtime_start() {
    let s = StackState::UserStack.after_function("app::main");
    assert_eq!(s, StackState::UserStack);
    assert!(s.continues());
    let s = s.after_function("std::rt::lang_start");
    assert_eq!(s, StackState::AfterUserStack);
    assert!(!s.continues());
    assert_eq!(StackState::PanicStack.after_function("core::panicking::panic"), StackState::PanicStack);
}

#[test]
fn untranslated_frames_count_for_pacing() {
    let modules = one_module();
    let mut ips: Vec<u64> = vec![0x20; 250];
    ips[150] = 0;
    ips[199] = 0x1000;
    let mut it = FrameIterator::new(ips);
    let mut pauses = Vec::new();
    while let Some(w) = it.next(&modules) {
        if w.pause {
            pauses.push((w.index, w.step));
        }
    }
    assert_eq!(pauses.len(), 2);
    assert_eq!(pauses[0], (99, FrameStep::Unresolved { ip: 0x20 }));
    assert_eq!(pauses[1].0, 199);
    assert!(matches!(pauses[1].1, FrameStep::Frame { .. }));
}
