use orbit::session::{
    finish_launch, focus_command_for, launch_scrcpy, mirror_command_for, terminate_command_for,
    FocusCapability, LaunchStep, ScrcpyState,
};

fn serial(s: &str) -> String {
    s.to_string()
}

fn spawn_of(step: LaunchStep) -> (Option<(String, Vec<String>)>, (String, Vec<String>)) {
    match step {
        LaunchStep::Spawn { terminate, spawn } => {
            (terminate.map(|t| (t.program, t.args)), (spawn.program, spawn.args))
        },
        other => panic!("no spawn: {:?}", other),
    }
}

#[test]
fn new_state_has_no_sessions() {
    let state = ScrcpyState::new();
    assert_eq!(state.len(), 0);
    assert_eq!(state.process_of(&serial("abc")), None);
}

#[test]
fn commands_are_spelled_out() {
    let cmd = mirror_command_for("R58M123");
    assert_eq!(cmd.program, "scrcpy");
    assert_eq!(cmd.args, vec!["-s", "R58M123", "--window-title", "Orbit - R58M123"]);
    let cmd = terminate_command_for(4242);
    assert_eq!(cmd.program, "kill");
    assert_eq!(cmd.args, vec!["4242"]);
    let cmd = focus_command_for(77);
    assert_eq!(cmd.program, "osascript");
    assert_eq!(
        cmd.args,
        vec![
            "-e",
            "tell application \"System Events\" to set frontmost of (every process whose name is \"scrcpy\" and unix id is 77) to true"
        ]
    );
    assert_eq!(terminate_command_for(u32::MAX).args, vec!["4294967295"]);
    assert_eq!(terminate_command_for(0).args, vec!["0"]);
}

#[test]
fn first_launch_spawns_one_process_and_records_it() {
    for force in [false, true] {
        let mut state = ScrcpyState::new();
        let step = launch_scrcpy(&mut state, &serial("abc"), force, FocusCapability::Unsupported);
        let (terminate, spawn) = spawn_of(step);
        assert_eq!(terminate, None);
        assert_eq!(spawn.0, "scrcpy");
        assert_eq!(spawn.1, vec!["-s", "abc", "--window-title", "Orbit - abc"]);
        assert_eq!(state.len(), 0);
        assert_eq!(finish_launch(&mut state, serial("abc"), Ok(100)), Ok(()));
        assert_eq!(state.process_of(&serial("abc")), Some(100));
        assert_eq!(state.len(), 1);
    }
}

#[test]
fn second_launch_without_force_spawns_nothing() {
    let mut state = ScrcpyState::new();
    launch_scrcpy(&mut state, &serial("abc"), false, FocusCapability::Supported);
    finish_launch(&mut state, serial("abc"), Ok(100)).unwrap();
    match launch_scrcpy(&mut state, &serial("abc"), false, FocusCapability::Supported) {
        LaunchStep::Focus(cmd) => {
            assert_eq!(cmd.program, "osascript");
            assert_eq!(cmd.args.len(), 2);
            assert!(cmd.args[1].ends_with("unix id is 100) to true"));
        },
        other => panic!("{:?}", other),
    }
    assert_eq!(state.process_of(&serial("abc")), Some(100));
    match launch_scrcpy(&mut state, &serial("abc"), false, FocusCapability::Unsupported) {
        LaunchStep::Refuse(message) => assert_eq!(
            message,
            "Scrcpy is already running for this device. Use Force New Session."
        ),
        other => panic!("{:?}", other),
    }
    assert_eq!(state.process_of(&serial("abc")), Some(100));
    assert_eq!(state.len(), 1);
}

#[test]
fn forced_launch_replaces_the_session() {
    let mut state = ScrcpyState::new();
    finish_launch(&mut state, serial("abc"), Ok(100)).unwrap();
    finish_launch(&mut state, serial("other"), Ok(200)).unwrap();
    let step = launch_scrcpy(&mut state, &serial("abc"), true, FocusCapability::Supported);
    let (terminate, spawn) = spawn_of(step);
    assert_eq!(terminate, Some(("kill".to_string(), vec!["100".to_string()])));
    assert_eq!(spawn.1, vec!["-s", "abc", "--window-title", "Orbit - abc"]);
    assert_eq!(state.process_of(&serial("abc")), None);
    assert_eq!(state.process_of(&serial("other")), Some(200));
    assert_eq!(finish_launch(&mut state, serial("abc"), Ok(101)), Ok(()));
    assert_eq!(state.process_of(&serial("abc")), Some(101));
    assert_eq!(state.process_of(&serial("other")), Some(200));
    assert_eq!(state.len(), 2);
}

#[test]
fn failed_spawn_is_reported_and_changes_nothing() {
    let mut state = ScrcpyState::new();
    finish_launch(&mut state, serial("other"), Ok(200)).unwrap();
    launch_scrcpy(&mut state, &serial("abc"), false, FocusCapability::Supported);
    assert_eq!(
        finish_launch(&mut state, serial("abc"), Err("scrcpy: not found".to_string())),
        Err("scrcpy: not found".to_string())
    );
    assert_eq!(state.process_of(&serial("abc")), None);
    assert_eq!(state.process_of(&serial("other")), Some(200));
    assert_eq!(state.len(), 1);
}

#[test]
fn failed_spawn_after_force_leaves_the_device_without_a_session() {
    let mut state = ScrcpyState::new();
    finish_launch(&mut state, serial("abc"), Ok(100)).unwrap();
    launch_scrcpy(&mut state, &serial("abc"), true, FocusCapability::Unsupported);
    assert!(finish_launch(&mut state, serial("abc"), Err("no".to_string())).is_err());
    assert_eq!(state.process_of(&serial("abc")), None);
    assert_eq!(state.len(), 0);
}

#[test]
fn records_and_forgets() {
    let mut state = ScrcpyState::new();
    state.record(serial("a"), 1);
    state.record(serial("b"), 2);
    state.record(serial("a"), 3);
    assert_eq!(state.len(), 2);
    assert_eq!(state.process_of(&serial("a")), Some(3));
    assert_eq!(state.process_of(&serial("b")), Some(2));
    state.forget(&serial("missing"));
    assert_eq!(state.len(), 2);
    state.forget(&serial("a"));
    assert_eq!(state.process_of(&serial("a")), None);
    assert_eq!(state.process_of(&serial("b")), Some(2));
    assert_eq!(state.len(), 1);
}

#[test]
fn serials_are_told_apart_exactly() {
    let mut state = ScrcpyState::new();
    state.record(serial("abc"), 1);
    assert_eq!(state.process_of(&serial("ab")), None);
    assert_eq!(state.process_of(&serial("abcd")), None);
    assert_eq!(state.process_of(&serial("ABC")), None);
    assert_eq!(state.process_of(&serial("")), None);
    state.record(serial(""), 5);
    assert_eq!(state.process_of(&serial("")), Some(5));
}
