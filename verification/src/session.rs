//! The mirroring sessions: which process mirrors which device.
//!
//! A launch runs in two steps around the work that only the caller can do.
//! `launch_scrcpy` looks the device up and says what is to be run;
//! `finish_launch` records the process that the caller has started.

use vstd::prelude::*;
use crate::decimal::{decimal, push_decimal};
use crate::text::{push_text, string_of};
use crate::tool::{texts, ToolCommand, ToolCommandView};

verus! {

/// One mirroring session: the device and the process that mirrors it.
#[derive(Debug)]
pub struct Session {
    pub serial: String,
    pub process_id: u32,
}

/// The device and the process of each session.
pub open spec fn entries(sessions: Seq<Session>) -> Seq<(Seq<char>, u32)> {
    sessions.map_values(|s: Session| (s.serial@, s.process_id))
}

/// Whether no two of `list` are for the same device.
pub open spec fn distinct(list: Seq<(Seq<char>, u32)>) -> bool {
    forall|i: int, j: int|
        0 <= i < j < list.len() ==> (#[trigger] list[i]).0 != (#[trigger] list[j]).0
}

/// The map from device to process that `list` stands for.
pub open spec fn map_of(list: Seq<(Seq<char>, u32)>) -> Map<Seq<char>, u32>
    decreases list.len(),
{
    if list.len() == 0 {
        Map::empty()
    } else {
        map_of(list.drop_last()).insert(list.last().0, list.last().1)
    }
}

/// A device has a process in the map exactly if it has an entry in the list.
pub proof fn lemma_map_of_dom(list: Seq<(Seq<char>, u32)>, serial: Seq<char>)
    ensures
        map_of(list).dom().contains(serial) <==> exists|i: int|
            0 <= i < list.len() && (#[trigger] list[i]).0 == serial,
    decreases list.len(),
{
    if list.len() > 0 {
        let front = list.drop_last();
        lemma_map_of_dom(front, serial);
        if map_of(list).dom().contains(serial) {
            if list.last().0 == serial {
                assert(list[list.len() - 1].0 == serial);
            } else {
                let i = choose|i: int| 0 <= i < front.len() && (#[trigger] front[i]).0 == serial;
                assert(list[i].0 == serial);
            }
        }
        if exists|i: int| 0 <= i < list.len() && (#[trigger] list[i]).0 == serial {
            let i = choose|i: int| 0 <= i < list.len() && (#[trigger] list[i]).0 == serial;
            if i < list.len() - 1 {
                assert(front[i].0 == serial);
            }
        }
    }
}

/// Where no device has two entries, the map gives each device the process of
/// its entry.
pub proof fn lemma_map_of_value(list: Seq<(Seq<char>, u32)>, i: int)
    requires
        distinct(list),
        0 <= i < list.len(),
    ensures
        map_of(list).dom().contains(list[i].0),
        map_of(list)[list[i].0] == list[i].1,
    decreases list.len(),
{
    let front = list.drop_last();
    if i < list.len() - 1 {
        assert(distinct(front)) by {
            assert forall|a: int, b: int| 0 <= a < b < front.len() implies (#[trigger] front[a]).0
                != (#[trigger] front[b]).0 by {
                assert(list[a].0 != list[b].0);
            }
        }
        lemma_map_of_value(front, i);
        assert(front[i] == list[i]);
        assert(list[i].0 != list[list.len() - 1].0);
    }
}

/// Where no device has two entries, taking an entry out of the list takes its
/// device out of the map.
pub proof fn lemma_map_of_remove(list: Seq<(Seq<char>, u32)>, i: int)
    requires
        distinct(list),
        0 <= i < list.len(),
    ensures
        distinct(list.remove(i)),
        map_of(list.remove(i)) == map_of(list).remove(list[i].0),
    decreases list.len(),
{
    let shorter = list.remove(i);
    assert(distinct(shorter)) by {
        assert forall|a: int, b: int| 0 <= a < b < shorter.len() implies (#[trigger] shorter[a]).0
            != (#[trigger] shorter[b]).0 by {
            let a2 = if a < i { a } else { a + 1 };
            let b2 = if b < i { b } else { b + 1 };
            assert(list[a2].0 != list[b2].0);
        }
    }
    let front = list.drop_last();
    if i == list.len() - 1 {
        assert(shorter =~= front);
        lemma_map_of_dom(front, list[i].0);
        if map_of(front).dom().contains(list[i].0) {
            let k = choose|k: int| 0 <= k < front.len() && (#[trigger] front[k]).0 == list[i].0;
            assert(list[k].0 != list[i].0);
        }
        assert(map_of(front) =~= map_of(list).remove(list[i].0));
    } else {
        assert(distinct(front)) by {
            assert forall|a: int, b: int| 0 <= a < b < front.len() implies (#[trigger] front[a]).0
                != (#[trigger] front[b]).0 by {
                assert(list[a].0 != list[b].0);
            }
        }
        lemma_map_of_remove(front, i);
        assert(shorter.drop_last() =~= front.remove(i));
        assert(shorter.last() == list.last());
        assert(front[i] == list[i]);
        assert(list[i].0 != list[list.len() - 1].0);
        assert(map_of(shorter) =~= map_of(list).remove(list[i].0));
    }
}

/// Whether the platform can bring the window of a running session to the
/// front.
#[derive(Clone, Copy, Debug)]
pub enum FocusCapability {
    Supported,
    Unsupported,
}

/// What the caller is to do for a launch.
#[derive(Debug)]
pub enum LaunchStep {
    /// Start one mirroring process with `spawn` and report how that went to
    /// `finish_launch`. Where `terminate` holds a command, run it first and
    /// pay no heed to what comes of it.
    Spawn { terminate: Option<ToolCommand>, spawn: ToolCommand },
    /// A session is running: run the command, pay no heed to what comes of it,
    /// and report success. Nothing is started.
    Focus(ToolCommand),
    /// A session is running and its window cannot be brought to the front:
    /// report the message as the error. Nothing is started.
    Refuse(String),
}

/// The text of a launch step.
pub enum LaunchStepView {
    Spawn { terminate: Option<ToolCommandView>, spawn: ToolCommandView },
    Focus(ToolCommandView),
    Refuse(Seq<char>),
}

impl View for LaunchStep {
    type V = LaunchStepView;

    open spec fn view(&self) -> LaunchStepView {
        match self {
            LaunchStep::Spawn { terminate, spawn } => LaunchStepView::Spawn {
                terminate: match terminate {
                    Some(cmd) => Some(cmd@),
                    None => None,
                },
                spawn: spawn@,
            },
            LaunchStep::Focus(cmd) => LaunchStepView::Focus(cmd@),
            LaunchStep::Refuse(message) => LaunchStepView::Refuse(message@),
        }
    }
}

/// The title of the window that mirrors the device `serial`.
pub open spec fn window_title(serial: Seq<char>) -> Seq<char> {
    "Orbit - "@ + serial
}

/// The command that starts mirroring the device `serial`.
pub open spec fn mirror_command(serial: Seq<char>) -> ToolCommandView {
    ToolCommandView {
        program: "scrcpy"@,
        args: seq!["-s"@, serial, "--window-title"@, window_title(serial)],
    }
}

/// The command that asks the process `pid` to end.
pub open spec fn terminate_command(pid: u32) -> ToolCommandView {
    ToolCommandView { program: "kill"@, args: seq![decimal(pid as nat)] }
}

/// The script that brings the window of the mirroring process `pid` to the
/// front.
pub open spec fn focus_script(pid: u32) -> Seq<char> {
    "tell application \"System Events\" to set frontmost of (every process whose name is \"scrcpy\" and unix id is "@
        + decimal(pid as nat) + ") to true"@
}

/// The command that runs `focus_script`.
pub open spec fn focus_command(pid: u32) -> ToolCommandView {
    ToolCommandView { program: "osascript"@, args: seq!["-e"@, focus_script(pid)] }
}

/// The message for a session that is running where windows cannot be brought
/// to the front.
pub open spec fn already_running() -> Seq<char> {
    "Scrcpy is already running for this device. Use Force New Session."@
}

/// What is to be done for a launch of the device `serial`.
///
/// Without a session for the device, one process is started. With one, and
/// without `force`, none is started: the window is brought to the front where
/// the platform can do that, and the launch is refused where it cannot. With
/// one, and with `force`, its process is asked to end and one process is
/// started.
pub open spec fn launch_step(
    sessions: Map<Seq<char>, u32>,
    serial: Seq<char>,
    force: bool,
    focus: FocusCapability,
) -> LaunchStepView {
    if !sessions.dom().contains(serial) {
        LaunchStepView::Spawn { terminate: None, spawn: mirror_command(serial) }
    } else if force {
        LaunchStepView::Spawn {
            terminate: Some(terminate_command(sessions[serial])),
            spawn: mirror_command(serial),
        }
    } else {
        match focus {
            FocusCapability::Supported => LaunchStepView::Focus(focus_command(sessions[serial])),
            FocusCapability::Unsupported => LaunchStepView::Refuse(already_running()),
        }
    }
}

/// The sessions after `launch_scrcpy`: with `force` the session of the device
/// is forgotten, whatever comes of asking its process to end.
pub open spec fn sessions_after_launch(
    sessions: Map<Seq<char>, u32>,
    serial: Seq<char>,
    force: bool,
) -> Map<Seq<char>, u32> {
    if force {
        sessions.remove(serial)
    } else {
        sessions
    }
}

/// The sessions after `finish_launch`: a process that was started is
/// recorded for the device, in place of any recorded before; a failure
/// changes nothing.
pub open spec fn sessions_after_spawn(
    sessions: Map<Seq<char>, u32>,
    serial: Seq<char>,
    spawned: Result<u32, String>,
) -> Map<Seq<char>, u32> {
    match spawned {
        Ok(pid) => sessions.insert(serial, pid),
        Err(_) => sessions,
    }
}

/// What `finish_launch` reports: success where a process was started, and
/// otherwise the reason why none was.
pub open spec fn spawn_answer(spawned: Result<u32, String>) -> Result<(), String> {
    match spawned {
        Ok(_) => Ok(()),
        Err(reason) => Err(reason),
    }
}

/// The first launch of a device starts exactly one process and records it;
/// a second launch of the same device without `force` starts none and leaves
/// the record as it is.
pub proof fn law_second_launch_starts_nothing(
    sessions: Map<Seq<char>, u32>,
    serial: Seq<char>,
    pid: u32,
    focus: FocusCapability,
)
    requires
        !sessions.dom().contains(serial),
    ensures
        launch_step(sessions, serial, false, focus) == (LaunchStepView::Spawn {
            terminate: None,
            spawn: mirror_command(serial),
        }),
        sessions_after_launch(sessions, serial, false) == sessions,
        ({
            let recorded = sessions_after_spawn(sessions, serial, Ok(pid));
            &&& recorded.dom().contains(serial)
            &&& recorded[serial] == pid
            &&& !(launch_step(recorded, serial, false, focus) is Spawn)
            &&& sessions_after_launch(recorded, serial, false) == recorded
        }),
{
}

/// A launch with `force` of a device that has a session asks the process of
/// that session to end and starts one process; once that one is recorded, it
/// stands for the device in place of the other, and the sessions of the other
/// devices are as they were. Until it is recorded the device has no session.
pub proof fn law_forced_launch_replaces(
    sessions: Map<Seq<char>, u32>,
    serial: Seq<char>,
    pid: u32,
    focus: FocusCapability,
)
    requires
        sessions.dom().contains(serial),
    ensures
        launch_step(sessions, serial, true, focus) == (LaunchStepView::Spawn {
            terminate: Some(terminate_command(sessions[serial])),
            spawn: mirror_command(serial),
        }),
        !sessions_after_launch(sessions, serial, true).dom().contains(serial),
        sessions_after_spawn(sessions_after_launch(sessions, serial, true), serial, Ok(pid))
            == sessions.insert(serial, pid),
        sessions.insert(serial, pid)[serial] == pid,
{
    assert(sessions.remove(serial).insert(serial, pid) =~= sessions.insert(serial, pid));
}

/// The sessions that are running, at most one for each device.
#[derive(Debug)]
pub struct ScrcpyState {
    sessions: Vec<Session>,
}

impl View for ScrcpyState {
    type V = Map<Seq<char>, u32>;

    closed spec fn view(&self) -> Map<Seq<char>, u32> {
        map_of(entries(self.sessions@))
    }
}

impl ScrcpyState {
    #[verifier::type_invariant]
    spec fn well_formed(self) -> bool {
        distinct(entries(self.sessions@))
    }

    /// No sessions.
    pub fn new() -> (state: Self)
        ensures
            state@ == Map::<Seq<char>, u32>::empty(),
    {
        let state = ScrcpyState { sessions: Vec::new() };
        assert(entries(state.sessions@) =~= Seq::empty());
        state
    }

    /// The number of sessions.
    pub fn len(&self) -> (n: usize)
        ensures
            n == self@.dom().len(),
            self@.dom().finite(),
    {
        proof {
            use_type_invariant(self);
            lemma_map_of_len(entries(self.sessions@));
        }
        self.sessions.len()
    }

    /// Where the session of `serial` stands in the list.
    fn position(&self, serial: &String) -> (r: Option<usize>)
        ensures
            match r {
                Some(i) => i < self.sessions@.len() && self.sessions@[i as int].serial@ == serial@
                    && self@.dom().contains(serial@) && self@[serial@]
                    == self.sessions@[i as int].process_id,
                None => !self@.dom().contains(serial@),
            },
    {
        proof {
            use_type_invariant(self);
        }
        let ghost list = entries(self.sessions@);
        let mut i: usize = 0;
        while i < self.sessions.len()
            invariant
                i <= self.sessions@.len(),
                list == entries(self.sessions@),
                distinct(list),
                forall|k: int| 0 <= k < i ==> (#[trigger] list[k]).0 != serial@,
            decreases self.sessions@.len() - i,
        {
            if self.sessions[i].serial == *serial {
                proof {
                    lemma_map_of_value(list, i as int);
                }
                return Some(i);
            }
            i += 1;
        }
        proof {
            lemma_map_of_dom(list, serial@);
        }
        None
    }

    /// The process that mirrors the device `serial`.
    pub fn process_of(&self, serial: &String) -> (pid: Option<u32>)
        ensures
            pid == if self@.dom().contains(serial@) {
                Some(self@[serial@])
            } else {
                None
            },
    {
        match self.position(serial) {
            Some(i) => Some(self.sessions[i].process_id),
            None => None,
        }
    }

    /// Forgets the session of the device `serial`, if there is one.
    pub fn forget(&mut self, serial: &String)
        ensures
            final(self)@ == old(self)@.remove(serial@),
    {
        match self.position(serial) {
            Some(i) => {
                proof {
                    use_type_invariant(&*self);
                    lemma_map_of_remove(entries(self.sessions@), i as int);
                    assert(entries(self.sessions@.remove(i as int)) =~= entries(
                        self.sessions@,
                    ).remove(i as int));
                }
                let mut list: Vec<Session> = Vec::new();
                assert(entries(list@) =~= Seq::empty());
                std::mem::swap(&mut self.sessions, &mut list);
                list.remove(i);
                std::mem::swap(&mut self.sessions, &mut list);
            },
            None => {
                assert(self@.remove(serial@) =~= self@);
            },
        }
    }

    /// Records that the process `pid` mirrors the device `serial`, in place of
    /// any process recorded for it before.
    pub fn record(&mut self, serial: String, pid: u32)
        ensures
            final(self)@ == old(self)@.insert(serial@, pid),
    {
        self.forget(&serial);
        proof {
            use_type_invariant(&*self);
            let list = entries(self.sessions@);
            lemma_map_of_dom(list, serial@);
            let longer = list.push((serial@, pid));
            assert(longer.drop_last() =~= list);
            assert(entries(self.sessions@.push(Session { serial: serial, process_id: pid }))
                =~= longer);
            assert(old(self)@.remove(serial@).insert(serial@, pid) =~= old(self)@.insert(
                serial@,
                pid,
            ));
        }
        let mut list: Vec<Session> = Vec::new();
        assert(entries(list@) =~= Seq::empty());
        std::mem::swap(&mut self.sessions, &mut list);
        list.push(Session { serial, process_id: pid });
        std::mem::swap(&mut self.sessions, &mut list);
    }
}

/// The map has as many devices as the list has entries, where no device has
/// two.
pub proof fn lemma_map_of_len(list: Seq<(Seq<char>, u32)>)
    requires
        distinct(list),
    ensures
        map_of(list).dom().finite(),
        map_of(list).dom().len() == list.len(),
    decreases list.len(),
{
    if list.len() > 0 {
        let front = list.drop_last();
        assert(distinct(front)) by {
            assert forall|a: int, b: int| 0 <= a < b < front.len() implies (#[trigger] front[a]).0
                != (#[trigger] front[b]).0 by {
                assert(list[a].0 != list[b].0);
            }
        }
        lemma_map_of_len(front);
        lemma_map_of_dom(front, list.last().0);
        if map_of(front).dom().contains(list.last().0) {
            let k = choose|k: int| 0 <= k < front.len() && (#[trigger] front[k]).0 == list.last().0;
            assert(list[k].0 != list[list.len() - 1].0);
        }
    }
}

/// The command that starts mirroring the device `serial`.
pub fn mirror_command_for(serial: &str) -> (cmd: ToolCommand)
    ensures
        cmd@ == mirror_command(serial@),
{
    let mut title: Vec<char> = Vec::new();
    push_text(&mut title, "Orbit - ");
    push_text(&mut title, serial);
    let mut args: Vec<String> = Vec::new();
    args.push("-s".to_string());
    args.push(serial.to_string());
    args.push("--window-title".to_string());
    args.push(string_of(title.as_slice()));
    let cmd = ToolCommand { program: "scrcpy".to_string(), args };
    assert(cmd@.args =~= mirror_command(serial@).args);
    cmd
}

/// The command that asks the process `pid` to end.
pub fn terminate_command_for(pid: u32) -> (cmd: ToolCommand)
    ensures
        cmd@ == terminate_command(pid),
{
    let mut number: Vec<char> = Vec::new();
    push_decimal(&mut number, pid as u64);
    let mut args: Vec<String> = Vec::new();
    args.push(string_of(number.as_slice()));
    let cmd = ToolCommand { program: "kill".to_string(), args };
    assert(cmd@.args =~= terminate_command(pid).args);
    cmd
}

/// The command that brings the window of the mirroring process `pid` to the
/// front.
pub fn focus_command_for(pid: u32) -> (cmd: ToolCommand)
    ensures
        cmd@ == focus_command(pid),
{
    let mut script: Vec<char> = Vec::new();
    push_text(
        &mut script,
        "tell application \"System Events\" to set frontmost of (every process whose name is \"scrcpy\" and unix id is ",
    );
    push_decimal(&mut script, pid as u64);
    push_text(&mut script, ") to true");
    let mut args: Vec<String> = Vec::new();
    args.push("-e".to_string());
    args.push(string_of(script.as_slice()));
    let cmd = ToolCommand { program: "osascript".to_string(), args };
    assert(cmd@.args =~= focus_command(pid).args);
    cmd
}

/// Decides what a launch of the device `serial` is to do, and forgets the
/// session of the device where `force` asks for a new one.
pub fn launch_scrcpy(
    state: &mut ScrcpyState,
    serial: &String,
    force: bool,
    focus: FocusCapability,
) -> (step: LaunchStep)
    ensures
        step@ == launch_step(old(state)@, serial@, force, focus),
        final(state)@ == sessions_after_launch(old(state)@, serial@, force),
{
    match state.process_of(serial) {
        None => {
            assert(state@.remove(serial@) =~= state@);
            LaunchStep::Spawn { terminate: None, spawn: mirror_command_for(serial.as_str()) }
        },
        Some(pid) => {
            if force {
                state.forget(serial);
                LaunchStep::Spawn {
                    terminate: Some(terminate_command_for(pid)),
                    spawn: mirror_command_for(serial.as_str()),
                }
            } else {
                match focus {
                    FocusCapability::Supported => LaunchStep::Focus(focus_command_for(pid)),
                    FocusCapability::Unsupported => {
                        let message =
                            "Scrcpy is already running for this device. Use Force New Session.";
                        LaunchStep::Refuse(message.to_string())
                    },
                }
            }
        },
    }
}

/// Ends a launch whose step was to start a process: records the process for
/// the device where one was started, and hands the reason on where none was.
pub fn finish_launch(state: &mut ScrcpyState, serial: String, spawned: Result<u32, String>) -> (r:
    Result<(), String>)
    ensures
        final(state)@ == sessions_after_spawn(old(state)@, serial@, spawned),
        r == spawn_answer(spawned),
{
    match spawned {
        Ok(pid) => {
            state.record(serial, pid);
            Ok(())
        },
        Err(reason) => Err(reason),
    }
}

} // verus!
