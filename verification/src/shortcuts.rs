//! Which commands the keys of a frame stand for.
use crate::axis::AxisChannel;
use vstd::prelude::*;

verus! {

/// The views of the application.
#[derive(Debug, Clone, Copy, PartialEq, Eq, Structural)]
pub enum HubTab {
    Studio,
    Cinema,
    Generator,
    ScriptDoctor,
    DeviceSync,
    Automation,
}

/// The keys that went down in a frame, and the modifiers held with them.
/// `ctrl` stands for either of the control and the command key.
#[derive(Debug, Clone, Copy, PartialEq, Eq, Structural)]
pub struct Keys {
    pub ctrl: bool,
    pub shift: bool,
    pub alt: bool,
    pub z: bool,
    pub y: bool,
    pub s: bool,
    pub o: bool,
    pub a: bool,
    pub escape: bool,
    pub f1: bool,
    pub f2: bool,
    pub f3: bool,
    pub f4: bool,
    pub f5: bool,
    pub f6: bool,
    pub delete: bool,
    pub backspace: bool,
    pub up: bool,
    pub down: bool,
    pub m: bool,
    pub v: bool,
    pub i: bool,
    pub b: bool,
    pub open_bracket: bool,
    pub close_bracket: bool,
    pub backslash: bool,
    pub num1: bool,
    pub num2: bool,
    pub num3: bool,
    pub num4: bool,
    pub num5: bool,
    pub num6: bool,
    pub num7: bool,
    pub space: bool,
    pub left: bool,
    pub right: bool,
    pub home: bool,
    pub end: bool,
}

impl Keys {
    /// No key down.
    pub fn none() -> (res: Self)
        ensures
            res == no_keys(),
    {
        Keys {
            ctrl: false,
            shift: false,
            alt: false,
            z: false,
            y: false,
            s: false,
            o: false,
            a: false,
            escape: false,
            f1: false,
            f2: false,
            f3: false,
            f4: false,
            f5: false,
            f6: false,
            delete: false,
            backspace: false,
            up: false,
            down: false,
            m: false,
            v: false,
            i: false,
            b: false,
            open_bracket: false,
            close_bracket: false,
            backslash: false,
            num1: false,
            num2: false,
            num3: false,
            num4: false,
            num5: false,
            num6: false,
            num7: false,
            space: false,
            left: false,
            right: false,
            home: false,
            end: false,
        }
    }
}

/// No key down.
pub open spec fn no_keys() -> Keys {
    Keys {
        ctrl: false,
        shift: false,
        alt: false,
        z: false,
        y: false,
        s: false,
        o: false,
        a: false,
        escape: false,
        f1: false,
        f2: false,
        f3: false,
        f4: false,
        f5: false,
        f6: false,
        delete: false,
        backspace: false,
        up: false,
        down: false,
        m: false,
        v: false,
        i: false,
        b: false,
        open_bracket: false,
        close_bracket: false,
        backslash: false,
        num1: false,
        num2: false,
        num3: false,
        num4: false,
        num5: false,
        num6: false,
        num7: false,
        space: false,
        left: false,
        right: false,
        home: false,
        end: false,
    }
}

/// What a key stands for.
#[derive(Debug, Clone, Copy, PartialEq, Eq, Structural)]
pub enum Command {
    Undo,
    Redo,
    Save,
    SaveAs,
    Open,
    SelectAll,
    ClearSelection,
    ShowTab(HubTab),
    DeleteSelected,
    Nudge { up: bool, step: i32 },
    SnapToBeats,
    ToggleMagnet,
    CycleViz,
    ToggleInfillDialog,
    DropBookmark,
    Slower,
    LoopIn,
    Faster,
    LoopOut,
    ClearLoop,
    SwitchAxis(AxisChannel),
    TogglePlayback,
    PrevBookmark,
    /// By a second, or by a frame
    StepBack { second: bool },
    NextBookmark,
    /// By a second, or by a frame
    StepForward { second: bool },
    SeekStart,
    SeekEnd,
}

/// The command, if it is called for.
#[verifier::opaque]
pub open spec fn when(called: bool, command: Command) -> Seq<Command> {
    if called {
        seq![command]
    } else {
        Seq::empty()
    }
}

/// How far a nudge goes.
pub open spec fn nudge_step(shift: bool) -> i32 {
    if shift {
        5
    } else {
        1
    }
}

fn push_when(out: &mut Vec<Command>, called: bool, command: Command)
    ensures
        final(out)@ == old(out)@ + when(called, command),
{
    proof {
        reveal(when);
    }
    if called {
        out.push(command);
    }
    assert(out@ =~= old(out)@ + when(called, command));
}

/// The commands that hold everywhere.
pub open spec fn global_commands(keys: Keys) -> Seq<Command> {
    Seq::empty()
        + when(keys.ctrl && keys.z && !keys.shift, Command::Undo)
        + when(keys.ctrl && keys.y || keys.ctrl && keys.shift && keys.z, Command::Redo)
        + when(keys.ctrl && keys.s && !keys.shift, Command::Save)
        + when(keys.ctrl && keys.s && keys.shift, Command::SaveAs)
        + when(keys.ctrl && keys.o, Command::Open)
        + when(keys.ctrl && keys.a, Command::SelectAll)
        + when(keys.escape, Command::ClearSelection)
        + when(keys.f1, Command::ShowTab(HubTab::Studio))
        + when(keys.f2, Command::ShowTab(HubTab::Cinema))
        + when(keys.f3, Command::ShowTab(HubTab::Generator))
        + when(keys.f4, Command::ShowTab(HubTab::ScriptDoctor))
        + when(keys.f5, Command::ShowTab(HubTab::DeviceSync))
        + when(keys.f6, Command::ShowTab(HubTab::Automation))
}

/// The commands that act on the selection and on the display.
pub open spec fn selection_commands(keys: Keys) -> Seq<Command> {
    Seq::empty()
        + when(keys.delete || keys.backspace, Command::DeleteSelected)
        + when(keys.up || keys.down, Command::Nudge { up: keys.up, step: nudge_step(keys.shift) })
        + when(keys.m && keys.alt, Command::SnapToBeats)
        + when(keys.m && !keys.alt, Command::ToggleMagnet)
        + when(keys.v && keys.alt, Command::CycleViz)
        + when(keys.i && keys.alt, Command::ToggleInfillDialog)
        + when(keys.b && !keys.ctrl && !keys.alt, Command::DropBookmark)
}

/// The commands that set bookmarks and loops, and switch axes.
pub open spec fn marker_commands(keys: Keys) -> Seq<Command> {
    Seq::empty()
        + when(keys.open_bracket && keys.shift, Command::Slower)
        + when(keys.open_bracket && !keys.shift, Command::LoopIn)
        + when(keys.close_bracket && keys.shift, Command::Faster)
        + when(keys.close_bracket && !keys.shift, Command::LoopOut)
        + when(keys.backslash, Command::ClearLoop)
        + when(keys.num1, Command::SwitchAxis(AxisChannel::Stroke))
        + when(keys.num2, Command::SwitchAxis(AxisChannel::Surge))
        + when(keys.num3, Command::SwitchAxis(AxisChannel::Sway))
        + when(keys.num4, Command::SwitchAxis(AxisChannel::Pitch))
        + when(keys.num5, Command::SwitchAxis(AxisChannel::Roll))
        + when(keys.num6, Command::SwitchAxis(AxisChannel::Twist))
        + when(keys.num7, Command::SwitchAxis(AxisChannel::Suction))
}

/// The commands that move the playhead.
pub open spec fn transport_commands(keys: Keys) -> Seq<Command> {
    Seq::empty()
        + when(keys.space, Command::TogglePlayback)
        + when(keys.left && keys.alt, Command::PrevBookmark)
        + when(keys.left && !keys.alt, Command::StepBack { second: keys.shift })
        + when(keys.right && keys.alt, Command::NextBookmark)
        + when(keys.right && !keys.alt, Command::StepForward { second: keys.shift })
        + when(keys.home, Command::SeekStart)
        + when(keys.end, Command::SeekEnd)
}

/// The commands that do not hold while text is typed.
pub open spec fn editing_commands(keys: Keys) -> Seq<Command> {
    selection_commands(keys) + marker_commands(keys) + transport_commands(keys)
}

fn push_global(keys: &Keys) -> (out: Vec<Command>)
    ensures
        out@ == global_commands(*keys),
{
    let mut out: Vec<Command> = Vec::new();
    push_when(&mut out, keys.ctrl && keys.z && !keys.shift, Command::Undo);
    push_when(&mut out, keys.ctrl && keys.y || keys.ctrl && keys.shift && keys.z, Command::Redo);
    push_when(&mut out, keys.ctrl && keys.s && !keys.shift, Command::Save);
    push_when(&mut out, keys.ctrl && keys.s && keys.shift, Command::SaveAs);
    push_when(&mut out, keys.ctrl && keys.o, Command::Open);
    push_when(&mut out, keys.ctrl && keys.a, Command::SelectAll);
    push_when(&mut out, keys.escape, Command::ClearSelection);
    push_when(&mut out, keys.f1, Command::ShowTab(HubTab::Studio));
    push_when(&mut out, keys.f2, Command::ShowTab(HubTab::Cinema));
    push_when(&mut out, keys.f3, Command::ShowTab(HubTab::Generator));
    push_when(&mut out, keys.f4, Command::ShowTab(HubTab::ScriptDoctor));
    push_when(&mut out, keys.f5, Command::ShowTab(HubTab::DeviceSync));
    push_when(&mut out, keys.f6, Command::ShowTab(HubTab::Automation));
    out
}

fn push_selection(keys: &Keys) -> (out: Vec<Command>)
    ensures
        out@ == selection_commands(*keys),
{
    let mut out: Vec<Command> = Vec::new();
    let step: i32 = if keys.shift {
        5
    } else {
        1
    };
    push_when(&mut out, keys.delete || keys.backspace, Command::DeleteSelected);
    push_when(&mut out, keys.up || keys.down, Command::Nudge { up: keys.up, step });
    push_when(&mut out, keys.m && keys.alt, Command::SnapToBeats);
    push_when(&mut out, keys.m && !keys.alt, Command::ToggleMagnet);
    push_when(&mut out, keys.v && keys.alt, Command::CycleViz);
    push_when(&mut out, keys.i && keys.alt, Command::ToggleInfillDialog);
    push_when(&mut out, keys.b && !keys.ctrl && !keys.alt, Command::DropBookmark);
    out
}

fn push_marker(keys: &Keys) -> (out: Vec<Command>)
    ensures
        out@ == marker_commands(*keys),
{
    let mut out: Vec<Command> = Vec::new();
    push_when(&mut out, keys.open_bracket && keys.shift, Command::Slower);
    push_when(&mut out, keys.open_bracket && !keys.shift, Command::LoopIn);
    push_when(&mut out, keys.close_bracket && keys.shift, Command::Faster);
    push_when(&mut out, keys.close_bracket && !keys.shift, Command::LoopOut);
    push_when(&mut out, keys.backslash, Command::ClearLoop);
    push_when(&mut out, keys.num1, Command::SwitchAxis(AxisChannel::Stroke));
    push_when(&mut out, keys.num2, Command::SwitchAxis(AxisChannel::Surge));
    push_when(&mut out, keys.num3, Command::SwitchAxis(AxisChannel::Sway));
    push_when(&mut out, keys.num4, Command::SwitchAxis(AxisChannel::Pitch));
    push_when(&mut out, keys.num5, Command::SwitchAxis(AxisChannel::Roll));
    push_when(&mut out, keys.num6, Command::SwitchAxis(AxisChannel::Twist));
    push_when(&mut out, keys.num7, Command::SwitchAxis(AxisChannel::Suction));
    out
}

fn push_transport(keys: &Keys) -> (out: Vec<Command>)
    ensures
        out@ == transport_commands(*keys),
{
    let mut out: Vec<Command> = Vec::new();
    push_when(&mut out, keys.space, Command::TogglePlayback);
    push_when(&mut out, keys.left && keys.alt, Command::PrevBookmark);
    push_when(&mut out, keys.left && !keys.alt, Command::StepBack { second: keys.shift });
    push_when(&mut out, keys.right && keys.alt, Command::NextBookmark);
    push_when(&mut out, keys.right && !keys.alt, Command::StepForward { second: keys.shift });
    push_when(&mut out, keys.home, Command::SeekStart);
    push_when(&mut out, keys.end, Command::SeekEnd);
    out
}

/// The commands that the keys of a frame stand for, in the order in which they
/// are carried out. While text is typed only the global ones hold.
pub fn handle_shortcuts(keys: &Keys, typing: bool) -> (commands: Vec<Command>)
    ensures
        commands@ == (if typing {
            global_commands(*keys)
        } else {
            global_commands(*keys) + editing_commands(*keys)
        }),
{
    let mut commands: Vec<Command> = push_global(keys);
    if !typing {
        let mut selection: Vec<Command> = push_selection(keys);
        let mut marker: Vec<Command> = push_marker(keys);
        let mut transport: Vec<Command> = push_transport(keys);
        commands.append(&mut selection);
        commands.append(&mut marker);
        commands.append(&mut transport);
        assert(commands@ =~= global_commands(*keys) + editing_commands(*keys));
    }
    commands
}

/// Without a key there is no command.
pub proof fn lemma_no_keys_no_commands()
    ensures
        global_commands(no_keys()).len() == 0,
        editing_commands(no_keys()).len() == 0,
{
    reveal(when);
}

proof fn lemma_any_called(c: Command)
    ensures
        forall|a: Seq<Command>, b: Seq<Command>| #[trigger]
            (a + b).contains(c) <==> a.contains(c) || b.contains(c),
        forall|called: bool, d: Command| #[trigger]
            when(called, d).contains(c) <==> called && d == c,
        !Seq::<Command>::empty().contains(c),
{
    reveal(when);
    assert forall|a: Seq<Command>, b: Seq<Command>| #[trigger]
        (a + b).contains(c) <==> a.contains(c) || b.contains(c) by {
        let s = a + b;
        if a.contains(c) {
            let k = choose|k: int| 0 <= k < a.len() && a[k] == c;
            assert(s[k] == c);
        }
        if b.contains(c) {
            let k = choose|k: int| 0 <= k < b.len() && b[k] == c;
            assert(s[a.len() + k] == c);
        }
        if s.contains(c) {
            let k = choose|k: int| 0 <= k < s.len() && s[k] == c;
            if k < a.len() {
                assert(a[k] == c);
            } else {
                assert(b[k - a.len()] == c);
            }
        }
    }
    assert forall|called: bool, d: Command| #[trigger]
        when(called, d).contains(c) <==> called && d == c by {
        if called {
            assert(when(called, d)[0] == d);
        }
    }
}

/// The global commands are called by their keys and by nothing else.
pub proof fn lemma_global_keys(keys: Keys, c: Command)
    ensures
        global_commands(keys).contains(c) <==> match c {
            Command::Undo => keys.ctrl && keys.z && !keys.shift,
            Command::Redo => keys.ctrl && (keys.y || keys.shift && keys.z),
            Command::Save => keys.ctrl && keys.s && !keys.shift,
            Command::SaveAs => keys.ctrl && keys.s && keys.shift,
            Command::Open => keys.ctrl && keys.o,
            Command::SelectAll => keys.ctrl && keys.a,
            Command::ClearSelection => keys.escape,
            Command::ShowTab(tab) => match tab {
                HubTab::Studio => keys.f1,
                HubTab::Cinema => keys.f2,
                HubTab::Generator => keys.f3,
                HubTab::ScriptDoctor => keys.f4,
                HubTab::DeviceSync => keys.f5,
                HubTab::Automation => keys.f6,
            },
            _ => false,
        },
{
    lemma_any_called(c);
}

/// The commands of the selection and the display are called by their keys and by nothing
/// else.
pub proof fn lemma_selection_keys(keys: Keys, c: Command)
    ensures
        selection_commands(keys).contains(c) <==> match c {
            Command::DeleteSelected => keys.delete || keys.backspace,
            Command::Nudge { up, step } => (keys.up || keys.down) && up == keys.up && step == (
            if keys.shift {
                5int
            } else {
                1int
            }),
            Command::SnapToBeats => keys.m && keys.alt,
            Command::ToggleMagnet => keys.m && !keys.alt,
            Command::CycleViz => keys.v && keys.alt,
            Command::ToggleInfillDialog => keys.i && keys.alt,
            Command::DropBookmark => keys.b && !keys.ctrl && !keys.alt,
            _ => false,
        },
{
    lemma_any_called(c);
}

/// The commands of loops and axes are called by their keys and by nothing else.
pub proof fn lemma_marker_keys(keys: Keys, c: Command)
    ensures
        marker_commands(keys).contains(c) <==> match c {
            Command::Slower => keys.open_bracket && keys.shift,
            Command::LoopIn => keys.open_bracket && !keys.shift,
            Command::Faster => keys.close_bracket && keys.shift,
            Command::LoopOut => keys.close_bracket && !keys.shift,
            Command::ClearLoop => keys.backslash,
            Command::SwitchAxis(axis) => match axis {
                AxisChannel::Stroke => keys.num1,
                AxisChannel::Surge => keys.num2,
                AxisChannel::Sway => keys.num3,
                AxisChannel::Pitch => keys.num4,
                AxisChannel::Roll => keys.num5,
                AxisChannel::Twist => keys.num6,
                AxisChannel::Suction => keys.num7,
            },
            _ => false,
        },
{
    lemma_any_called(c);
}

/// The commands that move the playhead are called by their keys and by nothing else.
pub proof fn lemma_transport_keys(keys: Keys, c: Command)
    ensures
        transport_commands(keys).contains(c) <==> match c {
            Command::TogglePlayback => keys.space,
            Command::PrevBookmark => keys.left && keys.alt,
            Command::StepBack { second } => keys.left && !keys.alt && second == keys.shift,
            Command::NextBookmark => keys.right && keys.alt,
            Command::StepForward { second } => keys.right && !keys.alt && second == keys.shift,
            Command::SeekStart => keys.home,
            Command::SeekEnd => keys.end,
            _ => false,
        },
{
    lemma_any_called(c);
}

} // verus!
