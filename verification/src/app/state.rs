//! The state of the program, what happens to it and what it asks for.
use vstd::prelude::*;

use std::collections::VecDeque;

use super::kinds::Kinds;
use super::pane::{Pane, PaneView};
use crate::cli::{Attached, Board, BoardView, Detected, DetectedView, Port, PortView};
use crate::lists::nums;
use crate::project::{Target, TargetView};
use crate::settings::{Settings, SettingsView};

verus! {

// -- tabs --

#[derive(Clone, Copy, PartialEq, Eq, Structural, Debug)]
pub enum Tab {
    Build,
    Monitor,
    Project,
    Settings,
}

impl Tab {
    pub const ALL: [Tab; 4] = [Tab::Build, Tab::Monitor, Tab::Project, Tab::Settings];

    pub open spec fn name(self) -> Seq<char> {
        match self {
            Tab::Build => "Build"@,
            Tab::Monitor => "Monitor"@,
            Tab::Project => "Project"@,
            Tab::Settings => "Settings"@,
        }
    }

    pub fn title(self) -> (r: &'static str)
        ensures
            r@ == self.name(),
    {
        match self {
            Tab::Build => "Build",
            Tab::Monitor => "Monitor",
            Tab::Project => "Project",
            Tab::Settings => "Settings",
        }
    }

    /// The place of the tab in the row of tabs.
    pub open spec fn place(self) -> int {
        match self {
            Tab::Build => 0,
            Tab::Monitor => 1,
            Tab::Project => 2,
            Tab::Settings => 3,
        }
    }

    pub fn index(self) -> (r: usize)
        ensures
            r == self.place(),
            r < Tab::ALL@.len(),
            Tab::ALL@[r as int] == self,
    {
        match self {
            Tab::Build => 0,
            Tab::Monitor => 1,
            Tab::Project => 2,
            Tab::Settings => 3,
        }
    }
}

// -- keys --

#[derive(Clone, Copy, PartialEq, Eq, Structural, Debug)]
pub enum Key {
    Char(char),
    Enter,
    Esc,
    Backspace,
    Tab,
    BackTab,
    Up,
    Down,
    Left,
    Right,
    PageUp,
    PageDown,
    Other,
}

#[derive(Clone, Copy, PartialEq, Eq, Structural, Debug)]
pub struct KeyPress {
    pub code: Key,
    pub control: bool,
}

// -- pickers --

#[derive(Clone, Copy, PartialEq, Eq, Structural, Debug)]
pub enum Pick {
    AddBoard,
    Board,
    Sketch,
    Port,
}

/// A list to choose from, narrowed down by what has been typed.
#[derive(Debug)]
pub struct Picker {
    pub kind: Pick,
    pub target: usize,
    pub query: String,
    pub sel: usize,
}

#[verifier::ext_equal]
pub struct PickerView {
    pub kind: Pick,
    pub target: int,
    pub query: Seq<char>,
    pub sel: int,
}

impl DeepView for Picker {
    type V = PickerView;

    open spec fn deep_view(&self) -> PickerView {
        PickerView {
            kind: self.kind,
            target: self.target as int,
            query: self.query@,
            sel: self.sel as int,
        }
    }
}

// -- jobs --

/// A run of `arduino-cli` that is going on.
#[derive(Debug)]
pub struct Job {
    pub name: String,
}

impl DeepView for Job {
    type V = Seq<char>;

    open spec fn deep_view(&self) -> Seq<char> {
        self.name@
    }
}

/// A run that waits for the folder to build in.
#[derive(Debug)]
pub enum Pending {
    Compile { name: String, fqbn: String },
    Upload { board: usize, name: String, fqbn: String },
}

#[verifier::ext_equal]
pub enum PendingView {
    Compile { name: Seq<char>, fqbn: Seq<char> },
    Upload { board: int, name: Seq<char>, fqbn: Seq<char> },
}

impl DeepView for Pending {
    type V = PendingView;

    open spec fn deep_view(&self) -> PendingView {
        match self {
            Pending::Compile { name, fqbn } => PendingView::Compile { name: name@, fqbn: fqbn@ },
            Pending::Upload { board, name, fqbn } => PendingView::Upload {
                board: *board as int,
                name: name@,
                fqbn: fqbn@,
            },
        }
    }
}

/// An argument of `arduino-cli`: a word, or the folder to build in, as it is shown.
#[derive(Debug, PartialEq, Eq)]
pub enum Arg {
    Word(String),
    Folder(String),
}

#[verifier::ext_equal]
pub enum ArgView {
    Word(Seq<char>),
    Folder(Seq<char>),
}

impl DeepView for Arg {
    type V = ArgView;

    open spec fn deep_view(&self) -> ArgView {
        match self {
            Arg::Word(s) => ArgView::Word(s@),
            Arg::Folder(s) => ArgView::Folder(s@),
        }
    }
}

// -- what the program asks for --

/// Something to be done outside. `ReadSketch`, `ReadBaud`, `BuildFolder`,
/// `SaveProject` and `SaveSettings` are to be answered, each before anything
/// else happens.
#[allow(inconsistent_fields)]
#[derive(Debug)]
pub enum Action {
    /// Look up the boards there are.
    FetchBoards,
    /// Write the project file; answered by `Answer::ProjectSaved`.
    SaveProject(Vec<Target>),
    /// Write the settings; answered by `Answer::SettingsSaved`.
    SaveSettings(Settings),
    /// Read the `sketch.yaml` of a sketch that a board is to have; answered by
    /// `Answer::SketchRead`.
    ReadSketch { board: usize, rel: String },
    /// Read the `sketch.yaml` of a board's sketch; answered by `Answer::BaudRead`.
    ReadBaud { board: usize, rel: String },
    /// Provide the folder to build a sketch in; answered by `Answer::Built`.
    BuildFolder(String),
    /// Tell the sketch folder its board, its port and its baud rate.
    Attach { rel: String, fqbn: String, port: Option<Port>, baud: Option<u32> },
    /// Run `arduino-cli`.
    Run(Vec<Arg>),
    /// Stop the run that is going on.
    Abort,
    OpenMonitor { id: u64, port: Port, baud: u32 },
    CloseMonitor(u64),
    /// Send a text to a board.
    Send(u64, String),
}

#[allow(inconsistent_fields)]
#[verifier::ext_equal]
pub enum ActionView {
    FetchBoards,
    SaveProject(Seq<TargetView>),
    SaveSettings(SettingsView),
    ReadSketch { board: int, rel: Seq<char> },
    ReadBaud { board: int, rel: Seq<char> },
    BuildFolder(Seq<char>),
    Attach { rel: Seq<char>, fqbn: Seq<char>, port: Option<PortView>, baud: Option<u32> },
    Run(Seq<ArgView>),
    Abort,
    OpenMonitor { id: int, port: PortView, baud: u32 },
    CloseMonitor(int),
    Send(int, Seq<char>),
}

impl DeepView for Action {
    type V = ActionView;

    open spec fn deep_view(&self) -> ActionView {
        match self {
            Action::FetchBoards => ActionView::FetchBoards,
            Action::SaveProject(boards) => ActionView::SaveProject(boards.deep_view()),
            Action::SaveSettings(s) => ActionView::SaveSettings(s.deep_view()),
            Action::ReadSketch { board, rel } => ActionView::ReadSketch {
                board: *board as int,
                rel: rel@,
            },
            Action::ReadBaud { board, rel } => ActionView::ReadBaud {
                board: *board as int,
                rel: rel@,
            },
            Action::BuildFolder(rel) => ActionView::BuildFolder(rel@),
            Action::Attach { rel, fqbn, port, baud } => ActionView::Attach {
                rel: rel@,
                fqbn: fqbn@,
                port: port.deep_view(),
                baud: *baud,
            },
            Action::Run(args) => ActionView::Run(args.deep_view()),
            Action::Abort => ActionView::Abort,
            Action::OpenMonitor { id, port, baud } => ActionView::OpenMonitor {
                id: *id as int,
                port: port.deep_view(),
                baud: *baud,
            },
            Action::CloseMonitor(id) => ActionView::CloseMonitor(*id as int),
            Action::Send(id, text) => ActionView::Send(*id as int, text@),
        }
    }
}

/// What came of an action. A `yaml` is what a `sketch.yaml` reads, where it can
/// be read.
#[derive(Debug)]
pub enum Answer {
    SketchRead { board: usize, rel: String, yaml: Option<String> },
    BaudRead { board: usize, yaml: Option<String> },
    Built(Result<String, String>),
    ProjectSaved(Result<(), String>),
    SettingsSaved(Result<(), String>),
}

// -- what happens --

#[derive(Debug)]
pub enum AppEvent {
    Ports(Result<Vec<Detected>, String>),
    AllBoards(Result<Vec<Board>, String>),
    Log(String),
    Progress(String),
    /// A run has ended, with its outcome and the seconds it took.
    JobDone(Result<bool, String>, String),
    Serial(u64, String),
    SerialDone(u64, Result<(), String>),
    Defaults(Attached),
}

// -- the state --

pub struct App {
    pub cli_version: String,
    pub root: String,
    pub root_name: Option<String>,
    pub scratch: String,
    pub root_is_sketch: bool,
    pub project_err: Option<String>,
    pub tab: Tab,
    pub boards: Vec<Target>,
    pub sketches: Vec<String>,
    pub sketch_fqbn: Kinds,
    pub pending_port: Option<String>,
    pub active: usize,
    pub sel: usize,
    pub ports: Vec<Detected>,
    pub ports_err: Option<String>,
    pub scanned: bool,
    pub all_boards: Option<Result<Vec<Board>, String>>,
    pub picker: Option<Picker>,
    pub log: Vec<String>,
    pub log_scroll: usize,
    pub redrawing: bool,
    pub job: Option<Job>,
    pub asked: Option<Pending>,
    pub queue: VecDeque<usize>,
    pub panes: Vec<Pane>,
    pub mon_gen: u64,
    pub resume: Vec<usize>,
    pub input: Option<String>,
    pub settings: Settings,
    pub set_sel: usize,
    pub quit: bool,
    /// What is to be done outside, in order.
    pub actions: Vec<Action>,
}

#[verifier::ext_equal]
pub struct AppView {
    pub cli_version: Seq<char>,
    pub root: Seq<char>,
    pub root_name: Option<Seq<char>>,
    pub scratch: Seq<char>,
    pub root_is_sketch: bool,
    pub project_err: Option<Seq<char>>,
    pub tab: Tab,
    pub boards: Seq<TargetView>,
    pub sketches: Seq<Seq<char>>,
    pub sketch_fqbn: Map<Seq<char>, Seq<char>>,
    pub pending_port: Option<Seq<char>>,
    pub active: int,
    pub sel: int,
    pub ports: Seq<DetectedView>,
    pub ports_err: Option<Seq<char>>,
    pub scanned: bool,
    pub all_boards: Option<Result<Seq<BoardView>, Seq<char>>>,
    pub picker: Option<PickerView>,
    pub log: Seq<Seq<char>>,
    pub log_scroll: int,
    pub redrawing: bool,
    pub job: Option<Seq<char>>,
    pub asked: Option<PendingView>,
    pub queue: Seq<int>,
    pub panes: Seq<PaneView>,
    pub mon_gen: int,
    pub resume: Seq<int>,
    pub input: Option<Seq<char>>,
    pub settings: SettingsView,
    pub set_sel: int,
    pub quit: bool,
    pub actions: Seq<ActionView>,
}

pub open spec fn known_boards(r: Option<Result<Vec<Board>, String>>) -> Option<
    Result<Seq<BoardView>, Seq<char>>,
> {
    match r {
        None => None,
        Some(Ok(v)) => Some(Ok(v.deep_view())),
        Some(Err(e)) => Some(Err(e@)),
    }
}

impl View for App {
    type V = AppView;

    open spec fn view(&self) -> AppView {
        AppView {
            cli_version: self.cli_version@,
            root: self.root@,
            root_name: self.root_name.deep_view(),
            scratch: self.scratch@,
            root_is_sketch: self.root_is_sketch,
            project_err: self.project_err.deep_view(),
            tab: self.tab,
            boards: self.boards.deep_view(),
            sketches: self.sketches.deep_view(),
            sketch_fqbn: self.sketch_fqbn@,
            pending_port: self.pending_port.deep_view(),
            active: self.active as int,
            sel: self.sel as int,
            ports: self.ports.deep_view(),
            ports_err: self.ports_err.deep_view(),
            scanned: self.scanned,
            all_boards: known_boards(self.all_boards),
            picker: self.picker.deep_view(),
            log: self.log.deep_view(),
            log_scroll: self.log_scroll as int,
            redrawing: self.redrawing,
            job: self.job.deep_view(),
            asked: self.asked.deep_view(),
            queue: nums(self.queue@),
            panes: self.panes.deep_view(),
            mon_gen: self.mon_gen as int,
            resume: nums(self.resume@),
            input: self.input.deep_view(),
            settings: self.settings.deep_view(),
            set_sel: self.set_sel as int,
            quit: self.quit,
            actions: self.actions.deep_view(),
        }
    }
}

impl AppView {
    /// The state with one line more in the log.
    pub open spec fn say(self, line: Seq<char>) -> AppView {
        AppView { log: self.log.push(line), ..self }
    }

    /// The state with one more thing to be done outside.
    pub open spec fn act(self, a: ActionView) -> AppView {
        AppView { actions: self.actions.push(a), ..self }
    }

    /// A run is going on, or waits for its folder.
    pub open spec fn busy(self) -> bool {
        self.job is Some || self.asked is Some
    }

    /// Pane `i` is connected to its board.
    pub open spec fn linked(self, i: int) -> bool {
        0 <= i < self.panes.len() && self.panes[i].link is Some
    }

    /// Every board has its pane.
    pub open spec fn paired(self) -> bool {
        self.panes.len() == self.boards.len()
    }

    /// The counters are far from the end of the machine's numbers.
    pub open spec fn roomy(self) -> bool {
        &&& self.log_scroll <= usize::MAX / 2
        &&& self.mon_gen + self.resume.len() + self.panes.len() < u64::MAX
        &&& self.boards.len() + self.ports.len() <= usize::MAX
        &&& forall|i: int|
            0 <= i < self.panes.len() ==> (#[trigger] self.panes[i]).scroll <= usize::MAX / 2
        &&& ports_fit(self.ports)
        &&& self.input matches Some(s) ==> s.len() <= usize::MAX / 8
    }
}

/// The addresses are shorter than an eighth of what the machine can count.
pub open spec fn ports_fit(ports: Seq<DetectedView>) -> bool {
    forall|j: int|
        0 <= j < ports.len() ==> (#[trigger] ports[j]).port.address.len() <= usize::MAX / 8
}

} // verus!
