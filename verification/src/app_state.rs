//! The state of the comparison window and how it reacts to each message.
//! Reading files, opening dialogs, asking the system for its appearance and
//! resizing the window are left to the caller: a message yields a command,
//! the caller carries it out and reports back.

use std::path::PathBuf;
use vstd::prelude::*;

use crate::diff::{compute_diff, diff_spec, DataView, DiffData};
use crate::text::str_chars;

verus! {

broadcast use vstd::string::group_string_axioms;

/// A loaded text file: its path, the name shown for it, and its content.
#[derive(Debug, Clone)]
pub struct TextFile {
    pub path: PathBuf,
    pub name: String,
    pub content: String,
}

/// What the window can be told.
#[derive(Debug, Clone, PartialEq)]
pub enum Message {
    FileDropped(PathBuf),
    DockFilesDropped(Vec<PathBuf>),
    FileHovered,
    FilesHoveredLeft,
    ChooseFiles,
    ClearAll,
    SwapSides,
    ToggleWrapLines(bool),
    ZoomIn,
    ZoomOut,
    ResetZoom,
    CheckSystemTheme,
}

/// What reading a path gave.
#[derive(Debug, Clone)]
pub enum ReadOutcome {
    /// The path is a directory; `display` is how the path is displayed.
    Directory { display: String },
    /// The file was read as text; `file_name` is its final component, if it
    /// has one, lossily converted.
    Read { file_name: Option<String>, content: String },
    /// Reading failed with `error`.
    Failed { file_name: Option<String>, display: String, error: String },
}

/// What the caller is to do after a message.
#[derive(Debug, Clone)]
pub enum Command {
    /// Nothing.
    Nothing,
    /// Maximize the window.
    MaximizeWindow,
    /// Leave the maximized state and return to the launcher size.
    RestoreWindow,
    /// Read these paths in order, report each with `load_file`, then call
    /// `files_loaded`.
    ReadFiles(Vec<PathBuf>),
    /// Ask the user for files, read them as for `ReadFiles`, then call
    /// `files_loaded`.
    PickFiles,
    /// Ask whether the system is in dark mode and report it with
    /// `system_appearance`.
    ReadSystemAppearance,
    /// Load the theme for a dark (or light) system.
    LoadTheme(bool),
    /// Grow the font by one point, at most to the largest size.
    ZoomIn,
    /// Shrink the font by one point, at least to the smallest size.
    ZoomOut,
    /// Return to the configured font size.
    ResetZoom,
}

/// The window's state, apart from the theme and the font size.
pub struct AppState {
    pub file_1: Option<TextFile>,
    pub file_2: Option<TextFile>,
    pub diff_data: Option<DiffData>,
    pub wrap_lines: bool,
    pub is_hovering: bool,
    pub is_new_drop_sequence: bool,
    pub status_message: Option<String>,
    pub is_os_dark: bool,
}

/// Mathematical model of a loaded file.
pub struct FileView {
    pub path: PathBuf,
    pub name: Seq<char>,
    pub content: Seq<char>,
}

impl View for TextFile {
    type V = FileView;

    open spec fn view(&self) -> FileView {
        FileView { path: self.path, name: self.name@, content: self.content@ }
    }
}

/// Mathematical model of the window's state.
pub struct StateView {
    pub file_1: Option<FileView>,
    pub file_2: Option<FileView>,
    pub diff: Option<DataView>,
    pub wrap_lines: bool,
    pub is_hovering: bool,
    pub is_new_drop_sequence: bool,
    pub status: Option<Seq<char>>,
    pub is_os_dark: bool,
}

/// The model of an optional file.
pub open spec fn opt_file_view(o: Option<TextFile>) -> Option<FileView> {
    match o {
        Some(f) => Some(f@),
        None => None,
    }
}

/// The model of an optional comparison.
pub open spec fn opt_diff_view(o: Option<DiffData>) -> Option<DataView> {
    match o {
        Some(d) => Some(d@),
        None => None,
    }
}

/// The model of an optional string.
pub open spec fn opt_string_view(o: Option<String>) -> Option<Seq<char>> {
    match o {
        Some(s) => Some(s@),
        None => None,
    }
}

impl View for AppState {
    type V = StateView;

    open spec fn view(&self) -> StateView {
        StateView {
            file_1: opt_file_view(self.file_1),
            file_2: opt_file_view(self.file_2),
            diff: opt_diff_view(self.diff_data),
            wrap_lines: self.wrap_lines,
            is_hovering: self.is_hovering,
            is_new_drop_sequence: self.is_new_drop_sequence,
            status: opt_string_view(self.status_message),
            is_os_dark: self.is_os_dark,
        }
    }
}

/// Mathematical model of a command.
pub enum CommandView {
    Nothing,
    MaximizeWindow,
    RestoreWindow,
    ReadFiles(Seq<PathBuf>),
    PickFiles,
    ReadSystemAppearance,
    LoadTheme(bool),
    ZoomIn,
    ZoomOut,
    ResetZoom,
}

impl View for Command {
    type V = CommandView;

    open spec fn view(&self) -> CommandView {
        match self {
            Command::Nothing => CommandView::Nothing,
            Command::MaximizeWindow => CommandView::MaximizeWindow,
            Command::RestoreWindow => CommandView::RestoreWindow,
            Command::ReadFiles(p) => CommandView::ReadFiles(p@),
            Command::PickFiles => CommandView::PickFiles,
            Command::ReadSystemAppearance => CommandView::ReadSystemAppearance,
            Command::LoadTheme(d) => CommandView::LoadTheme(*d),
            Command::ZoomIn => CommandView::ZoomIn,
            Command::ZoomOut => CommandView::ZoomOut,
            Command::ResetZoom => CommandView::ResetZoom,
        }
    }
}

/// The comparison shown for the loaded files: the diff of the first file's
/// content against the second's when both are loaded, else none.
pub open spec fn diff_for(f1: Option<FileView>, f2: Option<FileView>) -> Option<DataView> {
    match (f1, f2) {
        (Some(a), Some(b)) => Some(diff_spec(a.content, b.content)),
        _ => None,
    }
}

/// The comparison shown is the one for the loaded files.
pub open spec fn consistent(s: StateView) -> bool {
    s.diff == diff_for(s.file_1, s.file_2)
}

/// The state with the given files and their comparison.
pub open spec fn with_files(s: StateView, f1: Option<FileView>, f2: Option<FileView>) -> StateView {
    StateView { file_1: f1, file_2: f2, diff: diff_for(f1, f2), ..s }
}

/// The state with no files, no comparison and no status message.
pub open spec fn cleared(s: StateView) -> StateView {
    StateView { file_1: None, file_2: None, diff: None, status: None, ..s }
}

/// The initial state.
pub open spec fn initial_spec(wrap_lines: Option<bool>, is_os_dark: bool) -> StateView {
    StateView {
        file_1: None,
        file_2: None,
        diff: None,
        wrap_lines: match wrap_lines {
            Some(w) => w,
            None => true,
        },
        is_hovering: false,
        is_new_drop_sequence: false,
        status: None,
        is_os_dark,
    }
}

/// What a message does to the state, and the command it yields.
pub open spec fn update_spec(s: StateView, m: Message) -> (StateView, CommandView) {
    match m {
        Message::DockFilesDropped(paths) => {
            let s1 = StateView { is_hovering: false, is_new_drop_sequence: false, ..s };
            if paths@.len() >= 2 {
                (cleared(s1), CommandView::ReadFiles(paths@.take(2)))
            } else {
                (s1, CommandView::ReadFiles(paths@))
            }
        },
        Message::FileHovered => (
            StateView { is_hovering: true, is_new_drop_sequence: true, ..s },
            CommandView::Nothing,
        ),
        Message::FilesHoveredLeft => (
            StateView { is_hovering: false, is_new_drop_sequence: false, ..s },
            CommandView::Nothing,
        ),
        Message::FileDropped(path) => {
            let replace = s.is_new_drop_sequence && s.file_1 is Some && s.file_2 is Some;
            let s1 = if replace {
                StateView { file_1: None, file_2: None, diff: None, ..s }
            } else {
                s
            };
            (
                StateView { is_hovering: false, is_new_drop_sequence: false, ..s1 },
                CommandView::ReadFiles(seq![path]),
            )
        },
        Message::ChooseFiles => (s, CommandView::PickFiles),
        Message::ClearAll => (cleared(s), CommandView::RestoreWindow),
        Message::SwapSides => (with_files(s, s.file_2, s.file_1), CommandView::Nothing),
        Message::ToggleWrapLines(enabled) => (
            StateView { wrap_lines: enabled, ..s },
            CommandView::Nothing,
        ),
        Message::ZoomIn => (s, CommandView::ZoomIn),
        Message::ZoomOut => (s, CommandView::ZoomOut),
        Message::ResetZoom => (s, CommandView::ResetZoom),
        Message::CheckSystemTheme => (s, CommandView::ReadSystemAppearance),
    }
}

/// The model of a read outcome.
pub enum OutcomeView {
    Directory { display: Seq<char> },
    Read { file_name: Option<Seq<char>>, content: Seq<char> },
    Failed { file_name: Option<Seq<char>>, display: Seq<char>, error: Seq<char> },
}

impl View for ReadOutcome {
    type V = OutcomeView;

    open spec fn view(&self) -> OutcomeView {
        match self {
            ReadOutcome::Directory { display } => OutcomeView::Directory { display: display@ },
            ReadOutcome::Read { file_name, content } => OutcomeView::Read {
                file_name: opt_string_view(*file_name),
                content: content@,
            },
            ReadOutcome::Failed { file_name, display, error } => OutcomeView::Failed {
                file_name: opt_string_view(*file_name),
                display: display@,
                error: error@,
            },
        }
    }
}

/// The message shown for a dropped directory.
pub open spec fn directory_message(display: Seq<char>) -> Seq<char> {
    "\""@ + display + "\" is a directory. Please choose plain text files."@
}

/// The message shown for a file that could not be read.
pub open spec fn read_error_message(label: Seq<char>, error: Seq<char>) -> Seq<char> {
    "Could not read \""@ + label + "\" as plain text: "@ + error
}

/// What reporting a read does: a directory or a failure sets the status
/// message; a text file fills the first slot if it is empty, else the second,
/// clears the status message, and the comparison is recomputed.
pub open spec fn load_spec(s: StateView, path: PathBuf, outcome: OutcomeView) -> StateView {
    match outcome {
        OutcomeView::Directory { display } => StateView {
            status: Some(directory_message(display)),
            ..s
        },
        OutcomeView::Read { file_name, content } => {
            let f = FileView {
                path,
                name: match file_name {
                    Some(n) => n,
                    None => "Unknown"@,
                },
                content,
            };
            let s1 = StateView { status: None, ..s };
            if s.file_1 is None {
                with_files(s1, Some(f), s.file_2)
            } else {
                with_files(s1, s.file_1, Some(f))
            }
        },
        OutcomeView::Failed { file_name, display, error } => StateView {
            status: Some(
                read_error_message(
                    match file_name {
                        Some(n) => n,
                        None => display,
                    },
                    error,
                ),
            ),
            ..s
        },
    }
}

/// After reading: maximize the window when a file is loaded.
pub open spec fn files_loaded_spec(s: StateView) -> CommandView {
    if s.file_1 is Some || s.file_2 is Some {
        CommandView::MaximizeWindow
    } else {
        CommandView::Nothing
    }
}

/// What learning the system appearance does: when it changed, it is recorded
/// and the theme for it is loaded.
pub open spec fn appearance_spec(s: StateView, is_dark: bool) -> (StateView, CommandView) {
    if s.is_os_dark != is_dark {
        (StateView { is_os_dark: is_dark, ..s }, CommandView::LoadTheme(is_dark))
    } else {
        (s, CommandView::Nothing)
    }
}

impl AppState {
    /// The state of a new window: no files, lines wrapped unless the setting
    /// says otherwise.
    pub fn new(wrap_lines: Option<bool>, is_os_dark: bool) -> (s: AppState)
        ensures
            s@ == initial_spec(wrap_lines, is_os_dark),
    {
        AppState {
            file_1: None,
            file_2: None,
            diff_data: None,
            wrap_lines: match wrap_lines {
                Some(w) => w,
                None => true,
            },
            is_hovering: false,
            is_new_drop_sequence: false,
            status_message: None,
            is_os_dark,
        }
    }

    /// Recomputes the comparison of the loaded files.
    pub fn update_diff(&mut self)
        ensures
            final(self)@ == with_files(old(self)@, old(self)@.file_1, old(self)@.file_2),
    {
        let d = match (&self.file_1, &self.file_2) {
            (Some(f1), Some(f2)) => Some(compute_diff(f1.content.as_str(), f2.content.as_str())),
            _ => None,
        };
        self.diff_data = d;
    }

    /// Reacts to a message.
    pub fn update(&mut self, message: Message) -> (c: Command)
        ensures
            (final(self)@, c@) == update_spec(old(self)@, message),
    {
        match message {
            Message::DockFilesDropped(paths) => {
                self.is_hovering = false;
                self.is_new_drop_sequence = false;
                let ghost all = paths@;
                if paths.len() >= 2 {
                    self.file_1 = None;
                    self.file_2 = None;
                    self.diff_data = None;
                    self.status_message = None;
                    let mut paths = paths;
                    paths.truncate(2);
                    assert(paths@ =~= all.take(2));
                    Command::ReadFiles(paths)
                } else {
                    Command::ReadFiles(paths)
                }
            },
            Message::FileHovered => {
                self.is_hovering = true;
                self.is_new_drop_sequence = true;
                Command::Nothing
            },
            Message::FilesHoveredLeft => {
                self.is_hovering = false;
                self.is_new_drop_sequence = false;
                Command::Nothing
            },
            Message::FileDropped(path) => {
                self.is_hovering = false;
                if self.is_new_drop_sequence && self.file_1.is_some() && self.file_2.is_some() {
                    self.file_1 = None;
                    self.file_2 = None;
                    self.diff_data = None;
                }
                self.is_new_drop_sequence = false;
                let paths = vec![path];
                assert(paths@ =~= seq![path]);
                Command::ReadFiles(paths)
            },
            Message::ChooseFiles => Command::PickFiles,
            Message::ClearAll => {
                self.file_1 = None;
                self.file_2 = None;
                self.diff_data = None;
                self.status_message = None;
                Command::RestoreWindow
            },
            Message::SwapSides => {
                let f1 = self.file_1.take();
                let f2 = self.file_2.take();
                self.file_1 = f2;
                self.file_2 = f1;
                self.update_diff();
                Command::Nothing
            },
            Message::ToggleWrapLines(enabled) => {
                self.wrap_lines = enabled;
                Command::Nothing
            },
            Message::ZoomIn => Command::ZoomIn,
            Message::ZoomOut => Command::ZoomOut,
            Message::ResetZoom => Command::ResetZoom,
            Message::CheckSystemTheme => Command::ReadSystemAppearance,
        }
    }

    /// Takes in what reading `path` gave.
    pub fn load_file(&mut self, path: PathBuf, outcome: ReadOutcome)
        ensures
            final(self)@ == load_spec(old(self)@, path, outcome@),
    {
        match outcome {
            ReadOutcome::Directory { display } => {
                let mut msg = String::from_str("\"");
                msg.append(display.as_str());
                msg.append("\" is a directory. Please choose plain text files.");
                self.status_message = Some(msg);
            },
            ReadOutcome::Read { file_name, content } => {
                let name = match file_name {
                    Some(n) => n,
                    None => String::from_str("Unknown"),
                };
                let text_file = TextFile { path, name, content };
                if self.file_1.is_none() {
                    self.file_1 = Some(text_file);
                } else {
                    self.file_2 = Some(text_file);
                }
                self.status_message = None;
                self.update_diff();
            },
            ReadOutcome::Failed { file_name, display, error } => {
                let label = match file_name {
                    Some(n) => n,
                    None => display,
                };
                let mut msg = String::from_str("Could not read \"");
                msg.append(label.as_str());
                msg.append("\" as plain text: ");
                msg.append(error.as_str());
                self.status_message = Some(msg);
            },
        }
    }

    /// After the files of a `ReadFiles` or `PickFiles` command are reported.
    pub fn files_loaded(&self) -> (c: Command)
        ensures
            c@ == files_loaded_spec(self@),
    {
        if self.file_1.is_some() || self.file_2.is_some() {
            Command::MaximizeWindow
        } else {
            Command::Nothing
        }
    }

    /// Takes in whether the system is in dark mode.
    pub fn system_appearance(&mut self, is_dark: bool) -> (c: Command)
        ensures
            (final(self)@, c@) == appearance_spec(old(self)@, is_dark),
    {
        if self.is_os_dark != is_dark {
            self.is_os_dark = is_dark;
            Command::LoadTheme(is_dark)
        } else {
            Command::Nothing
        }
    }
}

/// The comparison shown is always the one for the loaded files: a new
/// window starts so, and every message, report of a read and report of the
/// system appearance keeps it so.
pub proof fn lemma_consistency(
    s: StateView,
    m: Message,
    path: PathBuf,
    outcome: OutcomeView,
    is_dark: bool,
    wrap_lines: Option<bool>,
)
    requires
        consistent(s),
    ensures
        consistent(initial_spec(wrap_lines, is_dark)),
        consistent(update_spec(s, m).0),
        consistent(load_spec(s, path, outcome)),
        consistent(appearance_spec(s, is_dark).0),
{
}

/// Swapping sides twice gives back the state before.
pub proof fn lemma_swap_twice(s: StateView)
    requires
        consistent(s),
    ensures
        update_spec(update_spec(s, Message::SwapSides).0, Message::SwapSides).0 == s,
{
}

/// With both files loaded, a file dropped after hovering starts a new pair:
/// once read it is the first file, and no second file is loaded.
pub proof fn lemma_new_drop_sequence(
    s: StateView,
    path: PathBuf,
    file_name: Option<Seq<char>>,
    content: Seq<char>,
)
    requires
        s.file_1 is Some,
        s.file_2 is Some,
    ensures
        ({
            let s1 = update_spec(s, Message::FileHovered).0;
            let (s2, c) = update_spec(s1, Message::FileDropped(path));
            let s3 = load_spec(s2, path, OutcomeView::Read { file_name, content });
            &&& c == CommandView::ReadFiles(seq![path])
            &&& s3.file_1 matches Some(f) && f.path == path && f.content == content
            &&& s3.file_2 is None
            &&& s3.diff is None
            &&& !s3.is_hovering
            &&& !s3.is_new_drop_sequence
        }),
{
}

/// Files read one after another fill the first slot, then the second; a
/// further file replaces the second and leaves the first.
pub proof fn lemma_fill_slots(
    s: StateView,
    p1: PathBuf,
    c1: Seq<char>,
    p2: PathBuf,
    c2: Seq<char>,
    p3: PathBuf,
    c3: Seq<char>,
)
    requires
        s.file_1 is None,
        s.file_2 is None,
    ensures
        ({
            let s1 = load_spec(s, p1, OutcomeView::Read { file_name: None, content: c1 });
            let s2 = load_spec(s1, p2, OutcomeView::Read { file_name: None, content: c2 });
            let s3 = load_spec(s2, p3, OutcomeView::Read { file_name: None, content: c3 });
            &&& s2.file_1 matches Some(f) && f.path == p1 && f.content == c1
            &&& s2.file_2 matches Some(f) && f.path == p2 && f.content == c2
            &&& s2.diff == diff_for(s2.file_1, s2.file_2)
            &&& s3.file_1 == s2.file_1
            &&& s3.file_2 matches Some(f) && f.path == p3 && f.content == c3
        }),
{
}

/// The message of a key pressed with the command modifier (⌘ on macOS,
/// Ctrl elsewhere): `+` or `=` zooms in, `-` or `_` zooms out, `0` resets
/// the zoom. Without the modifier, or for any other key, none.
pub open spec fn shortcut_spec(command: bool, key: Seq<char>) -> Option<Message> {
    if command && key.len() == 1 {
        let c = key[0];
        if c == '+' || c == '=' {
            Some(Message::ZoomIn)
        } else if c == '-' || c == '_' {
            Some(Message::ZoomOut)
        } else if c == '0' {
            Some(Message::ResetZoom)
        } else {
            None
        }
    } else {
        None
    }
}

/// The message of a key press: `command` tells whether the command modifier
/// is held, `key` is the character the key produced.
pub fn shortcut(command: bool, key: &str) -> (m: Option<Message>)
    ensures
        m == shortcut_spec(command, key@),
{
    if !command {
        return None;
    }
    let cs = str_chars(key);
    if cs.len() != 1 {
        return None;
    }
    let c = cs[0];
    if c == '+' || c == '=' {
        Some(Message::ZoomIn)
    } else if c == '-' || c == '_' {
        Some(Message::ZoomOut)
    } else if c == '0' {
        Some(Message::ResetZoom)
    } else {
        None
    }
}

/// What to do with a batch of paths the Dock hands over.
#[derive(Debug, Clone, Copy, PartialEq, Eq, Structural)]
pub enum DockAction {
    /// The batch is empty: nothing to do.
    Ignore,
    /// No window listens yet: keep the batch until one subscribes.
    Queue,
    /// Send the batch to every listener, dropping those that are closed.
    Broadcast,
}

/// The action for a batch of `batch_len` paths when `listeners` windows
/// listen.
pub open spec fn dock_action_spec(batch_len: nat, listeners: nat) -> DockAction {
    if batch_len == 0 {
        DockAction::Ignore
    } else if listeners == 0 {
        DockAction::Queue
    } else {
        DockAction::Broadcast
    }
}

/// Decides what to do with a batch of `batch_len` paths from the Dock when
/// `listeners` windows listen.
pub fn dock_action(batch_len: usize, listeners: usize) -> (a: DockAction)
    ensures
        a == dock_action_spec(batch_len as nat, listeners as nat),
{
    if batch_len == 0 {
        DockAction::Ignore
    } else if listeners == 0 {
        DockAction::Queue
    } else {
        DockAction::Broadcast
    }
}

} // verus!
