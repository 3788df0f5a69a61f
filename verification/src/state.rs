//! Application state and the key-dispatch step of the render loop: one
//! timer, one task list with a cursor, the display mode, and the
//! help-overlay flag, all mutated only here.

use vstd::prelude::*;
use vstd::string::StrSliceExecFns;

use crate::stateful_list::{spec_next, spec_previous, StatefulList};
use crate::task::{Task, TaskView};
use crate::timer::{PomodoroMode, Timer, TimerStatus};

verus! {

/// The recognized configuration: timer lengths in minutes, the task-file
/// path, and whether to start in the distraction-free display mode.
pub struct Args {
    pub pomodoro_time: u64,
    pub short_break_time: u64,
    pub long_break_time: u64,
    pub task_file_path: String,
    pub focus_mode: String,
}

impl Args {
    /// The configured minute counts must survive conversion to seconds.
    pub open spec fn wf(self) -> bool {
        &&& self.pomodoro_time * 60 <= u64::MAX
        &&& self.short_break_time * 60 <= u64::MAX
        &&& self.long_break_time * 60 <= u64::MAX
    }
}

/// The configured length, in minutes, that a fresh timer in `mode` gets.
pub open spec fn spec_mode_minutes(mode: PomodoroMode, arguments: Args) -> u64 {
    match mode {
        PomodoroMode::Pomodoro => arguments.pomodoro_time,
        PomodoroMode::ShortBreak => arguments.short_break_time,
        PomodoroMode::LongBreak => arguments.long_break_time,
    }
}

#[derive(Clone, Copy, PartialEq, Eq, Structural, Debug)]
pub enum StudyMode {
    Normal,
    Zen,
}

/// A key event, reduced to what the dispatch table distinguishes.
#[derive(Clone, Copy, PartialEq, Eq, Structural, Debug)]
pub enum KeyInput {
    Char(char),
    Up,
    Down,
    Enter,
    Other,
}

/// One entry of the dispatch table.
#[derive(Clone, Copy, PartialEq, Eq, Structural, Debug)]
pub enum Action {
    TogglePause,
    ResetTimer,
    SwitchMode(PomodoroMode),
    ToggleStudyMode,
    ListPrevious,
    ListNext,
    ToggleTaskComplete,
    IncrementPomodoro,
    DecrementPomodoro,
    SaveTasks,
    ToggleHelp,
    Quit,
    NoOp,
}

/// What the render loop does after a dispatch: carry on, persist the task
/// list, or end the session.
#[derive(Clone, Copy, PartialEq, Eq, Structural, Debug)]
pub enum Control {
    Continue,
    Save,
    Quit,
}

/// The key binding table.
pub open spec fn spec_action_for_key(key: KeyInput) -> Action {
    match key {
        KeyInput::Char(' ') => Action::TogglePause,
        KeyInput::Char('r') => Action::ResetTimer,
        KeyInput::Char('f') => Action::ToggleStudyMode,
        KeyInput::Char('k') => Action::ListPrevious,
        KeyInput::Up => Action::ListPrevious,
        KeyInput::Char('j') => Action::ListNext,
        KeyInput::Down => Action::ListNext,
        KeyInput::Enter => Action::ToggleTaskComplete,
        KeyInput::Char('+') => Action::IncrementPomodoro,
        KeyInput::Char('-') => Action::DecrementPomodoro,
        KeyInput::Char('S') => Action::SaveTasks,
        KeyInput::Char('p') => Action::SwitchMode(PomodoroMode::Pomodoro),
        KeyInput::Char('s') => Action::SwitchMode(PomodoroMode::ShortBreak),
        KeyInput::Char('l') => Action::SwitchMode(PomodoroMode::LongBreak),
        KeyInput::Char('?') => Action::ToggleHelp,
        KeyInput::Char('q') => Action::Quit,
        _ => Action::NoOp,
    }
}

/// Map a key event to its table entry.
pub fn action_for_key(key: KeyInput) -> (a: Action)
    ensures
        a == spec_action_for_key(key),
{
    match key {
        KeyInput::Char(' ') => Action::TogglePause,
        KeyInput::Char('r') => Action::ResetTimer,
        KeyInput::Char('f') => Action::ToggleStudyMode,
        KeyInput::Char('k') => Action::ListPrevious,
        KeyInput::Up => Action::ListPrevious,
        KeyInput::Char('j') => Action::ListNext,
        KeyInput::Down => Action::ListNext,
        KeyInput::Enter => Action::ToggleTaskComplete,
        KeyInput::Char('+') => Action::IncrementPomodoro,
        KeyInput::Char('-') => Action::DecrementPomodoro,
        KeyInput::Char('S') => Action::SaveTasks,
        KeyInput::Char('p') => Action::SwitchMode(PomodoroMode::Pomodoro),
        KeyInput::Char('s') => Action::SwitchMode(PomodoroMode::ShortBreak),
        KeyInput::Char('l') => Action::SwitchMode(PomodoroMode::LongBreak),
        KeyInput::Char('?') => Action::ToggleHelp,
        KeyInput::Char('q') => Action::Quit,
        _ => Action::NoOp,
    }
}

/// Whether a configuration string asks for the distraction-free mode: any
/// capitalization of `true` does, anything else does not.
pub open spec fn spec_is_true_flag(s: Seq<char>) -> bool {
    &&& s.len() == 4
    &&& (s[0] == 't' || s[0] == 'T')
    &&& (s[1] == 'r' || s[1] == 'R')
    &&& (s[2] == 'u' || s[2] == 'U')
    &&& (s[3] == 'e' || s[3] == 'E')
}

fn is_true_flag(s: &str) -> (r: bool)
    ensures
        r == spec_is_true_flag(s@),
{
    if s.unicode_len() != 4 {
        return false;
    }
    let c0 = s.get_char(0);
    let c1 = s.get_char(1);
    let c2 = s.get_char(2);
    let c3 = s.get_char(3);
    (c0 == 't' || c0 == 'T') && (c1 == 'r' || c1 == 'R') && (c2 == 'u' || c2 == 'U') && (c3 == 'e'
        || c3 == 'E')
}

pub struct AppState {
    pub timer: Timer,
    pub study_mode: StudyMode,
    pub tasks: StatefulList<Task>,
    pub show_help_menu: bool,
}

impl AppState {
    pub open spec fn wf(self) -> bool {
        &&& self.timer.wf()
        &&& self.tasks.wf()
    }

    /// The state a session starts from: a paused full-length pomodoro
    /// timer, the given tasks with no selection, the configured display
    /// mode, and the help overlay hidden.
    pub fn new(arguments: &Args, tasks: Vec<Task>) -> (s: AppState)
        requires
            arguments.wf(),
        ensures
            s.timer.pomodoro_mode == PomodoroMode::Pomodoro,
            s.timer.status == TimerStatus::Paused,
            s.timer.total_time == arguments.pomodoro_time * 60,
            s.timer.time_remaining == s.timer.total_time,
            s.timer.percentage == 0,
            s.study_mode == if spec_is_true_flag(arguments.focus_mode@) {
                StudyMode::Zen
            } else {
                StudyMode::Normal
            },
            s.tasks.items == tasks,
            s.tasks.state is None,
            s.show_help_menu == false,
            s.wf(),
    {
        AppState {
            timer: Timer::new(arguments.pomodoro_time * 60, PomodoroMode::Pomodoro),
            study_mode: if is_true_flag(arguments.focus_mode.as_str()) {
                StudyMode::Zen
            } else {
                StudyMode::Normal
            },
            tasks: StatefulList::with_items(tasks),
            show_help_menu: false,
        }
    }

    /// One tick boundary of the render loop: while the timer is playing and
    /// time is left, count a second down; otherwise leave everything alone.
    /// A paused or expired timer accumulates no tick debt.
    pub fn on_tick(&mut self)
        requires
            old(self).wf(),
        ensures
            final(self).wf(),
            final(self).study_mode == old(self).study_mode,
            final(self).tasks == old(self).tasks,
            final(self).show_help_menu == old(self).show_help_menu,
            old(self).timer.status == TimerStatus::Playing && old(self).timer.time_remaining != 0
                ==> final(self).timer.time_remaining == old(self).timer.time_remaining - 1,
            old(self).timer.status != TimerStatus::Playing || old(self).timer.time_remaining == 0
                ==> final(self).timer == old(self).timer,
            final(self).timer.status == old(self).timer.status,
            final(self).timer.total_time == old(self).timer.total_time,
            final(self).timer.pomodoro_mode == old(self).timer.pomodoro_mode,
    {
        match self.timer.status {
            TimerStatus::Playing => {
                if self.timer.time_remaining != 0 {
                    self.timer.tick();
                }
            },
            TimerStatus::Paused => {},
        }
    }

    /// Apply one dispatch-table action. Returns whether the loop should
    /// carry on, save the task list, or quit; every other effect is on the
    /// state itself, exactly as the table prescribes.
    pub fn dispatch(&mut self, action: Action, arguments: &Args) -> (c: Control)
        requires
            old(self).wf(),
            arguments.wf(),
        ensures
            final(self).wf(),
            c == (match action {
                Action::SaveTasks => Control::Save,
                Action::Quit => Control::Quit,
                _ => Control::Continue,
            }),
            match action {
                Action::TogglePause => {
                    &&& final(self).timer == (Timer {
                        status: if old(self).timer.status == TimerStatus::Paused {
                            TimerStatus::Playing
                        } else {
                            TimerStatus::Paused
                        },
                        ..old(self).timer
                    })
                    &&& unchanged_but_timer(*old(self), *final(self))
                },
                Action::ResetTimer => {
                    &&& fresh_timer_for(
                        final(self).timer,
                        old(self).timer.pomodoro_mode,
                        *arguments,
                    )
                    &&& unchanged_but_timer(*old(self), *final(self))
                },
                Action::SwitchMode(mode) => {
                    &&& fresh_timer_for(final(self).timer, mode, *arguments)
                    &&& unchanged_but_timer(*old(self), *final(self))
                },
                Action::ToggleStudyMode => {
                    &&& final(self).study_mode == (if old(self).study_mode == StudyMode::Normal {
                        StudyMode::Zen
                    } else {
                        StudyMode::Normal
                    })
                    &&& final(self).timer == old(self).timer
                    &&& final(self).tasks == old(self).tasks
                    &&& final(self).show_help_menu == old(self).show_help_menu
                },
                Action::ListPrevious => {
                    &&& final(self).tasks.items == old(self).tasks.items
                    &&& final(self).tasks.state == spec_previous(
                        old(self).tasks.items@.len(),
                        old(self).tasks.state,
                    )
                    &&& unchanged_but_tasks(*old(self), *final(self))
                },
                Action::ListNext => {
                    &&& final(self).tasks.items == old(self).tasks.items
                    &&& final(self).tasks.state == spec_next(
                        old(self).tasks.items@.len(),
                        old(self).tasks.state,
                    )
                    &&& unchanged_but_tasks(*old(self), *final(self))
                },
                Action::ToggleTaskComplete => {
                    &&& selected_task_updated(
                        *old(self),
                        *final(self),
                        |t: TaskView| TaskView { completed: !t.completed, ..t },
                    )
                    &&& unchanged_but_tasks(*old(self), *final(self))
                },
                Action::IncrementPomodoro => {
                    &&& selected_task_updated(
                        *old(self),
                        *final(self),
                        |t: TaskView| TaskView {
                            pomodoros_completed: if t.pomodoros_completed < u16::MAX {
                                (t.pomodoros_completed + 1) as u16
                            } else {
                                t.pomodoros_completed
                            },
                            ..t
                        },
                    )
                    &&& unchanged_but_tasks(*old(self), *final(self))
                },
                Action::DecrementPomodoro => {
                    &&& selected_task_updated(
                        *old(self),
                        *final(self),
                        |t: TaskView| TaskView {
                            pomodoros_completed: if t.pomodoros_completed > 0 {
                                (t.pomodoros_completed - 1) as u16
                            } else {
                                0u16
                            },
                            ..t
                        },
                    )
                    &&& unchanged_but_tasks(*old(self), *final(self))
                },
                Action::ToggleHelp => {
                    &&& final(self).show_help_menu == !old(self).show_help_menu
                    &&& final(self).timer == old(self).timer
                    &&& final(self).study_mode == old(self).study_mode
                    &&& final(self).tasks == old(self).tasks
                },
                Action::SaveTasks => *final(self) == *old(self),
                Action::Quit => *final(self) == *old(self),
                Action::NoOp => *final(self) == *old(self),
            },
    {
        match action {
            Action::TogglePause => {
                match self.timer.status {
                    TimerStatus::Paused => self.timer.unpause(),
                    TimerStatus::Playing => self.timer.pause(),
                }
                Control::Continue
            },
            Action::ResetTimer => {
                let minutes = match self.timer.pomodoro_mode {
                    PomodoroMode::Pomodoro => arguments.pomodoro_time,
                    PomodoroMode::ShortBreak => arguments.short_break_time,
                    PomodoroMode::LongBreak => arguments.long_break_time,
                };
                self.timer = Timer::new(minutes * 60, self.timer.pomodoro_mode);
                Control::Continue
            },
            Action::SwitchMode(mode) => {
                let minutes = match mode {
                    PomodoroMode::Pomodoro => arguments.pomodoro_time,
                    PomodoroMode::ShortBreak => arguments.short_break_time,
                    PomodoroMode::LongBreak => arguments.long_break_time,
                };
                self.timer = Timer::new(minutes * 60, mode);
                Control::Continue
            },
            Action::ToggleStudyMode => {
                self.study_mode = match self.study_mode {
                    StudyMode::Normal => StudyMode::Zen,
                    StudyMode::Zen => StudyMode::Normal,
                };
                Control::Continue
            },
            Action::ListPrevious => {
                self.tasks.previous();
                Control::Continue
            },
            Action::ListNext => {
                self.tasks.next();
                Control::Continue
            },
            Action::ToggleTaskComplete => {
                if let Some(selected) = self.tasks.selected() {
                    self.tasks.items[selected].complete_task();
                }
                Control::Continue
            },
            Action::IncrementPomodoro => {
                if let Some(selected) = self.tasks.selected() {
                    if self.tasks.items[selected].pomodoros_completed < u16::MAX {
                        self.tasks.items[selected].complete_pomodoro();
                    }
                }
                Control::Continue
            },
            Action::DecrementPomodoro => {
                if let Some(selected) = self.tasks.selected() {
                    self.tasks.items[selected].negate_pomodoro();
                }
                Control::Continue
            },
            Action::ToggleHelp => {
                self.show_help_menu = !self.show_help_menu;
                Control::Continue
            },
            Action::SaveTasks => Control::Save,
            Action::Quit => Control::Quit,
            Action::NoOp => Control::Continue,
        }
    }
}

/// A timer just rebuilt for `mode` from the configured minutes: paused,
/// full, zero percent.
pub open spec fn fresh_timer_for(t: Timer, mode: PomodoroMode, arguments: Args) -> bool {
    &&& t.status == TimerStatus::Paused
    &&& t.total_time == spec_mode_minutes(mode, arguments) * 60
    &&& t.time_remaining == t.total_time
    &&& t.percentage == 0
    &&& t.pomodoro_mode == mode
    &&& t.ticked == false
}

/// Everything except the timer kept as it was.
pub open spec fn unchanged_but_timer(pre: AppState, post: AppState) -> bool {
    &&& post.study_mode == pre.study_mode
    &&& post.tasks == pre.tasks
    &&& post.show_help_menu == pre.show_help_menu
}

/// Everything except the task list kept as it was.
pub open spec fn unchanged_but_tasks(pre: AppState, post: AppState) -> bool {
    &&& post.timer == pre.timer
    &&& post.study_mode == pre.study_mode
    &&& post.show_help_menu == pre.show_help_menu
}

/// With a task selected, that task's view went through `f` and every other
/// task is untouched; with none selected, nothing changed.
pub open spec fn selected_task_updated(
    pre: AppState,
    post: AppState,
    f: spec_fn(TaskView) -> TaskView,
) -> bool {
    &&& post.tasks.state == pre.tasks.state
    &&& post.tasks.items@.len() == pre.tasks.items@.len()
    &&& match pre.tasks.state {
        Some(i) => {
            &&& post.tasks.items@[i as int]@ == f(pre.tasks.items@[i as int]@)
            &&& forall|j: int|
                0 <= j < pre.tasks.items@.len() && j != i ==> post.tasks.items@[j]
                    == pre.tasks.items@[j]
        },
        None => post.tasks == pre.tasks,
    }
}

/// The input-poll budget for the rest of a frame: the tick interval less
/// the time already elapsed, floored at zero. It never exceeds the tick
/// interval, so a redraw is at most one interval away.
pub fn poll_timeout_ms(tick_interval_ms: u64, elapsed_ms: u64) -> (timeout: u64)
    ensures
        timeout == if elapsed_ms >= tick_interval_ms {
            0u64
        } else {
            (tick_interval_ms - elapsed_ms) as u64
        },
        timeout <= tick_interval_ms,
{
    if elapsed_ms >= tick_interval_ms {
        0
    } else {
        tick_interval_ms - elapsed_ms
    }
}

} // verus!
