//! A tracked task: a title, a pomodoro target, a completion counter that
//! never goes below zero, and a done flag.

use vstd::prelude::*;
use vstd::string::StringExecFns;

use crate::decimal::{spec_dec, u64_to_dec};

verus! {

pub struct Task {
    pub title: String,
    pub pomodoros_expected: u16,
    pub pomodoros_completed: u16,
    pub completed: bool,
}

/// The mathematical value of a task: the title as its character sequence,
/// the counters and the flag as they are.
#[verifier::ext_equal]
pub ghost struct TaskView {
    pub title: Seq<char>,
    pub pomodoros_expected: u16,
    pub pomodoros_completed: u16,
    pub completed: bool,
}

impl View for Task {
    type V = TaskView;

    open spec fn view(&self) -> TaskView {
        TaskView {
            title: self.title@,
            pomodoros_expected: self.pomodoros_expected,
            pomodoros_completed: self.pomodoros_completed,
            completed: self.completed,
        }
    }
}

/// The views of a sequence of tasks.
pub open spec fn task_views(ts: Seq<Task>) -> Seq<TaskView> {
    ts.map_values(|t: Task| t@)
}

/// The one-line display form of a task:
/// `[x] | completed/expected - title` (a space instead of the `x` while the
/// task is open).
pub open spec fn spec_list_print(t: TaskView) -> Seq<char> {
    seq!['['] + (if t.completed {
        seq!['x']
    } else {
        seq![' ']
    }) + seq![']', ' ', '|', ' '] + spec_dec(t.pomodoros_completed as nat) + seq!['/'] + spec_dec(
        t.pomodoros_expected as nat,
    ) + seq![' ', '-', ' '] + t.title
}

impl Task {
    pub fn list_print(&self) -> (s: String)
        ensures
            s@ == spec_list_print(self@),
    {
        let mut s = if self.completed {
            proof {
                reveal_strlit("[x] | ");
                assert("[x] | "@ =~= seq!['['] + seq!['x'] + seq![']', ' ', '|', ' ']);
            }
            "[x] | ".to_owned()
        } else {
            proof {
                reveal_strlit("[ ] | ");
                assert("[ ] | "@ =~= seq!['['] + seq![' '] + seq![']', ' ', '|', ' ']);
            }
            "[ ] | ".to_owned()
        };
        let done = u64_to_dec(self.pomodoros_completed as u64);
        s.append(done.as_str());
        proof {
            reveal_strlit("/");
            assert("/"@ =~= seq!['/']);
        }
        s.append("/");
        let want = u64_to_dec(self.pomodoros_expected as u64);
        s.append(want.as_str());
        proof {
            reveal_strlit(" - ");
            assert(" - "@ =~= seq![' ', '-', ' ']);
        }
        s.append(" - ");
        s.append(self.title.as_str());
        proof {
            assert(s@ =~= spec_list_print(self@));
        }
        s
    }

    /// Flip the done flag.
    pub fn complete_task(&mut self)
        ensures
            *final(self) == (Task { completed: !old(self).completed, ..*old(self) }),
    {
        self.completed = !self.completed;
    }

    /// Count one more finished pomodoro. The counter must have room; the
    /// dispatcher leaves a full counter alone.
    pub fn complete_pomodoro(&mut self)
        requires
            old(self).pomodoros_completed < u16::MAX,
        ensures
            *final(self) == (Task {
                pomodoros_completed: (old(self).pomodoros_completed + 1) as u16,
                ..*old(self)
            }),
    {
        self.pomodoros_completed = self.pomodoros_completed + 1;
    }

    /// Take one finished pomodoro back; at zero this is a no-op, never an
    /// underflow.
    pub fn negate_pomodoro(&mut self)
        ensures
            *final(self) == (Task {
                pomodoros_completed: if old(self).pomodoros_completed > 0 {
                    (old(self).pomodoros_completed - 1) as u16
                } else {
                    0u16
                },
                ..*old(self)
            }),
    {
        if self.pomodoros_completed > 0 {
            self.pomodoros_completed = self.pomodoros_completed - 1;
        }
    }
}

} // verus!
