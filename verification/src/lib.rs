//! Core of a terminal pomodoro timer with a task tracker: the countdown
//! timer state machine, the selectable task list, the flat task-file
//! format, and the key-dispatch step of the tick-driven render loop.
//!
//! Everything here is pure logic over plain values. The surrounding
//! program owns the terminal, the clock and the task file: it polls keys,
//! feeds them to the dispatcher, advances the timer once per elapsed tick,
//! and reads the state back to draw each frame.

pub mod decimal;
pub mod state;
pub mod stateful_list;
pub mod task;
pub mod taskfile;
pub mod timer;
