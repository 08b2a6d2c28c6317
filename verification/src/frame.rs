//! The decisions of the frame loop: how long to wait for input in a frame,
//! and what an input command does to the editor.

use crate::editor::Core;
use crate::scroll::Viewport;
use crate::state::{
    lemma_down_never_scrolls_up, lemma_operations_keep_cursor_inside, lemma_scrolled_anchor,
    EditorState,
};
use vstd::prelude::*;

verus! {

/// The length of a frame at sixty frames a second, in nanoseconds.
pub const FRAME_NANOS: u64 = 16_666_666;

/// How the loop takes the next input event.
#[derive(Debug, Clone, Copy, PartialEq, Eq, Structural)]
pub enum Poll {
    /// Take an event only if one is queued already.
    Immediate,
    /// Wait for an event for at most this many nanoseconds.
    Wait(u64),
}

/// The poll for a frame of `frame` nanoseconds of which `spent` have passed:
/// wait for what is left of the frame, and do not wait at all once the frame
/// is overdrawn.
pub open spec fn poll_of(spent: u64, frame: u64) -> Poll {
    if spent > frame {
        Poll::Immediate
    } else {
        Poll::Wait((frame - spent) as u64)
    }
}

/// Decides how to take the next input event when `spent` nanoseconds of a
/// frame of `frame` nanoseconds have passed.
pub fn poll_budget(spent: u64, frame: u64) -> (poll: Poll)
    ensures
        poll == poll_of(spent, frame),
{
    if spent > frame {
        Poll::Immediate
    } else {
        Poll::Wait(frame - spent)
    }
}

/// An input event as the editor understands it.
#[derive(Debug, Clone, Copy)]
pub enum Command {
    Left,
    Right,
    Up,
    Down,
    Insert(char),
    OpenLine,
    Replace(char),
    Backspace,
    Quit,
}

impl EditorState {
    /// The state after `command`. `Quit` changes nothing.
    pub open spec fn apply(self, command: Command, view: Viewport) -> EditorState {
        match command {
            Command::Left => self.cursor_left(view),
            Command::Right => self.cursor_right(view),
            Command::Up => self.cursor_up(view),
            Command::Down => self.cursor_down(view),
            Command::Insert(c) => self.insert(c, view),
            Command::OpenLine => self.insert_newline(),
            Command::Replace(c) => self.replace(c),
            Command::Backspace => self.backspace(view),
            Command::Quit => self,
        }
    }

    /// The state after all of `commands`, in order.
    pub open spec fn run(self, commands: Seq<Command>, view: Viewport) -> EditorState
        decreases commands.len(),
    {
        if commands.len() == 0 {
            self
        } else {
            self.run(commands.drop_last(), view).apply(commands.last(), view)
        }
    }
}

impl Core {
    /// Applies `command` to the editor and says whether the loop is to end.
    pub fn apply(&mut self, command: Command, view: Viewport) -> (quit: bool)
        requires
            old(self).wf(),
        ensures
            final(self)@ == old(self)@.apply(command, view),
            final(self).wf(),
            quit <==> command is Quit,
    {
        match command {
            Command::Left => self.cursor_left(view),
            Command::Right => self.cursor_right(view),
            Command::Up => self.cursor_up(view),
            Command::Down => self.cursor_down(view),
            Command::Insert(c) => self.insert(c, view),
            Command::OpenLine => self.insert_newline(),
            Command::Replace(c) => self.replace(c),
            Command::Backspace => self.backspase(view),
            Command::Quit => {
                return true;
            },
        }
        false
    }
}

/// After any sequence of commands the buffer holds at least one line and the
/// cursor stands inside it.
pub proof fn lemma_run_keeps_cursor_inside(s: EditorState, commands: Seq<Command>, view: Viewport)
    requires
        s.wf(),
    ensures
        s.run(commands, view).wf(),
    decreases commands.len(),
{
    if commands.len() > 0 {
        lemma_run_keeps_cursor_inside(s, commands.drop_last(), view);
        let before = s.run(commands.drop_last(), view);
        match commands.last() {
            Command::Insert(c) => lemma_operations_keep_cursor_inside(before, c, view),
            Command::Replace(c) => lemma_operations_keep_cursor_inside(before, c, view),
            _ => lemma_operations_keep_cursor_inside(before, ' ', view),
        }
    }
}

/// A command leaves the scroll anchor at or above the cursor if it stood
/// there before and the line that the cursor comes to stand in fits into the
/// text area on its own.
pub proof fn lemma_apply_keeps_anchor(s: EditorState, command: Command, view: Viewport)
    requires
        s.wf(),
        s.anchored(),
        s.apply(command, view).cursor_line_fits(view),
    ensures
        s.apply(command, view).anchored(),
{
    let after = s.apply(command, view);
    match command {
        Command::OpenLine | Command::Replace(_) | Command::Quit => {},
        _ => {
            let moved = EditorState { top: s.top, ..after };
            assert(after == moved.scrolled(view));
            lemma_scrolled_anchor(moved, view);
        },
    }
}

/// After any sequence of commands the scroll anchor stands at or above the
/// cursor, if it stood there at the start and the cursor never came to stand
/// in a line too long for the text area.
pub proof fn lemma_run_keeps_anchor(s: EditorState, commands: Seq<Command>, view: Viewport)
    requires
        s.wf(),
        s.anchored(),
        forall|k: int|
            0 < k <= commands.len() ==> (#[trigger] s.run(commands.take(k), view)).cursor_line_fits(
                view,
            ),
    ensures
        s.run(commands, view).anchored(),
    decreases commands.len(),
{
    if commands.len() > 0 {
        let rest = commands.drop_last();
        assert forall|k: int| 0 < k <= rest.len() implies (#[trigger] s.run(
            rest.take(k),
            view,
        )).cursor_line_fits(view) by {
            assert(rest.take(k) =~= commands.take(k));
        }
        lemma_run_keeps_anchor(s, rest, view);
        lemma_run_keeps_cursor_inside(s, rest, view);
        assert(commands.take(commands.len() as int) =~= commands);
        assert(s.run(commands.take(commands.len() as int), view).cursor_line_fits(view));
        lemma_apply_keeps_anchor(s.run(rest, view), commands.last(), view);
    }
}

/// The cursor moved down `n` times.
pub open spec fn downs(n: nat) -> Seq<Command> {
    Seq::new(n, |i: int| Command::Down)
}

/// While the cursor moves down through the buffer, the scroll anchor never
/// moves up, if it stood at or above the cursor at the start and the cursor
/// never came to stand in a line too long for the text area.
pub proof fn lemma_moving_down_never_scrolls_up(s: EditorState, n: nat, view: Viewport)
    requires
        s.wf(),
        s.anchored(),
        forall|k: nat| 0 < k <= n ==> (#[trigger] s.run(downs(k), view)).cursor_line_fits(view),
    ensures
        s.run(downs(n), view).wf(),
        s.run(downs(n), view).anchored(),
        forall|m: nat| m <= n ==> (#[trigger] s.run(downs(m), view)).top <= s.run(downs(n), view).top,
        forall|m: nat| m <= n ==> (#[trigger] s.run(downs(m), view)).row <= s.run(downs(n), view).row,
    decreases n,
{
    if n > 0 {
        let fewer = (n - 1) as nat;
        lemma_moving_down_never_scrolls_up(s, fewer, view);
        assert(downs(n).drop_last() =~= downs(fewer));
        let before = s.run(downs(fewer), view);
        assert(s.run(downs(n), view) == before.cursor_down(view));
        assert(s.run(downs(n), view).cursor_line_fits(view));
        lemma_down_never_scrolls_up(before, view);
        lemma_apply_keeps_anchor(before, Command::Down, view);
        lemma_operations_keep_cursor_inside(before, ' ', view);
    }
}

} // verus!
