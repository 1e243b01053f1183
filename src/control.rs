//! The keyboard controls and the per-frame decision of the control loop.
use crate::grid::{cells_from, Grid, GridView};
use vstd::prelude::*;

verus! {

/// A key press as the controls see it.
#[derive(PartialEq, Eq, Structural, Debug, Clone, Copy)]
pub enum Key {
    Char(char),
    Esc,
    Other,
}

/// What a key press asks for.
#[derive(PartialEq, Eq, Structural, Debug, Clone, Copy)]
pub enum Command {
    Restart,
    SaveToFile,
    SaveSnapshot,
    LoadSnapshot,
    TogglePause,
    Quit,
    Ignore,
}

/// What the loop does once a key press has been handled.
#[derive(PartialEq, Eq, Structural, Debug, Clone, Copy)]
pub enum Flow {
    /// Keep running.
    Continue,
    /// Write the grid to the save file, then keep running.
    WriteFile,
    /// Leave the loop.
    Quit,
}

/// `c` is the letter `lower` in either case.
pub open spec fn is_letter(c: char, lower: char, upper: char) -> bool {
    c == lower || c == upper
}

/// The command table: `r` restarts, Ctrl+`s` saves to file, `s` takes a
/// snapshot, `l` restores it, `p` toggles pause, Esc, `q` and Ctrl+`c` quit;
/// letters in either case, and the first matching row wins.
pub open spec fn command_of(key: Key, ctrl: bool) -> Command {
    match key {
        Key::Char(c) => if is_letter(c, 'r', 'R') {
            Command::Restart
        } else if ctrl && is_letter(c, 's', 'S') {
            Command::SaveToFile
        } else if is_letter(c, 's', 'S') {
            Command::SaveSnapshot
        } else if is_letter(c, 'l', 'L') {
            Command::LoadSnapshot
        } else if is_letter(c, 'p', 'P') {
            Command::TogglePause
        } else if is_letter(c, 'q', 'Q') {
            Command::Quit
        } else if ctrl && is_letter(c, 'c', 'C') {
            Command::Quit
        } else {
            Command::Ignore
        },
        Key::Esc => Command::Quit,
        Key::Other => Command::Ignore,
    }
}

/// The command that `key`, pressed with Ctrl held or not, stands for.
pub fn command_for(key: Key, ctrl: bool) -> (r: Command)
    ensures
        r == command_of(key, ctrl),
{
    match key {
        Key::Char(c) => {
            if c == 'r' || c == 'R' {
                Command::Restart
            } else if ctrl && (c == 's' || c == 'S') {
                Command::SaveToFile
            } else if c == 's' || c == 'S' {
                Command::SaveSnapshot
            } else if c == 'l' || c == 'L' {
                Command::LoadSnapshot
            } else if c == 'p' || c == 'P' {
                Command::TogglePause
            } else if c == 'q' || c == 'Q' {
                Command::Quit
            } else if ctrl && (c == 'c' || c == 'C') {
                Command::Quit
            } else {
                Command::Ignore
            }
        },
        Key::Esc => Command::Quit,
        Key::Other => Command::Ignore,
    }
}

/// Carries out the command of a key press on `grid`. Writing to the save
/// file is left to the caller, told so by `Flow::WriteFile`.
pub fn handle_key_event(key: Key, ctrl: bool, grid: &mut Grid) -> (r: Flow)
    requires
        old(grid)@.wf(),
    ensures
        final(grid)@.wf(),
        match command_of(key, ctrl) {
            Command::Restart => r == Flow::Continue && exists|draws: Seq<bool>|
                draws.len() == old(grid)@.rows * old(grid)@.cols && final(grid)@ == old(
                    grid,
                )@.restarted_with(cells_from(draws, old(grid)@.rows, old(grid)@.cols)),
            Command::SaveToFile => r == Flow::WriteFile && final(grid)@ == old(grid)@,
            Command::SaveSnapshot => r == Flow::Continue && final(grid)@ == old(
                grid,
            )@.snapshot_taken(),
            Command::LoadSnapshot => r == Flow::Continue && final(grid)@ == old(
                grid,
            )@.snapshot_restored(),
            Command::TogglePause => r == Flow::Continue && final(grid)@ == old(
                grid,
            )@.pause_toggled(),
            Command::Quit => r == Flow::Quit && final(grid)@ == old(grid)@,
            Command::Ignore => r == Flow::Continue && final(grid)@ == old(grid)@,
        },
{
    match command_for(key, ctrl) {
        Command::Restart => {
            grid.restart();
            Flow::Continue
        },
        Command::SaveToFile => Flow::WriteFile,
        Command::SaveSnapshot => {
            grid.save_state();
            Flow::Continue
        },
        Command::LoadSnapshot => {
            grid.load_state();
            Flow::Continue
        },
        Command::TogglePause => {
            grid.toggle_pause();
            Flow::Continue
        },
        Command::Quit => Flow::Quit,
        Command::Ignore => Flow::Continue,
    }
}

/// The grid after one frame of the loop: unchanged while paused, one
/// generation on while running.
pub open spec fn frame(g: GridView) -> GridView {
    if g.paused {
        g
    } else {
        g.stepped()
    }
}

/// The grid after `n` frames with no key pressed.
pub open spec fn frames(g: GridView, n: nat) -> GridView
    decreases n,
{
    if n == 0 {
        g
    } else {
        frame(frames(g, (n - 1) as nat))
    }
}

/// While the grid is paused and no key is pressed, no number of frames
/// changes it.
pub proof fn lemma_paused_grid_stays(g: GridView, n: nat)
    requires
        g.paused,
    ensures
        frames(g, n) == g,
    decreases n,
{
    if n > 0 {
        lemma_paused_grid_stays(g, (n - 1) as nat);
    }
}

/// One frame of the loop after input: a paused grid is left as it is, a
/// running one advances a generation. Returns whether it advanced (and so
/// is to be drawn).
pub fn advance(grid: &mut Grid) -> (r: bool)
    requires
        old(grid)@.wf(),
    ensures
        final(grid)@.wf(),
        r == !old(grid)@.paused,
        final(grid)@ == frame(old(grid)@),
{
    if grid.paused() {
        false
    } else {
        grid.update_grid();
        true
    }
}

} // verus!
