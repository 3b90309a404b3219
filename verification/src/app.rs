//! The interactive application state: one snapshot under display and the
//! exit flag driven by key input.  The terminal loop around it only reads
//! events, renders, and feeds pressed characters back in.

use vstd::prelude::*;
use crate::process::Process;

verus! {

/// The application: one immutable process snapshot and the exit flag.
pub struct App {
    pub process: Process,
    pub exit: bool,
}

impl App {
    /// A fresh application over one snapshot; it does not start exiting.
    pub fn new(process: Process) -> (r: App)
        ensures
            r.process == process,
            !r.exit,
    {
        App { process, exit: false }
    }

    /// Applies one pressed character: `q` or `Q` requests exit; any other
    /// key leaves the state unchanged.
    pub fn handle_key_char(&mut self, c: char)
        ensures
            final(self).process == old(self).process,
            final(self).exit == (old(self).exit || c == 'q' || c == 'Q'),
    {
        if c == 'q' || c == 'Q' {
            self.exit = true;
        }
    }

    /// Whether the event loop should stop.
    pub fn should_exit(&self) -> (r: bool)
        ensures
            r == self.exit,
    {
        self.exit
    }
}

} // verus!
