//! The decisions of the host integration: the window flags that the
//! overlay consults, and the single-cadence worker that the host starts and
//! stops.

use vstd::prelude::*;

verus! {

/// What the user did to the window while one frame was drawn.
#[derive(Clone, Copy, Debug, PartialEq, Eq, Structural)]
pub struct FrameOutcome {
    /// The window was not closed in this frame.
    pub still_open: bool,
    /// Whether the button was pressed; `None` where the body of the window
    /// was not drawn, so that there was no button.
    pub button: Option<bool>,
}

/// The flags of the overlay window.
#[derive(Clone, Copy, Debug, PartialEq, Eq, Structural)]
pub struct RenderState {
    pub window_open: bool,
    pub show: bool,
}

impl RenderState {
    /// The window after one frame in which the user did `outcome`.
    ///
    /// A closed window is not drawn and stays as it is. An open one follows
    /// the close box, and a press of its button turns `show` over.
    pub open spec fn after_frame(self, outcome: FrameOutcome) -> RenderState {
        if !self.window_open {
            self
        } else {
            RenderState {
                window_open: outcome.still_open,
                show: match outcome.button {
                    Some(pressed) => self.show != pressed,
                    None => self.show,
                },
            }
        }
    }

    /// The flags at start: the window open, the details hidden.
    pub fn new() -> (state: RenderState)
        ensures
            state == (RenderState { window_open: true, show: false }),
    {
        RenderState { window_open: true, show: false }
    }

    /// Handles the key of the window: pressing it opens a closed window and
    /// closes an open one, releasing it does nothing.
    pub fn keybind_handler(&mut self, id: &str, is_release: bool)
        ensures
            final(self).show == old(self).show,
            final(self).window_open == if is_release {
                old(self).window_open
            } else {
                !old(self).window_open
            },
    {
        if !is_release {
            self.window_open = !self.window_open;
        }
    }

    /// Takes in what the user did to the window in the frame just drawn.
    pub fn render(&mut self, outcome: FrameOutcome)
        ensures
            *final(self) == old(self).after_frame(outcome),
    {
        if self.window_open {
            self.window_open = outcome.still_open;
            if let Some(pressed) = outcome.button {
                if self.show {
                    self.show = !pressed;
                } else {
                    self.show = pressed;
                }
            }
        }
    }
}

/// A command to the single-cadence worker.
#[derive(Clone, Copy, Debug, PartialEq, Eq, Structural)]
pub enum TimarksThreadEvent {
    Quit,
}

/// What one iteration of the single-cadence worker consumes.
#[derive(Clone, Copy, Debug, PartialEq, Eq, Structural)]
pub enum TimarksLoopEvent {
    /// The command channel delivered a command.
    Command(TimarksThreadEvent),
    /// The command channel is closed.
    ChannelClosed,
    /// The cadence fired.
    Tick,
}

/// The state of the single-cadence worker. It holds nothing yet.
#[derive(Clone, Copy, Debug, PartialEq, Eq, Structural)]
pub struct TimarksState {}

impl TimarksState {
    /// Whether the worker goes on after `event`: it ends on `Quit` and when
    /// the command channel is closed.
    pub open spec fn goes_on_after(event: TimarksLoopEvent) -> bool {
        event is Tick
    }

    pub fn new() -> (state: TimarksState)
        ensures
            state == (TimarksState {  }),
    {
        TimarksState {  }
    }

    /// Runs one cadence tick, which leaves the state as it is.
    pub fn tick(&mut self)
        ensures
            *final(self) == *old(self),
    {
    }

    /// Handles one command. Returns whether the worker goes on.
    pub fn handle_event(&mut self, event: TimarksThreadEvent) -> (keep_running: bool)
        ensures
            *final(self) == *old(self),
            keep_running == !(event is Quit),
    {
        match event {
            TimarksThreadEvent::Quit => false,
        }
    }

    /// Runs one iteration of the worker on the event that it consumed.
    /// Returns whether the worker goes on.
    pub fn step(&mut self, event: TimarksLoopEvent) -> (keep_running: bool)
        ensures
            *final(self) == *old(self),
            keep_running == TimarksState::goes_on_after(event),
    {
        match event {
            TimarksLoopEvent::Command(command) => self.handle_event(command),
            TimarksLoopEvent::ChannelClosed => false,
            TimarksLoopEvent::Tick => {
                self.tick();
                true
            },
        }
    }
}

/// The command that the host hands to the worker when the addon is
/// unloaded. Delivery is the host's part, and may fail without harm.
pub fn unload() -> (command: TimarksThreadEvent)
    ensures
        command == TimarksThreadEvent::Quit,
{
    TimarksThreadEvent::Quit
}

} // verus!
