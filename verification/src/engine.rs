//! The decisions of the event loop: what the host's events do to the
//! engine, and which interaction the pointer asks for.
//!
//! The loop itself, its window and its clock belong to the host. The host
//! hands every event to `EngineState::handle`, and does what the reaction says.

use vstd::prelude::*;
use crate::cli::Cli;

verus! {

/// What a held pointer button does to the fluid around the pointer. `P` is
/// the type of a position, `R` the type of a length.
pub enum Interaction<P, R> {
    /// Pushes the particles within `radius` of `position` away from it.
    Repel { position: P, radius: R },
    /// Pulls the particles within `radius` of `position` towards it.
    Suck { position: P, radius: R },
}

impl<P, R> Interaction<P, R> {
    /// The position of the pointer.
    pub open spec fn spec_position(&self) -> &P {
        match self {
            Interaction::Repel { position, .. } => position,
            Interaction::Suck { position, .. } => position,
        }
    }

    /// The position of the pointer.
    #[verifier::when_used_as_spec(spec_position)]
    pub fn position(&self) -> (position: &P)
        ensures
            position == self.spec_position(),
    {
        match self {
            Interaction::Repel { position, .. } => position,
            Interaction::Suck { position, .. } => position,
        }
    }

    /// How far from the pointer the interaction reaches.
    pub open spec fn spec_radius(&self) -> &R {
        match self {
            Interaction::Repel { radius, .. } => radius,
            Interaction::Suck { radius, .. } => radius,
        }
    }

    /// How far from the pointer the interaction reaches.
    #[verifier::when_used_as_spec(spec_radius)]
    pub fn radius(&self) -> (radius: &R)
        ensures
            radius == self.spec_radius(),
    {
        match self {
            Interaction::Repel { radius, .. } => radius,
            Interaction::Suck { radius, .. } => radius,
        }
    }

    /// The sign of the force along the direction from a particle to the
    /// pointer: `1` where the particle is pulled, `-1` where it is pushed.
    pub open spec fn spec_sign(&self) -> i8 {
        match self {
            Interaction::Repel { .. } => -1i8,
            Interaction::Suck { .. } => 1i8,
        }
    }

    /// The sign of the force along the direction from a particle to the
    /// pointer.
    #[verifier::when_used_as_spec(spec_sign)]
    pub fn sign(&self) -> (sign: i8)
        ensures
            sign == self.spec_sign(),
    {
        match self {
            Interaction::Repel { .. } => -1,
            Interaction::Suck { .. } => 1,
        }
    }
}

/// A button of the pointer.
#[derive(Clone, Copy, Debug, PartialEq, Eq, Structural)]
pub enum PointerButton {
    Left,
    Right,
    Other,
}

/// A key that the engine listens to.
#[derive(Clone, Copy, Debug, PartialEq, Eq, Structural)]
pub enum Key {
    Escape,
    Space,
    V,
    Other,
}

/// An event of the host's loop, as far as the engine's decisions read it.
#[derive(Clone, Copy, Debug, PartialEq, Eq, Structural)]
pub enum EngineEvent {
    /// The window was asked to close.
    CloseRequested,
    /// The window gained (`true`) or lost the focus.
    Focused(bool),
    /// A key went down (`pressed`) or up.
    Keyboard { key: Key, pressed: bool },
    /// A pointer button went down (`pressed`) or up.
    MouseInput { pressed: bool, button: PointerButton },
    /// All pending events are handled: time for a frame.
    MainEventsCleared,
    /// Any other event.
    Other,
}

/// How the host's loop goes on after an event.
#[derive(Clone, Copy, Debug, PartialEq, Eq, Structural)]
pub enum Flow {
    /// Go on at once.
    Poll,
    /// Sleep until the next event.
    Wait,
    /// Leave the loop.
    Exit,
}

/// What the host does after an event.
#[derive(Clone, Copy, Debug, PartialEq, Eq, Structural)]
pub struct Reaction {
    /// How the loop goes on.
    pub flow: Flow,
    /// Start measuring the time between frames anew.
    pub restart_clock: bool,
    /// Hand the engine's vsync setting to the display.
    pub apply_vsync: bool,
    /// Update the simulation and draw a frame.
    pub run_frame: bool,
}

/// The state of the engine between two events.
#[derive(Clone, Copy, Debug, PartialEq, Eq, Structural)]
pub struct EngineState {
    /// No frames are run while paused.
    pub paused: bool,
    /// Whether buffer swaps wait for the display's vertical sync.
    pub vsync: bool,
    /// Whether a pointer button is held.
    pub cursor_pressed: bool,
    /// The pointer button that went down or up last.
    pub cursor_button: PointerButton,
}

/// The reaction that only tells the loop how to go on.
pub open spec fn only_flow(flow: Flow) -> Reaction {
    Reaction { flow, restart_clock: false, apply_vsync: false, run_frame: false }
}

/// The reaction to a change of the pause: a paused engine sleeps, a resumed
/// one goes on at once and measures time from now.
pub open spec fn pause_reaction(paused: bool) -> Reaction {
    if paused {
        only_flow(Flow::Wait)
    } else {
        Reaction { flow: Flow::Poll, restart_clock: true, apply_vsync: false, run_frame: false }
    }
}

impl EngineState {
    /// The engine after `event`.
    pub open spec fn after(self, event: EngineEvent) -> EngineState {
        match event {
            EngineEvent::Focused(focused) => EngineState { paused: !focused, ..self },
            EngineEvent::Keyboard { key: Key::Space, pressed: true } => EngineState {
                paused: !self.paused,
                ..self
            },
            EngineEvent::Keyboard { key: Key::V, pressed: true } => EngineState {
                vsync: !self.vsync,
                ..self
            },
            EngineEvent::MouseInput { pressed, button } => EngineState {
                cursor_pressed: pressed,
                cursor_button: button,
                ..self
            },
            _ => self,
        }
    }

    /// What the host does after `event`.
    pub open spec fn reaction(self, event: EngineEvent) -> Reaction {
        match event {
            EngineEvent::CloseRequested => only_flow(Flow::Exit),
            EngineEvent::Focused(focused) => pause_reaction(!focused),
            EngineEvent::Keyboard { key: Key::Escape, pressed: _ } => only_flow(Flow::Exit),
            EngineEvent::Keyboard { key: Key::Space, pressed: true } => pause_reaction(!self.paused),
            EngineEvent::Keyboard { key: Key::V, pressed: true } => Reaction {
                flow: Flow::Poll,
                restart_clock: false,
                apply_vsync: true,
                run_frame: false,
            },
            EngineEvent::MainEventsCleared => Reaction {
                flow: Flow::Poll,
                restart_clock: false,
                apply_vsync: false,
                run_frame: !self.paused,
            },
            _ => only_flow(Flow::Poll),
        }
    }

    /// Makes the engine as it is before the first event: running, no
    /// pointer button held, vsync as the command line asks.
    pub fn new(args: &Cli) -> (engine: EngineState)
        ensures
            engine == (EngineState {
                paused: false,
                vsync: args.vsync,
                cursor_pressed: false,
                cursor_button: PointerButton::Left,
            }),
    {
        EngineState {
            paused: false,
            vsync: args.vsync,
            cursor_pressed: false,
            cursor_button: PointerButton::Left,
        }
    }

    /// Takes in one event and says what the host does next.
    pub fn handle(&mut self, event: EngineEvent) -> (reaction: Reaction)
        ensures
            *final(self) == old(self).after(event),
            reaction == old(self).reaction(event),
    {
        let quiet = Reaction {
            flow: Flow::Poll,
            restart_clock: false,
            apply_vsync: false,
            run_frame: false,
        };
        match event {
            EngineEvent::CloseRequested => Reaction { flow: Flow::Exit, ..quiet },
            EngineEvent::Focused(focused) => self.set_pause(!focused),
            EngineEvent::Keyboard { key, pressed } => match key {
                Key::Escape => Reaction { flow: Flow::Exit, ..quiet },
                Key::Space => if pressed {
                    let paused: bool = !self.paused;
                    self.set_pause(paused)
                } else {
                    quiet
                },
                Key::V => if pressed {
                    self.vsync = !self.vsync;
                    Reaction { apply_vsync: true, ..quiet }
                } else {
                    quiet
                },
                Key::Other => quiet,
            },
            EngineEvent::MouseInput { pressed, button } => {
                self.cursor_pressed = pressed;
                self.cursor_button = button;
                quiet
            },
            EngineEvent::MainEventsCleared => Reaction { run_frame: !self.paused, ..quiet },
            EngineEvent::Other => quiet,
        }
    }

    /// Pauses or resumes the engine.
    fn set_pause(&mut self, paused: bool) -> (reaction: Reaction)
        ensures
            *final(self) == (EngineState { paused, ..*old(self) }),
            reaction == pause_reaction(paused),
    {
        self.paused = paused;
        if paused {
            Reaction { flow: Flow::Wait, restart_clock: false, apply_vsync: false, run_frame: false }
        } else {
            Reaction { flow: Flow::Poll, restart_clock: true, apply_vsync: false, run_frame: false }
        }
    }

    /// The interaction that the pointer asks for when it is at `position`
    /// and reaches as far as `radius`: none while no button is held; with
    /// the right button held the fluid is pulled, with any other button it
    /// is pushed away.
    pub fn interaction<P, R>(&self, position: P, radius: R) -> (interaction: Option<
        Interaction<P, R>,
    >)
        ensures
            interaction == if !self.cursor_pressed {
                None
            } else if self.cursor_button == PointerButton::Right {
                Some(Interaction::Suck { position, radius })
            } else {
                Some(Interaction::Repel { position, radius })
            },
    {
        if !self.cursor_pressed {
            None
        } else {
            match self.cursor_button {
                PointerButton::Right => Some(Interaction::Suck { position, radius }),
                _ => Some(Interaction::Repel { position, radius }),
            }
        }
    }
}

/// A paused engine runs no frame, whatever the event; and a frame is run
/// only when all pending events are handled.
pub proof fn lemma_frames_only_while_running(engine: EngineState, event: EngineEvent)
    ensures
        engine.reaction(event).run_frame <==> (!engine.paused && event
            == EngineEvent::MainEventsCleared),
{
}

/// Only three events end the loop: the request to close the window, and
/// the escape key going down or up.
pub proof fn lemma_exit_events(engine: EngineState, event: EngineEvent)
    ensures
        engine.reaction(event).flow == Flow::Exit <==> (event == EngineEvent::CloseRequested || (
            event matches EngineEvent::Keyboard { key, .. } && key == Key::Escape)),
{
}

} // verus!
