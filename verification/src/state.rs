//! What the viewer is doing: whether keys steer or type, and whether the
//! boxes of the tree are drawn.

use vstd::prelude::*;
use crate::brick::str_eq;

verus! {

/// Where key presses go.
#[derive(Debug, Clone, Copy, PartialEq, Eq, Structural)]
pub enum InputState {
    /// Keys steer the viewer.
    Listen,
    /// Keys are typed into the chat line.
    Typing,
}

/// Whether the boxes of the tree are drawn, and at which depth below the
/// root.
#[derive(Debug, Clone, Copy, PartialEq, Eq, Structural)]
pub enum BVHView {
    Off,
    On(u8),
}

/// The state of the viewer.
#[derive(Debug, Clone, Copy, PartialEq, Eq, Structural)]
pub struct GameState {
    pub input: InputState,
    pub bvh_view: BVHView,
    /// Whether the reach of every light is drawn.
    pub light_debug: bool,
}

/// What a line typed into the chat asks for.
#[derive(Debug, Clone, Copy, PartialEq, Eq, Structural)]
pub enum ChatCommand {
    /// Remove all bricks, lights and trees.
    ClearBricks,
    /// Show or hide the water.
    Water,
    /// Draw the boxes of the tree, or stop drawing them.
    Bvh,
    /// Let the sun cast shadows, or not.
    Shadows,
    /// Show or hide the lights of the save.
    Lights,
    /// Draw the reach of every light, or stop drawing it.
    LightDebug,
    /// Nothing that the viewer knows.
    Unknown,
}

/// The command that a line stands for.
pub open spec fn spec_chat_command(line: Seq<char>) -> ChatCommand {
    if line == "/clear"@ || line == "/clearbricks"@ || line == "/clearallbricks"@ {
        ChatCommand::ClearBricks
    } else if line == "/water"@ {
        ChatCommand::Water
    } else if line == "/bvh"@ {
        ChatCommand::Bvh
    } else if line == "/shadows"@ {
        ChatCommand::Shadows
    } else if line == "/lights"@ {
        ChatCommand::Lights
    } else if line == "/debuglights"@ || line == "/lightdebug"@ {
        ChatCommand::LightDebug
    } else {
        ChatCommand::Unknown
    }
}

/// The command that a line stands for.
pub fn chat_command(line: &str) -> (command: ChatCommand)
    ensures
        command == spec_chat_command(line@),
{
    if str_eq(line, "/clear") || str_eq(line, "/clearbricks") || str_eq(line, "/clearallbricks") {
        ChatCommand::ClearBricks
    } else if str_eq(line, "/water") {
        ChatCommand::Water
    } else if str_eq(line, "/bvh") {
        ChatCommand::Bvh
    } else if str_eq(line, "/shadows") {
        ChatCommand::Shadows
    } else if str_eq(line, "/lights") {
        ChatCommand::Lights
    } else if str_eq(line, "/debuglights") || str_eq(line, "/lightdebug") {
        ChatCommand::LightDebug
    } else {
        ChatCommand::Unknown
    }
}

impl BVHView {
    /// Drawing switched on at the root where it was off, and off where it was
    /// on.
    pub fn toggled(self) -> (view: BVHView)
        ensures
            view == match self {
                BVHView::Off => BVHView::On(0),
                BVHView::On(_) => BVHView::Off,
            },
    {
        match self {
            BVHView::Off => BVHView::On(0),
            BVHView::On(_) => BVHView::Off,
        }
    }

    /// One level further from the root, where drawing is on.
    pub fn deeper(self) -> (view: BVHView)
        requires
            self matches BVHView::On(depth) ==> depth < u8::MAX,
        ensures
            view == match self {
                BVHView::Off => BVHView::Off,
                BVHView::On(depth) => BVHView::On((depth + 1) as u8),
            },
    {
        match self {
            BVHView::Off => BVHView::Off,
            BVHView::On(depth) => BVHView::On(depth + 1),
        }
    }

    /// One level closer to the root, where drawing is on.
    pub fn shallower(self) -> (view: BVHView)
        requires
            self matches BVHView::On(depth) ==> depth > 0,
        ensures
            view == match self {
                BVHView::Off => BVHView::Off,
                BVHView::On(depth) => BVHView::On((depth - 1) as u8),
            },
    {
        match self {
            BVHView::Off => BVHView::Off,
            BVHView::On(depth) => BVHView::On(depth - 1),
        }
    }
}

impl Default for InputState {
    fn default() -> (state: InputState)
        ensures
            state == InputState::Listen,
    {
        InputState::Listen
    }
}

impl Default for BVHView {
    fn default() -> (view: BVHView)
        ensures
            view == BVHView::Off,
    {
        BVHView::Off
    }
}

impl Default for GameState {
    fn default() -> (state: GameState)
        ensures
            state == (GameState {
                input: InputState::Listen,
                bvh_view: BVHView::Off,
                light_debug: false,
            }),
    {
        GameState { input: InputState::Listen, bvh_view: BVHView::Off, light_debug: false }
    }
}

impl GameState {
    /// The state after a line was typed and sent: the command has its effect
    /// on the state, and keys steer the viewer again.
    pub fn after_command(self, command: ChatCommand) -> (state: GameState)
        ensures
            state == (GameState {
                input: InputState::Listen,
                bvh_view: if command == ChatCommand::Bvh {
                    match self.bvh_view {
                        BVHView::Off => BVHView::On(0),
                        BVHView::On(_) => BVHView::Off,
                    }
                } else {
                    self.bvh_view
                },
                light_debug: if command == ChatCommand::LightDebug {
                    !self.light_debug
                } else {
                    self.light_debug
                },
            }),
    {
        let bvh_view = match command {
            ChatCommand::Bvh => self.bvh_view.toggled(),
            _ => self.bvh_view,
        };
        let light_debug = match command {
            ChatCommand::LightDebug => !self.light_debug,
            _ => self.light_debug,
        };
        GameState { input: InputState::Listen, bvh_view, light_debug }
    }

    /// Whether keys steer the viewer.
    pub fn input_listening(&self) -> (listening: bool)
        ensures
            listening == (self.input == InputState::Listen),
    {
        match self.input {
            InputState::Listen => true,
            InputState::Typing => false,
        }
    }
}

} // verus!
