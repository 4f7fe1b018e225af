//! The game's state machine: what a key does in each state, what is drawn,
//! and how the player moves against walls.
//!
//! The host owns the window and the clock. It hands each key event and each
//! frame to the `Game`, and does what the answer says.

use crate::load::LoadError;
use crate::map::{TileMap, TileMapView, TilePos};
use vstd::prelude::*;

verus! {

/// The state of the game.
#[derive(Clone, Copy, Debug, PartialEq, Eq, Structural)]
pub enum GameState {
    /// The menu is shown; nothing moves.
    Menu,
    /// The world is shown and the player moves.
    Playing,
    /// As `Playing`, with the map drawn over the world.
    Minimap,
    /// The pause screen is shown; nothing moves.
    Paused,
    /// The game is over. No state follows this one.
    Exit,
}

/// A key, as far as the game tells keys apart.
#[derive(Clone, Copy, Debug, PartialEq, Eq, Structural)]
pub enum Key {
    Return,
    Backspace,
    Escape,
    M,
    W,
    A,
    S,
    D,
    Left,
    Right,
    /// Any other key.
    Other,
}

/// What a held key asks of the player.
#[derive(Clone, Copy, Debug, PartialEq, Eq, Structural)]
pub enum Motion {
    /// A step in the direction of view.
    Forward,
    /// A step against the direction of view.
    Backward,
    /// A step at a right angle to the direction of view: a step `(x, y)`
    /// forward turned into `(-y, x)`.
    StrafeRight,
    /// A step `(x, y)` forward turned into `(y, -x)`.
    StrafeLeft,
    /// A turn toward smaller angles.
    TurnLeft,
    /// A turn toward larger angles.
    TurnRight,
    /// Nothing.
    Stay,
}

/// What there is to draw.
#[derive(Clone, Copy, Debug, PartialEq, Eq, Structural)]
pub enum Scene {
    /// The menu.
    Menu,
    /// The world, and over it the map if `minimap` is set.
    World { minimap: bool },
    /// The pause screen.
    Paused,
}

/// What the host does with a frame.
#[derive(Clone, Copy, Debug, PartialEq, Eq, Structural)]
pub enum Frame {
    /// Nothing changed: draw nothing.
    Skip,
    /// Draw this.
    Draw(Scene),
    /// Stop the game.
    Quit,
}

/// Which parts of a step are taken.
#[derive(Clone, Copy, Debug, PartialEq, Eq, Structural)]
pub struct Slide {
    /// The step's x part is taken.
    pub x: bool,
    /// The step's y part is taken.
    pub y: bool,
}

/// The state that follows `state` when `key` goes down.
pub open spec fn after_key(state: GameState, key: Key) -> GameState {
    match state {
        GameState::Menu => match key {
            Key::Return => GameState::Playing,
            Key::Backspace => GameState::Exit,
            _ => GameState::Menu,
        },
        GameState::Playing => match key {
            Key::M => GameState::Minimap,
            Key::Escape => GameState::Paused,
            _ => GameState::Playing,
        },
        GameState::Minimap => match key {
            Key::M => GameState::Playing,
            Key::Escape => GameState::Paused,
            _ => GameState::Minimap,
        },
        GameState::Paused => GameState::Playing,
        GameState::Exit => GameState::Exit,
    }
}

/// What the held key `key` asks of the player.
pub open spec fn motion_of(key: Key) -> Motion {
    match key {
        Key::W => Motion::Forward,
        Key::D => Motion::StrafeRight,
        Key::S => Motion::Backward,
        Key::A => Motion::StrafeLeft,
        Key::Left => Motion::TurnLeft,
        Key::Right => Motion::TurnRight,
        _ => Motion::Stay,
    }
}

/// What is drawn in `state`; nothing once the game is over.
pub open spec fn scene_of(state: GameState) -> Option<Scene> {
    match state {
        GameState::Menu => Some(Scene::Menu),
        GameState::Playing => Some(Scene::World { minimap: false }),
        GameState::Minimap => Some(Scene::World { minimap: true }),
        GameState::Paused => Some(Scene::Paused),
        GameState::Exit => None,
    }
}

/// Which parts of a step from the tile `from` to the tile `to` the player
/// takes. The x part is taken unless the tile it leads to stops the player.
/// The y part is then tried from where the player stands after that, in
/// the same way. So a step into a wall still slides along it.
pub open spec fn slide(map: TileMapView, from: TilePos, to: TilePos) -> Slide {
    let x = map.colliding(TilePos { x: to.x, y: from.y }, true) is None;
    let column = if x {
        to.x
    } else {
        from.x
    };
    let y = map.colliding(TilePos { x: column, y: to.y }, true) is None;
    Slide { x, y }
}

/// A step that a wall stops along one axis is still taken along the other,
/// where that one is open.
///
/// If the tile beside the player along x stops the player and the tile
/// beside the player along y does not, only the y part is taken. If the
/// tile along x is free and the tile that the y part then leads to stops
/// the player, only the x part is taken.
pub proof fn lemma_slides_along_walls(map: TileMapView, from: TilePos, to: TilePos)
    ensures
        map.colliding(TilePos { x: to.x, y: from.y }, true) is Some && map.colliding(
            TilePos { x: from.x, y: to.y },
            true,
        ) is None ==> slide(map, from, to) == (Slide { x: false, y: true }),
        map.colliding(TilePos { x: to.x, y: from.y }, true) is None && map.colliding(
            TilePos { x: to.x, y: to.y },
            true,
        ) is Some ==> slide(map, from, to) == (Slide { x: true, y: false }),
{
}

/// A game: a map, the player's start and health, and the state.
pub struct Game {
    /// The map that is played.
    pub map: TileMap,
    /// The tile on which the player starts.
    pub spawn: TilePos,
    /// The player's health.
    pub health: u8,
    /// The state of the game.
    pub game_state: GameState,
    /// Whether something changed since the last frame was drawn.
    pub update: bool,
}

impl Game {
    /// A game on `map`, in the menu, with the player at full health on the
    /// map's spawn. A map without a spawn is refused.
    pub fn new(map: TileMap) -> (game: Result<Game, LoadError>)
        ensures
            match game {
                Ok(g) => {
                    &&& map@.spawn() == Some(g.spawn)
                    &&& g.map == map
                    &&& g.health == u8::MAX
                    &&& g.game_state == GameState::Menu
                    &&& g.update
                },
                Err(e) => e == LoadError::MissingSpawn && map@.spawn() is None,
            },
    {
        match map.get_spawn() {
            Some(spawn) => Ok(
                Game { map, spawn, health: u8::MAX, game_state: GameState::Menu, update: true },
            ),
            None => Err(LoadError::MissingSpawn),
        }
    }

    /// A key went down in the menu: return starts the game, backspace ends
    /// it, and any other key does nothing.
    pub fn menu_key_once(&mut self, key: Key)
        ensures
            final(self).game_state == (match key {
                Key::Return => GameState::Playing,
                Key::Backspace => GameState::Exit,
                _ => old(self).game_state,
            }),
            final(self).update == old(self).update,
            final(self).map == old(self).map,
            final(self).spawn == old(self).spawn,
            final(self).health == old(self).health,
    {
        match key {
            Key::Return => self.game_state = GameState::Playing,
            Key::Backspace => self.game_state = GameState::Exit,
            _ => {},
        }
    }

    /// A key is held in the menu: nothing happens.
    pub fn menu_key(&mut self, key: Key)
        ensures
            *final(self) == *old(self),
    {
    }

    /// A key went down while playing: `M` shows the map, or hides it where
    /// it is shown; escape pauses; any other key does nothing.
    pub fn playing_key_once(&mut self, key: Key)
        ensures
            final(self).game_state == (match key {
                Key::M => if old(self).game_state == GameState::Minimap {
                    GameState::Playing
                } else {
                    GameState::Minimap
                },
                Key::Escape => GameState::Paused,
                _ => old(self).game_state,
            }),
            final(self).update == old(self).update,
            final(self).map == old(self).map,
            final(self).spawn == old(self).spawn,
            final(self).health == old(self).health,
    {
        match key {
            Key::M => {
                if self.game_state == GameState::Minimap {
                    self.game_state = GameState::Playing
                } else {
                    self.game_state = GameState::Minimap;
                }
            },
            Key::Escape => self.game_state = GameState::Paused,
            _ => {},
        }
    }

    /// A key is held while playing: what it asks of the player.
    pub fn playing_key(&self, key: Key) -> (motion: Motion)
        ensures
            motion == motion_of(key),
    {
        match key {
            Key::W => Motion::Forward,
            Key::D => Motion::StrafeRight,
            Key::S => Motion::Backward,
            Key::A => Motion::StrafeLeft,
            Key::Left => Motion::TurnLeft,
            Key::Right => Motion::TurnRight,
            _ => Motion::Stay,
        }
    }

    /// A key went down. The state changes as `after_key` says, and there is
    /// something new to draw. Returns whether the game goes on: it does
    /// unless it was over already, and then nothing changes.
    pub fn key_down(&mut self, key: Key) -> (running: bool)
        ensures
            running == (old(self).game_state != GameState::Exit),
            final(self).game_state == after_key(old(self).game_state, key),
            final(self).update == (running || old(self).update),
            final(self).map == old(self).map,
            final(self).spawn == old(self).spawn,
            final(self).health == old(self).health,
    {
        match self.game_state {
            GameState::Menu => self.menu_key_once(key),
            GameState::Playing | GameState::Minimap => self.playing_key_once(key),
            GameState::Paused => self.game_state = GameState::Playing,
            GameState::Exit => {
                return false;
            },
        }
        self.update = true;
        true
    }

    /// A key is held at the start of a frame. Returns what it asks of the
    /// player, or `None` if the game is over. A key moves the player only
    /// while playing, with or without the map shown; in the menu and while
    /// playing there is then something new to draw.
    pub fn key_held(&mut self, key: Key) -> (motion: Option<Motion>)
        ensures
            motion == (match old(self).game_state {
                GameState::Exit => None,
                GameState::Playing | GameState::Minimap => Some(motion_of(key)),
                _ => Some(Motion::Stay),
            }),
            final(self).update == (old(self).update || old(self).game_state == GameState::Menu
                || old(self).game_state == GameState::Playing || old(self).game_state
                == GameState::Minimap),
            final(self).game_state == old(self).game_state,
            final(self).map == old(self).map,
            final(self).spawn == old(self).spawn,
            final(self).health == old(self).health,
    {
        match self.game_state {
            GameState::Menu => {
                self.menu_key(key);
                self.update = true;
                Some(Motion::Stay)
            },
            GameState::Playing | GameState::Minimap => {
                let motion = self.playing_key(key);
                self.update = true;
                Some(motion)
            },
            GameState::Paused => Some(Motion::Stay),
            GameState::Exit => None,
        }
    }

    /// A frame is due. Where something changed since the last one, the
    /// scene of the state is to be drawn, and the change counts as drawn;
    /// but once the game is over the host is to stop.
    pub fn frame(&mut self) -> (frame: Frame)
        ensures
            frame == (if !old(self).update {
                Frame::Skip
            } else {
                match scene_of(old(self).game_state) {
                    Some(scene) => Frame::Draw(scene),
                    None => Frame::Quit,
                }
            }),
            final(self).update == (old(self).update && old(self).game_state == GameState::Exit),
            final(self).game_state == old(self).game_state,
            final(self).map == old(self).map,
            final(self).spawn == old(self).spawn,
            final(self).health == old(self).health,
    {
        if !self.update {
            return Frame::Skip;
        }
        let scene = match self.game_state {
            GameState::Menu => Scene::Menu,
            GameState::Playing => Scene::World { minimap: false },
            GameState::Minimap => Scene::World { minimap: true },
            GameState::Paused => Scene::Paused,
            GameState::Exit => {
                return Frame::Quit;
            },
        };
        self.update = false;
        Frame::Draw(scene)
    }

    /// Which parts of a step from the tile `from` to the tile `to` the
    /// player takes.
    pub fn slide(&self, from: TilePos, to: TilePos) -> (taken: Slide)
        ensures
            taken == slide(self.map@, from, to),
    {
        let x = self.map.colliding(TilePos { x: to.x, y: from.y }, true).is_none();
        let column = if x {
            to.x
        } else {
            from.x
        };
        let y = self.map.colliding(TilePos { x: column, y: to.y }, true).is_none();
        Slide { x, y }
    }
}

} // verus!
