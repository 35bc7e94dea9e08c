//! The local player's side of a game: who they are, which role they play, and how
//! their inputs, the timer and peer messages change the board.

use vstd::prelude::*;
use crate::game::{add_snake_model, find_id, set_input_model, tick_model, tick_ready, MAX_SNAKES};
use crate::protocol::{
    is_palette_color, palette, palette_color, Direction, GameState, GameView, NetMsg,
};
use crate::text::{display_name, spec_display_name};

verus! {

/// The part a player plays in a game.
#[derive(Clone, Copy, PartialEq, Eq, Structural, Debug)]
pub enum Role {
    Idle,
    Host,
    Client,
}

/// The local player and the board as this page knows it.
pub struct Session {
    pub state: GameState,
    pub local_id: String,
    pub local_name: String,
    pub local_color: String,
    pub role: Role,
}

/// What a message from a peer did.
#[derive(Clone, Copy, PartialEq, Eq, Structural, Debug)]
pub enum PeerEvent {
    /// The host added the peer's player.
    PlayerJoined,
    /// The host applied the peer's turn.
    Steered,
    /// The client took the host's board; `started` tells whether play has begun.
    BoardReplaced { started: bool },
    /// The message does not fit this side of the connection.
    Ignored,
}

/// The name a player has before choosing one.
pub open spec fn default_name() -> Seq<char> {
    "player"@
}

impl Session {
    /// A player with identifier `local_id`, named "player", with the first palette
    /// color, idle, in front of a fresh board.
    pub fn new(local_id: String) -> (s: Session)
        ensures
            s.state@ == GameState::new_view(),
            s.local_id@ == local_id@,
            s.local_name@ == default_name(),
            s.local_color@ == palette()[0],
            s.role == Role::Idle,
    {
        Session {
            state: GameState::new(),
            local_id,
            local_name: String::from_str("player"),
            local_color: String::from_str(palette_color(0)),
            role: Role::Idle,
        }
    }

    /// Takes the name typed by the player, unless it is blank.
    pub fn sync_name(&mut self, raw: &str)
        ensures
            final(self).local_name@ == match spec_display_name(raw@) {
                Some(n) => n,
                None => old(self).local_name@,
            },
            final(self).state@ == old(self).state@,
            final(self).local_id == old(self).local_id,
            final(self).local_color == old(self).local_color,
            final(self).role == old(self).role,
    {
        match display_name(raw) {
            Some(n) => {
                self.local_name = n;
            },
            None => {},
        }
    }

    /// Takes a stored profile: the name unless it is blank, the color if it is one of
    /// the palette's.
    pub fn apply_stored_profile(&mut self, name: Option<&str>, color: Option<&str>)
        ensures
            final(self).local_name@ == match name {
                Some(raw) => match spec_display_name(raw@) {
                    Some(n) => n,
                    None => old(self).local_name@,
                },
                None => old(self).local_name@,
            },
            final(self).local_color@ == match color {
                Some(c) => if palette().contains(c@) {
                    c@
                } else {
                    old(self).local_color@
                },
                None => old(self).local_color@,
            },
            final(self).state@ == old(self).state@,
            final(self).local_id == old(self).local_id,
            final(self).role == old(self).role,
    {
        match name {
            Some(raw) => self.sync_name(raw),
            None => {},
        }
        match color {
            Some(c) => {
                if is_palette_color(c) {
                    self.local_color = String::from_str(c);
                }
            },
            None => {},
        }
    }

    /// Chooses a color; only the palette's colors are taken. Tells whether it was taken.
    pub fn set_local_color(&mut self, color: &str) -> (taken: bool)
        ensures
            taken == palette().contains(color@),
            final(self).local_color@ == if taken {
                color@
            } else {
                old(self).local_color@
            },
            final(self).state@ == old(self).state@,
            final(self).local_id == old(self).local_id,
            final(self).local_name == old(self).local_name,
            final(self).role == old(self).role,
    {
        if is_palette_color(color) {
            self.local_color = String::from_str(color);
            true
        } else {
            false
        }
    }

    /// The player hosts: the page becomes the host and its own snake joins the board.
    pub fn begin_host(&mut self)
        requires
            find_id(old(self).state@.snakes, old(self).local_id@) is None ==> old(
                self,
            ).state.snakes@.len() <= MAX_SNAKES,
        ensures
            final(self).role == Role::Host,
            final(self).state@ == add_snake_model(
                old(self).state@,
                old(self).local_id@,
                old(self).local_name@,
                old(self).local_color@,
            ),
            final(self).local_id == old(self).local_id,
            final(self).local_name == old(self).local_name,
            final(self).local_color == old(self).local_color,
    {
        self.role = Role::Host;
        let id = self.local_id.clone();
        let name = self.local_name.clone();
        let color = self.local_color.clone();
        self.state.add_snake(id, name, color);
    }

    /// The host starts play; anyone else cannot. Tells whether play started.
    pub fn start_game(&mut self) -> (started: bool)
        ensures
            started == (old(self).role == Role::Host),
            final(self).state@ == if started {
                GameView { started: true, ..old(self).state@ }
            } else {
                old(self).state@
            },
            final(self).role == old(self).role,
            final(self).local_id == old(self).local_id,
            final(self).local_name == old(self).local_name,
            final(self).local_color == old(self).local_color,
    {
        if self.role == Role::Host {
            self.state.started = true;
            true
        } else {
            false
        }
    }

    /// The timer fires: a host whose game has started advances the board by one tick.
    /// Tells whether it did, and so whether the board must be sent to the peers.
    pub fn on_timer(&mut self) -> (ticked: bool)
        requires
            old(self).role == Role::Host && old(self).state.started ==> tick_ready(old(self).state@),
        ensures
            ticked == (old(self).role == Role::Host && old(self).state.started),
            final(self).state@ == if ticked {
                tick_model(old(self).state@)
            } else {
                old(self).state@
            },
            final(self).role == old(self).role,
            final(self).local_id == old(self).local_id,
            final(self).local_name == old(self).local_name,
            final(self).local_color == old(self).local_color,
    {
        if self.role == Role::Host && self.state.started {
            self.state.tick_host();
            true
        } else {
            false
        }
    }

    /// The player presses a direction: a host turns its own snake, a client gets the
    /// message to send to the host, an idle player does nothing.
    pub fn steer(&mut self, dir: Direction) -> (msg: Option<NetMsg>)
        ensures
            final(self).state@ == if old(self).role == Role::Host {
                set_input_model(old(self).state@, old(self).local_id@, dir)
            } else {
                old(self).state@
            },
            old(self).role == Role::Client ==> (msg matches Some(NetMsg::Input { id, dir: d })
                && id@ == old(self).local_id@ && d == dir),
            old(self).role != Role::Client ==> msg is None,
            final(self).role == old(self).role,
            final(self).local_id == old(self).local_id,
            final(self).local_name == old(self).local_name,
            final(self).local_color == old(self).local_color,
    {
        match self.role {
            Role::Host => {
                self.state.set_input(self.local_id.as_str(), dir);
                None
            },
            Role::Client => Some(NetMsg::Input { id: self.local_id.clone(), dir }),
            Role::Idle => None,
        }
    }

    /// The first message once a data channel opens: the host sends its board, a client
    /// introduces its player.
    pub fn opening_message(&self, is_host: bool) -> (msg: NetMsg)
        ensures
            is_host ==> (msg matches NetMsg::State { state } && state@ == self.state@),
            !is_host ==> (msg matches NetMsg::Hello { id, name, color } && id@ == self.local_id@
                && name@ == self.local_name@ && color@ == self.local_color@),
    {
        if is_host {
            NetMsg::State { state: self.state.clone() }
        } else {
            NetMsg::Hello {
                id: self.local_id.clone(),
                name: self.local_name.clone(),
                color: self.local_color.clone(),
            }
        }
    }

    /// A message arrives from a peer. On the host, a greeting adds the peer's player and
    /// a turn steers its snake; on a client, a board replaces the local one. Anything
    /// else is ignored.
    pub fn receive(&mut self, is_host: bool, msg: NetMsg) -> (event: PeerEvent)
        requires
            is_host ==> (msg matches NetMsg::Hello { id, .. } ==> (find_id(
                old(self).state@.snakes,
                id@,
            ) is None ==> old(self).state.snakes@.len() <= MAX_SNAKES)),
        ensures
            match (is_host, msg) {
                (true, NetMsg::Hello { id, name, color }) => event == PeerEvent::PlayerJoined
                    && final(self).state@ == add_snake_model(old(self).state@, id@, name@, color@),
                (true, NetMsg::Input { id, dir }) => event == PeerEvent::Steered
                    && final(self).state@ == set_input_model(old(self).state@, id@, dir),
                (false, NetMsg::State { state }) => event == (PeerEvent::BoardReplaced {
                    started: state.started,
                }) && final(self).state@ == state@,
                _ => event == PeerEvent::Ignored && final(self).state@ == old(self).state@,
            },
            final(self).role == old(self).role,
            final(self).local_id == old(self).local_id,
            final(self).local_name == old(self).local_name,
            final(self).local_color == old(self).local_color,
    {
        if is_host {
            match msg {
                NetMsg::Hello { id, name, color } => {
                    self.state.add_snake(id, name, color);
                    PeerEvent::PlayerJoined
                },
                NetMsg::Input { id, dir } => {
                    self.state.set_input(id.as_str(), dir);
                    PeerEvent::Steered
                },
                NetMsg::State { .. } => PeerEvent::Ignored,
            }
        } else {
            match msg {
                NetMsg::State { state } => {
                    let started = state.started;
                    self.state = state;
                    PeerEvent::BoardReplaced { started }
                },
                _ => PeerEvent::Ignored,
            }
        }
    }

    /// Which host controls the page hides: (add-player button, start button). Only the
    /// host sees them, and the start button only until play starts.
    pub fn hidden_actions(&self) -> (hidden: (bool, bool))
        ensures
            hidden.0 == (self.role != Role::Host),
            hidden.1 == (self.role != Role::Host || self.state.started),
    {
        (self.role != Role::Host, self.role != Role::Host || self.state.started)
    }
}

} // verus!
