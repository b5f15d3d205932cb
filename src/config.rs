//! Combatants described by configuration records, and how they enter a battle.
use crate::location::Location;
use crate::player::{Attribute, Player, PlayerAttribute};
use vstd::prelude::*;

verus! {

/// A position as configured, in location steps (thousandths of a unit).
#[derive(Debug, Clone, Copy, PartialEq, Eq, Structural)]
pub struct LocationConfig {
    pub x: i32,
    pub y: i32,
    pub z: i32,
}

/// A combatant as configured: its name, the value of each statistic and its
/// position.
#[derive(Debug)]
pub struct PlayerConfig {
    pub name: String,
    pub attack: i32,
    pub defense: i32,
    pub armor: i32,
    pub power: i32,
    pub speed: i32,
    pub range: i32,
    pub loc: LocationConfig,
}

/// The combatants of a configured battle.
#[derive(Debug)]
pub struct SimulationConfig {
    pub players: Vec<PlayerConfig>,
}

pub open spec fn location_of(c: LocationConfig) -> Location {
    Location { x: c.x, y: c.y, z: c.z }
}

pub open spec fn attribute_of(kind: Attribute, value: i32) -> PlayerAttribute {
    PlayerAttribute { name: kind, base: value, curr: value }
}

/// The combatant that a configuration record describes: each statistic gets
/// the configured value as both its base and its current value.
pub open spec fn player_of(c: PlayerConfig) -> Player {
    Player {
        name: c.name,
        attack: attribute_of(Attribute::Attack, c.attack),
        defense: attribute_of(Attribute::Defense, c.defense),
        armor: attribute_of(Attribute::Armor, c.armor),
        power: attribute_of(Attribute::Power, c.power),
        speed: attribute_of(Attribute::Speed, c.speed),
        range: attribute_of(Attribute::Range, c.range),
        loc: location_of(c.loc),
    }
}

impl From<LocationConfig> for Location {
    fn from(config: LocationConfig) -> (r: Location)
        ensures
            r == location_of(config),
    {
        Location::new(config.x, config.y, config.z)
    }
}

impl vstd::std_specs::convert::FromSpecImpl<LocationConfig> for Location {
    open spec fn obeys_from_spec() -> bool {
        true
    }

    open spec fn from_spec(v: LocationConfig) -> Location {
        location_of(v)
    }
}

impl<'a> From<&'a LocationConfig> for Location {
    fn from(config: &'a LocationConfig) -> (r: Location)
        ensures
            r == location_of(*config),
    {
        Location::new(config.x, config.y, config.z)
    }
}

impl<'a> vstd::std_specs::convert::FromSpecImpl<&'a LocationConfig> for Location {
    open spec fn obeys_from_spec() -> bool {
        true
    }

    open spec fn from_spec(v: &'a LocationConfig) -> Location {
        location_of(*v)
    }
}

impl From<PlayerConfig> for Player {
    fn from(config: PlayerConfig) -> (r: Player)
        ensures
            r == player_of(config),
    {
        let mut player = Player::new("");
        player.attack.set(config.attack);
        player.defense.set(config.defense);
        player.armor.set(config.armor);
        player.power.set(config.power);
        player.speed.set(config.speed);
        player.range.set(config.range);
        player.loc = Location::from(&config.loc);
        player.name = config.name;
        player
    }
}

impl vstd::std_specs::convert::FromSpecImpl<PlayerConfig> for Player {
    open spec fn obeys_from_spec() -> bool {
        true
    }

    open spec fn from_spec(v: PlayerConfig) -> Player {
        player_of(v)
    }
}

/// Reading a combatant out of a configuration record gives back its name,
/// the configured value of each statistic and its position, unchanged.
pub proof fn lemma_config_round_trip(c: PlayerConfig)
    ensures
        player_of(c).name == c.name,
        player_of(c).attack.base == c.attack && player_of(c).attack.curr == c.attack,
        player_of(c).defense.base == c.defense && player_of(c).defense.curr == c.defense,
        player_of(c).armor.base == c.armor && player_of(c).armor.curr == c.armor,
        player_of(c).power.base == c.power && player_of(c).power.curr == c.power,
        player_of(c).speed.base == c.speed && player_of(c).speed.curr == c.speed,
        player_of(c).range.base == c.range && player_of(c).range.curr == c.range,
        player_of(c).loc.x == c.loc.x,
        player_of(c).loc.y == c.loc.y,
        player_of(c).loc.z == c.loc.z,
{
}

/// The combatants of `config`, in the order configured.
pub fn players_from_config(config: SimulationConfig) -> (r: Vec<Player>)
    ensures
        r@.len() == config.players@.len(),
        forall|i: int| 0 <= i < r@.len() ==> #[trigger] r@[i] == player_of(config.players@[i]),
{
    let ghost given = config.players@;
    let mut rest = config.players;
    let mut players: Vec<Player> = Vec::new();
    while rest.len() > 0
        invariant
            rest@.len() <= given.len(),
            rest@ == given.subrange(given.len() - rest@.len(), given.len() as int),
            players@.len() == given.len() - rest@.len(),
            forall|i: int| 0 <= i < players@.len() ==> #[trigger] players@[i] == player_of(given[i]),
        decreases rest@.len(),
    {
        let ghost k = players@.len();
        let c = rest.remove(0);
        players.push(Player::from(c));
        assert(rest@ =~= given.subrange(given.len() - rest@.len(), given.len() as int));
    }
    players
}

} // verus!
