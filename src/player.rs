//! Combatants: their attributes, and the rules of movement, attack and damage.
use crate::dice::{roll1d20, roll1d8, roll3d6};
use crate::location::{clamp_i32, step_spec, toward_zero_div, within_spec, Location};
use rand::rngs::ThreadRng;
use vstd::prelude::*;

verus! {

/// The six statistics that every combatant has.
#[derive(Debug, Clone, Copy, PartialEq, Eq, Structural)]
pub enum Attribute {
    Attack,
    Defense,
    Armor,
    Power,
    Speed,
    Range,
}

/// One statistic: the value it was given and the value it has now.
#[derive(Debug, Clone, Copy, PartialEq, Eq, Structural)]
pub struct PlayerAttribute {
    pub name: Attribute,
    pub base: i32,
    pub curr: i32,
}

/// The modifier of a statistic with current value `curr`: `(curr - 10.5) / 2`,
/// rounded toward zero.
pub open spec fn bonus_of(curr: int) -> int {
    toward_zero_div(2 * curr - 21, 4)
}

impl PlayerAttribute {
    pub fn new(name: Attribute) -> (r: PlayerAttribute)
        ensures
            r == (PlayerAttribute { name, base: 0, curr: 0 }),
    {
        PlayerAttribute { name: name, base: 0, curr: 0 }
    }

    /// Gives the statistic `value` as both its base and its current value.
    pub fn set(&mut self, value: i32)
        ensures
            *final(self) == (PlayerAttribute { name: old(self).name, base: value, curr: value }),
    {
        self.base = value;
        self.curr = self.base;
    }

    pub fn bonus(&self) -> (r: i32)
        ensures
            r == bonus_of(self.curr as int),
    {
        let n: i64 = 2 * (self.curr as i64) - 21;
        if n >= 0 {
            (n / 4) as i32
        } else {
            -(((-n) / 4) as i32)
        }
    }

    /// Rolls three six-sided dice for both the base and the current value.
    pub fn randomize(&mut self, rng: &mut ThreadRng)
        ensures
            final(self).name == old(self).name,
            final(self).curr == final(self).base,
            3 <= final(self).base <= 18,
    {
        self.base = roll3d6(rng);
        self.curr = self.base;
    }
}

/// A combatant: a name that tells it apart from the others in a battle, six
/// statistics and a position.
#[derive(Debug)]
pub struct Player {
    pub name: String,
    pub attack: PlayerAttribute,
    pub defense: PlayerAttribute,
    pub armor: PlayerAttribute,
    pub power: PlayerAttribute,
    pub speed: PlayerAttribute,
    pub range: PlayerAttribute,
    pub loc: Location,
}

/// Whether an attack roll of `roll` by `attacker` gets through `target`'s
/// defense (a tie favours the attacker).
pub open spec fn hits(attacker: Player, target: Player, roll: int) -> bool {
    bonus_of(attacker.attack.curr as int) + roll >= target.defense.curr
}

/// The damage that `attacker` deals with a damage roll of `roll`: the roll plus
/// the power modifier, or nothing where that is below one.
pub open spec fn damage_amount(attacker: Player, roll: int) -> int {
    let amount = roll + bonus_of(attacker.power.curr as int);
    if amount < 1 {
        0
    } else {
        amount
    }
}

/// `target` after losing `amount` armor; the value stops at the least `i32`.
pub open spec fn after_damage(target: Player, amount: int) -> Player {
    if amount < 1 {
        target
    } else {
        Player {
            armor: PlayerAttribute { curr: clamp_i32(target.armor.curr - amount), ..target.armor },
            ..target
        }
    }
}

/// How much armor `target` actually loses to a blow of `amount`: all of it,
/// unless the armor stops at the least `i32`.
pub open spec fn applied_damage(target: Player, amount: int) -> int {
    target.armor.curr - after_damage(target, amount).armor.curr
}

pub open spec fn is_dead_spec(p: Player) -> bool {
    p.armor.curr < 1
}

/// `p` after one move towards `target` at its current speed.
pub open spec fn moved(p: Player, target: Location) -> Player {
    Player { loc: step_spec(p.loc, target, p.speed.curr as int), ..p }
}

pub open spec fn in_range_spec(p: Player, target: Location) -> bool {
    within_spec(p.loc, target, p.range.curr as int)
}

/// `a` has just been rolled from `before`: same kind, and base and current
/// value agree and lie in the range of three six-sided dice.
pub open spec fn freshly_rolled(a: PlayerAttribute, before: PlayerAttribute) -> bool {
    a.name == before.name && a.curr == a.base && 3 <= a.base <= 18
}

impl Player {
    /// A combatant named `name` with every statistic at zero, at the origin.
    pub fn new(name: &str) -> (r: Player)
        ensures
            r.name@ == name@,
            r.attack == (PlayerAttribute { name: Attribute::Attack, base: 0, curr: 0 }),
            r.defense == (PlayerAttribute { name: Attribute::Defense, base: 0, curr: 0 }),
            r.armor == (PlayerAttribute { name: Attribute::Armor, base: 0, curr: 0 }),
            r.power == (PlayerAttribute { name: Attribute::Power, base: 0, curr: 0 }),
            r.speed == (PlayerAttribute { name: Attribute::Speed, base: 0, curr: 0 }),
            r.range == (PlayerAttribute { name: Attribute::Range, base: 0, curr: 0 }),
            r.loc == (Location { x: 0, y: 0, z: 0 }),
    {
        Player {
            name: name.to_owned(),
            attack: PlayerAttribute::new(Attribute::Attack),
            defense: PlayerAttribute::new(Attribute::Defense),
            armor: PlayerAttribute::new(Attribute::Armor),
            power: PlayerAttribute::new(Attribute::Power),
            speed: PlayerAttribute::new(Attribute::Speed),
            range: PlayerAttribute::new(Attribute::Range),
            loc: Location::new(0, 0, 0),
        }
    }

    /// Rolls every statistic and places the combatant at random in the arena.
    pub fn randomize(&mut self, rng: &mut ThreadRng)
        ensures
            final(self).name == old(self).name,
            freshly_rolled(final(self).attack, old(self).attack),
            freshly_rolled(final(self).defense, old(self).defense),
            freshly_rolled(final(self).armor, old(self).armor),
            freshly_rolled(final(self).power, old(self).power),
            freshly_rolled(final(self).speed, old(self).speed),
            freshly_rolled(final(self).range, old(self).range),
            crate::location::UNIT <= final(self).loc.x <= crate::location::ARENA_SIZE
                * crate::location::UNIT,
            crate::location::UNIT <= final(self).loc.y <= crate::location::ARENA_SIZE
                * crate::location::UNIT,
            final(self).loc.x % crate::location::UNIT == 0,
            final(self).loc.y % crate::location::UNIT == 0,
            final(self).loc.z == 0,
    {
        self.attack.randomize(rng);
        self.defense.randomize(rng);
        self.armor.randomize(rng);
        self.power.randomize(rng);
        self.speed.randomize(rng);
        self.range.randomize(rng);
        self.loc.randomize(rng);
    }

    /// Moves one step of the current speed towards `target`; a combatant within
    /// one step of it stays where it is.
    pub fn move_towards(&mut self, target: &Location)
        ensures
            *final(self) == moved(*old(self), *target),
    {
        self.loc = self.loc.step_towards(target, self.speed.curr);
    }

    /// Whether `target` lies within this combatant's range.
    pub fn in_range(&self, target: &Location) -> (r: bool)
        ensures
            r == in_range_spec(*self, *target),
    {
        self.loc.is_within(target, self.range.curr)
    }

    /// Rolls a twenty-sided die to attack `target`.
    pub fn attack(&self, target: &Player, rng: &mut ThreadRng) -> (r: bool)
        ensures
            exists|roll: int| 1 <= roll <= 20 && r == hits(*self, *target, roll),
    {
        let roll = roll1d20(rng);
        self.resolve_attack(target, roll)
    }

    /// Whether an attack with a roll of `roll` gets through `target`'s defense.
    pub fn resolve_attack(&self, target: &Player, roll: i32) -> (r: bool)
        ensures
            r == hits(*self, *target, roll as int),
    {
        self.attack.bonus() as i64 + roll as i64 >= target.defense.curr as i64
    }

    /// Rolls an eight-sided die for the damage dealt to `target`, and returns
    /// the armor that `target` lost.
    pub fn damage(&self, target: &mut Player, rng: &mut ThreadRng) -> (r: i32)
        ensures
            exists|roll: int|
                {
                    &&& 1 <= roll <= 8
                    &&& *final(target) == after_damage(*old(target), damage_amount(*self, roll))
                    &&& r == applied_damage(*old(target), damage_amount(*self, roll))
                },
    {
        let roll = roll1d8(rng);
        self.resolve_damage(target, roll)
    }

    /// Deals the damage of a damage roll of `roll` to `target`, and returns the
    /// armor that `target` lost.
    pub fn resolve_damage(&self, target: &mut Player, roll: i32) -> (r: i32)
        requires
            1 <= roll <= 8,
        ensures
            *final(target) == after_damage(*old(target), damage_amount(*self, roll as int)),
            r == applied_damage(*old(target), damage_amount(*self, roll as int)),
    {
        let amount = roll + self.power.bonus();
        if amount < 1 {
            return 0;
        }
        let before = target.armor.curr;
        let remaining: i64 = before as i64 - amount as i64;
        target.armor.curr = if remaining < i32::MIN as i64 {
            i32::MIN
        } else {
            remaining as i32
        };
        (before as i64 - target.armor.curr as i64) as i32
    }

    pub fn is_dead(&self) -> (r: bool)
        ensures
            r == is_dead_spec(*self),
    {
        self.armor.curr < 1
    }
}

} // verus!
