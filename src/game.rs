//! The battle: nearest-opponent targeting and the turn protocol.
use crate::location::{distance_spec, sq_dist};
use crate::player::{
    after_damage, applied_damage, damage_amount, hits, in_range_spec, is_dead_spec, moved, Player,
};
use rand::rngs::ThreadRng;
use std::collections::VecDeque;
use vstd::prelude::*;

verus! {

/// The turn cap that a new battle gets.
pub const MAX_TURNS: i32 = 256;

/// The combatants still standing, in the order in which they act, and the count
/// of turns played.
pub struct Game {
    pub turns: i32,
    pub players: VecDeque<Player>,
    /// The battle ends, undecided, once more turns than this have been played.
    pub max_turns: i32,
}

/// What the active combatant did in one turn.
#[derive(Debug, Clone, Copy, PartialEq, Eq, Structural)]
pub enum TurnOutcome {
    /// No other combatant was there to target.
    Idle,
    /// The target was out of range; the combatant moved towards it from this
    /// distance (in location steps).
    Moved { distance: u64 },
    /// The target was in range and the attack failed.
    Missed,
    /// The attack got through and the target lost `damage` armor; `defeated`
    /// tells whether the target fell and left the battle.
    Hit { damage: i32, defeated: bool },
}

/// One turn, as told afterwards: who acted, on whom, and how it went.
#[derive(Debug)]
pub struct TurnReport {
    pub actor: String,
    pub target: String,
    pub outcome: TurnOutcome,
}

/// Whether `p` is a possible target for `src`: any combatant of another name.
pub open spec fn is_opponent(p: Player, src: Player) -> bool {
    p.name@ != src.name@
}

/// The index of the nearest opponent of `src` among the first `k` of `ps`; of
/// opponents at the same distance, the first.
pub open spec fn nearest_among(ps: Seq<Player>, src: Player, k: int) -> Option<int>
    decreases k,
{
    if k <= 0 {
        None
    } else {
        let best = nearest_among(ps, src, k - 1);
        let c = ps[k - 1];
        if !is_opponent(c, src) {
            best
        } else {
            match best {
                None => Some(k - 1),
                Some(b) => if sq_dist(src.loc, c.loc) < sq_dist(src.loc, ps[b].loc) {
                    Some(k - 1)
                } else {
                    Some(b)
                },
            }
        }
    }
}

/// The index of the nearest opponent of `src` in `ps`, the first of equals.
pub open spec fn nearest(ps: Seq<Player>, src: Player) -> Option<int> {
    nearest_among(ps, src, ps.len() as int)
}

pub open spec fn valid_roll(roll: (int, int)) -> bool {
    1 <= roll.0 <= 20 && 1 <= roll.1 <= 8
}

/// The combatants after one turn of the first of `ps`, with an attack roll of
/// `roll.0` and a damage roll of `roll.1`: it targets its nearest opponent
/// among the others, attacks it if in range (and removes it if it falls) or
/// else moves towards it, and then goes to the back of the order.
pub open spec fn turn_spec(ps: Seq<Player>, roll: (int, int)) -> Seq<Player> {
    let p = ps[0];
    let rest = ps.drop_first();
    match nearest(rest, p) {
        None => rest.push(p),
        Some(i) => {
            let t = rest[i];
            if !in_range_spec(p, t.loc) {
                rest.push(moved(p, t.loc))
            } else if !hits(p, t, roll.0) {
                rest.push(p)
            } else {
                let hurt = after_damage(t, damage_amount(p, roll.1));
                if is_dead_spec(hurt) {
                    rest.remove(i).push(p)
                } else {
                    rest.update(i, hurt).push(p)
                }
            }
        },
    }
}

/// How the turn of the first of `ps` goes, with the rolls `roll`.
pub open spec fn outcome_spec(ps: Seq<Player>, roll: (int, int)) -> TurnOutcome {
    let p = ps[0];
    let rest = ps.drop_first();
    match nearest(rest, p) {
        None => TurnOutcome::Idle,
        Some(i) => {
            let t = rest[i];
            if !in_range_spec(p, t.loc) {
                TurnOutcome::Moved { distance: distance_spec(p.loc, t.loc) as u64 }
            } else if !hits(p, t, roll.0) {
                TurnOutcome::Missed
            } else {
                let amount = damage_amount(p, roll.1);
                TurnOutcome::Hit {
                    damage: applied_damage(t, amount) as i32,
                    defeated: is_dead_spec(after_damage(t, amount)),
                }
            }
        },
    }
}

/// The name of the opponent that the first of `ps` targets, if any.
pub open spec fn target_name(ps: Seq<Player>) -> Seq<char> {
    match nearest(ps.drop_first(), ps[0]) {
        None => Seq::empty(),
        Some(i) => ps[i + 1].name@,
    }
}

/// The combatants after one turn for each roll of `rolls`, in order.
pub open spec fn play_out(ps: Seq<Player>, rolls: Seq<(int, int)>) -> Seq<Player>
    decreases rolls.len(),
{
    if rolls.len() == 0 {
        ps
    } else {
        turn_spec(play_out(ps, rolls.drop_last()), rolls.last())
    }
}

/// Whether a battle that began with `ps` and `turns` turns played goes on to
/// another turn after the turns of `rolls`: at least two combatants stand, and
/// (after the first of them) the cap has not been passed.
pub open spec fn continues(
    ps: Seq<Player>,
    turns: int,
    max_turns: int,
    rolls: Seq<(int, int)>,
) -> bool {
    play_out(ps, rolls).len() > 1 && (rolls.len() == 0 || turns + rolls.len() <= max_turns)
}

impl Game {
    pub fn new() -> (r: Game)
        ensures
            r.turns == 0,
            r.players@ == Seq::<Player>::empty(),
            r.max_turns == MAX_TURNS,
    {
        Game { turns: 0, players: VecDeque::new(), max_turns: MAX_TURNS }
    }

    /// An empty battle that ends undecided after more than `max_turns` turns.
    pub fn with_max_turns(max_turns: i32) -> (r: Game)
        ensures
            r.turns == 0,
            r.players@ == Seq::<Player>::empty(),
            r.max_turns == max_turns,
    {
        Game { turns: 0, players: VecDeque::new(), max_turns }
    }

    /// The index of the combatant nearest to `source` among those of another
    /// name, the first of several at the same distance; `None` if there is none.
    pub fn get_nearest(&self, source: &Player) -> (r: Option<usize>)
        ensures
            r matches Some(i) ==> nearest(self.players@, *source) == Some(i as int),
            r is None ==> nearest(self.players@, *source) is None,
            r is None <==> forall|j: int|
                0 <= j < self.players@.len() ==> !is_opponent(#[trigger] self.players@[j], *source),
            r matches Some(i) ==> {
                &&& i < self.players@.len()
                &&& is_opponent(self.players@[i as int], *source)
                &&& forall|j: int|
                    0 <= j < self.players@.len() && is_opponent(#[trigger] self.players@[j], *source)
                        ==> sq_dist(source.loc, self.players@[i as int].loc) <= sq_dist(source.loc, self.players@[j].loc)
                &&& forall|j: int|
                    0 <= j < i && is_opponent(#[trigger] self.players@[j], *source)
                        ==> sq_dist(source.loc, self.players@[i as int].loc) < sq_dist(source.loc, self.players@[j].loc)
            },
    {
        let ghost ps = self.players@;
        let mut best: Option<usize> = None;
        let mut best_distance: u128 = 0;
        let mut k: usize = 0;
        while k < self.players.len()
            invariant
                ps == self.players@,
                0 <= k <= ps.len(),
                best matches Some(b) ==> nearest_among(ps, *source, k as int) == Some(b as int),
                best is None ==> nearest_among(ps, *source, k as int) is None,
                best is None <==> forall|j: int| 0 <= j < k ==> !is_opponent(#[trigger] ps[j], *source),
                best matches Some(b) ==> {
                    &&& b < k
                    &&& is_opponent(ps[b as int], *source)
                    &&& best_distance == sq_dist(source.loc, ps[b as int].loc)
                    &&& forall|j: int|
                        0 <= j < k && is_opponent(#[trigger] ps[j], *source)
                            ==> best_distance <= sq_dist(source.loc, ps[j].loc)
                    &&& forall|j: int|
                        0 <= j < b && is_opponent(#[trigger] ps[j], *source)
                            ==> best_distance < sq_dist(source.loc, ps[j].loc)
                },
            decreases ps.len() - k,
        {
            let candidate = &self.players[k];
            if !(candidate.name == source.name) {
                let d = source.loc.squared_distance(&candidate.loc);
                let closer = match best {
                    None => true,
                    Some(_) => d < best_distance,
                };
                if closer {
                    best = Some(k);
                    best_distance = d;
                }
            }
            k = k + 1;
        }
        best
    }

    /// Plays the turn of the combatant at the front of the order, drawing an
    /// attack roll when its target is in range and a damage roll when the
    /// attack gets through. The turn count is left to the caller.
    pub fn take_turn(&mut self, rng: &mut ThreadRng) -> (r: TurnReport)
        ensures
            final(self).turns == old(self).turns,
            final(self).max_turns == old(self).max_turns,
            old(self).players@.len() == 0 ==> final(self).players@ == old(self).players@
                && r.outcome == TurnOutcome::Idle,
            old(self).players@.len() > 0 ==> {
                &&& r.actor@ == old(self).players@[0].name@
                &&& r.target@ == target_name(old(self).players@)
                &&& exists|roll: (int, int)|
                    {
                        &&& valid_roll(roll)
                        &&& final(self).players@ == turn_spec(old(self).players@, roll)
                        &&& r.outcome == outcome_spec(old(self).players@, roll)
                    }
            },
    {
        let ghost ps = self.players@;
        let mut player = match self.players.pop_front() {
            Some(p) => p,
            None => {
                return TurnReport {
                    actor: String::new(),
                    target: String::new(),
                    outcome: TurnOutcome::Idle,
                };
            },
        };
        let ghost rest = self.players@;
        assert(rest == ps.drop_first());
        let actor = player.name.clone();
        let idx = match self.get_nearest(&player) {
            Some(i) => i,
            None => {
                self.players.push_back(player);
                let r = TurnReport { actor, target: String::new(), outcome: TurnOutcome::Idle };
                assert(valid_roll((1, 1)));
                return r;
            },
        };
        let target = self.players[idx].name.clone();
        let target_loc = self.players[idx].loc;
        let outcome;
        if !player.in_range(&target_loc) {
            let distance = player.loc.distance(&target_loc);
            player.move_towards(&target_loc);
            outcome = TurnOutcome::Moved { distance };
            self.players.push_back(player);
            assert(valid_roll((1, 1)));
        } else {
            let hit = player.attack(&self.players[idx], rng);
            let ghost attack_roll = choose|roll: int|
                1 <= roll <= 20 && hit == hits(player, rest[idx as int], roll);
            if !hit {
                outcome = TurnOutcome::Missed;
                self.players.push_back(player);
                assert(valid_roll((attack_roll, 1)));
            } else {
                let mut victim = self.players.remove(idx).unwrap();
                let damage = player.damage(&mut victim, rng);
                let ghost damage_roll = choose|roll: int|
                    {
                        &&& 1 <= roll <= 8
                        &&& victim == after_damage(rest[idx as int], damage_amount(player, roll))
                        &&& damage == applied_damage(rest[idx as int], damage_amount(player, roll))
                    };
                let defeated = victim.is_dead();
                if !defeated {
                    self.players.insert(idx, victim);
                    assert(self.players@ =~= rest.update(
                        idx as int,
                        after_damage(rest[idx as int], damage_amount(player, damage_roll)),
                    ));
                }
                outcome = TurnOutcome::Hit { damage, defeated };
                self.players.push_back(player);
                assert(valid_roll((attack_roll, damage_roll)));
                assert(self.players@ == turn_spec(ps, (attack_roll, damage_roll)));
            }
        }
        TurnReport { actor, target, outcome }
    }

    /// Plays turns until at most one combatant stands or more than
    /// `max_turns` turns have been played, and returns the turn count.
    pub fn run_simulation(&mut self, rng: &mut ThreadRng) -> (r: i32)
        requires
            old(self).turns < i32::MAX,
            old(self).max_turns < i32::MAX,
        ensures
            r == final(self).turns,
            final(self).max_turns == old(self).max_turns,
            old(self).turns <= old(self).max_turns && final(self).players@.len() > 1
                ==> final(self).turns == old(self).max_turns + 1,
            exists|rolls: Seq<(int, int)>|
                {
                    &&& forall|k: int| 0 <= k < rolls.len() ==> valid_roll(#[trigger] rolls[k])
                    &&& final(self).turns == old(self).turns + rolls.len()
                    &&& final(self).players@ == play_out(old(self).players@, rolls)
                    &&& forall|k: int|
                        0 <= k < rolls.len() ==> continues(
                            old(self).players@,
                            old(self).turns as int,
                            old(self).max_turns as int,
                            #[trigger] rolls.take(k),
                        )
                    &&& !continues(
                        old(self).players@,
                        old(self).turns as int,
                        old(self).max_turns as int,
                        rolls,
                    )
                },
    {
        let ghost ps0 = self.players@;
        let ghost t0 = self.turns as int;
        let ghost mut rolls: Seq<(int, int)> = Seq::empty();
        assert(play_out(ps0, rolls) == ps0);
        while self.players.len() > 1
            invariant_except_break
                rolls.len() == 0 || self.turns <= self.max_turns,
                self.turns < i32::MAX,
            invariant
                self.max_turns == old(self).max_turns,
                self.max_turns < i32::MAX,
                ps0 == old(self).players@,
                t0 == old(self).turns,
                self.turns == t0 + rolls.len(),
                forall|k: int| 0 <= k < rolls.len() ==> valid_roll(#[trigger] rolls[k]),
                self.players@ == play_out(ps0, rolls),
                forall|k: int|
                    0 <= k < rolls.len() ==> continues(
                        ps0,
                        t0,
                        self.max_turns as int,
                        #[trigger] rolls.take(k),
                    ),
            ensures
                !continues(ps0, t0, self.max_turns as int, rolls),
            decreases self.max_turns + 2 - self.turns,
        {
            let ghost before = self.players@;
            let ghost done = rolls;
            assert(continues(ps0, t0, self.max_turns as int, done)) by {
                assert(done.len() == 0 || t0 + done.len() <= self.max_turns);
            }
            self.take_turn(rng);
            let ghost roll = choose|roll: (int, int)|
                valid_roll(roll) && self.players@ == turn_spec(before, roll);
            proof {
                rolls = done.push(roll);
                assert(rolls.drop_last() =~= done);
                assert forall|k: int| 0 <= k < rolls.len() implies continues(
                    ps0,
                    t0,
                    self.max_turns as int,
                    #[trigger] rolls.take(k),
                ) by {
                    if k < done.len() {
                        assert(rolls.take(k) =~= done.take(k));
                    } else {
                        assert(rolls.take(k) =~= done);
                    }
                }
            }
            self.turns = self.turns + 1;
            if self.turns > self.max_turns {
                break;
            }
        }
        assert(self.players@ == play_out(ps0, rolls));
        proof {
            if t0 <= self.max_turns && self.players@.len() > 1 {
                assert(rolls.len() > 0);
                assert(continues(ps0, t0, self.max_turns as int, rolls.take(rolls.len() - 1)));
            }
        }
        self.turns
    }
}

} // verus!
