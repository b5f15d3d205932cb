//! A battle played one turn at a time, with a bounded log of what happened.
use crate::game::{
    outcome_spec, target_name, turn_spec, valid_roll, Game, TurnOutcome, TurnReport,
};
use crate::player::Player;
use crate::text::{int_string, int_text, tenths_string, tenths_text};
use rand::rngs::ThreadRng;
use std::collections::VecDeque;
use vstd::prelude::*;

verus! {

/// Where an interactive battle stands.
#[derive(Debug, Clone, Copy, PartialEq, Eq, Structural)]
pub enum AppState {
    Setup,
    Running,
    Paused,
    Finished,
    Quit,
}

/// What kind of thing a log entry reports.
#[derive(Debug, Clone, Copy, PartialEq, Eq, Structural)]
pub enum BattleEventType {
    Movement,
    Attack,
    Hit,
    Miss,
    Death,
    Info,
}

/// A log entry: the turn it happened in, what happened, and its kind.
#[derive(Debug)]
pub struct BattleEvent {
    pub turn: i32,
    pub message: String,
    pub event_type: BattleEventType,
}

impl View for BattleEvent {
    type V = (int, Seq<char>, BattleEventType);

    open spec fn view(&self) -> (int, Seq<char>, BattleEventType) {
        (self.turn as int, self.message@, self.event_type)
    }
}

/// A battle driven one turn at a time, for a paced or interactive front end.
pub struct App {
    pub state: AppState,
    pub game: Game,
    pub battle_log: VecDeque<BattleEvent>,
    pub current_turn: i32,
    pub auto_advance: bool,
    /// Milliseconds between two turns when the battle advances by itself.
    pub tick_rate: u64,
    pub max_log_entries: usize,
}

/// The entries of a log, as values.
pub open spec fn log_view(log: Seq<BattleEvent>) -> Seq<(int, Seq<char>, BattleEventType)> {
    log.map_values(|e: BattleEvent| e@)
}

/// The last `max` elements of `s` (all of them if there are fewer).
pub open spec fn latest<A>(s: Seq<A>, max: nat) -> Seq<A> {
    if s.len() > max {
        s.subrange(s.len() - max, s.len() as int)
    } else {
        s
    }
}

/// A log that keeps `max` entries after `events` are added to it, one by one.
pub open spec fn record<A>(log: Seq<A>, events: Seq<A>, max: nat) -> Seq<A>
    decreases events.len(),
{
    if events.len() == 0 {
        log
    } else {
        latest(record(log, events.drop_last(), max).push(events.last()), max)
    }
}

/// Adding events one by one keeps the last `max` entries after each addition.
pub proof fn lemma_record_push<A>(log: Seq<A>, events: Seq<A>, e: A, max: nat)
    ensures
        record(log, events.push(e), max) == latest(record(log, events, max).push(e), max),
{
    assert(events.push(e).drop_last() =~= events);
}

proof fn lemma_latest_push<A>(s: Seq<A>, e: A, max: nat)
    ensures
        latest(latest(s, max).push(e), max) == latest(s.push(e), max),
{
    if s.len() > max {
        let t = latest(s, max).push(e);
        assert(latest(t, max) =~= latest(s.push(e), max));
    }
}

/// Adding events one at a time to a log bounded by `max` leaves the same log
/// as adding them all at once and keeping the last `max` entries.
pub proof fn lemma_record_is_latest<A>(log: Seq<A>, events: Seq<A>, max: nat)
    requires
        events.len() > 0,
    ensures
        record(log, events, max) == latest(log + events, max),
    decreases events.len(),
{
    let prev = events.drop_last();
    assert(record(log, events, max) == latest(record(log, prev, max).push(events.last()), max));
    if prev.len() == 0 {
        assert(record(log, prev, max) == log);
        assert(log + events =~= log.push(events.last()));
    } else {
        lemma_record_is_latest(log, prev, max);
        assert(log + events =~= (log + prev).push(events.last()));
        lemma_latest_push(log + prev, events.last(), max);
    }
}

/// Once more events than the bound `max` have been added to a log, it holds
/// exactly the last `max` of them, in the order they came; every older entry
/// is gone.
pub proof fn lemma_log_keeps_latest<A>(log: Seq<A>, events: Seq<A>, max: nat)
    requires
        events.len() > max,
    ensures
        record(log, events, max).len() == max,
        record(log, events, max) == events.subrange(events.len() - max, events.len() as int),
{
    lemma_record_is_latest(log, events, max);
    assert((log + events).subrange((log + events).len() - max, (log + events).len() as int)
        =~= events.subrange(events.len() - max, events.len() as int));
}

pub open spec fn in_range_text(actor: Seq<char>, target: Seq<char>) -> Seq<char> {
    actor + " is in range of "@ + target
}

pub open spec fn hit_text(actor: Seq<char>, target: Seq<char>, damage: int) -> Seq<char> {
    actor + " hit "@ + target + " for "@ + int_text(damage) + " damage"@
}

pub open spec fn defeated_text(actor: Seq<char>, target: Seq<char>) -> Seq<char> {
    actor + " defeated "@ + target
}

pub open spec fn missed_text(actor: Seq<char>) -> Seq<char> {
    actor + " missed"@
}

pub open spec fn moves_text(actor: Seq<char>, target: Seq<char>, distance: nat) -> Seq<char> {
    actor + " moves towards "@ + target + " (distance: "@ + tenths_text(distance) + ")"@
}

pub open spec fn cap_text(max_turns: int) -> Seq<char> {
    "Battle reached maximum turns: "@ + int_text(max_turns)
}

pub open spec fn winner_text(name: Seq<char>, armor: int, base: int) -> Seq<char> {
    name + " is the winner with "@ + int_text(armor) + "/"@ + int_text(base)
        + " health remaining!"@
}

/// The log entries that tell of one turn, played in turn `turn`.
pub open spec fn turn_events(
    turn: int,
    actor: Seq<char>,
    target: Seq<char>,
    outcome: TurnOutcome,
) -> Seq<(int, Seq<char>, BattleEventType)> {
    match outcome {
        TurnOutcome::Idle => seq![],
        TurnOutcome::Moved { distance } => seq![
            (turn, moves_text(actor, target, distance as nat), BattleEventType::Movement),
        ],
        TurnOutcome::Missed => seq![
            (turn, in_range_text(actor, target), BattleEventType::Info),
            (turn, missed_text(actor), BattleEventType::Miss),
        ],
        TurnOutcome::Hit { damage, defeated } => {
            let hit = seq![
                (turn, in_range_text(actor, target), BattleEventType::Info),
                (turn, hit_text(actor, target, damage as int), BattleEventType::Hit),
            ];
            if defeated {
                hit.push((turn, defeated_text(actor, target), BattleEventType::Death))
            } else {
                hit
            }
        },
    }
}

/// The log entry that closes a battle left with `players`: the winner, or an
/// undecided end.
pub open spec fn finish_event(turn: int, players: Seq<Player>) -> (
    int,
    Seq<char>,
    BattleEventType,
) {
    if players.len() == 1 {
        (
            turn,
            winner_text(players[0].name@, players[0].armor.curr as int, players[0].armor.base as int),
            BattleEventType::Info,
        )
    } else {
        (turn, "Battle ended inconclusively"@, BattleEventType::Info)
    }
}

/// Whether a battle left with `players` after `turns` turns, under the turn
/// cap `max_turns`, goes on to another turn.
pub open spec fn goes_on(players: Seq<Player>, turns: int, max_turns: int) -> bool {
    players.len() > 1 && turns < max_turns
}

/// The log entries that close a battle left with `players` after `turns`
/// turns: none while it goes on; else the turn cap, if that is what ended it,
/// and the outcome.
pub open spec fn closing_events(players: Seq<Player>, turns: int, max_turns: int) -> Seq<
    (int, Seq<char>, BattleEventType),
> {
    if goes_on(players, turns, max_turns) {
        seq![]
    } else if players.len() <= 1 {
        seq![finish_event(turns, players)]
    } else {
        seq![(turns, cap_text(max_turns), BattleEventType::Info), finish_event(turns, players)]
    }
}

/// `a` and `b` agree on everything but the log.
pub open spec fn same_but_log(a: App, b: App) -> bool {
    &&& a.state == b.state
    &&& a.game == b.game
    &&& a.current_turn == b.current_turn
    &&& a.auto_advance == b.auto_advance
    &&& a.tick_rate == b.tick_rate
    &&& a.max_log_entries == b.max_log_entries
}

fn in_range_message(actor: &String, target: &String) -> (r: String)
    ensures
        r@ == in_range_text(actor@, target@),
{
    let mut m = actor.clone();
    m.append(" is in range of ");
    m.append(target.as_str());
    m
}

fn hit_message(actor: &String, target: &String, damage: i32) -> (r: String)
    ensures
        r@ == hit_text(actor@, target@, damage as int),
{
    let mut m = actor.clone();
    m.append(" hit ");
    m.append(target.as_str());
    m.append(" for ");
    let amount = int_string(damage as i64);
    m.append(amount.as_str());
    m.append(" damage");
    m
}

fn defeated_message(actor: &String, target: &String) -> (r: String)
    ensures
        r@ == defeated_text(actor@, target@),
{
    let mut m = actor.clone();
    m.append(" defeated ");
    m.append(target.as_str());
    m
}

fn missed_message(actor: &String) -> (r: String)
    ensures
        r@ == missed_text(actor@),
{
    let mut m = actor.clone();
    m.append(" missed");
    m
}

fn moves_message(actor: &String, target: &String, distance: u64) -> (r: String)
    ensures
        r@ == moves_text(actor@, target@, distance as nat),
{
    let mut m = actor.clone();
    m.append(" moves towards ");
    m.append(target.as_str());
    m.append(" (distance: ");
    let d = tenths_string(distance);
    m.append(d.as_str());
    m.append(")");
    m
}

fn cap_message(max_turns: i32) -> (r: String)
    ensures
        r@ == cap_text(max_turns as int),
{
    let m = "Battle reached maximum turns: ".to_owned();
    let n = int_string(max_turns as i64);
    m.concat(n.as_str())
}

fn winner_message(winner: &Player) -> (r: String)
    ensures
        r@ == winner_text(winner.name@, winner.armor.curr as int, winner.armor.base as int),
{
    let mut m = winner.name.clone();
    m.append(" is the winner with ");
    let curr = int_string(winner.armor.curr as i64);
    m.append(curr.as_str());
    m.append("/");
    let base = int_string(winner.armor.base as i64);
    m.append(base.as_str());
    m.append(" health remaining!");
    m
}

impl App {
    pub fn new() -> (r: App)
        ensures
            r.state == AppState::Setup,
            r.game.turns == 0,
            r.game.players@ == Seq::<Player>::empty(),
            r.game.max_turns == crate::game::MAX_TURNS,
            r.battle_log@ == Seq::<BattleEvent>::empty(),
            r.current_turn == 0,
            !r.auto_advance,
            r.tick_rate == 500,
            r.max_log_entries == 50,
    {
        App {
            state: AppState::Setup,
            game: Game::new(),
            battle_log: VecDeque::new(),
            current_turn: 0,
            auto_advance: false,
            tick_rate: 500,
            max_log_entries: 50,
        }
    }

    /// Puts `players` at the back of the order, in the order given.
    pub fn add_players(&mut self, players: Vec<Player>)
        ensures
            final(self).game.players@ == old(self).game.players@ + players@,
            final(self).game.turns == old(self).game.turns,
            final(self).game.max_turns == old(self).game.max_turns,
            final(self).state == old(self).state,
            final(self).battle_log == old(self).battle_log,
            final(self).current_turn == old(self).current_turn,
            final(self).auto_advance == old(self).auto_advance,
            final(self).tick_rate == old(self).tick_rate,
            final(self).max_log_entries == old(self).max_log_entries,
    {
        let ghost given = players@;
        let mut rest = players;
        while rest.len() > 0
            invariant
                rest@.len() <= given.len(),
                rest@ == given.subrange(given.len() - rest@.len(), given.len() as int),
                self.game.players@ == old(self).game.players@ + given.subrange(
                    0,
                    given.len() - rest@.len(),
                ),
                self.game.turns == old(self).game.turns,
                self.game.max_turns == old(self).game.max_turns,
                self.state == old(self).state,
                self.battle_log == old(self).battle_log,
                self.current_turn == old(self).current_turn,
                self.auto_advance == old(self).auto_advance,
                self.tick_rate == old(self).tick_rate,
                self.max_log_entries == old(self).max_log_entries,
            decreases rest@.len(),
        {
            let ghost k = given.len() - rest@.len();
            let p = rest.remove(0);
            self.game.players.push_back(p);
            assert(self.game.players@ =~= old(self).game.players@ + given.subrange(0, k + 1));
            assert(rest@ =~= given.subrange(given.len() - rest@.len(), given.len() as int));
        }
        assert(given.subrange(0, given.len() as int) =~= given);
    }

    /// Starts a battle that is being set up, if anyone takes part in it.
    pub fn start_battle(&mut self)
        ensures
            old(self).state != AppState::Setup ==> *final(self) == *old(self),
            old(self).game.players@.len() == 0 ==> *final(self) == *old(self),
            old(self).state == AppState::Setup && old(self).game.players@.len() > 0 ==> {
                &&& final(self).state == AppState::Running
                &&& same_but_log(*final(self), App { state: AppState::Running, ..*old(self) })
                &&& log_view(final(self).battle_log@) == latest(
                    log_view(old(self).battle_log@).push(
                        (old(self).current_turn as int, "Battle begins!"@, BattleEventType::Info),
                    ),
                    old(self).max_log_entries as nat,
                )
            },
    {
        if self.state == AppState::Setup && self.game.players.len() > 0 {
            self.state = AppState::Running;
            self.add_battle_event("Battle begins!".to_owned(), BattleEventType::Info);
        }
    }

    pub fn pause_battle(&mut self)
        ensures
            *final(self) == (App {
                state: if old(self).state == AppState::Running {
                    AppState::Paused
                } else {
                    old(self).state
                },
                ..*old(self)
            }),
    {
        if self.state == AppState::Running {
            self.state = AppState::Paused;
        }
    }

    pub fn resume_battle(&mut self)
        ensures
            *final(self) == (App {
                state: if old(self).state == AppState::Paused {
                    AppState::Running
                } else {
                    old(self).state
                },
                ..*old(self)
            }),
    {
        if self.state == AppState::Paused {
            self.state = AppState::Running;
        }
    }

    /// Pauses a running battle and resumes a paused one.
    pub fn toggle_pause(&mut self)
        ensures
            *final(self) == (App {
                state: match old(self).state {
                    AppState::Running => AppState::Paused,
                    AppState::Paused => AppState::Running,
                    other => other,
                },
                ..*old(self)
            }),
    {
        match self.state {
            AppState::Running => self.pause_battle(),
            AppState::Paused => self.resume_battle(),
            _ => {},
        }
    }

    pub fn quit(&mut self)
        ensures
            *final(self) == (App { state: AppState::Quit, ..*old(self) }),
    {
        self.state = AppState::Quit;
    }

    /// Ends the battle and logs its outcome: the winner with the armor left,
    /// or an undecided end.
    pub fn finish_battle(&mut self)
        ensures
            same_but_log(*final(self), App { state: AppState::Finished, ..*old(self) }),
            log_view(final(self).battle_log@) == latest(
                log_view(old(self).battle_log@).push(
                    finish_event(old(self).current_turn as int, old(self).game.players@),
                ),
                old(self).max_log_entries as nat,
            ),
    {
        self.state = AppState::Finished;
        if self.game.players.len() == 1 {
            let message = winner_message(&self.game.players[0]);
            self.add_battle_event(message, BattleEventType::Info);
        } else {
            self.add_battle_event("Battle ended inconclusively".to_owned(), BattleEventType::Info);
        }
    }

    /// Logs an event of the current turn; beyond `max_log_entries` entries
    /// the oldest ones are dropped.
    pub fn add_battle_event(&mut self, message: String, event_type: BattleEventType)
        ensures
            same_but_log(*final(self), *old(self)),
            log_view(final(self).battle_log@) == latest(
                log_view(old(self).battle_log@).push(
                    (old(self).current_turn as int, message@, event_type),
                ),
                old(self).max_log_entries as nat,
            ),
    {
        let ghost full = log_view(old(self).battle_log@).push(
            (old(self).current_turn as int, message@, event_type),
        );
        let event = BattleEvent { turn: self.current_turn, message, event_type };
        self.battle_log.push_back(event);
        assert(log_view(self.battle_log@) =~= full);
        while self.battle_log.len() > self.max_log_entries
            invariant
                same_but_log(*self, *old(self)),
                self.battle_log@.len() <= full.len(),
                full.len() <= self.max_log_entries ==> self.battle_log@.len() == full.len(),
                full.len() > self.max_log_entries ==> self.battle_log@.len() >= self.max_log_entries,
                log_view(self.battle_log@) == full.subrange(
                    full.len() - self.battle_log@.len(),
                    full.len() as int,
                ),
            decreases self.battle_log@.len(),
        {
            let ghost before = self.battle_log@;
            self.battle_log.pop_front();
            assert forall|i: int| 0 <= i < self.battle_log@.len() implies log_view(
                self.battle_log@,
            )[i] == log_view(before)[i + 1] by {
                assert(self.battle_log@[i] == before[i + 1]);
            }
            assert(log_view(self.battle_log@) =~= full.subrange(
                full.len() - self.battle_log@.len(),
                full.len() as int,
            ));
        }
        assert(log_view(self.battle_log@) =~= latest(full, self.max_log_entries as nat));
    }

    /// The last standing combatant, once only one is left.
    pub fn get_winner(&self) -> (r: Option<&Player>)
        ensures
            r matches Some(p) ==> self.game.players@.len() == 1 && *p == self.game.players@[0],
            r is None <==> self.game.players@.len() != 1,
    {
        if self.game.players.len() == 1 {
            Some(&self.game.players[0])
        } else {
            None
        }
    }

    pub fn get_battle_log(&self) -> (r: &VecDeque<BattleEvent>)
        ensures
            r == &self.battle_log,
    {
        &self.battle_log
    }

    pub fn toggle_auto_advance(&mut self)
        ensures
            *final(self) == (App { auto_advance: !old(self).auto_advance, ..*old(self) }),
    {
        self.auto_advance = !self.auto_advance;
    }

    pub fn should_quit(&self) -> (r: bool)
        ensures
            r == (self.state == AppState::Quit),
    {
        self.state == AppState::Quit
    }

    /// Logs the entries that tell of the turn in `report`.
    fn report_turn(&mut self, report: &TurnReport)
        ensures
            same_but_log(*final(self), *old(self)),
            log_view(final(self).battle_log@) == record(
                log_view(old(self).battle_log@),
                turn_events(
                    old(self).current_turn as int,
                    report.actor@,
                    report.target@,
                    report.outcome,
                ),
                old(self).max_log_entries as nat,
            ),
    {
        let ghost log0 = log_view(self.battle_log@);
        let ghost max = self.max_log_entries as nat;
        let ghost turn = self.current_turn as int;
        let ghost mut evs: Seq<(int, Seq<char>, BattleEventType)> = seq![];
        assert(record(log0, evs, max) == log0);
        match report.outcome {
            TurnOutcome::Idle => {},
            TurnOutcome::Moved { distance } => {
                let m = moves_message(&report.actor, &report.target, distance);
                let ghost e = (turn, m@, BattleEventType::Movement);
                self.add_battle_event(m, BattleEventType::Movement);
                proof {
                    lemma_record_push(log0, evs, e, max);
                    evs = evs.push(e);
                }
            },
            TurnOutcome::Missed => {
                let m = in_range_message(&report.actor, &report.target);
                let ghost e = (turn, m@, BattleEventType::Info);
                self.add_battle_event(m, BattleEventType::Info);
                proof {
                    lemma_record_push(log0, evs, e, max);
                    evs = evs.push(e);
                }
                let m = missed_message(&report.actor);
                let ghost e = (turn, m@, BattleEventType::Miss);
                self.add_battle_event(m, BattleEventType::Miss);
                proof {
                    lemma_record_push(log0, evs, e, max);
                    evs = evs.push(e);
                }
            },
            TurnOutcome::Hit { damage, defeated } => {
                let m = in_range_message(&report.actor, &report.target);
                let ghost e = (turn, m@, BattleEventType::Info);
                self.add_battle_event(m, BattleEventType::Info);
                proof {
                    lemma_record_push(log0, evs, e, max);
                    evs = evs.push(e);
                }
                let m = hit_message(&report.actor, &report.target, damage);
                let ghost e = (turn, m@, BattleEventType::Hit);
                self.add_battle_event(m, BattleEventType::Hit);
                proof {
                    lemma_record_push(log0, evs, e, max);
                    evs = evs.push(e);
                }
                if defeated {
                    let m = defeated_message(&report.actor, &report.target);
                    let ghost e = (turn, m@, BattleEventType::Death);
                    self.add_battle_event(m, BattleEventType::Death);
                    proof {
                        lemma_record_push(log0, evs, e, max);
                        evs = evs.push(e);
                    }
                }
            },
        }
        assert(evs =~= turn_events(turn, report.actor@, report.target@, report.outcome));
    }

    /// Plays one turn of the battle and logs it. A battle with at most one
    /// combatant left, or that has reached its turn cap, is finished instead,
    /// and so is one that gets there by this turn. Returns whether the battle
    /// goes on.
    pub fn step_battle(&mut self, rng: &mut ThreadRng) -> (r: bool)
        ensures
            final(self).max_log_entries == old(self).max_log_entries,
            final(self).auto_advance == old(self).auto_advance,
            final(self).tick_rate == old(self).tick_rate,
            final(self).game.max_turns == old(self).game.max_turns,
            old(self).game.players@.len() <= 1 ==> {
                &&& !r
                &&& same_but_log(*final(self), App { state: AppState::Finished, ..*old(self) })
                &&& log_view(final(self).battle_log@) == record(
                    log_view(old(self).battle_log@),
                    seq![finish_event(old(self).current_turn as int, old(self).game.players@)],
                    old(self).max_log_entries as nat,
                )
            },
            old(self).game.players@.len() > 1 && old(self).current_turn >= old(self).game.max_turns
                ==> {
                &&& !r
                &&& same_but_log(*final(self), App { state: AppState::Finished, ..*old(self) })
                &&& log_view(final(self).battle_log@) == record(
                    log_view(old(self).battle_log@),
                    seq![
                        (
                            old(self).current_turn as int,
                            cap_text(old(self).game.max_turns as int),
                            BattleEventType::Info,
                        ),
                        finish_event(old(self).current_turn as int, old(self).game.players@),
                    ],
                    old(self).max_log_entries as nat,
                )
            },
            old(self).game.players@.len() > 1 && old(self).current_turn < old(self).game.max_turns
                ==> exists|roll: (int, int)|
                {
                    let ps = old(self).game.players@;
                    let next = turn_spec(ps, roll);
                    let turn = old(self).current_turn as int;
                    let told = turn_events(
                        turn,
                        ps[0].name@,
                        target_name(ps),
                        outcome_spec(ps, roll),
                    );
                    &&& #[trigger] valid_roll(roll)
                    &&& final(self).game.players@ == next
                    &&& final(self).current_turn == turn + 1
                    &&& final(self).game.turns == turn + 1
                    &&& r == goes_on(next, turn + 1, old(self).game.max_turns as int)
                    &&& final(self).state == if goes_on(
                        next,
                        turn + 1,
                        old(self).game.max_turns as int,
                    ) {
                        old(self).state
                    } else {
                        AppState::Finished
                    }
                    &&& log_view(final(self).battle_log@) == record(
                        log_view(old(self).battle_log@),
                        told + closing_events(next, turn + 1, old(self).game.max_turns as int),
                        old(self).max_log_entries as nat,
                    )
                },
    {
        let ghost log0 = log_view(self.battle_log@);
        let ghost max = self.max_log_entries as nat;
        let ghost ps = self.game.players@;
        let ghost turn = self.current_turn as int;
        if self.game.players.len() <= 1 {
            self.finish_battle();
            proof {
                lemma_record_push(log0, seq![], finish_event(turn, ps), max);
                assert(seq![].push(finish_event(turn, ps)) =~= seq![finish_event(turn, ps)]);
            }
            return false;
        }
        if self.current_turn >= self.game.max_turns {
            let m = cap_message(self.game.max_turns);
            let ghost e = (turn, m@, BattleEventType::Info);
            self.add_battle_event(m, BattleEventType::Info);
            self.finish_battle();
            proof {
                lemma_record_push(log0, seq![], e, max);
                assert(seq![].push(e) =~= seq![e]);
                lemma_record_push(log0, seq![e], finish_event(turn, ps), max);
                assert(seq![e].push(finish_event(turn, ps)) =~= seq![e, finish_event(turn, ps)]);
            }
            return false;
        }
        let report = self.game.take_turn(rng);
        let ghost roll = choose|roll: (int, int)|
            {
                &&& valid_roll(roll)
                &&& self.game.players@ == turn_spec(ps, roll)
                &&& report.outcome == outcome_spec(ps, roll)
            };
        self.report_turn(&report);
        let ghost told = turn_events(turn, ps[0].name@, target_name(ps), outcome_spec(ps, roll));
        self.current_turn = self.current_turn + 1;
        self.game.turns = self.current_turn;
        let ghost next = self.game.players@;
        if self.game.players.len() <= 1 {
            self.finish_battle();
            proof {
                lemma_record_push(log0, told, finish_event(turn + 1, next), max);
                assert(told.push(finish_event(turn + 1, next)) =~= told + seq![
                    finish_event(turn + 1, next),
                ]);
            }
            return false;
        }
        if self.current_turn >= self.game.max_turns {
            let m = cap_message(self.game.max_turns);
            let ghost e = (turn + 1, m@, BattleEventType::Info);
            self.add_battle_event(m, BattleEventType::Info);
            self.finish_battle();
            proof {
                lemma_record_push(log0, told, e, max);
                lemma_record_push(log0, told.push(e), finish_event(turn + 1, next), max);
                assert(told.push(e).push(finish_event(turn + 1, next)) =~= told + seq![
                    e,
                    finish_event(turn + 1, next),
                ]);
            }
            return false;
        }
        assert(told + closing_events(next, turn + 1, self.game.max_turns as int) =~= told);
        true
    }
}

impl Default for App {
    fn default() -> (r: App)
        ensures
            r.state == AppState::Setup,
            r.game.turns == 0,
            r.game.players@ == Seq::<Player>::empty(),
            r.game.max_turns == crate::game::MAX_TURNS,
            r.battle_log@ == Seq::<BattleEvent>::empty(),
            r.current_turn == 0,
            !r.auto_advance,
            r.tick_rate == 500,
            r.max_log_entries == 50,
    {
        App::new()
    }
}

} // verus!
