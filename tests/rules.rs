use battlers::dice::{roll1d20, roll1d8, roll3d6};
use battlers::location::{Location, UNIT};
use battlers::player::{Attribute, Player, PlayerAttribute};
use battlers::text::{int_string, natural_string, tenths_string};

fn fighter(name: &str, value: i32) -> Player {
    let mut p = Player::new(name);
    p.attack.set(value);
    p.defense.set(value);
    p.armor.set(value);
    p.power.set(value);
    p.speed.set(value);
    p.range.set(value);
    p
}

fn with_curr(curr: i32) -> PlayerAttribute {
    let mut a = PlayerAttribute::new(Attribute::Attack);
    a.set(curr);
    a
}

#[test]
fn set_gives_base_and_current() {
    let mut a = PlayerAttribute::new(Attribute::Power);
    assert_eq!((a.base, a.curr), (0, 0));
    a.set(17);
    assert_eq!(a.base, 17);
    assert_eq!(a.curr, 17);
    assert_eq!(a.name, Attribute::Power);
}

#[test]
fn randomize_gives_base_and_current() {
    let mut rng = rand::rng();
    for _ in 0..100 {
        let mut a = PlayerAttribute::new(Attribute::Speed);
        a.randomize(&mut rng);
        assert_eq!(a.base, a.curr);
        assert!((3..=18).contains(&a.base));
    }
}

#[test]
fn player_randomize_rolls_everything() {
    let mut rng = rand::rng();
    for _ in 0..50 {
        let mut p = Player::new("Rolled");
        p.randomize(&mut rng);
        for a in [&p.attack, &p.defense, &p.armor, &p.power, &p.speed, &p.range] {
            assert_eq!(a.base, a.curr);
            assert!((3..=18).contains(&a.base));
        }
        assert!(p.loc.x >= UNIT && p.loc.x <= 60 * UNIT && p.loc.x % UNIT == 0);
        assert!(p.loc.y >= UNIT && p.loc.y <= 60 * UNIT && p.loc.y % UNIT == 0);
        assert_eq!(p.loc.z, 0);
        assert_eq!(p.name, "Rolled");
    }
}

#[test]
fn bonus_curve() {
    assert_eq!(with_curr(10).bonus(), 0);
    assert_eq!(with_curr(8).bonus(), -1);
    assert_eq!(with_curr(20).bonus(), 4);
    assert_eq!(with_curr(13).bonus(), 1);
    assert_eq!(with_curr(15).bonus(), 2);
    assert_eq!(with_curr(6).bonus(), -2);
}

#[test]
fn bonus_truncates_toward_zero() {
    // (12 - 10.5) / 2 = 0.75 and (9 - 10.5) / 2 = -0.75 both truncate to 0.
    assert_eq!(with_curr(12).bonus(), 0);
    assert_eq!(with_curr(9).bonus(), 0);
    // (1 - 10.5) / 2 = -4.75
    assert_eq!(with_curr(1).bonus(), -4);
    assert_eq!(with_curr(i32::MAX).bonus(), 1073741818);
    assert_eq!(with_curr(i32::MIN).bonus(), -1073741829);
}

#[test]
fn distance_to_self_is_zero() {
    let p = Location::new(1234, -5678, 42);
    assert_eq!(p.distance(&p), 0);
    assert_eq!(p.squared_distance(&p), 0);
}

#[test]
fn distance_is_symmetric() {
    let a = Location::new(0, 0, 0);
    let b = Location::new(3 * UNIT, 4 * UNIT, 12 * UNIT);
    assert_eq!(a.distance(&b), 13 * UNIT as u64);
    assert_eq!(b.distance(&a), a.distance(&b));
    let c = Location::new(i32::MIN, i32::MAX, i32::MIN);
    let d = Location::new(i32::MAX, i32::MIN, i32::MAX);
    assert_eq!(c.distance(&d), d.distance(&c));
    assert_eq!(c.squared_distance(&d), 3 * (u32::MAX as u128) * (u32::MAX as u128));
}

#[test]
fn distance_rounds_down() {
    let a = Location::new(0, 0, 0);
    let b = Location::new(1, 1, 0);
    assert_eq!(a.distance(&b), 1);
    let c = Location::new(2, 2, 1);
    assert_eq!(a.distance(&c), 3);
}

#[test]
fn range_boundary_is_inclusive() {
    let mut p = fighter("P", 10);
    p.range.set(5);
    assert!(p.in_range(&Location::new(3 * UNIT, 4 * UNIT, 0)));
    assert!(!p.in_range(&Location::new(3 * UNIT, 4 * UNIT + 1, 0)));
    p.range.set(-1);
    assert!(!p.in_range(&Location::new(0, 0, 0)));
}

#[test]
fn move_within_one_step_stays() {
    let mut p = fighter("P", 10);
    p.speed.set(5);
    p.move_towards(&Location::new(3 * UNIT, 4 * UNIT, 0));
    assert_eq!(p.loc, Location::new(0, 0, 0));
    p.move_towards(&Location::new(0, 0, 0));
    assert_eq!(p.loc, Location::new(0, 0, 0));
}

#[test]
fn move_advances_by_speed() {
    let mut p = fighter("P", 10);
    p.speed.set(10);
    let target = Location::new(30 * UNIT, 40 * UNIT, 0);
    let before = p.loc.distance(&target);
    p.move_towards(&target);
    assert_eq!(p.loc, Location::new(6 * UNIT, 8 * UNIT, 0));
    assert_eq!(before - p.loc.distance(&target), 10 * UNIT as u64);
}

#[test]
fn move_keeps_height_and_distance_shrinks_by_speed() {
    let mut p = fighter("P", 10);
    p.speed.set(3);
    p.loc = Location::new(1000, 2000, 5000);
    let target = Location::new(17000, -9000, 5000);
    let before = p.loc.distance(&target) as i64;
    p.move_towards(&target);
    assert_eq!(p.loc.z, 5000);
    let after = p.loc.distance(&target) as i64;
    let expected = before - 3 * UNIT as i64;
    assert!(expected <= after && after <= expected + 2);
}

#[test]
fn move_on_level_ground_closes_by_speed() {
    let mut rng = rand::rng();
    for _ in 0..200 {
        let mut p = fighter("P", 10);
        p.speed.set(7);
        p.loc.randomize(&mut rng);
        let mut target = Location::new(0, 0, 0);
        target.randomize(&mut rng);
        target.x += 371;
        let before = p.loc.distance(&target) as i64;
        p.move_towards(&target);
        let after = p.loc.distance(&target) as i64;
        if before <= 7 * UNIT as i64 {
            continue;
        }
        let expected = before - 7 * UNIT as i64;
        assert!(expected <= after && after <= expected + 2, "{} {}", before, after);
    }
}

#[test]
fn attack_resolution_threshold() {
    let mut attacker = fighter("A", 10);
    attacker.attack.set(15);
    assert_eq!(attacker.attack.bonus(), 2);
    let mut target = fighter("T", 10);
    target.defense.set(15);
    assert!(attacker.resolve_attack(&target, 13));
    assert!(!attacker.resolve_attack(&target, 12));
}

#[test]
fn damage_penalty_can_cancel_hit() {
    let mut attacker = fighter("A", 10);
    attacker.power.set(6);
    assert_eq!(attacker.power.bonus(), -2);
    let mut target = fighter("T", 10);
    assert_eq!(attacker.resolve_damage(&mut target, 1), 0);
    assert_eq!(target.armor.curr, 10);
    assert_eq!(target.armor.base, 10);
}

#[test]
fn damage_reduces_armor() {
    let mut attacker = fighter("A", 10);
    attacker.power.set(20);
    let mut target = fighter("T", 10);
    assert_eq!(attacker.resolve_damage(&mut target, 8), 12);
    assert_eq!(target.armor.curr, -2);
    assert_eq!(target.armor.base, 10);
    assert!(target.is_dead());
}

#[test]
fn damage_stops_at_least_armor() {
    let mut attacker = fighter("A", 10);
    attacker.power.set(100);
    let mut target = fighter("T", 10);
    target.armor.curr = i32::MIN + 3;
    // a blow of 52 against 3 points above the floor takes only those 3
    assert_eq!(attacker.resolve_damage(&mut target, 8), 3);
    assert_eq!(target.armor.curr, i32::MIN);
}

#[test]
fn death_check() {
    let mut p = fighter("P", 1);
    assert!(!p.is_dead());
    p.armor.curr = 0;
    assert!(p.is_dead());
}

#[test]
fn rolled_attack_and_damage_stay_in_range() {
    let mut rng = rand::rng();
    let attacker = fighter("A", 10);
    let mut weak = fighter("W", 10);
    weak.defense.set(1);
    let mut strong = fighter("S", 10);
    strong.defense.set(40);
    for _ in 0..100 {
        assert!(attacker.attack(&weak, &mut rng));
        assert!(!attacker.attack(&strong, &mut rng));
        let mut target = fighter("T", 100);
        let dealt = attacker.damage(&mut target, &mut rng);
        assert!((1..=8).contains(&dealt));
        assert_eq!(target.armor.curr, 100 - dealt);
    }
}

#[test]
fn dice_ranges() {
    let mut rng = rand::rng();
    let mut seen20 = std::collections::BTreeSet::new();
    for _ in 0..500 {
        let a = roll3d6(&mut rng);
        assert!((3..=18).contains(&a));
        let b = roll1d20(&mut rng);
        assert!((1..=20).contains(&b));
        seen20.insert(b);
        let c = roll1d8(&mut rng);
        assert!((1..=8).contains(&c));
    }
    assert!(seen20.len() > 1);
}

#[test]
fn numbers_as_text() {
    assert_eq!(natural_string(0), "0");
    assert_eq!(natural_string(9075), "9075");
    assert_eq!(int_string(-42), "-42");
    assert_eq!(int_string(i64::MIN), "-9223372036854775808");
    assert_eq!(tenths_string(12345), "12.3");
    assert_eq!(tenths_string(12350), "12.4");
    assert_eq!(tenths_string(0), "0.0");
    assert_eq!(tenths_string(50000), "50.0");
}
