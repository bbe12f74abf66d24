use raytracer::decimal::Dec;
use raytracer::projectile::{tick, Environment, Projectile};
use raytracer::tuple::{point, vector};

fn d(m: i64, s: u32) -> Dec {
    Dec::new(m, s)
}

#[test]
fn tick_moves_and_accelerates() {
    let p = Projectile {
        position: point(d(0, 0), d(1, 0), d(0, 0)),
        velocity: vector(d(1, 0), d(1, 0), d(0, 0)),
    };
    let env = Environment {
        gravity: vector(d(0, 0), d(-1, 1), d(0, 0)),
        wind: vector(d(-1, 2), d(0, 0), d(0, 0)),
    };
    assert!(p.can_tick(&env));
    let q = tick(&env, &p);
    assert_eq!(q.position, point(d(1, 0), d(2, 0), d(0, 0)));
    assert_eq!(q.velocity, vector(d(99, 2), d(9, 1), d(0, 0)));
    assert!(!q.has_landed());
}

#[test]
fn projectile_lands_at_or_below_zero() {
    let on_ground = Projectile {
        position: point(d(5, 0), d(0, 0), d(0, 0)),
        velocity: vector(d(1, 0), d(0, 0), d(0, 0)),
    };
    let below = Projectile {
        position: point(d(5, 0), d(-3, 1), d(0, 0)),
        velocity: vector(d(1, 0), d(0, 0), d(0, 0)),
    };
    assert!(on_ground.has_landed());
    assert!(below.has_landed());
}

#[test]
fn huge_values_cannot_tick() {
    let p = Projectile {
        position: point(Dec { mantissa: 79228162514264337593543950335, scale: 0 }, d(0, 0), d(0, 0)),
        velocity: vector(d(1, 0), d(0, 0), d(0, 0)),
    };
    let env = Environment {
        gravity: vector(d(0, 0), d(-1, 1), d(0, 0)),
        wind: vector(d(0, 0), d(0, 0), d(0, 0)),
    };
    assert!(!p.can_tick(&env));
}

#[test]
fn projectile_and_environment_text() {
    let p = Projectile {
        position: point(d(15, 1), d(-2, 0), d(0, 0)),
        velocity: vector(d(1, 0), d(25, 2), d(3, 0)),
    };
    assert_eq!(p.to_string(), "position (1.5, -2, 0), velocity (1, 0.25, 3)");
    let env = Environment {
        gravity: vector(d(0, 0), d(-1, 1), d(0, 0)),
        wind: vector(d(-1, 2), d(0, 0), d(0, 0)),
    };
    assert_eq!(env.to_string(), "gravity (0, -0.1, 0), wind (-0.01, 0, 0)");
}

#[test]
fn tuple_text_omits_w() {
    assert_eq!(point(d(1, 0), d(-25, 1), d(3, 3)).to_string(), "(1, -2.5, 0.003)");
    assert_eq!(d(-5, 1).to_string(), "-0.5");
}

#[test]
fn rounded_steps_keep_going_past_the_exact_range() {
    let velocity = vector(d(1, 0), d(1, 0), d(0, 0)).normalise().unwrap();
    let mut p = Projectile { position: point(d(0, 0), d(1, 0), d(0, 0)), velocity };
    let env = Environment {
        gravity: vector(d(0, 0), d(-1, 1), d(0, 0)),
        wind: vector(d(-1, 2), d(0, 0), d(0, 0)),
    };
    let mut steps = 0;
    while !p.has_landed() && steps < 1000 {
        assert!(p.can_tick(&env));
        p = tick(&env, &p);
        steps += 1;
    }
    assert!(p.has_landed());
    assert!(steps > 10 && steps < 100);
}
