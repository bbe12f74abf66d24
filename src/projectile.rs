//! A projectile moving through an environment, one step at a time.
use crate::text::string_from_chars;
use crate::tuple::{lemma_small_add, Tuple};
use vstd::prelude::*;

verus! {

/// A position and a velocity.
#[derive(Clone, Copy, Debug, PartialEq, Eq, Structural)]
pub struct Projectile {
    pub position: Tuple,
    pub velocity: Tuple,
}

/// A constant gravity and wind.
#[derive(Clone, Copy, Debug, PartialEq, Eq, Structural)]
pub struct Environment {
    pub gravity: Tuple,
    pub wind: Tuple,
}

/// The sums of one step can be taken.
pub open spec fn tick_ok(env: &Environment, projectile: &Projectile) -> bool {
    &&& env.gravity.wf() && env.wind.wf()
    &&& projectile.position.wf() && projectile.velocity.wf()
    &&& projectile.position.add_ok(projectile.velocity)
    &&& projectile.velocity.add_ok(env.gravity)
    &&& projectile.velocity.spec_add(env.gravity).add_ok(env.wind)
}

/// One step: the position moves by the velocity, and the velocity changes
/// by gravity, then by wind.
pub fn tick(env: &Environment, projectile: &Projectile) -> (r: Projectile)
    requires
        tick_ok(env, projectile),
    ensures
        r.position == projectile.position.spec_add(projectile.velocity),
        r.velocity == projectile.velocity.spec_add(env.gravity).spec_add(env.wind),
        r.position.wf() && r.velocity.wf(),
{
    let position = projectile.position.add(projectile.velocity);
    let velocity = projectile.velocity.add(env.gravity).add(env.wind);
    Projectile { position, velocity }
}

impl Projectile {
    /// Whether the projectile is at or below the ground (`y <= 0`).
    pub fn has_landed(&self) -> (r: bool)
        requires
            self.position.wf(),
        ensures
            r == (self.position.y.val() <= 0),
    {
        self.position.y.is_nonpositive()
    }

    /// Tests that a step can be taken from here in `env`: every value is
    /// small, and so is the velocity after gravity (a sufficient test).
    pub fn can_tick(&self, env: &Environment) -> (r: bool)
        requires
            env.gravity.wf() && env.wind.wf(),
            self.position.wf() && self.velocity.wf(),
        ensures
            r == (self.position.spec_is_small() && self.velocity.spec_is_small()
                && env.gravity.spec_is_small() && env.wind.spec_is_small()
                && self.velocity.spec_add(env.gravity).spec_is_small()),
            r ==> tick_ok(env, self),
    {
        if !(self.position.is_small() && self.velocity.is_small() && env.gravity.is_small()
            && env.wind.is_small()) {
            return false;
        }
        proof {
            lemma_small_add(self.position, self.velocity);
            lemma_small_add(self.velocity, env.gravity);
        }
        let v = self.velocity.add(env.gravity);
        let r = v.is_small();
        proof {
            if r {
                lemma_small_add(v, env.wind);
            }
        }
        r
    }

    /// The text `"position (x, y, z), velocity (x, y, z)"`.
    pub fn to_string(&self) -> (r: String)
        requires
            self.position.wf() && self.velocity.wf(),
        ensures
            r@ == seq!['p', 'o', 's', 'i', 't', 'i', 'o', 'n', ' '] + crate::tuple::tuple_text(
                self.position,
            ) + seq![',', ' ', 'v', 'e', 'l', 'o', 'c', 'i', 't', 'y', ' '] + crate::tuple::tuple_text(
                self.velocity,
            ),
    {
        let mut out: Vec<char> = Vec::new();
        push_word(&mut out, "position ");
        self.position.push_text(&mut out);
        push_word(&mut out, ", velocity ");
        self.velocity.push_text(&mut out);
        proof {
            reveal_strlit("position ");
            reveal_strlit(", velocity ");
        }
        assert(out@ =~= seq!['p', 'o', 's', 'i', 't', 'i', 'o', 'n', ' '] + crate::tuple::tuple_text(
            self.position,
        ) + seq![',', ' ', 'v', 'e', 'l', 'o', 'c', 'i', 't', 'y', ' '] + crate::tuple::tuple_text(
            self.velocity,
        ));
        string_from_chars(&out)
    }
}

impl Environment {
    /// The text `"gravity (x, y, z), wind (x, y, z)"`.
    pub fn to_string(&self) -> (r: String)
        requires
            self.gravity.wf() && self.wind.wf(),
        ensures
            r@ == seq!['g', 'r', 'a', 'v', 'i', 't', 'y', ' '] + crate::tuple::tuple_text(
                self.gravity,
            ) + seq![',', ' ', 'w', 'i', 'n', 'd', ' '] + crate::tuple::tuple_text(self.wind),
    {
        let mut out: Vec<char> = Vec::new();
        push_word(&mut out, "gravity ");
        self.gravity.push_text(&mut out);
        push_word(&mut out, ", wind ");
        self.wind.push_text(&mut out);
        proof {
            reveal_strlit("gravity ");
            reveal_strlit(", wind ");
        }
        assert(out@ =~= seq!['g', 'r', 'a', 'v', 'i', 't', 'y', ' '] + crate::tuple::tuple_text(
            self.gravity,
        ) + seq![',', ' ', 'w', 'i', 'n', 'd', ' '] + crate::tuple::tuple_text(self.wind));
        string_from_chars(&out)
    }
}

/// Appends the characters of a literal.
fn push_word(out: &mut Vec<char>, w: &str)
    ensures
        final(out)@ == old(out)@ + w@,
{
    let n = w.unicode_len();
    let mut i: usize = 0;
    let ghost start = out@;
    while i < n
        invariant
            n == w@.len(),
            i <= n,
            out@ == start + w@.subrange(0, i as int),
        decreases n - i,
    {
        let c = w.get_char(i);
        out.push(c);
        i = i + 1;
        assert(out@ =~= start + w@.subrange(0, i as int));
    }
    assert(w@.subrange(0, n as int) =~= w@);
}

} // verus!
