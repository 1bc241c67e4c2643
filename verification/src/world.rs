use vstd::prelude::*;

verus! {

/// How the light that a surface passes on is added to its own colour.
#[derive(Clone, Copy, Debug, PartialEq, Eq, Structural)]
pub enum Blend {
    /// Surface, reflected and refracted light are summed as they are.
    Sum,
    /// Reflected light is weighed by the reflectance of the surface and
    /// refracted light by what is left of it.
    Fresnel,
}

/// What follows the shading of one hit: the rays that are sent on, each
/// with the number of further bounces it may make, and the way in which
/// their colours are added.
#[derive(Clone, Copy, Debug, PartialEq, Eq, Structural)]
pub struct Bounces {
    pub reflected: Option<usize>,
    pub refracted: Option<usize>,
    pub blend: Blend,
}

/// The bounces left to a ray that a surface sends on: one fewer than the
/// ray that reached the surface had. No ray is sent on where none is left,
/// nor where the surface does not respond.
pub open spec fn budget_after(remaining: nat, responds: bool) -> Option<nat> {
    if remaining > 0 && responds {
        Some((remaining - 1) as nat)
    } else {
        None
    }
}

/// The blend of a surface: by reflectance where it both reflects and
/// transmits, a plain sum otherwise.
pub open spec fn blend_of(reflective: bool, transparent: bool) -> Blend {
    if reflective && transparent {
        Blend::Fresnel
    } else {
        Blend::Sum
    }
}

/// The view of an optional count as an optional natural number.
pub open spec fn count_of(budget: Option<usize>) -> Option<nat> {
    match budget {
        Some(n) => Some(n as nat),
        None => None,
    }
}

/// The bounces left to a ray sent on from a surface that responds or not.
pub fn secondary_budget(remaining: usize, responds: bool) -> (r: Option<usize>)
    ensures
        count_of(r) == budget_after(remaining as nat, responds),
{
    if remaining > 0 && responds {
        Some(remaining - 1)
    } else {
        None
    }
}

/// Decides what follows a hit on a surface that is `reflective` or not and
/// `transparent` or not, reached by a ray with `remaining` bounces left.
pub fn bounces(remaining: usize, reflective: bool, transparent: bool) -> (r: Bounces)
    ensures
        count_of(r.reflected) == budget_after(remaining as nat, reflective),
        count_of(r.refracted) == budget_after(remaining as nat, transparent),
        r.blend == blend_of(reflective, transparent),
{
    Bounces {
        reflected: secondary_budget(remaining, reflective),
        refracted: secondary_budget(remaining, transparent),
        blend: if reflective && transparent {
            Blend::Fresnel
        } else {
            Blend::Sum
        },
    }
}

/// A chain of rays, each sent on from a hit of the one before, is at most
/// one longer than the bounces granted to its first ray.
pub proof fn lemma_chain_bounded(budgets: Seq<nat>)
    requires
        budgets.len() > 0,
        forall|i: int|
            0 <= i < budgets.len() - 1 ==> budget_after(#[trigger] budgets[i], true) == Some(
                budgets[i + 1],
            ),
    ensures
        budgets.len() <= budgets[0] + 1,
    decreases budgets.len(),
{
    if budgets.len() > 1 {
        let rest = budgets.drop_first();
        assert forall|i: int| 0 <= i < rest.len() - 1 implies budget_after(
            #[trigger] rest[i],
            true,
        ) == Some(rest[i + 1]) by {
            assert(rest[i] == budgets[i + 1]);
            assert(rest[i + 1] == budgets[i + 2]);
        }
        lemma_chain_bounded(rest);
        assert(rest[0] == budgets[1]);
        assert(budget_after(budgets[0], true) == Some(budgets[1]));
    }
}

} // verus!
