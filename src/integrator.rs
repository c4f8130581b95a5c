use vstd::prelude::*;

verus! {

/// Bounces after which the integrator stops following scattered rays.
pub const MAX_DEPTH: u32 = 60;

/// What the integrator returns for one traced ray, once the scene has been
/// asked for a hit and the hit's material for a scattered ray.
#[derive(Clone, Copy, Debug, PartialEq, Eq, Structural)]
pub enum Shade {
    /// No hit, ambient light on: the sky gradient along the ray's direction.
    Sky,
    /// No hit, ambient light off: no light.
    Black,
    /// A hit whose light ends there: only what the surface emits.
    Emitted,
    /// A hit that goes on: what the surface emits plus the attenuation times
    /// the radiance traced along the scattered ray, one bounce deeper.
    EmittedPlusScattered,
}

/// The integrator's decision for a ray traced at bounce `depth`: `hit` says
/// whether the scene was hit, `scattered` whether the hit's material gave a
/// scattered ray. Recursion goes on only below `MAX_DEPTH`, so a radiance
/// estimate never traces more than `MAX_DEPTH + 1` rays.
pub fn color_world_step(depth: u32, hit: bool, scattered: bool, background_enabled: bool) -> (r: Shade)
    ensures
        !hit ==> r == (if background_enabled { Shade::Sky } else { Shade::Black }),
        hit && (!scattered || depth >= MAX_DEPTH) ==> r == Shade::Emitted,
        hit && scattered && depth < MAX_DEPTH ==> r == Shade::EmittedPlusScattered,
{
    if hit {
        if scattered && depth < MAX_DEPTH {
            Shade::EmittedPlusScattered
        } else {
            Shade::Emitted
        }
    } else if background_enabled {
        Shade::Sky
    } else {
        Shade::Black
    }
}

} // verus!
