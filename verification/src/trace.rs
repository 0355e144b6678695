use vstd::prelude::*;
use crate::color::Color;
use crate::color::color_add_spec;
use crate::color::color_mul_spec;

verus! {

/// The scattering behavior of a surface, with its colors in fixed-point
/// units: a diffuse surface and a reflective one always scatter and attenuate
/// by their albedo; an emissive surface never scatters and only radiates its
/// own color. The floating-point direction of a scattered ray (diffuse
/// target offset, reflection plus fuzz) is the caller's work; which kind
/// scatters, what it emits and how it attenuates is decided here.
pub enum MaterialKind {
    Lambertian { albedo: Color },
    Metal { albedo: Color },
    Emissive { color: Color },
}

impl MaterialKind {
    /// The radiance a surface of this material emits: its own color for an
    /// emissive surface, pure black for every other kind.
    pub open spec fn emitted_spec(&self) -> Color {
        match *self {
            MaterialKind::Emissive { color } => color,
            _ => Color { r: 0, g: 0, b: 0 },
        }
    }

    pub fn emitted(&self) -> (c: Color)
        ensures
            c == self.emitted_spec(),
    {
        match *self {
            MaterialKind::Emissive { color } => color,
            _ => Color { r: 0, g: 0, b: 0 },
        }
    }

    /// Whether a surface of this material scatters a ray onward: every kind
    /// but the emissive one does, unconditionally.
    pub open spec fn scatters_spec(&self) -> bool {
        !(self is Emissive)
    }

    pub fn scatters(&self) -> (s: bool)
        ensures
            s == self.scatters_spec(),
    {
        match *self {
            MaterialKind::Emissive { .. } => false,
            _ => true,
        }
    }

    /// The color a scattered ray is attenuated by: the surface's albedo.
    /// An emissive surface scatters nothing, so its attenuation is black.
    pub open spec fn attenuation_spec(&self) -> Color {
        match *self {
            MaterialKind::Lambertian { albedo } => albedo,
            MaterialKind::Metal { albedo } => albedo,
            MaterialKind::Emissive { .. } => Color { r: 0, g: 0, b: 0 },
        }
    }

    pub fn attenuation(&self) -> (c: Color)
        ensures
            c == self.attenuation_spec(),
    {
        match *self {
            MaterialKind::Lambertian { albedo } => albedo,
            MaterialKind::Metal { albedo } => albedo,
            MaterialKind::Emissive { .. } => Color { r: 0, g: 0, b: 0 },
        }
    }
}

/// What the nearest-hit search resolved one ray to: nothing at all, or a
/// surface of some material.
pub enum RayResolution {
    Miss,
    Surface { material: MaterialKind },
}

/// What the integrator does with one resolved ray: finish with the scene
/// background, finish with the surface's emitted radiance, or take the
/// emission and bounce a scattered ray one level deeper.
#[derive(PartialEq, Eq, Structural)]
pub enum StepAction {
    FinishBackground,
    FinishEmitted { emitted: Color },
    Bounce { emitted: Color, attenuation: Color },
}

/// The decision at one level of the light-transport recursion: a miss is the
/// background (terminal); a surface at or beyond the depth bound, or one that
/// does not scatter, contributes only its emission (terminal); any other
/// surface contributes its emission and bounces on with its attenuation.
/// With a depth bound of zero no ray ever bounces.
pub fn color_step(res: &RayResolution, depth: usize, max_depth: usize) -> (a: StepAction)
    ensures
        a == StepAction::FinishBackground <==> res is Miss,
        res matches RayResolution::Surface { material } ==> a == (if depth >= max_depth
            || !material.scatters_spec() {
            StepAction::FinishEmitted { emitted: material.emitted_spec() }
        } else {
            StepAction::Bounce {
                emitted: material.emitted_spec(),
                attenuation: material.attenuation_spec(),
            }
        }),
        max_depth == 0 ==> !(a is Bounce),
{
    match res {
        RayResolution::Miss => StepAction::FinishBackground,
        RayResolution::Surface { material } => {
            if depth >= max_depth || !material.scatters() {
                StepAction::FinishEmitted { emitted: material.emitted() }
            } else {
                StepAction::Bounce {
                    emitted: material.emitted(),
                    attenuation: material.attenuation(),
                }
            }
        },
    }
}

/// The color of one light path, given the surfaces its rays met in order:
/// nothing met is the background; a surface at the depth bound, or one that
/// does not scatter, is its emission; otherwise the emission plus the
/// attenuated color of the rest of the path — the rendering-equation
/// approximation, direct emission plus attenuated indirect light.
pub open spec fn color_spec(
    background: Color,
    hits: Seq<MaterialKind>,
    max_depth: int,
    depth: int,
) -> Color
    decreases hits.len(),
{
    if hits.len() == 0 {
        background
    } else {
        let m = hits[0];
        if depth >= max_depth || !m.scatters_spec() {
            m.emitted_spec()
        } else {
            color_add_spec(
                m.emitted_spec(),
                color_mul_spec(
                    m.attenuation_spec(),
                    color_spec(background, hits.drop_first(), max_depth, depth + 1),
                ),
            )
        }
    }
}

/// The recursive color estimation over a recorded path: `hits[i]` is the
/// surface met at recursion depth `i`, and a path shorter than the depth
/// bound ended with a ray that met nothing.
pub fn color(background: &Color, hits: &Vec<MaterialKind>, max_depth: usize) -> (c: Color)
    ensures
        c == color_spec(*background, hits@, max_depth as int, 0),
{
    proof {
        assert(hits@.skip(0) =~= hits@);
    }
    color_from(background, hits, max_depth, 0)
}

fn color_from(background: &Color, hits: &Vec<MaterialKind>, max_depth: usize, depth: usize) -> (c:
    Color)
    requires
        depth <= hits@.len(),
    ensures
        c == color_spec(*background, hits@.skip(depth as int), max_depth as int, depth as int),
    decreases hits@.len() - depth,
{
    if depth == hits.len() {
        *background
    } else {
        let m = &hits[depth];
        proof {
            assert(hits@.skip(depth as int)[0] == hits@[depth as int]);
            assert(hits@.skip(depth as int).drop_first() =~= hits@.skip(depth as int + 1));
        }
        if depth >= max_depth || !m.scatters() {
            m.emitted()
        } else {
            let rest = color_from(background, hits, max_depth, depth + 1);
            m.emitted().add(m.attenuation().mul(rest))
        }
    }
}

/// Law: with a maximum depth of zero the integrator never scatters: every
/// path's color is exactly the background when its ray met nothing, and
/// exactly the first surface's emitted radiance otherwise.
pub proof fn lemma_depth_zero_only_emission(background: Color, hits: Seq<MaterialKind>)
    ensures
        hits.len() == 0 ==> color_spec(background, hits, 0, 0) == background,
        hits.len() > 0 ==> color_spec(background, hits, 0, 0) == hits[0].emitted_spec(),
{
}

/// Law: an emissive surface is terminal: whatever the depth bound, a path
/// whose ray met one resolves in a single step to exactly its emitted color,
/// with no recursive bounce. In a scene of only emissive surfaces this holds
/// of every path that hits anything at all.
pub proof fn lemma_emissive_only_emission(
    background: Color,
    hits: Seq<MaterialKind>,
    max_depth: int,
    depth: int,
)
    requires
        hits.len() > 0,
        hits[0] is Emissive,
    ensures
        color_spec(background, hits, max_depth, depth) == hits[0].emitted_spec(),
{
}

} // verus!
