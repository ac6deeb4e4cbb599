//! The looks of each rank: a model with its parts where there is one, else
//! a plain sphere of one colour. The host loads what the table names.

use vstd::prelude::*;
use crate::balls::ball::{
    lemma_start_radius_exact, radius_of, start_radius_of, template_index_of, Ball, BallSize,
};

verus! {

/// Number of ranks that have looks of their own.
pub const TEMPLATE_COUNT: u8 = 10;

/// Roughness of a plain sphere's surface, in thousandths.
pub const SPHERE_ROUGHNESS: u32 = 670;

/// Share of light that a plain sphere lets through, in thousandths.
pub const SPHERE_TRANSMISSION: u32 = 500;

/// A colour, each channel in thousandths of full strength.
#[derive(Clone, Copy, Debug, PartialEq, Eq, Structural)]
pub struct Rgb {
    pub r: u32,
    pub g: u32,
    pub b: u32,
}

/// One part of a model: the primitive `primitive` of its mesh `mesh`, drawn
/// with its material `material`.
#[derive(Clone, Copy, Debug, PartialEq, Eq, Structural)]
pub struct Part {
    pub mesh: u8,
    pub primitive: u8,
    pub material: u8,
}

/// The looks of one rank.
#[derive(Clone, Debug, PartialEq, Eq)]
pub enum BallTemplate {
    /// A sphere of radius `radius` in colour `color`, made of `sectors`
    /// sectors and as many stacks.
    Procedural { color: Rgb, radius: u32, sectors: u32 },
    /// The model in the file `file`, scaled by `scale` ten-thousandths, of
    /// which `parts` are drawn.
    Textured { file: &'static str, scale: u32, parts: Vec<Part> },
}

/// Whether rank `n` has a model.
pub open spec fn is_textured(n: nat) -> bool {
    2 <= n <= 9
}

/// The colour of rank `n`, for `n` up to 9.
pub open spec fn color_of(n: nat) -> Rgb {
    if n == 0 {
        Rgb { r: 1000, g: 500, b: 1000 }
    } else if n == 1 {
        Rgb { r: 1000, g: 450, b: 300 }
    } else if n == 2 {
        Rgb { r: 900, g: 900, b: 900 }
    } else if n == 3 {
        Rgb { r: 0, g: 0, b: 400 }
    } else if n == 4 {
        Rgb { r: 369, g: 624, b: 0 }
    } else if n == 5 {
        Rgb { r: 1000, g: 1000, b: 1000 }
    } else if n == 6 {
        Rgb { r: 800, g: 800, b: 800 }
    } else if n == 7 {
        Rgb { r: 612, g: 145, b: 36 }
    } else if n == 8 {
        Rgb { r: 1000, g: 1000, b: 1000 }
    } else {
        Rgb { r: 1000, g: 0, b: 1000 }
    }
}

/// Number of sectors of the sphere of rank `n`: ten per unit of radius, and
/// twenty.
pub open spec fn sectors_of(n: nat) -> nat {
    radius_of(n) / 100 + 20
}

/// The file that holds the model of rank `n`, for `n` from 2 to 9.
pub open spec fn file_of(n: nat) -> Seq<char> {
    if n == 2 {
        "Golf.glb"@
    } else if n == 3 {
        "Pool.glb"@
    } else if n == 4 {
        "Tennis.glb"@
    } else if n == 5 {
        "Baseball.glb"@
    } else if n == 6 {
        "Bowling.glb"@
    } else if n == 7 {
        "Soccer.glb"@
    } else if n == 8 {
        "Basketball.glb"@
    } else {
        "Beach_ball.glb"@
    }
}

/// The scale of the model of rank `n`, in ten-thousandths, for `n` from 2
/// to 9.
pub open spec fn model_scale_of(n: nat) -> nat {
    if n == 2 {
        3100
    } else if n == 3 {
        9500
    } else if n == 4 {
        106
    } else if n == 5 {
        4000
    } else if n == 6 {
        68500
    } else if n == 7 {
        21600
    } else if n == 8 {
        47000
    } else {
        26500
    }
}

/// A part of a model.
pub open spec fn part(mesh: u8, primitive: u8, material: u8) -> Part {
    Part { mesh, primitive, material }
}

/// The parts of the model of rank `n`, for `n` from 2 to 9.
pub open spec fn parts_of(n: nat) -> Seq<Part> {
    if n == 2 || n == 6 {
        seq![part(0, 0, 0)]
    } else if n == 3 {
        seq![part(0, 0, 0), part(0, 1, 1), part(1, 0, 2), part(2, 0, 3)]
    } else if n == 4 || n == 8 {
        seq![part(0, 0, 0), part(1, 0, 1)]
    } else if n == 5 {
        seq![part(0, 0, 0), part(0, 1, 1), part(0, 2, 2)]
    } else if n == 7 {
        seq![part(0, 0, 0), part(0, 1, 1)]
    } else {
        seq![part(0, 0, 0), part(1, 0, 1), part(2, 0, 2), part(3, 0, 3)]
    }
}

/// Whether `template` is the looks of rank `n`, for `n` up to 9.
pub open spec fn is_template_of(template: BallTemplate, n: nat) -> bool {
    match template {
        BallTemplate::Procedural { color, radius, sectors } => {
            &&& !is_textured(n)
            &&& color == color_of(n)
            &&& radius == start_radius_of(n)
            &&& sectors == sectors_of(n)
        },
        BallTemplate::Textured { file, scale, parts } => {
            &&& is_textured(n)
            &&& file@ == file_of(n)
            &&& scale == model_scale_of(n)
            &&& parts@ == parts_of(n)
        },
    }
}

/// The colour of rank `rank`; a rank above 9 has the colour of rank 9.
pub fn default_color(rank: u8) -> (color: Rgb)
    ensures
        color == color_of(template_index_of(rank as nat)),
{
    match rank {
        0 => Rgb { r: 1000, g: 500, b: 1000 },
        1 => Rgb { r: 1000, g: 450, b: 300 },
        2 => Rgb { r: 900, g: 900, b: 900 },
        3 => Rgb { r: 0, g: 0, b: 400 },
        4 => Rgb { r: 369, g: 624, b: 0 },
        5 => Rgb { r: 1000, g: 1000, b: 1000 },
        6 => Rgb { r: 800, g: 800, b: 800 },
        7 => Rgb { r: 612, g: 145, b: 36 },
        8 => Rgb { r: 1000, g: 1000, b: 1000 },
        _ => Rgb { r: 1000, g: 0, b: 1000 },
    }
}

/// The parts that `entries` name, in order.
fn parts_from(entries: &[(u8, u8, u8)]) -> (parts: Vec<Part>)
    ensures
        parts@.len() == entries@.len(),
        forall|k: int|
            0 <= k < entries@.len() ==> #[trigger] parts@[k] == part(
                entries@[k].0,
                entries@[k].1,
                entries@[k].2,
            ),
{
    let mut parts: Vec<Part> = Vec::new();
    let mut k: usize = 0;
    while k < entries.len()
        invariant
            k <= entries@.len(),
            parts@.len() == k,
            forall|w: int|
                0 <= w < k ==> #[trigger] parts@[w] == part(
                    entries@[w].0,
                    entries@[w].1,
                    entries@[w].2,
                ),
        decreases entries.len() - k,
    {
        let entry = entries[k];
        parts.push(Part { mesh: entry.0, primitive: entry.1, material: entry.2 });
        k += 1;
    }
    parts
}

/// The looks of rank `rank`; a rank above 9 looks like rank 9.
pub fn ball_template(rank: u8) -> (template: BallTemplate)
    ensures
        is_template_of(template, template_index_of(rank as nat)),
{
    let index = Ball::template_index(rank);
    if index < 2 {
        let size = BallSize(index as u8);
        proof {
            lemma_start_radius_exact(index as nat);
        }
        BallTemplate::Procedural {
            color: default_color(index as u8),
            radius: size.start_radius(),
            sectors: size.radius() / 100 + 20,
        }
    } else if index == 2 {
        let parts = parts_from(&[(0, 0, 0)]);
        assert(parts@ =~= parts_of(2));
        BallTemplate::Textured { file: "Golf.glb", scale: 3100, parts }
    } else if index == 3 {
        let parts = parts_from(&[(0, 0, 0), (0, 1, 1), (1, 0, 2), (2, 0, 3)]);
        assert(parts@ =~= parts_of(3));
        BallTemplate::Textured { file: "Pool.glb", scale: 9500, parts }
    } else if index == 4 {
        let parts = parts_from(&[(0, 0, 0), (1, 0, 1)]);
        assert(parts@ =~= parts_of(4));
        BallTemplate::Textured { file: "Tennis.glb", scale: 106, parts }
    } else if index == 5 {
        let parts = parts_from(&[(0, 0, 0), (0, 1, 1), (0, 2, 2)]);
        assert(parts@ =~= parts_of(5));
        BallTemplate::Textured { file: "Baseball.glb", scale: 4000, parts }
    } else if index == 6 {
        let parts = parts_from(&[(0, 0, 0)]);
        assert(parts@ =~= parts_of(6));
        BallTemplate::Textured { file: "Bowling.glb", scale: 68500, parts }
    } else if index == 7 {
        let parts = parts_from(&[(0, 0, 0), (0, 1, 1)]);
        assert(parts@ =~= parts_of(7));
        BallTemplate::Textured { file: "Soccer.glb", scale: 21600, parts }
    } else if index == 8 {
        let parts = parts_from(&[(0, 0, 0), (1, 0, 1)]);
        assert(parts@ =~= parts_of(8));
        BallTemplate::Textured { file: "Basketball.glb", scale: 47000, parts }
    } else {
        let parts = parts_from(&[(0, 0, 0), (1, 0, 1), (2, 0, 2), (3, 0, 3)]);
        assert(parts@ =~= parts_of(9));
        BallTemplate::Textured { file: "Beach_ball.glb", scale: 26500, parts }
    }
}

/// The looks of all ranks that have their own, from rank 0 up.
pub fn load_ball_templates() -> (templates: Vec<BallTemplate>)
    ensures
        templates@.len() == TEMPLATE_COUNT,
        forall|n: int| 0 <= n < TEMPLATE_COUNT ==> is_template_of(#[trigger] templates@[n], n as nat),
{
    let mut templates: Vec<BallTemplate> = Vec::new();
    let mut rank: u8 = 0;
    while rank < TEMPLATE_COUNT
        invariant
            rank <= TEMPLATE_COUNT,
            templates@.len() == rank,
            forall|n: int| 0 <= n < rank ==> is_template_of(#[trigger] templates@[n], n as nat),
        decreases TEMPLATE_COUNT - rank,
    {
        templates.push(ball_template(rank));
        rank += 1;
    }
    templates
}

} // verus!
