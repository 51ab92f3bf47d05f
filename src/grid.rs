//! Placement of a pixel map's opaque pixels as voxels of a grid centred on
//! its root: positions, scale and, for animated grids, the normalised grid
//! coordinates that drive the wave.
use vstd::prelude::*;

use crate::pixmap::{
    lemma_parsed_map_well_formed, parse_model, parse_pixel_map, MalformedPixelMap, Pixel, PixelMap,
    PixelMapView, Rgb,
};

verus! {

/// The exact rational number `num / den`.
#[derive(Clone, Copy, Debug, PartialEq, Eq, Structural)]
pub struct Fraction {
    pub num: i128,
    pub den: u128,
}

impl Fraction {
    pub open spec fn well_formed(self) -> bool {
        self.den > 0
    }

    /// The value lies in `[-1/2, 1/2)`.
    pub open spec fn in_centered_unit(self) -> bool {
        -(self.den as int) <= 2 * self.num < self.den as int
    }

    /// The value lies in `[0, 1]`.
    pub open spec fn in_unit(self) -> bool {
        0 <= self.num <= self.den as int
    }
}

/// The two animation kinds of a voxel grid.
#[derive(Clone, Copy, Debug, PartialEq, Eq, Structural)]
pub enum WaveVoxelAnimation {
    /// One diagonal travelling wave over `u + v`.
    Ripple,
    /// The sum of a wave along `u` and a wave along `v`.
    Wave,
}

/// A point of the plane with rational coordinates.
#[derive(Clone, Copy, Debug, PartialEq, Eq, Structural)]
pub struct Point2 {
    pub x: Fraction,
    pub y: Fraction,
}

/// The animation of one voxel: its kind and its grid coordinates `(u, v)`,
/// each in `[0, 1]`.
#[derive(Clone, Copy, Debug, PartialEq, Eq, Structural)]
pub struct WaveVoxel {
    pub animation: WaveVoxelAnimation,
    pub grid_position_2d: Point2,
}

/// A voxel of a grid, in the grid root's local space: it stands at
/// `(x, 0, z)`, is scaled by `scale` on all three axes and has `color`.
#[derive(Clone, Copy, Debug, PartialEq, Eq, Structural)]
pub struct GridVoxel {
    pub x: Fraction,
    pub z: Fraction,
    pub scale: Fraction,
    pub color: Rgb,
    pub wave: Option<WaveVoxel>,
}

impl GridVoxel {
    /// Without an animation, true; with one, both grid coordinates are
    /// well formed and lie in `[0, 1]`.
    pub open spec fn coords_in_unit(self) -> bool {
        match self.wave {
            Some(w) => w.grid_position_2d.x.well_formed() && w.grid_position_2d.y.well_formed()
                && w.grid_position_2d.x.in_unit() && w.grid_position_2d.y.in_unit(),
            None => true,
        }
    }
}

pub open spec fn max_nat(a: nat, b: nat) -> nat {
    if a >= b {
        a
    } else {
        b
    }
}

/// `(i - (n - 1) / 2) / n`: cell `i` of `n`, centred on the middle cell and
/// normalised by `n`.
pub open spec fn centered_offset(i: nat, n: nat) -> Fraction {
    Fraction { num: (2 * i + 1 - n) as i128, den: (2 * n) as u128 }
}

/// `i / (n - 1)`: cell `i` of `n` on a scale from 0 to 1.
pub open spec fn unit_coord(i: nat, n: nat) -> Fraction {
    Fraction { num: i as i128, den: (n - 1) as u128 }
}

/// `voxel_scale / max(width, height)`.
pub open spec fn voxel_size(voxel_scale: Fraction, width: nat, height: nat) -> Fraction {
    Fraction { num: voxel_scale.num, den: (voxel_scale.den * max_nat(width, height)) as u128 }
}

/// The voxel that pixel `p` of a `width` x `height` map becomes.
pub open spec fn placed_voxel(
    p: Pixel,
    width: nat,
    height: nat,
    voxel_scale: Fraction,
    animation: Option<WaveVoxelAnimation>,
) -> GridVoxel {
    GridVoxel {
        x: centered_offset(p.col as nat, width),
        z: centered_offset(p.row as nat, height),
        scale: voxel_size(voxel_scale, width, height),
        color: p.color,
        wave: match animation {
            Some(a) => Some(
                WaveVoxel {
                    animation: a,
                    grid_position_2d: Point2 {
                        x: unit_coord(p.col as nat, width),
                        y: unit_coord(p.row as nat, height),
                    },
                },
            ),
            None => None,
        },
    }
}

/// One voxel per opaque pixel, in the pixels' order.
pub open spec fn layout_model(
    m: PixelMapView,
    voxel_scale: Fraction,
    animation: Option<WaveVoxelAnimation>,
) -> Seq<GridVoxel> {
    m.pixels.map_values(|p: Pixel| placed_voxel(p, m.width, m.height, voxel_scale, animation))
}

/// What `layout_grid` asks of its arguments.
pub open spec fn layout_allowed(
    m: PixelMapView,
    voxel_scale: Fraction,
    animation: Option<WaveVoxelAnimation>,
) -> bool {
    &&& m.well_formed()
    &&& voxel_scale.well_formed()
    &&& voxel_scale.den * max_nat(m.width, m.height) <= u128::MAX
    &&& animation is Some ==> m.width >= 2 && m.height >= 2
}

/// Places one voxel per opaque pixel of `map`. Pixel `(row, col)` stands at
/// `x = (col - (width - 1) / 2) / width`, `z = (row - (height - 1) / 2) / height`;
/// every voxel has the scale `voxel_scale / max(width, height)`. With an
/// animation, each voxel also carries `(col / (width - 1), row / (height - 1))`.
pub fn layout_grid(
    map: &PixelMap,
    voxel_scale: Fraction,
    animation: Option<WaveVoxelAnimation>,
) -> (r: Vec<GridVoxel>)
    requires
        layout_allowed(map@, voxel_scale, animation),
    ensures
        r@ == layout_model(map@, voxel_scale, animation),
{
    let width = map.width;
    let height = map.height;
    let largest = if width >= height {
        width
    } else {
        height
    };
    let scale = Fraction { num: voxel_scale.num, den: voxel_scale.den * (largest as u128) };
    let mut out: Vec<GridVoxel> = Vec::new();
    let mut i: usize = 0;
    while i < map.pixels.len()
        invariant
            width == map@.width,
            height == map@.height,
            layout_allowed(map@, voxel_scale, animation),
            scale == voxel_size(voxel_scale, width as nat, height as nat),
            i <= map.pixels.len(),
            out@ =~= layout_model(map@, voxel_scale, animation).subrange(0, i as int),
        decreases map.pixels.len() - i,
    {
        let p = map.pixels[i];
        assert(p.row < height && p.col < width) by {
            assert(map@.pixels[i as int] == p);
        }
        let x = Fraction {
            num: 2 * (p.col as i128) + 1 - (width as i128),
            den: 2 * (width as u128),
        };
        let z = Fraction {
            num: 2 * (p.row as i128) + 1 - (height as i128),
            den: 2 * (height as u128),
        };
        let wave = match animation {
            Some(a) => Some(
                WaveVoxel {
                    animation: a,
                    grid_position_2d: Point2 {
                        x: Fraction { num: p.col as i128, den: (width - 1) as u128 },
                        y: Fraction { num: p.row as i128, den: (height - 1) as u128 },
                    },
                },
            ),
            None => None,
        };
        out.push(GridVoxel { x, z, scale, color: p.color, wave });
        i = i + 1;
    }
    out
}

/// Why a grid could not be built from its pixel-map text.
#[derive(Clone, Copy, Debug, PartialEq, Eq, Structural)]
pub enum GridError {
    /// The pixel map does not parse.
    Malformed(MalformedPixelMap),
    /// The grid is animated but has a single row or a single column, so its
    /// grid coordinates cannot be normalised.
    TooSmallToAnimate,
}

/// What building a grid from `text` gives.
pub open spec fn build_grid_model(
    text: Seq<char>,
    header_line: nat,
    voxel_scale: Fraction,
    animation: Option<WaveVoxelAnimation>,
) -> Result<Seq<GridVoxel>, GridError> {
    match parse_model(text, header_line) {
        Err(e) => Err(GridError::Malformed(e)),
        Ok(m) => if animation is Some && (m.width < 2 || m.height < 2) {
            Err(GridError::TooSmallToAnimate)
        } else {
            Ok(layout_model(m, voxel_scale, animation))
        },
    }
}

/// Parses a pixel map (header on line `header_line`) and places its voxels.
pub fn build_grid(
    text: &str,
    header_line: usize,
    voxel_scale: Fraction,
    animation: Option<WaveVoxelAnimation>,
) -> (r: Result<Vec<GridVoxel>, GridError>)
    requires
        voxel_scale.well_formed(),
        voxel_scale.den <= u64::MAX,
    ensures
        match r {
            Ok(v) => build_grid_model(text@, header_line as nat, voxel_scale, animation) == Ok::<
                Seq<GridVoxel>,
                GridError,
            >(v@),
            Err(e) => build_grid_model(text@, header_line as nat, voxel_scale, animation) == Err::<
                Seq<GridVoxel>,
                GridError,
            >(e),
        },
{
    let map = match parse_pixel_map(text, header_line) {
        Ok(m) => m,
        Err(e) => {
            return Err(GridError::Malformed(e));
        },
    };
    if animation.is_some() && (map.width < 2 || map.height < 2) {
        return Err(GridError::TooSmallToAnimate);
    }
    assert(voxel_scale.den * max_nat(map@.width, map@.height) <= u128::MAX) by (nonlinear_arith)
        requires
            voxel_scale.den <= u64::MAX,
            max_nat(map@.width, map@.height) <= u64::MAX,
    ;
    Ok(layout_grid(&map, voxel_scale, animation))
}

/// Every voxel stands inside the grid's unit footprint: both `x` and `z` lie
/// in `[-1/2, 1/2)`, whatever the map's dimensions.
pub proof fn lemma_positions_in_footprint(
    m: PixelMapView,
    voxel_scale: Fraction,
    animation: Option<WaveVoxelAnimation>,
)
    requires
        m.well_formed(),
    ensures
        forall|i: int|
            0 <= i < layout_model(m, voxel_scale, animation).len() ==> (#[trigger] layout_model(
                m,
                voxel_scale,
                animation,
            )[i]).x.in_centered_unit() && layout_model(m, voxel_scale, animation)[i].z.in_centered_unit(),
{
    assert forall|i: int| 0 <= i < layout_model(m, voxel_scale, animation).len() implies (
    #[trigger] layout_model(m, voxel_scale, animation)[i]).x.in_centered_unit() && layout_model(
        m,
        voxel_scale,
        animation,
    )[i].z.in_centered_unit() by {
        let p = m.pixels[i];
        assert(p.row < m.height && p.col < m.width);
        let v = layout_model(m, voxel_scale, animation)[i];
        assert(v.x.num == 2 * p.col + 1 - m.width);
        assert(v.x.den == 2 * m.width);
        assert(v.z.num == 2 * p.row + 1 - m.height);
        assert(v.z.den == 2 * m.height);
    }
}

/// Every voxel of a grid has the same scale, `voxel_scale / max(width, height)`.
pub proof fn lemma_uniform_scale(
    m: PixelMapView,
    voxel_scale: Fraction,
    animation: Option<WaveVoxelAnimation>,
)
    requires
        layout_allowed(m, voxel_scale, animation),
    ensures
        forall|i: int|
            0 <= i < layout_model(m, voxel_scale, animation).len() ==> (#[trigger] layout_model(
                m,
                voxel_scale,
                animation,
            )[i]).scale == voxel_size(voxel_scale, m.width, m.height),
        voxel_size(voxel_scale, m.width, m.height).num == voxel_scale.num,
        voxel_size(voxel_scale, m.width, m.height).den == voxel_scale.den * max_nat(
            m.width,
            m.height,
        ),
{
}

/// A grid gets one voxel per opaque pixel of its map, in the same order and
/// with the same colour: as many as its pixel rows hold characters that the
/// palette colours, and never more than `width * height`.
pub proof fn lemma_one_voxel_per_opaque_pixel(
    text: Seq<char>,
    header_line: nat,
    voxel_scale: Fraction,
    animation: Option<WaveVoxelAnimation>,
)
    requires
        parse_model(text, header_line) is Ok,
    ensures
        ({
            let m = parse_model(text, header_line)->Ok_0;
            &&& layout_model(m, voxel_scale, animation).len() == m.pixels.len()
            &&& m.pixels.len() <= m.width * m.height
            &&& forall|i: int|
                0 <= i < m.pixels.len() ==> (#[trigger] layout_model(m, voxel_scale, animation)[i]).color
                    == m.pixels[i].color
        }),
{
    lemma_parsed_map_well_formed(text, header_line);
}

/// Parsing and placement depend on the text alone: the same text, parsed
/// twice, gives the same result and the same voxels.
pub proof fn lemma_parse_deterministic(
    a: Seq<char>,
    b: Seq<char>,
    header_line: nat,
    voxel_scale: Fraction,
    animation: Option<WaveVoxelAnimation>,
)
    requires
        a == b,
    ensures
        parse_model(a, header_line) == parse_model(b, header_line),
        parse_model(a, header_line) is Ok ==> layout_model(
            parse_model(a, header_line)->Ok_0,
            voxel_scale,
            animation,
        ) == layout_model(parse_model(b, header_line)->Ok_0, voxel_scale, animation),
{
}

/// Animated voxels carry grid coordinates in `[0, 1]`.
pub proof fn lemma_grid_coords_in_unit(
    m: PixelMapView,
    voxel_scale: Fraction,
    animation: Option<WaveVoxelAnimation>,
)
    requires
        layout_allowed(m, voxel_scale, animation),
    ensures
        forall|i: int|
            0 <= i < layout_model(m, voxel_scale, animation).len() ==> (#[trigger] layout_model(
                m,
                voxel_scale,
                animation,
            )[i]).coords_in_unit(),
{
    assert forall|i: int| 0 <= i < layout_model(m, voxel_scale, animation).len() implies (
    #[trigger] layout_model(m, voxel_scale, animation)[i]).coords_in_unit() by {
        let p = m.pixels[i];
        assert(p.row < m.height && p.col < m.width);
        let v = layout_model(m, voxel_scale, animation)[i];
        if animation is Some {
            let w = v.wave->Some_0;
            assert(w.grid_position_2d.x.num == p.col);
            assert(w.grid_position_2d.x.den == m.width - 1);
            assert(w.grid_position_2d.y.num == p.row);
            assert(w.grid_position_2d.y.den == m.height - 1);
        }
    }
}

} // verus!
