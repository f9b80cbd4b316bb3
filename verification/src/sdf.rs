//! The signed distance raster of a silhouette.

use vstd::prelude::*;

verus! {

/// The alpha from which on a pixel belongs to the silhouette.
pub const SOLID_ALPHA: u8 = 128;

/// The signed distance of a pixel from the edge of the silhouette: negative
/// inside, positive outside.
#[derive(Clone, Copy, Debug, PartialEq, Eq, Structural)]
pub struct SignedDistance {
    pub inside: bool,
    /// The square of the distance in pixels; none if there is no edge.
    pub squared: Option<u128>,
}

/// The pixel belongs to the silhouette: its last byte is the alpha.
pub open spec fn solid(pixels: Seq<u8>, i: int) -> bool {
    pixels[4 * i + 3] >= SOLID_ALPHA
}

pub open spec fn square(x: int) -> int {
    x * x
}

/// The square of the distance of two pixels of a raster, which are numbered row by
/// row.
pub open spec fn squared_distance(width: int, i: int, j: int) -> int {
    square(i % width - j % width) + square(i / width - j / width)
}

/// The pixels lie on different sides of the edge.
pub open spec fn opposite(pixels: Seq<u8>, i: int, j: int) -> bool {
    solid(pixels, i) != solid(pixels, j)
}

/// The square of the distance to the nearest of the first pixels that lie on the
/// other side of the edge.
pub open spec fn is_nearest(
    pixels: Seq<u8>,
    width: int,
    count: int,
    i: int,
    nearest: Option<u128>,
) -> bool {
    match nearest {
        None => forall|j: int| 0 <= j < count ==> !#[trigger] opposite(pixels, i, j),
        Some(d) => {
            &&& exists|j: int|
                0 <= j < count && #[trigger] opposite(pixels, i, j) && d == squared_distance(
                    width,
                    i,
                    j,
                )
            &&& forall|j: int|
                0 <= j < count && #[trigger] opposite(pixels, i, j) ==> d <= squared_distance(
                    width,
                    i,
                    j,
                )
        },
    }
}

/// What the raster holds for a pixel.
pub open spec fn is_signed_distance(
    pixels: Seq<u8>,
    width: int,
    count: int,
    i: int,
    d: SignedDistance,
) -> bool {
    d.inside == solid(pixels, i) && is_nearest(pixels, width, count, i, d.squared)
}

fn compute_squared_distance(width: usize, i: usize, j: usize) -> (d: u128)
    requires
        width > 0,
        i < 0x4000_0000_0000_0000,
        j < 0x4000_0000_0000_0000,
    ensures
        d == squared_distance(width as int, i as int, j as int),
{
    let x: usize = i % width;
    let y: usize = i / width;
    let xx: usize = j % width;
    let yy: usize = j / width;
    let dx: u64 = if x >= xx { (x - xx) as u64 } else { (xx - x) as u64 };
    let dy: u64 = if y >= yy { (y - yy) as u64 } else { (yy - y) as u64 };
    proof {
        let a = dx as int;
        let b = dy as int;
        let c = x - xx;
        let e = y - yy;
        assert(i % width <= i && j % width <= j) by (nonlinear_arith)
            requires
                width > 0,
        ;
        assert(i / width <= i && j / width <= j) by (nonlinear_arith)
            requires
                width > 0,
        ;
        assert(0 <= a * a <= 0x1000_0000_0000_0000_0000_0000_0000_0000) by (nonlinear_arith)
            requires
                0 <= a <= 0x4000_0000_0000_0000,
        ;
        assert(0 <= b * b <= 0x1000_0000_0000_0000_0000_0000_0000_0000) by (nonlinear_arith)
            requires
                0 <= b <= 0x4000_0000_0000_0000,
        ;
        assert(a * a == c * c) by (nonlinear_arith)
            requires
                a == c || a == -c,
        ;
        assert(b * b == e * e) by (nonlinear_arith)
            requires
                b == e || b == -e,
        ;
    }
    let dxx: u128 = dx as u128 * dx as u128;
    let dyy: u128 = dy as u128 * dy as u128;
    dxx + dyy
}

fn find_nearest(pixels: &[u8], width: usize, count: usize, i: usize) -> (nearest: Option<u128>)
    requires
        width > 0,
        i < count,
        4 * count <= pixels@.len(),
    ensures
        is_nearest(pixels@, width as int, count as int, i as int, nearest),
{
    let length: usize = pixels.len();
    assert(4 * count <= length);
    let wanted: bool = pixels[4 * i + 3] >= SOLID_ALPHA;
    let mut nearest: Option<u128> = None;
    let mut j: usize = 0;
    while j < count
        invariant
            width > 0,
            i < count,
            j <= count,
            4 * count <= pixels@.len() <= usize::MAX,
            wanted == solid(pixels@, i as int),
            is_nearest(pixels@, width as int, j as int, i as int, nearest),
        decreases count - j,
    {
        let other: bool = pixels[4 * j + 3] >= SOLID_ALPHA;
        if other != wanted {
            let d: u128 = compute_squared_distance(width, i, j);
            assert(opposite(pixels@, i as int, j as int));
            let closer: bool = match nearest {
                Some(n) => d < n,
                None => true,
            };
            if closer {
                nearest = Some(d);
            }
        } else {
            assert(!opposite(pixels@, i as int, j as int));
        }
        j = j + 1;
    }
    nearest
}

/// The signed distances of the pixels of a silhouette.
///
/// `pixels` holds four bytes for each pixel, row by row from the top; what it holds
/// beyond the raster gets a distance of zero.
pub fn signed_distance_raster(pixels: &[u8], width: usize, height: usize) -> (raster: Vec<
    SignedDistance,
>)
    requires
        width * height <= pixels@.len() / 4,
    ensures
        raster@.len() == pixels@.len() / 4,
        forall|i: int|
            0 <= i < width * height ==> is_signed_distance(
                pixels@,
                width as int,
                width * height,
                i,
                #[trigger] raster@[i],
            ),
        forall|i: int|
            width * height <= i < raster@.len() ==> #[trigger] raster@[i] == (SignedDistance {
                inside: false,
                squared: Some(0),
            }),
{
    let length: usize = pixels.len();
    let total: usize = length / 4;
    let count: usize = width * height;
    let mut raster: Vec<SignedDistance> = Vec::new();
    while raster.len() < total
        invariant
            length == pixels@.len(),
            total == length / 4,
            count == width * height,
            count <= total,
            raster@.len() <= total,
            forall|i: int|
                0 <= i < raster@.len() && i < count ==> is_signed_distance(
                    pixels@,
                    width as int,
                    count as int,
                    i,
                    #[trigger] raster@[i],
                ),
            forall|i: int|
                count <= i < raster@.len() ==> #[trigger] raster@[i] == (SignedDistance {
                    inside: false,
                    squared: Some(0),
                }),
        decreases total - raster@.len(),
    {
        let i: usize = raster.len();
        if i < count {
            assert(width > 0) by (nonlinear_arith)
                requires
                    width * height > 0,
            ;
            let inside: bool = pixels[4 * i + 3] >= SOLID_ALPHA;
            let squared: Option<u128> = find_nearest(pixels, width, count, i);
            raster.push(SignedDistance { inside, squared });
        } else {
            raster.push(SignedDistance { inside: false, squared: Some(0) });
        }
    }
    raster
}

/// Every distance within the raster is at least one pixel, so that its sign always
/// says on which side of the edge the pixel lies.
pub proof fn law_distances_are_never_zero(
    pixels: Seq<u8>,
    width: int,
    count: int,
    i: int,
    d: SignedDistance,
)
    requires
        width > 0,
        0 <= i < count,
        is_signed_distance(pixels, width, count, i, d),
    ensures
        d.squared matches Some(s) ==> s >= 1,
{
    if let Some(s) = d.squared {
        let j = choose|j: int|
            0 <= j < count && #[trigger] opposite(pixels, i, j) && s == squared_distance(
                width,
                i,
                j,
            );
        assert(i != j);
        vstd::arithmetic::div_mod::lemma_fundamental_div_mod(i, width);
        vstd::arithmetic::div_mod::lemma_fundamental_div_mod(j, width);
        let a = i % width - j % width;
        let b = i / width - j / width;
        assert(a != 0 || b != 0) by {
            if a == 0 && b == 0 {
                assert(i / width == j / width);
                assert(i == j);
            }
        }
        assert(a * a >= 0 && (a != 0 ==> a * a >= 1)) by (nonlinear_arith);
        assert(b * b >= 0 && (b != 0 ==> b * b >= 1)) by (nonlinear_arith);
    }
}

/// A silhouette and what is left out of it have the same distances with opposite
/// signs.
pub proof fn law_inverted_silhouette(
    pixels: Seq<u8>,
    inverted: Seq<u8>,
    width: int,
    count: int,
    i: int,
    d: SignedDistance,
)
    requires
        0 <= i < count,
        forall|j: int| 0 <= j < count ==> #[trigger] solid(inverted, j) != solid(pixels, j),
        is_signed_distance(pixels, width, count, i, d),
    ensures
        is_signed_distance(
            inverted,
            width,
            count,
            i,
            SignedDistance { inside: !d.inside, squared: d.squared },
        ),
{
    assert(solid(inverted, i) != solid(pixels, i));
    assert forall|j: int| 0 <= j < count implies #[trigger] opposite(inverted, i, j) == opposite(
        pixels,
        i,
        j,
    ) by {
        assert(solid(inverted, j) != solid(pixels, j));
    }
    if let Some(s) = d.squared {
        let j = choose|j: int|
            0 <= j < count && #[trigger] opposite(pixels, i, j) && s == squared_distance(
                width,
                i,
                j,
            );
        assert(opposite(inverted, i, j));
        assert forall|k: int| 0 <= k < count && #[trigger] opposite(inverted, i, k) implies s
            <= squared_distance(width, i, k) by {
            assert(opposite(pixels, i, k));
        }
    } else {
        assert forall|k: int| 0 <= k < count implies !#[trigger] opposite(inverted, i, k) by {
            assert(!opposite(pixels, i, k));
        }
    }
}

/// Without a silhouette, or with nothing left out of it, there is no edge and no
/// distance.
pub proof fn law_no_edge_no_distance(
    pixels: Seq<u8>,
    width: int,
    count: int,
    i: int,
    d: SignedDistance,
)
    requires
        0 <= i < count,
        forall|j: int| 0 <= j < count ==> #[trigger] solid(pixels, j) == solid(pixels, 0),
        is_signed_distance(pixels, width, count, i, d),
    ensures
        d.squared is None,
{
    if let Some(s) = d.squared {
        let j = choose|j: int|
            0 <= j < count && #[trigger] opposite(pixels, i, j) && s == squared_distance(
                width,
                i,
                j,
            );
        assert(solid(pixels, i) == solid(pixels, 0));
        assert(solid(pixels, j) == solid(pixels, 0));
    }
}

/// The raster holds, for each pixel, on which side of the edge it lies, by whether its
/// alpha is at least one half, and the square of its distance to the nearest pixel on
/// the other side: as far as any pixel there is, column by column and row by row, and
/// no nearer than all of them.
pub proof fn law_distance_is_to_the_nearest(
    pixels: Seq<u8>,
    width: int,
    count: int,
    i: int,
    d: SignedDistance,
    j: int,
)
    requires
        width > 0,
        0 <= i < count,
        0 <= j < count,
        4 * count <= pixels.len(),
        is_signed_distance(pixels, width, count, i, d),
    ensures
        d.inside <==> pixels[4 * i + 3] >= 128,
        (pixels[4 * i + 3] >= 128) != (pixels[4 * j + 3] >= 128) ==> (d.squared matches Some(s) && s
            <= (i % width - j % width) * (i % width - j % width) + (i / width - j / width) * (i
            / width - j / width)),
        d.squared matches Some(s) ==> exists|k: int|
            #![trigger pixels[4 * k + 3]]
            0 <= k < count && (pixels[4 * i + 3] >= 128) != (pixels[4 * k + 3] >= 128) && s == (i
                % width - k % width) * (i % width - k % width) + (i / width - k / width) * (i
                / width - k / width),
{
    if opposite(pixels, i, j) {
        assert(d.squared is Some);
        assert(d.squared.unwrap() <= squared_distance(width, i, j));
    }
    if let Some(s) = d.squared {
        let k = choose|k: int|
            0 <= k < count && #[trigger] opposite(pixels, i, k) && s == squared_distance(
                width,
                i,
                k,
            );
        assert((pixels[4 * i + 3] >= 128) != (pixels[4 * k + 3] >= 128));
    }
}

} // verus!
