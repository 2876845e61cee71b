//! The alpha texture of the blobs drawn in continuous rendering mode.
use vstd::prelude::*;

verus! {

/// Width and height of the blob texture in pixels.
pub const TEXTURE_SIZE: usize = 256;

/// Below this squared distance to the centre a pixel is fully opaque
/// (the distance is below the point size 2).
pub const OPAQUE_SQUARED_DISTANCE: u32 = 4;

/// Above this squared distance to the centre a pixel is fully transparent
/// (the distance is beyond the radius 126).
pub const TRANSPARENT_SQUARED_DISTANCE: u32 = 15876;

/// The squared distance of pixel `(x, y)` to the centre of the texture.
pub open spec fn squared_distance_to_center(x: int, y: int) -> int {
    (x - 128) * (x - 128) + (y - 128) * (y - 128)
}

/// Byte `c` (0 to 3 for red, green, blue, alpha) of pixel `(x, y)`.
pub open spec fn pixel_byte(texture: Seq<u8>, x: int, y: int, c: int) -> u8 {
    texture[4 * (x + 256 * y) + c]
}

/// The alpha of a pixel at a given squared distance to the centre: opaque in
/// the centre, transparent outside the radius, and in between a value that
/// `gradient` gives for that squared distance.
pub open spec fn blob_alpha<F: Fn(u32) -> u8>(gradient: F, squared_distance: int, alpha: u8) -> bool {
    if squared_distance < OPAQUE_SQUARED_DISTANCE {
        alpha == 255
    } else if squared_distance > TRANSPARENT_SQUARED_DISTANCE {
        alpha == 0
    } else {
        call_ensures(gradient, (squared_distance as u32,), alpha)
    }
}

/// Pixel `(x, y)` is as the texture requires: no colour, and the alpha of
/// its distance to the centre.
pub open spec fn pixel_ok<F: Fn(u32) -> u8>(gradient: F, texture: Seq<u8>, x: int, y: int) -> bool {
    &&& pixel_byte(texture, x, y, 0) == 0
    &&& pixel_byte(texture, x, y, 1) == 0
    &&& pixel_byte(texture, x, y, 2) == 0
    &&& blob_alpha(gradient, squared_distance_to_center(x, y), pixel_byte(texture, x, y, 3))
}

/// The first `n` pixels in row-major order are as the texture requires.
pub open spec fn texture_prefix_ok<F: Fn(u32) -> u8>(gradient: F, texture: Seq<u8>, n: int) -> bool {
    forall|px: int, py: int|
        0 <= px < 256 && 0 <= py < 256 && px + 256 * py < n ==> #[trigger] pixel_ok(
            gradient,
            texture,
            px,
            py,
        )
}

/// In a texture as required, every pixel has no colour, the pixels closer to
/// the centre than the point size are opaque, and those beyond the radius are
/// transparent.
pub proof fn blob_is_opaque_inside_and_clear_outside<F: Fn(u32) -> u8>(
    gradient: F,
    texture: Seq<u8>,
    x: int,
    y: int,
)
    requires
        texture_prefix_ok(gradient, texture, 65536),
        0 <= x < 256,
        0 <= y < 256,
    ensures
        pixel_byte(texture, x, y, 0) == 0,
        pixel_byte(texture, x, y, 1) == 0,
        pixel_byte(texture, x, y, 2) == 0,
        squared_distance_to_center(x, y) < 4 ==> pixel_byte(texture, x, y, 3) == 255,
        squared_distance_to_center(x, y) > 15876 ==> pixel_byte(texture, x, y, 3) == 0,
{
    assert(x + 256 * y < 65536);
    assert(pixel_ok(gradient, texture, x, y));
}

/// Generate a 256 x 256 blob texture with only the alpha channel encoded.
/// The alpha between the opaque centre and the transparent outside comes
/// from `gradient`, given the squared distance to the centre.
pub fn generate_raw_texture<F: Fn(u32) -> u8>(gradient: F) -> (texture: Vec<u8>)
    requires
        forall|sq: u32|
            OPAQUE_SQUARED_DISTANCE <= sq <= TRANSPARENT_SQUARED_DISTANCE ==> call_requires(
                gradient,
                (sq,),
            ),
    ensures
        texture@.len() == 4 * 256 * 256,
        texture_prefix_ok(gradient, texture@, 65536int),
{
    let mut texture: Vec<u8> = Vec::new();
    let mut y: usize = 0;
    while y < TEXTURE_SIZE
        invariant
            y <= 256,
            texture@.len() == 4 * (256 * y),
            texture_prefix_ok(gradient, texture@, 256 * y),
            forall|sq: u32|
                OPAQUE_SQUARED_DISTANCE <= sq <= TRANSPARENT_SQUARED_DISTANCE ==> call_requires(
                    gradient,
                    (sq,),
                ),
        decreases 256 - y,
    {
        let mut x: usize = 0;
        assert(texture@.len() == 4 * (x + 256 * y));
        while x < TEXTURE_SIZE
            invariant
                y < 256,
                x <= 256,
                texture@.len() == 4 * (x + 256 * y),
                texture_prefix_ok(gradient, texture@, x + 256 * y),
                forall|sq: u32|
                    OPAQUE_SQUARED_DISTANCE <= sq <= TRANSPARENT_SQUARED_DISTANCE ==> call_requires(
                        gradient,
                        (sq,),
                    ),
            decreases 256 - x,
        {
            // Calculate the squared euclidean distance to the center
            let dx: i32 = x as i32 - 128;
            let dy: i32 = y as i32 - 128;
            assert(0 <= dx * dx <= 16384) by (nonlinear_arith)
                requires
                    -128 <= dx <= 127,
            ;
            assert(0 <= dy * dy <= 16384) by (nonlinear_arith)
                requires
                    -128 <= dy <= 127,
            ;
            let squared_distance: u32 = (dx * dx + dy * dy) as u32;
            assert(squared_distance == squared_distance_to_center(x as int, y as int));
            // Based on the distance calculate the alpha
            let alpha: u8 = if squared_distance < OPAQUE_SQUARED_DISTANCE {
                255
            } else if squared_distance > TRANSPARENT_SQUARED_DISTANCE {
                0
            } else {
                gradient(squared_distance)
            };
            let ghost before = texture@;
            texture.push(0);
            texture.push(0);
            texture.push(0);
            texture.push(alpha);
            proof {
                let after = texture@;
                assert(after.len() == before.len() + 4);
                assert(after[before.len() as int + 3] == alpha);
                assert(pixel_byte(after, x as int, y as int, 3) == alpha);
                assert(pixel_byte(after, x as int, y as int, 0) == 0);
                assert(pixel_byte(after, x as int, y as int, 1) == 0);
                assert(pixel_byte(after, x as int, y as int, 2) == 0);
                assert forall|px: int, py: int|
                    0 <= px < 256 && 0 <= py < 256 && px + 256 * py < (x + 1) + 256 * y implies #[trigger] pixel_ok(
                        gradient,
                        after,
                        px,
                        py,
                    ) by {
                    if px + 256 * py < x + 256 * y {
                        assert(pixel_ok(gradient, before, px, py));
                        assert(pixel_byte(before, px, py, 3) == pixel_byte(after, px, py, 3));
                        assert(pixel_byte(before, px, py, 0) == pixel_byte(after, px, py, 0));
                        assert(pixel_byte(before, px, py, 1) == pixel_byte(after, px, py, 1));
                        assert(pixel_byte(before, px, py, 2) == pixel_byte(after, px, py, 2));
                    } else {
                        assert(px == x && py == y);
                    }
                }
                assert(texture_prefix_ok(gradient, after, (x + 1) + 256 * y));
            }
            x = x + 1;
        }
        assert(256 + 256 * y == 256 * (y + 1));
        y = y + 1;
    }
    texture
}

} // verus!
