//! Pixel data of the generated textures.
use vstd::prelude::*;

verus! {

/// Side length, in pixels, of the generated textures.
pub const TEXTURE_SIZE: usize = 8;

/// Number of bytes of a generated texture: RGBA, one byte per channel.
pub const TEXTURE_BYTES: usize = 256;

/// The palette of the test pattern: eight RGBA colours, one row of pixels.
pub open spec fn uv_debug_palette() -> Seq<u8> {
    seq![
        255u8, 102, 159, 255, 255, 159, 102, 255, 236, 255, 102, 255, 121, 255, 102, 255, 102,
        255, 198, 255, 102, 198, 255, 255, 121, 102, 255, 255, 236, 102, 255, 255,
    ]
}

/// Byte `k` of the test pattern: row `y` is the palette shifted right by `y`
/// pixels (four bytes per pixel), wrapping around.
pub open spec fn uv_debug_byte(k: int) -> u8 {
    let y = k / 32;
    let i = k % 32;
    uv_debug_palette()[(i + 32 - 4 * y) % 32]
}

fn palette_bytes() -> (r: [u8; 32])
    ensures
        r@ == uv_debug_palette(),
{
    let r: [u8; 32] = [
        255, 102, 159, 255, 255, 159, 102, 255, 236, 255, 102, 255, 121, 255, 102, 255, 102, 255,
        198, 255, 102, 198, 255, 255, 121, 102, 255, 255, 236, 102, 255, 255,
    ];
    assert(r@ =~= uv_debug_palette());
    r
}

/// Rotate the palette right by one pixel (four bytes).
fn rotate_right_one_pixel(palette: &mut [u8; 32])
    ensures
        forall|i: int| 0 <= i < 32 ==> final(palette)@[i] == old(palette)@[(i + 28) % 32],
{
    let original = *palette;
    let mut i: usize = 0;
    while i < 32
        invariant
            i <= 32,
            forall|j: int| 0 <= j < i ==> palette@[j] == original@[(j + 28) % 32],
        decreases 32 - i,
    {
        palette[i] = original[(i + 28) % 32];
        i = i + 1;
    }
}

/// The bytes of a colourful test pattern: each row of pixels is the palette,
/// shifted one pixel further right than the row before.
pub fn uv_debug_texture_data() -> (r: [u8; TEXTURE_BYTES])
    ensures
        forall|k: int| 0 <= k < TEXTURE_BYTES ==> r@[k] == uv_debug_byte(k),
{
    let mut palette = palette_bytes();
    let mut texture_data: [u8; TEXTURE_BYTES] = [0u8; TEXTURE_BYTES];
    let mut y: usize = 0;
    while y < TEXTURE_SIZE
        invariant
            y <= TEXTURE_SIZE,
            forall|i: int| 0 <= i < 32 ==> palette@[i] == uv_debug_palette()[(i + 32 - 4 * y) % 32],
            forall|k: int| 0 <= k < 32 * y ==> texture_data@[k] == uv_debug_byte(k),
        decreases TEXTURE_SIZE - y,
    {
        let offset = TEXTURE_SIZE * y * 4;
        let mut i: usize = 0;
        while i < 32
            invariant
                y < TEXTURE_SIZE,
                offset == 32 * y,
                i <= 32,
                forall|j: int| 0 <= j < 32 ==> palette@[j] == uv_debug_palette()[(j + 32 - 4 * y) % 32],
                forall|k: int| 0 <= k < 32 * y + i ==> texture_data@[k] == uv_debug_byte(k),
            decreases 32 - i,
        {
            texture_data[offset + i] = palette[i];
            proof {
                let k = offset + i;
                assert(k / 32 == y && k % 32 == i) by (nonlinear_arith)
                    requires
                        k == 32 * y + i,
                        0 <= i < 32,
                ;
            }
            i = i + 1;
        }
        let ghost before = palette@;
        rotate_right_one_pixel(&mut palette);
        proof {
            assert forall|j: int| 0 <= j < 32 implies palette@[j] == uv_debug_palette()[(j + 32 - 4 * (y + 1)) % 32] by {
                let m = (j + 28) % 32;
                assert(before[m] == uv_debug_palette()[(m + 32 - 4 * y) % 32]);
                assert((m + 32 - 4 * y) % 32 == (j + 32 - 4 * (y + 1)) % 32) by (nonlinear_arith)
                    requires
                        0 <= j < 32,
                        0 <= y < 8,
                        m == (j + 28) % 32,
                ;
            }
        }
        y = y + 1;
    }
    texture_data
}

/// A random byte (`rand::random::<u8>()`); any value may come back.
#[verifier::external_body]
fn random_byte() -> (r: u8) {
    rand::random::<u8>()
}

/// The bytes of a texture of random colours.
pub fn colorful_texture_data() -> (r: Vec<u8>)
    ensures
        r.len() == TEXTURE_BYTES,
{
    let mut data: Vec<u8> = Vec::new();
    let mut i: usize = 0;
    while i < TEXTURE_BYTES
        invariant
            i <= TEXTURE_BYTES,
            data.len() == i,
        decreases TEXTURE_BYTES - i,
    {
        data.push(random_byte());
        i = i + 1;
    }
    data
}

} // verus!
