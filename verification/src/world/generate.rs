use vstd::prelude::*;
use crate::render::materials::{palette, palette_spec, Material};
use crate::util::coords::{in_isize, index_2d, scale_signed_coord_2d, SignedCoord2D, SignedCoord3D};
use crate::util::coord_util::CoordUtil;
use crate::util::iter::coord_iter_2d;
use crate::world::chunk::{UnpackedChunkData, CHUNK_SIZE, CHUNK_VOLUME};
use crate::world::heightmap::{Heightmap, CHUNK_AREA};
use rand::rngs::StdRng;

verus! {

#[verifier::external_type_specification]
#[verifier::external_body]
pub struct ExStdRng(StdRng);

#[verifier::external_type_specification]
#[verifier::external_body]
pub struct ExRandError(rand::Error);

/// Calls `SeedableRng::from_rng` for `StdRng` with `rand::rngs::OsRng`, which seeds a generator
/// from the operating system's random source, or hands back the error that the source gave.
/// Nothing is claimed of the generator, nor of when the source fails.
#[verifier::external_body]
fn seeded_rng() -> Result<StdRng, rand::Error> {
    rand::SeedableRng::from_rng(rand::rngs::OsRng)
}

/// Calls `RngCore::next_u32` on a `StdRng`. The number is random: nothing is claimed of it.
#[verifier::external_body]
fn next_random_u32(rng: &mut StdRng) -> u32 {
    rand::RngCore::next_u32(rng)
}

/// Why a chunk could not be generated.
#[derive(Debug, Clone, Copy, PartialEq, Eq, Structural)]
pub enum GenerateError {
    /// The operating system's random source could not seed the random number generator.
    RandomSource,
}

/// The palette number of the material at height `height`, given a random number `roll`:
/// grass low down, then more and more dirt, then more and more stone.
pub open spec fn material_for_roll_spec(height: int, roll: u32) -> usize {
    if height < 20 {
        2
    } else if height < 80 {
        if roll % 60 < height - 20 { 5 } else { 2 }
    } else if height < 160 {
        if roll % 80 < height - 80 { 6 } else { 5 }
    } else {
        6
    }
}

/// Law: in the dirt band (heights 20 to 80) and in the stone band (heights 80 to 160) the
/// share of random numbers that give the richer material grows with the height: a number that
/// gives dirt (stone) at one height gives it at every greater height of the band.
pub proof fn lemma_material_rises_with_height(h: int, h2: int, roll: u32)
    requires
        h <= h2,
    ensures
        20 <= h && h2 < 80 && material_for_roll_spec(h, roll) == 5 ==> material_for_roll_spec(
            h2,
            roll,
        ) == 5,
        80 <= h && h2 < 160 && material_for_roll_spec(h, roll) == 6 ==> material_for_roll_spec(
            h2,
            roll,
        ) == 6,
{
}

/// Law: how likely each material is. Of the 60 residues of a random number in the dirt band,
/// exactly `h - 20` give dirt at height `h` (the rest give grass), and of the 80 in the stone
/// band exactly `h - 80` give stone (the rest give dirt): the chance of the richer material
/// rises by one residue per voxel of height, from none at the bottom of the band.
pub proof fn lemma_material_shares(h: int)
    ensures
        20 <= h < 80 ==> Set::new(
            |r: int| 0 <= r < 60 && material_for_roll_spec(h, r as u32) == 5,
        ).len() == h - 20,
        20 <= h < 80 ==> forall|roll: u32|
            material_for_roll_spec(h, roll) == 5 || material_for_roll_spec(h, roll) == 2,
        80 <= h < 160 ==> Set::new(
            |r: int| 0 <= r < 80 && material_for_roll_spec(h, r as u32) == 6,
        ).len() == h - 80,
        80 <= h < 160 ==> forall|roll: u32|
            material_for_roll_spec(h, roll) == 6 || material_for_roll_spec(h, roll) == 5,
{
    if 20 <= h < 80 {
        let dirt = Set::new(|r: int| 0 <= r < 60 && material_for_roll_spec(h, r as u32) == 5);
        assert(dirt =~= vstd::set_lib::set_int_range(0, h - 20)) by {
            assert forall|r: int| #![trigger dirt.contains(r)] 0 <= r < 60 implies (r as u32) % 60 == r by {
                vstd::arithmetic::div_mod::lemma_small_mod(r as nat, 60);
            }
        }
        vstd::set_lib::lemma_int_range(0, h - 20);
    }
    if 80 <= h < 160 {
        let stone = Set::new(|r: int| 0 <= r < 80 && material_for_roll_spec(h, r as u32) == 6);
        assert(stone =~= vstd::set_lib::set_int_range(0, h - 80)) by {
            assert forall|r: int| #![trigger stone.contains(r)] 0 <= r < 80 implies (r as u32) % 80 == r by {
                vstd::arithmetic::div_mod::lemma_small_mod(r as nat, 80);
            }
        }
        vstd::set_lib::lemma_int_range(0, h - 80);
    }
}

/// The palette numbers that can be chosen at height `height`, whatever the random number.
pub open spec fn material_choices(height: int, index: usize) -> bool {
    if height < 20 {
        index == 2
    } else if height < 80 {
        index == 2 || index == 5
    } else if height < 160 {
        index == 5 || index == 6
    } else {
        index == 6
    }
}

/// The palette number of the material at height `height` for the random number `roll`.
pub fn material_for_roll(height: isize, roll: u32) -> (r: usize)
    ensures
        r == material_for_roll_spec(height as int, roll),
        material_choices(height as int, r),
{
    if height < 20 {
        2
    } else if height < 80 {
        let threshold = (height - 20) as u32;
        if roll % (80 - 20) < threshold {
            5
        } else {
            2
        }
    } else if height < 160 {
        let threshold = (height - 80) as u32;
        if roll % (160 - 80) < threshold {
            6
        } else {
            5
        }
    } else {
        6
    }
}

/// Picks the palette number of the material at height `height`, drawing a random number where
/// the height leaves a choice.
pub fn material(random: &mut StdRng, height: isize) -> (r: usize)
    ensures
        exists|roll: u32| r == #[trigger] material_for_roll_spec(height as int, roll),
        material_choices(height as int, r),
{
    if height < 20 || height >= 160 {
        material_for_roll(height, 0)
    } else {
        let roll = next_random_u32(random);
        material_for_roll(height, roll)
    }
}

/// Whether `m` is a material that the generator may place at height `height` under a column of
/// height `column_height`: air at and above the column's height, otherwise the material that
/// some random number picks at that height.
pub open spec fn generated_voxel(m: Material, height: int, column_height: int) -> bool {
    if height >= column_height {
        m == Material::air_spec()
    } else {
        exists|roll: u32| m == palette_spec(#[trigger] material_for_roll_spec(height, roll) as int)
    }
}

/// Fills a heightmap for the chunk column at `chunk_coord`: the column at `(x, y)` gets
/// `height(origin.0 + x, origin.1 + y)`, where `origin` is the chunk coordinate times the chunk
/// size.
pub fn generate_heightmap<F: Fn(isize, isize) -> isize>(
    data: &mut Heightmap,
    chunk_coord: &SignedCoord2D,
    height: F,
)
    requires
        old(data).heights().len() >= CHUNK_AREA,
        in_isize(chunk_coord.0 * 128),
        in_isize(chunk_coord.1 * 128),
        in_isize(chunk_coord.0 * 128 + 127),
        in_isize(chunk_coord.1 * 128 + 127),
        forall|x: isize, y: isize| #[trigger] call_requires(height, (x, y)),
    ensures
        final(data).heights().len() == old(data).heights().len(),
        forall|i: int|
            #![trigger final(data).heights()[i]]
            0 <= i < CHUNK_AREA ==> call_ensures(
                height,
                (
                    ((chunk_coord.0 * 128 + i % 128) as isize),
                    ((chunk_coord.1 * 128 + i / 128) as isize),
                ),
                final(data).heights()[i],
            ),
        forall|i: int|
            CHUNK_AREA <= i < old(data).heights().len() ==> final(data).heights()[i] == old(
                data,
            ).heights()[i],
{
    let origin = scale_signed_coord_2d(chunk_coord, CHUNK_SIZE as isize);
    let mut iter = coord_iter_2d(CHUNK_SIZE);
    let mut index: usize = 0;
    loop
        invariant_except_break
            iter.in_grid(),
            iter.size() == CHUNK_SIZE,
            iter.position() == index,
        invariant
            origin.0 == chunk_coord.0 * 128,
            origin.1 == chunk_coord.1 * 128,
            in_isize(chunk_coord.0 * 128 + 127),
            in_isize(chunk_coord.1 * 128 + 127),
            forall|x: isize, y: isize| #[trigger] call_requires(height, (x, y)),
            index <= CHUNK_AREA,
            data.heights().len() == old(data).heights().len(),
            old(data).heights().len() >= CHUNK_AREA,
            forall|i: int|
                #![trigger data.heights()[i]]
                0 <= i < index ==> call_ensures(
                    height,
                    (
                        ((chunk_coord.0 * 128 + i % 128) as isize),
                        ((chunk_coord.1 * 128 + i / 128) as isize),
                    ),
                    data.heights()[i],
                ),
            forall|i: int|
                index <= i < old(data).heights().len() ==> data.heights()[i] == old(
                    data,
                ).heights()[i],
        ensures
            index == CHUNK_AREA,
        decreases CHUNK_AREA - index,
    {
        proof {
            iter.lemma_next_in_order();
            let s = iter.size() as int;
            assert(s * s == CHUNK_AREA) by (nonlinear_arith)
                requires s == 128;
        }
        let next = iter.next();
        match next {
            None => {
                break;
            },
            Some(coord) => {
                let (x, y) = (coord.0 as isize, coord.1 as isize);
                proof {
                    vstd::arithmetic::div_mod::lemma_fundamental_div_mod_converse(
                        index as int,
                        128,
                        coord.1 as int,
                        coord.0 as int,
                    );
                }
                let h = height(origin.0 + x, origin.1 + y);
                data.set(index, h);
                index = index + 1;
            },
        }
    }
}

/// Fills a chunk of the world at `chunk_coord` from the heightmap of its column: air at and
/// above the terrain height, and below it materials that depend on the height, chosen at
/// random where the height leaves a choice. A chunk that lies wholly below height 12 is filled
/// with grass. Where the random number generator cannot be seeded, the chunk is left as it was
/// and the error is returned.
pub fn generate_chunk(
    data: &mut UnpackedChunkData,
    chunk_coord: &SignedCoord3D,
    heightmap: &Heightmap,
) -> (r: Result<(), GenerateError>)
    requires
        old(data).materials@.len() >= CHUNK_VOLUME,
        heightmap.heights().len() >= CHUNK_AREA,
        in_isize(chunk_coord.0 * 128),
        in_isize(chunk_coord.1 * 128),
        in_isize(chunk_coord.2 * 128),
        in_isize(chunk_coord.2 * 128 + 128),
    ensures
        chunk_coord.2 * 128 + 128 < 12 ==> r is Ok,
        r is Err ==> *final(data) == *old(data),
        final(data).materials@.len() == old(data).materials@.len(),
        final(data).scale == old(data).scale,
        forall|k: int|
            #![trigger final(data).materials@[k]]
            0 <= k < CHUNK_VOLUME && r is Ok ==> if chunk_coord.2 * 128 + 128 < 12 {
                final(data).materials@[k] == palette_spec(2)
            } else {
                generated_voxel(
                    final(data).materials@[k],
                    chunk_coord.2 * 128 + k / 16384,
                    heightmap.heights()[k % 16384] as int,
                )
            },
        forall|k: int|
            CHUNK_VOLUME <= k < old(data).materials@.len() ==> final(data).materials@[k] == old(
                data,
            ).materials@[k],
{
    let size = CHUNK_SIZE as isize;
    let origin = chunk_coord.scale(size);
    if origin.2 + size < 12 {
        data.fill(&palette(2));
        return Ok(());
    }
    let mut random = match seeded_rng() {
        Ok(rng) => rng,
        Err(_) => {
            return Err(GenerateError::RandomSource);
        },
    };
    let ghost old_materials = data.materials@;
    let ghost oz = origin.2 as int;
    let mut iter = coord_iter_2d(CHUNK_SIZE);
    let mut column: usize = 0;
    loop
        invariant_except_break
            iter.in_grid(),
            iter.size() == CHUNK_SIZE,
            iter.position() == column,
        invariant
            oz == chunk_coord.2 * 128,
            origin.2 == oz,
            in_isize(oz + 128),
            oz + 128 >= 12,
            column <= CHUNK_AREA,
            heightmap.heights().len() >= CHUNK_AREA,
            old_materials.len() >= CHUNK_VOLUME,
            data.materials@.len() == old_materials.len(),
            data.scale == old(data).scale,
            old_materials == old(data).materials@,
            forall|k: int|
                #![trigger data.materials@[k]]
                0 <= k < CHUNK_VOLUME && k % 16384 < column ==> generated_voxel(
                    data.materials@[k],
                    oz + k / 16384,
                    heightmap.heights()[k % 16384] as int,
                ),
            forall|k: int|
                #![trigger data.materials@[k]]
                0 <= k < old_materials.len() && !(k < CHUNK_VOLUME && k % 16384 < column)
                    ==> data.materials@[k] == old_materials[k],
        ensures
            column == CHUNK_AREA,
        decreases CHUNK_AREA - column,
    {
        proof {
            iter.lemma_next_in_order();
            let s = iter.size() as int;
            assert(s * s == CHUNK_AREA) by (nonlinear_arith)
                requires s == 128;
        }
        let next = iter.next();
        let coord2d = match next {
            None => {
                break;
            },
            Some(coord2d) => coord2d,
        };
        proof {
            vstd::arithmetic::div_mod::lemma_fundamental_div_mod_converse(
                column as int,
                128,
                coord2d.1 as int,
                coord2d.0 as int,
            );
        }
        let height_val = heightmap.get(&coord2d);
        let mut lz: usize = 0;
        while lz < CHUNK_SIZE
            invariant
                oz == chunk_coord.2 * 128,
                origin.2 == oz,
                in_isize(oz + 128),
                lz <= CHUNK_SIZE,
                column < CHUNK_AREA,
                column == index_2d(coord2d.0 as int, coord2d.1 as int, 128),
                coord2d.0 < 128 && coord2d.1 < 128,
                height_val == heightmap.heights()[column as int],
                heightmap.heights().len() >= CHUNK_AREA,
                data.materials@.len() == old_materials.len(),
                old_materials.len() >= CHUNK_VOLUME,
                data.scale == old(data).scale,
                forall|k: int|
                    #![trigger data.materials@[k]]
                    0 <= k < CHUNK_VOLUME && (k % 16384 < column || (k % 16384 == column && k
                        / 16384 < lz)) ==> generated_voxel(
                        data.materials@[k],
                        oz + k / 16384,
                        heightmap.heights()[k % 16384] as int,
                    ),
                forall|k: int|
                    #![trigger data.materials@[k]]
                    0 <= k < old_materials.len() && !(k < CHUNK_VOLUME && (k % 16384 < column || (
                    k % 16384 == column && k / 16384 < lz))) ==> data.materials@[k]
                        == old_materials[k],
            decreases CHUNK_SIZE - lz,
        {
            let ghost slot = index_3d_of(coord2d.0 as int, coord2d.1 as int, lz as int);
            proof {
                vstd::arithmetic::div_mod::lemma_fundamental_div_mod_converse(
                    slot,
                    16384,
                    lz as int,
                    column as int,
                );
            }
            let z = origin.2 + lz as isize;
            let ghost mut roll: u32 = 0;
            let value = if height_val < origin.2 || z >= height_val {
                Material::air()
            } else {
                let index = material(&mut random, z);
                proof {
                    roll = choose|r: u32| index == #[trigger] material_for_roll_spec(z as int, r);
                }
                palette(index)
            };
            data.set_block(&(coord2d.0, coord2d.1, lz), value);
            proof {
                if !(height_val < origin.2 || z >= height_val) {
                    assert(value == palette_spec(material_for_roll_spec(z as int, roll) as int));
                }
                assert forall|k: int|
                    #![trigger data.materials@[k]]
                    0 <= k < CHUNK_VOLUME && (k % 16384 < column || (k % 16384 == column && k
                        / 16384 < lz + 1)) implies generated_voxel(
                    data.materials@[k],
                    oz + k / 16384,
                    heightmap.heights()[k % 16384] as int,
                ) by {
                    if k != slot {
                        assert(!(k % 16384 == column && k / 16384 == lz)) by {
                            if k % 16384 == column && k / 16384 == lz {
                                vstd::arithmetic::div_mod::lemma_fundamental_div_mod(k, 16384);
                            }
                        }
                    }
                }
                assert forall|k: int|
                    #![trigger data.materials@[k]]
                    0 <= k < old_materials.len() && !(k < CHUNK_VOLUME && (k % 16384 < column || (k
                        % 16384 == column && k / 16384 < lz + 1))) implies data.materials@[k]
                    == old_materials[k] by {
                    if k == slot {
                        assert(k < CHUNK_VOLUME);
                    }
                }
            }
            lz = lz + 1;
        }
        column = column + 1;
    }
    Ok(())
}

/// The index of the voxel at `(x, y, z)` in a chunk.
spec fn index_3d_of(x: int, y: int, z: int) -> int {
    z * 16384 + y * 128 + x
}

} // verus!
