use vstd::prelude::*;
use crate::render::materials::Material;
use crate::util::coords::{offset_signed_coord_3d, scale_signed_coord_3d, in_isize};
use crate::util::coord_util::CoordConvertSigned;
use crate::util::iter::coord_iter_3d;
use crate::world::chunk::{PackedChunkData, UnpackedChunkData, CHUNK_VOLUME};

verus! {

/// Where a chunk is stored: its chunk coordinate and its LOD.
pub type ChunkStorageCoord = (isize, isize, isize, u8);

/// The bytes at the start of a chunk file that hold nothing yet.
pub const HEADER_SIZE: u64 = 16;

/// The bytes of the packed materials: a `u32` for each voxel.
pub const MATERIAL_SIZE: u64 = 8388608;

/// The bytes of the minefield: a `u8` for each voxel.
pub const MINEFIELD_SIZE: u64 = 2097152;

/// The bytes set aside for the unpacked materials: the in-memory size of a `Material` (14
/// bytes) for each voxel.
pub const UP_MATERIAL_SIZE: u64 = 29360128;

/// The bytes of one stored unpacked material.
pub const UNPACKED_MATERIAL_BYTES: usize = 13;

/// Byte `b` (0 is the lowest) of a little-endian `u32`.
pub open spec fn le_byte_u32(v: u32, b: int) -> u8 {
    ((v >> (8 * b) as u32) & 0xFFu32) as u8
}

/// Byte `b` (0 is the lowest) of a little-endian `u16`.
pub open spec fn le_byte_u16(v: u16, b: int) -> u8 {
    ((v >> (8 * b) as u16) & 0xFFu16) as u8
}

/// The `u32` stored little-endian in the four bytes from `at` on.
pub open spec fn le_u32_at(bytes: Seq<u8>, at: int) -> u32 {
    (bytes[at] as u32) | ((bytes[at + 1] as u32) << 8u32) | ((bytes[at + 2] as u32) << 16u32) | ((
    bytes[at + 3] as u32) << 24u32)
}

/// The `u16` stored little-endian in the two bytes from `at` on.
pub open spec fn le_u16_at(bytes: Seq<u8>, at: int) -> u16 {
    (bytes[at] as u16) | ((bytes[at + 1] as u16) << 8u16)
}

/// The stored form of packed chunk data: each material as four little-endian bytes, then the
/// minefield.
pub open spec fn packed_bytes(materials: Seq<u32>, minefield: Seq<u8>) -> Seq<u8> {
    Seq::new(
        (4 * materials.len() + minefield.len()) as nat,
        |i: int|
            if i < 4 * materials.len() {
                le_byte_u32(materials[i / 4], i % 4)
            } else {
                minefield[i - 4 * materials.len()]
            },
    )
}

/// Byte `b` of the stored form of a material: the three albedo channels and the three emission
/// channels as little-endian `u16`s, then 1 for a solid material and 0 otherwise.
pub open spec fn material_byte(m: Material, b: int) -> u8 {
    if b == 0 || b == 1 {
        le_byte_u16(m.albedo.0, b)
    } else if b == 2 || b == 3 {
        le_byte_u16(m.albedo.1, b - 2)
    } else if b == 4 || b == 5 {
        le_byte_u16(m.albedo.2, b - 4)
    } else if b == 6 || b == 7 {
        le_byte_u16(m.emission.0, b - 6)
    } else if b == 8 || b == 9 {
        le_byte_u16(m.emission.1, b - 8)
    } else if b == 10 || b == 11 {
        le_byte_u16(m.emission.2, b - 10)
    } else if m.solid {
        1
    } else {
        0
    }
}

/// The stored form of unpacked materials: thirteen bytes for each.
pub open spec fn unpacked_bytes(materials: Seq<Material>) -> Seq<u8> {
    Seq::new((13 * materials.len()) as nat, |i: int| material_byte(materials[i / 13], i % 13))
}

/// The material stored in the thirteen bytes from `at` on.
pub open spec fn material_at(bytes: Seq<u8>, at: int) -> Material {
    Material {
        albedo: (le_u16_at(bytes, at), le_u16_at(bytes, at + 2), le_u16_at(bytes, at + 4)),
        emission: (le_u16_at(bytes, at + 6), le_u16_at(bytes, at + 8), le_u16_at(bytes, at + 10)),
        solid: bytes[at + 12] > 0,
    }
}

/// Writes a `u32` as four little-endian bytes.
fn push_u32_le(out: &mut Vec<u8>, v: u32)
    ensures
        final(out)@ == old(out)@ + seq![le_byte_u32(v, 0), le_byte_u32(v, 1), le_byte_u32(v, 2), le_byte_u32(v, 3)],
{
    out.push((v & 0xFFu32) as u8);
    out.push(((v >> 8u32) & 0xFFu32) as u8);
    out.push(((v >> 16u32) & 0xFFu32) as u8);
    out.push(((v >> 24u32) & 0xFFu32) as u8);
    proof {
        assert(v >> 0u32 == v) by (bit_vector);
    }
}

/// Writes a `u16` as two little-endian bytes.
fn push_u16_le(out: &mut Vec<u8>, v: u16)
    ensures
        final(out)@ == old(out)@ + seq![le_byte_u16(v, 0), le_byte_u16(v, 1)],
{
    out.push((v & 0xFFu16) as u8);
    out.push(((v >> 8u16) & 0xFFu16) as u8);
    proof {
        assert(v >> 0u16 == v) by (bit_vector);
    }
}

/// The stored form of packed chunk data.
pub fn encode_packed_chunk(data: &PackedChunkData) -> (r: Vec<u8>)
    requires
        4 * data.materials@.len() + data.minefield@.len() <= usize::MAX,
    ensures
        r@ == packed_bytes(data.materials@, data.minefield@),
{
    let mut out: Vec<u8> = Vec::new();
    let mut i: usize = 0;
    while i < data.materials.len()
        invariant
            i <= data.materials@.len(),
            out@.len() == 4 * i,
            forall|j: int| 0 <= j < 4 * i ==> out@[j] == le_byte_u32(data.materials@[j / 4], j % 4),
        decreases data.materials@.len() - i,
    {
        let ghost before = out@;
        push_u32_le(&mut out, data.materials[i]);
        proof {
            assert forall|j: int| 0 <= j < 4 * (i + 1) implies out@[j] == le_byte_u32(
                data.materials@[j / 4],
                j % 4,
            ) by {
                if j >= 4 * i {
                    assert(j / 4 == i as int && j % 4 == j - 4 * i);
                }
            }
        }
        i = i + 1;
    }
    let mut k: usize = 0;
    while k < data.minefield.len()
        invariant
            k <= data.minefield@.len(),
            i == data.materials@.len(),
            out@.len() == 4 * i + k,
            forall|j: int| 0 <= j < 4 * i ==> out@[j] == le_byte_u32(data.materials@[j / 4], j % 4),
            forall|j: int| 0 <= j < k ==> out@[4 * i + j] == data.minefield@[j],
        decreases data.minefield@.len() - k,
    {
        out.push(data.minefield[k]);
        k = k + 1;
    }
    proof {
        assert(out@ =~= packed_bytes(data.materials@, data.minefield@)) by {
            assert forall|j: int| 4 * i <= j < out@.len() implies out@[j]
                == data.minefield@[j - 4 * i] by {
                assert(out@[4 * i + (j - 4 * i)] == data.minefield@[j - 4 * i]);
            }
        }
    }
    out
}

/// Reads packed chunk data back from its stored form: the materials of every voxel of a chunk,
/// then as many minefield bytes as the minefield holds.
pub fn decode_packed_chunk(bytes: &[u8], data: &mut PackedChunkData)
    requires
        old(data).materials@.len() >= CHUNK_VOLUME,
        bytes@.len() >= 4 * CHUNK_VOLUME + old(data).minefield@.len(),
    ensures
        final(data).materials@.len() == old(data).materials@.len(),
        forall|i: int|
            0 <= i < CHUNK_VOLUME ==> final(data).materials@[i] == le_u32_at(bytes@, 4 * i),
        forall|i: int|
            CHUNK_VOLUME <= i < old(data).materials@.len() ==> final(data).materials@[i] == old(
                data,
            ).materials@[i],
        final(data).minefield@ == bytes@.subrange(
            4 * CHUNK_VOLUME,
            4 * CHUNK_VOLUME + old(data).minefield@.len(),
        ),
{
    let mut index: usize = 0;
    while index < CHUNK_VOLUME
        invariant
            index <= CHUNK_VOLUME,
            bytes@.len() >= 4 * CHUNK_VOLUME + old(data).minefield@.len(),
            old(data).materials@.len() >= CHUNK_VOLUME,
            data.materials@.len() == old(data).materials@.len(),
            data.minefield@ == old(data).minefield@,
            forall|i: int| 0 <= i < index ==> data.materials@[i] == le_u32_at(bytes@, 4 * i),
            forall|i: int|
                index <= i < old(data).materials@.len() ==> data.materials@[i] == old(
                    data,
                ).materials@[i],
        decreases CHUNK_VOLUME - index,
    {
        let at = 4 * index;
        let v = (bytes[at] as u32) | ((bytes[at + 1] as u32) << 8u32) | ((bytes[at + 2] as u32)
            << 16u32) | ((bytes[at + 3] as u32) << 24u32);
        data.materials.set(index, v);
        index = index + 1;
    }
    let start = 4 * CHUNK_VOLUME;
    let mut k: usize = 0;
    let len = data.minefield.len();
    // Taking the length brings its bound (it fits in a usize) into the proof.
    let _bytes_len = bytes.len();
    let ghost materials = data.materials@;
    while k < len
        invariant
            data.materials@ == materials,
            bytes@.len() <= usize::MAX,
            k <= len,
            len == old(data).minefield@.len(),
            data.minefield@.len() == len,
            bytes@.len() >= 4 * CHUNK_VOLUME + len,
            start == 4 * CHUNK_VOLUME,
            forall|j: int| 0 <= j < k ==> data.minefield@[j] == bytes@[start + j],
        decreases len - k,
    {
        data.minefield.set(k, bytes[start + k]);
        k = k + 1;
    }
    proof {
        assert(data.minefield@ =~= bytes@.subrange(start as int, start + len));
    }
}

/// The stored form of the materials of unpacked chunk data.
pub fn encode_unpacked_chunk(data: &UnpackedChunkData) -> (r: Vec<u8>)
    requires
        13 * data.materials@.len() <= usize::MAX,
    ensures
        r@ == unpacked_bytes(data.materials@),
{
    let mut out: Vec<u8> = Vec::new();
    let mut i: usize = 0;
    while i < data.materials.len()
        invariant
            i <= data.materials@.len(),
            out@.len() == 13 * i,
            forall|j: int| 0 <= j < 13 * i ==> out@[j] == material_byte(data.materials@[j / 13], j % 13),
        decreases data.materials@.len() - i,
    {
        let material = data.materials[i];
        push_u16_le(&mut out, material.albedo.0);
        push_u16_le(&mut out, material.albedo.1);
        push_u16_le(&mut out, material.albedo.2);
        push_u16_le(&mut out, material.emission.0);
        push_u16_le(&mut out, material.emission.1);
        push_u16_le(&mut out, material.emission.2);
        out.push(if material.solid { 1 } else { 0 });
        proof {
            assert forall|j: int| 0 <= j < 13 * (i + 1) implies out@[j] == material_byte(
                data.materials@[j / 13],
                j % 13,
            ) by {
                if j >= 13 * i {
                    assert(j / 13 == i as int && j % 13 == j - 13 * i);
                }
            }
        }
        i = i + 1;
    }
    proof {
        assert(out@ =~= unpacked_bytes(data.materials@));
    }
    out
}

/// Reads the materials of every voxel of a chunk back from their stored form.
pub fn decode_unpacked_chunk(bytes: &[u8], data: &mut UnpackedChunkData)
    requires
        old(data).materials@.len() >= CHUNK_VOLUME,
        bytes@.len() >= 13 * CHUNK_VOLUME,
    ensures
        final(data).materials@.len() == old(data).materials@.len(),
        final(data).scale == old(data).scale,
        forall|i: int|
            0 <= i < CHUNK_VOLUME ==> final(data).materials@[i] == material_at(bytes@, 13 * i),
        forall|i: int|
            CHUNK_VOLUME <= i < old(data).materials@.len() ==> final(data).materials@[i] == old(
                data,
            ).materials@[i],
{
    let mut index: usize = 0;
    while index < CHUNK_VOLUME
        invariant
            index <= CHUNK_VOLUME,
            bytes@.len() >= 13 * CHUNK_VOLUME,
            old(data).materials@.len() >= CHUNK_VOLUME,
            data.materials@.len() == old(data).materials@.len(),
            data.scale == old(data).scale,
            forall|i: int| 0 <= i < index ==> data.materials@[i] == material_at(bytes@, 13 * i),
            forall|i: int|
                index <= i < old(data).materials@.len() ==> data.materials@[i] == old(
                    data,
                ).materials@[i],
        decreases CHUNK_VOLUME - index,
    {
        let at = 13 * index;
        let material = Material {
            albedo: (read_u16_le(bytes, at), read_u16_le(bytes, at + 2), read_u16_le(bytes, at + 4)),
            emission: (
                read_u16_le(bytes, at + 6),
                read_u16_le(bytes, at + 8),
                read_u16_le(bytes, at + 10),
            ),
            solid: bytes[at + 12] > 0,
        };
        data.materials.set(index, material);
        index = index + 1;
    }
}

fn read_u16_le(bytes: &[u8], at: usize) -> (r: u16)
    requires
        at + 1 < bytes@.len(),
    ensures
        r == le_u16_at(bytes@, at as int),
{
    (bytes[at] as u16) | ((bytes[at + 1] as u16) << 8u16)
}

/// Law: reading back the stored form of packed chunk data gives the materials and the
/// minefield that were stored.
pub proof fn lemma_packed_round_trip(materials: Seq<u32>, minefield: Seq<u8>)
    requires
        materials.len() == CHUNK_VOLUME,
    ensures
        forall|i: int|
            0 <= i < CHUNK_VOLUME ==> #[trigger] le_u32_at(packed_bytes(materials, minefield), 4 * i)
                == materials[i],
        packed_bytes(materials, minefield).subrange(
            4 * CHUNK_VOLUME,
            4 * CHUNK_VOLUME + minefield.len(),
        ) == minefield,
{
    let b = packed_bytes(materials, minefield);
    assert forall|i: int| 0 <= i < CHUNK_VOLUME implies #[trigger] le_u32_at(b, 4 * i)
        == materials[i] by {
        let v = materials[i];
        assert((4 * i) / 4 == i && (4 * i + 1) / 4 == i && (4 * i + 2) / 4 == i && (4 * i + 3) / 4
            == i);
        assert((4 * i) % 4 == 0 && (4 * i + 1) % 4 == 1 && (4 * i + 2) % 4 == 2 && (4 * i + 3) % 4
            == 3);
        lemma_u32_bytes(v);
    }
    assert(b.subrange(4 * CHUNK_VOLUME, 4 * CHUNK_VOLUME + minefield.len()) =~= minefield);
}

proof fn lemma_u32_bytes(v: u32)
    ensures
        (le_byte_u32(v, 0) as u32) | ((le_byte_u32(v, 1) as u32) << 8u32) | ((le_byte_u32(v, 2) as u32)
            << 16u32) | ((le_byte_u32(v, 3) as u32) << 24u32) == v,
{
    let (b0, b1, b2, b3) = (le_byte_u32(v, 0), le_byte_u32(v, 1), le_byte_u32(v, 2), le_byte_u32(v, 3));
    assert(b0 == (v & 0xFFu32) as u8 && b1 == ((v >> 8u32) & 0xFFu32) as u8 && b2 == ((v >> 16u32)
        & 0xFFu32) as u8 && b3 == ((v >> 24u32) & 0xFFu32) as u8) by {
        assert(v >> 0u32 == v) by (bit_vector);
    }
    assert((b0 as u32) | ((b1 as u32) << 8u32) | ((b2 as u32) << 16u32) | ((b3 as u32) << 24u32)
        == v) by (bit_vector)
        requires
            b0 == (v & 0xFFu32) as u8,
            b1 == ((v >> 8u32) & 0xFFu32) as u8,
            b2 == ((v >> 16u32) & 0xFFu32) as u8,
            b3 == ((v >> 24u32) & 0xFFu32) as u8;
}

proof fn lemma_u16_bytes(v: u16)
    ensures
        (le_byte_u16(v, 0) as u16) | ((le_byte_u16(v, 1) as u16) << 8u16) == v,
{
    let (b0, b1) = (le_byte_u16(v, 0), le_byte_u16(v, 1));
    assert(b0 == (v & 0xFFu16) as u8 && b1 == ((v >> 8u16) & 0xFFu16) as u8) by {
        assert(v >> 0u16 == v) by (bit_vector);
    }
    assert((b0 as u16) | ((b1 as u16) << 8u16) == v) by (bit_vector)
        requires
            b0 == (v & 0xFFu16) as u8,
            b1 == ((v >> 8u16) & 0xFFu16) as u8;
}

/// Law: reading back the stored form of unpacked materials gives the materials that were
/// stored.
pub proof fn lemma_unpacked_round_trip(materials: Seq<Material>)
    ensures
        forall|i: int|
            0 <= i < materials.len() ==> #[trigger] material_at(unpacked_bytes(materials), 13 * i)
                == materials[i],
{
    let b = unpacked_bytes(materials);
    assert forall|i: int| 0 <= i < materials.len() implies #[trigger] material_at(b, 13 * i)
        == materials[i] by {
        let m = materials[i];
        assert forall|c: int| 0 <= c < 13 implies (#[trigger] (13 * i + c)) / 13 == i && (13 * i + c)
            % 13 == c by {
            vstd::arithmetic::div_mod::lemma_fundamental_div_mod_converse(13 * i + c, 13, i, c);
        }
        lemma_u16_bytes(m.albedo.0);
        lemma_u16_bytes(m.albedo.1);
        lemma_u16_bytes(m.albedo.2);
        lemma_u16_bytes(m.emission.0);
        lemma_u16_bytes(m.emission.1);
        lemma_u16_bytes(m.emission.2);
        assert forall|c: int| 0 <= c < 13 implies #[trigger] b[13 * i + c] == material_byte(m, c)
            by {
            assert((13 * i + c) / 13 == i && (13 * i + c) % 13 == c);
        }
    }
}

/// The chunks of the next finer LOD that make up the chunk at `coord`, the X offset changing
/// fastest.
pub open spec fn child_chunk_coord(coord: ChunkStorageCoord, k: int) -> ChunkStorageCoord {
    (
        (coord.0 * 2 + k % 2) as isize,
        (coord.1 * 2 + (k / 2) % 2) as isize,
        (coord.2 * 2 + k / 4) as isize,
        (coord.3 - 1) as u8,
    )
}

/// The eight chunks of the next finer LOD that make up the chunk at `coord`.
pub fn child_chunk_coords(coord: &ChunkStorageCoord) -> (r: Vec<ChunkStorageCoord>)
    requires
        coord.3 >= 1,
        in_isize(coord.0 * 2 + 1),
        in_isize(coord.1 * 2 + 1),
        in_isize(coord.2 * 2 + 1),
        in_isize(coord.0 * 2),
        in_isize(coord.1 * 2),
        in_isize(coord.2 * 2),
    ensures
        r@.len() == 8,
        forall|k: int| 0 <= k < 8 ==> r@[k] == child_chunk_coord(*coord, k),
{
    let mut neighborhood: Vec<ChunkStorageCoord> = Vec::new();
    let next_lod_coord = scale_signed_coord_3d(&(coord.0, coord.1, coord.2), 2);
    let next_lod = coord.3 - 1;
    let mut iter = coord_iter_3d(2);
    let ghost mut k: int = 0;
    loop
        invariant_except_break
            iter.in_grid(),
            iter.size() == 2,
            iter.position() == k,
        invariant
            0 <= k <= 8,
            next_lod_coord.0 == coord.0 * 2,
            next_lod_coord.1 == coord.1 * 2,
            next_lod_coord.2 == coord.2 * 2,
            next_lod == coord.3 - 1,
            in_isize(coord.0 * 2 + 1),
            in_isize(coord.1 * 2 + 1),
            in_isize(coord.2 * 2 + 1),
            neighborhood@.len() == k,
            forall|j: int| 0 <= j < k ==> neighborhood@[j] == child_chunk_coord(*coord, j),
        ensures
            k == 8,
        decreases 8 - k,
    {
        proof {
            iter.lemma_next_in_order();
            let s = iter.size() as int;
            assert(s * s * s == 8) by (nonlinear_arith)
                requires s == 2;
        }
        let next = iter.next();
        match next {
            None => {
                break;
            },
            Some(offset) => {
                proof {
                    crate::util::coords::lemma_index_3d_split(
                        offset.0 as int,
                        offset.1 as int,
                        offset.2 as int,
                        2,
                        2,
                    );
                }
                let c = offset_signed_coord_3d(&next_lod_coord, &offset.signed());
                neighborhood.push((c.0, c.1, c.2, next_lod));
                proof {
                    k = k + 1;
                }
            },
        }
    }
    neighborhood
}

/// The ASCII code of an upper-case hexadecimal digit.
pub open spec fn hex_digit(d: int) -> u8 {
    if d < 10 {
        (48 + d) as u8
    } else {
        (55 + d) as u8
    }
}

/// The upper-case hexadecimal digits of `n`, most significant first, without leading zeros.
pub open spec fn hex_digits(n: nat) -> Seq<u8>
    decreases n,
{
    if n < 16 {
        seq![hex_digit(n as int)]
    } else {
        hex_digits(n / 16).push(hex_digit((n % 16) as int))
    }
}

/// The digits of `n`, with zeros in front up to `width` digits.
pub open spec fn padded_hex(n: nat, width: nat) -> Seq<u8> {
    let d = hex_digits(n);
    if d.len() < width {
        Seq::new((width - d.len()) as nat, |i: int| 48u8) + d
    } else {
        d
    }
}

/// The name of the file of a chunk: its three coordinates in hexadecimal, padded to at least
/// eight digits each (a negative one is written as its two's complement, which takes as many
/// digits as a `usize` has), then its LOD padded to at least two digits.
pub open spec fn chunk_file_name_spec(coord: ChunkStorageCoord) -> Seq<u8> {
    padded_hex(coord.0 as usize as nat, 8) + padded_hex(coord.1 as usize as nat, 8) + padded_hex(
        coord.2 as usize as nat,
        8,
    ) + padded_hex(coord.3 as nat, 2)
}

fn push_hex_digits(out: &mut Vec<u8>, n: usize)
    ensures
        final(out)@ == old(out)@ + hex_digits(n as nat),
    decreases n,
{
    if n >= 16 {
        push_hex_digits(out, n / 16);
    }
    let d = n % 16;
    let c: u8 = if d < 10 { 48 + d as u8 } else { 55 + d as u8 };
    out.push(c);
    proof {
        if n < 16 {
            assert(n % 16 == n);
        }
    }
}

fn hex_len(n: usize) -> (r: usize)
    ensures
        r == hex_digits(n as nat).len(),
        r <= 16,
    decreases n,
{
    if n < 16 {
        1
    } else {
        proof {
            lemma_hex_len_bound(n as nat);
        }
        hex_len(n / 16) + 1
    }
}

spec fn pow16(k: nat) -> nat
    decreases k,
{
    if k == 0 {
        1
    } else {
        16 * pow16((k - 1) as nat)
    }
}

proof fn lemma_hex_len_pow(n: nat, k: nat)
    requires
        k >= 1,
        n < pow16(k),
    ensures
        hex_digits(n).len() <= k,
    decreases k,
{
    if n >= 16 {
        assert(n / 16 < pow16((k - 1) as nat));
        if k == 1 {
            assert(false);
        }
        lemma_hex_len_pow(n / 16, (k - 1) as nat);
    }
}

proof fn lemma_hex_len_bound(n: nat)
    requires
        n <= u64::MAX,
    ensures
        hex_digits(n).len() <= 16,
{
    reveal_with_fuel(pow16, 17);
    assert(pow16(16) == 0x1_0000_0000_0000_0000);
    lemma_hex_len_pow(n, 16);
}

fn push_padded_hex(out: &mut Vec<u8>, n: usize, width: usize)
    ensures
        final(out)@ == old(out)@ + padded_hex(n as nat, width as nat),
{
    let len = hex_len(n);
    let mut i = len;
    let ghost start = out@;
    while i < width
        invariant
            len <= i <= width || (len > width && i == len),
            len == hex_digits(n as nat).len(),
            out@ == start + Seq::new((i - len) as nat, |j: int| 48u8),
        decreases width - i,
    {
        out.push(48);
        i = i + 1;
        proof {
            assert(out@ =~= start + Seq::new((i - len) as nat, |j: int| 48u8));
        }
    }
    let ghost zeros = out@;
    push_hex_digits(out, n);
    proof {
        if len < width {
            assert(out@ =~= start + padded_hex(n as nat, width as nat));
        } else {
            assert(zeros =~= start);
            assert(out@ =~= start + padded_hex(n as nat, width as nat));
        }
    }
}

/// The name of the file that holds a chunk, in ASCII.
pub fn chunk_file_name(coord: &ChunkStorageCoord) -> (r: Vec<u8>)
    ensures
        r@ == chunk_file_name_spec(*coord),
{
    let mut out: Vec<u8> = Vec::new();
    push_padded_hex(&mut out, coord.0 as usize, 8);
    push_padded_hex(&mut out, coord.1 as usize, 8);
    push_padded_hex(&mut out, coord.2 as usize, 8);
    push_padded_hex(&mut out, coord.3 as usize, 2);
    proof {
        assert(out@ =~= chunk_file_name_spec(*coord));
    }
    out
}

} // verus!
