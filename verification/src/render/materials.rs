use vstd::prelude::*;

verus! {

/// The surface of one voxel: its colour, the light it gives off, and whether it is solid.
#[derive(Clone, Copy, Debug, PartialEq, Eq)]
pub struct Material {
    pub albedo: (u16, u16, u16),
    pub emission: (u16, u16, u16),
    pub solid: bool,
}

/// The 32-bit form of a material: the three albedo channels as 7-bit fields at bits 14, 7 and 0,
/// with the solid flag or-ed in at bit 15. Emission is not kept.
pub open spec fn packed(m: Material) -> u32 {
    let albedo = ((m.albedo.0 as u32) << 14u32) | ((m.albedo.1 as u32) << 7u32) | (m.albedo.2 as u32);
    ((if m.solid { 1u32 } else { 0u32 }) << 15u32) | albedo
}

/// The material read back from its 32-bit form.
pub open spec fn unpacked(p: u32) -> Material {
    Material {
        albedo: (((p >> 14u32) & 0x7Fu32) as u16, ((p >> 7u32) & 0x7Fu32) as u16, (p & 0x7Fu32) as u16),
        emission: (0, 0, 0),
        solid: (p >> 15u32) & 1u32 != 0,
    }
}

/// The materials the world is built from, by number.
pub open spec fn palette_spec(index: int) -> Material {
    if index == 0 {
        Material { albedo: (0, 0, 0), emission: (0, 0, 0), solid: false }
    } else if index == 1 {
        Material { albedo: (127, 0, 127), emission: (0, 0, 0), solid: true }
    } else if index == 2 {
        Material { albedo: (39, 110, 61), emission: (0, 0, 0), solid: true }
    } else if index == 3 {
        Material { albedo: (51, 38, 25), emission: (320, 154, 76), solid: true }
    } else if index == 4 {
        Material { albedo: (51, 51, 51), emission: (0, 0, 0), solid: true }
    } else if index == 5 {
        Material { albedo: (62, 27, 22), emission: (0, 0, 0), solid: true }
    } else {
        Material { albedo: (110, 116, 115), emission: (0, 0, 0), solid: true }
    }
}

/// The number of materials in the palette.
pub const NUM_MATERIALS: usize = 7;

/// The material with the given number in the palette.
pub fn palette(index: usize) -> (r: Material)
    requires
        index < NUM_MATERIALS,
    ensures
        r == palette_spec(index as int),
{
    if index == 0 {
        Material { albedo: (0, 0, 0), emission: (0, 0, 0), solid: false }
    } else if index == 1 {
        Material { albedo: (127, 0, 127), emission: (0, 0, 0), solid: true }
    } else if index == 2 {
        Material { albedo: (39, 110, 61), emission: (0, 0, 0), solid: true }
    } else if index == 3 {
        Material { albedo: (51, 38, 25), emission: (320, 154, 76), solid: true }
    } else if index == 4 {
        Material { albedo: (51, 51, 51), emission: (0, 0, 0), solid: true }
    } else if index == 5 {
        Material { albedo: (62, 27, 22), emission: (0, 0, 0), solid: true }
    } else {
        Material { albedo: (110, 116, 115), emission: (0, 0, 0), solid: true }
    }
}

impl Material {
    /// Empty space: black, dark and not solid.
    pub open spec fn air_spec() -> Material {
        Material { albedo: (0, 0, 0), emission: (0, 0, 0), solid: false }
    }

    pub fn air() -> (r: Self)
        ensures
            r == Self::air_spec(),
    {
        Self { albedo: (0, 0, 0), emission: (0, 0, 0), solid: false }
    }

    pub fn black() -> (r: Self)
        ensures
            r == (Material { albedo: (0, 0, 0), emission: (0, 0, 0), solid: true }),
    {
        Self { albedo: (0, 0, 0), emission: (0, 0, 0), solid: true }
    }

    /// Adds the albedo and emission of `other`, channel by channel.
    pub fn add(&mut self, other: &Self)
        requires
            old(self).albedo.0 + other.albedo.0 <= u16::MAX,
            old(self).albedo.1 + other.albedo.1 <= u16::MAX,
            old(self).albedo.2 + other.albedo.2 <= u16::MAX,
            old(self).emission.0 + other.emission.0 <= u16::MAX,
            old(self).emission.1 + other.emission.1 <= u16::MAX,
            old(self).emission.2 + other.emission.2 <= u16::MAX,
        ensures
            final(self).albedo.0 == old(self).albedo.0 + other.albedo.0,
            final(self).albedo.1 == old(self).albedo.1 + other.albedo.1,
            final(self).albedo.2 == old(self).albedo.2 + other.albedo.2,
            final(self).emission.0 == old(self).emission.0 + other.emission.0,
            final(self).emission.1 == old(self).emission.1 + other.emission.1,
            final(self).emission.2 == old(self).emission.2 + other.emission.2,
            final(self).solid == old(self).solid,
    {
        self.albedo.0 = self.albedo.0 + other.albedo.0;
        self.albedo.1 = self.albedo.1 + other.albedo.1;
        self.albedo.2 = self.albedo.2 + other.albedo.2;
        self.emission.0 = self.emission.0 + other.emission.0;
        self.emission.1 = self.emission.1 + other.emission.1;
        self.emission.2 = self.emission.2 + other.emission.2;
    }

    /// Divides the albedo and emission by `factor`, channel by channel, rounding down.
    pub fn divide(&mut self, factor: u16)
        requires
            factor > 0,
        ensures
            final(self).albedo.0 == old(self).albedo.0 / factor,
            final(self).albedo.1 == old(self).albedo.1 / factor,
            final(self).albedo.2 == old(self).albedo.2 / factor,
            final(self).emission.0 == old(self).emission.0 / factor,
            final(self).emission.1 == old(self).emission.1 / factor,
            final(self).emission.2 == old(self).emission.2 / factor,
            final(self).solid == old(self).solid,
    {
        self.albedo.0 = self.albedo.0 / factor;
        self.albedo.1 = self.albedo.1 / factor;
        self.albedo.2 = self.albedo.2 / factor;
        self.emission.0 = self.emission.0 / factor;
        self.emission.1 = self.emission.1 / factor;
        self.emission.2 = self.emission.2 / factor;
    }

    pub fn pack(&self) -> (r: u32)
        ensures
            r == packed(*self),
    {
        let ar = self.albedo.0 as u32;
        let ag = self.albedo.1 as u32;
        let ab = self.albedo.2 as u32;
        let albedo = ar << 14u32 | ag << 7u32 | ab;
        let solid: u32 = if self.solid { 1 } else { 0 };
        (solid << 15u32) | albedo
    }

    pub fn unpack(packed: u32) -> (r: Self)
        ensures
            r == unpacked(packed),
    {
        assert(packed >> 0u32 == packed) by (bit_vector);
        let albedo = (
            (packed >> 14u32 & 0x7Fu32) as u16,
            (packed >> 7u32 & 0x7Fu32) as u16,
            (packed >> 0u32 & 0x7Fu32) as u16,
        );
        let emission = (0, 0, 0);
        let solid = packed >> 15u32 & 0b1u32 != 0;
        Self { albedo, emission, solid }
    }
}

/// Law: unpacking a packed material gives it back when its albedo channels fit in seven bits,
/// it gives off no light, and its solid flag agrees with the second bit of its red channel
/// (the packed form keeps the solid flag in the same bit as that one).
pub proof fn lemma_unpack_pack(m: Material)
    requires
        m.albedo.0 < 128,
        m.albedo.1 < 128,
        m.albedo.2 < 128,
        m.emission == (0u16, 0u16, 0u16),
        m.solid == (m.albedo.0 & 2 != 0),
    ensures
        unpacked(packed(m)) == m,
{
    let (a, b, c) = m.albedo;
    let s: u32 = if m.solid { 1 } else { 0 };
    let (a32, b32, c32) = (a as u32, b as u32, c as u32);
    assert(a32 < 128 && b32 < 128 && c32 < 128);
    let p = (s << 15u32) | ((a32 << 14u32) | (b32 << 7u32) | c32);
    assert(s == 1 <==> (a32 & 2 != 0)) by (bit_vector)
        requires s == 1 <==> (a & 2 != 0), a32 == a as u32, s <= 1;
    assert(((p >> 14u32) & 0x7Fu32) == a32 && ((p >> 7u32) & 0x7Fu32) == b32 && (p & 0x7Fu32) == c32
        && (((p >> 15u32) & 1u32 != 0) == (s == 1))) by (bit_vector)
        requires
            a32 < 128,
            b32 < 128,
            c32 < 128,
            s <= 1,
            s == 1 <==> (a32 & 2 != 0),
            p == (s << 15u32) | ((a32 << 14u32) | (b32 << 7u32) | c32);
}

/// Law: packing an unpacked value keeps exactly the low 21 bits of it.
pub proof fn lemma_pack_unpack(p: u32)
    ensures
        packed(unpacked(p)) == p & 0x1F_FFFFu32,
{
    let m = unpacked(p);
    let a = (p >> 14u32) & 0x7Fu32;
    let b = (p >> 7u32) & 0x7Fu32;
    let c = p & 0x7Fu32;
    let s: u32 = if (p >> 15u32) & 1u32 != 0 { 1 } else { 0 };
    assert(a < 128 && b < 128 && c < 128) by (bit_vector)
        requires a == (p >> 14u32) & 0x7Fu32, b == (p >> 7u32) & 0x7Fu32, c == p & 0x7Fu32;
    assert(m.albedo.0 as u32 == a && m.albedo.1 as u32 == b && m.albedo.2 as u32 == c);
    assert((s << 15u32) | ((a << 14u32) | (b << 7u32) | c) == p & 0x1F_FFFFu32) by (bit_vector)
        requires
            a == (p >> 14u32) & 0x7Fu32,
            b == (p >> 7u32) & 0x7Fu32,
            c == p & 0x7Fu32,
            s == (if (p >> 15u32) & 1u32 != 0 { 1u32 } else { 0u32 });
}

} // verus!
