use vstd::prelude::*;

verus! {

/// The push constant of the denoise pass: how far apart the samples it mixes lie.
#[derive(Clone, Copy, Debug)]
pub struct DenoisePushData {
    pub size: i32,
}

/// The sample distances of the denoise passes, one pass after the other.
pub open spec fn denoise_sizes_spec() -> Seq<i32> {
    seq![1i32, 2i32, 4i32, 8i32, 8i32, 16i32]
}

/// The denoise passes in order: the push data of each, and which of the two descriptor set
/// variants it reads from (they alternate, so each pass reads what the last one wrote).
pub fn denoise_passes() -> (r: Vec<(DenoisePushData, usize)>)
    ensures
        r@.len() == 6,
        forall|i: int| 0 <= i < 6 ==> r@[i].0.size == denoise_sizes_spec()[i] && r@[i].1 == i % 2,
{
    let sizes: [i32; 6] = [1, 2, 4, 8, 8, 16];
    let mut r: Vec<(DenoisePushData, usize)> = Vec::new();
    let mut index: usize = 0;
    while index < 6
        invariant
            index <= 6,
            sizes@ == denoise_sizes_spec(),
            r@.len() == index,
            forall|i: int| 0 <= i < index ==> r@[i].0.size == denoise_sizes_spec()[i] && r@[i].1 == i % 2,
        decreases 6 - index,
    {
        r.push((DenoisePushData { size: sizes[index] }, index % 2));
        index = index + 1;
    }
    r
}

/// How many values the blue noise texture holds (512 by 512 texels of 4 channels).
pub const BLUE_NOISE_SIZE: u32 = 1048576;

/// The blue-noise seed of the next frame: one on, wrapped at the size of the texture so that it
/// never overflows.
pub fn next_seed(seed: u32) -> (r: u32)
    requires
        seed < u32::MAX,
    ensures
        r == (seed + 1) % (BLUE_NOISE_SIZE as int),
{
    (seed + 1) % BLUE_NOISE_SIZE
}

} // verus!
