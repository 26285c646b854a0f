use rand::RngCore;
use raytrace::util::coords::Coord3D;
use raytrace::util::{
    coord_iter_2d, coord_iter_3d, coord_to_index_2d, coord_to_index_3d, coord_to_signed_coord,
    copy_3d, copy_3d_auto_clip, copy_3d_bounded_auto_clip, fill_slice_3d, fill_slice_3d_auto_clip,
    index_to_coord_2d, index_to_coord_3d, index_to_signed_coord_2d, offset_coord_3d,
    offset_signed_coord_3d, scale_coord_2d, scale_coord_3d, scale_signed_coord_2d,
    scale_signed_coord_3d, shrink_coord_3d, shrink_signed_coord_3d, signed_coord_to_index_2d, Axis,
    CoordConvertSigned, CoordRepeat, CoordUtil, RingBufferAverage,
};

fn random_vec(len: usize) -> Vec<u32> {
    let mut rng = rand::thread_rng();
    let mut v = Vec::with_capacity(len);
    for _ in 0..len {
        v.push(rng.next_u32());
    }
    v
}

#[test]
fn test_copy_3d() {
    let source_dims = (4, 4, 6);
    let source = random_vec(96);
    let mut target = vec![0; 125];
    copy_3d(
        (2, 2, 2),
        &source,
        source_dims,
        (1, 2, 2),
        &mut target[..],
        (5, 5, 5),
        (3, 2, 1),
    );
    assert!(source[(1usize, 2usize, 2usize).to_index(source_dims)] == target[(3usize, 2usize, 1usize).to_index((5, 5, 5))]);
    assert!(source[(1usize, 2usize, 3usize).to_index(source_dims)] == target[(3usize, 2usize, 2usize).to_index((5, 5, 5))]);
}

#[test]
fn test_copy_3d_auto_clip() {
    let source = random_vec(64);
    let mut target = vec![0; 64];
    copy_3d_auto_clip(&source, 4, (3, 2, 2), &mut target[..], 4);
    assert!(source[coord_to_index_3d(&(0, 0, 0), 4)] == target[coord_to_index_3d(&(3, 2, 2), 4)]);
    assert!(source[coord_to_index_3d(&(0, 0, 1), 4)] == target[coord_to_index_3d(&(3, 2, 3), 4)]);
}

#[test]
fn test_copy_3d_bounded_auto_clip() {
    let source = random_vec(64);
    let mut target = vec![0; 64];
    copy_3d_bounded_auto_clip(
        (1, 1, 2),
        &source,
        (4, 4, 4),
        (0, 0, 0),
        &mut target[..],
        (4, 4, 4),
        (3, 2, 2),
    );
    assert!(source[coord_to_index_3d(&(0, 0, 0), 4)] == target[coord_to_index_3d(&(3, 2, 2), 4)]);
    assert!(source[coord_to_index_3d(&(0, 0, 1), 4)] == target[coord_to_index_3d(&(3, 2, 3), 4)]);
    assert!(target[coord_to_index_3d(&(3, 3, 2), 4)] == 0);
}

#[test]
fn copy_3d_copies_exactly_the_box() {
    let source: Vec<u32> = (0..27).map(|i| i + 100).collect();
    let mut target = vec![0u32; 64];
    copy_3d((2, 1, 2), &source, (3, 3, 3), (1, 1, 0), &mut target[..], (4, 4, 4), (0, 3, 2));
    let mut expected = vec![0u32; 64];
    for z in 0..2 {
        for x in 0..2 {
            expected[((2 + z) * 4 + 3) * 4 + x] = source[((0 + z) * 3 + 1) * 3 + 1 + x];
        }
    }
    assert_eq!(target, expected);
}

#[test]
fn copy_3d_of_empty_box_changes_nothing() {
    let source: Vec<u32> = (0..8).collect();
    let mut target = vec![7u32; 8];
    copy_3d((0, 2, 2), &source, (2, 2, 2), (0, 0, 0), &mut target[..], (2, 2, 2), (2, 0, 0));
    assert_eq!(target, vec![7u32; 8]);
}

#[test]
fn copy_3d_auto_clip_negative_offset() {
    let source: Vec<u32> = (1..=8).collect();
    let mut target = vec![0u32; 8];
    // The source lies one cell before the target on X, so its second column lands first.
    copy_3d_auto_clip(&source, 2, (-1, 0, 0), &mut target[..], 2);
    assert_eq!(target, vec![2, 0, 4, 0, 6, 0, 8, 0]);
}

#[test]
fn copy_3d_auto_clip_outside_copies_nothing() {
    let source: Vec<u32> = (1..=8).collect();
    let mut target = vec![9u32; 8];
    copy_3d_auto_clip(&source, 2, (2, 2, 2), &mut target[..], 2);
    assert_eq!(target, vec![9u32; 8]);
}

#[test]
fn copy_3d_bounded_auto_clip_negative_target() {
    let source: Vec<u32> = (0..64).collect();
    let mut target = vec![0u32; 64];
    copy_3d_bounded_auto_clip(
        (4, 1, 1),
        &source,
        (4, 4, 4),
        (0, 0, 0),
        &mut target[..],
        (4, 4, 4),
        (-2, 0, 0),
    );
    // The cells two and three of the source row land at zero and one.
    assert_eq!(&target[0..4], &[2, 3, 0, 0]);
    assert!(target[4..].iter().all(|v| *v == 0));
}

#[test]
fn copy_3d_bounded_auto_clip_past_the_end_copies_nothing() {
    let source: Vec<u32> = (0..8).collect();
    let mut target = vec![5u32; 8];
    copy_3d_bounded_auto_clip((2, 2, 2), &source, (2, 2, 2), (0, 0, 0), &mut target[..], (2, 2, 2), (0, 2, 0));
    assert_eq!(target, vec![5u32; 8]);
    copy_3d_bounded_auto_clip((2, 2, 2), &source, (2, 2, 2), (0, 0, 0), &mut target[..], (2, 2, 2), (-2, 0, 0));
    assert_eq!(target, vec![5u32; 8]);
}

#[test]
fn fill_slice_3d_fills_the_box() {
    let mut target = vec![0u8; 27];
    fill_slice_3d(1u8, &mut target[..], 3, (1, 0, 2), (2, 3, 1));
    for i in 0..27 {
        let (x, y, z) = (i % 3, i / 3 % 3, i / 9);
        let inside = x >= 1 && z == 2 && y < 3;
        assert_eq!(target[i], if inside { 1 } else { 0 }, "cell {}", i);
    }
}

#[test]
fn fill_slice_3d_auto_clip_clips() {
    let mut target = vec![0u8; 8];
    fill_slice_3d_auto_clip(3u8, &mut target[..], 2, (-1, 1, 0), (5, 5, 1));
    assert_eq!(target, vec![0, 0, 3, 3, 0, 0, 0, 0]);
}

#[test]
fn index_coord_round_trip() {
    assert_eq!(index_to_coord_3d(coord_to_index_3d(&(3, 1, 2), 4), 4), (3, 1, 2));
    assert_eq!(coord_to_index_3d(&(3, 1, 2), 4), 39);
    assert_eq!(coord_to_index_3d(&index_to_coord_3d(57, 4), 4), 57);
    assert_eq!(index_to_coord_2d(coord_to_index_2d(&(2, 3), 5), 5), (2, 3));
    assert_eq!(coord_to_index_2d(&(2, 3), 5), 17);
}

#[test]
fn signed_coordinates_truncate() {
    assert_eq!(index_to_signed_coord_2d(-7, 2), (-1, -3 % 2));
    assert_eq!(index_to_signed_coord_2d(7, -2), (1, (7 / -2) % -2));
    assert_eq!(index_to_signed_coord_2d(13, 4), (1, 3));
    assert_eq!(signed_coord_to_index_2d(&(-1, 2), 4), 7);
    assert_eq!(shrink_signed_coord_3d(&(-7, 7, -1), 2), (-3, 3, 0));
    assert_eq!(shrink_signed_coord_3d(&(-7, 7, -1), -2), (3, -3, 0));
}

#[test]
fn coordinate_arithmetic() {
    assert_eq!(scale_coord_2d(&(2, 3), 4), (8, 12));
    assert_eq!(scale_signed_coord_2d(&(-2, 3), 4), (-8, 12));
    assert_eq!(offset_coord_3d(&(1, 2, 3), &(4, 5, 6)), (5, 7, 9));
    assert_eq!(scale_coord_3d(&(1, 2, 3), 3), (3, 6, 9));
    assert_eq!(shrink_coord_3d(&(7, 8, 9), 2), (3, 4, 4));
    assert_eq!(offset_signed_coord_3d(&(1, -2, 3), &(-4, 5, -6)), (-3, 3, -3));
    assert_eq!(scale_signed_coord_3d(&(1, -2, 3), -3), (-3, 6, -9));
    assert_eq!(coord_to_signed_coord(&(1, 2, 3)), (1, 2, 3));
}

#[test]
fn coord_util_element_wise() {
    let a: Coord3D = (1, 5, 3);
    let b: Coord3D = (4, 2, 3);
    assert_eq!(a.add(b), (5, 7, 6));
    assert_eq!(b.sub((1, 1, 1)), (3, 1, 2));
    assert_eq!(a.scale(2), (2, 10, 6));
    assert_eq!(a.shrink(2), (0, 2, 1));
    assert_eq!(a.wrap((2, 3, 2)), (1, 2, 1));
    assert_eq!(a.ewmin(b), (1, 2, 3));
    assert_eq!(a.ewmax(b), (4, 5, 3));
    assert!(!a.inside(b));
    assert!((1usize, 2usize, 3usize).inside(b));
    assert_eq!((1usize, 2usize, 3usize).to_index((4, 5, 6)), (3 * 5 + 2) * 4 + 1);
    assert_eq!((1usize, 2usize).to_index((4, 5)), 9);
    assert_eq!((-7isize, 7isize, -1isize).wrap((2, 2, 2)), (-1, 1, -1));
    assert_eq!((-7isize, 7isize).shrink(2), (-3, 3));
    assert_eq!(a.signed(), (1isize, 5isize, 3isize));
    assert_eq!(3usize.repeat(), (3, 3, 3));
    assert!(matches!(Axis::Y, Axis::Y));
}

#[test]
fn coord_iter_3d_walks_in_index_order() {
    let mut iter = coord_iter_3d(3);
    let mut index = 0;
    while let Some(coord) = iter.next() {
        assert_eq!(coord, index_to_coord_3d(index, 3));
        index += 1;
    }
    assert_eq!(index, 27);
}

#[test]
fn coord_iter_2d_walks_in_index_order() {
    let mut iter = coord_iter_2d(4);
    let mut index = 0;
    while let Some(coord) = iter.next() {
        assert_eq!(coord, index_to_coord_2d(index, 4));
        index += 1;
    }
    assert_eq!(index, 16);
}

#[test]
fn ring_buffer_average_of_recent_samples() {
    let mut buffer = RingBufferAverage::new(4);
    assert_eq!(buffer.average(), 0);
    assert_eq!(buffer.max(), 0);
    for sample in [4u128, 8, 12, 16] {
        buffer.push_sample(sample);
    }
    assert_eq!(buffer.average(), 10);
    assert_eq!(buffer.max(), 16);
    // The fifth sample replaces the first.
    buffer.push_sample(2);
    assert_eq!(buffer.average(), 9);
    assert_eq!(buffer.max(), 16);
    buffer.push_sample(1);
    buffer.push_sample(1);
    buffer.push_sample(1);
    assert_eq!(buffer.average(), 1);
    assert_eq!(buffer.max(), 2);
}

#[test]
fn copy_3d_bounded_auto_clip_copies_every_offset_with_source_and_target() {
    // Offsets one and two have both source data and a target slot.
    let source = vec![10u32, 11, 12, 13];
    let mut target = vec![0u32; 2];
    copy_3d_bounded_auto_clip((3, 1, 1), &source, (4, 1, 1), (0, 0, 0), &mut target[..], (2, 1, 1), (-1, 0, 0));
    assert_eq!(target, vec![11, 12]);
}

#[test]
fn copy_3d_bounded_auto_clip_source_pushed_past_its_end_copies_nothing() {
    let source = vec![1u32, 2, 3, 4];
    let mut target = vec![0u32; 4];
    copy_3d_bounded_auto_clip((4, 1, 1), &source, (4, 1, 1), (2, 0, 0), &mut target[..], (4, 1, 1), (-3, 0, 0));
    assert_eq!(target, vec![0u32; 4]);
}

#[test]
fn copy_3d_auto_clip_past_the_target_copies_nothing() {
    let source = vec![1u32; 8];
    let mut target = vec![0u32; 8];
    copy_3d_auto_clip(&source, 2, (3, 0, 0), &mut target[..], 2);
    assert_eq!(target, vec![0u32; 8]);
}

#[test]
fn fill_slice_3d_auto_clip_outside_fills_nothing() {
    let mut target = vec![0u8; 8];
    // Starts further before the grid than it reaches.
    fill_slice_3d_auto_clip(3u8, &mut target[..], 2, (-5, 0, 0), (2, 2, 2));
    // Starts past the end of the grid.
    fill_slice_3d_auto_clip(3u8, &mut target[..], 2, (0, 3, 0), (2, 2, 2));
    assert_eq!(target, vec![0u8; 8]);
}

#[test]
fn ring_buffer_counts_unwritten_slots_as_zero() {
    let mut buffer = RingBufferAverage::new(4);
    buffer.push_sample(6);
    buffer.push_sample(10);
    // Two samples over four slots.
    assert_eq!(buffer.average(), 4);
    assert_eq!(buffer.max(), 10);
}
