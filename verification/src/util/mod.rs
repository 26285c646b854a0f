pub mod coord_util;
pub mod coords;
pub mod copy;
pub mod iter;
pub mod ring_buffer;

pub use coord_util::{Axis, CoordConvertSigned, CoordRepeat, CoordUtil};
pub use coords::{
    coord_to_index_2d, coord_to_index_3d, coord_to_signed_coord, index_to_coord_2d,
    index_to_coord_3d, index_to_signed_coord_2d, offset_coord_3d, offset_signed_coord_3d,
    scale_coord_2d, scale_coord_3d, scale_signed_coord_2d, scale_signed_coord_3d,
    shrink_coord_3d, shrink_signed_coord_3d, signed_coord_to_index_2d, Coord2D, Coord3D,
    SignedCoord2D, SignedCoord3D,
};
pub use copy::{
    copy_3d, copy_3d_auto_clip, copy_3d_bounded_auto_clip, fill_slice_3d, fill_slice_3d_auto_clip,
};
pub use iter::{coord_iter_2d, coord_iter_3d, CoordIter2D, CoordIter3D};
pub use ring_buffer::RingBufferAverage;
