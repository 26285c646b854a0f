# raytrace

The world and terrain side of a voxel raytracer, as a library whose behaviour is stated in
`requires` / `ensures` contracts and proved with Verus.

## Layout

- `src/util` — grid coordinates and their linear indices, element-wise coordinate arithmetic,
  grid iterators, 3D box copies and fills (with clipping), and a ring buffer of timing samples.
- `src/world` — chunks of voxels: filling them from a heightmap, packing them for the renderer
  (materials and the "minefield" of LOD levels the raytracer may skip), their byte layout on
  disk, and the names of their files.
- `src/render` — what the renderer decides on the CPU: material packing and the palette, the
  choice of GPU, queue families and swapchain settings, the descriptor pool plan, the denoise
  passes, and the planning and assembly of terrain slices uploaded as the camera moves.
- `src/game` — the set of named controls bound to keys.
- `tests/` — tests of the library on concrete values.
- `app/` — a program that generates the chunks around the origin and keeps them on disk, with
  the file I/O, the noise-based terrain height and the floating-point camera.
