use raytrace::render::descriptors::{generate_descriptor_pool, variants_match, DescriptorPrototype, DescriptorTypeAccumulator};
use raytrace::render::device::{
    check_device_extension_support, choose_swapchain_extent, choose_swapchain_format,
    choose_swapchain_present_mode, clamp, find_compatible_memory_type, find_queue_family,
    is_physical_device_suitable, pick_physical_device, swapchain_image_count, swapchain_sharing,
    Extent2D, QueueFamilyIndices,
    QueueFamilyInfo, SurfaceFormat, COLOR_SPACE_SRGB_NONLINEAR, FORMAT_B8G8R8A8_UNORM,
    PRESENT_MODE_FIFO, PRESENT_MODE_MAILBOX,
};
use raytrace::render::structs::denoise_passes;
use raytrace::render::terrain_upload::{
    copy_slice_piece, fill_slice, slice_copies, slice_data_shape, slice_target_offset, Position,
    TerrainUploadRequest, TerrainUploadManager,
};
use raytrace::render::{palette, Material, NUM_MATERIALS};
use raytrace::util::Axis;
use raytrace::world::{PackedChunkData, CHUNK_VOLUME};

#[test]
fn material_constructors() {
    let air = Material::air();
    assert_eq!(air.albedo, (0, 0, 0));
    assert!(!air.solid);
    let black = Material::black();
    assert_eq!(black.emission, (0, 0, 0));
    assert!(black.solid);
    assert_eq!(NUM_MATERIALS, 7);
    assert_eq!(palette(3).emission, (320, 154, 76));
    assert_eq!(palette(6).albedo, (110, 116, 115));
}

#[test]
fn material_add_and_divide() {
    let mut m = palette(2);
    m.add(&palette(3));
    assert_eq!(m.albedo, (90, 148, 86));
    assert_eq!(m.emission, (320, 154, 76));
    m.divide(2);
    assert_eq!(m.albedo, (45, 74, 43));
    assert_eq!(m.emission, (160, 77, 38));
    assert!(m.solid);
}

#[test]
fn material_pack_layout() {
    // Albedo channels at bits 14, 7 and 0, solid or-ed in at bit 15.
    assert_eq!(palette(2).pack(), (39 << 14) | (110 << 7) | 61 | (1 << 15));
    assert_eq!(Material::air().pack(), 0);
    let m = Material::unpack(palette(5).pack());
    assert_eq!(m, Material { albedo: (62, 27, 22), emission: (0, 0, 0), solid: true });
    // Black keeps its solid flag in the bit that unpacks as the red channel's second bit.
    let b = Material::unpack(Material::black().pack());
    assert_eq!(b.albedo, (2, 0, 0));
    assert!(b.solid);
    assert_eq!(Material::unpack(0xFFFF_FFFF).pack(), 0x1F_FFFF);
}

#[test]
fn queue_family_choice() {
    let families = vec![
        QueueFamilyInfo { queue_count: 1, supports_compute: true, supports_transfer: false, supports_present: false },
        QueueFamilyInfo { queue_count: 2, supports_compute: true, supports_transfer: true, supports_present: false },
        QueueFamilyInfo { queue_count: 1, supports_compute: false, supports_transfer: false, supports_present: true },
        QueueFamilyInfo { queue_count: 1, supports_compute: true, supports_transfer: true, supports_present: true },
    ];
    let indices = find_queue_family(&families);
    assert_eq!(indices, QueueFamilyIndices { compute: Some(1), present: Some(2) });
    assert!(indices.is_complete());
    let none = find_queue_family(&vec![families[0]]);
    assert_eq!(none, QueueFamilyIndices::default());
    assert!(!none.is_complete());
    assert!(is_physical_device_suitable(&families, true, 1, 1));
    assert!(!is_physical_device_suitable(&families, false, 1, 1));
    assert!(!is_physical_device_suitable(&families, true, 0, 1));
    assert_eq!(pick_physical_device(&vec![false, true, true]), Some(1));
    assert_eq!(pick_physical_device(&vec![false]), None);
}

#[test]
fn extension_support() {
    let available = vec!["VK_KHR_swapchain".to_string(), "VK_other".to_string()];
    assert!(check_device_extension_support(&available, &vec!["VK_KHR_swapchain".to_string()]));
    assert!(!check_device_extension_support(&available, &vec!["VK_missing".to_string()]));
    assert!(check_device_extension_support(&vec![], &vec![]));
}

#[test]
fn swapchain_choices() {
    let other = SurfaceFormat { format: 37, color_space: 0 };
    let preferred = SurfaceFormat { format: FORMAT_B8G8R8A8_UNORM, color_space: COLOR_SPACE_SRGB_NONLINEAR };
    assert_eq!(choose_swapchain_format(&vec![other, preferred]), preferred);
    assert_eq!(choose_swapchain_format(&vec![other]), other);
    assert_eq!(choose_swapchain_present_mode(&vec![0, PRESENT_MODE_MAILBOX]), PRESENT_MODE_MAILBOX);
    assert_eq!(choose_swapchain_present_mode(&vec![0, 3]), PRESENT_MODE_FIFO);
    let current = Extent2D { width: 800, height: 600 };
    let min = Extent2D { width: 100, height: 100 };
    let max = Extent2D { width: 1000, height: 500 };
    let window = Extent2D { width: 1024, height: 50 };
    assert_eq!(choose_swapchain_extent(current, min, max, window), current);
    let unknown = Extent2D { width: u32::MAX, height: u32::MAX };
    assert_eq!(
        choose_swapchain_extent(unknown, min, max, window),
        Extent2D { width: 1000, height: 100 }
    );
    assert_eq!(clamp(5, 1, 3), 3);
}

#[test]
fn memory_type_choice() {
    let flags = vec![0b001, 0b011, 0b111, 0b110];
    assert_eq!(find_compatible_memory_type(0b1111, &flags, 0b010), 1);
    assert_eq!(find_compatible_memory_type(0b1100, &flags, 0b010), 2);
}

#[test]
fn descriptor_pool_plan() {
    let (s, c) = (DescriptorPrototype::StorageImage, DescriptorPrototype::CombinedImageSampler);
    let prototypes = vec![
        vec![vec![s, c], vec![s, c]],
        vec![vec![s]],
        vec![],
    ];
    assert!(variants_match(&prototypes[0]));
    assert!(!variants_match(&vec![vec![s], vec![c]]));
    let plan = generate_descriptor_pool(&prototypes);
    assert_eq!(plan.total_descriptor_sets, 3);
    assert_eq!(plan.pool_sizes, vec![(s, 3), (c, 2)]);
    assert_eq!(plan.layouts.len(), 3);
    assert_eq!(plan.layouts[0], (vec![s, c], 2));
    assert_eq!(plan.layouts[2], (vec![], 0));
    assert_eq!(plan.request_layouts, vec![0, 0, 1]);
    assert_eq!(plan.writes, vec![(0, 0, s), (0, 1, c), (1, 0, s), (1, 1, c), (2, 0, s)]);
    let mut counter = DescriptorTypeAccumulator::new();
    counter.increment(c, 4);
    assert_eq!(counter.index(c), 1);
    assert_eq!(counter.all_totals(), vec![(s, 0), (c, 4)]);
}

#[test]
fn denoise_pass_order() {
    let passes = denoise_passes();
    let sizes: Vec<i32> = passes.iter().map(|p| p.0.size).collect();
    assert_eq!(sizes, vec![1, 2, 4, 8, 8, 16]);
    let sets: Vec<usize> = passes.iter().map(|p| p.1).collect();
    assert_eq!(sets, vec![0, 1, 0, 1, 0, 1]);
}

#[test]
fn terrain_requests_move_the_first_lod() {
    let mut state = TerrainUploadManager::new();
    assert!(state.setup_next_request().is_none());
    state.request_increase(Axis::X);
    let request = state.setup_next_request().unwrap();
    assert_eq!(request.origin, (1, -1, -1));
    assert_eq!(request.num_slices, (0, 0, 0));
    assert_eq!(request.new_position.num_loaded_slices, (1, 0, 0));
    state.request_decrease(Axis::X);
    let request = state.setup_next_request().unwrap();
    assert_eq!(request.new_position.num_loaded_slices, (0, 0, 0));
    assert_eq!(request.new_position.origin, (-1, -1, -1));
    state.request_decrease(Axis::Z);
    let request = state.setup_next_request().unwrap();
    assert_eq!(request.new_position.num_loaded_slices, (0, 0, 15));
    assert_eq!(request.new_position.origin, (-1, -1, -3));
    state.complete_request(&request);
    assert_eq!(state.get_render_offset(0), (0, 0, -256 + 15 * 16));
    assert_eq!(state.get_render_offset(2), (0, 0, 0));
    // Far away along Y: the first LOD moves one slice up along Y.
    state.request_move_towards((0, 1000, -16));
    let request = state.setup_next_request().unwrap();
    assert!(matches!(request.axis, Axis::Y));
    state.request_move_towards((0, 0, 0));
    assert!(state.setup_next_request().is_none());
}

#[test]
fn position_render_offset() {
    let p = Position { origin: (0, 1, -1), num_loaded_slices: (2, 0, 3) };
    assert_eq!(p.render_offset(0), (128 + 32, 256, 48));
    assert_eq!(p.render_offset(3), ((128 + 32) * 8, 256 * 8, 48 * 8));
    let d = Position::default();
    assert_eq!(d.render_offset(1), (0, 0, 0));
}

#[test]
fn slice_plan_and_copy() {
    let mut state = TerrainUploadManager::new();
    state.request_increase(Axis::Z);
    let request = state.setup_next_request().unwrap();
    let copies = slice_copies(&request);
    assert_eq!(copies.len(), 9);
    assert_eq!(slice_data_shape(Axis::Z), (256, 256, 16));
    assert_eq!(slice_target_offset(&request), (0, 0, 0));
    // The first piece starts at the request's origin, copies a whole chunk face one slice thick.
    assert_eq!(copies[0].chunk, (-1, -1, 1));
    assert_eq!(copies[0].copy_start, (0, 0, 0));
    assert_eq!(copies[0].copy_size, (128, 128, 16));
    assert_eq!(copies[0].target_start, (0, 0, 0));
    // The last pieces on each axis are empty at the start of a region.
    assert_eq!(copies[2].copy_size.0, 0);
    let mut data = PackedChunkData::new();
    for i in 0..CHUNK_VOLUME {
        data.materials[i] = (i % 1000) as u32;
        data.minefield[i] = (i % 200) as u8;
    }
    let shape = slice_data_shape(Axis::Z);
    let volume = shape.0 * shape.1 * shape.2;
    let mut materials = vec![0u32; volume];
    let mut minefield = vec![0u8; volume];
    copy_slice_piece(&copies[4], &data, shape, &mut materials, &mut minefield);
    let c = copies[4];
    assert_eq!(c.target_start, (128, 128, 0));
    let source = ((c.copy_start.2 * 128) + c.copy_start.1) * 128 + c.copy_start.0;
    let target = ((c.target_start.2 as usize * 256) + c.target_start.1 as usize) * 256 + c.target_start.0 as usize;
    assert_eq!(materials[target], data.materials[source]);
    assert_eq!(minefield[target], data.minefield[source]);
    let mut untouched = vec![7u8; volume];
    let mut untouched_m = vec![7u32; volume];
    copy_slice_piece(&copies[2], &data, shape, &mut untouched_m, &mut untouched);
    assert!(untouched.iter().all(|v| *v == 7));
}

#[test]
fn fill_slice_assembles_the_slice() {
    let mut state = TerrainUploadManager::new();
    state.request_increase(Axis::Z);
    let request = state.setup_next_request().unwrap();
    let mut chunks = Vec::new();
    for k in 0..9u32 {
        let mut chunk = PackedChunkData::new();
        for i in 0..CHUNK_VOLUME {
            chunk.materials[i] = k + 1;
            chunk.minefield[i] = (k + 1) as u8;
        }
        chunks.push(chunk);
    }
    let shape = slice_data_shape(Axis::Z);
    let volume = shape.0 * shape.1 * shape.2;
    let mut materials = vec![0u32; volume];
    let mut minefield = vec![0u8; volume];
    fill_slice(&request, &chunks, &mut materials, &mut minefield);
    let at = |x: usize, y: usize, z: usize| (z * 256 + y) * 256 + x;
    // At the start of a region only the first two chunks along X and Y reach into the slice,
    // each filling a quarter of it.
    assert_eq!(materials[at(0, 0, 0)], 1);
    assert_eq!(materials[at(200, 0, 5)], 2);
    assert_eq!(materials[at(0, 200, 15)], 4);
    assert_eq!(materials[at(255, 255, 15)], 5);
    assert_eq!(minefield[at(255, 255, 15)], 5);
    assert!(materials.iter().all(|v| [1, 2, 4, 5].contains(v)));
}

#[test]
fn slice_pieces_cover_the_slice_once() {
    let request = TerrainUploadRequest {
        origin: (0, 0, 0),
        num_slices: (3, 9, 12),
        axis: Axis::Y,
        new_position: Position { origin: (0, 0, 0), num_loaded_slices: (3, 10, 12) },
    };
    let copies = slice_copies(&request);
    let shape = slice_data_shape(Axis::Y);
    let mut counts = vec![0u8; shape.0 * shape.1 * shape.2];
    for c in &copies {
        for z in 0..c.copy_size.2 {
            for y in 0..c.copy_size.1 {
                for x in 0..c.copy_size.0 {
                    let (tx, ty, tz) = (
                        c.target_start.0 as usize + x,
                        c.target_start.1 as usize + y,
                        c.target_start.2 as usize + z,
                    );
                    counts[(tz * shape.1 + ty) * shape.0 + tx] += 1;
                }
            }
        }
    }
    assert!(counts.iter().all(|n| *n == 1));
}

#[test]
fn each_slice_moves_the_render_offset_by_one_slice() {
    let mut state = TerrainUploadManager::new();
    for n in 1..=20isize {
        state.request_increase(Axis::Y);
        let request = state.setup_next_request().unwrap();
        state.complete_request(&request);
        assert_eq!(state.get_render_offset(0), (0, 16 * n, 0));
    }
    state.request_decrease(Axis::Y);
    let request = state.setup_next_request().unwrap();
    state.complete_request(&request);
    assert_eq!(state.get_render_offset(0), (0, 16 * 19, 0));
}

#[test]
fn increase_then_decrease_requests_the_starting_slice() {
    let mut state = TerrainUploadManager::new();
    state.request_increase(Axis::X);
    state.request_decrease(Axis::X);
    let first = state.setup_next_request().unwrap();
    assert_eq!(first.new_position.num_loaded_slices, (1, 0, 0));
    let second = state.setup_next_request().unwrap();
    assert!(matches!(second.axis, Axis::X));
    assert_eq!(second.origin, (-1, -1, -1));
    assert_eq!(second.num_slices, (0, 0, 0));
    assert_eq!(second.new_position.origin, (-1, -1, -1));
    assert_eq!(second.new_position.num_loaded_slices, (0, 0, 0));
    assert!(state.setup_next_request().is_none());
}

#[test]
fn swapchain_image_count_and_sharing() {
    assert_eq!(swapchain_image_count(2, 0), 3);
    assert_eq!(swapchain_image_count(2, 8), 3);
    assert_eq!(swapchain_image_count(3, 3), 3);
    let same = QueueFamilyIndices { compute: Some(1), present: Some(1) };
    assert_eq!(swapchain_sharing(&same), None);
    let different = QueueFamilyIndices { compute: Some(0), present: Some(2) };
    assert_eq!(swapchain_sharing(&different), Some((0, 2)));
}

#[test]
fn blue_noise_seed_wraps() {
    assert_eq!(raytrace::render::structs::next_seed(0), 1);
    assert_eq!(raytrace::render::structs::next_seed(1048575), 0);
}

#[test]
fn render_offset_at_a_deep_lod() {
    let p = Position { origin: (0, 0, 0), num_loaded_slices: (1, 0, 0) };
    assert_eq!(p.render_offset(10), ((128 + 16) * 1024, 128 * 1024, 128 * 1024));
}
