use vstd::prelude::*;

verus! {

/// The queue families chosen for compute work and for presenting.
#[derive(Clone, Copy, Debug, PartialEq, Eq)]
pub struct QueueFamilyIndices {
    pub compute: Option<u32>,
    pub present: Option<u32>,
}

impl Default for QueueFamilyIndices {
    fn default() -> (r: Self)
        ensures
            r.compute is None,
            r.present is None,
    {
        QueueFamilyIndices { compute: None, present: None }
    }
}

impl QueueFamilyIndices {
    pub open spec fn complete(self) -> bool {
        self.compute is Some && self.present is Some
    }

    pub fn is_complete(&self) -> (r: bool)
        ensures
            r == self.complete(),
    {
        self.compute.is_some() && self.present.is_some()
    }
}

/// What the device reports of one queue family.
#[derive(Clone, Copy, Debug, PartialEq, Eq)]
pub struct QueueFamilyInfo {
    pub queue_count: u32,
    pub supports_compute: bool,
    pub supports_transfer: bool,
    /// Whether the family can present to the window's surface.
    pub supports_present: bool,
}

/// Whether a family can take the compute work (which also transfers data).
pub open spec fn suits_compute(f: QueueFamilyInfo) -> bool {
    f.queue_count > 0 && f.supports_compute && f.supports_transfer
}

/// Whether a family can present.
pub open spec fn suits_present(f: QueueFamilyInfo) -> bool {
    f.queue_count > 0 && f.supports_present
}

/// The choice after looking at family `i`: a suitable family replaces the earlier choice.
pub open spec fn queue_choice_step(acc: QueueFamilyIndices, f: QueueFamilyInfo, i: int) -> QueueFamilyIndices {
    QueueFamilyIndices {
        compute: if suits_compute(f) { Some(i as u32) } else { acc.compute },
        present: if suits_present(f) { Some(i as u32) } else { acc.present },
    }
}

/// The families are looked at in order from `i` on, until both kinds of queue have been found.
pub open spec fn queue_choice_from(
    families: Seq<QueueFamilyInfo>,
    i: int,
    acc: QueueFamilyIndices,
) -> QueueFamilyIndices
    decreases families.len() - i,
{
    if i >= families.len() || i < 0 {
        acc
    } else {
        let next = queue_choice_step(acc, families[i], i);
        if next.complete() {
            next
        } else {
            queue_choice_from(families, i + 1, next)
        }
    }
}

/// The queue families that `find_queue_family` picks.
pub open spec fn queue_choice(families: Seq<QueueFamilyInfo>) -> QueueFamilyIndices {
    queue_choice_from(families, 0, QueueFamilyIndices { compute: None, present: None })
}

/// Looks through the families in order and picks, for compute work and for presenting, the
/// latest suitable family seen by the time both have been found.
pub fn find_queue_family(families: &Vec<QueueFamilyInfo>) -> (r: QueueFamilyIndices)
    requires
        families@.len() <= u32::MAX,
    ensures
        r == queue_choice(families@),
{
    let mut queue_family_indices = QueueFamilyIndices::default();
    let mut index: u32 = 0;
    let mut i: usize = 0;
    while i < families.len()
        invariant
            families@.len() <= u32::MAX,
            i <= families@.len(),
            index == i,
            !queue_family_indices.complete(),
            queue_choice(families@) == queue_choice_from(families@, i as int, queue_family_indices),
        decreases families@.len() - i,
    {
        let queue_family = families[i];
        if queue_family.queue_count > 0 && queue_family.supports_compute
            && queue_family.supports_transfer {
            queue_family_indices.compute = Some(index);
        }
        if queue_family.queue_count > 0 && queue_family.supports_present {
            queue_family_indices.present = Some(index);
        }
        if queue_family_indices.is_complete() {
            return queue_family_indices;
        }
        index = index + 1;
        i = i + 1;
    }
    queue_family_indices
}

/// Law of `find_queue_family`: a chosen family is a suitable one, and both kinds are chosen
/// exactly when some family suits compute work and some family can present.
pub proof fn lemma_queue_choice(families: Seq<QueueFamilyInfo>)
    requires
        families.len() <= u32::MAX,
    ensures
        queue_choice(families).compute matches Some(c) ==> c < families.len() && suits_compute(
            families[c as int],
        ),
        queue_choice(families).present matches Some(p) ==> p < families.len() && suits_present(
            families[p as int],
        ),
        queue_choice(families).complete() <==> (exists|i: int|
            0 <= i < families.len() && suits_compute(#[trigger] families[i])) && (exists|j: int|
            0 <= j < families.len() && suits_present(#[trigger] families[j])),
{
    lemma_queue_choice_from(families, 0, QueueFamilyIndices { compute: None, present: None });
}

proof fn lemma_queue_choice_from(families: Seq<QueueFamilyInfo>, i: int, acc: QueueFamilyIndices)
    requires
        families.len() <= u32::MAX,
        0 <= i <= families.len(),
        acc.compute matches Some(c) ==> c < i && suits_compute(families[c as int]),
        acc.present matches Some(p) ==> p < i && suits_present(families[p as int]),
        acc.compute is Some <==> exists|k: int| 0 <= k < i && suits_compute(#[trigger] families[k]),
        acc.present is Some <==> exists|k: int| 0 <= k < i && suits_present(#[trigger] families[k]),
        !acc.complete(),
    ensures
        ({
            let r = queue_choice_from(families, i, acc);
            &&& r.compute matches Some(c) ==> c < families.len() && suits_compute(families[c as int])
            &&& r.present matches Some(p) ==> p < families.len() && suits_present(families[p as int])
            &&& r.complete() <==> (exists|k: int|
                0 <= k < families.len() && suits_compute(#[trigger] families[k])) && (exists|k: int|
                0 <= k < families.len() && suits_present(#[trigger] families[k]))
        }),
    decreases families.len() - i,
{
    if i < families.len() {
        let next = queue_choice_step(acc, families[i], i);
        if next.complete() {
            if suits_compute(families[i]) {
                assert(0 <= i < families.len() && suits_compute(families[i]));
            }
            if suits_present(families[i]) {
                assert(0 <= i < families.len() && suits_present(families[i]));
            }
            if acc.compute is Some {
                let k = choose|k: int| 0 <= k < i && suits_compute(#[trigger] families[k]);
                assert(0 <= k < families.len() && suits_compute(families[k]));
            }
            if acc.present is Some {
                let k = choose|k: int| 0 <= k < i && suits_present(#[trigger] families[k]);
                assert(0 <= k < families.len() && suits_present(families[k]));
            }
        } else {
            assert(next.compute is Some <==> exists|k: int|
                0 <= k < i + 1 && suits_compute(#[trigger] families[k])) by {
                if exists|k: int| 0 <= k < i + 1 && suits_compute(#[trigger] families[k]) {
                    let k = choose|k: int| 0 <= k < i + 1 && suits_compute(#[trigger] families[k]);
                    if k < i {
                        assert(exists|k2: int| 0 <= k2 < i && suits_compute(#[trigger] families[k2]));
                    }
                }
                if acc.compute is Some {
                    let k = choose|k: int| 0 <= k < i && suits_compute(#[trigger] families[k]);
                    assert(0 <= k < i + 1);
                }
            }
            assert(next.present is Some <==> exists|k: int|
                0 <= k < i + 1 && suits_present(#[trigger] families[k])) by {
                if exists|k: int| 0 <= k < i + 1 && suits_present(#[trigger] families[k]) {
                    let k = choose|k: int| 0 <= k < i + 1 && suits_present(#[trigger] families[k]);
                    if k < i {
                        assert(exists|k2: int| 0 <= k2 < i && suits_present(#[trigger] families[k2]));
                    }
                }
                if acc.present is Some {
                    let k = choose|k: int| 0 <= k < i && suits_present(#[trigger] families[k]);
                    assert(0 <= k < i + 1);
                }
            }
            lemma_queue_choice_from(families, i + 1, next);
        }
    }
}

/// Whether every required name is among the available ones.
pub open spec fn all_available(available: Seq<Seq<char>>, required: Seq<Seq<char>>) -> bool {
    forall|r: int| 0 <= r < required.len() ==> available.contains(#[trigger] required[r])
}

/// Whether the device offers every required extension.
pub fn check_device_extension_support(available: &Vec<String>, required: &Vec<String>) -> (r: bool)
    ensures
        r == all_available(
            available@.map_values(|s: String| s@),
            required@.map_values(|s: String| s@),
        ),
{
    let ghost avail = available@.map_values(|s: String| s@);
    let ghost req = required@.map_values(|s: String| s@);
    let mut i: usize = 0;
    while i < required.len()
        invariant
            i <= required@.len(),
            avail == available@.map_values(|s: String| s@),
            req == required@.map_values(|s: String| s@),
            forall|r: int| 0 <= r < i ==> avail.contains(#[trigger] req[r]),
        decreases required@.len() - i,
    {
        let mut found = false;
        let mut j: usize = 0;
        while j < available.len()
            invariant
                i < required@.len(),
                j <= available@.len(),
                avail == available@.map_values(|s: String| s@),
                req == required@.map_values(|s: String| s@),
                found == exists|a: int| 0 <= a < j && avail[a] == req[i as int],
            decreases available@.len() - j,
        {
            let same = available[j] == required[i];
            proof {
                assert(avail[j as int] == available@[j as int]@);
                assert(req[i as int] == required@[i as int]@);
                if exists|a: int| 0 <= a < j + 1 && avail[a] == req[i as int] {
                    let a = choose|a: int| 0 <= a < j + 1 && avail[a] == req[i as int];
                    if a < j {
                        assert(exists|a2: int| 0 <= a2 < j && avail[a2] == req[i as int]);
                    }
                }
                if same {
                    assert(0 <= j < j + 1 && avail[j as int] == req[i as int]);
                }
            }
            if same {
                found = true;
            }
            j = j + 1;
        }
        if !found {
            proof {
                assert(!avail.contains(req[i as int]));
            }
            return false;
        }
        i = i + 1;
    }
    true
}

/// Whether a device can run the renderer: its queue families cover both kinds of work, it
/// offers the required extensions, and (given those) its surface offers some format and some
/// present mode.
pub fn is_physical_device_suitable(
    families: &Vec<QueueFamilyInfo>,
    extensions_supported: bool,
    num_formats: usize,
    num_present_modes: usize,
) -> (r: bool)
    requires
        families@.len() <= u32::MAX,
    ensures
        r == (queue_choice(families@).complete() && extensions_supported && num_formats > 0
            && num_present_modes > 0),
{
    let indices = find_queue_family(families);
    let is_queue_family_supported = indices.is_complete();
    let is_swapchain_supported = if extensions_supported {
        num_formats != 0 && num_present_modes != 0
    } else {
        false
    };
    is_queue_family_supported && extensions_supported && is_swapchain_supported
}

/// The first device that can run the renderer, if any.
pub fn pick_physical_device(suitable: &Vec<bool>) -> (r: Option<usize>)
    ensures
        r matches Some(i) ==> i < suitable@.len() && suitable@[i as int] && forall|k: int|
            0 <= k < i ==> !suitable@[k],
        r is None ==> forall|k: int| 0 <= k < suitable@.len() ==> !suitable@[k],
{
    let mut i: usize = 0;
    while i < suitable.len()
        invariant
            i <= suitable@.len(),
            forall|k: int| 0 <= k < i ==> !suitable@[k],
        decreases suitable@.len() - i,
    {
        if suitable[i] {
            return Some(i);
        }
        i = i + 1;
    }
    None
}

/// A surface format as the device reports it: the raw Vulkan format and colour space numbers.
#[derive(Clone, Copy, Debug, PartialEq, Eq)]
pub struct SurfaceFormat {
    pub format: i32,
    pub color_space: i32,
}

/// Vulkan's `VK_FORMAT_B8G8R8A8_UNORM`.
pub const FORMAT_B8G8R8A8_UNORM: i32 = 44;

/// Vulkan's `VK_COLOR_SPACE_SRGB_NONLINEAR_KHR`.
pub const COLOR_SPACE_SRGB_NONLINEAR: i32 = 0;

/// Vulkan's `VK_PRESENT_MODE_MAILBOX_KHR`.
pub const PRESENT_MODE_MAILBOX: i32 = 1;

/// Vulkan's `VK_PRESENT_MODE_FIFO_KHR`.
pub const PRESENT_MODE_FIFO: i32 = 2;

pub open spec fn preferred_format(f: SurfaceFormat) -> bool {
    f.format == FORMAT_B8G8R8A8_UNORM && f.color_space == COLOR_SPACE_SRGB_NONLINEAR
}

/// The first available format that is 8-bit BGRA in sRGB, or else the first available format.
pub fn choose_swapchain_format(available_formats: &Vec<SurfaceFormat>) -> (r: SurfaceFormat)
    requires
        available_formats@.len() > 0,
    ensures
        (exists|i: int| 0 <= i < available_formats@.len() && preferred_format(
            #[trigger] available_formats@[i],
        )) ==> preferred_format(r) && available_formats@.contains(r),
        !(exists|i: int| 0 <= i < available_formats@.len() && preferred_format(
            #[trigger] available_formats@[i],
        )) ==> r == available_formats@[0],
{
    let mut i: usize = 0;
    while i < available_formats.len()
        invariant
            i <= available_formats@.len(),
            forall|k: int| 0 <= k < i ==> !preferred_format(#[trigger] available_formats@[k]),
        decreases available_formats@.len() - i,
    {
        let available_format = available_formats[i];
        if available_format.format == FORMAT_B8G8R8A8_UNORM && available_format.color_space
            == COLOR_SPACE_SRGB_NONLINEAR {
            proof {
                assert(available_formats@[i as int] == available_format);
            }
            return available_format;
        }
        i = i + 1;
    }
    available_formats[0]
}

/// Mailbox presenting where it is offered, otherwise FIFO (which every device offers).
pub fn choose_swapchain_present_mode(available_present_modes: &Vec<i32>) -> (r: i32)
    ensures
        r == if available_present_modes@.contains(PRESENT_MODE_MAILBOX) {
            PRESENT_MODE_MAILBOX
        } else {
            PRESENT_MODE_FIFO
        },
{
    let mut i: usize = 0;
    while i < available_present_modes.len()
        invariant
            i <= available_present_modes@.len(),
            forall|k: int| 0 <= k < i ==> available_present_modes@[k] != PRESENT_MODE_MAILBOX,
        decreases available_present_modes@.len() - i,
    {
        if available_present_modes[i] == PRESENT_MODE_MAILBOX {
            return PRESENT_MODE_MAILBOX;
        }
        i = i + 1;
    }
    PRESENT_MODE_FIFO
}

/// A width and a height in pixels.
#[derive(Clone, Copy, Debug, PartialEq, Eq)]
pub struct Extent2D {
    pub width: u32,
    pub height: u32,
}

pub open spec fn clamp_spec(v: u32, min: u32, max: u32) -> u32 {
    if v < min {
        min
    } else if v > max {
        max
    } else {
        v
    }
}

/// `v` limited to the range from `min` to `max`.
pub fn clamp(v: u32, min: u32, max: u32) -> (r: u32)
    requires
        min <= max,
    ensures
        r == clamp_spec(v, min, max),
{
    if v < min {
        min
    } else if v > max {
        max
    } else {
        v
    }
}

/// The size of the swapchain images: the surface's own size where it has one, otherwise the
/// window's size limited to what the surface allows.
pub fn choose_swapchain_extent(
    current_extent: Extent2D,
    min_image_extent: Extent2D,
    max_image_extent: Extent2D,
    window_size: Extent2D,
) -> (r: Extent2D)
    requires
        current_extent.width == u32::MAX ==> min_image_extent.width <= max_image_extent.width
            && min_image_extent.height <= max_image_extent.height,
    ensures
        r == if current_extent.width != u32::MAX {
            current_extent
        } else {
            Extent2D {
                width: clamp_spec(
                    window_size.width,
                    min_image_extent.width,
                    max_image_extent.width,
                ),
                height: clamp_spec(
                    window_size.height,
                    min_image_extent.height,
                    max_image_extent.height,
                ),
            }
        },
{
    if current_extent.width != u32::MAX {
        current_extent
    } else {
        Extent2D {
            width: clamp(window_size.width, min_image_extent.width, max_image_extent.width),
            height: clamp(window_size.height, min_image_extent.height, max_image_extent.height),
        }
    }
}

/// How many images the swapchain asks for: one more than the minimum, but no more than the
/// maximum where the surface has one (a maximum of zero means none).
pub fn swapchain_image_count(min_image_count: u32, max_image_count: u32) -> (r: u32)
    requires
        min_image_count < u32::MAX,
    ensures
        r == if max_image_count > 0 && min_image_count + 1 > max_image_count {
            max_image_count as int
        } else {
            min_image_count + 1
        },
{
    let image_count = min_image_count + 1;
    if max_image_count > 0 {
        image_count.min(max_image_count)
    } else {
        image_count
    }
}

/// How the swapchain's images are shared: between the compute and the present queue families
/// where they differ (`Some` of the two), otherwise used by one family alone (`None`).
pub fn swapchain_sharing(queue_family: &QueueFamilyIndices) -> (r: Option<(u32, u32)>)
    requires
        queue_family.compute != queue_family.present ==> queue_family.compute is Some
            && queue_family.present is Some,
    ensures
        r == if queue_family.compute != queue_family.present {
            Some((queue_family.compute.unwrap(), queue_family.present.unwrap()))
        } else {
            None::<(u32, u32)>
        },
{
    match (queue_family.compute, queue_family.present) {
        (Some(compute), Some(present)) => {
            if compute != present {
                Some((compute, present))
            } else {
                None
            }
        },
        _ => None,
    }
}

/// Whether memory type `index` is allowed by `memory_type_bits` and has every required flag.
pub open spec fn memory_type_fits(
    memory_type_bits: u32,
    property_flags: Seq<u32>,
    required_flags: u32,
    index: int,
) -> bool {
    &&& memory_type_bits & (1u32 << (index as u32)) != 0
    &&& property_flags[index] & required_flags == required_flags
}

/// The first memory type that `memory_type_bits` allows and that has every required flag. Some
/// memory type must fit.
pub fn find_compatible_memory_type(
    memory_type_bits: u32,
    property_flags: &Vec<u32>,
    required_flags: u32,
) -> (r: u32)
    requires
        property_flags@.len() <= 32,
        exists|k: int|
            0 <= k < property_flags@.len() && #[trigger] memory_type_fits(
                memory_type_bits,
                property_flags@,
                required_flags,
                k,
            ),
    ensures
        r < property_flags@.len(),
        memory_type_fits(memory_type_bits, property_flags@, required_flags, r as int),
        forall|k: int|
            0 <= k < r ==> !memory_type_fits(memory_type_bits, property_flags@, required_flags, k),
{
    let count = property_flags.len() as u32;
    let mut index: u32 = 0;
    loop
        invariant
            count == property_flags@.len(),
            count <= 32,
            index < count,
            forall|k: int|
                0 <= k < index ==> !memory_type_fits(
                    memory_type_bits,
                    property_flags@,
                    required_flags,
                    k,
                ),
            exists|k: int|
                index <= k < count && #[trigger] memory_type_fits(
                    memory_type_bits,
                    property_flags@,
                    required_flags,
                    k,
                ),
        decreases count - index,
    {
        // Skip over memory types that memory_type_bits does not allow, and those that don't
        // have the required flags.
        if memory_type_bits & (1u32 << index) != 0 && (property_flags[index as usize]
            & required_flags) == required_flags {
            return index;
        }
        proof {
            assert(!memory_type_fits(memory_type_bits, property_flags@, required_flags, index as int));
        }
        index = index + 1;
    }
}

} // verus!
