use vstd::prelude::*;

verus! {

/// The kind of a descriptor that a shader reads.
#[derive(Clone, Copy, Debug, PartialEq, Eq, Structural)]
pub enum DescriptorPrototype {
    StorageImage,
    CombinedImageSampler,
}

impl DescriptorPrototype {
    /// Whether two descriptors are of the same kind.
    pub fn matches(&self, other: &Self) -> (r: bool)
        ensures
            r == (*self == *other),
    {
        match self {
            Self::StorageImage => {
                if let Self::StorageImage = other {
                    true
                } else {
                    false
                }
            },
            Self::CombinedImageSampler => {
                if let Self::CombinedImageSampler = other {
                    true
                } else {
                    false
                }
            },
        }
    }
}

/// The descriptor kinds of each variant of each descriptor set, as sequences.
pub open spec fn prototypes_view(p: &Vec<Vec<Vec<DescriptorPrototype>>>) -> Seq<Seq<Seq<DescriptorPrototype>>> {
    p@.map_values(|g: Vec<Vec<DescriptorPrototype>>| g@.map_values(|v: Vec<DescriptorPrototype>| v@))
}

/// Whether every variant agrees with the first variant, item by item, as far as both reach.
pub open spec fn variants_agree(variants: Seq<Seq<DescriptorPrototype>>) -> bool {
    forall|v: int, i: int|
        1 <= v < variants.len() && 0 <= i < variants[0].len() && 0 <= i < variants[v].len()
            ==> #[trigger] variants[v][i] == variants[0][i]
}

/// Whether the variants of a descriptor set have the same kind at each binding.
pub fn variants_match(variants: &Vec<Vec<DescriptorPrototype>>) -> (r: bool)
    ensures
        r == variants_agree(variants@.map_values(|v: Vec<DescriptorPrototype>| v@)),
{
    let ghost vs = variants@.map_values(|v: Vec<DescriptorPrototype>| v@);
    let mut v: usize = 1;
    while v < variants.len()
        invariant
            1 <= v,
            vs == variants@.map_values(|v: Vec<DescriptorPrototype>| v@),
            variants@.len() > 0 ==> v <= variants@.len(),
            forall|w: int, i: int|
                1 <= w < v && w < vs.len() && 0 <= i < vs[0].len() && 0 <= i < vs[w].len()
                    ==> #[trigger] vs[w][i] == vs[0][i],
        decreases variants@.len() - v,
    {
        let mut i: usize = 0;
        while i < variants[0].len() && i < variants[v].len()
            invariant
                1 <= v < variants@.len(),
                vs == variants@.map_values(|v: Vec<DescriptorPrototype>| v@),
                i <= vs[0].len(),
                i <= vs[v as int].len(),
                forall|w: int, k: int|
                    1 <= w < v && w < vs.len() && 0 <= k < vs[0].len() && 0 <= k < vs[w].len()
                        ==> #[trigger] vs[w][k] == vs[0][k],
                forall|k: int| 0 <= k < i ==> #[trigger] vs[v as int][k] == vs[0][k],
            decreases vs[0].len() - i,
        {
            if !variants[0][i].matches(&variants[v][i]) {
                return false;
            }
            i = i + 1;
        }
        v = v + 1;
    }
    true
}

/// Counts how many descriptors of each kind a pool must hold.
pub struct DescriptorTypeAccumulator {
    totals: Vec<u32>,
}

/// The position of a kind among the counted kinds.
pub open spec fn kind_index(kind: DescriptorPrototype) -> int {
    match kind {
        DescriptorPrototype::StorageImage => 0,
        DescriptorPrototype::CombinedImageSampler => 1,
    }
}

impl DescriptorTypeAccumulator {
    /// The count of storage images and the count of combined image samplers.
    pub closed spec fn counts(&self) -> Seq<u32> {
        self.totals@
    }

    pub fn new() -> (r: DescriptorTypeAccumulator)
        ensures
            r.counts() == seq![0u32, 0u32],
    {
        let mut totals: Vec<u32> = Vec::new();
        totals.push(0);
        totals.push(0);
        DescriptorTypeAccumulator { totals }
    }

    pub fn index(&self, typ: DescriptorPrototype) -> (r: usize)
        ensures
            r == kind_index(typ),
    {
        match typ {
            DescriptorPrototype::StorageImage => 0,
            DescriptorPrototype::CombinedImageSampler => 1,
        }
    }

    pub fn increment(&mut self, typ: DescriptorPrototype, amount: u32)
        requires
            old(self).counts().len() == 2,
            old(self).counts()[kind_index(typ)] + amount <= u32::MAX,
        ensures
            final(self).counts() == old(self).counts().update(
                kind_index(typ),
                (old(self).counts()[kind_index(typ)] + amount) as u32,
            ),
    {
        let index = self.index(typ);
        let total = self.totals[index] + amount;
        self.totals.set(index, total);
    }

    pub fn all_totals(&self) -> (r: Vec<(DescriptorPrototype, u32)>)
        requires
            self.counts().len() == 2,
        ensures
            r@ == seq![
                (DescriptorPrototype::StorageImage, self.counts()[0]),
                (DescriptorPrototype::CombinedImageSampler, self.counts()[1]),
            ],
    {
        let mut r: Vec<(DescriptorPrototype, u32)> = Vec::new();
        r.push((DescriptorPrototype::StorageImage, self.totals[0]));
        r.push((DescriptorPrototype::CombinedImageSampler, self.totals[1]));
        r
    }
}

/// The bindings of a descriptor set's layout: those of its first variant (none if it has none).
pub open spec fn layout_bindings(variants: Seq<Seq<DescriptorPrototype>>) -> Seq<DescriptorPrototype> {
    if variants.len() == 0 {
        Seq::empty()
    } else {
        variants[0]
    }
}

/// How many items of `kind` a sequence of kinds holds.
pub open spec fn count_kind(items: Seq<DescriptorPrototype>, kind: DescriptorPrototype) -> int
    decreases items.len(),
{
    if items.len() == 0 {
        0
    } else {
        count_kind(items.drop_last(), kind) + if items.last() == kind { 1int } else { 0int }
    }
}

/// How many descriptors of `kind` the first `n` sets need: for each set, its number of
/// variants times the number of its bindings of that kind.
pub open spec fn kind_total(p: Seq<Seq<Seq<DescriptorPrototype>>>, kind: DescriptorPrototype, n: int) -> int
    decreases n,
{
    if n <= 0 {
        0
    } else {
        kind_total(p, kind, n - 1) + p[n - 1].len() * count_kind(layout_bindings(p[n - 1]), kind)
    }
}

/// How many descriptor sets the first `n` sets need: one per variant.
pub open spec fn sets_total(p: Seq<Seq<Seq<DescriptorPrototype>>>, n: int) -> int
    decreases n,
{
    if n <= 0 {
        0
    } else {
        sets_total(p, n - 1) + p[n - 1].len()
    }
}

/// For each descriptor set to allocate, the number of the layout it uses, set after set.
pub open spec fn layout_requests(p: Seq<Seq<Seq<DescriptorPrototype>>>, n: int) -> Seq<usize>
    decreases n,
{
    if n <= 0 {
        Seq::empty()
    } else {
        layout_requests(p, n - 1) + Seq::new(p[n - 1].len(), |i: int| (n - 1) as usize)
    }
}

/// All variants of all sets, one after the other.
pub open spec fn all_variants(p: Seq<Seq<Seq<DescriptorPrototype>>>, n: int) -> Seq<Seq<DescriptorPrototype>>
    decreases n,
{
    if n <= 0 {
        Seq::empty()
    } else {
        all_variants(p, n - 1) + p[n - 1]
    }
}

/// The descriptor writes for the first `n` of a list of variants: for each item of each variant,
/// the number of the variant's set, the item's binding and its kind.
pub open spec fn variant_writes(variants: Seq<Seq<DescriptorPrototype>>, n: int) -> Seq<(usize, u32, DescriptorPrototype)>
    decreases n,
{
    if n <= 0 {
        Seq::empty()
    } else {
        variant_writes(variants, n - 1) + Seq::new(
            variants[n - 1].len(),
            |i: int| ((n - 1) as usize, i as u32, variants[n - 1][i]),
        )
    }
}

/// What a descriptor pool must hold for a list of descriptor sets, each with its variants.
pub struct DescriptorPoolPlan {
    /// For each set: the kinds of its layout's bindings and its number of variants.
    pub layouts: Vec<(Vec<DescriptorPrototype>, usize)>,
    /// The number of descriptors of each kind that is needed at all.
    pub pool_sizes: Vec<(DescriptorPrototype, u32)>,
    pub total_descriptor_sets: u32,
    /// For each set to allocate, which layout it uses.
    pub request_layouts: Vec<usize>,
    /// For each descriptor to write: its set, its binding and its kind.
    pub writes: Vec<(usize, u32, DescriptorPrototype)>,
}

/// The pool sizes: the totals of the kinds that are needed at all.
pub open spec fn pool_sizes_spec(p: Seq<Seq<Seq<DescriptorPrototype>>>) -> Seq<(DescriptorPrototype, u32)> {
    let s = kind_total(p, DescriptorPrototype::StorageImage, p.len() as int);
    let c = kind_total(p, DescriptorPrototype::CombinedImageSampler, p.len() as int);
    let first = if s == 0 {
        Seq::empty()
    } else {
        seq![(DescriptorPrototype::StorageImage, s as u32)]
    };
    if c == 0 {
        first
    } else {
        first.push((DescriptorPrototype::CombinedImageSampler, c as u32))
    }
}

/// Whether the counts of a pool fit in the `u32`s that Vulkan takes.
pub open spec fn pool_fits(p: Seq<Seq<Seq<DescriptorPrototype>>>) -> bool {
    &&& sets_total(p, p.len() as int) <= u32::MAX
    &&& kind_total(p, DescriptorPrototype::StorageImage, p.len() as int) <= u32::MAX
    &&& kind_total(p, DescriptorPrototype::CombinedImageSampler, p.len() as int) <= u32::MAX
}

proof fn lemma_count_kind_prefix(items: Seq<DescriptorPrototype>, kind: DescriptorPrototype, i: int)
    requires
        0 <= i < items.len(),
    ensures
        count_kind(items.take(i + 1), kind) == count_kind(items.take(i), kind) + if items[i]
            == kind {
            1int
        } else {
            0int
        },
        0 <= count_kind(items.take(i), kind) <= count_kind(items.take(i + 1), kind),
{
    assert(items.take(i + 1).drop_last() =~= items.take(i));
    lemma_count_kind_nonneg(items.take(i), kind);
}

proof fn lemma_count_kind_nonneg(items: Seq<DescriptorPrototype>, kind: DescriptorPrototype)
    ensures
        0 <= count_kind(items, kind) <= items.len(),
    decreases items.len(),
{
    if items.len() > 0 {
        lemma_count_kind_nonneg(items.drop_last(), kind);
    }
}

proof fn lemma_totals_nonneg(p: Seq<Seq<Seq<DescriptorPrototype>>>, kind: DescriptorPrototype, n: int)
    requires
        0 <= n <= p.len(),
    ensures
        0 <= kind_total(p, kind, n),
        0 <= sets_total(p, n),
    decreases n,
{
    if n > 0 {
        lemma_totals_nonneg(p, kind, n - 1);
        let l = p[n - 1].len() as int;
        let c = count_kind(layout_bindings(p[n - 1]), kind);
        lemma_count_kind_nonneg(layout_bindings(p[n - 1]), kind);
        assert(0 <= l * c) by (nonlinear_arith)
            requires l >= 0, c >= 0;
    }
}

proof fn lemma_totals_grow(p: Seq<Seq<Seq<DescriptorPrototype>>>, kind: DescriptorPrototype, n: int, m: int)
    requires
        0 <= n <= m <= p.len(),
    ensures
        0 <= kind_total(p, kind, n) <= kind_total(p, kind, m),
        0 <= sets_total(p, n) <= sets_total(p, m),
    decreases m - n,
{
    lemma_totals_nonneg(p, kind, n);
    if n < m {
        lemma_totals_grow(p, kind, n, m - 1);
        let l = p[m - 1].len() as int;
        let c = count_kind(layout_bindings(p[m - 1]), kind);
        lemma_count_kind_nonneg(layout_bindings(p[m - 1]), kind);
        assert(0 <= l * c) by (nonlinear_arith)
            requires l >= 0, c >= 0;
    }
}

/// The bindings of a descriptor set's layout, taken from its first variant.
fn first_variant(variants: &Vec<Vec<DescriptorPrototype>>) -> (r: Vec<DescriptorPrototype>)
    ensures
        r@ == layout_bindings(variants@.map_values(|v: Vec<DescriptorPrototype>| v@)),
{
    let mut r: Vec<DescriptorPrototype> = Vec::new();
    if variants.len() == 0 {
        // If there are no variants, then just make an empty layout.
        return r;
    }
    let mut i: usize = 0;
    while i < variants[0].len()
        invariant
            variants@.len() > 0,
            i <= variants@[0]@.len(),
            r@ == variants@[0]@.take(i as int),
        decreases variants@[0]@.len() - i,
    {
        r.push(variants[0][i]);
        i = i + 1;
        proof {
            assert(r@ =~= variants@[0]@.take(i as int));
        }
    }
    proof {
        assert(r@ =~= variants@[0]@);
    }
    r
}

/// Works out what a descriptor pool must hold for the given descriptor sets: the layout of each
/// set (the bindings of its first variant, as the variants are meant to match), the number of
/// descriptors of each kind that is needed at all, one descriptor set per variant, and a write
/// for every item of every variant.
pub fn generate_descriptor_pool(prototypes: &Vec<Vec<Vec<DescriptorPrototype>>>) -> (r: DescriptorPoolPlan)
    requires
        pool_fits(prototypes_view(prototypes)),
    ensures
        ({
            let p = prototypes_view(prototypes);
            let n = p.len() as int;
            &&& r.layouts@.len() == n
            &&& forall|g: int|
                0 <= g < n ==> (#[trigger] r.layouts@[g]).0@ == layout_bindings(p[g])
                    && r.layouts@[g].1 == p[g].len()
            &&& r.pool_sizes@ == pool_sizes_spec(p)
            &&& r.total_descriptor_sets == sets_total(p, n)
            &&& r.request_layouts@ == layout_requests(p, n)
            &&& r.writes@ == variant_writes(all_variants(p, n), all_variants(p, n).len() as int)
        }),
{
    let ghost p = prototypes_view(prototypes);
    let ghost n = p.len() as int;
    let mut counter = DescriptorTypeAccumulator::new();
    let mut total_descriptor_sets: u32 = 0;
    let mut layouts: Vec<(Vec<DescriptorPrototype>, usize)> = Vec::new();
    let mut g: usize = 0;
    while g < prototypes.len()
        invariant
            p == prototypes_view(prototypes),
            n == p.len(),
            pool_fits(p),
            g <= n,
            counter.counts().len() == 2,
            counter.counts()[0] == kind_total(p, DescriptorPrototype::StorageImage, g as int),
            counter.counts()[1] == kind_total(p, DescriptorPrototype::CombinedImageSampler, g as int),
            total_descriptor_sets == sets_total(p, g as int),
            layouts@.len() == g,
            forall|h: int|
                0 <= h < g ==> (#[trigger] layouts@[h]).0@ == layout_bindings(p[h])
                    && layouts@[h].1 == p[h].len(),
        decreases n - g,
    {
        let variants = &prototypes[g];
        proof {
            lemma_totals_grow(p, DescriptorPrototype::StorageImage, g + 1, n);
            lemma_totals_grow(p, DescriptorPrototype::CombinedImageSampler, g + 1, n);
            assert(p[g as int] == variants@.map_values(|v: Vec<DescriptorPrototype>| v@));
        }
        total_descriptor_sets = total_descriptor_sets + variants.len() as u32;
        let arbitrary_variant = first_variant(variants);
        let quantity = variants.len() as u32;
        let ghost len = variants@.len() as int;
        let ghost bindings = arbitrary_variant@;
        let mut i: usize = 0;
        while i < arbitrary_variant.len()
            invariant
                p == prototypes_view(prototypes),
                0 <= g < n,
                n == p.len(),
                pool_fits(p),
                len == p[g as int].len(),
                quantity == len,
                bindings == layout_bindings(p[g as int]),
                bindings == arbitrary_variant@,
                i <= bindings.len(),
                counter.counts().len() == 2,
                kind_total(p, DescriptorPrototype::StorageImage, g + 1) <= u32::MAX,
                kind_total(p, DescriptorPrototype::CombinedImageSampler, g + 1) <= u32::MAX,
                counter.counts()[0] == kind_total(p, DescriptorPrototype::StorageImage, g as int) + len
                    * count_kind(bindings.take(i as int), DescriptorPrototype::StorageImage),
                counter.counts()[1] == kind_total(p, DescriptorPrototype::CombinedImageSampler, g as int)
                    + len * count_kind(bindings.take(i as int), DescriptorPrototype::CombinedImageSampler),
            decreases bindings.len() - i,
        {
            let item = arbitrary_variant[i];
            proof {
                lemma_count_kind_prefix(bindings, DescriptorPrototype::StorageImage, i as int);
                lemma_count_kind_prefix(bindings, DescriptorPrototype::CombinedImageSampler, i as int);
                assert(bindings.take(bindings.len() as int) =~= bindings);
                lemma_prefix_le_total(bindings, DescriptorPrototype::StorageImage, i + 1);
                lemma_prefix_le_total(bindings, DescriptorPrototype::CombinedImageSampler, i + 1);
                let a = count_kind(bindings.take(i as int), DescriptorPrototype::StorageImage);
                let b = count_kind(bindings.take(i as int), DescriptorPrototype::CombinedImageSampler);
                let a1 = count_kind(bindings.take(i + 1), DescriptorPrototype::StorageImage);
                let b1 = count_kind(bindings.take(i + 1), DescriptorPrototype::CombinedImageSampler);
                let ta = count_kind(bindings, DescriptorPrototype::StorageImage);
                let tb = count_kind(bindings, DescriptorPrototype::CombinedImageSampler);
                assert(len * a1 <= len * ta && len * b1 <= len * tb) by (nonlinear_arith)
                    requires len >= 0, a1 <= ta, b1 <= tb;
                assert(a1 == a + 1 ==> len * a1 == len * a + len) by (nonlinear_arith);
                assert(b1 == b + 1 ==> len * b1 == len * b + len) by (nonlinear_arith);
                assert(bindings[i as int] == item);
                assert(kind_total(p, DescriptorPrototype::StorageImage, g + 1) == kind_total(
                    p,
                    DescriptorPrototype::StorageImage,
                    g as int,
                ) + len * ta);
                assert(kind_total(p, DescriptorPrototype::CombinedImageSampler, g + 1) == kind_total(
                    p,
                    DescriptorPrototype::CombinedImageSampler,
                    g as int,
                ) + len * tb);
            }
            counter.increment(item, quantity);
            i = i + 1;
        }
        proof {
            assert(bindings.take(i as int) =~= bindings);
        }
        layouts.push((arbitrary_variant, variants.len()));
        g = g + 1;
    }
    let mut pool_sizes: Vec<(DescriptorPrototype, u32)> = Vec::new();
    let totals = counter.all_totals();
    let mut t: usize = 0;
    while t < 2
        invariant
            totals@ == seq![
                (DescriptorPrototype::StorageImage, kind_total(p, DescriptorPrototype::StorageImage, n) as u32),
                (
                    DescriptorPrototype::CombinedImageSampler,
                    kind_total(p, DescriptorPrototype::CombinedImageSampler, n) as u32,
                ),
            ],
            t <= 2,
            pool_sizes@ == pool_sizes_prefix(totals@, t as int),
        decreases 2 - t,
    {
        let (typ, total) = totals[t];
        if total != 0 {
            // Don't bother specifying that we need none of a particular type.
            pool_sizes.push((typ, total));
        }
        t = t + 1;
    }
    proof {
        reveal_with_fuel(pool_sizes_prefix, 3);
        assert(pool_sizes@ =~= pool_sizes_spec(p));
    }
    let mut request_layouts: Vec<usize> = Vec::new();
    let mut g: usize = 0;
    while g < layouts.len()
        invariant
            p == prototypes_view(prototypes),
            n == p.len(),
            layouts@.len() == n,
            forall|h: int|
                0 <= h < n ==> (#[trigger] layouts@[h]).0@ == layout_bindings(p[h])
                    && layouts@[h].1 == p[h].len(),
            g <= n,
            request_layouts@ == layout_requests(p, g as int),
        decreases n - g,
    {
        let quantity = layouts[g].1;
        let mut q: usize = 0;
        while q < quantity
            invariant
                0 <= g < n,
                n == p.len(),
                quantity == p[g as int].len(),
                q <= quantity,
                request_layouts@ == layout_requests(p, g as int) + Seq::new(
                    q as nat,
                    |i: int| g as usize,
                ),
            decreases quantity - q,
        {
            request_layouts.push(g);
            q = q + 1;
            proof {
                assert(request_layouts@ =~= layout_requests(p, g as int) + Seq::new(
                    q as nat,
                    |i: int| g as usize,
                ));
            }
        }
        g = g + 1;
        proof {
            assert(request_layouts@ =~= layout_requests(p, g as int));
        }
    }
    let mut writes: Vec<(usize, u32, DescriptorPrototype)> = Vec::new();
    let mut variant_index: usize = 0;
    let mut g: usize = 0;
    while g < prototypes.len()
        invariant
            p == prototypes_view(prototypes),
            n == p.len(),
            g <= n,
            variant_index == all_variants(p, g as int).len(),
            variant_index <= sets_total(p, g as int),
            sets_total(p, n) <= u32::MAX,
            writes@ == variant_writes(all_variants(p, g as int), variant_index as int),
        decreases n - g,
    {
        let variants = &prototypes[g];
        let ghost before = all_variants(p, g as int);
        proof {
            assert(p[g as int] == variants@.map_values(|v: Vec<DescriptorPrototype>| v@));
            lemma_all_variants_len(p, g + 1);
            lemma_totals_grow(p, DescriptorPrototype::StorageImage, g + 1, n);
            lemma_variant_writes_extend(before, p[g as int], before.len() as int);
        }
        let mut v: usize = 0;
        while v < variants.len()
            invariant
                p == prototypes_view(prototypes),
                0 <= g < n,
                n == p.len(),
                p[g as int] == variants@.map_values(|v: Vec<DescriptorPrototype>| v@),
                before == all_variants(p, g as int),
                v <= variants@.len(),
                variant_index == before.len() + v,
                before.len() + variants@.len() <= u32::MAX,
                writes@ == variant_writes(before + p[g as int], variant_index as int),
            decreases variants@.len() - v,
        {
            let variant = &variants[v];
            let ghost all = before + p[g as int];
            let ghost prev = writes@;
            let mut item_index: usize = 0;
            while item_index < variant.len()
                invariant
                    0 <= g < n,
                    n == p.len(),
                    all == before + p[g as int],
                    p[g as int] == variants@.map_values(|v: Vec<DescriptorPrototype>| v@),
                    v < variants@.len(),
                    *variant == variants@[v as int],
                    variant_index == before.len() + v,
                    item_index <= variant@.len(),
                    prev == variant_writes(all, variant_index as int),
                    writes@ == prev + Seq::new(
                        item_index as nat,
                        |i: int| (variant_index, i as u32, all[variant_index as int][i]),
                    ),
                decreases variant@.len() - item_index,
            {
                writes.push((variant_index, item_index as u32, variant[item_index]));
                item_index = item_index + 1;
                proof {
                    assert(all[variant_index as int] == variant@);
                    assert(writes@ =~= prev + Seq::new(
                        item_index as nat,
                        |i: int| (variant_index, i as u32, all[variant_index as int][i]),
                    ));
                }
            }
            proof {
                assert(all[variant_index as int] == variant@);
                assert(writes@ =~= variant_writes(all, variant_index + 1));
            }
            variant_index = variant_index + 1;
            v = v + 1;
        }
        proof {
            assert(all_variants(p, g + 1) == before + p[g as int]);
        }
        g = g + 1;
    }
    DescriptorPoolPlan {
        layouts,
        pool_sizes,
        total_descriptor_sets,
        request_layouts,
        writes,
    }
}

/// The pool sizes among the first `t` totals that are not zero.
spec fn pool_sizes_prefix(totals: Seq<(DescriptorPrototype, u32)>, t: int) -> Seq<(DescriptorPrototype, u32)>
    decreases t,
{
    if t <= 0 {
        Seq::empty()
    } else if totals[t - 1].1 == 0 {
        pool_sizes_prefix(totals, t - 1)
    } else {
        pool_sizes_prefix(totals, t - 1).push(totals[t - 1])
    }
}

proof fn lemma_prefix_le_total(items: Seq<DescriptorPrototype>, kind: DescriptorPrototype, i: int)
    requires
        0 <= i <= items.len(),
    ensures
        count_kind(items.take(i), kind) <= count_kind(items, kind),
    decreases items.len() - i,
{
    if i < items.len() {
        lemma_count_kind_prefix(items, kind, i);
        lemma_prefix_le_total(items, kind, i + 1);
    } else {
        assert(items.take(i) =~= items);
    }
}

proof fn lemma_all_variants_len(p: Seq<Seq<Seq<DescriptorPrototype>>>, n: int)
    requires
        0 <= n <= p.len(),
    ensures
        all_variants(p, n).len() == sets_total(p, n),
    decreases n,
{
    if n > 0 {
        lemma_all_variants_len(p, n - 1);
    }
}

/// The writes for a prefix of a list of variants do not depend on the variants after it.
proof fn lemma_variant_writes_extend(
    a: Seq<Seq<DescriptorPrototype>>,
    b: Seq<Seq<DescriptorPrototype>>,
    n: int,
)
    requires
        0 <= n <= a.len(),
    ensures
        variant_writes(a, n) == variant_writes(a + b, n),
    decreases n,
{
    if n > 0 {
        lemma_variant_writes_extend(a, b, n - 1);
        assert((a + b)[n - 1] == a[n - 1]);
    }
}

} // verus!
