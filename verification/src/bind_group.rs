//! Planning a bind group before a dispatch or draw: the used bindings in binding-number
//! order, how each appears in the bind group layout, the resource bound to it, and the
//! uniforms whose dynamic offsets are passed, in that order.
use crate::reflect::{BindingInfo, BindingKind, TextureFormat};
use std::collections::HashMap;
use vstd::prelude::*;

verus! {

/// The binding number of the `k`-th used binding.
pub open spec fn key_at(used: Seq<usize>, bindings: Seq<BindingInfo>, k: int) -> u32 {
    bindings[used[k] as int].binding
}

/// `order` lists every position of `used` once, ascending by binding number and, among equal
/// binding numbers, by position (the order a stable sort by binding number gives).
pub open spec fn is_binding_order(order: Seq<usize>, used: Seq<usize>, bindings: Seq<BindingInfo>) -> bool {
    &&& order.len() == used.len()
    &&& forall|a: int| 0 <= a < order.len() ==> #[trigger] order[a] < used.len()
    &&& forall|a: int, b: int|
        0 <= a < b < order.len() ==> {
            ||| key_at(used, bindings, order[a] as int) < key_at(used, bindings, order[b] as int)
            ||| key_at(used, bindings, order[a] as int) == key_at(used, bindings, order[b] as int)
                && order[a] < order[b]
        }
}

/// Every position listed is in range and the list is ordered, for the first `n` positions.
pub open spec fn is_partial_order_of(order: Seq<usize>, used: Seq<usize>, bindings: Seq<BindingInfo>, n: int) -> bool {
    &&& forall|a: int| 0 <= a < order.len() ==> #[trigger] order[a] < n
    &&& forall|a: int, b: int|
        0 <= a < b < order.len() ==> {
            ||| key_at(used, bindings, order[a] as int) < key_at(used, bindings, order[b] as int)
            ||| key_at(used, bindings, order[a] as int) == key_at(used, bindings, order[b] as int)
                && order[a] < order[b]
        }
}

/// The positions `0 .. used.len()` sorted by binding number (stable).
pub fn binding_order(used: &[usize], bindings: &[BindingInfo]) -> (order: Vec<usize>)
    requires
        forall|k: int| 0 <= k < used@.len() ==> #[trigger] used@[k] < bindings@.len(),
    ensures
        is_binding_order(order@, used@, bindings@),
{
    let mut order: Vec<usize> = Vec::new();
    let mut i: usize = 0;
    while i < used.len()
        invariant
            i <= used@.len(),
            order@.len() == i,
            forall|k: int| 0 <= k < used@.len() ==> #[trigger] used@[k] < bindings@.len(),
            is_partial_order_of(order@, used@, bindings@, i as int),
        decreases used@.len() - i,
    {
        let key = bindings[used[i]].binding;
        let mut p: usize = order.len();
        while p > 0 && bindings[used[order[p - 1]]].binding > key
            invariant
                p <= order@.len(),
                order@.len() == i,
                i < used@.len(),
                key == key_at(used@, bindings@, i as int),
                forall|k: int| 0 <= k < used@.len() ==> #[trigger] used@[k] < bindings@.len(),
                is_partial_order_of(order@, used@, bindings@, i as int),
                forall|a: int| p <= a < order@.len() ==> key_at(used@, bindings@, #[trigger] order@[a] as int) > key,
            decreases p,
        {
            p -= 1;
        }
        let ghost before = order@;
        proof {
            assert forall|a: int| 0 <= a < p implies key_at(used@, bindings@, #[trigger] before[a] as int) <= key by {
                if a < p - 1 {
                    assert(key_at(used@, bindings@, before[a] as int) <= key_at(used@, bindings@, before[p - 1] as int));
                }
            }
        }
        order.insert(p, i);
        assert(order@ == before.insert(p as int, i));
        assert forall|a: int, b: int| 0 <= a < b < order@.len() implies {
            ||| key_at(used@, bindings@, order@[a] as int) < key_at(used@, bindings@, order@[b] as int)
            ||| key_at(used@, bindings@, order@[a] as int) == key_at(used@, bindings@, order@[b] as int)
                && order@[a] < order@[b]
        } by {
            if a < p && b < p {
                assert(order@[a] == before[a] && order@[b] == before[b]);
            } else if a < p && b == p {
                assert(order@[a] == before[a]);
            } else if a < p && b > p {
                assert(order@[a] == before[a] && order@[b] == before[b - 1]);
            } else if a == p {
                assert(order@[b] == before[b - 1]);
            } else {
                assert(order@[a] == before[a - 1] && order@[b] == before[b - 1]);
            }
        }
        i += 1;
    }
    order
}

/// How one binding appears in a bind group layout.
#[derive(PartialEq, Eq, Structural, Clone, Copy, Debug)]
pub enum SlotKind {
    /// A uniform buffer with a dynamic offset, at least `min_size` bytes long.
    Uniform { min_size: u32 },
    Storage { read_only: bool },
    StorageTexture { format: TextureFormat, write_only: bool },
    /// A sampled texture: filterable unless it holds 32-bit floats on a GPU that cannot
    /// filter those; a cube view when the bound texture is a cube.
    SampledTexture { filterable: bool, cube: bool },
    Sampler,
}

/// One entry of a bind group.
#[derive(PartialEq, Eq, Structural, Clone, Copy, Debug)]
pub struct PlanEntry {
    /// Its position in the `used` list passed in (where the caller keeps its visibility).
    pub position: usize,
    pub binding: u32,
    pub kind: SlotKind,
    /// The resource bound to it; a sampler has none (the shared sampler is supplied).
    pub resource: Option<u64>,
}

/// A bind group to create: its entries in binding-number order, and the uniforms among
/// them, in the same order (the order of their dynamic offsets).
#[derive(Debug)]
pub struct BindGroupPlan {
    pub entries: Vec<PlanEntry>,
    pub uniform_resources: Vec<u64>,
}

/// The 32-bit float formats, which only some GPUs can filter.
pub open spec fn is_float32(format: TextureFormat) -> bool {
    format == TextureFormat::Rgba32Float || format == TextureFormat::R32Float || format
        == TextureFormat::Rg32Float
}

/// How a binding appears in the layout; `texture` is the format and cubeness of the
/// resource bound to it when that is a texture.
pub open spec fn slot_spec(b: BindingInfo, texture: Option<(TextureFormat, bool)>, float32_filterable: bool) -> Result<SlotKind, Seq<char>> {
    match b.kind {
        BindingKind::Uniform { layout } => Ok(SlotKind::Uniform { min_size: layout.size }),
        BindingKind::Storage { read_only, .. } => Ok(SlotKind::Storage { read_only }),
        BindingKind::StorageTexture { format, write_only } => Ok(SlotKind::StorageTexture { format, write_only }),
        BindingKind::SampledTexture { .. } => match texture {
            None => Err("'"@ + b.name@ + "' に texture 以外が bind されています"@),
            Some((format, cube)) => Ok(SlotKind::SampledTexture { filterable: !is_float32(format) || float32_filterable, cube }),
        },
        BindingKind::Sampler => Ok(SlotKind::Sampler),
    }
}

/// The entries for the first `n` positions of `order`, or the first one's error.
pub open spec fn plan_entries(
    order: Seq<usize>,
    used: Seq<usize>,
    bindings: Seq<BindingInfo>,
    bound: Map<u32, u64>,
    textures: Seq<Option<(TextureFormat, bool)>>,
    float32_filterable: bool,
    n: int,
) -> Result<Seq<PlanEntry>, Seq<char>>
    decreases n,
{
    if n <= 0 {
        Ok(Seq::empty())
    } else {
        match plan_entries(order, used, bindings, bound, textures, float32_filterable, n - 1) {
            Err(e) => Err(e),
            Ok(prev) => {
                let k = order[n - 1];
                let b = bindings[used[k as int] as int];
                match slot_spec(b, textures[k as int], float32_filterable) {
                    Err(e) => Err(e),
                    Ok(kind) => Ok(prev.push(PlanEntry {
                        position: k,
                        binding: b.binding,
                        kind,
                        resource: if kind is Sampler { None } else { Some(bound[b.binding]) },
                    })),
                }
            },
        }
    }
}

/// The resources of the uniform entries, in order.
pub open spec fn uniform_resources(entries: Seq<PlanEntry>) -> Seq<u64>
    decreases entries.len(),
{
    if entries.len() == 0 {
        Seq::empty()
    } else {
        let prev = uniform_resources(entries.drop_last());
        match entries.last().kind {
            SlotKind::Uniform { .. } => prev.push(entries.last().resource.unwrap()),
            _ => prev,
        }
    }
}

fn slot_of(b: &BindingInfo, texture: Option<(TextureFormat, bool)>, float32_filterable: bool) -> (r: Result<SlotKind, String>)
    ensures
        crate::engine::text_result(r) == slot_spec(*b, texture, float32_filterable),
{
    match &b.kind {
        BindingKind::Uniform { layout } => Ok(SlotKind::Uniform { min_size: layout.size }),
        BindingKind::Storage { read_only, .. } => Ok(SlotKind::Storage { read_only: *read_only }),
        BindingKind::StorageTexture { format, write_only } => Ok(SlotKind::StorageTexture { format: *format, write_only: *write_only }),
        BindingKind::SampledTexture { .. } => match texture {
            None => {
                let mut m = String::from_str("'");
                m.append(b.name.as_str());
                m.append("' に texture 以外が bind されています");
                Err(m)
            },
            Some((format, cube)) => {
                let float32 = match format {
                    TextureFormat::Rgba32Float | TextureFormat::R32Float | TextureFormat::Rg32Float => true,
                    _ => false,
                };
                Ok(SlotKind::SampledTexture { filterable: !float32 || float32_filterable, cube })
            },
        },
        BindingKind::Sampler => Ok(SlotKind::Sampler),
    }
}

/// Once an entry fails, every longer prefix of the order fails the same way.
proof fn lemma_plan_error_sticks(
    order: Seq<usize>,
    used: Seq<usize>,
    bindings: Seq<BindingInfo>,
    bound: Map<u32, u64>,
    textures: Seq<Option<(TextureFormat, bool)>>,
    f: bool,
    k: int,
    n: int,
)
    requires
        0 <= k <= n,
        plan_entries(order, used, bindings, bound, textures, f, k) is Err,
    ensures
        plan_entries(order, used, bindings, bound, textures, f, n) == plan_entries(order, used, bindings, bound, textures, f, k),
    decreases n - k,
{
    if n > k {
        lemma_plan_error_sticks(order, used, bindings, bound, textures, f, k, n - 1);
    }
}

/// The bind group for the bindings an entry point (or a vertex/fragment pair) uses:
/// `used` lists them as positions in `bindings`, `bound` maps binding numbers to the
/// resources set, and `textures[k]` is the format and cubeness of the resource bound to the
/// `k`-th used binding when that is a texture. Every used binding but a sampler must be
/// bound (as the completeness check before a dispatch or draw ensures).
pub fn bind_group_plan(
    used: &[usize],
    bindings: &[BindingInfo],
    bound: &HashMap<u32, u64>,
    textures: &[Option<(TextureFormat, bool)>],
    float32_filterable: bool,
) -> (r: Result<BindGroupPlan, String>)
    requires
        forall|k: int| 0 <= k < used@.len() ==> #[trigger] used@[k] < bindings@.len(),
        textures@.len() == used@.len(),
        forall|k: int|
            0 <= k < used@.len() && !(bindings@[#[trigger] used@[k] as int].kind is Sampler)
                ==> bound@.contains_key(bindings@[used@[k] as int].binding),
    ensures
        exists|order: Seq<usize>|
            {
                &&& is_binding_order(order, used@, bindings@)
                &&& match plan_entries(order, used@, bindings@, bound@, textures@, float32_filterable, order.len() as int) {
                    Ok(entries) => r matches Ok(p) && p.entries@ == entries && p.uniform_resources@ == uniform_resources(entries),
                    Err(e) => r matches Err(m) && m@ == e,
                }
            },
{
    broadcast use vstd::std_specs::hash::group_hash_axioms;

    let order = binding_order(used, bindings);
    let mut entries: Vec<PlanEntry> = Vec::new();
    let mut uniforms: Vec<u64> = Vec::new();
    let mut i: usize = 0;
    while i < order.len()
        invariant
            i <= order@.len(),
            is_binding_order(order@, used@, bindings@),
            forall|k: int| 0 <= k < used@.len() ==> #[trigger] used@[k] < bindings@.len(),
            textures@.len() == used@.len(),
            forall|k: int|
                0 <= k < used@.len() && !(bindings@[#[trigger] used@[k] as int].kind is Sampler)
                    ==> bound@.contains_key(bindings@[used@[k] as int].binding),
            plan_entries(order@, used@, bindings@, bound@, textures@, float32_filterable, i as int)
                == Ok::<Seq<PlanEntry>, Seq<char>>(entries@),
            uniforms@ == uniform_resources(entries@),
        decreases order@.len() - i,
    {
        let k = order[i];
        let b = &bindings[used[k]];
        match slot_of(b, textures[k], float32_filterable) {
            Err(e) => {
                proof {
                    lemma_plan_error_sticks(order@, used@, bindings@, bound@, textures@, float32_filterable, i + 1, order@.len() as int);
                }
                return Err(e);
            },
            Ok(kind) => {
                let resource = match kind {
                    SlotKind::Sampler => None,
                    _ => {
                        assert(bound@.contains_key(b.binding));
                        match bound.get(&b.binding) {
                            Some(r) => Some(*r),
                            None => None,
                        }
                    },
                };
                let entry = PlanEntry { position: k, binding: b.binding, kind, resource };
                let ghost before = entries@;
                entries.push(entry);
                assert(entries@.drop_last() == before);
                if let SlotKind::Uniform { .. } = kind {
                    if let Some(r) = resource {
                        uniforms.push(r);
                    }
                }
            },
        }
        i += 1;
    }
    Ok(BindGroupPlan { entries, uniform_resources: uniforms })
}

/// Each planned entry is laid out as its binding declares: it is the `j`-th position of the
/// order with that binding's number; a uniform binding becomes a uniform slot of the uniform
/// struct's size; a storage binding a storage slot with the binding's own read-only flag (a
/// buffer the shader writes is laid out writable); a storage texture a slot of its format and
/// access; a sampled texture a slot of the bound texture's cubeness; a sampler a sampler slot
/// with no resource; every other entry carries the resource bound to its binding number.
pub proof fn lemma_plan_entries_follow_bindings(
    order: Seq<usize>,
    used: Seq<usize>,
    bindings: Seq<BindingInfo>,
    bound: Map<u32, u64>,
    textures: Seq<Option<(TextureFormat, bool)>>,
    f: bool,
    n: int,
)
    requires
        0 <= n,
    ensures
        plan_entries(order, used, bindings, bound, textures, f, n) matches Ok(entries) ==> {
            &&& entries.len() == n
            &&& forall|j: int|
                #![trigger entries[j]]
                0 <= j < n ==> {
                    let k = order[j];
                    let b = bindings[used[k as int] as int];
                    &&& entries[j].position == k
                    &&& entries[j].binding == b.binding
                    &&& (b.kind matches BindingKind::Uniform { layout } ==> entries[j].kind
                        == SlotKind::Uniform { min_size: layout.size })
                    &&& (b.kind matches BindingKind::Storage { read_only, .. } ==> entries[j].kind
                        == SlotKind::Storage { read_only })
                    &&& (b.kind matches BindingKind::StorageTexture { format, write_only }
                        ==> entries[j].kind == SlotKind::StorageTexture { format, write_only })
                    &&& (b.kind is SampledTexture ==> (textures[k as int] matches Some((fmt, cube))
                        && entries[j].kind matches SlotKind::SampledTexture { cube: c, .. } && c == cube))
                    &&& (b.kind is Sampler ==> entries[j].kind is Sampler && entries[j].resource is None)
                    &&& (!(b.kind is Sampler) ==> entries[j].resource == Some(bound[b.binding]))
                }
        },
    decreases n,
{
    if n > 0 {
        lemma_plan_entries_follow_bindings(order, used, bindings, bound, textures, f, n - 1);
        if plan_entries(order, used, bindings, bound, textures, f, n) is Ok {
            let entries = plan_entries(order, used, bindings, bound, textures, f, n)->Ok_0;
            let prev = plan_entries(order, used, bindings, bound, textures, f, n - 1)->Ok_0;
            assert forall|j: int| #![trigger entries[j]] 0 <= j < n - 1 implies entries[j] == prev[j] by {}
        }
    }
}

} // verus!
