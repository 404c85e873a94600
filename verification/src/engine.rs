//! The checks that stand between the host program's calls and the GPU: binding a
//! resource by name, completeness before a dispatch or draw, pairing vertex and fragment
//! entry points, and writing a struct member by name.
use crate::names::{
    demangle, demangled, lemma_resolution_in_range, resolution, resolve_name, suggest, suggestion,
};
use crate::reflect::{
    format_name, EntryInfo, uses_in_range, BindingInfo, BindingKind, MemberKind, RenderEntry, ShaderInfo,
    ShaderStage, StructLayout, TextureFormat,
};
use crate::text::{decimal, join, joined, push_decimal, texts};
use std::collections::HashMap;
use vstd::prelude::*;

verus! {

/// What the host program passes to `set(name, resource)`: only what the check needs.
#[derive(PartialEq, Eq, Structural, Clone, Copy, Debug)]
pub enum ResourceDesc {
    Uniform,
    Buffer,
    Texture { format: TextureFormat, cube: bool },
}

/// The names of the bindings, in order.
pub open spec fn binding_names(bindings: Seq<BindingInfo>) -> Seq<Seq<char>> {
    bindings.map_values(|b: BindingInfo| b.name@)
}

/// Each name with Slang's suffix removed.
pub open spec fn demangled_all(names: Seq<Seq<char>>) -> Seq<Seq<char>> {
    names.map_values(|n: Seq<char>| demangled(n))
}

/// How a binding kind is described when the wrong resource is passed for it.
pub open spec fn kind_description(kind: BindingKind) -> Seq<char> {
    match kind {
        BindingKind::Uniform { .. } => "uniform（GpuUniform を渡してください）"@,
        BindingKind::Storage { .. } => "storage buffer（GpuBuffer を渡してください）"@,
        BindingKind::StorageTexture { .. } => "texture（GpuTexture を渡してください）"@,
        BindingKind::SampledTexture { .. } => "texture（GpuTexture を渡してください）"@,
        BindingKind::Sampler => "sampler（自動供給されるため set 不要です）"@,
    }
}

/// Whether `res` may be bound to `target`, and the binding number if so.
pub open spec fn kind_match(target: BindingInfo, name: Seq<char>, res: ResourceDesc) -> Result<
    u32,
    Seq<char>,
> {
    match (target.kind, res) {
        (BindingKind::Uniform { .. }, ResourceDesc::Uniform) => Ok(target.binding),
        (BindingKind::Storage { .. }, ResourceDesc::Buffer) => Ok(target.binding),
        (
            BindingKind::StorageTexture { format, .. },
            ResourceDesc::Texture { format: have, .. },
        ) => if format == have {
            Ok(target.binding)
        } else {
            Err(
                "'"@ + name + "' のフォーマットが合いません: WGSL は "@ + format_name(format)
                    + "、渡されたテクスチャは "@ + format_name(have),
            )
        },
        (BindingKind::SampledTexture { cube }, ResourceDesc::Texture { cube: have, .. }) => if cube
            == have {
            Ok(target.binding)
        } else if cube {
            Err(
                "'"@ + name
                    + "' は texture_cube です（gpu.textureCube で作ったテクスチャを渡してください）"@,
            )
        } else {
            Err("'"@ + name + "' は 2D の texture です（キューブマップは渡せません）"@)
        },
        (kind, _) => Err(
            "'"@ + name + "' の種別が合いません: WGSL 側は "@ + kind_description(kind) + " です"@,
        ),
    }
}

/// The outcome of `set(name, resource)`: the name is resolved (exact, then demangled),
/// an unknown name gets a suggestion among the demangled names, and the resource must
/// suit the binding's kind.
pub open spec fn set_outcome(bindings: Seq<BindingInfo>, name: Seq<char>, res: ResourceDesc) -> Result<
    u32,
    Seq<char>,
> {
    let names = binding_names(bindings);
    match resolution(names, name) {
        Err(Some(m)) => Err(m),
        Err(None) => Err(suggestion(name, demangled_all(names))),
        Ok(i) => kind_match(bindings[i], name, res),
    }
}

/// The view of a `Result<T, String>`.
pub open spec fn text_result<T>(r: Result<T, String>) -> Result<T, Seq<char>> {
    match r {
        Ok(v) => Ok(v),
        Err(e) => Err(e@),
    }
}

fn names_of(bindings: &[BindingInfo]) -> (names: Vec<&str>)
    ensures
        texts(names@) == binding_names(bindings@),
{
    let mut names: Vec<&str> = Vec::new();
    let mut i: usize = 0;
    while i < bindings.len()
        invariant
            i <= bindings@.len(),
            texts(names@) == binding_names(bindings@.subrange(0, i as int)),
        decreases bindings@.len() - i,
    {
        names.push(bindings[i].name.as_str());
        assert(binding_names(bindings@.subrange(0, i + 1)) =~= binding_names(
            bindings@.subrange(0, i as int),
        ).push(bindings@[i as int].name@));
        assert(texts(names@) =~= binding_names(bindings@.subrange(0, i + 1)));
        i += 1;
    }
    assert(bindings@.subrange(0, bindings@.len() as int) =~= bindings@);
    names
}

fn demangle_all<'a>(names: &Vec<&'a str>) -> (shown: Vec<&'a str>)
    ensures
        texts(shown@) == demangled_all(texts(names@)),
{
    let mut shown: Vec<&str> = Vec::new();
    let mut i: usize = 0;
    while i < names.len()
        invariant
            i <= names@.len(),
            shown@.len() == i,
            texts(shown@) == demangled_all(texts(names@.subrange(0, i as int))),
        decreases names@.len() - i,
    {
        let ghost before = shown@;
        let d = demangle(names[i]);
        shown.push(d);
        proof {
            let pre = texts(names@.subrange(0, i + 1));
            assert(pre =~= texts(names@.subrange(0, i as int)).push(names@[i as int]@));
            assert forall|k: int| 0 <= k < i + 1 implies texts(shown@)[k] == demangled_all(pre)[k] by {
                if k < i {
                    assert(shown@[k] == before[k]);
                    assert(texts(before)[k] == demangled_all(texts(names@.subrange(0, i as int)))[k]);
                }
            }
            assert(texts(shown@) =~= demangled_all(pre));
        }
        i += 1;
    }
    assert(names@.subrange(0, names@.len() as int) =~= names@);
    shown
}

/// The description of a binding kind used in "wrong kind" messages.
pub fn kind_name(kind: &BindingKind) -> (s: &'static str)
    ensures
        s@ == kind_description(*kind),
{
    match kind {
        BindingKind::Uniform { .. } => "uniform（GpuUniform を渡してください）",
        BindingKind::Storage { .. } => "storage buffer（GpuBuffer を渡してください）",
        BindingKind::StorageTexture { .. } => "texture（GpuTexture を渡してください）",
        BindingKind::SampledTexture { .. } => "texture（GpuTexture を渡してください）",
        BindingKind::Sampler => "sampler（自動供給されるため set 不要です）",
    }
}

/// `binding.set(name, resource)`: resolves `name` among the bindings and checks that the
/// resource suits the binding; on success, the WGSL binding number. A binding the entry
/// point does not use may still be set (it is type-checked all the same).
pub fn check_set(bindings: &[BindingInfo], name: &str, res: &ResourceDesc) -> (r: Result<
    u32,
    String,
>)
    ensures
        text_result(r) == set_outcome(bindings@, name@, *res),
{
    let all_names = names_of(bindings);
    let target = match resolve_name(all_names.as_slice(), name) {
        Ok(i) => &bindings[i],
        Err(Some(ambiguous)) => return Err(ambiguous),
        Err(None) => {
            let shown = demangle_all(&all_names);
            return Err(suggest(name, shown.as_slice()));
        },
    };
    match (&target.kind, res) {
        (BindingKind::Uniform { .. }, ResourceDesc::Uniform) => Ok(target.binding),
        (BindingKind::Storage { .. }, ResourceDesc::Buffer) => Ok(target.binding),
        (BindingKind::StorageTexture { format, .. }, ResourceDesc::Texture { format: have, .. }) => {
            if *format == *have {
                Ok(target.binding)
            } else {
                let mut m = String::from_str("'");
                m.append(name);
                m.append("' のフォーマットが合いません: WGSL は ");
                m.append(format.name());
                m.append("、渡されたテクスチャは ");
                m.append(have.name());
                Err(m)
            }
        },
        (BindingKind::SampledTexture { cube }, ResourceDesc::Texture { cube: have, .. }) => {
            if *cube == *have {
                Ok(target.binding)
            } else if *cube {
                let mut m = String::from_str("'");
                m.append(name);
                m.append(
                    "' は texture_cube です（gpu.textureCube で作ったテクスチャを渡してください）",
                );
                Err(m)
            } else {
                let mut m = String::from_str("'");
                m.append(name);
                m.append("' は 2D の texture です（キューブマップは渡せません）");
                Err(m)
            }
        },
        (kind, _) => {
            let mut m = String::from_str("'");
            m.append(name);
            m.append("' の種別が合いません: WGSL 側は ");
            m.append(kind_name(kind));
            m.append(" です");
            Err(m)
        },
    }
}

/// The names, in `used` order, of the used bindings that still lack a resource: samplers
/// are supplied automatically and never count as missing.
pub open spec fn missing_names(used: Seq<usize>, bindings: Seq<BindingInfo>, bound: Map<u32, u64>) -> Seq<
    Seq<char>,
>
    decreases used.len(),
{
    if used.len() == 0 {
        Seq::empty()
    } else {
        let rest = missing_names(used.drop_last(), bindings, bound);
        let b = bindings[used.last() as int];
        if !(b.kind is Sampler) && !bound.contains_key(b.binding) {
            rest.push(b.name@)
        } else {
            rest
        }
    }
}

/// The outcome of the check before a dispatch or draw.
pub open spec fn completeness(
    entry_name: Seq<char>,
    used: Seq<usize>,
    bindings: Seq<BindingInfo>,
    bound: Map<u32, u64>,
) -> Result<(), Seq<char>> {
    let missing = missing_names(used, bindings, bound);
    if missing.len() == 0 {
        Ok(())
    } else {
        Err(
            "'"@ + entry_name + "' の実行に必要な binding が未指定です: "@ + joined(
                missing,
                ", "@,
            ),
        )
    }
}

/// Before a dispatch or draw: every binding the entry point uses, samplers aside, must
/// have a resource. `bound` maps binding numbers to resource ids.
pub fn check_complete(
    entry_name: &str,
    used: &[usize],
    bindings: &[BindingInfo],
    bound: &HashMap<u32, u64>,
) -> (r: Result<(), String>)
    requires
        uses_in_range(used@, bindings@.len() as int),
    ensures
        text_result(r) == completeness(entry_name@, used@, bindings@, bound@),
{
    broadcast use vstd::std_specs::hash::group_hash_axioms;

    let mut missing: Vec<&str> = Vec::new();
    let mut i: usize = 0;
    while i < used.len()
        invariant
            i <= used@.len(),
            uses_in_range(used@, bindings@.len() as int),
            texts(missing@) == missing_names(used@.subrange(0, i as int), bindings@, bound@),
        decreases used@.len() - i,
    {
        let b = &bindings[used[i]];
        let ghost pre = used@.subrange(0, i + 1);
        assert(pre.drop_last() =~= used@.subrange(0, i as int));
        let is_sampler = match b.kind {
            BindingKind::Sampler => true,
            _ => false,
        };
        if !is_sampler && !bound.contains_key(&b.binding) {
            missing.push(b.name.as_str());
            assert(texts(missing@) =~= missing_names(pre, bindings@, bound@));
        }
        i += 1;
    }
    assert(used@.subrange(0, used@.len() as int) =~= used@);
    if missing.len() == 0 {
        Ok(())
    } else {
        let mut m = String::from_str("'");
        m.append(entry_name);
        m.append("' の実行に必要な binding が未指定です: ");
        let listed = join(&missing, ", ");
        m.append(listed.as_str());
        Err(m)
    }
}

/// Which render stages can see a binding.
#[derive(PartialEq, Eq, Structural, Clone, Copy, Debug)]
pub struct Visibility {
    pub vertex: bool,
    pub fragment: bool,
}

/// The first render entry of `stage` named `want`.
pub open spec fn find_entry(entries: Seq<RenderEntry>, stage: ShaderStage, want: Seq<char>) -> Option<
    int,
>
    decreases entries.len(),
{
    if entries.len() == 0 {
        None
    } else {
        match find_entry(entries.drop_last(), stage, want) {
            Some(i) => Some(i),
            None => if entries.last().stage == stage && entries.last().name@ == want {
                Some(entries.len() - 1)
            } else {
                None
            },
        }
    }
}

/// The first compute entry named `want`.
pub open spec fn find_compute_entry(entries: Seq<EntryInfo>, want: Seq<char>) -> Option<int>
    decreases entries.len(),
{
    if entries.len() == 0 {
        None
    } else {
        match find_compute_entry(entries.drop_last(), want) {
            Some(i) => Some(i),
            None => if entries.last().name@ == want {
                Some(entries.len() - 1)
            } else {
                None
            },
        }
    }
}

/// The names of the compute entries, in order.
pub open spec fn compute_names(entries: Seq<EntryInfo>) -> Seq<Seq<char>> {
    entries.map_values(|e: EntryInfo| e.name@)
}

/// `kernel(wgsl, entry)`: the position of the compute entry point named `want`, or the
/// "not found" message naming the closest compute entry point.
pub fn find_kernel_entry(entries: &Vec<EntryInfo>, want: &str) -> (r: Result<usize, String>)
    ensures
        match find_compute_entry(entries@, want@) {
            Some(i) => r == Ok::<usize, String>(i as usize),
            None => r matches Err(m) && m@ == "エントリポイント "@ + suggestion(want@, compute_names(entries@)),
        },
{
    let mut names: Vec<&str> = Vec::new();
    let mut i: usize = 0;
    while i < entries.len()
        invariant
            i <= entries@.len(),
            find_compute_entry(entries@.subrange(0, i as int), want@) is None,
            texts(names@) == compute_names(entries@.subrange(0, i as int)),
        decreases entries@.len() - i,
    {
        let e = &entries[i];
        let ghost pre = entries@.subrange(0, i + 1);
        assert(pre.drop_last() =~= entries@.subrange(0, i as int));
        if crate::text::same_text(e.name.as_str(), want) {
            proof {
                lemma_find_compute_entry_prefix(entries@, want@, i + 1);
            }
            return Ok(i);
        }
        let ghost before = names@;
        names.push(e.name.as_str());
        assert(texts(names@) =~= texts(before).push(e.name@));
        assert(compute_names(pre) =~= compute_names(entries@.subrange(0, i as int)).push(e.name@));
        i += 1;
    }
    assert(entries@.subrange(0, entries@.len() as int) =~= entries@);
    let mut m = String::from_str("エントリポイント ");
    let s = suggest(want, names.as_slice());
    m.append(s.as_str());
    Err(m)
}

proof fn lemma_find_compute_entry_prefix(entries: Seq<EntryInfo>, want: Seq<char>, n: int)
    requires
        0 < n <= entries.len(),
        find_compute_entry(entries.subrange(0, n - 1), want) is None,
        entries[n - 1].name@ == want,
    ensures
        find_compute_entry(entries, want) == Some(n - 1),
    decreases entries.len(),
{
    if entries.len() > n {
        assert(entries.drop_last().subrange(0, n - 1) =~= entries.subrange(0, n - 1));
        lemma_find_compute_entry_prefix(entries.drop_last(), want, n);
    } else {
        assert(entries.drop_last() =~= entries.subrange(0, n - 1));
    }
}

/// The names of the render entries of `stage`, in order.
pub open spec fn stage_names(entries: Seq<RenderEntry>, stage: ShaderStage) -> Seq<Seq<char>>
    decreases entries.len(),
{
    if entries.len() == 0 {
        Seq::empty()
    } else {
        let rest = stage_names(entries.drop_last(), stage);
        if entries.last().stage == stage {
            rest.push(entries.last().name@)
        } else {
            rest
        }
    }
}

/// The position in `used` of the first read-write storage buffer.
pub open spec fn first_read_write(used: Seq<usize>, bindings: Seq<BindingInfo>) -> Option<int>
    decreases used.len(),
{
    if used.len() == 0 {
        None
    } else {
        match first_read_write(used.drop_last(), bindings) {
            Some(k) => Some(k),
            None => if bindings[used.last() as int].kind matches BindingKind::Storage {
                read_only: false,
                ..
            } {
                Some(used.len() - 1)
            } else {
                None
            },
        }
    }
}

/// The first position in `acc` that lists binding `i`.
pub open spec fn position_of(acc: Seq<(usize, Visibility)>, i: usize) -> Option<int>
    decreases acc.len(),
{
    if acc.len() == 0 {
        None
    } else {
        match position_of(acc.drop_last(), i) {
            Some(k) => Some(k),
            None => if acc.last().0 == i {
                Some(acc.len() - 1)
            } else {
                None
            },
        }
    }
}

/// The union of two visibilities.
pub open spec fn union_vis(a: Visibility, b: Visibility) -> Visibility {
    Visibility { vertex: a.vertex || b.vertex, fragment: a.fragment || b.fragment }
}

/// Adds `indices` to `acc` with visibility `vis`: a binding already listed gains `vis`,
/// a new one is appended.
pub open spec fn merged(acc: Seq<(usize, Visibility)>, indices: Seq<usize>, vis: Visibility) -> Seq<
    (usize, Visibility),
>
    decreases indices.len(),
{
    if indices.len() == 0 {
        acc
    } else {
        let before = merged(acc, indices.drop_last(), vis);
        let i = indices.last();
        match position_of(before, i) {
            Some(k) => before.update(k, (i, union_vis(before[k].1, vis))),
            None => before.push((i, vis)),
        }
    }
}

/// The vertex-only and fragment-only visibilities.
pub open spec fn vertex_only() -> Visibility {
    Visibility { vertex: true, fragment: false }
}

pub open spec fn fragment_only() -> Visibility {
    Visibility { vertex: false, fragment: true }
}

/// The message for an entry point that was not found among those of its stage.
pub open spec fn missing_entry_message(label: Seq<char>, want: Seq<char>, names: Seq<Seq<char>>) -> Seq<
    char,
> {
    label + " エントリポイント "@ + suggestion(want, names)
}

/// The message for a read-write storage buffer seen from the vertex stage.
pub open spec fn read_write_in_vertex_message(name: Seq<char>) -> Seq<char> {
    "'"@ + name
        + "' は read_write の storage buffer なので vertex シェーダーから使えません。読み取り専用（Slang では RWStructuredBuffer ではなく StructuredBuffer）にしてください"@
}

/// The outcome of `renderer(vs, fs)`: the vertex and fragment entries, then the bindings of
/// both stages with their visibility (vertex stage first, then fragment).
pub open spec fn render_pair(info: ShaderInfo, vs: Seq<char>, fs: Seq<char>) -> Result<
    (int, int, Seq<(usize, Visibility)>),
    Seq<char>,
> {
    let entries = info.render_entries@;
    match find_entry(entries, ShaderStage::Vertex, vs) {
        None => Err(
            missing_entry_message("vertex"@, vs, stage_names(entries, ShaderStage::Vertex)),
        ),
        Some(vi) => match find_entry(entries, ShaderStage::Fragment, fs) {
            None => Err(
                missing_entry_message(
                    "fragment"@,
                    fs,
                    stage_names(entries, ShaderStage::Fragment),
                ),
            ),
            Some(fi) => {
                let vs_used = entries[vi].used_bindings@;
                match first_read_write(vs_used, info.bindings@) {
                    Some(k) => Err(
                        read_write_in_vertex_message(
                            demangled(info.bindings@[vs_used[k] as int].name@),
                        ),
                    ),
                    None => Ok(
                        (
                            vi,
                            fi,
                            merged(
                                merged(Seq::empty(), vs_used, vertex_only()),
                                entries[fi].used_bindings@,
                                fragment_only(),
                            ),
                        ),
                    ),
                }
            },
        },
    }
}

/// The view of what `check_render_pair` returns.
pub open spec fn render_pair_view(r: Result<(usize, usize, Vec<(usize, Visibility)>), String>) -> Result<
    (int, int, Seq<(usize, Visibility)>),
    Seq<char>,
> {
    match r {
        Ok((v, f, u)) => Ok((v as int, f as int, u@)),
        Err(e) => Err(e@),
    }
}

fn find_render_entry(entries: &Vec<RenderEntry>, want: &str, stage: ShaderStage, label: &str) -> (r: Result<
    usize,
    String,
>)
    ensures
        match r {
            Ok(i) => find_entry(entries@, stage, want@) == Some(i as int),
            Err(m) => find_entry(entries@, stage, want@) is None && m@ == missing_entry_message(
                label@,
                want@,
                stage_names(entries@, stage),
            ),
        },
{
    let mut names: Vec<&str> = Vec::new();
    let mut i: usize = 0;
    while i < entries.len()
        invariant
            i <= entries@.len(),
            find_entry(entries@.subrange(0, i as int), stage, want@) is None,
            texts(names@) == stage_names(entries@.subrange(0, i as int), stage),
        decreases entries@.len() - i,
    {
        let e = &entries[i];
        let ghost pre = entries@.subrange(0, i + 1);
        assert(pre.drop_last() =~= entries@.subrange(0, i as int));
        if e.stage == stage && crate::text::same_text(e.name.as_str(), want) {
            proof {
                lemma_find_entry_prefix(entries@, stage, want@, i + 1);
            }
            return Ok(i);
        }
        if e.stage == stage {
            names.push(e.name.as_str());
            assert(texts(names@) =~= stage_names(pre, stage));
        }
        i += 1;
    }
    assert(entries@.subrange(0, entries@.len() as int) =~= entries@);
    let mut m = String::from_str(label);
    m.append(" エントリポイント ");
    let s = suggest(want, names.as_slice());
    m.append(s.as_str());
    Err(m)
}

proof fn lemma_find_entry_prefix(entries: Seq<RenderEntry>, stage: ShaderStage, want: Seq<char>, n: int)
    requires
        0 < n <= entries.len(),
        find_entry(entries.subrange(0, n - 1), stage, want) is None,
        entries[n - 1].stage == stage,
        entries[n - 1].name@ == want,
    ensures
        find_entry(entries, stage, want) == Some(n - 1),
    decreases entries.len(),
{
    if entries.len() > n {
        assert(entries.drop_last().subrange(0, n - 1) =~= entries.subrange(0, n - 1));
        lemma_find_entry_prefix(entries.drop_last(), stage, want, n);
    } else {
        assert(entries.drop_last() =~= entries.subrange(0, n - 1));
    }
}

proof fn lemma_position_of(acc: Seq<(usize, Visibility)>, i: usize)
    ensures
        position_of(acc, i) matches Some(k) ==> 0 <= k < acc.len() && acc[k].0 == i && forall|j: int|
            0 <= j < k ==> acc[j].0 != i,
        position_of(acc, i) is None ==> forall|j: int| 0 <= j < acc.len() ==> acc[j].0 != i,
    decreases acc.len(),
{
    if acc.len() > 0 {
        lemma_position_of(acc.drop_last(), i);
        assert forall|j: int| 0 <= j < acc.len() - 1 implies acc[j] == acc.drop_last()[j] by {}
    }
}

/// No binding is listed twice.
pub open spec fn listed_once(m: Seq<(usize, Visibility)>) -> bool {
    forall|a: int, b: int| 0 <= a < m.len() && 0 <= b < m.len() && a != b ==> m[a].0 != m[b].0
}

/// Binding `i` is listed.
pub open spec fn is_listed(m: Seq<(usize, Visibility)>, i: usize) -> bool {
    exists|k: int| 0 <= k < m.len() && #[trigger] m[k].0 == i
}

proof fn lemma_contains_push_last(s: Seq<usize>, x: usize)
    requires
        s.len() > 0,
    ensures
        s.contains(x) <==> s.drop_last().contains(x) || x == s.last(),
{
    if s.contains(x) && x != s.last() {
        let k = choose|k: int| 0 <= k < s.len() && s[k] == x;
        assert(s.drop_last()[k] == x);
    }
    if s.drop_last().contains(x) {
        let k = choose|k: int| 0 <= k < s.drop_last().len() && s.drop_last()[k] == x;
        assert(s[k] == x);
    }
    if x == s.last() {
        assert(s[s.len() - 1] == x);
    }
}

/// Merging `indices` with visibility `vis` into a list whose visibilities are given by `p`
/// (vertex) and `q` (fragment) keeps each binding listed once and gives each the union of
/// what it had and `vis` when `indices` names it.
proof fn lemma_merged_visibility(
    acc: Seq<(usize, Visibility)>,
    indices: Seq<usize>,
    vis: Visibility,
    p: spec_fn(usize) -> bool,
    q: spec_fn(usize) -> bool,
)
    requires
        listed_once(acc),
        forall|k: int| 0 <= k < acc.len() ==> (#[trigger] acc[k]).1.vertex == p(acc[k].0) && acc[k].1.fragment == q(acc[k].0),
        forall|i: usize| p(i) || q(i) ==> is_listed(acc, i),
    ensures
        ({
            let r = merged(acc, indices, vis);
            &&& listed_once(r)
            &&& forall|k: int|
                0 <= k < r.len() ==> (#[trigger] r[k]).1.vertex == (p(r[k].0) || vis.vertex && indices.contains(r[k].0))
                    && r[k].1.fragment == (q(r[k].0) || vis.fragment && indices.contains(r[k].0))
            &&& forall|k: int| 0 <= k < r.len() ==> is_listed(acc, (#[trigger] r[k]).0) || indices.contains(r[k].0)
            &&& forall|i: usize| is_listed(acc, i) || indices.contains(i) ==> is_listed(r, i)
        }),
    decreases indices.len(),
{
    if indices.len() == 0 {
        assert forall|i: usize| is_listed(acc, i) || indices.contains(i) implies is_listed(acc, i) by {
            if indices.contains(i) {
                let k = choose|k: int| 0 <= k < indices.len() && indices[k] == i;
            }
        }
    } else {
        let rest = indices.drop_last();
        lemma_merged_visibility(acc, rest, vis, p, q);
        let before = merged(acc, rest, vis);
        let i = indices.last();
        let r = merged(acc, indices, vis);
        lemma_position_of(before, i);
        assert forall|x: usize| indices.contains(x) <==> rest.contains(x) || x == i by {
            lemma_contains_push_last(indices, x);
        }
        match position_of(before, i) {
            Some(k) => {
                assert(r == before.update(k, (i, union_vis(before[k].1, vis))));
                assert forall|a: int| 0 <= a < r.len() implies #[trigger] r[a].0 == before[a].0 by {}
                assert forall|x: usize| is_listed(acc, x) || indices.contains(x) implies is_listed(r, x) by {
                    if x == i {
                        assert(r[k].0 == x);
                    } else {
                        assert(is_listed(before, x));
                        let a = choose|a: int| 0 <= a < before.len() && #[trigger] before[a].0 == x;
                        assert(r[a].0 == x);
                    }
                }
            },
            None => {
                assert(r == before.push((i, vis)));
                assert(!is_listed(before, i));
                assert(!p(i) && !q(i)) by {
                    if p(i) || q(i) {
                        assert(is_listed(acc, i));
                    }
                }
                assert forall|a: int| 0 <= a < before.len() implies #[trigger] r[a] == before[a] by {}
                assert forall|x: usize| is_listed(acc, x) || indices.contains(x) implies is_listed(r, x) by {
                    if x == i {
                        assert(r[r.len() - 1].0 == x);
                    } else {
                        assert(is_listed(before, x));
                        let a = choose|a: int| 0 <= a < before.len() && #[trigger] before[a].0 == x;
                        assert(r[a].0 == x);
                    }
                }
            },
        }
    }
}

/// `renderer(vs, fs)` lists every binding either stage uses exactly once, visible to the
/// vertex stage exactly when the vertex entry uses it and to the fragment stage exactly
/// when the fragment entry uses it.
pub proof fn lemma_render_pair_visibility(vs_used: Seq<usize>, fs_used: Seq<usize>)
    ensures
        ({
            let m = merged(merged(Seq::empty(), vs_used, vertex_only()), fs_used, fragment_only());
            &&& listed_once(m)
            &&& forall|k: int|
                0 <= k < m.len() ==> (#[trigger] m[k]).1.vertex == vs_used.contains(m[k].0)
                    && m[k].1.fragment == fs_used.contains(m[k].0)
            &&& forall|i: usize| vs_used.contains(i) || fs_used.contains(i) ==> is_listed(m, i)
            &&& forall|k: int| 0 <= k < m.len() ==> vs_used.contains((#[trigger] m[k]).0) || fs_used.contains(m[k].0)
        }),
{
    let none = |i: usize| false;
    let empty = Seq::<(usize, Visibility)>::empty();
    lemma_merged_visibility(empty, vs_used, vertex_only(), none, none);
    let first = merged(empty, vs_used, vertex_only());
    let in_vs = |i: usize| vs_used.contains(i);
    assert forall|k: int| 0 <= k < first.len() implies (#[trigger] first[k]).1.vertex == in_vs(first[k].0)
        && first[k].1.fragment == none(first[k].0) by {
        assert(!is_listed(empty, first[k].0));
    }
    lemma_merged_visibility(first, fs_used, fragment_only(), in_vs, none);
    let m = merged(first, fs_used, fragment_only());
    assert forall|k: int| 0 <= k < m.len() implies vs_used.contains((#[trigger] m[k]).0) || fs_used.contains(m[k].0) by {
        if is_listed(first, m[k].0) {
            let a = choose|a: int| 0 <= a < first.len() && #[trigger] first[a].0 == m[k].0;
            assert(!is_listed(empty, first[a].0));
        }
    }
}

/// Adds `indices` to `acc` with visibility `vis`.
fn merge_into(acc: &mut Vec<(usize, Visibility)>, indices: &Vec<usize>, vis: Visibility)
    ensures
        final(acc)@ == merged(old(acc)@, indices@, vis),
{
    let ghost start = acc@;
    let mut t: usize = 0;
    while t < indices.len()
        invariant
            t <= indices@.len(),
            acc@ == merged(start, indices@.subrange(0, t as int), vis),
        decreases indices@.len() - t,
    {
        let i = indices[t];
        let ghost pre = indices@.subrange(0, t + 1);
        assert(pre.drop_last() =~= indices@.subrange(0, t as int));
        proof {
            lemma_position_of(acc@, i);
        }
        let mut j: usize = 0;
        while j < acc.len() && acc[j].0 != i
            invariant
                j <= acc@.len(),
                forall|q: int| 0 <= q < j ==> acc@[q].0 != i,
            decreases acc@.len() - j,
        {
            j += 1;
        }
        if j < acc.len() {
            let (_, v) = acc[j];
            acc.set(j, (i, Visibility { vertex: v.vertex || vis.vertex, fragment: v.fragment || vis.fragment }));
        } else {
            acc.push((i, vis));
        }
        t += 1;
    }
    assert(indices@.subrange(0, indices@.len() as int) =~= indices@);
}

/// `renderer(vs, fs)`: finds the vertex entry `vs` and the fragment entry `fs`, rejects a
/// read-write storage buffer in the vertex stage (WebGPU forbids it), and merges the two
/// stages' bindings with their visibility.
pub fn check_render_pair(info: &ShaderInfo, vs: &str, fs: &str) -> (r: Result<
    (usize, usize, Vec<(usize, Visibility)>),
    String,
>)
    requires
        forall|e: int|
            0 <= e < info.render_entries@.len() ==> uses_in_range(
                #[trigger] info.render_entries@[e].used_bindings@,
                info.bindings@.len() as int,
            ),
    ensures
        render_pair_view(r) == render_pair(*info, vs@, fs@),
{
    let vs_index = match find_render_entry(&info.render_entries, vs, ShaderStage::Vertex, "vertex") {
        Ok(i) => i,
        Err(m) => return Err(m),
    };
    let fs_index = match find_render_entry(&info.render_entries, fs, ShaderStage::Fragment, "fragment") {
        Ok(i) => i,
        Err(m) => return Err(m),
    };
    proof {
        lemma_find_entry_found(info.render_entries@, ShaderStage::Vertex, vs@);
        lemma_find_entry_found(info.render_entries@, ShaderStage::Fragment, fs@);
    }
    let vs_used = &info.render_entries[vs_index].used_bindings;
    let mut k: usize = 0;
    while k < vs_used.len()
        invariant
            k <= vs_used@.len(),
            uses_in_range(vs_used@, info.bindings@.len() as int),
            first_read_write(vs_used@.subrange(0, k as int), info.bindings@) is None,
            find_entry(info.render_entries@, ShaderStage::Vertex, vs@) == Some(vs_index as int),
            find_entry(info.render_entries@, ShaderStage::Fragment, fs@) == Some(fs_index as int),
            vs_used@ == info.render_entries@[vs_index as int].used_bindings@,
        decreases vs_used@.len() - k,
    {
        let ghost pre = vs_used@.subrange(0, k + 1);
        assert(pre.drop_last() =~= vs_used@.subrange(0, k as int));
        let b = &info.bindings[vs_used[k]];
        if let BindingKind::Storage { read_only: false, .. } = b.kind {
            proof {
                lemma_first_read_write_prefix(vs_used@, info.bindings@, k + 1);
                assert(first_read_write(vs_used@, info.bindings@) == Some(k as int));
            }
            let mut m = String::from_str("'");
            m.append(demangle(b.name.as_str()));
            m.append(
                "' は read_write の storage buffer なので vertex シェーダーから使えません。読み取り専用（Slang では RWStructuredBuffer ではなく StructuredBuffer）にしてください",
            );
            return Err(m);
        }
        k += 1;
    }
    assert(vs_used@.subrange(0, vs_used@.len() as int) =~= vs_used@);
    let mut used: Vec<(usize, Visibility)> = Vec::new();
    merge_into(&mut used, vs_used, Visibility { vertex: true, fragment: false });
    merge_into(
        &mut used,
        &info.render_entries[fs_index].used_bindings,
        Visibility { vertex: false, fragment: true },
    );
    Ok((vs_index, fs_index, used))
}

proof fn lemma_find_entry_found(entries: Seq<RenderEntry>, stage: ShaderStage, want: Seq<char>)
    ensures
        find_entry(entries, stage, want) matches Some(i) ==> 0 <= i < entries.len(),
    decreases entries.len(),
{
    if entries.len() > 0 {
        lemma_find_entry_found(entries.drop_last(), stage, want);
    }
}

proof fn lemma_first_read_write_prefix(used: Seq<usize>, bindings: Seq<BindingInfo>, n: int)
    requires
        0 < n <= used.len(),
        first_read_write(used.subrange(0, n - 1), bindings) is None,
        bindings[used[n - 1] as int].kind matches BindingKind::Storage { read_only: false, .. },
    ensures
        first_read_write(used, bindings) == Some(n - 1),
    decreases used.len(),
{
    if used.len() > n {
        assert(used.drop_last().subrange(0, n - 1) =~= used.subrange(0, n - 1));
        lemma_first_read_write_prefix(used.drop_last(), bindings, n);
    } else {
        assert(used.drop_last() =~= used.subrange(0, n - 1));
    }
}

/// The names of a layout's members, in order.
pub open spec fn member_names(layout: StructLayout) -> Seq<Seq<char>> {
    layout.members@.map_values(|m: crate::reflect::MemberInfo| m.name@)
}

/// The number of bytes a member of this kind occupies.
pub open spec fn member_width(kind: MemberKind) -> int {
    match kind {
        MemberKind::F32 => 4,
        MemberKind::I32 => 4,
        MemberKind::U32 => 4,
        MemberKind::VecF(n) => 4 * n,
        MemberKind::Mat4 => 64,
    }
}

/// The check of the values passed for one member: `count` floats, or one int when
/// `is_int`. On success, the member's byte offset and byte length.
pub open spec fn member_value_check(
    kind: MemberKind,
    offset: u32,
    member: Seq<char>,
    count: nat,
    is_int: bool,
) -> Result<(u32, u32), Seq<char>> {
    let head = "'"@ + member;
    match kind {
        MemberKind::F32 => if is_int {
            Err(head + "' は f32 です。float で渡してください"@)
        } else if count != 1 {
            Err(head + "' は f32 なので値は 1 個です（"@ + decimal(count) + " 個渡されました）"@)
        } else {
            Ok((offset, 4))
        },
        MemberKind::I32 => if !is_int {
            Err(head + "' は整数型（"@ + "I32"@ + "）です。int で渡してください"@)
        } else {
            Ok((offset, 4))
        },
        MemberKind::U32 => if !is_int {
            Err(head + "' は整数型（"@ + "U32"@ + "）です。int で渡してください"@)
        } else {
            Ok((offset, 4))
        },
        MemberKind::VecF(n) => if is_int {
            Err(head + "' は vec"@ + decimal(n as nat) + "<f32> です。float で渡してください"@)
        } else if count != n {
            Err(
                head + "' は vec"@ + decimal(n as nat) + "<f32> なので値は "@ + decimal(n as nat)
                    + " 個です（"@ + decimal(count) + " 個渡されました）"@,
            )
        } else {
            Ok((offset, (4 * n) as u32))
        },
        MemberKind::Mat4 => if is_int {
            Err(head + "' は mat4x4<f32> です。float で渡してください"@)
        } else if count != 16 {
            Err(
                head + "' は mat4x4<f32> なので値は 16 個（列優先）です（"@ + decimal(count)
                    + " 個渡されました）"@,
            )
        } else {
            Ok((offset, 64))
        },
    }
}

/// The outcome of `set(member, values)` against a struct layout: the member name is
/// resolved like a binding name, then the values must suit the member's type.
pub open spec fn member_set_outcome(layout: StructLayout, member: Seq<char>, count: nat, is_int: bool) -> Result<
    (u32, u32),
    Seq<char>,
> {
    let names = member_names(layout);
    match resolution(names, member) {
        Err(Some(m)) => Err(m),
        Err(None) => Err(suggestion(member, demangled_all(names))),
        Ok(i) => member_value_check(
            layout.members@[i].kind,
            layout.members@[i].offset,
            member,
            count,
            is_int,
        ),
    }
}

fn member_names_of(layout: &StructLayout) -> (names: Vec<&str>)
    ensures
        texts(names@) == member_names(*layout),
{
    let mut names: Vec<&str> = Vec::new();
    let mut i: usize = 0;
    while i < layout.members.len()
        invariant
            i <= layout.members@.len(),
            names@.len() == i,
            forall|k: int| 0 <= k < i ==> (#[trigger] names@[k])@ == layout.members@[k].name@,
        decreases layout.members@.len() - i,
    {
        names.push(layout.members[i].name.as_str());
        i += 1;
    }
    assert(texts(names@) =~= member_names(*layout));
    names
}

/// `uniform.set(member, ...)` / `buffer.at(i).set(member, ...)`: resolves the member and
/// checks the values passed (`float_count` floats, or one int when `is_int`). On success,
/// the member's byte offset from the start of the struct and its byte length.
pub fn check_member_set(layout: &StructLayout, member: &str, float_count: usize, is_int: bool) -> (r: Result<
    (u32, u32),
    String,
>)
    ensures
        text_result(r) == member_set_outcome(*layout, member@, float_count as nat, is_int),
{
    let names = member_names_of(layout);
    let m = match resolve_name(names.as_slice(), member) {
        Ok(i) => &layout.members[i],
        Err(Some(ambiguous)) => return Err(ambiguous),
        Err(None) => {
            let shown = demangle_all(&names);
            return Err(suggest(member, shown.as_slice()));
        },
    };
    let mut e = String::from_str("'");
    e.append(member);
    match m.kind {
        MemberKind::F32 => {
            if is_int {
                e.append("' は f32 です。float で渡してください");
                Err(e)
            } else if float_count != 1 {
                e.append("' は f32 なので値は 1 個です（");
                push_decimal(&mut e, float_count as u64);
                e.append(" 個渡されました）");
                Err(e)
            } else {
                Ok((m.offset, 4))
            }
        },
        MemberKind::I32 => {
            if !is_int {
                e.append("' は整数型（");
                e.append("I32");
                e.append("）です。int で渡してください");
                Err(e)
            } else {
                Ok((m.offset, 4))
            }
        },
        MemberKind::U32 => {
            if !is_int {
                e.append("' は整数型（");
                e.append("U32");
                e.append("）です。int で渡してください");
                Err(e)
            } else {
                Ok((m.offset, 4))
            }
        },
        MemberKind::VecF(n) => {
            if is_int {
                e.append("' は vec");
                push_decimal(&mut e, n as u64);
                e.append("<f32> です。float で渡してください");
                Err(e)
            } else if float_count != n as usize {
                e.append("' は vec");
                push_decimal(&mut e, n as u64);
                e.append("<f32> なので値は ");
                push_decimal(&mut e, n as u64);
                e.append(" 個です（");
                push_decimal(&mut e, float_count as u64);
                e.append(" 個渡されました）");
                Err(e)
            } else {
                Ok((m.offset, 4 * n as u32))
            }
        },
        MemberKind::Mat4 => {
            if is_int {
                e.append("' は mat4x4<f32> です。float で渡してください");
                Err(e)
            } else if float_count != 16 {
                e.append("' は mat4x4<f32> なので値は 16 個（列優先）です（");
                push_decimal(&mut e, float_count as u64);
                e.append(" 個渡されました）");
                Err(e)
            } else {
                Ok((m.offset, 64))
            }
        },
    }
}

/// The least multiple of `a` that is at least `v`.
pub open spec fn aligned_up(v: int, a: int) -> int {
    (v + a - 1) / a * a
}

/// `v` rounded up to a multiple of `a`.
pub fn align_up(v: u32, a: u32) -> (r: u32)
    requires
        a > 0,
        aligned_up(v as int, a as int) <= u32::MAX,
    ensures
        r == aligned_up(v as int, a as int),
        r % a == 0,
        v <= r < v + a,
{
    let d = v / a;
    let extra: u32 = if v % a == 0 {
        0
    } else {
        1
    };
    assert(d + extra <= u32::MAX) by (nonlinear_arith)
        requires
            a > 0,
            d == v / a,
            extra == 0 || v % a != 0,
            extra <= 1,
    ;
    let q = d + extra;
    proof {
        let vi = v as int;
        let ai = a as int;
        let qi = q as int;
        assert((vi + ai - 1) / ai == qi && (qi * ai) % ai == 0 && vi <= qi * ai < vi + ai)
            by (nonlinear_arith)
            requires
                ai > 0,
                vi >= 0,
                qi == vi / ai + if vi % ai == 0 {
                    0int
                } else {
                    1int
                },
        ;
    }
    q * a
}

/// `set(name, resource)` succeeds only for the binding the name resolves to, and then gives
/// that binding's number; the resource must suit the binding: a uniform only a uniform
/// binding, a buffer only a storage binding, and a texture either a storage texture of the
/// same format or a sampled texture of the same cubeness. A name that does not resolve is
/// always refused.
pub proof fn lemma_set_accepts_only_suitable(bindings: Seq<BindingInfo>, name: Seq<char>, res: ResourceDesc)
    ensures
        resolution(binding_names(bindings), name) is Err ==> set_outcome(bindings, name, res) is Err,
        set_outcome(bindings, name, res) matches Ok(n) ==> {
            let i = resolution(binding_names(bindings), name)->Ok_0;
            &&& resolution(binding_names(bindings), name) is Ok
            &&& 0 <= i < bindings.len()
            &&& n == bindings[i].binding
            &&& res is Uniform ==> bindings[i].kind is Uniform
            &&& res is Buffer ==> bindings[i].kind is Storage
            &&& res matches ResourceDesc::Texture { format, cube } ==> {
                ||| (bindings[i].kind matches BindingKind::StorageTexture { format: f, .. } && f == format)
                ||| (bindings[i].kind matches BindingKind::SampledTexture { cube: c } && c == cube)
            }
        },
{
    lemma_resolution_in_range(binding_names(bindings), name);
}

/// For a sampled-texture binding, a texture is accepted exactly when its cubeness is the
/// binding's: a 2D texture given to a `texture_cube` binding is refused and told to pass a cube
/// texture, a cube texture given to a 2D binding is refused, and a texture of the right
/// cubeness (of any format) is accepted with the binding's number.
pub proof fn lemma_set_sampled_texture_cubeness(
    bindings: Seq<BindingInfo>,
    name: Seq<char>,
    format: TextureFormat,
    have: bool,
)
    requires
        resolution(binding_names(bindings), name) is Ok,
        bindings[resolution(binding_names(bindings), name)->Ok_0].kind is SampledTexture,
    ensures
        ({
            let i = resolution(binding_names(bindings), name)->Ok_0;
            let cube = bindings[i].kind->SampledTexture_cube;
            let out = set_outcome(bindings, name, ResourceDesc::Texture { format, cube: have });
            &&& out is Ok <==> cube == have
            &&& cube == have ==> out == Ok::<u32, Seq<char>>(bindings[i].binding)
            &&& cube && !have ==> out == Err::<u32, Seq<char>>(
                "'"@ + name + "' は texture_cube です（gpu.textureCube で作ったテクスチャを渡してください）"@,
            )
        }),
{
}

/// The check before a dispatch or draw passes exactly when every used binding other than a
/// sampler has a resource bound to its binding number. When it fails, each used binding that
/// lacks one, whatever its kind (a uniform as much as a buffer or a texture), is named in the
/// list of missing bindings, and only such bindings are.
pub proof fn lemma_completeness_exact(
    entry_name: Seq<char>,
    used: Seq<usize>,
    bindings: Seq<BindingInfo>,
    bound: Map<u32, u64>,
)
    ensures
        completeness(entry_name, used, bindings, bound) is Ok <==> forall|k: int|
            0 <= k < used.len() ==> (bindings[#[trigger] used[k] as int].kind is Sampler
                || bound.contains_key(bindings[used[k] as int].binding)),
        forall|k: int|
            0 <= k < used.len() && !(bindings[#[trigger] used[k] as int].kind is Sampler)
                && !bound.contains_key(bindings[used[k] as int].binding) ==> missing_names(
                used,
                bindings,
                bound,
            ).contains(bindings[used[k] as int].name@),
        forall|j: int|
            #![trigger missing_names(used, bindings, bound)[j]]
            0 <= j < missing_names(used, bindings, bound).len() ==> exists|k: int|
                0 <= k < used.len() && !(bindings[#[trigger] used[k] as int].kind is Sampler)
                    && !bound.contains_key(bindings[used[k] as int].binding)
                    && missing_names(used, bindings, bound)[j] == bindings[used[k] as int].name@,
        completeness(entry_name, used, bindings, bound) matches Err(msg) ==> msg == "'"@ + entry_name
            + "' の実行に必要な binding が未指定です: "@ + joined(missing_names(used, bindings, bound), ", "@),
    decreases used.len(),
{
    if used.len() > 0 {
        let pre = used.drop_last();
        lemma_completeness_exact(entry_name, pre, bindings, bound);
        let rest = missing_names(pre, bindings, bound);
        let all = missing_names(used, bindings, bound);
        assert forall|k: int|
            0 <= k < used.len() && !(bindings[#[trigger] used[k] as int].kind is Sampler)
                && !bound.contains_key(bindings[used[k] as int].binding) implies all.contains(
            bindings[used[k] as int].name@,
        ) by {
            if k < used.len() - 1 {
                assert(used[k] == pre[k]);
                let w = choose|w: int| 0 <= w < rest.len() && rest[w] == bindings[pre[k] as int].name@;
                assert(all[w] == rest[w]);
            } else {
                assert(all[all.len() - 1] == bindings[used[k] as int].name@);
            }
        }
        assert forall|j: int| #![trigger all[j]] 0 <= j < all.len() implies exists|k: int|
            0 <= k < used.len() && !(bindings[#[trigger] used[k] as int].kind is Sampler)
                && !bound.contains_key(bindings[used[k] as int].binding) && all[j]
                == bindings[used[k] as int].name@ by {
            if j < rest.len() {
                assert(all[j] == rest[j]);
                let k = choose|k: int|
                    0 <= k < pre.len() && !(bindings[#[trigger] pre[k] as int].kind is Sampler)
                        && !bound.contains_key(bindings[pre[k] as int].binding) && rest[j]
                        == bindings[pre[k] as int].name@;
                assert(used[k] == pre[k]);
            } else {
                assert(used[used.len() - 1] == used.last());
            }
        }
        if completeness(entry_name, used, bindings, bound) is Ok {
            assert forall|k: int| 0 <= k < used.len() implies (bindings[#[trigger] used[k] as int].kind is Sampler
                || bound.contains_key(bindings[used[k] as int].binding)) by {
                if !(bindings[used[k] as int].kind is Sampler) && !bound.contains_key(bindings[used[k] as int].binding) {
                    assert(all.contains(bindings[used[k] as int].name@));
                }
            }
        } else {
            let j = 0;
            let k = choose|k: int|
                0 <= k < used.len() && !(bindings[#[trigger] used[k] as int].kind is Sampler)
                    && !bound.contains_key(bindings[used[k] as int].binding) && all[j]
                    == bindings[used[k] as int].name@;
        }
    }
}

} // verus!
