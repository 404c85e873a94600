//! What shader reflection yields: bindings and their kinds, uniform/storage struct layouts,
//! workgroup sizes, and the bindings each entry point uses.
use crate::engine::text_result;
use crate::frontend::{
    load_wgsl, model_of_source, wgsl_parses, wgsl_syntax_report, wgsl_validates,
    wgsl_validation_report, FrontError,
};
use crate::text::{decimal, push_decimal, same_text};
use vstd::prelude::*;

verus! {

/// The pipeline stage of an entry point.
#[derive(PartialEq, Eq, Structural, Clone, Copy, Debug)]
pub enum ShaderStage {
    Vertex,
    Fragment,
    Compute,
    /// Task, mesh and ray-tracing stages, which this bridge does not run.
    Other,
}

/// The texture formats this bridge creates textures in and accepts as storage textures.
#[derive(PartialEq, Eq, Structural, Clone, Copy, Debug, Hash)]
pub enum TextureFormat {
    Rgba8Unorm,
    Rgba32Float,
    R32Float,
    Rgba16Float,
    Rg32Float,
}

/// The name under which a texture format is shown in messages.
pub open spec fn format_name(f: TextureFormat) -> Seq<char> {
    match f {
        TextureFormat::Rgba8Unorm => "Rgba8Unorm"@,
        TextureFormat::Rgba32Float => "Rgba32Float"@,
        TextureFormat::R32Float => "R32Float"@,
        TextureFormat::Rgba16Float => "Rgba16Float"@,
        TextureFormat::Rg32Float => "Rg32Float"@,
    }
}

impl TextureFormat {
    /// The format's name as shown in messages ("Rgba8Unorm", ...).
    pub fn name(&self) -> (s: &'static str)
        ensures
            s@ == format_name(*self),
    {
        match self {
            TextureFormat::Rgba8Unorm => "Rgba8Unorm",
            TextureFormat::Rgba32Float => "Rgba32Float",
            TextureFormat::R32Float => "R32Float",
            TextureFormat::Rgba16Float => "Rgba16Float",
            TextureFormat::Rg32Float => "Rg32Float",
        }
    }
}

/// All information reflected from one WGSL source.
#[derive(Debug)]
pub struct ShaderInfo {
    pub entry_points: Vec<EntryInfo>,
    /// Vertex and fragment entry points, used to resolve `renderer(vs, fs)`.
    pub render_entries: Vec<RenderEntry>,
    /// The bindings of group 0 (not necessarily in binding-number order).
    pub bindings: Vec<BindingInfo>,
}

/// A compute entry point.
#[derive(Debug)]
pub struct EntryInfo {
    pub name: String,
    pub workgroup_size: [u32; 3],
    /// Indices into `ShaderInfo::bindings` of the bindings this entry point uses,
    /// directly or through helper functions.
    pub used_bindings: Vec<usize>,
}

/// A vertex or fragment entry point.
#[derive(Debug)]
pub struct RenderEntry {
    pub name: String,
    pub stage: ShaderStage,
    /// Indices into `ShaderInfo::bindings` of the bindings this entry point uses.
    pub used_bindings: Vec<usize>,
}

/// One resource binding of group 0.
#[derive(Debug)]
pub struct BindingInfo {
    pub name: String,
    pub binding: u32,
    pub kind: BindingKind,
}

/// What a binding holds.
#[derive(Debug)]
pub enum BindingKind {
    Uniform { layout: StructLayout },
    Storage {
        read_only: bool,
        /// The element stride of `array<T>`; the whole type's size otherwise.
        stride: u32,
        /// The member layout when the element is a struct of supported members.
        layout: Option<StructLayout>,
    },
    StorageTexture { format: TextureFormat, write_only: bool },
    SampledTexture {
        /// `texture_cube` (the only non-2D texture supported).
        cube: bool,
    },
    Sampler,
}

/// The byte layout of a uniform struct or a storage element struct.
#[derive(Debug, Clone)]
pub struct StructLayout {
    pub size: u32,
    pub members: Vec<MemberInfo>,
}

/// One member of a struct layout.
#[derive(Debug, Clone)]
pub struct MemberInfo {
    pub name: String,
    pub offset: u32,
    pub kind: MemberKind,
}

/// The member types that can be written by name.
#[derive(PartialEq, Eq, Structural, Debug, Clone, Copy)]
pub enum MemberKind {
    F32,
    I32,
    U32,
    /// vec2/vec3/vec4 of f32
    VecF(u8),
    /// mat4x4 of f32 (16 consecutive column-major f32, Slang's column wrapper struct included)
    Mat4,
}

/// Every binding index an entry point lists is a position in the binding list.
pub open spec fn uses_in_range(used: Seq<usize>, n: int) -> bool {
    forall|k: int| 0 <= k < used.len() ==> #[trigger] used[k] < n
}

impl ShaderInfo {
    /// The entry points' binding indices all point into `bindings`.
    pub open spec fn well_formed(&self) -> bool {
        &&& forall|e: int|
            0 <= e < self.entry_points@.len() ==> uses_in_range(
                #[trigger] self.entry_points@[e].used_bindings@,
                self.bindings@.len() as int,
            )
        &&& forall|e: int|
            0 <= e < self.render_entries@.len() ==> uses_in_range(
                #[trigger] self.render_entries@[e].used_bindings@,
                self.bindings@.len() as int,
            )
    }
}

/// A member of a struct layout, as a value.
pub struct MemberView {
    pub name: Seq<char>,
    pub offset: u32,
    pub kind: MemberKind,
}

/// A struct layout, as a value.
pub struct LayoutView {
    pub size: u32,
    pub members: Seq<MemberView>,
}

/// A binding kind, as a value.
pub enum KindView {
    Uniform { layout: LayoutView },
    Storage { read_only: bool, stride: u32, layout: Option<LayoutView> },
    StorageTexture { format: TextureFormat, write_only: bool },
    SampledTexture { cube: bool },
    Sampler,
}

/// A binding, as a value.
pub struct BindingView {
    pub name: Seq<char>,
    pub binding: u32,
    pub kind: KindView,
}

/// A compute entry point, as a value.
pub struct EntryView {
    pub name: Seq<char>,
    pub workgroup_size: [u32; 3],
    pub used: Seq<usize>,
}

/// A vertex or fragment entry point, as a value.
pub struct RenderEntryView {
    pub name: Seq<char>,
    pub stage: ShaderStage,
    pub used: Seq<usize>,
}

/// Reflected shader information, as a value.
pub struct ShaderView {
    pub entry_points: Seq<EntryView>,
    pub render_entries: Seq<RenderEntryView>,
    pub bindings: Seq<BindingView>,
}

impl View for MemberInfo {
    type V = MemberView;

    open spec fn view(&self) -> MemberView {
        MemberView { name: self.name@, offset: self.offset, kind: self.kind }
    }
}

impl View for StructLayout {
    type V = LayoutView;

    open spec fn view(&self) -> LayoutView {
        LayoutView { size: self.size, members: self.members@.map_values(|m: MemberInfo| m@) }
    }
}

impl View for BindingKind {
    type V = KindView;

    open spec fn view(&self) -> KindView {
        match self {
            BindingKind::Uniform { layout } => KindView::Uniform { layout: layout@ },
            BindingKind::Storage { read_only, stride, layout } => KindView::Storage {
                read_only: *read_only,
                stride: *stride,
                layout: match layout {
                    Some(l) => Some(l@),
                    None => None,
                },
            },
            BindingKind::StorageTexture { format, write_only } => KindView::StorageTexture {
                format: *format,
                write_only: *write_only,
            },
            BindingKind::SampledTexture { cube } => KindView::SampledTexture { cube: *cube },
            BindingKind::Sampler => KindView::Sampler,
        }
    }
}

impl View for BindingInfo {
    type V = BindingView;

    open spec fn view(&self) -> BindingView {
        BindingView { name: self.name@, binding: self.binding, kind: self.kind@ }
    }
}

impl View for EntryInfo {
    type V = EntryView;

    open spec fn view(&self) -> EntryView {
        EntryView {
            name: self.name@,
            workgroup_size: self.workgroup_size,
            used: self.used_bindings@,
        }
    }
}

impl View for RenderEntry {
    type V = RenderEntryView;

    open spec fn view(&self) -> RenderEntryView {
        RenderEntryView { name: self.name@, stage: self.stage, used: self.used_bindings@ }
    }
}

impl View for ShaderInfo {
    type V = ShaderView;

    open spec fn view(&self) -> ShaderView {
        ShaderView {
            entry_points: self.entry_points@.map_values(|e: EntryInfo| e@),
            render_entries: self.render_entries@.map_values(|e: RenderEntry| e@),
            bindings: self.bindings@.map_values(|b: BindingInfo| b@),
        }
    }
}

/// The shape of one type of a shader module, as far as reflection reads it. Scalar kinds,
/// image dimensions and storage formats are held by the names the WGSL front end gives them
/// (`"Float"`, `"D2"`, `"Rgba8Unorm"`, ...), which are also what messages show.
pub enum TypeShape {
    Scalar { kind: String, width: u8 },
    Vector { size: u8, kind: String, width: u8 },
    Matrix { columns: u8, rows: u8, kind: String },
    Atomic { width: u8 },
    /// `base` is the element type's position in the module's type list; `size` is the
    /// element count when it is a constant.
    Array { base: usize, size: Option<u32>, stride: u32 },
    Struct { members: Vec<StructMemberModel>, span: u32 },
    Image { dim: String, arrayed: bool, storage: Option<StorageImageModel> },
    Sampler,
    Other,
}

/// The format and access of a storage texture type.
pub struct StorageImageModel {
    pub format: String,
    pub readable: bool,
}

/// One member of a struct type.
pub struct StructMemberModel {
    pub name: Option<String>,
    /// The member type's position in the module's type list.
    pub ty: usize,
    pub offset: u32,
}

/// One type of a module: its shape, and how the front end prints it.
pub struct TypeModel {
    pub shape: TypeShape,
    pub debug: String,
}

/// The address space of a global variable.
pub enum SpaceModel {
    Uniform,
    Storage { writable: bool },
    Other,
}

/// One global variable of a module.
pub struct GlobalModel {
    pub name: Option<String>,
    /// `(group, binding)` when the variable is a resource binding.
    pub binding: Option<(u32, u32)>,
    pub space: SpaceModel,
    /// The variable's type, as a position in the module's type list.
    pub ty: usize,
}

/// One entry point of a module.
pub struct EntryModel {
    pub name: String,
    pub stage: ShaderStage,
    pub workgroup_size: [u32; 3],
    /// For each global variable, in order: whether this entry point uses it, directly or
    /// through the functions it calls.
    pub uses: Vec<bool>,
}

/// What reflection reads from a parsed and validated WGSL module.
pub struct ModuleModel {
    pub types: Vec<TypeModel>,
    pub globals: Vec<GlobalModel>,
    pub entries: Vec<EntryModel>,
}

/// The text of an optional name (empty when there is none).
pub open spec fn name_text(name: Option<String>) -> Seq<char> {
    match name {
        Some(s) => s@,
        None => Seq::empty(),
    }
}

/// The shape of type `i` (`Other` for a position outside the type list).
pub open spec fn shape_at(m: ModuleModel, i: int) -> TypeShape {
    if 0 <= i < m.types@.len() {
        m.types@[i].shape
    } else {
        TypeShape::Other
    }
}

/// How type `i` is printed.
pub open spec fn debug_at(m: ModuleModel, i: int) -> Seq<char> {
    if 0 <= i < m.types@.len() {
        m.types@[i].debug@
    } else {
        Seq::empty()
    }
}

/// Slang's column wrapper of a `float4x4` uniform member: a struct of span 64 whose only
/// member, at offset 0, is `array<vec4<f32>, 4>`.
pub open spec fn is_mat4_storage_spec(m: ModuleModel, members: Seq<StructMemberModel>, span: u32) -> bool {
    &&& span == 64
    &&& members.len() == 1
    &&& members[0].offset == 0
    &&& match shape_at(m, members[0].ty as int) {
        TypeShape::Array { base, size, .. } => {
            &&& size == Some(4u32)
            &&& match shape_at(m, base as int) {
                TypeShape::Vector { size, kind, .. } => size == 4 && kind@ == "Float"@,
                _ => false,
            }
        },
        _ => false,
    }
}

/// The error for a struct member of an unsupported type.
pub open spec fn unsupported_member_message(struct_name: Seq<char>, name: Seq<char>, printed: Seq<char>) -> Seq<char> {
    "uniform '"@ + struct_name + "."@ + name + "' の型は非対応です（f32/i32/u32/vecNf/mat4x4f のみ）: "@ + printed
}

/// The kind of a struct member, or why it cannot be written by name.
pub open spec fn member_kind_spec(m: ModuleModel, struct_name: Seq<char>, member: StructMemberModel) -> Result<MemberKind, Seq<char>> {
    let name = name_text(member.name);
    match shape_at(m, member.ty as int) {
        TypeShape::Scalar { kind, .. } => if kind@ == "Float"@ {
            Ok(MemberKind::F32)
        } else if kind@ == "Sint"@ {
            Ok(MemberKind::I32)
        } else if kind@ == "Uint"@ {
            Ok(MemberKind::U32)
        } else {
            Err("uniform '"@ + struct_name + "."@ + name + "' の型 "@ + kind@ + " は非対応です"@)
        },
        TypeShape::Vector { size, kind, .. } => if kind@ == "Float"@ {
            Ok(MemberKind::VecF(size))
        } else {
            Err(unsupported_member_message(struct_name, name, debug_at(m, member.ty as int)))
        },
        TypeShape::Matrix { columns, rows, kind } => if columns == 4 && rows == 4 && kind@ == "Float"@ {
            Ok(MemberKind::Mat4)
        } else {
            Err(unsupported_member_message(struct_name, name, debug_at(m, member.ty as int)))
        },
        TypeShape::Struct { members, span } => if is_mat4_storage_spec(m, members@, span) {
            Ok(MemberKind::Mat4)
        } else {
            Err(unsupported_member_message(struct_name, name, debug_at(m, member.ty as int)))
        },
        _ => Err(unsupported_member_message(struct_name, name, debug_at(m, member.ty as int))),
    }
}

/// The layouts of the members, in order, or the first member's error.
pub open spec fn members_spec(m: ModuleModel, members: Seq<StructMemberModel>, struct_name: Seq<char>) -> Result<Seq<MemberView>, Seq<char>>
    decreases members.len(),
{
    if members.len() == 0 {
        Ok(Seq::empty())
    } else {
        match members_spec(m, members.drop_last(), struct_name) {
            Err(e) => Err(e),
            Ok(prev) => match member_kind_spec(m, struct_name, members.last()) {
                Err(e) => Err(e),
                Ok(kind) => Ok(prev.push(MemberView { name: name_text(members.last().name), offset: members.last().offset, kind })),
            },
        }
    }
}

/// The layout of a struct of `span` bytes.
pub open spec fn layout_spec(m: ModuleModel, members: Seq<StructMemberModel>, span: u32, struct_name: Seq<char>) -> Result<LayoutView, Seq<char>> {
    match members_spec(m, members, struct_name) {
        Err(e) => Err(e),
        Ok(ms) => Ok(LayoutView { size: span, members: ms }),
    }
}

/// The byte size of a scalar, vector, struct or atomic type.
pub open spec fn type_size_spec(shape: TypeShape) -> Option<u32> {
    match shape {
        TypeShape::Scalar { width, .. } => Some(width as u32),
        TypeShape::Vector { size, width, .. } => Some((size * width) as u32),
        TypeShape::Struct { span, .. } => Some(span),
        TypeShape::Atomic { width } => Some(width as u32),
        _ => None,
    }
}

/// The supported storage texture formats, by name.
pub open spec fn format_spec(format: Seq<char>, name: Seq<char>) -> Result<TextureFormat, Seq<char>> {
    if format == "Rgba8Unorm"@ {
        Ok(TextureFormat::Rgba8Unorm)
    } else if format == "Rgba32Float"@ {
        Ok(TextureFormat::Rgba32Float)
    } else if format == "R32Float"@ {
        Ok(TextureFormat::R32Float)
    } else if format == "Rgba16Float"@ {
        Ok(TextureFormat::Rgba16Float)
    } else if format == "Rg32Float"@ {
        Ok(TextureFormat::Rg32Float)
    } else {
        Err("storage texture '"@ + name + "' のフォーマット "@ + format + " は非対応です（rgba8unorm / rgba16float / rgba32float / rg32float / r32float）"@)
    }
}

/// A storage buffer binding: read-only unless stored to; the element stride of an array, the
/// whole type's size otherwise; the element's member layout when it has one.
pub open spec fn storage_spec(m: ModuleModel, shape: TypeShape, writable: bool, name: Seq<char>) -> Result<KindView, Seq<char>> {
    let element = match shape {
        TypeShape::Array { base, .. } => shape_at(m, base as int),
        _ => shape,
    };
    let stride = match shape {
        TypeShape::Array { stride, .. } => Some(stride),
        _ => type_size_spec(shape),
    };
    match stride {
        None => Err("storage '"@ + name + "' の型サイズを決定できません"@),
        Some(stride) => Ok(KindView::Storage {
            read_only: !writable,
            stride,
            layout: match element {
                TypeShape::Struct { members, span } => match layout_spec(m, members@, span, name) {
                    Ok(l) => Some(l),
                    Err(_) => None,
                },
                _ => None,
            },
        }),
    }
}

/// A texture binding: a storage texture of a supported format, or a sampled 2D or cube texture.
pub open spec fn image_spec(dim: Seq<char>, arrayed: bool, storage: Option<StorageImageModel>, name: Seq<char>) -> Result<KindView, Seq<char>> {
    match storage {
        Some(st) => match format_spec(st.format@, name) {
            Err(e) => Err(e),
            Ok(format) => Ok(KindView::StorageTexture { format, write_only: !st.readable }),
        },
        None => if dim == "D2"@ && !arrayed {
            Ok(KindView::SampledTexture { cube: false })
        } else if dim == "Cube"@ && !arrayed {
            Ok(KindView::SampledTexture { cube: true })
        } else {
            Err("texture '"@ + name + "' は 2D かキューブ（配列なし）のみ対応です"@)
        },
    }
}

/// The kind of a resource binding, or why it is not supported.
pub open spec fn classify_spec(m: ModuleModel, g: GlobalModel, name: Seq<char>) -> Result<KindView, Seq<char>> {
    let shape = shape_at(m, g.ty as int);
    match g.space {
        SpaceModel::Uniform => match shape {
            TypeShape::Struct { members, span } => match layout_spec(m, members@, span, name) {
                Err(e) => Err(e),
                Ok(layout) => Ok(KindView::Uniform { layout }),
            },
            _ => Err("uniform '"@ + name + "' は struct にしてください（スカラー単体の uniform は非対応）"@),
        },
        SpaceModel::Storage { writable } => storage_spec(m, shape, writable, name),
        SpaceModel::Other => match shape {
            TypeShape::Image { dim, arrayed, storage } => image_spec(dim@, arrayed, storage, name),
            TypeShape::Sampler => Ok(KindView::Sampler),
            _ => Err("binding '"@ + name + "' の種別を判別できません"@),
        },
    }
}

/// The error for a binding outside group 0.
pub open spec fn group_message(name: Seq<char>, group: u32) -> Seq<char> {
    "'"@ + name + "' が @group("@ + decimal(group as nat) + ") にありますが、group(0) のみ対応しています"@
}

/// The bindings among the first `n` global variables, in order, or the first error.
pub open spec fn bindings_spec(m: ModuleModel, n: int) -> Result<Seq<BindingView>, Seq<char>>
    decreases n,
{
    if n <= 0 {
        Ok(Seq::empty())
    } else {
        match bindings_spec(m, n - 1) {
            Err(e) => Err(e),
            Ok(prev) => {
                let g = m.globals@[n - 1];
                match g.binding {
                    None => Ok(prev),
                    Some((group, binding)) => {
                        let name = name_text(g.name);
                        if group != 0 {
                            Err(group_message(name, group))
                        } else {
                            match classify_spec(m, g, name) {
                                Err(e) => Err(e),
                                Ok(kind) => Ok(prev.push(BindingView { name, binding, kind })),
                            }
                        }
                    },
                }
            },
        }
    }
}

/// How many of the first `n` global variables are resource bindings: the position in the
/// binding list of global `n` when it is one.
pub open spec fn binding_count(m: ModuleModel, n: int) -> nat
    decreases n,
{
    if n <= 0 {
        0
    } else {
        binding_count(m, n - 1) + if m.globals@[n - 1].binding is Some { 1nat } else { 0nat }
    }
}

/// Whether entry point `e` uses global variable `g`.
pub open spec fn entry_uses(e: EntryModel, g: int) -> bool {
    0 <= g < e.uses@.len() && e.uses@[g]
}

/// The binding-list positions of the bindings among the first `n` globals that `e` uses.
pub open spec fn used_spec(m: ModuleModel, e: EntryModel, n: int) -> Seq<usize>
    decreases n,
{
    if n <= 0 {
        Seq::empty()
    } else {
        let prev = used_spec(m, e, n - 1);
        if m.globals@[n - 1].binding is Some && entry_uses(e, n - 1) {
            prev.push(binding_count(m, n - 1) as usize)
        } else {
            prev
        }
    }
}

/// The compute entry points among the first `n` entry points.
pub open spec fn compute_entries_spec(m: ModuleModel, n: int) -> Seq<EntryView>
    decreases n,
{
    if n <= 0 {
        Seq::empty()
    } else {
        let prev = compute_entries_spec(m, n - 1);
        let e = m.entries@[n - 1];
        if e.stage == ShaderStage::Compute {
            prev.push(EntryView { name: e.name@, workgroup_size: e.workgroup_size, used: used_spec(m, e, m.globals@.len() as int) })
        } else {
            prev
        }
    }
}

/// The vertex and fragment entry points among the first `n` entry points.
pub open spec fn render_entries_spec(m: ModuleModel, n: int) -> Seq<RenderEntryView>
    decreases n,
{
    if n <= 0 {
        Seq::empty()
    } else {
        let prev = render_entries_spec(m, n - 1);
        let e = m.entries@[n - 1];
        if e.stage == ShaderStage::Vertex || e.stage == ShaderStage::Fragment {
            prev.push(RenderEntryView { name: e.name@, stage: e.stage, used: used_spec(m, e, m.globals@.len() as int) })
        } else {
            prev
        }
    }
}

/// Everything reflected from a module, or the first binding's error.
pub open spec fn reflect_spec(m: ModuleModel) -> Result<ShaderView, Seq<char>> {
    match bindings_spec(m, m.globals@.len() as int) {
        Err(e) => Err(e),
        Ok(bindings) => Ok(ShaderView {
            entry_points: compute_entries_spec(m, m.entries@.len() as int),
            render_entries: render_entries_spec(m, m.entries@.len() as int),
            bindings,
        }),
    }
}

/// The text of an optional name (empty when there is none).
fn name_or_empty(name: &Option<String>) -> (s: String)
    ensures
        s@ == name_text(*name),
{
    match name {
        Some(n) => n.clone(),
        None => String::new(),
    }
}

/// The byte size of a scalar, vector, struct or atomic type.
fn type_size(shape: &TypeShape) -> (r: Option<u32>)
    ensures
        r == type_size_spec(*shape),
{
    match shape {
        TypeShape::Scalar { width, .. } => Some(*width as u32),
        TypeShape::Vector { size, width, .. } => {
            let (a, b) = (*size as u32, *width as u32);
            assert(a * b <= 255 * 255) by (nonlinear_arith)
                requires
                    a <= 255,
                    b <= 255,
            ;
            Some(a * b)
        },
        TypeShape::Struct { span, .. } => Some(*span),
        TypeShape::Atomic { width } => Some(*width as u32),
        _ => None,
    }
}

/// A supported storage texture format, by its name.
fn convert_format(format: &str, name: &str) -> (r: Result<TextureFormat, String>)
    ensures
        text_result(r) == format_spec(format@, name@),
{
    if same_text(format, "Rgba8Unorm") {
        Ok(TextureFormat::Rgba8Unorm)
    } else if same_text(format, "Rgba32Float") {
        Ok(TextureFormat::Rgba32Float)
    } else if same_text(format, "R32Float") {
        Ok(TextureFormat::R32Float)
    } else if same_text(format, "Rgba16Float") {
        Ok(TextureFormat::Rgba16Float)
    } else if same_text(format, "Rg32Float") {
        Ok(TextureFormat::Rg32Float)
    } else {
        let mut msg = String::from_str("storage texture '");
        msg.append(name);
        msg.append("' のフォーマット ");
        msg.append(format);
        msg.append(" は非対応です（rgba8unorm / rgba16float / rgba32float / rg32float / r32float）");
        Err(msg)
    }
}

/// Whether a scalar-kind name is `name`.
fn kind_is(kind: &String, name: &str) -> (r: bool)
    ensures
        r == (kind@ == name@),
{
    same_text(kind.as_str(), name)
}

/// Slang's column wrapper of a `float4x4` uniform member.
fn is_mat4_storage(m: &ModuleModel, members: &Vec<StructMemberModel>, span: u32) -> (r: bool)
    ensures
        r == is_mat4_storage_spec(*m, members@, span),
{
    if span != 64 || members.len() != 1 || members[0].offset != 0 {
        return false;
    }
    let t = members[0].ty;
    if t >= m.types.len() {
        return false;
    }
    match &m.types[t].shape {
        TypeShape::Array { base, size, .. } => {
            if *size != Some(4u32) || *base >= m.types.len() {
                return false;
            }
            match &m.types[*base].shape {
                TypeShape::Vector { size, kind, .. } => *size == 4 && kind_is(kind, "Float"),
                _ => false,
            }
        },
        _ => false,
    }
}

/// The message for a struct member of an unsupported type.
fn unsupported_member(struct_name: &str, name: &str, printed: &str) -> (msg: String)
    ensures
        msg@ == unsupported_member_message(struct_name@, name@, printed@),
{
    let mut msg = String::from_str("uniform '");
    msg.append(struct_name);
    msg.append(".");
    msg.append(name);
    msg.append("' の型は非対応です（f32/i32/u32/vecNf/mat4x4f のみ）: ");
    msg.append(printed);
    msg
}

/// The kind of a struct member, or why it cannot be written by name.
fn member_kind(m: &ModuleModel, struct_name: &str, member: &StructMemberModel) -> (r: Result<MemberKind, String>)
    ensures
        text_result(r) == member_kind_spec(*m, struct_name@, *member),
{
    let name = name_or_empty(&member.name);
    let t = member.ty;
    if t >= m.types.len() {
        proof {
            reveal_strlit("");
        }
        return Err(unsupported_member(struct_name, name.as_str(), ""));
    }
    let ty = &m.types[t];
    let printed = ty.debug.as_str();
    match &ty.shape {
        TypeShape::Scalar { kind, .. } => {
            if kind_is(kind, "Float") {
                Ok(MemberKind::F32)
            } else if kind_is(kind, "Sint") {
                Ok(MemberKind::I32)
            } else if kind_is(kind, "Uint") {
                Ok(MemberKind::U32)
            } else {
                let mut msg = String::from_str("uniform '");
                msg.append(struct_name);
                msg.append(".");
                msg.append(name.as_str());
                msg.append("' の型 ");
                msg.append(kind.as_str());
                msg.append(" は非対応です");
                Err(msg)
            }
        },
        TypeShape::Vector { size, kind, .. } => {
            if kind_is(kind, "Float") {
                Ok(MemberKind::VecF(*size))
            } else {
                Err(unsupported_member(struct_name, name.as_str(), printed))
            }
        },
        TypeShape::Matrix { columns, rows, kind } => {
            if *columns == 4 && *rows == 4 && kind_is(kind, "Float") {
                Ok(MemberKind::Mat4)
            } else {
                Err(unsupported_member(struct_name, name.as_str(), printed))
            }
        },
        TypeShape::Struct { members, span } => {
            if is_mat4_storage(m, members, *span) {
                Ok(MemberKind::Mat4)
            } else {
                Err(unsupported_member(struct_name, name.as_str(), printed))
            }
        },
        _ => Err(unsupported_member(struct_name, name.as_str(), printed)),
    }
}

/// Once a member fails, every longer prefix of the member list fails the same way.
proof fn lemma_members_error_sticks(
    m: ModuleModel,
    members: Seq<StructMemberModel>,
    k: int,
    n: int,
    struct_name: Seq<char>,
)
    requires
        0 <= k <= n <= members.len(),
        members_spec(m, members.take(k), struct_name) is Err,
    ensures
        members_spec(m, members.take(n), struct_name) == members_spec(m, members.take(k), struct_name),
    decreases n - k,
{
    if n > k {
        lemma_members_error_sticks(m, members, k, n - 1, struct_name);
        assert(members.take(n).drop_last() =~= members.take(n - 1));
    }
}

/// The layout of a struct of `span` bytes.
fn struct_layout(m: &ModuleModel, members: &Vec<StructMemberModel>, span: u32, struct_name: &str) -> (r: Result<StructLayout, String>)
    ensures
        match layout_spec(*m, members@, span, struct_name@) {
            Ok(l) => r matches Ok(x) && x@ == l,
            Err(e) => r matches Err(x) && x@ == e,
        },
{
    let mut out: Vec<MemberInfo> = Vec::new();
    let mut i: usize = 0;
    assert(members@.take(0) =~= Seq::<StructMemberModel>::empty());
    assert(out@.map_values(|x: MemberInfo| x@) =~= Seq::<MemberView>::empty());
    while i < members.len()
        invariant
            i <= members@.len(),
            out@.len() == i,
            members_spec(*m, members@.take(i as int), struct_name@) == Ok::<Seq<MemberView>, Seq<char>>(
                out@.map_values(|x: MemberInfo| x@),
            ),
        decreases members@.len() - i,
    {
        let member = &members[i];
        assert(members@.take(i + 1).drop_last() =~= members@.take(i as int));
        assert(members@.take(i + 1).last() == members@[i as int]);
        match member_kind(m, struct_name, member) {
            Err(e) => {
                proof {
                    lemma_members_error_sticks(*m, members@, i + 1, members@.len() as int, struct_name@);
                    assert(members@.take(members@.len() as int) =~= members@);
                }
                return Err(e);
            },
            Ok(kind) => {
                let ghost before = out@;
                out.push(MemberInfo { name: name_or_empty(&member.name), offset: member.offset, kind });
                assert(out@.map_values(|x: MemberInfo| x@) =~= before.map_values(|x: MemberInfo| x@).push(out@[i as int]@));
            },
        }
        i += 1;
    }
    assert(members@.take(members@.len() as int) =~= members@);
    Ok(StructLayout { size: span, members: out })
}

/// The message for a storage binding whose size cannot be determined.
fn unsized_storage(name: &str) -> (msg: String)
    ensures
        msg@ == "storage '"@ + name@ + "' の型サイズを決定できません"@,
{
    let mut msg = String::from_str("storage '");
    msg.append(name);
    msg.append("' の型サイズを決定できません");
    msg
}

/// A storage buffer binding whose type is type `t`.
fn storage_kind(m: &ModuleModel, t: usize, writable: bool, name: &str) -> (r: Result<BindingKind, String>)
    ensures
        match storage_spec(*m, shape_at(*m, t as int), writable, name@) {
            Ok(k) => r matches Ok(x) && x@ == k,
            Err(e) => r matches Err(x) && x@ == e,
        },
{
    let fallback = TypeShape::Other;
    let shape: &TypeShape = if t < m.types.len() {
        &m.types[t].shape
    } else {
        &fallback
    };
    let stride = match shape {
        TypeShape::Array { stride, .. } => Some(*stride),
        _ => type_size(shape),
    };
    let stride = match stride {
        Some(s) => s,
        None => {
            return Err(unsized_storage(name));
        },
    };
    let element: &TypeShape = match shape {
        TypeShape::Array { base, .. } => if *base < m.types.len() {
            &m.types[*base].shape
        } else {
            &fallback
        },
        _ => shape,
    };
    let layout = match element {
        TypeShape::Struct { members, span } => match struct_layout(m, members, *span, name) {
            Ok(l) => Some(l),
            Err(_) => None,
        },
        _ => None,
    };
    Ok(BindingKind::Storage { read_only: !writable, stride, layout })
}

/// A texture binding.
fn image_kind(dim: &String, arrayed: bool, storage: &Option<StorageImageModel>, name: &str) -> (r: Result<BindingKind, String>)
    ensures
        match image_spec(dim@, arrayed, *storage, name@) {
            Ok(k) => r matches Ok(x) && x@ == k,
            Err(e) => r matches Err(x) && x@ == e,
        },
{
    match storage {
        Some(st) => match convert_format(st.format.as_str(), name) {
            Err(e) => Err(e),
            Ok(format) => Ok(BindingKind::StorageTexture { format, write_only: !st.readable }),
        },
        None => {
            if kind_is(dim, "D2") && !arrayed {
                Ok(BindingKind::SampledTexture { cube: false })
            } else if kind_is(dim, "Cube") && !arrayed {
                Ok(BindingKind::SampledTexture { cube: true })
            } else {
                let mut msg = String::from_str("texture '");
                msg.append(name);
                msg.append("' は 2D かキューブ（配列なし）のみ対応です");
                Err(msg)
            }
        },
    }
}

/// The kind of a resource binding, or why it is not supported.
fn classify(m: &ModuleModel, g: &GlobalModel, name: &str) -> (r: Result<BindingKind, String>)
    ensures
        match classify_spec(*m, *g, name@) {
            Ok(k) => r matches Ok(x) && x@ == k,
            Err(e) => r matches Err(x) && x@ == e,
        },
{
    let t = g.ty;
    match &g.space {
        SpaceModel::Uniform => {
            if t < m.types.len() {
                if let TypeShape::Struct { members, span } = &m.types[t].shape {
                    return match struct_layout(m, members, *span, name) {
                        Ok(layout) => Ok(BindingKind::Uniform { layout }),
                        Err(e) => Err(e),
                    };
                }
            }
            let mut msg = String::from_str("uniform '");
            msg.append(name);
            msg.append("' は struct にしてください（スカラー単体の uniform は非対応）");
            Err(msg)
        },
        SpaceModel::Storage { writable } => storage_kind(m, t, *writable, name),
        SpaceModel::Other => {
            if t < m.types.len() {
                match &m.types[t].shape {
                    TypeShape::Image { dim, arrayed, storage } => {
                        return image_kind(dim, *arrayed, storage, name);
                    },
                    TypeShape::Sampler => {
                        return Ok(BindingKind::Sampler);
                    },
                    _ => {},
                }
            }
            let mut msg = String::from_str("binding '");
            msg.append(name);
            msg.append("' の種別を判別できません");
            Err(msg)
        },
    }
}

/// Once a binding fails, every longer prefix of the globals fails the same way.
proof fn lemma_bindings_error_sticks(m: ModuleModel, k: int, n: int)
    requires
        0 <= k <= n,
        bindings_spec(m, k) is Err,
    ensures
        bindings_spec(m, n) == bindings_spec(m, k),
    decreases n - k,
{
    if n > k {
        lemma_bindings_error_sticks(m, k, n - 1);
    }
}

/// The binding-list positions of the bindings that entry point `e` uses, in order;
/// `positions[g]` is global `g`'s position in the binding list.
fn used_bindings(m: &ModuleModel, e: &EntryModel, positions: &Vec<usize>) -> (used: Vec<usize>)
    requires
        positions@.len() == m.globals@.len(),
        forall|k: int| 0 <= k < positions@.len() ==> positions@[k] == binding_count(*m, k),
    ensures
        used@ == used_spec(*m, *e, m.globals@.len() as int),
        uses_in_range(used@, binding_count(*m, m.globals@.len() as int) as int),
{
    let mut used: Vec<usize> = Vec::new();
    let mut g: usize = 0;
    while g < m.globals.len()
        invariant
            g <= m.globals@.len(),
            positions@.len() == m.globals@.len(),
            forall|k: int| 0 <= k < positions@.len() ==> positions@[k] == binding_count(*m, k),
            used@ == used_spec(*m, *e, g as int),
            uses_in_range(used@, binding_count(*m, g as int) as int),
        decreases m.globals@.len() - g,
    {
        if m.globals[g].binding.is_some() && g < e.uses.len() && e.uses[g] {
            used.push(positions[g]);
        }
        assert(binding_count(*m, g as int) <= binding_count(*m, g + 1));
        g += 1;
    }
    used
}

/// Reflection of a parsed and validated module: the resource bindings of group 0 with their
/// kinds and layouts, and the compute and render entry points with the bindings each uses.
pub fn reflect_model(m: &ModuleModel) -> (r: Result<ShaderInfo, String>)
    ensures
        match reflect_spec(*m) {
            Ok(v) => r matches Ok(info) && info@ == v && info.well_formed(),
            Err(e) => r matches Err(x) && x@ == e,
        },
{
    let mut bindings: Vec<BindingInfo> = Vec::new();
    let mut positions: Vec<usize> = Vec::new();
    let mut i: usize = 0;
    assert(bindings@.map_values(|b: BindingInfo| b@) =~= Seq::<BindingView>::empty());
    while i < m.globals.len()
        invariant
            i <= m.globals@.len(),
            bindings_spec(*m, i as int) == Ok::<Seq<BindingView>, Seq<char>>(
                bindings@.map_values(|b: BindingInfo| b@),
            ),
            bindings@.len() == binding_count(*m, i as int),
            positions@.len() == i,
            forall|k: int| 0 <= k < i ==> positions@[k] == binding_count(*m, k),
        decreases m.globals@.len() - i,
    {
        let g = &m.globals[i];
        positions.push(bindings.len());
        match g.binding {
            None => {},
            Some((group, binding)) => {
                let name = name_or_empty(&g.name);
                if group != 0 {
                    let mut msg = String::from_str("'");
                    msg.append(name.as_str());
                    msg.append("' が @group(");
                    push_decimal(&mut msg, group as u64);
                    msg.append(") にありますが、group(0) のみ対応しています");
                    proof {
                        lemma_bindings_error_sticks(*m, i + 1, m.globals@.len() as int);
                    }
                    return Err(msg);
                }
                match classify(m, g, name.as_str()) {
                    Err(e) => {
                        proof {
                            lemma_bindings_error_sticks(*m, i + 1, m.globals@.len() as int);
                        }
                        return Err(e);
                    },
                    Ok(kind) => {
                        let ghost before = bindings@;
                        bindings.push(BindingInfo { name, binding, kind });
                        assert(bindings@.map_values(|b: BindingInfo| b@) =~= before.map_values(
                            |b: BindingInfo| b@,
                        ).push(bindings@.last()@));
                    },
                }
            },
        }
        i += 1;
    }
    let ghost n = m.globals@.len() as int;
    let mut entry_points: Vec<EntryInfo> = Vec::new();
    let mut render_entries: Vec<RenderEntry> = Vec::new();
    let mut e: usize = 0;
    assert(entry_points@.map_values(|x: EntryInfo| x@) =~= Seq::<EntryView>::empty());
    assert(render_entries@.map_values(|x: RenderEntry| x@) =~= Seq::<RenderEntryView>::empty());
    while e < m.entries.len()
        invariant
            e <= m.entries@.len(),
            n == m.globals@.len(),
            bindings_spec(*m, n) == Ok::<Seq<BindingView>, Seq<char>>(
                bindings@.map_values(|b: BindingInfo| b@),
            ),
            bindings@.len() == binding_count(*m, n),
            positions@.len() == n,
            forall|k: int| 0 <= k < n ==> positions@[k] == binding_count(*m, k),
            entry_points@.map_values(|x: EntryInfo| x@) == compute_entries_spec(*m, e as int),
            render_entries@.map_values(|x: RenderEntry| x@) == render_entries_spec(*m, e as int),
            forall|k: int|
                0 <= k < entry_points@.len() ==> uses_in_range(
                    #[trigger] entry_points@[k].used_bindings@,
                    bindings@.len() as int,
                ),
            forall|k: int|
                0 <= k < render_entries@.len() ==> uses_in_range(
                    #[trigger] render_entries@[k].used_bindings@,
                    bindings@.len() as int,
                ),
        decreases m.entries@.len() - e,
    {
        let ep = &m.entries[e];
        let used = used_bindings(m, ep, &positions);
        match ep.stage {
            ShaderStage::Compute => {
                let ghost before = entry_points@;
                entry_points.push(
                    EntryInfo { name: ep.name.clone(), workgroup_size: ep.workgroup_size, used_bindings: used },
                );
                assert(entry_points@.map_values(|x: EntryInfo| x@) =~= before.map_values(
                    |x: EntryInfo| x@,
                ).push(entry_points@.last()@));
            },
            ShaderStage::Vertex | ShaderStage::Fragment => {
                let ghost before = render_entries@;
                render_entries.push(
                    RenderEntry { name: ep.name.clone(), stage: ep.stage, used_bindings: used },
                );
                assert(render_entries@.map_values(|x: RenderEntry| x@) =~= before.map_values(
                    |x: RenderEntry| x@,
                ).push(render_entries@.last()@));
            },
            ShaderStage::Other => {},
        }
        e += 1;
    }
    Ok(ShaderInfo { entry_points, render_entries, bindings })
}

/// Parses and validates WGSL, then reflects it: a syntax error or a validation error is
/// reported with the front end's own report of it; otherwise the result is that of
/// `reflect_model` on the model of the module the source gives.
pub fn reflect(wgsl: &str) -> (r: Result<ShaderInfo, String>)
    ensures
        !wgsl_parses(wgsl@) ==> (r matches Err(msg) && msg@ == "シェーダの構文エラー:\n"@ + wgsl_syntax_report(wgsl@)),
        wgsl_parses(wgsl@) && !wgsl_validates(wgsl@) ==> (r matches Err(msg) && msg@ == "シェーダの検証エラー:\n"@ + wgsl_validation_report(wgsl@)),
        wgsl_parses(wgsl@) && wgsl_validates(wgsl@) ==> exists|m: ModuleModel| {
            &&& model_of_source(m, wgsl@)
            &&& match reflect_spec(m) {
                Ok(v) => r matches Ok(info) && info@ == v && info.well_formed(),
                Err(e) => r matches Err(x) && x@ == e,
            }
        },
{
    let model = match load_wgsl(wgsl) {
        Ok(model) => model,
        Err(FrontError::Syntax(report)) => {
            let mut msg = String::from_str("シェーダの構文エラー:\n");
            msg.append(report.as_str());
            return Err(msg);
        },
        Err(FrontError::Invalid(report)) => {
            let mut msg = String::from_str("シェーダの検証エラー:\n");
            msg.append(report.as_str());
            return Err(msg);
        },
    };
    let r = reflect_model(&model);
    assert(model_of_source(model, wgsl@));
    r
}

/// Every supported storage texture format is read back as itself: the format whose name the
/// WGSL type gives is the format reflected.
pub proof fn lemma_format_names_read_back(f: TextureFormat, name: Seq<char>)
    ensures
        format_spec(format_name(f), name) == Ok::<TextureFormat, Seq<char>>(f),
{
    reveal_strlit("Rgba8Unorm");
    reveal_strlit("Rgba32Float");
    reveal_strlit("R32Float");
    reveal_strlit("Rgba16Float");
    reveal_strlit("Rg32Float");
    assert("Rgba16Float"@[4] != "Rgba32Float"@[4]);
    assert("Rgba8Unorm"@.len() == 10);
    assert("Rgba32Float"@.len() == 11);
    assert("R32Float"@.len() == 8);
    assert("Rgba16Float"@.len() == 11);
    assert("Rg32Float"@.len() == 9);
}

/// A format name is accepted only as the format of that name.
pub proof fn lemma_format_accepted_by_name(format: Seq<char>, name: Seq<char>)
    ensures
        format_spec(format, name) matches Ok(f) ==> format_name(f) == format,
{
}

/// Each reflected binding comes from a global variable of group 0 among the first `n`, with
/// that global's name and binding number, and with the kind the global classifies as.
proof fn lemma_bindings_from_globals(m: ModuleModel, n: int)
    requires
        n <= m.globals@.len(),
    ensures
        bindings_spec(m, n) matches Ok(bs) ==> forall|j: int|
            #![trigger bs[j]]
            0 <= j < bs.len() ==> exists|k: int|
                0 <= k < n && k < m.globals@.len()
                    && (#[trigger] m.globals@[k]).binding == Some((0u32, bs[j].binding))
                    && bs[j].name == name_text(m.globals@[k].name)
                    && classify_spec(m, m.globals@[k], bs[j].name) == Ok::<KindView, Seq<char>>(bs[j].kind),
    decreases n,
{
    if n > 0 {
        lemma_bindings_from_globals(m, n - 1);
        if bindings_spec(m, n) is Ok {
            let bs = bindings_spec(m, n)->Ok_0;
            let prev = bindings_spec(m, n - 1)->Ok_0;
            assert forall|j: int| #![trigger bs[j]] 0 <= j < bs.len() implies exists|k: int|
                0 <= k < n && k < m.globals@.len()
                    && (#[trigger] m.globals@[k]).binding == Some((0u32, bs[j].binding))
                    && bs[j].name == name_text(m.globals@[k].name)
                    && classify_spec(m, m.globals@[k], bs[j].name) == Ok::<KindView, Seq<char>>(bs[j].kind) by {
                if j < prev.len() {
                    assert(bs[j] == prev[j]);
                    let k = choose|k: int|
                        0 <= k < n - 1 && k < m.globals@.len()
                            && (#[trigger] m.globals@[k]).binding == Some((0u32, prev[j].binding))
                            && prev[j].name == name_text(m.globals@[k].name)
                            && classify_spec(m, m.globals@[k], prev[j].name) == Ok::<KindView, Seq<char>>(prev[j].kind);
                } else {
                    let g = m.globals@[n - 1];
                    let name = name_text(g.name);
                    let (group, binding) = g.binding->Some_0;
                    let kind = classify_spec(m, g, name)->Ok_0;
                    assert(bs == prev.push(BindingView { name, binding, kind }));
                    assert(bs[j] == BindingView { name, binding, kind });
                    assert(m.globals@[n - 1].binding == Some((0u32, bs[j].binding)));
                }
            }
        }
    }
}

/// A storage texture reflected from a module has the format its WGSL type names: it comes
/// from a global variable of group 0 with the same binding number and name whose type is a
/// storage texture type, the reflected format's name is that type's format name, and it is
/// write-only exactly when the type does not allow reads.
pub proof fn lemma_reflected_storage_texture_format(m: ModuleModel)
    ensures
        reflect_spec(m) matches Ok(v) ==> forall|j: int|
            0 <= j < v.bindings.len() ==> ((#[trigger] v.bindings[j]).kind matches KindView::StorageTexture {
                format,
                write_only,
            } ==> exists|k: int|
                0 <= k < m.globals@.len()
                    && (#[trigger] m.globals@[k]).binding == Some((0u32, v.bindings[j].binding))
                    && v.bindings[j].name == name_text(m.globals@[k].name)
                    && m.globals@[k].space is Other
                    && (shape_at(m, m.globals@[k].ty as int) matches TypeShape::Image { storage: Some(st), .. }
                        && format_name(format) == st.format@ && write_only == !st.readable)),
{
    lemma_bindings_from_globals(m, m.globals@.len() as int);
    if reflect_spec(m) is Ok {
        let v = reflect_spec(m)->Ok_0;
        assert forall|j: int| 0 <= j < v.bindings.len() implies ((#[trigger] v.bindings[j]).kind matches KindView::StorageTexture {
            format,
            write_only,
        } ==> exists|k: int|
            0 <= k < m.globals@.len()
                && (#[trigger] m.globals@[k]).binding == Some((0u32, v.bindings[j].binding))
                && v.bindings[j].name == name_text(m.globals@[k].name)
                && m.globals@[k].space is Other
                && (shape_at(m, m.globals@[k].ty as int) matches TypeShape::Image { storage: Some(st), .. }
                    && format_name(format) == st.format@ && write_only == !st.readable)) by {
            if v.bindings[j].kind is StorageTexture {
                let k = choose|k: int|
                    0 <= k < m.globals@.len() && k < m.globals@.len()
                        && (#[trigger] m.globals@[k]).binding == Some((0u32, v.bindings[j].binding))
                        && v.bindings[j].name == name_text(m.globals@[k].name)
                        && classify_spec(m, m.globals@[k], v.bindings[j].name) == Ok::<KindView, Seq<char>>(v.bindings[j].kind);
                let g = m.globals@[k];
                match shape_at(m, g.ty as int) {
                    TypeShape::Image { dim, arrayed, storage } => {
                        if let Some(st) = storage {
                            lemma_format_accepted_by_name(st.format@, v.bindings[j].name);
                        }
                    },
                    _ => {},
                }
            }
        }
    }
}

} // verus!
