//! Reading WGSL through naga: parsing, validation, and the plain model of the validated
//! module that reflection works on.
use crate::reflect::{
    EntryModel, GlobalModel, ModuleModel, ShaderStage, SpaceModel, StorageImageModel,
    StructMemberModel, TypeModel, TypeShape,
};
use vstd::prelude::*;

verus! {

/// naga's shader module, held opaque.
#[verifier::external_type_specification]
#[verifier::external_body]
pub struct ExNagaModule(naga::Module);

/// What naga's validation found out about a module, held opaque.
#[verifier::external_type_specification]
#[verifier::external_body]
pub struct ExNagaModuleInfo(naga::valid::ModuleInfo);

/// A WGSL syntax error, held opaque.
#[verifier::external_type_specification]
#[verifier::external_body]
pub struct ExNagaParseError(naga::front::wgsl::ParseError);

/// A validation error, held opaque.
#[verifier::external_type_specification]
#[verifier::external_body]
pub struct ExNagaValidationError(naga::valid::ValidationError);

/// An error with the source spans it refers to, held opaque.
#[verifier::external_type_specification]
#[verifier::external_body]
#[verifier::reject_recursive_types(E)]
pub struct ExNagaWithSpan<E>(naga::WithSpan<E>);

/// A module parsed from WGSL, kept together with the source text it was parsed from.
pub struct ParsedModule {
    source: String,
    module: naga::Module,
}

/// A module that passed validation, kept together with its source text and with what
/// validation found out about it, so that the per-entry-point usage always belongs to this
/// module.
pub struct ValidModule {
    source: String,
    module: naga::Module,
    info: naga::valid::ModuleInfo,
}

/// A WGSL syntax error, kept together with the source text it was found in.
pub struct SyntaxFailure {
    source: String,
    error: naga::front::wgsl::ParseError,
}

/// A validation error, kept together with the source text of the module it was found in.
pub struct ValidationFailure {
    source: String,
    error: naga::WithSpan<naga::valid::ValidationError>,
}

impl View for SyntaxFailure {
    type V = Seq<char>;

    /// The source text the error was found in.
    closed spec fn view(&self) -> Seq<char> {
        self.source@
    }
}

impl View for ValidationFailure {
    type V = Seq<char>;

    /// The source text the error was found in.
    closed spec fn view(&self) -> Seq<char> {
        self.source@
    }
}

impl View for ParsedModule {
    type V = Seq<char>;

    /// The source text the module was parsed from.
    closed spec fn view(&self) -> Seq<char> {
        self.source@
    }
}

impl View for ValidModule {
    type V = Seq<char>;

    /// The source text the module was parsed from.
    closed spec fn view(&self) -> Seq<char> {
        self.source@
    }
}

/// Whether naga's WGSL front end parses `source`.
pub uninterp spec fn wgsl_parses(source: Seq<char>) -> bool;

/// Whether naga's validator, with every validation flag and capability enabled, accepts the
/// module parsed from `source`.
pub uninterp spec fn wgsl_validates(source: Seq<char>) -> bool;

/// The front end's report of the syntax error found in `source`, rendered against `source`.
pub uninterp spec fn wgsl_syntax_report(source: Seq<char>) -> Seq<char>;

/// The validator's report of the error found in the module parsed from `source`, rendered
/// against `source`.
pub uninterp spec fn wgsl_validation_report(source: Seq<char>) -> Seq<char>;

/// How many types the module parsed from `source` has.
pub uninterp spec fn wgsl_type_count(source: Seq<char>) -> usize;

/// Type `i` of the module parsed from `source`, in the library's terms.
pub uninterp spec fn wgsl_type(source: Seq<char>, i: int) -> TypeModel;

/// How many global variables the module parsed from `source` has.
pub uninterp spec fn wgsl_global_count(source: Seq<char>) -> usize;

/// Global variable `i` of the module parsed from `source`, in the library's terms.
pub uninterp spec fn wgsl_global(source: Seq<char>, i: int) -> GlobalModel;

/// How many entry points the module parsed from `source` has.
pub uninterp spec fn wgsl_entry_count(source: Seq<char>) -> usize;

/// Entry point `i` of the module parsed from `source`: its name, stage and workgroup size.
pub uninterp spec fn wgsl_entry(source: Seq<char>, i: int) -> (String, ShaderStage, [u32; 3]);

/// Whether, by validation of the module parsed from `source`, entry point `e` uses global
/// variable `g`.
pub uninterp spec fn wgsl_entry_uses(source: Seq<char>, e: int, g: int) -> bool;

/// The scalar, vector and matrix shapes; `Other` for any other.
pub open spec fn numeric_part(shape: TypeShape) -> TypeShape {
    match shape {
        TypeShape::Scalar { .. } => shape,
        TypeShape::Vector { .. } => shape,
        TypeShape::Matrix { .. } => shape,
        _ => TypeShape::Other,
    }
}

/// The image and sampler shapes.
pub open spec fn handle_part(shape: TypeShape) -> Option<TypeShape> {
    match shape {
        TypeShape::Image { .. } => Some(shape),
        TypeShape::Sampler => Some(shape),
        _ => None,
    }
}

/// `m` is the model of the module parsed from `source`: its types, global variables and entry
/// points in order, and for each entry point the usage of every global variable.
pub open spec fn model_of_source(m: ModuleModel, source: Seq<char>) -> bool {
    &&& m.types@.len() == wgsl_type_count(source)
    &&& forall|k: int| 0 <= k < m.types@.len() ==> #[trigger] m.types@[k] == wgsl_type(source, k)
    &&& m.globals@.len() == wgsl_global_count(source)
    &&& forall|k: int| 0 <= k < m.globals@.len() ==> #[trigger] m.globals@[k] == wgsl_global(source, k)
    &&& m.entries@.len() == wgsl_entry_count(source)
    &&& forall|e: int|
        0 <= e < m.entries@.len() ==> {
            &&& (#[trigger] m.entries@[e]).name == wgsl_entry(source, e).0
            &&& m.entries@[e].stage == wgsl_entry(source, e).1
            &&& m.entries@[e].workgroup_size == wgsl_entry(source, e).2
            &&& m.entries@[e].uses@.len() == m.globals@.len()
            &&& forall|g: int| 0 <= g < m.globals@.len() ==> #[trigger] m.entries@[e].uses@[g] == wgsl_entry_uses(source, e, g)
        }
}

/// Why a source could not be read: the front end's report of a syntax or a validation error.
pub enum FrontError {
    Syntax(String),
    Invalid(String),
}

/// `naga::front::wgsl::parse_str`: parses WGSL source text into a module, kept with the
/// source, or reports why it cannot, the error kept with the same source. Claimed: it succeeds
/// exactly when the source parses (`wgsl_parses`, a function of the text alone).
#[verifier::external_body]
fn parse_wgsl(source: &str) -> (r: Result<ParsedModule, SyntaxFailure>)
    ensures
        r is Ok <==> wgsl_parses(source@),
        r matches Ok(p) ==> p@ == source@,
        r matches Err(e) ==> e@ == source@,
{
    match naga::front::wgsl::parse_str(source) {
        Ok(module) => Ok(ParsedModule { source: String::from(source), module }),
        Err(error) => Err(SyntaxFailure { source: String::from(source), error }),
    }
}

/// `ParseError::emit_to_string`: the parser's report of a syntax error, rendered against the
/// very source text the error was found in, so every span it quotes lies inside that text.
/// naga renders the text with each non-whitespace control character widened to U+FFFD, which
/// only lengthens it; codespan's line lookups fail only for positions past the end, so the
/// `expect` inside is not reached. Claimed: the report is `wgsl_syntax_report` of that source.
#[verifier::external_body]
fn parse_error_report(e: &SyntaxFailure) -> (r: String)
    ensures
        r@ == wgsl_syntax_report(e@),
{
    e.error.emit_to_string(&e.source)
}

/// `naga::valid::Validator::validate`, by a validator made with `Validator::new` with every
/// validation flag and capability enabled; on success the module is kept with its source and
/// the `ModuleInfo` validation produced for it, on failure the error is kept with the source.
/// Claimed: it succeeds exactly when the source validates (`wgsl_validates`), and keeps the
/// source.
#[verifier::external_body]
fn validate_module(parsed: ParsedModule) -> (r: Result<ValidModule, ValidationFailure>)
    ensures
        r is Ok <==> wgsl_validates(parsed@),
        r matches Ok(v) ==> v@ == parsed@,
        r matches Err(e) ==> e@ == parsed@,
{
    let mut validator = naga::valid::Validator::new(
        naga::valid::ValidationFlags::all(),
        naga::valid::Capabilities::all(),
    );
    match validator.validate(&parsed.module) {
        Ok(info) => Ok(ValidModule { source: parsed.source, module: parsed.module, info }),
        Err(error) => Err(ValidationFailure { source: parsed.source, error }),
    }
}

/// `WithSpan::emit_to_string`: the validator's report of an error, rendered against the source
/// text of the module it was found in, so every span it quotes lies inside that text (the
/// widening of control characters only lengthens it, as for `parse_error_report`). Claimed: the
/// report is `wgsl_validation_report` of that source.
#[verifier::external_body]
fn validation_error_report(e: &ValidationFailure) -> (r: String)
    ensures
        r@ == wgsl_validation_report(e@),
{
    e.error.emit_to_string(&e.source)
}

/// `UniqueArena::len`: how many types the module has (`wgsl_type_count`).
#[verifier::external_body]
fn type_count(v: &ValidModule) -> (r: usize)
    ensures
        r == wgsl_type_count(v@),
{
    v.module.types.len()
}

/// Type `i` of the module when it is a scalar, vector or matrix type (`Other` for any other
/// type, or when there is no type `i`), with naga's scalar kind printed by its `Debug` name
/// and vector sizes as numbers. Claimed: the scalar, vector or matrix shape of `wgsl_type`.
#[verifier::external_body]
fn type_numeric(v: &ValidModule, i: usize) -> (r: TypeShape)
    ensures
        i < wgsl_type_count(v@) ==> r == numeric_part(wgsl_type(v@, i as int).shape),
        i >= wgsl_type_count(v@) ==> r == TypeShape::Other,
{
    match v.module.types.iter().nth(i).map(|(_, t)| &t.inner) {
        Some(naga::TypeInner::Scalar(s)) => TypeShape::Scalar { kind: format!("{:?}", s.kind), width: s.width },
        Some(naga::TypeInner::Vector { size, scalar }) => TypeShape::Vector { size: u8::from(*size), kind: format!("{:?}", scalar.kind), width: scalar.width },
        Some(naga::TypeInner::Matrix { columns, rows, scalar }) => TypeShape::Matrix { columns: u8::from(*columns), rows: u8::from(*rows), kind: format!("{:?}", scalar.kind) },
        _ => TypeShape::Other,
    }
}

/// Type `i` of the module when it is an atomic type: its scalar width. Claimed: that of the
/// atomic shape of `wgsl_type`.
#[verifier::external_body]
fn type_atomic(v: &ValidModule, i: usize) -> (r: Option<u8>)
    ensures
        i < wgsl_type_count(v@) ==> r == match wgsl_type(v@, i as int).shape {
            TypeShape::Atomic { width } => Some(width),
            _ => None::<u8>,
        },
        i >= wgsl_type_count(v@) ==> r is None,
{
    match v.module.types.iter().nth(i).map(|(_, t)| &t.inner) {
        Some(naga::TypeInner::Atomic(s)) => Some(s.width),
        _ => None,
    }
}

/// Type `i` of the module when it is an array: its element type's position, its element
/// count when that is a constant, and its stride. Claimed: those of the array shape of
/// `wgsl_type`.
#[verifier::external_body]
fn type_array(v: &ValidModule, i: usize) -> (r: Option<(usize, Option<u32>, u32)>)
    ensures
        i < wgsl_type_count(v@) ==> r == match wgsl_type(v@, i as int).shape {
            TypeShape::Array { base, size, stride } => Some((base, size, stride)),
            _ => None::<(usize, Option<u32>, u32)>,
        },
        i >= wgsl_type_count(v@) ==> r is None,
{
    match v.module.types.iter().nth(i).map(|(_, t)| &t.inner) {
        Some(naga::TypeInner::Array { base, size, stride }) => Some((base.index(), match size {
            naga::ArraySize::Constant(n) => Some(n.get()),
            _ => None,
        }, *stride)),
        _ => None,
    }
}

/// Type `i` of the module when it is a struct: its members (name, type position, offset)
/// and its span. Claimed: those of the struct shape of `wgsl_type`.
#[verifier::external_body]
fn type_struct(v: &ValidModule, i: usize) -> (r: Option<(Vec<StructMemberModel>, u32)>)
    ensures
        i < wgsl_type_count(v@) ==> r == match wgsl_type(v@, i as int).shape {
            TypeShape::Struct { members, span } => Some((members, span)),
            _ => None::<(Vec<StructMemberModel>, u32)>,
        },
        i >= wgsl_type_count(v@) ==> r is None,
{
    match v.module.types.iter().nth(i).map(|(_, t)| &t.inner) {
        Some(naga::TypeInner::Struct { members, span }) => Some((members.iter().map(|m| StructMemberModel { name: m.name.clone(), ty: m.ty.index(), offset: m.offset }).collect(), *span)),
        _ => None,
    }
}

/// Type `i` of the module when it is an image or a sampler: for an image, its dimension by
/// `Debug` name, whether it is arrayed, and for a storage image its format by `Debug` name and
/// whether it can be read. Claimed: the image or sampler shape of `wgsl_type`.
#[verifier::external_body]
fn type_handle(v: &ValidModule, i: usize) -> (r: Option<TypeShape>)
    ensures
        i < wgsl_type_count(v@) ==> r == handle_part(wgsl_type(v@, i as int).shape),
        i >= wgsl_type_count(v@) ==> r is None,
{
    match v.module.types.iter().nth(i).map(|(_, t)| &t.inner) {
        Some(naga::TypeInner::Sampler { .. }) => Some(TypeShape::Sampler),
        Some(naga::TypeInner::Image { dim, arrayed, class }) => Some(TypeShape::Image { dim: format!("{:?}", dim), arrayed: *arrayed, storage: match class {
            naga::ImageClass::Storage { format, access } => Some(StorageImageModel { format: format!("{:?}", format), readable: access.contains(naga::StorageAccess::LOAD) }),
            _ => None,
        } }),
        _ => None,
    }
}

/// How type `i` of the module is printed by `Debug` (empty when there is no type `i`).
/// Claimed: the printed form of `wgsl_type`.
#[verifier::external_body]
fn type_debug(v: &ValidModule, i: usize) -> (r: String)
    ensures
        i < wgsl_type_count(v@) ==> r == wgsl_type(v@, i as int).debug,
        i >= wgsl_type_count(v@) ==> r@ == Seq::<char>::empty(),
{
    v.module.types.iter().nth(i).map(|(_, t)| format!("{:?}", t.inner)).unwrap_or_default()
}

/// `Arena::len`: how many global variables the module has (`wgsl_global_count`).
#[verifier::external_body]
fn global_count(v: &ValidModule) -> (r: usize)
    ensures
        r == wgsl_global_count(v@),
{
    v.module.global_variables.len()
}

/// Global variable `i` of the module: its name, its `(group, binding)`, its address space
/// (uniform, storage and whether it may be stored to, or another), and its type's position.
/// Claimed: `wgsl_global`, for each global variable there is.
#[verifier::external_body]
fn global_at(v: &ValidModule, i: usize) -> (r: Option<GlobalModel>)
    ensures
        i < wgsl_global_count(v@) ==> r == Some(wgsl_global(v@, i as int)),
        i >= wgsl_global_count(v@) ==> r is None,
{
    let (_, g) = v.module.global_variables.iter().nth(i)?;
    Some(GlobalModel { name: g.name.clone(), binding: g.binding.as_ref().map(|b| (b.group, b.binding)), ty: g.ty.index(), space: match g.space {
        naga::AddressSpace::Uniform => SpaceModel::Uniform,
        naga::AddressSpace::Storage { access } => SpaceModel::Storage { writable: access.contains(naga::StorageAccess::STORE) },
        _ => SpaceModel::Other,
    } })
}

/// How many entry points the module has (`wgsl_entry_count`).
#[verifier::external_body]
fn entry_count(v: &ValidModule) -> (r: usize)
    ensures
        r == wgsl_entry_count(v@),
{
    v.module.entry_points.len()
}

/// Entry point `i` of the module: its name, stage and workgroup size. Claimed: `wgsl_entry`,
/// for each entry point there is.
#[verifier::external_body]
fn entry_at(v: &ValidModule, i: usize) -> (r: Option<(String, ShaderStage, [u32; 3])>)
    ensures
        i < wgsl_entry_count(v@) ==> r == Some(wgsl_entry(v@, i as int)),
        i >= wgsl_entry_count(v@) ==> r is None,
{
    let ep = v.module.entry_points.get(i)?;
    Some((ep.name.clone(), match ep.stage {
        naga::ShaderStage::Vertex => ShaderStage::Vertex,
        naga::ShaderStage::Fragment => ShaderStage::Fragment,
        naga::ShaderStage::Compute => ShaderStage::Compute,
        _ => ShaderStage::Other,
    }, ep.workgroup_size))
}

/// `ModuleInfo::get_entry_point`: whether entry point `e` uses global variable `g`, directly
/// or through the functions it calls (false when either does not exist). Claimed:
/// `wgsl_entry_uses`, for each entry point and global variable there is.
#[verifier::external_body]
fn entry_uses(v: &ValidModule, e: usize, g: usize) -> (r: bool)
    ensures
        e < wgsl_entry_count(v@) && g < wgsl_global_count(v@) ==> r == wgsl_entry_uses(v@, e as int, g as int),
{
    match v.module.global_variables.iter().nth(g) {
        Some((h, _)) if e < v.module.entry_points.len() => !v.info.get_entry_point(e)[h].is_empty(),
        _ => false,
    }
}

/// Type `i` of a validated module, in the library's terms: `wgsl_type` for each type there
/// is, and an `Other` shape printed as nothing past the last.
fn read_type(v: &ValidModule, i: usize) -> (t: TypeModel)
    ensures
        i < wgsl_type_count(v@) ==> t == wgsl_type(v@, i as int),
        i >= wgsl_type_count(v@) ==> t.shape == TypeShape::Other && t.debug@ == Seq::<char>::empty(),
{
    let shape = match type_array(v, i) {
        Some((base, size, stride)) => TypeShape::Array { base, size, stride },
        None => match type_struct(v, i) {
            Some((members, span)) => TypeShape::Struct { members, span },
            None => match type_handle(v, i) {
                Some(handle) => handle,
                None => match type_atomic(v, i) {
                    Some(width) => TypeShape::Atomic { width },
                    None => type_numeric(v, i),
                },
            },
        },
    };
    TypeModel { shape, debug: type_debug(v, i) }
}

/// The usage of every global variable by entry point `e`, in order.
fn read_uses(v: &ValidModule, e: usize, globals: usize) -> (uses: Vec<bool>)
    ensures
        uses@.len() == globals,
        e < wgsl_entry_count(v@) && globals <= wgsl_global_count(v@) ==> forall|g: int|
            0 <= g < globals ==> #[trigger] uses@[g] == wgsl_entry_uses(v@, e as int, g),
{
    let mut uses: Vec<bool> = Vec::new();
    let mut g: usize = 0;
    while g < globals
        invariant
            g <= globals,
            uses@.len() == g,
            e < wgsl_entry_count(v@) && globals <= wgsl_global_count(v@) ==> forall|k: int|
                0 <= k < g ==> #[trigger] uses@[k] == wgsl_entry_uses(v@, e as int, k),
        decreases globals - g,
    {
        uses.push(entry_uses(v, e, g));
        g += 1;
    }
    uses
}

/// The model of a validated module: its types, global variables and entry points, in order.
fn read_module(v: &ValidModule) -> (m: ModuleModel)
    ensures
        model_of_source(m, v@),
        forall|e: int| 0 <= e < m.entries@.len() ==> #[trigger] m.entries@[e].uses@.len() == m.globals@.len(),
{
    let mut types: Vec<TypeModel> = Vec::new();
    let n = type_count(v);
    let mut i: usize = 0;
    while i < n
        invariant
            i <= n,
            n == wgsl_type_count(v@),
            types@.len() == i,
            forall|k: int| 0 <= k < i ==> #[trigger] types@[k] == wgsl_type(v@, k),
        decreases n - i,
    {
        types.push(read_type(v, i));
        i += 1;
    }
    let mut globals: Vec<GlobalModel> = Vec::new();
    let n = global_count(v);
    let mut i: usize = 0;
    while i < n
        invariant
            i <= n,
            n == wgsl_global_count(v@),
            globals@.len() == i,
            forall|k: int| 0 <= k < i ==> #[trigger] globals@[k] == wgsl_global(v@, k),
        decreases n - i,
    {
        if let Some(g) = global_at(v, i) {
            globals.push(g);
        }
        i += 1;
    }
    let mut entries: Vec<EntryModel> = Vec::new();
    let n = entry_count(v);
    let mut i: usize = 0;
    while i < n
        invariant
            i <= n,
            n == wgsl_entry_count(v@),
            entries@.len() == i,
            globals@.len() == wgsl_global_count(v@),
            forall|e: int| 0 <= e < entries@.len() ==> #[trigger] entries@[e].uses@.len() == globals@.len(),
            forall|e: int|
                0 <= e < i ==> {
                    &&& (#[trigger] entries@[e]).name == wgsl_entry(v@, e).0
                    &&& entries@[e].stage == wgsl_entry(v@, e).1
                    &&& entries@[e].workgroup_size == wgsl_entry(v@, e).2
                    &&& forall|g: int| 0 <= g < globals@.len() ==> #[trigger] entries@[e].uses@[g] == wgsl_entry_uses(v@, e, g)
                },
        decreases n - i,
    {
        if let Some((name, stage, workgroup_size)) = entry_at(v, i) {
            let uses = read_uses(v, i, globals.len());
            entries.push(EntryModel { name, stage, workgroup_size, uses });
        }
        i += 1;
    }
    ModuleModel { types, globals, entries }
}

/// Parses and validates WGSL source text, and reads the model of the module: a syntax error
/// when the source does not parse, a validation error when its module does not validate,
/// each with the front end's report of it, and otherwise the model of that module.
pub fn load_wgsl(source: &str) -> (r: Result<ModuleModel, FrontError>)
    ensures
        !wgsl_parses(source@) ==> (r matches Err(FrontError::Syntax(report)) && report@ == wgsl_syntax_report(source@)),
        wgsl_parses(source@) && !wgsl_validates(source@) ==> (r matches Err(FrontError::Invalid(report)) && report@ == wgsl_validation_report(source@)),
        wgsl_parses(source@) && wgsl_validates(source@) ==> (r matches Ok(m) && model_of_source(m, source@)),
        r matches Ok(m) ==> forall|e: int|
            0 <= e < m.entries@.len() ==> #[trigger] m.entries@[e].uses@.len() == m.globals@.len(),
{
    let module = match parse_wgsl(source) {
        Ok(module) => module,
        Err(e) => {
            return Err(FrontError::Syntax(parse_error_report(&e)));
        },
    };
    let valid = match validate_module(module) {
        Ok(valid) => valid,
        Err(e) => {
            return Err(FrontError::Invalid(validation_error_report(&e)));
        },
    };
    Ok(read_module(&valid))
}

} // verus!
