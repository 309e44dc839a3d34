//! Structural equality and deep copies of syntax trees.
use vstd::prelude::*;
use crate::syntax::{NonEmpty, Path, Identifier, TypeName, TypeSpecifierNonArray, TypeSpecifier, StructSpecifier, StructFieldSpecifier, ArrayedIdentifier, TypeQualifier, TypeQualifierSpec, StorageQualifier, LayoutQualifier, LayoutQualifierSpec, PrecisionQualifier, InterpolationQualifier, FullySpecifiedType, ArraySpecifier, ArraySpecifierDimension, Declaration, Block, FunIdentifier, FunctionPrototype, FunctionParameterDeclaration, FunctionParameterDeclarator, InitDeclaratorList, SingleDeclaration, SingleDeclarationNoType, Initializer, Decimal, Expr, UnaryOp, BinaryOp, AssignmentOp, TranslationUnit, ExternalDeclaration, FunctionDefinition, CompoundStatement, Statement, SimpleStatement, SelectionStatement, Condition, SelectionRestStatement, SwitchStatement, CaseLabel, IterationStatement, ForInitStatement, ForRestStatement, JumpStatement, Preprocessor, PreprocessorDefine, PreprocessorElIf, PreprocessorError, PreprocessorIf, PreprocessorIfDef, PreprocessorIfNDef, PreprocessorInclude, PreprocessorLine, PreprocessorPragma, PreprocessorUndef, PreprocessorVersion, PreprocessorVersionProfile, PreprocessorExtension, PreprocessorExtensionName, PreprocessorExtensionBehavior};
use crate::text::{str_eq, chars_of, string_of};

verus! {

broadcast use vstd::string::group_string_axioms;

fn bytes_eq(a: &Vec<u8>, b: &Vec<u8>) -> (r: bool)
    ensures
        r == (a@ == b@),
{
    if a.len() != b.len() {
        return false;
    }
    let mut i: usize = 0;
    while i < a.len()
        invariant
            a@.len() == b@.len(),
            i <= a@.len(),
            forall|k: int| 0 <= k < i ==> a@[k] == b@[k],
        decreases a@.len() - i,
    {
        if a[i] != b[i] {
            return false;
        }
        i = i + 1;
    }
    assert(a@ =~= b@);
    true
}

// ------------------------------------------------------------ structural equality

pub open spec fn same_path(a: Path, b: Path) -> bool
    decreases a,
{
    match (a, b) {
        (Path::Absolute(a0), Path::Absolute(b0)) => a0@ == b0@,
        (Path::Relative(a0), Path::Relative(b0)) => a0@ == b0@,
        _ => false,
    }
}

pub open spec fn same_identifier(a: Identifier, b: Identifier) -> bool
    decreases a,
{
    a.0@ == b.0@
}

pub open spec fn same_type_name(a: TypeName, b: TypeName) -> bool
    decreases a,
{
    a.0@ == b.0@
}

pub open spec fn same_type_specifier_non_array(a: TypeSpecifierNonArray, b: TypeSpecifierNonArray) -> bool
    decreases a,
{
    match (a, b) {
        (TypeSpecifierNonArray::Void, TypeSpecifierNonArray::Void) => true,
        (TypeSpecifierNonArray::Bool, TypeSpecifierNonArray::Bool) => true,
        (TypeSpecifierNonArray::Int, TypeSpecifierNonArray::Int) => true,
        (TypeSpecifierNonArray::UInt, TypeSpecifierNonArray::UInt) => true,
        (TypeSpecifierNonArray::Float, TypeSpecifierNonArray::Float) => true,
        (TypeSpecifierNonArray::Double, TypeSpecifierNonArray::Double) => true,
        (TypeSpecifierNonArray::Vec2, TypeSpecifierNonArray::Vec2) => true,
        (TypeSpecifierNonArray::Vec3, TypeSpecifierNonArray::Vec3) => true,
        (TypeSpecifierNonArray::Vec4, TypeSpecifierNonArray::Vec4) => true,
        (TypeSpecifierNonArray::DVec2, TypeSpecifierNonArray::DVec2) => true,
        (TypeSpecifierNonArray::DVec3, TypeSpecifierNonArray::DVec3) => true,
        (TypeSpecifierNonArray::DVec4, TypeSpecifierNonArray::DVec4) => true,
        (TypeSpecifierNonArray::BVec2, TypeSpecifierNonArray::BVec2) => true,
        (TypeSpecifierNonArray::BVec3, TypeSpecifierNonArray::BVec3) => true,
        (TypeSpecifierNonArray::BVec4, TypeSpecifierNonArray::BVec4) => true,
        (TypeSpecifierNonArray::IVec2, TypeSpecifierNonArray::IVec2) => true,
        (TypeSpecifierNonArray::IVec3, TypeSpecifierNonArray::IVec3) => true,
        (TypeSpecifierNonArray::IVec4, TypeSpecifierNonArray::IVec4) => true,
        (TypeSpecifierNonArray::UVec2, TypeSpecifierNonArray::UVec2) => true,
        (TypeSpecifierNonArray::UVec3, TypeSpecifierNonArray::UVec3) => true,
        (TypeSpecifierNonArray::UVec4, TypeSpecifierNonArray::UVec4) => true,
        (TypeSpecifierNonArray::Mat2, TypeSpecifierNonArray::Mat2) => true,
        (TypeSpecifierNonArray::Mat3, TypeSpecifierNonArray::Mat3) => true,
        (TypeSpecifierNonArray::Mat4, TypeSpecifierNonArray::Mat4) => true,
        (TypeSpecifierNonArray::Mat23, TypeSpecifierNonArray::Mat23) => true,
        (TypeSpecifierNonArray::Mat24, TypeSpecifierNonArray::Mat24) => true,
        (TypeSpecifierNonArray::Mat32, TypeSpecifierNonArray::Mat32) => true,
        (TypeSpecifierNonArray::Mat34, TypeSpecifierNonArray::Mat34) => true,
        (TypeSpecifierNonArray::Mat42, TypeSpecifierNonArray::Mat42) => true,
        (TypeSpecifierNonArray::Mat43, TypeSpecifierNonArray::Mat43) => true,
        (TypeSpecifierNonArray::DMat2, TypeSpecifierNonArray::DMat2) => true,
        (TypeSpecifierNonArray::DMat3, TypeSpecifierNonArray::DMat3) => true,
        (TypeSpecifierNonArray::DMat4, TypeSpecifierNonArray::DMat4) => true,
        (TypeSpecifierNonArray::DMat23, TypeSpecifierNonArray::DMat23) => true,
        (TypeSpecifierNonArray::DMat24, TypeSpecifierNonArray::DMat24) => true,
        (TypeSpecifierNonArray::DMat32, TypeSpecifierNonArray::DMat32) => true,
        (TypeSpecifierNonArray::DMat34, TypeSpecifierNonArray::DMat34) => true,
        (TypeSpecifierNonArray::DMat42, TypeSpecifierNonArray::DMat42) => true,
        (TypeSpecifierNonArray::DMat43, TypeSpecifierNonArray::DMat43) => true,
        (TypeSpecifierNonArray::Sampler1D, TypeSpecifierNonArray::Sampler1D) => true,
        (TypeSpecifierNonArray::Image1D, TypeSpecifierNonArray::Image1D) => true,
        (TypeSpecifierNonArray::Sampler2D, TypeSpecifierNonArray::Sampler2D) => true,
        (TypeSpecifierNonArray::Image2D, TypeSpecifierNonArray::Image2D) => true,
        (TypeSpecifierNonArray::Sampler3D, TypeSpecifierNonArray::Sampler3D) => true,
        (TypeSpecifierNonArray::Image3D, TypeSpecifierNonArray::Image3D) => true,
        (TypeSpecifierNonArray::SamplerCube, TypeSpecifierNonArray::SamplerCube) => true,
        (TypeSpecifierNonArray::ImageCube, TypeSpecifierNonArray::ImageCube) => true,
        (TypeSpecifierNonArray::Sampler2DRect, TypeSpecifierNonArray::Sampler2DRect) => true,
        (TypeSpecifierNonArray::Image2DRect, TypeSpecifierNonArray::Image2DRect) => true,
        (TypeSpecifierNonArray::Sampler1DArray, TypeSpecifierNonArray::Sampler1DArray) => true,
        (TypeSpecifierNonArray::Image1DArray, TypeSpecifierNonArray::Image1DArray) => true,
        (TypeSpecifierNonArray::Sampler2DArray, TypeSpecifierNonArray::Sampler2DArray) => true,
        (TypeSpecifierNonArray::Image2DArray, TypeSpecifierNonArray::Image2DArray) => true,
        (TypeSpecifierNonArray::SamplerBuffer, TypeSpecifierNonArray::SamplerBuffer) => true,
        (TypeSpecifierNonArray::ImageBuffer, TypeSpecifierNonArray::ImageBuffer) => true,
        (TypeSpecifierNonArray::Sampler2DMS, TypeSpecifierNonArray::Sampler2DMS) => true,
        (TypeSpecifierNonArray::Image2DMS, TypeSpecifierNonArray::Image2DMS) => true,
        (TypeSpecifierNonArray::Sampler2DMSArray, TypeSpecifierNonArray::Sampler2DMSArray) => true,
        (TypeSpecifierNonArray::Image2DMSArray, TypeSpecifierNonArray::Image2DMSArray) => true,
        (TypeSpecifierNonArray::SamplerCubeArray, TypeSpecifierNonArray::SamplerCubeArray) => true,
        (TypeSpecifierNonArray::ImageCubeArray, TypeSpecifierNonArray::ImageCubeArray) => true,
        (TypeSpecifierNonArray::Sampler1DShadow, TypeSpecifierNonArray::Sampler1DShadow) => true,
        (TypeSpecifierNonArray::Sampler2DShadow, TypeSpecifierNonArray::Sampler2DShadow) => true,
        (TypeSpecifierNonArray::Sampler2DRectShadow, TypeSpecifierNonArray::Sampler2DRectShadow) => true,
        (TypeSpecifierNonArray::Sampler1DArrayShadow, TypeSpecifierNonArray::Sampler1DArrayShadow) => true,
        (TypeSpecifierNonArray::Sampler2DArrayShadow, TypeSpecifierNonArray::Sampler2DArrayShadow) => true,
        (TypeSpecifierNonArray::SamplerCubeShadow, TypeSpecifierNonArray::SamplerCubeShadow) => true,
        (TypeSpecifierNonArray::SamplerCubeArrayShadow, TypeSpecifierNonArray::SamplerCubeArrayShadow) => true,
        (TypeSpecifierNonArray::ISampler1D, TypeSpecifierNonArray::ISampler1D) => true,
        (TypeSpecifierNonArray::IImage1D, TypeSpecifierNonArray::IImage1D) => true,
        (TypeSpecifierNonArray::ISampler2D, TypeSpecifierNonArray::ISampler2D) => true,
        (TypeSpecifierNonArray::IImage2D, TypeSpecifierNonArray::IImage2D) => true,
        (TypeSpecifierNonArray::ISampler3D, TypeSpecifierNonArray::ISampler3D) => true,
        (TypeSpecifierNonArray::IImage3D, TypeSpecifierNonArray::IImage3D) => true,
        (TypeSpecifierNonArray::ISamplerCube, TypeSpecifierNonArray::ISamplerCube) => true,
        (TypeSpecifierNonArray::IImageCube, TypeSpecifierNonArray::IImageCube) => true,
        (TypeSpecifierNonArray::ISampler2DRect, TypeSpecifierNonArray::ISampler2DRect) => true,
        (TypeSpecifierNonArray::IImage2DRect, TypeSpecifierNonArray::IImage2DRect) => true,
        (TypeSpecifierNonArray::ISampler1DArray, TypeSpecifierNonArray::ISampler1DArray) => true,
        (TypeSpecifierNonArray::IImage1DArray, TypeSpecifierNonArray::IImage1DArray) => true,
        (TypeSpecifierNonArray::ISampler2DArray, TypeSpecifierNonArray::ISampler2DArray) => true,
        (TypeSpecifierNonArray::IImage2DArray, TypeSpecifierNonArray::IImage2DArray) => true,
        (TypeSpecifierNonArray::ISamplerBuffer, TypeSpecifierNonArray::ISamplerBuffer) => true,
        (TypeSpecifierNonArray::IImageBuffer, TypeSpecifierNonArray::IImageBuffer) => true,
        (TypeSpecifierNonArray::ISampler2DMS, TypeSpecifierNonArray::ISampler2DMS) => true,
        (TypeSpecifierNonArray::IImage2DMS, TypeSpecifierNonArray::IImage2DMS) => true,
        (TypeSpecifierNonArray::ISampler2DMSArray, TypeSpecifierNonArray::ISampler2DMSArray) => true,
        (TypeSpecifierNonArray::IImage2DMSArray, TypeSpecifierNonArray::IImage2DMSArray) => true,
        (TypeSpecifierNonArray::ISamplerCubeArray, TypeSpecifierNonArray::ISamplerCubeArray) => true,
        (TypeSpecifierNonArray::IImageCubeArray, TypeSpecifierNonArray::IImageCubeArray) => true,
        (TypeSpecifierNonArray::AtomicUInt, TypeSpecifierNonArray::AtomicUInt) => true,
        (TypeSpecifierNonArray::USampler1D, TypeSpecifierNonArray::USampler1D) => true,
        (TypeSpecifierNonArray::UImage1D, TypeSpecifierNonArray::UImage1D) => true,
        (TypeSpecifierNonArray::USampler2D, TypeSpecifierNonArray::USampler2D) => true,
        (TypeSpecifierNonArray::UImage2D, TypeSpecifierNonArray::UImage2D) => true,
        (TypeSpecifierNonArray::USampler3D, TypeSpecifierNonArray::USampler3D) => true,
        (TypeSpecifierNonArray::UImage3D, TypeSpecifierNonArray::UImage3D) => true,
        (TypeSpecifierNonArray::USamplerCube, TypeSpecifierNonArray::USamplerCube) => true,
        (TypeSpecifierNonArray::UImageCube, TypeSpecifierNonArray::UImageCube) => true,
        (TypeSpecifierNonArray::USampler2DRect, TypeSpecifierNonArray::USampler2DRect) => true,
        (TypeSpecifierNonArray::UImage2DRect, TypeSpecifierNonArray::UImage2DRect) => true,
        (TypeSpecifierNonArray::USampler1DArray, TypeSpecifierNonArray::USampler1DArray) => true,
        (TypeSpecifierNonArray::UImage1DArray, TypeSpecifierNonArray::UImage1DArray) => true,
        (TypeSpecifierNonArray::USampler2DArray, TypeSpecifierNonArray::USampler2DArray) => true,
        (TypeSpecifierNonArray::UImage2DArray, TypeSpecifierNonArray::UImage2DArray) => true,
        (TypeSpecifierNonArray::USamplerBuffer, TypeSpecifierNonArray::USamplerBuffer) => true,
        (TypeSpecifierNonArray::UImageBuffer, TypeSpecifierNonArray::UImageBuffer) => true,
        (TypeSpecifierNonArray::USampler2DMS, TypeSpecifierNonArray::USampler2DMS) => true,
        (TypeSpecifierNonArray::UImage2DMS, TypeSpecifierNonArray::UImage2DMS) => true,
        (TypeSpecifierNonArray::USampler2DMSArray, TypeSpecifierNonArray::USampler2DMSArray) => true,
        (TypeSpecifierNonArray::UImage2DMSArray, TypeSpecifierNonArray::UImage2DMSArray) => true,
        (TypeSpecifierNonArray::USamplerCubeArray, TypeSpecifierNonArray::USamplerCubeArray) => true,
        (TypeSpecifierNonArray::UImageCubeArray, TypeSpecifierNonArray::UImageCubeArray) => true,
        (TypeSpecifierNonArray::Struct(a0), TypeSpecifierNonArray::Struct(b0)) => same_struct_specifier(a0, b0),
        (TypeSpecifierNonArray::TypeName(a0), TypeSpecifierNonArray::TypeName(b0)) => same_type_name(a0, b0),
        _ => false,
    }
}

pub open spec fn same_type_specifier(a: TypeSpecifier, b: TypeSpecifier) -> bool
    decreases a,
{
    same_type_specifier_non_array(a.ty, b.ty)
        && (match (a.array_specifier, b.array_specifier) { (Some(x), Some(y)) => same_array_specifier(x, y), (None, None) => true, _ => false })
}

pub open spec fn same_struct_specifier(a: StructSpecifier, b: StructSpecifier) -> bool
    decreases a,
{
    (match (a.name, b.name) { (Some(x), Some(y)) => same_type_name(x, y), (None, None) => true, _ => false })
        && same_vec_struct_field_specifier(a.fields.0, b.fields.0)
}

pub open spec fn same_struct_field_specifier(a: StructFieldSpecifier, b: StructFieldSpecifier) -> bool
    decreases a,
{
    (match (a.qualifier, b.qualifier) { (Some(x), Some(y)) => same_type_qualifier(x, y), (None, None) => true, _ => false })
        && same_type_specifier(a.ty, b.ty)
        && same_vec_arrayed_identifier(a.identifiers.0, b.identifiers.0)
}

pub open spec fn same_arrayed_identifier(a: ArrayedIdentifier, b: ArrayedIdentifier) -> bool
    decreases a,
{
    same_identifier(a.ident, b.ident)
        && (match (a.array_spec, b.array_spec) { (Some(x), Some(y)) => same_array_specifier(x, y), (None, None) => true, _ => false })
}

pub open spec fn same_type_qualifier(a: TypeQualifier, b: TypeQualifier) -> bool
    decreases a,
{
    same_vec_type_qualifier_spec(a.qualifiers.0, b.qualifiers.0)
}

pub open spec fn same_type_qualifier_spec(a: TypeQualifierSpec, b: TypeQualifierSpec) -> bool
    decreases a,
{
    match (a, b) {
        (TypeQualifierSpec::Storage(a0), TypeQualifierSpec::Storage(b0)) => same_storage_qualifier(a0, b0),
        (TypeQualifierSpec::Layout(a0), TypeQualifierSpec::Layout(b0)) => same_layout_qualifier(a0, b0),
        (TypeQualifierSpec::Precision(a0), TypeQualifierSpec::Precision(b0)) => a0 == b0,
        (TypeQualifierSpec::Interpolation(a0), TypeQualifierSpec::Interpolation(b0)) => a0 == b0,
        (TypeQualifierSpec::Invariant, TypeQualifierSpec::Invariant) => true,
        (TypeQualifierSpec::Precise, TypeQualifierSpec::Precise) => true,
        _ => false,
    }
}

pub open spec fn same_storage_qualifier(a: StorageQualifier, b: StorageQualifier) -> bool
    decreases a,
{
    match (a, b) {
        (StorageQualifier::Const, StorageQualifier::Const) => true,
        (StorageQualifier::InOut, StorageQualifier::InOut) => true,
        (StorageQualifier::In, StorageQualifier::In) => true,
        (StorageQualifier::Out, StorageQualifier::Out) => true,
        (StorageQualifier::Centroid, StorageQualifier::Centroid) => true,
        (StorageQualifier::Patch, StorageQualifier::Patch) => true,
        (StorageQualifier::Sample, StorageQualifier::Sample) => true,
        (StorageQualifier::Uniform, StorageQualifier::Uniform) => true,
        (StorageQualifier::Attribute, StorageQualifier::Attribute) => true,
        (StorageQualifier::Varying, StorageQualifier::Varying) => true,
        (StorageQualifier::Buffer, StorageQualifier::Buffer) => true,
        (StorageQualifier::Shared, StorageQualifier::Shared) => true,
        (StorageQualifier::Coherent, StorageQualifier::Coherent) => true,
        (StorageQualifier::Volatile, StorageQualifier::Volatile) => true,
        (StorageQualifier::Restrict, StorageQualifier::Restrict) => true,
        (StorageQualifier::ReadOnly, StorageQualifier::ReadOnly) => true,
        (StorageQualifier::WriteOnly, StorageQualifier::WriteOnly) => true,
        (StorageQualifier::Subroutine(a0), StorageQualifier::Subroutine(b0)) => same_vec_type_name(a0, b0),
        _ => false,
    }
}

pub open spec fn same_layout_qualifier(a: LayoutQualifier, b: LayoutQualifier) -> bool
    decreases a,
{
    same_vec_layout_qualifier_spec(a.ids.0, b.ids.0)
}

pub open spec fn same_layout_qualifier_spec(a: LayoutQualifierSpec, b: LayoutQualifierSpec) -> bool
    decreases a,
{
    match (a, b) {
        (LayoutQualifierSpec::Identifier(a0, a1), LayoutQualifierSpec::Identifier(b0, b1)) => same_identifier(a0, b0) && (match (a1, b1) { (Some(x), Some(y)) => same_expr(*x, *y), (None, None) => true, _ => false }),
        (LayoutQualifierSpec::Shared, LayoutQualifierSpec::Shared) => true,
        _ => false,
    }
}

pub open spec fn same_fully_specified_type(a: FullySpecifiedType, b: FullySpecifiedType) -> bool
    decreases a,
{
    (match (a.qualifier, b.qualifier) { (Some(x), Some(y)) => same_type_qualifier(x, y), (None, None) => true, _ => false })
        && same_type_specifier(a.ty, b.ty)
}

pub open spec fn same_array_specifier(a: ArraySpecifier, b: ArraySpecifier) -> bool
    decreases a,
{
    same_vec_array_specifier_dimension(a.dimensions.0, b.dimensions.0)
}

pub open spec fn same_array_specifier_dimension(a: ArraySpecifierDimension, b: ArraySpecifierDimension) -> bool
    decreases a,
{
    match (a, b) {
        (ArraySpecifierDimension::Unsized, ArraySpecifierDimension::Unsized) => true,
        (ArraySpecifierDimension::ExplicitlySized(a0), ArraySpecifierDimension::ExplicitlySized(b0)) => same_expr(*a0, *b0),
        _ => false,
    }
}

pub open spec fn same_declaration(a: Declaration, b: Declaration) -> bool
    decreases a,
{
    match (a, b) {
        (Declaration::FunctionPrototype(a0), Declaration::FunctionPrototype(b0)) => same_function_prototype(a0, b0),
        (Declaration::InitDeclaratorList(a0), Declaration::InitDeclaratorList(b0)) => same_init_declarator_list(a0, b0),
        (Declaration::Precision(a0, a1), Declaration::Precision(b0, b1)) => a0 == b0 && same_type_specifier(a1, b1),
        (Declaration::Block(a0), Declaration::Block(b0)) => same_block(a0, b0),
        (Declaration::Global(a0, a1), Declaration::Global(b0, b1)) => same_type_qualifier(a0, b0) && same_vec_identifier(a1, b1),
        _ => false,
    }
}

pub open spec fn same_block(a: Block, b: Block) -> bool
    decreases a,
{
    same_type_qualifier(a.qualifier, b.qualifier)
        && same_identifier(a.name, b.name)
        && same_vec_struct_field_specifier(a.fields, b.fields)
        && (match (a.identifier, b.identifier) { (Some(x), Some(y)) => same_arrayed_identifier(x, y), (None, None) => true, _ => false })
}

pub open spec fn same_fun_identifier(a: FunIdentifier, b: FunIdentifier) -> bool
    decreases a,
{
    match (a, b) {
        (FunIdentifier::Identifier(a0), FunIdentifier::Identifier(b0)) => same_identifier(a0, b0),
        (FunIdentifier::Expr(a0), FunIdentifier::Expr(b0)) => same_expr(*a0, *b0),
        _ => false,
    }
}

pub open spec fn same_function_prototype(a: FunctionPrototype, b: FunctionPrototype) -> bool
    decreases a,
{
    same_fully_specified_type(a.ty, b.ty)
        && same_identifier(a.name, b.name)
        && same_vec_function_parameter_declaration(a.parameters, b.parameters)
}

pub open spec fn same_function_parameter_declaration(a: FunctionParameterDeclaration, b: FunctionParameterDeclaration) -> bool
    decreases a,
{
    match (a, b) {
        (FunctionParameterDeclaration::Named(a0, a1), FunctionParameterDeclaration::Named(b0, b1)) => (match (a0, b0) { (Some(x), Some(y)) => same_type_qualifier(x, y), (None, None) => true, _ => false }) && same_function_parameter_declarator(a1, b1),
        (FunctionParameterDeclaration::Unnamed(a0, a1), FunctionParameterDeclaration::Unnamed(b0, b1)) => (match (a0, b0) { (Some(x), Some(y)) => same_type_qualifier(x, y), (None, None) => true, _ => false }) && same_type_specifier(a1, b1),
        _ => false,
    }
}

pub open spec fn same_function_parameter_declarator(a: FunctionParameterDeclarator, b: FunctionParameterDeclarator) -> bool
    decreases a,
{
    same_type_specifier(a.ty, b.ty)
        && same_arrayed_identifier(a.ident, b.ident)
}

pub open spec fn same_init_declarator_list(a: InitDeclaratorList, b: InitDeclaratorList) -> bool
    decreases a,
{
    same_single_declaration(a.head, b.head)
        && same_vec_single_declaration_no_type(a.tail, b.tail)
}

pub open spec fn same_single_declaration(a: SingleDeclaration, b: SingleDeclaration) -> bool
    decreases a,
{
    same_fully_specified_type(a.ty, b.ty)
        && (match (a.name, b.name) { (Some(x), Some(y)) => same_identifier(x, y), (None, None) => true, _ => false })
        && (match (a.array_specifier, b.array_specifier) { (Some(x), Some(y)) => same_array_specifier(x, y), (None, None) => true, _ => false })
        && (match (a.initializer, b.initializer) { (Some(x), Some(y)) => same_initializer(x, y), (None, None) => true, _ => false })
}

pub open spec fn same_single_declaration_no_type(a: SingleDeclarationNoType, b: SingleDeclarationNoType) -> bool
    decreases a,
{
    same_arrayed_identifier(a.ident, b.ident)
        && (match (a.initializer, b.initializer) { (Some(x), Some(y)) => same_initializer(x, y), (None, None) => true, _ => false })
}

pub open spec fn same_initializer(a: Initializer, b: Initializer) -> bool
    decreases a,
{
    match (a, b) {
        (Initializer::Simple(a0), Initializer::Simple(b0)) => same_expr(*a0, *b0),
        (Initializer::List(a0), Initializer::List(b0)) => same_vec_initializer(a0.0, b0.0),
        _ => false,
    }
}

pub open spec fn same_decimal(a: Decimal, b: Decimal) -> bool
    decreases a,
{
    a.negative == b.negative
        && a.digits@ == b.digits@
        && a.exponent == b.exponent
}

pub open spec fn same_expr(a: Expr, b: Expr) -> bool
    decreases a,
{
    match (a, b) {
        (Expr::Variable(a0), Expr::Variable(b0)) => same_identifier(a0, b0),
        (Expr::IntConst(a0), Expr::IntConst(b0)) => a0 == b0,
        (Expr::UIntConst(a0), Expr::UIntConst(b0)) => a0 == b0,
        (Expr::BoolConst(a0), Expr::BoolConst(b0)) => a0 == b0,
        (Expr::FloatConst(a0), Expr::FloatConst(b0)) => same_decimal(a0, b0),
        (Expr::DoubleConst(a0), Expr::DoubleConst(b0)) => same_decimal(a0, b0),
        (Expr::Unary(a0, a1), Expr::Unary(b0, b1)) => a0 == b0 && same_expr(*a1, *b1),
        (Expr::Binary(a0, a1, a2), Expr::Binary(b0, b1, b2)) => a0 == b0 && same_expr(*a1, *b1) && same_expr(*a2, *b2),
        (Expr::Ternary(a0, a1, a2), Expr::Ternary(b0, b1, b2)) => same_expr(*a0, *b0) && same_expr(*a1, *b1) && same_expr(*a2, *b2),
        (Expr::Assignment(a0, a1, a2), Expr::Assignment(b0, b1, b2)) => same_expr(*a0, *b0) && a1 == b1 && same_expr(*a2, *b2),
        (Expr::Bracket(a0, a1), Expr::Bracket(b0, b1)) => same_expr(*a0, *b0) && same_array_specifier(a1, b1),
        (Expr::FunCall(a0, a1), Expr::FunCall(b0, b1)) => same_fun_identifier(a0, b0) && same_vec_expr(a1, b1),
        (Expr::Dot(a0, a1), Expr::Dot(b0, b1)) => same_expr(*a0, *b0) && same_identifier(a1, b1),
        (Expr::PostInc(a0), Expr::PostInc(b0)) => same_expr(*a0, *b0),
        (Expr::PostDec(a0), Expr::PostDec(b0)) => same_expr(*a0, *b0),
        (Expr::Comma(a0, a1), Expr::Comma(b0, b1)) => same_expr(*a0, *b0) && same_expr(*a1, *b1),
        _ => false,
    }
}

pub open spec fn same_external_declaration(a: ExternalDeclaration, b: ExternalDeclaration) -> bool
    decreases a,
{
    match (a, b) {
        (ExternalDeclaration::Preprocessor(a0), ExternalDeclaration::Preprocessor(b0)) => same_preprocessor(a0, b0),
        (ExternalDeclaration::FunctionDefinition(a0), ExternalDeclaration::FunctionDefinition(b0)) => same_function_definition(a0, b0),
        (ExternalDeclaration::Declaration(a0), ExternalDeclaration::Declaration(b0)) => same_declaration(a0, b0),
        _ => false,
    }
}

pub open spec fn same_function_definition(a: FunctionDefinition, b: FunctionDefinition) -> bool
    decreases a,
{
    same_function_prototype(a.prototype, b.prototype)
        && same_compound_statement(a.statement, b.statement)
}

pub open spec fn same_compound_statement(a: CompoundStatement, b: CompoundStatement) -> bool
    decreases a,
{
    same_vec_statement(a.statement_list, b.statement_list)
}

pub open spec fn same_statement(a: Statement, b: Statement) -> bool
    decreases a,
{
    match (a, b) {
        (Statement::Compound(a0), Statement::Compound(b0)) => same_compound_statement(*a0, *b0),
        (Statement::Simple(a0), Statement::Simple(b0)) => same_simple_statement(*a0, *b0),
        _ => false,
    }
}

pub open spec fn same_simple_statement(a: SimpleStatement, b: SimpleStatement) -> bool
    decreases a,
{
    match (a, b) {
        (SimpleStatement::Declaration(a0), SimpleStatement::Declaration(b0)) => same_declaration(a0, b0),
        (SimpleStatement::Expression(a0), SimpleStatement::Expression(b0)) => (match (a0, b0) { (Some(x), Some(y)) => same_expr(x, y), (None, None) => true, _ => false }),
        (SimpleStatement::Selection(a0), SimpleStatement::Selection(b0)) => same_selection_statement(a0, b0),
        (SimpleStatement::Switch(a0), SimpleStatement::Switch(b0)) => same_switch_statement(a0, b0),
        (SimpleStatement::CaseLabel(a0), SimpleStatement::CaseLabel(b0)) => same_case_label(a0, b0),
        (SimpleStatement::Iteration(a0), SimpleStatement::Iteration(b0)) => same_iteration_statement(a0, b0),
        (SimpleStatement::Jump(a0), SimpleStatement::Jump(b0)) => same_jump_statement(a0, b0),
        _ => false,
    }
}

pub open spec fn same_selection_statement(a: SelectionStatement, b: SelectionStatement) -> bool
    decreases a,
{
    same_expr(*a.cond, *b.cond)
        && same_selection_rest_statement(a.rest, b.rest)
}

pub open spec fn same_condition(a: Condition, b: Condition) -> bool
    decreases a,
{
    match (a, b) {
        (Condition::Expr(a0), Condition::Expr(b0)) => same_expr(*a0, *b0),
        (Condition::Assignment(a0, a1, a2), Condition::Assignment(b0, b1, b2)) => same_fully_specified_type(a0, b0) && same_identifier(a1, b1) && same_initializer(a2, b2),
        _ => false,
    }
}

pub open spec fn same_selection_rest_statement(a: SelectionRestStatement, b: SelectionRestStatement) -> bool
    decreases a,
{
    match (a, b) {
        (SelectionRestStatement::Statement(a0), SelectionRestStatement::Statement(b0)) => same_statement(*a0, *b0),
        (SelectionRestStatement::Else(a0, a1), SelectionRestStatement::Else(b0, b1)) => same_statement(*a0, *b0) && same_statement(*a1, *b1),
        _ => false,
    }
}

pub open spec fn same_switch_statement(a: SwitchStatement, b: SwitchStatement) -> bool
    decreases a,
{
    same_expr(*a.head, *b.head)
        && same_vec_statement(a.body, b.body)
}

pub open spec fn same_case_label(a: CaseLabel, b: CaseLabel) -> bool
    decreases a,
{
    match (a, b) {
        (CaseLabel::Case(a0), CaseLabel::Case(b0)) => same_expr(*a0, *b0),
        (CaseLabel::Def, CaseLabel::Def) => true,
        _ => false,
    }
}

pub open spec fn same_iteration_statement(a: IterationStatement, b: IterationStatement) -> bool
    decreases a,
{
    match (a, b) {
        (IterationStatement::While(a0, a1), IterationStatement::While(b0, b1)) => same_condition(a0, b0) && same_statement(*a1, *b1),
        (IterationStatement::DoWhile(a0, a1), IterationStatement::DoWhile(b0, b1)) => same_statement(*a0, *b0) && same_expr(*a1, *b1),
        (IterationStatement::For(a0, a1, a2), IterationStatement::For(b0, b1, b2)) => same_for_init_statement(a0, b0) && same_for_rest_statement(a1, b1) && same_statement(*a2, *b2),
        _ => false,
    }
}

pub open spec fn same_for_init_statement(a: ForInitStatement, b: ForInitStatement) -> bool
    decreases a,
{
    match (a, b) {
        (ForInitStatement::Expression(a0), ForInitStatement::Expression(b0)) => (match (a0, b0) { (Some(x), Some(y)) => same_expr(x, y), (None, None) => true, _ => false }),
        (ForInitStatement::Declaration(a0), ForInitStatement::Declaration(b0)) => same_declaration(*a0, *b0),
        _ => false,
    }
}

pub open spec fn same_for_rest_statement(a: ForRestStatement, b: ForRestStatement) -> bool
    decreases a,
{
    (match (a.condition, b.condition) { (Some(x), Some(y)) => same_condition(x, y), (None, None) => true, _ => false })
        && (match (a.post_expr, b.post_expr) { (Some(x), Some(y)) => same_expr(*x, *y), (None, None) => true, _ => false })
}

pub open spec fn same_jump_statement(a: JumpStatement, b: JumpStatement) -> bool
    decreases a,
{
    match (a, b) {
        (JumpStatement::Continue, JumpStatement::Continue) => true,
        (JumpStatement::Break, JumpStatement::Break) => true,
        (JumpStatement::Return(a0), JumpStatement::Return(b0)) => (match (a0, b0) { (Some(x), Some(y)) => same_expr(*x, *y), (None, None) => true, _ => false }),
        (JumpStatement::Discard, JumpStatement::Discard) => true,
        _ => false,
    }
}

pub open spec fn same_preprocessor(a: Preprocessor, b: Preprocessor) -> bool
    decreases a,
{
    match (a, b) {
        (Preprocessor::Define(a0), Preprocessor::Define(b0)) => same_preprocessor_define(a0, b0),
        (Preprocessor::Else, Preprocessor::Else) => true,
        (Preprocessor::ElIf(a0), Preprocessor::ElIf(b0)) => same_preprocessor_el_if(a0, b0),
        (Preprocessor::EndIf, Preprocessor::EndIf) => true,
        (Preprocessor::Error(a0), Preprocessor::Error(b0)) => same_preprocessor_error(a0, b0),
        (Preprocessor::If(a0), Preprocessor::If(b0)) => same_preprocessor_if(a0, b0),
        (Preprocessor::IfDef(a0), Preprocessor::IfDef(b0)) => same_preprocessor_if_def(a0, b0),
        (Preprocessor::IfNDef(a0), Preprocessor::IfNDef(b0)) => same_preprocessor_if_n_def(a0, b0),
        (Preprocessor::Include(a0), Preprocessor::Include(b0)) => same_preprocessor_include(a0, b0),
        (Preprocessor::Line(a0), Preprocessor::Line(b0)) => same_preprocessor_line(a0, b0),
        (Preprocessor::Pragma(a0), Preprocessor::Pragma(b0)) => same_preprocessor_pragma(a0, b0),
        (Preprocessor::Undef(a0), Preprocessor::Undef(b0)) => same_preprocessor_undef(a0, b0),
        (Preprocessor::Version(a0), Preprocessor::Version(b0)) => same_preprocessor_version(a0, b0),
        (Preprocessor::Extension(a0), Preprocessor::Extension(b0)) => same_preprocessor_extension(a0, b0),
        _ => false,
    }
}

pub open spec fn same_preprocessor_define(a: PreprocessorDefine, b: PreprocessorDefine) -> bool
    decreases a,
{
    match (a, b) {
        (PreprocessorDefine::ObjectLike { ident: a_ident, value: a_value }, PreprocessorDefine::ObjectLike { ident: b_ident, value: b_value }) => same_identifier(a_ident, b_ident) && a_value@ == b_value@,
        (PreprocessorDefine::FunctionLike { ident: a_ident, args: a_args, value: a_value }, PreprocessorDefine::FunctionLike { ident: b_ident, args: b_args, value: b_value }) => same_identifier(a_ident, b_ident) && same_vec_identifier(a_args, b_args) && a_value@ == b_value@,
        _ => false,
    }
}

pub open spec fn same_preprocessor_el_if(a: PreprocessorElIf, b: PreprocessorElIf) -> bool
    decreases a,
{
    a.condition@ == b.condition@
}

pub open spec fn same_preprocessor_error(a: PreprocessorError, b: PreprocessorError) -> bool
    decreases a,
{
    a.message@ == b.message@
}

pub open spec fn same_preprocessor_if(a: PreprocessorIf, b: PreprocessorIf) -> bool
    decreases a,
{
    a.condition@ == b.condition@
}

pub open spec fn same_preprocessor_if_def(a: PreprocessorIfDef, b: PreprocessorIfDef) -> bool
    decreases a,
{
    same_identifier(a.ident, b.ident)
}

pub open spec fn same_preprocessor_if_n_def(a: PreprocessorIfNDef, b: PreprocessorIfNDef) -> bool
    decreases a,
{
    same_identifier(a.ident, b.ident)
}

pub open spec fn same_preprocessor_include(a: PreprocessorInclude, b: PreprocessorInclude) -> bool
    decreases a,
{
    same_path(a.path, b.path)
}

pub open spec fn same_preprocessor_line(a: PreprocessorLine, b: PreprocessorLine) -> bool
    decreases a,
{
    a.line == b.line
        && (match (a.source_string_number, b.source_string_number) { (Some(x), Some(y)) => x == y, (None, None) => true, _ => false })
}

pub open spec fn same_preprocessor_pragma(a: PreprocessorPragma, b: PreprocessorPragma) -> bool
    decreases a,
{
    a.command@ == b.command@
}

pub open spec fn same_preprocessor_undef(a: PreprocessorUndef, b: PreprocessorUndef) -> bool
    decreases a,
{
    same_identifier(a.name, b.name)
}

pub open spec fn same_preprocessor_version(a: PreprocessorVersion, b: PreprocessorVersion) -> bool
    decreases a,
{
    a.version == b.version
        && (match (a.profile, b.profile) { (Some(x), Some(y)) => x == y, (None, None) => true, _ => false })
}

pub open spec fn same_preprocessor_extension(a: PreprocessorExtension, b: PreprocessorExtension) -> bool
    decreases a,
{
    same_preprocessor_extension_name(a.name, b.name)
        && (match (a.behavior, b.behavior) { (Some(x), Some(y)) => x == y, (None, None) => true, _ => false })
}

pub open spec fn same_preprocessor_extension_name(a: PreprocessorExtensionName, b: PreprocessorExtensionName) -> bool
    decreases a,
{
    match (a, b) {
        (PreprocessorExtensionName::All, PreprocessorExtensionName::All) => true,
        (PreprocessorExtensionName::Specific(a0), PreprocessorExtensionName::Specific(b0)) => a0@ == b0@,
        _ => false,
    }
}

pub open spec fn same_vec_array_specifier_dimension(a: Vec<ArraySpecifierDimension>, b: Vec<ArraySpecifierDimension>) -> bool
    decreases a,
{
    a@.len() == b@.len() && forall|k: int| 0 <= k < a@.len() ==> same_array_specifier_dimension(#[trigger] a@[k], b@[k])
}

pub open spec fn same_vec_arrayed_identifier(a: Vec<ArrayedIdentifier>, b: Vec<ArrayedIdentifier>) -> bool
    decreases a,
{
    a@.len() == b@.len() && forall|k: int| 0 <= k < a@.len() ==> same_arrayed_identifier(#[trigger] a@[k], b@[k])
}

pub open spec fn same_vec_expr(a: Vec<Expr>, b: Vec<Expr>) -> bool
    decreases a,
{
    a@.len() == b@.len() && forall|k: int| 0 <= k < a@.len() ==> same_expr(#[trigger] a@[k], b@[k])
}

pub open spec fn same_vec_external_declaration(a: Vec<ExternalDeclaration>, b: Vec<ExternalDeclaration>) -> bool
    decreases a,
{
    a@.len() == b@.len() && forall|k: int| 0 <= k < a@.len() ==> same_external_declaration(#[trigger] a@[k], b@[k])
}

pub open spec fn same_vec_function_parameter_declaration(a: Vec<FunctionParameterDeclaration>, b: Vec<FunctionParameterDeclaration>) -> bool
    decreases a,
{
    a@.len() == b@.len() && forall|k: int| 0 <= k < a@.len() ==> same_function_parameter_declaration(#[trigger] a@[k], b@[k])
}

pub open spec fn same_vec_identifier(a: Vec<Identifier>, b: Vec<Identifier>) -> bool
    decreases a,
{
    a@.len() == b@.len() && forall|k: int| 0 <= k < a@.len() ==> same_identifier(#[trigger] a@[k], b@[k])
}

pub open spec fn same_vec_initializer(a: Vec<Initializer>, b: Vec<Initializer>) -> bool
    decreases a,
{
    a@.len() == b@.len() && forall|k: int| 0 <= k < a@.len() ==> same_initializer(#[trigger] a@[k], b@[k])
}

pub open spec fn same_vec_layout_qualifier_spec(a: Vec<LayoutQualifierSpec>, b: Vec<LayoutQualifierSpec>) -> bool
    decreases a,
{
    a@.len() == b@.len() && forall|k: int| 0 <= k < a@.len() ==> same_layout_qualifier_spec(#[trigger] a@[k], b@[k])
}

pub open spec fn same_vec_single_declaration_no_type(a: Vec<SingleDeclarationNoType>, b: Vec<SingleDeclarationNoType>) -> bool
    decreases a,
{
    a@.len() == b@.len() && forall|k: int| 0 <= k < a@.len() ==> same_single_declaration_no_type(#[trigger] a@[k], b@[k])
}

pub open spec fn same_vec_statement(a: Vec<Statement>, b: Vec<Statement>) -> bool
    decreases a,
{
    a@.len() == b@.len() && forall|k: int| 0 <= k < a@.len() ==> same_statement(#[trigger] a@[k], b@[k])
}

pub open spec fn same_vec_struct_field_specifier(a: Vec<StructFieldSpecifier>, b: Vec<StructFieldSpecifier>) -> bool
    decreases a,
{
    a@.len() == b@.len() && forall|k: int| 0 <= k < a@.len() ==> same_struct_field_specifier(#[trigger] a@[k], b@[k])
}

pub open spec fn same_vec_type_name(a: Vec<TypeName>, b: Vec<TypeName>) -> bool
    decreases a,
{
    a@.len() == b@.len() && forall|k: int| 0 <= k < a@.len() ==> same_type_name(#[trigger] a@[k], b@[k])
}

pub open spec fn same_vec_type_qualifier_spec(a: Vec<TypeQualifierSpec>, b: Vec<TypeQualifierSpec>) -> bool
    decreases a,
{
    a@.len() == b@.len() && forall|k: int| 0 <= k < a@.len() ==> same_type_qualifier_spec(#[trigger] a@[k], b@[k])
}

pub open spec fn same_translation_unit(a: TranslationUnit, b: TranslationUnit) -> bool {
    same_vec_external_declaration(a.0.0, b.0.0)
}

pub(crate) fn eq_path(a: &Path, b: &Path) -> (r: bool)
    ensures
        r == same_path(*a, *b),
    decreases a,
{
    match (a, b) {
        (Path::Absolute(a0), Path::Absolute(b0)) => str_eq(a0.as_str(), b0.as_str()),
        (Path::Relative(a0), Path::Relative(b0)) => str_eq(a0.as_str(), b0.as_str()),
        _ => false,
    }
}

pub(crate) fn eq_identifier(a: &Identifier, b: &Identifier) -> (r: bool)
    ensures
        r == same_identifier(*a, *b),
    decreases a,
{
    str_eq(&a.0.as_str(), &b.0.as_str())
}

pub(crate) fn eq_type_name(a: &TypeName, b: &TypeName) -> (r: bool)
    ensures
        r == same_type_name(*a, *b),
    decreases a,
{
    str_eq(&a.0.as_str(), &b.0.as_str())
}

pub(crate) fn eq_type_specifier_non_array(a: &TypeSpecifierNonArray, b: &TypeSpecifierNonArray) -> (r: bool)
    ensures
        r == same_type_specifier_non_array(*a, *b),
    decreases a,
{
    match (a, b) {
        (TypeSpecifierNonArray::Void, TypeSpecifierNonArray::Void) => true,
        (TypeSpecifierNonArray::Bool, TypeSpecifierNonArray::Bool) => true,
        (TypeSpecifierNonArray::Int, TypeSpecifierNonArray::Int) => true,
        (TypeSpecifierNonArray::UInt, TypeSpecifierNonArray::UInt) => true,
        (TypeSpecifierNonArray::Float, TypeSpecifierNonArray::Float) => true,
        (TypeSpecifierNonArray::Double, TypeSpecifierNonArray::Double) => true,
        (TypeSpecifierNonArray::Vec2, TypeSpecifierNonArray::Vec2) => true,
        (TypeSpecifierNonArray::Vec3, TypeSpecifierNonArray::Vec3) => true,
        (TypeSpecifierNonArray::Vec4, TypeSpecifierNonArray::Vec4) => true,
        (TypeSpecifierNonArray::DVec2, TypeSpecifierNonArray::DVec2) => true,
        (TypeSpecifierNonArray::DVec3, TypeSpecifierNonArray::DVec3) => true,
        (TypeSpecifierNonArray::DVec4, TypeSpecifierNonArray::DVec4) => true,
        (TypeSpecifierNonArray::BVec2, TypeSpecifierNonArray::BVec2) => true,
        (TypeSpecifierNonArray::BVec3, TypeSpecifierNonArray::BVec3) => true,
        (TypeSpecifierNonArray::BVec4, TypeSpecifierNonArray::BVec4) => true,
        (TypeSpecifierNonArray::IVec2, TypeSpecifierNonArray::IVec2) => true,
        (TypeSpecifierNonArray::IVec3, TypeSpecifierNonArray::IVec3) => true,
        (TypeSpecifierNonArray::IVec4, TypeSpecifierNonArray::IVec4) => true,
        (TypeSpecifierNonArray::UVec2, TypeSpecifierNonArray::UVec2) => true,
        (TypeSpecifierNonArray::UVec3, TypeSpecifierNonArray::UVec3) => true,
        (TypeSpecifierNonArray::UVec4, TypeSpecifierNonArray::UVec4) => true,
        (TypeSpecifierNonArray::Mat2, TypeSpecifierNonArray::Mat2) => true,
        (TypeSpecifierNonArray::Mat3, TypeSpecifierNonArray::Mat3) => true,
        (TypeSpecifierNonArray::Mat4, TypeSpecifierNonArray::Mat4) => true,
        (TypeSpecifierNonArray::Mat23, TypeSpecifierNonArray::Mat23) => true,
        (TypeSpecifierNonArray::Mat24, TypeSpecifierNonArray::Mat24) => true,
        (TypeSpecifierNonArray::Mat32, TypeSpecifierNonArray::Mat32) => true,
        (TypeSpecifierNonArray::Mat34, TypeSpecifierNonArray::Mat34) => true,
        (TypeSpecifierNonArray::Mat42, TypeSpecifierNonArray::Mat42) => true,
        (TypeSpecifierNonArray::Mat43, TypeSpecifierNonArray::Mat43) => true,
        (TypeSpecifierNonArray::DMat2, TypeSpecifierNonArray::DMat2) => true,
        (TypeSpecifierNonArray::DMat3, TypeSpecifierNonArray::DMat3) => true,
        (TypeSpecifierNonArray::DMat4, TypeSpecifierNonArray::DMat4) => true,
        (TypeSpecifierNonArray::DMat23, TypeSpecifierNonArray::DMat23) => true,
        (TypeSpecifierNonArray::DMat24, TypeSpecifierNonArray::DMat24) => true,
        (TypeSpecifierNonArray::DMat32, TypeSpecifierNonArray::DMat32) => true,
        (TypeSpecifierNonArray::DMat34, TypeSpecifierNonArray::DMat34) => true,
        (TypeSpecifierNonArray::DMat42, TypeSpecifierNonArray::DMat42) => true,
        (TypeSpecifierNonArray::DMat43, TypeSpecifierNonArray::DMat43) => true,
        (TypeSpecifierNonArray::Sampler1D, TypeSpecifierNonArray::Sampler1D) => true,
        (TypeSpecifierNonArray::Image1D, TypeSpecifierNonArray::Image1D) => true,
        (TypeSpecifierNonArray::Sampler2D, TypeSpecifierNonArray::Sampler2D) => true,
        (TypeSpecifierNonArray::Image2D, TypeSpecifierNonArray::Image2D) => true,
        (TypeSpecifierNonArray::Sampler3D, TypeSpecifierNonArray::Sampler3D) => true,
        (TypeSpecifierNonArray::Image3D, TypeSpecifierNonArray::Image3D) => true,
        (TypeSpecifierNonArray::SamplerCube, TypeSpecifierNonArray::SamplerCube) => true,
        (TypeSpecifierNonArray::ImageCube, TypeSpecifierNonArray::ImageCube) => true,
        (TypeSpecifierNonArray::Sampler2DRect, TypeSpecifierNonArray::Sampler2DRect) => true,
        (TypeSpecifierNonArray::Image2DRect, TypeSpecifierNonArray::Image2DRect) => true,
        (TypeSpecifierNonArray::Sampler1DArray, TypeSpecifierNonArray::Sampler1DArray) => true,
        (TypeSpecifierNonArray::Image1DArray, TypeSpecifierNonArray::Image1DArray) => true,
        (TypeSpecifierNonArray::Sampler2DArray, TypeSpecifierNonArray::Sampler2DArray) => true,
        (TypeSpecifierNonArray::Image2DArray, TypeSpecifierNonArray::Image2DArray) => true,
        (TypeSpecifierNonArray::SamplerBuffer, TypeSpecifierNonArray::SamplerBuffer) => true,
        (TypeSpecifierNonArray::ImageBuffer, TypeSpecifierNonArray::ImageBuffer) => true,
        (TypeSpecifierNonArray::Sampler2DMS, TypeSpecifierNonArray::Sampler2DMS) => true,
        (TypeSpecifierNonArray::Image2DMS, TypeSpecifierNonArray::Image2DMS) => true,
        (TypeSpecifierNonArray::Sampler2DMSArray, TypeSpecifierNonArray::Sampler2DMSArray) => true,
        (TypeSpecifierNonArray::Image2DMSArray, TypeSpecifierNonArray::Image2DMSArray) => true,
        (TypeSpecifierNonArray::SamplerCubeArray, TypeSpecifierNonArray::SamplerCubeArray) => true,
        (TypeSpecifierNonArray::ImageCubeArray, TypeSpecifierNonArray::ImageCubeArray) => true,
        (TypeSpecifierNonArray::Sampler1DShadow, TypeSpecifierNonArray::Sampler1DShadow) => true,
        (TypeSpecifierNonArray::Sampler2DShadow, TypeSpecifierNonArray::Sampler2DShadow) => true,
        (TypeSpecifierNonArray::Sampler2DRectShadow, TypeSpecifierNonArray::Sampler2DRectShadow) => true,
        (TypeSpecifierNonArray::Sampler1DArrayShadow, TypeSpecifierNonArray::Sampler1DArrayShadow) => true,
        (TypeSpecifierNonArray::Sampler2DArrayShadow, TypeSpecifierNonArray::Sampler2DArrayShadow) => true,
        (TypeSpecifierNonArray::SamplerCubeShadow, TypeSpecifierNonArray::SamplerCubeShadow) => true,
        (TypeSpecifierNonArray::SamplerCubeArrayShadow, TypeSpecifierNonArray::SamplerCubeArrayShadow) => true,
        (TypeSpecifierNonArray::ISampler1D, TypeSpecifierNonArray::ISampler1D) => true,
        (TypeSpecifierNonArray::IImage1D, TypeSpecifierNonArray::IImage1D) => true,
        (TypeSpecifierNonArray::ISampler2D, TypeSpecifierNonArray::ISampler2D) => true,
        (TypeSpecifierNonArray::IImage2D, TypeSpecifierNonArray::IImage2D) => true,
        (TypeSpecifierNonArray::ISampler3D, TypeSpecifierNonArray::ISampler3D) => true,
        (TypeSpecifierNonArray::IImage3D, TypeSpecifierNonArray::IImage3D) => true,
        (TypeSpecifierNonArray::ISamplerCube, TypeSpecifierNonArray::ISamplerCube) => true,
        (TypeSpecifierNonArray::IImageCube, TypeSpecifierNonArray::IImageCube) => true,
        (TypeSpecifierNonArray::ISampler2DRect, TypeSpecifierNonArray::ISampler2DRect) => true,
        (TypeSpecifierNonArray::IImage2DRect, TypeSpecifierNonArray::IImage2DRect) => true,
        (TypeSpecifierNonArray::ISampler1DArray, TypeSpecifierNonArray::ISampler1DArray) => true,
        (TypeSpecifierNonArray::IImage1DArray, TypeSpecifierNonArray::IImage1DArray) => true,
        (TypeSpecifierNonArray::ISampler2DArray, TypeSpecifierNonArray::ISampler2DArray) => true,
        (TypeSpecifierNonArray::IImage2DArray, TypeSpecifierNonArray::IImage2DArray) => true,
        (TypeSpecifierNonArray::ISamplerBuffer, TypeSpecifierNonArray::ISamplerBuffer) => true,
        (TypeSpecifierNonArray::IImageBuffer, TypeSpecifierNonArray::IImageBuffer) => true,
        (TypeSpecifierNonArray::ISampler2DMS, TypeSpecifierNonArray::ISampler2DMS) => true,
        (TypeSpecifierNonArray::IImage2DMS, TypeSpecifierNonArray::IImage2DMS) => true,
        (TypeSpecifierNonArray::ISampler2DMSArray, TypeSpecifierNonArray::ISampler2DMSArray) => true,
        (TypeSpecifierNonArray::IImage2DMSArray, TypeSpecifierNonArray::IImage2DMSArray) => true,
        (TypeSpecifierNonArray::ISamplerCubeArray, TypeSpecifierNonArray::ISamplerCubeArray) => true,
        (TypeSpecifierNonArray::IImageCubeArray, TypeSpecifierNonArray::IImageCubeArray) => true,
        (TypeSpecifierNonArray::AtomicUInt, TypeSpecifierNonArray::AtomicUInt) => true,
        (TypeSpecifierNonArray::USampler1D, TypeSpecifierNonArray::USampler1D) => true,
        (TypeSpecifierNonArray::UImage1D, TypeSpecifierNonArray::UImage1D) => true,
        (TypeSpecifierNonArray::USampler2D, TypeSpecifierNonArray::USampler2D) => true,
        (TypeSpecifierNonArray::UImage2D, TypeSpecifierNonArray::UImage2D) => true,
        (TypeSpecifierNonArray::USampler3D, TypeSpecifierNonArray::USampler3D) => true,
        (TypeSpecifierNonArray::UImage3D, TypeSpecifierNonArray::UImage3D) => true,
        (TypeSpecifierNonArray::USamplerCube, TypeSpecifierNonArray::USamplerCube) => true,
        (TypeSpecifierNonArray::UImageCube, TypeSpecifierNonArray::UImageCube) => true,
        (TypeSpecifierNonArray::USampler2DRect, TypeSpecifierNonArray::USampler2DRect) => true,
        (TypeSpecifierNonArray::UImage2DRect, TypeSpecifierNonArray::UImage2DRect) => true,
        (TypeSpecifierNonArray::USampler1DArray, TypeSpecifierNonArray::USampler1DArray) => true,
        (TypeSpecifierNonArray::UImage1DArray, TypeSpecifierNonArray::UImage1DArray) => true,
        (TypeSpecifierNonArray::USampler2DArray, TypeSpecifierNonArray::USampler2DArray) => true,
        (TypeSpecifierNonArray::UImage2DArray, TypeSpecifierNonArray::UImage2DArray) => true,
        (TypeSpecifierNonArray::USamplerBuffer, TypeSpecifierNonArray::USamplerBuffer) => true,
        (TypeSpecifierNonArray::UImageBuffer, TypeSpecifierNonArray::UImageBuffer) => true,
        (TypeSpecifierNonArray::USampler2DMS, TypeSpecifierNonArray::USampler2DMS) => true,
        (TypeSpecifierNonArray::UImage2DMS, TypeSpecifierNonArray::UImage2DMS) => true,
        (TypeSpecifierNonArray::USampler2DMSArray, TypeSpecifierNonArray::USampler2DMSArray) => true,
        (TypeSpecifierNonArray::UImage2DMSArray, TypeSpecifierNonArray::UImage2DMSArray) => true,
        (TypeSpecifierNonArray::USamplerCubeArray, TypeSpecifierNonArray::USamplerCubeArray) => true,
        (TypeSpecifierNonArray::UImageCubeArray, TypeSpecifierNonArray::UImageCubeArray) => true,
        (TypeSpecifierNonArray::Struct(a0), TypeSpecifierNonArray::Struct(b0)) => eq_struct_specifier(a0, b0),
        (TypeSpecifierNonArray::TypeName(a0), TypeSpecifierNonArray::TypeName(b0)) => eq_type_name(a0, b0),
        _ => false,
    }
}

pub(crate) fn eq_type_specifier(a: &TypeSpecifier, b: &TypeSpecifier) -> (r: bool)
    ensures
        r == same_type_specifier(*a, *b),
    decreases a,
{
    eq_type_specifier_non_array(&a.ty, &b.ty)
        && (match (&a.array_specifier, &b.array_specifier) { (Some(x), Some(y)) => eq_array_specifier(x, y), (None, None) => true, _ => false })
}

pub(crate) fn eq_struct_specifier(a: &StructSpecifier, b: &StructSpecifier) -> (r: bool)
    ensures
        r == same_struct_specifier(*a, *b),
    decreases a,
{
    (match (&a.name, &b.name) { (Some(x), Some(y)) => eq_type_name(x, y), (None, None) => true, _ => false })
        && eq_vec_struct_field_specifier(&&a.fields.0, &&b.fields.0)
}

pub(crate) fn eq_struct_field_specifier(a: &StructFieldSpecifier, b: &StructFieldSpecifier) -> (r: bool)
    ensures
        r == same_struct_field_specifier(*a, *b),
    decreases a,
{
    (match (&a.qualifier, &b.qualifier) { (Some(x), Some(y)) => eq_type_qualifier(x, y), (None, None) => true, _ => false })
        && eq_type_specifier(&a.ty, &b.ty)
        && eq_vec_arrayed_identifier(&&a.identifiers.0, &&b.identifiers.0)
}

pub(crate) fn eq_arrayed_identifier(a: &ArrayedIdentifier, b: &ArrayedIdentifier) -> (r: bool)
    ensures
        r == same_arrayed_identifier(*a, *b),
    decreases a,
{
    eq_identifier(&a.ident, &b.ident)
        && (match (&a.array_spec, &b.array_spec) { (Some(x), Some(y)) => eq_array_specifier(x, y), (None, None) => true, _ => false })
}

pub(crate) fn eq_type_qualifier(a: &TypeQualifier, b: &TypeQualifier) -> (r: bool)
    ensures
        r == same_type_qualifier(*a, *b),
    decreases a,
{
    eq_vec_type_qualifier_spec(&&a.qualifiers.0, &&b.qualifiers.0)
}

pub(crate) fn eq_type_qualifier_spec(a: &TypeQualifierSpec, b: &TypeQualifierSpec) -> (r: bool)
    ensures
        r == same_type_qualifier_spec(*a, *b),
    decreases a,
{
    match (a, b) {
        (TypeQualifierSpec::Storage(a0), TypeQualifierSpec::Storage(b0)) => eq_storage_qualifier(a0, b0),
        (TypeQualifierSpec::Layout(a0), TypeQualifierSpec::Layout(b0)) => eq_layout_qualifier(a0, b0),
        (TypeQualifierSpec::Precision(a0), TypeQualifierSpec::Precision(b0)) => *a0 == *b0,
        (TypeQualifierSpec::Interpolation(a0), TypeQualifierSpec::Interpolation(b0)) => *a0 == *b0,
        (TypeQualifierSpec::Invariant, TypeQualifierSpec::Invariant) => true,
        (TypeQualifierSpec::Precise, TypeQualifierSpec::Precise) => true,
        _ => false,
    }
}

pub(crate) fn eq_storage_qualifier(a: &StorageQualifier, b: &StorageQualifier) -> (r: bool)
    ensures
        r == same_storage_qualifier(*a, *b),
    decreases a,
{
    match (a, b) {
        (StorageQualifier::Const, StorageQualifier::Const) => true,
        (StorageQualifier::InOut, StorageQualifier::InOut) => true,
        (StorageQualifier::In, StorageQualifier::In) => true,
        (StorageQualifier::Out, StorageQualifier::Out) => true,
        (StorageQualifier::Centroid, StorageQualifier::Centroid) => true,
        (StorageQualifier::Patch, StorageQualifier::Patch) => true,
        (StorageQualifier::Sample, StorageQualifier::Sample) => true,
        (StorageQualifier::Uniform, StorageQualifier::Uniform) => true,
        (StorageQualifier::Attribute, StorageQualifier::Attribute) => true,
        (StorageQualifier::Varying, StorageQualifier::Varying) => true,
        (StorageQualifier::Buffer, StorageQualifier::Buffer) => true,
        (StorageQualifier::Shared, StorageQualifier::Shared) => true,
        (StorageQualifier::Coherent, StorageQualifier::Coherent) => true,
        (StorageQualifier::Volatile, StorageQualifier::Volatile) => true,
        (StorageQualifier::Restrict, StorageQualifier::Restrict) => true,
        (StorageQualifier::ReadOnly, StorageQualifier::ReadOnly) => true,
        (StorageQualifier::WriteOnly, StorageQualifier::WriteOnly) => true,
        (StorageQualifier::Subroutine(a0), StorageQualifier::Subroutine(b0)) => eq_vec_type_name(a0, b0),
        _ => false,
    }
}

pub(crate) fn eq_layout_qualifier(a: &LayoutQualifier, b: &LayoutQualifier) -> (r: bool)
    ensures
        r == same_layout_qualifier(*a, *b),
    decreases a,
{
    eq_vec_layout_qualifier_spec(&&a.ids.0, &&b.ids.0)
}

pub(crate) fn eq_layout_qualifier_spec(a: &LayoutQualifierSpec, b: &LayoutQualifierSpec) -> (r: bool)
    ensures
        r == same_layout_qualifier_spec(*a, *b),
    decreases a,
{
    match (a, b) {
        (LayoutQualifierSpec::Identifier(a0, a1), LayoutQualifierSpec::Identifier(b0, b1)) => eq_identifier(a0, b0) && (match (a1, b1) { (Some(x), Some(y)) => eq_expr(&**x, &**y), (None, None) => true, _ => false }),
        (LayoutQualifierSpec::Shared, LayoutQualifierSpec::Shared) => true,
        _ => false,
    }
}

pub(crate) fn eq_fully_specified_type(a: &FullySpecifiedType, b: &FullySpecifiedType) -> (r: bool)
    ensures
        r == same_fully_specified_type(*a, *b),
    decreases a,
{
    (match (&a.qualifier, &b.qualifier) { (Some(x), Some(y)) => eq_type_qualifier(x, y), (None, None) => true, _ => false })
        && eq_type_specifier(&a.ty, &b.ty)
}

pub(crate) fn eq_array_specifier(a: &ArraySpecifier, b: &ArraySpecifier) -> (r: bool)
    ensures
        r == same_array_specifier(*a, *b),
    decreases a,
{
    eq_vec_array_specifier_dimension(&&a.dimensions.0, &&b.dimensions.0)
}

pub(crate) fn eq_array_specifier_dimension(a: &ArraySpecifierDimension, b: &ArraySpecifierDimension) -> (r: bool)
    ensures
        r == same_array_specifier_dimension(*a, *b),
    decreases a,
{
    match (a, b) {
        (ArraySpecifierDimension::Unsized, ArraySpecifierDimension::Unsized) => true,
        (ArraySpecifierDimension::ExplicitlySized(a0), ArraySpecifierDimension::ExplicitlySized(b0)) => eq_expr(&**a0, &**b0),
        _ => false,
    }
}

pub(crate) fn eq_declaration(a: &Declaration, b: &Declaration) -> (r: bool)
    ensures
        r == same_declaration(*a, *b),
    decreases a,
{
    match (a, b) {
        (Declaration::FunctionPrototype(a0), Declaration::FunctionPrototype(b0)) => eq_function_prototype(a0, b0),
        (Declaration::InitDeclaratorList(a0), Declaration::InitDeclaratorList(b0)) => eq_init_declarator_list(a0, b0),
        (Declaration::Precision(a0, a1), Declaration::Precision(b0, b1)) => *a0 == *b0 && eq_type_specifier(a1, b1),
        (Declaration::Block(a0), Declaration::Block(b0)) => eq_block(a0, b0),
        (Declaration::Global(a0, a1), Declaration::Global(b0, b1)) => eq_type_qualifier(a0, b0) && eq_vec_identifier(a1, b1),
        _ => false,
    }
}

pub(crate) fn eq_block(a: &Block, b: &Block) -> (r: bool)
    ensures
        r == same_block(*a, *b),
    decreases a,
{
    eq_type_qualifier(&a.qualifier, &b.qualifier)
        && eq_identifier(&a.name, &b.name)
        && eq_vec_struct_field_specifier(&a.fields, &b.fields)
        && (match (&a.identifier, &b.identifier) { (Some(x), Some(y)) => eq_arrayed_identifier(x, y), (None, None) => true, _ => false })
}

pub(crate) fn eq_fun_identifier(a: &FunIdentifier, b: &FunIdentifier) -> (r: bool)
    ensures
        r == same_fun_identifier(*a, *b),
    decreases a,
{
    match (a, b) {
        (FunIdentifier::Identifier(a0), FunIdentifier::Identifier(b0)) => eq_identifier(a0, b0),
        (FunIdentifier::Expr(a0), FunIdentifier::Expr(b0)) => eq_expr(&**a0, &**b0),
        _ => false,
    }
}

pub(crate) fn eq_function_prototype(a: &FunctionPrototype, b: &FunctionPrototype) -> (r: bool)
    ensures
        r == same_function_prototype(*a, *b),
    decreases a,
{
    eq_fully_specified_type(&a.ty, &b.ty)
        && eq_identifier(&a.name, &b.name)
        && eq_vec_function_parameter_declaration(&a.parameters, &b.parameters)
}

pub(crate) fn eq_function_parameter_declaration(a: &FunctionParameterDeclaration, b: &FunctionParameterDeclaration) -> (r: bool)
    ensures
        r == same_function_parameter_declaration(*a, *b),
    decreases a,
{
    match (a, b) {
        (FunctionParameterDeclaration::Named(a0, a1), FunctionParameterDeclaration::Named(b0, b1)) => (match (a0, b0) { (Some(x), Some(y)) => eq_type_qualifier(x, y), (None, None) => true, _ => false }) && eq_function_parameter_declarator(a1, b1),
        (FunctionParameterDeclaration::Unnamed(a0, a1), FunctionParameterDeclaration::Unnamed(b0, b1)) => (match (a0, b0) { (Some(x), Some(y)) => eq_type_qualifier(x, y), (None, None) => true, _ => false }) && eq_type_specifier(a1, b1),
        _ => false,
    }
}

pub(crate) fn eq_function_parameter_declarator(a: &FunctionParameterDeclarator, b: &FunctionParameterDeclarator) -> (r: bool)
    ensures
        r == same_function_parameter_declarator(*a, *b),
    decreases a,
{
    eq_type_specifier(&a.ty, &b.ty)
        && eq_arrayed_identifier(&a.ident, &b.ident)
}

pub(crate) fn eq_init_declarator_list(a: &InitDeclaratorList, b: &InitDeclaratorList) -> (r: bool)
    ensures
        r == same_init_declarator_list(*a, *b),
    decreases a,
{
    eq_single_declaration(&a.head, &b.head)
        && eq_vec_single_declaration_no_type(&a.tail, &b.tail)
}

pub(crate) fn eq_single_declaration(a: &SingleDeclaration, b: &SingleDeclaration) -> (r: bool)
    ensures
        r == same_single_declaration(*a, *b),
    decreases a,
{
    eq_fully_specified_type(&a.ty, &b.ty)
        && (match (&a.name, &b.name) { (Some(x), Some(y)) => eq_identifier(x, y), (None, None) => true, _ => false })
        && (match (&a.array_specifier, &b.array_specifier) { (Some(x), Some(y)) => eq_array_specifier(x, y), (None, None) => true, _ => false })
        && (match (&a.initializer, &b.initializer) { (Some(x), Some(y)) => eq_initializer(x, y), (None, None) => true, _ => false })
}

pub(crate) fn eq_single_declaration_no_type(a: &SingleDeclarationNoType, b: &SingleDeclarationNoType) -> (r: bool)
    ensures
        r == same_single_declaration_no_type(*a, *b),
    decreases a,
{
    eq_arrayed_identifier(&a.ident, &b.ident)
        && (match (&a.initializer, &b.initializer) { (Some(x), Some(y)) => eq_initializer(x, y), (None, None) => true, _ => false })
}

pub(crate) fn eq_initializer(a: &Initializer, b: &Initializer) -> (r: bool)
    ensures
        r == same_initializer(*a, *b),
    decreases a,
{
    match (a, b) {
        (Initializer::Simple(a0), Initializer::Simple(b0)) => eq_expr(&**a0, &**b0),
        (Initializer::List(a0), Initializer::List(b0)) => eq_vec_initializer(&a0.0, &b0.0),
        _ => false,
    }
}

pub(crate) fn eq_decimal(a: &Decimal, b: &Decimal) -> (r: bool)
    ensures
        r == same_decimal(*a, *b),
    decreases a,
{
    *&a.negative == *&b.negative
        && bytes_eq(&a.digits, &b.digits)
        && *&a.exponent == *&b.exponent
}

pub(crate) fn eq_expr(a: &Expr, b: &Expr) -> (r: bool)
    ensures
        r == same_expr(*a, *b),
    decreases a,
{
    match (a, b) {
        (Expr::Variable(a0), Expr::Variable(b0)) => eq_identifier(a0, b0),
        (Expr::IntConst(a0), Expr::IntConst(b0)) => *a0 == *b0,
        (Expr::UIntConst(a0), Expr::UIntConst(b0)) => *a0 == *b0,
        (Expr::BoolConst(a0), Expr::BoolConst(b0)) => *a0 == *b0,
        (Expr::FloatConst(a0), Expr::FloatConst(b0)) => eq_decimal(a0, b0),
        (Expr::DoubleConst(a0), Expr::DoubleConst(b0)) => eq_decimal(a0, b0),
        (Expr::Unary(a0, a1), Expr::Unary(b0, b1)) => *a0 == *b0 && eq_expr(&**a1, &**b1),
        (Expr::Binary(a0, a1, a2), Expr::Binary(b0, b1, b2)) => *a0 == *b0 && eq_expr(&**a1, &**b1) && eq_expr(&**a2, &**b2),
        (Expr::Ternary(a0, a1, a2), Expr::Ternary(b0, b1, b2)) => eq_expr(&**a0, &**b0) && eq_expr(&**a1, &**b1) && eq_expr(&**a2, &**b2),
        (Expr::Assignment(a0, a1, a2), Expr::Assignment(b0, b1, b2)) => eq_expr(&**a0, &**b0) && *a1 == *b1 && eq_expr(&**a2, &**b2),
        (Expr::Bracket(a0, a1), Expr::Bracket(b0, b1)) => eq_expr(&**a0, &**b0) && eq_array_specifier(a1, b1),
        (Expr::FunCall(a0, a1), Expr::FunCall(b0, b1)) => eq_fun_identifier(a0, b0) && eq_vec_expr(a1, b1),
        (Expr::Dot(a0, a1), Expr::Dot(b0, b1)) => eq_expr(&**a0, &**b0) && eq_identifier(a1, b1),
        (Expr::PostInc(a0), Expr::PostInc(b0)) => eq_expr(&**a0, &**b0),
        (Expr::PostDec(a0), Expr::PostDec(b0)) => eq_expr(&**a0, &**b0),
        (Expr::Comma(a0, a1), Expr::Comma(b0, b1)) => eq_expr(&**a0, &**b0) && eq_expr(&**a1, &**b1),
        _ => false,
    }
}

pub(crate) fn eq_external_declaration(a: &ExternalDeclaration, b: &ExternalDeclaration) -> (r: bool)
    ensures
        r == same_external_declaration(*a, *b),
    decreases a,
{
    match (a, b) {
        (ExternalDeclaration::Preprocessor(a0), ExternalDeclaration::Preprocessor(b0)) => eq_preprocessor(a0, b0),
        (ExternalDeclaration::FunctionDefinition(a0), ExternalDeclaration::FunctionDefinition(b0)) => eq_function_definition(a0, b0),
        (ExternalDeclaration::Declaration(a0), ExternalDeclaration::Declaration(b0)) => eq_declaration(a0, b0),
        _ => false,
    }
}

pub(crate) fn eq_function_definition(a: &FunctionDefinition, b: &FunctionDefinition) -> (r: bool)
    ensures
        r == same_function_definition(*a, *b),
    decreases a,
{
    eq_function_prototype(&a.prototype, &b.prototype)
        && eq_compound_statement(&a.statement, &b.statement)
}

pub(crate) fn eq_compound_statement(a: &CompoundStatement, b: &CompoundStatement) -> (r: bool)
    ensures
        r == same_compound_statement(*a, *b),
    decreases a,
{
    eq_vec_statement(&a.statement_list, &b.statement_list)
}

pub(crate) fn eq_statement(a: &Statement, b: &Statement) -> (r: bool)
    ensures
        r == same_statement(*a, *b),
    decreases a,
{
    match (a, b) {
        (Statement::Compound(a0), Statement::Compound(b0)) => eq_compound_statement(&**a0, &**b0),
        (Statement::Simple(a0), Statement::Simple(b0)) => eq_simple_statement(&**a0, &**b0),
        _ => false,
    }
}

pub(crate) fn eq_simple_statement(a: &SimpleStatement, b: &SimpleStatement) -> (r: bool)
    ensures
        r == same_simple_statement(*a, *b),
    decreases a,
{
    match (a, b) {
        (SimpleStatement::Declaration(a0), SimpleStatement::Declaration(b0)) => eq_declaration(a0, b0),
        (SimpleStatement::Expression(a0), SimpleStatement::Expression(b0)) => (match (a0, b0) { (Some(x), Some(y)) => eq_expr(x, y), (None, None) => true, _ => false }),
        (SimpleStatement::Selection(a0), SimpleStatement::Selection(b0)) => eq_selection_statement(a0, b0),
        (SimpleStatement::Switch(a0), SimpleStatement::Switch(b0)) => eq_switch_statement(a0, b0),
        (SimpleStatement::CaseLabel(a0), SimpleStatement::CaseLabel(b0)) => eq_case_label(a0, b0),
        (SimpleStatement::Iteration(a0), SimpleStatement::Iteration(b0)) => eq_iteration_statement(a0, b0),
        (SimpleStatement::Jump(a0), SimpleStatement::Jump(b0)) => eq_jump_statement(a0, b0),
        _ => false,
    }
}

pub(crate) fn eq_selection_statement(a: &SelectionStatement, b: &SelectionStatement) -> (r: bool)
    ensures
        r == same_selection_statement(*a, *b),
    decreases a,
{
    eq_expr(&**&a.cond, &**&b.cond)
        && eq_selection_rest_statement(&a.rest, &b.rest)
}

pub(crate) fn eq_condition(a: &Condition, b: &Condition) -> (r: bool)
    ensures
        r == same_condition(*a, *b),
    decreases a,
{
    match (a, b) {
        (Condition::Expr(a0), Condition::Expr(b0)) => eq_expr(&**a0, &**b0),
        (Condition::Assignment(a0, a1, a2), Condition::Assignment(b0, b1, b2)) => eq_fully_specified_type(a0, b0) && eq_identifier(a1, b1) && eq_initializer(a2, b2),
        _ => false,
    }
}

pub(crate) fn eq_selection_rest_statement(a: &SelectionRestStatement, b: &SelectionRestStatement) -> (r: bool)
    ensures
        r == same_selection_rest_statement(*a, *b),
    decreases a,
{
    match (a, b) {
        (SelectionRestStatement::Statement(a0), SelectionRestStatement::Statement(b0)) => eq_statement(&**a0, &**b0),
        (SelectionRestStatement::Else(a0, a1), SelectionRestStatement::Else(b0, b1)) => eq_statement(&**a0, &**b0) && eq_statement(&**a1, &**b1),
        _ => false,
    }
}

pub(crate) fn eq_switch_statement(a: &SwitchStatement, b: &SwitchStatement) -> (r: bool)
    ensures
        r == same_switch_statement(*a, *b),
    decreases a,
{
    eq_expr(&**&a.head, &**&b.head)
        && eq_vec_statement(&a.body, &b.body)
}

pub(crate) fn eq_case_label(a: &CaseLabel, b: &CaseLabel) -> (r: bool)
    ensures
        r == same_case_label(*a, *b),
    decreases a,
{
    match (a, b) {
        (CaseLabel::Case(a0), CaseLabel::Case(b0)) => eq_expr(&**a0, &**b0),
        (CaseLabel::Def, CaseLabel::Def) => true,
        _ => false,
    }
}

pub(crate) fn eq_iteration_statement(a: &IterationStatement, b: &IterationStatement) -> (r: bool)
    ensures
        r == same_iteration_statement(*a, *b),
    decreases a,
{
    match (a, b) {
        (IterationStatement::While(a0, a1), IterationStatement::While(b0, b1)) => eq_condition(a0, b0) && eq_statement(&**a1, &**b1),
        (IterationStatement::DoWhile(a0, a1), IterationStatement::DoWhile(b0, b1)) => eq_statement(&**a0, &**b0) && eq_expr(&**a1, &**b1),
        (IterationStatement::For(a0, a1, a2), IterationStatement::For(b0, b1, b2)) => eq_for_init_statement(a0, b0) && eq_for_rest_statement(a1, b1) && eq_statement(&**a2, &**b2),
        _ => false,
    }
}

pub(crate) fn eq_for_init_statement(a: &ForInitStatement, b: &ForInitStatement) -> (r: bool)
    ensures
        r == same_for_init_statement(*a, *b),
    decreases a,
{
    match (a, b) {
        (ForInitStatement::Expression(a0), ForInitStatement::Expression(b0)) => (match (a0, b0) { (Some(x), Some(y)) => eq_expr(x, y), (None, None) => true, _ => false }),
        (ForInitStatement::Declaration(a0), ForInitStatement::Declaration(b0)) => eq_declaration(&**a0, &**b0),
        _ => false,
    }
}

pub(crate) fn eq_for_rest_statement(a: &ForRestStatement, b: &ForRestStatement) -> (r: bool)
    ensures
        r == same_for_rest_statement(*a, *b),
    decreases a,
{
    (match (&a.condition, &b.condition) { (Some(x), Some(y)) => eq_condition(x, y), (None, None) => true, _ => false })
        && (match (&a.post_expr, &b.post_expr) { (Some(x), Some(y)) => eq_expr(&**x, &**y), (None, None) => true, _ => false })
}

pub(crate) fn eq_jump_statement(a: &JumpStatement, b: &JumpStatement) -> (r: bool)
    ensures
        r == same_jump_statement(*a, *b),
    decreases a,
{
    match (a, b) {
        (JumpStatement::Continue, JumpStatement::Continue) => true,
        (JumpStatement::Break, JumpStatement::Break) => true,
        (JumpStatement::Return(a0), JumpStatement::Return(b0)) => (match (a0, b0) { (Some(x), Some(y)) => eq_expr(&**x, &**y), (None, None) => true, _ => false }),
        (JumpStatement::Discard, JumpStatement::Discard) => true,
        _ => false,
    }
}

pub(crate) fn eq_preprocessor(a: &Preprocessor, b: &Preprocessor) -> (r: bool)
    ensures
        r == same_preprocessor(*a, *b),
    decreases a,
{
    match (a, b) {
        (Preprocessor::Define(a0), Preprocessor::Define(b0)) => eq_preprocessor_define(a0, b0),
        (Preprocessor::Else, Preprocessor::Else) => true,
        (Preprocessor::ElIf(a0), Preprocessor::ElIf(b0)) => eq_preprocessor_el_if(a0, b0),
        (Preprocessor::EndIf, Preprocessor::EndIf) => true,
        (Preprocessor::Error(a0), Preprocessor::Error(b0)) => eq_preprocessor_error(a0, b0),
        (Preprocessor::If(a0), Preprocessor::If(b0)) => eq_preprocessor_if(a0, b0),
        (Preprocessor::IfDef(a0), Preprocessor::IfDef(b0)) => eq_preprocessor_if_def(a0, b0),
        (Preprocessor::IfNDef(a0), Preprocessor::IfNDef(b0)) => eq_preprocessor_if_n_def(a0, b0),
        (Preprocessor::Include(a0), Preprocessor::Include(b0)) => eq_preprocessor_include(a0, b0),
        (Preprocessor::Line(a0), Preprocessor::Line(b0)) => eq_preprocessor_line(a0, b0),
        (Preprocessor::Pragma(a0), Preprocessor::Pragma(b0)) => eq_preprocessor_pragma(a0, b0),
        (Preprocessor::Undef(a0), Preprocessor::Undef(b0)) => eq_preprocessor_undef(a0, b0),
        (Preprocessor::Version(a0), Preprocessor::Version(b0)) => eq_preprocessor_version(a0, b0),
        (Preprocessor::Extension(a0), Preprocessor::Extension(b0)) => eq_preprocessor_extension(a0, b0),
        _ => false,
    }
}

pub(crate) fn eq_preprocessor_define(a: &PreprocessorDefine, b: &PreprocessorDefine) -> (r: bool)
    ensures
        r == same_preprocessor_define(*a, *b),
    decreases a,
{
    match (a, b) {
        (PreprocessorDefine::ObjectLike { ident: a_ident, value: a_value }, PreprocessorDefine::ObjectLike { ident: b_ident, value: b_value }) => eq_identifier(a_ident, b_ident) && str_eq(a_value.as_str(), b_value.as_str()),
        (PreprocessorDefine::FunctionLike { ident: a_ident, args: a_args, value: a_value }, PreprocessorDefine::FunctionLike { ident: b_ident, args: b_args, value: b_value }) => eq_identifier(a_ident, b_ident) && eq_vec_identifier(a_args, b_args) && str_eq(a_value.as_str(), b_value.as_str()),
        _ => false,
    }
}

pub(crate) fn eq_preprocessor_el_if(a: &PreprocessorElIf, b: &PreprocessorElIf) -> (r: bool)
    ensures
        r == same_preprocessor_el_if(*a, *b),
    decreases a,
{
    str_eq(&a.condition.as_str(), &b.condition.as_str())
}

pub(crate) fn eq_preprocessor_error(a: &PreprocessorError, b: &PreprocessorError) -> (r: bool)
    ensures
        r == same_preprocessor_error(*a, *b),
    decreases a,
{
    str_eq(&a.message.as_str(), &b.message.as_str())
}

pub(crate) fn eq_preprocessor_if(a: &PreprocessorIf, b: &PreprocessorIf) -> (r: bool)
    ensures
        r == same_preprocessor_if(*a, *b),
    decreases a,
{
    str_eq(&a.condition.as_str(), &b.condition.as_str())
}

pub(crate) fn eq_preprocessor_if_def(a: &PreprocessorIfDef, b: &PreprocessorIfDef) -> (r: bool)
    ensures
        r == same_preprocessor_if_def(*a, *b),
    decreases a,
{
    eq_identifier(&a.ident, &b.ident)
}

pub(crate) fn eq_preprocessor_if_n_def(a: &PreprocessorIfNDef, b: &PreprocessorIfNDef) -> (r: bool)
    ensures
        r == same_preprocessor_if_n_def(*a, *b),
    decreases a,
{
    eq_identifier(&a.ident, &b.ident)
}

pub(crate) fn eq_preprocessor_include(a: &PreprocessorInclude, b: &PreprocessorInclude) -> (r: bool)
    ensures
        r == same_preprocessor_include(*a, *b),
    decreases a,
{
    eq_path(&a.path, &b.path)
}

pub(crate) fn eq_preprocessor_line(a: &PreprocessorLine, b: &PreprocessorLine) -> (r: bool)
    ensures
        r == same_preprocessor_line(*a, *b),
    decreases a,
{
    *&a.line == *&b.line
        && (match (&a.source_string_number, &b.source_string_number) { (Some(x), Some(y)) => *x == *y, (None, None) => true, _ => false })
}

pub(crate) fn eq_preprocessor_pragma(a: &PreprocessorPragma, b: &PreprocessorPragma) -> (r: bool)
    ensures
        r == same_preprocessor_pragma(*a, *b),
    decreases a,
{
    str_eq(&a.command.as_str(), &b.command.as_str())
}

pub(crate) fn eq_preprocessor_undef(a: &PreprocessorUndef, b: &PreprocessorUndef) -> (r: bool)
    ensures
        r == same_preprocessor_undef(*a, *b),
    decreases a,
{
    eq_identifier(&a.name, &b.name)
}

pub(crate) fn eq_preprocessor_version(a: &PreprocessorVersion, b: &PreprocessorVersion) -> (r: bool)
    ensures
        r == same_preprocessor_version(*a, *b),
    decreases a,
{
    *&a.version == *&b.version
        && (match (&a.profile, &b.profile) { (Some(x), Some(y)) => *x == *y, (None, None) => true, _ => false })
}

pub(crate) fn eq_preprocessor_extension(a: &PreprocessorExtension, b: &PreprocessorExtension) -> (r: bool)
    ensures
        r == same_preprocessor_extension(*a, *b),
    decreases a,
{
    eq_preprocessor_extension_name(&a.name, &b.name)
        && (match (&a.behavior, &b.behavior) { (Some(x), Some(y)) => *x == *y, (None, None) => true, _ => false })
}

pub(crate) fn eq_preprocessor_extension_name(a: &PreprocessorExtensionName, b: &PreprocessorExtensionName) -> (r: bool)
    ensures
        r == same_preprocessor_extension_name(*a, *b),
    decreases a,
{
    match (a, b) {
        (PreprocessorExtensionName::All, PreprocessorExtensionName::All) => true,
        (PreprocessorExtensionName::Specific(a0), PreprocessorExtensionName::Specific(b0)) => str_eq(a0.as_str(), b0.as_str()),
        _ => false,
    }
}

pub(crate) fn eq_vec_array_specifier_dimension(a: &Vec<ArraySpecifierDimension>, b: &Vec<ArraySpecifierDimension>) -> (r: bool)
    ensures
        r == same_vec_array_specifier_dimension(*a, *b),
    decreases a,
{
    if a.len() != b.len() {
        return false;
    }
    let mut i: usize = 0;
    while i < a.len()
        invariant
            a@.len() == b@.len(),
            i <= a@.len(),
            forall|k: int| 0 <= k < i ==> same_array_specifier_dimension(#[trigger] a@[k], b@[k]),
        decreases a@.len() - i,
    {
        proof {
            assert(decreases_to!(a => a[i as int]));
        }
        if !eq_array_specifier_dimension(&a[i], &b[i]) {
            return false;
        }
        i = i + 1;
    }
    true
}

pub(crate) fn eq_vec_arrayed_identifier(a: &Vec<ArrayedIdentifier>, b: &Vec<ArrayedIdentifier>) -> (r: bool)
    ensures
        r == same_vec_arrayed_identifier(*a, *b),
    decreases a,
{
    if a.len() != b.len() {
        return false;
    }
    let mut i: usize = 0;
    while i < a.len()
        invariant
            a@.len() == b@.len(),
            i <= a@.len(),
            forall|k: int| 0 <= k < i ==> same_arrayed_identifier(#[trigger] a@[k], b@[k]),
        decreases a@.len() - i,
    {
        proof {
            assert(decreases_to!(a => a[i as int]));
        }
        if !eq_arrayed_identifier(&a[i], &b[i]) {
            return false;
        }
        i = i + 1;
    }
    true
}

pub(crate) fn eq_vec_expr(a: &Vec<Expr>, b: &Vec<Expr>) -> (r: bool)
    ensures
        r == same_vec_expr(*a, *b),
    decreases a,
{
    if a.len() != b.len() {
        return false;
    }
    let mut i: usize = 0;
    while i < a.len()
        invariant
            a@.len() == b@.len(),
            i <= a@.len(),
            forall|k: int| 0 <= k < i ==> same_expr(#[trigger] a@[k], b@[k]),
        decreases a@.len() - i,
    {
        proof {
            assert(decreases_to!(a => a[i as int]));
        }
        if !eq_expr(&a[i], &b[i]) {
            return false;
        }
        i = i + 1;
    }
    true
}

pub(crate) fn eq_vec_external_declaration(a: &Vec<ExternalDeclaration>, b: &Vec<ExternalDeclaration>) -> (r: bool)
    ensures
        r == same_vec_external_declaration(*a, *b),
    decreases a,
{
    if a.len() != b.len() {
        return false;
    }
    let mut i: usize = 0;
    while i < a.len()
        invariant
            a@.len() == b@.len(),
            i <= a@.len(),
            forall|k: int| 0 <= k < i ==> same_external_declaration(#[trigger] a@[k], b@[k]),
        decreases a@.len() - i,
    {
        proof {
            assert(decreases_to!(a => a[i as int]));
        }
        if !eq_external_declaration(&a[i], &b[i]) {
            return false;
        }
        i = i + 1;
    }
    true
}

pub(crate) fn eq_vec_function_parameter_declaration(a: &Vec<FunctionParameterDeclaration>, b: &Vec<FunctionParameterDeclaration>) -> (r: bool)
    ensures
        r == same_vec_function_parameter_declaration(*a, *b),
    decreases a,
{
    if a.len() != b.len() {
        return false;
    }
    let mut i: usize = 0;
    while i < a.len()
        invariant
            a@.len() == b@.len(),
            i <= a@.len(),
            forall|k: int| 0 <= k < i ==> same_function_parameter_declaration(#[trigger] a@[k], b@[k]),
        decreases a@.len() - i,
    {
        proof {
            assert(decreases_to!(a => a[i as int]));
        }
        if !eq_function_parameter_declaration(&a[i], &b[i]) {
            return false;
        }
        i = i + 1;
    }
    true
}

pub(crate) fn eq_vec_identifier(a: &Vec<Identifier>, b: &Vec<Identifier>) -> (r: bool)
    ensures
        r == same_vec_identifier(*a, *b),
    decreases a,
{
    if a.len() != b.len() {
        return false;
    }
    let mut i: usize = 0;
    while i < a.len()
        invariant
            a@.len() == b@.len(),
            i <= a@.len(),
            forall|k: int| 0 <= k < i ==> same_identifier(#[trigger] a@[k], b@[k]),
        decreases a@.len() - i,
    {
        proof {
            assert(decreases_to!(a => a[i as int]));
        }
        if !eq_identifier(&a[i], &b[i]) {
            return false;
        }
        i = i + 1;
    }
    true
}

pub(crate) fn eq_vec_initializer(a: &Vec<Initializer>, b: &Vec<Initializer>) -> (r: bool)
    ensures
        r == same_vec_initializer(*a, *b),
    decreases a,
{
    if a.len() != b.len() {
        return false;
    }
    let mut i: usize = 0;
    while i < a.len()
        invariant
            a@.len() == b@.len(),
            i <= a@.len(),
            forall|k: int| 0 <= k < i ==> same_initializer(#[trigger] a@[k], b@[k]),
        decreases a@.len() - i,
    {
        proof {
            assert(decreases_to!(a => a[i as int]));
        }
        if !eq_initializer(&a[i], &b[i]) {
            return false;
        }
        i = i + 1;
    }
    true
}

pub(crate) fn eq_vec_layout_qualifier_spec(a: &Vec<LayoutQualifierSpec>, b: &Vec<LayoutQualifierSpec>) -> (r: bool)
    ensures
        r == same_vec_layout_qualifier_spec(*a, *b),
    decreases a,
{
    if a.len() != b.len() {
        return false;
    }
    let mut i: usize = 0;
    while i < a.len()
        invariant
            a@.len() == b@.len(),
            i <= a@.len(),
            forall|k: int| 0 <= k < i ==> same_layout_qualifier_spec(#[trigger] a@[k], b@[k]),
        decreases a@.len() - i,
    {
        proof {
            assert(decreases_to!(a => a[i as int]));
        }
        if !eq_layout_qualifier_spec(&a[i], &b[i]) {
            return false;
        }
        i = i + 1;
    }
    true
}

pub(crate) fn eq_vec_single_declaration_no_type(a: &Vec<SingleDeclarationNoType>, b: &Vec<SingleDeclarationNoType>) -> (r: bool)
    ensures
        r == same_vec_single_declaration_no_type(*a, *b),
    decreases a,
{
    if a.len() != b.len() {
        return false;
    }
    let mut i: usize = 0;
    while i < a.len()
        invariant
            a@.len() == b@.len(),
            i <= a@.len(),
            forall|k: int| 0 <= k < i ==> same_single_declaration_no_type(#[trigger] a@[k], b@[k]),
        decreases a@.len() - i,
    {
        proof {
            assert(decreases_to!(a => a[i as int]));
        }
        if !eq_single_declaration_no_type(&a[i], &b[i]) {
            return false;
        }
        i = i + 1;
    }
    true
}

pub(crate) fn eq_vec_statement(a: &Vec<Statement>, b: &Vec<Statement>) -> (r: bool)
    ensures
        r == same_vec_statement(*a, *b),
    decreases a,
{
    if a.len() != b.len() {
        return false;
    }
    let mut i: usize = 0;
    while i < a.len()
        invariant
            a@.len() == b@.len(),
            i <= a@.len(),
            forall|k: int| 0 <= k < i ==> same_statement(#[trigger] a@[k], b@[k]),
        decreases a@.len() - i,
    {
        proof {
            assert(decreases_to!(a => a[i as int]));
        }
        if !eq_statement(&a[i], &b[i]) {
            return false;
        }
        i = i + 1;
    }
    true
}

pub(crate) fn eq_vec_struct_field_specifier(a: &Vec<StructFieldSpecifier>, b: &Vec<StructFieldSpecifier>) -> (r: bool)
    ensures
        r == same_vec_struct_field_specifier(*a, *b),
    decreases a,
{
    if a.len() != b.len() {
        return false;
    }
    let mut i: usize = 0;
    while i < a.len()
        invariant
            a@.len() == b@.len(),
            i <= a@.len(),
            forall|k: int| 0 <= k < i ==> same_struct_field_specifier(#[trigger] a@[k], b@[k]),
        decreases a@.len() - i,
    {
        proof {
            assert(decreases_to!(a => a[i as int]));
        }
        if !eq_struct_field_specifier(&a[i], &b[i]) {
            return false;
        }
        i = i + 1;
    }
    true
}

pub(crate) fn eq_vec_type_name(a: &Vec<TypeName>, b: &Vec<TypeName>) -> (r: bool)
    ensures
        r == same_vec_type_name(*a, *b),
    decreases a,
{
    if a.len() != b.len() {
        return false;
    }
    let mut i: usize = 0;
    while i < a.len()
        invariant
            a@.len() == b@.len(),
            i <= a@.len(),
            forall|k: int| 0 <= k < i ==> same_type_name(#[trigger] a@[k], b@[k]),
        decreases a@.len() - i,
    {
        proof {
            assert(decreases_to!(a => a[i as int]));
        }
        if !eq_type_name(&a[i], &b[i]) {
            return false;
        }
        i = i + 1;
    }
    true
}

pub(crate) fn eq_vec_type_qualifier_spec(a: &Vec<TypeQualifierSpec>, b: &Vec<TypeQualifierSpec>) -> (r: bool)
    ensures
        r == same_vec_type_qualifier_spec(*a, *b),
    decreases a,
{
    if a.len() != b.len() {
        return false;
    }
    let mut i: usize = 0;
    while i < a.len()
        invariant
            a@.len() == b@.len(),
            i <= a@.len(),
            forall|k: int| 0 <= k < i ==> same_type_qualifier_spec(#[trigger] a@[k], b@[k]),
        decreases a@.len() - i,
    {
        proof {
            assert(decreases_to!(a => a[i as int]));
        }
        if !eq_type_qualifier_spec(&a[i], &b[i]) {
            return false;
        }
        i = i + 1;
    }
    true
}

/// A copy of `s`.
pub(crate) fn copy_string(s: &String) -> (r: String)
    ensures
        r@ == s@,
{
    string_of(chars_of(s.as_str()).as_slice())
}

pub(crate) fn clone_path(a: &Path) -> (r: Path)
    ensures
        same_path(*a, r),
    decreases a,
{
    match a {
        Path::Absolute(a0) => Path::Absolute(copy_string(a0)),
        Path::Relative(a0) => Path::Relative(copy_string(a0)),
    }
}

pub(crate) fn clone_identifier(a: &Identifier) -> (r: Identifier)
    ensures
        same_identifier(*a, r),
    decreases a,
{
    Identifier(copy_string(&a.0))
}

pub(crate) fn clone_type_name(a: &TypeName) -> (r: TypeName)
    ensures
        same_type_name(*a, r),
    decreases a,
{
    TypeName(copy_string(&a.0))
}

pub(crate) fn clone_type_specifier_non_array(a: &TypeSpecifierNonArray) -> (r: TypeSpecifierNonArray)
    ensures
        same_type_specifier_non_array(*a, r),
    decreases a,
{
    match a {
        TypeSpecifierNonArray::Void => TypeSpecifierNonArray::Void,
        TypeSpecifierNonArray::Bool => TypeSpecifierNonArray::Bool,
        TypeSpecifierNonArray::Int => TypeSpecifierNonArray::Int,
        TypeSpecifierNonArray::UInt => TypeSpecifierNonArray::UInt,
        TypeSpecifierNonArray::Float => TypeSpecifierNonArray::Float,
        TypeSpecifierNonArray::Double => TypeSpecifierNonArray::Double,
        TypeSpecifierNonArray::Vec2 => TypeSpecifierNonArray::Vec2,
        TypeSpecifierNonArray::Vec3 => TypeSpecifierNonArray::Vec3,
        TypeSpecifierNonArray::Vec4 => TypeSpecifierNonArray::Vec4,
        TypeSpecifierNonArray::DVec2 => TypeSpecifierNonArray::DVec2,
        TypeSpecifierNonArray::DVec3 => TypeSpecifierNonArray::DVec3,
        TypeSpecifierNonArray::DVec4 => TypeSpecifierNonArray::DVec4,
        TypeSpecifierNonArray::BVec2 => TypeSpecifierNonArray::BVec2,
        TypeSpecifierNonArray::BVec3 => TypeSpecifierNonArray::BVec3,
        TypeSpecifierNonArray::BVec4 => TypeSpecifierNonArray::BVec4,
        TypeSpecifierNonArray::IVec2 => TypeSpecifierNonArray::IVec2,
        TypeSpecifierNonArray::IVec3 => TypeSpecifierNonArray::IVec3,
        TypeSpecifierNonArray::IVec4 => TypeSpecifierNonArray::IVec4,
        TypeSpecifierNonArray::UVec2 => TypeSpecifierNonArray::UVec2,
        TypeSpecifierNonArray::UVec3 => TypeSpecifierNonArray::UVec3,
        TypeSpecifierNonArray::UVec4 => TypeSpecifierNonArray::UVec4,
        TypeSpecifierNonArray::Mat2 => TypeSpecifierNonArray::Mat2,
        TypeSpecifierNonArray::Mat3 => TypeSpecifierNonArray::Mat3,
        TypeSpecifierNonArray::Mat4 => TypeSpecifierNonArray::Mat4,
        TypeSpecifierNonArray::Mat23 => TypeSpecifierNonArray::Mat23,
        TypeSpecifierNonArray::Mat24 => TypeSpecifierNonArray::Mat24,
        TypeSpecifierNonArray::Mat32 => TypeSpecifierNonArray::Mat32,
        TypeSpecifierNonArray::Mat34 => TypeSpecifierNonArray::Mat34,
        TypeSpecifierNonArray::Mat42 => TypeSpecifierNonArray::Mat42,
        TypeSpecifierNonArray::Mat43 => TypeSpecifierNonArray::Mat43,
        TypeSpecifierNonArray::DMat2 => TypeSpecifierNonArray::DMat2,
        TypeSpecifierNonArray::DMat3 => TypeSpecifierNonArray::DMat3,
        TypeSpecifierNonArray::DMat4 => TypeSpecifierNonArray::DMat4,
        TypeSpecifierNonArray::DMat23 => TypeSpecifierNonArray::DMat23,
        TypeSpecifierNonArray::DMat24 => TypeSpecifierNonArray::DMat24,
        TypeSpecifierNonArray::DMat32 => TypeSpecifierNonArray::DMat32,
        TypeSpecifierNonArray::DMat34 => TypeSpecifierNonArray::DMat34,
        TypeSpecifierNonArray::DMat42 => TypeSpecifierNonArray::DMat42,
        TypeSpecifierNonArray::DMat43 => TypeSpecifierNonArray::DMat43,
        TypeSpecifierNonArray::Sampler1D => TypeSpecifierNonArray::Sampler1D,
        TypeSpecifierNonArray::Image1D => TypeSpecifierNonArray::Image1D,
        TypeSpecifierNonArray::Sampler2D => TypeSpecifierNonArray::Sampler2D,
        TypeSpecifierNonArray::Image2D => TypeSpecifierNonArray::Image2D,
        TypeSpecifierNonArray::Sampler3D => TypeSpecifierNonArray::Sampler3D,
        TypeSpecifierNonArray::Image3D => TypeSpecifierNonArray::Image3D,
        TypeSpecifierNonArray::SamplerCube => TypeSpecifierNonArray::SamplerCube,
        TypeSpecifierNonArray::ImageCube => TypeSpecifierNonArray::ImageCube,
        TypeSpecifierNonArray::Sampler2DRect => TypeSpecifierNonArray::Sampler2DRect,
        TypeSpecifierNonArray::Image2DRect => TypeSpecifierNonArray::Image2DRect,
        TypeSpecifierNonArray::Sampler1DArray => TypeSpecifierNonArray::Sampler1DArray,
        TypeSpecifierNonArray::Image1DArray => TypeSpecifierNonArray::Image1DArray,
        TypeSpecifierNonArray::Sampler2DArray => TypeSpecifierNonArray::Sampler2DArray,
        TypeSpecifierNonArray::Image2DArray => TypeSpecifierNonArray::Image2DArray,
        TypeSpecifierNonArray::SamplerBuffer => TypeSpecifierNonArray::SamplerBuffer,
        TypeSpecifierNonArray::ImageBuffer => TypeSpecifierNonArray::ImageBuffer,
        TypeSpecifierNonArray::Sampler2DMS => TypeSpecifierNonArray::Sampler2DMS,
        TypeSpecifierNonArray::Image2DMS => TypeSpecifierNonArray::Image2DMS,
        TypeSpecifierNonArray::Sampler2DMSArray => TypeSpecifierNonArray::Sampler2DMSArray,
        TypeSpecifierNonArray::Image2DMSArray => TypeSpecifierNonArray::Image2DMSArray,
        TypeSpecifierNonArray::SamplerCubeArray => TypeSpecifierNonArray::SamplerCubeArray,
        TypeSpecifierNonArray::ImageCubeArray => TypeSpecifierNonArray::ImageCubeArray,
        TypeSpecifierNonArray::Sampler1DShadow => TypeSpecifierNonArray::Sampler1DShadow,
        TypeSpecifierNonArray::Sampler2DShadow => TypeSpecifierNonArray::Sampler2DShadow,
        TypeSpecifierNonArray::Sampler2DRectShadow => TypeSpecifierNonArray::Sampler2DRectShadow,
        TypeSpecifierNonArray::Sampler1DArrayShadow => TypeSpecifierNonArray::Sampler1DArrayShadow,
        TypeSpecifierNonArray::Sampler2DArrayShadow => TypeSpecifierNonArray::Sampler2DArrayShadow,
        TypeSpecifierNonArray::SamplerCubeShadow => TypeSpecifierNonArray::SamplerCubeShadow,
        TypeSpecifierNonArray::SamplerCubeArrayShadow => TypeSpecifierNonArray::SamplerCubeArrayShadow,
        TypeSpecifierNonArray::ISampler1D => TypeSpecifierNonArray::ISampler1D,
        TypeSpecifierNonArray::IImage1D => TypeSpecifierNonArray::IImage1D,
        TypeSpecifierNonArray::ISampler2D => TypeSpecifierNonArray::ISampler2D,
        TypeSpecifierNonArray::IImage2D => TypeSpecifierNonArray::IImage2D,
        TypeSpecifierNonArray::ISampler3D => TypeSpecifierNonArray::ISampler3D,
        TypeSpecifierNonArray::IImage3D => TypeSpecifierNonArray::IImage3D,
        TypeSpecifierNonArray::ISamplerCube => TypeSpecifierNonArray::ISamplerCube,
        TypeSpecifierNonArray::IImageCube => TypeSpecifierNonArray::IImageCube,
        TypeSpecifierNonArray::ISampler2DRect => TypeSpecifierNonArray::ISampler2DRect,
        TypeSpecifierNonArray::IImage2DRect => TypeSpecifierNonArray::IImage2DRect,
        TypeSpecifierNonArray::ISampler1DArray => TypeSpecifierNonArray::ISampler1DArray,
        TypeSpecifierNonArray::IImage1DArray => TypeSpecifierNonArray::IImage1DArray,
        TypeSpecifierNonArray::ISampler2DArray => TypeSpecifierNonArray::ISampler2DArray,
        TypeSpecifierNonArray::IImage2DArray => TypeSpecifierNonArray::IImage2DArray,
        TypeSpecifierNonArray::ISamplerBuffer => TypeSpecifierNonArray::ISamplerBuffer,
        TypeSpecifierNonArray::IImageBuffer => TypeSpecifierNonArray::IImageBuffer,
        TypeSpecifierNonArray::ISampler2DMS => TypeSpecifierNonArray::ISampler2DMS,
        TypeSpecifierNonArray::IImage2DMS => TypeSpecifierNonArray::IImage2DMS,
        TypeSpecifierNonArray::ISampler2DMSArray => TypeSpecifierNonArray::ISampler2DMSArray,
        TypeSpecifierNonArray::IImage2DMSArray => TypeSpecifierNonArray::IImage2DMSArray,
        TypeSpecifierNonArray::ISamplerCubeArray => TypeSpecifierNonArray::ISamplerCubeArray,
        TypeSpecifierNonArray::IImageCubeArray => TypeSpecifierNonArray::IImageCubeArray,
        TypeSpecifierNonArray::AtomicUInt => TypeSpecifierNonArray::AtomicUInt,
        TypeSpecifierNonArray::USampler1D => TypeSpecifierNonArray::USampler1D,
        TypeSpecifierNonArray::UImage1D => TypeSpecifierNonArray::UImage1D,
        TypeSpecifierNonArray::USampler2D => TypeSpecifierNonArray::USampler2D,
        TypeSpecifierNonArray::UImage2D => TypeSpecifierNonArray::UImage2D,
        TypeSpecifierNonArray::USampler3D => TypeSpecifierNonArray::USampler3D,
        TypeSpecifierNonArray::UImage3D => TypeSpecifierNonArray::UImage3D,
        TypeSpecifierNonArray::USamplerCube => TypeSpecifierNonArray::USamplerCube,
        TypeSpecifierNonArray::UImageCube => TypeSpecifierNonArray::UImageCube,
        TypeSpecifierNonArray::USampler2DRect => TypeSpecifierNonArray::USampler2DRect,
        TypeSpecifierNonArray::UImage2DRect => TypeSpecifierNonArray::UImage2DRect,
        TypeSpecifierNonArray::USampler1DArray => TypeSpecifierNonArray::USampler1DArray,
        TypeSpecifierNonArray::UImage1DArray => TypeSpecifierNonArray::UImage1DArray,
        TypeSpecifierNonArray::USampler2DArray => TypeSpecifierNonArray::USampler2DArray,
        TypeSpecifierNonArray::UImage2DArray => TypeSpecifierNonArray::UImage2DArray,
        TypeSpecifierNonArray::USamplerBuffer => TypeSpecifierNonArray::USamplerBuffer,
        TypeSpecifierNonArray::UImageBuffer => TypeSpecifierNonArray::UImageBuffer,
        TypeSpecifierNonArray::USampler2DMS => TypeSpecifierNonArray::USampler2DMS,
        TypeSpecifierNonArray::UImage2DMS => TypeSpecifierNonArray::UImage2DMS,
        TypeSpecifierNonArray::USampler2DMSArray => TypeSpecifierNonArray::USampler2DMSArray,
        TypeSpecifierNonArray::UImage2DMSArray => TypeSpecifierNonArray::UImage2DMSArray,
        TypeSpecifierNonArray::USamplerCubeArray => TypeSpecifierNonArray::USamplerCubeArray,
        TypeSpecifierNonArray::UImageCubeArray => TypeSpecifierNonArray::UImageCubeArray,
        TypeSpecifierNonArray::Struct(a0) => TypeSpecifierNonArray::Struct(clone_struct_specifier(a0)),
        TypeSpecifierNonArray::TypeName(a0) => TypeSpecifierNonArray::TypeName(clone_type_name(a0)),
    }
}

pub(crate) fn clone_type_specifier(a: &TypeSpecifier) -> (r: TypeSpecifier)
    ensures
        same_type_specifier(*a, r),
    decreases a,
{
    TypeSpecifier {
        ty: clone_type_specifier_non_array(&a.ty),
        array_specifier: (match &a.array_specifier { Some(x) => Some(clone_array_specifier(x)), None => None }),
    }
}

pub(crate) fn clone_struct_specifier(a: &StructSpecifier) -> (r: StructSpecifier)
    ensures
        same_struct_specifier(*a, r),
    decreases a,
{
    StructSpecifier {
        name: (match &a.name { Some(x) => Some(clone_type_name(x)), None => None }),
        fields: NonEmpty(clone_vec_struct_field_specifier(&&a.fields.0)),
    }
}

pub(crate) fn clone_struct_field_specifier(a: &StructFieldSpecifier) -> (r: StructFieldSpecifier)
    ensures
        same_struct_field_specifier(*a, r),
    decreases a,
{
    StructFieldSpecifier {
        qualifier: (match &a.qualifier { Some(x) => Some(clone_type_qualifier(x)), None => None }),
        ty: clone_type_specifier(&a.ty),
        identifiers: NonEmpty(clone_vec_arrayed_identifier(&&a.identifiers.0)),
    }
}

pub(crate) fn clone_arrayed_identifier(a: &ArrayedIdentifier) -> (r: ArrayedIdentifier)
    ensures
        same_arrayed_identifier(*a, r),
    decreases a,
{
    ArrayedIdentifier {
        ident: clone_identifier(&a.ident),
        array_spec: (match &a.array_spec { Some(x) => Some(clone_array_specifier(x)), None => None }),
    }
}

pub(crate) fn clone_type_qualifier(a: &TypeQualifier) -> (r: TypeQualifier)
    ensures
        same_type_qualifier(*a, r),
    decreases a,
{
    TypeQualifier {
        qualifiers: NonEmpty(clone_vec_type_qualifier_spec(&&a.qualifiers.0)),
    }
}

pub(crate) fn clone_type_qualifier_spec(a: &TypeQualifierSpec) -> (r: TypeQualifierSpec)
    ensures
        same_type_qualifier_spec(*a, r),
    decreases a,
{
    match a {
        TypeQualifierSpec::Storage(a0) => TypeQualifierSpec::Storage(clone_storage_qualifier(a0)),
        TypeQualifierSpec::Layout(a0) => TypeQualifierSpec::Layout(clone_layout_qualifier(a0)),
        TypeQualifierSpec::Precision(a0) => TypeQualifierSpec::Precision(*a0),
        TypeQualifierSpec::Interpolation(a0) => TypeQualifierSpec::Interpolation(*a0),
        TypeQualifierSpec::Invariant => TypeQualifierSpec::Invariant,
        TypeQualifierSpec::Precise => TypeQualifierSpec::Precise,
    }
}

pub(crate) fn clone_storage_qualifier(a: &StorageQualifier) -> (r: StorageQualifier)
    ensures
        same_storage_qualifier(*a, r),
    decreases a,
{
    match a {
        StorageQualifier::Const => StorageQualifier::Const,
        StorageQualifier::InOut => StorageQualifier::InOut,
        StorageQualifier::In => StorageQualifier::In,
        StorageQualifier::Out => StorageQualifier::Out,
        StorageQualifier::Centroid => StorageQualifier::Centroid,
        StorageQualifier::Patch => StorageQualifier::Patch,
        StorageQualifier::Sample => StorageQualifier::Sample,
        StorageQualifier::Uniform => StorageQualifier::Uniform,
        StorageQualifier::Attribute => StorageQualifier::Attribute,
        StorageQualifier::Varying => StorageQualifier::Varying,
        StorageQualifier::Buffer => StorageQualifier::Buffer,
        StorageQualifier::Shared => StorageQualifier::Shared,
        StorageQualifier::Coherent => StorageQualifier::Coherent,
        StorageQualifier::Volatile => StorageQualifier::Volatile,
        StorageQualifier::Restrict => StorageQualifier::Restrict,
        StorageQualifier::ReadOnly => StorageQualifier::ReadOnly,
        StorageQualifier::WriteOnly => StorageQualifier::WriteOnly,
        StorageQualifier::Subroutine(a0) => StorageQualifier::Subroutine(clone_vec_type_name(a0)),
    }
}

pub(crate) fn clone_layout_qualifier(a: &LayoutQualifier) -> (r: LayoutQualifier)
    ensures
        same_layout_qualifier(*a, r),
    decreases a,
{
    LayoutQualifier {
        ids: NonEmpty(clone_vec_layout_qualifier_spec(&&a.ids.0)),
    }
}

pub(crate) fn clone_layout_qualifier_spec(a: &LayoutQualifierSpec) -> (r: LayoutQualifierSpec)
    ensures
        same_layout_qualifier_spec(*a, r),
    decreases a,
{
    match a {
        LayoutQualifierSpec::Identifier(a0, a1) => LayoutQualifierSpec::Identifier(clone_identifier(a0), (match a1 { Some(x) => Some(Box::new(clone_expr(&**x))), None => None })),
        LayoutQualifierSpec::Shared => LayoutQualifierSpec::Shared,
    }
}

pub(crate) fn clone_fully_specified_type(a: &FullySpecifiedType) -> (r: FullySpecifiedType)
    ensures
        same_fully_specified_type(*a, r),
    decreases a,
{
    FullySpecifiedType {
        qualifier: (match &a.qualifier { Some(x) => Some(clone_type_qualifier(x)), None => None }),
        ty: clone_type_specifier(&a.ty),
    }
}

pub(crate) fn clone_array_specifier(a: &ArraySpecifier) -> (r: ArraySpecifier)
    ensures
        same_array_specifier(*a, r),
    decreases a,
{
    ArraySpecifier {
        dimensions: NonEmpty(clone_vec_array_specifier_dimension(&&a.dimensions.0)),
    }
}

pub(crate) fn clone_array_specifier_dimension(a: &ArraySpecifierDimension) -> (r: ArraySpecifierDimension)
    ensures
        same_array_specifier_dimension(*a, r),
    decreases a,
{
    match a {
        ArraySpecifierDimension::Unsized => ArraySpecifierDimension::Unsized,
        ArraySpecifierDimension::ExplicitlySized(a0) => ArraySpecifierDimension::ExplicitlySized(Box::new(clone_expr(&**a0))),
    }
}

pub(crate) fn clone_declaration(a: &Declaration) -> (r: Declaration)
    ensures
        same_declaration(*a, r),
    decreases a,
{
    match a {
        Declaration::FunctionPrototype(a0) => Declaration::FunctionPrototype(clone_function_prototype(a0)),
        Declaration::InitDeclaratorList(a0) => Declaration::InitDeclaratorList(clone_init_declarator_list(a0)),
        Declaration::Precision(a0, a1) => Declaration::Precision(*a0, clone_type_specifier(a1)),
        Declaration::Block(a0) => Declaration::Block(clone_block(a0)),
        Declaration::Global(a0, a1) => Declaration::Global(clone_type_qualifier(a0), clone_vec_identifier(a1)),
    }
}

pub(crate) fn clone_block(a: &Block) -> (r: Block)
    ensures
        same_block(*a, r),
    decreases a,
{
    Block {
        qualifier: clone_type_qualifier(&a.qualifier),
        name: clone_identifier(&a.name),
        fields: clone_vec_struct_field_specifier(&a.fields),
        identifier: (match &a.identifier { Some(x) => Some(clone_arrayed_identifier(x)), None => None }),
    }
}

pub(crate) fn clone_fun_identifier(a: &FunIdentifier) -> (r: FunIdentifier)
    ensures
        same_fun_identifier(*a, r),
    decreases a,
{
    match a {
        FunIdentifier::Identifier(a0) => FunIdentifier::Identifier(clone_identifier(a0)),
        FunIdentifier::Expr(a0) => FunIdentifier::Expr(Box::new(clone_expr(&**a0))),
    }
}

pub(crate) fn clone_function_prototype(a: &FunctionPrototype) -> (r: FunctionPrototype)
    ensures
        same_function_prototype(*a, r),
    decreases a,
{
    FunctionPrototype {
        ty: clone_fully_specified_type(&a.ty),
        name: clone_identifier(&a.name),
        parameters: clone_vec_function_parameter_declaration(&a.parameters),
    }
}

pub(crate) fn clone_function_parameter_declaration(a: &FunctionParameterDeclaration) -> (r: FunctionParameterDeclaration)
    ensures
        same_function_parameter_declaration(*a, r),
    decreases a,
{
    match a {
        FunctionParameterDeclaration::Named(a0, a1) => FunctionParameterDeclaration::Named((match a0 { Some(x) => Some(clone_type_qualifier(x)), None => None }), clone_function_parameter_declarator(a1)),
        FunctionParameterDeclaration::Unnamed(a0, a1) => FunctionParameterDeclaration::Unnamed((match a0 { Some(x) => Some(clone_type_qualifier(x)), None => None }), clone_type_specifier(a1)),
    }
}

pub(crate) fn clone_function_parameter_declarator(a: &FunctionParameterDeclarator) -> (r: FunctionParameterDeclarator)
    ensures
        same_function_parameter_declarator(*a, r),
    decreases a,
{
    FunctionParameterDeclarator {
        ty: clone_type_specifier(&a.ty),
        ident: clone_arrayed_identifier(&a.ident),
    }
}

pub(crate) fn clone_init_declarator_list(a: &InitDeclaratorList) -> (r: InitDeclaratorList)
    ensures
        same_init_declarator_list(*a, r),
    decreases a,
{
    InitDeclaratorList {
        head: clone_single_declaration(&a.head),
        tail: clone_vec_single_declaration_no_type(&a.tail),
    }
}

pub(crate) fn clone_single_declaration(a: &SingleDeclaration) -> (r: SingleDeclaration)
    ensures
        same_single_declaration(*a, r),
    decreases a,
{
    SingleDeclaration {
        ty: clone_fully_specified_type(&a.ty),
        name: (match &a.name { Some(x) => Some(clone_identifier(x)), None => None }),
        array_specifier: (match &a.array_specifier { Some(x) => Some(clone_array_specifier(x)), None => None }),
        initializer: (match &a.initializer { Some(x) => Some(clone_initializer(x)), None => None }),
    }
}

pub(crate) fn clone_single_declaration_no_type(a: &SingleDeclarationNoType) -> (r: SingleDeclarationNoType)
    ensures
        same_single_declaration_no_type(*a, r),
    decreases a,
{
    SingleDeclarationNoType {
        ident: clone_arrayed_identifier(&a.ident),
        initializer: (match &a.initializer { Some(x) => Some(clone_initializer(x)), None => None }),
    }
}

pub(crate) fn clone_initializer(a: &Initializer) -> (r: Initializer)
    ensures
        same_initializer(*a, r),
    decreases a,
{
    match a {
        Initializer::Simple(a0) => Initializer::Simple(Box::new(clone_expr(&**a0))),
        Initializer::List(a0) => Initializer::List(NonEmpty(clone_vec_initializer(&a0.0))),
    }
}

pub(crate) fn clone_decimal(a: &Decimal) -> (r: Decimal)
    ensures
        same_decimal(*a, r),
    decreases a,
{
    Decimal {
        negative: *&a.negative,
        digits: a.digits.clone(),
        exponent: *&a.exponent,
    }
}

pub(crate) fn clone_expr(a: &Expr) -> (r: Expr)
    ensures
        same_expr(*a, r),
    decreases a,
{
    match a {
        Expr::Variable(a0) => Expr::Variable(clone_identifier(a0)),
        Expr::IntConst(a0) => Expr::IntConst(*a0),
        Expr::UIntConst(a0) => Expr::UIntConst(*a0),
        Expr::BoolConst(a0) => Expr::BoolConst(*a0),
        Expr::FloatConst(a0) => Expr::FloatConst(clone_decimal(a0)),
        Expr::DoubleConst(a0) => Expr::DoubleConst(clone_decimal(a0)),
        Expr::Unary(a0, a1) => Expr::Unary(*a0, Box::new(clone_expr(&**a1))),
        Expr::Binary(a0, a1, a2) => Expr::Binary(*a0, Box::new(clone_expr(&**a1)), Box::new(clone_expr(&**a2))),
        Expr::Ternary(a0, a1, a2) => Expr::Ternary(Box::new(clone_expr(&**a0)), Box::new(clone_expr(&**a1)), Box::new(clone_expr(&**a2))),
        Expr::Assignment(a0, a1, a2) => Expr::Assignment(Box::new(clone_expr(&**a0)), *a1, Box::new(clone_expr(&**a2))),
        Expr::Bracket(a0, a1) => Expr::Bracket(Box::new(clone_expr(&**a0)), clone_array_specifier(a1)),
        Expr::FunCall(a0, a1) => Expr::FunCall(clone_fun_identifier(a0), clone_vec_expr(a1)),
        Expr::Dot(a0, a1) => Expr::Dot(Box::new(clone_expr(&**a0)), clone_identifier(a1)),
        Expr::PostInc(a0) => Expr::PostInc(Box::new(clone_expr(&**a0))),
        Expr::PostDec(a0) => Expr::PostDec(Box::new(clone_expr(&**a0))),
        Expr::Comma(a0, a1) => Expr::Comma(Box::new(clone_expr(&**a0)), Box::new(clone_expr(&**a1))),
    }
}

pub(crate) fn clone_translation_unit(a: &TranslationUnit) -> (r: TranslationUnit)
    ensures
        same_translation_unit(*a, r),
    decreases a,
{
    TranslationUnit(NonEmpty(clone_vec_external_declaration(&&a.0.0)))
}

pub(crate) fn clone_external_declaration(a: &ExternalDeclaration) -> (r: ExternalDeclaration)
    ensures
        same_external_declaration(*a, r),
    decreases a,
{
    match a {
        ExternalDeclaration::Preprocessor(a0) => ExternalDeclaration::Preprocessor(clone_preprocessor(a0)),
        ExternalDeclaration::FunctionDefinition(a0) => ExternalDeclaration::FunctionDefinition(clone_function_definition(a0)),
        ExternalDeclaration::Declaration(a0) => ExternalDeclaration::Declaration(clone_declaration(a0)),
    }
}

pub(crate) fn clone_function_definition(a: &FunctionDefinition) -> (r: FunctionDefinition)
    ensures
        same_function_definition(*a, r),
    decreases a,
{
    FunctionDefinition {
        prototype: clone_function_prototype(&a.prototype),
        statement: clone_compound_statement(&a.statement),
    }
}

pub(crate) fn clone_compound_statement(a: &CompoundStatement) -> (r: CompoundStatement)
    ensures
        same_compound_statement(*a, r),
    decreases a,
{
    CompoundStatement {
        statement_list: clone_vec_statement(&a.statement_list),
    }
}

pub(crate) fn clone_statement(a: &Statement) -> (r: Statement)
    ensures
        same_statement(*a, r),
    decreases a,
{
    match a {
        Statement::Compound(a0) => Statement::Compound(Box::new(clone_compound_statement(&**a0))),
        Statement::Simple(a0) => Statement::Simple(Box::new(clone_simple_statement(&**a0))),
    }
}

pub(crate) fn clone_simple_statement(a: &SimpleStatement) -> (r: SimpleStatement)
    ensures
        same_simple_statement(*a, r),
    decreases a,
{
    match a {
        SimpleStatement::Declaration(a0) => SimpleStatement::Declaration(clone_declaration(a0)),
        SimpleStatement::Expression(a0) => SimpleStatement::Expression((match a0 { Some(x) => Some(clone_expr(x)), None => None })),
        SimpleStatement::Selection(a0) => SimpleStatement::Selection(clone_selection_statement(a0)),
        SimpleStatement::Switch(a0) => SimpleStatement::Switch(clone_switch_statement(a0)),
        SimpleStatement::CaseLabel(a0) => SimpleStatement::CaseLabel(clone_case_label(a0)),
        SimpleStatement::Iteration(a0) => SimpleStatement::Iteration(clone_iteration_statement(a0)),
        SimpleStatement::Jump(a0) => SimpleStatement::Jump(clone_jump_statement(a0)),
    }
}

pub(crate) fn clone_selection_statement(a: &SelectionStatement) -> (r: SelectionStatement)
    ensures
        same_selection_statement(*a, r),
    decreases a,
{
    SelectionStatement {
        cond: Box::new(clone_expr(&**&a.cond)),
        rest: clone_selection_rest_statement(&a.rest),
    }
}

pub(crate) fn clone_condition(a: &Condition) -> (r: Condition)
    ensures
        same_condition(*a, r),
    decreases a,
{
    match a {
        Condition::Expr(a0) => Condition::Expr(Box::new(clone_expr(&**a0))),
        Condition::Assignment(a0, a1, a2) => Condition::Assignment(clone_fully_specified_type(a0), clone_identifier(a1), clone_initializer(a2)),
    }
}

pub(crate) fn clone_selection_rest_statement(a: &SelectionRestStatement) -> (r: SelectionRestStatement)
    ensures
        same_selection_rest_statement(*a, r),
    decreases a,
{
    match a {
        SelectionRestStatement::Statement(a0) => SelectionRestStatement::Statement(Box::new(clone_statement(&**a0))),
        SelectionRestStatement::Else(a0, a1) => SelectionRestStatement::Else(Box::new(clone_statement(&**a0)), Box::new(clone_statement(&**a1))),
    }
}

pub(crate) fn clone_switch_statement(a: &SwitchStatement) -> (r: SwitchStatement)
    ensures
        same_switch_statement(*a, r),
    decreases a,
{
    SwitchStatement {
        head: Box::new(clone_expr(&**&a.head)),
        body: clone_vec_statement(&a.body),
    }
}

pub(crate) fn clone_case_label(a: &CaseLabel) -> (r: CaseLabel)
    ensures
        same_case_label(*a, r),
    decreases a,
{
    match a {
        CaseLabel::Case(a0) => CaseLabel::Case(Box::new(clone_expr(&**a0))),
        CaseLabel::Def => CaseLabel::Def,
    }
}

pub(crate) fn clone_iteration_statement(a: &IterationStatement) -> (r: IterationStatement)
    ensures
        same_iteration_statement(*a, r),
    decreases a,
{
    match a {
        IterationStatement::While(a0, a1) => IterationStatement::While(clone_condition(a0), Box::new(clone_statement(&**a1))),
        IterationStatement::DoWhile(a0, a1) => IterationStatement::DoWhile(Box::new(clone_statement(&**a0)), Box::new(clone_expr(&**a1))),
        IterationStatement::For(a0, a1, a2) => IterationStatement::For(clone_for_init_statement(a0), clone_for_rest_statement(a1), Box::new(clone_statement(&**a2))),
    }
}

pub(crate) fn clone_for_init_statement(a: &ForInitStatement) -> (r: ForInitStatement)
    ensures
        same_for_init_statement(*a, r),
    decreases a,
{
    match a {
        ForInitStatement::Expression(a0) => ForInitStatement::Expression((match a0 { Some(x) => Some(clone_expr(x)), None => None })),
        ForInitStatement::Declaration(a0) => ForInitStatement::Declaration(Box::new(clone_declaration(&**a0))),
    }
}

pub(crate) fn clone_for_rest_statement(a: &ForRestStatement) -> (r: ForRestStatement)
    ensures
        same_for_rest_statement(*a, r),
    decreases a,
{
    ForRestStatement {
        condition: (match &a.condition { Some(x) => Some(clone_condition(x)), None => None }),
        post_expr: (match &a.post_expr { Some(x) => Some(Box::new(clone_expr(&**x))), None => None }),
    }
}

pub(crate) fn clone_jump_statement(a: &JumpStatement) -> (r: JumpStatement)
    ensures
        same_jump_statement(*a, r),
    decreases a,
{
    match a {
        JumpStatement::Continue => JumpStatement::Continue,
        JumpStatement::Break => JumpStatement::Break,
        JumpStatement::Return(a0) => JumpStatement::Return((match a0 { Some(x) => Some(Box::new(clone_expr(&**x))), None => None })),
        JumpStatement::Discard => JumpStatement::Discard,
    }
}

pub(crate) fn clone_preprocessor(a: &Preprocessor) -> (r: Preprocessor)
    ensures
        same_preprocessor(*a, r),
    decreases a,
{
    match a {
        Preprocessor::Define(a0) => Preprocessor::Define(clone_preprocessor_define(a0)),
        Preprocessor::Else => Preprocessor::Else,
        Preprocessor::ElIf(a0) => Preprocessor::ElIf(clone_preprocessor_el_if(a0)),
        Preprocessor::EndIf => Preprocessor::EndIf,
        Preprocessor::Error(a0) => Preprocessor::Error(clone_preprocessor_error(a0)),
        Preprocessor::If(a0) => Preprocessor::If(clone_preprocessor_if(a0)),
        Preprocessor::IfDef(a0) => Preprocessor::IfDef(clone_preprocessor_if_def(a0)),
        Preprocessor::IfNDef(a0) => Preprocessor::IfNDef(clone_preprocessor_if_n_def(a0)),
        Preprocessor::Include(a0) => Preprocessor::Include(clone_preprocessor_include(a0)),
        Preprocessor::Line(a0) => Preprocessor::Line(clone_preprocessor_line(a0)),
        Preprocessor::Pragma(a0) => Preprocessor::Pragma(clone_preprocessor_pragma(a0)),
        Preprocessor::Undef(a0) => Preprocessor::Undef(clone_preprocessor_undef(a0)),
        Preprocessor::Version(a0) => Preprocessor::Version(clone_preprocessor_version(a0)),
        Preprocessor::Extension(a0) => Preprocessor::Extension(clone_preprocessor_extension(a0)),
    }
}

pub(crate) fn clone_preprocessor_define(a: &PreprocessorDefine) -> (r: PreprocessorDefine)
    ensures
        same_preprocessor_define(*a, r),
    decreases a,
{
    match a {
        PreprocessorDefine::ObjectLike { ident: a_ident, value: a_value } => PreprocessorDefine::ObjectLike { ident: clone_identifier(a_ident), value: copy_string(a_value) },
        PreprocessorDefine::FunctionLike { ident: a_ident, args: a_args, value: a_value } => PreprocessorDefine::FunctionLike { ident: clone_identifier(a_ident), args: clone_vec_identifier(a_args), value: copy_string(a_value) },
    }
}

pub(crate) fn clone_preprocessor_el_if(a: &PreprocessorElIf) -> (r: PreprocessorElIf)
    ensures
        same_preprocessor_el_if(*a, r),
    decreases a,
{
    PreprocessorElIf {
        condition: copy_string(&a.condition),
    }
}

pub(crate) fn clone_preprocessor_error(a: &PreprocessorError) -> (r: PreprocessorError)
    ensures
        same_preprocessor_error(*a, r),
    decreases a,
{
    PreprocessorError {
        message: copy_string(&a.message),
    }
}

pub(crate) fn clone_preprocessor_if(a: &PreprocessorIf) -> (r: PreprocessorIf)
    ensures
        same_preprocessor_if(*a, r),
    decreases a,
{
    PreprocessorIf {
        condition: copy_string(&a.condition),
    }
}

pub(crate) fn clone_preprocessor_if_def(a: &PreprocessorIfDef) -> (r: PreprocessorIfDef)
    ensures
        same_preprocessor_if_def(*a, r),
    decreases a,
{
    PreprocessorIfDef {
        ident: clone_identifier(&a.ident),
    }
}

pub(crate) fn clone_preprocessor_if_n_def(a: &PreprocessorIfNDef) -> (r: PreprocessorIfNDef)
    ensures
        same_preprocessor_if_n_def(*a, r),
    decreases a,
{
    PreprocessorIfNDef {
        ident: clone_identifier(&a.ident),
    }
}

pub(crate) fn clone_preprocessor_include(a: &PreprocessorInclude) -> (r: PreprocessorInclude)
    ensures
        same_preprocessor_include(*a, r),
    decreases a,
{
    PreprocessorInclude {
        path: clone_path(&a.path),
    }
}

pub(crate) fn clone_preprocessor_line(a: &PreprocessorLine) -> (r: PreprocessorLine)
    ensures
        same_preprocessor_line(*a, r),
    decreases a,
{
    PreprocessorLine {
        line: *&a.line,
        source_string_number: (match &a.source_string_number { Some(x) => Some(*x), None => None }),
    }
}

pub(crate) fn clone_preprocessor_pragma(a: &PreprocessorPragma) -> (r: PreprocessorPragma)
    ensures
        same_preprocessor_pragma(*a, r),
    decreases a,
{
    PreprocessorPragma {
        command: copy_string(&a.command),
    }
}

pub(crate) fn clone_preprocessor_undef(a: &PreprocessorUndef) -> (r: PreprocessorUndef)
    ensures
        same_preprocessor_undef(*a, r),
    decreases a,
{
    PreprocessorUndef {
        name: clone_identifier(&a.name),
    }
}

pub(crate) fn clone_preprocessor_version(a: &PreprocessorVersion) -> (r: PreprocessorVersion)
    ensures
        same_preprocessor_version(*a, r),
    decreases a,
{
    PreprocessorVersion {
        version: *&a.version,
        profile: (match &a.profile { Some(x) => Some(*x), None => None }),
    }
}

pub(crate) fn clone_preprocessor_extension(a: &PreprocessorExtension) -> (r: PreprocessorExtension)
    ensures
        same_preprocessor_extension(*a, r),
    decreases a,
{
    PreprocessorExtension {
        name: clone_preprocessor_extension_name(&a.name),
        behavior: (match &a.behavior { Some(x) => Some(*x), None => None }),
    }
}

pub(crate) fn clone_preprocessor_extension_name(a: &PreprocessorExtensionName) -> (r: PreprocessorExtensionName)
    ensures
        same_preprocessor_extension_name(*a, r),
    decreases a,
{
    match a {
        PreprocessorExtensionName::All => PreprocessorExtensionName::All,
        PreprocessorExtensionName::Specific(a0) => PreprocessorExtensionName::Specific(copy_string(a0)),
    }
}

pub(crate) fn clone_vec_array_specifier_dimension(a: &Vec<ArraySpecifierDimension>) -> (r: Vec<ArraySpecifierDimension>)
    ensures
        r@.len() == a@.len(),
        same_vec_array_specifier_dimension(*a, r),
    decreases a,
{
    let mut v: Vec<ArraySpecifierDimension> = Vec::new();
    let mut i: usize = 0;
    while i < a.len()
        invariant
            v@.len() == i,
            i <= a@.len(),
            forall|k: int| 0 <= k < i ==> same_array_specifier_dimension(#[trigger] a@[k], v@[k]),
        decreases a@.len() - i,
    {
        proof {
            assert(decreases_to!(a => a[i as int]));
        }
        v.push(clone_array_specifier_dimension(&a[i]));
        i = i + 1;
    }
    v
}

pub(crate) fn clone_vec_arrayed_identifier(a: &Vec<ArrayedIdentifier>) -> (r: Vec<ArrayedIdentifier>)
    ensures
        r@.len() == a@.len(),
        same_vec_arrayed_identifier(*a, r),
    decreases a,
{
    let mut v: Vec<ArrayedIdentifier> = Vec::new();
    let mut i: usize = 0;
    while i < a.len()
        invariant
            v@.len() == i,
            i <= a@.len(),
            forall|k: int| 0 <= k < i ==> same_arrayed_identifier(#[trigger] a@[k], v@[k]),
        decreases a@.len() - i,
    {
        proof {
            assert(decreases_to!(a => a[i as int]));
        }
        v.push(clone_arrayed_identifier(&a[i]));
        i = i + 1;
    }
    v
}

pub(crate) fn clone_vec_expr(a: &Vec<Expr>) -> (r: Vec<Expr>)
    ensures
        r@.len() == a@.len(),
        same_vec_expr(*a, r),
    decreases a,
{
    let mut v: Vec<Expr> = Vec::new();
    let mut i: usize = 0;
    while i < a.len()
        invariant
            v@.len() == i,
            i <= a@.len(),
            forall|k: int| 0 <= k < i ==> same_expr(#[trigger] a@[k], v@[k]),
        decreases a@.len() - i,
    {
        proof {
            assert(decreases_to!(a => a[i as int]));
        }
        v.push(clone_expr(&a[i]));
        i = i + 1;
    }
    v
}

pub(crate) fn clone_vec_external_declaration(a: &Vec<ExternalDeclaration>) -> (r: Vec<ExternalDeclaration>)
    ensures
        r@.len() == a@.len(),
        same_vec_external_declaration(*a, r),
    decreases a,
{
    let mut v: Vec<ExternalDeclaration> = Vec::new();
    let mut i: usize = 0;
    while i < a.len()
        invariant
            v@.len() == i,
            i <= a@.len(),
            forall|k: int| 0 <= k < i ==> same_external_declaration(#[trigger] a@[k], v@[k]),
        decreases a@.len() - i,
    {
        proof {
            assert(decreases_to!(a => a[i as int]));
        }
        v.push(clone_external_declaration(&a[i]));
        i = i + 1;
    }
    v
}

pub(crate) fn clone_vec_function_parameter_declaration(a: &Vec<FunctionParameterDeclaration>) -> (r: Vec<FunctionParameterDeclaration>)
    ensures
        r@.len() == a@.len(),
        same_vec_function_parameter_declaration(*a, r),
    decreases a,
{
    let mut v: Vec<FunctionParameterDeclaration> = Vec::new();
    let mut i: usize = 0;
    while i < a.len()
        invariant
            v@.len() == i,
            i <= a@.len(),
            forall|k: int| 0 <= k < i ==> same_function_parameter_declaration(#[trigger] a@[k], v@[k]),
        decreases a@.len() - i,
    {
        proof {
            assert(decreases_to!(a => a[i as int]));
        }
        v.push(clone_function_parameter_declaration(&a[i]));
        i = i + 1;
    }
    v
}

pub(crate) fn clone_vec_identifier(a: &Vec<Identifier>) -> (r: Vec<Identifier>)
    ensures
        r@.len() == a@.len(),
        same_vec_identifier(*a, r),
    decreases a,
{
    let mut v: Vec<Identifier> = Vec::new();
    let mut i: usize = 0;
    while i < a.len()
        invariant
            v@.len() == i,
            i <= a@.len(),
            forall|k: int| 0 <= k < i ==> same_identifier(#[trigger] a@[k], v@[k]),
        decreases a@.len() - i,
    {
        proof {
            assert(decreases_to!(a => a[i as int]));
        }
        v.push(clone_identifier(&a[i]));
        i = i + 1;
    }
    v
}

pub(crate) fn clone_vec_initializer(a: &Vec<Initializer>) -> (r: Vec<Initializer>)
    ensures
        r@.len() == a@.len(),
        same_vec_initializer(*a, r),
    decreases a,
{
    let mut v: Vec<Initializer> = Vec::new();
    let mut i: usize = 0;
    while i < a.len()
        invariant
            v@.len() == i,
            i <= a@.len(),
            forall|k: int| 0 <= k < i ==> same_initializer(#[trigger] a@[k], v@[k]),
        decreases a@.len() - i,
    {
        proof {
            assert(decreases_to!(a => a[i as int]));
        }
        v.push(clone_initializer(&a[i]));
        i = i + 1;
    }
    v
}

pub(crate) fn clone_vec_layout_qualifier_spec(a: &Vec<LayoutQualifierSpec>) -> (r: Vec<LayoutQualifierSpec>)
    ensures
        r@.len() == a@.len(),
        same_vec_layout_qualifier_spec(*a, r),
    decreases a,
{
    let mut v: Vec<LayoutQualifierSpec> = Vec::new();
    let mut i: usize = 0;
    while i < a.len()
        invariant
            v@.len() == i,
            i <= a@.len(),
            forall|k: int| 0 <= k < i ==> same_layout_qualifier_spec(#[trigger] a@[k], v@[k]),
        decreases a@.len() - i,
    {
        proof {
            assert(decreases_to!(a => a[i as int]));
        }
        v.push(clone_layout_qualifier_spec(&a[i]));
        i = i + 1;
    }
    v
}

pub(crate) fn clone_vec_single_declaration_no_type(a: &Vec<SingleDeclarationNoType>) -> (r: Vec<SingleDeclarationNoType>)
    ensures
        r@.len() == a@.len(),
        same_vec_single_declaration_no_type(*a, r),
    decreases a,
{
    let mut v: Vec<SingleDeclarationNoType> = Vec::new();
    let mut i: usize = 0;
    while i < a.len()
        invariant
            v@.len() == i,
            i <= a@.len(),
            forall|k: int| 0 <= k < i ==> same_single_declaration_no_type(#[trigger] a@[k], v@[k]),
        decreases a@.len() - i,
    {
        proof {
            assert(decreases_to!(a => a[i as int]));
        }
        v.push(clone_single_declaration_no_type(&a[i]));
        i = i + 1;
    }
    v
}

pub(crate) fn clone_vec_statement(a: &Vec<Statement>) -> (r: Vec<Statement>)
    ensures
        r@.len() == a@.len(),
        same_vec_statement(*a, r),
    decreases a,
{
    let mut v: Vec<Statement> = Vec::new();
    let mut i: usize = 0;
    while i < a.len()
        invariant
            v@.len() == i,
            i <= a@.len(),
            forall|k: int| 0 <= k < i ==> same_statement(#[trigger] a@[k], v@[k]),
        decreases a@.len() - i,
    {
        proof {
            assert(decreases_to!(a => a[i as int]));
        }
        v.push(clone_statement(&a[i]));
        i = i + 1;
    }
    v
}

pub(crate) fn clone_vec_struct_field_specifier(a: &Vec<StructFieldSpecifier>) -> (r: Vec<StructFieldSpecifier>)
    ensures
        r@.len() == a@.len(),
        same_vec_struct_field_specifier(*a, r),
    decreases a,
{
    let mut v: Vec<StructFieldSpecifier> = Vec::new();
    let mut i: usize = 0;
    while i < a.len()
        invariant
            v@.len() == i,
            i <= a@.len(),
            forall|k: int| 0 <= k < i ==> same_struct_field_specifier(#[trigger] a@[k], v@[k]),
        decreases a@.len() - i,
    {
        proof {
            assert(decreases_to!(a => a[i as int]));
        }
        v.push(clone_struct_field_specifier(&a[i]));
        i = i + 1;
    }
    v
}

pub(crate) fn clone_vec_type_name(a: &Vec<TypeName>) -> (r: Vec<TypeName>)
    ensures
        r@.len() == a@.len(),
        same_vec_type_name(*a, r),
    decreases a,
{
    let mut v: Vec<TypeName> = Vec::new();
    let mut i: usize = 0;
    while i < a.len()
        invariant
            v@.len() == i,
            i <= a@.len(),
            forall|k: int| 0 <= k < i ==> same_type_name(#[trigger] a@[k], v@[k]),
        decreases a@.len() - i,
    {
        proof {
            assert(decreases_to!(a => a[i as int]));
        }
        v.push(clone_type_name(&a[i]));
        i = i + 1;
    }
    v
}

pub(crate) fn clone_vec_type_qualifier_spec(a: &Vec<TypeQualifierSpec>) -> (r: Vec<TypeQualifierSpec>)
    ensures
        r@.len() == a@.len(),
        same_vec_type_qualifier_spec(*a, r),
    decreases a,
{
    let mut v: Vec<TypeQualifierSpec> = Vec::new();
    let mut i: usize = 0;
    while i < a.len()
        invariant
            v@.len() == i,
            i <= a@.len(),
            forall|k: int| 0 <= k < i ==> same_type_qualifier_spec(#[trigger] a@[k], v@[k]),
        decreases a@.len() - i,
    {
        proof {
            assert(decreases_to!(a => a[i as int]));
        }
        v.push(clone_type_qualifier_spec(&a[i]));
        i = i + 1;
    }
    v
}

} // verus!
