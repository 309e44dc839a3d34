//! Minimal-whitespace GLSL printer.
//!
//! Printing and re-parsing give back an equal tree (the crusher checks it
//! every time). That rules the details:
//! - parentheses come from operator precedence only; `|`, `^`, `&` (and `,`
//!   and assignment) nest to the right in the parser, everything else folds
//!   to the left, so the child contexts mirror that;
//! - call arguments and initializers are assignment expressions, so an
//!   embedded comma expression gets parentheses;
//! - a negative `IntConst` (only produced from a hex or octal literal whose
//!   bit pattern is negative) is printed as hex, since `-1` would parse as a
//!   unary minus;
//! - a space is emitted only where two tokens would otherwise merge
//!   (identifier and number characters, `+ +`, `- -`); directives sit on
//!   their own line.
use vstd::prelude::*;
use crate::syntax::{NonEmpty, Path, Identifier, TypeName, TypeSpecifierNonArray, TypeSpecifier,
    StructSpecifier, StructFieldSpecifier, ArrayedIdentifier, TypeQualifier, TypeQualifierSpec,
    StorageQualifier, LayoutQualifier, LayoutQualifierSpec, PrecisionQualifier,
    InterpolationQualifier, FullySpecifiedType, ArraySpecifier, ArraySpecifierDimension, Declaration,
    Block, FunIdentifier, FunctionPrototype, FunctionParameterDeclaration, InitDeclaratorList,
    SingleDeclaration, SingleDeclarationNoType, Initializer, Decimal, Expr, UnaryOp, BinaryOp, AssignmentOp, TranslationUnit,
    ExternalDeclaration, CompoundStatement, Statement, SimpleStatement, Condition,
    SelectionRestStatement, CaseLabel, IterationStatement, ForInitStatement, JumpStatement,
    Preprocessor, PreprocessorDefine, PreprocessorVersionProfile, PreprocessorExtensionName,
    PreprocessorExtensionBehavior};
use crate::text::{chars_of, string_of, decimal_chars, hex_chars, extend_chars, extend_str, decimal, digit_char, hexadecimal};

verus! {

broadcast use vstd::string::group_string_axioms;

/// Precedence levels as the parser builds them; lower binds tighter. An
/// expression needs parentheses where its level exceeds the context's.
pub const CTX_EXPR: u8 = 17;
pub const CTX_ASSIGN: u8 = 16;
pub const CTX_COND: u8 = 15;
pub const CTX_UNARY: u8 = 3;
pub const CTX_POSTFIX: u8 = 2;

/// The precedence level of a binary operator.
pub open spec fn spec_binop_prec(op: BinaryOp) -> u8 {
    match op {
        BinaryOp::Mult | BinaryOp::Div | BinaryOp::Mod => 4,
        BinaryOp::Add | BinaryOp::Sub => 5,
        BinaryOp::LShift | BinaryOp::RShift => 6,
        BinaryOp::LT | BinaryOp::GT | BinaryOp::LTE | BinaryOp::GTE => 7,
        BinaryOp::Equal | BinaryOp::NonEqual => 8,
        BinaryOp::BitAnd => 9,
        BinaryOp::BitXor => 10,
        BinaryOp::BitOr => 11,
        BinaryOp::And => 12,
        BinaryOp::Xor => 13,
        BinaryOp::Or => 14,
    }
}

pub fn binop_prec(op: &BinaryOp) -> (r: u8)
    ensures
        r == spec_binop_prec(*op),
        4 <= r <= 14,
{
    match op {
        BinaryOp::Mult | BinaryOp::Div | BinaryOp::Mod => 4,
        BinaryOp::Add | BinaryOp::Sub => 5,
        BinaryOp::LShift | BinaryOp::RShift => 6,
        BinaryOp::LT | BinaryOp::GT | BinaryOp::LTE | BinaryOp::GTE => 7,
        BinaryOp::Equal | BinaryOp::NonEqual => 8,
        BinaryOp::BitAnd => 9,
        BinaryOp::BitXor => 10,
        BinaryOp::BitOr => 11,
        BinaryOp::And => 12,
        BinaryOp::Xor => 13,
        BinaryOp::Or => 14,
    }
}

/// The parser builds `a|b|c` as `a|(b|c)` for these.
pub fn right_nested(op: &BinaryOp) -> (r: bool)
    ensures
        r == (*op == BinaryOp::BitAnd || *op == BinaryOp::BitXor || *op == BinaryOp::BitOr),
{
    match op {
        BinaryOp::BitAnd | BinaryOp::BitXor | BinaryOp::BitOr => true,
        _ => false,
    }
}

/// The precedence level of an expression.
pub open spec fn spec_prec(e: &Expr) -> u8 {
    match e {
        Expr::Variable(_) | Expr::IntConst(_) | Expr::UIntConst(_) | Expr::BoolConst(_) => 0,
        Expr::FloatConst(x) => if x.negative { CTX_UNARY } else { 0 },
        Expr::DoubleConst(x) => if x.negative { CTX_UNARY } else { 0 },
        Expr::Unary(..) => CTX_UNARY,
        Expr::Binary(op, ..) => spec_binop_prec(*op),
        Expr::Ternary(..) => CTX_COND,
        Expr::Assignment(..) => CTX_ASSIGN,
        Expr::Bracket(..) | Expr::FunCall(..) | Expr::Dot(..) | Expr::PostInc(_) | Expr::PostDec(_) => CTX_POSTFIX,
        Expr::Comma(..) => CTX_EXPR,
    }
}

pub fn prec(e: &Expr) -> (r: u8)
    ensures
        r == spec_prec(e),
{
    match e {
        Expr::Variable(_) | Expr::IntConst(_) | Expr::UIntConst(_) | Expr::BoolConst(_) => 0,
        Expr::FloatConst(x) => if x.negative { CTX_UNARY } else { 0 },
        Expr::DoubleConst(x) => if x.negative { CTX_UNARY } else { 0 },
        Expr::Unary(..) => CTX_UNARY,
        Expr::Binary(op, ..) => binop_prec(op),
        Expr::Ternary(..) => CTX_COND,
        Expr::Assignment(..) => CTX_ASSIGN,
        Expr::Bracket(..) | Expr::FunCall(..) | Expr::Dot(..) | Expr::PostInc(_) | Expr::PostDec(_) => CTX_POSTFIX,
        Expr::Comma(..) => CTX_EXPR,
    }
}

/// The text of `UnaryOp`.
pub open spec fn spec_unary_str(op: UnaryOp) -> Seq<char> {
    match op {
        UnaryOp::Inc => "++"@,
        UnaryOp::Dec => "--"@,
        UnaryOp::Add => "+"@,
        UnaryOp::Minus => "-"@,
        UnaryOp::Not => "!"@,
        UnaryOp::Complement => "~"@,
    }
}

pub(crate) fn unary_op_str(op: &UnaryOp) -> (r: &'static str)
    ensures
        r@ == spec_unary_str(*op),
{
    match op {
        UnaryOp::Inc => "++",
        UnaryOp::Dec => "--",
        UnaryOp::Add => "+",
        UnaryOp::Minus => "-",
        UnaryOp::Not => "!",
        UnaryOp::Complement => "~",
    }
}

/// The text of `BinaryOp`.
pub open spec fn spec_binary_str(op: BinaryOp) -> Seq<char> {
    match op {
        BinaryOp::Or => "||"@,
        BinaryOp::Xor => "^^"@,
        BinaryOp::And => "&&"@,
        BinaryOp::BitOr => "|"@,
        BinaryOp::BitXor => "^"@,
        BinaryOp::BitAnd => "&"@,
        BinaryOp::Equal => "=="@,
        BinaryOp::NonEqual => "!="@,
        BinaryOp::LT => "<"@,
        BinaryOp::GT => ">"@,
        BinaryOp::LTE => "<="@,
        BinaryOp::GTE => ">="@,
        BinaryOp::LShift => "<<"@,
        BinaryOp::RShift => ">>"@,
        BinaryOp::Add => "+"@,
        BinaryOp::Sub => "-"@,
        BinaryOp::Mult => "*"@,
        BinaryOp::Div => "/"@,
        BinaryOp::Mod => "%"@,
    }
}

pub(crate) fn binary_op_str(op: &BinaryOp) -> (r: &'static str)
    ensures
        r@ == spec_binary_str(*op),
{
    match op {
        BinaryOp::Or => "||",
        BinaryOp::Xor => "^^",
        BinaryOp::And => "&&",
        BinaryOp::BitOr => "|",
        BinaryOp::BitXor => "^",
        BinaryOp::BitAnd => "&",
        BinaryOp::Equal => "==",
        BinaryOp::NonEqual => "!=",
        BinaryOp::LT => "<",
        BinaryOp::GT => ">",
        BinaryOp::LTE => "<=",
        BinaryOp::GTE => ">=",
        BinaryOp::LShift => "<<",
        BinaryOp::RShift => ">>",
        BinaryOp::Add => "+",
        BinaryOp::Sub => "-",
        BinaryOp::Mult => "*",
        BinaryOp::Div => "/",
        BinaryOp::Mod => "%",
    }
}

/// The text of `AssignmentOp`.
pub open spec fn spec_assign_str(op: AssignmentOp) -> Seq<char> {
    match op {
        AssignmentOp::Equal => "="@,
        AssignmentOp::Mult => "*="@,
        AssignmentOp::Div => "/="@,
        AssignmentOp::Mod => "%="@,
        AssignmentOp::Add => "+="@,
        AssignmentOp::Sub => "-="@,
        AssignmentOp::LShift => "<<="@,
        AssignmentOp::RShift => ">>="@,
        AssignmentOp::And => "&="@,
        AssignmentOp::Xor => "^="@,
        AssignmentOp::Or => "|="@,
    }
}

pub(crate) fn assignment_op_str(op: &AssignmentOp) -> (r: &'static str)
    ensures
        r@ == spec_assign_str(*op),
{
    match op {
        AssignmentOp::Equal => "=",
        AssignmentOp::Mult => "*=",
        AssignmentOp::Div => "/=",
        AssignmentOp::Mod => "%=",
        AssignmentOp::Add => "+=",
        AssignmentOp::Sub => "-=",
        AssignmentOp::LShift => "<<=",
        AssignmentOp::RShift => ">>=",
        AssignmentOp::And => "&=",
        AssignmentOp::Xor => "^=",
        AssignmentOp::Or => "|=",
    }
}

/// The keyword of a builtin type (`None` for structs and type names).
/// The keyword of a builtin type (empty for structs and type names).
pub open spec fn spec_type_keyword(t: TypeSpecifierNonArray) -> Seq<char> {
    match t {
        TypeSpecifierNonArray::Void => "void"@,
        TypeSpecifierNonArray::Bool => "bool"@,
        TypeSpecifierNonArray::Int => "int"@,
        TypeSpecifierNonArray::UInt => "uint"@,
        TypeSpecifierNonArray::Float => "float"@,
        TypeSpecifierNonArray::Double => "double"@,
        TypeSpecifierNonArray::Vec2 => "vec2"@,
        TypeSpecifierNonArray::Vec3 => "vec3"@,
        TypeSpecifierNonArray::Vec4 => "vec4"@,
        TypeSpecifierNonArray::DVec2 => "dvec2"@,
        TypeSpecifierNonArray::DVec3 => "dvec3"@,
        TypeSpecifierNonArray::DVec4 => "dvec4"@,
        TypeSpecifierNonArray::BVec2 => "bvec2"@,
        TypeSpecifierNonArray::BVec3 => "bvec3"@,
        TypeSpecifierNonArray::BVec4 => "bvec4"@,
        TypeSpecifierNonArray::IVec2 => "ivec2"@,
        TypeSpecifierNonArray::IVec3 => "ivec3"@,
        TypeSpecifierNonArray::IVec4 => "ivec4"@,
        TypeSpecifierNonArray::UVec2 => "uvec2"@,
        TypeSpecifierNonArray::UVec3 => "uvec3"@,
        TypeSpecifierNonArray::UVec4 => "uvec4"@,
        TypeSpecifierNonArray::Mat2 => "mat2"@,
        TypeSpecifierNonArray::Mat3 => "mat3"@,
        TypeSpecifierNonArray::Mat4 => "mat4"@,
        TypeSpecifierNonArray::Mat23 => "mat2x3"@,
        TypeSpecifierNonArray::Mat24 => "mat2x4"@,
        TypeSpecifierNonArray::Mat32 => "mat3x2"@,
        TypeSpecifierNonArray::Mat34 => "mat3x4"@,
        TypeSpecifierNonArray::Mat42 => "mat4x2"@,
        TypeSpecifierNonArray::Mat43 => "mat4x3"@,
        TypeSpecifierNonArray::DMat2 => "dmat2"@,
        TypeSpecifierNonArray::DMat3 => "dmat3"@,
        TypeSpecifierNonArray::DMat4 => "dmat4"@,
        TypeSpecifierNonArray::DMat23 => "dmat2x3"@,
        TypeSpecifierNonArray::DMat24 => "dmat2x4"@,
        TypeSpecifierNonArray::DMat32 => "dmat3x2"@,
        TypeSpecifierNonArray::DMat34 => "dmat3x4"@,
        TypeSpecifierNonArray::DMat42 => "dmat4x2"@,
        TypeSpecifierNonArray::DMat43 => "dmat4x3"@,
        TypeSpecifierNonArray::Sampler1D => "sampler1D"@,
        TypeSpecifierNonArray::Image1D => "image1D"@,
        TypeSpecifierNonArray::Sampler2D => "sampler2D"@,
        TypeSpecifierNonArray::Image2D => "image2D"@,
        TypeSpecifierNonArray::Sampler3D => "sampler3D"@,
        TypeSpecifierNonArray::Image3D => "image3D"@,
        TypeSpecifierNonArray::SamplerCube => "samplerCube"@,
        TypeSpecifierNonArray::ImageCube => "imageCube"@,
        TypeSpecifierNonArray::Sampler2DRect => "sampler2DRect"@,
        TypeSpecifierNonArray::Image2DRect => "image2DRect"@,
        TypeSpecifierNonArray::Sampler1DArray => "sampler1DArray"@,
        TypeSpecifierNonArray::Image1DArray => "image1DArray"@,
        TypeSpecifierNonArray::Sampler2DArray => "sampler2DArray"@,
        TypeSpecifierNonArray::Image2DArray => "image2DArray"@,
        TypeSpecifierNonArray::SamplerBuffer => "samplerBuffer"@,
        TypeSpecifierNonArray::ImageBuffer => "imageBuffer"@,
        TypeSpecifierNonArray::Sampler2DMS => "sampler2DMS"@,
        TypeSpecifierNonArray::Image2DMS => "image2DMS"@,
        TypeSpecifierNonArray::Sampler2DMSArray => "sampler2DMSArray"@,
        TypeSpecifierNonArray::Image2DMSArray => "image2DMSArray"@,
        TypeSpecifierNonArray::SamplerCubeArray => "samplerCubeArray"@,
        TypeSpecifierNonArray::ImageCubeArray => "imageCubeArray"@,
        TypeSpecifierNonArray::Sampler1DShadow => "sampler1DShadow"@,
        TypeSpecifierNonArray::Sampler2DShadow => "sampler2DShadow"@,
        TypeSpecifierNonArray::Sampler2DRectShadow => "sampler2DRectShadow"@,
        TypeSpecifierNonArray::Sampler1DArrayShadow => "sampler1DArrayShadow"@,
        TypeSpecifierNonArray::Sampler2DArrayShadow => "sampler2DArrayShadow"@,
        TypeSpecifierNonArray::SamplerCubeShadow => "samplerCubeShadow"@,
        TypeSpecifierNonArray::SamplerCubeArrayShadow => "samplerCubeArrayShadow"@,
        TypeSpecifierNonArray::ISampler1D => "isampler1D"@,
        TypeSpecifierNonArray::IImage1D => "iimage1D"@,
        TypeSpecifierNonArray::ISampler2D => "isampler2D"@,
        TypeSpecifierNonArray::IImage2D => "iimage2D"@,
        TypeSpecifierNonArray::ISampler3D => "isampler3D"@,
        TypeSpecifierNonArray::IImage3D => "iimage3D"@,
        TypeSpecifierNonArray::ISamplerCube => "isamplerCube"@,
        TypeSpecifierNonArray::IImageCube => "iimageCube"@,
        TypeSpecifierNonArray::ISampler2DRect => "isampler2DRect"@,
        TypeSpecifierNonArray::IImage2DRect => "iimage2DRect"@,
        TypeSpecifierNonArray::ISampler1DArray => "isampler1DArray"@,
        TypeSpecifierNonArray::IImage1DArray => "iimage1DArray"@,
        TypeSpecifierNonArray::ISampler2DArray => "isampler2DArray"@,
        TypeSpecifierNonArray::IImage2DArray => "iimage2DArray"@,
        TypeSpecifierNonArray::ISamplerBuffer => "isamplerBuffer"@,
        TypeSpecifierNonArray::IImageBuffer => "iimageBuffer"@,
        TypeSpecifierNonArray::ISampler2DMS => "isampler2DMS"@,
        TypeSpecifierNonArray::IImage2DMS => "iimage2DMS"@,
        TypeSpecifierNonArray::ISampler2DMSArray => "isampler2DMSArray"@,
        TypeSpecifierNonArray::IImage2DMSArray => "iimage2DMSArray"@,
        TypeSpecifierNonArray::ISamplerCubeArray => "isamplerCubeArray"@,
        TypeSpecifierNonArray::IImageCubeArray => "iimageCubeArray"@,
        TypeSpecifierNonArray::AtomicUInt => "atomic_uint"@,
        TypeSpecifierNonArray::USampler1D => "usampler1D"@,
        TypeSpecifierNonArray::UImage1D => "uimage1D"@,
        TypeSpecifierNonArray::USampler2D => "usampler2D"@,
        TypeSpecifierNonArray::UImage2D => "uimage2D"@,
        TypeSpecifierNonArray::USampler3D => "usampler3D"@,
        TypeSpecifierNonArray::UImage3D => "uimage3D"@,
        TypeSpecifierNonArray::USamplerCube => "usamplerCube"@,
        TypeSpecifierNonArray::UImageCube => "uimageCube"@,
        TypeSpecifierNonArray::USampler2DRect => "usampler2DRect"@,
        TypeSpecifierNonArray::UImage2DRect => "uimage2DRect"@,
        TypeSpecifierNonArray::USampler1DArray => "usampler1DArray"@,
        TypeSpecifierNonArray::UImage1DArray => "uimage1DArray"@,
        TypeSpecifierNonArray::USampler2DArray => "usampler2DArray"@,
        TypeSpecifierNonArray::UImage2DArray => "uimage2DArray"@,
        TypeSpecifierNonArray::USamplerBuffer => "usamplerBuffer"@,
        TypeSpecifierNonArray::UImageBuffer => "uimageBuffer"@,
        TypeSpecifierNonArray::USampler2DMS => "usampler2DMS"@,
        TypeSpecifierNonArray::UImage2DMS => "uimage2DMS"@,
        TypeSpecifierNonArray::USampler2DMSArray => "usampler2DMSArray"@,
        TypeSpecifierNonArray::UImage2DMSArray => "uimage2DMSArray"@,
        TypeSpecifierNonArray::USamplerCubeArray => "usamplerCubeArray"@,
        TypeSpecifierNonArray::UImageCubeArray => "uimageCubeArray"@,
        _ => seq![],
    }
}

pub fn type_keyword(t: &TypeSpecifierNonArray) -> (r: Option<&'static str>)
    ensures
        r is None <==> (t is Struct || t is TypeName),
        r matches Some(k) ==> k@ == spec_type_keyword(*t),
{
    match t {
        TypeSpecifierNonArray::Void => Some("void"),
        TypeSpecifierNonArray::Bool => Some("bool"),
        TypeSpecifierNonArray::Int => Some("int"),
        TypeSpecifierNonArray::UInt => Some("uint"),
        TypeSpecifierNonArray::Float => Some("float"),
        TypeSpecifierNonArray::Double => Some("double"),
        TypeSpecifierNonArray::Vec2 => Some("vec2"),
        TypeSpecifierNonArray::Vec3 => Some("vec3"),
        TypeSpecifierNonArray::Vec4 => Some("vec4"),
        TypeSpecifierNonArray::DVec2 => Some("dvec2"),
        TypeSpecifierNonArray::DVec3 => Some("dvec3"),
        TypeSpecifierNonArray::DVec4 => Some("dvec4"),
        TypeSpecifierNonArray::BVec2 => Some("bvec2"),
        TypeSpecifierNonArray::BVec3 => Some("bvec3"),
        TypeSpecifierNonArray::BVec4 => Some("bvec4"),
        TypeSpecifierNonArray::IVec2 => Some("ivec2"),
        TypeSpecifierNonArray::IVec3 => Some("ivec3"),
        TypeSpecifierNonArray::IVec4 => Some("ivec4"),
        TypeSpecifierNonArray::UVec2 => Some("uvec2"),
        TypeSpecifierNonArray::UVec3 => Some("uvec3"),
        TypeSpecifierNonArray::UVec4 => Some("uvec4"),
        TypeSpecifierNonArray::Mat2 => Some("mat2"),
        TypeSpecifierNonArray::Mat3 => Some("mat3"),
        TypeSpecifierNonArray::Mat4 => Some("mat4"),
        TypeSpecifierNonArray::Mat23 => Some("mat2x3"),
        TypeSpecifierNonArray::Mat24 => Some("mat2x4"),
        TypeSpecifierNonArray::Mat32 => Some("mat3x2"),
        TypeSpecifierNonArray::Mat34 => Some("mat3x4"),
        TypeSpecifierNonArray::Mat42 => Some("mat4x2"),
        TypeSpecifierNonArray::Mat43 => Some("mat4x3"),
        TypeSpecifierNonArray::DMat2 => Some("dmat2"),
        TypeSpecifierNonArray::DMat3 => Some("dmat3"),
        TypeSpecifierNonArray::DMat4 => Some("dmat4"),
        TypeSpecifierNonArray::DMat23 => Some("dmat2x3"),
        TypeSpecifierNonArray::DMat24 => Some("dmat2x4"),
        TypeSpecifierNonArray::DMat32 => Some("dmat3x2"),
        TypeSpecifierNonArray::DMat34 => Some("dmat3x4"),
        TypeSpecifierNonArray::DMat42 => Some("dmat4x2"),
        TypeSpecifierNonArray::DMat43 => Some("dmat4x3"),
        TypeSpecifierNonArray::Sampler1D => Some("sampler1D"),
        TypeSpecifierNonArray::Image1D => Some("image1D"),
        TypeSpecifierNonArray::Sampler2D => Some("sampler2D"),
        TypeSpecifierNonArray::Image2D => Some("image2D"),
        TypeSpecifierNonArray::Sampler3D => Some("sampler3D"),
        TypeSpecifierNonArray::Image3D => Some("image3D"),
        TypeSpecifierNonArray::SamplerCube => Some("samplerCube"),
        TypeSpecifierNonArray::ImageCube => Some("imageCube"),
        TypeSpecifierNonArray::Sampler2DRect => Some("sampler2DRect"),
        TypeSpecifierNonArray::Image2DRect => Some("image2DRect"),
        TypeSpecifierNonArray::Sampler1DArray => Some("sampler1DArray"),
        TypeSpecifierNonArray::Image1DArray => Some("image1DArray"),
        TypeSpecifierNonArray::Sampler2DArray => Some("sampler2DArray"),
        TypeSpecifierNonArray::Image2DArray => Some("image2DArray"),
        TypeSpecifierNonArray::SamplerBuffer => Some("samplerBuffer"),
        TypeSpecifierNonArray::ImageBuffer => Some("imageBuffer"),
        TypeSpecifierNonArray::Sampler2DMS => Some("sampler2DMS"),
        TypeSpecifierNonArray::Image2DMS => Some("image2DMS"),
        TypeSpecifierNonArray::Sampler2DMSArray => Some("sampler2DMSArray"),
        TypeSpecifierNonArray::Image2DMSArray => Some("image2DMSArray"),
        TypeSpecifierNonArray::SamplerCubeArray => Some("samplerCubeArray"),
        TypeSpecifierNonArray::ImageCubeArray => Some("imageCubeArray"),
        TypeSpecifierNonArray::Sampler1DShadow => Some("sampler1DShadow"),
        TypeSpecifierNonArray::Sampler2DShadow => Some("sampler2DShadow"),
        TypeSpecifierNonArray::Sampler2DRectShadow => Some("sampler2DRectShadow"),
        TypeSpecifierNonArray::Sampler1DArrayShadow => Some("sampler1DArrayShadow"),
        TypeSpecifierNonArray::Sampler2DArrayShadow => Some("sampler2DArrayShadow"),
        TypeSpecifierNonArray::SamplerCubeShadow => Some("samplerCubeShadow"),
        TypeSpecifierNonArray::SamplerCubeArrayShadow => Some("samplerCubeArrayShadow"),
        TypeSpecifierNonArray::ISampler1D => Some("isampler1D"),
        TypeSpecifierNonArray::IImage1D => Some("iimage1D"),
        TypeSpecifierNonArray::ISampler2D => Some("isampler2D"),
        TypeSpecifierNonArray::IImage2D => Some("iimage2D"),
        TypeSpecifierNonArray::ISampler3D => Some("isampler3D"),
        TypeSpecifierNonArray::IImage3D => Some("iimage3D"),
        TypeSpecifierNonArray::ISamplerCube => Some("isamplerCube"),
        TypeSpecifierNonArray::IImageCube => Some("iimageCube"),
        TypeSpecifierNonArray::ISampler2DRect => Some("isampler2DRect"),
        TypeSpecifierNonArray::IImage2DRect => Some("iimage2DRect"),
        TypeSpecifierNonArray::ISampler1DArray => Some("isampler1DArray"),
        TypeSpecifierNonArray::IImage1DArray => Some("iimage1DArray"),
        TypeSpecifierNonArray::ISampler2DArray => Some("isampler2DArray"),
        TypeSpecifierNonArray::IImage2DArray => Some("iimage2DArray"),
        TypeSpecifierNonArray::ISamplerBuffer => Some("isamplerBuffer"),
        TypeSpecifierNonArray::IImageBuffer => Some("iimageBuffer"),
        TypeSpecifierNonArray::ISampler2DMS => Some("isampler2DMS"),
        TypeSpecifierNonArray::IImage2DMS => Some("iimage2DMS"),
        TypeSpecifierNonArray::ISampler2DMSArray => Some("isampler2DMSArray"),
        TypeSpecifierNonArray::IImage2DMSArray => Some("iimage2DMSArray"),
        TypeSpecifierNonArray::ISamplerCubeArray => Some("isamplerCubeArray"),
        TypeSpecifierNonArray::IImageCubeArray => Some("iimageCubeArray"),
        TypeSpecifierNonArray::AtomicUInt => Some("atomic_uint"),
        TypeSpecifierNonArray::USampler1D => Some("usampler1D"),
        TypeSpecifierNonArray::UImage1D => Some("uimage1D"),
        TypeSpecifierNonArray::USampler2D => Some("usampler2D"),
        TypeSpecifierNonArray::UImage2D => Some("uimage2D"),
        TypeSpecifierNonArray::USampler3D => Some("usampler3D"),
        TypeSpecifierNonArray::UImage3D => Some("uimage3D"),
        TypeSpecifierNonArray::USamplerCube => Some("usamplerCube"),
        TypeSpecifierNonArray::UImageCube => Some("uimageCube"),
        TypeSpecifierNonArray::USampler2DRect => Some("usampler2DRect"),
        TypeSpecifierNonArray::UImage2DRect => Some("uimage2DRect"),
        TypeSpecifierNonArray::USampler1DArray => Some("usampler1DArray"),
        TypeSpecifierNonArray::UImage1DArray => Some("uimage1DArray"),
        TypeSpecifierNonArray::USampler2DArray => Some("usampler2DArray"),
        TypeSpecifierNonArray::UImage2DArray => Some("uimage2DArray"),
        TypeSpecifierNonArray::USamplerBuffer => Some("usamplerBuffer"),
        TypeSpecifierNonArray::UImageBuffer => Some("uimageBuffer"),
        TypeSpecifierNonArray::USampler2DMS => Some("usampler2DMS"),
        TypeSpecifierNonArray::UImage2DMS => Some("uimage2DMS"),
        TypeSpecifierNonArray::USampler2DMSArray => Some("usampler2DMSArray"),
        TypeSpecifierNonArray::UImage2DMSArray => Some("uimage2DMSArray"),
        TypeSpecifierNonArray::USamplerCubeArray => Some("usamplerCubeArray"),
        TypeSpecifierNonArray::UImageCubeArray => Some("uimageCubeArray"),
        TypeSpecifierNonArray::Struct(_) => None,
        TypeSpecifierNonArray::TypeName(_) => None,
    }
}

/// The text of a precision qualifier.
pub open spec fn spec_precision_str(p: PrecisionQualifier) -> Seq<char> {
    match p {
        PrecisionQualifier::High => "highp"@,
        PrecisionQualifier::Medium => "mediump"@,
        PrecisionQualifier::Low => "lowp"@,
    }
}

pub(crate) fn precision_str(p: &PrecisionQualifier) -> (r: &'static str)
    ensures
        r@ == spec_precision_str(*p),
{
    match p {
        PrecisionQualifier::High => "highp",
        PrecisionQualifier::Medium => "mediump",
        PrecisionQualifier::Low => "lowp",
    }
}

/// Identifier and number characters for the token-join rule. Symbol
/// placeholders (characters from U+F0000 on) count as identifier
/// characters, so the spacing of a placeholder print equals the spacing of
/// the final print.
pub open spec fn joins_ident(c: char) -> bool {
    ('a' <= c && c <= 'z') || ('A' <= c && c <= 'Z') || ('0' <= c && c <= '9') || c == '_' || c as u32
        >= 0xF0000
}

pub fn is_ident_char(c: char) -> (r: bool)
    ensures
        r == joins_ident(c),
{
    ('a' <= c && c <= 'z') || ('A' <= c && c <= 'Z') || ('0' <= c && c <= '9') || c == '_' || (c as u32)
        >= 0xF0000
}

/// Whether a token starting with `first` would merge with text ending in `last`.
pub open spec fn merges(last: char, first: char) -> bool {
    (joins_ident(last) && joins_ident(first)) || (last == '+' && first == '+') || (last == '-' && first
        == '-')
}

/// `buf` with the token `tok` appended, a space between them where they
/// would otherwise merge.
pub open spec fn push_spec(buf: Seq<char>, tok: Seq<char>) -> Seq<char> {
    if buf.len() > 0 && tok.len() > 0 && merges(buf.last(), tok[0]) {
        buf + seq![' '] + tok
    } else {
        buf + tok
    }
}

/// `buf` with the directive line `line` appended on a line of its own.
pub open spec fn directive_spec(buf: Seq<char>, line: Seq<char>) -> Seq<char> {
    let b = if buf.len() > 0 && buf.last() != '\n' { buf.push('\n') } else { buf };
    b + line + seq!['\n']
}

// ------------------------------------------------------------ expressions

/// The literal of an `int` constant: decimal, or hexadecimal for a negative
/// value (only a hex or octal literal yields one, and `-n` would read back
/// as a unary minus).
pub open spec fn spec_int_text(v: i32) -> Seq<char> {
    if v >= 0 {
        decimal(v as nat)
    } else {
        seq!['0', 'x'] + hexadecimal((v + 0x1_0000_0000) as nat)
    }
}

/// The shortest spelling of a decimal that is in range.
pub open spec fn shortest_of(d: Decimal) -> Seq<char> {
    choose|lit: Seq<char>| is_shortest_literal(lit, d.digits@, d.exponent as int)
}

/// The literal of a float (`double`: a double) constant.
pub open spec fn spec_float_text(d: Decimal, double: bool) -> Seq<char> {
    let suffix = if double { seq!['l', 'f'] } else { seq![] };
    if decimal_in_range(d) {
        (if d.negative { seq!['-'] } else { seq![] }) + shortest_of(d) + suffix
    } else {
        seq!['0', '.'] + suffix
    }
}

/// `buf` with `(` appended where an expression of level `p` stands in
/// context `ctx`.
pub open spec fn open_paren(buf: Seq<char>, p: u8, ctx: u8) -> Seq<char> {
    if p > ctx { push_spec(buf, "("@) } else { buf }
}

/// `buf` with `)` appended where an expression of level `p` stands in
/// context `ctx`.
pub open spec fn close_paren(buf: Seq<char>, p: u8, ctx: u8) -> Seq<char> {
    if p > ctx { push_spec(buf, ")"@) } else { buf }
}

/// `buf` with expression `e` printed in context `ctx`: parentheses only
/// where `e`'s level exceeds the context's.
pub open spec fn print_expr(buf: Seq<char>, e: Expr, ctx: u8) -> Seq<char>
    decreases e, 2nat,
{
    let b = open_paren(buf, spec_prec(&e), ctx);
    let body = match e {
        Expr::Variable(i) => push_spec(b, i.0@),
        Expr::IntConst(v) => push_spec(b, spec_int_text(v)),
        Expr::UIntConst(v) => push_spec(b, decimal(v as nat).push('u')),
        Expr::BoolConst(x) => push_spec(b, if x { "true"@ } else { "false"@ }),
        Expr::FloatConst(x) => push_spec(b, spec_float_text(x, false)),
        Expr::DoubleConst(x) => push_spec(b, spec_float_text(x, true)),
        Expr::Unary(op, inner) => print_expr(push_spec(b, spec_unary_str(op)), *inner, CTX_UNARY),
        Expr::Binary(op, l, r) => {
            let p = spec_binop_prec(op);
            if op == BinaryOp::BitAnd || op == BinaryOp::BitXor || op == BinaryOp::BitOr {
                print_expr(push_spec(print_expr(b, *l, (p - 1) as u8), spec_binary_str(op)), *r, p)
            } else {
                print_expr(push_spec(print_expr(b, *l, p), spec_binary_str(op)), *r, (p - 1) as u8)
            }
        },
        Expr::Ternary(c, x, y) => print_expr(
            push_spec(print_expr(push_spec(print_expr(b, *c, (CTX_COND - 1) as u8), "?"@), *x, CTX_EXPR), ":"@),
            *y,
            CTX_ASSIGN,
        ),
        Expr::Assignment(l, op, r) => print_expr(
            push_spec(print_expr(b, *l, CTX_UNARY), spec_assign_str(op)),
            *r,
            CTX_ASSIGN,
        ),
        Expr::Bracket(inner, a) => print_dims(print_expr(b, *inner, CTX_POSTFIX), a, a.dimensions.0@.len() as int),
        Expr::FunCall(fi, args) => {
            let head = match fi {
                FunIdentifier::Identifier(i) => push_spec(b, i.0@),
                FunIdentifier::Expr(f) => print_expr(b, *f, CTX_POSTFIX),
            };
            push_spec(print_args(push_spec(head, "("@), e, args@.len() as int), ")"@)
        },
        Expr::Dot(inner, i) => push_spec(push_spec(print_expr(b, *inner, CTX_POSTFIX), "."@), i.0@),
        Expr::PostInc(inner) => push_spec(print_expr(b, *inner, CTX_POSTFIX), "++"@),
        Expr::PostDec(inner) => push_spec(print_expr(b, *inner, CTX_POSTFIX), "--"@),
        Expr::Comma(x, y) => print_expr(push_spec(print_expr(b, *x, CTX_ASSIGN), ","@), *y, CTX_EXPR),
    };
    close_paren(body, spec_prec(&e), ctx)
}

/// `buf` with the first `n` arguments of the call `e` printed, separated by
/// commas.
pub open spec fn print_args(buf: Seq<char>, e: Expr, n: int) -> Seq<char>
    decreases e, 1nat, n,
{
    match e {
        Expr::FunCall(_, args) => if n <= 0 || n > args@.len() {
            buf
        } else {
            let before = print_args(buf, e, n - 1);
            print_expr(if n > 1 { push_spec(before, ","@) } else { before }, args@[n - 1], CTX_ASSIGN)
        },
        _ => buf,
    }
}

/// `buf` with the first `n` dimensions of `a` printed.
pub open spec fn print_dims(buf: Seq<char>, a: ArraySpecifier, n: int) -> Seq<char>
    decreases a, n,
{
    if n <= 0 || n > a.dimensions.0@.len() {
        buf
    } else {
        let before = push_spec(print_dims(buf, a, n - 1), "["@);
        let inner = match a.dimensions.0@[n - 1] {
            ArraySpecifierDimension::ExplicitlySized(x) => print_expr(before, *x, CTX_COND),
            ArraySpecifierDimension::Unsized => before,
        };
        push_spec(inner, "]"@)
    }
}

/// The keyword of a storage qualifier.
pub open spec fn spec_storage_word(q: StorageQualifier) -> Seq<char> {
    match q {
        StorageQualifier::Const => "const"@,
        StorageQualifier::InOut => "inout"@,
        StorageQualifier::In => "in"@,
        StorageQualifier::Out => "out"@,
        StorageQualifier::Centroid => "centroid"@,
        StorageQualifier::Patch => "patch"@,
        StorageQualifier::Sample => "sample"@,
        StorageQualifier::Uniform => "uniform"@,
        StorageQualifier::Attribute => "attribute"@,
        StorageQualifier::Varying => "varying"@,
        StorageQualifier::Buffer => "buffer"@,
        StorageQualifier::Shared => "shared"@,
        StorageQualifier::Coherent => "coherent"@,
        StorageQualifier::Volatile => "volatile"@,
        StorageQualifier::Restrict => "restrict"@,
        StorageQualifier::ReadOnly => "readonly"@,
        StorageQualifier::WriteOnly => "writeonly"@,
        StorageQualifier::Subroutine(_) => "subroutine"@,
    }
}

/// The keyword of an interpolation qualifier.
pub open spec fn spec_interp_str(i: InterpolationQualifier) -> Seq<char> {
    match i {
        InterpolationQualifier::Smooth => "smooth"@,
        InterpolationQualifier::Flat => "flat"@,
        InterpolationQualifier::NoPerspective => "noperspective"@,
    }
}

/// `buf` with the array dimensions `a`, if any.
pub open spec fn print_opt_dims(buf: Seq<char>, a: Option<ArraySpecifier>) -> Seq<char> {
    match a {
        Some(x) => print_dims(buf, x, x.dimensions.0@.len() as int),
        None => buf,
    }
}

/// `buf` with an identifier and its array dimensions.
pub open spec fn print_arrayed(buf: Seq<char>, a: ArrayedIdentifier) -> Seq<char> {
    print_opt_dims(push_spec(buf, a.ident.0@), a.array_spec)
}

/// `buf` with the first `n` names of `names`, separated by commas.
pub open spec fn print_names(buf: Seq<char>, names: Seq<TypeName>, n: int) -> Seq<char>
    decreases n,
{
    if n <= 0 || n > names.len() {
        buf
    } else {
        let b = print_names(buf, names, n - 1);
        push_spec(if n > 1 { push_spec(b, ","@) } else { b }, names[n - 1].0@)
    }
}

/// `buf` with a storage qualifier.
pub open spec fn print_storage(buf: Seq<char>, q: StorageQualifier) -> Seq<char> {
    match q {
        StorageQualifier::Subroutine(names) => {
            let b = push_spec(buf, "subroutine"@);
            if names@.len() > 0 {
                push_spec(print_names(push_spec(b, "("@), names@, names@.len() as int), ")"@)
            } else {
                b
            }
        },
        _ => push_spec(buf, spec_storage_word(q)),
    }
}

/// `buf` with the first `n` entries of a layout qualifier, separated by
/// commas.
pub open spec fn print_layout_ids(buf: Seq<char>, ids: Seq<LayoutQualifierSpec>, n: int) -> Seq<char>
    decreases n,
{
    if n <= 0 || n > ids.len() {
        buf
    } else {
        let b0 = print_layout_ids(buf, ids, n - 1);
        let b = if n > 1 { push_spec(b0, ","@) } else { b0 };
        match ids[n - 1] {
            LayoutQualifierSpec::Identifier(i, None) => push_spec(b, i.0@),
            LayoutQualifierSpec::Identifier(i, Some(e)) => print_expr(push_spec(push_spec(b, i.0@), "="@), *e, CTX_COND),
            LayoutQualifierSpec::Shared => push_spec(b, "shared"@),
        }
    }
}

/// `buf` with a layout qualifier.
pub open spec fn print_layout(buf: Seq<char>, l: LayoutQualifier) -> Seq<char> {
    push_spec(print_layout_ids(push_spec(push_spec(buf, "layout"@), "("@), l.ids.0@, l.ids.0@.len() as int), ")"@)
}

/// `buf` with one qualifier.
pub open spec fn print_qualifier_spec(buf: Seq<char>, q: TypeQualifierSpec) -> Seq<char> {
    match q {
        TypeQualifierSpec::Storage(s) => print_storage(buf, s),
        TypeQualifierSpec::Layout(l) => print_layout(buf, l),
        TypeQualifierSpec::Precision(p) => push_spec(buf, spec_precision_str(p)),
        TypeQualifierSpec::Interpolation(i) => push_spec(buf, spec_interp_str(i)),
        TypeQualifierSpec::Invariant => push_spec(buf, "invariant"@),
        TypeQualifierSpec::Precise => push_spec(buf, "precise"@),
    }
}

/// `buf` with the first `n` qualifiers of `qs`.
pub open spec fn print_qualifiers(buf: Seq<char>, qs: Seq<TypeQualifierSpec>, n: int) -> Seq<char>
    decreases n,
{
    if n <= 0 || n > qs.len() {
        buf
    } else {
        print_qualifier_spec(print_qualifiers(buf, qs, n - 1), qs[n - 1])
    }
}

/// `buf` with a type qualifier.
pub open spec fn print_type_qualifier(buf: Seq<char>, q: TypeQualifier) -> Seq<char> {
    print_qualifiers(buf, q.qualifiers.0@, q.qualifiers.0@.len() as int)
}

/// `buf` with a type qualifier, if any.
pub open spec fn print_opt_qualifier(buf: Seq<char>, q: Option<TypeQualifier>) -> Seq<char> {
    match q {
        Some(x) => print_type_qualifier(buf, x),
        None => buf,
    }
}

/// `buf` with the first `n` of `ids`, separated by commas.
pub open spec fn print_field_ids(buf: Seq<char>, ids: Seq<ArrayedIdentifier>, n: int) -> Seq<char>
    decreases n,
{
    if n <= 0 || n > ids.len() {
        buf
    } else {
        let b = print_field_ids(buf, ids, n - 1);
        print_arrayed(if n > 1 { push_spec(b, ","@) } else { b }, ids[n - 1])
    }
}

/// `buf` with a type without array dimensions.
pub open spec fn print_tsna(buf: Seq<char>, t: TypeSpecifierNonArray) -> Seq<char>
    decreases t, 2nat,
{
    match t {
        TypeSpecifierNonArray::Struct(s) => print_struct(buf, s),
        TypeSpecifierNonArray::TypeName(tn) => push_spec(buf, tn.0@),
        _ => push_spec(buf, spec_type_keyword(t)),
    }
}

/// `buf` with a type.
pub open spec fn print_tspec(buf: Seq<char>, t: TypeSpecifier) -> Seq<char>
    decreases t, 3nat,
{
    print_opt_dims(print_tsna(buf, t.ty), t.array_specifier)
}

/// `buf` with a struct definition.
pub open spec fn print_struct(buf: Seq<char>, s: StructSpecifier) -> Seq<char>
    decreases s, 1nat,
{
    let b = push_spec(buf, "struct"@);
    let b2 = match s.name {
        Some(n) => push_spec(b, n.0@),
        None => b,
    };
    push_spec(print_struct_fields(push_spec(b2, "{"@), s, s.fields.0@.len() as int), "}"@)
}

/// `buf` with the first `n` fields of `s`.
pub open spec fn print_struct_fields(buf: Seq<char>, s: StructSpecifier, n: int) -> Seq<char>
    decreases s, 0nat, n,
{
    if n <= 0 || n > s.fields.0@.len() {
        buf
    } else {
        print_field(print_struct_fields(buf, s, n - 1), s.fields.0@[n - 1])
    }
}

/// `buf` with a struct field declaration.
pub open spec fn print_field(buf: Seq<char>, f: StructFieldSpecifier) -> Seq<char>
    decreases f, 4nat,
{
    let b = print_tspec(print_opt_qualifier(buf, f.qualifier), f.ty);
    push_spec(print_field_ids(b, f.identifiers.0@, f.identifiers.0@.len() as int), ";"@)
}

/// `buf` with a type and its qualifier.
pub open spec fn print_full_type(buf: Seq<char>, t: FullySpecifiedType) -> Seq<char> {
    print_tspec(print_opt_qualifier(buf, t.qualifier), t.ty)
}

/// `buf` with an initializer.
pub open spec fn print_init(buf: Seq<char>, i: Initializer) -> Seq<char>
    decreases i, 1nat,
{
    match i {
        Initializer::Simple(e) => print_expr(buf, *e, CTX_ASSIGN),
        Initializer::List(l) => push_spec(print_init_items(push_spec(buf, "{"@), i, l.0@.len() as int), "}"@),
    }
}

/// `buf` with the first `n` items of the initializer list `i`, separated by
/// commas.
pub open spec fn print_init_items(buf: Seq<char>, i: Initializer, n: int) -> Seq<char>
    decreases i, 0nat, n,
{
    match i {
        Initializer::List(l) => if n <= 0 || n > l.0@.len() {
            buf
        } else {
            let b = print_init_items(buf, i, n - 1);
            print_init(if n > 1 { push_spec(b, ","@) } else { b }, l.0@[n - 1])
        },
        _ => buf,
    }
}

/// `buf` with the first declarator of a declaration.
pub open spec fn print_single(buf: Seq<char>, d: SingleDeclaration) -> Seq<char> {
    let b = print_full_type(buf, d.ty);
    let b2 = match d.name {
        Some(n) => push_spec(b, n.0@),
        None => b,
    };
    let b3 = print_opt_dims(b2, d.array_specifier);
    match d.initializer {
        Some(i) => print_init(push_spec(b3, "="@), i),
        None => b3,
    }
}

/// `buf` with the first `n` parameters of `ps`, separated by commas.
pub open spec fn print_params(buf: Seq<char>, ps: Seq<FunctionParameterDeclaration>, n: int) -> Seq<char>
    decreases n,
{
    if n <= 0 || n > ps.len() {
        buf
    } else {
        let b0 = print_params(buf, ps, n - 1);
        let b = if n > 1 { push_spec(b0, ","@) } else { b0 };
        match ps[n - 1] {
            FunctionParameterDeclaration::Named(q, d) => print_arrayed(print_tspec(print_opt_qualifier(b, q), d.ty), d.ident),
            FunctionParameterDeclaration::Unnamed(q, ty) => print_tspec(print_opt_qualifier(b, q), ty),
        }
    }
}

/// `buf` with a function prototype (without the `;`).
pub open spec fn print_prototype(buf: Seq<char>, p: FunctionPrototype) -> Seq<char> {
    let b = push_spec(push_spec(print_full_type(buf, p.ty), p.name.0@), "("@);
    push_spec(print_params(b, p.parameters@, p.parameters@.len() as int), ")"@)
}

/// `buf` with the first `n` further declarators, each after a comma.
pub open spec fn print_tail(buf: Seq<char>, tail: Seq<SingleDeclarationNoType>, n: int) -> Seq<char>
    decreases n,
{
    if n <= 0 || n > tail.len() {
        buf
    } else {
        let b = print_arrayed(push_spec(print_tail(buf, tail, n - 1), ","@), tail[n - 1].ident);
        match tail[n - 1].initializer {
            Some(i) => print_init(push_spec(b, "="@), i),
            None => b,
        }
    }
}

/// `buf` with the first `n` fields of `fs`.
pub open spec fn print_fields(buf: Seq<char>, fs: Seq<StructFieldSpecifier>, n: int) -> Seq<char>
    decreases n,
{
    if n <= 0 || n > fs.len() {
        buf
    } else {
        print_field(print_fields(buf, fs, n - 1), fs[n - 1])
    }
}

/// `buf` with the first `n` names of `ids`, each after a comma.
pub open spec fn print_global_ids(buf: Seq<char>, ids: Seq<Identifier>, n: int) -> Seq<char>
    decreases n,
{
    if n <= 0 || n > ids.len() {
        buf
    } else {
        push_spec(push_spec(print_global_ids(buf, ids, n - 1), ","@), ids[n - 1].0@)
    }
}

/// `buf` with a declaration.
pub open spec fn print_declaration(buf: Seq<char>, d: Declaration) -> Seq<char> {
    match d {
        Declaration::FunctionPrototype(p) => push_spec(print_prototype(buf, p), ";"@),
        Declaration::InitDeclaratorList(l) => push_spec(
            print_tail(print_single(buf, l.head), l.tail@, l.tail@.len() as int),
            ";"@,
        ),
        Declaration::Precision(q, ty) => push_spec(
            print_tspec(push_spec(push_spec(buf, "precision"@), spec_precision_str(q)), ty),
            ";"@,
        ),
        Declaration::Block(b) => {
            let b1 = push_spec(push_spec(print_type_qualifier(buf, b.qualifier), b.name.0@), "{"@);
            let b2 = push_spec(print_fields(b1, b.fields@, b.fields@.len() as int), "}"@);
            let b3 = match b.identifier {
                Some(id) => print_arrayed(b2, id),
                None => b2,
            };
            push_spec(b3, ";"@)
        },
        Declaration::Global(q, ids) => push_spec(
            print_global_ids(print_type_qualifier(buf, q), ids@, ids@.len() as int),
            ";"@,
        ),
    }
}

/// `buf` with a loop or branch condition.
pub open spec fn print_condition(buf: Seq<char>, c: Condition) -> Seq<char> {
    match c {
        Condition::Expr(e) => print_expr(buf, *e, CTX_EXPR),
        Condition::Assignment(ty, name, init) => print_init(
            push_spec(push_spec(print_full_type(buf, ty), name.0@), "="@),
            init,
        ),
    }
}

/// `buf` with an optional expression.
pub open spec fn print_opt_expr(buf: Seq<char>, e: Option<Expr>, ctx: u8) -> Seq<char> {
    match e {
        Some(x) => print_expr(buf, x, ctx),
        None => buf,
    }
}

/// `buf` with a braced statement list.
pub open spec fn print_compound(buf: Seq<char>, c: CompoundStatement) -> Seq<char>
    decreases c, 1nat,
{
    push_spec(print_stmts(push_spec(buf, "{"@), c, c.statement_list@.len() as int), "}"@)
}

/// `buf` with the first `n` statements of `c`.
pub open spec fn print_stmts(buf: Seq<char>, c: CompoundStatement, n: int) -> Seq<char>
    decreases c, 0nat, n,
{
    if n <= 0 || n > c.statement_list@.len() {
        buf
    } else {
        print_statement(print_stmts(buf, c, n - 1), c.statement_list@[n - 1])
    }
}

/// `buf` with a statement.
pub open spec fn print_statement(buf: Seq<char>, st: Statement) -> Seq<char>
    decreases st, 2nat,
{
    match st {
        Statement::Compound(c) => print_compound(buf, *c),
        Statement::Simple(x) => print_simple(buf, *x),
    }
}

/// `buf` with the first `n` statements of the body of the switch `s`.
pub open spec fn print_switch_body(buf: Seq<char>, s: SimpleStatement, n: int) -> Seq<char>
    decreases s, 0nat, n,
{
    match s {
        SimpleStatement::Switch(sw) => if n <= 0 || n > sw.body@.len() {
            buf
        } else {
            print_statement(print_switch_body(buf, s, n - 1), sw.body@[n - 1])
        },
        _ => buf,
    }
}

/// `buf` with a statement that is not a braced list.
pub open spec fn print_simple(buf: Seq<char>, s: SimpleStatement) -> Seq<char>
    decreases s, 1nat,
{
    match s {
        SimpleStatement::Declaration(d) => print_declaration(buf, d),
        SimpleStatement::Expression(e) => push_spec(print_opt_expr(buf, e, CTX_EXPR), ";"@),
        SimpleStatement::Selection(sel) => {
            let b = push_spec(print_expr(push_spec(push_spec(buf, "if"@), "("@), *sel.cond, CTX_EXPR), ")"@);
            match sel.rest {
                SelectionRestStatement::Statement(st) => print_statement(b, *st),
                SelectionRestStatement::Else(x, y) => print_statement(push_spec(print_statement(b, *x), "else"@), *y),
            }
        },
        SimpleStatement::Switch(sw) => {
            let b = push_spec(print_expr(push_spec(push_spec(buf, "switch"@), "("@), *sw.head, CTX_EXPR), ")"@);
            push_spec(print_switch_body(push_spec(b, "{"@), s, sw.body@.len() as int), "}"@)
        },
        SimpleStatement::CaseLabel(CaseLabel::Case(e)) => push_spec(print_expr(push_spec(buf, "case"@), *e, CTX_EXPR), ":"@),
        SimpleStatement::CaseLabel(CaseLabel::Def) => push_spec(push_spec(buf, "default"@), ":"@),
        SimpleStatement::Iteration(IterationStatement::While(c, body)) => print_statement(
            push_spec(print_condition(push_spec(push_spec(buf, "while"@), "("@), c), ")"@),
            *body,
        ),
        SimpleStatement::Iteration(IterationStatement::DoWhile(body, e)) => {
            let b = push_spec(push_spec(print_statement(push_spec(buf, "do"@), *body), "while"@), "("@);
            push_spec(push_spec(print_expr(b, *e, CTX_EXPR), ")"@), ";"@)
        },
        SimpleStatement::Iteration(IterationStatement::For(init, rest, body)) => {
            let b = push_spec(push_spec(buf, "for"@), "("@);
            let b1 = match init {
                ForInitStatement::Expression(e) => push_spec(print_opt_expr(b, e, CTX_EXPR), ";"@),
                ForInitStatement::Declaration(d) => print_declaration(b, *d),
            };
            let b2 = match rest.condition {
                Some(c) => print_condition(b1, c),
                None => b1,
            };
            let b3 = push_spec(b2, ";"@);
            let b4 = match rest.post_expr {
                Some(e) => print_expr(b3, *e, CTX_EXPR),
                None => b3,
            };
            print_statement(push_spec(b4, ")"@), *body)
        },
        SimpleStatement::Jump(j) => match j {
            JumpStatement::Continue => push_spec(push_spec(buf, "continue"@), ";"@),
            JumpStatement::Break => push_spec(push_spec(buf, "break"@), ";"@),
            JumpStatement::Discard => push_spec(push_spec(buf, "discard"@), ";"@),
            JumpStatement::Return(e) => push_spec(
                match e {
                    Some(x) => print_expr(push_spec(buf, "return"@), *x, CTX_EXPR),
                    None => push_spec(buf, "return"@),
                },
                ";"@,
            ),
        },
    }
}

/// ` value` for a non-empty `value`, nothing otherwise.
pub open spec fn spaced(value: Seq<char>) -> Seq<char> {
    if value.len() > 0 { seq![' '] + value } else { seq![] }
}

/// The first `n` names of `args`, separated by commas.
pub open spec fn join_args(args: Seq<Identifier>, n: int) -> Seq<char>
    decreases n,
{
    if n <= 0 || n > args.len() {
        seq![]
    } else {
        join_args(args, n - 1) + (if n > 1 { seq![','] } else { seq![] }) + args[n - 1].0@
    }
}

/// The text of an extension behaviour.
pub open spec fn spec_behavior_str(b: PreprocessorExtensionBehavior) -> Seq<char> {
    match b {
        PreprocessorExtensionBehavior::Require => "require"@,
        PreprocessorExtensionBehavior::Enable => "enable"@,
        PreprocessorExtensionBehavior::Warn => "warn"@,
        PreprocessorExtensionBehavior::Disable => "disable"@,
    }
}

/// The line of a preprocessor directive.
pub open spec fn directive_text(pp: Preprocessor) -> Seq<char> {
    match pp {
        Preprocessor::Define(PreprocessorDefine::ObjectLike { ident, value }) => "#define "@ + ident.0@ + spaced(value@),
        Preprocessor::Define(PreprocessorDefine::FunctionLike { ident, args, value }) => "#define "@ + ident.0@ + seq!['(']
            + join_args(args@, args@.len() as int) + seq![')'] + spaced(value@),
        Preprocessor::Else => "#else"@,
        Preprocessor::ElIf(e) => "#elif "@ + e.condition@,
        Preprocessor::EndIf => "#endif"@,
        Preprocessor::Error(e) => "#error"@ + spaced(e.message@),
        Preprocessor::If(i) => "#if "@ + i.condition@,
        Preprocessor::IfDef(d) => "#ifdef "@ + d.ident.0@,
        Preprocessor::IfNDef(d) => "#ifndef "@ + d.ident.0@,
        Preprocessor::Include(i) => match i.path {
            Path::Absolute(p) => "#include <"@ + p@ + seq!['>'],
            Path::Relative(p) => "#include \""@ + p@ + seq!['"'],
        },
        Preprocessor::Line(l) => "#line "@ + decimal(l.line as nat) + match l.source_string_number {
            Some(n) => seq![' '] + decimal(n as nat),
            None => seq![],
        },
        Preprocessor::Pragma(p) => "#pragma"@ + spaced(p.command@),
        Preprocessor::Undef(u) => "#undef "@ + u.name.0@,
        Preprocessor::Version(v) => "#version "@ + decimal(v.version as nat) + match v.profile {
            None => seq![],
            Some(PreprocessorVersionProfile::Core) => " core"@,
            Some(PreprocessorVersionProfile::Compatibility) => " compatibility"@,
            Some(PreprocessorVersionProfile::ES) => " es"@,
        },
        Preprocessor::Extension(e) => "#extension "@ + (match e.name {
            PreprocessorExtensionName::All => "all"@,
            PreprocessorExtensionName::Specific(x) => x@,
        }) + match e.behavior {
            None => seq![],
            Some(b) => " : "@ + spec_behavior_str(b),
        },
    }
}

/// `buf` with an external declaration.
pub open spec fn print_external(buf: Seq<char>, ed: ExternalDeclaration) -> Seq<char> {
    match ed {
        ExternalDeclaration::Preprocessor(pp) => directive_spec(buf, directive_text(pp)),
        ExternalDeclaration::FunctionDefinition(fd) => print_compound(print_prototype(buf, fd.prototype), fd.statement),
        ExternalDeclaration::Declaration(d) => print_declaration(buf, d),
    }
}

/// The first `n` external declarations of `eds`.
pub open spec fn print_externals(eds: Seq<ExternalDeclaration>, n: int) -> Seq<char>
    decreases n,
{
    if n <= 0 || n > eds.len() {
        seq![]
    } else {
        print_external(print_externals(eds, n - 1), eds[n - 1])
    }
}

/// The text of a shader: its declarations with minimal whitespace, each
/// directive on a line of its own, without a final line feed.
pub open spec fn print_unit(tu: TranslationUnit) -> Seq<char> {
    let all = print_externals(tu.0.0@, tu.0.0@.len() as int);
    if all.len() > 0 && all.last() == '\n' { all.drop_last() } else { all }
}

pub(crate) struct Out {
    pub(crate) buf: Vec<char>,
}

impl Out {
    /// Append a token, with a space only if it would otherwise merge with
    /// the previous one.
    pub(crate) fn push(&mut self, tok: &[char])
        ensures
            final(self).buf@ == push_spec(old(self).buf@, tok@),
    {
        if self.buf.len() > 0 && tok.len() > 0 {
            let last = self.buf[self.buf.len() - 1];
            let first = tok[0];
            let merge = (is_ident_char(last) && is_ident_char(first)) || (last == '+' && first == '+')
                || (last == '-' && first == '-');
            if merge {
                self.buf.push(' ');
            }
        }
        extend_chars(&mut self.buf, tok);
    }

    pub(crate) fn push_str(&mut self, tok: &str)
        ensures
            final(self).buf@ == push_spec(old(self).buf@, tok@),
    {
        let t = chars_of(tok);
        self.push(t.as_slice());
    }

    pub(crate) fn push_string(&mut self, tok: &String)
        ensures
            final(self).buf@ == push_spec(old(self).buf@, tok@),
    {
        let t = chars_of(tok.as_str());
        self.push(t.as_slice());
    }

    /// Append a preprocessor directive on a line of its own.
    pub(crate) fn directive(&mut self, line: &[char])
        ensures
            final(self).buf@ == directive_spec(old(self).buf@, line@),
    {
        if self.buf.len() > 0 && self.buf[self.buf.len() - 1] != '\n' {
            self.buf.push('\n');
        }
        extend_chars(&mut self.buf, line);
        self.buf.push('\n');
    }

    #[verifier::loop_isolation(false)]
    pub(crate) fn expr(&mut self, e: &Expr, ctx: u8)
        ensures
            final(self).buf@ == print_expr(old(self).buf@, *e, ctx),
        decreases e, 0nat,
    {
        proof {
            reveal_strlit("0x");
        }
        let paren = prec(e) > ctx;
        if paren {
            self.push_str("(");
        }
        match e {
            Expr::Variable(i) => self.push_string(&i.0),
            Expr::IntConst(v) => {
                if *v >= 0 {
                    let d = decimal_chars(*v as u64);
                    self.push(d.as_slice());
                } else {
                    // only a hex or octal literal yields a negative value; `-n`
                    // would read back as a unary minus
                    let bits: u64 = (*v as i64 + 0x1_0000_0000i64) as u64;
                    let mut t: Vec<char> = Vec::new();
                    extend_str(&mut t, "0x");
                    let h = hex_chars(bits);
                    extend_chars(&mut t, h.as_slice());
                    assert(t@ =~= spec_int_text(*v));
                    self.push(t.as_slice());
                }
            },
            Expr::UIntConst(v) => {
                let mut t = decimal_chars(*v as u64);
                t.push('u');
                self.push(t.as_slice());
            },
            Expr::BoolConst(b) => self.push_str(if *b { "true" } else { "false" }),
            Expr::FloatConst(x) => {
                let t = format_decimal(x, false);
                self.push(t.as_slice());
            },
            Expr::DoubleConst(x) => {
                let t = format_decimal(x, true);
                self.push(t.as_slice());
            },
            Expr::Unary(op, inner) => {
                self.push_str(unary_op_str(op));
                self.expr(inner, CTX_UNARY);
            },
            Expr::Binary(op, l, r) => {
                let p = binop_prec(op);
                if right_nested(op) {
                    self.expr(l, p - 1);
                    self.push_str(binary_op_str(op));
                    self.expr(r, p);
                } else {
                    self.expr(l, p);
                    self.push_str(binary_op_str(op));
                    self.expr(r, p - 1);
                }
            },
            Expr::Ternary(c, a, b) => {
                self.expr(c, CTX_COND - 1);
                self.push_str("?");
                self.expr(a, CTX_EXPR);
                self.push_str(":");
                self.expr(b, CTX_ASSIGN);
            },
            Expr::Assignment(l, op, r) => {
                self.expr(l, CTX_UNARY);
                self.push_str(assignment_op_str(op));
                self.expr(r, CTX_ASSIGN);
            },
            Expr::Bracket(inner, spec) => {
                self.expr(inner, CTX_POSTFIX);
                self.array_spec(spec);
            },
            Expr::FunCall(fi, args) => {
                match fi {
                    FunIdentifier::Identifier(i) => self.push_string(&i.0),
                    FunIdentifier::Expr(f) => self.expr(f, CTX_POSTFIX),
                }
                self.push_str("(");
                let ghost args_start = self.buf@;
                let mut n: usize = 0;
                while n < args.len()
                    invariant
                        n <= args@.len(),
                        self.buf@ == print_args(args_start, *e, n as int),
                    decreases args@.len() - n,
                {
                    if n > 0 {
                        self.push_str(",");
                    }
                    proof {
                        assert(decreases_to!(e => args[n as int]));
                    }
                    self.expr(&args[n], CTX_ASSIGN);
                    n = n + 1;
                }
                self.push_str(")");
            },
            Expr::Dot(inner, i) => {
                self.expr(inner, CTX_POSTFIX);
                self.push_str(".");
                self.push_string(&i.0);
            },
            Expr::PostInc(inner) => {
                self.expr(inner, CTX_POSTFIX);
                self.push_str("++");
            },
            Expr::PostDec(inner) => {
                self.expr(inner, CTX_POSTFIX);
                self.push_str("--");
            },
            Expr::Comma(a, b) => {
                self.expr(a, CTX_ASSIGN);
                self.push_str(",");
                self.expr(b, CTX_EXPR);
            },
        }
        if paren {
            self.push_str(")");
        }
    }

    #[verifier::loop_isolation(false)]
    pub(crate) fn array_spec(&mut self, a: &ArraySpecifier)
        ensures
            final(self).buf@ == print_dims(old(self).buf@, *a, a.dimensions.0@.len() as int),
        decreases a, 1nat,
    {
        let dims = &a.dimensions.0;
        let mut n: usize = 0;
        while n < dims.len()
            invariant
                n <= dims@.len(),
                self.buf@ == print_dims(old(self).buf@, *a, n as int),
            decreases dims@.len() - n,
        {
            self.push_str("[");
            match &dims[n] {
                ArraySpecifierDimension::ExplicitlySized(e) => {
                    proof {
                        assert(decreases_to!(a => dims[n as int]));
                    }
                    self.expr(e, CTX_COND);
                },
                ArraySpecifierDimension::Unsized => {},
            }
            self.push_str("]");
            n = n + 1;
        }
    }

    pub(crate) fn arrayed_identifier(&mut self, a: &ArrayedIdentifier)
        ensures
            final(self).buf@ == print_arrayed(old(self).buf@, *a),
    {
        self.push_string(&a.ident.0);
        if let Some(spec) = &a.array_spec {
            self.array_spec(spec);
        }
    }

    pub(crate) fn type_specifier_non_array(&mut self, t: &TypeSpecifierNonArray)
        ensures
            final(self).buf@ == print_tsna(old(self).buf@, *t),
        decreases t, 2nat,
    {
        match t {
            TypeSpecifierNonArray::Struct(s) => self.struct_specifier(s),
            TypeSpecifierNonArray::TypeName(tn) => self.push_string(&tn.0),
            _ => {
                match type_keyword(t) {
                    Some(k) => self.push_str(k),
                    None => {},
                }
            },
        }
    }

    pub(crate) fn type_specifier(&mut self, t: &TypeSpecifier)
        ensures
            final(self).buf@ == print_tspec(old(self).buf@, *t),
        decreases t, 3nat,
    {
        self.type_specifier_non_array(&t.ty);
        if let Some(spec) = &t.array_specifier {
            self.array_spec(spec);
        }
    }

    pub(crate) fn fully_specified_type(&mut self, t: &FullySpecifiedType)
        ensures
            final(self).buf@ == print_full_type(old(self).buf@, *t),
    {
        if let Some(q) = &t.qualifier {
            self.type_qualifier(q);
        }
        self.type_specifier(&t.ty);
    }

    #[verifier::loop_isolation(false)]
    pub(crate) fn struct_specifier(&mut self, s: &StructSpecifier)
        ensures
            final(self).buf@ == print_struct(old(self).buf@, *s),
        decreases s, 1nat,
    {
        self.push_str("struct");
        if let Some(n) = &s.name {
            self.push_string(&n.0);
        }
        self.push_str("{");
        let ghost start = self.buf@;
        let fields = &s.fields.0;
        let mut n: usize = 0;
        while n < fields.len()
            invariant
                n <= fields@.len(),
                self.buf@ == print_struct_fields(start, *s, n as int),
            decreases fields@.len() - n,
        {
            proof {
                        assert(decreases_to!(s => fields[n as int]));
            }
            self.struct_field(&fields[n]);
            n = n + 1;
        }
        self.push_str("}");
    }

    pub(crate) fn struct_field(&mut self, f: &StructFieldSpecifier)
        ensures
            final(self).buf@ == print_field(old(self).buf@, *f),
        decreases f, 4nat,
    {
        if let Some(q) = &f.qualifier {
            self.type_qualifier(q);
        }
        self.type_specifier(&f.ty);
        let ghost start = self.buf@;
        let ids = &f.identifiers.0;
        let mut n: usize = 0;
        while n < ids.len()
            invariant
                n <= ids@.len(),
                self.buf@ == print_field_ids(start, ids@, n as int),
            decreases ids@.len() - n,
        {
            if n > 0 {
                self.push_str(",");
            }
            self.arrayed_identifier(&ids[n]);
            n = n + 1;
        }
        self.push_str(";");
    }

    pub(crate) fn type_qualifier(&mut self, q: &TypeQualifier)
        ensures
            final(self).buf@ == print_type_qualifier(old(self).buf@, *q),
    {
        let qs = &q.qualifiers.0;
        let mut n: usize = 0;
        while n < qs.len()
            invariant
                n <= qs@.len(),
                self.buf@ == print_qualifiers(old(self).buf@, qs@, n as int),
            decreases qs@.len() - n,
        {
            match &qs[n] {
                TypeQualifierSpec::Storage(s) => self.storage_qualifier(s),
                TypeQualifierSpec::Layout(l) => self.layout_qualifier(l),
                TypeQualifierSpec::Precision(p) => self.push_str(precision_str(p)),
                TypeQualifierSpec::Interpolation(i) => self.push_str(
                    match i {
                        InterpolationQualifier::Smooth => "smooth",
                        InterpolationQualifier::Flat => "flat",
                        InterpolationQualifier::NoPerspective => "noperspective",
                    },
                ),
                TypeQualifierSpec::Invariant => self.push_str("invariant"),
                TypeQualifierSpec::Precise => self.push_str("precise"),
            }
            n = n + 1;
        }
    }

    pub(crate) fn storage_qualifier(&mut self, s: &StorageQualifier)
        ensures
            final(self).buf@ == print_storage(old(self).buf@, *s),
    {
        let w = match s {
            StorageQualifier::Const => "const",
            StorageQualifier::InOut => "inout",
            StorageQualifier::In => "in",
            StorageQualifier::Out => "out",
            StorageQualifier::Centroid => "centroid",
            StorageQualifier::Patch => "patch",
            StorageQualifier::Sample => "sample",
            StorageQualifier::Uniform => "uniform",
            StorageQualifier::Attribute => "attribute",
            StorageQualifier::Varying => "varying",
            StorageQualifier::Buffer => "buffer",
            StorageQualifier::Shared => "shared",
            StorageQualifier::Coherent => "coherent",
            StorageQualifier::Volatile => "volatile",
            StorageQualifier::Restrict => "restrict",
            StorageQualifier::ReadOnly => "readonly",
            StorageQualifier::WriteOnly => "writeonly",
            StorageQualifier::Subroutine(names) => {
                self.push_str("subroutine");
                if names.len() > 0 {
                    self.push_str("(");
                    let ghost start = self.buf@;
                    let mut n: usize = 0;
                    while n < names.len()
                        invariant
                            n <= names@.len(),
                            self.buf@ == print_names(start, names@, n as int),
                        decreases names@.len() - n,
                    {
                        if n > 0 {
                            self.push_str(",");
                        }
                        self.push_string(&names[n].0);
                        n = n + 1;
                    }
                    self.push_str(")");
                }
                return;
            },
        };
        self.push_str(w);
    }

    pub(crate) fn layout_qualifier(&mut self, l: &LayoutQualifier)
        ensures
            final(self).buf@ == print_layout(old(self).buf@, *l),
    {
        self.push_str("layout");
        self.push_str("(");
        let ghost start = self.buf@;
        let ids = &l.ids.0;
        let mut n: usize = 0;
        while n < ids.len()
            invariant
                n <= ids@.len(),
                self.buf@ == print_layout_ids(start, ids@, n as int),
            decreases ids@.len() - n,
        {
            if n > 0 {
                self.push_str(",");
            }
            match &ids[n] {
                LayoutQualifierSpec::Identifier(i, None) => self.push_string(&i.0),
                LayoutQualifierSpec::Identifier(i, Some(e)) => {
                    self.push_string(&i.0);
                    self.push_str("=");
                    self.expr(e, CTX_COND);
                },
                LayoutQualifierSpec::Shared => self.push_str("shared"),
            }
            n = n + 1;
        }
        self.push_str(")");
    }

    #[verifier::loop_isolation(false)]
    pub(crate) fn initializer(&mut self, i: &Initializer)
        ensures
            final(self).buf@ == print_init(old(self).buf@, *i),
        decreases i,
    {
        match i {
            Initializer::Simple(e) => self.expr(e, CTX_ASSIGN),
            Initializer::List(l) => {
                self.push_str("{");
                let ghost start = self.buf@;
                let items = &l.0;
                let mut n: usize = 0;
                while n < items.len()
                    invariant
                        n <= items@.len(),
                        self.buf@ == print_init_items(start, *i, n as int),
                    decreases items@.len() - n,
                {
                    if n > 0 {
                        self.push_str(",");
                    }
                    proof {
                        assert(decreases_to!(i => items[n as int]));
                    }
                    self.initializer(&items[n]);
                    n = n + 1;
                }
                self.push_str("}");
            },
        }
    }

    pub(crate) fn single_declaration(&mut self, d: &SingleDeclaration)
        ensures
            final(self).buf@ == print_single(old(self).buf@, *d),
    {
        self.fully_specified_type(&d.ty);
        if let Some(n) = &d.name {
            self.push_string(&n.0);
        }
        if let Some(spec) = &d.array_specifier {
            self.array_spec(spec);
        }
        if let Some(i) = &d.initializer {
            self.push_str("=");
            self.initializer(i);
        }
    }

    pub(crate) fn function_prototype(&mut self, p: &FunctionPrototype)
        ensures
            final(self).buf@ == print_prototype(old(self).buf@, *p),
    {
        self.fully_specified_type(&p.ty);
        self.push_string(&p.name.0);
        self.push_str("(");
        let ghost start = self.buf@;
        let mut n: usize = 0;
        while n < p.parameters.len()
            invariant
                n <= p.parameters@.len(),
                self.buf@ == print_params(start, p.parameters@, n as int),
            decreases p.parameters@.len() - n,
        {
            if n > 0 {
                self.push_str(",");
            }
            match &p.parameters[n] {
                FunctionParameterDeclaration::Named(q, d) => {
                    if let Some(q) = q {
                        self.type_qualifier(q);
                    }
                    self.type_specifier(&d.ty);
                    self.arrayed_identifier(&d.ident);
                },
                FunctionParameterDeclaration::Unnamed(q, ty) => {
                    if let Some(q) = q {
                        self.type_qualifier(q);
                    }
                    self.type_specifier(ty);
                },
            }
            n = n + 1;
        }
        self.push_str(")");
    }

    pub(crate) fn declaration(&mut self, d: &Declaration)
        ensures
            final(self).buf@ == print_declaration(old(self).buf@, *d),
    {
        match d {
            Declaration::FunctionPrototype(p) => {
                self.function_prototype(p);
                self.push_str(";");
            },
            Declaration::InitDeclaratorList(l) => {
                self.single_declaration(&l.head);
                let ghost start = self.buf@;
                let mut n: usize = 0;
                while n < l.tail.len()
                    invariant
                        n <= l.tail@.len(),
                        self.buf@ == print_tail(start, l.tail@, n as int),
                    decreases l.tail@.len() - n,
                {
                    self.push_str(",");
                    self.arrayed_identifier(&l.tail[n].ident);
                    if let Some(i) = &l.tail[n].initializer {
                        self.push_str("=");
                        self.initializer(i);
                    }
                    n = n + 1;
                }
                self.push_str(";");
            },
            Declaration::Precision(q, ty) => {
                self.push_str("precision");
                self.push_str(precision_str(q));
                self.type_specifier(ty);
                self.push_str(";");
            },
            Declaration::Block(b) => {
                self.type_qualifier(&b.qualifier);
                self.push_string(&b.name.0);
                self.push_str("{");
                let ghost start = self.buf@;
                let mut n: usize = 0;
                while n < b.fields.len()
                    invariant
                        n <= b.fields@.len(),
                        self.buf@ == print_fields(start, b.fields@, n as int),
                    decreases b.fields@.len() - n,
                {
                    self.struct_field(&b.fields[n]);
                    n = n + 1;
                }
                self.push_str("}");
                if let Some(id) = &b.identifier {
                    self.arrayed_identifier(id);
                }
                self.push_str(";");
            },
            Declaration::Global(q, ids) => {
                // the parser wants a comma before every identifier here
                self.type_qualifier(q);
                let ghost start = self.buf@;
                let mut n: usize = 0;
                while n < ids.len()
                    invariant
                        n <= ids@.len(),
                        self.buf@ == print_global_ids(start, ids@, n as int),
                    decreases ids@.len() - n,
                {
                    self.push_str(",");
                    self.push_string(&ids[n].0);
                    n = n + 1;
                }
                self.push_str(";");
            },
        }
    }

    pub(crate) fn condition(&mut self, c: &Condition)
        ensures
            final(self).buf@ == print_condition(old(self).buf@, *c),
    {
        match c {
            Condition::Expr(e) => self.expr(e, CTX_EXPR),
            Condition::Assignment(ty, name, init) => {
                self.fully_specified_type(ty);
                self.push_string(&name.0);
                self.push_str("=");
                self.initializer(init);
            },
        }
    }

    #[verifier::loop_isolation(false)]
    pub(crate) fn compound(&mut self, c: &CompoundStatement)
        ensures
            final(self).buf@ == print_compound(old(self).buf@, *c),
        decreases c, 1nat,
    {
        self.push_str("{");
        let ghost start = self.buf@;
        let list = &c.statement_list;
        let mut n: usize = 0;
        while n < list.len()
            invariant
                n <= list@.len(),
                self.buf@ == print_stmts(start, *c, n as int),
            decreases list@.len() - n,
        {
            proof {
                        assert(decreases_to!(c => list[n as int]));
            }
            self.statement(&list[n]);
            n = n + 1;
        }
        self.push_str("}");
    }

    pub(crate) fn statement(&mut self, st: &Statement)
        ensures
            final(self).buf@ == print_statement(old(self).buf@, *st),
        decreases st, 2nat,
    {
        match st {
            Statement::Compound(c) => self.compound(c),
            Statement::Simple(s) => self.simple_statement(s),
        }
    }

    #[verifier::loop_isolation(false)]
    #[verifier::rlimit(50)]
    pub(crate) fn simple_statement(&mut self, s: &SimpleStatement)
        ensures
            final(self).buf@ == print_simple(old(self).buf@, *s),
        decreases s, 1nat,
    {
        match s {
            SimpleStatement::Declaration(d) => self.declaration(d),
            SimpleStatement::Expression(e) => {
                if let Some(e) = e {
                    self.expr(e, CTX_EXPR);
                }
                self.push_str(";");
            },
            SimpleStatement::Selection(sel) => {
                self.push_str("if");
                self.push_str("(");
                self.expr(&sel.cond, CTX_EXPR);
                self.push_str(")");
                match &sel.rest {
                    SelectionRestStatement::Statement(st) => self.statement(st),
                    SelectionRestStatement::Else(a, b) => {
                        self.statement(a);
                        self.push_str("else");
                        self.statement(b);
                    },
                }
            },
            SimpleStatement::Switch(sw) => {
                self.push_str("switch");
                self.push_str("(");
                self.expr(&sw.head, CTX_EXPR);
                self.push_str(")");
                self.push_str("{");
                let ghost start = self.buf@;
                let body = &sw.body;
                let mut n: usize = 0;
                while n < body.len()
                    invariant
                        n <= body@.len(),
                        self.buf@ == print_switch_body(start, *s, n as int),
                    decreases body@.len() - n,
                {
                    proof {
                        assert(decreases_to!(s => body[n as int]));
                    }
                    self.statement(&body[n]);
                    n = n + 1;
                }
                self.push_str("}");
            },
            SimpleStatement::CaseLabel(CaseLabel::Case(e)) => {
                self.push_str("case");
                self.expr(e, CTX_EXPR);
                self.push_str(":");
            },
            SimpleStatement::CaseLabel(CaseLabel::Def) => {
                self.push_str("default");
                self.push_str(":");
            },
            SimpleStatement::Iteration(IterationStatement::While(c, body)) => {
                self.push_str("while");
                self.push_str("(");
                self.condition(c);
                self.push_str(")");
                self.statement(body);
            },
            SimpleStatement::Iteration(IterationStatement::DoWhile(body, e)) => {
                self.push_str("do");
                self.statement(body);
                self.push_str("while");
                self.push_str("(");
                self.expr(e, CTX_EXPR);
                self.push_str(")");
                self.push_str(";");
            },
            SimpleStatement::Iteration(IterationStatement::For(init, rest, body)) => {
                self.push_str("for");
                self.push_str("(");
                match init {
                    ForInitStatement::Expression(e) => {
                        if let Some(e) = e {
                            self.expr(e, CTX_EXPR);
                        }
                        self.push_str(";");
                    },
                    ForInitStatement::Declaration(d) => self.declaration(d),
                }
                if let Some(c) = &rest.condition {
                    self.condition(c);
                }
                self.push_str(";");
                if let Some(e) = &rest.post_expr {
                    self.expr(e, CTX_EXPR);
                }
                self.push_str(")");
                self.statement(body);
            },
            SimpleStatement::Jump(j) => match j {
                JumpStatement::Continue => {
                    self.push_str("continue");
                    self.push_str(";");
                },
                JumpStatement::Break => {
                    self.push_str("break");
                    self.push_str(";");
                },
                JumpStatement::Discard => {
                    self.push_str("discard");
                    self.push_str(";");
                },
                JumpStatement::Return(e) => {
                    self.push_str("return");
                    if let Some(e) = e {
                        self.expr(e, CTX_EXPR);
                    }
                    self.push_str(";");
                },
            },
        }
    }

    #[verifier::rlimit(50)]
    pub(crate) fn preprocessor(&mut self, pp: &Preprocessor)
        ensures
            final(self).buf@ == directive_spec(old(self).buf@, directive_text(*pp)),
    {
        let mut line: Vec<char> = Vec::new();
        match pp {
            Preprocessor::Define(PreprocessorDefine::ObjectLike { ident, value }) => {
                extend_str(&mut line, "#define ");
                extend_str(&mut line, ident.0.as_str());
                if value.unicode_len() > 0 {
                    line.push(' ');
                    extend_str(&mut line, value.as_str());
                }
            },
            Preprocessor::Define(PreprocessorDefine::FunctionLike { ident, args, value }) => {
                extend_str(&mut line, "#define ");
                extend_str(&mut line, ident.0.as_str());
                line.push('(');
                let ghost start = line@;
                let mut n: usize = 0;
                while n < args.len()
                    invariant
                        n <= args@.len(),
                        line@ == start + join_args(args@, n as int),
                    decreases args@.len() - n,
                {
                    if n > 0 {
                        line.push(',');
                    }
                    extend_str(&mut line, args[n].0.as_str());
                    n = n + 1;
                    proof {
                        assert(line@ =~= start + join_args(args@, n as int));
                    }
                }
                line.push(')');
                if value.unicode_len() > 0 {
                    line.push(' ');
                    extend_str(&mut line, value.as_str());
                }
            },
            Preprocessor::Else => extend_str(&mut line, "#else"),
            Preprocessor::ElIf(e) => {
                extend_str(&mut line, "#elif ");
                extend_str(&mut line, e.condition.as_str());
            },
            Preprocessor::EndIf => extend_str(&mut line, "#endif"),
            Preprocessor::Error(e) => {
                extend_str(&mut line, "#error");
                if e.message.unicode_len() > 0 {
                    line.push(' ');
                    extend_str(&mut line, e.message.as_str());
                }
            },
            Preprocessor::If(i) => {
                extend_str(&mut line, "#if ");
                extend_str(&mut line, i.condition.as_str());
            },
            Preprocessor::IfDef(d) => {
                extend_str(&mut line, "#ifdef ");
                extend_str(&mut line, d.ident.0.as_str());
            },
            Preprocessor::IfNDef(d) => {
                extend_str(&mut line, "#ifndef ");
                extend_str(&mut line, d.ident.0.as_str());
            },
            Preprocessor::Include(i) => match &i.path {
                Path::Absolute(p) => {
                    extend_str(&mut line, "#include <");
                    extend_str(&mut line, p.as_str());
                    line.push('>');
                },
                Path::Relative(p) => {
                    extend_str(&mut line, "#include \"");
                    extend_str(&mut line, p.as_str());
                    line.push('"');
                },
            },
            Preprocessor::Line(l) => {
                extend_str(&mut line, "#line ");
                let d = decimal_chars(l.line as u64);
                extend_chars(&mut line, d.as_slice());
                if let Some(n) = l.source_string_number {
                    line.push(' ');
                    let d = decimal_chars(n as u64);
                    extend_chars(&mut line, d.as_slice());
                }
            },
            Preprocessor::Pragma(p) => {
                extend_str(&mut line, "#pragma");
                if p.command.unicode_len() > 0 {
                    line.push(' ');
                    extend_str(&mut line, p.command.as_str());
                }
            },
            Preprocessor::Undef(u) => {
                extend_str(&mut line, "#undef ");
                extend_str(&mut line, u.name.0.as_str());
            },
            Preprocessor::Version(v) => {
                extend_str(&mut line, "#version ");
                let d = decimal_chars(v.version as u64);
                extend_chars(&mut line, d.as_slice());
                match v.profile {
                    None => {},
                    Some(PreprocessorVersionProfile::Core) => extend_str(&mut line, " core"),
                    Some(PreprocessorVersionProfile::Compatibility) => extend_str(&mut line, " compatibility"),
                    Some(PreprocessorVersionProfile::ES) => extend_str(&mut line, " es"),
                }
            },
            Preprocessor::Extension(e) => {
                extend_str(&mut line, "#extension ");
                match &e.name {
                    PreprocessorExtensionName::All => extend_str(&mut line, "all"),
                    PreprocessorExtensionName::Specific(s) => extend_str(&mut line, s.as_str()),
                }
                match &e.behavior {
                    None => {},
                    Some(b) => {
                        extend_str(&mut line, " : ");
                        extend_str(
                            &mut line,
                            match b {
                                PreprocessorExtensionBehavior::Require => "require",
                                PreprocessorExtensionBehavior::Enable => "enable",
                                PreprocessorExtensionBehavior::Warn => "warn",
                                PreprocessorExtensionBehavior::Disable => "disable",
                            },
                        );
                    },
                }
            },
        }
        self.directive(line.as_slice());
    }
}

/// Print a whole shader with minimal whitespace.
pub fn print(tu: &TranslationUnit) -> (r: String)
    ensures
        r@ == print_unit(*tu),
{
    let mut out = Out { buf: Vec::new() };
    let eds = &tu.0.0;
    let mut n: usize = 0;
    while n < eds.len()
        invariant
            n <= eds@.len(),
            out.buf@ == print_externals(eds@, n as int),
        decreases eds@.len() - n,
    {
        match &eds[n] {
            ExternalDeclaration::Preprocessor(pp) => out.preprocessor(pp),
            ExternalDeclaration::FunctionDefinition(fd) => {
                out.function_prototype(&fd.prototype);
                out.compound(&fd.statement);
            },
            ExternalDeclaration::Declaration(d) => out.declaration(d),
        }
        n = n + 1;
    }
    // a directive at the very end does not need its newline
    if out.buf.len() > 0 && out.buf[out.buf.len() - 1] == '\n' {
        out.buf.pop();
    }
    string_of(out.buf.as_slice())
}

// ------------------------------------------------------------ float literals

/// Lexicographic order of character sequences (by code point).
pub open spec fn seq_less(a: Seq<char>, b: Seq<char>) -> bool
    decreases a.len(),
{
    if a.len() == 0 {
        b.len() > 0
    } else if b.len() == 0 {
        false
    } else if a[0] != b[0] {
        a[0] < b[0]
    } else {
        seq_less(a.drop_first(), b.drop_first())
    }
}

pub fn less(a: &[char], b: &[char]) -> (r: bool)
    ensures
        r == seq_less(a@, b@),
{
    let mut k: usize = 0;
    proof {
        assert(a@.subrange(0, a@.len() as int) =~= a@);
        assert(b@.subrange(0, b@.len() as int) =~= b@);
    }
    while k < a.len() && k < b.len() && a[k] == b[k]
        invariant
            k <= a@.len(),
            k <= b@.len(),
            seq_less(a@, b@) == seq_less(a@.subrange(k as int, a@.len() as int), b@.subrange(k as int, b@.len() as int)),
        decreases a@.len() - k,
    {
        proof {
            let sa = a@.subrange(k as int, a@.len() as int);
            let sb = b@.subrange(k as int, b@.len() as int);
            assert(sa.drop_first() =~= a@.subrange(k + 1, a@.len() as int));
            assert(sb.drop_first() =~= b@.subrange(k + 1, b@.len() as int));
        }
        k = k + 1;
    }
    proof {
        assert(a@.subrange(0, a@.len() as int) =~= a@);
        assert(b@.subrange(0, b@.len() as int) =~= b@);
    }
    if k < a.len() && k < b.len() {
        a[k] < b[k]
    } else {
        k == a.len() && k < b.len()
    }
}

/// The digit characters of `d`.
pub open spec fn digit_chars(d: Seq<u8>) -> Seq<char> {
    Seq::new(d.len(), |i: int| digit_char(d[i] as nat))
}

/// `m` zeros.
pub open spec fn zeros(m: int) -> Seq<char> {
    Seq::new(if m > 0 { m as nat } else { 0 }, |i: int| '0')
}

/// Decimal rendering of an integer, with a `-` in front of a negative one.
pub open spec fn signed_decimal(e: int) -> Seq<char> {
    if e < 0 {
        seq!['-'] + decimal((-e) as nat)
    } else {
        decimal(e as nat)
    }
}

/// `digits × 10^k` written without an exponent.
pub open spec fn plain_form(digits: Seq<u8>, k: int) -> Seq<char> {
    let n = digits.len() as int;
    let d = digit_chars(digits);
    if k >= 0 {
        d + zeros(k) + seq!['.']
    } else if -k < n {
        d.subrange(0, n + k) + seq!['.'] + d.subrange(n + k, n)
    } else {
        seq!['.'] + zeros(-k - n) + d
    }
}

/// `digits × 10^k` written with the point after the first `s` digits and
/// the matching exponent.
pub open spec fn exponent_form(digits: Seq<u8>, k: int, s: int) -> Seq<char> {
    let n = digits.len() as int;
    let d = digit_chars(digits);
    let mantissa = if s == 0 {
        seq!['.'] + d
    } else if s == n {
        d
    } else {
        d.subrange(0, s) + seq!['.'] + d.subrange(s, n)
    };
    mantissa + seq!['e'] + signed_decimal(k + n - s)
}

/// The spellings of `digits × 10^k` that are considered.
pub open spec fn is_literal_form(c: Seq<char>, digits: Seq<u8>, k: int) -> bool {
    c == plain_form(digits, k) || exists|s: int| 0 <= s <= digits.len() && c == #[trigger] exponent_form(digits, k, s)
}

/// `a` is shorter than `b`, or as long and smaller.
pub open spec fn better(a: Seq<char>, b: Seq<char>) -> bool {
    a.len() < b.len() || (a.len() == b.len() && seq_less(a, b))
}

/// `c` is the best of the spellings of `digits × 10^k`: no other is shorter,
/// or as short and smaller.
pub open spec fn is_shortest_literal(c: Seq<char>, digits: Seq<u8>, k: int) -> bool {
    is_literal_form(c, digits, k) && forall|o: Seq<char>| #[trigger] is_literal_form(o, digits, k) ==> !better(o, c)
}

proof fn lemma_seq_less_transitive(a: Seq<char>, b: Seq<char>, c: Seq<char>)
    requires
        seq_less(a, b),
        seq_less(b, c),
    ensures
        seq_less(a, c),
    decreases a.len(),
{
    if a.len() > 0 && b.len() > 0 && c.len() > 0 && a[0] == b[0] && b[0] == c[0] {
        lemma_seq_less_transitive(a.drop_first(), b.drop_first(), c.drop_first());
    }
}

proof fn lemma_seq_less_irreflexive(a: Seq<char>)
    ensures
        !seq_less(a, a),
    decreases a.len(),
{
    if a.len() > 0 {
        lemma_seq_less_irreflexive(a.drop_first());
    }
}

proof fn lemma_seq_less_total(a: Seq<char>, b: Seq<char>)
    requires
        a.len() == b.len(),
        a != b,
    ensures
        seq_less(a, b) || seq_less(b, a),
    decreases a.len(),
{
    if a.len() > 0 && a[0] == b[0] {
        if a.drop_first() == b.drop_first() {
            assert forall|i: int| 0 <= i < a.len() implies a[i] == b[i] by {
                if i > 0 {
                    assert(a[i] == a.drop_first()[i - 1]);
                    assert(b[i] == b.drop_first()[i - 1]);
                }
            }
            assert(a =~= b);
        }
        lemma_seq_less_total(a.drop_first(), b.drop_first());
    } else if a.len() == 0 {
        assert(a =~= b);
    } else {
        assert(a[0] < b[0] || b[0] < a[0]);
    }
}

/// There is only one shortest spelling.
proof fn lemma_shortest_unique(x: Seq<char>, y: Seq<char>, digits: Seq<u8>, k: int)
    requires
        is_shortest_literal(x, digits, k),
        is_shortest_literal(y, digits, k),
    ensures
        x == y,
{
    assert(!better(x, y));
    assert(!better(y, x));
    if x != y {
        lemma_seq_less_total(x, y);
    }
}

proof fn lemma_better_transitive(a: Seq<char>, b: Seq<char>, c: Seq<char>)
    requires
        better(a, b),
        better(b, c),
    ensures
        better(a, c),
{
    if a.len() == b.len() && b.len() == c.len() {
        lemma_seq_less_transitive(a, b, c);
    }
}

/// `10^j`.
pub open spec fn pow10(j: nat) -> nat
    decreases j,
{
    if j == 0 {
        1
    } else {
        10 * pow10((j - 1) as nat)
    }
}

proof fn lemma_decimal_len(m: nat, j: nat)
    requires
        j >= 1,
        m < pow10(j),
    ensures
        decimal(m).len() <= j,
    decreases j,
{
    if m >= 10 {
        assert(j >= 2) by {
            if j == 1 {
                assert(pow10(1) == 10 * pow10(0));
            }
        }
        assert(pow10(j) == 10 * pow10((j - 1) as nat));
        assert(m / 10 < pow10((j - 1) as nat)) by (nonlinear_arith)
            requires
                m < 10 * pow10((j - 1) as nat),
        ;
        lemma_decimal_len(m / 10, (j - 1) as nat);
    }
}

proof fn lemma_pow10_10()
    ensures
        pow10(10) == 10_000_000_000,
{
    assert(pow10(0) == 1);
    assert(pow10(1) == 10);
    assert(pow10(2) == 100);
    assert(pow10(3) == 1000);
    assert(pow10(4) == 10_000);
    assert(pow10(5) == 100_000);
    assert(pow10(6) == 1_000_000);
    assert(pow10(7) == 10_000_000);
    assert(pow10(8) == 100_000_000);
    assert(pow10(9) == 1_000_000_000);
    assert(pow10(10) == 10_000_000_000);
}

/// Append the digit characters of `digits[a..b]` to `t`.
fn digit_text(t: &mut Vec<char>, digits: &Vec<u8>, a: usize, b: usize)
    requires
        a <= b <= digits@.len(),
        forall|k: int| 0 <= k < digits@.len() ==> digits@[k] < 10,
    ensures
        final(t)@ == old(t)@ + digit_chars(digits@).subrange(a as int, b as int),
{
    let mut k = a;
    while k < b
        invariant
            a <= k <= b,
            b <= digits@.len(),
            forall|m: int| 0 <= m < digits@.len() ==> digits@[m] < 10,
            t@ == old(t)@ + digit_chars(digits@).subrange(a as int, k as int),
        decreases b - k,
    {
        let c: u8 = 48 + digits[k];
        t.push(c as char);
        k = k + 1;
        proof {
            assert(t@ =~= old(t)@ + digit_chars(digits@).subrange(a as int, k as int));
        }
    }
}

/// Append the decimal rendering of `v` to `t`.
fn signed_text(t: &mut Vec<char>, v: i64)
    ensures
        final(t)@ == old(t)@ + signed_decimal(v as int),
{
    if v < 0 {
        t.push('-');
        let m: u64 = if v == i64::MIN { 0x8000_0000_0000_0000 } else { (-v) as u64 };
        let d = decimal_chars(m);
        extend_chars(t, d.as_slice());
        proof {
            assert(t@ =~= old(t)@ + signed_decimal(v as int));
        }
    } else {
        let d = decimal_chars(v as u64);
        extend_chars(t, d.as_slice());
    }
}

/// Keep `cand` in `best` if it is shorter, or as long and smaller.
fn consider(best: &mut Option<Vec<char>>, cand: Vec<char>)
    ensures
        match *old(best) {
            None => *final(best) == Some(cand),
            Some(b) => if better(cand@, b@) {
                *final(best) == Some(cand)
            } else {
                *final(best) == *old(best)
            },
        },
{
    let replace = match best {
        None => true,
        Some(b) => cand.len() < b.len() || (cand.len() == b.len() && less(cand.as_slice(), b.as_slice())),
    };
    if replace {
        *best = Some(cand);
    }
}

/// The shortest GLSL spelling of the non-negative number
/// `digits × 10^k` among its plain decimal and every mantissa/exponent
/// split (shortest first, then the smallest by character order).
pub fn shortest_literal(digits: &Vec<u8>, k: i64) -> (r: Vec<char>)
    requires
        digits@.len() > 0,
        digits@.len() < 0x1_0000_0000,
        -0x1_0000_0000 <= k <= 0x1_0000_0000,
        forall|m: int| 0 <= m < digits@.len() ==> digits@[m] < 10,
    ensures
        is_shortest_literal(r@, digits@, k as int),
{
    let n = digits.len();
    let ni = n as i64;
    assert(0 < ni < 0x1_0000_0000);
    let ghost dc = digit_chars(digits@);
    let ghost plain = plain_form(digits@, k as int);
    let mut best: Option<Vec<char>> = None;
    // the plain decimal, when not obviously longer than an exponent form
    let plain_len: i64 = if k >= 0 { ni + k + 1 } else if -k < ni { ni + 1 } else { 1 - k };
    proof {
        assert(plain.len() == plain_len);
    }
    let considered_plain = plain_len <= ni + 12;
    if considered_plain {
        let mut t: Vec<char> = Vec::new();
        if k >= 0 {
            digit_text(&mut t, digits, 0, n);
            let mut z: i64 = 0;
            while z < k
                invariant
                    0 <= z <= k,
                    t@ == dc.subrange(0, n as int) + zeros(z as int),
                decreases k - z,
            {
                t.push('0');
                z = z + 1;
                proof {
                    assert(t@ =~= dc.subrange(0, n as int) + zeros(z as int));
                }
            }
            t.push('.');
            proof {
                assert(dc.subrange(0, n as int) =~= dc);
                assert(t@ =~= plain);
            }
        } else if -k < ni {
            let s = (ni + k) as usize;
            assert(s as int == n as int + k as int);
            digit_text(&mut t, digits, 0, s);
            t.push('.');
            digit_text(&mut t, digits, s, n);
            proof {
                assert(k < 0 && -k < n);
                assert(plain == dc.subrange(0, n + k) + seq!['.'] + dc.subrange(n + k, n as int));
                assert(t@ =~= dc.subrange(0, s as int) + seq!['.'] + dc.subrange(s as int, n as int));
                assert(dc.subrange(0, s as int) == dc.subrange(0, n + k));
                assert(dc.subrange(s as int, n as int) == dc.subrange(n + k, n as int));
                assert(t@ == plain);
            }
        } else {
            t.push('.');
            let mut z: i64 = 0;
            while z < -k - ni
                invariant
                    0 <= z <= -k - ni,
                    ni == n,
                    0 < ni < 0x1_0000_0000,
                    -0x1_0000_0000 <= k <= 0x1_0000_0000,
                    t@ == seq!['.'] + zeros(z as int),
                decreases -k - ni - z,
            {
                t.push('0');
                z = z + 1;
                proof {
                    assert(t@ =~= seq!['.'] + zeros(z as int));
                }
            }
            digit_text(&mut t, digits, 0, n);
            proof {
                assert(dc.subrange(0, n as int) =~= dc);
                assert(t@ =~= plain);
            }
        }
        consider(&mut best, t);
        proof {
            lemma_seq_less_irreflexive(plain);
        }
    }
    let mut s: usize = 0;
    loop
        invariant
            n == digits@.len(),
            ni == n,
            s <= n,
            0 < ni < 0x1_0000_0000,
            -0x1_0000_0000 <= k <= 0x1_0000_0000,
            forall|m: int| 0 <= m < digits@.len() ==> digits@[m] < 10,
            dc == digit_chars(digits@),
            plain == plain_form(digits@, k as int),
            considered_plain == (plain.len() <= n + 12),
            considered_plain ==> best is Some,
            s > 0 ==> best is Some,
            best matches Some(b) ==> is_literal_form(b@, digits@, k as int),
            best matches Some(b) ==> (considered_plain ==> !better(plain, b@)),
            best matches Some(b) ==> forall|j: int| 0 <= j < s ==> !better(#[trigger] exponent_form(digits@, k as int, j), b@),
        ensures
            best is Some,
            best matches Some(b) ==> is_literal_form(b@, digits@, k as int),
            best matches Some(b) ==> (considered_plain ==> !better(plain, b@)),
            best matches Some(b) ==> forall|j: int| 0 <= j <= n ==> !better(#[trigger] exponent_form(digits@, k as int, j), b@),
        decreases n - s,
    {
        let e: i64 = k + (ni - s as i64);
        let mut t: Vec<char> = Vec::new();
        if s == 0 {
            t.push('.');
            digit_text(&mut t, digits, 0, n);
            proof {
                assert(dc.subrange(0, n as int) =~= dc);
            }
        } else if s == n {
            digit_text(&mut t, digits, 0, n);
            proof {
                assert(dc.subrange(0, n as int) =~= dc);
            }
        } else {
            digit_text(&mut t, digits, 0, s);
            t.push('.');
            digit_text(&mut t, digits, s, n);
        }
        t.push('e');
        signed_text(&mut t, e);
        let ghost cand = t@;
        proof {
            assert(cand =~= exponent_form(digits@, k as int, s as int));
            assert(is_literal_form(cand, digits@, k as int));
        }
        let ghost old_best = best;
        consider(&mut best, t);
        proof {
            lemma_seq_less_irreflexive(cand);
            if let Some(ob) = old_best {
                if better(cand, ob@) {
                    assert forall|j: int| 0 <= j < s implies !better(#[trigger] exponent_form(digits@, k as int, j), cand) by {
                        if better(exponent_form(digits@, k as int, j), cand) {
                            lemma_better_transitive(exponent_form(digits@, k as int, j), cand, ob@);
                        }
                    }
                    if considered_plain && better(plain, cand) {
                        lemma_better_transitive(plain, cand, ob@);
                    }
                }
            }
        }
        if s == n {
            break;
        }
        s = s + 1;
    }
    let r = match best {
        Some(b) => b,
        None => Vec::new(),
    };
    proof {
        let last = exponent_form(digits@, k as int, n as int);
        assert(!better(last, r@));
        if !considered_plain {
            // the exponent form with the point after every digit is shorter
            lemma_pow10_10();
            let m: nat = if k < 0 { (-k) as nat } else { k as nat };
            lemma_decimal_len(m, 10);
            assert(signed_decimal(k as int).len() <= 11);
            assert(last.len() <= n + 12);
        }
        assert forall|o: Seq<char>| #[trigger] is_literal_form(o, digits@, k as int) implies !better(o, r@) by {
            if o != plain {
                let j = choose|j: int| 0 <= j <= digits@.len() && o == #[trigger] exponent_form(digits@, k as int, j);
                assert(!better(exponent_form(digits@, k as int, j), r@));
            }
        }
    }
    r
}

/// A decimal with digits that `shortest_literal` takes: at least one,
/// each below 10, and an exponent of at most 2^32 either way.
pub open spec fn decimal_in_range(d: Decimal) -> bool {
    0 < d.digits@.len() < 0x1_0000_0000 && -0x1_0000_0000 <= d.exponent <= 0x1_0000_0000
        && forall|m: int| 0 <= m < d.digits@.len() ==> d.digits@[m] < 10
}

/// The literal for an exact decimal value: `0.` for zero, a `-` in front
/// of a negative value, and `lf` after a double.
pub fn format_decimal(d: &Decimal, double: bool) -> (r: Vec<char>)
    ensures
        r@ == spec_float_text(*d, double),
        ({
            let suffix = if double { seq!['l', 'f'] } else { seq![] };
            if decimal_in_range(*d) {
                exists|lit: Seq<char>|
                    is_shortest_literal(lit, d.digits@, d.exponent as int) && r@ == (if d.negative {
                        seq!['-']
                    } else {
                        seq![]
                    }) + lit + suffix
            } else {
                r@ == seq!['0', '.'] + suffix
            }
        }),
{
    let mut t: Vec<char> = Vec::new();
    let mut ok = d.digits.len() > 0 && (d.digits.len() as u64) < 0x1_0000_0000u64 && -0x1_0000_0000 <= d.exponent
        && d.exponent <= 0x1_0000_0000;
    let mut k: usize = 0;
    while k < d.digits.len()
        invariant
            k <= d.digits@.len(),
            ok == (0 < d.digits@.len() < 0x1_0000_0000 && -0x1_0000_0000 <= d.exponent <= 0x1_0000_0000
                && forall|m: int| 0 <= m < k ==> d.digits@[m] < 10),
        decreases d.digits@.len() - k,
    {
        if d.digits[k] >= 10 {
            ok = false;
        }
        k = k + 1;
    }
    proof {
        reveal_strlit("0.");
        reveal_strlit("lf");
    }
    let ghost mut lit_view: Seq<char> = seq![];
    if !ok {
        extend_str(&mut t, "0.");
        assert(t@ =~= seq!['0', '.']);
    } else {
        if d.negative {
            t.push('-');
        }
        let lit = shortest_literal(&d.digits, d.exponent);
        extend_chars(&mut t, lit.as_slice());
        proof {
            lit_view = lit@;
        }
    }
    let ghost before = t@;
    if double {
        extend_str(&mut t, "lf");
    }
    proof {
        let suffix = if double { seq!['l', 'f'] } else { seq![] };
        assert(t@ =~= before + suffix);
        if ok {
            let sign = if d.negative { seq!['-'] } else { seq![] };
            assert(before =~= sign + lit_view);
            assert(t@ =~= sign + lit_view + suffix);
            lemma_shortest_unique(lit_view, shortest_of(*d), d.digits@, d.exponent as int);
        }
    }
    t
}

} // verus!
