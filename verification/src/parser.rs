//! The GLSL grammar: a recursive-descent parser over the characters of a
//! shader that builds the syntax tree of `syntax`.
//!
//! Every parse function takes the input and a position and returns the
//! parsed construct with the position after it, or a `PErr`. A failure that
//! is not `fatal` lets the caller try the next alternative; a `fatal` one
//! (inside a construct the grammar committed to) ends the parse.
use vstd::prelude::*;
use crate::scan::{all_digits_of, kw_at, digit_run_end, digits_value, spec_hex_value, is_ident_char, is_digit, is_white, continuation_at, comment_at, unterminated_comment_at, pp_space0_end, line_end, ident_end, PErr, within, consumed, soft, hard, cut, at, tag, keyword, blank, pp_space0,
    space0, eol, str_till_eol, take_until, identifier, identifier_end, slice_string,
    integral_lit, unsigned_lit, floating_lit, digits_end, radix_value};
use crate::syntax::{NonEmpty, Path, Identifier, TypeName, TypeSpecifierNonArray, TypeSpecifier, StructSpecifier, StructFieldSpecifier, ArrayedIdentifier, TypeQualifier, TypeQualifierSpec, StorageQualifier, LayoutQualifier, LayoutQualifierSpec, PrecisionQualifier, InterpolationQualifier, FullySpecifiedType, ArraySpecifier, ArraySpecifierDimension, Declaration, Block, FunIdentifier, FunctionPrototype, FunctionParameterDeclaration, FunctionParameterDeclarator, InitDeclaratorList, SingleDeclaration, SingleDeclarationNoType, Initializer, Decimal, Expr, UnaryOp, BinaryOp, AssignmentOp, TranslationUnit, ExternalDeclaration, FunctionDefinition, CompoundStatement, Statement, SimpleStatement, SelectionStatement, Condition, SelectionRestStatement, SwitchStatement, CaseLabel, IterationStatement, ForInitStatement, ForRestStatement, JumpStatement, Preprocessor, PreprocessorDefine, PreprocessorElIf, PreprocessorError, PreprocessorIf, PreprocessorIfDef, PreprocessorIfNDef, PreprocessorInclude, PreprocessorLine, PreprocessorPragma, PreprocessorUndef, PreprocessorVersion, PreprocessorVersionProfile, PreprocessorExtension, PreprocessorExtensionName, PreprocessorExtensionBehavior};
use crate::text::{chars_of, matches_str_at, push_chars};
use crate::printer::{spec_storage_word, spec_precision_str, spec_type_keyword, spec_unary_str, spec_binary_str, spec_assign_str, spec_binop_prec};

verus! {

/// Whether `s[a..b]` is the word `w`.
fn word_is(s: &[char], a: usize, b: usize, w: &str) -> (r: bool)
    requires
        a <= b <= s@.len(),
    ensures
        r == (s@.subrange(a as int, b as int) == w@),
{
    let n = w.unicode_len();
    if b - a != n {
        proof {
            if s@.subrange(a as int, b as int) == w@ {
                assert(s@.subrange(a as int, b as int).len() == w@.len());
            }
        }
        return false;
    }
    let r = matches_str_at(s, a, w);
    proof {
        assert(b == a + w@.len());
    }
    r
}

/// The text `t` stands in `s` at `i`.
pub open spec fn text_at(s: Seq<char>, i: int, t: Seq<char>) -> bool {
    0 <= i && i + t.len() <= s.len() && s.subrange(i, i + t.len()) == t
}

proof fn lemma_text_at_char(s: Seq<char>, i: int, t: Seq<char>)
    requires
        0 <= i,
        t.len() == 1,
    ensures
        text_at(s, i, t) == (i < s.len() && s[i] == t[0]),
{
    if i < s.len() && s[i] == t[0] {
        assert(s.subrange(i, i + 1) =~= t);
    }
    if text_at(s, i, t) {
        assert(s.subrange(i, i + 1)[0] == s[i]);
    }
}

/// The word `w` stands in `s` at `i`, not followed by an identifier
/// character.
pub open spec fn word_at(s: Seq<char>, i: int, w: Seq<char>) -> bool {
    w.len() > 0 && text_at(s, i, w) && !(i + w.len() < s.len() && is_ident_char(s[i + w.len()]))
}

/// The second spellings of the square matrix types.
pub open spec fn type_alias(w: Seq<char>) -> Option<TypeSpecifierNonArray> {
    if w == "mat2x2"@ {
        Some(TypeSpecifierNonArray::Mat2)
    } else if w == "mat3x3"@ {
        Some(TypeSpecifierNonArray::Mat3)
    } else if w == "mat4x4"@ {
        Some(TypeSpecifierNonArray::Mat4)
    } else if w == "dmat2x2"@ {
        Some(TypeSpecifierNonArray::DMat2)
    } else if w == "dmat3x3"@ {
        Some(TypeSpecifierNonArray::DMat3)
    } else if w == "dmat4x4"@ {
        Some(TypeSpecifierNonArray::DMat4)
    } else {
        None
    }
}

/// `w` is the keyword of a builtin type.
pub open spec fn is_type_keyword(w: Seq<char>) -> bool {
    exists|t: TypeSpecifierNonArray| !(t is Struct || t is TypeName) && #[trigger] spec_type_keyword(t) == w
}

/// The builtin type named `s[a..b]`, if it is one.
fn type_from_name(s: &[char], a: usize, b: usize) -> (r: Option<TypeSpecifierNonArray>)
    requires
        a <= b <= s@.len(),
    ensures
        r matches Some(t) ==> !(t is Struct || t is TypeName) && (spec_type_keyword(t) == s@.subrange(a as int, b as int)
            || type_alias(s@.subrange(a as int, b as int)) == Some(t)),
        r is None ==> !is_type_keyword(s@.subrange(a as int, b as int)) && type_alias(s@.subrange(a as int, b as int)) is None,
{
    if word_is(s, a, b, "void") {
        return Some(TypeSpecifierNonArray::Void);
    }
    if word_is(s, a, b, "bool") {
        return Some(TypeSpecifierNonArray::Bool);
    }
    if word_is(s, a, b, "int") {
        return Some(TypeSpecifierNonArray::Int);
    }
    if word_is(s, a, b, "uint") {
        return Some(TypeSpecifierNonArray::UInt);
    }
    if word_is(s, a, b, "float") {
        return Some(TypeSpecifierNonArray::Float);
    }
    if word_is(s, a, b, "double") {
        return Some(TypeSpecifierNonArray::Double);
    }
    if word_is(s, a, b, "vec2") {
        return Some(TypeSpecifierNonArray::Vec2);
    }
    if word_is(s, a, b, "vec3") {
        return Some(TypeSpecifierNonArray::Vec3);
    }
    if word_is(s, a, b, "vec4") {
        return Some(TypeSpecifierNonArray::Vec4);
    }
    if word_is(s, a, b, "dvec2") {
        return Some(TypeSpecifierNonArray::DVec2);
    }
    if word_is(s, a, b, "dvec3") {
        return Some(TypeSpecifierNonArray::DVec3);
    }
    if word_is(s, a, b, "dvec4") {
        return Some(TypeSpecifierNonArray::DVec4);
    }
    if word_is(s, a, b, "bvec2") {
        return Some(TypeSpecifierNonArray::BVec2);
    }
    if word_is(s, a, b, "bvec3") {
        return Some(TypeSpecifierNonArray::BVec3);
    }
    if word_is(s, a, b, "bvec4") {
        return Some(TypeSpecifierNonArray::BVec4);
    }
    if word_is(s, a, b, "ivec2") {
        return Some(TypeSpecifierNonArray::IVec2);
    }
    if word_is(s, a, b, "ivec3") {
        return Some(TypeSpecifierNonArray::IVec3);
    }
    if word_is(s, a, b, "ivec4") {
        return Some(TypeSpecifierNonArray::IVec4);
    }
    if word_is(s, a, b, "uvec2") {
        return Some(TypeSpecifierNonArray::UVec2);
    }
    if word_is(s, a, b, "uvec3") {
        return Some(TypeSpecifierNonArray::UVec3);
    }
    if word_is(s, a, b, "uvec4") {
        return Some(TypeSpecifierNonArray::UVec4);
    }
    if word_is(s, a, b, "mat2") {
        return Some(TypeSpecifierNonArray::Mat2);
    }
    if word_is(s, a, b, "mat3") {
        return Some(TypeSpecifierNonArray::Mat3);
    }
    if word_is(s, a, b, "mat4") {
        return Some(TypeSpecifierNonArray::Mat4);
    }
    if word_is(s, a, b, "mat2x3") {
        return Some(TypeSpecifierNonArray::Mat23);
    }
    if word_is(s, a, b, "mat2x4") {
        return Some(TypeSpecifierNonArray::Mat24);
    }
    if word_is(s, a, b, "mat3x2") {
        return Some(TypeSpecifierNonArray::Mat32);
    }
    if word_is(s, a, b, "mat3x4") {
        return Some(TypeSpecifierNonArray::Mat34);
    }
    if word_is(s, a, b, "mat4x2") {
        return Some(TypeSpecifierNonArray::Mat42);
    }
    if word_is(s, a, b, "mat4x3") {
        return Some(TypeSpecifierNonArray::Mat43);
    }
    if word_is(s, a, b, "dmat2") {
        return Some(TypeSpecifierNonArray::DMat2);
    }
    if word_is(s, a, b, "dmat3") {
        return Some(TypeSpecifierNonArray::DMat3);
    }
    if word_is(s, a, b, "dmat4") {
        return Some(TypeSpecifierNonArray::DMat4);
    }
    if word_is(s, a, b, "dmat2x3") {
        return Some(TypeSpecifierNonArray::DMat23);
    }
    if word_is(s, a, b, "dmat2x4") {
        return Some(TypeSpecifierNonArray::DMat24);
    }
    if word_is(s, a, b, "dmat3x2") {
        return Some(TypeSpecifierNonArray::DMat32);
    }
    if word_is(s, a, b, "dmat3x4") {
        return Some(TypeSpecifierNonArray::DMat34);
    }
    if word_is(s, a, b, "dmat4x2") {
        return Some(TypeSpecifierNonArray::DMat42);
    }
    if word_is(s, a, b, "dmat4x3") {
        return Some(TypeSpecifierNonArray::DMat43);
    }
    if word_is(s, a, b, "sampler1D") {
        return Some(TypeSpecifierNonArray::Sampler1D);
    }
    if word_is(s, a, b, "image1D") {
        return Some(TypeSpecifierNonArray::Image1D);
    }
    if word_is(s, a, b, "sampler2D") {
        return Some(TypeSpecifierNonArray::Sampler2D);
    }
    if word_is(s, a, b, "image2D") {
        return Some(TypeSpecifierNonArray::Image2D);
    }
    if word_is(s, a, b, "sampler3D") {
        return Some(TypeSpecifierNonArray::Sampler3D);
    }
    if word_is(s, a, b, "image3D") {
        return Some(TypeSpecifierNonArray::Image3D);
    }
    if word_is(s, a, b, "samplerCube") {
        return Some(TypeSpecifierNonArray::SamplerCube);
    }
    if word_is(s, a, b, "imageCube") {
        return Some(TypeSpecifierNonArray::ImageCube);
    }
    if word_is(s, a, b, "sampler2DRect") {
        return Some(TypeSpecifierNonArray::Sampler2DRect);
    }
    if word_is(s, a, b, "image2DRect") {
        return Some(TypeSpecifierNonArray::Image2DRect);
    }
    if word_is(s, a, b, "sampler1DArray") {
        return Some(TypeSpecifierNonArray::Sampler1DArray);
    }
    if word_is(s, a, b, "image1DArray") {
        return Some(TypeSpecifierNonArray::Image1DArray);
    }
    if word_is(s, a, b, "sampler2DArray") {
        return Some(TypeSpecifierNonArray::Sampler2DArray);
    }
    if word_is(s, a, b, "image2DArray") {
        return Some(TypeSpecifierNonArray::Image2DArray);
    }
    if word_is(s, a, b, "samplerBuffer") {
        return Some(TypeSpecifierNonArray::SamplerBuffer);
    }
    if word_is(s, a, b, "imageBuffer") {
        return Some(TypeSpecifierNonArray::ImageBuffer);
    }
    if word_is(s, a, b, "sampler2DMS") {
        return Some(TypeSpecifierNonArray::Sampler2DMS);
    }
    if word_is(s, a, b, "image2DMS") {
        return Some(TypeSpecifierNonArray::Image2DMS);
    }
    if word_is(s, a, b, "sampler2DMSArray") {
        return Some(TypeSpecifierNonArray::Sampler2DMSArray);
    }
    if word_is(s, a, b, "image2DMSArray") {
        return Some(TypeSpecifierNonArray::Image2DMSArray);
    }
    if word_is(s, a, b, "samplerCubeArray") {
        return Some(TypeSpecifierNonArray::SamplerCubeArray);
    }
    if word_is(s, a, b, "imageCubeArray") {
        return Some(TypeSpecifierNonArray::ImageCubeArray);
    }
    if word_is(s, a, b, "sampler1DShadow") {
        return Some(TypeSpecifierNonArray::Sampler1DShadow);
    }
    if word_is(s, a, b, "sampler2DShadow") {
        return Some(TypeSpecifierNonArray::Sampler2DShadow);
    }
    if word_is(s, a, b, "sampler2DRectShadow") {
        return Some(TypeSpecifierNonArray::Sampler2DRectShadow);
    }
    if word_is(s, a, b, "sampler1DArrayShadow") {
        return Some(TypeSpecifierNonArray::Sampler1DArrayShadow);
    }
    if word_is(s, a, b, "sampler2DArrayShadow") {
        return Some(TypeSpecifierNonArray::Sampler2DArrayShadow);
    }
    if word_is(s, a, b, "samplerCubeShadow") {
        return Some(TypeSpecifierNonArray::SamplerCubeShadow);
    }
    if word_is(s, a, b, "samplerCubeArrayShadow") {
        return Some(TypeSpecifierNonArray::SamplerCubeArrayShadow);
    }
    if word_is(s, a, b, "isampler1D") {
        return Some(TypeSpecifierNonArray::ISampler1D);
    }
    if word_is(s, a, b, "iimage1D") {
        return Some(TypeSpecifierNonArray::IImage1D);
    }
    if word_is(s, a, b, "isampler2D") {
        return Some(TypeSpecifierNonArray::ISampler2D);
    }
    if word_is(s, a, b, "iimage2D") {
        return Some(TypeSpecifierNonArray::IImage2D);
    }
    if word_is(s, a, b, "isampler3D") {
        return Some(TypeSpecifierNonArray::ISampler3D);
    }
    if word_is(s, a, b, "iimage3D") {
        return Some(TypeSpecifierNonArray::IImage3D);
    }
    if word_is(s, a, b, "isamplerCube") {
        return Some(TypeSpecifierNonArray::ISamplerCube);
    }
    if word_is(s, a, b, "iimageCube") {
        return Some(TypeSpecifierNonArray::IImageCube);
    }
    if word_is(s, a, b, "isampler2DRect") {
        return Some(TypeSpecifierNonArray::ISampler2DRect);
    }
    if word_is(s, a, b, "iimage2DRect") {
        return Some(TypeSpecifierNonArray::IImage2DRect);
    }
    if word_is(s, a, b, "isampler1DArray") {
        return Some(TypeSpecifierNonArray::ISampler1DArray);
    }
    if word_is(s, a, b, "iimage1DArray") {
        return Some(TypeSpecifierNonArray::IImage1DArray);
    }
    if word_is(s, a, b, "isampler2DArray") {
        return Some(TypeSpecifierNonArray::ISampler2DArray);
    }
    if word_is(s, a, b, "iimage2DArray") {
        return Some(TypeSpecifierNonArray::IImage2DArray);
    }
    if word_is(s, a, b, "isamplerBuffer") {
        return Some(TypeSpecifierNonArray::ISamplerBuffer);
    }
    if word_is(s, a, b, "iimageBuffer") {
        return Some(TypeSpecifierNonArray::IImageBuffer);
    }
    if word_is(s, a, b, "isampler2DMS") {
        return Some(TypeSpecifierNonArray::ISampler2DMS);
    }
    if word_is(s, a, b, "iimage2DMS") {
        return Some(TypeSpecifierNonArray::IImage2DMS);
    }
    if word_is(s, a, b, "isampler2DMSArray") {
        return Some(TypeSpecifierNonArray::ISampler2DMSArray);
    }
    if word_is(s, a, b, "iimage2DMSArray") {
        return Some(TypeSpecifierNonArray::IImage2DMSArray);
    }
    if word_is(s, a, b, "isamplerCubeArray") {
        return Some(TypeSpecifierNonArray::ISamplerCubeArray);
    }
    if word_is(s, a, b, "iimageCubeArray") {
        return Some(TypeSpecifierNonArray::IImageCubeArray);
    }
    if word_is(s, a, b, "atomic_uint") {
        return Some(TypeSpecifierNonArray::AtomicUInt);
    }
    if word_is(s, a, b, "usampler1D") {
        return Some(TypeSpecifierNonArray::USampler1D);
    }
    if word_is(s, a, b, "uimage1D") {
        return Some(TypeSpecifierNonArray::UImage1D);
    }
    if word_is(s, a, b, "usampler2D") {
        return Some(TypeSpecifierNonArray::USampler2D);
    }
    if word_is(s, a, b, "uimage2D") {
        return Some(TypeSpecifierNonArray::UImage2D);
    }
    if word_is(s, a, b, "usampler3D") {
        return Some(TypeSpecifierNonArray::USampler3D);
    }
    if word_is(s, a, b, "uimage3D") {
        return Some(TypeSpecifierNonArray::UImage3D);
    }
    if word_is(s, a, b, "usamplerCube") {
        return Some(TypeSpecifierNonArray::USamplerCube);
    }
    if word_is(s, a, b, "uimageCube") {
        return Some(TypeSpecifierNonArray::UImageCube);
    }
    if word_is(s, a, b, "usampler2DRect") {
        return Some(TypeSpecifierNonArray::USampler2DRect);
    }
    if word_is(s, a, b, "uimage2DRect") {
        return Some(TypeSpecifierNonArray::UImage2DRect);
    }
    if word_is(s, a, b, "usampler1DArray") {
        return Some(TypeSpecifierNonArray::USampler1DArray);
    }
    if word_is(s, a, b, "uimage1DArray") {
        return Some(TypeSpecifierNonArray::UImage1DArray);
    }
    if word_is(s, a, b, "usampler2DArray") {
        return Some(TypeSpecifierNonArray::USampler2DArray);
    }
    if word_is(s, a, b, "uimage2DArray") {
        return Some(TypeSpecifierNonArray::UImage2DArray);
    }
    if word_is(s, a, b, "usamplerBuffer") {
        return Some(TypeSpecifierNonArray::USamplerBuffer);
    }
    if word_is(s, a, b, "uimageBuffer") {
        return Some(TypeSpecifierNonArray::UImageBuffer);
    }
    if word_is(s, a, b, "usampler2DMS") {
        return Some(TypeSpecifierNonArray::USampler2DMS);
    }
    if word_is(s, a, b, "uimage2DMS") {
        return Some(TypeSpecifierNonArray::UImage2DMS);
    }
    if word_is(s, a, b, "usampler2DMSArray") {
        return Some(TypeSpecifierNonArray::USampler2DMSArray);
    }
    if word_is(s, a, b, "uimage2DMSArray") {
        return Some(TypeSpecifierNonArray::UImage2DMSArray);
    }
    if word_is(s, a, b, "usamplerCubeArray") {
        return Some(TypeSpecifierNonArray::USamplerCubeArray);
    }
    if word_is(s, a, b, "uimageCubeArray") {
        return Some(TypeSpecifierNonArray::UImageCubeArray);
    }
    if word_is(s, a, b, "mat2x2") {
        return Some(TypeSpecifierNonArray::Mat2);
    }
    if word_is(s, a, b, "mat3x3") {
        return Some(TypeSpecifierNonArray::Mat3);
    }
    if word_is(s, a, b, "mat4x4") {
        return Some(TypeSpecifierNonArray::Mat4);
    }
    if word_is(s, a, b, "dmat2x2") {
        return Some(TypeSpecifierNonArray::DMat2);
    }
    if word_is(s, a, b, "dmat3x3") {
        return Some(TypeSpecifierNonArray::DMat3);
    }
    if word_is(s, a, b, "dmat4x4") {
        return Some(TypeSpecifierNonArray::DMat4);
    }
    proof {
        let w = s@.subrange(a as int, b as int);
        assert forall|t: TypeSpecifierNonArray| !(t is Struct || t is TypeName) implies #[trigger] spec_type_keyword(t) != w by {
            match t {
                _ => {},
            }
        }
    }
    None
}

// ---------------------------------------------------------------- expressions

fn parens_expr(s: &[char], i: usize) -> (r: Result<(Expr, usize), PErr>)
    requires
        i <= s@.len(),
    ensures
        consumed(r, i, s@.len() as int),
        !(i < s@.len() && s@[i as int] == '(') ==> (r matches Err(e) && !e.fatal),
        r matches Ok((_, j)) ==> s@[i as int] == '(' && s@[j - 1] == ')',
    decreases s@.len() - i, 21nat,
{
    if !at(s, i, '(') {
        return Err(soft(i));
    }
    let j = blank(s, i + 1)?;
    let (e, k) = expr(s, j)?;
    let k2 = blank(s, k)?;
    if at(s, k2, ')') {
        Ok((e, k2 + 1))
    } else {
        Err(hard(k2))
    }
}

fn primary_expr(s: &[char], i: usize) -> (r: Result<(Expr, usize), PErr>)
    requires
        i <= s@.len(),
    ensures
        consumed(r, i, s@.len() as int),
    decreases s@.len() - i, 22nat,
{
    match parens_expr(s, i) {
        Ok(x) => return Ok(x),
        Err(e) => {
            if e.fatal {
                return Err(e);
            }
        },
    }
    match floating_lit(s, i, false) {
        Ok((d, j)) => return Ok((Expr::FloatConst(d), j)),
        Err(e) => {
            if e.fatal {
                return Err(e);
            }
        },
    }
    match floating_lit(s, i, true) {
        Ok((d, j)) => return Ok((Expr::DoubleConst(d), j)),
        Err(e) => {
            if e.fatal {
                return Err(e);
            }
        },
    }
    match unsigned_lit(s, i) {
        Ok((v, j)) => return Ok((Expr::UIntConst(v), j)),
        Err(e) => {
            if e.fatal {
                return Err(e);
            }
        },
    }
    match integral_lit(s, i) {
        Ok((v, j)) => return Ok((Expr::IntConst(v), j)),
        Err(e) => {
            if e.fatal {
                return Err(e);
            }
        },
    }
    match keyword(s, i, "true") {
        Some(j) => return Ok((Expr::BoolConst(true), j)),
        None => {},
    }
    match keyword(s, i, "false") {
        Some(j) => return Ok((Expr::BoolConst(false), j)),
        None => {},
    }
    let (name, j) = identifier(s, i)?;
    Ok((Expr::Variable(Identifier(name)), j))
}

/// `.field`: the field name after the dot.
fn dot_field_selection(s: &[char], i: usize) -> (r: Result<(Identifier, usize), PErr>)
    requires
        i <= s@.len(),
    ensures
        consumed(r, i, s@.len() as int),
        (r matches Err(e) && !e.fatal) <==> !(i < s@.len() && s@[i as int] == '.'),
        r matches Ok((id, k)) ==> s@[i as int] == '.' && k == ident_end(s@, k - id.0@.len()) && id.0@ == s@.subrange(k
            - id.0@.len(), k as int) && id.0@.len() > 0 && !is_digit(id.0@[0]),
{
    if !at(s, i, '.') {
        return Err(soft(i));
    }
    let j = blank(s, i + 1)?;
    match identifier(s, j) {
        Ok((n, k)) => Ok((Identifier(n), k)),
        Err(e) => Err(cut(e)),
    }
}

/// One array dimension: `[]` or `[expr]`.
fn array_specifier_dimension(s: &[char], i: usize) -> (r: Result<(ArraySpecifierDimension, usize), PErr>)
    requires
        i <= s@.len(),
    ensures
        consumed(r, i, s@.len() as int),
        (r matches Err(e) && !e.fatal) <==> !(i < s@.len() && s@[i as int] == '['),
        r matches Ok((_, j)) ==> s@[j - 1] == ']',
    decreases s@.len() - i, 18nat,
{
    if !at(s, i, '[') {
        return Err(soft(i));
    }
    let j = blank(s, i + 1)?;
    if at(s, j, ']') {
        return Ok((ArraySpecifierDimension::Unsized, j + 1));
    }
    match cond_expr(s, j) {
        Ok((e, k)) => {
            let k2 = blank(s, k)?;
            if at(s, k2, ']') {
                Ok((ArraySpecifierDimension::ExplicitlySized(Box::new(e)), k2 + 1))
            } else {
                Err(hard(k2))
            }
        },
        Err(e) => Err(cut(e)),
    }
}

/// One or more array dimensions, each with the blanks around it.
fn array_specifier(s: &[char], i: usize) -> (r: Result<(ArraySpecifier, usize), PErr>)
    requires
        i <= s@.len(),
    ensures
        consumed(r, i, s@.len() as int),
    decreases s@.len() - i, 19nat,
{
    let j0 = blank(s, i)?;
    let (d, j1) = array_specifier_dimension(s, j0)?;
    let mut j = blank(s, j1)?;
    let mut dims: Vec<ArraySpecifierDimension> = Vec::new();
    dims.push(d);
    loop
        invariant
            i < j <= s@.len(),
        decreases s@.len() - j,
    {
        let k = blank(s, j)?;
        match array_specifier_dimension(s, k) {
            Ok((d, k1)) => {
                dims.push(d);
                j = blank(s, k1)?;
            },
            Err(e) => {
                if e.fatal {
                    return Err(e);
                }
                break;
            },
        }
    }
    Ok((ArraySpecifier { dimensions: NonEmpty(dims) }, j))
}

/// `[..]`, `.field`, `++` and `--` after an expression, as often as they come.
fn postfix_part(s: &[char], i: usize, e: Expr) -> (r: Result<(Expr, usize), PErr>)
    requires
        i <= s@.len(),
    ensures
        within(r, i, s@.len() as int),
    decreases s@.len() - i, 20nat,
{
    let mut e = e;
    let mut j = i;
    loop
        invariant
            i <= j <= s@.len(),
        decreases s@.len() - j,
    {
        let k = blank(s, j)?;
        match array_specifier(s, k) {
            Ok((a, k1)) => {
                e = Expr::Bracket(Box::new(e), a);
                j = k1;
                continue;
            },
            Err(er) => {
                if er.fatal {
                    return Err(er);
                }
            },
        }
        match dot_field_selection(s, k) {
            Ok((f, k1)) => {
                e = Expr::Dot(Box::new(e), f);
                j = k1;
                continue;
            },
            Err(er) => {
                if er.fatal {
                    return Err(er);
                }
            },
        }
        match tag(s, k, "++") {
            Some(k1) => {
                e = Expr::PostInc(Box::new(e));
                j = k1;
                continue;
            },
            None => {},
        }
        match tag(s, k, "--") {
            Some(k1) => {
                e = Expr::PostDec(Box::new(e));
                j = k1;
                continue;
            },
            None => {},
        }
        break;
    }
    Ok((e, j))
}

/// The arguments of a call, from the blank before `(` to `)`.
fn function_call_args(s: &[char], i: usize) -> (r: Result<(Vec<Expr>, usize), PErr>)
    requires
        i <= s@.len(),
    ensures
        consumed(r, i, s@.len() as int),
    decreases s@.len() - i, 17nat,
{
    let j = blank(s, i)?;
    if !at(s, j, '(') {
        return Err(soft(j));
    }
    let j = blank(s, j + 1)?;
    // `()` or `(void)`
    let a = blank(s, j)?;
    let a2 = match keyword(s, a, "void") {
        Some(x) => x,
        None => a,
    };
    let a3 = blank(s, a2)?;
    if at(s, a3, ')') {
        return Ok((Vec::new(), a3 + 1));
    }
    let mut args: Vec<Expr> = Vec::new();
    let mut k = match assignment_expr(s, j) {
        Ok((e, k1)) => {
            args.push(e);
            blank(s, k1)?
        },
        Err(e) => return Err(cut(e)),
    };
    while at(s, k, ',')
        invariant
            i < k <= s@.len(),
        decreases s@.len() - k,
    {
        let k3 = blank(s, k + 1)?;
        match assignment_expr(s, k3) {
            Ok((e, k4)) => {
                args.push(e);
                k = blank(s, k4)?;
            },
            Err(e) => return Err(cut(e)),
        }
    }
    if at(s, k, ')') {
        Ok((args, k + 1))
    } else {
        Err(hard(k))
    }
}

/// `name(args)`.
fn function_call_with_identifier(s: &[char], i: usize) -> (r: Result<(Expr, usize), PErr>)
    requires
        i <= s@.len(),
    ensures
        consumed(r, i, s@.len() as int),
    decreases s@.len() - i, 24nat,
{
    let (name, j) = identifier(s, i)?;
    let k = blank(s, j)?;
    if !at(s, k, '(') {
        return Err(soft(k));
    }
    let (args, m) = function_call_args(s, k)?;
    Ok((Expr::FunCall(FunIdentifier::Identifier(Identifier(name)), args), m))
}

/// A primary expression with its postfix parts, called if arguments follow.
fn function_call_with_expr(s: &[char], i: usize) -> (r: Result<(Expr, usize), PErr>)
    requires
        i <= s@.len(),
    ensures
        consumed(r, i, s@.len() as int),
    decreases s@.len() - i, 23nat,
{
    let (p, j) = primary_expr(s, i)?;
    let (pfe, k) = postfix_part(s, j, p)?;
    match function_call_args(s, k) {
        Ok((args, m)) => Ok((Expr::FunCall(FunIdentifier::Expr(Box::new(pfe)), args), m)),
        Err(e) => {
            if e.fatal {
                Err(e)
            } else {
                Ok((pfe, k))
            }
        },
    }
}

fn postfix_expr(s: &[char], i: usize) -> (r: Result<(Expr, usize), PErr>)
    requires
        i <= s@.len(),
    ensures
        consumed(r, i, s@.len() as int),
    decreases s@.len() - i, 25nat,
{
    let (e, j) = match function_call_with_identifier(s, i) {
        Ok(x) => x,
        Err(er) => {
            if er.fatal {
                return Err(er);
            }
            function_call_with_expr(s, i)?
        },
    };
    postfix_part(s, j, e)
}

fn unary_op(s: &[char], i: usize) -> (r: Option<(UnaryOp, usize)>)
    requires
        i <= s@.len(),
    ensures
        r matches Some(x) ==> i < x.1 <= s@.len(),
        r matches Some(x) ==> text_at(s@, i as int, spec_unary_str(x.0)) && x.1 == i + spec_unary_str(x.0).len(),
        r is None ==> forall|op: UnaryOp| !text_at(s@, i as int, #[trigger] spec_unary_str(op)),
{
    proof {
        reveal_strlit("+");
        reveal_strlit("-");
        reveal_strlit("!");
        reveal_strlit("++");
        reveal_strlit("--");
        reveal_strlit("~");
        lemma_text_at_char(s@, i as int, "+"@);
        lemma_text_at_char(s@, i as int, "-"@);
        lemma_text_at_char(s@, i as int, "!"@);
        lemma_text_at_char(s@, i as int, "~"@);
    }
    if let Some(j) = tag(s, i, "++") {
        return Some((UnaryOp::Inc, j));
    }
    if let Some(j) = tag(s, i, "--") {
        return Some((UnaryOp::Dec, j));
    }
    if at(s, i, '+') {
        return Some((UnaryOp::Add, i + 1));
    }
    if at(s, i, '-') {
        return Some((UnaryOp::Minus, i + 1));
    }
    if at(s, i, '!') {
        return Some((UnaryOp::Not, i + 1));
    }
    if at(s, i, '~') {
        return Some((UnaryOp::Complement, i + 1));
    }
    proof {
        assert forall|op: UnaryOp| !text_at(s@, i as int, #[trigger] spec_unary_str(op)) by {
            match op {
                UnaryOp::Inc => {},
                UnaryOp::Dec => {},
                UnaryOp::Add => {},
                UnaryOp::Minus => {},
                UnaryOp::Not => {},
                UnaryOp::Complement => {},
            }
        }
    }
    None
}

fn unary_expr(s: &[char], i: usize) -> (r: Result<(Expr, usize), PErr>)
    requires
        i <= s@.len(),
    ensures
        consumed(r, i, s@.len() as int),
    decreases s@.len() - i, 26nat,
{
    match unary_op(s, i) {
        Some((op, j)) => {
            let k = blank(s, j)?;
            match unary_expr(s, k) {
                Ok((e, m)) => return Ok((Expr::Unary(op, Box::new(e)), m)),
                Err(er) => {
                    if er.fatal {
                        return Err(er);
                    }
                },
            }
        },
        None => {},
    }
    postfix_expr(s, i)
}

/// The operator of binary level `level` at `i` (0: `* / %`, 1: `+ -`,
/// 2: `<< >>`, 3: `<= >= < >`, 4: `== !=`, 5: `&`, 6: `^`, 7: `|`, 8: `&&`,
/// 9: `^^`, 10: `||`).
fn binary_op_at(s: &[char], i: usize, level: u8) -> (r: Option<(BinaryOp, usize)>)
    requires
        i <= s@.len(),
    ensures
        r matches Some(x) ==> i < x.1 <= s@.len(),
        r matches Some(x) ==> text_at(s@, i as int, spec_binary_str(x.0)) && x.1 == i + spec_binary_str(x.0).len()
            && spec_binop_prec(x.0) == level + 4,
        r is None ==> forall|op: BinaryOp| spec_binop_prec(op) == level + 4 ==> !text_at(s@, i as int, #[trigger] spec_binary_str(op)),
{
    let _n = s.len();
    proof {
        reveal_strlit("*");
        reveal_strlit("<<");
        reveal_strlit(">>");
        reveal_strlit("<=");
        reveal_strlit(">=");
        reveal_strlit("==");
        reveal_strlit("!=");
        reveal_strlit("&&");
        reveal_strlit("^^");
        reveal_strlit("||");
        reveal_strlit("/");
        reveal_strlit("%");
        reveal_strlit("+");
        reveal_strlit("-");
        reveal_strlit("<");
        reveal_strlit(">");
        reveal_strlit("&");
        reveal_strlit("^");
        reveal_strlit("|");
        lemma_text_at_char(s@, i as int, "*"@);
        lemma_text_at_char(s@, i as int, "/"@);
        lemma_text_at_char(s@, i as int, "%"@);
        lemma_text_at_char(s@, i as int, "+"@);
        lemma_text_at_char(s@, i as int, "-"@);
        lemma_text_at_char(s@, i as int, "<"@);
        lemma_text_at_char(s@, i as int, ">"@);
        lemma_text_at_char(s@, i as int, "&"@);
        lemma_text_at_char(s@, i as int, "^"@);
        lemma_text_at_char(s@, i as int, "|"@);
    }
    if level == 0 {
        if at(s, i, '*') {
            return Some((BinaryOp::Mult, i + 1));
        }
        if at(s, i, '/') {
            return Some((BinaryOp::Div, i + 1));
        }
        if at(s, i, '%') {
            return Some((BinaryOp::Mod, i + 1));
        }
    } else if level == 1 {
        if at(s, i, '+') {
            return Some((BinaryOp::Add, i + 1));
        }
        if at(s, i, '-') {
            return Some((BinaryOp::Sub, i + 1));
        }
    } else if level == 2 {
        if let Some(j) = tag(s, i, "<<") {
            return Some((BinaryOp::LShift, j));
        }
        if let Some(j) = tag(s, i, ">>") {
            return Some((BinaryOp::RShift, j));
        }
    } else if level == 3 {
        if let Some(j) = tag(s, i, "<=") {
            return Some((BinaryOp::LTE, j));
        }
        if let Some(j) = tag(s, i, ">=") {
            return Some((BinaryOp::GTE, j));
        }
        if at(s, i, '<') {
            return Some((BinaryOp::LT, i + 1));
        }
        if at(s, i, '>') {
            return Some((BinaryOp::GT, i + 1));
        }
    } else if level == 4 {
        if let Some(j) = tag(s, i, "==") {
            return Some((BinaryOp::Equal, j));
        }
        if let Some(j) = tag(s, i, "!=") {
            return Some((BinaryOp::NonEqual, j));
        }
    } else if level == 5 {
        if at(s, i, '&') {
            return Some((BinaryOp::BitAnd, i + 1));
        }
    } else if level == 6 {
        if at(s, i, '^') {
            return Some((BinaryOp::BitXor, i + 1));
        }
    } else if level == 7 {
        if at(s, i, '|') {
            return Some((BinaryOp::BitOr, i + 1));
        }
    } else if level == 8 {
        if let Some(j) = tag(s, i, "&&") {
            return Some((BinaryOp::And, j));
        }
    } else if level == 9 {
        if let Some(j) = tag(s, i, "^^") {
            return Some((BinaryOp::Xor, j));
        }
    } else if level == 10 {
        if let Some(j) = tag(s, i, "||") {
            return Some((BinaryOp::Or, j));
        }
    }
    proof {
        assert forall|op: BinaryOp| spec_binop_prec(op) == level + 4 implies !text_at(s@, i as int, #[trigger] spec_binary_str(op)) by {
            match op {
                BinaryOp::Or => {},
                BinaryOp::Xor => {},
                BinaryOp::And => {},
                BinaryOp::BitOr => {},
                BinaryOp::BitXor => {},
                BinaryOp::BitAnd => {},
                BinaryOp::Equal => {},
                BinaryOp::NonEqual => {},
                BinaryOp::LT => {},
                BinaryOp::GT => {},
                BinaryOp::LTE => {},
                BinaryOp::GTE => {},
                BinaryOp::LShift => {},
                BinaryOp::RShift => {},
                BinaryOp::Add => {},
                BinaryOp::Sub => {},
                BinaryOp::Mult => {},
                BinaryOp::Div => {},
                BinaryOp::Mod => {},
            }
        }
    }
    None
}

/// Binary expressions of `level` and tighter. `&`, `^` and `|` nest to the
/// right (`a|(b|c)`), the other levels fold to the left.
fn binary_expr(s: &[char], i: usize, level: u8) -> (r: Result<(Expr, usize), PErr>)
    requires
        i <= s@.len(),
        level <= 10,
    ensures
        consumed(r, i, s@.len() as int),
    decreases s@.len() - i, 27 + level,
{
    let (mut a, mut j) = if level == 0 {
        unary_expr(s, i)?
    } else {
        binary_expr(s, i, level - 1)?
    };
    loop
        invariant
            i < j <= s@.len(),
            level <= 10,
        decreases s@.len() - j,
    {
        let k = blank(s, j)?;
        match binary_op_at(s, k, level) {
            None => break,
            Some((op, k1)) => {
                let k2 = blank(s, k1)?;
                let rhs = if 5 <= level && level <= 7 {
                    binary_expr(s, k2, level)
                } else if level == 0 {
                    unary_expr(s, k2)
                } else {
                    binary_expr(s, k2, level - 1)
                };
                match rhs {
                    Ok((b, k3)) => {
                        a = Expr::Binary(op, Box::new(a), Box::new(b));
                        j = k3;
                    },
                    Err(e) => {
                        if e.fatal {
                            return Err(e);
                        }
                        break;
                    },
                }
            },
        }
    }
    Ok((a, j))
}

/// `a ? b : c`, left-folded as the grammar builds it.
fn cond_expr(s: &[char], i: usize) -> (r: Result<(Expr, usize), PErr>)
    requires
        i <= s@.len(),
    ensures
        consumed(r, i, s@.len() as int),
    decreases s@.len() - i, 38nat,
{
    let (mut a, mut j) = binary_expr(s, i, 10)?;
    loop
        invariant
            i < j <= s@.len(),
        decreases s@.len() - j,
    {
        let k = blank(s, j)?;
        if !at(s, k, '?') {
            break;
        }
        let k1 = blank(s, k + 1)?;
        let (b, k2) = match expr(s, k1) {
            Ok(x) => x,
            Err(e) => return Err(cut(e)),
        };
        let k3 = blank(s, k2)?;
        if !at(s, k3, ':') {
            return Err(hard(k3));
        }
        let k4 = blank(s, k3 + 1)?;
        let (c, k5) = match assignment_expr(s, k4) {
            Ok(x) => x,
            Err(e) => return Err(cut(e)),
        };
        a = Expr::Ternary(Box::new(a), Box::new(b), Box::new(c));
        j = k5;
    }
    Ok((a, j))
}

fn assignment_op(s: &[char], i: usize) -> (r: Option<(AssignmentOp, usize)>)
    requires
        i <= s@.len(),
    ensures
        r matches Some(x) ==> i < x.1 <= s@.len(),
        r matches Some(x) ==> text_at(s@, i as int, spec_assign_str(x.0)) && x.1 == i + spec_assign_str(x.0).len(),
        r is None ==> forall|op: AssignmentOp| !text_at(s@, i as int, #[trigger] spec_assign_str(op)),
{
    proof {
        reveal_strlit("=");
        reveal_strlit("*=");
        reveal_strlit("/=");
        reveal_strlit("%=");
        reveal_strlit("+=");
        reveal_strlit("-=");
        reveal_strlit("<<=");
        reveal_strlit(">>=");
        reveal_strlit("&=");
        reveal_strlit("^=");
        reveal_strlit("|=");
        lemma_text_at_char(s@, i as int, "="@);
    }
    if at(s, i, '=') {
        return Some((AssignmentOp::Equal, i + 1));
    }
    if let Some(j) = tag(s, i, "*=") {
        return Some((AssignmentOp::Mult, j));
    }
    if let Some(j) = tag(s, i, "/=") {
        return Some((AssignmentOp::Div, j));
    }
    if let Some(j) = tag(s, i, "%=") {
        return Some((AssignmentOp::Mod, j));
    }
    if let Some(j) = tag(s, i, "+=") {
        return Some((AssignmentOp::Add, j));
    }
    if let Some(j) = tag(s, i, "-=") {
        return Some((AssignmentOp::Sub, j));
    }
    if let Some(j) = tag(s, i, "<<=") {
        return Some((AssignmentOp::LShift, j));
    }
    if let Some(j) = tag(s, i, ">>=") {
        return Some((AssignmentOp::RShift, j));
    }
    if let Some(j) = tag(s, i, "&=") {
        return Some((AssignmentOp::And, j));
    }
    if let Some(j) = tag(s, i, "^=") {
        return Some((AssignmentOp::Xor, j));
    }
    if let Some(j) = tag(s, i, "|=") {
        return Some((AssignmentOp::Or, j));
    }
    proof {
        assert forall|op: AssignmentOp| !text_at(s@, i as int, #[trigger] spec_assign_str(op)) by {
            match op {
                AssignmentOp::Equal => {},
                AssignmentOp::Mult => {},
                AssignmentOp::Div => {},
                AssignmentOp::Mod => {},
                AssignmentOp::Add => {},
                AssignmentOp::Sub => {},
                AssignmentOp::LShift => {},
                AssignmentOp::RShift => {},
                AssignmentOp::And => {},
                AssignmentOp::Xor => {},
                AssignmentOp::Or => {},
            }
        }
    }
    None
}

fn assignment_expr(s: &[char], i: usize) -> (r: Result<(Expr, usize), PErr>)
    requires
        i <= s@.len(),
    ensures
        consumed(r, i, s@.len() as int),
    decreases s@.len() - i, 39nat,
{
    match unary_expr(s, i) {
        Ok((u, j)) => {
            let j1 = blank(s, j)?;
            match assignment_op(s, j1) {
                Some((op, j2)) => {
                    let j3 = blank(s, j2)?;
                    match assignment_expr(s, j3) {
                        Ok((v, j4)) => return Ok((Expr::Assignment(Box::new(u), op, Box::new(v)), j4)),
                        Err(e) => {
                            if e.fatal {
                                return Err(e);
                            }
                        },
                    }
                },
                None => {},
            }
        },
        Err(e) => {
            if e.fatal {
                return Err(e);
            }
        },
    }
    cond_expr(s, i)
}

/// An expression; a `,` right after it makes a comma expression.
fn expr(s: &[char], i: usize) -> (r: Result<(Expr, usize), PErr>)
    requires
        i <= s@.len(),
    ensures
        consumed(r, i, s@.len() as int),
    decreases s@.len() - i, 40nat,
{
    let (first, j) = assignment_expr(s, i)?;
    if at(s, j, ',') {
        let k = blank(s, j + 1)?;
        match expr(s, k) {
            Ok((next, m)) => return Ok((Expr::Comma(Box::new(first), Box::new(next)), m)),
            Err(e) => {
                if e.fatal {
                    return Err(e);
                }
            },
        }
    }
    Ok((first, j))
}

// ------------------------------------------------------ types and qualifiers

/// A builtin type keyword (`void`, `vec3`, `sampler2D`, ...).
fn type_specifier_non_struct(s: &[char], i: usize) -> (r: Result<(TypeSpecifierNonArray, usize), PErr>)
    requires
        i <= s@.len(),
    ensures
        consumed(r, i, s@.len() as int),
        r is Ok <== i < s@.len() && is_ident_char(s@[i as int]) && !is_digit(s@[i as int]) && (is_type_keyword(
            s@.subrange(i as int, ident_end(s@, i as int)),
        ) || type_alias(s@.subrange(i as int, ident_end(s@, i as int))) is Some),
        r matches Ok((t, j)) ==> j == ident_end(s@, i as int) && !(t is Struct || t is TypeName) && (spec_type_keyword(t)
            == s@.subrange(i as int, j as int) || type_alias(s@.subrange(i as int, j as int)) == Some(t)),
        r matches Err(e) ==> !e.fatal,
{
    match identifier_end(s, i) {
        Some(j) => match type_from_name(s, i, j) {
            Some(t) => Ok((t, j)),
            None => Err(soft(j)),
        },
        None => Err(soft(i)),
    }
}

fn arrayed_identifier(s: &[char], i: usize) -> (r: Result<(ArrayedIdentifier, usize), PErr>)
    requires
        i <= s@.len(),
    ensures
        consumed(r, i, s@.len() as int),
        (r matches Err(e) && !e.fatal) <==> !(i < s@.len() && is_ident_char(s@[i as int]) && !is_digit(s@[i as int])),
        r matches Ok((a, m)) ==> a.ident.0@ == s@.subrange(i as int, ident_end(s@, i as int)) && (a.array_spec is None ==> m == ident_end(s@, i as int)),
{
    let (name, j) = identifier(s, i)?;
    let k = blank(s, j)?;
    match array_specifier(s, k) {
        Ok((a, m)) => Ok((ArrayedIdentifier { ident: Identifier(name), array_spec: Some(a) }, m)),
        Err(e) => {
            if e.fatal {
                Err(e)
            } else {
                Ok((ArrayedIdentifier { ident: Identifier(name), array_spec: None }, j))
            }
        },
    }
}

/// `type name, name[2];` inside a struct or block.
fn struct_field_specifier(s: &[char], i: usize) -> (r: Result<(StructFieldSpecifier, usize), PErr>)
    requires
        i <= s@.len(),
    ensures
        consumed(r, i, s@.len() as int),
    decreases s@.len() - i, 53nat,
{
    let (qualifier, j) = match type_qualifier(s, i) {
        Ok((q, j)) => (Some(q), blank(s, j)?),
        Err(e) => {
            if e.fatal {
                return Err(e);
            }
            (None, i)
        },
    };
    let (ty, k) = type_specifier(s, j)?;
    let mut m = blank(s, k)?;
    let mut identifiers: Vec<ArrayedIdentifier> = Vec::new();
    match arrayed_identifier(s, m) {
        Ok((a, m1)) => {
            identifiers.push(a);
            m = match blank(s, m1) {
                Ok(x) => x,
                Err(e) => return Err(cut(e)),
            };
            loop
                invariant
                    i < m <= s@.len(),
                decreases s@.len() - m,
            {
                if !at(s, m, ',') {
                    break;
                }
                let m2 = match blank(s, m + 1) {
                    Ok(x) => x,
                    Err(e) => return Err(cut(e)),
                };
                match arrayed_identifier(s, m2) {
                    Ok((a, m3)) => {
                        identifiers.push(a);
                        m = match blank(s, m3) {
                            Ok(x) => x,
                            Err(e) => return Err(cut(e)),
                        };
                    },
                    Err(e) => {
                        if e.fatal {
                            return Err(e);
                        }
                        break;
                    },
                }
            }
        },
        Err(e) => {
            if e.fatal {
                return Err(e);
            }
        },
    }
    if at(s, m, ';') {
        Ok((StructFieldSpecifier { qualifier, ty, identifiers: NonEmpty(identifiers) }, m + 1))
    } else {
        Err(hard(m))
    }
}

/// `struct Name { fields }`.
fn struct_specifier(s: &[char], i: usize) -> (r: Result<(StructSpecifier, usize), PErr>)
    requires
        i <= s@.len(),
    ensures
        consumed(r, i, s@.len() as int),
        (r matches Err(e) && !e.fatal) <==> !kw_at(s@, i as int, "struct"@),
        r matches Ok((_, j)) ==> s@[j - 1] == '}',
    decreases s@.len() - i, 50nat,
{
    let j = match keyword(s, i, "struct") {
        Some(j) => blank(s, j)?,
        None => return Err(soft(i)),
    };
    let (name, k) = match identifier(s, j) {
        Ok((n, k)) => (Some(TypeName(n)), blank(s, k)?),
        Err(_) => (None, j),
    };
    if !at(s, k, '{') {
        return Err(hard(k));
    }
    let mut m = match blank(s, k + 1) {
        Ok(x) => x,
        Err(e) => return Err(cut(e)),
    };
    let mut fields: Vec<StructFieldSpecifier> = Vec::new();
    let mut first = true;
    loop
        invariant
            i < m <= s@.len(),
            kw_at(s@, i as int, "struct"@),
        decreases s@.len() - m,
    {
        match struct_field_specifier(s, m) {
            Ok((f, m1)) => {
                fields.push(f);
                m = match blank(s, m1) {
                    Ok(x) => x,
                    Err(e) => return Err(cut(e)),
                };
                first = false;
            },
            Err(e) => {
                if e.fatal || first {
                    return Err(cut(e));
                }
                break;
            },
        }
    }
    if at(s, m, '}') {
        Ok((StructSpecifier { name, fields: NonEmpty(fields) }, m + 1))
    } else {
        Err(hard(m))
    }
}

fn type_specifier_non_array(s: &[char], i: usize) -> (r: Result<(TypeSpecifierNonArray, usize), PErr>)
    requires
        i <= s@.len(),
    ensures
        consumed(r, i, s@.len() as int),
    decreases s@.len() - i, 51nat,
{
    match type_specifier_non_struct(s, i) {
        Ok(x) => return Ok(x),
        Err(e) => {
            if e.fatal {
                return Err(e);
            }
        },
    }
    match struct_specifier(s, i) {
        Ok((st, j)) => return Ok((TypeSpecifierNonArray::Struct(st), j)),
        Err(e) => {
            if e.fatal {
                return Err(e);
            }
        },
    }
    let (n, j) = identifier(s, i)?;
    Ok((TypeSpecifierNonArray::TypeName(TypeName(n)), j))
}

fn type_specifier(s: &[char], i: usize) -> (r: Result<(TypeSpecifier, usize), PErr>)
    requires
        i <= s@.len(),
    ensures
        consumed(r, i, s@.len() as int),
    decreases s@.len() - i, 52nat,
{
    let (ty, j) = type_specifier_non_array(s, i)?;
    let k = blank(s, j)?;
    match array_specifier(s, k) {
        Ok((a, m)) => Ok((TypeSpecifier { ty, array_specifier: Some(a) }, m)),
        Err(e) => {
            if e.fatal {
                Err(e)
            } else {
                Ok((TypeSpecifier { ty, array_specifier: None }, j))
            }
        },
    }
}

/// `subroutine` or `subroutine(T1, T2)`.
fn storage_qualifier_subroutine(s: &[char], i: usize) -> (r: Result<(StorageQualifier, usize), PErr>)
    requires
        i <= s@.len(),
    ensures
        consumed(r, i, s@.len() as int),
        r matches Ok((q, _)) ==> q is Subroutine,
        r is Ok ==> kw_at(s@, i as int, "subroutine"@),
        (r matches Err(e) && !e.fatal) <==> !kw_at(s@, i as int, "subroutine"@),
{
    let j = match keyword(s, i, "subroutine") {
        Some(j) => j,
        None => return Err(soft(i)),
    };
    let k = blank(s, j)?;
    if at(s, k, '(') {
        let mut m = blank(s, k + 1)?;
        let mut names: Vec<TypeName> = Vec::new();
        match identifier(s, m) {
            Ok((n, m1)) => {
                names.push(TypeName(n));
                m = match blank(s, m1) {
                    Ok(x) => x,
                    Err(e) => return Err(cut(e)),
                };
                loop
                    invariant
                        i < m <= s@.len(),
                        kw_at(s@, i as int, "subroutine"@),
                    decreases s@.len() - m,
                {
                    if !at(s, m, ',') {
                        break;
                    }
                    let m2 = match blank(s, m + 1) {
                        Ok(x) => x,
                        Err(e) => return Err(cut(e)),
                    };
                    match identifier(s, m2) {
                        Ok((n, m3)) => {
                            names.push(TypeName(n));
                            m = match blank(s, m3) {
                                Ok(x) => x,
                                Err(e) => return Err(cut(e)),
                            };
                        },
                        Err(_) => break,
                    }
                }
            },
            Err(_) => {},
        }
        let m = match blank(s, m) {
            Ok(x) => x,
            Err(e) => return Err(cut(e)),
        };
        if at(s, m, ')') {
            return Ok((StorageQualifier::Subroutine(names), m + 1));
        }
        return Err(hard(m));
    }
    Ok((StorageQualifier::Subroutine(Vec::new()), j))
}

fn storage_qualifier(s: &[char], i: usize) -> (r: Result<(StorageQualifier, usize), PErr>)
    requires
        i <= s@.len(),
    ensures
        consumed(r, i, s@.len() as int),
        r matches Ok((q, j)) ==> kw_at(s@, i as int, spec_storage_word(q)) && (!(q is Subroutine) ==> j == i
            + spec_storage_word(q).len()),
        (r matches Err(e) && !e.fatal) ==> forall|q: StorageQualifier| !kw_at(s@, i as int, #[trigger] spec_storage_word(q)),
        (exists|q: StorageQualifier| kw_at(s@, i as int, #[trigger] spec_storage_word(q))) ==> !(r matches Err(e) && !e.fatal),
{
    if let Some(j) = keyword(s, i, "const") {
        return Ok((StorageQualifier::Const, j));
    }
    if let Some(j) = keyword(s, i, "inout") {
        return Ok((StorageQualifier::InOut, j));
    }
    if let Some(j) = keyword(s, i, "in") {
        return Ok((StorageQualifier::In, j));
    }
    if let Some(j) = keyword(s, i, "out") {
        return Ok((StorageQualifier::Out, j));
    }
    if let Some(j) = keyword(s, i, "centroid") {
        return Ok((StorageQualifier::Centroid, j));
    }
    if let Some(j) = keyword(s, i, "patch") {
        return Ok((StorageQualifier::Patch, j));
    }
    if let Some(j) = keyword(s, i, "sample") {
        return Ok((StorageQualifier::Sample, j));
    }
    if let Some(j) = keyword(s, i, "uniform") {
        return Ok((StorageQualifier::Uniform, j));
    }
    if let Some(j) = keyword(s, i, "attribute") {
        return Ok((StorageQualifier::Attribute, j));
    }
    if let Some(j) = keyword(s, i, "varying") {
        return Ok((StorageQualifier::Varying, j));
    }
    if let Some(j) = keyword(s, i, "buffer") {
        return Ok((StorageQualifier::Buffer, j));
    }
    if let Some(j) = keyword(s, i, "shared") {
        return Ok((StorageQualifier::Shared, j));
    }
    if let Some(j) = keyword(s, i, "coherent") {
        return Ok((StorageQualifier::Coherent, j));
    }
    if let Some(j) = keyword(s, i, "volatile") {
        return Ok((StorageQualifier::Volatile, j));
    }
    if let Some(j) = keyword(s, i, "restrict") {
        return Ok((StorageQualifier::Restrict, j));
    }
    if let Some(j) = keyword(s, i, "readonly") {
        return Ok((StorageQualifier::ReadOnly, j));
    }
    if let Some(j) = keyword(s, i, "writeonly") {
        return Ok((StorageQualifier::WriteOnly, j));
    }
    let r = storage_qualifier_subroutine(s, i);
    proof {
        if !kw_at(s@, i as int, "subroutine"@) {
            assert forall|q: StorageQualifier| !kw_at(s@, i as int, #[trigger] spec_storage_word(q)) by {
                match q {
                    StorageQualifier::Const => {},
                    StorageQualifier::InOut => {},
                    StorageQualifier::In => {},
                    StorageQualifier::Out => {},
                    StorageQualifier::Centroid => {},
                    StorageQualifier::Patch => {},
                    StorageQualifier::Sample => {},
                    StorageQualifier::Uniform => {},
                    StorageQualifier::Attribute => {},
                    StorageQualifier::Varying => {},
                    StorageQualifier::Buffer => {},
                    StorageQualifier::Shared => {},
                    StorageQualifier::Coherent => {},
                    StorageQualifier::Volatile => {},
                    StorageQualifier::Restrict => {},
                    StorageQualifier::ReadOnly => {},
                    StorageQualifier::WriteOnly => {},
                    StorageQualifier::Subroutine(_) => {},
                }
            }
        } else {
            assert(kw_at(s@, i as int, spec_storage_word(StorageQualifier::Subroutine(vstd::pervasive::arbitrary()))));
        }
    }
    r
}

fn layout_qualifier_spec(s: &[char], i: usize) -> (r: Result<(LayoutQualifierSpec, usize), PErr>)
    requires
        i <= s@.len(),
    ensures
        consumed(r, i, s@.len() as int),
{
    if let Some(j) = keyword(s, i, "shared") {
        return Ok((LayoutQualifierSpec::Shared, j));
    }
    let (name, j) = identifier(s, i)?;
    let k = blank(s, j)?;
    if at(s, k, '=') {
        let m = blank(s, k + 1)?;
        match cond_expr(s, m) {
            Ok((e, m1)) => return Ok((LayoutQualifierSpec::Identifier(Identifier(name), Some(Box::new(e))), m1)),
            Err(e) => {
                if e.fatal {
                    return Err(e);
                }
            },
        }
    }
    Ok((LayoutQualifierSpec::Identifier(Identifier(name), None), j))
}

/// `layout(id, id = value, shared)`.
fn layout_qualifier(s: &[char], i: usize) -> (r: Result<(LayoutQualifier, usize), PErr>)
    requires
        i <= s@.len(),
    ensures
        consumed(r, i, s@.len() as int),
        !kw_at(s@, i as int, "layout"@) ==> (r matches Err(e) && !e.fatal),
        r matches Ok((_, j)) ==> kw_at(s@, i as int, "layout"@) && s@[j - 1] == ')',
{
    let j = match keyword(s, i, "layout") {
        Some(j) => blank(s, j)?,
        None => return Err(soft(i)),
    };
    if !at(s, j, '(') {
        return Err(soft(j));
    }
    let mut m = blank(s, j + 1)?;
    let mut ids: Vec<LayoutQualifierSpec> = Vec::new();
    match layout_qualifier_spec(s, m) {
        Ok((q, m1)) => {
            ids.push(q);
            m = match blank(s, m1) {
                Ok(x) => x,
                Err(e) => return Err(cut(e)),
            };
            loop
                invariant
                    i < m <= s@.len(),
                    kw_at(s@, i as int, "layout"@),
                decreases s@.len() - m,
            {
                if !at(s, m, ',') {
                    break;
                }
                let m2 = match blank(s, m + 1) {
                    Ok(x) => x,
                    Err(e) => return Err(cut(e)),
                };
                match layout_qualifier_spec(s, m2) {
                    Ok((q, m3)) => {
                        ids.push(q);
                        m = match blank(s, m3) {
                            Ok(x) => x,
                            Err(e) => return Err(cut(e)),
                        };
                    },
                    Err(e) => {
                        if e.fatal {
                            return Err(e);
                        }
                        break;
                    },
                }
            }
        },
        Err(e) => {
            if e.fatal {
                return Err(e);
            }
        },
    }
    if at(s, m, ')') {
        Ok((LayoutQualifier { ids: NonEmpty(ids) }, m + 1))
    } else {
        Err(hard(m))
    }
}

fn precision_qualifier(s: &[char], i: usize) -> (r: Option<(PrecisionQualifier, usize)>)
    requires
        i <= s@.len(),
    ensures
        r matches Some(x) ==> i < x.1 <= s@.len(),
        r matches Some(x) ==> word_at(s@, i as int, spec_precision_str(x.0)) && x.1 == i + spec_precision_str(x.0).len(),
        r is None ==> forall|q: PrecisionQualifier| !word_at(s@, i as int, #[trigger] spec_precision_str(q)),
{
    if let Some(j) = keyword(s, i, "highp") {
        return Some((PrecisionQualifier::High, j));
    }
    if let Some(j) = keyword(s, i, "mediump") {
        return Some((PrecisionQualifier::Medium, j));
    }
    if let Some(j) = keyword(s, i, "lowp") {
        return Some((PrecisionQualifier::Low, j));
    }
    proof {
        assert forall|q: PrecisionQualifier| !word_at(s@, i as int, #[trigger] spec_precision_str(q)) by {
            match q {
                PrecisionQualifier::High => {},
                PrecisionQualifier::Medium => {},
                PrecisionQualifier::Low => {},
            }
        }
    }
    None
}

fn type_qualifier_spec(s: &[char], i: usize) -> (r: Result<(TypeQualifierSpec, usize), PErr>)
    requires
        i <= s@.len(),
    ensures
        consumed(r, i, s@.len() as int),
{
    match storage_qualifier(s, i) {
        Ok((q, j)) => return Ok((TypeQualifierSpec::Storage(q), j)),
        Err(e) => {
            if e.fatal {
                return Err(e);
            }
        },
    }
    match layout_qualifier(s, i) {
        Ok((q, j)) => return Ok((TypeQualifierSpec::Layout(q), j)),
        Err(e) => {
            if e.fatal {
                return Err(e);
            }
        },
    }
    if let Some((p, j)) = precision_qualifier(s, i) {
        return Ok((TypeQualifierSpec::Precision(p), j));
    }
    if let Some(j) = keyword(s, i, "smooth") {
        return Ok((TypeQualifierSpec::Interpolation(InterpolationQualifier::Smooth), j));
    }
    if let Some(j) = keyword(s, i, "flat") {
        return Ok((TypeQualifierSpec::Interpolation(InterpolationQualifier::Flat), j));
    }
    if let Some(j) = keyword(s, i, "noperspective") {
        return Ok((TypeQualifierSpec::Interpolation(InterpolationQualifier::NoPerspective), j));
    }
    if let Some(j) = keyword(s, i, "invariant") {
        return Ok((TypeQualifierSpec::Invariant, j));
    }
    if let Some(j) = keyword(s, i, "precise") {
        return Ok((TypeQualifierSpec::Precise, j));
    }
    Err(soft(i))
}

/// One or more qualifiers, each with the blank after it.
fn type_qualifier(s: &[char], i: usize) -> (r: Result<(TypeQualifier, usize), PErr>)
    requires
        i <= s@.len(),
    ensures
        consumed(r, i, s@.len() as int),
{
    let (q, j) = type_qualifier_spec(s, i)?;
    let mut m = blank(s, j)?;
    let mut qs: Vec<TypeQualifierSpec> = Vec::new();
    qs.push(q);
    loop
        invariant
            i < m <= s@.len(),
        decreases s@.len() - m,
    {
        match type_qualifier_spec(s, m) {
            Ok((q, m1)) => {
                qs.push(q);
                m = blank(s, m1)?;
            },
            Err(e) => {
                if e.fatal {
                    return Err(e);
                }
                break;
            },
        }
    }
    Ok((TypeQualifier { qualifiers: NonEmpty(qs) }, m))
}

fn fully_specified_type(s: &[char], i: usize) -> (r: Result<(FullySpecifiedType, usize), PErr>)
    requires
        i <= s@.len(),
    ensures
        consumed(r, i, s@.len() as int),
{
    let (qualifier, j) = match type_qualifier(s, i) {
        Ok((q, j)) => (Some(q), j),
        Err(e) => {
            if e.fatal {
                return Err(e);
            }
            (None, i)
        },
    };
    let (ty, k) = type_specifier(s, j)?;
    Ok((FullySpecifiedType { qualifier, ty }, k))
}

// --------------------------------------------------------------- declarations

/// An initializer: an assignment expression or a braced list.
fn initializer(s: &[char], i: usize) -> (r: Result<(Initializer, usize), PErr>)
    requires
        i <= s@.len(),
    ensures
        consumed(r, i, s@.len() as int),
    decreases s@.len() - i,
{
    match assignment_expr(s, i) {
        Ok((e, j)) => return Ok((Initializer::Simple(Box::new(e)), j)),
        Err(e) => {
            if e.fatal {
                return Err(e);
            }
        },
    }
    if !at(s, i, '{') {
        return Err(soft(i));
    }
    let j = match blank(s, i + 1) {
        Ok(x) => x,
        Err(e) => return Err(e),
    };
    let mut items: Vec<Initializer> = Vec::new();
    let mut m = j;
    match initializer(s, j) {
        Ok((it, j1)) => {
            items.push(it);
            m = j1;
            loop
                invariant
                    i < m <= s@.len(),
                decreases s@.len() - m,
            {
                let k = match blank(s, m) {
                    Ok(x) => x,
                    Err(e) => return Err(cut(e)),
                };
                if !at(s, k, ',') {
                    break;
                }
                let k1 = match blank(s, k + 1) {
                    Ok(x) => x,
                    Err(e) => return Err(cut(e)),
                };
                match initializer(s, k1) {
                    Ok((it, k2)) => {
                        items.push(it);
                        m = k2;
                    },
                    Err(e) => {
                        if e.fatal {
                            return Err(e);
                        }
                        break;
                    },
                }
            }
        },
        Err(e) => {
            if e.fatal {
                return Err(e);
            }
        },
    }
    let mut k = match blank(s, m) {
        Ok(x) => x,
        Err(e) => return Err(cut(e)),
    };
    if at(s, k, ',') {
        k = match blank(s, k + 1) {
            Ok(x) => x,
            Err(e) => return Err(cut(e)),
        };
    }
    if at(s, k, '}') {
        Ok((Initializer::List(NonEmpty(items)), k + 1))
    } else {
        Err(hard(k))
    }
}

/// `type name(`: the header of a function prototype, up to and with `(`.
fn function_header(s: &[char], i: usize) -> (r: Result<((FullySpecifiedType, Identifier), usize), PErr>)
    requires
        i <= s@.len(),
    ensures
        consumed(r, i, s@.len() as int),
{
    let (ty, j) = fully_specified_type(s, i)?;
    let k = blank(s, j)?;
    let (name, m) = identifier(s, k)?;
    let m1 = blank(s, m)?;
    if at(s, m1, '(') {
        Ok(((ty, Identifier(name)), m1 + 1))
    } else {
        Err(soft(m1))
    }
}

fn function_parameter_declaration(s: &[char], i: usize) -> (r: Result<(FunctionParameterDeclaration, usize), PErr>)
    requires
        i <= s@.len(),
    ensures
        consumed(r, i, s@.len() as int),
{
    // named: qualifiers, type, name, dimensions
    let (q, j) = match type_qualifier(s, i) {
        Ok((q, j)) => (Some(q), blank(s, j)?),
        Err(e) => {
            if e.fatal {
                return Err(e);
            }
            (None, i)
        },
    };
    let (ty, k) = type_specifier(s, j)?;
    let k1 = blank(s, k)?;
    match identifier(s, k1) {
        Ok((name, m)) => {
            let m1 = blank(s, m)?;
            match array_specifier(s, m1) {
                Ok((a, m2)) => {
                    return Ok((
                        FunctionParameterDeclaration::Named(
                            q,
                            FunctionParameterDeclarator {
                                ty,
                                ident: ArrayedIdentifier { ident: Identifier(name), array_spec: Some(a) },
                            },
                        ),
                        m2,
                    ));
                },
                Err(e) => {
                    if e.fatal {
                        return Err(e);
                    }
                    return Ok((
                        FunctionParameterDeclaration::Named(
                            q,
                            FunctionParameterDeclarator {
                                ty,
                                ident: ArrayedIdentifier { ident: Identifier(name), array_spec: None },
                            },
                        ),
                        m1,
                    ));
                },
            }
        },
        Err(_) => {},
    }
    // unnamed: qualifiers and type
    Ok((FunctionParameterDeclaration::Unnamed(q, ty), k))
}

/// A function prototype up to and with its `)`.
fn function_prototype(s: &[char], i: usize) -> (r: Result<(FunctionPrototype, usize), PErr>)
    requires
        i <= s@.len(),
    ensures
        consumed(r, i, s@.len() as int),
{
    let ((ty, name), j) = function_header(s, i)?;
    let mut parameters: Vec<FunctionParameterDeclaration> = Vec::new();
    let mut m = j;
    let b = blank(s, j)?;
    match function_parameter_declaration(s, b) {
        Ok((p, b1)) => {
            parameters.push(p);
            m = b1;
            loop
                invariant
                    i < m <= s@.len(),
                decreases s@.len() - m,
            {
                let k = blank(s, m)?;
                if !at(s, k, ',') {
                    break;
                }
                let k1 = blank(s, k + 1)?;
                match function_parameter_declaration(s, k1) {
                    Ok((p, k2)) => {
                        parameters.push(p);
                        m = k2;
                    },
                    Err(e) => {
                        if e.fatal {
                            return Err(e);
                        }
                        break;
                    },
                }
            }
        },
        Err(e) => {
            if e.fatal {
                return Err(e);
            }
        },
    }
    let k = blank(s, m)?;
    if at(s, k, ')') {
        Ok((FunctionPrototype { ty, name, parameters }, k + 1))
    } else {
        Err(hard(k))
    }
}

/// `type name[dims] = init`, or a type alone.
fn single_declaration(s: &[char], i: usize) -> (r: Result<(SingleDeclaration, usize), PErr>)
    requires
        i <= s@.len(),
    ensures
        consumed(r, i, s@.len() as int),
{
    let (ty, j) = fully_specified_type(s, i)?;
    let k = blank(s, j)?;
    match identifier(s, k) {
        Ok((name, m)) => {
            let mut end = m;
            let m1 = blank(s, m)?;
            let array_specifier = match array_specifier(s, m1) {
                Ok((a, m2)) => {
                    end = m2;
                    Some(a)
                },
                Err(e) => {
                    if e.fatal {
                        return Err(e);
                    }
                    None
                },
            };
            let e1 = blank(s, end)?;
            let mut init: Option<Initializer> = None;
            if at(s, e1, '=') {
                let e2 = blank(s, e1 + 1)?;
                match initializer(s, e2) {
                    Ok((it, e3)) => {
                        init = Some(it);
                        end = e3;
                    },
                    Err(e) => return Err(cut(e)),
                }
            }
            Ok((SingleDeclaration { ty, name: Some(Identifier(name)), array_specifier, initializer: init }, end))
        },
        Err(_) => Ok((SingleDeclaration { ty, name: None, array_specifier: None, initializer: None }, j)),
    }
}

/// `, name[dims] = init` after the first declarator.
fn declarator_tail(s: &[char], i: usize) -> (r: Result<(SingleDeclarationNoType, usize), PErr>)
    requires
        i <= s@.len(),
    ensures
        consumed(r, i, s@.len() as int),
{
    let j = blank(s, i)?;
    if !at(s, j, ',') {
        return Err(soft(j));
    }
    let j1 = blank(s, j + 1)?;
    let (name, k) = match identifier(s, j1) {
        Ok(x) => x,
        Err(e) => return Err(cut(e)),
    };
    let mut end = k;
    let k1 = blank(s, k)?;
    let array_spec = match array_specifier(s, k1) {
        Ok((a, k2)) => {
            end = k2;
            Some(a)
        },
        Err(e) => {
            if e.fatal {
                return Err(e);
            }
            None
        },
    };
    let e1 = blank(s, end)?;
    let mut init: Option<Initializer> = None;
    if at(s, e1, '=') {
        let e2 = blank(s, e1 + 1)?;
        match initializer(s, e2) {
            Ok((it, e3)) => {
                init = Some(it);
                end = e3;
            },
            Err(e) => {
                if e.fatal {
                    return Err(e);
                }
            },
        }
    }
    Ok((SingleDeclarationNoType { ident: ArrayedIdentifier { ident: Identifier(name), array_spec }, initializer: init }, end))
}

fn init_declarator_list(s: &[char], i: usize) -> (r: Result<(InitDeclaratorList, usize), PErr>)
    requires
        i <= s@.len(),
    ensures
        consumed(r, i, s@.len() as int),
{
    let (head, j) = single_declaration(s, i)?;
    let mut tail: Vec<SingleDeclarationNoType> = Vec::new();
    let mut m = j;
    loop
        invariant
            i < m <= s@.len(),
        decreases s@.len() - m,
    {
        match declarator_tail(s, m) {
            Ok((t, m1)) => {
                tail.push(t);
                m = m1;
            },
            Err(e) => {
                if e.fatal {
                    return Err(e);
                }
                break;
            },
        }
    }
    Ok((InitDeclaratorList { head, tail }, m))
}

/// `precision highp float;`.
fn precision_declaration(s: &[char], i: usize) -> (r: Result<(Declaration, usize), PErr>)
    requires
        i <= s@.len(),
    ensures
        consumed(r, i, s@.len() as int),
        !kw_at(s@, i as int, "precision"@) ==> (r matches Err(e) && !e.fatal),
        r matches Ok((d, j)) ==> kw_at(s@, i as int, "precision"@) && d is Precision && s@[j - 1] == ';',
{
    let j = match keyword(s, i, "precision") {
        Some(j) => blank(s, j)?,
        None => return Err(soft(i)),
    };
    let (q, k) = match precision_qualifier(s, j) {
        Some(x) => x,
        None => return Err(hard(j)),
    };
    let k1 = match blank(s, k) {
        Ok(x) => x,
        Err(e) => return Err(cut(e)),
    };
    let (ty, m) = match type_specifier(s, k1) {
        Ok(x) => x,
        Err(e) => return Err(cut(e)),
    };
    let m1 = match blank(s, m) {
        Ok(x) => x,
        Err(e) => return Err(cut(e)),
    };
    if at(s, m1, ';') {
        Ok((Declaration::Precision(q, ty), m1 + 1))
    } else {
        Err(soft(m1))
    }
}

/// An interface block: `qualifiers Name { fields } instance;`.
fn block_declaration(s: &[char], i: usize) -> (r: Result<(Declaration, usize), PErr>)
    requires
        i <= s@.len(),
    ensures
        consumed(r, i, s@.len() as int),
{
    let (qualifier, j) = type_qualifier(s, i)?;
    let j1 = blank(s, j)?;
    let (name, k) = identifier(s, j1)?;
    let k1 = blank(s, k)?;
    if !at(s, k1, '{') {
        return Err(soft(k1));
    }
    let mut m = blank(s, k1 + 1)?;
    let mut fields: Vec<StructFieldSpecifier> = Vec::new();
    let (f, m1) = struct_field_specifier(s, m)?;
    fields.push(f);
    m = blank(s, m1)?;
    loop
        invariant
            i < m <= s@.len(),
        decreases s@.len() - m,
    {
        match struct_field_specifier(s, m) {
            Ok((f, m2)) => {
                fields.push(f);
                m = blank(s, m2)?;
            },
            Err(e) => {
                if e.fatal {
                    return Err(e);
                }
                break;
            },
        }
    }
    if !at(s, m, '}') {
        return Err(hard(m));
    }
    let n = match blank(s, m + 1) {
        Ok(x) => x,
        Err(e) => return Err(cut(e)),
    };
    let n1 = blank(s, n)?;
    if at(s, n1, ';') {
        return Ok((Declaration::Block(Block { qualifier, name: Identifier(name), fields, identifier: None }), n1 + 1));
    }
    let (identifier, n2) = match arrayed_identifier(s, n1) {
        Ok((a, n2)) => (Some(a), n2),
        Err(e) => {
            if e.fatal {
                return Err(e);
            }
            (None, n)
        },
    };
    let n3 = blank(s, n2)?;
    if at(s, n3, ';') {
        Ok((Declaration::Block(Block { qualifier, name: Identifier(name), fields, identifier }), n3 + 1))
    } else {
        Err(hard(n3))
    }
}

/// Qualifiers applied to names declared elsewhere: `invariant , a , b`.
fn global_declaration(s: &[char], i: usize) -> (r: Result<(Declaration, usize), PErr>)
    requires
        i <= s@.len(),
    ensures
        consumed(r, i, s@.len() as int),
{
    let (q, j) = type_qualifier(s, i)?;
    let mut m = blank(s, j)?;
    let mut ids: Vec<Identifier> = Vec::new();
    loop
        invariant
            i < m <= s@.len(),
        decreases s@.len() - m,
    {
        if !at(s, m, ',') {
            break;
        }
        let m1 = blank(s, m + 1)?;
        match identifier(s, m1) {
            Ok((n, m2)) => {
                ids.push(Identifier(n));
                m = blank(s, m2)?;
            },
            Err(_) => break,
        }
    }
    Ok((Declaration::Global(q, ids), m))
}

fn declaration(s: &[char], i: usize) -> (r: Result<(Declaration, usize), PErr>)
    requires
        i <= s@.len(),
    ensures
        consumed(r, i, s@.len() as int),
{
    match function_prototype(s, i) {
        Ok((p, j)) => {
            let k = blank(s, j)?;
            if at(s, k, ';') {
                return Ok((Declaration::FunctionPrototype(p), k + 1));
            }
        },
        Err(e) => {
            if e.fatal {
                return Err(e);
            }
        },
    }
    match init_declarator_list(s, i) {
        Ok((l, j)) => {
            let k = blank(s, j)?;
            if at(s, k, ';') {
                return Ok((Declaration::InitDeclaratorList(l), k + 1));
            }
        },
        Err(e) => {
            if e.fatal {
                return Err(e);
            }
        },
    }
    match precision_declaration(s, i) {
        Ok(x) => return Ok(x),
        Err(e) => {
            if e.fatal {
                return Err(e);
            }
        },
    }
    match block_declaration(s, i) {
        Ok(x) => return Ok(x),
        Err(e) => {
            if e.fatal {
                return Err(e);
            }
        },
    }
    global_declaration(s, i)
}

// ----------------------------------------------------------------- statements

/// `expr;` or `;`.
fn expr_statement(s: &[char], i: usize) -> (r: Result<(Option<Expr>, usize), PErr>)
    requires
        i <= s@.len(),
    ensures
        consumed(r, i, s@.len() as int),
{
    let (e, j) = match expr(s, i) {
        Ok((e, j)) => (Some(e), j),
        Err(er) => {
            if er.fatal {
                return Err(er);
            }
            (None, i)
        },
    };
    let k = blank(s, j)?;
    if at(s, k, ';') {
        Ok((e, k + 1))
    } else {
        Err(soft(k))
    }
}

/// `type name = initializer` as a loop condition.
fn condition(s: &[char], i: usize) -> (r: Result<(Condition, usize), PErr>)
    requires
        i <= s@.len(),
    ensures
        consumed(r, i, s@.len() as int),
{
    match expr(s, i) {
        Ok((e, j)) => return Ok((Condition::Expr(Box::new(e)), j)),
        Err(er) => {
            if er.fatal {
                return Err(er);
            }
        },
    }
    let (ty, j) = fully_specified_type(s, i)?;
    let j1 = blank(s, j)?;
    let (name, k) = identifier(s, j1)?;
    let k1 = blank(s, k)?;
    if !at(s, k1, '=') {
        return Err(soft(k1));
    }
    let k2 = blank(s, k1 + 1)?;
    match initializer(s, k2) {
        Ok((init, m)) => Ok((Condition::Assignment(ty, Identifier(name), init), m)),
        Err(e) => Err(cut(e)),
    }
}

/// One of the words that start a jump statement stands at `i`.
pub open spec fn jump_word_at(s: Seq<char>, i: int) -> bool {
    kw_at(s, i, "continue"@) || kw_at(s, i, "break"@) || kw_at(s, i, "return"@) || kw_at(s, i, "discard"@)
}

fn jump_statement(s: &[char], i: usize) -> (r: Result<(JumpStatement, usize), PErr>)
    requires
        i <= s@.len(),
    ensures
        consumed(r, i, s@.len() as int),
        (r matches Err(e) && !e.fatal) <==> !jump_word_at(s@, i as int),
        r matches Ok((JumpStatement::Continue, _)) ==> kw_at(s@, i as int, "continue"@),
        r matches Ok((JumpStatement::Break, _)) ==> kw_at(s@, i as int, "break"@),
        r matches Ok((JumpStatement::Return(_), _)) ==> kw_at(s@, i as int, "return"@),
        r matches Ok((JumpStatement::Discard, _)) ==> kw_at(s@, i as int, "discard"@),
        r matches Ok((_, j)) ==> s@[j - 1] == ';',
{
    if let Some(j) = keyword(s, i, "continue") {
        let k = match blank(s, j) {
            Ok(x) => x,
            Err(e) => return Err(cut(e)),
        };
        return if at(s, k, ';') { Ok((JumpStatement::Continue, k + 1)) } else { Err(hard(k)) };
    }
    if let Some(j) = keyword(s, i, "break") {
        let k = match blank(s, j) {
            Ok(x) => x,
            Err(e) => return Err(cut(e)),
        };
        return if at(s, k, ';') { Ok((JumpStatement::Break, k + 1)) } else { Err(hard(k)) };
    }
    if let Some(j) = keyword(s, i, "return") {
        let k = blank(s, j)?;
        let (e, m) = match expr(s, k) {
            Ok((e, m)) => (Some(Box::new(e)), blank(s, m)?),
            Err(er) => {
                if er.fatal {
                    return Err(er);
                }
                (None, k)
            },
        };
        return if at(s, m, ';') { Ok((JumpStatement::Return(e), m + 1)) } else { Err(hard(m)) };
    }
    if let Some(j) = keyword(s, i, "discard") {
        let k = match blank(s, j) {
            Ok(x) => x,
            Err(e) => return Err(cut(e)),
        };
        return if at(s, k, ';') { Ok((JumpStatement::Discard, k + 1)) } else { Err(hard(k)) };
    }
    Err(soft(i))
}

/// `case expr:` or `default:`.
fn case_label(s: &[char], i: usize) -> (r: Result<(CaseLabel, usize), PErr>)
    requires
        i <= s@.len(),
    ensures
        consumed(r, i, s@.len() as int),
        r matches Ok((CaseLabel::Case(_), _)) ==> kw_at(s@, i as int, "case"@),
        r matches Ok((CaseLabel::Def, _)) ==> kw_at(s@, i as int, "default"@),
        r matches Ok((_, j)) ==> s@[j - 1] == ':',
        kw_at(s@, i as int, "case"@) ==> !(r matches Err(e) && !e.fatal),
        !kw_at(s@, i as int, "case"@) && !kw_at(s@, i as int, "default"@) ==> (r matches Err(e) && !e.fatal),
{
    if let Some(j) = keyword(s, i, "case") {
        let k = blank(s, j)?;
        let (e, m) = match expr(s, k) {
            Ok(x) => x,
            Err(er) => return Err(cut(er)),
        };
        let m1 = match blank(s, m) {
            Ok(x) => x,
            Err(er) => return Err(cut(er)),
        };
        return if at(s, m1, ':') { Ok((CaseLabel::Case(Box::new(e)), m1 + 1)) } else { Err(hard(m1)) };
    }
    if let Some(j) = keyword(s, i, "default") {
        let k = blank(s, j)?;
        return if at(s, k, ':') { Ok((CaseLabel::Def, k + 1)) } else { Err(soft(k)) };
    }
    Err(soft(i))
}

/// The blank after a construct inside a committed one: a failure is final.
fn blank_cut(s: &[char], i: usize) -> (r: Result<usize, PErr>)
    requires
        i <= s@.len(),
    ensures
        r matches Ok(j) ==> i <= j <= s@.len() && !(j < s@.len() && is_white(s@[j as int])) && !continuation_at(s@, j as int)
            && !comment_at(s@, j as int),
        r matches Err(e) ==> e.fatal && i <= e.pos && unterminated_comment_at(s@, e.pos as int),
{
    match blank(s, i) {
        Ok(x) => Ok(x),
        Err(e) => Err(cut(e)),
    }
}

/// The character `c` at `i` followed by a blank, inside a committed construct.
fn expect_char(s: &[char], i: usize, c: char) -> (r: Result<usize, PErr>)
    requires
        i <= s@.len(),
    ensures
        r matches Ok(j) ==> i < j <= s@.len(),
        r is Ok ==> i < s@.len() && s@[i as int] == c,
        r matches Err(e) ==> e.fatal,
{
    if at(s, i, c) {
        blank_cut(s, i + 1)
    } else {
        Err(hard(i))
    }
}

fn statement(s: &[char], i: usize) -> (r: Result<(Statement, usize), PErr>)
    requires
        i <= s@.len(),
    ensures
        consumed(r, i, s@.len() as int),
    decreases s@.len() - i, 80nat,
{
    match compound_statement(s, i) {
        Ok((c, j)) => return Ok((Statement::Compound(Box::new(c)), j)),
        Err(e) => {
            if e.fatal {
                return Err(e);
            }
        },
    }
    let (st, j) = simple_statement(s, i)?;
    Ok((Statement::Simple(Box::new(st)), j))
}

/// `{ statements }`.
fn compound_statement(s: &[char], i: usize) -> (r: Result<(CompoundStatement, usize), PErr>)
    requires
        i <= s@.len(),
    ensures
        consumed(r, i, s@.len() as int),
        (r matches Err(e) && !e.fatal) <==> !(i < s@.len() && s@[i as int] == '{'),
        r matches Ok((_, j)) ==> s@[j - 1] == '}',
    decreases s@.len() - i, 79nat,
{
    if !at(s, i, '{') {
        return Err(soft(i));
    }
    let mut m = blank(s, i + 1)?;
    let mut list: Vec<Statement> = Vec::new();
    loop
        invariant
            i < m <= s@.len(),
            i < s@.len() && s@[i as int] == '{',
        decreases s@.len() - m,
    {
        match statement(s, m) {
            Ok((st, m1)) => {
                list.push(st);
                m = blank(s, m1)?;
            },
            Err(e) => {
                if e.fatal {
                    return Err(e);
                }
                break;
            },
        }
    }
    if at(s, m, '}') {
        Ok((CompoundStatement { statement_list: list }, m + 1))
    } else {
        Err(hard(m))
    }
}

/// The statement after `if (cond)`, with its `else` branch if one follows.
fn selection_rest(s: &[char], i: usize) -> (r: Result<(SelectionRestStatement, usize), PErr>)
    requires
        i <= s@.len(),
    ensures
        consumed(r, i, s@.len() as int),
    decreases s@.len() - i, 81nat,
{
    let (st, j) = statement(s, i)?;
    let k = blank(s, j)?;
    if let Some(k1) = keyword(s, k, "else") {
        let k2 = blank(s, k1)?;
        match statement(s, k2) {
            Ok((other, m)) => return Ok((SelectionRestStatement::Else(Box::new(st), Box::new(other)), m)),
            Err(e) => return Err(cut(e)),
        }
    }
    Ok((SelectionRestStatement::Statement(Box::new(st)), j))
}

fn selection_statement(s: &[char], i: usize) -> (r: Result<(SelectionStatement, usize), PErr>)
    requires
        i <= s@.len(),
    ensures
        consumed(r, i, s@.len() as int),
        (r matches Err(e) && !e.fatal) <==> !kw_at(s@, i as int, "if"@),
    decreases s@.len() - i, 75nat,
{
    let j = match keyword(s, i, "if") {
        Some(j) => blank(s, j)?,
        None => return Err(soft(i)),
    };
    let j1 = expect_char(s, j, '(')?;
    let (cond, k) = match expr(s, j1) {
        Ok(x) => x,
        Err(e) => return Err(cut(e)),
    };
    let k1 = blank_cut(s, k)?;
    let k2 = expect_char(s, k1, ')')?;
    match selection_rest(s, k2) {
        Ok((rest, m)) => Ok((SelectionStatement { cond: Box::new(cond), rest }, m)),
        Err(e) => Err(cut(e)),
    }
}

fn switch_statement(s: &[char], i: usize) -> (r: Result<(SwitchStatement, usize), PErr>)
    requires
        i <= s@.len(),
    ensures
        consumed(r, i, s@.len() as int),
        (r matches Err(e) && !e.fatal) <==> !kw_at(s@, i as int, "switch"@),
        r matches Ok((_, j)) ==> s@[j - 1] == '}',
    decreases s@.len() - i, 76nat,
{
    let j = match keyword(s, i, "switch") {
        Some(j) => blank(s, j)?,
        None => return Err(soft(i)),
    };
    let j1 = expect_char(s, j, '(')?;
    let (head, k) = match expr(s, j1) {
        Ok(x) => x,
        Err(e) => return Err(cut(e)),
    };
    let k1 = blank_cut(s, k)?;
    let k2 = expect_char(s, k1, ')')?;
    let mut m = expect_char(s, k2, '{')?;
    let mut body: Vec<Statement> = Vec::new();
    loop
        invariant
            i < m <= s@.len(),
            kw_at(s@, i as int, "switch"@),
        decreases s@.len() - m,
    {
        match statement(s, m) {
            Ok((st, m1)) => {
                body.push(st);
                m = blank_cut(s, m1)?;
            },
            Err(e) => {
                if e.fatal {
                    return Err(e);
                }
                break;
            },
        }
    }
    if at(s, m, '}') {
        Ok((SwitchStatement { head: Box::new(head), body }, m + 1))
    } else {
        Err(hard(m))
    }
}

fn iteration_statement(s: &[char], i: usize) -> (r: Result<(IterationStatement, usize), PErr>)
    requires
        i <= s@.len(),
    ensures
        consumed(r, i, s@.len() as int),
        (r matches Err(e) && !e.fatal) <==> !(kw_at(s@, i as int, "while"@) || kw_at(s@, i as int, "do"@) || kw_at(s@, i as int, "for"@)),
        r matches Ok((IterationStatement::While(_, _), _)) ==> kw_at(s@, i as int, "while"@),
        r matches Ok((IterationStatement::DoWhile(_, _), _)) ==> kw_at(s@, i as int, "do"@),
        r matches Ok((IterationStatement::For(_, _, _), _)) ==> kw_at(s@, i as int, "for"@),
    decreases s@.len() - i, 77nat,
{
    if let Some(j) = keyword(s, i, "while") {
        let j = blank(s, j)?;
        let j1 = expect_char(s, j, '(')?;
        let (cond, k) = match condition(s, j1) {
            Ok(x) => x,
            Err(e) => return Err(cut(e)),
        };
        let k1 = blank_cut(s, k)?;
        let k2 = expect_char(s, k1, ')')?;
        return match statement(s, k2) {
            Ok((body, m)) => Ok((IterationStatement::While(cond, Box::new(body)), m)),
            Err(e) => Err(cut(e)),
        };
    }
    if let Some(j) = keyword(s, i, "do") {
        let j = blank(s, j)?;
        let (body, k) = match statement(s, j) {
            Ok(x) => x,
            Err(e) => return Err(cut(e)),
        };
        let k1 = blank_cut(s, k)?;
        let k2 = match keyword(s, k1, "while") {
            Some(x) => blank_cut(s, x)?,
            None => return Err(hard(k1)),
        };
        let k3 = expect_char(s, k2, '(')?;
        let (e, m) = match expr(s, k3) {
            Ok(x) => x,
            Err(er) => return Err(cut(er)),
        };
        let m1 = blank_cut(s, m)?;
        let m2 = expect_char(s, m1, ')')?;
        return if at(s, m2, ';') {
            Ok((IterationStatement::DoWhile(Box::new(body), Box::new(e)), m2 + 1))
        } else {
            Err(hard(m2))
        };
    }
    if let Some(j) = keyword(s, i, "for") {
        let j = blank(s, j)?;
        let j1 = expect_char(s, j, '(')?;
        // init: an expression statement or a declaration
        let (init, k) = match expr_statement(s, j1) {
            Ok((e, k)) => (ForInitStatement::Expression(e), k),
            Err(er) => {
                if er.fatal {
                    return Err(er);
                }
                match declaration(s, j1) {
                    Ok((d, k)) => (ForInitStatement::Declaration(Box::new(d)), k),
                    Err(er) => return Err(cut(er)),
                }
            },
        };
        let k1 = blank_cut(s, k)?;
        // rest: an optional condition, `;`, an optional expression
        let (cond, c) = match condition(s, k1) {
            Ok((c, c1)) => (Some(c), blank_cut(s, c1)?),
            Err(er) => {
                if er.fatal {
                    return Err(er);
                }
                (None, k1)
            },
        };
        let c2 = expect_char(s, c, ';')?;
        let (post, p) = match expr(s, c2) {
            Ok((e, p)) => (Some(Box::new(e)), p),
            Err(er) => {
                if er.fatal {
                    return Err(er);
                }
                (None, c2)
            },
        };
        let p1 = blank_cut(s, p)?;
        let p2 = expect_char(s, p1, ')')?;
        return match statement(s, p2) {
            Ok((body, m)) => Ok((
                IterationStatement::For(init, ForRestStatement { condition: cond, post_expr: post }, Box::new(body)),
                m,
            )),
            Err(e) => Err(cut(e)),
        };
    }
    Err(soft(i))
}

fn simple_statement(s: &[char], i: usize) -> (r: Result<(SimpleStatement, usize), PErr>)
    requires
        i <= s@.len(),
    ensures
        consumed(r, i, s@.len() as int),
    decreases s@.len() - i, 78nat,
{
    match jump_statement(s, i) {
        Ok((j, k)) => return Ok((SimpleStatement::Jump(j), k)),
        Err(e) => {
            if e.fatal {
                return Err(e);
            }
        },
    }
    match iteration_statement(s, i) {
        Ok((it, k)) => return Ok((SimpleStatement::Iteration(it), k)),
        Err(e) => {
            if e.fatal {
                return Err(e);
            }
        },
    }
    match case_label(s, i) {
        Ok((c, k)) => return Ok((SimpleStatement::CaseLabel(c), k)),
        Err(e) => {
            if e.fatal {
                return Err(e);
            }
        },
    }
    match switch_statement(s, i) {
        Ok((sw, k)) => return Ok((SimpleStatement::Switch(sw), k)),
        Err(e) => {
            if e.fatal {
                return Err(e);
            }
        },
    }
    match selection_statement(s, i) {
        Ok((sel, k)) => return Ok((SimpleStatement::Selection(sel), k)),
        Err(e) => {
            if e.fatal {
                return Err(e);
            }
        },
    }
    match declaration(s, i) {
        Ok((d, k)) => return Ok((SimpleStatement::Declaration(d), k)),
        Err(e) => {
            if e.fatal {
                return Err(e);
            }
        },
    }
    let (e, k) = expr_statement(s, i)?;
    Ok((SimpleStatement::Expression(e), k))
}

// ------------------------------------------------------------ preprocessor

/// `#define NAME value` or `#define NAME(args) value`, after `define`.
fn pp_define(s: &[char], i: usize) -> (r: Result<(PreprocessorDefine, usize), PErr>)
    requires
        i <= s@.len(),
    ensures
        within(r, i, s@.len() as int),
{
    let j = pp_space0(s, i);
    let (name, k) = match identifier(s, j) {
        Ok(x) => x,
        Err(e) => return Err(cut(e)),
    };
    if at(s, k, '(') {
        let mut m = pp_space0(s, k + 1);
        let mut args: Vec<Identifier> = Vec::new();
        match identifier(s, m) {
            Ok((a, m1)) => {
                args.push(Identifier(a));
                m = pp_space0(s, m1);
                while at(s, m, ',')
                    invariant
                        k < m <= s@.len(),
                    decreases s@.len() - m,
                {
                    let m2 = pp_space0(s, m + 1);
                    match identifier(s, m2) {
                        Ok((a, m3)) => {
                            args.push(Identifier(a));
                            m = pp_space0(s, m3);
                        },
                        Err(e) => return Err(cut(e)),
                    }
                }
            },
            Err(e) => return Err(cut(e)),
        }
        if !at(s, m, ')') {
            return Err(hard(m));
        }
        let m4 = pp_space0(s, m + 1);
        let (end, next) = str_till_eol(s, m4);
        return Ok((
            PreprocessorDefine::FunctionLike { ident: Identifier(name), args, value: slice_string(s, m4, end) },
            next,
        ));
    }
    let v = pp_space0(s, k);
    let (end, next) = str_till_eol(s, v);
    Ok((PreprocessorDefine::ObjectLike { ident: Identifier(name), value: slice_string(s, v, end) }, next))
}

/// The rest of the directive line as text, after the directive name.
fn pp_text(s: &[char], i: usize) -> (r: (String, usize))
    requires
        i <= s@.len(),
    ensures
        i <= r.1 <= s@.len(),
{
    let j = pp_space0(s, i);
    let (end, next) = str_till_eol(s, j);
    (slice_string(s, j, end), next)
}

/// An identifier, the spaces after it and the end of the line.
fn pp_name_line(s: &[char], i: usize) -> (r: Result<(Identifier, usize), PErr>)
    requires
        i <= s@.len(),
    ensures
        within(r, i, s@.len() as int),
        r is Ok <==> {
            let j = pp_space0_end(s@, i as int);
            j < s@.len() && is_ident_char(s@[j]) && !is_digit(s@[j]) && line_end(s@, pp_space0_end(s@, ident_end(s@, j)))
                is Some
        },
        r matches Ok((id, m)) ==> {
            let j = pp_space0_end(s@, i as int);
            id.0@ == s@.subrange(j, ident_end(s@, j)) && line_end(s@, pp_space0_end(s@, ident_end(s@, j))) == Some(m)
        },
{
    let j = pp_space0(s, i);
    let (name, k) = match identifier(s, j) {
        Ok(x) => x,
        Err(e) => return Err(cut(e)),
    };
    let k1 = pp_space0(s, k);
    match eol(s, k1) {
        Some(m) => Ok((Identifier(name), m)),
        None => Err(soft(k1)),
    }
}

/// `#version N profile`, after `version`.
/// The profile word after a version number at `k`, and where the text
/// after it (and its spaces) continues.
pub open spec fn version_profile(s: Seq<char>, k: int) -> (Option<PreprocessorVersionProfile>, int) {
    if kw_at(s, k, "core"@) {
        (Some(PreprocessorVersionProfile::Core), pp_space0_end(s, k + "core"@.len()))
    } else if kw_at(s, k, "compatibility"@) {
        (Some(PreprocessorVersionProfile::Compatibility), pp_space0_end(s, k + "compatibility"@.len()))
    } else if kw_at(s, k, "es"@) {
        (Some(PreprocessorVersionProfile::ES), pp_space0_end(s, k + "es"@.len()))
    } else {
        (None, k)
    }
}

/// The text of a `#version` directive after the word at `i`: a number below
/// 65536, an optional profile and the end of the line; what it holds.
pub open spec fn version_directive(s: Seq<char>, i: int) -> Option<(PreprocessorVersion, int)> {
    let j = pp_space0_end(s, i);
    let e = digit_run_end(s, j);
    let (profile, k) = version_profile(s, pp_space0_end(s, e));
    if j < s.len() && is_digit(s[j]) && digits_value(s, j, e, 10) <= 0xFFFF && line_end(s, k) is Some {
        Some((PreprocessorVersion { version: digits_value(s, j, e, 10) as u16, profile }, line_end(s, k)->0 as int))
    } else {
        None
    }
}

fn pp_version(s: &[char], i: usize) -> (r: Result<(PreprocessorVersion, usize), PErr>)
    requires
        i <= s@.len(),
    ensures
        within(r, i, s@.len() as int),
        r is Ok <==> version_directive(s@, i as int) is Some,
        r matches Ok((v, m)) ==> version_directive(s@, i as int) == Some((v, m as int)),
        r matches Err(e) ==> e.fatal,
{
    let j = pp_space0(s, i);
    let e = match digits_end(s, j) {
        Some(e) => e,
        None => return Err(hard(j)),
    };
    proof {
        assert forall|k: int| j <= k < e implies (#[trigger] spec_hex_value(s@[k])) matches Some(d) && d < 10 by {
            assert(is_digit(s@[k]));
        }
        assert(all_digits_of(s@, j as int, e as int, 10));
        assert(j == pp_space0_end(s@, i as int));
        assert(e == digit_run_end(s@, j as int));
    }
    let version = match radix_value(s, j, e, 10) {
        Some(v) => {
            proof {
                crate::scan::lemma_digits_value_grows(s@, j as int, e as int, e as int, 10);
            }
            if v > 0xFFFF {
                assert(digits_value(s@, j as int, e as int, 10) > 0xFFFF);
                assert(version_directive(s@, i as int) is None);
                return Err(hard(j));
            }
            v as u16
        },
        None => return Err(hard(j)),
    };
    let mut k = pp_space0(s, e);
    let mut profile: Option<PreprocessorVersionProfile> = None;
    if let Some(m) = keyword(s, k, "core") {
        profile = Some(PreprocessorVersionProfile::Core);
        k = pp_space0(s, m);
    } else if let Some(m) = keyword(s, k, "compatibility") {
        profile = Some(PreprocessorVersionProfile::Compatibility);
        k = pp_space0(s, m);
    } else if let Some(m) = keyword(s, k, "es") {
        profile = Some(PreprocessorVersionProfile::ES);
        k = pp_space0(s, m);
    }
    assert(version_profile(s@, pp_space0_end(s@, e as int)) == (profile, k as int));
    match eol(s, k) {
        Some(m) => Ok((PreprocessorVersion { version, profile }, m)),
        None => Err(hard(k)),
    }
}

/// `#extension name : behavior`, after `extension`.
/// The behavior word at `k` and the position after it.
pub open spec fn extension_behavior(s: Seq<char>, k: int) -> Option<(PreprocessorExtensionBehavior, int)> {
    if kw_at(s, k, "require"@) {
        Some((PreprocessorExtensionBehavior::Require, k + "require"@.len()))
    } else if kw_at(s, k, "enable"@) {
        Some((PreprocessorExtensionBehavior::Enable, k + "enable"@.len()))
    } else if kw_at(s, k, "warn"@) {
        Some((PreprocessorExtensionBehavior::Warn, k + "warn"@.len()))
    } else if kw_at(s, k, "disable"@) {
        Some((PreprocessorExtensionBehavior::Disable, k + "disable"@.len()))
    } else {
        None
    }
}

/// The text of an `#extension` directive after the word at `i`: `all`
/// (`None`) or an extension's name, an optional `: behavior`, the end of
/// the line.
pub open spec fn extension_directive(s: Seq<char>, i: int) -> Option<(Option<Seq<char>>, Option<PreprocessorExtensionBehavior>, int)> {
    let j = pp_space0_end(s, i);
    let all = kw_at(s, j, "all"@);
    let ident = j < s.len() && is_ident_char(s[j]) && !is_digit(s[j]);
    let k = if all { j + "all"@.len() } else { ident_end(s, j) };
    let m = pp_space0_end(s, k);
    let colon = m < s.len() && s[m] == ':';
    let b = extension_behavior(s, pp_space0_end(s, m + 1));
    let bv = b->0;
    let m2 = if colon { pp_space0_end(s, bv.1) } else { m };
    if (all || ident) && (!colon || b is Some) && line_end(s, m2) is Some {
        Some((
            if all { None } else { Some(s.subrange(j, k)) },
            if colon { Some(bv.0) } else { None },
            line_end(s, m2)->0 as int,
        ))
    } else {
        None
    }
}

fn pp_extension(s: &[char], i: usize) -> (r: Result<(PreprocessorExtension, usize), PErr>)
    requires
        i <= s@.len(),
    ensures
        within(r, i, s@.len() as int),
        r is Ok <==> extension_directive(s@, i as int) is Some,
        r matches Ok((x, m)) ==> extension_directive(s@, i as int) matches Some((n, b, end)) && end == m && x.behavior == b
            && (n is None <==> x.name is All) && (x.name matches PreprocessorExtensionName::Specific(t) ==> n == Some(t@)),
        r matches Err(e) ==> e.fatal,
{
    let j = pp_space0(s, i);
    let (name, k) = if let Some(k) = keyword(s, j, "all") {
        (PreprocessorExtensionName::All, k)
    } else {
        match identifier(s, j) {
            Ok((n, k)) => (PreprocessorExtensionName::Specific(n), k),
            Err(e) => return Err(cut(e)),
        }
    };
    let mut m = pp_space0(s, k);
    let mut behavior: Option<PreprocessorExtensionBehavior> = None;
    if at(s, m, ':') {
        let m1 = pp_space0(s, m + 1);
        let (b, m2) = if let Some(x) = keyword(s, m1, "require") {
            (PreprocessorExtensionBehavior::Require, x)
        } else if let Some(x) = keyword(s, m1, "enable") {
            (PreprocessorExtensionBehavior::Enable, x)
        } else if let Some(x) = keyword(s, m1, "warn") {
            (PreprocessorExtensionBehavior::Warn, x)
        } else if let Some(x) = keyword(s, m1, "disable") {
            (PreprocessorExtensionBehavior::Disable, x)
        } else {
            return Err(hard(m1));
        };
        behavior = Some(b);
        m = pp_space0(s, m2);
    }
    match eol(s, m) {
        Some(e) => Ok((PreprocessorExtension { name, behavior }, e)),
        None => Err(hard(m)),
    }
}

/// `#line N` or `#line N M`, after `line`.
fn pp_line(s: &[char], i: usize) -> (r: Result<(PreprocessorLine, usize), PErr>)
    requires
        i <= s@.len(),
    ensures
        within(r, i, s@.len() as int),
{
    let j = pp_space0(s, i);
    let (line, k) = match integral_lit(s, j) {
        Ok(x) => x,
        Err(e) => return Err(cut(e)),
    };
    let mut m = pp_space0(s, k);
    let mut source_string_number: Option<u32> = None;
    match integral_lit(s, m) {
        Ok((n, m1)) => {
            source_string_number = Some(#[verifier::truncate] (n as u32));
            m = pp_space0(s, m1);
        },
        Err(e) => {
            if e.fatal {
                return Err(e);
            }
        },
    }
    match eol(s, m) {
        Some(e) => Ok((PreprocessorLine { line: #[verifier::truncate] (line as u32), source_string_number }, e)),
        None => Err(hard(m)),
    }
}

/// `#include <path>` or `#include "path"`, after `include`.
fn pp_include(s: &[char], i: usize) -> (r: Result<(PreprocessorInclude, usize), PErr>)
    requires
        i <= s@.len(),
    ensures
        within(r, i, s@.len() as int),
        r matches Err(e) ==> e.fatal,
        r is Ok <==> {
            let j = pp_space0_end(s@, i as int);
            j < s@.len() && (s@[j] == '<' || s@[j] == '"') && exists|e: int| j < e < s@.len() && #[trigger] s@[e] == (if s@[j]
                == '<' {
                '>'
            } else {
                '"'
            }) && (forall|m: int| j < m < e ==> s@[m] != s@[e]) && line_end(s@, pp_space0_end(s@, e + 1)) is Some
        },
        r matches Ok((inc, end)) ==> {
            let j = pp_space0_end(s@, i as int);
            exists|e: int| {
                &&& j < e < s@.len()
                &&& (forall|m: int| j < m < e ==> s@[m] != s@[e])
                &&& line_end(s@, pp_space0_end(s@, e + 1)) == Some(end)
                &&& #[trigger] s@[e] == (if s@[j] == '<' { '>' } else { '"' })
                &&& (if s@[j] == '<' {
                    inc.path matches Path::Absolute(p) && p@ == s@.subrange(j + 1, e)
                } else {
                    s@[j] == '"' && (inc.path matches Path::Relative(p) && p@ == s@.subrange(j + 1, e))
                })
            }
        },
{
    let j = pp_space0(s, i);
    let (path, k) = if at(s, j, '<') {
        match take_until(s, j + 1, '>') {
            Some(e) => (Path::Absolute(slice_string(s, j + 1, e)), e + 1),
            None => return Err(hard(j + 1)),
        }
    } else if at(s, j, '"') {
        match take_until(s, j + 1, '"') {
            Some(e) => (Path::Relative(slice_string(s, j + 1, e)), e + 1),
            None => return Err(hard(j + 1)),
        }
    } else {
        return Err(hard(j));
    };
    let m = pp_space0(s, k);
    match eol(s, m) {
        Some(e) => Ok((PreprocessorInclude { path }, e)),
        None => Err(hard(m)),
    }
}

/// A directive line: `#`, spaces, the directive. Everything after `#` is
/// committed.
fn preprocessor(s: &[char], i: usize) -> (r: Result<(Preprocessor, usize), PErr>)
    requires
        i <= s@.len(),
    ensures
        consumed(r, i, s@.len() as int),
        !(i < s@.len() && s@[i as int] == '#') ==> (r matches Err(e) && !e.fatal),
        r is Ok ==> s@[i as int] == '#',
{
    if !at(s, i, '#') {
        return Err(soft(i));
    }
    let j = pp_space0(s, i + 1);
    if let Some(k) = keyword(s, j, "define") {
        let (d, m) = pp_define(s, k)?;
        return Ok((Preprocessor::Define(d), m));
    }
    if let Some(k) = keyword(s, j, "else") {
        let k1 = pp_space0(s, k);
        return match eol(s, k1) {
            Some(m) => Ok((Preprocessor::Else, m)),
            None => Err(hard(k1)),
        };
    }
    if let Some(k) = keyword(s, j, "elif") {
        let (t, m) = pp_text(s, k);
        return Ok((Preprocessor::ElIf(PreprocessorElIf { condition: t }), m));
    }
    if let Some(k) = keyword(s, j, "endif") {
        let k1 = space0(s, k);
        return match eol(s, k1) {
            Some(m) => Ok((Preprocessor::EndIf, m)),
            None => Err(hard(k1)),
        };
    }
    if let Some(k) = keyword(s, j, "error") {
        let (t, m) = pp_text(s, k);
        return Ok((Preprocessor::Error(PreprocessorError { message: t }), m));
    }
    if let Some(k) = keyword(s, j, "if") {
        let (t, m) = pp_text(s, k);
        return Ok((Preprocessor::If(PreprocessorIf { condition: t }), m));
    }
    if let Some(k) = keyword(s, j, "ifdef") {
        return match pp_name_line(s, k) {
            Ok((n, m)) => Ok((Preprocessor::IfDef(PreprocessorIfDef { ident: n }), m)),
            Err(e) => Err(cut(e)),
        };
    }
    if let Some(k) = keyword(s, j, "ifndef") {
        return match pp_name_line(s, k) {
            Ok((n, m)) => Ok((Preprocessor::IfNDef(PreprocessorIfNDef { ident: n }), m)),
            Err(e) => Err(cut(e)),
        };
    }
    if let Some(k) = keyword(s, j, "include") {
        let (p, m) = pp_include(s, k)?;
        return Ok((Preprocessor::Include(p), m));
    }
    if let Some(k) = keyword(s, j, "line") {
        let (l, m) = pp_line(s, k)?;
        return Ok((Preprocessor::Line(l), m));
    }
    if let Some(k) = keyword(s, j, "pragma") {
        let (t, m) = pp_text(s, k);
        return Ok((Preprocessor::Pragma(PreprocessorPragma { command: t }), m));
    }
    if let Some(k) = keyword(s, j, "undef") {
        return match pp_name_line(s, k) {
            Ok((n, m)) => Ok((Preprocessor::Undef(PreprocessorUndef { name: n }), m)),
            Err(e) => Err(cut(e)),
        };
    }
    if let Some(k) = keyword(s, j, "version") {
        let (v, m) = pp_version(s, k)?;
        return Ok((Preprocessor::Version(v), m));
    }
    if let Some(k) = keyword(s, j, "extension") {
        let (e, m) = pp_extension(s, k)?;
        return Ok((Preprocessor::Extension(e), m));
    }
    Err(hard(j))
}

// -------------------------------------------------------- translation unit

fn function_definition(s: &[char], i: usize) -> (r: Result<(FunctionDefinition, usize), PErr>)
    requires
        i <= s@.len(),
    ensures
        consumed(r, i, s@.len() as int),
{
    let (prototype, j) = function_prototype(s, i)?;
    let k = blank(s, j)?;
    let (statement, m) = compound_statement(s, k)?;
    Ok((FunctionDefinition { prototype, statement }, m))
}

fn external_declaration(s: &[char], i: usize) -> (r: Result<(ExternalDeclaration, usize), PErr>)
    requires
        i <= s@.len(),
    ensures
        consumed(r, i, s@.len() as int),
    decreases s@.len() - i,
{
    match preprocessor(s, i) {
        Ok((p, j)) => return Ok((ExternalDeclaration::Preprocessor(p), j)),
        Err(e) => {
            if e.fatal {
                return Err(e);
            }
        },
    }
    match function_definition(s, i) {
        Ok((f, j)) => return Ok((ExternalDeclaration::FunctionDefinition(f), j)),
        Err(e) => {
            if e.fatal {
                return Err(e);
            }
        },
    }
    match declaration(s, i) {
        Ok((d, j)) => return Ok((ExternalDeclaration::Declaration(d), j)),
        Err(e) => {
            if e.fatal {
                return Err(e);
            }
        },
    }
    // a stray `;` before a declaration
    let j = blank(s, i)?;
    if !at(s, j, ';') {
        return Err(soft(j));
    }
    let k = blank(s, j + 1)?;
    match external_declaration(s, k) {
        Ok(x) => Ok(x),
        Err(e) => Err(cut(e)),
    }
}

/// One or more external declarations, each with the blanks around it; the
/// declarations and the position where parsing stopped.
fn translation_unit(s: &[char], i: usize) -> (r: Result<(TranslationUnit, usize), PErr>)
    requires
        i <= s@.len(),
    ensures
        consumed(r, i, s@.len() as int),
        r matches Ok((tu, j)) ==> tu.0.0@.len() > 0 && stops_at(s@, j as int),
{
    let j = blank(s, i)?;
    let (first, k) = external_declaration(s, j)?;
    let mut m = blank(s, k)?;
    let mut eds: Vec<ExternalDeclaration> = Vec::new();
    eds.push(first);
    loop
        invariant
            i < m <= s@.len(),
            eds@.len() > 0,
            stops_at(s@, m as int),
        decreases s@.len() - m,
    {
        let b = blank(s, m)?;
        match external_declaration(s, b) {
            Ok((ed, b1)) => {
                eds.push(ed);
                m = blank(s, b1)?;
            },
            Err(e) => {
                if e.fatal {
                    return Err(e);
                }
                break;
            },
        }
    }
    Ok((TranslationUnit(NonEmpty(eds)), m))
}

// ------------------------------------------------------------------ interface

/// Position `j` of `s` is where a parse can stop: the end of the input, or
/// a character that is neither white space nor the start of a comment or
/// of a line continuation.
pub open spec fn stops_at(s: Seq<char>, j: int) -> bool {
    j <= s.len() && !(j < s.len() && is_white(s[j])) && !continuation_at(s, j) && !comment_at(s, j)
}

/// A parse error, with a description of where the input was rejected.
#[derive(Debug, Clone, PartialEq, Eq)]
pub struct ParseError {
    pub info: String,
}

/// A description of the failure `e`: its line and column (both from 1).
/// The line and column (from 1, saturating) of position `k` of `s`.
pub open spec fn line_col(s: Seq<char>, k: int) -> (u64, u64)
    decreases k,
{
    if k <= 0 {
        (1, 1)
    } else {
        let (line, col) = line_col(s, k - 1);
        if s[k - 1] == '\n' {
            (if line < u64::MAX { (line + 1) as u64 } else { line }, 1)
        } else {
            (line, if col < u64::MAX { (col + 1) as u64 } else { col })
        }
    }
}

/// The message of a syntax error at `pos` (the end of the input at most).
pub open spec fn error_text(s: Seq<char>, pos: int) -> Seq<char> {
    let p = if pos <= s.len() { pos } else { s.len() as int };
    let (line, col) = line_col(s, p);
    "syntax error at line "@ + crate::text::decimal(line as nat) + ", column "@ + crate::text::decimal(col as nat)
}

fn describe_error(s: &[char], e: PErr) -> (r: ParseError)
    ensures
        r.info@ == error_text(s@, e.pos as int),
{
    let pos = if e.pos <= s.len() { e.pos } else { s.len() };
    let mut line: u64 = 1;
    let mut col: u64 = 1;
    let mut k: usize = 0;
    while k < pos
        invariant
            k <= pos,
            pos <= s@.len(),
            (line, col) == line_col(s@, k as int),
        decreases pos - k,
    {
        if s[k] == '\n' {
            line = if line < u64::MAX { line + 1 } else { line };
            col = 1;
        } else {
            col = if col < u64::MAX { col + 1 } else { col };
        }
        k = k + 1;
    }
    let mut v: Vec<char> = Vec::new();
    crate::text::extend_str(&mut v, "syntax error at line ");
    let l = crate::text::decimal_chars(line);
    crate::text::extend_chars(&mut v, l.as_slice());
    crate::text::extend_str(&mut v, ", column ");
    let c = crate::text::decimal_chars(col);
    crate::text::extend_chars(&mut v, c.as_slice());
    ParseError { info: crate::text::string_of(v.as_slice()) }
}

/// Parse a whole shader and also return the unparsed rest of the input.
///
/// The parser stops at the first construct it cannot parse after at least
/// one declaration; callers that need the whole source consumed check the
/// rest. `Err` when not even one declaration parses, or when the input is
/// rejected inside a construct (an unterminated comment, a malformed
/// directive, a missing `)` ...).
pub fn parse_translation_unit_with_rest(source: &str) -> (r: Result<(TranslationUnit, &str), ParseError>)
    ensures
        r matches Ok(x) ==> x.1@.len() < source@.len() && x.1@ == source@.subrange(
            source@.len() - x.1@.len(),
            source@.len() as int,
        ),
        r matches Ok(x) ==> x.0.0.0@.len() > 0 && stops_at(source@, source@.len() - x.1@.len()),
        r matches Err(e) ==> exists|pos: int| 0 <= pos <= source@.len() && e.info@ == #[trigger] error_text(source@, pos),
{
    let s = chars_of(source);
    match translation_unit(s.as_slice(), 0) {
        Ok((tu, j)) => {
            let n = source.unicode_len();
            let rest = source.substring_char(j, n);
            Ok((tu, rest))
        },
        Err(e) => {
            let r = describe_error(s.as_slice(), e);
            proof {
                let pos = if e.pos <= s@.len() { e.pos as int } else { s@.len() as int };
                assert(error_text(source@, pos) == error_text(source@, e.pos as int));
            }
            Err(r)
        },
    }
}

/// Types that can be parsed from GLSL source.
pub trait Parse: Sized {
    /// Parse `source` as a whole, ignoring what follows the parsed part.
    fn parse(source: &str) -> Result<Self, ParseError>;
}

impl Parse for TranslationUnit {
    fn parse(source: &str) -> Result<TranslationUnit, ParseError> {
        match parse_translation_unit_with_rest(source) {
            Ok((tu, _)) => Ok(tu),
            Err(e) => Err(e),
        }
    }
}

impl Parse for Expr {
    fn parse(source: &str) -> Result<Expr, ParseError> {
        let s = chars_of(source);
        match expr(s.as_slice(), 0) {
            Ok((e, _)) => Ok(e),
            Err(e) => Err(describe_error(s.as_slice(), e)),
        }
    }
}

} // verus!
