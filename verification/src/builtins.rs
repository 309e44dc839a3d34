//! Names the GLSL language owns: keywords, built-in functions, members of
//! built-in structures, reserved prefixes and swizzle selectors.
//!
//! The word lists below are the union over every GLSL / GLSL ES version and
//! the extensions commonly supported by drivers, so a name is treated as
//! built-in regardless of `#version`. One word per whitespace-separated
//! token; `#` starts a comment that runs to the end of the line.
use vstd::prelude::*;
use crate::text::{is_ws, ws, chars_eq, chars_of};

verus! {

/// Keywords and reserved words of every GLSL version (includes the built-in
/// type names such as `vec4`, `sampler2D`, `float16_t`).
pub const KEYWORDS: &'static str = "
# storage, layout, interpolation and precision qualifiers
attribute const uniform varying buffer shared coherent volatile restrict readonly writeonly
layout centroid flat smooth noperspective patch sample subroutine in out inout
invariant precise lowp mediump highp precision
# control flow
break continue do for while switch case default if else discard return
# literals and basic types
true false void bool int uint float double struct atomic_uint
vec2 vec3 vec4 ivec2 ivec3 ivec4 bvec2 bvec3 bvec4 uvec2 uvec3 uvec4 dvec2 dvec3 dvec4
mat2 mat3 mat4 mat2x2 mat2x3 mat2x4 mat3x2 mat3x3 mat3x4 mat4x2 mat4x3 mat4x4
dmat2 dmat3 dmat4 dmat2x2 dmat2x3 dmat2x4 dmat3x2 dmat3x3 dmat3x4 dmat4x2 dmat4x3 dmat4x4
# samplers and images
sampler1D sampler2D sampler3D samplerCube sampler2DRect sampler1DArray sampler2DArray
samplerBuffer sampler2DMS sampler2DMSArray samplerCubeArray sampler1DShadow sampler2DShadow
sampler2DRectShadow sampler1DArrayShadow sampler2DArrayShadow samplerCubeShadow
samplerCubeArrayShadow samplerExternalOES sampler3DRect sampler
isampler1D isampler2D isampler3D isamplerCube isampler2DRect isampler1DArray isampler2DArray
isamplerBuffer isampler2DMS isampler2DMSArray isamplerCubeArray
usampler1D usampler2D usampler3D usamplerCube usampler2DRect usampler1DArray usampler2DArray
usamplerBuffer usampler2DMS usampler2DMSArray usamplerCubeArray
image1D image2D image3D imageCube image2DRect image1DArray image2DArray imageBuffer image2DMS
image2DMSArray imageCubeArray iimage1D iimage2D iimage3D iimageCube iimage2DRect iimage1DArray
iimage2DArray iimageBuffer iimage2DMS iimage2DMSArray iimageCubeArray uimage1D uimage2D
uimage3D uimageCube uimage2DRect uimage1DArray uimage2DArray uimageBuffer uimage2DMS
uimage2DMSArray uimageCubeArray
texture1D texture2D texture3D textureCube texture2DRect texture1DArray texture2DArray
textureBuffer texture2DMS texture2DMSArray textureCubeArray samplerShadow
# explicit arithmetic types (GL_EXT_shader_explicit_arithmetic_types and friends)
float16_t float32_t float64_t int8_t int16_t int32_t int64_t uint8_t uint16_t uint32_t uint64_t
f16vec2 f16vec3 f16vec4 f32vec2 f32vec3 f32vec4 f64vec2 f64vec3 f64vec4
i8vec2 i8vec3 i8vec4 i16vec2 i16vec3 i16vec4 i32vec2 i32vec3 i32vec4 i64vec2 i64vec3 i64vec4
u8vec2 u8vec3 u8vec4 u16vec2 u16vec3 u16vec4 u32vec2 u32vec3 u32vec4 u64vec2 u64vec3 u64vec4
f16mat2 f16mat3 f16mat4 f32mat2 f32mat3 f32mat4 f64mat2 f64mat3 f64mat4
# reserved for future use
common partition active asm class union enum typedef template this resource goto inline
noinline public static extern external interface long short half fixed unsigned superp input
output hvec2 hvec3 hvec4 fvec2 fvec3 fvec4 filter sizeof cast namespace using
";

/// Built-in functions of every GLSL version and of common extensions.
pub const BUILTIN_FUNCTIONS: &'static str = "
# angle and trigonometry
radians degrees sin cos tan asin acos atan sinh cosh tanh asinh acosh atanh
# exponential
pow exp log exp2 log2 sqrt inversesqrt
# common
abs sign floor trunc round roundEven ceil fract mod modf min max clamp mix step smoothstep
isnan isinf floatBitsToInt floatBitsToUint intBitsToFloat uintBitsToFloat fma frexp ldexp
packUnorm2x16 packSnorm2x16 packUnorm4x8 packSnorm4x8 unpackUnorm2x16 unpackSnorm2x16
unpackUnorm4x8 unpackSnorm4x8 packHalf2x16 unpackHalf2x16 packDouble2x32 unpackDouble2x32
# geometric
length distance dot cross normalize ftransform faceforward reflect refract
# matrix and vector relational
matrixCompMult outerProduct transpose determinant inverse lessThan lessThanEqual greaterThan
greaterThanEqual equal notEqual any all not
# integer
uaddCarry usubBorrow umulExtended imulExtended bitfieldExtract bitfieldInsert bitfieldReverse
bitCount findLSB findMSB
# texture lookup
textureSize textureQueryLod textureQueryLevels textureSamples texture textureProj textureLod
textureOffset texelFetch texelFetchOffset textureProjOffset textureLodOffset textureProjLod
textureProjLodOffset textureGrad textureGradOffset textureProjGrad textureProjGradOffset
textureGather textureGatherOffset textureGatherOffsets
texture1D texture1DProj texture1DLod texture1DProjLod texture2D texture2DProj texture2DLod
texture2DProjLod texture3D texture3DProj texture3DLod texture3DProjLod textureCube
textureCubeLod shadow1D shadow2D shadow1DProj shadow2DProj shadow1DLod shadow2DLod
shadow1DProjLod shadow2DProjLod texture2DRect texture2DRectProj shadow2DRect shadow2DRectProj
texture2DGradEXT texture2DProjGradEXT textureCubeGradEXT texture2DLodEXT texture2DProjLodEXT
textureCubeLodEXT texture1DArray texture2DArray shadow1DArray shadow2DArray
# atomics, images and memory
atomicCounterIncrement atomicCounterDecrement atomicCounter atomicAdd atomicMin atomicMax
atomicAnd atomicOr atomicXor atomicExchange atomicCompSwap imageSize imageSamples imageLoad
imageStore imageAtomicAdd imageAtomicMin imageAtomicMax imageAtomicAnd imageAtomicOr
imageAtomicXor imageAtomicExchange imageAtomicCompSwap
barrier memoryBarrier memoryBarrierAtomicCounter memoryBarrierBuffer memoryBarrierShared
memoryBarrierImage groupMemoryBarrier
# derivatives and interpolation
dFdx dFdy fwidth dFdxFine dFdyFine fwidthFine dFdxCoarse dFdyCoarse fwidthCoarse
interpolateAtCentroid interpolateAtSample interpolateAtOffset
# noise and geometry shaders
noise1 noise2 noise3 noise4 EmitVertex EndPrimitive EmitStreamVertex EndStreamPrimitive
";

/// Members of built-in structures (`gl_LightSource[i]`, `gl_FrontMaterial`,
/// `gl_DepthRange`, `gl_Point`, `gl_Fog`, `gl_LightModel`, ...).
pub const BUILTIN_MEMBERS: &'static str = "
# gl_DepthRange
near far diff
# gl_LightSourceParameters
ambient diffuse specular position halfVector spotDirection spotExponent spotCutoff
spotCosCutoff constantAttenuation linearAttenuation quadraticAttenuation
# gl_MaterialParameters
emission shininess
# gl_LightModelParameters and products
sceneColor
# gl_PointParameters
size sizeMin sizeMax fadeThresholdSize distanceConstantAttenuation distanceLinearAttenuation
distanceQuadraticAttenuation
# gl_FogParameters
color density start end scale
";

/// The character sequences held by a vector of character vectors.
pub open spec fn views(v: Seq<Vec<char>>) -> Seq<Seq<char>> {
    v.map_values(|x: Vec<char>| x@)
}

/// The words of a list text: whitespace-separated tokens, where `#` starts a
/// comment that runs to the end of the line. `w` is the word being read and
/// `comment` whether the scan is inside a comment.
pub open spec fn scan_words(s: Seq<char>, w: Seq<char>, comment: bool) -> Seq<Seq<char>>
    decreases s.len(),
{
    if s.len() == 0 {
        if w.len() > 0 { seq![w] } else { seq![] }
    } else {
        let c = s[0];
        let rest = s.drop_first();
        if comment {
            scan_words(rest, w, c != '\n')
        } else if c == '#' || is_ws(c) {
            let tail = scan_words(rest, seq![], c == '#');
            if w.len() > 0 { seq![w] + tail } else { tail }
        } else {
            scan_words(rest, w.push(c), false)
        }
    }
}

/// The words of a list text.
pub open spec fn spec_words(s: Seq<char>) -> Seq<Seq<char>> {
    scan_words(s, seq![], false)
}

proof fn lemma_scan_words_step(s: Seq<char>, i: int, w: Seq<char>, comment: bool)
    requires
        0 <= i < s.len(),
    ensures
        scan_words(s.subrange(i, s.len() as int), w, comment) == ({
            let c = s[i];
            let rest = s.subrange(i + 1, s.len() as int);
            if comment {
                scan_words(rest, w, c != '\n')
            } else if c == '#' || is_ws(c) {
                let tail = scan_words(rest, seq![], c == '#');
                if w.len() > 0 { seq![w] + tail } else { tail }
            } else {
                scan_words(rest, w.push(c), false)
            }
        }),
{
    assert(s.subrange(i, s.len() as int).drop_first() =~= s.subrange(i + 1, s.len() as int));
}

/// The words of `src` (whitespace separated, `#` comments dropped).
pub fn words(src: &str) -> (r: Vec<Vec<char>>)
    ensures
        views(r@) == spec_words(src@),
{
    let s = chars_of(src);
    let mut out: Vec<Vec<char>> = Vec::new();
    let mut w: Vec<char> = Vec::new();
    let mut comment = false;
    let mut i: usize = 0;
    proof {
        assert(views(out@) =~= Seq::<Seq<char>>::empty());
        assert(s@.subrange(0, s@.len() as int) =~= s@);
    }
    while i < s.len()
        invariant
            s@ == src@,
            i <= s@.len(),
            views(out@) + scan_words(s@.subrange(i as int, s@.len() as int), w@, comment)
                == spec_words(src@),
        decreases s@.len() - i,
    {
        proof {
            lemma_scan_words_step(s@, i as int, w@, comment);
        }
        let c = s[i];
        let ghost old_out = views(out@);
        let ghost old_w = w@;
        if comment {
            comment = c != '\n';
        } else if c == '#' || ws(c) {
            if w.len() > 0 {
                let done = w;
                out.push(done);
                w = Vec::new();
                proof {
                    assert(views(out@) =~= old_out.push(old_w));
                    assert(old_out + (seq![old_w] + scan_words(s@.subrange(i + 1, s@.len() as int), seq![], c == '#'))
                        =~= old_out.push(old_w) + scan_words(s@.subrange(i + 1, s@.len() as int), seq![], c == '#'));
                }
            }
            comment = c == '#';
            proof {
                assert(w@ =~= Seq::<char>::empty());
            }
        } else {
            w.push(c);
        }
        i = i + 1;
    }
    proof {
        assert(s@.subrange(i as int, s@.len() as int) =~= Seq::<char>::empty());
    }
    if w.len() > 0 {
        let ghost old_out = views(out@);
        let ghost old_w = w@;
        out.push(w);
        proof {
            assert(views(out@) =~= old_out + seq![old_w]);
        }
    } else {
        proof {
            assert(views(out@) =~= views(out@) + Seq::<Seq<char>>::empty());
        }
    }
    out
}

/// Whether `w` is one of `list`.
pub fn list_contains(list: &Vec<Vec<char>>, w: &[char]) -> (r: bool)
    ensures
        r == views(list@).contains(w@),
{
    let mut i: usize = 0;
    while i < list.len()
        invariant
            i <= list@.len(),
            forall|j: int| 0 <= j < i ==> views(list@)[j] != w@,
        decreases list@.len() - i,
    {
        if chars_eq(list[i].as_slice(), w) {
            assert(views(list@)[i as int] == w@);
            return true;
        }
        i = i + 1;
    }
    proof {
        if views(list@).contains(w@) {
            let k = choose|k: int| 0 <= k < views(list@).len() && views(list@)[k] == w@;
            assert(views(list@)[k] != w@);
        }
    }
    false
}

/// The length of the longest word of `v`.
fn longest(v: &Vec<Vec<char>>) -> (r: usize)
    ensures
        forall|k: int| 0 <= k < v@.len() ==> (#[trigger] v@[k])@.len() <= r,
        r > 0 ==> exists|k: int| 0 <= k < v@.len() && (#[trigger] v@[k])@.len() == r,
{
    let mut m: usize = 0;
    let mut i: usize = 0;
    while i < v.len()
        invariant
            i <= v@.len(),
            forall|k: int| 0 <= k < i ==> (#[trigger] v@[k])@.len() <= m,
            m > 0 ==> exists|k: int| 0 <= k < i && (#[trigger] v@[k])@.len() == m,
        decreases v@.len() - i,
    {
        if v[i].len() > m {
            m = v[i].len();
        }
        i = i + 1;
    }
    m
}

/// The three word lists, read once.
pub struct Lexicon {
    pub keywords: Vec<Vec<char>>,
    pub functions: Vec<Vec<char>>,
    pub members: Vec<Vec<char>>,
}

pub open spec fn keyword_words() -> Seq<Seq<char>> {
    spec_words(KEYWORDS@)
}

pub open spec fn function_words() -> Seq<Seq<char>> {
    spec_words(BUILTIN_FUNCTIONS@)
}

pub open spec fn member_words() -> Seq<Seq<char>> {
    spec_words(BUILTIN_MEMBERS@)
}

impl Lexicon {
    pub open spec fn wf(&self) -> bool {
        &&& views(self.keywords@) == keyword_words()
        &&& views(self.functions@) == function_words()
        &&& views(self.members@) == member_words()
    }

    pub fn new() -> (r: Lexicon)
        ensures
            r.wf(),
    {
        Lexicon {
            keywords: words(KEYWORDS),
            functions: words(BUILTIN_FUNCTIONS),
            members: words(BUILTIN_MEMBERS),
        }
    }

    /// The length of the longest keyword or built-in function name.
    pub fn max_word_len(&self) -> (r: usize)
        requires
            self.wf(),
        ensures
            forall|k: int| 0 <= k < keyword_words().len() ==> (#[trigger] keyword_words()[k]).len() <= r,
            forall|k: int| 0 <= k < function_words().len() ==> (#[trigger] function_words()[k]).len() <= r,
            r > 0 ==> (exists|k: int| 0 <= k < keyword_words().len() && (#[trigger] keyword_words()[k]).len() == r)
                || (exists|k: int| 0 <= k < function_words().len() && (#[trigger] function_words()[k]).len() == r),
    {
        let a = longest(&self.keywords);
        let b = longest(&self.functions);
        proof {
            assert forall|k: int| 0 <= k < keyword_words().len() implies (#[trigger] keyword_words()[k]).len() <= a by {
                assert(keyword_words()[k] == self.keywords@[k]@);
            }
            assert forall|k: int| 0 <= k < function_words().len() implies (#[trigger] function_words()[k]).len() <= b by {
                assert(function_words()[k] == self.functions@[k]@);
            }
            if a > 0 {
                let k = choose|k: int| 0 <= k < self.keywords@.len() && (#[trigger] self.keywords@[k])@.len() == a;
                assert(keyword_words()[k] == self.keywords@[k]@);
            }
            if b > 0 {
                let k = choose|k: int| 0 <= k < self.functions@.len() && (#[trigger] self.functions@[k])@.len() == b;
                assert(function_words()[k] == self.functions@[k]@);
            }
        }
        if a > b { a } else { b }
    }

    pub fn keyword(&self, s: &[char]) -> (r: bool)
        requires
            self.wf(),
        ensures
            r == spec_is_keyword(s@),
    {
        list_contains(&self.keywords, s)
    }

    pub fn builtin_function(&self, s: &[char]) -> (r: bool)
        requires
            self.wf(),
        ensures
            r == spec_is_builtin_function(s@),
    {
        list_contains(&self.functions, s)
    }

    pub fn builtin_member(&self, s: &[char]) -> (r: bool)
        requires
            self.wf(),
        ensures
            r == spec_is_builtin_member(s@),
    {
        list_contains(&self.members, s)
    }

    pub fn never_generate(&self, s: &[char]) -> (r: bool)
        requires
            self.wf(),
        ensures
            r == spec_never_generate(s@),
    {
        let main: [char; 4] = ['m', 'a', 'i', 'n'];
        proof {
            assert(main@ =~= seq!['m', 'a', 'i', 'n']);
        }
        chars_eq(s, main.as_slice()) || reserved(s) || self.keyword(s) || self.builtin_function(s)
    }
}

pub open spec fn spec_is_keyword(s: Seq<char>) -> bool {
    keyword_words().contains(s)
}

pub open spec fn spec_is_builtin_function(s: Seq<char>) -> bool {
    function_words().contains(s)
}

pub open spec fn spec_is_builtin_member(s: Seq<char>) -> bool {
    member_words().contains(s)
}

/// Reserved by the spec: `gl_` / `GL_` prefix or a `__` anywhere.
pub open spec fn spec_is_reserved(s: Seq<char>) -> bool {
    (s.len() >= 3 && s[0] == 'g' && s[1] == 'l' && s[2] == '_')
        || (s.len() >= 3 && s[0] == 'G' && s[1] == 'L' && s[2] == '_')
        || exists|i: int| #[trigger] underscores_at(s, i)
}

/// `s[i]` and `s[i + 1]` are both `_`.
pub open spec fn underscores_at(s: Seq<char>, i: int) -> bool {
    0 <= i && i + 1 < s.len() && s[i] == '_' && s[i + 1] == '_'
}

/// A vector component selector: 1 to 4 characters all from one of `xyzw`,
/// `rgba`, `stpq`.
pub open spec fn spec_is_swizzle(s: Seq<char>) -> bool {
    1 <= s.len() <= 4 && (
        (forall|i: int| 0 <= i < s.len() ==> s[i] == 'x' || s[i] == 'y' || s[i] == 'z' || s[i] == 'w')
        || (forall|i: int| 0 <= i < s.len() ==> s[i] == 'r' || s[i] == 'g' || s[i] == 'b' || s[i] == 'a')
        || (forall|i: int| 0 <= i < s.len() ==> s[i] == 's' || s[i] == 't' || s[i] == 'p' || s[i] == 'q'))
}

/// A name the crusher must never invent.
pub open spec fn spec_never_generate(s: Seq<char>) -> bool {
    s == seq!['m', 'a', 'i', 'n'] || spec_is_reserved(s) || spec_is_keyword(s)
        || spec_is_builtin_function(s)
}

/// `gl_`/`GL_` prefix or `__` anywhere.
pub fn reserved(s: &[char]) -> (r: bool)
    ensures
        r == spec_is_reserved(s@),
{
    if s.len() >= 3 && s[2] == '_' && ((s[0] == 'g' && s[1] == 'l') || (s[0] == 'G' && s[1] == 'L')) {
        return true;
    }
    let mut i: usize = 0;
    while s.len() > 1 && i < s.len() - 1
        invariant
            i <= s@.len(),
            forall|j: int| 0 <= j < i ==> !#[trigger] underscores_at(s@, j),
        decreases s@.len() - i,
    {
        if s[i] == '_' && s[i + 1] == '_' {
            assert(underscores_at(s@, i as int));
            return true;
        }
        i = i + 1;
    }
    false
}

fn all_in(s: &[char], a: char, b: char, c: char, d: char) -> (r: bool)
    ensures
        r == forall|i: int| 0 <= i < s@.len() ==> s@[i] == a || s@[i] == b || s@[i] == c || s@[i] == d,
{
    let mut i: usize = 0;
    while i < s.len()
        invariant
            i <= s@.len(),
            forall|j: int| 0 <= j < i ==> s@[j] == a || s@[j] == b || s@[j] == c || s@[j] == d,
        decreases s@.len() - i,
    {
        let x = s[i];
        if !(x == a || x == b || x == c || x == d) {
            return false;
        }
        i = i + 1;
    }
    true
}

/// Vector component selector.
pub fn swizzle(s: &[char]) -> (r: bool)
    ensures
        r == spec_is_swizzle(s@),
{
    if s.len() == 0 || s.len() > 4 {
        return false;
    }
    all_in(s, 'x', 'y', 'z', 'w') || all_in(s, 'r', 'g', 'b', 'a') || all_in(s, 's', 't', 'p', 'q')
}

/// Keyword or reserved word in any GLSL version.
pub fn is_keyword(s: &str) -> (r: bool)
    ensures
        r == spec_is_keyword(s@),
{
    let lex = Lexicon::new();
    let c = chars_of(s);
    lex.keyword(c.as_slice())
}

/// Built-in function in any GLSL version or known extension.
pub fn is_builtin_function(s: &str) -> (r: bool)
    ensures
        r == spec_is_builtin_function(s@),
{
    let lex = Lexicon::new();
    let c = chars_of(s);
    lex.builtin_function(c.as_slice())
}

/// Member name of a built-in structure (`gl_LightSource[0].position`, ...).
pub fn is_builtin_member(s: &str) -> (r: bool)
    ensures
        r == spec_is_builtin_member(s@),
{
    let lex = Lexicon::new();
    let c = chars_of(s);
    lex.builtin_member(c.as_slice())
}

/// Reserved by the spec: `gl_`/`GL_` prefix and anything containing `__`.
pub fn is_reserved(s: &str) -> (r: bool)
    ensures
        r == spec_is_reserved(s@),
{
    let c = chars_of(s);
    reserved(c.as_slice())
}

/// Vector component selector: 1 to 4 characters all from one of `xyzw`,
/// `rgba`, `stpq`.
pub fn is_swizzle(s: &str) -> (r: bool)
    ensures
        r == spec_is_swizzle(s@),
{
    let c = chars_of(s);
    swizzle(c.as_slice())
}

/// A name the crusher must never invent: `main`, reserved, keyword or
/// built-in function.
pub fn never_generate(s: &str) -> (r: bool)
    ensures
        r == spec_never_generate(s@),
{
    let lex = Lexicon::new();
    let c = chars_of(s);
    lex.never_generate(c.as_slice())
}

/// The words of `r`.
pub open spec fn string_views(r: Seq<String>) -> Seq<Seq<char>> {
    r.map_values(|x: String| x@)
}

/// `r` holds each word of `words` exactly once, and nothing else.
pub open spec fn each_once(r: Seq<String>, words: Seq<Seq<char>>) -> bool {
    &&& forall|i: int| 0 <= i < r.len() ==> words.contains(#[trigger] r[i]@)
    &&& forall|w: Seq<char>| #[trigger] words.contains(w) ==> string_views(r).contains(w)
    &&& forall|i: int, j: int| 0 <= i < j < r.len() ==> r[i]@ != r[j]@
}

/// The distinct words of `list` as strings, in order of first appearance.
fn distinct_strings(list: &Vec<Vec<char>>) -> (r: Vec<String>)
    ensures
        each_once(r@, views(list@)),
{
    let mut out: Vec<String> = Vec::new();
    let mut seen = crate::names::NameSet::new();
    let mut i: usize = 0;
    while i < list.len()
        invariant
            i <= list@.len(),
            forall|k: int| 0 <= k < out@.len() ==> views(list@).contains(#[trigger] out@[k]@),
            forall|k: int| 0 <= k < i ==> string_views(out@).contains(#[trigger] views(list@)[k]),
            forall|k: int, j: int| 0 <= k < j < out@.len() ==> out@[k]@ != out@[j]@,
            forall|w: Seq<char>| seen@.contains(w) <==> string_views(out@).contains(w),
        decreases list@.len() - i,
    {
        let w = crate::text::string_of(list[i].as_slice());
        proof {
            assert(views(list@)[i as int] == w@);
        }
        if !seen.contains(w.as_str()) {
            seen.insert_str(w.as_str());
            let ghost before = out@;
            out.push(w);
            proof {
                assert(string_views(out@) =~= string_views(before).push(w@));
                assert forall|k: int, j: int| 0 <= k < j < out@.len() implies out@[k]@ != out@[j]@ by {
                    if j == before.len() {
                        assert(string_views(before)[k] == before[k]@);
                    }
                }
                assert forall|k: int| 0 <= k < i + 1 implies string_views(out@).contains(#[trigger] views(list@)[k]) by {
                    if k < i {
                        let x = views(list@)[k];
                        let m = choose|m: int| 0 <= m < string_views(before).len() && string_views(before)[m] == x;
                        assert(string_views(out@)[m] == x);
                    } else {
                        assert(string_views(out@)[before.len() as int] == w@);
                    }
                }
                assert forall|x: Seq<char>| seen@.contains(x) <==> string_views(out@).contains(x) by {
                    if string_views(before).contains(x) {
                        let m = choose|m: int| 0 <= m < string_views(before).len() && string_views(before)[m] == x;
                        assert(string_views(out@)[m] == x);
                    }
                    if string_views(out@).contains(x) && x != w@ {
                        let m = choose|m: int| 0 <= m < string_views(out@).len() && string_views(out@)[m] == x;
                        assert(m < before.len());
                        assert(string_views(before)[m] == x);
                    }
                    if x == w@ {
                        assert(string_views(out@)[before.len() as int] == w@);
                    }
                }
            }
        }
        i = i + 1;
    }
    proof {
        assert forall|x: Seq<char>| #[trigger] views(list@).contains(x) implies string_views(out@).contains(x) by {
            let k = choose|k: int| 0 <= k < views(list@).len() && views(list@)[k] == x;
        }
    }
    out
}

/// Every keyword and reserved word of any GLSL version, once each.
pub fn keywords() -> (r: Vec<String>)
    ensures
        each_once(r@, keyword_words()),
{
    let lex = Lexicon::new();
    distinct_strings(&lex.keywords)
}

/// Every builtin function of any GLSL version or known extension, once each.
pub fn builtin_functions() -> (r: Vec<String>)
    ensures
        each_once(r@, function_words()),
{
    let lex = Lexicon::new();
    distinct_strings(&lex.functions)
}

} // verus!
