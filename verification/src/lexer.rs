//! Token-based RWX lexer.
//!
//! Lexing never fails: whitespace runs and `#` line comments are stripped,
//! punctuation, double-quoted strings (an unterminated quote runs to the end
//! of input), numbers by greedy longest match (falling back to an identifier
//! token when the matched text is not a well-formed number), and alphabetic
//! runs compared case-insensitively against the keyword table. An explicit
//! end-of-input token terminates the stream.

use vstd::prelude::*;
use vstd::string::StrSliceExecFns;

use crate::num::{
    first_idx, is_digit_c, lemma_first_idx_at, num_value, parse_number, valid_number,
};
use crate::strutil::{string_push, eq_upper, upper_match};

verus! {

#[derive(Debug, Clone)]
pub enum Token {
    Ident(String),
    Number(i64),
    StringLiteral(String),
    Comma,
    BeginBlock,
    EndBlock,
    Eof,
    ModelBeginKeyword,
    ModelEndKeyword,
    ProtoBeginKeyword,
    ProtoEndKeyword,
    ClumpBeginKeyword,
    ClumpEndKeyword,
    TransformBeginKeyword,
    TransformEndKeyword,
    JointTransformBeginKeyword,
    JointTransformEndKeyword,
    TransformKeyword,
    VertexKeyword,
    VertexExtKeyword,
    UVKeyword,
    FaceKeyword,
    QuadKeyword,
    PolygonKeyword,
    TextureKeyword,
    ColorKeyword,
    SurfaceKeyword,
    OpacityKeyword,
    TextureModesKeyword,
    LightSamplingKeyword,
    GeometrySamplingKeyword,
    MaterialModesKeyword,
    ProtoInstanceKeyword,
    IdentityKeyword,
    IdentityJointKeyword,
    AmbientKeyword,
    DiffuseKeyword,
    SpecularKeyword,
    AddTextureModeKeyword,
}

/// Mathematical model of a token: text as character sequences, numbers as
/// micro-unit integers.
pub ghost enum TokM {
    Ident(Seq<char>),
    Number(int),
    StringLiteral(Seq<char>),
    Comma,
    BeginBlock,
    EndBlock,
    Eof,
    ModelBeginKeyword,
    ModelEndKeyword,
    ProtoBeginKeyword,
    ProtoEndKeyword,
    ClumpBeginKeyword,
    ClumpEndKeyword,
    TransformBeginKeyword,
    TransformEndKeyword,
    JointTransformBeginKeyword,
    JointTransformEndKeyword,
    TransformKeyword,
    VertexKeyword,
    VertexExtKeyword,
    UVKeyword,
    FaceKeyword,
    QuadKeyword,
    PolygonKeyword,
    TextureKeyword,
    ColorKeyword,
    SurfaceKeyword,
    OpacityKeyword,
    TextureModesKeyword,
    LightSamplingKeyword,
    GeometrySamplingKeyword,
    MaterialModesKeyword,
    ProtoInstanceKeyword,
    IdentityKeyword,
    IdentityJointKeyword,
    AmbientKeyword,
    DiffuseKeyword,
    SpecularKeyword,
    AddTextureModeKeyword,
}

impl View for Token {
    type V = TokM;

    open spec fn view(&self) -> TokM {
        match self {
            Token::Ident(s) => TokM::Ident(s@),
            Token::Number(n) => TokM::Number(*n as int),
            Token::StringLiteral(s) => TokM::StringLiteral(s@),
            Token::Comma => TokM::Comma,
            Token::BeginBlock => TokM::BeginBlock,
            Token::EndBlock => TokM::EndBlock,
            Token::Eof => TokM::Eof,
            Token::ModelBeginKeyword => TokM::ModelBeginKeyword,
            Token::ModelEndKeyword => TokM::ModelEndKeyword,
            Token::ProtoBeginKeyword => TokM::ProtoBeginKeyword,
            Token::ProtoEndKeyword => TokM::ProtoEndKeyword,
            Token::ClumpBeginKeyword => TokM::ClumpBeginKeyword,
            Token::ClumpEndKeyword => TokM::ClumpEndKeyword,
            Token::TransformBeginKeyword => TokM::TransformBeginKeyword,
            Token::TransformEndKeyword => TokM::TransformEndKeyword,
            Token::JointTransformBeginKeyword => TokM::JointTransformBeginKeyword,
            Token::JointTransformEndKeyword => TokM::JointTransformEndKeyword,
            Token::TransformKeyword => TokM::TransformKeyword,
            Token::VertexKeyword => TokM::VertexKeyword,
            Token::VertexExtKeyword => TokM::VertexExtKeyword,
            Token::UVKeyword => TokM::UVKeyword,
            Token::FaceKeyword => TokM::FaceKeyword,
            Token::QuadKeyword => TokM::QuadKeyword,
            Token::PolygonKeyword => TokM::PolygonKeyword,
            Token::TextureKeyword => TokM::TextureKeyword,
            Token::ColorKeyword => TokM::ColorKeyword,
            Token::SurfaceKeyword => TokM::SurfaceKeyword,
            Token::OpacityKeyword => TokM::OpacityKeyword,
            Token::TextureModesKeyword => TokM::TextureModesKeyword,
            Token::LightSamplingKeyword => TokM::LightSamplingKeyword,
            Token::GeometrySamplingKeyword => TokM::GeometrySamplingKeyword,
            Token::MaterialModesKeyword => TokM::MaterialModesKeyword,
            Token::ProtoInstanceKeyword => TokM::ProtoInstanceKeyword,
            Token::IdentityKeyword => TokM::IdentityKeyword,
            Token::IdentityJointKeyword => TokM::IdentityJointKeyword,
            Token::AmbientKeyword => TokM::AmbientKeyword,
            Token::DiffuseKeyword => TokM::DiffuseKeyword,
            Token::SpecularKeyword => TokM::SpecularKeyword,
            Token::AddTextureModeKeyword => TokM::AddTextureModeKeyword,
        }
    }
}

/// The token stream as its mathematical model.
pub open spec fn toks_view(ts: Seq<Token>) -> Seq<TokM> {
    ts.map_values(|t: Token| t@)
}

/// ASCII whitespace.
pub open spec fn is_space_c(c: char) -> bool {
    c as u32 == 32 || 9 <= c as u32 <= 13
}

/// ASCII letter.
pub open spec fn is_alpha_c(c: char) -> bool {
    65 <= c as u32 <= 90 || 97 <= c as u32 <= 122
}

/// Identifier continuation: ASCII letter, digit or underscore.
pub open spec fn is_ident_cont_c(c: char) -> bool {
    is_alpha_c(c) || is_digit_c(c) || c == '_'
}

/// Number continuation: digit, point, exponent mark or sign.
pub open spec fn is_num_cont_c(c: char) -> bool {
    is_digit_c(c) || c == '.' || c == 'e' || c == 'E' || c == '+' || c == '-'
}

/// Number start: minus sign, digit or point.
pub open spec fn is_num_start_c(c: char) -> bool {
    c == '-' || is_digit_c(c) || c == '.'
}

pub open spec fn is_newline_c(c: char) -> bool {
    c == '\n' || c == '\r'
}

/// The keyword table: a word maps to its keyword token when it matches
/// upper-cased, and stays an identifier otherwise.
pub open spec fn kw_tok(w: Seq<char>) -> TokM {
    if upper_match(w, "MODELBEGIN"@) {
        TokM::ModelBeginKeyword
    } else if upper_match(w, "MODELEND"@) {
        TokM::ModelEndKeyword
    } else if upper_match(w, "PROTOBEGIN"@) {
        TokM::ProtoBeginKeyword
    } else if upper_match(w, "PROTOEND"@) {
        TokM::ProtoEndKeyword
    } else if upper_match(w, "CLUMPBEGIN"@) {
        TokM::ClumpBeginKeyword
    } else if upper_match(w, "CLUMPEND"@) {
        TokM::ClumpEndKeyword
    } else if upper_match(w, "TRANSFORMBEGIN"@) {
        TokM::TransformBeginKeyword
    } else if upper_match(w, "TRANSFORMEND"@) {
        TokM::TransformEndKeyword
    } else if upper_match(w, "JOINTTRANSFORMBEGIN"@) {
        TokM::JointTransformBeginKeyword
    } else if upper_match(w, "JOINTTRANSFORMEND"@) {
        TokM::JointTransformEndKeyword
    } else if upper_match(w, "TRANSFORM"@) {
        TokM::TransformKeyword
    } else if upper_match(w, "VERTEX"@) {
        TokM::VertexKeyword
    } else if upper_match(w, "VERTEXEXT"@) {
        TokM::VertexExtKeyword
    } else if upper_match(w, "UV"@) {
        TokM::UVKeyword
    } else if upper_match(w, "FACE"@) {
        TokM::FaceKeyword
    } else if upper_match(w, "QUAD"@) {
        TokM::QuadKeyword
    } else if upper_match(w, "POLYGON"@) {
        TokM::PolygonKeyword
    } else if upper_match(w, "TEXTURE"@) {
        TokM::TextureKeyword
    } else if upper_match(w, "COLOR"@) {
        TokM::ColorKeyword
    } else if upper_match(w, "SURFACE"@) {
        TokM::SurfaceKeyword
    } else if upper_match(w, "OPACITY"@) {
        TokM::OpacityKeyword
    } else if upper_match(w, "TEXTUREMODES"@) {
        TokM::TextureModesKeyword
    } else if upper_match(w, "LIGHTSAMPLING"@) {
        TokM::LightSamplingKeyword
    } else if upper_match(w, "GEOMETRYSAMPLING"@) {
        TokM::GeometrySamplingKeyword
    } else if upper_match(w, "MATERIALMODES"@) {
        TokM::MaterialModesKeyword
    } else if upper_match(w, "PROTOINSTANCE"@) {
        TokM::ProtoInstanceKeyword
    } else if upper_match(w, "IDENTITYJOINT"@) {
        TokM::IdentityJointKeyword
    } else if upper_match(w, "IDENTITY"@) {
        TokM::IdentityKeyword
    } else if upper_match(w, "AMBIENT"@) {
        TokM::AmbientKeyword
    } else if upper_match(w, "DIFFUSE"@) {
        TokM::DiffuseKeyword
    } else if upper_match(w, "SPECULAR"@) {
        TokM::SpecularKeyword
    } else if upper_match(w, "ADDTEXTUREMODE"@) {
        TokM::AddTextureModeKeyword
    } else {
        TokM::Ident(w)
    }
}

/// One token (or none, for skipped text) and the index where scanning
/// resumes.
pub ghost struct LexStep {
    pub emitted: Seq<TokM>,
    pub next: int,
}

/// The lexing step at index `i`: which tokens the character there gives rise
/// to and where the scan resumes.
pub open spec fn lex_step(s: Seq<char>, i: int) -> LexStep
    recommends
        0 <= i < s.len(),
{
    let c = s[i];
    if is_space_c(c) {
        LexStep { emitted: Seq::empty(), next: i + 1 }
    } else if c == '#' {
        let j = first_idx(s, i + 1, |c2: char| is_newline_c(c2));
        LexStep {
            emitted: Seq::empty(),
            next: if j < s.len() {
                j + 1
            } else {
                j
            },
        }
    } else if c == '{' {
        LexStep { emitted: seq![TokM::BeginBlock], next: i + 1 }
    } else if c == '}' {
        LexStep { emitted: seq![TokM::EndBlock], next: i + 1 }
    } else if c == ',' {
        LexStep { emitted: seq![TokM::Comma], next: i + 1 }
    } else if c == '"' {
        let j = first_idx(s, i + 1, |c2: char| c2 == '"');
        LexStep {
            emitted: seq![TokM::StringLiteral(s.subrange(i + 1, j))],
            next: if j < s.len() {
                j + 1
            } else {
                j
            },
        }
    } else if is_num_start_c(c) {
        let j = first_idx(s, i + 1, |c2: char| !is_num_cont_c(c2));
        let text = s.subrange(i, j);
        LexStep {
            emitted: if valid_number(text) {
                seq![TokM::Number(num_value(text))]
            } else {
                seq![TokM::Ident(text)]
            },
            next: j,
        }
    } else if is_alpha_c(c) {
        let j = first_idx(s, i + 1, |c2: char| !is_ident_cont_c(c2));
        LexStep { emitted: seq![kw_tok(s.subrange(i, j))], next: j }
    } else {
        LexStep { emitted: Seq::empty(), next: i + 1 }
    }
}

/// The token stream produced from index `i` onward, ending in the explicit
/// end-of-input token.
pub open spec fn lex_from(s: Seq<char>, i: int) -> Seq<TokM>
    decreases s.len() - i,
{
    if i < 0 || i >= s.len() {
        seq![TokM::Eof]
    } else {
        let st = lex_step(s, i);
        if i < st.next <= s.len() {
            st.emitted + lex_from(s, st.next)
        } else {
            seq![TokM::Eof]
        }
    }
}

/// Each lexing step consumes at least one character and stays within the
/// input.
pub proof fn lemma_lex_step_progress(s: Seq<char>, i: int)
    requires
        0 <= i < s.len(),
    ensures
        i < lex_step(s, i).next <= s.len(),
{
    let c = s[i];
    if c == '#' {
        lemma_first_idx_props(s, i + 1, |c2: char| is_newline_c(c2));
    } else if !is_space_c(c) && c == '"' {
        lemma_first_idx_props(s, i + 1, |c2: char| c2 == '"');
    } else if !is_space_c(c) && is_num_start_c(c) {
        lemma_first_idx_props(s, i + 1, |c2: char| !is_num_cont_c(c2));
    } else if !is_space_c(c) && is_alpha_c(c) {
        lemma_first_idx_props(s, i + 1, |c2: char| !is_ident_cont_c(c2));
    }
}

pub proof fn lemma_first_idx_props(s: Seq<char>, i: int, pred: spec_fn(char) -> bool)
    requires
        0 <= i <= s.len(),
    ensures
        i <= first_idx(s, i, pred) <= s.len(),
    decreases s.len() - i,
{
    if i < s.len() && !pred(s[i]) {
        lemma_first_idx_props(s, i + 1, pred);
    }
}

/// Number-token continuation characters: digits, the decimal point, an
/// exponent mark and signs.
pub fn is_number_char_continuation(c: char) -> (r: bool)
    ensures
        r == is_num_cont_c(c),
{
    let u = c as u32;
    (48 <= u && u <= 57) || c == '.' || c == 'e' || c == 'E' || c == '+' || c == '-'
}

fn is_space_exec(c: char) -> (r: bool)
    ensures
        r == is_space_c(c),
{
    let u = c as u32;
    u == 32 || (9 <= u && u <= 13)
}

fn is_alpha_exec(c: char) -> (r: bool)
    ensures
        r == is_alpha_c(c),
{
    let u = c as u32;
    (65 <= u && u <= 90) || (97 <= u && u <= 122)
}

fn is_num_start_exec(c: char) -> (r: bool)
    ensures
        r == is_num_start_c(c),
{
    let u = c as u32;
    c == '-' || (48 <= u && u <= 57) || c == '.'
}

fn not_newline_at(s: &str, i: usize) -> (r: bool)
    requires
        i < s@.len(),
    ensures
        r == !is_newline_c(s@[i as int]),
{
    let c = s.get_char(i);
    !(c == '\n' || c == '\r')
}

fn not_quote_at(s: &str, i: usize) -> (r: bool)
    requires
        i < s@.len(),
    ensures
        r == (s@[i as int] != '"'),
{
    let c = s.get_char(i);
    c != '"'
}

fn num_cont_at(s: &str, i: usize) -> (r: bool)
    requires
        i < s@.len(),
    ensures
        r == is_num_cont_c(s@[i as int]),
{
    is_number_char_continuation(s.get_char(i))
}

fn ident_cont_at(s: &str, i: usize) -> (r: bool)
    requires
        i < s@.len(),
    ensures
        r == is_ident_cont_c(s@[i as int]),
{
    let c = s.get_char(i);
    let u = c as u32;
    (65 <= u && u <= 90) || (97 <= u && u <= 122) || (48 <= u && u <= 57) || c == '_'
}

/// Look up a collected word in the keyword table.
fn keyword_token(w: String) -> (t: Token)
    ensures
        t@ == kw_tok(w@),
{
    if eq_upper(&w, "MODELBEGIN") {
        Token::ModelBeginKeyword
    } else if eq_upper(&w, "MODELEND") {
        Token::ModelEndKeyword
    } else if eq_upper(&w, "PROTOBEGIN") {
        Token::ProtoBeginKeyword
    } else if eq_upper(&w, "PROTOEND") {
        Token::ProtoEndKeyword
    } else if eq_upper(&w, "CLUMPBEGIN") {
        Token::ClumpBeginKeyword
    } else if eq_upper(&w, "CLUMPEND") {
        Token::ClumpEndKeyword
    } else if eq_upper(&w, "TRANSFORMBEGIN") {
        Token::TransformBeginKeyword
    } else if eq_upper(&w, "TRANSFORMEND") {
        Token::TransformEndKeyword
    } else if eq_upper(&w, "JOINTTRANSFORMBEGIN") {
        Token::JointTransformBeginKeyword
    } else if eq_upper(&w, "JOINTTRANSFORMEND") {
        Token::JointTransformEndKeyword
    } else if eq_upper(&w, "TRANSFORM") {
        Token::TransformKeyword
    } else if eq_upper(&w, "VERTEX") {
        Token::VertexKeyword
    } else if eq_upper(&w, "VERTEXEXT") {
        Token::VertexExtKeyword
    } else if eq_upper(&w, "UV") {
        Token::UVKeyword
    } else if eq_upper(&w, "FACE") {
        Token::FaceKeyword
    } else if eq_upper(&w, "QUAD") {
        Token::QuadKeyword
    } else if eq_upper(&w, "POLYGON") {
        Token::PolygonKeyword
    } else if eq_upper(&w, "TEXTURE") {
        Token::TextureKeyword
    } else if eq_upper(&w, "COLOR") {
        Token::ColorKeyword
    } else if eq_upper(&w, "SURFACE") {
        Token::SurfaceKeyword
    } else if eq_upper(&w, "OPACITY") {
        Token::OpacityKeyword
    } else if eq_upper(&w, "TEXTUREMODES") {
        Token::TextureModesKeyword
    } else if eq_upper(&w, "LIGHTSAMPLING") {
        Token::LightSamplingKeyword
    } else if eq_upper(&w, "GEOMETRYSAMPLING") {
        Token::GeometrySamplingKeyword
    } else if eq_upper(&w, "MATERIALMODES") {
        Token::MaterialModesKeyword
    } else if eq_upper(&w, "PROTOINSTANCE") {
        Token::ProtoInstanceKeyword
    } else if eq_upper(&w, "IDENTITYJOINT") {
        Token::IdentityJointKeyword
    } else if eq_upper(&w, "IDENTITY") {
        Token::IdentityKeyword
    } else if eq_upper(&w, "AMBIENT") {
        Token::AmbientKeyword
    } else if eq_upper(&w, "DIFFUSE") {
        Token::DiffuseKeyword
    } else if eq_upper(&w, "SPECULAR") {
        Token::SpecularKeyword
    } else if eq_upper(&w, "ADDTEXTUREMODE") {
        Token::AddTextureModeKeyword
    } else {
        Token::Ident(w)
    }
}

/// Scan a `#` comment starting at `i`; give the index where lexing resumes.
fn lex_comment(s: &str, i: usize, n: usize) -> (ni: usize)
    requires
        n == s@.len(),
        i < n,
        s@[i as int] == '#',
    ensures
        ni as int == lex_step(s@, i as int).next,
        i < ni <= n,
{
    let mut j = i + 1;
    while j < n && not_newline_at(s, j)
        invariant
            i + 1 <= j <= n == s@.len(),
            forall|q: int| i + 1 <= q < j ==> !is_newline_c(s@[q]),
        decreases n - j,
    {
        j = j + 1;
    }
    proof {
        lemma_first_idx_at(s@, i + 1, j as int, |c2: char| is_newline_c(c2));
    }
    if j < n {
        j + 1
    } else {
        j
    }
}

/// Scan a double-quoted string literal starting at `i`.
fn lex_string(s: &str, i: usize, n: usize) -> (r: (Token, usize))
    requires
        n == s@.len(),
        i < n,
        s@[i as int] == '"',
    ensures
        ({
            let st = lex_step(s@, i as int);
            &&& st.emitted == seq![r.0@]
            &&& r.1 as int == st.next
            &&& i < r.1 <= n
        }),
{
    let mut j = i + 1;
    let mut text = String::new();
    while j < n && not_quote_at(s, j)
        invariant
            i + 1 <= j <= n == s@.len(),
            forall|q: int| i + 1 <= q < j ==> s@[q] != '"',
            text@ == s@.subrange(i + 1, j as int),
        decreases n - j,
    {
        let c = s.get_char(j);
        string_push(&mut text, c);
        proof {
            assert(s@.subrange(i + 1, j + 1) =~= s@.subrange(i + 1, j as int).push(s@[j as int]));
        }
        j = j + 1;
    }
    proof {
        lemma_first_idx_at(s@, i + 1, j as int, |c2: char| c2 == '"');
    }
    let ni = if j < n {
        j + 1
    } else {
        j
    };
    (Token::StringLiteral(text), ni)
}

/// Scan a number-shaped run starting at `i`; fall back to an identifier
/// token when the text is not a well-formed number.
fn lex_number(s: &str, i: usize, n: usize) -> (r: (Token, usize))
    requires
        n == s@.len(),
        i < n,
        is_num_start_c(s@[i as int]),
        !is_space_c(s@[i as int]),
        s@[i as int] != '#',
        s@[i as int] != '{',
        s@[i as int] != '}',
        s@[i as int] != ',',
        s@[i as int] != '"',
    ensures
        ({
            let st = lex_step(s@, i as int);
            &&& st.emitted == seq![r.0@]
            &&& r.1 as int == st.next
            &&& i < r.1 <= n
        }),
{
    let c0 = s.get_char(i);
    let mut text = String::new();
    string_push(&mut text, c0);
    let mut j = i + 1;
    proof {
        assert(text@ =~= s@.subrange(i as int, i + 1));
    }
    while j < n && num_cont_at(s, j)
        invariant
            i + 1 <= j <= n == s@.len(),
            forall|q: int| i + 1 <= q < j ==> is_num_cont_c(s@[q]),
            text@ == s@.subrange(i as int, j as int),
        decreases n - j,
    {
        let c = s.get_char(j);
        string_push(&mut text, c);
        proof {
            assert(s@.subrange(i as int, j + 1) =~= s@.subrange(i as int, j as int).push(
                s@[j as int],
            ));
        }
        j = j + 1;
    }
    proof {
        lemma_first_idx_at(s@, i + 1, j as int, |c2: char| !is_num_cont_c(c2));
    }
    let parsed = parse_number(text.as_str());
    match parsed {
        Some(v) => (Token::Number(v), j),
        None => (Token::Ident(text), j),
    }
}

/// Scan an alphabetic word starting at `i` and look it up in the keyword
/// table.
fn lex_word(s: &str, i: usize, n: usize) -> (r: (Token, usize))
    requires
        n == s@.len(),
        i < n,
        is_alpha_c(s@[i as int]),
        !is_space_c(s@[i as int]),
        s@[i as int] != '#',
        s@[i as int] != '{',
        s@[i as int] != '}',
        s@[i as int] != ',',
        s@[i as int] != '"',
        !is_num_start_c(s@[i as int]),
    ensures
        ({
            let st = lex_step(s@, i as int);
            &&& st.emitted == seq![r.0@]
            &&& r.1 as int == st.next
            &&& i < r.1 <= n
        }),
{
    let c0 = s.get_char(i);
    let mut word = String::new();
    string_push(&mut word, c0);
    let mut j = i + 1;
    proof {
        assert(word@ =~= s@.subrange(i as int, i + 1));
    }
    while j < n && ident_cont_at(s, j)
        invariant
            i + 1 <= j <= n == s@.len(),
            forall|q: int| i + 1 <= q < j ==> is_ident_cont_c(s@[q]),
            word@ == s@.subrange(i as int, j as int),
        decreases n - j,
    {
        let c = s.get_char(j);
        string_push(&mut word, c);
        proof {
            assert(s@.subrange(i as int, j + 1) =~= s@.subrange(i as int, j as int).push(
                s@[j as int],
            ));
        }
        j = j + 1;
    }
    proof {
        lemma_first_idx_at(s@, i + 1, j as int, |c2: char| !is_ident_cont_c(c2));
    }
    (keyword_token(word), j)
}

proof fn lemma_toks_view_push(ts: Seq<Token>, t: Token)
    ensures
        toks_view(ts.push(t)) =~= toks_view(ts).push(t@),
{
}

/// Turn RWX source text into its token stream. Lexing never fails; the
/// stream always ends with the end-of-input token.
pub fn lex(input: &str) -> (r: Vec<Token>)
    ensures
        toks_view(r@) == lex_from(input@, 0),
        r@.len() > 0,
        r@[r@.len() - 1]@ == TokM::Eof,
{
    let ghost s = input@;
    let n = input.unicode_len();
    let mut tokens: Vec<Token> = Vec::new();
    let mut i: usize = 0;
    proof {
        assert(toks_view(tokens@) =~= Seq::<TokM>::empty());
    }
    while i < n
        invariant
            i <= n == s.len(),
            s == input@,
            lex_from(s, 0) == toks_view(tokens@) + lex_from(s, i as int),
        decreases n - i,
    {
        let ghost st = lex_step(s, i as int);
        proof {
            lemma_lex_step_progress(s, i as int);
            assert(lex_from(s, i as int) == st.emitted + lex_from(s, st.next));
        }
        let c = input.get_char(i);
        if is_space_exec(c) {
            i = i + 1;
        } else if c == '#' {
            i = lex_comment(input, i, n);
        } else if c == '{' {
            tokens.push(Token::BeginBlock);
            proof {
                lemma_toks_view_push(tokens@.drop_last(), Token::BeginBlock);
                assert(tokens@.drop_last().push(Token::BeginBlock) =~= tokens@);
            }
            i = i + 1;
        } else if c == '}' {
            tokens.push(Token::EndBlock);
            proof {
                lemma_toks_view_push(tokens@.drop_last(), Token::EndBlock);
                assert(tokens@.drop_last().push(Token::EndBlock) =~= tokens@);
            }
            i = i + 1;
        } else if c == ',' {
            tokens.push(Token::Comma);
            proof {
                lemma_toks_view_push(tokens@.drop_last(), Token::Comma);
                assert(tokens@.drop_last().push(Token::Comma) =~= tokens@);
            }
            i = i + 1;
        } else if c == '"' {
            let (t, ni) = lex_string(input, i, n);
            tokens.push(t);
            proof {
                lemma_toks_view_push(tokens@.drop_last(), t);
                assert(tokens@.drop_last().push(t) =~= tokens@);
            }
            i = ni;
        } else if is_num_start_exec(c) {
            let (t, ni) = lex_number(input, i, n);
            tokens.push(t);
            proof {
                lemma_toks_view_push(tokens@.drop_last(), t);
                assert(tokens@.drop_last().push(t) =~= tokens@);
            }
            i = ni;
        } else if is_alpha_exec(c) {
            let (t, ni) = lex_word(input, i, n);
            tokens.push(t);
            proof {
                lemma_toks_view_push(tokens@.drop_last(), t);
                assert(tokens@.drop_last().push(t) =~= tokens@);
            }
            i = ni;
        } else {
            i = i + 1;
        }
        proof {
            assert(lex_from(s, 0) =~= toks_view(tokens@) + lex_from(s, i as int));
        }
    }
    tokens.push(Token::Eof);
    proof {
        lemma_toks_view_push(tokens@.drop_last(), Token::Eof);
        assert(tokens@.drop_last().push(Token::Eof) =~= tokens@);
        assert(lex_from(s, n as int) =~= seq![TokM::Eof]);
        assert(toks_view(tokens@) =~= lex_from(s, 0));
    }
    tokens
}

} // verus!
