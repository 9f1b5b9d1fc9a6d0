//! Structural parser: a state machine over the token stream that builds the
//! scene objects.
//!
//! `ModelBegin` opens the model; prototypes and clumps collect vertices and
//! faces; transform blocks are structural scoping and are skipped whole;
//! unknown tokens inside a scope are consumed one at a time and never abort.
//! Missing numeric arguments of `Vertex`/`VertexExt`/`Quad`/`Polygon`, a
//! missing name, and end of input inside an open scope are fatal.

use vstd::prelude::*;

use crate::ast::{MeshM, ObjM, RwxFace, RwxMesh, RwxObject, RwxVertex, VertM};
use crate::fx::{tdiv, SCALE};
use crate::lexer::{toks_view, TokM, Token};

verus! {

#[derive(Debug, Clone)]
pub enum ParseErrorKind {
    /// A specific token was required and something else stood there.
    Expected(Token),
    /// A numeric argument was required and something else stood there.
    ExpectedNumber,
    /// A prototype or texture name was required and something else stood
    /// there.
    ExpectedName,
    /// End of input inside an open scope.
    UnexpectedEof,
}

/// A fatal parse error: what went wrong and the token index where.
#[derive(Debug, Clone)]
pub struct ParseError {
    pub kind: ParseErrorKind,
    pub position: usize,
}

pub ghost enum PErrKindM {
    Expected(TokM),
    ExpectedNumber,
    ExpectedName,
    UnexpectedEof,
}

pub ghost struct PErrM {
    pub kind: PErrKindM,
    pub pos: int,
}

impl View for ParseErrorKind {
    type V = PErrKindM;

    open spec fn view(&self) -> PErrKindM {
        match self {
            ParseErrorKind::Expected(t) => PErrKindM::Expected(t@),
            ParseErrorKind::ExpectedNumber => PErrKindM::ExpectedNumber,
            ParseErrorKind::ExpectedName => PErrKindM::ExpectedName,
            ParseErrorKind::UnexpectedEof => PErrKindM::UnexpectedEof,
        }
    }
}

impl View for ParseError {
    type V = PErrM;

    open spec fn view(&self) -> PErrM {
        PErrM { kind: self.kind@, pos: self.position as int }
    }
}

/// Whole units denoted by a micro-unit number token, truncated toward zero,
/// clamped to `[0, u32::MAX]`; used for counts and one-based indices.
pub open spec fn count_of_num(n: int) -> int {
    let t = tdiv(n, SCALE as int);
    if t < 0 {
        0
    } else if t > u32::MAX as int {
        u32::MAX as int
    } else {
        t
    }
}

/// A face index from a one-based number token: converted to zero-based,
/// saturating at zero.
pub open spec fn face_index(n: int) -> int {
    let t = count_of_num(n);
    if t == 0 {
        0
    } else {
        t - 1
    }
}

pub open spec fn expect_spec(ts: Seq<TokM>, i: int, e: TokM) -> Result<int, PErrM> {
    if 0 <= i < ts.len() && ts[i] == e {
        Ok(i + 1)
    } else {
        Err(PErrM { kind: PErrKindM::Expected(e), pos: i })
    }
}

pub open spec fn num_at(ts: Seq<TokM>, i: int) -> Result<(int, int), PErrM> {
    if 0 <= i < ts.len() {
        match ts[i] {
            TokM::Number(n) => Ok((n, i + 1)),
            _ => Err(PErrM { kind: PErrKindM::ExpectedNumber, pos: i }),
        }
    } else {
        Err(PErrM { kind: PErrKindM::ExpectedNumber, pos: i })
    }
}

/// Consume `c` numeric arguments.
pub open spec fn read_nums(ts: Seq<TokM>, i: int, c: int) -> Result<int, PErrM>
    decreases c,
{
    if c <= 0 {
        Ok(i)
    } else {
        match num_at(ts, i) {
            Ok((n, j)) => read_nums(ts, j, c - 1),
            Err(e) => Err(e),
        }
    }
}

/// Consume `c` one-based face indices, converting each to zero-based.
pub open spec fn read_indices(ts: Seq<TokM>, i: int, c: int, acc: Seq<int>) -> Result<
    (Seq<int>, int),
    PErrM,
>
    decreases c,
{
    if c <= 0 {
        Ok((acc, i))
    } else {
        match num_at(ts, i) {
            Ok((n, j)) => read_indices(ts, j, c - 1, acc.push(face_index(n))),
            Err(e) => Err(e),
        }
    }
}

/// Parse one vertex command at `i`: keyword, three coordinates, the `UV`
/// keyword and two texture coordinates.
pub open spec fn vertex_at(ts: Seq<TokM>, i: int) -> Result<(VertM, int), PErrM> {
    match num_at(ts, i + 1) {
        Err(e) => Err(e),
        Ok((x, j1)) => match num_at(ts, j1) {
            Err(e) => Err(e),
            Ok((y, j2)) => match num_at(ts, j2) {
                Err(e) => Err(e),
                Ok((z, j3)) => match expect_spec(ts, j3, TokM::UVKeyword) {
                    Err(e) => Err(e),
                    Ok(j4) => match num_at(ts, j4) {
                        Err(e) => Err(e),
                        Ok((u, j5)) => match num_at(ts, j5) {
                            Err(e) => Err(e),
                            Ok((v, j6)) => Ok(
                                (VertM { x, y, z, u: Some(u), v: Some(v) }, j6),
                            ),
                        },
                    },
                },
            },
        },
    }
}

pub open spec fn is_skip_arg(t: TokM) -> bool {
    (t matches TokM::Ident(_)) || (t matches TokM::Number(_))
}

/// End of a run of identifier or number arguments.
pub open spec fn skip_args_end(ts: Seq<TokM>, i: int) -> int
    decreases ts.len() - i,
{
    if i < 0 || i >= ts.len() {
        ts.len() as int
    } else if is_skip_arg(ts[i]) {
        skip_args_end(ts, i + 1)
    } else {
        i
    }
}

pub proof fn lemma_skip_args_end_at(ts: Seq<TokM>, i: int, p: int)
    requires
        0 <= i <= p <= ts.len(),
        forall|q: int| i <= q < p ==> is_skip_arg(ts[q]),
        p < ts.len() ==> !is_skip_arg(ts[p]),
    ensures
        skip_args_end(ts, i) == p,
    decreases p - i,
{
    if i < p {
        lemma_skip_args_end_at(ts, i + 1, p);
    }
}

/// Index of the first occurrence of a token at or after `i`, or the length.
pub open spec fn block_end_idx(ts: Seq<TokM>, i: int, e: TokM) -> int
    decreases ts.len() - i,
{
    if i < 0 || i >= ts.len() {
        ts.len() as int
    } else if ts[i] == e {
        i
    } else {
        block_end_idx(ts, i + 1, e)
    }
}

pub proof fn lemma_block_end_bounds(ts: Seq<TokM>, i: int, e: TokM)
    requires
        0 <= i <= ts.len(),
    ensures
        i <= block_end_idx(ts, i, e) <= ts.len(),
    decreases ts.len() - i,
{
    if i < ts.len() && ts[i] != e {
        lemma_block_end_bounds(ts, i + 1, e);
    }
}

pub proof fn lemma_block_end_idx_at(ts: Seq<TokM>, i: int, p: int, e: TokM)
    requires
        0 <= i <= p <= ts.len(),
        forall|q: int| i <= q < p ==> ts[q] != e,
        p < ts.len() ==> ts[p] == e,
    ensures
        block_end_idx(ts, i, e) == if p < ts.len() {
            p
        } else {
            ts.len() as int
        },
    decreases p - i,
{
    if i < p {
        lemma_block_end_idx_at(ts, i + 1, p, e);
    }
}

/// Outcome of handling one command inside a geometry-collecting scope.
pub ghost enum StepRes {
    /// The scope's end token was consumed; scanning resumes after it.
    Done(int),
    /// One command was consumed; the collected vertices and faces so far.
    More(int, Seq<VertM>, Seq<Seq<int>>),
    Fail(PErrM),
}

/// Handle one command at `i` inside a prototype or clump scope.
pub open spec fn hsc_step(ts: Seq<TokM>, i: int, vs: Seq<VertM>, fs: Seq<Seq<int>>) -> StepRes {
    if !(0 <= i < ts.len()) {
        StepRes::Fail(PErrM { kind: PErrKindM::UnexpectedEof, pos: i })
    } else {
        let t = ts[i];
        if (t matches TokM::ProtoEndKeyword) || (t matches TokM::ClumpEndKeyword) {
            StepRes::Done(i + 1)
        } else if (t matches TokM::VertexKeyword) || (t matches TokM::VertexExtKeyword) {
            match vertex_at(ts, i) {
                Ok((v, j)) => StepRes::More(j, vs.push(v), fs),
                Err(e) => StepRes::Fail(e),
            }
        } else if (t matches TokM::QuadKeyword) {
            match read_indices(ts, i + 1, 4, Seq::empty()) {
                Ok((idx, j)) => StepRes::More(j, vs, fs.push(idx)),
                Err(e) => StepRes::Fail(e),
            }
        } else if (t matches TokM::PolygonKeyword) {
            match num_at(ts, i + 1) {
                Err(e) => StepRes::Fail(e),
                Ok((n, j)) => match read_indices(ts, j, count_of_num(n), Seq::empty()) {
                    Ok((idx, j2)) => StepRes::More(j2, vs, fs.push(idx)),
                    Err(e) => StepRes::Fail(e),
                },
            }
        } else if (t matches TokM::TransformKeyword) {
            match read_nums(ts, i + 1, 16) {
                Ok(j) => StepRes::More(j, vs, fs),
                Err(e) => StepRes::Fail(e),
            }
        } else if (t matches TokM::ColorKeyword) || (t matches TokM::AmbientKeyword)
            || (t matches TokM::DiffuseKeyword) || (t matches TokM::SpecularKeyword)
            || (t matches TokM::SurfaceKeyword) {
            match read_nums(ts, i + 1, 3) {
                Ok(j) => StepRes::More(j, vs, fs),
                Err(e) => StepRes::Fail(e),
            }
        } else if (t matches TokM::OpacityKeyword) {
            match read_nums(ts, i + 1, 1) {
                Ok(j) => StepRes::More(j, vs, fs),
                Err(e) => StepRes::Fail(e),
            }
        } else if (t matches TokM::TextureKeyword) {
            if i + 1 < ts.len() && ((ts[i + 1] matches TokM::Ident(_)) || (ts[i + 1]
                matches TokM::StringLiteral(_))) {
                StepRes::More(i + 2, vs, fs)
            } else {
                StepRes::Fail(PErrM { kind: PErrKindM::ExpectedName, pos: i + 1 })
            }
        } else if (t matches TokM::TextureModesKeyword) || (t matches TokM::LightSamplingKeyword)
            || (t matches TokM::GeometrySamplingKeyword) || (t matches TokM::MaterialModesKeyword)
            || (t matches TokM::IdentityKeyword) || (t matches TokM::IdentityJointKeyword)
            || (t matches TokM::AddTextureModeKeyword) {
            StepRes::More(skip_args_end(ts, i + 1), vs, fs)
        } else {
            StepRes::More(i + 1, vs, fs)
        }
    }
}

/// The commands a geometry-collecting scope recognizes.
pub open spec fn is_scope_command(t: TokM) -> bool {
    match t {
        TokM::ProtoEndKeyword => true,
        TokM::ClumpEndKeyword => true,
        TokM::VertexKeyword => true,
        TokM::VertexExtKeyword => true,
        TokM::QuadKeyword => true,
        TokM::PolygonKeyword => true,
        TokM::TransformKeyword => true,
        TokM::ColorKeyword => true,
        TokM::AmbientKeyword => true,
        TokM::DiffuseKeyword => true,
        TokM::SpecularKeyword => true,
        TokM::SurfaceKeyword => true,
        TokM::OpacityKeyword => true,
        TokM::TextureKeyword => true,
        TokM::TextureModesKeyword => true,
        TokM::LightSamplingKeyword => true,
        TokM::GeometrySamplingKeyword => true,
        TokM::MaterialModesKeyword => true,
        TokM::IdentityKeyword => true,
        TokM::IdentityJointKeyword => true,
        TokM::AddTextureModeKeyword => true,
        _ => false,
    }
}

/// An unrecognized token inside a geometry scope is consumed alone: the
/// collected vertices and faces are untouched and scanning resumes at the
/// very next token, so unknown commands never affect surrounding vertex or
/// face counts.
pub proof fn lemma_unknown_token_skipped(ts: Seq<TokM>, i: int, vs: Seq<VertM>, fs: Seq<Seq<int>>)
    requires
        0 <= i < ts.len(),
        !is_scope_command(ts[i]),
    ensures
        hsc_step(ts, i, vs, fs) == StepRes::More(i + 1, vs, fs),
{
}

/// Collect commands inside a prototype scope until its end token.
pub open spec fn proto_loop(ts: Seq<TokM>, i: int, vs: Seq<VertM>, fs: Seq<Seq<int>>) -> Result<
    (MeshM, int),
    PErrM,
>
    decreases ts.len() - i,
{
    match hsc_step(ts, i, vs, fs) {
        StepRes::Done(j) => Ok((MeshM { vertices: vs, faces: fs }, j)),
        StepRes::More(j, vs2, fs2) => if i < j <= ts.len() {
            proto_loop(ts, j, vs2, fs2)
        } else {
            Err(PErrM { kind: PErrKindM::UnexpectedEof, pos: j })
        },
        StepRes::Fail(e) => Err(e),
    }
}

/// Parse a whole prototype block at `i`.
pub open spec fn parse_proto(ts: Seq<TokM>, i: int) -> Result<(ObjM, int), PErrM> {
    match expect_spec(ts, i, TokM::ProtoBeginKeyword) {
        Err(e) => Err(e),
        Ok(j) => {
            let nm = if j < ts.len() {
                match ts[j] {
                    TokM::Ident(s) => Some(s),
                    TokM::StringLiteral(s) => Some(s),
                    _ => None,
                }
            } else {
                None
            };
            match nm {
                None => Err(PErrM { kind: PErrKindM::ExpectedName, pos: j }),
                Some(name) => match proto_loop(ts, j + 1, Seq::empty(), Seq::empty()) {
                    Ok((mesh, j2)) => Ok((ObjM { name, mesh }, j2)),
                    Err(e) => Err(e),
                },
            }
        },
    }
}

/// Collect commands inside a clump scope until its end token.
pub open spec fn clump_loop(ts: Seq<TokM>, i: int, vs: Seq<VertM>, fs: Seq<Seq<int>>) -> Result<
    (Seq<VertM>, Seq<Seq<int>>, int),
    PErrM,
>
    decreases ts.len() - i,
{
    if !(0 <= i < ts.len()) {
        Err(PErrM { kind: PErrKindM::UnexpectedEof, pos: i })
    } else if (ts[i] matches TokM::ClumpEndKeyword) {
        Ok((vs, fs, i + 1))
    } else {
        match hsc_step(ts, i, vs, fs) {
            StepRes::Done(j) => match expect_spec(ts, j, TokM::ClumpEndKeyword) {
                Ok(j2) => Ok((vs, fs, j2)),
                Err(e) => Err(e),
            },
            StepRes::More(j, vs2, fs2) => if i < j <= ts.len() {
                clump_loop(ts, j, vs2, fs2)
            } else {
                Err(PErrM { kind: PErrKindM::UnexpectedEof, pos: j })
            },
            StepRes::Fail(e) => Err(e),
        }
    }
}

/// The top-level loop inside `ModelBegin`.
pub open spec fn model_loop(ts: Seq<TokM>, i: int, objs: Seq<ObjM>) -> Result<Seq<ObjM>, PErrM>
    decreases ts.len() - i,
    via model_loop_dec
{
    if !(0 <= i < ts.len()) {
        Ok(objs)
    } else {
        let t = ts[i];
        if (t matches TokM::ModelEndKeyword) {
            Ok(objs)
        } else if (t matches TokM::Eof) {
            Ok(objs)
        } else if (t matches TokM::ProtoBeginKeyword) {
            match parse_proto(ts, i) {
                Ok((o, j)) => if i < j <= ts.len() {
                    model_loop(ts, j, objs.push(o))
                } else {
                    Err(PErrM { kind: PErrKindM::UnexpectedEof, pos: j })
                },
                Err(e) => Err(e),
            }
        } else if (t matches TokM::TransformBeginKeyword) {
            let j = block_end_idx(ts, i + 1, TokM::TransformEndKeyword);
            if j < ts.len() {
                model_loop(ts, j + 1, objs)
            } else {
                Err(PErrM { kind: PErrKindM::Expected(TokM::TransformEndKeyword), pos: j })
            }
        } else if (t matches TokM::JointTransformBeginKeyword) {
            let j = block_end_idx(ts, i + 1, TokM::JointTransformEndKeyword);
            if j < ts.len() {
                model_loop(ts, j + 1, objs)
            } else {
                Err(PErrM { kind: PErrKindM::Expected(TokM::JointTransformEndKeyword), pos: j })
            }
        } else if (t matches TokM::ClumpBeginKeyword) {
            match clump_loop(ts, i + 1, Seq::empty(), Seq::empty()) {
                Ok((vs, fs, j)) => {
                    let objs2 = if vs.len() > 0 {
                        objs.push(
                            ObjM {
                                name: "Clump_Geometry"@,
                                mesh: MeshM { vertices: vs, faces: fs },
                            },
                        )
                    } else {
                        objs
                    };
                    if i < j <= ts.len() {
                        model_loop(ts, j, objs2)
                    } else {
                        Err(PErrM { kind: PErrKindM::UnexpectedEof, pos: j })
                    }
                },
                Err(e) => Err(e),
            }
        } else {
            model_loop(ts, i + 1, objs)
        }
    }
}

#[via_fn]
proof fn model_loop_dec(ts: Seq<TokM>, i: int, objs: Seq<ObjM>) {
    if 0 <= i < ts.len() {
        lemma_block_end_bounds(ts, i + 1, TokM::TransformEndKeyword);
        lemma_block_end_bounds(ts, i + 1, TokM::JointTransformEndKeyword);
    }
}

/// The whole parse: a model block holding prototypes, clumps and skipped
/// transform blocks.
pub open spec fn parse_spec(ts: Seq<TokM>) -> Result<Seq<ObjM>, PErrM> {
    match expect_spec(ts, 0, TokM::ModelBeginKeyword) {
        Ok(j) => model_loop(ts, j, Seq::empty()),
        Err(e) => Err(e),
    }
}

/// Whether two tokens are the same token, payloads included.
#[verifier::rlimit(100)]
fn token_matches(t: &Token, e: &Token) -> (r: bool)
    ensures
        r == (t@ == e@),
{
    match e {
        Token::Ident(b) => match t {
            Token::Ident(a) => *a == *b,
            _ => false,
        },
        Token::Number(y) => match t {
            Token::Number(x) => *x == *y,
            _ => false,
        },
        Token::StringLiteral(b) => match t {
            Token::StringLiteral(a) => *a == *b,
            _ => false,
        },
        Token::Comma => matches!(t, Token::Comma),
        Token::BeginBlock => matches!(t, Token::BeginBlock),
        Token::EndBlock => matches!(t, Token::EndBlock),
        Token::Eof => matches!(t, Token::Eof),
        Token::ModelBeginKeyword => matches!(t, Token::ModelBeginKeyword),
        Token::ModelEndKeyword => matches!(t, Token::ModelEndKeyword),
        Token::ProtoBeginKeyword => matches!(t, Token::ProtoBeginKeyword),
        Token::ProtoEndKeyword => matches!(t, Token::ProtoEndKeyword),
        Token::ClumpBeginKeyword => matches!(t, Token::ClumpBeginKeyword),
        Token::ClumpEndKeyword => matches!(t, Token::ClumpEndKeyword),
        Token::TransformBeginKeyword => matches!(t, Token::TransformBeginKeyword),
        Token::TransformEndKeyword => matches!(t, Token::TransformEndKeyword),
        Token::JointTransformBeginKeyword => matches!(t, Token::JointTransformBeginKeyword),
        Token::JointTransformEndKeyword => matches!(t, Token::JointTransformEndKeyword),
        Token::TransformKeyword => matches!(t, Token::TransformKeyword),
        Token::VertexKeyword => matches!(t, Token::VertexKeyword),
        Token::VertexExtKeyword => matches!(t, Token::VertexExtKeyword),
        Token::UVKeyword => matches!(t, Token::UVKeyword),
        Token::FaceKeyword => matches!(t, Token::FaceKeyword),
        Token::QuadKeyword => matches!(t, Token::QuadKeyword),
        Token::PolygonKeyword => matches!(t, Token::PolygonKeyword),
        Token::TextureKeyword => matches!(t, Token::TextureKeyword),
        Token::ColorKeyword => matches!(t, Token::ColorKeyword),
        Token::SurfaceKeyword => matches!(t, Token::SurfaceKeyword),
        Token::OpacityKeyword => matches!(t, Token::OpacityKeyword),
        Token::TextureModesKeyword => matches!(t, Token::TextureModesKeyword),
        Token::LightSamplingKeyword => matches!(t, Token::LightSamplingKeyword),
        Token::GeometrySamplingKeyword => matches!(t, Token::GeometrySamplingKeyword),
        Token::MaterialModesKeyword => matches!(t, Token::MaterialModesKeyword),
        Token::ProtoInstanceKeyword => matches!(t, Token::ProtoInstanceKeyword),
        Token::IdentityKeyword => matches!(t, Token::IdentityKeyword),
        Token::IdentityJointKeyword => matches!(t, Token::IdentityJointKeyword),
        Token::AmbientKeyword => matches!(t, Token::AmbientKeyword),
        Token::DiffuseKeyword => matches!(t, Token::DiffuseKeyword),
        Token::SpecularKeyword => matches!(t, Token::SpecularKeyword),
        Token::AddTextureModeKeyword => matches!(t, Token::AddTextureModeKeyword),
    }
}

/// Zero-based face index from a one-based micro-unit number.
fn face_index_exec(n: i64) -> (r: u32)
    ensures
        r as int == face_index(n as int),
{
    if n <= 0 {
        0
    } else {
        let t: u64 = (n as u64) / 1_000_000;
        let t2: u64 = if t > u32::MAX as u64 {
            u32::MAX as u64
        } else {
            t
        };
        if t2 == 0 {
            0
        } else {
            (t2 - 1) as u32
        }
    }
}

/// Clamped whole-unit count from a micro-unit number.
pub(crate) fn count_exec(n: i64) -> (r: u32)
    ensures
        r as int == count_of_num(n as int),
{
    if n <= 0 {
        0
    } else {
        let t: u64 = (n as u64) / 1_000_000;
        if t > u32::MAX as u64 {
            u32::MAX
        } else {
            t as u32
        }
    }
}

proof fn lemma_verts_model_push(vs: Seq<RwxVertex>, v: RwxVertex)
    ensures
        crate::ast::verts_model(vs.push(v)) =~= crate::ast::verts_model(vs).push(
            crate::ast::vert_model(v),
        ),
{
}

proof fn lemma_faces_model_push(fs: Seq<RwxFace>, f: RwxFace)
    ensures
        crate::ast::faces_model(fs.push(f)) =~= crate::ast::faces_model(fs).push(
            crate::ast::face_model(f),
        ),
{
}

proof fn lemma_objs_model_push(os: Seq<RwxObject>, o: RwxObject)
    ensures
        crate::ast::objs_model(os.push(o)) =~= crate::ast::objs_model(os).push(
            crate::ast::obj_model(o),
        ),
{
}

/// The token-stream parser: a cursor over a token vector.
pub struct Parser {
    tokens: Vec<Token>,
    position: usize,
}

impl Parser {
    /// The token stream as its mathematical model.
    pub closed spec fn toks(&self) -> Seq<TokM> {
        toks_view(self.tokens@)
    }

    /// The cursor.
    pub closed spec fn pos(&self) -> int {
        self.position as int
    }

    pub fn new(tokens: Vec<Token>) -> (p: Parser)
        ensures
            p.toks() == toks_view(tokens@),
            p.pos() == 0,
    {
        Parser { tokens, position: 0 }
    }

    /// Consume one token, requiring it to be exactly `expected_token`.
    fn expect(&mut self, expected_token: Token) -> (r: Result<(), ParseError>)
        requires
            old(self).pos() <= old(self).toks().len(),
        ensures
            final(self).toks() == old(self).toks(),
            final(self).pos() <= final(self).toks().len(),
            old(self).pos() <= final(self).pos(),
            match expect_spec(old(self).toks(), old(self).pos(), expected_token@) {
                Ok(j) => r is Ok && final(self).pos() == j,
                Err(e) => r is Err && (r matches Err(pe) ==> pe@ == e),
            },
    {
        let i = self.position;
        if i < self.tokens.len() {
            let matched = token_matches(&self.tokens[i], &expected_token);
            self.position = i + 1;
            if matched {
                Ok(())
            } else {
                Err(ParseError { kind: ParseErrorKind::Expected(expected_token), position: i })
            }
        } else {
            Err(ParseError { kind: ParseErrorKind::Expected(expected_token), position: i })
        }
    }

    /// Consume one token, requiring it to be a number; give its value.
    fn expect_number(&mut self) -> (r: Result<i64, ParseError>)
        requires
            old(self).pos() <= old(self).toks().len(),
        ensures
            final(self).toks() == old(self).toks(),
            final(self).pos() <= final(self).toks().len(),
            old(self).pos() <= final(self).pos(),
            match num_at(old(self).toks(), old(self).pos()) {
                Ok((n, j)) => r is Ok && final(self).pos() == j && (r matches Ok(v) ==> v as int
                    == n),
                Err(e) => r is Err && (r matches Err(pe) ==> pe@ == e),
            },
    {
        let i = self.position;
        if i < self.tokens.len() {
            let out: Result<i64, ParseError> = match &self.tokens[i] {
                Token::Number(n) => Ok(*n),
                _ => Err(ParseError { kind: ParseErrorKind::ExpectedNumber, position: i }),
            };
            self.position = i + 1;
            out
        } else {
            Err(ParseError { kind: ParseErrorKind::ExpectedNumber, position: i })
        }
    }

    /// Consume a fixed number of numeric arguments.
    fn consume_arguments(&mut self, count: usize) -> (r: Result<(), ParseError>)
        requires
            old(self).pos() <= old(self).toks().len(),
        ensures
            final(self).toks() == old(self).toks(),
            final(self).pos() <= final(self).toks().len(),
            old(self).pos() <= final(self).pos(),
            match read_nums(old(self).toks(), old(self).pos(), count as int) {
                Ok(j) => r is Ok && final(self).pos() == j,
                Err(e) => r is Err && (r matches Err(pe) ==> pe@ == e),
            },
    {
        let ghost ts = self.toks();
        let ghost p0 = self.pos();
        let mut k: usize = 0;
        while k < count
            invariant
                k <= count,
                ts == old(self).toks(),
                p0 == old(self).pos(),
                self.toks() == ts,
                p0 <= self.pos() <= ts.len(),
                read_nums(ts, p0, count as int) == read_nums(ts, self.pos(), (count - k) as int),
            decreases count - k,
        {
            match self.expect_number() {
                Ok(_) => {},
                Err(e) => {
                    return Err(e);
                },
            }
            k = k + 1;
        }
        Ok(())
    }

    /// Consume a run of one-based face indices, converting each to
    /// zero-based.
    fn read_face_indices(&mut self, count: usize) -> (r: Result<Vec<u32>, ParseError>)
        requires
            old(self).pos() <= old(self).toks().len(),
        ensures
            final(self).toks() == old(self).toks(),
            final(self).pos() <= final(self).toks().len(),
            old(self).pos() <= final(self).pos(),
            match read_indices(old(self).toks(), old(self).pos(), count as int, Seq::empty()) {
                Ok((s, j)) => r is Ok && final(self).pos() == j && (r matches Ok(v) ==> v@
                    .map_values(|k: u32| k as int) == s),
                Err(e) => r is Err && (r matches Err(pe) ==> pe@ == e),
            },
    {
        let ghost ts = self.toks();
        let ghost p0 = self.pos();
        let mut out: Vec<u32> = Vec::new();
        let mut k: usize = 0;
        proof {
            assert(out@.map_values(|q: u32| q as int) =~= Seq::<int>::empty());
        }
        while k < count
            invariant
                k <= count,
                ts == old(self).toks(),
                p0 == old(self).pos(),
                self.toks() == ts,
                p0 <= self.pos() <= ts.len(),
                read_indices(ts, p0, count as int, Seq::empty()) == read_indices(
                    ts,
                    self.pos(),
                    (count - k) as int,
                    out@.map_values(|q: u32| q as int),
                ),
            decreases count - k,
        {
            let n = match self.expect_number() {
                Ok(n) => n,
                Err(e) => {
                    return Err(e);
                },
            };
            let ix = face_index_exec(n);
            let ghost before = out@;
            out.push(ix);
            proof {
                assert(out@.map_values(|q: u32| q as int) =~= before.map_values(
                    |q: u32| q as int,
                ).push(ix as int));
            }
            k = k + 1;
        }
        Ok(out)
    }

    /// Parse one vertex command: `Vertex`/`VertexExt`, three coordinates,
    /// `UV` and two texture coordinates.
    fn parse_vertex(&mut self) -> (r: Result<RwxVertex, ParseError>)
        requires
            old(self).pos() < old(self).toks().len(),
        ensures
            final(self).toks() == old(self).toks(),
            final(self).pos() <= final(self).toks().len(),
            old(self).pos() <= final(self).pos(),
            match vertex_at(old(self).toks(), old(self).pos()) {
                Ok((vm, j)) => r is Ok && final(self).pos() == j && (r matches Ok(v)
                    ==> crate::ast::vert_model(v) == vm),
                Err(e) => r is Err && (r matches Err(pe) ==> pe@ == e),
            },
    {
        proof {
            assert(self.toks().len() == self.tokens@.len());
        }
        let n = self.tokens.len();
        let i = self.position;
        self.position = i + 1;  // the Vertex or VertexExt keyword
        let x = match self.expect_number() {
            Ok(n) => n,
            Err(e) => {
                return Err(e);
            },
        };
        let y = match self.expect_number() {
            Ok(n) => n,
            Err(e) => {
                return Err(e);
            },
        };
        let z = match self.expect_number() {
            Ok(n) => n,
            Err(e) => {
                return Err(e);
            },
        };
        match self.expect(Token::UVKeyword) {
            Ok(()) => {},
            Err(e) => {
                return Err(e);
            },
        }
        let u = match self.expect_number() {
            Ok(n) => n,
            Err(e) => {
                return Err(e);
            },
        };
        let v = match self.expect_number() {
            Ok(n) => n,
            Err(e) => {
                return Err(e);
            },
        };
        Ok(RwxVertex { x, y, z, u: Some(u), v: Some(v) })
    }

    fn is_skip_arg_at(&self, j: usize) -> (r: bool)
        requires
            j < self.toks().len(),
        ensures
            r == is_skip_arg(self.toks()[j as int]),
    {
        proof {
            assert(self.toks().len() == self.tokens@.len());
            assert(self.toks()[j as int] == self.tokens@[j as int]@);
        }
        matches!(&self.tokens[j], Token::Ident(_) | Token::Number(_))
    }

    /// Dispatch one command inside a prototype or clump scope. Gives `true`
    /// when the scope's end token was consumed.
    fn handle_structural_command(
        &mut self,
        vertices: &mut Vec<RwxVertex>,
        faces: &mut Vec<RwxFace>,
    ) -> (r: Result<bool, ParseError>)
        requires
            old(self).pos() <= old(self).toks().len(),
        ensures
            final(self).toks() == old(self).toks(),
            final(self).pos() <= final(self).toks().len(),
            old(self).pos() <= final(self).pos(),
            match hsc_step(
                old(self).toks(),
                old(self).pos(),
                crate::ast::verts_model(old(vertices)@),
                crate::ast::faces_model(old(faces)@),
            ) {
                StepRes::Done(j) => r is Ok && (r matches Ok(b) ==> b == true)
                    && final(self).pos() == j && final(vertices)@ == old(vertices)@
                    && final(faces)@ == old(faces)@,
                StepRes::More(j, vs2, fs2) => r is Ok && (r matches Ok(b) ==> b == false)
                    && final(self).pos() == j && crate::ast::verts_model(final(vertices)@) == vs2
                    && crate::ast::faces_model(final(faces)@) == fs2
                    && old(self).pos() < final(self).pos(),
                StepRes::Fail(e) => r is Err && (r matches Err(pe) ==> pe@ == e),
            },
    {
        let ghost ts = self.toks();
        let ghost i0 = self.pos();
        proof {
            assert(self.toks().len() == self.tokens@.len());
        }
        let i = self.position;
        let n = self.tokens.len();
        if i >= n {
            return Err(ParseError { kind: ParseErrorKind::UnexpectedEof, position: i });
        }
        proof {
            assert(ts[i0] == self.tokens@[i as int]@);
        }
        if matches!(&self.tokens[i], Token::ProtoEndKeyword | Token::ClumpEndKeyword) {
            self.position = i + 1;
            return Ok(true);
        }
        if matches!(&self.tokens[i], Token::VertexKeyword | Token::VertexExtKeyword) {
            match self.parse_vertex() {
                Ok(v) => {
                    let ghost vb = vertices@;
                    vertices.push(v);
                    proof {
                        lemma_verts_model_push(vb, v);
                    }
                    return Ok(false);
                },
                Err(e) => {
                    return Err(e);
                },
            }
        }
        if matches!(&self.tokens[i], Token::QuadKeyword) {
            self.position = i + 1;
            match self.read_face_indices(4) {
                Ok(idx) => {
                    let ghost fb = faces@;
                    let f = RwxFace { indices: idx };
                    faces.push(f);
                    proof {
                        lemma_faces_model_push(fb, f);
                    }
                    return Ok(false);
                },
                Err(e) => {
                    return Err(e);
                },
            }
        }
        if matches!(&self.tokens[i], Token::PolygonKeyword) {
            self.position = i + 1;
            let cnt = match self.expect_number() {
                Ok(v) => v,
                Err(e) => {
                    return Err(e);
                },
            };
            let c = count_exec(cnt);
            match self.read_face_indices(c as usize) {
                Ok(idx) => {
                    let ghost fb = faces@;
                    let f = RwxFace { indices: idx };
                    faces.push(f);
                    proof {
                        lemma_faces_model_push(fb, f);
                    }
                    return Ok(false);
                },
                Err(e) => {
                    return Err(e);
                },
            }
        }
        if matches!(&self.tokens[i], Token::TransformKeyword) {
            self.position = i + 1;
            match self.consume_arguments(16) {
                Ok(()) => {
                    return Ok(false);
                },
                Err(e) => {
                    return Err(e);
                },
            }
        }
        if matches!(
            &self.tokens[i],
            Token::ColorKeyword | Token::AmbientKeyword | Token::DiffuseKeyword
                | Token::SpecularKeyword | Token::SurfaceKeyword,
        ) {
            self.position = i + 1;
            match self.consume_arguments(3) {
                Ok(()) => {
                    return Ok(false);
                },
                Err(e) => {
                    return Err(e);
                },
            }
        }
        if matches!(&self.tokens[i], Token::OpacityKeyword) {
            self.position = i + 1;
            match self.consume_arguments(1) {
                Ok(()) => {
                    return Ok(false);
                },
                Err(e) => {
                    return Err(e);
                },
            }
        }
        if matches!(&self.tokens[i], Token::TextureKeyword) {
            self.position = i + 1;
            if i + 1 < n && matches!(
                &self.tokens[i + 1],
                Token::Ident(_) | Token::StringLiteral(_),
            ) {
                proof {
                    assert(ts[i0 + 1] == self.tokens@[i + 1]@);
                }
                self.position = i + 2;
                return Ok(false);
            } else {
                proof {
                    if i + 1 < n {
                        assert(ts[i0 + 1] == self.tokens@[i + 1]@);
                    }
                }
                return Err(ParseError { kind: ParseErrorKind::ExpectedName, position: i + 1 });
            }
        }
        if matches!(
            &self.tokens[i],
            Token::TextureModesKeyword | Token::LightSamplingKeyword
                | Token::GeometrySamplingKeyword | Token::MaterialModesKeyword
                | Token::IdentityKeyword | Token::IdentityJointKeyword
                | Token::AddTextureModeKeyword,
        ) {
            let mut j = i + 1;
            while j < n && self.is_skip_arg_at(j)
                invariant
                    i + 1 <= j <= n,
                    n == ts.len(),
                    ts == self.toks(),
                    forall|q: int| i + 1 <= q < j ==> is_skip_arg(ts[q]),
                decreases n - j,
            {
                j = j + 1;
            }
            proof {
                lemma_skip_args_end_at(ts, i0 + 1, j as int);
            }
            self.position = j;
            return Ok(false);
        }
        self.position = i + 1;
        Ok(false)
    }

    /// Parse a whole prototype block: `ProtoBegin`, a name, collected
    /// geometry commands, `ProtoEnd`.
    fn parse_prototype(&mut self) -> (r: Result<RwxObject, ParseError>)
        requires
            old(self).pos() <= old(self).toks().len(),
        ensures
            final(self).toks() == old(self).toks(),
            final(self).pos() <= final(self).toks().len(),
            old(self).pos() <= final(self).pos(),
            r is Ok ==> old(self).pos() < final(self).pos(),
            match parse_proto(old(self).toks(), old(self).pos()) {
                Ok((om, j)) => r is Ok && final(self).pos() == j && (r matches Ok(o)
                    ==> crate::ast::obj_model(o) == om && crate::ast::obj_is_bare(o)),
                Err(e) => r is Err && (r matches Err(pe) ==> pe@ == e),
            },
    {
        let ghost ts = self.toks();
        let ghost i0 = self.pos();
        proof {
            assert(self.toks().len() == self.tokens@.len());
        }
        match self.expect(Token::ProtoBeginKeyword) {
            Ok(()) => {},
            Err(e) => {
                return Err(e);
            },
        }
        let i1 = self.position;
        let n = self.tokens.len();
        proof {
            assert(i1 as int == i0 + 1);
            if i1 < n {
                assert(ts[i1 as int] == self.tokens@[i1 as int]@);
            }
        }
        let name: String;
        if i1 < n {
            let nm_opt: Option<String> = match &self.tokens[i1] {
                Token::Ident(s) => Some(s.clone()),
                Token::StringLiteral(s) => Some(s.clone()),
                _ => None,
            };
            match nm_opt {
                Some(s) => {
                    name = s;
                },
                None => {
                    return Err(
                        ParseError { kind: ParseErrorKind::ExpectedName, position: i1 },
                    );
                },
            }
        } else {
            return Err(ParseError { kind: ParseErrorKind::ExpectedName, position: i1 });
        }
        self.position = i1 + 1;
        let ghost p1 = self.pos();
        let mut vertices: Vec<RwxVertex> = Vec::new();
        let mut faces: Vec<RwxFace> = Vec::new();
        proof {
            assert(crate::ast::verts_model(vertices@) =~= Seq::<VertM>::empty());
            assert(crate::ast::faces_model(faces@) =~= Seq::<Seq<int>>::empty());
        }
        loop
            invariant_except_break
                proto_loop(
                    ts,
                    self.pos(),
                    crate::ast::verts_model(vertices@),
                    crate::ast::faces_model(faces@),
                ) == proto_loop(ts, p1, Seq::empty(), Seq::empty()),
            invariant
                ts == old(self).toks(),
                i0 == old(self).pos(),
                self.toks() == ts,
                0 <= i0,
                p1 == i0 + 2,
                p1 <= self.pos() <= ts.len(),
                expect_spec(ts, i0, TokM::ProtoBeginKeyword) == Ok::<int, PErrM>(i0 + 1),
                i0 + 1 < ts.len(),
                match ts[i0 + 1] {
                    TokM::Ident(s) => s == name@,
                    TokM::StringLiteral(s) => s == name@,
                    _ => false,
                },
            ensures
                ts == old(self).toks(),
                i0 == old(self).pos(),
                self.toks() == ts,
                p1 <= self.pos() <= ts.len(),
                proto_loop(ts, p1, Seq::empty(), Seq::empty()) == Ok::<(MeshM, int), PErrM>(
                    (
                        MeshM {
                            vertices: crate::ast::verts_model(vertices@),
                            faces: crate::ast::faces_model(faces@),
                        },
                        self.pos(),
                    ),
                ),
            decreases ts.len() - self.pos(),
        {
            match self.handle_structural_command(&mut vertices, &mut faces) {
                Ok(true) => {
                    break ;
                },
                Ok(false) => {},
                Err(e) => {
                    return Err(e);
                },
            }
        }
        let obj = RwxObject {
            name,
            mesh: Some(RwxMesh { vertices, faces }),
            material: None,
            transform: None,
            children: Vec::new(),
        };
        Ok(obj)
    }

    /// Parse the whole token stream: a model block holding prototypes,
    /// clumps and skipped transform blocks. Gives the list of parsed
    /// objects, each carrying only a name and a mesh.
    pub fn parse(&mut self) -> (r: Result<Vec<RwxObject>, ParseError>)
        requires
            old(self).pos() == 0,
        ensures
            match parse_spec(old(self).toks()) {
                Ok(oms) => r is Ok && (r matches Ok(v) ==> crate::ast::objs_model(v@) == oms
                    && (forall|k: int|
                    0 <= k < v@.len() ==> crate::ast::obj_is_bare(#[trigger] v@[k]))),
                Err(e) => r is Err && (r matches Err(pe) ==> pe@ == e),
            },
    {
        let ghost ts = self.toks();
        proof {
            assert(self.toks().len() == self.tokens@.len());
        }
        match self.expect(Token::ModelBeginKeyword) {
            Ok(()) => {},
            Err(e) => {
                return Err(e);
            },
        }
        let mut objects: Vec<RwxObject> = Vec::new();
        proof {
            assert(crate::ast::objs_model(objects@) =~= Seq::<ObjM>::empty());
        }
        loop
            invariant_except_break
                model_loop(ts, self.pos(), crate::ast::objs_model(objects@)) == model_loop(
                    ts,
                    1,
                    Seq::empty(),
                ),
            invariant
                ts == old(self).toks(),
                old(self).pos() == 0,
                self.toks() == ts,
                1 <= self.pos() <= ts.len(),
                expect_spec(ts, 0, TokM::ModelBeginKeyword) == Ok::<int, PErrM>(1),
                forall|k: int|
                    0 <= k < objects@.len() ==> crate::ast::obj_is_bare(#[trigger] objects@[k]),
            ensures
                ts == old(self).toks(),
                self.toks() == ts,
                model_loop(ts, 1, Seq::empty()) == Ok::<Seq<ObjM>, PErrM>(
                    crate::ast::objs_model(objects@),
                ),
                forall|k: int|
                    0 <= k < objects@.len() ==> crate::ast::obj_is_bare(#[trigger] objects@[k]),
            decreases ts.len() - self.pos(),
        {
            let i = self.position;
            let n = self.tokens.len();
            if i >= n {
                break ;
            }
            proof {
                assert(ts[i as int] == self.tokens@[i as int]@);
            }
            if matches!(&self.tokens[i], Token::ModelEndKeyword) {
                match self.expect(Token::ModelEndKeyword) {
                    Ok(()) => {},
                    Err(_) => {},
                }
                break ;
            }
            if matches!(&self.tokens[i], Token::Eof) {
                break ;
            }
            if matches!(&self.tokens[i], Token::ProtoBeginKeyword) {
                match self.parse_prototype() {
                    Ok(o) => {
                        let ghost ob = objects@;
                        let ghost om = crate::ast::obj_model(o);
                        objects.push(o);
                        proof {
                            lemma_objs_model_push(ob, o);
                        }
                    },
                    Err(e) => {
                        return Err(e);
                    },
                }
            } else if matches!(
                &self.tokens[i],
                Token::TransformBeginKeyword | Token::JointTransformBeginKeyword,
            ) {
                let joint = matches!(&self.tokens[i], Token::JointTransformBeginKeyword);
                let end_tok = if joint {
                    Token::JointTransformEndKeyword
                } else {
                    Token::TransformEndKeyword
                };
                let ghost em = end_tok@;
                let mut j = i + 1;
                while j < n && !token_matches(&self.tokens[j], &end_tok)
                    invariant
                        i + 1 <= j <= n,
                        n == ts.len(),
                        ts == self.toks(),
                        em == end_tok@,
                        forall|q: int| i + 1 <= q < j ==> ts[q] != em,
                    decreases n - j,
                {
                    proof {
                        assert(ts[j as int] == self.tokens@[j as int]@);
                    }
                    j = j + 1;
                }
                proof {
                    if j < n {
                        assert(ts[j as int] == self.tokens@[j as int]@);
                    }
                    lemma_block_end_idx_at(ts, i + 1, j as int, em);
                }
                self.position = j;
                match self.expect(end_tok) {
                    Ok(()) => {},
                    Err(e) => {
                        return Err(e);
                    },
                }
            } else if matches!(&self.tokens[i], Token::ClumpBeginKeyword) {
                self.position = i + 1;
                let ghost pc = self.pos();
                let mut vertices: Vec<RwxVertex> = Vec::new();
                let mut faces: Vec<RwxFace> = Vec::new();
                proof {
                    assert(crate::ast::verts_model(vertices@) =~= Seq::<VertM>::empty());
                    assert(crate::ast::faces_model(faces@) =~= Seq::<Seq<int>>::empty());
                }
                loop
                    invariant_except_break
                        clump_loop(
                            ts,
                            self.pos(),
                            crate::ast::verts_model(vertices@),
                            crate::ast::faces_model(faces@),
                        ) == clump_loop(ts, pc, Seq::empty(), Seq::empty()),
                    invariant
                        ts == self.toks(),
                        ts == old(self).toks(),
                        old(self).pos() == 0,
                        0 < pc <= self.pos() <= ts.len(),
                        n == ts.len(),
                        i < n,
                        pc == i + 1,
                        ts[i as int] matches TokM::ClumpBeginKeyword,
                        expect_spec(ts, 0, TokM::ModelBeginKeyword) == Ok::<int, PErrM>(1),
                        model_loop(ts, i as int, crate::ast::objs_model(objects@)) == model_loop(
                            ts,
                            1,
                            Seq::empty(),
                        ),
                    ensures
                        ts == self.toks(),
                        pc <= self.pos() <= ts.len(),
                        clump_loop(ts, pc, Seq::empty(), Seq::empty()) == Ok::<
                            (Seq<VertM>, Seq<Seq<int>>, int),
                            PErrM,
                        >(
                            (
                                crate::ast::verts_model(vertices@),
                                crate::ast::faces_model(faces@),
                                self.pos(),
                            ),
                        ),
                    decreases ts.len() - self.pos(),
                {
                    let ii = self.position;
                    if ii < n && matches!(&self.tokens[ii], Token::ClumpEndKeyword) {
                        proof {
                            assert(ts[ii as int] == self.tokens@[ii as int]@);
                        }
                        self.position = ii + 1;
                        break ;
                    }
                    proof {
                        if ii < n {
                            assert(ts[ii as int] == self.tokens@[ii as int]@);
                        }
                    }
                    match self.handle_structural_command(&mut vertices, &mut faces) {
                        Ok(true) => {
                            match self.expect(Token::ClumpEndKeyword) {
                                Ok(()) => {
                                    break ;
                                },
                                Err(e) => {
                                    return Err(e);
                                },
                            }
                        },
                        Ok(false) => {},
                        Err(e) => {
                            return Err(e);
                        },
                    }
                }
                if vertices.len() > 0 {
                    let nm = String::from_str("Clump_Geometry");
                    let ghost ob = objects@;
                    let o = RwxObject {
                        name: nm,
                        mesh: Some(RwxMesh { vertices, faces }),
                        material: None,
                        transform: None,
                        children: Vec::new(),
                    };
                    objects.push(o);
                    proof {
                        lemma_objs_model_push(ob, o);
                    }
                }
            } else {
                self.position = i + 1;
            }
        }
        Ok(objects)
    }
}

} // verus!
