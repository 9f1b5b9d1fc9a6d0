//! Dialect normalizer: rewrites dialect-specific vertex and face commands
//! into one canonical command sequence.
//!
//! Running material state (texture, diffuse, specular) persists until
//! overwritten; a binding snapshot is emitted only on a `Texture` command.
//! Structural begin/end words become push/pop markers. Unrecognized tokens
//! are skipped one at a time; normalization never fails.

use vstd::prelude::*;

use crate::lexer::{TokM, Token};
use crate::parser::count_of_num;
use crate::strutil::ends_with;

verus! {

broadcast use vstd::seq::group_seq_axioms;

/// A canonical command.
#[derive(Debug, Clone)]
pub enum Canon {
    /// A vertex: position and texture coordinates in micro-units.
    Vertex(i64, i64, i64, i64, i64),
    /// A face: zero-based vertex indices.
    Face(Vec<usize>),
    /// A material binding snapshot.
    Material {
        texture: Option<String>,
        diffuse: Option<(i64, i64, i64)>,
        specular: Option<(i64, i64, i64)>,
    },
    PushTransform,
    PopTransform,
}

/// Model of a canonical command.
pub ghost enum CanonM {
    Vertex(int, int, int, int, int),
    Face(Seq<int>),
    Material {
        texture: Option<Seq<char>>,
        diffuse: Option<(int, int, int)>,
        specular: Option<(int, int, int)>,
    },
    PushTransform,
    PopTransform,
}

impl View for Canon {
    type V = CanonM;

    open spec fn view(&self) -> CanonM {
        match self {
            Canon::Vertex(x, y, z, u, v) => CanonM::Vertex(
                *x as int,
                *y as int,
                *z as int,
                *u as int,
                *v as int,
            ),
            Canon::Face(idx) => CanonM::Face(idx@.map_values(|k: usize| k as int)),
            Canon::Material { texture, diffuse, specular } => CanonM::Material {
                texture: match texture {
                    Some(t) => Some(t@),
                    None => None,
                },
                diffuse: match diffuse {
                    Some(d) => Some((d.0 as int, d.1 as int, d.2 as int)),
                    None => None,
                },
                specular: match specular {
                    Some(d) => Some((d.0 as int, d.1 as int, d.2 as int)),
                    None => None,
                },
            },
            Canon::PushTransform => CanonM::PushTransform,
            Canon::PopTransform => CanonM::PopTransform,
        }
    }
}

pub open spec fn canons_view(cs: Seq<Canon>) -> Seq<CanonM> {
    cs.map_values(|c: Canon| c@)
}

/// The running material state.
pub ghost struct CStateM {
    pub texture: Option<Seq<char>>,
    pub diffuse: Option<(int, int, int)>,
    pub specular: Option<(int, int, int)>,
}

/// Read one number: its micro-unit value and the next index; a missing
/// number reads as zero without advancing.
pub open spec fn get_num_s(ts: Seq<TokM>, i: int) -> (int, int) {
    if 0 <= i < ts.len() {
        match ts[i] {
            TokM::Number(n) => (n, i + 1),
            _ => (0, i),
        }
    } else {
        (0, i)
    }
}

/// Read one whole-unit count or index; a missing number reads as zero
/// without advancing.
pub open spec fn get_idx_s(ts: Seq<TokM>, i: int) -> (int, int) {
    let r = get_num_s(ts, i);
    (count_of_num(r.0), r.1)
}

/// One-based to zero-based, saturating at zero.
pub open spec fn sub1c(k: int) -> int {
    if k <= 0 {
        0
    } else {
        k - 1
    }
}

pub open spec fn is_number_tok(ts: Seq<TokM>, i: int) -> bool {
    0 <= i < ts.len() && (ts[i] matches TokM::Number(_))
}

/// The vertices a `VertexList` run emits from index `i`.
pub open spec fn vlist_emit(ts: Seq<TokM>, i: int, count: int) -> (Seq<CanonM>, int)
    decreases count,
{
    if count <= 0 {
        (Seq::empty(), i)
    } else {
        let r1 = get_num_s(ts, i);
        let r2 = get_num_s(ts, r1.1);
        let r3 = get_num_s(ts, r2.1);
        let rest = vlist_emit(ts, r3.1, count - 1);
        (seq![CanonM::Vertex(r1.0, r2.0, r3.0, 0, 0)] + rest.0, rest.1)
    }
}

/// The indices a `Polygon` run reads from index `i`.
pub open spec fn poly_read(ts: Seq<TokM>, i: int, count: int, acc: Seq<int>) -> (Seq<int>, int)
    decreases count,
{
    if count <= 0 {
        (acc, i)
    } else {
        let r = get_idx_s(ts, i);
        poly_read(ts, r.1, count - 1, acc.push(sub1c(r.0)))
    }
}

/// The text of an identifier token.
pub open spec fn ident_text(t: TokM) -> Option<Seq<char>> {
    match t {
        TokM::Ident(s) => Some(s),
        _ => None,
    }
}

/// The `VertexList` command word.
pub open spec fn is_vertex_list_tok(t: TokM) -> bool {
    match t {
        TokM::Ident(s) => s == "VertexList"@,
        _ => false,
    }
}

/// A structural begin word: one of the block keywords or an identifier
/// ending in `Begin`.
pub open spec fn is_begin_tok(t: TokM) -> bool {
    match t {
        TokM::ModelBeginKeyword => true,
        TokM::ProtoBeginKeyword => true,
        TokM::ClumpBeginKeyword => true,
        TokM::TransformBeginKeyword => true,
        TokM::JointTransformBeginKeyword => true,
        TokM::Ident(s) => ends_with(s, "Begin"@),
        _ => false,
    }
}

/// A structural end word: one of the block keywords or an identifier
/// ending in `End`.
pub open spec fn is_end_tok(t: TokM) -> bool {
    match t {
        TokM::ModelEndKeyword => true,
        TokM::ProtoEndKeyword => true,
        TokM::ClumpEndKeyword => true,
        TokM::TransformEndKeyword => true,
        TokM::JointTransformEndKeyword => true,
        TokM::Ident(s) => ends_with(s, "End"@),
        _ => false,
    }
}

/// The canonical command stream from index `i` under the given material
/// state.
pub open spec fn canon_spec(ts: Seq<TokM>, i: int, st: CStateM) -> Seq<CanonM>
    decreases ts.len() - i, 1int,
{
    if !(0 <= i < ts.len()) {
        Seq::empty()
    } else {
        let t = ts[i];
        if is_vertex_list_tok(t) {
            let rc = get_idx_s(ts, i + 1);
            let ve = vlist_emit(ts, rc.1, rc.0);
            ve.0 + canon_cont(ts, i, ve.1, st)
        } else if (t matches TokM::VertexExtKeyword) {
            let r1 = get_num_s(ts, i + 1);
            let r2 = get_num_s(ts, r1.1);
            let r3 = get_num_s(ts, r2.1);
            let j4 = if r3.1 < ts.len() {
                r3.1 + 1
            } else {
                r3.1
            };  // the UV word
            let r5 = get_num_s(ts, j4);
            let r6 = get_num_s(ts, r5.1);
            seq![CanonM::Vertex(r1.0, r2.0, r3.0, r5.0, r6.0)] + canon_cont(ts, i, r6.1, st)
        } else if (t matches TokM::VertexKeyword) {
            let r1 = get_num_s(ts, i + 1);
            let r2 = get_num_s(ts, r1.1);
            let r3 = get_num_s(ts, r2.1);
            let r4 = if is_number_tok(ts, r3.1) {
                get_num_s(ts, r3.1)
            } else {
                (0, r3.1)
            };
            let r5 = if is_number_tok(ts, r3.1) && is_number_tok(ts, r4.1) {
                get_num_s(ts, r4.1)
            } else {
                (0, r4.1)
            };
            seq![CanonM::Vertex(r1.0, r2.0, r3.0, r4.0, r5.0)] + canon_cont(ts, i, r5.1, st)
        } else if (t matches TokM::QuadKeyword) {
            let ra = get_idx_s(ts, i + 1);
            let rb = get_idx_s(ts, ra.1);
            let rc = get_idx_s(ts, rb.1);
            let rd = get_idx_s(ts, rc.1);
            seq![CanonM::Face(seq![sub1c(ra.0), sub1c(rb.0), sub1c(rc.0), sub1c(rd.0)])]
                + canon_cont(ts, i, rd.1, st)
        } else if (t matches TokM::PolygonKeyword) {
            let rc = get_idx_s(ts, i + 1);
            let pr = poly_read(ts, rc.1, rc.0, Seq::empty());
            seq![CanonM::Face(pr.0)] + canon_cont(ts, i, pr.1, st)
        } else if (t matches TokM::TextureKeyword) {
            let j1 = i + 1;
            let st2 = if j1 < ts.len() && (ident_text(ts[j1]) is Some) {
                CStateM { texture: Some(ident_text(ts[j1])->0), ..st }
            } else {
                st
            };
            let j2 = if j1 < ts.len() {
                j1 + 1
            } else {
                j1
            };
            seq![
                CanonM::Material {
                    texture: st2.texture,
                    diffuse: st2.diffuse,
                    specular: st2.specular,
                },
            ] + canon_cont(ts, i, j2, st2)
        } else if (t matches TokM::DiffuseKeyword) {
            let r1 = get_num_s(ts, i + 1);
            let r2 = get_num_s(ts, r1.1);
            let r3 = get_num_s(ts, r2.1);
            canon_cont(ts, i, r3.1, CStateM { diffuse: Some((r1.0, r2.0, r3.0)), ..st })
        } else if (t matches TokM::SpecularKeyword) {
            let r1 = get_num_s(ts, i + 1);
            let r2 = get_num_s(ts, r1.1);
            let r3 = get_num_s(ts, r2.1);
            canon_cont(ts, i, r3.1, CStateM { specular: Some((r1.0, r2.0, r3.0)), ..st })
        } else if is_begin_tok(t) {
            seq![CanonM::PushTransform] + canon_cont(ts, i, i + 1, st)
        } else if is_end_tok(t) {
            seq![CanonM::PopTransform] + canon_cont(ts, i, i + 1, st)
        } else {
            canon_cont(ts, i, i + 1, st)
        }
    }
}

/// Continue at `j`, never moving backward past `i + 1`.
pub open spec fn canon_cont(ts: Seq<TokM>, i: int, j: int, st: CStateM) -> Seq<CanonM>
    decreases ts.len() - i, 0int,
    when 0 <= i < ts.len()
{
    if j >= i + 1 {
        canon_spec(ts, if j > ts.len() {
            ts.len() as int
        } else {
            j
        }, st)
    } else {
        canon_spec(ts, i + 1, st)
    }
}

/// Model of the running material state held in plain values.
pub open spec fn st_model(
    tx: Option<String>,
    df: Option<(i64, i64, i64)>,
    sp: Option<(i64, i64, i64)>,
) -> CStateM {
    CStateM {
        texture: match tx {
            Some(t) => Some(t@),
            None => None,
        },
        diffuse: match df {
            Some(d) => Some((d.0 as int, d.1 as int, d.2 as int)),
            None => None,
        },
        specular: match sp {
            Some(d) => Some((d.0 as int, d.1 as int, d.2 as int)),
            None => None,
        },
    }
}

/// Read one number token, or zero without advancing.
fn get_num(tokens: &[Token], i: &mut usize) -> (r: i64)
    ensures
        ({
            let g = get_num_s(crate::lexer::toks_view(tokens@), *old(i) as int);
            r as int == g.0 && *final(i) as int == g.1
        }),
{
    let ii = *i;
    if ii < tokens.len() {
        proof {
            assert(crate::lexer::toks_view(tokens@)[ii as int] == tokens@[ii as int]@);
        }
        match &tokens[ii] {
            Token::Number(n) => {
                *i = ii + 1;
                *n
            },
            _ => 0,
        }
    } else {
        0
    }
}

/// Read one whole-unit count or index, or zero without advancing.
fn get_index(tokens: &[Token], i: &mut usize) -> (r: u32)
    ensures
        ({
            let g = get_idx_s(crate::lexer::toks_view(tokens@), *old(i) as int);
            r as int == g.0 && *final(i) as int == g.1
        }),
{
    let n = get_num(tokens, i);
    crate::parser::count_exec(n)
}

/// Whether the token at `i` is a number.
fn next_is_number(tokens: &[Token], i: usize) -> (r: bool)
    ensures
        r == is_number_tok(crate::lexer::toks_view(tokens@), i as int),
{
    if i < tokens.len() {
        proof {
            assert(crate::lexer::toks_view(tokens@)[i as int] == tokens@[i as int]@);
        }
        matches!(&tokens[i], Token::Number(_))
    } else {
        false
    }
}



pub proof fn lemma_vlist_bounds(ts: Seq<TokM>, i: int, c: int)
    requires
        0 <= i <= ts.len(),
    ensures
        i <= vlist_emit(ts, i, c).1 <= ts.len(),
    decreases c,
{
    if c > 0 {
        let r1 = get_num_s(ts, i);
        let r2 = get_num_s(ts, r1.1);
        let r3 = get_num_s(ts, r2.1);
        lemma_vlist_bounds(ts, r3.1, c - 1);
    }
}

pub proof fn lemma_poly_bounds(ts: Seq<TokM>, i: int, c: int, acc: Seq<int>)
    requires
        0 <= i <= ts.len(),
    ensures
        i <= poly_read(ts, i, c, acc).1 <= ts.len(),
    decreases c,
{
    if c > 0 {
        let r = get_idx_s(ts, i);
        lemma_poly_bounds(ts, r.1, c - 1, acc.push(sub1c(r.0)));
    }
}

proof fn lemma_canons_push(cs: Seq<Canon>, c: Canon)
    ensures
        canons_view(cs.push(c)) =~= canons_view(cs).push(c@),
{
}

/// One-based to zero-based, saturating at zero.
fn sub1_exec(k: u32) -> (r: usize)
    ensures
        r as int == sub1c(k as int),
{
    if k == 0 {
        0
    } else {
        (k - 1) as usize
    }
}

/// Rewrite a token stream into the canonical command sequence. Maintains
/// the running material state and never fails.
#[verifier::rlimit(100)]
pub fn normalize(tokens: &[Token]) -> (out: Vec<Canon>)
    ensures
        canons_view(out@) == canon_spec(
            crate::lexer::toks_view(tokens@),
            0,
            st_model(None, None, None),
        ),
{
    let ghost ts = crate::lexer::toks_view(tokens@);
    let n = tokens.len();
    let mut out: Vec<Canon> = Vec::new();
    let mut i: usize = 0;
    let mut current_texture: Option<String> = None;
    let mut current_diffuse: Option<(i64, i64, i64)> = None;
    let mut current_specular: Option<(i64, i64, i64)> = None;
    proof {
        assert(canons_view(out@) =~= Seq::<CanonM>::empty());
    }
    while i < n
        invariant
            i <= n,
            n == ts.len(),
            ts == crate::lexer::toks_view(tokens@),
            canon_spec(ts, 0, st_model(None, None, None)) == canons_view(out@) + canon_spec(
                ts,
                i as int,
                st_model(current_texture, current_diffuse, current_specular),
            ),
        decreases n - i,
    {
        let ghost i0 = i as int;
        let ghost sti = st_model(current_texture, current_diffuse, current_specular);
        proof {
            assert(ts[i0] == tokens@[i as int]@);
        }
        let is_vlist = match &tokens[i] {
            Token::Ident(s) => crate::strutil::str_eq_lit(s, "VertexList"),
            _ => false,
        };
        if is_vlist {
            let mut j = i + 1;
            let count = get_index(tokens, &mut j);
            let ghost j0 = j as int;
            let ghost ve = vlist_emit(ts, j0, count as int);
            let ghost out0 = out@;
            let ghost mut emitted: Seq<CanonM> = Seq::empty();
            let mut k: u32 = 0;
            proof {
                lemma_vlist_bounds(ts, j0, count as int);
                assert(canons_view(out@) =~= canons_view(out0) + emitted);
            }
            while k < count
                invariant
                    k <= count,
                    n == ts.len(),
                    ts == crate::lexer::toks_view(tokens@),
                    j <= n,
                    ve == vlist_emit(ts, j0, count as int),
                    canons_view(out@) == canons_view(out0) + emitted,
                    ve.0 == emitted + vlist_emit(ts, j as int, (count - k) as int).0,
                    ve.1 == vlist_emit(ts, j as int, (count - k) as int).1,
                decreases count - k,
            {
                let ghost jb = j as int;
                let x = get_num(tokens, &mut j);
                let y = get_num(tokens, &mut j);
                let z = get_num(tokens, &mut j);
                let c = Canon::Vertex(x, y, z, 0, 0);
                let ghost ob = out@;
                out.push(c);
                proof {
                    lemma_canons_push(ob, c);
                    lemma_get_num_chain_bounds(ts, jb);
                    let tail = vlist_emit(ts, j as int, (count - k - 1) as int);
                    assert(vlist_emit(ts, jb, (count - k) as int).0 == seq![c@] + tail.0);
                    emitted = emitted.push(c@);
                    assert(canons_view(out@) =~= canons_view(out0) + emitted);
                    assert(emitted + tail.0 =~= (emitted.drop_last() + (seq![c@] + tail.0)));
                }
                k = k + 1;
            }
            proof {
                assert(vlist_emit(ts, j as int, 0).0 =~= Seq::<CanonM>::empty());
                assert(emitted + Seq::<CanonM>::empty() =~= emitted);
                assert(ve.0 == emitted);
                assert(ve.1 == j as int);
                assert(canon_spec(ts, i0, sti) == ve.0 + canon_cont(ts, i0, ve.1, sti));
                assert(j0 >= i0 + 1);
                assert(canon_cont(ts, i0, ve.1, sti) == canon_spec(ts, j as int, sti));
                assert(canons_view(out@) + canon_spec(ts, j as int, sti) =~= canons_view(out0)
                    + canon_spec(ts, i0, sti));
            }
            i = j;
        } else if matches!(&tokens[i], Token::VertexExtKeyword) {
            let mut j = i + 1;
            let x = get_num(tokens, &mut j);
            let y = get_num(tokens, &mut j);
            let z = get_num(tokens, &mut j);
            if j < n {
                j = j + 1;  // the UV word
            }
            let u = get_num(tokens, &mut j);
            let v = get_num(tokens, &mut j);
            let c = Canon::Vertex(x, y, z, u, v);
            let ghost ob = out@;
            out.push(c);
            proof {
                lemma_canons_push(ob, c);
                assert(canon_spec(ts, i0, sti) == seq![c@] + canon_cont(ts, i0, j as int, sti));
                assert(canon_cont(ts, i0, j as int, sti) == canon_spec(ts, j as int, sti));
                assert(canons_view(out@) + canon_spec(ts, j as int, sti) =~= canons_view(ob)
                    + canon_spec(ts, i0, sti));
            }
            i = j;
        } else if matches!(&tokens[i], Token::VertexKeyword) {
            let mut j = i + 1;
            let x = get_num(tokens, &mut j);
            let y = get_num(tokens, &mut j);
            let z = get_num(tokens, &mut j);
            let mut u: i64 = 0;
            let mut v: i64 = 0;
            if next_is_number(tokens, j) {
                u = get_num(tokens, &mut j);
                if next_is_number(tokens, j) {
                    v = get_num(tokens, &mut j);
                }
            }
            let c = Canon::Vertex(x, y, z, u, v);
            let ghost ob = out@;
            out.push(c);
            proof {
                lemma_canons_push(ob, c);
                assert(canon_spec(ts, i0, sti) == seq![c@] + canon_cont(ts, i0, j as int, sti));
                assert(canon_cont(ts, i0, j as int, sti) == canon_spec(ts, j as int, sti));
                assert(canons_view(out@) + canon_spec(ts, j as int, sti) =~= canons_view(ob)
                    + canon_spec(ts, i0, sti));
            }
            i = j;
        } else if matches!(&tokens[i], Token::QuadKeyword) {
            let mut j = i + 1;
            let a = get_index(tokens, &mut j);
            let b = get_index(tokens, &mut j);
            let cc = get_index(tokens, &mut j);
            let d = get_index(tokens, &mut j);
            let mut idx: Vec<usize> = Vec::new();
            idx.push(sub1_exec(a));
            idx.push(sub1_exec(b));
            idx.push(sub1_exec(cc));
            idx.push(sub1_exec(d));
            let c = Canon::Face(idx);
            let ghost ob = out@;
            out.push(c);
            proof {
                lemma_canons_push(ob, c);
                assert(c@ == (match c {
                    Canon::Face(ix) => CanonM::Face(ix@.map_values(|q: usize| q as int)),
                    _ => c@,
                }));
                assert((match c {
                    Canon::Face(ix) => ix@.map_values(|q: usize| q as int),
                    _ => Seq::empty(),
                }) =~= seq![
                    sub1c(a as int),
                    sub1c(b as int),
                    sub1c(cc as int),
                    sub1c(d as int),
                ]);
                assert(canon_spec(ts, i0, sti) == seq![c@] + canon_cont(ts, i0, j as int, sti));
                assert(canon_cont(ts, i0, j as int, sti) == canon_spec(ts, j as int, sti));
                assert(canons_view(out@) + canon_spec(ts, j as int, sti) =~= canons_view(ob)
                    + canon_spec(ts, i0, sti));
            }
            i = j;
        } else if matches!(&tokens[i], Token::PolygonKeyword) {
            let mut j = i + 1;
            let count = get_index(tokens, &mut j);
            let ghost j0 = j as int;
            let ghost pr = poly_read(ts, j0, count as int, Seq::empty());
            let mut idx: Vec<usize> = Vec::new();
            let mut k: u32 = 0;
            proof {
                lemma_poly_bounds(ts, j0, count as int, Seq::empty());
                assert(idx@.map_values(|q: usize| q as int) =~= Seq::<int>::empty());
            }
            while k < count
                invariant
                    k <= count,
                    n == ts.len(),
                    ts == crate::lexer::toks_view(tokens@),
                    j <= n,
                    pr == poly_read(ts, j0, count as int, Seq::empty()),
                    pr == poly_read(
                        ts,
                        j as int,
                        (count - k) as int,
                        idx@.map_values(|q: usize| q as int),
                    ),
                decreases count - k,
            {
                let ghost jb = j as int;
                let a = get_index(tokens, &mut j);
                let ghost ib = idx@;
                idx.push(sub1_exec(a));
                proof {
                    assert(idx@.map_values(|q: usize| q as int) =~= ib.map_values(
                        |q: usize| q as int,
                    ).push(sub1c(a as int)));
                }
                k = k + 1;
            }
            let c = Canon::Face(idx);
            let ghost ob = out@;
            out.push(c);
            proof {
                lemma_canons_push(ob, c);
                assert(canon_spec(ts, i0, sti) == seq![CanonM::Face(pr.0)] + canon_cont(
                    ts,
                    i0,
                    pr.1,
                    sti,
                ));
                assert(pr.1 == j as int);
                assert(c@ == CanonM::Face(pr.0));
                assert(canon_cont(ts, i0, j as int, sti) == canon_spec(ts, j as int, sti));
                assert(canons_view(out@) + canon_spec(ts, j as int, sti) =~= canons_view(ob)
                    + canon_spec(ts, i0, sti));
            }
            i = j;
        } else if matches!(&tokens[i], Token::TextureKeyword) {
            let j1 = i + 1;
            let mut j2 = j1;
            if j1 < n {
                proof {
                    assert(ts[j1 as int] == tokens@[j1 as int]@);
                }
                if let Token::Ident(tname) = &tokens[j1] {
                    current_texture = Some(tname.clone());
                }
                j2 = j1 + 1;
            }
            let ghost st2 = st_model(current_texture, current_diffuse, current_specular);
            let snapshot_texture = match &current_texture {
                Some(tx) => Some(tx.clone()),
                None => None,
            };
            let c = Canon::Material {
                texture: snapshot_texture,
                diffuse: current_diffuse,
                specular: current_specular,
            };
            let ghost ob = out@;
            out.push(c);
            proof {
                lemma_canons_push(ob, c);
                assert(c@ == (CanonM::Material {
                    texture: st2.texture,
                    diffuse: st2.diffuse,
                    specular: st2.specular,
                }));
                assert(canon_spec(ts, i0, sti) == seq![c@] + canon_cont(ts, i0, j2 as int, st2));
                assert(canon_cont(ts, i0, j2 as int, st2) == canon_spec(ts, j2 as int, st2));
                assert(canons_view(out@) + canon_spec(ts, j2 as int, st2) =~= canons_view(ob)
                    + canon_spec(ts, i0, sti));
            }
            i = j2;
        } else if matches!(&tokens[i], Token::DiffuseKeyword) {
            let mut j = i + 1;
            let r = get_num(tokens, &mut j);
            let g = get_num(tokens, &mut j);
            let b = get_num(tokens, &mut j);
            current_diffuse = Some((r, g, b));
            proof {
                let st2 = st_model(current_texture, current_diffuse, current_specular);
                assert(canon_spec(ts, i0, sti) == canon_cont(ts, i0, j as int, st2));
                assert(canon_cont(ts, i0, j as int, st2) == canon_spec(ts, j as int, st2));
            }
            i = j;
        } else if matches!(&tokens[i], Token::SpecularKeyword) {
            let mut j = i + 1;
            let r = get_num(tokens, &mut j);
            let g = get_num(tokens, &mut j);
            let b = get_num(tokens, &mut j);
            current_specular = Some((r, g, b));
            proof {
                let st2 = st_model(current_texture, current_diffuse, current_specular);
                assert(canon_spec(ts, i0, sti) == canon_cont(ts, i0, j as int, st2));
                assert(canon_cont(ts, i0, j as int, st2) == canon_spec(ts, j as int, st2));
            }
            i = j;
        } else {
            let is_beg = matches!(
                &tokens[i],
                Token::ModelBeginKeyword | Token::ProtoBeginKeyword | Token::ClumpBeginKeyword
                    | Token::TransformBeginKeyword | Token::JointTransformBeginKeyword,
            ) || (match &tokens[i] {
                Token::Ident(s) => crate::strutil::ends_with_lit(s, "Begin"),
                _ => false,
            });
            let is_en = matches!(
                &tokens[i],
                Token::ModelEndKeyword | Token::ProtoEndKeyword | Token::ClumpEndKeyword
                    | Token::TransformEndKeyword | Token::JointTransformEndKeyword,
            ) || (match &tokens[i] {
                Token::Ident(s) => crate::strutil::ends_with_lit(s, "End"),
                _ => false,
            });
            if is_beg {
                let c = Canon::PushTransform;
                let ghost ob = out@;
                out.push(c);
                proof {
                    lemma_canons_push(ob, c);
                    assert(canon_spec(ts, i0, sti) == seq![c@] + canon_cont(
                        ts,
                        i0,
                        i0 + 1,
                        sti,
                    ));
                    assert(canon_cont(ts, i0, i0 + 1, sti) == canon_spec(ts, i0 + 1, sti));
                    assert(canons_view(out@) + canon_spec(ts, i0 + 1, sti) =~= canons_view(ob)
                        + canon_spec(ts, i0, sti));
                }
            } else if is_en {
                let c = Canon::PopTransform;
                let ghost ob = out@;
                out.push(c);
                proof {
                    lemma_canons_push(ob, c);
                    assert(canon_spec(ts, i0, sti) == seq![c@] + canon_cont(
                        ts,
                        i0,
                        i0 + 1,
                        sti,
                    ));
                    assert(canon_cont(ts, i0, i0 + 1, sti) == canon_spec(ts, i0 + 1, sti));
                    assert(canons_view(out@) + canon_spec(ts, i0 + 1, sti) =~= canons_view(ob)
                        + canon_spec(ts, i0, sti));
                }
            } else {
                proof {
                    assert(canon_spec(ts, i0, sti) == canon_cont(ts, i0, i0 + 1, sti));
                    assert(canon_cont(ts, i0, i0 + 1, sti) == canon_spec(ts, i0 + 1, sti));
                }
            }
            i = i + 1;
        }
    }
    proof {
        assert(canon_spec(ts, n as int, st_model(current_texture, current_diffuse,
            current_specular)) =~= Seq::<CanonM>::empty());
        assert(canons_view(out@) + Seq::<CanonM>::empty() =~= canons_view(out@));
    }
    out
}

pub proof fn lemma_get_num_chain_bounds(ts: Seq<TokM>, i: int)
    requires
        0 <= i <= ts.len(),
    ensures
        i <= get_num_s(ts, i).1 <= ts.len(),
{
}

} // verus!
