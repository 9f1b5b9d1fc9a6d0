//! Line-based tolerant RWX reader: one clump of vertices, faces and
//! deduplicated materials.
//!
//! Each line is split on whitespace and read as one command; malformed
//! lines are skipped, so reading never fails. Running material state
//! (color, ambient, diffuse, specular, opacity, texture) persists until
//! overwritten; when a face is read, the current state is matched against
//! the known materials within a tolerance of one ten-thousandth, and a
//! fresh name is coined when none matches. Face indices are kept one-based
//! as the file gives them.

use vstd::prelude::*;

use crate::num::{digit_seq, digits_val, first_idx, is_digit_c, num_value, valid_number};
use crate::semantics::Vertex;
use crate::strutil::dec_digits;
use vstd::string::{StringExecFns, StrSliceExecFns};

verus! {

broadcast use vstd::seq::group_seq_axioms;

/// A material as the line-based reader tracks it: a byte color, micro-unit
/// intensities and a texture name.
#[derive(Debug, PartialEq)]
pub struct RwxMaterial {
    pub color: (u8, u8, u8),
    pub ambient: i64,
    pub diffuse: i64,
    pub specular: i64,
    pub opacity: i64,
    pub texture: String,
}

/// A face: one-based vertex indices and the name of its material.
#[derive(Debug, Clone, PartialEq)]
pub struct Face {
    pub vertices: Vec<usize>,
    pub material_name: String,
}

/// One clump: vertices, named materials in first-use order, and faces.
#[derive(Debug)]
pub struct Clump {
    pub vertices: Vec<Vertex>,
    pub materials: Vec<(String, RwxMaterial)>,
    pub faces: Vec<Face>,
}

/// Model of a tracked material.
pub ghost struct MatM {
    pub color: (u8, u8, u8),
    pub ambient: int,
    pub diffuse: int,
    pub specular: int,
    pub opacity: int,
    pub texture: Seq<char>,
}

/// Model of the reader's whole state.
pub ghost struct ClumpStM {
    pub color: (u8, u8, u8),
    pub ambient: int,
    pub diffuse: int,
    pub specular: int,
    pub opacity: int,
    pub texture: Seq<char>,
    pub counter: int,
    pub materials: Seq<(Seq<char>, MatM)>,
    pub vertices: Seq<Vertex>,
    pub faces: Seq<(Seq<int>, Seq<char>)>,
}

/// The reader's initial state.
pub open spec fn clump_init() -> ClumpStM {
    ClumpStM {
        color: (0, 0, 0),
        ambient: 500_000,
        diffuse: 500_000,
        specular: 500_000,
        opacity: 1_000_000,
        texture: "default"@,
        counter: 1,
        materials: Seq::empty(),
        vertices: Seq::empty(),
        faces: Seq::empty(),
    }
}

/// ASCII whitespace, as the word splitter sees it.
pub open spec fn is_ws_c(c: char) -> bool {
    c as u32 == 32 || 9 <= c as u32 <= 13
}

/// The whitespace-separated words of a line.
pub open spec fn wsplit(s: Seq<char>, i: int) -> Seq<Seq<char>>
    decreases s.len() - i,
{
    if i < 0 || i >= s.len() {
        Seq::empty()
    } else if is_ws_c(s[i]) {
        wsplit(s, i + 1)
    } else {
        let j = first_idx(s, i, |c: char| is_ws_c(c));
        if i < j <= s.len() {
            seq![s.subrange(i, j)] + wsplit(s, j)
        } else {
            Seq::empty()
        }
    }
}

/// The value of a number word, or a fallback when it is not well formed.
pub open spec fn num_or(w: Seq<char>, d: int) -> int {
    if valid_number(w) {
        num_value(w)
    } else {
        d
    }
}

/// The digits of an index word, after its optional plus sign.
pub open spec fn index_body(w: Seq<char>) -> Seq<char> {
    if w.len() > 0 && w[0] == '+' {
        w.skip(1)
    } else {
        w
    }
}

/// Every character is a decimal digit.
pub open spec fn all_digit_chars(b: Seq<char>) -> bool {
    forall|i: int| 0 <= i < b.len() ==> is_digit_c(#[trigger] b[i])
}

/// A well-formed one-based index word: an optional plus sign, digits, a
/// value that face indices can hold.
pub open spec fn valid_index(w: Seq<char>) -> bool {
    &&& index_body(w).len() > 0
    &&& all_digit_chars(index_body(w))
    &&& digits_val(digit_seq(index_body(w))) <= u32::MAX as int
}

pub open spec fn index_value(w: Seq<char>) -> int {
    digits_val(digit_seq(index_body(w)))
}

/// Round half away from zero after scaling down by a positive divisor.
pub open spec fn rhad(a: int, d: int) -> int
    recommends
        d > 0,
{
    if a >= 0 {
        (a + d / 2) / d
    } else {
        -(((-a) + d / 2) / d)
    }
}

/// A color word as a byte: the micro-unit value (zero when malformed)
/// scaled by 255, rounded, clamped into a byte.
pub open spec fn color_byte(w: Seq<char>) -> u8 {
    let f = num_or(w, 0);
    let r = rhad(f * 255, 1_000_000);
    if r < 0 {
        0u8
    } else if r > 255 {
        255u8
    } else {
        r as u8
    }
}

/// Two tracked materials are the same: colors and textures equal, the
/// intensities within one ten-thousandth.
pub open spec fn mat_close(a: MatM, b: MatM) -> bool {
    &&& a.color == b.color
    &&& a.texture == b.texture
    &&& -100 <= a.ambient - b.ambient <= 100
    &&& -100 <= a.diffuse - b.diffuse <= 100
    &&& -100 <= a.specular - b.specular <= 100
    &&& -100 <= a.opacity - b.opacity <= 100
}

/// The current material state as a material record.
pub open spec fn cur_mat(st: ClumpStM) -> MatM {
    MatM {
        color: st.color,
        ambient: st.ambient,
        diffuse: st.diffuse,
        specular: st.specular,
        opacity: st.opacity,
        texture: st.texture,
    }
}

/// The first known material matching the current state, if any.
pub open spec fn find_mat(ms: Seq<(Seq<char>, MatM)>, m: MatM) -> Option<Seq<char>>
    decreases ms.len(),
{
    if ms.len() == 0 {
        None
    } else if mat_close(ms[0].1, m) {
        Some(ms[0].0)
    } else {
        find_mat(ms.drop_first(), m)
    }
}

/// The name coined for the next new material.
pub open spec fn mat_name(counter: int) -> Seq<char> {
    "mat_"@ + dec_digits(counter)
}

/// All words of a face line parse as indices.
pub open spec fn all_indices(ws: Seq<Seq<char>>) -> bool {
    forall|i: int| 0 <= i < ws.len() ==> valid_index(#[trigger] ws[i])
}

pub open spec fn index_values(ws: Seq<Seq<char>>) -> Seq<int> {
    ws.map_values(|w: Seq<char>| index_value(w))
}

/// Process one line's words against the state.
pub open spec fn clump_line(ws: Seq<Seq<char>>, st: ClumpStM) -> ClumpStM {
    if ws.len() == 0 || (ws[0].len() >= 2 && ws[0][0] == '/' && ws[0][1] == '/') {
        st
    } else {
        let w0 = ws[0];
        if w0 == "VertexExt"@ || w0 == "Vertex"@ {
            if ws.len() >= 4 && valid_number(ws[1]) && valid_number(ws[2]) && valid_number(
                ws[3],
            ) {
                let uv: (int, int) = if w0 == "VertexExt"@ && ws.len() >= 6 && valid_number(
                    ws[4],
                ) && valid_number(ws[5]) {
                    (num_value(ws[4]), num_value(ws[5]))
                } else {
                    (0, 0)
                };
                ClumpStM {
                    vertices: st.vertices.push(
                        Vertex {
                            position: (
                                num_value(ws[1]) as i64,
                                num_value(ws[2]) as i64,
                                num_value(ws[3]) as i64,
                            ),
                            uv: (uv.0 as i64, uv.1 as i64),
                        },
                    ),
                    ..st
                }
            } else {
                st
            }
        } else if w0 == "Color"@ {
            if ws.len() >= 4 {
                ClumpStM {
                    color: (color_byte(ws[1]), color_byte(ws[2]), color_byte(ws[3])),
                    ..st
                }
            } else {
                st
            }
        } else if w0 == "Ambient"@ {
            if ws.len() >= 2 {
                ClumpStM { ambient: num_or(ws[1], 500_000), ..st }
            } else {
                st
            }
        } else if w0 == "Diffuse"@ {
            if ws.len() >= 2 {
                ClumpStM { diffuse: num_or(ws[1], 500_000), ..st }
            } else {
                st
            }
        } else if w0 == "Specular"@ {
            if ws.len() >= 2 {
                ClumpStM { specular: num_or(ws[1], 500_000), ..st }
            } else {
                st
            }
        } else if w0 == "Opacity"@ {
            if ws.len() >= 2 {
                ClumpStM { opacity: num_or(ws[1], 1_000_000), ..st }
            } else {
                st
            }
        } else if w0 == "Texture"@ {
            if ws.len() >= 2 {
                ClumpStM { texture: ws[1], ..st }
            } else {
                st
            }
        } else if w0 == "Quad"@ || w0 == "Polygon"@ {
            let rest = ws.drop_first();
            if all_indices(rest) {
                let m = cur_mat(st);
                match find_mat(st.materials, m) {
                    Some(name) => ClumpStM {
                        faces: st.faces.push((index_values(rest), name)),
                        ..st
                    },
                    None => {
                        let name = mat_name(st.counter);
                        ClumpStM {
                            counter: st.counter + 1,
                            materials: st.materials.push((name, m)),
                            faces: st.faces.push((index_values(rest), name)),
                            ..st
                        }
                    },
                }
            } else {
                st
            }
        } else {
            st
        }
    }
}

/// Process the text line by line from position `i`.
pub open spec fn clump_lines(text: Seq<char>, i: int, st: ClumpStM) -> ClumpStM
    decreases text.len() - i,
    via clump_lines_dec
{
    if i < 0 || i >= text.len() {
        st
    } else {
        let e = first_idx(text, i, |c: char| c == '\n');
        let st2 = clump_line(wsplit(text.subrange(i, e), 0), st);
        clump_lines(text, if e < text.len() {
            e + 1
        } else {
            e
        }, st2)
    }
}

#[via_fn]
proof fn clump_lines_dec(text: Seq<char>, i: int, st: ClumpStM) {
    if 0 <= i < text.len() {
        crate::lexer::lemma_first_idx_props(text, i, |c: char| c == '\n');
    }
}

/// Model of a clump.
pub open spec fn clump_model(c: Clump) -> (Seq<Vertex>, Seq<(Seq<char>, MatM)>, Seq<(
    Seq<int>,
    Seq<char>,
)>) {
    (
        c.vertices@,
        c.materials@.map_values(|p: (String, RwxMaterial)| (p.0@, mat_model(p.1))),
        c.faces@.map_values(
            |f: Face| (f.vertices@.map_values(|k: usize| k as int), f.material_name@),
        ),
    )
}

pub open spec fn mat_model(m: RwxMaterial) -> MatM {
    MatM {
        color: m.color,
        ambient: m.ambient as int,
        diffuse: m.diffuse as int,
        specular: m.specular as int,
        opacity: m.opacity as int,
        texture: m.texture@,
    }
}


/// Model of a material list.
pub open spec fn mats_model(ms: Seq<(String, RwxMaterial)>) -> Seq<(Seq<char>, MatM)> {
    ms.map_values(|p: (String, RwxMaterial)| (p.0@, mat_model(p.1)))
}

/// Model of a face list.
pub open spec fn cfaces_model(fs: Seq<Face>) -> Seq<(Seq<int>, Seq<char>)> {
    fs.map_values(|f: Face| (f.vertices@.map_values(|k: usize| k as int), f.material_name@))
}

/// Model of a word list.
pub open spec fn wsv(ws: Seq<String>) -> Seq<Seq<char>> {
    ws.map_values(|w: String| w@)
}

/// The reader's running state.
struct ReaderState {
    color: (u8, u8, u8),
    ambient: i64,
    diffuse: i64,
    specular: i64,
    opacity: i64,
    texture: String,
    counter: u128,
    materials: Vec<(String, RwxMaterial)>,
    vertices: Vec<Vertex>,
    faces: Vec<Face>,
}

/// The model of the running state.
pub closed spec fn rst_model_of(
    color: (u8, u8, u8),
    ambient: i64,
    diffuse: i64,
    specular: i64,
    opacity: i64,
    texture: Seq<char>,
    counter: int,
    materials: Seq<(Seq<char>, MatM)>,
    vertices: Seq<Vertex>,
    faces: Seq<(Seq<int>, Seq<char>)>,
) -> ClumpStM {
    ClumpStM {
        color,
        ambient: ambient as int,
        diffuse: diffuse as int,
        specular: specular as int,
        opacity: opacity as int,
        texture,
        counter,
        materials,
        vertices,
        faces,
    }
}

impl ReaderState {
    spec fn model(&self) -> ClumpStM {
        rst_model_of(
            self.color,
            self.ambient,
            self.diffuse,
            self.specular,
            self.opacity,
            self.texture@,
            self.counter as int,
            mats_model(self.materials@),
            self.vertices@,
            cfaces_model(self.faces@),
        )
    }
}

fn ws_exec(c: char) -> (r: bool)
    ensures
        r == is_ws_c(c),
{
    let u = c as u32;
    u == 32 || (9 <= u && u <= 13)
}

fn not_ws_at(s: &str, j: usize) -> (r: bool)
    requires
        j < s@.len(),
    ensures
        r == !is_ws_c(s@[j as int]),
{
    !ws_exec(s.get_char(j))
}

fn not_nl_at(s: &str, j: usize) -> (r: bool)
    requires
        j < s@.len(),
    ensures
        r == (s@[j as int] != '\n'),
{
    s.get_char(j) != '\n'
}

/// Split one line into whitespace-separated words.
pub(crate) fn split_words(s: &str, i: usize, e: usize) -> (ws: Vec<String>)
    requires
        i <= e <= s@.len(),
    ensures
        wsv(ws@) == wsplit(s@.subrange(i as int, e as int), 0),
{
    let ghost line = s@.subrange(i as int, e as int);
    let mut ws: Vec<String> = Vec::new();
    let mut k = i;
    proof {
        assert(wsv(ws@) =~= Seq::<Seq<char>>::empty());
    }
    while k < e
        invariant
            i <= k <= e <= s@.len(),
            line == s@.subrange(i as int, e as int),
            wsplit(line, 0) == wsv(ws@) + wsplit(line, k - i),
        decreases e - k,
    {
        proof {
            assert(line[k - i] == s@[k as int]);
        }
        let c = s.get_char(k);
        if ws_exec(c) {
            k = k + 1;
        } else {
            let mut word = String::new();
            crate::strutil::string_push(&mut word, c);
            let mut j = k + 1;
            proof {
                assert(word@ =~= line.subrange(k - i, k - i + 1));
            }
            while j < e && not_ws_at(s, j)
                invariant
                    i <= k < j <= e <= s@.len(),
                    line == s@.subrange(i as int, e as int),
                    word@ == line.subrange(k - i, j - i),
                    forall|q: int| k - i <= q < j - i ==> !is_ws_c(line[q]),
                decreases e - j,
            {
                proof {
                    assert(line[j - i] == s@[j as int]);
                }
                let c2 = s.get_char(j);
                crate::strutil::string_push(&mut word, c2);
                proof {
                    assert(line.subrange(k - i, j - i + 1) =~= line.subrange(k - i, j - i).push(
                        line[j - i],
                    ));
                }
                j = j + 1;
            }
            proof {
                if j < e {
                    assert(line[j - i] == s@[j as int]);
                }
                crate::num::lemma_first_idx_at(line, k - i, j - i, |c2: char| is_ws_c(c2));
                assert(first_idx(line, k - i, |c2: char| is_ws_c(c2)) == j - i);
            }
            let ghost wb = ws@;
            ws.push(word);
            proof {
                assert(wsv(ws@) =~= wsv(wb).push(word@));
                assert(wsplit(line, k - i) == seq![line.subrange(k - i, j - i)] + wsplit(
                    line,
                    j - i,
                ));
                assert(wsplit(line, 0) =~= wsv(ws@) + wsplit(line, j - i));
            }
            k = j;
        }
    }
    proof {
        assert(wsplit(line, e - i) =~= Seq::<Seq<char>>::empty());
        assert(wsv(ws@) + Seq::<Seq<char>>::empty() =~= wsv(ws@));
    }
    ws
}

/// Parse a one-based index word.
fn parse_index(w: &String) -> (r: Option<usize>)
    ensures
        r is Some <==> valid_index(w@),
        r matches Some(v) ==> v as int == index_value(w@),
{
    let ws = w.as_str();
    let n = ws.unicode_len();
    let start: usize = if n > 0 && ws.get_char(0) == '+' {
        1
    } else {
        0
    };
    let ghost b = index_body(w@);
    proof {
        assert(b =~= w@.subrange(start as int, n as int));
    }
    if start >= n {
        return None;
    }
    let mut acc: u64 = 0;
    let mut k = start;
    proof {
        assert(b.take(0) =~= Seq::<char>::empty());
    }
    while k < n
        invariant
            start <= k <= n == w@.len(),
            ws@ == w@,
            b == w@.subrange(start as int, n as int),
            b == index_body(w@),
            forall|q: int| 0 <= q < k - start ==> is_digit_c(b[q]),
            acc <= 0x1_0000_0000_0000,
            acc as int == (if digits_val(digit_seq(b.take(k - start))) > 0x1_0000_0000_0000 {
                0x1_0000_0000_0000int
            } else {
                digits_val(digit_seq(b.take(k - start)))
            }),
        decreases n - k,
    {
        proof {
            assert(b[k - start] == w@[k as int]);
        }
        let c = ws.get_char(k);
        let u = c as u32;
        if !(48 <= u && u <= 57) {
            proof {
                assert(b.len() == n - start);
                assert(0 <= k - start < b.len());
                assert(!is_digit_c(b[k - start]));
                assert(b == index_body(w@));
                assert(!all_digit_chars(index_body(w@)));
            }
            return None;
        }
        let d = (u - 48) as u64;
        proof {
            let pref = digit_seq(b.take(k - start));
            let next = digit_seq(b.take(k - start + 1));
            assert(b.take(k - start + 1).drop_last() =~= b.take(k - start));
            assert(b.take(k - start + 1).last() == b[k - start]);
            assert(next == pref.push((u - 48) as u8));
            assert(next.drop_last() =~= pref);
            crate::num::lemma_digits_val_nonneg(pref);
            assert(digits_val(next) == digits_val(pref) * 10 + d);
        }
        let grown = acc * 10 + d;
        acc = if grown > 0x1_0000_0000_0000 {
            0x1_0000_0000_0000
        } else {
            grown
        };
        k = k + 1;
    }
    proof {
        assert(b.take(n - start) =~= b);
    }
    if acc > 0xFFFF_FFFF {
        proof {
            assert(digits_val(digit_seq(b)) > u32::MAX as int);
        }
        None
    } else {
        Some(acc as usize)
    }
}

/// The value of a number word, or a fallback when it is not well formed.
fn num_or_exec(w: &String, d: i64) -> (r: i64)
    ensures
        r as int == num_or(w@, d as int),
{
    match crate::num::parse_number(w.as_str()) {
        Some(v) => v,
        None => d,
    }
}

/// A color word as a byte.
fn color_byte_exec(w: &String) -> (r: u8)
    ensures
        r == color_byte(w@),
{
    let f: i64 = match crate::num::parse_number(w.as_str()) {
        Some(v) => v,
        None => 0,
    };
    proof {
        crate::num::lemma_num_value_bounded(w@);
    }
    let scaled: i128 = (f as i128) * 255;
    proof {
        assert(-(1_000_000_000_000_000int * 255) <= (f as int) * 255 <= 1_000_000_000_000_000int
            * 255) by (nonlinear_arith)
            requires
                -1_000_000_000_000_000 <= f as int <= 1_000_000_000_000_000,
        ;
        assert(1_000_000int / 2 == 500_000) by {
            vstd::arithmetic::div_mod::lemma_fundamental_div_mod_converse_div(
                1_000_000,
                2,
                500_000,
                0,
            );
        }
    }
    let rr: i128 = if scaled >= 0 {
        let q: u128 = ((scaled as u128) + 500_000) / 1_000_000;
        q as i128
    } else {
        let q: u128 = (((-scaled) as u128) + 500_000) / 1_000_000;
        -(q as i128)
    };
    if rr < 0 {
        0
    } else if rr > 255 {
        255
    } else {
        rr as u8
    }
}

/// Two materials are the same within the reader's tolerance.
fn mat_close_exec(a: &RwxMaterial, b: &RwxMaterial) -> (r: bool)
    ensures
        r == mat_close(mat_model(*a), mat_model(*b)),
{
    let ca = (a.color.0 == b.color.0) && (a.color.1 == b.color.1) && (a.color.2 == b.color.2);
    let tx = a.texture == b.texture;
    let am = close_i64(a.ambient, b.ambient);
    let df = close_i64(a.diffuse, b.diffuse);
    let sp = close_i64(a.specular, b.specular);
    let op = close_i64(a.opacity, b.opacity);
    ca && tx && am && df && sp && op
}

fn close_i64(a: i64, b: i64) -> (r: bool)
    ensures
        r == (-100 <= a as int - b as int <= 100),
{
    let d: i128 = (a as i128) - (b as i128);
    -100 <= d && d <= 100
}


/// The first known material matching the given one, by name.
fn find_material(ms: &Vec<(String, RwxMaterial)>, m: &RwxMaterial) -> (r: Option<String>)
    ensures
        match r {
            Some(nm) => find_mat(mats_model(ms@), mat_model(*m)) == Some(nm@),
            None => find_mat(mats_model(ms@), mat_model(*m)) is None,
        },
{
    let ghost mm = mats_model(ms@);
    let mut q: usize = 0;
    proof {
        assert(mm.skip(0) =~= mm);
    }
    while q < ms.len()
        invariant
            q <= ms@.len(),
            mm == mats_model(ms@),
            mm.len() == ms@.len(),
            find_mat(mm, mat_model(*m)) == find_mat(mm.skip(q as int), mat_model(*m)),
        decreases ms@.len() - q,
    {
        proof {
            assert(mm[q as int] == (ms@[q as int].0@, mat_model(ms@[q as int].1)));
            assert(mm.skip(q as int)[0] == mm[q as int]);
            assert(mm.skip(q as int).drop_first() =~= mm.skip(q + 1));
        }
        if mat_close_exec(&ms[q].1, m) {
            return Some(ms[q].0.clone());
        }
        q = q + 1;
    }
    proof {
        assert(mm.skip(ms@.len() as int) =~= Seq::<(Seq<char>, MatM)>::empty());
    }
    None
}

/// Process one line's words against the state.
#[verifier::rlimit(100)]
fn do_line(stt: &mut ReaderState, ws: &Vec<String>)
    requires
        old(stt).counter < u128::MAX,
    ensures
        final(stt).model() == clump_line(wsv(ws@), old(stt).model()),
        final(stt).counter <= old(stt).counter + 1,
{
    let ghost st0 = old(stt).model();
    let ghost wm = wsv(ws@);
    if ws.len() == 0 {
        return ;
    }
    proof {
        assert(wm[0] == ws@[0]@);
    }
    let nw = ws.len();
    let w0s = ws[0].as_str();
    let n0 = w0s.unicode_len();
    let is_comment = n0 >= 2 && w0s.get_char(0) == '/' && w0s.get_char(1) == '/';
    if is_comment {
        return ;
    }
    let is_ext = crate::strutil::str_eq_lit(&ws[0], "VertexExt");
    let is_plain = crate::strutil::str_eq_lit(&ws[0], "Vertex");
    if is_ext || is_plain {
        if nw >= 4 {
            let p1 = crate::num::parse_number(ws[1].as_str());
            let p2 = crate::num::parse_number(ws[2].as_str());
            let p3 = crate::num::parse_number(ws[3].as_str());
            proof {
                assert(wm[1] == ws@[1]@);
                assert(wm[2] == ws@[2]@);
                assert(wm[3] == ws@[3]@);
            }
            match (p1, p2, p3) {
                (Some(x), Some(y), Some(z)) => {
                    let mut u: i64 = 0;
                    let mut v: i64 = 0;
                    if is_ext && nw >= 6 {
                        proof {
                            assert(wm[4] == ws@[4]@);
                            assert(wm[5] == ws@[5]@);
                        }
                        let p4 = crate::num::parse_number(ws[4].as_str());
                        let p5 = crate::num::parse_number(ws[5].as_str());
                        if let (Some(a), Some(b)) = (p4, p5) {
                            u = a;
                            v = b;
                        }
                    }
                    let ghost vb = stt.vertices@;
                    stt.vertices.push(Vertex { position: (x, y, z), uv: (u, v) });
                    proof {
                        assert(stt.vertices@ =~= vb.push(
                            Vertex { position: (x, y, z), uv: (u, v) },
                        ));
                        assert(final(stt).model() == clump_line(wm, st0));
                    }
                },
                _ => {
                    proof {
                        assert(final(stt).model() == clump_line(wm, st0));
                    }
                },
            }
        }
        return ;
    }
    let is_color = crate::strutil::str_eq_lit(&ws[0], "Color");
    if is_color {
        if nw >= 4 {
            proof {
                assert(wm[1] == ws@[1]@);
                assert(wm[2] == ws@[2]@);
                assert(wm[3] == ws@[3]@);
            }
            let r = color_byte_exec(&ws[1]);
            let g = color_byte_exec(&ws[2]);
            let b = color_byte_exec(&ws[3]);
            stt.color = (r, g, b);
        }
        return ;
    }
    let is_ambient = crate::strutil::str_eq_lit(&ws[0], "Ambient");
    if is_ambient {
        if nw >= 2 {
            proof {
                assert(wm[1] == ws@[1]@);
            }
            stt.ambient = num_or_exec(&ws[1], 500_000);
        }
        return ;
    }
    let is_diffuse = crate::strutil::str_eq_lit(&ws[0], "Diffuse");
    if is_diffuse {
        if nw >= 2 {
            proof {
                assert(wm[1] == ws@[1]@);
            }
            stt.diffuse = num_or_exec(&ws[1], 500_000);
        }
        return ;
    }
    let is_specular = crate::strutil::str_eq_lit(&ws[0], "Specular");
    if is_specular {
        if nw >= 2 {
            proof {
                assert(wm[1] == ws@[1]@);
            }
            stt.specular = num_or_exec(&ws[1], 500_000);
        }
        return ;
    }
    let is_opacity = crate::strutil::str_eq_lit(&ws[0], "Opacity");
    if is_opacity {
        if nw >= 2 {
            proof {
                assert(wm[1] == ws@[1]@);
            }
            stt.opacity = num_or_exec(&ws[1], 1_000_000);
        }
        return ;
    }
    let is_texture = crate::strutil::str_eq_lit(&ws[0], "Texture");
    if is_texture {
        if nw >= 2 {
            proof {
                assert(wm[1] == ws@[1]@);
            }
            stt.texture = ws[1].clone();
        }
        return ;
    }
    let is_quad = crate::strutil::str_eq_lit(&ws[0], "Quad");
    let is_poly = crate::strutil::str_eq_lit(&ws[0], "Polygon");
    if is_quad || is_poly {
        let ghost rest = wm.drop_first();
        let mut idxs: Vec<usize> = Vec::new();
        let mut q: usize = 1;
        let mut okall = true;
        proof {
            assert(rest.len() == wm.len() - 1);
            assert(idxs@.map_values(|k: usize| k as int) =~= index_values(rest).take(0));
        }
        while q < nw && okall
            invariant
                1 <= q <= nw == ws@.len(),
                wm == wsv(ws@),
                rest == wm.drop_first(),
                okall ==> (forall|p: int| 0 <= p < q - 1 ==> valid_index(#[trigger] rest[p])),
                okall ==> idxs@.map_values(|k: usize| k as int) == index_values(rest).take(
                    q - 1,
                ),
                !okall ==> !all_indices(rest),
            decreases nw - q,
        {
            proof {
                assert(wm[q as int] == ws@[q as int]@);
                assert(rest[q - 1] == wm[q as int]);
            }
            match parse_index(&ws[q]) {
                Some(v) => {
                    let ghost ib = idxs@;
                    idxs.push(v);
                    proof {
                        assert(idxs@.map_values(|k: usize| k as int) =~= ib.map_values(
                            |k: usize| k as int,
                        ).push(v as int));
                        assert(index_values(rest).take(q as int) =~= index_values(rest).take(
                            q - 1,
                        ).push(index_value(rest[q - 1])));
                    }
                },
                None => {
                    okall = false;
                    proof {
                        assert(!valid_index(rest[q - 1]));
                    }
                },
            }
            q = q + 1;
        }
        if okall {
            proof {
                assert(forall|p: int| 0 <= p < rest.len() ==> valid_index(#[trigger] rest[p]));
                assert(index_values(rest).take(rest.len() as int) =~= index_values(rest));
            }
            let mdef = RwxMaterial {
                color: stt.color,
                ambient: stt.ambient,
                diffuse: stt.diffuse,
                specular: stt.specular,
                opacity: stt.opacity,
                texture: stt.texture.clone(),
            };
            proof {
                assert(mat_model(mdef) == cur_mat(st0));
            }
            let name: String = match find_material(&stt.materials, &mdef) {
                Some(nm) => nm,
                None => {
                    let mut nm = String::from_str("mat_");
                    let digits = crate::strutil::decimal_string(stt.counter);
                    crate::strutil::append_str(&mut nm, digits.as_str());
                    let ghost mb = stt.materials@;
                    stt.materials.push((nm.clone(), mdef));
                    stt.counter = stt.counter + 1;
                    proof {
                        assert(nm@ == mat_name(st0.counter));
                        assert(mats_model(stt.materials@) =~= mats_model(mb).push(
                            (nm@, cur_mat(st0)),
                        ));
                    }
                    nm
                },
            };
            let ghost fb = stt.faces@;
            let f = Face { vertices: idxs, material_name: name };
            stt.faces.push(f);
            proof {
                assert(cfaces_model(stt.faces@) =~= cfaces_model(fb).push(
                    (f.vertices@.map_values(|k: usize| k as int), f.material_name@),
                ));
                assert(final(stt).model() == clump_line(wm, st0));
            }
        } else {
            proof {
                assert(final(stt).model() == clump_line(wm, st0));
            }
        }
        return ;
    }
}

/// Read RWX text line by line into one clump. Reading never fails;
/// malformed lines are skipped.
pub fn parse_rwx(content: &str) -> (r: Result<Clump, String>)
    ensures
        r is Ok,
        (r matches Ok(c) ==> ({
            let fin = clump_lines(content@, 0, clump_init());
            &&& c.vertices@ == fin.vertices
            &&& mats_model(c.materials@) == fin.materials
            &&& cfaces_model(c.faces@) == fin.faces
        })),
{
    let n = content.unicode_len();
    let mut stt = ReaderState {
        color: (0, 0, 0),
        ambient: 500_000,
        diffuse: 500_000,
        specular: 500_000,
        opacity: 1_000_000,
        texture: String::from_str("default"),
        counter: 1,
        materials: Vec::new(),
        vertices: Vec::new(),
        faces: Vec::new(),
    };
    proof {
        assert(mats_model(stt.materials@) =~= Seq::<(Seq<char>, MatM)>::empty());
        assert(cfaces_model(stt.faces@) =~= Seq::<(Seq<int>, Seq<char>)>::empty());
        assert(stt.model() == clump_init());
    }
    let mut i: usize = 0;
    while i < n
        invariant
            i <= n == content@.len(),
            stt.counter as int <= 1 + i as int,
            clump_lines(content@, 0, clump_init()) == clump_lines(
                content@,
                i as int,
                stt.model(),
            ),
        decreases n - i,
    {
        let mut j = i;
        while j < n && not_nl_at(content, j)
            invariant
                i <= j <= n == content@.len(),
                forall|q: int| i <= q < j ==> content@[q] != '\n',
            decreases n - j,
        {
            j = j + 1;
        }
        proof {
            crate::num::lemma_first_idx_at(content@, i as int, j as int, |c: char| c == '\n');
        }
        let ws = split_words(content, i, j);
        do_line(&mut stt, &ws);
        i = if j < n {
            j + 1
        } else {
            j
        };
    }
    proof {
        assert(clump_lines(content@, n as int, stt.model()) == stt.model());
    }
    Ok(Clump { vertices: stt.vertices, materials: stt.materials, faces: stt.faces })
}

} // verus!
