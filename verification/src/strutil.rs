//! Small string helpers: building strings character by character and
//! ASCII-case-insensitive comparison against keyword text.

use vstd::prelude::*;
use vstd::string::StrSliceExecFns;

verus! {

/// Relies on `String::push` of std: appends the given character to the end
/// of the string.
#[verifier::external_body]
pub fn string_push(s: &mut String, c: char)
    ensures
        final(s)@ == old(s)@.push(c),
{
    s.push(c);
}

/// The Unicode scalar of a character with an ASCII lower-case letter mapped
/// to its upper-case letter.
pub open spec fn upper_u(c: char) -> u32 {
    if 97 <= c as u32 <= 122 {
        (c as u32 - 32) as u32
    } else {
        c as u32
    }
}

/// Whether a word matches keyword text when upper-cased ASCII-wise.
pub open spec fn upper_match(w: Seq<char>, kw: Seq<char>) -> bool {
    w.len() == kw.len() && forall|i: int| 0 <= i < w.len() ==> upper_u(w[i]) == kw[i] as u32
}

fn upper_u_exec(c: char) -> (r: u32)
    ensures
        r == upper_u(c),
{
    let u = c as u32;
    if 97 <= u && u <= 122 {
        u - 32
    } else {
        u
    }
}

/// Compare a collected word against a keyword, ignoring ASCII case in the
/// word.
pub fn eq_upper(w: &String, kw: &str) -> (r: bool)
    ensures
        r == upper_match(w@, kw@),
{
    let ws = w.as_str();
    let nw = ws.unicode_len();
    let nk = kw.unicode_len();
    if nw != nk {
        return false;
    }
    let mut i: usize = 0;
    while i < nw
        invariant
            i <= nw,
            nw == w@.len(),
            nk == kw@.len(),
            nw == nk,
            ws@ == w@,
            forall|q: int| 0 <= q < i ==> upper_u(w@[q]) == kw@[q] as u32,
        decreases nw - i,
    {
        let cw = upper_u_exec(ws.get_char(i));
        let ck = kw.get_char(i);
        if cw != ck as u32 {
            return false;
        }
        i = i + 1;
    }
    true
}

/// Append every character of a literal onto a string.
pub fn append_str(s: &mut String, t: &str)
    ensures
        final(s)@ == old(s)@ + t@,
{
    let n = t.unicode_len();
    let mut i: usize = 0;
    while i < n
        invariant
            i <= n,
            n == t@.len(),
            s@ == old(s)@ + t@.take(i as int),
        decreases n - i,
    {
        let c = t.get_char(i);
        string_push(s, c);
        proof {
            assert(old(s)@ + t@.take(i + 1) =~= (old(s)@ + t@.take(i as int)).push(t@[i as int]));
        }
        i = i + 1;
    }
    proof {
        assert(old(s)@ + t@.take(n as int) =~= old(s)@ + t@);
    }
}

/// The decimal digit characters of a number, most significant first.
pub open spec fn dec_digits(n: int) -> Seq<char>
    decreases n,
{
    if n < 10 {
        seq![((48 + if n < 0 {
            0
        } else {
            n
        }) as u8) as char]
    } else {
        dec_digits(n / 10).push(((48 + n % 10) as u8) as char)
    }
}

/// Format a number in decimal.
pub fn decimal_string(n: u128) -> (s: String)
    ensures
        s@ == dec_digits(n as int),
    decreases n,
{
    if n < 10 {
        let c = ((48 + n) as u8) as char;
        let mut s = String::new();
        string_push(&mut s, c);
        proof {
            assert(s@ =~= dec_digits(n as int));
        }
        s
    } else {
        let mut s = decimal_string(n / 10);
        let c = ((48 + (n % 10)) as u8) as char;
        string_push(&mut s, c);
        s
    }
}

/// Whether a word equals literal text, character for character.
pub fn str_eq_lit(s: &String, lit: &str) -> (r: bool)
    ensures
        r == (s@ == lit@),
{
    let ss = s.as_str();
    let ns = ss.unicode_len();
    let nl = lit.unicode_len();
    if ns != nl {
        return false;
    }
    let mut k: usize = 0;
    while k < ns
        invariant
            k <= ns,
            ns == s@.len(),
            nl == lit@.len(),
            ns == nl,
            ss@ == s@,
            forall|q: int| 0 <= q < k ==> s@[q] == lit@[q],
        decreases ns - k,
    {
        if ss.get_char(k) != lit.get_char(k) {
            return false;
        }
        k = k + 1;
    }
    proof {
        assert(s@ =~= lit@);
    }
    true
}

/// Whether a word ends in the given literal suffix.
pub fn ends_with_lit(s: &String, suf: &str) -> (r: bool)
    ensures
        r == ends_with(s@, suf@),
{
    let ss = s.as_str();
    let ns = ss.unicode_len();
    let nsuf = suf.unicode_len();
    if ns < nsuf {
        return false;
    }
    let base = ns - nsuf;
    let mut k: usize = 0;
    while k < nsuf
        invariant
            k <= nsuf,
            ns == s@.len(),
            nsuf == suf@.len(),
            nsuf <= ns,
            base == ns - nsuf,
            ss@ == s@,
            forall|q: int| 0 <= q < k ==> s@[base + q] == suf@[q],
        decreases nsuf - k,
    {
        if ss.get_char(base + k) != suf.get_char(k) {
            proof {
                assert(s@.subrange(base as int, ns as int)[k as int] != suf@[k as int]);
            }
            return false;
        }
        k = k + 1;
    }
    proof {
        assert(s@.subrange(base as int, ns as int) =~= suf@);
    }
    true
}

/// A word ends with the given suffix.
pub open spec fn ends_with(s: Seq<char>, suf: Seq<char>) -> bool {
    s.len() >= suf.len() && s.subrange(s.len() - suf.len(), s.len() as int) == suf
}

} // verus!
