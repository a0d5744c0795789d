//! Byte-level text utilities shared by the OBJ parser: splitting input into
//! lines, splitting a line into whitespace-separated tokens, reading an
//! unsigned decimal number, and taking the part of a token before the first
//! slash.
//!
//! Each operation has a spec-level definition written as a left fold over
//! the bytes; the executable functions are proved to return exactly that.

use vstd::prelude::*;

verus! {

/// ASCII whitespace, as the tokenizer understands it: space, tab, line
/// feed, vertical tab, form feed and carriage return.
pub open spec fn is_space(b: u8) -> bool {
    b == 32 || b == 9 || b == 10 || b == 11 || b == 12 || b == 13
}

pub open spec fn is_digit(b: u8) -> bool {
    48 <= b && b <= 57
}

/// The views of a sequence of byte vectors.
pub open spec fn byte_rows(vs: Seq<Vec<u8>>) -> Seq<Seq<u8>> {
    Seq::new(vs.len(), |i: int| vs[i]@)
}

// ---------------------------------------------------------------------------
// Lines
// ---------------------------------------------------------------------------

/// One step of the line splitter: a line feed finishes the current line,
/// any other byte extends it.
pub open spec fn line_step(acc: (Seq<Seq<u8>>, Seq<u8>), b: u8) -> (Seq<Seq<u8>>, Seq<u8>) {
    if b == 10 {
        (acc.0.push(acc.1), Seq::empty())
    } else {
        (acc.0, acc.1.push(b))
    }
}

/// The line splitter folded over a whole byte sequence: the pair of the
/// finished lines and the unfinished final line.
pub open spec fn lines_fold(s: Seq<u8>) -> (Seq<Seq<u8>>, Seq<u8>)
    decreases s.len(),
{
    if s.len() == 0 {
        (Seq::empty(), Seq::empty())
    } else {
        line_step(lines_fold(s.drop_last()), s.last())
    }
}

/// The lines of a byte sequence: every line-feed-terminated line, then the
/// trailing unterminated line (possibly empty; an empty line holds no
/// tokens and is skipped by every record reader).
pub open spec fn spec_lines(s: Seq<u8>) -> Seq<Seq<u8>> {
    lines_fold(s).0.push(lines_fold(s).1)
}

/// Splits `text` at line feeds.
pub fn split_lines(text: &Vec<u8>) -> (r: Vec<Vec<u8>>)
    ensures
        byte_rows(r@) == spec_lines(text@),
{
    let mut done: Vec<Vec<u8>> = Vec::new();
    let mut cur: Vec<u8> = Vec::new();
    let n: usize = text.len();
    let mut i: usize = 0;
    while i < n
        invariant
            i <= n,
            n == text@.len(),
            byte_rows(done@) == lines_fold(text@.take(i as int)).0,
            cur@ == lines_fold(text@.take(i as int)).1,
        decreases n - i,
    {
        let ghost done0 = done@;
        let ghost cur0 = cur@;
        proof {
            assert(text@.take(i + 1).drop_last() =~= text@.take(i as int));
            assert(text@.take(i + 1).last() == text@[i as int]);
        }
        let b = text[i];
        if b == 10 {
            done.push(cur);
            cur = Vec::new();
            proof {
                assert(byte_rows(done@) =~= byte_rows(done0).push(cur0));
            }
        } else {
            cur.push(b);
        }
        i += 1;
    }
    proof {
        assert(text@.take(n as int) =~= text@);
    }
    let ghost done1 = done@;
    let ghost cur1 = cur@;
    let mut r = done;
    r.push(cur);
    proof {
        assert(byte_rows(r@) =~= byte_rows(done1).push(cur1));
    }
    r
}

// ---------------------------------------------------------------------------
// Tokens
// ---------------------------------------------------------------------------

/// One step of the tokenizer: whitespace finishes the pending token (if
/// any), any other byte extends it.
pub open spec fn tok_step(acc: (Seq<Seq<u8>>, Seq<u8>), b: u8) -> (Seq<Seq<u8>>, Seq<u8>) {
    if is_space(b) {
        if acc.1.len() == 0 {
            acc
        } else {
            (acc.0.push(acc.1), Seq::empty())
        }
    } else {
        (acc.0, acc.1.push(b))
    }
}

/// The tokenizer folded over a whole byte sequence.
pub open spec fn toks_fold(s: Seq<u8>) -> (Seq<Seq<u8>>, Seq<u8>)
    decreases s.len(),
{
    if s.len() == 0 {
        (Seq::empty(), Seq::empty())
    } else {
        tok_step(toks_fold(s.drop_last()), s.last())
    }
}

/// The whitespace-separated tokens of a byte sequence, in order. Tokens are
/// never empty; a blank line has none.
pub open spec fn spec_tokens(s: Seq<u8>) -> Seq<Seq<u8>> {
    let (ts, cur) = toks_fold(s);
    if cur.len() == 0 {
        ts
    } else {
        ts.push(cur)
    }
}

/// Splits a line at runs of whitespace.
pub fn tokenize(line: &Vec<u8>) -> (r: Vec<Vec<u8>>)
    ensures
        byte_rows(r@) == spec_tokens(line@),
{
    let mut done: Vec<Vec<u8>> = Vec::new();
    let mut cur: Vec<u8> = Vec::new();
    let n: usize = line.len();
    let mut i: usize = 0;
    while i < n
        invariant
            i <= n,
            n == line@.len(),
            byte_rows(done@) == toks_fold(line@.take(i as int)).0,
            cur@ == toks_fold(line@.take(i as int)).1,
        decreases n - i,
    {
        let ghost done0 = done@;
        let ghost cur0 = cur@;
        proof {
            assert(line@.take(i + 1).drop_last() =~= line@.take(i as int));
            assert(line@.take(i + 1).last() == line@[i as int]);
        }
        let b = line[i];
        if b == 32 || b == 9 || b == 10 || b == 11 || b == 12 || b == 13 {
            if cur.len() > 0 {
                done.push(cur);
                cur = Vec::new();
                proof {
                    assert(byte_rows(done@) =~= byte_rows(done0).push(cur0));
                }
            }
        } else {
            cur.push(b);
        }
        i += 1;
    }
    proof {
        assert(line@.take(n as int) =~= line@);
    }
    let ghost done1 = done@;
    let ghost cur1 = cur@;
    if cur.len() > 0 {
        let mut r = done;
        r.push(cur);
        proof {
            assert(byte_rows(r@) =~= byte_rows(done1).push(cur1));
        }
        r
    } else {
        done
    }
}

// ---------------------------------------------------------------------------
// Unsigned decimal numbers
// ---------------------------------------------------------------------------

pub open spec fn all_digits(s: Seq<u8>) -> bool {
    forall|i: int| 0 <= i < s.len() ==> is_digit(#[trigger] s[i])
}

/// The value of a sequence of decimal digit bytes, most significant first.
pub open spec fn dec_val(s: Seq<u8>) -> int
    decreases s.len(),
{
    if s.len() == 0 {
        0
    } else {
        dec_val(s.drop_last()) * 10 + (s.last() - 48)
    }
}

/// What `str::parse::<u32>` accepts: an optional leading plus sign, then
/// one or more decimal digits whose value fits in a `u32`.
pub open spec fn spec_parse_u32(s: Seq<u8>) -> Option<u32> {
    let d = if s.len() > 0 && s[0] == 43 {
        s.skip(1)
    } else {
        s
    };
    if d.len() == 0 || !all_digits(d) || dec_val(d) > u32::MAX {
        None
    } else {
        Some(dec_val(d) as u32)
    }
}

/// Reads an unsigned decimal number, rejecting empty input, non-digit
/// bytes, and values that overflow a `u32`.
pub fn parse_u32(s: &Vec<u8>) -> (r: Option<u32>)
    ensures
        r == spec_parse_u32(s@),
{
    let n: usize = s.len();
    let start: usize = if n > 0 && s[0] == 43 {
        1
    } else {
        0
    };
    let ghost d: Seq<u8> = if start == 1 {
        s@.skip(1)
    } else {
        s@
    };
    if n == start {
        return None;
    }
    let mut acc: u32 = 0;
    let mut over: bool = false;
    let mut i: usize = start;
    while i < n
        invariant
            start <= i <= n,
            n == s@.len(),
            start == 0 || start == 1,
            start == 1 ==> n > 0 && s@[0] == 43,
            start == 0 ==> !(n > 0 && s@[0] == 43),
            d == (if start == 1 { s@.skip(1) } else { s@ }),
            all_digits(d.take(i - start)),
            !over ==> acc == dec_val(d.take(i - start)) && dec_val(d.take(i - start)) <= u32::MAX,
            over ==> dec_val(d.take(i - start)) > u32::MAX,
        decreases n - i,
    {
        let b = s[i];
        if !(48 <= b && b <= 57) {
            proof {
                assert(d[i - start] == s@[i as int]);
                assert(!all_digits(d));
            }
            return None;
        }
        let ghost k = i - start;
        proof {
            assert(d.take(k + 1).drop_last() =~= d.take(k as int));
            assert(d.take(k + 1).last() == d[k as int]);
            assert(d[k as int] == s@[i as int]);
        }
        let dig: u32 = (b - 48) as u32;
        if over {
            // the prefix already overflows; a further digit keeps it so
            proof {
                assert(dec_val(d.take(k + 1)) > u32::MAX);
            }
        } else if acc > (u32::MAX - dig) / 10 {
            over = true;
            proof {
                assert(acc * 10 + dig > u32::MAX) by {
                    assert(acc >= (u32::MAX - dig) / 10 + 1);
                    assert(((u32::MAX - dig) / 10 + 1) * 10 > u32::MAX - dig);
                };
                assert(dec_val(d.take(k + 1)) > u32::MAX);
            }
        } else {
            proof {
                assert(acc * 10 + dig <= u32::MAX) by {
                    assert(acc <= (u32::MAX - dig) / 10);
                    assert(acc * 10 <= ((u32::MAX - dig) / 10) * 10);
                    assert(((u32::MAX - dig) / 10) * 10 <= u32::MAX - dig);
                };
            }
            acc = acc * 10 + dig;
        }
        i += 1;
    }
    proof {
        assert(d.take(n - start) =~= d);
    }
    if over {
        None
    } else {
        Some(acc)
    }
}

// ---------------------------------------------------------------------------
// The part of a token before the first slash
// ---------------------------------------------------------------------------

/// The prefix of `t` that stands before its first slash (all of `t` when it
/// has none).
pub open spec fn spec_before_slash(t: Seq<u8>) -> Seq<u8>
    decreases t.len(),
{
    if t.len() == 0 || t[0] == 47 {
        Seq::empty()
    } else {
        seq![t[0]] + spec_before_slash(t.skip(1))
    }
}

proof fn lemma_before_slash_take(t: Seq<u8>, j: int)
    requires
        0 <= j <= t.len(),
        forall|k: int| 0 <= k < j ==> t[k] != 47,
        j == t.len() || t[j] == 47,
    ensures
        spec_before_slash(t) == t.take(j),
    decreases j,
{
    if j == 0 {
        assert(t.take(0) =~= Seq::<u8>::empty());
    } else {
        assert(t[0] != 47);
        lemma_before_slash_take(t.skip(1), j - 1);
        assert(t.take(j) =~= seq![t[0]] + t.skip(1).take(j - 1));
    }
}

/// Returns the bytes of `t` before its first slash.
pub fn before_slash(t: &Vec<u8>) -> (r: Vec<u8>)
    ensures
        r@ == spec_before_slash(t@),
{
    let n: usize = t.len();
    let mut r: Vec<u8> = Vec::new();
    let mut i: usize = 0;
    while i < n
        invariant
            i <= n,
            n == t@.len(),
            r@ == t@.take(i as int),
            forall|k: int| 0 <= k < i ==> t@[k] != 47,
        decreases n - i,
    {
        let b = t[i];
        if b == 47 {
            proof {
                lemma_before_slash_take(t@, i as int);
            }
            return r;
        }
        r.push(b);
        proof {
            assert(r@ =~= t@.take(i + 1));
        }
        i += 1;
    }
    proof {
        lemma_before_slash_take(t@, n as int);
        assert(t@.take(n as int) =~= t@);
    }
    r
}

// ---------------------------------------------------------------------------
// The shape of floating-point literals
// ---------------------------------------------------------------------------

/// ASCII upper-case letters folded to lower case; every other byte as is.
pub open spec fn lower(b: u8) -> u8 {
    if 65 <= b && b <= 90 {
        (b + 32) as u8
    } else {
        b
    }
}

pub open spec fn is_sign(b: u8) -> bool {
    b == 43 || b == 45
}

/// `t` spells the (lower-case) word `w`, ignoring ASCII case.
pub open spec fn spells(t: Seq<u8>, w: Seq<u8>) -> bool {
    t.len() == w.len() && forall|i: int| 0 <= i < t.len() ==> lower(#[trigger] t[i]) == w[i]
}

pub open spec fn inf_bytes() -> Seq<u8> {
    seq![105u8, 110u8, 102u8]
}

pub open spec fn infinity_bytes() -> Seq<u8> {
    seq![105u8, 110u8, 102u8, 105u8, 110u8, 105u8, 116u8, 121u8]
}

pub open spec fn nan_bytes() -> Seq<u8> {
    seq![110u8, 97u8, 110u8]
}

/// The mantissa of a decimal literal: at least one digit, every byte a
/// digit or a dot, and at most one dot ("12", "1.", ".5", "3.25").
pub open spec fn is_mantissa(m: Seq<u8>) -> bool {
    &&& exists|i: int| 0 <= i < m.len() && is_digit(#[trigger] m[i])
    &&& forall|i: int| 0 <= i < m.len() ==> is_digit(#[trigger] m[i]) || m[i] == 46
    &&& forall|i: int, j: int| 0 <= i < j < m.len() && m[i] == 46 ==> m[j] != 46
}

/// An exponent part: `e` or `E`, an optional sign, one or more digits.
pub open spec fn is_exponent(u: Seq<u8>) -> bool {
    u.len() >= 1 && (u[0] == 101 || u[0] == 69) && {
        let v = if u.len() >= 2 && is_sign(u[1]) {
            u.skip(2)
        } else {
            u.skip(1)
        };
        v.len() > 0 && all_digits(v)
    }
}

/// A decimal float literal without its sign: a mantissa, optionally
/// followed by an exponent part.
pub open spec fn is_decimal_number(t: Seq<u8>) -> bool {
    exists|m: int|
        0 <= m <= t.len() && is_mantissa(#[trigger] t.take(m)) && (m == t.len() || is_exponent(
            t.skip(m),
        ))
}

/// The strings `str::parse::<f32>` accepts: an optional sign, then `inf`,
/// `infinity` or `nan` (ignoring case) or a decimal number. Acceptance is
/// purely syntactic — out-of-range values round to zero or infinity rather
/// than failing — so validity is decidable without reading any float value.
pub open spec fn is_float_text(s: Seq<u8>) -> bool {
    let t = if s.len() > 0 && is_sign(s[0]) {
        s.skip(1)
    } else {
        s
    };
    ||| spells(t, inf_bytes())
    ||| spells(t, infinity_bytes())
    ||| spells(t, nan_bytes())
    ||| is_decimal_number(t)
}

/// Folds one byte to lower case.
pub fn low(b: u8) -> (r: u8)
    ensures
        r == lower(b),
{
    if 65 <= b && b <= 90 {
        b + 32
    } else {
        b
    }
}

/// Does `s`, from position `start` on, spell `w` (ignoring ASCII case)?
fn spells_from(s: &Vec<u8>, start: usize, w: &Vec<u8>) -> (r: bool)
    requires
        start <= s@.len(),
    ensures
        r == spells(s@.skip(start as int), w@),
{
    let n: usize = s.len();
    if n - start != w.len() {
        return false;
    }
    let mut i: usize = 0;
    while i < w.len()
        invariant
            i <= w@.len(),
            start + w@.len() == n,
            n == s@.len(),
            forall|k: int| 0 <= k < i ==> lower(#[trigger] s@.skip(start as int)[k]) == w@[k],
        decreases w@.len() - i,
    {
        if low(s[start + i]) != w[i] {
            proof {
                assert(s@.skip(start as int)[i as int] == s@[start + i]);
            }
            return false;
        }
        proof {
            assert(s@.skip(start as int)[i as int] == s@[start + i]);
        }
        i += 1;
    }
    true
}

/// Is `s[from..to]` a mantissa?
fn check_mantissa(s: &Vec<u8>, from: usize, to: usize) -> (r: bool)
    requires
        from <= to <= s@.len(),
    ensures
        r == is_mantissa(s@.subrange(from as int, to as int)),
{
    let ghost m = s@.subrange(from as int, to as int);
    let mut has_digit: bool = false;
    let mut dot_seen: bool = false;
    let mut ok: bool = true;
    let mut i: usize = from;
    while i < to
        invariant
            from <= i <= to <= s@.len(),
            m == s@.subrange(from as int, to as int),
            has_digit <==> exists|k: int| 0 <= k < i - from && is_digit(#[trigger] m[k]),
            dot_seen <==> exists|k: int| 0 <= k < i - from && #[trigger] m[k] == 46,
            ok <==> (forall|k: int| 0 <= k < i - from ==> is_digit(#[trigger] m[k]) || m[k] == 46)
                && (forall|k: int, l: int|
                0 <= k < l < i - from && m[k] == 46 ==> m[l] != 46),
        decreases to - i,
    {
        let b = s[i];
        proof {
            assert(m[i - from] == s@[i as int]);
        }
        if 48 <= b && b <= 57 {
            has_digit = true;
        } else if b == 46 {
            if dot_seen {
                ok = false;
            }
            dot_seen = true;
        } else {
            ok = false;
        }
        i += 1;
    }
    has_digit && ok
}

/// Is `s[from..]` an exponent part?
#[verifier::loop_isolation(false)]
fn check_exponent(s: &Vec<u8>, from: usize) -> (r: bool)
    requires
        from <= s@.len(),
    ensures
        r == is_exponent(s@.skip(from as int)),
{
    let ghost u = s@.skip(from as int);
    let n: usize = s.len();
    if from == n {
        return false;
    }
    let e = s[from];
    if !(e == 101 || e == 69) {
        proof {
            assert(u[0] == s@[from as int]);
        }
        return false;
    }
    let q: usize = if from + 1 < n && (s[from + 1] == 43 || s[from + 1] == 45) {
        from + 2
    } else {
        from + 1
    };
    let ghost v = if u.len() >= 2 && is_sign(u[1]) {
        u.skip(2)
    } else {
        u.skip(1)
    };
    proof {
        assert(u[0] == s@[from as int]);
        if u.len() >= 2 {
            assert(u[1] == s@[from + 1]);
        }
        assert(v =~= s@.skip(q as int));
    }
    if q == n {
        return false;
    }
    let mut i: usize = q;
    while i < n
        invariant
            q <= i <= n,
            n == s@.len(),
            v == s@.skip(q as int),
            forall|k: int| 0 <= k < i - q ==> is_digit(#[trigger] v[k]),
        decreases n - i,
    {
        let b = s[i];
        proof {
            assert(v[i - q] == s@[i as int]);
        }
        if !(48 <= b && b <= 57) {
            return false;
        }
        i += 1;
    }
    true
}

/// Does `s` have the shape of a floating-point literal?
pub fn check_float_text(s: &Vec<u8>) -> (r: bool)
    ensures
        r == is_float_text(s@),
{
    let n: usize = s.len();
    let start: usize = if n > 0 && (s[0] == 43 || s[0] == 45) {
        1
    } else {
        0
    };
    let ghost t = if start == 1 {
        s@.skip(1)
    } else {
        s@
    };
    proof {
        assert(t =~= s@.skip(start as int));
    }
    let w_inf: Vec<u8> = vec![105u8, 110u8, 102u8];
    let w_infinity: Vec<u8> = vec![105u8, 110u8, 102u8, 105u8, 110u8, 105u8, 116u8, 121u8];
    let w_nan: Vec<u8> = vec![110u8, 97u8, 110u8];
    proof {
        assert(w_inf@ =~= inf_bytes());
        assert(w_infinity@ =~= infinity_bytes());
        assert(w_nan@ =~= nan_bytes());
    }
    if spells_from(s, start, &w_inf) || spells_from(s, start, &w_infinity) || spells_from(
        s,
        start,
        &w_nan,
    ) {
        return true;
    }
    // a mantissa holds no `e`, so the only possible split before an
    // exponent part stands at the first `e` or `E`
    let mut p: usize = start;
    while p < n && s[p] != 101 && s[p] != 69
        invariant
            start <= p <= n,
            n == s@.len(),
            forall|k: int| start <= k < p ==> s@[k] != 101 && #[trigger] s@[k] != 69,
        decreases n - p,
    {
        p += 1;
    }
    let mantissa_ok = check_mantissa(s, start, p);
    let exponent_ok = if p == n {
        false
    } else {
        check_exponent(s, p)
    };
    let r = mantissa_ok && (p == n || exponent_ok);
    proof {
        assert(t.take(p - start) =~= s@.subrange(start as int, p as int));
        assert(t.skip(p - start) =~= s@.skip(p as int));
        if r {
            assert(0 <= p - start <= t.len() && is_mantissa(t.take(p - start)) && (p - start
                == t.len() || is_exponent(t.skip(p - start))));
            assert(is_decimal_number(t));
        } else {
            assert forall|m: int|
                !(0 <= m <= t.len() && is_mantissa(#[trigger] t.take(m)) && (m == t.len()
                    || is_exponent(t.skip(m)))) by {
                if 0 <= m <= t.len() && is_mantissa(t.take(m)) && (m == t.len() || is_exponent(
                    t.skip(m),
                )) {
                    // every byte of the mantissa is a digit or a dot, never an `e`
                    assert forall|k: int| 0 <= k < m implies (#[trigger] s@[start + k]) != 101
                        && s@[start + k] != 69 by {
                        assert(t.take(m)[k] == s@[start + k]);
                        assert(is_digit(t.take(m)[k]) || t.take(m)[k] == 46);
                    };
                    if m < t.len() {
                        assert(t.skip(m)[0] == s@[start + m]);
                        assert(s@[start + m] == 101 || s@[start + m] == 69);
                        assert(start + m == p);
                    } else {
                        assert(start + m == n);
                        assert(p == n) by {
                            if p < n {
                                assert(s@[p as int] == 101 || s@[p as int] == 69);
                                assert(s@[start + (p - start)] != 101 && s@[start + (p - start)]
                                    != 69);
                            }
                        };
                    }
                    assert(m == p - start);
                    assert(false);
                }
            };
            assert(!is_decimal_number(t));
            // the word checks above failed, so no form of the grammar fits
        }
    }
    r
}

} // verus!
