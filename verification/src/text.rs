//! Byte-level text helpers: UTF-8 character boundaries, substrings, decimal text.

use vstd::prelude::*;
use vstd::string::StrSliceExecFns;
use vstd::string::{StringExecFns, StringSliceAdditionalSpecFns};
use vstd::utf8::{
    decode_utf8, encode_utf8, is_char_boundary, is_continuation_byte, length_of_first_scalar,
    pop_first_scalar, valid_first_scalar, valid_utf8,
};

verus! {

broadcast use vstd::utf8::group_utf8_lib;

/// Position `i` of `s` starts a character (or is the end of the text).
pub open spec fn bnd(s: Seq<u8>, i: int) -> bool {
    i == s.len() || (0 <= i < s.len() && !is_continuation_byte(s[i]))
}

/// The text of bytes `s[a..b]`, read as UTF-8.
pub open spec fn text_of(s: Seq<u8>, a: int, b: int) -> Seq<char> {
    decode_utf8(s.subrange(a, b))
}

/// Every position of a valid UTF-8 text that is not a continuation byte is a character boundary.
pub proof fn lemma_bnd_is_char_boundary(s: Seq<u8>, i: int)
    requires
        valid_utf8(s),
        bnd(s, i),
    ensures
        is_char_boundary(s, i),
{
    if i == s.len() {
        vstd::utf8::is_char_boundary_start_end_of_seq(s);
    } else {
        vstd::utf8::is_char_boundary_iff_not_is_continuation_byte(s, i);
    }
}

/// After a whole character the next position is a boundary again.
pub proof fn lemma_bnd_after_scalar(s: Seq<u8>, i: int)
    requires
        valid_utf8(s),
        bnd(s, i),
        i < s.len(),
    ensures
        valid_first_scalar(s.subrange(i, s.len() as int)),
        i + length_of_first_scalar(s.subrange(i, s.len() as int)) <= s.len(),
        bnd(s, i + length_of_first_scalar(s.subrange(i, s.len() as int))),
{
    lemma_bnd_is_char_boundary(s, i);
    vstd::utf8::valid_utf8_split(s, i);
    let t = s.subrange(i, s.len() as int);
    assert(valid_utf8(t));
    assert(t.len() > 0);
    assert(valid_first_scalar(t) && valid_utf8(pop_first_scalar(t)));
    let k = length_of_first_scalar(t);
    let rest = pop_first_scalar(t);
    if i + k < s.len() {
        assert(rest.len() > 0);
        assert(valid_first_scalar(rest));
        assert(rest[0] == s[i + k]);
    }
}

/// A byte below 0x80 is a whole character, so the position after it is a boundary.
pub proof fn lemma_bnd_after_ascii(s: Seq<u8>, i: int)
    requires
        valid_utf8(s),
        0 <= i < s.len(),
        s[i] < 0x80,
    ensures
        bnd(s, i + 1),
{
    lemma_bnd_after_scalar(s, i);
    assert(s.subrange(i, s.len() as int)[0] == s[i]);
}

/// Decoding a UTF-8 text gives back the characters it was encoded from.
pub proof fn lemma_decode_bytes_of(x: &str)
    ensures
        decode_utf8(x.spec_bytes()) == x@,
        valid_utf8(x.spec_bytes()),
{
}

/// The text of `src` between two character boundaries.
pub fn slice_text(src: &str, a: usize, b: usize) -> (r: String)
    requires
        a <= b <= src.spec_bytes().len(),
        bnd(src.spec_bytes(), a as int),
        bnd(src.spec_bytes(), b as int),
    ensures
        r@ == text_of(src.spec_bytes(), a as int, b as int),
        valid_utf8(src.spec_bytes().subrange(a as int, b as int)),
{
    let ghost s = src.spec_bytes();
    proof {
        lemma_bnd_is_char_boundary(s, a as int);
        vstd::utf8::valid_utf8_split(s, a as int);
    }
    let (_, tail) = src.split_at(a);
    let ghost t = tail.spec_bytes();
    proof {
        assert(t == s.subrange(a as int, s.len() as int));
        assert(bnd(t, (b - a) as int)) by {
            if (b as int) < s.len() {
                assert(t[(b - a) as int] == s[b as int]);
            }
        }
        lemma_bnd_is_char_boundary(t, (b - a) as int);
    }
    let (mid, _) = tail.split_at(b - a);
    proof {
        assert(mid.spec_bytes() =~= s.subrange(a as int, b as int));
        lemma_decode_bytes_of(mid);
    }
    mid.to_owned()
}

/// Text equality of two string slices.
pub fn str_eq(x: &str, y: &str) -> (r: bool)
    ensures
        r == (x@ == y@),
{
    let a = x.as_bytes();
    let b = y.as_bytes();
    if a.len() != b.len() {
        proof {
            if x@ == y@ {
                assert(x.spec_bytes() == y.spec_bytes());
            }
        }
        return false;
    }
    let mut i: usize = 0;
    while i < a.len()
        invariant
            a.len() == b.len(),
            a@ == x.spec_bytes(),
            b@ == y.spec_bytes(),
            i <= a.len(),
            forall|j: int| 0 <= j < i ==> a@[j] == b@[j],
        decreases a.len() - i,
    {
        if a[i] != b[i] {
            proof {
                if x@ == y@ {
                    assert(x.spec_bytes() == y.spec_bytes());
                }
            }
            return false;
        }
        i = i + 1;
    }
    proof {
        assert(a@ =~= b@);
        lemma_decode_bytes_of(x);
        lemma_decode_bytes_of(y);
    }
    true
}

/// Text equality of an owned string with a string slice.
pub fn string_is(x: &String, y: &str) -> (r: bool)
    ensures
        r == (x@ == y@),
{
    str_eq(x.as_str(), y)
}

/// A copy of a string slice as an owned string.
pub fn owned(x: &str) -> (r: String)
    ensures
        r@ == x@,
{
    x.to_owned()
}

/// Concatenation of owned text with a slice.
pub fn join2(x: String, y: &str) -> (r: String)
    ensures
        r@ == x@ + y@,
{
    let mut r = x;
    r.append(y);
    r
}

/// Decimal digits of a natural number, most significant first.
pub open spec fn decimal(n: nat) -> Seq<char>
    decreases n,
{
    if n < 10 {
        seq![digit_char(n)]
    } else {
        decimal(n / 10) + seq![digit_char(n % 10)]
    }
}

pub open spec fn digit_char(d: nat) -> char {
    if d == 0 { '0' }
    else if d == 1 { '1' }
    else if d == 2 { '2' }
    else if d == 3 { '3' }
    else if d == 4 { '4' }
    else if d == 5 { '5' }
    else if d == 6 { '6' }
    else if d == 7 { '7' }
    else if d == 8 { '8' }
    else { '9' }
}

fn digit_str(d: usize) -> (r: &'static str)
    requires
        d < 10,
    ensures
        r@ == seq![digit_char(d as nat)],
{
    proof {
        reveal_strlit("0");
        reveal_strlit("1");
        reveal_strlit("2");
        reveal_strlit("3");
        reveal_strlit("4");
        reveal_strlit("5");
        reveal_strlit("6");
        reveal_strlit("7");
        reveal_strlit("8");
        reveal_strlit("9");
    }
    if d == 0 { "0" }
    else if d == 1 { "1" }
    else if d == 2 { "2" }
    else if d == 3 { "3" }
    else if d == 4 { "4" }
    else if d == 5 { "5" }
    else if d == 6 { "6" }
    else if d == 7 { "7" }
    else if d == 8 { "8" }
    else { "9" }
}

/// Decimal text of a count, as `usize`'s `Display` writes it.
pub fn decimal_text(n: usize) -> (r: String)
    ensures
        r@ == decimal(n as nat),
    decreases n,
{
    if n < 10 {
        owned(digit_str(n))
    } else {
        let head = decimal_text(n / 10);
        join2(head, digit_str(n % 10))
    }
}

/// The characters of a string slice.
pub fn chars_of(s: &str) -> (r: Vec<char>)
    ensures
        r@ == s@,
{
    let n = s.unicode_len();
    let mut out: Vec<char> = Vec::new();
    let mut i: usize = 0;
    while i < n
        invariant
            n == s@.len(),
            i <= n,
            out@ == s@.subrange(0, i as int),
        decreases n - i,
    {
        let c = s.get_char(i);
        out.push(c);
        i = i + 1;
        proof {
            assert(out@ =~= s@.subrange(0, i as int));
        }
    }
    proof {
        assert(out@ =~= s@);
    }
    out
}

/// The owned text of characters `a..b` of `s`.
pub fn sub_text(s: &str, a: usize, b: usize) -> (r: String)
    requires
        a <= b <= s@.len(),
    ensures
        r@ == s@.subrange(a as int, b as int),
{
    s.substring_char(a, b).to_owned()
}

/// Does `s` hold the characters of `lit` starting at character `i`?
pub fn text_at(s: &Vec<char>, i: usize, lit: &str) -> (r: bool)
    ensures
        r == (i + lit@.len() <= s@.len() && s@.subrange(i as int, i + lit@.len()) == lit@),
{
    let l = chars_of(lit);
    if i > s.len() || l.len() > s.len() - i {
        return false;
    }
    let mut j: usize = 0;
    while j < l.len()
        invariant
            l@ == lit@,
            i + l@.len() <= s@.len(),
            s@.len() == s.len(),
            j <= l@.len(),
            forall|k: int| 0 <= k < j ==> s@[i + k] == l@[k],
        decreases l.len() - j,
    {
        if s[i + j] != l[j] {
            proof {
                assert(s@.subrange(i as int, i + lit@.len())[j as int] == s@[i + j]);
            }
            return false;
        }
        j = j + 1;
    }
    proof {
        assert(s@.subrange(i as int, i + lit@.len()) =~= lit@);
    }
    true
}

/// Concatenation of three texts.
pub fn cat3(a: &str, b: &str, c: &str) -> (r: String)
    ensures
        r@ == a@ + b@ + c@,
{
    join2(join2(owned(a), b), c)
}

} // verus!
