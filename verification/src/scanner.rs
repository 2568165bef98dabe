//! Byte-level scanner primitives for BSOL source text.
//!
//! Every position is a byte offset into the UTF-8 source.  Each primitive is specified by a
//! spec function over the source bytes; the executable version computes exactly that.

use vstd::prelude::*;
use vstd::string::StringSliceAdditionalSpecFns;
use vstd::utf8::valid_utf8;

use crate::ast::{BsolSpan, SRef};
use crate::error::SError;
use crate::text::{bnd, lemma_bnd_after_ascii, lemma_bnd_after_scalar, slice_text, text_of};

verus! {

broadcast use vstd::utf8::group_utf8_lib;

pub const QUOTE: u8 = 0x22;
pub const HASH: u8 = 0x23;
pub const LPAREN: u8 = 0x28;
pub const RPAREN: u8 = 0x29;
pub const COMMA: u8 = 0x2c;
pub const SLASH: u8 = 0x2f;
pub const EQUALS: u8 = 0x3d;
pub const AT: u8 = 0x40;
pub const LBRACKET: u8 = 0x5b;
pub const RBRACKET: u8 = 0x5d;
pub const LBRACE: u8 = 0x7b;
pub const RBRACE: u8 = 0x7d;
pub const NEWLINE: u8 = 0x0a;
pub const SPACE: u8 = 0x20;
pub const TAB: u8 = 0x09;

/// Source text together with its UTF-8 bytes.
pub struct Source<'a> {
    pub text: &'a str,
    pub bytes: &'a [u8],
}

impl<'a> Source<'a> {
    pub open spec fn b(&self) -> Seq<u8> {
        self.bytes@
    }

    pub open spec fn wf(&self) -> bool {
        self.bytes@ == self.text.spec_bytes()
    }

    pub fn new(text: &'a str) -> (r: Source<'a>)
        ensures
            r.wf(),
            r.text == text,
            r.b() == text.spec_bytes(),
            valid_utf8(r.b()),
    {
        Source { text, bytes: text.as_bytes() }
    }

    /// Text between two character boundaries.
    pub fn text_between(&self, a: usize, b: usize) -> (r: String)
        requires
            self.wf(),
            a <= b <= self.b().len(),
            bnd(self.b(), a as int),
            bnd(self.b(), b as int),
        ensures
            r@ == text_of(self.b(), a as int, b as int),
    {
        slice_text(self.text, a, b)
    }
}

// ---------------------------------------------------------------------------
// Character classes
// ---------------------------------------------------------------------------

pub open spec fn is_alpha(b: u8) -> bool {
    (0x41 <= b <= 0x5a) || (0x61 <= b <= 0x7a)
}

pub open spec fn is_digit(b: u8) -> bool {
    0x30 <= b <= 0x39
}

pub open spec fn is_ident_start(b: u8) -> bool {
    is_alpha(b) || b == 0x5f
}

pub open spec fn is_ident_char(b: u8) -> bool {
    is_alpha(b) || is_digit(b) || b == 0x5f
}

pub fn ident_start_byte(b: u8) -> (r: bool)
    ensures
        r == is_ident_start(b),
{
    (0x41 <= b && b <= 0x5a) || (0x61 <= b && b <= 0x7a) || b == 0x5f
}

pub fn ident_byte(b: u8) -> (r: bool)
    ensures
        r == is_ident_char(b),
{
    (0x41 <= b && b <= 0x5a) || (0x61 <= b && b <= 0x7a) || (0x30 <= b && b <= 0x39) || b == 0x5f
}

/// Byte width of a Unicode white-space character (the `White_Space` property) encoded at `i`,
/// or 0 when no such character starts there.
pub open spec fn ws_width(s: Seq<u8>, i: int) -> int {
    if i < 0 || i >= s.len() {
        0
    } else if s[i] == 0x09 || s[i] == 0x0a || s[i] == 0x0b || s[i] == 0x0c || s[i] == 0x0d
        || s[i] == 0x20 {
        1
    } else if i + 1 < s.len() && s[i] == 0xc2 && (s[i + 1] == 0x85 || s[i + 1] == 0xa0) {
        2
    } else if i + 2 < s.len() && ((s[i] == 0xe1 && s[i + 1] == 0x9a && s[i + 2] == 0x80) || (
    s[i] == 0xe2 && s[i + 1] == 0x80 && ((0x80 <= s[i + 2] <= 0x8a) || s[i + 2] == 0xa8
        || s[i + 2] == 0xa9 || s[i + 2] == 0xaf)) || (s[i] == 0xe2 && s[i + 1] == 0x81 && s[i
        + 2] == 0x9f) || (s[i] == 0xe3 && s[i + 1] == 0x80 && s[i + 2] == 0x80)) {
        3
    } else {
        0
    }
}

fn ws_width_at(s: &[u8], i: usize) -> (r: usize)
    requires
        i < s@.len(),
    ensures
        r == ws_width(s@, i as int),
{
    let b = s[i];
    if b == 0x09 || b == 0x0a || b == 0x0b || b == 0x0c || b == 0x0d || b == 0x20 {
        1
    } else if i + 1 < s.len() && b == 0xc2 && (s[i + 1] == 0x85 || s[i + 1] == 0xa0) {
        2
    } else if s.len() - i > 2 && ((b == 0xe1 && s[i + 1] == 0x9a && s[i + 2] == 0x80) || (b
        == 0xe2 && s[i + 1] == 0x80 && ((0x80 <= s[i + 2] && s[i + 2] <= 0x8a) || s[i + 2]
        == 0xa8 || s[i + 2] == 0xa9 || s[i + 2] == 0xaf)) || (b == 0xe2 && s[i + 1] == 0x81
        && s[i + 2] == 0x9f) || (b == 0xe3 && s[i + 1] == 0x80 && s[i + 2] == 0x80)) {
        3
    } else {
        0
    }
}

proof fn lemma_ws_width_bnd(s: Seq<u8>, i: int)
    requires
        valid_utf8(s),
        bnd(s, i),
        ws_width(s, i) > 0,
    ensures
        bnd(s, i + ws_width(s, i)),
        i + ws_width(s, i) <= s.len(),
{
    if ws_width(s, i) == 1 {
        lemma_bnd_after_ascii(s, i);
    } else {
        lemma_bnd_after_scalar(s, i);
        assert(s.subrange(i, s.len() as int)[0] == s[i]);
    }
}

// ---------------------------------------------------------------------------
// Identifiers, white space, comments
// ---------------------------------------------------------------------------

/// End of the run of identifier characters starting at `i`.
pub open spec fn ident_end(s: Seq<u8>, i: int) -> int
    decreases s.len() - i,
{
    if 0 <= i < s.len() && is_ident_char(s[i]) {
        ident_end(s, i + 1)
    } else {
        i
    }
}

/// End of the identifier at `i`, if one starts there.
pub open spec fn read_ident(s: Seq<u8>, i: int) -> Option<int> {
    if 0 <= i < s.len() && is_ident_start(s[i]) {
        Some(ident_end(s, i + 1))
    } else {
        None
    }
}

pub proof fn lemma_ident_end(s: Seq<u8>, i: int)
    requires
        0 <= i <= s.len(),
    ensures
        i <= ident_end(s, i) <= s.len(),
        forall|j: int| i <= j < ident_end(s, i) ==> is_ident_char(#[trigger] s[j]),
    decreases s.len() - i,
{
    if i < s.len() && is_ident_char(s[i]) {
        lemma_ident_end(s, i + 1);
    }
}

fn run_ident_chars(src: &Source, i: usize) -> (r: usize)
    requires
        src.wf(),
        i <= src.b().len(),
        bnd(src.b(), i as int),
    ensures
        r == ident_end(src.b(), i as int),
        bnd(src.b(), r as int),
        i <= r <= src.b().len(),
{
    let s = src.bytes;
    let mut c = i;
    while c < s.len() && ident_byte(s[c])
        invariant
            i <= c <= s@.len(),
            ident_end(s@, c as int) == ident_end(s@, i as int),
            bnd(s@, c as int),
            s@ == src.b(),
            valid_utf8(s@),
        decreases s@.len() - c,
    {
        proof {
            lemma_bnd_after_ascii(s@, c as int);
        }
        c = c + 1;
    }
    c
}

/// The identifier at `i`: its end offset, or `None`.
pub fn scan_ident(src: &Source, i: usize) -> (r: Option<usize>)
    requires
        src.wf(),
        i <= src.b().len(),
        bnd(src.b(), i as int),
    ensures
        same_pos(r, read_ident(src.b(), i as int)),
        r matches Some(e) ==> bnd(src.b(), e as int) && i < e <= src.b().len(),
{
    let s = src.bytes;
    if i < s.len() && ident_start_byte(s[i]) {
        proof {
            lemma_bnd_after_ascii(s@, i as int);
        }
        Some(run_ident_chars(src, i + 1))
    } else {
        None
    }
}

/// An executable position result agrees with a spec position result.
pub open spec fn same_pos(r: Option<usize>, o: Option<int>) -> bool {
    match r {
        Some(e) => o == Some(e as int),
        None => o is None,
    }
}

/// First position `j >= i` holding byte `b`.
pub open spec fn find_byte(s: Seq<u8>, i: int, b: u8) -> Option<int>
    decreases s.len() - i,
{
    if i < 0 || i >= s.len() {
        None
    } else if s[i] == b {
        Some(i)
    } else {
        find_byte(s, i + 1, b)
    }
}

pub proof fn lemma_find_byte(s: Seq<u8>, i: int, b: u8)
    requires
        0 <= i,
    ensures
        find_byte(s, i, b) matches Some(j) ==> i <= j < s.len() && s[j] == b,
        find_byte(s, i, b) is None ==> forall|j: int| i <= j < s.len() ==> s[j] != b,
    decreases s.len() - i,
{
    if i < s.len() && s[i] != b {
        lemma_find_byte(s, i + 1, b);
    }
}

fn scan_find_byte(s: &[u8], i: usize, b: u8) -> (r: Option<usize>)
    requires
        i <= s@.len(),
    ensures
        same_pos(r, find_byte(s@, i as int, b)),
{
    let mut c = i;
    while c < s.len()
        invariant
            i <= c <= s@.len(),
            find_byte(s@, c as int, b) == find_byte(s@, i as int, b),
        decreases s@.len() - c,
    {
        if s[c] == b {
            return Some(c);
        }
        c = c + 1;
    }
    None
}

pub open spec fn starts_comment(s: Seq<u8>, i: int) -> bool {
    0 <= i < s.len() && ((s[i] == SLASH && i + 1 < s.len() && s[i + 1] == SLASH) || s[i] == HASH)
}

/// Position after white space and `//` or `#` line comments starting at `i`.
pub open spec fn skip_ws(s: Seq<u8>, i: int) -> int
    decreases s.len() - i,
{
    if i < 0 || i >= s.len() {
        i
    } else if starts_comment(s, i) {
        match find_byte(s, i, NEWLINE) {
            Some(j) => if i < j + 1 <= s.len() {
                skip_ws(s, j + 1)
            } else {
                i
            },
            None => s.len() as int,
        }
    } else if ws_width(s, i) > 0 {
        skip_ws(s, i + ws_width(s, i))
    } else {
        i
    }
}

pub proof fn lemma_skip_ws(s: Seq<u8>, i: int)
    requires
        0 <= i <= s.len(),
    ensures
        i <= skip_ws(s, i) <= s.len(),
        skip_ws(s, i) < s.len() ==> !starts_comment(s, skip_ws(s, i)) && ws_width(
            s,
            skip_ws(s, i),
        ) == 0,
    decreases s.len() - i,
{
    if i < s.len() {
        if starts_comment(s, i) {
            lemma_find_byte(s, i, NEWLINE);
            if let Some(j) = find_byte(s, i, NEWLINE) {
                lemma_skip_ws(s, j + 1);
            }
        } else if ws_width(s, i) > 0 {
            lemma_skip_ws(s, i + ws_width(s, i));
        }
    }
}

pub fn scan_skip_ws(src: &Source, i: usize) -> (r: usize)
    requires
        src.wf(),
        i <= src.b().len(),
        bnd(src.b(), i as int),
    ensures
        r == skip_ws(src.b(), i as int),
        bnd(src.b(), r as int),
        i <= r <= src.b().len(),
{
    let s = src.bytes;
    let mut c = i;
    while c < s.len()
        invariant
            i <= c <= s@.len(),
            skip_ws(s@, c as int) == skip_ws(s@, i as int),
            bnd(s@, c as int),
            s@ == src.b(),
            valid_utf8(s@),
        decreases s@.len() - c,
    {
        if (s[c] == SLASH && c + 1 < s.len() && s[c + 1] == SLASH) || s[c] == HASH {
            proof {
                lemma_find_byte(s@, c as int, NEWLINE);
            }
            match scan_find_byte(s, c, NEWLINE) {
                Some(j) => {
                    proof {
                        lemma_bnd_after_ascii(s@, j as int);
                    }
                    c = j + 1;
                },
                None => {
                    return s.len();
                },
            }
        } else {
            let w = ws_width_at(s, c);
            if w == 0 {
                return c;
            }
            proof {
                lemma_ws_width_bnd(s@, c as int);
            }
            c = c + w;
        }
    }
    c
}

/// Position after spaces and tabs starting at `i`.
pub open spec fn skip_hws(s: Seq<u8>, i: int) -> int
    decreases s.len() - i,
{
    if 0 <= i < s.len() && (s[i] == SPACE || s[i] == TAB) {
        skip_hws(s, i + 1)
    } else {
        i
    }
}

pub proof fn lemma_skip_hws(s: Seq<u8>, i: int)
    requires
        0 <= i <= s.len(),
    ensures
        i <= skip_hws(s, i) <= s.len(),
    decreases s.len() - i,
{
    if i < s.len() && (s[i] == SPACE || s[i] == TAB) {
        lemma_skip_hws(s, i + 1);
    }
}

pub fn scan_skip_hws(src: &Source, i: usize) -> (r: usize)
    requires
        src.wf(),
        i <= src.b().len(),
        bnd(src.b(), i as int),
    ensures
        r == skip_hws(src.b(), i as int),
        bnd(src.b(), r as int),
        i <= r <= src.b().len(),
{
    let s = src.bytes;
    let mut c = i;
    while c < s.len() && (s[c] == SPACE || s[c] == TAB)
        invariant
            i <= c <= s@.len(),
            skip_hws(s@, c as int) == skip_hws(s@, i as int),
            bnd(s@, c as int),
            s@ == src.b(),
            valid_utf8(s@),
        decreases s@.len() - c,
    {
        proof {
            lemma_bnd_after_ascii(s@, c as int);
        }
        c = c + 1;
    }
    c
}

// ---------------------------------------------------------------------------
// Quoted strings and bracket matching
// ---------------------------------------------------------------------------

/// End (after the closing quote) of the quoted string at `i`.
pub open spec fn read_quoted(s: Seq<u8>, i: int) -> Option<int> {
    if 0 <= i < s.len() && s[i] == QUOTE {
        match find_byte(s, i + 1, QUOTE) {
            Some(j) => Some(j + 1),
            None => None,
        }
    } else {
        None
    }
}

pub fn scan_quoted(src: &Source, i: usize) -> (r: Option<usize>)
    requires
        src.wf(),
        i <= src.b().len(),
        bnd(src.b(), i as int),
    ensures
        same_pos(r, read_quoted(src.b(), i as int)),
        r matches Some(e) ==> i + 2 <= e <= src.b().len() && bnd(src.b(), e as int) && bnd(
            src.b(),
            i + 1,
        ) && bnd(src.b(), e - 1) && src.b()[e - 1] == QUOTE,
{
    let s = src.bytes;
    if i < s.len() && s[i] == QUOTE {
        proof {
            lemma_find_byte(s@, i + 1, QUOTE);
            lemma_bnd_after_ascii(s@, i as int);
        }
        match scan_find_byte(s, i + 1, QUOTE) {
            Some(j) => {
                proof {
                    lemma_bnd_after_ascii(s@, j as int);
                }
                Some(j + 1)
            },
            None => None,
        }
    } else {
        None
    }
}

/// Bracket matching as the scanner does it: `"` toggles string mode, and outside strings
/// `open` / `close` bytes raise / lower the depth; the result is the position after the close
/// byte that brings the depth back to zero.
pub open spec fn match_scan(s: Seq<u8>, i: int, depth: int, in_str: bool, open: u8, close: u8) -> Option<int>
    decreases s.len() - i,
{
    if i < 0 || i >= s.len() {
        None
    } else if s[i] == QUOTE {
        match_scan(s, i + 1, depth, !in_str, open, close)
    } else if s[i] == open && !in_str {
        match_scan(s, i + 1, depth + 1, in_str, open, close)
    } else if s[i] == close && !in_str {
        if depth - 1 == 0 {
            Some(i + 1)
        } else {
            match_scan(s, i + 1, depth - 1, in_str, open, close)
        }
    } else {
        match_scan(s, i + 1, depth, in_str, open, close)
    }
}

pub open spec fn match_close(s: Seq<u8>, i: int, open: u8, close: u8) -> Option<int> {
    match_scan(s, i, 0, false, open, close)
}

pub proof fn lemma_match_scan_pub(s: Seq<u8>, i: int, depth: int, in_str: bool, open: u8, close: u8)
    requires
        0 <= i,
        open != QUOTE,
        close != QUOTE,
    ensures
        match_scan(s, i, depth, in_str, open, close) matches Some(e) ==> i < e <= s.len() && s[e
            - 1] == close,
    decreases s.len() - i,
{
    if 0 <= i < s.len() {
        lemma_match_scan_pub(s, i + 1, depth, !in_str, open, close);
        lemma_match_scan_pub(s, i + 1, depth + 1, in_str, open, close);
        lemma_match_scan_pub(s, i + 1, depth - 1, in_str, open, close);
        lemma_match_scan_pub(s, i + 1, depth, in_str, open, close);
    }
}

pub fn scan_match_close(src: &Source, i: usize, open: u8, close: u8) -> (r: Option<usize>)
    requires
        src.wf(),
        i < src.b().len(),
        src.b()[i as int] == open,
        open < 0x80,
        close < 0x80,
        open != QUOTE,
        close != QUOTE,
        open != close,
    ensures
        same_pos(r, match_close(src.b(), i as int, open, close)),
        r matches Some(e) ==> i < e <= src.b().len() && bnd(src.b(), e as int) && src.b()[e
            - 1] == close,
{
    let s = src.bytes;
    let n = s.len();
    let mut depth: usize = 1;
    let mut in_str = false;
    let mut c = i + 1;
    proof {
        assert(match_scan(s@, i as int, 0, false, open, close) == match_scan(
            s@,
            c as int,
            1,
            false,
            open,
            close,
        ));
    }
    while c < s.len()
        invariant
            i < c <= s@.len(),
            1 <= depth <= c - i,
            match_scan(s@, c as int, depth as int, in_str, open, close) == match_close(
                s@,
                i as int,
                open,
                close,
            ),
            s@ == src.b(),
            valid_utf8(s@),
            close < 0x80,
            open != close,
        decreases s@.len() - c,
    {
        let b = s[c];
        if b == QUOTE {
            in_str = !in_str;
        } else if b == open && !in_str {
            depth = depth + 1;
        } else if b == close && !in_str {
            if depth == 1 {
                proof {
                    lemma_bnd_after_ascii(s@, c as int);
                }
                return Some(c + 1);
            }
            depth = depth - 1;
        }
        c = c + 1;
    }
    None
}

// ---------------------------------------------------------------------------
// Markers and literals
// ---------------------------------------------------------------------------

pub open spec fn schemaless_bytes() -> Seq<u8> {
    seq![0x40u8, 0x73, 0x63, 0x68, 0x65, 0x6d, 0x61, 0x6c, 0x65, 0x73, 0x73]
}

/// `@schemaless` starts at `i` and is not followed by an identifier character.
pub open spec fn is_schemaless_at(s: Seq<u8>, i: int) -> bool {
    &&& 0 <= i
    &&& i + 11 <= s.len()
    &&& s.subrange(i, i + 11) == schemaless_bytes()
    &&& !(i + 11 < s.len() && is_ident_char(s[i + 11]))
}

pub fn bytes_at(s: &[u8], i: usize, lit: &[u8]) -> (r: bool)
    requires
        i <= s@.len(),
    ensures
        r == (i + lit@.len() <= s@.len() && s@.subrange(i as int, i + lit@.len()) == lit@),
{
    let n = s.len();
    if lit.len() > n - i {
        return false;
    }
    let mut k: usize = 0;
    while k < lit.len()
        invariant
            i + lit@.len() <= s@.len(),
            n == s@.len(),
            k <= lit@.len(),
            forall|j: int| 0 <= j < k ==> s@[i + j] == lit@[j],
        decreases lit@.len() - k,
    {
        if s[i + k] != lit[k] {
            proof {
                assert(s@.subrange(i as int, i + lit@.len())[k as int] != lit@[k as int]);
            }
            return false;
        }
        k = k + 1;
    }
    proof {
        assert(s@.subrange(i as int, i + lit@.len()) =~= lit@);
    }
    true
}

pub fn scan_is_schemaless(src: &Source, i: usize) -> (r: bool)
    requires
        src.wf(),
        i <= src.b().len(),
    ensures
        r == is_schemaless_at(src.b(), i as int),
        r ==> bnd(src.b(), i + 11),
{
    let s = src.bytes;
    let n = s.len();
    let lit: [u8; 11] = [0x40u8, 0x73, 0x63, 0x68, 0x65, 0x6d, 0x61, 0x6c, 0x65, 0x73, 0x73];
    let ls = lit.as_slice();
    proof {
        assert(ls@ =~= schemaless_bytes());
    }
    if !bytes_at(s, i, ls) {
        return false;
    }
    if i + 11 < s.len() && ident_byte(s[i + 11]) {
        return false;
    }
    proof {
        assert(s@[i + 10] == s@.subrange(i as int, i + 11)[10]);
        lemma_bnd_after_ascii(s@, i + 10);
    }
    true
}

pub open spec fn true_bytes() -> Seq<u8> {
    seq![0x74u8, 0x72, 0x75, 0x65]
}

pub open spec fn false_bytes() -> Seq<u8> {
    seq![0x66u8, 0x61, 0x6c, 0x73, 0x65]
}

/// A whole-word match of `lit` at `i` (not followed by an identifier character).
pub open spec fn word_at(s: Seq<u8>, i: int, lit: Seq<u8>) -> bool {
    &&& 0 <= i
    &&& i + lit.len() <= s.len()
    &&& s.subrange(i, i + lit.len()) == lit
    &&& !(i + lit.len() < s.len() && is_ident_char(s[i + lit.len()]))
}

/// `true` / `false` at `i`, with the position after it.
pub open spec fn read_bool(s: Seq<u8>, i: int) -> Option<(bool, int)> {
    if word_at(s, i, true_bytes()) {
        Some((true, i + 4))
    } else if word_at(s, i, false_bytes()) {
        Some((false, i + 5))
    } else {
        None
    }
}

fn scan_word(src: &Source, i: usize, lit: &[u8]) -> (r: bool)
    requires
        src.wf(),
        i <= src.b().len(),
        lit@.len() > 0,
        forall|j: int| 0 <= j < lit@.len() ==> lit@[j] < 0x80,
    ensures
        r == word_at(src.b(), i as int, lit@),
        r ==> bnd(src.b(), i + lit@.len()),
{
    let s = src.bytes;
    let n = s.len();
    if !bytes_at(s, i, lit) {
        return false;
    }
    let e = i + lit.len();
    if e < s.len() && ident_byte(s[e]) {
        return false;
    }
    proof {
        assert(s@[e - 1] == s@.subrange(i as int, e as int)[lit@.len() - 1]);
        lemma_bnd_after_ascii(s@, e - 1);
    }
    true
}

pub fn scan_bool(src: &Source, i: usize) -> (r: Option<(bool, usize)>)
    requires
        src.wf(),
        i <= src.b().len(),
    ensures
        match r {
            Some((b, e)) => read_bool(src.b(), i as int) == Some((b, e as int)),
            None => read_bool(src.b(), i as int) is None,
        },
        r matches Some((_, e)) ==> bnd(src.b(), e as int) && i < e <= src.b().len(),
{
    let n = src.bytes.len();
    let t: [u8; 4] = [0x74u8, 0x72, 0x75, 0x65];
    let f: [u8; 5] = [0x66u8, 0x61, 0x6c, 0x73, 0x65];
    let ts = t.as_slice();
    let fs = f.as_slice();
    proof {
        assert(ts@ =~= true_bytes());
        assert(fs@ =~= false_bytes());
    }
    if scan_word(src, i, ts) {
        Some((true, i + 4))
    } else if scan_word(src, i, fs) {
        Some((false, i + 5))
    } else {
        None
    }
}

/// End of the run of ASCII digits starting at `i`.
pub open spec fn digits_end(s: Seq<u8>, i: int) -> int
    decreases s.len() - i,
{
    if 0 <= i < s.len() && is_digit(s[i]) {
        digits_end(s, i + 1)
    } else {
        i
    }
}

/// A bare token: a run of digits or an identifier.
pub open spec fn read_bare(s: Seq<u8>, i: int) -> Option<int> {
    if 0 <= i < s.len() && is_digit(s[i]) {
        Some(digits_end(s, i))
    } else {
        read_ident(s, i)
    }
}

pub fn scan_bare(src: &Source, i: usize) -> (r: Option<usize>)
    requires
        src.wf(),
        i <= src.b().len(),
        bnd(src.b(), i as int),
    ensures
        same_pos(r, read_bare(src.b(), i as int)),
        r matches Some(e) ==> bnd(src.b(), e as int) && i < e <= src.b().len(),
{
    let s = src.bytes;
    if i < s.len() && 0x30 <= s[i] && s[i] <= 0x39 {
        let mut c = i;
        while c < s.len() && 0x30 <= s[c] && s[c] <= 0x39
            invariant
                i <= c <= s@.len(),
                c > i ==> is_digit(s@[i as int]),
                digits_end(s@, c as int) == digits_end(s@, i as int),
                bnd(s@, c as int),
                s@ == src.b(),
                valid_utf8(s@),
            decreases s@.len() - c,
        {
            proof {
                lemma_bnd_after_ascii(s@, c as int);
            }
            c = c + 1;
        }
        Some(c)
    } else {
        scan_ident(src, i)
    }
}

// ---------------------------------------------------------------------------
// Spans
// ---------------------------------------------------------------------------

/// Number of newline bytes in `s[0..n]`.
pub open spec fn count_nl(s: Seq<u8>, n: int) -> nat
    decreases n,
{
    if n <= 0 {
        0
    } else if s[n - 1] == NEWLINE {
        count_nl(s, n - 1) + 1
    } else {
        count_nl(s, n - 1)
    }
}

/// 1-based line of byte offset `n`: the number of line breaks before it, plus one.
pub open spec fn line_of(s: Seq<u8>, n: int) -> int {
    count_nl(s, n) as int + 1
}

pub fn line_at(src: &Source, n: usize) -> (r: usize)
    requires
        n <= src.b().len(),
    ensures
        r == line_of(src.b(), n as int) as usize,
{
    let s = src.bytes;
    let len = s.len();
    let mut count: usize = 0;
    let mut k: usize = 0;
    while k < n
        invariant
            k <= n <= s@.len(),
            len == s@.len(),
            count == count_nl(s@, k as int),
            count <= k,
        decreases n - k,
    {
        if s[k] == NEWLINE {
            count = count + 1;
        }
        k = k + 1;
    }
    let wide: u128 = (count as u128) + 1;
    wide as usize
}

pub open spec fn min(a: int, b: int) -> int {
    if a < b {
        a
    } else {
        b
    }
}

pub open spec fn max(a: int, b: int) -> int {
    if a < b {
        b
    } else {
        a
    }
}

/// Span of `[a, b)`, clamped to the source as the parser does it: the end is at least one byte
/// past the start when the source allows, and falls back to one character when it does not end
/// on a character boundary.
pub open spec fn span_at(s: Seq<u8>, a: int, b: int) -> BsolSpan {
    let st = min(a, s.len() as int);
    let en0 = min(max(b, st + 1), s.len() as int);
    let en = if bnd(s, en0) {
        en0
    } else {
        min(st + 1, s.len() as int)
    };
    BsolSpan { start: st as usize, end: en as usize, line: line_of(s, st) as usize }
}

/// The span can be formed: both of its ends fall on character boundaries.
pub open spec fn span_ok(s: Seq<u8>, a: int, b: int) -> bool {
    let st = min(a, s.len() as int);
    let en0 = min(max(b, st + 1), s.len() as int);
    &&& 0 <= a
    &&& bnd(s, st)
    &&& (bnd(s, en0) || bnd(s, min(st + 1, s.len() as int)))
}

pub fn span_of(src: &Source, a: usize, b: usize) -> (r: BsolSpan)
    requires
        src.wf(),
        span_ok(src.b(), a as int, b as int),
    ensures
        r == span_at(src.b(), a as int, b as int),
{
    let len = src.bytes.len();
    let st = if a < len {
        a
    } else {
        len
    };
    let lo = if b > st {
        b
    } else if st < len {
        st + 1
    } else {
        len
    };
    let en0 = if lo < len {
        lo
    } else {
        len
    };
    proof {
        assert(en0 == min(max(b as int, st + 1), len as int));
    }
    let en = if en0 == len || (src.bytes[en0] & 0xc0u8) != 0x80u8 {
        en0
    } else if st < len {
        st + 1
    } else {
        len
    };
    proof {
        if en0 < len {
            let byte = src.bytes@[en0 as int];
            assert((byte & 0xc0u8) == 0x80u8 <==> (0x80 <= byte <= 0xbf)) by (bit_vector);
        }
    }
    BsolSpan { start: st, end: en, line: line_at(src, st) }
}

/// A parse error at byte `p`, covering at most one byte.
pub open spec fn error_at(s: Seq<u8>, p: int, message: Seq<char>) -> SError {
    SError::ParseAt {
        line: line_of(s, p) as usize,
        message,
        start: Some(p as usize),
        end: Some((if p < s.len() {
            p + 1
        } else {
            p
        }) as usize),
    }
}

/// Skipping space twice skips no more than once.
pub proof fn lemma_skip_ws_idem(s: Seq<u8>, i: int)
    requires
        0 <= i <= s.len(),
    ensures
        skip_ws(s, skip_ws(s, i)) == skip_ws(s, i),
{
    lemma_skip_ws(s, i);
}

/// A span between two character boundaries can be formed.
pub proof fn lemma_span_ok(s: Seq<u8>, a: int, b: int)
    requires
        0 <= a < b <= s.len(),
        bnd(s, a),
        bnd(s, b),
    ensures
        span_ok(s, a, b),
{
}

/// The parse error at `p` with the given message.
pub fn err_at(src: &Source, p: usize, message: String) -> (r: crate::error::BsolError)
    requires
        p <= src.b().len(),
    ensures
        r@ == error_at(src.b(), p as int, message@),
{
    let end = if p < src.bytes.len() {
        p + 1
    } else {
        p
    };
    crate::error::BsolError::ParseAt {
        line: line_at(src, p),
        message,
        start: Some(p),
        end: Some(end),
    }
}

} // verus!
