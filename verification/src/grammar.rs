//! The BSOL grammar as spec functions over source bytes.
//!
//! Blocks, items and attributes are scanned as the block scanner does it; assignment values
//! are read by the value grammar (`value_at`), which accepts quoted strings, booleans, bracket
//! lists (with inline blocks and maps), inline maps, references, type expressions and bare
//! tokens.

use vstd::prelude::*;

use crate::ast::{SAssign, SAttr, SArg, SBlock, SEntry, SItem, SList, SListItem, SMap, SQuoted, SRef, SValue};
use crate::error::{parse_err, SError};
use crate::scanner::{
    digits_end, error_at, is_digit, is_schemaless_at, lemma_find_byte, lemma_ident_end,
    lemma_match_scan_pub, lemma_skip_hws, lemma_skip_ws, match_close, max, min, read_bare,
    read_bool, read_ident, read_quoted, skip_hws, skip_ws, span_at, span_ok, AT, COMMA, EQUALS,
    LBRACE, LBRACKET, LPAREN, QUOTE, RBRACE, RBRACKET, RPAREN, SLASH,
};
use crate::text::text_of;

verus! {

/// Error value of branches that the grammar never reaches (they only bound the recursion).
pub open spec fn unreachable_err() -> SError {
    SError::Parse(Seq::empty())
}

/// A reference literal at `i`: `@kind/label`, `@/label` or `@label`.
pub open spec fn read_ref(s: Seq<u8>, i: int) -> Option<(SRef, int)> {
    if !(0 <= i < s.len() && s[i] == AT) || is_schemaless_at(s, i) {
        None
    } else {
        let c = i + 1;
        let rk = read_ident(s, c);
        let c1 = match rk {
            Some(e) => e,
            None => c,
        };
        let c2 = skip_hws(s, c1);
        if c2 < s.len() && s[c2] == SLASH {
            let c3 = skip_hws(s, c2 + 1);
            match read_ident(s, c3) {
                Some(e) => Some(
                    (
                        SRef {
                            span: span_at(s, i, e),
                            rule_kind: match rk {
                                Some(k) => Some(text_of(s, c, k)),
                                None => None,
                            },
                            label: text_of(s, c3, e),
                        },
                        e,
                    ),
                ),
                None => None,
            }
        } else {
            match rk {
                Some(k) => Some(
                    (SRef { span: span_at(s, i, c2), rule_kind: None, label: text_of(s, c, k) }, c2),
                ),
                None => None,
            }
        }
    }
}

/// A parameterized type expression at `i`: an identifier followed by a balanced `( ... )` or
/// `[ ... ]` group.
pub open spec fn read_type_expr(s: Seq<u8>, i: int) -> Option<int> {
    match read_ident(s, i) {
        None => None,
        Some(e) => {
            let c = skip_hws(s, e);
            if c < s.len() && s[c] == LPAREN {
                match_close(s, c, LPAREN, RPAREN)
            } else if c < s.len() && s[c] == LBRACKET {
                match_close(s, c, LBRACKET, RBRACKET)
            } else {
                None
            }
        },
    }
}

/// End of the assignment value starting at `start`, as the block scanner finds it.
pub open spec fn scan_value_end(s: Seq<u8>, start: int, end: int) -> Result<int, SError> {
    if 0 <= start < s.len() && s[start] == QUOTE {
        match read_quoted(s, start) {
            Some(e) => Ok(e),
            None => Err(parse_err(span_at(s, start, end), "unclosed string in assignment"@)),
        }
    } else if 0 <= start < s.len() && s[start] == LBRACKET {
        match match_close(s, start, LBRACKET, RBRACKET) {
            Some(e) => Ok(e),
            None => Err(parse_err(span_at(s, start, end), "unclosed bracket list"@)),
        }
    } else if 0 <= start < s.len() && s[start] == LBRACE {
        match match_close(s, start, LBRACE, RBRACE) {
            Some(e) => Ok(e),
            None => Err(parse_err(span_at(s, start, end), "unclosed inline map"@)),
        }
    } else if 0 <= start < s.len() && s[start] == AT {
        match read_ref(s, start) {
            Some((_, e)) => Ok(e),
            None => Err(parse_err(span_at(s, start, end), "invalid reference literal"@)),
        }
    } else {
        match read_bool(s, start) {
            Some((_, e)) => Ok(e),
            None => match read_type_expr(s, start) {
                Some(e) => Ok(e),
                None => match read_bare(s, start) {
                    Some(e) => Ok(e),
                    None => Err(parse_err(span_at(s, start, end), "missing assignment value"@)),
                },
            },
        }
    }
}

pub open spec fn default_bytes() -> Seq<u8> {
    seq![0x64u8, 0x65, 0x66, 0x61, 0x75, 0x6c, 0x74]
}

/// A quoted string at `p` ending no later than `hi`.
pub open spec fn quoted_at(s: Seq<u8>, p: int, hi: int) -> Option<(SQuoted, int)> {
    match read_quoted(s, p) {
        Some(e) => if e <= hi {
            Some((SQuoted { span: span_at(s, p, e), value: text_of(s, p + 1, e - 1) }, e))
        } else {
            None
        },
        None => None,
    }
}

/// Optional quoted label of an inline block at `t`, and the position after it.
pub open spec fn inline_label(s: Seq<u8>, t: int) -> Result<(Option<SQuoted>, int), SError> {
    if 0 <= t < s.len() && s[t] == QUOTE {
        match read_quoted(s, t) {
            Some(le) => Ok(
                (
                    Some(SQuoted { span: span_at(s, t, le), value: text_of(s, t + 1, le - 1) }),
                    skip_ws(s, le),
                ),
            ),
            None => Err(error_at(s, t, "unclosed string"@)),
        }
    } else {
        Ok((None, t))
    }
}

/// Optional quoted label of a block at `c`, and the position after it and following space.
pub open spec fn block_label(s: Seq<u8>, c: int) -> Result<(Option<SQuoted>, int), SError> {
    if 0 <= c < s.len() && s[c] == QUOTE {
        match read_quoted(s, c) {
            Some(le) => {
                let c3 = skip_ws(s, le);
                Ok((Some(SQuoted { span: span_at(s, c, c3), value: text_of(s, c + 1, le - 1) }), c3))
            },
            None => Err(
                parse_err(span_at(s, c, max(s.len() as int, c + 1)), "expected quoted block label"@),
            ),
        }
    } else {
        Ok((None, c))
    }
}

/// Facts about the scanner primitives that bound the recursion of the grammar.
pub proof fn lemma_prims(s: Seq<u8>, i: int)
    requires
        0 <= i <= s.len(),
    ensures
        i <= skip_ws(s, i) <= s.len(),
        i <= skip_hws(s, i) <= s.len(),
        read_ident(s, i) matches Some(e) ==> i < e <= s.len(),
        read_quoted(s, i) matches Some(e) ==> i + 2 <= e <= s.len(),
        read_bool(s, i) matches Some((_, e)) ==> i < e <= s.len(),
        read_bare(s, i) matches Some(e) ==> i < e <= s.len(),
        read_ref(s, i) matches Some((_, e)) ==> i < e <= s.len(),
        read_type_expr(s, i) matches Some(e) ==> i < e <= s.len(),
        forall|end: int|
            #![trigger scan_value_end(s, i, end)]
            scan_value_end(s, i, end) is Ok ==> i < scan_value_end(s, i, end)->Ok_0 <= s.len(),
        i < s.len() && s[i] == LBRACKET ==> (match_close(s, i, LBRACKET, RBRACKET) matches Some(e)
            ==> i < e <= s.len()),
        i < s.len() && s[i] == LBRACE ==> (match_close(s, i, LBRACE, RBRACE) matches Some(e) ==> i
            + 2 <= e <= s.len()),
        digits_end(s, i) >= i,
        digits_end(s, i) <= s.len(),
{
    lemma_skip_ws(s, i);
    lemma_skip_hws(s, i);
    lemma_ident_end(s, i);
    if i + 1 <= s.len() {
        lemma_ident_end(s, i + 1);
        lemma_find_byte(s, i + 1, QUOTE);
        lemma_skip_hws(s, i + 1);
        lemma_ident_ref(s, i);
    }
    lemma_digits_end(s, i);
    if i < s.len() {
        lemma_digits_end(s, i + 1);
    }
    lemma_match_close_bounds(s, i);
    lemma_type_expr(s, i);
    assert forall|end: int| #[trigger] scan_value_end(s, i, end) is Ok implies i < scan_value_end(
        s,
        i,
        end,
    )->Ok_0 <= s.len() by {
        lemma_match_close_bounds(s, i);
    }
}

proof fn lemma_digits_end(s: Seq<u8>, i: int)
    requires
        0 <= i <= s.len(),
    ensures
        i <= digits_end(s, i) <= s.len(),
    decreases s.len() - i,
{
    if i < s.len() && is_digit(s[i]) {
        lemma_digits_end(s, i + 1);
    }
}

proof fn lemma_match_close_bounds(s: Seq<u8>, i: int)
    requires
        0 <= i <= s.len(),
    ensures
        match_close(s, i, LBRACKET, RBRACKET) matches Some(e) ==> i < e <= s.len(),
        match_close(s, i, LBRACE, RBRACE) matches Some(e) ==> i < e <= s.len() && s[e - 1] == RBRACE,
        match_close(s, i, LPAREN, RPAREN) matches Some(e) ==> i < e <= s.len(),
        i < s.len() && s[i] == LBRACE ==> (match_close(s, i, LBRACE, RBRACE) matches Some(e) ==> i
            + 2 <= e),
{
    lemma_match_scan_pub(s, i, 0, false, LBRACKET, RBRACKET);
    lemma_match_scan_pub(s, i, 0, false, LBRACE, RBRACE);
    lemma_match_scan_pub(s, i, 0, false, LPAREN, RPAREN);
    if i < s.len() && s[i] == LBRACE {
        lemma_match_scan_pub(s, i + 1, 1, false, LBRACE, RBRACE);
    }
}

proof fn lemma_type_expr(s: Seq<u8>, i: int)
    requires
        0 <= i <= s.len(),
    ensures
        read_type_expr(s, i) matches Some(e) ==> i < e <= s.len(),
{
    if let Some(e) = read_ident(s, i) {
        lemma_ident_end(s, i + 1);
        lemma_skip_hws(s, e);
        let c = skip_hws(s, e);
        lemma_match_close_bounds(s, c);
    }
}

proof fn lemma_ident_ref(s: Seq<u8>, i: int)
    requires
        0 <= i < s.len(),
    ensures
        read_ref(s, i) matches Some((_, e)) ==> i < e <= s.len(),
{
    if i + 2 <= s.len() {
        lemma_ident_end(s, i + 2);
    }
    lemma_ident_end(s, i + 1);
    let c = i + 1;
    let c1 = match read_ident(s, c) {
        Some(e) => e,
        None => c,
    };
    lemma_skip_hws(s, c1);
    let c2 = skip_hws(s, c1);
    if c2 < s.len() {
        lemma_skip_hws(s, c2 + 1);
        let c3 = skip_hws(s, c2 + 1);
        if c3 < s.len() {
            lemma_ident_end(s, c3 + 1);
        }
    }
}

// ---------------------------------------------------------------------------
// The recursive part of the grammar.  Each function is measured by the distance of its start
// position from the end of the source, and by a rank for calls at the same position.
// ---------------------------------------------------------------------------

/// Attribute list `[Name(k = v, ...)]` / `@name(k = v, ...)` at `i`, accumulated onto `acc`.
pub open spec fn read_attrs(s: Seq<u8>, i: int, acc: Seq<SAttr>) -> Result<(Seq<SAttr>, int), SError>
    decreases s.len() - i, 2int,
{
    if i < 0 || i > s.len() {
        Err(unreachable_err())
    } else {
        proof {
            lemma_prims(s, i);
        }
        let c = skip_ws(s, i);
        if c < s.len() && s[c] == LBRACKET {
            proof {
                lemma_prims(s, c + 1);
            }
            match read_ident(s, c + 1) {
                None => Err(parse_err(span_at(s, c, c + 1), "expected attribute name inside `[`"@)),
                Some(ne) => {
                    proof {
                        lemma_prims(s, ne);
                    }
                    let c2 = skip_hws(s, ne);
                    let args = if c2 < s.len() && s[c2] == LPAREN {
                        read_args(s, c2 + 1, c, Seq::empty())
                    } else {
                        Ok((Seq::empty(), c2))
                    };
                    match args {
                        Err(e) => Err(e),
                        Ok((args, c3)) => if !(0 <= c3 < s.len() && s[c3] == RBRACKET) {
                            Err(parse_err(span_at(s, c, c3), "expected `]` to close attribute"@))
                        } else if c3 + 1 <= i {
                            Err(unreachable_err())
                        } else {
                            read_attrs(
                                s,
                                c3 + 1,
                                acc.push(
                                    SAttr {
                                        span: span_at(s, c, c3 + 1),
                                        name: text_of(s, c + 1, ne),
                                        args,
                                    },
                                ),
                            )
                        },
                    }
                },
            }
        } else if !(c < s.len() && s[c] == AT) || is_schemaless_at(s, c) {
            Ok((acc, c))
        } else {
            proof {
                lemma_prims(s, c + 1);
            }
            match read_ident(s, c + 1) {
                None => Err(parse_err(span_at(s, c, c + 1), "expected attribute name after `@`"@)),
                Some(ne) => {
                    proof {
                        lemma_prims(s, ne);
                    }
                    let c2 = skip_hws(s, ne);
                    let args = if c2 < s.len() && s[c2] == LPAREN {
                        read_args(s, c2 + 1, c, Seq::empty())
                    } else {
                        Ok((Seq::empty(), c2))
                    };
                    match args {
                        Err(e) => Err(e),
                        Ok((args, c3)) => if c3 <= i || c3 > s.len() {
                            Err(unreachable_err())
                        } else {
                            read_attrs(
                                s,
                                c3,
                                acc.push(
                                    SAttr { span: span_at(s, c, c3), name: text_of(s, c + 1, ne), args },
                                ),
                            )
                        },
                    }
                },
            }
        }
    }
}

/// Attribute arguments `k = v, ...)` starting after `(`; `start` is the attribute's start.
pub open spec fn read_args(s: Seq<u8>, c: int, start: int, acc: Seq<SArg>) -> Result<(Seq<SArg>, int), SError>
    decreases s.len() - c, 1int,
{
    if c < 0 || c > s.len() {
        Err(unreachable_err())
    } else {
        proof {
            lemma_prims(s, c);
        }
        let c0 = skip_hws(s, c);
        if c0 < s.len() && s[c0] == RPAREN {
            Ok((acc, c0 + 1))
        } else {
            proof {
                lemma_prims(s, c0);
            }
            match read_ident(s, c0) {
                None => Err(parse_err(span_at(s, start, c0), "expected attribute argument key"@)),
                Some(ke) => {
                    proof {
                        lemma_prims(s, ke);
                    }
                    let c1 = skip_hws(s, ke);
                    if !(c1 < s.len() && s[c1] == EQUALS) {
                        Err(parse_err(span_at(s, start, c1), "expected `=` in attribute argument"@))
                    } else {
                        proof {
                            lemma_prims(s, c1 + 1);
                        }
                        let c2 = skip_hws(s, c1 + 1);
                        proof {
                            lemma_prims(s, c2);
                        }
                        match scan_value_end(s, c2, s.len() as int) {
                            Err(e) => Err(e),
                            Ok(ve) => match value_at(s, c2, ve) {
                                Err(e) => Err(e),
                                Ok((v, _)) => {
                                    proof {
                                        lemma_prims(s, ve);
                                    }
                                    let c3 = skip_hws(s, ve);
                                    let next = if c3 < s.len() && s[c3] == COMMA {
                                        c3 + 1
                                    } else {
                                        c3
                                    };
                                    read_args(
                                        s,
                                        next,
                                        start,
                                        acc.push(SArg { key: text_of(s, c0, ke), value: v }),
                                    )
                                },
                            },
                        }
                    }
                },
            }
        }
    }
}

/// A value at `p` that ends no later than `hi`.
pub open spec fn value_at(s: Seq<u8>, p: int, hi: int) -> Result<(SValue, int), SError>
    decreases s.len() - p, 1int,
{
    if p < 0 || p > s.len() || hi > s.len() {
        Err(unreachable_err())
    } else if p >= hi {
        Err(error_at(s, p, "expected value"@))
    } else if s[p] == QUOTE {
        match quoted_at(s, p, hi) {
            Some((q, e)) => Ok((SValue::QuotedString(q), e)),
            None => Err(error_at(s, p, "unclosed string"@)),
        }
    } else if s[p] == LBRACKET {
        list_from(s, p + 1, hi, p, Seq::empty())
    } else if s[p] == LBRACE {
        match map_from(s, p + 1, hi, p, Seq::empty()) {
            Ok((m, e)) => Ok((SValue::InlineMap(m), e)),
            Err(e) => Err(e),
        }
    } else if s[p] == AT {
        match read_ref(s, p) {
            Some((r, e)) => if e <= hi {
                Ok((SValue::Ref(r), e))
            } else {
                Err(error_at(s, p, "invalid reference literal"@))
            },
            None => Err(error_at(s, p, "invalid reference literal"@)),
        }
    } else {
        match read_bool(s, p) {
            Some((b, e)) => if e <= hi {
                Ok((SValue::Bool(b), e))
            } else {
                Err(error_at(s, p, "expected value"@))
            },
            None => match read_type_expr(s, p) {
                Some(e) => if e <= hi {
                    Ok((SValue::Ident(text_of(s, p, e)), e))
                } else {
                    Err(error_at(s, p, "expected value"@))
                },
                None => match read_bare(s, p) {
                    Some(e) => if e <= hi {
                        Ok((SValue::Ident(text_of(s, p, e)), e))
                    } else {
                        Err(error_at(s, p, "expected value"@))
                    },
                    None => Err(error_at(s, p, "expected value"@)),
                },
            },
        }
    }
}

/// Items of a bracket list from `q` (after `[` at `lstart`), accumulated onto `acc`.
pub open spec fn list_from(s: Seq<u8>, q: int, hi: int, lstart: int, acc: Seq<SListItem>) -> Result<(SValue, int), SError>
    decreases s.len() - q, 2int,
{
    if q < 0 || q > s.len() || hi > s.len() {
        Err(unreachable_err())
    } else {
        proof {
            lemma_prims(s, q);
        }
        let q1 = skip_ws(s, q);
        if q1 >= hi {
            Err(error_at(s, q1, "unclosed bracket list"@))
        } else if s[q1] == RBRACKET {
            Ok((SValue::BracketList(SList { span: span_at(s, lstart, q1 + 1), items: acc }), q1 + 1))
        } else {
            match list_item_at(s, q1, hi) {
                Err(e) => Err(e),
                Ok((it, e)) => if e <= q1 || e > s.len() {
                    Err(unreachable_err())
                } else {
                    proof {
                        lemma_prims(s, e);
                    }
                    let r = skip_ws(s, e);
                    if r < hi && s[r] == COMMA {
                        list_from(s, r + 1, hi, lstart, acc.push(it))
                    } else if r < hi && s[r] == RBRACKET {
                        Ok(
                            (
                                SValue::BracketList(
                                    SList { span: span_at(s, lstart, r + 1), items: acc.push(it) },
                                ),
                                r + 1,
                            ),
                        )
                    } else {
                        Err(error_at(s, r, "expected `,` or `]` in list"@))
                    }
                },
            }
        }
    }
}

/// One bracket-list element at `q`.
pub open spec fn list_item_at(s: Seq<u8>, q: int, hi: int) -> Result<(SListItem, int), SError>
    decreases s.len() - q, 1int,
{
    if q < 0 || q >= s.len() || hi > s.len() {
        Err(unreachable_err())
    } else if s[q] == QUOTE {
        match quoted_at(s, q, hi) {
            Some((qs, e)) => Ok((SListItem::QuotedString(qs), e)),
            None => Err(error_at(s, q, "unclosed string"@)),
        }
    } else if s[q] == AT {
        match read_ref(s, q) {
            Some((r, e)) => if e <= hi {
                Ok((SListItem::Ref(r), e))
            } else {
                Err(error_at(s, q, "invalid reference literal"@))
            },
            None => Err(error_at(s, q, "invalid reference literal"@)),
        }
    } else if s[q] == LBRACE {
        match map_from(s, q + 1, hi, q, Seq::empty()) {
            Ok((m, e)) => Ok((SListItem::InlineMap(m), e)),
            Err(e) => Err(e),
        }
    } else {
        match read_bool(s, q) {
            Some((b, e)) => if e <= hi {
                Ok((SListItem::Bool(b), e))
            } else {
                Err(error_at(s, q, "unexpected list item"@))
            },
            None => if is_digit(s[q]) {
                let e = digits_end(s, q);
                if e <= hi {
                    Ok((SListItem::Ident(text_of(s, q, e)), e))
                } else {
                    Err(error_at(s, q, "unexpected list item"@))
                }
            } else {
                match read_ident(s, q) {
                    None => Err(error_at(s, q, "unexpected list item"@)),
                    Some(ke) => {
                        proof {
                            lemma_prims(s, q);
                            lemma_prims(s, ke);
                        }
                        let t = skip_ws(s, ke);
                        if t < hi && (s[t] == LBRACE || s[t] == QUOTE) {
                            match inline_label(s, t) {
                                Err(e) => Err(e),
                                Ok((label, t2)) => if !(0 <= t2 < hi && s[t2] == LBRACE) {
                                    Err(error_at(s, t2, "expected `{` in inline block"@))
                                } else {
                                    proof {
                                        lemma_prims(s, t2);
                                    }
                                    match match_close(s, t2, LBRACE, RBRACE) {
                                        None => Err(error_at(s, t2, "unclosed inline block body"@)),
                                        Some(close) => if close > hi || t2 <= q {
                                            Err(error_at(s, t2, "unclosed inline block body"@))
                                        } else {
                                            match items_from(s, t2 + 1, close - 1, Seq::empty()) {
                                                Err(e) => Err(e),
                                                Ok(items) => Ok(
                                                    (
                                                        SListItem::InlineBlock(
                                                            SBlock {
                                                                span: span_at(s, q, close),
                                                                attrs: Seq::empty(),
                                                                kind: text_of(s, q, ke),
                                                                label,
                                                                schemaless_body: None,
                                                                items,
                                                            },
                                                        ),
                                                        close,
                                                    ),
                                                ),
                                            }
                                        },
                                    }
                                },
                            }
                        } else if ke > hi {
                            Err(error_at(s, q, "unexpected list item"@))
                        } else if s.subrange(q, ke) == default_bytes() {
                            Ok((SListItem::Default, ke))
                        } else {
                            Ok((SListItem::Ident(text_of(s, q, ke)), ke))
                        }
                    },
                }
            }
        }
    }
}

/// Entries of an inline map from `q` (after `{` at `mstart`), accumulated onto `acc`.
pub open spec fn map_from(s: Seq<u8>, q: int, hi: int, mstart: int, acc: Seq<SEntry>) -> Result<(SMap, int), SError>
    decreases s.len() - q, 1int,
{
    if q < 0 || q > s.len() || hi > s.len() {
        Err(unreachable_err())
    } else {
        proof {
            lemma_prims(s, q);
        }
        let q1 = skip_ws(s, q);
        if q1 >= hi {
            Err(error_at(s, q1, "unclosed inline map"@))
        } else if s[q1] == RBRACE {
            Ok((SMap { span: span_at(s, mstart, q1 + 1), entries: acc }, q1 + 1))
        } else {
            proof {
                lemma_prims(s, q1);
            }
            match read_ident(s, q1) {
                None => Err(error_at(s, q1, "expected map key"@)),
                Some(ke) => {
                    proof {
                        lemma_prims(s, ke);
                    }
                    let c = skip_ws(s, ke);
                    if !(c < hi && s[c] == EQUALS) {
                        Err(error_at(s, c, "expected `=` in inline map entry"@))
                    } else {
                        proof {
                            lemma_prims(s, c + 1);
                        }
                        let v0 = skip_ws(s, c + 1);
                        match value_at(s, v0, hi) {
                            Err(e) => Err(e),
                            Ok((v, ve)) => if ve <= q1 || ve > s.len() {
                                Err(unreachable_err())
                            } else {
                                proof {
                                    lemma_prims(s, ve);
                                }
                                let ent = SEntry { span: span_at(s, q1, ve), key: text_of(s, q1, ke), value: v };
                                let r = skip_ws(s, ve);
                                if r < hi && s[r] == COMMA {
                                    map_from(s, r + 1, hi, mstart, acc.push(ent))
                                } else if r < hi && s[r] == RBRACE {
                                    Ok((SMap { span: span_at(s, mstart, r + 1), entries: acc.push(ent) }, r + 1))
                                } else {
                                    Err(error_at(s, r, "expected `,` or `}` in inline map"@))
                                }
                            },
                        }
                    }
                },
            }
        }
    }
}

/// End of the assignment that starts at `start` inside a body ending at `end`.
#[verifier::opaque]
pub open spec fn assignment_end(s: Seq<u8>, start: int, end: int) -> Result<int, SError>
    decreases s.len() - start, 3int,
{
    if start < 0 || start > s.len() {
        Err(unreachable_err())
    } else {
        match read_attrs(s, start, Seq::empty()) {
            Err(e) => Err(e),
            Ok((_, c)) => if c < 0 || c > s.len() {
                Err(unreachable_err())
            } else {
                let c1 = skip_hws(s, c);
                match read_ident(s, c1) {
                    None => Err(parse_err(span_at(s, start, max(end, start + 1)), "expected assignment key"@)),
                    Some(ke) => {
                        let c2 = skip_hws(s, ke);
                        if !(c2 < s.len() && s[c2] == EQUALS) {
                            Err(parse_err(span_at(s, start, max(end, start + 1)), "expected `=` in assignment"@))
                        } else {
                            let c3 = skip_hws(s, c2 + 1);
                            if c3 >= end {
                                Err(parse_err(span_at(s, start, end), "missing assignment value"@))
                            } else {
                                match scan_value_end(s, c3, end) {
                                    Err(e) => Err(e),
                                    Ok(e) => Ok(min(e, end)),
                                }
                            }
                        }
                    },
                }
            },
        }
    }
}

/// The assignment `[attrs] key = value` at `start`, whose value must end by `ae`.
#[verifier::opaque]
pub open spec fn assignment_at(s: Seq<u8>, start: int, ae: int, attrs: Seq<SAttr>) -> Result<SAssign, SError>
    decreases s.len() - start, 3int,
{
    if start < 0 || start > s.len() || ae > s.len() {
        Err(unreachable_err())
    } else {
        match read_attrs(s, start, Seq::empty()) {
            Err(e) => Err(e),
            Ok((_, c)) => if c < start || c > s.len() {
                Err(unreachable_err())
            } else {
                proof {
                    lemma_prims(s, c);
                }
                let k0 = skip_hws(s, c);
                proof {
                    lemma_prims(s, k0);
                }
                match read_ident(s, k0) {
                    None => Err(unreachable_err()),
                    Some(ke) => {
                        proof {
                            lemma_prims(s, ke);
                        }
                        let c1 = skip_hws(s, ke);
                        if c1 >= s.len() {
                            Err(unreachable_err())
                        } else {
                            proof {
                                lemma_prims(s, c1 + 1);
                            }
                            let v0 = skip_hws(s, c1 + 1);
                            match value_at(s, v0, ae) {
                                Err(e) => Err(e),
                                Ok((v, ve)) => Ok(
                                    SAssign {
                                        span: span_at(s, start, ve),
                                        attrs,
                                        key: text_of(s, k0, ke),
                                        value: v,
                                    },
                                ),
                            }
                        }
                    },
                }
            },
        }
    }
}

/// Block at `start`: `[attrs] kind ["label"] [@schemaless] { body }`, with the position after
/// its closing brace.
#[verifier::opaque]
pub open spec fn block_at(s: Seq<u8>, start: int) -> Result<(SBlock, int), SError>
    decreases s.len() - start, 4int,
{
    if start < 0 || start > s.len() {
        Err(unreachable_err())
    } else {
        proof {
            lemma_prims(s, start);
        }
        let c0 = skip_ws(s, start);
        match read_attrs(s, c0, Seq::empty()) {
            Err(e) => Err(e),
            Ok((attrs, c1)) => if c1 < 0 || c1 > s.len() {
                Err(unreachable_err())
            } else {
                let ks = skip_ws(s, c1);
                match read_ident(s, ks) {
                    None => Err(
                        parse_err(span_at(s, start, max(ks, start + 1)), "expected block kind identifier"@),
                    ),
                    Some(ke) => {
                        let c2 = skip_ws(s, ke);
                        match block_label(s, c2) {
                            Err(e) => Err(e),
                            Ok((label, c3)) => {
                                let schemaless = is_schemaless_at(s, c3);
                                let c4 = if schemaless {
                                    c3 + 11
                                } else {
                                    c3
                                };
                                let c5 = skip_ws(s, c4);
                                if !(0 <= c5 < s.len() && s[c5] == LBRACE) {
                                    Err(
                                        parse_err(
                                            span_at(s, ks, max(c5, ks + 1)),
                                            "expected `{` to open block body"@,
                                        ),
                                    )
                                } else {
                                    proof {
                                        lemma_prims(s, c5);
                                    }
                                    match match_close(s, c5, LBRACE, RBRACE) {
                                        None => Err(parse_err(span_at(s, c5, s.len() as int), "unclosed block body"@)),
                                        Some(close) => {
                                            let span = span_at(s, c0, close);
                                            if schemaless {
                                                Ok(
                                                    (
                                                        SBlock {
                                                            span,
                                                            attrs,
                                                            kind: text_of(s, ks, ke),
                                                            label,
                                                            schemaless_body: Some(text_of(s, c5 + 1, close - 1)),
                                                            items: Seq::empty(),
                                                        },
                                                        close,
                                                    ),
                                                )
                                            } else if c5 + 1 <= start {
                                                Err(unreachable_err())
                                            } else {
                                                match items_from(s, c5 + 1, close - 1, Seq::empty()) {
                                                    Err(e) => Err(e),
                                                    Ok(items) => Ok(
                                                        (
                                                            SBlock {
                                                                span,
                                                                attrs,
                                                                kind: text_of(s, ks, ke),
                                                                label,
                                                                schemaless_body: None,
                                                                items,
                                                            },
                                                            close,
                                                        ),
                                                    ),
                                                }
                                            }
                                        },
                                    }
                                }
                            },
                        }
                    },
                }
            },
        }
    }
}

/// The body item at `c1` (after white space), inside a body ending at `end`: `None` when no
/// assignment key or block kind starts there.
#[verifier::opaque]
pub open spec fn item_at(s: Seq<u8>, c1: int, end: int) -> Result<Option<(SItem, int)>, SError>
    decreases s.len() - c1, 5int,
{
    if c1 < 0 || c1 > s.len() || end > s.len() {
        Err(unreachable_err())
    } else {
        match read_attrs(s, c1, Seq::empty()) {
            Err(e) => Err(e),
            Ok((attrs, c2)) => if c2 < 0 || c2 > s.len() {
                Err(unreachable_err())
            } else {
                let c3 = skip_ws(s, c2);
                match read_ident(s, c3) {
                    None => Ok(None),
                    Some(ke) => {
                        let c4 = skip_ws(s, ke);
                        if c4 < s.len() && s[c4] == EQUALS {
                            match assignment_end(s, c1, end) {
                                Err(e) => Err(e),
                                Ok(ae) => match assignment_at(s, c1, ae, attrs) {
                                    Err(e) => Err(e),
                                    Ok(a) => Ok(Some((SItem::Assignment(a), ae))),
                                },
                            }
                        } else {
                            match block_at(s, c1) {
                                Err(e) => Err(e),
                                Ok((b, next)) => if next > end {
                                    Err(
                                        parse_err(
                                            span_at(s, c1, end),
                                            "nested block extends past enclosing body"@,
                                        ),
                                    )
                                } else {
                                    Ok(Some((SItem::Block(b), next)))
                                },
                            }
                        }
                    },
                }
            },
        }
    }
}

/// At an assignment key (attributes, key, then `=`), the item is the assignment that extends
/// to the end that `assignment_end` finds.
pub proof fn lemma_item_at_assignment(s: Seq<u8>, c1: int, end: int, av: Seq<SAttr>, c2: int, ke: int)
    requires
        0 <= c1 <= s.len(),
        end <= s.len(),
        read_attrs(s, c1, Seq::empty()) == Ok::<(Seq<SAttr>, int), SError>((av, c2)),
        0 <= c2 <= s.len(),
        read_ident(s, skip_ws(s, c2)) == Some(ke),
        skip_ws(s, ke) < s.len(),
        s[skip_ws(s, ke)] == EQUALS,
    ensures
        item_at(s, c1, end) == match assignment_end(s, c1, end) {
            Err(e) => Err(e),
            Ok(ae) => match assignment_at(s, c1, ae, av) {
                Err(e) => Err(e),
                Ok(a) => Ok::<Option<(SItem, int)>, SError>(Some((SItem::Assignment(a), ae))),
            },
        },
{
    reveal_with_fuel(item_at, 1);
    reveal_with_fuel(assignment_at, 1);
    reveal_with_fuel(assignment_end, 1);
}

/// At a block kind not followed by `=`, the item is the nested block, which must close
/// inside the enclosing body.
pub proof fn lemma_item_at_block(s: Seq<u8>, c1: int, end: int, av: Seq<SAttr>, c2: int, ke: int)
    requires
        0 <= c1 <= s.len(),
        end <= s.len(),
        read_attrs(s, c1, Seq::empty()) == Ok::<(Seq<SAttr>, int), SError>((av, c2)),
        0 <= c2 <= s.len(),
        read_ident(s, skip_ws(s, c2)) == Some(ke),
        !(skip_ws(s, ke) < s.len() && s[skip_ws(s, ke)] == EQUALS),
    ensures
        item_at(s, c1, end) == match block_at(s, c1) {
            Err(e) => Err(e),
            Ok((b, next)) => if next > end {
                Err(parse_err(span_at(s, c1, end), "nested block extends past enclosing body"@))
            } else {
                Ok::<Option<(SItem, int)>, SError>(Some((SItem::Block(b), next)))
            },
        },
{
    reveal_with_fuel(item_at, 1);
    reveal(block_at);
}

/// Body items from `c` to `end`, accumulated onto `acc`.  Reading stops at the first item
/// that starts with neither an assignment key nor a block kind.
pub open spec fn items_from(s: Seq<u8>, c: int, end: int, acc: Seq<SItem>) -> Result<Seq<SItem>, SError>
    decreases s.len() - c, 6int,
{
    if c < 0 || c > s.len() || end > s.len() {
        Err(unreachable_err())
    } else if c >= end {
        Ok(acc)
    } else {
        proof {
            lemma_prims(s, c);
        }
        let c1 = skip_ws(s, c);
        if c1 >= end {
            Ok(acc)
        } else {
            match item_at(s, c1, end) {
                Err(e) => Err(e),
                Ok(None) => Ok(acc),
                Ok(Some((it, next))) => if next <= c || next > s.len() {
                    Err(unreachable_err())
                } else {
                    items_from(s, next, end, acc.push(it))
                },
            }
        }
    }
}

/// One step of `items_from`: white space, then the item there, if any.
pub proof fn lemma_items_from_step(s: Seq<u8>, c: int, end: int, acc: Seq<SItem>)
    requires
        0 <= c < end <= s.len(),
        skip_ws(s, c) < end,
    ensures
        items_from(s, c, end, acc) == match item_at(s, skip_ws(s, c), end) {
            Err(e) => Err(e),
            Ok(None) => Ok(acc),
            Ok(Some((it, next))) => if next <= c || next > s.len() {
                Err(unreachable_err())
            } else {
                items_from(s, next, end, acc.push(it))
            },
        },
{
    reveal_with_fuel(items_from, 1);
    reveal_with_fuel(item_at, 1);
}

/// Top-level blocks from `c`, accumulated onto `acc`.
pub open spec fn blocks_from(s: Seq<u8>, c: int, acc: Seq<SBlock>) -> Result<Seq<SBlock>, SError>
    decreases s.len() - c,
{
    if c < 0 || c >= s.len() {
        Ok(acc)
    } else {
        let c1 = skip_ws(s, c);
        if c1 >= s.len() {
            Ok(acc)
        } else {
            match block_at(s, c1) {
                Err(e) => Err(e),
                Ok((b, next)) => if next <= c || next > s.len() {
                    Err(unreachable_err())
                } else {
                    blocks_from(s, next, acc.push(b))
                },
            }
        }
    }
}

/// The parsed document of source bytes `s`.
pub open spec fn document_of(s: Seq<u8>) -> Result<Seq<SBlock>, SError> {
    blocks_from(s, 0, Seq::empty())
}

/// The block scanner cannot form the span of its "missing block kind" diagnostic: the block
/// starts with a character of more than one byte that begins no identifier.
pub open spec fn block_start_unspannable(s: Seq<u8>, start: int) -> bool {
    let c0 = skip_ws(s, start);
    match read_attrs(s, c0, Seq::empty()) {
        Ok((_, c1)) => {
            let ks = skip_ws(s, c1);
            read_ident(s, ks) is None && !span_ok(s, start, max(ks, start + 1))
        },
        Err(_) => false,
    }
}

/// Parsing the document reaches a top-level block whose diagnostic span cannot be formed.
pub open spec fn document_unspannable_from(s: Seq<u8>, c: int) -> bool
    decreases s.len() - c,
{
    if c < 0 || c >= s.len() {
        false
    } else {
        let c1 = skip_ws(s, c);
        if c1 >= s.len() {
            false
        } else if block_start_unspannable(s, c1) {
            true
        } else {
            match block_at(s, c1) {
                Err(_) => false,
                Ok((_, next)) => if next <= c || next > s.len() {
                    false
                } else {
                    document_unspannable_from(s, next)
                },
            }
        }
    }
}

} // verus!
