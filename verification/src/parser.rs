//! The BSOL parser: builds a [`BsolDocument`] from source text, exactly as `grammar` specifies.

use vstd::prelude::*;
use vstd::string::StringSliceAdditionalSpecFns;
use vstd::utf8::valid_utf8;

use crate::ast::{
    lemma_view_args_push, lemma_view_attrs_push, lemma_view_blocks_push, lemma_view_entries_push,
    lemma_view_items_push, lemma_view_list_items_push, view_args, view_attrs, view_blocks,
    view_entries, view_items, view_list_items, BsolAssignment, BsolAttribute, BsolAttributeArg,
    BsolBlock, BsolBracketList, BsolDocument, BsolInlineMap, BsolItem, BsolListItem,
    BsolMapEntry, BsolQuotedString, BsolRef, BsolValue, SAssign, SArg, SAttr, SBlock, SItem,
    SListItem, SMap, SQuoted, SRef, SValue,
};
use crate::error::{BsolError, SError};
use crate::grammar::{
    assignment_at, assignment_end, block_at, block_label, blocks_from, default_bytes,
    document_of, document_unspannable_from, block_start_unspannable, inline_label, item_at, items_from,
    lemma_item_at_assignment, lemma_item_at_block, lemma_items_from_step,
    lemma_prims, list_from, list_item_at, map_from, quoted_at, read_args, read_attrs, read_ref,
    read_type_expr, scan_value_end, value_at,
};
use crate::scanner::{
    bytes_at, err_at, is_digit, lemma_skip_ws_idem, lemma_span_ok, read_bare, read_ident,
    scan_bare, scan_bool, scan_ident, scan_is_schemaless, scan_match_close, scan_quoted,
    scan_skip_hws, scan_skip_ws, skip_hws, skip_ws, span_at, span_of, span_ok, Source, AT, COMMA, EQUALS,
    LBRACE, LBRACKET, LPAREN, QUOTE, RBRACE, RBRACKET, RPAREN, SLASH,
};
use crate::text::{bnd, lemma_bnd_after_ascii, owned};

verus! {

broadcast use vstd::utf8::group_utf8_lib;

pub open spec fn ref_res(r: Option<(BsolRef, usize)>) -> Option<(SRef, int)> {
    match r {
        Some((x, e)) => Some((x@, e as int)),
        None => None,
    }
}

pub open spec fn pos_res(r: Result<usize, BsolError>) -> Result<int, SError> {
    match r {
        Ok(e) => Ok(e as int),
        Err(x) => Err(x@),
    }
}

pub open spec fn quoted_res(r: Option<(BsolQuotedString, usize)>) -> Option<(SQuoted, int)> {
    match r {
        Some((x, e)) => Some((x@, e as int)),
        None => None,
    }
}

pub open spec fn label_res(r: Result<(Option<BsolQuotedString>, usize), BsolError>) -> Result<
    (Option<SQuoted>, int),
    SError,
> {
    match r {
        Ok((Some(q), e)) => Ok((Some(q@), e as int)),
        Ok((None, e)) => Ok((None, e as int)),
        Err(x) => Err(x@),
    }
}

pub open spec fn attrs_res(r: Result<(Vec<BsolAttribute>, usize), BsolError>) -> Result<
    (Seq<SAttr>, int),
    SError,
> {
    match r {
        Ok((v, e)) => Ok((view_attrs(v@), e as int)),
        Err(x) => Err(x@),
    }
}

pub open spec fn args_res(r: Result<(Vec<BsolAttributeArg>, usize), BsolError>) -> Result<
    (Seq<SArg>, int),
    SError,
> {
    match r {
        Ok((v, e)) => Ok((view_args(v@), e as int)),
        Err(x) => Err(x@),
    }
}

pub open spec fn value_res(r: Result<(BsolValue, usize), BsolError>) -> Result<(SValue, int), SError> {
    match r {
        Ok((v, e)) => Ok((v@, e as int)),
        Err(x) => Err(x@),
    }
}

pub open spec fn list_item_res(r: Result<(BsolListItem, usize), BsolError>) -> Result<(SListItem, int), SError> {
    match r {
        Ok((v, e)) => Ok((v@, e as int)),
        Err(x) => Err(x@),
    }
}

pub open spec fn map_res(r: Result<(BsolInlineMap, usize), BsolError>) -> Result<(SMap, int), SError> {
    match r {
        Ok((v, e)) => Ok((v@, e as int)),
        Err(x) => Err(x@),
    }
}

pub open spec fn assign_res(r: Result<BsolAssignment, BsolError>) -> Result<SAssign, SError> {
    match r {
        Ok(v) => Ok(v@),
        Err(x) => Err(x@),
    }
}

pub open spec fn block_res(r: Result<(BsolBlock, usize), BsolError>) -> Result<(SBlock, int), SError> {
    match r {
        Ok((v, e)) => Ok((v@, e as int)),
        Err(x) => Err(x@),
    }
}

pub open spec fn items_res(r: Result<Vec<BsolItem>, BsolError>) -> Result<Seq<SItem>, SError> {
    match r {
        Ok(v) => Ok(view_items(v@)),
        Err(x) => Err(x@),
    }
}

pub open spec fn doc_res(r: Result<BsolDocument, BsolError>) -> Result<Seq<SBlock>, SError> {
    match r {
        Ok(d) => Ok(view_blocks(d.blocks@)),
        Err(x) => Err(x@),
    }
}

/// Preconditions shared by the parsing functions.
pub open spec fn at(src: &Source, i: usize) -> bool {
    &&& src.wf()
    &&& valid_utf8(src.b())
    &&& i <= src.b().len()
    &&& bnd(src.b(), i as int)
}

fn parse_error(src: &Source, a: usize, b: usize, message: &str) -> (r: BsolError)
    requires
        src.wf(),
        span_ok(src.b(), a as int, b as int),
    ensures
        r@ == crate::error::parse_err(span_at(src.b(), a as int, b as int), message@),
{
    BsolError::parse_at(span_of(src, a, b), owned(message))
}

fn exec_read_ref(src: &Source, i: usize) -> (r: Option<(BsolRef, usize)>)
    requires
        at(src, i),
    ensures
        ref_res(r) == read_ref(src.b(), i as int),
        r matches Some((_, e)) ==> i < e <= src.b().len() && bnd(src.b(), e as int),
{
    let s = src.bytes;
    let n = s.len();
    if !(i < n && s[i] == AT) || scan_is_schemaless(src, i) {
        return None;
    }
    proof {
        lemma_bnd_after_ascii(s@, i as int);
    }
    let c = i + 1;
    let rk = scan_ident(src, c);
    let c1 = match rk {
        Some(e) => e,
        None => c,
    };
    let c2 = scan_skip_hws(src, c1);
    if c2 < n && s[c2] == SLASH {
        proof {
            lemma_bnd_after_ascii(s@, c2 as int);
        }
        let c3 = scan_skip_hws(src, c2 + 1);
        match scan_ident(src, c3) {
            Some(e) => {
                proof {
                    lemma_span_ok(s@, i as int, e as int);
                }
                let rule_kind = match rk {
                    Some(k) => Some(src.text_between(c, k)),
                    None => None,
                };
                let r = BsolRef { span: span_of(src, i, e), rule_kind, label: src.text_between(c3, e) };
                Some((r, e))
            },
            None => None,
        }
    } else {
        match rk {
            Some(k) => {
                proof {
                    lemma_span_ok(s@, i as int, c2 as int);
                }
                let r = BsolRef { span: span_of(src, i, c2), rule_kind: None, label: src.text_between(c, k) };
                Some((r, c2))
            },
            None => None,
        }
    }
}

fn exec_type_expr(src: &Source, i: usize) -> (r: Option<usize>)
    requires
        at(src, i),
    ensures
        crate::scanner::same_pos(r, read_type_expr(src.b(), i as int)),
        r matches Some(e) ==> i < e <= src.b().len() && bnd(src.b(), e as int),
{
    let s = src.bytes;
    let n = s.len();
    match scan_ident(src, i) {
        None => None,
        Some(e) => {
            let c = scan_skip_hws(src, e);
            if c < n && s[c] == LPAREN {
                scan_match_close(src, c, LPAREN, RPAREN)
            } else if c < n && s[c] == LBRACKET {
                scan_match_close(src, c, LBRACKET, RBRACKET)
            } else {
                None
            }
        },
    }
}

fn exec_scan_value_end(src: &Source, start: usize, end: usize) -> (r: Result<usize, BsolError>)
    requires
        at(src, start),
        start <= end <= src.b().len(),
        bnd(src.b(), end as int),
        start < end || end == src.b().len(),
    ensures
        pos_res(r) == scan_value_end(src.b(), start as int, end as int),
        r matches Ok(e) ==> start < e <= src.b().len() && bnd(src.b(), e as int),
{
    let s = src.bytes;
    let n = s.len();
    proof {
        lemma_prims(s@, start as int);
        if start < end {
            lemma_span_ok(s@, start as int, end as int);
        }
    }
    if start < n && s[start] == QUOTE {
        match scan_quoted(src, start) {
            Some(e) => Ok(e),
            None => Err(parse_error(src, start, end, "unclosed string in assignment")),
        }
    } else if start < n && s[start] == LBRACKET {
        match scan_match_close(src, start, LBRACKET, RBRACKET) {
            Some(e) => Ok(e),
            None => Err(parse_error(src, start, end, "unclosed bracket list")),
        }
    } else if start < n && s[start] == LBRACE {
        match scan_match_close(src, start, LBRACE, RBRACE) {
            Some(e) => Ok(e),
            None => Err(parse_error(src, start, end, "unclosed inline map")),
        }
    } else if start < n && s[start] == AT {
        match exec_read_ref(src, start) {
            Some((_, e)) => Ok(e),
            None => Err(parse_error(src, start, end, "invalid reference literal")),
        }
    } else {
        match scan_bool(src, start) {
            Some((_, e)) => Ok(e),
            None => match exec_type_expr(src, start) {
                Some(e) => Ok(e),
                None => match scan_bare(src, start) {
                    Some(e) => Ok(e),
                    None => Err(parse_error(src, start, end, "missing assignment value")),
                },
            },
        }
    }
}

fn exec_quoted_at(src: &Source, p: usize, hi: usize) -> (r: Option<(BsolQuotedString, usize)>)
    requires
        at(src, p),
    ensures
        quoted_res(r) == quoted_at(src.b(), p as int, hi as int),
        r matches Some((_, e)) ==> p < e <= src.b().len() && bnd(src.b(), e as int),
{
    match scan_quoted(src, p) {
        Some(e) => if e <= hi {
            proof {
                lemma_span_ok(src.b(), p as int, e as int);
            }
            let q = BsolQuotedString { span: span_of(src, p, e), value: src.text_between(p + 1, e - 1) };
            Some((q, e))
        } else {
            None
        },
        None => None,
    }
}

fn exec_inline_label(src: &Source, t: usize) -> (r: Result<(Option<BsolQuotedString>, usize), BsolError>)
    requires
        at(src, t),
    ensures
        label_res(r) == inline_label(src.b(), t as int),
        r matches Ok((_, e)) ==> t <= e <= src.b().len() && bnd(src.b(), e as int),
{
    let s = src.bytes;
    if t < s.len() && s[t] == QUOTE {
        match scan_quoted(src, t) {
            Some(le) => {
                proof {
                    lemma_span_ok(s@, t as int, le as int);
                }
                let q = BsolQuotedString { span: span_of(src, t, le), value: src.text_between(t + 1, le - 1) };
                Ok((Some(q), scan_skip_ws(src, le)))
            },
            None => Err(err_at(src, t, owned("unclosed string"))),
        }
    } else {
        Ok((None, t))
    }
}

fn exec_block_label(src: &Source, c: usize) -> (r: Result<(Option<BsolQuotedString>, usize), BsolError>)
    requires
        at(src, c),
    ensures
        label_res(r) == block_label(src.b(), c as int),
        r matches Ok((_, e)) ==> c <= e <= src.b().len() && bnd(src.b(), e as int),
{
    let s = src.bytes;
    let n = s.len();
    if c < n && s[c] == QUOTE {
        match scan_quoted(src, c) {
            Some(le) => {
                let c3 = scan_skip_ws(src, le);
                proof {
                    lemma_span_ok(s@, c as int, c3 as int);
                }
                let q = BsolQuotedString { span: span_of(src, c, c3), value: src.text_between(c + 1, le - 1) };
                Ok((Some(q), c3))
            },
            None => {
                proof {
                    lemma_span_ok(s@, c as int, n as int);
                }
                let m = if n > c + 1 {
                    n
                } else {
                    c + 1
                };
                Err(parse_error(src, c, m, "expected quoted block label"))
            },
        }
    } else {
        Ok((None, c))
    }
}


// ---------------------------------------------------------------------------
// The recursive part: same measures as the grammar.
// ---------------------------------------------------------------------------

fn exec_read_attrs(src: &Source, i: usize) -> (r: Result<(Vec<BsolAttribute>, usize), BsolError>)
    requires
        at(src, i),
    ensures
        attrs_res(r) == read_attrs(src.b(), i as int, Seq::empty()),
        r matches Ok((_, e)) ==> i <= e <= src.b().len() && bnd(src.b(), e as int),
    decreases src.b().len() - i, 2int,
{
    let s = src.bytes;
    let n = s.len();
    let mut acc: Vec<BsolAttribute> = Vec::new();
    let mut cur = i;
    loop
        invariant
            at(src, cur),
            s@ == src.b(),
            n == s@.len(),
            i <= cur,
            read_attrs(s@, i as int, Seq::empty()) == read_attrs(s@, cur as int, view_attrs(acc@)),
        decreases n - cur,
    {
        proof {
            lemma_prims(s@, cur as int);
        }
        let c = scan_skip_ws(src, cur);
        if c < n && s[c] == LBRACKET {
            proof {
                lemma_bnd_after_ascii(s@, c as int);
                lemma_span_ok(s@, c as int, c + 1);
            }
            match scan_ident(src, c + 1) {
                None => {
                    return Err(parse_error(src, c, c + 1, "expected attribute name inside `[`"));
                },
                Some(ne) => {
                    let c2 = scan_skip_hws(src, ne);
                    let args_r = if c2 < n && s[c2] == LPAREN {
                        proof {
                            lemma_bnd_after_ascii(s@, c2 as int);
                        }
                        exec_read_args(src, c2 + 1, c)
                    } else {
                        Ok((Vec::new(), c2))
                    };
                    match args_r {
                        Err(e) => {
                            return Err(e);
                        },
                        Ok((args, c3)) => {
                            if !(c3 < n && s[c3] == RBRACKET) {
                                proof {
                                    lemma_span_ok(s@, c as int, c3 as int);
                                }
                                return Err(parse_error(src, c, c3, "expected `]` to close attribute"));
                            }
                            proof {
                                lemma_bnd_after_ascii(s@, c3 as int);
                                lemma_span_ok(s@, c as int, c3 + 1);
                            }
                            let attr = BsolAttribute {
                                span: span_of(src, c, c3 + 1),
                                name: src.text_between(c + 1, ne),
                                args,
                            };
                            proof {
                                lemma_view_attrs_push(acc@, attr);
                            }
                            acc.push(attr);
                            cur = c3 + 1;
                        },
                    }
                },
            }
        } else if !(c < n && s[c] == AT) || scan_is_schemaless(src, c) {
            return Ok((acc, c));
        } else {
            proof {
                lemma_bnd_after_ascii(s@, c as int);
                lemma_span_ok(s@, c as int, c + 1);
            }
            match scan_ident(src, c + 1) {
                None => {
                    return Err(parse_error(src, c, c + 1, "expected attribute name after `@`"));
                },
                Some(ne) => {
                    let c2 = scan_skip_hws(src, ne);
                    let args_r = if c2 < n && s[c2] == LPAREN {
                        proof {
                            lemma_bnd_after_ascii(s@, c2 as int);
                        }
                        exec_read_args(src, c2 + 1, c)
                    } else {
                        Ok((Vec::new(), c2))
                    };
                    match args_r {
                        Err(e) => {
                            return Err(e);
                        },
                        Ok((args, c3)) => {
                            proof {
                                lemma_span_ok(s@, c as int, c3 as int);
                            }
                            let attr = BsolAttribute {
                                span: span_of(src, c, c3),
                                name: src.text_between(c + 1, ne),
                                args,
                            };
                            proof {
                                lemma_view_attrs_push(acc@, attr);
                            }
                            acc.push(attr);
                            cur = c3;
                        },
                    }
                },
            }
        }
    }
}

fn exec_read_args(src: &Source, c0: usize, start: usize) -> (r: Result<(Vec<BsolAttributeArg>, usize), BsolError>)
    requires
        at(src, c0),
        start < c0,
        bnd(src.b(), start as int),
    ensures
        args_res(r) == read_args(src.b(), c0 as int, start as int, Seq::empty()),
        r matches Ok((_, e)) ==> c0 <= e <= src.b().len() && bnd(src.b(), e as int),
    decreases src.b().len() - c0, 1int,
{
    let s = src.bytes;
    let n = s.len();
    let mut acc: Vec<BsolAttributeArg> = Vec::new();
    let mut cur = c0;
    loop
        invariant
            at(src, cur),
            s@ == src.b(),
            n == s@.len(),
            c0 <= cur,
            start < c0,
            bnd(src.b(), start as int),
            read_args(s@, c0 as int, start as int, Seq::empty()) == read_args(
                s@,
                cur as int,
                start as int,
                view_args(acc@),
            ),
        decreases n - cur,
    {
        proof {
            lemma_prims(s@, cur as int);
        }
        let k0 = scan_skip_hws(src, cur);
        if k0 < n && s[k0] == RPAREN {
            proof {
                lemma_bnd_after_ascii(s@, k0 as int);
            }
            return Ok((acc, k0 + 1));
        }
        proof {
            lemma_span_ok(s@, start as int, k0 as int);
        }
        match scan_ident(src, k0) {
            None => {
                return Err(parse_error(src, start, k0, "expected attribute argument key"));
            },
            Some(ke) => {
                let c1 = scan_skip_hws(src, ke);
                if !(c1 < n && s[c1] == EQUALS) {
                    proof {
                        lemma_span_ok(s@, start as int, c1 as int);
                    }
                    return Err(parse_error(src, start, c1, "expected `=` in attribute argument"));
                }
                proof {
                    lemma_bnd_after_ascii(s@, c1 as int);
                }
                let c2 = scan_skip_hws(src, c1 + 1);
                match exec_scan_value_end(src, c2, n) {
                    Err(e) => {
                        return Err(e);
                    },
                    Ok(ve) => match exec_value_at(src, c2, ve) {
                        Err(e) => {
                            return Err(e);
                        },
                        Ok((v, _)) => {
                            let c3 = scan_skip_hws(src, ve);
                            let next = if c3 < n && s[c3] == COMMA {
                                proof {
                                    lemma_bnd_after_ascii(s@, c3 as int);
                                }
                                c3 + 1
                            } else {
                                c3
                            };
                            let arg = BsolAttributeArg { key: src.text_between(k0, ke), value: v };
                            proof {
                                lemma_view_args_push(acc@, arg);
                            }
                            acc.push(arg);
                            cur = next;
                        },
                    },
                }
            },
        }
    }
}

fn exec_value_at(src: &Source, p: usize, hi: usize) -> (r: Result<(BsolValue, usize), BsolError>)
    requires
        at(src, p),
        hi <= src.b().len(),
    ensures
        value_res(r) == value_at(src.b(), p as int, hi as int),
        r matches Ok((_, e)) ==> p < e <= hi && bnd(src.b(), e as int),
    decreases src.b().len() - p, 1int,
{
    let s = src.bytes;
    proof {
        lemma_prims(s@, p as int);
    }
    if p >= hi {
        return Err(err_at(src, p, owned("expected value")));
    }
    let b = s[p];
    if b == QUOTE {
        match exec_quoted_at(src, p, hi) {
            Some((q, e)) => Ok((BsolValue::QuotedString(q), e)),
            None => Err(err_at(src, p, owned("unclosed string"))),
        }
    } else if b == LBRACKET {
        proof {
            lemma_bnd_after_ascii(s@, p as int);
        }
        exec_list_from(src, p + 1, hi, p)
    } else if b == LBRACE {
        proof {
            lemma_bnd_after_ascii(s@, p as int);
        }
        match exec_map_from(src, p + 1, hi, p) {
            Ok((m, e)) => Ok((BsolValue::InlineMap(m), e)),
            Err(e) => Err(e),
        }
    } else if b == AT {
        match exec_read_ref(src, p) {
            Some((r, e)) => if e <= hi {
                Ok((BsolValue::Ref(r), e))
            } else {
                Err(err_at(src, p, owned("invalid reference literal")))
            },
            None => Err(err_at(src, p, owned("invalid reference literal"))),
        }
    } else {
        match scan_bool(src, p) {
            Some((bv, e)) => if e <= hi {
                Ok((BsolValue::Bool(bv), e))
            } else {
                Err(err_at(src, p, owned("expected value")))
            },
            None => match exec_type_expr(src, p) {
                Some(e) => if e <= hi {
                    Ok((BsolValue::Ident(src.text_between(p, e)), e))
                } else {
                    Err(err_at(src, p, owned("expected value")))
                },
                None => match scan_bare(src, p) {
                    Some(e) => if e <= hi {
                        Ok((BsolValue::Ident(src.text_between(p, e)), e))
                    } else {
                        Err(err_at(src, p, owned("expected value")))
                    },
                    None => Err(err_at(src, p, owned("expected value"))),
                },
            },
        }
    }
}

fn exec_list_from(src: &Source, q0: usize, hi: usize, lstart: usize) -> (r: Result<(BsolValue, usize), BsolError>)
    requires
        at(src, q0),
        hi <= src.b().len(),
        lstart < q0,
        bnd(src.b(), lstart as int),
    ensures
        value_res(r) == list_from(src.b(), q0 as int, hi as int, lstart as int, Seq::empty()),
        r matches Ok((_, e)) ==> q0 < e <= hi && bnd(src.b(), e as int),
    decreases src.b().len() - q0, 2int,
{
    let s = src.bytes;
    let n = s.len();
    let mut acc: Vec<BsolListItem> = Vec::new();
    let mut cur = q0;
    loop
        invariant
            at(src, cur),
            s@ == src.b(),
            n == s@.len(),
            q0 <= cur,
            hi <= n,
            lstart < q0,
            bnd(src.b(), lstart as int),
            list_from(s@, q0 as int, hi as int, lstart as int, Seq::empty()) == list_from(
                s@,
                cur as int,
                hi as int,
                lstart as int,
                view_list_items(acc@),
            ),
        decreases n - cur,
    {
        proof {
            lemma_prims(s@, cur as int);
        }
        let q1 = scan_skip_ws(src, cur);
        if q1 >= hi {
            return Err(err_at(src, q1, owned("unclosed bracket list")));
        }
        if s[q1] == RBRACKET {
            proof {
                lemma_bnd_after_ascii(s@, q1 as int);
                lemma_span_ok(s@, lstart as int, q1 + 1);
            }
            let l = BsolBracketList { span: span_of(src, lstart, q1 + 1), items: acc };
            return Ok((BsolValue::BracketList(l), q1 + 1));
        }
        match exec_list_item_at(src, q1, hi) {
            Err(e) => {
                return Err(e);
            },
            Ok((it, e)) => {
                proof {
                    lemma_prims(s@, e as int);
                    lemma_view_list_items_push(acc@, it);
                }
                let r = scan_skip_ws(src, e);
                if r < hi && s[r] == COMMA {
                    proof {
                        lemma_bnd_after_ascii(s@, r as int);
                    }
                    acc.push(it);
                    cur = r + 1;
                } else if r < hi && s[r] == RBRACKET {
                    proof {
                        lemma_bnd_after_ascii(s@, r as int);
                        lemma_span_ok(s@, lstart as int, r + 1);
                    }
                    acc.push(it);
                    let l = BsolBracketList { span: span_of(src, lstart, r + 1), items: acc };
                    return Ok((BsolValue::BracketList(l), r + 1));
                } else {
                    return Err(err_at(src, r, owned("expected `,` or `]` in list")));
                }
            },
        }
    }
}

#[verifier::rlimit(80)]
fn exec_list_item_at(src: &Source, q: usize, hi: usize) -> (r: Result<(BsolListItem, usize), BsolError>)
    requires
        at(src, q),
        q < hi <= src.b().len(),
    ensures
        list_item_res(r) == list_item_at(src.b(), q as int, hi as int),
        r matches Ok((_, e)) ==> q < e <= hi && bnd(src.b(), e as int),
    decreases src.b().len() - q, 1int,
{
    let s = src.bytes;
    let n = s.len();
    proof {
        lemma_prims(s@, q as int);
    }
    let b = s[q];
    if b == QUOTE {
        match exec_quoted_at(src, q, hi) {
            Some((qs, e)) => Ok((BsolListItem::QuotedString(qs), e)),
            None => Err(err_at(src, q, owned("unclosed string"))),
        }
    } else if b == AT {
        match exec_read_ref(src, q) {
            Some((r, e)) => if e <= hi {
                Ok((BsolListItem::Ref(r), e))
            } else {
                Err(err_at(src, q, owned("invalid reference literal")))
            },
            None => Err(err_at(src, q, owned("invalid reference literal"))),
        }
    } else if b == LBRACE {
        proof {
            lemma_bnd_after_ascii(s@, q as int);
        }
        match exec_map_from(src, q + 1, hi, q) {
            Ok((m, e)) => Ok((BsolListItem::InlineMap(m), e)),
            Err(e) => Err(e),
        }
    } else {
        match scan_bool(src, q) {
            Some((bv, e)) => if e <= hi {
                Ok((BsolListItem::Bool(bv), e))
            } else {
                Err(err_at(src, q, owned("unexpected list item")))
            },
            None => if 0x30 <= b && b <= 0x39 {
                match scan_bare(src, q) {
                    Some(e) => if e <= hi {
                        Ok((BsolListItem::Ident(src.text_between(q, e)), e))
                    } else {
                        Err(err_at(src, q, owned("unexpected list item")))
                    },
                    None => Err(err_at(src, q, owned("unexpected list item"))),
                }
            } else {
                match scan_ident(src, q) {
                    None => Err(err_at(src, q, owned("unexpected list item"))),
                    Some(ke) => {
                        proof {
                            lemma_prims(s@, ke as int);
                        }
                        let t = scan_skip_ws(src, ke);
                        if t < hi && (s[t] == LBRACE || s[t] == QUOTE) {
                            match exec_inline_label(src, t) {
                                Err(e) => Err(e),
                                Ok((label, t2)) => if !(t2 < hi && s[t2] == LBRACE) {
                                    Err(err_at(src, t2, owned("expected `{` in inline block")))
                                } else {
                                    match scan_match_close(src, t2, LBRACE, RBRACE) {
                                        None => Err(err_at(src, t2, owned("unclosed inline block body"))),
                                        Some(close) => if close > hi {
                                            Err(err_at(src, t2, owned("unclosed inline block body")))
                                        } else {
                                            proof {
                                                lemma_prims(s@, t2 as int);
                                                lemma_bnd_after_ascii(s@, t2 as int);
                                                assert(bnd(s@, close - 1));
                                            }
                                            match exec_items_from(src, t2 + 1, close - 1) {
                                                Err(e) => Err(e),
                                                Ok(items) => {
                                                    proof {
                                                        lemma_span_ok(s@, q as int, close as int);
                                                    }
                                                    let blk = BsolBlock {
                                                        span: span_of(src, q, close),
                                                        attrs: Vec::new(),
                                                        kind: src.text_between(q, ke),
                                                        label,
                                                        schemaless_body: None,
                                                        items,
                                                    };
                                                    Ok((BsolListItem::InlineBlock(blk), close))
                                                },
                                            }
                                        },
                                    }
                                },
                            }
                        } else if ke > hi {
                            Err(err_at(src, q, owned("unexpected list item")))
                        } else {
                            let lit: [u8; 7] = [0x64u8, 0x65, 0x66, 0x61, 0x75, 0x6c, 0x74];
                            let ls = lit.as_slice();
                            proof {
                                assert(ls@ =~= default_bytes());
                            }
                            if ke - q == 7 && bytes_at(s, q, ls) {
                                Ok((BsolListItem::Default, ke))
                            } else {
                                proof {
                                    if s@.subrange(q as int, ke as int) == default_bytes() {
                                        assert(s@.subrange(q as int, ke as int).len() == 7);
                                    }
                                }
                                Ok((BsolListItem::Ident(src.text_between(q, ke)), ke))
                            }
                        }
                    },
                }
            }
        }
    }
}

fn exec_map_from(src: &Source, q0: usize, hi: usize, mstart: usize) -> (r: Result<(BsolInlineMap, usize), BsolError>)
    requires
        at(src, q0),
        hi <= src.b().len(),
        mstart < q0,
        bnd(src.b(), mstart as int),
    ensures
        map_res(r) == map_from(src.b(), q0 as int, hi as int, mstart as int, Seq::empty()),
        r matches Ok((_, e)) ==> q0 < e <= hi && bnd(src.b(), e as int),
    decreases src.b().len() - q0, 1int,
{
    let s = src.bytes;
    let n = s.len();
    let mut acc: Vec<BsolMapEntry> = Vec::new();
    let mut cur = q0;
    loop
        invariant
            at(src, cur),
            s@ == src.b(),
            n == s@.len(),
            q0 <= cur,
            hi <= n,
            mstart < q0,
            bnd(src.b(), mstart as int),
            map_from(s@, q0 as int, hi as int, mstart as int, Seq::empty()) == map_from(
                s@,
                cur as int,
                hi as int,
                mstart as int,
                view_entries(acc@),
            ),
        decreases n - cur,
    {
        proof {
            lemma_prims(s@, cur as int);
        }
        let q1 = scan_skip_ws(src, cur);
        if q1 >= hi {
            return Err(err_at(src, q1, owned("unclosed inline map")));
        }
        if s[q1] == RBRACE {
            proof {
                lemma_bnd_after_ascii(s@, q1 as int);
                lemma_span_ok(s@, mstart as int, q1 + 1);
            }
            let m = BsolInlineMap { span: span_of(src, mstart, q1 + 1), entries: acc };
            return Ok((m, q1 + 1));
        }
        match scan_ident(src, q1) {
            None => {
                return Err(err_at(src, q1, owned("expected map key")));
            },
            Some(ke) => {
                let c = scan_skip_ws(src, ke);
                if !(c < hi && s[c] == EQUALS) {
                    return Err(err_at(src, c, owned("expected `=` in inline map entry")));
                }
                proof {
                    lemma_bnd_after_ascii(s@, c as int);
                }
                let v0 = scan_skip_ws(src, c + 1);
                match exec_value_at(src, v0, hi) {
                    Err(e) => {
                        return Err(e);
                    },
                    Ok((v, ve)) => {
                        proof {
                            lemma_prims(s@, ve as int);
                            lemma_span_ok(s@, q1 as int, ve as int);
                        }
                        let ent = BsolMapEntry {
                            span: span_of(src, q1, ve),
                            key: src.text_between(q1, ke),
                            value: v,
                        };
                        proof {
                            lemma_view_entries_push(acc@, ent);
                        }
                        let r = scan_skip_ws(src, ve);
                        if r < hi && s[r] == COMMA {
                            proof {
                                lemma_bnd_after_ascii(s@, r as int);
                            }
                            acc.push(ent);
                            cur = r + 1;
                        } else if r < hi && s[r] == RBRACE {
                            proof {
                                lemma_bnd_after_ascii(s@, r as int);
                                lemma_span_ok(s@, mstart as int, r + 1);
                            }
                            acc.push(ent);
                            let m = BsolInlineMap { span: span_of(src, mstart, r + 1), entries: acc };
                            return Ok((m, r + 1));
                        } else {
                            return Err(err_at(src, r, owned("expected `,` or `}` in inline map")));
                        }
                    },
                }
            },
        }
    }
}

fn exec_assignment_end(src: &Source, start: usize, end: usize) -> (r: Result<usize, BsolError>)
    requires
        at(src, start),
        start < end <= src.b().len(),
        bnd(src.b(), end as int),
    ensures
        pos_res(r) == assignment_end(src.b(), start as int, end as int),
        r matches Ok(e) ==> start < e <= end && bnd(src.b(), e as int) && assignment_head(
            src.b(),
            start as int,
        ),
    decreases src.b().len() - start, 3int,
{
    proof {
        reveal_with_fuel(assignment_end, 1);
    }
    let s = src.bytes;
    let n = s.len();
    proof {
        lemma_span_ok(s@, start as int, end as int);
    }
    match exec_read_attrs(src, start) {
        Err(e) => Err(e),
        Ok((_, c)) => {
            let c1 = scan_skip_hws(src, c);
            match scan_ident(src, c1) {
                None => Err(parse_error(src, start, end, "expected assignment key")),
                Some(ke) => {
                    let c2 = scan_skip_hws(src, ke);
                    if !(c2 < n && s[c2] == EQUALS) {
                        Err(parse_error(src, start, end, "expected `=` in assignment"))
                    } else {
                        proof {
                            lemma_bnd_after_ascii(s@, c2 as int);
                        }
                        let c3 = scan_skip_hws(src, c2 + 1);
                        if c3 >= end {
                            Err(parse_error(src, start, end, "missing assignment value"))
                        } else {
                            match exec_scan_value_end(src, c3, end) {
                                Err(e) => Err(e),
                                Ok(e) => if e < end {
                                    Ok(e)
                                } else {
                                    Ok(end)
                                },
                            }
                        }
                    }
                },
            }
        },
    }
}

/// The assignment scanner found `key =` after the attributes at `start`.
pub open spec fn assignment_head(s: Seq<u8>, start: int) -> bool {
    read_attrs(s, start, Seq::empty()) matches Ok((_, c)) && read_ident(s, skip_hws(s, c)) matches Some(
        ke,
    ) && skip_hws(s, ke) < s.len() && s[skip_hws(s, ke)] == EQUALS
}

fn exec_assignment_at(src: &Source, start: usize, ae: usize, attrs: Vec<BsolAttribute>) -> (r: Result<BsolAssignment, BsolError>)
    requires
        at(src, start),
        ae <= src.b().len(),
        assignment_head(src.b(), start as int),
    ensures
        assign_res(r) == assignment_at(src.b(), start as int, ae as int, view_attrs(attrs@)),
    decreases src.b().len() - start, 3int,
{
    proof {
        reveal_with_fuel(assignment_at, 1);
    }
    let s = src.bytes;
    let n = s.len();
    match exec_read_attrs(src, start) {
        Err(e) => Err(e),
        Ok((_, c)) => {
            let k0 = scan_skip_hws(src, c);
            match scan_ident(src, k0) {
                None => Err(BsolError::Parse(String::new())),
                Some(ke) => {
                    let c1 = scan_skip_hws(src, ke);
                    proof {
                        lemma_bnd_after_ascii(s@, c1 as int);
                    }
                    let v0 = scan_skip_hws(src, c1 + 1);
                    match exec_value_at(src, v0, ae) {
                        Err(e) => Err(e),
                        Ok((v, ve)) => {
                            proof {
                                lemma_span_ok(s@, start as int, ve as int);
                            }
                            Ok(
                                BsolAssignment {
                                    span: span_of(src, start, ve),
                                    attrs,
                                    key: src.text_between(k0, ke),
                                    value: v,
                                },
                            )
                        },
                    }
                },
            }
        },
    }
}

#[verifier::rlimit(40)]
fn exec_block_at(src: &Source, start: usize) -> (r: Result<(BsolBlock, usize), BsolError>)
    requires
        at(src, start),
        !block_start_unspannable(src.b(), start as int),
    ensures
        block_res(r) == block_at(src.b(), start as int),
        r matches Ok((_, e)) ==> start < e <= src.b().len() && bnd(src.b(), e as int),
    decreases src.b().len() - start, 4int,
{
    proof {
        reveal(block_at);
    }
    let s = src.bytes;
    let n = s.len();
    proof {
        lemma_prims(s@, start as int);
    }
    let c0 = scan_skip_ws(src, start);
    match exec_read_attrs(src, c0) {
        Err(e) => Err(e),
        Ok((attrs, c1)) => {
            let ks = scan_skip_ws(src, c1);
            match scan_ident(src, ks) {
                None => {
                    let m = if ks > start {
                        ks
                    } else if start < n {
                        start + 1
                    } else {
                        n
                    };
                    Err(parse_error(src, start, m, "expected block kind identifier"))
                },
                Some(ke) => {
                    let c2 = scan_skip_ws(src, ke);
                    match exec_block_label(src, c2) {
                        Err(e) => Err(e),
                        Ok((label, c3)) => {
                            let schemaless = scan_is_schemaless(src, c3);
                            let c4 = if schemaless {
                                c3 + 11
                            } else {
                                c3
                            };
                            let c5 = scan_skip_ws(src, c4);
                            if !(c5 < n && s[c5] == LBRACE) {
                                proof {
                                    lemma_bnd_after_ascii(s@, ks as int);
                                    if c5 > ks {
                                        lemma_span_ok(s@, ks as int, c5 as int);
                                    } else {
                                        lemma_span_ok(s@, ks as int, ks + 1);
                                    }
                                }
                                let m = if c5 > ks {
                                    c5
                                } else {
                                    ks + 1
                                };
                                return Err(parse_error(src, ks, m, "expected `{` to open block body"));
                            }
                            proof {
                                lemma_prims(s@, c5 as int);
                                lemma_bnd_after_ascii(s@, c5 as int);
                                lemma_span_ok(s@, c5 as int, n as int);
                            }
                            match scan_match_close(src, c5, LBRACE, RBRACE) {
                                None => Err(parse_error(src, c5, n, "unclosed block body")),
                                Some(close) => {
                                    proof {
                                        lemma_span_ok(s@, c0 as int, close as int);
                                        assert(bnd(s@, close - 1));
                                    }
                                    let span = span_of(src, c0, close);
                                    let kind = src.text_between(ks, ke);
                                    if schemaless {
                                        let raw = src.text_between(c5 + 1, close - 1);
                                        Ok(
                                            (
                                                BsolBlock {
                                                    span,
                                                    attrs,
                                                    kind,
                                                    label,
                                                    schemaless_body: Some(raw),
                                                    items: Vec::new(),
                                                },
                                                close,
                                            ),
                                        )
                                    } else {
                                        match exec_items_from(src, c5 + 1, close - 1) {
                                            Err(e) => Err(e),
                                            Ok(items) => Ok(
                                                (
                                                    BsolBlock {
                                                        span,
                                                        attrs,
                                                        kind,
                                                        label,
                                                        schemaless_body: None,
                                                        items,
                                                    },
                                                    close,
                                                ),
                                            ),
                                        }
                                    }
                                },
                            }
                        },
                    }
                },
            }
        },
    }
}

pub open spec fn item_res(r: Result<Option<(BsolItem, usize)>, BsolError>) -> Result<Option<(SItem, int)>, SError> {
    match r {
        Ok(Some((it, e))) => Ok(Some((it@, e as int))),
        Ok(None) => Ok(None),
        Err(x) => Err(x@),
    }
}

#[verifier::rlimit(100)]
fn exec_item_at(src: &Source, c1: usize, end: usize) -> (r: Result<Option<(BsolItem, usize)>, BsolError>)
    requires
        at(src, c1),
        c1 < end <= src.b().len(),
        bnd(src.b(), end as int),
        skip_ws(src.b(), c1 as int) == c1,
    ensures
        item_res(r) == item_at(src.b(), c1 as int, end as int),
        r matches Ok(Some((_, e))) ==> c1 < e <= end && bnd(src.b(), e as int),
    decreases src.b().len() - c1, 5int,
{
    let s = src.bytes;
    let n = s.len();
    proof {
        reveal_with_fuel(item_at, 1);
    }
    match exec_read_attrs(src, c1) {
        Err(e) => Err(e),
        Ok((attrs, c2)) => {
            let c3 = scan_skip_ws(src, c2);
            match scan_ident(src, c3) {
                None => Ok(None),
                Some(ke) => {
                    let c4 = scan_skip_ws(src, ke);
                    let ghost av = view_attrs(attrs@);
                    if c4 < n && s[c4] == EQUALS {
                        proof {
                            lemma_item_at_assignment(s@, c1 as int, end as int, av, c2 as int, ke as int);
                        }
                        match exec_assignment_end(src, c1, end) {
                            Err(e) => Err(e),
                            Ok(ae) => match exec_assignment_at(src, c1, ae, attrs) {
                                Err(e) => Err(e),
                                Ok(a) => Ok(Some((BsolItem::Assignment(a), ae))),
                            },
                        }
                    } else {
                        proof {
                            lemma_item_at_block(s@, c1 as int, end as int, av, c2 as int, ke as int);
                        }
                        match exec_block_at(src, c1) {
                            Err(e) => Err(e),
                            Ok((b, next)) => {
                                if next > end {
                                    proof {
                                        lemma_span_ok(s@, c1 as int, end as int);
                                    }
                                    Err(
                                        parse_error(
                                            src,
                                            c1,
                                            end,
                                            "nested block extends past enclosing body",
                                        ),
                                    )
                                } else {
                                    Ok(Some((BsolItem::Block(b), next)))
                                }
                            },
                        }
                    }
                },
            }
        },
    }
}

fn exec_items_from(src: &Source, c0: usize, end: usize) -> (r: Result<Vec<BsolItem>, BsolError>)
    requires
        at(src, c0),
        c0 <= end <= src.b().len(),
        bnd(src.b(), end as int),
    ensures
        items_res(r) == items_from(src.b(), c0 as int, end as int, Seq::empty()),
    decreases src.b().len() - c0, 6int,
{
    let s = src.bytes;
    let n = s.len();
    let mut acc: Vec<BsolItem> = Vec::new();
    let mut cur = c0;
    loop
        invariant
            at(src, cur),
            s@ == src.b(),
            n == s@.len(),
            c0 <= cur,
            end <= n,
            bnd(src.b(), end as int),
            items_from(s@, c0 as int, end as int, Seq::empty()) == items_from(
                s@,
                cur as int,
                end as int,
                view_items(acc@),
            ),
        decreases n - cur,
    {
        if cur >= end {
            return Ok(acc);
        }
        proof {
            lemma_prims(s@, cur as int);
            lemma_skip_ws_idem(s@, cur as int);
        }
        let c1 = scan_skip_ws(src, cur);
        if c1 >= end {
            return Ok(acc);
        }
        proof {
            lemma_items_from_step(s@, cur as int, end as int, view_items(acc@));
        }
        match exec_item_at(src, c1, end) {
            Err(e) => {
                return Err(e);
            },
            Ok(None) => {
                return Ok(acc);
            },
            Ok(Some((it, next))) => {
                proof {
                    lemma_view_items_push(acc@, it);
                }
                acc.push(it);
                cur = next;
            },
        }
    }
}

/// Does parsing `source` reach a top-level block whose "missing block kind" diagnostic cannot
/// be given a span?  (Then the parser has no located error to report.)
#[verifier::rlimit(40)]
pub fn has_unspannable_block_start(source: &str) -> (r: bool)
    ensures
        r == document_unspannable_from(source.spec_bytes(), 0),
{
    let src = Source::new(source);
    let s = src.bytes;
    let n = s.len();
    let mut cur: usize = 0;
    loop
        invariant
            at(&src, cur),
            s@ == src.b(),
            src.b() == source.spec_bytes(),
            n == s@.len(),
            document_unspannable_from(s@, 0) == document_unspannable_from(s@, cur as int),
        decreases n - cur,
    {
        if cur >= n {
            return false;
        }
        let c1 = scan_skip_ws(&src, cur);
        if c1 >= n {
            return false;
        }
        if block_start_is_unspannable(&src, c1) {
            return true;
        }
        match exec_block_at(&src, c1) {
            Err(_) => {
                return false;
            },
            Ok((_, next)) => {
                cur = next;
            },
        }
    }
}

fn block_start_is_unspannable(src: &Source, start: usize) -> (r: bool)
    requires
        at(src, start),
    ensures
        r == block_start_unspannable(src.b(), start as int),
{
    let s = src.bytes;
    let n = s.len();
    let c0 = scan_skip_ws(src, start);
    match exec_read_attrs(src, c0) {
        Err(_) => false,
        Ok((_, c1)) => {
            let ks = scan_skip_ws(src, c1);
            match scan_ident(src, ks) {
                Some(_) => false,
                None => {
                    if ks > start {
                        proof {
                            lemma_span_ok(s@, start as int, ks as int);
                        }
                        false
                    } else if start >= n {
                        false
                    } else {
                        let e = start + 1;
                        let ok = e == n || (s[e] & 0xc0u8) != 0x80u8;
                        proof {
                            if e < n {
                                let byte = s@[e as int];
                                assert((byte & 0xc0u8) == 0x80u8 <==> (0x80 <= byte <= 0xbf)) by (bit_vector);
                            }
                        }
                        !ok
                    }
                },
            }
        },
    }
}

/// Parse BSOL source into the generic document tree.
#[verifier::rlimit(40)]
pub fn parse_bsol_document(source: &str) -> (r: Result<BsolDocument, BsolError>)
    requires
        !document_unspannable_from(source.spec_bytes(), 0),
    ensures
        doc_res(r) == document_of(source.spec_bytes()),
{
    let src = Source::new(source);
    let s = src.bytes;
    let n = s.len();
    let mut blocks: Vec<BsolBlock> = Vec::new();
    let mut cur: usize = 0;
    loop
        invariant
            at(&src, cur),
            s@ == src.b(),
            src.b() == source.spec_bytes(),
            n == s@.len(),
            !document_unspannable_from(s@, cur as int),
            blocks_from(s@, 0, Seq::empty()) == blocks_from(s@, cur as int, view_blocks(blocks@)),
        decreases n - cur,
    {
        if cur >= n {
            return Ok(BsolDocument { blocks });
        }
        let c1 = scan_skip_ws(&src, cur);
        if c1 >= n {
            return Ok(BsolDocument { blocks });
        }
        match exec_block_at(&src, c1) {
            Err(e) => {
                return Err(e);
            },
            Ok((b, next)) => {
                proof {
                    lemma_view_blocks_push(blocks@, b);
                }
                blocks.push(b);
                cur = next;
            },
        }
    }
}

} // verus!
