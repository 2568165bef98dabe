//! Field type texts: `quoted`, `list[ident | u32]`, `map[quoted, loose]`, `ref(node)`, ...

use vstd::prelude::*;
use vstd::string::StrSliceExecFns;

use crate::schema::ValueType;
use crate::schema_view::{lemma_view_vtypes_push, view_vtype, view_vtypes, SVType};
use crate::text::{cat3, chars_of, owned, str_eq, sub_text, text_at};

verus! {

/// `char::is_whitespace`: the Unicode `White_Space` characters.
pub open spec fn is_ws_char(c: char) -> bool {
    ('\u{9}' <= c <= '\u{d}') || c == ' ' || c == '\u{85}' || c == '\u{a0}' || c == '\u{1680}'
        || ('\u{2000}' <= c <= '\u{200a}') || c == '\u{2028}' || c == '\u{2029}' || c
        == '\u{202f}' || c == '\u{205f}' || c == '\u{3000}'
}

pub fn ws_char(c: char) -> (r: bool)
    ensures
        r == is_ws_char(c),
{
    ('\u{9}' <= c && c <= '\u{d}') || c == ' ' || c == '\u{85}' || c == '\u{a0}' || c
        == '\u{1680}' || ('\u{2000}' <= c && c <= '\u{200a}') || c == '\u{2028}' || c
        == '\u{2029}' || c == '\u{202f}' || c == '\u{205f}' || c == '\u{3000}'
}

/// `str::trim_start`.
pub open spec fn trim_start(s: Seq<char>) -> Seq<char>
    decreases s.len(),
{
    if s.len() > 0 && is_ws_char(s[0]) {
        trim_start(s.drop_first())
    } else {
        s
    }
}

/// `str::trim_end`.
pub open spec fn trim_end(s: Seq<char>) -> Seq<char>
    decreases s.len(),
{
    if s.len() > 0 && is_ws_char(s.last()) {
        trim_end(s.drop_last())
    } else {
        s
    }
}

/// `str::trim`.
pub open spec fn trim(s: Seq<char>) -> Seq<char> {
    trim_end(trim_start(s))
}

/// Bounds of the trimmed text of `cs[a..b]`.
pub fn trim_range(cs: &Vec<char>, a: usize, b: usize) -> (r: (usize, usize))
    requires
        a <= b <= cs@.len(),
    ensures
        a <= r.0 <= r.1 <= b,
        cs@.subrange(r.0 as int, r.1 as int) == trim(cs@.subrange(a as int, b as int)),
{
    let mut i = a;
    while i < b && ws_char(cs[i])
        invariant
            a <= i <= b <= cs@.len(),
            trim_start(cs@.subrange(a as int, b as int)) == trim_start(
                cs@.subrange(i as int, b as int),
            ),
        decreases b - i,
    {
        proof {
            assert(cs@.subrange(i as int, b as int).drop_first() =~= cs@.subrange(
                i + 1,
                b as int,
            ));
        }
        i = i + 1;
    }
    let mut j = b;
    while j > i && ws_char(cs[j - 1])
        invariant
            a <= i <= j <= b <= cs@.len(),
            trim_end(cs@.subrange(i as int, b as int)) == trim_end(
                cs@.subrange(i as int, j as int),
            ),
        decreases j - i,
    {
        proof {
            assert(cs@.subrange(i as int, j as int).drop_last() =~= cs@.subrange(
                i as int,
                j - 1,
            ));
        }
        j = j - 1;
    }
    (i, j)
}

pub proof fn lemma_trim_ends_len(s: Seq<char>)
    ensures
        trim_start(s).len() <= s.len(),
        trim_end(s).len() <= s.len(),
    decreases s.len(),
{
    if s.len() > 0 {
        lemma_trim_ends_len(s.drop_first());
        lemma_trim_ends_len(s.drop_last());
    }
}

pub proof fn lemma_trim_len(s: Seq<char>)
    ensures
        trim(s).len() <= s.len(),
{
    lemma_trim_ends_len(s);
    lemma_trim_ends_len(trim_start(s));
}

/// Adds a trimmed part unless it is empty.
pub open spec fn push_part(acc: Seq<Seq<char>>, p: Seq<char>) -> Seq<Seq<char>> {
    if p.len() > 0 {
        acc.push(p)
    } else {
        acc
    }
}

/// Split at `|` outside brackets and parentheses, from position `i` with the current part
/// starting at `start`.
pub open spec fn union_scan(s: Seq<char>, i: int, depth: int, start: int, acc: Seq<Seq<char>>) -> Seq<
    Seq<char>,
>
    decreases s.len() - i,
{
    if i >= s.len() || i < 0 || start < 0 || start > i {
        push_part(acc, trim(s.subrange(start, s.len() as int)))
    } else {
        let c = s[i];
        if c == '[' || c == '(' {
            union_scan(s, i + 1, depth + 1, start, acc)
        } else if c == ']' || c == ')' {
            union_scan(s, i + 1, depth - 1, start, acc)
        } else if c == '|' && depth == 0 {
            union_scan(s, i + 1, depth, i + 1, push_part(acc, trim(s.subrange(start, i))))
        } else {
            union_scan(s, i + 1, depth, start, acc)
        }
    }
}

/// The members of a type union: the trimmed, non-empty `|`-separated parts at depth zero.
pub open spec fn union_parts(s: Seq<char>) -> Seq<Seq<char>> {
    union_scan(s, 0, 0, 0, Seq::empty())
}

/// Position of the first `c` in `s`, if any.
pub open spec fn first_char(s: Seq<char>, c: char, i: int) -> Option<int>
    decreases s.len() - i,
{
    if i < 0 || i >= s.len() {
        None
    } else if s[i] == c {
        Some(i)
    } else {
        first_char(s, c, i + 1)
    }
}

pub proof fn lemma_first_char(s: Seq<char>, c: char, i: int)
    ensures
        first_char(s, c, i) matches Some(k) ==> 0 <= i <= k < s.len() && s[k] == c,
        first_char(s, c, i) matches Some(k) ==> forall|j: int| i <= j < k ==> s[j] != c,
        first_char(s, c, i) is None ==> forall|j: int| 0 <= i <= j < s.len() ==> s[j] != c,
    decreases s.len() - i,
{
    if 0 <= i < s.len() && s[i] != c {
        lemma_first_char(s, c, i + 1);
    }
}

pub open spec fn starts_with(s: Seq<char>, p: Seq<char>) -> bool {
    p.len() <= s.len() && s.subrange(0, p.len() as int) == p
}

/// `ValueType::parse`: the type a field type text names, or the message why it names none.
pub open spec fn parse_vtype(t: Seq<char>) -> Result<SVType, Seq<char>>
    decreases t.len() + 1, 0int,
{
    let s = trim(t);
    proof {
        lemma_trim_len(t);
    }
    if s == "quoted"@ {
        Ok(SVType::Quoted)
    } else if s == "ident"@ {
        Ok(SVType::Ident)
    } else if s == "u32"@ {
        Ok(SVType::U32)
    } else if s == "i64"@ {
        Ok(SVType::I64)
    } else if s == "f64"@ {
        Ok(SVType::F64)
    } else if s == "bool"@ {
        Ok(SVType::Bool)
    } else if s == "path"@ {
        Ok(SVType::Path)
    } else if s == "list"@ {
        Ok(SVType::List)
    } else if s == "loose"@ {
        Ok(SVType::Loose)
    } else if s == "enum_or_quoted"@ {
        Err("enum_or_quoted requires values in field block"@)
    } else if starts_with(s, "list["@) {
        let inner = s.subrange("list["@.len() as int, s.len() as int);
        if inner.len() == 0 || inner.last() != ']' {
            Err("unclosed list type"@)
        } else {
            match parse_vtypes(union_parts(inner.drop_last()), t.len() as int) {
                Err(e) => Err(e),
                Ok(v) => Ok(SVType::ListOf(v)),
            }
        }
    } else if starts_with(s, "map["@) {
        let inner = s.subrange("map["@.len() as int, s.len() as int);
        if inner.len() == 0 || inner.last() != ']' {
            Err("unclosed map type"@)
        } else {
            let body = inner.drop_last();
            proof {
                lemma_first_char(body, ',', 0);
            }
            match first_char(body, ',', 0) {
                None => Err("map type requires key, value pair"@),
                Some(c) => match {
                    proof {
                        lemma_trim_len(body.subrange(0, c));
                        lemma_trim_len(body.subrange(c + 1, body.len() as int));
                    }
                    parse_vtype(trim(body.subrange(0, c)))
                } {
                    Err(e) => Err(e),
                    Ok(k) => match parse_vtype(trim(body.subrange(c + 1, body.len() as int))) {
                        Err(e) => Err(e),
                        Ok(v) => Ok(SVType::MapOf { key: Box::new(k), value: Box::new(v) }),
                    },
                },
            }
        }
    } else if starts_with(s, "ref("@) {
        let inner = s.subrange("ref("@.len() as int, s.len() as int);
        if inner.len() == 0 || inner.last() != ')' {
            Err("unclosed ref type"@)
        } else {
            Ok(SVType::RefTo(inner.drop_last()))
        }
    } else if starts_with(s, "inline("@) {
        let inner = s.subrange("inline("@.len() as int, s.len() as int);
        if inner.len() == 0 || inner.last() != ')' {
            Err("unclosed inline type"@)
        } else {
            Ok(SVType::Inline(inner.drop_last()))
        }
    } else {
        Err("unknown field type `"@ + s + "`"@)
    }
}

/// Each member type in turn; the first failure is the result.  (Members are shorter than the
/// text they come from, which `bound` records.)
pub open spec fn parse_vtypes(parts: Seq<Seq<char>>, bound: int) -> Result<Seq<SVType>, Seq<char>>
    decreases bound, parts.len(),
{
    if parts.len() == 0 {
        Ok(Seq::empty())
    } else if parts[0].len() >= bound {
        Err(Seq::empty())
    } else {
        match parse_vtype(parts[0]) {
            Err(e) => Err(e),
            Ok(t) => match parse_vtypes(parts.drop_first(), bound) {
                Err(e) => Err(e),
                Ok(rest) => Ok(seq![t] + rest),
            },
        }
    }
}

/// Is `cs[x..y]` exactly the text `lit`?
pub fn range_is(cs: &Vec<char>, x: usize, y: usize, lit: &str) -> (r: bool)
    requires
        x <= y <= cs@.len(),
    ensures
        r == (cs@.subrange(x as int, y as int) == lit@),
{
    let l = lit.unicode_len();
    if l != y - x {
        return false;
    }
    let r = text_at(cs, x, lit);
    proof {
        if r {
            assert(cs@.subrange(x as int, y as int) =~= cs@.subrange(x as int, x + lit@.len()));
        }
    }
    r
}

/// Does `cs[x..y]` start with `lit`?  Returns the length of `lit` when it does.
pub fn range_starts(cs: &Vec<char>, x: usize, y: usize, lit: &str) -> (r: Option<usize>)
    requires
        x <= y <= cs@.len(),
    ensures
        r is Some == starts_with(cs@.subrange(x as int, y as int), lit@),
        r matches Some(l) ==> l == lit@.len(),
{
    let l = lit.unicode_len();
    if l > y - x {
        return None;
    }
    if text_at(cs, x, lit) {
        proof {
            assert(cs@.subrange(x as int, y as int).subrange(0, l as int) =~= cs@.subrange(
                x as int,
                x + l,
            ));
        }
        Some(l)
    } else {
        proof {
            assert(cs@.subrange(x as int, y as int).subrange(0, l as int) =~= cs@.subrange(
                x as int,
                x + l,
            ));
        }
        None
    }
}

pub open spec fn ranges_text(cs: Seq<char>, r: Seq<(usize, usize)>) -> Seq<Seq<char>> {
    r.map_values(|p: (usize, usize)| cs.subrange(p.0 as int, p.1 as int))
}

/// The member ranges of the union text `cs[a..b]`.
pub fn split_union(cs: &Vec<char>, a: usize, b: usize) -> (r: Vec<(usize, usize)>)
    requires
        a <= b <= cs@.len(),
    ensures
        ranges_text(cs@, r@) == union_parts(cs@.subrange(a as int, b as int)),
        forall|k: int| 0 <= k < r@.len() ==> a <= (#[trigger] r@[k]).0 <= r@[k].1 <= b,
{
    let ghost sub = cs@.subrange(a as int, b as int);
    let mut out: Vec<(usize, usize)> = Vec::new();
    let mut depth: i128 = 0;
    let mut start = a;
    let mut i = a;
    proof {
        assert(ranges_text(cs@, out@) =~= Seq::<Seq<char>>::empty());
    }
    while i < b
        invariant
            a <= start <= i <= b <= cs@.len(),
            sub == cs@.subrange(a as int, b as int),
            -(i as int) <= depth <= i as int,
            union_parts(sub) == union_scan(
                sub,
                i - a,
                depth as int,
                start - a,
                ranges_text(cs@, out@),
            ),
            forall|k: int| 0 <= k < out@.len() ==> a <= (#[trigger] out@[k]).0 <= out@[k].1 <= b,
        decreases b - i,
    {
        let c = cs[i];
        let ghost acc0 = ranges_text(cs@, out@);
        let ghost out0 = out@;
        proof {
            assert(sub[i - a] == c);
            assert(sub.len() == b - a);
        }
        if c == '[' || c == '(' {
            proof {
                assert(union_scan(sub, i - a, depth as int, start - a, acc0) == union_scan(
                    sub,
                    i - a + 1,
                    depth + 1,
                    start - a,
                    acc0,
                ));
            }
            depth = depth + 1;
        } else if c == ']' || c == ')' {
            proof {
                assert(union_scan(sub, i - a, depth as int, start - a, acc0) == union_scan(
                    sub,
                    i - a + 1,
                    depth - 1,
                    start - a,
                    acc0,
                ));
            }
            depth = depth - 1;
        } else if c == '|' && depth == 0 {
            let (x, y) = trim_range(cs, start, i);
            proof {
                assert(sub.subrange(start - a, i - a) =~= cs@.subrange(start as int, i as int));
                assert(union_scan(sub, i - a, depth as int, start - a, acc0) == union_scan(
                    sub,
                    i - a + 1,
                    depth as int,
                    i - a + 1,
                    push_part(acc0, cs@.subrange(x as int, y as int)),
                ));
            }
            if y > x {
                out.push((x, y));
                proof {
                    assert(ranges_text(cs@, out@) =~= ranges_text(cs@, out0).push(
                        cs@.subrange(x as int, y as int),
                    ));
                }
            }
            start = i + 1;
        } else {
            proof {
                assert(union_scan(sub, i - a, depth as int, start - a, acc0) == union_scan(
                    sub,
                    i - a + 1,
                    depth as int,
                    start - a,
                    acc0,
                ));
            }
        }
        i = i + 1;
    }
    let (x, y) = trim_range(cs, start, b);
    let ghost out0 = out@;
    proof {
        assert(sub.subrange(start - a, sub.len() as int) =~= cs@.subrange(start as int, b as int));
    }
    if y > x {
        out.push((x, y));
        proof {
            assert(ranges_text(cs@, out@) =~= ranges_text(cs@, out0).push(
                cs@.subrange(x as int, y as int),
            ));
        }
    }
    out
}

pub open spec fn vt_res(r: Result<ValueType, String>) -> Result<SVType, Seq<char>> {
    match r {
        Ok(v) => Ok(view_vtype(v)),
        Err(m) => Err(m@),
    }
}

/// Appends parsed member types to the result of parsing the rest.
pub open spec fn prepend_types(v: Seq<SVType>, r: Result<Seq<SVType>, Seq<char>>) -> Result<
    Seq<SVType>,
    Seq<char>,
> {
    match r {
        Ok(rest) => Ok(v + rest),
        Err(e) => Err(e),
    }
}

/// The type named by `cs[a..b]` (whose text is `src`'s).
pub fn parse_vtype_range(cs: &Vec<char>, src: &str, a: usize, b: usize) -> (r: Result<ValueType, String>)
    requires
        a <= b <= cs@.len(),
        src@ == cs@,
    ensures
        vt_res(r) == parse_vtype(cs@.subrange(a as int, b as int)),
    decreases b - a,
{
    let ghost t = cs@.subrange(a as int, b as int);
    let (x, y) = trim_range(cs, a, b);
    let ghost s = cs@.subrange(x as int, y as int);
    assert(s == trim(t));
    if range_is(cs, x, y, "quoted") {
        return Ok(ValueType::Quoted);
    }
    if range_is(cs, x, y, "ident") {
        return Ok(ValueType::Ident);
    }
    if range_is(cs, x, y, "u32") {
        return Ok(ValueType::U32);
    }
    if range_is(cs, x, y, "i64") {
        return Ok(ValueType::I64);
    }
    if range_is(cs, x, y, "f64") {
        return Ok(ValueType::F64);
    }
    if range_is(cs, x, y, "bool") {
        return Ok(ValueType::Bool);
    }
    if range_is(cs, x, y, "path") {
        return Ok(ValueType::Path);
    }
    if range_is(cs, x, y, "list") {
        return Ok(ValueType::List);
    }
    if range_is(cs, x, y, "loose") {
        return Ok(ValueType::Loose);
    }
    if range_is(cs, x, y, "enum_or_quoted") {
        return Err(owned("enum_or_quoted requires values in field block"));
    }
    match range_starts(cs, x, y, "list[") {
        Some(l) => {
            proof {
                assert(s.subrange(l as int, s.len() as int) =~= cs@.subrange(x + l, y as int));
            }
            if y - x == l || cs[y - 1] != ']' {
                return Err(owned("unclosed list type"));
            }
            proof {
                assert(s.subrange(l as int, s.len() as int).drop_last() =~= cs@.subrange(
                    x + l,
                    y - 1,
                ));
            }
            let parts = split_union(cs, x + l, y - 1);
            let ghost ps = ranges_text(cs@, parts@);
            let mut out: Vec<ValueType> = Vec::new();
            let mut k: usize = 0;
            proof {
                assert(parse_vtype(t) == match parse_vtypes(ps, t.len() as int) {
                    Err(e) => Err(e),
                    Ok(v) => Ok(SVType::ListOf(v)),
                });
                assert(ps.subrange(0, ps.len() as int) =~= ps);
                assert(view_vtypes(out@) =~= Seq::<SVType>::empty());
                match parse_vtypes(ps, t.len() as int) {
                    Ok(r2) => {
                        assert(Seq::<SVType>::empty() + r2 =~= r2);
                    },
                    Err(_) => {},
                }
            }
            while k < parts.len()
                invariant
                    t == cs@.subrange(a as int, b as int),
                    parse_vtype(t) == match parse_vtypes(ps, t.len() as int) {
                        Err(e) => Err(e),
                        Ok(v) => Ok(SVType::ListOf(v)),
                    },
                    a <= x,
                    y <= b <= cs@.len(),
                    src@ == cs@,
                    x + l <= y - 1,
                    ps == ranges_text(cs@, parts@),
                    forall|q: int|
                        0 <= q < parts@.len() ==> x + l <= (#[trigger] parts@[q]).0 <= parts@[q].1
                            <= y - 1,
                    k <= parts@.len(),
                    parse_vtypes(ps, t.len() as int) == prepend_types(
                        view_vtypes(out@),
                        parse_vtypes(ps.subrange(k as int, ps.len() as int), t.len() as int),
                    ),
                decreases parts.len() - k,
            {
                let (pa, pb) = parts[k];
                let ghost rest = ps.subrange(k as int, ps.len() as int);
                let ghost out0 = out@;
                proof {
                    assert(parts@[k as int] == (pa, pb));
                    assert(t.len() == b - a);
                    assert(rest[0] == cs@.subrange(pa as int, pb as int));
                    assert(rest.drop_first() =~= ps.subrange(k + 1, ps.len() as int));
                    assert(rest[0].len() < t.len());
                }
                match parse_vtype_range(cs, src, pa, pb) {
                    Err(e) => {
                        return Err(e);
                    },
                    Ok(vt) => {
                        proof {
                            lemma_view_vtypes_push(out@, vt);
                            assert(view_vtypes(out@) + (seq![view_vtype(vt)] + Seq::<SVType>::empty())
                                =~= view_vtypes(out@).push(view_vtype(vt)));
                        }
                        out.push(vt);
                        proof {
                            match parse_vtypes(ps.subrange(k + 1, ps.len() as int), t.len() as int) {
                                Ok(r2) => {
                                    assert(view_vtypes(out0) + (seq![view_vtype(vt)] + r2)
                                        =~= view_vtypes(out@) + r2);
                                },
                                Err(_) => {},
                            }
                        }
                    },
                }
                k = k + 1;
            }
            proof {
                assert(ps.subrange(k as int, ps.len() as int) =~= Seq::<Seq<char>>::empty());
                assert(view_vtypes(out@) + Seq::<SVType>::empty() =~= view_vtypes(out@));
            }
            return Ok(ValueType::ListOf(out));
        },
        None => {},
    }
    match range_starts(cs, x, y, "map[") {
        Some(l) => {
            proof {
                assert(s.subrange(l as int, s.len() as int) =~= cs@.subrange(x + l, y as int));
            }
            if y - x == l || cs[y - 1] != ']' {
                return Err(owned("unclosed map type"));
            }
            let ghost body = cs@.subrange(x + l, y - 1);
            proof {
                assert(s.subrange(l as int, s.len() as int).drop_last() =~= body);
                lemma_first_char(body, ',', 0);
            }
            let mut c = x + l;
            while c < y - 1 && cs[c] != ','
                invariant
                    x + l <= c <= y - 1,
                    y <= cs@.len(),
                    body == cs@.subrange(x + l, y - 1),
                    first_char(body, ',', 0) == first_char(body, ',', c - (x + l)),
                decreases y - 1 - c,
            {
                proof {
                    assert(body[c - (x + l)] == cs@[c as int]);
                }
                c = c + 1;
            }
            if c == y - 1 {
                return Err(owned("map type requires key, value pair"));
            }
            proof {
                assert(body[c - (x + l)] == cs@[c as int]);
                assert(body.subrange(0, c - (x + l)) =~= cs@.subrange(x + l, c as int));
                assert(body.subrange(c - (x + l) + 1, body.len() as int) =~= cs@.subrange(
                    c + 1,
                    y - 1,
                ));
            }
            let (ka, kb) = trim_range(cs, x + l, c);
            let (va, vb) = trim_range(cs, c + 1, y - 1);
            let key = match parse_vtype_range(cs, src, ka, kb) {
                Err(e) => {
                    return Err(e);
                },
                Ok(k) => k,
            };
            let value = match parse_vtype_range(cs, src, va, vb) {
                Err(e) => {
                    return Err(e);
                },
                Ok(v) => v,
            };
            return Ok(ValueType::MapOf { key: Box::new(key), value: Box::new(value) });
        },
        None => {},
    }
    match range_starts(cs, x, y, "ref(") {
        Some(l) => {
            proof {
                assert(s.subrange(l as int, s.len() as int) =~= cs@.subrange(x + l, y as int));
            }
            if y - x == l || cs[y - 1] != ')' {
                return Err(owned("unclosed ref type"));
            }
            proof {
                assert(s.subrange(l as int, s.len() as int).drop_last() =~= cs@.subrange(
                    x + l,
                    y - 1,
                ));
            }
            return Ok(ValueType::RefTo(sub_text(src, x + l, y - 1)));
        },
        None => {},
    }
    match range_starts(cs, x, y, "inline(") {
        Some(l) => {
            proof {
                assert(s.subrange(l as int, s.len() as int) =~= cs@.subrange(x + l, y as int));
            }
            if y - x == l || cs[y - 1] != ')' {
                return Err(owned("unclosed inline type"));
            }
            proof {
                assert(s.subrange(l as int, s.len() as int).drop_last() =~= cs@.subrange(
                    x + l,
                    y - 1,
                ));
            }
            return Ok(ValueType::Inline(sub_text(src, x + l, y - 1)));
        },
        None => {},
    }
    let shown = src.substring_char(x, y);
    Err(cat3("unknown field type `", shown, "`"))
}

/// Split the field type text `text` into its member types.
pub fn split_type_union(text: &str) -> (r: Vec<String>)
    ensures
        r@.map_values(|p: String| p@) == union_parts(text@),
{
    let cs = chars_of(text);
    let parts = split_union(&cs, 0, cs.len());
    let mut out: Vec<String> = Vec::new();
    let mut k: usize = 0;
    while k < parts.len()
        invariant
            cs@ == text@,
            k <= parts@.len(),
            forall|q: int| 0 <= q < parts@.len() ==> 0 <= (#[trigger] parts@[q]).0 <= parts@[q].1 <= cs@.len(),
            out@.len() == k,
            forall|q: int| 0 <= q < k ==> (#[trigger] out@[q])@ == cs@.subrange(parts@[q].0 as int, parts@[q].1 as int),
        decreases parts.len() - k,
    {
        let (pa, pb) = parts[k];
        out.push(sub_text(text, pa, pb));
        k = k + 1;
    }
    proof {
        assert(out@.map_values(|p: String| p@) =~= ranges_text(cs@, parts@));
        assert(cs@.subrange(0, cs@.len() as int) =~= cs@);
    }
    out
}

/// The value type a field type text names.
pub fn parse_value_type_text(text: &str) -> (r: Result<ValueType, String>)
    ensures
        vt_res(r) == parse_vtype(text@),
{
    let cs = chars_of(text);
    proof {
        assert(cs@.subrange(0, cs@.len() as int) =~= cs@);
    }
    parse_vtype_range(&cs, text, 0, cs.len())
}

impl ValueType {
    /// Parse a field type text such as `list[ident | u32]`.
    pub fn parse(text: &str) -> (r: Result<Self, String>)
        ensures
            vt_res(r) == parse_vtype(text@),
    {
        parse_value_type_text(text)
    }
}

} // verus!
