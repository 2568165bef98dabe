//! Reading assignment values as the field types ask: coercions and value constraints.

use vstd::prelude::*;

use crate::ast::{
    bool_text, preview_text, ref_text, view_list_items, BsolAssignment, BsolBlock, BsolInlineMap,
    BsolListItem, BsolRef, BsolSpan, BsolValue, SAssign, SBlock, SListItem, SMap, SRef, SValue,
};
use crate::error::{schema_err, BsolError, SError};
use crate::numbers::{is_digit_char, parse_i64_text};
use crate::schema::has_text;
use crate::schema_view::texts;
use crate::text::{cat3, chars_of, join2, owned, string_is, text_at};

verus! {

broadcast use crate::ast::group_ast_views;

pub open spec fn found(what: Seq<char>, v: SValue) -> Seq<char> {
    "expected "@ + what + ", found `"@ + preview_text(v) + "`"@
}

pub fn found_msg(what: &str, v: &BsolValue) -> (r: String)
    ensures
        r@ == found(what@, v@),
{
    let p = v.preview();
    let a = cat3("expected ", what, ", found `");
    join2(join2(a, p.as_str()), "`")
}

pub open spec fn text_res(r: Result<String, BsolError>) -> Result<Seq<char>, SError> {
    match r {
        Ok(s) => Ok(s@),
        Err(e) => Err(e@),
    }
}

pub open spec fn require_quoted_s(a: SAssign) -> Result<Seq<char>, SError> {
    match a.value {
        SValue::QuotedString(q) => Ok(q.value),
        other => Err(schema_err(a.span, found("quoted string"@, other))),
    }
}

pub fn require_quoted(a: &BsolAssignment) -> (r: Result<String, BsolError>)
    ensures
        text_res(r) == require_quoted_s(a@),
{
    match &a.value {
        BsolValue::QuotedString(q) => Ok(q.value.clone()),
        other => Err(BsolError::schema_at(a.span, found_msg("quoted string", other))),
    }
}

pub open spec fn require_ident_s(a: SAssign) -> Result<Seq<char>, SError> {
    match a.value {
        SValue::Ident(i) => Ok(i),
        SValue::QuotedString(q) => Ok(q.value),
        other => Err(schema_err(a.span, found("identifier"@, other))),
    }
}

pub fn require_ident(a: &BsolAssignment) -> (r: Result<String, BsolError>)
    ensures
        text_res(r) == require_ident_s(a@),
{
    match &a.value {
        BsolValue::Ident(i) => Ok(i.clone()),
        BsolValue::QuotedString(q) => Ok(q.value.clone()),
        other => Err(BsolError::schema_at(a.span, found_msg("identifier", other))),
    }
}

pub open spec fn ascii_digits(s: Seq<char>) -> bool {
    forall|i: int| 0 <= i < s.len() ==> is_digit_char(#[trigger] s[i])
}

pub fn all_ascii_digits(s: &String) -> (r: bool)
    ensures
        r == ascii_digits(s@),
{
    let cs = chars_of(s.as_str());
    let mut i: usize = 0;
    while i < cs.len()
        invariant
            cs@ == s@,
            i <= cs@.len(),
            forall|j: int| 0 <= j < i ==> is_digit_char(#[trigger] cs@[j]),
        decreases cs.len() - i,
    {
        if !('0' <= cs[i] && cs[i] <= '9') {
            return false;
        }
        i = i + 1;
    }
    true
}

pub open spec fn require_u32_s(a: SAssign) -> Result<Seq<char>, SError> {
    match a.value {
        SValue::Ident(t) => if ascii_digits(t) {
            Ok(t)
        } else {
            Err(schema_err(a.span, found("positive integer"@, a.value)))
        },
        other => Err(schema_err(a.span, found("positive integer"@, other))),
    }
}

pub fn require_u32(a: &BsolAssignment) -> (r: Result<String, BsolError>)
    ensures
        text_res(r) == require_u32_s(a@),
{
    match &a.value {
        BsolValue::Ident(t) => {
            if all_ascii_digits(t) {
                Ok(t.clone())
            } else {
                Err(BsolError::schema_at(a.span, found_msg("positive integer", &a.value)))
            }
        },
        other => Err(BsolError::schema_at(a.span, found_msg("positive integer", other))),
    }
}

pub open spec fn require_i64_s(a: SAssign) -> Result<Seq<char>, SError> {
    match a.value {
        SValue::Ident(t) => if parse_i64_text(t) is Some {
            Ok(t)
        } else {
            Err(schema_err(a.span, found("integer"@, a.value)))
        },
        other => Err(schema_err(a.span, found("integer"@, other))),
    }
}

pub fn require_i64(a: &BsolAssignment) -> (r: Result<String, BsolError>)
    ensures
        text_res(r) == require_i64_s(a@),
{
    match &a.value {
        BsolValue::Ident(t) => {
            if crate::numbers::parse_i64(&chars_of(t.as_str())).is_some() {
                Ok(t.clone())
            } else {
                Err(BsolError::schema_at(a.span, found_msg("integer", &a.value)))
            }
        },
        other => Err(BsolError::schema_at(a.span, found_msg("integer", other))),
    }
}

// --- floating-point literals -------------------------------------------------

/// End of the run of ASCII digits starting at `i`.
pub open spec fn digit_run(s: Seq<char>, i: int) -> int
    decreases s.len() - i,
{
    if 0 <= i < s.len() && is_digit_char(s[i]) {
        digit_run(s, i + 1)
    } else {
        i
    }
}

pub proof fn lemma_digit_run(s: Seq<char>, i: int)
    requires
        0 <= i <= s.len(),
    ensures
        i <= digit_run(s, i) <= s.len(),
    decreases s.len() - i,
{
    if i < s.len() && is_digit_char(s[i]) {
        lemma_digit_run(s, i + 1);
    }
}

/// An optional exponent `e` / `E`, optional sign, digits, ending the text.
pub open spec fn exponent_ok(s: Seq<char>, i: int) -> bool {
    if i == s.len() {
        true
    } else if 0 <= i < s.len() && (s[i] == 'e' || s[i] == 'E') {
        let j = if i + 1 < s.len() && (s[i + 1] == '+' || s[i + 1] == '-') {
            i + 2
        } else {
            i + 1
        };
        let k = digit_run(s, j);
        k > j && k == s.len()
    } else {
        false
    }
}

/// `Digit+ | Digit+ '.' Digit* | Digit* '.' Digit+`, then an optional exponent.
pub open spec fn decimal_number_ok(s: Seq<char>, i: int) -> bool {
    let a = digit_run(s, i);
    if a < s.len() && s[a] == '.' {
        let b = digit_run(s, a + 1);
        (a - i) + (b - (a + 1)) >= 1 && exponent_ok(s, b)
    } else {
        a > i && exponent_ok(s, a)
    }
}

pub open spec fn lower_char(c: char) -> char {
    if 'A' <= c <= 'Z' {
        ((c as int) + 32) as char
    } else {
        c
    }
}

/// `s[i..]`, lowercased, is `word` (which is lowercase).
pub open spec fn word_ci(s: Seq<char>, i: int, word: Seq<char>) -> bool {
    0 <= i && i + word.len() == s.len() && forall|k: int|
        0 <= k < word.len() ==> lower_char(#[trigger] s[i + k]) == word[k]
}

/// `f64::from_str` accepts the text: an optional sign, then `inf`, `infinity`, `nan` (in any
/// case) or a decimal number.
pub open spec fn is_f64_text(s: Seq<char>) -> bool {
    let i = if s.len() > 0 && (s[0] == '+' || s[0] == '-') {
        1int
    } else {
        0int
    };
    word_ci(s, i, "inf"@) || word_ci(s, i, "infinity"@) || word_ci(s, i, "nan"@)
        || decimal_number_ok(s, i)
}

fn digit_run_exec(cs: &Vec<char>, i: usize) -> (r: usize)
    requires
        i <= cs@.len(),
    ensures
        r == digit_run(cs@, i as int),
{
    let mut j = i;
    while j < cs.len() && '0' <= cs[j] && cs[j] <= '9'
        invariant
            i <= j <= cs@.len(),
            digit_run(cs@, i as int) == digit_run(cs@, j as int),
        decreases cs.len() - j,
    {
        j = j + 1;
    }
    j
}

fn exponent_ok_exec(cs: &Vec<char>, i: usize) -> (r: bool)
    requires
        i <= cs@.len(),
    ensures
        r == exponent_ok(cs@, i as int),
{
    if i == cs.len() {
        return true;
    }
    if cs[i] == 'e' || cs[i] == 'E' {
        let j = if i + 1 < cs.len() && (cs[i + 1] == '+' || cs[i + 1] == '-') {
            i + 2
        } else {
            i + 1
        };
        let k = digit_run_exec(cs, j);
        k > j && k == cs.len()
    } else {
        false
    }
}

fn word_ci_exec(cs: &Vec<char>, i: usize, word: &str) -> (r: bool)
    requires
        i <= cs@.len(),
        forall|k: int| 0 <= k < word@.len() ==> 'a' <= #[trigger] word@[k] <= 'z',
    ensures
        r == word_ci(cs@, i as int, word@),
{
    let w = chars_of(word);
    if w.len() != cs.len() - i {
        return false;
    }
    let mut k: usize = 0;
    while k < w.len()
        invariant
            w@ == word@,
            forall|q: int| 0 <= q < word@.len() ==> 'a' <= #[trigger] word@[q] <= 'z',
            i + w@.len() == cs@.len(),
            i + w.len() == cs.len(),
            k <= w@.len(),
            forall|q: int| 0 <= q < k ==> lower_char(#[trigger] cs@[i + q]) == w@[q],
        decreases w.len() - k,
    {
        let c = cs[i + k];
        let l = w[k];
        let same = (c as u32) == (l as u32) || (l as u32 >= 32 && (c as u32) == (l as u32) - 32);
        proof {
            assert('a' <= w@[k as int] <= 'z');
            assert(cs@[i + k] == c);
        }
        if !same {
            return false;
        }
        k = k + 1;
    }
    true
}

/// Does `f64::from_str` accept `s`?
pub fn f64_text(s: &String) -> (r: bool)
    ensures
        r == is_f64_text(s@),
{
    let cs = chars_of(s.as_str());
    let i: usize = if cs.len() > 0 && (cs[0] == '+' || cs[0] == '-') { 1 } else { 0 };
    proof {
        reveal_strlit("inf");
        reveal_strlit("infinity");
        reveal_strlit("nan");
    }
    if word_ci_exec(&cs, i, "inf") || word_ci_exec(&cs, i, "infinity") || word_ci_exec(&cs, i, "nan") {
        return true;
    }
    proof {
        lemma_digit_run(cs@, i as int);
    }
    let a = digit_run_exec(&cs, i);
    if a < cs.len() && cs[a] == '.' {
        proof {
            lemma_digit_run(cs@, a + 1);
        }
        let b = digit_run_exec(&cs, a + 1);
        (a - i) + (b - (a + 1)) >= 1 && exponent_ok_exec(&cs, b)
    } else {
        a > i && exponent_ok_exec(&cs, a)
    }
}

pub open spec fn require_f64_s(a: SAssign) -> Result<Seq<char>, SError> {
    match a.value {
        SValue::Ident(t) => if is_f64_text(t) {
            Ok(t)
        } else {
            Err(schema_err(a.span, found("float"@, a.value)))
        },
        other => Err(schema_err(a.span, found("float"@, other))),
    }
}

pub fn require_f64(a: &BsolAssignment) -> (r: Result<String, BsolError>)
    ensures
        text_res(r) == require_f64_s(a@),
{
    match &a.value {
        BsolValue::Ident(t) => {
            if f64_text(t) {
                Ok(t.clone())
            } else {
                Err(BsolError::schema_at(a.span, found_msg("float", &a.value)))
            }
        },
        other => Err(BsolError::schema_at(a.span, found_msg("float", other))),
    }
}

pub open spec fn require_bool_s(a: SAssign) -> Result<bool, SError> {
    match a.value {
        SValue::Bool(b) => Ok(b),
        SValue::Ident(i) => if i == "true"@ || i == "false"@ {
            Ok(i == "true"@)
        } else {
            Err(schema_err(a.span, found("bool"@, a.value)))
        },
        other => Err(schema_err(a.span, found("bool"@, other))),
    }
}

pub fn require_bool(a: &BsolAssignment) -> (r: Result<bool, BsolError>)
    ensures
        match r {
            Ok(b) => require_bool_s(a@) == Ok::<bool, SError>(b),
            Err(e) => require_bool_s(a@) == Err::<bool, SError>(e@),
        },
{
    match &a.value {
        BsolValue::Bool(b) => Ok(*b),
        BsolValue::Ident(i) => {
            if string_is(i, "true") || string_is(i, "false") {
                Ok(string_is(i, "true"))
            } else {
                Err(BsolError::schema_at(a.span, found_msg("bool", &a.value)))
            }
        },
        other => Err(BsolError::schema_at(a.span, found_msg("bool", other))),
    }
}

pub open spec fn loose_s(a: SAssign) -> Result<Seq<char>, SError> {
    match a.value {
        SValue::QuotedString(q) => Ok(q.value),
        SValue::Ident(i) => Ok(i),
        SValue::Bool(b) => Ok(bool_text(b)),
        other => Err(schema_err(a.span, found("string or identifier"@, other))),
    }
}

pub fn loose_string(a: &BsolAssignment) -> (r: Result<String, BsolError>)
    ensures
        text_res(r) == loose_s(a@),
{
    match &a.value {
        BsolValue::QuotedString(q) => Ok(q.value.clone()),
        BsolValue::Ident(i) => Ok(i.clone()),
        BsolValue::Bool(b) => Ok(crate::ast::bool_string(*b)),
        other => Err(BsolError::schema_at(a.span, found_msg("string or identifier", other))),
    }
}

pub open spec fn list_token(it: SListItem, span: BsolSpan) -> Result<Seq<char>, SError> {
    match it {
        SListItem::Default => Ok("default"@),
        SListItem::QuotedString(q) => Ok(q.value),
        SListItem::Ident(i) => Ok(i),
        SListItem::Bool(b) => Ok(bool_text(b)),
        SListItem::Ref(r) => Ok(ref_text(r)),
        _ => Err(schema_err(span, "expected flat list item"@)),
    }
}

pub open spec fn list_tokens(items: Seq<SListItem>, span: BsolSpan) -> Result<Seq<Seq<char>>, SError>
    decreases items.len(),
{
    if items.len() == 0 {
        Ok(Seq::empty())
    } else {
        match list_token(items[0], span) {
            Err(e) => Err(e),
            Ok(t) => match list_tokens(items.drop_first(), span) {
                Err(e) => Err(e),
                Ok(rest) => Ok(seq![t] + rest),
            },
        }
    }
}

pub open spec fn require_list_strings_s(a: SAssign) -> Result<Seq<Seq<char>>, SError> {
    match a.value {
        SValue::BracketList(l) => list_tokens(l.items, a.span),
        _ => Err(schema_err(a.span, "expected bracket list"@)),
    }
}

pub open spec fn prepend_tokens(v: Seq<Seq<char>>, r: Result<Seq<Seq<char>>, SError>) -> Result<Seq<Seq<char>>, SError> {
    match r {
        Ok(rest) => Ok(v + rest),
        Err(e) => Err(e),
    }
}

pub fn require_list_strings(a: &BsolAssignment) -> (r: Result<Vec<String>, BsolError>)
    ensures
        match r {
            Ok(v) => require_list_strings_s(a@) == Ok::<Seq<Seq<char>>, SError>(texts(v@)),
            Err(e) => require_list_strings_s(a@) == Err::<Seq<Seq<char>>, SError>(e@),
        },
{
    match &a.value {
        BsolValue::BracketList(list) => {
            let ghost vs = view_list_items(list.items@);
            let mut out: Vec<String> = Vec::new();
            let mut i: usize = 0;
            proof {
                assert(vs.subrange(0, vs.len() as int) =~= vs);
                assert(texts(out@) =~= Seq::<Seq<char>>::empty());
                match list_tokens(vs, a.span) {
                    Ok(r2) => {
                        assert(Seq::<Seq<char>>::empty() + r2 =~= r2);
                    },
                    Err(_) => {},
                }
            }
            while i < list.items.len()
                invariant
                    vs == view_list_items(list.items@),
                    require_list_strings_s(a@) == list_tokens(vs, a.span),
                    i <= vs.len(),
                    list_tokens(vs, a.span) == prepend_tokens(texts(out@), list_tokens(vs.subrange(i as int, vs.len() as int), a.span)),
                decreases list.items.len() - i,
            {
                let ghost rest = vs.subrange(i as int, vs.len() as int);
                let ghost out0 = out@;
                proof {
                    assert(rest[0] == vs[i as int]);
                    assert(rest.drop_first() =~= vs.subrange(i + 1, vs.len() as int));
                }
                let token = match &list.items[i] {
                    BsolListItem::Default => owned("default"),
                    BsolListItem::QuotedString(q) => q.value.clone(),
                    BsolListItem::Ident(s) => s.clone(),
                    BsolListItem::Bool(b) => crate::ast::bool_string(*b),
                    BsolListItem::Ref(r) => r.display(),
                    _ => {
                        return Err(BsolError::schema_at(a.span, owned("expected flat list item")));
                    },
                };
                out.push(token);
                proof {
                    assert(texts(out@) =~= texts(out0).push(token@));
                    match list_tokens(vs.subrange(i + 1, vs.len() as int), a.span) {
                        Ok(r2) => {
                            assert(texts(out0) + (seq![token@] + r2) =~= texts(out@) + r2);
                        },
                        Err(_) => {},
                    }
                }
                i = i + 1;
            }
            proof {
                assert(vs.subrange(i as int, vs.len() as int) =~= Seq::<SListItem>::empty());
                assert(texts(out@) + Seq::<Seq<char>>::empty() =~= texts(out@));
            }
            Ok(out)
        },
        _ => Err(BsolError::schema_at(a.span, owned("expected bracket list"))),
    }
}

/// A quoted string is accepted whatever `allowed` holds; an identifier or boolean must be one of
/// the `allowed` values (any, when none is listed).
pub open spec fn enum_or_quoted_s(a: SAssign, allowed: Seq<Seq<char>>) -> Result<Seq<char>, SError> {
    let v = match a.value {
        SValue::QuotedString(q) => Ok(q.value),
        SValue::Ident(i) => Ok(i),
        SValue::Bool(b) => Ok(bool_text(b)),
        other => Err(schema_err(a.span, found("quoted string or enum literal"@, other))),
    };
    match v {
        Err(e) => Err(e),
        Ok(value) => if a.value is QuotedString || allowed.len() == 0 || allowed.contains(value) {
            Ok(value)
        } else {
            Err(schema_err(a.span, "unsupported enum value `"@ + value + "`"@))
        },
    }
}

pub proof fn lemma_has_text(s: Seq<String>, k: Seq<char>)
    ensures
        has_text(s, k) == texts(s).contains(k),
{
    if has_text(s, k) {
        let i = choose|i: int| 0 <= i < s.len() && #[trigger] s[i]@ == k;
        assert(texts(s)[i] == k);
    }
    if texts(s).contains(k) {
        let i = choose|i: int| 0 <= i < texts(s).len() && texts(s)[i] == k;
        assert(s[i]@ == k);
    }
}

pub fn enum_or_quoted(a: &BsolAssignment, allowed: &Vec<String>) -> (r: Result<String, BsolError>)
    ensures
        text_res(r) == enum_or_quoted_s(a@, texts(allowed@)),
{
    let (value, quoted) = match &a.value {
        BsolValue::QuotedString(q) => (q.value.clone(), true),
        BsolValue::Ident(i) => (i.clone(), false),
        BsolValue::Bool(b) => (crate::ast::bool_string(*b), false),
        other => {
            return Err(
                BsolError::schema_at(a.span, found_msg("quoted string or enum literal", other)),
            );
        },
    };
    proof {
        lemma_has_text(allowed@, value@);
    }
    if quoted || allowed.len() == 0 || crate::schema::contains_text(allowed, value.as_str()) {
        Ok(value)
    } else {
        Err(BsolError::schema_at(a.span, cat3("unsupported enum value `", value.as_str(), "`")))
    }
}

// --- structured values ---------------------------------------------------------

pub open spec fn inline_block_s(a: SAssign) -> Result<SBlock, SError> {
    match a.value {
        SValue::BracketList(l) => if l.items.len() > 0 && l.items[0] is InlineBlock {
            Ok(l.items[0]->InlineBlock_0)
        } else {
            Err(schema_err(a.span, "expected inline block"@))
        },
        other => Err(schema_err(a.span, found("inline block"@, other))),
    }
}

pub fn require_inline_block(a: &BsolAssignment) -> (r: Result<&BsolBlock, BsolError>)
    ensures
        match r {
            Ok(b) => inline_block_s(a@) == Ok::<SBlock, SError>(b@),
            Err(e) => inline_block_s(a@) == Err::<SBlock, SError>(e@),
        },
{
    match &a.value {
        BsolValue::BracketList(list) => {
            if list.items.len() > 0 {
                match &list.items[0] {
                    BsolListItem::InlineBlock(b) => {
                        return Ok(b);
                    },
                    _ => {},
                }
            }
            Err(BsolError::schema_at(a.span, owned("expected inline block")))
        },
        other => Err(BsolError::schema_at(a.span, found_msg("inline block", other))),
    }
}

// --- constraints -----------------------------------------------------------------

/// `t` holds `q` as a substring.
pub open spec fn has_substring(t: Seq<char>, q: Seq<char>) -> bool {
    exists|i: int| 0 <= i && i + q.len() <= t.len() && #[trigger] t.subrange(i, i + q.len()) == q
}

pub fn substring_in(t: &Vec<char>, q: &Vec<char>) -> (r: bool)
    ensures
        r == has_substring(t@, q@),
{
    if q.len() > t.len() {
        return false;
    }
    let limit = t.len() - q.len();
    let mut i: usize = 0;
    loop
        invariant
            q@.len() <= t@.len(),
            limit + q.len() == t.len(),
            t.len() == t@.len(),
            q.len() == q@.len(),
            i <= limit,
            forall|k: int| 0 <= k < i ==> #[trigger] t@.subrange(k, k + q@.len()) != q@,
        decreases limit - i,
    {
        let mut j: usize = 0;
        let mut ok = true;
        while j < q.len()
            invariant
                q@.len() <= t@.len(),
                limit + q.len() == t.len(),
                t.len() == t@.len(),
                q.len() == q@.len(),
                i <= limit,
                j <= q@.len(),
                ok ==> forall|m: int| 0 <= m < j ==> t@[i + m] == q@[m],
                !ok ==> t@.subrange(i as int, i + q@.len()) != q@,
            decreases q.len() - j,
        {
            if t[i + j] != q[j] {
                proof {
                    assert(t@.subrange(i as int, i + q@.len())[j as int] == t@[i + j]);
                }
                ok = false;
            }
            j = j + 1;
        }
        if ok {
            proof {
                assert(t@.subrange(i as int, i + q@.len()) =~= q@);
            }
            return true;
        }
        if i == limit {
            return false;
        }
        i = i + 1;
    }
}

/// `str::trim_matches(c)`: `s` without every leading and trailing `c`.
pub open spec fn trim_char_start(s: Seq<char>, c: char) -> Seq<char>
    decreases s.len(),
{
    if s.len() > 0 && s[0] == c {
        trim_char_start(s.drop_first(), c)
    } else {
        s
    }
}

pub open spec fn trim_char_end(s: Seq<char>, c: char) -> Seq<char>
    decreases s.len(),
{
    if s.len() > 0 && s.last() == c {
        trim_char_end(s.drop_last(), c)
    } else {
        s
    }
}

pub open spec fn trim_char(s: Seq<char>, c: char) -> Seq<char> {
    trim_char_end(trim_char_start(s, c), c)
}

fn trim_char_vec(s: Vec<char>, c: char) -> (r: Vec<char>)
    ensures
        r@ == trim_char(s@, c),
{
    let mut a: usize = 0;
    proof {
        assert(s@.subrange(0, s@.len() as int) =~= s@);
    }
    while a < s.len() && s[a] == c
        invariant
            a <= s@.len(),
            trim_char_start(s@, c) == trim_char_start(s@.subrange(a as int, s@.len() as int), c),
        decreases s.len() - a,
    {
        proof {
            assert(s@.subrange(a as int, s@.len() as int).drop_first() =~= s@.subrange(a + 1, s@.len() as int));
        }
        a = a + 1;
    }
    proof {
        assert(trim_char_start(s@, c) == s@.subrange(a as int, s@.len() as int));
    }
    let mut b: usize = s.len();
    while b > a && s[b - 1] == c
        invariant
            a <= b <= s@.len(),
            trim_char(s@, c) == trim_char_end(s@.subrange(a as int, b as int), c),
        decreases b - a,
    {
        proof {
            assert(s@.subrange(a as int, b as int).drop_last() =~= s@.subrange(a as int, b - 1));
        }
        b = b - 1;
    }
    let mut out: Vec<char> = Vec::new();
    let mut k = a;
    while k < b
        invariant
            a <= k <= b <= s@.len(),
            out@ == s@.subrange(a as int, k as int),
        decreases b - k,
    {
        out.push(s[k]);
        k = k + 1;
        proof {
            assert(out@ =~= s@.subrange(a as int, k as int));
        }
    }
    out
}

/// The simplified pattern check: `^...$` patterns that mention `[0-9]` accept non-empty
/// texts of digits, `.` and `-`; any other pattern, stripped of `^` and `$`, must occur in the
/// text.
pub open spec fn pattern_matches(p: Seq<char>, t: Seq<char>) -> bool {
    if p.len() > 0 && p[0] == '^' && p.last() == '$' && has_substring(
        p.subrange(1, p.len() - 1),
        "[0-9]"@,
    ) {
        t.len() > 0 && forall|i: int|
            0 <= i < t.len() ==> is_digit_char(#[trigger] t[i]) || t[i] == '.' || t[i] == '-'
    } else {
        has_substring(t, trim_char(trim_char(p, '^'), '$'))
    }
}

#[verifier::loop_isolation(false)]
pub fn simple_pattern_match(pattern: &String, text: &String) -> (r: bool)
    ensures
        r == pattern_matches(pattern@, text@),
{
    let p = chars_of(pattern.as_str());
    let t = chars_of(text.as_str());
    if p.len() > 0 && p[0] == '^' && p[p.len() - 1] == '$' {
        let mut inner: Vec<char> = Vec::new();
        let mut k: usize = 1;
        while k < p.len() - 1
            invariant
                p@.len() >= 1,
                1 <= k <= p@.len() - 1 || (p@.len() == 1 && k == 1),
                inner@ == p@.subrange(1, k as int),
            decreases p.len() - k,
        {
            inner.push(p[k]);
            k = k + 1;
            proof {
                assert(inner@ =~= p@.subrange(1, k as int));
            }
        }
        let probe = chars_of("[0-9]");
        if p.len() >= 2 && substring_in(&inner, &probe) {
            if t.len() == 0 {
                return false;
            }
            let mut i: usize = 0;
            while i < t.len()
                invariant
                    i <= t@.len(),
                    forall|j: int| 0 <= j < i ==> is_digit_char(#[trigger] t@[j]) || t@[j] == '.' || t@[j] == '-',
                decreases t.len() - i,
            {
                let c = t[i];
                if !(('0' <= c && c <= '9') || c == '.' || c == '-') {
                    return false;
                }
                i = i + 1;
            }
            return true;
        }
        proof {
            if p@.len() == 1 {
                assert(p@[0] == '^');
            }
        }
    }
    let q = trim_char_vec(trim_char_vec(p, '^'), '$');
    substring_in(&t, &q)
}

} // verus!
