//! Author-defined migration routes between BSOL profile versions: choose a route, rewrite the
//! text, validate the result.

use vstd::prelude::*;
use vstd::string::StringSliceAdditionalSpecFns;
use vstd::utf8::encode_utf8;

use crate::ast::{view_block, view_item, view_items, BsolBlock, BsolDocument, BsolItem, SBlock, SDocument, SItem};
use crate::coerce::{has_substring, substring_in};
use crate::copy::copy_rewrite;
use crate::embedded::{load_profile, load_profile_spec};
use crate::error::{BsolError, SError};
use crate::grammar::{document_of, document_unspannable_from};
use crate::parser::{has_unspannable_block_start, parse_bsol_document};
use crate::profile_spec::vget;
use crate::schema::{find_key, MigrationRewrite, MigrationSpec, MigrationWhenClause, SchemaProfile};
use crate::schema_view::{
    text_pairs, view_migration, view_rewrite, view_rewrites, view_when, SMigration, SProfile,
    SRewrite, SWhen,
};
use crate::semantic::{references_spec, resolve_references};
use crate::text::{chars_of, join2, owned, string_is, text_at};
use crate::validate::validate;
use crate::validate_field::raw_text;
use crate::validate_spec::validate_spec;
use crate::validated::{SVDoc, ValidatedDocument};

verus! {

broadcast use crate::ast::group_ast_views;

/// Planned migration route from source profile to target.
#[derive(Debug, PartialEq, Eq)]
pub struct MigrationPlan {
    pub from_profile: String,
    pub to_profile: String,
    pub rewrites: Vec<MigrationRewrite>,
}

/// One routing strategy inside a migration plan.
#[derive(Debug, PartialEq, Eq)]
pub enum MigrationRoute {
    Heuristic { detect: Vec<(String, String)> },
    When(MigrationWhenClause),
}

pub ghost struct SPlan {
    pub from_profile: Seq<char>,
    pub to_profile: Seq<char>,
    pub rewrites: Seq<SRewrite>,
}

impl View for MigrationPlan {
    type V = SPlan;

    open spec fn view(&self) -> SPlan {
        SPlan {
            from_profile: self.from_profile@,
            to_profile: self.to_profile@,
            rewrites: view_rewrites(self.rewrites@),
        }
    }
}

// ---------------------------------------------------------------------------
// Choosing a route
// ---------------------------------------------------------------------------

/// An assignment with key `k` whose text form is `v` (any text form, for `None`).
pub open spec fn item_field(it: SItem, k: Seq<char>, v: Option<Seq<char>>) -> bool {
    match it {
        SItem::Assignment(a) => a.key == k && match v {
            Some(t) => raw_text(a.value) == Some(t),
            None => raw_text(a.value) is Some,
        },
        SItem::Block(_) => false,
    }
}

/// Some assignment of `items` has key `k` and the text form `v`.
pub open spec fn has_field_value(items: Seq<SItem>, k: Seq<char>, v: Seq<char>) -> bool {
    exists|i: int| 0 <= i < items.len() && #[trigger] item_field(items[i], k, Some(v))
}

/// Some assignment of `items` with a text form has key `k`.
pub open spec fn has_field(items: Seq<SItem>, k: Seq<char>) -> bool {
    exists|i: int| 0 <= i < items.len() && #[trigger] item_field(items[i], k, None)
}

/// A `when` clause holds of a block: the kind matches, and if it names a field, that field has
/// the expected value, and a field that must be missing is missing and is that same field.
pub open spec fn block_when(b: SBlock, w: SWhen) -> bool {
    &&& match w.block_kind {
        Some(k) => b.kind == k,
        None => true,
    }
    &&& match w.field {
        None => true,
        Some(field) => {
            &&& match w.field_value {
                Some(expected) => has_field_value(b.items, field, expected),
                None => true,
            }
            &&& match w.missing_field {
                Some(missing) => !has_field(b.items, missing) && field == missing,
                None => true,
            }
        },
    }
}

/// Some top-level block meets the clause.
pub open spec fn when_matches(d: SDocument, w: SWhen) -> bool {
    exists|i: int| 0 <= i < d.blocks.len() && block_when(#[trigger] d.blocks[i], w)
}

/// The version heuristic: the route says `profile_version_missing = "true"` and the text names
/// neither `profile_version = ` nor `version = 2`.
pub open spec fn heuristic_matches(m: SMigration, source: Seq<char>) -> bool {
    &&& vget(m.detect, "profile_version_missing"@) == Some("true"@)
    &&& !has_substring(source, "profile_version = "@)
    &&& !has_substring(source, "version = 2"@)
}

pub open spec fn route_matches(d: SDocument, source: Seq<char>, m: SMigration) -> bool {
    heuristic_matches(m, source) || exists|j: int|
        0 <= j < m.when_clauses.len() && when_matches(d, #[trigger] m.when_clauses[j])
}

/// Index of the first migration from `i` on whose route matches, or -1.
pub open spec fn first_route(d: SDocument, source: Seq<char>, ms: Seq<SMigration>, i: int) -> int
    decreases ms.len() - i,
{
    if i < 0 || i >= ms.len() {
        -1
    } else if route_matches(d, source, ms[i]) {
        i
    } else {
        first_route(d, source, ms, i + 1)
    }
}

/// The plan of the first migration of `target` whose route matches.
pub open spec fn plan_spec(d: SDocument, source: Seq<char>, target: SProfile) -> Option<SPlan> {
    let i = first_route(d, source, target.migrations, 0);
    if i < 0 {
        None
    } else {
        Some(
            SPlan {
                from_profile: target.migrations[i].from,
                to_profile: target.name,
                rewrites: target.migrations[i].rewrites,
            },
        )
    }
}

proof fn lemma_first_route(d: SDocument, source: Seq<char>, ms: Seq<SMigration>, i: int)
    ensures
        first_route(d, source, ms, i) >= 0 ==> i <= first_route(d, source, ms, i) < ms.len() && route_matches(
            d,
            source,
            ms[first_route(d, source, ms, i)],
        ),
    decreases ms.len() - i,
{
    if 0 <= i < ms.len() && !route_matches(d, source, ms[i]) {
        lemma_first_route(d, source, ms, i + 1);
    }
}

/// A planned migration is one of the target's, chosen by the version heuristic or by one of its
/// `when` clauses that some top-level block meets: a block of the kind the clause names (when
/// it names one), holding the field value it names (when it names one).  A document with no
/// block of the named kind does not select a route through that clause.
pub proof fn law_plan_route(d: SDocument, source: Seq<char>, target: SProfile)
    ensures
        plan_spec(d, source, target) matches Some(p) ==> exists|i: int|
            0 <= i < target.migrations.len() && p.from_profile == (#[trigger] target.migrations[i]).from
                && p.rewrites == target.migrations[i].rewrites && p.to_profile == target.name && (
            heuristic_matches(target.migrations[i], source) || exists|j: int, b: int|
                0 <= j < target.migrations[i].when_clauses.len() && 0 <= b < d.blocks.len() && (match (
                #[trigger] target.migrations[i].when_clauses[j]).block_kind {
                    Some(k) => (#[trigger] d.blocks[b]).kind == k,
                    None => true,
                }) && (match (target.migrations[i].when_clauses[j].field, target.migrations[i].when_clauses[j].field_value) {
                    (Some(f), Some(v)) => exists|q: int|
                        0 <= q < d.blocks[b].items.len() && (#[trigger] d.blocks[b].items[q] matches SItem::Assignment(a)
                            && a.key == f && raw_text(a.value) == Some(v)),
                    _ => true,
                }) && match (target.migrations[i].when_clauses[j].field, target.migrations[i].when_clauses[j].missing_field) {
                    (Some(f), Some(m)) => f == m && forall|q: int|
                        0 <= q < d.blocks[b].items.len() ==> !(#[trigger] d.blocks[b].items[q] matches SItem::Assignment(a)
                            && a.key == m && raw_text(a.value) is Some),
                    _ => true,
                }),
{
    lemma_first_route(d, source, target.migrations, 0);
    let i = first_route(d, source, target.migrations, 0);
    if i >= 0 {
        let m = target.migrations[i];
        if !heuristic_matches(m, source) {
            let j = choose|j: int| 0 <= j < m.when_clauses.len() && when_matches(d, #[trigger] m.when_clauses[j]);
            let w = m.when_clauses[j];
            let b = choose|b: int| 0 <= b < d.blocks.len() && block_when(#[trigger] d.blocks[b], w);
            assert(0 <= b < d.blocks.len() && block_when(d.blocks[b], w));
            let items = d.blocks[b].items;
            if let (Some(f), Some(v)) = (w.field, w.field_value) {
                let q = choose|q: int| 0 <= q < items.len() && #[trigger] item_field(items[q], f, Some(v));
                assert(0 <= q < items.len() && item_field(items[q], f, Some(v)));
            }
            if let (Some(f), Some(m)) = (w.field, w.missing_field) {
                assert forall|q: int| 0 <= q < items.len() implies !(#[trigger] items[q] matches SItem::Assignment(a)
                    && a.key == m && raw_text(a.value) is Some) by {
                    if items[q] matches SItem::Assignment(a) && a.key == m && raw_text(a.value) is Some {
                        assert(item_field(items[q], m, None));
                    }
                }
            }
        }
    }
}

fn field_checks(block: &BsolBlock, field: &String, value: Option<&String>) -> (r: bool)
    ensures
        r == match value {
            Some(v) => has_field_value(view_block(*block).items, field@, v@),
            None => has_field(view_block(*block).items, field@),
        },
{
    let ghost items = view_items(block.items@);
    proof {
        assert(view_block(*block).items == items);
        crate::ast::lemma_view_items(block.items@);
    }
    let ghost want: Option<Seq<char>> = match value {
        Some(v) => Some(v@),
        None => None,
    };
    let mut i: usize = 0;
    while i < block.items.len()
        invariant
            items == view_block(*block).items,
            items.len() == block.items@.len(),
            i <= block.items@.len(),
            want == match value {
                Some(v) => Some(v@),
                None => None::<Seq<char>>,
            },
            forall|j: int| 0 <= j < i ==> !#[trigger] item_field(items[j], field@, want),
        decreases block.items.len() - i,
    {
        proof {
            crate::ast::lemma_view_items(block.items@);
            assert(items[i as int] == view_item(block.items@[i as int]));
        }
        match &block.items[i] {
            BsolItem::Assignment(a) => {
                if string_is(&a.key, field.as_str()) {
                    match crate::validate_field::raw_to_string(&a.value) {
                        Some(text) => {
                            let hit = match value {
                                Some(v) => string_is(&text, v.as_str()),
                                None => true,
                            };
                            if hit {
                                proof {
                                    assert(item_field(items[i as int], field@, want));
                                }
                                return true;
                            }
                        },
                        None => {},
                    }
                }
            },
            BsolItem::Block(_) => {},
        }
        i = i + 1;
    }
    false
}

fn block_when_exec(block: &BsolBlock, when: &MigrationWhenClause) -> (r: bool)
    ensures
        r == block_when(view_block(*block), view_when(*when)),
{
    match &when.block_kind {
        Some(expected) => {
            if !string_is(&block.kind, expected.as_str()) {
                return false;
            }
        },
        None => {},
    }
    match &when.field {
        None => true,
        Some(field) => {
            match &when.field_value {
                Some(expected) => {
                    if !field_checks(block, field, Some(expected)) {
                        return false;
                    }
                },
                None => {},
            }
            match &when.missing_field {
                Some(missing) => {
                    if field_checks(block, missing, None) {
                        return false;
                    }
                    string_is(field, missing.as_str())
                },
                None => true,
            }
        },
    }
}

fn when_clause_matches(document: &BsolDocument, when: &MigrationWhenClause) -> (r: bool)
    ensures
        r == when_matches(document@, view_when(*when)),
{
    let mut i: usize = 0;
    while i < document.blocks.len()
        invariant
            i <= document.blocks@.len(),
            document@.blocks.len() == document.blocks@.len(),
            forall|j: int| 0 <= j < i ==> !block_when(#[trigger] document@.blocks[j], view_when(*when)),
        decreases document.blocks.len() - i,
    {
        proof {
            assert(document@.blocks[i as int] == view_block(document.blocks@[i as int]));
        }
        if block_when_exec(&document.blocks[i], when) {
            return true;
        }
        i = i + 1;
    }
    false
}

fn route_matches_exec(document: &BsolDocument, source: &str, migration: &MigrationSpec) -> (r: bool)
    ensures
        r == route_matches(document@, source@, view_migration(*migration)),
{
    let ghost m = view_migration(*migration);
    proof {
        let t = text_pairs(migration.detect@);
        assert forall|i: int| 0 <= i < migration.detect@.len() implies #[trigger] migration.detect@[i].0@
            == t[i].0 by {}
        crate::decode::lemma_key_index_views(migration.detect@, t, "profile_version_missing"@);
        crate::schema::lemma_key_index(migration.detect@, "profile_version_missing"@);
    }
    let flagged = match find_key(&migration.detect, "profile_version_missing") {
        Some(i) => string_is(&migration.detect[i].1, "true"),
        None => false,
    };
    if flagged {
        let text = chars_of(source);
        if !substring_in(&text, &chars_of("profile_version = ")) && !substring_in(
            &text,
            &chars_of("version = 2"),
        ) {
            return true;
        }
    }
    let mut j: usize = 0;
    while j < migration.when_clauses.len()
        invariant
            m == view_migration(*migration),
            m.when_clauses.len() == migration.when_clauses@.len(),
            !heuristic_matches(m, source@),
            j <= migration.when_clauses@.len(),
            forall|k: int| 0 <= k < j ==> !when_matches(document@, #[trigger] m.when_clauses[k]),
        decreases migration.when_clauses.len() - j,
    {
        proof {
            assert(m.when_clauses[j as int] == view_when(migration.when_clauses@[j as int]));
        }
        if when_clause_matches(document, &migration.when_clauses[j]) {
            return true;
        }
        j = j + 1;
    }
    false
}

pub open spec fn plan_res(r: Result<Option<MigrationPlan>, BsolError>) -> Result<Option<SPlan>, SError> {
    match r {
        Ok(Some(p)) => Ok(Some(p@)),
        Ok(None) => Ok(None),
        Err(e) => Err(e@),
    }
}

fn copy_rewrites(s: &Vec<MigrationRewrite>) -> (r: Vec<MigrationRewrite>)
    ensures
        view_rewrites(r@) == view_rewrites(s@),
{
    let mut out: Vec<MigrationRewrite> = Vec::new();
    let mut i: usize = 0;
    while i < s.len()
        invariant
            i <= s@.len(),
            out@.len() == i,
            forall|j: int| 0 <= j < i ==> view_rewrite(#[trigger] out@[j]) == view_rewrite(s@[j]),
        decreases s.len() - i,
    {
        out.push(copy_rewrite(&s[i]));
        i = i + 1;
    }
    proof {
        assert(view_rewrites(out@) =~= view_rewrites(s@));
    }
    out
}

/// Select a migration plan for `source` text targeting `target`: the first of the target's
/// migrations whose route matches.
pub fn plan_migration(document: &BsolDocument, source: &str, target: &SchemaProfile) -> (r: Result<
    Option<MigrationPlan>,
    BsolError,
>)
    ensures
        plan_res(r) == Ok::<Option<SPlan>, SError>(plan_spec(document@, source@, target@)),
{
    let ghost ms = target@.migrations;
    let mut i: usize = 0;
    proof {
        assert(ms.len() == target.migrations@.len());
    }
    while i < target.migrations.len()
        invariant
            ms == target@.migrations,
            ms.len() == target.migrations@.len(),
            i <= ms.len(),
            first_route(document@, source@, ms, 0) == first_route(document@, source@, ms, i as int),
        decreases target.migrations.len() - i,
    {
        let migration = &target.migrations[i];
        proof {
            assert(ms[i as int] == view_migration(*migration));
        }
        if route_matches_exec(document, source, migration) {
            return Ok(
                Some(
                    MigrationPlan {
                        from_profile: migration.from.clone(),
                        to_profile: target.name.clone(),
                        rewrites: copy_rewrites(&migration.rewrites),
                    },
                ),
            );
        }
        i = i + 1;
    }
    Ok(None)
}

// ---------------------------------------------------------------------------
// Rewriting the text
// ---------------------------------------------------------------------------

/// `s` with every occurrence of the non-empty `p` replaced by `t`, scanning left to right;
/// an empty `p` puts `t` before every character and at the end.
pub open spec fn replace_all(s: Seq<char>, p: Seq<char>, t: Seq<char>) -> Seq<char>
    decreases s.len(),
{
    if p.len() == 0 {
        replace_empty(s, t)
    } else if s.len() == 0 {
        s
    } else if p.len() <= s.len() && s.subrange(0, p.len() as int) == p {
        t + replace_all(s.subrange(p.len() as int, s.len() as int), p, t)
    } else {
        seq![s[0]] + replace_all(s.subrange(1, s.len() as int), p, t)
    }
}

pub open spec fn replace_empty(s: Seq<char>, t: Seq<char>) -> Seq<char>
    decreases s.len(),
{
    if s.len() == 0 {
        t
    } else {
        t + seq![s[0]] + replace_empty(s.subrange(1, s.len() as int), t)
    }
}

/// Index of the last `}` before `n`, or -1.
pub open spec fn last_brace(s: Seq<char>, n: int) -> int
    decreases n,
{
    if n <= 0 {
        -1
    } else if s[n - 1] == '}' {
        n - 1
    } else {
        last_brace(s, n - 1)
    }
}

/// One rewrite of the text.
pub open spec fn rewrite_text(s: Seq<char>, w: SRewrite) -> Seq<char> {
    match w {
        SRewrite::AddField { key, value } => {
            let pos = last_brace(s, s.len() as int);
            if has_substring(s, key + " ="@) || pos < 0 {
                s
            } else {
                s.subrange(0, pos) + "\n  "@ + key + " = \""@ + value + "\""@ + s.subrange(
                    pos,
                    s.len() as int,
                )
            }
        },
        SRewrite::RenameField { from, to } => replace_all(s, from + " ="@, to + " ="@),
        SRewrite::ReplaceValue { from, to } => replace_all(s, from, to),
    }
}

/// The first `n` rewrites, in order.
pub open spec fn apply_rewrites(s: Seq<char>, ws: Seq<SRewrite>, n: nat) -> Seq<char>
    decreases n,
{
    if n == 0 {
        s
    } else {
        rewrite_text(apply_rewrites(s, ws, (n - 1) as nat), ws[n - 1])
    }
}

fn replace_text(text: &str, p: &str, t: &str) -> (r: String)
    ensures
        r@ == replace_all(text@, p@, t@),
{
    let cs = chars_of(text);
    let pl = chars_of(p).len();
    let n = cs.len();
    let mut out = String::new();
    let mut i: usize = 0;
    proof {
        assert(text@.subrange(0, n as int) =~= text@);
    }
    if pl == 0 {
        while i < n
            invariant
                cs@ == text@,
                n == text@.len(),
                p@.len() == 0,
                i <= n,
                out@ + replace_empty(text@.subrange(i as int, n as int), t@) == replace_all(text@, p@, t@),
            decreases n - i,
        {
            let ghost rest = text@.subrange(i as int, n as int);
            proof {
                assert(rest.subrange(1, rest.len() as int) =~= text@.subrange(i + 1, n as int));
                assert(text@.subrange(i as int, i + 1) =~= seq![rest[0]]);
            }
            out.append(t);
            out.append(text.substring_char(i, i + 1));
            i = i + 1;
            proof {
                assert(out@ + replace_empty(text@.subrange(i as int, n as int), t@) =~= replace_all(text@, p@, t@));
            }
        }
        proof {
            assert(text@.subrange(i as int, n as int) =~= Seq::<char>::empty());
        }
        out.append(t);
    } else {
        while i < n
            invariant
                cs@ == text@,
                n == text@.len(),
                p@.len() == pl,
                pl > 0,
                i <= n,
                out@ + replace_all(text@.subrange(i as int, n as int), p@, t@) == replace_all(text@, p@, t@),
            decreases n - i,
        {
            let ghost rest = text@.subrange(i as int, n as int);
            if text_at(&cs, i, p) {
                proof {
                    assert(rest.subrange(0, pl as int) =~= text@.subrange(i as int, i + pl));
                    assert(rest.subrange(pl as int, rest.len() as int) =~= text@.subrange(i + pl, n as int));
                }
                out.append(t);
                i = i + pl;
                proof {
                    assert(out@ + replace_all(text@.subrange(i as int, n as int), p@, t@) =~= replace_all(text@, p@, t@));
                }
            } else {
                proof {
                    if pl <= rest.len() {
                        assert(rest.subrange(0, pl as int) =~= text@.subrange(i as int, i + pl));
                    }
                    assert(rest.subrange(1, rest.len() as int) =~= text@.subrange(i + 1, n as int));
                    assert(text@.subrange(i as int, i + 1) =~= seq![rest[0]]);
                }
                out.append(text.substring_char(i, i + 1));
                i = i + 1;
                proof {
                    assert(out@ + replace_all(text@.subrange(i as int, n as int), p@, t@) =~= replace_all(text@, p@, t@));
                }
            }
        }
        proof {
            assert(text@.subrange(i as int, n as int) =~= Seq::<char>::empty());
            assert(out@ + Seq::<char>::empty() =~= out@);
        }
    }
    out
}

fn find_last_brace(cs: &Vec<char>) -> (r: Option<usize>)
    ensures
        match r {
            Some(p) => p < cs@.len() && p == last_brace(cs@, cs@.len() as int),
            None => last_brace(cs@, cs@.len() as int) == -1,
        },
{
    let mut k = cs.len();
    while k > 0
        invariant
            k <= cs@.len(),
            last_brace(cs@, cs@.len() as int) == last_brace(cs@, k as int),
        decreases k,
    {
        if cs[k - 1] == '}' {
            return Some(k - 1);
        }
        k = k - 1;
    }
    None
}

fn rewrite_exec(output: String, rewrite: &MigrationRewrite) -> (r: String)
    ensures
        r@ == rewrite_text(output@, view_rewrite(*rewrite)),
{
    match rewrite {
        MigrationRewrite::AddField { key, value } => {
            let needle = join2(key.clone(), " =");
            let cs = chars_of(output.as_str());
            if substring_in(&cs, &chars_of(needle.as_str())) {
                return output;
            }
            match find_last_brace(&cs) {
                None => output,
                Some(pos) => {
                    let n = cs.len();
                    let mut out = crate::text::sub_text(output.as_str(), 0, pos);
                    out.append("\n  ");
                    out.append(key.as_str());
                    out.append(" = \"");
                    out.append(value.as_str());
                    out.append("\"");
                    out.append(output.as_str().substring_char(pos, n));
                    out
                },
            }
        },
        MigrationRewrite::RenameField { from, to } => {
            let a = join2(from.clone(), " =");
            let b = join2(to.clone(), " =");
            replace_text(output.as_str(), a.as_str(), b.as_str())
        },
        MigrationRewrite::ReplaceValue { from, to } => replace_text(
            output.as_str(),
            from.as_str(),
            to.as_str(),
        ),
    }
}

/// Apply rewrite operations to source text; this never fails.
pub fn apply_migration(source: &str, plan: &MigrationPlan) -> (r: Result<String, BsolError>)
    ensures
        r matches Ok(out) && out@ == apply_rewrites(source@, plan@.rewrites, plan@.rewrites.len()),
{
    let ghost ws = plan@.rewrites;
    let mut output = owned(source);
    let mut i: usize = 0;
    proof {
        assert(ws.len() == plan.rewrites@.len());
    }
    while i < plan.rewrites.len()
        invariant
            ws == plan@.rewrites,
            ws.len() == plan.rewrites@.len(),
            i <= ws.len(),
            output@ == apply_rewrites(source@, ws, i as nat),
        decreases plan.rewrites.len() - i,
    {
        proof {
            assert(ws[i as int] == view_rewrite(plan.rewrites@[i as int]));
        }
        output = rewrite_exec(output, &plan.rewrites[i]);
        i = i + 1;
    }
    Ok(output)
}

/// Adding a field twice is adding it once: after the first add the text names `key =`.
pub proof fn law_add_field_idempotent(s: Seq<char>, key: Seq<char>, value: Seq<char>)
    ensures
        rewrite_text(
            rewrite_text(s, SRewrite::AddField { key, value }),
            SRewrite::AddField { key, value },
        ) == rewrite_text(s, SRewrite::AddField { key, value }),
{
    lemma_add_field_names(s, key, value);
}

/// A `}` before `n` makes `last_brace` find one, at or after it.
proof fn lemma_last_brace_found(s: Seq<char>, n: int, j: int)
    requires
        0 <= j < n <= s.len(),
        s[j] == '}',
    ensures
        j <= last_brace(s, n) < n,
    decreases n,
{
    if s[n - 1] != '}' {
        lemma_last_brace_found(s, n - 1, j);
    }
}

/// Every key of the rewrites (all field additions) is named in `t`, or `t` has no `}`.
pub open spec fn keys_named(t: Seq<char>, ws: Seq<SRewrite>, n: int) -> bool {
    last_brace(t, t.len() as int) < 0 || forall|j: int|
        0 <= j < n ==> has_substring(t, (#[trigger] ws[j])->AddField_key + " ="@)
}

/// Inserting text at a `}` keeps every occurrence of a text without `}`.
proof fn lemma_insert_keeps(s: Seq<char>, pos: int, ins: Seq<char>, q: Seq<char>)
    requires
        0 <= pos < s.len(),
        s[pos] == '}',
        !q.contains('}'),
        has_substring(s, q),
    ensures
        has_substring(s.subrange(0, pos) + ins + s.subrange(pos, s.len() as int), q),
{
    let t = s.subrange(0, pos) + ins + s.subrange(pos, s.len() as int);
    let i = choose|i: int| 0 <= i && i + q.len() <= s.len() && #[trigger] s.subrange(i, i + q.len()) == q;
    if i + q.len() <= pos {
        assert(t.subrange(i, i + q.len()) =~= s.subrange(i, i + q.len()));
    } else if i >= pos {
        let k = i + ins.len();
        assert(t.subrange(k, k + q.len()) =~= s.subrange(i, i + q.len()));
    } else {
        assert(q[pos - i] == s.subrange(i, i + q.len())[pos - i]);
        assert(q.contains('}'));
    }
}

/// One field addition keeps `keys_named` and adds its own key to it.
proof fn lemma_add_field_step(t: Seq<char>, ws: Seq<SRewrite>, n: int)
    requires
        0 <= n < ws.len(),
        forall|j: int| 0 <= j < ws.len() ==> (#[trigger] ws[j]) is AddField && !ws[j]->AddField_key.contains('}'),
        keys_named(t, ws, n),
    ensures
        keys_named(rewrite_text(t, ws[n]), ws, n + 1),
{
    reveal_strlit(" =");
    let key = ws[n]->AddField_key;
    let value = ws[n]->AddField_value;
    let t1 = rewrite_text(t, ws[n]);
    let pos = last_brace(t, t.len() as int);
    lemma_last_brace(t, t.len() as int);
    if has_substring(t, key + " ="@) || pos < 0 {
        assert(t1 == t);
    } else {
        let ins = "\n  "@ + key + " = \""@ + value + "\""@;
        assert(t1 == t.subrange(0, pos) + ins + t.subrange(pos, t.len() as int));
        lemma_add_field_names(t, key, value);
        assert(ws[n] == SRewrite::AddField { key, value });
        assert forall|j: int| 0 <= j < n + 1 implies has_substring(t1, (#[trigger] ws[j])->AddField_key + " ="@) by {
            if j == n {
                lemma_last_brace_found(t1, t1.len() as int, pos + ins.len());
            } else {
                assert(has_substring(t, ws[j]->AddField_key + " ="@));
                let q = ws[j]->AddField_key + " ="@;
                assert(!q.contains('}')) by {
                    if q.contains('}') {
                        let m = choose|m: int| 0 <= m < q.len() && q[m] == '}';
                        if m < ws[j]->AddField_key.len() {
                            assert(ws[j]->AddField_key[m] == '}');
                        } else {
                            assert(" ="@[m - ws[j]->AddField_key.len()] == '}');
                        }
                    }
                }
                lemma_insert_keeps(t, pos, ins, q);
            }
        }
    }
}

/// After a field addition the text names its key, unless it has no `}`.
proof fn lemma_add_field_names(s: Seq<char>, key: Seq<char>, value: Seq<char>)
    ensures
        ({
            let t = rewrite_text(s, SRewrite::AddField { key, value });
            has_substring(t, key + " ="@) || last_brace(t, t.len() as int) < 0
        }),
{
    let w = SRewrite::AddField { key, value };
    let s1 = rewrite_text(s, w);
    let pos = last_brace(s, s.len() as int);
    lemma_last_brace(s, s.len() as int);
    if !(has_substring(s, key + " ="@) || pos < 0) {
        reveal_strlit("\n  ");
        reveal_strlit(" =");
        reveal_strlit(" = \"");
        reveal_strlit("\"");
        let ins = "\n  "@ + key + " = \""@ + value + "\""@;
        let t = key + " ="@;
        let i = pos + 3;
        assert(s1 == s.subrange(0, pos) + ins + s.subrange(pos, s.len() as int));
        assert(s1.subrange(i, i + t.len()) =~= t) by {
            assert forall|j: int| 0 <= j < t.len() implies s1.subrange(i, i + t.len())[j] == t[j] by {
                assert(s1[i + j] == ins[3 + j]);
                if j < key.len() {
                    assert(ins[3 + j] == key[j]);
                } else {
                    assert(ins[3 + j] == " = \""@[j - key.len()]);
                }
            }
        }
    }
}

proof fn lemma_add_fields_name_all(s: Seq<char>, ws: Seq<SRewrite>, n: nat)
    requires
        n <= ws.len(),
        forall|j: int| 0 <= j < ws.len() ==> (#[trigger] ws[j]) is AddField && !ws[j]->AddField_key.contains('}'),
    ensures
        keys_named(apply_rewrites(s, ws, n), ws, n as int),
    decreases n,
{
    if n > 0 {
        lemma_add_fields_name_all(s, ws, (n - 1) as nat);
        lemma_add_field_step(apply_rewrites(s, ws, (n - 1) as nat), ws, n - 1);
    }
}

proof fn lemma_add_fields_fixed(t: Seq<char>, ws: Seq<SRewrite>, n: nat, m: nat)
    requires
        m <= n <= ws.len(),
        forall|j: int| 0 <= j < ws.len() ==> (#[trigger] ws[j]) is AddField,
        keys_named(t, ws, n as int),
    ensures
        apply_rewrites(t, ws, m) == t,
    decreases m,
{
    if m > 0 {
        lemma_add_fields_fixed(t, ws, n, (m - 1) as nat);
        assert(ws[m - 1] is AddField);
    }
}

/// A field addition leaves the text as it is, or lengthens it.
proof fn lemma_add_field_grows(s: Seq<char>, w: SRewrite)
    requires
        w is AddField,
    ensures
        rewrite_text(s, w) == s || rewrite_text(s, w).len() > s.len(),
{
    reveal_strlit("\n  ");
    reveal_strlit(" = \"");
    reveal_strlit("\"");
    lemma_last_brace(s, s.len() as int);
}

/// Field additions leave the text as it is, or lengthen it.
proof fn lemma_add_fields_grow(t: Seq<char>, ws: Seq<SRewrite>, n: nat)
    requires
        n <= ws.len(),
        forall|j: int| 0 <= j < ws.len() ==> (#[trigger] ws[j]) is AddField,
    ensures
        apply_rewrites(t, ws, n) == t || apply_rewrites(t, ws, n).len() > t.len(),
    decreases n,
{
    if n > 0 {
        lemma_add_fields_grow(t, ws, (n - 1) as nat);
        lemma_add_field_grows(apply_rewrites(t, ws, (n - 1) as nat), ws[n - 1]);
    }
}

/// Field additions that leave a text as it is find each key named in it, or no `}` in it.
proof fn lemma_add_fields_fixed_named(t: Seq<char>, ws: Seq<SRewrite>, n: nat)
    requires
        n <= ws.len(),
        forall|j: int| 0 <= j < ws.len() ==> (#[trigger] ws[j]) is AddField,
        apply_rewrites(t, ws, n) == t,
    ensures
        keys_named(t, ws, n as int),
    decreases n,
{
    if n > 0 {
        let u = apply_rewrites(t, ws, (n - 1) as nat);
        lemma_add_fields_grow(t, ws, (n - 1) as nat);
        lemma_add_field_grows(u, ws[n - 1]);
        assert(u == t);
        lemma_add_fields_fixed_named(t, ws, (n - 1) as nat);
        let w = ws[n - 1];
        if last_brace(t, t.len() as int) >= 0 {
            if !has_substring(t, w->AddField_key + " ="@) {
                reveal_strlit("\n  ");
                reveal_strlit(" = \"");
                reveal_strlit("\"");
                lemma_last_brace(t, t.len() as int);
                assert(rewrite_text(t, w).len() > t.len());
            }
            assert forall|j: int| 0 <= j < n implies has_substring(t, (#[trigger] ws[j])->AddField_key + " ="@) by {
                if j < n - 1 {
                    assert(keys_named(t, ws, n - 1));
                }
            }
        }
    }
}

/// Field additions, applied a second time, change nothing exactly when, after the first pass,
/// the text names every key (`key =`) or has no `}`; that is always so when no key holds `}`.
pub proof fn law_add_fields_idempotent(s: Seq<char>, ws: Seq<SRewrite>)
    requires
        forall|j: int| 0 <= j < ws.len() ==> (#[trigger] ws[j]) is AddField,
    ensures
        apply_rewrites(apply_rewrites(s, ws, ws.len()), ws, ws.len()) == apply_rewrites(s, ws, ws.len())
            <==> keys_named(apply_rewrites(s, ws, ws.len()), ws, ws.len() as int),
        (forall|j: int| 0 <= j < ws.len() ==> !(#[trigger] ws[j])->AddField_key.contains('}'))
            ==> apply_rewrites(apply_rewrites(s, ws, ws.len()), ws, ws.len()) == apply_rewrites(s, ws, ws.len()),
{
    let t = apply_rewrites(s, ws, ws.len());
    if keys_named(t, ws, ws.len() as int) {
        lemma_add_fields_fixed(t, ws, ws.len(), ws.len());
    }
    if apply_rewrites(t, ws, ws.len()) == t {
        lemma_add_fields_fixed_named(t, ws, ws.len());
    }
    if forall|j: int| 0 <= j < ws.len() ==> !(#[trigger] ws[j])->AddField_key.contains('}') {
        lemma_add_fields_name_all(s, ws, ws.len());
        lemma_add_fields_fixed(t, ws, ws.len(), ws.len());
    }
}

proof fn lemma_last_brace(s: Seq<char>, n: int)
    requires
        0 <= n <= s.len(),
    ensures
        -1 <= last_brace(s, n) < n,
        last_brace(s, n) >= 0 ==> s[last_brace(s, n)] == '}',
    decreases n,
{
    if n > 0 && s[n - 1] != '}' {
        lemma_last_brace(s, n - 1);
    }
}

/// Replacing a non-empty text that does not occur leaves the text as it is.
pub proof fn law_replace_absent(s: Seq<char>, p: Seq<char>, t: Seq<char>)
    requires
        p.len() > 0,
        !has_substring(s, p),
    ensures
        replace_all(s, p, t) == s,
    decreases s.len(),
{
    if s.len() > 0 {
        let rest = s.subrange(1, s.len() as int);
        if p.len() <= s.len() && s.subrange(0, p.len() as int) == p {
            assert(s.subrange(0, 0 + p.len() as int) == p);
        }
        assert(!has_substring(rest, p)) by {
            if has_substring(rest, p) {
                let i = choose|i: int| 0 <= i && i + p.len() <= rest.len() && #[trigger] rest.subrange(i, i + p.len()) == p;
                assert(s.subrange(i + 1, i + 1 + p.len()) =~= rest.subrange(i, i + p.len()));
            }
        }
        law_replace_absent(rest, p, t);
        assert(seq![s[0]] + rest =~= s);
    }
}

// ---------------------------------------------------------------------------
// The whole migration
// ---------------------------------------------------------------------------

pub open spec fn migrated_unspannable_err() -> SError {
    SError::Parse("migrated text has a block the parser cannot locate"@)
}

/// Load the target profile, parse, choose the first matching route, rewrite, parse the result
/// (reporting a block the parser cannot locate), validate it and resolve its references.
pub open spec fn migrate_spec(source: Seq<char>, target_name: Seq<char>) -> Result<(Seq<char>, SVDoc), SError> {
    match load_profile_spec(target_name) {
        Err(e) => Err(e),
        Ok(target) => match document_of(encode_utf8(source)) {
            Err(e) => Err(e),
            Ok(blocks) => match plan_spec(SDocument { blocks }, source, target) {
                None => Err(SError::Schema("no migration route matched"@)),
                Some(plan) => {
                    let m = apply_rewrites(source, plan.rewrites, plan.rewrites.len());
                    if document_unspannable_from(encode_utf8(m), 0) {
                        Err(migrated_unspannable_err())
                    } else {
                        match document_of(encode_utf8(m)) {
                            Err(e) => Err(e),
                            Ok(mb) => match validate_spec(SDocument { blocks: mb }, target) {
                                Err(e) => Err(e),
                                Ok(vd) => match references_spec(vd) {
                                    Err(e) => Err(e),
                                    Ok(()) => Ok((m, vd)),
                                },
                            },
                        }
                    }
                },
            },
        },
    }
}

pub open spec fn migrate_res(r: Result<(String, ValidatedDocument), BsolError>) -> Result<(Seq<char>, SVDoc), SError> {
    match r {
        Ok((m, d)) => Ok((m@, d@)),
        Err(e) => Err(e@),
    }
}

/// Migrate, parse, and validate against the target profile.
pub fn migrate_document(source: &str, target_profile_name: &str) -> (r: Result<(String, ValidatedDocument), BsolError>)
    requires
        !document_unspannable_from(source.spec_bytes(), 0),
    ensures
        migrate_res(r) == migrate_spec(source@, target_profile_name@),
{
    let target = match load_profile(target_profile_name) {
        Ok(t) => t,
        Err(e) => {
            return Err(e);
        },
    };
    let document = match parse_bsol_document(source) {
        Ok(d) => d,
        Err(e) => {
            return Err(e);
        },
    };
    let plan = match plan_migration(&document, source, &target) {
        Ok(Some(p)) => p,
        Ok(None) => {
            return Err(BsolError::Schema(owned("no migration route matched")));
        },
        Err(e) => {
            return Err(e);
        },
    };
    let migrated = match apply_migration(source, &plan) {
        Ok(m) => m,
        Err(e) => {
            return Err(e);
        },
    };
    if has_unspannable_block_start(migrated.as_str()) {
        return Err(BsolError::Parse(owned("migrated text has a block the parser cannot locate")));
    }
    let migrated_doc = match parse_bsol_document(migrated.as_str()) {
        Ok(d) => d,
        Err(e) => {
            return Err(e);
        },
    };
    let mut validated = match validate(&migrated_doc, &target) {
        Ok(v) => v,
        Err(e) => {
            return Err(e);
        },
    };
    match resolve_references(&mut validated) {
        Ok(()) => {},
        Err(e) => {
            return Err(e);
        },
    }
    Ok((migrated, validated))
}

} // verus!
