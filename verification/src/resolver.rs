//! Schema collections built from profile imports, and `@pckg/` references.

use vstd::prelude::*;

use vstd::string::StringSliceAdditionalSpecFns;

use crate::compose::{compose_profile, compose_spec, merge_profiles, merge_profiles_spec, profile_res, unit_res};
use crate::copy::{copy_extend, copy_extends, copy_import, copy_imports, copy_profile};
use crate::embedded::{load_profile, load_profile_spec};
use crate::error::{BsolError, SError};
use crate::grammar::document_unspannable_from;
use crate::loader::{load_profile_from_source, load_source_spec};
use crate::schema::{find_key, key_index, lemma_key_index, keys_distinct, ImportSchemaSpec, ImportSource, SchemaProfile};
use crate::schema_view::{view_extend, view_extends, view_import, view_imports, view_profile, SExtend, SImport, SProfile};
use crate::text::{cat3, chars_of, owned, sub_text, text_at};

verus! {

// ---------------------------------------------------------------------------
// Collections
// ---------------------------------------------------------------------------

/// The profiles of an association list, by name (the first entry of a name counts).
pub open spec fn entries_map(s: Seq<(String, SchemaProfile)>) -> Map<Seq<char>, SProfile> {
    Map::new(
        |k: Seq<char>| key_index(s, k) >= 0,
        |k: Seq<char>| view_profile(s[key_index(s, k)].1),
    )
}

/// Aggregated schema profiles keyed by logical name; each name occurs once.
#[derive(Debug)]
pub struct SchemaCollection {
    profiles: Vec<(String, SchemaProfile)>,
}

impl SchemaCollection {
    #[verifier::type_invariant]
    spec fn names_distinct(self) -> bool {
        keys_distinct(self.profiles@)
    }
}

impl View for SchemaCollection {
    type V = Map<Seq<char>, SProfile>;

    closed spec fn view(&self) -> Map<Seq<char>, SProfile> {
        entries_map(self.profiles@)
    }
}

/// The error of inserting a second profile under `name`.
pub open spec fn collision_err(name: Seq<char>) -> SError {
    SError::Import("schema profile name collision: `"@ + name + "`"@)
}

/// Where `k` sits in a list with one more entry.
proof fn lemma_key_index_push(s: Seq<(String, SchemaProfile)>, x: (String, SchemaProfile), k: Seq<char>)
    ensures
        key_index(s.push(x), k) == if key_index(s, k) >= 0 {
            key_index(s, k)
        } else if x.0@ == k {
            s.len() as int
        } else {
            -1
        },
{
    let t = s.push(x);
    lemma_key_index(s, k);
    lemma_key_index(t, k);
    if key_index(s, k) >= 0 {
        let i = key_index(s, k);
        assert(t[i] == s[i]);
        assert forall|j: int| 0 <= j < i implies t[j].0@ != k by {
            assert(t[j] == s[j]);
        }
        crate::schema::lemma_key_index_at(t, k, i);
    } else if x.0@ == k {
        assert(t[s.len() as int] == x);
        assert forall|j: int| 0 <= j < s.len() implies t[j].0@ != k by {
            assert(t[j] == s[j]);
        }
        crate::schema::lemma_key_index_at(t, k, s.len() as int);
    } else {
        assert forall|j: int| 0 <= j < t.len() implies t[j].0@ != k by {
            if j < s.len() {
                assert(t[j] == s[j]);
            }
        }
        crate::schema::lemma_key_index_none(t, k);
    }
}

/// The map of a list with one more entry under a new name.
proof fn lemma_entries_push(s: Seq<(String, SchemaProfile)>, x: (String, SchemaProfile))
    requires
        !entries_map(s).contains_key(x.0@),
    ensures
        entries_map(s.push(x)) == entries_map(s).insert(x.0@, view_profile(x.1)),
{
    let t = s.push(x);
    assert forall|k: Seq<char>| #[trigger] entries_map(t).contains_key(k) == entries_map(s).insert(
        x.0@,
        view_profile(x.1),
    ).contains_key(k) by {
        lemma_key_index_push(s, x, k);
    }
    assert forall|k: Seq<char>| entries_map(t).contains_key(k) implies #[trigger] entries_map(t)[k]
        == entries_map(s).insert(x.0@, view_profile(x.1))[k] by {
        lemma_key_index_push(s, x, k);
        lemma_key_index(s, k);
        if key_index(s, k) >= 0 {
            assert(t[key_index(s, k)] == s[key_index(s, k)]);
        }
    }
    assert(entries_map(t) =~= entries_map(s).insert(x.0@, view_profile(x.1)));
}

impl Default for SchemaCollection {
    fn default() -> (r: Self)
        ensures
            r@ == Map::<Seq<char>, SProfile>::empty(),
    {
        let r = SchemaCollection { profiles: Vec::new() };
        proof {
            assert(entries_map(r.profiles@) =~= Map::<Seq<char>, SProfile>::empty());
        }
        r
    }
}

impl SchemaCollection {
    /// Add `profile` under `name`; a name that is already taken is refused and nothing changes.
    pub fn insert(&mut self, name: String, profile: SchemaProfile) -> (r: Result<(), BsolError>)
        ensures
            unit_res(r) == if old(self)@.contains_key(name@) {
                Err(collision_err(name@))
            } else {
                Ok(())
            },
            final(self)@ == if old(self)@.contains_key(name@) {
                old(self)@
            } else {
                old(self)@.insert(name@, profile@)
            },
    {
        proof {
            use_type_invariant(&*self);
            lemma_key_index(self.profiles@, name@);
        }
        match find_key(&self.profiles, name.as_str()) {
            Some(_) => Err(BsolError::Import(cat3("schema profile name collision: `", name.as_str(), "`"))),
            None => {
                let ghost s0 = self.profiles@;
                let ghost x = (name, profile);
                proof {
                    lemma_entries_push(s0, x);
                    assert forall|i: int, j: int| 0 <= i < j < s0.push(x).len() implies s0.push(x)[i].0@
                        != s0.push(x)[j].0@ by {
                        if j == s0.len() {
                            assert(s0.push(x)[i] == s0[i]);
                        } else {
                            assert(s0.push(x)[i] == s0[i]);
                            assert(s0.push(x)[j] == s0[j]);
                        }
                    }
                }
                let mut entries: Vec<(String, SchemaProfile)> = Vec::new();
                std::mem::swap(&mut entries, &mut self.profiles);
                entries.push((name, profile));
                self.profiles = entries;
                Ok(())
            },
        }
    }

    /// The profile named `name`, if any.
    pub fn get(&self, name: &str) -> (r: Option<&SchemaProfile>)
        ensures
            match r {
                Some(p) => self@.contains_key(name@) && p@ == self@[name@],
                None => !self@.contains_key(name@),
            },
    {
        proof {
            lemma_key_index(self.profiles@, name@);
        }
        match find_key(&self.profiles, name) {
            Some(i) => Some(&self.profiles[i].1),
            None => None,
        }
    }

    /// The entries, each name once.
    pub fn profiles(&self) -> (r: &Vec<(String, SchemaProfile)>)
        ensures
            entries_map(r@) == self@,
            keys_distinct(r@),
    {
        proof {
            use_type_invariant(self);
        }
        &self.profiles
    }
}

// ---------------------------------------------------------------------------
// `@pckg/package/version/path` references
// ---------------------------------------------------------------------------

/// The first `/` at or after `i`, or -1.
pub open spec fn slash_from(s: Seq<char>, i: int) -> int
    decreases s.len() - i,
{
    if i < 0 || i >= s.len() {
        -1
    } else if s[i] == '/' {
        i
    } else {
        slash_from(s, i + 1)
    }
}

pub proof fn lemma_slash_from(s: Seq<char>, i: int)
    requires
        0 <= i,
    ensures
        slash_from(s, i) == -1 || (i <= slash_from(s, i) < s.len() && s[slash_from(s, i)] == '/'),
        forall|j: int|
            i <= j < s.len() && (slash_from(s, i) < 0 || j < slash_from(s, i)) ==> s[j] != '/',
    decreases s.len() - i,
{
    if i < s.len() && s[i] != '/' {
        lemma_slash_from(s, i + 1);
    }
}

/// `slash_from` is the first `/` from `i` on.
pub proof fn lemma_slash_at(s: Seq<char>, i: int, k: int)
    requires
        0 <= i <= k <= s.len(),
        forall|j: int| i <= j < k ==> s[j] != '/',
        k == s.len() || s[k] == '/',
    ensures
        slash_from(s, i) == if k == s.len() {
            -1
        } else {
            k
        },
    decreases k - i,
{
    if i < k {
        lemma_slash_at(s, i + 1, k);
    }
}

pub open spec fn pckg_prefix() -> Seq<char> {
    "@pckg/"@
}

/// `@pckg/` followed by a package, a version and a profile path, split at the first two `/`
/// (the path keeps any further `/`); each part must be non-empty.
pub open spec fn pckg_spec(reference: Seq<char>) -> Result<(Seq<char>, Seq<char>, Seq<char>), SError> {
    let p = pckg_prefix().len() as int;
    let n = reference.len() as int;
    if !(p <= n && reference.subrange(0, p) == pckg_prefix()) {
        Err(SError::Import("invalid pckg reference `"@ + reference + "`"@))
    } else {
        let i1 = slash_from(reference, p);
        let package = if i1 < 0 {
            reference.subrange(p, n)
        } else {
            reference.subrange(p, i1)
        };
        if package.len() == 0 {
            Err(SError::Import("pckg reference missing package"@))
        } else if i1 < 0 {
            Err(SError::Import("pckg reference missing version"@))
        } else {
            let i2 = slash_from(reference, i1 + 1);
            let version = if i2 < 0 {
                reference.subrange(i1 + 1, n)
            } else {
                reference.subrange(i1 + 1, i2)
            };
            if version.len() == 0 {
                Err(SError::Import("pckg reference missing version"@))
            } else if i2 < 0 || i2 + 1 == n {
                Err(SError::Import("pckg reference missing profile path"@))
            } else {
                Ok((package, version, reference.subrange(i2 + 1, n)))
            }
        }
    }
}

pub open spec fn triple_res(r: Result<(String, String, String), BsolError>) -> Result<
    (Seq<char>, Seq<char>, Seq<char>),
    SError,
> {
    match r {
        Ok((a, b, c)) => Ok((a@, b@, c@)),
        Err(e) => Err(e@),
    }
}

fn find_slash(s: &Vec<char>, i: usize) -> (r: usize)
    requires
        i <= s@.len(),
    ensures
        i <= r <= s@.len(),
        r == s@.len() ==> slash_from(s@, i as int) == -1,
        r < s@.len() ==> slash_from(s@, i as int) == r,
{
    let mut k = i;
    while k < s.len() && s[k] != '/'
        invariant
            i <= k <= s@.len(),
            forall|j: int| i <= j < k ==> s@[j] != '/',
        decreases s.len() - k,
    {
        k = k + 1;
    }
    proof {
        lemma_slash_at(s@, i as int, k as int);
    }
    k
}

/// Parse `@pckg/package/version/path` shorthand into registry import fields.
pub fn parse_pckg_shorthand(reference: &str) -> (r: Result<(String, String, String), BsolError>)
    ensures
        triple_res(r) == pckg_spec(reference@),
{
    let cs = chars_of(reference);
    let p = chars_of("@pckg/").len();
    let n = cs.len();
    if !text_at(&cs, 0, "@pckg/") {
        return Err(BsolError::Import(cat3("invalid pckg reference `", reference, "`")));
    }
    let i1 = find_slash(&cs, p);
    if i1 == p {
        return Err(BsolError::Import(owned("pckg reference missing package")));
    }
    if i1 == n {
        return Err(BsolError::Import(owned("pckg reference missing version")));
    }
    let i2 = find_slash(&cs, i1 + 1);
    if i2 == i1 + 1 {
        return Err(BsolError::Import(owned("pckg reference missing version")));
    }
    if i2 == n || i2 + 1 == n {
        return Err(BsolError::Import(owned("pckg reference missing profile path")));
    }
    Ok((sub_text(reference, p, i1), sub_text(reference, i1 + 1, i2), sub_text(reference, i2 + 1, n)))
}

/// Every reference that parses is `@pckg/` followed by its package, `/`, its version, `/` and
/// its profile path.
pub proof fn law_pckg_parts_rebuild(reference: Seq<char>)
    requires
        pckg_spec(reference) is Ok,
    ensures
        ({
            let (package, version, path) = pckg_spec(reference)->Ok_0;
            reference == pckg_prefix() + package + seq!['/'] + version + seq!['/'] + path
        }),
{
    let p = pckg_prefix().len() as int;
    let n = reference.len() as int;
    lemma_slash_from(reference, p);
    let i1 = slash_from(reference, p);
    lemma_slash_from(reference, i1 + 1);
    let i2 = slash_from(reference, i1 + 1);
    let (package, version, path) = pckg_spec(reference)->Ok_0;
    assert(reference =~= reference.subrange(0, p) + reference.subrange(p, i1) + seq![reference[i1]]
        + reference.subrange(i1 + 1, i2) + seq![reference[i2]] + reference.subrange(i2 + 1, n));
}

/// A reference built from a package and a version (both non-empty, without `/`) and a non-empty
/// profile path parses back into those three parts, and from no other parts of that form.
pub proof fn law_pckg_roundtrip(package: Seq<char>, version: Seq<char>, path: Seq<char>)
    ensures
        (package.len() > 0 && version.len() > 0 && path.len() > 0
            && !package.contains('/') && !version.contains('/'))
            <==> pckg_spec(pckg_prefix() + package + seq!['/'] + version + seq!['/'] + path)
            == Ok::<(Seq<char>, Seq<char>, Seq<char>), SError>((package, version, path)),
{
    let r = pckg_prefix() + package + seq!['/'] + version + seq!['/'] + path;
    let p = pckg_prefix().len() as int;
    let a = p + package.len();
    let b = a + 1 + version.len();
    assert(r.subrange(0, p) =~= pckg_prefix());
    assert(r.subrange(p, a) =~= package);
    assert(r[a] == '/');
    assert(r.subrange(a + 1, b) =~= version);
    assert(r[b] == '/');
    assert(r.subrange(b + 1, r.len() as int) =~= path);
    assert forall|j: int| p <= j < a implies r[j] == package[j - p] by {}
    assert forall|j: int| a + 1 <= j < b implies r[j] == version[j - a - 1] by {}
    lemma_slash_from(r, p);
    let i1 = slash_from(r, p);
    if !package.contains('/') {
        assert forall|j: int| p <= j < a implies r[j] != '/' by {
            if r[j] == '/' {
                assert(package[j - p] == '/');
            }
        }
        lemma_slash_at(r, p, a);
        if !version.contains('/') {
            assert forall|j: int| a + 1 <= j < b implies r[j] != '/' by {
                if r[j] == '/' {
                    assert(version[j - a - 1] == '/');
                }
            }
            lemma_slash_at(r, a + 1, b);
        } else {
            let w = choose|w: int| 0 <= w < version.len() && version[w] == '/';
            assert(r[a + 1 + w] == '/');
            lemma_slash_from(r, a + 1);
        }
    } else {
        let w = choose|w: int| 0 <= w < package.len() && package[w] == '/';
        assert(r[p + w] == '/');
        assert(i1 <= p + w);
        if i1 >= p {
            assert(r.subrange(p, i1).len() < package.len());
        }
    }
}

// ---------------------------------------------------------------------------
// Resolving imports
// ---------------------------------------------------------------------------

/// A place imported schema profiles are fetched from (a directory, a registry, ...).
pub trait SchemaSource {
    /// May the source answer `outcome` for the import `spec` from `base_dir`?  A source that
    /// describes nothing of itself may answer anything.
    open spec fn answers(&self, spec: SImport, base_dir: Seq<char>, outcome: Result<SProfile, SError>) -> bool {
        true
    }

    fn resolve(&self, spec: &ImportSchemaSpec, base_dir: &str) -> (r: Result<SchemaProfile, BsolError>)
        ensures
            self.answers(view_import(*spec), base_dir@, profile_res(r)),
    ;
}

/// How deeply imports may nest; a chain of imports this deep is refused.
pub const IMPORT_DEPTH: u32 = 4294967295;

/// The name an import is known by: its alias, else its name.
pub open spec fn import_key(i: SImport) -> Seq<char> {
    match i.alias {
        Some(a) => a,
        None => i.name,
    }
}

fn import_key_of(i: &ImportSchemaSpec) -> (r: &String)
    ensures
        r@ == import_key(view_import(*i)),
{
    match &i.alias {
        Some(a) => a,
        None => &i.name,
    }
}

/// The name a fetched profile is collected under: the import's alias, else the profile's own
/// name.
pub open spec fn stored_key(i: SImport, q: SProfile) -> Seq<char> {
    match i.alias {
        Some(a) => a,
        None => q.name,
    }
}

fn stored_key_of(i: &ImportSchemaSpec, q: &SchemaProfile) -> (r: String)
    ensures
        r@ == stored_key(view_import(*i), q@),
{
    match &i.alias {
        Some(a) => a.clone(),
        None => q.name.clone(),
    }
}

/// Entries are only ever added.
pub open spec fn keeps_entries(before: Map<Seq<char>, SProfile>, after: Map<Seq<char>, SProfile>) -> bool {
    forall|k: Seq<char>| #[trigger]
        before.contains_key(k) ==> after.contains_key(k) && after[k] == before[k]
}

pub open spec fn import_depth_err() -> SError {
    SError::Import("schema imports nest too deeply"@)
}

/// The error of an import met again while it is still being resolved.
pub open spec fn import_cycle_err(k: Seq<char>) -> SError {
    SError::Import("cyclic `import_schema` of `"@ + k + "`"@)
}

/// Two imports name the same schema from the same place (where each was written aside).
pub open spec fn same_import(a: SImport, b: SImport) -> bool {
    a.name == b.name && a.alias == b.alias && a.from == b.from
}

/// `i` is one of the imports whose resolution is under way.
pub open spec fn on_path(path: Seq<SImport>, i: SImport) -> bool {
    exists|j: int| 0 <= j < path.len() && same_import(#[trigger] path[j], i)
}

fn same_text(a: &String, b: &String) -> (r: bool)
    ensures
        r == (a@ == b@),
{
    crate::text::str_eq(a.as_str(), b.as_str())
}

fn same_import_exec(a: &ImportSchemaSpec, b: &ImportSchemaSpec) -> (r: bool)
    ensures
        r == same_import(view_import(*a), view_import(*b)),
{
    if !same_text(&a.name, &b.name) {
        return false;
    }
    let alias_same = match (&a.alias, &b.alias) {
        (Some(x), Some(y)) => same_text(x, y),
        (None, None) => true,
        _ => false,
    };
    if !alias_same {
        return false;
    }
    match (&a.from, &b.from) {
        (ImportSource::File { path: p }, ImportSource::File { path: q }) => same_text(p, q),
        (ImportSource::Git { url: u1, rev: r1, path: p1 }, ImportSource::Git { url: u2, rev: r2, path: p2 }) => {
            same_text(u1, u2) && same_text(r1, r2) && same_text(p1, p2)
        },
        (
            ImportSource::Registry { package: k1, version: v1, path: p1 },
            ImportSource::Registry { package: k2, version: v2, path: p2 },
        ) => same_text(k1, k2) && same_text(v1, v2) && same_text(p1, p2),
        (ImportSource::PckgShorthand { reference: x }, ImportSource::PckgShorthand { reference: y }) => same_text(x, y),
        _ => false,
    }
}

fn on_path_exec(path: &Vec<ImportSchemaSpec>, i: &ImportSchemaSpec) -> (r: bool)
    ensures
        r == on_path(view_imports(path@), view_import(*i)),
{
    let ghost pv = view_imports(path@);
    let mut j: usize = 0;
    while j < path.len()
        invariant
            j <= path@.len(),
            pv == view_imports(path@),
            pv.len() == path@.len(),
            forall|q: int| 0 <= q < j ==> !same_import(#[trigger] pv[q], view_import(*i)),
        decreases path.len() - j,
    {
        if same_import_exec(&path[j], i) {
            proof {
                assert(pv[j as int] == view_import(path@[j as int]));
            }
            return true;
        }
        proof {
            assert(pv[j as int] == view_import(path@[j as int]));
        }
        j = j + 1;
    }
    false
}

/// What a source was asked, in order, and what it answered.
pub type FetchLog = Seq<(SImport, Result<SProfile, SError>)>;

/// Every answer in the log is one the source may give.
pub open spec fn answered_by<S: SchemaSource>(log: FetchLog, source: &S, base_dir: Seq<char>) -> bool {
    forall|j: int| 0 <= j < log.len() ==> #[trigger] source.answers(log[j].0, base_dir, log[j].1)
}

/// Collecting `p` under `key` into `c`, its imports from position `i` on first, with the
/// source's answers taken from `log` in order, `anc` holding the imports whose resolution is
/// under way: an import whose key (alias, else name) is already collected is skipped; one under
/// way is a cycle; any other is asked of the source; an error comes back as it is; a profile is
/// collected, with its own imports, under the import's alias, else its own name; last `p` is
/// added under `key`, which must be free.  The result comes with the part of the log not used;
/// `None` when the log does not hold the answers asked for.
pub open spec fn collect_spec(
    c: Map<Seq<char>, SProfile>,
    p: SProfile,
    key: Seq<char>,
    anc: Seq<SImport>,
    i: int,
    log: FetchLog,
    depth: nat,
) -> Option<(Result<Map<Seq<char>, SProfile>, SError>, FetchLog)>
    decreases depth, p.imports.len() - i,
{
    if i < 0 || i >= p.imports.len() {
        if c.contains_key(key) {
            Some((Err(collision_err(key)), log))
        } else {
            Some((Ok(c.insert(key, p)), log))
        }
    } else {
        let imp = p.imports[i];
        if c.contains_key(import_key(imp)) {
            collect_spec(c, p, key, anc, i + 1, log, depth)
        } else if depth == 0 {
            Some((Err(import_depth_err()), log))
        } else if on_path(anc, imp) {
            Some((Err(import_cycle_err(imp.name)), log))
        } else if log.len() == 0 || log[0].0 != imp {
            None
        } else {
            let rest = log.subrange(1, log.len() as int);
            match log[0].1 {
                Err(e) => Some((Err(e), rest)),
                Ok(q) => match collect_spec(c, q, stored_key(imp, q), anc.push(imp), 0, rest, (depth - 1) as nat) {
                    None => None,
                    Some((Err(e), rest2)) => Some((Err(e), rest2)),
                    Some((Ok(c2), rest2)) => collect_spec(c2, p, key, anc, i + 1, rest2, depth),
                },
            }
        }
    }
}

pub open spec fn into_res(r: Result<(), BsolError>, c: Map<Seq<char>, SProfile>) -> Result<Map<Seq<char>, SProfile>, SError> {
    match r {
        Ok(()) => Ok(c),
        Err(e) => Err(e@),
    }
}

fn resolve_profile_into<S: SchemaSource>(
    collection: &mut SchemaCollection,
    profile: SchemaProfile,
    key: String,
    anc: &mut Vec<ImportSchemaSpec>,
    base_dir: &str,
    source: &S,
    depth: u32,
) -> (r: (Result<(), BsolError>, Ghost<FetchLog>))
    ensures
        final(anc)@ == old(anc)@,
        keeps_entries(old(collection)@, final(collection)@),
        r.0 is Ok ==> final(collection)@.contains_key(key@) && final(collection)@[key@] == profile@,
        answered_by(r.1@, source, base_dir@),
        forall|tail: FetchLog|
            #[trigger] collect_spec(old(collection)@, profile@, key@, view_imports(old(anc)@), 0, r.1@ + tail, depth as nat)
                == Some((into_res(r.0, final(collection)@), tail)),
        profile.imports@.len() == 0 ==> unit_res(r.0) == if old(collection)@.contains_key(key@) {
            Err(collision_err(key@))
        } else {
            Ok(())
        },
        profile.imports@.len() == 0 ==> final(collection)@ == if old(collection)@.contains_key(key@) {
            old(collection)@
        } else {
            old(collection)@.insert(key@, profile@)
        },
    decreases depth,
{
    let ghost c0 = collection@;
    let ghost pv = profile@;
    let ghost kv = key@;
    let ghost a0 = anc@;
    let ghost av = view_imports(anc@);
    let ghost d = depth as nat;
    let ghost mut log: FetchLog = Seq::empty();
    let imports = copy_imports(&profile.imports);
    let mut i: usize = 0;
    proof {
        assert forall|tail: FetchLog| #[trigger] collect_spec(c0, pv, kv, av, 0, log + tail, d) == collect_spec(collection@, pv, kv, av, 0, tail, d) by {
            assert(log + tail =~= tail);
        }
    }
    while i < imports.len()
        invariant
            c0 == old(collection)@,
            a0 == old(anc)@,
            anc@ == a0,
            av == view_imports(a0),
            pv == profile@,
            kv == key@,
            d == depth as nat,
            keeps_entries(c0, collection@),
            profile.imports@.len() == 0 ==> collection@ == c0,
            view_imports(imports@) == view_imports(profile.imports@),
            view_imports(imports@) == pv.imports,
            imports@.len() == pv.imports.len(),
            i <= imports@.len(),
            answered_by(log, source, base_dir@),
            forall|tail: FetchLog| #[trigger] collect_spec(c0, pv, kv, av, 0, log + tail, d) == collect_spec(collection@, pv, kv, av, i as int, tail, d),
        decreases imports.len() - i,
    {
        let ghost imp = pv.imports[i as int];
        proof {
            assert(imp == view_import(imports@[i as int]));
        }
        let k = import_key_of(&imports[i]);
        if collection.get(k.as_str()).is_none() {
            if depth == 0 {
                let e = BsolError::Import(owned("schema imports nest too deeply"));
                proof {
                    assert forall|tail: FetchLog| #[trigger] collect_spec(c0, pv, kv, av, 0, log + tail, d) == Some((into_res(Err::<(), BsolError>(e), collection@), tail)) by {}
                }
                return (Err(e), Ghost(log));
            }
            if on_path_exec(anc, &imports[i]) {
                let e = BsolError::Import(cat3("cyclic `import_schema` of `", imports[i].name.as_str(), "`"));
                proof {
                    assert forall|tail: FetchLog| #[trigger] collect_spec(c0, pv, kv, av, 0, log + tail, d) == Some((into_res(Err::<(), BsolError>(e), collection@), tail)) by {}
                }
                return (Err(e), Ghost(log));
            }
            let ghost cur = collection@;
            match source.resolve(&imports[i], base_dir) {
                Err(e) => {
                    let ghost x = (imp, Err::<SProfile, SError>(e@));
                    let ghost log2 = log.push(x);
                    proof {
                        assert forall|tail: FetchLog| #[trigger] collect_spec(c0, pv, kv, av, 0, log2 + tail, d) == Some((into_res(Err::<(), BsolError>(e), collection@), tail)) by {
                            assert(log2 + tail =~= log + (seq![x] + tail));
                            assert((seq![x] + tail).subrange(1, (seq![x] + tail).len() as int) =~= tail);
                        }
                        assert forall|j: int| 0 <= j < log2.len() implies #[trigger] source.answers(log2[j].0, base_dir@, log2[j].1) by {
                            if j < log.len() {
                                assert(log2[j] == log[j]);
                            }
                        }
                    }
                    return (Err(e), Ghost(log2));
                },
                Ok(q) => {
                    let ghost x = (imp, Ok::<SProfile, SError>(q@));
                    let ghost qv = q@;
                    let ghost log1 = log.push(x);
                    proof {
                        assert forall|j: int| 0 <= j < log1.len() implies #[trigger] source.answers(log1[j].0, base_dir@, log1[j].1) by {
                            if j < log.len() {
                                assert(log1[j] == log[j]);
                            }
                        }
                    }
                    let sk = stored_key_of(&imports[i], &q);
                    anc.push(copy_import(&imports[i]));
                    proof {
                        assert(view_imports(anc@) =~= av.push(imp));
                    }
                    let (sub, Ghost(sublog)) = resolve_profile_into(collection, q, sk, anc, base_dir, source, depth - 1);
                    let _ = anc.pop();
                    proof {
                        assert(anc@ =~= a0);
                    }
                    let ghost log2 = log1 + sublog;
                    proof {
                        assert forall|j: int| 0 <= j < log2.len() implies #[trigger] source.answers(log2[j].0, base_dir@, log2[j].1) by {
                            if j < log1.len() {
                                assert(log2[j] == log1[j]);
                            } else {
                                assert(log2[j] == sublog[j - log1.len()]);
                            }
                        }
                        assert forall|tail: FetchLog| #[trigger] collect_spec(c0, pv, kv, av, 0, log2 + tail, d) == (match sub {
                            Ok(()) => collect_spec(collection@, pv, kv, av, i + 1, tail, d),
                            Err(e) => Some((Err(e@), tail)),
                        }) by {
                            assert(log2 + tail =~= log + (seq![x] + (sublog + tail)));
                            assert((seq![x] + (sublog + tail)).subrange(1, (seq![x] + (sublog + tail)).len() as int) =~= sublog + tail);
                            assert(collect_spec(cur, qv, stored_key(imp, qv), av.push(imp), 0, sublog + tail, (d - 1) as nat) == Some((into_res(sub, collection@), tail)));
                        }
                    }
                    match sub {
                        Ok(()) => {
                            proof {
                                log = log2;
                            }
                        },
                        Err(e) => {
                            return (Err(e), Ghost(log2));
                        },
                    }
                },
            }
        } else {
            proof {
                assert forall|tail: FetchLog| #[trigger] collect_spec(c0, pv, kv, av, 0, log + tail, d) == collect_spec(collection@, pv, kv, av, i + 1, tail, d) by {}
            }
        }
        i = i + 1;
    }
    let ghost c2 = collection@;
    let r = collection.insert(key, profile);
    proof {
        assert forall|tail: FetchLog| #[trigger] collect_spec(c0, pv, kv, av, 0, log + tail, d) == Some((into_res(r, collection@), tail)) by {
            assert(collect_spec(c2, pv, kv, av, i as int, tail, d) == collect_spec(c2, pv, kv, av, pv.imports.len() as int, tail, d));
        }
    }
    (r, Ghost(log))
}

/// The collection a resolution gives, as a map, or its error.
pub open spec fn collection_res(r: Result<SchemaCollection, BsolError>) -> Result<Map<Seq<char>, SProfile>, SError> {
    match r {
        Ok(c) => Ok(c@),
        Err(e) => Err(e@),
    }
}

/// Resolve a profile and all `import_schema` dependencies: the source is asked for each import
/// whose key (alias, else name) is not yet collected, depth first and in order; its first error
/// is the result; each profile it returns is collected, with its own imports, under the
/// import's alias, else the profile's own name, and one that comes back under the name of a
/// profile still being resolved is refused as a cycle; the profile itself comes last, under its
/// name.
pub fn resolve_profile<S: SchemaSource>(profile: SchemaProfile, base_dir: &str, source: &S) -> (r:
    Result<SchemaCollection, BsolError>)
    ensures
        r matches Ok(c) ==> c@.contains_key(profile.name@) && c@[profile.name@] == profile@,
        exists|log: FetchLog|
            answered_by(log, source, base_dir@) && #[trigger] collect_spec(
                Map::empty(),
                profile@,
                profile.name@,
                Seq::<SImport>::empty(),
                0,
                log,
                IMPORT_DEPTH as nat,
            ) == Some((collection_res(r), Seq::<(SImport, Result<SProfile, SError>)>::empty())),
        profile.imports@.len() == 0 ==> (r matches Ok(c) && c@ == map![profile.name@ => profile@]),
{
    let mut collection = SchemaCollection::default();
    let ghost pv = profile@;
    let name = profile.name.clone();
    let mut anc: Vec<ImportSchemaSpec> = Vec::new();
    proof {
        assert(view_imports(anc@) =~= Seq::<SImport>::empty());
    }
    let (res, Ghost(log)) = resolve_profile_into(&mut collection, profile, name, &mut anc, base_dir, source, IMPORT_DEPTH);
    proof {
        assert(log + Seq::<(SImport, Result<SProfile, SError>)>::empty() =~= log);
        assert(collect_spec(Map::empty(), pv, pv.name, Seq::<SImport>::empty(), 0, log + Seq::<(SImport, Result<SProfile, SError>)>::empty(), IMPORT_DEPTH as nat) == Some((into_res(res, collection@), Seq::<(SImport, Result<SProfile, SError>)>::empty())));
        assert(Map::<Seq<char>, SProfile>::empty().insert(pv.name, pv) =~= map![pv.name => pv]);
    }
    match res {
        Ok(()) => Ok(collection),
        Err(e) => Err(e),
    }
}

/// Load profile from text after external fetch.
pub fn load_fetched_profile(source: &str) -> (r: Result<SchemaProfile, BsolError>)
    requires
        !document_unspannable_from(source.spec_bytes(), 0),
    ensures
        profile_res(r) == load_source_spec(source.spec_bytes()),
{
    load_profile_from_source(source)
}

// ---------------------------------------------------------------------------
// The active profile
// ---------------------------------------------------------------------------

/// What a source returned for each import, in order (`None`: not asked, or it failed).
pub open spec fn fetched_views(f: Seq<Option<SchemaProfile>>) -> Seq<Option<SProfile>> {
    f.map_values(|o: Option<SchemaProfile>| match o {
        Some(p) => Some(view_profile(p)),
        None => None,
    })
}

pub open spec fn fetched_at(f: Seq<Option<SProfile>>, i: int) -> Option<SProfile> {
    if 0 <= i < f.len() {
        f[i]
    } else {
        None
    }
}

/// One import laid under the active profile: the collection's profile of that name, else the
/// fetched one, else nothing.
pub open spec fn import_step(
    active: SProfile,
    i: SImport,
    c: Map<Seq<char>, SProfile>,
    fetched: Option<SProfile>,
) -> SProfile {
    if c.contains_key(import_key(i)) {
        merge_profiles_spec(c[import_key(i)], active)
    } else {
        match fetched {
            Some(p) => merge_profiles_spec(p, active),
            None => active,
        }
    }
}

/// The first `n` imports laid under `active`, in order.
pub open spec fn fold_imports(
    active: SProfile,
    imports: Seq<SImport>,
    c: Map<Seq<char>, SProfile>,
    fetched: Seq<Option<SProfile>>,
    n: nat,
) -> SProfile
    decreases n,
{
    if n == 0 {
        active
    } else {
        import_step(
            fold_imports(active, imports, c, fetched, (n - 1) as nat),
            imports[n - 1],
            c,
            fetched_at(fetched, n - 1),
        )
    }
}

/// One `extend` laid under the active profile: the collection's base profile, else the embedded
/// one (with only this extension on top), else nothing.
pub open spec fn extend_step(active: SProfile, x: SExtend, c: Map<Seq<char>, SProfile>) -> SProfile {
    if c.contains_key(x.base) {
        merge_profiles_spec(c[x.base], active)
    } else {
        match load_profile_spec(x.base) {
            Ok(b) => merge_profiles_spec(b, SProfile { extends: seq![x], ..active }),
            Err(_) => active,
        }
    }
}

/// The first `n` extensions laid under `active`, in order.
pub open spec fn fold_extends(active: SProfile, xs: Seq<SExtend>, c: Map<Seq<char>, SProfile>, n: nat) -> SProfile
    decreases n,
{
    if n == 0 {
        active
    } else {
        extend_step(fold_extends(active, xs, c, (n - 1) as nat), xs[n - 1], c)
    }
}

/// The active profile: the collection's entry for the profile's name (else the profile), with
/// its imports, then its extensions, laid under it, composed.
pub open spec fn activate_spec(
    root: SProfile,
    c: Map<Seq<char>, SProfile>,
    fetched: Seq<Option<SProfile>>,
) -> Result<SProfile, SError> {
    let start = if c.contains_key(root.name) {
        c[root.name]
    } else {
        root
    };
    let a1 = fold_imports(start, start.imports, c, fetched, start.imports.len());
    compose_spec(fold_extends(a1, a1.extends, c, a1.extends.len()))
}

/// Compose the active validation profile from a resolved collection and what the source
/// returned for each import of the profile that the collection lacks.
pub fn activate_profile(
    profile: SchemaProfile,
    collection: &SchemaCollection,
    fetched: &Vec<Option<SchemaProfile>>,
) -> (r: Result<SchemaProfile, BsolError>)
    ensures
        profile_res(r) == activate_spec(profile@, collection@, fetched_views(fetched@)),
{
    let ghost c = collection@;
    let ghost fv = fetched_views(fetched@);
    let mut active = match collection.get(profile.name.as_str()) {
        Some(p) => copy_profile(p),
        None => profile,
    };
    let ghost start = active@;
    let imports = copy_imports(&active.imports);
    let ghost iv = view_imports(imports@);
    proof {
        assert(iv.len() == imports@.len());
        assert(fv.len() == fetched@.len());
    }
    let mut i: usize = 0;
    while i < imports.len()
        invariant
            c == collection@,
            fv == fetched_views(fetched@),
            fv.len() == fetched@.len(),
            iv == view_imports(imports@),
            iv == start.imports,
            iv.len() == imports@.len(),
            i <= imports@.len(),
            active@ == fold_imports(start, iv, c, fv, i as nat),
        decreases imports.len() - i,
    {
        proof {
            assert(iv[i as int] == view_import(imports@[i as int]));
        }
        let key = import_key_of(&imports[i]);
        match collection.get(key.as_str()) {
            Some(imported) => {
                active = merge_profiles(copy_profile(imported), active);
            },
            None => {
                if i < fetched.len() {
                    match &fetched[i] {
                        Some(p) => {
                            active = merge_profiles(copy_profile(p), active);
                        },
                        None => {},
                    }
                }
            },
        }
        i = i + 1;
    }
    let ghost a1 = active@;
    let xs = copy_extends(&active.extends);
    let ghost xv = view_extends(xs@);
    proof {
        assert(xv.len() == xs@.len());
    }
    let mut j: usize = 0;
    while j < xs.len()
        invariant
            c == collection@,
            xv == view_extends(xs@),
            xv == a1.extends,
            xv.len() == xs@.len(),
            j <= xs@.len(),
            active@ == fold_extends(a1, xv, c, j as nat),
        decreases xs.len() - j,
    {
        proof {
            assert(xv[j as int] == view_extend(xs@[j as int]));
        }
        match collection.get(xs[j].base.as_str()) {
            Some(b) => {
                active = merge_profiles(copy_profile(b), active);
            },
            None => match load_profile(xs[j].base.as_str()) {
                Ok(b) => {
                    let mut overlay = active;
                    overlay.extends = vec![copy_extend(&xs[j])];
                    proof {
                        assert(view_extends(overlay.extends@) =~= seq![xv[j as int]]);
                    }
                    active = merge_profiles(b, overlay);
                },
                Err(_) => {},
            },
        }
        j = j + 1;
    }
    compose_profile(active)
}

/// What was fetched for each import: nothing for one the collection holds, else a profile the
/// source may answer for it, or nothing.
pub open spec fn fetched_by<S: SchemaSource>(
    f: Seq<Option<SProfile>>,
    c: Map<Seq<char>, SProfile>,
    imports: Seq<SImport>,
    source: &S,
    base_dir: Seq<char>,
) -> bool {
    &&& f.len() == imports.len()
    &&& forall|i: int| 0 <= i < f.len() && c.contains_key(import_key(imports[i])) ==> (#[trigger] f[i]) is None
    &&& forall|i: int| 0 <= i < f.len() ==> ((#[trigger] f[i]) matches Some(q) ==> source.answers(imports[i], base_dir, Ok(q)))
}

/// What the source returns for the imports of `profile` that `collection` lacks, in order.
fn fetch_imports<S: SchemaSource>(
    profile: &SchemaProfile,
    collection: &SchemaCollection,
    base_dir: &str,
    source: &S,
) -> (r: Vec<Option<SchemaProfile>>)
    ensures
        r@.len() == if collection@.contains_key(profile.name@) {
            collection@[profile.name@].imports.len()
        } else {
            profile@.imports.len()
        },
        fetched_by(
            fetched_views(r@),
            collection@,
            if collection@.contains_key(profile.name@) {
                collection@[profile.name@].imports
            } else {
                profile@.imports
            },
            source,
            base_dir@,
        ),
{
    let imports: &Vec<ImportSchemaSpec> = match collection.get(profile.name.as_str()) {
        Some(p) => &p.imports,
        None => &profile.imports,
    };
    let ghost iv = view_imports(imports@);
    proof {
        assert(iv == if collection@.contains_key(profile.name@) {
            collection@[profile.name@].imports
        } else {
            profile@.imports
        });
    }
    let mut out: Vec<Option<SchemaProfile>> = Vec::new();
    let mut i: usize = 0;
    proof {
        assert(view_imports(imports@).len() == imports@.len());
    }
    while i < imports.len()
        invariant
            i <= imports@.len(),
            iv == view_imports(imports@),
            iv.len() == imports@.len(),
            out@.len() == i,
            forall|j: int| 0 <= j < i && collection@.contains_key(import_key(iv[j])) ==> (#[trigger] fetched_views(out@)[j]) is None,
            forall|j: int| 0 <= j < i ==> ((#[trigger] fetched_views(out@)[j]) matches Some(q) ==> source.answers(iv[j], base_dir@, Ok(q))),
        decreases imports.len() - i,
    {
        proof {
            assert(iv[i as int] == view_import(imports@[i as int]));
        }
        let ghost o0 = out@;
        let key = import_key_of(&imports[i]);
        if collection.get(key.as_str()).is_some() {
            out.push(None);
        } else {
            match source.resolve(&imports[i], base_dir) {
                Ok(p) => out.push(Some(p)),
                Err(_) => out.push(None),
            }
        }
        proof {
            assert forall|j: int| 0 <= j < i + 1 implies #[trigger] fetched_views(out@)[j] == if j < i { fetched_views(o0)[j] } else { fetched_views(out@)[i as int] } by {
                if j < i {
                    assert(out@[j] == o0[j]);
                }
            }
        }
        i = i + 1;
    }
    out
}

/// Compose the active validation profile from imports, extends, and overlays.
pub fn resolve_active_profile<S: SchemaSource>(profile: SchemaProfile, base_dir: &str, source: &S) -> (r:
    Result<SchemaProfile, BsolError>)
    ensures
        profile.imports@.len() == 0 ==> profile_res(r) == activate_spec(
            profile@,
            map![profile.name@ => profile@],
            Seq::empty(),
        ),
        r is Ok ==> exists|c: Map<Seq<char>, SProfile>, f: Seq<Option<SProfile>>|
            c.contains_key(profile.name@) && c[profile.name@] == profile@ && profile_res(r)
                == #[trigger] activate_spec(profile@, c, f),
        exists|log: FetchLog|
            answered_by(log, source, base_dir@) && match #[trigger] collect_spec(
                Map::empty(),
                profile@,
                profile.name@,
                Seq::<SImport>::empty(),
                0,
                log,
                IMPORT_DEPTH as nat,
            ) {
                None => false,
                Some((cres, rest)) => rest.len() == 0 && match cres {
                    Err(e) => profile_res(r) == Err::<SProfile, SError>(e),
                    Ok(c) => exists|f: Seq<Option<SProfile>>|
                        fetched_by(f, c, profile@.imports, source, base_dir@) && profile_res(r)
                            == #[trigger] activate_spec(profile@, c, f),
                },
            },
{
    let root = copy_profile(&profile);
    proof {
        assert(root@ == profile@);
        assert(root.name@ == profile.name@);
    }
    let resolved = resolve_profile(root, base_dir, source);
    let ghost flog = choose|log: FetchLog|
        answered_by(log, source, base_dir@) && #[trigger] collect_spec(
            Map::empty(),
            profile@,
            profile.name@,
            Seq::<SImport>::empty(),
            0,
            log,
            IMPORT_DEPTH as nat,
        ) == Some((collection_res(resolved), Seq::<(SImport, Result<SProfile, SError>)>::empty()));
    let collection = match resolved {
        Ok(c) => c,
        Err(e) => {
            return Err(e);
        },
    };
    let fetched = fetch_imports(&profile, &collection, base_dir, source);
    let ghost fv = fetched_views(fetched@);
    proof {
        if profile.imports@.len() == 0 {
            assert(fv =~= Seq::<Option<SProfile>>::empty());
        }
    }
    let ghost pv = profile@;
    let r = activate_profile(profile, &collection, &fetched);
    proof {
        if pv.imports.len() == 0 {
            assert(collection@ == map![pv.name => pv]);
        }
        assert(answered_by(flog, source, base_dir@));
        assert(collection@.contains_key(pv.name) && collection@[pv.name] == pv);
        assert(fetched_by(fv, collection@, pv.imports, source, base_dir@));
        assert(profile_res(r) == activate_spec(pv, collection@, fv));
        assert(collect_spec(Map::empty(), pv, pv.name, Seq::<SImport>::empty(), 0, flog, IMPORT_DEPTH as nat)
            == Some((Ok::<Map<Seq<char>, SProfile>, SError>(collection@), Seq::<(SImport, Result<SProfile, SError>)>::empty())));
        assert(exists|f: Seq<Option<SProfile>>|
            fetched_by(f, collection@, pv.imports, source, base_dir@) && profile_res(r)
                == #[trigger] activate_spec(pv, collection@, f));
        assert(pv.name == view_profile(profile).name);
        assert(match collect_spec(Map::empty(), pv, pv.name, Seq::<SImport>::empty(), 0, flog, IMPORT_DEPTH as nat) {
                None => false,
                Some((cres, rest)) => rest.len() == 0 && match cres {
                    Err(e) => profile_res(r) == Err::<SProfile, SError>(e),
                    Ok(c) => exists|f: Seq<Option<SProfile>>|
                        fetched_by(f, c, pv.imports, source, base_dir@) && profile_res(r)
                            == #[trigger] activate_spec(pv, c, f),
                },
            });
    }
    r
}

} // verus!
