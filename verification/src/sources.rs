//! Schema sources: which file an import names, how a `@pckg/` or registry import maps to a
//! materialized cache entry, and chains of sources tried in turn.  Reading the files is left to
//! the caller.

use vstd::prelude::*;

use crate::compose::profile_res;
use crate::error::{BsolError, SError};
use crate::resolver::{parse_pckg_shorthand, pckg_spec, triple_res, SchemaSource};
use crate::schema::{ImportSchemaSpec, ImportSource, SchemaProfile};
use crate::schema_view::{view_import, view_import_source, view_profile, SImport, SImportSource, SProfile};
use crate::text::{cat3, join2, owned};

verus! {

/// The `Debug` text of a string: quoted, with its characters escaped.
pub uninterp spec fn str_debug(s: Seq<char>) -> Seq<char>;

/// `format!("{:?}", s)` for a string slice (`<str as Debug>`): the quoted, escaped text; the
/// text is claimed to depend on the string alone, and nothing more is said of it.
#[verifier::external_body]
fn debug_str(s: &str) -> (r: String)
    ensures
        r@ == str_debug(s@),
{
    format!("{:?}", s)
}

/// The `Debug` text of an import source, as `derive(Debug)` writes a variant with named fields.
pub open spec fn import_source_debug(s: SImportSource) -> Seq<char> {
    match s {
        SImportSource::File { path } => "File { path: "@ + str_debug(path) + " }"@,
        SImportSource::Git { url, rev, path } => "Git { url: "@ + str_debug(url) + ", rev: "@
            + str_debug(rev) + ", path: "@ + str_debug(path) + " }"@,
        SImportSource::Registry { package, version, path } => "Registry { package: "@ + str_debug(
            package,
        ) + ", version: "@ + str_debug(version) + ", path: "@ + str_debug(path) + " }"@,
        SImportSource::PckgShorthand { reference } => "PckgShorthand { reference: "@ + str_debug(
            reference,
        ) + " }"@,
    }
}

fn import_source_text(s: &ImportSource) -> (r: String)
    ensures
        r@ == import_source_debug(view_import_source(*s)),
{
    match s {
        ImportSource::File { path } => cat3("File { path: ", debug_str(path.as_str()).as_str(), " }"),
        ImportSource::Git { url, rev, path } => {
            let a = cat3("Git { url: ", debug_str(url.as_str()).as_str(), ", rev: ");
            let b = cat3(a.as_str(), debug_str(rev.as_str()).as_str(), ", path: ");
            cat3(b.as_str(), debug_str(path.as_str()).as_str(), " }")
        },
        ImportSource::Registry { package, version, path } => {
            let a = cat3("Registry { package: ", debug_str(package.as_str()).as_str(), ", version: ");
            let b = cat3(a.as_str(), debug_str(version.as_str()).as_str(), ", path: ");
            cat3(b.as_str(), debug_str(path.as_str()).as_str(), " }")
        },
        ImportSource::PckgShorthand { reference } => cat3(
            "PckgShorthand { reference: ",
            debug_str(reference.as_str()).as_str(),
            " }",
        ),
    }
}

// ---------------------------------------------------------------------------
// Files
// ---------------------------------------------------------------------------

/// Resolves schemas from the local filesystem only.
#[derive(Debug, Default, Clone, Copy)]
pub struct FileSchemaSource;

/// A file import names its path (relative to the base directory); any other import is refused.
pub open spec fn file_path_spec(i: SImport) -> Result<Seq<char>, SError> {
    match i.from {
        SImportSource::File { path } => Ok(path),
        other => Err(
            SError::Import(
                "file resolver cannot resolve `"@ + import_source_debug(other) + "` for `"@ + i.name
                    + "`"@,
            ),
        ),
    }
}

impl FileSchemaSource {
    /// The path, relative to the base directory, of the file that `spec` imports.
    pub fn file_path(&self, spec: &ImportSchemaSpec) -> (r: Result<String, BsolError>)
        ensures
            match r {
                Ok(p) => file_path_spec(view_import(*spec)) == Ok::<Seq<char>, SError>(p@),
                Err(e) => file_path_spec(view_import(*spec)) == Err::<Seq<char>, SError>(e@),
            },
    {
        match &spec.from {
            ImportSource::File { path } => Ok(path.clone()),
            other => {
                let a = cat3("file resolver cannot resolve `", import_source_text(other).as_str(), "` for `");
                Err(BsolError::Import(join2(join2(a, spec.name.as_str()), "`")))
            },
        }
    }
}

// ---------------------------------------------------------------------------
// Materialized packages
// ---------------------------------------------------------------------------

/// Resolves `@pckg/` shorthand and registry imports from a pre-materialized cache root laid out
/// as `<cache_root>/<package>/<version>/<profile path>`.
#[derive(Debug, Clone)]
pub struct PckgSchemaSource {
    pub cache_root: String,
}

/// The package, version and profile path an import names: a `@pckg/` reference is parsed, a
/// registry import gives them as they are; any other import is refused.
pub open spec fn pckg_parts_spec(i: SImport) -> Result<(Seq<char>, Seq<char>, Seq<char>), SError> {
    match i.from {
        SImportSource::PckgShorthand { reference } => pckg_spec(reference),
        SImportSource::Registry { package, version, path } => Ok((package, version, path)),
        other => Err(
            SError::Import("pckg resolver cannot resolve `"@ + import_source_debug(other) + "`"@),
        ),
    }
}

impl PckgSchemaSource {
    pub fn new(cache_root: &str) -> (r: Self)
        ensures
            r.cache_root@ == cache_root@,
    {
        PckgSchemaSource { cache_root: owned(cache_root) }
    }

    /// The package, version and profile path of the cache entry that `spec` imports.
    pub fn package_parts(&self, spec: &ImportSchemaSpec) -> (r: Result<(String, String, String), BsolError>)
        ensures
            triple_res(r) == pckg_parts_spec(view_import(*spec)),
    {
        match &spec.from {
            ImportSource::PckgShorthand { reference } => parse_pckg_shorthand(reference.as_str()),
            ImportSource::Registry { package, version, path } => Ok(
                (package.clone(), version.clone(), path.clone()),
            ),
            other => Err(
                BsolError::Import(cat3("pckg resolver cannot resolve `", import_source_text(other).as_str(), "`")),
            ),
        }
    }
}

// ---------------------------------------------------------------------------
// Chains of sources
// ---------------------------------------------------------------------------

/// What a chain answers from the outcomes of the sources it asked, in order: the first success,
/// else the last error, else (no source asked) "no resolver".
pub open spec fn first_resolved(outs: Seq<Result<SProfile, SError>>, name: Seq<char>) -> Result<SProfile, SError>
    decreases outs.len(),
{
    if outs.len() == 0 {
        Err(SError::Import("no resolver for schema `"@ + name + "`"@))
    } else if outs[0] is Ok || outs.len() == 1 {
        outs[0]
    } else {
        first_resolved(outs.subrange(1, outs.len() as int), name)
    }
}

/// The outcomes of asking `sources` in turn, stopping at the first success: each outcome is one
/// its source may answer, every outcome but the last is an error, and fewer than all were asked
/// only if the last succeeded.
pub open spec fn asked_in_turn(
    outs: Seq<Result<SProfile, SError>>,
    sources: Seq<Box<dyn SchemaSource>>,
    spec: SImport,
    base_dir: Seq<char>,
) -> bool {
    let n = sources.len();
    &&& outs.len() <= n
    &&& forall|i: int| 0 <= i < outs.len() ==> #[trigger] sources[i].answers(spec, base_dir, outs[i])
    &&& forall|i: int| 0 <= i < outs.len() - 1 ==> (#[trigger] outs[i]) is Err
    &&& outs.len() < n ==> outs.len() > 0 && outs[outs.len() - 1] is Ok
}

proof fn lemma_first_resolved_last(outs: Seq<Result<SProfile, SError>>, name: Seq<char>)
    requires
        outs.len() > 0,
        forall|i: int| 0 <= i < outs.len() - 1 ==> (#[trigger] outs[i]) is Err,
    ensures
        first_resolved(outs, name) == outs[outs.len() - 1],
    decreases outs.len(),
{
    if outs.len() > 1 {
        let rest = outs.subrange(1, outs.len() as int);
        assert(outs[0] is Err);
        assert forall|i: int| 0 <= i < rest.len() - 1 implies (#[trigger] rest[i]) is Err by {
            assert(rest[i] == outs[i + 1]);
        }
        lemma_first_resolved_last(rest, name);
    }
}

/// A chain asks its sources in turn and stops at the first success, which is the answer; when
/// no source succeeds, every source was asked and the last one's error is the answer (with no
/// sources, "no resolver").
pub proof fn law_first_success_wins(
    outs: Seq<Result<SProfile, SError>>,
    sources: Seq<Box<dyn SchemaSource>>,
    spec: SImport,
    base_dir: Seq<char>,
)
    requires
        asked_in_turn(outs, sources, spec, base_dir),
    ensures
        forall|i: int| 0 <= i < outs.len() && (#[trigger] outs[i]) is Ok ==> i == outs.len() - 1
            && first_resolved(outs, spec.name) == outs[i],
        (forall|i: int| 0 <= i < outs.len() ==> (#[trigger] outs[i]) is Err) ==> outs.len() == sources.len()
            && (outs.len() > 0 ==> first_resolved(outs, spec.name) == outs[outs.len() - 1]),
        sources.len() == 0 ==> first_resolved(outs, spec.name) == Err::<SProfile, SError>(
            SError::Import("no resolver for schema `"@ + spec.name + "`"@),
        ),
{
    if outs.len() > 0 {
        lemma_first_resolved_last(outs, spec.name);
    }
}

/// Sources tried in turn: the first that resolves an import wins; when none does, the last
/// error is reported.
pub struct CompositeSchemaSource {
    sources: Vec<Box<dyn SchemaSource>>,
}

impl CompositeSchemaSource {
    pub open spec fn source_count(&self) -> nat {
        self.sources().len()
    }

    /// The sources, in the order they are tried.
    pub closed spec fn sources(&self) -> Seq<Box<dyn SchemaSource>> {
        self.sources@
    }

    /// A chain that tries `sources` in the order given.
    pub fn new(sources: Vec<Box<dyn SchemaSource>>) -> (r: Self)
        ensures
            r.sources() == sources@,
            r.source_count() == sources@.len(),
    {
        CompositeSchemaSource { sources }
    }

    /// Add a source, tried after the others.
    pub fn add_source(&mut self, source: Box<dyn SchemaSource>)
        ensures
            final(self).sources() == old(self).sources().push(source),
            final(self).source_count() == old(self).source_count() + 1,
    {
        let ghost s0 = self.sources@;
        self.sources.push(source);
        proof {
            vstd::seq::axiom_seq_push_len(s0, source);
        }
    }

    /// Try each source in order.
    pub fn resolve_first(&self, spec: &ImportSchemaSpec, base_dir: &str) -> (r: Result<SchemaProfile, BsolError>)
        ensures
            self.source_count() == 0 ==> (r matches Err(e) && e@ == SError::Import(
                "no resolver for schema `"@ + spec.name@ + "`"@,
            )),
            exists|outs: Seq<Result<SProfile, SError>>|
                asked_in_turn(outs, self.sources(), view_import(*spec), base_dir@) && profile_res(r) == #[trigger] first_resolved(
                    outs,
                    spec.name@,
                ),
    {
        let mut last: Option<BsolError> = None;
        let ghost mut outs: Seq<Result<SProfile, SError>> = Seq::empty();
        let mut i: usize = 0;
        while i < self.sources.len()
            invariant
                i <= self.sources@.len(),
                i == 0 ==> last is None,
                outs.len() == i,
                forall|j: int| 0 <= j < outs.len() ==> (#[trigger] outs[j]) is Err,
                i > 0 ==> (last matches Some(e) && outs[i - 1] == Err::<SProfile, SError>(e@)),
                forall|j: int| 0 <= j < outs.len() ==> #[trigger] self.sources@[j].answers(view_import(*spec), base_dir@, outs[j]),
            decreases self.sources.len() - i,
        {
            match self.sources[i].resolve(spec, base_dir) {
                Ok(p) => {
                    proof {
                        let o2 = outs.push(Ok(view_profile(p)));
                        assert forall|j: int| 0 <= j < o2.len() - 1 implies (#[trigger] o2[j]) is Err by {
                            assert(o2[j] == outs[j]);
                        }
                        lemma_first_resolved_last(o2, spec.name@);
                        assert forall|j: int| 0 <= j < o2.len() implies #[trigger] self.sources@[j].answers(view_import(*spec), base_dir@, o2[j]) by {
                            if j < outs.len() {
                                assert(o2[j] == outs[j]);
                            }
                        }
                        assert(asked_in_turn(o2, self.sources(), view_import(*spec), base_dir@));
                        assert(profile_res(Ok::<SchemaProfile, BsolError>(p)) == first_resolved(o2, spec.name@));
                    }
                    return Ok(p);
                },
                Err(e) => {
                    proof {
                        let o0 = outs;
                        outs = outs.push(Err(e@));
                        assert forall|j: int| 0 <= j < outs.len() implies (#[trigger] outs[j]) is Err by {
                            if j < o0.len() {
                                assert(outs[j] == o0[j]);
                            }
                        }
                        assert forall|j: int| 0 <= j < outs.len() implies #[trigger] self.sources@[j].answers(view_import(*spec), base_dir@, outs[j]) by {
                            if j < o0.len() {
                                assert(outs[j] == o0[j]);
                            }
                        }
                    }
                    last = Some(e);
                },
            }
            i = i + 1;
        }
        proof {
            if i > 0 {
                lemma_first_resolved_last(outs, spec.name@);
            }
            assert(asked_in_turn(outs, self.sources(), view_import(*spec), base_dir@));
        }
        match last {
            Some(e) => Err(e),
            None => Err(BsolError::Import(cat3("no resolver for schema `", spec.name.as_str(), "`"))),
        }
    }
}

impl SchemaSource for CompositeSchemaSource {
    fn resolve(&self, spec: &ImportSchemaSpec, base_dir: &str) -> (r: Result<SchemaProfile, BsolError>)
        ensures
            self.source_count() == 0 ==> (r matches Err(e) && e@ == SError::Import(
                "no resolver for schema `"@ + spec.name@ + "`"@,
            )),
            exists|outs: Seq<Result<SProfile, SError>>|
                asked_in_turn(outs, self.sources(), view_import(*spec), base_dir@) && profile_res(r) == #[trigger] first_resolved(
                    outs,
                    spec.name@,
                ),
    {
        self.resolve_first(spec, base_dir)
    }
}

} // verus!
