use vstd::prelude::*;

use crate::error::Error;
use crate::options::{texts, AliasMap, AliasMapView, EnforceExtension, ResolverOptions};
use crate::path::is_absolute;
use crate::resolver::{FileSystem, Resolver};

verus! {

/// Options as a JavaScript caller writes them: each may be left out, and then
/// takes its default.
#[derive(Debug)]
pub struct RawResolverOptions {
    pub extensions: Option<Vec<String>>,
    /// `Some(None)` leaves the choice to the extensions.
    pub enforce_extension: Option<Option<bool>>,
    /// A key and its target; no target ignores the key.
    pub alias: Option<Vec<(String, Option<String>)>>,
    /// The fields read as `browser` fields; only `browser` is known.
    pub alias_fields: Option<Vec<String>>,
    pub condition_names: Option<Vec<String>>,
    pub symlinks: Option<bool>,
    /// `Some(None)` keeps the default description file.
    pub description_file: Option<Option<String>>,
    pub main_files: Option<Vec<String>>,
    pub main_fields: Option<Vec<String>>,
    pub modules: Option<Vec<String>>,
    pub prefer_relative: Option<bool>,
    /// Accepted and not used: this resolver keeps no cache.
    pub enable_unsafe_cache: Option<bool>,
}

/// The enforcement of extensions a raw option asks for.
pub open spec fn spec_raw_enforce(e: Option<Option<bool>>) -> EnforceExtension {
    match e {
        Some(Some(true)) => EnforceExtension::Enabled,
        Some(Some(false)) => EnforceExtension::Disabled,
        _ => EnforceExtension::Auto,
    }
}

/// The model of the aliases a raw option gives: each key maps to its target, or
/// is ignored.
pub open spec fn spec_raw_alias(v: Seq<(String, Option<String>)>) -> Seq<(Seq<char>, Seq<AliasMapView>)> {
    v.map_values(
        |e: (String, Option<String>)|
            (
                e.0@,
                match e.1 {
                    Some(t) => seq![AliasMapView::Target(t@)],
                    None => seq![AliasMapView::Ignored],
                },
            ),
    )
}

/// The model of a list of aliases of the options.
pub open spec fn alias_lists_view(v: Seq<(String, Vec<AliasMap>)>) -> Seq<(Seq<char>, Seq<AliasMapView>)> {
    v.map_values(|e: (String, Vec<AliasMap>)| (e.0@, e.1@.map_values(|a: AliasMap| a@)))
}

/// The text list a raw option gives, or the default one.
pub open spec fn texts_or(o: Option<Vec<String>>, d: Seq<Seq<char>>) -> Seq<Seq<char>> {
    match o {
        Some(v) => texts(v@),
        None => d,
    }
}

fn strings_or(o: &Option<Vec<String>>, d: Vec<String>) -> (r: Vec<String>)
    ensures
        texts(r@) == texts_or(*o, texts(d@)),
{
    match o {
        Some(v) => {
            let mut r: Vec<String> = Vec::new();
            let mut i: usize = 0;
            while i < v.len()
                invariant
                    i <= v@.len(),
                    r@.len() == i,
                    forall|j: int| 0 <= j < i ==> #[trigger] r@[j]@ == v@[j]@,
                decreases v@.len() - i,
            {
                r.push(v[i].clone());
                i = i + 1;
            }
            assert(texts(r@) =~= texts(v@));
            r
        },
        None => d,
    }
}

fn contains_text(v: &Vec<String>, s: &str) -> (r: bool)
    ensures
        r == texts(v@).contains(s@),
{
    let mut i: usize = 0;
    while i < v.len()
        invariant
            i <= v@.len(),
            forall|j: int| 0 <= j < i ==> v@[j]@ != s@,
        decreases v@.len() - i,
    {
        if crate::text::str_eq(v[i].as_str(), s) {
            assert(texts(v@)[i as int] == s@);
            return true;
        }
        i = i + 1;
    }
    proof {
        if texts(v@).contains(s@) {
            let j = choose|j: int| 0 <= j < texts(v@).len() && texts(v@)[j] == s@;
            assert(v@[j]@ == s@);
        }
    }
    false
}

impl RawResolverOptions {
    /// The options with each missing one taken from the defaults.
    pub fn normalized(&self) -> (r: ResolverOptions)
        ensures
            r.enforce_extension == (match self.enforce_extension {
                Some(e) => spec_raw_enforce(Some(e)),
                None => EnforceExtension::Auto,
            }),
            texts(r.extensions@) == texts_or(self.extensions, seq![".js"@, ".json"@, ".node"@]),
            alias_lists_view(r.alias@) == (match self.alias {
                Some(v) => spec_raw_alias(v@),
                None => Seq::empty(),
            }),
            r.browser_field == (match self.alias_fields {
                Some(v) => texts(v@).contains("browser"@),
                None => false,
            }),
            texts(r.condition_names@) == texts_or(self.condition_names, seq!["node"@]),
            r.symlinks == (match self.symlinks {
                Some(b) => b,
                None => true,
            }),
            r.description_file@ == (match self.description_file {
                Some(Some(d)) => d@,
                _ => "package.json"@,
            }),
            texts(r.main_files@) == texts_or(self.main_files, seq!["index"@]),
            texts(r.main_fields@) == texts_or(self.main_fields, seq!["main"@]),
            texts(r.modules@) == texts_or(self.modules, seq!["node_modules"@]),
            r.prefer_relative == (match self.prefer_relative {
                Some(b) => b,
                None => false,
            }),
            r.fallback@.len() == 0,
            r.extension_alias@.len() == 0,
            r.exports_field@.len() == 1,
            texts(r.exports_field@[0]@) == seq!["exports"@],
            !r.fully_specified,
            !r.resolve_to_context,
            r.tsconfig is None,
    {
        let defaults = ResolverOptions::new_default();
        let enforce_extension = match self.enforce_extension {
            Some(Some(true)) => EnforceExtension::Enabled,
            Some(Some(false)) => EnforceExtension::Disabled,
            _ => EnforceExtension::Auto,
        };
        let alias = match &self.alias {
            Some(v) => {
                let mut alias: Vec<(String, Vec<AliasMap>)> = Vec::new();
                let mut i: usize = 0;
                while i < v.len()
                    invariant
                        i <= v@.len(),
                        alias@.len() == i,
                        alias_lists_view(alias@) == spec_raw_alias(v@.subrange(0, i as int)),
                    decreases v@.len() - i,
                {
                    let mut targets: Vec<AliasMap> = Vec::new();
                    match &v[i].1 {
                        Some(t) => targets.push(AliasMap::Target(t.clone())),
                        None => targets.push(AliasMap::Ignored),
                    }
                    let ghost expected = match v@[i as int].1 {
                        Some(t) => seq![AliasMapView::Target(t@)],
                        None => seq![AliasMapView::Ignored],
                    };
                    assert(targets@.map_values(|a: AliasMap| a@) =~= expected);
                    let key = v[i].0.clone();
                    assert(key@ == v@[i as int].0@);
                    let ghost before = alias@;
                    alias.push((key, targets));
                    assert(alias_lists_view(alias@).len() == i + 1);
                    assert(spec_raw_alias(v@.subrange(0, i + 1)).len() == i + 1);
                    assert forall|j: int| 0 <= j < i + 1 implies #[trigger] alias_lists_view(alias@)[j]
                        == spec_raw_alias(v@.subrange(0, i + 1))[j] by {
                        if j < i {
                            assert(alias@[j] == before[j]);
                            assert(alias_lists_view(before)[j] == spec_raw_alias(v@.subrange(0, i as int))[j]);
                        } else {
                            assert(alias@[j] == (key, targets));
                        }
                    }
                    assert(alias_lists_view(alias@) =~= spec_raw_alias(v@.subrange(0, i + 1)));
                    i = i + 1;
                }
                assert(v@.subrange(0, v@.len() as int) =~= v@);
                alias
            },
            None => defaults.alias,
        };
        let browser_field = match &self.alias_fields {
            Some(v) => contains_text(v, "browser"),
            None => false,
        };
        let description_file = match &self.description_file {
            Some(Some(d)) => d.clone(),
            _ => defaults.description_file,
        };
        ResolverOptions {
            extensions: strings_or(&self.extensions, defaults.extensions),
            enforce_extension,
            alias,
            fallback: defaults.fallback,
            prefer_relative: match self.prefer_relative {
                Some(b) => b,
                None => false,
            },
            symlinks: match self.symlinks {
                Some(b) => b,
                None => true,
            },
            description_file,
            main_files: strings_or(&self.main_files, defaults.main_files),
            main_fields: strings_or(&self.main_fields, defaults.main_fields),
            modules: strings_or(&self.modules, defaults.modules),
            browser_field,
            condition_names: strings_or(&self.condition_names, defaults.condition_names),
            exports_field: defaults.exports_field,
            extension_alias: defaults.extension_alias,
            fully_specified: defaults.fully_specified,
            resolve_to_context: defaults.resolve_to_context,
            tsconfig: defaults.tsconfig,
        }
    }
}

/// The handle a JavaScript caller holds for a resolver.
#[derive(Debug)]
pub struct ResolverInternal {}

/// What a JavaScript caller is told of a resolution: whether a path was found,
/// and which.
#[derive(Debug)]
pub struct ResolveResult {
    pub status: bool,
    pub path: Option<String>,
}

/// What a caller is told of the outcome of [`Resolver::resolve`]: a resource gives
/// its path, an ignored request no path, and an error stays an error.
pub fn binding_result(result: Result<crate::resolver::ResolveResult<crate::resource::Resource>, Error>) -> (r:
    Result<ResolveResult, Error>)
    ensures
        match result {
            Ok(crate::resolver::ResolveResult::Resource(res)) => r matches Ok(b) && b.status && b.path
                == Some(res.path),
            Ok(crate::resolver::ResolveResult::Ignored) => r matches Ok(b) && !b.status && b.path is None,
            Err(_) => r is Err,
        },
{
    match result {
        Ok(crate::resolver::ResolveResult::Resource(res)) => Ok(ResolveResult { status: true, path: Some(res.path) }),
        Ok(crate::resolver::ResolveResult::Ignored) => Ok(ResolveResult { status: false, path: None }),
        Err(e) => Err(e),
    }
}

/// Resolves `id` in `base_dir` for a JavaScript caller.
pub fn resolve<F: FileSystem>(resolver: &Resolver<F>, base_dir: &str, id: &str) -> (r: Result<
    ResolveResult,
    Error,
>)
    requires
        is_absolute(base_dir@),
        resolver.options.tsconfig matches Some(location) ==> is_absolute(location@),
    ensures
        r matches Ok(b) ==> (b.status <==> b.path is Some),
        r matches Ok(b) ==> (b.path matches Some(p) ==> is_absolute(p@)),
        resolver.options.tsconfig is None && crate::plugin::ignored_by_alias(
            resolver.options.alias@,
            crate::parse::spec_from_request(id@),
        ) ==> (r matches Ok(b) && !b.status && b.path is None),
{
    binding_result(resolver.resolve(base_dir, id))
}

} // verus!
