use vstd::prelude::*;

verus! {

/// What an alias maps to.
#[derive(Debug)]
pub enum AliasMap {
    Target(String),
    Ignored,
}

/// The model of an [`AliasMap`].
pub enum AliasMapView {
    Target(Seq<char>),
    Ignored,
}

impl View for AliasMap {
    type V = AliasMapView;

    open spec fn view(&self) -> AliasMapView {
        match self {
            AliasMap::Target(s) => AliasMapView::Target(s@),
            AliasMap::Ignored => AliasMapView::Ignored,
        }
    }
}

impl AliasMap {
    pub fn duplicate(&self) -> (r: Self)
        ensures
            r@ == self@,
    {
        match self {
            AliasMap::Target(s) => AliasMap::Target(s.clone()),
            AliasMap::Ignored => AliasMap::Ignored,
        }
    }
}

/// Whether a file must be named with one of the extensions.
#[derive(Debug, Clone, Copy, PartialEq, Eq, Structural)]
pub enum EnforceExtension {
    /// Enabled when one of the extensions is empty.
    Auto,
    Enabled,
    Disabled,
}

/// The options of a resolver.
#[derive(Debug)]
pub struct ResolverOptions {
    /// Extensions tried on a file. Default `[".js", ".json", ".node"]`.
    pub extensions: Vec<String>,
    /// Whether a file must carry one of the extensions. Default `Auto`.
    pub enforce_extension: EnforceExtension,
    /// Aliases, in order: a key and what it maps to. Default empty.
    pub alias: Vec<(String, Vec<AliasMap>)>,
    /// Aliases tried when resolution fails. Default empty.
    pub fallback: Vec<(String, Vec<AliasMap>)>,
    /// Try a module request as a relative one first. Default `false`.
    pub prefer_relative: bool,
    /// Resolve symlinks in the result. Default `true`.
    pub symlinks: bool,
    /// The description file of a package. Default `package.json`.
    pub description_file: String,
    /// Files tried in a directory. Default `["index"]`.
    pub main_files: Vec<String>,
    /// Fields of the description file naming the main file. Default `["main"]`.
    pub main_fields: Vec<String>,
    /// Directories searched for modules. Default `["node_modules"]`.
    pub modules: Vec<String>,
    /// Read the `browser` field. Default `false`.
    pub browser_field: bool,
    /// Condition names for the `exports` and `imports` fields. Default `["node"]`.
    pub condition_names: Vec<String>,
    /// Paths of the `exports` field in the description file. Default `[["exports"]]`.
    pub exports_field: Vec<Vec<String>>,
    /// Extensions that stand for others, in order. Default empty.
    pub extension_alias: Vec<(String, Vec<String>)>,
    /// The request must name a file exactly. Default `false`.
    pub fully_specified: bool,
    /// Resolve to a directory. Default `false`.
    pub resolve_to_context: bool,
    /// A `tsconfig.json` whose `baseUrl` and `paths` apply. Default `None`.
    pub tsconfig: Option<String>,
}

/// The texts of a list of strings.
pub open spec fn texts(v: Seq<String>) -> Seq<Seq<char>> {
    v.map_values(|s: String| s@)
}

fn strings_from(items: &[&str]) -> (r: Vec<String>)
    ensures
        r@.len() == items@.len(),
        forall|i: int| 0 <= i < items@.len() ==> #[trigger] r@[i]@ == items@[i]@,
{
    let mut r: Vec<String> = Vec::new();
    let mut i: usize = 0;
    while i < items.len()
        invariant
            i <= items@.len(),
            r@.len() == i,
            forall|j: int| 0 <= j < i ==> #[trigger] r@[j]@ == items@[j]@,
        decreases items@.len() - i,
    {
        r.push(items[i].to_owned());
        i = i + 1;
    }
    r
}

impl ResolverOptions {
    /// The default options.
    pub fn new_default() -> (r: Self)
        ensures
            texts(r.extensions@) == seq![".js"@, ".json"@, ".node"@],
            r.enforce_extension == EnforceExtension::Auto,
            r.alias@.len() == 0,
            r.fallback@.len() == 0,
            !r.prefer_relative,
            r.symlinks,
            r.description_file@ == "package.json"@,
            texts(r.main_files@) == seq!["index"@],
            texts(r.main_fields@) == seq!["main"@],
            texts(r.modules@) == seq!["node_modules"@],
            !r.browser_field,
            texts(r.condition_names@) == seq!["node"@],
            r.exports_field@.len() == 1,
            texts(r.exports_field@[0]@) == seq!["exports"@],
            r.extension_alias@.len() == 0,
            !r.fully_specified,
            !r.resolve_to_context,
            r.tsconfig is None,
    {
        let extensions = strings_from(&[".js", ".json", ".node"]);
        let main_files = strings_from(&["index"]);
        let main_fields = strings_from(&["main"]);
        let modules = strings_from(&["node_modules"]);
        let condition_names = strings_from(&["node"]);
        let mut exports_field: Vec<Vec<String>> = Vec::new();
        exports_field.push(strings_from(&["exports"]));
        let r = ResolverOptions {
            extensions,
            enforce_extension: EnforceExtension::Auto,
            alias: Vec::new(),
            fallback: Vec::new(),
            prefer_relative: false,
            symlinks: true,
            description_file: String::from_str("package.json"),
            main_files,
            main_fields,
            modules,
            browser_field: false,
            condition_names,
            exports_field,
            extension_alias: Vec::new(),
            fully_specified: false,
            resolve_to_context: false,
            tsconfig: None,
        };
        assert(texts(r.extensions@) =~= seq![".js"@, ".json"@, ".node"@]);
        assert(texts(r.main_files@) =~= seq!["index"@]);
        assert(texts(r.main_fields@) =~= seq!["main"@]);
        assert(texts(r.modules@) =~= seq!["node_modules"@]);
        assert(texts(r.condition_names@) =~= seq!["node"@]);
        assert(texts(r.exports_field@[0]@) =~= seq!["exports"@]);
        r
    }
}

impl Default for ResolverOptions {
    fn default() -> (r: Self)
        ensures
            texts(r.extensions@) == seq![".js"@, ".json"@, ".node"@],
            r.enforce_extension == EnforceExtension::Auto,
            r.alias@.len() == 0,
            r.fallback@.len() == 0,
            !r.prefer_relative,
            r.symlinks,
            r.description_file@ == "package.json"@,
            texts(r.main_files@) == seq!["index"@],
            texts(r.main_fields@) == seq!["main"@],
            texts(r.modules@) == seq!["node_modules"@],
            !r.browser_field,
            texts(r.condition_names@) == seq!["node"@],
            r.exports_field@.len() == 1,
            texts(r.exports_field@[0]@) == seq!["exports"@],
            r.extension_alias@.len() == 0,
            !r.fully_specified,
            !r.resolve_to_context,
            r.tsconfig is None,
    {
        ResolverOptions::new_default()
    }
}

} // verus!
