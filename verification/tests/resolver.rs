use std::collections::{HashMap, HashSet};
use std::io;

use nodejs_resolver::context::Context;
use nodejs_resolver::error::Error;
use nodejs_resolver::kind::PathKind;
use nodejs_resolver::options::{AliasMap, EnforceExtension, ResolverOptions};
use nodejs_resolver::resolver::{FileKind, FileSystem, ResolveResult, Resolver, ResolverBuilder};

/// A file system held in memory: files with their text, directories, and links.
struct MemoryFs {
    files: HashMap<String, String>,
    dirs: HashSet<String>,
    links: HashMap<String, String>,
}

impl MemoryFs {
    fn new(files: &[(&str, &str)]) -> Self {
        let mut fs = MemoryFs { files: HashMap::new(), dirs: HashSet::new(), links: HashMap::new() };
        fs.dirs.insert("/".to_string());
        for (path, text) in files {
            fs.files.insert(path.to_string(), text.to_string());
            fs.add_parents(path);
        }
        fs
    }

    fn add_parents(&mut self, path: &str) {
        let mut cur = path.to_string();
        while let Some(i) = cur.rfind('/') {
            cur.truncate(i);
            if cur.is_empty() {
                break;
            }
            self.dirs.insert(cur.clone());
        }
    }

    fn with_dir(mut self, dir: &str) -> Self {
        self.dirs.insert(dir.to_string());
        self.add_parents(dir);
        self
    }

    fn with_link(mut self, link: &str, target: &str) -> Self {
        self.links.insert(link.to_string(), target.to_string());
        self.add_parents(link);
        self
    }

    fn real_path(&self, path: &str) -> String {
        let mut out = String::new();
        for component in path.split('/').filter(|c| !c.is_empty()) {
            out.push('/');
            out.push_str(component);
            if let Some(target) = self.links.get(&out) {
                out = target.clone();
            }
        }
        if out.is_empty() {
            "/".to_string()
        } else {
            out
        }
    }
}

fn not_found(path: &str) -> io::Error {
    io::Error::new(io::ErrorKind::NotFound, path.to_string())
}

impl FileSystem for MemoryFs {
    fn read_to_string(&self, path: &str) -> Result<String, io::Error> {
        self.files.get(&self.real_path(path)).cloned().ok_or_else(|| not_found(path))
    }

    fn read_link(&self, path: &str) -> Result<String, io::Error> {
        self.links.get(path.trim_end_matches('/')).cloned().ok_or_else(|| not_found(path))
    }

    fn metadata(&self, path: &str) -> Result<FileKind, io::Error> {
        let actual = self.real_path(path);
        if self.files.contains_key(&actual) {
            Ok(FileKind::File)
        } else if self.dirs.contains(&actual) {
            Ok(FileKind::Dir)
        } else {
            Err(not_found(path))
        }
    }

    fn canonicalize(&self, path: &str) -> Result<String, io::Error> {
        let actual = self.real_path(path);
        if self.files.contains_key(&actual) || self.dirs.contains(&actual) {
            Ok(actual)
        } else {
            Err(not_found(path))
        }
    }
}

fn resolver(fs: MemoryFs, options: ResolverOptions) -> Resolver<MemoryFs> {
    ResolverBuilder::new(fs).build(options)
}

fn resolved(r: &Resolver<MemoryFs>, dir: &str, request: &str) -> String {
    match r.resolve(dir, request) {
        Ok(ResolveResult::Resource(resource)) => resource.join(),
        Ok(ResolveResult::Ignored) => panic!("{request} should not be ignored"),
        Err(error) => panic!("{request}: {error:?}"),
    }
}

fn failed(r: &Resolver<MemoryFs>, dir: &str, request: &str) {
    assert!(matches!(r.resolve(dir, request), Err(Error::ResolveFailedTag)), "{request} should fail");
}

#[test]
fn test_resolver() {
    type R = Resolver<MemoryFs>;
    assert!(matches!(R::get_target_kind(""), PathKind::Relative));
    assert!(matches!(R::get_target_kind("."), PathKind::Relative));
    assert!(matches!(R::get_target_kind(".."), PathKind::Relative));
    assert!(matches!(R::get_target_kind("../a.js"), PathKind::Relative));
    assert!(matches!(R::get_target_kind("./a.js"), PathKind::Relative));
    assert!(matches!(R::get_target_kind("D:"), PathKind::AbsoluteWin));
    assert!(matches!(R::get_target_kind("C:path"), PathKind::Normal));
    assert!(matches!(R::get_target_kind("C:\\a"), PathKind::AbsoluteWin));
    assert!(matches!(R::get_target_kind("c:/a"), PathKind::AbsoluteWin));
    assert!(matches!(R::get_target_kind("cc:/a"), PathKind::Normal));
    assert!(matches!(R::get_target_kind("fs"), PathKind::Normal));
}

#[test]
fn target_kinds_of_other_requests() {
    type R = Resolver<MemoryFs>;
    assert!(matches!(R::get_target_kind("#internal"), PathKind::Internal));
    assert!(matches!(R::get_target_kind("/abs/a.js"), PathKind::AbsolutePosix));
    assert!(matches!(R::get_target_kind("..a"), PathKind::Normal));
    assert!(matches!(R::get_target_kind("@scope/pkg"), PathKind::Normal));
}

#[test]
fn parse_identifier_test() {
    fn should_parsed(ident: &str, t: &str, q: &str, f: &str) {
        let request = Resolver::<MemoryFs>::parse(ident);
        assert_eq!((request.target(), request.query(), request.fragment()), (t, q, f));
    }
    should_parsed("path/#", "path/", "", "#");
    should_parsed("path/as/?", "path/as/", "?", "");
    should_parsed("path/#/?", "path/", "", "#/?");
    should_parsed("path/#repo#hash", "path/", "", "#repo#hash");
    should_parsed("path/#r#hash", "path/", "", "#r#hash");
    should_parsed("path/#repo/#repo2#hash", "path/", "", "#repo/#repo2#hash");
    should_parsed("path/#r/#r#hash", "path/", "", "#r/#r#hash");
    should_parsed("path/#/not/a/hash?not-a-query", "path/", "", "#/not/a/hash?not-a-query");
    should_parsed("#a?b#c?d", "#a", "?b", "#c?d");

    // windows like
    should_parsed("path\\#", "path\\", "", "#");
    should_parsed("C:path\\as\\?", "C:path\\as\\", "?", "");
    should_parsed("path\\#\\?", "path\\", "", "#\\?");
    should_parsed("path\\#repo#hash", "path\\", "", "#repo#hash");
    should_parsed("path\\#r#hash", "path\\", "", "#r#hash");
    should_parsed("path\\#/not/a/hash?not-a-query", "path\\", "", "#/not/a/hash?not-a-query");
}

#[test]
fn parsed_request_displays_as_written() {
    for ident in ["path/#", "a?b#c", "#a?b#c?d", "./main1.js?#fragment", "plain"] {
        assert_eq!(Resolver::<MemoryFs>::parse(ident).display(), ident);
    }
}

#[test]
fn simple_relative_requests() {
    let fs = MemoryFs::new(&[("/p/lib/index.js", ""), ("/p/main1.js", "")]);
    let r = resolver(fs, ResolverOptions::default());
    assert_eq!(resolved(&r, "/p", "./lib/index"), "/p/lib/index.js");
    assert_eq!(resolved(&r, "/p", "./lib/index.js"), "/p/lib/index.js");
    assert_eq!(resolved(&r, "/p", "./lib"), "/p/lib/index.js");
    assert_eq!(resolved(&r, "/p/lib", "../main1"), "/p/main1.js");
    assert_eq!(resolved(&r, "/p", "/p/main1"), "/p/main1.js");
    failed(&r, "/p", "./missing");
    failed(&r, "/p", "missing-module");
}

#[test]
fn query_and_fragment_are_kept() {
    let fs = MemoryFs::new(&[("/p/main1.js", ""), ("/p/no#fragment/#/index.js", "")]);
    let r = resolver(fs, ResolverOptions::default());
    assert_eq!(resolved(&r, "/p", "./main1.js?query"), "/p/main1.js?query");
    assert_eq!(resolved(&r, "/p", "./main1.js#fragment"), "/p/main1.js#fragment");
    assert_eq!(resolved(&r, "/p", "./main1.js#fragment?query"), "/p/main1.js#fragment?query");
    assert_eq!(resolved(&r, "/p", "./main1.js?#fragment"), "/p/main1.js?#fragment");
    assert_eq!(resolved(&r, "/p", "./no#fragment/#/"), "/p/no#fragment/#/index.js");
}

#[test]
fn resource_parts() {
    let fs = MemoryFs::new(&[("/p/main1.js", ""), ("/p/package.json", "{\"name\": \"p\"}")]);
    let r = resolver(fs, ResolverOptions::default());
    match r.resolve("/p", "./main1?q#f").unwrap() {
        ResolveResult::Resource(resource) => {
            assert_eq!(resource.path, "/p/main1.js");
            assert_eq!(resource.query.as_deref(), Some("?q"));
            assert_eq!(resource.fragment.as_deref(), Some("#f"));
            let description = resource.description.expect("the package describes the file");
            assert_eq!(description.dir_path().as_str(), "/p");
            assert_eq!(description.json().name(), Some("p"));
        }
        ResolveResult::Ignored => panic!("not ignored"),
    }
}

#[test]
fn extensions_in_order_and_enforced() {
    let fs = MemoryFs::new(&[("/p/a.ts", ""), ("/p/a.js", ""), ("/p/b", "")]);
    let options = ResolverOptions {
        extensions: vec![".ts".to_string(), ".js".to_string()],
        ..ResolverOptions::default()
    };
    let r = resolver(fs, options);
    assert_eq!(resolved(&r, "/p", "./a"), "/p/a.ts");
    assert_eq!(resolved(&r, "/p", "./a.js"), "/p/a.js");
    assert_eq!(resolved(&r, "/p", "./b"), "/p/b");

    let fs = MemoryFs::new(&[("/p/a.ts", ""), ("/p/b", "")]);
    let options = ResolverOptions {
        extensions: vec![".ts".to_string()],
        enforce_extension: EnforceExtension::Enabled,
        ..ResolverOptions::default()
    };
    let r = resolver(fs, options);
    assert_eq!(resolved(&r, "/p", "./a"), "/p/a.ts");
    failed(&r, "/p", "./b");
}

#[test]
fn build_settles_auto_enforcement() {
    let fs = MemoryFs::new(&[]);
    let options = ResolverOptions { extensions: vec!["".to_string(), ".js".to_string()], ..ResolverOptions::default() };
    assert_eq!(resolver(fs, options).options.enforce_extension, EnforceExtension::Enabled);
    let fs = MemoryFs::new(&[]);
    assert_eq!(resolver(fs, ResolverOptions::default()).options.enforce_extension, EnforceExtension::Disabled);
    let fs = MemoryFs::new(&[]);
    let options = ResolverOptions { enforce_extension: EnforceExtension::Disabled, extensions: vec!["".to_string()], ..ResolverOptions::default() };
    assert_eq!(resolver(fs, options).options.enforce_extension, EnforceExtension::Disabled);
}

#[test]
fn node_modules_found_upwards() {
    let fs = MemoryFs::new(&[
        ("/p/node_modules/foo/index.js", ""),
        ("/p/node_modules/bar/lib/main.js", ""),
        ("/p/node_modules/bar/package.json", "{\"name\": \"bar\", \"main\": \"lib/main.js\"}"),
        ("/p/node_modules/@scope/pack1/main.js", ""),
        ("/p/node_modules/@scope/pack1/package.json", "{\"main\": \"./main.js\"}"),
    ])
    .with_dir("/p/src/deep");
    let r = resolver(fs, ResolverOptions::default());
    assert_eq!(resolved(&r, "/p/src/deep", "foo"), "/p/node_modules/foo/index.js");
    assert_eq!(resolved(&r, "/p/src", "bar"), "/p/node_modules/bar/lib/main.js");
    assert_eq!(resolved(&r, "/p", "bar/lib/main"), "/p/node_modules/bar/lib/main.js");
    assert_eq!(resolved(&r, "/p/src", "@scope/pack1"), "/p/node_modules/@scope/pack1/main.js");
    failed(&r, "/p/src", "baz");
}

#[test]
fn exports_field_of_a_package() {
    let fs = MemoryFs::new(&[
        ("/p/node_modules/foo/index.js", ""),
        ("/p/node_modules/foo/lib/sub.js", ""),
        ("/p/node_modules/foo/lib/other.js", ""),
        (
            "/p/node_modules/foo/package.json",
            "{\"name\": \"foo\", \"exports\": {\".\": \"./index.js\", \"./sub\": \"./lib/sub.js\", \"./up\": \"./../x.js\", \"./bad\": \"lib/other.js\"}}",
        ),
    ]);
    let r = resolver(fs, ResolverOptions::default());
    assert_eq!(resolved(&r, "/p", "foo"), "/p/node_modules/foo/index.js");
    assert_eq!(resolved(&r, "/p", "foo/sub"), "/p/node_modules/foo/lib/sub.js");
    match r.resolve("/p", "foo/lib/other.js") {
        Err(Error::UnexpectedValue(m)) => {
            assert_eq!(m, "Package path foo/lib/other.js is not exported in /p/node_modules/foo/package.json")
        }
        other => panic!("{other:?}"),
    }
    match r.resolve("/p", "foo/up") {
        Err(Error::UnexpectedValue(m)) => assert!(m.starts_with("Trying to access out of package scope. Requesting ./../x.js"), "{m}"),
        other => panic!("{other:?}"),
    }
    match r.resolve("/p", "foo/bad") {
        Err(Error::UnexpectedValue(m)) => assert_eq!(
            m,
            "Invalid \"lib/other.js\" defined in /p/node_modules/foo/package.json, target must start with  \"./\""
        ),
        other => panic!("{other:?}"),
    }
}

#[test]
fn imports_field_of_a_package() {
    let fs = MemoryFs::new(&[
        ("/p/src/a.js", ""),
        ("/p/node_modules/dep/index.js", ""),
        ("/p/package.json", "{\"imports\": {\"#a\": \"./src/a.js\", \"#dep\": \"dep\", \"#up\": \"../b.js\"}}"),
    ]);
    let r = resolver(fs, ResolverOptions::default());
    assert_eq!(resolved(&r, "/p", "#a"), "/p/src/a.js");
    assert_eq!(resolved(&r, "/p/src", "#a"), "/p/src/a.js");
    assert_eq!(resolved(&r, "/p", "#dep"), "/p/node_modules/dep/index.js");
    match r.resolve("/p", "#missing") {
        Err(Error::UnexpectedValue(m)) => assert_eq!(m, "Package path #missing can't imported in \"/p\""),
        other => panic!("{other:?}"),
    }
}

#[test]
fn aliases_and_ignored_aliases() {
    let fs = MemoryFs::new(&[("/p/b/index.js", ""), ("/p/c.js", "")]);
    let options = ResolverOptions {
        alias: vec![
            ("aliasA".to_string(), vec![AliasMap::Target("./b".to_string())]),
            ("exact$".to_string(), vec![AliasMap::Target("./c".to_string())]),
            ("ignored".to_string(), vec![AliasMap::Ignored]),
            ("multi".to_string(), vec![AliasMap::Target("./none".to_string()), AliasMap::Target("./c".to_string())]),
        ],
        ..ResolverOptions::default()
    };
    let r = resolver(fs, options);
    assert_eq!(resolved(&r, "/p", "aliasA"), "/p/b/index.js");
    assert_eq!(resolved(&r, "/p", "aliasA/index"), "/p/b/index.js");
    assert_eq!(resolved(&r, "/p", "aliasA?q#f"), "/p/b/index.js?q#f");
    assert_eq!(resolved(&r, "/p", "exact"), "/p/c.js");
    failed(&r, "/p", "exact/x");
    assert!(matches!(r.resolve("/p", "ignored"), Ok(ResolveResult::Ignored)));
    assert!(matches!(r.resolve("/p", "ignored/sub"), Ok(ResolveResult::Ignored)));
    assert_eq!(resolved(&r, "/p", "multi"), "/p/c.js");
}

#[test]
fn fallback_aliases_after_failure() {
    let fs = MemoryFs::new(&[("/p/a.js", ""), ("/p/e/index.js", "")]);
    let options = ResolverOptions {
        fallback: vec![
            ("./missing".to_string(), vec![AliasMap::Target("./e".to_string())]),
            ("gone".to_string(), vec![AliasMap::Ignored]),
        ],
        ..ResolverOptions::default()
    };
    let r = resolver(fs, options);
    assert_eq!(resolved(&r, "/p", "./a"), "/p/a.js");
    assert_eq!(resolved(&r, "/p", "./missing"), "/p/e/index.js");
    assert!(matches!(r.resolve("/p", "gone"), Ok(ResolveResult::Ignored)));
}

#[test]
fn alias_cycle_overflows() {
    let fs = MemoryFs::new(&[]);
    let options = ResolverOptions {
        alias: vec![
            ("a".to_string(), vec![AliasMap::Target("b".to_string())]),
            ("b".to_string(), vec![AliasMap::Target("a".to_string())]),
        ],
        ..ResolverOptions::default()
    };
    let r = resolver(fs, options);
    assert!(matches!(r.resolve("/p", "a"), Err(Error::Overflow)));
}

#[test]
fn browser_field_of_a_package() {
    let fs = MemoryFs::new(&[
        ("/p/lib/replaced.js", ""),
        ("/p/lib/browser.js", ""),
        ("/p/lib/ignore.js", ""),
        (
            "/p/package.json",
            "{\"browser\": {\"./lib/replaced.js\": \"./lib/browser.js\", \"./lib/ignore.js\": false, \"module-a\": \"./lib/browser.js\"}}",
        ),
    ]);
    let options = ResolverOptions { browser_field: true, ..ResolverOptions::default() };
    let r = resolver(fs, options);
    assert_eq!(resolved(&r, "/p", "./lib/replaced"), "/p/lib/browser.js");
    assert!(matches!(r.resolve("/p", "./lib/ignore"), Ok(ResolveResult::Ignored)));
    assert_eq!(resolved(&r, "/p", "module-a"), "/p/lib/browser.js");

    let fs = MemoryFs::new(&[("/p/lib/replaced.js", ""), ("/p/package.json", "{\"browser\": {\"./lib/replaced.js\": false}}")]);
    let r = resolver(fs, ResolverOptions::default());
    assert_eq!(resolved(&r, "/p", "./lib/replaced"), "/p/lib/replaced.js");
}

#[test]
fn main_fields_and_main_files() {
    let fs = MemoryFs::new(&[
        ("/p/self/index.js", ""),
        ("/p/self/package.json", "{\"main\": \"./\"}"),
        ("/p/plain/src/index.js", ""),
        ("/p/plain/package.json", "{\"main\": \"src\"}"),
        ("/p/module/module.js", ""),
        ("/p/module/package.json", "{\"module\": \"module.js\", \"main\": \"missing.js\"}"),
    ]);
    let r = resolver(fs, ResolverOptions::default());
    assert_eq!(resolved(&r, "/p", "./self"), "/p/self/index.js");
    assert_eq!(resolved(&r, "/p", "./plain"), "/p/plain/src/index.js");
    failed(&r, "/p", "./module");
    let fs = MemoryFs::new(&[("/p/module/module.js", ""), ("/p/module/package.json", "{\"module\": \"module.js\"}")]);
    let options = ResolverOptions { main_fields: vec!["module".to_string(), "main".to_string()], ..ResolverOptions::default() };
    let r = resolver(fs, options);
    assert_eq!(resolved(&r, "/p", "./module"), "/p/module/module.js");
}

#[test]
fn broken_description_file() {
    let fs = MemoryFs::new(&[("/p/pack1/index.js", ""), ("/p/pack1/package.json", "{ not json")]);
    let r = resolver(fs, ResolverOptions::default());
    match r.resolve("/p", "./pack1") {
        Err(Error::UnexpectedJson((path, _))) => assert_eq!(path, "/p/pack1/package.json"),
        other => panic!("{other:?}"),
    }
}

#[test]
fn symlinks_lead_to_real_paths() {
    let fs = MemoryFs::new(&[("/real/lib/index.js", "")]).with_link("/p/linked", "/real");
    let r = resolver(fs, ResolverOptions::default());
    assert_eq!(resolved(&r, "/p", "./linked/lib/index.js"), "/real/lib/index.js");
    assert_eq!(resolved(&r, "/p/linked", "./lib"), "/real/lib/index.js");

    let fs = MemoryFs::new(&[("/real/lib/index.js", "")]).with_link("/p/linked", "/real");
    let options = ResolverOptions { symlinks: false, ..ResolverOptions::default() };
    let r = resolver(fs, options);
    assert_eq!(resolved(&r, "/p", "./linked/lib/index.js"), "/p/linked/lib/index.js");
}

#[test]
fn prefer_relative_requests() {
    let fs = MemoryFs::new(&[("/p/main1.js", ""), ("/p/node_modules/main1.js/index.js", "")]);
    let r = resolver(fs, ResolverOptions { prefer_relative: true, ..ResolverOptions::default() });
    assert_eq!(resolved(&r, "/p", "main1.js"), "/p/main1.js");
    let fs = MemoryFs::new(&[("/p/main1.js", ""), ("/p/node_modules/main1.js/index.js", "")]);
    let r = resolver(fs, ResolverOptions::default());
    assert_eq!(resolved(&r, "/p", "main1.js"), "/p/node_modules/main1.js/index.js");
}

#[test]
fn fully_specified_requests() {
    let fs = MemoryFs::new(&[("/p/abc.js", ""), ("/p/dir/index.js", ""), ("/p/node_modules/package1/index.js", "")]);
    let r = resolver(fs, ResolverOptions { fully_specified: true, ..ResolverOptions::default() });
    assert_eq!(resolved(&r, "/p", "./abc.js"), "/p/abc.js");
    failed(&r, "/p", "./abc");
    failed(&r, "/p", "./dir");
    assert_eq!(resolved(&r, "/p", "package1"), "/p/node_modules/package1/index.js");
}

#[test]
fn resolve_to_context_gives_directories() {
    let fs = MemoryFs::new(&[("/p/dirOrFile/index.js", ""), ("/p/m.js", "")]);
    let r = resolver(fs, ResolverOptions { resolve_to_context: true, ..ResolverOptions::default() });
    assert_eq!(resolved(&r, "/p", "./dirOrFile"), "/p/dirOrFile");
    failed(&r, "/p", "./m.js");
}

#[test]
fn extension_aliases() {
    let fs = MemoryFs::new(&[("/p/index.ts", ""), ("/p/dir2/index.mts", "")]);
    let options = ResolverOptions {
        extensions: vec![".js".to_string()],
        extension_alias: vec![
            (".js".to_string(), vec![".ts".to_string(), ".js".to_string()]),
            (".mjs".to_string(), vec![".mts".to_string()]),
        ],
        ..ResolverOptions::default()
    };
    let r = resolver(fs, options);
    assert_eq!(resolved(&r, "/p", "./index.js"), "/p/index.ts");
    assert_eq!(resolved(&r, "/p", "./dir2/index.mjs"), "/p/dir2/index.mts");
    failed(&r, "/p", "./dir2/index.js");
}

#[test]
fn tsconfig_paths_and_base_url() {
    let tsconfig = "{\n  // comment\n  \"compilerOptions\": {\n    \"baseUrl\": \".\",\n    \"paths\": {\n      \"@/*\": [\"src/*\"],\n      \"exact\": [\"src/exact\"],\n    },\n  },\n}";
    let fs = MemoryFs::new(&[
        ("/p/tsconfig.json", tsconfig),
        ("/p/src/foo.ts", ""),
        ("/p/src/exact.ts", ""),
        ("/p/lib.ts", ""),
    ]);
    let options = ResolverOptions {
        extensions: vec![".ts".to_string()],
        tsconfig: Some("/p/tsconfig.json".to_string()),
        ..ResolverOptions::default()
    };
    let r = resolver(fs, options);
    assert_eq!(resolved(&r, "/p", "@/foo"), "/p/src/foo.ts");
    assert_eq!(resolved(&r, "/p", "exact"), "/p/src/exact.ts");
    assert_eq!(resolved(&r, "/p/src", "lib"), "/p/lib.ts");
    assert_eq!(resolved(&r, "/p/src", "./foo"), "/p/src/foo.ts");
}

#[test]
fn tsconfig_extends_fills_in_missing_options() {
    let fs = MemoryFs::new(&[
        ("/p/tsconfig.json", "{\"extends\": \"./base.json\", \"compilerOptions\": {\"baseUrl\": \"./src\"}}"),
        ("/p/base.json", "{\"compilerOptions\": {\"baseUrl\": \".\", \"paths\": {\"x/*\": [\"lib/*\"]}}}"),
        ("/p/src/lib/a.ts", ""),
        ("/p/src/b.ts", ""),
    ]);
    let options = ResolverOptions {
        extensions: vec![".ts".to_string()],
        tsconfig: Some("/p/tsconfig.json".to_string()),
        ..ResolverOptions::default()
    };
    let r = resolver(fs, options);
    assert_eq!(resolved(&r, "/p", "x/a"), "/p/src/lib/a.ts");
    assert_eq!(resolved(&r, "/p", "b"), "/p/src/b.ts");
}

#[test]
fn tsconfig_inexist() {
    let fs = MemoryFs::new(&[("/p/a.js", "")]);
    let options = ResolverOptions {
        extensions: vec![".ts".to_string()],
        tsconfig: Some("/p".to_string()),
        ..ResolverOptions::default()
    };
    let r = resolver(fs, options);
    assert!(matches!(r.resolve("/p", "./a.js"), Err(Error::CantFindTsConfig(_))));
}

#[test]
fn tsconfig_with_a_wrongly_typed_base_url() {
    let fs = MemoryFs::new(&[("/p/tsconfig.json", "{\"compilerOptions\": {\"baseUrl\": 1}}")]);
    let options = ResolverOptions { tsconfig: Some("/p/tsconfig.json".to_string()), ..ResolverOptions::default() };
    let r = resolver(fs, options);
    match r.resolve("/p", "./a") {
        Err(Error::UnexpectedValue(m)) => assert_eq!(m, "tsconfig field baseUrl has an unexpected type"),
        other => panic!("{other:?}"),
    }
}

#[test]
fn find_up_and_file_queries() {
    let fs = MemoryFs::new(&[("/p/tsconfig.json", "{}"), ("/p/a/b/c.js", "")]);
    let r = resolver(fs, ResolverOptions::default());
    let mut context = Context::new(false, false);
    assert_eq!(r.find_up("/p/a/b", "tsconfig.json", &mut context), Some("/p".to_string()));
    assert_eq!(r.find_up("/p/a/b", "missing.json", &mut context), None);
    assert_eq!(r.find_up("/p", "tsconfig.json", &mut context), Some("/p".to_string()));
    assert!(r.is_file("/p/a/b/c.js"));
    assert!(r.is_dir("/p/a"));
    assert!(r.path_exists("/p/a/b"));
    assert!(!r.path_exists("/p/x"));
    assert_eq!(r.stat("/p/a/b/c.js"), Some(FileKind::File));
}

#[test]
fn description_file_lookup() {
    let fs = MemoryFs::new(&[
        ("/p/package.json", "{\"name\": \"outer\"}"),
        ("/p/inner/package.json", "{\"name\": \"inner\"}"),
        ("/p/inner/src/a.js", ""),
        ("/p/other/a.js", ""),
    ]);
    let r = resolver(fs, ResolverOptions::default());
    let inner = r.pkg_info("/p/inner/src/a.js").unwrap().unwrap();
    assert_eq!(inner.json().name(), Some("inner"));
    assert_eq!(inner.dir_path().as_str(), "/p/inner");
    let outer = r.pkg_info("/p/other/a.js").unwrap().unwrap();
    assert_eq!(outer.json().name(), Some("outer"));
    let named = r.pkg_info("/p/inner/package.json").unwrap().unwrap();
    assert_eq!(named.dir_path().as_str(), "/p/inner");
    let fs = MemoryFs::new(&[("/q/a.js", "")]);
    let r = resolver(fs, ResolverOptions::default());
    assert!(r.pkg_info("/q/a.js").unwrap().is_none());
}

#[test]
fn binding_resolve_reports_status() {
    let fs = MemoryFs::new(&[("/p/a.js", ""), ("/p/package.json", "{\"browser\": {\"./b.js\": false}}"), ("/p/b.js", "")]);
    let options = ResolverOptions { browser_field: true, ..ResolverOptions::default() };
    let r = resolver(fs, options);
    let found = nodejs_resolver::binding::resolve(&r, "/p", "./a").unwrap();
    assert!(found.status);
    assert_eq!(found.path.as_deref(), Some("/p/a.js"));
    let ignored = nodejs_resolver::binding::resolve(&r, "/p", "./b.js").unwrap();
    assert!(!ignored.status);
    assert!(nodejs_resolver::binding::resolve(&r, "/p", "./zzz").is_err());
}

#[test]
fn ignored_alias_needs_no_file_system() {
    let fs = MemoryFs::new(&[]);
    let options = ResolverOptions {
        alias: vec![("gone".to_string(), vec![AliasMap::Ignored, AliasMap::Target("./x".to_string())])],
        ..ResolverOptions::default()
    };
    let r = resolver(fs, options);
    assert!(matches!(r.resolve("/nowhere", "gone/a?q"), Ok(ResolveResult::Ignored)));
    let b = nodejs_resolver::binding::resolve(&r, "/nowhere", "gone").unwrap();
    assert!(!b.status && b.path.is_none());
}

#[test]
fn exports_field_refuses_directories() {
    let fs = MemoryFs::new(&[
        ("/p/node_modules/exports-field/dist/a.js", ""),
        ("/p/node_modules/exports-field/package.json", "{\"exports\": {\"./dist/\": \"./dist/\"}}"),
    ]);
    let r = resolver(fs, ResolverOptions::default());
    match r.resolve("/p", "exports-field/dist/") {
        Err(Error::UnexpectedValue(m)) => assert!(
            m.starts_with("Resolving to directories is not possible with the exports field (request was exports-field/dist/ in"),
            "{m}"
        ),
        other => panic!("{other:?}"),
    }
    assert_eq!(resolved(&r, "/p", "exports-field/dist/a.js"), "/p/node_modules/exports-field/dist/a.js");
}

#[test]
fn exports_field_out_of_package_scope() {
    let fs = MemoryFs::new(&[
        ("/p/node_modules/pkg/x.js", ""),
        ("/p/node_modules/pkg/package.json", "{\"exports\": {\"./dist/\": \"./../../\"}}"),
    ]);
    let r = resolver(fs, ResolverOptions::default());
    match r.resolve("/p", "pkg/dist/a.js") {
        Err(Error::UnexpectedValue(m)) => {
            assert_eq!(
                m,
                "Trying to access out of package scope. Requesting ./../../a.js in NormalizedPath(\"/p/node_modules/pkg\")/package.json"
            )
        }
        other => panic!("{other:?}"),
    }
}

#[test]
fn imports_field_out_of_package_scope() {
    let fs = MemoryFs::new(&[
        ("/b.js", ""),
        ("/p/package.json", "{\"imports\": {\"#up\": \"../b.js\"}}"),
    ]);
    let r = resolver(fs, ResolverOptions::default());
    match r.resolve("/p", "#up") {
        Err(Error::UnexpectedValue(m)) => {
            assert!(m.starts_with("Trying to access out of package scope. Requesting ../b.js"), "{m}");
            assert_eq!(m, "Trying to access out of package scope. Requesting ../b.js in \"/p\"/package.json");
        }
        other => panic!("{other:?}"),
    }
}

#[test]
fn main_field_pointing_at_its_own_directory_is_skipped() {
    let fs = MemoryFs::new(&[
        ("/p/main-field-self/index.js", ""),
        ("/p/main-field-self/package.json", "{\"main\": \".\"}"),
        ("/p/main-field-self2/index.js", ""),
        ("/p/main-field-self2/other.js", ""),
        ("/p/main-field-self2/package.json", "{\"main\": \"./\", \"module\": \"other.js\"}"),
    ]);
    let r = resolver(fs, ResolverOptions::default());
    assert_eq!(resolved(&r, "/p", "./main-field-self"), "/p/main-field-self/index.js");
    let options = ResolverOptions { main_fields: vec!["main".to_string(), "module".to_string()], ..ResolverOptions::default() };
    let r = resolver(
        MemoryFs::new(&[
            ("/p/main-field-self2/index.js", ""),
            ("/p/main-field-self2/other.js", ""),
            ("/p/main-field-self2/package.json", "{\"main\": \"./\", \"module\": \"other.js\"}"),
        ]),
        options,
    );
    assert_eq!(resolved(&r, "/p", "./main-field-self2"), "/p/main-field-self2/index.js");
}

#[test]
fn readme_example_resolves_modules_and_relative_files() {
    let fs = MemoryFs::new(&[
        ("/cwd/node_modules/foo/index.js", ""),
        ("/cwd/src/foo.ts", ""),
        ("/cwd/src/foo.js", ""),
    ]);
    let r = resolver(fs, ResolverOptions::default());
    assert_eq!(resolved(&r, "/cwd/src", "foo"), "/cwd/node_modules/foo/index.js");
    assert_eq!(resolved(&r, "/cwd/src", "./foo"), "/cwd/src/foo.js");
}

#[test]
fn fragment_kept_when_the_file_exists_without_it() {
    let fs = MemoryFs::new(&[("/f/main1.js", "")]);
    let r = resolver(fs, ResolverOptions::default());
    match r.resolve("/f", "./main1.js#fragment?query") {
        Ok(ResolveResult::Resource(res)) => {
            assert_eq!(res.path, "/f/main1.js");
            assert!(res.query.is_none());
            assert_eq!(res.fragment.as_deref(), Some("#fragment?query"));
            assert_eq!(res.join(), "/f/main1.js#fragment?query");
        }
        other => panic!("{other:?}"),
    }
}

#[test]
fn resolve_in_a_given_context() {
    let fs = MemoryFs::new(&[("/p/a.js", "")]).with_link("/q", "/p");
    let r = resolver(fs, ResolverOptions::default());
    let mut context = Context::new(false, false);
    match r.resolve_in("/q", "./a.js", &mut context) {
        Ok(ResolveResult::Resource(res)) => assert_eq!(res.path, "/p/a.js"),
        other => panic!("{other:?}"),
    }
    assert_eq!(context.depth.value(), 0);
}

#[test]
fn description_file_lookup_in_a_context() {
    let fs = MemoryFs::new(&[
        ("/p/package.json", "{\"name\": \"outer\"}"),
        ("/p/broken/package.json", "not json"),
        ("/p/inner/src/a.js", ""),
    ]);
    let r = resolver(fs, ResolverOptions::default());
    let mut context = Context::new(false, false);
    let found = r.pkg_info_in("/p/inner/src/a.js", &mut context).unwrap().unwrap();
    assert_eq!(found.dir_path().as_str(), "/p");
    assert!(matches!(r.pkg_info_in("/p/broken/x", &mut context), Err(Error::UnexpectedJson(_))));
    let fs = MemoryFs::new(&[("/q/a.js", "")]);
    let r = resolver(fs, ResolverOptions::default());
    assert!(r.pkg_info_in("/q/a.js", &mut context).unwrap().is_none());
}

#[test]
fn tsconfig_settings_read_in_a_context() {
    let fs = MemoryFs::new(&[
        ("/p/tsconfig.json", "{\"compilerOptions\": {\"baseUrl\": \"./src\", \"paths\": {\"@/*\": [\"lib/*\"]}}}"),
        ("/p/src/a.ts", ""),
    ]);
    let r = resolver(fs, ResolverOptions::default());
    let mut context = Context::new(false, false);
    let settings = r.parse_tsconfig("/p/tsconfig.json", &mut context).unwrap();
    assert_eq!(settings.base_url.as_deref(), Some("./src"));
    assert_eq!(settings.paths.unwrap(), vec![("@/*".to_string(), vec!["lib/*".to_string()])]);
    assert!(matches!(r.parse_tsconfig("/p/missing.json", &mut context), Err(Error::CantFindTsConfig(_))));
    let options = ResolverOptions {
        extensions: vec![".ts".to_string()],
        tsconfig: Some("/p".to_string()),
        ..ResolverOptions::default()
    };
    let r = resolver(MemoryFs::new(&[("/p/a.js", "")]), options);
    let mut context = Context::new(false, false);
    assert!(matches!(r.resolve_in("/p", "./a.js", &mut context), Err(Error::CantFindTsConfig(_))));
}

#[test]
fn exports_dot_entry_of_an_unnamed_package() {
    let fs = MemoryFs::new(&[
        ("/p/node_modules/anon/main.js", ""),
        ("/p/node_modules/anon/package.json", "{\"exports\": {\".\": \"./main.js\"}}"),
    ]);
    let r = resolver(fs, ResolverOptions::default());
    assert_eq!(resolved(&r, "/p", "anon"), "/p/node_modules/anon/main.js");
}
