use nodejs_resolver::error::Error;
use nodejs_resolver::json::JsonValue;
use nodejs_resolver::map::{ExportsField};

fn names(condition_names: Vec<&str>) -> Vec<String> {
    condition_names.into_iter().map(|s| s.to_string()).collect()
}

fn process(value: JsonValue, request: &str, condition_names: Vec<&str>) -> Result<Vec<String>, Error> {
    ExportsField::field_process(&value, request, &names(condition_names))
}

fn should_equal(value: JsonValue, request: &str, condition_names: Vec<&str>, expected: Vec<&str>) {
    let actual = process(value, request, condition_names);
    assert!(actual.is_ok());
    let actual = actual.unwrap();
    assert_eq!(actual, expected.into_iter().map(|s| s.to_string()).collect::<Vec<String>>())
}

fn should_error(value: JsonValue, request: &str, condition_names: Vec<&str>, expected_error_message: &str) {
    let actual = process(value, request, condition_names);
    assert!(actual.is_err());
    let error = actual.unwrap_err();
    match error {
        Error::UnexpectedValue(message) => assert_eq!(expected_error_message, message),
        _ => unreachable!(),
    }
}

#[test]
fn exports_field_map_test_1() {
    should_error(
        JsonValue::parse(r##"{"/utils/": "./a/"}"##).unwrap(),
        "./utils/index.mjs",
        vec![],
        "Export field key should be relative path and start with \"./\", but got /utils/",
    );
    should_equal(
        JsonValue::parse(r##"{"./utils/": {"webpack": "./wpk/", "browser": ["lodash/", "./utils/"], "node": ["./utils/"]}}"##).unwrap(),
        "./utils/index.mjs",
        vec!["browser", "webpack"],
        vec!["./wpk/index.mjs"],
    );
    should_equal(JsonValue::parse(r##""./main.js""##).unwrap(), ".", vec![], vec!["./main.js"]);
    should_equal(JsonValue::parse(r##""./main.js""##).unwrap(), "./main.js", vec![], vec![]);
    should_equal(JsonValue::parse(r##""./main.js""##).unwrap(), "./lib.js", vec![], vec![]);
    should_equal(JsonValue::parse(r##"["./a.js", "./b.js"]"##).unwrap(), ".", vec![], vec!["./a.js", "./b.js"]);
    should_equal(JsonValue::parse(r##"["./a.js", "./b.js"]"##).unwrap(), "./a.js", vec![], vec![]);
    should_equal(JsonValue::parse(r##"["./a.js", "./b.js"]"##).unwrap(), "./lib.js", vec![], vec![]);
    should_equal(
        JsonValue::parse(r##"{"./a/": "./A/", "./a/b/c": "./c.js"}"##).unwrap(),
        "./a/b/d.js",
        vec![],
        vec!["./A/b/d.js"],
    );
    should_equal(
        JsonValue::parse(r##"{"./a/": "./A/", "./a/b": "./b.js"}"##).unwrap(),
        "./a/c.js",
        vec![],
        vec!["./A/c.js"],
    );
    should_equal(
        JsonValue::parse(r##"{"./a/": "./A/", "./a/b/c/d": "./c.js"}"##).unwrap(),
        "./a/b/d/c.js",
        vec![],
        vec!["./A/b/d/c.js"],
    );
    should_equal(
        JsonValue::parse(r##"{"./a/*": "./A/*", "./a/b/c": "./c.js"}"##).unwrap(),
        "./a/b/d.js",
        vec![],
        vec!["./A/b/d.js"],
    );
    should_equal(
        JsonValue::parse(r##"{"./a/*": "./A/*", "./a/b": "./b.js"}"##).unwrap(),
        "./a/c.js",
        vec![],
        vec!["./A/c.js"],
    );
    should_equal(
        JsonValue::parse(r##"{"./a/*": "./A/*", "./a/b/c/d": "./b.js"}"##).unwrap(),
        "./a/b/d/c.js",
        vec![],
        vec!["./A/b/d/c.js"],
    );
    should_equal(
        JsonValue::parse(r##"{"./ab*": "./ab/*", "./abc*": "./abc/*", "./a*": "./a/*"}"##).unwrap(),
        "./abcd",
        vec!["browser"],
        vec!["./abc/d"],
    );
    should_equal(
        JsonValue::parse(r##"{"./ab*": "./ab/*", "./abc*": "./abc/*", "./a*": "./a/*"}"##).unwrap(),
        "./abcd",
        vec![],
        vec!["./abc/d"],
    );
    should_equal(
        JsonValue::parse(r##"{"./ab*": "./ab/*", "./abc*": "./abc/*", "./a*": "./a/*"}"##).unwrap(),
        "./abcd/e",
        vec!["browser"],
        vec!["./abc/d/e"],
    );
    should_equal(
        JsonValue::parse(r##"{"./x/ab*": "./ab/*", "./x/abc*": "./abc/*", "./x/a*": "./a/*"}"##).unwrap(),
        "./x/abcd",
        vec!["browser"],
        vec!["./abc/d"],
    );
    should_equal(
        JsonValue::parse(r##"{"./x/ab*": "./ab/*", "./x/abc*": "./abc/*", "./x/a*": "./a/*"}"##).unwrap(),
        "./x/abcd/e",
        vec!["browser"],
        vec!["./abc/d/e"],
    );
    should_equal(
        JsonValue::parse(r##"{"browser": {"default": "./index.js"}}"##).unwrap(),
        "./lib.js",
        vec!["browser"],
        vec![],
    );
    should_equal(
        JsonValue::parse(r##"{"browser": {"default": "./index.js"}}"##).unwrap(),
        ".",
        vec!["browser"],
        vec!["./index.js"],
    );
    should_equal(
        JsonValue::parse(r##"{"./foo/": {"import": ["./dist/", "./src/"], "webpack": "./wp/"}, ".": "./main.js"}"##).unwrap(),
        "./foo/test/file.js",
        vec!["import", "webpack"],
        vec!["./dist/test/file.js", "./src/test/file.js"],
    );
    should_equal(
        JsonValue::parse(r##"{"./foo/*": {"import": ["./dist/*", "./src/*"], "webpack": "./wp/*"}, ".": "./main.js"}"##).unwrap(),
        "./foo/test/file.js",
        vec!["import", "webpack"],
        vec!["./dist/test/file.js", "./src/test/file.js"],
    );
    should_equal(
        JsonValue::parse(r##"{"./timezones/": "./data/timezones/"}"##).unwrap(),
        "./timezones/pdt.mjs",
        vec![],
        vec!["./data/timezones/pdt.mjs"],
    );
    should_equal(
        JsonValue::parse(r##"{"./": "./data/timezones/"}"##).unwrap(),
        "./timezones/pdt.mjs",
        vec![],
        vec!["./data/timezones/timezones/pdt.mjs"],
    );
    should_equal(
        JsonValue::parse(r##"{"./*": "./data/timezones/*.mjs"}"##).unwrap(),
        "./timezones/pdt",
        vec![],
        vec!["./data/timezones/timezones/pdt.mjs"],
    );
    should_equal(
        JsonValue::parse(r##"{"./lib/": {"browser": ["./browser/"]}, "./dist/index.js": {"node": "./index.js"}}"##).unwrap(),
        "./dist/index.js",
        vec!["browser"],
        vec![],
    );
    should_equal(
        JsonValue::parse(r##"{"./lib/*": {"browser": ["./browser/*"]}, "./dist/index.js": {"node": "./index.js"}}"##).unwrap(),
        "./dist/index.js",
        vec!["browser"],
        vec![],
    );
    should_equal(
        JsonValue::parse(r##"{"./lib/": {"browser": ["./browser/"]}, "./dist/index.js": {"node": "./index.js", "default": "./browser/index.js"}}"##).unwrap(),
        "./dist/index.js",
        vec!["browser"],
        vec!["./browser/index.js"],
    );
    should_equal(
        JsonValue::parse(r##"{"./lib/*": {"browser": ["./browser/*"]}, "./dist/index.js": {"node": "./index.js", "default": "./browser/index.js"}}"##).unwrap(),
        "./dist/index.js",
        vec!["browser"],
        vec!["./browser/index.js"],
    );
    should_equal(
        JsonValue::parse(r##"{"./dist/a": "./dist/index.js"}"##).unwrap(),
        "./dist/aaa",
        vec![],
        vec![],
    );
    should_equal(
        JsonValue::parse(r##"{"./dist/a/a/": "./dist/index.js"}"##).unwrap(),
        "./dist/a",
        vec![],
        vec![],
    );
    should_equal(
        JsonValue::parse(r##"{"./dist/a/a/*": "./dist/index.js"}"##).unwrap(),
        "./dist/a",
        vec![],
        vec![],
    );
    should_equal(
        JsonValue::parse(r##"{".": "./index.js"}"##).unwrap(),
        "./timezones/pdt.mjs",
        vec![],
        vec![],
    );
    should_equal(
        JsonValue::parse(r##"{"./index.js": "./main.js"}"##).unwrap(),
        "./index.js",
        vec![],
        vec!["./main.js"],
    );
    should_equal(
        JsonValue::parse(r##"{"./#foo": "./ok.js", "./module": "./ok.js", "./🎉": "./ok.js", "./%F0%9F%8E%89": "./other.js", "./bar#foo": "./ok.js", "./#zapp/": "./", "./#zipp*": "./zzz*"}"##).unwrap(),
        "./#foo",
        vec![],
        vec!["./ok.js"],
    );
    should_equal(
        JsonValue::parse(r##"{"./#foo": "./ok.js", "./module": "./ok.js", "./🎉": "./ok.js", "./%F0%9F%8E%89": "./other.js", "./bar#foo": "./ok.js", "./#zapp/": "./", "./#zipp*": "./zzz*"}"##).unwrap(),
        "./bar#foo",
        vec![],
        vec!["./ok.js"],
    );
    should_equal(
        JsonValue::parse(r##"{"./#foo": "./ok.js", "./module": "./ok.js", "./🎉": "./ok.js", "./%F0%9F%8E%89": "./other.js", "./bar#foo": "./ok.js", "./#zapp/": "./", "./#zipp*": "./zzz*"}"##).unwrap(),
        "./#zapp/ok.js#abc",
        vec![],
        vec!["./ok.js#abc"],
    );
    should_equal(
        JsonValue::parse(r##"{"./#foo": "./ok.js", "./module": "./ok.js", "./🎉": "./ok.js", "./%F0%9F%8E%89": "./other.js", "./bar#foo": "./ok.js", "./#zapp/": "./", "./#zipp*": "./zzz*"}"##).unwrap(),
        "./#zapp/ok.js#abc",
        vec![],
        vec!["./ok.js#abc"],
    );
    should_equal(
        JsonValue::parse(r##"{"./#foo": "./ok.js", "./module": "./ok.js", "./🎉": "./ok.js", "./%F0%9F%8E%89": "./other.js", "./bar#foo": "./ok.js", "./#zapp/": "./", "./#zipp*": "./zzz*"}"##).unwrap(),
        "./#zapp/ok.js?abc",
        vec![],
        vec!["./ok.js?abc"],
    );
    should_equal(
        JsonValue::parse(r##"{"./#foo": "./ok.js", "./module": "./ok.js", "./🎉": "./ok.js", "./%F0%9F%8E%89": "./other.js", "./bar#foo": "./ok.js", "./#zapp/": "./", "./#zipp*": "./zzz*"}"##).unwrap(),
        "./#zapp/🎉.js",
        vec![],
        vec!["./🎉.js"],
    );
    should_equal(
        JsonValue::parse(r##"{"./#foo": "./ok.js", "./module": "./ok.js", "./🎉": "./ok.js", "./%F0%9F%8E%89": "./other.js", "./bar#foo": "./ok.js", "./#zapp/": "./", "./#zipp*": "./zzz*"}"##).unwrap(),
        "./#zapp/%F0%9F%8E%89.js",
        vec![],
        vec!["./%F0%9F%8E%89.js"],
    );
    should_equal(
        JsonValue::parse(r##"{"./#foo": "./ok.js", "./module": "./ok.js", "./🎉": "./ok.js", "./%F0%9F%8E%89": "./other.js", "./bar#foo": "./ok.js", "./#zapp/": "./", "./#zipp*": "./zzz*"}"##).unwrap(),
        "./🎉",
        vec![],
        vec!["./ok.js"],
    );
    should_equal(
        JsonValue::parse(r##"{"./#foo": "./ok.js", "./module": "./ok.js", "./🎉": "./ok.js", "./%F0%9F%8E%89": "./other.js", "./bar#foo": "./ok.js", "./#zapp/": "./", "./#zipp*": "./zzz*"}"##).unwrap(),
        "./%F0%9F%8E%89",
        vec![],
        vec!["./other.js"],
    );
    should_equal(
        JsonValue::parse(r##"{"./#foo": "./ok.js", "./module": "./ok.js", "./🎉": "./ok.js", "./%F0%9F%8E%89": "./other.js", "./bar#foo": "./ok.js", "./#zapp/": "./", "./#zipp*": "./zzz*"}"##).unwrap(),
        "./module",
        vec![],
        vec!["./ok.js"],
    );
    should_equal(
        JsonValue::parse(r##"{"./#foo": "./ok.js", "./module": "./ok.js", "./🎉": "./ok.js", "./%F0%9F%8E%89": "./other.js", "./bar#foo": "./ok.js", "./#zapp/": "./", "./#zipp*": "./zzz*"}"##).unwrap(),
        "./module#foo",
        vec![],
        vec![],
    );
    should_equal(
        JsonValue::parse(r##"{"./#foo": "./ok.js", "./module": "./ok.js", "./🎉": "./ok.js", "./%F0%9F%8E%89": "./other.js", "./bar#foo": "./ok.js", "./#zapp/": "./", "./#zipp*": "./zzz*"}"##).unwrap(),
        "./module?foo",
        vec![],
        vec![],
    );
    should_equal(
        JsonValue::parse(r##"{"./#foo": "./ok.js", "./module": "./ok.js", "./🎉": "./ok.js", "./%F0%9F%8E%89": "./other.js", "./bar#foo": "./ok.js", "./#zapp/": "./", "./#zipp*": "./z*z*z*"}"##).unwrap(),
        "./#zippi",
        vec![],
        vec!["./zizizi"],
    );
    should_equal(
        JsonValue::parse(r##"{"./a?b?c/": "./"}"##).unwrap(),
        "./a?b?c/d?e?f",
        vec![],
        vec!["./d?e?f"],
    );
    should_equal(
        JsonValue::parse(r##"{".": "./dist/index.js"}"##).unwrap(),
        ".",
        vec![],
        vec!["./dist/index.js"],
    );
    should_equal(
        JsonValue::parse(r##"{"./": "./", "./*": "./*", "./dist/index.js": "./dist/index.js"}"##).unwrap(),
        ".",
        vec![],
        vec![],
    );
    should_equal(
        JsonValue::parse(r##"{"./dist/": "./dist/", "./dist/*": "./dist/*", "./dist*": "./dist*", "./dist/index.js": "./dist/a.js"}"##).unwrap(),
        "./dist/index.js",
        vec![],
        vec!["./dist/a.js"],
    );
    should_equal(
        JsonValue::parse(r##"{"./": {"browser": ["./browser/"]}, "./*": {"browser": ["./browser/*"]}, "./dist/index.js": {"browser": "./index.js"}}"##).unwrap(),
        "./dist/index.js",
        vec!["browser"],
        vec!["./index.js"],
    );
    should_equal(
        JsonValue::parse(r##"{"./a?b?c/": "./"}"##).unwrap(),
        "./a?b?c/d?e?f",
        vec![],
        vec!["./d?e?f"],
    );
    should_equal(
        JsonValue::parse(r##"{"./": {"browser": ["./browser/"]}, "./*": {"browser": ["./browser/*"]}, "./dist/index.js": {"node": "./node.js"}}"##).unwrap(),
        "./dist/index.js",
        vec!["browser"],
        vec![],
    );
    should_equal(
        JsonValue::parse(r##"{".": {"browser": "./index.js", "node": "./src/node/index.js", "default": "./src/index.js"}}"##).unwrap(),
        ".",
        vec!["browser"],
        vec!["./index.js"],
    );
    should_equal(
        JsonValue::parse(r##"{".": {"browser": "./index.js", "node": "./src/node/index.js", "default": "./src/index.js"}}"##).unwrap(),
        ".",
        vec![],
        vec!["./src/index.js"],
    );
    should_equal(
        JsonValue::parse(r##"{".": "./index"}"##).unwrap(),
        ".",
        vec![],
        vec!["./index"],
    );
    should_equal(
        JsonValue::parse(r##"{"./index": "./index.js"}"##).unwrap(),
        "./index",
        vec![],
        vec!["./index.js"],
    );
    should_equal(
        JsonValue::parse(r##"{".": [{"browser": "./browser.js"}, {"require": "./require.js"}, {"import": "./import.mjs"}]}"##).unwrap(),
        ".",
        vec![],
        vec![],
    );
    should_equal(
        JsonValue::parse(r##"{".": [{"browser": "./browser.js"}, {"require": "./require.js"}, {"import": "./import.mjs"}]}"##).unwrap(),
        ".",
        vec!["import"],
        vec!["./import.mjs"],
    );
    should_equal(
        JsonValue::parse(r##"{".": [{"browser": "./browser.js"}, {"require": "./require.js"}, {"import": "./import.mjs"}]}"##).unwrap(),
        ".",
        vec!["import", "require"],
        vec!["./require.js", "./import.mjs"],
    );
    should_equal(
        JsonValue::parse(r##"{".": [{"browser": "./browser.js"}, {"require": "./require.js"}, {"import": ["./import.mjs", "./import.js"]}]}"##).unwrap(),
        ".",
        vec!["import", "require"],
        vec!["./require.js", "./import.mjs", "./import.js"],
    );
    should_equal(
        JsonValue::parse(r##"{"./timezones": "./data/timezones"}"##).unwrap(),
        "./timezones/pdt.mjs",
        vec![],
        vec![],
    );
    should_equal(
        JsonValue::parse(r##"{"./timezones/pdt/": "./data/timezones/pdt/"}"##).unwrap(),
        "./timezones/pdt/index.mjs",
        vec![],
        vec!["./data/timezones/pdt/index.mjs"],
    );
    should_equal(
        JsonValue::parse(r##"{"./timezones/pdt/*": "./data/timezones/pdt/*"}"##).unwrap(),
        "./timezones/pdt/index.mjs",
        vec![],
        vec!["./data/timezones/pdt/index.mjs"],
    );
    should_equal(
        JsonValue::parse(r##"{"./": "./timezones/"}"##).unwrap(),
        "./pdt.mjs",
        vec![],
        vec!["./timezones/pdt.mjs"],
    );
    should_equal(
        JsonValue::parse(r##"{"./*": "./timezones/*"}"##).unwrap(),
        "./pdt.mjs",
        vec![],
        vec!["./timezones/pdt.mjs"],
    );
    should_equal(
        JsonValue::parse(r##"{"./": "./"}"##).unwrap(),
        "./timezones/pdt.mjs",
        vec![],
        vec!["./timezones/pdt.mjs"],
    );
    should_equal(
        JsonValue::parse(r##"{"./*": "./*"}"##).unwrap(),
        "./timezones/pdt.mjs",
        vec![],
        vec!["./timezones/pdt.mjs"],
    );
    should_equal(
        JsonValue::parse(r##"{".": "./"}"##).unwrap(),
        "./timezones/pdt.mjs",
        vec![],
        vec![],
    );
    should_equal(
        JsonValue::parse(r##"{".": "./*"}"##).unwrap(),
        "./timezones/pdt.mjs",
        vec![],
        vec![],
    );
    should_equal(
        JsonValue::parse(r##"{"./": "./", "./dist/": "./lib/"}"##).unwrap(),
        "./dist/index.mjs",
        vec![],
        vec!["./lib/index.mjs"],
    );
    should_equal(
        JsonValue::parse(r##"{"./*": "./*", "./dist/*": "./lib/*"}"##).unwrap(),
        "./dist/index.mjs",
        vec![],
        vec!["./lib/index.mjs"],
    );
    should_equal(
        JsonValue::parse(r##"{"./dist/utils/": "./dist/utils/", "./dist/": "./lib/"}"##).unwrap(),
        "./dist/utils/index.js",
        vec![],
        vec!["./dist/utils/index.js"],
    );
    should_equal(
        JsonValue::parse(r##"{"./dist/utils/*": "./dist/utils/*", "./dist/*": "./lib/*"}"##).unwrap(),
        "./dist/utils/index.js",
        vec![],
        vec!["./dist/utils/index.js"],
    );
    should_equal(
        JsonValue::parse(r##"{"./dist/utils/index.js": "./dist/utils/index.js", "./dist/utils/": "./dist/utils/index.mjs", "./dist/": "./lib/"}"##).unwrap(),
        "./dist/utils/index.js",
        vec![],
        vec!["./dist/utils/index.js"],
    );
    should_equal(
        JsonValue::parse(r##"{"./dist/utils/index.js": "./dist/utils/index.js", "./dist/utils/*": "./dist/utils/index.mjs", "./dist/*": "./lib/*"}"##).unwrap(),
        "./dist/utils/index.js",
        vec![],
        vec!["./dist/utils/index.js"],
    );
    should_equal(
        JsonValue::parse(r##"{"./": {"browser": "./browser/"}, "./dist/": "./lib/"}"##).unwrap(),
        "./dist/index.mjs",
        vec!["browser"],
        vec!["./lib/index.mjs"],
    );
    should_equal(
        JsonValue::parse(r##"{"./*": {"browser": "./browser/*"}, "./dist/*": "./lib/*"}"##).unwrap(),
        "./dist/index.mjs",
        vec!["browser"],
        vec!["./lib/index.mjs"],
    );
    should_equal(
        JsonValue::parse(r##"{"./utils/": {"browser": ["lodash/", "./utils/"], "node": ["./utils-node/"]}}"##).unwrap(),
        "./utils/index.js",
        vec!["browser"],
        vec!["lodash/index.js", "./utils/index.js"],
    );
    should_equal(
        JsonValue::parse(r##"{"./utils/*": {"browser": ["lodash/*", "./utils/*"], "node": ["./utils-node/*"]}}"##).unwrap(),
        "./utils/index.js",
        vec!["browser"],
        vec!["lodash/index.js", "./utils/index.js"],
    );
    should_equal(
        JsonValue::parse(r##"{"./utils/": {"webpack": "./wpk/", "browser": ["lodash/", "./utils/"], "node": ["./node/"]}}"##).unwrap(),
        "./utils/index.mjs",
        vec![],
        vec![],
    );
    should_equal(
        JsonValue::parse(r##"{"./utils/*": {"webpack": "./wpk/*", "browser": ["lodash/*", "./utils/*"], "node": ["./node/*"]}}"##).unwrap(),
        "./utils/index.mjs",
        vec![],
        vec![],
    );
    should_equal(
        JsonValue::parse(r##"{"./utils/": {"webpack": "./wpk/", "browser": ["lodash/", "./utils/"], "node": ["./utils/"]}}"##).unwrap(),
        "./utils/index.mjs",
        vec!["browser", "webpack"],
        vec!["./wpk/index.mjs"],
    );
    should_equal(
        JsonValue::parse(r##"{"./utils/*": {"webpack": "./wpk/*", "browser": ["lodash/*", "./utils/*"], "node": ["./utils/*"]}}"##).unwrap(),
        "./utils/index.mjs",
        vec!["browser", "webpack"],
        vec!["./wpk/index.mjs"],
    );
    should_equal(
        JsonValue::parse(r##"{"./utils/index": "./a/index.js"}"##).unwrap(),
        "./utils/index.mjs",
        vec![],
        vec![],
    );
    should_equal(
        JsonValue::parse(r##"{"./utils/index.mjs": "./a/index.js"}"##).unwrap(),
        "./utils/index",
        vec![],
        vec![],
    );
    should_equal(
        JsonValue::parse(r##"{"./utils/index": {"browser": "./a/index.js", "default": "./b/index.js"}}"##).unwrap(),
        "./utils/index.mjs",
        vec!["browser"],
        vec![],
    );
    should_equal(
        JsonValue::parse(r##"{"./utils/index.mjs": {"browser": "./a/index.js", "default": "./b/index.js"}}"##).unwrap(),
        "./utils/index",
        vec!["browser"],
        vec![],
    );
    should_equal(
        JsonValue::parse(r##"{"./../../utils/": "./dist/"}"##).unwrap(),
        "./../../utils/index",
        vec![],
        vec!["./dist/index"],
    );
    should_equal(
        JsonValue::parse(r##"{"./../../utils/*": "./dist/*"}"##).unwrap(),
        "./../../utils/index",
        vec![],
        vec!["./dist/index"],
    );
    should_equal(
        JsonValue::parse(r##"{"./utils/": "./../src/"}"##).unwrap(),
        "./utils/index",
        vec![],
        vec!["./../src/index"],
    );
    should_equal(
        JsonValue::parse(r##"{"./utils/*": "./../src/*"}"##).unwrap(),
        "./utils/index",
        vec![],
        vec!["./../src/index"],
    );
    should_equal(
        JsonValue::parse(r##"{"./utils/index": "./src/../index.js"}"##).unwrap(),
        "./utils/index",
        vec![],
        vec!["./src/../index.js"],
    );
    should_equal(
        JsonValue::parse(r##"{"./utils/../utils/index": "./src/../index.js"}"##).unwrap(),
        "./utils/index",
        vec![],
        vec![],
    );
    should_equal(
        JsonValue::parse(r##"{"./utils/": {"browser": "./utils/../"}}"##).unwrap(),
        "./utils/index",
        vec!["browser"],
        vec!["./utils/../index"],
    );
    should_equal(
        JsonValue::parse(r##"{"./": "./src/../../", "./dist/": "./dist/"}"##).unwrap(),
        "./dist/index",
        vec!["browser"],
        vec!["./dist/index"],
    );
    should_equal(
        JsonValue::parse(r##"{"./*": "./src/../../*", "./dist/*": "./dist/*"}"##).unwrap(),
        "./dist/index",
        vec!["browser"],
        vec!["./dist/index"],
    );
    should_equal(
        JsonValue::parse(r##"{"./utils/": "./dist/"}"##).unwrap(),
        "./utils/timezone/../../index",
        vec![],
        vec!["./dist/timezone/../../index"],
    );
    should_equal(
        JsonValue::parse(r##"{"./utils/*": "./dist/*"}"##).unwrap(),
        "./utils/timezone/../../index",
        vec![],
        vec!["./dist/timezone/../../index"],
    );
    should_equal(
        JsonValue::parse(r##"{"./utils/": "./dist/"}"##).unwrap(),
        "./utils/timezone/../index",
        vec![],
        vec!["./dist/timezone/../index"],
    );
    should_equal(
        JsonValue::parse(r##"{"./utils/*": "./dist/*"}"##).unwrap(),
        "./utils/timezone/../index",
        vec![],
        vec!["./dist/timezone/../index"],
    );
    should_equal(
        JsonValue::parse(r##"{"./utils/": "./dist/target/"}"##).unwrap(),
        "./utils/../../index",
        vec![],
        vec!["./dist/target/../../index"],
    );
    should_equal(
        JsonValue::parse(r##"{"./utils/*": "./dist/target/*"}"##).unwrap(),
        "./utils/../../index",
        vec![],
        vec!["./dist/target/../../index"],
    );
    should_equal(
        JsonValue::parse(r##"{"./utils/": {"browser": "./node_modules/"}}"##).unwrap(),
        "./utils/lodash/dist/index.js",
        vec!["browser"],
        vec!["./node_modules/lodash/dist/index.js"],
    );
    should_equal(
        JsonValue::parse(r##"{"./utils/*": {"browser": "./node_modules/*"}}"##).unwrap(),
        "./utils/lodash/dist/index.js",
        vec!["browser"],
        vec!["./node_modules/lodash/dist/index.js"],
    );
    should_equal(
        JsonValue::parse(r##"{"./utils/": "./utils/../node_modules/"}"##).unwrap(),
        "./utils/lodash/dist/index.js",
        vec!["browser"],
        vec!["./utils/../node_modules/lodash/dist/index.js"],
    );
    should_equal(
        JsonValue::parse(r##"{"./utils/*": "./utils/../node_modules/*"}"##).unwrap(),
        "./utils/lodash/dist/index.js",
        vec!["browser"],
        vec!["./utils/../node_modules/lodash/dist/index.js"],
    );
    should_equal(
        JsonValue::parse(r##"{"./utils/": {"browser": {"webpack": "./", "default": {"node": "./node/"}}}}"##).unwrap(),
        "./utils/index.js",
        vec!["browser"],
        vec![],
    );
    should_equal(
        JsonValue::parse(r##"{"./utils/*": {"browser": {"webpack": "./*", "default": {"node": "./node/*"}}}}"##).unwrap(),
        "./utils/index.js",
        vec!["browser"],
        vec![],
    );
    should_equal(
        JsonValue::parse(r##"{"./utils/": {"browser": {"webpack": ["./", "./node/"], "default": {"node": "./node/"}}}}"##).unwrap(),
        "./utils/index.js",
        vec!["browser", "webpack"],
        vec!["./index.js", "./node/index.js"],
    );
    should_equal(
        JsonValue::parse(r##"{"./utils/*": {"browser": {"webpack": ["./*", "./node/*"], "default": {"node": "./node/*"}}}}"##).unwrap(),
        "./utils/index.js",
        vec!["browser", "webpack"],
        vec!["./index.js", "./node/index.js"],
    );
    should_equal(
        JsonValue::parse(r##"{"./utils/": {"browser": {"webpack": ["./", "./node/"], "default": {"node": "./node/"}}}}"##).unwrap(),
        "./utils/index.js",
        vec!["webpack"],
        vec![],
    );
    should_equal(
        JsonValue::parse(r##"{"./utils/*": {"browser": {"webpack": ["./*", "./node/*"], "default": {"node": "./node/*"}}}}"##).unwrap(),
        "./utils/index.js",
        vec!["webpack"],
        vec![],
    );
    should_equal(
        JsonValue::parse(r##"{"./utils/": {"browser": {"webpack": ["./", "./node/"], "default": {"node": "./node/"}}}}"##).unwrap(),
        "./utils/index.js",
        vec!["node", "browser"],
        vec!["./node/index.js"],
    );
    should_equal(
        JsonValue::parse(r##"{"./utils/*": {"browser": {"webpack": ["./*", "./node/*"], "default": {"node": "./node/*"}}}}"##).unwrap(),
        "./utils/index.js",
        vec!["node", "browser"],
        vec!["./node/index.js"],
    );
    should_equal(
        JsonValue::parse(r##"{"./utils/": {"browser": {"webpack": ["./", "./node/"], "default": {"node": {"webpack": ["./wpck/"]}}}}}"##).unwrap(),
        "./utils/index.js",
        vec!["browser", "node"],
        vec![],
    );
    should_equal(
        JsonValue::parse(r##"{"./utils/*": {"browser": {"webpack": ["./*", "./node/*"], "default": {"node": {"webpack": ["./wpck/*"]}}}}}"##).unwrap(),
        "./utils/index.js",
        vec!["browser", "node"],
        vec![],
    );
    should_equal(
        JsonValue::parse(r##"{"./utils/": {"browser": {"webpack": ["./", "./node/"], "default": {"node": {"webpack": ["./wpck/"]}}}}}"##).unwrap(),
        "./utils/index.js",
        vec!["browser", "node", "webpack"],
        vec!["./index.js", "./node/index.js"],
    );
    should_equal(
        JsonValue::parse(r##"{"./utils/*": {"browser": {"webpack": ["./*", "./node/*"], "default": {"node": {"webpack": ["./wpck/*"]}}}}}"##).unwrap(),
        "./utils/index.js",
        vec!["browser", "node", "webpack"],
        vec!["./index.js", "./node/index.js"],
    );
    should_equal(
        JsonValue::parse(r##"{"./a.js": {"abc": {"def": "./x.js"}, "ghi": "./y.js"}}"##).unwrap(),
        "./a.js",
        vec!["abc", "ghi"],
        vec!["./y.js"],
    );
    should_equal(
        JsonValue::parse(r##"{"./a.js": {"abc": {"def": "./x.js", "default": []}, "ghi": "./y.js"}}"##).unwrap(),
        "./a.js",
        vec!["abc", "ghi"],
        vec![],
    );

    should_error(
        JsonValue::parse(r##"{"./utils/": {"browser": "../this/"}}"##).unwrap(),
        "./utils/index",
        vec!["browser"],
        "Export should be relative path and start with \"./\", but got ../this/",
    );
    should_error(
        JsonValue::parse(r##"{"./utils/*": {"browser": "../this/*"}}"##).unwrap(),
        "./utils/index",
        vec!["browser"],
        "Export should be relative path and start with \"./\", but got ../this/*",
    );
    should_error(
        JsonValue::parse(r##"{".": {"default": "./src/index.js", "browser": "./index.js", "node": "./src/node/index.js"}}"##).unwrap(),
        ".",
        vec!["browser"],
        "Default condition should be last one",
    );
    should_error(
        JsonValue::parse(r##"{"./*": "."}"##).unwrap(),
        "./timezones/pdt.mjs",
        vec![],
        "Export should be relative path and start with \"./\", but got .",
    );
    should_error(
        JsonValue::parse(r##"{"./": "."}"##).unwrap(),
        "./timezones/pdt.mjs",
        vec![],
        "Export should be relative path and start with \"./\", but got .",
    );
    should_error(
        JsonValue::parse(r##"{"./timezones/": "./data/timezones"}"##).unwrap(),
        "./timezones/pdt.mjs",
        vec![],
        "Expected ./data/timezones is folder mapping",
    );
    should_error(
        JsonValue::parse(r##"{"./node": "./node.js", "browser": {"default": "./index.js"}}"##).unwrap(),
        ".",
        vec!["browser"],
        "Export field key should be relative path and start with \".\", but got browser",
    );
    should_error(
        JsonValue::parse(r##"{"browser": {"default": "./index.js"}, "./node": "./node.js"}"##).unwrap(),
        ".",
        vec!["browser"],
        "Export field key should be relative path and start with \"./\", but got ./node",
    );
    should_error(
        JsonValue::parse(r##"{"/utils/": "./a/"}"##).unwrap(),
        "./utils/index.mjs",
        vec![],
        "Export field key should be relative path and start with \"./\", but got /utils/",
    );
    should_error(
        JsonValue::parse(r##"{"./utils/": "/a/"}"##).unwrap(),
        "./utils/index.mjs",
        vec![],
        "Export should be relative path and start with \"./\", but got /a/",
    );
    should_error(
        JsonValue::parse(r##"{"./utils/": "./a/"}"##).unwrap(),
        "/utils/index.mjs",
        vec![],
        "Request should be relative path and start with '.', but got /utils/index.mjs",
    );
    should_error(
        JsonValue::parse(r##"{"./utils/": {"browser": "./a/", "default": "./b/"}}"##).unwrap(),
        "/utils/index.mjs",
        vec!["browser"],
        "Request should be relative path and start with '.', but got /utils/index.mjs",
    );
    should_error(
        JsonValue::parse(r##"{"./utils/": {"browser": "./a/", "default": "./b/"}}"##).unwrap(),
        "/utils/index.mjs/",
        vec!["browser"],
        "Request should be relative path and start with '.', but got /utils/index.mjs/",
    );
    should_error(
        JsonValue::parse(r##"{"./utils/": {"browser": "./a/", "default": "./b/"}}"##).unwrap(),
        "../utils/index.mjs",
        vec!["browser"],
        "Request should be relative path and start with '.', but got ../utils/index.mjs",
    );
    should_error(
        JsonValue::parse(r##"{"../../utils/": "./dist/"}"##).unwrap(),
        "../../utils/index",
        vec![],
        "Request should be relative path and start with '.', but got ../../utils/index",
    );
    should_error(
        JsonValue::parse(r##"{"../../utils/*": "./dist/*"}"##).unwrap(),
        "./utils/index",
        vec![],
        "Export field key should be relative path and start with \"./\", but got ../../utils/*",
    );
    should_error(
        JsonValue::parse(r##"{"./utils/*": "./dist/*"}"##).unwrap(),
        "../../utils/index",
        vec![],
        "Request should be relative path and start with '.', but got ../../utils/index",
    );
    should_error(
        JsonValue::parse(r##"{"./utils/": "../src/"}"##).unwrap(),
        "./utils/index",
        vec![],
        "Export should be relative path and start with \"./\", but got ../src/",
    );
    should_error(
        JsonValue::parse(r##"{"./utils/*": "../src/*"}"##).unwrap(),
        "./utils/index",
        vec![],
        "Export should be relative path and start with \"./\", but got ../src/*",
    );
    should_error(
        JsonValue::parse(r##"{"/utils/": {"browser": "./a/", "default": "./b/"}}"##).unwrap(),
        "./utils/index.mjs",
        vec!["browser"],
        "Export field key should be relative path and start with \"./\", but got /utils/",
    );
    should_error(
        JsonValue::parse(r##"{"./utils/": {"browser": "/a/", "default": "/b/"}}"##).unwrap(),
        "./utils/index.mjs",
        vec!["browser"],
        "Export should be relative path and start with \"./\", but got /a/",
    );
    should_error(
        JsonValue::parse(r##"{"./utils/*": {"browser": "/a/", "default": "/b/"}}"##).unwrap(),
        "./utils/index.mjs",
        vec!["browser"],
        "Export should be relative path and start with \"./\", but got /a/",
    );
}

#[test]
fn exports_field_map_test_2() {
    // the `exports` of the `pkgexports` package that Node.js tests against
    let value = || {
        JsonValue::parse(r##"{"./hole": "./lib/hole.js", "./space": "./sp%20ce.js", "./valid-cjs": "./asdf.js", "./sub/*": "./*", "./sub/internal/*": null, "./belowdir/*": "../belowdir/*", "./belowfile": "../belowfile", "./null": null, "./null/": null, "./invalid1": {}, "./invalid2": 1234, "./invalid3": "", "./invalid4": {}, "./invalid5": "invalid5.js", "./fallbackdir/*": [[], null, {}, "builtin:x/*", "./*"], "./fallbackfile": [[], null, {}, "builtin:x", "./asdf.js"], "./nofallback1": [], "./nofallback2": [null, {}, "builtin:x"], "./nodemodules": "./node_modules/internalpkg/x.js", "./doubleslash": ".//asdf.js", "./no-addons": {"node-addons": "./addons-entry.js", "default": "./no-addons-entry.js"}, "./condition": [{"custom-condition": {"import": "./custom-condition.mjs", "require": "./custom-condition.js"}, "import": {"nomatch": "./nothing.js"}, "require": {"require": {"nomatch": "./nothing.js"}, "default": "./sp ce.js"}, "default": "./asdf.js", "node": "./lib/hole.js"}], "./no-ext": "./asdf", "./resolve-self": {"require": "./resolve-self.js", "import": "./resolve-self.mjs"}, "./resolve-self-invalid": {"require": "./resolve-self-invalid.js", "import": "./resolve-self-invalid.mjs"}, "./*/trailer": "./subpath/*.js", "./*/*railer": "never", "./*trailer": "never", "./*/dir2/trailer": "./subpath/*/index.js", "./a/*": "./subpath/*.js", "./a/b/": "./nomatch/", "./a/b*": "./subpath*.js", "./subpath/*": "./subpath/*", "./subpath/sub-*": "./subpath/dir1/*.js", "./subpath/sub-*.js": "./subpath/dir1/*.js", "./features/*": "./subpath/*/*.js", "./trailing-pattern-slash*": "./trailing-pattern-slash*index.js"}"##).unwrap()
    };

    should_equal(value(), "./subpath/sub-dir1.js", vec![], vec!["./subpath/dir1/dir1.js"]);
    should_equal(value(), "./valid-cjs", vec![], vec!["./asdf.js"]);
    should_equal(value(), "./space", vec![], vec!["./sp%20ce.js"]);
    should_equal(
        value(),
        "./fallbackdir/asdf.js",
        vec![],
        vec!["builtin:x/asdf.js", "./asdf.js"],
    );
    should_equal(value(), "./fallbackfile", vec![], vec!["builtin:x", "./asdf.js"]);
    should_equal(value(), "./condition", vec!["require"], vec!["./sp ce.js"]);
    should_equal(value(), "./resolve-self", vec!["require"], vec!["./resolve-self.js"]);
    should_equal(value(), "./resolve-self", vec!["import"], vec!["./resolve-self.mjs"]);
    should_equal(value(), "./subpath/sub-dir1", vec![], vec!["./subpath/dir1/dir1.js"]);
    should_equal(value(), "./subpath/sub-dir1.js", vec![], vec!["./subpath/dir1/dir1.js"]);
    should_equal(value(), "./features/dir1", vec![], vec!["./subpath/dir1/dir1.js"]);
    should_equal(value(), "./dir1/dir1/trailer", vec![], vec!["./subpath/dir1/dir1.js"]);
    should_equal(value(), "./dir2/trailer", vec![], vec!["./subpath/dir2.js"]);
    should_equal(value(), "./dir2/dir2/trailer", vec![], vec!["./subpath/dir2/index.js"]);
    should_equal(value(), "./a/dir1/dir1", vec![], vec!["./subpath/dir1/dir1.js"]);
    should_equal(value(), "./a/b/dir1/dir1", vec![], vec!["./subpath/dir1/dir1.js"]);
    should_equal(value(), "./sub/no-a-file.js", vec![], vec!["./no-a-file.js"]);
    should_equal(value(), "./sub/internal/test.js", vec![], vec![]);
    should_equal(
        value(),
        "./trailing-pattern-slash/",
        vec![],
        vec!["./trailing-pattern-slash/index.js"],
    );
}
