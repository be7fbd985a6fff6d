use nodejs_resolver::error::Error;
use nodejs_resolver::json::JsonValue;
use nodejs_resolver::map::{ImportsField};

fn names(condition_names: Vec<&str>) -> Vec<String> {
    condition_names.into_iter().map(|s| s.to_string()).collect()
}

fn process(value: JsonValue, request: &str, condition_names: Vec<&str>) -> Result<Vec<String>, Error> {
    ImportsField::field_process(&value, request, &names(condition_names))
}

fn should_equal(value: JsonValue, request: &str, condition_names: Vec<&str>, expected: Vec<&str>) {
    let actual = process(value, request, condition_names);
    assert!(actual.is_ok());
    let actual = actual.unwrap();
    assert_eq!(actual, expected.into_iter().map(|s| s.to_string()).collect::<Vec<String>>())
}

fn should_error(value: JsonValue, request: &str, condition_names: Vec<&str>, expected_error_message: &str) {
    let actual = process(value, request, condition_names);
    assert!(actual.is_err());
    let error = actual.unwrap_err();
    match error {
        Error::UnexpectedValue(message) => assert_eq!(expected_error_message, message),
        _ => unreachable!(),
    }
}

#[test]
fn imports_field_map_test() {
    should_equal(
        JsonValue::parse(r##"{"#abc/": {"import": ["./dist/", "./src/"], "webpack": "./wp/"}, "#abc": "./main.js"}"##).unwrap(),
        "#abc/test/file.js",
        vec!["import", "webpack"],
        vec!["./dist/test/file.js", "./src/test/file.js"],
    );
    should_equal(
        JsonValue::parse(r##"{"#1/timezones/": "./data/timezones/"}"##).unwrap(),
        "#1/timezones/pdt.mjs",
        vec![],
        vec!["./data/timezones/pdt.mjs"],
    );
    should_equal(
        JsonValue::parse(r##"{"#aaa/": "./data/timezones/", "#a/": "./data/timezones/"}"##).unwrap(),
        "#a/timezones/pdt.mjs",
        vec![],
        vec!["./data/timezones/timezones/pdt.mjs"],
    );
    should_equal(
        JsonValue::parse(r##"{"#a/lib/": {"browser": ["./browser/"]}, "#a/dist/index.js": {"node": "./index.js"}}"##).unwrap(),
        "#a/dist/index.js",
        vec!["browser"],
        vec![],
    );
    should_equal(
        JsonValue::parse(r##"{"#a/lib/": {"browser": ["./browser/"]}, "#a/dist/index.js": {"node": "./index.js", "default": "./browser/index.js"}}"##).unwrap(),
        "#a/dist/index.js",
        vec!["browser"],
        vec!["./browser/index.js"],
    );
    should_equal(
        JsonValue::parse(r##"{"#a/dist/a": "./dist/index.js"}"##).unwrap(),
        "#a/dist/aaa",
        vec![],
        vec![],
    );
    should_equal(
        JsonValue::parse(r##"{"#a/a/a/": "./dist/index.js"}"##).unwrap(),
        "#a/a/a",
        vec![],
        vec![],
    );
    should_equal(
        JsonValue::parse(r##"{"#a/a/a/": "./dist/index.js"}"##).unwrap(),
        "#a/a/a",
        vec![],
        vec![],
    );
    should_equal(
        JsonValue::parse(r##"{"#a": "./index.js"}"##).unwrap(),
        "#a/timezones/pdt.mjs",
        vec![],
        vec![],
    );
    should_equal(
        JsonValue::parse(r##"{"#a/index.js": "./main.js"}"##).unwrap(),
        "#a/index.js",
        vec![],
        vec!["./main.js"],
    );
    should_equal(
        JsonValue::parse(r##"{"#a/#foo": "./ok.js", "#a/module": "./ok.js", "#a/🎉": "./ok.js", "#a/%F0%9F%8E%89": "./other.js", "#a/bar#foo": "./ok.js", "#a/#zapp/": "./"}"##).unwrap(),
        "#a/#foo",
        vec![],
        vec!["./ok.js"],
    );
    should_equal(
        JsonValue::parse(r##"{"#a/#foo": "./ok.js", "#a/module": "./ok.js", "#a/🎉": "./ok.js", "#a/%F0%9F%8E%89": "./other.js", "#a/bar#foo": "./ok.js", "#a/#zapp/": "./"}"##).unwrap(),
        "#a/bar#foo",
        vec![],
        vec!["./ok.js"],
    );
    should_equal(
        JsonValue::parse(r##"{"#a/#foo": "./ok.js", "#a/module": "./ok.js", "#a/🎉": "./ok.js", "#a/%F0%9F%8E%89": "./other.js", "#a/bar#foo": "./ok.js", "#a/#zapp/": "./"}"##).unwrap(),
        "#a/#zapp/ok.js#abc",
        vec![],
        vec!["./ok.js#abc"],
    );
    should_equal(
        JsonValue::parse(r##"{"#a/#foo": "./ok.js", "#a/module": "./ok.js", "#a/🎉": "./ok.js", "#a/%F0%9F%8E%89": "./other.js", "#a/bar#foo": "./ok.js", "#a/#zapp/": "./"}"##).unwrap(),
        "#a/#zapp/ok.js?abc",
        vec![],
        vec!["./ok.js?abc"],
    );
    should_equal(
        JsonValue::parse(r##"{"#a/#foo": "./ok.js", "#a/module": "./ok.js", "#a/🎉": "./ok.js", "#a/%F0%9F%8E%89": "./other.js", "#a/bar#foo": "./ok.js", "#a/#zapp/": "./"}"##).unwrap(),
        "#a/#zapp/🎉.js",
        vec![],
        vec!["./🎉.js"],
    );
    should_equal(
        JsonValue::parse(r##"{"#a/#foo": "./ok.js", "#a/module": "./ok.js", "#a/🎉": "./ok.js", "#a/%F0%9F%8E%89": "./other.js", "#a/bar#foo": "./ok.js", "#a/#zapp/": "./"}"##).unwrap(),
        "#a/#zapp/%F0%9F%8E%89.js",
        vec![],
        vec!["./%F0%9F%8E%89.js"],
    );
    should_equal(
        JsonValue::parse(r##"{"#a/#foo": "./ok.js", "#a/module": "./ok.js", "#a/🎉": "./ok.js", "#a/%F0%9F%8E%89": "./other.js", "#a/bar#foo": "./ok.js", "#a/#zapp/": "./"}"##).unwrap(),
        "#a/🎉",
        vec![],
        vec!["./ok.js"],
    );
    should_equal(
        JsonValue::parse(r##"{"#a/#foo": "./ok.js", "#a/module": "./ok.js", "#a/🎉": "./ok.js", "#a/%F0%9F%8E%89": "./other.js", "#a/bar#foo": "./ok.js", "#a/#zapp/": "./"}"##).unwrap(),
        "#a/%F0%9F%8E%89",
        vec![],
        vec!["./other.js"],
    );
    should_equal(
        JsonValue::parse(r##"{"#a/#foo": "./ok.js", "#a/module": "./ok.js", "#a/🎉": "./ok.js", "#a/%F0%9F%8E%89": "./other.js", "#a/bar#foo": "./ok.js", "#a/#zapp/": "./"}"##).unwrap(),
        "#a/module",
        vec![],
        vec!["./ok.js"],
    );
    should_equal(
        JsonValue::parse(r##"{"#a/#foo": "./ok.js", "#a/module": "./ok.js", "#a/🎉": "./ok.js", "#a/%F0%9F%8E%89": "./other.js", "#a/bar#foo": "./ok.js", "#a/#zapp/": "./"}"##).unwrap(),
        "#a/module#foo",
        vec![],
        vec![],
    );
    should_equal(
        JsonValue::parse(r##"{"#a/#foo": "./ok.js", "#a/module": "./ok.js", "#a/🎉": "./ok.js", "#a/%F0%9F%8E%89": "./other.js", "#a/bar#foo": "./ok.js", "#a/#zapp/": "./"}"##).unwrap(),
        "#a/module?foo",
        vec![],
        vec![],
    );
    should_equal(
        JsonValue::parse(r##"{"#a/a?b?c/": "./"}"##).unwrap(),
        "#a/a?b?c/d?e?f",
        vec![],
        vec!["./d?e?f"],
    );
    should_equal(
        JsonValue::parse(r##"{"#a/": "/user/a/"}"##).unwrap(),
        "#a/index",
        vec![],
        vec!["/user/a/index"],
    );
    should_equal(
        JsonValue::parse(r##"{"#a/": "./A/", "#a/b/c": "./c.js"}"##).unwrap(),
        "#a/b/d.js",
        vec![],
        vec!["./A/b/d.js"],
    );
    should_equal(
        JsonValue::parse(r##"{"#a/": "./A/", "#a/b": "./b.js"}"##).unwrap(),
        "#a/c.js",
        vec![],
        vec!["./A/c.js"],
    );
    should_equal(
        JsonValue::parse(r##"{"#a/": "./A/", "#a/b/c/d": "./c.js"}"##).unwrap(),
        "#a/b/c/d.js",
        vec![],
        vec!["./A/b/c/d.js"],
    );
    should_equal(
        JsonValue::parse(r##"{"#a": "./dist/index.js"}"##).unwrap(),
        "#a",
        vec![],
        vec!["./dist/index.js"],
    );
    should_equal(
        JsonValue::parse(r##"{"#a/": "./"}"##).unwrap(),
        "#a",
        vec![],
        vec![],
    );
    should_equal(
        JsonValue::parse(r##"{"#a/": "./dist/", "#a/index.js": "./dist/a.js"}"##).unwrap(),
        "#a/index.js",
        vec![],
        vec!["./dist/a.js"],
    );
    should_equal(
        JsonValue::parse(r##"{"#a/": {"browser": ["./browser/"]}, "#a/index.js": {"browser": "./index.js"}}"##).unwrap(),
        "#a/index.js",
        vec!["browser"],
        vec!["./index.js"],
    );
    should_equal(
        JsonValue::parse(r##"{"#a/": {"browser": ["./browser/"]}, "#a/index.js": {"node": "./node.js"}}"##).unwrap(),
        "#a/index.js",
        vec!["browser"],
        vec![],
    );
    should_equal(
        JsonValue::parse(r##"{"#a": {"browser": "./index.js", "node": "./src/node/index.js", "default": "./src/index.js"}}"##).unwrap(),
        "#a",
        vec!["browser"],
        vec!["./index.js"],
    );
    should_equal(
        JsonValue::parse(r##"{"#a": {"browser": "./index.js", "node": "./src/node/index.js", "default": "./src/index.js"}}"##).unwrap(),
        "#a",
        vec![],
        vec!["./src/index.js"],
    );
    should_equal(
        JsonValue::parse(r##"{"#a": "./index"}"##).unwrap(),
        "#a",
        vec![],
        vec!["./index"],
    );
    should_equal(
        JsonValue::parse(r##"{"#a/index": "./index.js"}"##).unwrap(),
        "#a/index",
        vec![],
        vec!["./index.js"],
    );
    should_equal(
        JsonValue::parse(r##"{"#a": "b"}"##).unwrap(),
        "#a",
        vec![],
        vec!["b"],
    );
    should_equal(
        JsonValue::parse(r##"{"#a/": "b/"}"##).unwrap(),
        "#a/index",
        vec![],
        vec!["b/index"],
    );
    should_equal(
        JsonValue::parse(r##"{"#a?q=a#hashishere": "b#anotherhashishere"}"##).unwrap(),
        "#a?q=a#hashishere",
        vec![],
        vec!["b#anotherhashishere"],
    );
    should_equal(
        JsonValue::parse(r##"{"#a": [{"browser": "./browser.js"}, {"require": "./require.js"}, {"import": "./import.mjs"}]}"##).unwrap(),
        "#a",
        vec![],
        vec![],
    );
    should_equal(
        JsonValue::parse(r##"{"#a": [{"browser": "./browser.js"}, {"require": "./require.js"}, {"import": "./import.mjs"}]}"##).unwrap(),
        "#a",
        vec!["import"],
        vec!["./import.mjs"],
    );
    should_equal(
        JsonValue::parse(r##"{"#a": [{"browser": "./browser.js"}, {"require": "./require.js"}, {"import": "./import.mjs"}]}"##).unwrap(),
        "#a",
        vec!["import", "require"],
        vec!["./require.js", "./import.mjs"],
    );
    should_equal(
        JsonValue::parse(r##"{"#a": [{"browser": "./browser.js"}, {"require": "./require.js"}, {"import": ["./import.mjs", "#b/import.js"]}]}"##).unwrap(),
        "#a",
        vec!["import", "require"],
        vec!["./require.js", "./import.mjs", "#b/import.js"],
    );
    should_equal(
        JsonValue::parse(r##"{"#timezones": "./data/timezones/"}"##).unwrap(),
        "#timezones/pdt.mjs",
        vec![],
        vec![],
    );
    should_equal(
        JsonValue::parse(r##"{"#timezones/pdt/": "./data/timezones/pdt/"}"##).unwrap(),
        "#timezones/pdt/index.mjs",
        vec![],
        vec!["./data/timezones/pdt/index.mjs"],
    );
    should_equal(
        JsonValue::parse(r##"{"#a/": "./timezones/"}"##).unwrap(),
        "#a/pdt.mjs",
        vec![],
        vec!["./timezones/pdt.mjs"],
    );
    should_equal(
        JsonValue::parse(r##"{"#a/": "./"}"##).unwrap(),
        "#a/timezones/pdt.mjs",
        vec![],
        vec!["./timezones/pdt.mjs"],
    );
    should_equal(
        JsonValue::parse(r##"{"#a": "."}"##).unwrap(),
        "#a/timezones/pdt.mjs",
        vec![],
        vec![],
    );
    should_equal(
        JsonValue::parse(r##"{"#a": "./"}"##).unwrap(),
        "#a/timezones/pdt.mjs",
        vec![],
        vec![],
    );
    should_equal(
        JsonValue::parse(r##"{"#a/": "./", "#a/dist/": "./lib/"}"##).unwrap(),
        "#a/dist/index.mjs",
        vec![],
        vec!["./lib/index.mjs"],
    );
    should_equal(
        JsonValue::parse(r##"{"#a/dist/utils/": "./dist/utils/", "#a/dist/": "./lib/"}"##).unwrap(),
        "#a/dist/utils/index.js",
        vec![],
        vec!["./dist/utils/index.js"],
    );
    should_equal(
        JsonValue::parse(r##"{"#a/dist/utils/index.js": "./dist/utils/index.js", "#a/dist/utils/": "./dist/utils/index.mjs", "#a/dist/": "./lib/"}"##).unwrap(),
        "#a/dist/utils/index.js",
        vec![],
        vec!["./dist/utils/index.js"],
    );
    should_equal(
        JsonValue::parse(r##"{"#a/": {"browser": "./browser/"}, "#a/dist/": "./lib/"}"##).unwrap(),
        "#a/dist/index.js",
        vec![],
        vec!["./lib/index.js"],
    );
    should_equal(
        JsonValue::parse(r##"{"#a/": {"browser": "./browser/"}, "#a/dist/": "./lib/"}"##).unwrap(),
        "#a/dist/index.js",
        vec!["browser"],
        vec!["./lib/index.js"],
    );
    should_equal(
        JsonValue::parse(r##"{"#a/": {"browser": ["lodash/", "./utils/"], "node": ["./utils-node/"]}}"##).unwrap(),
        "#a/index.js",
        vec!["browser"],
        vec!["lodash/index.js", "./utils/index.js"],
    );
    should_equal(
        JsonValue::parse(r##"{"#a/": {"webpack": "./wpk", "browser": ["lodash/", "./utils/"], "node": ["./node/"]}}"##).unwrap(),
        "#a/index.mjs",
        vec![],
        vec![],
    );
    should_equal(
        JsonValue::parse(r##"{"#a/": {"webpack": "./wpk/", "browser": ["lodash/", "./utils/"], "node": ["./node/"]}}"##).unwrap(),
        "#a/index.mjs",
        vec!["browser", "webpack"],
        vec!["./wpk/index.mjs"],
    );
    should_equal(
        JsonValue::parse(r##"{"#a/index": "./a/index.js"}"##).unwrap(),
        "#a/index.mjs",
        vec![],
        vec![],
    );
    should_equal(
        JsonValue::parse(r##"{"#a/index.mjs": "./a/index.js"}"##).unwrap(),
        "#a/index",
        vec![],
        vec![],
    );
    should_equal(
        JsonValue::parse(r##"{"#a/index": {"browser": "./a/index.js", "default": "./b/index.js"}}"##).unwrap(),
        "#a/index.mjs",
        vec!["browser"],
        vec![],
    );
    should_equal(
        JsonValue::parse(r##"{"#a/index.mjs": {"browser": "./a/index.js", "default": "./b/index.js"}}"##).unwrap(),
        "#a/index",
        vec!["browser"],
        vec![],
    );
    should_equal(
        JsonValue::parse(r##"{"#a/../../utils/": "./dist/"}"##).unwrap(),
        "#a/../../utils/index",
        vec![],
        vec!["./dist/index"],
    );
    should_equal(
        JsonValue::parse(r##"{"#a/": "./dist/"}"##).unwrap(),
        "#a/../../utils/index",
        vec![],
        vec!["./dist/../../utils/index"],
    );
    should_equal(
        JsonValue::parse(r##"{"#a/": "../src/"}"##).unwrap(),
        "#a/index",
        vec![],
        vec!["../src/index"],
    );
    should_equal(
        JsonValue::parse(r##"{"#a/": {"browser": "./utils/../../../"}}"##).unwrap(),
        "#a/index",
        vec!["browser"],
        vec!["./utils/../../../index"],
    );
    should_equal(
        JsonValue::parse(r##"{"#a/": {"browser": "moment/node_modules/"}}"##).unwrap(),
        "#a/lodash/dist/index.js",
        vec!["browser"],
        vec!["moment/node_modules/lodash/dist/index.js"],
    );
    should_equal(
        JsonValue::parse(r##"{"#a/": "../node_modules/"}"##).unwrap(),
        "#a/lodash/dist/index.js",
        vec!["browser"],
        vec!["../node_modules/lodash/dist/index.js"],
    );
    should_equal(
        JsonValue::parse(r##"{"#a/": "../node_modules/"}"##).unwrap(),
        "#a/lodash/dist/index.js",
        vec![],
        vec!["../node_modules/lodash/dist/index.js"],
    );
    should_equal(
        JsonValue::parse(r##"{"#a/": {"browser": {"webpack": "./", "default": {"node": "./node/"}}}}"##).unwrap(),
        "#a/index.js",
        vec!["browser"],
        vec![],
    );
    should_equal(
        JsonValue::parse(r##"{"#a/": {"browser": {"webpack": ["./", "./node/"], "default": {"node": "./node/"}}}}"##).unwrap(),
        "#a/index.js",
        vec!["browser", "webpack"],
        vec!["./index.js", "./node/index.js"],
    );
    should_equal(
        JsonValue::parse(r##"{"#a/": {"browser": {"webpack": ["./", "./node/"], "default": {"node": "./node/"}}}}"##).unwrap(),
        "#a/index.js",
        vec!["webpack"],
        vec![],
    );
    should_equal(
        JsonValue::parse(r##"{"#a/": {"browser": {"webpack": ["./", "./node/"], "default": {"node": "moment/node/"}}}}"##).unwrap(),
        "#a/index.js",
        vec!["node", "browser"],
        vec!["moment/node/index.js"],
    );
    should_equal(
        JsonValue::parse(r##"{"#a/": {"browser": {"webpack": ["./", "./node/"], "default": {"node": {"webpack": ["./wpck"]}}}}}"##).unwrap(),
        "#a/index.js",
        vec!["browser", "node", "webpack"],
        vec!["./index.js", "./node/index.js"],
    );
    should_equal(
        JsonValue::parse(r##"{"#a": {"abc": {"def": "./x.js"}, "ghi": "./y.js"}}"##).unwrap(),
        "#a",
        vec!["abc", "ghi"],
        vec!["./y.js"],
    );
    should_equal(
        JsonValue::parse(r##"{"#a": {"abc": {"def": "./x.js", "default": []}, "ghi": "./y.js"}}"##).unwrap(),
        "#a",
        vec!["abc", "ghi"],
        vec![],
    );
    should_error(
        JsonValue::parse(r##"{"/utils/": "./a/"}"##).unwrap(),
        "#a/index.mjs",
        vec![],
        "Imports field key should start with #, but got /utils/",
    );
    should_error(
        JsonValue::parse(r##"{"/utils/": {"browser": "./a/", "default": "./b/"}}"##).unwrap(),
        "#a/index.mjs",
        vec![],
        "Imports field key should start with #, but got /utils/",
    );
    should_error(
        JsonValue::parse(r##"{"#a": {"default": "./src/index.js", "browser": "./index.js", "node": "./src/node/index.js"}}"##).unwrap(),
        "#a",
        vec!["browser"],
        "Default condition should be last one",
    );
    should_error(
        JsonValue::parse(r##"{"#timezones/": "./data/timezones"}"##).unwrap(),
        "#timezones/pdt.mjs",
        vec![],
        "Expected ./data/timezones is folder mapping",
    );
    should_error(
        JsonValue::parse(r##"{"#a/": "./a/"}"##).unwrap(),
        "/utils/index.mjs",
        vec![],
        "Request should start with #, but got /utils/index.mjs",
    );
    should_error(
        JsonValue::parse(r##"{"#a/": {"browser": "./a/", "default": "./b/"}}"##).unwrap(),
        "/utils/index.mjs",
        vec![],
        "Request should start with #, but got /utils/index.mjs",
    );
    should_error(
        JsonValue::parse(r##"{"#a/": {"browser": "./a/", "default": "./b/"}}"##).unwrap(),
        "#",
        vec!["browser"],
        "Request should have at least 2 characters",
    );
    should_error(
        JsonValue::parse(r##"{"#a/": {"browser": "./a/", "default": "./b/"}}"##).unwrap(),
        "#/",
        vec!["browser"],
        "Import field key should not start with #/, but got #/",
    );
    should_error(
        JsonValue::parse(r##"{"#a/": {"browser": "./a/", "default": "./b/"}}"##).unwrap(),
        "#a/",
        vec!["browser"],
        "Only requesting file allowed",
    );
}
