use json_comments::StripComments;
use regex::Regex;
use std::io::Read;
use vstd::prelude::*;

use crate::context::Context;
use crate::error::{cat, Error};
use crate::info::{Info, InfoView};
use crate::json::{JsonModel, json_model, lemma_member_models, lemma_model_find, lemma_obj_find_from, members_model,
    merge_members, model_find, obj_find, obj_index, parsed_json, spec_get, spec_merge, JsonValue};
use crate::parse::Request;
use crate::path::{is_absolute, lemma_parent, parent_path, spec_parent};
use crate::path::{join_path, lemma_join_absolute, spec_join};
use crate::resolver::{
    can_step, finished, first_started, none_started, same_context, step_done, unfinished_before_last, FileSystem,
    ResolveResult, Resolver, State, Step, MAX_DEPTH,
};
use crate::text::{chars_of, first_is, replace_char, replace_chars, seq_starts_with, str_eq, string_of};
use crate::tsconfig_path::{create_match_list, mapping_entries_of, match_star, spec_match_star, TsConfigInfo};

verus! {

/// What `json_comments` makes of a text: each comment (`/* */`, `//` or `#` to
/// the end of the line) turned into blanks.
pub uninterp spec fn comments_stripped(text: Seq<char>) -> Seq<char>;

/// Reads the text through `json_comments::StripComments`. The contract claims that
/// the result depends on the text alone; what the stripping does is named, not
/// stated.
#[verifier::external_body]
fn strip_comments(text: &str) -> (r: String)
    ensures
        r@ == comments_stripped(text@),
{
    let mut stripped = String::with_capacity(text.len());
    let _ = StripComments::new(text.as_bytes()).read_to_string(&mut stripped);
    stripped
}

/// A character that the regular expression class `\s` matches (Unicode
/// `White_Space`).
pub open spec fn is_regex_space(c: char) -> bool {
    let u = c as u32;
    (0x9 <= u <= 0xd) || u == 0x20 || u == 0x85 || u == 0xa0 || u == 0x1680 || (0x2000 <= u <= 0x200a)
        || u == 0x2028 || u == 0x2029 || u == 0x202f || u == 0x205f || u == 0x3000
}

/// The character at `i` is a comma that blanks and then `}` follow.
pub open spec fn trailing_comma_at(s: Seq<char>, i: int) -> bool {
    &&& s[i] == ','
    &&& exists|j: int|
        i < j < s.len() && s[j] == '}' && forall|k: int| i < k < j ==> is_regex_space(#[trigger] s[k])
}

/// The first `n` characters of `s` without their trailing commas.
pub open spec fn without_trailing_commas(s: Seq<char>, n: int) -> Seq<char>
    decreases n,
{
    if n <= 0 || n > s.len() {
        Seq::empty()
    } else {
        without_trailing_commas(s, n - 1) + if trailing_comma_at(s, n - 1) {
            Seq::empty()
        } else {
            seq![s[n - 1]]
        }
    }
}

/// Calls `regex::Regex::replace_all` with the pattern `,(?P<valid>\s*})` and the
/// replacement `$valid`. The contract claims what that replacement does: every
/// comma followed by blanks and `}` is taken out (the matches cannot overlap, as a
/// match holds no comma after its first character).
#[verifier::external_body]
fn remove_trailing_commas(text: &str) -> (r: String)
    ensures
        r@ == without_trailing_commas(text@, text@.len() as int),
{
    let re = Regex::new(r",(?P<valid>\s*})").unwrap();
    re.replace_all(text, "$valid").into_owned()
}

/// The JSON text of a tsconfig: comments and trailing commas taken out.
pub open spec fn spec_tsconfig_text(text: Seq<char>) -> Seq<char> {
    let stripped = comments_stripped(text);
    without_trailing_commas(stripped, stripped.len() as int)
}

/// The options of a tsconfig that the resolver reads.
#[derive(Debug)]
pub struct CompilerOptions {
    pub base_url: Option<String>,
    pub paths: Option<Vec<(String, Vec<String>)>>,
}

/// A tsconfig: the file it extends and its compiler options.
#[derive(Debug)]
pub struct TsConfig {
    /// The `extends` value as JSON text (a file name comes with its quotes).
    pub extends: Option<String>,
    pub compiler_options: Option<CompilerOptions>,
}

/// The message for a tsconfig value of the wrong type.
pub open spec fn msg_tsconfig_field(field: Seq<char>) -> Seq<char> {
    "tsconfig field "@ + field + " has an unexpected type"@
}

fn field_error(field: &str) -> (e: Error)
    ensures
        e matches Error::UnexpectedValue(m) && m@ == msg_tsconfig_field(field@),
{
    Error::UnexpectedValue(cat(&cat("tsconfig field ", field), " has an unexpected type"))
}

/// The value is the string `t`.
pub open spec fn string_is(v: JsonValue, t: Seq<char>) -> bool {
    v matches JsonValue::String(s) && s@ == t
}

/// The texts of an array whose items are all strings.
pub open spec fn all_strings(items: Seq<JsonValue>) -> bool {
    forall|i: int| 0 <= i < items.len() ==> #[trigger] items[i] is String
}

/// The texts of `paths` as the tsconfig holds them: each member an array of strings.
pub open spec fn paths_well_typed(m: Seq<(String, JsonValue)>) -> bool {
    forall|i: int|
        0 <= i < m.len() ==> (#[trigger] m[i]).1 is Array && all_strings(m[i].1->Array_0@)
}

/// `paths` read from an object whose members are arrays of strings, in order.
pub open spec fn paths_of(m: Seq<(String, JsonValue)>, r: Seq<(String, Vec<String>)>) -> bool {
    &&& r.len() == m.len()
    &&& forall|i: int|
        0 <= i < m.len() ==> {
            &&& (#[trigger] r[i]).0@ == m[i].0@
            &&& r[i].1@.len() == m[i].1->Array_0@.len()
            &&& forall|j: int|
                0 <= j < r[i].1@.len() ==> string_is(m[i].1->Array_0@[j], (#[trigger] r[i].1@[j])@)
        }
}

fn string_items(items: &Vec<JsonValue>) -> (r: Option<Vec<String>>)
    ensures
        r is Some <==> all_strings(items@),
        r matches Some(v) ==> v@.len() == items@.len() && forall|j: int|
            0 <= j < v@.len() ==> string_is(items@[j], (#[trigger] v@[j])@),
{
    let mut v: Vec<String> = Vec::new();
    let mut i: usize = 0;
    while i < items.len()
        invariant
            i <= items@.len(),
            v@.len() == i,
            forall|j: int| 0 <= j < i ==> #[trigger] items@[j] is String,
            forall|j: int| 0 <= j < i ==> string_is(items@[j], (#[trigger] v@[j])@),
        decreases items@.len() - i,
    {
        match &items[i] {
            JsonValue::String(s) => v.push(s.clone()),
            _ => {
                return None;
            },
        }
        i = i + 1;
    }
    Some(v)
}

fn read_paths(m: &Vec<(String, JsonValue)>) -> (r: Option<Vec<(String, Vec<String>)>>)
    ensures
        r is Some <==> paths_well_typed(m@),
        r matches Some(p) ==> paths_of(m@, p@),
{
    let mut out: Vec<(String, Vec<String>)> = Vec::new();
    let mut i: usize = 0;
    while i < m.len()
        invariant
            i <= m@.len(),
            out@.len() == i,
            forall|k: int| 0 <= k < i ==> (#[trigger] m@[k]).1 is Array && all_strings(m@[k].1->Array_0@),
            forall|k: int|
                0 <= k < i ==> {
                    &&& (#[trigger] out@[k]).0@ == m@[k].0@
                    &&& out@[k].1@.len() == m@[k].1->Array_0@.len()
                    &&& forall|j: int|
                        0 <= j < out@[k].1@.len() ==> string_is(m@[k].1->Array_0@[j], (#[trigger] out@[k].1@[j])@)
                },
        decreases m@.len() - i,
    {
        match &m[i].1 {
            JsonValue::Array(items) => match string_items(items) {
                Some(v) => out.push((m[i].0.clone(), v)),
                None => {
                    return None;
                },
            },
            _ => {
                return None;
            },
        }
        i = i + 1;
    }
    Some(out)
}

/// The compiler options a tsconfig holds, when `baseUrl` is a string and `paths`
/// an object of arrays of strings (each of them may be missing).
pub open spec fn options_well_typed(options: JsonValue) -> bool {
    &&& (spec_get(options, "baseUrl"@) matches Some(b) ==> b is String)
    &&& (spec_get(options, "paths"@) matches Some(p) ==> p is Object && paths_well_typed(p->Object_0@))
}

impl CompilerOptions {
    /// The compiler options read from their JSON object.
    pub fn from_value(options: &JsonValue) -> (r: Result<CompilerOptions, Error>)
        ensures
            r is Ok <==> options_well_typed(*options),
            r matches Err(e) ==> e is UnexpectedValue,
            r matches Ok(o) ==> match (o.base_url, spec_get(*options, "baseUrl"@)) {
                (Some(a), Some(JsonValue::String(b))) => a@ == b@,
                (None, None) => true,
                _ => false,
            },
            r matches Ok(o) ==> match (o.paths, spec_get(*options, "paths"@)) {
                (Some(a), Some(JsonValue::Object(m))) => paths_of(m@, a@),
                (None, None) => true,
                _ => false,
            },
    {
        let base_url = match options.get("baseUrl") {
            Some(JsonValue::String(s)) => Some(s.clone()),
            Some(_) => {
                return Err(field_error("baseUrl"));
            },
            None => None,
        };
        let paths = match options.get("paths") {
            Some(JsonValue::Object(m)) => match read_paths(m) {
                Some(p) => Some(p),
                None => {
                    return Err(field_error("paths"));
                },
            },
            Some(_) => {
                return Err(field_error("paths"));
            },
            None => None,
        };
        Ok(CompilerOptions { base_url, paths })
    }
}

impl TsConfig {
    /// The JSON of a tsconfig text: comments and trailing commas taken out, then
    /// parsed; text that is not JSON is an `UnexpectedJson` error about `location`.
    pub fn parse(content: &str, location: &str) -> (r: Result<JsonValue, Error>)
        ensures
            r is Ok <==> parsed_json(spec_tsconfig_text(content@)) is Some,
            r matches Ok(v) ==> parsed_json(spec_tsconfig_text(content@)) == Some(v),
            r matches Err(e) ==> (e matches Error::UnexpectedJson((p, _)) && p@ == location@),
    {
        let stripped = strip_comments(content);
        let text = remove_trailing_commas(stripped.as_str());
        match JsonValue::parse(text.as_str()) {
            Ok(json) => Ok(json),
            Err(message) => Err(Error::UnexpectedJson((location.to_owned(), message))),
        }
    }

    /// The tsconfig a JSON value describes.
    pub fn from_value(json: &JsonValue) -> (r: Result<TsConfig, Error>)
        ensures
            tsconfig_described(*json, r),
    {
        let compiler_options = match json.get("compilerOptions") {
            Some(options) => match CompilerOptions::from_value(options) {
                Ok(o) => Some(o),
                Err(e) => {
                    return Err(e);
                },
            },
            None => None,
        };
        let extends = match json.get("extends") {
            Some(v) => Some(crate::json::json_text(v)),
            None => None,
        };
        Ok(TsConfig { extends, compiler_options })
    }
}

/// Where a key is found among the members of an object is where it is found
/// among their models.
proof fn lemma_find_in_model(m: Seq<(String, JsonValue)>, key: Seq<char>)
    ensures
        obj_find(m, key) == model_find(members_model(m), key, 0),
{
    lemma_member_models(m, m.len() as int);
    lemma_obj_find_from(m, key, 0);
    lemma_model_find(members_model(m), key, 0);
    let mm = members_model(m);
    match (obj_find(m, key), model_find(mm, key, 0)) {
        (Some(a), Some(b)) => {
            assert(mm[a].0 == m[a].0@);
            assert(mm[b].0 == m[b].0@);
        },
        (Some(a), None) => {
            assert(mm[a].0 == m[a].0@);
        },
        (None, Some(b)) => {
            assert(mm[b].0 == m[b].0@);
        },
        (None, None) => {},
    }
}

proof fn lemma_merge_keeps_member(
    am: Seq<(Seq<char>, JsonModel)>,
    bm: Seq<(Seq<char>, JsonModel)>,
    n: int,
    i: int,
)
    requires
        0 <= i < am.len(),
        !(am[i].1 is Null),
        !(am[i].1 is Object),
        0 <= n <= bm.len(),
    ensures
        merge_members(am, bm, n).len() >= am.len(),
        forall|j: int| 0 <= j < am.len() ==> (#[trigger] merge_members(am, bm, n)[j]).0 == am[j].0,
        merge_members(am, bm, n)[i] == am[i],
    decreases n,
{
    if n > 0 {
        lemma_merge_keeps_member(am, bm, n - 1, i);
        let prev = merge_members(am, bm, n - 1);
        lemma_model_find(prev, bm[n - 1].0, 0);
        assert(prev[i] == am[i]);
        assert(spec_merge(prev[i].1, bm[n - 1].1) == prev[i].1);
        match model_find(prev, bm[n - 1].0, 0) {
            Some(k) => {
                assert(merge_members(am, bm, n) == prev.update(k, (prev[k].0, spec_merge(prev[k].1, bm[n - 1].1))));
            },
            None => {
                assert(merge_members(am, bm, n) == prev.push(bm[n - 1]));
            },
        }
        assert forall|j: int| 0 <= j < am.len() implies (#[trigger] merge_members(am, bm, n)[j]).0 == am[j].0 by {
            assert(prev[j].0 == am[j].0);
        }
    }
}

/// A tsconfig's own settings win over those of the file it extends: merging `b`
/// into an object `a` keeps each member of `a` whose value is neither null nor an
/// object, in its place, and keeps the keys of `a` first, in their order.
pub proof fn law_merge_keeps_own_values(
    am: Seq<(Seq<char>, JsonModel)>,
    bm: Seq<(Seq<char>, JsonModel)>,
    i: int,
)
    requires
        0 <= i < am.len(),
        !(am[i].1 is Null),
        !(am[i].1 is Object),
    ensures
        spec_merge(JsonModel::Object(am), JsonModel::Object(bm)) matches JsonModel::Object(r) && r.len()
            >= am.len() && r[i] == am[i] && forall|j: int| 0 <= j < am.len() ==> r[j].0 == am[j].0,
{
    lemma_merge_keeps_member(am, bm, bm.len() as int, i);
}

/// What a tsconfig extends fills in only what it lacks: merging into null gives
/// the other value, and a value that is neither null nor an object stays.
pub proof fn law_merge_fills_only_null(a: JsonModel, b: JsonModel)
    requires
        !(a is Object && b is Object),
    ensures
        spec_merge(a, b) == (if a is Null {
            b
        } else {
            a
        }),
{
}

/// Merges `b` into `a` (`merge`): two objects merge member by member, a member of
/// `b` missing from `a` being added at the end; otherwise `b` replaces a null `a`.
pub fn merge(a: &mut JsonValue, b: JsonValue)
    ensures
        json_model(*final(a)) == spec_merge(json_model(*old(a)), json_model(b)),
    decreases b,
{
    let ghost b0 = b;
    match b {
        JsonValue::Object(bm) => {
            if !a.is_object() {
                let is_null = match a {
                    JsonValue::Null => true,
                    _ => false,
                };
                if is_null {
                    *a = JsonValue::Object(bm);
                }
                return;
            }
            let mut taken = JsonValue::Null;
            std::mem::swap(a, &mut taken);
            let mut am = match taken {
                JsonValue::Object(m) => m,
                _ => vstd::pervasive::unreached(),
            };
            let ghost am0 = am@;
            let ghost bvec = bm;
            let ghost bm0 = bm@;
            proof {
                vstd::std_specs::vec::axiom_vec_decreases_to_view(bvec);
                lemma_member_models(bm0, bm0.len() as int);
            }
            let mut rest = bm;
            let ghost mut i: int = 0;
            #[verifier::loop_isolation(false)]
            while rest.len() > 0
                invariant
                    0 <= i <= bm0.len(),
                    rest@ == bm0.subrange(i, bm0.len() as int),
                    members_model(am@) == merge_members(members_model(am0), members_model(bm0), i),
                    bm0 == bvec@,
                    b0 == JsonValue::Object(bvec),
                    decreases_to!(bvec => bm0),
                    members_model(bm0).len() == bm0.len(),
                    forall|j: int| 0 <= j < bm0.len() ==> #[trigger] members_model(bm0)[j] == (bm0[j].0@, json_model(bm0[j].1)),
                decreases rest@.len(),
            {
                let (k, v) = rest.remove(0);
                assert(bm0[i] == (k, v));
                let ghost prev = members_model(am@);
                proof {
                    lemma_find_in_model(am@, k@);
                    lemma_member_models(am@, am@.len() as int);
                    assert(b0->Object_0 == bvec);
                    assert(decreases_to!(b0 => b0->Object_0));
                    assert(decreases_to!(bvec@ => bvec@[i]));
                    assert(decreases_to!(bvec@[i] => bvec@[i].1));
                    assert(decreases_to!(b0 => bm0[i].1));
                }
                match obj_index(&am, k.as_str()) {
                    Some(idx) => {
                        proof {
                            lemma_obj_find_from(am@, k@, 0);
                        }
                        let ghost before = am@;
                        let (key, mut val) = am.remove(idx);
                        merge(&mut val, v);
                        am.insert(idx, (key, val));
                        proof {
                            assert(am@ =~= before.update(idx as int, (key, val)));
                            lemma_member_models(am@, am@.len() as int);
                            assert(members_model(am@) =~= prev.update(
                                idx as int,
                                (prev[idx as int].0, spec_merge(prev[idx as int].1, json_model(bm0[i].1))),
                            ));
                        }
                    },
                    None => {
                        let ghost before = am@;
                        am.push((k, v));
                        proof {
                            lemma_member_models(am@, am@.len() as int);
                            assert(members_model(am@) =~= prev.push(members_model(bm0)[i]));
                        }
                    },
                }
                proof {
                    i = i + 1;
                    assert(rest@ =~= bm0.subrange(i, bm0.len() as int));
                }
            }
            *a = JsonValue::Object(am);
        },
        other => {
            let is_null = match a {
                JsonValue::Null => true,
                _ => false,
            };
            if is_null {
                *a = other;
            }
        },
    }
}

proof fn lemma_replace_keeps_first(s: Seq<char>, c: char, with: Seq<char>)
    requires
        s.len() > 0,
        s[0] != c,
    ensures
        replace_char(s, c, with).len() > 0,
        replace_char(s, c, with)[0] == s[0],
    decreases s.len(),
{
    let head = replace_char(s.drop_last(), c, with);
    let tail = if s.last() == c {
        with
    } else {
        seq![s.last()]
    };
    assert(replace_char(s, c, with) == head + tail);
    if s.len() > 1 {
        lemma_replace_keeps_first(s.drop_last(), c, with);
        assert((head + tail)[0] == head[0]);
    } else {
        assert(head.len() == 0);
        assert(s.last() == s[0]);
        assert((head + tail)[0] == tail[0]);
    }
}

/// The JSON of the tsconfig at `location`, given what reading it gave: a read
/// error means there is no tsconfig there; text is parsed as [`TsConfig::parse`]
/// does.
pub fn tsconfig_json(content: Result<String, std::io::Error>, location: &str) -> (r: Result<JsonValue, Error>)
    ensures
        content is Err ==> (r matches Err(Error::CantFindTsConfig(l)) && l@ == location@),
        content matches Ok(t) ==> (r is Ok <==> parsed_json(spec_tsconfig_text(t@)) is Some),
        content matches Ok(t) ==> (r matches Ok(v) ==> parsed_json(spec_tsconfig_text(t@)) == Some(v)),
        content is Ok ==> (r matches Err(e) ==> (e matches Error::UnexpectedJson((p, _)) && p@ == location@)),
{
    match content {
        Ok(text) => TsConfig::parse(text.as_str(), location),
        Err(_) => Err(Error::CantFindTsConfig(location.to_owned())),
    }
}

/// The `baseUrl` and `paths` of a tsconfig: those of its compiler options, none
/// without them.
pub fn tsconfig_info(tsconfig: TsConfig) -> (r: TsConfigInfo)
    ensures
        match tsconfig.compiler_options {
            Some(o) => r.paths == o.paths && r.base_url == o.base_url,
            None => r.paths is None && r.base_url is None,
        },
{
    match tsconfig.compiler_options {
        Some(options) => TsConfigInfo { paths: options.paths, base_url: options.base_url },
        None => TsConfigInfo { paths: None, base_url: None },
    }
}

/// The request a tsconfig extends, when its `extends` is a string.
pub fn extends_of(json: &JsonValue) -> (r: Option<String>)
    ensures
        match (r, spec_get(*json, "extends"@)) {
            (Some(a), Some(JsonValue::String(b))) => a@ == b@,
            (None, Some(JsonValue::String(_))) => false,
            (Some(_), _) => false,
            _ => true,
        },
{
    match json.get("extends") {
        Some(JsonValue::String(s)) => Some(s.clone()),
        _ => None,
    }
}

impl<F: FileSystem> Resolver<F> {
    /// The JSON of the tsconfig at `location`, with the tsconfig it extends (a
    /// request resolved from its directory) merged under it. Extending nests at
    /// most [`MAX_DEPTH`] files deep.
    pub fn parse_file_to_value(&self, location: &str, nesting: u16, context: &mut Context) -> (r: Result<
        JsonValue,
        Error,
    >)
        requires
            is_absolute(location@),
            nesting < MAX_DEPTH,
        ensures
            r matches Err(e) ==> (e is CantFindTsConfig || e is UnexpectedJson || e is UnexpectedValue
                || e is Overflow),
            only_texts_read(*old(context), *final(context)),
            tsconfig_text_read(
                r,
                location@,
                *old(context),
                *final(context),
                |v: JsonValue, x: Result<JsonValue, Error>| x == Ok::<JsonValue, Error>(v),
            ),
        decreases MAX_DEPTH - nesting,
    {
        let content = self.fs.read_to_string(location);
        proof {
            context.texts@ = context.texts@.push((location@, text_read(content)));
        }
        let mut json = match tsconfig_json(content, location) {
            Ok(json) => json,
            Err(e) => {
                return Err(e);
            },
        };
        let extends = match extends_of(&json) {
            Some(extends) => extends,
            None => {
                return Ok(json);
            },
        };
        proof {
            lemma_parent(location@);
        }
        let dir = match parent_path(location) {
            Some(dir) => dir,
            None => {
                return Ok(json);
            },
        };
        let mut nested = Context::new(self.options.fully_specified, self.options.resolve_to_context);
        let info = Info::new(dir.as_str(), Request::from_request(extends.as_str()));
        match self._resolve(info, &mut nested) {
            State::Success(ResolveResult::Resource(found)) => {
                if nesting + 1 >= MAX_DEPTH {
                    return Err(Error::Overflow);
                }
                let base = match self.parse_file_to_value(found.normalized_path().as_str(), nesting + 1, context) {
                    Ok(base) => base,
                    Err(e) => {
                        return Err(e);
                    },
                };
                merge(&mut json, base);
                Ok(json)
            },
            State::Success(ResolveResult::Ignored) => {
                Err(Error::UnexpectedValue(cat(&cat(extends.as_str(), " had been ignored in "), location)))
            },
            _ => Ok(json),
        }
    }

    /// The `baseUrl` and `paths` of the tsconfig at `location`.
    pub fn parse_tsconfig(&self, location: &str, context: &mut Context) -> (r: Result<TsConfigInfo, Error>)
        requires
            is_absolute(location@),
        ensures
            r matches Err(e) ==> (e is CantFindTsConfig || e is UnexpectedJson || e is UnexpectedValue
                || e is Overflow),
            only_texts_read(*old(context), *final(context)),
            tsconfig_text_read(
                r,
                location@,
                *old(context),
                *final(context),
                |v: JsonValue, x: Result<TsConfigInfo, Error>| settings_of(v, x),
            ),
    {
        let tsconfig = match TsConfig::parse_file_in(location, self, context) {
            Ok(tsconfig) => tsconfig,
            Err(e) => {
                return Err(e);
            },
        };
        Ok(tsconfig_info(tsconfig))
    }

    /// Resolves through the tsconfig at `location`: a request not starting with
    /// `.` is first tried under `baseUrl`, then each `paths` entry that matches it
    /// (exactly, or through its `*`) sends it to each of its paths with the `*`
    /// filled in; then it is resolved as it is.
    pub fn _resolve_with_tsconfig(&self, info: Info, location: &str, context: &mut Context) -> (r: State)
        requires
            can_step(*old(context), info@),
            is_absolute(location@),
        ensures
            step_done(*old(context), *final(context), r),
            none_started(*old(context), *final(context)) ==> r is Error,
            final(context).settings@ matches Some(p) && match p {
                Err(e) => r == State::Error(e) && none_started(*old(context), *final(context))
                    && final(context).runs@.len() == 0,
                Ok(t) => tsconfig_applied(info, location@, t, r, *old(context), *final(context)),
            },
            old(context).texts@.len() < final(context).texts@.len(),
            tsconfig_text_read(
                final(context).settings@->Some_0,
                location@,
                *old(context),
                *final(context),
                |v: JsonValue, x: Result<TsConfigInfo, Error>| settings_of(v, x),
            ),
    {
        let parsed = self.parse_tsconfig(location, context);
        let ghost read = parsed;
        let r = match parsed {
            Ok(tsconfig) => self.tsconfig_apply(info, location, &tsconfig, context),
            Err(e) => {
                proof {
                    context.runs@ = Seq::empty();
                }
                State::Error(e)
            },
        };
        proof {
            context.settings@ = Some(read);
        }
        r
    }

    /// Resolves through the `baseUrl` and `paths` of the tsconfig at `location`:
    /// a request not starting with `.` is first tried under `baseUrl`, then each
    /// `paths` entry that matches it sends it to each of its paths; then it is
    /// resolved as it is. A tsconfig with neither resolves the request as it is.
    pub fn tsconfig_apply(&self, info: Info, location: &str, tsconfig: &TsConfigInfo, context: &mut Context) -> (r:
        State)
        requires
            can_step(*old(context), info@),
            is_absolute(location@),
        ensures
            step_done(*old(context), *final(context), r),
            tsconfig_applied(info, location@, *tsconfig, r, *old(context), *final(context)),
    {
        proof {
            lemma_parent(location@);
        }
        let location_dir = match parent_path(location) {
            Some(dir) => dir,
            None => {
                return State::Error(Error::CantFindTsConfig(String::from_str(location)));
            },
        };
        let ghost location_dir_view = location_dir@;
        let absolute_base_url = match &tsconfig.base_url {
            Some(base_url) => join_path(location_dir.as_str(), base_url.as_str()),
            None => location_dir,
        };
        proof {
            if tsconfig.base_url is Some {
                lemma_join_absolute(location_dir@, tsconfig.base_url->Some_0@);
            }
        }
        let target = chars_of(info.request().target());
        let ghost mut handed: Option<InfoView> = None;
        let ghost mut mine: Seq<(Step, InfoView, State)> = Seq::empty();
        let ghost tries = tsconfig_tries(location_dir_view, *tsconfig, info@);
        let ghost hb: int = if tsconfig.base_url is Some && !seq_starts_with(info@.request.target, seq!['.']) {
            1
        } else {
            0
        };
        let ghost mapped = paths_mapped(absolute_base_url@, *tsconfig, info@);
        let ghost head: Seq<InfoView> = if hb == 1 {
            seq![
                InfoView {
                    path: crate::path::spec_normalized(spec_join(absolute_base_url@, info@.request.target)),
                    request: crate::parse::request_of(Seq::empty(), info@.request.query, info@.request.fragment),
                },
            ]
        } else {
            Seq::empty()
        };
        proof {
            assert(tries =~= head + mapped + seq![info@]);
        }
        if tsconfig.base_url.is_some() && !first_is(&target, '.') {
            let path = join_path(absolute_base_url.as_str(), info.request().target());
            proof {
                lemma_join_absolute(absolute_base_url@, info@.request.target);
                reveal_strlit("");
                assert(""@ =~= Seq::<char>::empty());
            }
            let next = info.duplicate().with_path(path.as_str()).with_target("");
            proof {
                handed = Some(next@);
            }
            let ghost h = next@;
            let ghost flag = context.fully_specified@;
            let result = self._resolve(next, context);
            proof {
                mine = mine.push((Step::Resolve(flag), h, result));
            }
            if result.is_finished() {
                proof {
                    context.runs@ = mine;
                }
                return result;
            }
        }
        let mappings = create_match_list(absolute_base_url.as_str(), &tsconfig.paths);
        let mut i: usize = 0;
        while i < mappings.len()
            invariant
                i <= mappings@.len(),
                same_context(*old(context), *context),
                can_step(*context, info@),
                is_absolute(absolute_base_url@),
                match tsconfig.paths {
                    Some(p) => mapping_entries_of(absolute_base_url@, p@, mappings@),
                    None => mappings@.len() == 0,
                },
                handed matches Some(h) ==> first_started(*old(context), *context, h),
                handed is None && tsconfig.paths is None ==> none_started(*old(context), *context),
                spec_parent(location@) == Some(location_dir_view),
                forall|k: int| 0 <= k < mine.len() ==> (#[trigger] mine[k]).0 is Resolve && !finished(mine[k].2),
                handed is None && tsconfig.paths is None ==> mine.len() == 0,
                handed matches Some(h) ==> mine.len() > 0 && mine[0].1 == h,
                tries == tsconfig_tries(location_dir_view, *tsconfig, info@),
                tries == head + mapped + seq![info@],
                head.len() == hb,
                mapped == paths_mapped(absolute_base_url@, *tsconfig, info@),
                hb <= mine.len() <= hb + mapped.len(),
                forall|k: int| 0 <= k < mine.len() ==> (#[trigger] mine[k]).1 == tries[k],
                tsconfig.paths matches Some(p) ==> paths_tries(absolute_base_url@, p@, info@, i as int) =~= mapped.subrange(
                    mine.len() - hb,
                    mapped.len() as int,
                ),
                tsconfig.paths is None ==> mine.len() == hb,
                tsconfig.base_url matches Some(base) ==> (!seq_starts_with(info@.request.target, seq!['.'])
                    ==> handed == Some(
                    InfoView {
                        path: crate::path::spec_normalized(
                            spec_join(spec_join(location_dir_view, base@), info@.request.target),
                        ),
                        request: crate::parse::request_of(Seq::empty(), info@.request.query, info@.request.fragment),
                    },
                )),
            decreases mappings@.len() - i,
        {
            let entry = &mappings[i];
            let star_match = if str_eq(entry.pattern.as_str(), info.request().target()) {
                String::new()
            } else {
                match match_star(entry.pattern.as_str(), info.request().target()) {
                    Some(s) => s,
                    None => {
                        proof {
                            let p = tsconfig.paths->Some_0@;
                            assert(entry.pattern@ == p[i as int].0@);
                            assert(entry_tries(absolute_base_url@, p[i as int], info@) =~= Seq::<InfoView>::empty());
                            assert(paths_tries(absolute_base_url@, p, info@, i as int) =~= paths_tries(
                                absolute_base_url@,
                                p,
                                info@,
                                i + 1,
                            ));
                        }
                        i = i + 1;
                        continue;
                    },
                }
            };
            let star_chars = chars_of(star_match.as_str());
            proof {
                let p = tsconfig.paths->Some_0@;
                assert(entry.pattern@ == p[i as int].0@);
                assert(entry.paths@.len() == p[i as int].1@.len());
                let e = entry_tries(absolute_base_url@, p[i as int], info@);
                assert(e.subrange(0, entry.paths@.len() as int) =~= e);
                assert(paths_tries(absolute_base_url@, p, info@, i as int) == e + paths_tries(
                    absolute_base_url@,
                    p,
                    info@,
                    i + 1,
                ));
            }
            let mut j: usize = 0;
            while j < entry.paths.len()
                invariant
                    j <= entry.paths@.len(),
                    same_context(*old(context), *context),
                    can_step(*context, info@),
                    i < mappings@.len(),
                    *entry == mappings@[i as int],
                    forall|k: int| 0 <= k < entry.paths@.len() ==> is_absolute(#[trigger] entry.paths@[k]@),
                    handed matches Some(h) ==> first_started(*old(context), *context, h),
                    tsconfig.paths is Some,
                    forall|k: int| 0 <= k < mine.len() ==> (#[trigger] mine[k]).0 is Resolve && !finished(mine[k].2),
                    handed matches Some(h) ==> mine.len() > 0 && mine[0].1 == h,
                    spec_parent(location@) == Some(location_dir_view),
                    tries == head + mapped + seq![info@],
                    head.len() == hb,
                    tries == tsconfig_tries(location_dir_view, *tsconfig, info@),
                    mapped == paths_tries(absolute_base_url@, tsconfig.paths->Some_0@, info@, 0),
                    hb <= mine.len() <= hb + mapped.len(),
                    forall|k: int| 0 <= k < mine.len() ==> (#[trigger] mine[k]).1 == tries[k],
                    mapping_entries_of(absolute_base_url@, tsconfig.paths->Some_0@, mappings@),
                    entry_star(entry.pattern@, info@.request.target) == Some(star_chars@),
                    entry_tries(absolute_base_url@, tsconfig.paths->Some_0@[i as int], info@).subrange(
                        j as int,
                        entry.paths@.len() as int,
                    ) + paths_tries(absolute_base_url@, tsconfig.paths->Some_0@, info@, i + 1) =~= mapped.subrange(
                        mine.len() - hb,
                        mapped.len() as int,
                    ),
                    tsconfig.base_url matches Some(base) ==> (!seq_starts_with(info@.request.target, seq!['.'])
                        ==> handed == Some(
                        InfoView {
                            path: crate::path::spec_normalized(
                                spec_join(spec_join(location_dir_view, base@), info@.request.target),
                            ),
                            request: crate::parse::request_of(Seq::empty(), info@.request.query, info@.request.fragment),
                        },
                    )),
                decreases entry.paths@.len() - j,
            {
                let physical = chars_of(entry.paths[j].as_str());
                proof {
                    assert(is_absolute(entry.paths@[j as int]@));
                    lemma_replace_keeps_first(physical@, '*', star_chars@);
                }
                let path = string_of(&replace_chars(&physical, '*', &star_chars));
                let next = info.duplicate().with_path(path.as_str()).with_target("");
                let ghost h = next@;
                proof {
                    reveal_strlit("");
                    assert(""@ =~= Seq::<char>::empty());
                    let p = tsconfig.paths->Some_0@;
                    let e = entry_tries(absolute_base_url@, p[i as int], info@);
                    assert(entry.paths@[j as int]@ == spec_join(absolute_base_url@, p[i as int].1@[j as int]@));
                    assert(e[j as int] == h);
                    let rest = e.subrange(j as int, entry.paths@.len() as int) + paths_tries(
                        absolute_base_url@,
                        p,
                        info@,
                        i + 1,
                    );
                    assert(rest[0] == h);
                    let sub = mapped.subrange(mine.len() - hb, mapped.len() as int);
                    assert(rest =~= sub);
                    assert(sub.len() > 0);
                    assert(sub[0] == mapped[mine.len() - hb]);
                    assert(mapped[mine.len() - hb] == h);
                    assert((head + mapped)[mine.len() as int] == mapped[mine.len() - hb]);
                    assert((head + mapped + seq![info@])[mine.len() as int] == (head + mapped)[mine.len() as int]);
                    assert(tries[mine.len() as int] == h);
                    assert(e.subrange(j + 1, entry.paths@.len() as int) + paths_tries(absolute_base_url@, p, info@, i + 1)
                        =~= rest.subrange(1, rest.len() as int));
                }
                let ghost flag = context.fully_specified@;
                let result = self._resolve(next, context);
                proof {
                    mine = mine.push((Step::Resolve(flag), h, result));
                }
                if result.is_finished() {
                    proof {
                        context.runs@ = mine;
                    }
                    return result;
                }
                j = j + 1;
            }
            i = i + 1;
        }
        let ghost last = info@;
        proof {
            if tsconfig.paths is Some {
                assert(paths_tries(absolute_base_url@, tsconfig.paths->Some_0@, info@, i as int) =~= Seq::<
                    InfoView,
                >::empty());
            }
            assert(mine.len() == hb + mapped.len());
            assert(tries[mine.len() as int] == info@);
        }
        let ghost flag = context.fully_specified@;
        let result = self._resolve(info, context);
        proof {
            mine = mine.push((Step::Resolve(flag), last, result));
            context.runs@ = mine;
            if tsconfig.base_url is None && tsconfig.paths is None {
                assert(context.runs@ =~= seq![(Step::Resolve(flag), info@, result)]);
            }
        }
        result
    }
}

/// What a step that reads no tsconfig leaves of a context: all but the records
/// of tsconfig texts and of the last settings.
pub open spec fn only_texts_read(before: Context, after: Context) -> bool {
    &&& after.depth == before.depth
    &&& after.fully_specified == before.fully_specified
    &&& after.resolve_to_context == before.resolve_to_context
    &&& after.started == before.started
    &&& after.probes == before.probes
    &&& after.links == before.links
    &&& after.descriptions == before.descriptions
    &&& after.runs == before.runs
    &&& before.texts@.len() < after.texts@.len()
    &&& forall|k: int| 0 <= k < before.texts@.len() ==> #[trigger] after.texts@[k] == before.texts@[k]
}

/// What reading the tsconfig at `location` gives, by the text recorded for it
/// first: no text is a missing tsconfig, a text that is not JSON (once comments
/// and trailing commas are gone) is a JSON error, and a tsconfig that extends no
/// other is its JSON, passed to `described`.
pub open spec fn tsconfig_text_read<T>(
    r: Result<T, Error>,
    location: Seq<char>,
    before: Context,
    after: Context,
    described: spec_fn(JsonValue, Result<T, Error>) -> bool,
) -> bool {
    let b = before.texts@.len() as int;
    &&& after.texts@[b].0 == location
    &&& match after.texts@[b].1 {
        None => r matches Err(Error::CantFindTsConfig(l)) && l@ == location,
        Some(t) => match parsed_json(spec_tsconfig_text(t)) {
            None => r matches Err(Error::UnexpectedJson((p, _))) && p@ == location,
            Some(v) => !(spec_get(v, "extends"@) matches Some(JsonValue::String(_))) ==> described(v, r),
        },
    }
}

/// The tsconfig a JSON value describes: its `extends` value as JSON text, and
/// its compiler options (with their `baseUrl` and `paths`) when they have the
/// right types.
pub open spec fn tsconfig_described(json: JsonValue, r: Result<TsConfig, Error>) -> bool {
    &&& r is Ok <==> (spec_get(json, "compilerOptions"@) matches Some(o) ==> options_well_typed(o))
    &&& r matches Err(e) ==> e is UnexpectedValue
    &&& r matches Ok(t) ==> match (t.extends, spec_get(json, "extends"@)) {
        (Some(a), Some(v)) => a@ == crate::json::printed_json(crate::json::json_model(v)),
        (None, None) => true,
        _ => false,
    }
    &&& r matches Ok(t) ==> match (t.compiler_options, spec_get(json, "compilerOptions"@)) {
        (Some(c), Some(o)) => {
            &&& match (c.base_url, spec_get(o, "baseUrl"@)) {
                (Some(a), Some(JsonValue::String(b))) => a@ == b@,
                (None, None) => true,
                _ => false,
            }
            &&& match (c.paths, spec_get(o, "paths"@)) {
                (Some(a), Some(JsonValue::Object(m))) => paths_of(m@, a@),
                (None, None) => true,
                _ => false,
            }
        },
        (None, None) => true,
        _ => false,
    }
}

/// The text a read gave, if it gave one.
pub open spec fn text_read(content: Result<String, std::io::Error>) -> Option<Seq<char>> {
    match content {
        Ok(t) => Some(t@),
        Err(_) => None,
    }
}

/// The `baseUrl` and `paths` a tsconfig's JSON gives: those of its compiler
/// options, as texts and as lists of texts, when they have the right types;
/// none without compiler options.
pub open spec fn settings_of(v: JsonValue, r: Result<TsConfigInfo, Error>) -> bool {
    &&& r is Ok <==> (spec_get(v, "compilerOptions"@) matches Some(o) ==> options_well_typed(o))
    &&& r matches Err(e) ==> e is UnexpectedValue
    &&& r matches Ok(i) ==> match spec_get(v, "compilerOptions"@) {
        Some(o) => {
            &&& match (i.base_url, spec_get(o, "baseUrl"@)) {
                (Some(a), Some(JsonValue::String(b))) => a@ == b@,
                (None, None) => true,
                _ => false,
            }
            &&& match (i.paths, spec_get(o, "paths"@)) {
                (Some(a), Some(JsonValue::Object(m))) => paths_of(m@, a@),
                (None, None) => true,
                _ => false,
            }
        },
        None => i.base_url is None && i.paths is None,
    }
}

/// What a `paths` pattern matches a target with: nothing for the pattern itself,
/// what its `*` stands for otherwise.
pub open spec fn entry_star(pattern: Seq<char>, target: Seq<char>) -> Option<Seq<char>> {
    if pattern == target {
        Some(Seq::empty())
    } else {
        spec_match_star(pattern, target)
    }
}

/// The nested resolutions one `paths` entry gives when its pattern matches the
/// request: each of its paths, joined onto the base URL, with the `*` filled in.
pub open spec fn entry_tries(base: Seq<char>, entry: (String, Vec<String>), info: InfoView) -> Seq<InfoView> {
    match entry_star(entry.0@, info.request.target) {
        Some(star) => Seq::new(
            entry.1@.len(),
            |k: int|
                InfoView {
                    path: crate::path::spec_normalized(replace_char(spec_join(base, entry.1@[k]@), '*', star)),
                    request: crate::parse::request_of(Seq::empty(), info.request.query, info.request.fragment),
                },
        ),
        None => Seq::empty(),
    }
}

/// The nested resolutions the `paths` entries give, from entry `i` on, in order.
pub open spec fn paths_tries(base: Seq<char>, paths: Seq<(String, Vec<String>)>, info: InfoView, i: int) -> Seq<InfoView>
    decreases paths.len() - i,
{
    if i < 0 || i >= paths.len() {
        Seq::empty()
    } else {
        entry_tries(base, paths[i], info) + paths_tries(base, paths, info, i + 1)
    }
}

/// The nested resolutions a tsconfig gives, in order: the request under
/// `baseUrl` (for a request not starting with `.`), then those of `paths`, then
/// the request as it is.
pub open spec fn tsconfig_tries(dir: Seq<char>, tsconfig: TsConfigInfo, info: InfoView) -> Seq<InfoView> {
    let base = match tsconfig.base_url {
        Some(b) => spec_join(dir, b@),
        None => dir,
    };
    let head = if tsconfig.base_url is Some && !seq_starts_with(info.request.target, seq!['.']) {
        seq![
            InfoView {
                path: crate::path::spec_normalized(spec_join(base, info.request.target)),
                request: crate::parse::request_of(Seq::empty(), info.request.query, info.request.fragment),
            },
        ]
    } else {
        Seq::empty()
    };
    head + paths_mapped(base, tsconfig, info) + seq![info]
}

/// A request starting with `.` is never resolved under `baseUrl`: the tries of
/// a tsconfig for it are those of its `paths`, then the request as it is.
pub proof fn law_dot_request_not_under_base_url(dir: Seq<char>, tsconfig: TsConfigInfo, info: InfoView)
    requires
        info.request.target.len() > 0,
        info.request.target[0] == '.',
    ensures
        tsconfig_tries(dir, tsconfig, info) == paths_mapped(
            match tsconfig.base_url {
                Some(b) => spec_join(dir, b@),
                None => dir,
            },
            tsconfig,
            info,
        ) + seq![info],
{
    assert(seq_starts_with(info.request.target, seq!['.'])) by {
        assert(info.request.target.subrange(0, 1) =~= seq!['.']);
    }
}

/// For a request starting with `.` and a tsconfig without `paths`, the only
/// try is the request itself from its own directory, whatever the `baseUrl`.
pub proof fn law_dot_request_without_paths(dir: Seq<char>, tsconfig: TsConfigInfo, info: InfoView)
    requires
        info.request.target.len() > 0,
        info.request.target[0] == '.',
        tsconfig.paths is None,
    ensures
        tsconfig_tries(dir, tsconfig, info) == seq![info],
{
    law_dot_request_not_under_base_url(dir, tsconfig, info);
    assert(Seq::<InfoView>::empty() + seq![info] =~= seq![info]);
}

/// A request not starting with `.` is first tried under `baseUrl`, when there is
/// one: the file it names below the `baseUrl` directory.
pub proof fn law_bare_request_first_under_base_url(dir: Seq<char>, tsconfig: TsConfigInfo, info: InfoView)
    requires
        tsconfig.base_url is Some,
        info.request.target.len() == 0 || info.request.target[0] != '.',
    ensures
        tsconfig_tries(dir, tsconfig, info)[0] == (InfoView {
            path: crate::path::spec_normalized(spec_join(spec_join(dir, tsconfig.base_url->Some_0@), info.request.target)),
            request: crate::parse::request_of(Seq::empty(), info.request.query, info.request.fragment),
        }),
{
    if info.request.target.len() > 0 {
        assert(!seq_starts_with(info.request.target, seq!['.'])) by {
            if seq_starts_with(info.request.target, seq!['.']) {
                assert(info.request.target.subrange(0, 1)[0] == '.');
            }
        }
    }
}

/// The nested resolutions the `paths` of a tsconfig give, in order.
pub open spec fn paths_mapped(base: Seq<char>, tsconfig: TsConfigInfo, info: InfoView) -> Seq<InfoView> {
    match tsconfig.paths {
        Some(p) => paths_tries(base, p@, info, 0),
        None => Seq::empty(),
    }
}

/// What resolving through the `baseUrl` and `paths` of the tsconfig at `location`
/// gives: a location with no directory cannot be a tsconfig; otherwise nested
/// resolutions are run, each but the last unfinished, and the result is the last
/// one's state, which is the resolution of the request as it is unless an
/// earlier one finished. A request not starting with `.` is first tried under
/// `baseUrl`; a tsconfig with neither `baseUrl` nor `paths` resolves only the
/// request as it is.
pub open spec fn tsconfig_applied(
    info: Info,
    location: Seq<char>,
    tsconfig: TsConfigInfo,
    r: State,
    before: Context,
    after: Context,
) -> bool {
    let runs = after.runs@;
    &&& none_started(before, after) ==> r is Error
    &&& spec_parent(location) is None ==> (r matches State::Error(Error::CantFindTsConfig(p)) && p@ == location)
    &&& spec_parent(location) matches Some(dir) ==> {
        let tries = tsconfig_tries(dir, tsconfig, info@);
        &&& runs.len() <= tries.len()
        &&& forall|k: int| 0 <= k < runs.len() ==> (#[trigger] runs[k]).1 == tries[k]
        &&& !finished(runs.last().2) ==> runs.len() == tries.len()
    }
    &&& spec_parent(location) is Some ==> {
        &&& runs.len() > 0 && unfinished_before_last(runs) && r == runs.last().2
        &&& forall|k: int| 0 <= k < runs.len() ==> (#[trigger] runs[k]).0 is Resolve
        &&& !finished(runs.last().2) ==> runs.last().1 == info@
        &&& tsconfig.base_url is None && tsconfig.paths is None ==> runs == seq![(Step::Resolve(before.fully_specified@), info@, r)]
            && first_started(before, after, info@)
    }
    &&& spec_parent(location) matches Some(dir) ==> (tsconfig.base_url matches Some(base) ==> (!seq_starts_with(
        info@.request.target,
        seq!['.'],
    ) ==> first_started(
        before,
        after,
        InfoView {
            path: crate::path::spec_normalized(spec_join(spec_join(dir, base@), info@.request.target)),
            request: crate::parse::request_of(Seq::empty(), info@.request.query, info@.request.fragment),
        },
    ) && runs[0].1 == (InfoView {
        path: crate::path::spec_normalized(spec_join(spec_join(dir, base@), info@.request.target)),
        request: crate::parse::request_of(Seq::empty(), info@.request.query, info@.request.fragment),
    })))
}

impl TsConfig {
    /// The tsconfig at `location`, with the ones it extends merged in.
    pub fn parse_file<F: FileSystem>(location: &str, resolver: &Resolver<F>) -> (r: Result<TsConfig, Error>)
        requires
            is_absolute(location@),
        ensures
            r matches Err(e) ==> (e is CantFindTsConfig || e is UnexpectedJson || e is UnexpectedValue
                || e is Overflow),
    {
        let mut context = Context::new(false, false);
        TsConfig::parse_file_in(location, resolver, &mut context)
    }

    /// The tsconfig at `location` (as [`TsConfig::parse_file`]), with the texts
    /// read recorded in `context`.
    pub fn parse_file_in<F: FileSystem>(location: &str, resolver: &Resolver<F>, context: &mut Context) -> (r: Result<
        TsConfig,
        Error,
    >)
        requires
            is_absolute(location@),
        ensures
            r matches Err(e) ==> (e is CantFindTsConfig || e is UnexpectedJson || e is UnexpectedValue
                || e is Overflow),
            only_texts_read(*old(context), *final(context)),
            tsconfig_text_read(
                r,
                location@,
                *old(context),
                *final(context),
                |v: JsonValue, x: Result<TsConfig, Error>| tsconfig_described(v, x),
            ),
    {
        let json = match resolver.parse_file_to_value(location, 0, context) {
            Ok(json) => json,
            Err(e) => {
                return Err(e);
            },
        };
        TsConfig::from_value(&json)
    }
}

} // verus!
