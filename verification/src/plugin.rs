use vstd::prelude::*;

use crate::context::Context;
use crate::entry::{kind_exists, kind_is_file};
use crate::description::{spec_get_field, DescriptionData};
use crate::error::{cat, Error};
use crate::info::{spec_resolved_path, Info, InfoView};
use crate::kind::PathKind;
use crate::map::{names_view, spec_field_process, ExportsField, FieldKind, ImportsField};
use crate::options::{texts, AliasMap, AliasMapView};
use crate::parse::{opt_text, spec_from_request, Request};
use crate::path::{is_absolute, join_path, lemma_join_absolute, nth_parent, spec_join};
use crate::request_path::{get_path_from_request, spec_path_from_request};
use crate::resolver::{
    all_started_as, can_step, finished, first_finished, unfinished_before_last, first_probe, first_probed, first_started, none_started, passes, Step, same_context, step_done, FileSystem, ResolveResult, Resolver,
    State, MAX_DEPTH,
};
use crate::rules::{
    alias_match, alias_request, exports_remaining_target, spec_exports_remaining, main_field_target, replace_extension,
    request_path_is_equal_alias_key_path, request_target_is_module_and_equal_alias_key, spec_alias_match, spec_alias_request,
    spec_alias_path_hit,
};
use crate::text::{chars_of, ends_with, first_is, seq_ends_with, seq_starts_with, starts_with, starts_with2, str_eq};

verus! {

/// The step ends in an `UnexpectedValue` error with this message.
pub open spec fn error_says(r: State, m: Seq<char>) -> bool {
    r matches State::Error(Error::UnexpectedValue(x)) && x@ == m
}

/// The `exports` fields of the options, as texts.
pub open spec fn fields_view(v: Seq<Vec<String>>) -> Seq<Seq<Seq<char>>> {
    v.map_values(|f: Vec<String>| texts(f@))
}

/// The first of `fields`, from `i` on, that the description has.
pub open spec fn first_present_field(raw: crate::json::JsonValue, fields: Seq<Seq<Seq<char>>>, i: int) -> Option<int>
    decreases fields.len() - i,
{
    if i < 0 || i >= fields.len() {
        None
    } else if spec_get_field(raw, fields[i]) is Some {
        Some(i)
    } else {
        first_present_field(raw, fields, i + 1)
    }
}

/// The message when an `exports` field is asked for a directory (the target
/// already ends in `/`).
pub open spec fn msg_exports_dir(target: Seq<char>, path: Seq<char>) -> Seq<char> {
    "Resolving to directories is not possible with the exports field (request was "@ + target + " in "@
        + path + ")"@
}

/// A request that is a path rather than a module or an internal name.
pub open spec fn is_relative_request(r: crate::parse::RequestView) -> bool {
    r.kind != PathKind::Normal && r.kind != PathKind::Internal
}

/// The outcome of checking a target mapped by the `imports` field, by what the
/// step recorded: the target's path was the first asked about; one that is not a
/// file cannot be imported, one that leaves the package is an error, and any
/// other lets the request go on.
pub open spec fn imports_checked(r: State, info: InfoView, dir: Seq<char>, before: Context, after: Context) -> bool {
    &&& first_probe(before, after) matches Some(answer) && answer.0 == spec_resolved_path(info)
    &&& if first_probe(before, after)->Some_0.1 != Some(crate::resolver::FileKind::File) {
        error_says(r, msg_cant_import(info.request.target, info.path))
    } else {
        match crate::map::spec_check_target(info.request.target) {
            Err(m) => error_says(r, msg_in_package(m, path_debug(dir))),
            Ok(_) => passes(r, info),
        }
    }
}

/// The first alias, from `i` on, whose key matches `target`.
pub open spec fn first_alias_match(alias: Seq<(String, Vec<AliasMap>)>, target: Seq<char>, i: int) -> Option<int>
    decreases alias.len() - i,
{
    if i < 0 || i >= alias.len() {
        None
    } else if spec_alias_match(alias[i].0@, target) is Some {
        Some(i)
    } else {
        first_alias_match(alias, target, i + 1)
    }
}

proof fn lemma_first_alias_match(alias: Seq<(String, Vec<AliasMap>)>, target: Seq<char>, i: int)
    requires
        0 <= i,
    ensures
        first_alias_match(alias, target, i) matches Some(k) ==> i <= k < alias.len() && spec_alias_match(
            alias[k].0@,
            target,
        ) is Some,
        forall|j: int|
            i <= j < alias.len() && spec_alias_match(#[trigger] alias[j].0@, target) is Some ==> first_alias_match(
                alias,
                target,
                i,
            ) is Some && first_alias_match(alias, target, i)->Some_0 <= j,
    decreases alias.len() - i,
{
    if i < alias.len() {
        lemma_first_alias_match(alias, target, i + 1);
    }
}

/// A `browser` field key that names the request: as the module itself, or (for a
/// path, or a package asking for itself) as the path it points at.
pub open spec fn browser_deals(
    info: InfoView,
    dir: Seq<char>,
    key: Seq<char>,
    may_request_package_self: bool,
    extensions: Seq<Seq<char>>,
) -> bool {
    if info.request.kind == PathKind::Normal && !may_request_package_self {
        info.request.target == key
    } else {
        spec_alias_path_hit(spec_join(dir, key), spec_resolved_path(info), extensions)
    }
}

/// The first `browser` alias, from `i` on, whose key names the request.
pub open spec fn first_dealt(
    aliases: Seq<(Seq<char>, AliasMapView)>,
    info: InfoView,
    dir: Seq<char>,
    may_request_package_self: bool,
    extensions: Seq<Seq<char>>,
    i: int,
) -> Option<int>
    decreases aliases.len() - i,
{
    if i < 0 || i >= aliases.len() {
        None
    } else if browser_deals(info, dir, aliases[i].0, may_request_package_self, extensions) {
        Some(i)
    } else {
        first_dealt(aliases, info, dir, may_request_package_self, extensions, i + 1)
    }
}

proof fn lemma_first_dealt(
    aliases: Seq<(Seq<char>, AliasMapView)>,
    info: InfoView,
    dir: Seq<char>,
    may_request_package_self: bool,
    extensions: Seq<Seq<char>>,
    i: int,
)
    requires
        0 <= i,
    ensures
        first_dealt(aliases, info, dir, may_request_package_self, extensions, i) matches Some(k) ==> i <= k
            < aliases.len() && browser_deals(info, dir, aliases[k].0, may_request_package_self, extensions),
        forall|j: int|
            i <= j < aliases.len() && browser_deals(
                info,
                dir,
                #[trigger] aliases[j].0,
                may_request_package_self,
                extensions,
            ) ==> first_dealt(aliases, info, dir, may_request_package_self, extensions, i) is Some && first_dealt(
                aliases,
                info,
                dir,
                may_request_package_self,
                extensions,
                i,
            )->Some_0 <= j,
    decreases aliases.len() - i,
{
    if i < aliases.len() {
        lemma_first_dealt(aliases, info, dir, may_request_package_self, extensions, i + 1);
    }
}

/// The alias ends the `browser` step: it ignores the request, or points at its
/// own key.
pub open spec fn browser_alias_stops(aliases: Seq<(Seq<char>, AliasMapView)>, k: int) -> bool {
    aliases[k].1 is Ignored || aliases[k].1 == AliasMapView::Target(aliases[k].0)
}

/// When `browser` alias `k` points at another text, the first nested resolution
/// is of that text from the package directory, with the request's query and
/// fragment.
pub open spec fn browser_hands_on(
    aliases: Seq<(Seq<char>, AliasMapView)>,
    k: int,
    info: InfoView,
    dir: Seq<char>,
    before: Context,
    after: Context,
) -> bool {
    match aliases[k].1 {
        AliasMapView::Target(to) => to != aliases[k].0 ==> first_started(
            before,
            after,
            InfoView { path: dir, request: crate::parse::request_of(to, info.request.query, info.request.fragment) },
        ),
        AliasMapView::Ignored => true,
    }
}

/// The field's value in the description is a text.
pub open spec fn holds_text(raw: crate::json::JsonValue, field: Seq<char>) -> bool {
    crate::json::spec_get(raw, field) matches Some(crate::json::JsonValue::String(_))
}

/// The first of the main fields, from `i` on, whose value in the description is
/// a text.
pub open spec fn first_text_field(raw: crate::json::JsonValue, fields: Seq<Seq<char>>, i: int) -> Option<int>
    decreases fields.len() - i,
{
    if i < 0 || i >= fields.len() {
        None
    } else if holds_text(raw, fields[i]) {
        Some(i)
    } else {
        first_text_field(raw, fields, i + 1)
    }
}

proof fn lemma_first_text_field(raw: crate::json::JsonValue, fields: Seq<Seq<char>>, i: int)
    requires
        0 <= i,
    ensures
        first_text_field(raw, fields, i) matches Some(k) ==> i <= k < fields.len() && holds_text(raw, fields[k]),
        forall|j: int|
            i <= j < fields.len() && holds_text(raw, #[trigger] fields[j]) ==> first_text_field(raw, fields, i) is Some && first_text_field(raw, fields, i)->Some_0 <= j,
    decreases fields.len() - i,
{
    if i < fields.len() {
        lemma_first_text_field(raw, fields, i + 1);
    }
}

/// The text a field holds in the description.
pub open spec fn field_text(raw: crate::json::JsonValue, field: Seq<char>) -> Seq<char> {
    match crate::json::spec_get(raw, field) {
        Some(crate::json::JsonValue::String(s)) => s@,
        _ => Seq::empty(),
    }
}

/// What a main field pointing at `target` hands on: the target from the package
/// directory, with the request's query and fragment.
pub open spec fn main_handed(info: InfoView, target: Seq<char>) -> InfoView {
    InfoView {
        path: crate::path::spec_normalized(spec_resolved_path(info)),
        request: crate::parse::request_of(target, info.request.query, info.request.fragment),
    }
}

/// How the main fields of a package deal with a request for the package
/// directory: the first field whose value is a text decides. With none, or one
/// that points at the directory itself (`.` or `./`), the request passes
/// unchanged and nothing is resolved; otherwise the first nested resolution is of
/// the target the field points at.
pub open spec fn main_fields_checked(
    r: State,
    raw: crate::json::JsonValue,
    fields: Seq<Seq<char>>,
    info: InfoView,
    before: Context,
    after: Context,
) -> bool {
    match first_text_field(raw, fields, 0) {
        None => passes(r, info) && none_started(before, after),
        Some(k) => match crate::rules::spec_main_field_target(field_text(raw, fields[k])) {
            None => passes(r, info) && none_started(before, after),
            Some(t) => first_started(before, after, main_handed(info, t)),
        },
    }
}

/// An optional text, as a text.
pub open spec fn text_view(o: Option<String>) -> Option<Seq<char>> {
    match o {
        Some(s) => Some(s@),
        None => None,
    }
}

/// The names of `p` and of its ancestors, `n` of them from `p` up, that are
/// joined back onto a real path.
pub open spec fn names_up(p: Seq<char>, n: nat) -> Seq<Seq<char>>
    decreases n,
{
    if n == 0 {
        Seq::empty()
    } else {
        let prev = names_up(p, (n - 1) as nat);
        match crate::path::spec_file_name(nth_parent(p, (n - 1) as nat)->Some_0) {
            Some(name) => prev.push(name),
            None => prev,
        }
    }
}

/// `found` is the real path of `path` by the answers about symbolic links
/// recorded from index `b` on: `path` and then each ancestor in turn were asked
/// about, up to the first that is a link (or up to the root); `found` is that
/// link's real path with the names under it joined back on, or `path` itself with
/// no trailing slash when none is a link (the walk then reached the root).
pub open spec fn links_lead(found: Seq<char>, path: Seq<char>, b: int, after: Context) -> bool {
    &&& 0 <= b < after.links@.len()
    &&& forall|k: int| b <= k < after.links@.len() ==> nth_parent(path, (k - b) as nat) == Some(
        #[trigger] after.links@[k].0,
    )
    &&& forall|k: int| b <= k < after.links@.len() - 1 ==> #[trigger] after.links@[k].1 is None
    &&& after.links@.last().1 is None ==> crate::path::spec_parent(after.links@.last().0) is None
    &&& found == crate::path::spec_normalized(
        match after.links@.last().1 {
            Some(link) => crate::rules::spec_reattach(link, names_up(path, (after.links@.len() - 1 - b) as nat)),
            None => crate::path::spec_rebuilt(path),
        },
    )
}

/// The real path a step found for `path`, from the answers about symbolic links
/// it recorded (the ones recorded before are kept).
pub open spec fn real_path_found(r: State, path: Seq<char>, before: Context, after: Context) -> bool {
    &&& forall|k: int| 0 <= k < before.links@.len() ==> #[trigger] after.links@[k] == before.links@[k]
    &&& r matches State::Success(ResolveResult::Resource(found)) && links_lead(
        found@.path,
        path,
        before.links@.len() as int,
        after,
    )
}

/// What main file `name` hands on: `./` and the name, from the directory the
/// request points at, with the request's query and fragment.
pub open spec fn main_file_handed(info: InfoView, name: Seq<char>) -> InfoView {
    InfoView {
        path: crate::path::spec_normalized(spec_resolved_path(info)),
        request: crate::parse::request_of("./"@ + name, info.request.query, info.request.fragment),
    }
}

/// What a request with a fragment and no query hands on first: its target with
/// the fragment put back, as a path with no query or fragment.
pub open spec fn fragment_handed(info: InfoView) -> InfoView {
    InfoView {
        path: info.path,
        request: crate::parse::request_of(
            info.request.target + (if info.request.is_directory {
                "/"@
            } else {
                Seq::empty()
            }) + opt_text(info.request.fragment),
            None,
            None,
        ),
    }
}

/// What a request that is not relative hands on when relative requests are
/// preferred: `./` and its target.
pub open spec fn relative_handed(info: InfoView) -> InfoView {
    InfoView {
        path: info.path,
        request: crate::parse::request_of("./"@ + info.request.target, info.request.query, info.request.fragment),
    }
}

/// What the targets of the aliases whose key matches the request give, from
/// alias `i` on, in order: each target that is a text the request does not
/// already start with is a nested resolution to try, and an alias to nothing
/// (`None`) stops the aliases there.
pub open spec fn alias_plan(alias: Seq<(String, Vec<AliasMap>)>, info: InfoView, i: int) -> Seq<Option<InfoView>>
    decreases alias.len() - i,
{
    if i < 0 || i >= alias.len() {
        Seq::empty()
    } else {
        (if spec_alias_match(alias[i].0@, info.request.target) is Some {
            targets_plan(alias, info, i, 0)
        } else {
            Seq::empty()
        }) + alias_plan(alias, info, i + 1)
    }
}

/// What the targets of alias `i` give, from target `j` on (see [`alias_plan`]).
pub open spec fn targets_plan(alias: Seq<(String, Vec<AliasMap>)>, info: InfoView, i: int, j: int) -> Seq<
    Option<InfoView>,
>
    decreases alias[i].1@.len() - j,
{
    if j < 0 || j >= alias[i].1@.len() {
        Seq::empty()
    } else {
        (match alias[i].1@[j] {
            AliasMap::Target(to) => if seq_starts_with(info.request.target, to@) {
                Seq::empty()
            } else {
                seq![Some(alias_handed(alias, info, i, to@))]
            },
            AliasMap::Ignored => seq![None],
        }) + targets_plan(alias, info, i, j + 1)
    }
}

/// The nested resolutions of a plan, up to the first that stops it.
pub open spec fn plan_tries(plan: Seq<Option<InfoView>>) -> Seq<InfoView>
    decreases plan.len(),
{
    if plan.len() == 0 {
        Seq::empty()
    } else {
        match plan[0] {
            None => Seq::empty(),
            Some(x) => seq![x] + plan_tries(plan.drop_first()),
        }
    }
}

/// The plan is stopped by an alias to nothing.
pub open spec fn plan_ignores(plan: Seq<Option<InfoView>>) -> bool
    decreases plan.len(),
{
    if plan.len() == 0 {
        false
    } else {
        match plan[0] {
            None => true,
            Some(_) => plan_ignores(plan.drop_first()),
        }
    }
}

/// What the runs were given, in order.
pub open spec fn inputs(runs: Seq<(Step, InfoView, State)>) -> Seq<InfoView> {
    runs.map_values(|x: (Step, InfoView, State)| x.1)
}

/// A target of an `exports` field that may be resolved: it starts with `./` and
/// stays inside its package.
pub open spec fn exports_item_ok(item: Seq<char>) -> bool {
    seq_starts_with(item, seq!['.', '/']) && crate::map::spec_check_target(spec_from_request(item).target) is Ok
}

/// The targets an `exports` field maps a request to, tried in order: each one
/// that may be resolved is resolved from the package directory until one
/// finishes, whose state is the result; the first that may not ends the step
/// with its error; when none finishes the request fails.
pub open spec fn exports_tried(
    r: State,
    list: Seq<Seq<char>>,
    dir: Seq<char>,
    runs: Seq<(Step, InfoView, State)>,
    info: Info,
) -> bool {
    &&& runs.len() <= list.len()
    &&& forall|k: int|
        0 <= k < runs.len() ==> (#[trigger] runs[k]).0 is Resolve && runs[k].1 == (InfoView {
            path: dir,
            request: spec_from_request(list[k]),
        }) && exports_item_ok(list[k])
    &&& unfinished_before_last(runs)
    &&& if runs.len() > 0 && finished(runs.last().2) {
        r == runs.last().2
    } else if runs.len() == list.len() {
        r == State::Failed(info)
    } else {
        !exports_item_ok(list[runs.len() as int]) && if !seq_starts_with(list[runs.len() as int], seq!['.', '/']) {
            error_says(r, msg_invalid_target(list[runs.len() as int], dir))
        } else {
            error_says(
                r,
                msg_in_package(
                    crate::map::spec_check_target(spec_from_request(list[runs.len() as int]).target)->Err_0,
                    normalized_debug(dir),
                ),
            )
        }
    }
}

/// `x` is what a `browser` key naming the request hands on: a text other than the
/// key, from the package directory, with the request's query and fragment.
pub open spec fn browser_tried(
    aliases: Seq<(Seq<char>, AliasMapView)>,
    info: InfoView,
    dir: Seq<char>,
    may_request_package_self: bool,
    extensions: Seq<Seq<char>>,
    x: InfoView,
) -> bool {
    exists|i: int|
        0 <= i < aliases.len() && browser_deals(info, dir, #[trigger] aliases[i].0, may_request_package_self, extensions)
            && match aliases[i].1 {
            AliasMapView::Target(to) => to != aliases[i].0 && x == (InfoView {
                path: dir,
                request: crate::parse::request_of(to, info.request.query, info.request.fragment),
            }),
            AliasMapView::Ignored => false,
        }
}

/// What the `browser` keys naming the request give, from key `i` on, in order: a
/// key pointing at another text is a nested resolution to try, and a key that
/// ignores the request or points at itself (`None`) stops there.
pub open spec fn browser_plan(
    aliases: Seq<(Seq<char>, AliasMapView)>,
    info: InfoView,
    dir: Seq<char>,
    may_request_package_self: bool,
    extensions: Seq<Seq<char>>,
    i: int,
) -> Seq<Option<InfoView>>
    decreases aliases.len() - i,
{
    if i < 0 || i >= aliases.len() {
        Seq::empty()
    } else {
        (if browser_deals(info, dir, aliases[i].0, may_request_package_self, extensions) {
            match aliases[i].1 {
                AliasMapView::Target(to) => if to == aliases[i].0 {
                    seq![None]
                } else {
                    seq![
                        Some(
                            InfoView {
                                path: dir,
                                request: crate::parse::request_of(to, info.request.query, info.request.fragment),
                            },
                        ),
                    ]
                },
                AliasMapView::Ignored => seq![None],
            }
        } else {
            Seq::empty()
        }) + browser_plan(aliases, info, dir, may_request_package_self, extensions, i + 1)
    }
}

/// The first `browser` key from `i` on that stops the step ignores the request.
pub open spec fn browser_ignores(
    aliases: Seq<(Seq<char>, AliasMapView)>,
    info: InfoView,
    dir: Seq<char>,
    may_request_package_self: bool,
    extensions: Seq<Seq<char>>,
    i: int,
) -> bool
    decreases aliases.len() - i,
{
    if i < 0 || i >= aliases.len() {
        false
    } else if browser_deals(info, dir, aliases[i].0, may_request_package_self, extensions) && browser_alias_stops(
        aliases,
        i,
    ) {
        aliases[i].1 is Ignored
    } else {
        browser_ignores(aliases, info, dir, may_request_package_self, extensions, i + 1)
    }
}

/// The nested resolutions the main fields give, from field `i` on, in order: each
/// field whose value is a text hands on the target it points at, up to the first
/// that points at its own directory.
pub open spec fn main_field_tries(raw: crate::json::JsonValue, fields: Seq<Seq<char>>, info: InfoView, i: int) -> Seq<
    InfoView,
>
    decreases fields.len() - i,
{
    if i < 0 || i >= fields.len() {
        Seq::empty()
    } else if holds_text(raw, fields[i]) {
        match crate::rules::spec_main_field_target(field_text(raw, fields[i])) {
            None => Seq::empty(),
            Some(t) => seq![main_handed(info, t)] + main_field_tries(raw, fields, info, i + 1),
        }
    } else {
        main_field_tries(raw, fields, info, i + 1)
    }
}

/// The nested resolutions the main files give, in order.
pub open spec fn main_files_tried(info: InfoView, files: Seq<String>) -> Seq<InfoView> {
    Seq::new(files.len(), |k: int| main_file_handed(info, files[k]@))
}

/// What an alias of the extension hands on: the path with the extension replaced
/// by `alias`, as a fully specified path with the request's query and fragment.
pub open spec fn extension_handed(info: InfoView, extension: Seq<char>, alias: Seq<char>) -> InfoView {
    let moved = InfoView {
        path: info.path,
        request: crate::parse::request_of(
            crate::rules::spec_replace_extension(info.request.target, extension, alias),
            info.request.query,
            info.request.fragment,
        ),
    };
    InfoView {
        path: crate::path::spec_normalized(spec_resolved_path(moved)),
        request: crate::parse::request_of(Seq::empty(), info.request.query, info.request.fragment),
    }
}

/// The request is ignored by its aliases before anything is read: its fragment
/// is not tried as part of its path, and the first alias whose key matches its
/// target starts with an alias to nothing.
pub open spec fn ignored_by_alias(alias: Seq<(String, Vec<AliasMap>)>, request: crate::parse::RequestView) -> bool {
    &&& !(opt_text(request.query).len() == 0 && opt_text(request.fragment).len() > 0 && request.target.len() > 0)
    &&& first_alias_match(alias, request.target, 0) matches Some(k) && alias_starts_ignored(alias, k)
}

/// What the first target of the first matching alias hands on: the request with
/// the matching key replaced by `to`, in the same directory.
pub open spec fn alias_handed(alias: Seq<(String, Vec<AliasMap>)>, info: InfoView, k: int, to: Seq<char>) -> InfoView {
    InfoView {
        path: info.path,
        request: spec_alias_request(info.request, spec_alias_match(alias[k].0@, info.request.target)->Some_0, to),
    }
}

/// When the first target of alias `k` is a text that the target does not already
/// start with, the first nested resolution is of what that target hands on.
pub open spec fn alias_hands_on(alias: Seq<(String, Vec<AliasMap>)>, info: InfoView, k: int, before: Context, after: Context) -> bool {
    alias[k].1@.len() > 0 ==> match alias[k].1@[0]@ {
        AliasMapView::Target(to) => !seq_starts_with(info.request.target, to) ==> first_started(
            before,
            after,
            alias_handed(alias, info, k, to),
        ),
        AliasMapView::Ignored => true,
    }
}

/// The first target of alias `k` ignores the request.
pub open spec fn alias_starts_ignored(alias: Seq<(String, Vec<AliasMap>)>, k: int) -> bool {
    alias[k].1@.len() > 0 && alias[k].1@[0] is Ignored
}

/// The key of an `exports` field that a request looks up: `.` and the request's
/// path below the package when it has one; for the package itself, `.` when the
/// package is named like the request or the file system said something is at
/// the request's path (`answer`), and none otherwise.
pub open spec fn exports_key(
    request: crate::parse::RequestView,
    name: Option<Seq<char>>,
    answer: Option<(Seq<char>, Option<crate::resolver::FileKind>)>,
) -> Option<Seq<char>> {
    match spec_path_from_request(request.target) {
        Some(sub) => Some(seq!['.'] + sub),
        None => if name == Some(request.target) || (answer matches Some(a) && a.1 is Some) {
            Some(seq!['.'])
        } else {
            None
        },
    }
}

/// The message when an `exports` field maps a request to nothing.
pub open spec fn msg_not_exported(target: Seq<char>, dir: Seq<char>) -> Seq<char> {
    "Package path "@ + target + " is not exported in "@ + dir + "/package.json"@
}

/// The message when an `exports` field maps a request to a target that does not
/// start with `./`.
pub open spec fn msg_invalid_target(item: Seq<char>, dir: Seq<char>) -> Seq<char> {
    "Invalid \""@ + item + "\" defined in "@ + dir + "/package.json, target must start with  \"./\""@
}

/// How a step deals with the first target an `exports` field maps a request to:
/// one that does not start with `./` is invalid, one that leaves the package is
/// refused, and any other is what the first nested resolution is of.
pub open spec fn exports_first_checked(r: State, item: Seq<char>, dir: Seq<char>, before: Context, after: Context) -> bool {
    if !seq_starts_with(item, seq!['.', '/']) {
        error_says(r, msg_invalid_target(item, dir))
    } else {
        match crate::map::spec_check_target(spec_from_request(item).target) {
            Err(m) => error_says(r, msg_in_package(m, normalized_debug(dir))),
            Ok(_) => first_started(before, after, InfoView { path: dir, request: spec_from_request(item) }),
        }
    }
}

/// A message about a target, with the package it comes from (its directory as
/// shown in messages).
pub open spec fn msg_in_package(msg: Seq<char>, shown_dir: Seq<char>) -> Seq<char> {
    msg + " in "@ + shown_dir + "/package.json"@
}

/// The message when an `imports` field cannot give a request.
pub open spec fn msg_cant_import(target: Seq<char>, path: Seq<char>) -> Seq<char> {
    "Package path "@ + target + " can't imported in "@ + path_debug(path)
}

/// A normalized path as its `Debug` form shows it.
pub open spec fn normalized_debug(path: Seq<char>) -> Seq<char> {
    "NormalizedPath("@ + path_debug(path) + ")"@
}

/// What std's `Debug` of `Path` writes for a path's text.
pub uninterp spec fn path_debug(text: Seq<char>) -> Seq<char>;

/// Calls std's `Debug` of `Path` (through `format!("{:?}")`), which writes the
/// path's text as a quoted, escaped literal. The contract claims only that the
/// result depends on the text alone; the form of the quoting is left unsaid.
#[verifier::external_body]
fn debug_path(text: &str) -> (r: String)
    ensures
        r@ == path_debug(text@),
{
    format!("{:?}", std::path::Path::new(text))
}

fn in_package(msg: &str, shown_dir: &str) -> (e: Error)
    ensures
        e matches Error::UnexpectedValue(m) && m@ == msg_in_package(msg@, shown_dir@),
{
    Error::UnexpectedValue(cat(&cat(&cat(msg, " in "), shown_dir), "/package.json"))
}

fn cant_import(target: &str, path: &str) -> (e: Error)
    ensures
        e matches Error::UnexpectedValue(m) && m@ == msg_cant_import(target@, path@),
{
    let shown = debug_path(path);
    Error::UnexpectedValue(cat(&cat(&cat("Package path ", target), " can't imported in "), shown.as_str()))
}

impl<F: FileSystem> Resolver<F> {
    /// With a fragment and no query, first tries the target with the fragment put
    /// back: `#` may be part of a path.
    pub fn parse_apply(&self, info: Info, context: &mut Context) -> (r: State)
        requires
            can_step(*old(context), info@),
        ensures
            step_done(*old(context), *final(context), r),
            r is Resolving ==> passes(r, info@),
            !(opt_text(info@.request.query).len() == 0 && opt_text(info@.request.fragment).len() > 0
                && info@.request.target.len() > 0) ==> passes(r, info@),
            opt_text(info@.request.query).len() == 0 && opt_text(info@.request.fragment).len() > 0
                && info@.request.target.len() > 0 ==> first_started(
                *old(context),
                *final(context),
                InfoView {
                    path: info@.path,
                    request: crate::parse::request_of(
                        info@.request.target + (if info@.request.is_directory {
                            "/"@
                        } else {
                            Seq::empty()
                        }) + opt_text(info@.request.fragment),
                        None,
                        None,
                    ),
                },
            ),
            first_finished(
                r,
                final(context).runs@,
                if opt_text(info@.request.query).len() == 0 && opt_text(info@.request.fragment).len() > 0
                    && info@.request.target.len() > 0 {
                    seq![fragment_handed(info@)]
                } else {
                    Seq::empty()
                },
                State::Resolving(info),
            ),
        decreases MAX_DEPTH - old(context).depth@, 1int,
    {
        let had_hash = !info.request().fragment().is_empty();
        let no_query = info.request().query().is_empty();
        let had_request = !info.request().target().is_empty();
        if no_query && had_hash && had_request {
            let mut target = String::from_str(info.request().target());
            if info.request().is_directory() {
                target.append("/");
            }
            target.append(info.request().fragment());
            let next = Info::from_path(info.normalized_path().duplicate()).with_target(target.as_str());
            let ghost handed = next@;
            let ghost flag = context.fully_specified@;
            let state = self._resolve(next, context);
            proof {
                context.runs@ = seq![(Step::Resolve(flag), handed, state)];
            }
            if state.is_finished() {
                return state;
            }
        } else {
            proof {
                context.runs@ = Seq::empty();
            }
        }
        State::Resolving(info)
    }

    /// Tries the aliases whose key matches the target, in order; an alias to
    /// nothing ignores the request.
    pub fn alias_apply(&self, alias: &Vec<(String, Vec<AliasMap>)>, info: Info, context: &mut Context) -> (r:
        State)
        requires
            can_step(*old(context), info@),
        ensures
            step_done(*old(context), *final(context), r),
            r is Resolving ==> passes(r, info@),
            (forall|i: int| 0 <= i < alias@.len() ==> spec_alias_match(#[trigger] alias@[i].0@, info@.request.target) is None)
                ==> passes(r, info@),
            first_alias_match(alias@, info@.request.target, 0) matches Some(k) ==> (alias_starts_ignored(alias@, k)
                ==> r matches State::Success(ResolveResult::Ignored)),
            first_alias_match(alias@, info@.request.target, 0) matches Some(k) ==> alias_hands_on(
                alias@,
                info@,
                k,
                *old(context),
                *final(context),
            ),
            first_finished(
                r,
                final(context).runs@,
                plan_tries(alias_plan(alias@, info@, 0)),
                if plan_ignores(alias_plan(alias@, info@, 0)) {
                    State::Success(ResolveResult::Ignored)
                } else {
                    State::Resolving(info)
                },
            ),
            all_started_as(final(context).runs@, false),
        decreases MAX_DEPTH - old(context).depth@, 1int,
    {
        let ghost mut mine: Seq<(Step, InfoView, State)> = Seq::empty();
        let ghost whole = alias_plan(alias@, info@, 0);
        let ghost mut rest = whole;
        let mut i: usize = 0;
        proof {
            lemma_first_alias_match(alias@, info@.request.target, 0);
        }
        while i < alias.len()
            invariant
                i <= alias@.len(),
                same_context(*old(context), *context),
                can_step(*context, info@),
                first_alias_match(alias@, info@.request.target, 0) matches Some(k) ==> (k < i
                    ==> !alias_starts_ignored(alias@, k)),
                (first_alias_match(alias@, info@.request.target, 0) is None || first_alias_match(
                    alias@,
                    info@.request.target,
                    0,
                )->Some_0 >= i) ==> first_alias_match(alias@, info@.request.target, 0) == first_alias_match(
                    alias@,
                    info@.request.target,
                    i as int,
                ),
                (first_alias_match(alias@, info@.request.target, 0) is None || first_alias_match(
                    alias@,
                    info@.request.target,
                    0,
                )->Some_0 >= i) ==> none_started(*old(context), *context),
                first_alias_match(alias@, info@.request.target, 0) matches Some(k) ==> (k < i ==> alias_hands_on(
                    alias@,
                    info@,
                    k,
                    *old(context),
                    *context,
                )),
                forall|k: int| 0 <= k < mine.len() ==> (#[trigger] mine[k]).0 == Step::Resolve(false) && !finished(mine[k].2),
                whole == alias_plan(alias@, info@, 0),
                rest == alias_plan(alias@, info@, i as int),
                plan_tries(whole) == inputs(mine) + plan_tries(rest),
                plan_ignores(whole) == plan_ignores(rest),
            decreases alias@.len() - i,
        {
            let from = &alias[i].0;
            let array = &alias[i].1;
            proof {
                lemma_first_alias_match(alias@, info@.request.target, 0);
                lemma_first_alias_match(alias@, info@.request.target, i as int);
            }
            match alias_match(from.as_str(), info.request().target()) {
                Some(key) => {
                    proof {
                        let t = info@.request.target;
                        if t == key@ {
                            assert(t.subrange(0, key@.len() as int) =~= t);
                        }
                        assert(rest == targets_plan(alias@, info@, i as int, 0) + alias_plan(alias@, info@, i + 1));
                    }
                    let mut j: usize = 0;
                    while j < array.len()
                        invariant
                            j <= array@.len(),
                            same_context(*old(context), *context),
                            can_step(*context, info@),
                            seq_starts_with(info@.request.target, key@),
                            i < alias@.len(),
                            spec_alias_match(alias@[i as int].0@, info@.request.target) is Some,
                            first_alias_match(alias@, info@.request.target, 0) matches Some(k) ==> (k < i
                                ==> !alias_starts_ignored(alias@, k)),
                            (first_alias_match(alias@, info@.request.target, 0) is None || first_alias_match(
                                alias@,
                                info@.request.target,
                                0,
                            )->Some_0 >= i) ==> first_alias_match(alias@, info@.request.target, 0) == Some(i as int),
                            *array == alias@[i as int].1,
                            j > 0 ==> !(array@[0] is Ignored),
                            *from == alias@[i as int].0,
                            key@ == spec_alias_match(alias@[i as int].0@, info@.request.target)->Some_0,
                            first_alias_match(alias@, info@.request.target, 0) == Some(i as int) ==> (j == 0
                                ==> none_started(*old(context), *context)),
                            first_alias_match(alias@, info@.request.target, 0) == Some(i as int) ==> (j > 0
                                ==> alias_hands_on(alias@, info@, i as int, *old(context), *context)),
                            first_alias_match(alias@, info@.request.target, 0) matches Some(k) ==> (k < i
                                ==> alias_hands_on(alias@, info@, k, *old(context), *context)),
                            forall|k: int| 0 <= k < mine.len() ==> (#[trigger] mine[k]).0 == Step::Resolve(false) && !finished(
                                mine[k].2,
                            ),
                            whole == alias_plan(alias@, info@, 0),
                            rest == targets_plan(alias@, info@, i as int, j as int) + alias_plan(alias@, info@, i + 1),
                            plan_tries(whole) == inputs(mine) + plan_tries(rest),
                            plan_ignores(whole) == plan_ignores(rest),
                        decreases array@.len() - j,
                    {
                        match &array[j] {
                            AliasMap::Target(to) => {
                                let t = chars_of(info.request().target());
                                if starts_with(&t, &chars_of(to.as_str())) {
                                    proof {
                                        assert(alias@[i as int].1@[j as int] == array@[j as int]);
                                        assert(targets_plan(alias@, info@, i as int, j as int) =~= targets_plan(
                                            alias@,
                                            info@,
                                            i as int,
                                            j + 1,
                                        ));
                                        rest = targets_plan(alias@, info@, i as int, j + 1) + alias_plan(
                                            alias@,
                                            info@,
                                            i + 1,
                                        );
                                    }
                                } else {
                                    let request = alias_request(info.request(), key.as_str(), to.as_str());
                                    let alias_info = info.duplicate().with_request(request);
                                    let fully_specified = context.fully_specified.get();
                                    if fully_specified {
                                        context.fully_specified.set(false);
                                    }
                                    let ghost handed = alias_info@;
                                    let ghost next_rest = targets_plan(alias@, info@, i as int, j + 1) + alias_plan(
                                        alias@,
                                        info@,
                                        i + 1,
                                    );
                                    proof {
                                        assert(alias@[i as int].1@[j as int] == array@[j as int]);
                                        assert(targets_plan(alias@, info@, i as int, j as int) == seq![Some(handed)]
                                            + targets_plan(alias@, info@, i as int, j + 1));
                                        assert(rest[0] == Some(handed));
                                        assert(rest.drop_first() =~= next_rest);
                                        assert(plan_tries(rest) == seq![handed] + plan_tries(next_rest));
                                        assert(plan_ignores(rest) == plan_ignores(next_rest));
                                    }
                                    let ghost flag = context.fully_specified@;
                                    let state = self._resolve(alias_info, context);
                                    if fully_specified {
                                        context.fully_specified.set(true);
                                    }
                                    proof {
                                        let before = mine;
                                        mine = mine.push((Step::Resolve(flag), handed, state));
                                        assert(inputs(mine) =~= inputs(before).push(handed));
                                        assert(plan_tries(whole) =~= inputs(mine) + plan_tries(next_rest));
                                        rest = next_rest;
                                    }
                                    if state.is_finished() {
                                        proof {
                                            context.runs@ = mine;
                                        }
                                        return state;
                                    }
                                }
                            },
                            AliasMap::Ignored => {
                                proof {
                                    assert(alias@[i as int].1@[j as int] == array@[j as int]);
                                    assert(targets_plan(alias@, info@, i as int, j as int) == seq![None::<InfoView>]
                                        + targets_plan(alias@, info@, i as int, j + 1));
                                    assert(rest[0] is None);
                                    assert(plan_tries(rest) =~= Seq::<InfoView>::empty());
                                    assert(plan_ignores(rest));
                                    assert(plan_tries(whole) =~= inputs(mine));
                                    context.runs@ = mine;
                                }
                                return State::Success(ResolveResult::Ignored);
                            },
                        }
                        j = j + 1;
                    }
                    proof {
                        assert(targets_plan(alias@, info@, i as int, j as int) =~= Seq::<Option<InfoView>>::empty());
                        assert(rest =~= alias_plan(alias@, info@, i + 1));
                        rest = alias_plan(alias@, info@, i + 1);
                    }
                },
                None => {
                    proof {
                        assert(alias_plan(alias@, info@, i as int) =~= alias_plan(alias@, info@, i + 1));
                        rest = alias_plan(alias@, info@, i + 1);
                    }
                },
            }
            i = i + 1;
        }
        proof {
            assert(rest =~= Seq::<Option<InfoView>>::empty());
            assert(plan_tries(rest) =~= Seq::<InfoView>::empty());
            assert(plan_tries(whole) =~= inputs(mine));
            context.runs@ = mine;
        }
        State::Resolving(info)
    }

    /// A request that is not relative is first tried as a relative one, when the
    /// options prefer that.
    pub fn prefer_relative_apply(&self, info: Info, context: &mut Context) -> (r: State)
        requires
            can_step(*old(context), info@),
        ensures
            step_done(*old(context), *final(context), r),
            r is Resolving ==> passes(r, info@),
            info@.request.kind == PathKind::Relative || !self.options.prefer_relative ==> passes(r, info@),
            info@.request.kind != PathKind::Relative && self.options.prefer_relative ==> first_started(
                *old(context),
                *final(context),
                InfoView {
                    path: info@.path,
                    request: crate::parse::request_of(
                        "./"@ + info@.request.target,
                        info@.request.query,
                        info@.request.fragment,
                    ),
                },
            ),
            first_finished(
                r,
                final(context).runs@,
                if info@.request.kind != PathKind::Relative && self.options.prefer_relative {
                    seq![relative_handed(info@)]
                } else {
                    Seq::empty()
                },
                State::Resolving(info),
            ),
        decreases MAX_DEPTH - old(context).depth@, 1int,
    {
        if info.request().kind() == PathKind::Relative {
            proof {
                context.runs@ = Seq::empty();
            }
            return State::Resolving(info);
        }
        if self.options.prefer_relative {
            let target = cat("./", info.request().target());
            let next = info.duplicate().with_target(target.as_str());
            let ghost handed = next@;
            let ghost flag = context.fully_specified@;
            let state = self._resolve(next, context);
            proof {
                context.runs@ = seq![(Step::Resolve(flag), handed, state)];
            }
            if state.is_finished() {
                return state;
            }
        } else {
            proof {
                context.runs@ = Seq::empty();
            }
        }
        State::Resolving(info)
    }

    /// The request mapped by the `imports` field is a file of the package whose
    /// path stays inside it.
    fn imports_check_target(&self, info: Info, pkg_info: &DescriptionData, context: &mut Context) -> (r: State)
        requires
            is_absolute(info@.path),
        ensures
            crate::resolver::state_wf(r),
            r is Resolving ==> passes(r, info@),
            r is Error || r is Resolving,
            imports_checked(r, info@, pkg_info.dir()@, *old(context), *final(context)),
            same_context(*old(context), *final(context)),
            final(context).started == old(context).started,
            final(context).probes@.len() == old(context).probes@.len() + 1,
    {
        let path = info.to_resolved_path();
        if kind_is_file(self.probe(path.as_str(), context)) {
            match ImportsField::check_target(info.request().target()) {
                Err(msg) => {
                    let shown = debug_path(pkg_info.dir_path().as_str());
                    State::Error(in_package(msg.as_str(), shown.as_str()))
                },
                Ok(_) => State::Resolving(info),
            }
        } else {
            State::Error(cant_import(info.request().target(), info.normalized_path().as_str()))
        }
    }

    /// A target starting with `#` is looked up in the `imports` field of the
    /// package; the first target it maps to is resolved from the package directory.
    pub fn imports_field_apply(&self, info: Info, pkg_info: &DescriptionData, context: &mut Context) -> (r:
        State)
        requires
            can_step(*old(context), info@),
            is_absolute(pkg_info.dir()@),
        ensures
            step_done(*old(context), *final(context), r),
            r is Resolving ==> passes(r, info@) || is_relative_request(r->Resolving_0@.request),
            !seq_starts_with(info@.request.target, seq!['#']) ==> passes(r, info@),
            crate::json::spec_get(pkg_info.data().raw_view(), "imports"@) is None ==> passes(r, info@),
            seq_starts_with(info@.request.target, seq!['#']) && crate::json::spec_get(
                pkg_info.data().raw_view(),
                "imports"@,
            ) is Some ==> match spec_field_process(
                FieldKind::Imports,
                crate::json::spec_get(pkg_info.data().raw_view(), "imports"@)->Some_0,
                info@.request.target,
                names_view(self.options.condition_names@),
            ) {
                Err(m) => error_says(r, m),
                Ok(list) => {
                    &&& list.len() == 0 ==> error_says(r, msg_cant_import(info@.request.target, info@.path))
                    &&& list.len() > 0 && is_relative_request(spec_from_request(list[0])) ==> imports_checked(
                        r,
                        InfoView { path: pkg_info.dir()@, request: spec_from_request(list[0]) },
                        pkg_info.dir()@,
                        *old(context),
                        *final(context),
                    )
                    &&& list.len() > 0 && !is_relative_request(spec_from_request(list[0])) ==> first_started(
                        *old(context),
                        *final(context),
                        InfoView { path: pkg_info.dir()@, request: spec_from_request(list[0]) },
                    )
                    &&& list.len() > 0 && !is_relative_request(spec_from_request(list[0])) ==> final(context).runs@
                        == seq![(Step::Resolve(false), InfoView { path: pkg_info.dir()@, request: spec_from_request(list[0]) }, r)]
                },
            },
        decreases MAX_DEPTH - old(context).depth@, 1int,
    {
        let t = chars_of(info.request().target());
        if !first_is(&t, '#') {
            return State::Resolving(info);
        }
        let root = match pkg_info.json().raw().get("imports") {
            Some(tree) => tree,
            None => {
                return State::Resolving(info);
            },
        };
        let list = match ImportsField::field_process(root, info.request().target(), &self.options.condition_names) {
            Ok(list) => list,
            Err(err) => {
                return State::Error(err);
            },
        };
        if list.len() > 0 {
            let request = Request::from_request(list[0].as_str());
            let is_relative = !(request.kind() == PathKind::Normal || request.kind() == PathKind::Internal);
            let next = Info::from_path(pkg_info.dir_path().duplicate()).with_request(request);
            if is_relative {
                self.imports_check_target(next, pkg_info, context)
            } else {
                let fully_specified = context.fully_specified.get();
                if fully_specified {
                    context.fully_specified.set(false);
                }
                let ghost handed = next@;
                let ghost flag = context.fully_specified@;
                let state = self._resolve(next, context);
                if fully_specified {
                    context.fully_specified.set(true);
                }
                proof {
                    context.runs@ = seq![(Step::Resolve(flag), handed, state)];
                }
                state
            }
        } else {
            State::Error(cant_import(info.request().target(), info.normalized_path().as_str()))
        }
    }

    /// The `browser` field of the package: a key that names the request (as a
    /// module, or as a path with or without an extension) sends it to its target,
    /// or ignores it.
    pub fn browser_field_apply(
        &self,
        info: Info,
        pkg_info: &DescriptionData,
        may_request_package_self: bool,
        context: &mut Context,
    ) -> (r: State)
        requires
            can_step(*old(context), info@),
            is_absolute(pkg_info.dir()@),
        ensures
            step_done(*old(context), *final(context), r),
            r is Resolving ==> passes(r, info@),
            !self.options.browser_field ==> passes(r, info@),
            pkg_info.data().aliases().len() == 0 ==> passes(r, info@),
            self.options.browser_field ==> (first_dealt(
                pkg_info.data().aliases(),
                info@,
                pkg_info.dir()@,
                may_request_package_self,
                texts(self.options.extensions@),
                0,
            ) matches Some(k) ==> {
                let a = pkg_info.data().aliases();
                &&& (a[k].1 is Ignored ==> (r matches State::Success(ResolveResult::Ignored)))
                &&& (a[k].1 == AliasMapView::Target(a[k].0) ==> passes(r, info@) && final(context).runs@.len() == 0
                    && none_started(*old(context), *final(context)))
                &&& browser_hands_on(a, k, info@, pkg_info.dir()@, *old(context), *final(context))
            }),
            self.options.browser_field ==> first_finished(
                r,
                final(context).runs@,
                plan_tries(
                    browser_plan(
                        pkg_info.data().aliases(),
                        info@,
                        pkg_info.dir()@,
                        may_request_package_self,
                        texts(self.options.extensions@),
                        0,
                    ),
                ),
                if browser_ignores(
                    pkg_info.data().aliases(),
                    info@,
                    pkg_info.dir()@,
                    may_request_package_self,
                    texts(self.options.extensions@),
                    0,
                ) {
                    State::Success(ResolveResult::Ignored)
                } else {
                    State::Resolving(info)
                },
            ),
            all_started_as(final(context).runs@, false),
        decreases MAX_DEPTH - old(context).depth@, 1int,
    {
        let ghost mut mine: Seq<(Step, InfoView, State)> = Seq::empty();
        if !self.options.browser_field {
            proof {
                context.runs@ = mine;
            }
            return State::Resolving(info);
        }
        let fields = pkg_info.json().alias_fields();
        let ghost a = pkg_info.data().aliases();
        let ghost dir = pkg_info.dir()@;
        let ghost exts = texts(self.options.extensions@);
        proof {
            lemma_first_dealt(a, info@, dir, may_request_package_self, exts, 0);
        }
        let ghost whole = browser_plan(a, info@, dir, may_request_package_self, exts, 0);
        let ghost mut rest = whole;
        let mut i: usize = 0;
        while i < fields.len()
            invariant
                i <= fields@.len(),
                same_context(*old(context), *context),
                can_step(*context, info@),
                is_absolute(pkg_info.dir()@),
                self.options.browser_field,
                whole == browser_plan(a, info@, dir, may_request_package_self, exts, 0),
                rest == browser_plan(a, info@, dir, may_request_package_self, exts, i as int),
                plan_tries(whole) == inputs(mine) + plan_tries(rest),
                browser_ignores(a, info@, dir, may_request_package_self, exts, 0) == browser_ignores(
                    a,
                    info@,
                    dir,
                    may_request_package_self,
                    exts,
                    i as int,
                ),
                crate::description::aliases_view(fields@) == pkg_info.data().aliases(),
                a == pkg_info.data().aliases(),
                dir == pkg_info.dir()@,
                exts == texts(self.options.extensions@),
                first_dealt(a, info@, dir, may_request_package_self, exts, 0) matches Some(k) ==> (k < i
                    ==> !browser_alias_stops(a, k)),
                (first_dealt(a, info@, dir, may_request_package_self, exts, 0) is None || first_dealt(
                    a,
                    info@,
                    dir,
                    may_request_package_self,
                    exts,
                    0,
                )->Some_0 >= i) ==> first_dealt(a, info@, dir, may_request_package_self, exts, 0) == first_dealt(
                    a,
                    info@,
                    dir,
                    may_request_package_self,
                    exts,
                    i as int,
                ),
                (first_dealt(a, info@, dir, may_request_package_self, exts, 0) is None || first_dealt(
                    a,
                    info@,
                    dir,
                    may_request_package_self,
                    exts,
                    0,
                )->Some_0 >= i) ==> none_started(*old(context), *context),
                first_dealt(a, info@, dir, may_request_package_self, exts, 0) matches Some(k) ==> (k < i
                    ==> browser_hands_on(a, k, info@, dir, *old(context), *context)),
                (first_dealt(a, info@, dir, may_request_package_self, exts, 0) is None || first_dealt(
                    a,
                    info@,
                    dir,
                    may_request_package_self,
                    exts,
                    0,
                )->Some_0 >= i) ==> mine.len() == 0,
                forall|k: int|
                    0 <= k < mine.len() ==> (#[trigger] mine[k]).0 == Step::Resolve(false) && browser_tried(
                        a,
                        info@,
                        dir,
                        may_request_package_self,
                        exts,
                        mine[k].1,
                    ) && !finished(mine[k].2),
            decreases fields@.len() - i,
        {
            proof {
                lemma_first_dealt(a, info@, dir, may_request_package_self, exts, 0);
                lemma_first_dealt(a, info@, dir, may_request_package_self, exts, i as int);
                assert(a[i as int] == (fields@[i as int].0@, fields@[i as int].1@));
            }
            let alias_key = &fields[i].0;
            let should_deal_alias = if info.request().kind() == PathKind::Normal && !may_request_package_self {
                request_target_is_module_and_equal_alias_key(alias_key, &info)
            } else {
                let alias_path = join_path(pkg_info.dir_path().as_str(), alias_key.as_str());
                proof {
                    lemma_join_absolute(pkg_info.dir()@, alias_key@);
                }
                request_path_is_equal_alias_key_path(alias_path.as_str(), &info, &self.options.extensions)
            };
            if should_deal_alias {
                match &fields[i].1 {
                    AliasMap::Target(converted) => {
                        if str_eq(alias_key.as_str(), converted.as_str()) {
                            proof {
                                assert(rest[0] is None);
                                assert(plan_tries(rest) =~= Seq::<InfoView>::empty());
                                assert(plan_tries(whole) =~= inputs(mine));
                                context.runs@ = mine;
                            }
                            return State::Resolving(info);
                        }
                        let alias_info = Info::from_path(pkg_info.dir_path().duplicate()).with_request(
                            info.request().duplicate(),
                        ).with_target(converted.as_str());
                        let fully_specified = context.fully_specified.get();
                        if fully_specified {
                            context.fully_specified.set(false);
                        }
                        let ghost handed = alias_info@;
                        let ghost next_rest = browser_plan(a, info@, dir, may_request_package_self, exts, i + 1);
                        proof {
                            assert(browser_tried(a, info@, dir, may_request_package_self, exts, handed));
                            assert(rest[0] == Some(handed));
                            assert(rest.drop_first() =~= next_rest);
                            assert(plan_tries(rest) == seq![handed] + plan_tries(next_rest));
                        }
                        let ghost flag = context.fully_specified@;
                        let state = self._resolve(alias_info, context);
                        if fully_specified {
                            context.fully_specified.set(true);
                        }
                        proof {
                            let before = mine;
                            mine = mine.push((Step::Resolve(flag), handed, state));
                            assert(inputs(mine) =~= inputs(before).push(handed));
                            assert(plan_tries(whole) =~= inputs(mine) + plan_tries(next_rest));
                            rest = next_rest;
                        }
                        if state.is_finished() {
                            proof {
                                context.runs@ = mine;
                            }
                            return state;
                        }
                    },
                    AliasMap::Ignored => {
                        proof {
                            assert(rest[0] is None);
                            assert(plan_tries(rest) =~= Seq::<InfoView>::empty());
                            assert(plan_tries(whole) =~= inputs(mine));
                            context.runs@ = mine;
                        }
                        return State::Success(ResolveResult::Ignored);
                    },
                }
            } else {
                proof {
                    assert(browser_plan(a, info@, dir, may_request_package_self, exts, i as int) =~= browser_plan(
                        a,
                        info@,
                        dir,
                        may_request_package_self,
                        exts,
                        i + 1,
                    ));
                    rest = browser_plan(a, info@, dir, may_request_package_self, exts, i + 1);
                }
            }
            i = i + 1;
        }
        proof {
            assert(rest =~= Seq::<Option<InfoView>>::empty());
            assert(plan_tries(rest) =~= Seq::<InfoView>::empty());
            assert(plan_tries(whole) =~= inputs(mine));
            context.runs@ = mine;
        }
        State::Resolving(info)
    }

    /// The `exports` field of the package maps the subpath the request asks for to
    /// targets inside the package, tried in order.
    pub fn exports_field_apply(&self, pkg_info: &DescriptionData, info: Info, context: &mut Context) -> (r:
        State)
        requires
            can_step(*old(context), info@),
            is_absolute(pkg_info.dir()@),
        ensures
            step_done(*old(context), *final(context), r),
            r is Resolving ==> passes(r, info@),
            r is Failed ==> r->Failed_0@ == info@,
            (forall|i: int|
                0 <= i < self.options.exports_field@.len() ==> spec_get_field(
                    pkg_info.data().raw_view(),
                    texts(#[trigger] self.options.exports_field@[i]@),
                ) is None) ==> passes(r, info@),
            first_present_field(pkg_info.data().raw_view(), fields_view(self.options.exports_field@), 0) matches Some(
                k,
            ) ==> {
                let request = info@.request;
                let key = exports_key(request, pkg_info.data().name_view(), first_probe(*old(context), *final(context)));
                &&& request.is_directory ==> error_says(r, msg_exports_dir(request.target, info@.path))
                &&& !request.is_directory && spec_path_from_request(request.target) is None
                    && pkg_info.data().name_view() != Some(request.target) ==> first_probed(
                    *old(context),
                    *final(context),
                    spec_join(info@.path, request.target),
                )
                &&& !request.is_directory && key is None ==> r is Failed
                &&& !request.is_directory && key is Some ==> match spec_field_process(
                    FieldKind::Exports,
                    spec_get_field(pkg_info.data().raw_view(), fields_view(self.options.exports_field@)[k])->Some_0,
                    spec_exports_remaining(key->Some_0, opt_text(request.query), opt_text(request.fragment)),
                    names_view(self.options.condition_names@),
                ) {
                    Err(m) => error_says(r, m),
                    Ok(list) => {
                        &&& list.len() == 0 ==> error_says(r, msg_not_exported(request.target, pkg_info.dir()@))
                        &&& list.len() > 0 ==> exports_tried(r, list, pkg_info.dir()@, final(context).runs@, info)
                        &&& list.len() > 0 ==> exports_first_checked(
                            r,
                            list[0],
                            pkg_info.dir()@,
                            *old(context),
                            *final(context),
                        )
                    },
                }
            },
        decreases MAX_DEPTH - old(context).depth@, 1int,
    {
        let mut i: usize = 0;
        while i < self.options.exports_field.len()
            invariant
                i <= self.options.exports_field@.len(),
                same_context(*old(context), *context),
                can_step(*context, info@),
                is_absolute(pkg_info.dir()@),
                first_present_field(pkg_info.data().raw_view(), fields_view(self.options.exports_field@), 0)
                    == first_present_field(pkg_info.data().raw_view(), fields_view(self.options.exports_field@), i as int),
                none_started(*old(context), *context),
                context.probes@ == old(context).probes@,
            decreases self.options.exports_field@.len() - i,
        {
            let root = match pkg_info.json().get_filed(&self.options.exports_field[i]) {
                Some(tree) => tree,
                None => {
                    i = i + 1;
                    continue;
                },
            };
            let ghost raw = pkg_info.data().raw_view();
            let ghost fv = fields_view(self.options.exports_field@);
            proof {
                assert(fv[i as int] == texts(self.options.exports_field@[i as int]@));
                assert(first_present_field(raw, fv, i as int) == Some(i as int));
            }
            let target = info.request().target();
            let dir = pkg_info.dir_path().as_str();
            if info.request().is_directory() {
                let m = cat(
                    &cat(
                        &cat(
                            &cat("Resolving to directories is not possible with the exports field (request was ", target),
                            " in ",
                        ),
                        info.normalized_path().as_str(),
                    ),
                    ")",
                );
                return State::Error(Error::UnexpectedValue(m));
            }
            proof {
                reveal_strlit(".");
                assert("."@ =~= seq!['.']);
            }
            let normalized = match get_path_from_request(target) {
                Some(sub) => cat(".", sub.as_str()),
                None => {
                    let path = join_path(info.normalized_path().as_str(), target);
                    let named = match pkg_info.json().name() {
                        Some(name) => str_eq(target, name),
                        None => false,
                    };
                    if named {
                        String::from_str(".")
                    } else {
                        let kind = self.probe(path.as_str(), context);
                        proof {
                            assert(first_probe(*old(context), *context) == Some((path@, kind)));
                        }
                        if kind_exists(kind) {
                            String::from_str(".")
                        } else {
                            return State::Failed(info);
                        }
                    }
                },
            };
            let ghost key = normalized@;
            let remaining = exports_remaining_target(
                normalized.as_str(),
                info.request().query(),
                info.request().fragment(),
            );
            let list = match ExportsField::field_process(root, remaining.as_str(), &self.options.condition_names) {
                Ok(list) => list,
                Err(err) => {
                    return State::Error(err);
                },
            };
            if list.len() == 0 {
                let m = cat(
                    &cat(&cat(&cat("Package path ", target), " is not exported in "), dir),
                    "/package.json",
                );
                return State::Error(Error::UnexpectedValue(m));
            }
            let ghost mut mine: Seq<(Step, InfoView, State)> = Seq::empty();
            let mut j: usize = 0;
            while j < list.len()
                invariant
                    j <= list@.len(),
                    same_context(*old(context), *context),
                    can_step(*context, info@),
                    is_absolute(pkg_info.dir()@),
                    i < self.options.exports_field@.len(),
                    spec_get_field(pkg_info.data().raw_view(), texts(self.options.exports_field@[i as int]@)) is Some,
                    first_present_field(raw, fv, 0) == Some(i as int),
                    fv == fields_view(self.options.exports_field@),
                    raw == pkg_info.data().raw_view(),
                    !info@.request.is_directory,
                    list@.len() > 0,
                    exports_key(info@.request, pkg_info.data().name_view(), first_probe(*old(context), *context))
                        == Some(key),
                    spec_path_from_request(info@.request.target) is None && pkg_info.data().name_view() != Some(
                        info@.request.target,
                    ) ==> first_probed(*old(context), *context, spec_join(info@.path, info@.request.target)),
                    spec_field_process(
                        FieldKind::Exports,
                        spec_get_field(raw, fv[i as int])->Some_0,
                        spec_exports_remaining(key, opt_text(info@.request.query), opt_text(info@.request.fragment)),
                        names_view(self.options.condition_names@),
                    ) == Ok::<Seq<Seq<char>>, Seq<char>>(crate::map::strings_view(list@)),
                    j == 0 ==> none_started(*old(context), *context),
                    j > 0 ==> seq_starts_with(list@[0]@, seq!['.', '/']) && crate::map::spec_check_target(
                        spec_from_request(list@[0]@).target,
                    ) is Ok && first_started(
                        *old(context),
                        *context,
                        InfoView { path: pkg_info.dir()@, request: spec_from_request(list@[0]@) },
                    ),
                    mine.len() == j,
                    forall|k: int|
                        0 <= k < j ==> (#[trigger] mine[k]).0 is Resolve && mine[k].1 == (InfoView {
                            path: pkg_info.dir()@,
                            request: spec_from_request(list@[k]@),
                        }) && exports_item_ok(list@[k]@) && !finished(mine[k].2),
                decreases list@.len() - j,
            {
                let item = list[j].as_str();
                assert(crate::map::strings_view(list@)[j as int] == list@[j as int]@);
                if !starts_with2(&chars_of(item), '.', '/') {
                    let m = cat(
                        &cat(&cat(&cat("Invalid \"", item), "\" defined in "), pkg_info.dir_path().as_str()),
                        "/package.json, target must start with  \"./\"",
                    );
                    proof {
                        context.runs@ = mine;
                    }
                    return State::Error(Error::UnexpectedValue(m));
                }
                let request = Request::from_request(item);
                let next = Info::from_path(pkg_info.dir_path().duplicate()).with_request(request);
                match ExportsField::check_target(next.request().target()) {
                    Err(msg) => {
                        let shown = cat(&cat("NormalizedPath(", debug_path(pkg_info.dir_path().as_str()).as_str()), ")");
                        proof {
                            context.runs@ = mine;
                        }
                        return State::Error(in_package(msg.as_str(), shown.as_str()));
                    },
                    Ok(_) => {},
                }
                let ghost handed = next@;
                let ghost flag = context.fully_specified@;
                let state = self._resolve(next, context);
                proof {
                    mine = mine.push((Step::Resolve(flag), handed, state));
                }
                if state.is_finished() {
                    proof {
                        context.runs@ = mine;
                    }
                    return state;
                }
                j = j + 1;
            }
            proof {
                context.runs@ = mine;
            }
            return State::Failed(info);
        }
        State::Resolving(info)
    }

    /// The main fields of the package, in order, when the request points at the
    /// package directory itself.
    pub fn main_field_apply(&self, info: Info, pkg_info: &DescriptionData, context: &mut Context) -> (r: State)
        requires
            can_step(*old(context), info@),
        ensures
            step_done(*old(context), *final(context), r),
            r is Resolving ==> passes(r, info@),
            pkg_info.dir()@ != spec_resolved_path(info@) ==> passes(r, info@),
            pkg_info.dir()@ == spec_resolved_path(info@) ==> main_fields_checked(
                r,
                pkg_info.data().raw_view(),
                texts(self.options.main_fields@),
                info@,
                *old(context),
                *final(context),
            ),
            !(r is Failed),
            first_finished(
                r,
                final(context).runs@,
                if pkg_info.dir()@ == spec_resolved_path(info@) {
                    main_field_tries(pkg_info.data().raw_view(), texts(self.options.main_fields@), info@, 0)
                } else {
                    Seq::empty()
                },
                State::Resolving(info),
            ),
            all_started_as(final(context).runs@, false),
        decreases MAX_DEPTH - old(context).depth@, 1int,
    {
        let ghost raw = pkg_info.data().raw_view();
        let ghost fs = texts(self.options.main_fields@);
        let ghost tries = main_field_tries(raw, fs, info@, 0);
        let ghost mut mine: Seq<(Step, InfoView, State)> = Seq::empty();
        proof {
            lemma_first_text_field(raw, fs, 0);
        }
        let resolved = info.to_resolved_path();
        if !str_eq(pkg_info.dir_path().as_str(), resolved.as_str()) {
            proof {
                context.runs@ = mine;
            }
            return State::Resolving(info);
        }
        let main_field_info = info.duplicate().with_path(resolved.as_str()).with_target(".");
        let mut i: usize = 0;
        while i < self.options.main_fields.len()
            invariant
                i <= self.options.main_fields@.len(),
                same_context(*old(context), *context),
                can_step(*context, info@),
                is_absolute(main_field_info@.path),
                pkg_info.dir()@ == spec_resolved_path(info@),
                raw == pkg_info.data().raw_view(),
                fs == texts(self.options.main_fields@),
                main_field_info@ == main_handed(info@, "."@),
                (first_text_field(raw, fs, 0) is None || first_text_field(raw, fs, 0)->Some_0 >= i)
                    ==> first_text_field(raw, fs, 0) == first_text_field(raw, fs, i as int),
                (first_text_field(raw, fs, 0) is None || first_text_field(raw, fs, 0)->Some_0 >= i)
                    ==> none_started(*old(context), *context),
                first_text_field(raw, fs, 0) matches Some(k) ==> (k < i ==> match crate::rules::spec_main_field_target(
                    field_text(raw, fs[k]),
                ) {
                    Some(t) => first_started(*old(context), *context, main_handed(info@, t)),
                    None => false,
                }),
                tries == main_field_tries(raw, fs, info@, 0),
                mine.len() <= tries.len(),
                main_field_tries(raw, fs, info@, i as int) =~= tries.subrange(mine.len() as int, tries.len() as int),
                forall|k: int| 0 <= k < mine.len() ==> (#[trigger] mine[k]).0 == Step::Resolve(false) && mine[k].1 == tries[k]
                    && !finished(mine[k].2),
            decreases self.options.main_fields@.len() - i,
        {
            proof {
                lemma_first_text_field(raw, fs, 0);
                lemma_first_text_field(raw, fs, i as int);
                assert(fs[i as int] == self.options.main_fields@[i as int]@);
            }
            match pkg_info.json().raw().get(self.options.main_fields[i].as_str()) {
                Some(value) => match value.as_str() {
                    Some(main_field) => {
                        proof {
                            assert(holds_text(raw, fs[i as int]));
                            assert(field_text(raw, fs[i as int]) == main_field@);
                        }
                        let target = match main_field_target(main_field) {
                            Some(target) => target,
                            None => {
                                proof {
                                    assert(main_field_tries(raw, fs, info@, i as int) =~= Seq::<InfoView>::empty());
                                    assert(tries.subrange(mine.len() as int, tries.len() as int).len() == 0);
                                    assert(mine.len() == tries.len());
                                    context.runs@ = mine;
                                }
                                return State::Resolving(info);
                            },
                        };
                        let next = main_field_info.duplicate().with_target(target.as_str());
                        let ghost handed = next@;
                        proof {
                            assert(main_field_tries(raw, fs, info@, i as int) == seq![handed] + main_field_tries(
                                raw,
                                fs,
                                info@,
                                i + 1,
                            ));
                            assert(main_field_tries(raw, fs, info@, i as int)[0] == handed);
                            assert(tries[mine.len() as int] == handed);
                            let here = main_field_tries(raw, fs, info@, i as int);
                            assert(main_field_tries(raw, fs, info@, i + 1) =~= here.subrange(1, here.len() as int));
                            assert(main_field_tries(raw, fs, info@, i + 1) =~= tries.subrange(
                                mine.len() + 1int,
                                tries.len() as int,
                            ));
                        }
                        let fully_specified = context.fully_specified.get();
                        if fully_specified {
                            context.fully_specified.set(false);
                        }
                        let ghost flag = context.fully_specified@;
                        let state = self._resolve(next, context);
                        if fully_specified {
                            context.fully_specified.set(true);
                        }
                        proof {
                            mine = mine.push((Step::Resolve(flag), handed, state));
                        }
                        if state.is_finished() {
                            proof {
                                context.runs@ = mine;
                            }
                            return state;
                        }
                    },
                    None => {
                        proof {
                            assert(!holds_text(raw, fs[i as int]));
                            assert(main_field_tries(raw, fs, info@, i as int) == main_field_tries(raw, fs, info@, i + 1));
                        }
                    },
                },
                None => {
                    proof {
                        assert(!holds_text(raw, fs[i as int]));
                        assert(main_field_tries(raw, fs, info@, i as int) == main_field_tries(raw, fs, info@, i + 1));
                    }
                },
            }
            i = i + 1;
        }
        proof {
            assert(main_field_tries(raw, fs, info@, i as int) =~= Seq::<InfoView>::empty());
            assert(tries.subrange(mine.len() as int, tries.len() as int).len() == 0);
            assert(mine.len() == tries.len());
            context.runs@ = mine;
        }
        State::Resolving(info)
    }

    /// Each main file of the directory the request points at, in order.
    pub fn main_file_apply(&self, info: Info, context: &mut Context) -> (r: State)
        requires
            can_step(*old(context), info@),
        ensures
            step_done(*old(context), *final(context), r),
            r is Resolving ==> passes(r, info@),
            self.options.main_files@.len() == 0 ==> passes(r, info@),
            !(r is Failed),
            self.options.main_files@.len() > 0 ==> first_started(
                *old(context),
                *final(context),
                main_file_handed(info@, self.options.main_files@[0]@),
            ),
            first_finished(
                r,
                final(context).runs@,
                main_files_tried(info@, self.options.main_files@),
                State::Resolving(info),
            ),
        decreases MAX_DEPTH - old(context).depth@, 1int,
    {
        let ghost tries = main_files_tried(info@, self.options.main_files@);
        let ghost mut mine: Seq<(Step, InfoView, State)> = Seq::empty();
        let path = info.to_resolved_path();
        let mut i: usize = 0;
        proof {
            reveal_strlit("./");
        }
        while i < self.options.main_files.len()
            invariant
                i <= self.options.main_files@.len(),
                same_context(*old(context), *context),
                can_step(*context, info@),
                is_absolute(path@),
                path@ == spec_resolved_path(info@),
                i == 0 ==> none_started(*old(context), *context),
                i > 0 ==> first_started(
                    *old(context),
                    *context,
                    main_file_handed(info@, self.options.main_files@[0]@),
                ),
                tries == main_files_tried(info@, self.options.main_files@),
                mine.len() == i,
                forall|k: int| 0 <= k < i ==> (#[trigger] mine[k]).0 is Resolve && mine[k].1 == tries[k]
                    && !finished(mine[k].2),
            decreases self.options.main_files@.len() - i,
        {
            let target = cat("./", self.options.main_files[i].as_str());
            let next = info.duplicate().with_path(path.as_str()).with_target(target.as_str());
            let ghost handed = next@;
            let ghost flag = context.fully_specified@;
            let state = self._resolve(next, context);
            proof {
                mine = mine.push((Step::Resolve(flag), handed, state));
            }
            if state.is_finished() {
                proof {
                    context.runs@ = mine;
                }
                return state;
            }
            i = i + 1;
        }
        proof {
            context.runs@ = mine;
            assert(mine =~= context.runs@);
        }
        State::Resolving(info)
    }

    /// A relative target ending in `extension` is tried with each alias of that
    /// extension in its place, as a fully specified path; when none resolves, the
    /// request fails.
    pub fn extension_alias_apply(
        &self,
        info: Info,
        extension: &str,
        alias_list: &Vec<String>,
        context: &mut Context,
    ) -> (r: State)
        requires
            can_step(*old(context), info@),
        ensures
            step_done(*old(context), *final(context), r),
            r is Resolving ==> passes(r, info@),
            r is Failed ==> r->Failed_0@ == info@,
            info@.request.kind == PathKind::Normal || info@.request.target.len() == 0 || !seq_ends_with(
                info@.request.target,
                extension@,
            ) || alias_list@.len() == 0 ==> passes(r, info@),
            !(info@.request.kind == PathKind::Normal || info@.request.target.len() == 0 || !seq_ends_with(
                info@.request.target,
                extension@,
            ) || alias_list@.len() == 0) ==> first_started(
                *old(context),
                *final(context),
                extension_handed(info@, extension@, alias_list@[0]@),
            ),
            !(info@.request.kind == PathKind::Normal || info@.request.target.len() == 0 || !seq_ends_with(
                info@.request.target,
                extension@,
            ) || alias_list@.len() == 0) ==> first_finished(
                r,
                final(context).runs@,
                Seq::new(alias_list@.len(), |k: int| extension_handed(info@, extension@, alias_list@[k]@)),
                State::Failed(info),
            ),
            all_started_as(final(context).runs@, true),
        decreases MAX_DEPTH - old(context).depth@, 1int,
    {
        let ghost tries = Seq::new(alias_list@.len(), |k: int| extension_handed(info@, extension@, alias_list@[k]@));
        let ghost mut mine: Seq<(Step, InfoView, State)> = Seq::empty();
        let target = info.request().target();
        if info.request().kind() == PathKind::Normal || target.is_empty() || !ends_with(
            &chars_of(target),
            &chars_of(extension),
        ) {
            proof {
                context.runs@ = mine;
            }
            return State::Resolving(info);
        }
        if alias_list.len() == 0 {
            proof {
                context.runs@ = mine;
            }
            return State::Resolving(info);
        }
        let mut i: usize = 0;
        while i < alias_list.len()
            invariant
                i <= alias_list@.len(),
                same_context(*old(context), *context),
                can_step(*context, info@),
                seq_ends_with(info@.request.target, extension@),
                info@.request.kind != PathKind::Normal,
                info@.request.target.len() > 0,
                alias_list@.len() > 0,
                i == 0 ==> none_started(*old(context), *context),
                i > 0 ==> first_started(*old(context), *context, extension_handed(info@, extension@, alias_list@[0]@)),
                tries == Seq::new(alias_list@.len(), |k: int| extension_handed(info@, extension@, alias_list@[k]@)),
                mine.len() == i,
                forall|k: int| 0 <= k < i ==> (#[trigger] mine[k]).0 == Step::Resolve(true) && mine[k].1 == tries[k]
                    && !finished(mine[k].2),
            decreases alias_list@.len() - i,
        {
            let replaced = replace_extension(info.request().target(), extension, alias_list[i].as_str());
            let next = info.duplicate().with_target(replaced.as_str());
            let path = next.to_resolved_path();
            proof {
                reveal_strlit("");
                assert(""@ =~= Seq::<char>::empty());
            }
            let next = next.with_path(path.as_str()).with_target("");
            let ghost handed = next@;
            let origin = context.fully_specified.get();
            context.fully_specified.set(true);
            let ghost flag = context.fully_specified@;
            let state = self._resolve(next, context);
            context.fully_specified.set(origin);
            proof {
                mine = mine.push((Step::Resolve(flag), handed, state));
            }
            if state.is_finished() {
                proof {
                    context.runs@ = mine;
                }
                return state;
            }
            i = i + 1;
        }
        proof {
            context.runs@ = mine;
        }
        State::Failed(info)
    }

    /// A resolved path given by its real path, when the options follow symbolic
    /// links.
    pub fn symlink_apply(&self, info: Info, context: &mut Context) -> (r: State)
        requires
            is_absolute(info@.path),
            info@.request.target.len() == 0,
        ensures
            crate::resolver::state_wf(r),
            r matches State::Success(ResolveResult::Resource(found)) && found@.request == info@.request,
            !self.options.symlinks ==> (r matches State::Success(ResolveResult::Resource(found)) && found@ == info@),
            self.options.symlinks ==> real_path_found(r, info@.path, *old(context), *final(context)),
            final(context).probes == old(context).probes,
            final(context).started == old(context).started,
            final(context).texts == old(context).texts,
    {
        if !self.options.symlinks {
            return State::Success(ResolveResult::Resource(info));
        }
        self.resolve_symlink(info, context)
    }

    /// The real path of a resolved path: the nearest of the path and its
    /// ancestors that is a symbolic link is replaced by its real path, and the
    /// components under it are joined back on.
    fn resolve_symlink(&self, info: Info, context: &mut Context) -> (r: State)
        requires
            is_absolute(info@.path),
            info@.request.target.len() == 0,
        ensures
            crate::resolver::state_wf(r),
            r matches State::Success(ResolveResult::Resource(found)) && found@.request == info@.request,
            real_path_found(r, info@.path, *old(context), *final(context)),
            final(context).probes == old(context).probes,
            final(context).started == old(context).started,
            final(context).texts == old(context).texts,
    {
        let head = info.normalized_path().as_str().to_owned();
        let mut cur = head.clone();
        let mut names: Vec<String> = Vec::new();
        let mut link_target: Option<String> = None;
        let ghost b = context.links@.len();
        let ghost mut n: nat = 0;
        loop
            invariant_except_break
                link_target is None,
                forall|k: int| b <= k < context.links@.len() ==> #[trigger] context.links@[k].1 is None,
                context.links@.len() == b + n,
            invariant
                is_absolute(cur@),
                link_target matches Some(p) ==> is_absolute(p@),
                head@ == info@.path,
                context.probes == old(context).probes,
                context.started == old(context).started,
                context.texts == old(context).texts,
                nth_parent(head@, n) == Some(cur@),
                texts(names@) == names_up(head@, n),
                b <= context.links@.len(),
                forall|k: int| 0 <= k < b ==> #[trigger] context.links@[k] == old(context).links@[k],
                old(context).links@.len() == b,
                forall|k: int|
                    b <= k < context.links@.len() ==> nth_parent(head@, (k - b) as nat) == Some(
                        #[trigger] context.links@[k].0,
                    ),
            ensures
                context.links@.len() == b + n + 1,
                b <= context.links@.len(),
                forall|k: int| 0 <= k < b ==> #[trigger] context.links@[k] == old(context).links@[k],
                forall|k: int|
                    b <= k < context.links@.len() ==> nth_parent(head@, (k - b) as nat) == Some(
                        #[trigger] context.links@[k].0,
                    ),
                forall|k: int| b <= k < context.links@.len() - 1 ==> #[trigger] context.links@[k].1 is None,
                context.links@.last().1 == text_view(link_target),
                context.links@.last().0 == cur@,
                link_target is None ==> crate::path::spec_parent(cur@) is None,
                texts(names@) == names_up(head@, n),
                link_target matches Some(p) ==> is_absolute(p@),
                context.probes == old(context).probes,
                context.started == old(context).started,
                context.texts == old(context).texts,
            decreases cur@.len(),
        {
            let answer = self.symlink(cur.as_str());
            proof {
                context.links@ = context.links@.push((cur@, text_view(answer)));
            }
            match answer {
                Some(link) => {
                    link_target = Some(link);
                    break;
                },
                None => {},
            }
            proof {
                crate::path::lemma_parent(cur@);
            }
            match crate::path::parent_path(cur.as_str()) {
                Some(parent) => {
                    match crate::path::file_name(cur.as_str()) {
                        Some(name) => names.push(name),
                        None => {},
                    }
                    proof {
                        assert(texts(names@) =~= names_up(head@, n + 1));
                    }
                    cur = parent;
                    proof {
                        n = n + 1;
                    }
                },
                None => {
                    break;
                },
            }
        }
        let path = match link_target {
            Some(link) => crate::rules::reattach(link.as_str(), &names),
            None => crate::path::rebuild_path(head.as_str()),
        };
        State::Success(ResolveResult::Resource(info.with_path(path.as_str())))
    }
}

} // verus!
