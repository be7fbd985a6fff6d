use vstd::prelude::*;

use crate::context::Context;
use crate::description::DescriptionData;
use crate::error::Error;
use crate::entry::{kind_is_dir, kind_is_file};
use crate::info::{spec_resolved_path, Info, InfoView};
use crate::kind::PathKind;
use crate::options::{texts, EnforceExtension};
use crate::parse::Request;
use crate::path::{
    file_name, is_absolute, is_absolute_path, join_path, lemma_join_absolute, lemma_parent, parent_path,
    spec_file_name, spec_join, spec_normalized, spec_parent,
};
use crate::request_path::{get_module_name_from_request, spec_module_name, split_slash_from_request};
use crate::resolver::{
    can_step, chain, finished, first_finished, first_probe, first_probed, Step, found_last_probed, found_recorded, no_file_probed, passes, same_context, state_wf, step_done, FileKind, FileSystem, ResolveResult, Resolver,
    State, MAX_DEPTH,
};
use crate::text::str_eq;

verus! {

/// The modules directory that `module` names from `dir`: itself when absolute,
/// else joined onto `dir`.
pub open spec fn modules_dir(dir: Seq<char>, module: Seq<char>) -> Seq<char> {
    if is_absolute(module) {
        module
    } else {
        spec_join(dir, module)
    }
}

/// The steps that a package directory in a modules directory goes through, in
/// order: its `exports` field (unless the package is the one the request comes
/// from and not named by it), its `imports`, main and `browser` fields, then the
/// request as a directory to resolve to, as a fully specified path, as a file and
/// as a directory; a package with no description file goes through the last four
/// only.
pub open spec fn package_chain(runs: Seq<(Step, InfoView, State)>, input: InfoView) -> bool {
    let tail = seq![Step::AsContext, Step::FullySpecified, Step::AsFile, Step::AsDir];
    ||| chain(runs, input, seq![Step::Exports, Step::Imports, Step::MainField, Step::Browser] + tail)
    ||| chain(runs, input, seq![Step::Imports, Step::MainField, Step::Browser] + tail)
    ||| chain(runs, input, tail)
}

/// The state a last step gave, a failure to resolve as a directory passing the
/// request on instead.
pub open spec fn as_dir_passes_failure(last: (Step, InfoView, State)) -> State {
    if last.0 == Step::AsDir && last.2 is Failed {
        State::Resolving(last.2->Failed_0)
    } else {
        last.2
    }
}

/// How many runs a modules directory leaves when the request goes on past it:
/// the request in it, and (when the directory is named from the request's own
/// directory, which has a parent) the request again from the parent directory.
pub open spec fn module_runs(dir: Seq<char>, module: Seq<char>) -> int {
    if !is_absolute(module) && spec_parent(dir) is Some {
        2
    } else {
        1
    }
}

/// What the request is handed on as from the parent of `dir`.
pub open spec fn parent_handed(dir: Seq<char>, x: InfoView) -> InfoView {
    InfoView { path: spec_normalized(spec_parent(dir)->Some_0), request: x.request }
}

/// The runs of one modules directory that let the request go on: the request
/// in it passed on, and the resolution from the parent (when there is one) did
/// not finish.
pub open spec fn module_went_on(part: Seq<(Step, InfoView, State)>, info: InfoView, c: int) -> bool {
    &&& part[0].0 == Step::NodeModules && part[0].1 == info && part[0].2 is Resolving
    &&& c == 2 ==> part[1].0 is Resolve && part[1].1 == parent_handed(info.path, part[0].2->Resolving_0@)
        && !finished(part[1].2)
}

/// `runs` are the runs of the first `i` modules directories, each of which let
/// the request go on.
pub open spec fn modules_walked(runs: Seq<(Step, InfoView, State)>, info: InfoView, modules: Seq<String>, i: int) -> bool
    decreases i,
{
    if i <= 0 {
        runs.len() == 0
    } else {
        let c = module_runs(info.path, modules[i - 1]@);
        &&& runs.len() >= c
        &&& modules_walked(runs.subrange(0, runs.len() - c), info, modules, i - 1)
        &&& module_went_on(runs.subrange(runs.len() - c, runs.len() as int), info, c)
    }
}

/// How the walk over the modules directories ends at directory `i`: past the
/// last one the request fails; otherwise the request in directory `i` did not
/// pass on and its state is the result, or the resolution from the parent
/// finished and its state is the result.
pub open spec fn module_ended(
    tail: Seq<(Step, InfoView, State)>,
    info: InfoView,
    modules: Seq<String>,
    i: int,
    r: State,
) -> bool {
    if i >= modules.len() {
        tail.len() == 0 && r is Failed && r->Failed_0@ == info
    } else {
        &&& tail.len() >= 1 && tail[0].0 == Step::NodeModules && tail[0].1 == info
        &&& if !(tail[0].2 is Resolving) {
            tail.len() == 1 && r == tail[0].2
        } else {
            &&& module_runs(info.path, modules[i]@) == 2 && tail.len() == 2
            &&& tail[1].0 is Resolve && tail[1].1 == parent_handed(info.path, tail[0].2->Resolving_0@)
            &&& finished(tail[1].2) && r == tail[1].2
        }
    }
}

/// The package is the one a module name asks for.
pub open spec fn spec_is_resolve_self(pkg_info: DescriptionData, module_name: Seq<char>) -> bool {
    pkg_info.data().name_view() == Some(module_name)
}

/// A package is the one a module name asks for exactly when its description
/// names it so.
pub proof fn law_self_reference_by_name(pkg_info: DescriptionData, module_name: Seq<char>)
    ensures
        spec_is_resolve_self(pkg_info, module_name) <==> pkg_info.data().name_view() == Some(module_name),
{
}

/// Whether the package is the one a module name asks for.
pub fn is_resolve_self(pkg_info: &DescriptionData, request_module_name: &str) -> (r: bool)
    ensures
        r == spec_is_resolve_self(*pkg_info, request_module_name@),
{
    match pkg_info.json().name() {
        Some(name) => str_eq(request_module_name, name),
        None => false,
    }
}

impl<F: FileSystem> Resolver<F> {
    /// The file named like `path` with each extension added, in order: the first
    /// one that is a file resolves the request.
    pub fn resolve_file_with_ext(&self, path: &str, info: Info, context: &mut Context) -> (r: State)
        requires
            is_absolute(info@.path),
            is_absolute(path@),
        ensures
            state_wf(r),
            r is Resolving ==> passes(r, info@),
            r is Resolving || r matches State::Success(ResolveResult::Resource(_)),
            r matches State::Success(ResolveResult::Resource(found)) ==> found@.request == crate::parse::request_of(
                Seq::empty(),
                info@.request.query,
                info@.request.fragment,
            ),
            same_context(*old(context), *final(context)),
            final(context).started == old(context).started,
            forall|k: int|
                old(context).probes@.len() <= k < final(context).probes@.len()
                    ==> #[trigger] final(context).probes@[k].0 == spec_join(
                    spec_parent(path@)->Some_0,
                    spec_file_name(path@)->Some_0 + texts(self.options.extensions@)[k - old(context).probes@.len()],
                ),
            r is Resolving ==> no_file_probed(*old(context), *final(context)) && (spec_file_name(path@) is None
                || final(context).probes@.len() == old(context).probes@.len() + self.options.extensions@.len()),
            r is Success ==> found_last_probed(r, *old(context), *final(context)),
            found_recorded(r, *old(context), *final(context)),
    {
        let name = match file_name(path) {
            Some(name) => name,
            None => {
                return State::Resolving(info);
            },
        };
        proof {
            lemma_parent(path@);
        }
        let parent = match parent_path(path) {
            Some(parent) => parent,
            None => vstd::pervasive::unreached(),
        };
        let ghost b = context.probes@.len();
        let mut i: usize = 0;
        while i < self.options.extensions.len()
            invariant
                i <= self.options.extensions@.len(),
                is_absolute(info@.path),
                is_absolute(parent@),
                Some(parent@) == spec_parent(path@),
                Some(name@) == spec_file_name(path@),
                same_context(*old(context), *context),
                context.started == old(context).started,
                b == old(context).probes@.len(),
                context.probes@.len() == b + i,
                forall|k: int|
                    b <= k < context.probes@.len() ==> #[trigger] context.probes@[k].0 == spec_join(
                        spec_parent(path@)->Some_0,
                        spec_file_name(path@)->Some_0 + texts(self.options.extensions@)[k - b],
                    ),
                no_file_probed(*old(context), *context),
            decreases self.options.extensions@.len() - i,
        {
            let mut file = name.clone();
            file.append(self.options.extensions[i].as_str());
            let candidate = join_path(parent.as_str(), file.as_str());
            proof {
                lemma_join_absolute(parent@, file@);
                assert(texts(self.options.extensions@)[i as int] == self.options.extensions@[i as int]@);
            }
            if kind_is_file(self.probe(candidate.as_str(), context)) {
                let found = info.with_path(candidate.as_str()).with_target("");
                proof {
                    reveal_strlit("");
                    assert(""@ =~= Seq::<char>::empty());
                }
                assert(context.probes@[context.probes@.len() - 1].0 == candidate@);
                return State::Success(ResolveResult::Resource(found));
            }
            i = i + 1;
        }
        State::Resolving(info)
    }

    /// With resolution to directories switched on, a directory resolves the
    /// request and anything else fails it.
    pub fn resolve_as_context(&self, info: Info, context: &mut Context) -> (r: State)
        requires
            is_absolute(info@.path),
        ensures
            state_wf(r),
            same_context(*old(context), *final(context)),
            final(context).started == old(context).started,
            found_recorded(r, *old(context), *final(context)),
            !old(context).resolve_to_context@ ==> passes(r, info@),
            old(context).resolve_to_context@ ==> (r is Failed ==> r->Failed_0@ == info@) && (r is Failed
                || r matches State::Success(ResolveResult::Resource(_))),
            r matches State::Success(ResolveResult::Resource(found)) ==> found@.path == spec_normalized(
                spec_resolved_path(info@),
            ),
    {
        if !context.resolve_to_context.get() {
            return State::Resolving(info);
        }
        let path = info.to_resolved_path();
        if kind_is_dir(self.probe(path.as_str(), context)) {
            let found = Info::new(path.as_str(), Request::new_default());
            assert(context.probes@[context.probes@.len() - 1].0 == path@);
            State::Success(ResolveResult::Resource(found))
        } else {
            State::Failed(info)
        }
    }

    /// A fully specified request must name a file as it is; only a bare module
    /// name is still looked up as a module from the directory.
    pub fn resolve_as_fully_specified(&self, info: Info, context: &mut Context) -> (r: State)
        requires
            can_step(*old(context), info@),
        ensures
            step_done(*old(context), *final(context), r),
            !old(context).fully_specified@ ==> passes(r, info@),
            old(context).fully_specified@ ==> !(r is Resolving),
            old(context).fully_specified@ && (info@.request.kind == PathKind::AbsolutePosix || info@.request.kind
                == PathKind::AbsoluteWin || info@.request.kind == PathKind::Relative
                || crate::request_path::spec_split_slash(info@.request.target) is Some) ==> (r is Failed
                && r->Failed_0@ == info@) || (r matches State::Success(ResolveResult::Resource(found))
                && found@.path == spec_normalized(spec_resolved_path(info@)) && found@.request
                == crate::parse::request_of(Seq::empty(), info@.request.query, info@.request.fragment)),
            old(context).fully_specified@ ==> first_probed(*old(context), *final(context), spec_resolved_path(info@)),
            old(context).fully_specified@ && first_probe(*old(context), *final(context))->Some_0.1 == Some(
                FileKind::File,
            ) ==> (r matches State::Success(ResolveResult::Resource(found)) && found@.path == spec_normalized(
                spec_resolved_path(info@),
            )),
            old(context).fully_specified@ && first_probe(*old(context), *final(context))->Some_0.1 != Some(
                FileKind::File,
            ) && (info@.request.kind == PathKind::AbsolutePosix || info@.request.kind == PathKind::AbsoluteWin
                || info@.request.kind == PathKind::Relative || crate::request_path::spec_split_slash(
                info@.request.target,
            ) is Some) ==> (r is Failed && r->Failed_0@ == info@),
            old(context).fully_specified@ && first_probe(*old(context), *final(context))->Some_0.1 != Some(
                FileKind::File,
            ) && !(info@.request.kind == PathKind::AbsolutePosix || info@.request.kind == PathKind::AbsoluteWin
                || info@.request.kind == PathKind::Relative || crate::request_path::spec_split_slash(
                info@.request.target,
            ) is Some) ==> {
                let handed = InfoView {
                    path: spec_normalized(spec_resolved_path(info@)),
                    request: crate::parse::request_of(seq!['.'], info@.request.query, info@.request.fragment),
                };
                let runs = final(context).runs@;
                &&& runs.len() == 1 && runs[0].0 == Step::Resolve(false) && runs[0].1 == handed
                &&& if finished(runs[0].2) {
                    r == runs[0].2
                } else {
                    r is Failed && r->Failed_0@ == handed
                }
            },
        decreases MAX_DEPTH - old(context).depth@, 1int,
    {
        if !context.fully_specified.get() {
            return State::Resolving(info);
        }
        let path = info.to_resolved_path();
        if kind_is_file(self.probe(path.as_str(), context)) {
            proof {
                reveal_strlit("");
                assert(""@ =~= Seq::<char>::empty());
            }
            assert(context.probes@[context.probes@.len() - 1].0 == path@);
            return State::Success(ResolveResult::Resource(info.with_path(path.as_str()).with_target("")));
        }
        let kind = info.request().kind();
        if kind == PathKind::AbsolutePosix || kind == PathKind::AbsoluteWin || kind == PathKind::Relative
            || split_slash_from_request(info.request().target()).is_some() {
            return State::Failed(info);
        }
        proof {
            reveal_strlit(".");
            assert("."@ =~= seq!['.']);
        }
        let next = info.with_path(path.as_str()).with_target(".");
        let kept = next.duplicate();
        let ghost handed = next@;
        context.fully_specified.set(false);
        let ghost flag = context.fully_specified@;
        let state = self._resolve(next, context);
        context.fully_specified.set(true);
        proof {
            context.runs@ = seq![(Step::Resolve(flag), handed, state)];
        }
        if state.is_finished() {
            state
        } else {
            State::Failed(kept)
        }
    }

    /// The request as a file: its extension aliases first, then the path itself
    /// (unless an extension is enforced), then the path with each extension.
    pub fn resolve_as_file(&self, info: Info, context: &mut Context) -> (r: State)
        requires
            can_step(*old(context), info@),
        ensures
            step_done(*old(context), *final(context), r),
            r is Resolving ==> passes(r, info@),
            info@.request.is_directory ==> passes(r, info@),
            !info@.request.is_directory && self.options.extension_alias@.len() == 0 ==> {
                &&& r is Resolving ==> no_file_probed(*old(context), *final(context))
                &&& r is Success ==> found_last_probed(r, *old(context), *final(context))
                &&& r is Resolving || r is Success
            },
            !info@.request.is_directory && self.options.extension_alias@.len() == 0
                && self.options.enforce_extension == EnforceExtension::Enabled ==> forall|k: int|
                old(context).probes@.len() <= k < final(context).probes@.len()
                    ==> #[trigger] final(context).probes@[k].0 == spec_join(
                    spec_parent(spec_resolved_path(info@))->Some_0,
                    spec_file_name(spec_resolved_path(info@))->Some_0 + texts(
                        self.options.extensions@,
                    )[k - old(context).probes@.len()],
                ),
            !info@.request.is_directory && self.options.extension_alias@.len() == 0
                && self.options.enforce_extension != EnforceExtension::Enabled ==> {
                &&& first_probe(*old(context), *final(context)) matches Some(answer) && answer.0
                    == spec_resolved_path(info@)
                &&& first_probe(*old(context), *final(context))->Some_0.1 == Some(FileKind::File) ==> (r matches State::Success(
                    ResolveResult::Resource(found),
                ) && found@ == (InfoView {
                    path: spec_normalized(spec_resolved_path(info@)),
                    request: crate::parse::request_of(Seq::empty(), info@.request.query, info@.request.fragment),
                }))
            },
            !info@.request.is_directory ==> {
                let runs = final(context).runs@;
                &&& runs.len() <= self.options.extension_alias@.len()
                &&& forall|k: int|
                    0 <= k < runs.len() ==> (#[trigger] runs[k]).0 == Step::ExtensionAlias && runs[k].1 == info@
                        && (k < runs.len() - 1 ==> runs[k].2 is Resolving)
                &&& if runs.len() > 0 && !(runs.last().2 is Resolving) {
                    r == runs.last().2
                } else {
                    runs.len() == self.options.extension_alias@.len()
                }
            },
        decreases MAX_DEPTH - old(context).depth@, 2int,
    {
        if info.request().is_directory() {
            return State::Resolving(info);
        }
        let ghost mut mine: Seq<(Step, InfoView, State)> = Seq::empty();
        let mut cur = info;
        let mut i: usize = 0;
        while i < self.options.extension_alias.len()
            invariant
                i <= self.options.extension_alias@.len(),
                same_context(*old(context), *context),
                can_step(*context, cur@),
                cur@ == info@,
                !info@.request.is_directory,
                i == 0 ==> context.probes@ == old(context).probes@,
                mine.len() == i,
                forall|k: int|
                    0 <= k < mine.len() ==> (#[trigger] mine[k]).0 == Step::ExtensionAlias && mine[k].1 == info@
                        && mine[k].2 is Resolving,
            decreases self.options.extension_alias@.len() - i,
        {
            let state = self.extension_alias_apply(
                cur,
                self.options.extension_alias[i].0.as_str(),
                &self.options.extension_alias[i].1,
                context,
            );
            proof {
                mine = mine.push((Step::ExtensionAlias, info@, state));
            }
            match state {
                State::Resolving(next) => {
                    cur = next;
                },
                _ => {
                    proof {
                        context.runs@ = mine;
                    }
                    return state;
                },
            }
            i = i + 1;
        }
        let path = cur.to_resolved_path();
        let result = if self.options.enforce_extension == EnforceExtension::Enabled {
            self.resolve_file_with_ext(path.as_str(), cur, context)
        } else if kind_is_file(self.probe(path.as_str(), context)) {
            proof {
                reveal_strlit("");
                assert(""@ =~= Seq::<char>::empty());
            }
            assert(context.probes@[context.probes@.len() - 1].0 == path@);
            State::Success(ResolveResult::Resource(cur.with_path(path.as_str()).with_target("")))
        } else {
            self.resolve_file_with_ext(path.as_str(), cur, context)
        };
        proof {
            context.runs@ = mine;
        }
        result
    }

    /// The request as a directory: its package's main fields, then its main files.
    pub fn resolve_as_dir(&self, info: Info, context: &mut Context) -> (r: State)
        requires
            can_step(*old(context), info@),
        ensures
            step_done(*old(context), *final(context), r),
            r is Resolving ==> passes(r, info@),
            r is Failed ==> r->Failed_0@ == info@,
            first_probe(*old(context), *final(context)) matches Some(answer) && answer.0 == spec_resolved_path(
                info@,
            ),
            first_probe(*old(context), *final(context))->Some_0.1 != Some(FileKind::Dir) ==> (r is Failed
                && r->Failed_0@ == info@ && final(context).runs@.len() == 0),
            first_probe(*old(context), *final(context))->Some_0.1 == Some(FileKind::Dir) ==> (r is Error
                && final(context).runs@.len() == 0) || ((chain(final(context).runs@, info@, seq![Step::MainField, Step::MainFile])
                || chain(final(context).runs@, info@, seq![Step::MainFile])) && r == final(context).runs@.last().2),
        decreases MAX_DEPTH - old(context).depth@, 2int,
    {
        let dir = info.to_resolved_path();
        if !kind_is_dir(self.probe(dir.as_str(), context)) {
            proof {
                context.runs@ = Seq::empty();
            }
            return State::Failed(info);
        }
        let pkg_info = match self.pkg_info_in(dir.as_str(), context) {
            Ok(pkg_info) => pkg_info,
            Err(err) => {
                proof {
                    context.runs@ = Seq::empty();
                }
                return State::Error(err);
            },
        };
        let ghost input = info@;
        let ghost mut mine: Seq<(Step, InfoView, State)> = Seq::empty();
        let state = match &pkg_info {
            Some(pkg_info) => {
                let state = self.main_field_apply(info, pkg_info, context);
                proof {
                    mine = seq![(Step::MainField, input, state)];
                }
                state
            },
            None => State::Resolving(info),
        };
        match state {
            State::Resolving(info) => {
                let ghost next = info@;
                let state = self.main_file_apply(info, context);
                proof {
                    mine = mine.push((Step::MainFile, next, state));
                    context.runs@ = mine;
                }
                state
            },
            _ => {
                proof {
                    context.runs@ = mine;
                }
                state
            },
        }
    }

    /// The request as a module in each modules directory: one given by an
    /// absolute path, or one of that name in the directory and, failing that, in
    /// its ancestors.
    pub fn resolve_as_modules(&self, info: Info, context: &mut Context) -> (r: State)
        requires
            can_step(*old(context), info@),
        ensures
            step_done(*old(context), *final(context), r),
            !(r is Resolving),
            self.options.modules@.len() == 0 ==> r is Failed && r->Failed_0@ == info@,
            self.options.modules@.len() > 0 && !(r is Error) ==> first_probed(
                *old(context),
                *final(context),
                modules_dir(info@.path, self.options.modules@[0]@),
            ),
            exists|i: int, n: int|
                0 <= i <= self.options.modules@.len() && 0 <= n <= final(context).runs@.len() && #[trigger] modules_walked(
                    final(context).runs@.subrange(0, n),
                    info@,
                    self.options.modules@,
                    i,
                ) && module_ended(
                    final(context).runs@.subrange(n, final(context).runs@.len() as int),
                    info@,
                    self.options.modules@,
                    i,
                    r,
                ),
        decreases MAX_DEPTH - old(context).depth@, 6int,
    {
        let ghost mut mine: Seq<(Step, InfoView, State)> = Seq::empty();
        let original_dir = info.normalized_path().as_str();
        let mut i: usize = 0;
        while i < self.options.modules.len()
            invariant
                i <= self.options.modules@.len(),
                same_context(*old(context), *context),
                can_step(*context, info@),
                original_dir@ == info@.path,
                i == 0 ==> context.probes@ == old(context).probes@,
                i > 0 ==> first_probed(*old(context), *context, modules_dir(info@.path, self.options.modules@[0]@)),
                modules_walked(mine, info@, self.options.modules@, i as int),
            decreases self.options.modules@.len() - i,
        {
            let module = self.options.modules[i].as_str();
            let need_find_up = !is_absolute_path(module);
            let node_modules_path = if need_find_up {
                join_path(original_dir, module)
            } else {
                module.to_owned()
            };
            proof {
                lemma_join_absolute(original_dir@, module@);
            }
            let ghost before = mine;
            let state = self._resolve_as_modules(info.duplicate(), original_dir, node_modules_path.as_str(), context);
            proof {
                mine = mine.push((Step::NodeModules, info@, state));
                assert(mine.subrange(0, before.len() as int) =~= before);
            }
            let next = match state {
                State::Resolving(next) => next,
                _ => {
                    proof {
                        assert(mine.subrange(before.len() as int, mine.len() as int) =~= seq![mine.last()]);
                        context.runs@ = mine;
                        assert(modules_walked(context.runs@.subrange(0, before.len() as int), info@, self.options.modules@, i as int));
                    }
                    return state;
                },
            };
            proof {
                lemma_parent(original_dir@);
            }
            if need_find_up {
                match parent_path(original_dir) {
                    Some(parent_dir) => {
                        let moved = next.with_path(parent_dir.as_str());
                        let ghost handed = moved@;
                        let ghost flag = context.fully_specified@;
                        let state = self._resolve(moved, context);
                        proof {
                            mine = mine.push((Step::Resolve(flag), handed, state));
                            assert(mine.subrange(0, before.len() as int) =~= before);
                        }
                        if state.is_finished() {
                            proof {
                                context.runs@ = mine;
                                assert(modules_walked(
                                    context.runs@.subrange(0, before.len() as int),
                                    info@,
                                    self.options.modules@,
                                    i as int,
                                ));
                            }
                            return state;
                        }
                    },
                    None => {},
                }
            }
            proof {
                let c = module_runs(info@.path, self.options.modules@[i as int]@);
                assert(mine.len() == before.len() + c);
                assert(mine.subrange(0, mine.len() - c) =~= before);
            }
            i = i + 1;
        }
        proof {
            context.runs@ = mine;
            assert(context.runs@.subrange(0, mine.len() as int) =~= mine);
        }
        State::Failed(info)
    }

    /// The request in one modules directory, or as the package that the
    /// directory holding the modules directory describes.
    fn _resolve_as_modules(
        &self,
        info: Info,
        original_dir: &str,
        node_modules_path: &str,
        context: &mut Context,
    ) -> (r: State)
        requires
            can_step(*old(context), info@),
            is_absolute(node_modules_path@),
            original_dir@ == info@.path,
        ensures
            step_done(*old(context), *final(context), r),
            first_probe(*old(context), *final(context)) matches Some(answer) ==> answer.0 == node_modules_path@,
            !(r is Error) ==> first_probe(*old(context), *final(context)) is Some,
            (r is Error && final(context).runs@.len() == 0) || (first_probe(*old(context), *final(context))->Some_0.1
                == Some(FileKind::Dir) && (chain(final(context).runs@, info@, seq![Step::Package, Step::Exports])
                || chain(final(context).runs@, info@, seq![Step::Package])) && r == final(context).runs@.last().2)
                || (first_probe(*old(context), *final(context))->Some_0.1 != Some(FileKind::Dir) && ((chain(
                final(context).runs@,
                info@,
                seq![Step::Exports],
            ) && r == final(context).runs@.last().2) || (final(context).runs@.len() == 0 && passes(r, info@)))),
        decreases MAX_DEPTH - old(context).depth@, 5int,
    {
        let pkg_info = match self.pkg_info_in(node_modules_path, context) {
            Ok(pkg_info) => pkg_info,
            Err(err) => {
                proof {
                    context.runs@ = Seq::empty();
                }
                return State::Error(err);
            },
        };
        self.resolve_in_modules_dir(info, original_dir, node_modules_path, &pkg_info, context)
    }

    /// The request in one modules directory, given the description file found
    /// for it: the request as a module there when the directory exists, and then,
    /// when the package described is the one the request's module name asks for
    /// (a package requiring itself), through that package's `exports` field;
    /// when the directory does not exist, through the `exports` field of the
    /// package whose directory the request is resolved from, when that package
    /// is the one asked for.
    pub fn resolve_in_modules_dir(
        &self,
        info: Info,
        original_dir: &str,
        node_modules_path: &str,
        pkg_info: &Option<DescriptionData>,
        context: &mut Context,
    ) -> (r: State)
        requires
            can_step(*old(context), info@),
            is_absolute(node_modules_path@),
            original_dir@ == info@.path,
            *pkg_info matches Some(d) ==> is_absolute(d.dir()@),
        ensures
            step_done(*old(context), *final(context), r),
            first_probed(*old(context), *final(context), node_modules_path@),
            first_probe(*old(context), *final(context))->Some_0.1 == Some(FileKind::Dir) ==> {
                let runs = final(context).runs@;
                &&& runs.len() >= 1 && runs[0].0 == Step::Package && runs[0].1 == info@
                &&& (*pkg_info matches Some(d) && runs[0].2 is Resolving && d.data().name_view() == Some(
                    spec_module_name(runs[0].2->Resolving_0@.request.target),
                )) ==> (runs.len() == 2 && runs[1].0 == Step::Exports && runs[1].1 == runs[0].2->Resolving_0@
                    && r == runs[1].2)
                &&& !(*pkg_info matches Some(d) && runs[0].2 is Resolving && d.data().name_view() == Some(
                    spec_module_name(runs[0].2->Resolving_0@.request.target),
                )) ==> (runs.len() == 1 && r == runs[0].2)
            },
            first_probe(*old(context), *final(context))->Some_0.1 != Some(FileKind::Dir) ==> {
                let runs = final(context).runs@;
                &&& (*pkg_info matches Some(d) && d.dir()@ == original_dir@ && d.data().name_view() == Some(
                    spec_module_name(info@.request.target),
                )) ==> (runs.len() == 1 && runs[0].0 == Step::Exports && runs[0].1 == info@ && r == runs[0].2)
                &&& !(*pkg_info matches Some(d) && d.dir()@ == original_dir@ && d.data().name_view() == Some(
                    spec_module_name(info@.request.target),
                )) ==> (runs.len() == 0 && passes(r, info@))
            },
        decreases MAX_DEPTH - old(context).depth@, 4int,
    {
        let ghost input = info@;
        if kind_is_dir(self.probe(node_modules_path, context)) {
            let state = self.resolve_node_modules(info, node_modules_path, context);
            let ghost first = (Step::Package, input, state);
            let info = match state {
                State::Resolving(info) => info,
                _ => {
                    proof {
                        context.runs@ = seq![first];
                    }
                    return state;
                },
            };
            let ghost next = info@;
            match pkg_info {
                Some(pkg) => {
                    let name = get_module_name_from_request(info.request().target());
                    if is_resolve_self(pkg, name.as_str()) {
                        let state = self.exports_field_apply(pkg, info, context);
                        proof {
                            context.runs@ = seq![first, (Step::Exports, next, state)];
                        }
                        state
                    } else {
                        proof {
                            context.runs@ = seq![first];
                        }
                        State::Resolving(info)
                    }
                },
                None => {
                    proof {
                        context.runs@ = seq![first];
                    }
                    State::Resolving(info)
                },
            }
        } else {
            let exports = match pkg_info {
                Some(pkg) => str_eq(pkg.dir_path().as_str(), original_dir) && is_resolve_self(
                    pkg,
                    get_module_name_from_request(info.request().target()).as_str(),
                ),
                None => false,
            };
            if exports {
                match pkg_info {
                    Some(pkg) => {
                        let state = self.exports_field_apply(pkg, info, context);
                        proof {
                            context.runs@ = seq![(Step::Exports, input, state)];
                        }
                        state
                    },
                    None => {
                        proof {
                            context.runs@ = Seq::empty();
                        }
                        State::Resolving(info)
                    },
                }
            } else {
                proof {
                    context.runs@ = Seq::empty();
                }
                State::Resolving(info)
            }
        }
    }

    /// The request as a module in a modules directory: a file, or a package
    /// directory with its fields, then as a path.
    #[verifier::rlimit(60)]
    fn resolve_node_modules(&self, info: Info, node_modules_path: &str, context: &mut Context) -> (r: State)
        requires
            can_step(*old(context), info@),
            is_absolute(node_modules_path@),
        ensures
            step_done(*old(context), *final(context), r),
            first_probe(*old(context), *final(context)) matches Some(answer) && answer.0 == spec_join(
                node_modules_path@,
                spec_module_name(info@.request.target),
            ),
            first_probe(*old(context), *final(context))->Some_0.1 != Some(FileKind::Dir) ==> {
                let runs = final(context).runs@;
                &&& runs.len() == 1 && runs[0].0 == Step::AsFile
                &&& runs[0].1 == (InfoView { path: spec_normalized(node_modules_path@), request: info@.request })
                &&& r == if finished(runs[0].2) {
                    runs[0].2
                } else {
                    State::Resolving(info)
                }
            },
            first_probe(*old(context), *final(context))->Some_0.1 == Some(FileKind::Dir) ==> (r is Error
                && final(context).runs@.len() == 0) || (package_chain(
                final(context).runs@,
                InfoView { path: spec_normalized(node_modules_path@), request: info@.request },
            ) && r == as_dir_passes_failure(final(context).runs@.last())),
        decreases MAX_DEPTH - old(context).depth@, 3int,
    {
        let request_module_name = get_module_name_from_request(info.request().target());
        let package_path = join_path(node_modules_path, request_module_name.as_str());
        proof {
            lemma_join_absolute(node_modules_path@, request_module_name@);
        }
        let module_info = Info::new(node_modules_path, info.request().duplicate());
        let ghost module_view = module_info@;
        let package_kind = self.probe(package_path.as_str(), context);
        if !kind_is_dir(package_kind) {
            let state = self.resolve_as_file(module_info, context);
            proof {
                context.runs@ = seq![(Step::AsFile, module_view, state)];
            }
            return if state.is_finished() {
                state
            } else {
                State::Resolving(info)
            };
        }
        let pkg_info = match self.pkg_info_in(package_path.as_str(), context) {
            Ok(pkg_info) => pkg_info,
            Err(err) => {
                proof {
                    context.runs@ = Seq::empty();
                }
                return State::Error(err);
            },
        };
        let ghost mut mine: Seq<(Step, InfoView, State)> = Seq::empty();
        let state = match &pkg_info {
            Some(pkg) => {
                let out_node_modules = str_eq(pkg.dir_path().as_str(), info.normalized_path().as_str());
                let next = if !out_node_modules || is_resolve_self(pkg, request_module_name.as_str()) {
                    let state = self.exports_field_apply(pkg, module_info, context);
                    proof {
                        mine = mine.push((Step::Exports, module_view, state));
                    }
                    match state {
                        State::Resolving(next) => next,
                        _ => {
                            proof {
                                context.runs@ = mine;
                            }
                            return state;
                        },
                    }
                } else {
                    module_info
                };
                let ghost input = next@;
                let state = self.imports_field_apply(next, pkg, context);
                proof {
                    mine = mine.push((Step::Imports, input, state));
                }
                let next = match state {
                    State::Resolving(next) => next,
                    _ => {
                        proof {
                            context.runs@ = mine;
                        }
                        return state;
                    },
                };
                let ghost input = next@;
                let state = self.main_field_apply(next, pkg, context);
                proof {
                    mine = mine.push((Step::MainField, input, state));
                }
                let next = match state {
                    State::Resolving(next) => next,
                    _ => {
                        proof {
                            context.runs@ = mine;
                        }
                        return state;
                    },
                };
                let ghost input = next@;
                let state = self.browser_field_apply(next, pkg, true, context);
                proof {
                    mine = mine.push((Step::Browser, input, state));
                }
                state
            },
            None => State::Resolving(module_info),
        };
        let next = match state {
            State::Resolving(next) => next,
            _ => {
                proof {
                    context.runs@ = mine;
                }
                return state;
            },
        };
        let ghost input = next@;
        let state = self.resolve_as_context(next, context);
        proof {
            mine = mine.push((Step::AsContext, input, state));
        }
        let next = match state {
            State::Resolving(next) => next,
            _ => {
                proof {
                    context.runs@ = mine;
                }
                return state;
            },
        };
        let ghost input = next@;
        let state = self.resolve_as_fully_specified(next, context);
        proof {
            mine = mine.push((Step::FullySpecified, input, state));
        }
        let next = match state {
            State::Resolving(next) => next,
            _ => {
                proof {
                    context.runs@ = mine;
                }
                return state;
            },
        };
        let ghost input = next@;
        let state = self.resolve_as_file(next, context);
        proof {
            mine = mine.push((Step::AsFile, input, state));
        }
        let next = match state {
            State::Resolving(next) => next,
            _ => {
                proof {
                    context.runs@ = mine;
                }
                return state;
            },
        };
        let ghost input = next@;
        let state = self.resolve_as_dir(next, context);
        proof {
            mine = mine.push((Step::AsDir, input, state));
            context.runs@ = mine;
        }
        match state {
            State::Failed(info) => State::Resolving(info),
            _ => state,
        }
    }
}

} // verus!
