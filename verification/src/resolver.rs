use vstd::prelude::*;

use crate::context::Context;
use crate::error::Error;
use crate::info::{spec_resolved_path, Info, InfoView};
use crate::kind::PathKind;
use crate::options::{texts, EnforceExtension, ResolverOptions};
use crate::parse::Request;
use crate::resource::Resource;
use crate::path::is_absolute;

verus! {

/// What a path on the file system is.
#[derive(Debug, Clone, Copy, PartialEq, Eq, Structural)]
pub enum FileKind {
    File,
    Dir,
    Other,
}

/// The file system a resolver reads, implemented by the caller.
pub trait FileSystem {
    fn read_to_string(&self, path: &str) -> Result<String, std::io::Error>;

    fn read_link(&self, path: &str) -> Result<String, std::io::Error>;

    fn metadata(&self, path: &str) -> Result<FileKind, std::io::Error>;

    fn canonicalize(&self, path: &str) -> Result<String, std::io::Error>;
}

/// A resolved resource, or a request that an alias ignores.
#[derive(Debug)]
pub enum ResolveResult<T> {
    Resource(T),
    Ignored,
}

/// The steps of a resolution, as recorded among the runs of the step that ran
/// them: `Resolve` is a whole nested resolution, with whether it was started to
/// take its request as fully specified.
pub enum Step {
    Resolve(bool),
    Parse,
    Alias,
    PreferRelative,
    Imports,
    Browser,
    AsContext,
    FullySpecified,
    AsFile,
    AsDir,
    AsModules,
    NodeModules,
    Package,
    Exports,
    MainField,
    MainFile,
    Fallback,
    Symlink,
    TsConfig,
    ExtensionAlias,
}

/// Where a resolution step leaves a request.
#[derive(Debug)]
pub enum State {
    Success(ResolveResult<Info>),
    Resolving(Info),
    /// Stops the whole resolution.
    Error(Error),
    /// This way failed; the caller may try another.
    Failed(Info),
}

impl State {
    pub fn is_resolving(&self) -> (r: bool)
        ensures
            r == self is Resolving,
    {
        match self {
            State::Resolving(_) => true,
            _ => false,
        }
    }

    pub fn is_finished(&self) -> (r: bool)
        ensures
            r == (self is Success || self is Error),
    {
        match self {
            State::Success(_) | State::Error(_) => true,
            _ => false,
        }
    }
}

/// The steps of a resolution never nest deeper than this.
pub const MAX_DEPTH: u16 = 127;

/// What a step may do to the context: the flags come back as they were, and the
/// depth too unless the step ends in an error.
pub open spec fn context_kept(before: Context, after: Context, s: State) -> bool {
    &&& started_kept(before, after)
    &&& probes_kept(before, after)
    &&& after.links == before.links
    &&& texts_kept(before, after)
    &&& descriptions_kept(before, after)
    &&& after.fully_specified@ == before.fully_specified@
    &&& after.resolve_to_context@ == before.resolve_to_context@
    &&& after.depth@ >= before.depth@
    &&& (!(s is Error) ==> after.depth@ == before.depth@)
}

/// A state whose paths are absolute, whose resource has nothing left to resolve,
/// and whose error is not an I/O error: what cannot be read is not there.
pub open spec fn state_wf(s: State) -> bool {
    match s {
        State::Success(ResolveResult::Resource(i)) => is_absolute(i@.path) && i@.request.target.len() == 0,
        State::Success(ResolveResult::Ignored) => true,
        State::Resolving(i) => is_absolute(i@.path),
        State::Failed(i) => is_absolute(i@.path),
        State::Error(e) => !(e is Io),
    }
}

/// The nested resolutions recorded before a step are still recorded, in the
/// same order, after it.
pub open spec fn started_kept(before: Context, after: Context) -> bool {
    &&& before.started@.len() <= after.started@.len()
    &&& forall|k: int| 0 <= k < before.started@.len() ==> #[trigger] after.started@[k] == before.started@[k]
}

/// The answers of the file system recorded before a step are still recorded, in
/// the same order, after it.
pub open spec fn probes_kept(before: Context, after: Context) -> bool {
    &&& before.probes@.len() <= after.probes@.len()
    &&& forall|k: int| 0 <= k < before.probes@.len() ==> #[trigger] after.probes@[k] == before.probes@[k]
}

/// The tsconfig texts read before a step are still recorded, in the same order,
/// after it.
pub open spec fn texts_kept(before: Context, after: Context) -> bool {
    &&& before.texts@.len() <= after.texts@.len()
    &&& forall|k: int| 0 <= k < before.texts@.len() ==> #[trigger] after.texts@[k] == before.texts@[k]
}

/// The directories searched for description files before a step are still
/// recorded, in the same order, after it.
pub open spec fn descriptions_kept(before: Context, after: Context) -> bool {
    &&& before.descriptions@.len() <= after.descriptions@.len()
    &&& forall|k: int|
        0 <= k < before.descriptions@.len() ==> #[trigger] after.descriptions@[k] == before.descriptions@[k]
}

/// The first answer of the file system that a step recorded: a path and its kind.
pub open spec fn first_probe(before: Context, after: Context) -> Option<(Seq<char>, Option<FileKind>)> {
    if before.probes@.len() < after.probes@.len() {
        Some(after.probes@[before.probes@.len() as int])
    } else {
        None
    }
}

/// Every answer a step recorded says that its path is not a file.
pub open spec fn no_file_probed(before: Context, after: Context) -> bool {
    forall|k: int|
        before.probes@.len() <= k < after.probes@.len() ==> #[trigger] after.probes@[k].1 != Some(FileKind::File)
}

/// The step found the path of the last answer it recorded, which says that the
/// path is a file; the answers before it say that theirs are not.
pub open spec fn found_last_probed(r: State, before: Context, after: Context) -> bool {
    let n = after.probes@.len();
    &&& before.probes@.len() < n
    &&& after.probes@[n - 1].1 == Some(FileKind::File)
    &&& forall|k: int| before.probes@.len() <= k < n - 1 ==> #[trigger] after.probes@[k].1 != Some(FileKind::File)
    &&& r matches State::Success(ResolveResult::Resource(found)) && found@.path == crate::path::spec_normalized(
        after.probes@[n - 1].0,
    )
}

/// The first answer a step recorded is about `path`.
pub open spec fn first_probed(before: Context, after: Context, path: Seq<char>) -> bool {
    first_probe(before, after) matches Some(answer) && answer.0 == path
}

/// The first nested resolution that a step started was of `info`.
pub open spec fn first_started(before: Context, after: Context, info: InfoView) -> bool {
    before.started@.len() < after.started@.len() && after.started@[before.started@.len() as int] == info
}

/// The step started no nested resolution.
pub open spec fn none_started(before: Context, after: Context) -> bool {
    after.started@ == before.started@
}

/// The context as it was: same depth, same flags, and the nested resolutions
/// recorded before still there.
pub open spec fn same_context(a: Context, b: Context) -> bool {
    &&& started_kept(a, b)
    &&& probes_kept(a, b)
    &&& a.links == b.links
    &&& texts_kept(a, b)
    &&& descriptions_kept(a, b)
    &&& a.depth@ == b.depth@
    &&& a.fully_specified@ == b.fully_specified@
    &&& a.resolve_to_context@ == b.resolve_to_context@
}

/// What a step may start from: room for one more nested resolution, and an
/// absolute directory.
pub open spec fn can_step(c: Context, info: InfoView) -> bool {
    c.depth@ < MAX_DEPTH && is_absolute(info.path)
}

/// What every step ends with: a well formed state, the context kept, and a
/// resource found only where the file system said there is one.
pub open spec fn step_done(before: Context, after: Context, s: State) -> bool {
    state_wf(s) && context_kept(before, after, s) && found_recorded(s, before, after)
}

/// A resource that a step found is a path for which an answer of the file system
/// was recorded during the step: that it is a file, or (only when resolving to
/// directories) that it is a directory.
pub open spec fn found_recorded(s: State, before: Context, after: Context) -> bool {
    s matches State::Success(ResolveResult::Resource(found)) ==> exists|k: int|
        #![trigger after.probes@[k]]
        before.probes@.len() <= k < after.probes@.len() && (after.probes@[k].1 == Some(FileKind::File)
            || after.probes@[k].1 == Some(FileKind::Dir)) && found@.path == crate::path::spec_normalized(
            after.probes@[k].0,
        )
}

/// A state that ends the resolution: a success or an error.
pub open spec fn finished(s: State) -> bool {
    s is Success || s is Error
}

/// Each of `runs` is a nested resolution started with `flag` as whether it
/// takes its request as fully specified.
pub open spec fn all_started_as(runs: Seq<(Step, InfoView, State)>, flag: bool) -> bool {
    forall|k: int| 0 <= k < runs.len() ==> #[trigger] runs[k].0 == Step::Resolve(flag)
}

/// The runs, in order, went on while each left the request unfinished: every
/// run but the last gave an unfinished state.
pub open spec fn unfinished_before_last(runs: Seq<(Step, InfoView, State)>) -> bool {
    forall|k: int| 0 <= k < runs.len() - 1 ==> !finished(#[trigger] runs[k].2)
}

/// Nested resolutions tried in order until one finishes: `runs` is a prefix of
/// the resolutions of `tries`, every one but the last unfinished; the result is
/// the last one's state when that finished, and otherwise every one of `tries`
/// was resolved and the result is `otherwise`.
pub open spec fn first_finished(
    r: State,
    runs: Seq<(Step, InfoView, State)>,
    tries: Seq<InfoView>,
    otherwise: State,
) -> bool {
    &&& runs.len() <= tries.len()
    &&& forall|k: int| 0 <= k < runs.len() ==> (#[trigger] runs[k]).0 is Resolve && runs[k].1 == tries[k]
    &&& unfinished_before_last(runs)
    &&& if runs.len() > 0 && finished(runs.last().2) {
        r == runs.last().2
    } else {
        runs.len() == tries.len() && r == otherwise
    }
}

/// Steps run in order, each on what the one before passed on: `runs` holds the
/// first of `steps` run on `input` and then each following one, for as long as
/// the one before passed the request on; when it stops before the last of
/// `steps`, its last run did not pass the request on.
pub open spec fn chain(runs: Seq<(Step, InfoView, State)>, input: InfoView, steps: Seq<Step>) -> bool {
    &&& 0 < runs.len() <= steps.len()
    &&& runs[0].1 == input
    &&& forall|k: int| 0 <= k < runs.len() ==> (#[trigger] runs[k]).0 == steps[k]
    &&& forall|k: int|
        0 <= k < runs.len() - 1 ==> (#[trigger] runs[k]).2 is Resolving && runs[k + 1].1 == runs[k].2->Resolving_0@
    &&& runs.len() < steps.len() ==> !(runs.last().2 is Resolving)
}

/// The steps of one nested resolution, in order: the fragment, the aliases and
/// the preference for relative requests; then, when the request has a
/// description file, its `imports` and `browser` fields; then a path as a
/// directory to resolve to, as a fully specified path, as a file and as a
/// directory, and anything else as a module.
pub open spec fn resolve_chain(runs: Seq<(Step, InfoView, State)>, input: InfoView) -> bool {
    let fields = seq![Step::Parse, Step::Alias, Step::PreferRelative, Step::Imports, Step::Browser];
    let plain = seq![Step::Parse, Step::Alias, Step::PreferRelative];
    let path = seq![Step::AsContext, Step::FullySpecified, Step::AsFile, Step::AsDir];
    let module = seq![Step::AsModules];
    ||| chain(runs, input, fields + path) && (runs.len() > 5 ==> crate::plugin::is_relative_request(runs[5].1.request))
    ||| chain(runs, input, fields + module) && (runs.len() > 5 ==> !crate::plugin::is_relative_request(
        runs[5].1.request,
    ))
    ||| chain(runs, input, plain + path) && (runs.len() > 3 ==> crate::plugin::is_relative_request(runs[3].1.request))
    ||| chain(runs, input, plain + module) && (runs.len() > 3 ==> !crate::plugin::is_relative_request(
        runs[3].1.request,
    ))
}

/// The step let the request pass unchanged.
pub open spec fn passes(s: State, info: InfoView) -> bool {
    s is Resolving && s->Resolving_0@ == info
}

/// A resolver over a file system.
pub struct Resolver<F: FileSystem> {
    pub options: ResolverOptions,
    pub fs: F,
}

impl<F: FileSystem> Resolver<F> {
    /// What kind of path a request target is.
    pub fn get_target_kind(target: &str) -> (r: PathKind)
        ensures
            r == crate::kind::spec_target_kind(target@),
    {
        crate::kind::get_target_kind(&crate::text::chars_of(target))
    }

    /// Parses a request string into target, query and fragment.
    pub fn parse(request: &str) -> (r: Request)
        ensures
            r@ == crate::parse::spec_from_request(request@),
    {
        Request::from_request(request)
    }

    /// One nested resolution of a request in a directory: the fragment, the
    /// aliases and the preference for relative requests first; then the package's
    /// `imports` and `browser` fields; then a path as a file or directory, and
    /// anything else as a module. Nesting deeper than [`MAX_DEPTH`] is an error.
    #[verifier::rlimit(80)]
    pub fn _resolve(&self, info: Info, context: &mut Context) -> (r: State)
        requires
            can_step(*old(context), info@),
        ensures
            step_done(*old(context), *final(context), r),
            first_started(*old(context), *final(context), info@),
            r is Resolving ==> crate::plugin::is_relative_request(r->Resolving_0@.request),
            old(context).depth@ + 1 >= MAX_DEPTH ==> (r matches State::Error(Error::Overflow)
                && final(context).runs@.len() == 0),
            old(context).depth@ + 1 < MAX_DEPTH && crate::plugin::ignored_by_alias(self.options.alias@, info@.request)
                ==> r matches State::Success(ResolveResult::Ignored),
            old(context).depth@ + 1 < MAX_DEPTH ==> (resolve_chain(final(context).runs@, info@) && r
                == final(context).runs@.last().2) || (chain(
                final(context).runs@,
                info@,
                seq![Step::Parse, Step::Alias, Step::PreferRelative],
            ) && final(context).runs@.len() == 3 && final(context).runs@[2].2 is Resolving && r is Error),
            old(context).depth@ + 1 < MAX_DEPTH && final(context).runs@.len() > 3 ==> exists|b: int, e: int|
                #![trigger crate::entry::searched_from(
                    spec_resolved_path(final(context).runs@[2].2->Resolving_0@),
                    self.options.description_file@,
                    final(context).descriptions@,
                    b,
                    e,
                )]
                old(context).descriptions@.len() <= b && crate::entry::searched_from(
                    spec_resolved_path(final(context).runs@[2].2->Resolving_0@),
                    self.options.description_file@,
                    final(context).descriptions@,
                    b,
                    e,
                ) && ((final(context).runs@[3].0 == Step::Imports) == (final(context).descriptions@[e - 1].2 == Some(
                    true,
                ))),
        decreases MAX_DEPTH - old(context).depth@, 0int,
    {
        proof {
            context.started@ = context.started@.push(info@);
        }
        context.depth.increase();
        if context.depth.value() >= MAX_DEPTH {
            proof {
                context.runs@ = Seq::empty();
            }
            return State::Error(Error::Overflow);
        }
        let ghost mut mine: Seq<(Step, InfoView, State)> = Seq::empty();
        let ghost input = info@;
        let state = self.parse_apply(info, context);
        proof {
            mine = mine.push((Step::Parse, input, state));
        }
        let info = match state {
            State::Resolving(info) => info,
            _ => {
                context.depth.decrease();
                proof {
                    context.runs@ = mine;
                }
                return state;
            },
        };
        let ghost input = info@;
        let state = self.alias_apply(&self.options.alias, info, context);
        proof {
            mine = mine.push((Step::Alias, input, state));
        }
        let info = match state {
            State::Resolving(info) => info,
            _ => {
                context.depth.decrease();
                proof {
                    context.runs@ = mine;
                }
                return state;
            },
        };
        let ghost input = info@;
        let state = self.prefer_relative_apply(info, context);
        proof {
            mine = mine.push((Step::PreferRelative, input, state));
        }
        let info = match state {
            State::Resolving(info) => info,
            _ => {
                context.depth.decrease();
                proof {
                    context.runs@ = mine;
                }
                return state;
            },
        };
        let request_path = info.to_resolved_path();
        let ghost sb = context.descriptions@.len() as int;
        let pkg_info = match self.pkg_info_in(request_path.as_str(), context) {
            Ok(pkg_info) => pkg_info,
            Err(error) => {
                proof {
                    context.runs@ = mine;
                }
                return State::Error(error);
            },
        };
        let ghost se = context.descriptions@.len() as int;
        let ghost searched = context.descriptions@;
        let ghost found = pkg_info is Some;
        proof {
            assert(crate::entry::searched_from(request_path@, self.options.description_file@, searched, sb, se));
            assert(found == (searched[se - 1].2 == Some(true)));
        }
        let info = match &pkg_info {
            Some(pkg) => {
                let ghost input = info@;
                let state = self.imports_field_apply(info, pkg, context);
                proof {
                    mine = mine.push((Step::Imports, input, state));
                }
                let info = match state {
                    State::Resolving(info) => info,
                    _ => {
                        context.depth.decrease();
                        proof {
                            context.runs@ = mine;
                            assert(crate::entry::searched_from(request_path@, self.options.description_file@, context.descriptions@, sb, se));
                        }
                        return state;
                    },
                };
                let ghost input = info@;
                let state = self.browser_field_apply(info, pkg, false, context);
                proof {
                    mine = mine.push((Step::Browser, input, state));
                }
                match state {
                    State::Resolving(info) => info,
                    _ => {
                        context.depth.decrease();
                        proof {
                            context.runs@ = mine;
                            assert(crate::entry::searched_from(request_path@, self.options.description_file@, context.descriptions@, sb, se));
                        }
                        return state;
                    },
                }
            },
            None => info,
        };
        let kind = info.request().kind();
        let state = if kind == PathKind::AbsolutePosix || kind == PathKind::AbsoluteWin || kind
            == PathKind::Relative {
            let ghost input = info@;
            let state = self.resolve_as_context(info, context);
            proof {
                mine = mine.push((Step::AsContext, input, state));
            }
            let info = match state {
                State::Resolving(info) => info,
                _ => {
                    context.depth.decrease();
                    proof {
                        context.runs@ = mine;
                        assert(crate::entry::searched_from(request_path@, self.options.description_file@, context.descriptions@, sb, se));
                    }
                    return state;
                },
            };
            let ghost input = info@;
            let state = self.resolve_as_fully_specified(info, context);
            proof {
                mine = mine.push((Step::FullySpecified, input, state));
            }
            let info = match state {
                State::Resolving(info) => info,
                _ => {
                    context.depth.decrease();
                    proof {
                        context.runs@ = mine;
                        assert(crate::entry::searched_from(request_path@, self.options.description_file@, context.descriptions@, sb, se));
                    }
                    return state;
                },
            };
            let ghost input = info@;
            let state = self.resolve_as_file(info, context);
            proof {
                mine = mine.push((Step::AsFile, input, state));
            }
            let info = match state {
                State::Resolving(info) => info,
                _ => {
                    context.depth.decrease();
                    proof {
                        context.runs@ = mine;
                        assert(crate::entry::searched_from(request_path@, self.options.description_file@, context.descriptions@, sb, se));
                    }
                    return state;
                },
            };
            let ghost input = info@;
            let state = self.resolve_as_dir(info, context);
            proof {
                mine = mine.push((Step::AsDir, input, state));
            }
            state
        } else {
            let ghost input = info@;
            let state = self.resolve_as_modules(info, context);
            proof {
                mine = mine.push((Step::AsModules, input, state));
            }
            state
        };
        context.depth.decrease();
        proof {
            context.runs@ = mine;
            assert(crate::entry::searched_from(request_path@, self.options.description_file@, context.descriptions@, sb, se));
        }
        state
    }
}

/// The enforcement of extensions a resolver works with: `Auto` becomes `Enabled`
/// when one of the extensions is empty, `Disabled` otherwise.
pub open spec fn spec_enforce_extension(e: EnforceExtension, extensions: Seq<Seq<char>>) -> EnforceExtension {
    match e {
        EnforceExtension::Auto => if exists|i: int| 0 <= i < extensions.len() && extensions[i].len() == 0 {
            EnforceExtension::Enabled
        } else {
            EnforceExtension::Disabled
        },
        _ => e,
    }
}

/// With `Auto`, a resolver enforces extensions when any one of the extensions,
/// at whatever place in the list, is empty.
pub proof fn law_auto_enforces_with_any_empty_extension(extensions: Seq<Seq<char>>, i: int)
    requires
        0 <= i < extensions.len(),
        extensions[i].len() == 0,
    ensures
        spec_enforce_extension(EnforceExtension::Auto, extensions) == EnforceExtension::Enabled,
{
}

/// With `Auto`, a resolver whose extensions are all non-empty does not enforce
/// them.
pub proof fn law_auto_relaxed_without_empty_extension(extensions: Seq<Seq<char>>)
    requires
        forall|i: int| 0 <= i < extensions.len() ==> #[trigger] extensions[i].len() > 0,
    ensures
        spec_enforce_extension(EnforceExtension::Auto, extensions) == EnforceExtension::Disabled,
{
}

/// An enforcement that is not `Auto` is kept as it was given, whatever the
/// extensions.
pub proof fn law_explicit_enforcement_kept(e: EnforceExtension, extensions: Seq<Seq<char>>)
    requires
        !(e is Auto),
    ensures
        spec_enforce_extension(e, extensions) == e,
{
}

/// The order of the extensions does not decide the enforcement: moving the last
/// one to the front gives the same.
pub proof fn law_enforcement_ignores_extension_order(e: EnforceExtension, extensions: Seq<Seq<char>>)
    requires
        extensions.len() > 0,
    ensures
        spec_enforce_extension(e, extensions) == spec_enforce_extension(
            e,
            seq![extensions.last()] + extensions.drop_last(),
        ),
{
    let moved = seq![extensions.last()] + extensions.drop_last();
    if exists|i: int| 0 <= i < extensions.len() && extensions[i].len() == 0 {
        let i = choose|i: int| 0 <= i < extensions.len() && extensions[i].len() == 0;
        if i == extensions.len() - 1 {
            assert(moved[0] == extensions[i]);
        } else {
            assert(moved[i + 1] == extensions[i]);
        }
    }
    if exists|i: int| 0 <= i < moved.len() && moved[i].len() == 0 {
        let i = choose|i: int| 0 <= i < moved.len() && moved[i].len() == 0;
        if i == 0 {
            assert(extensions[extensions.len() - 1] == moved[i]);
        } else {
            assert(extensions[i - 1] == moved[i]);
        }
    }
}

/// Builds a resolver over a file system.
pub struct ResolverBuilder<F: FileSystem> {
    fs: F,
}

impl<F: FileSystem> ResolverBuilder<F> {
    pub fn new(fs: F) -> (r: Self)
        ensures
            r.file_system() == fs,
    {
        ResolverBuilder { fs }
    }

    pub closed spec fn file_system(&self) -> F {
        self.fs
    }

    /// The resolver with these options, `Auto` enforcement of extensions settled.
    pub fn build(self, options: ResolverOptions) -> (r: Resolver<F>)
        ensures
            r.fs == self.file_system(),
            r.options == (ResolverOptions {
                enforce_extension: spec_enforce_extension(options.enforce_extension, texts(options.extensions@)),
                ..options
            }),
    {
        let enforce_extension = match options.enforce_extension {
            EnforceExtension::Auto => {
                let mut any_empty = false;
                let mut i: usize = 0;
                while i < options.extensions.len()
                    invariant
                        i <= options.extensions@.len(),
                        any_empty == exists|k: int| 0 <= k < i && texts(options.extensions@)[k].len() == 0,
                    decreases options.extensions@.len() - i,
                {
                    assert(texts(options.extensions@)[i as int] == options.extensions@[i as int]@);
                    if options.extensions[i].as_str().is_empty() {
                        any_empty = true;
                    }
                    i = i + 1;
                }
                if any_empty {
                    EnforceExtension::Enabled
                } else {
                    EnforceExtension::Disabled
                }
            },
            other => other,
        };
        Resolver { options: ResolverOptions { enforce_extension, ..options }, fs: self.fs }
    }
}

/// The path a resolution returned is one that the file system said is a file (or
/// a directory, when resolving to directories), in an answer recorded during the
/// resolution; when symbolic links are followed, it is the real path of that one
/// by the answers about links recorded after it.
pub open spec fn resolved_from_answers(found: Seq<char>, symlinks: bool, before: Context, after: Context) -> bool {
    exists|k: int|
        #![trigger after.probes@[k]]
        before.probes@.len() <= k < after.probes@.len() && (after.probes@[k].1 == Some(FileKind::File)
            || after.probes@[k].1 == Some(FileKind::Dir)) && if symlinks {
            crate::plugin::links_lead(
                found,
                crate::path::spec_normalized(after.probes@[k].0),
                before.links@.len() as int,
                after,
            )
        } else {
            found == crate::path::spec_normalized(after.probes@[k].0)
        }
}

/// What a resolution gives for its last state: an ignored request, the resource
/// found (or an error reading its description file), the error, or a failure.
pub open spec fn result_of(s: State, r: Result<ResolveResult<Resource>, Error>) -> bool {
    match s {
        State::Success(ResolveResult::Ignored) => r matches Ok(ResolveResult::Ignored),
        State::Success(ResolveResult::Resource(i)) => (r matches Ok(ResolveResult::Resource(res)) && res.path@
            == i@.path && crate::resource::opt_view(res.query) == crate::rules::non_empty(
            crate::parse::opt_text(i@.request.query),
        ) && crate::resource::opt_view(res.fragment) == crate::rules::non_empty(
            crate::parse::opt_text(i@.request.fragment),
        )) || r matches Err(Error::UnexpectedJson(_)),
        State::Error(e) => r == Err::<ResolveResult<Resource>, Error>(e),
        _ => r matches Err(Error::ResolveFailedTag),
    }
}

/// The runs of a whole resolution: the request resolved (through the tsconfig
/// when one is given); when that fails, the fallback aliases on what failed;
/// when a resource is found, its real path; the result is what the last of these
/// gave.
pub open spec fn resolution_runs(
    runs: Seq<(Step, InfoView, State)>,
    input: InfoView,
    through_tsconfig: bool,
    r: Result<ResolveResult<Resource>, Error>,
) -> bool {
    let first = runs[0].2;
    let after_fallback = if first is Failed {
        runs[1].2
    } else {
        first
    };
    let k = if first is Failed {
        2int
    } else {
        1int
    };
    let last = if after_fallback matches State::Success(ResolveResult::Resource(_)) {
        runs[k].2
    } else {
        after_fallback
    };
    &&& runs.len() >= 1
    &&& (if through_tsconfig {
        runs[0].0 == Step::TsConfig
    } else {
        runs[0].0 is Resolve
    }) && runs[0].1 == input
    &&& first is Failed ==> runs.len() >= 2 && runs[1].0 == Step::Fallback && runs[1].1 == first->Failed_0@
    &&& after_fallback matches State::Success(ResolveResult::Resource(i)) ==> runs.len() == k + 1 && runs[k].0
        == Step::Symlink && runs[k].1 == i@
    &&& !(after_fallback matches State::Success(ResolveResult::Resource(_))) ==> runs.len() == k
    &&& result_of(last, r)
}

impl<F: FileSystem> Resolver<F> {
    /// Resolves `request` in the directory `path`: the resolution itself (through
    /// the tsconfig paths when one is given), the fallback aliases when it fails,
    /// then the real path of what it found. `path` is absolute: every directory a
    /// resolution walks up from, and every path it finds, is an absolute one (a
    /// relative directory fails when links are followed, the default).
    pub fn resolve(&self, path: &str, request: &str) -> (r: Result<ResolveResult<Resource>, Error>)
        requires
            is_absolute(path@),
            self.options.tsconfig matches Some(location) ==> is_absolute(location@),
        ensures
            r matches Ok(ResolveResult::Resource(res)) ==> is_absolute(res.path@),
            r matches Ok(ResolveResult::Resource(res)) ==> (res.description matches Some(d) ==> is_absolute(
                d.dir()@,
            )),
            r matches Ok(ResolveResult::Resource(res)) ==> (res.query matches Some(q) ==> q@.len() > 0),
            r matches Ok(ResolveResult::Resource(res)) ==> (res.fragment matches Some(f) ==> f@.len() > 0),
            r matches Err(e) ==> !(e is Io),
            self.options.tsconfig is None && crate::plugin::ignored_by_alias(
                self.options.alias@,
                crate::parse::spec_from_request(request@),
            ) ==> r matches Ok(ResolveResult::Ignored),
    {
        let mut context = Context::new(self.options.fully_specified, self.options.resolve_to_context);
        self.resolve_in(path, request, &mut context)
    }

    /// Resolves `request` in the directory `path` with the answers of the file
    /// system recorded in `context`: what is found is a path that the file system
    /// said is a file (or its real path, when links are followed).
    pub fn resolve_in(&self, path: &str, request: &str, context: &mut Context) -> (r: Result<
        ResolveResult<Resource>,
        Error,
    >)
        requires
            is_absolute(path@),
            self.options.tsconfig matches Some(location) ==> is_absolute(location@),
            old(context).depth@ == 0,
        ensures
            r matches Ok(ResolveResult::Resource(res)) ==> is_absolute(res.path@),
            r matches Ok(ResolveResult::Resource(res)) ==> (res.description matches Some(d) ==> is_absolute(
                d.dir()@,
            )),
            r matches Ok(ResolveResult::Resource(res)) ==> (res.query matches Some(q) ==> q@.len() > 0),
            r matches Ok(ResolveResult::Resource(res)) ==> (res.fragment matches Some(f) ==> f@.len() > 0),
            r matches Ok(ResolveResult::Resource(res)) ==> resolved_from_answers(
                res.path@,
                self.options.symlinks,
                *old(context),
                *final(context),
            ),
            r matches Err(e) ==> !(e is Io),
            self.options.tsconfig is None && crate::plugin::ignored_by_alias(
                self.options.alias@,
                crate::parse::spec_from_request(request@),
            ) ==> r matches Ok(ResolveResult::Ignored),
            self.options.tsconfig is None ==> first_started(
                *old(context),
                *final(context),
                InfoView { path: crate::path::spec_normalized(path@), request: crate::parse::spec_from_request(request@) },
            ),
            resolution_runs(
                final(context).runs@,
                InfoView { path: crate::path::spec_normalized(path@), request: crate::parse::spec_from_request(request@) },
                self.options.tsconfig is Some,
                r,
            ),
            self.options.tsconfig matches Some(location) ==> final(context).texts@[old(context).texts@.len() as int]
                == (location@, None::<Seq<char>>) ==> (r matches Err(Error::CantFindTsConfig(p)) && p@ == location@),
    {
        let parsed = Request::from_request(request);
        let info = Info::new(path, parsed);
        let ghost input = info@;
        let ghost flag = context.fully_specified@;
        let result = match &self.options.tsconfig {
            Some(location) => {
                let state = self._resolve_with_tsconfig(info, location.as_str(), context);
                state
            },
            None => self._resolve(info, context),
        };
        let ghost mut mine: Seq<(Step, InfoView, State)> = seq![
            (if self.options.tsconfig is Some { Step::TsConfig } else { Step::Resolve(flag) }, input, result),
        ];
        let result = match result {
            State::Failed(info) => {
                let ghost failed = info@;
                let state = self.alias_apply(&self.options.fallback, info, context);
                proof {
                    mine = mine.push((Step::Fallback, failed, state));
                }
                state
            },
            other => other,
        };
        let result = match result {
            State::Success(ResolveResult::Resource(info)) => {
                let ghost found = info@;
                let state = self.symlink_apply(info, context);
                proof {
                    mine = mine.push((Step::Symlink, found, state));
                }
                state
            },
            other => other,
        };
        proof {
            context.runs@ = mine;
        }
        match result {
            State::Success(ResolveResult::Ignored) => Ok(ResolveResult::Ignored),
            State::Success(ResolveResult::Resource(info)) => match Resource::new(info, self) {
                Ok(resource) => Ok(ResolveResult::Resource(resource)),
                Err(e) => Err(e),
            },
            State::Error(err) => Err(err),
            _ => Err(Error::ResolveFailedTag),
        }
    }
}

} // verus!
