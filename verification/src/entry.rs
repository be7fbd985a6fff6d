use vstd::prelude::*;

use crate::description::{spec_alias_fields, spec_pkg_name, DescriptionData, PkgJSON};
use crate::context::Context;
use crate::error::Error;
use crate::json::parsed_json;
use crate::path::{
    ends_with_component, nth_parent, is_absolute, is_absolute_path, join_path, lemma_join_absolute, lemma_parent,
    parent_path, path_ends_with, spec_join, spec_normalized, spec_parent,
};
use crate::resolver::{FileKind, FileSystem, Resolver};

verus! {

/// The description data in the file at `path`, given what reading that file gave:
/// a read error stays an I/O error, text that is not JSON is an `UnexpectedJson`
/// error, and JSON gives the description of the file's directory.
pub fn description_of(content: Result<String, std::io::Error>, path: &str) -> (r: Result<
    DescriptionData,
    Error,
>)
    requires
        is_absolute(path@),
        spec_parent(path@) is Some,
    ensures
        content is Err ==> r matches Err(Error::Io(_)),
        content matches Ok(s) ==> (r is Ok <==> parsed_json(s@) is Some),
        content is Ok && r is Err ==> (r matches Err(Error::UnexpectedJson((p, _))) && p@ == path@),
        r matches Ok(d) ==> {
            &&& Some(d.data().raw_view()) == parsed_json(content->Ok_0@)
            &&& d.data().name_view() == spec_pkg_name(d.data().raw_view())
            &&& d.data().aliases() == spec_alias_fields(d.data().raw_view())
            &&& d.dir()@ == spec_normalized(spec_parent(path@)->Some_0)
            &&& is_absolute(d.dir()@)
        },
{
    let text = match content {
        Ok(text) => text,
        Err(e) => {
            return Err(Error::Io(e));
        },
    };
    let json = match PkgJSON::parse(text.as_str(), path) {
        Ok(json) => json,
        Err(e) => {
            return Err(e);
        },
    };
    proof {
        lemma_parent(path@);
    }
    let dir = match parent_path(path) {
        Some(dir) => dir,
        None => vstd::pervasive::unreached(),
    };
    Ok(DescriptionData::new(json, dir.as_str()))
}

/// What a path is, given what reading its metadata gave: `None` when it could not
/// be read.
pub fn kind_of(metadata: Result<FileKind, std::io::Error>) -> (r: Option<FileKind>)
    ensures
        match metadata {
            Ok(k) => r == Some(k),
            Err(_) => r is None,
        },
{
    match metadata {
        Ok(kind) => Some(kind),
        Err(_) => None,
    }
}

/// A path of this kind is a file.
pub fn kind_is_file(kind: Option<FileKind>) -> (r: bool)
    ensures
        r == (kind == Some(FileKind::File)),
{
    match kind {
        Some(FileKind::File) => true,
        _ => false,
    }
}

/// A path of this kind is a directory.
pub fn kind_is_dir(kind: Option<FileKind>) -> (r: bool)
    ensures
        r == (kind == Some(FileKind::Dir)),
{
    match kind {
        Some(FileKind::Dir) => true,
        _ => false,
    }
}

/// A path of this kind exists.
pub fn kind_exists(kind: Option<FileKind>) -> (r: bool)
    ensures
        r == kind is Some,
{
    match kind {
        Some(_) => true,
        None => false,
    }
}

/// The real path of a link, given what asking for it gave: kept when it is
/// absolute, `None` otherwise.
pub fn absolute_real_path(canonical: Result<String, std::io::Error>) -> (r: Option<String>)
    ensures
        match canonical {
            Ok(p) => if is_absolute(p@) {
                r matches Some(q) && q@ == p@
            } else {
                r is None
            },
            Err(_) => r is None,
        },
{
    match canonical {
        Ok(target) => {
            if is_absolute_path(target.as_str()) {
                Some(target)
            } else {
                None
            }
        },
        Err(_) => None,
    }
}

/// The description file looked for at `dir`: `dir` itself when it names one,
/// else the file of that name inside it.
pub open spec fn spec_description_path(dir: Seq<char>, description_file: Seq<char>) -> Seq<char> {
    if ends_with_component(dir, description_file) {
        dir
    } else {
        spec_join(dir, description_file)
    }
}

/// The description file looked for at `dir`.
pub fn description_path(dir: &str, description_file: &str) -> (r: String)
    ensures
        r@ == spec_description_path(dir@, description_file@),
{
    if path_ends_with(dir, description_file) {
        dir.to_owned()
    } else {
        join_path(dir, description_file)
    }
}

/// What was recorded of a directory searched for its description file: it was
/// asked what it is exactly when it is not named like the file, and the file was
/// read exactly when the directory is named like it or is a directory (and the
/// file's path has a parent); `Some(true)` records a description that was read,
/// `Some(false)` a file that could not be read or is not JSON.
pub open spec fn description_answered(
    entry: (Seq<char>, Option<FileKind>, Option<bool>),
    description_file: Seq<char>,
) -> bool {
    let named = ends_with_component(entry.0, description_file);
    &&& named ==> entry.1 is None
    &&& entry.2 is Some ==> (named || entry.1 == Some(FileKind::Dir))
    &&& (named || entry.1 == Some(FileKind::Dir)) && spec_parent(spec_description_path(entry.0, description_file))
        is Some ==> entry.2 is Some
}

/// The search for the description file of `path` by the answers it recorded:
/// `path` and then each ancestor in turn, up to the first whose description file
/// could be read, which is the one found; none is found only when the search
/// reached the root without one.
pub open spec fn description_search(
    r: Result<Option<DescriptionData>, Error>,
    path: Seq<char>,
    description_file: Seq<char>,
    before: Context,
    after: Context,
) -> bool {
    let b = before.descriptions@.len();
    let n = after.descriptions@.len();
    &&& b <= n
    &&& forall|k: int| 0 <= k < b ==> #[trigger] after.descriptions@[k] == before.descriptions@[k]
    &&& forall|k: int| b <= k < n ==> nth_parent(path, (k - b) as nat) == Some(#[trigger] after.descriptions@[k].0)
    &&& forall|k: int| b <= k < n ==> description_answered(#[trigger] after.descriptions@[k], description_file)
    &&& forall|k: int| b <= k < n - 1 ==> #[trigger] after.descriptions@[k].2 != Some(true)
    &&& match r {
        Ok(None) => b < n && after.descriptions@[n - 1].2 != Some(true) && spec_parent(after.descriptions@[n - 1].0)
            is None,
        Ok(Some(d)) => b < n && after.descriptions@[n - 1].2 == Some(true) && d.dir()@ == spec_normalized(
            spec_parent(spec_description_path(after.descriptions@[n - 1].0, description_file))->Some_0,
        ),
        Err(_) => true,
    }
}

/// The entries `b` up to `e` of `descriptions` are a whole search for the
/// description file of `path`: `path` and then each ancestor in turn, up to the
/// first whose description file could be read (the one found) or up to the root.
pub open spec fn searched_from(
    path: Seq<char>,
    description_file: Seq<char>,
    descriptions: Seq<(Seq<char>, Option<FileKind>, Option<bool>)>,
    b: int,
    e: int,
) -> bool {
    &&& 0 <= b < e <= descriptions.len()
    &&& forall|k: int| b <= k < e ==> nth_parent(path, (k - b) as nat) == Some(#[trigger] descriptions[k].0)
    &&& forall|k: int| b <= k < e ==> description_answered(#[trigger] descriptions[k], description_file)
    &&& forall|k: int| b <= k < e - 1 ==> #[trigger] descriptions[k].2 != Some(true)
    &&& descriptions[e - 1].2 == Some(true) || spec_parent(descriptions[e - 1].0) is None
}

impl<F: FileSystem> Resolver<F> {
    /// What `path` is on the file system; `None` when its metadata cannot be read.
    pub fn stat(&self, path: &str) -> (r: Option<FileKind>) {
        kind_of(self.fs.metadata(path))
    }

    /// What `path` is on the file system, the answer recorded in the context.
    pub fn probe(&self, path: &str, context: &mut Context) -> (r: Option<FileKind>)
        ensures
            final(context).probes@ == old(context).probes@.push((path@, r)),
            final(context).started == old(context).started,
            final(context).links == old(context).links,
            final(context).descriptions == old(context).descriptions,
            final(context).texts == old(context).texts,
            final(context).depth == old(context).depth,
            final(context).fully_specified == old(context).fully_specified,
            final(context).resolve_to_context == old(context).resolve_to_context,
    {
        let kind = self.stat(path);
        proof {
            context.probes@ = context.probes@.push((path@, kind));
        }
        kind
    }

    /// Whether the file system says `path` is a file. Its answer is the caller's
    /// file system's and is not recorded: [`Resolver::probe`] records it.
    pub fn is_file(&self, path: &str) -> (r: bool) {
        kind_is_file(self.stat(path))
    }

    /// Whether the file system says `path` is a directory (not recorded).
    pub fn is_dir(&self, path: &str) -> (r: bool) {
        kind_is_dir(self.stat(path))
    }

    /// Whether the file system says there is something at `path` (not recorded).
    pub fn path_exists(&self, path: &str) -> (r: bool) {
        kind_exists(self.stat(path))
    }

    /// Reads and parses the description file at `path`.
    pub fn read_description_file(&self, path: &str) -> (r: Result<DescriptionData, Error>)
        requires
            is_absolute(path@),
            spec_parent(path@) is Some,
        ensures
            r matches Err(e) ==> e is Io || e is UnexpectedJson,
            r matches Err(Error::UnexpectedJson((p, _))) ==> p@ == path@,
            r matches Ok(d) ==> is_absolute(d.dir()@) && d.dir()@ == spec_normalized(
                spec_parent(path@)->Some_0,
            ),
    {
        let content = self.fs.read_to_string(path);
        description_of(content, path)
    }

    /// The description file that governs `path`: the one in `path` itself when it
    /// is a directory (or `path` when it names such a file), else the one of the
    /// nearest ancestor that has one. A description file that is not JSON is an
    /// error.
    pub fn pkg_info(&self, path: &str) -> (r: Result<Option<DescriptionData>, Error>)
        requires
            is_absolute(path@),
        ensures
            r matches Err(e) ==> e is UnexpectedJson,
            r matches Err(Error::UnexpectedJson((p, _))) ==> exists|n: nat|
                #[trigger] nth_parent(path@, n) is Some && p@ == spec_description_path(
                    nth_parent(path@, n)->Some_0,
                    self.options.description_file@,
                ),
            r matches Ok(Some(d)) ==> is_absolute(d.dir()@),
            r matches Ok(Some(d)) ==> exists|n: nat|
                #[trigger] nth_parent(path@, n) is Some && d.dir()@ == spec_normalized(
                    spec_parent(
                        spec_description_path(nth_parent(path@, n)->Some_0, self.options.description_file@),
                    )->Some_0,
                ),
    {
        let mut context = Context::new(false, false);
        self.pkg_info_in(path, &mut context)
    }

    /// The description file that governs `path` (as [`Resolver::pkg_info`]),
    /// with what the file system said of each directory searched recorded in
    /// `context`.
    pub fn pkg_info_in(&self, path: &str, context: &mut Context) -> (r: Result<Option<DescriptionData>, Error>)
        requires
            is_absolute(path@),
        ensures
            r matches Err(e) ==> e is UnexpectedJson,
            r matches Err(Error::UnexpectedJson((p, _))) ==> exists|n: nat|
                #[trigger] nth_parent(path@, n) is Some && p@ == spec_description_path(
                    nth_parent(path@, n)->Some_0,
                    self.options.description_file@,
                ),
            description_search(r, path@, self.options.description_file@, *old(context), *final(context)),
            final(context).started == old(context).started,
            final(context).probes == old(context).probes,
            final(context).links == old(context).links,
            final(context).texts == old(context).texts,
            final(context).depth == old(context).depth,
            final(context).fully_specified == old(context).fully_specified,
            final(context).resolve_to_context == old(context).resolve_to_context,
            r matches Ok(Some(d)) ==> is_absolute(d.dir()@),
            r matches Ok(Some(d)) ==> exists|n: nat|
                #[trigger] nth_parent(path@, n) is Some && d.dir()@ == spec_normalized(
                    spec_parent(
                        spec_description_path(nth_parent(path@, n)->Some_0, self.options.description_file@),
                    )->Some_0,
                ),
    {
        let mut cur = path.to_owned();
        let ghost mut n: nat = 0;
        let ghost b = context.descriptions@.len();
        loop
            invariant
                is_absolute(cur@),
                nth_parent(path@, n) == Some(cur@),
                b == old(context).descriptions@.len(),
                context.descriptions@.len() == b + n,
                forall|k: int| 0 <= k < b ==> #[trigger] context.descriptions@[k] == old(context).descriptions@[k],
                forall|k: int|
                    b <= k < context.descriptions@.len() ==> nth_parent(path@, (k - b) as nat) == Some(
                        #[trigger] context.descriptions@[k].0,
                    ),
                forall|k: int|
                    b <= k < context.descriptions@.len() ==> description_answered(
                        #[trigger] context.descriptions@[k],
                        self.options.description_file@,
                    ) && context.descriptions@[k].2 != Some(true),
                context.started == old(context).started,
                context.probes == old(context).probes,
                context.links == old(context).links,
                context.texts == old(context).texts,
                context.depth == old(context).depth,
                context.fully_specified == old(context).fully_specified,
                context.resolve_to_context == old(context).resolve_to_context,
            decreases cur@.len(),
        {
            let is_pkg_suffix = path_ends_with(cur.as_str(), self.options.description_file.as_str());
            let kind = if is_pkg_suffix {
                None
            } else {
                self.stat(cur.as_str())
            };
            let mut read: Option<bool> = None;
            if is_pkg_suffix || kind_is_dir(kind) {
                let pkg_path = description_path(cur.as_str(), self.options.description_file.as_str());
                proof {
                    lemma_join_absolute(cur@, self.options.description_file@);
                    lemma_parent(pkg_path@);
                }
                if parent_path(pkg_path.as_str()).is_some() {
                    match self.read_description_file(pkg_path.as_str()) {
                        Ok(info) => {
                            proof {
                                context.descriptions@ = context.descriptions@.push((cur@, kind, Some(true)));
                            }
                            assert(nth_parent(path@, n) == Some(cur@));
                            return Ok(Some(info));
                        },
                        Err(Error::Io(_)) => {
                            read = Some(false);
                        },
                        Err(e) => {
                            proof {
                                context.descriptions@ = context.descriptions@.push((cur@, kind, Some(false)));
                            }
                            assert(nth_parent(path@, n) == Some(cur@));
                            return Err(e);
                        },
                    }
                }
            }
            proof {
                context.descriptions@ = context.descriptions@.push((cur@, kind, read));
                lemma_parent(cur@);
            }
            match parent_path(cur.as_str()) {
                Some(parent) => {
                    cur = parent;
                    proof {
                        n = n + 1;
                    }
                },
                None => {
                    return Ok(None);
                },
            }
        }
    }

    /// The real path of `path` when it is a symbolic link (`Resolver::symlink`);
    /// `None` when it is not one, or when its real path cannot be had as an
    /// absolute path.
    pub fn symlink(&self, path: &str) -> (r: Option<String>)
        ensures
            r matches Some(p) ==> is_absolute(p@),
    {
        match self.fs.read_link(path) {
            Ok(_) => {},
            Err(_) => {
                return None;
            },
        }
        absolute_real_path(self.fs.canonicalize(path))
    }

    /// The nearest of `now_dir` and its ancestors that holds a file named
    /// `file_name`: the file's path under `now_dir` and then under each ancestor
    /// in turn is asked about, up to the first that is a file, whose directory
    /// is the result; `None` when the walk reached the root without one. Each
    /// answer is recorded in `context`.
    pub fn find_up(&self, now_dir: &str, file_name: &str, context: &mut Context) -> (r: Option<String>)
        requires
            is_absolute(now_dir@),
        ensures
            r matches Some(dir) ==> is_absolute(dir@),
            old(context).probes@.len() <= final(context).probes@.len(),
            final(context).probes@.subrange(0, old(context).probes@.len() as int) == old(context).probes@,
            found_up(
                text_option(r),
                now_dir@,
                file_name@,
                final(context).probes@.subrange(old(context).probes@.len() as int, final(context).probes@.len() as int),
            ),
            final(context).started == old(context).started,
            final(context).links == old(context).links,
            final(context).descriptions == old(context).descriptions,
            final(context).texts == old(context).texts,
            final(context).depth == old(context).depth,
            final(context).fully_specified == old(context).fully_specified,
            final(context).resolve_to_context == old(context).resolve_to_context,
    {
        let ghost b = context.probes@.len();
        let mut cur = now_dir.to_owned();
        let ghost mut n: nat = 0;
        assert(context.probes@.subrange(0, b as int) =~= old(context).probes@);
        loop
            invariant
                is_absolute(cur@),
                nth_parent(now_dir@, n) == Some(cur@),
                b == old(context).probes@.len(),
                context.probes@.len() == b + n,
                context.probes@.subrange(0, b as int) == old(context).probes@,
                forall|k: int|
                    b <= k < context.probes@.len() ==> asked_under(
                        #[trigger] context.probes@[k],
                        now_dir@,
                        file_name@,
                        (k - b) as nat,
                    ) && context.probes@[k].1 != Some(FileKind::File),
                context.started == old(context).started,
                context.links == old(context).links,
                context.descriptions == old(context).descriptions,
                context.texts == old(context).texts,
                context.depth == old(context).depth,
                context.fully_specified == old(context).fully_specified,
                context.resolve_to_context == old(context).resolve_to_context,
            decreases cur@.len(),
        {
            let candidate = join_path(cur.as_str(), file_name);
            let kind = self.probe(candidate.as_str(), context);
            proof {
                assert(context.probes@.subrange(0, b as int) =~= old(context).probes@);
                assert(asked_under(context.probes@[(b + n) as int], now_dir@, file_name@, n));
            }
            let ghost asked = context.probes@.subrange(b as int, context.probes@.len() as int);
            if kind_is_file(kind) {
                proof {
                    assert forall|k: int| 0 <= k < asked.len() - 1 implies #[trigger] asked[k].1 != Some(FileKind::File)
                        && asked_under(asked[k], now_dir@, file_name@, k as nat) by {
                        assert(asked[k] == context.probes@[b + k]);
                    }
                    assert(asked.last() == context.probes@[(b + n) as int]);
                }
                return Some(cur);
            }
            proof {
                lemma_parent(cur@);
            }
            match parent_path(cur.as_str()) {
                Some(parent) => {
                    cur = parent;
                    proof {
                        n = n + 1;
                    }
                },
                None => {
                    proof {
                        assert forall|k: int| 0 <= k < asked.len() implies #[trigger] asked[k].1 != Some(FileKind::File)
                            && asked_under(asked[k], now_dir@, file_name@, k as nat) by {
                            assert(asked[k] == context.probes@[b + k]);
                        }
                        assert(asked.last() == context.probes@[(b + n) as int]);
                    }
                    return None;
                },
            }
        }
    }
}

/// The view of an optional text.
pub open spec fn text_option(r: Option<String>) -> Option<Seq<char>> {
    match r {
        Some(s) => Some(s@),
        None => None,
    }
}

/// `entry` is the answer about `file_name` under the `k`-th ancestor of `dir`.
pub open spec fn asked_under(entry: (Seq<char>, Option<FileKind>), dir: Seq<char>, file_name: Seq<char>, k: nat) -> bool {
    nth_parent(dir, k) is Some && entry.0 == spec_join(nth_parent(dir, k)->Some_0, file_name)
}

/// `r` is the nearest of `dir` and its ancestors that holds a file named
/// `file_name`, by the answers `asked`: the file's path under `dir` and then
/// under each ancestor in turn, up to the first that is a file, whose directory
/// is `r`; `r` is `None` when no answer is a file and the walk reached the root.
pub open spec fn found_up(
    r: Option<Seq<char>>,
    dir: Seq<char>,
    file_name: Seq<char>,
    asked: Seq<(Seq<char>, Option<FileKind>)>,
) -> bool {
    let m = asked.len();
    &&& m > 0
    &&& forall|k: int| 0 <= k < m ==> asked_under(#[trigger] asked[k], dir, file_name, k as nat)
    &&& forall|k: int| 0 <= k < m - 1 ==> #[trigger] asked[k].1 != Some(FileKind::File)
    &&& match r {
        Some(found) => asked[m - 1].1 == Some(FileKind::File) && nth_parent(dir, (m - 1) as nat) == Some(found),
        None => asked[m - 1].1 != Some(FileKind::File) && spec_parent(nth_parent(dir, (m - 1) as nat)->Some_0)
            is None,
    }
}

} // verus!
