use std::cmp::Ordering;
use vstd::prelude::*;

use crate::info::InfoView;
use crate::error::Error;
use crate::resolver::{FileKind, State, Step};
use crate::tsconfig_path::TsConfigInfo;

verus! {

/// The state shared by the steps of one resolution. `started` holds, in order,
/// each request and directory that a nested resolution was started with;
/// `probes` holds, in order, each path whose kind a step asked the file system
/// for, with the answer; `links` holds, in order, each path asked whether it is a
/// symbolic link, with its real path when it is one; `descriptions` holds, in
/// order, each directory searched for a description file, with what the file
/// system said it is (when asked) and whether its description file could be read
/// (when one was looked for); `runs` holds, in order, the steps and nested
/// resolutions that the step which last finished ran itself, each with what it
/// was given and what it gave back; `texts` holds, in order, each tsconfig file
/// read, with its text when it could be read; `settings` holds what the last
/// tsconfig read for a resolution gave.
pub struct Context {
    pub depth: Depth,
    pub fully_specified: Bool,
    pub resolve_to_context: Bool,
    pub started: Ghost<Seq<InfoView>>,
    pub probes: Ghost<Seq<(Seq<char>, Option<FileKind>)>>,
    pub links: Ghost<Seq<(Seq<char>, Option<Seq<char>>)>>,
    pub descriptions: Ghost<Seq<(Seq<char>, Option<FileKind>, Option<bool>)>>,
    pub runs: Ghost<Seq<(Step, InfoView, State)>>,
    pub texts: Ghost<Seq<(Seq<char>, Option<Seq<char>>)>>,
    pub settings: Ghost<Option<Result<TsConfigInfo, Error>>>,
}

impl Context {
    pub fn new(fully_specified: bool, resolve_to_context: bool) -> (r: Self)
        ensures
            r.depth@ == 0,
            r.fully_specified@ == fully_specified,
            r.resolve_to_context@ == resolve_to_context,
            r.started@ == Seq::<InfoView>::empty(),
            r.probes@ == Seq::<(Seq<char>, Option<FileKind>)>::empty(),
            r.links@ == Seq::<(Seq<char>, Option<Seq<char>>)>::empty(),
            r.descriptions@ == Seq::<(Seq<char>, Option<FileKind>, Option<bool>)>::empty(),
            r.texts@ == Seq::<(Seq<char>, Option<Seq<char>>)>::empty(),
    {
        Context {
            depth: Depth::new(),
            fully_specified: Bool(fully_specified),
            resolve_to_context: Bool(resolve_to_context),
            started: Ghost(Seq::empty()),
            probes: Ghost(Seq::empty()),
            links: Ghost(Seq::empty()),
            descriptions: Ghost(Seq::empty()),
            runs: Ghost(Seq::empty()),
            texts: Ghost(Seq::empty()),
            settings: Ghost(None),
        }
    }
}

/// A flag that the steps of a resolution switch on and off.
#[derive(Debug)]
pub struct Bool(bool);

impl View for Bool {
    type V = bool;

    closed spec fn view(&self) -> bool {
        self.0
    }
}

impl Bool {
    pub fn set(&mut self, value: bool)
        ensures
            final(self)@ == value,
    {
        self.0 = value
    }

    pub fn get(&self) -> (r: bool)
        ensures
            r == self@,
    {
        self.0
    }
}

/// How deeply resolutions are nested.
#[derive(Debug)]
pub struct Depth(u16);

impl View for Depth {
    type V = nat;

    closed spec fn view(&self) -> nat {
        self.0 as nat
    }
}

impl Depth {
    fn new() -> (r: Self)
        ensures
            r@ == 0,
    {
        Depth(0)
    }

    pub fn increase(&mut self)
        requires
            old(self)@ < u16::MAX,
        ensures
            final(self)@ == old(self)@ + 1,
    {
        self.0 = self.0 + 1;
    }

    pub fn decrease(&mut self)
        requires
            old(self)@ > 0,
        ensures
            final(self)@ == old(self)@ - 1,
    {
        self.0 = self.0 - 1;
    }

    pub fn cmp(&self, other: u16) -> (r: Ordering)
        ensures
            r == (if self@ < other {
                Ordering::Less
            } else if self@ == other {
                Ordering::Equal
            } else {
                Ordering::Greater
            }),
    {
        if self.0 < other {
            Ordering::Less
        } else if self.0 == other {
            Ordering::Equal
        } else {
            Ordering::Greater
        }
    }

    pub fn value(&self) -> (r: u16)
        ensures
            r == self@,
    {
        self.0
    }
}

} // verus!
