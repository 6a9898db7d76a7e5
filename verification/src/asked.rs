//! The Trash and the launcher a store works with, each kept together with
//! the record of what it has been asked. Their fields are private to this
//! module, so every call goes through `ask` and is recorded.

use crate::links::signal_link;
use crate::names::valid_name;
use crate::paths::Paths;
use crate::store::{answer_of, link_of, Launch, Start, Trash};
use vstd::prelude::*;

verus! {

/// A Trash and the paths it has been asked to take, in order, with its
/// answers.
pub struct AskedTrash {
    trash: Box<dyn Trash>,
    log: Ghost<Seq<(Seq<char>, Result<(), Seq<char>>)>>,
}

impl AskedTrash {
    /// What the Trash has been asked so far, with its answers.
    pub closed spec fn asked(self) -> Seq<(Seq<char>, Result<(), Seq<char>>)> {
        self.log@
    }

    /// A Trash that has been asked nothing yet.
    pub fn new(trash: Box<dyn Trash>) -> (t: Self)
        ensures
            t.asked() == Seq::<(Seq<char>, Result<(), Seq<char>>)>::empty(),
    {
        AskedTrash { trash, log: Ghost(Seq::empty()) }
    }

    /// Asks the Trash to take `path`; the call and its answer are recorded.
    pub fn ask(&mut self, path: &str) -> (r: Result<(), String>)
        ensures
            final(self).asked() == old(self).asked().push((path@, answer_of(r))),
    {
        let r = self.trash.trash(path);
        self.log = Ghost(self.log@.push((path@, answer_of(r))));
        r
    }
}

/// A launcher and what it has been asked to start, in order, with its
/// answers.
pub struct AskedLauncher {
    launcher: Box<dyn Launch>,
    log: Ghost<Seq<(Start, Result<(), Seq<char>>)>>,
}

impl AskedLauncher {
    /// What the launcher has been asked to start so far, with its answers.
    pub closed spec fn started(self) -> Seq<(Start, Result<(), Seq<char>>)> {
        self.log@
    }

    /// A launcher that has been asked nothing yet.
    pub fn new(launcher: Box<dyn Launch>) -> (l: Self)
        ensures
            l.started() == Seq::<(Start, Result<(), Seq<char>>)>::empty(),
    {
        AskedLauncher { launcher, log: Ghost(Seq::empty()) }
    }

    /// Asks for a profile's Signal to start; the call and its answer are
    /// recorded.
    pub fn launch(&mut self, paths: &Paths, name: &str, link: Option<&str>) -> (r: Result<
        (),
        String,
    >)
        requires
            valid_name(name@),
            link matches Some(l) ==> signal_link(l@),
        ensures
            final(self).started() == old(self).started().push(
                (Start::Profile(name@, link_of(link)), answer_of(r)),
            ),
    {
        let r = self.launcher.launch(paths, name, link);
        self.log = Ghost(self.log@.push((Start::Profile(name@, link_of(link)), answer_of(r))));
        r
    }

    /// Asks for the default Signal to start; the call and its answer are
    /// recorded.
    pub fn launch_default(&mut self, paths: &Paths, link: Option<&str>) -> (r: Result<
        (),
        String,
    >)
        requires
            link matches Some(l) ==> signal_link(l@),
        ensures
            final(self).started() == old(self).started().push(
                (Start::Default(link_of(link)), answer_of(r)),
            ),
    {
        let r = self.launcher.launch_default(paths, link);
        self.log = Ghost(self.log@.push((Start::Default(link_of(link)), answer_of(r))));
        r
    }
}

} // verus!
