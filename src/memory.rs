//! A storage backend held in memory: it records every call that succeeds,
//! keeps directory creation idempotent, lets writes overwrite, and fails on
//! chosen paths. It also drives a whole walk against itself.

use vstd::prelude::*;
use crate::tree::{Effect, Entry, Op, effects, effects_of};
use crate::walk::Walk;

verus! {

/// Why the in-memory backend refused a call.
#[derive(Clone, Copy, Debug, PartialEq, Eq, Structural)]
pub enum Failure {
    /// The path was marked to fail.
    Injected,
    /// The path already holds a node of the other kind.
    Conflict,
}

/// What a path holds.
pub enum Node {
    Dir,
    File(Seq<u8>),
}

pub open spec fn path_of(e: Effect) -> Seq<char> {
    match e {
        Effect::CreateDir(p) => p,
        Effect::WriteFile(p, _) => p,
    }
}

pub open spec fn node_of(e: Effect) -> Node {
    match e {
        Effect::CreateDir(_) => Node::Dir,
        Effect::WriteFile(_, c) => Node::File(c),
    }
}

/// What `path` holds after the calls of `log`: the work of the last call on
/// it.
pub open spec fn node_at(log: Seq<Effect>, path: Seq<char>) -> Option<Node>
    decreases log.len(),
{
    if log.len() == 0 {
        None
    } else if path_of(log.last()) == path {
        Some(node_of(log.last()))
    } else {
        node_at(log.drop_last(), path)
    }
}

/// Whether the call `e` can be made on a path that holds `n`: a directory
/// cannot be created over a file, nor a file written over a directory.
pub open spec fn admits(n: Option<Node>, e: Effect) -> bool {
    match (e, n) {
        (Effect::CreateDir(_), Some(Node::File(_))) => false,
        (Effect::WriteFile(_, _), Some(Node::Dir)) => false,
        _ => true,
    }
}

/// How the call `e` goes after the calls of `log`, with the paths of
/// `failing` marked to fail: `None` for success.
pub open spec fn outcome(log: Seq<Effect>, failing: Seq<Seq<char>>, e: Effect) -> Option<Failure> {
    if failing.contains(path_of(e)) {
        Some(Failure::Injected)
    } else {
        if admits(node_at(log, path_of(e)), e) {
            None
        } else {
            Some(Failure::Conflict)
        }
    }
}

/// Makes the calls of `calls` in order, from the state `log`, and stops at
/// the first that fails: the resulting log, and the failure if one came.
pub open spec fn run(log: Seq<Effect>, failing: Seq<Seq<char>>, calls: Seq<Effect>) -> (Seq<Effect>, Option<Failure>)
    decreases calls.len(),
{
    if calls.len() == 0 {
        (log, None)
    } else {
        match outcome(log, failing, calls[0]) {
            Some(f) => (log, Some(f)),
            None => run(log.push(calls[0]), failing, calls.drop_first()),
        }
    }
}

/// Which kind of node a path holds.
enum Kind {
    Dir,
    File,
}

/// A storage backend in memory.
pub struct MemoryFs {
    log: Vec<Op>,
    failing: Vec<String>,
}

impl MemoryFs {
    /// The calls that succeeded, in order.
    pub closed spec fn log(&self) -> Seq<Effect> {
        effects_of(self.log@)
    }

    /// The paths on which every call fails.
    pub closed spec fn failing(&self) -> Seq<Seq<char>> {
        self.failing@.map_values(|s: String| s@)
    }

    /// An empty backend on which nothing fails.
    pub fn new() -> (r: Self)
        ensures
            r.log() == Seq::<Effect>::empty(),
            r.failing() == Seq::<Seq<char>>::empty(),
    {
        let r = MemoryFs { log: Vec::new(), failing: Vec::new() };
        assert(r.log() =~= Seq::<Effect>::empty());
        assert(r.failing() =~= Seq::<Seq<char>>::empty());
        r
    }

    /// Makes every later call on `path` fail.
    pub fn fail_on(&mut self, path: &str)
        ensures
            final(self).log() == old(self).log(),
            final(self).failing() == old(self).failing().push(path@),
    {
        self.failing.push(path.to_owned());
        assert(self.failing() =~= old(self).failing().push(path@));
    }

    /// The calls that succeeded, in order.
    pub fn calls(&self) -> (r: &Vec<Op>)
        ensures
            effects_of(r@) == self.log(),
    {
        &self.log
    }

    fn is_failing(&self, path: &String) -> (r: bool)
        ensures
            r == self.failing().contains(path@),
    {
        let mut i: usize = 0;
        while i < self.failing.len()
            invariant
                i <= self.failing.len(),
                forall|j: int| 0 <= j < i ==> self.failing()[j] != path@,
            decreases self.failing.len() - i,
        {
            if self.failing[i] == *path {
                assert(self.failing()[i as int] == path@);
                return true;
            }
            i = i + 1;
        }
        false
    }

    fn kind_at(&self, path: &String) -> (r: Option<Kind>)
        ensures
            r matches Some(Kind::Dir) <==> node_at(self.log(), path@) matches Some(Node::Dir),
            r matches Some(Kind::File) <==> node_at(self.log(), path@) matches Some(Node::File(_)),
    {
        let mut i: usize = self.log.len();
        assert(self.log().subrange(0, i as int) =~= self.log());
        while i > 0
            invariant
                i <= self.log.len(),
                node_at(self.log(), path@) == node_at(self.log().subrange(0, i as int), path@),
            decreases i,
        {
            let ghost sub = self.log().subrange(0, i as int);
            assert(sub.last() == self.log()[i - 1]);
            assert(sub.drop_last() =~= self.log().subrange(0, i - 1));
            match &self.log[i - 1] {
                Op::CreateDir(p) => {
                    if *p == *path {
                        return Some(Kind::Dir);
                    }
                },
                Op::WriteFile(p, _) => {
                    if *p == *path {
                        return Some(Kind::File);
                    }
                },
            }
            i = i - 1;
        }
        None
    }

    /// Creates the directory `path`: fails where the path is marked to fail or
    /// holds a file, and succeeds again on a directory that exists.
    pub fn create_dir(&mut self, path: &str) -> (r: Result<(), Failure>)
        ensures
            final(self).failing() == old(self).failing(),
            r is Err <==> outcome(old(self).log(), old(self).failing(), Effect::CreateDir(path@)) is Some,
            r is Err ==> r->Err_0 == outcome(old(self).log(), old(self).failing(), Effect::CreateDir(path@))->0
                && final(self).log() == old(self).log(),
            r is Ok ==> final(self).log() == old(self).log().push(Effect::CreateDir(path@)),
    {
        let p = path.to_owned();
        if self.is_failing(&p) {
            return Err(Failure::Injected);
        }
        match self.kind_at(&p) {
            Some(Kind::File) => Err(Failure::Conflict),
            _ => {
                self.log.push(Op::CreateDir(p));
                assert(self.log() =~= old(self).log().push(Effect::CreateDir(path@)));
                Ok(())
            },
        }
    }

    /// Writes `contents` to the file `path`: fails where the path is marked
    /// to fail or holds a directory, and overwrites a file that exists.
    pub fn write_file(&mut self, path: &str, contents: &Vec<u8>) -> (r: Result<(), Failure>)
        ensures
            final(self).failing() == old(self).failing(),
            r is Err <==> outcome(old(self).log(), old(self).failing(), Effect::WriteFile(path@, contents@)) is Some,
            r is Err ==> r->Err_0 == outcome(old(self).log(), old(self).failing(), Effect::WriteFile(path@, contents@))->0
                && final(self).log() == old(self).log(),
            r is Ok ==> final(self).log() == old(self).log().push(Effect::WriteFile(path@, contents@)),
    {
        let p = path.to_owned();
        if self.is_failing(&p) {
            return Err(Failure::Injected);
        }
        match self.kind_at(&p) {
            Some(Kind::Dir) => Err(Failure::Conflict),
            _ => {
                self.log.push(Op::WriteFile(p, contents.clone()));
                assert(self.log() =~= old(self).log().push(Effect::WriteFile(path@, contents@)));
                Ok(())
            },
        }
    }

    /// Performs one call.
    pub fn apply(&mut self, op: &Op) -> (r: Result<(), Failure>)
        ensures
            final(self).failing() == old(self).failing(),
            r is Err <==> outcome(old(self).log(), old(self).failing(), op@) is Some,
            r is Err ==> r->Err_0 == outcome(old(self).log(), old(self).failing(), op@)->0
                && final(self).log() == old(self).log(),
            r is Ok ==> final(self).log() == old(self).log().push(op@),
    {
        match op {
            Op::CreateDir(p) => self.create_dir(p.as_str()),
            Op::WriteFile(p, c) => self.write_file(p.as_str(), c),
        }
    }

    /// Materialises `tree` under `root`: makes its calls in order and stops
    /// at the first failure, which it returns; what succeeded before stays.
    pub fn create(&mut self, root: &str, tree: &Vec<Entry>) -> (r: Result<(), Failure>)
        ensures
            final(self).failing() == old(self).failing(),
            final(self).log() == run(old(self).log(), old(self).failing(), effects(root@, tree@)).0,
            r is Ok <==> run(old(self).log(), old(self).failing(), effects(root@, tree@)).1 is None,
            r is Err ==> run(old(self).log(), old(self).failing(), effects(root@, tree@)).1 == Some(r->Err_0),
    {
        let ghost start = self.log();
        let ghost failing = self.failing();
        let ghost all = effects(root@, tree@);
        let mut walk: Walk<Failure> = Walk::new(root, tree);
        assert(all.skip(0) =~= all);
        loop
            invariant
                walk.wf(),
                walk.planned() == all,
                self.failing() == failing,
                walk.failure() is None ==> run(start, failing, all) == run(self.log(), failing, all.skip(walk.done() as int)),
                walk.failure() is Some ==> run(start, failing, all) == (self.log(), walk.failure()),
                walk.done() <= all.len(),
            ensures
                !walk.pending(),
            decreases all.len() - walk.done(), (if walk.failure() is None { 1int } else { 0int }),
        {
            match walk.next_op() {
                None => break,
                Some(op) => {
                    let ghost log = self.log();
                    let ghost d = walk.done() as int;
                    let r = self.apply(op);
                    proof {
                        assert(all.skip(d)[0] == all[d]);
                        assert(all.skip(d).drop_first() =~= all.skip(d + 1));
                    }
                    walk.report(r);
                },
            }
        }
        proof {
            if walk.failure() is None {
                assert(all.skip(walk.done() as int) =~= Seq::<Effect>::empty());
            }
        }
        walk.finish()
    }
}

} // verus!
