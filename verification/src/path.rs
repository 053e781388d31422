//! The network paths of a connection.

use vstd::prelude::*;

use crate::error::Error;
use crate::error::Result;
use crate::recovery::Recovery;
use crate::recovery::RecoveryModel;

verus! {

/// A network path.
#[derive(Debug)]
pub struct Path {
    /// Identifier that both endpoints use for the path.
    pub path_id: u64,
    /// Packets in flight on the path.
    pub recovery: Recovery,
}

/// What a [`Path`] stands for.
#[verifier::ext_equal]
pub struct PathModel {
    /// Identifier that both endpoints use for the path.
    pub path_id: u64,
    /// Packets in flight on the path.
    pub recovery: RecoveryModel,
}

impl View for Path {
    type V = PathModel;

    open spec fn view(&self) -> PathModel {
        PathModel { path_id: self.path_id, recovery: self.recovery@ }
    }
}

/// The network paths of a connection.
#[derive(Debug)]
pub struct PathMap {
    /// The paths, in the order in which they were added.
    pub paths: Vec<Path>,
    /// Position of the path that carries the unicast data.
    pub active: usize,
}

/// What a [`PathMap`] stands for.
#[verifier::ext_equal]
pub struct PathsModel {
    /// The paths, in the order in which they were added.
    pub paths: Seq<PathModel>,
    /// Position of the path that carries the unicast data.
    pub active: usize,
}

impl View for PathMap {
    type V = PathsModel;

    open spec fn view(&self) -> PathsModel {
        PathsModel { paths: Seq::new(self.paths@.len(), |i: int| self.paths@[i]@), active: self.active }
    }
}

/// Position of the first path with the identifier `path_id`.
pub open spec fn position(paths: Seq<PathModel>, path_id: u64) -> Option<int>
    decreases paths.len(),
{
    if paths.len() == 0 {
        None
    } else if position(paths.drop_last(), path_id) is Some {
        position(paths.drop_last(), path_id)
    } else if paths.last().path_id == path_id {
        Some(paths.len() - 1)
    } else {
        None
    }
}

impl PathsModel {
    /// Position of the first path with the identifier `path_id`.
    pub open spec fn pid(self, path_id: u64) -> Option<int> {
        position(self.paths, path_id)
    }

    /// The paths with `r` as the recovery state of the path at `pid`.
    pub open spec fn with_recovery(self, pid: int, r: RecoveryModel) -> PathsModel {
        PathsModel {
            paths: self.paths.update(pid, PathModel { recovery: r, ..self.paths[pid] }),
            ..self
        }
    }
}

impl PathMap {
    /// The recovery state of every path is well formed.
    pub open spec fn wf(&self) -> bool {
        forall|i: int| 0 <= i < self.paths@.len() ==> (#[trigger] self.paths@[i]).recovery.wf()
    }

    /// A single path, which carries the unicast data.
    pub fn new(path: Path) -> (m: PathMap)
        requires
            path.recovery.wf(),
        ensures
            m.wf(),
            m@ == (PathsModel { paths: seq![path@], active: 0 }),
    {
        let mut paths: Vec<Path> = Vec::new();
        paths.push(path);
        let m = PathMap { paths, active: 0 };
        assert(m@.paths =~= seq![path@]);
        m
    }

    /// Adds a path. Returns its position.
    pub fn insert(&mut self, path: Path) -> (pid: usize)
        requires
            old(self).wf(),
            path.recovery.wf(),
        ensures
            final(self).wf(),
            pid == old(self)@.paths.len(),
            final(self)@ == (PathsModel { paths: old(self)@.paths.push(path@), ..old(self)@ }),
    {
        let pid: usize = self.paths.len();
        self.paths.push(path);
        assert(self@.paths =~= old(self)@.paths.push(path@));
        pid
    }

    /// Position of the first path with the identifier `path_id`.
    pub fn pid_from_path_id(&self, path_id: u64) -> (r: Option<usize>)
        ensures
            r is Some <==> self@.pid(path_id) is Some,
            r matches Some(pid) ==> self@.pid(path_id) == Some(pid as int) && pid
                < self@.paths.len() && self@.paths[pid as int].path_id == path_id,
    {
        let mut i: usize = 0;
        while i < self.paths.len()
            invariant
                i <= self.paths@.len(),
                position(self@.paths.take(i as int), path_id) is None,
            decreases self.paths@.len() - i,
        {
            assert(self@.paths.take(i + 1).drop_last() =~= self@.paths.take(i as int));
            if self.paths[i].path_id == path_id {
                proof {
                    lemma_position_stays(self@.paths, path_id, i + 1);
                }
                return Some(i);
            }
            i += 1;
        }
        assert(self@.paths.take(i as int) =~= self@.paths);
        None
    }

    /// The path at the position `pid`.
    pub fn get(&self, pid: usize) -> (r: Result<&Path>)
        requires
            self.wf(),
        ensures
            pid >= self@.paths.len() ==> r == Err::<&Path, Error>(Error::InvalidState),
            pid < self@.paths.len() ==> r is Ok && r->Ok_0@ == self@.paths[pid as int]
                && r->Ok_0.recovery.wf(),
    {
        if pid < self.paths.len() {
            Ok(&self.paths[pid])
        } else {
            Err(Error::InvalidState)
        }
    }

    /// The path at the position `pid`.
    pub fn get_mut(&mut self, pid: usize) -> (r: Result<&mut Path>)
        ensures
            pid >= old(self)@.paths.len() ==> r is Err && r->Err_0 == Error::InvalidState
                && *final(self) == *old(self),
            pid < old(self)@.paths.len() ==> {
                &&& r is Ok
                &&& *r->Ok_0 == old(self).paths@[pid as int]
                &&& final(self).paths@ == old(self).paths@.update(pid as int, *final(r->Ok_0))
                &&& final(self).active == old(self).active
            },
    {
        if pid < self.paths.len() {
            Ok(&mut self.paths[pid])
        } else {
            Err(Error::InvalidState)
        }
    }

    /// The path that carries the unicast data.
    pub fn get_active(&self) -> (r: Result<&Path>)
        requires
            self.wf(),
        ensures
            self@.active >= self@.paths.len() ==> r == Err::<&Path, Error>(Error::InvalidState),
            self@.active < self@.paths.len() ==> r is Ok && r->Ok_0@
                == self@.paths[self@.active as int] && r->Ok_0.recovery.wf(),
    {
        self.get(self.active)
    }
}

/// The first path with an identifier stays the first one when paths are added.
proof fn lemma_position_stays(paths: Seq<PathModel>, path_id: u64, n: int)
    requires
        0 <= n <= paths.len(),
        position(paths.take(n), path_id) is Some,
    ensures
        position(paths, path_id) == position(paths.take(n), path_id),
    decreases paths.len() - n,
{
    if n < paths.len() {
        assert(paths.take(n + 1).drop_last() =~= paths.take(n));
        lemma_position_stays(paths, path_id, n + 1);
    } else {
        assert(paths.take(n) =~= paths);
    }
}

/// The position of a path is the first one with its identifier, and there is one exactly if
/// some path has it.
pub proof fn position_is_the_first(paths: Seq<PathModel>, path_id: u64, i: int)
    ensures
        position(paths, path_id) == Some(i) <==> 0 <= i < paths.len() && paths[i].path_id == path_id
            && forall|j: int| 0 <= j < i ==> (#[trigger] paths[j]).path_id != path_id,
        position(paths, path_id) is None <==> forall|j: int|
            0 <= j < paths.len() ==> (#[trigger] paths[j]).path_id != path_id,
    decreases paths.len(),
{
    if paths.len() > 0 {
        let front = paths.drop_last();
        position_is_the_first(front, path_id, i);
        assert(paths[paths.len() - 1] == paths.last());
        if let Some(k) = position(front, path_id) {
            position_is_the_first(front, path_id, k);
            assert(front[k] == paths[k]);
            assert forall|j: int| 0 <= j < k implies (#[trigger] paths[j]).path_id != path_id by {
                assert(front[j] == paths[j]);
            }
        } else {
            assert forall|j: int| 0 <= j < front.len() implies (#[trigger] paths[j]).path_id
                != path_id by {
                assert(front[j] == paths[j]);
            }
        }
        if position(paths, path_id) == Some(i) && i < front.len() {
            assert(front[i] == paths[i]);
        }
    }
}

/// A new recovery state is that of one path: the others stay, and so do the identifiers and
/// the path of the unicast data.
pub proof fn recovery_is_that_of_one_path(m: PathsModel, pid: int, r: RecoveryModel, i: int)
    requires
        0 <= pid < m.paths.len(),
        0 <= i < m.paths.len(),
    ensures
        m.with_recovery(pid, r).paths.len() == m.paths.len(),
        m.with_recovery(pid, r).active == m.active,
        m.with_recovery(pid, r).paths[i].path_id == m.paths[i].path_id,
        i == pid ==> m.with_recovery(pid, r).paths[i].recovery == r,
        i != pid ==> m.with_recovery(pid, r).paths[i] == m.paths[i],
{
}

} // verus!
