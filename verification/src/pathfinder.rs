//! Grid path-finding state shared through the snapshot buffer: a distance
//! mapping per team, flood-filled from the team's location.
//!
//! The surrounding program runs the background thread and the channels;
//! the state and the flood fill live here.

use crate::sync::Synchronize;
use vstd::prelude::*;

verus! {

/// An unexplored cell's distance marker.
pub const UNEXPLORED: i32 = -1;

/// A blocked cell's distance marker.
pub const UNREACHABLE: i32 = -2;

/// A request handed to the background mapping thread.
pub enum PathCommand {
    /// Recompute every team's mapping.
    Remap,
    /// Block a cell, failing if some team loses its footing.
    Place((i32, i32)),
    /// Unblock a cell.
    Remove((i32, i32)),
}

/// A team's slot in the path finder; the all-ones value means "no team".
#[derive(Clone, Copy, Debug, PartialEq, Eq, Structural)]
pub struct TeamId(pub u32);

impl Default for TeamId {
    fn default() -> (r: Self)
        ensures
            r.0 == 0xffff_ffffu32,
    {
        TeamId(0xffff_ffff)
    }
}

/// A column-strided grid of distance values.
#[derive(Clone)]
pub struct Mapping {
    data: Vec<i32>,
    stride: i32,
}

impl Mapping {
    /// The grid's cells in storage order.
    pub closed spec fn cells(&self) -> Seq<i32> {
        self.data@
    }

    pub closed spec fn stride_spec(&self) -> int {
        self.stride as int
    }

    pub closed spec fn wf(&self) -> bool {
        &&& self.stride >= 1
        &&& self.data@.len() <= 0x7fff_ffff
    }

    /// The coordinate pair lies on the grid.
    pub open spec fn valid_spec(&self, x: int, y: int) -> bool {
        &&& x >= 0
        &&& y >= 0
        &&& x < self.stride_spec()
        &&& y < self.cells().len() as int / self.stride_spec()
    }

    pub closed spec fn index_of(&self, x: int, y: int) -> int {
        y * self.stride_spec() + x
    }

    /// The value stored at a coordinate pair.
    pub open spec fn cell(&self, x: int, y: int) -> i32 {
        self.cells()[self.index_of(x, y)]
    }

    /// A valid coordinate's cell index stays inside the grid.
    pub proof fn lemma_valid_index(&self, x: int, y: int)
        requires
            self.wf(),
            self.valid_spec(x, y),
        ensures
            0 <= self.index_of(x, y) < self.cells().len(),
    {
        let s = self.stride_spec();
        let n = self.cells().len() as int;
        assert(y * s + x < n && y * s + x >= 0) by (nonlinear_arith)
            requires
                s >= 1,
                x >= 0,
                y >= 0,
                x < s,
                y < n / s,
                n >= 0,
        {
            vstd::arithmetic::div_mod::lemma_fundamental_div_mod(n, s);
            vstd::arithmetic::div_mod::lemma_mod_bound(n, s);
        }
    }

    /// A fresh grid of unexplored cells, strided by its height.
    pub fn new(width: usize, height: usize) -> (r: Self)
        requires
            1 <= height <= 0x7fff_ffff,
            width * height <= 0x7fff_ffff,
        ensures
            r.wf(),
            r.stride_spec() == height,
            r.cells().len() == width * height,
            forall|i: int| 0 <= i < r.cells().len() ==> #[trigger] r.cells()[i] == UNEXPLORED,
    {
        let total = width * height;
        let mut data: Vec<i32> = Vec::new();
        let mut i: usize = 0;
        while i < total
            invariant
                i <= total,
                data@.len() == i,
                forall|k: int| 0 <= k < data@.len() ==> #[trigger] data@[k] == UNEXPLORED,
            decreases total - i,
        {
            data.push(UNEXPLORED);
            i = i + 1;
        }
        Mapping { data, stride: height as i32 }
    }

    /// Whether a coordinate pair lies on the grid.
    pub fn valid(&self, x: i32, y: i32) -> (r: bool)
        requires
            self.wf(),
        ensures
            r == self.valid_spec(x as int, y as int),
    {
        x >= 0 && y >= 0 && x < self.stride && y < (self.data.len() as i32) / self.stride
    }

    /// Writes one cell.
    pub fn set(&mut self, location: (i32, i32), value: i32)
        requires
            old(self).wf(),
            old(self).valid_spec(location.0 as int, location.1 as int),
        ensures
            final(self).wf(),
            final(self).stride_spec() == old(self).stride_spec(),
            final(self).cells() == old(self).cells().update(
                old(self).index_of(location.0 as int, location.1 as int),
                value,
            ),
    {
        proof {
            self.lemma_valid_index(location.0 as int, location.1 as int);
        }
        let (x, y) = location;
        let idx = (y * self.stride + x) as usize;
        self.data[idx] = value;
    }

    /// Reads one cell.
    pub fn get(&self, location: (i32, i32)) -> (r: i32)
        requires
            self.wf(),
            self.valid_spec(location.0 as int, location.1 as int),
        ensures
            r == self.cell(location.0 as int, location.1 as int),
    {
        proof {
            self.lemma_valid_index(location.0 as int, location.1 as int);
        }
        let (x, y) = location;
        self.data[(y * self.stride + x) as usize]
    }

    /// The neighbouring cell with the smallest non-negative distance, or
    /// the own position when no explored neighbour exists.  A diagonal
    /// step is taken only when both adjacent straight cells are on the
    /// grid.
    pub fn next_step(&self, x: i32, y: i32) -> (r: (i32, i32))
        requires
            self.wf(),
            -0x4000_0000 < x < 0x4000_0000,
            -0x4000_0000 < y < 0x4000_0000,
        ensures
            r == (x, y) || (self.valid_spec(r.0 as int, r.1 as int) && self.cell(
                r.0 as int,
                r.1 as int,
            ) >= 0),
    {
        let mut best_value: i32 = i32::MAX;
        let mut best: (i32, i32) = (x, y);
        let mut found = false;
        let straight: [(i32, i32); 4] = [(1, 0), (0, 1), (-1, 0), (0, -1)];
        let diagonal: [(i32, i32); 4] = [(1, 1), (1, -1), (-1, -1), (-1, 1)];
        let mut d: usize = 0;
        while d < 4
            invariant
                self.wf(),
                -0x4000_0000 < x < 0x4000_0000,
                -0x4000_0000 < y < 0x4000_0000,
                straight@ =~= seq![(1i32, 0i32), (0i32, 1i32), (-1i32, 0i32), (0i32, -1i32)],
                !found ==> best == (x, y),
                found ==> self.valid_spec(best.0 as int, best.1 as int) && self.cell(
                    best.0 as int,
                    best.1 as int,
                ) >= 0,
            decreases 4 - d,
        {
            let (dx, dy) = straight[d];
            let nx = x + dx;
            let ny = y + dy;
            if self.valid(nx, ny) {
                let value = self.get((nx, ny));
                if value >= 0 && best_value > value {
                    best_value = value;
                    best = (nx, ny);
                    found = true;
                }
            }
            d = d + 1;
        }
        let mut d2: usize = 0;
        while d2 < 4
            invariant
                self.wf(),
                -0x4000_0000 < x < 0x4000_0000,
                -0x4000_0000 < y < 0x4000_0000,
                diagonal@ =~= seq![(1i32, 1i32), (1i32, -1i32), (-1i32, -1i32), (-1i32, 1i32)],
                !found ==> best == (x, y),
                found ==> self.valid_spec(best.0 as int, best.1 as int) && self.cell(
                    best.0 as int,
                    best.1 as int,
                ) >= 0,
            decreases 4 - d2,
        {
            let (dx, dy) = diagonal[d2];
            let nx = x + dx;
            let ny = y + dy;
            if self.valid(nx, ny) && self.valid(x, ny) && self.valid(nx, y) {
                let value = self.get((nx, ny));
                if value >= 0 && best_value > value {
                    best_value = value;
                    best = (nx, ny);
                    found = true;
                }
            }
            d2 = d2 + 1;
        }
        best
    }

    /// Resets every unblocked cell to unexplored.
    fn clear(&mut self)
        requires
            old(self).wf(),
        ensures
            final(self).wf(),
            final(self).stride_spec() == old(self).stride_spec(),
            final(self).cells().len() == old(self).cells().len(),
            forall|i: int|
                0 <= i < final(self).cells().len() ==> #[trigger] final(self).cells()[i] == (
                if old(self).cells()[i] == UNREACHABLE {
                    UNREACHABLE
                } else {
                    UNEXPLORED
                }),
    {
        let n = self.data.len();
        let mut i: usize = 0;
        while i < n
            invariant
                i <= n,
                self.wf(),
                self.stride == old(self).stride,
                n == self.data@.len(),
                self.data@.len() == old(self).data@.len(),
                forall|k: int|
                    0 <= k < i ==> #[trigger] self.data@[k] == (if old(self).data@[k]
                        == UNREACHABLE {
                        UNREACHABLE
                    } else {
                        UNEXPLORED
                    }),
                forall|k: int| i <= k < n ==> #[trigger] self.data@[k] == old(self).data@[k],
            decreases n - i,
        {
            if self.data[i] != UNREACHABLE {
                self.data[i] = UNEXPLORED;
            }
            i = i + 1;
        }
    }

    /// Flood-fills distances outward from the frontier, then reports
    /// whether the target was reached.  Each round explores at least one
    /// fresh cell, so as many rounds as the grid has cells always
    /// suffice; the round cap makes that bound explicit.
    fn remap(&mut self, target: (i32, i32), frontier: &mut Vec<(i32, i32)>, temp: &mut Vec<
        (i32, i32),
    >) -> (r: bool)
        requires
            old(self).wf(),
            old(self).valid_spec(target.0 as int, target.1 as int),
            forall|k: int|
                0 <= k < old(frontier)@.len() ==> old(self).valid_spec(
                    (#[trigger] old(frontier)@[k]).0 as int,
                    old(frontier)@[k].1 as int,
                ),
            old(temp)@.len() == 0,
        ensures
            final(self).wf(),
            final(self).stride_spec() == old(self).stride_spec(),
            final(self).cells().len() == old(self).cells().len(),
            final(frontier)@.len() == 0,
            final(temp)@.len() == 0,
            r == (final(self).cell(target.0 as int, target.1 as int) != UNEXPLORED),
    {
        self.clear();
        let ghost n0 = self.data@.len();
        let ghost st0 = self.stride;
        let mut rounds = self.data.len();
        let mut distance: i32 = 0;
        while frontier.len() > 0 && rounds > 0
            invariant
                self.wf(),
                self.stride == st0,
                self.data@.len() == n0,
                st0 == old(self).stride,
                n0 == old(self).data@.len(),
                temp@.len() == 0,
                forall|k: int|
                    0 <= k < frontier@.len() ==> self.valid_spec(
                        (#[trigger] frontier@[k]).0 as int,
                        frontier@[k].1 as int,
                    ),
            decreases rounds,
        {
            let mut p: usize = 0;
            let flen = frontier.len();
            while p < flen
                invariant
                    self.wf(),
                    self.stride == st0,
                    self.data@.len() == n0,
                    p <= flen,
                    flen == frontier@.len(),
                    forall|k: int|
                        0 <= k < frontier@.len() ==> self.valid_spec(
                            (#[trigger] frontier@[k]).0 as int,
                            frontier@[k].1 as int,
                        ),
                    forall|k: int|
                        0 <= k < temp@.len() ==> self.valid_spec(
                            (#[trigger] temp@[k]).0 as int,
                            temp@[k].1 as int,
                        ),
                decreases flen - p,
            {
                let pos = frontier[p];
                let mut d: usize = 0;
                while d < 4
                    invariant
                        self.wf(),
                        self.stride == st0,
                        self.data@.len() == n0,
                        self.valid_spec(pos.0 as int, pos.1 as int),
                        d <= 4,
                        forall|k: int|
                            0 <= k < frontier@.len() ==> self.valid_spec(
                                (#[trigger] frontier@[k]).0 as int,
                                frontier@[k].1 as int,
                            ),
                        forall|k: int|
                            0 <= k < temp@.len() ==> self.valid_spec(
                                (#[trigger] temp@[k]).0 as int,
                                temp@[k].1 as int,
                            ),
                    decreases 4 - d,
                {
                    let (dx, dy) = if d == 0 {
                        (1, 0)
                    } else if d == 1 {
                        (0, 1)
                    } else if d == 2 {
                        (-1, 0)
                    } else {
                        (0, -1)
                    };
                    let nx = pos.0 + dx;
                    let ny = pos.1 + dy;
                    if self.valid(nx, ny) {
                        let value = self.get((nx, ny));
                        if value == UNEXPLORED {
                            proof {
                                self.lemma_valid_index(nx as int, ny as int);
                            }
                            self.set((nx, ny), distance);
                            temp.push((nx, ny));
                        }
                    }
                    d = d + 1;
                }
                p = p + 1;
            }
            frontier.clear();
            core::mem::swap(frontier, temp);
            if distance < i32::MAX {
                distance = distance + 1;
            }
            rounds = rounds - 1;
        }
        frontier.clear();
        temp.clear();
        self.get(target) != UNEXPLORED
    }

    /// Blocks a cell.
    pub fn place(&mut self, location: (i32, i32))
        requires
            old(self).wf(),
            old(self).valid_spec(location.0 as int, location.1 as int),
        ensures
            final(self).wf(),
            final(self).stride_spec() == old(self).stride_spec(),
            final(self).cells() == old(self).cells().update(
                old(self).index_of(location.0 as int, location.1 as int),
                UNREACHABLE,
            ),
    {
        self.set(location, UNREACHABLE);
    }

    /// Unblocks a cell.
    pub fn remove(&mut self, location: (i32, i32))
        requires
            old(self).wf(),
            old(self).valid_spec(location.0 as int, location.1 as int),
        ensures
            final(self).wf(),
            final(self).stride_spec() == old(self).stride_spec(),
            final(self).cells() == old(self).cells().update(
                old(self).index_of(location.0 as int, location.1 as int),
                UNEXPLORED,
            ),
    {
        self.set(location, UNEXPLORED);
    }
}

impl Default for Mapping {
    fn default() -> (r: Self)
        ensures
            r.cells().len() == 0,
            r.stride_spec() == 1,
            r.wf(),
    {
        Mapping { data: Vec::new(), stride: 1 }
    }
}

impl Synchronize for Mapping {
    open spec fn synced_with(&self, source: &Self) -> bool {
        self.cells() == source.cells() && self.stride_spec() == source.stride_spec()
    }

    fn synchronize(&mut self, source: &Self) {
        self.stride = source.stride;
        self.data.clear();
        let n = source.data.len();
        let mut i: usize = 0;
        while i < n
            invariant
                i <= n,
                n == source.data@.len(),
                self.stride == source.stride,
                self.data@ == source.data@.take(i as int),
            decreases n - i,
        {
            let v = source.data[i];
            proof {
                assert(source.data@.take(i as int).push(v) =~= source.data@.take(i + 1));
            }
            self.data.push(v);
            i = i + 1;
        }
        proof {
            assert(source.data@.take(n as int) =~= source.data@);
        }
    }
}

/// One team: its location and its distance mapping toward it.
pub struct Team {
    pub location: (i32, i32),
    pub mapping: Mapping,
}

impl Team {
    pub open spec fn wf(&self) -> bool {
        self.mapping.wf()
    }

    pub fn new(x: i32, y: i32, mapping: Mapping) -> (r: Self)
        ensures
            r.location == (x, y),
            r.mapping == mapping,
    {
        Team { location: (x, y), mapping }
    }
}

impl Default for Team {
    fn default() -> (r: Self)
        ensures
            r.location == (0i32, 0i32),
            r.wf(),
    {
        Team { location: (0, 0), mapping: Mapping { data: Vec::new(), stride: 1 } }
    }
}

impl Synchronize for Team {
    open spec fn synced_with(&self, source: &Self) -> bool {
        self.location == source.location && self.mapping.synced_with(&source.mapping)
    }

    fn synchronize(&mut self, source: &Self) {
        self.location = source.location;
        self.mapping.synchronize(&source.mapping);
    }
}

/// The mapping state shared between the game thread and the background
/// mapping thread: one slot per team, with freed slots reused.
pub struct InnerPathFinder {
    teams: Vec<Team>,
    free_teams: Vec<u32>,
}

impl InnerPathFinder {
    pub closed spec fn teams_spec(&self) -> Seq<Team> {
        self.teams@
    }

    pub closed spec fn free_spec(&self) -> Seq<u32> {
        self.free_teams@
    }

    pub closed spec fn wf(&self) -> bool {
        &&& self.teams@.len() <= 0xffff_ffff
        &&& forall|i: int| 0 <= i < self.teams@.len() ==> (#[trigger] self.teams@[i]).wf()
        &&& forall|k: int|
            0 <= k < self.free_teams@.len() ==> (#[trigger] self.free_teams@[k])
                < self.teams@.len()
    }

    pub fn new() -> (r: Self)
        ensures
            r.wf(),
            r.teams_spec().len() == 0,
            r.free_spec().len() == 0,
    {
        InnerPathFinder { teams: Vec::new(), free_teams: Vec::new() }
    }

    /// The number of team slots, freed ones included.
    pub fn team_count(&self) -> (r: usize)
        ensures
            r == self.teams_spec().len(),
    {
        self.teams.len()
    }

    /// The number of freed team slots awaiting reuse.
    pub fn free_count(&self) -> (r: usize)
        ensures
            r == self.free_spec().len(),
    {
        self.free_teams.len()
    }

    /// The first team's mapping, which seeds new teams; present exactly
    /// when some team exists.
    pub fn defined_mapping(&self) -> (r: Option<Mapping>)
        requires
            self.wf(),
        ensures
            r is Some <==> self.teams_spec().len() > 0,
    {
        if self.teams.len() > 0 {
            Some(self.teams[0].mapping.clone())
        } else {
            None
        }
    }

    /// Stores a team, reusing the most recently freed slot before
    /// growing.
    pub fn create_team(&mut self, team: Team) -> (r: TeamId)
        requires
            old(self).wf(),
            team.wf(),
            old(self).teams_spec().len() < 0xffff_ffff,
        ensures
            final(self).wf(),
            r.0 < final(self).teams_spec().len(),
            final(self).teams_spec()[r.0 as int] == team,
            old(self).free_spec().len() > 0 ==> r.0 == old(self).free_spec().last()
                && final(self).free_spec() == old(self).free_spec().drop_last(),
            old(self).free_spec().len() == 0 ==> r.0 == old(self).teams_spec().len() && final(self).teams_spec() == old(self).teams_spec().push(team),
    {
        match self.free_teams.pop() {
            Some(free_team) => {
                let idx = free_team as usize;
                self.teams[idx] = team;
                TeamId(free_team)
            },
            None => {
                let team_id = self.teams.len() as u32;
                self.teams.push(team);
                TeamId(team_id)
            },
        }
    }

    /// Frees a team's slot, handing its state back; the slot is reused by
    /// the next `create_team`.
    pub fn remove_team(&mut self, team_id: TeamId) -> (r: Team)
        requires
            old(self).wf(),
            team_id.0 < old(self).teams_spec().len(),
            old(self).free_spec().len() < 0xffff_ffff,
        ensures
            final(self).wf(),
            r == old(self).teams_spec()[team_id.0 as int],
            final(self).free_spec() == old(self).free_spec().push(team_id.0),
            final(self).teams_spec().len() == old(self).teams_spec().len(),
    {
        self.free_teams.push(team_id.0);
        let idx = team_id.0 as usize;
        let mut taken = Team::default();
        let slot = &mut self.teams[idx];
        core::mem::swap(&mut taken, slot);
        taken
    }

    /// Recomputes every team's mapping from its own location; a team
    /// whose location fell off its grid counts as failed.
    pub fn remap(&mut self) -> (r: bool)
        requires
            old(self).wf(),
        ensures
            final(self).wf(),
            final(self).teams_spec().len() == old(self).teams_spec().len(),
            final(self).free_spec() == old(self).free_spec(),
    {
        let mut frontier: Vec<(i32, i32)> = Vec::new();
        let mut temp: Vec<(i32, i32)> = Vec::new();
        let mut ok = true;
        let n = self.teams.len();
        let mut i: usize = 0;
        while i < n
            invariant
                i <= n,
                self.wf(),
                n == self.teams@.len(),
                self.teams@.len() == old(self).teams@.len(),
                self.free_teams@ == old(self).free_teams@,
                temp@.len() == 0,
            decreases n - i,
        {
            frontier.clear();
            let team = &mut self.teams[i];
            let location = team.location;
            if team.mapping.valid(location.0, location.1) {
                frontier.push(location);
                let reached = team.mapping.remap(location, &mut frontier, &mut temp);
                ok = ok && reached;
            } else {
                ok = false;
            }
            i = i + 1;
        }
        ok
    }

    /// Blocks a cell for every team, backing the change out when some
    /// team can no longer reach its location.
    pub fn place(&mut self, location: (i32, i32)) -> (r: bool)
        requires
            old(self).wf(),
        ensures
            final(self).wf(),
            final(self).teams_spec().len() == old(self).teams_spec().len(),
            final(self).free_spec() == old(self).free_spec(),
    {
        let n = self.teams.len();
        let mut i: usize = 0;
        while i < n
            invariant
                i <= n,
                self.wf(),
                n == self.teams@.len(),
                self.teams@.len() == old(self).teams@.len(),
                self.free_teams@ == old(self).free_teams@,
            decreases n - i,
        {
            let team = &mut self.teams[i];
            if team.mapping.valid(location.0, location.1) {
                team.mapping.place(location);
            }
            i = i + 1;
        }
        if !self.remap() {
            let mut j: usize = 0;
            while j < n
                invariant
                    j <= n,
                    self.wf(),
                    n == self.teams@.len(),
                    self.teams@.len() == old(self).teams@.len(),
                    self.free_teams@ == old(self).free_teams@,
                decreases n - j,
            {
                let team = &mut self.teams[j];
                if team.mapping.valid(location.0, location.1) {
                    team.mapping.remove(location);
                }
                j = j + 1;
            }
            self.remap();
            false
        } else {
            true
        }
    }

    /// Unblocks a cell for every team and recomputes the mappings.
    pub fn remove(&mut self, location: (i32, i32))
        requires
            old(self).wf(),
        ensures
            final(self).wf(),
            final(self).teams_spec().len() == old(self).teams_spec().len(),
            final(self).free_spec() == old(self).free_spec(),
    {
        let n = self.teams.len();
        let mut i: usize = 0;
        while i < n
            invariant
                i <= n,
                self.wf(),
                n == self.teams@.len(),
                self.teams@.len() == old(self).teams@.len(),
                self.free_teams@ == old(self).free_teams@,
            decreases n - i,
        {
            let team = &mut self.teams[i];
            if team.mapping.valid(location.0, location.1) {
                team.mapping.remove(location);
            }
            i = i + 1;
        }
        self.remap();
    }

    /// One step toward a team's location from the given cell.
    pub fn next_step(&self, team: TeamId, x: i32, y: i32) -> (r: (i32, i32))
        requires
            self.wf(),
            team.0 < self.teams_spec().len(),
            -0x4000_0000 < x < 0x4000_0000,
            -0x4000_0000 < y < 0x4000_0000,
        ensures
            r == (x, y) || self.teams_spec()[team.0 as int].mapping.cell(r.0 as int, r.1 as int)
                >= 0,
    {
        let idx = team.0 as usize;
        self.teams[idx].mapping.next_step(x, y)
    }
}

impl Synchronize for InnerPathFinder {
    open spec fn synced_with(&self, source: &Self) -> bool {
        &&& self.teams_spec().len() == source.teams_spec().len()
        &&& forall|i: int|
            0 <= i < self.teams_spec().len() ==> (#[trigger] self.teams_spec()[i]).synced_with(
                &source.teams_spec()[i],
            )
    }

    fn synchronize(&mut self, source: &Self) {
        while self.teams.len() > source.teams.len()
            invariant
                true,
            decreases self.teams@.len(),
        {
            self.teams.pop();
        }
        while self.teams.len() < source.teams.len()
            invariant
                self.teams@.len() <= source.teams@.len(),
            decreases source.teams@.len() - self.teams@.len(),
        {
            self.teams.push(Team::default());
        }
        let n = self.teams.len();
        let mut i: usize = 0;
        while i < n
            invariant
                i <= n,
                n == self.teams@.len(),
                self.teams@.len() == source.teams@.len(),
                forall|k: int|
                    0 <= k < i ==> (#[trigger] self.teams@[k]).synced_with(&source.teams@[k]),
            decreases n - i,
        {
            let dest = &mut self.teams[i];
            dest.synchronize(&source.teams[i]);
            i = i + 1;
        }
    }
}

} // verus!
