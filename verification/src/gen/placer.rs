//! Placing rooms phase by phase, one random candidate at a time.
use vstd::prelude::*;

use crate::data::grid::MapGrid;
use crate::data::types::{GridPos, GridSize, GridSquare};
use crate::gen::room_gen::{
    all_linked, center_fits, collides, free_of, inside, on_link, only_turned_on, room_fits,
    room_rect, size_span,
    ClassificationResult, RoomBasedGen,
};
use crate::gen::coverage::lemma_filled_rooms_on_count;
use crate::gen::rooms::{buffered, Room, RoomSize};
use crate::util::random::random_usize;
use crate::util::tri::TriState;

verus! {

/// How the rooms of one phase are drawn: half-open ranges for the corner and the size, the
/// number of rooms to reach before the phase ends, whether a room must stop short of the far
/// edges of the map, and how far it must keep from the rooms placed before it.
#[derive(Clone, Copy, Debug)]
pub struct RoomPhase {
    pub x_range: (usize, usize),
    pub y_range: (usize, usize),
    pub w_range: (usize, usize),
    pub h_range: (usize, usize),
    pub target: usize,
    pub strict: bool,
    pub buffer: Option<usize>,
}

/// The result of one attempt to place a room.
#[derive(Clone, Copy, Debug, PartialEq, Eq, Structural)]
pub enum Placement {
    /// A room was drawn and kept.
    Added,
    /// A room was drawn and dropped, as it did not fit or it collided with another.
    Rejected,
    /// Every phase has its rooms.
    Finished,
    /// A room was kept in phase `0` after more than 10000 attempts in that phase.
    TooManyAttempts(usize),
}

/// The number of attempts in one phase after which a kept room is reported.
pub const MAX_PHASE_ATTEMPTS: usize = 10000;

/// The widest buffer of a phase, 0 for none.
pub open spec fn buffer_of(p: RoomPhase) -> int {
    match p.buffer {
        Some(b) => b as int,
        None => 0,
    }
}

/// Whether the ranges of a phase can be drawn from, and every room drawn from them can be
/// checked without overflow.
pub open spec fn phase_ok(p: RoomPhase) -> bool {
    &&& p.x_range.0 < p.x_range.1
    &&& p.y_range.0 < p.y_range.1
    &&& p.w_range.0 < p.w_range.1
    &&& p.h_range.0 < p.h_range.1
    &&& p.x_range.1 + p.w_range.1 + buffer_of(p) <= usize::MAX
    &&& p.y_range.1 + p.h_range.1 + buffer_of(p) <= usize::MAX
}

/// The first phase, from `k` on, whose target is not reached with `n` rooms (or the number of
/// phases when there is none).
pub open spec fn next_phase(phases: Seq<RoomPhase>, k: int, n: int) -> int
    decreases phases.len() - k,
{
    if k >= phases.len() || n < phases[k].target {
        k
    } else {
        next_phase(phases, k + 1, n)
    }
}

/// Whether the rooms lie inside a `width` by `height` map and each of them overlaps none of
/// the rooms before it.
pub open spec fn rooms_ok(rooms: Seq<Room>, width: int, height: int) -> bool {
    &&& forall|t: int|
        #![trigger rooms[t]]
        0 <= t < rooms.len() ==> {
            let s = rooms[t].spec_square();
            s.min.x <= s.max.x <= width && s.min.y <= s.max.y <= height
        }
    &&& forall|a: int, b: int|
        0 <= a < b < rooms.len() ==> !(#[trigger] rooms[b].spec_square()).spec_intersects(
            #[trigger] rooms[a].spec_square(),
        )
}

/// Whether `g` holds the rooms `rooms` connected as [`RoomBasedGen::connect_all_rooms`]
/// connects them, in the order `rs` it put them in: `rs` holds the same rooms; with two
/// rooms or more, each has a connection drawn to some room; and every cell that is on lies in
/// a room or on a connection between two rooms.
pub open spec fn connected_rooms<F: Fn(GridPos, GridPos) -> Vec<(usize, usize)>>(
    g: MapGrid,
    rooms: Seq<Room>,
    rs: Seq<Room>,
    curve: &F,
) -> bool {
    &&& rs.to_multiset() == rooms.to_multiset()
    &&& rs.len() >= 2 ==> all_linked(g, rs, curve)
    &&& forall|i: int, j: int|
        #![trigger g.state_at(i, j)]
        g.in_bounds(i, j) && g.state_at(i, j) == TriState::True ==> (exists|t: int|
            0 <= t < rooms.len() && #[trigger] inside(rooms[t].spec_square(), i, j)) || (exists|t: int, u: int|
            0 <= t < rs.len() && 0 <= u < rs.len() && #[trigger] on_link(rs[t], rs[u], curve, i, j))
}

/// Whether `r` is the map that [`RoomPlacer::finish`] builds from the placer `p`: its size,
/// no name, every cell on or off, every room of `p` filled, and the rooms connected.
pub open spec fn built_map<F: Fn(GridPos, GridPos) -> Vec<(usize, usize)>>(r: MapGrid, p: RoomPlacer, curve: &F) -> bool {
    &&& r.wf()
    &&& r.spec_width() == p.spec_width()
    &&& r.spec_height() == p.spec_height()
    &&& r.spec_name() is None
    &&& forall|i: int, j: int|
        #![trigger r.state_at(i, j)]
        r.in_bounds(i, j) ==> r.state_at(i, j) == TriState::True || r.state_at(i, j) == TriState::False
    &&& forall|i: int, j: int, t: int|
        #![trigger r.state_at(i, j), p.spec_rooms()[t]]
        r.in_bounds(i, j) && 0 <= t < p.spec_rooms().len() && inside(p.spec_rooms()[t].spec_square(), i, j)
            ==> r.state_at(i, j) == TriState::True
    &&& exists|rs: Seq<Room>|
        #![trigger connected_rooms(r, p.spec_rooms(), rs, curve)]
        connected_rooms(r, p.spec_rooms(), rs, curve)
}

/// Whether `g` is the map built from `p`, a placer that went on from `start` (same map and
/// phases) until every phase had its rooms.
pub open spec fn finished_from<F: Fn(GridPos, GridPos) -> Vec<(usize, usize)>>(
    g: MapGrid,
    start: RoomPlacer,
    p: RoomPlacer,
    curve: &F,
) -> bool {
    &&& p.wf()
    &&& p.spec_width() == start.spec_width()
    &&& p.spec_height() == start.spec_height()
    &&& p.spec_phases() == start.spec_phases()
    &&& p.spec_phase() == start.spec_phases().len()
    &&& forall|k: int|
        0 <= k < p.spec_phases().len() ==> (#[trigger] p.spec_phases()[k]).target
            <= p.spec_rooms().len()
    &&& built_map(g, p, curve)
}

/// Whether the square `s` can be drawn from the ranges of the phase `ph`: its corner from the
/// corner ranges, its width and height from the size ranges.
pub open spec fn drawn_from(s: GridSquare, ph: RoomPhase) -> bool {
    &&& ph.x_range.0 <= s.min.x < ph.x_range.1
    &&& ph.y_range.0 <= s.min.y < ph.y_range.1
    &&& ph.w_range.0 <= s.max.x - s.min.x < ph.w_range.1
    &&& ph.h_range.0 <= s.max.y - s.min.y < ph.h_range.1
}

/// Whether `rooms` went on from `first` under the phases `phases`: it keeps the rooms of
/// `first` first, and each room after them was drawn from the phase that was current when it
/// was placed, the first phase whose target the rooms before it did not reach.
pub open spec fn grown_rooms(rooms: Seq<Room>, phases: Seq<RoomPhase>, first: Seq<Room>) -> bool {
    &&& first.len() <= rooms.len()
    &&& rooms.take(first.len() as int) == first
    &&& forall|t: int| first.len() <= t < rooms.len() ==> #[trigger] room_drawn(rooms, phases, t)
}

/// Whether room `t` of `rooms` was drawn from the phase that was current when it was placed,
/// the first phase whose target the `t` rooms before it did not reach.
pub open spec fn room_drawn(rooms: Seq<Room>, phases: Seq<RoomPhase>, t: int) -> bool {
    let k = next_phase(phases, 0, t);
    &&& 0 <= k < phases.len()
    &&& drawn_from(rooms[t].spec_square(), phases[k])
}

/// Whether the placer `p` went on from `start`: its rooms went on from those of `start` under
/// its phases (see [`grown_rooms`]).
pub open spec fn grown_from(p: RoomPlacer, start: RoomPlacer) -> bool {
    grown_rooms(p.spec_rooms(), p.spec_phases(), start.spec_rooms())
}

/// Whether `p`, a placer that went on from `start` (same map and phases), stopped in phase
/// `k`: the count of attempts reached `usize::MAX`, or a room of phase `k` was kept after
/// more than 10000 attempts in it.
pub open spec fn stopped_at(p: RoomPlacer, start: RoomPlacer, k: int) -> bool {
    &&& p.wf()
    &&& p.spec_width() == start.spec_width()
    &&& p.spec_height() == start.spec_height()
    &&& p.spec_phases() == start.spec_phases()
    &&& grown_from(p, start)
    &&& p.spec_phase() == k
    &&& p.spec_total() == usize::MAX || p.spec_iters() > MAX_PHASE_ATTEMPTS
}

/// Whether every phase of `p` from its current one on already has its rooms.
pub open spec fn targets_met(p: RoomPlacer) -> bool {
    next_phase(p.spec_phases(), p.spec_phase(), p.spec_rooms().len() as int) == p.spec_phases().len()
}

/// What [`RoomPlacer::run`] gives from the placer `start`: a map built from a placer that went
/// on from `start` until every phase had its rooms, or a phase in which a placer that went on
/// from `start` stopped.
pub open spec fn run_result<F: Fn(GridPos, GridPos) -> Vec<(usize, usize)>>(
    r: Result<MapGrid, usize>,
    start: RoomPlacer,
    curve: &F,
) -> bool {
    match r {
        Ok(g) => exists|p: RoomPlacer| #[trigger] finished_from(g, start, p, curve) && grown_from(p, start),
        Err(k) => k < start.spec_phases().len() && exists|p: RoomPlacer| #[trigger] stopped_at(p, start, k as int),
    }
}

/// Places rooms on a map in phases: each attempt draws one room from the ranges of the
/// current phase and keeps it when it fits the map and keeps clear of the rooms already
/// placed; a phase ends when the number of rooms reaches its target.
pub struct RoomPlacer {
    map_width: usize,
    map_height: usize,
    phases: Vec<RoomPhase>,
    phase: usize,
    rooms: Vec<Room>,
    iters: usize,
    total: usize,
}

impl RoomPlacer {
    /// The width of the map.
    pub closed spec fn spec_width(&self) -> usize {
        self.map_width
    }

    /// The height of the map.
    pub closed spec fn spec_height(&self) -> usize {
        self.map_height
    }

    /// The phases.
    pub closed spec fn spec_phases(&self) -> Seq<RoomPhase> {
        self.phases@
    }

    /// The index of the current phase.
    pub closed spec fn spec_phase(&self) -> int {
        self.phase as int
    }

    /// The rooms placed so far.
    pub closed spec fn spec_rooms(&self) -> Seq<Room> {
        self.rooms@
    }

    /// The attempts made in the current phase.
    pub closed spec fn spec_iters(&self) -> int {
        self.iters as int
    }

    /// The attempts made in all phases.
    pub closed spec fn spec_total(&self) -> int {
        self.total as int
    }

    /// Well-formedness: a map of at least 3 by 3 cells whose count fits in a `usize`, phases
    /// that can be drawn from, and rooms inside the map that do not overlap.
    pub open spec fn wf(&self) -> bool {
        &&& 3 <= self.spec_width()
        &&& 3 <= self.spec_height()
        &&& self.spec_width() * self.spec_height() <= usize::MAX
        &&& 0 <= self.spec_phase() <= self.spec_phases().len()
        &&& forall|k: int| 0 <= k < self.spec_phases().len() ==> phase_ok(#[trigger] self.spec_phases()[k])
        &&& rooms_ok(self.spec_rooms(), self.spec_width() as int, self.spec_height() as int)
        &&& 0 <= self.spec_iters() <= self.spec_total()
        &&& forall|k: int|
            0 <= k < self.spec_phase() ==> (#[trigger] self.spec_phases()[k]).target
                <= self.spec_rooms().len()
    }

    /// A placer for a `width` by `height` map with the given phases and no rooms yet.
    pub fn new(width: usize, height: usize, phases: Vec<RoomPhase>) -> (r: Self)
        requires
            3 <= width,
            3 <= height,
            width * height <= usize::MAX,
            forall|k: int| 0 <= k < phases@.len() ==> phase_ok(#[trigger] phases@[k]),
        ensures
            r.wf(),
            r.spec_width() == width,
            r.spec_height() == height,
            r.spec_phases() == phases@,
            r.spec_phase() == 0,
            r.spec_rooms() == Seq::<Room>::empty(),
            r.spec_iters() == 0,
            r.spec_total() == 0,
    {
        RoomPlacer { map_width: width, map_height: height, phases, phase: 0, rooms: Vec::new(), iters: 0, total: 0 }
    }

    /// The rooms placed so far.
    pub fn rooms(&self) -> (r: &Vec<Room>)
        ensures
            r@ == self.spec_rooms(),
    {
        &self.rooms
    }

    /// Makes one attempt: moves on to the first phase whose target is not reached (counting
    /// its attempts from 0), then draws a room from its ranges and keeps it when it fits the
    /// map and keeps clear of the rooms placed so far (see
    /// [`RoomBasedGen::try_add_room`]). A kept room made after more than 10000 attempts in its
    /// phase is reported as [`Placement::TooManyAttempts`].
    pub fn attempt(&mut self) -> (r: Placement)
        requires
            old(self).wf(),
            old(self).spec_total() < usize::MAX,
        ensures
            final(self).wf(),
            final(self).spec_width() == old(self).spec_width(),
            final(self).spec_height() == old(self).spec_height(),
            final(self).spec_phases() == old(self).spec_phases(),
            final(self).spec_phase() == next_phase(
                old(self).spec_phases(),
                old(self).spec_phase(),
                old(self).spec_rooms().len() as int,
            ),
            final(self).spec_phase() == old(self).spec_phases().len() ==> r == Placement::Finished
                && final(self).spec_rooms() == old(self).spec_rooms() && final(self).spec_iters()
                == (if final(self).spec_phase() == old(self).spec_phase() {
                old(self).spec_iters()
            } else {
                0
            }) && final(self).spec_total() == old(self).spec_total(),
            final(self).spec_phase() < old(self).spec_phases().len() ==> {
                let p = final(self).spec_phase();
                let ph = old(self).spec_phases()[p];
                &&& final(self).spec_iters() == (if p == old(self).spec_phase() {
                    old(self).spec_iters()
                } else {
                    0
                }) + 1
                &&& final(self).spec_total() == old(self).spec_total() + 1
                &&& exists|x: int, y: int, w: int, h: int|
                    #![trigger room_rect(x, y, w, h)]
                    {
                        &&& ph.x_range.0 <= x < ph.x_range.1
                        &&& ph.y_range.0 <= y < ph.y_range.1
                        &&& ph.w_range.0 <= w < ph.w_range.1
                        &&& ph.h_range.0 <= h < ph.h_range.1
                        &&& if room_fits(
                            x,
                            y,
                            w,
                            h,
                            old(self).spec_width() as int,
                            old(self).spec_height() as int,
                            ph.strict,
                        ) && free_of(old(self).spec_rooms(), room_rect(x, y, w, h), ph.buffer) {
                            &&& final(self).spec_rooms().drop_last() == old(self).spec_rooms()
                            &&& final(self).spec_rooms().len() == old(self).spec_rooms().len() + 1
                            &&& final(self).spec_rooms().last().spec_square() == room_rect(x, y, w, h)
                            &&& r == (if final(self).spec_iters() > MAX_PHASE_ATTEMPTS {
                                Placement::TooManyAttempts(p as usize)
                            } else {
                                Placement::Added
                            })
                        } else {
                            final(self).spec_rooms() == old(self).spec_rooms() && r
                                == Placement::Rejected
                        }
                    }
            },
            (r is Added || r is TooManyAttempts) <==> final(self).spec_rooms().len()
                == old(self).spec_rooms().len() + 1,
            !(r is Added || r is TooManyAttempts) ==> final(self).spec_rooms() == old(self).spec_rooms(),
            final(self).spec_rooms().len() == old(self).spec_rooms().len() + 1 ==> {
                &&& final(self).spec_rooms().drop_last() == old(self).spec_rooms()
                &&& final(self).spec_phase() < old(self).spec_phases().len()
                &&& drawn_from(
                    final(self).spec_rooms().last().spec_square(),
                    old(self).spec_phases()[final(self).spec_phase()],
                )
            },
    {
        let n = self.rooms.len();
        while self.phase < self.phases.len() && n >= self.phases[self.phase].target
            invariant
                self.wf(),
                self.map_width == old(self).map_width,
                self.map_height == old(self).map_height,
                self.phases@ == old(self).phases@,
                self.rooms@ == old(self).rooms@,
                self.total == old(self).total,
                n == self.rooms@.len(),
                old(self).phase <= self.phase,
                next_phase(self.phases@, self.phase as int, n as int) == next_phase(
                    old(self).phases@,
                    old(self).phase as int,
                    n as int,
                ),
                self.iters == (if self.phase == old(self).phase {
                    old(self).iters
                } else {
                    0
                }),
            decreases self.phases@.len() - self.phase,
        {
            self.phase = self.phase + 1;
            self.iters = 0;
        }
        if self.phase == self.phases.len() {
            return Placement::Finished;
        }
        let ph = self.phases[self.phase];
        proof {
            assert(phase_ok(self.phases@[self.phase as int]));
        }
        self.iters = self.iters + 1;
        self.total = self.total + 1;
        let x = random_usize(ph.x_range.0, ph.x_range.1);
        let y = random_usize(ph.y_range.0, ph.y_range.1);
        let w = random_usize(ph.w_range.0, ph.w_range.1);
        let h = random_usize(ph.h_range.0, ph.h_range.1);
        let ghost before = self.rooms@;
        let added = RoomBasedGen::try_add_room(
            &mut self.rooms,
            x,
            y,
            w,
            h,
            self.map_width,
            self.map_height,
            ph.strict,
            ph.buffer,
        );
        let ghost rect = room_rect(x as int, y as int, w as int, h as int);
        proof {
            if added {
                lemma_rooms_ok_push(before, self.rooms@, rect, ph, self.map_width as int, self.map_height as int);
            }
        }
        let r = if added {
            if self.iters > MAX_PHASE_ATTEMPTS {
                Placement::TooManyAttempts(self.phase)
            } else {
                Placement::Added
            }
        } else {
            Placement::Rejected
        };
        proof {
            let p = self.phase as int;
            assert(old(self).spec_phases()[p] == ph);
            assert(ph.x_range.0 <= x < ph.x_range.1);
            assert(rect == room_rect(x as int, y as int, w as int, h as int));
            if added {
                assert(rect.min.x == x && rect.max.x == x + w);
                assert(rect.min.y == y && rect.max.y == y + h);
                assert(drawn_from(rect, ph));
            }
        }
        r
    }

    /// Makes attempts until every phase has its rooms, then builds the map (see
    /// [`RoomPlacer::finish`]). When every phase already has its rooms, no room is drawn and
    /// the map holds the rooms placed so far.
    ///
    /// ### Errors
    /// The phase, when a room of it was kept after more than 10000 attempts in it
    /// ([`Placement::TooManyAttempts`]), or the current phase when the count of attempts
    /// reaches `usize::MAX` before every phase has its rooms.
    pub fn run<F: Fn(GridPos, GridPos) -> Vec<(usize, usize)>>(self, curve: &F) -> (r: Result<MapGrid, usize>)
        requires
            self.wf(),
            forall|a: GridPos, b: GridPos| curve.requires((a, b)),
        ensures
            run_result(r, self, curve),
            targets_met(self) && (self.spec_total() < usize::MAX || self.spec_phase()
                == self.spec_phases().len()) ==> (r matches Ok(g) && exists|p: RoomPlacer|
                #[trigger] finished_from(g, self, p, curve) && p.spec_rooms() == self.spec_rooms()),
            self.spec_total() == usize::MAX && self.spec_phase() < self.spec_phases().len() ==> r
                == Err::<MapGrid, usize>(self.spec_phase() as usize),
    {
        let ghost start = self;
        let ghost cv = curve;
        let mut placer = self;
        let mut result: Result<MapGrid, usize> = Err(0);
        proof {
            assert(start.spec_rooms().take(start.spec_rooms().len() as int) =~= start.spec_rooms());
        }
        loop
            invariant_except_break
                placer.wf(),
                placer.spec_width() == start.spec_width(),
                placer.spec_height() == start.spec_height(),
                placer.spec_phases() == start.spec_phases(),
                grown_from(placer, start),
                start.spec_total() <= placer.spec_total(),
                placer.spec_total() == start.spec_total() ==> placer == start,
                targets_met(start) && (start.spec_total() < usize::MAX || start.spec_phase()
                    == start.spec_phases().len()) ==> placer == start,
                forall|a: GridPos, b: GridPos| curve.requires((a, b)),
            invariant
                cv == curve,
            ensures
                run_result(result, start, cv),
                targets_met(start) && (start.spec_total() < usize::MAX || start.spec_phase()
                    == start.spec_phases().len()) ==> (result matches Ok(g) && exists|p: RoomPlacer|
                    #[trigger] finished_from(g, start, p, cv) && p.spec_rooms() == start.spec_rooms()),
                start.spec_total() == usize::MAX && start.spec_phase() < start.spec_phases().len()
                    ==> result == Err::<MapGrid, usize>(start.spec_phase() as usize),
            decreases usize::MAX - placer.spec_total(),
        {
            if placer.total == usize::MAX {
                if placer.phase == placer.phases.len() {
                    let ghost last = placer;
                    proof {
                        lemma_targets_all_met(last);
                    }
                    let map = placer.finish(curve);
                    let ghost built = map;
                    result = Ok(map);
                    proof {
                        assert(finished_from(built, start, last, cv));
                        assert(result->Ok_0 == built);
                        assert(run_result(result, start, cv));
                    }
                } else {
                    result = Err(placer.phase);
                    proof {
                        assert(stopped_at(placer, start, placer.spec_phase()));
                        assert(run_result(result, start, cv));
                    }
                }
                break;
            }
            let ghost before = placer;
            let step = placer.attempt();
            proof {
                lemma_next_phase_from_zero(before.spec_phases(), before.spec_phase(), before.spec_rooms().len() as int);
                if placer.spec_rooms().len() == before.spec_rooms().len() + 1 {
                    lemma_grown_push(start, before, placer);
                } else {
                    assert(placer.spec_rooms() == before.spec_rooms());
                    assert(grown_from(placer, start));
                }
            }
            match step {
                Placement::Finished => {
                    let ghost last = placer;
                    proof {
                        lemma_targets_all_met(last);
                    }
                    let map = placer.finish(curve);
                    let ghost built = map;
                    result = Ok(map);
                    proof {
                        assert(finished_from(built, start, last, cv));
                        assert(result->Ok_0 == built);
                    }
                    break;
                },
                Placement::TooManyAttempts(k) => {
                    result = Err(k);
                    proof {
                        assert(stopped_at(placer, start, k as int));
                    }
                    break;
                },
                Placement::Added => {},
                Placement::Rejected => {},
            }
        }
        result
    }

    /// Builds the map: an empty map with every room filled, then the rooms connected (see
    /// [`RoomBasedGen::connect_all_rooms`]), with `curve` drawing the curved connections.
    pub fn finish<F: Fn(GridPos, GridPos) -> Vec<(usize, usize)>>(self, curve: &F) -> (r: MapGrid)
        requires
            self.wf(),
            forall|a: GridPos, b: GridPos| curve.requires((a, b)),
        ensures
            r.wf(),
            r.spec_width() == self.spec_width(),
            r.spec_height() == self.spec_height(),
            r.spec_name() is None,
            forall|i: int, j: int|
                #![trigger r.state_at(i, j)]
                r.in_bounds(i, j) ==> r.state_at(i, j) == TriState::True || r.state_at(i, j)
                    == TriState::False,
            forall|i: int, j: int, t: int|
                #![trigger r.state_at(i, j), self.spec_rooms()[t]]
                r.in_bounds(i, j) && 0 <= t < self.spec_rooms().len() && inside(
                    self.spec_rooms()[t].spec_square(),
                    i,
                    j,
                ) ==> r.state_at(i, j) == TriState::True,
            exists|rs: Seq<Room>|
                #![trigger connected_rooms(r, self.spec_rooms(), rs, curve)]
                connected_rooms(r, self.spec_rooms(), rs, curve),
    {
        let ghost rooms0 = self.rooms@;
        let mut grid = MapGrid::empty((self.map_width, self.map_height));
        let mut rooms = self.rooms;
        let mut k: usize = 0;
        while k < rooms.len()
            invariant
                rooms@ == rooms0,
                k <= rooms@.len(),
                grid.wf(),
                grid.spec_width() == self.map_width,
                grid.spec_height() == self.map_height,
                grid.spec_name() is None,
                forall|i: int, j: int|
                    #![trigger grid.state_at(i, j)]
                    grid.in_bounds(i, j) ==> grid.state_at(i, j) == TriState::True || grid.state_at(i, j)
                        == TriState::False,
                forall|i: int, j: int, t: int|
                    #![trigger grid.state_at(i, j), rooms0[t]]
                    grid.in_bounds(i, j) && 0 <= t < k && inside(rooms0[t].spec_square(), i, j)
                        ==> grid.state_at(i, j) == TriState::True,
                forall|i: int, j: int|
                    #![trigger grid.state_at(i, j)]
                    grid.in_bounds(i, j) && grid.state_at(i, j) == TriState::True ==> exists|t: int|
                        0 <= t < k && #[trigger] inside(rooms0[t].spec_square(), i, j),
            decreases rooms@.len() - k,
        {
            let ghost before = grid;
            RoomBasedGen::fill_room_on_grid(&rooms[k], &mut grid);
            proof {
                assert forall|i: int, j: int, t: int|
                    #![trigger grid.state_at(i, j), rooms0[t]]
                    grid.in_bounds(i, j) && 0 <= t < k + 1 && inside(rooms0[t].spec_square(), i, j)
                        implies grid.state_at(i, j) == TriState::True by {
                    assert(before.state_at(i, j) == before.state_at(i, j));
                }
                assert forall|i: int, j: int|
                    #![trigger grid.state_at(i, j)]
                    grid.in_bounds(i, j) implies grid.state_at(i, j) == TriState::True || grid.state_at(i, j)
                        == TriState::False by {
                    assert(before.state_at(i, j) == before.state_at(i, j));
                }
                assert forall|i: int, j: int|
                    #![trigger grid.state_at(i, j)]
                    grid.in_bounds(i, j) && grid.state_at(i, j) == TriState::True implies exists|t: int|
                        0 <= t < k + 1 && #[trigger] inside(rooms0[t].spec_square(), i, j) by {
                    if before.state_at(i, j) == TriState::True {
                        let t = choose|t: int| 0 <= t < k && #[trigger] inside(rooms0[t].spec_square(), i, j);
                        assert(inside(rooms0[t].spec_square(), i, j));
                    } else {
                        assert(inside(rooms0[k as int].spec_square(), i, j));
                    }
                }
            }
            k = k + 1;
        }
        proof {
            assert forall|t: int| 0 <= t < rooms@.len() implies center_fits(#[trigger] rooms@[t].spec_square()) by {
                assert(rooms0[t].spec_square().max.x <= self.map_width);
                assert(rooms0[t].spec_square().max.y <= self.map_height);
                assert(self.map_width + self.map_width <= usize::MAX) by (nonlinear_arith)
                    requires
                        self.map_width * self.map_height <= usize::MAX,
                        3 <= self.map_height,
                ;
                assert(self.map_height + self.map_height <= usize::MAX) by (nonlinear_arith)
                    requires
                        self.map_width * self.map_height <= usize::MAX,
                        3 <= self.map_width,
                ;
            }
        }
        let ghost filled = grid;
        RoomBasedGen::connect_all_rooms(&mut grid, &mut rooms, curve);
        proof {
            assert forall|i: int, j: int|
                #![trigger grid.state_at(i, j)]
                grid.in_bounds(i, j) implies grid.state_at(i, j) == TriState::True || grid.state_at(i, j)
                    == TriState::False by {
                assert(filled.state_at(i, j) == filled.state_at(i, j));
            }
            assert forall|i: int, j: int, t: int|
                #![trigger grid.state_at(i, j), rooms0[t]]
                grid.in_bounds(i, j) && 0 <= t < rooms0.len() && inside(rooms0[t].spec_square(), i, j)
                    implies grid.state_at(i, j) == TriState::True by {
                assert(filled.state_at(i, j) == TriState::True);
            }
            assert forall|i: int, j: int|
                #![trigger grid.state_at(i, j)]
                grid.in_bounds(i, j) && grid.state_at(i, j) == TriState::True implies (exists|t: int|
                    0 <= t < rooms0.len() && #[trigger] inside(rooms0[t].spec_square(), i, j)) || (exists|
                    t: int,
                    u: int,
                |
                    0 <= t < rooms@.len() && 0 <= u < rooms@.len() && #[trigger] on_link(
                        rooms@[t],
                        rooms@[u],
                        curve,
                        i,
                        j,
                    )) by {
                if grid.state_at(i, j) != filled.state_at(i, j) {
                    assert(filled.in_bounds(i, j));
                } else {
                    assert(filled.state_at(i, j) == TriState::True);
                }
            }
            assert(rooms@.len() == rooms0.len()) by {
                rooms@.to_multiset_ensures();
                rooms0.to_multiset_ensures();
            }
            assert(connected_rooms(grid, self.spec_rooms(), rooms@, curve));
        }
        grid
    }
}

/// A map that [`RoomPlacer::run`] builds from a placer set up as
/// [`RoomBasedGen::tiered_placer`] sets it up (no rooms yet; a big, a medium and a small phase
/// shaped for the map, reaching at least 2, then 3 and then 4 more rooms) has at least 225
/// cells on: it holds at least 9 rooms that do not overlap, each at least 5 by 5, all filled.
pub proof fn lemma_tiered_on_cells<F: Fn(GridPos, GridPos) -> Vec<(usize, usize)>>(
    start: RoomPlacer,
    g: MapGrid,
    curve: &F,
)
    requires
        start.wf(),
        start.spec_rooms().len() == 0,
        start.spec_phases().len() == 3,
        shaped_for(start.spec_phases()[0], RoomSize::Big, start.spec_width() as int, start.spec_height() as int),
        shaped_for(start.spec_phases()[1], RoomSize::Medium, start.spec_width() as int, start.spec_height() as int),
        shaped_for(start.spec_phases()[2], RoomSize::Small, start.spec_width() as int, start.spec_height() as int),
        2 <= start.spec_phases()[0].target,
        3 <= start.spec_phases()[1].target - start.spec_phases()[0].target,
        4 <= start.spec_phases()[2].target - start.spec_phases()[1].target,
        run_result(Ok::<MapGrid, usize>(g), start, curve),
    ensures
        g.count_state(TriState::True) >= 225,
{
    let p = choose|p: RoomPlacer| #[trigger] finished_from(g, start, p, curve) && grown_from(p, start);
    let rooms = p.spec_rooms();
    let phases = p.spec_phases();
    let n = rooms.len() as int;
    assert(phases[2].target <= n);
    assert forall|t: int|
        #![trigger rooms[t]]
        0 <= t < n implies {
            let s = rooms[t].spec_square();
            &&& s.min.x + 5 <= s.max.x <= g.spec_width()
            &&& s.min.y + 5 <= s.max.y <= g.spec_height()
        } by {
        assert(room_drawn(rooms, phases, t));
        let k = next_phase(phases, 0, t);
        assert(k == 0 || k == 1 || k == 2);
        assert(phases[k].w_range.0 >= 5 && phases[k].h_range.0 >= 5);
    }
    lemma_filled_rooms_on_count(g, rooms, n);
}

/// From phase `a` on the first phase whose target `n` rooms do not reach is the same as from
/// phase 0, when `n` reaches the targets of the phases before `a`.
proof fn lemma_next_phase_from_zero(phases: Seq<RoomPhase>, a: int, n: int)
    requires
        0 <= a <= phases.len(),
        forall|k: int| 0 <= k < a ==> (#[trigger] phases[k]).target <= n,
    ensures
        next_phase(phases, 0, n) == next_phase(phases, a, n),
    decreases a,
{
    if a > 0 {
        lemma_next_phase_from_zero(phases, a - 1, n);
        assert(phases[a - 1].target <= n);
    }
}

/// A placer whose current phase is past the last one has reached the target of every phase.
proof fn lemma_targets_all_met(p: RoomPlacer)
    requires
        p.wf(),
        p.spec_phase() == p.spec_phases().len(),
    ensures
        forall|k: int|
            0 <= k < p.spec_phases().len() ==> (#[trigger] p.spec_phases()[k]).target
                <= p.spec_rooms().len(),
{
}

/// One more room, drawn from the phase that was current, keeps a placer grown from `start`.
proof fn lemma_grown_push(start: RoomPlacer, before: RoomPlacer, after: RoomPlacer)
    requires
        grown_from(before, start),
        before.wf(),
        after.spec_phases() == before.spec_phases(),
        after.spec_rooms().len() == before.spec_rooms().len() + 1,
        after.spec_rooms().drop_last() == before.spec_rooms(),
        after.spec_phase() == next_phase(before.spec_phases(), before.spec_phase(), before.spec_rooms().len() as int),
        after.spec_phase() < after.spec_phases().len(),
        drawn_from(after.spec_rooms().last().spec_square(), before.spec_phases()[after.spec_phase()]),
        next_phase(before.spec_phases(), 0, before.spec_rooms().len() as int) == next_phase(
            before.spec_phases(),
            before.spec_phase(),
            before.spec_rooms().len() as int,
        ),
    ensures
        grown_from(after, start),
{
    let n = before.spec_rooms().len() as int;
    let m = start.spec_rooms().len() as int;
    let ra = after.spec_rooms();
    let rb = before.spec_rooms();
    let phases = before.spec_phases();
    assert forall|t: int| 0 <= t < n implies ra[t] == rb[t] by {
        assert(ra.drop_last()[t] == ra[t]);
    }
    assert(ra.take(m) =~= rb.take(m));
    assert forall|t: int| m <= t < ra.len() implies #[trigger] room_drawn(ra, phases, t) by {
        if t < n {
            assert(rb[t] == ra[t]);
            assert(room_drawn(rb, phases, t));
        } else {
            assert(ra.last() == ra[t]);
        }
    }
    assert(m <= ra.len());
    assert(ra.take(m) == start.spec_rooms());
    assert(grown_rooms(ra, phases, start.spec_rooms()));
}

/// Adding a room that fits and keeps clear of the others keeps the rooms inside the map and
/// apart.
proof fn lemma_rooms_ok_push(before: Seq<Room>, after: Seq<Room>, rect: crate::data::types::GridSquare, ph: RoomPhase, width: int, height: int)
    requires
        rooms_ok(before, width, height),
        after.drop_last() == before,
        after.len() == before.len() + 1,
        after.last().spec_square() == rect,
        rect.min.x <= rect.max.x <= width,
        rect.min.y <= rect.max.y <= height,
        rect.max.x + buffer_of(ph) <= usize::MAX,
        rect.max.y + buffer_of(ph) <= usize::MAX,
        free_of(before, rect, ph.buffer),
    ensures
        rooms_ok(after, width, height),
{
    let n = before.len() as int;
    assert forall|t: int| 0 <= t < n implies after[t] == before[t] by {
        assert(after.drop_last()[t] == before[t]);
    }
    assert forall|a: int, b: int|
        0 <= a < b < after.len() implies !(#[trigger] after[b].spec_square()).spec_intersects(
        #[trigger] after[a].spec_square(),
    ) by {
        if b == n {
            assert(!collides(rect, before[a].spec_square(), ph.buffer));
            match ph.buffer {
                Some(buf) => {
                    let g = buffered(rect, buf);
                    assert(g.min.x <= rect.min.x && g.min.y <= rect.min.y);
                    assert(g.max.x >= rect.max.x && g.max.y >= rect.max.y);
                },
                None => {},
            }
        } else {
            assert(after[a] == before[a]);
            assert(after[b] == before[b]);
        }
    }
    assert forall|t: int| #![trigger after[t]] 0 <= t < after.len() implies {
        let s = after[t].spec_square();
        s.min.x <= s.max.x <= width && s.min.y <= s.max.y <= height
    } by {
        if t < n {
            assert(after[t] == before[t]);
        }
    }
}

/// Whether the ranges of `p` are those of a room of class `size` on a `w` by `h` map: the
/// corner from 0 up to one past the axis length less the smallest size, and the size over
/// [`size_span`].
pub open spec fn shaped_for(p: RoomPhase, size: RoomSize, w: int, h: int) -> bool {
    &&& p.x_range.0 == 0
    &&& p.x_range.1 == w - size_span(size, w).0 + 1
    &&& p.y_range.0 == 0
    &&& p.y_range.1 == h - size_span(size, h).0 + 1
    &&& (p.w_range.0 as int, p.w_range.1 as int) == size_span(size, w)
    &&& (p.h_range.0 as int, p.h_range.1 as int) == size_span(size, h)
}

/// The sum of the integers from `start` up to, not including, `end`.
pub open spec fn range_sum(start: int, end: int) -> int
    decreases end - start,
{
    if end <= start {
        0
    } else {
        range_sum(start, end - 1) + (end - 1)
    }
}

/// The ranges of a room of class `size` on a `width` by `height` map, with the given target,
/// strictness and buffer.
fn shaped_phase(size: RoomSize, width: usize, height: usize, target: usize, strict: bool, buffer: Option<usize>) -> (r: RoomPhase)
    requires
        width >= size_span(size, width as int).0,
        height >= size_span(size, height as int).0,
        width * height <= usize::MAX,
        width >= 3,
        height >= 3,
        buffer_of_opt(buffer) <= 3,
    ensures
        shaped_for(r, size, width as int, height as int),
        r.target == target,
        r.strict == strict,
        r.buffer == buffer,
        phase_ok(r),
{
    let (ws, we) = RoomBasedGen::size_span_exec(size, width);
    let (hs, he) = RoomBasedGen::size_span_exec(size, height);
    proof {
        assert(width + width <= usize::MAX - 100) by (nonlinear_arith)
            requires
                width * height <= usize::MAX,
                height >= 3,
                usize::MAX >= 0xffff_ffff,
        ;
        assert(height + height <= usize::MAX - 100) by (nonlinear_arith)
            requires
                width * height <= usize::MAX,
                width >= 3,
                usize::MAX >= 0xffff_ffff,
        ;
    }
    RoomPhase {
        x_range: (0, width - ws + 1),
        y_range: (0, height - hs + 1),
        w_range: (ws, we),
        h_range: (hs, he),
        target,
        strict,
        buffer,
    }
}

/// The buffer of an optional buffer, 0 for none.
pub open spec fn buffer_of_opt(b: Option<usize>) -> int {
    match b {
        Some(v) => v as int,
        None => 0,
    }
}

impl RoomBasedGen {
    /// The placer of the tiered generator: 2 to 4 big rooms, then 3 to 6 medium ones, then 4 to
    /// 10 small ones (the numbers drawn at random), each kept 3 cells clear of the rooms placed
    /// before it; big rooms stop short of the far edges of the map.
    pub fn tiered_placer(size: GridSize) -> (r: RoomPlacer)
        requires
            size.width >= 5,
            size.height >= 5,
            size.width * size.height <= usize::MAX,
        ensures
            r.wf(),
            r.spec_width() == size.width,
            r.spec_height() == size.height,
            r.spec_phase() == 0,
            r.spec_rooms() == Seq::<Room>::empty(),
            r.spec_phases().len() == 3,
            shaped_for(r.spec_phases()[0], RoomSize::Big, size.width as int, size.height as int),
            shaped_for(r.spec_phases()[1], RoomSize::Medium, size.width as int, size.height as int),
            shaped_for(r.spec_phases()[2], RoomSize::Small, size.width as int, size.height as int),
            2 <= r.spec_phases()[0].target <= 4,
            3 <= r.spec_phases()[1].target - r.spec_phases()[0].target <= 6,
            4 <= r.spec_phases()[2].target - r.spec_phases()[1].target <= 10,
            r.spec_phases()[0].strict,
            !r.spec_phases()[1].strict,
            !r.spec_phases()[2].strict,
            r.spec_phases()[0].buffer == Some(3usize),
            r.spec_phases()[1].buffer == Some(3usize),
            r.spec_phases()[2].buffer == Some(3usize),
    {
        let w = size.width;
        let h = size.height;
        let big = random_usize(2, 5);
        let mid = random_usize(3, 7);
        let small = random_usize(4, 11);
        let mut phases: Vec<RoomPhase> = Vec::new();
        phases.push(shaped_phase(RoomSize::Big, w, h, big, true, Some(3)));
        phases.push(shaped_phase(RoomSize::Medium, w, h, big + mid, false, Some(3)));
        phases.push(shaped_phase(RoomSize::Small, w, h, big + mid + small, false, Some(3)));
        proof {
            assert forall|k: int| 0 <= k < phases@.len() implies phase_ok(#[trigger] phases@[k]) by {}
        }
        RoomPlacer::new(w, h, phases)
    }

    /// The placer of the heuristic tiered generator: huge rooms, then big, medium and small
    /// ones, as many of each as drawn from the half-open range in `counts` (in that order),
    /// with no room overlapping another; huge and big rooms stop short of the far edges.
    pub fn tiered_heuristic_placer(size: GridSize, counts: &Vec<(usize, usize)>) -> (r: RoomPlacer)
        requires
            size.width >= 8,
            size.height >= 8,
            size.width * size.height <= usize::MAX,
            counts@.len() == 4,
            forall|k: int| 0 <= k < 4 ==> #[trigger] counts@[k].0 < counts@[k].1,
            counts@[0].1 + counts@[1].1 + counts@[2].1 + counts@[3].1 <= usize::MAX,
        ensures
            r.wf(),
            r.spec_width() == size.width,
            r.spec_height() == size.height,
            r.spec_phase() == 0,
            r.spec_rooms() == Seq::<Room>::empty(),
            r.spec_phases().len() == 4,
            shaped_for(r.spec_phases()[0], RoomSize::Huge, size.width as int, size.height as int),
            shaped_for(r.spec_phases()[1], RoomSize::Big, size.width as int, size.height as int),
            shaped_for(r.spec_phases()[2], RoomSize::Medium, size.width as int, size.height as int),
            shaped_for(r.spec_phases()[3], RoomSize::Small, size.width as int, size.height as int),
            counts@[0].0 <= r.spec_phases()[0].target < counts@[0].1,
            counts@[1].0 <= r.spec_phases()[1].target - r.spec_phases()[0].target < counts@[1].1,
            counts@[2].0 <= r.spec_phases()[2].target - r.spec_phases()[1].target < counts@[2].1,
            counts@[3].0 <= r.spec_phases()[3].target - r.spec_phases()[2].target < counts@[3].1,
            r.spec_phases()[0].strict,
            r.spec_phases()[1].strict,
            !r.spec_phases()[2].strict,
            !r.spec_phases()[3].strict,
            forall|k: int| 0 <= k < 4 ==> (#[trigger] r.spec_phases()[k]).buffer is None,
    {
        let w = size.width;
        let h = size.height;
        proof {
            assert(counts@[0].0 < counts@[0].1);
            assert(counts@[1].0 < counts@[1].1);
            assert(counts@[2].0 < counts@[2].1);
            assert(counts@[3].0 < counts@[3].1);
        }
        let huge = random_usize(counts[0].0, counts[0].1);
        let big = random_usize(counts[1].0, counts[1].1);
        let mid = random_usize(counts[2].0, counts[2].1);
        let small = random_usize(counts[3].0, counts[3].1);
        let mut phases: Vec<RoomPhase> = Vec::new();
        phases.push(shaped_phase(RoomSize::Huge, w, h, huge, true, None));
        phases.push(shaped_phase(RoomSize::Big, w, h, huge + big, true, None));
        phases.push(shaped_phase(RoomSize::Medium, w, h, huge + big + mid, false, None));
        phases.push(shaped_phase(RoomSize::Small, w, h, huge + big + mid + small, false, None));
        proof {
            assert forall|k: int| 0 <= k < phases@.len() implies phase_ok(#[trigger] phases@[k]) by {}
        }
        RoomPlacer::new(w, h, phases)
    }

    /// The average of the integers of a half-open range, rounded down.
    pub fn range_average(start: usize, end: usize) -> (r: usize)
        requires
            start < end,
            range_sum(start as int, end as int) <= usize::MAX,
        ensures
            r == range_sum(start as int, end as int) / (end - start),
    {
        let mut total: usize = 0;
        let mut count: usize = 0;
        let mut x = start;
        while x < end
            invariant
                start <= x <= end,
                count == x - start,
                total == range_sum(start as int, x as int),
                range_sum(start as int, end as int) <= usize::MAX,
            decreases end - x,
        {
            proof {
                lemma_range_sum_mono(start as int, x as int + 1, end as int);
            }
            total = total + x;
            count = count + 1;
            x = x + 1;
        }
        total / count
    }

    /// The average size of a room of class `size` on a map classified as `class`: the product
    /// of its average width and its average height.
    pub fn average_room_cells(size: RoomSize, class: ClassificationResult) -> (r: usize)
        requires
            class.cols >= size_span(size, class.cols as int).0,
            class.rows >= size_span(size, class.rows as int).0,
            range_sum(size_span(size, class.cols as int).0, size_span(size, class.cols as int).1)
                <= usize::MAX,
            range_sum(size_span(size, class.rows as int).0, size_span(size, class.rows as int).1)
                <= usize::MAX,
            span_average(size, class.cols as int) * span_average(size, class.rows as int) <= usize::MAX,
        ensures
            r == span_average(size, class.cols as int) * span_average(size, class.rows as int),
    {
        let (_pos, sizes) = Self::get_room_sizes(size, class);
        let xs = sizes.0;
        let ys = sizes.1;
        let x_ave = Self::range_average(xs.start, xs.end);
        let y_ave = Self::range_average(ys.start, ys.end);
        x_ave * y_ave
    }
}

/// The average size of a room of class `size` along an axis of length `dim`, rounded down.
pub open spec fn span_average(size: RoomSize, dim: int) -> int {
    let (a, b) = size_span(size, dim);
    range_sum(a, b) / (b - a)
}

/// A longer range has a larger sum.
proof fn lemma_range_sum_mono(start: int, mid: int, end: int)
    requires
        0 <= start <= mid <= end,
    ensures
        range_sum(start, mid) <= range_sum(start, end),
    decreases end - mid,
{
    if mid < end {
        lemma_range_sum_mono(start, mid, end - 1);
    }
}

} // verus!
