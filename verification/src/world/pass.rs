//! The model of the update pass: what a tick has to move, in which order,
//! and what the world is after it.

use crate::component::model::lemma_store_put_wf;
use crate::component::orbit::SelestialOrbit;
use crate::component::pos::SelestialPos;
use crate::component::AnyComponent;
use crate::error::StoreError;
use crate::heap::model::{lemma_write_wf, Key};
use crate::type_tag::TypeTag;
use crate::world::model::{position_at, spec_dangling, WorldModel};
use vstd::prelude::*;

verus! {

/// What a tick does for one body: the position it overwrites, and the orbit
/// from which the new position comes. The host of the orbit is read when the
/// body's turn has come.
pub struct JobModel {
    pub pos: Key,
    pub orbit: SelestialOrbit,
}

impl JobModel {
    /// The position component of the host.
    pub open spec fn host(self) -> Key {
        self.orbit.center_component@
    }
}

/// The phase divisor of an orbit of `period` seconds at the tick `now`.
pub open spec fn phase_divisor(now: u64, period: u64) -> u64 {
    (now % period) as u64
}

/// What a tick does for `body`: nothing, where the body does not own both a
/// position and an orbit; else the job, or the reason for which the body
/// cannot be moved: its orbit cannot be read or has no period, its position
/// cannot be written, or the position of its host cannot be read.
pub open spec fn body_job(w: WorldModel, body: Key) -> Result<Option<JobModel>, StoreError> {
    if !(w.bindings.contains_key((body.id, TypeTag::SelestialPos)) && w.bindings.contains_key(
        (body.id, TypeTag::SelestialOrbit),
    )) {
        Ok(None)
    } else {
        let pos = w.bindings[(body.id, TypeTag::SelestialPos)];
        match w.components.read_as(
            w.bindings[(body.id, TypeTag::SelestialOrbit)],
            TypeTag::SelestialOrbit,
        ) {
            Err(e) => Err(spec_dangling(e)),
            Ok(AnyComponent::Orbit(orbit)) => if orbit.period_secs == 0 {
                Err(StoreError::ZeroPeriod)
            } else {
                match w.components.check(pos, TypeTag::SelestialPos) {
                    Err(e) => Err(spec_dangling(e)),
                    Ok(()) => match position_at(w, orbit.center_component@) {
                        Err(e) => Err(e),
                        Ok(_) => Ok(Some(JobModel { pos, orbit })),
                    },
                }
            },
            Ok(_) => Err(StoreError::DanglingReference),
        }
    }
}

/// The jobs of a tick for `bodies`, in their order, or the reason for which
/// the first body that cannot be moved cannot be.
pub open spec fn jobs_of(w: WorldModel, bodies: Seq<Key>) -> Result<Seq<JobModel>, StoreError>
    decreases bodies.len(),
{
    if bodies.len() == 0 {
        Ok(Seq::empty())
    } else {
        match jobs_of(w, bodies.drop_last()) {
            Err(e) => Err(e),
            Ok(jobs) => match body_job(w, bodies.last()) {
                Err(e) => Err(e),
                Ok(None) => Ok(jobs),
                Ok(Some(job)) => Ok(jobs.push(job)),
            },
        }
    }
}

/// The jobs of a tick: those of the planets, then those of the moons. The
/// stars are not moved.
pub open spec fn tick_jobs(w: WorldModel) -> Result<Seq<JobModel>, StoreError> {
    jobs_of(w, w.planets + w.moons)
}

/// Whether a tick can be made, and if not, why not.
pub open spec fn tick_check(w: WorldModel) -> Result<(), StoreError> {
    if w.tick_number == u64::MAX {
        Err(StoreError::Exhausted)
    } else {
        match tick_jobs(w) {
            Err(e) => Err(e),
            Ok(_) => Ok(()),
        }
    }
}

/// The world after the position `to` was written at `pos`.
pub open spec fn moved(w: WorldModel, pos: Key, to: SelestialPos) -> WorldModel {
    WorldModel { components: w.components.put(pos, AnyComponent::Pos(to)), ..w }
}

/// The world after the jobs were done in order, the job `i` writing `to[i]`.
pub open spec fn run_jobs(w: WorldModel, jobs: Seq<JobModel>, to: Seq<SelestialPos>) -> WorldModel
    decreases jobs.len(),
{
    if jobs.len() == 0 || to.len() != jobs.len() {
        w
    } else {
        moved(run_jobs(w, jobs.drop_last(), to.drop_last()), jobs.last().pos, to.last())
    }
}

/// Whether each of the positions `to` is one that `advance` gives for the
/// orbit of its job, the phase divisor of that orbit at the tick `now`, and
/// the position of the host as it is when the job's turn has come: after
/// all the jobs before it were done.
pub open spec fn jobs_follow<F: Fn(SelestialOrbit, u64, SelestialPos) -> SelestialPos>(
    w: WorldModel,
    jobs: Seq<JobModel>,
    to: Seq<SelestialPos>,
    now: u64,
    advance: F,
) -> bool
    decreases jobs.len(),
{
    if jobs.len() == 0 {
        to.len() == 0
    } else {
        let before = run_jobs(w, jobs.drop_last(), to.drop_last());
        &&& to.len() == jobs.len()
        &&& jobs_follow(w, jobs.drop_last(), to.drop_last(), now, advance)
        &&& position_at(before, jobs.last().host()) is Ok
        &&& call_ensures(
            advance,
            (
                jobs.last().orbit,
                phase_divisor(now, jobs.last().orbit.period_secs),
                position_at(before, jobs.last().host()).unwrap(),
            ),
            to.last(),
        )
    }
}

/// Whether `later` is `earlier` one tick on, the jobs of the tick having
/// written the positions `to`: the tick count is one more, the positions
/// follow from `advance` in the order of the jobs, and nothing else differs.
pub open spec fn ticked<F: Fn(SelestialOrbit, u64, SelestialPos) -> SelestialPos>(
    earlier: WorldModel,
    later: WorldModel,
    to: Seq<SelestialPos>,
    advance: F,
) -> bool {
    let jobs = tick_jobs(earlier).unwrap();
    let now = (earlier.tick_number + 1) as u64;
    &&& tick_check(earlier) is Ok
    &&& jobs_follow(earlier, jobs, to, now, advance)
    &&& later == (WorldModel { tick_number: now, ..run_jobs(earlier, jobs, to) })
}

/// Whether every one of `jobs` can be done in `w`: its position can be
/// written, the position of its host can be read, and its orbit has a period.
pub open spec fn jobs_ready(w: WorldModel, jobs: Seq<JobModel>) -> bool {
    forall|i: int|
        0 <= i < jobs.len() ==> {
            &&& w.components.check((#[trigger] jobs[i]).pos, TypeTag::SelestialPos) is Ok
            &&& position_at(w, jobs[i].host()) is Ok
            &&& jobs[i].orbit.period_secs > 0
        }
}

/// Once the job of one body cannot be made, the jobs of all fail with that
/// body's reason.
pub proof fn lemma_jobs_fail(w: WorldModel, bodies: Seq<Key>, i: int)
    requires
        0 <= i < bodies.len(),
        jobs_of(w, bodies.take(i)) is Ok,
        body_job(w, bodies[i]) is Err,
    ensures
        jobs_of(w, bodies) == Err::<Seq<JobModel>, StoreError>(body_job(w, bodies[i])->Err_0),
{
    assert(bodies.take(i + 1).drop_last() =~= bodies.take(i));
    assert(bodies.take(i + 1).last() == bodies[i]);
    lemma_jobs_stay_failed(w, bodies, i + 1);
}

/// Once the jobs of a prefix have failed, the jobs of the whole list fail
/// with the same reason.
pub proof fn lemma_jobs_stay_failed(w: WorldModel, bodies: Seq<Key>, i: int)
    requires
        0 <= i <= bodies.len(),
        jobs_of(w, bodies.take(i)) is Err,
    ensures
        jobs_of(w, bodies) == jobs_of(w, bodies.take(i)),
    decreases bodies.len() - i,
{
    if i == bodies.len() {
        assert(bodies.take(i) =~= bodies);
    } else {
        assert(bodies.take(i + 1).drop_last() =~= bodies.take(i));
        lemma_jobs_stay_failed(w, bodies, i + 1);
    }
}

/// The jobs that were made can be done.
pub proof fn lemma_jobs_ready(w: WorldModel, bodies: Seq<Key>)
    requires
        jobs_of(w, bodies) is Ok,
    ensures
        jobs_ready(w, jobs_of(w, bodies).unwrap()),
    decreases bodies.len(),
{
    if bodies.len() > 0 {
        lemma_jobs_ready(w, bodies.drop_last());
        let earlier = jobs_of(w, bodies.drop_last()).unwrap();
        let jobs = jobs_of(w, bodies).unwrap();
        assert forall|i: int| 0 <= i < jobs.len() implies {
            &&& w.components.check((#[trigger] jobs[i]).pos, TypeTag::SelestialPos) is Ok
            &&& position_at(w, jobs[i].host()) is Ok
            &&& jobs[i].orbit.period_secs > 0
        } by {
            if i < earlier.len() {
                assert(jobs[i] == earlier[i]);
            }
        }
    }
}

/// Writing a position keeps a world well formed, and changes neither which
/// handles are live nor their types; the position written can be read, and
/// every other position reads as before.
pub proof fn lemma_moved(w: WorldModel, pos: Key, to: SelestialPos)
    requires
        w.wf(),
    ensures
        moved(w, pos, to).wf(),
        moved(w, pos, to).bindings == w.bindings,
        moved(w, pos, to).planets == w.planets,
        moved(w, pos, to).moons == w.moons,
        forall|key: Key, tag: TypeTag|
            #[trigger] moved(w, pos, to).components.check(key, tag) == w.components.check(key, tag),
        w.components.check(pos, TypeTag::SelestialPos) is Ok ==> position_at(
            moved(w, pos, to),
            pos,
        ) == Ok::<SelestialPos, StoreError>(to),
        forall|key: Key|
            position_at(w, key) is Ok ==> #[trigger] position_at(moved(w, pos, to), key) is Ok,
        forall|key: Key|
            key != pos ==> #[trigger] position_at(moved(w, pos, to), key) == position_at(w, key),
        forall|key: Key, tag: TypeTag|
            tag != TypeTag::SelestialPos ==> #[trigger] moved(w, pos, to).components.read_as(
                key,
                tag,
            ) == w.components.read_as(key, tag),
{
    let m = moved(w, pos, to);
    let c = AnyComponent::Pos(to);
    lemma_store_put_wf(w.components, pos, c);
    lemma_write_wf(w.components.heap, pos, c);
    assert(m.components.types == w.components.types);
    assert(m.components.heap.live == w.components.heap.live);
    assert(m.components.heap.issued == w.components.heap.issued);
    assert forall|key: Key| key != pos implies #[trigger] position_at(m, key) == position_at(
        w,
        key,
    ) by {
        if w.components.check(pos, TypeTag::SelestialPos) is Ok && w.components.heap.is_live(key) {
            assert(w.components.heap.live.contains_key(key.id));
            assert(w.components.heap.live.contains_key(pos.id));
            assert(key.slot != pos.slot);
        }
    }
    assert forall|key: Key| position_at(w, key) is Ok implies #[trigger] position_at(
        m,
        key,
    ) is Ok by {
        if key == pos {
        }
    }
    assert forall|key: Key, tag: TypeTag| tag != TypeTag::SelestialPos implies #[trigger]
        m.components.read_as(key, tag) == w.components.read_as(key, tag) by {
        if w.components.check(pos, TypeTag::SelestialPos) is Ok && w.components.check(key, tag)
            is Ok {
            assert(w.components.heap.live.contains_key(key.id));
            assert(w.components.heap.live.contains_key(pos.id));
            assert(key.id != pos.id);
            assert(key.slot != pos.slot);
        }
    }
}

/// Doing a job keeps the jobs ready.
pub proof fn lemma_moved_ready(w: WorldModel, jobs: Seq<JobModel>, pos: Key, to: SelestialPos)
    requires
        w.wf(),
        jobs_ready(w, jobs),
    ensures
        jobs_ready(moved(w, pos, to), jobs),
{
    lemma_moved(w, pos, to);
    let m = moved(w, pos, to);
    assert forall|i: int| 0 <= i < jobs.len() implies {
        &&& m.components.check((#[trigger] jobs[i]).pos, TypeTag::SelestialPos) is Ok
        &&& position_at(m, jobs[i].host()) is Ok
        &&& jobs[i].orbit.period_secs > 0
    } by {
        assert(m.components.check(jobs[i].pos, TypeTag::SelestialPos) == w.components.check(
            jobs[i].pos,
            TypeTag::SelestialPos,
        ));
        assert(position_at(w, jobs[i].host()) is Ok);
    }
}

/// The jobs leave everything but the components as it was.
pub proof fn lemma_run_jobs_frame(w: WorldModel, jobs: Seq<JobModel>, to: Seq<SelestialPos>)
    requires
        w.wf(),
    ensures
        run_jobs(w, jobs, to).wf(),
        run_jobs(w, jobs, to).entities == w.entities,
        run_jobs(w, jobs, to).bindings == w.bindings,
        run_jobs(w, jobs, to).tick_number == w.tick_number,
        run_jobs(w, jobs, to).stars == w.stars,
        run_jobs(w, jobs, to).planets == w.planets,
        run_jobs(w, jobs, to).moons == w.moons,
        forall|key: Key, tag: TypeTag|
            #[trigger] run_jobs(w, jobs, to).components.check(key, tag) == w.components.check(
                key,
                tag,
            ),
        forall|key: Key, tag: TypeTag|
            tag != TypeTag::SelestialPos ==> #[trigger] run_jobs(w, jobs, to).components.read_as(
                key,
                tag,
            ) == w.components.read_as(key, tag),
    decreases jobs.len(),
{
    if jobs.len() != 0 && to.len() == jobs.len() {
        let before = run_jobs(w, jobs.drop_last(), to.drop_last());
        lemma_run_jobs_frame(w, jobs.drop_last(), to.drop_last());
        lemma_moved(before, jobs.last().pos, to.last());
        let after = run_jobs(w, jobs, to);
        assert forall|key: Key, tag: TypeTag| #[trigger]
            after.components.check(key, tag) == w.components.check(key, tag) by {
            assert(before.components.check(key, tag) == w.components.check(key, tag));
        }
        assert forall|key: Key, tag: TypeTag| tag != TypeTag::SelestialPos implies #[trigger]
            after.components.read_as(key, tag) == w.components.read_as(key, tag) by {
            assert(before.components.read_as(key, tag) == w.components.read_as(key, tag));
        }
    }
}

/// A position that none of the jobs writes is after them what it was before.
pub proof fn lemma_run_jobs_untouched(
    w: WorldModel,
    jobs: Seq<JobModel>,
    to: Seq<SelestialPos>,
    key: Key,
)
    requires
        w.wf(),
        forall|j: int| 0 <= j < jobs.len() ==> (#[trigger] jobs[j]).pos != key,
    ensures
        position_at(run_jobs(w, jobs, to), key) == position_at(w, key),
    decreases jobs.len(),
{
    if jobs.len() != 0 && to.len() == jobs.len() {
        let before = run_jobs(w, jobs.drop_last(), to.drop_last());
        assert forall|j: int| 0 <= j < jobs.drop_last().len() implies (
        #[trigger] jobs.drop_last()[j]).pos != key by {
            assert(jobs.drop_last()[j] == jobs[j]);
        }
        lemma_run_jobs_untouched(w, jobs.drop_last(), to.drop_last(), key);
        lemma_run_jobs_frame(w, jobs.drop_last(), to.drop_last());
        lemma_moved(before, jobs.last().pos, to.last());
        assert(jobs[jobs.len() - 1].pos != key);
    }
}

/// The positions follow job by job: each is what `advance` gives in the
/// world in which the jobs before it are done.
pub proof fn lemma_jobs_follow_each<F: Fn(SelestialOrbit, u64, SelestialPos) -> SelestialPos>(
    w: WorldModel,
    jobs: Seq<JobModel>,
    to: Seq<SelestialPos>,
    now: u64,
    advance: F,
    i: int,
)
    requires
        jobs_follow(w, jobs, to, now, advance),
        0 <= i < jobs.len(),
    ensures
        to.len() == jobs.len(),
        position_at(run_jobs(w, jobs.take(i), to.take(i)), jobs[i].host()) is Ok,
        call_ensures(
            advance,
            (
                jobs[i].orbit,
                phase_divisor(now, jobs[i].orbit.period_secs),
                position_at(run_jobs(w, jobs.take(i), to.take(i)), jobs[i].host()).unwrap(),
            ),
            to[i],
        ),
    decreases jobs.len(),
{
    if i == jobs.len() - 1 {
        assert(jobs.take(i) =~= jobs.drop_last());
        assert(to.take(i) =~= to.drop_last());
    } else {
        lemma_jobs_follow_each(w, jobs.drop_last(), to.drop_last(), now, advance, i);
        assert(jobs.drop_last().take(i) =~= jobs.take(i));
        assert(to.drop_last().take(i) =~= to.take(i));
    }
}

/// Doing the jobs from `i` on, after those before `i`, is doing them all.
proof fn lemma_run_jobs_split(w: WorldModel, jobs: Seq<JobModel>, to: Seq<SelestialPos>, i: int)
    requires
        to.len() == jobs.len(),
        0 <= i <= jobs.len(),
    ensures
        run_jobs(w, jobs, to) == run_jobs(
            run_jobs(w, jobs.take(i), to.take(i)),
            jobs.skip(i),
            to.skip(i),
        ),
    decreases jobs.len() - i,
{
    if i == jobs.len() {
        assert(jobs.take(i) =~= jobs);
        assert(to.take(i) =~= to);
    } else {
        let rest_jobs = jobs.skip(i);
        let rest_to = to.skip(i);
        let start = run_jobs(w, jobs.take(i), to.take(i));
        lemma_run_jobs_from(start, rest_jobs, rest_to);
        assert(jobs.take(i + 1).drop_last() =~= jobs.take(i));
        assert(to.take(i + 1).drop_last() =~= to.take(i));
        assert(jobs.take(i + 1).last() == jobs[i]);
        assert(to.take(i + 1).last() == to[i]);
        assert(rest_jobs.skip(1) =~= jobs.skip(i + 1));
        assert(rest_to.skip(1) =~= to.skip(i + 1));
        lemma_run_jobs_split(w, jobs, to, i + 1);
    }
}

/// Doing a list of jobs is doing the first and then the rest.
proof fn lemma_run_jobs_from(w: WorldModel, jobs: Seq<JobModel>, to: Seq<SelestialPos>)
    requires
        to.len() == jobs.len(),
        jobs.len() > 0,
    ensures
        run_jobs(w, jobs, to) == run_jobs(moved(w, jobs[0].pos, to[0]), jobs.skip(1), to.skip(1)),
    decreases jobs.len(),
{
    let first = moved(w, jobs[0].pos, to[0]);
    if jobs.len() == 1 {
        assert(jobs.drop_last().len() == 0);
        assert(jobs.skip(1).len() == 0);
        assert(run_jobs(w, jobs.drop_last(), to.drop_last()) == w);
        assert(run_jobs(first, jobs.skip(1), to.skip(1)) == first);
        assert(jobs.last() == jobs[0]);
        assert(to.last() == to[0]);
    } else {
        lemma_run_jobs_from(w, jobs.drop_last(), to.drop_last());
        assert(jobs.drop_last()[0] == jobs[0]);
        assert(to.drop_last()[0] == to[0]);
        assert(jobs.drop_last().skip(1) =~= jobs.skip(1).drop_last());
        assert(to.drop_last().skip(1) =~= to.skip(1).drop_last());
        assert(jobs.skip(1).last() == jobs.last());
        assert(to.skip(1).last() == to.last());
        assert(jobs.skip(1).len() == jobs.len() - 1);
        assert(to.skip(1).len() == jobs.skip(1).len());
    }
}

/// A tick moves positions and nothing else: the entities, the bindings and
/// the lists of bodies are as before; every handle can be read and written
/// as before; and every component that is no position reads as before.
pub proof fn law_tick_moves_positions_only<F: Fn(SelestialOrbit, u64, SelestialPos) -> SelestialPos>(
    earlier: WorldModel,
    later: WorldModel,
    to: Seq<SelestialPos>,
    advance: F,
)
    requires
        earlier.wf(),
        ticked(earlier, later, to, advance),
    ensures
        later.wf(),
        later.tick_number == earlier.tick_number + 1,
        later.entities == earlier.entities,
        later.bindings == earlier.bindings,
        later.stars == earlier.stars,
        later.planets == earlier.planets,
        later.moons == earlier.moons,
        forall|key: Key, tag: TypeTag|
            #[trigger] later.components.check(key, tag) == earlier.components.check(key, tag),
        forall|key: Key, tag: TypeTag|
            tag != TypeTag::SelestialPos ==> #[trigger] later.components.read_as(key, tag)
                == earlier.components.read_as(key, tag),
{
    lemma_run_jobs_frame(earlier, tick_jobs(earlier).unwrap(), to);
}

/// A position that is not the position of a body that the tick moves is
/// after the tick what it was before. The positions of the stars of a
/// generated world are such.
pub proof fn law_unmoved_position_stays<F: Fn(SelestialOrbit, u64, SelestialPos) -> SelestialPos>(
    earlier: WorldModel,
    later: WorldModel,
    to: Seq<SelestialPos>,
    advance: F,
    key: Key,
)
    requires
        earlier.wf(),
        ticked(earlier, later, to, advance),
        forall|j: int|
            0 <= j < tick_jobs(earlier).unwrap().len() ==> (#[trigger] tick_jobs(
                earlier,
            ).unwrap()[j]).pos != key,
    ensures
        position_at(later, key) == position_at(earlier, key),
{
    lemma_run_jobs_untouched(earlier, tick_jobs(earlier).unwrap(), to, key);
}

/// Hierarchical consistency. After a tick, the position of a body is what
/// `advance` gives for the body's orbit, the phase divisor of that orbit at
/// the new tick count, and the position that the body's host has after the
/// tick, provided that the tick moves the host before the body or not at
/// all, and moves nothing after the body to where the body is: no job from
/// the body's on writes the host's position, and no later job writes the
/// body's.
pub proof fn law_body_follows_host<F: Fn(SelestialOrbit, u64, SelestialPos) -> SelestialPos>(
    earlier: WorldModel,
    later: WorldModel,
    to: Seq<SelestialPos>,
    advance: F,
    i: int,
)
    requires
        earlier.wf(),
        ticked(earlier, later, to, advance),
        0 <= i < tick_jobs(earlier).unwrap().len(),
        forall|j: int|
            i <= j < tick_jobs(earlier).unwrap().len() ==> (#[trigger] tick_jobs(
                earlier,
            ).unwrap()[j]).pos != tick_jobs(earlier).unwrap()[i].host(),
        forall|j: int|
            i < j < tick_jobs(earlier).unwrap().len() ==> (#[trigger] tick_jobs(
                earlier,
            ).unwrap()[j]).pos != tick_jobs(earlier).unwrap()[i].pos,
    ensures
        later.tick_number == earlier.tick_number + 1,
        position_at(later, tick_jobs(earlier).unwrap()[i].host()) is Ok,
        position_at(later, tick_jobs(earlier).unwrap()[i].pos) is Ok,
        call_ensures(
            advance,
            (
                tick_jobs(earlier).unwrap()[i].orbit,
                phase_divisor(later.tick_number, tick_jobs(earlier).unwrap()[i].orbit.period_secs),
                position_at(later, tick_jobs(earlier).unwrap()[i].host()).unwrap(),
            ),
            position_at(later, tick_jobs(earlier).unwrap()[i].pos).unwrap(),
        ),
{
    let jobs = tick_jobs(earlier).unwrap();
    let now = (earlier.tick_number + 1) as u64;
    let job = jobs[i];
    lemma_jobs_follow_each(earlier, jobs, to, now, advance, i);
    lemma_jobs_ready(earlier, earlier.planets + earlier.moons);
    let before = run_jobs(earlier, jobs.take(i), to.take(i));
    let at = moved(before, job.pos, to[i]);
    let done = run_jobs(earlier, jobs, to);
    lemma_run_jobs_frame(earlier, jobs.take(i), to.take(i));
    lemma_moved(before, job.pos, to[i]);
    lemma_run_jobs_split(earlier, jobs, to, i);
    lemma_run_jobs_from(before, jobs.skip(i), to.skip(i));
    let rest_jobs = jobs.skip(i).skip(1);
    let rest_to = to.skip(i).skip(1);
    assert(done == run_jobs(at, rest_jobs, rest_to));
    assert forall|j: int| 0 <= j < rest_jobs.len() implies (#[trigger] rest_jobs[j]).pos
        != job.host() by {
        assert(rest_jobs[j] == jobs[i + 1 + j]);
    }
    assert forall|j: int| 0 <= j < rest_jobs.len() implies (#[trigger] rest_jobs[j]).pos
        != job.pos by {
        assert(rest_jobs[j] == jobs[i + 1 + j]);
    }
    lemma_run_jobs_untouched(at, rest_jobs, rest_to, job.host());
    lemma_run_jobs_untouched(at, rest_jobs, rest_to, job.pos);
    assert(jobs[i].pos != job.host());
    assert(position_at(at, job.host()) == position_at(before, job.host()));
    assert(before.components.check(job.pos, TypeTag::SelestialPos)
        == earlier.components.check(job.pos, TypeTag::SelestialPos));
    assert(position_at(at, job.pos) == Ok::<SelestialPos, StoreError>(to[i]));
    assert(position_at(later, job.host()) == position_at(done, job.host()));
    assert(position_at(later, job.pos) == position_at(done, job.pos));
}

} // verus!
