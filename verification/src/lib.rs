//! A small entity-component runtime for a hierarchical orbital scene.
//!
//! Values live in generational slab heaps behind copyable handles; a component
//! store keeps one heap of tagged component values together with the type each
//! handle was reserved for; the world binds entities to their components. On
//! top of the world stand the generator of the scene and the tick that moves
//! every body round its host.
//!
//! The library keeps and moves positions but never calculates with real
//! numbers: where a position has to be calculated, the caller hands in the
//! function that calculates it.

use crate::component::orbit::SelestialOrbit;
use crate::component::planet::Planet;
use crate::component::pos::SelestialPos;
use crate::component::{AnyComponent, Components};
use crate::entity::selestial::laws::{lemma_scene_made, lemma_scene_shape, scene_shape};
use crate::entity::selestial::model::{
    is_satellite, is_scene, is_star, lemma_parents_placed, lemma_star_kept, scene_fits,
};
use crate::entity::selestial::{
    generate_moons, generate_planets, generate_stars, moon_bounds, planet_bounds,
};
use crate::entity::{entities, Entities};
use crate::error::StoreError;
use crate::heap::laws::lemma_alloc_each_issued;
use crate::heap::model::Key;
use crate::heap::HeapElemId;
use crate::type_tag::TypeTag;
use crate::world::model::{positions_at, WorldModel};
use crate::world::pass::{
    body_job, jobs_follow, jobs_of, jobs_ready, lemma_jobs_fail, lemma_jobs_ready,
    lemma_jobs_stay_failed, lemma_moved_ready, run_jobs, tick_check, tick_jobs, ticked, JobModel,
};
use crate::world::{dangling, keys_of, World};
use vstd::prelude::*;

pub mod component;
pub mod entity;
pub mod error;
pub mod heap;
pub mod random;
pub mod state;
pub mod system;
pub mod tables;
pub mod type_tag;
pub mod world;

verus! {

/// What a tick does for one body.
#[derive(Clone, Copy)]
struct Job {
    pos: HeapElemId<Components>,
    orbit: SelestialOrbit,
}

impl View for Job {
    type V = JobModel;

    closed spec fn view(&self) -> JobModel {
        JobModel { pos: self.pos@, orbit: self.orbit }
    }
}

/// The models of a list of jobs.
spec fn models(jobs: Seq<Job>) -> Seq<JobModel> {
    Seq::new(jobs.len(), |i: int| jobs[i]@)
}

/// Whether a component of type `tag` may be read or written at `key`.
fn check_type(w: &World, key: &HeapElemId<Components>, tag: TypeTag) -> (res: Result<
    (),
    StoreError,
>)
    requires
        w.wf(),
    ensures
        res == w@.components.check(key@, tag),
{
    match w.component_type(key) {
        Err(e) => Err(e),
        Ok(actual) => if actual == tag {
            Ok(())
        } else {
            Err(StoreError::TypeMismatch { requested: tag, actual })
        },
    }
}

/// Finds out what a tick has to do for `body`.
fn gather_job(w: &World, body: &HeapElemId<Entities>) -> (res: Result<Option<Job>, StoreError>)
    requires
        w.wf(),
    ensures
        match res {
            Ok(Some(job)) => body_job(w@, body@) == Ok::<Option<JobModel>, StoreError>(
                Some(job@),
            ),
            Ok(None) => body_job(w@, body@) == Ok::<Option<JobModel>, StoreError>(None),
            Err(e) => body_job(w@, body@) == Err::<Option<JobModel>, StoreError>(e),
        },
{
    let pos = match w.get_entity_component_key::<SelestialPos>(body) {
        Ok(pos) => pos,
        Err(_) => {
            return Ok(None);
        },
    };
    let orbit_id = match w.get_entity_component_key::<SelestialOrbit>(body) {
        Ok(orbit_id) => orbit_id,
        Err(_) => {
            return Ok(None);
        },
    };
    let orbit = match w.component::<SelestialOrbit>(&orbit_id) {
        Ok(orbit) => *orbit,
        Err(e) => {
            return Err(dangling(e));
        },
    };
    if orbit.period_secs == 0 {
        return Err(StoreError::ZeroPeriod);
    }
    if let Err(e) = check_type(w, &pos, TypeTag::SelestialPos) {
        return Err(dangling(e));
    }
    match w.component::<SelestialPos>(&orbit.center_component) {
        Ok(_) => Ok(Some(Job { pos, orbit })),
        Err(e) => Err(dangling(e)),
    }
}

/// Adds the jobs of `bodies` to `jobs`, which holds those of the bodies `done`.
fn plan(
    w: &World,
    bodies: &Vec<HeapElemId<Entities>>,
    jobs: &mut Vec<Job>,
    Ghost(done): Ghost<Seq<Key>>,
) -> (res: Result<(), StoreError>)
    requires
        w.wf(),
        jobs_of(w@, done) == Ok::<Seq<JobModel>, StoreError>(models(old(jobs)@)),
    ensures
        match res {
            Ok(()) => jobs_of(w@, done + keys_of(bodies@)) == Ok::<Seq<JobModel>, StoreError>(
                models(final(jobs)@),
            ),
            Err(e) => jobs_of(w@, done + keys_of(bodies@)) == Err::<Seq<JobModel>, StoreError>(e),
        },
{
    let n = bodies.len();
    let ghost all = done + keys_of(bodies@);
    let mut i: usize = 0;
    proof {
        assert(all.take(done.len() as int) =~= done);
    }
    while i < n
        invariant
            0 <= i <= n,
            n == bodies.len(),
            w.wf(),
            all == done + keys_of(bodies@),
            jobs_of(w@, all.take(done.len() + i)) == Ok::<Seq<JobModel>, StoreError>(models(jobs@)),
        decreases n - i,
    {
        let ghost at = done.len() + i;
        proof {
            assert(all.take(at + 1).drop_last() =~= all.take(at as int));
            assert(all.take(at + 1).last() == bodies[i as int]@);
            assert(all[at as int] == bodies[i as int]@);
        }
        let ghost before = models(jobs@);
        match gather_job(w, &bodies[i]) {
            Err(e) => {
                proof {
                    lemma_jobs_fail(w@, all, at as int);
                }
                return Err(e);
            },
            Ok(None) => {},
            Ok(Some(job)) => {
                jobs.push(job);
                assert(models(jobs@) =~= before.push(job@));
            },
        }
        i += 1;
    }
    proof {
        assert(all.take(done.len() + n) =~= all);
    }
    Ok(())
}

/// Moves every body that is in orbit once: counts one more tick and gives
/// each planet, and then each moon, that owns a position and an orbit the
/// position that `advance` calculates from the orbit, the phase divisor of
/// the orbit (the new tick count modulo the orbit's period) and the position
/// of the orbit's host. The planets are moved before the moons, so that a
/// moon is placed round the new position of its planet. The stars are not
/// moved.
///
/// Fails, changing nothing, where the tick count cannot grow or one of the
/// bodies cannot be moved.
pub fn tick<F: Fn(SelestialOrbit, u64, SelestialPos) -> SelestialPos>(
    w: &mut World,
    advance: &F,
) -> (res: Result<(), StoreError>)
    requires
        old(w).wf(),
        forall|orbit: SelestialOrbit, divisor: u64, host: SelestialPos|
            call_requires(*advance, (orbit, divisor, host)),
    ensures
        final(w).wf(),
        match res {
            Ok(()) => exists|to: Seq<SelestialPos>| ticked(old(w)@, final(w)@, to, *advance),
            Err(e) => tick_check(old(w)@) == Err::<(), StoreError>(e) && final(w)@ == old(w)@,
        },
{
    if w.tick_number() == u64::MAX {
        return Err(StoreError::Exhausted);
    }
    let now = w.tick_number() + 1;
    let ghost w0 = w@;
    let mut jobs: Vec<Job> = Vec::new();
    proof {
        assert(models(jobs@) =~= Seq::<JobModel>::empty());
        assert((w0.planets + w0.moons).take(w0.planets.len() as int) =~= w0.planets);
        assert(Seq::<Key>::empty() + w0.planets =~= w0.planets);
    }
    if let Err(e) = plan(w, w.planets(), &mut jobs, Ghost(Seq::empty())) {
        proof {
            lemma_jobs_stay_failed(w0, w0.planets + w0.moons, w0.planets.len() as int);
        }
        return Err(e);
    }
    if let Err(e) = plan(w, w.moons(), &mut jobs, Ghost(w0.planets)) {
        return Err(e);
    }
    let ghost planned = models(jobs@);
    let ghost mut to: Seq<SelestialPos> = Seq::empty();
    let n = jobs.len();
    let mut i: usize = 0;
    proof {
        w.lemma_wf_model();
        lemma_jobs_ready(w0, w0.planets + w0.moons);
        assert(planned.take(0) =~= Seq::<JobModel>::empty());
    }
    while i < n
        invariant
            0 <= i <= n,
            n == jobs.len(),
            planned == models(jobs@),
            w.wf(),
            w0.wf(),
            now == w0.tick_number + 1,
            forall|orbit: SelestialOrbit, divisor: u64, host: SelestialPos|
                call_requires(*advance, (orbit, divisor, host)),
            to.len() == i,
            w0.tick_number < u64::MAX,
            w@.tick_number == w0.tick_number,
            tick_jobs(w0) == Ok::<Seq<JobModel>, StoreError>(planned),
            w@ == run_jobs(w0, planned.take(i as int), to),
            jobs_follow(w0, planned.take(i as int), to, now, *advance),
            jobs_ready(w@, planned),
        decreases n - i,
    {
        let job = jobs[i];
        let ghost before = w@;
        proof {
            assert(planned[i as int] == job@);
            w.lemma_wf_model();
        }
        let host = *w.component::<SelestialPos>(&job.orbit.center_component).unwrap();
        let to_pos = advance(job.orbit, now % job.orbit.period_secs, host);
        let written = w.replace_component(&job.pos, to_pos);
        proof {
            let longer = to.push(to_pos);
            assert(planned.take(i + 1).drop_last() =~= planned.take(i as int));
            assert(planned.take(i + 1).last() == job@);
            assert(longer.drop_last() =~= to);
            lemma_moved_ready(before, planned, job@.pos, to_pos);
            to = longer;
        }
        i += 1;
    }
    w.count_tick();
    proof {
        assert(planned.take(n as int) =~= planned);
        assert(ticked(w0, w@, to, *advance));
    }
    Ok(())
}

/// Generates a world of `n_stars` stars at the origin, `n_planets_per_star`
/// planets round each star and `n_moons_per_planet` moons round each planet.
/// The orbits of the planets are drawn from [`planet_bounds`], those of the
/// moons from [`moon_bounds`]; `place` gives the first position of each body
/// from its orbit and the position of its host. No tick has passed. The
/// world has the shape of a scene: every tick of it moves every planet round
/// its star and every moon round its planet.
///
/// Fails where the identifiers do not suffice for so many bodies.
pub fn generate_world<F: Fn(SelestialOrbit, SelestialPos) -> SelestialPos>(
    n_stars: usize,
    n_planets_per_star: usize,
    n_moons_per_planet: usize,
    place: &F,
) -> (res: Result<World, StoreError>)
    requires
        forall|o: SelestialOrbit, at: SelestialPos| call_requires(*place, (o, at)),
    ensures
        match res {
            Ok(world) => {
                &&& world.wf()
                &&& scene_fits(n_stars as nat, n_planets_per_star as nat, n_moons_per_planet as nat)
                &&& world@.tick_number == 0
                &&& world@.stars.len() == n_stars
                &&& is_scene(
                    world@,
                    n_planets_per_star as nat,
                    n_moons_per_planet as nat,
                    planet_bounds(),
                    moon_bounds(),
                    *place,
                )
                &&& scene_shape(world@, n_planets_per_star as nat, n_moons_per_planet as nat)
            },
            Err(e) => {
                &&& e == StoreError::Exhausted
                &&& !scene_fits(
                    n_stars as nat,
                    n_planets_per_star as nat,
                    n_moons_per_planet as nat,
                )
            },
        },
{
    let ghost stars_n = n_stars as nat;
    let ghost planets_n = stars_n * (n_planets_per_star as nat);
    let ghost moons_n = planets_n * (n_moons_per_planet as nat);
    let mut world = World::with_capacity(n_stars, n_stars);
    let stars = match generate_stars(&mut world, n_stars) {
        Ok(stars) => stars,
        Err(e) => {
            return Err(e);
        },
    };
    let ghost w1 = world@;
    let ghost star_keys = keys_of(stars@);
    proof {
        world.lemma_wf_model();
        lemma_alloc_each_issued(WorldModel::empty().entities, entities(stars_n));
        assert(w1.stars =~= star_keys);
        assert forall|i: int| 0 <= i < star_keys.len() implies w1.value_of(
            #[trigger] star_keys[i],
            TypeTag::SelestialPos,
        ) is Ok by {
            assert(is_star(w1, stars[i]@));
        }
        lemma_parents_placed(w1, star_keys);
    }
    let planets = match generate_planets(
        &mut world,
        stars,
        n_planets_per_star,
        &planet_bounds(),
        place,
    ) {
        Ok(planets) => planets,
        Err(e) => {
            return Err(e);
        },
    };
    let ghost w2 = world@;
    let ghost planet_keys = keys_of(planets@);
    proof {
        world.lemma_wf_model();
        lemma_alloc_each_issued(w1.entities, entities(planets_n));
        assert(w2.planets =~= planet_keys);
        assert forall|i: int| 0 <= i < star_keys.len() implies is_star(
            w2,
            #[trigger] star_keys[i],
        ) by {
            assert(is_star(w1, stars[i]@));
            assert(w1.bindings.contains_key((star_keys[i].id, TypeTag::Star)));
            assert(w2.same_bindings_of(w1, star_keys[i].id));
            lemma_star_kept(w2, w1, star_keys[i]);
        }
        assert forall|i: int| 0 <= i < planet_keys.len() implies w2.value_of(
            #[trigger] planet_keys[i],
            TypeTag::SelestialPos,
        ) is Ok by {
            assert(is_satellite(
                w2,
                planet_keys[i],
                AnyComponent::Planet(Planet {  }),
                w1.components_of(star_keys, TypeTag::SelestialPos).unwrap()[i
                    / n_planets_per_star as int],
                positions_at(
                    w1,
                    w1.components_of(star_keys, TypeTag::SelestialPos).unwrap(),
                ).unwrap()[i / n_planets_per_star as int],
                planet_bounds(),
                *place,
            ));
        }
        lemma_parents_placed(w2, planet_keys);
    }
    let moons = match generate_moons(&mut world, planets, n_moons_per_planet, &moon_bounds(), place) {
        Ok(moons) => moons,
        Err(e) => {
            return Err(e);
        },
    };
    proof {
        let w3 = world@;
        world.lemma_wf_model();
        assert(w3.moons =~= keys_of(moons@));
        lemma_scene_made(
            w1,
            w2,
            w3,
            n_planets_per_star as nat,
            n_moons_per_planet as nat,
            planet_bounds(),
            moon_bounds(),
            *place,
        );
        lemma_scene_shape(
            w3,
            n_planets_per_star as nat,
            n_moons_per_planet as nat,
            planet_bounds(),
            moon_bounds(),
            *place,
        );
    }
    Ok(world)
}

} // verus!
