//! What holds of a generated scene: that it is the hierarchy that was asked
//! for, that a tick can move it, and that after a tick every body stands
//! where its orbit and the new position of its host put it.

use crate::component::moon::Moon;
use crate::component::orbit::SelestialOrbit;
use crate::component::planet::Planet;
use crate::component::pos::SelestialPos;
use crate::component::AnyComponent;
use crate::entity::selestial::model::{
    is_satellite, is_scene, is_star, lemma_parent_index, lemma_parents_placed,
    lemma_satellite_kept, lemma_star_kept, origin, position_of, positions_fresh,
    satellites_made,
};
use crate::entity::selestial::OrbitBounds;
use crate::error::StoreError;
use crate::heap::model::Key;
use crate::type_tag::TypeTag;
use crate::world::model::{lemma_position_kept, position_at, positions_at, WorldModel};
use crate::world::pass::{
    body_job, jobs_of, law_body_follows_host, law_tick_moves_positions_only,
    law_unmoved_position_stays, phase_divisor, tick_check, tick_jobs, ticked,
};
use vstd::prelude::*;

verus! {

/// Whether no two bodies of the scene share a position component.
pub open spec fn positions_apart(w: WorldModel) -> bool {
    &&& forall|s: int, i: int|
        0 <= s < w.stars.len() && 0 <= i < w.planets.len() ==> position_of(
            w,
            #[trigger] w.stars[s],
        ) != position_of(w, #[trigger] w.planets[i])
    &&& forall|s: int, i: int|
        0 <= s < w.stars.len() && 0 <= i < w.moons.len() ==> position_of(
            w,
            #[trigger] w.stars[s],
        ) != position_of(w, #[trigger] w.moons[i])
    &&& forall|i: int, j: int|
        0 <= i < w.planets.len() && 0 <= j < w.moons.len() ==> position_of(
            w,
            #[trigger] w.planets[i],
        ) != position_of(w, #[trigger] w.moons[j])
    &&& forall|i: int, j: int|
        0 <= i < j < w.planets.len() ==> position_of(w, #[trigger] w.planets[i]) != position_of(
            w,
            #[trigger] w.planets[j],
        )
    &&& forall|i: int, j: int|
        0 <= i < j < w.moons.len() ==> position_of(w, #[trigger] w.moons[i]) != position_of(
            w,
            #[trigger] w.moons[j],
        )
}

/// Whether a tick moves `body`, and moves it round the position of `parent`.
pub open spec fn moves_round(w: WorldModel, body: Key, parent: Key) -> bool {
    match body_job(w, body) {
        Ok(Some(job)) => job.host() == position_of(w, parent),
        _ => false,
    }
}

/// The orbit on which a tick moves `body`.
pub open spec fn orbit_of(w: WorldModel, body: Key) -> SelestialOrbit {
    body_job(w, body).unwrap().unwrap().orbit
}

/// Whether `w` has the shape of a generated scene, whatever the positions of
/// its bodies are: the position of every star can be read; a tick moves
/// every planet round the position of its star and every moon round the
/// position of its planet, `planets_per_star` planets belonging to each star
/// and `moons_per_planet` moons to each planet, in order; and no two bodies
/// share a position component.
pub open spec fn scene_shape(w: WorldModel, planets_per_star: nat, moons_per_planet: nat) -> bool {
    &&& w.planets.len() == w.stars.len() * planets_per_star
    &&& w.moons.len() == w.planets.len() * moons_per_planet
    &&& forall|s: int|
        0 <= s < w.stars.len() ==> position_at(w, position_of(w, #[trigger] w.stars[s])) is Ok
    &&& forall|i: int|
        0 <= i < w.planets.len() ==> moves_round(
            w,
            #[trigger] w.planets[i],
            w.stars[i / planets_per_star as int],
        )
    &&& forall|i: int|
        0 <= i < w.moons.len() ==> moves_round(
            w,
            #[trigger] w.moons[i],
            w.planets[i / moons_per_planet as int],
        )
    &&& positions_apart(w)
}

/// A body in orbit on an orbit with a period is a body that a tick moves.
pub proof fn lemma_satellite_moves<F: Fn(SelestialOrbit, SelestialPos) -> SelestialPos>(
    w: WorldModel,
    body: Key,
    mark: AnyComponent,
    parent: Key,
    host_pos: SelestialPos,
    bounds: OrbitBounds,
    place: F,
)
    requires
        w.wf(),
        is_satellite(w, body, mark, position_of(w, parent), host_pos, bounds, place),
        position_at(w, position_of(w, parent)) is Ok,
        0 < bounds.period_min,
    ensures
        moves_round(w, body, parent),
        body_job(w, body).unwrap().unwrap().pos == position_of(w, body),
        position_at(w, position_of(w, body)) is Ok,
{
    let pos = w.bindings[(body.id, TypeTag::SelestialPos)];
    assert(w.value_of(body, TypeTag::SelestialPos) is Ok);
    assert(w.value_of(body, TypeTag::SelestialOrbit) is Ok);
    assert(w.components.read_as(pos, TypeTag::SelestialPos) is Ok);
    assert(w.components.heap.live.contains_key(pos.id));
}

/// The layers of a generated world make a scene: where planets were
/// generated round stars and moons round those planets, the stars are still
/// stars, the planets still in orbit round them, and no two bodies share a
/// position component.
pub proof fn lemma_scene_made<F: Fn(SelestialOrbit, SelestialPos) -> SelestialPos>(
    w1: WorldModel,
    w2: WorldModel,
    w3: WorldModel,
    planets_per_star: nat,
    moons_per_planet: nat,
    planets_from: OrbitBounds,
    moons_from: OrbitBounds,
    place: F,
)
    requires
        w1.wf(),
        w2.wf(),
        w3.wf(),
        forall|s: int| 0 <= s < w1.stars.len() ==> is_star(w1, #[trigger] w1.stars[s]),
        satellites_made(
            w1,
            w2,
            w1.stars,
            planets_per_star,
            w2.planets,
            AnyComponent::Planet(Planet {  }),
            planets_from,
            place,
        ),
        w2.stars == w1.stars,
        satellites_made(
            w2,
            w3,
            w2.planets,
            moons_per_planet,
            w3.moons,
            AnyComponent::Moon(Moon {  }),
            moons_from,
            place,
        ),
        w3.stars == w2.stars,
        w3.planets == w2.planets,
    ensures
        is_scene(w3, planets_per_star, moons_per_planet, planets_from, moons_from, place),
        positions_apart(w3),
{
    let stars = w1.stars;
    let planets = w2.planets;
    let moons = w3.moons;
    let p = planets_per_star as int;
    let m = moons_per_planet as int;
    let hosts1 = w1.components_of(stars, TypeTag::SelestialPos).unwrap();
    let at1 = positions_at(w1, hosts1).unwrap();
    let hosts2 = w2.components_of(planets, TypeTag::SelestialPos).unwrap();
    let at2 = positions_at(w2, hosts2).unwrap();
    assert forall|s: int| 0 <= s < stars.len() implies w1.value_of(
        #[trigger] stars[s],
        TypeTag::SelestialPos,
    ) is Ok by {
        assert(is_star(w1, stars[s]));
    }
    lemma_parents_placed(w1, stars);
    // The stars stay stars, and own the position components that they owned.
    assert forall|s: int| 0 <= s < stars.len() implies is_star(w3, #[trigger] stars[s])
        && position_of(w3, stars[s]) == position_of(w1, stars[s]) && position_of(
        w3,
        stars[s],
    ).id < w1.components.heap.issued by {
        assert(is_star(w1, stars[s]));
        assert(w1.bindings.contains_key((stars[s].id, TypeTag::Star)));
        assert(w2.same_bindings_of(w1, stars[s].id));
        lemma_star_kept(w2, w1, stars[s]);
        assert(w2.bindings.contains_key((stars[s].id, TypeTag::Star)));
        assert(w3.same_bindings_of(w2, stars[s].id));
        lemma_star_kept(w3, w2, stars[s]);
        let key = position_of(w1, stars[s]);
        assert(w1.components.read_as(key, TypeTag::SelestialPos) is Ok);
        assert(w1.components.heap.live.contains_key(key.id));
    }
    // The planets stay in orbit, and own the position components that they owned.
    assert forall|i: int| 0 <= i < planets.len() implies w2.value_of(
        #[trigger] planets[i],
        TypeTag::SelestialPos,
    ) is Ok by {
        assert(is_satellite(
            w2,
            planets[i],
            AnyComponent::Planet(Planet {  }),
            hosts1[i / p],
            at1[i / p],
            planets_from,
            place,
        ));
    }
    lemma_parents_placed(w2, planets);
    assert forall|i: int| 0 <= i < planets.len() implies is_satellite(
        w3,
        #[trigger] planets[i],
        AnyComponent::Planet(Planet {  }),
        position_of(w3, stars[i / p]),
        origin(),
        planets_from,
        place,
    ) && position_of(w3, planets[i]) == position_of(w2, planets[i]) && position_of(
        w3,
        planets[i],
    ).id < w2.components.heap.issued by {
        lemma_parent_index(i, planets_per_star, stars.len());
        let s = i / p;
        let body = planets[i];
        assert(is_satellite(
            w2,
            body,
            AnyComponent::Planet(Planet {  }),
            hosts1[s],
            at1[s],
            planets_from,
            place,
        ));
        assert(is_star(w1, stars[s]));
        assert(hosts1[s] == position_of(w1, stars[s]));
        assert(at1[s] == origin());
        assert(w2.bindings.contains_key((body.id, TypeTag::SelestialPos)));
        assert(w3.same_bindings_of(w2, body.id));
        lemma_satellite_kept(
            w3,
            w2,
            body,
            AnyComponent::Planet(Planet {  }),
            hosts1[s],
            at1[s],
            planets_from,
            place,
        );
        let key = position_of(w2, body);
        assert(w2.components.read_as(key, TypeTag::SelestialPos) is Ok);
        assert(w2.components.heap.live.contains_key(key.id));
    }
    assert forall|i: int| 0 <= i < moons.len() implies is_satellite(
        w3,
        #[trigger] moons[i],
        AnyComponent::Moon(Moon {  }),
        position_of(w3, planets[i / m]),
        position_at(w3, position_of(w3, planets[i / m])).unwrap(),
        moons_from,
        place,
    ) by {
        lemma_parent_index(i, moons_per_planet, planets.len());
        let s = i / m;
        assert(is_satellite(
            w3,
            moons[i],
            AnyComponent::Moon(Moon {  }),
            hosts2[s],
            at2[s],
            moons_from,
            place,
        ));
        assert(w2.value_of(planets[s], TypeTag::SelestialPos) is Ok);
        assert(hosts2[s] == position_of(w2, planets[s]));
        assert(position_of(w3, planets[s]) == position_of(w2, planets[s]));
        lemma_position_kept(w3, w2, hosts2[s]);
    }
    assert(positions_fresh(w1, w2, planets));
    assert(positions_fresh(w2, w3, moons));
    assert forall|i: int| 0 <= i < planets.len() implies w1.components.heap.issued <= position_of(
        w3,
        #[trigger] planets[i],
    ).id by {
        assert(position_of(w3, planets[i]) == position_of(w2, planets[i]));
    }
    assert forall|i: int, j: int| 0 <= i < j < planets.len() implies position_of(
        w3,
        #[trigger] planets[i],
    ) != position_of(w3, #[trigger] planets[j]) by {
        assert(position_of(w3, planets[i]) == position_of(w2, planets[i]));
        assert(position_of(w3, planets[j]) == position_of(w2, planets[j]));
    }
}

/// A scene whose orbits have periods has the shape of a scene.
pub proof fn lemma_scene_shape<F: Fn(SelestialOrbit, SelestialPos) -> SelestialPos>(
    w: WorldModel,
    planets_per_star: nat,
    moons_per_planet: nat,
    planets_from: OrbitBounds,
    moons_from: OrbitBounds,
    place: F,
)
    requires
        w.wf(),
        is_scene(w, planets_per_star, moons_per_planet, planets_from, moons_from, place),
        positions_apart(w),
        0 < planets_from.period_min,
        0 < moons_from.period_min,
    ensures
        scene_shape(w, planets_per_star, moons_per_planet),
{
    let p = planets_per_star as int;
    let m = moons_per_planet as int;
    assert forall|s: int| 0 <= s < w.stars.len() implies position_at(
        w,
        position_of(w, #[trigger] w.stars[s]),
    ) is Ok by {
        assert(is_star(w, w.stars[s]));
    }
    assert forall|i: int| 0 <= i < w.planets.len() implies moves_round(
        w,
        #[trigger] w.planets[i],
        w.stars[i / p],
    ) && position_at(w, position_of(w, w.planets[i])) is Ok by {
        lemma_parent_index(i, planets_per_star, w.stars.len());
        assert(is_star(w, w.stars[i / p]));
        lemma_satellite_moves(
            w,
            w.planets[i],
            AnyComponent::Planet(Planet {  }),
            w.stars[i / p],
            origin(),
            planets_from,
            place,
        );
    }
    assert forall|i: int| 0 <= i < w.moons.len() implies moves_round(
        w,
        #[trigger] w.moons[i],
        w.planets[i / m],
    ) by {
        lemma_parent_index(i, moons_per_planet, w.planets.len());
        let planet = w.planets[i / m];
        assert(position_at(w, position_of(w, planet)) is Ok);
        lemma_satellite_moves(
            w,
            w.moons[i],
            AnyComponent::Moon(Moon {  }),
            planet,
            position_at(w, position_of(w, planet)).unwrap(),
            moons_from,
            place,
        );
    }
}

/// Where a tick moves every one of `bodies`, there is a job for each, in
/// their order.
pub proof fn lemma_all_jobs(w: WorldModel, bodies: Seq<Key>)
    requires
        forall|k: int|
            0 <= k < bodies.len() ==> body_job(w, #[trigger] bodies[k]) is Ok && body_job(
                w,
                bodies[k],
            ).unwrap() is Some,
    ensures
        jobs_of(w, bodies) is Ok,
        jobs_of(w, bodies).unwrap().len() == bodies.len(),
        forall|k: int|
            0 <= k < bodies.len() ==> #[trigger] jobs_of(w, bodies).unwrap()[k] == body_job(
                w,
                bodies[k],
            ).unwrap().unwrap(),
    decreases bodies.len(),
{
    if bodies.len() > 0 {
        let head = bodies.drop_last();
        assert forall|k: int| 0 <= k < head.len() implies body_job(w, #[trigger] head[k]) is Ok
            && body_job(w, head[k]).unwrap() is Some by {
            assert(head[k] == bodies[k]);
        }
        lemma_all_jobs(w, head);
        assert(body_job(w, bodies[bodies.len() - 1]) is Ok);
        assert forall|k: int| 0 <= k < bodies.len() implies #[trigger] jobs_of(
            w,
            bodies,
        ).unwrap()[k] == body_job(w, bodies[k]).unwrap().unwrap() by {
            if k < head.len() {
                assert(head[k] == bodies[k]);
                assert(jobs_of(w, bodies).unwrap()[k] == jobs_of(w, head).unwrap()[k]);
            }
        }
    }
}

/// The jobs of a tick of a scene: one for each planet, then one for each
/// moon, each writing the position of its body.
pub proof fn lemma_scene_jobs(w: WorldModel, planets_per_star: nat, moons_per_planet: nat)
    requires
        scene_shape(w, planets_per_star, moons_per_planet),
    ensures
        tick_jobs(w) is Ok,
        tick_jobs(w).unwrap().len() == w.planets.len() + w.moons.len(),
        forall|i: int|
            0 <= i < w.planets.len() ==> {
                &&& (#[trigger] tick_jobs(w).unwrap()[i]).pos == position_of(w, w.planets[i])
                &&& tick_jobs(w).unwrap()[i].orbit == orbit_of(w, w.planets[i])
                &&& tick_jobs(w).unwrap()[i].host() == position_of(
                    w,
                    w.stars[i / planets_per_star as int],
                )
            },
        forall|i: int|
            0 <= i < w.moons.len() ==> {
                &&& (#[trigger] tick_jobs(w).unwrap()[w.planets.len() + i]).pos == position_of(
                    w,
                    w.moons[i],
                )
                &&& tick_jobs(w).unwrap()[w.planets.len() + i].orbit == orbit_of(w, w.moons[i])
                &&& tick_jobs(w).unwrap()[w.planets.len() + i].host() == position_of(
                    w,
                    w.planets[i / moons_per_planet as int],
                )
            },
{
    let bodies = w.planets + w.moons;
    assert forall|k: int| 0 <= k < bodies.len() implies body_job(w, #[trigger] bodies[k]) is Ok
        && body_job(w, bodies[k]).unwrap() is Some by {
        if k < w.planets.len() {
            assert(bodies[k] == w.planets[k]);
            assert(moves_round(w, w.planets[k], w.stars[k / planets_per_star as int]));
        } else {
            let i = k - w.planets.len();
            assert(bodies[k] == w.moons[i]);
            assert(moves_round(w, w.moons[i], w.planets[i / moons_per_planet as int]));
        }
    }
    lemma_all_jobs(w, bodies);
    let jobs = tick_jobs(w).unwrap();
    assert forall|i: int| 0 <= i < w.planets.len() implies {
        &&& (#[trigger] jobs[i]).pos == position_of(w, w.planets[i])
        &&& jobs[i].orbit == orbit_of(w, w.planets[i])
        &&& jobs[i].host() == position_of(w, w.stars[i / planets_per_star as int])
    } by {
        assert(bodies[i] == w.planets[i]);
        assert(moves_round(w, w.planets[i], w.stars[i / planets_per_star as int]));
    }
    assert forall|i: int| 0 <= i < w.moons.len() implies {
        &&& (#[trigger] jobs[w.planets.len() + i]).pos == position_of(w, w.moons[i])
        &&& jobs[w.planets.len() + i].orbit == orbit_of(w, w.moons[i])
        &&& jobs[w.planets.len() + i].host() == position_of(
            w,
            w.planets[i / moons_per_planet as int],
        )
    } by {
        assert(bodies[w.planets.len() + i] == w.moons[i]);
        assert(moves_round(w, w.moons[i], w.planets[i / moons_per_planet as int]));
    }
}

/// A scene can be moved: a tick of a world that has the shape of a scene
/// fails only where the count of the ticks cannot grow.
pub proof fn law_scene_can_tick(w: WorldModel, planets_per_star: nat, moons_per_planet: nat)
    requires
        scene_shape(w, planets_per_star, moons_per_planet),
    ensures
        tick_check(w) == if w.tick_number == u64::MAX {
            Err::<(), StoreError>(StoreError::Exhausted)
        } else {
            Ok::<(), StoreError>(())
        },
{
    lemma_scene_jobs(w, planets_per_star, moons_per_planet);
}

/// Whether `body` stands in `w` where `advance` puts it: at a position that
/// `advance` gives for the orbit of the body, the phase divisor of that orbit
/// at the tick count of `w`, and the position at which `parent` stands in `w`.
pub open spec fn stands_round<F: Fn(SelestialOrbit, u64, SelestialPos) -> SelestialPos>(
    w: WorldModel,
    advance: F,
    body: Key,
    parent: Key,
) -> bool {
    &&& position_at(w, position_of(w, body)) is Ok
    &&& position_at(w, position_of(w, parent)) is Ok
    &&& call_ensures(
        advance,
        (
            orbit_of(w, body),
            phase_divisor(w.tick_number, orbit_of(w, body).period_secs),
            position_at(w, position_of(w, parent)).unwrap(),
        ),
        position_at(w, position_of(w, body)).unwrap(),
    )
}

/// A tick leaves alone what decides the job of a body: where the job could
/// be made before the tick and the position of its host can be read after
/// it, the job is the same after the tick.
proof fn lemma_job_kept<F: Fn(SelestialOrbit, u64, SelestialPos) -> SelestialPos>(
    earlier: WorldModel,
    later: WorldModel,
    to: Seq<SelestialPos>,
    advance: F,
    body: Key,
)
    requires
        earlier.wf(),
        ticked(earlier, later, to, advance),
        body_job(earlier, body) is Ok,
        body_job(earlier, body).unwrap() is Some,
        position_at(later, body_job(earlier, body).unwrap().unwrap().host()) is Ok,
    ensures
        body_job(later, body) == body_job(earlier, body),
        position_of(later, body) == position_of(earlier, body),
{
    law_tick_moves_positions_only(earlier, later, to, advance);
    let pos = earlier.bindings[(body.id, TypeTag::SelestialPos)];
    let orbit_key = earlier.bindings[(body.id, TypeTag::SelestialOrbit)];
    assert(later.components.read_as(orbit_key, TypeTag::SelestialOrbit)
        == earlier.components.read_as(orbit_key, TypeTag::SelestialOrbit));
    assert(later.components.check(pos, TypeTag::SelestialPos) == earlier.components.check(
        pos,
        TypeTag::SelestialPos,
    ));
}

/// Hierarchical consistency of a scene. After a tick of a world that has the
/// shape of a scene, the stars stand where they stood; every planet stands
/// where `advance` puts it round the position of its star; every moon stands
/// where `advance` puts it round the position at which its planet stands
/// after the tick; and the world has the shape of a scene still, so that the
/// same holds of the next tick.
pub proof fn law_scene_ticks<F: Fn(SelestialOrbit, u64, SelestialPos) -> SelestialPos>(
    earlier: WorldModel,
    later: WorldModel,
    to: Seq<SelestialPos>,
    advance: F,
    planets_per_star: nat,
    moons_per_planet: nat,
)
    requires
        earlier.wf(),
        scene_shape(earlier, planets_per_star, moons_per_planet),
        ticked(earlier, later, to, advance),
    ensures
        later.wf(),
        scene_shape(later, planets_per_star, moons_per_planet),
        later.tick_number == earlier.tick_number + 1,
        later.stars == earlier.stars,
        later.planets == earlier.planets,
        later.moons == earlier.moons,
        forall|s: int|
            0 <= s < later.stars.len() ==> position_at(
                later,
                position_of(later, #[trigger] later.stars[s]),
            ) == position_at(earlier, position_of(earlier, earlier.stars[s])),
        forall|i: int|
            0 <= i < later.planets.len() ==> stands_round(
                later,
                advance,
                #[trigger] later.planets[i],
                later.stars[i / planets_per_star as int],
            ),
        forall|i: int|
            0 <= i < later.moons.len() ==> stands_round(
                later,
                advance,
                #[trigger] later.moons[i],
                later.planets[i / moons_per_planet as int],
            ),
{
    let p = planets_per_star as int;
    let m = moons_per_planet as int;
    let stars = earlier.stars;
    let planets = earlier.planets;
    let moons = earlier.moons;
    let jobs = tick_jobs(earlier).unwrap();
    let n = planets.len() as int;
    lemma_scene_jobs(earlier, planets_per_star, moons_per_planet);
    law_tick_moves_positions_only(earlier, later, to, advance);
    assert forall|j: int| 0 <= j < jobs.len() implies ((#[trigger] jobs[j]).pos == if j < n {
        position_of(earlier, planets[j])
    } else {
        position_of(earlier, moons[j - n])
    }) by {
        if j >= n {
            assert(jobs[n + (j - n)].pos == position_of(earlier, moons[j - n]));
        }
    }
    assert forall|s: int| 0 <= s < stars.len() implies position_at(
        later,
        position_of(later, #[trigger] stars[s]),
    ) == position_at(earlier, position_of(earlier, stars[s])) by {
        let key = position_of(earlier, stars[s]);
        assert forall|j: int| 0 <= j < jobs.len() implies (#[trigger] jobs[j]).pos != key by {
            if j < n {
                assert(position_of(earlier, stars[s]) != position_of(earlier, planets[j]));
            } else {
                assert(position_of(earlier, stars[s]) != position_of(earlier, moons[j - n]));
            }
        }
        law_unmoved_position_stays(earlier, later, to, advance, key);
    }
    assert forall|i: int| 0 <= i < planets.len() implies stands_round(
        later,
        advance,
        #[trigger] planets[i],
        stars[i / p],
    ) && body_job(later, planets[i]) == body_job(earlier, planets[i]) by {
        lemma_parent_index(i, planets_per_star, stars.len());
        let star = stars[i / p];
        assert(jobs[i].host() == position_of(earlier, star));
        assert forall|j: int| i <= j < jobs.len() implies (#[trigger] jobs[j]).pos
            != jobs[i].host() by {
            if j < n {
                assert(position_of(earlier, star) != position_of(earlier, planets[j]));
            } else {
                assert(position_of(earlier, star) != position_of(earlier, moons[j - n]));
            }
        }
        assert forall|j: int| i < j < jobs.len() implies (#[trigger] jobs[j]).pos
            != jobs[i].pos by {
            if j < n {
                assert(position_of(earlier, planets[i]) != position_of(earlier, planets[j]));
            } else {
                assert(position_of(earlier, planets[i]) != position_of(earlier, moons[j - n]));
            }
        }
        law_body_follows_host(earlier, later, to, advance, i);
        assert(moves_round(earlier, planets[i], star));
        lemma_job_kept(earlier, later, to, advance, planets[i]);
        assert(position_of(later, star) == position_of(earlier, star));
    }
    assert forall|i: int| 0 <= i < moons.len() implies stands_round(
        later,
        advance,
        #[trigger] moons[i],
        planets[i / m],
    ) && body_job(later, moons[i]) == body_job(earlier, moons[i]) by {
        lemma_parent_index(i, moons_per_planet, planets.len());
        let planet = planets[i / m];
        let k = n + i;
        assert(jobs[k].host() == position_of(earlier, planet));
        assert(jobs[k].pos == position_of(earlier, moons[i]));
        assert forall|j: int| k <= j < jobs.len() implies (#[trigger] jobs[j]).pos
            != jobs[k].host() by {
            assert(position_of(earlier, planet) != position_of(earlier, moons[j - n]));
        }
        assert forall|j: int| k < j < jobs.len() implies (#[trigger] jobs[j]).pos
            != jobs[k].pos by {
            assert(position_of(earlier, moons[i]) != position_of(earlier, moons[j - n]));
        }
        law_body_follows_host(earlier, later, to, advance, k);
        assert(moves_round(earlier, moons[i], planet));
        lemma_job_kept(earlier, later, to, advance, moons[i]);
        assert(position_of(later, planet) == position_of(earlier, planet));
    }
    assert forall|i: int| 0 <= i < later.planets.len() implies moves_round(
        later,
        #[trigger] later.planets[i],
        later.stars[i / p],
    ) by {
        lemma_parent_index(i, planets_per_star, stars.len());
        assert(moves_round(earlier, planets[i], stars[i / p]));
        assert(body_job(later, planets[i]) == body_job(earlier, planets[i]));
    }
    assert forall|i: int| 0 <= i < later.moons.len() implies moves_round(
        later,
        #[trigger] later.moons[i],
        later.planets[i / m],
    ) by {
        lemma_parent_index(i, moons_per_planet, planets.len());
        assert(moves_round(earlier, moons[i], planets[i / m]));
        assert(body_job(later, moons[i]) == body_job(earlier, moons[i]));
    }
    assert(positions_apart(later)) by {
        assert(positions_apart(earlier));
    }
}

} // verus!
