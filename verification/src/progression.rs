//! Progression advisor: determines the user's current maximum ship tier
//! from the eligible ships, proposes the immediate successor tier, and
//! picks the catalog ship of that tier needing the fewest total training
//! levels, ties broken by lower ship id.

use vstd::prelude::*;
use crate::model::{
    ReqView, Ship, ShipTier, ShipView, Skill, SkillRequirement, SkillView, req_views, ship_views,
    skill_views, tier_of_rank, tier_rank, tier_rank_exec,
};
use crate::plan::user_level;
use crate::skills::spec_req_met;

verus! {

/// The rank of the highest tier among the ships, or -1 when none.
pub open spec fn max_tier_rank(ships: Seq<ShipView>) -> int
    decreases ships.len(),
{
    if ships.len() == 0 {
        -1
    } else {
        let rest = max_tier_rank(ships.drop_last());
        if tier_rank(ships.last().tier) > rest {
            tier_rank(ships.last().tier)
        } else {
            rest
        }
    }
}

/// Total training levels a user is missing for a requirement list: the
/// sum over all requirements of the shortfall below the required level.
pub open spec fn spec_training_cost(skills: Seq<SkillView>, reqs: Seq<ReqView>) -> int
    decreases reqs.len(),
{
    if reqs.len() == 0 {
        0
    } else {
        let gap = reqs.last().required_level - user_level(skills, reqs.last().skill_id);
        spec_training_cost(skills, reqs.drop_last()) + if gap > 0 {
            gap
        } else {
            0int
        }
    }
}

/// The advisor's choice among the first `k` catalog ships: the ship of
/// the target rank with the smallest training cost, then the lowest
/// ship id, the earliest entry winning exact ties.
pub open spec fn best_ship_in(
    skills: Seq<SkillView>,
    ships: Seq<ShipView>,
    rank: int,
    k: int,
) -> Option<int>
    decreases k,
{
    if k <= 0 {
        Option::None
    } else {
        let prev = best_ship_in(skills, ships, rank, k - 1);
        if tier_rank(ships[k - 1].tier) == rank {
            match prev {
                Option::None => Option::Some(k - 1),
                Option::Some(p) => if spec_ship_precedes(skills, ships[k - 1], ships[p]) {
                    Option::Some(k - 1)
                } else {
                    Option::Some(p)
                },
            }
        } else {
            prev
        }
    }
}

/// Strictly smaller training cost, or equal cost and strictly smaller
/// ship id.
pub open spec fn spec_ship_precedes(skills: Seq<SkillView>, a: ShipView, b: ShipView) -> bool {
    spec_training_cost(skills, a.required_skills) < spec_training_cost(skills, b.required_skills)
        || (spec_training_cost(skills, a.required_skills) == spec_training_cost(
        skills,
        b.required_skills,
    ) && a.ship_id < b.ship_id)
}

/// The training cost of a requirement list, computed exactly.
pub fn training_cost(user_skills: &Vec<Skill>, reqs: &Vec<SkillRequirement>) -> (c: u128)
    ensures
        c as int == spec_training_cost(skill_views(user_skills@), req_views(reqs@)),
{
    let ghost sk = skill_views(user_skills@);
    let ghost rv = req_views(reqs@);
    let mut acc: u128 = 0;
    let mut i: usize = 0;
    while i < reqs.len()
        invariant
            0 <= i <= reqs@.len(),
            sk == skill_views(user_skills@),
            rv == req_views(reqs@),
            rv.len() == reqs@.len(),
            acc as int == spec_training_cost(sk, rv.take(i as int)),
            acc <= (i as u128) * 0x1_0000_0000,
        decreases reqs@.len() - i,
    {
        proof {
            assert(rv.take(i + 1).drop_last() =~= rv.take(i as int));
            assert(rv.take(i + 1).last() == rv[i as int]);
            assert(rv[i as int] == reqs@[i as int]@);
        }
        let rq = &reqs[i];
        let cur = crate::plan::user_level_of(user_skills, rq.skill_id);
        if rq.required_level > cur {
            let gap = rq.required_level as i64 - cur as i64;
            acc = acc + gap as u128;
        }
        i = i + 1;
    }
    proof {
        assert(rv.take(reqs@.len() as int) =~= rv);
    }
    acc
}

/// Executable counterpart of `tier_of_rank` for ranks 0 to 4.
pub fn tier_of_rank_exec(r: u32) -> (t: ShipTier)
    requires
        r <= 4,
    ensures
        t == tier_of_rank(r as int),
{
    if r == 0 {
        ShipTier::Frigate
    } else if r == 1 {
        ShipTier::Destroyer
    } else if r == 2 {
        ShipTier::Cruiser
    } else if r == 3 {
        ShipTier::Battlecruiser
    } else {
        ShipTier::Battleship
    }
}

/// Progression advisor. The current tier is the highest tier among the
/// eligible ships (below Frigate when none is eligible); the suggested
/// tier is its immediate successor, and no suggestion is made at
/// Battleship. Among catalog ships of the suggested tier the advisor
/// picks the one with the fewest missing training levels, ties broken
/// by lowest ship id, and returns it with its unmet requirements.
pub fn suggest_next_ship_tier(
    user_skills: &Vec<Skill>,
    eligible_ships: &Vec<Ship>,
    all_ships: &Vec<Ship>,
) -> (r: Option<(ShipTier, Ship, Vec<SkillRequirement>)>)
    ensures
        ({
            let sk = skill_views(user_skills@);
            let cur = max_tier_rank(ship_views(eligible_ships@));
            let av = ship_views(all_ships@);
            &&& (r is Some <==> (cur < 4 && best_ship_in(sk, av, cur + 1, av.len() as int)
                is Some))
            &&& (r matches Some(t) ==> {
                let b = best_ship_in(sk, av, cur + 1, av.len() as int)->Some_0;
                &&& t.0 == tier_of_rank(cur + 1)
                &&& t.1@ == av[b]
                &&& req_views(t.2@) == av[b].required_skills.filter(
                    (|rq: ReqView| user_level(sk, rq.skill_id) < rq.required_level),
                )
            })
        }),
{
    let ghost sk = skill_views(user_skills@);
    let ghost ev = ship_views(eligible_ships@);
    let ghost av = ship_views(all_ships@);

    // Highest eligible tier, -1 when nothing is eligible.
    let mut cur: i32 = -1;
    let mut i: usize = 0;
    while i < eligible_ships.len()
        invariant
            0 <= i <= eligible_ships@.len(),
            ev == ship_views(eligible_ships@),
            ev.len() == eligible_ships@.len(),
            cur as int == max_tier_rank(ev.take(i as int)),
            -1 <= cur <= 4,
        decreases eligible_ships@.len() - i,
    {
        proof {
            assert(ev.take(i + 1).drop_last() =~= ev.take(i as int));
            assert(ev.take(i + 1).last() == ev[i as int]);
            assert(ev[i as int] == eligible_ships@[i as int]@);
        }
        let rank = tier_rank_exec(eligible_ships[i].tier) as i32;
        if rank > cur {
            cur = rank;
        }
        i = i + 1;
    }
    proof {
        assert(ev.take(eligible_ships@.len() as int) =~= ev);
    }
    if cur >= 4 {
        // Already at the top tier: nothing further to suggest.
        return None;
    }
    let target: u32 = (cur + 1) as u32;

    // The catalog ship of the target tier with the lowest training cost,
    // ties broken by lowest ship id, earliest entry winning exact ties.
    let mut best: Option<usize> = None;
    let mut best_cost: u128 = 0;
    let mut k: usize = 0;
    while k < all_ships.len()
        invariant
            0 <= k <= all_ships@.len(),
            sk == skill_views(user_skills@),
            av == ship_views(all_ships@),
            av.len() == all_ships@.len(),
            target <= 4,
            ({
                let b = best_ship_in(sk, av, target as int, k as int);
                match best {
                    Option::None => b is None,
                    Option::Some(p) => p < k && b == Option::Some(p as int) && best_cost as int
                        == spec_training_cost(sk, av[p as int].required_skills),
                }
            }),
        decreases all_ships@.len() - k,
    {
        proof {
            assert(av[k as int] == all_ships@[k as int]@);
        }
        let ship = &all_ships[k];
        if tier_rank_exec(ship.tier) == target {
            let c = training_cost(user_skills, &ship.required_skills);
            let take_it = match best {
                Option::None => true,
                Option::Some(p) => c < best_cost || (c == best_cost && ship.ship_id
                    < all_ships[p].ship_id),
            };
            if take_it {
                best = Some(k);
                best_cost = c;
            }
        }
        k = k + 1;
    }

    match best {
        Option::None => None,
        Option::Some(b) => {
            let chosen = &all_ships[b];
            // The unmet requirements of the chosen ship, in catalog order.
            let ghost crv = req_views(chosen.required_skills@);
            let ghost pred = (|rq: ReqView| user_level(sk, rq.skill_id) < rq.required_level);
            let mut unmet: Vec<SkillRequirement> = Vec::new();
            let mut t: usize = 0;
            while t < chosen.required_skills.len()
                invariant
                    0 <= t <= chosen.required_skills@.len(),
                    sk == skill_views(user_skills@),
                    crv == req_views(chosen.required_skills@),
                    crv.len() == chosen.required_skills@.len(),
                    pred == (|rq: ReqView| user_level(sk, rq.skill_id) < rq.required_level),
                    req_views(unmet@) == crv.take(t as int).filter(pred),
                decreases chosen.required_skills@.len() - t,
            {
                proof {
                    assert(crv.take(t + 1).drop_last() =~= crv.take(t as int));
                    assert(crv.take(t + 1) =~= crv.take(t as int).push(crv[t as int]));
                    Seq::lemma_filter_push(crv.take(t as int), crv[t as int], pred);
                    assert(crv[t as int] == chosen.required_skills@[t as int]@);
                }
                let rq = &chosen.required_skills[t];
                let lvl = crate::plan::user_level_of(user_skills, rq.skill_id);
                if lvl < rq.required_level {
                    let ghost before = req_views(unmet@);
                    unmet.push(rq.clone());
                    proof {
                        assert(req_views(unmet@) =~= before.push(crv[t as int]));
                    }
                }
                t = t + 1;
            }
            proof {
                assert(crv.take(chosen.required_skills@.len() as int) =~= crv);
            }
            let tier = tier_of_rank_exec(target);
            Some((tier, chosen.clone(), unmet))
        },
    }
}

} // verus!
