//! The recommendation pipeline: eligibility filtering, per-ship variant
//! generation, validation, and alternative repair, composed into one
//! fixed function of the inputs. Eligible ships are processed by
//! ascending ship id (catalog position breaking ties), and within each
//! ship the five variants keep their objective order, a valid variant
//! passing through and an invalid one replaced by its valid repairs; so
//! the output order is deterministic whatever order the work is done in.

use vstd::prelude::*;
use crate::model::{
    Activity, FitVariant, FitView, Module, ModuleView, Ship, ShipView, fit_views, module_views,
    ship_views, skill_views, SkillView, Skill,
};
use crate::skills::{
    match_skills_to_ships_and_modules, ship_eligible, spec_eligible_modules, spec_eligible_ships,
};
use crate::generator::{generate_fit_variants, objective_order, spec_variant};
use crate::validator::{spec_fit_ok, validate_fit};
use crate::alternatives::{spec_alternatives, suggest_alternative_fits};

verus! {

/// The unprocessed eligible ship with the smallest ship id among the
/// first `k`, the earliest entry winning ties.
pub open spec fn best_unused_ship(ships: Seq<ShipView>, used: Seq<bool>, k: int) -> Option<int>
    decreases k,
{
    if k <= 0 {
        Option::None
    } else {
        let prev = best_unused_ship(ships, used, k - 1);
        if !used[k - 1] {
            match prev {
                Option::None => Option::Some(k - 1),
                Option::Some(p) => if ships[k - 1].ship_id < ships[p].ship_id {
                    Option::Some(k - 1)
                } else {
                    Option::Some(p)
                },
            }
        } else {
            prev
        }
    }
}

/// What the first `k` objectives contribute for one ship: the variant
/// itself when the validator accepts it, else its valid repairs.
pub open spec fn spec_ship_fits_upto(
    skills: Seq<SkillView>,
    ship: ShipView,
    pool: Seq<ModuleView>,
    act: Activity,
    k: int,
) -> Seq<FitView>
    decreases k,
{
    if k <= 0 {
        Seq::empty()
    } else {
        let v = spec_variant(ship, pool, act, objective_order(k - 1));
        spec_ship_fits_upto(skills, ship, pool, act, k - 1) + (if spec_fit_ok(v, skills) {
            seq![v]
        } else {
            spec_alternatives(v, skills, pool)
        })
    }
}

/// Everything one eligible ship contributes, in objective order.
pub open spec fn spec_ship_fits(
    skills: Seq<SkillView>,
    ship: ShipView,
    pool: Seq<ModuleView>,
    act: Activity,
) -> Seq<FitView> {
    spec_ship_fits_upto(skills, ship, pool, act, 5)
}

/// The remaining recommendations: eligible ships are taken by ascending
/// ship id, each contributing its variants and repairs in turn.
pub open spec fn spec_recs_from(
    skills: Seq<SkillView>,
    elig: Seq<ShipView>,
    used: Seq<bool>,
    rounds: nat,
    pool: Seq<ModuleView>,
    act: Activity,
) -> Seq<FitView>
    decreases rounds,
{
    if rounds == 0 {
        Seq::empty()
    } else {
        match best_unused_ship(elig, used, elig.len() as int) {
            Option::None => Seq::empty(),
            Option::Some(j) => spec_ship_fits(skills, elig[j], pool, act) + spec_recs_from(
                skills,
                elig,
                used.update(j, true),
                (rounds - 1) as nat,
                pool,
                act,
            ),
        }
    }
}

/// The full recommendation list as a function of the inputs alone.
pub open spec fn spec_recommendations(
    skills: Seq<SkillView>,
    catalog: Seq<ShipView>,
    module_catalog: Seq<ModuleView>,
    act: Activity,
) -> Seq<FitView> {
    let elig = spec_eligible_ships(skills, catalog);
    let epool = spec_eligible_modules(skills, module_catalog);
    spec_recs_from(
        skills,
        elig,
        Seq::new(elig.len(), |i: int| false),
        elig.len() as nat,
        epool,
        act,
    )
}

/// Scans for the unprocessed eligible ship with the smallest ship id.
fn best_unused_pos(ships: &Vec<Ship>, used: &Vec<bool>) -> (r: Option<usize>)
    requires
        used@.len() == ships@.len(),
    ensures
        ({
            let b = best_unused_ship(ship_views(ships@), used@, ships@.len() as int);
            match r {
                Option::None => b is None,
                Option::Some(j) => j < ships@.len() && b == Option::Some(j as int),
            }
        }),
{
    let ghost sv = ship_views(ships@);
    let mut best: Option<usize> = None;
    let mut i: usize = 0;
    while i < ships.len()
        invariant
            0 <= i <= ships@.len(),
            sv == ship_views(ships@),
            sv.len() == ships@.len(),
            used@.len() == ships@.len(),
            ({
                let b = best_unused_ship(sv, used@, i as int);
                match best {
                    Option::None => b is None,
                    Option::Some(p) => p < i && b == Option::Some(p as int),
                }
            }),
        decreases ships@.len() - i,
    {
        proof {
            assert(sv[i as int] == ships@[i as int]@);
        }
        if !used[i] {
            let take_it = match best {
                Option::None => true,
                Option::Some(p) => ships[i].ship_id < ships[p].ship_id,
            };
            if take_it {
                best = Some(i);
            }
        }
        i = i + 1;
    }
    best
}

/// Builds the full recommendation list, exactly `spec_recommendations`:
/// for each eligible ship, by ascending ship id, its five variants are
/// validated in objective order; a valid one passes through and an
/// invalid one is replaced by its valid repairs. Every returned fit
/// passes the validator and sits on an eligible ship.
pub fn get_fit_recommendations(
    user_skills: &Vec<Skill>,
    all_ships: &Vec<Ship>,
    all_modules: &Vec<Module>,
    activity: Activity,
) -> (r: Vec<FitVariant>)
    ensures
        fit_views(r@) == spec_recommendations(
            skill_views(user_skills@),
            ship_views(all_ships@),
            module_views(all_modules@),
            activity,
        ),
        forall|k: int|
            0 <= k < r@.len() ==> spec_fit_ok((#[trigger] r@[k])@, skill_views(user_skills@)),
        forall|k: int|
            0 <= k < r@.len() ==> ship_eligible(
                skill_views(user_skills@),
                (#[trigger] r@[k])@.ship,
            ),
{
    broadcast use vstd::seq_lib::group_filter_ensures;

    let ghost sk = skill_views(user_skills@);
    let (eligible_ships, eligible_modules) = match_skills_to_ships_and_modules(
        user_skills,
        all_ships,
        all_modules,
    );
    let ghost ev = ship_views(eligible_ships@);
    let ghost epv = module_views(eligible_modules@);
    proof {
        assert(ev == spec_eligible_ships(sk, ship_views(all_ships@)));
        assert(epv == spec_eligible_modules(sk, module_views(all_modules@)));
    }

    let n = eligible_ships.len();
    let mut used: Vec<bool> = Vec::new();
    let mut u: usize = 0;
    while u < n
        invariant
            0 <= u <= n,
            used@.len() == u,
            forall|t: int| 0 <= t < u ==> !(#[trigger] used@[t]),
        decreases n - u,
    {
        used.push(false);
        u = u + 1;
    }
    proof {
        assert(used@ =~= Seq::new(ev.len(), |i: int| false));
    }
    let ghost full = spec_recs_from(sk, ev, used@, n as nat, epv, activity);

    let mut out: Vec<FitVariant> = Vec::new();
    let mut round: usize = 0;
    while round < n
        invariant
            0 <= round <= n,
            n == eligible_ships@.len(),
            sk == skill_views(user_skills@),
            ev == ship_views(eligible_ships@),
            ev == spec_eligible_ships(sk, ship_views(all_ships@)),
            ev.len() == eligible_ships@.len(),
            epv == module_views(eligible_modules@),
            used@.len() == ev.len(),
            full == fit_views(out@) + spec_recs_from(
                sk,
                ev,
                used@,
                (n - round) as nat,
                epv,
                activity,
            ),
            forall|k: int| 0 <= k < out@.len() ==> spec_fit_ok((#[trigger] out@[k])@, sk),
            forall|k: int|
                0 <= k < out@.len() ==> ship_eligible(sk, (#[trigger] out@[k])@.ship),
        ensures
            fit_views(out@) == full,
            forall|k: int| 0 <= k < out@.len() ==> spec_fit_ok((#[trigger] out@[k])@, sk),
            forall|k: int|
                0 <= k < out@.len() ==> ship_eligible(sk, (#[trigger] out@[k])@.ship),
        decreases n - round,
    {
        let found = best_unused_pos(&eligible_ships, &used);
        match found {
            Option::None => {
                proof {
                    assert(spec_recs_from(sk, ev, used@, (n - round) as nat, epv, activity)
                        =~= Seq::<FitView>::empty());
                    assert(fit_views(out@) =~= fit_views(out@) + Seq::<FitView>::empty());
                }
                break;
            },
            Option::Some(j) => {
                let ghost rem_before = spec_recs_from(
                    sk,
                    ev,
                    used@,
                    (n - round) as nat,
                    epv,
                    activity,
                );
                let ghost shipv = ev[j as int];
                proof {
                    assert(rem_before == spec_ship_fits(sk, shipv, epv, activity)
                        + spec_recs_from(
                        sk,
                        ev,
                        used@.update(j as int, true),
                        (n - round - 1) as nat,
                        epv,
                        activity,
                    ));
                    assert(shipv == eligible_ships@[j as int]@);
                    assert(ship_eligible(sk, shipv));
                }
                used.set(j, true);
                let ship = &eligible_ships[j];
                let fits = generate_fit_variants(ship, activity, &eligible_modules);
                let ghost base = fit_views(out@);
                let mut f: usize = 0;
                while f < fits.len()
                    invariant
                        0 <= f <= fits@.len(),
                        fits@.len() == 5,
                        sk == skill_views(user_skills@),
                        epv == module_views(eligible_modules@),
                        ev == spec_eligible_ships(sk, ship_views(all_ships@)),
                        ship_eligible(sk, shipv),
                        forall|k: int|
                            0 <= k < 5 ==> (#[trigger] fits@[k])@ == spec_variant(
                                shipv,
                                epv,
                                activity,
                                objective_order(k),
                            ),
                        fit_views(out@) == base + spec_ship_fits_upto(
                            sk,
                            shipv,
                            epv,
                            activity,
                            f as int,
                        ),
                        forall|k: int|
                            0 <= k < out@.len() ==> spec_fit_ok((#[trigger] out@[k])@, sk),
                        forall|k: int|
                            0 <= k < out@.len() ==> ship_eligible(
                                sk,
                                (#[trigger] out@[k])@.ship,
                            ),
                    decreases fits@.len() - f,
                {
                    let ghost v = fits@[f as int]@;
                    proof {
                        assert(v == spec_variant(shipv, epv, activity, objective_order(f as int)));
                    }
                    let verdict = validate_fit(&fits[f], user_skills);
                    if verdict.is_valid {
                        let ghost before = out@;
                        let kept = clone_variant(&fits[f]);
                        out.push(kept);
                        proof {
                            assert(out@ =~= before.push(out@.last()));
                            assert(fit_views(out@) =~= fit_views(before).push(v));
                            assert(fit_views(out@) =~= base + spec_ship_fits_upto(
                                sk,
                                shipv,
                                epv,
                                activity,
                                f + 1,
                            ));
                        }
                    } else {
                        let mut alts = suggest_alternative_fits(
                            &fits[f],
                            user_skills,
                            &eligible_modules,
                        );
                        let ghost before = out@;
                        let ghost av = alts@;
                        out.append(&mut alts);
                        proof {
                            assert(out@ == before + av);
                            assert(fit_views(out@) =~= fit_views(before) + fit_views(av));
                            assert(fit_views(out@) =~= base + spec_ship_fits_upto(
                                sk,
                                shipv,
                                epv,
                                activity,
                                f + 1,
                            ));
                            assert forall|k: int| 0 <= k < out@.len() implies spec_fit_ok(
                                (#[trigger] out@[k])@,
                                sk,
                            ) && ship_eligible(sk, out@[k]@.ship) by {
                                if k >= before.len() {
                                    assert(out@[k] == av[k - before.len()]);
                                }
                            }
                        }
                    }
                    f = f + 1;
                }
                proof {
                    assert(fit_views(out@) =~= base + spec_ship_fits(sk, shipv, epv, activity));
                    assert(full == fit_views(out@) + spec_recs_from(
                        sk,
                        ev,
                        used@,
                        (n - round - 1) as nat,
                        epv,
                        activity,
                    )) by {
                        assert(full == base + rem_before);
                        assert(base + (spec_ship_fits(sk, shipv, epv, activity) + spec_recs_from(
                            sk,
                            ev,
                            used@,
                            (n - round - 1) as nat,
                            epv,
                            activity,
                        )) =~= (base + spec_ship_fits(sk, shipv, epv, activity))
                            + spec_recs_from(
                            sk,
                            ev,
                            used@,
                            (n - round - 1) as nat,
                            epv,
                            activity,
                        ));
                    }
                }
                round = round + 1;
            },
        }
    }
    out
}

/// A deep copy of a fit variant, equal to the original under the view.
pub fn clone_variant(fit: &FitVariant) -> (r: FitVariant)
    ensures
        r@ == fit@,
{
    let mut mods: Vec<Module> = Vec::new();
    let mut i: usize = 0;
    while i < fit.modules.len()
        invariant
            0 <= i <= fit.modules@.len(),
            crate::model::module_views(mods@) == crate::model::module_views(fit.modules@).take(
                i as int,
            ),
        decreases fit.modules@.len() - i,
    {
        let ghost before = crate::model::module_views(mods@);
        mods.push(fit.modules[i].clone());
        proof {
            assert(crate::model::module_views(mods@) =~= before.push(
                crate::model::module_views(fit.modules@)[i as int],
            ));
            assert(crate::model::module_views(fit.modules@).take(i + 1)
                =~= crate::model::module_views(fit.modules@).take(i as int).push(
                crate::model::module_views(fit.modules@)[i as int],
            ));
        }
        i = i + 1;
    }
    proof {
        assert(crate::model::module_views(fit.modules@).take(fit.modules@.len() as int)
            =~= crate::model::module_views(fit.modules@));
    }
    FitVariant {
        fit_name: fit.fit_name.clone(),
        ship: fit.ship.clone(),
        modules: mods,
        rationale: fit.rationale.clone(),
    }
}

} // verus!
