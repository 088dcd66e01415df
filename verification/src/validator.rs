//! Fit validator: a pure check of slot-capacity, resource-budget and
//! skill-requirement compliance for one fit variant.

use vstd::prelude::*;
use vstd::string::StringExecFns;
use crate::model::{
    FitValidation, FitVariant, FitView, ModuleView, ReqView, Skill, SkillRequirement, SkillView,
    SlotType, ValidationView, slot_capacity, skill_views, string_views,
};
use crate::skills::{has_skill_at, spec_req_met, spec_reqs_met};

verus! {

/// Number of modules in a fit that occupy the given slot type.
pub open spec fn spec_slot_count(mods: Seq<ModuleView>, st: SlotType) -> int
    decreases mods.len(),
{
    if mods.len() == 0 {
        0
    } else {
        spec_slot_count(mods.drop_last(), st) + if mods.last().slot_type == st {
            1int
        } else {
            0int
        }
    }
}

/// Total powergrid cost of a module list.
pub open spec fn spec_pg_used(mods: Seq<ModuleView>) -> int
    decreases mods.len(),
{
    if mods.len() == 0 {
        0
    } else {
        spec_pg_used(mods.drop_last()) + mods.last().power_grid_cost
    }
}

/// Total CPU cost of a module list.
pub open spec fn spec_cpu_used(mods: Seq<ModuleView>) -> int
    decreases mods.len(),
{
    if mods.len() == 0 {
        0
    } else {
        spec_cpu_used(mods.drop_last()) + mods.last().cpu_cost
    }
}

/// Net capacitor balance of a module list (recharge minus usage).
pub open spec fn spec_cap_total(mods: Seq<ModuleView>) -> int
    decreases mods.len(),
{
    if mods.len() == 0 {
        0
    } else {
        spec_cap_total(mods.drop_last()) + mods.last().cap_delta
    }
}

/// The digit character for a single-digit level; levels outside 0..=9
/// render as a question mark.
pub open spec fn level_char(v: int) -> char {
    if v == 0 {
        '0'
    } else if v == 1 {
        '1'
    } else if v == 2 {
        '2'
    } else if v == 3 {
        '3'
    } else if v == 4 {
        '4'
    } else if v == 5 {
        '5'
    } else if v == 6 {
        '6'
    } else if v == 7 {
        '7'
    } else if v == 8 {
        '8'
    } else if v == 9 {
        '9'
    } else {
        '?'
    }
}

/// Executable counterpart of `level_char`, as a one-character string slice.
pub fn level_str(v: i32) -> (r: &'static str)
    ensures
        r@ == seq![level_char(v as int)],
{
    if v == 0 {
        proof { reveal_strlit("0"); }
        "0"
    } else if v == 1 {
        proof { reveal_strlit("1"); }
        "1"
    } else if v == 2 {
        proof { reveal_strlit("2"); }
        "2"
    } else if v == 3 {
        proof { reveal_strlit("3"); }
        "3"
    } else if v == 4 {
        proof { reveal_strlit("4"); }
        "4"
    } else if v == 5 {
        proof { reveal_strlit("5"); }
        "5"
    } else if v == 6 {
        proof { reveal_strlit("6"); }
        "6"
    } else if v == 7 {
        proof { reveal_strlit("7"); }
        "7"
    } else if v == 8 {
        proof { reveal_strlit("8"); }
        "8"
    } else if v == 9 {
        proof { reveal_strlit("9"); }
        "9"
    } else {
        proof { reveal_strlit("?"); }
        "?"
    }
}

/// The human-readable line reported for one unmet skill requirement.
pub open spec fn spec_skill_line(r: ReqView) -> Seq<char> {
    r.name + " Level "@ + seq![level_char(r.required_level)]
}

/// Builds the line `"<name> Level <required_level>"` for a requirement.
pub fn make_skill_line(r: &SkillRequirement) -> (s: String)
    ensures
        s@ == spec_skill_line(r@),
{
    let mut s = r.name.clone();
    s.append(" Level ");
    s.append(level_str(r.required_level));
    proof {
        assert(s@ =~= spec_skill_line(r@));
    }
    s
}

/// The lines reported for the unmet requirements in one list, in order.
pub open spec fn spec_req_lines(skills: Seq<SkillView>, reqs: Seq<ReqView>) -> Seq<Seq<char>>
    decreases reqs.len(),
{
    if reqs.len() == 0 {
        Seq::empty()
    } else {
        spec_req_lines(skills, reqs.drop_last()) + if spec_req_met(skills, reqs.last()) {
            Seq::<Seq<char>>::empty()
        } else {
            seq![spec_skill_line(reqs.last())]
        }
    }
}

/// The unmet-requirement lines contributed by every module, in fit order.
pub open spec fn spec_module_req_lines(skills: Seq<SkillView>, mods: Seq<ModuleView>) -> Seq<
    Seq<char>,
>
    decreases mods.len(),
{
    if mods.len() == 0 {
        Seq::empty()
    } else {
        spec_module_req_lines(skills, mods.drop_last()) + spec_req_lines(
            skills,
            mods.last().required_skills,
        )
    }
}

/// Whether a fit exceeds the slot capacity of the given slot type.
pub open spec fn spec_slot_over(fit: FitView, st: SlotType) -> bool {
    spec_slot_count(fit.modules, st) > slot_capacity(fit.ship, st)
}

/// Slot-capacity violation lines, in the fixed order High, Mid, Low, Rig.
pub open spec fn spec_slot_lines(fit: FitView) -> Seq<Seq<char>> {
    (if spec_slot_over(fit, SlotType::High) {
        seq!["Too many High slot modules"@]
    } else {
        Seq::<Seq<char>>::empty()
    }) + (if spec_slot_over(fit, SlotType::Mid) {
        seq!["Too many Mid slot modules"@]
    } else {
        Seq::<Seq<char>>::empty()
    }) + (if spec_slot_over(fit, SlotType::Low) {
        seq!["Too many Low slot modules"@]
    } else {
        Seq::<Seq<char>>::empty()
    }) + (if spec_slot_over(fit, SlotType::Rig) {
        seq!["Too many Rig slot modules"@]
    } else {
        Seq::<Seq<char>>::empty()
    })
}

/// Resource-budget violation lines, powergrid before CPU.
pub open spec fn spec_resource_lines(fit: FitView) -> Seq<Seq<char>> {
    (if spec_pg_used(fit.modules) > fit.ship.power_grid_budget {
        seq!["Insufficient powergrid"@]
    } else {
        Seq::<Seq<char>>::empty()
    }) + (if spec_cpu_used(fit.modules) > fit.ship.cpu_budget {
        seq!["Insufficient CPU"@]
    } else {
        Seq::<Seq<char>>::empty()
    })
}

/// Every hard-constraint violation line of a fit, in check order:
/// slot capacities, then resource budgets, then unmet skills of the ship
/// followed by those of each module.
pub open spec fn spec_missing(fit: FitView, skills: Seq<SkillView>) -> Seq<Seq<char>> {
    spec_slot_lines(fit) + spec_resource_lines(fit) + spec_req_lines(
        skills,
        fit.ship.required_skills,
    ) + spec_module_req_lines(skills, fit.modules)
}

/// A fit is feasible when no slot capacity is exceeded, both resource
/// budgets hold, and every skill requirement of the ship and of each
/// module is met.
pub open spec fn spec_fit_ok(fit: FitView, skills: Seq<SkillView>) -> bool {
    &&& !spec_slot_over(fit, SlotType::High)
    &&& !spec_slot_over(fit, SlotType::Mid)
    &&& !spec_slot_over(fit, SlotType::Low)
    &&& !spec_slot_over(fit, SlotType::Rig)
    &&& spec_pg_used(fit.modules) <= fit.ship.power_grid_budget
    &&& spec_cpu_used(fit.modules) <= fit.ship.cpu_budget
    &&& spec_reqs_met(skills, fit.ship.required_skills)
    &&& forall|i: int|
        0 <= i < fit.modules.len() ==> spec_reqs_met(
            skills,
            (#[trigger] fit.modules[i]).required_skills,
        )
}

/// Soft warnings: a remaining powergrid or CPU margin under 5% of the
/// budget, and a negative net capacitor balance.
pub open spec fn spec_warnings(fit: FitView) -> Seq<Seq<char>> {
    (if spec_pg_used(fit.modules) <= fit.ship.power_grid_budget
        && (fit.ship.power_grid_budget - spec_pg_used(fit.modules)) * 20
            < fit.ship.power_grid_budget {
        seq!["Low powergrid margin"@]
    } else {
        Seq::<Seq<char>>::empty()
    }) + (if spec_cpu_used(fit.modules) <= fit.ship.cpu_budget
        && (fit.ship.cpu_budget - spec_cpu_used(fit.modules)) * 20 < fit.ship.cpu_budget {
        seq!["Low CPU margin"@]
    } else {
        Seq::<Seq<char>>::empty()
    }) + (if spec_cap_total(fit.modules) < 0 {
        seq!["Negative capacitor balance"@]
    } else {
        Seq::<Seq<char>>::empty()
    })
}

/// There are no unmet-requirement lines exactly when every requirement is met.
pub proof fn lemma_req_lines_empty(skills: Seq<SkillView>, reqs: Seq<ReqView>)
    ensures
        (spec_req_lines(skills, reqs).len() == 0) <==> spec_reqs_met(skills, reqs),
    decreases reqs.len(),
{
    if reqs.len() == 0 {
    } else {
        lemma_req_lines_empty(skills, reqs.drop_last());
        if spec_reqs_met(skills, reqs.drop_last()) && spec_req_met(skills, reqs.last()) {
            assert forall|i: int| 0 <= i < reqs.len() implies spec_req_met(
                skills,
                #[trigger] reqs[i],
            ) by {
                if i < reqs.len() - 1 {
                    assert(reqs.drop_last()[i] == reqs[i]);
                }
            }
        } else {
            if spec_reqs_met(skills, reqs) {
                assert forall|i: int| 0 <= i < reqs.drop_last().len() implies spec_req_met(
                    skills,
                    #[trigger] reqs.drop_last()[i],
                ) by {
                    assert(reqs.drop_last()[i] == reqs[i]);
                }
                assert(spec_req_met(skills, reqs.last()));
            }
        }
    }
}

/// There are no module-requirement lines exactly when every module's
/// requirements are met.
pub proof fn lemma_module_lines_empty(skills: Seq<SkillView>, mods: Seq<ModuleView>)
    ensures
        (spec_module_req_lines(skills, mods).len() == 0) <==> forall|i: int|
            0 <= i < mods.len() ==> spec_reqs_met(skills, (#[trigger] mods[i]).required_skills),
    decreases mods.len(),
{
    if mods.len() == 0 {
    } else {
        lemma_module_lines_empty(skills, mods.drop_last());
        lemma_req_lines_empty(skills, mods.last().required_skills);
        if spec_module_req_lines(skills, mods).len() == 0 {
            assert forall|i: int| 0 <= i < mods.len() implies spec_reqs_met(
                skills,
                (#[trigger] mods[i]).required_skills,
            ) by {
                if i < mods.len() - 1 {
                    assert(mods.drop_last()[i] == mods[i]);
                }
            }
        } else {
            if forall|i: int|
                0 <= i < mods.len() ==> spec_reqs_met(
                    skills,
                    (#[trigger] mods[i]).required_skills,
                ) {
                assert forall|i: int| 0 <= i < mods.drop_last().len() implies spec_reqs_met(
                    skills,
                    (#[trigger] mods.drop_last()[i]).required_skills,
                ) by {
                    assert(mods.drop_last()[i] == mods[i]);
                }
                assert(spec_reqs_met(skills, mods.last().required_skills));
            }
        }
    }
}

/// A fit is feasible exactly when the validator reports no violation line.
pub proof fn lemma_ok_iff_no_missing(fit: FitView, skills: Seq<SkillView>)
    ensures
        spec_fit_ok(fit, skills) <==> spec_missing(fit, skills).len() == 0,
{
    lemma_req_lines_empty(skills, fit.ship.required_skills);
    lemma_module_lines_empty(skills, fit.modules);
}

/// A fit that exceeds a slot capacity or a resource budget is never
/// feasible, whatever the user's skills.
pub proof fn lemma_overfit_never_valid(fit: FitView, skills: Seq<SkillView>)
    requires
        spec_slot_over(fit, SlotType::High) || spec_slot_over(fit, SlotType::Mid)
            || spec_slot_over(fit, SlotType::Low) || spec_slot_over(fit, SlotType::Rig)
            || spec_pg_used(fit.modules) > fit.ship.power_grid_budget
            || spec_cpu_used(fit.modules) > fit.ship.cpu_budget,
    ensures
        !spec_fit_ok(fit, skills),
{
}

/// Validates one fit against the user's skills. Checks, in order, slot
/// capacities per type, powergrid and CPU budgets, and every skill
/// requirement of the ship and of each module. `is_valid` holds exactly
/// when all checks pass; `missing_requirements` holds one line per
/// violation in check order; `warnings` records soft issues only.
pub fn validate_fit(fit: &FitVariant, user_skills: &Vec<Skill>) -> (r: FitValidation)
    ensures
        r@.is_valid == spec_fit_ok(fit@, skill_views(user_skills@)),
        r@.missing_requirements == spec_missing(fit@, skill_views(user_skills@)),
        r@.warnings == spec_warnings(fit@),
        r@.is_valid <==> r@.missing_requirements.len() == 0,
{
    let ghost fv = fit@;
    let ghost sk = skill_views(user_skills@);
    let ghost mv = fv.modules;

    // One pass over the modules accumulates the slot counts and the
    // resource and capacitor totals.
    let mut high_count: u64 = 0;
    let mut mid_count: u64 = 0;
    let mut low_count: u64 = 0;
    let mut rig_count: u64 = 0;
    let mut pg_acc: u128 = 0;
    let mut cpu_acc: u128 = 0;
    let mut cap_acc: i128 = 0;
    let mut i: usize = 0;
    while i < fit.modules.len()
        invariant
            0 <= i <= fit.modules@.len(),
            mv == crate::model::module_views(fit.modules@),
            mv.len() == fit.modules@.len(),
            high_count as int == spec_slot_count(mv.take(i as int), SlotType::High),
            mid_count as int == spec_slot_count(mv.take(i as int), SlotType::Mid),
            low_count as int == spec_slot_count(mv.take(i as int), SlotType::Low),
            rig_count as int == spec_slot_count(mv.take(i as int), SlotType::Rig),
            high_count <= i && mid_count <= i && low_count <= i && rig_count <= i,
            pg_acc as int == spec_pg_used(mv.take(i as int)),
            cpu_acc as int == spec_cpu_used(mv.take(i as int)),
            cap_acc as int == spec_cap_total(mv.take(i as int)),
            pg_acc <= (i as u128) * 0xffff_ffff,
            cpu_acc <= (i as u128) * 0xffff_ffff,
            -((i as i128) * 0x8000_0000) <= cap_acc && cap_acc <= (i as i128) * 0x7fff_ffff,
        decreases fit.modules@.len() - i,
    {
        proof {
            assert(mv.take(i + 1).drop_last() =~= mv.take(i as int));
            assert(mv.take(i + 1).last() == mv[i as int]);
        }
        let m = &fit.modules[i];
        match m.slot_type {
            SlotType::High => { high_count = high_count + 1; },
            SlotType::Mid => { mid_count = mid_count + 1; },
            SlotType::Low => { low_count = low_count + 1; },
            SlotType::Rig => { rig_count = rig_count + 1; },
        }
        pg_acc = pg_acc + m.power_grid_cost as u128;
        cpu_acc = cpu_acc + m.cpu_cost as u128;
        cap_acc = cap_acc + m.cap_delta as i128;
        i = i + 1;
    }
    proof {
        assert(mv.take(fit.modules@.len() as int) =~= mv);
    }

    let mut missing: Vec<String> = Vec::new();

    // Slot capacities, in the fixed order High, Mid, Low, Rig.
    if high_count > fit.ship.high_slots as u64 {
        missing.push(String::from_str("Too many High slot modules"));
    }
    if mid_count > fit.ship.mid_slots as u64 {
        missing.push(String::from_str("Too many Mid slot modules"));
    }
    if low_count > fit.ship.low_slots as u64 {
        missing.push(String::from_str("Too many Low slot modules"));
    }
    if rig_count > fit.ship.rig_slots as u64 {
        missing.push(String::from_str("Too many Rig slot modules"));
    }
    proof {
        assert(string_views(missing@) =~= spec_slot_lines(fv));
    }

    // Resource budgets: powergrid, then CPU.
    if pg_acc > fit.ship.power_grid_budget as u128 {
        missing.push(String::from_str("Insufficient powergrid"));
    }
    if cpu_acc > fit.ship.cpu_budget as u128 {
        missing.push(String::from_str("Insufficient CPU"));
    }
    proof {
        assert(string_views(missing@) =~= spec_slot_lines(fv) + spec_resource_lines(fv));
    }

    // Skill requirements of the ship, in catalog order.
    let ghost prefix2 = spec_slot_lines(fv) + spec_resource_lines(fv);
    let ghost shipreqs = fv.ship.required_skills;
    let mut j: usize = 0;
    while j < fit.ship.required_skills.len()
        invariant
            0 <= j <= fit.ship.required_skills@.len(),
            sk == skill_views(user_skills@),
            shipreqs == crate::model::req_views(fit.ship.required_skills@),
            shipreqs.len() == fit.ship.required_skills@.len(),
            string_views(missing@) == prefix2 + spec_req_lines(sk, shipreqs.take(j as int)),
        decreases fit.ship.required_skills@.len() - j,
    {
        proof {
            assert(shipreqs.take(j + 1).drop_last() =~= shipreqs.take(j as int));
            assert(shipreqs.take(j + 1).last() == shipreqs[j as int]);
        }
        let rq = &fit.ship.required_skills[j];
        proof {
            assert(shipreqs[j as int] == fit.ship.required_skills@[j as int]@);
        }
        if !has_skill_at(user_skills, rq.skill_id, rq.required_level) {
            let line = make_skill_line(rq);
            let ghost before = missing@;
            missing.push(line);
            proof {
                assert(!spec_req_met(sk, shipreqs[j as int]));
                assert(spec_req_lines(sk, shipreqs.take(j + 1)) =~= spec_req_lines(
                    sk,
                    shipreqs.take(j as int),
                ).push(spec_skill_line(shipreqs[j as int])));
                assert(string_views(missing@) =~= string_views(before).push(line@));
                assert(string_views(missing@) =~= prefix2 + spec_req_lines(
                    sk,
                    shipreqs.take(j + 1),
                ));
            }
        } else {
            proof {
                assert(string_views(missing@) =~= prefix2 + spec_req_lines(
                    sk,
                    shipreqs.take(j + 1),
                ));
            }
        }
        j = j + 1;
    }
    proof {
        assert(shipreqs.take(fit.ship.required_skills@.len() as int) =~= shipreqs);
    }

    // Skill requirements of each module, in fit order.
    let ghost prefix3 = prefix2 + spec_req_lines(sk, shipreqs);
    let mut k: usize = 0;
    while k < fit.modules.len()
        invariant
            0 <= k <= fit.modules@.len(),
            sk == skill_views(user_skills@),
            mv == crate::model::module_views(fit.modules@),
            mv.len() == fit.modules@.len(),
            string_views(missing@) == prefix3 + spec_module_req_lines(sk, mv.take(k as int)),
        decreases fit.modules@.len() - k,
    {
        proof {
            assert(mv.take(k + 1).drop_last() =~= mv.take(k as int));
            assert(mv.take(k + 1).last() == mv[k as int]);
        }
        let ghost modreqs = mv[k as int].required_skills;
        let ghost prefix4 = prefix3 + spec_module_req_lines(sk, mv.take(k as int));
        let mut t: usize = 0;
        while t < fit.modules[k].required_skills.len()
            invariant
                0 <= k < fit.modules@.len(),
                0 <= t <= fit.modules@[k as int].required_skills@.len(),
                sk == skill_views(user_skills@),
                mv == crate::model::module_views(fit.modules@),
                mv.len() == fit.modules@.len(),
                modreqs == mv[k as int].required_skills,
                modreqs == crate::model::req_views(fit.modules@[k as int].required_skills@),
                modreqs.len() == fit.modules@[k as int].required_skills@.len(),
                string_views(missing@) == prefix4 + spec_req_lines(sk, modreqs.take(t as int)),
            decreases fit.modules@[k as int].required_skills@.len() - t,
        {
            proof {
                assert(modreqs.take(t + 1).drop_last() =~= modreqs.take(t as int));
                assert(modreqs.take(t + 1).last() == modreqs[t as int]);
            }
            let rq = &fit.modules[k].required_skills[t];
            proof {
                assert(modreqs[t as int] == fit.modules@[k as int].required_skills@[t as int]@);
            }
            if !has_skill_at(user_skills, rq.skill_id, rq.required_level) {
                let line = make_skill_line(rq);
                let ghost before = missing@;
                missing.push(line);
                proof {
                    assert(!spec_req_met(sk, modreqs[t as int]));
                    assert(spec_req_lines(sk, modreqs.take(t + 1)) =~= spec_req_lines(
                        sk,
                        modreqs.take(t as int),
                    ).push(spec_skill_line(modreqs[t as int])));
                    assert(string_views(missing@) =~= string_views(before).push(line@));
                    assert(string_views(missing@) =~= prefix4 + spec_req_lines(
                        sk,
                        modreqs.take(t + 1),
                    ));
                }
            } else {
                proof {
                    assert(string_views(missing@) =~= prefix4 + spec_req_lines(
                        sk,
                        modreqs.take(t + 1),
                    ));
                }
            }
            t = t + 1;
        }
        proof {
            assert(modreqs.take(fit.modules@[k as int].required_skills@.len() as int)
                =~= modreqs);
            assert(string_views(missing@) =~= prefix3 + spec_module_req_lines(
                sk,
                mv.take(k + 1),
            ));
        }
        k = k + 1;
    }
    proof {
        assert(mv.take(fit.modules@.len() as int) =~= mv);
        assert(string_views(missing@) =~= spec_missing(fv, sk));
    }

    // Soft warnings: tight resource margins and negative capacitor balance.
    let mut warnings: Vec<String> = Vec::new();
    let pgb = fit.ship.power_grid_budget as u128;
    if pg_acc <= pgb && (pgb - pg_acc) * 20 < pgb {
        warnings.push(String::from_str("Low powergrid margin"));
    }
    let cpb = fit.ship.cpu_budget as u128;
    if cpu_acc <= cpb && (cpb - cpu_acc) * 20 < cpb {
        warnings.push(String::from_str("Low CPU margin"));
    }
    if cap_acc < 0 {
        warnings.push(String::from_str("Negative capacitor balance"));
    }
    proof {
        assert(string_views(warnings@) =~= spec_warnings(fv));
    }

    let is_valid = missing.len() == 0;
    proof {
        lemma_ok_iff_no_missing(fv, sk);
        assert(string_views(missing@).len() == missing@.len());
    }
    FitValidation { is_valid, missing_requirements: missing, warnings }
}

} // verus!
