//! Skill lookups and the eligibility filter: reduces the full ship and
//! module catalogs to what the user's trained skills allow.

use vstd::prelude::*;
use crate::model::{
    Module, ModuleView, ReqView, Ship, ShipView, Skill, SkillRequirement, SkillView, module_views,
    req_views, ship_views, skill_views,
};

verus! {

/// True when some user skill matches `id` at `level` or above.
pub open spec fn spec_has_skill_at(skills: Seq<SkillView>, id: int, level: int) -> bool {
    exists|i: int|
        0 <= i < skills.len() && skills[i].skill_id == id && skills[i].active_level >= level
}

/// Linear scan deciding whether the user holds skill `id` at `level` or above.
pub fn has_skill_at(skills: &Vec<Skill>, id: i64, level: i32) -> (r: bool)
    ensures
        r == spec_has_skill_at(skill_views(skills@), id as int, level as int),
{
    let ghost sv = skill_views(skills@);
    let mut i: usize = 0;
    while i < skills.len()
        invariant
            0 <= i <= skills@.len(),
            sv == skill_views(skills@),
            sv.len() == skills@.len(),
            forall|j: int|
                0 <= j < i ==> !(sv[j].skill_id == id as int && sv[j].active_level >= level as int),
        decreases skills@.len() - i,
    {
        if skills[i].skill_id == id && skills[i].active_level >= level {
            assert(sv[i as int].skill_id == id as int && sv[i as int].active_level >= level as int);
            return true;
        }
        i = i + 1;
    }
    false
}

/// One requirement is met when the user holds the named skill at the
/// required level or above.
pub open spec fn spec_req_met(skills: Seq<SkillView>, r: ReqView) -> bool {
    spec_has_skill_at(skills, r.skill_id, r.required_level)
}

/// All requirements in a list are met; an empty list is trivially met.
pub open spec fn spec_reqs_met(skills: Seq<SkillView>, reqs: Seq<ReqView>) -> bool {
    forall|i: int| 0 <= i < reqs.len() ==> spec_req_met(skills, #[trigger] reqs[i])
}

/// Decides whether every requirement in `reqs` is met by `skills`.
pub fn reqs_met(skills: &Vec<Skill>, reqs: &Vec<SkillRequirement>) -> (r: bool)
    ensures
        r == spec_reqs_met(skill_views(skills@), req_views(reqs@)),
{
    let ghost rv = req_views(reqs@);
    let mut i: usize = 0;
    while i < reqs.len()
        invariant
            0 <= i <= reqs@.len(),
            rv == req_views(reqs@),
            rv.len() == reqs@.len(),
            forall|j: int| 0 <= j < i ==> spec_req_met(skill_views(skills@), #[trigger] rv[j]),
        decreases reqs@.len() - i,
    {
        if !has_skill_at(skills, reqs[i].skill_id, reqs[i].required_level) {
            assert(!spec_req_met(skill_views(skills@), rv[i as int]));
            return false;
        }
        i = i + 1;
    }
    true
}

/// A ship is eligible when all of its skill requirements are met.
pub open spec fn ship_eligible(skills: Seq<SkillView>, ship: ShipView) -> bool {
    spec_reqs_met(skills, ship.required_skills)
}

/// A module is eligible when all of its skill requirements are met.
pub open spec fn module_eligible(skills: Seq<SkillView>, m: ModuleView) -> bool {
    spec_reqs_met(skills, m.required_skills)
}

/// The eligible subsequence of a ship catalog, in catalog order.
pub open spec fn spec_eligible_ships(skills: Seq<SkillView>, ships: Seq<ShipView>) -> Seq<
    ShipView,
> {
    ships.filter(|s: ShipView| ship_eligible(skills, s))
}

/// The eligible subsequence of a module catalog, in catalog order.
pub open spec fn spec_eligible_modules(skills: Seq<SkillView>, mods: Seq<ModuleView>) -> Seq<
    ModuleView,
> {
    mods.filter(|m: ModuleView| module_eligible(skills, m))
}

/// Eligibility filter: returns the ships and modules whose every skill
/// requirement the user meets, as two new sequences in catalog order.
/// The inputs are never mutated.
pub fn match_skills_to_ships_and_modules(
    user_skills: &Vec<Skill>,
    all_ships: &Vec<Ship>,
    all_modules: &Vec<Module>,
) -> (r: (Vec<Ship>, Vec<Module>))
    ensures
        ship_views(r.0@) == spec_eligible_ships(skill_views(user_skills@), ship_views(all_ships@)),
        module_views(r.1@) == spec_eligible_modules(
            skill_views(user_skills@),
            module_views(all_modules@),
        ),
{
    broadcast use vstd::seq_lib::group_filter_ensures;

    let ghost sk = skill_views(user_skills@);
    let ghost shv = ship_views(all_ships@);
    let ghost mdv = module_views(all_modules@);
    let mut ships: Vec<Ship> = Vec::new();
    let mut i: usize = 0;
    while i < all_ships.len()
        invariant
            0 <= i <= all_ships@.len(),
            sk == skill_views(user_skills@),
            shv == ship_views(all_ships@),
            shv.len() == all_ships@.len(),
            ship_views(ships@) == shv.take(i as int).filter(
                |s: ShipView| ship_eligible(sk, s),
            ),
        decreases all_ships@.len() - i,
    {
        proof {
            assert(shv.take(i + 1).drop_last() =~= shv.take(i as int));
            assert(shv.take(i + 1) =~= shv.take(i as int).push(shv[i as int]));
            Seq::lemma_filter_push(
                shv.take(i as int),
                shv[i as int],
                |s: ShipView| ship_eligible(sk, s),
            );
        }
        if reqs_met(user_skills, &all_ships[i].required_skills) {
            let s = all_ships[i].clone();
            ships.push(s);
            proof {
                assert(ship_views(ships@) =~= ship_views(ships@.drop_last()).push(shv[i as int]));
            }
        } else {
            proof {
                assert(ship_views(ships@) == shv.take(i + 1).filter(
                    |s: ShipView| ship_eligible(sk, s),
                ));
            }
        }
        i = i + 1;
    }
    proof {
        assert(shv.take(all_ships@.len() as int) =~= shv);
    }
    let mut mods: Vec<Module> = Vec::new();
    let mut k: usize = 0;
    while k < all_modules.len()
        invariant
            0 <= k <= all_modules@.len(),
            sk == skill_views(user_skills@),
            mdv == module_views(all_modules@),
            mdv.len() == all_modules@.len(),
            module_views(mods@) == mdv.take(k as int).filter(
                |m: ModuleView| module_eligible(sk, m),
            ),
        decreases all_modules@.len() - k,
    {
        proof {
            assert(mdv.take(k + 1).drop_last() =~= mdv.take(k as int));
            assert(mdv.take(k + 1) =~= mdv.take(k as int).push(mdv[k as int]));
            Seq::lemma_filter_push(
                mdv.take(k as int),
                mdv[k as int],
                |m: ModuleView| module_eligible(sk, m),
            );
        }
        if reqs_met(user_skills, &all_modules[k].required_skills) {
            let m = all_modules[k].clone();
            mods.push(m);
            proof {
                assert(module_views(mods@) =~= module_views(mods@.drop_last()).push(
                    mdv[k as int],
                ));
            }
        } else {
            proof {
                assert(module_views(mods@) == mdv.take(k + 1).filter(
                    |m: ModuleView| module_eligible(sk, m),
                ));
            }
        }
        k = k + 1;
    }
    proof {
        assert(mdv.take(all_modules@.len() as int) =~= mdv);
    }
    (ships, mods)
}

/// An item with no skill requirements is eligible for every user, so the
/// eligibility filter always keeps it.
pub proof fn lemma_no_requirements_always_eligible(
    skills: Seq<SkillView>,
    ships: Seq<ShipView>,
    i: int,
)
    requires
        0 <= i < ships.len(),
        ships[i].required_skills.len() == 0,
    ensures
        ship_eligible(skills, ships[i]),
        spec_eligible_ships(skills, ships).contains(ships[i]),
{
    broadcast use vstd::seq_lib::group_filter_ensures;

    assert(ship_eligible(skills, ships[i]));
}

/// A module with no skill requirements is eligible for every user.
pub proof fn lemma_module_no_requirements_always_eligible(
    skills: Seq<SkillView>,
    mods: Seq<ModuleView>,
    i: int,
)
    requires
        0 <= i < mods.len(),
        mods[i].required_skills.len() == 0,
    ensures
        module_eligible(skills, mods[i]),
        spec_eligible_modules(skills, mods).contains(mods[i]),
{
    broadcast use vstd::seq_lib::group_filter_ensures;

    assert(module_eligible(skills, mods[i]));
}

/// An item with a requirement the user does not meet is never eligible,
/// so the eligibility filter always drops it.
pub proof fn lemma_unmet_requirement_excludes_ship(
    skills: Seq<SkillView>,
    ships: Seq<ShipView>,
    i: int,
    j: int,
)
    requires
        0 <= i < ships.len(),
        0 <= j < ships[i].required_skills.len(),
        !spec_req_met(skills, ships[i].required_skills[j]),
    ensures
        !ship_eligible(skills, ships[i]),
        !spec_eligible_ships(skills, ships).contains(ships[i]),
{
    broadcast use vstd::seq_lib::group_filter_ensures;

    assert(!ship_eligible(skills, ships[i]));
    let pred = |s: ShipView| ship_eligible(skills, s);
    let filtered = ships.filter(pred);
    assert forall|k: int| 0 <= k < filtered.len() implies filtered[k] != ships[i] by {
        assert(pred(filtered[k]));
    }
}

/// A module with a requirement the user does not meet is never eligible.
pub proof fn lemma_unmet_requirement_excludes_module(
    skills: Seq<SkillView>,
    mods: Seq<ModuleView>,
    i: int,
    j: int,
)
    requires
        0 <= i < mods.len(),
        0 <= j < mods[i].required_skills.len(),
        !spec_req_met(skills, mods[i].required_skills[j]),
    ensures
        !module_eligible(skills, mods[i]),
        !spec_eligible_modules(skills, mods).contains(mods[i]),
{
    broadcast use vstd::seq_lib::group_filter_ensures;

    assert(!module_eligible(skills, mods[i]));
    let pred = |m: ModuleView| module_eligible(skills, m);
    let filtered = mods.filter(pred);
    assert forall|k: int| 0 <= k < filtered.len() implies filtered[k] != mods[i] by {
        assert(pred(filtered[k]));
    }
}

} // verus!
