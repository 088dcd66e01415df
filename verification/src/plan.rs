//! Skill plan builder: aggregates the skill requirements of a fit's ship
//! and modules, deduplicates them with a highest-level-wins rule, drops
//! the ones the user already meets, and orders the result with
//! ship-derived entries first and ascending skill ids within each group.

use vstd::prelude::*;
use crate::model::{
    FitVariant, FitView, ModuleView, ReqView, Skill, SkillPlanEntry, SkillRequirement, SkillView,
    entry_views, req_views, skill_views,
};

verus! {

/// Whether some requirement in the list names the given skill id.
pub open spec fn contains_id(reqs: Seq<ReqView>, id: int) -> bool
    decreases reqs.len(),
{
    if reqs.len() == 0 {
        false
    } else {
        contains_id(reqs.drop_last(), id) || reqs.last().skill_id == id
    }
}

/// The highest level demanded for `id` by any requirement in the list;
/// 0 when no requirement names it.
pub open spec fn max_level_in(reqs: Seq<ReqView>, id: int) -> int
    decreases reqs.len(),
{
    if reqs.len() == 0 {
        0
    } else if reqs.last().skill_id == id {
        if contains_id(reqs.drop_last(), id) {
            let rest = max_level_in(reqs.drop_last(), id);
            if reqs.last().required_level > rest {
                reqs.last().required_level
            } else {
                rest
            }
        } else {
            reqs.last().required_level
        }
    } else {
        max_level_in(reqs.drop_last(), id)
    }
}

/// The display name carried by the first requirement naming `id`;
/// empty when no requirement names it.
pub open spec fn first_name(reqs: Seq<ReqView>, id: int) -> Seq<char>
    decreases reqs.len(),
{
    if reqs.len() == 0 {
        Seq::empty()
    } else if contains_id(reqs.drop_last(), id) {
        first_name(reqs.drop_last(), id)
    } else if reqs.last().skill_id == id {
        reqs.last().name
    } else {
        Seq::empty()
    }
}

/// The user's trained level for `id`: the highest active level among
/// matching skills, or 0 when the user has none.
pub open spec fn user_level(skills: Seq<SkillView>, id: int) -> int
    decreases skills.len(),
{
    if skills.len() == 0 {
        0
    } else {
        let rest = user_level(skills.drop_last(), id);
        if skills.last().skill_id == id && skills.last().active_level > rest {
            skills.last().active_level
        } else {
            rest
        }
    }
}

/// All requirements contributed by a module list, in fit order.
pub open spec fn all_module_reqs(mods: Seq<ModuleView>) -> Seq<ReqView>
    decreases mods.len(),
{
    if mods.len() == 0 {
        Seq::empty()
    } else {
        all_module_reqs(mods.drop_last()) + mods.last().required_skills
    }
}

/// Every requirement of a fit: the ship's first, then each module's.
pub open spec fn all_sources(fit: FitView) -> Seq<ReqView> {
    fit.ship.required_skills + all_module_reqs(fit.modules)
}

/// A skill belongs to the plan exactly when some source demands it at a
/// level above the user's current one.
pub open spec fn spec_plan_needed(fit: FitView, skills: Seq<SkillView>, id: int) -> bool {
    contains_id(all_sources(fit), id) && user_level(skills, id) < max_level_in(
        all_sources(fit),
        id,
    )
}

/// Ordering group of a plan entry: ship-derived skills come first.
pub open spec fn plan_group(fit: FitView, id: int) -> int {
    if contains_id(fit.ship.required_skills, id) {
        0
    } else {
        1
    }
}

/// The plan order: strictly earlier group, or same group and strictly
/// smaller skill id.
pub open spec fn spec_plan_precedes(fit: FitView, a: int, b: int) -> bool {
    plan_group(fit, a) < plan_group(fit, b) || (plan_group(fit, a) == plan_group(fit, b) && a < b)
}

/// Whether the plan holds an entry for `id`.
pub open spec fn plan_contains(plan: Seq<crate::model::PlanEntryView>, id: int) -> bool {
    exists|k: int| 0 <= k < plan.len() && plan[k].skill_id == id
}

/// Number of requirements whose skill id lies strictly above `floor`.
pub open spec fn count_gt(reqs: Seq<ReqView>, floor: int) -> int
    decreases reqs.len(),
{
    if reqs.len() == 0 {
        0
    } else {
        count_gt(reqs.drop_last(), floor) + if reqs.last().skill_id > floor {
            1int
        } else {
            0int
        }
    }
}

/// The numeric floor represented by an optional last-emitted id.
pub open spec fn id_floor(o: Option<i64>) -> int {
    match o {
        Option::None => (i64::MIN as int) - 1,
        Option::Some(v) => v as int,
    }
}

/// Concatenation distributes over id membership.
pub proof fn lemma_contains_concat(a: Seq<ReqView>, b: Seq<ReqView>, id: int)
    ensures
        contains_id(a + b, id) <==> (contains_id(a, id) || contains_id(b, id)),
    decreases b.len(),
{
    if b.len() == 0 {
        assert(a + b =~= a);
    } else {
        lemma_contains_concat(a, b.drop_last(), id);
        assert((a + b).drop_last() =~= a + b.drop_last());
        assert((a + b).last() == b.last());
    }
}

/// A list that never names `id` demands nothing of it.
pub proof fn lemma_max_absent(s: Seq<ReqView>, id: int)
    requires
        !contains_id(s, id),
    ensures
        max_level_in(s, id) == 0,
    decreases s.len(),
{
    if s.len() == 0 {
    } else {
        lemma_max_absent(s.drop_last(), id);
    }
}

/// A list that never names `id` yields the empty display name.
pub proof fn lemma_first_absent(s: Seq<ReqView>, id: int)
    requires
        !contains_id(s, id),
    ensures
        first_name(s, id) == Seq::<char>::empty(),
    decreases s.len(),
{
    if s.len() == 0 {
    } else {
        lemma_first_absent(s.drop_last(), id);
    }
}

/// When the first part never names `id`, the first display name comes
/// from the second part.
pub proof fn lemma_first_concat_absent(a: Seq<ReqView>, b: Seq<ReqView>, id: int)
    requires
        !contains_id(a, id),
    ensures
        first_name(a + b, id) == first_name(b, id),
    decreases b.len(),
{
    if b.len() == 0 {
        assert(a + b =~= a);
        lemma_first_absent(a, id);
    } else {
        lemma_first_concat_absent(a, b.drop_last(), id);
        lemma_contains_concat(a, b.drop_last(), id);
        assert((a + b).drop_last() =~= a + b.drop_last());
        assert((a + b).last() == b.last());
    }
}

/// When the first part names `id`, so does the concatenation, and the
/// first display name comes from the first part.
pub proof fn lemma_first_concat_present(a: Seq<ReqView>, b: Seq<ReqView>, id: int)
    requires
        contains_id(a, id),
    ensures
        first_name(a + b, id) == first_name(a, id),
    decreases b.len(),
{
    if b.len() == 0 {
        assert(a + b =~= a);
    } else {
        lemma_first_concat_present(a, b.drop_last(), id);
        lemma_contains_concat(a, b.drop_last(), id);
        assert((a + b).drop_last() =~= a + b.drop_last());
    }
}

/// The count of ids above a floor is never negative.
pub proof fn lemma_count_gt_nonneg(s: Seq<ReqView>, floor: int)
    ensures
        count_gt(s, floor) >= 0,
    decreases s.len(),
{
    if s.len() == 0 {
    } else {
        lemma_count_gt_nonneg(s.drop_last(), floor);
    }
}

/// Raising the floor never increases the count above it.
pub proof fn lemma_count_gt_mono(s: Seq<ReqView>, x: int, y: int)
    requires
        x <= y,
    ensures
        count_gt(s, y) <= count_gt(s, x),
    decreases s.len(),
{
    if s.len() == 0 {
    } else {
        lemma_count_gt_mono(s.drop_last(), x, y);
    }
}

/// Raising the floor to an id the list holds strictly shrinks the count.
pub proof fn lemma_count_gt_strict(s: Seq<ReqView>, x: int, m: int)
    requires
        x < m,
        contains_id(s, m),
    ensures
        count_gt(s, m) < count_gt(s, x),
    decreases s.len(),
{
    if s.len() == 0 {
    } else {
        if contains_id(s.drop_last(), m) {
            lemma_count_gt_strict(s.drop_last(), x, m);
        } else {
            lemma_count_gt_mono(s.drop_last(), x, m);
        }
    }
}

/// Decides whether any requirement in the list names `id`.
pub fn contains_req_id(reqs: &Vec<SkillRequirement>, id: i64) -> (r: bool)
    ensures
        r == contains_id(req_views(reqs@), id as int),
{
    let ghost rv = req_views(reqs@);
    let mut i: usize = 0;
    while i < reqs.len()
        invariant
            0 <= i <= reqs@.len(),
            rv == req_views(reqs@),
            rv.len() == reqs@.len(),
            !contains_id(rv.take(i as int), id as int),
        decreases reqs@.len() - i,
    {
        proof {
            assert(rv.take(i + 1).drop_last() =~= rv.take(i as int));
            assert(rv.take(i + 1).last() == rv[i as int]);
        }
        if reqs[i].skill_id == id {
            proof {
                assert(contains_id(rv.take(i + 1), id as int));
                lemma_contains_take_full(rv, i + 1, id as int);
            }
            return true;
        }
        i = i + 1;
    }
    proof {
        assert(rv.take(reqs@.len() as int) =~= rv);
    }
    false
}

/// Membership in a prefix implies membership in the whole list.
pub proof fn lemma_contains_take_full(s: Seq<ReqView>, n: int, id: int)
    requires
        0 <= n <= s.len(),
        contains_id(s.take(n), id),
    ensures
        contains_id(s, id),
    decreases s.len() - n,
{
    if n == s.len() {
        assert(s.take(n) =~= s);
    } else {
        assert(s.take(n + 1).drop_last() =~= s.take(n));
        lemma_contains_take_full(s, n + 1, id);
    }
}

/// The user's current level for a skill id, 0 when the skill is absent.
pub fn user_level_of(skills: &Vec<Skill>, id: i64) -> (r: i32)
    ensures
        r as int == user_level(skill_views(skills@), id as int),
{
    let ghost sv = skill_views(skills@);
    let mut best: i32 = 0;
    let mut i: usize = 0;
    while i < skills.len()
        invariant
            0 <= i <= skills@.len(),
            sv == skill_views(skills@),
            sv.len() == skills@.len(),
            best as int == user_level(sv.take(i as int), id as int),
        decreases skills@.len() - i,
    {
        proof {
            assert(sv.take(i + 1).drop_last() =~= sv.take(i as int));
            assert(sv.take(i + 1).last() == sv[i as int]);
        }
        if skills[i].skill_id == id && skills[i].active_level > best {
            best = skills[i].active_level;
        }
        i = i + 1;
    }
    proof {
        assert(sv.take(skills@.len() as int) =~= sv);
    }
    best
}

/// The highest level any source of the fit demands for `id`.
pub fn max_level_for(fit: &FitVariant, id: i64) -> (r: i32)
    ensures
        r as int == max_level_in(all_sources(fit@), id as int),
{
    let ghost shipreqs = req_views(fit.ship.required_skills@);
    let ghost mv = crate::model::module_views(fit.modules@);
    let ghost total = all_sources(fit@);
    let mut best: i32 = 0;
    let mut found = false;
    let mut i: usize = 0;
    while i < fit.ship.required_skills.len()
        invariant
            0 <= i <= fit.ship.required_skills@.len(),
            shipreqs == req_views(fit.ship.required_skills@),
            shipreqs.len() == fit.ship.required_skills@.len(),
            found == contains_id(shipreqs.take(i as int), id as int),
            found ==> best as int == max_level_in(shipreqs.take(i as int), id as int),
            !found ==> best == 0,
        decreases fit.ship.required_skills@.len() - i,
    {
        proof {
            assert(shipreqs.take(i + 1).drop_last() =~= shipreqs.take(i as int));
            assert(shipreqs.take(i + 1).last() == shipreqs[i as int]);
        }
        let rq = &fit.ship.required_skills[i];
        if rq.skill_id == id {
            if !found || rq.required_level > best {
                best = rq.required_level;
            }
            found = true;
        }
        i = i + 1;
    }
    proof {
        assert(shipreqs.take(fit.ship.required_skills@.len() as int) =~= shipreqs);
    }
    let ghost mut processed: Seq<ReqView>;
    proof {
        processed = shipreqs;
    }
    let mut k: usize = 0;
    while k < fit.modules.len()
        invariant
            0 <= k <= fit.modules@.len(),
            shipreqs == req_views(fit.ship.required_skills@),
            mv == crate::model::module_views(fit.modules@),
            mv.len() == fit.modules@.len(),
            found == contains_id(shipreqs + all_module_reqs(mv.take(k as int)), id as int),
            found ==> best as int == max_level_in(
                shipreqs + all_module_reqs(mv.take(k as int)),
                id as int,
            ),
            !found ==> best == 0,
        decreases fit.modules@.len() - k,
    {
        let ghost outer = shipreqs + all_module_reqs(mv.take(k as int));
        let ghost modreqs = mv[k as int].required_skills;
        let mut t: usize = 0;
        while t < fit.modules[k].required_skills.len()
            invariant
                0 <= k < fit.modules@.len(),
                0 <= t <= fit.modules@[k as int].required_skills@.len(),
                mv == crate::model::module_views(fit.modules@),
                mv.len() == fit.modules@.len(),
                modreqs == mv[k as int].required_skills,
                modreqs == req_views(fit.modules@[k as int].required_skills@),
                modreqs.len() == fit.modules@[k as int].required_skills@.len(),
                found == contains_id(outer + modreqs.take(t as int), id as int),
                found ==> best as int == max_level_in(outer + modreqs.take(t as int), id as int),
                !found ==> best == 0,
            decreases fit.modules@[k as int].required_skills@.len() - t,
        {
            proof {
                assert((outer + modreqs.take(t + 1)).drop_last() =~= outer + modreqs.take(
                    t as int,
                ));
                assert((outer + modreqs.take(t + 1)).last() == modreqs[t as int]);
                assert(modreqs[t as int] == fit.modules@[k as int].required_skills@[t as int]@);
            }
            let rq = &fit.modules[k].required_skills[t];
            if rq.skill_id == id {
                if !found || rq.required_level > best {
                    best = rq.required_level;
                }
                found = true;
            }
            t = t + 1;
        }
        proof {
            assert(modreqs.take(fit.modules@[k as int].required_skills@.len() as int)
                =~= modreqs);
            assert(all_module_reqs(mv.take(k + 1)) =~= all_module_reqs(mv.take(k as int))
                + modreqs) by {
                assert(mv.take(k + 1).drop_last() =~= mv.take(k as int));
                assert(mv.take(k + 1).last() == mv[k as int]);
            }
            assert(outer + modreqs =~= shipreqs + all_module_reqs(mv.take(k + 1)));
        }
        k = k + 1;
    }
    proof {
        assert(mv.take(fit.modules@.len() as int) =~= mv);
        assert(shipreqs + all_module_reqs(mv) =~= total);
        if !found {
            lemma_max_absent(total, id as int);
        }
    }
    best
}

/// Finds the smallest skill id above `last` among the requirements, with
/// the display name of its first occurrence; `None` when no id remains.
fn find_min_above(reqs: &Vec<SkillRequirement>, last: Option<i64>) -> (r: Option<(i64, String)>)
    ensures
        r is None ==> forall|i: int|
            0 <= i < req_views(reqs@).len() ==> !((#[trigger] req_views(reqs@)[i]).skill_id
                > id_floor(last)),
        r matches Some(p) ==> {
            &&& p.0 as int > id_floor(last)
            &&& contains_id(req_views(reqs@), p.0 as int)
            &&& forall|i: int|
                0 <= i < req_views(reqs@).len() && (#[trigger] req_views(reqs@)[i]).skill_id
                    > id_floor(last) ==> req_views(reqs@)[i].skill_id >= p.0 as int
            &&& p.1@ == first_name(req_views(reqs@), p.0 as int)
        },
{
    let ghost rv = req_views(reqs@);
    let mut best_id: i64 = 0;
    let mut best_at: usize = 0;
    let mut have = false;
    let mut i: usize = 0;
    while i < reqs.len()
        invariant
            0 <= i <= reqs@.len(),
            rv == req_views(reqs@),
            rv.len() == reqs@.len(),
            !have ==> forall|j: int|
                0 <= j < i ==> !((#[trigger] rv[j]).skill_id > id_floor(last)),
            have ==> {
                &&& best_at < i
                &&& rv[best_at as int].skill_id == best_id as int
                &&& best_id as int > id_floor(last)
                &&& contains_id(rv.take(i as int), best_id as int)
                &&& forall|j: int|
                    0 <= j < i && (#[trigger] rv[j]).skill_id > id_floor(last) ==> rv[j].skill_id
                        >= best_id as int
                &&& rv[best_at as int].name == first_name(rv.take(i as int), best_id as int)
            },
        decreases reqs@.len() - i,
    {
        proof {
            assert(rv.take(i + 1).drop_last() =~= rv.take(i as int));
            assert(rv.take(i + 1).last() == rv[i as int]);
            assert(rv[i as int] == reqs@[i as int]@);
        }
        let rq = &reqs[i];
        let above = match last {
            Option::Some(l) => rq.skill_id > l,
            Option::None => true,
        };
        if above && (!have || rq.skill_id < best_id) {
            proof {
                if contains_id(rv.take(i as int), rq.skill_id as int) {
                    lemma_contains_has_witness(rv.take(i as int), rq.skill_id as int);
                }
            }
            best_id = rq.skill_id;
            best_at = i;
            have = true;
        }
        i = i + 1;
    }
    proof {
        assert(rv.take(reqs@.len() as int) =~= rv);
    }
    if have {
        Some((best_id, reqs[best_at].name.clone()))
    } else {
        None
    }
}

/// An id the list holds is held at some index.
pub proof fn lemma_contains_has_witness(s: Seq<ReqView>, id: int)
    requires
        contains_id(s, id),
    ensures
        exists|i: int| 0 <= i < s.len() && (#[trigger] s[i]).skill_id == id,
    decreases s.len(),
{
    if s.last().skill_id == id {
        assert(s[s.len() - 1].skill_id == id);
    } else {
        lemma_contains_has_witness(s.drop_last(), id);
        let i = choose|i: int|
            0 <= i < s.drop_last().len() && (#[trigger] s.drop_last()[i]).skill_id == id;
        assert(s[i].skill_id == id);
    }
}

/// Finds the smallest module-derived skill id above `last` that the
/// ship's own requirements do not name, with the display name of its
/// first occurrence among the module requirements.
fn find_min_above_modules(fit: &FitVariant, last: Option<i64>) -> (r: Option<(i64, String)>)
    ensures
        ({
            let mreqs = all_module_reqs(crate::model::module_views(fit.modules@));
            let shipreqs = req_views(fit.ship.required_skills@);
            match r {
                Option::None => forall|i: int|
                    0 <= i < mreqs.len() ==> !((#[trigger] mreqs[i]).skill_id > id_floor(last)
                        && !contains_id(shipreqs, mreqs[i].skill_id)),
                Option::Some(p) => {
                    &&& p.0 as int > id_floor(last)
                    &&& !contains_id(shipreqs, p.0 as int)
                    &&& contains_id(mreqs, p.0 as int)
                    &&& forall|i: int|
                        0 <= i < mreqs.len() && (#[trigger] mreqs[i]).skill_id > id_floor(last)
                            && !contains_id(shipreqs, mreqs[i].skill_id) ==> mreqs[i].skill_id
                            >= p.0 as int
                    &&& p.1@ == first_name(mreqs, p.0 as int)
                },
            }
        }),
{
    let ghost mv = crate::model::module_views(fit.modules@);
    let ghost shipreqs = req_views(fit.ship.required_skills@);
    let mut best: Option<(i64, String)> = None;
    let mut k: usize = 0;
    while k < fit.modules.len()
        invariant
            0 <= k <= fit.modules@.len(),
            mv == crate::model::module_views(fit.modules@),
            mv.len() == fit.modules@.len(),
            shipreqs == req_views(fit.ship.required_skills@),
            find_inv(best, all_module_reqs(mv.take(k as int)), shipreqs, id_floor(last)),
        decreases fit.modules@.len() - k,
    {
        let ghost outer = all_module_reqs(mv.take(k as int));
        let ghost modreqs = mv[k as int].required_skills;
        let mut t: usize = 0;
        while t < fit.modules[k].required_skills.len()
            invariant
                0 <= k < fit.modules@.len(),
                0 <= t <= fit.modules@[k as int].required_skills@.len(),
                mv == crate::model::module_views(fit.modules@),
                mv.len() == fit.modules@.len(),
                shipreqs == req_views(fit.ship.required_skills@),
                modreqs == mv[k as int].required_skills,
                modreqs == req_views(fit.modules@[k as int].required_skills@),
                modreqs.len() == fit.modules@[k as int].required_skills@.len(),
                find_inv(best, outer + modreqs.take(t as int), shipreqs, id_floor(last)),
            decreases fit.modules@[k as int].required_skills@.len() - t,
        {
            let ghost prefix = outer + modreqs.take(t as int);
            proof {
                assert((outer + modreqs.take(t + 1)).drop_last() =~= prefix);
                assert((outer + modreqs.take(t + 1)).last() == modreqs[t as int]);
                assert(outer + modreqs.take(t + 1) =~= prefix.push(modreqs[t as int]));
                assert(modreqs[t as int] == fit.modules@[k as int].required_skills@[t as int]@);
            }
            let rq = &fit.modules[k].required_skills[t];
            let above = match last {
                Option::Some(l) => rq.skill_id > l,
                Option::None => true,
            };
            let better = match &best {
                Option::Some(p) => rq.skill_id < p.0,
                Option::None => true,
            };
            if above && better && !contains_req_id(&fit.ship.required_skills, rq.skill_id) {
                proof {
                    if contains_id(prefix, rq.skill_id as int) {
                        lemma_contains_has_witness(prefix, rq.skill_id as int);
                    }
                }
                best = Some((rq.skill_id, rq.name.clone()));
            }
            t = t + 1;
        }
        proof {
            assert(modreqs.take(fit.modules@[k as int].required_skills@.len() as int)
                =~= modreqs);
            assert(all_module_reqs(mv.take(k + 1)) =~= outer + modreqs) by {
                assert(mv.take(k + 1).drop_last() =~= mv.take(k as int));
                assert(mv.take(k + 1).last() == mv[k as int]);
            }
        }
        k = k + 1;
    }
    proof {
        assert(mv.take(fit.modules@.len() as int) =~= mv);
    }
    best
}

/// Invariant of the module-side minimum scan: what `best` says of the
/// requirements processed so far.
pub open spec fn find_inv(
    best: Option<(i64, String)>,
    prefix: Seq<ReqView>,
    shipreqs: Seq<ReqView>,
    floor: int,
) -> bool {
    match best {
        Option::None => forall|i: int|
            0 <= i < prefix.len() ==> !((#[trigger] prefix[i]).skill_id > floor && !contains_id(
                shipreqs,
                prefix[i].skill_id,
            )),
        Option::Some(p) => {
            &&& p.0 as int > floor
            &&& !contains_id(shipreqs, p.0 as int)
            &&& contains_id(prefix, p.0 as int)
            &&& forall|i: int|
                0 <= i < prefix.len() && (#[trigger] prefix[i]).skill_id > floor && !contains_id(
                    shipreqs,
                    prefix[i].skill_id,
                ) ==> prefix[i].skill_id >= p.0 as int
            &&& p.1@ == first_name(prefix, p.0 as int)
        },
    }
}

/// Every module-derived requirement id is the view of a machine integer.
pub proof fn lemma_module_reqs_ids_range(mods: Seq<crate::model::Module>, id: int)
    requires
        contains_id(all_module_reqs(crate::model::module_views(mods)), id),
    ensures
        i64::MIN as int <= id <= i64::MAX as int,
    decreases mods.len(),
{
    let mv = crate::model::module_views(mods);
    assert(mv.len() == mods.len());
    if mods.len() == 0 {
        assert(all_module_reqs(mv).len() == 0);
    } else {
        lemma_contains_concat(all_module_reqs(mv.drop_last()), mv.last().required_skills, id);
        if contains_id(mv.last().required_skills, id) {
            assert(mv.last() == mods.last()@);
            lemma_contains_has_witness(mv.last().required_skills, id);
            let i = choose|i: int|
                0 <= i < mv.last().required_skills.len() && (#[trigger] mv.last(
                ).required_skills[i]).skill_id == id;
            assert(mv.last().required_skills[i] == mods.last().required_skills@[i]@);
        } else {
            assert(mv.drop_last() =~= crate::model::module_views(mods.drop_last()));
            lemma_module_reqs_ids_range(mods.drop_last(), id);
        }
    }
}

/// A plan entry is correct when its skill is needed and its fields carry
/// the aggregated level, the user's level and the first source's name.
pub open spec fn spec_entry_correct(
    fit: FitView,
    skills: Seq<SkillView>,
    e: crate::model::PlanEntryView,
) -> bool {
    &&& spec_plan_needed(fit, skills, e.skill_id)
    &&& e.required_level == max_level_in(all_sources(fit), e.skill_id)
    &&& e.current_level == user_level(skills, e.skill_id)
    &&& e.name == first_name(all_sources(fit), e.skill_id)
}

/// An entry already in the plan stays in it when another is appended.
pub proof fn lemma_plan_contains_push(
    p: Seq<crate::model::PlanEntryView>,
    e: crate::model::PlanEntryView,
    id: int,
)
    requires
        plan_contains(p, id),
    ensures
        plan_contains(p.push(e), id),
{
    let k = choose|k: int| 0 <= k < p.len() && p[k].skill_id == id;
    assert(p.push(e)[k].skill_id == id);
}

/// Skill plan builder. Aggregates the requirements of the fit's ship and
/// modules, keeping for each skill id the highest demanded level, and
/// returns one entry per skill the user still has to train. Ship-derived
/// entries precede module-derived ones; within each group entries are
/// ordered by ascending skill id, so the output is deterministic. An
/// empty plan means the fit is already flyable as-is.
pub fn generate_skill_plan_for_fit(fit: &FitVariant, user_skills: &Vec<Skill>) -> (r: Vec<
    SkillPlanEntry,
>)
    ensures
        forall|k: int|
            0 <= k < entry_views(r@).len() ==> spec_entry_correct(
                fit@,
                skill_views(user_skills@),
                #[trigger] entry_views(r@)[k],
            ),
        forall|id: int|
            #[trigger] spec_plan_needed(fit@, skill_views(user_skills@), id) ==> plan_contains(
                entry_views(r@),
                id,
            ),
        forall|k1: int, k2: int|
            0 <= k1 < k2 < entry_views(r@).len() ==> spec_plan_precedes(
                fit@,
                (#[trigger] entry_views(r@)[k1]).skill_id,
                (#[trigger] entry_views(r@)[k2]).skill_id,
            ),
{
    let ghost sk = skill_views(user_skills@);
    let ghost sv = req_views(fit.ship.required_skills@);
    let ghost mreqs = all_module_reqs(crate::model::module_views(fit.modules@));
    let ghost aa = all_sources(fit@);
    proof {
        assert(aa == sv + mreqs);
    }

    let mut plan: Vec<SkillPlanEntry> = Vec::new();

    // Ship-derived entries, by ascending skill id.
    let mut last: Option<i64> = None;
    proof {
        assert forall|id: int| #[trigger] contains_id(sv, id) implies id > id_floor(last) by {
            lemma_contains_has_witness(sv, id);
            let i = choose|i: int| 0 <= i < sv.len() && (#[trigger] sv[i]).skill_id == id;
            assert(sv[i] == fit.ship.required_skills@[i]@);
        }
    }
    loop
        invariant
            sk == skill_views(user_skills@),
            sv == req_views(fit.ship.required_skills@),
            mreqs == all_module_reqs(crate::model::module_views(fit.modules@)),
            aa == all_sources(fit@),
            aa == sv + mreqs,
            forall|k: int|
                0 <= k < entry_views(plan@).len() ==> spec_entry_correct(
                    fit@,
                    sk,
                    #[trigger] entry_views(plan@)[k],
                ),
            forall|k: int|
                0 <= k < entry_views(plan@).len() ==> contains_id(
                    sv,
                    (#[trigger] entry_views(plan@)[k]).skill_id,
                ) && entry_views(plan@)[k].skill_id <= id_floor(last),
            forall|k1: int, k2: int|
                0 <= k1 < k2 < entry_views(plan@).len() ==> (#[trigger] entry_views(
                    plan@,
                )[k1]).skill_id < (#[trigger] entry_views(plan@)[k2]).skill_id,
            forall|id: int|
                #[trigger] contains_id(sv, id) && id <= id_floor(last) && user_level(sk, id)
                    < max_level_in(aa, id) ==> plan_contains(entry_views(plan@), id),
        ensures
            forall|i: int| 0 <= i < sv.len() ==> !((#[trigger] sv[i]).skill_id > id_floor(last)),
            forall|k: int|
                0 <= k < entry_views(plan@).len() ==> spec_entry_correct(
                    fit@,
                    sk,
                    #[trigger] entry_views(plan@)[k],
                ),
            forall|k: int|
                0 <= k < entry_views(plan@).len() ==> contains_id(
                    sv,
                    (#[trigger] entry_views(plan@)[k]).skill_id,
                ),
            forall|k1: int, k2: int|
                0 <= k1 < k2 < entry_views(plan@).len() ==> (#[trigger] entry_views(
                    plan@,
                )[k1]).skill_id < (#[trigger] entry_views(plan@)[k2]).skill_id,
            forall|id: int|
                #[trigger] contains_id(sv, id) && id <= id_floor(last) && user_level(sk, id)
                    < max_level_in(aa, id) ==> plan_contains(entry_views(plan@), id),
        decreases count_gt(sv, id_floor(last)),
    {
        let found = find_min_above(&fit.ship.required_skills, last);
        match found {
            Option::None => {
                break;
            },
            Option::Some(p) => {
                let m = p.0;
                let name = p.1;
                let level = max_level_for(fit, m);
                let cur = user_level_of(user_skills, m);
                proof {
                    lemma_contains_concat(sv, mreqs, m as int);
                    lemma_first_concat_present(sv, mreqs, m as int);
                    lemma_count_gt_strict(sv, id_floor(last), m as int);
                    lemma_count_gt_nonneg(sv, m as int);
                }
                let ghost before = entry_views(plan@);
                if cur < level {
                    let e = SkillPlanEntry {
                        skill_id: m,
                        name,
                        required_level: level,
                        current_level: cur,
                    };
                    proof {
                        assert(e@.skill_id == m as int);
                    }
                    plan.push(e);
                    proof {
                        assert(entry_views(plan@) =~= before.push(e@));
                    }
                }
                proof {
                    let after = entry_views(plan@);
                    assert forall|id: int|
                        #[trigger] contains_id(sv, id) && id <= m as int && user_level(sk, id)
                            < max_level_in(aa, id) implies plan_contains(after, id) by {
                        if id <= id_floor(last) {
                            assert(plan_contains(before, id));
                            if after.len() > before.len() {
                                lemma_plan_contains_push(before, after.last(), id);
                                assert(after =~= before.push(after.last()));
                            }
                        } else {
                            lemma_contains_has_witness(sv, id);
                            let i = choose|i: int|
                                0 <= i < sv.len() && (#[trigger] sv[i]).skill_id == id;
                            assert(sv[i].skill_id >= m as int);
                            assert(id == m as int);
                            assert(cur as int == user_level(sk, id));
                            assert(level as int == max_level_in(aa, id));
                            assert(after[after.len() - 1].skill_id == id);
                        }
                    }
                }
                last = Some(m);
            },
        }
    }

    // Module-derived entries for skills the ship itself does not demand,
    // by ascending skill id.
    let mut mlast: Option<i64> = None;
    proof {
        assert forall|id: int| #[trigger] contains_id(mreqs, id) implies id > id_floor(mlast) by {
            lemma_module_reqs_ids_range(fit.modules@, id);
        }
        assert forall|id: int|
            #[trigger] contains_id(sv, id) && user_level(sk, id) < max_level_in(aa, id)
                implies plan_contains(entry_views(plan@), id) by {
            lemma_contains_has_witness(sv, id);
            let i = choose|i: int| 0 <= i < sv.len() && (#[trigger] sv[i]).skill_id == id;
            assert(!(sv[i].skill_id > id_floor(last)));
        }
    }
    loop
        invariant
            sk == skill_views(user_skills@),
            sv == req_views(fit.ship.required_skills@),
            mreqs == all_module_reqs(crate::model::module_views(fit.modules@)),
            aa == all_sources(fit@),
            aa == sv + mreqs,
            forall|k: int|
                0 <= k < entry_views(plan@).len() ==> spec_entry_correct(
                    fit@,
                    sk,
                    #[trigger] entry_views(plan@)[k],
                ),
            forall|k: int|
                0 <= k < entry_views(plan@).len() && !contains_id(
                    sv,
                    (#[trigger] entry_views(plan@)[k]).skill_id,
                ) ==> entry_views(plan@)[k].skill_id <= id_floor(mlast),
            forall|k1: int, k2: int|
                0 <= k1 < k2 < entry_views(plan@).len() ==> spec_plan_precedes(
                    fit@,
                    (#[trigger] entry_views(plan@)[k1]).skill_id,
                    (#[trigger] entry_views(plan@)[k2]).skill_id,
                ),
            forall|id: int|
                #[trigger] contains_id(sv, id) && user_level(sk, id) < max_level_in(aa, id)
                    ==> plan_contains(entry_views(plan@), id),
            forall|id: int|
                #[trigger] contains_id(mreqs, id) && !contains_id(sv, id) && id <= id_floor(
                    mlast,
                ) && user_level(sk, id) < max_level_in(aa, id) ==> plan_contains(
                    entry_views(plan@),
                    id,
                ),
        ensures
            forall|i: int|
                0 <= i < mreqs.len() ==> !((#[trigger] mreqs[i]).skill_id > id_floor(mlast)
                    && !contains_id(sv, mreqs[i].skill_id)),
            forall|k: int|
                0 <= k < entry_views(plan@).len() ==> spec_entry_correct(
                    fit@,
                    sk,
                    #[trigger] entry_views(plan@)[k],
                ),
            forall|k1: int, k2: int|
                0 <= k1 < k2 < entry_views(plan@).len() ==> spec_plan_precedes(
                    fit@,
                    (#[trigger] entry_views(plan@)[k1]).skill_id,
                    (#[trigger] entry_views(plan@)[k2]).skill_id,
                ),
            forall|id: int|
                #[trigger] contains_id(sv, id) && user_level(sk, id) < max_level_in(aa, id)
                    ==> plan_contains(entry_views(plan@), id),
            forall|id: int|
                #[trigger] contains_id(mreqs, id) && !contains_id(sv, id) && id <= id_floor(
                    mlast,
                ) && user_level(sk, id) < max_level_in(aa, id) ==> plan_contains(
                    entry_views(plan@),
                    id,
                ),
        decreases count_gt(mreqs, id_floor(mlast)),
    {
        let found = find_min_above_modules(fit, mlast);
        match found {
            Option::None => {
                break;
            },
            Option::Some(p) => {
                let m = p.0;
                let name = p.1;
                let level = max_level_for(fit, m);
                let cur = user_level_of(user_skills, m);
                proof {
                    lemma_contains_concat(sv, mreqs, m as int);
                    lemma_first_concat_absent(sv, mreqs, m as int);
                    lemma_count_gt_strict(mreqs, id_floor(mlast), m as int);
                    lemma_count_gt_nonneg(mreqs, m as int);
                }
                let ghost before = entry_views(plan@);
                if cur < level {
                    let e = SkillPlanEntry {
                        skill_id: m,
                        name,
                        required_level: level,
                        current_level: cur,
                    };
                    plan.push(e);
                    proof {
                        assert(entry_views(plan@) =~= before.push(e@));
                    }
                }
                proof {
                    let after = entry_views(plan@);
                    assert forall|id: int|
                        #[trigger] contains_id(sv, id) && user_level(sk, id) < max_level_in(
                            aa,
                            id,
                        ) implies plan_contains(after, id) by {
                        assert(plan_contains(before, id));
                        if after.len() > before.len() {
                            lemma_plan_contains_push(before, after.last(), id);
                            assert(after =~= before.push(after.last()));
                        }
                    }
                    assert forall|id: int|
                        #[trigger] contains_id(mreqs, id) && !contains_id(sv, id) && id
                            <= m as int && user_level(sk, id) < max_level_in(aa, id)
                            implies plan_contains(after, id) by {
                        if id <= id_floor(mlast) {
                            assert(plan_contains(before, id));
                            if after.len() > before.len() {
                                lemma_plan_contains_push(before, after.last(), id);
                                assert(after =~= before.push(after.last()));
                            }
                        } else {
                            lemma_contains_has_witness(mreqs, id);
                            let i = choose|i: int|
                                0 <= i < mreqs.len() && (#[trigger] mreqs[i]).skill_id == id;
                            assert(mreqs[i].skill_id >= m as int);
                            assert(id == m as int);
                            assert(after[after.len() - 1].skill_id == id);
                        }
                    }
                }
                mlast = Some(m);
            },
        }
    }

    proof {
        let pv = entry_views(plan@);
        assert forall|id: int|
            #[trigger] spec_plan_needed(fit@, sk, id) implies plan_contains(pv, id) by {
            lemma_contains_concat(sv, mreqs, id);
            if contains_id(sv, id) {
            } else {
                assert(contains_id(mreqs, id));
                if id > id_floor(mlast) {
                    lemma_contains_has_witness(mreqs, id);
                    let i = choose|i: int|
                        0 <= i < mreqs.len() && (#[trigger] mreqs[i]).skill_id == id;
                    assert(!(mreqs[i].skill_id > id_floor(mlast) && !contains_id(
                        sv,
                        mreqs[i].skill_id,
                    )));
                }
            }
        }
    }
    plan
}

} // verus!
