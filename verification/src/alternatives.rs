//! Alternative suggester: repairs an invalid fit variant by substituting
//! one cheaper or less demanding same-slot module from the eligible pool
//! for each module implicated in a missing requirement, keeping only the
//! substitutions the validator accepts. The whole procedure is a fixed
//! function of its inputs, stated by `spec_alternatives`.

use vstd::prelude::*;
use vstd::string::StringExecFns;
use crate::model::{
    FitVariant, FitView, Module, ModuleView, ReqView, Skill, SkillView, fit_views, module_views,
    req_views, skill_views,
};
use crate::generator::spec_cost;
use crate::skills::{reqs_met, spec_reqs_met};
use crate::validator::{spec_fit_ok, validate_fit};

verus! {

/// The highest level any requirement in the list demands, 0 when empty.
pub open spec fn spec_max_req(reqs: Seq<ReqView>) -> int
    decreases reqs.len(),
{
    if reqs.len() == 0 {
        0
    } else {
        let rest = spec_max_req(reqs.drop_last());
        if reqs.last().required_level > rest {
            reqs.last().required_level
        } else {
            rest
        }
    }
}

/// Executable counterpart of `spec_max_req`.
pub fn max_req_of(reqs: &Vec<crate::model::SkillRequirement>) -> (r: i32)
    ensures
        r as int == spec_max_req(req_views(reqs@)),
{
    let ghost rv = req_views(reqs@);
    let mut best: i32 = 0;
    let mut i: usize = 0;
    while i < reqs.len()
        invariant
            0 <= i <= reqs@.len(),
            rv == req_views(reqs@),
            rv.len() == reqs@.len(),
            best as int == spec_max_req(rv.take(i as int)),
        decreases reqs@.len() - i,
    {
        proof {
            assert(rv.take(i + 1).drop_last() =~= rv.take(i as int));
            assert(rv.take(i + 1).last() == rv[i as int]);
            assert(rv[i as int] == reqs@[i as int]@);
        }
        if reqs[i].required_level > best {
            best = reqs[i].required_level;
        }
        i = i + 1;
    }
    proof {
        assert(rv.take(reqs@.len() as int) =~= rv);
    }
    best
}

/// Whether pool entry `j` may replace module `m`: same slot type, a
/// different module, cheaper or with a lower maximum skill requirement,
/// and with every own requirement met by the user.
pub open spec fn spec_candidate_ok(
    skills: Seq<SkillView>,
    pool: Seq<ModuleView>,
    m: ModuleView,
    j: int,
) -> bool {
    &&& 0 <= j < pool.len()
    &&& pool[j].slot_type == m.slot_type
    &&& pool[j].module_id != m.module_id
    &&& (spec_cost(pool[j]) < spec_cost(m) || spec_max_req(pool[j].required_skills)
        < spec_max_req(m.required_skills))
    &&& spec_reqs_met(skills, pool[j].required_skills)
}

/// The first acceptable substitute for `m` among the first `k` pool
/// entries, in pool order.
pub open spec fn spec_first_substitute(
    skills: Seq<SkillView>,
    pool: Seq<ModuleView>,
    m: ModuleView,
    k: int,
) -> Option<int>
    decreases k,
{
    if k <= 0 {
        Option::None
    } else {
        match spec_first_substitute(skills, pool, m, k - 1) {
            Option::Some(j) => Option::Some(j),
            Option::None => if spec_candidate_ok(skills, pool, m, k - 1) {
                Option::Some(k - 1)
            } else {
                Option::None
            },
        }
    }
}

/// Once a substitute is found in a prefix, scanning further never
/// changes the choice.
pub proof fn lemma_first_substitute_extend(
    skills: Seq<SkillView>,
    pool: Seq<ModuleView>,
    m: ModuleView,
    k: int,
    n: int,
)
    requires
        0 <= k <= n,
        spec_first_substitute(skills, pool, m, k) is Some,
    ensures
        spec_first_substitute(skills, pool, m, n) == spec_first_substitute(skills, pool, m, k),
    decreases n - k,
{
    if k < n {
        lemma_first_substitute_extend(skills, pool, m, k + 1, n);
    }
}

/// The fit obtained by replacing module `i` of `fit` with pool entry
/// `j`, with the substitution recorded in the rationale.
pub open spec fn spec_repair(fit: FitView, pool: Seq<ModuleView>, i: int, j: int) -> FitView {
    FitView {
        fit_name: fit.fit_name,
        ship: fit.ship,
        modules: fit.modules.update(i, pool[j]),
        rationale: "Substituted a module to meet skill requirements"@,
    }
}

/// The repairs produced by the first `k` modules of the fit, in fit
/// order: one per module whose requirements are unmet, when its first
/// acceptable substitute yields a fit the validator accepts.
pub open spec fn spec_alts_upto(
    fit: FitView,
    skills: Seq<SkillView>,
    pool: Seq<ModuleView>,
    k: int,
) -> Seq<FitView>
    decreases k,
{
    if k <= 0 {
        Seq::empty()
    } else {
        let prev = spec_alts_upto(fit, skills, pool, k - 1);
        let m = fit.modules[k - 1];
        if !spec_reqs_met(skills, m.required_skills) {
            match spec_first_substitute(skills, pool, m, pool.len() as int) {
                Option::Some(j) => {
                    let v = spec_repair(fit, pool, k - 1, j);
                    if spec_fit_ok(v, skills) {
                        prev.push(v)
                    } else {
                        prev
                    }
                },
                Option::None => prev,
            }
        } else {
            prev
        }
    }
}

/// Every repair the suggester owes for a fit, in fit order.
pub open spec fn spec_alternatives(
    fit: FitView,
    skills: Seq<SkillView>,
    pool: Seq<ModuleView>,
) -> Seq<FitView> {
    spec_alts_upto(fit, skills, pool, fit.modules.len() as int)
}

/// Number of modules in the list whose own requirements are unmet.
pub open spec fn count_implicated(skills: Seq<SkillView>, mods: Seq<ModuleView>) -> int
    decreases mods.len(),
{
    if mods.len() == 0 {
        0
    } else {
        count_implicated(skills, mods.drop_last()) + if spec_reqs_met(
            skills,
            mods.last().required_skills,
        ) {
            0int
        } else {
            1int
        }
    }
}

/// At most one repair comes back per implicated module.
pub proof fn lemma_alternatives_bounded(
    fit: FitView,
    skills: Seq<SkillView>,
    pool: Seq<ModuleView>,
    k: int,
)
    requires
        0 <= k <= fit.modules.len(),
    ensures
        spec_alts_upto(fit, skills, pool, k).len() <= count_implicated(
            skills,
            fit.modules.take(k),
        ),
    decreases k,
{
    if k == 0 {
    } else {
        lemma_alternatives_bounded(fit, skills, pool, k - 1);
        assert(fit.modules.take(k).drop_last() =~= fit.modules.take(k - 1));
        assert(fit.modules.take(k).last() == fit.modules[k - 1]);
    }
}

/// A fit differs from the original by one module drawn from the pool.
pub open spec fn spec_is_substitution(orig: FitView, pool: Seq<ModuleView>, v: FitView) -> bool {
    exists|i: int, j: int|
        0 <= i < orig.modules.len() && 0 <= j < pool.len() && v.modules
            == #[trigger] orig.modules.update(i, pool[j])
}

/// The original module list with position `i` replaced by a copy of `c`.
fn substitute_module(mods: &Vec<Module>, i: usize, c: &Module) -> (r: Vec<Module>)
    requires
        i < mods@.len(),
    ensures
        module_views(r@) == module_views(mods@).update(i as int, c@),
{
    let ghost mv = module_views(mods@);
    let mut out: Vec<Module> = Vec::new();
    let mut k: usize = 0;
    while k < mods.len()
        invariant
            0 <= k <= mods@.len(),
            i < mods@.len(),
            mv == module_views(mods@),
            mv.len() == mods@.len(),
            out@.len() == k,
            forall|t: int|
                0 <= t < k ==> module_views(out@)[t] == if t == i as int {
                    c@
                } else {
                    mv[t]
                },
        decreases mods@.len() - k,
    {
        let ghost before = module_views(out@);
        if k == i {
            out.push(c.clone());
        } else {
            out.push(mods[k].clone());
        }
        proof {
            assert(module_views(out@) =~= before.push(module_views(out@).last()));
        }
        k = k + 1;
    }
    proof {
        assert(module_views(out@) =~= mv.update(i as int, c@));
    }
    out
}

/// Searches the pool, in pool order, for the first acceptable
/// substitute for `m`.
fn find_substitute(
    pool: &Vec<Module>,
    m: &Module,
    user_skills: &Vec<Skill>,
) -> (r: Option<usize>)
    ensures
        ({
            let first = spec_first_substitute(
                skill_views(user_skills@),
                module_views(pool@),
                m@,
                pool@.len() as int,
            );
            match r {
                Option::None => first is None,
                Option::Some(j) => j < pool@.len() && first == Option::Some(j as int),
            }
        }),
{
    let ghost sk = skill_views(user_skills@);
    let ghost pv = module_views(pool@);
    let m_cost = crate::generator::cost_of(m);
    let m_req = max_req_of(&m.required_skills);
    let mut j: usize = 0;
    while j < pool.len()
        invariant
            0 <= j <= pool@.len(),
            sk == skill_views(user_skills@),
            pv == module_views(pool@),
            pv.len() == pool@.len(),
            m_cost as int == spec_cost(m@),
            m_req as int == spec_max_req(m@.required_skills),
            spec_first_substitute(sk, pv, m@, j as int) is None,
        decreases pool@.len() - j,
    {
        proof {
            assert(pv[j as int] == pool@[j as int]@);
        }
        let c = &pool[j];
        if c.slot_type == m.slot_type && c.module_id != m.module_id {
            let cheaper = crate::generator::cost_of(c) < m_cost;
            let lower_req = max_req_of(&c.required_skills) < m_req;
            if (cheaper || lower_req) && reqs_met(user_skills, &c.required_skills) {
                proof {
                    assert(spec_candidate_ok(sk, pv, m@, j as int));
                    assert(spec_first_substitute(sk, pv, m@, j + 1) == Option::Some(j as int));
                    lemma_first_substitute_extend(sk, pv, m@, j + 1, pv.len() as int);
                }
                return Some(j);
            }
        }
        j = j + 1;
    }
    None
}

/// Alternative suggester. For each module of the fit whose own skill
/// requirements the user does not meet, one substitution is attempted:
/// the first same-slot pool module that is cheaper or demands less and
/// whose requirements the user meets. A substituted fit is returned only
/// when the validator accepts it in full, so every returned variant is
/// feasible; failed attempts are discarded. The result is exactly
/// `spec_alternatives`: at most one repair per implicated module, in fit
/// order, each differing from the input by that one module and carrying
/// the substitution note in its rationale.
pub fn suggest_alternative_fits(
    fit: &FitVariant,
    user_skills: &Vec<Skill>,
    eligible_modules: &Vec<Module>,
) -> (r: Vec<FitVariant>)
    ensures
        fit_views(r@) == spec_alternatives(
            fit@,
            skill_views(user_skills@),
            module_views(eligible_modules@),
        ),
        r@.len() <= count_implicated(skill_views(user_skills@), fit@.modules),
        forall|k: int|
            0 <= k < r@.len() ==> spec_fit_ok((#[trigger] r@[k])@, skill_views(user_skills@)),
        forall|k: int| 0 <= k < r@.len() ==> (#[trigger] r@[k])@.ship == fit@.ship,
        forall|k: int|
            0 <= k < r@.len() ==> spec_is_substitution(
                fit@,
                module_views(eligible_modules@),
                (#[trigger] r@[k])@,
            ),
{
    let ghost fv = fit@;
    let ghost sk = skill_views(user_skills@);
    let ghost pv = module_views(eligible_modules@);
    let mut out: Vec<FitVariant> = Vec::new();
    let mut i: usize = 0;
    while i < fit.modules.len()
        invariant
            0 <= i <= fit.modules@.len(),
            fv == fit@,
            fv.modules.len() == fit.modules@.len(),
            sk == skill_views(user_skills@),
            pv == module_views(eligible_modules@),
            fit_views(out@) == spec_alts_upto(fv, sk, pv, i as int),
            forall|k: int| 0 <= k < out@.len() ==> spec_fit_ok((#[trigger] out@[k])@, sk),
            forall|k: int| 0 <= k < out@.len() ==> (#[trigger] out@[k])@.ship == fv.ship,
            forall|k: int|
                0 <= k < out@.len() ==> spec_is_substitution(fv, pv, (#[trigger] out@[k])@),
        decreases fit.modules@.len() - i,
    {
        proof {
            assert(fv.modules[i as int] == fit.modules@[i as int]@);
        }
        let m = &fit.modules[i];
        if !reqs_met(user_skills, &m.required_skills) {
            // This module is implicated in a missing requirement:
            // attempt exactly one substitution for it.
            match find_substitute(eligible_modules, m, user_skills) {
                Option::Some(j) => {
                    let new_mods = substitute_module(&fit.modules, i, &eligible_modules[j]);
                    let candidate = FitVariant {
                        fit_name: fit.fit_name.clone(),
                        ship: fit.ship.clone(),
                        modules: new_mods,
                        rationale: String::from_str(
                            "Substituted a module to meet skill requirements",
                        ),
                    };
                    proof {
                        assert(eligible_modules@[j as int]@ == pv[j as int]);
                        assert(candidate@ == spec_repair(fv, pv, i as int, j as int));
                    }
                    let verdict = validate_fit(&candidate, user_skills);
                    if verdict.is_valid {
                        let ghost before = out@;
                        proof {
                            assert(spec_is_substitution(fv, pv, candidate@));
                        }
                        out.push(candidate);
                        proof {
                            assert(out@ =~= before.push(out@.last()));
                            assert(fit_views(out@) =~= fit_views(before).push(out@.last()@));
                        }
                    }
                },
                Option::None => {},
            }
        }
        i = i + 1;
    }
    proof {
        lemma_alternatives_bounded(fv, sk, pv, fv.modules.len() as int);
        assert(fv.modules.take(fv.modules.len() as int) =~= fv.modules);
        assert(out@.len() == fit_views(out@).len());
    }
    out
}

} // verus!
