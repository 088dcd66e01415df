//! Export formatter: serializes a skill plan to the plain-text
//! interchange format, one `"<name> Level <required_level>"` line per
//! entry, joined by single newlines, with no trailing newline.

use vstd::prelude::*;
use vstd::string::StringExecFns;
use crate::model::{PlanEntryView, SkillPlanEntry, entry_views};
use crate::validator::{level_char, level_str};

verus! {

/// The exported line for one plan entry.
pub open spec fn spec_export_line(e: PlanEntryView) -> Seq<char> {
    e.name + " Level "@ + seq![level_char(e.required_level)]
}

/// The full export text: the entries' lines in plan order, joined by a
/// single newline, with no trailing newline.
pub open spec fn spec_export(plan: Seq<PlanEntryView>) -> Seq<char>
    decreases plan.len(),
{
    if plan.len() == 0 {
        Seq::empty()
    } else {
        spec_export(plan.drop_last()) + (if plan.len() > 1 {
            seq!['\n']
        } else {
            Seq::<char>::empty()
        }) + spec_export_line(plan.last())
    }
}

/// Builds the line `"<name> Level <required_level>"` for a plan entry.
pub fn make_plan_line(e: &SkillPlanEntry) -> (s: String)
    ensures
        s@ == spec_export_line(e@),
{
    let mut s = e.name.clone();
    s.append(" Level ");
    s.append(level_str(e.required_level));
    proof {
        assert(s@ =~= spec_export_line(e@));
    }
    s
}

/// Serializes a skill plan in plan order. Pure and deterministic; two
/// distinct skills sharing a display name are not distinguishable once
/// exported.
pub fn export_skill_plan_evemon(plan: &Vec<SkillPlanEntry>) -> (r: String)
    ensures
        r@ == spec_export(entry_views(plan@)),
{
    let ghost pv = entry_views(plan@);
    let mut out = String::new();
    let mut i: usize = 0;
    while i < plan.len()
        invariant
            0 <= i <= plan@.len(),
            pv == entry_views(plan@),
            pv.len() == plan@.len(),
            out@ == spec_export(pv.take(i as int)),
        decreases plan@.len() - i,
    {
        proof {
            assert(pv.take(i + 1).drop_last() =~= pv.take(i as int));
            assert(pv.take(i + 1).last() == pv[i as int]);
            assert(pv[i as int] == plan@[i as int]@);
        }
        if i > 0 {
            out.append("\n");
            proof {
                reveal_strlit("\n");
                assert(out@ =~= spec_export(pv.take(i as int)) + seq!['\n']);
            }
        }
        let line = make_plan_line(&plan[i]);
        out.append(line.as_str());
        proof {
            assert(out@ =~= spec_export(pv.take(i + 1)));
        }
        i = i + 1;
    }
    proof {
        assert(pv.take(plan@.len() as int) =~= pv);
    }
    out
}

} // verus!
