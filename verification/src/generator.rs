//! Fit generator: builds five objective-distinct fit variants for one
//! eligible ship and activity. Selection is a greedy fill per slot type
//! by contribution-per-resource-cost ratio under the slot, powergrid and
//! CPU budgets. It is deterministic: ties are broken first by lower
//! combined resource cost, then by lower module id, so identical inputs
//! always yield identical variants.

use vstd::prelude::*;
use vstd::string::StringExecFns;
use crate::model::{
    Activity, FitVariant, FitView, Module, ModuleView, Ship, ShipView, SlotType, module_views,
};

verus! {

/// The five generation objectives, one per produced variant.
#[derive(Clone, Copy, Debug, PartialEq, Eq, Structural)]
pub enum Objective {
    MaxDps,
    MaxTank,
    Balanced,
    CapStable,
    ActivityOptimized,
}

/// Contribution weights a module is scored with. Each weight is small
/// and non-negative, so scores stay within safe integer ranges.
#[derive(Clone, Copy, Debug, PartialEq, Eq, Structural)]
pub struct Weights {
    pub damage: i64,
    pub tank: i64,
    pub cap: i64,
    pub utility: i64,
}

impl Weights {
    /// All weights lie in 0..=16.
    pub open spec fn wf(self) -> bool {
        &&& 0 <= self.damage <= 16
        &&& 0 <= self.tank <= 16
        &&& 0 <= self.cap <= 16
        &&& 0 <= self.utility <= 16
    }
}

/// The weighting table: each objective favors its own metrics, and the
/// activity-optimized objective applies a per-activity row.
pub open spec fn spec_weights(obj: Objective, act: Activity) -> Weights {
    match obj {
        Objective::MaxDps => Weights { damage: 10, tank: 2, cap: 0, utility: 0 },
        Objective::MaxTank => Weights { damage: 0, tank: 10, cap: 0, utility: 0 },
        Objective::Balanced => Weights { damage: 5, tank: 5, cap: 0, utility: 0 },
        Objective::CapStable => Weights { damage: 1, tank: 1, cap: 10, utility: 0 },
        Objective::ActivityOptimized => match act {
            Activity::MissionRunning => Weights { damage: 4, tank: 8, cap: 2, utility: 0 },
            Activity::PvP => Weights { damage: 8, tank: 3, cap: 1, utility: 4 },
            Activity::Mining => Weights { damage: 0, tank: 2, cap: 1, utility: 10 },
            Activity::Exploration => Weights { damage: 0, tank: 1, cap: 1, utility: 10 },
            Activity::Industrial => Weights { damage: 0, tank: 2, cap: 0, utility: 10 },
        },
    }
}

/// Executable counterpart of `spec_weights`.
pub fn weights_for(obj: Objective, act: Activity) -> (w: Weights)
    ensures
        w == spec_weights(obj, act),
        w.wf(),
{
    match obj {
        Objective::MaxDps => Weights { damage: 10, tank: 2, cap: 0, utility: 0 },
        Objective::MaxTank => Weights { damage: 0, tank: 10, cap: 0, utility: 0 },
        Objective::Balanced => Weights { damage: 5, tank: 5, cap: 0, utility: 0 },
        Objective::CapStable => Weights { damage: 1, tank: 1, cap: 10, utility: 0 },
        Objective::ActivityOptimized => match act {
            Activity::MissionRunning => Weights { damage: 4, tank: 8, cap: 2, utility: 0 },
            Activity::PvP => Weights { damage: 8, tank: 3, cap: 1, utility: 4 },
            Activity::Mining => Weights { damage: 0, tank: 2, cap: 1, utility: 10 },
            Activity::Exploration => Weights { damage: 0, tank: 1, cap: 1, utility: 10 },
            Activity::Industrial => Weights { damage: 0, tank: 2, cap: 0, utility: 10 },
        },
    }
}

/// A module's weighted contribution score.
pub open spec fn spec_score(w: Weights, m: ModuleView) -> int {
    w.damage * m.damage + w.tank * m.tank + w.cap * m.cap_delta + w.utility * m.utility
}

/// A module's combined resource cost.
pub open spec fn spec_cost(m: ModuleView) -> int {
    m.power_grid_cost + m.cpu_cost
}

/// Executable weighted score of a module.
pub fn score_of(w: Weights, m: &Module) -> (s: i64)
    requires
        w.wf(),
    ensures
        s as int == spec_score(w, m@),
        -0x10_0000_0000_0000 <= s <= 0x10_0000_0000_0000,
{
    proof {
        assert(0 <= w.damage * (m.damage as int) <= 16 * 0xffff_ffff) by (nonlinear_arith)
            requires
                0 <= w.damage <= 16,
                0 <= m.damage as int <= 0xffff_ffff,
        ;
        assert(0 <= w.tank * (m.tank as int) <= 16 * 0xffff_ffff) by (nonlinear_arith)
            requires
                0 <= w.tank <= 16,
                0 <= m.tank as int <= 0xffff_ffff,
        ;
        assert(-16 * 0x8000_0000 <= w.cap * (m.cap_delta as int) <= 16 * 0x7fff_ffff)
            by (nonlinear_arith)
            requires
                0 <= w.cap <= 16,
                -0x8000_0000 <= m.cap_delta as int <= 0x7fff_ffff,
        ;
        assert(0 <= w.utility * (m.utility as int) <= 16 * 0xffff_ffff) by (nonlinear_arith)
            requires
                0 <= w.utility <= 16,
                0 <= m.utility as int <= 0xffff_ffff,
        ;
    }
    w.damage * (m.damage as i64) + w.tank * (m.tank as i64) + w.cap * (m.cap_delta as i64)
        + w.utility * (m.utility as i64)
}

/// Executable combined resource cost of a module.
pub fn cost_of(m: &Module) -> (c: u64)
    ensures
        c as int == spec_cost(m@),
{
    m.power_grid_cost as u64 + m.cpu_cost as u64
}

/// The strict greedy preference order: higher score-to-cost ratio first
/// (compared exactly by cross-multiplication), then lower combined
/// resource cost, then lower module id.
pub open spec fn spec_prefers(w: Weights, a: ModuleView, b: ModuleView) -> bool {
    let ra = spec_score(w, a) * (spec_cost(b) + 1);
    let rb = spec_score(w, b) * (spec_cost(a) + 1);
    ra > rb || (ra == rb && (spec_cost(a) < spec_cost(b) || (spec_cost(a) == spec_cost(b)
        && a.module_id < b.module_id)))
}

/// Decides the greedy preference order between two modules.
pub fn prefers(w: Weights, a: &Module, b: &Module) -> (r: bool)
    requires
        w.wf(),
    ensures
        r == spec_prefers(w, a@, b@),
{
    let sa = score_of(w, a) as i128;
    let sb = score_of(w, b) as i128;
    let ca = cost_of(a) as i128;
    let cb = cost_of(b) as i128;
    proof {
        assert(-0x1_0000_0000_0000_0000_0000_0000 <= sa * (cb + 1)
            <= 0x1_0000_0000_0000_0000_0000_0000) by (nonlinear_arith)
            requires
                -0x10_0000_0000_0000 <= sa <= 0x10_0000_0000_0000,
                0 <= cb <= 0x2_0000_0000,
        ;
        assert(-0x1_0000_0000_0000_0000_0000_0000 <= sb * (ca + 1)
            <= 0x1_0000_0000_0000_0000_0000_0000) by (nonlinear_arith)
            requires
                -0x10_0000_0000_0000 <= sb <= 0x10_0000_0000_0000,
                0 <= ca <= 0x2_0000_0000,
        ;
    }
    let ra = sa * (cb + 1);
    let rb = sb * (ca + 1);
    ra > rb || (ra == rb && (ca < cb || (ca == cb && a.module_id < b.module_id)))
}

/// Whether pool entry `j` can still be mounted: unused, of the right
/// slot type, within both remaining budgets, and with a positive score.
pub open spec fn spec_usable(
    pool: Seq<ModuleView>,
    used: Seq<bool>,
    st: SlotType,
    pg_left: int,
    cpu_left: int,
    w: Weights,
    j: int,
) -> bool {
    &&& 0 <= j < pool.len()
    &&& !used[j]
    &&& pool[j].slot_type == st
    &&& pool[j].power_grid_cost <= pg_left
    &&& pool[j].cpu_cost <= cpu_left
    &&& spec_score(w, pool[j]) > 0
}

/// The greedy choice among the first `k` pool entries: the usable entry
/// the preference order likes best, earliest entry winning exact ties.
pub open spec fn best_in(
    pool: Seq<ModuleView>,
    used: Seq<bool>,
    st: SlotType,
    pg_left: int,
    cpu_left: int,
    w: Weights,
    k: int,
) -> Option<int>
    decreases k,
{
    if k <= 0 {
        Option::None
    } else {
        let prev = best_in(pool, used, st, pg_left, cpu_left, w, k - 1);
        if spec_usable(pool, used, st, pg_left, cpu_left, w, k - 1) {
            match prev {
                Option::None => Option::Some(k - 1),
                Option::Some(p) => if spec_prefers(w, pool[k - 1], pool[p]) {
                    Option::Some(k - 1)
                } else {
                    Option::Some(p)
                },
            }
        } else {
            prev
        }
    }
}

/// The greedy choice is always a usable entry below the scan bound.
pub proof fn lemma_best_in_usable(
    pool: Seq<ModuleView>,
    used: Seq<bool>,
    st: SlotType,
    pg_left: int,
    cpu_left: int,
    w: Weights,
    k: int,
)
    ensures
        best_in(pool, used, st, pg_left, cpu_left, w, k) matches Option::Some(j) ==> 0 <= j < k
            && spec_usable(pool, used, st, pg_left, cpu_left, w, j),
    decreases k,
{
    if k <= 0 {
    } else {
        lemma_best_in_usable(pool, used, st, pg_left, cpu_left, w, k - 1);
    }
}

/// Scans the pool for the greedy choice under the current state.
pub fn best_candidate(
    pool: &Vec<Module>,
    used: &Vec<bool>,
    st: SlotType,
    pg_left: u32,
    cpu_left: u32,
    w: Weights,
) -> (r: Option<usize>)
    requires
        used@.len() == pool@.len(),
        w.wf(),
    ensures
        ({
            let b = best_in(
                module_views(pool@),
                used@,
                st,
                pg_left as int,
                cpu_left as int,
                w,
                pool@.len() as int,
            );
            match r {
                Option::None => b is None,
                Option::Some(j) => j < pool@.len() && b == Option::Some(j as int),
            }
        }),
{
    let ghost pv = module_views(pool@);
    let mut best: Option<usize> = None;
    let mut i: usize = 0;
    while i < pool.len()
        invariant
            0 <= i <= pool@.len(),
            pv == module_views(pool@),
            pv.len() == pool@.len(),
            used@.len() == pool@.len(),
            w.wf(),
            ({
                let b = best_in(pv, used@, st, pg_left as int, cpu_left as int, w, i as int);
                match best {
                    Option::None => b is None,
                    Option::Some(j) => j < i && b == Option::Some(j as int),
                }
            }),
        decreases pool@.len() - i,
    {
        proof {
            assert(pv[i as int] == pool@[i as int]@);
        }
        let m = &pool[i];
        let usable = !used[i] && m.slot_type == st && m.power_grid_cost <= pg_left
            && m.cpu_cost <= cpu_left && score_of(w, m) > 0;
        if usable {
            let take_it = match best {
                Option::None => true,
                Option::Some(p) => prefers(w, m, &pool[p]),
            };
            if take_it {
                best = Some(i);
            }
        }
        i = i + 1;
    }
    best
}

/// One greedy round for a slot type: the chosen pool indices in choice
/// order, with the used-flags and both remaining budgets after them.
pub open spec fn spec_fill_state(
    pool: Seq<ModuleView>,
    used: Seq<bool>,
    st: SlotType,
    slots: nat,
    pg_left: int,
    cpu_left: int,
    w: Weights,
) -> (Seq<int>, Seq<bool>, int, int)
    decreases slots,
{
    if slots == 0 {
        (Seq::empty(), used, pg_left, cpu_left)
    } else {
        match best_in(pool, used, st, pg_left, cpu_left, w, pool.len() as int) {
            Option::None => (Seq::empty(), used, pg_left, cpu_left),
            Option::Some(j) => {
                let rec = spec_fill_state(
                    pool,
                    used.update(j, true),
                    st,
                    (slots - 1) as nat,
                    pg_left - pool[j].power_grid_cost,
                    cpu_left - pool[j].cpu_cost,
                    w,
                );
                (seq![j] + rec.0, rec.1, rec.2, rec.3)
            },
        }
    }
}

/// The pool indices a whole variant selects: the four slot types are
/// filled in the fixed order High, Mid, Low, Rig, sharing the used-flags
/// and the ship's powergrid and CPU budgets.
pub open spec fn spec_select_idxs(ship: ShipView, pool: Seq<ModuleView>, w: Weights) -> Seq<
    int,
> {
    let u0 = Seq::new(pool.len(), |i: int| false);
    let r1 = spec_fill_state(
        pool,
        u0,
        SlotType::High,
        ship.high_slots as nat,
        ship.power_grid_budget,
        ship.cpu_budget,
        w,
    );
    let r2 = spec_fill_state(pool, r1.1, SlotType::Mid, ship.mid_slots as nat, r1.2, r1.3, w);
    let r3 = spec_fill_state(pool, r2.1, SlotType::Low, ship.low_slots as nat, r2.2, r2.3, w);
    let r4 = spec_fill_state(pool, r3.1, SlotType::Rig, ship.rig_slots as nat, r3.2, r3.3, w);
    r1.0 + r2.0 + r3.0 + r4.0
}

/// The module views selected by a sequence of pool indices.
pub open spec fn idxs_to_views(pool: Seq<ModuleView>, idxs: Seq<int>) -> Seq<ModuleView> {
    idxs.map_values(|j: int| pool[j])
}

/// The modules a whole variant selects, in selection order.
pub open spec fn spec_selected_modules(ship: ShipView, pool: Seq<ModuleView>, w: Weights) -> Seq<
    ModuleView,
> {
    idxs_to_views(pool, spec_select_idxs(ship, pool, w))
}

/// Runs one greedy round for a slot type, mutating the used-flags, the
/// remaining budgets and the output module list exactly as
/// `spec_fill_state` describes.
fn fill_slot_type(
    pool: &Vec<Module>,
    used: &mut Vec<bool>,
    st: SlotType,
    slots: u32,
    pg_left: &mut u32,
    cpu_left: &mut u32,
    w: Weights,
    out: &mut Vec<Module>,
)
    requires
        old(used)@.len() == pool@.len(),
        w.wf(),
    ensures
        final(used)@.len() == pool@.len(),
        ({
            let r = spec_fill_state(
                module_views(pool@),
                old(used)@,
                st,
                slots as nat,
                *old(pg_left) as int,
                *old(cpu_left) as int,
                w,
            );
            &&& module_views(final(out)@) == module_views(old(out)@) + idxs_to_views(
                module_views(pool@),
                r.0,
            )
            &&& final(used)@ == r.1
            &&& *final(pg_left) as int == r.2
            &&& *final(cpu_left) as int == r.3
        }),
{
    let ghost pv = module_views(pool@);
    let ghost used0 = used@;
    let ghost pg0 = *pg_left as int;
    let ghost cpu0 = *cpu_left as int;
    let ghost out0 = module_views(out@);
    let ghost full = spec_fill_state(pv, used0, st, slots as nat, pg0, cpu0, w);
    let ghost mut taken: Seq<int> = Seq::empty();
    let mut it: u32 = 0;
    while it < slots
        invariant
            0 <= it <= slots,
            pv == module_views(pool@),
            pv.len() == pool@.len(),
            used@.len() == pool@.len(),
            w.wf(),
            full == spec_fill_state(pv, used0, st, slots as nat, pg0, cpu0, w),
            ({
                let rem = spec_fill_state(
                    pv,
                    used@,
                    st,
                    (slots - it) as nat,
                    *pg_left as int,
                    *cpu_left as int,
                    w,
                );
                &&& full.0 == taken + rem.0
                &&& full.1 == rem.1
                &&& full.2 == rem.2
                &&& full.3 == rem.3
            }),
            module_views(out@) == out0 + idxs_to_views(pv, taken),
        ensures
            ({
                let rem = spec_fill_state(
                    pv,
                    used@,
                    st,
                    (slots - it) as nat,
                    *pg_left as int,
                    *cpu_left as int,
                    w,
                );
                rem.0 == Seq::<int>::empty() && rem.1 == used@ && rem.2 == *pg_left as int
                    && rem.3 == *cpu_left as int
            }),
            full == spec_fill_state(pv, used0, st, slots as nat, pg0, cpu0, w),
            pv == module_views(pool@),
            used@.len() == pool@.len(),
            ({
                let rem = spec_fill_state(
                    pv,
                    used@,
                    st,
                    (slots - it) as nat,
                    *pg_left as int,
                    *cpu_left as int,
                    w,
                );
                &&& full.0 == taken + rem.0
                &&& full.1 == rem.1
                &&& full.2 == rem.2
                &&& full.3 == rem.3
            }),
            module_views(out@) == out0 + idxs_to_views(pv, taken),
        decreases slots - it,
    {
        let found = best_candidate(pool, used, st, *pg_left, *cpu_left, w);
        match found {
            Option::None => {
                break;
            },
            Option::Some(j) => {
                proof {
                    lemma_best_in_usable(
                        pv,
                        used@,
                        st,
                        *pg_left as int,
                        *cpu_left as int,
                        w,
                        pool@.len() as int,
                    );
                    assert(spec_usable(pv, used@, st, *pg_left as int, *cpu_left as int, w,
                        j as int));
                }
                let ghost rem_before = spec_fill_state(
                    pv,
                    used@,
                    st,
                    (slots - it) as nat,
                    *pg_left as int,
                    *cpu_left as int,
                    w,
                );
                let m = pool[j].clone();
                used.set(j, true);
                *pg_left = *pg_left - m.power_grid_cost;
                *cpu_left = *cpu_left - m.cpu_cost;
                let ghost out_before = module_views(out@);
                out.push(m);
                proof {
                    assert(module_views(out@) =~= out_before.push(pv[j as int]));
                    assert(idxs_to_views(pv, taken.push(j as int)) =~= idxs_to_views(
                        pv,
                        taken,
                    ).push(pv[j as int]));
                    assert(module_views(out@) =~= out0 + idxs_to_views(pv, taken.push(j as int)));
                    let rem_after = spec_fill_state(
                        pv,
                        used@,
                        st,
                        (slots - it - 1) as nat,
                        *pg_left as int,
                        *cpu_left as int,
                        w,
                    );
                    assert(rem_before.0 == seq![j as int] + rem_after.0);
                    assert(taken + rem_before.0 =~= taken.push(j as int) + rem_after.0);
                    taken = taken.push(j as int);
                }
                it = it + 1;
            },
        }
    }
}

/// The display label of each objective; the five labels are distinct.
pub open spec fn spec_label(obj: Objective) -> Seq<char> {
    match obj {
        Objective::MaxDps => "Max DPS"@,
        Objective::MaxTank => "Max Tank"@,
        Objective::Balanced => "Balanced"@,
        Objective::CapStable => "Cap Stable"@,
        Objective::ActivityOptimized => "Activity Optimized"@,
    }
}

/// The explanatory rationale attached to each variant.
pub open spec fn spec_rationale(obj: Objective) -> Seq<char> {
    match obj {
        Objective::MaxDps => "Greedy fill favoring offensive contribution per fitting cost"@,
        Objective::MaxTank => "Greedy fill favoring defensive contribution per fitting cost"@,
        Objective::Balanced => "Greedy fill weighing damage and tank equally"@,
        Objective::CapStable => "Greedy fill favoring capacitor balance over raw output"@,
        Objective::ActivityOptimized => "Greedy fill weighted for the selected activity"@,
    }
}

/// The objective produced at each position of the generated list.
pub open spec fn objective_order(k: int) -> Objective {
    if k == 0 {
        Objective::MaxDps
    } else if k == 1 {
        Objective::MaxTank
    } else if k == 2 {
        Objective::Balanced
    } else if k == 3 {
        Objective::CapStable
    } else {
        Objective::ActivityOptimized
    }
}

/// The whole variant one objective produces: its label, the ship, the
/// greedy module selection for the objective's weights, and the
/// objective's rationale.
pub open spec fn spec_variant(
    ship: ShipView,
    pool: Seq<ModuleView>,
    act: Activity,
    obj: Objective,
) -> FitView {
    FitView {
        fit_name: spec_label(obj),
        ship,
        modules: spec_selected_modules(ship, pool, spec_weights(obj, act)),
        rationale: spec_rationale(obj),
    }
}

/// Executable counterpart of `spec_label`.
pub fn label_of(obj: Objective) -> (r: String)
    ensures
        r@ == spec_label(obj),
{
    match obj {
        Objective::MaxDps => String::from_str("Max DPS"),
        Objective::MaxTank => String::from_str("Max Tank"),
        Objective::Balanced => String::from_str("Balanced"),
        Objective::CapStable => String::from_str("Cap Stable"),
        Objective::ActivityOptimized => String::from_str("Activity Optimized"),
    }
}

/// Executable counterpart of `spec_rationale`.
pub fn rationale_of(obj: Objective) -> (r: String)
    ensures
        r@ == spec_rationale(obj),
{
    match obj {
        Objective::MaxDps => String::from_str(
            "Greedy fill favoring offensive contribution per fitting cost",
        ),
        Objective::MaxTank => String::from_str(
            "Greedy fill favoring defensive contribution per fitting cost",
        ),
        Objective::Balanced => String::from_str("Greedy fill weighing damage and tank equally"),
        Objective::CapStable => String::from_str(
            "Greedy fill favoring capacitor balance over raw output",
        ),
        Objective::ActivityOptimized => String::from_str(
            "Greedy fill weighted for the selected activity",
        ),
    }
}

/// The five objective labels are pairwise distinct.
pub proof fn lemma_labels_distinct()
    ensures
        forall|a: Objective, b: Objective| a != b ==> spec_label(a) != spec_label(b),
{
    reveal_strlit("Max DPS");
    reveal_strlit("Max Tank");
    reveal_strlit("Balanced");
    reveal_strlit("Cap Stable");
    reveal_strlit("Activity Optimized");
    assert forall|a: Objective, b: Objective| a != b implies spec_label(a) != spec_label(b) by {
        assert(spec_label(Objective::MaxDps).len() == 7);
        assert(spec_label(Objective::MaxTank).len() == 8);
        assert(spec_label(Objective::Balanced).len() == 8);
        assert(spec_label(Objective::CapStable).len() == 10);
        assert(spec_label(Objective::ActivityOptimized).len() == 18);
        assert(spec_label(Objective::MaxTank)[0] == 'M');
        assert(spec_label(Objective::Balanced)[0] == 'B');
    }
}

/// Builds the variant for one objective: a fresh greedy selection over
/// the pool, a clone of the ship, and the objective's label and
/// rationale.
fn build_variant(ship: &Ship, activity: Activity, pool: &Vec<Module>, obj: Objective) -> (v:
    FitVariant)
    ensures
        v@.ship == ship@,
        v@.modules == spec_selected_modules(
            ship@,
            module_views(pool@),
            spec_weights(obj, activity),
        ),
        v@.fit_name == spec_label(obj),
        v@.rationale == spec_rationale(obj),
{
    let ghost pv = module_views(pool@);
    let w = weights_for(obj, activity);
    let mut used: Vec<bool> = Vec::new();
    let mut i: usize = 0;
    while i < pool.len()
        invariant
            0 <= i <= pool@.len(),
            used@.len() == i,
            forall|k: int| 0 <= k < i ==> !(#[trigger] used@[k]),
        decreases pool@.len() - i,
    {
        used.push(false);
        i = i + 1;
    }
    proof {
        assert(used@ =~= Seq::new(pv.len(), |i: int| false));
    }
    let mut pg_left: u32 = ship.power_grid_budget;
    let mut cpu_left: u32 = ship.cpu_budget;
    let mut mods: Vec<Module> = Vec::new();
    proof {
        assert(module_views(mods@) =~= Seq::<ModuleView>::empty());
    }
    let ghost u0 = used@;
    let ghost r1 = spec_fill_state(
        pv,
        u0,
        SlotType::High,
        ship@.high_slots as nat,
        ship@.power_grid_budget,
        ship@.cpu_budget,
        w,
    );
    fill_slot_type(pool, &mut used, SlotType::High, ship.high_slots, &mut pg_left, &mut cpu_left,
        w, &mut mods);
    let ghost r2 = spec_fill_state(pv, r1.1, SlotType::Mid, ship@.mid_slots as nat, r1.2, r1.3, w);
    fill_slot_type(pool, &mut used, SlotType::Mid, ship.mid_slots, &mut pg_left, &mut cpu_left, w,
        &mut mods);
    let ghost r3 = spec_fill_state(pv, r2.1, SlotType::Low, ship@.low_slots as nat, r2.2, r2.3, w);
    fill_slot_type(pool, &mut used, SlotType::Low, ship.low_slots, &mut pg_left, &mut cpu_left, w,
        &mut mods);
    let ghost r4 = spec_fill_state(pv, r3.1, SlotType::Rig, ship@.rig_slots as nat, r3.2, r3.3, w);
    fill_slot_type(pool, &mut used, SlotType::Rig, ship.rig_slots, &mut pg_left, &mut cpu_left, w,
        &mut mods);
    proof {
        assert(module_views(mods@) =~= idxs_to_views(pv, r1.0) + idxs_to_views(pv, r2.0)
            + idxs_to_views(pv, r3.0) + idxs_to_views(pv, r4.0));
        assert(idxs_to_views(pv, r1.0 + r2.0 + r3.0 + r4.0) =~= idxs_to_views(pv, r1.0)
            + idxs_to_views(pv, r2.0) + idxs_to_views(pv, r3.0) + idxs_to_views(pv, r4.0));
        assert(spec_select_idxs(ship@, pv, w) == r1.0 + r2.0 + r3.0 + r4.0);
    }
    FitVariant {
        fit_name: label_of(obj),
        ship: ship.clone(),
        modules: mods,
        rationale: rationale_of(obj),
    }
}

/// Fit generator: exactly five variants for one eligible ship and
/// activity, one per objective, in the fixed order MaxDPS, MaxTank,
/// Balanced, CapStable, ActivityOptimized. Each variant's module
/// selection is the deterministic greedy fill for its objective, so two
/// calls with identical inputs produce identical variants; the five
/// labels are pairwise distinct.
pub fn generate_fit_variants(ship: &Ship, activity: Activity, eligible_modules: &Vec<Module>) -> (
    r: Vec<FitVariant>)
    ensures
        r@.len() == 5,
        forall|k: int| 0 <= k < 5 ==> (#[trigger] r@[k])@.ship == ship@,
        r@[0]@.fit_name == spec_label(Objective::MaxDps),
        r@[1]@.fit_name == spec_label(Objective::MaxTank),
        r@[2]@.fit_name == spec_label(Objective::Balanced),
        r@[3]@.fit_name == spec_label(Objective::CapStable),
        r@[4]@.fit_name == spec_label(Objective::ActivityOptimized),
        r@[0]@.modules == spec_selected_modules(
            ship@,
            module_views(eligible_modules@),
            spec_weights(Objective::MaxDps, activity),
        ),
        r@[1]@.modules == spec_selected_modules(
            ship@,
            module_views(eligible_modules@),
            spec_weights(Objective::MaxTank, activity),
        ),
        r@[2]@.modules == spec_selected_modules(
            ship@,
            module_views(eligible_modules@),
            spec_weights(Objective::Balanced, activity),
        ),
        r@[3]@.modules == spec_selected_modules(
            ship@,
            module_views(eligible_modules@),
            spec_weights(Objective::CapStable, activity),
        ),
        r@[4]@.modules == spec_selected_modules(
            ship@,
            module_views(eligible_modules@),
            spec_weights(Objective::ActivityOptimized, activity),
        ),
        r@[0]@.rationale == spec_rationale(Objective::MaxDps),
        r@[1]@.rationale == spec_rationale(Objective::MaxTank),
        r@[2]@.rationale == spec_rationale(Objective::Balanced),
        r@[3]@.rationale == spec_rationale(Objective::CapStable),
        r@[4]@.rationale == spec_rationale(Objective::ActivityOptimized),
        forall|k: int|
            0 <= k < 5 ==> (#[trigger] r@[k])@ == spec_variant(
                ship@,
                module_views(eligible_modules@),
                activity,
                objective_order(k),
            ),
        forall|k1: int, k2: int|
            0 <= k1 < k2 < 5 ==> (#[trigger] r@[k1])@.fit_name != (#[trigger] r@[k2])@.fit_name,
{
    let mut out: Vec<FitVariant> = Vec::new();
    let v0 = build_variant(ship, activity, eligible_modules, Objective::MaxDps);
    out.push(v0);
    let v1 = build_variant(ship, activity, eligible_modules, Objective::MaxTank);
    out.push(v1);
    let v2 = build_variant(ship, activity, eligible_modules, Objective::Balanced);
    out.push(v2);
    let v3 = build_variant(ship, activity, eligible_modules, Objective::CapStable);
    out.push(v3);
    let v4 = build_variant(ship, activity, eligible_modules, Objective::ActivityOptimized);
    out.push(v4);
    proof {
        lemma_labels_distinct();
        let pv = module_views(eligible_modules@);
        assert(out@[0]@ == spec_variant(ship@, pv, activity, Objective::MaxDps));
        assert(out@[1]@ == spec_variant(ship@, pv, activity, Objective::MaxTank));
        assert(out@[2]@ == spec_variant(ship@, pv, activity, Objective::Balanced));
        assert(out@[3]@ == spec_variant(ship@, pv, activity, Objective::CapStable));
        assert(out@[4]@ == spec_variant(ship@, pv, activity, Objective::ActivityOptimized));
    }
    out
}


/// Prepending one module adds its costs to the totals.
pub proof fn lemma_resource_prepend(x: ModuleView, s: Seq<ModuleView>)
    ensures
        crate::validator::spec_pg_used(seq![x] + s) == x.power_grid_cost
            + crate::validator::spec_pg_used(s),
        crate::validator::spec_cpu_used(seq![x] + s) == x.cpu_cost
            + crate::validator::spec_cpu_used(s),
    decreases s.len(),
{
    if s.len() == 0 {
        assert(crate::validator::spec_pg_used(s) == 0);
        assert(crate::validator::spec_cpu_used(s) == 0);
        assert(seq![x] + s =~= seq![x]);
        assert(seq![x].drop_last() =~= s);
        assert(seq![x].last() == x);
    } else {
        lemma_resource_prepend(x, s.drop_last());
        assert((seq![x] + s).drop_last() =~= seq![x] + s.drop_last());
        assert((seq![x] + s).last() == s.last());
    }
}

/// Resource totals add up over concatenation.
pub proof fn lemma_resource_concat(a: Seq<ModuleView>, b: Seq<ModuleView>)
    ensures
        crate::validator::spec_pg_used(a + b) == crate::validator::spec_pg_used(a)
            + crate::validator::spec_pg_used(b),
        crate::validator::spec_cpu_used(a + b) == crate::validator::spec_cpu_used(a)
            + crate::validator::spec_cpu_used(b),
        crate::validator::spec_slot_count(a + b, SlotType::High) ==
            crate::validator::spec_slot_count(a, SlotType::High)
            + crate::validator::spec_slot_count(b, SlotType::High),
        crate::validator::spec_slot_count(a + b, SlotType::Mid) ==
            crate::validator::spec_slot_count(a, SlotType::Mid)
            + crate::validator::spec_slot_count(b, SlotType::Mid),
        crate::validator::spec_slot_count(a + b, SlotType::Low) ==
            crate::validator::spec_slot_count(a, SlotType::Low)
            + crate::validator::spec_slot_count(b, SlotType::Low),
        crate::validator::spec_slot_count(a + b, SlotType::Rig) ==
            crate::validator::spec_slot_count(a, SlotType::Rig)
            + crate::validator::spec_slot_count(b, SlotType::Rig),
    decreases b.len(),
{
    if b.len() == 0 {
        assert(a + b =~= a);
    } else {
        lemma_resource_concat(a, b.drop_last());
        assert((a + b).drop_last() =~= a + b.drop_last());
        assert((a + b).last() == b.last());
    }
}

/// A list whose modules all sit in one slot type counts its whole
/// length there and nothing anywhere else.
pub proof fn lemma_slot_count_uniform(s: Seq<ModuleView>, st: SlotType)
    requires
        forall|i: int| 0 <= i < s.len() ==> (#[trigger] s[i]).slot_type == st,
    ensures
        crate::validator::spec_slot_count(s, st) == s.len(),
        forall|st2: SlotType| st2 != st ==> crate::validator::spec_slot_count(s, st2) == 0,
    decreases s.len(),
{
    if s.len() == 0 {
    } else {
        assert forall|i: int| 0 <= i < s.drop_last().len() implies (#[trigger] s.drop_last(
        )[i]).slot_type == st by {
            assert(s.drop_last()[i] == s[i]);
        }
        lemma_slot_count_uniform(s.drop_last(), st);
        assert(s[s.len() - 1].slot_type == st);
        assert forall|st2: SlotType| st2 != st implies crate::validator::spec_slot_count(
            s,
            st2,
        ) == 0 by {
            assert(crate::validator::spec_slot_count(s, st2)
                == crate::validator::spec_slot_count(s.drop_last(), st2) + if s.last().slot_type
                == st2 {
                1int
            } else {
                0int
            });
        }
    }
}

/// One greedy round picks at most `slots` modules, all of its slot
/// type, never oversubscribes the remaining budgets, and spends exactly
/// the difference between the budgets before and after.
pub proof fn lemma_fill_state_sound(
    pool: Seq<ModuleView>,
    used: Seq<bool>,
    st: SlotType,
    slots: nat,
    pg_left: int,
    cpu_left: int,
    w: Weights,
)
    requires
        0 <= pg_left,
        0 <= cpu_left,
        forall|i: int|
            0 <= i < pool.len() ==> (#[trigger] pool[i]).power_grid_cost >= 0
                && pool[i].cpu_cost >= 0,
    ensures
        ({
            let r = spec_fill_state(pool, used, st, slots, pg_left, cpu_left, w);
            let sel = idxs_to_views(pool, r.0);
            &&& sel.len() <= slots
            &&& forall|i: int| 0 <= i < sel.len() ==> (#[trigger] sel[i]).slot_type == st
            &&& 0 <= r.2 <= pg_left
            &&& 0 <= r.3 <= cpu_left
            &&& crate::validator::spec_pg_used(sel) == pg_left - r.2
            &&& crate::validator::spec_cpu_used(sel) == cpu_left - r.3
        }),
    decreases slots,
{
    let r = spec_fill_state(pool, used, st, slots, pg_left, cpu_left, w);
    let sel = idxs_to_views(pool, r.0);
    if slots == 0 {
        assert(sel =~= Seq::<ModuleView>::empty());
    } else {
        match best_in(pool, used, st, pg_left, cpu_left, w, pool.len() as int) {
            Option::None => {
                assert(sel =~= Seq::<ModuleView>::empty());
            },
            Option::Some(j) => {
                lemma_best_in_usable(pool, used, st, pg_left, cpu_left, w, pool.len() as int);
                let rec = spec_fill_state(
                    pool,
                    used.update(j, true),
                    st,
                    (slots - 1) as nat,
                    pg_left - pool[j].power_grid_cost,
                    cpu_left - pool[j].cpu_cost,
                    w,
                );
                lemma_fill_state_sound(
                    pool,
                    used.update(j, true),
                    st,
                    (slots - 1) as nat,
                    pg_left - pool[j].power_grid_cost,
                    cpu_left - pool[j].cpu_cost,
                    w,
                );
                let rsel = idxs_to_views(pool, rec.0);
                assert(sel =~= seq![pool[j]] + rsel);
                lemma_resource_prepend(pool[j], rsel);
            },
        }
    }
}

/// The modules a variant selects always respect the ship's slot
/// capacities and stay within its powergrid and CPU budgets.
pub proof fn lemma_selection_respects_ship(ship: ShipView, pool: Seq<ModuleView>, w: Weights)
    requires
        0 <= ship.high_slots,
        0 <= ship.mid_slots,
        0 <= ship.low_slots,
        0 <= ship.rig_slots,
        0 <= ship.power_grid_budget,
        0 <= ship.cpu_budget,
        forall|i: int|
            0 <= i < pool.len() ==> (#[trigger] pool[i]).power_grid_cost >= 0
                && pool[i].cpu_cost >= 0,
    ensures
        ({
            let sel = spec_selected_modules(ship, pool, w);
            &&& crate::validator::spec_slot_count(sel, SlotType::High) <= ship.high_slots
            &&& crate::validator::spec_slot_count(sel, SlotType::Mid) <= ship.mid_slots
            &&& crate::validator::spec_slot_count(sel, SlotType::Low) <= ship.low_slots
            &&& crate::validator::spec_slot_count(sel, SlotType::Rig) <= ship.rig_slots
            &&& crate::validator::spec_pg_used(sel) <= ship.power_grid_budget
            &&& crate::validator::spec_cpu_used(sel) <= ship.cpu_budget
        }),
{
    let u0 = Seq::new(pool.len(), |i: int| false);
    let r1 = spec_fill_state(
        pool,
        u0,
        SlotType::High,
        ship.high_slots as nat,
        ship.power_grid_budget,
        ship.cpu_budget,
        w,
    );
    let r2 = spec_fill_state(pool, r1.1, SlotType::Mid, ship.mid_slots as nat, r1.2, r1.3, w);
    let r3 = spec_fill_state(pool, r2.1, SlotType::Low, ship.low_slots as nat, r2.2, r2.3, w);
    let r4 = spec_fill_state(pool, r3.1, SlotType::Rig, ship.rig_slots as nat, r3.2, r3.3, w);
    let v1 = idxs_to_views(pool, r1.0);
    let v2 = idxs_to_views(pool, r2.0);
    let v3 = idxs_to_views(pool, r3.0);
    let v4 = idxs_to_views(pool, r4.0);
    lemma_fill_state_sound(
        pool,
        u0,
        SlotType::High,
        ship.high_slots as nat,
        ship.power_grid_budget,
        ship.cpu_budget,
        w,
    );
    lemma_fill_state_sound(pool, r1.1, SlotType::Mid, ship.mid_slots as nat, r1.2, r1.3, w);
    lemma_fill_state_sound(pool, r2.1, SlotType::Low, ship.low_slots as nat, r2.2, r2.3, w);
    lemma_fill_state_sound(pool, r3.1, SlotType::Rig, ship.rig_slots as nat, r3.2, r3.3, w);
    lemma_slot_count_uniform(v1, SlotType::High);
    lemma_slot_count_uniform(v2, SlotType::Mid);
    lemma_slot_count_uniform(v3, SlotType::Low);
    lemma_slot_count_uniform(v4, SlotType::Rig);
    let sel = spec_selected_modules(ship, pool, w);
    assert(sel =~= v1 + v2 + v3 + v4) by {
        assert(idxs_to_views(pool, r1.0 + r2.0 + r3.0 + r4.0) =~= v1 + v2 + v3 + v4);
    }
    lemma_resource_concat(v1, v2);
    lemma_resource_concat(v1 + v2, v3);
    lemma_resource_concat(v1 + v2 + v3, v4);
}

} // verus!
