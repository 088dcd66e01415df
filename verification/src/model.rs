//! Data model of the fit recommendation and skill planning engine:
//! skills, skill requirements, modules, ships, fit variants, validation
//! results and skill plan entries, together with their spec-level views.

use vstd::prelude::*;

verus! {

/// Category of module mounting point; each ship has a per-type capacity.
#[derive(Clone, Copy, Debug, PartialEq, Eq, Structural)]
pub enum SlotType {
    High,
    Mid,
    Low,
    Rig,
}

/// Ship size classes, totally ordered from Frigate up to Battleship.
#[derive(Clone, Copy, Debug, PartialEq, Eq, Structural)]
pub enum ShipTier {
    Frigate,
    Destroyer,
    Cruiser,
    Battlecruiser,
    Battleship,
}

/// Position of a tier in the total order Frigate < Destroyer < Cruiser
/// < Battlecruiser < Battleship.
pub open spec fn tier_rank(t: ShipTier) -> int {
    match t {
        ShipTier::Frigate => 0,
        ShipTier::Destroyer => 1,
        ShipTier::Cruiser => 2,
        ShipTier::Battlecruiser => 3,
        ShipTier::Battleship => 4,
    }
}

/// Executable counterpart of `tier_rank`.
pub fn tier_rank_exec(t: ShipTier) -> (r: u32)
    ensures
        r as int == tier_rank(t),
{
    match t {
        ShipTier::Frigate => 0,
        ShipTier::Destroyer => 1,
        ShipTier::Cruiser => 2,
        ShipTier::Battlecruiser => 3,
        ShipTier::Battleship => 4,
    }
}

/// The tier with the given rank, for ranks 0 to 4.
pub open spec fn tier_of_rank(r: int) -> ShipTier {
    if r == 0 {
        ShipTier::Frigate
    } else if r == 1 {
        ShipTier::Destroyer
    } else if r == 2 {
        ShipTier::Cruiser
    } else if r == 3 {
        ShipTier::Battlecruiser
    } else {
        ShipTier::Battleship
    }
}

/// Activity tags a fit can be optimized for.
#[derive(Clone, Copy, Debug, PartialEq, Eq, Structural)]
pub enum Activity {
    MissionRunning,
    PvP,
    Mining,
    Exploration,
    Industrial,
}

/// A pilot skill as reported by the session provider.
#[derive(Debug)]
pub struct Skill {
    pub skill_id: i64,
    pub skill_name: Option<String>,
    pub active_level: i32,
}

/// Spec-level value of a `Skill`.
pub ghost struct SkillView {
    pub skill_id: int,
    pub skill_name: Option<Seq<char>>,
    pub active_level: int,
}

impl View for Skill {
    type V = SkillView;

    open spec fn view(&self) -> SkillView {
        SkillView {
            skill_id: self.skill_id as int,
            skill_name: match self.skill_name {
                Some(n) => Some(n@),
                None => None,
            },
            active_level: self.active_level as int,
        }
    }
}

impl Clone for Skill {
    fn clone(&self) -> (r: Self)
        ensures
            r@ == self@,
    {
        Skill {
            skill_id: self.skill_id,
            skill_name: match &self.skill_name {
                Some(n) => Some(n.clone()),
                None => None,
            },
            active_level: self.active_level,
        }
    }
}

/// One skill requirement carried by a ship or module catalog entry.
#[derive(Debug)]
pub struct SkillRequirement {
    pub skill_id: i64,
    pub name: String,
    pub required_level: i32,
}

/// Spec-level value of a `SkillRequirement`.
pub ghost struct ReqView {
    pub skill_id: int,
    pub name: Seq<char>,
    pub required_level: int,
}

impl View for SkillRequirement {
    type V = ReqView;

    open spec fn view(&self) -> ReqView {
        ReqView {
            skill_id: self.skill_id as int,
            name: self.name@,
            required_level: self.required_level as int,
        }
    }
}

impl Clone for SkillRequirement {
    fn clone(&self) -> (r: Self)
        ensures
            r@ == self@,
    {
        SkillRequirement {
            skill_id: self.skill_id,
            name: self.name.clone(),
            required_level: self.required_level,
        }
    }
}

/// The views of a sequence of requirements.
pub open spec fn req_views(s: Seq<SkillRequirement>) -> Seq<ReqView> {
    s.map_values(|r: SkillRequirement| r@)
}

/// The views of a sequence of skills.
pub open spec fn skill_views(s: Seq<Skill>) -> Seq<SkillView> {
    s.map_values(|k: Skill| k@)
}

/// A fittable module from the static catalog, with its mounting slot,
/// resource costs, contribution metrics and skill requirements.
#[derive(Debug)]
pub struct Module {
    pub module_id: i64,
    pub module_name: String,
    pub slot_type: SlotType,
    pub power_grid_cost: u32,
    pub cpu_cost: u32,
    pub damage: u32,
    pub tank: u32,
    pub cap_delta: i32,
    pub utility: u32,
    pub required_skills: Vec<SkillRequirement>,
}

/// Spec-level value of a `Module`.
pub ghost struct ModuleView {
    pub module_id: int,
    pub module_name: Seq<char>,
    pub slot_type: SlotType,
    pub power_grid_cost: int,
    pub cpu_cost: int,
    pub damage: int,
    pub tank: int,
    pub cap_delta: int,
    pub utility: int,
    pub required_skills: Seq<ReqView>,
}

impl View for Module {
    type V = ModuleView;

    open spec fn view(&self) -> ModuleView {
        ModuleView {
            module_id: self.module_id as int,
            module_name: self.module_name@,
            slot_type: self.slot_type,
            power_grid_cost: self.power_grid_cost as int,
            cpu_cost: self.cpu_cost as int,
            damage: self.damage as int,
            tank: self.tank as int,
            cap_delta: self.cap_delta as int,
            utility: self.utility as int,
            required_skills: req_views(self.required_skills@),
        }
    }
}

/// The views of a sequence of modules.
pub open spec fn module_views(s: Seq<Module>) -> Seq<ModuleView> {
    s.map_values(|m: Module| m@)
}

impl Clone for Module {
    fn clone(&self) -> (r: Self)
        ensures
            r@ == self@,
    {
        let reqs = self.required_skills.clone();
        proof {
            assert(req_views(reqs@) =~= req_views(self.required_skills@));
        }
        Module {
            module_id: self.module_id,
            module_name: self.module_name.clone(),
            slot_type: self.slot_type,
            power_grid_cost: self.power_grid_cost,
            cpu_cost: self.cpu_cost,
            damage: self.damage,
            tank: self.tank,
            cap_delta: self.cap_delta,
            utility: self.utility,
            required_skills: reqs,
        }
    }
}

/// A flyable hull from the static catalog, with its tier, slot capacities,
/// resource budgets and skill requirements.
#[derive(Debug)]
pub struct Ship {
    pub ship_id: i64,
    pub ship_name: String,
    pub tier: ShipTier,
    pub high_slots: u32,
    pub mid_slots: u32,
    pub low_slots: u32,
    pub rig_slots: u32,
    pub power_grid_budget: u32,
    pub cpu_budget: u32,
    pub required_skills: Vec<SkillRequirement>,
}

/// Spec-level value of a `Ship`.
pub ghost struct ShipView {
    pub ship_id: int,
    pub ship_name: Seq<char>,
    pub tier: ShipTier,
    pub high_slots: int,
    pub mid_slots: int,
    pub low_slots: int,
    pub rig_slots: int,
    pub power_grid_budget: int,
    pub cpu_budget: int,
    pub required_skills: Seq<ReqView>,
}

impl View for Ship {
    type V = ShipView;

    open spec fn view(&self) -> ShipView {
        ShipView {
            ship_id: self.ship_id as int,
            ship_name: self.ship_name@,
            tier: self.tier,
            high_slots: self.high_slots as int,
            mid_slots: self.mid_slots as int,
            low_slots: self.low_slots as int,
            rig_slots: self.rig_slots as int,
            power_grid_budget: self.power_grid_budget as int,
            cpu_budget: self.cpu_budget as int,
            required_skills: req_views(self.required_skills@),
        }
    }
}

/// The views of a sequence of ships.
pub open spec fn ship_views(s: Seq<Ship>) -> Seq<ShipView> {
    s.map_values(|h: Ship| h@)
}

impl Clone for Ship {
    fn clone(&self) -> (r: Self)
        ensures
            r@ == self@,
    {
        let reqs = self.required_skills.clone();
        proof {
            assert(req_views(reqs@) =~= req_views(self.required_skills@));
        }
        Ship {
            ship_id: self.ship_id,
            ship_name: self.ship_name.clone(),
            tier: self.tier,
            high_slots: self.high_slots,
            mid_slots: self.mid_slots,
            low_slots: self.low_slots,
            rig_slots: self.rig_slots,
            power_grid_budget: self.power_grid_budget,
            cpu_budget: self.cpu_budget,
            required_skills: reqs,
        }
    }
}

/// The capacity a ship offers for one slot type.
pub open spec fn slot_capacity(ship: ShipView, st: SlotType) -> int {
    match st {
        SlotType::High => ship.high_slots,
        SlotType::Mid => ship.mid_slots,
        SlotType::Low => ship.low_slots,
        SlotType::Rig => ship.rig_slots,
    }
}

/// Executable counterpart of `slot_capacity`.
pub fn slot_capacity_exec(ship: &Ship, st: SlotType) -> (r: u32)
    ensures
        r as int == slot_capacity(ship@, st),
{
    match st {
        SlotType::High => ship.high_slots,
        SlotType::Mid => ship.mid_slots,
        SlotType::Low => ship.low_slots,
        SlotType::Rig => ship.rig_slots,
    }
}

/// A candidate ship loadout: a named variant of a ship together with the
/// modules installed on it and the reasoning behind the selection.
#[derive(Debug)]
pub struct FitVariant {
    pub fit_name: String,
    pub ship: Ship,
    pub modules: Vec<Module>,
    pub rationale: String,
}

/// Spec-level value of a `FitVariant`.
pub ghost struct FitView {
    pub fit_name: Seq<char>,
    pub ship: ShipView,
    pub modules: Seq<ModuleView>,
    pub rationale: Seq<char>,
}

impl View for FitVariant {
    type V = FitView;

    open spec fn view(&self) -> FitView {
        FitView {
            fit_name: self.fit_name@,
            ship: self.ship@,
            modules: module_views(self.modules@),
            rationale: self.rationale@,
        }
    }
}

/// Outcome of validating a fit: overall verdict, one line per violated
/// hard constraint, and one line per soft warning.
#[derive(Debug)]
pub struct FitValidation {
    pub is_valid: bool,
    pub missing_requirements: Vec<String>,
    pub warnings: Vec<String>,
}

/// Spec-level value of a `FitValidation`.
pub ghost struct ValidationView {
    pub is_valid: bool,
    pub missing_requirements: Seq<Seq<char>>,
    pub warnings: Seq<Seq<char>>,
}

/// The views of a sequence of strings.
pub open spec fn string_views(s: Seq<String>) -> Seq<Seq<char>> {
    s.map_values(|t: String| t@)
}

impl View for FitValidation {
    type V = ValidationView;

    open spec fn view(&self) -> ValidationView {
        ValidationView {
            is_valid: self.is_valid,
            missing_requirements: string_views(self.missing_requirements@),
            warnings: string_views(self.warnings@),
        }
    }
}

/// One line of a skill training plan: a skill the user must raise from
/// `current_level` to `required_level`.
#[derive(Debug)]
pub struct SkillPlanEntry {
    pub skill_id: i64,
    pub name: String,
    pub required_level: i32,
    pub current_level: i32,
}

/// Spec-level value of a `SkillPlanEntry`.
pub ghost struct PlanEntryView {
    pub skill_id: int,
    pub name: Seq<char>,
    pub required_level: int,
    pub current_level: int,
}

impl View for SkillPlanEntry {
    type V = PlanEntryView;

    open spec fn view(&self) -> PlanEntryView {
        PlanEntryView {
            skill_id: self.skill_id as int,
            name: self.name@,
            required_level: self.required_level as int,
            current_level: self.current_level as int,
        }
    }
}

/// The views of a sequence of plan entries.
pub open spec fn entry_views(s: Seq<SkillPlanEntry>) -> Seq<PlanEntryView> {
    s.map_values(|e: SkillPlanEntry| e@)
}

/// The views of a sequence of fit variants.
pub open spec fn fit_views(s: Seq<FitVariant>) -> Seq<FitView> {
    s.map_values(|f: FitVariant| f@)
}

} // verus!
