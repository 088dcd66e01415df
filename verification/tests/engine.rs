//! Tests for the fit recommendation and skill planning engine.

use eveonline_helper::model::{
    Activity, FitVariant, Module, Ship, ShipTier, Skill, SkillPlanEntry, SkillRequirement,
    SlotType,
};
use eveonline_helper::alternatives::suggest_alternative_fits;
use eveonline_helper::export::export_skill_plan_evemon;
use eveonline_helper::generator::generate_fit_variants;
use eveonline_helper::plan::generate_skill_plan_for_fit;
use eveonline_helper::progression::suggest_next_ship_tier;
use eveonline_helper::recommend::get_fit_recommendations;
use eveonline_helper::skills::match_skills_to_ships_and_modules;
use eveonline_helper::validator::validate_fit;

fn req(skill_id: i64, name: &str, required_level: i32) -> SkillRequirement {
    SkillRequirement { skill_id, name: name.to_string(), required_level }
}

fn skill(skill_id: i64, name: &str, active_level: i32) -> Skill {
    Skill { skill_id, skill_name: Some(name.to_string()), active_level }
}

fn module(
    module_id: i64,
    name: &str,
    slot_type: SlotType,
    power_grid_cost: u32,
    cpu_cost: u32,
    damage: u32,
    tank: u32,
    cap_delta: i32,
    utility: u32,
    required_skills: Vec<SkillRequirement>,
) -> Module {
    Module {
        module_id,
        module_name: name.to_string(),
        slot_type,
        power_grid_cost,
        cpu_cost,
        damage,
        tank,
        cap_delta,
        utility,
        required_skills,
    }
}

fn ship(
    ship_id: i64,
    name: &str,
    tier: ShipTier,
    slots: (u32, u32, u32, u32),
    power_grid_budget: u32,
    cpu_budget: u32,
    required_skills: Vec<SkillRequirement>,
) -> Ship {
    Ship {
        ship_id,
        ship_name: name.to_string(),
        tier,
        high_slots: slots.0,
        mid_slots: slots.1,
        low_slots: slots.2,
        rig_slots: slots.3,
        power_grid_budget,
        cpu_budget,
        required_skills,
    }
}

#[test]
fn test_match_skills_to_ships_and_modules() {
    let skills = vec![skill(500, "Frigates", 3)];
    let ships = vec![
        ship(1, "Open Hull", ShipTier::Frigate, (1, 1, 1, 0), 100, 100, vec![]),
        ship(2, "Locked Hull", ShipTier::Frigate, (1, 1, 1, 0), 100, 100, vec![req(
            500,
            "Frigates",
            5,
        )]),
        ship(3, "Trained Hull", ShipTier::Frigate, (1, 1, 1, 0), 100, 100, vec![req(
            500,
            "Frigates",
            3,
        )]),
    ];
    let modules = vec![
        module(10, "Open Gun", SlotType::High, 5, 5, 10, 0, 0, 0, vec![]),
        module(11, "Locked Gun", SlotType::High, 5, 5, 20, 0, 0, 0, vec![req(
            501,
            "Gunnery",
            1,
        )]),
    ];
    let (eligible_ships, eligible_modules) =
        match_skills_to_ships_and_modules(&skills, &ships, &modules);
    // Items with no requirements are always kept; an unmet requirement
    // always excludes; an exactly met one is kept.
    let ship_ids: Vec<i64> = eligible_ships.iter().map(|s| s.ship_id).collect();
    assert_eq!(ship_ids, vec![1, 3]);
    let module_ids: Vec<i64> = eligible_modules.iter().map(|m| m.module_id).collect();
    assert_eq!(module_ids, vec![10]);
}

#[test]
fn eligibility_keeps_unrequired_items_for_any_user() {
    let no_skills: Vec<Skill> = vec![];
    let ships = vec![ship(7, "Bare Hull", ShipTier::Frigate, (1, 0, 0, 0), 10, 10, vec![])];
    let modules = vec![module(70, "Bare Gun", SlotType::High, 1, 1, 1, 0, 0, 0, vec![])];
    let (es, em) = match_skills_to_ships_and_modules(&no_skills, &ships, &modules);
    assert_eq!(es.len(), 1);
    assert_eq!(em.len(), 1);
}

fn sample_ship() -> Ship {
    ship(100, "Testbed", ShipTier::Frigate, (2, 2, 1, 1), 100, 100, vec![])
}

fn sample_pool() -> Vec<Module> {
    vec![
        module(1, "Light Gun", SlotType::High, 10, 10, 30, 0, -4, 0, vec![]),
        module(2, "Heavy Gun", SlotType::High, 30, 25, 70, 0, -10, 0, vec![]),
        module(3, "Shield", SlotType::Mid, 15, 20, 0, 50, -6, 0, vec![]),
        module(4, "Battery", SlotType::Mid, 10, 10, 0, 10, 25, 0, vec![]),
        module(5, "Plate", SlotType::Low, 20, 5, 0, 40, 0, 0, vec![]),
        module(6, "Rig Screen", SlotType::Rig, 5, 5, 0, 15, 0, 0, vec![]),
        module(7, "Miner", SlotType::High, 12, 18, 2, 0, -5, 60, vec![]),
    ]
}

#[test]
fn test_generate_fit_variants() {
    let s = sample_ship();
    let pool = sample_pool();
    let fits = generate_fit_variants(&s, Activity::MissionRunning, &pool);
    // Exactly five variants, with distinct objective labels.
    assert_eq!(fits.len(), 5);
    let names: Vec<&str> = fits.iter().map(|f| f.fit_name.as_str()).collect();
    assert_eq!(names, vec!["Max DPS", "Max Tank", "Balanced", "Cap Stable", "Activity Optimized"]);
    for a in 0..fits.len() {
        for b in (a + 1)..fits.len() {
            assert_ne!(fits[a].fit_name, fits[b].fit_name);
        }
    }
    // Every variant keeps the ship and respects its slot capacities.
    for f in &fits {
        assert_eq!(f.ship.ship_id, 100);
        let highs = f.modules.iter().filter(|m| m.slot_type == SlotType::High).count();
        let mids = f.modules.iter().filter(|m| m.slot_type == SlotType::Mid).count();
        let lows = f.modules.iter().filter(|m| m.slot_type == SlotType::Low).count();
        let rigs = f.modules.iter().filter(|m| m.slot_type == SlotType::Rig).count();
        assert!(highs <= 2 && mids <= 2 && lows <= 1 && rigs <= 1);
        let pg: u64 = f.modules.iter().map(|m| m.power_grid_cost as u64).sum();
        let cpu: u64 = f.modules.iter().map(|m| m.cpu_cost as u64).sum();
        assert!(pg <= 100 && cpu <= 100);
    }
}

#[test]
fn fit_generation_is_deterministic() {
    let s = sample_ship();
    let pool = sample_pool();
    let first = generate_fit_variants(&s, Activity::PvP, &pool);
    let second = generate_fit_variants(&s, Activity::PvP, &pool);
    assert_eq!(first.len(), second.len());
    for (a, b) in first.iter().zip(second.iter()) {
        assert_eq!(a.fit_name, b.fit_name);
        assert_eq!(a.rationale, b.rationale);
        let ids_a: Vec<i64> = a.modules.iter().map(|m| m.module_id).collect();
        let ids_b: Vec<i64> = b.modules.iter().map(|m| m.module_id).collect();
        assert_eq!(ids_a, ids_b);
    }
}

#[test]
fn max_dps_variant_prefers_damage_ratio() {
    let s = sample_ship();
    let pool = sample_pool();
    let fits = generate_fit_variants(&s, Activity::MissionRunning, &pool);
    let max_dps = &fits[0];
    // Both high slots are filled, and the better damage-per-cost gun
    // (Light Gun: 30 damage for cost 20) is picked before the Heavy Gun.
    let high_ids: Vec<i64> = max_dps
        .modules
        .iter()
        .filter(|m| m.slot_type == SlotType::High)
        .map(|m| m.module_id)
        .collect();
    assert_eq!(high_ids, vec![1, 2]);
}

#[test]
fn test_validate_fit() {
    let skills = vec![skill(500, "Frigates", 3)];
    let hull = ship(100, "Testbed", ShipTier::Frigate, (1, 1, 1, 1), 50, 50, vec![req(
        500,
        "Frigates",
        2,
    )]);
    // A fit with two high modules on a one-high-slot hull is invalid.
    let over_slots = FitVariant {
        fit_name: "Overloaded".to_string(),
        ship: hull,
        modules: vec![
            module(1, "Gun A", SlotType::High, 5, 5, 10, 0, 0, 0, vec![]),
            module(2, "Gun B", SlotType::High, 5, 5, 10, 0, 0, 0, vec![]),
        ],
        rationale: String::new(),
    };
    let v = validate_fit(&over_slots, &skills);
    assert!(!v.is_valid);
    assert!(v.missing_requirements.iter().any(|l| l == "Too many High slot modules"));

    // A fit over the powergrid budget is invalid even with free slots.
    let hull2 = ship(101, "Testbed II", ShipTier::Frigate, (2, 1, 1, 1), 10, 50, vec![]);
    let over_pg = FitVariant {
        fit_name: "Hungry".to_string(),
        ship: hull2,
        modules: vec![module(3, "Big Gun", SlotType::High, 11, 1, 10, 0, 0, 0, vec![])],
        rationale: String::new(),
    };
    let v2 = validate_fit(&over_pg, &skills);
    assert!(!v2.is_valid);
    assert!(v2.missing_requirements.iter().any(|l| l == "Insufficient powergrid"));

    // A compliant fit with all skills met is valid and lists nothing.
    let hull3 = ship(102, "Testbed III", ShipTier::Frigate, (1, 1, 1, 1), 50, 50, vec![req(
        500,
        "Frigates",
        2,
    )]);
    let fine = FitVariant {
        fit_name: "Fine".to_string(),
        ship: hull3,
        modules: vec![module(4, "Gun C", SlotType::High, 5, 5, 10, 0, 1, 0, vec![])],
        rationale: String::new(),
    };
    let v3 = validate_fit(&fine, &skills);
    assert!(v3.is_valid);
    assert!(v3.missing_requirements.is_empty());
}

#[test]
fn validator_reports_unmet_skills_and_warnings() {
    let skills: Vec<Skill> = vec![];
    let hull = ship(103, "Demanding", ShipTier::Frigate, (1, 1, 1, 1), 100, 100, vec![req(
        600,
        "Navigation",
        4,
    )]);
    let fit = FitVariant {
        fit_name: "Thirsty".to_string(),
        ship: hull,
        modules: vec![module(5, "Drain", SlotType::High, 96, 10, 10, 0, -5, 0, vec![])],
        rationale: String::new(),
    };
    let v = validate_fit(&fit, &skills);
    assert!(!v.is_valid);
    assert!(v.missing_requirements.iter().any(|l| l == "Navigation Level 4"));
    // Soft issues: under 5% powergrid margin and negative capacitor.
    assert!(v.warnings.iter().any(|l| l == "Low powergrid margin"));
    assert!(v.warnings.iter().any(|l| l == "Negative capacitor balance"));
}

#[test]
fn test_suggest_alternative_fits() {
    let skills: Vec<Skill> = vec![];
    let hull = ship(100, "Testbed", ShipTier::Frigate, (1, 1, 1, 1), 50, 50, vec![]);
    // The fitted gun demands Gunnery 3, which the user lacks.
    let bad = FitVariant {
        fit_name: "Max DPS".to_string(),
        ship: hull,
        modules: vec![module(1, "Elite Gun", SlotType::High, 10, 10, 50, 0, 0, 0, vec![req(
            700,
            "Gunnery",
            3,
        )])],
        rationale: String::new(),
    };
    let pool = vec![
        module(2, "Plain Gun", SlotType::High, 5, 5, 20, 0, 0, 0, vec![]),
        module(3, "Shield", SlotType::Mid, 5, 5, 0, 10, 0, 0, vec![]),
    ];
    let alts = suggest_alternative_fits(&bad, &skills, &pool);
    assert_eq!(alts.len(), 1);
    let repaired = &alts[0];
    let ids: Vec<i64> = repaired.modules.iter().map(|m| m.module_id).collect();
    assert_eq!(ids, vec![2]);
    // Every suggested alternative passes the validator itself.
    for alt in &alts {
        let v = validate_fit(alt, &skills);
        assert!(v.is_valid);
    }
}

#[test]
fn no_alternative_is_suggested_without_a_valid_repair() {
    let skills: Vec<Skill> = vec![];
    let hull = ship(100, "Testbed", ShipTier::Frigate, (1, 1, 1, 1), 50, 50, vec![]);
    let bad = FitVariant {
        fit_name: "Max DPS".to_string(),
        ship: hull,
        modules: vec![module(1, "Elite Gun", SlotType::High, 10, 10, 50, 0, 0, 0, vec![req(
            700,
            "Gunnery",
            3,
        )])],
        rationale: String::new(),
    };
    // The only same-slot candidate also demands a skill the user lacks.
    let pool = vec![module(2, "Other Gun", SlotType::High, 5, 5, 20, 0, 0, 0, vec![req(
        701,
        "Sharpshooting",
        2,
    )])];
    let alts = suggest_alternative_fits(&bad, &skills, &pool);
    assert!(alts.is_empty());
}

#[test]
fn test_generate_skill_plan_for_fit() {
    // The ship demands Spaceship Command 4; its one module demands
    // Engineering 3. The user flies with Spaceship Command 2 only.
    let fit = FitVariant {
        fit_name: "Test Fit".to_string(),
        ship: ship(1, "Test Ship", ShipTier::Frigate, (1, 1, 1, 0), 50, 50, vec![req(
            333,
            "Spaceship Command",
            4,
        )]),
        modules: vec![module(10, "Test Module", SlotType::High, 5, 5, 10, 0, 0, 0, vec![req(
            444,
            "Engineering",
            3,
        )])],
        rationale: "Test rationale".to_string(),
    };
    let user_skills = vec![skill(333, "Spaceship Command", 2)];
    let plan = generate_skill_plan_for_fit(&fit, &user_skills);
    assert_eq!(plan.len(), 2);
    assert!(plan.iter().any(|e| e.skill_id == 333
        && e.name == "Spaceship Command"
        && e.required_level == 4
        && e.current_level == 2));
    assert!(plan.iter().any(|e| e.skill_id == 444
        && e.name == "Engineering"
        && e.required_level == 3
        && e.current_level == 0));
}

#[test]
fn skill_plan_dedup_keeps_highest_level_once() {
    // Two sources demand the same skill at levels 3 and 4: the plan
    // holds it exactly once, at level 4.
    let fit = FitVariant {
        fit_name: "Dedup".to_string(),
        ship: ship(1, "Hull", ShipTier::Frigate, (2, 0, 0, 0), 50, 50, vec![req(
            555,
            "Gunnery",
            3,
        )]),
        modules: vec![module(10, "Gun", SlotType::High, 5, 5, 10, 0, 0, 0, vec![req(
            555,
            "Gunnery",
            4,
        )])],
        rationale: String::new(),
    };
    let plan = generate_skill_plan_for_fit(&fit, &vec![]);
    assert_eq!(plan.len(), 1);
    assert_eq!(plan[0].skill_id, 555);
    assert_eq!(plan[0].required_level, 4);
    assert_eq!(plan[0].current_level, 0);
}

#[test]
fn skill_plan_orders_ship_entries_before_module_entries() {
    // The ship-derived skill has the larger id, yet still comes first.
    let fit = FitVariant {
        fit_name: "Order".to_string(),
        ship: ship(1, "Hull", ShipTier::Frigate, (1, 0, 0, 0), 50, 50, vec![req(
            900,
            "Command",
            2,
        )]),
        modules: vec![module(10, "Gun", SlotType::High, 5, 5, 10, 0, 0, 0, vec![req(
            100,
            "Gunnery",
            2,
        )])],
        rationale: String::new(),
    };
    let plan = generate_skill_plan_for_fit(&fit, &vec![]);
    let ids: Vec<i64> = plan.iter().map(|e| e.skill_id).collect();
    assert_eq!(ids, vec![900, 100]);
}

#[test]
fn empty_skill_plan_means_flyable() {
    let fit = FitVariant {
        fit_name: "Ready".to_string(),
        ship: ship(1, "Hull", ShipTier::Frigate, (1, 0, 0, 0), 50, 50, vec![req(
            333,
            "Spaceship Command",
            2,
        )]),
        modules: vec![],
        rationale: String::new(),
    };
    let user_skills = vec![skill(333, "Spaceship Command", 3)];
    let plan = generate_skill_plan_for_fit(&fit, &user_skills);
    assert!(plan.is_empty());
}

#[test]
fn test_export_skill_plan_evemon() {
    let plan = vec![
        SkillPlanEntry {
            skill_id: 333,
            name: "Spaceship Command".to_string(),
            required_level: 4,
            current_level: 2,
        },
        SkillPlanEntry {
            skill_id: 444,
            name: "Engineering".to_string(),
            required_level: 3,
            current_level: 0,
        },
    ];
    let export = export_skill_plan_evemon(&plan);
    let expected = "Spaceship Command Level 4\nEngineering Level 3";
    assert_eq!(export, expected);
}

#[test]
fn export_of_empty_plan_is_empty() {
    let plan: Vec<SkillPlanEntry> = vec![];
    assert_eq!(export_skill_plan_evemon(&plan), "");
}

#[test]
fn progression_from_frigates_suggests_destroyer() {
    let skills = vec![skill(500, "Frigates", 3)];
    let eligible = vec![ship(1, "Starter", ShipTier::Frigate, (1, 1, 1, 0), 10, 10, vec![])];
    let catalog = vec![
        ship(1, "Starter", ShipTier::Frigate, (1, 1, 1, 0), 10, 10, vec![]),
        ship(2, "Cutter", ShipTier::Destroyer, (2, 1, 1, 0), 20, 20, vec![req(
            510,
            "Destroyers",
            2,
        )]),
        ship(3, "Big Cutter", ShipTier::Destroyer, (2, 1, 1, 0), 20, 20, vec![req(
            510,
            "Destroyers",
            5,
        )]),
    ];
    let r = suggest_next_ship_tier(&skills, &eligible, &catalog);
    let (tier, chosen, missing) = r.expect("a next tier is owed below Battleship");
    assert_eq!(tier, ShipTier::Destroyer);
    // Ship 2 needs 2 training levels, ship 3 needs 5: the cheaper wins.
    assert_eq!(chosen.ship_id, 2);
    assert_eq!(missing.len(), 1);
    assert_eq!(missing[0].skill_id, 510);
    assert_eq!(missing[0].required_level, 2);
}

#[test]
fn progression_at_battleship_returns_none() {
    let skills: Vec<Skill> = vec![];
    let eligible = vec![ship(9, "Flagship", ShipTier::Battleship, (8, 6, 6, 3), 900, 700, vec![])];
    let catalog = vec![ship(9, "Flagship", ShipTier::Battleship, (8, 6, 6, 3), 900, 700, vec![])];
    assert!(suggest_next_ship_tier(&skills, &eligible, &catalog).is_none());
}

#[test]
fn progression_with_no_eligible_ship_starts_at_frigate() {
    let skills: Vec<Skill> = vec![];
    let eligible: Vec<Ship> = vec![];
    let catalog = vec![
        ship(4, "Trainer", ShipTier::Frigate, (1, 1, 1, 0), 10, 10, vec![]),
        ship(5, "Cutter", ShipTier::Destroyer, (2, 1, 1, 0), 20, 20, vec![]),
    ];
    let r = suggest_next_ship_tier(&skills, &eligible, &catalog);
    let (tier, chosen, missing) = r.expect("the first rung is owed");
    assert_eq!(tier, ShipTier::Frigate);
    assert_eq!(chosen.ship_id, 4);
    assert!(missing.is_empty());
}

#[test]
fn progression_ties_break_by_lower_ship_id() {
    let skills: Vec<Skill> = vec![];
    let eligible = vec![ship(1, "Starter", ShipTier::Frigate, (1, 1, 1, 0), 10, 10, vec![])];
    let catalog = vec![
        ship(22, "Late Cutter", ShipTier::Destroyer, (2, 1, 1, 0), 20, 20, vec![]),
        ship(21, "Early Cutter", ShipTier::Destroyer, (2, 1, 1, 0), 20, 20, vec![]),
    ];
    let r = suggest_next_ship_tier(&skills, &eligible, &catalog);
    let (_, chosen, _) = r.expect("a destroyer is owed");
    assert_eq!(chosen.ship_id, 21);
}

#[test]
fn recommendations_come_in_ship_id_order() {
    // Two eligible ships stand in the catalog with ids out of order:
    // the recommendations are re-sorted by ascending ship id, each
    // ship's five variants staying in objective order.
    let skills: Vec<Skill> = vec![];
    let ships = vec![
        ship(30, "Later Hull", ShipTier::Frigate, (1, 1, 1, 0), 50, 50, vec![]),
        ship(20, "Earlier Hull", ShipTier::Frigate, (1, 1, 1, 0), 50, 50, vec![]),
    ];
    let pool = vec![module(1, "Gun", SlotType::High, 5, 5, 10, 0, 0, 0, vec![])];
    let recs = get_fit_recommendations(&skills, &ships, &pool, Activity::PvP);
    assert_eq!(recs.len(), 10);
    let ids: Vec<i64> = recs.iter().map(|f| f.ship.ship_id).collect();
    assert_eq!(ids, vec![20, 20, 20, 20, 20, 30, 30, 30, 30, 30]);
    let first_names: Vec<&str> = recs[..5].iter().map(|f| f.fit_name.as_str()).collect();
    assert_eq!(
        first_names,
        vec!["Max DPS", "Max Tank", "Balanced", "Cap Stable", "Activity Optimized"]
    );
}

#[test]
fn recommendations_are_all_valid_and_eligible() {
    let skills = vec![skill(500, "Frigates", 3)];
    let ships = vec![
        ship(1, "Open Hull", ShipTier::Frigate, (2, 2, 1, 1), 100, 100, vec![]),
        ship(2, "Locked Hull", ShipTier::Frigate, (2, 2, 1, 1), 100, 100, vec![req(
            500,
            "Frigates",
            5,
        )]),
    ];
    let pool = sample_pool();
    let recs = get_fit_recommendations(&skills, &ships, &pool, Activity::MissionRunning);
    assert_eq!(recs.len(), 5);
    for fit in &recs {
        assert_eq!(fit.ship.ship_id, 1);
        let v = validate_fit(fit, &skills);
        assert!(v.is_valid);
    }
}
