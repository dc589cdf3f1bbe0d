use city_sim::city::City;
use city_sim::culture::{random_culture, Culture, Era};
use city_sim::dieties::Diety;
use city_sim::institutions::{
    founding_of_roll, generate_social, generate_temple, generate_underground, has_tag, has_title,
    random_institution, social_from, temple_from, underground_from, Founding, InsitutionCategory,
    Institution, ManagementSpecification, RoleDemand, StaffDefinition, TemplateDraw, Venture,
};
use city_sim::mind::{Gender, Mind, Sexuality};
use city_sim::personality::Personality;
use city_sim::physical_description::PhysicalDescription;
use city_sim::relations::Relations;
use rand::rngs::StdRng;
use rand::SeedableRng;
use std::collections::HashMap;

fn person(id: u128, age: u32) -> Mind {
    Mind {
        id,
        alive: true,
        first_name: format!("First{}", id),
        last_name: format!("Last{}", id),
        origional_last_name: format!("Last{}", id),
        age,
        gender: Gender::Male,
        sexuality: Sexuality::Asexual,
        relations: Relations::new(),
        description: PhysicalDescription {
            hair_colour: "brown".to_string(),
            hair_style: "short".to_string(),
            hair_adjective: "thick".to_string(),
            eye_colour: "grey".to_string(),
            height_adjective: "short".to_string(),
            build_adjective: "stout".to_string(),
        },
        personality: Personality { traits: vec![], thiest: false },
        dieties: vec![],
        employer: None,
        year_of_birth: 0,
    }
}

fn god(id: u128, name: &str, realm: &str) -> Diety {
    Diety {
        id,
        realms: vec![realm.to_string(), "other".to_string()],
        name: name.to_string(),
        form: "owl".to_string(),
        form2: "old owl".to_string(),
    }
}

fn culture(dieties: Vec<Diety>) -> Culture {
    Culture {
        id: 1,
        adult_age: 18,
        landlocked: false,
        staple_meats: vec![],
        staple_plants: vec![],
        avg_lifespan: 75,
        avg_lifespan_variance: 10,
        child_surname_formats: vec![],
        marriage_surname_formats: vec![],
        historical_names: vec![],
        dieties: dieties.into_iter().map(|d| (d.id, d)).collect(),
        era: Era::Medieval,
    }
}

fn city_of(minds: Vec<Mind>) -> City {
    let mut population = HashMap::new();
    for m in minds {
        population.insert(m.id, m);
    }
    City {
        id: 99,
        name: String::new(),
        culture: culture(vec![god(500, "Orun", "war")]),
        population,
        areas: HashMap::new(),
        institutions: HashMap::new(),
        year: 7,
    }
}

fn post(title: &str, reportee: &str, min: u32, max: u32) -> ManagementSpecification {
    ManagementSpecification {
        title: title.to_string(),
        reportee_types: vec![reportee.to_string()],
        min_reportees: min,
        max_reportees: max,
    }
}

fn staff(id: u128, title: &str) -> StaffDefinition {
    StaffDefinition { title: title.to_string(), employee_id: id, salary: 0, started_year: 0 }
}

fn kitchen(titles: &[&str]) -> Institution {
    let mut made = social_from(1000, "The Spoon".to_string(), true, false, false, false);
    for (i, t) in titles.iter().enumerate() {
        made.staff.insert(i as u128 + 1, staff(i as u128 + 1, t));
    }
    made
}

fn draw(name: &str, tags: &[&str]) -> TemplateDraw {
    TemplateDraw { name: name.to_string(), tags: tags.iter().map(|t| t.to_string()).collect() }
}

fn venture(n: usize) -> Venture {
    Venture {
        underworld: draw(&format!("Den {}", n), &["Fence"]),
        temple: draw(&format!("Altar {} of Diety, lord of Concept", n), &["Altar"]),
        social: draw(&format!("Inn {}", n), &["Social", "Food"]),
    }
}

fn assert_consistent(city: &City) {
    for a in city.citizens() {
        let m = city.citizen(a).unwrap();
        if let Some(e) = m.employer {
            let institution = city.institution_by_id(e).expect("an employer is missing");
            assert!(institution.entry_of(a).is_some());
        }
    }
    for i in city.institution_ids() {
        let institution = city.institution_by_id(i).unwrap();
        assert_eq!(institution.id, i);
        for (id, s) in &institution.staff {
            assert_eq!(s.employee_id, *id);
            assert_eq!(city.citizen(s.employee_id).unwrap().employer, Some(i));
        }
    }
}

// ---- what an institution is short of ----

#[test]
fn an_empty_institution_wants_base_staff() {
    assert_eq!(kitchen(&[]).open_role(), RoleDemand::Base);
}

#[test]
fn without_base_titles_nobody_is_wanted() {
    let made = social_from(1, "Bare".to_string(), false, false, false, false);
    assert_eq!(made.open_role(), RoleDemand::Nothing);
    let mut rng = StdRng::seed_from_u64(1);
    assert_eq!(made.next_role(&mut rng), None);
}

#[test]
fn reporting_staff_call_for_their_manager_first() {
    // one cook and no chef: the chef's post is short
    assert_eq!(kitchen(&["Cook"]).open_role(), RoleDemand::Manager(0));
    // one waiter and no manager: the second post is short
    assert_eq!(kitchen(&["Waiter"]).open_role(), RoleDemand::Manager(1));
    let mut rng = StdRng::seed_from_u64(1);
    assert_eq!(kitchen(&["Cook"]).next_role(&mut rng), Some("Chef".to_string()));
    assert_eq!(kitchen(&["Waiter"]).next_role(&mut rng), Some("Manager".to_string()));
}

#[test]
fn a_manager_takes_up_to_the_limit_of_the_post() {
    // a chef takes four cooks
    assert_eq!(kitchen(&["Chef", "Cook", "Cook", "Cook", "Cook"]).open_role(), RoleDemand::Base);
    // base capacity two and the chef's four: six base staff fill the house
    assert_eq!(
        kitchen(&["Chef", "Cook", "Cook", "Cook", "Cook", "Actor", "Actor"]).open_role(),
        RoleDemand::Nothing
    );
}

#[test]
fn a_post_short_of_a_holder_comes_before_base_staff() {
    // five cooks are more than one chef takes: a second chef is wanted
    let full = kitchen(&["Chef", "Cook", "Cook", "Cook", "Cook", "Cook"]);
    assert_eq!(full.open_role(), RoleDemand::Manager(0));
    // and so whatever the wealth of the house
    let mut rich = kitchen(&["Chef", "Cook", "Cook", "Cook", "Cook", "Cook"]);
    rich.wealth = 7;
    assert_eq!(rich.open_role(), RoleDemand::Manager(0));
    // a waiter wants a manager though the house has a chef
    assert_eq!(kitchen(&["Chef", "Waiter"]).open_role(), RoleDemand::Manager(1));
    // one minister and five priests: a second minister comes before a sixth priest
    let mut temple = temple_from(9, "Shrine".to_string(), 1);
    temple.staff.insert(1, staff(1, "Minister"));
    for i in 2..=6 {
        temple.staff.insert(i, staff(i, "Priest"));
    }
    assert_eq!(temple.open_role(), RoleDemand::Manager(0));
    let mut rng = StdRng::seed_from_u64(3);
    assert_eq!(temple.next_role(&mut rng), Some("Minister".to_string()));
    temple.staff.remove(&6);
    assert_eq!(temple.next_role(&mut rng), Some("Priest".to_string()));
}

#[test]
fn the_first_post_of_a_title_sets_the_limit() {
    // food and cinema both have a manager; the first takes four
    let mut made = social_from(1, "Both".to_string(), true, false, false, true);
    assert_eq!(made.management.len(), 3);
    made.staff.insert(1, staff(1, "Manager"));
    for i in 0..6 {
        made.staff.insert(10 + i, staff(10 + i, "Actor"));
    }
    // capacity two and four: six actors fill it
    assert_eq!(made.open_role(), RoleDemand::Nothing);
    made.staff.remove(&15);
    assert_eq!(made.open_role(), RoleDemand::Base);
}

#[test]
fn base_titles_are_drawn_from_the_list() {
    let house = kitchen(&[]);
    let mut seen = std::collections::HashSet::new();
    for seed in 0..40u64 {
        let mut rng = StdRng::seed_from_u64(seed);
        let title = house.next_role(&mut rng).unwrap();
        assert!(title == "Cook" || title == "Waiter");
        seen.insert(title);
    }
    assert_eq!(seen.len(), 2);
}

#[test]
fn role_for_follows_the_demand() {
    let house = kitchen(&[]);
    let mut rng = StdRng::seed_from_u64(1);
    assert_eq!(house.role_for(&mut rng, RoleDemand::Base).is_some(), true);
    assert_eq!(kitchen(&["Cook"]).role_for(&mut rng, RoleDemand::Manager(0)), Some("Chef".to_string()));
}

#[test]
fn titles_and_tags_are_found_by_their_text() {
    let titles = vec!["Cook".to_string(), "Waiter".to_string()];
    assert!(has_title(&titles, &"Waiter".to_string()));
    assert!(!has_title(&titles, &"waiter".to_string()));
    assert!(has_tag(&titles, "Cook"));
    assert!(!has_tag(&titles, "Coo"));
    assert!(!has_tag(&vec![], "Cook"));
}

// ---- founding ----

#[test]
fn the_sort_of_a_new_institution_follows_the_draw() {
    assert_eq!(founding_of_roll(0), Founding::Underworld);
    assert_eq!(founding_of_roll(199), Founding::Underworld);
    assert_eq!(founding_of_roll(200), Founding::Temple);
    assert_eq!(founding_of_roll(399), Founding::Temple);
    assert_eq!(founding_of_roll(400), Founding::Social);
    assert_eq!(founding_of_roll(999), Founding::Social);
}

#[test]
fn an_underworld_institution_is_a_fence_or_a_bar() {
    let fence = underground_from(5, "Den".to_string(), true);
    assert_eq!(fence.id, 5);
    assert_eq!(fence.name, "Den");
    assert_eq!(fence.category, InsitutionCategory::Underworld);
    assert_eq!(fence.base_job_titles, vec!["Shopkeeper"]);
    assert!(fence.management.is_empty() && fence.staff.is_empty());
    assert_eq!(fence.related_diety, None);
    assert_eq!(fence.wealth, 0);
    let bar = underground_from(6, "Bar".to_string(), false);
    assert_eq!(bar.base_job_titles, vec!["Waiter"]);
    assert_eq!(generate_underground(draw("A", &["Fence", "x"])).base_job_titles, vec!["Shopkeeper"]);
    assert_eq!(generate_underground(draw("A", &["SeedyBar"])).base_job_titles, vec!["Waiter"]);
}

#[test]
fn a_temple_has_priests_under_a_minister() {
    let temple = temple_from(5, "Shrine".to_string(), 77);
    assert_eq!(temple.category, InsitutionCategory::Altar);
    assert_eq!(temple.base_job_titles, vec!["Priest"]);
    assert_eq!(temple.management.len(), 1);
    assert_eq!(temple.management[0].title, "Minister");
    assert_eq!(temple.management[0].reportee_types, vec!["Priest"]);
    assert_eq!(temple.management[0].min_reportees, 1);
    assert_eq!(temple.management[0].max_reportees, 4);
    assert_eq!(temple.related_diety, Some(77));
}

#[test]
fn a_temple_is_named_after_its_deity() {
    let cult = culture(vec![god(500, "Orun", "war")]);
    let mut rng = StdRng::seed_from_u64(3);
    let temple =
        generate_temple(&mut rng, &cult, draw("Altar of Diety, lord of Concept", &["Altar"])).unwrap();
    assert_eq!(temple.name, "Altar of Orun, lord of war");
    assert_eq!(temple.related_diety, Some(500));
    let twice = generate_temple(&mut rng, &cult, draw("Concept Concept", &[])).unwrap();
    assert_eq!(twice.name, "war war");
    assert_ne!(twice.id, temple.id);
}

#[test]
fn no_temple_without_a_deity_or_a_realm() {
    let mut rng = StdRng::seed_from_u64(3);
    assert!(generate_temple(&mut rng, &culture(vec![]), draw("Altar", &[])).is_none());
    let mut nameless = god(1, "Nul", "x");
    nameless.realms = vec![];
    assert!(generate_temple(&mut rng, &culture(vec![nameless]), draw("Altar", &[])).is_none());
}

#[test]
fn a_social_institution_is_staffed_by_its_tags() {
    let inn = generate_social(draw("Inn", &["Social", "Food"]));
    assert_eq!(inn.base_job_titles, vec!["Cook", "Waiter"]);
    assert_eq!(
        inn.management.iter().map(|m| m.title.as_str()).collect::<Vec<_>>(),
        vec!["Chef", "Manager"]
    );
    let stage = generate_social(draw("Stage", &["Theater", "Music"]));
    assert_eq!(stage.base_job_titles, vec!["Actor", "Waiter"]);
    assert_eq!(
        stage.management.iter().map(|m| m.title.as_str()).collect::<Vec<_>>(),
        vec!["Stage Hand", "Musician"]
    );
    assert_eq!(stage.management[1].reportee_types, vec!["Actor"]);
    let cinema = generate_social(draw("Screen", &["Cinema"]));
    assert_eq!(cinema.base_job_titles, vec!["Waiter"]);
    assert_eq!(cinema.management[0].title, "Manager");
    assert_eq!(cinema.management[0].reportee_types, vec!["Shopkeeper"]);
    assert_eq!((cinema.management[0].min_reportees, cinema.management[0].max_reportees), (2, 6));
    let bare = generate_social(draw("Bare", &["Social"]));
    assert!(bare.base_job_titles.is_empty() && bare.management.is_empty());
    assert_eq!(bare.category, InsitutionCategory::Social);
    assert_eq!(bare.name, "Bare");
}

#[test]
fn test_name_gen() {
    let cult = culture(vec![god(500, "Orun", "war"), god(501, "Mab", "rain")]);
    let mut rng = StdRng::seed_from_u64(50);
    let mut sorts = std::collections::HashSet::new();
    let mut ids = std::collections::HashSet::new();
    for i in 0..50 {
        let inst = random_institution(&mut rng, &cult, venture(i)).unwrap();
        println!("{}", inst.name);
        assert!(inst.staff.is_empty());
        assert!(ids.insert(inst.id));
        if inst.name.starts_with("Den") {
            assert_eq!(inst.category, InsitutionCategory::Underworld);
            sorts.insert("underworld");
        } else if inst.name.starts_with("Inn") {
            sorts.insert("social");
        } else {
            assert!(inst.name.starts_with("Altar"));
            assert!(inst.name.ends_with("of Orun, lord of war") || inst.name.ends_with("of Mab, lord of rain"));
            sorts.insert("temple");
        }
    }
    assert_eq!(sorts.len(), 3);
}

#[test]
fn fresh_ids_are_random_uuids() {
    let a = generate_underground(draw("A", &[]));
    let b = generate_underground(draw("B", &[]));
    assert_ne!(a.id, b.id);
    for id in [a.id, b.id] {
        assert_eq!(id & 0x0000_0000_0000_F000_C000_0000_0000_0000, 0x0000_0000_0000_4000_8000_0000_0000_0000);
    }
}

// ---- hiring and letting go ----

fn staffed_city(houses: u128, each: u128) -> City {
    let mut city = city_of((1..=houses * each).map(|i| person(i, 30)).collect());
    for h in 0..houses {
        city.found(social_from(10_000 + h, format!("House {}", h), true, false, false, false));
        for k in 0..each {
            city.hire(h * each + k + 1, 10_000 + h, "Cook".to_string());
        }
    }
    city
}

#[test]
fn hire_puts_the_citizen_on_the_roster() {
    let mut city = city_of(vec![person(1, 30), person(2, 30)]);
    city.found(kitchen(&[]));
    city.hire(2, 1000, "Cook".to_string());
    assert_eq!(city.citizen(2).unwrap().employer, Some(1000));
    assert_eq!(city.citizen(1).unwrap().employer, None);
    let house = city.institution_by_id(1000).unwrap();
    assert_eq!(house.staff.len(), 1);
    let entry = house.entry_of(2).expect("the hire is on the roster");
    assert_eq!(entry.employee_id, 2);
    assert_eq!(entry.title, "Cook");
    assert_eq!(entry.salary, 0);
    assert_eq!(entry.started_year, 7);
    assert_eq!(house.staff_ids(), vec![2]);
    assert!(house.entry_of(1).is_none());
    assert_consistent(&city);
}

#[test]
fn the_last_of_the_staff_cannot_be_let_go() {
    let mut city = staffed_city(1, 2);
    assert!(city.dismiss(1));
    assert_eq!(city.citizen(1).unwrap().employer, None);
    assert_eq!(city.institution_by_id(10_000).unwrap().staff.len(), 1);
    assert!(!city.dismiss(2));
    assert_eq!(city.citizen(2).unwrap().employer, Some(10_000));
    assert_eq!(city.institution_by_id(10_000).unwrap().staff.len(), 1);
    assert!(!city.dismiss(1));
    assert_consistent(&city);
}

#[test]
fn firing_never_empties_an_institution() {
    for seed in 0..30u64 {
        let mut city = staffed_city(10, 10);
        let mut rng = StdRng::seed_from_u64(seed);
        city.fire_percentage(&mut rng, 5);
        let mut left = 0;
        for h in 0..10u128 {
            let staff = city.institution_by_id(10_000 + h).unwrap().staff.len();
            assert!(staff >= 1);
            left += staff;
        }
        // five in a hundred of a hundred employed
        assert_eq!(left, 95);
        assert_eq!(city.employed_citizens().len(), 95);
        assert_consistent(&city);
    }
}

#[test]
fn firing_everyone_leaves_one_in_each_institution() {
    let mut city = staffed_city(10, 10);
    let mut rng = StdRng::seed_from_u64(1);
    city.fire_percentage(&mut rng, 100);
    for h in 0..10u128 {
        assert_eq!(city.institution_by_id(10_000 + h).unwrap().staff.len(), 1);
    }
    city.fire_percentage(&mut rng, 100);
    city.fire_percentage(&mut rng, 1000);
    for h in 0..10u128 {
        assert_eq!(city.institution_by_id(10_000 + h).unwrap().staff.len(), 1);
    }
    assert_eq!(city.institution_ids().len(), 10);
    assert_consistent(&city);
}

#[test]
fn firing_nobody_changes_nothing() {
    let mut city = staffed_city(3, 4);
    let mut rng = StdRng::seed_from_u64(1);
    city.fire_percentage(&mut rng, 0);
    assert_eq!(city.employed_citizens().len(), 12);
    // five in a hundred of twelve is none
    city.fire_percentage(&mut rng, 5);
    assert_eq!(city.employed_citizens().len(), 12);
}

#[test]
fn firing_draws_different_staff_for_different_seeds() {
    let mut fired = std::collections::HashSet::new();
    for seed in 0..30u64 {
        let mut city = staffed_city(10, 10);
        let mut rng = StdRng::seed_from_u64(seed);
        city.fire_percentage(&mut rng, 5);
        for id in city.unemployed_citizens() {
            fired.insert(id);
        }
    }
    assert!(fired.len() > 40);
}

#[test]
fn the_unemployed_fill_what_is_open_before_anything_is_founded() {
    let mut city = city_of((1..=4).map(|i| person(i, 30)).collect());
    city.found(kitchen(&[]));
    let mut rng = StdRng::seed_from_u64(2);
    let mut ventures = vec![];
    city.fill_and_create_jobs(&mut rng, &mut ventures);
    // someone, then, if a cook came first, a chef, and so on while roles are open
    let house = city.institution_by_id(1000).unwrap();
    assert_eq!(house.staff.len(), 4);
    assert_eq!(city.institution_ids().len(), 1);
    assert!(city.unemployed_citizens().is_empty());
    for s in house.staff.values() {
        assert!(["Cook", "Waiter", "Chef", "Manager"].contains(&s.title.as_str()));
        assert_eq!(s.started_year, 7);
    }
    assert_consistent(&city);
}

#[test]
fn new_institutions_are_founded_where_nobody_hires() {
    for seed in 0..20u64 {
        let mut city = city_of((1..=40).map(|i| person(i, 30)).collect());
        let mut rng = StdRng::seed_from_u64(seed);
        let mut ventures: Vec<Venture> = (0..40).map(venture).collect();
        city.fill_and_create_jobs(&mut rng, &mut ventures);
        assert!(city.unemployed_citizens().is_empty());
        let houses = city.institution_ids();
        assert!(!houses.is_empty() && houses.len() < 40);
        assert_eq!(ventures.len() + houses.len(), 40);
        for h in houses {
            assert!(!city.institution_by_id(h).unwrap().staff.is_empty());
        }
        assert_consistent(&city);
    }
}

#[test]
fn without_ventures_and_openings_the_unemployed_stay_so() {
    let mut city = city_of((1..=5).map(|i| person(i, 30)).collect());
    let mut rng = StdRng::seed_from_u64(2);
    let mut ventures = vec![];
    city.fill_and_create_jobs(&mut rng, &mut ventures);
    assert_eq!(city.unemployed_citizens().len(), 5);
    assert!(city.institution_ids().is_empty());
}

#[test]
fn a_venture_that_would_hire_nobody_founds_nothing() {
    let mut city = city_of(vec![person(1, 30)]);
    city.culture.dieties = HashMap::new();
    let mut founded = 0;
    for seed in 0..40u64 {
        let mut rng = StdRng::seed_from_u64(seed);
        let mut ventures = vec![Venture {
            underworld: draw("Den", &[]),
            temple: draw("Altar", &[]),
            social: draw("Bare", &["Social"]),
        }];
        let mut fresh = city_of(vec![person(1, 30)]);
        fresh.culture.dieties = HashMap::new();
        fresh.fill_and_create_jobs(&mut rng, &mut ventures);
        assert!(ventures.is_empty());
        for h in fresh.institution_ids() {
            // only the underworld den can be founded: no deity, and no titles for the inn
            assert_eq!(fresh.institution_by_id(h).unwrap().name, "Den");
            founded += 1;
        }
        assert_consistent(&fresh);
    }
    assert!(founded > 2 && founded < 20);
    let mut rng = StdRng::seed_from_u64(1);
    let mut none = vec![];
    city.fill_and_create_jobs(&mut rng, &mut none);
    assert!(city.institution_ids().is_empty());
}

#[test]
fn the_dead_are_not_hired() {
    let mut gone = person(2, 30);
    gone.alive = false;
    let mut city = city_of(vec![person(1, 30), gone]);
    let mut rng = StdRng::seed_from_u64(2);
    let mut ventures: Vec<Venture> = (0..10).map(venture).collect();
    city.fill_and_create_jobs(&mut rng, &mut ventures);
    assert_eq!(city.citizen(2).unwrap().employer, None);
    assert!(city.citizen(1).unwrap().employer.is_some());
}

// ---- the sweep ----

#[test]
fn the_sweep_strikes_off_the_dead_and_removes_the_unstaffed() {
    let mut city = staffed_city(3, 2);
    city.year = 10;
    // house 0 loses everyone, house 1 one of two, house 2 nobody
    for id in [1u128, 2, 3] {
        city.population.get_mut(&id).unwrap().alive = false;
    }
    city.population.get_mut(&5).unwrap().relations.insert(city_sim::relations::RelationVerb::Friend, 6);
    city.population.get_mut(&6).unwrap().relations.insert(city_sim::relations::RelationVerb::Friend, 5);
    city.unlink(5, 6, city_sim::relations::RelationVerb::Friend);
    assert_eq!(city.citizen(5).unwrap().relations.len(), 1);
    city.cleanup(5);
    let mut houses = city.institution_ids();
    houses.sort();
    assert_eq!(houses, vec![10_001, 10_002]);
    assert_eq!(city.institution_by_id(10_001).unwrap().staff.len(), 1);
    assert_eq!(city.institution_by_id(10_001).unwrap().staff_ids(), vec![4]);
    assert_eq!(city.institution_by_id(10_002).unwrap().staff.len(), 2);
    for id in [1u128, 2, 3] {
        assert_eq!(city.citizen(id).unwrap().employer, None);
        assert!(!city.citizen(id).unwrap().alive);
    }
    assert_eq!(city.citizen(4).unwrap().employer, Some(10_001));
    assert_eq!(city.citizen(5).unwrap().relations.len(), 0);
    assert_eq!(city.citizens().len(), 6);
    assert_consistent(&city);
}

#[test]
fn the_sweep_waits_for_its_year() {
    for (year, interval, due) in [(10usize, 5usize, true), (11, 5, false), (0, 5, true), (7, 0, false), (7, 1, true), (7, 7, true)] {
        let mut city = staffed_city(1, 1);
        city.year = year;
        city.population.get_mut(&1).unwrap().alive = false;
        city.cleanup(interval);
        assert_eq!(city.institution_ids().is_empty(), due, "year {} interval {}", year, interval);
        assert_eq!(city.citizen(1).unwrap().employer.is_none(), due);
    }
}

#[test]
fn an_institution_goes_only_without_staff() {
    let mut rng = StdRng::seed_from_u64(77);
    let mut city = city_of((1..=80).map(|i| person(i, 40 + (i as u32 % 50))).collect());
    let mut removed = 0;
    for year in 0..40 {
        let mut ventures: Vec<Venture> = (0..20).map(|i| venture(year * 100 + i)).collect();
        let mut newcomers = vec![];
        let before: std::collections::HashSet<u128> = city.institution_ids().into_iter().collect();
        city.simulate_year(&mut rng, &mut newcomers, &mut ventures);
        assert_consistent(&city);
        for house in &before {
            if city.institution_by_id(*house).is_none() {
                // outside the years of the sweep nothing goes
                assert_eq!(city.year % 5, 0);
                removed += 1;
            }
        }
        let rosters: HashMap<u128, Vec<u128>> = city
            .institution_ids()
            .into_iter()
            .map(|h| (h, city.institution_by_id(h).unwrap().staff_ids()))
            .collect();
        city.cleanup(1);
        for (house, roster) in &rosters {
            let mut living: Vec<u128> =
                roster.iter().copied().filter(|id| city.citizen(*id).unwrap().alive).collect();
            living.sort();
            match city.institution_by_id(*house) {
                Some(kept) => {
                    let mut now: Vec<u128> = kept.staff_ids();
                    now.sort();
                    assert_eq!(now, living);
                    assert!(!now.is_empty());
                }
                None => {
                    assert!(living.is_empty());
                    removed += 1;
                }
            }
        }
        assert_consistent(&city);
    }
    assert!(removed > 0);
}

// ---- a culture ----

#[test]
fn test_random_culture() {
    let mut rng = StdRng::seed_from_u64(4);
    let made = random_culture(
        &mut rng,
        Era::Medieval,
        true,
        vec!["boar".to_string()],
        vec!["rye".to_string()],
        vec![("Duke".to_string(), "Alan".to_string(), "Brook".to_string())],
        HashMap::from([(1, god(1, "Orun", "war"))]),
    );
    println!("{:#?}", made.marriage_surname_formats);
    assert_eq!(made.adult_age, 18);
    assert!(made.avg_lifespan >= 75 && made.avg_lifespan < 90);
    assert_eq!(made.avg_lifespan_variance, 10);
    assert_eq!(made.era, Era::Medieval);
    assert!(made.landlocked);
    assert_eq!(made.staple_meats, vec!["boar"]);
    assert_eq!(made.staple_plants, vec!["rye"]);
    assert_eq!(made.historical_names.len(), 1);
    assert_eq!(made.dieties.len(), 1);
    assert_eq!(made.diety(1).unwrap().name, "Orun");
    assert_eq!(made.diety_keys(), vec![1]);
    assert!(made.diety(2).is_none());
    assert!(made.child_surname_formats.len() == 2 || made.child_surname_formats.len() == 3);
    assert!(made.marriage_surname_formats.len() == 2 || made.marriage_surname_formats.len() == 3);
    assert_eq!(Era::Medieval.label(), "EraMedieval");
    assert_eq!(Era::Modern.label(), "EraModern");
    assert_eq!(Era::Fantasy.label(), "EraFantasy");
}

#[test]
fn lifespans_follow_the_draw() {
    use_lifespan();
}

fn use_lifespan() {
    assert_eq!(city_sim::culture::lifespan_of_roll(0), 75);
    assert_eq!(city_sim::culture::lifespan_of_roll(14), 75);
    assert_eq!(city_sim::culture::lifespan_of_roll(15), 75);
    assert_eq!(city_sim::culture::lifespan_of_roll(16), 76);
    assert_eq!(city_sim::culture::lifespan_of_roll(29), 89);
}

#[test]
fn the_listed_are_let_go_in_turn_until_one_is_left() {
    let mut city = staffed_city(2, 3);
    // house 0 holds 1, 2, 3 and house 1 holds 4, 5, 6
    city.fire_listed(&vec![2, 1, 3, 5]);
    assert_eq!(city.citizen(2).unwrap().employer, None);
    assert_eq!(city.citizen(1).unwrap().employer, None);
    assert_eq!(city.citizen(3).unwrap().employer, Some(10_000));
    assert_eq!(city.citizen(5).unwrap().employer, None);
    assert_eq!(city.citizen(4).unwrap().employer, Some(10_001));
    assert_eq!(city.institution_by_id(10_000).unwrap().staff.len(), 1);
    assert_eq!(city.institution_by_id(10_001).unwrap().staff.len(), 2);
    assert_consistent(&city);
}

#[test]
fn the_sort_decides_what_is_founded() {
    let cult = culture(vec![god(500, "Orun", "war")]);
    let mut rng = StdRng::seed_from_u64(1);
    let den = city_sim::institutions::institution_of_sort(&mut rng, &cult, venture(1), Founding::Underworld).unwrap();
    assert_eq!(den.name, "Den 1");
    assert_eq!(den.base_job_titles, vec!["Shopkeeper"]);
    let inn = city_sim::institutions::institution_of_sort(&mut rng, &cult, venture(2), Founding::Social).unwrap();
    assert_eq!(inn.name, "Inn 2");
    assert_eq!(inn.base_job_titles, vec!["Cook", "Waiter"]);
    let altar = city_sim::institutions::institution_of_sort(&mut rng, &cult, venture(3), Founding::Temple).unwrap();
    assert_eq!(altar.name, "Altar 3 of Orun, lord of war");
    assert_eq!(altar.related_diety, Some(500));
    assert!(
        city_sim::institutions::institution_of_sort(&mut rng, &culture(vec![]), venture(4), Founding::Temple)
            .is_none()
    );
}

#[test]
fn nobody_is_left_without_work_while_an_old_institution_hires() {
    for seed in 0..30u64 {
        let mut city = city_of((1..=30).map(|i| person(i, 30)).collect());
        for h in 0..3u128 {
            city.found(social_from(10_000 + h, format!("House {}", h), true, true, false, false));
        }
        let mut rng = StdRng::seed_from_u64(seed);
        let mut ventures: Vec<Venture> = (0..5).map(venture).collect();
        city.fill_and_create_jobs(&mut rng, &mut ventures);
        if !city.unemployed_citizens().is_empty() {
            for h in 0..3u128 {
                assert_eq!(city.institution_by_id(10_000 + h).unwrap().open_role(), RoleDemand::Nothing);
            }
        }
        assert_consistent(&city);
    }
}

#[test]
fn an_institution_is_owed_where_a_temple_can_always_be_raised() {
    let cult = culture(vec![god(500, "Orun", "war"), god(501, "Mab", "rain")]);
    for seed in 0..80u64 {
        let mut rng = StdRng::seed_from_u64(seed);
        assert!(random_institution(&mut rng, &cult, venture(1)).is_some());
    }
    // without a deity a drawn temple is not made
    let mut failed = 0;
    for seed in 0..80u64 {
        let mut rng = StdRng::seed_from_u64(seed);
        if random_institution(&mut rng, &culture(vec![]), venture(1)).is_none() {
            failed += 1;
        }
    }
    assert!(failed > 4 && failed < 35);
}

// ---- what hiring and firing leave on the rosters ----

fn entry_of(s: &StaffDefinition) -> (u128, String, u32, usize) {
    (s.employee_id, s.title.clone(), s.salary, s.started_year)
}

/// The entries of a roster, by the id of the member of staff.
fn roster_of(city: &City, house: u128) -> Vec<(u128, String, u32, usize)> {
    let mut all: Vec<(u128, String, u32, usize)> =
        city.institution_by_id(house).unwrap().staff.values().map(entry_of).collect();
    all.sort();
    all
}

#[test]
fn letting_go_leaves_the_other_entries_as_they_were() {
    let mut city = staffed_city(2, 3);
    {
        let house = city.institutions.get_mut(&10_000).unwrap();
        house.staff.get_mut(&1).unwrap().salary = 4;
        let third = house.staff.get_mut(&3).unwrap();
        third.salary = 9;
        third.title = "Waiter".to_string();
        third.started_year = 2;
    }
    let before = roster_of(&city, 10_000);
    let other = roster_of(&city, 10_001);
    city.fire_listed(&vec![2]);
    let after = roster_of(&city, 10_000);
    assert_eq!(after, vec![before[0].clone(), before[2].clone()]);
    assert_eq!(after[0], (1, "Cook".to_string(), 4, 7));
    assert_eq!(after[1], (3, "Waiter".to_string(), 9, 2));
    assert_eq!(roster_of(&city, 10_001), other);
    assert_consistent(&city);
}

#[test]
fn a_fired_share_leaves_the_entries_of_those_who_stay() {
    for seed in 0..20u64 {
        let mut city = staffed_city(3, 6);
        let mut before = HashMap::new();
        for h in city.institution_ids() {
            for s in city.institution_by_id(h).unwrap().staff.values() {
                before.insert(s.employee_id, (h, entry_of(s)));
            }
        }
        let mut rng = StdRng::seed_from_u64(seed);
        city.fire_percentage(&mut rng, 50);
        let mut kept = 0;
        for h in city.institution_ids() {
            for s in city.institution_by_id(h).unwrap().staff.values() {
                assert_eq!(before.get(&s.employee_id), Some(&(h, entry_of(s))));
                kept += 1;
            }
        }
        // nine are drawn, and whoever is the last of a house stays
        assert!(kept == 9 || kept == 10);
        assert_eq!(city.employed_citizens().len(), kept);
        for (id, (h, _)) in &before {
            let on_roster = city.institution_by_id(*h).unwrap().entry_of(*id).is_some();
            assert_eq!(on_roster, city.citizen(*id).unwrap().employer.is_some());
        }
        assert_consistent(&city);
    }
}

#[test]
fn hiring_leaves_the_old_entries_and_adds_the_hires() {
    for seed in 0..20u64 {
        let mut city = staffed_city(2, 2);
        for i in 0..12u128 {
            city.add_citizen(person(100 + i, 30));
        }
        let mut gone = person(200, 30);
        gone.alive = false;
        city.add_citizen(gone);
        let mut old_rosters = HashMap::new();
        for h in city.institution_ids() {
            old_rosters.insert(h, roster_of(&city, h));
        }
        city.year = 11;
        let mut rng = StdRng::seed_from_u64(seed);
        let mut ventures: Vec<Venture> = (0..6).map(venture).collect();
        city.fill_and_create_jobs(&mut rng, &mut ventures);
        for h in city.institution_ids() {
            let house = city.institution_by_id(h).unwrap();
            let was = old_rosters.get(&h).cloned().unwrap_or_default();
            let now = roster_of(&city, h);
            assert!(now.len() >= was.len());
            // the old staff have the lower ids
            assert_eq!(now[..was.len()].to_vec(), was);
            for s in house.staff.values() {
                if s.employee_id < 100 {
                    continue;
                }
                assert!(s.employee_id >= 100 && s.employee_id < 112);
                assert_eq!(s.started_year, 11);
                assert_eq!(s.salary, 0);
                let managed = house.management.iter().any(|m| m.title == s.title);
                assert!(managed || house.base_job_titles.contains(&s.title));
            }
        }
        assert_eq!(city.citizen(200).unwrap().employer, None);
        assert_consistent(&city);
    }
}

#[test]
fn each_venture_used_founds_a_house_or_leaves_one_without_work() {
    let mut left_over = 0;
    for seed in 0..40u64 {
        let mut city = city_of((1..=12).map(|i| person(i, 30)).collect());
        // without a deity a drawn temple cannot be made
        city.culture.dieties = HashMap::new();
        let mut rng = StdRng::seed_from_u64(seed);
        let supply: Vec<Venture> = (0..30).map(venture).collect();
        let names: Vec<String> = supply.iter().map(|v| v.social.name.clone()).collect();
        let mut ventures = supply;
        city.fill_and_create_jobs(&mut rng, &mut ventures);
        let used = 30 - ventures.len();
        let seeking = city.unemployed_citizens().len();
        let founded = city.institution_ids().len();
        assert!(founded <= used);
        assert!(!ventures.is_empty());
        assert_eq!(seeking + founded, used);
        // the ventures go from the end
        let kept: Vec<String> = ventures.iter().map(|v| v.social.name.clone()).collect();
        assert_eq!(kept, names[..ventures.len()].to_vec());
        left_over += seeking;
        assert_consistent(&city);
    }
    assert!(left_over > 0);
}

#[test]
fn nothing_is_founded_while_an_old_institution_hires() {
    for seed in 0..30u64 {
        let mut city = city_of((1..=20).map(|i| person(i, 30)).collect());
        for h in 0..2u128 {
            city.found(social_from(10_000 + h, format!("House {}", h), true, false, false, false));
        }
        let mut rng = StdRng::seed_from_u64(seed);
        let mut ventures: Vec<Venture> = (0..20).map(venture).collect();
        city.fill_and_create_jobs(&mut rng, &mut ventures);
        if city.institution_ids().len() > 2 {
            for h in 0..2u128 {
                assert_eq!(city.institution_by_id(10_000 + h).unwrap().open_role(), RoleDemand::Nothing);
            }
        } else {
            assert_eq!(ventures.len(), 20);
        }
        assert_consistent(&city);
    }
}

// ---- founding ----

#[test]
fn founding_hires_the_first_member_of_staff() {
    let mut city = city_of(vec![person(1, 30), person(2, 30)]);
    let house = social_from(500, "The Ladle".to_string(), true, false, false, false);
    assert!(city.found_and_hire(1, Some(house), Some("Cook".to_string())));
    assert_eq!(city.institution_ids(), vec![500]);
    let made = city.institution_by_id(500).unwrap();
    assert_eq!(made.name, "The Ladle");
    assert_eq!(made.base_job_titles, vec!["Cook", "Waiter"]);
    assert_eq!(roster_of(&city, 500), vec![(1, "Cook".to_string(), 0, 7)]);
    assert_eq!(city.citizen(1).unwrap().employer, Some(500));
    assert_eq!(city.citizen(2).unwrap().employer, None);
    assert_consistent(&city);
}

#[test]
fn nothing_is_founded_without_an_institution_a_title_or_a_free_id() {
    let mut city = city_of(vec![person(1, 30), person(2, 30)]);
    assert!(!city.found_and_hire(1, None, Some("Cook".to_string())));
    assert!(!city.found_and_hire(1, None, None));
    let house = social_from(500, "The Ladle".to_string(), true, false, false, false);
    assert!(!city.found_and_hire(1, Some(house), None));
    assert!(city.institution_ids().is_empty());
    assert_eq!(city.citizen(1).unwrap().employer, None);
    city.found(social_from(500, "The Spoon".to_string(), true, false, false, false));
    let rival = social_from(500, "The Ladle".to_string(), true, false, false, false);
    assert!(!city.found_and_hire(1, Some(rival), Some("Cook".to_string())));
    assert_eq!(city.institution_by_id(500).unwrap().name, "The Spoon");
    assert!(city.institution_by_id(500).unwrap().staff.is_empty());
    assert_eq!(city.citizen(1).unwrap().employer, None);
    assert_consistent(&city);
}

#[test]
fn the_first_founding_of_an_empty_city_is_certain() {
    for seed in 0..60u64 {
        // a deity with a realm, and an inn with food: whatever sort is drawn can be made
        let mut city = city_of(vec![person(1, 30)]);
        let mut rng = StdRng::seed_from_u64(seed);
        let mut ventures = vec![venture(1)];
        city.fill_and_create_jobs(&mut rng, &mut ventures);
        assert!(ventures.is_empty());
        let houses = city.institution_ids();
        assert_eq!(houses.len(), 1);
        assert_eq!(city.citizen(1).unwrap().employer, Some(houses[0]));
        let made = city.institution_by_id(houses[0]).unwrap();
        assert_eq!(made.staff_ids(), vec![1]);
        let entry = made.entry_of(1).unwrap();
        assert_eq!(entry.started_year, 7);
        assert!(made.base_job_titles.contains(&entry.title));
        assert_consistent(&city);
    }
}

#[test]
fn of_two_that_are_founded_one_is_full() {
    for seed in 0..30u64 {
        let mut city = city_of((1..=60).map(|i| person(i, 30)).collect());
        let mut rng = StdRng::seed_from_u64(seed);
        let mut ventures: Vec<Venture> = (0..60).map(venture).collect();
        city.fill_and_create_jobs(&mut rng, &mut ventures);
        let hiring = city
            .institution_ids()
            .into_iter()
            .filter(|h| city.institution_by_id(*h).unwrap().open_role() != RoleDemand::Nothing)
            .count();
        assert!(hiring <= 1);
        assert!(!city.institution_ids().is_empty());
        assert!(city.unemployed_citizens().is_empty());
        assert_consistent(&city);
    }
}

#[test]
fn where_the_old_houses_are_full_the_first_founding_is_certain() {
    for seed in 0..40u64 {
        let mut city = city_of((1..=5).map(|i| person(i, 30)).collect());
        // a den takes two and no more
        city.found(underground_from(10_000, "Den".to_string(), true));
        city.hire(1, 10_000, "Shopkeeper".to_string());
        city.hire(2, 10_000, "Shopkeeper".to_string());
        assert_eq!(city.institution_by_id(10_000).unwrap().open_role(), RoleDemand::Nothing);
        let mut rng = StdRng::seed_from_u64(seed);
        let mut ventures: Vec<Venture> = (0..3).map(venture).collect();
        city.fill_and_create_jobs(&mut rng, &mut ventures);
        assert!(city.institution_ids().len() > 1);
        assert!(ventures.len() < 3);
        assert!(city.unemployed_citizens().len() < 3);
        assert_eq!(roster_of(&city, 10_000).len(), 2);
        assert_consistent(&city);
    }
}
