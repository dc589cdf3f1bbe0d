use city_sim::city::{random_city, City};
use city_sim::culture::{Culture, Era};
use city_sim::mind::{Gender, Mind, Newcomer, Sexuality};
use city_sim::personality::Personality;
use city_sim::physical_description::PhysicalDescription;
use city_sim::relations::{RelationVerb, Relations};
use city_sim::surnames::SurnameFormat;
use rand::rngs::StdRng;
use rand::SeedableRng;
use std::collections::HashMap;

const KINDS: [RelationVerb; 23] = [
    RelationVerb::Parent,
    RelationVerb::Child,
    RelationVerb::AdoptedParent,
    RelationVerb::AdoptedChild,
    RelationVerb::Partner,
    RelationVerb::ExPartner,
    RelationVerb::LatePartner,
    RelationVerb::Spouse,
    RelationVerb::ExSpouse,
    RelationVerb::LateSpouse,
    RelationVerb::Sibling,
    RelationVerb::Grandparent,
    RelationVerb::Grandchild,
    RelationVerb::Cousin,
    RelationVerb::Pibling,
    RelationVerb::Nibling,
    RelationVerb::Employer,
    RelationVerb::Employee,
    RelationVerb::Colleague,
    RelationVerb::Acquaintance,
    RelationVerb::Friend,
    RelationVerb::CloseFriend,
    RelationVerb::Grudge,
];

fn looks(tag: &str) -> PhysicalDescription {
    PhysicalDescription {
        hair_colour: format!("{}-colour", tag),
        hair_style: format!("{}-style", tag),
        hair_adjective: format!("{}-hair", tag),
        eye_colour: format!("{}-eyes", tag),
        height_adjective: format!("{}-height", tag),
        build_adjective: format!("{}-build", tag),
    }
}

fn person(id: u128, age: u32, gender: Gender, sexuality: Sexuality) -> Mind {
    Mind {
        id,
        alive: true,
        first_name: format!("First{}", id),
        last_name: format!("Last{}", id),
        origional_last_name: format!("Last{}", id),
        age,
        gender,
        sexuality,
        relations: Relations::new(),
        description: looks(&format!("p{}", id)),
        personality: Personality { traits: vec![], thiest: false },
        dieties: vec![],
        employer: None,
        year_of_birth: 0,
    }
}

fn format(first_1: bool, last_1: bool, first_2: bool, last_2: bool, between: &str, post: &str) -> SurnameFormat {
    SurnameFormat {
        pre: String::new(),
        mind_1_first_present: first_1,
        mind_1_last_present: last_1,
        between: between.to_string(),
        mind_2_first_present: first_2,
        mind_2_last_present: last_2,
        post: post.to_string(),
    }
}

fn culture() -> Culture {
    Culture {
        id: 1,
        adult_age: 18,
        landlocked: false,
        staple_meats: vec![],
        staple_plants: vec![],
        avg_lifespan: 75,
        avg_lifespan_variance: 10,
        child_surname_formats: vec![(
            format(true, false, false, false, "", "son"),
            format(false, false, true, false, "", "dotter"),
        )],
        marriage_surname_formats: vec![(
            format(false, true, false, true, "-", ""),
            format(false, true, false, true, "-", ""),
        )],
        historical_names: vec![],
        dieties: HashMap::new(),
        era: Era::Medieval,
    }
}

fn city_of(minds: Vec<Mind>) -> City {
    let mut population = HashMap::new();
    for m in minds {
        population.insert(m.id, m);
    }
    City {
        id: 99,
        name: String::new(),
        culture: culture(),
        population,
        areas: HashMap::new(),
        institutions: HashMap::new(),
        year: 3,
    }
}

fn newcomer(tag: &str) -> Newcomer {
    Newcomer {
        male_first_name: format!("{}-boy", tag),
        female_first_name: format!("{}-girl", tag),
        ambiguous_first_name: format!("{}-child", tag),
        last_name: format!("{}-family", tag),
        description: looks(tag),
        personality: Personality { traits: vec![], thiest: false },
    }
}

fn holds(city: &City, a: u128, kind: RelationVerb, b: u128) -> bool {
    city.citizen(a).map_or(false, |m| m.relations.contains(kind, b))
}

fn held(city: &City, a: u128, kind: RelationVerb) -> Vec<u128> {
    let mut ids = city.citizen(a).unwrap().get_relations(kind);
    ids.sort();
    ids
}

/// Checks, in plain terms, what the library calls a consistent city.
fn assert_consistent(city: &City) {
    for a in city.citizens() {
        let m = city.citizen(a).unwrap();
        assert_eq!(m.id, a);
        for kind in KINDS {
            for b in m.get_relations(kind) {
                assert_ne!(a, b, "self-relation under {:?}", kind);
                let other = city.citizen(b).expect("an edge leads nowhere");
                if kind.is_late() {
                    assert!(!other.alive);
                } else if kind.is_romantic() {
                    if m.alive {
                        assert!(other.relations.contains(kind, a));
                    }
                } else {
                    assert!(other.relations.contains(kind.mirror(), a));
                }
            }
        }
        if let Some(e) = m.employer {
            let institution = city.institution_by_id(e).expect("an employer is missing");
            assert!(institution.entry_of(a).is_some());
        }
    }
    for i in city.institution_ids() {
        let institution = city.institution_by_id(i).unwrap();
        assert_eq!(institution.id, i);
        for s in institution.staff.values() {
            assert_eq!(city.citizen(s.employee_id).unwrap().employer, Some(i));
        }
    }
}

fn edges(city: &City) -> Vec<(u128, RelationVerb, u128)> {
    let mut all = Vec::new();
    let mut ids = city.citizens();
    ids.sort();
    for a in ids {
        for kind in KINDS {
            for b in held(city, a, kind) {
                all.push((a, kind, b));
            }
        }
    }
    all
}

fn straight(id: u128, age: u32, gender: Gender) -> Mind {
    person(id, age, gender, Sexuality::Hetrosexual)
}

// ---- the relationship graph ----

#[test]
fn link_writes_a_symmetric_kind_both_ways() {
    let mut city = city_of(vec![straight(1, 30, Gender::Male), straight(2, 30, Gender::Female)]);
    city.link(1, 2, RelationVerb::Friend);
    assert!(holds(&city, 1, RelationVerb::Friend, 2));
    assert!(holds(&city, 2, RelationVerb::Friend, 1));
    assert_eq!(edges(&city).len(), 2);
    assert_consistent(&city);
}

#[test]
fn link_writes_the_complement_on_the_other_side() {
    let mut city = city_of(vec![straight(1, 40, Gender::Male), straight(2, 10, Gender::Female)]);
    city.link(1, 2, RelationVerb::Child);
    assert!(holds(&city, 1, RelationVerb::Child, 2));
    assert!(holds(&city, 2, RelationVerb::Parent, 1));
    assert!(!holds(&city, 2, RelationVerb::Child, 1));
    city.link(2, 1, RelationVerb::Nibling);
    assert!(holds(&city, 1, RelationVerb::Pibling, 2));
    city.link(1, 2, RelationVerb::Grandparent);
    assert!(holds(&city, 2, RelationVerb::Grandchild, 1));
    assert_consistent(&city);
}

#[test]
fn link_twice_is_link_once() {
    let mut city = city_of(vec![straight(1, 30, Gender::Male), straight(2, 30, Gender::Female)]);
    city.link(1, 2, RelationVerb::Acquaintance);
    let once = edges(&city);
    city.link(1, 2, RelationVerb::Acquaintance);
    assert_eq!(edges(&city), once);
}

#[test]
fn unlink_undoes_link() {
    let mut city = city_of(vec![
        straight(1, 30, Gender::Male),
        straight(2, 30, Gender::Female),
        straight(3, 30, Gender::Female),
    ]);
    city.link(1, 3, RelationVerb::Friend);
    let before = edges(&city);
    city.link(1, 2, RelationVerb::Parent);
    city.unlink(1, 2, RelationVerb::Parent);
    assert_eq!(edges(&city), before);
    city.unlink(2, 3, RelationVerb::Friend);
    assert_eq!(edges(&city), before);
    assert_consistent(&city);
}

#[test]
fn unlink_from_the_other_side_takes_the_mirror() {
    let mut city = city_of(vec![straight(1, 40, Gender::Male), straight(2, 10, Gender::Female)]);
    city.link(1, 2, RelationVerb::Child);
    city.unlink(2, 1, RelationVerb::Parent);
    assert!(edges(&city).is_empty());
}

#[test]
fn nobody_relates_to_themselves_after_a_run() {
    let mut rng = StdRng::seed_from_u64(11);
    let mut city = random_city(&mut rng, culture(), (0..60).map(|i| newcomer(&i.to_string())).collect());
    for _ in 0..25 {
        let mut newcomers: Vec<Newcomer> = (0..40).map(|i| newcomer(&format!("n{}", i))).collect();
        let mut ventures = Vec::new();
        city.simulate_year(&mut rng, &mut newcomers, &mut ventures);
        for a in city.citizens() {
            for kind in KINDS {
                assert!(!holds(&city, a, kind, a));
            }
        }
    }
}

#[test]
fn rename_changes_the_surname_alone() {
    let mut city = city_of(vec![straight(1, 30, Gender::Male), straight(2, 30, Gender::Female)]);
    city.link(1, 2, RelationVerb::Friend);
    city.rename(1, "Newname".to_string());
    let m = city.citizen(1).unwrap();
    assert_eq!(m.last_name, "Newname");
    assert_eq!(m.origional_last_name, "Last1");
    assert_eq!(m.first_name, "First1");
    assert_eq!(city.citizen(2).unwrap().last_name, "Last2");
    assert!(holds(&city, 1, RelationVerb::Friend, 2));
}

#[test]
fn living_and_single_citizens_are_listed() {
    let mut dead = straight(3, 80, Gender::Male);
    dead.alive = false;
    let mut city = city_of(vec![
        straight(1, 30, Gender::Male),
        straight(2, 30, Gender::Female),
        dead,
        person(4, 30, Gender::Female, Sexuality::Asexual),
    ]);
    city.link(1, 2, RelationVerb::Partner);
    let mut all = city.citizens();
    all.sort();
    assert_eq!(all, vec![1, 2, 3, 4]);
    let mut living = city.current_citizens();
    living.sort();
    assert_eq!(living, vec![1, 2, 4]);
    assert_eq!(city.current_single_citizens(), vec![4]);
    assert!(city.citizen(5).is_none());
    assert!(!City::area_is_full(1));
}

// ---- the family deriver ----

fn family() -> City {
    // 1 and 2 are the parents of 3 and 4; 5 is the child of 3; 6 is a sibling of 1
    let mut city = city_of((1..=9).map(|i| straight(i, 30, Gender::Male)).collect());
    city.link(3, 1, RelationVerb::Parent);
    city.link(3, 2, RelationVerb::Parent);
    city.link(4, 1, RelationVerb::Parent);
    city.link(4, 2, RelationVerb::Parent);
    city.link(3, 4, RelationVerb::Sibling);
    city.link(5, 3, RelationVerb::Parent);
    city.link(1, 6, RelationVerb::Sibling);
    city.link(4, 5, RelationVerb::Nibling);
    city
}

#[test]
fn the_deriver_finds_siblings_grandparents_piblings_and_cousins() {
    let mut city = family();
    // 7 is a new child of 4 and 8
    city.link(7, 4, RelationVerb::Parent);
    city.link(7, 8, RelationVerb::Parent);
    city.generate_family_relations(&7);
    assert_eq!(held(&city, 7, RelationVerb::Grandparent), vec![1, 2]);
    assert!(holds(&city, 1, RelationVerb::Grandchild, 7));
    assert!(holds(&city, 2, RelationVerb::Grandchild, 7));
    assert_eq!(held(&city, 7, RelationVerb::Pibling), vec![3]);
    assert!(holds(&city, 3, RelationVerb::Nibling, 7));
    assert_eq!(held(&city, 7, RelationVerb::Cousin), vec![5]);
    assert!(holds(&city, 5, RelationVerb::Cousin, 7));
    assert!(held(&city, 7, RelationVerb::Sibling).is_empty());
    assert_consistent(&city);
}

#[test]
fn the_deriver_ties_the_new_child_to_the_other_children() {
    let mut city = family();
    city.link(9, 1, RelationVerb::Parent);
    city.link(9, 2, RelationVerb::Parent);
    city.generate_family_relations(&9);
    assert_eq!(held(&city, 9, RelationVerb::Sibling), vec![3, 4]);
    assert!(holds(&city, 3, RelationVerb::Sibling, 9));
    assert!(holds(&city, 4, RelationVerb::Sibling, 9));
    assert_eq!(held(&city, 9, RelationVerb::Pibling), vec![6]);
    assert!(holds(&city, 6, RelationVerb::Nibling, 9));
    assert!(!holds(&city, 9, RelationVerb::Sibling, 9));
    assert_consistent(&city);
}

#[test]
fn the_deriver_leaves_an_orphan_alone() {
    let mut city = family();
    let before = edges(&city);
    city.generate_family_relations(&8);
    assert_eq!(edges(&city), before);
}

// ---- reproduction ----

fn spouses() -> City {
    let mut city = city_of(vec![
        straight(1, 40, Gender::Male),
        straight(2, 40, Gender::Female),
        straight(3, 12, Gender::Female),
    ]);
    city.link(1, 2, RelationVerb::Spouse);
    city
}

#[test]
fn a_birth_attaches_one_child_to_both_parents() {
    let mut city = spouses();
    let mut rng = StdRng::seed_from_u64(5);
    assert!(city.may_bear(1, 2));
    let child = city.prepare_child(&mut rng, 1, 2, newcomer("kid")).expect("a child");
    let id = child.id;
    assert_eq!(child.age, 0);
    assert_eq!(child.year_of_birth, 3);
    assert!(child.alive);
    city.birth(1, 2, child);
    assert_eq!(city.citizens().len(), 4);
    assert_eq!(held(&city, id, RelationVerb::Parent), vec![1, 2]);
    assert_eq!(held(&city, 1, RelationVerb::Child), vec![id]);
    assert_eq!(held(&city, 2, RelationVerb::Child), vec![id]);
    assert!(held(&city, id, RelationVerb::Sibling).is_empty());
    assert_consistent(&city);
}

#[test]
fn a_birth_gives_the_other_child_a_sibling() {
    let mut city = spouses();
    city.link(3, 1, RelationVerb::Parent);
    let mut rng = StdRng::seed_from_u64(6);
    let child = city.prepare_child(&mut rng, 1, 2, newcomer("kid")).expect("a child");
    let id = child.id;
    city.birth(1, 2, child);
    assert_eq!(held(&city, 3, RelationVerb::Sibling), vec![id]);
    assert_eq!(held(&city, id, RelationVerb::Sibling), vec![3]);
    let mut children = held(&city, 1, RelationVerb::Child);
    children.sort();
    let mut expected = vec![3, id];
    expected.sort();
    assert_eq!(children, expected);
    assert_eq!(held(&city, 2, RelationVerb::Child), vec![id]);
    assert_consistent(&city);
}

#[test]
fn a_year_of_births_brings_a_spouse_pair_one_child_at_most() {
    let mut born = 0;
    for seed in 0..200u64 {
        let mut city = spouses();
        let mut rng = StdRng::seed_from_u64(seed);
        let mut newcomers = vec![newcomer("a"), newcomer("b"), newcomer("c")];
        city.generate_children(&mut rng, &mut newcomers);
        let now = city.citizens().len();
        assert!(now == 3 || now == 4);
        assert_consistent(&city);
        if now == 4 {
            born += 1;
            assert_eq!(newcomers.len(), 2);
            let id = city.citizens().into_iter().find(|x| *x > 3).unwrap();
            let child = city.citizen(id).unwrap();
            assert_eq!(child.age, 0);
            assert!(child.alive);
            assert_eq!(child.year_of_birth, 3);
            assert_eq!(held(&city, id, RelationVerb::Parent), vec![1, 2]);
            assert!(holds(&city, 1, RelationVerb::Child, id));
            assert!(holds(&city, 2, RelationVerb::Child, id));
        } else {
            assert_eq!(newcomers.len(), 3);
        }
    }
    // the yearly chance of spouses is one in five
    assert!(born > 15 && born < 80, "{} births in 200 years", born);
}

#[test]
fn a_child_is_named_after_the_culture_and_its_gender() {
    let city = spouses();
    for seed in 0..30u64 {
        let mut rng = StdRng::seed_from_u64(seed);
        let child = city.prepare_child(&mut rng, 1, 2, newcomer("kid")).unwrap();
        match child.gender {
            Gender::Male => {
                assert_eq!(child.last_name, "First1son");
                assert_eq!(child.first_name, "kid-boy");
            }
            Gender::Female => {
                assert_eq!(child.last_name, "First2dotter");
                assert_eq!(child.first_name, "kid-girl");
            }
            Gender::Ambiguous => {
                assert!(child.last_name == "First1son" || child.last_name == "First2dotter");
                assert_eq!(child.first_name, "kid-child");
            }
        }
        assert_eq!(child.origional_last_name, "kid-family");
        assert_eq!(child.description.hair_style, "kid-style");
        assert!(child.employer.is_none());
    }
}

#[test]
fn no_child_without_a_naming_custom() {
    let mut city = spouses();
    city.culture.child_surname_formats = vec![];
    let mut rng = StdRng::seed_from_u64(1);
    assert!(city.prepare_child(&mut rng, 1, 2, newcomer("kid")).is_none());
}

#[test]
fn couples_past_the_limits_have_no_child() {
    let mut city = spouses();
    assert!(city.may_bear(1, 2));
    city.population.get_mut(&1).unwrap().age = 50;
    assert!(!city.may_bear(1, 2));
    city.population.get_mut(&1).unwrap().age = 49;
    assert!(city.may_bear(2, 1));
    city.population.get_mut(&2).unwrap().alive = false;
    assert!(!city.may_bear(1, 2));
}

#[test]
fn five_children_between_them_are_enough() {
    let mut minds = vec![straight(1, 40, Gender::Male), straight(2, 40, Gender::Female)];
    for i in 10..15 {
        minds.push(straight(i, 5, Gender::Male));
    }
    let mut city = city_of(minds);
    city.link(1, 2, RelationVerb::Partner);
    for i in 10..13 {
        city.link(i, 1, RelationVerb::Parent);
    }
    city.link(13, 2, RelationVerb::Parent);
    assert!(city.may_bear(1, 2));
    city.link(14, 2, RelationVerb::Parent);
    assert!(!city.may_bear(1, 2));
    for seed in 0..50u64 {
        let mut rng = StdRng::seed_from_u64(seed);
        let mut newcomers = vec![newcomer("a")];
        city.generate_children(&mut rng, &mut newcomers);
        assert_eq!(city.citizens().len(), 7);
    }
}

#[test]
fn every_couple_is_listed_once() {
    let mut city = city_of((1..=7).map(|i| straight(i, 30, Gender::Male)).collect());
    city.link(1, 2, RelationVerb::Partner);
    city.link(3, 4, RelationVerb::Spouse);
    city.link(5, 6, RelationVerb::Friend);
    let mut pairs: Vec<(u128, u128, RelationVerb)> = city
        .couples()
        .into_iter()
        .map(|(a, b, k)| (a.min(b), a.max(b), k))
        .collect();
    pairs.sort_by_key(|p| p.0);
    assert_eq!(pairs, vec![(1, 2, RelationVerb::Partner), (3, 4, RelationVerb::Spouse)]);
}

#[test]
fn without_newcomers_nobody_is_born() {
    for seed in 0..60u64 {
        let mut city = spouses();
        let mut rng = StdRng::seed_from_u64(seed);
        let mut newcomers = vec![];
        city.generate_children(&mut rng, &mut newcomers);
        assert_eq!(city.citizens().len(), 3);
    }
}

// ---- the life cycle ----

#[test]
fn a_birthday_adds_a_year() {
    let mut city = city_of(vec![straight(1, 20, Gender::Male)]);
    city.age_citizen(1, 999_999);
    let m = city.citizen(1).unwrap();
    assert_eq!(m.age, 21);
    assert!(m.alive);
}

#[test]
fn a_draw_under_the_threshold_kills() {
    // at 40 the threshold is 10131 millionths
    let mut city = city_of(vec![straight(1, 39, Gender::Male), straight(2, 39, Gender::Male)]);
    city.age_citizen(1, 10_130);
    city.age_citizen(2, 10_131);
    assert!(!city.citizen(1).unwrap().alive);
    assert!(city.citizen(2).unwrap().alive);
    assert_eq!(city.citizen(1).unwrap().age, 40);
}

#[test]
fn the_dead_do_not_age_or_rise() {
    let mut city = city_of(vec![straight(1, 39, Gender::Male)]);
    city.age_citizen(1, 0);
    assert!(!city.citizen(1).unwrap().alive);
    for roll in [0u32, 500_000, 999_999] {
        city.age_citizen(1, roll);
        assert!(!city.citizen(1).unwrap().alive);
        assert_eq!(city.citizen(1).unwrap().age, 40);
    }
}

#[test]
fn a_death_turns_the_survivors_edge_into_a_late_edge() {
    let mut city = city_of(vec![
        straight(1, 50, Gender::Male),
        straight(2, 50, Gender::Female),
        straight(3, 50, Gender::Female),
        straight(4, 50, Gender::Male),
    ]);
    city.link(1, 2, RelationVerb::Partner);
    city.link(3, 4, RelationVerb::Spouse);
    city.link(1, 3, RelationVerb::Friend);
    city.age_citizen(1, 0);
    assert!(holds(&city, 2, RelationVerb::LatePartner, 1));
    assert!(!holds(&city, 2, RelationVerb::Partner, 1));
    // the dead keep the edges they had
    assert!(holds(&city, 1, RelationVerb::Partner, 2));
    assert!(!holds(&city, 1, RelationVerb::LatePartner, 2));
    assert!(holds(&city, 3, RelationVerb::Friend, 1));
    city.age_citizen(4, 0);
    assert!(holds(&city, 3, RelationVerb::LateSpouse, 4));
    assert!(!holds(&city, 3, RelationVerb::Spouse, 4));
    assert!(holds(&city, 4, RelationVerb::Spouse, 3));
    assert!(city.citizen(2).unwrap().is_single());
    assert_consistent(&city);
}

#[test]
fn a_survivor_does_not_mourn_twice() {
    let mut city = city_of(vec![straight(1, 50, Gender::Male), straight(2, 50, Gender::Female)]);
    city.link(1, 2, RelationVerb::Partner);
    city.age_citizen(1, 0);
    let after_first = edges(&city);
    city.bereave(1);
    assert_eq!(edges(&city), after_first);
    city.age_citizen(2, 0);
    // the second death finds no partner edge left to answer
    assert!(holds(&city, 1, RelationVerb::Partner, 2));
    assert!(!holds(&city, 1, RelationVerb::LatePartner, 2));
    assert!(holds(&city, 2, RelationVerb::LatePartner, 1));
    assert_consistent(&city);
}

#[test]
fn a_year_of_ageing_ages_the_living_only() {
    let mut dead = straight(3, 70, Gender::Male);
    dead.alive = false;
    let mut city = city_of(vec![straight(1, 20, Gender::Male), straight(2, 106, Gender::Female), dead]);
    let mut rng = StdRng::seed_from_u64(3);
    city.increment_citizen_ages(&mut rng);
    assert_eq!(city.citizen(1).unwrap().age, 21);
    assert_eq!(city.citizen(2).unwrap().age, 107);
    assert!(!city.citizen(2).unwrap().alive);
    assert_eq!(city.citizen(3).unwrap().age, 70);
    assert!(!city.citizen(3).unwrap().alive);
}

#[test]
fn the_old_die_more_often_than_the_young() {
    let mut young_deaths = 0;
    let mut old_deaths = 0;
    let mut rng = StdRng::seed_from_u64(17);
    for _ in 0..400 {
        let mut city = city_of(vec![straight(1, 35, Gender::Male), straight(2, 95, Gender::Male)]);
        city.increment_citizen_ages(&mut rng);
        if !city.citizen(1).unwrap().alive {
            young_deaths += 1;
        }
        if !city.citizen(2).unwrap().alive {
            old_deaths += 1;
        }
    }
    // 0.27% at 36 and 68% at 96
    assert!(young_deaths < 12);
    assert!(old_deaths > 220 && old_deaths < 330);
}

// ---- the partnership matcher ----

#[test]
fn two_single_adults_who_know_each_other_pair_up() {
    let mut city = city_of(vec![straight(1, 25, Gender::Male), straight(2, 27, Gender::Female)]);
    city.link(1, 2, RelationVerb::Acquaintance);
    assert!(city.may_pair(1, 2));
    let mut rng = StdRng::seed_from_u64(1);
    city.temp_find_partners(&mut rng);
    assert!(holds(&city, 1, RelationVerb::Partner, 2));
    assert!(holds(&city, 2, RelationVerb::Partner, 1));
    for kind in [RelationVerb::Acquaintance, RelationVerb::Friend, RelationVerb::CloseFriend] {
        assert!(!holds(&city, 1, kind, 2));
        assert!(!holds(&city, 2, kind, 1));
    }
    assert_eq!(edges(&city).len(), 2);
    assert!(!city.citizen(1).unwrap().is_single());
    assert_consistent(&city);
}

#[test]
fn friends_and_close_friends_pair_up_too() {
    for kind in [RelationVerb::Friend, RelationVerb::CloseFriend] {
        let mut city = city_of(vec![straight(1, 25, Gender::Male), straight(2, 27, Gender::Female)]);
        city.link(1, 2, kind);
        city.link(1, 2, RelationVerb::Acquaintance);
        let mut rng = StdRng::seed_from_u64(2);
        city.temp_find_partners(&mut rng);
        assert_eq!(
            edges(&city),
            vec![(1, RelationVerb::Partner, 2), (2, RelationVerb::Partner, 1)]
        );
    }
}

#[test]
fn strangers_minors_and_the_taken_do_not_pair_up() {
    // strangers
    let mut city = city_of(vec![straight(1, 25, Gender::Male), straight(2, 27, Gender::Female)]);
    let mut rng = StdRng::seed_from_u64(1);
    city.temp_find_partners(&mut rng);
    assert!(edges(&city).is_empty());
    // at the adult age, not above it
    let mut city = city_of(vec![straight(1, 18, Gender::Male), straight(2, 27, Gender::Female)]);
    city.link(1, 2, RelationVerb::Friend);
    assert!(!city.may_pair(1, 2));
    city.temp_find_partners(&mut rng);
    assert!(!holds(&city, 1, RelationVerb::Partner, 2));
    assert!(holds(&city, 1, RelationVerb::Friend, 2));
    // one of them taken
    let mut city = city_of(vec![
        straight(1, 25, Gender::Male),
        straight(2, 27, Gender::Female),
        straight(3, 30, Gender::Male),
    ]);
    city.link(2, 3, RelationVerb::Spouse);
    city.link(1, 2, RelationVerb::Friend);
    city.temp_find_partners(&mut rng);
    assert!(!holds(&city, 1, RelationVerb::Partner, 2));
    assert!(holds(&city, 2, RelationVerb::Spouse, 3));
    assert_consistent(&city);
}

#[test]
fn orientation_decides_who_fits() {
    let cases = [
        (Sexuality::Hetrosexual, Gender::Male, Sexuality::Hetrosexual, Gender::Female, true),
        (Sexuality::Hetrosexual, Gender::Male, Sexuality::Hetrosexual, Gender::Male, false),
        (Sexuality::Homosexual, Gender::Male, Sexuality::Homosexual, Gender::Male, true),
        (Sexuality::Homosexual, Gender::Male, Sexuality::Hetrosexual, Gender::Male, false),
        (Sexuality::Homosexual, Gender::Female, Sexuality::Bisexual, Gender::Female, true),
        (Sexuality::Bisexual, Gender::Male, Sexuality::Hetrosexual, Gender::Female, true),
        (Sexuality::Asexual, Gender::Male, Sexuality::Bisexual, Gender::Female, false),
        (Sexuality::Hetrosexual, Gender::Ambiguous, Sexuality::Homosexual, Gender::Female, true),
        (Sexuality::Hetrosexual, Gender::Male, Sexuality::Homosexual, Gender::Ambiguous, true),
    ];
    for (s1, g1, s2, g2, fits) in cases {
        let a = person(1, 30, g1, s1);
        let b = person(2, 30, g2, s2);
        assert_eq!(city_sim::partners::is_sexuality_compatible(&a, &b), fits);
        assert_eq!(city_sim::partners::is_sexuality_compatible(&b, &a), fits);
        let mut city = city_of(vec![a, b]);
        city.link(1, 2, RelationVerb::Friend);
        let mut rng = StdRng::seed_from_u64(4);
        city.temp_find_partners(&mut rng);
        assert_eq!(holds(&city, 1, RelationVerb::Partner, 2), fits);
    }
}

#[test]
fn test_matching() {
    let mut mind = straight(1, 30, Gender::Male);
    mind.gender = Gender::Male;
    mind.sexuality = Sexuality::Hetrosexual;
    let targets = city_sim::partners::target_sexuality_genders(&mind);
    println!("Straight Male Targets: {:#?}", targets);
    assert_eq!(targets, vec![Gender::Ambiguous, Gender::Female]);
    mind.gender = Gender::Female;
    mind.sexuality = Sexuality::Hetrosexual;
    let targets = city_sim::partners::target_sexuality_genders(&mind);
    println!("Straight Female Targets: {:#?}", targets);
    assert_eq!(targets, vec![Gender::Ambiguous, Gender::Male]);
    mind.sexuality = Sexuality::Asexual;
    assert!(city_sim::partners::target_sexuality_genders(&mind).is_empty());
    mind.sexuality = Sexuality::Bisexual;
    assert_eq!(city_sim::partners::target_sexuality_genders(&mind).len(), 3);
}

#[test]
fn one_seeker_takes_one_partner_among_many() {
    for seed in 0..20u64 {
        let mut minds = vec![straight(1, 30, Gender::Male)];
        for i in 2..=6 {
            minds.push(straight(i, 30, Gender::Female));
        }
        let mut city = city_of(minds);
        for i in 2..=6 {
            city.link(1, i, RelationVerb::Friend);
        }
        let mut rng = StdRng::seed_from_u64(seed);
        city.temp_find_partners(&mut rng);
        assert_eq!(held(&city, 1, RelationVerb::Partner).len(), 1);
        assert_eq!(held(&city, 1, RelationVerb::Friend).len(), 4);
        assert_consistent(&city);
    }
}

#[test]
fn the_matcher_picks_different_partners_for_different_seeds() {
    let mut chosen = std::collections::HashSet::new();
    for seed in 0..40u64 {
        let mut minds = vec![straight(1, 30, Gender::Male)];
        for i in 2..=6 {
            minds.push(straight(i, 30, Gender::Female));
        }
        let mut city = city_of(minds);
        for i in 2..=6 {
            city.link(1, i, RelationVerb::Friend);
        }
        let mut rng = StdRng::seed_from_u64(seed);
        city.temp_find_partners(&mut rng);
        chosen.insert(held(&city, 1, RelationVerb::Partner)[0]);
    }
    assert!(chosen.len() >= 3);
}

#[test]
fn nobody_who_could_pair_is_left_after_the_matcher() {
    let mut rng = StdRng::seed_from_u64(23);
    let mut city = random_city(&mut rng, culture(), (0..80).map(|i| newcomer(&i.to_string())).collect());
    for _ in 0..4 {
        city.temp_add_friends(&mut rng);
    }
    city.temp_find_partners(&mut rng);
    assert_consistent(&city);
    let ids = city.citizens();
    let mut couples = 0;
    for &a in &ids {
        if !city.citizen(a).unwrap().is_single() {
            couples += 1;
        }
        for &b in &ids {
            assert!(!city.may_pair(a, b));
        }
    }
    assert!(couples > 10);
}

// ---- the partnership evolver ----

#[test]
fn a_split_makes_exes_and_restores_the_surnames() {
    let mut city = city_of(vec![straight(1, 30, Gender::Male), straight(2, 30, Gender::Female)]);
    city.link(1, 2, RelationVerb::Spouse);
    city.rename(1, "Married".to_string());
    city.rename(2, "Married".to_string());
    city.separate(1, 2, RelationVerb::Spouse);
    assert_eq!(
        edges(&city),
        vec![(1, RelationVerb::ExSpouse, 2), (2, RelationVerb::ExSpouse, 1)]
    );
    assert_eq!(city.citizen(1).unwrap().last_name, "Last1");
    assert_eq!(city.citizen(2).unwrap().last_name, "Last2");
    let mut city = city_of(vec![straight(1, 30, Gender::Male), straight(2, 30, Gender::Female)]);
    city.link(1, 2, RelationVerb::Partner);
    city.separate(2, 1, RelationVerb::Partner);
    assert_eq!(
        edges(&city),
        vec![(1, RelationVerb::ExPartner, 2), (2, RelationVerb::ExPartner, 1)]
    );
}

#[test]
fn a_wedding_makes_spouses_with_the_names_of_the_custom() {
    let mut city = city_of(vec![straight(1, 30, Gender::Male), straight(2, 30, Gender::Female)]);
    city.link(1, 2, RelationVerb::Partner);
    let names = city.married_names(1, 2, 0);
    assert_eq!(names.0, "Last1-Last2");
    assert_eq!(names.1, "Last1-Last2");
    city.wed(1, 2, names.0, names.1);
    assert_eq!(edges(&city), vec![(1, RelationVerb::Spouse, 2), (2, RelationVerb::Spouse, 1)]);
    assert_eq!(city.citizen(1).unwrap().last_name, "Last1-Last2");
    assert_eq!(city.citizen(2).unwrap().last_name, "Last1-Last2");
    assert_eq!(city.citizen(2).unwrap().origional_last_name, "Last2");
}

#[test]
fn a_year_moves_a_couple_along_its_course_only() {
    let mut stayed = 0;
    let mut married = 0;
    let mut split = 0;
    for seed in 0..600u64 {
        let mut city = city_of(vec![
            straight(1, 30, Gender::Male),
            straight(2, 30, Gender::Female),
            straight(3, 30, Gender::Female),
        ]);
        city.link(1, 2, RelationVerb::Partner);
        city.link(1, 3, RelationVerb::Friend);
        let mut rng = StdRng::seed_from_u64(seed);
        city.temp_partner_evolution(&mut rng);
        assert!(holds(&city, 1, RelationVerb::Friend, 3));
        assert_consistent(&city);
        let now = edges(&city);
        assert_eq!(now.len(), 4);
        if holds(&city, 1, RelationVerb::Partner, 2) {
            stayed += 1;
            assert_eq!(city.citizen(1).unwrap().last_name, "Last1");
        } else if holds(&city, 1, RelationVerb::Spouse, 2) {
            married += 1;
            assert!(holds(&city, 2, RelationVerb::Spouse, 1));
            let surname = city.citizen(1).unwrap().last_name.clone();
            assert!(surname == "Last1-Last2" || surname == "Last2-Last1");
            assert_eq!(city.citizen(2).unwrap().last_name, surname);
        } else {
            split += 1;
            assert!(holds(&city, 1, RelationVerb::ExPartner, 2));
            assert!(holds(&city, 2, RelationVerb::ExPartner, 1));
            assert_eq!(city.citizen(2).unwrap().last_name, "Last2");
        }
    }
    // 6% split, then 7.5% of the rest marry
    assert!(split > 15 && split < 65, "{} splits", split);
    assert!(married > 20 && married < 75, "{} weddings", married);
    assert_eq!(stayed + married + split, 600);
}

#[test]
fn spouses_split_or_stay() {
    let mut split = 0;
    for seed in 0..600u64 {
        let mut city = city_of(vec![straight(1, 30, Gender::Male), straight(2, 30, Gender::Female)]);
        city.link(1, 2, RelationVerb::Spouse);
        let mut rng = StdRng::seed_from_u64(seed);
        city.temp_partner_evolution(&mut rng);
        if holds(&city, 1, RelationVerb::ExSpouse, 2) {
            split += 1;
        } else {
            assert!(holds(&city, 1, RelationVerb::Spouse, 2));
        }
        assert_eq!(edges(&city).len(), 2);
    }
    assert!(split > 5 && split < 40, "{} splits", split);
}

#[test]
fn the_partner_of_the_dead_is_left_alone() {
    for seed in 0..100u64 {
        let mut gone = straight(2, 30, Gender::Female);
        gone.alive = false;
        let mut city = city_of(vec![straight(1, 30, Gender::Male), gone]);
        city.link(1, 2, RelationVerb::Partner);
        let before = edges(&city);
        let mut rng = StdRng::seed_from_u64(seed);
        city.temp_partner_evolution(&mut rng);
        assert_eq!(edges(&city), before);
    }
}

#[test]
fn nobody_marries_without_a_marriage_custom() {
    for seed in 0..300u64 {
        let mut city = city_of(vec![straight(1, 30, Gender::Male), straight(2, 30, Gender::Female)]);
        city.culture.marriage_surname_formats = vec![];
        city.link(1, 2, RelationVerb::Partner);
        let mut rng = StdRng::seed_from_u64(seed);
        city.temp_partner_evolution(&mut rng);
        assert!(!holds(&city, 1, RelationVerb::Spouse, 2));
    }
}

// ---- whole years ----

#[test]
fn years_keep_the_city_consistent() {
    for seed in [1u64, 2, 3] {
        let mut rng = StdRng::seed_from_u64(seed);
        let mut city = random_city(&mut rng, culture(), (0..70).map(|i| newcomer(&i.to_string())).collect());
        assert_eq!(city.citizens().len(), 70);
        assert_consistent(&city);
        for year in 1..=40usize {
            let mut newcomers: Vec<Newcomer> = (0..50).map(|i| newcomer(&format!("y{}n{}", year, i))).collect();
            let mut ventures = Vec::new();
            city.simulate_year(&mut rng, &mut newcomers, &mut ventures);
            assert_eq!(city.year, year);
            assert_consistent(&city);
        }
    }
}

#[test]
fn symmetric_kinds_hold_both_ways_among_the_living() {
    let mut rng = StdRng::seed_from_u64(8);
    let mut city = random_city(&mut rng, culture(), (0..70).map(|i| newcomer(&i.to_string())).collect());
    for year in 0..30 {
        let mut newcomers: Vec<Newcomer> = (0..50).map(|i| newcomer(&format!("y{}n{}", year, i))).collect();
        let mut ventures = Vec::new();
        city.simulate_year(&mut rng, &mut newcomers, &mut ventures);
    }
    let living = city.current_citizens();
    let mut seen = 0;
    for &a in &living {
        for kind in KINDS {
            for b in held(&city, a, kind) {
                if kind.is_symmetric() && city.citizen(b).unwrap().alive {
                    assert!(holds(&city, b, kind, a));
                    seen += 1;
                }
                if !kind.is_symmetric() {
                    assert!(holds(&city, b, kind.mirror(), a));
                }
            }
        }
    }
    assert!(seen > 50);
}

#[test]
fn the_dead_stay_dead_and_the_living_age() {
    let mut rng = StdRng::seed_from_u64(9);
    let mut city = random_city(&mut rng, culture(), (0..60).map(|i| newcomer(&i.to_string())).collect());
    let mut deaths = 0;
    for year in 0..60 {
        let before: Vec<(u128, bool, u32)> = city
            .citizens()
            .into_iter()
            .map(|id| {
                let m = city.citizen(id).unwrap();
                (id, m.alive, m.age)
            })
            .collect();
        let mut newcomers: Vec<Newcomer> = (0..40).map(|i| newcomer(&format!("y{}n{}", year, i))).collect();
        let mut ventures = Vec::new();
        city.simulate_year(&mut rng, &mut newcomers, &mut ventures);
        for (id, alive, age) in before {
            let now = city.citizen(id).expect("a citizen left the city");
            if alive {
                assert_eq!(now.age, age + 1);
                if !now.alive {
                    deaths += 1;
                }
            } else {
                assert!(!now.alive);
                assert_eq!(now.age, age);
            }
        }
        for id in city.citizens() {
            let m = city.citizen(id).unwrap();
            if m.alive {
                assert!(m.age < 107);
            }
        }
    }
    assert!(deaths > 20);
}

#[test]
fn newborns_are_born_in_the_year_of_the_tick() {
    let mut rng = StdRng::seed_from_u64(12);
    let mut city = random_city(&mut rng, culture(), (0..80).map(|i| newcomer(&i.to_string())).collect());
    let mut births = 0;
    for year in 1..=30i32 {
        let known: std::collections::HashSet<u128> = city.citizens().into_iter().collect();
        let mut newcomers: Vec<Newcomer> = (0..40).map(|i| newcomer(&format!("y{}n{}", year, i))).collect();
        let mut ventures = Vec::new();
        city.simulate_year(&mut rng, &mut newcomers, &mut ventures);
        for id in city.citizens() {
            if !known.contains(&id) {
                let m = city.citizen(id).unwrap();
                assert_eq!(m.age, 0);
                assert!(m.alive);
                assert_eq!(m.year_of_birth, year);
                assert_eq!(m.get_relations(RelationVerb::Parent).len(), 2);
                births += 1;
            }
        }
    }
    assert!(births > 5);
}

#[test]
fn a_first_year_city_is_made_of_grown_strangers() {
    let mut rng = StdRng::seed_from_u64(2);
    let city = random_city(&mut rng, culture(), (0..40).map(|i| newcomer(&i.to_string())).collect());
    assert_eq!(city.year, 0);
    assert!(city.institutions.is_empty());
    assert_eq!(city.population.len(), 40);
    let mut ages = std::collections::HashSet::new();
    for id in city.citizens() {
        let m = city.citizen(id).unwrap();
        assert!(m.alive && m.employer.is_none());
        assert!(m.age >= 18 && m.age < 48);
        assert_eq!(m.year_of_birth, m.age as i32 - 36);
        assert_eq!(m.relations.len(), 0);
        assert_eq!(m.last_name, m.origional_last_name);
        ages.insert(m.age);
    }
    assert!(ages.len() > 8);
}

#[test]
fn test_random_mind() {
    let mut rng = StdRng::seed_from_u64(1);
    let city = random_city(&mut rng, culture(), vec![newcomer("only")]);
    let m = city_sim::mind::random_mind(&mut rng, &city.culture, 0, newcomer("extra"));
    println!(
        "{} {}, {}, age: {}, born: {}",
        m.first_name,
        m.last_name,
        m.gender.label(),
        m.age,
        m.year_of_birth
    );
    println!("  They are {} and {}", m.sexuality.label(), if m.is_single() { "Single" } else { "Taken" });
    println!("  {}", m.description.render(None));
    assert!(m.alive);
    assert!(m.is_single());
    assert_eq!(m.last_name, "extra-family");
    assert!(["extra-boy", "extra-girl", "extra-child"].contains(&m.first_name.as_str()));
    assert_ne!(m.id, city.citizens()[0]);
}

// ---- one couple's year, with the draws given ----

fn pair(tier: RelationVerb) -> City {
    let mut city = city_of(vec![straight(1, 30, Gender::Male), straight(2, 30, Gender::Female)]);
    city.culture.marriage_surname_formats = vec![
        (format(false, true, false, false, "", ""), format(false, false, false, true, "", "")),
        (format(false, true, false, true, "-", ""), format(true, false, false, true, " ", "!")),
    ];
    city.link(1, 2, tier);
    city
}

#[test]
fn the_draws_decide_a_partners_year() {
    // the split comes first: under 60 in a thousand
    let mut city = pair(RelationVerb::Partner);
    city.evolve_couple(1, 2, RelationVerb::Partner, 59, 0, 1);
    assert_eq!(
        edges(&city),
        vec![(1, RelationVerb::ExPartner, 2), (2, RelationVerb::ExPartner, 1)]
    );
    // else marriage: under 75 in a thousand, with the custom drawn
    let mut city = pair(RelationVerb::Partner);
    city.evolve_couple(1, 2, RelationVerb::Partner, 60, 74, 1);
    assert_eq!(edges(&city), vec![(1, RelationVerb::Spouse, 2), (2, RelationVerb::Spouse, 1)]);
    assert_eq!(city.citizen(1).unwrap().last_name, "Last1-Last2");
    assert_eq!(city.citizen(2).unwrap().last_name, "First1 Last2!");
    let mut city = pair(RelationVerb::Partner);
    city.evolve_couple(2, 1, RelationVerb::Partner, 999, 0, 0);
    assert_eq!(city.citizen(2).unwrap().last_name, "Last2");
    assert_eq!(city.citizen(1).unwrap().last_name, "Last1");
    assert!(holds(&city, 1, RelationVerb::Spouse, 2));
    // else nothing
    let mut city = pair(RelationVerb::Partner);
    city.evolve_couple(1, 2, RelationVerb::Partner, 60, 75, 0);
    assert_eq!(edges(&city), vec![(1, RelationVerb::Partner, 2), (2, RelationVerb::Partner, 1)]);
}

#[test]
fn the_draws_decide_a_spouses_year() {
    // spouses split under 30 in a thousand and never marry again
    let mut city = pair(RelationVerb::Spouse);
    city.rename(1, "Wed".to_string());
    city.evolve_couple(1, 2, RelationVerb::Spouse, 30, 0, 0);
    assert_eq!(edges(&city), vec![(1, RelationVerb::Spouse, 2), (2, RelationVerb::Spouse, 1)]);
    assert_eq!(city.citizen(1).unwrap().last_name, "Wed");
    city.evolve_couple(1, 2, RelationVerb::Spouse, 29, 999, 0);
    assert_eq!(
        edges(&city),
        vec![(1, RelationVerb::ExSpouse, 2), (2, RelationVerb::ExSpouse, 1)]
    );
    assert_eq!(city.citizen(1).unwrap().last_name, "Last1");
}

#[test]
fn the_steps_of_a_romance_follow_the_rates() {
    let (partner, spouse) = (RelationVerb::Partner, RelationVerb::Spouse);
    assert_eq!(city_sim::partners::romance_step(partner, 59, 999), city_sim::partners::RomanceStep::Split);
    assert_eq!(city_sim::partners::romance_step(partner, 60, 74), city_sim::partners::RomanceStep::Marry);
    assert_eq!(city_sim::partners::romance_step(partner, 60, 75), city_sim::partners::RomanceStep::Stay);
    assert_eq!(city_sim::partners::romance_step(spouse, 29, 999), city_sim::partners::RomanceStep::Split);
    assert_eq!(city_sim::partners::romance_step(spouse, 30, 0), city_sim::partners::RomanceStep::Stay);
    assert_eq!(city_sim::partners::former(partner), RelationVerb::ExPartner);
    assert_eq!(city_sim::partners::former(spouse), RelationVerb::ExSpouse);
    assert_eq!(city_sim::lifecycle::late(partner), RelationVerb::LatePartner);
    assert_eq!(city_sim::lifecycle::late(spouse), RelationVerb::LateSpouse);
    assert_eq!(city_sim::children::birth_rate(partner), 100);
    assert_eq!(city_sim::children::birth_rate(spouse), 200);
    assert_eq!(city_sim::children::birth_year(1200), 1200);
    assert_eq!(city_sim::children::birth_year(usize::MAX), i32::MAX);
}

#[test]
fn nobody_holds_two_partners_over_the_years() {
    let mut rng = StdRng::seed_from_u64(41);
    let mut city = random_city(&mut rng, culture(), (0..90).map(|i| newcomer(&i.to_string())).collect());
    let mut taken = 0;
    for year in 0..40 {
        let mut newcomers: Vec<Newcomer> = (0..50).map(|i| newcomer(&format!("y{}n{}", year, i))).collect();
        let mut ventures = Vec::new();
        city.simulate_year(&mut rng, &mut newcomers, &mut ventures);
        for id in city.citizens() {
            let m = city.citizen(id).unwrap();
            let held = m.get_relations(RelationVerb::Partner).len() + m.get_relations(RelationVerb::Spouse).len();
            assert!(held <= 1);
            taken += held;
        }
    }
    assert!(taken > 100);
}

// ---- a child from the draws given ----

#[test]
fn a_taken_id_makes_no_child() {
    let city = spouses();
    let mut blank = straight(3, 0, Gender::Female);
    blank.last_name = "Draw".to_string();
    assert!(city.child_from(blank, 1, 2, 0, false, looks("new")).is_none());
}

#[test]
fn a_free_id_makes_the_child_of_the_draws() {
    let city = spouses();
    let girl = city
        .child_from(straight(50, 7, Gender::Female), 1, 2, 0, false, looks("new"))
        .expect("a child");
    assert_eq!(girl.id, 50);
    assert_eq!(girl.age, 0);
    assert_eq!(girl.year_of_birth, 3);
    assert_eq!(girl.last_name, "First2dotter");
    assert_eq!(girl.origional_last_name, "Last50");
    assert_eq!(girl.description.eye_colour, "new-eyes");
    let boy = city
        .child_from(straight(51, 7, Gender::Male), 1, 2, 0, true, looks("new"))
        .unwrap();
    assert_eq!(boy.last_name, "First1son");
    let heads = city
        .child_from(straight(52, 7, Gender::Ambiguous), 1, 2, 0, true, looks("new"))
        .unwrap();
    assert_eq!(heads.last_name, "First2dotter");
    let tails = city
        .child_from(straight(53, 7, Gender::Ambiguous), 2, 1, 0, false, looks("new"))
        .unwrap();
    assert_eq!(tails.last_name, "First2son");
}

#[test]
fn a_child_is_owed_where_no_id_can_clash() {
    // the citizens of this city carry small numbers for ids, which no drawn id is
    let city = spouses();
    for seed in 0..60u64 {
        let mut rng = StdRng::seed_from_u64(seed);
        assert!(city.prepare_child(&mut rng, 1, 2, newcomer("kid")).is_some());
    }
}

// ---- late edges, and the draw for a child ----

#[test]
fn a_late_kind_is_written_only_towards_the_dead() {
    let mut gone = straight(2, 50, Gender::Female);
    gone.alive = false;
    let mut city = city_of(vec![straight(1, 50, Gender::Male), gone, straight(3, 50, Gender::Female)]);
    city.link(1, 2, RelationVerb::LateSpouse);
    assert!(holds(&city, 1, RelationVerb::LateSpouse, 2));
    assert!(!holds(&city, 2, RelationVerb::LateSpouse, 1));
    city.link(2, 1, RelationVerb::LatePartner);
    assert!(holds(&city, 1, RelationVerb::LatePartner, 2));
    assert!(!holds(&city, 2, RelationVerb::LatePartner, 1));
    let before = edges(&city);
    city.link(1, 3, RelationVerb::LatePartner);
    assert_eq!(edges(&city), before);
    assert!(city.may_be_held(RelationVerb::LatePartner, 2));
    assert!(!city.may_be_held(RelationVerb::LatePartner, 3));
    assert!(city.may_be_held(RelationVerb::Partner, 3));
    assert_consistent(&city);
}

#[test]
fn the_dead_keep_their_edges_when_the_other_dies() {
    let mut city = city_of(vec![
        straight(1, 50, Gender::Male),
        straight(2, 50, Gender::Female),
        straight(3, 50, Gender::Male),
        straight(4, 50, Gender::Female),
    ]);
    city.link(1, 2, RelationVerb::Partner);
    city.link(3, 4, RelationVerb::Spouse);
    // the first of each couple is dead though the other never heard of it
    city.population.get_mut(&1).unwrap().alive = false;
    city.population.get_mut(&3).unwrap().alive = false;
    let before = edges(&city);
    city.age_citizen(2, 0);
    city.age_citizen(4, 0);
    assert!(!city.citizen(2).unwrap().alive);
    assert!(!city.citizen(4).unwrap().alive);
    assert_eq!(edges(&city), before);
    assert!(holds(&city, 1, RelationVerb::Partner, 2));
    assert!(!holds(&city, 1, RelationVerb::LatePartner, 2));
    assert!(!holds(&city, 3, RelationVerb::LateSpouse, 4));
    assert_consistent(&city);
}

#[test]
fn a_year_of_ageing_leaves_the_dead_their_edges() {
    for seed in 0..20u64 {
        let mut city = city_of(vec![
            straight(1, 80, Gender::Male),
            straight(2, 80, Gender::Female),
            straight(3, 80, Gender::Male),
            straight(4, 80, Gender::Female),
            straight(5, 20, Gender::Male),
        ]);
        city.link(1, 2, RelationVerb::Partner);
        city.link(3, 4, RelationVerb::Spouse);
        city.link(5, 1, RelationVerb::Friend);
        city.population.get_mut(&1).unwrap().alive = false;
        let of_the_dead: Vec<(u128, RelationVerb, u128)> =
            edges(&city).into_iter().filter(|e| e.0 == 1).collect();
        let mut rng = StdRng::seed_from_u64(seed);
        city.increment_citizen_ages(&mut rng);
        let now: Vec<(u128, RelationVerb, u128)> = edges(&city).into_iter().filter(|e| e.0 == 1).collect();
        assert_eq!(now, of_the_dead);
        // whoever is alive holds nobody dead as spouse
        for (a, b) in [(3, 4), (4, 3)] {
            if city.citizen(a).unwrap().alive && !city.citizen(b).unwrap().alive {
                assert!(holds(&city, a, RelationVerb::LateSpouse, b));
                assert!(!holds(&city, a, RelationVerb::Spouse, b));
            }
        }
        assert!(holds(&city, 5, RelationVerb::Friend, 1));
        assert_consistent(&city);
    }
}

#[test]
fn a_couple_has_a_child_where_the_draw_falls_under_the_rate() {
    let spouse_rate = city_sim::children::birth_rate(RelationVerb::Spouse);
    let partner_rate = city_sim::children::birth_rate(RelationVerb::Partner);
    assert_eq!(spouse_rate, 200);
    assert!(partner_rate < spouse_rate);
    let mut rng = StdRng::seed_from_u64(5);
    // the draw is just too high
    let mut city = spouses();
    let before = edges(&city);
    let child = city.prepare_child(&mut rng, 1, 2, newcomer("kid"));
    city.bear(1, 2, RelationVerb::Spouse, spouse_rate, child);
    assert_eq!(city.citizens().len(), 3);
    assert_eq!(edges(&city), before);
    // the same draw would do for nobody: partners need less
    let child = city.prepare_child(&mut rng, 1, 2, newcomer("kid"));
    city.bear(1, 2, RelationVerb::Partner, partner_rate, child);
    assert_eq!(city.citizens().len(), 3);
    // no child was prepared
    city.bear(1, 2, RelationVerb::Spouse, 0, None);
    assert_eq!(city.citizens().len(), 3);
    // the draw falls under the rate
    let child = city.prepare_child(&mut rng, 1, 2, newcomer("kid")).expect("a child");
    let id = child.id;
    city.bear(1, 2, RelationVerb::Spouse, spouse_rate - 1, Some(child));
    assert_eq!(city.citizens().len(), 4);
    assert_eq!(held(&city, id, RelationVerb::Parent), vec![1, 2]);
    for x in city.citizens() {
        assert_eq!(holds(&city, x, RelationVerb::Child, id), x == 1 || x == 2);
    }
    assert_consistent(&city);
}

#[test]
fn a_couple_past_the_limits_has_no_child_whatever_the_draw() {
    let mut city = city_of(vec![straight(1, 60, Gender::Male), straight(2, 40, Gender::Female)]);
    city.link(1, 2, RelationVerb::Spouse);
    assert!(!city.may_bear(1, 2));
    let mut rng = StdRng::seed_from_u64(5);
    let child = city.prepare_child(&mut rng, 1, 2, newcomer("kid"));
    city.bear(1, 2, RelationVerb::Spouse, 0, child);
    assert_eq!(city.citizens().len(), 2);
}

#[test]
fn no_two_newborns_of_a_year_share_both_parents() {
    let mut most = 0;
    for seed in 0..60u64 {
        let mut minds = Vec::new();
        for c in 0..4u128 {
            minds.push(straight(10 * c + 1, 30, Gender::Male));
            minds.push(straight(10 * c + 2, 30, Gender::Female));
            minds.push(straight(10 * c + 3, 5, Gender::Female));
        }
        let mut city = city_of(minds);
        for c in 0..4u128 {
            city.link(10 * c + 1, 10 * c + 2, RelationVerb::Spouse);
            city.link(10 * c + 3, 10 * c + 1, RelationVerb::Parent);
            city.link(10 * c + 3, 10 * c + 2, RelationVerb::Parent);
        }
        let mut rng = StdRng::seed_from_u64(seed);
        let mut newcomers: Vec<Newcomer> = (0..9).map(|i| newcomer(&format!("n{}", i))).collect();
        city.generate_children(&mut rng, &mut newcomers);
        let born: Vec<u128> = city.citizens().into_iter().filter(|x| *x > 100).collect();
        assert!(born.len() <= 4);
        assert_eq!(newcomers.len() + born.len(), 9);
        let mut seen = Vec::new();
        for id in &born {
            let parents = held(&city, *id, RelationVerb::Parent);
            assert_eq!(parents.len(), 2);
            assert_eq!(parents[0] + 1, parents[1]);
            assert!(!seen.contains(&parents));
            for x in city.citizens() {
                assert_eq!(holds(&city, x, RelationVerb::Child, *id), parents.contains(&x));
            }
            // the child the two had is a sibling, both ways
            let elder = parents[0] + 2;
            assert_eq!(held(&city, *id, RelationVerb::Sibling), vec![elder]);
            assert!(holds(&city, elder, RelationVerb::Sibling, *id));
            seen.push(parents);
        }
        most = most.max(born.len());
        assert_consistent(&city);
    }
    assert!(most >= 2);
}

#[test]
fn four_children_between_them_leave_room_for_one() {
    let mut minds = vec![straight(1, 30, Gender::Male), straight(2, 30, Gender::Female)];
    for i in 10..15 {
        minds.push(straight(i, 5, Gender::Male));
    }
    let mut city = city_of(minds);
    city.link(1, 2, RelationVerb::Spouse);
    for i in 10..13 {
        city.link(i, 1, RelationVerb::Parent);
    }
    city.link(13, 2, RelationVerb::Parent);
    let mut rng = StdRng::seed_from_u64(8);
    let child = city.prepare_child(&mut rng, 1, 2, newcomer("fifth")).expect("a child");
    let fifth = child.id;
    city.bear(1, 2, RelationVerb::Spouse, 0, Some(child));
    assert_eq!(city.citizens().len(), 8);
    let mut expected = vec![10, 11, 12, fifth];
    expected.sort();
    assert_eq!(held(&city, 1, RelationVerb::Child), expected);
    let mut expected = vec![13, fifth];
    expected.sort();
    assert_eq!(held(&city, 2, RelationVerb::Child), expected);
    assert_eq!(held(&city, fifth, RelationVerb::Parent), vec![1, 2]);
    assert_eq!(held(&city, fifth, RelationVerb::Sibling), vec![10, 11, 12, 13]);
    assert_eq!(held(&city, 10, RelationVerb::Parent), vec![1]);
    // with five between them no draw brings another
    let sixth = city.prepare_child(&mut rng, 1, 2, newcomer("sixth"));
    city.bear(1, 2, RelationVerb::Spouse, 0, sixth);
    assert_eq!(city.citizens().len(), 8);
    assert_consistent(&city);
}

#[test]
fn a_new_city_is_peopled_with_its_arrivals() {
    let mut rng = StdRng::seed_from_u64(4);
    let city = random_city(&mut rng, culture(), (0..25).map(|i| newcomer(&format!("a{}", i))).collect());
    assert_eq!(city.year, 0);
    assert_eq!(city.citizens().len(), 25);
    assert!(city.institution_ids().is_empty());
    let mut families: Vec<String> = Vec::new();
    for id in city.citizens() {
        let m = city.citizen(id).unwrap();
        assert_eq!(m.id, id);
        assert!(m.alive && m.employer.is_none());
        assert!(m.age >= 18 && m.age < 48);
        assert_eq!(m.year_of_birth, m.age as i32 - 36);
        let tag = m.last_name.strip_suffix("-family").expect("the surname of an arrival").to_string();
        assert_eq!(m.origional_last_name, m.last_name);
        let first = match m.gender {
            Gender::Male => format!("{}-boy", tag),
            Gender::Female => format!("{}-girl", tag),
            Gender::Ambiguous => format!("{}-child", tag),
        };
        assert_eq!(m.first_name, first);
        assert_eq!(m.description.hair_colour, format!("{}-colour", tag));
        for kind in KINDS {
            assert!(held(&city, id, kind).is_empty());
        }
        families.push(tag);
    }
    families.sort();
    families.dedup();
    assert_eq!(families.len(), 25);
    let empty = random_city(&mut rng, culture(), vec![]);
    assert!(empty.citizens().is_empty());
}
