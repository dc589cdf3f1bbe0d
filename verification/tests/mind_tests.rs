use city_sim::dice::{chance, random_below};
use city_sim::mind::{
    blank_mind, gender_of_roll, random_gender, random_sexuality, sexuality_of_roll, Gender, Mind,
    Newcomer, Sexuality,
};
use city_sim::culture::{Culture, Era};
use city_sim::dieties::Diety;
use city_sim::personality::{Personality, PersonalityTrait};
use city_sim::physical_description::PhysicalDescription;
use city_sim::relations::{RelationVerb, Relations};
use city_sim::surnames::shuffled_positions;
use rand::rngs::StdRng;
use rand::SeedableRng;
use std::collections::HashMap;

fn looks() -> PhysicalDescription {
    PhysicalDescription {
        hair_colour: "brown".to_string(),
        hair_style: "short".to_string(),
        hair_adjective: "thick".to_string(),
        eye_colour: "grey".to_string(),
        height_adjective: "short".to_string(),
        build_adjective: "stout".to_string(),
    }
}

fn person(sexuality: Sexuality) -> Mind {
    Mind {
        id: 1,
        alive: true,
        first_name: "Ada".to_string(),
        last_name: "Brook".to_string(),
        origional_last_name: "Brook".to_string(),
        age: 30,
        gender: Gender::Female,
        sexuality,
        relations: Relations::new(),
        description: looks(),
        personality: Personality { traits: vec![PersonalityTrait::Honest], thiest: false },
        dieties: vec![],
        employer: None,
        year_of_birth: 0,
    }
}

fn culture(dieties: Vec<Diety>) -> Culture {
    Culture {
        id: 1,
        adult_age: 18,
        landlocked: false,
        staple_meats: vec![],
        staple_plants: vec![],
        avg_lifespan: 75,
        avg_lifespan_variance: 10,
        child_surname_formats: vec![],
        marriage_surname_formats: vec![],
        historical_names: vec![],
        dieties: dieties.into_iter().map(|d| (d.id, d)).collect(),
        era: Era::Fantasy,
    }
}

fn newcomer(thiest: bool) -> Newcomer {
    Newcomer {
        male_first_name: "Tom".to_string(),
        female_first_name: "Tess".to_string(),
        ambiguous_first_name: "Tay".to_string(),
        last_name: "Hill".to_string(),
        description: looks(),
        personality: Personality { traits: vec![], thiest },
    }
}

#[test]
fn single_means_asexual_or_without_partner_and_spouse() {
    for sexuality in [Sexuality::Hetrosexual, Sexuality::Homosexual, Sexuality::Bisexual, Sexuality::Asexual] {
        let mut m = person(sexuality);
        assert!(m.is_single());
        m.relations.insert(RelationVerb::Friend, 2);
        m.relations.insert(RelationVerb::ExSpouse, 3);
        m.relations.insert(RelationVerb::LatePartner, 4);
        assert!(m.is_single());
        m.relations.insert(RelationVerb::Partner, 5);
        assert_eq!(m.is_single(), sexuality == Sexuality::Asexual);
        m.relations.remove(RelationVerb::Partner, 5);
        assert!(m.is_single());
        m.relations.insert(RelationVerb::Spouse, 6);
        assert_eq!(m.is_single(), sexuality == Sexuality::Asexual);
    }
}

#[test]
fn the_spouse_comes_before_the_partner() {
    let mut m = person(Sexuality::Bisexual);
    assert_eq!(m.get_current_romantic_partner(), None);
    m.relations.insert(RelationVerb::Partner, 5);
    assert_eq!(m.get_current_romantic_partner(), Some((5, RelationVerb::Partner)));
    m.relations.insert(RelationVerb::Spouse, 6);
    assert_eq!(m.get_current_romantic_partner(), Some((6, RelationVerb::Spouse)));
    m.relations.remove(RelationVerb::Spouse, 6);
    assert_eq!(m.get_current_romantic_partner(), Some((5, RelationVerb::Partner)));
    m.relations.remove(RelationVerb::Partner, 5);
    assert_eq!(m.get_current_romantic_partner(), None);
}

#[test]
fn has_active_looks_for_a_held_citizen() {
    let mut m = person(Sexuality::Bisexual);
    let romance = vec![RelationVerb::Partner, RelationVerb::Spouse];
    assert!(!m.has_active(&romance));
    assert!(!m.has_active(&vec![]));
    m.relations.insert(RelationVerb::Spouse, 6);
    assert!(m.has_active(&romance));
    assert!(!m.has_active(&vec![RelationVerb::Partner]));
    m.relations.remove(RelationVerb::Spouse, 6);
    // the empty bucket does not count
    assert!(!m.has_active(&romance));
}

#[test]
fn family_is_whoever_is_held_under_a_kin_line() {
    let mut m = person(Sexuality::Bisexual);
    let kin = [
        RelationVerb::Parent,
        RelationVerb::Grandparent,
        RelationVerb::Child,
        RelationVerb::Grandchild,
        RelationVerb::Pibling,
        RelationVerb::Nibling,
        RelationVerb::Cousin,
    ];
    for (i, kind) in kin.iter().enumerate() {
        m.relations.insert(*kind, 10 + i as u128);
    }
    m.relations.insert(RelationVerb::Sibling, 30);
    m.relations.insert(RelationVerb::Friend, 31);
    m.relations.insert(RelationVerb::Spouse, 32);
    for i in 0..7u128 {
        assert!(m.is_relation_of(&(10 + i)));
    }
    for other in [30u128, 31, 32, 99] {
        assert!(!m.is_relation_of(&other));
    }
}

#[test]
fn relations_are_listed_by_kind() {
    let mut m = person(Sexuality::Bisexual);
    m.relations.insert(RelationVerb::Friend, 2);
    m.relations.insert(RelationVerb::Friend, 3);
    assert_eq!(m.get_relations(RelationVerb::Friend), vec![2, 3]);
    assert!(m.get_relations(RelationVerb::Child).is_empty());
}

#[test]
fn cleanup_drops_the_empty_buckets_only() {
    let mut m = person(Sexuality::Bisexual);
    m.relations.insert(RelationVerb::Friend, 2);
    m.relations.insert(RelationVerb::Partner, 3);
    m.relations.remove(RelationVerb::Partner, 3);
    m.employer = Some(4);
    assert_eq!(m.relations.len(), 2);
    m.cleanup();
    assert_eq!(m.relations.len(), 1);
    assert_eq!(m.get_relations(RelationVerb::Friend), vec![2]);
    assert_eq!(m.employer, Some(4));
    assert_eq!(m.age, 30);
    assert_eq!(m.last_name, "Brook");
}

#[test]
fn a_birthday_kills_under_the_threshold_of_the_new_age() {
    let mut m = person(Sexuality::Bisexual);
    m.age = 59;
    // at 60 the threshold is 120000 millionths
    m.grow_older(120_000);
    assert!(m.alive);
    assert_eq!(m.age, 60);
    m.age = 59;
    m.grow_older(119_999);
    assert!(!m.alive);
    assert_eq!(m.age, 60);
    m.grow_older(999_999);
    assert!(!m.alive);
    assert_eq!(m.age, 60);
}

#[test]
fn age_draws_against_death() {
    let mut rng = StdRng::seed_from_u64(5);
    let mut deaths = 0;
    for _ in 0..500 {
        let mut m = person(Sexuality::Bisexual);
        m.age = 74;
        m.age(&mut rng);
        assert_eq!(m.age, 75);
        if !m.alive {
            deaths += 1;
        }
    }
    // 29.9% at 75
    assert!(deaths > 110 && deaths < 190, "{} deaths", deaths);
    let mut old = person(Sexuality::Bisexual);
    old.age = 106;
    old.age(&mut rng);
    assert!(!old.alive);
}

#[test]
fn gender_and_orientation_follow_the_draw() {
    assert_eq!(gender_of_roll(0), Gender::Ambiguous);
    assert_eq!(gender_of_roll(99), Gender::Ambiguous);
    assert_eq!(gender_of_roll(100), Gender::Female);
    assert_eq!(gender_of_roll(549), Gender::Female);
    assert_eq!(gender_of_roll(550), Gender::Male);
    assert_eq!(gender_of_roll(999), Gender::Male);
    assert_eq!(sexuality_of_roll(0), Sexuality::Homosexual);
    assert_eq!(sexuality_of_roll(74), Sexuality::Homosexual);
    assert_eq!(sexuality_of_roll(75), Sexuality::Asexual);
    assert_eq!(sexuality_of_roll(124), Sexuality::Asexual);
    assert_eq!(sexuality_of_roll(125), Sexuality::Bisexual);
    assert_eq!(sexuality_of_roll(199), Sexuality::Bisexual);
    assert_eq!(sexuality_of_roll(200), Sexuality::Hetrosexual);
    assert_eq!(sexuality_of_roll(999), Sexuality::Hetrosexual);
}

#[test]
fn drawn_genders_and_orientations_come_in_their_shares() {
    let mut rng = StdRng::seed_from_u64(6);
    let mut ambiguous = 0;
    let mut straight = 0;
    for _ in 0..2000 {
        if random_gender(&mut rng) == Gender::Ambiguous {
            ambiguous += 1;
        }
        if random_sexuality(&mut rng) == Sexuality::Hetrosexual {
            straight += 1;
        }
    }
    assert!(ambiguous > 140 && ambiguous < 260);
    assert!(straight > 1500 && straight < 1700);
}

#[test]
fn gender_and_orientation_labels_read_as_in_reports() {
    assert_eq!(Gender::Ambiguous.label(), "Ambiguous");
    assert_eq!(Gender::Male.label(), "Male");
    assert_eq!(Sexuality::Hetrosexual.label(), "straight");
    assert_eq!(Sexuality::Homosexual.label(), "gay");
    assert_eq!(Sexuality::Bisexual.label(), "bi");
    assert_eq!(Sexuality::Asexual.label(), "asexual");
}

#[test]
fn a_blank_mind_takes_the_name_of_its_gender() {
    let mut rng = StdRng::seed_from_u64(7);
    let cult = culture(vec![]);
    let mut ids = std::collections::HashSet::new();
    for _ in 0..60 {
        let m = blank_mind(&mut rng, &cult, newcomer(true));
        let wanted = match m.gender {
            Gender::Male => "Tom",
            Gender::Female => "Tess",
            Gender::Ambiguous => "Tay",
        };
        assert_eq!(m.first_name, wanted);
        assert_eq!(m.last_name, "Hill");
        assert_eq!(m.origional_last_name, "Hill");
        assert!(m.alive && m.age == 0 && m.employer.is_none());
        assert!(m.dieties.is_empty());
        assert_eq!(m.relations.len(), 0);
        assert!(ids.insert(m.id));
        assert_eq!(m.id & 0x0000_0000_0000_F000_C000_0000_0000_0000, 0x0000_0000_0000_4000_8000_0000_0000_0000);
    }
}

#[test]
fn believers_worship_one_deity_of_the_culture() {
    let god = |id: u128| Diety {
        id,
        realms: vec![],
        name: format!("God{}", id),
        form: "owl".to_string(),
        form2: "owl".to_string(),
    };
    let cult = culture(vec![god(7), god(8), god(9)]);
    let mut rng = StdRng::seed_from_u64(8);
    let mut seen = std::collections::HashSet::new();
    for _ in 0..60 {
        let m = blank_mind(&mut rng, &cult, newcomer(true));
        assert_eq!(m.dieties.len(), 1);
        assert!([7u128, 8, 9].contains(&m.dieties[0]));
        seen.insert(m.dieties[0]);
        assert!(blank_mind(&mut rng, &cult, newcomer(false)).dieties.is_empty());
    }
    assert_eq!(seen.len(), 3);
}

// ---- the dice ----

#[test]
fn draws_stay_below_their_bound_and_cover_it() {
    let mut rng = StdRng::seed_from_u64(9);
    let mut seen = [false; 7];
    for _ in 0..500 {
        let r = random_below(&mut rng, 7);
        assert!(r < 7);
        seen[r as usize] = true;
    }
    assert!(seen.iter().all(|s| *s));
    for _ in 0..20 {
        assert_eq!(random_below(&mut rng, 1), 0);
    }
}

#[test]
fn the_same_seed_gives_the_same_draws() {
    let mut first = StdRng::seed_from_u64(10);
    let mut second = StdRng::seed_from_u64(10);
    for _ in 0..50 {
        assert_eq!(random_below(&mut first, 1000), random_below(&mut second, 1000));
    }
}

#[test]
fn chance_hits_in_proportion() {
    let mut rng = StdRng::seed_from_u64(11);
    let mut hits = 0;
    for _ in 0..2000 {
        assert!(!chance(&mut rng, 0));
        assert!(chance(&mut rng, 1000));
        if chance(&mut rng, 250) {
            hits += 1;
        }
    }
    assert!(hits > 420 && hits < 580);
}

#[test]
fn shuffled_positions_are_a_permutation() {
    let mut moved = 0;
    for seed in 0..30u64 {
        let mut rng = StdRng::seed_from_u64(seed);
        let order = shuffled_positions(&mut rng, 8);
        let mut sorted = order.clone();
        sorted.sort();
        assert_eq!(sorted, vec![0, 1, 2, 3, 4, 5, 6, 7]);
        if order != sorted {
            moved += 1;
        }
    }
    assert!(moved >= 29);
    let mut rng = StdRng::seed_from_u64(1);
    assert!(shuffled_positions(&mut rng, 0).is_empty());
    assert_eq!(shuffled_positions(&mut rng, 1), vec![0]);
}
