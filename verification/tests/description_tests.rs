use city_sim::dieties::Diety;
use city_sim::personality::PersonalityTrait;
use city_sim::physical_description::{
    choose_or_mutate_attribute, merge_descriptions, PhysicalDescription,
};
use rand::rngs::StdRng;
use rand::SeedableRng;

fn looks(tag: &str) -> PhysicalDescription {
    PhysicalDescription {
        hair_colour: format!("{}-colour", tag),
        hair_style: format!("{}-style", tag),
        hair_adjective: format!("{}-hair", tag),
        eye_colour: format!("{}-eyes", tag),
        height_adjective: format!("{}-height", tag),
        build_adjective: format!("{}-build", tag),
    }
}

#[test]
fn render_defaults_to_they() {
    let d = PhysicalDescription {
        hair_colour: "black".to_string(),
        hair_style: "curly".to_string(),
        hair_adjective: "shiny".to_string(),
        eye_colour: "green".to_string(),
        height_adjective: "tall".to_string(),
        build_adjective: "slim".to_string(),
    };
    assert_eq!(
        d.render(None),
        "They have shiny curly black hair and green eyes. They are tall with a slim build."
    );
}

#[test]
fn render_uses_the_given_pronoun_twice() {
    let text = looks("x").render(Some("Elves".to_string()));
    assert_eq!(
        text,
        "Elves have x-hair x-style x-colour hair and x-eyes eyes. Elves are x-height with a x-build build."
    );
}

#[test]
fn attribute_comes_from_the_source_the_draw_names() {
    let a = "first".to_string();
    let b = "second".to_string();
    let c = "fresh".to_string();
    assert_eq!(choose_or_mutate_attribute(0, &a, &b, &c), "first");
    assert_eq!(choose_or_mutate_attribute(449, &a, &b, &c), "first");
    assert_eq!(choose_or_mutate_attribute(450, &a, &b, &c), "second");
    assert_eq!(choose_or_mutate_attribute(899, &a, &b, &c), "second");
    assert_eq!(choose_or_mutate_attribute(900, &a, &b, &c), "fresh");
    assert_eq!(choose_or_mutate_attribute(999, &a, &b, &c), "fresh");
}

#[test]
fn merged_looks_come_from_the_three_sources() {
    let (one, two, fresh) = (looks("a"), looks("b"), looks("f"));
    let mut from_first = 0;
    let mut from_second = 0;
    let mut from_fresh = 0;
    for seed in 0..200u64 {
        let mut rng = StdRng::seed_from_u64(seed);
        let child = merge_descriptions(&mut rng, &one, &two, &fresh);
        assert_eq!(child.hair_style, "f-style");
        for (got, suffix) in [
            (&child.hair_colour, "colour"),
            (&child.hair_adjective, "hair"),
            (&child.eye_colour, "eyes"),
            (&child.height_adjective, "height"),
            (&child.build_adjective, "build"),
        ] {
            if *got == format!("a-{}", suffix) {
                from_first += 1;
            } else if *got == format!("b-{}", suffix) {
                from_second += 1;
            } else {
                assert_eq!(*got, format!("f-{}", suffix));
                from_fresh += 1;
            }
        }
    }
    assert!(from_first > 300 && from_second > 300);
    assert!(from_fresh > 30 && from_fresh < 250);
}

#[test]
fn deity_summary_lists_realms_and_form() {
    let d = Diety {
        id: 1,
        realms: vec!["war".to_string(), "harvest".to_string(), "sleep".to_string()],
        name: "Orun the Old".to_string(),
        form: "owl".to_string(),
        form2: "ancient owl".to_string(),
    };
    assert_eq!(
        d.render_summary(),
        "Orun the Old; god of war, harvest and sleep takes the form of an ancient owl"
    );
    let e = Diety {
        id: 2,
        realms: vec!["rain".to_string()],
        name: "Mab".to_string(),
        form: "toad".to_string(),
        form2: "giant toad".to_string(),
    };
    assert_eq!(e.render_summary(), "Mab; god of rain takes the form of a giant toad");
}

#[test]
fn trait_labels_read_as_in_reports() {
    assert_eq!(PersonalityTrait::SelfAssured.label(), "Self Assured");
    assert_eq!(PersonalityTrait::BadTempered.label(), "Bad Tempered");
    assert_eq!(PersonalityTrait::Devout.label(), "Devout");
}
