use depi::dep::DType;
use depi::style::{ColorType, DColor};

#[test]
fn kind_of_a_tag() {
    assert_eq!(DType::from("dev"), DType::Dev);
    assert_eq!(DType::from("DEV"), DType::Dev);
    assert_eq!(DType::from("Build"), DType::Build);
    assert_eq!(DType::from("normal"), DType::Normal);
    assert_eq!(DType::from(""), DType::Normal);
    assert_eq!(DType::from("  \t"), DType::Normal);
    assert_eq!(DType::from("Linux"), DType::OS("linux".to_string()));
    assert_eq!(DType::from(" dev"), DType::OS(" dev".to_string()));
}

#[test]
fn platforms_differ() {
    assert!(!DType::from("linux").same(&DType::from("windows")));
    assert!(DType::from("linux").same(&DType::from("LINUX")));
    assert!(!DType::Normal.same(&DType::Dev));
    assert!(DType::Build.same(&DType::Build));
    assert_ne!(DType::OS("linux".to_string()), DType::OS("windows".to_string()));
}

#[test]
fn table_of_a_kind() {
    assert_eq!(DType::Normal.to_cargo_field(), "dependencies");
    assert_eq!(DType::Dev.to_cargo_field(), "dev-dependencies");
    assert_eq!(DType::Build.to_cargo_field(), "build-dependencies");
    assert_eq!(DType::OS("windows".to_string()).to_cargo_field(), "target.'cfg(windows)'.dependencies");
}

#[test]
fn tag_of_a_kind() {
    assert_eq!(DType::Normal.to_string(), "normal");
    assert_eq!(DType::Dev.to_string(), "dev");
    assert_eq!(DType::Build.to_string(), "build");
    assert_eq!(DType::OS("macos".to_string()).to_string(), "macos");
}

#[test]
fn scheme_of_a_name() {
    assert_eq!(DColor::from("rus"), DColor::GOIDA);
    assert_eq!(DColor::from("GOOOL"), DColor::GOIDA);
    assert_eq!(DColor::from("Goida"), DColor::GOIDA);
    assert_eq!(DColor::from("osetia"), DColor::Osetia);
    assert_eq!(DColor::from("auto"), DColor::Osetia);
    assert_eq!(DColor::from("POLAND"), DColor::Poland);
    assert_eq!(DColor::from("none"), DColor::WithoutColor);
    assert_eq!(DColor::from(""), DColor::WithoutColor);
    assert_eq!(DColor::default(), DColor::WithoutColor);
}

#[test]
fn choice_of_a_name() {
    assert_eq!(ColorType::from("rand"), ColorType::Random);
    assert_eq!(ColorType::from("Random"), ColorType::Random);
    assert_eq!(ColorType::from("poland"), ColorType::One(DColor::Poland));
    assert_eq!(ColorType::from("randomly"), ColorType::One(DColor::WithoutColor));
    assert_eq!(ColorType::default(), ColorType::One(DColor::WithoutColor));
}

#[test]
fn scheme_of_a_choice() {
    assert_eq!(ColorType::One(DColor::Osetia).get_dcolor(), DColor::Osetia);
    assert_eq!(ColorType::One(DColor::WithoutColor).get_dcolor(), DColor::WithoutColor);
    let mut seen = Vec::new();
    for _ in 0..200 {
        let c = ColorType::Random.get_dcolor();
        assert_ne!(c, DColor::WithoutColor);
        if !seen.contains(&c) {
            seen.push(c);
        }
    }
    assert!(seen.len() > 1);
}

#[test]
fn scheme_by_number() {
    assert_eq!(DColor::from_index(0), DColor::GOIDA);
    assert_eq!(DColor::from_index(1), DColor::Osetia);
    assert_eq!(DColor::from_index(2), DColor::Poland);
    assert_eq!(DColor::from_index(200), DColor::Poland);
    for _ in 0..50 {
        assert_ne!(DColor::get_random(), DColor::WithoutColor);
    }
}

#[test]
fn kind_of_a_tag_in_lower_case() {
    assert_eq!(DType::from_lowered("dev"), DType::Dev);
    assert_eq!(DType::from_lowered("build"), DType::Build);
    assert_eq!(DType::from_lowered("normal"), DType::Normal);
    assert_eq!(DType::from_lowered(""), DType::Normal);
    assert_eq!(DType::from_lowered(" \t "), DType::Normal);
    assert_eq!(DType::from_lowered("linux"), DType::OS("linux".to_string()));
    assert_eq!(DType::from_lowered("devs"), DType::OS("devs".to_string()));
    assert_eq!(DType::from_lowered("Dev"), DType::OS("Dev".to_string()));
}

#[test]
fn scheme_and_choice_of_a_name_in_lower_case() {
    assert_eq!(DColor::from_lowered("rus"), DColor::GOIDA);
    assert_eq!(DColor::from_lowered("goool"), DColor::GOIDA);
    assert_eq!(DColor::from_lowered("goida"), DColor::GOIDA);
    assert_eq!(DColor::from_lowered("osetia"), DColor::Osetia);
    assert_eq!(DColor::from_lowered("auto"), DColor::Osetia);
    assert_eq!(DColor::from_lowered("poland"), DColor::Poland);
    assert_eq!(DColor::from_lowered("Poland"), DColor::WithoutColor);
    assert_eq!(DColor::from_lowered("rand"), DColor::WithoutColor);
    assert_eq!(ColorType::from_lowered("rand"), ColorType::Random);
    assert_eq!(ColorType::from_lowered("random"), ColorType::Random);
    assert_eq!(ColorType::from_lowered("osetia"), ColorType::One(DColor::Osetia));
    assert_eq!(ColorType::from_lowered("RAND"), ColorType::One(DColor::WithoutColor));
}
