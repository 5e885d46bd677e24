use depi::dep::Dep;
use depi::project::column_widths;
use depi::style::{dep_full_line, dep_line, dep_update_line, dep_version_update_line, join_listed, DColor, Span, Tone};

fn shown(line: &[Span]) -> Vec<(String, Tone, usize)> {
    line.iter().map(|s| (s.text.clone(), s.tone, s.width)).collect()
}

fn p(text: &str, tone: Tone, width: usize) -> (String, Tone, usize) {
    (text.to_string(), tone, width)
}

fn padded(line: &[Span]) -> String {
    line.iter().map(|s| format!("{:<w$}", s.text, w = s.width)).collect()
}

#[test]
fn line_of_a_dependency_without_colour() {
    let fs = vec!["rt".to_string(), "macros".to_string()];
    let line = dep_full_line("tokio", "1.40.0", Some(&fs), 8, 7, 2, DColor::WithoutColor);
    assert_eq!(
        shown(&line),
        vec![
            p("  ", Tone::Plain, 0),
            p("tokio", Tone::Bold, 8),
            p(" ", Tone::Plain, 0),
            p("@", Tone::Dimmed, 0),
            p(" ", Tone::Plain, 0),
            p("1.40.0", Tone::Plain, 7),
            p(" ", Tone::Plain, 0),
            p(":", Tone::Dimmed, 0),
            p(" ", Tone::Plain, 0),
            p("rt, macros", Tone::Plain, 0),
        ]
    );
    assert_eq!(padded(&line), "  tokio    @ 1.40.0  : rt, macros");
    let line = dep_full_line("serde", "1.0", None, 5, 3, 0, DColor::WithoutColor);
    assert_eq!(
        shown(&line),
        vec![
            p("", Tone::Plain, 0),
            p("serde", Tone::Plain, 5),
            p(" ", Tone::Plain, 0),
            p("@", Tone::Dimmed, 0),
            p(" ", Tone::Plain, 0),
            p("1.0", Tone::Plain, 3),
        ]
    );
}

#[test]
fn line_of_a_dependency_in_colour() {
    let fs = vec!["f".to_string()];
    let line = dep_full_line("a", "1.2", Some(&fs), 1, 3, 1, DColor::GOIDA);
    assert_eq!(line[1].tone, Tone::Bold);
    assert_eq!(shown(&line)[5], p("1.2", Tone::Blue, 3));
    assert_eq!(shown(&line)[9], p("f", Tone::Red, 0));
    let line = dep_full_line("a", "1.2", None, 1, 3, 1, DColor::Osetia);
    assert_eq!(line[1].tone, Tone::Bold);
    assert_eq!(shown(&line)[5], p("1.2", Tone::Yellow, 3));
    assert_eq!(line.len(), 6);
    let line = dep_full_line("a", "1.2", None, 1, 3, 1, DColor::Poland);
    assert_eq!(shown(&line)[5], p("1.2", Tone::Red, 3));
}

#[test]
fn version_in_two_halves() {
    let fs: Vec<String> = Vec::new();
    let line = dep_full_line("a", "1.2.30", Some(&fs), 1, 8, 0, DColor::Poland);
    assert_eq!(line.len(), 11);
    assert_eq!(shown(&line)[5], p("1.2", Tone::Plain, 0));
    assert_eq!(shown(&line)[6], p(".30", Tone::Red, 5));
    assert_eq!(shown(&line)[10], p("", Tone::Red, 0));
    assert_eq!(padded(&line), "a @ 1.2.30   : ");
    let line = dep_full_line("a", "12345", Some(&fs), 1, 1, 0, DColor::Poland);
    assert_eq!(shown(&line)[5], p("12", Tone::Plain, 0));
    assert_eq!(shown(&line)[6], p("345", Tone::Red, 0));
    let line = dep_full_line("a", "", Some(&fs), 1, 4, 0, DColor::Poland);
    assert_eq!(shown(&line)[5], p("", Tone::Plain, 0));
    assert_eq!(shown(&line)[6], p("", Tone::Red, 4));
}

#[test]
fn line_of_an_update() {
    let line = dep_update_line("serde", "1.0.200", "1.0.1", 6, 7, 2, DColor::WithoutColor);
    assert_eq!(
        shown(&line),
        vec![
            p("  ", Tone::Plain, 0),
            p("serde", Tone::Bold, 6),
            p(" ", Tone::Plain, 0),
            p("1.0.1", Tone::Plain, 7),
            p(" ", Tone::Plain, 0),
            p("->", Tone::Dimmed, 0),
            p(" ", Tone::Plain, 0),
            p("1.0.200", Tone::Bold, 0),
        ]
    );
    assert_eq!(padded(&line), "  serde  1.0.1   -> 1.0.200");
    let line = dep_update_line("a", "2", "1", 1, 1, 0, DColor::GOIDA);
    assert_eq!(shown(&line)[3], p("1", Tone::Blue, 1));
    assert_eq!(shown(&line)[7], p("2", Tone::BoldRed, 0));
    let line = dep_update_line("a", "2", "1", 1, 1, 0, DColor::Osetia);
    assert_eq!(shown(&line)[3], p("1", Tone::Yellow, 1));
    let line = dep_update_line("a", "2.0", "1.0.0", 1, 6, 0, DColor::Poland);
    assert_eq!(shown(&line)[3], p("1.", Tone::Plain, 0));
    assert_eq!(shown(&line)[4], p("0.0", Tone::Red, 4));
    assert_eq!(shown(&line)[8], p("2.0", Tone::BoldRed, 0));
}

#[test]
fn lines_of_a_resolved_dependency() {
    let d = Dep { name: "x".to_string(), version: "0.1".to_string(), features: Some(vec!["a".to_string(), "b".to_string()]) };
    assert_eq!(
        shown(&dep_line(&d, 3, 4, 2, DColor::Osetia)),
        shown(&dep_full_line("x", "0.1", d.features.as_ref(), 3, 4, 2, DColor::Osetia))
    );
    assert_eq!(
        shown(&dep_version_update_line(&d, "0.0.9", 3, 5, 2, DColor::Poland)),
        shown(&dep_update_line("x", "0.1", "0.0.9", 3, 5, 2, DColor::Poland))
    );
}

#[test]
fn features_in_a_row() {
    assert_eq!(join_listed(&Vec::new()), "");
    assert_eq!(join_listed(&vec!["a".to_string()]), "a");
    let items = vec!["a".to_string(), "".to_string(), "c d".to_string()];
    assert_eq!(join_listed(&items), items.join(", "));
}

#[test]
fn widths_of_the_columns() {
    let deps = vec![
        Dep { name: "ab".to_string(), version: "1.0.0".to_string(), features: None },
        Dep { name: "abcd".to_string(), version: "1".to_string(), features: None },
        Dep { name: "é".to_string(), version: "10.0.0".to_string(), features: None },
    ];
    assert_eq!(column_widths(&deps, (0, 0)), (4, 6));
    assert_eq!(column_widths(&deps, (9, 2)), (9, 6));
    assert_eq!(column_widths(&Vec::new(), (1, 2)), (1, 2));
}
