use power_sheets::compose::{SHELL_CLOSE, SHELL_OPEN};
use power_sheets::extract::extract_power_names;
use power_sheets::repository::{Lookup, PowerRecord};
use power_sheets::rewrite::RewriteError;
use power_sheets::sheet::{Diagnostic, OutputDocument};

fn record(name: &str, usage: &str, markup: &str) -> PowerRecord {
    PowerRecord {
        name: name.to_string(),
        usage_category: usage.to_string(),
        raw_markup: markup.to_string(),
    }
}

fn store(identifier: &str) -> Lookup {
    match identifier {
        "Cleave" => Lookup::Found(record("Cleave", "Encounter", "<div id='detail'>Cleave text</div>")),
        "Tide of Iron" => Lookup::Found(record("Tide of Iron", "At-Will", "<div id='detail' class='x'>Tide</div>")),
        "Broken" => Lookup::Found(record("Broken", "Daily", "<div id='nothing'>no sentinel</div>")),
        _ => Lookup::NotFound,
    }
}

#[test]
fn cleave_found_and_shield_block_missing() {
    let document = br#"<Character><Power name="Cleave">x</Power><Power name="Shield Block">y</Power></Character>"#;
    let identifiers = extract_power_names(document).unwrap();
    assert_eq!(identifiers, vec!["Cleave".to_string(), "Shield Block".to_string()]);

    let mut sheet = OutputDocument::new();
    let mut reported = Vec::new();
    for identifier in identifiers.iter() {
        if let Some(diagnostic) = sheet.absorb(identifier, &store(identifier)) {
            reported.push(diagnostic.message());
        }
    }
    assert_eq!(reported, vec!["Power Shield Block not found in the database".to_string()]);
    assert_eq!(sheet.fragment_count(), 1);
    assert_eq!(
        sheet.fragments,
        vec!["<div id=\"Cleave\" class=\"Power Encounter\">Cleave text</div>".to_string()]
    );
    let html = sheet.render();
    assert_eq!(
        html,
        format!(
            "{}<div class='power'><div id=\"Cleave\" class=\"Power Encounter\">Cleave text</div></div>{}",
            SHELL_OPEN, SHELL_CLOSE
        )
    );
    assert_eq!(html.matches("<div class='power'>").count(), 1);
}

#[test]
fn record_without_sentinel_is_skipped_and_the_rest_goes_on() {
    let mut sheet = OutputDocument::new();
    assert!(sheet.absorb("Cleave", &store("Cleave")).is_none());
    let diagnostic = sheet.absorb("Broken", &store("Broken"));
    assert!(matches!(diagnostic, Some(Diagnostic::MissingDetail { ref name }) if name == "Broken"));
    assert_eq!(diagnostic.unwrap().message(), "Power Broken has no detail element");
    assert_eq!(sheet.fragment_count(), 1);
    assert!(sheet.absorb("Tide of Iron", &store("Tide of Iron")).is_none());
    assert_eq!(
        sheet.fragments,
        vec![
            "<div id=\"Cleave\" class=\"Power Encounter\">Cleave text</div>".to_string(),
            "<div id=\"Tide of Iron\" class=\"Power At-Will\">Tide</div>".to_string(),
        ]
    );
}

#[test]
fn missing_identifiers_leave_n_minus_m_fragments() {
    let identifiers = ["Cleave", "Nope", "Tide of Iron", "Cleave", "Neither", "Gone"];
    let mut sheet = OutputDocument::new();
    let mut missing = 0;
    for identifier in identifiers.iter() {
        match sheet.absorb(identifier, &store(identifier)) {
            Some(Diagnostic::NotFound { identifier: reported }) => {
                assert_eq!(&reported, identifier);
                missing += 1;
            }
            Some(other) => panic!("unexpected {:?}", other),
            None => {}
        }
    }
    assert_eq!(missing, 3);
    assert_eq!(sheet.fragment_count(), identifiers.len() - missing);
    assert_eq!(sheet.render().matches("<div class='power'>").count(), 3);
}

#[test]
fn not_found_leaves_the_sheet_as_it_is() {
    let mut sheet = OutputDocument::new();
    sheet.absorb("Cleave", &store("Cleave"));
    let before = sheet.fragments.clone();
    let diagnostic = sheet.absorb("Shield Block", &Lookup::NotFound);
    assert!(matches!(diagnostic, Some(Diagnostic::NotFound { ref identifier }) if identifier == "Shield Block"));
    assert_eq!(sheet.fragments, before);
}

#[test]
fn new_sheet_is_empty() {
    let sheet = OutputDocument::new();
    assert_eq!(sheet.fragment_count(), 0);
    assert!(sheet.fragments.is_empty());
    assert_eq!(sheet.render(), format!("{}{}", SHELL_OPEN, SHELL_CLOSE));
}

#[test]
fn settle_adds_a_fragment() {
    let mut sheet = OutputDocument::new();
    assert!(sheet.settle("A", Ok("<p>a</p>".to_string())).is_none());
    assert!(sheet.settle("B", Ok("<p>b</p>".to_string())).is_none());
    assert_eq!(sheet.fragments, vec!["<p>a</p>".to_string(), "<p>b</p>".to_string()]);
}

#[test]
fn settle_reports_a_failure() {
    let mut sheet = OutputDocument::new();
    sheet.settle("A", Ok("<p>a</p>".to_string()));
    let structure = sheet.settle("B", Err(RewriteError::FragmentStructure));
    assert!(matches!(structure, Some(Diagnostic::MissingDetail { ref name }) if name == "B"));
    let serialization = sheet.settle("C", Err(RewriteError::Serialization));
    assert!(matches!(serialization, Some(Diagnostic::NotSerialized { ref name }) if name == "C"));
    assert_eq!(serialization.unwrap().message(), "Failed to serialize power C");
    assert_eq!(sheet.fragments, vec!["<p>a</p>".to_string()]);
}

#[test]
fn diagnostic_names_the_record_not_the_identifier() {
    let mut sheet = OutputDocument::new();
    let lookup = Lookup::Found(record("Stored Name", "Daily", "<p>no sentinel</p>"));
    let diagnostic = sheet.absorb("asked name", &lookup).unwrap();
    assert_eq!(diagnostic.message(), "Power Stored Name has no detail element");
}

#[test]
fn messages_are_exact() {
    let not_found = Diagnostic::NotFound { identifier: "Shield Block".to_string() };
    assert_eq!(not_found.message(), "Power Shield Block not found in the database");
    let missing = Diagnostic::MissingDetail { name: "Cleave".to_string() };
    assert_eq!(missing.message(), "Power Cleave has no detail element");
    let failed = Diagnostic::NotSerialized { name: "Cleave".to_string() };
    assert_eq!(failed.message(), "Failed to serialize power Cleave");
    assert_eq!(Diagnostic::NotFound { identifier: String::new() }.message(), "Power  not found in the database");
}

#[test]
fn row_or_no_row_is_found_or_not_found() {
    let found = Lookup::from_row(Some(record("Cleave", "Encounter", "<div id='detail'>t</div>")));
    match found {
        Lookup::Found(stored) => {
            assert_eq!(stored.name, "Cleave");
            assert_eq!(stored.usage_category, "Encounter");
            assert_eq!(stored.raw_markup, "<div id='detail'>t</div>");
        }
        Lookup::NotFound => panic!("a row is a record"),
    }
    assert!(matches!(Lookup::from_row(None), Lookup::NotFound));
}
