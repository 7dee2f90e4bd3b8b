use kuchikiki::traits::TendrilSink;
use power_sheets::repository::PowerRecord;
use power_sheets::rewrite::{
    can_rewrite, class_list, fragment_from_bytes, rewrite, RewriteError,
};

fn record(name: &str, usage: &str, markup: &str) -> PowerRecord {
    PowerRecord {
        name: name.to_string(),
        usage_category: usage.to_string(),
        raw_markup: markup.to_string(),
    }
}

fn attribute_of(fragment: &str, selector: &str, attribute: &str) -> Option<String> {
    let document = kuchikiki::parse_html().one(fragment);
    let element = document.select_first(selector).ok()?;
    let attributes = element.attributes.borrow();
    attributes.get(attribute).map(|v| v.to_string())
}

#[test]
fn cleave_is_retagged() {
    let cleave = record("Cleave", "Encounter", "<div id='detail'>Cleave text</div>");
    assert_eq!(
        rewrite(&cleave),
        Ok("<div id=\"Cleave\" class=\"Power Encounter\">Cleave text</div>".to_string())
    );
}

#[test]
fn existing_class_is_replaced_in_place() {
    let power = record("Tide of Iron", "At-Will", "<div class=\"old stale\" id=\"detail\">x</div>");
    assert_eq!(
        rewrite(&power),
        Ok("<div class=\"Power At-Will\" id=\"Tide of Iron\">x</div>".to_string())
    );
}

#[test]
fn other_attributes_and_subtree_are_kept() {
    let power = record(
        "Sure Strike",
        "At-Will",
        "<div id=\"detail\" title=\"t\" data-level=\"1\"><h1 class=\"player\">Sure Strike<span>Fighter Attack 1</span></h1><p class=\"flavor\"><i>Precise.</i></p></div>",
    );
    assert_eq!(
        rewrite(&power),
        Ok("<div id=\"Sure Strike\" title=\"t\" data-level=\"1\" class=\"Power At-Will\"><h1 class=\"player\">Sure Strike<span>Fighter Attack 1</span></h1><p class=\"flavor\"><i>Precise.</i></p></div>".to_string())
    );
}

#[test]
fn only_the_designated_element_is_written() {
    let power = record(
        "Brute Strike",
        "Daily",
        "<html><head><title>t</title></head><body><p>before</p><div id=\"outer\"><div id=\"detail\"><b>in</b></div><p>sibling</p></div></body></html>",
    );
    assert_eq!(
        rewrite(&power),
        Ok("<div id=\"Brute Strike\" class=\"Power Daily\"><b>in</b></div>".to_string())
    );
}

#[test]
fn first_designated_element_wins() {
    let power = record(
        "Twice",
        "Daily",
        "<div id=\"detail\">first</div><div id=\"detail\">second</div>",
    );
    assert_eq!(rewrite(&power), Ok("<div id=\"Twice\" class=\"Power Daily\">first</div>".to_string()));
}

#[test]
fn missing_designated_element_is_a_structure_error() {
    assert_eq!(
        rewrite(&record("Cleave", "Encounter", "<div id='other'>Cleave text</div>")),
        Err(RewriteError::FragmentStructure)
    );
    assert_eq!(rewrite(&record("Cleave", "Encounter", "")), Err(RewriteError::FragmentStructure));
    assert_eq!(
        rewrite(&record("Cleave", "Encounter", "<div id='Detail'>case matters</div>")),
        Err(RewriteError::FragmentStructure)
    );
    assert_eq!(
        rewrite(&record("Cleave", "Encounter", "<div class='detail'>class is no identity</div>")),
        Err(RewriteError::FragmentStructure)
    );
}

#[test]
fn rewriting_again_gives_the_same_bytes() {
    let power = record("Cleave", "Encounter", "<div id='detail' class='x'>Cleave <b>text</b></div>");
    let first = rewrite(&power);
    let second = rewrite(&power);
    assert!(first.is_ok());
    assert_eq!(first, second);
    let copy = record("Cleave", "Encounter", "<div id='detail' class='x'>Cleave <b>text</b></div>");
    assert_eq!(rewrite(&copy), first);
}

#[test]
fn rewritten_fragment_exposes_identity_and_classes() {
    let markups = [
        "<div id='detail'>a</div>",
        "<div id='detail' class='Power Daily'>a</div>",
        "<section class='x' id='detail' lang='en'><p id='inner'>a</p></section>",
    ];
    for markup in markups.iter() {
        let fragment = rewrite(&record("Shield Block", "Encounter", markup)).unwrap();
        assert_eq!(
            attribute_of(&fragment, "[id]", "id"),
            Some("Shield Block".to_string())
        );
        assert_eq!(
            attribute_of(&fragment, "[id]", "class"),
            Some("Power Encounter".to_string())
        );
        assert_eq!(attribute_of(&fragment, "#detail", "id"), None);
    }
}

#[test]
fn name_is_escaped_and_read_back() {
    let name = "Fire & \"Ice\" <b>";
    let fragment = rewrite(&record(name, "Daily", "<div id='detail'>a</div>")).unwrap();
    assert_eq!(
        fragment,
        "<div id=\"Fire &amp; &quot;Ice&quot; <b>\" class=\"Power Daily\">a</div>"
    );
    assert_eq!(attribute_of(&fragment, ".Power", "id"), Some(name.to_string()));
}

#[test]
fn void_element_has_no_end_tag() {
    let fragment = rewrite(&record("Icon", "Daily", "<p><img id='detail' src='i.png'></p>"));
    assert_eq!(fragment, Ok("<img id=\"Icon\" src=\"i.png\" class=\"Power Daily\">".to_string()));
}

#[test]
fn rewriting_a_fragment_again_finds_no_sentinel() {
    let fragment = rewrite(&record("Cleave", "Encounter", "<div id='detail'>t</div>")).unwrap();
    assert_eq!(
        rewrite(&record("Cleave", "Encounter", &fragment)),
        Err(RewriteError::FragmentStructure)
    );
    let kept = rewrite(&record("detail", "Encounter", "<div id='detail'>t</div>")).unwrap();
    assert_eq!(rewrite(&record("detail", "Encounter", &kept)), Ok(kept));
}

#[test]
fn class_list_is_power_then_category() {
    assert_eq!(class_list("At-Will"), "Power At-Will");
    assert_eq!(class_list("Encounter"), "Power Encounter");
    assert_eq!(class_list(""), "Power ");
    assert_eq!(class_list("Daily Utility"), "Power Daily Utility");
}

#[test]
fn fragment_from_bytes_decodes_utf8() {
    assert_eq!(fragment_from_bytes(b"<div>x</div>".to_vec()), Ok("<div>x</div>".to_string()));
    assert_eq!(fragment_from_bytes("\u{00e9}\u{4e2d}".as_bytes().to_vec()), Ok("\u{00e9}\u{4e2d}".to_string()));
    assert_eq!(fragment_from_bytes(Vec::new()), Ok(String::new()));
}

#[test]
fn fragment_from_bytes_refuses_other_bytes() {
    assert_eq!(fragment_from_bytes(vec![b'a', 0xff]), Err(RewriteError::Serialization));
    assert_eq!(fragment_from_bytes(vec![0xe4, 0xb8]), Err(RewriteError::Serialization));
}

#[test]
fn ordinary_markup_can_be_rewritten() {
    assert!(can_rewrite(&record("a", "b", "<div id='detail'>t</div>")));
    assert!(can_rewrite(&record("a", "b", "")));
    assert!(can_rewrite(&record("a", "b", &"text without tags ".repeat(10_000))));
}

#[test]
fn markup_with_too_many_tags_cannot_be_rewritten() {
    assert!(can_rewrite(&record("a", "b", &"<".repeat(300))));
    assert!(!can_rewrite(&record("a", "b", &"<".repeat(301))));
    assert!(can_rewrite(&record("a", "b", &"<i>x</i>\u{00e9}".repeat(150))));
    assert!(!can_rewrite(&record("a", "b", &format!("{}<", "<i>x</i>".repeat(150)))));
    assert!(!can_rewrite(&record("a", "b", &"<div>".repeat(100_000))));
}

#[test]
fn deepest_admitted_markup_is_written() {
    let markup = format!("<div id='detail'>{}<i>deep", "<table><td>".repeat(149));
    let power = record("Deep", "Daily", &markup);
    assert!(can_rewrite(&power));
    let fragment = rewrite(&power).unwrap();
    assert!(fragment.starts_with("<div id=\"Deep\" class=\"Power Daily\"><table><tbody><tr><td><table>"));
    assert_eq!(fragment.matches("<td>").count(), 149);
    assert_eq!(fragment.matches("</td>").count(), 149);
    assert!(fragment.contains("<i>deep</i>"));
    let nested = record("Deep", "Daily", &format!("<div id='detail'>{}", "<i>".repeat(299)));
    assert!(can_rewrite(&nested));
    assert_eq!(rewrite(&nested).unwrap().matches("</i>").count(), 299);
}
