use kuchikiki::traits::TendrilSink;
use power_sheets::repository::PowerRecord;
use power_sheets::rewrite::{can_rewrite, rewrite, RewriteError};

const PIECES: [&str; 64] = [
    "<b>", "</b>", "<i>", "</i>", "<u>", "<a>", "</a>", "<p>", "</p>", "<div>", "</div>",
    "<table>", "</table>", "<tr>", "<td>", "<th>", "<tbody>", "<caption>", "<colgroup>", "<col>",
    "<select>", "<option>", "<optgroup>", "<svg>", "</svg>", "<math>", "<mi>", "<foreignObject>",
    "<desc>", "<title>", "<ul>", "<li>", "<dl>", "<dd>", "<dt>", "<h1>", "</h1>", "<form>",
    "<button>", "<nobr>", "<font>", "<em>", "</em>", "<ruby>", "<rt>", "<rp>", "<br>", "</br>",
    "<template>", "</template>", "<frameset>", "<body>", "<html>", "<head>", "<span>", "</span>",
    "text", " ", "<isindex>", "<textarea>", "</textarea>", "<applet>", "<marquee>", "<object>",
];

fn depth_of(markup: &str) -> usize {
    let document = kuchikiki::parse_html().one(markup);
    document
        .inclusive_descendants()
        .map(|node| node.ancestors().count())
        .max()
        .unwrap_or(0)
}

fn openings_of(markup: &str) -> usize {
    markup.bytes().filter(|b| *b == b'<').count()
}

fn within_bound(markup: &str) {
    let depth = depth_of(markup);
    let openings = openings_of(markup);
    assert!(
        depth <= 3 * openings + 3,
        "{} levels from {} openings in {:?}",
        depth,
        openings,
        markup
    );
}

#[test]
fn a_tag_opens_at_most_three_levels() {
    within_bound("");
    within_bound("text");
    within_bound("<td>");
    within_bound("<table><td>");
    within_bound(&"<table><td>".repeat(60));
    within_bound(&"<table><tr><td>".repeat(40));
    within_bound(&"<i>".repeat(200));
    within_bound(&"<div>".repeat(200));
    within_bound(&"<svg>".repeat(200));
    within_bound(&"<b><p>".repeat(80));
    within_bound(&format!("{}{}", "<b><i><u><em>".repeat(20), "<p>x".repeat(40)));
    within_bound(&format!("{}{}", "<b><p>x".repeat(30), "</b>".repeat(60)));
    within_bound(&format!("{}{}", "<a><div>".repeat(30), "</a>".repeat(60)));
    within_bound(&"</p>".repeat(100));
    within_bound(&"<select><option>".repeat(50));
    within_bound(&"<table><caption><table><colgroup>".repeat(30));
}

#[test]
fn mixed_markup_stays_within_three_levels_per_opening() {
    let mut state: u64 = 0x2545_f491_4f6c_dd1d;
    for _ in 0..3000 {
        let mut markup = String::from("<div id='detail'>");
        state = state.wrapping_mul(6364136223846793005).wrapping_add(1442695040888963407);
        let length = 1 + (state >> 33) % 60;
        for _ in 0..length {
            state = state.wrapping_mul(6364136223846793005).wrapping_add(1442695040888963407);
            markup.push_str(PIECES[((state >> 33) % 64) as usize]);
        }
        within_bound(&markup);
        let power = PowerRecord {
            name: "Mixed".to_string(),
            usage_category: "Daily".to_string(),
            raw_markup: markup,
        };
        assert!(can_rewrite(&power));
        match rewrite(&power) {
            Ok(fragment) => {
                assert!(fragment.starts_with("<div id=\"Mixed\" class=\"Power Daily\">"))
            }
            Err(error) => assert_eq!(error, RewriteError::FragmentStructure),
        }
    }
}
