use snake::difficulty::Difficulty;
use snake::score_manager::{ScoreGroup, ScoreManager};

type Entry = (u64, String, Option<u64>);

fn entry(score: u64, user: &str, time: Option<u64>) -> Entry {
    (score, user.to_string(), time)
}

fn store_with(groups: Vec<(&str, Vec<Entry>)>) -> ScoreManager {
    ScoreManager {
        groups: groups
            .into_iter()
            .map(|(name, entries)| ScoreGroup {
                name: name.to_string(),
                entries,
            })
            .collect(),
    }
}

#[test]
fn high_scores_are_sorted_descending_and_truncated() {
    let m = store_with(vec![(
        "NORMAL",
        vec![
            entry(10, "a", None),
            entry(50, "b", Some(1000)),
            entry(30, "c", None),
            entry(40, "d", None),
        ],
    )]);
    let top = m.get_high_scores(&Difficulty::NORMAL, 3);
    assert_eq!(
        top,
        vec![
            entry(50, "b", Some(1000)),
            entry(40, "d", None),
            entry(30, "c", None)
        ]
    );
}

#[test]
fn high_scores_never_include_another_difficulty() {
    let m = store_with(vec![
        ("EASY", vec![entry(99, "easy-player", None)]),
        ("NORMAL", vec![entry(10, "normal-player", None)]),
    ]);
    let top = m.get_high_scores(&Difficulty::NORMAL, 5);
    assert_eq!(top, vec![entry(10, "normal-player", None)]);
}

#[test]
fn high_scores_of_an_unplayed_difficulty_are_empty() {
    let m = store_with(vec![("EASY", vec![entry(1, "a", None)])]);
    assert_eq!(m.get_high_scores(&Difficulty::HARD, 3), vec![]);
}

#[test]
fn writing_then_reading_all_returns_the_new_entry_unchanged() {
    let mut m = store_with(vec![("EASY", vec![entry(5, "old", Some(1))])]);
    m.write_score(77, &Difficulty::EASY, "new-player", 4242);
    let all = m.get_scores(None);
    assert!(all.contains(&entry(77, "new-player", Some(4242))));
    assert!(all.contains(&entry(5, "old", Some(1))));
    assert_eq!(all.len(), 2);
}

#[test]
fn writing_n_scores_across_two_difficulties_reads_back_n_entries() {
    let mut m = ScoreManager::new();
    m.write_score(1, &Difficulty::EASY, "a", 10);
    m.write_score(2, &Difficulty::HARD, "b", 20);
    m.write_score(3, &Difficulty::EASY, "c", 30);
    m.write_score(4, &Difficulty::HARD, "d", 40);
    m.write_score(5, &Difficulty::HARD, "e", 50);
    assert_eq!(m.get_scores(None).len(), 5);
    let hard_only = m.get_scores(Some(&Difficulty::HARD));
    assert_eq!(
        hard_only,
        vec![
            entry(2, "b", Some(20)),
            entry(4, "d", Some(40)),
            entry(5, "e", Some(50))
        ]
    );
}

#[test]
fn write_appends_to_the_existing_group_and_creates_missing_ones() {
    let mut m = store_with(vec![("NORMAL", vec![entry(1, "a", None)])]);
    m.write_score(2, &Difficulty::NORMAL, "b", 9);
    m.write_score(3, &Difficulty::HARD, "c", 8);
    assert_eq!(m.groups.len(), 2);
    assert_eq!(m.groups[0].name, "NORMAL");
    assert_eq!(m.groups[0].entries.len(), 2);
    assert_eq!(m.groups[1].name, "HARD");
    assert_eq!(m.groups[1].entries, vec![entry(3, "c", Some(8))]);
}

#[test]
fn total_playtime_counts_missing_times_as_zero() {
    let m = store_with(vec![(
        "EASY",
        vec![
            entry(10, "a", Some(1000)),
            entry(20, "b", None),
            entry(5, "c", Some(500)),
        ],
    )]);
    assert_eq!(m.get_total_playtime(), 1500);
}

#[test]
fn total_playtime_spans_all_difficulty_groups() {
    let m = store_with(vec![
        ("EASY", vec![entry(1, "a", Some(3_600_000))]),
        ("HARD", vec![entry(2, "b", Some(120_000)), entry(3, "c", Some(3_000))]),
    ]);
    assert_eq!(m.get_total_playtime(), 3_723_000);
    assert_eq!(m.get_total_playtime_display(), "01:02:03");
}

#[test]
fn empty_store_end_to_end() {
    let mut m = ScoreManager::new();
    m.write_score(50, &Difficulty::NORMAL, "Al", 2000);
    assert_eq!(
        m.get_high_scores(&Difficulty::NORMAL, 1),
        vec![entry(50, "Al", Some(2000))]
    );
    assert_eq!(m.get_high_scores(&Difficulty::HARD, 1), vec![]);
}

#[test]
fn empty_store_serializes_to_the_bare_template() {
    let m = ScoreManager::new();
    assert_eq!(m.to_document(), "<scores></scores>");
}

#[test]
fn document_round_trip_keeps_the_logical_content() {
    let mut m = ScoreManager::new();
    m.write_score(50, &Difficulty::NORMAL, "Al", 2000);
    m.write_score(7, &Difficulty::NORMAL, "Bea", 300);
    m.write_score(12, &Difficulty::EASY, "Cid", 40);
    let doc = m.to_document();
    let back = ScoreManager::from_document(&doc).expect("the serialized store must parse");
    assert_eq!(back.get_scores(None), m.get_scores(None));
    assert_eq!(back.to_document(), doc);
}

#[test]
fn serialized_document_has_the_expected_shape() {
    let mut m = ScoreManager::new();
    m.write_score(50, &Difficulty::NORMAL, "Al", 2000);
    assert_eq!(
        m.to_document(),
        "<scores><difficulty name=\"NORMAL\"><score score=\"50\" user=\"Al\" time=\"2000\"/></difficulty></scores>"
    );
}

#[test]
fn special_characters_in_names_survive_the_round_trip() {
    let mut m = ScoreManager::new();
    m.write_score(9, &Difficulty::EASY, "a<b>&\"c'd", 1);
    let doc = m.to_document();
    assert!(doc.contains("a&lt;b&gt;&amp;&quot;c&apos;d"));
    let back = ScoreManager::from_document(&doc).unwrap();
    assert_eq!(
        back.get_scores(None),
        vec![entry(9, "a<b>&\"c'd", Some(1))]
    );
}

#[test]
fn parsing_tolerates_blank_space_between_elements() {
    let doc = "\n  <scores>\n  <difficulty  name=\"EASY\" >\n    <score score=\"3\" user=\"x\" />\n  </difficulty>\n  </scores>\n";
    let m = ScoreManager::from_document(doc).unwrap();
    assert_eq!(m.get_scores(None), vec![entry(3, "x", None)]);
}

#[test]
fn an_entry_without_score_or_user_is_skipped_not_fatal() {
    let doc = "<scores><difficulty name=\"EASY\">\
        <score score=\"3\"/>\
        <score user=\"y\"/>\
        <score score=\"4\" user=\"z\"/>\
        </difficulty></scores>";
    let m = ScoreManager::from_document(doc).unwrap();
    assert_eq!(m.get_scores(None), vec![entry(4, "z", None)]);
}

#[test]
fn unknown_attributes_are_tolerated_and_later_ones_win() {
    let doc = "<scores><difficulty name=\"EASY\" extra=\"1\">\
        <score note=\"hi\" score=\"1\" user=\"a\" score=\"2\"/>\
        </difficulty></scores>";
    let m = ScoreManager::from_document(doc).unwrap();
    assert_eq!(m.get_scores(None), vec![entry(2, "a", None)]);
}

#[test]
fn a_non_numeric_score_is_a_fatal_parse_error() {
    let doc = "<scores><difficulty name=\"EASY\"><score score=\"ten\" user=\"a\"/></difficulty></scores>";
    assert!(ScoreManager::from_document(doc).is_err());
}

#[test]
fn an_overflowing_time_is_a_fatal_parse_error() {
    let doc = "<scores><difficulty name=\"EASY\"><score score=\"1\" user=\"a\" time=\"99999999999999999999999\"/></difficulty></scores>";
    assert!(ScoreManager::from_document(doc).is_err());
}

#[test]
fn a_group_without_a_name_is_a_fatal_parse_error() {
    let doc = "<scores><difficulty><score score=\"1\" user=\"a\"/></difficulty></scores>";
    assert!(ScoreManager::from_document(doc).is_err());
}

#[test]
fn malformed_structure_is_a_fatal_parse_error() {
    assert!(ScoreManager::from_document("").is_err());
    assert!(ScoreManager::from_document("<scores>").is_err());
    assert!(ScoreManager::from_document("<scores></scores>trailing").is_err());
    assert!(ScoreManager::from_document("<scores><difficulty name=\"EASY\"></scores>").is_err());
    assert!(ScoreManager::from_document("<scores><score score=\"1\" user=\"a\"/></scores>").is_err());
}

#[test]
fn the_largest_score_value_survives_parsing() {
    let doc = "<scores><difficulty name=\"HARD\"><score score=\"18446744073709551615\" user=\"max\"/></difficulty></scores>";
    let m = ScoreManager::from_document(doc).unwrap();
    assert_eq!(m.get_scores(None), vec![entry(u64::MAX, "max", None)]);
}

#[test]
fn decimal_rendering_writes_every_digit() {
    assert_eq!(snake::text::u64_to_string(0), "0");
    assert_eq!(snake::text::u64_to_string(907), "907");
    assert_eq!(snake::text::u64_to_string(u64::MAX), "18446744073709551615");
    assert_eq!(snake::text::u64_to_padded_string(7), "07");
    assert_eq!(snake::text::u64_to_padded_string(42), "42");
}
