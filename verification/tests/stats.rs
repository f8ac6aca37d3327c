use scenewriter::parser::parse_fountain;
use scenewriter::stats::{document_summary, get_character_stats, sorted_speakers, stats_report, word_totals_fit};

const SCRIPT: &str = "INT. Kitchen

ANNA
One two three.

BOB (O.S.)
Four.

ANNA
Five six.

EXT. Garden

Birds sing loudly.

===

CARL
Seven eight nine ten eleven twelve.
";

#[test]
fn character_stats_per_speaker() {
    let (_, doc) = parse_fountain(SCRIPT).unwrap();
    assert!(word_totals_fit(&doc));
    let stats = get_character_stats(&doc);
    assert_eq!(stats.len(), 3);
    assert_eq!(stats[0].0, "ANNA");
    assert_eq!(stats[0].1.num_speeches, 2);
    assert_eq!(stats[0].1.num_words, 5);
    assert_eq!(stats[1].0, "BOB ");
    assert_eq!(stats[1].1.num_speeches, 1);
    assert_eq!(stats[1].1.num_words, 1);
    assert_eq!(stats[2].0, "CARL");
    assert_eq!(stats[2].1.num_words, 6);
    let total: usize = stats.iter().map(|s| s.1.num_speeches).sum();
    assert_eq!(total, document_summary(&doc).num_dialogues);
}

#[test]
fn summary_counts() {
    let (_, doc) = parse_fountain(SCRIPT).unwrap();
    let s = document_summary(&doc);
    assert_eq!(s.num_dialogues, 4);
    assert_eq!(s.num_dialogue_words, 12);
    assert_eq!(s.num_actions, 1);
    assert_eq!(s.num_action_words, 3);
    assert_eq!(s.num_scenes, 2);
    assert_eq!(s.num_int_scenes, 1);
    assert_eq!(s.num_ext_scenes, 1);
}

#[test]
fn speakers_by_words() {
    let (_, doc) = parse_fountain(SCRIPT).unwrap();
    let sorted = sorted_speakers(&get_character_stats(&doc));
    let names: Vec<&str> = sorted.iter().map(|s| s.0.as_str()).collect();
    assert_eq!(names, vec!["CARL", "ANNA", "BOB "]);
}

#[test]
fn report_lines() {
    let (_, doc) = parse_fountain(SCRIPT).unwrap();
    let lines = stats_report(&doc);
    let expected = vec![
        "",
        "=== STATS (not 100% trustworthy) ===",
        "",
        "3 distinct character names",
        "4 dialogue sections",
        "12 words of dialogue",
        "1 actions",
        "3 words of action",
        "2 Scenes",
        "1 interior scenes",
        "1 exterior scenes",
        "",
        "Characters",
        "==========",
        "CARL",
        "----",
        "Total words: 6",
        "Dialogue sections: 1",
        "",
        "ANNA",
        "----",
        "Total words: 5",
        "Dialogue sections: 2",
        "",
        "BOB ",
        "----",
        "Total words: 1",
        "Dialogue sections: 1",
        "",
        "",
    ];
    assert_eq!(lines, expected);
}

#[test]
fn report_lists_top_ten() {
    let mut script = String::new();
    for i in 0..12 {
        script.push_str(&format!("SPEAKER{}\n{}\n\n", i, "word ".repeat(i + 1)));
    }
    let (_, doc) = parse_fountain(&script).unwrap();
    let lines = stats_report(&doc);
    assert_eq!(lines[12], "Top 10 characters");
    assert_eq!(lines[13], "================");
    assert_eq!(lines[14], "SPEAKER11");
    assert_eq!(lines.len(), 12 + 2 + 10 * 5 + 1);
}
