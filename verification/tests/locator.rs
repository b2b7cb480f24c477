use speech_pipeline::locator::{locate_models, DirEntry};

fn entry(name: &str, is_file: bool) -> DirEntry {
    DirEntry { name: String::from(name), is_file }
}

#[test]
fn unique_pair_is_selected() {
    let entries = vec![entry("model.pb", true), entry("lang.scorer", true)];
    let sel = locate_models(&entries);
    assert_eq!(sel.model, "model.pb");
    assert_eq!(sel.scorer.as_deref(), Some("lang.scorer"));
}

#[test]
fn unique_pair_is_selected_in_reverse_order() {
    let entries = vec![entry("lang.scorer", true), entry("model.pb", true)];
    let sel = locate_models(&entries);
    assert_eq!(sel.model, "model.pb");
    assert_eq!(sel.scorer.as_deref(), Some("lang.scorer"));
}

#[test]
fn selection_is_among_candidates() {
    let entries = vec![entry("a.pb", true), entry("notes.txt", true), entry("b.pbmm", true)];
    let sel = locate_models(&entries);
    assert!(sel.model == "a.pb" || sel.model == "b.pbmm");
    assert!(sel.scorer.is_none());
}

#[test]
fn last_candidate_wins_in_scan_order() {
    let entries = vec![entry("a.pb", true), entry("b.tflite", true)];
    let sel = locate_models(&entries);
    assert_eq!(sel.model, "b.tflite");
}

#[test]
fn no_candidate_falls_back_to_default_name() {
    let entries = vec![entry("readme.txt", true), entry("notes.md", true)];
    let sel = locate_models(&entries);
    assert_eq!(sel.model, "output_graph.pb");
    assert!(sel.scorer.is_none());
}

#[test]
fn empty_directory_falls_back_to_default_name() {
    let entries: Vec<DirEntry> = Vec::new();
    let sel = locate_models(&entries);
    assert_eq!(sel.model, "output_graph.pb");
    assert!(sel.scorer.is_none());
}

#[test]
fn scorer_alone_still_falls_back_for_model() {
    let entries = vec![entry("lang.scorer", true)];
    let sel = locate_models(&entries);
    assert_eq!(sel.model, "output_graph.pb");
    assert_eq!(sel.scorer.as_deref(), Some("lang.scorer"));
}

#[test]
fn non_file_entries_are_ignored() {
    let entries = vec![entry("fake.pb", false), entry("fake.scorer", false)];
    let sel = locate_models(&entries);
    assert_eq!(sel.model, "output_graph.pb");
    assert!(sel.scorer.is_none());
}

#[test]
fn tflite_and_pbmm_are_model_extensions() {
    let sel = locate_models(&vec![entry("m.tflite", true)]);
    assert_eq!(sel.model, "m.tflite");
    let sel = locate_models(&vec![entry("m.pbmm", true)]);
    assert_eq!(sel.model, "m.pbmm");
}

#[test]
fn extension_matching_is_exact() {
    // A leading dot alone, a missing extension, a trailing dot, and a
    // different letter case do not match.
    let entries = vec![
        entry(".pb", true),
        entry("pb", true),
        entry("model.", true),
        entry("MODEL.PB", true),
        entry("model.pbm", true),
    ];
    let sel = locate_models(&entries);
    assert_eq!(sel.model, "output_graph.pb");
}

#[test]
fn extension_after_last_dot_counts() {
    let entries = vec![entry("archive.tar.pb", true)];
    let sel = locate_models(&entries);
    assert_eq!(sel.model, "archive.tar.pb");
}

#[test]
fn later_scorer_overwrites_earlier_one() {
    let entries = vec![entry("a.scorer", true), entry("b.scorer", true)];
    let sel = locate_models(&entries);
    assert_eq!(sel.scorer.as_deref(), Some("b.scorer"));
}
