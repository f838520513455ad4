use std::path::{Path, PathBuf};

use piper_poc::voices::{discover_voices, has_model_extension, stem_of, ModelFile, Voice};

fn file(name: &str, path: &str) -> ModelFile {
    ModelFile { file_name: name.to_string(), path: PathBuf::from(path) }
}

fn names(voices: &[Voice]) -> Vec<String> {
    voices.iter().map(|v| v.name.clone()).collect()
}

#[test]
fn model_extension_is_onnx() {
    assert!(has_model_extension("da_DK-talesyntese-medium.onnx"));
    assert!(has_model_extension("a.b.onnx"));
    assert!(!has_model_extension("voice.onnx.json"));
    assert!(!has_model_extension("voice.ONNX"));
    assert!(!has_model_extension("voice"));
    assert!(!has_model_extension(".onnx"));
    assert!(!has_model_extension("onnx"));
    assert!(!has_model_extension(".."));
}

#[test]
fn stems_follow_path_rules() {
    assert_eq!(stem_of("da_DK-talesyntese-medium.onnx"), "da_DK-talesyntese-medium");
    assert_eq!(stem_of("a.b.onnx"), "a.b");
    assert_eq!(stem_of(".onnx"), ".onnx");
    assert_eq!(stem_of("plain"), "plain");
    assert_eq!(stem_of("trailing."), "trailing");
    assert_eq!(stem_of(".."), "..");
    assert_eq!(stem_of("stemmé.onnx"), "stemmé");
}

#[test]
fn discover_keeps_only_models() {
    let files = vec![
        file("en_US-lessac-medium.onnx", "/m/en/en_US-lessac-medium.onnx"),
        file("en_US-lessac-medium.onnx.json", "/m/en/en_US-lessac-medium.onnx.json"),
        file("README", "/m/en/README"),
    ];
    let voices = discover_voices(files);
    assert_eq!(voices.len(), 1);
    assert_eq!(voices[0].name, "en_US-lessac-medium");
    assert_eq!(voices[0].model_path, Path::new("/m/en/en_US-lessac-medium.onnx"));
}

#[test]
fn discover_sorts_by_name() {
    let files = vec![
        file("zeta.onnx", "/m/x/zeta.onnx"),
        file("alpha.onnx", "/m/y/alpha.onnx"),
        file("Beta.onnx", "/m/x/Beta.onnx"),
        file("alp.onnx", "/m/y/alp.onnx"),
        file("ære.onnx", "/m/da/ære.onnx"),
    ];
    let voices = discover_voices(files);
    assert_eq!(names(&voices), vec!["Beta", "alp", "alpha", "zeta", "ære"]);
    assert_eq!(voices[0].model_path, Path::new("/m/x/Beta.onnx"));
    assert_eq!(voices[4].model_path, Path::new("/m/da/ære.onnx"));
}

#[test]
fn discover_is_stable_for_equal_names() {
    let files = vec![
        file("same.onnx", "/m/b/same.onnx"),
        file("other.onnx", "/m/a/other.onnx"),
        file("same.onnx", "/m/a/same.onnx"),
    ];
    let voices = discover_voices(files);
    assert_eq!(names(&voices), vec!["other", "same", "same"]);
    assert_eq!(voices[1].model_path, Path::new("/m/b/same.onnx"));
    assert_eq!(voices[2].model_path, Path::new("/m/a/same.onnx"));
}

#[test]
fn discover_of_nothing_is_empty() {
    assert!(discover_voices(Vec::new()).is_empty());
    assert!(discover_voices(vec![file("notes.txt", "/m/a/notes.txt")]).is_empty());
}

#[test]
fn every_model_file_gives_one_voice() {
    let files = vec![
        file("c.onnx", "/m/1/c.onnx"),
        file("b.onnx", "/m/1/b.onnx"),
        file("a.onnx", "/m/2/a.onnx"),
        file("b.onnx", "/m/2/b.onnx"),
    ];
    let voices = discover_voices(files);
    assert_eq!(voices.len(), 4);
    let mut paths: Vec<String> =
        voices.iter().map(|v| v.model_path.to_string_lossy().into_owned()).collect();
    paths.sort();
    assert_eq!(paths, vec!["/m/1/b.onnx", "/m/1/c.onnx", "/m/2/a.onnx", "/m/2/b.onnx"]);
}

#[test]
fn adding_a_model_file_inserts_its_voice() {
    let before = vec![file("b.onnx", "/m/1/b.onnx"), file("d.onnx", "/m/1/d.onnx")];
    let grown = vec![
        file("b.onnx", "/m/1/b.onnx"),
        file("c.onnx", "/m/2/c.onnx"),
        file("d.onnx", "/m/1/d.onnx"),
    ];
    let old = discover_voices(before);
    let new = discover_voices(grown);
    assert_eq!(names(&old), vec!["b", "d"]);
    assert_eq!(names(&new), vec!["b", "c", "d"]);
    assert_eq!(new[1].model_path, Path::new("/m/2/c.onnx"));
}

#[test]
fn adding_another_file_changes_nothing() {
    let before = vec![file("b.onnx", "/m/1/b.onnx")];
    let grown = vec![file("b.onnx", "/m/1/b.onnx"), file("b.onnx.json", "/m/1/b.onnx.json")];
    let old = discover_voices(before);
    let new = discover_voices(grown);
    assert_eq!(names(&old), names(&new));
    assert_eq!(new[0].model_path, Path::new("/m/1/b.onnx"));
}

#[test]
fn walk_order_only_reorders_equal_names() {
    let files = vec![
        file("x.onnx", "/m/1/x.onnx"),
        file("a.onnx", "/m/1/a.onnx"),
        file("x.onnx", "/m/2/x.onnx"),
    ];
    let reversed = vec![
        file("x.onnx", "/m/2/x.onnx"),
        file("a.onnx", "/m/1/a.onnx"),
        file("x.onnx", "/m/1/x.onnx"),
    ];
    let one = discover_voices(files);
    let two = discover_voices(reversed);
    assert_eq!(names(&one), names(&two));
    assert_eq!(one[1].model_path, Path::new("/m/1/x.onnx"));
    assert_eq!(two[1].model_path, Path::new("/m/2/x.onnx"));
}
