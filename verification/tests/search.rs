use allayindexer::search::{pre_split, split_identifier, WordModel};
use instant_segment::{Search, Segmenter};
use smartstring::alias::String as SmartString;

fn segmenter() -> Segmenter {
    let words = [("world", 100.0), ("edit", 80.0), ("economy", 50.0), ("api", 40.0), ("auth", 30.0), ("me", 60.0)];
    let unigrams: Vec<(SmartString, f64)> = words.iter().map(|(w, c)| ((*w).into(), *c)).collect();
    let bigrams: Vec<((SmartString, SmartString), f64)> = Vec::new();
    Segmenter::new(unigrams, bigrams)
}

#[test]
fn pre_split_cases() {
    assert_eq!(pre_split("WorldEdit"), vec!["World", "Edit"]);
    assert_eq!(pre_split("economy_api-v2.core"), vec!["economy", "api", "v2", "core"]);
    assert_eq!(pre_split("HTTPServer"), vec!["HTTPServer"]);
    assert_eq!(pre_split("myHTTPServer"), vec!["my", "HTTPServer"]);
    assert_eq!(pre_split("__a  b__"), vec!["a", "b"]);
    assert_eq!(pre_split(""), Vec::<String>::new());
    assert_eq!(pre_split("ÉtéÉté"), vec!["Été", "Été"]);
}

#[test]
fn pre_split_pieces_spell_name_without_separators() {
    let name = "Auth_Me-plugin.X";
    let parts = pre_split(name);
    assert!(parts.iter().all(|p| !p.is_empty() && !p.contains(['_', '-', ' ', '.'])));
    let joined: String = parts.concat();
    let expected: String = name.chars().filter(|c| !"_- .".contains(*c)).collect();
    assert_eq!(joined, expected);
}

#[test]
fn split_identifier_tokens() {
    let seg = WordModel::new(segmenter());
    let mut search = Search::default();
    assert_eq!(split_identifier("", &seg, &mut search), Vec::<String>::new());
    let t = split_identifier("WorldEdit", &seg, &mut search);
    assert_eq!(t, vec!["world", "edit", "worldedit"]);
    let t = split_identifier("worldedit", &seg, &mut search);
    assert_eq!(t, vec!["world", "edit", "worldedit"]);
    let t = split_identifier("api", &seg, &mut search);
    assert_eq!(t, vec!["api"]);
    let t = split_identifier("Été", &seg, &mut search);
    assert_eq!(t, vec!["été"]);
}

#[test]
fn word_model_restores_a_usable_limit() {
    let mut raw = segmenter();
    raw.set_limit(0);
    let model = WordModel::new(raw);
    let mut search = Search::default();
    let t = split_identifier("WorldEdit", &model, &mut search);
    assert_eq!(t, vec!["world", "edit", "worldedit"]);
}
