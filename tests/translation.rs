use lingo_backend::translate::{join_path, route, Translator};
use std::cell::RefCell;

fn hops(v: &[(&str, &str)]) -> Vec<(String, String)> {
    v.iter().map(|(a, b)| (a.to_string(), b.to_string())).collect()
}

fn pair_files(from: &str, to: &str) -> Vec<String> {
    vec![
        format!("model.{from}{to}.intgemm.alphas.bin"),
        format!("vocab.{from}{to}.spm"),
        format!("lex.{from}{to}.s2t.bin"),
    ]
}

/// A stub engine: a model is the configuration it was built from.
fn stub_load(config: &str) -> Result<String, String> {
    Ok(config.to_string())
}

fn upper(_m: &String, t: &[&str]) -> Vec<String> {
    t.iter().map(|s| s.to_uppercase()).collect()
}

fn upper_pivot(_a: &String, _b: &String, t: &[&str]) -> Vec<String> {
    t.iter().map(|s| format!("{}!", s.to_uppercase())).collect()
}

#[test]
fn route_through_hub() {
    assert_eq!(route("fr", "de", "en"), hops(&[("fr", "en"), ("en", "de")]));
    assert_eq!(route("en", "de", "en"), hops(&[("en", "de")]));
    assert_eq!(route("de", "en", "en"), hops(&[("de", "en")]));
}

#[test]
fn translator_uses_english_hub() {
    let t: Translator<String> = Translator::new("/data".to_string());
    assert_eq!(t.get_pairs("fr", "de"), hops(&[("fr", "en"), ("en", "de")]));
    assert_eq!(t.get_pairs("en", "de"), hops(&[("en", "de")]));
}

#[test]
fn line_count_kept_direct_and_pivot() {
    let mut available = pair_files("fr", "en");
    available.extend(pair_files("en", "de"));
    let mut t: Translator<String> = Translator::new("/data".to_string());
    assert_eq!(t.load_language_pair("fr", "de", &available, stub_load), Ok(()));
    let lines = ["x", "y", "z", "w"];
    let pivot = t.translate("fr", "de", &lines, upper, upper_pivot).unwrap();
    assert_eq!(pivot.len(), 4);
    assert_eq!(pivot, vec!["X!", "Y!", "Z!", "W!"]);
    let direct = t.translate("en", "de", &lines, upper, upper_pivot).unwrap();
    assert_eq!(direct.len(), 4);
    assert_eq!(direct, vec!["X", "Y", "Z", "W"]);
}

#[test]
fn translation_keeps_line_order() {
    let available = pair_files("en", "es");
    let mut t: Translator<String> = Translator::new("/data".to_string());
    t.load_language_pair("en", "es", &available, stub_load).unwrap();
    let out = t.translate("en", "es", &["a", "b", "c"], upper, upper_pivot).unwrap();
    assert_eq!(out, vec!["A", "B", "C"]);
}

#[test]
fn translate_unloaded_pair_fails_without_engine_call() {
    let t: Translator<String> = Translator::new("/data".to_string());
    let calls = RefCell::new(0);
    let direct = |_m: &String, t: &[&str]| {
        *calls.borrow_mut() += 1;
        t.iter().map(|s| s.to_string()).collect::<Vec<String>>()
    };
    let pivot = |_a: &String, _b: &String, t: &[&str]| {
        *calls.borrow_mut() += 1;
        t.iter().map(|s| s.to_string()).collect::<Vec<String>>()
    };
    assert_eq!(t.translate("en", "es", &["a"], direct, pivot), Err("Language not loaded".to_string()));
    assert_eq!(*calls.borrow(), 0);
}

#[test]
fn translate_empty_batch() {
    let available = pair_files("en", "es");
    let mut t: Translator<String> = Translator::new("/data".to_string());
    t.load_language_pair("en", "es", &available, stub_load).unwrap();
    let out = t.translate("en", "es", &[], upper, upper_pivot).unwrap();
    assert!(out.is_empty());
}

#[test]
fn to_pair_only_loads_one_way() {
    // The catalog offers Spanish with its `to` pair only: en->es exists on
    // disk, es->en does not.
    let available = pair_files("en", "es");
    let loads = RefCell::new(Vec::new());
    let load = |c: &str| -> Result<String, String> {
        loads.borrow_mut().push(c.to_string());
        Ok(c.to_string())
    };
    let mut t: Translator<String> = Translator::new("/data".to_string());
    assert_eq!(t.load_language_pair("en", "es", &available, &load), Ok(()));
    assert_eq!(loads.borrow().len(), 1);
    assert!(t.is_loaded("en", "es"));
    let err = t.load_language_pair("es", "en", &available, &load).unwrap_err();
    assert_eq!(err, "Model file not found: /data/model.esen.intgemm.alphas.bin");
    assert_eq!(loads.borrow().len(), 1);
    assert!(!t.is_loaded("es", "en"));
    assert!(t.is_loaded("en", "es"));
}

#[test]
fn loaded_model_is_reused() {
    let available = pair_files("en", "es");
    let count = RefCell::new(0);
    let load = |c: &str| -> Result<String, String> {
        *count.borrow_mut() += 1;
        Ok(c.to_string())
    };
    let mut t: Translator<String> = Translator::new("/data".to_string());
    t.load_language_pair("en", "es", &available, &load).unwrap();
    t.load_language_pair("en", "es", &available, &load).unwrap();
    assert_eq!(*count.borrow(), 1);
}

#[test]
fn failed_second_hop_keeps_first() {
    let available = pair_files("fr", "en");
    let mut t: Translator<String> = Translator::new("/data/".to_string());
    let err = t.load_language_pair("fr", "de", &available, stub_load).unwrap_err();
    assert_eq!(err, "Model file not found: /data/model.ende.intgemm.alphas.bin");
    assert!(t.is_loaded("fr", "en"));
    assert!(!t.is_loaded("en", "de"));
}

#[test]
fn missing_vocabulary_is_reported() {
    let available = vec!["model.enes.intgemm.alphas.bin".to_string()];
    let mut t: Translator<String> = Translator::new("data".to_string());
    let err = t.load_language_pair("en", "es", &available, stub_load).unwrap_err();
    assert_eq!(err, "Source vocab file not found: data/vocab.enes.spm");
}

#[test]
fn engine_error_is_passed_on() {
    let available = pair_files("en", "es");
    let mut t: Translator<String> = Translator::new("/data".to_string());
    let err = t
        .load_language_pair("en", "es", &available, |_c: &str| Err("bad model".to_string()))
        .unwrap_err();
    assert_eq!(err, "bad model");
    assert!(!t.is_loaded("en", "es"));
}

#[test]
fn same_language_needs_nothing() {
    let mut t: Translator<String> = Translator::new("/data".to_string());
    assert_eq!(t.load_language_pair("fr", "fr", &vec![], stub_load), Ok(()));
    assert!(!t.is_loaded("fr", "en"));
}

#[test]
fn engine_configuration_names_the_files() {
    let available = pair_files("en", "es");
    let mut t: Translator<String> = Translator::new("/d".to_string());
    t.load_language_pair("en", "es", &available, stub_load).unwrap();
    let out = t.translate("en", "es", &["q"], |m: &String, _t: &[&str]| vec![m.clone()], upper_pivot).unwrap();
    let expected = "\nmodels:\n  - /d/model.enes.intgemm.alphas.bin\nvocabs:\n  - /d/vocab.enes.spm\n  - /d/vocab.enes.spm\nbeam-size: 1\nnormalize: 1.0\nword-penalty: 0\nmax-length-break: 128\nmini-batch-words: 1024\nmax-length-factor: 2.0\nskip-cost: true\ncpu-threads: 1\nquiet: true\nquiet-translation: true\ngemm-precision: int8shiftAlphaAll\nalignment: soft";
    assert_eq!(out, vec![expected.to_string()]);
}

#[test]
fn join_path_forms() {
    assert_eq!(join_path("", "f"), "f");
    assert_eq!(join_path("/a/", "f"), "/a/f");
    assert_eq!(join_path("/a", "f"), "/a/f");
}

#[test]
fn join_path_matches_path_join() {
    for (dir, name) in [("", "f"), ("/a/", "f"), ("/a", "f"), ("/a", "/abs/f"), ("rel", "x.bin")] {
        let expected = std::path::Path::new(dir).join(name);
        assert_eq!(join_path(dir, name), expected.to_str().unwrap());
    }
}

#[test]
fn cached_model_is_kept_on_reload() {
    let available = pair_files("en", "es");
    let mut t: Translator<String> = Translator::new("/data".to_string());
    t.load_language_pair("en", "es", &available, |c: &str| Ok(format!("first {}", c.len()))).unwrap();
    t.load_language_pair("en", "es", &available, |_c: &str| Ok("second".to_string())).unwrap();
    let out = t.translate("en", "es", &["q"], |m: &String, _t: &[&str]| vec![m.clone()], upper_pivot).unwrap();
    assert!(out[0].starts_with("first "));
}
