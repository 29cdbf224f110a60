use lingo_backend::index::{Index, IndexFile, IndexLanguage, PairData};
use lingo_backend::session::Session;

fn file(name: &str, size: u32) -> IndexFile {
    IndexFile {
        name: name.to_string(),
        size_bytes: size,
        release_date: 1,
        url: format!("https://example.org/{name}.gz"),
    }
}

fn pair(from: &str, to: &str) -> PairData {
    PairData {
        model: file(&format!("model.{from}{to}.intgemm.alphas.bin"), 100),
        lex: file(&format!("lex.{from}{to}.s2t.bin"), 10),
        src_vocab: file(&format!("vocab.{from}{to}.spm"), 1),
        tgt_vocab: file(&format!("vocab.{from}{to}.spm"), 1),
    }
}

fn language(code: &str, from: bool, to: bool) -> IndexLanguage {
    IndexLanguage {
        code: code.to_string(),
        name: code.to_uppercase(),
        script: "Latin".to_string(),
        from: if from { Some(pair(code, "en")) } else { None },
        to: if to { Some(pair("en", code)) } else { None },
        extra_files: vec![],
    }
}

fn catalog() -> Index {
    Index { languages: vec![language("es", false, true), language("fr", true, true)] }.with_hub_language()
}

fn stub_load(config: &str) -> Result<String, String> {
    Ok(config.to_string())
}

fn upper(_m: &String, t: &[&str]) -> Vec<String> {
    t.iter().map(|s| s.to_uppercase()).collect()
}

fn pivot(_a: &String, _b: &String, t: &[&str]) -> Vec<String> {
    t.iter().map(|s| format!("<{s}>")).collect()
}

fn names(l: &IndexLanguage) -> Vec<String> {
    l.files().into_iter().map(|f| f.name).collect()
}

#[test]
fn empty_directory_shows_only_hub() {
    let mut s: Session<String> = Session::new(catalog());
    let out = s.set_data_path("/data".to_string(), &vec![]);
    assert_eq!(out.installed, vec!["en".to_string()]);
    assert!(!out.show_translation);
    assert!(s.translator.is_none());
    assert_eq!(s.data_path, Some("/data".to_string()));
}

#[test]
fn installed_language_starts_translation() {
    let index = catalog();
    let listing = names(&index.languages[0]);
    let mut s: Session<String> = Session::new(index);
    let out = s.set_data_path("/data".to_string(), &listing);
    assert_eq!(out.installed, vec!["es".to_string(), "en".to_string()]);
    assert!(out.show_translation);
    assert!(s.translator.is_some());
}

#[test]
fn download_needs_data_path_and_known_code() {
    let mut s: Session<String> = Session::new(catalog());
    assert!(s.download_job("es").is_none());
    s.set_data_path("/data".to_string(), &vec![]);
    assert!(s.download_job("xx").is_none());
    let job = s.download_job("fr").unwrap();
    assert_eq!(job.code, "fr");
    assert_eq!(job.files.len(), 6);
    assert_eq!(job.total_size, 2 * (100 + 10 + 1));
    assert_eq!(job.targets[0], "/data/lex.enfr.s2t.bin");
    assert_eq!(job.targets.len(), 6);
}

#[test]
fn finished_download_makes_translator() {
    let mut s: Session<String> = Session::new(catalog());
    s.set_data_path("/data".to_string(), &vec![]);
    assert!(!s.finish_download(&vec![true, false, true]));
    assert!(s.translator.is_some());
    assert!(s.finish_download(&vec![true, true]));
    assert!(s.finish_download(&vec![]));
}

#[test]
fn delete_targets_are_package_files() {
    let mut s: Session<String> = Session::new(catalog());
    assert_eq!(s.delete_targets("es"), None);
    s.set_data_path("/data/".to_string(), &vec![]);
    assert_eq!(
        s.delete_targets("es"),
        Some(vec![
            "/data/lex.enes.s2t.bin".to_string(),
            "/data/model.enes.intgemm.alphas.bin".to_string(),
            "/data/vocab.enes.spm".to_string(),
        ])
    );
    assert_eq!(s.delete_targets("de"), None);
    assert_eq!(s.delete_targets("en"), Some(vec![]));
}

#[test]
fn translation_request_flow() {
    let index = catalog();
    let mut listing = names(&index.languages[0]);
    listing.extend(names(&index.languages[1]));
    let mut s: Session<String> = Session::new(index);
    assert_eq!(s.translate_text("a", "en", "es", &listing, stub_load, upper, pivot), None);
    s.set_data_path("/data".to_string(), &listing);
    let out = s.translate_text("one\ntwo", "en", "es", &listing, stub_load, upper, pivot);
    assert_eq!(out, Some("ONE\nTWO".to_string()));
    let out = s.translate_text("x\ny", "fr", "es", &listing, stub_load, upper, pivot);
    assert_eq!(out, Some("<x>\n<y>".to_string()));
}

#[test]
fn translation_request_shows_load_error() {
    let index = catalog();
    let listing = names(&index.languages[0]);
    let mut s: Session<String> = Session::new(index);
    s.set_data_path("/data".to_string(), &listing);
    let out = s.translate_text("hola", "es", "en", &listing, stub_load, upper, pivot);
    assert_eq!(
        out,
        Some("Couldn't load language pair es->en: Model file not found: /data/model.esen.intgemm.alphas.bin".to_string())
    );
}
