use lingo_backend::download::{catalog_json, CatalogError};
use lingo_backend::index::{pretty_size, Direction, Index, IndexFile, IndexLanguage, PairData};
use std::io::Write;

fn file(name: &str, size: u32) -> IndexFile {
    IndexFile {
        name: name.to_string(),
        size_bytes: size,
        release_date: 1,
        url: format!("https://example.org/{name}"),
    }
}

fn pair(from: &str, to: &str, size: u32) -> PairData {
    PairData {
        model: file(&format!("model.{from}{to}.intgemm.alphas.bin"), size),
        lex: file(&format!("lex.{from}{to}.s2t.bin"), size),
        src_vocab: file(&format!("vocab.{from}{to}.spm"), size),
        tgt_vocab: file(&format!("vocab.{from}{to}.spm"), size),
    }
}

fn spanish() -> IndexLanguage {
    IndexLanguage {
        code: "es".to_string(),
        name: "Spanish".to_string(),
        script: "Latin".to_string(),
        from: Some(pair("es", "en", 1000)),
        to: Some(pair("en", "es", 2000)),
        extra_files: vec![file("a-shared.bin", 7)],
    }
}

fn names(files: &[IndexFile]) -> Vec<String> {
    files.iter().map(|f| f.name.clone()).collect()
}

#[test]
fn files_are_deduplicated_and_sorted() {
    let files = spanish().files();
    assert_eq!(
        names(&files),
        vec![
            "a-shared.bin",
            "lex.enes.s2t.bin",
            "lex.esen.s2t.bin",
            "model.enes.intgemm.alphas.bin",
            "model.esen.intgemm.alphas.bin",
            "vocab.enes.spm",
            "vocab.esen.spm",
        ]
    );
}

#[test]
fn files_keep_first_listed_duplicate() {
    let mut lang = spanish();
    lang.extra_files = vec![file("vocab.esen.spm", 99)];
    let files = lang.files();
    let vocab = files.iter().find(|f| f.name == "vocab.esen.spm").unwrap();
    assert_eq!(vocab.size_bytes, 1000);
    assert_eq!(files.iter().filter(|f| f.name == "vocab.esen.spm").count(), 1);
}

#[test]
fn files_of_hub_are_empty() {
    let index = Index { languages: vec![] }.with_hub_language();
    assert_eq!(index.languages.len(), 1);
    let en = &index.languages[0];
    assert_eq!(en.code, "en");
    assert_eq!(en.name, "English");
    assert_eq!(en.script, "Latin");
    assert!(en.files().is_empty());
}

#[test]
fn pretty_size_labels() {
    assert_eq!(pretty_size(0), "<1KiB");
    assert_eq!(pretty_size(1023), "<1KiB");
    assert_eq!(pretty_size(1024), "1KiB");
    assert_eq!(pretty_size(1048575), "1023KiB");
    assert_eq!(pretty_size(1048576), "1MiB");
    assert_eq!(pretty_size(45 * 1048576 + 3), "45MiB");
    assert_eq!(pretty_size(u32::MAX), "4095MiB");
}

#[test]
fn entry_counts_each_file_once() {
    let entry = spanish().entry();
    assert_eq!(entry.code, "es");
    assert_eq!(entry.name, "Spanish");
    assert_eq!(entry.direction, Direction::Both);
    assert!(!entry.installed);
    // 3 files of 1000 bytes, 3 of 2000 and one of 7: 9007 bytes.
    assert_eq!(entry.size, "8KiB");
}

#[test]
fn entry_directions() {
    let mut lang = spanish();
    lang.from = None;
    assert_eq!(lang.entry().direction, Direction::ToOnly);
    let mut lang = spanish();
    lang.to = None;
    assert_eq!(lang.entry().direction, Direction::FromOnly);
}

#[test]
fn installed_needs_every_file() {
    let lang = spanish();
    let all: Vec<String> = names(&lang.files());
    assert!(lang.is_installed(&all));
    let mut missing = all.clone();
    missing.retain(|n| n != "lex.enes.s2t.bin");
    assert!(!lang.is_installed(&missing));
    assert!(!lang.is_installed(&vec![]));
}

#[test]
fn installed_after_fetch_and_not_after_delete() {
    let lang = spanish();
    let mut listing = vec!["unrelated.bin".to_string()];
    assert!(!lang.is_installed(&listing));
    listing.extend(names(&lang.files()));
    assert!(lang.is_installed(&listing));
    let files = names(&lang.files());
    listing.retain(|n| !files.contains(n));
    assert!(!lang.is_installed(&listing));
    assert_eq!(listing, vec!["unrelated.bin".to_string()]);
}

#[test]
fn hub_is_always_installed() {
    let index = Index { languages: vec![] }.with_hub_language();
    assert!(index.languages[0].is_installed(&vec![]));
}

#[test]
fn find_by_code() {
    let index = Index { languages: vec![spanish()] }.with_hub_language();
    assert_eq!(index.find("es"), Some(0));
    assert_eq!(index.find("en"), Some(1));
    assert_eq!(index.find("fr"), None);
}

#[test]
fn catalog_json_decompresses_gzip() {
    let json = b"{\"languages\":[]}";
    let mut encoder = flate2::write::GzEncoder::new(Vec::new(), flate2::Compression::default());
    encoder.write_all(json).unwrap();
    let gz = encoder.finish().unwrap();
    assert_eq!(catalog_json(&gz), Ok(json.to_vec()));
}

#[test]
fn catalog_json_rejects_plain_bytes() {
    assert_eq!(catalog_json(b"{\"languages\":[]}"), Err(CatalogError::NotGzip));
}

#[test]
fn entry_size_saturates() {
    let mut lang = spanish();
    lang.from = None;
    lang.to = None;
    lang.extra_files = vec![file("big-1.bin", u32::MAX), file("big-2.bin", u32::MAX)];
    assert_eq!(lang.entry().size, "4095MiB");
}
