//! The catalog of language packages and the files that each one needs.

use vstd::prelude::*;
use vstd::string::*;
use crate::text::{text_lt, text_less, text_eq, decimal, decimal_text, lemma_text_lt_irreflexive,
    lemma_text_lt_total, lemma_text_lt_transitive};

verus! {

/// The catalog: every language package that can be installed.
pub struct Index {
    pub languages: Vec<IndexLanguage>,
}

/// One downloadable file; `name` is also its name in the data directory.
#[derive(Clone)]
pub struct IndexFile {
    pub name: String,
    pub size_bytes: u32,
    pub release_date: u64,
    pub url: String,
}

/// The four files that translate in one direction between the hub
/// language and another language.
#[derive(Clone)]
pub struct PairData {
    pub model: IndexFile,
    pub lex: IndexFile,
    pub src_vocab: IndexFile,
    pub tgt_vocab: IndexFile,
}

/// One language package. `from` translates this language into the hub
/// language, `to` translates the hub language into this one.
#[derive(Clone)]
pub struct IndexLanguage {
    pub code: String,
    pub name: String,
    pub script: String,
    pub from: Option<PairData>,
    pub to: Option<PairData>,
    pub extra_files: Vec<IndexFile>,
}

/// What an `IndexFile` holds, as plain values.
pub struct IndexFileView {
    pub name: Seq<char>,
    pub size_bytes: u32,
    pub release_date: u64,
    pub url: Seq<char>,
}

impl View for IndexFile {
    type V = IndexFileView;

    open spec fn view(&self) -> IndexFileView {
        IndexFileView {
            name: self.name@,
            size_bytes: self.size_bytes,
            release_date: self.release_date,
            url: self.url@,
        }
    }
}

pub open spec fn file_views(s: Seq<IndexFile>) -> Seq<IndexFileView> {
    s.map_values(|f: IndexFile| f@)
}

pub open spec fn pair_files(p: Option<PairData>) -> Seq<IndexFileView> {
    match p {
        Some(p) => seq![p.model@, p.lex@, p.src_vocab@, p.tgt_vocab@],
        None => seq![],
    }
}

/// Index `j` holds the first file of `s` with its name.
pub open spec fn first_of_name(s: Seq<IndexFileView>, j: int) -> bool {
    &&& 0 <= j < s.len()
    &&& forall|k: int| 0 <= k < j ==> s[k].name != s[j].name
}

/// `f` is the first file of `s` with its name.
pub open spec fn is_first_of_name(s: Seq<IndexFileView>, f: IndexFileView) -> bool {
    exists|j: int| first_of_name(s, j) && s[j] == f
}

pub open spec fn has_name(s: Seq<IndexFileView>, n: Seq<char>) -> bool {
    exists|i: int| 0 <= i < s.len() && s[i].name == n
}

/// The names strictly increase, so no name occurs twice.
pub open spec fn sorted_by_name(s: Seq<IndexFileView>) -> bool {
    forall|i: int, j: int| 0 <= i < j < s.len() ==> text_lt(s[i].name, s[j].name)
}

/// `r` keeps, of each name that occurs in `all`, the first file with that
/// name, and lists them in order of name.
pub open spec fn is_flattening(r: Seq<IndexFileView>, all: Seq<IndexFileView>) -> bool {
    &&& sorted_by_name(r)
    &&& forall|i: int| 0 <= i < r.len() ==> is_first_of_name(all, #[trigger] r[i])
    &&& forall|j: int| 0 <= j < all.len() ==> has_name(r, #[trigger] all[j].name)
}

impl IndexFile {
    /// A copy with the same contents.
    pub fn copy(&self) -> (r: IndexFile)
        ensures
            r@ == self@,
    {
        IndexFile {
            name: self.name.clone(),
            size_bytes: self.size_bytes,
            release_date: self.release_date,
            url: self.url.clone(),
        }
    }
}

fn push_pair(v: &mut Vec<IndexFile>, p: &Option<PairData>)
    ensures
        file_views(final(v)@) == file_views(old(v)@) + pair_files(*p),
{
    if let Some(p) = p {
        v.push(p.model.copy());
        v.push(p.lex.copy());
        v.push(p.src_vocab.copy());
        v.push(p.tgt_vocab.copy());
    }
    assert(file_views(final(v)@) =~= file_views(old(v)@) + pair_files(*p));
}

impl IndexLanguage {
    /// Every file of the package as the catalog lists it: the `from` pair,
    /// the `to` pair, then the extra files. A name may occur twice.
    pub open spec fn listed_files(&self) -> Seq<IndexFileView> {
        pair_files(self.from) + pair_files(self.to) + file_views(self.extra_files@)
    }

    fn listed(&self) -> (r: Vec<IndexFile>)
        ensures
            file_views(r@) == self.listed_files(),
    {
        let mut v: Vec<IndexFile> = Vec::new();
        push_pair(&mut v, &self.from);
        push_pair(&mut v, &self.to);
        let mut i: usize = 0;
        while i < self.extra_files.len()
            invariant
                i <= self.extra_files@.len(),
                file_views(v@) == pair_files(self.from) + pair_files(self.to) + file_views(
                    self.extra_files@.take(i as int),
                ),
            decreases self.extra_files@.len() - i,
        {
            let f = self.extra_files[i].copy();
            let ghost prev = v@;
            v.push(f);
            proof {
                let e = self.extra_files@;
                assert(file_views(v@) =~= file_views(prev).push(e[i as int]@));
                assert(e.take(i + 1) =~= e.take(i as int).push(e[i as int]));
                assert(file_views(e.take(i + 1)) =~= file_views(e.take(i as int)).push(e[i as int]@));
                assert(file_views(v@) =~= pair_files(self.from) + pair_files(self.to) + file_views(
                    e.take(i + 1),
                ));
            }
            i = i + 1;
        }
        assert(self.extra_files@.take(i as int) =~= self.extra_files@);
        v
    }

    /// The files that installing this package puts in the data directory:
    /// each name once, with the first file that the catalog lists under it,
    /// in order of name.
    pub fn files(&self) -> (r: Vec<IndexFile>)
        ensures
            is_flattening(file_views(r@), self.listed_files()),
    {
        let all = self.listed();
        let ghost a = file_views(all@);
        let mut r: Vec<IndexFile> = Vec::new();
        let mut j: usize = 0;
        while j < all.len()
            invariant
                j <= all@.len(),
                a == file_views(all@),
                a == self.listed_files(),
                sorted_by_name(file_views(r@)),
                forall|i: int|
                    0 <= i < r@.len() ==> exists|k: int|
                        0 <= k < j && first_of_name(a, k) && a[k] == #[trigger] file_views(r@)[i],
                forall|k: int| 0 <= k < j ==> has_name(file_views(r@), #[trigger] a[k].name),
            decreases all@.len() - j,
        {
            let ghost rv = file_views(r@);
            let f = &all[j];
            let mut p: usize = 0;
            while p < r.len() && text_less(r[p].name.as_str(), f.name.as_str())
                invariant
                    p <= r@.len(),
                    rv == file_views(r@),
                    forall|i: int| 0 <= i < p ==> text_lt(#[trigger] rv[i].name, f.name@),
                decreases r@.len() - p,
            {
                p = p + 1;
            }
            let dup = p < r.len() && r[p].name == f.name;
            if !dup {
                proof {
                    if p < rv.len() {
                        lemma_text_lt_total(rv[p as int].name, f.name@);
                    }
                    assert forall|i: int| p <= i < rv.len() implies text_lt(f.name@, #[trigger] rv[i].name) by {
                        if i > p {
                            lemma_text_lt_transitive(f.name@, rv[p as int].name, rv[i].name);
                        }
                    }
                    lemma_text_lt_irreflexive(f.name@);
                    assert(forall|i: int| 0 <= i < rv.len() ==> #[trigger] rv[i].name != f.name@);
                    assert forall|k: int| 0 <= k < j implies a[k].name != a[j as int].name by {
                        assert(has_name(rv, a[k].name));
                    }
                }
                r.insert(p, f.copy());
                proof {
                    let nv = file_views(r@);
                    assert(nv =~= rv.insert(p as int, a[j as int]));
                    assert forall|x: int, y: int| 0 <= x < y < nv.len() implies text_lt(nv[x].name, nv[y].name) by {
                        if y < p {
                        } else if y == p {
                        } else if x < p {
                            assert(nv[y] == rv[y - 1]);
                            lemma_text_lt_transitive(nv[x].name, f.name@, nv[y].name);
                        } else if x == p {
                            assert(nv[y] == rv[y - 1]);
                        } else {
                            assert(nv[x] == rv[x - 1]);
                            assert(nv[y] == rv[y - 1]);
                        }
                    }
                    assert forall|i: int| 0 <= i < nv.len() implies exists|k: int|
                        0 <= k < j + 1 && first_of_name(a, k) && a[k] == #[trigger] nv[i] by {
                        if i < p {
                            assert(nv[i] == rv[i]);
                        } else if i == p {
                            assert(first_of_name(a, j as int));
                        } else {
                            assert(nv[i] == rv[i - 1]);
                        }
                    }
                    assert forall|k: int| 0 <= k < j + 1 implies has_name(nv, #[trigger] a[k].name) by {
                        if k == j {
                            assert(nv[p as int].name == a[k].name);
                        } else {
                            let w = choose|w: int| 0 <= w < rv.len() && rv[w].name == a[k].name;
                            if w < p {
                                assert(nv[w] == rv[w]);
                            } else {
                                assert(nv[w + 1] == rv[w]);
                            }
                        }
                    }
                }
            } else {
                proof {
                    assert(rv[p as int].name == a[j as int].name);
                    assert(has_name(rv, a[j as int].name));
                }
            }
            j = j + 1;
        }
        proof {
            let rv = file_views(r@);
            assert forall|i: int| 0 <= i < rv.len() implies exists|k: int|
                first_of_name(a, k) && a[k] == #[trigger] rv[i] by {
                let k = choose|k: int| 0 <= k < j && first_of_name(a, k) && a[k] == rv[i];
            }
            assert(is_flattening(rv, a));
        }
        r
    }
}

/// A flattened file list names each file once: for every name that the
/// catalog lists for a package, even under both of its pairs, exactly one
/// file of the list carries it.
pub proof fn lemma_flattening_names_once(lang: IndexLanguage, r: Seq<IndexFileView>)
    requires
        is_flattening(r, lang.listed_files()),
    ensures
        forall|k: int| 0 <= k < lang.listed_files().len() ==> has_name(r, #[trigger] lang.listed_files()[k].name),
        forall|i: int, j: int| 0 <= i < r.len() && 0 <= j < r.len() && r[i].name == r[j].name ==> i == j,
{
    assert forall|i: int, j: int| 0 <= i < r.len() && 0 <= j < r.len() && r[i].name == r[j].name implies i == j by {
        if i < j || j < i {
            lemma_text_lt_irreflexive(r[i].name);
        }
    }
}

/// Code of the hub language, through which all other languages translate.
pub open spec fn hub_code() -> Seq<char> {
    seq!['e', 'n']
}

/// Whether `code` names the hub language.
pub fn is_hub(code: &str) -> (r: bool)
    ensures
        r == (code@ == hub_code()),
{
    if code.unicode_len() != 2 {
        return false;
    }
    let r = code.get_char(0) == 'e' && code.get_char(1) == 'n';
    assert(r ==> code@ =~= hub_code());
    r
}

/// The hub language's code as a `String`.
pub fn hub_text() -> (r: String)
    ensures
        r@ == hub_code(),
{
    proof {
        reveal_strlit("en");
    }
    let r = String::from_str("en");
    assert(r@ =~= hub_code());
    r
}

pub open spec fn kib() -> nat {
    1024
}

pub open spec fn mib() -> nat {
    1024 * 1024
}

/// A size for display: whole KiB below one MiB, whole MiB above.
pub open spec fn size_label(n: nat) -> Seq<char> {
    if n < kib() {
        "<1KiB"@
    } else if n < mib() {
        decimal(n / kib()) + "KiB"@
    } else {
        decimal(n / mib()) + "MiB"@
    }
}

const ONE_KB: u32 = 1024;

const ONE_MB: u32 = 1024 * 1024;

/// The size of `size_bytes` as a short label such as `12MiB`.
pub fn pretty_size(size_bytes: u32) -> (r: String)
    ensures
        r@ == size_label(size_bytes as nat),
{
    if size_bytes < ONE_KB {
        String::from_str("<1KiB")
    } else if size_bytes < ONE_MB {
        let mut s = decimal_text(size_bytes / ONE_KB);
        s.append("KiB");
        s
    } else {
        let mut s = decimal_text(size_bytes / ONE_MB);
        s.append("MiB");
        s
    }
}

/// Sum of the sizes of `s`.
pub open spec fn total_bytes(s: Seq<IndexFileView>) -> nat
    decreases s.len(),
{
    if s.len() == 0 {
        0
    } else {
        total_bytes(s.drop_last()) + s.last().size_bytes as nat
    }
}

/// Which directions of translation a language offers, next to the hub.
#[derive(Clone, Copy, Debug, PartialEq, Eq, Structural)]
pub enum Direction {
    Both,
    FromOnly,
    ToOnly,
}

/// What a language selector shows of a package.
pub struct LanguageEntry {
    pub code: String,
    pub name: String,
    pub size: String,
    pub direction: Direction,
    pub installed: bool,
}

pub open spec fn direction_of(from: bool, to: bool) -> Direction {
    if from && !to {
        Direction::FromOnly
    } else if !from && to {
        Direction::ToOnly
    } else {
        Direction::Both
    }
}

pub open spec fn names_of(s: Seq<String>) -> Seq<Seq<char>> {
    s.map_values(|x: String| x@)
}

/// Whether every file that the package lists is among `available`.
pub open spec fn all_present(listed: Seq<IndexFileView>, available: Seq<Seq<char>>) -> bool {
    forall|k: int| 0 <= k < listed.len() ==> available.contains(#[trigger] listed[k].name)
}

/// A package is installed when each of its files is present; the hub
/// language always is.
pub open spec fn installed_in(lang: IndexLanguage, available: Seq<Seq<char>>) -> bool {
    lang.code@ == hub_code() || all_present(lang.listed_files(), available)
}

pub(crate) fn contains_text(v: &Vec<String>, s: &String) -> (r: bool)
    ensures
        r == names_of(v@).contains(s@),
{
    let mut i: usize = 0;
    while i < v.len()
        invariant
            i <= v@.len(),
            forall|k: int| 0 <= k < i ==> v@[k]@ != s@,
        decreases v@.len() - i,
    {
        if v[i] == *s {
            assert(names_of(v@)[i as int] == s@);
            return true;
        }
        i = i + 1;
    }
    assert(!names_of(v@).contains(s@)) by {
        if names_of(v@).contains(s@) {
            let k = choose|k: int| 0 <= k < names_of(v@).len() && names_of(v@)[k] == s@;
            assert(v@[k]@ == s@);
        }
    }
    false
}

impl IndexLanguage {
    /// Whether the package counts as installed in a data directory that
    /// holds the files named in `available`.
    pub fn is_installed(&self, available: &Vec<String>) -> (r: bool)
        ensures
            r == installed_in(*self, names_of(available@)),
    {
        if is_hub(self.code.as_str()) {
            return true;
        }
        let all = self.listed();
        let mut i: usize = 0;
        while i < all.len()
            invariant
                i <= all@.len(),
                self.code@ != hub_code(),
                file_views(all@) == self.listed_files(),
                forall|k: int| 0 <= k < i ==> names_of(available@).contains(#[trigger] self.listed_files()[k].name),
            decreases all@.len() - i,
        {
            if !contains_text(available, &all[i].name) {
                assert(file_views(all@)[i as int].name == all@[i as int].name@);
                assert(!names_of(available@).contains(self.listed_files()[i as int].name));
                assert(!all_present(self.listed_files(), names_of(available@)));
                return false;
            }
            assert(file_views(all@)[i as int].name == all@[i as int].name@);
            i = i + 1;
        }
        true
    }

    /// What a language selector shows of this package: its size counts each
    /// file of `files()` once; a size beyond `u32::MAX` shows as that bound.
    pub fn entry(&self) -> (r: LanguageEntry)
        ensures
            r.code@ == self.code@,
            r.name@ == self.name@,
            r.direction == direction_of(self.from is Some, self.to is Some),
            r.installed == false,
            exists|fs: Seq<IndexFileView>|
                is_flattening(fs, self.listed_files()) && r.size@ == size_label(
                    if total_bytes(fs) > u32::MAX { u32::MAX as nat } else { total_bytes(fs) },
                ),
    {
        let files = self.files();
        let ghost fs = file_views(files@);
        let mut total: u64 = 0;
        let mut i: usize = 0;
        let mut capped = false;
        while i < files.len()
            invariant
                i <= files@.len(),
                fs == file_views(files@),
                capped ==> total_bytes(fs.take(i as int)) > u32::MAX,
                !capped ==> total == total_bytes(fs.take(i as int)) && total <= u32::MAX,
            decreases files@.len() - i,
        {
            proof {
                assert(fs.take(i + 1).drop_last() =~= fs.take(i as int));
            }
            if !capped {
                total = total + files[i].size_bytes as u64;
                if total > u32::MAX as u64 {
                    capped = true;
                }
            }
            i = i + 1;
        }
        assert(fs.take(i as int) =~= fs);
        let shown: u32 = if capped { u32::MAX } else { total as u32 };
        let direction = match (&self.from, &self.to) {
            (Some(_), None) => Direction::FromOnly,
            (None, Some(_)) => Direction::ToOnly,
            _ => Direction::Both,
        };
        LanguageEntry {
            code: self.code.clone(),
            name: self.name.clone(),
            size: pretty_size(shown),
            direction,
            installed: false,
        }
    }
}

/// The first package of `langs` whose code is `code`.
pub open spec fn first_with_code(langs: Seq<IndexLanguage>, code: Seq<char>, i: int) -> bool {
    &&& 0 <= i < langs.len()
    &&& langs[i].code@ == code
    &&& forall|k: int| 0 <= k < i ==> langs[k].code@ != code
}

impl Index {
    /// Position of the package with code `code`, if the catalog has one.
    pub fn find(&self, code: &str) -> (r: Option<usize>)
        ensures
            match r {
                Some(i) => first_with_code(self.languages@, code@, i as int),
                None => forall|k: int| 0 <= k < self.languages@.len() ==> self.languages@[k].code@ != code@,
            },
    {
        let mut i: usize = 0;
        while i < self.languages.len()
            invariant
                i <= self.languages@.len(),
                forall|k: int| 0 <= k < i ==> self.languages@[k].code@ != code@,
            decreases self.languages@.len() - i,
        {
            if text_eq(self.languages[i].code.as_str(), code) {
                return Some(i);
            }
            i = i + 1;
        }
        None
    }

    /// The catalog with the hub language added at its end: English, in
    /// Latin script, with no pair and no file of its own.
    pub fn with_hub_language(self) -> (r: Index)
        ensures
            r.languages@.len() == self.languages@.len() + 1,
            r.languages@.take(self.languages@.len() as int) == self.languages@,
            r.languages@.last().code@ == hub_code(),
            r.languages@.last().name@ == "English"@,
            r.languages@.last().script@ == "Latin"@,
            r.languages@.last().from is None,
            r.languages@.last().to is None,
            r.languages@.last().extra_files@.len() == 0,
    {
        let mut languages = self.languages;
        let ghost before = languages@;
        languages.push(IndexLanguage {
            code: hub_text(),
            name: String::from_str("English"),
            script: String::from_str("Latin"),
            from: None,
            to: None,
            extra_files: Vec::new(),
        });
        assert(languages@.take(before.len() as int) =~= before);
        Index { languages }
    }
}

/// Once a directory listing holds every file of a package, the package
/// counts as installed, whatever else the listing holds.
pub proof fn lemma_installed_after_fetch(lang: IndexLanguage, files: Seq<IndexFileView>, after: Seq<Seq<char>>)
    requires
        is_flattening(files, lang.listed_files()),
        forall|i: int| 0 <= i < files.len() ==> after.contains(#[trigger] files[i].name),
    ensures
        installed_in(lang, after),
{
    let listed = lang.listed_files();
    assert forall|k: int| 0 <= k < listed.len() implies after.contains(#[trigger] listed[k].name) by {
        assert(has_name(files, listed[k].name));
        let i = choose|i: int| 0 <= i < files.len() && files[i].name == listed[k].name;
    }
}

/// Once the files of a package that is not the hub, and has at least one
/// file, are gone from a directory listing, the package no longer counts
/// as installed, whatever else the listing holds.
pub proof fn lemma_not_installed_after_delete(lang: IndexLanguage, files: Seq<IndexFileView>, after: Seq<Seq<char>>)
    requires
        is_flattening(files, lang.listed_files()),
        lang.code@ != hub_code(),
        files.len() > 0,
        forall|i: int| 0 <= i < files.len() ==> !after.contains(#[trigger] files[i].name),
    ensures
        !installed_in(lang, after),
{
    let listed = lang.listed_files();
    assert(is_first_of_name(listed, files[0]));
    let j = choose|j: int| first_of_name(listed, j) && listed[j] == files[0];
    assert(!after.contains(listed[j].name));
}

} // verus!
