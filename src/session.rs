//! The state that the command loop owns, and what each command does to it.
//! The loop itself, with its I/O, runs outside; it hands each command's
//! inputs here and carries out what comes back.

use vstd::prelude::*;
use vstd::string::*;
use crate::index::{Index, IndexFile, IndexFileView, IndexLanguage, file_views, first_with_code,
    hub_code, installed_in, is_flattening, is_hub, names_of, total_bytes};
use crate::text::{join_lines, join_lines_spec, lemma_split_lines_nonempty, split_lines, split_lines_spec, views_of};
use crate::translate::{Translator, hop_failure, join_path, path_join};

verus! {

/// The codes of the packages of `langs` that are installed, in catalog order.
pub open spec fn installed_codes(langs: Seq<IndexLanguage>, available: Seq<Seq<char>>) -> Seq<Seq<char>>
    decreases langs.len(),
{
    if langs.len() == 0 {
        seq![]
    } else {
        let init = installed_codes(langs.drop_last(), available);
        if installed_in(langs.last(), available) {
            init.push(langs.last().code@)
        } else {
            init
        }
    }
}

/// Some package other than the hub is installed.
pub open spec fn any_language_installed(langs: Seq<IndexLanguage>, available: Seq<Seq<char>>) -> bool {
    exists|i: int| 0 <= i < langs.len() && langs[i].code@ != hub_code() && installed_in(#[trigger] langs[i], available)
}

/// What a change of data directory shows: the installed packages, and
/// whether translation can start.
pub struct DataPathOutcome {
    pub installed: Vec<String>,
    pub show_translation: bool,
}

/// The files to fetch for one package, and where they go.
pub struct DownloadJob {
    pub code: String,
    pub files: Vec<IndexFile>,
    pub targets: Vec<String>,
    pub total_size: u64,
}

/// The paths of `files` inside `dir`.
pub open spec fn paths_in(dir: Seq<char>, files: Seq<IndexFileView>, paths: Seq<Seq<char>>) -> bool {
    &&& paths.len() == files.len()
    &&& forall|k: int| 0 <= k < files.len() ==> #[trigger] paths[k] == path_join(dir, files[k].name)
}

/// The text shown when the models of a request could not be loaded.
pub open spec fn load_error_text(from: Seq<char>, to: Seq<char>, e: Seq<char>) -> Seq<char> {
    "Couldn't load language pair "@ + from + "->"@ + to + ": "@ + e
}

/// What a request whose models are loaded shows: the lines of the text,
/// translated as `Translator::translate` says, joined again; or the
/// "not loaded" message when a hop lacks its model.
pub open spec fn translation_shown<M, D, P>(
    t: Translator<M>,
    from: Seq<char>,
    to: Seq<char>,
    lines: Seq<Seq<char>>,
    direct: D,
    pivot: P,
    out: Seq<char>,
) -> bool
    where
        D: Fn(&M, &[&str]) -> Vec<String>,
        P: Fn(&M, &M, &[&str]) -> Vec<String>,
{
    let hops = t.route_of(from, to);
    if !t.route_loaded(from, to) {
        out == "Language not loaded"@
    } else if hops.len() == 1 {
        exists|i: int, ts: &[&str], v: Vec<String>|
            0 <= i < t.loaded().len() && t.loaded()[i] == hops[0] && ts@.map_values(|x: &str| x@) == lines
                && out == join_lines_spec(views_of(v@)) && #[trigger] direct.ensures((&t.model_at(i), ts), v)
    } else {
        exists|i: int, j: int, ts: &[&str], v: Vec<String>|
            0 <= i < t.loaded().len() && 0 <= j < t.loaded().len() && t.loaded()[i] == hops[0]
                && t.loaded()[j] == hops[1] && ts@.map_values(|x: &str| x@) == lines && out == join_lines_spec(
                views_of(v@),
            ) && #[trigger] pivot.ensures((&t.model_at(i), &t.model_at(j), ts), v)
    }
}

/// The backend's state: the catalog, the data directory once known, and
/// the translator once a language is installed.
pub struct Session<M> {
    pub index: Index,
    pub data_path: Option<String>,
    pub translator: Option<Translator<M>>,
}

impl<M> Session<M> {
    pub open spec fn wf(&self) -> bool {
        self.translator matches Some(t) ==> t.wf()
    }

    /// A session over `index` with no data directory yet.
    pub fn new(index: Index) -> (r: Session<M>)
        ensures
            r.wf(),
            r.index == index,
            r.data_path is None,
            r.translator is None,
    {
        Session { index, data_path: None, translator: None }
    }

    /// Switches to the data directory `path`, whose files are `available`.
    /// A translator bound to `path` replaces the old one when some
    /// language besides the hub is installed there.
    pub fn set_data_path(&mut self, path: String, available: &Vec<String>) -> (r: DataPathOutcome)
        requires
            old(self).wf(),
        ensures
            final(self).wf(),
            final(self).index == old(self).index,
            final(self).data_path matches Some(p) && p@ == path@,
            views_of(r.installed@) == installed_codes(old(self).index.languages@, names_of(available@)),
            r.show_translation == any_language_installed(old(self).index.languages@, names_of(available@)),
            r.show_translation ==> (final(self).translator matches Some(t) && t.data_path() == path@ && t.hub()
                == hub_code() && t.loaded().len() == 0),
            !r.show_translation ==> final(self).translator == old(self).translator,
    {
        let ghost langs = self.index.languages@;
        let ghost avail = names_of(available@);
        let mut installed: Vec<String> = Vec::new();
        let mut any = false;
        let mut i: usize = 0;
        while i < self.index.languages.len()
            invariant
                langs == self.index.languages@,
                i <= langs.len(),
                avail == names_of(available@),
                views_of(installed@) == installed_codes(langs.take(i as int), avail),
                any == any_language_installed(langs.take(i as int), avail),
            decreases langs.len() - i,
        {
            let lang = &self.index.languages[i];
            proof {
                assert(langs.take(i + 1).drop_last() =~= langs.take(i as int));
            }
            if lang.is_installed(available) {
                installed.push(lang.code.clone());
                proof {
                    assert(views_of(installed@) =~= installed_codes(langs.take(i as int), avail).push(lang.code@));
                }
                if !is_hub(lang.code.as_str()) {
                    any = true;
                    assert(langs.take(i + 1)[i as int] == langs[i as int]);
                }
            }
            proof {
                if any_language_installed(langs.take(i as int), avail) {
                    let w = choose|w: int|
                        0 <= w < i && langs.take(i as int)[w].code@ != hub_code() && installed_in(
                            #[trigger] langs.take(i as int)[w],
                            avail,
                        );
                    assert(langs.take(i + 1)[w] == langs.take(i as int)[w]);
                }
                if any_language_installed(langs.take(i + 1), avail) {
                    let w = choose|w: int|
                        0 <= w < i + 1 && langs.take(i + 1)[w].code@ != hub_code() && installed_in(
                            #[trigger] langs.take(i + 1)[w],
                            avail,
                        );
                    if w < i {
                        assert(langs.take(i as int)[w] == langs.take(i + 1)[w]);
                    }
                }
            }
            i = i + 1;
        }
        assert(langs.take(i as int) =~= langs);
        if any {
            self.translator = Some(Translator::new(path.clone()));
        }
        self.data_path = Some(path);
        DataPathOutcome { installed, show_translation: any }
    }

    /// The download of the package `code` into the data directory: none
    /// while no data directory is known or when the catalog has no such
    /// package. The total size saturates at `u64::MAX`.
    pub fn download_job(&self, code: &str) -> (r: Option<DownloadJob>)
        ensures
            r is None <==> (self.data_path is None || forall|k: int|
                0 <= k < self.index.languages@.len() ==> self.index.languages@[k].code@ != code@),
            r matches Some(job) ==> exists|i: int|
                first_with_code(self.index.languages@, code@, i) && job.code@ == code@ && is_flattening(
                    file_views(job.files@),
                    #[trigger] self.index.languages@[i].listed_files(),
                ) && paths_in(self.data_path->0@, file_views(job.files@), views_of(job.targets@))
                    && job.total_size as nat == if total_bytes(file_views(job.files@)) > u64::MAX {
                    u64::MAX as nat
                } else {
                    total_bytes(file_views(job.files@))
                },
    {
        let dir = match &self.data_path {
            Some(d) => d,
            None => {
                return None;
            },
        };
        let i = match self.index.find(code) {
            Some(i) => i,
            None => {
                return None;
            },
        };
        let lang = &self.index.languages[i];
        let files = lang.files();
        let ghost fs = file_views(files@);
        let mut targets: Vec<String> = Vec::new();
        let mut total: u64 = 0;
        let mut capped = false;
        let mut k: usize = 0;
        while k < files.len()
            invariant
                k <= files@.len(),
                fs == file_views(files@),
                targets@.len() == k,
                forall|j: int| 0 <= j < k ==> #[trigger] targets@[j]@ == path_join(dir@, fs[j].name),
                capped ==> total_bytes(fs.take(k as int)) > u64::MAX && total == u64::MAX,
                !capped ==> total == total_bytes(fs.take(k as int)),
            decreases files@.len() - k,
        {
            targets.push(join_path(dir.as_str(), files[k].name.as_str()));
            proof {
                assert(fs.take(k + 1).drop_last() =~= fs.take(k as int));
            }
            if !capped {
                if total <= u64::MAX - files[k].size_bytes as u64 {
                    total = total + files[k].size_bytes as u64;
                } else {
                    total = u64::MAX;
                    capped = true;
                }
            }
            k = k + 1;
        }
        assert(fs.take(k as int) =~= fs);
        let job = DownloadJob { code: code.to_owned(), files, targets, total_size: total };
        assert(paths_in(dir@, file_views(job.files@), views_of(job.targets@)));
        Some(job)
    }

    /// Records the end of a download whose file transfers ended as
    /// `succeeded` says: the package is installed only when every one of
    /// them succeeded. A translator bound to the data directory is made if
    /// none exists yet.
    pub fn finish_download(&mut self, succeeded: &Vec<bool>) -> (r: bool)
        requires
            old(self).wf(),
        ensures
            final(self).wf(),
            final(self).index == old(self).index,
            final(self).data_path == old(self).data_path,
            r == forall|k: int| 0 <= k < succeeded@.len() ==> succeeded@[k],
            old(self).translator is Some ==> final(self).translator == old(self).translator,
            old(self).translator is None ==> match old(self).data_path {
                Some(p) => (final(self).translator matches Some(t) && t.data_path() == p@ && t.hub() == hub_code()
                    && t.loaded().len() == 0),
                None => final(self).translator is None,
            },
    {
        let mut all = true;
        let mut k: usize = 0;
        while k < succeeded.len()
            invariant
                k <= succeeded@.len(),
                all == forall|j: int| 0 <= j < k ==> succeeded@[j],
            decreases succeeded@.len() - k,
        {
            if !succeeded[k] {
                all = false;
            }
            k = k + 1;
        }
        if self.translator.is_none() {
            if let Some(p) = &self.data_path {
                self.translator = Some(Translator::new(p.clone()));
            }
        }
        all
    }

    /// The paths of the files that deleting the package `code` removes:
    /// none while no data directory is known or when the catalog has no
    /// such package.
    pub fn delete_targets(&self, code: &str) -> (r: Option<Vec<String>>)
        ensures
            r is None <==> (self.data_path is None || forall|k: int|
                0 <= k < self.index.languages@.len() ==> self.index.languages@[k].code@ != code@),
            r matches Some(paths) ==> exists|i: int, fs: Seq<IndexFileView>|
                #[trigger] first_with_code(self.index.languages@, code@, i) && is_flattening(
                    fs,
                    self.index.languages@[i].listed_files(),
                ) && #[trigger] paths_in(self.data_path->0@, fs, views_of(paths@)),
    {
        match self.download_job(code) {
            Some(job) => {
                proof {
                    let i = choose|i: int|
                        first_with_code(self.index.languages@, code@, i) && job.code@ == code@ && is_flattening(
                            file_views(job.files@),
                            #[trigger] self.index.languages@[i].listed_files(),
                        ) && paths_in(self.data_path->0@, file_views(job.files@), views_of(job.targets@))
                            && job.total_size as nat == if total_bytes(file_views(job.files@)) > u64::MAX {
                            u64::MAX as nat
                        } else {
                            total_bytes(file_views(job.files@))
                        };
                    assert(first_with_code(self.index.languages@, code@, i));
                    assert(paths_in(self.data_path->0@, file_views(job.files@), views_of(job.targets@)));
                    assert(exists|i: int, fs: Seq<IndexFileView>|
                        #[trigger] first_with_code(self.index.languages@, code@, i) && is_flattening(
                            fs,
                            self.index.languages@[i].listed_files(),
                        ) && #[trigger] paths_in(self.data_path->0@, fs, views_of(job.targets@)));
                }
                // The solver matches the postcondition's pattern only on a named result.
                let r = Some(job.targets);
                assert(r matches Some(p) && p == job.targets);
                r
            },
            None => None,
        }
    }
}

impl<M> Session<M> {
    /// Serves a translation request: loads the models that translating
    /// `from` into `to` needs, translates `text` line by line, and gives the
    /// text to show, which is an error message where loading failed. Gives
    /// nothing while no translator exists.
    pub fn translate_text<L, D, P>(
        &mut self,
        text: &str,
        from: &str,
        to: &str,
        available: &Vec<String>,
        load: L,
        direct: D,
        pivot: P,
    ) -> (r: Option<String>)
        where
            L: Fn(&str) -> Result<M, String>,
            D: Fn(&M, &[&str]) -> Vec<String>,
            P: Fn(&M, &M, &[&str]) -> Vec<String>,
        requires
            old(self).wf(),
            forall|c: &str| load.requires((c,)),
            forall|m: &M, t: &[&str]| direct.requires((m, t)),
            forall|a: &M, b: &M, t: &[&str]| pivot.requires((a, b, t)),
        ensures
            final(self).wf(),
            final(self).index == old(self).index,
            final(self).data_path == old(self).data_path,
            (r is None) == (old(self).translator is None),
            old(self).translator is None ==> final(self).translator is None,
            r matches Some(out) ==> (final(self).translator matches Some(t) && old(self).translator matches Some(
                t0,
            ) && t.data_path() == t0.data_path() && t.hub() == t0.hub() && if from@ != to@ && !t.route_loaded(
                from@,
                to@,
            ) {
                exists|i: int, e: String|
                    0 <= i < t.route_of(from@, to@).len() && #[trigger] hop_failure(
                        t0.data_path(),
                        t.route_of(from@, to@)[i],
                        names_of(available@),
                        load,
                        e,
                    ) && out@ == load_error_text(from@, to@, e@)
            } else {
                translation_shown(t, from@, to@, split_lines_spec(text@), direct, pivot, out@)
            }),
    {
        let mut t = match self.translator.take() {
            Some(t) => t,
            None => {
                return None;
            },
        };
        let ghost t0 = t;
        let loaded = t.load_language_pair(from, to, available, load);
        let out = match loaded {
            Err(e) => {
                let mut s = String::from_str("Couldn't load language pair ");
                s.append(from);
                s.append("->");
                s.append(to);
                s.append(": ");
                s.append(e.as_str());
                proof {
                    let hops = t0.route_of(from@, to@);
                    assert(t.route_of(from@, to@) == hops);
                    let i = choose|i: int|
                        0 <= i < hops.len() && (forall|j: int| 0 <= j < i ==> t.loaded().contains(#[trigger] hops[j]))
                            && !t.loaded().contains(hops[i]) && hop_failure(
                            t0.data_path(),
                            hops[i],
                            names_of(available@),
                            load,
                            e,
                        );
                    assert(!t.route_loaded(from@, to@));
                    assert(from@ != to@);
                    assert(s@ == load_error_text(from@, to@, e@));
                    assert(hop_failure(t0.data_path(), t.route_of(from@, to@)[i], names_of(available@), load, e));
                }
                s
            },
            Ok(()) => {
                let lines = split_lines(text);
                let mut refs: Vec<&str> = Vec::new();
                let mut k: usize = 0;
                while k < lines.len()
                    invariant
                        k <= lines@.len(),
                        refs@.len() == k,
                        forall|j: int| 0 <= j < k ==> #[trigger] refs@[j]@ == lines@[j]@,
                    decreases lines@.len() - k,
                {
                    refs.push(lines[k].as_str());
                    k = k + 1;
                }
                let ts = refs.as_slice();
                assert(ts@.map_values(|x: &str| x@) =~= split_lines_spec(text@));
                proof {
                    lemma_split_lines_nonempty(text@);
                }
                let res = t.translate(from, to, ts, direct, pivot);
                match res {
                    Ok(v) => {
                        let o = join_lines(&v);
                        proof {
                            let hops = t.route_of(from@, to@);
                            if hops.len() == 1 {
                                let i = choose|i: int|
                                    0 <= i < t.loaded().len() && t.loaded()[i] == hops[0]
                                        && #[trigger] direct.ensures((&t.model_at(i), ts), v);
                            } else {
                                let (i, j) = choose|i: int, j: int|
                                    0 <= i < t.loaded().len() && 0 <= j < t.loaded().len()
                                        && t.loaded()[i] == hops[0] && t.loaded()[j] == hops[1]
                                        && #[trigger] pivot.ensures((&t.model_at(i), &t.model_at(j), ts), v);
                            }
                            assert(translation_shown(t, from@, to@, split_lines_spec(text@), direct, pivot, o@));
                        }
                        o
                    },
                    Err(e) => e,
                }
            },
        };
        self.translator = Some(t);
        Some(out)
    }
}

} // verus!
