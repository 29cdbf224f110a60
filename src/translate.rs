//! Routing of translation requests through the hub language, and the cache
//! of loaded translation models. Models are values of a type `M` that the
//! caller's engine produces; this module decides what to load and which
//! models a request goes through.

use vstd::prelude::*;
use vstd::string::*;
use crate::index::{hub_code, hub_text, names_of};
use crate::text::text_eq;

verus! {

/// The hops that translate `from` into `to`: through the hub when neither
/// end is the hub, directly otherwise.
pub open spec fn route_spec(from: Seq<char>, to: Seq<char>, hub: Seq<char>) -> Seq<(Seq<char>, Seq<char>)> {
    if from != hub && to != hub {
        seq![(from, hub), (hub, to)]
    } else {
        seq![(from, to)]
    }
}

pub open spec fn hops_view(v: Seq<(String, String)>) -> Seq<(Seq<char>, Seq<char>)> {
    v.map_values(|h: (String, String)| (h.0@, h.1@))
}

/// The hops that translate `from` into `to`, with `hub` as the pivot.
pub fn route(from: &str, to: &str, hub: &str) -> (r: Vec<(String, String)>)
    ensures
        hops_view(r@) == route_spec(from@, to@, hub@),
{
    let mut r: Vec<(String, String)> = Vec::new();
    if !text_eq(from, hub) && !text_eq(to, hub) {
        r.push((from.to_owned(), hub.to_owned()));
        r.push((hub.to_owned(), to.to_owned()));
    } else {
        r.push((from.to_owned(), to.to_owned()));
    }
    assert(hops_view(r@) =~= route_spec(from@, to@, hub@));
    r
}

/// Name of the model file of the hop `from` to `to`.
pub open spec fn model_file_name(from: Seq<char>, to: Seq<char>) -> Seq<char> {
    "model."@ + from + to + ".intgemm.alphas.bin"@
}

/// Name of the vocabulary file of the hop `from` to `to`; source and target
/// share it.
pub open spec fn vocab_file_name(from: Seq<char>, to: Seq<char>) -> Seq<char> {
    "vocab."@ + from + to + ".spm"@
}

/// `name` inside the directory `dir`, as `Path::join` forms it on Unix: a
/// name that starts with `/` is absolute and stands alone.
pub open spec fn path_join(dir: Seq<char>, name: Seq<char>) -> Seq<char> {
    if name.len() > 0 && name[0] == '/' {
        name
    } else if dir.len() == 0 {
        name
    } else if dir.last() == '/' {
        dir + name
    } else {
        dir + "/"@ + name
    }
}

/// The engine configuration that loads one model with its vocabularies.
pub open spec fn model_config(model: Seq<char>, src_vocab: Seq<char>, tgt_vocab: Seq<char>) -> Seq<char> {
    "\nmodels:\n  - "@ + model + "\nvocabs:\n  - "@ + src_vocab + "\n  - "@ + tgt_vocab
        + "\nbeam-size: 1\nnormalize: 1.0\nword-penalty: 0\nmax-length-break: 128\nmini-batch-words: 1024\nmax-length-factor: 2.0\nskip-cost: true\ncpu-threads: 1\nquiet: true\nquiet-translation: true\ngemm-precision: int8shiftAlphaAll\nalignment: soft"@
}

/// The path of the file `name` in the directory `dir`.
pub fn join_path(dir: &str, name: &str) -> (r: String)
    ensures
        r@ == path_join(dir@, name@),
{
    let n = dir.unicode_len();
    if name.unicode_len() > 0 && name.get_char(0) == '/' {
        name.to_owned()
    } else if n == 0 {
        name.to_owned()
    } else if dir.get_char(n - 1) == '/' {
        let mut s = dir.to_owned();
        s.append(name);
        s
    } else {
        let mut s = dir.to_owned();
        s.append("/");
        s.append(name);
        s
    }
}

fn model_file(from: &str, to: &str) -> (r: String)
    ensures
        r@ == model_file_name(from@, to@),
{
    let mut s = String::from_str("model.");
    s.append(from);
    s.append(to);
    s.append(".intgemm.alphas.bin");
    s
}

fn vocab_file(from: &str, to: &str) -> (r: String)
    ensures
        r@ == vocab_file_name(from@, to@),
{
    let mut s = String::from_str("vocab.");
    s.append(from);
    s.append(to);
    s.append(".spm");
    s
}

fn config_text(model: &str, src_vocab: &str, tgt_vocab: &str) -> (r: String)
    ensures
        r@ == model_config(model@, src_vocab@, tgt_vocab@),
{
    let mut s = String::from_str("\nmodels:\n  - ");
    s.append(model);
    s.append("\nvocabs:\n  - ");
    s.append(src_vocab);
    s.append("\n  - ");
    s.append(tgt_vocab);
    s.append(
        "\nbeam-size: 1\nnormalize: 1.0\nword-penalty: 0\nmax-length-break: 128\nmini-batch-words: 1024\nmax-length-factor: 2.0\nskip-cost: true\ncpu-threads: 1\nquiet: true\nquiet-translation: true\ngemm-precision: int8shiftAlphaAll\nalignment: soft",
    );
    s
}

/// A loaded model and the hop that it translates.
pub struct LoadedModel<M> {
    pub from: String,
    pub to: String,
    pub model: M,
}

/// Loads translation models on demand and keeps each one for the rest of
/// its life; translates through the hub language where no direct model
/// exists.
pub struct Translator<M> {
    data_path: String,
    hub: String,
    languages: Vec<LoadedModel<M>>,
}

/// The model file and the vocabulary of the hop `hop` are among `available`.
pub open spec fn hop_files_present(available: Seq<Seq<char>>, hop: (Seq<char>, Seq<char>)) -> bool {
    available.contains(model_file_name(hop.0, hop.1)) && available.contains(vocab_file_name(hop.0, hop.1))
}

/// The engine configuration of the hop `hop`, with its files under `data_path`.
pub open spec fn hop_config(data_path: Seq<char>, hop: (Seq<char>, Seq<char>)) -> Seq<char> {
    let model = path_join(data_path, model_file_name(hop.0, hop.1));
    let vocab = path_join(data_path, vocab_file_name(hop.0, hop.1));
    model_config(model, vocab, vocab)
}

/// `m` is what `load` built for the hop `hop`, whose files are among
/// `available`, from the configuration that names them.
pub open spec fn loaded_from<M, L: Fn(&str) -> Result<M, String>>(
    data_path: Seq<char>,
    hop: (Seq<char>, Seq<char>),
    available: Seq<Seq<char>>,
    load: L,
    m: M,
) -> bool {
    &&& hop_files_present(available, hop)
    &&& exists|c: &str| c@ == hop_config(data_path, hop) && #[trigger] load.ensures((c,), Ok(m))
}

/// Why loading the hop `hop` failed with `e`: its model file or its
/// vocabulary is not among `available`, or else the engine refused the
/// configuration that names them.
pub open spec fn hop_failure<M, L: Fn(&str) -> Result<M, String>>(
    data_path: Seq<char>,
    hop: (Seq<char>, Seq<char>),
    available: Seq<Seq<char>>,
    load: L,
    e: String,
) -> bool {
    let model = model_file_name(hop.0, hop.1);
    let vocab = vocab_file_name(hop.0, hop.1);
    if !available.contains(model) {
        e@ == "Model file not found: "@ + path_join(data_path, model)
    } else if !available.contains(vocab) {
        e@ == "Source vocab file not found: "@ + path_join(data_path, vocab)
    } else {
        exists|c: &str| c@ == hop_config(data_path, hop) && #[trigger] load.ensures((c,), Err(e))
    }
}

/// `after` holds every hop of `before`, at the same place and with the
/// same model: nothing loaded is evicted or replaced.
pub open spec fn models_kept<M>(before: Translator<M>, after: Translator<M>) -> bool {
    &&& after.loaded().len() >= before.loaded().len()
    &&& after.loaded().take(before.loaded().len() as int) == before.loaded()
    &&& forall|i: int| 0 <= i < before.loaded().len() ==> #[trigger] after.model_at(i) == before.model_at(i)
}

impl<M> Translator<M> {
    /// The directory that holds the model files.
    pub closed spec fn data_path(&self) -> Seq<char> {
        self.data_path@
    }

    /// The language through which other languages translate.
    pub closed spec fn hub(&self) -> Seq<char> {
        self.hub@
    }

    /// The hops that have a model, in the order in which they were loaded.
    pub closed spec fn loaded(&self) -> Seq<(Seq<char>, Seq<char>)> {
        self.languages@.map_values(|m: LoadedModel<M>| (m.from@, m.to@))
    }

    /// The model of the `i`-th loaded hop.
    pub closed spec fn model_at(&self, i: int) -> M {
        self.languages@[i].model
    }

    /// No hop has two models.
    pub open spec fn wf(&self) -> bool {
        self.loaded().no_duplicates()
    }

    pub open spec fn route_of(&self, from: Seq<char>, to: Seq<char>) -> Seq<(Seq<char>, Seq<char>)> {
        route_spec(from, to, self.hub())
    }

    /// Every hop from `from` to `to` has a model.
    pub open spec fn route_loaded(&self, from: Seq<char>, to: Seq<char>) -> bool {
        forall|i: int| 0 <= i < self.route_of(from, to).len() ==> self.loaded().contains(#[trigger] self.route_of(from, to)[i])
    }

    /// A translator with no model loaded, for models under `data_path`,
    /// with English as the hub.
    pub fn new(data_path: String) -> (r: Translator<M>)
        ensures
            r.wf(),
            r.data_path() == data_path@,
            r.hub() == hub_code(),
            r.loaded().len() == 0,
    {
        let r = Translator { data_path, hub: hub_text(), languages: Vec::new() };
        assert(r.loaded() =~= Seq::<(Seq<char>, Seq<char>)>::empty());
        r
    }

    /// The hops that translate `from_lang` into `to_lang`.
    pub fn get_pairs(&self, from_lang: &str, to_lang: &str) -> (r: Vec<(String, String)>)
        ensures
            hops_view(r@) == self.route_of(from_lang@, to_lang@),
    {
        route(from_lang, to_lang, self.hub.as_str())
    }

    fn find_model(&self, from: &str, to: &str) -> (r: Option<usize>)
        ensures
            match r {
                Some(i) => i < self.loaded().len() && self.loaded()[i as int] == (from@, to@),
                None => !self.loaded().contains((from@, to@)),
            },
    {
        let mut i: usize = 0;
        while i < self.languages.len()
            invariant
                i <= self.languages@.len(),
                forall|k: int| 0 <= k < i ==> self.loaded()[k] != (from@, to@),
            decreases self.languages@.len() - i,
        {
            if text_eq(self.languages[i].from.as_str(), from) && text_eq(self.languages[i].to.as_str(), to) {
                return Some(i);
            }
            proof {
                assert(self.loaded()[i as int] == (self.languages@[i as int].from@, self.languages@[i as int].to@));
            }
            i = i + 1;
        }
        None
    }

    /// Whether the hop `from_lang` to `to_lang` has a model.
    pub fn is_loaded(&self, from_lang: &str, to_lang: &str) -> (r: bool)
        ensures
            r == self.loaded().contains((from_lang@, to_lang@)),
    {
        self.find_model(from_lang, to_lang).is_some()
    }

    /// Loads the model of one hop unless it is loaded already. The model and
    /// vocabulary files must be among `available`, the names in the data
    /// directory; `load` builds a model from an engine configuration.
    fn load_hop<L>(&mut self, from: &str, to: &str, available: &Vec<String>, load: &L) -> (r: Result<(), String>)
        where
            L: Fn(&str) -> Result<M, String>,
        requires
            old(self).wf(),
            forall|c: &str| load.requires((c,)),
        ensures
            final(self).wf(),
            final(self).data_path() == old(self).data_path(),
            final(self).hub() == old(self).hub(),
            models_kept(*old(self), *final(self)),
            final(self).loaded().contains((from@, to@)) == (r is Ok),
            old(self).loaded().contains((from@, to@)) ==> r is Ok && final(self).loaded() == old(self).loaded(),
            !old(self).loaded().contains((from@, to@)) && !hop_files_present(names_of(available@), (from@, to@))
                ==> r is Err,
            !old(self).loaded().contains((from@, to@)) ==> match r {
                Ok(_) => final(self).loaded() == old(self).loaded().push((from@, to@)) && loaded_from(
                    old(self).data_path(),
                    (from@, to@),
                    names_of(available@),
                    *load,
                    final(self).model_at(old(self).loaded().len() as int),
                ),
                Err(e) => final(self).loaded() == old(self).loaded() && hop_failure(
                    old(self).data_path(),
                    (from@, to@),
                    names_of(available@),
                    *load,
                    e,
                ),
            },
    {
        let ghost t0 = *self;
        assert(self.loaded().take(self.loaded().len() as int) =~= self.loaded());
        if self.find_model(from, to).is_some() {
            return Ok(());
        }
        let model_fname = model_file(from, to);
        let vocab_fname = vocab_file(from, to);
        let model_path = join_path(self.data_path.as_str(), model_fname.as_str());
        let vocab_path = join_path(self.data_path.as_str(), vocab_fname.as_str());
        if !crate::index::contains_text(available, &model_fname) {
            let mut e = String::from_str("Model file not found: ");
            e.append(model_path.as_str());
            return Err(e);
        }
        if !crate::index::contains_text(available, &vocab_fname) {
            let mut e = String::from_str("Source vocab file not found: ");
            e.append(vocab_path.as_str());
            return Err(e);
        }
        let config = config_text(model_path.as_str(), vocab_path.as_str(), vocab_path.as_str());
        let c = config.as_str();
        match load(c) {
            Ok(model) => {
                let ghost before = self.loaded();
                let ghost m = model;
                self.languages.push(LoadedModel { from: from.to_owned(), to: to.to_owned(), model });
                proof {
                    assert(self.loaded() =~= before.push((from@, to@)));
                    assert(self.loaded()[before.len() as int] == (from@, to@));
                    assert(self.loaded().take(before.len() as int) =~= before);
                    assert(self.model_at(before.len() as int) == m);
                    assert(c@ == hop_config(t0.data_path(), (from@, to@)));
                    assert(loaded_from(t0.data_path(), (from@, to@), names_of(available@), *load, m));
                }
                Ok(())
            },
            Err(e) => {
                Err(e)
            },
        }
    }

    /// Makes sure that every hop from `from_lang` to `to_lang` has a model,
    /// loading the missing ones in route order. On the first failure it
    /// stops; the hops loaded before it stay loaded. Translating a language
    /// into itself needs nothing.
    pub fn load_language_pair<L>(
        &mut self,
        from_lang: &str,
        to_lang: &str,
        available: &Vec<String>,
        load: L,
    ) -> (r: Result<(), String>)
        where
            L: Fn(&str) -> Result<M, String>,
        requires
            old(self).wf(),
            forall|c: &str| load.requires((c,)),
        ensures
            final(self).wf(),
            final(self).data_path() == old(self).data_path(),
            final(self).hub() == old(self).hub(),
            models_kept(*old(self), *final(self)),
            forall|k: int|
                old(self).loaded().len() <= k < final(self).loaded().len() ==> old(self).route_of(from_lang@, to_lang@).contains(
                    #[trigger] final(self).loaded()[k],
                ) && loaded_from(old(self).data_path(), final(self).loaded()[k], names_of(available@), load, final(self).model_at(k)),
            from_lang@ != to_lang@ ==> ((r is Ok) == final(self).route_loaded(from_lang@, to_lang@)),
            from_lang@ == to_lang@ ==> r is Ok && final(self).loaded() == old(self).loaded(),
            r matches Err(e) ==> exists|i: int|
                0 <= i < old(self).route_of(from_lang@, to_lang@).len() && (forall|j: int|
                    0 <= j < i ==> final(self).loaded().contains(#[trigger] old(self).route_of(from_lang@, to_lang@)[j]))
                    && !final(self).loaded().contains(old(self).route_of(from_lang@, to_lang@)[i])
                    && hop_failure(old(self).data_path(), old(self).route_of(from_lang@, to_lang@)[i], names_of(available@), load, e),
    {
        let ghost t0 = *self;
        if text_eq(from_lang, to_lang) {
            assert(self.loaded().take(self.loaded().len() as int) =~= self.loaded());
            return Ok(());
        }
        let pairs = self.get_pairs(from_lang, to_lang);
        let ghost hops = hops_view(pairs@);
        let ghost start = self.loaded();
        let ghost avail = names_of(available@);
        let mut i: usize = 0;
        assert(start.take(start.len() as int) =~= start);
        while i < pairs.len()
            invariant
                self.wf(),
                from_lang@ != to_lang@,
                i <= pairs@.len(),
                hops == hops_view(pairs@),
                hops == old(self).route_of(from_lang@, to_lang@),
                start == old(self).loaded(),
                self.data_path() == old(self).data_path(),
                self.hub() == old(self).hub(),
                forall|c: &str| load.requires((c,)),
                t0 == *old(self),
                avail == names_of(available@),
                models_kept(t0, *self),
                self.loaded().take(start.len() as int) == start,
                forall|k: int| start.len() <= k < self.loaded().len() ==> hops.contains(#[trigger] self.loaded()[k])
                    && loaded_from(t0.data_path(), self.loaded()[k], avail, load, self.model_at(k)),
                forall|j: int| 0 <= j < i ==> self.loaded().contains(#[trigger] hops[j]),
            decreases pairs@.len() - i,
        {
            let ghost before = self.loaded();
            let ghost tb = *self;
            let res = self.load_hop(pairs[i].0.as_str(), pairs[i].1.as_str(), available, &load);
            proof {
                assert(hops[i as int] == (pairs@[i as int].0@, pairs@[i as int].1@));
                assert(self.loaded().take(before.len() as int) == before);
                assert(self.loaded().take(start.len() as int) =~= before.take(start.len() as int));
                assert forall|k: int| start.len() <= k < self.loaded().len() implies hops.contains(#[trigger] self.loaded()[k])
                    && loaded_from(t0.data_path(), self.loaded()[k], avail, load, self.model_at(k)) by {
                    if k == before.len() {
                        assert(hops[i as int] == self.loaded()[k]);
                    } else {
                        assert(self.loaded()[k] == before[k]);
                        assert(self.model_at(k) == tb.model_at(k));
                    }
                }
                assert forall|x: int| 0 <= x < t0.loaded().len() implies #[trigger] self.model_at(x) == t0.model_at(x) by {
                    assert(self.model_at(x) == tb.model_at(x));
                }
                assert forall|j: int| 0 <= j < i implies self.loaded().contains(#[trigger] hops[j]) by {
                    assert(before.contains(hops[j]));
                    let w = choose|w: int| 0 <= w < before.len() && before[w] == hops[j];
                    if self.loaded() != before {
                        assert(self.loaded()[w] == before[w]);
                    }
                }
            }
            if let Err(e) = res {
                proof {
                    assert(!self.loaded().contains(hops[i as int]));
                    assert(!self.route_loaded(from_lang@, to_lang@));
                }
                return Err(e);
            }
            i = i + 1;
        }
        assert(forall|j: int| 0 <= j < hops.len() ==> self.loaded().contains(#[trigger] hops[j]));
        Ok(())
    }

    /// Translates `texts` from `from_lang` into `to_lang`, line for line.
    /// Every hop must have been loaded before; a direct hop goes through
    /// `direct`, a pivot through the hub through `pivot`, each called once.
    /// An empty batch needs no engine.
    pub fn translate<D, P>(
        &self,
        from_lang: &str,
        to_lang: &str,
        texts: &[&str],
        direct: D,
        pivot: P,
    ) -> (r: Result<Vec<String>, String>)
        where
            D: Fn(&M, &[&str]) -> Vec<String>,
            P: Fn(&M, &M, &[&str]) -> Vec<String>,
        requires
            self.wf(),
            forall|m: &M, t: &[&str]| direct.requires((m, t)),
            forall|a: &M, b: &M, t: &[&str]| pivot.requires((a, b, t)),
        ensures
            (r is Ok) == self.route_loaded(from_lang@, to_lang@),
            r matches Err(e) ==> e@ == "Language not loaded"@,
            r matches Ok(v) ==> {
                let hops = self.route_of(from_lang@, to_lang@);
                if texts@.len() == 0 {
                    v@.len() == 0
                } else if hops.len() == 1 {
                    exists|i: int|
                        0 <= i < self.loaded().len() && self.loaded()[i] == hops[0]
                            && #[trigger] direct.ensures((&self.model_at(i), texts), v)
                } else {
                    exists|i: int, j: int|
                        0 <= i < self.loaded().len() && 0 <= j < self.loaded().len()
                            && self.loaded()[i] == hops[0] && self.loaded()[j] == hops[1]
                            && #[trigger] pivot.ensures((&self.model_at(i), &self.model_at(j), texts), v)
                }
            },
    {
        let pairs = self.get_pairs(from_lang, to_lang);
        let ghost hops = hops_view(pairs@);
        assert(pairs@.len() == hops.len());
        let first = self.find_model(pairs[0].0.as_str(), pairs[0].1.as_str());
        proof {
            assert(hops[0] == (pairs@[0].0@, pairs@[0].1@));
        }
        let first = match first {
            Some(i) => i,
            None => {
                return Err(String::from_str("Language not loaded"));
            },
        };
        if pairs.len() == 1 {
            if texts.len() == 0 {
                return Ok(Vec::new());
            }
            let v = direct(&self.languages[first].model, texts);
            assert(direct.ensures((&self.model_at(first as int), texts), v));
            assert(exists|i: int|
                0 <= i < self.loaded().len() && self.loaded()[i] == self.route_of(from_lang@, to_lang@)[0]
                    && #[trigger] direct.ensures((&self.model_at(i), texts), v));
            // The solver matches the postcondition's pattern only on a named result.
            let r: Result<Vec<String>, String> = Ok(v);
            assert(r matches Ok(w) && w == v);
            return r;
        }
        let second = self.find_model(pairs[1].0.as_str(), pairs[1].1.as_str());
        proof {
            assert(hops[1] == (pairs@[1].0@, pairs@[1].1@));
        }
        let second = match second {
            Some(j) => j,
            None => {
                return Err(String::from_str("Language not loaded"));
            },
        };
        if texts.len() == 0 {
            return Ok(Vec::new());
        }
        let v = pivot(&self.languages[first].model, &self.languages[second].model, texts);
        assert(pivot.ensures((&self.model_at(first as int), &self.model_at(second as int), texts), v));
        assert(exists|i: int, j: int|
            0 <= i < self.loaded().len() && 0 <= j < self.loaded().len()
                && self.loaded()[i] == self.route_of(from_lang@, to_lang@)[0]
                && self.loaded()[j] == self.route_of(from_lang@, to_lang@)[1]
                && #[trigger] pivot.ensures((&self.model_at(i), &self.model_at(j), texts), v));
        // The solver matches the postcondition's pattern only on a named result.
        let r: Result<Vec<String>, String> = Ok(v);
        assert(r matches Ok(w) && w == v);
        r
    }
}

} // verus!
