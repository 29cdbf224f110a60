//! Bookkeeping of package downloads: which bytes a transfer reports, the
//! name a file is written under before it is complete, and the gzip
//! framing of downloaded data.

use vstd::prelude::*;
use vstd::string::*;

verus! {

/// Bytes that must arrive between two progress reports.
pub const UPDATE_THRESHOLD: u64 = 524288;

/// What a progress meter that last reported `last` does when the shared
/// byte counter reads `current`: report `current`, or stay silent.
pub open spec fn meter_step(last: u64, current: u64) -> Option<u64> {
    if current as int >= last as int + UPDATE_THRESHOLD as int {
        Some(current)
    } else {
        None
    }
}

/// The reports that a meter which last reported `last` makes when it reads
/// the counter values `samples`, one after another.
pub open spec fn emitted(last: u64, samples: Seq<u64>) -> Seq<u64>
    decreases samples.len(),
{
    if samples.len() == 0 {
        seq![]
    } else {
        match meter_step(last, samples[0]) {
            Some(v) => seq![v] + emitted(v, samples.drop_first()),
            None => emitted(last, samples.drop_first()),
        }
    }
}

/// A meter's reports only grow, whatever the counter reads: each one is
/// above the one before and above where the meter started.
pub proof fn lemma_emitted_increasing(last: u64, samples: Seq<u64>)
    ensures
        forall|i: int| 0 <= i < emitted(last, samples).len() ==> last < #[trigger] emitted(last, samples)[i],
        forall|i: int, j: int| 0 <= i < j < emitted(last, samples).len() ==> emitted(last, samples)[i] < emitted(last, samples)[j],
    decreases samples.len(),
{
    if samples.len() > 0 {
        let rest = samples.drop_first();
        match meter_step(last, samples[0]) {
            Some(v) => {
                lemma_emitted_increasing(v, rest);
                let e = emitted(last, samples);
                assert(e == seq![v] + emitted(v, rest));
                assert(last < v);
                assert forall|i: int, j: int| 0 <= i < j < e.len() implies e[i] < e[j] by {
                    if i > 0 {
                        assert(e[i] == emitted(v, rest)[i - 1]);
                    }
                    assert(e[j] == emitted(v, rest)[j - 1]);
                }
                assert forall|i: int| 0 <= i < e.len() implies last < #[trigger] e[i] by {
                    if i > 0 {
                        assert(e[i] == emitted(v, rest)[i - 1]);
                    }
                }
            },
            None => {
                lemma_emitted_increasing(last, rest);
                assert(emitted(last, samples) == emitted(last, rest));
            },
        }
    }
}

/// The last report of a meter that last reported `last` once it has read
/// the counter values `samples`.
pub open spec fn last_after(last: u64, samples: Seq<u64>) -> u64
    decreases samples.len(),
{
    if samples.len() == 0 {
        last
    } else {
        match meter_step(last, samples[0]) {
            Some(v) => last_after(v, samples.drop_first()),
            None => last_after(last, samples.drop_first()),
        }
    }
}

/// Every report for one package: those that `observe` makes on the counter
/// values `samples`, read while the transfers run, then the one that
/// `finish` makes on the counter value `end`, read after they all ended.
pub open spec fn download_reports(samples: Seq<u64>, end: u64) -> Seq<u64> {
    if end > last_after(0, samples) {
        emitted(0, samples).push(end)
    } else {
        emitted(0, samples)
    }
}

proof fn lemma_last_after(last: u64, samples: Seq<u64>, bound: u64)
    ensures
        emitted(last, samples).len() == 0 ==> last_after(last, samples) == last,
        emitted(last, samples).len() > 0 ==> emitted(last, samples).last() == last_after(last, samples),
        last <= bound && (forall|k: int| 0 <= k < samples.len() ==> samples[k] <= bound) ==> last_after(last, samples) <= bound,
    decreases samples.len(),
{
    if samples.len() > 0 {
        let rest = samples.drop_first();
        assert(forall|k: int| 0 <= k < rest.len() ==> rest[k] == samples[k + 1]);
        match meter_step(last, samples[0]) {
            Some(v) => {
                lemma_last_after(v, rest, bound);
                let e = emitted(last, samples);
                assert(e == seq![v] + emitted(v, rest));
                if emitted(v, rest).len() > 0 {
                    assert(e.last() == emitted(v, rest).last());
                }
            },
            None => {
                lemma_last_after(last, rest, bound);
                assert(emitted(last, samples) == emitted(last, rest));
            },
        }
    }
}

/// The reports for one package only grow; and when the counter never reads
/// more than its final value `end`, and bytes arrived, the last report is
/// `end`: the progress shown ends at every byte that arrived.
pub proof fn lemma_download_reports(samples: Seq<u64>, end: u64)
    ensures
        forall|i: int, j: int|
            0 <= i < j < download_reports(samples, end).len() ==> download_reports(samples, end)[i]
                < download_reports(samples, end)[j],
        end > 0 && (forall|k: int| 0 <= k < samples.len() ==> samples[k] <= end) ==> download_reports(samples, end).len()
            > 0 && download_reports(samples, end).last() == end,
{
    let e = emitted(0, samples);
    let l = last_after(0, samples);
    lemma_emitted_increasing(0, samples);
    lemma_last_after(0, samples, end);
    if end > l {
        let r = e.push(end);
        assert forall|i: int, j: int| 0 <= i < j < r.len() implies r[i] < r[j] by {
            if j == e.len() {
                if i < e.len() - 1 {
                    assert(e[i] < e[e.len() - 1]);
                }
            }
        }
    }
}

/// Turns the byte counter that the transfers of one package share into a
/// bounded stream of progress reports.
pub struct ProgressMeter {
    pub total: u64,
    pub last_reported: u64,
}

impl ProgressMeter {
    /// A meter for a package of `total` bytes that has reported nothing.
    pub fn new(total: u64) -> (r: ProgressMeter)
        ensures
            r.total == total,
            r.last_reported == 0,
    {
        ProgressMeter { total, last_reported: 0 }
    }

    /// Reads the counter once: reports `current` when at least
    /// `UPDATE_THRESHOLD` bytes arrived since the last report.
    pub fn observe(&mut self, current: u64) -> (r: Option<u64>)
        ensures
            r == meter_step(old(self).last_reported, current),
            final(self).total == old(self).total,
            final(self).last_reported == match r {
                Some(v) => v,
                None => old(self).last_reported,
            },
    {
        if current >= self.last_reported && current - self.last_reported >= UPDATE_THRESHOLD {
            self.last_reported = current;
            Some(current)
        } else {
            None
        }
    }

    /// Reads the counter after every transfer has ended: reports `current`
    /// when it is beyond the last report, so that the last report counts
    /// every byte that arrived.
    pub fn finish(&mut self, current: u64) -> (r: Option<u64>)
        ensures
            final(self).total == old(self).total,
            current > old(self).last_reported ==> r == Some(current) && final(self).last_reported == current,
            current <= old(self).last_reported ==> r is None && final(self).last_reported == old(self).last_reported,
    {
        if current > self.last_reported {
            self.last_reported = current;
            Some(current)
        } else {
            None
        }
    }
}

/// Position of the last `.` of `s`, or -1.
pub open spec fn last_dot(s: Seq<char>) -> int
    decreases s.len(),
{
    if s.len() == 0 {
        -1
    } else if s.last() == '.' {
        s.len() - 1
    } else {
        last_dot(s.drop_last())
    }
}

proof fn lemma_last_dot(s: Seq<char>)
    ensures
        -1 <= last_dot(s) < s.len(),
        last_dot(s) >= 0 ==> s[last_dot(s)] == '.',
        forall|k: int| last_dot(s) < k < s.len() ==> s[k] != '.',
    decreases s.len(),
{
    if s.len() > 0 && s.last() != '.' {
        lemma_last_dot(s.drop_last());
        assert forall|k: int| last_dot(s) < k < s.len() implies s[k] != '.' by {
            if k < s.len() - 1 {
                assert(s.drop_last()[k] == s[k]);
            }
        }
    }
}

/// The file name `s`, which has no directory part, with its extension set
/// to `tmp`: what follows its last dot is replaced, unless that dot is the
/// first character; a name with no such dot gets `.tmp` appended. This is
/// `Path::with_extension` on a non-empty file name; unlike it, the empty
/// name gives `.tmp`.
pub open spec fn temp_name(s: Seq<char>) -> Seq<char> {
    if last_dot(s) > 0 {
        s.take(last_dot(s)) + ".tmp"@
    } else {
        s + ".tmp"@
    }
}

/// The name that a file is written under until it is complete.
pub fn temp_file_name(name: &str) -> (r: String)
    ensures
        r@ == temp_name(name@),
{
    let n = name.unicode_len();
    let mut i: usize = n;
    proof {
        lemma_last_dot(name@);
    }
    while i > 0 && name.get_char(i - 1) != '.'
        invariant
            i <= n,
            n == name@.len(),
            forall|k: int| i <= k < n ==> name@[k] != '.',
            last_dot(name@) < i,
        decreases i,
    {
        proof {
            lemma_last_dot(name@);
        }
        i = i - 1;
    }
    proof {
        if i > 0 {
            assert(name@[i - 1] == '.');
            assert(last_dot(name@) == i - 1) by {
                lemma_last_dot(name@);
            }
        } else {
            lemma_last_dot(name@);
            assert(last_dot(name@) <= 0);
        }
    }
    if i > 1 {
        let mut s = name.substring_char(0, i - 1).to_owned();
        s.append(".tmp");
        assert(name@.subrange(0, i - 1) =~= name@.take(i - 1));
        s
    } else {
        let mut s = name.to_owned();
        s.append(".tmp");
        s
    }
}

/// `s` ends in `.tmp`.
pub open spec fn has_tmp_extension(s: Seq<char>) -> bool {
    s.len() >= 4 && s.subrange(s.len() - 4, s.len() as int) == ".tmp"@
}

/// A file under download never stands at its final name: the name it is
/// written under differs from the final one, unless the final name itself
/// has the extension `tmp`.
pub proof fn lemma_temp_name_differs(name: Seq<char>)
    requires
        !has_tmp_extension(name),
    ensures
        temp_name(name) != name,
{
    reveal_strlit(".tmp");
    lemma_last_dot(name);
    if last_dot(name) > 0 {
        let t = name.take(last_dot(name)) + ".tmp"@;
        if t == name {
            assert(name.subrange(name.len() - 4, name.len() as int) =~= ".tmp"@);
        }
    } else {
        assert((name + ".tmp"@).len() > name.len());
    }
}

/// `s` ends in `.gz`.
pub open spec fn is_gzip_name(s: Seq<char>) -> bool {
    s.len() >= 3 && s.subrange(s.len() - 3, s.len() as int) == ".gz"@
}

/// Whether the file at `url` comes gzip-compressed and is decoded on the
/// way to disk.
pub fn is_gzip_url(url: &str) -> (r: bool)
    ensures
        r == is_gzip_name(url@),
{
    proof {
        reveal_strlit(".gz");
    }
    let n = url.unicode_len();
    if n < 3 {
        return false;
    }
    let r = url.get_char(n - 3) == '.' && url.get_char(n - 2) == 'g' && url.get_char(n - 1) == 'z';
    assert(".gz"@ =~= seq!['.', 'g', 'z']);
    assert(r == (url@.subrange(n - 3, n as int) =~= ".gz"@));
    r
}

/// What a gzip stream decodes to, when it decodes.
pub uninterp spec fn gunzip_of(data: Seq<u8>) -> Option<Seq<u8>>;

/// Relies on flate2::read::GzDecoder read to its end: the bytes of the
/// gzip stream in `data`, or nothing where the stream is not valid gzip;
/// the outcome depends on `data` alone.
#[verifier::external_body]
fn gunzip(data: &[u8]) -> (r: Option<Vec<u8>>)
    ensures
        match r {
            Some(v) => gunzip_of(data@) == Some(v@),
            None => gunzip_of(data@) is None,
        },
{
    let mut out = Vec::new();
    let mut decoder = flate2::read::GzDecoder::new(data);
    match std::io::Read::read_to_end(&mut decoder, &mut out) {
        Ok(_) => Some(out),
        Err(_) => None,
    }
}

/// Why the catalog could not be read.
#[derive(Clone, Copy, Debug, PartialEq, Eq, Structural)]
pub enum CatalogError {
    NotGzip,
}

/// The JSON text of a gzip-compressed catalog.
pub fn catalog_json(data: &[u8]) -> (r: Result<Vec<u8>, CatalogError>)
    ensures
        match r {
            Ok(v) => gunzip_of(data@) == Some(v@),
            Err(e) => e == CatalogError::NotGzip && gunzip_of(data@) is None,
        },
{
    match gunzip(data) {
        Some(v) => Ok(v),
        None => Err(CatalogError::NotGzip),
    }
}

} // verus!
