//! The deduplicating downloader's decisions: content fingerprints, duplicate detection,
//! file names, output paths, and the per-run summary. Fetching and writing are the caller's.
use vstd::prelude::*;
use std::collections::HashSet;
use crate::orchestrator::{url_parts, TargetUrl};
use crate::quality::{lemma_split_nonempty, push_all, split_chars, split_on, QualityTier, tier_named};
use crate::text::{chars_of, contains, contains_exec, string_of};

verus! {

broadcast use vstd::std_specs::hash::group_hash_axioms;

/// The 64-bit FNV-1a hash of a byte sequence.
pub uninterp spec fn fnv1a_64(bytes: Seq<u8>) -> u64;

/// Relies on fnv: `FnvHasher::default`, then `Hasher::write` of the bytes and
/// `Hasher::finish`, gives the 64-bit FNV-1a hash of the bytes.
#[verifier::external_body]
fn fnv_hash(bytes: &[u8]) -> (r: u64)
    ensures
        r == fnv1a_64(bytes@),
{
    let mut h = fnv::FnvHasher::default();
    std::hash::Hasher::write(&mut h, bytes);
    std::hash::Hasher::finish(&h)
}

/// The content fingerprint of downloaded bytes.
pub fn content_fingerprint(bytes: &[u8]) -> (r: u64)
    ensures
        r == fnv1a_64(bytes@),
{
    fnv_hash(bytes)
}

/// What becomes of downloaded content.
#[derive(Clone, Copy, Debug, PartialEq, Eq, Structural)]
pub enum DownloadOutcome {
    /// New content: it is to be written.
    Saved,
    /// Content already saved in this run: nothing is written.
    SkippedDuplicate,
}

/// The outcome for fingerprint `h` given the fingerprints `seen` so far, and the
/// fingerprints seen afterwards.
pub open spec fn dedup_step(seen: Set<u64>, h: u64) -> (DownloadOutcome, Set<u64>) {
    if seen.contains(h) {
        (DownloadOutcome::SkippedDuplicate, seen)
    } else {
        (DownloadOutcome::Saved, seen.insert(h))
    }
}

/// Decides on content with fingerprint `h`, recording it as seen.
pub fn admit_fingerprint(seen: &mut HashSet<u64>, h: u64) -> (r: DownloadOutcome)
    ensures
        (r, final(seen)@) == dedup_step(old(seen)@, h),
{
    if seen.contains(&h) {
        DownloadOutcome::SkippedDuplicate
    } else {
        seen.insert(h);
        DownloadOutcome::Saved
    }
}

/// Decides on downloaded content by its fingerprint, recording it as seen.
pub fn admit_content(seen: &mut HashSet<u64>, bytes: &[u8]) -> (r: DownloadOutcome)
    ensures
        (r, final(seen)@) == dedup_step(old(seen)@, fnv1a_64(bytes@)),
{
    let h = content_fingerprint(bytes);
    admit_fingerprint(seen, h)
}

/// Of two downloads with byte-identical content the second is a duplicate, whatever was
/// seen before; the first is saved when its content had not been seen.
pub proof fn lemma_identical_content_saved_once(seen: Set<u64>, a: Seq<u8>, b: Seq<u8>)
    requires
        a == b,
    ensures
        dedup_step(dedup_step(seen, fnv1a_64(a)).1, fnv1a_64(b)).0
            == DownloadOutcome::SkippedDuplicate,
        !seen.contains(fnv1a_64(a)) ==> dedup_step(seen, fnv1a_64(a)).0 == DownloadOutcome::Saved,
{
}

/// The decimal digit `d`.
pub open spec fn digit(d: nat) -> char {
    seq!['0', '1', '2', '3', '4', '5', '6', '7', '8', '9'][d as int]
}

/// The decimal representation of `n`.
pub open spec fn decimal(n: nat) -> Seq<char>
    decreases n,
{
    if n < 10 {
        seq![digit(n)]
    } else {
        decimal(n / 10).push(digit(n % 10))
    }
}

/// `n` in decimal, padded with zeros to at least three digits.
pub open spec fn padded3(n: nat) -> Seq<char> {
    let d = decimal(n);
    if d.len() >= 3 {
        d
    } else {
        Seq::new((3 - d.len()) as nat, |i: int| '0') + d
    }
}

/// The last segment of a URL path.
pub open spec fn file_name(path: Seq<char>) -> Seq<char> {
    split_on(path, '/').last()
}

/// The file name for the image at position `index` of a run, whose URL has path `path`:
/// the path's last segment when it is non-empty and holds a dot, otherwise a numbered name.
/// A segment without a dot has no extension, so numbered names end in `.jpg`.
pub open spec fn filename_for(path: Seq<char>, index: nat) -> Seq<char> {
    let name = file_name(path);
    if name.len() > 0 && contains(name, seq!['.']) {
        name
    } else {
        "image_"@ + padded3(index) + ".jpg"@
    }
}

/// The decimal representation of `n`.
fn decimal_exec(n: usize) -> (r: Vec<char>)
    ensures
        r@ == decimal(n as nat),
    decreases n,
{
    let digits = vec!['0', '1', '2', '3', '4', '5', '6', '7', '8', '9'];
    if n < 10 {
        vec![digits[n]]
    } else {
        let mut r = decimal_exec(n / 10);
        r.push(digits[n % 10]);
        r
    }
}

/// The file name for the image at position `index` whose URL has path `url_path`.
pub fn generate_filename(url_path: &str, index: usize) -> (r: String)
    ensures
        r@ == filename_for(url_path@, index as nat),
{
    let path = chars_of(url_path);
    let parts = split_chars(path.as_slice(), '/');
    proof {
        lemma_split_nonempty(url_path@, '/');
    }
    let name = &parts[parts.len() - 1];
    assert(name@ == file_name(url_path@));
    let dot = vec!['.'];
    assert(dot@ == seq!['.']);
    if name.len() > 0 && contains_exec(name.as_slice(), dot.as_slice()) {
        return string_of(name.as_slice());
    }
    let d = decimal_exec(index);
    let mut r: Vec<char> = chars_of("image_");
    let mut k: usize = d.len();
    while k < 3
        invariant
            d@ == decimal(index as nat),
            d@.len() <= k <= 3 || (k == d@.len() && k > 3),
            r@ == "image_"@ + Seq::new((k - d@.len()) as nat, |i: int| '0'),
        decreases 3 - k,
    {
        r.push('0');
        k = k + 1;
        assert(r@ =~= "image_"@ + Seq::new((k - d@.len()) as nat, |i: int| '0'));
    }
    push_all(&mut r, d.as_slice());
    push_all(&mut r, chars_of(".jpg").as_slice());
    assert(r@ =~= "image_"@ + padded3(index as nat) + ".jpg"@);
    string_of(r.as_slice())
}

/// `comp` appended to path `base` as a further component; an absolute `comp` replaces `base`.
pub open spec fn join_path(base: Seq<char>, comp: Seq<char>) -> Seq<char> {
    if comp.len() > 0 && comp[0] == '/' {
        comp
    } else if base.len() == 0 || base.last() == '/' {
        base + comp
    } else {
        base.push('/') + comp
    }
}

/// `comp` appended to path `base` as a further component.
pub fn join_path_exec(base: &str, comp: &str) -> (r: String)
    ensures
        r@ == join_path(base@, comp@),
{
    let b = chars_of(base);
    let c = chars_of(comp);
    if c.len() > 0 && c[0] == '/' {
        return string_of(c.as_slice());
    }
    let mut r: Vec<char> = Vec::new();
    push_all(&mut r, b.as_slice());
    if !(b.len() == 0 || b[b.len() - 1] == '/') {
        r.push('/');
    }
    push_all(&mut r, c.as_slice());
    string_of(r.as_slice())
}

/// The directory that receives a run's images: the application folder under the
/// pictures directory, then the genre, then the query.
pub open spec fn output_dir(pictures: Seq<char>, genre: Seq<char>, query: Seq<char>) -> Seq<char> {
    join_path(join_path(join_path(pictures, "Pinterestx"@), genre), query)
}

/// The directory that receives a run's images.
pub fn get_output_dir(pictures: &str, genre: &str, query: &str) -> (r: String)
    ensures
        r@ == output_dir(pictures@, genre@, query@),
{
    let app = join_path_exec(pictures, "Pinterestx");
    let g = join_path_exec(app.as_str(), genre);
    join_path_exec(g.as_str(), query)
}

/// The application's folder under the user data directory.
pub open spec fn app_data_dir(data: Seq<char>) -> Seq<char> {
    join_path(data, "PinterestX"@)
}

/// Where the record of the user's cookie consent is kept, under data directory `data_dir`.
pub fn get_cookie_consent_path(data_dir: &str) -> (r: String)
    ensures
        r@ == join_path(app_data_dir(data_dir@), "cookie_consent"@),
{
    let app = join_path_exec(data_dir, "PinterestX");
    join_path_exec(app.as_str(), "cookie_consent")
}

/// Where session cookies are kept, under data directory `data_dir`.
pub fn get_cookies_path(data_dir: &str) -> (r: String)
    ensures
        r@ == join_path(app_data_dir(data_dir@), "pinterest_cookies.json"@),
{
    let app = join_path_exec(data_dir, "PinterestX");
    join_path_exec(app.as_str(), "pinterest_cookies.json")
}

/// The first `max` URLs, or all of them when `max` is 0.
pub fn limit_urls(urls: Vec<String>, max: usize) -> (r: Vec<String>)
    ensures
        max == 0 || urls@.len() <= max ==> r@ == urls@,
        max > 0 && urls@.len() > max ==> r@ == urls@.take(max as int),
{
    let mut urls = urls;
    if max > 0 && urls.len() > max {
        urls.truncate(max);
    }
    urls
}

/// Whether the politeness pause follows the download at `index` of `total`: after every
/// download but the last.
pub fn pause_after(index: usize, total: usize) -> (r: bool)
    ensures
        r == (index + 1 < total),
{
    index < total && index < total - 1
}

/// What became of one candidate URL.
#[derive(Clone, Copy, Debug, PartialEq, Eq, Structural)]
pub enum RecordOutcome {
    Saved,
    SkippedDuplicate,
    Failed,
}

/// The per-run counts of attempted, saved, skipped and failed downloads.
#[derive(Clone, Copy, Debug, PartialEq, Eq, Structural)]
pub struct RunSummary {
    pub attempted: usize,
    pub saved: usize,
    pub skipped: usize,
    pub failed: usize,
}

impl RunSummary {
    /// Each attempt has exactly one outcome.
    pub open spec fn wf(&self) -> bool {
        self.saved + self.skipped + self.failed == self.attempted
    }

    /// No attempts yet.
    pub fn new() -> (r: RunSummary)
        ensures
            r == (RunSummary { attempted: 0, saved: 0, skipped: 0, failed: 0 }),
            r.wf(),
    {
        RunSummary { attempted: 0, saved: 0, skipped: 0, failed: 0 }
    }

    /// Counts one attempt with outcome `o`.
    pub fn record(&mut self, o: RecordOutcome)
        requires
            old(self).wf(),
            old(self).attempted < usize::MAX,
        ensures
            final(self).wf(),
            final(self).attempted == old(self).attempted + 1,
            final(self).saved == old(self).saved + if o == RecordOutcome::Saved { 1int } else { 0 },
            final(self).skipped == old(self).skipped + if o == RecordOutcome::SkippedDuplicate {
                1int
            } else {
                0
            },
            final(self).failed == old(self).failed + if o == RecordOutcome::Failed { 1int } else { 0 },
    {
        self.attempted = self.attempted + 1;
        match o {
            RecordOutcome::Saved => self.saved = self.saved + 1,
            RecordOutcome::SkippedDuplicate => self.skipped = self.skipped + 1,
            RecordOutcome::Failed => self.failed = self.failed + 1,
        }
    }
}

/// The reasons a run or a download fails.
#[derive(Debug, PartialEq, Eq)]
pub enum DownloadError {
    /// The target is not a valid absolute URL; holds the rejected text.
    UrlParseError(String),
    /// A request got a non-success status.
    Http(u16),
    /// A request failed in transport.
    Network(String),
}

/// A download request as a form submits it.
pub struct DownloadRequest {
    pub url: String,
    pub genre: String,
    pub query: String,
    pub quality: String,
}

/// A validated run configuration.
pub struct DownloadConfig {
    pub url: TargetUrl,
    pub genre: String,
    pub query: String,
    pub quality: QualityTier,
    /// The most images to download; 0 for no limit.
    pub max_images: usize,
}

/// The genre used when none is given.
pub open spec fn default_genre() -> Seq<char> {
    "Uncategorized"@
}

/// The query label used when none is given.
pub open spec fn default_query() -> Seq<char> {
    "Pinterest"@
}

/// `s`, or `d` when `s` is empty.
pub open spec fn or_default(s: Seq<char>, d: Seq<char>) -> Seq<char> {
    if s.len() == 0 {
        d
    } else {
        s
    }
}

impl DownloadConfig {
    /// Validates a request: its URL must parse; empty labels take their defaults, and an
    /// unrecognized quality name the default tier.
    pub fn from_request(req: &DownloadRequest, max_images: usize) -> (r: Result<
        DownloadConfig,
        DownloadError,
    >)
        ensures
            url_parts(req.url@) is None <==> r is Err,
            r matches Err(e) ==> e matches DownloadError::UrlParseError(t) && t@ == req.url@,
            r matches Ok(c) ==> {
                &&& url_parts(req.url@) == Some((c.url.text@, c.url.path@, c.url.query.deep_view()))
                &&& c.genre@ == or_default(req.genre@, default_genre())
                &&& c.query@ == or_default(req.query@, default_query())
                &&& c.quality == tier_named(req.quality@)
                &&& c.max_images == max_images
            },
    {
        let url = match TargetUrl::parse(req.url.as_str()) {
            Some(u) => u,
            None => {
                return Err(DownloadError::UrlParseError(string_of(chars_of(req.url.as_str()).as_slice())));
            },
        };
        let genre = if req.genre.as_str().is_empty() {
            string_of(chars_of("Uncategorized").as_slice())
        } else {
            string_of(chars_of(req.genre.as_str()).as_slice())
        };
        let query = if req.query.as_str().is_empty() {
            string_of(chars_of("Pinterest").as_slice())
        } else {
            string_of(chars_of(req.query.as_str()).as_slice())
        };
        Ok(DownloadConfig {
            url,
            genre,
            query,
            quality: QualityTier::from_name(req.quality.as_str()),
            max_images,
        })
    }
}

} // verus!
