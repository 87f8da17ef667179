//! The decisions of a backup run that surround the hash and upload stages:
//! the deduplication gate, the ledger update after an upload, the run's
//! counters, and the names of the run and of its catalog files.
use vstd::prelude::*;
use rand::Rng;
use crate::cache::{new_rows, rows_view, store_ids, AsyncCache, CacheError};
use crate::filetype::FileType;
use crate::store::DataStore;
use crate::upload_worker::{succeeded_ids, UploadReport};

verus! {

/// Whether a character is an ASCII letter or digit.
pub open spec fn is_alphanumeric(c: char) -> bool {
    ('a' <= c && c <= 'z') || ('A' <= c && c <= 'Z') || ('0' <= c && c <= '9')
}

/// Relies on rand's `StdRng::from_rng(OsRng)`, which fails rather than
/// panics when the system's random source is unavailable, sampled through
/// `Alphanumeric`: `n` characters, each drawn from `A-Z`, `a-z` and `0-9`.
#[verifier::external_body]
pub(crate) fn random_alphanumeric(n: usize) -> (r: Option<String>)
    ensures
        r matches Some(s) ==> s@.len() == n && forall|i: int|
            0 <= i < s@.len() ==> is_alphanumeric(#[trigger] s@[i]),
{
    let rng = <rand::rngs::StdRng as rand::SeedableRng>::from_rng(rand::rngs::OsRng).ok()?;
    Some(rng.sample_iter(&rand::distributions::Alphanumeric).take(n).map(char::from).collect())
}

/// Relies on std's `SystemTime::now` and `duration_since(UNIX_EPOCH)`: the
/// whole seconds since the epoch; `None` for a clock set before 1970.
#[verifier::external_body]
fn unix_seconds_now() -> (r: Option<u64>) {
    std::time::SystemTime::now().duration_since(std::time::UNIX_EPOCH).ok().map(|d| d.as_secs())
}

/// Relies on chrono's `DateTime::<Utc>::from_timestamp`, `None` out of its
/// range, and `to_rfc3339_opts` with whole seconds and `Z`: the time as RFC
/// 3339 text.
#[verifier::external_body]
fn rfc3339_utc(seconds: i64) -> (r: Option<String>) {
    let t = chrono::DateTime::<chrono::Utc>::from_timestamp(seconds, 0)?;
    Some(t.to_rfc3339_opts(chrono::SecondsFormat::Secs, true))
}

/// What a UTC timestamp to the second looks like: `YYYY-MM-DDTHH:MM:SSZ`.
pub open spec fn timestamp_char_ok(i: int, c: char) -> bool {
    if i == 4 || i == 7 {
        c == '-'
    } else if i == 10 {
        c == 'T'
    } else if i == 13 || i == 16 {
        c == ':'
    } else if i == 19 {
        c == 'Z'
    } else {
        '0' <= c && c <= '9'
    }
}

/// Whether a text is a UTC timestamp to the second, `YYYY-MM-DDTHH:MM:SSZ`.
pub open spec fn is_utc_seconds(s: Seq<char>) -> bool {
    s.len() == 20 && forall|i: int| 0 <= i < 20 ==> timestamp_char_ok(i, #[trigger] s[i])
}

/// Whether a text is a UTC timestamp to the second, `YYYY-MM-DDTHH:MM:SSZ`.
pub fn is_utc_timestamp(s: &str) -> (r: bool)
    ensures
        r == is_utc_seconds(s@),
{
    if s.unicode_len() != 20 {
        return false;
    }
    let mut i: usize = 0;
    while i < 20
        invariant
            s@.len() == 20,
            i <= 20,
            forall|j: int| 0 <= j < i ==> timestamp_char_ok(j, #[trigger] s@[j]),
        decreases 20 - i,
    {
        let c = s.get_char(i);
        let ok = if i == 4 || i == 7 {
            c == '-'
        } else if i == 10 {
            c == 'T'
        } else if i == 13 || i == 16 {
            c == ':'
        } else if i == 19 {
            c == 'Z'
        } else {
            '0' <= c && c <= '9'
        };
        if !ok {
            assert(!timestamp_char_ok(i as int, s@[i as int]));
            return false;
        }
        i = i + 1;
    }
    true
}

/// The name of a backup taken at `timestamp` with a random `suffix`.
pub open spec fn backup_name_of(timestamp: Seq<char>, suffix: Seq<char>) -> Seq<char> {
    seq!['b', 'a', 'c', 'k', 'u', 'p', '-'] + timestamp + seq!['-'] + suffix
}

/// Composes a backup's name: `backup-<timestamp>-<suffix>`.
pub fn backup_name(timestamp: &str, suffix: &str) -> (r: String)
    ensures
        r@ == backup_name_of(timestamp@, suffix@),
{
    let mut r = "backup-".to_owned();
    r.append(timestamp);
    r.append("-");
    r.append(suffix);
    proof {
        reveal_strlit("backup-");
        reveal_strlit("-");
    }
    assert(r@ =~= backup_name_of(timestamp@, suffix@));
    r
}

/// A backup's name from a timestamp and a suffix: `None` unless the
/// timestamp is a UTC time to the second, `YYYY-MM-DDTHH:MM:SSZ`, and the
/// suffix is four letters or digits.
pub fn compose_name(timestamp: &str, suffix: &str) -> (r: Option<String>)
    ensures
        r is Some <==> (is_utc_seconds(timestamp@) && suffix@.len() == 4 && forall|i: int|
            0 <= i < 4 ==> is_alphanumeric(#[trigger] suffix@[i])),
        r matches Some(n) ==> n@ == backup_name_of(timestamp@, suffix@),
{
    if !is_utc_timestamp(timestamp) || suffix.unicode_len() != 4 {
        return None;
    }
    let mut i: usize = 0;
    while i < 4
        invariant
            suffix@.len() == 4,
            i <= 4,
            forall|j: int| 0 <= j < i ==> is_alphanumeric(#[trigger] suffix@[j]),
        decreases 4 - i,
    {
        let c = suffix.get_char(i);
        if !(('a' <= c && c <= 'z') || ('A' <= c && c <= 'Z') || ('0' <= c && c <= '9')) {
            assert(!is_alphanumeric(suffix@[i as int]));
            return None;
        }
        i = i + 1;
    }
    Some(backup_name(timestamp, suffix))
}

/// A fresh backup name: the current UTC time to the second and four random
/// letters or digits, put together by `compose_name`. `None` when the clock
/// reads before 1970 or past year 9999, or when no random source is
/// available.
pub fn generate_name() -> (r: Option<String>)
    ensures
        r matches Some(name) ==> exists|timestamp: Seq<char>, suffix: Seq<char>|
            name@ == backup_name_of(timestamp, suffix) && is_utc_seconds(timestamp) && suffix.len()
                == 4 && forall|i: int| 0 <= i < 4 ==> is_alphanumeric(#[trigger] suffix[i]),
{
    let seconds = match unix_seconds_now() {
        Some(s) => s,
        None => {
            return None;
        },
    };
    if seconds > i64::MAX as u64 {
        return None;
    }
    let timestamp = match rfc3339_utc(seconds as i64) {
        Some(t) => t,
        None => {
            return None;
        },
    };
    let suffix = match random_suffix() {
        Some(s) => s,
        None => {
            return None;
        },
    };
    let r = compose_name(timestamp.as_str(), suffix.as_str());
    match r {
        Some(n) => {
            assert(n@ == backup_name_of(timestamp@, suffix@));
            Some(n)
        },
        None => None,
    }
}

/// Four random letters or digits, to keep apart local files that would
/// otherwise share a name. `None` when no random source is available.
pub fn random_suffix() -> (r: Option<String>)
    ensures
        r matches Some(s) ==> s@.len() == 4 && forall|i: int|
            0 <= i < 4 ==> is_alphanumeric(#[trigger] s@[i]),
{
    random_alphanumeric(4)
}

/// The file that holds a backup's catalog while it is written.
pub fn catalog_file_name(name: &str) -> (r: String)
    ensures
        r@ == name@ + seq!['.', 'm', 'e', 't', 'a', 'd', 'a', 't', 'a', '.', 's', 'q', 'l', 'i', 't', 'e'],
{
    let mut r = name.to_owned();
    r.append(".metadata.sqlite");
    proof {
        reveal_strlit(".metadata.sqlite");
    }
    assert(r@ =~= name@ + seq!['.', 'm', 'e', 't', 'a', 'd', 'a', 't', 'a', '.', 's', 'q', 'l', 'i', 't', 'e']);
    r
}

/// The file that holds a backup's encrypted catalog, and its object name.
pub fn encrypted_catalog_name(name: &str) -> (r: String)
    ensures
        r@ == name@ + seq!['.', 'm', 'e', 't', 'a', 'd', 'a', 't', 'a'],
{
    let mut r = name.to_owned();
    r.append(".metadata");
    proof {
        reveal_strlit(".metadata");
    }
    assert(r@ =~= name@ + seq!['.', 'm', 'e', 't', 'a', 'd', 'a', 't', 'a']);
    r
}

/// The deduplication gate. The stores that still need the content, when
/// there are some and the caller takes the content's in-flight lock; none
/// otherwise, and then nothing is to be encrypted or uploaded.
pub fn claim_upload(cache: &mut AsyncCache, data_hash: &String, stores: &Vec<DataStore>) -> (r: Vec<i32>)
    requires
        old(cache).wf(),
    ensures
        final(cache).wf(),
        ({
            let needed = old(cache).missing(data_hash@, store_ids(stores@));
            if needed.len() == 0 {
                r@.len() == 0 && final(cache).locked() == old(cache).locked()
            } else {
                &&& final(cache).locked() == old(cache).locked().insert(data_hash@)
                &&& r@ == (if old(cache).locked().contains(data_hash@) {
                    Seq::<i32>::empty()
                } else {
                    needed
                })
            }
        }),
        final(cache).memo() == old(cache).memo(),
        final(cache).same_use(*old(cache)),
        final(cache).same_ledger(*old(cache)),
{
    let needed = cache.requires_upload(data_hash, stores);
    if needed.len() == 0 {
        return needed;
    }
    if cache.lock_data(data_hash.as_str()) {
        needed
    } else {
        Vec::new()
    }
}

/// The checksum recorded for an upload, whose advisory value is not
/// computed: the text `md5_hash`.
pub open spec fn placeholder_md5() -> Seq<char> {
    seq!['m', 'd', '5', '_', 'h', 'a', 's', 'h']
}

/// Records in the ledger the stores that took a blob, with the advisory
/// checksum left as a placeholder. Stops at the first store the ledger
/// already records, or that the report names twice; the stores before it
/// stay recorded.
pub fn finish_upload(cache: &mut AsyncCache, report: &UploadReport) -> (r: Result<usize, CacheError>)
    requires
        old(cache).wf(),
    ensures
        final(cache).wf(),
        r is Err <==> old(cache).conflicts(report.data_hash@, report.store_ids@),
        exists|k: int|
            #![trigger old(cache).recorded_prefix(*final(cache), report.data_hash@, placeholder_md5(), report.store_ids@, k)]
            old(cache).recorded_prefix(
                *final(cache),
                report.data_hash@,
                placeholder_md5(),
                report.store_ids@,
                k,
            ) && (k == report.store_ids@.len() <==> r is Ok) && (k < report.store_ids@.len()
                ==> old(cache).conflict_at(report.data_hash@, report.store_ids@, k) && r == Err::<
                usize,
                CacheError,
            >(CacheError::AlreadyStored(report.store_ids@[k]))),
        r is Ok ==> forall|h: Seq<char>, j: i32|
            #[trigger] final(cache).has_copy(h, j) == (old(cache).has_copy(h, j) || (h
                == report.data_hash@ && report.store_ids@.contains(j))),
        r is Ok ==> rows_view(final(cache).rows()) == rows_view(old(cache).rows()) + new_rows(
            report.data_hash@,
            placeholder_md5(),
            report.store_ids@,
        ),
        final(cache).memo() == old(cache).memo(),
        final(cache).same_use(*old(cache)),
        final(cache).locked() == old(cache).locked(),
{
    proof {
        reveal_strlit("md5_hash");
    }
    assert("md5_hash"@ =~= placeholder_md5());
    cache.set_data_in_cold_storage(report.data_hash.as_str(), "md5_hash", &report.store_ids)
}

/// The counters of a backup run.
pub struct Stats {
    pub files: u64,
    pub unchanged_files: u64,
    pub links: u64,
    pub directories: u64,
    pub uploaded: u64,
    pub size: u64,
}

impl Stats {
    pub fn new() -> (r: Stats)
        ensures
            r.files == 0 && r.unchanged_files == 0 && r.links == 0,
            r.directories == 0 && r.uploaded == 0 && r.size == 0,
    {
        Stats { files: 0, unchanged_files: 0, links: 0, directories: 0, uploaded: 0, size: 0 }
    }

    /// Whether one more entry of `size` bytes can be counted.
    pub open spec fn has_room(self, size: u64) -> bool {
        &&& self.files < u64::MAX && self.unchanged_files < u64::MAX
        &&& self.links < u64::MAX && self.directories < u64::MAX
        &&& self.uploaded < u64::MAX && self.size + size <= u64::MAX
    }

    /// Whether one more entry of `size` bytes can be counted.
    pub fn can_record(&self, size: u64) -> (r: bool)
        ensures
            r == self.has_room(size),
    {
        self.files < u64::MAX && self.unchanged_files < u64::MAX && self.links < u64::MAX
            && self.directories < u64::MAX && self.uploaded < u64::MAX && size <= u64::MAX
            - self.size
    }

    /// Counts one catalogued entry. A regular file adds to the files, to the
    /// size, and to the unchanged files when its hash came from the memo and
    /// to the uploads when it was uploaded; a link or a directory adds to its
    /// own count only.
    pub fn record(&mut self, ttype: FileType, hash_cached: bool, size: u64, uploaded: bool)
        requires
            old(self).has_room(size),
        ensures
            ttype == FileType::FILE ==> {
                &&& final(self).files == old(self).files + 1
                &&& final(self).unchanged_files == old(self).unchanged_files + (if hash_cached { 1int } else { 0int })
                &&& final(self).uploaded == old(self).uploaded + (if uploaded { 1int } else { 0int })
                &&& final(self).size == old(self).size + size
                &&& final(self).links == old(self).links
                &&& final(self).directories == old(self).directories
            },
            ttype == FileType::SYMLINK ==> *final(self) == (Stats { links: (old(self).links + 1) as u64, ..*old(self) }),
            ttype == FileType::DIRECTORY ==> *final(self) == (Stats { directories: (old(self).directories + 1) as u64, ..*old(self) }),
    {
        match ttype {
            FileType::FILE => {
                self.files = self.files + 1;
                if hash_cached {
                    self.unchanged_files = self.unchanged_files + 1;
                }
                if uploaded {
                    self.uploaded = self.uploaded + 1;
                }
                self.size = self.size + size;
            },
            FileType::SYMLINK => {
                self.links = self.links + 1;
            },
            FileType::DIRECTORY => {
                self.directories = self.directories + 1;
            },
        }
    }
}

/// Once the stores that needed the content have all been recorded as
/// holding it, every listed store holds it.
pub proof fn lemma_every_store_holds(before: AsyncCache, after: AsyncCache, h: Seq<char>, ids: Seq<i32>)
    requires
        forall|g: Seq<char>, id: i32| before.has_copy(g, id) ==> #[trigger] after.has_copy(g, id),
        forall|id: i32| before.missing(h, ids).contains(id) ==> #[trigger] after.has_copy(h, id),
    ensures
        forall|i: int| 0 <= i < ids.len() ==> after.has_copy(h, #[trigger] ids[i]),
{
    crate::cache::lemma_requires_upload_missing(before, h, ids);
    assert forall|i: int| 0 <= i < ids.len() implies after.has_copy(h, #[trigger] ids[i]) by {
        assert(ids.contains(ids[i]));
        if !before.has_copy(h, ids[i]) {
            assert(before.missing(h, ids).contains(ids[i]));
        }
    }
}

/// When every listed store already holds the content, as on a second backup
/// of an unchanged tree, nothing is uploaded for it.
pub proof fn lemma_held_content_not_uploaded(cache: AsyncCache, h: Seq<char>, ids: Seq<i32>)
    requires
        forall|i: int| 0 <= i < ids.len() ==> cache.has_copy(h, #[trigger] ids[i]),
    ensures
        cache.missing(h, ids).len() == 0,
{
    crate::cache::lemma_requires_upload_missing(cache, h, ids);
}

proof fn lemma_succeeded_contains(ids: Seq<i32>, ok: Seq<bool>, j: int)
    requires
        ids.len() == ok.len(),
        0 <= j < ids.len(),
        ok[j],
    ensures
        succeeded_ids(ids, ok).contains(ids[j]),
    decreases ids.len(),
{
    let rest = succeeded_ids(ids.drop_last(), ok.drop_last());
    if j == ids.len() - 1 {
        assert(succeeded_ids(ids, ok) == rest.push(ids.last()));
        assert(succeeded_ids(ids, ok)[rest.len() as int] == ids[j]);
    } else {
        lemma_succeeded_contains(ids.drop_last(), ok.drop_last(), j);
        let k = choose|k: int| 0 <= k < rest.len() && rest[k] == ids[j];
        if ok.last() {
            assert(succeeded_ids(ids, ok) == rest.push(ids.last()));
            assert(succeeded_ids(ids, ok)[k] == ids[j]);
        }
    }
}

/// One blob through the upload stage: the stores that needed it are tried,
/// and those whose upload succeeded are recorded. Each store whose upload
/// succeeded then holds the content, so a catalogued file with one good
/// upload is held by some store; and when every upload succeeded, every
/// listed store holds it.
pub proof fn lemma_upload_step(
    before: AsyncCache,
    after: AsyncCache,
    h: Seq<char>,
    ids: Seq<i32>,
    ok: Seq<bool>,
)
    requires
        ok.len() == before.missing(h, ids).len(),
        forall|g: Seq<char>, id: i32|
            #[trigger] after.has_copy(g, id) == (before.has_copy(g, id) || (g == h && succeeded_ids(
                before.missing(h, ids),
                ok,
            ).contains(id))),
    ensures
        forall|j: int|
            0 <= j < ok.len() && ok[j] ==> after.has_copy(h, #[trigger] before.missing(h, ids)[j]),
        (forall|j: int| 0 <= j < ok.len() ==> #[trigger] ok[j]) ==> forall|i: int|
            0 <= i < ids.len() ==> after.has_copy(h, #[trigger] ids[i]),
{
    let needed = before.missing(h, ids);
    assert forall|j: int| 0 <= j < ok.len() && ok[j] implies after.has_copy(h, #[trigger] needed[j]) by {
        lemma_succeeded_contains(needed, ok, j);
    }
    if forall|j: int| 0 <= j < ok.len() ==> #[trigger] ok[j] {
        assert forall|id: i32| needed.contains(id) implies #[trigger] after.has_copy(h, id) by {
            let j = choose|j: int| 0 <= j < needed.len() && needed[j] == id;
            assert(ok[j]);
            assert(after.has_copy(h, needed[j]));
        }
        lemma_every_store_holds(before, after, h, ids);
    }
}

} // verus!
