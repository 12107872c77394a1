//! Results of earlier runs, keyed by document and fragment, valid while the fragment's
//! content hash and its document's modification time are unchanged.
use vstd::prelude::*;
use crate::dependency_resolver::{assoc_get, lemma_assoc_at, lemma_assoc_none};
use crate::extractor::CodeExample;
use crate::test_config::{CompilationError, TestResult};
use crate::text::{chars_of, equals, owned, push_str, string_of};

verus! {

/// A compact record of one result.
#[derive(Debug, Clone)]
pub struct CachedTestResult {
    pub example_id: String,
    pub success: bool,
    pub compilation_time_ms: u64,
    pub target: String,
    /// The error's message, if the attempt failed.
    pub error: Option<String>,
    pub warnings_count: usize,
}

/// A cached result with what it was computed from.
#[derive(Debug, Clone)]
pub struct CacheEntry {
    pub content_hash: String,
    /// Seconds since the Unix epoch.
    pub modified_time: u64,
    pub result: CachedTestResult,
}

/// The key of a fragment: its document, a colon, and its identifier.
pub open spec fn cache_key(source_file: Seq<char>, id: Seq<char>) -> Seq<char> {
    source_file + ":"@ + id
}

/// A cached record as plain values.
pub ghost struct RecordView {
    pub example_id: Seq<char>,
    pub success: bool,
    pub compilation_time_ms: u64,
    pub target: Seq<char>,
    pub error: Option<Seq<char>>,
    pub warnings_count: nat,
}

/// What is stored under a key: the hash and time the result was computed at, and its record.
pub ghost struct StampView {
    pub hash: Seq<char>,
    pub time: u64,
    pub record: RecordView,
}

impl CachedTestResult {
    /// This record as plain values.
    pub open spec fn view_of(&self) -> RecordView {
        RecordView {
            example_id: self.example_id@,
            success: self.success,
            compilation_time_ms: self.compilation_time_ms,
            target: self.target@,
            error: self.error.deep_view(),
            warnings_count: self.warnings_count as nat,
        }
    }
}

/// The record kept of a compilation result: its error is kept as its message.
pub open spec fn record_of(r: TestResult) -> RecordView {
    RecordView {
        example_id: r.example_id@,
        success: r.success,
        compilation_time_ms: r.compilation_time,
        target: r.target@,
        error: match r.error {
            Some(e) => Some(crate::test_config::error_text(e)),
            None => None,
        },
        warnings_count: r.warnings@.len(),
    }
}

/// A stored entry is still valid for the fragment's current content hash and its document's
/// current modification time exactly when both are the ones it was stored with.
pub open spec fn still_valid(stamp: Option<StampView>, hash: Seq<char>, time: u64) -> bool {
    match stamp {
        Some(s) => s.hash == hash && s.time == time,
        None => false,
    }
}

/// Cached results by fragment key.
#[derive(Debug, Clone)]
pub struct ResultCache {
    entries: Vec<(String, CacheEntry)>,
}

impl CacheEntry {
    /// This entry as plain values.
    pub open spec fn stamp(&self) -> StampView {
        StampView { hash: self.content_hash@, time: self.modified_time, record: self.result.view_of() }
    }
}

/// The stamps of a list of entries, by key.
pub open spec fn stamps_of(v: Seq<(String, CacheEntry)>) -> Seq<(Seq<char>, StampView)> {
    v.map_values(|e: (String, CacheEntry)| (e.0@, e.1.stamp()))
}

impl CachedTestResult {
    /// The compact record of `result`: its error kept as its message.
    pub fn from_result(result: &TestResult) -> (r: CachedTestResult)
        ensures
            r.view_of() == record_of(*result),
    {
        CachedTestResult {
            example_id: result.example_id.clone(),
            success: result.success,
            compilation_time_ms: result.compilation_time,
            target: result.target.clone(),
            error: match &result.error {
                Some(e) => Some(e.message()),
                None => None,
            },
            warnings_count: result.warnings.len(),
        }
    }

    /// The result this record stands for; an error comes back as a failure with exit code -1
    /// whose message is the recorded one, also given as the error output.
    pub fn to_test_result(&self) -> (r: TestResult)
        ensures
            r.example_id@ == self.example_id@,
            r.success == self.success,
            r.compilation_time == self.compilation_time_ms,
            r.target@ == self.target@,
            match self.error {
                Some(m) => r.error matches Some(CompilationError::CompilationFailed { exit_code, message })
                    && exit_code == -1 && message@ == m@ && r.stderr@ == m@,
                None => r.error is None && r.stderr@.len() == 0,
            },
            r.warnings@.len() == 0,
            r.stdout@.len() == 0,
    {
        let (error, stderr) = match &self.error {
            Some(m) => (Some(CompilationError::CompilationFailed { exit_code: -1, message: m.clone() }), m.clone()),
            None => (None, String::new()),
        };
        TestResult {
            example_id: self.example_id.clone(),
            success: self.success,
            compilation_time: self.compilation_time_ms,
            target: self.target.clone(),
            error,
            warnings: Vec::new(),
            stdout: String::new(),
            stderr,
        }
    }
}

/// The key of a fragment, by `cache_key`.
pub fn cache_key_of(example: &CodeExample) -> (r: String)
    ensures
        r@ == cache_key(example.source_file@, example.id@),
{
    let mut out: Vec<char> = Vec::new();
    push_str(&mut out, example.source_file.as_str());
    push_str(&mut out, ":");
    push_str(&mut out, example.id.as_str());
    string_of(&out)
}

impl ResultCache {
    /// The stamps held, by key.
    pub closed spec fn stamps(&self) -> Seq<(Seq<char>, StampView)> {
        stamps_of(self.entries@)
    }

    /// An empty cache.
    pub fn new() -> (r: ResultCache)
        ensures
            r.stamps().len() == 0,
    {
        ResultCache { entries: Vec::new() }
    }

    fn find(&self, key: &str) -> (r: Option<usize>)
        ensures
            match r {
                Some(i) => i < self.entries@.len() && assoc_get(self.stamps(), key@) == Some(self.stamps()[i as int].1)
                    && (forall|j: int| 0 <= j < i ==> self.stamps()[j].0 != key@) && self.stamps()[i as int].0 == key@,
                None => assoc_get(self.stamps(), key@) is None,
            },
    {
        let ghost st = self.stamps();
        let k = chars_of(key);
        let mut i: usize = 0;
        while i < self.entries.len()
            invariant
                i <= self.entries@.len(),
                st == self.stamps(),
                k@ == key@,
                forall|j: int| 0 <= j < i ==> st[j].0 != key@,
            decreases self.entries.len() - i,
        {
            if equals(&k, self.entries[i].0.as_str()) {
                proof {
                    lemma_assoc_at(st, key@, i as int);
                }
                return Some(i);
            }
            i = i + 1;
        }
        proof {
            lemma_assoc_none(st, key@);
        }
        None
    }

    /// The entry stored under `key`.
    pub fn get(&self, key: &str) -> (r: Option<&CacheEntry>)
        ensures
            match r {
                Some(e) => assoc_get(self.stamps(), key@) == Some(e.stamp()),
                None => assoc_get(self.stamps(), key@) is None,
            },
    {
        match self.find(key) {
            Some(i) => Some(&self.entries[i].1),
            None => None,
        }
    }

    /// Whether `example` must be compiled again: no entry is stored for it, or the entry is not
    /// `still_valid` for the current hash and modification time.
    pub fn needs_testing(&self, example: &CodeExample, current_hash: &str, current_time: u64) -> (r: bool)
        ensures
            r == !still_valid(assoc_get(self.stamps(), cache_key(example.source_file@, example.id@)), current_hash@, current_time),
    {
        let key = cache_key_of(example);
        match self.get(key.as_str()) {
            Some(e) => {
                let h = chars_of(e.content_hash.as_str());
                !equals(&h, current_hash) || e.modified_time != current_time
            },
            None => true,
        }
    }

    /// Stores the result of compiling `example` with the hash and modification time it was
    /// compiled at, replacing what was stored under its key.
    pub fn update(&mut self, example: &CodeExample, result: &TestResult, content_hash: &str, modified_time: u64)
        ensures
            assoc_get(final(self).stamps(), cache_key(example.source_file@, example.id@)) == Some(
                StampView { hash: content_hash@, time: modified_time, record: record_of(*result) },
            ),
            forall|k: Seq<char>|
                k != cache_key(example.source_file@, example.id@) ==> assoc_get(final(self).stamps(), k)
                    == assoc_get(old(self).stamps(), k),
    {
        let key = cache_key_of(example);
        let entry = CacheEntry {
            content_hash: owned(content_hash),
            modified_time,
            result: CachedTestResult::from_result(result),
        };
        let ghost st = self.stamps();
        let ghost stamp = entry.stamp();
        match self.find(key.as_str()) {
            Some(i) => {
                self.entries.set(i, (key, entry));
                proof {
                    let ns = self.stamps();
                    assert(ns =~= st.update(i as int, (st[i as int].0, stamp)));
                    assert forall|k: Seq<char>| k != st[i as int].0 implies assoc_get(ns, k) == assoc_get(st, k) by {
                        crate::dependency_resolver::lemma_assoc_update(st, i as int, stamp, k);
                    }
                    assert forall|j: int| 0 <= j < i implies ns[j].0 != st[i as int].0 by {
                        assert(ns[j] == st[j]);
                    }
                    lemma_assoc_at(ns, st[i as int].0, i as int);
                }
            },
            None => {
                self.entries.insert(0, (key, entry));
                proof {
                    let ns = self.stamps();
                    assert(ns =~= seq![(cache_key(example.source_file@, example.id@), stamp)] + st);
                    assert(ns.drop_first() =~= st);
                }
            },
        }
    }
}

/// After a fragment's result is stored with its hash and time, the same fragment with the same
/// hash and an unchanged document is a hit, so it is not compiled again; any other hash or
/// time is a miss.
pub proof fn lemma_hit_exactly_when_unchanged(
    stamps: Seq<(Seq<char>, StampView)>,
    key: Seq<char>,
    hash: Seq<char>,
    time: u64,
    record: RecordView,
    current_hash: Seq<char>,
    current_time: u64,
)
    requires
        assoc_get(stamps, key) == Some(StampView { hash, time, record }),
    ensures
        still_valid(assoc_get(stamps, key), current_hash, current_time) <==> (current_hash == hash && current_time == time),
{
}


/// The positions of the fragments that must be compiled again: those whose stored entry is
/// not `still_valid` for their current hash and time (`current[i]`), in order.
pub open spec fn changed_positions(
    stamps: Seq<(Seq<char>, StampView)>,
    keys: Seq<Seq<char>>,
    current: Seq<(Seq<char>, u64)>,
) -> Seq<int>
    decreases keys.len(),
{
    if keys.len() == 0 || current.len() != keys.len() {
        Seq::empty()
    } else {
        let k = (keys.len() - 1) as int;
        changed_positions(stamps, keys.drop_last(), current.drop_last()) + if still_valid(
            assoc_get(stamps, keys.last()),
            current.last().0,
            current.last().1,
        ) {
            Seq::empty()
        } else {
            seq![k]
        }
    }
}

/// The keys of a list of fragments.
pub open spec fn keys_of(examples: Seq<CodeExample>) -> Seq<Seq<char>> {
    examples.map_values(|e: CodeExample| cache_key(e.source_file@, e.id@))
}

/// The views of a list of current hashes and times.
pub open spec fn current_view(v: Seq<(String, u64)>) -> Seq<(Seq<char>, u64)> {
    v.map_values(|c: (String, u64)| (c.0@, c.1))
}

/// When every fragment's stored entry matches its current hash and time, none is compiled again.
pub proof fn lemma_unchanged_run_compiles_nothing(
    stamps: Seq<(Seq<char>, StampView)>,
    keys: Seq<Seq<char>>,
    current: Seq<(Seq<char>, u64)>,
)
    requires
        current.len() == keys.len(),
        forall|i: int| 0 <= i < keys.len() ==> still_valid(assoc_get(stamps, #[trigger] keys[i]), current[i].0, current[i].1),
    ensures
        changed_positions(stamps, keys, current).len() == 0,
    decreases keys.len(),
{
    if keys.len() > 0 {
        assert forall|i: int| 0 <= i < keys.drop_last().len() implies still_valid(
            assoc_get(stamps, #[trigger] keys.drop_last()[i]),
            current.drop_last()[i].0,
            current.drop_last()[i].1,
        ) by {
            assert(keys.drop_last()[i] == keys[i]);
        }
        lemma_unchanged_run_compiles_nothing(stamps, keys.drop_last(), current.drop_last());
        assert(keys.last() == keys[keys.len() - 1]);
    }
}

impl ResultCache {
    /// The positions of the fragments of `examples` that must be compiled again, given each
    /// one's current content hash and document modification time.
    pub fn filter_changed_examples(&self, examples: &Vec<CodeExample>, current: &Vec<(String, u64)>) -> (r: Vec<usize>)
        requires
            examples@.len() == current@.len(),
        ensures
            r@.map_values(|i: usize| i as int) == changed_positions(self.stamps(), keys_of(examples@), current_view(current@)),
    {
        let ghost ks = keys_of(examples@);
        let ghost cv = current_view(current@);
        let mut out: Vec<usize> = Vec::new();
        let mut i: usize = 0;
        assert(out@.map_values(|i: usize| i as int) =~= changed_positions(self.stamps(), ks.subrange(0, 0), cv.subrange(0, 0)));
        while i < examples.len()
            invariant
                i <= examples@.len(),
                examples@.len() == current@.len(),
                ks == keys_of(examples@),
                cv == current_view(current@),
                out@.map_values(|i: usize| i as int) == changed_positions(self.stamps(), ks.subrange(0, i as int), cv.subrange(0, i as int)),
            decreases examples.len() - i,
        {
            assert(ks.subrange(0, i + 1).drop_last() =~= ks.subrange(0, i as int));
            assert(cv.subrange(0, i + 1).drop_last() =~= cv.subrange(0, i as int));
            assert(ks[i as int] == cache_key(examples@[i as int].source_file@, examples@[i as int].id@));
            let ghost before = out@.map_values(|i: usize| i as int);
            if self.needs_testing(&examples[i], current[i].0.as_str(), current[i].1) {
                out.push(i);
                assert(out@.map_values(|i: usize| i as int) =~= before + seq![i as int]);
            } else {
                assert(out@.map_values(|i: usize| i as int) =~= before + Seq::<int>::empty());
            }
            i = i + 1;
        }
        assert(ks.subrange(0, ks.len() as int) =~= ks);
        assert(cv.subrange(0, cv.len() as int) =~= cv);
        out
    }
}

} // verus!
