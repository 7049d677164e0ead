//! Enrichment of unknown packages through an AI proxy: what is asked, which
//! answers are kept, and how lookups are batched. Sending the requests and
//! caching the answers on disk is the caller's.
use vstd::prelude::*;
use crate::text::{chars_of, push_char};

verus! {

/// One enriched package, as returned by the AI and stored in the cache.
#[derive(Debug, Clone, Default, PartialEq, Eq)]
pub struct AiInfo {
    /// Short human app name, e.g. `Netflix`.
    pub friendly_name: String,
    /// One concise sentence: what the app/service does.
    pub description: String,
    /// One of `safe` / `caution` / `unsafe`: whether removing it risks
    /// breaking the Android system.
    pub safe_to_remove: String,
}

impl AiInfo {
    /// An answer with neither a name nor a description.
    pub open spec fn spec_is_empty(&self) -> bool {
        self.friendly_name@.len() == 0 && self.description@.len() == 0
    }

    /// Whether the answer has neither a name nor a description.
    pub fn is_empty(&self) -> (r: bool)
        ensures
            r == self.spec_is_empty(),
    {
        self.friendly_name.as_str().is_empty() && self.description.as_str().is_empty()
    }
}

/// The system role of the enrichment request.
pub const ENRICH_SYSTEM: &'static str = "You are a terse Android package expert. Output only valid minified JSON, no prose, no markdown fences.";

/// What the enrichment prompt says before the package id.
pub const ENRICH_PROMPT_HEAD: &'static str = "Android package id: `";

/// What the enrichment prompt says after the package id.
pub const ENRICH_PROMPT_TAIL: &'static str = "`. Respond with ONLY a JSON object with keys: friendly_name (short human app name, e.g. \"Netflix\"; if genuinely unknown, derive a readable name from the id), description (one concise sentence describing what the app or service does), safe_to_remove (exactly one of: safe, caution, unsafe). For safe_to_remove judge whether REMOVING the package risks breaking the Android system/OS, NOT whether the user personally wants it: a normal user-facing app (game, streaming, browser) is \"safe\"; a component other apps depend on is \"caution\"; a core framework/service is \"unsafe\".";

/// The user turn asking the AI to enrich `pkg_id`.
pub fn enrich_prompt(pkg_id: &str) -> (r: String)
    ensures
        r@ == ENRICH_PROMPT_HEAD@ + pkg_id@ + ENRICH_PROMPT_TAIL@,
{
    let mut r = String::from_str(ENRICH_PROMPT_HEAD);
    r.append(pkg_id);
    r.append(ENRICH_PROMPT_TAIL);
    r
}

/// The enrichment kept from a parsed answer: none when it is empty.
pub fn accept_enrichment(info: AiInfo) -> (r: Option<AiInfo>)
    ensures
        r == if info.spec_is_empty() {
            None
        } else {
            Some(info)
        },
{
    if info.is_empty() {
        None
    } else {
        Some(info)
    }
}

/// A character with the Unicode `White_Space` property, the whitespace that
/// `str::trim` removes.
pub open spec fn is_white_space(c: char) -> bool {
    let u = c as u32;
    ||| 0x9 <= u <= 0xD
    ||| u == 0x20
    ||| u == 0x85
    ||| u == 0xA0
    ||| u == 0x1680
    ||| 0x2000 <= u <= 0x200A
    ||| u == 0x2028
    ||| u == 0x2029
    ||| u == 0x202F
    ||| u == 0x205F
    ||| u == 0x3000
}

/// `s` without its leading whitespace.
pub open spec fn trim_start(s: Seq<char>) -> Seq<char>
    decreases s.len(),
{
    if s.len() > 0 && is_white_space(s[0]) {
        trim_start(s.drop_first())
    } else {
        s
    }
}

/// `s` without its trailing whitespace.
pub open spec fn trim_end(s: Seq<char>) -> Seq<char>
    decreases s.len(),
{
    if s.len() > 0 && is_white_space(s.last()) {
        trim_end(s.drop_last())
    } else {
        s
    }
}

/// `s` without its leading and trailing whitespace (`str::trim`).
pub open spec fn trimmed(s: Seq<char>) -> Seq<char> {
    trim_end(trim_start(s))
}

/// Whether `c` has the Unicode `White_Space` property.
fn white_space(c: char) -> (r: bool)
    ensures
        r == is_white_space(c),
{
    let u = c as u32;
    (0x9 <= u && u <= 0xD) || u == 0x20 || u == 0x85 || u == 0xA0 || u == 0x1680 || (0x2000 <= u
        && u <= 0x200A) || u == 0x2028 || u == 0x2029 || u == 0x202F || u == 0x205F || u == 0x3000
}

/// `s` without its leading and trailing whitespace.
pub fn trim(s: &str) -> (r: String)
    ensures
        r@ == trimmed(s@),
{
    let c = chars_of(s);
    let n = c.len();
    let mut i: usize = 0;
    assert(c@.skip(0) =~= c@);
    while i < n && white_space(c[i])
        invariant
            n == c.len(),
            i <= n,
            trim_start(c@) == trim_start(c@.skip(i as int)),
        decreases n - i,
    {
        assert(c@.skip(i as int).drop_first() =~= c@.skip(i + 1));
        i += 1;
    }
    let ghost t = c@.skip(i as int);
    assert(trim_start(t) == t);
    let mut j: usize = n;
    while j > i && white_space(c[j - 1])
        invariant
            n == c.len(),
            i <= j <= n,
            t == c@.skip(i as int),
            trim_end(t) == trim_end(c@.subrange(i as int, j as int)),
        decreases j,
    {
        assert(c@.subrange(i as int, j as int).drop_last() =~= c@.subrange(i as int, j - 1));
        j -= 1;
    }
    assert(t =~= c@.subrange(i as int, n as int));
    assert(trim_end(c@.subrange(i as int, j as int)) == c@.subrange(i as int, j as int));
    let mut r = String::new();
    let mut k: usize = i;
    while k < j
        invariant
            i <= k <= j <= n,
            n == c.len(),
            r@ == c@.subrange(i as int, k as int),
        decreases j - k,
    {
        push_char(&mut r, c[k]);
        assert(c@.subrange(i as int, k + 1) =~= c@.subrange(i as int, k as int).push(c@[k as int]));
        k += 1;
    }
    r
}

/// The reply kept from a trimmed chat answer: none when it is empty.
pub fn nonempty_reply(trimmed: String) -> (r: Option<String>)
    ensures
        r == if trimmed@.len() == 0 {
            None
        } else {
            Some(trimmed)
        },
{
    if trimmed.as_str().is_empty() {
        None
    } else {
        Some(trimmed)
    }
}

/// The reply kept from the `content` of a chat answer: its trimmed text,
/// none when that is empty.
pub fn chat_reply(content: &str) -> (r: Option<String>)
    ensures
        match r {
            Some(reply) => reply@ == trimmed(content@) && reply@.len() > 0,
            None => trimmed(content@).len() == 0,
        },
{
    nonempty_reply(trim(content))
}

/// The successful lookups among `results`, in order.
pub open spec fn successes(results: Seq<(String, Option<AiInfo>)>) -> Seq<(String, AiInfo)>
    decreases results.len(),
{
    if results.len() == 0 {
        seq![]
    } else {
        let prev = successes(results.drop_last());
        match results.last().1 {
            Some(info) => prev.push((results.last().0, info)),
            None => prev,
        }
    }
}

/// Keeps the lookups that found something, in order, dropping the failures.
pub fn successful_lookups(results: Vec<(String, Option<AiInfo>)>) -> (r: Vec<(String, AiInfo)>)
    ensures
        r@ == successes(results@),
{
    let ghost all = results@;
    let mut out: Vec<(String, AiInfo)> = Vec::new();
    for x in it: results
        invariant
            it.seq() == all,
            out@ == successes(all.take(it.index() as int)),
    {
        let ghost k = it.index() as int;
        assert(all.take(k + 1).drop_last() =~= all.take(k));
        let (id, info) = x;
        match info {
            Some(i) => {
                out.push((id, i));
            },
            None => {},
        }
    }
    assert(all.take(all.len() as int) =~= all);
    out
}

/// `i` is the first position of an entry for package `id`.
pub open spec fn is_first_entry(entries: Seq<(String, AiInfo)>, id: Seq<char>, i: int) -> bool {
    &&& 0 <= i < entries.len()
    &&& entries[i].0@ == id
    &&& forall|j: int| 0 <= j < i ==> entries[j].0@ != id
}

/// The position of the first entry for package `id`, if there is one.
pub open spec fn entry_position(entries: Seq<(String, AiInfo)>, id: Seq<char>) -> Option<int> {
    if exists|i: int| is_first_entry(entries, id, i) {
        Some(choose|i: int| is_first_entry(entries, id, i))
    } else {
        None
    }
}

/// No two entries are for the same package.
pub open spec fn ids_unique(entries: Seq<(String, AiInfo)>) -> bool {
    forall|i: int, j: int| 0 <= i < j < entries.len() ==> entries[i].0@ != entries[j].0@
}

/// The entries with `(id, info)` recorded: it replaces the entry for `id`,
/// else it is added at the end.
pub open spec fn with_lookup(entries: Seq<(String, AiInfo)>, id: String, info: AiInfo) -> Seq<
    (String, AiInfo),
> {
    match entry_position(entries, id@) {
        Some(i) => entries.update(i, (id, info)),
        None => entries.push((id, info)),
    }
}

/// The entries with each of `found` recorded in turn, so that a later lookup
/// of the same package wins.
pub open spec fn with_lookups(entries: Seq<(String, AiInfo)>, found: Seq<(String, AiInfo)>) -> Seq<
    (String, AiInfo),
>
    decreases found.len(),
{
    if found.len() == 0 {
        entries
    } else {
        with_lookup(with_lookups(entries, found.drop_last()), found.last().0, found.last().1)
    }
}

/// Records one lookup, replacing an earlier one for the same package.
pub fn insert_lookup(entries: &mut Vec<(String, AiInfo)>, id: String, info: AiInfo)
    ensures
        final(entries)@ == with_lookup(old(entries)@, id, info),
{
    let ghost e = entries@;
    let mut i: usize = 0;
    while i < entries.len()
        invariant
            i <= entries.len(),
            entries@ == e,
            forall|j: int| 0 <= j < i ==> e[j].0@ != id@,
        ensures
            i <= entries.len(),
            entries@ == e,
            forall|j: int| 0 <= j < i ==> e[j].0@ != id@,
            i < entries.len() ==> e[i as int].0@ == id@,
        decreases entries.len() - i,
    {
        if entries[i].0 == id {
            break;
        }
        i += 1;
    }
    if i < entries.len() {
        proof {
            lemma_first_entry_unique(e, id@, i as int);
        }
        entries.set(i, (id, info));
    } else {
        assert(!exists|k: int| is_first_entry(e, id@, k));
        entries.push((id, info));
    }
}

/// Records the successful lookups among `results`, in order, each replacing
/// an earlier entry for the same package.
pub fn add_lookups(entries: &mut Vec<(String, AiInfo)>, results: Vec<(String, Option<AiInfo>)>)
    ensures
        final(entries)@ == with_lookups(old(entries)@, successes(results@)),
{
    let ghost e0 = entries@;
    let ghost all = results@;
    for x in it: results
        invariant
            it.seq() == all,
            entries@ == with_lookups(e0, successes(all.take(it.index() as int))),
    {
        let ghost k = it.index() as int;
        assert(all.take(k + 1).drop_last() =~= all.take(k));
        let (id, info) = x;
        match info {
            Some(i) => {
                let ghost found = successes(all.take(k)).push((id, i));
                assert(found.drop_last() =~= successes(all.take(k)));
                insert_lookup(entries, id, i);
            },
            None => {},
        }
    }
    assert(all.take(all.len() as int) =~= all);
}

/// There is at most one first entry for a package.
pub proof fn lemma_first_entry_unique(entries: Seq<(String, AiInfo)>, id: Seq<char>, i: int)
    requires
        is_first_entry(entries, id, i),
    ensures
        entry_position(entries, id) == Some(i),
{
    let k = choose|k: int| is_first_entry(entries, id, k);
    assert(k == i) by {
        if k < i {
            assert(entries[k].0@ != id);
        } else if k > i {
            assert(entries[i].0@ != id);
        }
    }
}

/// An entry for a package at some position means there is a first one.
pub proof fn lemma_first_entry_exists(entries: Seq<(String, AiInfo)>, id: Seq<char>, j: int)
    requires
        0 <= j < entries.len(),
        entries[j].0@ == id,
    ensures
        exists|i: int| is_first_entry(entries, id, i),
    decreases j,
{
    if forall|k: int| 0 <= k < j ==> entries[k].0@ != id {
        assert(is_first_entry(entries, id, j));
    } else {
        let k = choose|k: int| 0 <= k < j && entries[k].0@ == id;
        lemma_first_entry_exists(entries, id, k);
    }
}

/// Without a first entry for a package there is no entry for it at all.
proof fn lemma_no_entry(entries: Seq<(String, AiInfo)>, id: Seq<char>)
    requires
        entry_position(entries, id) is None,
    ensures
        forall|j: int| 0 <= j < entries.len() ==> entries[j].0@ != id,
{
    assert forall|j: int| 0 <= j < entries.len() implies entries[j].0@ != id by {
        if entries[j].0@ == id {
            lemma_first_entry_exists(entries, id, j);
        }
    }
}

/// Recording one lookup keeps the entries of other packages, and the
/// recorded pair is then the entry for its package.
proof fn lemma_with_lookup(entries: Seq<(String, AiInfo)>, id: String, info: AiInfo)
    ensures
        entry_position(with_lookup(entries, id, info), id@) matches Some(p) && with_lookup(
            entries,
            id,
            info,
        )[p] == (id, info),
        forall|k: Seq<char>, p: int|
            k != id@ && entry_position(entries, k) == Some(p) ==> entry_position(
                #[trigger] with_lookup(entries, id, info),
                k,
            ) == Some(p) && with_lookup(entries, id, info)[p] == entries[p],
        ids_unique(entries) ==> ids_unique(with_lookup(entries, id, info)),
{
    let after = with_lookup(entries, id, info);
    match entry_position(entries, id@) {
        Some(i) => {
            assert(is_first_entry(entries, id@, i));
            assert(is_first_entry(after, id@, i));
            lemma_first_entry_unique(after, id@, i);
        },
        None => {
            lemma_no_entry(entries, id@);
            assert(is_first_entry(after, id@, entries.len() as int));
            lemma_first_entry_unique(after, id@, entries.len() as int);
        },
    }
    assert forall|k: Seq<char>, p: int|
        k != id@ && entry_position(entries, k) == Some(p) implies entry_position(
        #[trigger] with_lookup(entries, id, info),
        k,
    ) == Some(p) && with_lookup(entries, id, info)[p] == entries[p] by {
        assert(is_first_entry(entries, k, p));
        assert(is_first_entry(after, k, p));
        lemma_first_entry_unique(after, k, p);
    }
}

/// Recording lookups keeps entries for distinct packages distinct.
pub proof fn law_lookups_keep_ids_unique(
    entries: Seq<(String, AiInfo)>,
    found: Seq<(String, AiInfo)>,
)
    requires
        ids_unique(entries),
    ensures
        ids_unique(with_lookups(entries, found)),
    decreases found.len(),
{
    if found.len() > 0 {
        law_lookups_keep_ids_unique(entries, found.drop_last());
        lemma_with_lookup(with_lookups(entries, found.drop_last()), found.last().0, found.last().1);
    }
}

/// The last lookup of a package wins: when no later lookup in `found` is for
/// the same package, the entry for that package is exactly that lookup.
pub proof fn law_last_lookup_wins(
    entries: Seq<(String, AiInfo)>,
    found: Seq<(String, AiInfo)>,
    i: int,
)
    requires
        0 <= i < found.len(),
        forall|j: int| i < j < found.len() ==> found[j].0@ != found[i].0@,
    ensures
        entry_position(with_lookups(entries, found), found[i].0@) matches Some(p) && with_lookups(
            entries,
            found,
        )[p] == found[i],
    decreases found.len(),
{
    let prev = with_lookups(entries, found.drop_last());
    let last = found.last();
    lemma_with_lookup(prev, last.0, last.1);
    if i < found.len() - 1 {
        law_last_lookup_wins(entries, found.drop_last(), i);
        assert(found.drop_last()[i] == found[i]);
        assert(last.0@ != found[i].0@);
        let p = entry_position(prev, found[i].0@)->0;
        assert(entry_position(with_lookup(prev, last.0, last.1), found[i].0@) == Some(p));
    }
}

/// Requests in flight at once: `concurrency`, but at least one.
pub open spec fn chunk_size(concurrency: usize) -> int {
    if concurrency == 0 {
        1
    } else {
        concurrency as int
    }
}

/// `chunks` cuts `0..n` into consecutive ranges of `k` items, the last one
/// holding the remaining 1 to `k` items.
pub open spec fn is_chunking(chunks: Seq<(usize, usize)>, n: int, k: int) -> bool {
    &&& (n == 0 <==> chunks.len() == 0)
    &&& chunks.len() > 0 ==> chunks[0].0 == 0 && chunks.last().1 == n
    &&& forall|i: int|
        0 <= i < chunks.len() - 1 ==> #[trigger] chunks[i].1 == chunks[i + 1].0 && chunks[i].1
            - chunks[i].0 == k
    &&& chunks.len() > 0 ==> 1 <= chunks.last().1 - chunks.last().0 <= k
}

/// The index ranges of `n` ids looked up `concurrency` at a time (at least one).
pub fn batch_chunks(n: usize, concurrency: usize) -> (r: Vec<(usize, usize)>)
    ensures
        is_chunking(r@, n as int, chunk_size(concurrency)),
{
    let k: usize = if concurrency == 0 {
        1
    } else {
        concurrency
    };
    let mut r: Vec<(usize, usize)> = Vec::new();
    let mut start: usize = 0;
    while start < n
        invariant
            k == chunk_size(concurrency),
            start <= n,
            r.len() == 0 <==> start == 0,
            r.len() > 0 ==> r@[0].0 == 0 && r@.last().1 == start,
            forall|i: int| 0 <= i < r.len() ==> #[trigger] r@[i].1 - r@[i].0 == k || (i == r.len()
                - 1 && start == n),
            forall|i: int| 0 <= i < r.len() ==> 1 <= #[trigger] r@[i].1 - r@[i].0 <= k,
            forall|i: int| 0 <= i < r.len() - 1 ==> #[trigger] r@[i].1 == r@[i + 1].0,
        decreases n - start,
    {
        let end: usize = if n - start > k {
            start + k
        } else {
            n
        };
        r.push((start, end));
        start = end;
    }
    r
}


/// Only successful lookups are kept: every kept entry is a lookup that found
/// something, and every lookup that found something is kept.
pub proof fn law_only_successes_kept(results: Seq<(String, Option<AiInfo>)>)
    ensures
        forall|k: int|
            0 <= k < successes(results).len() ==> exists|i: int|
                0 <= i < results.len() && results[i].0 == #[trigger] successes(results)[k].0
                    && results[i].1 == Some(successes(results)[k].1),
        forall|i: int|
            0 <= i < results.len() && (#[trigger] results[i]).1 is Some ==> exists|k: int|
                0 <= k < successes(results).len() && successes(results)[k].0 == results[i].0
                    && Some(successes(results)[k].1) == results[i].1,
    decreases results.len(),
{
    if results.len() > 0 {
        let prev = results.drop_last();
        law_only_successes_kept(prev);
        let sp = successes(prev);
        let sr = successes(results);
        assert forall|k: int| 0 <= k < sr.len() implies exists|i: int|
            0 <= i < results.len() && results[i].0 == #[trigger] sr[k].0 && results[i].1 == Some(
                sr[k].1,
            ) by {
            if k < sp.len() {
                assert(sr[k] == sp[k]);
                let i = choose|i: int|
                    0 <= i < prev.len() && prev[i].0 == sp[k].0 && prev[i].1 == Some(sp[k].1);
                assert(results[i] == prev[i]);
            } else {
                assert(results[results.len() - 1] == results.last());
            }
        }
        assert forall|i: int| 0 <= i < results.len() && (#[trigger] results[i]).1 is Some implies exists|k: int|
            0 <= k < sr.len() && sr[k].0 == results[i].0 && Some(sr[k].1) == results[i].1 by {
            if i < prev.len() {
                assert(prev[i] == results[i]);
                let k = choose|k: int|
                    0 <= k < sp.len() && sp[k].0 == prev[i].0 && Some(sp[k].1) == prev[i].1;
                assert(sr[k] == sp[k]);
            } else {
                assert(sr[sr.len() - 1] == (results.last().0, results.last().1->0));
            }
        }
    }
}

/// Index `x` lies in one of the chunks.
pub open spec fn in_some_chunk(chunks: Seq<(usize, usize)>, x: int) -> bool {
    exists|i: int| 0 <= i < chunks.len() && #[trigger] chunks[i].0 <= x < chunks[i].1
}

/// The batches look every id up exactly once: every index below `n` lies in
/// one chunk, and the chunks are increasing and disjoint.
pub proof fn law_chunks_cover_each_id_once(chunks: Seq<(usize, usize)>, n: int, k: int)
    requires
        k >= 1,
        is_chunking(chunks, n, k),
    ensures
        forall|x: int| 0 <= x < n ==> #[trigger] in_some_chunk(chunks, x),
        forall|i: int, j: int| 0 <= i < j < chunks.len() ==> chunks[i].1 <= chunks[j].0,
{
    assert forall|i: int| 0 <= i < chunks.len() implies chunks[i].0 < #[trigger] chunks[i].1 by {
        if i < chunks.len() - 1 {
            assert(chunks[i].1 == chunks[i + 1].0);
        }
    }
    lemma_chunks_increasing(chunks, n, k);
    assert forall|x: int| 0 <= x < n implies #[trigger] in_some_chunk(chunks, x) by {
        lemma_chunk_prefix_covers(chunks, n, k, chunks.len() - 1, x);
    }
}

proof fn lemma_chunks_increasing(chunks: Seq<(usize, usize)>, n: int, k: int)
    requires
        k >= 1,
        is_chunking(chunks, n, k),
    ensures
        forall|i: int, j: int| 0 <= i < j < chunks.len() ==> chunks[i].1 <= chunks[j].0,
{
    assert forall|i: int, j: int| 0 <= i < j < chunks.len() implies chunks[i].1 <= chunks[j].0 by {
        lemma_chunk_chain(chunks, n, k, i, j);
    }
}

proof fn lemma_chunk_chain(chunks: Seq<(usize, usize)>, n: int, k: int, i: int, j: int)
    requires
        k >= 1,
        is_chunking(chunks, n, k),
        0 <= i < j < chunks.len(),
    ensures
        chunks[i].1 <= chunks[j].0,
    decreases j - i,
{
    assert(chunks[j - 1].1 == chunks[j].0);
    if i < j - 1 {
        lemma_chunk_chain(chunks, n, k, i, j - 1);
        assert(chunks[j - 1].1 - chunks[j - 1].0 == k);
    }
}

proof fn lemma_chunk_prefix_covers(chunks: Seq<(usize, usize)>, n: int, k: int, m: int, x: int)
    requires
        k >= 1,
        is_chunking(chunks, n, k),
        0 <= m < chunks.len(),
        0 <= x < chunks[m].1,
    ensures
        exists|i: int| 0 <= i <= m && #[trigger] chunks[i].0 <= x < chunks[i].1,
    decreases m,
{
    if m == 0 {
        assert(chunks[0].0 <= x < chunks[0].1);
    } else {
        assert(chunks[m - 1].1 == chunks[m].0);
        if x < chunks[m - 1].1 {
            lemma_chunk_prefix_covers(chunks, n, k, m - 1, x);
            let i = choose|i: int| 0 <= i <= m - 1 && #[trigger] chunks[i].0 <= x < chunks[i].1;
            assert(chunks[i].0 <= x < chunks[i].1);
        } else {
            assert(chunks[m].0 <= x < chunks[m].1);
        }
    }
}

/// An answer is kept whenever it names the package or describes it, and
/// dropped when it does neither; the safety verdict plays no part.
pub proof fn law_enrichment_kept_when_named_or_described(info: AiInfo, safe_to_remove: String)
    ensures
        info.friendly_name@.len() > 0 ==> !info.spec_is_empty(),
        info.description@.len() > 0 ==> !info.spec_is_empty(),
        info.friendly_name@.len() == 0 && info.description@.len() == 0 ==> info.spec_is_empty(),
        (AiInfo { safe_to_remove, ..info }).spec_is_empty() == info.spec_is_empty(),
{
}

/// Printable ASCII characters other than the space are not whitespace.
pub proof fn law_printable_ascii_is_not_white_space(c: char)
    requires
        '!' <= c <= '~',
    ensures
        !is_white_space(c),
{
}

/// The ASCII whitespace characters (tab, line feed, vertical tab, form feed,
/// carriage return, space) are whitespace.
pub proof fn law_ascii_white_space(c: char)
    requires
        c == ' ' || c == '\t' || c == '\n' || c == '\r' || c == '\u{b}' || c == '\u{c}',
    ensures
        is_white_space(c),
{
}

/// Trimming keeps a text that begins and ends with printable ASCII other
/// than the space exactly as it is.
pub proof fn law_trim_keeps_printable_ends(s: Seq<char>)
    requires
        s.len() > 0,
        '!' <= s[0] <= '~',
        '!' <= s.last() <= '~',
    ensures
        trimmed(s) == s,
{
    assert(trim_start(s) == s);
    assert(trim_end(s) == s);
}

proof fn lemma_trim_start_shape(s: Seq<char>) -> (i: int)
    ensures
        0 <= i <= s.len(),
        trim_start(s) == s.skip(i),
        forall|k: int| 0 <= k < i ==> is_white_space(#[trigger] s[k]),
        i < s.len() ==> !is_white_space(s[i]),
    decreases s.len(),
{
    if s.len() > 0 && is_white_space(s[0]) {
        let i0 = lemma_trim_start_shape(s.drop_first());
        assert(s.drop_first().skip(i0) =~= s.skip(i0 + 1));
        assert forall|k: int| 0 <= k < i0 + 1 implies is_white_space(#[trigger] s[k]) by {
            if k > 0 {
                assert(s[k] == s.drop_first()[k - 1]);
            }
        }
        if i0 + 1 < s.len() {
            assert(s[i0 + 1] == s.drop_first()[i0]);
        }
        i0 + 1
    } else {
        assert(s.skip(0) =~= s);
        0
    }
}

proof fn lemma_trim_end_shape(s: Seq<char>) -> (j: int)
    ensures
        0 <= j <= s.len(),
        trim_end(s) == s.take(j),
        forall|k: int| j <= k < s.len() ==> is_white_space(#[trigger] s[k]),
        j > 0 ==> !is_white_space(s[j - 1]),
    decreases s.len(),
{
    if s.len() > 0 && is_white_space(s.last()) {
        let j0 = lemma_trim_end_shape(s.drop_last());
        assert(s.drop_last().take(j0) =~= s.take(j0));
        assert forall|k: int| j0 <= k < s.len() implies is_white_space(#[trigger] s[k]) by {
            if k < s.len() - 1 {
                assert(s[k] == s.drop_last()[k]);
            }
        }
        if j0 > 0 {
            assert(s[j0 - 1] == s.drop_last()[j0 - 1]);
        }
        j0
    } else {
        assert(s.take(s.len() as int) =~= s);
        s.len() as int
    }
}

/// Trimming removes whitespace at both ends and nothing else: the result is
/// a contiguous part of the text, everything before and after it is
/// whitespace, and it neither starts nor ends with whitespace.
pub proof fn law_trim_removes_only_outer_white_space(s: Seq<char>)
    ensures
        exists|i: int, j: int|
            #![trigger s.subrange(i, j)]
            0 <= i <= j <= s.len() && trimmed(s) == s.subrange(i, j) && (forall|k: int|
                0 <= k < i ==> is_white_space(#[trigger] s[k])) && (forall|k: int|
                j <= k < s.len() ==> is_white_space(#[trigger] s[k])),
        trimmed(s).len() > 0 ==> !is_white_space(trimmed(s)[0]) && !is_white_space(
            trimmed(s).last(),
        ),
        trimmed(trimmed(s)) == trimmed(s),
{
    let i = lemma_trim_start_shape(s);
    let t = s.skip(i);
    let j = lemma_trim_end_shape(t);
    assert(t.take(j) =~= s.subrange(i, i + j));
    assert forall|k: int| i + j <= k < s.len() implies is_white_space(#[trigger] s[k]) by {
        assert(s[k] == t[k - i]);
    }
    let r = trimmed(s);
    if r.len() > 0 {
        assert(r[0] == s[i]);
        assert(r.last() == t[j - 1]);
        assert(trim_start(r) == r);
        assert(trim_end(r) == r);
    } else {
        assert(trim_start(r) == r);
        assert(trim_end(r) == r);
    }
}

} // verus!
