//! Fuzzy matching of game titles against an external catalog.
//!
//! Titles are normalized to their ASCII letters and digits, case folded,
//! and compared exactly, by substring, or word by word.  Matches are
//! ranked by a fixed tie-break chain, deduplicated by catalog identity and
//! capped.

use vstd::prelude::*;
use crate::text::{
    contains_bytes, contains_seq, is_alnum, is_alnum_exec, lemma_lex_le_antisym,
    lemma_lex_le_total, lemma_lex_le_trans, lex_le, lex_le_exec, lower_byte, lower_byte_exec,
    seq_eq,
};

verus! {

/// Most matches ever returned for one query.
pub const MAX_MATCHES: usize = 20;

/// Candidate titles shorter than this never match by being contained in
/// the query.
pub const MIN_REVERSE_LEN: usize = 4;

/// Acronyms shorter than this never match by being contained in the query.
pub const MIN_ACRONYM_LEN: usize = 3;

/// One catalog record.  Every field is optional, mirroring the permissive
/// upstream data.
#[derive(Debug)]
pub struct UmuEntry {
    pub title: Option<Vec<u8>>,
    pub umu_id: Option<Vec<u8>>,
    pub acronym: Option<Vec<u8>>,
    pub codename: Option<Vec<u8>>,
    pub store: Option<Vec<u8>>,
    pub exe_string: Option<Vec<u8>>,
    pub notes: Option<Vec<u8>>,
}

/// One ranked match: a catalog record and its score (lower is better).
#[derive(Debug)]
pub struct UmuMatch {
    pub entry: UmuEntry,
    pub score: i32,
}

/// The normalized form of a title: its ASCII letters and digits, case
/// folded, everything else discarded.
pub open spec fn normalized(s: Seq<u8>) -> Seq<u8>
    decreases s.len(),
{
    if s.len() == 0 {
        Seq::empty()
    } else {
        let rest = normalized(s.drop_last());
        if is_alnum(s.last()) {
            rest.push(lower_byte(s.last()))
        } else {
            rest
        }
    }
}

/// Append `cur` to `acc` when it is a non-empty word.
pub open spec fn flush_word(acc: Seq<Seq<u8>>, cur: Seq<u8>) -> Seq<Seq<u8>> {
    if cur.len() > 0 {
        acc.push(cur)
    } else {
        acc
    }
}

/// The words of `s` from position `i` on: maximal runs of letters and
/// digits, case folded.
pub open spec fn words_from(s: Seq<u8>, i: int, cur: Seq<u8>, acc: Seq<Seq<u8>>) -> Seq<Seq<u8>>
    decreases s.len() - i,
{
    if !(0 <= i < s.len()) {
        flush_word(acc, cur)
    } else if is_alnum(s[i]) {
        words_from(s, i + 1, cur.push(lower_byte(s[i])), acc)
    } else {
        words_from(s, i + 1, Seq::empty(), flush_word(acc, cur))
    }
}

/// The case-folded alphanumeric words of `s`.
pub open spec fn words_of(s: Seq<u8>) -> Seq<Seq<u8>> {
    words_from(s, 0, Seq::empty(), Seq::empty())
}

/// Every word of the query occurs among the words of the candidate, and
/// the query has at least one word.
pub open spec fn words_covered(input: Seq<u8>, cand: Seq<u8>) -> bool {
    &&& words_of(input).len() > 0
    &&& forall|k: int| 0 <= k < words_of(input).len() ==> words_of(cand).contains(#[trigger] words_of(input)[k])
}

/// The score of a candidate title against the query, `None` when it does
/// not qualify.  Lower is better: exact match, query contained in the
/// candidate, all query words present, candidate contained in the query.
pub open spec fn title_score(input: Seq<u8>, cand: Seq<u8>) -> Option<int> {
    let ni = normalized(input);
    let nc = normalized(cand);
    if ni.len() == 0 || nc.len() == 0 {
        None
    } else if nc == ni {
        Some(0)
    } else if contains_seq(nc, ni) {
        Some(1)
    } else if words_covered(input, cand) {
        Some(2)
    } else if contains_seq(ni, nc) && nc.len() >= MIN_REVERSE_LEN {
        Some(3)
    } else {
        None
    }
}

/// The score of an acronym against the query: exact match, or acronym
/// contained in the query.
pub open spec fn acronym_score(input: Seq<u8>, acronym: Seq<u8>) -> Option<int> {
    let ni = normalized(input);
    let na = normalized(acronym);
    if ni.len() == 0 || na.len() == 0 {
        None
    } else if ni == na {
        Some(0)
    } else if contains_seq(ni, na) && na.len() >= MIN_ACRONYM_LEN {
        Some(2)
    } else {
        None
    }
}

/// The view of an optional byte string, the missing case as `None`.
pub open spec fn opt_view(o: Option<Vec<u8>>) -> Option<Seq<u8>> {
    match o {
        Some(v) => Some(v@),
        None => None,
    }
}

/// The view of an optional byte string, the missing case as empty.
pub open spec fn opt_or_empty(o: Option<Vec<u8>>) -> Seq<u8> {
    match o {
        Some(v) => v@,
        None => Seq::empty(),
    }
}

/// The best (lowest) of the title score and the acronym score of one
/// catalog record, `None` when neither qualifies.
pub open spec fn entry_score(input: Seq<u8>, e: UmuEntry) -> Option<int> {
    let ts = match e.title {
        Some(t) => title_score(input, t@),
        None => None,
    };
    let asc = match e.acronym {
        Some(a) => acronym_score(input, a@),
        None => None,
    };
    match (ts, asc) {
        (Some(t), Some(a)) => Some(if a < t { a } else { t }),
        (Some(t), None) => Some(t),
        (None, Some(a)) => Some(a),
        (None, None) => None,
    }
}

/// The identity of a catalog record for deduplication: catalog id, store
/// and codename, missing fields as empty.
pub open spec fn entry_key(e: UmuEntry) -> (Seq<u8>, Seq<u8>, Seq<u8>) {
    (opt_or_empty(e.umu_id), opt_or_empty(e.store), opt_or_empty(e.codename))
}

/// The fields of an entry are pairwise equal.
pub open spec fn entry_eq(a: UmuEntry, b: UmuEntry) -> bool {
    &&& opt_view(a.title) == opt_view(b.title)
    &&& opt_view(a.umu_id) == opt_view(b.umu_id)
    &&& opt_view(a.acronym) == opt_view(b.acronym)
    &&& opt_view(a.codename) == opt_view(b.codename)
    &&& opt_view(a.store) == opt_view(b.store)
    &&& opt_view(a.exe_string) == opt_view(b.exe_string)
    &&& opt_view(a.notes) == opt_view(b.notes)
}

/// The ranking order of two matches: ascending score, then ascending
/// title length, then lexicographic title, then lexicographic store.
pub open spec fn match_le(a: UmuMatch, b: UmuMatch) -> bool {
    let at = opt_or_empty(a.entry.title);
    let bt = opt_or_empty(b.entry.title);
    let asv = opt_or_empty(a.entry.store);
    let bsv = opt_or_empty(b.entry.store);
    if a.score != b.score {
        a.score < b.score
    } else if at.len() != bt.len() {
        at.len() < bt.len()
    } else if at != bt {
        lex_le(at, bt)
    } else {
        lex_le(asv, bsv)
    }
}

/// Normalize a title: keep only ASCII letters and digits, case folded.
pub fn normalize_title(title: &[u8]) -> (r: Vec<u8>)
    ensures
        r@ == normalized(title@),
{
    let n = title.len();
    let mut r: Vec<u8> = Vec::new();
    let mut i: usize = 0;
    proof {
        assert(title@.subrange(0, 0) =~= Seq::<u8>::empty());
    }
    while i < n
        invariant
            n == title@.len(),
            i <= n,
            r@ == normalized(title@.subrange(0, i as int)),
        decreases n - i,
    {
        let b = title[i];
        proof {
            assert(title@.subrange(0, i + 1).drop_last() =~= title@.subrange(0, i as int));
            assert(title@.subrange(0, i + 1).last() == title@[i as int]);
        }
        if is_alnum_exec(b) {
            r.push(lower_byte_exec(b));
        }
        i = i + 1;
    }
    proof {
        assert(title@.subrange(0, n as int) =~= title@);
    }
    r
}

/// The views of a vector of byte strings.
pub open spec fn word_views(v: Seq<Vec<u8>>) -> Seq<Seq<u8>> {
    v.map_values(|x: Vec<u8>| x@)
}

/// Split a title into its case-folded alphanumeric words.
pub fn normalize_words(value: &[u8]) -> (r: Vec<Vec<u8>>)
    ensures
        word_views(r@) == words_of(value@),
{
    let n = value.len();
    let mut r: Vec<Vec<u8>> = Vec::new();
    let mut cur: Vec<u8> = Vec::new();
    let mut i: usize = 0;
    proof {
        assert(word_views(r@) =~= Seq::<Seq<u8>>::empty());
        assert(cur@ =~= Seq::<u8>::empty());
    }
    while i < n
        invariant
            n == value@.len(),
            i <= n,
            words_of(value@) == words_from(value@, i as int, cur@, word_views(r@)),
        decreases n - i,
    {
        let b = value[i];
        if is_alnum_exec(b) {
            cur.push(lower_byte_exec(b));
        } else {
            if cur.len() > 0 {
                proof {
                    assert(word_views(r@.push(cur)) =~= word_views(r@).push(cur@));
                }
                r.push(cur);
            }
            cur = Vec::new();
        }
        i = i + 1;
    }
    if cur.len() > 0 {
        proof {
            assert(word_views(r@.push(cur)) =~= word_views(r@).push(cur@));
        }
        r.push(cur);
    }
    r
}

/// Does the word list contain this word?
fn word_list_contains(words: &Vec<Vec<u8>>, w: &[u8]) -> (r: bool)
    ensures
        r == word_views(words@).contains(w@),
{
    let n = words.len();
    let mut i: usize = 0;
    while i < n
        invariant
            n == words@.len(),
            i <= n,
            forall|k: int| 0 <= k < i ==> word_views(words@)[k] != w@,
        decreases n - i,
    {
        if seq_eq(words[i].as_slice(), w) {
            proof {
                assert(word_views(words@)[i as int] == w@);
            }
            return true;
        }
        i = i + 1;
    }
    false
}

/// Score a candidate title against the query; `None` when it does not
/// qualify.
pub fn score_match(input: &[u8], candidate: &[u8]) -> (r: Option<i32>)
    ensures
        match r {
            Some(v) => title_score(input@, candidate@) == Some(v as int),
            None => title_score(input@, candidate@) is None,
        },
{
    let ni = normalize_title(input);
    let nc = normalize_title(candidate);
    if ni.len() == 0 || nc.len() == 0 {
        return None;
    }
    if seq_eq(nc.as_slice(), ni.as_slice()) {
        return Some(0);
    }
    if contains_bytes(nc.as_slice(), ni.as_slice()) {
        return Some(1);
    }
    let input_words = normalize_words(input);
    let candidate_words = normalize_words(candidate);
    if input_words.len() > 0 {
        let mut all_in: bool = true;
        let wn = input_words.len();
        let mut k: usize = 0;
        while all_in && k < wn
            invariant
                wn == input_words@.len(),
                k <= wn,
                word_views(input_words@) == words_of(input@),
                word_views(candidate_words@) == words_of(candidate@),
                all_in ==> forall|t: int|
                    0 <= t < k ==> words_of(candidate@).contains(
                        #[trigger] words_of(input@)[t],
                    ),
                !all_in ==> exists|t: int|
                    0 <= t < words_of(input@).len() && !words_of(candidate@).contains(
                        #[trigger] words_of(input@)[t],
                    ),
            decreases wn - k,
        {
            if !word_list_contains(&candidate_words, input_words[k].as_slice()) {
                proof {
                    assert(!words_of(candidate@).contains(words_of(input@)[k as int]));
                }
                all_in = false;
            }
            k = k + 1;
        }
        if all_in {
            return Some(2);
        }
    }
    if nc.len() >= MIN_REVERSE_LEN && contains_bytes(ni.as_slice(), nc.as_slice()) {
        return Some(3);
    }
    None
}

/// Score an acronym against the query; `None` when it does not qualify.
pub fn score_acronym(input: &[u8], acronym: &[u8]) -> (r: Option<i32>)
    ensures
        match r {
            Some(v) => acronym_score(input@, acronym@) == Some(v as int),
            None => acronym_score(input@, acronym@) is None,
        },
{
    let ni = normalize_title(input);
    let na = normalize_title(acronym);
    if ni.len() == 0 || na.len() == 0 {
        return None;
    }
    if seq_eq(ni.as_slice(), na.as_slice()) {
        return Some(0);
    }
    if na.len() >= MIN_ACRONYM_LEN && contains_bytes(ni.as_slice(), na.as_slice()) {
        return Some(2);
    }
    None
}

/// Copy an optional byte string.
fn copy_opt(o: &Option<Vec<u8>>) -> (r: Option<Vec<u8>>)
    ensures
        opt_view(r) == opt_view(*o),
{
    match o {
        Some(v) => Some(crate::text::subvec(v.as_slice(), 0, v.len())),
        None => None,
    }
}

/// Copy a catalog record field by field.
pub fn duplicate_entry(e: &UmuEntry) -> (r: UmuEntry)
    ensures
        entry_eq(r, *e),
        entry_key(r) == entry_key(*e),
{
    UmuEntry {
        title: copy_opt(&e.title),
        umu_id: copy_opt(&e.umu_id),
        acronym: copy_opt(&e.acronym),
        codename: copy_opt(&e.codename),
        store: copy_opt(&e.store),
        exe_string: copy_opt(&e.exe_string),
        notes: copy_opt(&e.notes),
    }
}

/// Equality of two optional byte strings, a missing one counting as
/// empty.
fn opt_empty_eq(x: &Option<Vec<u8>>, y: &Option<Vec<u8>>) -> (r: bool)
    ensures
        r == (opt_or_empty(*x) == opt_or_empty(*y)),
{
    match (x, y) {
        (Some(a), Some(b)) => seq_eq(a.as_slice(), b.as_slice()),
        (Some(a), None) => {
            proof {
                if a@.len() == 0 {
                    assert(a@ =~= Seq::<u8>::empty());
                }
            }
            a.len() == 0
        },
        (None, Some(b)) => {
            proof {
                if b@.len() == 0 {
                    assert(b@ =~= Seq::<u8>::empty());
                }
            }
            b.len() == 0
        },
        (None, None) => true,
    }
}

/// Length of an optional byte string, a missing one counting as empty.
fn opt_len(o: &Option<Vec<u8>>) -> (r: usize)
    ensures
        r == opt_or_empty(*o).len(),
{
    match o {
        Some(v) => v.len(),
        None => 0,
    }
}

/// Lexicographic comparison of optional byte strings, a missing one
/// counting as empty.
fn opt_lex_le(x: &Option<Vec<u8>>, y: &Option<Vec<u8>>) -> (r: bool)
    ensures
        r == lex_le(opt_or_empty(*x), opt_or_empty(*y)),
{
    match (x, y) {
        (Some(a), Some(b)) => lex_le_exec(a.as_slice(), b.as_slice()),
        (None, _) => true,
        (Some(a), None) => a.len() == 0,
    }
}

/// Do two catalog records carry the same (catalog id, store, codename)
/// identity?
pub fn key_eq(a: &UmuEntry, b: &UmuEntry) -> (r: bool)
    ensures
        r == (entry_key(*a) == entry_key(*b)),
{
    opt_empty_eq(&a.umu_id, &b.umu_id) && opt_empty_eq(&a.store, &b.store) && opt_empty_eq(
        &a.codename,
        &b.codename,
    )
}

/// The best score of one catalog record against the query.
pub fn entry_score_exec(input: &[u8], e: &UmuEntry) -> (r: Option<i32>)
    ensures
        match r {
            Some(v) => entry_score(input@, *e) == Some(v as int),
            None => entry_score(input@, *e) is None,
        },
{
    let ts: Option<i32> = match &e.title {
        Some(t) => score_match(input, t.as_slice()),
        None => None,
    };
    let asc: Option<i32> = match &e.acronym {
        Some(a) => score_acronym(input, a.as_slice()),
        None => None,
    };
    match (ts, asc) {
        (Some(t), Some(a)) => Some(if a < t { a } else { t }),
        (Some(t), None) => Some(t),
        (None, Some(a)) => Some(a),
        (None, None) => None,
    }
}

/// Ranking comparison of two matches.
fn match_le_exec(a: &UmuMatch, b: &UmuMatch) -> (r: bool)
    ensures
        r == match_le(*a, *b),
{
    if a.score != b.score {
        return a.score < b.score;
    }
    let al = opt_len(&a.entry.title);
    let bl = opt_len(&b.entry.title);
    if al != bl {
        return al < bl;
    }
    if !opt_empty_eq(&a.entry.title, &b.entry.title) {
        return opt_lex_le(&a.entry.title, &b.entry.title);
    }
    opt_lex_le(&a.entry.store, &b.entry.store)
}

/// `match_le` is total.
proof fn lemma_match_le_total(a: UmuMatch, b: UmuMatch)
    ensures
        match_le(a, b) || match_le(b, a),
{
    lemma_lex_le_total(opt_or_empty(a.entry.title), opt_or_empty(b.entry.title));
    lemma_lex_le_total(opt_or_empty(a.entry.store), opt_or_empty(b.entry.store));
}

/// `match_le` is transitive.
proof fn lemma_match_le_trans(a: UmuMatch, b: UmuMatch, c: UmuMatch)
    requires
        match_le(a, b),
        match_le(b, c),
    ensures
        match_le(a, c),
{
    let at = opt_or_empty(a.entry.title);
    let bt = opt_or_empty(b.entry.title);
    let ct = opt_or_empty(c.entry.title);
    if a.score == b.score && b.score == c.score && at.len() == bt.len() && bt.len() == ct.len() {
        if at != bt && bt != ct {
            lemma_lex_le_trans(at, bt, ct);
            if at == ct {
                lemma_lex_le_antisym(at, bt);
            }
        } else if at == bt && bt != ct {
            assert(lex_le(bt, ct));
        } else if at != bt && bt == ct {
            assert(lex_le(at, bt));
        } else {
            lemma_lex_le_trans(
                opt_or_empty(a.entry.store),
                opt_or_empty(b.entry.store),
                opt_or_empty(c.entry.store),
            );
        }
    }
}

/// Every match was produced by some catalog record, with that record's
/// score.
pub open spec fn sound_matches(title: Seq<u8>, entries: Seq<UmuEntry>, ms: Seq<UmuMatch>) -> bool {
    forall|i: int|
        0 <= i < ms.len() ==> exists|k: int|
            0 <= k < entries.len() && entry_eq((#[trigger] ms[i]).entry, entries[k]) && entry_score(
                title,
                entries[k],
            ) == Some(ms[i].score as int)
}

/// No two matches share a catalog identity.
pub open spec fn keys_distinct(ms: Seq<UmuMatch>) -> bool {
    forall|i: int, j: int|
        0 <= i < j < ms.len() ==> entry_key((#[trigger] ms[i]).entry) != entry_key(
            (#[trigger] ms[j]).entry,
        )
}

/// No match of `a` shares a catalog identity with a match of `b`.
pub open spec fn keys_disjoint(a: Seq<UmuMatch>, b: Seq<UmuMatch>) -> bool {
    forall|i: int, j: int|
        0 <= i < a.len() && 0 <= j < b.len() ==> entry_key((#[trigger] a[i]).entry) != entry_key(
            (#[trigger] b[j]).entry,
        )
}

/// Some match carries this catalog identity.
pub open spec fn key_present(key: (Seq<u8>, Seq<u8>, Seq<u8>), ms: Seq<UmuMatch>) -> bool {
    exists|i: int| 0 <= i < ms.len() && entry_key((#[trigger] ms[i]).entry) == key
}

/// Every qualifying catalog record has its identity represented.
pub open spec fn keys_cover(title: Seq<u8>, entries: Seq<UmuEntry>, ms: Seq<UmuMatch>) -> bool {
    forall|k: int|
        0 <= k < entries.len() && entry_score(title, #[trigger] entries[k]) is Some
            ==> key_present(entry_key(entries[k]), ms)
}

/// The matches are in ranking order.
pub open spec fn matches_sorted(ms: Seq<UmuMatch>) -> bool {
    forall|i: int, j: int| 0 <= i < j < ms.len() ==> match_le(#[trigger] ms[i], #[trigger] ms[j])
}

/// Is this record's catalog identity already among the matches?
fn has_key(ms: &Vec<UmuMatch>, e: &UmuEntry) -> (r: bool)
    ensures
        r == key_present(entry_key(*e), ms@),
{
    let n = ms.len();
    let mut i: usize = 0;
    while i < n
        invariant
            n == ms@.len(),
            i <= n,
            forall|t: int| 0 <= t < i ==> entry_key((#[trigger] ms@[t]).entry) != entry_key(*e),
        decreases n - i,
    {
        if key_eq(&ms[i].entry, e) {
            return true;
        }
        i = i + 1;
    }
    false
}

/// Sort matches into ranking order, preserving their other properties.
fn sort_matches(title: Ghost<Seq<u8>>, entries: Ghost<Seq<UmuEntry>>, v: Vec<UmuMatch>) -> (r:
    Vec<UmuMatch>)
    requires
        sound_matches(title@, entries@, v@),
        keys_distinct(v@),
        keys_cover(title@, entries@, v@),
    ensures
        matches_sorted(r@),
        sound_matches(title@, entries@, r@),
        keys_distinct(r@),
        keys_cover(title@, entries@, r@),
        r@.len() == v@.len(),
{
    let mut rest = v;
    let mut out: Vec<UmuMatch> = Vec::new();
    let ghost total: int = rest@.len() as int;
    while rest.len() > 0
        invariant
            matches_sorted(out@),
            forall|i: int, j: int|
                0 <= i < out@.len() && 0 <= j < rest@.len() ==> match_le(
                    #[trigger] out@[i],
                    #[trigger] rest@[j],
                ),
            sound_matches(title@, entries@, out@),
            sound_matches(title@, entries@, rest@),
            keys_distinct(out@),
            keys_distinct(rest@),
            keys_disjoint(out@, rest@),
            keys_cover(title@, entries@, out@ + rest@),
            out@.len() + rest@.len() == total,
        decreases rest@.len(),
    {
        let n = rest.len();
        let mut m: usize = 0;
        let mut k: usize = 1;
        proof {
            lemma_match_le_total(rest@[0], rest@[0]);
        }
        while k < n
            invariant
                n == rest@.len(),
                m < n,
                k <= n,
                forall|t: int| 0 <= t < k ==> match_le(rest@[m as int], #[trigger] rest@[t]),
            decreases n - k,
        {
            if match_le_exec(&rest[k], &rest[m]) {
                proof {
                    assert forall|t: int| 0 <= t < k implies match_le(
                        rest@[k as int],
                        #[trigger] rest@[t],
                    ) by {
                        lemma_match_le_trans(rest@[k as int], rest@[m as int], rest@[t]);
                    }
                    lemma_match_le_total(rest@[k as int], rest@[k as int]);
                }
                m = k;
            } else {
                proof {
                    lemma_match_le_total(rest@[k as int], rest@[m as int]);
                }
            }
            k = k + 1;
        }
        let ghost old_out = out@;
        let ghost old_rest = rest@;
        let e = rest.remove(m);
        out.push(e);
        proof {
            assert(out@ =~= old_out.push(e));
            assert(rest@ =~= old_rest.remove(m as int));
            assert forall|i: int, j: int|
                0 <= i < out@.len() && 0 <= j < rest@.len() implies match_le(
                #[trigger] out@[i],
                #[trigger] rest@[j],
            ) by {
                assert(rest@[j] == if j < m { old_rest[j] } else {
                    old_rest[j + 1]
                });
            }
            assert forall|k2: int|
                0 <= k2 < entries@.len() && entry_score(title@, #[trigger] entries@[k2]) is Some
                    implies key_present(entry_key(entries@[k2]), out@ + rest@) by {
                let key = entry_key(entries@[k2]);
                assert(key_present(key, old_out + old_rest));
                let w = choose|w: int|
                    0 <= w < (old_out + old_rest).len() && entry_key(
                        (#[trigger] (old_out + old_rest)[w]).entry,
                    ) == key;
                if w < old_out.len() {
                    assert((out@ + rest@)[w] == old_out[w]);
                } else {
                    let u = w - old_out.len();
                    if u == m {
                        assert((out@ + rest@)[out@.len() - 1] == e);
                    } else if u < m {
                        assert((out@ + rest@)[out@.len() + u] == old_rest[u]);
                    } else {
                        assert((out@ + rest@)[out@.len() + u - 1] == old_rest[u]);
                    }
                }
            }
        }
    }
    out
}

/// Rank the catalog records against a query title.
///
/// The result is in ranking order, carries no two records with the same
/// catalog identity, holds at most `MAX_MATCHES` records, and consists
/// exactly of qualifying records: every match scores as its record does,
/// and as long as the cap is not hit, every qualifying identity appears.
pub fn find_umu_matches(title: &[u8], entries: &Vec<UmuEntry>) -> (r: Vec<UmuMatch>)
    ensures
        matches_sorted(r@),
        keys_distinct(r@),
        r@.len() <= MAX_MATCHES,
        sound_matches(title@, entries@, r@),
        r@.len() < MAX_MATCHES ==> keys_cover(title@, entries@, r@),
        normalized(title@).len() == 0 ==> r@.len() == 0,
{
    let nt = normalize_title(title);
    if nt.len() == 0 {
        let r: Vec<UmuMatch> = Vec::new();
        return r;
    }
    let n = entries.len();
    let mut matches: Vec<UmuMatch> = Vec::new();
    let mut i: usize = 0;
    while i < n
        invariant
            n == entries@.len(),
            i <= n,
            sound_matches(title@, entries@, matches@),
            keys_distinct(matches@),
            forall|k: int|
                0 <= k < i && entry_score(title@, #[trigger] entries@[k]) is Some ==> key_present(
                    entry_key(entries@[k]),
                    matches@,
                ),
        decreases n - i,
    {
        let ghost old_matches = matches@;
        match entry_score_exec(title, &entries[i]) {
            Some(sc) => {
                if has_key(&matches, &entries[i]) {
                    proof {
                        assert(key_present(entry_key(entries@[i as int]), matches@));
                    }
                } else {
                    let m = UmuMatch { entry: duplicate_entry(&entries[i]), score: sc };
                    proof {
                        assert(entry_key(m.entry) == entry_key(entries@[i as int]));
                        assert(entry_eq(m.entry, entries@[i as int]));
                    }
                    matches.push(m);
                    proof {
                        assert forall|t: int|
                            0 <= t < matches@.len() implies exists|k: int|
                            0 <= k < entries@.len() && entry_eq(
                                (#[trigger] matches@[t]).entry,
                                entries@[k],
                            ) && entry_score(title@, entries@[k]) == Some(
                                matches@[t].score as int,
                            ) by {
                            if t < old_matches.len() {
                                assert(matches@[t] == old_matches[t]);
                            } else {
                                assert(matches@[t] == m);
                                assert(entry_eq(m.entry, entries@[i as int]));
                                assert(entry_score(title@, entries@[i as int]) == Some(
                                    sc as int,
                                ));
                            }
                        }
                        assert(entry_key((matches@[matches@.len() - 1]).entry) == entry_key(
                            entries@[i as int],
                        ));
                        assert(key_present(entry_key(entries@[i as int]), matches@));
                    }
                }
            },
            None => {},
        }
        proof {
            assert forall|k: int|
                0 <= k < i + 1 && entry_score(title@, #[trigger] entries@[k]) is Some
                    implies key_present(entry_key(entries@[k]), matches@) by {
                if k < i {
                    assert(key_present(entry_key(entries@[k]), old_matches));
                    let w = choose|w: int|
                        0 <= w < old_matches.len() && entry_key(
                            (#[trigger] old_matches[w]).entry,
                        ) == entry_key(entries@[k]);
                    assert(matches@[w] == old_matches[w]);
                }
            }
        }
        i = i + 1;
    }
    let sorted = sort_matches(Ghost(title@), Ghost(entries@), matches);
    let mut r = sorted;
    let ghost before = r@;
    r.truncate(MAX_MATCHES);
    proof {
        if before.len() > MAX_MATCHES {
            assert(r@ =~= before.subrange(0, MAX_MATCHES as int));
        } else {
            assert(r@ == before);
        }
    }
    r
}

/// The catalog as a whole: the loading policy and the shared title
/// normalization.
pub struct UmuDatabase;

impl UmuDatabase {
    /// Normalize a title to its matching key.
    pub fn normalize_title(title: &[u8]) -> (r: Vec<u8>)
        ensures
            r@ == normalized(title@),
    {
        normalize_title(title)
    }

    /// Decide what the catalog is, given the outcome of a remote fetch
    /// and of reading the local cache: fresh entries win and are worth
    /// caching; otherwise the cache stands in; with neither, the fetch
    /// error is reported.  The second component says whether the entries
    /// should be written to the cache.
    pub fn load_or_fetch(fetch: Result<Vec<UmuEntry>, Vec<u8>>, cache: Option<Vec<UmuEntry>>) -> (r:
        (Result<Vec<UmuEntry>, Vec<u8>>, bool))
        ensures
            fetch is Ok ==> r.0 == fetch && r.1,
            fetch is Err && cache is Some ==> (match cache {
                Some(c) => r.0 == Ok::<Vec<UmuEntry>, Vec<u8>>(c),
                None => false,
            }) && !r.1,
            fetch is Err && cache is None ==> r.0 == fetch && !r.1,
    {
        match fetch {
            Ok(v) => (Ok(v), true),
            Err(e) => match cache {
                Some(c) => (Ok(c), false),
                None => (Err(e), false),
            },
        }
    }
}

} // verus!
