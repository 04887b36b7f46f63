//! The search index engine: a mapping from lower-cased file paths to
//! their original-case form, rebuilt wholesale from a directory walk, and
//! a multi-term AND-query over it. The engine itself is pure state; the
//! process glue owns the lock around it, walks the filesystem, and runs
//! the rebuild on a background task between [`SearchEngine::begin_refresh`]
//! and [`SearchEngine::finish_refresh`].

use vstd::prelude::*;
use vstd::pervasive::VecAdditionalExecFns;

use crate::error::ClipError;
use crate::strutil::{
    contains_seq, distinct_seqs, last_index_of, lex_sorted, lower_of, lowercase, rfind_char,
    str_eq, vec_contains_str,
};

verus! {

/// The file-name component of a path: everything after the last slash,
/// or the whole path when there is none.
pub open spec fn file_name_of(path: Seq<char>) -> Seq<char> {
    path.subrange(last_index_of(path, '/') + 1, path.len() as int)
}

/// The extension of a path: what follows the last dot of its file name,
/// empty when the file name has no dot or only a leading one.
pub open spec fn extension_of(path: Seq<char>) -> Seq<char> {
    let name = file_name_of(path);
    let d = last_index_of(name, '.');
    if d <= 0 {
        Seq::empty()
    } else {
        name.subrange(d + 1, name.len() as int)
    }
}

/// Extract the extension of a path.
pub fn extension_str(path: &str) -> (r: String)
    ensures
        r@ == extension_of(path@),
{
    let n = path.unicode_len();
    let start = match rfind_char(path, '/') {
        Some(i) => i + 1,
        None => 0,
    };
    let name = path.substring_char(start, n);
    proof {
        assert(name@ == file_name_of(path@));
    }
    let m = name.unicode_len();
    match rfind_char(name, '.') {
        None => String::new(),
        Some(d) => {
            if d == 0 {
                String::new()
            } else {
                String::from_str(name.substring_char(d + 1, m))
            }
        },
    }
}

/// A file belongs in the index when the allowed set is empty or names
/// its extension.
pub open spec fn ext_allowed(path: Seq<char>, exts: Seq<Seq<char>>) -> bool {
    exts.len() == 0 || exts.contains(extension_of(path))
}

/// The index that a walk result builds: later files win on key clashes,
/// and files whose extension is not allowed are left out.
pub open spec fn index_map_of(files: Seq<Seq<char>>, exts: Seq<Seq<char>>) -> Map<
    Seq<char>,
    Seq<char>,
>
    decreases files.len(),
{
    if files.len() == 0 {
        Map::empty()
    } else {
        let m = index_map_of(files.drop_last(), exts);
        if ext_allowed(files.last(), exts) {
            m.insert(lower_of(files.last()), files.last())
        } else {
            m
        }
    }
}

/// One indexed file: its lower-cased path (the search key) and the path
/// as the walker reported it.
struct IndexEntry {
    key: String,
    path: String,
}

/// The key/path pairs a sequence of entries stands for.
spec fn pairs_of(v: Seq<IndexEntry>) -> Seq<(Seq<char>, Seq<char>)> {
    Seq::new(v.len(), |i: int| (v[i].key@, v[i].path@))
}

/// The keys of a sequence of key/path pairs.
pub open spec fn pair_keys(s: Seq<(Seq<char>, Seq<char>)>) -> Seq<Seq<char>> {
    Seq::new(s.len(), |i: int| s[i].0)
}

/// The mapping a sequence of key/path pairs stands for, later pairs
/// winning on key clashes.
spec fn map_of_pairs(s: Seq<(Seq<char>, Seq<char>)>) -> Map<Seq<char>, Seq<char>>
    decreases s.len(),
{
    if s.len() == 0 {
        Map::empty()
    } else {
        map_of_pairs(s.drop_last()).insert(s.last().0, s.last().1)
    }
}

/// Updating the value at a position whose key is unique turns the map of
/// the pairs into an insert on that key.
proof fn lemma_map_of_pairs_update(s: Seq<(Seq<char>, Seq<char>)>, j: int, v: Seq<char>)
    requires
        distinct_seqs(pair_keys(s)),
        0 <= j < s.len(),
    ensures
        map_of_pairs(s.update(j, (s[j].0, v))) == map_of_pairs(s).insert(s[j].0, v),
    decreases s.len(),
{
    let t = s.update(j, (s[j].0, v));
    if j == s.len() - 1 {
        assert(t.drop_last() =~= s.drop_last());
        assert(t.last() == (s[j].0, v));
        assert(map_of_pairs(t) =~= map_of_pairs(s).insert(s[j].0, v));
    } else {
        let u = s.drop_last();
        assert forall|a: int, b: int| 0 <= a < b < pair_keys(u).len() implies pair_keys(u)[a]
            != pair_keys(u)[b] by {
            assert(pair_keys(s)[a] == pair_keys(u)[a]);
            assert(pair_keys(s)[b] == pair_keys(u)[b]);
        }
        lemma_map_of_pairs_update(u, j, v);
        assert(t.drop_last() =~= u.update(j, (s[j].0, v)));
        assert(t.last() == s.last());
        assert(pair_keys(s)[j] != pair_keys(s)[s.len() - 1]);
        assert(map_of_pairs(t) == map_of_pairs(u).insert(s[j].0, v).insert(
            s.last().0,
            s.last().1,
        ));
        assert(map_of_pairs(u).insert(s[j].0, v).insert(s.last().0, s.last().1)
            =~= map_of_pairs(u).insert(s.last().0, s.last().1).insert(s[j].0, v));
    }
}

/// With distinct keys, membership in the map is membership among the
/// pairs.
proof fn lemma_map_of_pairs_members(s: Seq<(Seq<char>, Seq<char>)>)
    requires
        distinct_seqs(pair_keys(s)),
    ensures
        forall|k: Seq<char>, v: Seq<char>| #[trigger]
            map_of_pairs(s).contains_pair(k, v) <==> s.contains((k, v)),
    decreases s.len(),
{
    if s.len() > 0 {
        let u = s.drop_last();
        let lk = s.last().0;
        let lv = s.last().1;
        assert forall|a: int, b: int| 0 <= a < b < pair_keys(u).len() implies pair_keys(u)[a]
            != pair_keys(u)[b] by {
            assert(pair_keys(s)[a] == pair_keys(u)[a]);
            assert(pair_keys(s)[b] == pair_keys(u)[b]);
        }
        lemma_map_of_pairs_members(u);
        assert forall|k: Seq<char>, v: Seq<char>| #[trigger]
            map_of_pairs(s).contains_pair(k, v) implies s.contains((k, v)) by {
            if k == lk {
                assert(v == lv);
                assert(s[s.len() - 1] == (k, v));
            } else {
                assert(map_of_pairs(u).contains_pair(k, v));
                assert(u.contains((k, v)));
                let w = choose|w: int| 0 <= w < u.len() && u[w] == (k, v);
                assert(s[w] == (k, v));
            }
        }
        assert forall|k: Seq<char>, v: Seq<char>| s.contains((k, v)) implies #[trigger]
            map_of_pairs(s).contains_pair(k, v) by {
            let w = choose|w: int| 0 <= w < s.len() && s[w] == (k, v);
            if w == s.len() - 1 {
                assert(map_of_pairs(s).contains_pair(lk, lv));
            } else {
                assert(u[w] == (k, v));
                assert(u.contains((k, v)));
                assert(map_of_pairs(u).contains_pair(k, v));
                assert(pair_keys(s)[w] == k);
                assert(pair_keys(s)[s.len() - 1] == lk);
                assert(k != lk);
            }
        }
    }
}

/// The engine: the current index, the single-flight refresh flag, and
/// the immutable source settings every rebuild reads.
pub struct SearchEngine {
    index: Vec<IndexEntry>,
    refreshing: bool,
    source_dirs: Vec<String>,
    allowed_exts: Vec<String>,
}

impl SearchEngine {
    /// The indexed key/path pairs, in index order.
    pub closed spec fn entries(self) -> Seq<(Seq<char>, Seq<char>)> {
        pairs_of(self.index@)
    }

    /// Whether a rebuild is currently in flight.
    pub closed spec fn refreshing_flag(self) -> bool {
        self.refreshing
    }

    /// The configured root directories.
    pub closed spec fn dirs(self) -> Seq<Seq<char>> {
        self.source_dirs.deep_view()
    }

    /// The configured allowed extensions; empty means every file.
    pub closed spec fn exts(self) -> Seq<Seq<char>> {
        self.allowed_exts.deep_view()
    }

    /// The mapping from lower-cased path to original path the index
    /// stands for.
    pub closed spec fn index_map(self) -> Map<Seq<char>, Seq<char>> {
        map_of_pairs(self.entries())
    }

    /// Each key is the lower-cased form of its path, and no key repeats.
    pub open spec fn wf(self) -> bool {
        &&& distinct_seqs(pair_keys(self.entries()))
        &&& forall|i: int|
            0 <= i < self.entries().len() ==> (#[trigger] self.entries()[i]).0 == lower_of(
                self.entries()[i].1,
            )
    }

    /// A fresh engine with the given source settings and an empty index.
    /// The caller performs the initial index build before serving
    /// queries, through the refresh cycle.
    pub fn new(source_dirs: Vec<String>, allowed_exts: Vec<String>) -> (e: SearchEngine)
        ensures
            e.wf(),
            e.entries().len() == 0,
            !e.refreshing_flag(),
            e.dirs() == source_dirs.deep_view(),
            e.exts() == allowed_exts.deep_view(),
    {
        let e = SearchEngine { index: Vec::new(), refreshing: false, source_dirs, allowed_exts };
        proof {
            assert(e.entries() =~= Seq::<(Seq<char>, Seq<char>)>::empty());
        }
        e
    }

    /// Snapshot of the refresh flag.
    pub fn is_refreshing(&self) -> (r: bool)
        ensures
            r == self.refreshing_flag(),
    {
        self.refreshing
    }

    /// Claim the single refresh slot. Fails exactly when a rebuild is
    /// already in flight; on success the flag is set and the caller owns
    /// the rebuild until it hands the result to `finish_refresh`.
    pub fn begin_refresh(&mut self) -> (r: Result<(), ClipError>)
        ensures
            r is Ok <==> !old(self).refreshing_flag(),
            r is Err ==> *final(self) == *old(self) && r == Err::<(), ClipError>(
                ClipError::RefreshInProgress,
            ),
            r is Ok ==> final(self).refreshing_flag() && final(self).entries() == old(
                self,
            ).entries() && final(self).dirs() == old(self).dirs() && final(self).exts() == old(
                self,
            ).exts(),
    {
        if self.refreshing {
            return Err(ClipError::RefreshInProgress);
        }
        self.refreshing = true;
        Ok(())
    }

    /// Install the result of a rebuild: replace the whole index with the
    /// one the walked `files` build, and clear the refresh flag. Files
    /// whose extension is not allowed are left out; of two files with
    /// the same lower-cased path, the later one wins.
    pub fn finish_refresh(&mut self, files: &Vec<String>)
        ensures
            final(self).wf(),
            !final(self).refreshing_flag(),
            final(self).dirs() == old(self).dirs(),
            final(self).exts() == old(self).exts(),
            final(self).index_map() == index_map_of(files.deep_view(), old(self).exts()),
    {
        let ghost fdeep = files.deep_view();
        let ghost exts_deep = self.allowed_exts.deep_view();
        let mut new_index: Vec<IndexEntry> = Vec::new();
        proof {
            assert(pairs_of(new_index@) =~= Seq::<(Seq<char>, Seq<char>)>::empty());
            assert(fdeep.take(0) =~= Seq::<Seq<char>>::empty());
            assert(map_of_pairs(pairs_of(new_index@)) =~= index_map_of(fdeep.take(0), exts_deep));
        }
        let n = files.len();
        for i in 0..n
            invariant
                n == files.len(),
                fdeep == files.deep_view(),
                exts_deep == self.allowed_exts.deep_view(),
                *self == *old(self),
                distinct_seqs(pair_keys(pairs_of(new_index@))),
                forall|t: int|
                    0 <= t < pairs_of(new_index@).len() ==> (#[trigger] pairs_of(new_index@)[t]).0
                        == lower_of(pairs_of(new_index@)[t].1),
                map_of_pairs(pairs_of(new_index@)) == index_map_of(fdeep.take(i as int), exts_deep),
        {
            proof {
                assert(files[i as int]@ == fdeep[i as int]);
            }
            let allowed: bool = if self.allowed_exts.len() == 0 {
                true
            } else {
                let e = extension_str(files[i].as_str());
                vec_contains_str(&self.allowed_exts, e.as_str())
            };
            proof {
                assert(allowed == ext_allowed(fdeep[i as int], exts_deep));
            }
            let ghost pre_pairs = pairs_of(new_index@);
            if allowed {
                let key = lowercase(files[i].as_str());
                let path = files[i].clone();
                match find_key(&new_index, key.as_str()) {
                    Some(j) => {
                        proof {
                            assert(pre_pairs[j as int].0 == key@);
                        }
                        new_index.set(j, IndexEntry { key, path });
                        proof {
                            assert(pairs_of(new_index@) =~= pre_pairs.update(
                                j as int,
                                (pre_pairs[j as int].0, fdeep[i as int]),
                            ));
                            lemma_map_of_pairs_update(pre_pairs, j as int, fdeep[i as int]);
                            assert(pair_keys(pairs_of(new_index@)) =~= pair_keys(pre_pairs));
                        }
                    },
                    None => {
                        new_index.push(IndexEntry { key, path });
                        proof {
                            let now = pairs_of(new_index@);
                            assert(now =~= pre_pairs.push(
                                (lower_of(fdeep[i as int]), fdeep[i as int]),
                            ));
                            assert(now.drop_last() =~= pre_pairs);
                            assert forall|a: int, b: int|
                                0 <= a < b < pair_keys(now).len() implies pair_keys(now)[a]
                                != pair_keys(now)[b] by {
                                if b < now.len() - 1 {
                                    assert(pair_keys(pre_pairs)[a] == pair_keys(now)[a]);
                                    assert(pair_keys(pre_pairs)[b] == pair_keys(now)[b]);
                                } else {
                                    assert(pair_keys(now)[a] == pre_pairs[a].0);
                                }
                            }
                        }
                    },
                }
            }
            proof {
                assert(fdeep.take(i + 1).drop_last() =~= fdeep.take(i as int));
                assert(fdeep.take(i + 1).last() == fdeep[i as int]);
                if allowed {
                    assert(map_of_pairs(pairs_of(new_index@)) == index_map_of(
                        fdeep.take(i as int),
                        exts_deep,
                    ).insert(lower_of(fdeep[i as int]), fdeep[i as int]));
                }
                assert(map_of_pairs(pairs_of(new_index@)) == index_map_of(
                    fdeep.take(i + 1),
                    exts_deep,
                ));
            }
        }
        self.index = new_index;
        self.refreshing = false;
        proof {
            assert(fdeep.take(n as int) =~= fdeep);
        }
    }
}

/// Law: the index maps lower-cased paths to their original form: every
/// pair of the index map has its key equal to the lower-cased value.
pub proof fn lemma_index_keys_are_lowered(e: SearchEngine)
    requires
        e.wf(),
    ensures
        forall|k: Seq<char>, v: Seq<char>| #[trigger]
            e.index_map().contains_pair(k, v) ==> k == lower_of(v),
{
    lemma_map_of_pairs_members(e.entries());
    assert forall|k: Seq<char>, v: Seq<char>| #[trigger]
        e.index_map().contains_pair(k, v) implies k == lower_of(v) by {
        assert(e.entries().contains((k, v)));
        let w = choose|w: int| 0 <= w < e.entries().len() && e.entries()[w] == (k, v);
        assert(e.entries()[w].0 == lower_of(e.entries()[w].1));
    }
}

/// A key matches a query when it contains the lower-cased form of every
/// term, in any order.
pub open spec fn key_matches_terms(key: Seq<char>, terms: Seq<Seq<char>>) -> bool {
    forall|i: int| 0 <= i < terms.len() ==> contains_seq(key, lower_of(#[trigger] terms[i]))
}

impl SearchEngine {
    /// Query the index: return, sorted and without duplicates, every
    /// indexed path whose lower-cased form contains every term,
    /// case-insensitively. An empty term list returns an empty result at
    /// once, before the index is even read.
    pub fn search(&self, terms: &Vec<String>) -> (r: Vec<String>)
        requires
            self.wf(),
        ensures
            terms@.len() == 0 ==> r@.len() == 0,
            terms@.len() > 0 ==> ({
                &&& lex_sorted(r.deep_view())
                &&& r.deep_view().no_duplicates()
                &&& forall|p: Seq<char>| #[trigger]
                    r.deep_view().contains(p) <==> exists|k: Seq<char>|
                        (#[trigger] self.index_map().contains_pair(k, p)) && key_matches_terms(
                            k,
                            terms.deep_view(),
                        )
            }),
    {
        let tn = terms.len();
        if tn == 0 {
            return Vec::new();
        }
        let mut lowered: Vec<String> = Vec::new();
        for ti in 0..tn
            invariant
                tn == terms@.len(),
                lowered@.len() == ti,
                forall|q: int|
                    0 <= q < ti ==> lowered.deep_view()[q] == lower_of(
                        #[trigger] terms.deep_view()[q],
                    ),
        {
            proof {
                assert(terms[ti as int]@ == terms.deep_view()[ti as int]);
            }
            let ghost pre = lowered.deep_view();
            lowered.push(lowercase(terms[ti].as_str()));
            proof {
                assert(lowered.deep_view() =~= pre.push(lower_of(terms.deep_view()[ti as int])));
            }
        }
        // filter with the first term, then narrow with each further term
        let mut cands = filter_entries(&self.index, lowered[0].as_str());
        proof {
            assert forall|pr: (Seq<char>, Seq<char>)| #[trigger]
                pairs_of(cands@).contains(pr) <==> (pairs_of(self.index@).contains(pr)
                && (forall|q: int|
                    0 <= q < 1 ==> contains_seq(pr.0, #[trigger] lowered.deep_view()[q]))) by {
                assert(lowered[0 as int]@ == lowered.deep_view()[0]);
            }
        }
        let mut t: usize = 1;
        while t < tn
            invariant
                1 <= t <= tn,
                tn == terms@.len(),
                lowered@.len() == tn,
                forall|q: int|
                    0 <= q < tn ==> lowered.deep_view()[q] == lower_of(
                        #[trigger] terms.deep_view()[q],
                    ),
                distinct_seqs(pair_keys(pairs_of(self.index@))),
                distinct_seqs(pair_keys(pairs_of(cands@))),
                forall|pr: (Seq<char>, Seq<char>)| #[trigger]
                    pairs_of(cands@).contains(pr) <==> (pairs_of(self.index@).contains(pr) && (
                    forall|q: int|
                        0 <= q < t ==> contains_seq(pr.0, #[trigger] lowered.deep_view()[q]))),
            decreases tn - t,
        {
            let ghost before = pairs_of(cands@);
            let next = filter_entries(&cands, lowered[t].as_str());
            proof {
                assert(lowered[t as int]@ == lowered.deep_view()[t as int]);
                assert forall|pr: (Seq<char>, Seq<char>)| #[trigger]
                    pairs_of(next@).contains(pr) <==> (pairs_of(self.index@).contains(pr) && (
                    forall|q: int|
                        0 <= q < t + 1 ==> contains_seq(
                            pr.0,
                            #[trigger] lowered.deep_view()[q],
                        ))) by {
                    if pairs_of(next@).contains(pr) {
                        assert(before.contains(pr));
                    }
                    if pairs_of(self.index@).contains(pr) && (forall|q: int|
                        0 <= q < t + 1 ==> contains_seq(pr.0, #[trigger] lowered.deep_view()[q])) {
                        assert(forall|q: int|
                            0 <= q < t ==> contains_seq(pr.0, #[trigger] lowered.deep_view()[q]));
                        assert(before.contains(pr));
                        assert(contains_seq(pr.0, lowered.deep_view()[t as int]));
                    }
                }
            }
            cands = next;
            t = t + 1;
        }
        // keep the original-case paths and sort them
        let cn = cands.len();
        let mut paths: Vec<String> = Vec::new();
        for ci in 0..cn
            invariant
                cn == cands@.len(),
                paths@.len() == ci,
                forall|x: int|
                    0 <= x < ci ==> paths.deep_view()[x] == (#[trigger] pairs_of(cands@)[x]).1,
        {
            let ghost pre = paths.deep_view();
            paths.push(cands[ci].path.clone());
            proof {
                assert(paths.deep_view() =~= pre.push(pairs_of(cands@)[ci as int].1));
            }
        }
        proof {
            // every candidate pair is an index pair, so its key is the
            // lower-cased path; with distinct keys the paths are distinct
            assert forall|a: int, b: int|
                0 <= a < b < paths.deep_view().len() implies paths.deep_view()[a]
                != paths.deep_view()[b] by {
                let pa = pairs_of(cands@)[a];
                let pb = pairs_of(cands@)[b];
                assert(pairs_of(cands@).contains(pa));
                assert(pairs_of(cands@).contains(pb));
                lemma_pair_is_lowered(*self, pa);
                lemma_pair_is_lowered(*self, pb);
                assert(pair_keys(pairs_of(cands@))[a] == pa.0);
                assert(pair_keys(pairs_of(cands@))[b] == pb.0);
            }
            paths.deep_view().lemma_multiset_has_no_duplicates();
        }
        let r = crate::strutil::sort_strings(paths);
        proof {
            broadcast use vstd::seq_lib::group_to_multiset_ensures;

            r.deep_view().lemma_multiset_has_no_duplicates_conv();
            lemma_map_of_pairs_members(self.entries());
            assert forall|p: Seq<char>| #[trigger]
                r.deep_view().contains(p) <==> exists|k: Seq<char>|
                    (#[trigger] self.index_map().contains_pair(k, p)) && key_matches_terms(
                        k,
                        terms.deep_view(),
                    ) by {
                if r.deep_view().contains(p) {
                    assert(r.deep_view().to_multiset().count(p) > 0);
                    assert(paths.deep_view().to_multiset().count(p) > 0);
                    assert(paths.deep_view().contains(p));
                    let w = choose|w: int|
                        0 <= w < paths.deep_view().len() && paths.deep_view()[w] == p;
                    let pr = pairs_of(cands@)[w];
                    assert(pairs_of(cands@).contains(pr));
                    assert(pairs_of(self.index@).contains(pr));
                    assert(self.entries().contains((pr.0, p)));
                    assert(self.index_map().contains_pair(pr.0, p));
                    assert forall|q: int|
                        0 <= q < terms.deep_view().len() implies contains_seq(
                        pr.0,
                        lower_of(#[trigger] terms.deep_view()[q]),
                    ) by {
                        assert(contains_seq(pr.0, lowered.deep_view()[q]));
                    }
                    assert(key_matches_terms(pr.0, terms.deep_view()));
                }
                if exists|k: Seq<char>|
                    (#[trigger] self.index_map().contains_pair(k, p)) && key_matches_terms(
                        k,
                        terms.deep_view(),
                    ) {
                    let k = choose|k: Seq<char>|
                        (#[trigger] self.index_map().contains_pair(k, p)) && key_matches_terms(
                            k,
                            terms.deep_view(),
                        );
                    assert(self.entries().contains((k, p)));
                    assert forall|q: int|
                        0 <= q < tn implies contains_seq(
                        k,
                        #[trigger] lowered.deep_view()[q],
                    ) by {
                        assert(contains_seq(k, lower_of(terms.deep_view()[q])));
                    }
                    assert(pairs_of(cands@).contains((k, p)));
                    let w = choose|w: int|
                        0 <= w < pairs_of(cands@).len() && pairs_of(cands@)[w] == (k, p);
                    assert(paths.deep_view()[w] == p);
                    assert(paths.deep_view().contains(p));
                    assert(paths.deep_view().to_multiset().count(p) > 0);
                    assert(r.deep_view().to_multiset().count(p) > 0);
                    assert(r.deep_view().contains(p));
                }
            }
        }
        r
    }
}

/// A pair drawn from the engine's index has its key equal to the
/// lower-cased path.
proof fn lemma_pair_is_lowered(e: SearchEngine, pr: (Seq<char>, Seq<char>))
    requires
        e.wf(),
        pairs_of(e.index@).contains(pr),
    ensures
        pr.0 == lower_of(pr.1),
{
    let w = choose|w: int| 0 <= w < pairs_of(e.index@).len() && pairs_of(e.index@)[w] == pr;
    assert(e.entries()[w] == pr);
}

/// Keep only the entries whose key contains `needle`, in order.
fn filter_entries(src: &Vec<IndexEntry>, needle: &str) -> (out: Vec<IndexEntry>)
    ensures
        forall|pr: (Seq<char>, Seq<char>)| #[trigger]
            pairs_of(out@).contains(pr) <==> pairs_of(src@).contains(pr) && contains_seq(
                pr.0,
                needle@,
            ),
        distinct_seqs(pair_keys(pairs_of(src@))) ==> distinct_seqs(pair_keys(pairs_of(out@))),
{
    let n = src.len();
    let mut out: Vec<IndexEntry> = Vec::new();
    proof {
        assert(pairs_of(out@) =~= Seq::<(Seq<char>, Seq<char>)>::empty());
    }
    for j in 0..n
        invariant
            n == src@.len(),
            forall|pr: (Seq<char>, Seq<char>)| #[trigger]
                pairs_of(out@).contains(pr) <==> ((exists|t: int|
                    0 <= t < j && #[trigger] pairs_of(src@)[t] == pr) && contains_seq(
                    pr.0,
                    needle@,
                )),
            forall|x: Seq<char>| #[trigger]
                pair_keys(pairs_of(out@)).contains(x) ==> exists|t: int|
                    0 <= t < j && #[trigger] pairs_of(src@)[t].0 == x,
            distinct_seqs(pair_keys(pairs_of(src@))) ==> distinct_seqs(pair_keys(pairs_of(out@))),
    {
        proof {
            assert(pairs_of(src@)[j as int] == (src@[j as int].key@, src@[j as int].path@));
        }
        if crate::strutil::str_contains(src[j].key.as_str(), needle) {
            let ghost pre = pairs_of(out@);
            let e = copy_entry(&src[j]);
            out.push(e);
            proof {
                let now = pairs_of(out@);
                assert(now =~= pre.push(pairs_of(src@)[j as int]));
                assert(now.drop_last() =~= pre);
                assert(pair_keys(now).drop_last() =~= pair_keys(pre));
                assert forall|pr: (Seq<char>, Seq<char>)| #[trigger]
                    now.contains(pr) <==> ((exists|t: int|
                        0 <= t < j + 1 && #[trigger] pairs_of(src@)[t] == pr) && contains_seq(
                        pr.0,
                        needle@,
                    )) by {
                    if now.contains(pr) {
                        let w = choose|w: int| 0 <= w < now.len() && now[w] == pr;
                        if w < pre.len() {
                            assert(pre.contains(pr));
                        } else {
                            assert(pairs_of(src@)[j as int] == pr);
                        }
                    }
                    if (exists|t: int| 0 <= t < j + 1 && #[trigger] pairs_of(src@)[t] == pr)
                        && contains_seq(pr.0, needle@) {
                        let t = choose|t: int| 0 <= t < j + 1 && #[trigger] pairs_of(src@)[t] == pr;
                        if t < j {
                            assert(pre.contains(pr));
                            let w = choose|w: int| 0 <= w < pre.len() && pre[w] == pr;
                            assert(now[w] == pr);
                        } else {
                            assert(now[now.len() - 1] == pr);
                        }
                    }
                }
                if distinct_seqs(pair_keys(pairs_of(src@))) {
                    assert forall|a: int, b: int|
                        0 <= a < b < pair_keys(now).len() implies pair_keys(now)[a] != pair_keys(
                        now,
                    )[b] by {
                        if b == now.len() - 1 {
                            assert(pair_keys(now)[a] == pair_keys(pre)[a]);
                            assert(pair_keys(pre).contains(pair_keys(pre)[a]));
                            let t = choose|t: int|
                                0 <= t < j && #[trigger] pairs_of(src@)[t].0 == pair_keys(pre)[a];
                            assert(pair_keys(pairs_of(src@))[t] == pair_keys(pre)[a]);
                            assert(pair_keys(pairs_of(src@))[j as int] == pair_keys(now)[b]);
                        } else {
                            assert(pair_keys(now)[a] == pair_keys(pre)[a]);
                            assert(pair_keys(now)[b] == pair_keys(pre)[b]);
                        }
                    }
                }
                assert forall|x: Seq<char>| #[trigger]
                    pair_keys(now).contains(x) implies exists|t: int|
                    0 <= t < j + 1 && #[trigger] pairs_of(src@)[t].0 == x by {
                    let w = choose|w: int| 0 <= w < pair_keys(now).len() && pair_keys(now)[w] == x;
                    if w < pre.len() {
                        assert(pair_keys(pre)[w] == x);
                        assert(pair_keys(pre).contains(x));
                    } else {
                        assert(pairs_of(src@)[j as int].0 == x);
                    }
                }
            }
        } else {
            proof {
                assert forall|pr: (Seq<char>, Seq<char>)| #[trigger]
                    pairs_of(out@).contains(pr) <==> ((exists|t: int|
                        0 <= t < j + 1 && #[trigger] pairs_of(src@)[t] == pr) && contains_seq(
                        pr.0,
                        needle@,
                    )) by {
                    if (exists|t: int| 0 <= t < j + 1 && #[trigger] pairs_of(src@)[t] == pr)
                        && contains_seq(pr.0, needle@) {
                        let t = choose|t: int| 0 <= t < j + 1 && #[trigger] pairs_of(src@)[t] == pr;
                        assert(t < j);
                    }
                }
            }
        }
    }
    proof {
        assert forall|pr: (Seq<char>, Seq<char>)| #[trigger]
            pairs_of(out@).contains(pr) <==> pairs_of(src@).contains(pr) && contains_seq(
            pr.0,
            needle@,
        ) by {
            if pairs_of(src@).contains(pr) {
                let t = choose|t: int|
                    0 <= t < pairs_of(src@).len() && #[trigger] pairs_of(src@)[t] == pr;
            }
        }
    }
    out
}

/// Duplicate an entry field by field.
fn copy_entry(e: &IndexEntry) -> (r: IndexEntry)
    ensures
        r.key@ == e.key@,
        r.path@ == e.path@,
{
    IndexEntry { key: e.key.clone(), path: e.path.clone() }
}

/// Find the entry holding exactly this key, if any.
fn find_key(v: &Vec<IndexEntry>, key: &str) -> (r: Option<usize>)
    ensures
        match r {
            Some(j) => j < v@.len() && v@[j as int].key@ == key@,
            None => forall|t: int| 0 <= t < v@.len() ==> v@[t].key@ != key@,
        },
{
    let n = v.len();
    for j in 0..n
        invariant
            n == v@.len(),
            forall|t: int| 0 <= t < j ==> v@[t].key@ != key@,
    {
        if str_eq(v[j].key.as_str(), key) {
            return Some(j);
        }
    }
    None
}

} // verus!
