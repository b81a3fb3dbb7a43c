//! The library catalog: which files are listed, the metadata read back from their tags, the
//! order of the listing, and the cache of metadata by file path.

use vstd::prelude::*;
use vstd::seq_lib::lemma_multiset_commutative;
use crate::article::ArticleMetadata;
use crate::dates::{unix_time_of, unix_time_spec, RecordedTime};
use crate::pipeline::{audio_file_name, temp_file_name};
use crate::text::{is_truncation, truncate_to_bytes, StrEncoding};

verus! {

// ---------------------------------------------------------------------------------------------
// Listing

/// A file is listed when its name has the extension `mp3` (and a stem before it).
pub open spec fn is_listed_name(name: Seq<char>) -> bool {
    name.len() > 4 && name.subrange(name.len() - 4, name.len() as int) == ".mp3"@
}

/// Whether a file of the audio directory belongs in the catalog.
pub fn is_listed_file_name(name: &str) -> (r: bool)
    ensures
        r == is_listed_name(name@),
{
    let cs = crate::text::chars_of(name);
    let n = cs.len();
    proof {
        reveal_strlit(".mp3");
    }
    if n <= 4 {
        return false;
    }
    let r = cs[n - 4] == '.' && cs[n - 3] == 'm' && cs[n - 2] == 'p' && cs[n - 1] == '3';
    proof {
        let tail = name@.subrange(n - 4, n as int);
        if r {
            assert(tail =~= ".mp3"@);
        } else {
            if tail == ".mp3"@ {
                assert(tail[0] == '.' && tail[1] == 'm' && tail[2] == 'p' && tail[3] == '3');
            }
        }
    }
    r
}

/// A file being written is never listed; a finished one is.
pub proof fn lemma_temp_file_never_listed(id: Seq<char>)
    ensures
        !is_listed_name(temp_file_name(id)),
        id.len() > 0 ==> is_listed_name(audio_file_name(id)),
{
    reveal_strlit(".mp3");
    reveal_strlit(".mp3.tmp");
    let t = temp_file_name(id);
    let tail = t.subrange(t.len() - 4, t.len() as int);
    assert(tail[3] == 'p');
    assert(".mp3"@[3] == '3');
    let f = audio_file_name(id);
    assert(f.subrange(f.len() - 4, f.len() as int) =~= ".mp3"@);
}

// ---------------------------------------------------------------------------------------------
// Order of the listing

/// How recent an entry is: its time added, with an unknown time before every known one.
pub open spec fn recency(t: Option<u64>) -> int {
    match t {
        Some(s) => s as int,
        None => -1,
    }
}

/// Most recently added first; entries without a time last.
pub open spec fn newest_first(v: Seq<ArticleMetadata>) -> bool {
    forall|i: int, j: int|
        0 <= i < j < v.len() ==> recency(#[trigger] v[i].datetime_added) >= recency(
            #[trigger] v[j].datetime_added,
        )
}

fn is_older(a: Option<u64>, b: Option<u64>) -> (r: bool)
    ensures
        r == (recency(a) < recency(b)),
{
    match (a, b) {
        (_, None) => false,
        (None, Some(_)) => true,
        (Some(x), Some(y)) => x < y,
    }
}

/// `r[i]` is `s[idx[i]]`, each entry of `s` used at most once, and entries of equal recency in
/// the order they have in `s`.
pub open spec fn stable_arrangement(s: Seq<ArticleMetadata>, r: Seq<ArticleMetadata>, idx: Seq<int>) -> bool {
    &&& idx.len() == r.len()
    &&& forall|i: int| 0 <= i < r.len() ==> 0 <= #[trigger] idx[i] < s.len() && r[i] == s[idx[i]]
    &&& forall|i: int, j: int| 0 <= i < j < r.len() ==> #[trigger] idx[i] != #[trigger] idx[j]
    &&& forall|i: int, j: int|
        0 <= i < j < r.len() && recency(#[trigger] r[i].datetime_added) == recency(
            #[trigger] r[j].datetime_added,
        ) ==> idx[i] < idx[j]
}

/// Sorts the catalog, most recently added first and entries without a time last. Entries added
/// at the same time keep their order.
pub fn sort_newest_first(entries: Vec<ArticleMetadata>) -> (r: Vec<ArticleMetadata>)
    ensures
        newest_first(r@),
        r@.to_multiset() == entries@.to_multiset(),
        exists|idx: Seq<int>| stable_arrangement(entries@, r@, idx),
{
    let mut out: Vec<ArticleMetadata> = Vec::new();
    let mut rest = entries;
    let ghost all = rest@;
    // Take entries from the back; each goes after every entry at least as recent, so among
    // equals the one taken later (from further front) ends up first.
    let ghost mut idx: Seq<int> = Seq::empty();
    proof {
        assert(all.subrange(0, all.len() as int) =~= all);
        assert(out@ =~= Seq::<ArticleMetadata>::empty());
        assert(all.subrange(all.len() as int, all.len() as int) =~= Seq::<ArticleMetadata>::empty());
        assert(out@ == all.subrange(all.len() as int, all.len() as int));
    }
    while rest.len() > 0
        invariant
            rest@ == all.subrange(0, rest@.len() as int),
            rest@.len() <= all.len(),
            newest_first(out@),
            out@.to_multiset() == all.subrange(rest@.len() as int, all.len() as int).to_multiset(),
            stable_arrangement(all, out@, idx),
            forall|i: int| 0 <= i < idx.len() ==> rest@.len() <= #[trigger] idx[i],
        decreases rest@.len(),
    {
        let x = rest.pop().unwrap();
        let ghost k = rest@.len();
        let mut p: usize = 0;
        while p < out.len() && is_older(x.datetime_added, out[p].datetime_added)
            invariant
                p <= out@.len(),
                forall|q: int| 0 <= q < p ==> recency(x.datetime_added) < recency(
                    #[trigger] out@[q].datetime_added,
                ),
            decreases out@.len() - p,
        {
            p = p + 1;
        }
        let ghost before = out@;
        let ghost xv = x;
        out.insert(p, x);
        proof {
            let old_idx = idx;
            idx = old_idx.insert(p as int, k as int);
            assert(all[k as int] == xv);
            assert forall|i: int| 0 <= i < out@.len() implies 0 <= #[trigger] idx[i] < all.len()
                && out@[i] == all[idx[i]] by {
                if i < p {
                } else if i == p {
                } else {
                    assert(idx[i] == old_idx[i - 1]);
                    assert(out@[i] == before[i - 1]);
                }
            }
            assert forall|i: int, j: int| 0 <= i < j < out@.len() implies #[trigger] idx[i] != #[trigger] idx[j] by {
                if i == p {
                    assert(k <= old_idx[j - 1] && old_idx[j - 1] != k) by {
                        assert(k < old_idx[j - 1]);
                    }
                } else if j == p {
                    assert(k < old_idx[i]);
                } else if i < p && j < p {
                    assert(old_idx[i] != old_idx[j]);
                } else if i < p {
                    assert(old_idx[i] != old_idx[j - 1]);
                } else {
                    assert(old_idx[i - 1] != old_idx[j - 1]);
                }
            }
            assert forall|i: int, j: int| 0 <= i < j < out@.len() && recency(
                #[trigger] out@[i].datetime_added,
            ) == recency(#[trigger] out@[j].datetime_added) implies idx[i] < idx[j] by {
                if i == p {
                    assert(idx[j] == old_idx[j - 1]);
                    assert(k < old_idx[j - 1]);
                } else if j == p {
                    assert(out@[i] == before[i]);
                    assert(recency(xv.datetime_added) < recency(before[i].datetime_added));
                } else if i < p && j < p {
                    assert(out@[i] == before[i] && out@[j] == before[j]);
                } else if i < p {
                    assert(out@[i] == before[i] && out@[j] == before[j - 1]);
                } else {
                    assert(out@[i] == before[i - 1] && out@[j] == before[j - 1]);
                }
            }
            assert forall|i: int| 0 <= i < idx.len() implies rest@.len() <= #[trigger] idx[i] by {
                if i < p {
                    assert(k < old_idx[i]);
                } else if i > p {
                    assert(idx[i] == old_idx[i - 1]);
                }
            }
            assert forall|i: int, j: int| 0 <= i < j < out@.len() implies recency(
                #[trigger] out@[i].datetime_added,
            ) >= recency(#[trigger] out@[j].datetime_added) by {
                if j < p {
                } else if j == p {
                    assert(out@[i] == before[i]);
                } else if i < p {
                    assert(out@[j] == before[j - 1]);
                    assert(out@[i] == before[i]);
                } else if i == p {
                    assert(out@[j] == before[j - 1]);
                    assert(recency(xv.datetime_added) >= recency(before[p as int].datetime_added));
                    if j - 1 > p {
                        assert(recency(before[p as int].datetime_added) >= recency(before[j - 1].datetime_added));
                    }
                } else {
                    assert(out@[j] == before[j - 1]);
                    assert(out@[i] == before[i - 1]);
                }
            }
            assert(out@ =~= before.subrange(0, p as int).push(xv) + before.subrange(
                p as int,
                before.len() as int,
            ));
            lemma_multiset_commutative(before.subrange(0, p as int).push(xv), before.subrange(
                p as int,
                before.len() as int,
            ));
            lemma_multiset_commutative(before.subrange(0, p as int), before.subrange(
                p as int,
                before.len() as int,
            ));
            assert(before =~= before.subrange(0, p as int) + before.subrange(
                p as int,
                before.len() as int,
            ));
            before.subrange(0, p as int).to_multiset_ensures();
            let tail = all.subrange(k as int, all.len() as int);
            assert(tail =~= seq![xv] + all.subrange(k + 1 as int, all.len() as int));
            lemma_multiset_commutative(seq![xv], all.subrange(k + 1 as int, all.len() as int));
            Seq::<ArticleMetadata>::empty().to_multiset_ensures();
            assert(seq![xv] =~= Seq::<ArticleMetadata>::empty().push(xv));
            assert(rest@ =~= all.subrange(0, k as int));
        }
    }
    proof {
        assert(all.subrange(0, all.len() as int) =~= all);
        assert(stable_arrangement(entries@, out@, idx));
    }
    out
}

// ---------------------------------------------------------------------------------------------
// Metadata

/// The longest title shown, in UTF-16 code units.
pub const MAX_TITLE_UTF16_CODEUNITS: usize = 300;

/// The fields read from an audio file's tags, each when present.
#[derive(Debug)]
pub struct TagFields {
    pub title: Option<String>,
    /// The source URL, kept in the artist field.
    pub artist: Option<String>,
    pub duration_secs: Option<u64>,
    pub recorded: Option<RecordedTime>,
}

pub open spec fn opt_view(o: Option<String>) -> Option<Seq<char>> {
    match o {
        Some(s) => Some(s@),
        None => None,
    }
}

/// The time an article was added: the recorded time of its tags when that is a real time at or
/// after the epoch, else the file's modification time.
pub open spec fn added_time(recorded: Option<RecordedTime>, last_modified: Option<u64>) -> Option<u64> {
    match recorded {
        Some(t) => match unix_time_spec(t) {
            Some(s) => Some(s),
            None => last_modified,
        },
        None => last_modified,
    }
}

/// The metadata of the audio file whose stem is `id`, from its tags if it has any. Without tags,
/// or for a field the tags lack, the title is the ID, and the time added is the file's
/// modification time.
pub fn metadata_from_tags(id: String, last_modified: Option<u64>, tags: Option<TagFields>) -> (r:
    ArticleMetadata)
    ensures
        r.id@ == id@,
        tags is None ==> r.title@ == id@ && r.source_url is None && r.duration is None
            && r.datetime_added == last_modified,
        tags matches Some(t) ==> {
            &&& r.title@ == match t.title {
                Some(s) => s@,
                None => id@,
            }
            &&& opt_view(r.source_url) == opt_view(t.artist)
            &&& r.duration == t.duration_secs
            &&& r.datetime_added == added_time(t.recorded, last_modified)
        },
{
    match tags {
        None => {
            let title = id.clone();
            ArticleMetadata { id, title, duration: None, datetime_added: last_modified, source_url: None }
        },
        Some(t) => {
            let title = match t.title {
                Some(s) => s,
                None => id.clone(),
            };
            let added = match t.recorded {
                Some(rec) => match unix_time_of(&rec) {
                    Some(s) => Some(s),
                    None => last_modified,
                },
                None => last_modified,
            };
            ArticleMetadata {
                id,
                title,
                duration: t.duration_secs,
                datetime_added: added,
                source_url: t.artist,
            }
        },
    }
}

/// The metadata of a newly stored article: its title cut to what the interface can show (at
/// most 300 UTF-16 code units), added at `added`.
pub fn new_article_metadata(
    id: String,
    title: &str,
    duration: Option<u64>,
    added: u64,
    source_url: Option<String>,
) -> (r: ArticleMetadata)
    ensures
        r.id@ == id@,
        is_truncation(title@, 2 * MAX_TITLE_UTF16_CODEUNITS as nat, StrEncoding::Utf16, r.title@),
        r.duration == duration,
        r.datetime_added == Some(added),
        opt_view(r.source_url) == opt_view(source_url),
{
    let title = truncate_to_bytes(title, 2 * MAX_TITLE_UTF16_CODEUNITS, StrEncoding::Utf16);
    ArticleMetadata { id, title, duration, datetime_added: Some(added), source_url }
}

// ---------------------------------------------------------------------------------------------
// Cache

/// No path appears twice.
spec fn keys_unique(es: Seq<(String, ArticleMetadata)>) -> bool {
    forall|i: int, j: int|
        0 <= i < j < es.len() ==> (#[trigger] es[i]).0@ != (#[trigger] es[j]).0@
}

/// The entries as a map from path to metadata.
spec fn entries_map(es: Seq<(String, ArticleMetadata)>) -> Map<Seq<char>, ArticleMetadata> {
    Map::new(
        |p: Seq<char>| exists|i: int| 0 <= i < es.len() && es[i].0@ == p,
        |p: Seq<char>| es[choose|i: int| 0 <= i < es.len() && es[i].0@ == p].1,
    )
}

proof fn lemma_entries_map_at(es: Seq<(String, ArticleMetadata)>, k: int)
    requires
        keys_unique(es),
        0 <= k < es.len(),
    ensures
        entries_map(es).contains_key(es[k].0@),
        entries_map(es)[es[k].0@] == es[k].1,
{
    let q = es[k].0@;
    let c = choose|i: int| 0 <= i < es.len() && es[i].0@ == q;
    assert(0 <= c < es.len() && es[c].0@ == q);
    if c < k {
        assert(es[c].0@ != es[k].0@);
    } else if c > k {
        assert(es[k].0@ != es[c].0@);
    }
}

fn find_entry(es: &Vec<(String, ArticleMetadata)>, path: &String) -> (r: Option<usize>)
    ensures
        r matches Some(i) ==> i < es@.len() && es@[i as int].0@ == path@,
        r is None ==> forall|i: int| 0 <= i < es@.len() ==> (#[trigger] es@[i]).0@ != path@,
{
    let mut i: usize = 0;
    while i < es.len()
        invariant
            i <= es@.len(),
            forall|j: int| 0 <= j < i ==> (#[trigger] es@[j]).0@ != path@,
        decreases es@.len() - i,
    {
        if es[i].0 == *path {
            return Some(i);
        }
        i = i + 1;
    }
    None
}

/// Metadata already read, by file path. Nothing is ever invalidated: a file changed behind the
/// process's back keeps its old metadata until the process restarts.
pub struct MetadataCache {
    entries: Vec<(String, ArticleMetadata)>,
}

impl MetadataCache {
    /// The cached metadata by path.
    pub closed spec fn view(&self) -> Map<Seq<char>, ArticleMetadata> {
        entries_map(self.entries@)
    }

    #[verifier::type_invariant]
    spec fn wf(&self) -> bool {
        keys_unique(self.entries@)
    }

    pub fn new() -> (r: MetadataCache)
        ensures
            r@ == Map::<Seq<char>, ArticleMetadata>::empty(),
    {
        let r = MetadataCache { entries: Vec::new() };
        assert(r@ =~= Map::<Seq<char>, ArticleMetadata>::empty());
        r
    }

    /// The cached metadata of the file at `path`.
    pub fn get(&self, path: &str) -> (r: Option<&ArticleMetadata>)
        ensures
            r matches Some(m) ==> self@.contains_key(path@) && self@[path@] == *m,
            r is None ==> !self@.contains_key(path@),
    {
        proof {
            use_type_invariant(self);
        }
        let key = String::from_str(path);
        match find_entry(&self.entries, &key) {
            Some(i) => {
                proof {
                    lemma_entries_map_at(self.entries@, i as int);
                }
                Some(&self.entries[i].1)
            },
            None => None,
        }
    }

    /// Caches `meta` as the metadata of the file at `path`.
    pub fn insert(&mut self, path: String, meta: ArticleMetadata)
        ensures
            final(self)@ == old(self)@.insert(path@, meta),
    {
        proof {
            use_type_invariant(&*self);
        }
        let ghost p = path@;
        let ghost m = meta;
        let mut es: Vec<(String, ArticleMetadata)> = Vec::new();
        std::mem::swap(&mut es, &mut self.entries);
        let ghost pre = es@;
        let found = find_entry(&es, &path);
        let ghost expected = entries_map(pre).insert(p, m);
        match found {
            Some(i) => {
                es.set(i, (path, meta));
                proof {
                    let post = es@;
                    assert(keys_unique(post));
                    assert forall|q: Seq<char>| #[trigger] entries_map(post).contains_key(q)
                        == expected.contains_key(q) by {
                        if q == p {
                            assert(post[i as int].0@ == p);
                        } else if entries_map(pre).contains_key(q) {
                            let k = choose|k: int| 0 <= k < pre.len() && pre[k].0@ == q;
                            assert(post[k] == pre[k]);
                        } else if entries_map(post).contains_key(q) {
                            let k = choose|k: int| 0 <= k < post.len() && post[k].0@ == q;
                            assert(post[k] == pre[k]);
                        }
                    }
                    assert forall|q: Seq<char>| entries_map(post).contains_key(q) implies #[trigger] entries_map(post)[q] == expected[q] by {
                        if q == p {
                            lemma_entries_map_at(post, i as int);
                        } else {
                            let k = choose|k: int| 0 <= k < post.len() && post[k].0@ == q;
                            lemma_entries_map_at(post, k);
                            lemma_entries_map_at(pre, k);
                        }
                    }
                    assert(entries_map(post) =~= expected);
                }
            },
            None => {
                es.push((path, meta));
                proof {
                    let post = es@;
                    let n = pre.len() as int;
                    assert(keys_unique(post));
                    assert forall|q: Seq<char>| #[trigger] entries_map(post).contains_key(q)
                        == expected.contains_key(q) by {
                        if q == p {
                            assert(post[n].0@ == p);
                        } else if entries_map(pre).contains_key(q) {
                            let k = choose|k: int| 0 <= k < pre.len() && pre[k].0@ == q;
                            assert(post[k] == pre[k]);
                        } else if entries_map(post).contains_key(q) {
                            let k = choose|k: int| 0 <= k < post.len() && post[k].0@ == q;
                            assert(k != n);
                            assert(post[k] == pre[k]);
                        }
                    }
                    assert forall|q: Seq<char>| entries_map(post).contains_key(q) implies #[trigger] entries_map(post)[q] == expected[q] by {
                        if q == p {
                            lemma_entries_map_at(post, n);
                        } else {
                            let k = choose|k: int| 0 <= k < post.len() && post[k].0@ == q;
                            assert(k != n);
                            lemma_entries_map_at(post, k);
                            lemma_entries_map_at(pre, k);
                        }
                    }
                    assert(entries_map(post) =~= expected);
                }
            },
        }
        self.entries = es;
    }
}

} // verus!
