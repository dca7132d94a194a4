//! The videos of a folder: which directory entries are videos, their
//! case-insensitive alphabetical order, and browsing to a neighbouring video
//! with wrap-around at either end.

use vstd::prelude::*;
use vstd::multiset::Multiset;
use crate::order::{
    bytes_less, bytes_lt, lemma_bytes_lt_asymmetric, lemma_bytes_lt_irreflexive, lemma_bytes_lt_total,
    lemma_bytes_lt_transitive, lowercase_key, sort_key,
};
use crate::paths::{paths_equal, same_path};
use crate::videos::{is_video_path, spec_is_video_name};

verus! {

broadcast use vstd::seq_lib::group_seq_properties;

/// One entry of a directory listing, as the file system reports it: the
/// entry's full path and its file name (both as bytes, as on Unix), and
/// whether it is a regular file (following symbolic links).
pub struct FolderEntry {
    pub path: Vec<u8>,
    pub file_name: Vec<u8>,
    pub is_file: bool,
}

/// The mathematical value of a [`FolderEntry`].
pub struct FolderEntryView {
    pub path: Seq<u8>,
    pub file_name: Seq<u8>,
    pub is_file: bool,
}

impl View for FolderEntry {
    type V = FolderEntryView;

    open spec fn view(&self) -> FolderEntryView {
        FolderEntryView { path: self.path@, file_name: self.file_name@, is_file: self.is_file }
    }
}

/// The views of a sequence of entries.
pub open spec fn entry_views(entries: Seq<FolderEntry>) -> Seq<FolderEntryView> {
    entries.map_values(|e: FolderEntry| e@)
}

/// Whether an entry is a video file.
pub open spec fn is_video_entry(e: FolderEntryView) -> bool {
    e.is_file && spec_is_video_name(e.file_name)
}

/// The video entries of a listing, in listing order.
pub open spec fn video_entries(entries: Seq<FolderEntryView>) -> Seq<FolderEntryView> {
    entries.filter(|e: FolderEntryView| is_video_entry(e))
}

/// Whether `x` comes strictly before `y` by case-insensitive file name.
pub open spec fn name_before(x: FolderEntryView, y: FolderEntryView) -> bool {
    bytes_lt(sort_key(x.file_name), sort_key(y.file_name))
}

/// Inserts `x` into `s` in front of the first entry that `x` comes before,
/// that is, behind every entry whose name is not after it.
pub open spec fn insert_by_name(x: FolderEntryView, s: Seq<FolderEntryView>) -> Seq<
    FolderEntryView,
>
    decreases s.len(),
{
    if s.len() == 0 {
        seq![x]
    } else if name_before(x, s[0]) {
        seq![x] + s
    } else {
        seq![s[0]] + insert_by_name(x, s.drop_first())
    }
}

/// The stable sort of `s` by case-insensitive file name: entries with equal
/// keys keep their listing order.
pub open spec fn sort_by_name(s: Seq<FolderEntryView>) -> Seq<FolderEntryView>
    decreases s.len(),
{
    if s.len() == 0 {
        s
    } else {
        insert_by_name(s.last(), sort_by_name(s.drop_last()))
    }
}

/// The paths of a folder's videos, ordered by case-insensitive file name.
pub open spec fn spec_folder_videos(entries: Seq<FolderEntryView>) -> Seq<Seq<u8>> {
    sort_by_name(video_entries(entries)).map_values(|e: FolderEntryView| e.path)
}

/// Whether `s` is ordered by case-insensitive file name.
pub open spec fn sorted_by_name(s: Seq<FolderEntryView>) -> bool {
    forall|i: int, j: int| 0 <= i < j < s.len() ==> !#[trigger] name_before(s[j], s[i])
}

/// Inserting in front of the first entry that `x` comes before.
proof fn lemma_insert_at(x: FolderEntryView, s: Seq<FolderEntryView>, p: int)
    requires
        0 <= p <= s.len(),
        forall|k: int| 0 <= k < p ==> !name_before(x, #[trigger] s[k]),
        p < s.len() ==> name_before(x, s[p]),
    ensures
        insert_by_name(x, s) == s.take(p) + seq![x] + s.skip(p),
    decreases s.len(),
{
    if s.len() == 0 {
        assert(s.take(p) + seq![x] + s.skip(p) =~= seq![x]);
    } else if p == 0 {
        assert(s.take(p) + seq![x] + s.skip(p) =~= seq![x] + s);
    } else {
        let rest = s.drop_first();
        assert forall|k: int| 0 <= k < p - 1 implies !name_before(x, #[trigger] rest[k]) by {
            assert(rest[k] == s[k + 1]);
        }
        lemma_insert_at(x, rest, p - 1);
        assert(s.take(p) + seq![x] + s.skip(p) =~= seq![s[0]] + (rest.take(p - 1) + seq![x]
            + rest.skip(p - 1)));
    }
}

/// Inserting adds exactly one entry.
proof fn lemma_insert_multiset(x: FolderEntryView, s: Seq<FolderEntryView>)
    ensures
        insert_by_name(x, s).to_multiset() == s.to_multiset().insert(x),
    decreases s.len(),
{
    broadcast use vstd::seq_lib::group_to_multiset_ensures;

    if s.len() == 0 {
        assert(s.to_multiset() =~= Multiset::empty());
        assert(seq![x] =~= Seq::<FolderEntryView>::empty().push(x));
    } else if name_before(x, s[0]) {
        lemma_multiset_of_prepend(x, s);
    } else {
        let rest = s.drop_first();
        lemma_insert_multiset(x, rest);
        lemma_multiset_of_prepend(s[0], insert_by_name(x, rest));
        lemma_multiset_of_prepend(s[0], rest);
        assert(seq![s[0]] + rest =~= s);
    }
}

/// The multiset of `[x] + s`.
proof fn lemma_multiset_of_prepend(x: FolderEntryView, s: Seq<FolderEntryView>)
    ensures
        (seq![x] + s).to_multiset() == s.to_multiset().insert(x),
    decreases s.len(),
{
    broadcast use vstd::seq_lib::group_to_multiset_ensures;

    if s.len() == 0 {
        assert(seq![x] + s =~= Seq::<FolderEntryView>::empty().push(x));
        assert(s.to_multiset() =~= Multiset::empty());
    } else {
        lemma_multiset_of_prepend(x, s.drop_last());
        assert(seq![x] + s =~= (seq![x] + s.drop_last()).push(s.last()));
        assert(s =~= s.drop_last().push(s.last()));
    }
}

/// Sorting keeps exactly the entries it was given.
pub proof fn lemma_sort_multiset(s: Seq<FolderEntryView>)
    ensures
        sort_by_name(s).to_multiset() == s.to_multiset(),
    decreases s.len(),
{
    broadcast use vstd::seq_lib::group_to_multiset_ensures;

    if s.len() > 0 {
        lemma_sort_multiset(s.drop_last());
        lemma_insert_multiset(s.last(), sort_by_name(s.drop_last()));
        assert(s =~= s.drop_last().push(s.last()));
    }
}

/// Inserting into a sorted sequence keeps it sorted.
proof fn lemma_insert_sorted(x: FolderEntryView, s: Seq<FolderEntryView>)
    requires
        sorted_by_name(s),
    ensures
        sorted_by_name(insert_by_name(x, s)),
    decreases s.len(),
{
    broadcast use vstd::seq_lib::group_to_multiset_ensures;

    if s.len() == 0 {
    } else if name_before(x, s[0]) {
        let r = seq![x] + s;
        assert forall|i: int, j: int| 0 <= i < j < r.len() implies !#[trigger] name_before(
            r[j],
            r[i],
        ) by {
            if i == 0 {
                let kx = sort_key(x.file_name);
                let k0 = sort_key(s[0].file_name);
                let kj = sort_key(r[j].file_name);
                if j > 1 {
                    assert(!name_before(s[j - 1], s[0]));
                    lemma_bytes_lt_total(k0, kj);
                    if k0 != kj {
                        lemma_bytes_lt_transitive(kx, k0, kj);
                    }
                }
                lemma_bytes_lt_asymmetric(kx, kj);
            } else {
                assert(r[i] == s[i - 1] && r[j] == s[j - 1]);
            }
        }
    } else {
        let rest = s.drop_first();
        assert(sorted_by_name(rest)) by {
            assert forall|i: int, j: int| 0 <= i < j < rest.len() implies !#[trigger] name_before(
                rest[j],
                rest[i],
            ) by {
                assert(rest[i] == s[i + 1] && rest[j] == s[j + 1]);
            }
        }
        lemma_insert_sorted(x, rest);
        let t = insert_by_name(x, rest);
        lemma_insert_multiset(x, rest);
        let r = seq![s[0]] + t;
        assert forall|i: int, j: int| 0 <= i < j < r.len() implies !#[trigger] name_before(
            r[j],
            r[i],
        ) by {
            if i == 0 {
                let y = t[j - 1];
                assert(t.to_multiset().count(y) > 0);
                assert(rest.to_multiset().insert(x).count(y) > 0);
                if y != x {
                    assert(rest.to_multiset().count(y) > 0);
                    assert(rest.contains(y));
                    let k = choose|k: int| 0 <= k < rest.len() && rest[k] == y;
                    assert(s[k + 1] == y);
                    assert(!name_before(s[k + 1], s[0]));
                }
            } else {
                assert(r[i] == t[i - 1] && r[j] == t[j - 1]);
            }
        }
    }
}

/// Sorting by name yields a sequence ordered by name.
pub proof fn lemma_sort_sorted(s: Seq<FolderEntryView>)
    ensures
        sorted_by_name(sort_by_name(s)),
    decreases s.len(),
{
    if s.len() > 0 {
        lemma_sort_sorted(s.drop_last());
        lemma_insert_sorted(s.last(), sort_by_name(s.drop_last()));
    }
}

/// The entries that `order` lists, by their positions in `entries`.
pub open spec fn picked(entries: Seq<FolderEntry>, order: Seq<usize>) -> Seq<FolderEntryView> {
    order.map_values(|k: usize| entries[k as int]@)
}

/// The first position whose key `key` comes before: where an entry with
/// that key goes among entries sorted by `keys`.
fn insertion_point(key: &Vec<u8>, keys: &Vec<Vec<u8>>) -> (p: usize)
    ensures
        p <= keys@.len(),
        forall|k: int| 0 <= k < p ==> !bytes_lt(key@, #[trigger] keys@[k]@),
        p < keys@.len() ==> bytes_lt(key@, keys@[p as int]@),
{
    let mut p: usize = 0;
    while p < keys.len()
        invariant
            p <= keys@.len(),
            forall|k: int| 0 <= k < p ==> !bytes_lt(key@, #[trigger] keys@[k]@),
        decreases keys@.len() - p,
    {
        if bytes_less(key.as_slice(), keys[p].as_slice()) {
            return p;
        }
        p = p + 1;
    }
    p
}

/// The paths of the videos among the entries of a folder listing, ordered
/// alphabetically by file name without regard to ASCII case; entries whose
/// names differ only in case keep their listing order.
pub fn folder_videos(entries: &Vec<FolderEntry>) -> (videos: Vec<Vec<u8>>)
    ensures
        videos.deep_view() == spec_folder_videos(entry_views(entries@)),
{
    let ghost all = entry_views(entries@);
    let mut order: Vec<usize> = Vec::new();
    let mut keys: Vec<Vec<u8>> = Vec::new();
    let mut i: usize = 0;
    while i < entries.len()
        invariant
            i <= entries@.len(),
            all == entry_views(entries@),
            keys@.len() == order@.len(),
            forall|k: int| 0 <= k < order@.len() ==> #[trigger] order@[k] < entries@.len(),
            forall|k: int|
                0 <= k < order@.len() ==> #[trigger] keys@[k]@ == sort_key(
                    entries@[order@[k] as int].file_name@,
                ),
            picked(entries@, order@) == sort_by_name(video_entries(all.take(i as int))),
        decreases entries@.len() - i,
    {
        let entry = &entries[i];
        proof {
            reveal(Seq::filter);
            assert(all.take(i + 1).drop_last() =~= all.take(i as int));
            assert(all.take(i + 1).last() == entry@);
        }
        if is_video_path(entry.file_name.as_slice(), entry.is_file) {
            let key = lowercase_key(entry.file_name.as_slice());
            let p = insertion_point(&key, &keys);
            let ghost before = picked(entries@, order@);
            proof {
                assert forall|k: int| 0 <= k < p implies !name_before(entry@, #[trigger] before[k]) by {
                    assert(keys@[k]@ == sort_key(before[k].file_name));
                }
                if p < keys@.len() {
                    assert(keys@[p as int]@ == sort_key(before[p as int].file_name));
                }
                lemma_insert_at(entry@, before, p as int);
                let v = video_entries(all.take(i as int));
                assert(video_entries(all.take(i + 1)) == v.push(entry@));
                assert(v.push(entry@).drop_last() =~= v);
                assert(sort_by_name(v.push(entry@)) == insert_by_name(entry@, sort_by_name(v)));
            }
            order.insert(p, i);
            keys.insert(p, key);
            proof {
                assert(picked(entries@, order@) =~= before.take(p as int) + seq![entry@]
                    + before.skip(p as int));
                assert forall|k: int| 0 <= k < order@.len() implies #[trigger] keys@[k]@
                    == sort_key(entries@[order@[k] as int].file_name@) by {
                }
            }
        } else {
            proof {
                assert(video_entries(all.take(i + 1)) == video_entries(all.take(i as int)));
            }
        }
        i = i + 1;
    }
    proof {
        assert(all.take(entries@.len() as int) =~= all);
    }
    let mut videos: Vec<Vec<u8>> = Vec::new();
    let mut k: usize = 0;
    while k < order.len()
        invariant
            k <= order@.len(),
            forall|j: int| 0 <= j < order@.len() ==> #[trigger] order@[j] < entries@.len(),
            picked(entries@, order@) == sort_by_name(video_entries(all)),
            all == entry_views(entries@),
            videos.deep_view() == picked(entries@, order@).take(k as int).map_values(
                |e: FolderEntryView| e.path,
            ),
        decreases order@.len() - k,
    {
        let path = entries[order[k]].path.clone();
        assert(path@ =~= entries@[order@[k as int] as int].path@);
        let ghost before = videos.deep_view();
        videos.push(path);
        assert(path.deep_view() =~= path@);
        assert(videos.deep_view() =~= before.push(path@));
        assert(picked(entries@, order@).take(k + 1) =~= picked(entries@, order@).take(
            k as int,
        ).push(picked(entries@, order@)[k as int]));
        assert(videos.deep_view() =~= picked(entries@, order@).take(k + 1).map_values(
            |e: FolderEntryView| e.path,
        ));
        k = k + 1;
    }
    assert(picked(entries@, order@).take(order@.len() as int) =~= picked(entries@, order@));
    videos
}

/// `p` is the first position in `files` of a path with the components of
/// `current`.
pub open spec fn is_first_position(files: Seq<Seq<u8>>, current: Seq<u8>, p: int) -> bool {
    &&& 0 <= p < files.len()
    &&& same_path(files[p], current)
    &&& forall|j: int| 0 <= j < p ==> !same_path(files[j], current)
}

/// The first position of `current` in `files`, comparing paths by their
/// components, if it occurs there.
pub open spec fn first_position(files: Seq<Seq<u8>>, current: Seq<u8>) -> Option<int> {
    if exists|p: int| is_first_position(files, current, p) {
        Some(choose|p: int| is_first_position(files, current, p))
    } else {
        None
    }
}

/// The file `offset` places after the first file in `files` that is the
/// same path as `current`, counting cyclically; `None` when no listed file
/// is.
pub open spec fn spec_wrapped_neighbor(files: Seq<Seq<u8>>, current: Seq<u8>, offset: int) -> Option<
    Seq<u8>,
> {
    match first_position(files, current) {
        Some(p) => Some(files[(p + offset) % (files.len() as int)]),
        None => None,
    }
}

/// `-(k + 1)` modulo `n`, by way of `k` modulo `n`.
proof fn lemma_negative_mod(k: int, n: int)
    requires
        k >= 0,
        n > 0,
    ensures
        (-(k + 1)) % n == n - 1 - (k % n),
{
    vstd::arithmetic::div_mod::lemma_fundamental_div_mod(k, n);
    let q = k / n;
    let r = k % n;
    assert(0 <= r < n);
    assert(-(k + 1) == (-(q + 1)) * n + (n - 1 - r)) by (nonlinear_arith)
        requires
            k == n * q + r,
    ;
    vstd::arithmetic::div_mod::lemma_fundamental_div_mod_converse(
        -(k + 1),
        n,
        -(q + 1),
        n - 1 - r,
    );
}

/// The position of the first file that is the same path as `current`, if
/// any.
fn position_of(files: &Vec<Vec<u8>>, current: &[u8]) -> (r: Option<usize>)
    ensures
        r matches Some(p) ==> first_position(files.deep_view(), current@) == Some(p as int),
        r is None ==> first_position(files.deep_view(), current@) is None,
{
    let ghost all = files.deep_view();
    let mut k: usize = 0;
    while k < files.len()
        invariant
            k <= files@.len(),
            all == files.deep_view(),
            forall|j: int| 0 <= j < k ==> !same_path(all[j], current@),
        decreases files@.len() - k,
    {
        assert(all[k as int] == files@[k as int]@);
        if paths_equal(files[k].as_slice(), current) {
            assert(is_first_position(all, current@, k as int));
            proof {
                let q = choose|q: int| is_first_position(all, current@, q);
                if q < k {
                    assert(!same_path(all[q], current@));
                } else if q > k {
                    assert(!same_path(all[k as int], current@));
                }
            }
            return Some(k);
        }
        k = k + 1;
    }
    assert forall|q: int| !is_first_position(all, current@, q) by {
        if 0 <= q < all.len() {
            assert(!same_path(all[q], current@));
        }
    }
    None
}

/// The listed file `offset` places after `current` in `files`, wrapping
/// around at either end; `None` when `current` is not among `files`. Paths
/// are compared by their components; where several listed files are the
/// same path as `current`, the first one counts.
pub fn wrapped_neighbor(files: &Vec<Vec<u8>>, current: &[u8], offset: isize) -> (r: Option<Vec<u8>>)
    requires
        files@.len() <= isize::MAX,
        first_position(files.deep_view(), current@) matches Some(p) ==> p + offset <= isize::MAX,
    ensures
        r matches Some(next) ==> spec_wrapped_neighbor(files.deep_view(), current@, offset as int)
            == Some(next@),
        r is None ==> spec_wrapped_neighbor(files.deep_view(), current@, offset as int) is None,
{
    let p = match position_of(files, current) {
        Some(p) => p,
        None => return None,
    };
    let n = files.len();
    let sum: isize = p as isize + offset;
    let index: usize = if sum >= 0 {
        (sum as usize) % n
    } else {
        let k: usize = (-(sum + 1)) as usize;
        proof {
            lemma_negative_mod(k as int, n as int);
        }
        n - 1 - k % n
    };
    let next = files[index].clone();
    assert(next@ =~= files@[index as int]@);
    assert(files.deep_view()[index as int] == files@[index as int]@);
    Some(next)
}

/// The video to open once `current` has been moved to the Trash: the next
/// one in `files`, wrapping around, unless that is `current` itself (it was
/// the only video) or `current` is not listed.
pub open spec fn spec_trash_successor(files: Seq<Seq<u8>>, current: Seq<u8>) -> Option<Seq<u8>> {
    match spec_wrapped_neighbor(files, current, 1) {
        Some(next) => if !same_path(next, current) {
            Some(next)
        } else {
            None
        },
        None => None,
    }
}

/// The video that follows `current` once it has been moved to the Trash.
pub fn trash_successor(files: &Vec<Vec<u8>>, current: &[u8]) -> (r: Option<Vec<u8>>)
    requires
        files@.len() <= isize::MAX,
    ensures
        r matches Some(next) ==> spec_trash_successor(files.deep_view(), current@) == Some(next@),
        r is None ==> spec_trash_successor(files.deep_view(), current@) is None,
{
    match wrapped_neighbor(files, current, 1) {
        Some(next) => {
            if paths_equal(next.as_slice(), current) {
                None
            } else {
                Some(next)
            }
        },
        None => None,
    }
}

/// Every video entry comes from the listing and is a video.
proof fn lemma_video_entries_members(entries: Seq<FolderEntryView>)
    ensures
        forall|k: int|
            0 <= k < video_entries(entries).len() ==> entries.contains(
                #[trigger] video_entries(entries)[k],
            ) && is_video_entry(video_entries(entries)[k]),
        forall|k: int|
            0 <= k < entries.len() && is_video_entry(entries[k]) ==> #[trigger] video_entries(
                entries,
            ).contains(entries[k]),
    decreases entries.len(),
{
    reveal(Seq::filter);
    if entries.len() > 0 {
        let rest = entries.drop_last();
        lemma_video_entries_members(rest);
        let v = video_entries(entries);
        let w = video_entries(rest);
        assert forall|k: int| 0 <= k < v.len() implies entries.contains(#[trigger] v[k])
            && is_video_entry(v[k]) by {
            if k < w.len() {
                assert(v[k] == w[k]);
                let j = choose|j: int| 0 <= j < rest.len() && rest[j] == w[k];
                assert(entries[j] == rest[j]);
            } else {
                assert(v[k] == entries.last());
            }
        }
        assert forall|k: int| 0 <= k < entries.len() && is_video_entry(entries[k]) implies #[trigger] v.contains(
            entries[k],
        ) by {
            if k < entries.len() - 1 {
                assert(rest[k] == entries[k]);
                assert(w.contains(rest[k]));
                let j = choose|j: int| 0 <= j < w.len() && w[j] == rest[k];
                assert(v[j] == w[j]);
            } else {
                assert(v[v.len() - 1] == entries[k]);
            }
        }
    }
}

/// A folder's listing keeps exactly its video entries, and orders them
/// alphabetically by file name without regard to ASCII case.
pub proof fn law_folder_listing_is_sorted_and_complete(entries: Seq<FolderEntryView>)
    ensures
        sorted_by_name(sort_by_name(video_entries(entries))),
        sort_by_name(video_entries(entries)).to_multiset() == video_entries(
            entries,
        ).to_multiset(),
        forall|e: FolderEntryView| #[trigger]
            sort_by_name(video_entries(entries)).contains(e) <==> entries.contains(e)
                && is_video_entry(e),
{
    broadcast use vstd::seq_lib::group_to_multiset_ensures;
    let v = video_entries(entries);
    lemma_video_entries_members(entries);
    let r = sort_by_name(v);
    lemma_sort_sorted(v);
    lemma_sort_multiset(v);
    assert forall|e: FolderEntryView| #[trigger] r.contains(e) <==> entries.contains(e)
        && is_video_entry(e) by {
        assert(r.contains(e) <==> r.to_multiset().count(e) > 0);
        assert(v.contains(e) <==> v.to_multiset().count(e) > 0);
        if v.contains(e) {
            let k = choose|k: int| 0 <= k < v.len() && v[k] == e;
            assert(entries.contains(v[k]));
        }
        if entries.contains(e) && is_video_entry(e) {
            let k = choose|k: int| 0 <= k < entries.len() && entries[k] == e;
            assert(v.contains(entries[k]));
        }
    }
}

/// No two of `files` are the same path.
pub open spec fn distinct_as_paths(files: Seq<Seq<u8>>) -> bool {
    forall|i: int, j: int|
        0 <= i < files.len() && 0 <= j < files.len() && i != j ==> !same_path(files[i], files[j])
}

/// Some file of `files` is the same path as `current`.
pub open spec fn listed(files: Seq<Seq<u8>>, current: Seq<u8>) -> bool {
    exists|i: int| 0 <= i < files.len() && same_path(files[i], current)
}

/// Where no two files are the same path, the file at position `i` is the
/// first one that is the same path as `current`.
proof fn lemma_first_position_of_distinct(files: Seq<Seq<u8>>, current: Seq<u8>, i: int)
    requires
        distinct_as_paths(files),
        0 <= i < files.len(),
        same_path(files[i], current),
    ensures
        first_position(files, current) == Some(i),
{
    assert forall|j: int| 0 <= j < i implies !same_path(files[j], current) by {
        assert(!same_path(files[j], files[i]));
    }
    assert(is_first_position(files, current, i));
    let q = choose|q: int| is_first_position(files, current, q);
    if q != i {
        assert(same_path(files[q], current));
        assert(!same_path(files[q], files[i]));
    }
}

/// Browsing a folder wraps around at either end: with no two files the
/// same path, the file after the one at position `i` is at position
/// `i + 1`, the first one following the last, and the file before it is at
/// position `i - 1`, the last one preceding the first.
pub proof fn law_navigation_wraps(files: Seq<Seq<u8>>, current: Seq<u8>, i: int)
    requires
        distinct_as_paths(files),
        0 <= i < files.len(),
        same_path(files[i], current),
    ensures
        spec_wrapped_neighbor(files, current, 1) == Some(
            files[if i + 1 == files.len() {
                0
            } else {
                i + 1
            }],
        ),
        spec_wrapped_neighbor(files, current, -1) == Some(
            files[if i == 0 {
                files.len() - 1
            } else {
                i - 1
            }],
        ),
{
    lemma_first_position_of_distinct(files, current, i);
    let n = files.len() as int;
    if i + 1 == n {
        vstd::arithmetic::div_mod::lemma_mod_self_0(n);
    } else {
        vstd::arithmetic::div_mod::lemma_small_mod((i + 1) as nat, n as nat);
    }
    if i == 0 {
        lemma_negative_mod(0, n);
        vstd::arithmetic::div_mod::lemma_small_mod(0, n as nat);
    } else {
        vstd::arithmetic::div_mod::lemma_small_mod((i - 1) as nat, n as nat);
    }
}

/// Moving `k` places on and then `k` places back returns to the file one
/// started from, whatever `k`, when no two files are the same path.
pub proof fn law_offset_then_back(files: Seq<Seq<u8>>, current: Seq<u8>, k: int)
    requires
        distinct_as_paths(files),
        listed(files, current),
    ensures
        spec_wrapped_neighbor(files, current, k) matches Some(next) && (spec_wrapped_neighbor(
            files,
            next,
            -k,
        ) matches Some(back) && same_path(back, current)),
{
    let i = choose|i: int| 0 <= i < files.len() && same_path(files[i], current);
    let n = files.len() as int;
    lemma_first_position_of_distinct(files, current, i);
    vstd::arithmetic::div_mod::lemma_fundamental_div_mod(i + k, n);
    let q = (i + k) / n;
    let j = (i + k) % n;
    assert(0 <= j < n);
    lemma_first_position_of_distinct(files, files[j], j);
    assert(j - k == (-q) * n + i) by (nonlinear_arith)
        requires
            i + k == n * q + j,
    ;
    vstd::arithmetic::div_mod::lemma_fundamental_div_mod_converse(j - k, n, -q, i);
}

/// Going to the next file and then back to the previous one returns to the
/// file one started from, when no two files are the same path.
pub proof fn law_next_then_previous(files: Seq<Seq<u8>>, current: Seq<u8>)
    requires
        distinct_as_paths(files),
        listed(files, current),
    ensures
        spec_wrapped_neighbor(files, current, 1) matches Some(next) && (spec_wrapped_neighbor(
            files,
            next,
            -1,
        ) matches Some(back) && same_path(back, current)),
{
    law_offset_then_back(files, current, 1);
}

/// After moving a video to the Trash, the player never reopens that video:
/// it opens the next listed one, or, when the video was the only one, none.
pub proof fn law_trash_successor(files: Seq<Seq<u8>>, current: Seq<u8>)
    requires
        distinct_as_paths(files),
        listed(files, current),
    ensures
        spec_trash_successor(files, current) matches Some(next) ==> !same_path(next, current)
            && files.contains(next),
        files.len() == 1 ==> spec_trash_successor(files, current) is None,
        files.len() > 1 ==> spec_trash_successor(files, current) == spec_wrapped_neighbor(
            files,
            current,
            1,
        ),
{
    let i = choose|i: int| 0 <= i < files.len() && same_path(files[i], current);
    law_navigation_wraps(files, current, i);
    let j = if i + 1 == files.len() {
        0
    } else {
        i + 1
    };
    assert(files.contains(files[j]));
    if files.len() > 1 {
        assert(j != i);
        assert(!same_path(files[j], files[i]));
    }
}

/// No two entries are the same path, as in a directory listing.
pub open spec fn distinct_paths(s: Seq<FolderEntryView>) -> bool {
    forall|i: int, j: int|
        0 <= i < s.len() && 0 <= j < s.len() && i != j ==> !same_path(s[i].path, s[j].path)
}

/// Some position at which `insert_by_name` places `x`.
proof fn lemma_insert_position(x: FolderEntryView, s: Seq<FolderEntryView>) -> (p: int)
    ensures
        0 <= p <= s.len(),
        insert_by_name(x, s) == s.take(p) + seq![x] + s.skip(p),
        forall|k: int| 0 <= k < p ==> !name_before(x, #[trigger] s[k]),
        p < s.len() ==> name_before(x, s[p]),
{
    if exists|k: int| 0 <= k < s.len() && name_before(x, s[k]) {
        let k0 = choose|k: int| 0 <= k < s.len() && name_before(x, s[k]);
        let p = first_before(x, s, k0);
        lemma_insert_at(x, s, p);
        p
    } else {
        lemma_insert_at(x, s, s.len() as int);
        s.len() as int
    }
}

/// The first position at or below `k` whose entry `x` comes before.
proof fn first_before(x: FolderEntryView, s: Seq<FolderEntryView>, k: int) -> (p: int)
    requires
        0 <= k < s.len(),
        name_before(x, s[k]),
    ensures
        0 <= p <= k,
        name_before(x, s[p]),
        forall|j: int| 0 <= j < p ==> !name_before(x, #[trigger] s[j]),
    decreases k,
{
    if exists|j: int| 0 <= j < k && name_before(x, s[j]) {
        let j = choose|j: int| 0 <= j < k && name_before(x, s[j]);
        first_before(x, s, j)
    } else {
        k
    }
}

/// Sorting keeps paths distinct.
proof fn lemma_sort_distinct_paths(s: Seq<FolderEntryView>)
    requires
        distinct_paths(s),
    ensures
        distinct_paths(sort_by_name(s)),
    decreases s.len(),
{
    broadcast use vstd::seq_lib::group_to_multiset_ensures;

    if s.len() > 0 {
        let rest = s.drop_last();
        let x = s.last();
        assert(distinct_paths(rest)) by {
            assert forall|i: int, j: int|
                0 <= i < rest.len() && 0 <= j < rest.len() && i != j implies !same_path(
                    rest[i].path,
                    rest[j].path,
                ) by {
                assert(rest[i] == s[i] && rest[j] == s[j]);
            }
        }
        lemma_sort_distinct_paths(rest);
        let t = sort_by_name(rest);
        lemma_sort_multiset(rest);
        let p = lemma_insert_position(x, t);
        let r = insert_by_name(x, t);
        assert forall|k: int| 0 <= k < t.len() implies !same_path(#[trigger] t[k].path, x.path) by {
            assert(t.to_multiset().count(t[k]) > 0);
            assert(rest.contains(t[k]));
            let j = choose|j: int| 0 <= j < rest.len() && rest[j] == t[k];
            assert(s[j] == rest[j]);
        }
        assert forall|i: int, j: int|
            0 <= i < r.len() && 0 <= j < r.len() && i != j implies !same_path(r[i].path, r[j].path) by {
            let ti = if i < p {
                i
            } else {
                i - 1
            };
            let tj = if j < p {
                j
            } else {
                j - 1
            };
            if i != p && j != p {
                assert(r[i] == t[ti] && r[j] == t[tj]);
            } else if i == p {
                assert(r[j] == t[tj]);
            } else {
                assert(r[i] == t[ti]);
            }
        }
    }
}

/// Keeping the video entries keeps paths distinct.
proof fn lemma_video_entries_distinct_paths(entries: Seq<FolderEntryView>)
    requires
        distinct_paths(entries),
    ensures
        distinct_paths(video_entries(entries)),
    decreases entries.len(),
{
    reveal(Seq::filter);
    if entries.len() > 0 {
        let rest = entries.drop_last();
        assert(distinct_paths(rest)) by {
            assert forall|i: int, j: int|
                0 <= i < rest.len() && 0 <= j < rest.len() && i != j implies !same_path(
                    rest[i].path,
                    rest[j].path,
                ) by {
                assert(rest[i] == entries[i] && rest[j] == entries[j]);
            }
        }
        lemma_video_entries_distinct_paths(rest);
        lemma_video_entries_members(rest);
        let w = video_entries(rest);
        let v = video_entries(entries);
        if is_video_entry(entries.last()) {
            assert forall|k: int| 0 <= k < w.len() implies !same_path(
                #[trigger] w[k].path,
                entries.last().path,
            ) by {
                assert(rest.contains(w[k]));
                let j = choose|j: int| 0 <= j < rest.len() && rest[j] == w[k];
                assert(entries[j] == rest[j]);
            }
            assert forall|i: int, j: int|
                0 <= i < v.len() && 0 <= j < v.len() && i != j implies !same_path(v[i].path, v[j].path) by {
                if i < w.len() && j < w.len() {
                    assert(v[i] == w[i] && v[j] == w[j]);
                } else if i < w.len() {
                    assert(v[i] == w[i]);
                } else {
                    assert(v[j] == w[j]);
                }
            }
        }
    }
}

/// In a listing where no two entries are the same path, as in a directory
/// listing, no two of the folder's videos are the same path, so the laws of
/// browsing apply to them.
pub proof fn law_folder_videos_are_distinct(entries: Seq<FolderEntryView>)
    requires
        distinct_paths(entries),
    ensures
        distinct_as_paths(spec_folder_videos(entries)),
{
    lemma_video_entries_distinct_paths(entries);
    lemma_sort_distinct_paths(video_entries(entries));
    let r = sort_by_name(video_entries(entries));
    let paths = spec_folder_videos(entries);
    assert forall|i: int, j: int|
        0 <= i < paths.len() && 0 <= j < paths.len() && i != j implies !same_path(paths[i], paths[j]) by {
        assert(paths[i] == r[i].path && paths[j] == r[j].path);
    }
}

/// Sorting keeps every entry.
proof fn lemma_sort_keeps(s: Seq<FolderEntryView>, e: FolderEntryView)
    requires
        s.contains(e),
    ensures
        sort_by_name(s).contains(e),
{
    broadcast use vstd::seq_lib::group_to_multiset_ensures;

    lemma_sort_multiset(s);
    assert(s.to_multiset().count(e) > 0);
}

/// In a sorted sequence, an entry whose key equals that of `x` lies before
/// the position at which `x` is inserted.
proof fn lemma_equal_key_before_insertion(x: FolderEntryView, t: Seq<FolderEntryView>, p: int, m: int)
    requires
        sorted_by_name(t),
        0 <= p <= t.len(),
        p < t.len() ==> name_before(x, t[p]),
        0 <= m < t.len(),
        sort_key(t[m].file_name) == sort_key(x.file_name),
    ensures
        m < p,
{
    if m >= p {
        lemma_bytes_lt_irreflexive(sort_key(x.file_name));
        if m > p {
            assert(!name_before(t[m], t[p]));
        }
    }
}

/// Sorting is stable: of two entries whose names are equal ignoring ASCII
/// case, the one listed first comes first.
proof fn lemma_sort_stable(s: Seq<FolderEntryView>, a: int, b: int)
    requires
        s.no_duplicates(),
        0 <= a < b < s.len(),
        sort_key(s[a].file_name) == sort_key(s[b].file_name),
    ensures
        exists|i: int, j: int|
            0 <= i < j < sort_by_name(s).len() && sort_by_name(s)[i] == s[a] && sort_by_name(
                s,
            )[j] == s[b],
    decreases s.len(),
{
    let rest = s.drop_last();
    let x = s.last();
    let t = sort_by_name(rest);
    let p = lemma_insert_position(x, t);
    let r = sort_by_name(s);
    assert(r == insert_by_name(x, t));
    if b == s.len() - 1 {
        assert(rest[a] == s[a]);
        lemma_sort_keeps(rest, s[a]);
        let m = choose|m: int| 0 <= m < t.len() && t[m] == s[a];
        lemma_sort_sorted(rest);
        lemma_equal_key_before_insertion(x, t, p, m);
        assert(r[m] == s[a]);
        assert(r[p] == s[b]);
    } else {
        assert(rest.no_duplicates());
        assert(rest[a] == s[a] && rest[b] == s[b]);
        lemma_sort_stable(rest, a, b);
        let (i, j) = choose|i: int, j: int|
            0 <= i < j < t.len() && t[i] == rest[a] && t[j] == rest[b];
        let i2 = if i < p {
            i
        } else {
            i + 1
        };
        let j2 = if j < p {
            j
        } else {
            j + 1
        };
        assert(r[i2] == s[a]);
        assert(r[j2] == s[b]);
    }
}

/// The listing of a folder is stable: of two videos whose file names are
/// equal ignoring ASCII case, the one the directory listed first comes first.
pub proof fn law_ties_keep_listing_order(entries: Seq<FolderEntryView>, a: int, b: int)
    requires
        distinct_paths(entries),
        0 <= a < b < video_entries(entries).len(),
        sort_key(video_entries(entries)[a].file_name) == sort_key(
            video_entries(entries)[b].file_name,
        ),
    ensures
        exists|i: int, j: int|
            0 <= i < j < spec_folder_videos(entries).len() && spec_folder_videos(entries)[i]
                == video_entries(entries)[a].path && spec_folder_videos(entries)[j]
                == video_entries(entries)[b].path,
{
    let v = video_entries(entries);
    lemma_video_entries_distinct_paths(entries);
    assert(v.no_duplicates()) by {
        assert forall|i: int, j: int| 0 <= i < v.len() && 0 <= j < v.len() && i != j implies v[i]
            != v[j] by {
            assert(!same_path(v[i].path, v[j].path));
        }
    }
    lemma_sort_stable(v, a, b);
    let r = sort_by_name(v);
    let (i, j) = choose|i: int, j: int| 0 <= i < j < r.len() && r[i] == v[a] && r[j] == v[b];
    assert(spec_folder_videos(entries)[i] == r[i].path);
    assert(spec_folder_videos(entries)[j] == r[j].path);
}

} // verus!
