//! From a directory listing to the asset browser's tree.
//!
//! Reading the disk is the caller's part. It hands over what it read, one
//! `ListedEntry` per directory entry; this module decides what is shown, in
//! which order, and under which path.

use crate::assets::{entry_views, lemma_entry_views, AssetEntry, AssetEntryView};
use vstd::prelude::*;
use vstd::string::{StrSliceExecFns, StringExecFns};

verus! {

/// What the file system says an entry is.
#[derive(Debug, Clone, Copy, PartialEq, Eq, Structural)]
pub enum FileKind {
    /// A directory.
    Directory,
    /// A regular file.
    File,
    /// Anything else, or an entry whose type could not be read.
    Other,
}

/// One entry of a directory, as read.
#[derive(Debug)]
pub struct ListedEntry {
    /// The file name's bytes as the system gave them. Entries are ordered by these.
    pub raw_name: Vec<u8>,
    /// The file name as text.
    pub name: String,
    /// What the entry is.
    pub kind: FileKind,
    /// The entries of the directory, if it is one and could be read.
    pub children: Vec<ListedEntry>,
}

/// A listed entry as a value.
pub struct ListedEntryView {
    pub raw_name: Seq<u8>,
    pub name: Seq<char>,
    pub kind: FileKind,
    pub children: Seq<ListedEntryView>,
}

impl View for ListedEntry {
    type V = ListedEntryView;

    open spec fn view(&self) -> ListedEntryView
        decreases self,
    {
        ListedEntryView {
            raw_name: self.raw_name@,
            name: self.name@,
            kind: self.kind,
            children: listed_views(self.children@),
        }
    }
}

/// The values of a listing.
pub open spec fn listed_views(listing: Seq<ListedEntry>) -> Seq<ListedEntryView>
    decreases listing,
{
    if listing.len() == 0 {
        Seq::empty()
    } else {
        listed_views(listing.drop_last()).push(listing.last()@)
    }
}

/// `listed_views` keeps length and order.
pub proof fn lemma_listed_views(listing: Seq<ListedEntry>)
    ensures
        listed_views(listing).len() == listing.len(),
        forall|i: int|
            0 <= i < listing.len() ==> (#[trigger] listed_views(listing)[i]) == listing[i]@,
    decreases listing.len(),
{
    reveal_with_fuel(listed_views, 2);
    if listing.len() > 0 {
        lemma_listed_views(listing.drop_last());
    }
}

/// An entry of the tree together with the raw name it is ordered by.
pub struct OrderedEntry {
    pub raw_name: Seq<u8>,
    pub entry: AssetEntryView,
}

/// `left` is at most `right` in the order of byte strings: at the first
/// byte in which they differ `left` has the smaller one, or `left` is a prefix of `right`.
pub open spec fn bytes_le(left: Seq<u8>, right: Seq<u8>) -> bool
    decreases left.len(),
{
    if left.len() == 0 {
        true
    } else if right.len() == 0 {
        false
    } else if left[0] != right[0] {
        left[0] < right[0]
    } else {
        bytes_le(left.drop_first(), right.drop_first())
    }
}

/// `left` may stand before `right`: a directory before a file, and among
/// two of a kind the one whose raw name is not the greater.
pub open spec fn stands_before(left: OrderedEntry, right: OrderedEntry) -> bool {
    if left.entry.is_directory != right.entry.is_directory {
        left.entry.is_directory
    } else {
        bytes_le(left.raw_name, right.raw_name)
    }
}

/// Where `entry` goes into `ordered`: before the first one it may stand before.
pub open spec fn insert_position(entry: OrderedEntry, ordered: Seq<OrderedEntry>) -> int
    decreases ordered.len(),
{
    if ordered.len() == 0 || stands_before(entry, ordered.first()) {
        0
    } else {
        1 + insert_position(entry, ordered.drop_first())
    }
}

/// `entries` put in order. Entries of which neither has to stand before the
/// other keep the order they came in.
pub open spec fn in_order(entries: Seq<OrderedEntry>) -> Seq<OrderedEntry>
    decreases entries.len(),
{
    if entries.len() == 0 {
        entries
    } else {
        let rest = in_order(entries.drop_first());
        rest.insert(insert_position(entries.first(), rest), entries.first())
    }
}

/// A name that begins with a dot.
pub open spec fn is_hidden(name: Seq<char>) -> bool {
    name.len() > 0 && name[0] == '.'
}

/// An entry that the browser shows: a file or a directory that is not hidden.
pub open spec fn is_shown(listed: ListedEntryView) -> bool {
    !is_hidden(listed.name) && listed.kind != FileKind::Other
}

/// The path of `name` below `base`; at the root, where `base` is empty, the name itself.
pub open spec fn joined(base: Seq<char>, name: Seq<char>) -> Seq<char> {
    if base.len() == 0 {
        name
    } else {
        base + seq!['/'] + name
    }
}

/// The tree entry for a listed entry below `base`: closed, and for a
/// directory with the tree of what it holds.
pub open spec fn asset_entry(listed: ListedEntryView, base: Seq<char>) -> AssetEntryView
    decreases listed, 0nat,
{
    AssetEntryView {
        name: listed.name,
        path: joined(base, listed.name),
        is_directory: listed.kind == FileKind::Directory,
        children: if listed.kind == FileKind::Directory {
            scanned(listed.children, joined(base, listed.name))
        } else {
            Seq::empty()
        },
        expanded: false,
    }
}

/// The shown entries of `listing` as tree entries, in listing order.
pub open spec fn shown_entries(listing: Seq<ListedEntryView>, base: Seq<char>) -> Seq<OrderedEntry>
    decreases listing, 0nat,
{
    if listing.len() == 0 {
        Seq::empty()
    } else {
        let before = shown_entries(listing.drop_last(), base);
        if is_shown(listing.last()) {
            before.push(
                OrderedEntry {
                    raw_name: listing.last().raw_name,
                    entry: asset_entry(listing.last(), base),
                },
            )
        } else {
            before
        }
    }
}

/// The tree for `listing` below `base`: its shown entries, in order.
pub open spec fn scanned(listing: Seq<ListedEntryView>, base: Seq<char>) -> Seq<AssetEntryView>
    decreases listing, 1nat,
{
    in_order(shown_entries(listing, base)).map_values(|ordered: OrderedEntry| ordered.entry)
}

/// Of two byte strings one is at most the other.
proof fn lemma_bytes_le_total(left: Seq<u8>, right: Seq<u8>)
    ensures
        bytes_le(left, right) || bytes_le(right, left),
    decreases left.len(),
{
    if left.len() > 0 && right.len() > 0 && left[0] == right[0] {
        lemma_bytes_le_total(left.drop_first(), right.drop_first());
    }
}

/// The order of byte strings is transitive.
proof fn lemma_bytes_le_transitive(low: Seq<u8>, mid: Seq<u8>, high: Seq<u8>)
    requires
        bytes_le(low, mid),
        bytes_le(mid, high),
    ensures
        bytes_le(low, high),
    decreases low.len(),
{
    if low.len() > 0 && mid.len() > 0 && high.len() > 0 && low[0] == mid[0] && mid[0] == high[0] {
        lemma_bytes_le_transitive(low.drop_first(), mid.drop_first(), high.drop_first());
    }
}

/// Every pair of entries of `entries` stands in order.
pub open spec fn is_ordered(entries: Seq<OrderedEntry>) -> bool {
    forall|i: int, j: int|
        0 <= i < j < entries.len() ==> stands_before(#[trigger] entries[i], #[trigger] entries[j])
}

/// The position for a new entry lies behind everything that has to stand
/// before it and ahead of the first entry that it may stand before.
proof fn lemma_insert_position(entry: OrderedEntry, ordered: Seq<OrderedEntry>)
    ensures
        0 <= insert_position(entry, ordered) <= ordered.len(),
        forall|k: int|
            0 <= k < insert_position(entry, ordered) ==> !stands_before(
                entry,
                #[trigger] ordered[k],
            ),
        insert_position(entry, ordered) < ordered.len() ==> stands_before(
            entry,
            ordered[insert_position(entry, ordered)],
        ),
    decreases ordered.len(),
{
    if ordered.len() > 0 && !stands_before(entry, ordered.first()) {
        let rest = ordered.drop_first();
        lemma_insert_position(entry, rest);
        assert forall|k: int| 0 <= k < insert_position(entry, ordered) implies !stands_before(
            entry,
            #[trigger] ordered[k],
        ) by {
            if k > 0 {
                assert(ordered[k] == rest[k - 1]);
            }
        }
        if insert_position(entry, ordered) < ordered.len() {
            assert(ordered[insert_position(entry, ordered)] == rest[insert_position(entry, rest)]);
        }
    }
}

/// What `in_order` gives is in order, and holds what it was given: the
/// same entries, each as often as before.
pub proof fn lemma_in_order_sorts(entries: Seq<OrderedEntry>)
    ensures
        is_ordered(in_order(entries)),
        in_order(entries).len() == entries.len(),
        in_order(entries).to_multiset() == entries.to_multiset(),
    decreases entries.len(),
{
    broadcast use vstd::seq_lib::group_to_multiset_ensures;

    if entries.len() > 0 {
        let new = entries.first();
        let rest = in_order(entries.drop_first());
        let at = insert_position(new, rest);
        let result = rest.insert(at, new);
        lemma_in_order_sorts(entries.drop_first());
        lemma_insert_position(new, rest);
        rest.insert_ensures(at, new);
        assert forall|i: int, j: int| 0 <= i < j < result.len() implies stands_before(
            #[trigger] result[i],
            #[trigger] result[j],
        ) by {
            if j < at {
            } else if i < at && j == at {
                assert(!stands_before(new, rest[i]));
                lemma_bytes_le_total(new.raw_name, rest[i].raw_name);
            } else if i < at {
                assert(result[j] == rest[j - 1]);
            } else if i == at {
                assert(result[j] == rest[j - 1]);
                assert(stands_before(new, rest[at]));
                if j - 1 > at {
                    assert(stands_before(rest[at], rest[j - 1]));
                    if new.entry.is_directory == rest[at].entry.is_directory
                        && rest[at].entry.is_directory == rest[j - 1].entry.is_directory {
                        lemma_bytes_le_transitive(
                            new.raw_name,
                            rest[at].raw_name,
                            rest[j - 1].raw_name,
                        );
                    }
                }
            } else {
                assert(result[i] == rest[i - 1]);
                assert(result[j] == rest[j - 1]);
            }
        }
        assert(result.remove(at) =~= rest);
        assert(result.to_multiset() =~= rest.to_multiset().insert(new)) by {
            assert(result[at] == new);
            assert(result.remove(at).to_multiset() == result.to_multiset().remove(new));
            assert(result.to_multiset().count(new) > 0) by {
                assert(result.contains(new));
            }
        }
        assert(entries.to_multiset() =~= entries.drop_first().to_multiset().insert(new)) by {
            assert(entries.remove(0) =~= entries.drop_first());
            assert(entries.remove(0).to_multiset() == entries.to_multiset().remove(entries[0]));
            assert(entries.to_multiset().count(new) > 0) by {
                assert(entries.contains(new));
            }
        }
    }
}

/// Entries that stand in order already are left as they are, ties included.
pub proof fn lemma_in_order_keeps_ordered(entries: Seq<OrderedEntry>)
    requires
        is_ordered(entries),
    ensures
        in_order(entries) == entries,
    decreases entries.len(),
{
    if entries.len() > 0 {
        let rest = entries.drop_first();
        assert forall|i: int, j: int| 0 <= i < j < rest.len() implies stands_before(
            #[trigger] rest[i],
            #[trigger] rest[j],
        ) by {
            assert(rest[i] == entries[i + 1]);
            assert(rest[j] == entries[j + 1]);
        }
        lemma_in_order_keeps_ordered(rest);
        if rest.len() > 0 {
            assert(rest.first() == entries[1]);
            assert(stands_before(entries[0], entries[1]));
        }
        assert(insert_position(entries.first(), rest) == 0);
        assert(rest.insert(0, entries.first()) =~= entries);
    }
}

/// The entries that `keys` and `entries` hold side by side.
pub open spec fn ordered(keys: Seq<Vec<u8>>, entries: Seq<AssetEntry>) -> Seq<OrderedEntry> {
    Seq::new(entries.len(), |i: int| OrderedEntry { raw_name: keys[i]@, entry: entries[i]@ })
}

/// Past entries that `entry` may not stand before, its position is counted on from there.
proof fn lemma_insert_position_after(entry: OrderedEntry, sorted: Seq<OrderedEntry>, passed: int)
    requires
        0 <= passed <= sorted.len(),
        forall|k: int| 0 <= k < passed ==> !stands_before(entry, #[trigger] sorted[k]),
    ensures
        insert_position(entry, sorted) == passed + insert_position(entry, sorted.skip(passed)),
    decreases passed,
{
    if passed == 0 {
        assert(sorted.skip(0) =~= sorted);
    } else {
        assert(!stands_before(entry, sorted[0]));
        let rest = sorted.drop_first();
        assert forall|k: int| 0 <= k < passed - 1 implies !stands_before(
            entry,
            #[trigger] rest[k],
        ) by {
            assert(rest[k] == sorted[k + 1]);
        }
        lemma_insert_position_after(entry, rest, passed - 1);
        assert(rest.skip(passed - 1) =~= sorted.skip(passed));
    }
}

/// Whether a file name marks a hidden entry.
pub fn hidden(name: &str) -> (hidden: bool)
    ensures
        hidden == is_hidden(name@),
{
    if name.is_empty() {
        false
    } else {
        name.get_char(0) == '.'
    }
}

/// The path of `name` below `base`.
pub fn join_path(base: &str, name: &str) -> (path: String)
    ensures
        path@ == joined(base@, name@),
{
    if base.is_empty() {
        String::from_str(name)
    } else {
        let mut path = String::from_str(base);
        path.append("/");
        path.append(name);
        proof {
            reveal_strlit("/");
            assert("/"@ =~= seq!['/']);
        }
        path
    }
}

/// Compares two raw names byte by byte.
fn bytes_at_most(left: &Vec<u8>, right: &Vec<u8>) -> (at_most: bool)
    ensures
        at_most == bytes_le(left@, right@),
{
    let mut i: usize = 0;
    proof {
        assert(left@.skip(0) =~= left@);
        assert(right@.skip(0) =~= right@);
    }
    loop
        invariant
            i <= left.len(),
            i <= right.len(),
            bytes_le(left@, right@) == bytes_le(left@.skip(i as int), right@.skip(i as int)),
        decreases left.len() - i,
    {
        if i == left.len() {
            return true;
        }
        if i == right.len() {
            return false;
        }
        proof {
            let l = left@.skip(i as int);
            let r = right@.skip(i as int);
            assert(l[0] == left@[i as int]);
            assert(r[0] == right@[i as int]);
            assert(l.drop_first() =~= left@.skip(i + 1));
            assert(r.drop_first() =~= right@.skip(i + 1));
        }
        if left[i] != right[i] {
            return left[i] < right[i];
        }
        i += 1;
    }
}

/// Finds the place of a new entry among entries that are in order.
fn find_position(
    key: &Vec<u8>,
    entry: &AssetEntry,
    sorted_keys: &Vec<Vec<u8>>,
    sorted: &Vec<AssetEntry>,
) -> (position: usize)
    requires
        sorted_keys@.len() == sorted@.len(),
    ensures
        position == insert_position(
            OrderedEntry { raw_name: key@, entry: entry@ },
            ordered(sorted_keys@, sorted@),
        ),
        position <= sorted@.len(),
{
    let ghost new = OrderedEntry { raw_name: key@, entry: entry@ };
    let ghost all = ordered(sorted_keys@, sorted@);
    let mut at: usize = 0;
    while at < sorted.len()
        invariant
            at <= sorted.len(),
            sorted_keys@.len() == sorted@.len(),
            new == (OrderedEntry { raw_name: key@, entry: entry@ }),
            all == ordered(sorted_keys@, sorted@),
            forall|k: int| 0 <= k < at ==> !stands_before(new, #[trigger] all[k]),
        decreases sorted.len() - at,
    {
        let before = if entry.is_directory != sorted[at].is_directory {
            entry.is_directory
        } else {
            bytes_at_most(key, &sorted_keys[at])
        };
        proof {
            assert(all[at as int] == OrderedEntry {
                raw_name: sorted_keys@[at as int]@,
                entry: sorted@[at as int]@,
            });
            assert(before == stands_before(new, all[at as int]));
        }
        if before {
            proof {
                lemma_insert_position_after(new, all, at as int);
                assert(all.skip(at as int).first() == all[at as int]);
            }
            return at;
        }
        at += 1;
    }
    proof {
        lemma_insert_position_after(new, all, at as int);
        assert(all.skip(at as int).len() == 0);
    }
    at
}

/// Puts entries in order: directories first, then by raw name.
fn put_in_order(keys: Vec<Vec<u8>>, entries: Vec<AssetEntry>) -> (sorted: Vec<AssetEntry>)
    requires
        keys@.len() == entries@.len(),
    ensures
        entry_views(sorted@) == in_order(ordered(keys@, entries@)).map_values(
            |ordered: OrderedEntry| ordered.entry,
        ),
{
    let ghost all = ordered(keys@, entries@);
    let mut keys = keys;
    let mut entries = entries;
    let mut sorted_keys: Vec<Vec<u8>> = Vec::new();
    let mut sorted: Vec<AssetEntry> = Vec::new();
    proof {
        assert(all.skip(all.len() as int) =~= Seq::empty());
        assert(ordered(sorted_keys@, sorted@) =~= in_order(all.skip(all.len() as int)));
        assert(ordered(keys@, entries@) =~= all.take(all.len() as int));
    }
    while entries.len() > 0
        invariant
            keys@.len() == entries@.len(),
            sorted_keys@.len() == sorted@.len(),
            entries@.len() <= all.len(),
            ordered(keys@, entries@) == all.take(entries@.len() as int),
            ordered(sorted_keys@, sorted@) == in_order(all.skip(entries@.len() as int)),
        decreases entries.len(),
    {
        let ghost left = entries@.len() as int;
        let ghost done = ordered(sorted_keys@, sorted@);
        proof {
            assert(ordered(keys@, entries@)[left - 1] == all.take(left)[left - 1]);
        }
        let key = keys.pop().unwrap();
        let entry = entries.pop().unwrap();
        let position = find_position(&key, &entry, &sorted_keys, &sorted);
        proof {
            let new = OrderedEntry { raw_name: key@, entry: entry@ };
            assert(new == all[left - 1]);
            assert(all.skip(left - 1).first() == new);
            assert(all.skip(left - 1).drop_first() =~= all.skip(left));
            assert(in_order(all.skip(left - 1)) == done.insert(insert_position(new, done), new));
        }
        sorted_keys.insert(position, key);
        sorted.insert(position, entry);
        proof {
            let new = all[left - 1];
            assert(ordered(sorted_keys@, sorted@) =~= done.insert(position as int, new));
            assert(ordered(keys@, entries@) =~= all.take(left - 1));
        }
    }
    proof {
        assert(all.skip(0) =~= all);
        lemma_entry_views(sorted@);
        assert(entry_views(sorted@) =~= in_order(all).map_values(
            |ordered: OrderedEntry| ordered.entry,
        ));
    }
    sorted
}

/// Builds the tree for a directory listing.
///
/// Hidden entries and entries that are neither file nor directory are left
/// out. Directories come first, then files, each group ordered by raw name.
/// An entry's path is its name below `relative_base`; a directory's entries
/// are built in the same way below the directory's path.
pub fn scan_directory(listing: &Vec<ListedEntry>, relative_base: &str) -> (entries: Vec<AssetEntry>)
    ensures
        entry_views(entries@) == scanned(listed_views(listing@), relative_base@),
    decreases listing,
{
    let ghost all = listed_views(listing@);
    let mut keys: Vec<Vec<u8>> = Vec::new();
    let mut shown: Vec<AssetEntry> = Vec::new();
    let mut i: usize = 0;
    proof {
        lemma_listed_views(listing@);
        reveal_with_fuel(shown_entries, 2);
        assert(all.take(0) =~= Seq::empty());
        assert(ordered(keys@, shown@) =~= shown_entries(all.take(0), relative_base@));
    }
    while i < listing.len()
        invariant
            i <= listing.len(),
            all == listed_views(listing@),
            all.len() == listing@.len(),
            forall|k: int| 0 <= k < all.len() ==> #[trigger] all[k] == listing@[k]@,
            keys@.len() == shown@.len(),
            ordered(keys@, shown@) == shown_entries(all.take(i as int), relative_base@),
        decreases listing.len() - i,
    {
        let listed = &listing[i];
        let ghost before = ordered(keys@, shown@);
        proof {
            reveal_with_fuel(shown_entries, 2);
            assert(all.take(i + 1).drop_last() =~= all.take(i as int));
            assert(all.take(i + 1).last() == listed@);
        }
        let skip = hidden(listed.name.as_str()) || match listed.kind {
            FileKind::Other => true,
            _ => false,
        };
        if !skip {
            let path = join_path(relative_base, listed.name.as_str());
            let entry = match listed.kind {
                FileKind::Directory => {
                    let children = scan_directory(&listed.children, path.as_str());
                    let mut entry = AssetEntry::directory(listed.name.clone(), path);
                    entry.children = children;
                    entry
                },
                _ => AssetEntry::file(listed.name.clone(), path),
            };
            proof {
                reveal_with_fuel(asset_entry, 2);
                assert(entry@ == asset_entry(listed@, relative_base@));
            }
            keys.push(listed.raw_name.clone());
            shown.push(entry);
            proof {
                assert(ordered(keys@, shown@) =~= before.push(
                    OrderedEntry {
                        raw_name: listed@.raw_name,
                        entry: asset_entry(listed@, relative_base@),
                    },
                ));
            }
        }
        i += 1;
    }
    proof {
        assert(all.take(i as int) =~= all);
    }
    put_in_order(keys, shown)
}

} // verus!
