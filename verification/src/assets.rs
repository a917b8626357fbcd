//! The asset browser's model: a tree of files and directories, the kind of
//! each file, and which directories stand open.

use crate::asset_listing::{listed_views, scan_directory, scanned, ListedEntry};
use crate::text::{last_segment, last_segment_of, occurs_at, same_text, starts_with};
use bevy::ecs::entity::Entity;
use vstd::prelude::*;

verus! {

/// Represents a file or directory entry in the asset browser.
#[derive(Debug)]
pub struct AssetEntry {
    /// Display name of the entry.
    pub name: String,
    /// Full path relative to assets directory.
    pub path: String,
    /// Whether this entry is a directory.
    pub is_directory: bool,
    /// Child entries (if directory).
    pub children: Vec<AssetEntry>,
    /// Whether this directory is expanded in the UI.
    pub expanded: bool,
}

/// An entry as a value: its texts as character sequences, its children as a
/// sequence of such values.
pub struct AssetEntryView {
    pub name: Seq<char>,
    pub path: Seq<char>,
    pub is_directory: bool,
    pub children: Seq<AssetEntryView>,
    pub expanded: bool,
}

impl View for AssetEntry {
    type V = AssetEntryView;

    open spec fn view(&self) -> AssetEntryView
        decreases self,
    {
        AssetEntryView {
            name: self.name@,
            path: self.path@,
            is_directory: self.is_directory,
            children: entry_views(self.children@),
            expanded: self.expanded,
        }
    }
}

/// The values of a list of entries.
pub open spec fn entry_views(entries: Seq<AssetEntry>) -> Seq<AssetEntryView>
    decreases entries,
{
    if entries.len() == 0 {
        Seq::empty()
    } else {
        entry_views(entries.drop_last()).push(entries.last()@)
    }
}

/// `entry_views` keeps length and order.
pub proof fn lemma_entry_views(entries: Seq<AssetEntry>)
    ensures
        entry_views(entries).len() == entries.len(),
        forall|i: int| 0 <= i < entries.len() ==> (#[trigger] entry_views(entries)[i]) == entries[i]@,
    decreases entries.len(),
{
    reveal_with_fuel(entry_views, 2);
    if entries.len() > 0 {
        lemma_entry_views(entries.drop_last());
    }
}

impl Clone for AssetEntry {
    /// A copy of the entry with copies of all entries below it.
    fn clone(&self) -> (copy: Self)
        ensures
            copy@ == self@,
        decreases self,
    {
        let mut children: Vec<AssetEntry> = Vec::new();
        let mut i: usize = 0;
        while i < self.children.len()
            invariant
                i <= self.children.len(),
                children@.len() == i,
                forall|k: int| 0 <= k < i ==> (#[trigger] children@[k])@ == self.children@[k]@,
            decreases self.children.len() - i,
        {
            children.push(self.children[i].clone());
            i += 1;
        }
        let copy = AssetEntry {
            name: self.name.clone(),
            path: self.path.clone(),
            is_directory: self.is_directory,
            children,
            expanded: self.expanded,
        };
        proof {
            lemma_entry_views(copy.children@);
            lemma_entry_views(self.children@);
            assert(copy@.children =~= self@.children);
        }
        copy
    }
}

impl AssetEntry {
    /// Creates a new file entry.
    pub fn file(name: String, path: String) -> (entry: Self)
        ensures
            entry@ == (AssetEntryView {
                name: name@,
                path: path@,
                is_directory: false,
                children: Seq::empty(),
                expanded: false,
            }),
    {
        Self { name, path, is_directory: false, children: Vec::new(), expanded: false }
    }

    /// Creates a new directory entry.
    pub fn directory(name: String, path: String) -> (entry: Self)
        ensures
            entry@ == (AssetEntryView {
                name: name@,
                path: path@,
                is_directory: true,
                children: Seq::empty(),
                expanded: false,
            }),
    {
        Self { name, path, is_directory: true, children: Vec::new(), expanded: false }
    }
}

/// `entry` with its directory opened if it was closed and closed if it was open.
pub open spec fn flipped(entry: AssetEntryView) -> AssetEntryView {
    AssetEntryView { expanded: !entry.expanded, ..entry }
}

/// `entry` is the directory at `path`.
pub open spec fn is_directory_at(entry: AssetEntryView, path: Seq<char>) -> bool {
    entry.is_directory && entry.path == path
}

/// The list after the directory at `path` has been toggled.
///
/// The list is walked from its start. The first directory in it whose path
/// is `path` is flipped and ends the walk. Every entry before that one is
/// searched below, the entries after it are left alone.
pub open spec fn toggled(entries: Seq<AssetEntryView>, path: Seq<char>) -> Seq<AssetEntryView>
    decreases entries,
{
    if entries.len() == 0 {
        entries
    } else if is_directory_at(entries.first(), path) {
        seq![flipped(entries.first())] + entries.drop_first()
    } else {
        seq![searched_below(entries.first(), path)] + toggled(entries.drop_first(), path)
    }
}

/// `entry` after the search for `path` has passed it: a directory whose own
/// path begins `path` has its children toggled, any other entry is unchanged.
pub open spec fn searched_below(entry: AssetEntryView, path: Seq<char>) -> AssetEntryView
    decreases entry,
{
    if entry.is_directory && occurs_at(path, entry.path, 0) {
        AssetEntryView { children: toggled(entry.children, path), ..entry }
    } else {
        entry
    }
}

/// Toggling opens and closes directories and changes nothing else: the
/// list keeps its length, and every entry its name, its path, its kind and
/// the number of its children.
pub proof fn lemma_toggle_keeps_shape(entries: Seq<AssetEntryView>, path: Seq<char>)
    ensures
        toggled(entries, path).len() == entries.len(),
        forall|i: int|
            0 <= i < entries.len() ==> {
                let after = #[trigger] toggled(entries, path)[i];
                &&& after.name == entries[i].name
                &&& after.path == entries[i].path
                &&& after.is_directory == entries[i].is_directory
                &&& after.children.len() == entries[i].children.len()
            },
    decreases entries,
{
    reveal_with_fuel(toggled, 2);
    reveal_with_fuel(searched_below, 2);
    if entries.len() > 0 {
        let first = entries.first();
        let rest = entries.drop_first();
        if !is_directory_at(first, path) {
            lemma_toggle_keeps_shape(rest, path);
            lemma_toggle_keeps_shape(first.children, path);
            assert forall|i: int| 0 <= i < entries.len() implies {
                let after = #[trigger] toggled(entries, path)[i];
                &&& after.name == entries[i].name
                &&& after.path == entries[i].path
                &&& after.is_directory == entries[i].is_directory
                &&& after.children.len() == entries[i].children.len()
            } by {
                if i > 0 {
                    assert(toggled(entries, path)[i] == toggled(rest, path)[i - 1]);
                    assert(rest[i - 1] == entries[i]);
                }
            }
        }
    }
}

/// Toggling the same path twice leaves the tree as it was.
pub proof fn lemma_toggle_twice_restores(entries: Seq<AssetEntryView>, path: Seq<char>)
    ensures
        toggled(toggled(entries, path), path) == entries,
    decreases entries,
{
    reveal_with_fuel(toggled, 2);
    reveal_with_fuel(searched_below, 2);
    if entries.len() > 0 {
        let first = entries.first();
        let rest = entries.drop_first();
        let once = toggled(entries, path);
        if is_directory_at(first, path) {
            assert(once.first() == flipped(first));
            assert(once.drop_first() =~= rest);
            assert(flipped(flipped(first)) == first);
            assert(toggled(once, path) =~= entries);
        } else {
            lemma_toggle_twice_restores(rest, path);
            lemma_toggle_twice_restores(first.children, path);
            assert(once.first() == searched_below(first, path));
            assert(once.drop_first() =~= toggled(rest, path));
            assert(!is_directory_at(once.first(), path));
            assert(searched_below(searched_below(first, path), path) == first);
            assert(toggled(once, path) =~= entries);
        }
    } else {
        assert(toggled(entries, path) =~= entries);
    }
}

/// Where the first `passed` entries are not the directory at `path`, the
/// walk searches below each of them and goes on with the rest.
proof fn lemma_toggled_after(entries: Seq<AssetEntryView>, path: Seq<char>, passed: int)
    requires
        0 <= passed <= entries.len(),
        forall|k: int| 0 <= k < passed ==> !is_directory_at(#[trigger] entries[k], path),
    ensures
        toggled(entries, path) == Seq::new(
            passed as nat,
            |k: int| searched_below(entries[k], path),
        ) + toggled(entries.skip(passed), path),
    decreases passed,
{
    reveal_with_fuel(toggled, 2);
    if passed == 0 {
        assert(entries.skip(0) =~= entries);
        assert(toggled(entries, path) =~= Seq::new(
            passed as nat,
            |k: int| searched_below(entries[k], path),
        ) + toggled(entries.skip(passed), path));
    } else {
        let rest = entries.drop_first();
        assert(!is_directory_at(entries[0], path));
        assert forall|k: int| 0 <= k < passed - 1 implies !is_directory_at(
            #[trigger] rest[k],
            path,
        ) by {
            assert(rest[k] == entries[k + 1]);
        }
        lemma_toggled_after(rest, path, passed - 1);
        assert(rest.skip(passed - 1) =~= entries.skip(passed));
        assert(toggled(entries, path) =~= Seq::new(
            passed as nat,
            |k: int| searched_below(entries[k], path),
        ) + toggled(entries.skip(passed), path)) by {
            let left = seq![searched_below(entries.first(), path)] + (Seq::new(
                (passed - 1) as nat,
                |k: int| searched_below(rest[k], path),
            ) + toggled(rest.skip(passed - 1), path));
            let right = Seq::new(passed as nat, |k: int| searched_below(entries[k], path))
                + toggled(entries.skip(passed), path);
            assert(toggled(entries, path) == left);
            assert(left.len() == right.len());
            assert forall|k: int| 0 <= k < left.len() implies left[k] == right[k] by {
                if 0 < k < passed {
                    assert(rest[k - 1] == entries[k]);
                }
            }
            assert(left =~= right);
        }
    }
}

/// Toggles the directory at `path` in `entries` and in the directories below.
fn toggle_directory_recursive(entries: &mut Vec<AssetEntry>, path: &str)
    ensures
        entry_views(final(entries)@) == toggled(entry_views(old(entries)@), path@),
    decreases *old(entries),
{
    let ghost before = entry_views(old(entries)@);
    proof {
        lemma_entry_views(old(entries)@);
    }
    let mut i: usize = 0;
    while i < entries.len()
        invariant
            i <= entries.len(),
            entries@.len() == old(entries)@.len(),
            before == entry_views(old(entries)@),
            before.len() == entries@.len(),
            forall|k: int| 0 <= k < before.len() ==> #[trigger] before[k] == old(entries)@[k]@,
            forall|k: int| i <= k < entries@.len() ==> #[trigger] entries@[k] == old(entries)@[k],
            forall|k: int|
                0 <= k < i ==> (#[trigger] entries@[k])@ == searched_below(before[k], path@),
            forall|k: int| 0 <= k < i ==> !is_directory_at(#[trigger] before[k], path@),
        decreases entries.len() - i,
    {
        if entries[i].is_directory && same_text(entries[i].path.as_str(), path) {
            entries[i].expanded = !entries[i].expanded;
            proof {
                lemma_toggled_after(before, path@, i as int);
                lemma_entry_views(entries@);
                reveal_with_fuel(toggled, 2);
                let rest = before.skip(i as int);
                assert(is_directory_at(rest.first(), path@));
                assert(entry_views(entries@) =~= Seq::new(
                    i as nat,
                    |k: int| searched_below(before[k], path@),
                ) + (seq![flipped(rest.first())] + rest.drop_first()));
            }
            return;
        }
        if entries[i].is_directory && starts_with(path, entries[i].path.as_str()) {
            proof {
                assert(entries@[i as int] == old(entries)@[i as int]);
            }
            toggle_directory_recursive(&mut entries[i].children, path);
        }
        i += 1;
    }
    proof {
        lemma_toggled_after(before, path@, i as int);
        lemma_entry_views(entries@);
        reveal_with_fuel(toggled, 2);
        assert(before.skip(i as int) =~= Seq::empty());
        assert(entry_views(entries@) =~= Seq::new(
            i as nat,
            |k: int| searched_below(before[k], path@),
        ) + toggled(before.skip(i as int), path@));
    }
}

/// Type of asset file.
#[derive(Clone, Copy, Debug, PartialEq, Eq, Structural)]
pub enum AssetType {
    /// Image files (.png, .jpg, .jpeg)
    Image,
    /// Audio files (.ogg, .wav, .mp3)
    Audio,
    /// Scene files (.scn.ron)
    Scene,
    /// Unknown file type
    Unknown,
}

/// `text` in lower case, as `str::to_lowercase` gives it.
pub uninterp spec fn lowercase(text: Seq<char>) -> Seq<char>;

/// Calls `str::to_lowercase`, which maps each character by the Unicode
/// lower-case tables. The contract only names the result.
#[verifier::external_body]
fn to_lowercase(text: &str) -> (lower: String)
    ensures
        lower@ == lowercase(text@),
{
    text.to_lowercase()
}

impl AssetType {
    /// The asset type that goes with an extension already in lower case.
    pub open spec fn of_lowercase(extension: Seq<char>) -> AssetType {
        if extension == "png"@ || extension == "jpg"@ || extension == "jpeg"@ || extension
            == "bmp"@ || extension == "gif"@ {
            AssetType::Image
        } else if extension == "ogg"@ || extension == "wav"@ || extension == "mp3"@
            || extension == "flac"@ {
            AssetType::Audio
        } else if extension == "ron"@ {
            AssetType::Scene
        } else {
            AssetType::Unknown
        }
    }

    /// Determines asset type from a file extension in lower case.
    pub fn from_lowercase_extension(extension: &str) -> (kind: Self)
        ensures
            kind == Self::of_lowercase(extension@),
    {
        if same_text(extension, "png") || same_text(extension, "jpg") || same_text(
            extension,
            "jpeg",
        ) || same_text(extension, "bmp") || same_text(extension, "gif") {
            AssetType::Image
        } else if same_text(extension, "ogg") || same_text(extension, "wav") || same_text(
            extension,
            "mp3",
        ) || same_text(extension, "flac") {
            AssetType::Audio
        } else if same_text(extension, "ron") {
            AssetType::Scene
        } else {
            AssetType::Unknown
        }
    }

    /// Determines asset type from file extension.
    ///
    /// Upper and lower case are not told apart: the extension is put into
    /// lower case first.
    pub fn from_extension(ext: &str) -> (kind: Self)
        ensures
            kind == Self::of_lowercase(lowercase(ext@)),
    {
        let lower = to_lowercase(ext);
        Self::from_lowercase_extension(lower.as_str())
    }

    /// The icon's text for each asset type.
    pub open spec fn spec_icon(self) -> Seq<char> {
        match self {
            AssetType::Image => "🖼"@,
            AssetType::Audio => "🔊"@,
            AssetType::Scene => "📄"@,
            AssetType::Unknown => "📁"@,
        }
    }

    /// Returns icon character for this asset type.
    pub fn icon(&self) -> (icon: &'static str)
        ensures
            icon@ == self.spec_icon(),
    {
        match self {
            AssetType::Image => "🖼",
            AssetType::Audio => "🔊",
            AssetType::Scene => "📄",
            AssetType::Unknown => "📁",
        }
    }
}

/// The extension of `path`: what follows its last dot, or all of it where
/// it has none.
pub open spec fn extension_of(path: Seq<char>) -> Seq<char> {
    last_segment(path, seq!['.'])
}

/// Resource tracking the state of the asset browser.
pub struct AssetBrowser {
    /// Root entries of the asset tree.
    pub files: Vec<AssetEntry>,
    /// Currently selected file path.
    pub selected_path: Option<String>,
    /// Whether the browser needs to be rescanned.
    pub needs_rescan: bool,
    /// Currently playing audio entity (if any).
    pub audio_playback_entity: Option<Entity>,
    /// Path of currently playing audio.
    pub playing_audio_path: Option<String>,
}

impl Default for AssetBrowser {
    fn default() -> (browser: Self)
        ensures
            browser.files@.len() == 0,
            browser.selected_path is None,
            !browser.needs_rescan,
            browser.audio_playback_entity is None,
            browser.playing_audio_path is None,
    {
        AssetBrowser {
            files: Vec::new(),
            selected_path: None,
            needs_rescan: false,
            audio_playback_entity: None,
            playing_audio_path: None,
        }
    }
}

impl AssetBrowser {
    /// Creates a new asset browser from a first listing of the assets directory.
    pub fn new(listing: &Vec<ListedEntry>) -> (browser: Self)
        ensures
            entry_views(browser.files@) == scanned(listed_views(listing@), Seq::empty()),
            browser.selected_path is None,
            !browser.needs_rescan,
            browser.audio_playback_entity is None,
            browser.playing_audio_path is None,
    {
        let mut browser = AssetBrowser::default();
        browser.scan_assets_directory(listing);
        browser
    }

    /// Replaces the file tree by the one for a fresh listing of the assets
    /// directory. A rescan is no longer due afterwards.
    pub fn scan_assets_directory(&mut self, listing: &Vec<ListedEntry>)
        ensures
            entry_views(final(self).files@) == scanned(listed_views(listing@), Seq::empty()),
            !final(self).needs_rescan,
            final(self).selected_path == old(self).selected_path,
            final(self).audio_playback_entity == old(self).audio_playback_entity,
            final(self).playing_audio_path == old(self).playing_audio_path,
    {
        proof {
            reveal_strlit("");
            assert(""@ =~= Seq::<char>::empty());
        }
        self.files = scan_directory(listing, "");
        self.needs_rescan = false;
    }

    /// Gets the asset type for a file path.
    pub fn get_asset_type(path: &str) -> (kind: AssetType)
        ensures
            kind == AssetType::of_lowercase(lowercase(extension_of(path@))),
    {
        proof {
            reveal_strlit(".");
            assert("."@ =~= seq!['.']);
        }
        AssetType::from_extension(last_segment_of(path, "."))
    }

    /// Toggles expansion state of a directory at the given path.
    pub fn toggle_directory(&mut self, path: &str)
        ensures
            entry_views(final(self).files@) == toggled(entry_views(old(self).files@), path@),
            final(self).selected_path == old(self).selected_path,
            final(self).needs_rescan == old(self).needs_rescan,
            final(self).audio_playback_entity == old(self).audio_playback_entity,
            final(self).playing_audio_path == old(self).playing_audio_path,
    {
        toggle_directory_recursive(&mut self.files, path);
    }

    /// Checks if a specific audio file is playing.
    pub fn is_playing(&self, path: &str) -> (playing: bool)
        ensures
            playing == (self.playing_audio_path matches Some(current) && current@ == path@),
    {
        match &self.playing_audio_path {
            Some(current) => same_text(current.as_str(), path),
            None => false,
        }
    }
}

} // verus!
