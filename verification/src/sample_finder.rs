//! The folder scanner: which entries of a directory walk are audio samples,
//! and which stems each folder holds.

use crate::letters::texts;
use vstd::prelude::*;

verus! {

/// What a directory walk found at one path. The walk itself is the caller's
/// business; the library reads these values only.
pub struct ScannedEntry {
    /// The path of the entry.
    pub path: String,
    /// Whether the entry is a file.
    pub is_file: bool,
    /// The extension of the file name, without the dot, if it has one.
    pub extension: Option<String>,
    /// The file name without its extension, if it has one that is text.
    pub stem: Option<String>,
    /// The folder that holds the entry, if the path has a parent.
    pub folder: Option<String>,
}

/// A folder and the stems of the samples found directly in it, in scan order.
pub struct Folder {
    pub path: String,
    pub stems: Vec<String>,
}

/// A folder, as the specifications read it.
pub struct FolderView {
    pub path: Seq<char>,
    pub stems: Seq<Seq<char>>,
}

impl View for Folder {
    type V = FolderView;

    open spec fn view(&self) -> FolderView {
        FolderView { path: self.path@, stems: texts(self.stems@) }
    }
}

/// The folders of a list, as the specifications read them.
pub open spec fn folder_views(folders: Seq<Folder>) -> Seq<FolderView> {
    Seq::new(folders.len(), |i: int| folders[i]@)
}

/// The extension of an audio sample: `wav`, in any letter case.
pub open spec fn audio_extension(extension: Seq<char>) -> bool {
    &&& extension.len() == 3
    &&& (extension[0] == 'w' || extension[0] == 'W')
    &&& (extension[1] == 'a' || extension[1] == 'A')
    &&& (extension[2] == 'v' || extension[2] == 'V')
}

/// The folder of an entry without a parent: the current directory.
pub open spec fn current_folder() -> Seq<char> {
    "."@
}

impl ScannedEntry {
    /// The entry is an audio sample: a file with the audio extension.
    pub open spec fn is_sample(&self) -> bool {
        self.is_file && (self.extension matches Some(extension) && audio_extension(extension@))
    }

    /// The entry is a sample whose stem can be reported.
    pub open spec fn has_stem(&self) -> bool {
        self.is_sample() && self.stem is Some
    }

    /// The folder that the entry belongs to.
    pub open spec fn folder_text(&self) -> Seq<char> {
        match self.folder {
            Some(folder) => folder@,
            None => current_folder(),
        }
    }
}

/// The paths of the samples among the first `n` entries, in scan order.
pub open spec fn sample_paths(entries: Seq<ScannedEntry>, n: nat) -> Seq<Seq<char>>
    decreases n,
{
    if n == 0 {
        Seq::empty()
    } else if entries[n - 1].is_sample() {
        sample_paths(entries, (n - 1) as nat).push(entries[n - 1].path@)
    } else {
        sample_paths(entries, (n - 1) as nat)
    }
}

/// The stems that the first `n` entries put into `folder`, in scan order.
pub open spec fn stems_in(entries: Seq<ScannedEntry>, n: nat, folder: Seq<char>) -> Seq<Seq<char>>
    decreases n,
{
    if n == 0 {
        Seq::empty()
    } else if entries[n - 1].has_stem() && entries[n - 1].folder_text() == folder {
        stems_in(entries, (n - 1) as nat, folder).push(entries[n - 1].stem->0@)
    } else {
        stems_in(entries, (n - 1) as nat, folder)
    }
}

/// The folders that the first `n` entries put a stem into, each once, in the
/// order in which the scan came to them first.
pub open spec fn folders_seen(entries: Seq<ScannedEntry>, n: nat) -> Seq<Seq<char>>
    decreases n,
{
    if n == 0 {
        Seq::empty()
    } else {
        let before = folders_seen(entries, (n - 1) as nat);
        let entry = entries[n - 1];
        if entry.has_stem() && !before.contains(entry.folder_text()) {
            before.push(entry.folder_text())
        } else {
            before
        }
    }
}

/// The folders of a scan with their stems.
pub open spec fn folders_of(entries: Seq<ScannedEntry>) -> Seq<FolderView> {
    let paths = folders_seen(entries, entries.len());
    Seq::new(
        paths.len(),
        |i: int| FolderView { path: paths[i], stems: stems_in(entries, entries.len(), paths[i]) },
    )
}

/// Whether `extension` is the audio extension.
pub fn is_audio_extension(extension: &str) -> (audio: bool)
    ensures
        audio == audio_extension(extension@),
{
    if extension.unicode_len() != 3 {
        return false;
    }
    let w = extension.get_char(0);
    let a = extension.get_char(1);
    let v = extension.get_char(2);
    (w == 'w' || w == 'W') && (a == 'a' || a == 'A') && (v == 'v' || v == 'V')
}

/// Whether an entry is an audio sample.
pub fn is_sample(entry: &ScannedEntry) -> (sample: bool)
    ensures
        sample == entry.is_sample(),
{
    if !entry.is_file {
        return false;
    }
    match &entry.extension {
        Some(extension) => is_audio_extension(extension.as_str()),
        None => false,
    }
}

/// The paths of the audio samples of a scan, in scan order.
pub fn find_samples(entries: &Vec<ScannedEntry>) -> (paths: Vec<String>)
    ensures
        texts(paths@) == sample_paths(entries@, entries@.len()),
{
    let mut paths: Vec<String> = Vec::new();
    let mut n: usize = 0;
    while n < entries.len()
        invariant
            n <= entries.len(),
            texts(paths@) == sample_paths(entries@, n as nat),
        decreases entries.len() - n,
    {
        if is_sample(&entries[n]) {
            let ghost before = texts(paths@);
            paths.push(entries[n].path.clone());
            assert(texts(paths@) =~= before.push(entries[n as int].path@));
        }
        n += 1;
    }
    paths
}

/// The place of the folder `path` in `folders`, if it is among them.
fn folder_index(folders: &Vec<Folder>, path: &String) -> (found: Option<usize>)
    ensures
        found matches Some(i) ==> i < folders.len() && folders[i as int].path@ == path@,
        found is None ==> forall|i: int|
            0 <= i < folders.len() ==> (#[trigger] folders[i]).path@ != path@,
{
    let mut i: usize = 0;
    while i < folders.len()
        invariant
            i <= folders.len(),
            forall|j: int| 0 <= j < i ==> (#[trigger] folders[j]).path@ != path@,
        decreases folders.len() - i,
    {
        if folders[i].path == *path {
            return Some(i);
        }
        i += 1;
    }
    None
}

/// No folder of a scan is listed twice.
pub proof fn lemma_folders_seen_once(entries: Seq<ScannedEntry>, n: nat)
    ensures
        folders_seen(entries, n).no_duplicates(),
    decreases n,
{
    if n > 0 {
        lemma_folders_seen_once(entries, (n - 1) as nat);
    }
}

/// Every folder of a scan holds a stem.
pub proof fn lemma_folders_hold_stems(entries: Seq<ScannedEntry>, n: nat)
    ensures
        forall|i: int|
            0 <= i < folders_seen(entries, n).len() ==> stems_in(
                entries,
                n,
                #[trigger] folders_seen(entries, n)[i],
            ).len() > 0,
    decreases n,
{
    if n > 0 {
        let before = folders_seen(entries, (n - 1) as nat);
        let now = folders_seen(entries, n);
        lemma_folders_hold_stems(entries, (n - 1) as nat);
        assert forall|i: int| 0 <= i < now.len() implies stems_in(entries, n, #[trigger] now[i]).len()
            > 0 by {
            if i < before.len() {
                assert(now[i] == before[i]);
            }
        }
    }
}

/// Sorts the stems of a scan's samples by folder. Each folder that holds a
/// sample stands once, in the order in which the scan came to the folders
/// first, with the stems of its samples in scan order. An entry that is no
/// sample, or has no stem, adds nothing.
pub fn collect_folders(entries: &Vec<ScannedEntry>) -> (folders: Vec<Folder>)
    ensures
        folder_views(folders@) == folders_of(entries@),
{
    let mut folders: Vec<Folder> = Vec::new();
    let mut n: usize = 0;
    while n < entries.len()
        invariant
            n <= entries.len(),
            folders.len() == folders_seen(entries@, n as nat).len(),
            forall|i: int|
                0 <= i < folders.len() ==> (#[trigger] folders[i]).path@ == folders_seen(
                    entries@,
                    n as nat,
                )[i],
            forall|i: int|
                0 <= i < folders.len() ==> texts((#[trigger] folders[i]).stems@) == stems_in(
                    entries@,
                    n as nat,
                    folders[i].path@,
                ),
        decreases entries.len() - n,
    {
        let entry = &entries[n];
        let ghost before = folders_seen(entries@, n as nat);
        let ghost old_folders = folders@;
        proof {
            lemma_folders_seen_once(entries@, n as nat);
        }
        if is_sample(entry) {
            match &entry.stem {
                Some(stem) => {
                    let path = match &entry.folder {
                        Some(folder) => folder.clone(),
                        None => ".".to_owned(),
                    };
                    match folder_index(&folders, &path) {
                        Some(i) => {
                            let mut folder = folders.remove(i);
                            folder.stems.push(stem.clone());
                            folders.insert(i, folder);
                            assert forall|j: int| 0 <= j < folders.len() implies (
                            #[trigger] folders[j]).path@ == old_folders[j].path@ by {}
                            assert forall|j: int| 0 <= j < folders.len() && j != i implies (
                            #[trigger] folders[j]).stems@ == old_folders[j].stems@ by {}
                        },
                        None => {
                            assert(!before.contains(path@)) by {
                                if before.contains(path@) {
                                    let j = choose|j: int| 0 <= j < before.len() && before[j] == path@;
                                    assert(folders[j].path@ == path@);
                                }
                            }
                            let mut stems: Vec<String> = Vec::new();
                            stems.push(stem.clone());
                            proof {
                                lemma_no_stems_before(entries@, n as nat, path@);
                            }
                            folders.push(Folder { path, stems });
                        },
                    }
                },
                None => {},
            }
        }
        n += 1;
    }
    folders
}

/// A folder that the first `n` entries did not come to has no stems of
/// theirs.
proof fn lemma_no_stems_before(entries: Seq<ScannedEntry>, n: nat, folder: Seq<char>)
    requires
        !folders_seen(entries, n).contains(folder),
    ensures
        stems_in(entries, n, folder) == Seq::<Seq<char>>::empty(),
    decreases n,
{
    if n > 0 {
        let before = folders_seen(entries, (n - 1) as nat);
        let now = folders_seen(entries, n);
        if before.contains(folder) {
            let j = choose|j: int| 0 <= j < before.len() && before[j] == folder;
            assert(now[j] == folder);
        }
        lemma_no_stems_before(entries, (n - 1) as nat, folder);
        let entry = entries[n - 1];
        if entry.has_stem() && entry.folder_text() == folder {
            if !before.contains(folder) {
                assert(now[now.len() - 1] == folder);
            }
        }
    }
}

} // verus!
