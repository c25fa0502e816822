//! The files that the user has picked for installation, and how an install is chosen.

use vstd::prelude::*;

use crate::paths::{path_matches, paths_equal};
use crate::UsbProtocol;

verus! {

/// How the games are sent to the console.
#[derive(Clone, Copy, Debug, PartialEq, Eq, Structural)]
pub enum InstallType {
    Usb { protocol: UsbProtocol },
    Network,
}

impl InstallType {
    /// The label shown for this install type.
    pub fn as_str(&self) -> (label: &'static str)
        ensures
            label@ == (match self {
                InstallType::Usb { protocol: UsbProtocol::TinFoil } => "🔌 USB (Awoo, CyberFoil, etc.)"@,
                InstallType::Usb { protocol: UsbProtocol::Sphaira } => "🔌 USB (Sphaira)"@,
                InstallType::Network => "🖧 Network"@,
            }),
    {
        match self {
            InstallType::Usb { protocol: UsbProtocol::TinFoil } => "🔌 USB (Awoo, CyberFoil, etc.)",
            InstallType::Usb { protocol: UsbProtocol::Sphaira } => "🔌 USB (Sphaira)",
            InstallType::Network => "🖧 Network",
        }
    }
}

impl Default for InstallType {
    fn default() -> (install_type: Self)
        ensures
            install_type == (InstallType::Usb { protocol: UsbProtocol::TinFoil }),
    {
        InstallType::Usb { protocol: UsbProtocol::TinFoil }
    }
}

/// What the user picked: one file, or a directory to look for games in.
pub enum Pick {
    File(String),
    Folder { path: String, recurse: bool },
}

/// What staging a pick takes first.
pub enum PickRequest {
    /// Stage these paths.
    Stage(Vec<String>),
    /// Look for game backups under `path`, at most `max_depth` levels down,
    /// and stage what is found.
    Walk { path: String, max_depth: usize },
}

/// What staging a pick takes: a picked file is staged as it is; a picked
/// folder is walked, through all its depth when `recurse` is set and one level
/// down otherwise.
pub fn pick_request(pick: Pick) -> (req: PickRequest)
    ensures
        match pick {
            Pick::File(p) => req matches PickRequest::Stage(v) && v.deep_view() == seq![p@],
            Pick::Folder { path, recurse } => req matches PickRequest::Walk { path: q, max_depth }
                && q@ == path@ && max_depth == (if recurse {
                usize::MAX
            } else {
                1
            }),
        },
{
    match pick {
        Pick::File(p) => {
            let mut v: Vec<String> = Vec::new();
            v.push(p);
            assert(v.deep_view() =~= seq![p@]);
            PickRequest::Stage(v)
        },
        Pick::Folder { path, recurse } => PickRequest::Walk {
            path,
            max_depth: crate::paths::max_walk_depth(recurse),
        },
    }
}

/// Where an install goes, once it can start.
#[derive(Clone, Copy, Debug, PartialEq, Eq)]
pub enum InstallTarget {
    Usb { protocol: UsbProtocol },
    /// A network install to the console at this IPv4 address.
    Network { target_ip: [u8; 4] },
}

/// Why an install cannot start.
#[derive(Clone, Copy, Debug, PartialEq, Eq, Structural)]
pub enum StartInstallError {
    /// A network install was asked for without a valid target IP address.
    InvalidTargetIp,
}

/// Where an install of the chosen type goes: a USB install needs nothing more;
/// a network install needs the console's IP address, which is `None` when what
/// the user typed is not a valid one.
pub fn install_target(install_type: InstallType, target_ip: Option<[u8; 4]>) -> (res: Result<
    InstallTarget,
    StartInstallError,
>)
    ensures
        match install_type {
            InstallType::Usb { protocol } => res == Ok::<InstallTarget, StartInstallError>(
                InstallTarget::Usb { protocol },
            ),
            InstallType::Network => match target_ip {
                Some(ip) => res == Ok::<InstallTarget, StartInstallError>(
                    InstallTarget::Network { target_ip: ip },
                ),
                None => res == Err::<InstallTarget, StartInstallError>(
                    StartInstallError::InvalidTargetIp,
                ),
            },
        },
{
    match install_type {
        InstallType::Usb { protocol } => Ok(InstallTarget::Usb { protocol }),
        InstallType::Network => match target_ip {
            Some(ip) => Ok(InstallTarget::Network { target_ip: ip }),
            None => Err(StartInstallError::InvalidTargetIp),
        },
    }
}

/// How the install thread finished, once joined.
#[derive(Clone, Copy, Debug, PartialEq, Eq, Structural)]
pub enum InstallThreadEnd {
    Succeeded,
    Failed,
    Panicked,
}

/// What the user is told when an install has ended.
#[derive(Clone, Copy, Debug, PartialEq, Eq, Structural)]
pub enum InstallOutcome {
    Cancelled,
    Completed,
    Failed,
    Crashed,
}

/// What the user is told when an install has ended: a cancelled install is
/// reported as cancelled without looking at its thread; otherwise the thread's
/// end decides, and `None` asks for the thread to be joined first.
pub fn install_outcome(cancelled: bool, thread_end: Option<InstallThreadEnd>) -> (outcome: Option<
    InstallOutcome,
>)
    ensures
        outcome == (if cancelled {
            Some(InstallOutcome::Cancelled)
        } else {
            match thread_end {
                None => None,
                Some(InstallThreadEnd::Succeeded) => Some(InstallOutcome::Completed),
                Some(InstallThreadEnd::Failed) => Some(InstallOutcome::Failed),
                Some(InstallThreadEnd::Panicked) => Some(InstallOutcome::Crashed),
            }
        }),
{
    if cancelled {
        return Some(InstallOutcome::Cancelled);
    }
    match thread_end {
        None => None,
        Some(InstallThreadEnd::Succeeded) => Some(InstallOutcome::Completed),
        Some(InstallThreadEnd::Failed) => Some(InstallOutcome::Failed),
        Some(InstallThreadEnd::Panicked) => Some(InstallOutcome::Crashed),
    }
}

/// How `humansize::format_size` writes a number of bytes with binary units.
pub uninterp spec fn binary_size_text(bytes: u64) -> Seq<char>;

/// Calls `humansize::format_size` with the `BINARY` options (units of 1024,
/// two decimal places). The text depends on the number alone.
#[verifier::external_body]
pub(crate) fn format_size_binary(bytes: u64) -> (text: String)
    ensures
        text@ == binary_size_text(bytes),
{
    humansize::format_size(bytes, humansize::BINARY)
}

/// One staged file, in plain values.
pub struct StagedFileView {
    pub path: Seq<char>,
    pub file_size: u64,
    pub selected: bool,
}

/// One staged file.
pub struct StagedFile {
    path: String,
    file_size: u64,
    selected: bool,
}

impl StagedFile {
    pub closed spec fn view(&self) -> StagedFileView {
        StagedFileView { path: self.path@, file_size: self.file_size, selected: self.selected }
    }
}

/// The sum of the sizes of `files`.
pub open spec fn total_size(files: Seq<StagedFileView>) -> nat
    decreases files.len(),
{
    if files.len() == 0 {
        0
    } else {
        total_size(files.drop_last()) + files.last().file_size as nat
    }
}

/// The sum of the sizes of the selected `files`.
pub open spec fn selected_size(files: Seq<StagedFileView>) -> nat
    decreases files.len(),
{
    if files.len() == 0 {
        0
    } else {
        selected_size(files.drop_last()) + if files.last().selected {
            files.last().file_size as nat
        } else {
            0
        }
    }
}

/// The number of selected `files`.
pub open spec fn selected_count_spec(files: Seq<StagedFileView>) -> nat
    decreases files.len(),
{
    if files.len() == 0 {
        0
    } else {
        selected_count_spec(files.drop_last()) + if files.last().selected {
            1nat
        } else {
            0
        }
    }
}

/// Whether one of `files` stands for the path `path`.
pub open spec fn stages(files: Seq<StagedFileView>, path: Seq<char>) -> bool {
    exists|i: int| 0 <= i < files.len() && path_matches(files[i].path, path)
}

/// No path is staged twice.
pub open spec fn paths_unique(files: Seq<StagedFileView>) -> bool {
    forall|i: int, j: int|
        0 <= i < j < files.len() ==> !path_matches(files[i].path, files[j].path)
}

/// `files` after adding each new `(path, size)` whose path is not staged yet,
/// selected, in order.
pub open spec fn extended_unique(
    files: Seq<StagedFileView>,
    new_files: Seq<(Seq<char>, u64)>,
) -> Seq<StagedFileView>
    decreases new_files.len(),
{
    if new_files.len() == 0 {
        files
    } else {
        let before = extended_unique(files, new_files.drop_last());
        let (path, file_size) = new_files.last();
        if stages(before, path) {
            before
        } else {
            before.push(StagedFileView { path, file_size, selected: true })
        }
    }
}

/// The files that are not selected, in order.
pub open spec fn unselected(files: Seq<StagedFileView>) -> Seq<StagedFileView>
    decreases files.len(),
{
    if files.len() == 0 {
        files
    } else if files.last().selected {
        unselected(files.drop_last())
    } else {
        unselected(files.drop_last()).push(files.last())
    }
}

/// The paths of the selected files, in order.
pub open spec fn selected_paths_spec(files: Seq<StagedFileView>) -> Seq<Seq<char>>
    decreases files.len(),
{
    if files.len() == 0 {
        Seq::empty()
    } else if files.last().selected {
        selected_paths_spec(files.drop_last()).push(files.last().path)
    } else {
        selected_paths_spec(files.drop_last())
    }
}

/// The plain values of new `(path, size)` pairs.
pub open spec fn new_files_view(new_files: Seq<(String, u64)>) -> Seq<(Seq<char>, u64)> {
    new_files.map_values(|t: (String, u64)| (t.0@, t.1))
}

/// The files staged for installation, with their total size.
pub struct StagedFiles {
    files: Vec<StagedFile>,
    total_file_size: u64,
}

impl StagedFiles {
    /// The staged files, in the order they were added.
    pub closed spec fn view(&self) -> Seq<StagedFileView> {
        self.files@.map_values(|f: StagedFile| f.view())
    }

    /// The total size matches the files, and no path is staged twice.
    pub closed spec fn wf(&self) -> bool {
        &&& self.total_file_size == total_size(self@)
        &&& paths_unique(self@)
    }

    /// The total size of the staged files.
    pub closed spec fn total_file_size_spec(&self) -> u64 {
        self.total_file_size
    }

    /// A well-formed stage holds no path twice, and its total is the sum of
    /// the sizes of its files.
    pub proof fn lemma_wf(&self)
        requires
            self.wf(),
        ensures
            paths_unique(self@),
            self.total_file_size_spec() == total_size(self@),
    {
    }

    /// Nothing staged.
    pub fn new() -> (s: Self)
        ensures
            s.wf(),
            s@ == Seq::<StagedFileView>::empty(),
    {
        let s = StagedFiles { files: Vec::new(), total_file_size: 0 };
        assert(s@ =~= Seq::<StagedFileView>::empty());
        s
    }

    /// Whether nothing is staged.
    pub fn is_empty(&self) -> (empty: bool)
        ensures
            empty == (self@.len() == 0),
    {
        self.files.len() == 0
    }

    /// The number of staged files.
    pub fn count(&self) -> (n: usize)
        ensures
            n == self@.len(),
    {
        self.files.len()
    }

    /// The total size of the staged files.
    pub fn total_file_size(&self) -> (size: u64)
        requires
            self.wf(),
        ensures
            size == total_size(self@),
    {
        self.total_file_size
    }

    /// The path of staged file `i`.
    pub fn path(&self, i: usize) -> (path: &String)
        requires
            i < self@.len(),
        ensures
            path@ == self@[i as int].path,
    {
        &self.files[i].path
    }

    /// The size of staged file `i`.
    pub fn file_size(&self, i: usize) -> (size: u64)
        requires
            i < self@.len(),
        ensures
            size == self@[i as int].file_size,
    {
        self.files[i].file_size
    }

    /// Whether staged file `i` is selected.
    pub fn is_selected(&self, i: usize) -> (selected: bool)
        requires
            i < self@.len(),
        ensures
            selected == self@[i as int].selected,
    {
        self.files[i].selected
    }

    /// Selects or deselects staged file `i`.
    pub fn set_selected(&mut self, i: usize, selected: bool)
        requires
            old(self).wf(),
            i < old(self)@.len(),
        ensures
            final(self).wf(),
            final(self)@ == old(self)@.update(
                i as int,
                StagedFileView { selected, ..old(self)@[i as int] },
            ),
    {
        let ghost before = self@;
        let mut f = StagedFile {
            path: self.files[i].path.clone(),
            file_size: self.files[i].file_size,
            selected,
        };
        self.files.set(i, f);
        assert(self@ =~= before.update(i as int, StagedFileView { selected, ..before[i as int] }));
        proof {
            lemma_total_size_ignores_selection(before, self@);
        }
    }

    /// Whether any staged file is selected.
    pub fn has_any_selected(&self) -> (any: bool)
        ensures
            any == exists|i: int| 0 <= i < self@.len() && self@[i].selected,
    {
        let mut i: usize = 0;
        while i < self.files.len()
            invariant
                i <= self@.len(),
                forall|j: int| 0 <= j < i ==> !self@[j].selected,
            decreases self@.len() - i,
        {
            if self.files[i].selected {
                assert(self@[i as int].selected);
                return true;
            }
            i = i + 1;
        }
        false
    }

    /// Sets the selection of every staged file to `selected`.
    fn set_all(&mut self, selected: bool)
        requires
            old(self).wf(),
        ensures
            final(self).wf(),
            final(self)@.len() == old(self)@.len(),
            forall|i: int|
                0 <= i < final(self)@.len() ==> #[trigger] final(self)@[i] == (StagedFileView {
                    selected,
                    ..old(self)@[i]
                }),
    {
        let ghost before = self@;
        let mut i: usize = 0;
        while i < self.files.len()
            invariant
                i <= self@.len(),
                self@.len() == before.len(),
                self.wf(),
                forall|j: int|
                    0 <= j < self@.len() ==> #[trigger] self@[j] == (if j < i {
                        StagedFileView { selected, ..before[j] }
                    } else {
                        before[j]
                    }),
            decreases self@.len() - i,
        {
            self.set_selected(i, selected);
            i = i + 1;
        }
    }

    /// Deselects every staged file.
    pub fn deselect_all(&mut self)
        requires
            old(self).wf(),
        ensures
            final(self).wf(),
            final(self)@.len() == old(self)@.len(),
            forall|i: int|
                0 <= i < final(self)@.len() ==> #[trigger] final(self)@[i] == (StagedFileView {
                    selected: false,
                    ..old(self)@[i]
                }),
    {
        self.set_all(false);
    }

    /// Selects every staged file.
    pub fn select_all(&mut self)
        requires
            old(self).wf(),
        ensures
            final(self).wf(),
            final(self)@.len() == old(self)@.len(),
            forall|i: int|
                0 <= i < final(self)@.len() ==> #[trigger] final(self)@[i] == (StagedFileView {
                    selected: true,
                    ..old(self)@[i]
                }),
    {
        self.set_all(true);
    }

    /// Whether `path` is staged: as the same string, or as an equal path.
    pub fn contains(&self, path: &String) -> (found: bool)
        ensures
            found == stages(self@, path@),
    {
        let mut i: usize = 0;
        while i < self.files.len()
            invariant
                i <= self@.len(),
                forall|j: int| 0 <= j < i ==> !path_matches(#[trigger] self@[j].path, path@),
            decreases self@.len() - i,
        {
            if self.files[i].path == *path || paths_equal(
                self.files[i].path.as_str(),
                path.as_str(),
            ) {
                assert(path_matches(self@[i as int].path, path@));
                return true;
            }
            assert(!path_matches(self@[i as int].path, path@));
            i = i + 1;
        }
        false
    }

    /// Stages each new `(path, size)` whose path is not staged yet (as the same
    /// string or an equal path), selected, in order, and adds its size to the total. When the
    /// total would not fit in a `u64`, nothing is staged and `false` is returned.
    pub fn extend_unique(&mut self, new_files: Vec<(String, u64)>) -> (staged: bool)
        requires
            old(self).wf(),
        ensures
            final(self).wf(),
            staged == (total_size(extended_unique(old(self)@, new_files_view(new_files@)))
                <= u64::MAX),
            staged ==> final(self)@ == extended_unique(old(self)@, new_files_view(new_files@)),
            !staged ==> final(self)@ == old(self)@,
    {
        let ghost start = self@;
        let ghost new = new_files_view(new_files@);
        let start_len = self.files.len();
        let start_total = self.total_file_size;
        let mut i: usize = 0;
        while i < new_files.len()
            invariant
                i <= new_files@.len(),
                new == new_files_view(new_files@),
                start_len == start.len(),
                start_total == total_size(start),
                start == old(self)@,
                start_len == old(self).files@.len(),
                old(self).wf(),
                start.len() <= self@.len(),
                forall|k: int| 0 <= k < start.len() ==> self.files@[k] == old(self).files@[k],
                self@ == extended_unique(start, new.take(i as int)),
                self.wf(),
            decreases new_files@.len() - i,
        {
            proof {
                assert(new.take(i + 1).drop_last() =~= new.take(i as int));
                assert(new.take(i + 1).last() == new[i as int]);
            }
            let path = new_files[i].0.clone();
            let file_size = new_files[i].1;
            if !self.contains(&path) {
                if self.total_file_size > u64::MAX - file_size {
                    proof {
                        let nv = StagedFileView { path: path@, file_size, selected: true };
                        assert(new[i as int] == (path@, file_size));
                        assert(extended_unique(start, new.take(i + 1)) == self@.push(nv));
                        lemma_total_size_push(self@, nv);
                        lemma_extended_unique(start, new, i + 1);
                    }
                    self.files.truncate(start_len);
                    self.total_file_size = start_total;
                    assert(self.files@ =~= old(self).files@);
                    assert(self@ =~= old(self)@);
                    return false;
                }
                let ghost before = self@;
                self.files.push(StagedFile { path, file_size, selected: true });
                self.total_file_size = self.total_file_size + file_size;
                assert(self@ =~= before.push(StagedFileView { path: path@, file_size, selected: true }));
                proof {
                    lemma_total_size_push(before, StagedFileView { path: path@, file_size, selected: true });
                }
            }
            i = i + 1;
        }
        assert(new.take(new_files@.len() as int) =~= new);
        true
    }

    /// Unstages the selected files; the total becomes that of the files left.
    pub fn remove_selected(&mut self)
        requires
            old(self).wf(),
        ensures
            final(self).wf(),
            final(self)@ == unselected(old(self)@),
    {
        let ghost all = self@;
        proof {
            lemma_unselected(all);
        }
        let mut kept: Vec<StagedFile> = Vec::new();
        let mut kept_total: u64 = 0;
        let mut i: usize = 0;
        while i < self.files.len()
            invariant
                i <= all.len(),
                all == self@,
                self.wf(),
                kept@.map_values(|f: StagedFile| f.view()) == unselected(all.take(i as int)),
                kept_total == total_size(unselected(all.take(i as int))),
            decreases all.len() - i,
        {
            proof {
                assert(all.take(i + 1).drop_last() =~= all.take(i as int));
                lemma_unselected(all.take(i + 1));
                lemma_total_size_prefix(all, i + 1);
            }
            if !self.files[i].selected {
                let ghost before = kept@.map_values(|f: StagedFile| f.view());
                let f = StagedFile {
                    path: self.files[i].path.clone(),
                    file_size: self.files[i].file_size,
                    selected: false,
                };
                proof {
                    assert(all.take(i + 1).last() == all[i as int]);
                    lemma_total_size_push(before, all[i as int]);
                }
                kept.push(f);
                kept_total = kept_total + self.files[i].file_size;
                assert(kept@.map_values(|f: StagedFile| f.view()) =~= before.push(all[i as int]));
            }
            i = i + 1;
        }
        assert(all.take(all.len() as int) =~= all);
        self.files = kept;
        self.total_file_size = kept_total;
    }

    /// The number of selected files.
    pub fn selected_count(&self) -> (n: usize)
        ensures
            n == selected_count_spec(self@),
    {
        let mut n: usize = 0;
        let mut i: usize = 0;
        while i < self.files.len()
            invariant
                i <= self@.len(),
                n == selected_count_spec(self@.take(i as int)),
                n <= i,
            decreases self@.len() - i,
        {
            assert(self@.take(i + 1).drop_last() =~= self@.take(i as int));
            if self.files[i].selected {
                n = n + 1;
            }
            i = i + 1;
        }
        assert(self@.take(self@.len() as int) =~= self@);
        n
    }

    /// The total size of the selected files.
    pub fn selected_size(&self) -> (size: u64)
        requires
            self.wf(),
        ensures
            size == selected_size(self@),
    {
        proof {
            lemma_unselected(self@);
        }
        let mut size: u64 = 0;
        let mut i: usize = 0;
        while i < self.files.len()
            invariant
                i <= self@.len(),
                self.wf(),
                selected_size(self@) <= u64::MAX,
                size == selected_size(self@.take(i as int)),
            decreases self@.len() - i,
        {
            assert(self@.take(i + 1).drop_last() =~= self@.take(i as int));
            proof {
                lemma_total_size_prefix(self@, i + 1);
            }
            if self.files[i].selected {
                size = size + self.files[i].file_size;
            }
            i = i + 1;
        }
        assert(self@.take(self@.len() as int) =~= self@);
        size
    }

    /// The paths of the selected files, in order: what an install is started with.
    pub fn selected_paths(&self) -> (paths: Vec<String>)
        ensures
            paths.deep_view() == selected_paths_spec(self@),
    {
        let mut paths: Vec<String> = Vec::new();
        let mut i: usize = 0;
        while i < self.files.len()
            invariant
                i <= self@.len(),
                paths.deep_view() == selected_paths_spec(self@.take(i as int)),
            decreases self@.len() - i,
        {
            assert(self@.take(i + 1).drop_last() =~= self@.take(i as int));
            if self.files[i].selected {
                paths.push(self.files[i].path.clone());
                assert(paths.deep_view() =~= selected_paths_spec(self@.take(i + 1)));
            }
            i = i + 1;
        }
        assert(self@.take(self@.len() as int) =~= self@);
        paths
    }

    /// The total size of the selected files, written for people (binary units).
    pub fn selected_human_size(&self) -> (text: String)
        requires
            self.wf(),
        ensures
            text@ == binary_size_text(selected_size(self@) as u64),
    {
        format_size_binary(self.selected_size())
    }

    /// The total size of the staged files, written for people (binary units).
    pub fn human_size(&self) -> (text: String)
        requires
            self.wf(),
        ensures
            text@ == binary_size_text(total_size(self@) as u64),
    {
        format_size_binary(self.total_file_size)
    }
}

/// Adding a file adds its size.
proof fn lemma_total_size_push(files: Seq<StagedFileView>, f: StagedFileView)
    ensures
        total_size(files.push(f)) == total_size(files) + f.file_size,
        selected_size(files.push(f)) == selected_size(files) + if f.selected {
            f.file_size as nat
        } else {
            0
        },
{
    assert(files.push(f).drop_last() =~= files);
}

/// The total of a prefix is at most the total.
proof fn lemma_total_size_prefix(files: Seq<StagedFileView>, i: int)
    requires
        0 <= i <= files.len(),
    ensures
        total_size(files.take(i)) <= total_size(files),
        selected_size(files.take(i)) <= selected_size(files),
    decreases files.len() - i,
{
    if i < files.len() {
        lemma_total_size_prefix(files, i + 1);
        assert(files.take(i + 1).drop_last() =~= files.take(i));
    } else {
        assert(files.take(i) =~= files);
    }
}

/// Dropping files never adds to the sizes, and what stays comes from the files.
proof fn lemma_unselected(files: Seq<StagedFileView>)
    ensures
        total_size(unselected(files)) <= total_size(files),
        selected_size(files) <= total_size(files),
        forall|k: int|
            0 <= k < unselected(files).len() ==> exists|j: int|
                0 <= j < files.len() && files[j] == #[trigger] unselected(files)[k],
        paths_unique(files) ==> paths_unique(unselected(files)),
        forall|k: int| 0 <= k < unselected(files).len() ==> !(#[trigger] unselected(files)[k]).selected,
    decreases files.len(),
{
    if files.len() > 0 {
        let init = files.drop_last();
        lemma_unselected(init);
        let u = unselected(init);
        assert(files =~= init.push(files.last()));
        lemma_total_size_push(init, files.last());
        lemma_total_size_push(u, files.last());
        assert forall|k: int| 0 <= k < unselected(files).len() implies exists|j: int|
            0 <= j < files.len() && files[j] == #[trigger] unselected(files)[k] by {
            if k < u.len() {
                let j = choose|j: int| 0 <= j < init.len() && init[j] == u[k];
                assert(files[j] == init[j]);
            } else {
                assert(files[files.len() - 1] == unselected(files)[k]);
            }
        }
        if paths_unique(files) && !files.last().selected {
            assert(paths_unique(init)) by {
                assert forall|i: int, j: int| 0 <= i < j < init.len() implies !path_matches(
                    init[i].path,
                    init[j].path,
                ) by {
                    assert(init[i] == files[i] && init[j] == files[j]);
                }
            }
            let r = unselected(files);
            assert forall|i: int, j: int| 0 <= i < j < r.len() implies !path_matches(
                r[i].path,
                r[j].path,
            ) by {
                if j == r.len() - 1 {
                    let k = choose|k: int| 0 <= k < init.len() && init[k] == #[trigger] u[i];
                    assert(files[k] == init[k]);
                    assert(r[i] == u[i]);
                } else {
                    assert(r[i] == u[i] && r[j] == u[j]);
                }
            }
        } else if paths_unique(files) {
            assert(paths_unique(init)) by {
                assert forall|i: int, j: int| 0 <= i < j < init.len() implies !path_matches(
                    init[i].path,
                    init[j].path,
                ) by {
                    assert(init[i] == files[i] && init[j] == files[j]);
                }
            }
        }
    }
}

/// Adding new files never lowers the total, and keeps the paths unique.
proof fn lemma_extended_unique(files: Seq<StagedFileView>, new_files: Seq<(Seq<char>, u64)>, i: int)
    requires
        0 <= i <= new_files.len(),
    ensures
        total_size(extended_unique(files, new_files.take(i))) <= total_size(
            extended_unique(files, new_files),
        ),
    decreases new_files.len() - i,
{
    if i < new_files.len() {
        lemma_extended_unique(files, new_files, i + 1);
        assert(new_files.take(i + 1).drop_last() =~= new_files.take(i));
        let a = extended_unique(files, new_files.take(i));
        let (path, file_size) = new_files.take(i + 1).last();
        if !stages(a, path) {
            lemma_total_size_push(a, StagedFileView { path, file_size, selected: true });
        }
    } else {
        assert(new_files.take(i) =~= new_files);
    }
}

/// After adding new files, each of their paths is staged, a path that was
/// staged stays staged, and at most one file is added per new path.
pub proof fn lemma_extend_unique_stages_all(
    files: Seq<StagedFileView>,
    new_files: Seq<(Seq<char>, u64)>,
)
    ensures
        forall|j: int|
            0 <= j < new_files.len() ==> stages(
                extended_unique(files, new_files),
                #[trigger] new_files[j].0,
            ),
        forall|p: Seq<char>| stages(files, p) ==> stages(extended_unique(files, new_files), p),
        extended_unique(files, new_files).len() <= files.len() + new_files.len(),
    decreases new_files.len(),
{
    lemma_extended_unique_prefix(files, new_files);
    if new_files.len() > 0 {
        let init = new_files.drop_last();
        lemma_extend_unique_stages_all(files, init);
        let before = extended_unique(files, init);
        let after = extended_unique(files, new_files);
        let (path, file_size) = new_files.last();
        lemma_extended_unique_prefix(files, init);
        assert forall|p: Seq<char>| stages(before, p) implies stages(after, p) by {
            let i = choose|i: int| 0 <= i < before.len() && path_matches(before[i].path, p);
            assert(after[i] == before[i]);
        }
        assert forall|p: Seq<char>| stages(files, p) implies stages(after, p) by {
            assert(stages(before, p));
        }
        if !stages(before, path) {
            assert(after[before.len() as int].path == path);
            assert(path_matches(after[before.len() as int].path, path));
        }
        assert(stages(after, path));
        assert forall|j: int| 0 <= j < new_files.len() implies stages(
            after,
            #[trigger] new_files[j].0,
        ) by {
            if j < init.len() {
                assert(new_files[j] == init[j]);
                assert(stages(before, init[j].0));
            }
        }
    }
}

/// Adding new files keeps the files that were there, in place, and only
/// appends after them.
proof fn lemma_extended_unique_prefix(files: Seq<StagedFileView>, new_files: Seq<(Seq<char>, u64)>)
    ensures
        files.len() <= extended_unique(files, new_files).len(),
        forall|i: int|
            0 <= i < files.len() ==> #[trigger] extended_unique(files, new_files)[i] == files[i],
    decreases new_files.len(),
{
    if new_files.len() > 0 {
        lemma_extended_unique_prefix(files, new_files.drop_last());
    }
}

/// The indices of the new `(path, size)` pairs that `extended_unique` appends,
/// in order.
pub open spec fn appended_sources(
    files: Seq<StagedFileView>,
    new_files: Seq<(Seq<char>, u64)>,
) -> Seq<int>
    decreases new_files.len(),
{
    if new_files.len() == 0 {
        Seq::empty()
    } else {
        let init = new_files.drop_last();
        if stages(extended_unique(files, init), new_files.last().0) {
            appended_sources(files, init)
        } else {
            appended_sources(files, init).push(new_files.len() - 1)
        }
    }
}

/// Adding new files leaves the staged files as they were, in front, and
/// appends one selected file for each new pair whose path was not staged when
/// its turn came (before the call, or by an earlier pair), in the order of the
/// new pairs, each with its path and size; every other pair was staged already.
/// The total grows by the sizes of the appended files.
pub proof fn lemma_extend_unique_appends(
    files: Seq<StagedFileView>,
    new_files: Seq<(Seq<char>, u64)>,
)
    ensures
        ({
            let ext = extended_unique(files, new_files);
            let src = appended_sources(files, new_files);
            &&& ext.len() == files.len() + src.len()
            &&& ext.subrange(0, files.len() as int) == files
            &&& forall|k: int|
                0 <= k < src.len() ==> 0 <= #[trigger] src[k] < new_files.len() && ext[files.len()
                    + k] == (StagedFileView {
                    path: new_files[src[k]].0,
                    file_size: new_files[src[k]].1,
                    selected: true,
                }) && !stages(files, new_files[src[k]].0)
            &&& forall|k1: int, k2: int| 0 <= k1 < k2 < src.len() ==> src[k1] < src[k2]
            &&& forall|j: int|
                0 <= j < new_files.len() && !src.contains(j) ==> stages(
                    extended_unique(files, #[trigger] new_files.take(j)),
                    new_files[j].0,
                )
            &&& total_size(ext) == total_size(files) + total_size(
                ext.subrange(files.len() as int, ext.len() as int),
            )
        }),
    decreases new_files.len(),
{
    let ext = extended_unique(files, new_files);
    let src = appended_sources(files, new_files);
    lemma_extended_unique_prefix(files, new_files);
    assert(ext.subrange(0, files.len() as int) =~= files);
    if new_files.len() > 0 {
        let init = new_files.drop_last();
        lemma_extend_unique_appends(files, init);
        let before = extended_unique(files, init);
        let s0 = appended_sources(files, init);
        let (path, file_size) = new_files.last();
        assert(new_files.take(new_files.len() - 1) =~= init);
        assert forall|j: int| 0 <= j < init.len() implies #[trigger] new_files.take(j)
            == init.take(j) && new_files[j] == init[j] by {
            assert(new_files.take(j) =~= init.take(j));
        }
        if stages(before, path) {
            assert(src == s0);
            assert forall|j: int|
                0 <= j < new_files.len() && !src.contains(j) implies stages(
                extended_unique(files, #[trigger] new_files.take(j)),
                new_files[j].0,
            ) by {
                if j < init.len() {
                    assert(!s0.contains(j));
                }
            }
        } else {
            let nv = StagedFileView { path, file_size, selected: true };
            assert(ext == before.push(nv));
            assert(src == s0.push(new_files.len() - 1));
            assert(!stages(files, path)) by {
                if stages(files, path) {
                    let i = choose|i: int| 0 <= i < files.len() && path_matches(files[i].path, path);
                    lemma_extended_unique_prefix(files, init);
                    assert(before[i] == files[i]);
                }
            }
            assert forall|k: int| 0 <= k < src.len() implies 0 <= #[trigger] src[k]
                < new_files.len() && ext[files.len() + k] == (StagedFileView {
                path: new_files[src[k]].0,
                file_size: new_files[src[k]].1,
                selected: true,
            }) && !stages(files, new_files[src[k]].0) by {
                if k < s0.len() {
                    assert(src[k] == s0[k]);
                    assert(new_files[s0[k]] == init[s0[k]]);
                }
            }
            assert forall|j: int|
                0 <= j < new_files.len() && !src.contains(j) implies stages(
                extended_unique(files, #[trigger] new_files.take(j)),
                new_files[j].0,
            ) by {
                if j == new_files.len() - 1 {
                    assert(src[s0.len() as int] == j);
                } else {
                    if s0.contains(j) {
                        let k = choose|k: int| 0 <= k < s0.len() && s0[k] == j;
                        assert(src[k] == j);
                    }
                }
            }
            lemma_total_size_push(before, nv);
            assert(ext.subrange(files.len() as int, ext.len() as int) =~= before.subrange(
                files.len() as int,
                before.len() as int,
            ).push(nv));
            lemma_total_size_push(before.subrange(files.len() as int, before.len() as int), nv);
        }
    } else {
        assert(ext.subrange(files.len() as int, ext.len() as int) =~= Seq::<StagedFileView>::empty());
    }
}

/// Adding the same new files a second time changes nothing.
pub proof fn lemma_extend_unique_idempotent(
    files: Seq<StagedFileView>,
    new_files: Seq<(Seq<char>, u64)>,
)
    ensures
        extended_unique(extended_unique(files, new_files), new_files) == extended_unique(
            files,
            new_files,
        ),
{
    let ext = extended_unique(files, new_files);
    lemma_extend_unique_stages_all(files, new_files);
    lemma_extended_unique_unchanged(ext, new_files);
}

/// Adding files whose paths are all staged already changes nothing.
proof fn lemma_extended_unique_unchanged(files: Seq<StagedFileView>, new_files: Seq<(Seq<char>, u64)>)
    requires
        forall|j: int| 0 <= j < new_files.len() ==> stages(files, #[trigger] new_files[j].0),
    ensures
        extended_unique(files, new_files) == files,
    decreases new_files.len(),
{
    if new_files.len() > 0 {
        let init = new_files.drop_last();
        assert forall|j: int| 0 <= j < init.len() implies stages(files, #[trigger] init[j].0) by {
            assert(init[j] == new_files[j]);
        }
        lemma_extended_unique_unchanged(files, init);
        assert(stages(files, new_files[new_files.len() - 1].0));
    }
}

/// A path given twice in one call is staged once, at its first size.
pub proof fn lemma_extend_unique_same_path_twice(
    files: Seq<StagedFileView>,
    path: Seq<char>,
    first_size: u64,
    second_size: u64,
)
    requires
        !stages(files, path),
    ensures
        extended_unique(files, seq![(path, first_size), (path, second_size)]) == files.push(
            StagedFileView { path, file_size: first_size, selected: true },
        ),
{
    let two = seq![(path, first_size), (path, second_size)];
    let one = two.drop_last();
    assert(one =~= seq![(path, first_size)]);
    assert(one.drop_last() =~= Seq::<(Seq<char>, u64)>::empty());
    assert(extended_unique(files, one.drop_last()) == files);
    assert(one.last() == (path, first_size));
    let after_one = files.push(StagedFileView { path, file_size: first_size, selected: true });
    assert(extended_unique(files, one) == after_one);
    assert(path_matches(after_one[files.len() as int].path, path));
    assert(stages(after_one, path));
    assert(two.last() == (path, second_size));
}

/// Removing the selected files leaves no file selected, and keeps the order
/// and the total consistent.
pub proof fn lemma_remove_selected_leaves_none_selected(files: Seq<StagedFileView>)
    ensures
        forall|k: int| 0 <= k < unselected(files).len() ==> !(#[trigger] unselected(files)[k]).selected,
        selected_count_spec(unselected(files)) == 0,
        total_size(unselected(files)) <= total_size(files),
{
    lemma_unselected(files);
    lemma_no_selected_count(unselected(files));
}

proof fn lemma_no_selected_count(files: Seq<StagedFileView>)
    requires
        forall|k: int| 0 <= k < files.len() ==> !(#[trigger] files[k]).selected,
    ensures
        selected_count_spec(files) == 0,
    decreases files.len(),
{
    if files.len() > 0 {
        let init = files.drop_last();
        assert forall|k: int| 0 <= k < init.len() implies !(#[trigger] init[k]).selected by {
            assert(init[k] == files[k]);
        }
        lemma_no_selected_count(init);
    }
}

/// The total size does not depend on which files are selected.
proof fn lemma_total_size_ignores_selection(a: Seq<StagedFileView>, b: Seq<StagedFileView>)
    requires
        a.len() == b.len(),
        forall|i: int|
            0 <= i < a.len() ==> a[i].path == b[i].path && a[i].file_size == b[i].file_size,
    ensures
        total_size(a) == total_size(b),
        paths_unique(a) ==> paths_unique(b),
    decreases a.len(),
{
    if a.len() > 0 {
        lemma_total_size_ignores_selection(a.drop_last(), b.drop_last());
    }
}


/// The paths an install is started with are those of the selected staged
/// files, in staging order: none when nothing is staged, and one more staged
/// file adds its path at the end exactly when it is selected.
pub proof fn lemma_selected_paths_in_order(files: Seq<StagedFileView>, f: StagedFileView)
    ensures
        selected_paths_spec(Seq::<StagedFileView>::empty()) == Seq::<Seq<char>>::empty(),
        selected_paths_spec(files.push(f)) == selected_paths_spec(files) + (if f.selected {
            seq![f.path]
        } else {
            Seq::<Seq<char>>::empty()
        }),
{
    assert(files.push(f).drop_last() =~= files);
    assert(selected_paths_spec(files) + Seq::<Seq<char>>::empty() =~= selected_paths_spec(files));
    assert(selected_paths_spec(files).push(f.path) =~= selected_paths_spec(files) + seq![f.path]);
}

} // verus!
