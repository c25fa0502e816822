//! What an observer of an install knows, built from the events the install reports.

use vstd::prelude::*;

use crate::InstallProgressEvent;

verus! {

/// The latest values reported by an install.
pub struct InstallProgress {
    pub current_file_name: String,
    pub all_files_length_bytes: u64,
    pub all_files_offset_bytes: u64,
    pub current_file_length_bytes: u64,
    pub current_file_offset_bytes: u64,
    pub ended: bool,
}

impl InstallProgress {
    /// Nothing reported yet.
    pub open spec fn is_initial(&self) -> bool {
        &&& self.current_file_name@ == Seq::<char>::empty()
        &&& self.all_files_length_bytes == 0
        &&& self.all_files_offset_bytes == 0
        &&& self.current_file_length_bytes == 0
        &&& self.current_file_offset_bytes == 0
        &&& !self.ended
    }

    /// Records one event: each event sets the value it reports, and `Ended`
    /// marks the install as over.
    pub fn apply(&mut self, event: InstallProgressEvent)
        ensures
            match event {
                InstallProgressEvent::CurrentFileName(name) => final(self).current_file_name@
                    == name@ && final(self).all_files_length_bytes == old(
                    self,
                ).all_files_length_bytes && final(self).all_files_offset_bytes == old(
                    self,
                ).all_files_offset_bytes && final(self).current_file_length_bytes == old(
                    self,
                ).current_file_length_bytes && final(self).current_file_offset_bytes == old(
                    self,
                ).current_file_offset_bytes && final(self).ended == old(self).ended,
                InstallProgressEvent::Ended => final(self).current_file_name@ == old(
                    self,
                ).current_file_name@ && final(self).all_files_length_bytes == old(
                    self,
                ).all_files_length_bytes && final(self).all_files_offset_bytes == old(
                    self,
                ).all_files_offset_bytes && final(self).current_file_length_bytes == old(
                    self,
                ).current_file_length_bytes && final(self).current_file_offset_bytes == old(
                    self,
                ).current_file_offset_bytes && final(self).ended,
                InstallProgressEvent::AllFilesLengthBytes(n) => *final(self) == (InstallProgress {
                    all_files_length_bytes: n,
                    ..*old(self)
                }),
                InstallProgressEvent::AllFilesOffsetBytes(n) => *final(self) == (InstallProgress {
                    all_files_offset_bytes: n,
                    ..*old(self)
                }),
                InstallProgressEvent::CurrentFileLengthBytes(n) => *final(self) == (
                InstallProgress { current_file_length_bytes: n, ..*old(self) }),
                InstallProgressEvent::CurrentFileOffsetBytes(n) => *final(self) == (
                InstallProgress { current_file_offset_bytes: n, ..*old(self) }),
            },
    {
        match event {
            InstallProgressEvent::CurrentFileName(name) => {
                self.current_file_name = name;
            },
            InstallProgressEvent::Ended => {
                self.ended = true;
            },
            InstallProgressEvent::AllFilesLengthBytes(n) => {
                self.all_files_length_bytes = n;
            },
            InstallProgressEvent::AllFilesOffsetBytes(n) => {
                self.all_files_offset_bytes = n;
            },
            InstallProgressEvent::CurrentFileLengthBytes(n) => {
                self.current_file_length_bytes = n;
            },
            InstallProgressEvent::CurrentFileOffsetBytes(n) => {
                self.current_file_offset_bytes = n;
            },
        }
    }
}

impl Default for InstallProgress {
    fn default() -> (progress: Self)
        ensures
            progress.is_initial(),
    {
        InstallProgress {
            current_file_name: String::new(),
            all_files_length_bytes: 0,
            all_files_offset_bytes: 0,
            current_file_length_bytes: 0,
            current_file_offset_bytes: 0,
            ended: false,
        }
    }
}

} // verus!
