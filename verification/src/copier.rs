//! The copier's decisions: what to do next when a sample is copied into the
//! folder of its category, and what to say of how it ended. The file system
//! is the caller's business: the caller does what a step asks for and comes
//! back with what it found.

use vstd::prelude::*;
use vstd::string::StringExecFns;

verus! {

/// What the caller found, or did, since the last step.
#[derive(Clone, Copy, Debug, PartialEq, Eq)]
pub enum CopyEvent {
    /// A sample is to be copied; its path has a file name, or has none.
    Asked { has_file_name: bool },
    /// The folder of the category exists, or does not.
    FolderChecked { exists: bool },
    /// The folder of the category was created, or could not be.
    FolderCreated { created: bool },
    /// The folder holds a file of the sample's name already, or does not.
    FileChecked { exists: bool },
    /// The sample was copied, or could not be.
    FileCopied { copied: bool },
}

/// How copying a sample ended.
#[derive(Clone, Copy, Debug, PartialEq, Eq)]
pub enum CopyOutcome {
    /// The sample was copied.
    Copied,
    /// The folder held a file of that name: nothing was copied, and that is
    /// no failure.
    Skipped,
    /// The path of the sample has no file name.
    NoFileName,
    /// The folder of the category could not be created.
    FolderNotCreated,
    /// The sample could not be copied.
    NotCopied,
}

/// What the caller is to do next.
#[derive(Clone, Copy, Debug, PartialEq, Eq)]
pub enum CopyStep {
    /// Find out whether the folder of the category exists.
    CheckFolder,
    /// Create the folder of the category.
    CreateFolder,
    /// Find out whether the folder holds a file of the sample's name.
    CheckFile,
    /// Copy the sample into the folder.
    CopyFile,
    /// Nothing more: this is how it ended.
    Finish(CopyOutcome),
}

impl CopyOutcome {
    /// The outcome is a failure.
    pub open spec fn is_failure(self) -> bool {
        self is NoFileName || self is FolderNotCreated || self is NotCopied
    }
}

/// The step that follows an event. A sample without a file name is turned
/// down at once. A folder that is missing is created first. A file that is
/// there already is never written over.
pub open spec fn step_after(event: CopyEvent) -> CopyStep {
    match event {
        CopyEvent::Asked { has_file_name } => if has_file_name {
            CopyStep::CheckFolder
        } else {
            CopyStep::Finish(CopyOutcome::NoFileName)
        },
        CopyEvent::FolderChecked { exists } => if exists {
            CopyStep::CheckFile
        } else {
            CopyStep::CreateFolder
        },
        CopyEvent::FolderCreated { created } => if created {
            CopyStep::CheckFile
        } else {
            CopyStep::Finish(CopyOutcome::FolderNotCreated)
        },
        CopyEvent::FileChecked { exists } => if exists {
            CopyStep::Finish(CopyOutcome::Skipped)
        } else {
            CopyStep::CopyFile
        },
        CopyEvent::FileCopied { copied } => if copied {
            CopyStep::Finish(CopyOutcome::Copied)
        } else {
            CopyStep::Finish(CopyOutcome::NotCopied)
        },
    }
}

/// What is said of an outcome. `sample` and `folder` are the paths of the
/// sample and of the category's folder as they are shown, `category` is the
/// category, and `cause` is what the file system said of a failure.
pub open spec fn message_of(
    outcome: CopyOutcome,
    sample: Seq<char>,
    folder: Seq<char>,
    category: Seq<char>,
    cause: Seq<char>,
) -> Seq<char> {
    match outcome {
        CopyOutcome::Copied => "Copied "@ + sample + " to "@ + category,
        CopyOutcome::Skipped => "Skipping "@ + sample + ", file already exists in category '"@
            + category + "'"@,
        CopyOutcome::NoFileName => "Filename not found."@,
        CopyOutcome::FolderNotCreated => "Failed to create folder "@ + folder + ": "@ + cause,
        CopyOutcome::NotCopied => "Failed to copy "@ + sample + ": "@ + cause,
    }
}

/// Decides the step that follows an event.
pub fn copy_step(event: CopyEvent) -> (step: CopyStep)
    ensures
        step == step_after(event),
{
    match event {
        CopyEvent::Asked { has_file_name } => if has_file_name {
            CopyStep::CheckFolder
        } else {
            CopyStep::Finish(CopyOutcome::NoFileName)
        },
        CopyEvent::FolderChecked { exists } => if exists {
            CopyStep::CheckFile
        } else {
            CopyStep::CreateFolder
        },
        CopyEvent::FolderCreated { created } => if created {
            CopyStep::CheckFile
        } else {
            CopyStep::Finish(CopyOutcome::FolderNotCreated)
        },
        CopyEvent::FileChecked { exists } => if exists {
            CopyStep::Finish(CopyOutcome::Skipped)
        } else {
            CopyStep::CopyFile
        },
        CopyEvent::FileCopied { copied } => if copied {
            CopyStep::Finish(CopyOutcome::Copied)
        } else {
            CopyStep::Finish(CopyOutcome::NotCopied)
        },
    }
}

/// Whether an outcome is a failure, which the caller reports as an error.
pub fn is_failure(outcome: CopyOutcome) -> (failure: bool)
    ensures
        failure == outcome.is_failure(),
{
    match outcome {
        CopyOutcome::Copied => false,
        CopyOutcome::Skipped => false,
        CopyOutcome::NoFileName => true,
        CopyOutcome::FolderNotCreated => true,
        CopyOutcome::NotCopied => true,
    }
}

/// Writes what is said of an outcome.
pub fn copy_message(
    outcome: CopyOutcome,
    sample: &str,
    folder: &str,
    category: &str,
    cause: &str,
) -> (message: String)
    ensures
        message@ == message_of(outcome, sample@, folder@, category@, cause@),
{
    match outcome {
        CopyOutcome::Copied => {
            let mut message = "Copied ".to_owned();
            message.append(sample);
            message.append(" to ");
            message.append(category);
            message
        },
        CopyOutcome::Skipped => {
            let mut message = "Skipping ".to_owned();
            message.append(sample);
            message.append(", file already exists in category '");
            message.append(category);
            message.append("'");
            message
        },
        CopyOutcome::NoFileName => "Filename not found.".to_owned(),
        CopyOutcome::FolderNotCreated => {
            let mut message = "Failed to create folder ".to_owned();
            message.append(folder);
            message.append(": ");
            message.append(cause);
            message
        },
        CopyOutcome::NotCopied => {
            let mut message = "Failed to copy ".to_owned();
            message.append(sample);
            message.append(": ");
            message.append(cause);
            message
        },
    }
}

} // verus!
