use sample_organizer::copier::{
    copy_message, copy_step, is_failure, CopyEvent, CopyOutcome, CopyStep,
};
use std::path::Path;

#[test]
fn test_copy_to_dest_no_filename() {
    let sample_path = Path::new("/");
    let step = copy_step(CopyEvent::Asked {
        has_file_name: sample_path.file_name().is_some(),
    });
    let outcome = match step {
        CopyStep::Finish(outcome) => outcome,
        other => panic!("{:?}", other),
    };
    let result: Result<(), String> = if is_failure(outcome) {
        Err(copy_message(outcome, "\"/\"", "\"dest/some_category\"", "some_category", ""))
    } else {
        Ok(())
    };
    assert!(result.is_err());
    let err_msg = result.unwrap_err();
    assert_eq!(err_msg, "Filename not found.");
}

#[test]
fn sample_without_a_file_name_is_turned_down() {
    let step = copy_step(CopyEvent::Asked {
        has_file_name: false,
    });
    assert_eq!(step, CopyStep::Finish(CopyOutcome::NoFileName));
    assert!(is_failure(CopyOutcome::NoFileName));
    assert_eq!(
        copy_message(CopyOutcome::NoFileName, "\"/\"", "\"dest/some_category\"", "some_category", ""),
        "Filename not found."
    );
}

#[test]
fn copy_into_a_folder_that_is_there() {
    assert_eq!(
        copy_step(CopyEvent::Asked {
            has_file_name: true
        }),
        CopyStep::CheckFolder
    );
    assert_eq!(
        copy_step(CopyEvent::FolderChecked { exists: true }),
        CopyStep::CheckFile
    );
    assert_eq!(
        copy_step(CopyEvent::FileChecked { exists: false }),
        CopyStep::CopyFile
    );
    assert_eq!(
        copy_step(CopyEvent::FileCopied { copied: true }),
        CopyStep::Finish(CopyOutcome::Copied)
    );
    assert!(!is_failure(CopyOutcome::Copied));
}

#[test]
fn missing_folder_is_created_first() {
    assert_eq!(
        copy_step(CopyEvent::FolderChecked { exists: false }),
        CopyStep::CreateFolder
    );
    assert_eq!(
        copy_step(CopyEvent::FolderCreated { created: true }),
        CopyStep::CheckFile
    );
    assert_eq!(
        copy_step(CopyEvent::FolderCreated { created: false }),
        CopyStep::Finish(CopyOutcome::FolderNotCreated)
    );
    assert!(is_failure(CopyOutcome::FolderNotCreated));
}

#[test]
fn file_that_is_there_is_not_written_over() {
    assert_eq!(
        copy_step(CopyEvent::FileChecked { exists: true }),
        CopyStep::Finish(CopyOutcome::Skipped)
    );
    assert!(!is_failure(CopyOutcome::Skipped));
}

#[test]
fn failed_copy_is_a_failure() {
    assert_eq!(
        copy_step(CopyEvent::FileCopied { copied: false }),
        CopyStep::Finish(CopyOutcome::NotCopied)
    );
    assert!(is_failure(CopyOutcome::NotCopied));
}

#[test]
fn messages() {
    let sample = "\"src/test_sample.wav\"";
    let folder = "\"dest/drums\"";
    assert_eq!(
        copy_message(CopyOutcome::Copied, sample, folder, "drums", ""),
        "Copied \"src/test_sample.wav\" to drums"
    );
    assert_eq!(
        copy_message(CopyOutcome::Skipped, sample, folder, "drums", ""),
        "Skipping \"src/test_sample.wav\", file already exists in category 'drums'"
    );
    assert_eq!(
        copy_message(CopyOutcome::FolderNotCreated, sample, folder, "drums", "denied"),
        "Failed to create folder \"dest/drums\": denied"
    );
    assert_eq!(
        copy_message(CopyOutcome::NotCopied, sample, folder, "drums", "disk full"),
        "Failed to copy \"src/test_sample.wav\": disk full"
    );
}
