use arrow_exporter::error::{LocalError, LocalErrorKind};
use arrow_exporter::local::{sync_directory_hierarchy, LocalStep, LocalWrite, StepOutcome};
use arrow_exporter::local_path::LocalPath;
use arrow_exporter::pdata_id::PdataId;
use uuid::Uuid;

fn path(text: &str) -> LocalPath {
    LocalPath {
        components: std::path::Path::new(text)
            .components()
            .map(|name| name.as_os_str().as_encoded_bytes().to_vec())
            .collect(),
        display: text.to_string(),
    }
}

fn error(kind: LocalErrorKind, message: &str) -> LocalError {
    LocalError {
        kind,
        message: message.to_string(),
    }
}

fn failed(kind: LocalErrorKind, message: &str) -> StepOutcome {
    StepOutcome::Failed {
        error: error(kind, message),
    }
}

fn start(parent: &str, fsync: bool, sync_directories: bool) -> LocalWrite {
    LocalWrite::start(
        &path("/data/otap"),
        &path(&format!("{parent}/a.arrow")),
        fsync,
        sync_directories,
    )
    .expect("start write")
}

fn all_steps(write: &mut LocalWrite) -> Vec<LocalStep> {
    let mut steps = Vec::new();
    while let Some(step) = write.next_step() {
        assert_eq!(write.result(), None);
        steps.push(step);
        write.advance(StepOutcome::Done);
    }
    steps
}

#[test]
fn temporary_files_stand_beside_their_destination() {
    let id = Uuid::parse_str("6b1f2f0e-5a0c-4d0e-9f4f-0123456789ab").expect("parse UUID");
    let destination = path("/data/größe/a.arrow");
    assert_eq!(
        destination.staged_file(PdataId { value: id.as_u128() }),
        path("/data/größe/.a.arrow.6b1f2f0e-5a0c-4d0e-9f4f-0123456789ab.tmp").components
    );

    let first = destination.staging_path();
    let second = destination.staging_path();
    assert_ne!(first, second);
    for mut names in [first, second] {
        let name = String::from_utf8(names.pop().expect("name")).expect("text");
        assert_eq!(names, path("/data/größe").components);
        let id = name
            .strip_prefix(".a.arrow.")
            .and_then(|rest| rest.strip_suffix(".tmp"))
            .expect("temporary name");
        assert_eq!(
            Uuid::parse_str(id).expect("parse UUID").get_version_num(),
            4
        );
    }
}

#[test]
fn names_that_are_no_text_are_kept_readable() {
    let mut destination = path("/data/a.arrow");
    destination.components[2] = vec![b'a', 0xff, b'b'];
    let staged = destination.staged_file(PdataId { value: 0 });
    assert_eq!(
        staged[2],
        ".a\u{fffd}b.00000000-0000-0000-0000-000000000000.tmp".as_bytes()
    );
}

#[test]
fn files_have_the_directory_that_they_are_in() {
    for text in ["/data/otap/a.arrow", "/a.arrow", "data/a.arrow", "a.arrow", "/data/x/"] {
        let expected = std::path::Path::new(text).parent().expect("parent");
        let parent = path(text).parent().expect("parent");
        assert_eq!(parent, path(expected.to_str().expect("text")), "{text}");
    }
    assert_eq!(path("/").parent(), None);
    assert_eq!(path("").parent(), None);
    assert!(!path("/").is_in_directory());
    assert!(path("/a").is_in_directory());
}

#[test]
fn directories_are_synced_from_the_root_down() {
    assert_eq!(
        sync_directory_hierarchy(&path("/data/otap"), &path("/data/otap/v1/hour=00")),
        Ok(vec![3, 4, 5])
    );
    assert_eq!(
        sync_directory_hierarchy(&path("/data"), &path("/data")),
        Ok(vec![2])
    );
    for outside in ["/data", "/data/otapx/v1", "/other/otap/v1"] {
        assert_eq!(
            sync_directory_hierarchy(&path("/data/otap"), &path(outside)),
            Err(error(
                LocalErrorKind::InvalidInput,
                &format!("local destination {outside} is outside configured root /data/otap")
            ))
        );
    }
}

#[test]
fn siblings_with_a_longer_name_are_outside_the_root() {
    assert_eq!(
        sync_directory_hierarchy(&path("/a/b"), &path("/a/bc")),
        Err(error(
            LocalErrorKind::InvalidInput,
            "local destination /a/bc is outside configured root /a/b"
        ))
    );
}

#[test]
fn durable_writes_sync_the_file_and_the_directories() {
    let mut write = start("/data/otap/v1", true, true);
    assert_eq!(
        all_steps(&mut write),
        vec![
            LocalStep::CreateParent,
            LocalStep::Stage,
            LocalStep::WritePayload,
            LocalStep::SyncFile,
            LocalStep::Install,
            LocalStep::SyncDirectory { depth: 3 },
            LocalStep::SyncDirectory { depth: 4 },
        ]
    );
    assert_eq!(write.result(), Some(Ok(())));
    assert!(!write.has_staged_file());
}

#[test]
fn platforms_without_directory_sync_skip_it() {
    let mut write = start("/elsewhere", true, false);
    assert_eq!(
        all_steps(&mut write),
        vec![
            LocalStep::CreateParent,
            LocalStep::Stage,
            LocalStep::WritePayload,
            LocalStep::SyncFile,
            LocalStep::Install,
        ]
    );
    assert_eq!(write.result(), Some(Ok(())));
}

#[test]
fn writes_without_fsync_sync_nothing() {
    let mut write = start("/elsewhere", false, true);
    assert_eq!(
        all_steps(&mut write),
        vec![
            LocalStep::CreateParent,
            LocalStep::Stage,
            LocalStep::WritePayload,
            LocalStep::Install,
        ]
    );
    assert_eq!(write.result(), Some(Ok(())));
}

#[test]
fn destinations_outside_the_root_are_noticed_at_the_end() {
    let mut write = start("/elsewhere", true, true);
    assert_eq!(all_steps(&mut write).last(), Some(&LocalStep::Install));
    assert_eq!(
        write.result(),
        Some(Err(error(
            LocalErrorKind::InvalidInput,
            "local destination /elsewhere is outside configured root /data/otap"
        )))
    );
    assert!(!write.has_staged_file());
}

#[test]
fn destinations_need_a_parent() {
    assert_eq!(
        LocalWrite::start(&path("/"), &path("/"), true, true).err(),
        Some(error(
            LocalErrorKind::InvalidInput,
            "local destination has no parent: /"
        ))
    );
}

#[test]
fn taken_names_are_tried_again() {
    let mut write = start("/data/otap/v1", true, true);
    write.advance(StepOutcome::Done);
    for _ in 0..3 {
        assert_eq!(write.next_step(), Some(LocalStep::Stage));
        write.advance(failed(LocalErrorKind::AlreadyExists, "file exists"));
        assert!(!write.has_staged_file());
    }
    write.advance(StepOutcome::Done);
    assert_eq!(write.next_step(), Some(LocalStep::WritePayload));
    assert!(write.has_staged_file());
}

#[test]
fn failures_end_a_write() {
    for failing in 0..7 {
        let mut write = start("/data/otap/v1", true, true);
        for _ in 0..failing {
            write.advance(StepOutcome::Done);
        }
        let kind = if write.next_step() == Some(LocalStep::Stage) {
            LocalErrorKind::PermissionDenied
        } else {
            LocalErrorKind::AlreadyExists
        };
        write.advance(failed(kind, "broken"));
        assert_eq!(write.next_step(), None);
        assert_eq!(write.result(), Some(Err(error(kind, "broken"))));
        assert_eq!(write.has_staged_file(), (2..5).contains(&failing));
        write.advance(StepOutcome::Done);
        assert_eq!(write.result(), Some(Err(error(kind, "broken"))));
    }
}
