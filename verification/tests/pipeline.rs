use std::collections::BTreeSet;

use brick::error::Error;
use brick::pipeline::base_name;
use brick::pipeline::pack;
use brick::pipeline::stem_names;
use brick::pipeline::target_names;
use brick::pipeline::Action;
use brick::pipeline::Outcome;
use brick::pipeline::PackInput;
use brick::pipeline::Phase;
use brick::pipeline::Pipeline;
use brick::resolver::resolve_inferred;
use brick::resolver::PackingStage;
use brick::ArchiveFormat;
use brick::CompressionLevel;

fn stages(formats: &[ArchiveFormat]) -> Vec<PackingStage> {
    formats.iter().map(|f| (*f, CompressionLevel::Auto)).collect()
}

fn broken() -> std::io::Error {
    std::io::Error::new(std::io::ErrorKind::PermissionDenied, "denied")
}

/// A disk that holds names only. Every action on it is done.
fn perform(disk: &mut BTreeSet<String>, action: &Action) {
    match action {
        Action::Pack { target, input, .. } => {
            if let PackInput::Archive { path, .. } = input {
                assert!(disk.contains(path), "packs a file that is not there");
            }
            disk.insert(target.clone());
        }
        Action::Remove { path } => {
            assert!(disk.remove(path), "removes a file that is not there");
        }
        Action::Rename { from, to } => {
            assert!(disk.remove(from), "renames a file that is not there");
            disk.insert(to.clone());
        }
        Action::Copy { from, to } => {
            assert!(disk.contains(from), "copies a file that is not there");
            disk.insert(to.clone());
        }
        Action::Done | Action::Fail(_) | Action::Idle => {}
    }
}

/// Runs a pipeline to its end on a disk of names, with every action done.
fn run(pipeline: &mut Pipeline, disk: &mut BTreeSet<String>) -> Vec<String> {
    let mut log = Vec::new();
    let mut action = pipeline.start();
    loop {
        log.push(describe(&action));
        perform(disk, &action);
        if pipeline.is_over() {
            return log;
        }
        action = pipeline.advance(Outcome::Done);
    }
}

fn describe(action: &Action) -> String {
    match action {
        Action::Pack { format, level, input: PackInput::Inputs, target } => {
            format!("pack inputs as {} at {} into {}", format.name(), level.to_string(), target)
        }
        Action::Pack { format, level, input: PackInput::Archive { path, name }, target } => {
            format!(
                "pack {} under {} as {} at {} into {}",
                path,
                name,
                format.name(),
                level.to_string(),
                target
            )
        }
        Action::Remove { path } => format!("remove {}", path),
        Action::Rename { from, to } => format!("rename {} to {}", from, to),
        Action::Copy { from, to } => format!("copy {} to {}", from, to),
        Action::Done => "done".to_string(),
        Action::Fail(e) => format!("fail: {}", e.message()),
        Action::Idle => "idle".to_string(),
    }
}

#[test]
fn base_names() {
    assert_eq!(base_name("archive.tar.gz"), "archive");
    assert_eq!(base_name("my.backup.tar"), "my");
    assert_eq!(base_name("backup"), "archive");
    assert_eq!(base_name(""), "archive");
    assert_eq!(base_name(".tar"), "");
    assert_eq!(base_name("name."), "name");
}

#[test]
fn running_names() {
    let three = stages(&[ArchiveFormat::Tar, ArchiveFormat::GZip, ArchiveFormat::Lzma]);
    assert_eq!(stem_names("out", &three), vec!["out.tar", "out.tar.gz", "out.tar.gz.xz"]);
    assert_eq!(stem_names("out", &stages(&[ArchiveFormat::Zip])), vec!["out.zip"]);
    assert_eq!(stem_names("out", &Vec::new()), Vec::<String>::new());
}

#[test]
fn names_of_the_archives() {
    let three = stages(&[ArchiveFormat::Tar, ArchiveFormat::GZip, ArchiveFormat::Lzma]);
    assert_eq!(
        target_names("out.bundle", &three),
        vec!["out.tar", "out.tar.gz", "out.tar.gz.xz"]
    );
    assert_eq!(target_names("plain", &stages(&[ArchiveFormat::Zip])), vec!["archive.zip"]);
    assert_eq!(target_names("out.bundle", &Vec::new()), Vec::<String>::new());
}

#[test]
fn no_archive_takes_the_name_of_the_output() {
    let three = stages(&[ArchiveFormat::Tar, ArchiveFormat::GZip, ArchiveFormat::Lzma]);
    assert_eq!(
        target_names("out.tar", &three),
        vec!["out.tar.part", "out.tar.gz", "out.tar.gz.xz"]
    );
    assert_eq!(
        target_names("out.tar.gz", &three),
        vec!["out.tar", "out.tar.gz.part", "out.tar.gz.xz"]
    );
    assert_eq!(
        target_names("out.tar.gz.xz", &three),
        vec!["out.tar", "out.tar.gz", "out.tar.gz.xz.part"]
    );
    assert_eq!(
        target_names("out.tar.part", &stages(&[ArchiveFormat::Tar])),
        vec!["out.tar"]
    );
    for name in ["out.tar", "out.tar.gz", "out.tar.gz.xz", "out.tar.part", "out", "out.x"] {
        let names = target_names(name, &three);
        assert!(names.iter().all(|target| target != name));
        assert!(names[0] != names[1] && names[1] != names[2] && names[0] != names[2]);
    }
}

#[test]
fn empty_pipeline_does_nothing() {
    let mut pipeline = Pipeline::new(Vec::new(), "notes.txt", "dir/notes.txt".to_string());
    assert_eq!(pipeline.phase(), Phase::Ready);
    let mut disk = BTreeSet::new();
    assert_eq!(run(&mut pipeline, &mut disk), vec!["done"]);
    assert_eq!(pipeline.phase(), Phase::Finished);
    assert!(disk.is_empty());
    assert!(matches!(pipeline.advance(Outcome::Done), Action::Idle));
}

#[test]
fn single_stage_is_packed_and_moved() {
    let mut pipeline =
        Pipeline::new(stages(&[ArchiveFormat::Tar]), "backup.bin", "backup.bin".to_string());
    let mut disk = BTreeSet::new();
    assert_eq!(
        run(&mut pipeline, &mut disk),
        vec![
            "pack inputs as tar at auto into backup.tar",
            "rename backup.tar to backup.bin",
            "done"
        ]
    );
    assert_eq!(disk.into_iter().collect::<Vec<_>>(), vec!["backup.bin"]);
}

#[test]
fn two_stages_leave_only_the_output() {
    let resolved = resolve_inferred("archive.tar.gz");
    let mut pipeline = Pipeline::new(resolved, "archive.tar.gz", "archive.tar.gz".to_string());
    let mut disk: BTreeSet<String> = ["notes.txt".to_string()].into_iter().collect();
    assert_eq!(
        run(&mut pipeline, &mut disk),
        vec![
            "pack inputs as tar at auto into archive.tar",
            "pack archive.tar under archive.tar as gzip at auto into archive.tar.gz.part",
            "remove archive.tar",
            "rename archive.tar.gz.part to archive.tar.gz",
            "done"
        ]
    );
    assert_eq!(pipeline.phase(), Phase::Finished);
    assert!(!disk.contains("archive.tar"));
    assert_eq!(disk.into_iter().collect::<Vec<_>>(), vec!["archive.tar.gz", "notes.txt"]);
}

#[test]
fn three_stages_with_levels() {
    let list = vec![
        (ArchiveFormat::Tar, CompressionLevel::Auto),
        (ArchiveFormat::GZip, CompressionLevel::Numbered(3)),
        (ArchiveFormat::Lzma, CompressionLevel::Numbered(9)),
    ];
    let mut pipeline = Pipeline::new(list, "out.bundle", "/tmp/x/out.bundle".to_string());
    let mut disk = BTreeSet::new();
    assert_eq!(
        run(&mut pipeline, &mut disk),
        vec![
            "pack inputs as tar at auto into out.tar",
            "pack out.tar under out.tar as gzip at 3 into out.tar.gz",
            "remove out.tar",
            "pack out.tar.gz under out.tar.gz as lzma at 9 into out.tar.gz.xz",
            "remove out.tar.gz",
            "rename out.tar.gz.xz to /tmp/x/out.bundle",
            "done"
        ]
    );
    assert_eq!(disk.into_iter().collect::<Vec<_>>(), vec!["/tmp/x/out.bundle"]);
}

#[test]
fn rename_across_devices_falls_back_to_copy() {
    let list = stages(&[ArchiveFormat::Tar, ArchiveFormat::GZip]);
    let mut pipeline = Pipeline::new(list, "data.bin", "/mnt/other/data.bin".to_string());
    let mut disk = BTreeSet::new();
    let mut action = pipeline.start();
    while !matches!(action, Action::Rename { .. }) {
        perform(&mut disk, &action);
        action = pipeline.advance(Outcome::Done);
    }
    assert_eq!(describe(&action), "rename data.tar.gz to /mnt/other/data.bin");
    assert_eq!(pipeline.phase(), Phase::Renaming);

    let action = pipeline.advance(Outcome::CrossDevice(broken()));
    assert_eq!(describe(&action), "copy data.tar.gz to /mnt/other/data.bin");
    assert_eq!(pipeline.phase(), Phase::Copying);
    perform(&mut disk, &action);

    let action = pipeline.advance(Outcome::Done);
    assert_eq!(describe(&action), "remove data.tar.gz");
    assert_eq!(pipeline.phase(), Phase::Unlinking);
    perform(&mut disk, &action);

    let action = pipeline.advance(Outcome::Done);
    assert!(matches!(action, Action::Done));
    assert_eq!(pipeline.phase(), Phase::Finished);
    assert!(pipeline.is_over());
    assert_eq!(disk.into_iter().collect::<Vec<_>>(), vec!["/mnt/other/data.bin"]);
}

#[test]
fn other_rename_failure_is_fatal() {
    let mut pipeline =
        Pipeline::new(stages(&[ArchiveFormat::Tar]), "data.bin", "out/data.bin".to_string());
    pipeline.start();
    let action = pipeline.advance(Outcome::Done);
    assert!(matches!(action, Action::Rename { .. }));
    match pipeline.advance(Outcome::Failed(broken())) {
        Action::Fail(Error::MoveFinalArchive { source, from, to }) => {
            assert_eq!(source.kind(), std::io::ErrorKind::PermissionDenied);
            assert_eq!(from, "data.tar");
            assert_eq!(to, "out/data.bin");
        }
        other => panic!("unexpected: {:?}", other),
    }
    assert_eq!(pipeline.phase(), Phase::Aborted);
    assert!(pipeline.is_over());
    assert!(matches!(pipeline.advance(Outcome::Done), Action::Idle));
    assert_eq!(pipeline.phase(), Phase::Aborted);
}

#[test]
fn failed_copy_is_fatal() {
    let mut pipeline =
        Pipeline::new(stages(&[ArchiveFormat::Tar]), "data.bin", "out/data.bin".to_string());
    pipeline.start();
    pipeline.advance(Outcome::Done);
    pipeline.advance(Outcome::CrossDevice(broken()));
    assert!(matches!(
        pipeline.advance(Outcome::Failed(broken())),
        Action::Fail(Error::MoveFinalArchive { .. })
    ));
    assert_eq!(pipeline.phase(), Phase::Aborted);
}

#[test]
fn failed_removal_after_copy_is_reported() {
    let mut pipeline =
        Pipeline::new(stages(&[ArchiveFormat::Tar]), "data.bin", "out/data.bin".to_string());
    pipeline.start();
    pipeline.advance(Outcome::Done);
    pipeline.advance(Outcome::CrossDevice(broken()));
    pipeline.advance(Outcome::Done);
    match pipeline.advance(Outcome::Failed(broken())) {
        Action::Fail(Error::RemoveOldArchive { path, .. }) => assert_eq!(path, "data.tar"),
        other => panic!("unexpected: {:?}", other),
    }
}

#[test]
fn failed_creation_stops_the_run() {
    let list = stages(&[ArchiveFormat::Tar, ArchiveFormat::GZip]);
    let mut pipeline = Pipeline::new(list, "a.tar.gz", "a.tar.gz".to_string());
    assert!(matches!(pipeline.start(), Action::Pack { .. }));
    match pipeline.advance(Outcome::Failed(broken())) {
        Action::Fail(Error::CreateArchiveFile { path, .. }) => assert_eq!(path, "a.tar"),
        other => panic!("unexpected: {:?}", other),
    }
    assert_eq!(pipeline.phase(), Phase::Aborted);
    assert!(matches!(pipeline.advance(Outcome::Done), Action::Idle));
}

#[test]
fn rejected_packing_hands_its_error_on() {
    let list = stages(&[ArchiveFormat::Tar, ArchiveFormat::GZip]);
    let mut pipeline = Pipeline::new(list, "a.tar.gz", "a.tar.gz".to_string());
    pipeline.start();
    let second = pipeline.advance(Outcome::Done);
    assert_eq!(describe(&second), "pack a.tar under a.tar as gzip at auto into a.tar.gz.part");
    assert_eq!(pipeline.phase(), Phase::Packing(1));
    match pipeline.advance(Outcome::Rejected(Error::UnsupportedFormat(ArchiveFormat::GZip))) {
        Action::Fail(Error::UnsupportedFormat(format)) => assert_eq!(format, ArchiveFormat::GZip),
        other => panic!("unexpected: {:?}", other),
    }
    assert_eq!(pipeline.phase(), Phase::Aborted);
}

#[test]
fn failed_removal_of_old_archive_is_reported() {
    let list = stages(&[ArchiveFormat::Tar, ArchiveFormat::GZip]);
    let mut pipeline = Pipeline::new(list, "a.tar.gz", "a.tar.gz".to_string());
    pipeline.start();
    pipeline.advance(Outcome::Done);
    let removal = pipeline.advance(Outcome::Done);
    assert_eq!(describe(&removal), "remove a.tar");
    assert_eq!(pipeline.phase(), Phase::Removing(1));
    let cause = std::io::Error::new(std::io::ErrorKind::NotFound, "gone already");
    match pipeline.advance(Outcome::Failed(cause)) {
        Action::Fail(Error::RemoveOldArchive { source, path }) => {
            assert_eq!(path, "a.tar");
            assert_eq!(source.kind(), std::io::ErrorKind::NotFound);
            assert_eq!(source.to_string(), "gone already");
        }
        other => panic!("unexpected: {:?}", other),
    }
    assert_eq!(pipeline.phase(), Phase::Aborted);
}

#[test]
fn output_without_extension_uses_the_default_base() {
    let mut pipeline =
        Pipeline::new(stages(&[ArchiveFormat::Zip]), "bundle", "bundle".to_string());
    let mut disk = BTreeSet::new();
    assert_eq!(
        run(&mut pipeline, &mut disk),
        vec!["pack inputs as zip at auto into archive.zip", "rename archive.zip to bundle", "done"]
    );
}

#[test]
fn start_on_a_running_pipeline_names_nothing() {
    let mut pipeline =
        Pipeline::new(stages(&[ArchiveFormat::Tar]), "data.bin", "data.bin".to_string());
    assert!(matches!(pipeline.start(), Action::Pack { .. }));
    assert_eq!(pipeline.phase(), Phase::Packing(0));
    assert!(matches!(pipeline.start(), Action::Idle));
    assert_eq!(pipeline.phase(), Phase::Packing(0));
}

#[test]
fn advance_begins_a_run_too() {
    let mut pipeline =
        Pipeline::new(stages(&[ArchiveFormat::Tar]), "data.bin", "data.bin".to_string());
    let first = pipeline.advance(Outcome::Failed(broken()));
    assert_eq!(describe(&first), "pack inputs as tar at auto into data.tar");
    assert_eq!(pipeline.phase(), Phase::Packing(0));
}

#[test]
fn archive_named_like_the_output_is_set_apart() {
    let list = stages(&[ArchiveFormat::Tar, ArchiveFormat::GZip]);
    let mut pipeline = Pipeline::new(list, "a.tar", "dir/a.tar".to_string());
    let mut disk: BTreeSet<String> = ["a.tar".to_string()].into_iter().collect();
    let log = run(&mut pipeline, &mut disk);
    assert_eq!(
        log,
        vec![
            "pack inputs as tar at auto into a.tar.part",
            "pack a.tar.part under a.tar as gzip at auto into a.tar.gz",
            "remove a.tar.part",
            "rename a.tar.gz to dir/a.tar",
            "done"
        ]
    );
}

#[test]
fn failed_stage_leaves_the_output_alone() {
    for failing in 0..4 {
        let list = stages(&[ArchiveFormat::Tar, ArchiveFormat::GZip, ArchiveFormat::Lzma]);
        let mut pipeline = Pipeline::new(list, "a.tar.gz", "a.tar.gz".to_string());
        let mut disk: BTreeSet<String> = ["a.tar.gz".to_string()].into_iter().collect();
        let mut action = pipeline.start();
        let mut step = 0;
        loop {
            if let Action::Pack { target, .. } = &action {
                assert_ne!(target, "a.tar.gz");
            }
            assert!(!matches!(action, Action::Rename { .. } | Action::Copy { .. }));
            if step == failing {
                break;
            }
            perform(&mut disk, &action);
            action = pipeline.advance(Outcome::Done);
            step += 1;
        }
        assert!(matches!(pipeline.advance(Outcome::Failed(broken())), Action::Fail(_)));
        assert_eq!(pipeline.phase(), Phase::Aborted);
        assert!(disk.contains("a.tar.gz"));
    }
}

#[test]
fn pack_resolves_and_sets_up_the_run() {
    let none: Vec<String> = Vec::new();
    let mut pipeline = pack(&none, &none, "archive.tar", "archive.tar".to_string()).unwrap();
    assert_eq!(pipeline.phase(), Phase::Ready);
    assert_eq!(
        describe(&pipeline.start()),
        "pack inputs as tar at auto into archive.tar.part"
    );
    let formats = vec!["zip".to_string()];
    let levels = vec!["7".to_string()];
    let mut pipeline = pack(&formats, &levels, "x.bin", "x.bin".to_string()).unwrap();
    assert_eq!(describe(&pipeline.start()), "pack inputs as zip at 7 into x.zip");
}

#[test]
fn pack_with_too_many_levels_makes_no_run() {
    let formats = vec!["tar".to_string()];
    let levels = vec!["1".to_string(), "2".to_string()];
    assert!(matches!(
        pack(&formats, &levels, "archive.tar", "archive.tar".to_string()),
        Err(Error::MissingCompressionFormat)
    ));
    let bad = vec!["rar".to_string()];
    assert!(matches!(
        pack(&bad, &Vec::new(), "archive.tar", "archive.tar".to_string()),
        Err(Error::InvalidCompressionFormat(_))
    ));
}
