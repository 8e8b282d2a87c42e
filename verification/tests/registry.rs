use flight_services::registry::{
    is_app_dir, is_part_of_path, is_usable_uuid, is_usable_version, message, same_entry, App,
    AppDir, AppError, AppMetadata, AppRegistry, AppRegistryEntry, FileFailure, Found, FsStep,
    ManifestRead, RegisterFailure, RunLevel, Source, Spawned, StartFailure, Subject, K_APPS_DIR,
    UUID_VARIABLE,
};

fn text(s: &str) -> Vec<u8> {
    s.as_bytes().to_vec()
}

fn metadata(name: &str, version: &str) -> AppMetadata {
    AppMetadata {
        name: text(name),
        version: text(version),
        author: text("someone"),
    }
}

fn entry(uuid: &str, name: &str, version: &str, active: bool) -> AppRegistryEntry {
    AppRegistryEntry {
        app: App {
            uuid: text(uuid),
            metadata: metadata(name, version),
            pid: 0,
            path: text(&format!("/apps/{}/{}/{}", uuid, version, name)),
        },
        active_version: active,
    }
}

fn source(name: &str, version: &str) -> Source {
    Source {
        path: text("/incoming/app"),
        exists: true,
        is_dir: true,
        manifest: ManifestRead::Valid(metadata(name, version)),
        executable_exists: true,
    }
}

// The steps that make `target` the active version of `uuid` under /apps.
fn activation(uuid: &str, target: &str) -> Vec<FsStep> {
    let link = format!("/apps/active/{}", uuid);
    let staging = format!("/apps/{}/.active", uuid);
    vec![
        FsStep::Unlink { link: text(&staging) },
        FsStep::Symlink { link: text(&staging), target: text(target) },
        FsStep::Rename { from: text(&staging), to: text(&link) },
    ]
}

fn registry(entries: Vec<AppRegistryEntry>) -> AppRegistry {
    AppRegistry {
        entries,
        apps_dir: text("/apps"),
    }
}

#[test]
fn constants() {
    assert_eq!(K_APPS_DIR, "/home/system/kubos/apps");
    assert_eq!(UUID_VARIABLE, "KUBOS_APP_UUID");
    assert_eq!(RunLevel::OnBoot.label(), "OnBoot");
    assert_eq!(RunLevel::OnCommand.label(), "OnCommand");
}

#[test]
fn active_is_no_app_dir() {
    assert!(is_app_dir(b"a-b-c", true));
    assert!(!is_app_dir(b"a-b-c", false));
    assert!(!is_app_dir(b"active", true));
    assert!(!is_app_dir(b"active", false));
    assert!(is_app_dir(b"actives", true));
    assert!(is_app_dir(b"", true));
}

fn listing() -> Vec<AppDir> {
    vec![
        AppDir {
            name: text("u1"),
            is_dir: true,
            versions: vec![
                Found { path: text("/apps/u1/1.0"), entry: Some(entry("u1", "app", "1.0", false)) },
                Found { path: text("/apps/u1/junk"), entry: None },
                Found { path: text("/apps/u1/2.0"), entry: Some(entry("u1", "app", "2.0", true)) },
            ],
        },
        // the directory of active versions is passed over
        AppDir {
            name: text("active"),
            is_dir: true,
            versions: vec![
                Found { path: text("/apps/active/u1"), entry: Some(entry("u1", "app", "2.0", true)) },
                Found { path: text("/apps/active/stale"), entry: None },
            ],
        },
        // and so is what is no directory
        AppDir {
            name: text("notes.txt"),
            is_dir: false,
            versions: vec![Found { path: text("/apps/notes.txt/x"), entry: None }],
        },
        AppDir { name: text("empty"), is_dir: true, versions: vec![] },
        AppDir {
            name: text("u2"),
            is_dir: true,
            versions: vec![
                Found { path: text("/apps/u2/0.1"), entry: Some(entry("u2", "other", "0.1", true)) },
            ],
        },
    ]
}

#[test]
fn new_from_dir_keeps_entries_and_tidies_up() {
    let (registry, steps) = AppRegistry::new_from_dir("/apps", listing());
    assert_eq!(registry.apps_dir, text("/apps"));
    assert_eq!(
        registry.entries,
        vec![
            entry("u1", "app", "1.0", false),
            entry("u1", "app", "2.0", true),
            entry("u2", "other", "0.1", true),
        ]
    );
    let mut expected = vec![
        FsStep::CreateDirAll { path: text("/apps/active") },
        FsStep::Remove { path: text("/apps/u1/junk") },
    ];
    expected.extend(activation("u1", "/apps/u1/2.0"));
    expected.extend(activation("u2", "/apps/u2/0.1"));
    assert_eq!(steps, expected);
}

#[test]
fn discover_apps_and_versions() {
    let registry = registry(Vec::new());
    let (entries, steps) = registry.discover_apps(listing());
    assert_eq!(entries.len(), 3);
    assert_eq!(steps.len(), 7);
    let (entries, steps) = registry.discover_apps(Vec::new());
    assert!(entries.is_empty() && steps.is_empty());

    let found = vec![
        Found { path: text("/apps/u7/a"), entry: None },
        Found { path: text("/apps/u7/b"), entry: Some(entry("u7", "app", "b", true)) },
        Found { path: text("/apps/u7/c"), entry: Some(entry("u7", "app", "c", false)) },
    ];
    let (entries, steps) = registry.discover_versions(found);
    assert_eq!(entries, vec![entry("u7", "app", "b", true), entry("u7", "app", "c", false)]);
    let mut expected = vec![FsStep::Remove { path: text("/apps/u7/a") }];
    expected.extend(activation("u7", "/apps/u7/b"));
    assert_eq!(steps, expected);
}

#[test]
fn new_uses_the_default_directory() {
    let (registry, steps) = AppRegistry::new(Vec::new());
    assert_eq!(registry.apps_dir, text("/home/system/kubos/apps"));
    assert!(registry.entries.is_empty());
    assert_eq!(
        steps,
        vec![FsStep::CreateDirAll { path: text("/home/system/kubos/apps/active") }]
    );
}

#[test]
fn paths() {
    let registry = registry(Vec::new());
    assert_eq!(registry.active_dir(), text("/apps/active"));
    assert_eq!(registry.active_link(&text("u1")), text("/apps/active/u1"));
    assert_eq!(registry.version_dir(&text("u1"), &text("1.0")), text("/apps/u1/1.0"));
    assert_eq!(registry.staging_link(&text("u1")), text("/apps/u1/.active"));
    assert_eq!(
        registry.set_active(&text("u1"), &text("/apps/u1/1.0")),
        vec![
            FsStep::Unlink { link: text("/apps/u1/.active") },
            FsStep::Symlink { link: text("/apps/u1/.active"), target: text("/apps/u1/1.0") },
            FsStep::Rename { from: text("/apps/u1/.active"), to: text("/apps/active/u1") },
        ]
    );
}

#[test]
fn register_refuses_bad_sources() {
    let cases = vec![
        (
            Source { exists: false, is_dir: false, ..source("app", "1.0") },
            AppError::RegisterError { reason: RegisterFailure::SourceMissing },
        ),
        (
            Source { is_dir: false, ..source("app", "1.0") },
            AppError::RegisterError { reason: RegisterFailure::SourceNotDirectory },
        ),
        (
            Source { manifest: ManifestRead::Unreadable, ..source("app", "1.0") },
            AppError::IoError,
        ),
        (
            Source { manifest: ManifestRead::Invalid, ..source("app", "1.0") },
            AppError::ParseError,
        ),
        (
            Source { executable_exists: false, ..source("app", "1.0") },
            AppError::RegisterError { reason: RegisterFailure::ExecutableMissing },
        ),
        (source("app", ""), AppError::RegisterError { reason: RegisterFailure::BadVersion }),
        (source("app", ".."), AppError::RegisterError { reason: RegisterFailure::BadVersion }),
        (source("app", "1/0"), AppError::RegisterError { reason: RegisterFailure::BadVersion }),
        (
            source("app", ".active"),
            AppError::RegisterError { reason: RegisterFailure::BadVersion },
        ),
    ];
    for (bad, error) in cases {
        let mut registry = registry(vec![entry("u1", "app", "0.9", true)]);
        let before = registry.clone();
        assert_eq!(registry.register(bad, Some(text("u1"))), Err(error));
        assert_eq!(registry, before);
    }
}

#[test]
fn register_new_version_replaces_the_active_one() {
    let mut registry = registry(vec![
        entry("u1", "app", "0.8", false),
        entry("u1", "app", "0.9", true),
        entry("u2", "other", "0.1", true),
    ]);
    let done = registry.register(source("app", "1.0"), Some(text("u1"))).unwrap();
    assert_eq!(done.entry, entry("u1", "app", "1.0", true));
    assert_eq!(done.entry.app.path, text("/apps/u1/1.0/app"));
    assert_eq!(done.entry.app.pid, 0);
    assert_eq!(done.previous, Some(1));
    assert!(done.retired);
    assert_eq!(
        registry.entries,
        vec![
            entry("u1", "app", "0.8", false),
            entry("u1", "app", "0.9", false),
            entry("u2", "other", "0.1", true),
            entry("u1", "app", "1.0", true),
        ]
    );
    let mut expected = vec![
        FsStep::SaveEntry { entry: entry("u1", "app", "0.9", false) },
        FsStep::CreateDirAll { path: text("/apps/u1/1.0") },
        FsStep::CopyContents { from: text("/incoming/app"), to: text("/apps/u1/1.0") },
        FsStep::SaveEntry { entry: entry("u1", "app", "1.0", true) },
    ];
    // the link is moved last: until then the old version is the active one
    expected.extend(activation("u1", "/apps/u1/1.0"));
    assert_eq!(done.steps, expected);
}

#[test]
fn register_under_a_new_uuid() {
    let mut registry = registry(vec![entry("u1", "app", "0.9", true)]);
    let done = registry.register(source("app", "1.0"), Some(text("u3"))).unwrap();
    assert_eq!(done.entry, entry("u3", "app", "1.0", true));
    assert_eq!(done.previous, None);
    assert!(!done.retired);
    assert_eq!(registry.entries, vec![entry("u1", "app", "0.9", true), done.entry.clone()]);
    assert_eq!(done.steps.len(), 6);
    assert_eq!(done.steps[0], FsStep::CreateDirAll { path: text("/apps/u3/1.0") });
    assert_eq!(done.steps[2], FsStep::SaveEntry { entry: done.entry });
}

#[test]
fn register_draws_a_uuid_where_none_is_given() {
    let mut registry = registry(vec![entry("u1", "app", "0.9", true)]);
    let first = registry.register(source("app", "1.0"), None).unwrap();
    let second = registry.register(source("app", "1.0"), None).unwrap();
    let uuid = String::from_utf8(first.entry.app.uuid.clone()).unwrap();
    // the hyphenated form of a random UUID
    assert_eq!(uuid.len(), 36);
    for (at, byte) in uuid.bytes().enumerate() {
        match at {
            8 | 13 | 18 | 23 => assert_eq!(byte, b'-'),
            14 => assert_eq!(byte, b'4'),
            _ => assert!(byte.is_ascii_digit() || (b'a'..=b'f').contains(&byte)),
        }
    }
    assert_ne!(first.entry.app.uuid, second.entry.app.uuid);
    assert_eq!(first.entry.app.path, text(&format!("/apps/{}/1.0/app", uuid)));
    assert!(first.entry.active_version);
    assert_eq!(first.previous, None);
    // nothing that was there is touched
    assert_eq!(registry.entries[0], entry("u1", "app", "0.9", true));
    assert_eq!(registry.entries.len(), 3);
    assert_eq!(first.steps.len(), 6);
    assert_eq!(
        first.steps[5],
        FsStep::Rename {
            from: text(&format!("/apps/{}/.active", uuid)),
            to: text(&format!("/apps/active/{}", uuid)),
        }
    );
}

#[test]
fn register_as_keeps_the_active_version_unless_told() {
    let mut registry = registry(vec![entry("u1", "app", "0.9", true)]);
    let done = registry.register_as(source("app", "1.0"), text("u1"), false).unwrap();
    assert_eq!(registry.entries, vec![entry("u1", "app", "0.9", true), done.entry.clone()]);
    assert_eq!(done.previous, Some(0));
    assert!(!done.retired);
    assert_eq!(done.steps.len(), 6);
}

#[test]
fn abandon_puts_the_registry_back() {
    let before = vec![
        entry("u1", "app", "0.8", false),
        entry("u1", "app", "0.9", true),
        entry("u2", "other", "0.1", true),
    ];
    let mut registry = registry(before.clone());
    let done = registry.register(source("app", "1.0"), Some(text("u1"))).unwrap();
    assert_ne!(registry.entries, before);
    // the copy failed: the directory was made, the link was not touched
    let undo = registry.abandon(&done, 2, true);
    assert_eq!(registry.entries, before);
    assert_eq!(
        undo,
        vec![
            FsStep::Unlink { link: text("/apps/u1/.active") },
            FsStep::Remove { path: text("/apps/u1/1.0") },
            FsStep::SaveEntry { entry: entry("u1", "app", "0.9", true) },
        ]
    );
}

#[test]
fn abandon_takes_out_the_entry_that_was_registered() {
    // an older entry for the same version stays, and stays as it was
    let before = vec![entry("u1", "app", "1.0", false)];
    let mut registry = registry(before.clone());
    let done = registry.register(source("app", "1.0"), Some(text("u1"))).unwrap();
    assert_eq!(done.previous, None);
    let undo = registry.abandon(&done, 1, false);
    assert_eq!(registry.entries, before);
    // the directory was there before: it is not removed
    assert_eq!(undo, vec![FsStep::Unlink { link: text("/apps/u1/.active") }]);
}

#[test]
fn abandon_after_every_step_sets_the_link_back() {
    let before = vec![entry("u1", "app", "0.9", true)];
    let mut registry = registry(before.clone());
    let done = registry.register(source("app", "1.0"), Some(text("u1"))).unwrap();
    let undo = registry.abandon(&done, done.steps.len(), true);
    assert_eq!(registry.entries, before);
    let mut expected = activation("u1", "/apps/u1/0.9");
    expected.push(FsStep::Remove { path: text("/apps/u1/1.0") });
    expected.push(FsStep::SaveEntry { entry: entry("u1", "app", "0.9", true) });
    assert_eq!(undo, expected);

    // where no version was active before, the link goes
    let mut empty = AppRegistry { entries: Vec::new(), apps_dir: text("/apps") };
    let done = empty.register(source("app", "1.0"), Some(text("u5"))).unwrap();
    let undo = empty.abandon(&done, done.steps.len(), true);
    assert!(empty.entries.is_empty());
    assert_eq!(
        undo,
        vec![
            FsStep::Unlink { link: text("/apps/active/u5") },
            FsStep::Remove { path: text("/apps/u5/1.0") },
        ]
    );
}

#[test]
fn abandon_leaves_a_changed_registry_alone() {
    let mut registry = registry(vec![entry("u1", "app", "0.9", true)]);
    let done = registry.register(source("app", "1.0"), Some(text("u1"))).unwrap();
    registry.register(source("other", "2.0"), Some(text("u2"))).unwrap();
    let changed = registry.entries.clone();
    assert!(registry.abandon(&done, 0, false).is_empty());
    assert_eq!(registry.entries, changed);
}

#[test]
fn uninstall_takes_the_version_out() {
    let mut registry = registry(vec![
        entry("u1", "app", "0.9", false),
        entry("u1", "app", "1.0", true),
        entry("u2", "other", "1.0", true),
    ]);
    assert_eq!(registry.uninstall(&text("u1"), &text("1.0"), true), Ok(true));
    assert_eq!(
        registry.entries,
        vec![entry("u1", "app", "0.9", false), entry("u2", "other", "1.0", true)]
    );
    // not there any more
    assert_eq!(
        registry.uninstall(&text("u1"), &text("1.0"), true),
        Err(AppError::UninstallError { dir_failed: false, not_found: true })
    );
    // the directory could not be removed: the entry goes all the same
    assert_eq!(
        registry.uninstall(&text("u2"), &text("1.0"), false),
        Err(AppError::UninstallError { dir_failed: true, not_found: false })
    );
    assert_eq!(registry.entries, vec![entry("u1", "app", "0.9", false)]);
    assert_eq!(
        registry.uninstall(&text("u9"), &text("1.0"), false),
        Err(AppError::UninstallError { dir_failed: true, not_found: true })
    );
    assert_eq!(registry.entries, vec![entry("u1", "app", "0.9", false)]);
}

#[test]
fn start_app_runs_the_active_version() {
    let registry = registry(vec![
        entry("u1", "app", "0.9", false),
        entry("u1", "app", "1.0", true),
        entry("u2", "other", "1.0", false),
    ]);
    let launch = registry.start_app(&text("u1"), RunLevel::OnCommand, None).unwrap();
    assert_eq!(launch.uuid, text("u1"));
    assert_eq!(launch.version, text("1.0"));
    assert_eq!(launch.program, text("/apps/u1/1.0/app"));
    assert_eq!(launch.arguments, vec![text("-r"), text("OnCommand")]);

    let launch = registry
        .start_app(&text("u1"), RunLevel::OnBoot, Some(vec![text("--verbose"), text("x")]))
        .unwrap();
    assert_eq!(
        launch.arguments,
        vec![text("-r"), text("OnBoot"), text("--verbose"), text("x")]
    );

    for uuid in ["u2", "u3"] {
        assert_eq!(
            registry.start_app(&text(uuid), RunLevel::OnBoot, None),
            Err(AppError::StartError { reason: StartFailure::NoActiveVersion })
        );
    }
}

#[test]
fn missing_executable_uninstalls_the_version() {
    let mut registry = registry(vec![entry("u1", "app", "1.0", true)]);
    let launch = registry.start_app(&text("u1"), RunLevel::OnBoot, None).unwrap();
    assert_eq!(
        registry.executable_missing(&launch, true),
        AppError::StartError {
            reason: StartFailure::ExecutableMissing { dir_failed: false, not_found: false }
        }
    );
    assert!(registry.entries.is_empty());
    // it is gone from the registry by now, and this time its directory stays
    assert_eq!(
        registry.executable_missing(&launch, false),
        AppError::StartError {
            reason: StartFailure::ExecutableMissing { dir_failed: true, not_found: true }
        }
    );
}

#[test]
fn run_onboot_counts_what_did_not_start() {
    let registry = registry(Vec::new());
    assert_eq!(registry.run_onboot(true, &vec![]), Ok(()));
    assert_eq!(registry.run_onboot(true, &vec![true, true]), Ok(()));
    assert_eq!(
        registry.run_onboot(true, &vec![true, false, true, false]),
        Err(AppError::FileError { reason: FileFailure::NotStarted { count: 2 } })
    );
    assert_eq!(
        registry.run_onboot(false, &vec![true]),
        Err(AppError::FileError { reason: FileFailure::NoActiveDir })
    );
}

#[test]
fn duplicate_copies_an_entry() {
    let first = entry("u1", "app", "1.0", true);
    assert_eq!(first.duplicate(), first);
}

#[test]
fn same_entry_compares_every_field() {
    let one = entry("u1", "app", "1.0", true);
    assert!(same_entry(&one, &one.clone()));
    assert!(!same_entry(&one, &entry("u1", "app", "1.0", false)));
    assert!(!same_entry(&one, &entry("u1", "app", "1.1", true)));
    assert!(!same_entry(&one, &entry("u2", "app", "1.0", true)));
    let mut running = one.clone();
    running.app.pid = 7;
    assert!(!same_entry(&one, &running));
}

#[test]
fn boot_launch_starts_at_the_boot_run_level() {
    let registry = registry(vec![entry("u1", "app", "1.0", true)]);
    let launch = registry.boot_launch(&text("u1")).unwrap();
    assert_eq!(Ok(launch.clone()), registry.start_app(&text("u1"), RunLevel::OnBoot, None));
    assert_eq!(launch.arguments, vec![text("-r"), text("OnBoot")]);
    assert_eq!(launch.program, text("/apps/u1/1.0/app"));
    assert_eq!(
        registry.boot_launch(&text("nobody")),
        Err(AppError::StartError { reason: StartFailure::NoActiveVersion })
    );
}

#[test]
fn a_failed_step_has_its_failure() {
    let register = |reason| AppError::RegisterError { reason };
    assert_eq!(FsStep::CreateDirAll { path: text("/x") }.failure(), AppError::IoError);
    assert_eq!(FsStep::Remove { path: text("/x") }.failure(), AppError::IoError);
    assert_eq!(
        FsStep::Unlink { link: text("/x") }.failure(),
        register(RegisterFailure::UnlinkFailed)
    );
    assert_eq!(
        FsStep::SaveEntry { entry: entry("u1", "app", "1.0", true) }.failure(),
        AppError::IoError
    );
    assert_eq!(
        FsStep::CopyContents { from: text("/x"), to: text("/y") }.failure(),
        register(RegisterFailure::CopyFailed)
    );
    assert_eq!(
        FsStep::Symlink { link: text("/x"), target: text("/y") }.failure(),
        register(RegisterFailure::LinkFailed)
    );
    assert_eq!(
        FsStep::Rename { from: text("/x"), to: text("/y") }.failure(),
        register(RegisterFailure::LinkFailed)
    );
}

#[test]
fn messages() {
    let about = Subject {
        path: text("/some/path"),
        target: text("/some/target"),
        name: text("app"),
        uuid: text("u1"),
        version: text("1.0"),
        cause: text("permission denied"),
    };
    let say = |error: AppError| String::from_utf8(message(&error, &about)).unwrap();
    let register = |reason| AppError::RegisterError { reason };
    let start = |reason| AppError::StartError { reason };
    assert_eq!(say(register(RegisterFailure::SourceMissing)), "/some/path does not exist");
    assert_eq!(
        say(register(RegisterFailure::SourceNotDirectory)),
        "/some/path is not a directory"
    );
    assert_eq!(
        say(register(RegisterFailure::ExecutableMissing)),
        "Application file app not found in given path"
    );
    assert_eq!(
        say(register(RegisterFailure::CopyFailed)),
        "Error copying files into registry dir: permission denied"
    );
    assert_eq!(
        say(register(RegisterFailure::LinkFailed)),
        "Couldn't symlink /some/path to /some/target: permission denied"
    );
    assert_eq!(
        say(register(RegisterFailure::UnlinkFailed)),
        "Couldn't remove symlink /some/path: permission denied"
    );
    assert_eq!(say(register(RegisterFailure::BadUuid)), "u1 cannot be used as a UUID");
    assert_eq!(say(register(RegisterFailure::BadVersion)), "1.0 cannot be used as a version");
    assert_eq!(say(AppError::IoError), "permission denied");
    assert_eq!(say(AppError::ParseError), "manifest.toml: permission denied");
    assert_eq!(
        say(AppError::UninstallError { dir_failed: true, not_found: true }),
        "Failed to remove app directory: permission denied. u1 version 1.0 not found in registry"
    );
    assert_eq!(
        say(AppError::UninstallError { dir_failed: true, not_found: false }),
        "Failed to remove app directory: permission denied"
    );
    assert_eq!(
        say(AppError::UninstallError { dir_failed: false, not_found: true }),
        "u1 version 1.0 not found in registry"
    );
    assert_eq!(say(AppError::UninstallError { dir_failed: false, not_found: false }), "");
    assert_eq!(
        say(start(StartFailure::NoActiveVersion)),
        "No active version found for UUID u1"
    );
    let missing =
        |dir_failed, not_found| start(StartFailure::ExecutableMissing { dir_failed, not_found });
    assert_eq!(
        say(missing(false, false)),
        "/some/path does not exist. u1 version 1.0 automatically uninstalled"
    );
    // what went wrong with uninstalling is told in the words of `uninstall`
    for (dir_failed, not_found) in [(true, false), (false, true), (true, true)] {
        assert_eq!(
            say(missing(dir_failed, not_found)),
            format!(
                "/some/path does not exist. {}",
                say(AppError::UninstallError { dir_failed, not_found })
            )
        );
    }
    assert_eq!(
        say(missing(true, true)),
        "/some/path does not exist. Failed to remove app directory: permission denied. \
         u1 version 1.0 not found in registry"
    );
    assert_eq!(
        say(start(StartFailure::SpawnFailed)),
        "Failed to spawn app: permission denied"
    );
    assert_eq!(
        say(AppError::FileError { reason: FileFailure::NoActiveDir }),
        "Failed to get list of active UUIDs"
    );
    assert_eq!(
        say(AppError::FileError { reason: FileFailure::NotStarted { count: 12 } }),
        "Failed to start 12 app/s"
    );
}

#[test]
fn reopened_registry_holds_what_was_registered() {
    let (mut first, _) = AppRegistry::new_from_dir("/apps", Vec::new());
    let done = first.register(source("app", "1.0"), None).unwrap();
    // a restart: the registry is opened again on what the steps left on disk
    let on_disk = vec![
        AppDir { name: text("active"), is_dir: true, versions: Vec::new() },
        AppDir {
            name: done.entry.app.uuid.clone(),
            is_dir: true,
            versions: vec![Found {
                path: first.version_dir(&done.entry.app.uuid, &done.entry.app.metadata.version),
                entry: Some(done.entry.clone()),
            }],
        },
    ];
    let (second, _) = AppRegistry::new_from_dir("/apps", on_disk);
    assert_eq!(second.entries, vec![done.entry]);
    assert_eq!(second.entries, first.entries);
}

#[test]
fn register_refuses_uuids_that_cannot_name_an_application() {
    for uuid in ["", ".", "..", "active", "a/b", "/", "x/"] {
        let mut registry = registry(vec![entry("u1", "app", "0.9", true)]);
        let before = registry.clone();
        assert_eq!(
            registry.register(source("app", "1.0"), Some(text(uuid))),
            Err(AppError::RegisterError { reason: RegisterFailure::BadUuid })
        );
        assert_eq!(registry, before);
    }
    // what is wrong with the source is told first
    let mut registry = registry(Vec::new());
    assert_eq!(
        registry.register(
            Source { exists: false, ..source("app", "1.0") },
            Some(text("active"))
        ),
        Err(AppError::RegisterError { reason: RegisterFailure::SourceMissing })
    );
    for uuid in ["x.new", ".active", "actives", "Active", "...", "a.b"] {
        assert!(registry.register(source("app", "1.0"), Some(text(uuid))).is_ok());
    }
}

#[test]
fn usable_names() {
    assert!(is_part_of_path(b"abc"));
    assert!(is_part_of_path(b"..."));
    assert!(!is_part_of_path(b""));
    assert!(!is_part_of_path(b"."));
    assert!(!is_part_of_path(b".."));
    assert!(!is_part_of_path(b"a/b"));
    assert!(is_usable_uuid(b".active"));
    assert!(!is_usable_uuid(b"active"));
    assert!(is_usable_version(b"active"));
    assert!(!is_usable_version(b".active"));
}

// The paths that a step makes, removes or replaces.
fn changed(step: &FsStep) -> Vec<Vec<u8>> {
    match step {
        FsStep::CreateDirAll { path } | FsStep::Remove { path } => vec![path.clone()],
        FsStep::Unlink { link } | FsStep::Symlink { link, .. } => vec![link.clone()],
        FsStep::Rename { from, to } => vec![from.clone(), to.clone()],
        FsStep::CopyContents { to, .. } => vec![to.clone()],
        FsStep::SaveEntry { entry } => vec![entry.app.path.clone()],
    }
}

#[test]
fn registering_one_application_leaves_the_others_alone() {
    // the second UUID is where links of the first were once made
    let names = ["x", "x.new", ".active", "x.active"];
    for ours in names {
        for theirs in names {
            if ours == theirs {
                continue;
            }
            let mut registry = registry(vec![entry(theirs, "other", "0.1", true)]);
            let done = registry.register(source("app", "1.0"), Some(text(ours))).unwrap();
            assert_eq!(registry.entries[0], entry(theirs, "other", "0.1", true));
            let their_link = registry.active_link(&text(theirs));
            let their_dir = text(&format!("/apps/{}/", theirs));
            for step in done.steps.iter().chain(registry.set_active(&text(ours), &text("/t")).iter())
            {
                for path in changed(step) {
                    assert_ne!(path, their_link, "{:?}", step);
                    assert!(!path.starts_with(&their_dir), "{:?}", step);
                }
            }
            let undo = registry.abandon(&done, done.steps.len(), true);
            for step in &undo {
                for path in changed(step) {
                    assert_ne!(path, their_link, "{:?}", step);
                }
            }
            assert_eq!(registry.entries, vec![entry(theirs, "other", "0.1", true)]);
        }
    }
}

#[test]
fn launched_tells_what_came_of_a_launch() {
    let mut registry = registry(vec![entry("u1", "app", "1.0", true)]);
    let before = registry.clone();
    let launch = registry.start_app(&text("u1"), RunLevel::OnCommand, None).unwrap();
    assert_eq!(registry.launched(&launch, Spawned::Started { pid: 42 }), Ok(42));
    assert_eq!(
        registry.launched(&launch, Spawned::Failed),
        Err(AppError::StartError { reason: StartFailure::SpawnFailed })
    );
    assert_eq!(registry, before);
    assert_eq!(
        registry.launched(&launch, Spawned::ExecutableMissing { dir_removed: false }),
        Err(AppError::StartError {
            reason: StartFailure::ExecutableMissing { dir_failed: true, not_found: false }
        })
    );
    assert!(registry.entries.is_empty());
    assert_eq!(
        registry.launched(&launch, Spawned::ExecutableMissing { dir_removed: true }),
        Err(AppError::StartError {
            reason: StartFailure::ExecutableMissing { dir_failed: false, not_found: true }
        })
    );
}

#[test]
fn a_failed_step_says_what_it_worked_on() {
    let cause = text("no space left");
    let about = FsStep::Symlink { link: text("/l"), target: text("/t") }.about(cause.clone());
    assert_eq!((about.path, about.target, about.cause), (text("/l"), text("/t"), cause.clone()));
    let about = FsStep::Rename { from: text("/f"), to: text("/l") }.about(cause.clone());
    assert_eq!((about.path, about.target), (text("/l"), text("/f")));
    let about = FsStep::Unlink { link: text("/l") }.about(cause.clone());
    assert_eq!((about.path, about.target), (text("/l"), text("")));
    let about = FsStep::CopyContents { from: text("/f"), to: text("/d") }.about(cause.clone());
    assert_eq!(about.path, text("/d"));
    let about = FsStep::SaveEntry { entry: entry("u1", "app", "1.0", true) }.about(cause.clone());
    assert_eq!(about.path, text("/apps/u1/1.0/app"));
    assert_eq!(about.uuid, text(""));
    let step = FsStep::Symlink { link: text("/l"), target: text("/t") };
    assert_eq!(
        String::from_utf8(message(&step.failure(), &step.about(cause))).unwrap(),
        "Couldn't symlink /l to /t: no space left"
    );
}
