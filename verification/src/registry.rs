//! The application registry: which versions of which applications are
//! installed, and which version of each is the active one.
//!
//! The registry keeps the table and decides; it touches no file and starts
//! no process. Where the file system has to change, the registry hands out
//! the steps to take, in order; its caller takes them and stops at the
//! first that fails. Every step can be taken again after it was taken, and
//! a registration that fails part-way is undone: the registry is as it was,
//! and the steps that put the disk back are handed out. What the caller
//! found on disk comes in as plain values. All text is kept as bytes.

use crate::chunks::append_bytes;
use crate::hash::is_hex;
use crate::layout::{decimal, decimal_text};
use crate::storage::same_bytes;
use crate::vectors::reversed;
use vstd::prelude::*;
use vstd::slice::*;
use vstd::string::*;

verus! {

/// The default application registry directory.
pub const K_APPS_DIR: &'static str = "/home/system/kubos/apps";

/// The name of the environment variable that tells an application its
/// UUID.
pub const UUID_VARIABLE: &'static str = "KUBOS_APP_UUID";

/// What an application says of itself in its manifest.
#[derive(Clone, Debug, PartialEq, Eq)]
pub struct AppMetadata {
    /// The name of the application and of its executable file.
    pub name: Vec<u8>,
    /// The version of the application.
    pub version: Vec<u8>,
    /// The author of the application.
    pub author: Vec<u8>,
}

/// An installed application.
#[derive(Clone, Debug, PartialEq, Eq)]
pub struct App {
    /// The UUID the application is registered under.
    pub uuid: Vec<u8>,
    /// What the application says of itself.
    pub metadata: AppMetadata,
    /// The process id of the application, zero while it is not running.
    pub pid: u32,
    /// The path of the executable file.
    pub path: Vec<u8>,
}

/// One version of an application in the registry.
#[derive(Clone, Debug, PartialEq, Eq)]
pub struct AppRegistryEntry {
    /// The application.
    pub app: App,
    /// Whether this is the version that is started.
    pub active_version: bool,
}

/// What a registry entry holds.
pub struct EntryView {
    pub uuid: Seq<u8>,
    pub name: Seq<u8>,
    pub version: Seq<u8>,
    pub author: Seq<u8>,
    pub pid: u32,
    pub path: Seq<u8>,
    pub active: bool,
}

impl View for AppRegistryEntry {
    type V = EntryView;

    open spec fn view(&self) -> EntryView {
        EntryView {
            uuid: self.app.uuid@,
            name: self.app.metadata.name@,
            version: self.app.metadata.version@,
            author: self.app.metadata.author@,
            pid: self.app.pid,
            path: self.app.path@,
            active: self.active_version,
        }
    }
}

/// The views of a vector of entries, in order.
pub open spec fn entry_views(entries: Seq<AppRegistryEntry>) -> Seq<EntryView> {
    Seq::new(entries.len(), |i: int| entries[i]@)
}

/// When an application is started.
#[derive(Clone, Copy, Debug, PartialEq, Eq, Structural)]
pub enum RunLevel {
    /// At boot.
    OnBoot,
    /// On command.
    OnCommand,
}

impl RunLevel {
    /// The run level as it is handed to the application.
    pub open spec fn name(self) -> Seq<u8> {
        match self {
            RunLevel::OnBoot => "OnBoot".spec_bytes(),
            RunLevel::OnCommand => "OnCommand".spec_bytes(),
        }
    }

    /// The run level as it is handed to the application.
    pub fn label(&self) -> (text: &'static str)
        ensures
            text.spec_bytes() == self.name(),
    {
        match self {
            RunLevel::OnBoot => "OnBoot",
            RunLevel::OnCommand => "OnCommand",
        }
    }
}

/// Why a registration was refused.
#[derive(Clone, Copy, Debug, PartialEq, Eq, Structural)]
pub enum RegisterFailure {
    /// The path to register from does not exist.
    SourceMissing,
    /// The path to register from is no directory.
    SourceNotDirectory,
    /// The directory does not hold the file named in the manifest.
    ExecutableMissing,
    /// The version cannot name a version: it is empty, it holds a `/`, or
    /// it is `.`, `..` or the name under which links are made.
    BadVersion,
    /// The UUID cannot name an application: it is empty, it holds a `/`,
    /// or it is `.`, `..` or the name of the directory of active versions.
    BadUuid,
    /// The application could not be copied into the registry directory.
    CopyFailed,
    /// A link to the active version could not be removed.
    UnlinkFailed,
    /// The link to the active version could not be set.
    LinkFailed,
}

/// Why an application was not started.
#[derive(Clone, Copy, Debug, PartialEq, Eq, Structural)]
pub enum StartFailure {
    /// No active version is registered under the UUID.
    NoActiveVersion,
    /// The executable file is gone, and the version was uninstalled. That
    /// went well unless its directory could not be removed, as `dir_failed`
    /// says, or it was not in the registry, as `not_found` says.
    ExecutableMissing { dir_failed: bool, not_found: bool },
    /// The process could not be started.
    SpawnFailed,
}

/// Why applications were not started at boot.
#[derive(Clone, Copy, Debug, PartialEq, Eq, Structural)]
pub enum FileFailure {
    /// The directory of active versions could not be listed.
    NoActiveDir,
    /// This many applications did not start.
    NotStarted { count: u64 },
}

/// The failures of the registry.
#[derive(Clone, Copy, Debug, PartialEq, Eq, Structural)]
pub enum AppError {
    /// A registration was refused.
    RegisterError { reason: RegisterFailure },
    /// The manifest could not be read.
    IoError,
    /// The manifest is not valid.
    ParseError,
    /// A version could not be uninstalled: its directory could not be
    /// removed, or it was not in the registry, or both.
    UninstallError { dir_failed: bool, not_found: bool },
    /// An application was not started.
    StartError { reason: StartFailure },
    /// Applications were not started at boot.
    FileError { reason: FileFailure },
}

/// What the message of a failure speaks of. A message uses what it needs:
/// the path that was looked at or worked on, what a link was to point to,
/// the name of the executable, the UUID and the version, and the words of
/// the operating system or of a library on what went wrong.
#[derive(Clone, Debug, PartialEq, Eq)]
pub struct Subject {
    pub path: Vec<u8>,
    pub target: Vec<u8>,
    pub name: Vec<u8>,
    pub uuid: Vec<u8>,
    pub version: Vec<u8>,
    pub cause: Vec<u8>,
}

/// What a subject holds.
pub struct SubjectView {
    pub path: Seq<u8>,
    pub target: Seq<u8>,
    pub name: Seq<u8>,
    pub uuid: Seq<u8>,
    pub version: Seq<u8>,
    pub cause: Seq<u8>,
}

impl View for Subject {
    type V = SubjectView;

    open spec fn view(&self) -> SubjectView {
        SubjectView {
            path: self.path@,
            target: self.target@,
            name: self.name@,
            uuid: self.uuid@,
            version: self.version@,
            cause: self.cause@,
        }
    }
}

/// The words for a version that the registry does not hold.
pub open spec fn not_found_words(about: SubjectView) -> Seq<u8> {
    about.uuid + " version ".spec_bytes() + about.version + " not found in registry".spec_bytes()
}

/// The words for a version that could not be uninstalled: that its
/// directory could not be removed, that the registry does not hold it, or
/// both.
pub open spec fn uninstall_words(dir_failed: bool, not_found: bool, about: SubjectView) -> Seq<
    u8,
> {
    if dir_failed && not_found {
        "Failed to remove app directory: ".spec_bytes() + about.cause + ". ".spec_bytes()
            + not_found_words(about)
    } else if dir_failed {
        "Failed to remove app directory: ".spec_bytes() + about.cause
    } else if not_found {
        not_found_words(about)
    } else {
        Seq::empty()
    }
}

/// The message of the failure `error`, which speaks of `about`.
pub open spec fn message_of(error: AppError, about: SubjectView) -> Seq<u8> {
    match error {
        AppError::RegisterError { reason } => match reason {
            RegisterFailure::SourceMissing => about.path + " does not exist".spec_bytes(),
            RegisterFailure::SourceNotDirectory => about.path + " is not a directory".spec_bytes(),
            RegisterFailure::ExecutableMissing => "Application file ".spec_bytes() + about.name
                + " not found in given path".spec_bytes(),
            RegisterFailure::BadVersion => about.version
                + " cannot be used as a version".spec_bytes(),
            RegisterFailure::BadUuid => about.uuid + " cannot be used as a UUID".spec_bytes(),
            RegisterFailure::CopyFailed => "Error copying files into registry dir: ".spec_bytes()
                + about.cause,
            RegisterFailure::UnlinkFailed => "Couldn't remove symlink ".spec_bytes() + about.path
                + ": ".spec_bytes() + about.cause,
            RegisterFailure::LinkFailed => "Couldn't symlink ".spec_bytes() + about.path
                + " to ".spec_bytes() + about.target + ": ".spec_bytes() + about.cause,
        },
        AppError::IoError => about.cause,
        AppError::ParseError => "manifest.toml: ".spec_bytes() + about.cause,
        AppError::UninstallError { dir_failed, not_found } => uninstall_words(
            dir_failed,
            not_found,
            about,
        ),
        AppError::StartError { reason } => match reason {
            StartFailure::NoActiveVersion => "No active version found for UUID ".spec_bytes()
                + about.uuid,
            StartFailure::ExecutableMissing { dir_failed, not_found } => if !dir_failed
                && !not_found {
                about.path + " does not exist. ".spec_bytes() + about.uuid
                    + " version ".spec_bytes() + about.version
                    + " automatically uninstalled".spec_bytes()
            } else {
                about.path + " does not exist. ".spec_bytes() + uninstall_words(
                    dir_failed,
                    not_found,
                    about,
                )
            },
            StartFailure::SpawnFailed => "Failed to spawn app: ".spec_bytes() + about.cause,
        },
        AppError::FileError { reason } => match reason {
            FileFailure::NoActiveDir => "Failed to get list of active UUIDs".spec_bytes(),
            FileFailure::NotStarted { count } => "Failed to start ".spec_bytes() + decimal(
                count as nat,
            ) + " app/s".spec_bytes(),
        },
    }
}

/// Appends the words for a version that the registry does not hold.
fn put_not_found(out: &mut Vec<u8>, about: &Subject)
    ensures
        final(out)@ == old(out)@ + not_found_words(about@),
{
    append_bytes(out, about.uuid.as_slice());
    append_bytes(out, " version ".as_bytes());
    append_bytes(out, about.version.as_slice());
    append_bytes(out, " not found in registry".as_bytes());
    assert(out@ =~= old(out)@ + not_found_words(about@));
}

/// Appends the words for a version that could not be uninstalled.
fn put_uninstall(out: &mut Vec<u8>, dir_failed: bool, not_found: bool, about: &Subject)
    ensures
        final(out)@ == old(out)@ + uninstall_words(dir_failed, not_found, about@),
{
    if dir_failed {
        append_bytes(out, "Failed to remove app directory: ".as_bytes());
        append_bytes(out, about.cause.as_slice());
        if not_found {
            append_bytes(out, ". ".as_bytes());
            put_not_found(out, about);
        }
    } else if not_found {
        put_not_found(out, about);
    }
    assert(out@ =~= old(out)@ + uninstall_words(dir_failed, not_found, about@));
}

/// The message of the failure `error`, which speaks of `about`.
pub fn message(error: &AppError, about: &Subject) -> (text: Vec<u8>)
    ensures
        text@ == message_of(*error, about@),
{
    let mut out: Vec<u8> = Vec::new();
    match error {
        AppError::RegisterError { reason } => match reason {
            RegisterFailure::SourceMissing => {
                append_bytes(&mut out, about.path.as_slice());
                append_bytes(&mut out, " does not exist".as_bytes());
            },
            RegisterFailure::SourceNotDirectory => {
                append_bytes(&mut out, about.path.as_slice());
                append_bytes(&mut out, " is not a directory".as_bytes());
            },
            RegisterFailure::ExecutableMissing => {
                append_bytes(&mut out, "Application file ".as_bytes());
                append_bytes(&mut out, about.name.as_slice());
                append_bytes(&mut out, " not found in given path".as_bytes());
            },
            RegisterFailure::BadVersion => {
                append_bytes(&mut out, about.version.as_slice());
                append_bytes(&mut out, " cannot be used as a version".as_bytes());
            },
            RegisterFailure::BadUuid => {
                append_bytes(&mut out, about.uuid.as_slice());
                append_bytes(&mut out, " cannot be used as a UUID".as_bytes());
            },
            RegisterFailure::CopyFailed => {
                append_bytes(&mut out, "Error copying files into registry dir: ".as_bytes());
                append_bytes(&mut out, about.cause.as_slice());
            },
            RegisterFailure::UnlinkFailed => {
                append_bytes(&mut out, "Couldn't remove symlink ".as_bytes());
                append_bytes(&mut out, about.path.as_slice());
                append_bytes(&mut out, ": ".as_bytes());
                append_bytes(&mut out, about.cause.as_slice());
            },
            RegisterFailure::LinkFailed => {
                append_bytes(&mut out, "Couldn't symlink ".as_bytes());
                append_bytes(&mut out, about.path.as_slice());
                append_bytes(&mut out, " to ".as_bytes());
                append_bytes(&mut out, about.target.as_slice());
                append_bytes(&mut out, ": ".as_bytes());
                append_bytes(&mut out, about.cause.as_slice());
            },
        },
        AppError::IoError => {
            append_bytes(&mut out, about.cause.as_slice());
        },
        AppError::ParseError => {
            append_bytes(&mut out, "manifest.toml: ".as_bytes());
            append_bytes(&mut out, about.cause.as_slice());
        },
        AppError::UninstallError { dir_failed, not_found } => {
            put_uninstall(&mut out, *dir_failed, *not_found, about);
        },
        AppError::StartError { reason } => match reason {
            StartFailure::NoActiveVersion => {
                append_bytes(&mut out, "No active version found for UUID ".as_bytes());
                append_bytes(&mut out, about.uuid.as_slice());
            },
            StartFailure::ExecutableMissing { dir_failed, not_found } => {
                append_bytes(&mut out, about.path.as_slice());
                append_bytes(&mut out, " does not exist. ".as_bytes());
                if !*dir_failed && !*not_found {
                    append_bytes(&mut out, about.uuid.as_slice());
                    append_bytes(&mut out, " version ".as_bytes());
                    append_bytes(&mut out, about.version.as_slice());
                    append_bytes(&mut out, " automatically uninstalled".as_bytes());
                } else {
                    put_uninstall(&mut out, *dir_failed, *not_found, about);
                }
            },
            StartFailure::SpawnFailed => {
                append_bytes(&mut out, "Failed to spawn app: ".as_bytes());
                append_bytes(&mut out, about.cause.as_slice());
            },
        },
        AppError::FileError { reason } => match reason {
            FileFailure::NoActiveDir => {
                append_bytes(&mut out, "Failed to get list of active UUIDs".as_bytes());
            },
            FileFailure::NotStarted { count } => {
                append_bytes(&mut out, "Failed to start ".as_bytes());
                let number = decimal_text(*count);
                append_bytes(&mut out, number.as_slice());
                append_bytes(&mut out, " app/s".as_bytes());
            },
        },
    }
    assert(out@ =~= message_of(*error, about@));
    out
}

/// One change to the file system. A step either is made in full or fails.
#[derive(Clone, Debug, PartialEq, Eq)]
pub enum FsStep {
    /// Create the directory `path` and its parents, unless they exist.
    CreateDirAll { path: Vec<u8> },
    /// Remove what is at `path`, with all it holds. That nothing is there
    /// is no failure.
    Remove { path: Vec<u8> },
    /// Remove the symbolic link `link`. That nothing is there is no
    /// failure.
    Unlink { link: Vec<u8> },
    /// Make the new symbolic link `link` to `target`. That `link` exists
    /// is a failure.
    Symlink { link: Vec<u8>, target: Vec<u8> },
    /// Move `from` to `to`, in place of whatever `to` was, in one go: where
    /// it fails, `to` is what it was.
    Rename { from: Vec<u8>, to: Vec<u8> },
    /// Copy everything in the directory `from` into the directory `to`.
    CopyContents { from: Vec<u8>, to: Vec<u8> },
    /// Write `entry` to the file that describes it, in the directory of its
    /// executable.
    SaveEntry { entry: AppRegistryEntry },
}

/// What a step says.
pub enum FsStepView {
    CreateDirAll { path: Seq<u8> },
    Remove { path: Seq<u8> },
    Unlink { link: Seq<u8> },
    Symlink { link: Seq<u8>, target: Seq<u8> },
    Rename { from: Seq<u8>, to: Seq<u8> },
    CopyContents { from: Seq<u8>, to: Seq<u8> },
    SaveEntry { entry: EntryView },
}

impl View for FsStep {
    type V = FsStepView;

    open spec fn view(&self) -> FsStepView {
        match *self {
            FsStep::CreateDirAll { path } => FsStepView::CreateDirAll { path: path@ },
            FsStep::Remove { path } => FsStepView::Remove { path: path@ },
            FsStep::Unlink { link } => FsStepView::Unlink { link: link@ },
            FsStep::Symlink { link, target } => FsStepView::Symlink {
                link: link@,
                target: target@,
            },
            FsStep::Rename { from, to } => FsStepView::Rename { from: from@, to: to@ },
            FsStep::CopyContents { from, to } => FsStepView::CopyContents { from: from@, to: to@ },
            FsStep::SaveEntry { entry } => FsStepView::SaveEntry { entry: entry@ },
        }
    }
}

impl FsStepView {
    /// The failure to report where this step fails: a registration error
    /// for a copy and for whatever is done to a link, an input and output
    /// error otherwise.
    pub open spec fn failure(self) -> AppError {
        match self {
            FsStepView::CopyContents { .. } => AppError::RegisterError {
                reason: RegisterFailure::CopyFailed,
            },
            FsStepView::Unlink { .. } => AppError::RegisterError {
                reason: RegisterFailure::UnlinkFailed,
            },
            FsStepView::Symlink { .. } => AppError::RegisterError {
                reason: RegisterFailure::LinkFailed,
            },
            FsStepView::Rename { .. } => AppError::RegisterError {
                reason: RegisterFailure::LinkFailed,
            },
            _ => AppError::IoError,
        }
    }

    /// What the message of this step's failure speaks of: the path the step
    /// works on, what a link was to point to, taken for a move to be where
    /// the link was made, and the `cause` given.
    pub open spec fn about(self, cause: Seq<u8>) -> SubjectView {
        let nothing = Seq::<u8>::empty();
        let (path, target) = match self {
            FsStepView::CreateDirAll { path } => (path, nothing),
            FsStepView::Remove { path } => (path, nothing),
            FsStepView::Unlink { link } => (link, nothing),
            FsStepView::Symlink { link, target } => (link, target),
            FsStepView::Rename { from, to } => (to, from),
            FsStepView::CopyContents { from, to } => (to, nothing),
            FsStepView::SaveEntry { entry } => (entry.path, nothing),
        };
        SubjectView {
            path,
            target,
            name: nothing,
            uuid: nothing,
            version: nothing,
            cause,
        }
    }
}

impl FsStep {
    /// The failure to report where this step fails.
    pub fn failure(&self) -> (error: AppError)
        ensures
            error == self@.failure(),
    {
        match self {
            FsStep::CopyContents { .. } => AppError::RegisterError {
                reason: RegisterFailure::CopyFailed,
            },
            FsStep::Unlink { .. } => AppError::RegisterError {
                reason: RegisterFailure::UnlinkFailed,
            },
            FsStep::Symlink { .. } => AppError::RegisterError {
                reason: RegisterFailure::LinkFailed,
            },
            FsStep::Rename { .. } => AppError::RegisterError {
                reason: RegisterFailure::LinkFailed,
            },
            _ => AppError::IoError,
        }
    }

    /// What the message of this step's failure speaks of, with `cause` for
    /// the words on what went wrong.
    pub fn about(&self, cause: Vec<u8>) -> (subject: Subject)
        ensures
            subject@ == self@.about(cause@),
    {
        let mut subject = Subject {
            path: Vec::new(),
            target: Vec::new(),
            name: Vec::new(),
            uuid: Vec::new(),
            version: Vec::new(),
            cause,
        };
        match self {
            FsStep::CreateDirAll { path } => {
                subject.path = slice_to_vec(path.as_slice());
            },
            FsStep::Remove { path } => {
                subject.path = slice_to_vec(path.as_slice());
            },
            FsStep::Unlink { link } => {
                subject.path = slice_to_vec(link.as_slice());
            },
            FsStep::Symlink { link, target } => {
                subject.path = slice_to_vec(link.as_slice());
                subject.target = slice_to_vec(target.as_slice());
            },
            FsStep::Rename { from, to } => {
                subject.path = slice_to_vec(to.as_slice());
                subject.target = slice_to_vec(from.as_slice());
            },
            FsStep::CopyContents { to, .. } => {
                subject.path = slice_to_vec(to.as_slice());
            },
            FsStep::SaveEntry { entry } => {
                subject.path = slice_to_vec(entry.app.path.as_slice());
            },
        }
        subject
    }
}

/// The views of a vector of steps, in order.
pub open spec fn step_views(steps: Seq<FsStep>) -> Seq<FsStepView> {
    Seq::new(steps.len(), |i: int| steps[i]@)
}

/// A directory found under an application's directory: one version, with
/// the entry read from it, or `None` where it is no directory or holds no
/// entry that can be read.
#[derive(Clone, Debug, PartialEq, Eq)]
pub struct Found {
    /// The path of what was found.
    pub path: Vec<u8>,
    /// The entry read from it.
    pub entry: Option<AppRegistryEntry>,
}

/// What was found.
pub struct FoundView {
    pub path: Seq<u8>,
    pub entry: Option<EntryView>,
}

impl View for Found {
    type V = FoundView;

    open spec fn view(&self) -> FoundView {
        FoundView {
            path: self.path@,
            entry: match self.entry {
                Some(entry) => Some(entry@),
                None => None,
            },
        }
    }
}

/// The views of what was found, in order.
pub open spec fn found_views(found: Seq<Found>) -> Seq<FoundView> {
    Seq::new(found.len(), |i: int| found[i]@)
}

/// What was found directly under the registry directory, and what was
/// found under that.
#[derive(Clone, Debug, PartialEq, Eq)]
pub struct AppDir {
    /// The file name.
    pub name: Vec<u8>,
    /// Whether it is a directory.
    pub is_dir: bool,
    /// What it holds.
    pub versions: Vec<Found>,
}

/// What was found directly under the registry directory.
pub struct AppDirView {
    pub name: Seq<u8>,
    pub is_dir: bool,
    pub versions: Seq<FoundView>,
}

impl View for AppDir {
    type V = AppDirView;

    open spec fn view(&self) -> AppDirView {
        AppDirView { name: self.name@, is_dir: self.is_dir, versions: found_views(self.versions@) }
    }
}

/// The views of a listing, in order.
pub open spec fn listing_views(listing: Seq<AppDir>) -> Seq<AppDirView> {
    Seq::new(listing.len(), |i: int| listing[i]@)
}

/// Whether `name` is the directory of an application: a directory that is
/// not the directory of active versions.
pub open spec fn names_app(name: Seq<u8>, is_dir: bool) -> bool {
    is_dir && name != "active".spec_bytes()
}

/// Everything found in the directories of applications, in order.
pub open spec fn versions_found(listing: Seq<AppDirView>) -> Seq<FoundView>
    decreases listing.len(),
{
    if listing.len() == 0 {
        Seq::empty()
    } else if names_app(listing.last().name, listing.last().is_dir) {
        versions_found(listing.drop_last()) + listing.last().versions
    } else {
        versions_found(listing.drop_last())
    }
}

/// What reading the manifest of an application gave.
#[derive(Clone, Debug, PartialEq, Eq)]
pub enum ManifestRead {
    /// The manifest could not be read.
    Unreadable,
    /// The manifest is not valid.
    Invalid,
    /// The manifest.
    Valid(AppMetadata),
}

/// What was found at the path an application is to be registered from.
#[derive(Clone, Debug, PartialEq, Eq)]
pub struct Source {
    /// The path.
    pub path: Vec<u8>,
    /// Whether the path exists.
    pub exists: bool,
    /// Whether the path is a directory.
    pub is_dir: bool,
    /// The manifest read from the directory.
    pub manifest: ManifestRead,
    /// Whether the directory holds the file named in the manifest.
    pub executable_exists: bool,
}

/// What to run to start an application.
#[derive(Clone, Debug, PartialEq, Eq)]
pub struct Launch {
    /// The UUID of the application, for `UUID_VARIABLE`.
    pub uuid: Vec<u8>,
    /// The version that is started.
    pub version: Vec<u8>,
    /// The path of the executable file.
    pub program: Vec<u8>,
    /// The arguments, in order.
    pub arguments: Vec<Vec<u8>>,
}

/// The directory of active versions under `apps_dir`.
pub open spec fn active_dir(apps_dir: Seq<u8>) -> Seq<u8> {
    apps_dir + "/active".spec_bytes()
}

/// The link to the active version of `uuid` under `apps_dir`.
pub open spec fn active_link(apps_dir: Seq<u8>, uuid: Seq<u8>) -> Seq<u8> {
    active_dir(apps_dir) + "/".spec_bytes() + uuid
}

/// The directory of version `version` of `uuid` under `apps_dir`.
pub open spec fn version_dir(apps_dir: Seq<u8>, uuid: Seq<u8>, version: Seq<u8>) -> Seq<u8> {
    apps_dir + "/".spec_bytes() + uuid + "/".spec_bytes() + version
}

/// The place where the link to the active version of `uuid` is made before
/// it is moved to where it belongs: in the application's own directory,
/// where no link of another application stands.
pub open spec fn staging_link(apps_dir: Seq<u8>, uuid: Seq<u8>) -> Seq<u8> {
    version_dir(apps_dir, uuid, ".active".spec_bytes())
}

/// The steps that make `target` the active version of `uuid`: a link to it
/// is made in the application's own directory, with anything stale out of
/// the way first, and is then moved over the link in use. Where a step
/// fails, the link in use is what it was.
pub open spec fn activation_steps(apps_dir: Seq<u8>, uuid: Seq<u8>, target: Seq<u8>) -> Seq<
    FsStepView,
> {
    seq![
        FsStepView::Unlink { link: staging_link(apps_dir, uuid) },
        FsStepView::Symlink { link: staging_link(apps_dir, uuid), target },
        FsStepView::Rename {
            from: staging_link(apps_dir, uuid),
            to: active_link(apps_dir, uuid),
        },
    ]
}

/// Whether `text` can be one part of a path: it is not empty, holds no `/`,
/// and is neither `.` nor `..`.
pub open spec fn is_path_part(text: Seq<u8>) -> bool {
    &&& text.len() > 0
    &&& forall|i: int| 0 <= i < text.len() ==> #[trigger] text[i] != 47
    &&& text != ".".spec_bytes()
    &&& text != "..".spec_bytes()
}

/// Whether `uuid` can name an application: it can be one part of a path and
/// is not the name of the directory of active versions.
pub open spec fn usable_uuid(uuid: Seq<u8>) -> bool {
    is_path_part(uuid) && uuid != "active".spec_bytes()
}

/// Whether `version` can name a version: it can be one part of a path and
/// is not the name under which links are made.
pub open spec fn usable_version(version: Seq<u8>) -> bool {
    is_path_part(version) && version != ".active".spec_bytes()
}

/// Whether `step` makes, removes or replaces what is at `path`.
pub open spec fn changes(step: FsStepView, path: Seq<u8>) -> bool {
    match step {
        FsStepView::CreateDirAll { path: made } => made == path,
        FsStepView::Remove { path: removed } => removed == path,
        FsStepView::Unlink { link } => link == path,
        FsStepView::Symlink { link, .. } => link == path,
        FsStepView::Rename { from, to } => from == path || to == path,
        FsStepView::CopyContents { to, .. } => to == path,
        FsStepView::SaveEntry { entry } => entry.path == path,
    }
}

/// The bytes of the texts that paths are put together from.
proof fn lemma_path_words()
    ensures
        "/".spec_bytes() == seq![47u8],
        "active".spec_bytes() == seq![97u8, 99u8, 116u8, 105u8, 118u8, 101u8],
        "/active".spec_bytes() == seq![47u8, 97u8, 99u8, 116u8, 105u8, 118u8, 101u8],
{
    reveal_strlit("/");
    reveal_strlit("active");
    reveal_strlit("/active");
    broadcast use vstd::string::group_string_axioms;
    assert("/".is_ascii());
    assert("active".is_ascii());
    assert("/active".is_ascii());
    assert("/".spec_bytes() =~= seq![47u8]);
    assert("active".spec_bytes() =~= seq![97u8, 99u8, 116u8, 105u8, 118u8, 101u8]);
    assert("/active".spec_bytes() =~= seq![47u8, 97u8, 99u8, 116u8, 105u8, 118u8, 101u8]);
}

/// What lies in the directory of one application is the active link of no
/// application.
pub proof fn lemma_app_paths_apart(apps_dir: Seq<u8>, uuid: Seq<u8>, rest: Seq<u8>, other: Seq<u8>)
    requires
        usable_uuid(uuid),
    ensures
        apps_dir + "/".spec_bytes() + uuid + "/".spec_bytes() + rest != active_link(
            apps_dir,
            other,
        ),
{
    lemma_path_words();
    let n = apps_dir.len() as int;
    let here = apps_dir + "/".spec_bytes() + uuid + "/".spec_bytes() + rest;
    let there = active_link(apps_dir, other);
    let word = "active".spec_bytes();
    assert(there =~= apps_dir + "/active".spec_bytes() + "/".spec_bytes() + other);
    assert(here.len() == n + 1 + uuid.len() + 1 + rest.len());
    assert(there.len() == n + 7 + 1 + other.len());
    assert(here[n + 1 + uuid.len()] == 47);
    assert(there[n + 7] == 47);
    assert forall|i: int| 0 <= i < uuid.len() implies here[n + 1 + i] == uuid[i] by {}
    assert forall|i: int| 0 <= i < 6 implies there[n + 1 + i] == word[i] by {}
    if here == there {
        if uuid.len() < 6 {
            assert(there[n + 1 + uuid.len()] == word[uuid.len() as int]);
        } else if uuid.len() > 6 {
            assert(here[n + 7] == uuid[6]);
        } else {
            assert forall|i: int| 0 <= i < 6 implies uuid[i] == word[i] by {
                assert(here[n + 1 + i] == there[n + 1 + i]);
            }
            assert(uuid =~= word);
        }
    }
}

/// The active links of different applications are different.
pub proof fn lemma_links_apart(apps_dir: Seq<u8>, uuid: Seq<u8>, other: Seq<u8>)
    requires
        uuid != other,
    ensures
        active_link(apps_dir, uuid) != active_link(apps_dir, other),
{
    let head = active_dir(apps_dir) + "/".spec_bytes();
    assert((head + uuid).skip(head.len() as int) =~= uuid);
    assert((head + other).skip(head.len() as int) =~= other);
}

/// Setting the active version of one application keeps to that
/// application: no step of it makes, removes or replaces the link to the
/// active version of another.
pub proof fn lemma_activation_keeps_to_its_uuid(
    apps_dir: Seq<u8>,
    uuid: Seq<u8>,
    other: Seq<u8>,
    target: Seq<u8>,
)
    requires
        uuid != other,
        usable_uuid(uuid),
    ensures
        forall|k: int|
            0 <= k < activation_steps(apps_dir, uuid, target).len() ==> !changes(
                #[trigger] activation_steps(apps_dir, uuid, target)[k],
                active_link(apps_dir, other),
            ),
{
    lemma_app_paths_apart(apps_dir, uuid, ".active".spec_bytes(), other);
    lemma_links_apart(apps_dir, uuid, other);
}

/// The path of the executable `name` in `app_dir`.
pub open spec fn executable_path(app_dir: Seq<u8>, name: Seq<u8>) -> Seq<u8> {
    app_dir + "/".spec_bytes() + name
}

/// The entries among what was found, in order.
pub open spec fn discovered(found: Seq<FoundView>) -> Seq<EntryView>
    decreases found.len(),
{
    if found.len() == 0 {
        Seq::empty()
    } else {
        match found.last().entry {
            Some(entry) => discovered(found.drop_last()).push(entry),
            None => discovered(found.drop_last()),
        }
    }
}

/// The steps that tidy up after a discovery, in the order of what was
/// found: the link of each active version is set to the directory it was
/// found in, and what holds no entry is removed.
pub open spec fn discovery_steps(apps_dir: Seq<u8>, found: Seq<FoundView>) -> Seq<FsStepView>
    decreases found.len(),
{
    if found.len() == 0 {
        Seq::empty()
    } else {
        let before = discovery_steps(apps_dir, found.drop_last());
        match found.last().entry {
            Some(entry) => if entry.active {
                before + activation_steps(apps_dir, entry.uuid, found.last().path)
            } else {
                before
            },
            None => before.push(FsStepView::Remove { path: found.last().path }),
        }
    }
}

/// What is discovered in two finds, one after the other, is what is
/// discovered in each.
pub proof fn lemma_discovery_adds_up(
    apps_dir: Seq<u8>,
    first: Seq<FoundView>,
    second: Seq<FoundView>,
)
    ensures
        discovered(first + second) == discovered(first) + discovered(second),
        discovery_steps(apps_dir, first + second) == discovery_steps(apps_dir, first)
            + discovery_steps(apps_dir, second),
    decreases second.len(),
{
    if second.len() == 0 {
        assert(first + second =~= first);
        assert(discovered(first) + discovered(second) =~= discovered(first));
        assert(discovery_steps(apps_dir, first) + discovery_steps(apps_dir, second)
            =~= discovery_steps(apps_dir, first));
    } else {
        lemma_discovery_adds_up(apps_dir, first, second.drop_last());
        assert((first + second).drop_last() =~= first + second.drop_last());
        assert((first + second).last() == second.last());
        assert(discovered(first + second) =~= discovered(first) + discovered(second));
        assert(discovery_steps(apps_dir, first + second) =~= discovery_steps(apps_dir, first)
            + discovery_steps(apps_dir, second));
    }
}

/// The position of the first active version of `uuid` at or after `at`.
pub open spec fn first_active(entries: Seq<EntryView>, uuid: Seq<u8>, at: int) -> Option<int>
    decreases entries.len() - at,
{
    if at < 0 || at >= entries.len() {
        None
    } else if entries[at].active && entries[at].uuid == uuid {
        Some(at)
    } else {
        first_active(entries, uuid, at + 1)
    }
}

/// The position of the first entry for version `version` of `uuid` at or
/// after `at`.
pub open spec fn first_version(
    entries: Seq<EntryView>,
    uuid: Seq<u8>,
    version: Seq<u8>,
    at: int,
) -> Option<int>
    decreases entries.len() - at,
{
    if at < 0 || at >= entries.len() {
        None
    } else if entries[at].uuid == uuid && entries[at].version == version {
        Some(at)
    } else {
        first_version(entries, uuid, version, at + 1)
    }
}

/// Why nothing can be registered from a source, whatever the UUID, if so.
/// The first complaint counts: the path is missing, it is no directory, the
/// manifest cannot be read, the manifest is not valid, the executable is
/// missing, the version cannot name a version.
pub open spec fn refusal(
    exists: bool,
    is_dir: bool,
    manifest: ManifestRead,
    executable_exists: bool,
) -> Option<AppError> {
    if !exists {
        Some(AppError::RegisterError { reason: RegisterFailure::SourceMissing })
    } else if !is_dir {
        Some(AppError::RegisterError { reason: RegisterFailure::SourceNotDirectory })
    } else if manifest is Unreadable {
        Some(AppError::IoError)
    } else if manifest is Invalid {
        Some(AppError::ParseError)
    } else if !executable_exists {
        Some(AppError::RegisterError { reason: RegisterFailure::ExecutableMissing })
    } else if manifest matches ManifestRead::Valid(metadata) && !usable_version(
        metadata.version@,
    ) {
        Some(AppError::RegisterError { reason: RegisterFailure::BadVersion })
    } else {
        None
    }
}

impl Source {
    /// Why nothing can be registered from this source, whatever the UUID,
    /// if so.
    pub open spec fn refusal(self) -> Option<AppError> {
        refusal(self.exists, self.is_dir, self.manifest, self.executable_exists)
    }

    /// Why this source cannot be registered under the UUID given, or under
    /// one that is drawn where none is given, if so. A UUID that is drawn is
    /// never at fault.
    pub open spec fn refusal_for(self, uuid: Option<Vec<u8>>) -> Option<AppError> {
        match uuid {
            Some(given) => self.refusal_under(given@),
            None => self.refusal(),
        }
    }

    /// Why this source cannot be registered under `uuid`, if so: what is
    /// wrong with the source comes first, a UUID that cannot name an
    /// application last.
    pub open spec fn refusal_under(self, uuid: Seq<u8>) -> Option<AppError> {
        if self.refusal() is Some {
            self.refusal()
        } else if !usable_uuid(uuid) {
            Some(AppError::RegisterError { reason: RegisterFailure::BadUuid })
        } else {
            None
        }
    }
}

/// The entry of a newly registered version: active, not running, its
/// executable in the version's directory.
pub open spec fn new_entry(
    apps_dir: Seq<u8>,
    uuid: Seq<u8>,
    name: Seq<u8>,
    version: Seq<u8>,
    author: Seq<u8>,
) -> EntryView {
    EntryView {
        uuid,
        name,
        version,
        author,
        pid: 0,
        path: executable_path(version_dir(apps_dir, uuid, version), name),
        active: true,
    }
}

/// The entries after `entry` has been registered. Where `replace` is set,
/// the first active version of the same UUID is active no longer.
pub open spec fn registered(entries: Seq<EntryView>, entry: EntryView, replace: bool) -> Seq<
    EntryView,
> {
    match first_active(entries, entry.uuid, 0) {
        Some(old) => if replace {
            entries.update(old, EntryView { active: false, ..entries[old] }).push(entry)
        } else {
            entries.push(entry)
        },
        None => entries.push(entry),
    }
}

/// The steps of a registration, in order: the version that is active no
/// longer is saved, the directory of the new version is made, the
/// application is copied into it, the new entry is saved, and the link of
/// the active version is set to it.
pub open spec fn registration_steps(
    entries: Seq<EntryView>,
    apps_dir: Seq<u8>,
    from: Seq<u8>,
    entry: EntryView,
    replace: bool,
) -> Seq<FsStepView> {
    let app_dir = version_dir(apps_dir, entry.uuid, entry.version);
    let install = seq![
        FsStepView::CreateDirAll { path: app_dir },
        FsStepView::CopyContents { from, to: app_dir },
        FsStepView::SaveEntry { entry },
    ] + activation_steps(apps_dir, entry.uuid, app_dir);
    match first_active(entries, entry.uuid, 0) {
        Some(old) => if replace {
            seq![
                FsStepView::SaveEntry { entry: EntryView { active: false, ..entries[old] } },
            ] + install
        } else {
            install
        },
        None => install,
    }
}

/// A registration that was entered in the registry: its steps are still to
/// be taken, and it can still be given up.
#[derive(Clone, Debug, PartialEq, Eq)]
pub struct Registration {
    /// The new entry.
    pub entry: AppRegistryEntry,
    /// The position of the version that was active under the UUID before.
    pub previous: Option<usize>,
    /// Whether that version was retired.
    pub retired: bool,
    /// The steps of the registration, in order.
    pub steps: Vec<FsStep>,
}

/// What a registration holds.
pub struct RegistrationView {
    pub entry: EntryView,
    pub previous: Option<int>,
    pub retired: bool,
    pub steps: Seq<FsStepView>,
}

impl View for Registration {
    type V = RegistrationView;

    open spec fn view(&self) -> RegistrationView {
        RegistrationView {
            entry: self.entry@,
            previous: match self.previous {
                Some(at) => Some(at as int),
                None => None,
            },
            retired: self.retired,
            steps: step_views(self.steps@),
        }
    }
}

/// The registration of `entry` in a registry that held `entries`.
pub open spec fn registration(
    entries: Seq<EntryView>,
    apps_dir: Seq<u8>,
    from: Seq<u8>,
    entry: EntryView,
    replace: bool,
) -> RegistrationView {
    RegistrationView {
        entry,
        previous: first_active(entries, entry.uuid, 0),
        retired: replace && first_active(entries, entry.uuid, 0) is Some,
        steps: registration_steps(entries, apps_dir, from, entry, replace),
    }
}

/// Whether `entries` are as the registration `r` left them: the new entry
/// is the last, and the version that was active before is where it was,
/// retired or not as `r` says.
pub open spec fn stands(entries: Seq<EntryView>, r: RegistrationView) -> bool {
    &&& entries.len() > 0
    &&& entries.last() == r.entry
    &&& (r.retired ==> r.previous is Some)
    &&& (r.previous matches Some(at) ==> 0 <= at < entries.len() - 1 && entries[at].active
        != r.retired)
}

/// The entries after the registration `r` has been given up: the new entry
/// is gone, and the version that the registration retired is active again.
/// Entries that are not as `r` left them stay as they are.
pub open spec fn abandoned(entries: Seq<EntryView>, r: RegistrationView) -> Seq<EntryView> {
    if !stands(entries, r) {
        entries
    } else if r.retired {
        entries.drop_last().update(
            r.previous->0,
            EntryView { active: true, ..entries[r.previous->0] },
        )
    } else {
        entries.drop_last()
    }
}

/// The steps that put the disk back after the registration `r` was given
/// up with `taken` of its steps taken, in order.
///
/// The link of the active version was moved only if every step was taken;
/// then it is set back to the version that was active before, or removed
/// where there was none. Otherwise only the link that was made ready in
/// the application's directory is removed. The directory of the new version
/// is removed if the
/// registration made it, as `dir_made` says. The version that was retired
/// is saved as active again.
pub open spec fn undo_steps(
    apps_dir: Seq<u8>,
    entries: Seq<EntryView>,
    r: RegistrationView,
    taken: nat,
    dir_made: bool,
) -> Seq<FsStepView> {
    if !stands(entries, r) {
        Seq::empty()
    } else {
        let uuid = r.entry.uuid;
        let relink = if taken < r.steps.len() {
            seq![FsStepView::Unlink { link: staging_link(apps_dir, uuid) }]
        } else {
            match r.previous {
                Some(at) => activation_steps(
                    apps_dir,
                    uuid,
                    version_dir(apps_dir, uuid, entries[at].version),
                ),
                None => seq![FsStepView::Unlink { link: active_link(apps_dir, uuid) }],
            }
        };
        let unmake = if dir_made {
            seq![FsStepView::Remove { path: version_dir(apps_dir, uuid, r.entry.version) }]
        } else {
            Seq::empty()
        };
        let resave = if r.retired {
            seq![
                FsStepView::SaveEntry {
                    entry: EntryView { active: true, ..entries[r.previous->0] },
                },
            ]
        } else {
            Seq::empty()
        };
        relink + unmake + resave
    }
}

/// Where `first_active` finds a version, it is an active version of the
/// UUID, at or after the position asked for.
pub proof fn lemma_first_active(entries: Seq<EntryView>, uuid: Seq<u8>, at: int)
    requires
        0 <= at,
    ensures
        first_active(entries, uuid, at) matches Some(k) ==> at <= k < entries.len()
            && entries[k].active && entries[k].uuid == uuid,
    decreases entries.len() - at,
{
    if at < entries.len() && !(entries[at].active && entries[at].uuid == uuid) {
        lemma_first_active(entries, uuid, at + 1);
    }
}

/// A registration that is given up leaves the registry as it was.
///
/// Whatever the registry held, and whether or not the registration retired
/// a version: after `register` and then `abandon`, the entries are those
/// before `register`, every one active or not as it was.
pub proof fn lemma_abandon_undoes_register(
    entries: Seq<EntryView>,
    apps_dir: Seq<u8>,
    from: Seq<u8>,
    entry: EntryView,
    replace: bool,
)
    ensures
        stands(
            registered(entries, entry, replace),
            registration(entries, apps_dir, from, entry, replace),
        ),
        abandoned(
            registered(entries, entry, replace),
            registration(entries, apps_dir, from, entry, replace),
        ) == entries,
{
    let after = registered(entries, entry, replace);
    let r = registration(entries, apps_dir, from, entry, replace);
    lemma_first_active(entries, entry.uuid, 0);
    match first_active(entries, entry.uuid, 0) {
        Some(old) => {
            if replace {
                let retired = entries.update(old, EntryView { active: false, ..entries[old] });
                assert(after == retired.push(entry));
                assert(after.drop_last() =~= retired);
                assert(abandoned(after, r) =~= entries);
            } else {
                assert(after.drop_last() =~= entries);
            }
        },
        None => {
            assert(after.drop_last() =~= entries);
        },
    }
}

/// Whether `path` lies in the directory of the application `uuid`.
pub open spec fn in_app_dir(apps_dir: Seq<u8>, uuid: Seq<u8>, path: Seq<u8>) -> bool {
    exists|rest: Seq<u8>| #[trigger]
        version_dir(apps_dir, uuid, rest) == path
}

/// The directories of different applications hold nothing in common.
pub proof fn lemma_app_dirs_apart(
    apps_dir: Seq<u8>,
    uuid: Seq<u8>,
    other: Seq<u8>,
    path: Seq<u8>,
)
    requires
        uuid != other,
        is_path_part(uuid),
        is_path_part(other),
    ensures
        !(in_app_dir(apps_dir, uuid, path) && in_app_dir(apps_dir, other, path)),
{
    lemma_path_words();
    if in_app_dir(apps_dir, uuid, path) && in_app_dir(apps_dir, other, path) {
        let rest = choose|rest: Seq<u8>| #[trigger] version_dir(apps_dir, uuid, rest) == path;
        let more = choose|more: Seq<u8>| #[trigger] version_dir(apps_dir, other, more) == path;
        let n = apps_dir.len() as int;
        let here = version_dir(apps_dir, uuid, rest);
        let there = version_dir(apps_dir, other, more);
        assert(here[n + 1 + uuid.len()] == 47);
        assert(there[n + 1 + other.len()] == 47);
        assert forall|i: int| 0 <= i < uuid.len() implies here[n + 1 + i] == uuid[i] by {}
        assert forall|i: int| 0 <= i < other.len() implies there[n + 1 + i] == other[i] by {}
        if uuid.len() < other.len() {
            assert(there[n + 1 + uuid.len()] == other[uuid.len() as int]);
        } else if other.len() < uuid.len() {
            assert(here[n + 1 + other.len()] == uuid[other.len() as int]);
        } else {
            assert forall|i: int| 0 <= i < uuid.len() implies uuid[i] == other[i] by {
                assert(here[n + 1 + i] == there[n + 1 + i]);
            }
            assert(uuid =~= other);
        }
    }
}

/// A registration stays in the directory of its application: whatever a
/// step of it makes, removes or replaces, but for the saving of the version
/// it retires, is the link to the active version of its UUID or lies in the
/// directory of its application.
pub proof fn lemma_registration_stays_in_its_directory(
    entries: Seq<EntryView>,
    apps_dir: Seq<u8>,
    from: Seq<u8>,
    uuid: Seq<u8>,
    name: Seq<u8>,
    version: Seq<u8>,
    author: Seq<u8>,
    replace: bool,
)
    ensures
        ({
            let entry = new_entry(apps_dir, uuid, name, version, author);
            let r = registration(entries, apps_dir, from, entry, replace);
            forall|k: int, path: Seq<u8>|
                0 <= k < r.steps.len() && !(r.retired && k == 0) && #[trigger] changes(
                    r.steps[k],
                    path,
                ) ==> path == active_link(apps_dir, uuid) || in_app_dir(apps_dir, uuid, path)
        }),
{
    let entry = new_entry(apps_dir, uuid, name, version, author);
    let r = registration(entries, apps_dir, from, entry, replace);
    let app_dir = version_dir(apps_dir, uuid, version);
    let inside = version + "/".spec_bytes() + name;
    assert(entry.path =~= version_dir(apps_dir, uuid, inside));
    assert(in_app_dir(apps_dir, uuid, version_dir(apps_dir, uuid, version)));
    assert(in_app_dir(apps_dir, uuid, version_dir(apps_dir, uuid, inside)));
    assert(in_app_dir(apps_dir, uuid, version_dir(apps_dir, uuid, ".active".spec_bytes())));
    let linking = activation_steps(apps_dir, uuid, app_dir);
    let install = seq![
        FsStepView::CreateDirAll { path: app_dir },
        FsStepView::CopyContents { from, to: app_dir },
        FsStepView::SaveEntry { entry },
    ] + linking;
    assert forall|k: int, path: Seq<u8>|
        0 <= k < install.len() && #[trigger] changes(install[k], path) implies path
        == active_link(apps_dir, uuid) || in_app_dir(apps_dir, uuid, path) by {
        if k >= 3 {
            assert(install[k] == linking[k - 3]);
        }
    }
    assert forall|k: int, path: Seq<u8>|
        0 <= k < r.steps.len() && !(r.retired && k == 0) && #[trigger] changes(
            r.steps[k],
            path,
        ) implies path == active_link(apps_dir, uuid) || in_app_dir(apps_dir, uuid, path) by {
        if r.retired {
            assert(r.steps[k] == install[k - 1]);
        } else {
            assert(r.steps =~= install);
        }
    }
}

/// A registration keeps to its application.
///
/// Registering a version under one UUID leaves every entry of another UUID
/// as it was, active or not, and no step of it, but the saving of the
/// version it retires, makes, removes or replaces the link to the active
/// version of another UUID.
pub proof fn lemma_registration_keeps_to_its_uuid(
    entries: Seq<EntryView>,
    apps_dir: Seq<u8>,
    from: Seq<u8>,
    uuid: Seq<u8>,
    name: Seq<u8>,
    version: Seq<u8>,
    author: Seq<u8>,
    replace: bool,
    other: Seq<u8>,
)
    requires
        uuid != other,
        usable_uuid(uuid),
    ensures
        ({
            let entry = new_entry(apps_dir, uuid, name, version, author);
            let after = registered(entries, entry, replace);
            let r = registration(entries, apps_dir, from, entry, replace);
            &&& after.len() == entries.len() + 1
            &&& forall|k: int|
                0 <= k < entries.len() && entries[k].uuid == other ==> #[trigger] after[k]
                    == entries[k]
            &&& forall|k: int|
                0 <= k < r.steps.len() && !(r.retired && k == 0) ==> !changes(
                    #[trigger] r.steps[k],
                    active_link(apps_dir, other),
                )
        }),
{
    let entry = new_entry(apps_dir, uuid, name, version, author);
    let after = registered(entries, entry, replace);
    let r = registration(entries, apps_dir, from, entry, replace);
    let app_dir = version_dir(apps_dir, uuid, version);
    let link = active_link(apps_dir, other);
    lemma_first_active(entries, uuid, 0);
    lemma_app_paths_apart(apps_dir, uuid, version, other);
    lemma_app_paths_apart(apps_dir, uuid, version + "/".spec_bytes() + name, other);
    assert(entry.path =~= apps_dir + "/".spec_bytes() + uuid + "/".spec_bytes() + (version
        + "/".spec_bytes() + name));
    lemma_activation_keeps_to_its_uuid(apps_dir, uuid, other, app_dir);
    let linking = activation_steps(apps_dir, uuid, app_dir);
    let install = seq![
        FsStepView::CreateDirAll { path: app_dir },
        FsStepView::CopyContents { from, to: app_dir },
        FsStepView::SaveEntry { entry },
    ] + linking;
    assert forall|k: int| 0 <= k < install.len() implies !changes(
        #[trigger] install[k],
        link,
    ) by {
        if k >= 3 {
            assert(install[k] == linking[k - 3]);
        }
    }
    assert forall|k: int| 0 <= k < r.steps.len() && !(r.retired && k == 0) implies !changes(
        #[trigger] r.steps[k],
        link,
    ) by {
        if r.retired {
            assert(r.steps[k] == install[k - 1]);
        } else {
            assert(r.steps =~= install);
        }
    }
}

/// A UUID that was drawn can name an application: it is one part of a
/// path, and not the name of the directory of active versions.
pub proof fn lemma_drawn_uuid_names_app(uuid: Seq<u8>)
    requires
        is_hyphenated_v4(uuid),
    ensures
        usable_uuid(uuid),
        names_app(uuid, true),
{
    reveal_strlit("active");
    reveal_strlit(".");
    reveal_strlit("..");
    broadcast use vstd::string::group_string_axioms;
    assert("active".is_ascii());
    assert(".".is_ascii());
    assert("..".is_ascii());
    assert("active".spec_bytes().len() == 6);
    assert(".".spec_bytes().len() == 1);
    assert("..".spec_bytes().len() == 2);
    assert forall|i: int| 0 <= i < uuid.len() implies #[trigger] uuid[i] != 47 by {
        if i == 8 || i == 13 || i == 18 || i == 23 {
            assert(uuid[i] == 45);
        } else {
            assert(is_hex(uuid[i]));
        }
    }
}

/// What was registered is found again.
///
/// A registry that is opened on a directory which holds one application,
/// with the one version that a registration entered, holds exactly what a
/// registry held that was empty before that registration: the entry of the
/// registration. This needs the UUID not to be the name of the directory of
/// active versions, which no UUID is that a registration took.
pub proof fn lemma_reopen_finds_registration(apps_dir: Seq<u8>, entry: EntryView)
    requires
        names_app(entry.uuid, true),
    ensures
        registered(Seq::empty(), entry, true) == seq![entry],
        registered(Seq::empty(), entry, false) == seq![entry],
        discovered(
            versions_found(
                seq![
                    AppDirView {
                        name: entry.uuid,
                        is_dir: true,
                        versions: seq![
                            FoundView {
                                path: version_dir(apps_dir, entry.uuid, entry.version),
                                entry: Some(entry),
                            },
                        ],
                    },
                ],
            ),
        ) == seq![entry],
{
    let found = seq![
        FoundView { path: version_dir(apps_dir, entry.uuid, entry.version), entry: Some(entry) },
    ];
    let listing = seq![AppDirView { name: entry.uuid, is_dir: true, versions: found }];
    assert(Seq::<EntryView>::empty().push(entry) =~= seq![entry]);
    assert(listing.drop_last() =~= Seq::<AppDirView>::empty());
    assert(versions_found(listing.drop_last()) =~= Seq::<FoundView>::empty());
    assert(versions_found(listing) =~= found);
    assert(found.drop_last() =~= Seq::<FoundView>::empty());
    assert(discovered(found.drop_last()) =~= Seq::<EntryView>::empty());
    assert(discovered(found) =~= seq![entry]);
}

/// What a launch holds.
pub struct LaunchView {
    pub uuid: Seq<u8>,
    pub version: Seq<u8>,
    pub program: Seq<u8>,
    pub arguments: Seq<Seq<u8>>,
}

impl View for Launch {
    type V = LaunchView;

    open spec fn view(&self) -> LaunchView {
        LaunchView {
            uuid: self.uuid@,
            version: self.version@,
            program: self.program@,
            arguments: texts(self.arguments@),
        }
    }
}

/// What came of running what the registry said to run.
#[derive(Clone, Copy, Debug, PartialEq, Eq, Structural)]
pub enum Spawned {
    /// The process was started.
    Started { pid: u32 },
    /// The executable file is gone; `dir_removed` tells whether the
    /// directory of the version could be removed.
    ExecutableMissing { dir_removed: bool },
    /// The process could not be started.
    Failed,
}

/// The failure to report where the executable of `launch` is gone and its
/// version was uninstalled, with the directory removed as `dir_removed`
/// says.
pub open spec fn missing_failure(
    entries: Seq<EntryView>,
    launch: LaunchView,
    dir_removed: bool,
) -> AppError {
    AppError::StartError {
        reason: StartFailure::ExecutableMissing {
            dir_failed: !dir_removed,
            not_found: first_version(entries, launch.uuid, launch.version, 0) is None,
        },
    }
}

/// What to run to start the active version of `uuid` at `run_level` with
/// the arguments `extra`, or `StartError` where no version is active.
pub open spec fn launch_of(
    entries: Seq<EntryView>,
    uuid: Seq<u8>,
    run_level: RunLevel,
    extra: Seq<Seq<u8>>,
) -> Result<LaunchView, AppError> {
    match first_active(entries, uuid, 0) {
        Some(at) => Ok(
            LaunchView {
                uuid,
                version: entries[at].version,
                program: entries[at].path,
                arguments: launch_arguments(run_level, extra),
            },
        ),
        None => Err(AppError::StartError { reason: StartFailure::NoActiveVersion }),
    }
}

/// The entries after version `version` of `uuid` has been taken out: the
/// first such entry is gone.
pub open spec fn uninstalled(entries: Seq<EntryView>, uuid: Seq<u8>, version: Seq<u8>) -> Seq<
    EntryView,
> {
    match first_version(entries, uuid, version, 0) {
        Some(at) => entries.remove(at),
        None => entries,
    }
}

/// How taking out version `version` of `uuid` ends, where removing its
/// directory went as `dir_removed` says.
pub open spec fn uninstall_result(
    entries: Seq<EntryView>,
    uuid: Seq<u8>,
    version: Seq<u8>,
    dir_removed: bool,
) -> Result<bool, AppError> {
    let not_found = first_version(entries, uuid, version, 0) is None;
    if dir_removed && !not_found {
        Ok(true)
    } else {
        Err(AppError::UninstallError { dir_failed: !dir_removed, not_found })
    }
}

/// The number of `false` in `started`.
pub open spec fn not_started(started: Seq<bool>) -> nat
    decreases started.len(),
{
    if started.len() == 0 {
        0
    } else if started.last() {
        not_started(started.drop_last())
    } else {
        not_started(started.drop_last()) + 1
    }
}

/// The arguments an application is started with: `-r`, the run level, and
/// then `extra`.
pub open spec fn launch_arguments(run_level: RunLevel, extra: Seq<Seq<u8>>) -> Seq<Seq<u8>> {
    seq!["-r".spec_bytes(), run_level.name()] + extra
}

/// The byte sequences held by a vector of byte vectors.
pub open spec fn texts(items: Seq<Vec<u8>>) -> Seq<Seq<u8>> {
    Seq::new(items.len(), |i: int| items[i]@)
}

/// The byte sequences held by an optional vector of byte vectors; none
/// where there is no vector.
pub open spec fn optional_texts(items: Option<Vec<Vec<u8>>>) -> Seq<Seq<u8>> {
    match items {
        Some(items) => texts(items@),
        None => Seq::empty(),
    }
}

/// Whether `text` has the form of a random UUID written out with hyphens,
/// as in `67e55044-10b1-426f-9247-bb680e5fe0c8`: thirty-six bytes, hyphens
/// after the eighth, twelfth, sixteenth and twentieth digit, lower-case
/// hexadecimal digits elsewhere, and `4` for the version.
pub open spec fn is_hyphenated_v4(text: Seq<u8>) -> bool {
    &&& text.len() == 36
    &&& forall|i: int|
        0 <= i < 36 ==> if i == 8 || i == 13 || i == 18 || i == 23 {
            #[trigger] text[i] == 45
        } else {
            is_hex(text[i])
        }
    &&& text[14] == 52
}

/// Calls `uuid::Uuid::new_v4` and writes the UUID out in its hyphenated
/// form. The UUID is drawn at random; what is claimed is its form, which
/// the crate gives to every UUID it writes out this way, and the version
/// digit, which `new_v4` sets. Neither is proved here.
#[verifier::external_body]
fn new_uuid() -> (text: Vec<u8>)
    ensures
        is_hyphenated_v4(text@),
{
    uuid::Uuid::new_v4().hyphenated().to_string().into_bytes()
}

/// `left` and `right` with a `/` between them.
fn joined(left: &Vec<u8>, right: &Vec<u8>) -> (path: Vec<u8>)
    ensures
        path@ == left@ + "/".spec_bytes() + right@,
{
    let mut path = slice_to_vec(left.as_slice());
    let slash = "/".as_bytes();
    let slash_bytes = slice_to_vec(slash);
    append_bytes(&mut path, &slash_bytes);
    append_bytes(&mut path, right);
    path
}

/// Whether `text` can be one part of a path.
pub fn is_part_of_path(text: &[u8]) -> (ok: bool)
    ensures
        ok == is_path_part(text@),
{
    if text.len() == 0 || same_bytes(text, ".".as_bytes()) || same_bytes(text, "..".as_bytes()) {
        return false;
    }
    let mut i: usize = 0;
    while i < text.len()
        invariant
            i <= text@.len(),
            forall|k: int| 0 <= k < i ==> #[trigger] text@[k] != 47,
        decreases text@.len() - i,
    {
        if text[i] == 47 {
            return false;
        }
        i = i + 1;
    }
    true
}

/// Whether `uuid` can name an application.
pub fn is_usable_uuid(uuid: &[u8]) -> (ok: bool)
    ensures
        ok == usable_uuid(uuid@),
{
    is_part_of_path(uuid) && !same_bytes(uuid, "active".as_bytes())
}

/// Whether `version` can name a version.
pub fn is_usable_version(version: &[u8]) -> (ok: bool)
    ensures
        ok == usable_version(version@),
{
    is_part_of_path(version) && !same_bytes(version, ".active".as_bytes())
}

/// Whether two entries hold the same.
pub fn same_entry(a: &AppRegistryEntry, b: &AppRegistryEntry) -> (same: bool)
    ensures
        same == (a@ == b@),
{
    same_bytes(a.app.uuid.as_slice(), b.app.uuid.as_slice()) && same_bytes(
        a.app.metadata.name.as_slice(),
        b.app.metadata.name.as_slice(),
    ) && same_bytes(a.app.metadata.version.as_slice(), b.app.metadata.version.as_slice())
        && same_bytes(a.app.metadata.author.as_slice(), b.app.metadata.author.as_slice())
        && a.app.pid == b.app.pid && same_bytes(a.app.path.as_slice(), b.app.path.as_slice())
        && a.active_version == b.active_version
}

impl AppRegistryEntry {
    /// A copy of the entry.
    pub fn duplicate(&self) -> (copy: AppRegistryEntry)
        ensures
            copy@ == self@,
    {
        AppRegistryEntry {
            app: App {
                uuid: slice_to_vec(self.app.uuid.as_slice()),
                metadata: AppMetadata {
                    name: slice_to_vec(self.app.metadata.name.as_slice()),
                    version: slice_to_vec(self.app.metadata.version.as_slice()),
                    author: slice_to_vec(self.app.metadata.author.as_slice()),
                },
                pid: self.app.pid,
                path: slice_to_vec(self.app.path.as_slice()),
            },
            active_version: self.active_version,
        }
    }
}

/// Whether `name` is the directory of an application: a directory that is
/// not the directory of active versions.
pub fn is_app_dir(name: &[u8], is_dir: bool) -> (app_dir: bool)
    ensures
        app_dir == names_app(name@, is_dir),
{
    if !is_dir {
        return false;
    }
    let name = slice_to_vec(name);
    let active = slice_to_vec("active".as_bytes());
    !same_bytes(&name, &active)
}

/// The registry of installed applications.
#[derive(Clone, Debug, PartialEq, Eq)]
pub struct AppRegistry {
    /// The versions installed, in the order they were found or registered.
    pub entries: Vec<AppRegistryEntry>,
    /// The root directory that the registry manages.
    pub apps_dir: Vec<u8>,
}

impl AppRegistry {
    /// A registry at `apps_dir` with the entries found in the directories of
    /// applications in `listing`, and the steps that tidy the registry
    /// directory up: the directory of active versions is made, then the link
    /// of each active version is set and what holds no entry is removed.
    pub fn new_from_dir(apps_dir: &str, listing: Vec<AppDir>) -> (made: (AppRegistry, Vec<FsStep>))
        ensures
            made.0.apps_dir@ == apps_dir.spec_bytes(),
            entry_views(made.0.entries@) == discovered(versions_found(listing_views(listing@))),
            step_views(made.1@) == seq![
                FsStepView::CreateDirAll { path: active_dir(apps_dir.spec_bytes()) },
            ] + discovery_steps(apps_dir.spec_bytes(), versions_found(listing_views(listing@))),
    {
        let mut registry = AppRegistry {
            entries: Vec::new(),
            apps_dir: slice_to_vec(apps_dir.as_bytes()),
        };
        let mut steps: Vec<FsStep> = Vec::new();
        steps.push(FsStep::CreateDirAll { path: registry.active_dir() });
        let ghost first = step_views(steps@);
        assert(first =~= seq![
            FsStepView::CreateDirAll { path: active_dir(apps_dir.spec_bytes()) },
        ]);
        let (entries, mut tidy) = registry.discover_apps(listing);
        let ghost tail = step_views(tidy@);
        steps.append(&mut tidy);
        assert(step_views(steps@) =~= first + tail);
        registry.entries = entries;
        (registry, steps)
    }

    /// A registry at `K_APPS_DIR`.
    pub fn new(listing: Vec<AppDir>) -> (made: (AppRegistry, Vec<FsStep>))
        ensures
            made.0.apps_dir@ == K_APPS_DIR.spec_bytes(),
            entry_views(made.0.entries@) == discovered(versions_found(listing_views(listing@))),
            step_views(made.1@) == seq![
                FsStepView::CreateDirAll { path: active_dir(K_APPS_DIR.spec_bytes()) },
            ] + discovery_steps(K_APPS_DIR.spec_bytes(), versions_found(listing_views(listing@))),
    {
        AppRegistry::new_from_dir(K_APPS_DIR, listing)
    }

    /// The entries found in the directories of applications in `listing`,
    /// and the steps that tidy up after. What is no directory, and the
    /// directory of active versions, is passed over.
    pub fn discover_apps(&self, listing: Vec<AppDir>) -> (made: (
        Vec<AppRegistryEntry>,
        Vec<FsStep>,
    ))
        ensures
            entry_views(made.0@) == discovered(versions_found(listing_views(listing@))),
            step_views(made.1@) == discovery_steps(
                self.apps_dir@,
                versions_found(listing_views(listing@)),
            ),
    {
        let ghost all = listing_views(listing@);
        let mut entries: Vec<AppRegistryEntry> = Vec::new();
        let mut steps: Vec<FsStep> = Vec::new();
        let mut stack = reversed(listing);
        let ghost mut done: int = 0;
        assert(all.take(0) =~= Seq::<AppDirView>::empty());
        assert(entry_views(entries@) =~= discovered(versions_found(all.take(0))));
        assert(step_views(steps@) =~= discovery_steps(self.apps_dir@, versions_found(all.take(0))));
        while stack.len() > 0
            invariant
                0 <= done <= all.len(),
                stack@.len() == all.len() - done,
                forall|j: int|
                    0 <= j < stack@.len() ==> (#[trigger] stack@[j])@ == all[all.len() - 1 - j],
                entry_views(entries@) == discovered(versions_found(all.take(done))),
                step_views(steps@) == discovery_steps(
                    self.apps_dir@,
                    versions_found(all.take(done)),
                ),
            decreases stack@.len(),
        {
            let ghost old_entries = entry_views(entries@);
            let ghost old_steps = step_views(steps@);
            let next = match stack.pop() {
                Some(next) => next,
                None => AppDir { name: Vec::new(), is_dir: false, versions: Vec::new() },
            };
            proof {
                assert(next@ == all[done]);
                assert(all.take(done + 1).drop_last() =~= all.take(done));
                assert(all.take(done + 1).last() == all[done]);
                lemma_discovery_adds_up(
                    self.apps_dir@,
                    versions_found(all.take(done)),
                    next@.versions,
                );
            }
            if is_app_dir(next.name.as_slice(), next.is_dir) {
                let (mut more, mut tidy) = self.discover_versions(next.versions);
                let ghost more_views = entry_views(more@);
                let ghost tidy_views = step_views(tidy@);
                entries.append(&mut more);
                steps.append(&mut tidy);
                assert(entry_views(entries@) =~= old_entries + more_views);
                assert(step_views(steps@) =~= old_steps + tidy_views);
            }
            proof {
                done = done + 1;
            }
        }
        assert(all.take(done) =~= all);
        (entries, steps)
    }

    /// The directory of active versions.
    pub fn active_dir(&self) -> (path: Vec<u8>)
        ensures
            path@ == active_dir(self.apps_dir@),
    {
        let mut path = slice_to_vec(self.apps_dir.as_slice());
        let tail = slice_to_vec("/active".as_bytes());
        append_bytes(&mut path, &tail);
        path
    }

    /// The directory of version `version` of `uuid`.
    pub fn version_dir(&self, uuid: &Vec<u8>, version: &Vec<u8>) -> (path: Vec<u8>)
        ensures
            path@ == version_dir(self.apps_dir@, uuid@, version@),
    {
        let app = joined(&self.apps_dir, uuid);
        joined(&app, version)
    }

    /// The entries among `found`, and the steps that tidy up after: the
    /// link of each active version is set to the directory it was found
    /// in, and what holds no entry is removed.
    pub fn discover_versions(&self, found: Vec<Found>) -> (made: (
        Vec<AppRegistryEntry>,
        Vec<FsStep>,
    ))
        ensures
            entry_views(made.0@) == discovered(found_views(found@)),
            step_views(made.1@) == discovery_steps(self.apps_dir@, found_views(found@)),
    {
        let ghost all = found_views(found@);
        let mut entries: Vec<AppRegistryEntry> = Vec::new();
        let mut steps: Vec<FsStep> = Vec::new();
        let mut stack = reversed(found);
        let ghost mut done: int = 0;
        assert(all.take(0) =~= Seq::<FoundView>::empty());
        assert(entry_views(entries@) =~= discovered(all.take(0)));
        assert(step_views(steps@) =~= discovery_steps(self.apps_dir@, all.take(0)));
        while stack.len() > 0
            invariant
                0 <= done <= all.len(),
                stack@.len() == all.len() - done,
                forall|j: int|
                    0 <= j < stack@.len() ==> (#[trigger] stack@[j])@ == all[all.len() - 1 - j],
                entry_views(entries@) == discovered(all.take(done)),
                step_views(steps@) == discovery_steps(self.apps_dir@, all.take(done)),
            decreases stack@.len(),
        {
            let ghost old_entries = entry_views(entries@);
            let ghost old_steps = step_views(steps@);
            let next = match stack.pop() {
                Some(next) => next,
                None => Found { path: Vec::new(), entry: None },
            };
            proof {
                assert(next@ == all[done]);
                assert(all.take(done + 1).drop_last() =~= all.take(done));
                assert(all.take(done + 1).last() == all[done]);
            }
            match next.entry {
                Some(entry) => {
                    if entry.active_version {
                        let mut link = self.set_active(&entry.app.uuid, &next.path);
                        let ghost link_views = step_views(link@);
                        steps.append(&mut link);
                        assert(step_views(steps@) =~= old_steps + link_views);
                    }
                    entries.push(entry);
                },
                None => {
                    steps.push(FsStep::Remove { path: next.path });
                },
            }
            proof {
                done = done + 1;
                assert(entry_views(entries@) =~= discovered(all.take(done)));
                assert(step_views(steps@) =~= discovery_steps(self.apps_dir@, all.take(done)));
            }
        }
        assert(all.take(done) =~= all);
        (entries, steps)
    }

    /// The link to the active version of `uuid`.
    pub fn active_link(&self, uuid: &Vec<u8>) -> (path: Vec<u8>)
        ensures
            path@ == active_link(self.apps_dir@, uuid@),
    {
        let dir = self.active_dir();
        joined(&dir, uuid)
    }

    /// The place where the link to the active version of `uuid` is made
    /// before it is moved to where it belongs.
    pub fn staging_link(&self, uuid: &Vec<u8>) -> (path: Vec<u8>)
        ensures
            path@ == staging_link(self.apps_dir@, uuid@),
    {
        let name = slice_to_vec(".active".as_bytes());
        self.version_dir(uuid, &name)
    }

    /// The steps that make `app_dir` the active version of `uuid`, in
    /// order. Where one of them fails, the link in use is what it was.
    pub fn set_active(&self, uuid: &Vec<u8>, app_dir: &Vec<u8>) -> (steps: Vec<FsStep>)
        ensures
            step_views(steps@) == activation_steps(self.apps_dir@, uuid@, app_dir@),
    {
        let link = self.active_link(uuid);
        let staging = self.staging_link(uuid);
        let mut steps: Vec<FsStep> = Vec::new();
        steps.push(FsStep::Unlink { link: slice_to_vec(staging.as_slice()) });
        steps.push(
            FsStep::Symlink {
                link: slice_to_vec(staging.as_slice()),
                target: slice_to_vec(app_dir.as_slice()),
            },
        );
        steps.push(FsStep::Rename { from: staging, to: link });
        assert(step_views(steps@) =~= activation_steps(self.apps_dir@, uuid@, app_dir@));
        steps
    }

    /// The position of the first active version of `uuid`.
    fn find_active(&self, uuid: &Vec<u8>) -> (at: Option<usize>)
        ensures
            match at {
                Some(k) => first_active(entry_views(self.entries@), uuid@, 0) == Some(k as int)
                    && k < self.entries@.len(),
                None => first_active(entry_views(self.entries@), uuid@, 0) is None,
            },
    {
        let mut k: usize = 0;
        while k < self.entries.len()
            invariant
                k <= self.entries@.len(),
                first_active(entry_views(self.entries@), uuid@, 0) == first_active(
                    entry_views(self.entries@),
                    uuid@,
                    k as int,
                ),
            decreases self.entries@.len() - k,
        {
            if self.entries[k].active_version && same_bytes(&self.entries[k].app.uuid, uuid) {
                return Some(k);
            }
            k = k + 1;
        }
        None
    }

    /// The position of the first entry for version `version` of `uuid`.
    fn find_version(&self, uuid: &Vec<u8>, version: &Vec<u8>) -> (at: Option<usize>)
        ensures
            match at {
                Some(k) => first_version(entry_views(self.entries@), uuid@, version@, 0) == Some(
                    k as int,
                ) && k < self.entries@.len(),
                None => first_version(entry_views(self.entries@), uuid@, version@, 0) is None,
            },
    {
        let mut k: usize = 0;
        while k < self.entries.len()
            invariant
                k <= self.entries@.len(),
                first_version(entry_views(self.entries@), uuid@, version@, 0) == first_version(
                    entry_views(self.entries@),
                    uuid@,
                    version@,
                    k as int,
                ),
            decreases self.entries@.len() - k,
        {
            if same_bytes(&self.entries[k].app.uuid, uuid) && same_bytes(
                &self.entries[k].app.metadata.version,
                version,
            ) {
                return Some(k);
            }
            k = k + 1;
        }
        None
    }

    /// Registers the application found at `source` under `uuid`, or under a
    /// UUID drawn at random where none is given.
    ///
    /// A source that cannot be registered is refused as `refusal` says, and
    /// nothing changes. Otherwise the new version is entered as the active
    /// one, and where a UUID was given, the version that was active under it
    /// is active no longer. The result holds the new entry and the steps to
    /// take. Where a step fails, `abandon` undoes the registration.
    pub fn register(&mut self, source: Source, uuid: Option<Vec<u8>>) -> (done: Result<
        Registration,
        AppError,
    >)
        ensures
            final(self).apps_dir == old(self).apps_dir,
            match done {
                Ok(r) => {
                    &&& source.refusal_for(uuid) is None
                    &&& source.manifest matches ManifestRead::Valid(metadata)
                    &&& (uuid matches Some(given) ==> r@.entry.uuid == given@)
                    &&& (uuid is None ==> is_hyphenated_v4(r@.entry.uuid))
                    &&& usable_uuid(r@.entry.uuid)
                    &&& r@.entry == new_entry(
                        old(self).apps_dir@,
                        r@.entry.uuid,
                        metadata.name@,
                        metadata.version@,
                        metadata.author@,
                    )
                    &&& r@ == registration(
                        entry_views(old(self).entries@),
                        old(self).apps_dir@,
                        source.path@,
                        r@.entry,
                        uuid is Some,
                    )
                    &&& entry_views(final(self).entries@) == registered(
                        entry_views(old(self).entries@),
                        r@.entry,
                        uuid is Some,
                    )
                },
                Err(error) => {
                    &&& source.refusal_for(uuid) == Some(error)
                    &&& final(self).entries == old(self).entries
                },
            },
    {
        match uuid {
            Some(given) => self.register_as(source, given, true),
            None => {
                let drawn = new_uuid();
                proof {
                    lemma_drawn_uuid_names_app(drawn@);
                }
                self.register_as(source, drawn, false)
            },
        }
    }

    /// Registers the application found at `source` under `uuid`. Where
    /// `replace` is set, the version that was active under `uuid` is active
    /// no longer.
    pub fn register_as(&mut self, source: Source, uuid: Vec<u8>, replace: bool) -> (done: Result<
        Registration,
        AppError,
    >)
        ensures
            final(self).apps_dir == old(self).apps_dir,
            match done {
                Ok(r) => {
                    &&& source.refusal_under(uuid@) is None
                    &&& source.manifest matches ManifestRead::Valid(metadata)
                    &&& r@.entry == new_entry(
                        old(self).apps_dir@,
                        uuid@,
                        metadata.name@,
                        metadata.version@,
                        metadata.author@,
                    )
                    &&& r@ == registration(
                        entry_views(old(self).entries@),
                        old(self).apps_dir@,
                        source.path@,
                        r@.entry,
                        replace,
                    )
                    &&& entry_views(final(self).entries@) == registered(
                        entry_views(old(self).entries@),
                        r@.entry,
                        replace,
                    )
                },
                Err(error) => {
                    &&& source.refusal_under(uuid@) == Some(error)
                    &&& final(self).entries == old(self).entries
                },
            },
    {
        if !source.exists {
            return Err(AppError::RegisterError { reason: RegisterFailure::SourceMissing });
        }
        if !source.is_dir {
            return Err(AppError::RegisterError { reason: RegisterFailure::SourceNotDirectory });
        }
        let metadata = match source.manifest {
            ManifestRead::Unreadable => {
                return Err(AppError::IoError);
            },
            ManifestRead::Invalid => {
                return Err(AppError::ParseError);
            },
            ManifestRead::Valid(metadata) => metadata,
        };
        if !source.executable_exists {
            return Err(AppError::RegisterError { reason: RegisterFailure::ExecutableMissing });
        }
        if !is_usable_version(metadata.version.as_slice()) {
            return Err(AppError::RegisterError { reason: RegisterFailure::BadVersion });
        }
        if !is_usable_uuid(uuid.as_slice()) {
            return Err(AppError::RegisterError { reason: RegisterFailure::BadUuid });
        }
        let ghost before = entry_views(self.entries@);
        let app_dir = self.version_dir(&uuid, &metadata.version);
        let path = joined(&app_dir, &metadata.name);
        let mut activate = self.set_active(&uuid, &app_dir);
        let ghost activate_views = step_views(activate@);
        let previous = self.find_active(&uuid);
        let mut steps: Vec<FsStep> = Vec::new();
        let mut retired = false;
        if replace {
            match previous {
                Some(old) => {
                    let mut inactive = self.entries[old].duplicate();
                    inactive.active_version = false;
                    steps.push(FsStep::SaveEntry { entry: inactive.duplicate() });
                    self.entries.set(old, inactive);
                    retired = true;
                    assert(entry_views(self.entries@) =~= before.update(
                        old as int,
                        EntryView { active: false, ..before[old as int] },
                    ));
                },
                None => {},
            }
        }
        let ghost middle = entry_views(self.entries@);
        let ghost first_steps = step_views(steps@);
        let entry = AppRegistryEntry {
            app: App { uuid, metadata, pid: 0, path },
            active_version: true,
        };
        steps.push(FsStep::CreateDirAll { path: slice_to_vec(app_dir.as_slice()) });
        steps.push(FsStep::CopyContents { from: source.path, to: app_dir });
        steps.push(FsStep::SaveEntry { entry: entry.duplicate() });
        let ghost install = step_views(steps@);
        steps.append(&mut activate);
        self.entries.push(entry.duplicate());
        proof {
            assert(entry_views(self.entries@) =~= middle.push(entry@));
            assert(step_views(steps@) =~= install + activate_views);
            assert(step_views(steps@) =~= registration_steps(
                before,
                self.apps_dir@,
                source.path@,
                entry@,
                replace,
            ));
        }
        Ok(Registration { entry, previous, retired, steps })
    }

    /// Takes version `version` of `uuid` out of the registry, after its
    /// directory was to be removed; `dir_removed` tells whether that went
    /// well. The first entry for the version is taken out in either case.
    ///
    /// Fails with `UninstallError` where the directory was not removed or
    /// the version was not in the registry.
    pub fn uninstall(&mut self, uuid: &Vec<u8>, version: &Vec<u8>, dir_removed: bool) -> (done:
        Result<bool, AppError>)
        ensures
            final(self).apps_dir == old(self).apps_dir,
            entry_views(final(self).entries@) == uninstalled(
                entry_views(old(self).entries@),
                uuid@,
                version@,
            ),
            done == uninstall_result(
                entry_views(old(self).entries@),
                uuid@,
                version@,
                dir_removed,
            ),
    {
        let ghost before = entry_views(self.entries@);
        let not_found = match self.find_version(uuid, version) {
            Some(at) => {
                let _ = self.entries.remove(at);
                assert(entry_views(self.entries@) =~= before.remove(at as int));
                false
            },
            None => true,
        };
        if dir_removed && !not_found {
            Ok(true)
        } else {
            Err(AppError::UninstallError { dir_failed: !dir_removed, not_found })
        }
    }

    /// Gives up `registration`, of whose steps the first `taken` were taken:
    /// the registry is put back as it was before the registration, and the
    /// result is the steps that put the disk back, in order. `dir_made` says
    /// whether the registration made the directory of the new version.
    ///
    /// A registry that is no longer as the registration left it stays as it
    /// is, and no step is handed out.
    pub fn abandon(&mut self, registration: &Registration, taken: usize, dir_made: bool) -> (undo:
        Vec<FsStep>)
        ensures
            final(self).apps_dir == old(self).apps_dir,
            entry_views(final(self).entries@) == abandoned(
                entry_views(old(self).entries@),
                registration@,
            ),
            step_views(undo@) == undo_steps(
                old(self).apps_dir@,
                entry_views(old(self).entries@),
                registration@,
                taken as nat,
                dir_made,
            ),
    {
        let ghost before = entry_views(self.entries@);
        let mut undo: Vec<FsStep> = Vec::new();
        let len = self.entries.len();
        if len == 0 || !same_entry(&self.entries[len - 1], &registration.entry) {
            assert(step_views(undo@) =~= Seq::<FsStepView>::empty());
            return undo;
        }
        let in_place = match registration.previous {
            Some(at) => at < len - 1 && self.entries[at].active_version != registration.retired,
            None => !registration.retired,
        };
        if !in_place {
            assert(step_views(undo@) =~= Seq::<FsStepView>::empty());
            return undo;
        }
        assert(stands(before, registration@));
        let uuid = &registration.entry.app.uuid;
        if taken < registration.steps.len() {
            undo.push(FsStep::Unlink { link: self.staging_link(uuid) });
        } else {
            match registration.previous {
                Some(at) => {
                    let target = self.version_dir(uuid, &self.entries[at].app.metadata.version);
                    undo = self.set_active(uuid, &target);
                },
                None => {
                    undo.push(FsStep::Unlink { link: self.active_link(uuid) });
                },
            }
        }
        let ghost relink = step_views(undo@);
        if dir_made {
            let dir = self.version_dir(uuid, &registration.entry.app.metadata.version);
            undo.push(FsStep::Remove { path: dir });
        }
        let ghost unmade = step_views(undo@);
        let _ = self.entries.pop();
        assert(entry_views(self.entries@) =~= before.drop_last());
        if registration.retired {
            match registration.previous {
                Some(at) => {
                    let mut active = self.entries[at].duplicate();
                    active.active_version = true;
                    undo.push(FsStep::SaveEntry { entry: active.duplicate() });
                    self.entries.set(at, active);
                    assert(entry_views(self.entries@) =~= before.drop_last().update(
                        at as int,
                        EntryView { active: true, ..before[at as int] },
                    ));
                },
                None => {},
            }
        }
        assert(step_views(undo@) =~= undo_steps(
            self.apps_dir@,
            before,
            registration@,
            taken as nat,
            dir_made,
        ));
        undo
    }

    /// What to run to start the active version of `uuid` at `run_level`:
    /// its executable with the arguments `-r`, the run level, and then
    /// `args`. Fails with `StartError` where no active version is
    /// registered under `uuid`.
    pub fn start_app(
        &self,
        uuid: &Vec<u8>,
        run_level: RunLevel,
        args: Option<Vec<Vec<u8>>>,
    ) -> (launch: Result<Launch, AppError>)
        ensures
            match launch {
                Ok(launch) => launch_of(
                    entry_views(self.entries@),
                    uuid@,
                    run_level,
                    optional_texts(args),
                ) == Ok::<LaunchView, AppError>(launch@),
                Err(error) => launch_of(
                    entry_views(self.entries@),
                    uuid@,
                    run_level,
                    optional_texts(args),
                ) == Err::<LaunchView, AppError>(error),
            },
    {
        match self.find_active(uuid) {
            Some(at) => {
                let entry = &self.entries[at];
                let mut arguments: Vec<Vec<u8>> = Vec::new();
                arguments.push(slice_to_vec("-r".as_bytes()));
                arguments.push(slice_to_vec(run_level.label().as_bytes()));
                let ghost head = texts(arguments@);
                let ghost extra = optional_texts(args);
                match args {
                    Some(more) => {
                        let mut more = more;
                        arguments.append(&mut more);
                    },
                    None => {},
                }
                assert(texts(arguments@) =~= launch_arguments(run_level, extra));
                Ok(
                    Launch {
                        uuid: slice_to_vec(uuid.as_slice()),
                        version: slice_to_vec(entry.app.metadata.version.as_slice()),
                        program: slice_to_vec(entry.app.path.as_slice()),
                        arguments,
                    },
                )
            },
            None => Err(AppError::StartError { reason: StartFailure::NoActiveVersion }),
        }
    }

    /// What to run at boot for `name`, a name found in the directory of
    /// active versions: the active version of the UUID `name`, at the boot
    /// run level, with no arguments of its own.
    pub fn boot_launch(&self, name: &Vec<u8>) -> (launch: Result<Launch, AppError>)
        ensures
            match launch {
                Ok(launch) => launch_of(
                    entry_views(self.entries@),
                    name@,
                    RunLevel::OnBoot,
                    Seq::empty(),
                ) == Ok::<LaunchView, AppError>(launch@),
                Err(error) => launch_of(
                    entry_views(self.entries@),
                    name@,
                    RunLevel::OnBoot,
                    Seq::empty(),
                ) == Err::<LaunchView, AppError>(error),
            },
    {
        self.start_app(name, RunLevel::OnBoot, None)
    }

    /// The executable of `launch` is gone: its version is taken out of the
    /// registry, as `uninstall` does, and the failure to report is
    /// `StartError`, which tells what of taking it out went wrong.
    pub fn executable_missing(&mut self, launch: &Launch, dir_removed: bool) -> (error: AppError)
        ensures
            final(self).apps_dir == old(self).apps_dir,
            entry_views(final(self).entries@) == uninstalled(
                entry_views(old(self).entries@),
                launch.uuid@,
                launch.version@,
            ),
            error == missing_failure(entry_views(old(self).entries@), launch@, dir_removed),
    {
        match self.uninstall(&launch.uuid, &launch.version, dir_removed) {
            Ok(_) => AppError::StartError {
                reason: StartFailure::ExecutableMissing { dir_failed: false, not_found: false },
            },
            Err(AppError::UninstallError { dir_failed, not_found }) => AppError::StartError {
                reason: StartFailure::ExecutableMissing { dir_failed, not_found },
            },
            Err(_) => AppError::StartError {
                reason: StartFailure::ExecutableMissing { dir_failed: true, not_found: true },
            },
        }
    }

    /// What became of `launch`, as `outcome` tells: the process id where
    /// the process was started, `StartError` where it could not be started,
    /// and what `executable_missing` does and gives where the executable
    /// is gone.
    pub fn launched(&mut self, launch: &Launch, outcome: Spawned) -> (done: Result<u32, AppError>)
        ensures
            final(self).apps_dir == old(self).apps_dir,
            match outcome {
                Spawned::Started { pid } => {
                    &&& done == Ok::<u32, AppError>(pid)
                    &&& final(self).entries == old(self).entries
                },
                Spawned::Failed => {
                    &&& done == Err::<u32, AppError>(
                        AppError::StartError { reason: StartFailure::SpawnFailed },
                    )
                    &&& final(self).entries == old(self).entries
                },
                Spawned::ExecutableMissing { dir_removed } => {
                    &&& done == Err::<u32, AppError>(
                        missing_failure(entry_views(old(self).entries@), launch@, dir_removed),
                    )
                    &&& entry_views(final(self).entries@) == uninstalled(
                        entry_views(old(self).entries@),
                        launch.uuid@,
                        launch.version@,
                    )
                },
            },
    {
        match outcome {
            Spawned::Started { pid } => Ok(pid),
            Spawned::Failed => Err(AppError::StartError { reason: StartFailure::SpawnFailed }),
            Spawned::ExecutableMissing { dir_removed } => Err(
                self.executable_missing(launch, dir_removed),
            ),
        }
    }

    /// How starting the active applications at boot ended. `listed` tells
    /// whether the directory of active versions could be listed, and
    /// `started`, for each application in it, whether it started.
    ///
    /// Fails with `FileError` where the directory could not be listed or an
    /// application did not start.
    pub fn run_onboot(&self, listed: bool, started: &Vec<bool>) -> (done: Result<(), AppError>)
        ensures
            !listed ==> done == Err::<(), AppError>(
                AppError::FileError { reason: FileFailure::NoActiveDir },
            ),
            listed && not_started(started@) == 0 ==> done == Ok::<(), AppError>(()),
            listed && not_started(started@) > 0 ==> done == Err::<(), AppError>(
                AppError::FileError {
                    reason: FileFailure::NotStarted { count: not_started(started@) as u64 },
                },
            ),
    {
        if !listed {
            return Err(AppError::FileError { reason: FileFailure::NoActiveDir });
        }
        let mut count: u64 = 0;
        let mut k: usize = 0;
        assert(started@.take(0) =~= Seq::<bool>::empty());
        while k < started.len()
            invariant
                k <= started@.len(),
                count == not_started(started@.take(k as int)),
                count <= k,
            decreases started@.len() - k,
        {
            assert(started@.take(k + 1).drop_last() =~= started@.take(k as int));
            if !started[k] {
                count = count + 1;
            }
            k = k + 1;
        }
        assert(started@.take(k as int) =~= started@);
        if count == 0 {
            Ok(())
        } else {
            Err(AppError::FileError { reason: FileFailure::NotStarted { count } })
        }
    }
}

} // verus!
