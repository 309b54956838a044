//! Error values and their process exit codes.
//!
//! `Error` is the top-level, user-facing error; `AnonLocErr` is an error still lacking the location
//! (usually a file path) it concerns, turned into an `Error` by [AnonLocErr::loc]; `AnonFieldErr`
//! lacks the field it concerns.  Operating-system failures are carried as [IoError] values.
use vstd::prelude::*;

verus! {

/// The category of an I/O failure (a subset of `std::io::ErrorKind`).
#[derive(Clone, Copy, Debug, PartialEq, Eq, Structural)]
pub enum IoErrorKind {
    NotFound,
    PermissionDenied,
    AlreadyExists,
    InvalidInput,
    InvalidData,
    UnexpectedEof,
    WouldBlock,
    Interrupted,
    Other,
}

/// An operating-system or I/O failure: its category, the OS error number when there is one,
/// and a description.
#[derive(Debug)]
pub struct IoError {
    pub kind: IoErrorKind,
    pub raw_os_error: Option<i32>,
    pub message: String,
}

/// The exit code for an I/O failure: the OS error number, or 1 without one.
pub open spec fn io_exit_code(e: IoError) -> i32 {
    match e.raw_os_error {
        Some(code) => code,
        None => 1,
    }
}

/// Top-level error.  Should have all the context needed to present a good error message.
#[derive(Debug)]
pub enum Error {
    BuildBbuild,
    BuildNative,
    BuildPkg(String, String),
    BuildDependencyCycle(String),
    BuildOutputExists(String, String, String),
    InputFieldInvalid(&'static str, String),
    InvalidRegex(String, String),
    MakeRepoNoBbuilds(String),
    NoDefaultArchForBbuild(String),
    MakeBinsMissingInPath(String, String),
    UnableToLocateDependency(String, String),
    UnableToLocateAvailablePkg(String),
    UnableToLocateInstalledPkg(String),
    UnableToLocateRepositoryPkg(String),
    RuntimeDependencyCycle(String),
    RemovePkgNotExplicit(String),
    DowngradeDependencyPkg(String),
    DependArchMissing(String, String),
    InstallConflict(String, String, String),
    CheckFailed(String),
    InvalidBptPath(String),
    InvalidBptUrl(String),
    InvalidBptPathUrlRepo(String),
    InvalidBbuildPath(String),
    InvalidBbuildUrl(String),
    InvalidBbuildPathUrlRepo(String),
    InvalidIdxPathUrl(String),
    InvalidIdxUrl(String),
    InvalidIdxPath(String),
    InvalidPkgPath(String),
    InvalidPkgUrl(String),
    InvalidPkgPathUrlRepo(String),
    InvalidUrl(String),
    ClosePipe(IoError),
    CreateAnon(String, IoError),
    CreateDir(String, IoError),
    CreateFile(String, IoError),
    CreateMemFd(IoError),
    CreatePipe(IoError),
    Chown(String, IoError),
    Dup(i32),
    Fcntl(String, IoError),
    Fork(IoError),
    FlushStdout(IoError),
    GetXattr(String, IoError),
    Link(String, IoError),
    Lock(String, IoError),
    Open(String, IoError),
    Read(String, IoError),
    ReadDir(String, IoError),
    ReadPipe(IoError),
    Remove(String, IoError),
    Rename(String, String, IoError),
    Seek(String, IoError),
    FileTooLarge(String, usize),
    Stat(String, IoError),
    Truncate(String, IoError),
    Write(String, IoError),
    CouldNotSign(String, String),
    IndexTimestampOld(String),
    SigCorrupt(String),
    SigInvalid(String),
    NoPublicKeys(String),
    SigMissing(String),
    LoadPublicKey(String, String),
    LoadSecretKey(String, String),
    UnrecognizedKeyFormat(String),
    NetUtilNonZero(String, i32),
    DropPrivileges(String, IoError),
    ShellExec(String, IoError),
    ShellMsgCorrupt(String, &'static str),
    ShellNonZero(String, i32),
    ShellWait(String, IoError),
    ShellWaitStatus(String, String),
    InvalidMagicNumber(String, &'static str),
    FieldDuplicated(String, String),
    FieldEmpty(String, &'static str),
    FieldIllegalChar(String, &'static str, String),
    FieldInvalid(String, &'static str, String),
    FieldMissing(String, &'static str),
    UnexpectedData(String),
    SrcChecksumCountMismatch(String, usize, usize),
    Base64Decode(String, String),
    BuildTarball(String, IoError),
    Compress(String, IoError),
    Decompress(String, IoError),
    InvalidUnderscoreEncoding(String),
    ParseTarball(String, IoError),
    UnpackTarball(String, IoError),
    FilenameStemArch(String),
    PathLacksFileName(String),
    PathTraversal(String),
    NoNetUtilInPath,
    NetUtilError(String, IoError),
    BptConfInvalidLine(String, usize, &'static str, String),
    BrlWhichNonUtf8(String),
    ConfirmDenied,
    GetTime(String),
    RunBrlWhich(String, IoError),
    SrcChecksumFailed(String, String),
}

/// An error lacking location context.  For example, if it's a Write error, which file are we
/// writing to?
///
/// Convert to `Error` with `.loc()`.  Some variants need no location; for them `.loc()` drops it.
#[derive(Debug)]
pub enum AnonLocErr {
    MakeBinsMissingInPath(String),
    ClosePipe(IoError),
    CreateAnon(IoError),
    CreatePipe(IoError),
    Chown(IoError),
    Dup(i32),
    Fcntl(IoError),
    FlushStdout(IoError),
    Fork(IoError),
    Lock(IoError),
    Open(IoError),
    Read(IoError),
    ReadPipe(IoError),
    Seek(IoError),
    Stat(IoError),
    Truncate(IoError),
    Write(IoError),
    FileTooLarge(usize),
    CouldNotSign(String),
    SigCorrupt,
    SigInvalid,
    NoPublicKeys,
    SigMissing,
    DropPrivileges(IoError),
    ShellExec(IoError),
    ShellMsgCorrupt(&'static str),
    ShellNonZero(i32),
    ShellWait(IoError),
    ShellWaitStatus(String),
    InvalidMagicNumber(&'static str),
    FieldDuplicated(String),
    FieldEmpty(&'static str),
    FieldIllegalChar(&'static str, String),
    FieldInvalid(&'static str, String),
    FieldMissing(&'static str),
    UnexpectedData,
    Base64Decode(String),
    BuildTarball(IoError),
    Compress(IoError),
    Decompress(IoError),
    ParseTarball(IoError),
    SrcChecksumCountMismatch(usize, usize),
    BptConfInvalidLine(usize, &'static str, String),
    GetTime(String),
}

/// An error lacking field context.  For example, if there's an illegal character in a field, which
/// field has that error?
///
/// Convert to `AnonLocErr` with `.field()`.
#[derive(Debug)]
pub enum AnonFieldErr {
    IllegalChar(String),
}

/// Expected command return value: the successful command result, or the user-facing error.
pub type CommandResult = Result<String, Error>;

/// The process exit code for an error.  Most non-I/O codes follow the sysexits.h conventions;
/// I/O failures forward the OS error number.
pub open spec fn exit_code_of(e: Error) -> i32 {
    match e {
        Error::BuildBbuild => 64,
        Error::BuildNative => 64,
        Error::BuildPkg(..) => 64,
        Error::BuildDependencyCycle(..) => 64,
        Error::BuildOutputExists(..) => 64,
        Error::InputFieldInvalid(..) => 64,
        Error::InvalidRegex(..) => 64,
        Error::MakeRepoNoBbuilds(..) => 64,
        Error::NoDefaultArchForBbuild(..) => 64,
        Error::MakeBinsMissingInPath(..) => 64,
        Error::UnableToLocateDependency(..) => 64,
        Error::UnableToLocateAvailablePkg(..) => 64,
        Error::UnableToLocateInstalledPkg(..) => 64,
        Error::UnableToLocateRepositoryPkg(..) => 64,
        Error::RuntimeDependencyCycle(..) => 64,
        Error::RemovePkgNotExplicit(..) => 64,
        Error::DowngradeDependencyPkg(..) => 64,
        Error::DependArchMissing(..) => 65,
        Error::InstallConflict(..) => 70,
        Error::CheckFailed(..) => 70,
        Error::InvalidBptPath(..) => 69,
        Error::InvalidBptUrl(..) => 69,
        Error::InvalidBptPathUrlRepo(..) => 69,
        Error::InvalidBbuildPath(..) => 69,
        Error::InvalidBbuildUrl(..) => 69,
        Error::InvalidBbuildPathUrlRepo(..) => 69,
        Error::InvalidIdxPathUrl(..) => 69,
        Error::InvalidIdxUrl(..) => 69,
        Error::InvalidIdxPath(..) => 69,
        Error::InvalidPkgPath(..) => 69,
        Error::InvalidPkgUrl(..) => 69,
        Error::InvalidPkgPathUrlRepo(..) => 69,
        Error::InvalidUrl(..) => 69,
        Error::ClosePipe(io) => io_exit_code(io),
        Error::CreateAnon(_, io) => io_exit_code(io),
        Error::CreateDir(_, io) => io_exit_code(io),
        Error::CreateFile(_, io) => io_exit_code(io),
        Error::CreateMemFd(io) => io_exit_code(io),
        Error::CreatePipe(io) => io_exit_code(io),
        Error::Chown(_, io) => io_exit_code(io),
        Error::Dup(errno) => errno,
        Error::Fcntl(_, io) => io_exit_code(io),
        Error::Fork(io) => io_exit_code(io),
        Error::FlushStdout(io) => io_exit_code(io),
        Error::GetXattr(_, io) => io_exit_code(io),
        Error::Link(_, io) => io_exit_code(io),
        Error::Lock(_, io) => io_exit_code(io),
        Error::Open(_, io) => io_exit_code(io),
        Error::Read(_, io) => io_exit_code(io),
        Error::ReadDir(_, io) => io_exit_code(io),
        Error::ReadPipe(io) => io_exit_code(io),
        Error::Remove(_, io) => io_exit_code(io),
        Error::Rename(_, _, io) => io_exit_code(io),
        Error::Seek(_, io) => io_exit_code(io),
        Error::FileTooLarge(..) => 65,
        Error::Stat(_, io) => io_exit_code(io),
        Error::Truncate(_, io) => io_exit_code(io),
        Error::Write(_, io) => io_exit_code(io),
        Error::CouldNotSign(..) => 62,
        Error::IndexTimestampOld(..) => 62,
        Error::SigCorrupt(..) => 62,
        Error::SigInvalid(..) => 62,
        Error::NoPublicKeys(..) => 62,
        Error::SigMissing(..) => 62,
        Error::LoadPublicKey(..) => 63,
        Error::LoadSecretKey(..) => 63,
        Error::UnrecognizedKeyFormat(..) => 63,
        Error::NetUtilNonZero(_, rv) => rv,
        Error::DropPrivileges(_, io) => io_exit_code(io),
        Error::ShellExec(_, io) => io_exit_code(io),
        Error::ShellMsgCorrupt(..) => 65,
        Error::ShellNonZero(_, rv) => rv,
        Error::ShellWait(_, io) => io_exit_code(io),
        Error::ShellWaitStatus(..) => 1,
        Error::InvalidMagicNumber(..) => 65,
        Error::FieldDuplicated(..) => 65,
        Error::FieldEmpty(..) => 65,
        Error::FieldIllegalChar(..) => 65,
        Error::FieldInvalid(..) => 65,
        Error::FieldMissing(..) => 65,
        Error::UnexpectedData(..) => 65,
        Error::SrcChecksumCountMismatch(..) => 65,
        Error::Base64Decode(..) => 66,
        Error::BuildTarball(_, io) => io_exit_code(io),
        Error::Compress(_, io) => io_exit_code(io),
        Error::Decompress(_, io) => io_exit_code(io),
        Error::InvalidUnderscoreEncoding(..) => 66,
        Error::ParseTarball(_, io) => io_exit_code(io),
        Error::UnpackTarball(_, io) => io_exit_code(io),
        Error::FilenameStemArch(..) => 67,
        Error::PathLacksFileName(..) => 67,
        Error::PathTraversal(..) => 67,
        Error::NoNetUtilInPath => 68,
        Error::NetUtilError(..) => 68,
        Error::BptConfInvalidLine(..) => 70,
        Error::BrlWhichNonUtf8(..) => 70,
        Error::ConfirmDenied => 70,
        Error::GetTime(..) => 70,
        Error::RunBrlWhich(_, io) => io_exit_code(io),
        Error::SrcChecksumFailed(..) => 70,
    }
}

/// The `Error` an `AnonLocErr` becomes once its location `l` is known.
pub open spec fn with_location(e: AnonLocErr, l: String) -> Error {
    match e {
        AnonLocErr::MakeBinsMissingInPath(x0) => Error::MakeBinsMissingInPath(l, x0),
        AnonLocErr::ClosePipe(x0) => Error::ClosePipe(x0),
        AnonLocErr::CreateAnon(x0) => Error::CreateAnon(l, x0),
        AnonLocErr::CreatePipe(x0) => Error::CreatePipe(x0),
        AnonLocErr::Chown(x0) => Error::Chown(l, x0),
        AnonLocErr::Dup(x0) => Error::Dup(x0),
        AnonLocErr::Fcntl(x0) => Error::Fcntl(l, x0),
        AnonLocErr::FlushStdout(x0) => Error::FlushStdout(x0),
        AnonLocErr::Fork(x0) => Error::Fork(x0),
        AnonLocErr::Lock(x0) => Error::Lock(l, x0),
        AnonLocErr::Open(x0) => Error::Open(l, x0),
        AnonLocErr::Read(x0) => Error::Read(l, x0),
        AnonLocErr::ReadPipe(x0) => Error::ReadPipe(x0),
        AnonLocErr::Seek(x0) => Error::Seek(l, x0),
        AnonLocErr::Stat(x0) => Error::Stat(l, x0),
        AnonLocErr::Truncate(x0) => Error::Truncate(l, x0),
        AnonLocErr::Write(x0) => Error::Write(l, x0),
        AnonLocErr::FileTooLarge(x0) => Error::FileTooLarge(l, x0),
        AnonLocErr::CouldNotSign(x0) => Error::CouldNotSign(l, x0),
        AnonLocErr::SigCorrupt => Error::SigCorrupt(l),
        AnonLocErr::SigInvalid => Error::SigInvalid(l),
        AnonLocErr::NoPublicKeys => Error::NoPublicKeys(l),
        AnonLocErr::SigMissing => Error::SigMissing(l),
        AnonLocErr::DropPrivileges(x0) => Error::DropPrivileges(l, x0),
        AnonLocErr::ShellExec(x0) => Error::ShellExec(l, x0),
        AnonLocErr::ShellMsgCorrupt(x0) => Error::ShellMsgCorrupt(l, x0),
        AnonLocErr::ShellNonZero(x0) => Error::ShellNonZero(l, x0),
        AnonLocErr::ShellWait(x0) => Error::ShellWait(l, x0),
        AnonLocErr::ShellWaitStatus(x0) => Error::ShellWaitStatus(l, x0),
        AnonLocErr::InvalidMagicNumber(x0) => Error::InvalidMagicNumber(l, x0),
        AnonLocErr::FieldDuplicated(x0) => Error::FieldDuplicated(l, x0),
        AnonLocErr::FieldEmpty(x0) => Error::FieldEmpty(l, x0),
        AnonLocErr::FieldIllegalChar(x0, x1) => Error::FieldIllegalChar(l, x0, x1),
        AnonLocErr::FieldInvalid(x0, x1) => Error::FieldInvalid(l, x0, x1),
        AnonLocErr::FieldMissing(x0) => Error::FieldMissing(l, x0),
        AnonLocErr::UnexpectedData => Error::UnexpectedData(l),
        AnonLocErr::Base64Decode(x0) => Error::Base64Decode(l, x0),
        AnonLocErr::BuildTarball(x0) => Error::BuildTarball(l, x0),
        AnonLocErr::Compress(x0) => Error::Compress(l, x0),
        AnonLocErr::Decompress(x0) => Error::Decompress(l, x0),
        AnonLocErr::ParseTarball(x0) => Error::ParseTarball(l, x0),
        AnonLocErr::SrcChecksumCountMismatch(x0, x1) => Error::SrcChecksumCountMismatch(l, x0, x1),
        AnonLocErr::BptConfInvalidLine(x0, x1, x2) => Error::BptConfInvalidLine(l, x0, x1, x2),
        AnonLocErr::GetTime(x0) => Error::GetTime(x0),
    }
}

impl Error {
    /// The process exit code for this error.
    pub fn exit_code(&self) -> (r: i32)
        ensures
            r == exit_code_of(*self),
    {
        match self {
            Error::BuildBbuild => 64,
            Error::BuildNative => 64,
            Error::BuildPkg(..) => 64,
            Error::BuildDependencyCycle(..) => 64,
            Error::BuildOutputExists(..) => 64,
            Error::InputFieldInvalid(..) => 64,
            Error::InvalidRegex(..) => 64,
            Error::MakeRepoNoBbuilds(..) => 64,
            Error::NoDefaultArchForBbuild(..) => 64,
            Error::MakeBinsMissingInPath(..) => 64,
            Error::UnableToLocateDependency(..) => 64,
            Error::UnableToLocateAvailablePkg(..) => 64,
            Error::UnableToLocateInstalledPkg(..) => 64,
            Error::UnableToLocateRepositoryPkg(..) => 64,
            Error::RuntimeDependencyCycle(..) => 64,
            Error::RemovePkgNotExplicit(..) => 64,
            Error::DowngradeDependencyPkg(..) => 64,
            Error::DependArchMissing(..) => 65,
            Error::InstallConflict(..) => 70,
            Error::CheckFailed(..) => 70,
            Error::InvalidBptPath(..) => 69,
            Error::InvalidBptUrl(..) => 69,
            Error::InvalidBptPathUrlRepo(..) => 69,
            Error::InvalidBbuildPath(..) => 69,
            Error::InvalidBbuildUrl(..) => 69,
            Error::InvalidBbuildPathUrlRepo(..) => 69,
            Error::InvalidIdxPathUrl(..) => 69,
            Error::InvalidIdxUrl(..) => 69,
            Error::InvalidIdxPath(..) => 69,
            Error::InvalidPkgPath(..) => 69,
            Error::InvalidPkgUrl(..) => 69,
            Error::InvalidPkgPathUrlRepo(..) => 69,
            Error::InvalidUrl(..) => 69,
            Error::ClosePipe(e) => match e.raw_os_error {
                Some(code) => code,
                None => 1,
            },
            Error::CreateAnon(_, e) => match e.raw_os_error {
                Some(code) => code,
                None => 1,
            },
            Error::CreateDir(_, e) => match e.raw_os_error {
                Some(code) => code,
                None => 1,
            },
            Error::CreateFile(_, e) => match e.raw_os_error {
                Some(code) => code,
                None => 1,
            },
            Error::CreateMemFd(e) => match e.raw_os_error {
                Some(code) => code,
                None => 1,
            },
            Error::CreatePipe(e) => match e.raw_os_error {
                Some(code) => code,
                None => 1,
            },
            Error::Chown(_, e) => match e.raw_os_error {
                Some(code) => code,
                None => 1,
            },
            Error::Dup(errno) => *errno,
            Error::Fcntl(_, e) => match e.raw_os_error {
                Some(code) => code,
                None => 1,
            },
            Error::Fork(e) => match e.raw_os_error {
                Some(code) => code,
                None => 1,
            },
            Error::FlushStdout(e) => match e.raw_os_error {
                Some(code) => code,
                None => 1,
            },
            Error::GetXattr(_, e) => match e.raw_os_error {
                Some(code) => code,
                None => 1,
            },
            Error::Link(_, e) => match e.raw_os_error {
                Some(code) => code,
                None => 1,
            },
            Error::Lock(_, e) => match e.raw_os_error {
                Some(code) => code,
                None => 1,
            },
            Error::Open(_, e) => match e.raw_os_error {
                Some(code) => code,
                None => 1,
            },
            Error::Read(_, e) => match e.raw_os_error {
                Some(code) => code,
                None => 1,
            },
            Error::ReadDir(_, e) => match e.raw_os_error {
                Some(code) => code,
                None => 1,
            },
            Error::ReadPipe(e) => match e.raw_os_error {
                Some(code) => code,
                None => 1,
            },
            Error::Remove(_, e) => match e.raw_os_error {
                Some(code) => code,
                None => 1,
            },
            Error::Rename(_, _, e) => match e.raw_os_error {
                Some(code) => code,
                None => 1,
            },
            Error::Seek(_, e) => match e.raw_os_error {
                Some(code) => code,
                None => 1,
            },
            Error::FileTooLarge(..) => 65,
            Error::Stat(_, e) => match e.raw_os_error {
                Some(code) => code,
                None => 1,
            },
            Error::Truncate(_, e) => match e.raw_os_error {
                Some(code) => code,
                None => 1,
            },
            Error::Write(_, e) => match e.raw_os_error {
                Some(code) => code,
                None => 1,
            },
            Error::CouldNotSign(..) => 62,
            Error::IndexTimestampOld(..) => 62,
            Error::SigCorrupt(..) => 62,
            Error::SigInvalid(..) => 62,
            Error::NoPublicKeys(..) => 62,
            Error::SigMissing(..) => 62,
            Error::LoadPublicKey(..) => 63,
            Error::LoadSecretKey(..) => 63,
            Error::UnrecognizedKeyFormat(..) => 63,
            Error::NetUtilNonZero(_, rv) => *rv,
            Error::DropPrivileges(_, e) => match e.raw_os_error {
                Some(code) => code,
                None => 1,
            },
            Error::ShellExec(_, e) => match e.raw_os_error {
                Some(code) => code,
                None => 1,
            },
            Error::ShellMsgCorrupt(..) => 65,
            Error::ShellNonZero(_, rv) => *rv,
            Error::ShellWait(_, e) => match e.raw_os_error {
                Some(code) => code,
                None => 1,
            },
            Error::ShellWaitStatus(..) => 1,
            Error::InvalidMagicNumber(..) => 65,
            Error::FieldDuplicated(..) => 65,
            Error::FieldEmpty(..) => 65,
            Error::FieldIllegalChar(..) => 65,
            Error::FieldInvalid(..) => 65,
            Error::FieldMissing(..) => 65,
            Error::UnexpectedData(..) => 65,
            Error::SrcChecksumCountMismatch(..) => 65,
            Error::Base64Decode(..) => 66,
            Error::BuildTarball(_, e) => match e.raw_os_error {
                Some(code) => code,
                None => 1,
            },
            Error::Compress(_, e) => match e.raw_os_error {
                Some(code) => code,
                None => 1,
            },
            Error::Decompress(_, e) => match e.raw_os_error {
                Some(code) => code,
                None => 1,
            },
            Error::InvalidUnderscoreEncoding(..) => 66,
            Error::ParseTarball(_, e) => match e.raw_os_error {
                Some(code) => code,
                None => 1,
            },
            Error::UnpackTarball(_, e) => match e.raw_os_error {
                Some(code) => code,
                None => 1,
            },
            Error::FilenameStemArch(..) => 67,
            Error::PathLacksFileName(..) => 67,
            Error::PathTraversal(..) => 67,
            Error::NoNetUtilInPath => 68,
            Error::NetUtilError(..) => 68,
            Error::BptConfInvalidLine(..) => 70,
            Error::BrlWhichNonUtf8(..) => 70,
            Error::ConfirmDenied => 70,
            Error::GetTime(..) => 70,
            Error::RunBrlWhich(_, e) => match e.raw_os_error {
                Some(code) => code,
                None => 1,
            },
            Error::SrcChecksumFailed(..) => 70,
        }
    }
}

impl AnonLocErr {
    /// Add location context to an AnonLocErr
    pub fn loc(self, l: String) -> (r: Error)
        ensures
            r == with_location(self, l),
    {
        match self {
            AnonLocErr::MakeBinsMissingInPath(x0) => Error::MakeBinsMissingInPath(l, x0),
            AnonLocErr::ClosePipe(x0) => Error::ClosePipe(x0),
            AnonLocErr::CreateAnon(x0) => Error::CreateAnon(l, x0),
            AnonLocErr::CreatePipe(x0) => Error::CreatePipe(x0),
            AnonLocErr::Chown(x0) => Error::Chown(l, x0),
            AnonLocErr::Dup(x0) => Error::Dup(x0),
            AnonLocErr::Fcntl(x0) => Error::Fcntl(l, x0),
            AnonLocErr::FlushStdout(x0) => Error::FlushStdout(x0),
            AnonLocErr::Fork(x0) => Error::Fork(x0),
            AnonLocErr::Lock(x0) => Error::Lock(l, x0),
            AnonLocErr::Open(x0) => Error::Open(l, x0),
            AnonLocErr::Read(x0) => Error::Read(l, x0),
            AnonLocErr::ReadPipe(x0) => Error::ReadPipe(x0),
            AnonLocErr::Seek(x0) => Error::Seek(l, x0),
            AnonLocErr::Stat(x0) => Error::Stat(l, x0),
            AnonLocErr::Truncate(x0) => Error::Truncate(l, x0),
            AnonLocErr::Write(x0) => Error::Write(l, x0),
            AnonLocErr::FileTooLarge(x0) => Error::FileTooLarge(l, x0),
            AnonLocErr::CouldNotSign(x0) => Error::CouldNotSign(l, x0),
            AnonLocErr::SigCorrupt => Error::SigCorrupt(l),
            AnonLocErr::SigInvalid => Error::SigInvalid(l),
            AnonLocErr::NoPublicKeys => Error::NoPublicKeys(l),
            AnonLocErr::SigMissing => Error::SigMissing(l),
            AnonLocErr::DropPrivileges(x0) => Error::DropPrivileges(l, x0),
            AnonLocErr::ShellExec(x0) => Error::ShellExec(l, x0),
            AnonLocErr::ShellMsgCorrupt(x0) => Error::ShellMsgCorrupt(l, x0),
            AnonLocErr::ShellNonZero(x0) => Error::ShellNonZero(l, x0),
            AnonLocErr::ShellWait(x0) => Error::ShellWait(l, x0),
            AnonLocErr::ShellWaitStatus(x0) => Error::ShellWaitStatus(l, x0),
            AnonLocErr::InvalidMagicNumber(x0) => Error::InvalidMagicNumber(l, x0),
            AnonLocErr::FieldDuplicated(x0) => Error::FieldDuplicated(l, x0),
            AnonLocErr::FieldEmpty(x0) => Error::FieldEmpty(l, x0),
            AnonLocErr::FieldIllegalChar(x0, x1) => Error::FieldIllegalChar(l, x0, x1),
            AnonLocErr::FieldInvalid(x0, x1) => Error::FieldInvalid(l, x0, x1),
            AnonLocErr::FieldMissing(x0) => Error::FieldMissing(l, x0),
            AnonLocErr::UnexpectedData => Error::UnexpectedData(l),
            AnonLocErr::Base64Decode(x0) => Error::Base64Decode(l, x0),
            AnonLocErr::BuildTarball(x0) => Error::BuildTarball(l, x0),
            AnonLocErr::Compress(x0) => Error::Compress(l, x0),
            AnonLocErr::Decompress(x0) => Error::Decompress(l, x0),
            AnonLocErr::ParseTarball(x0) => Error::ParseTarball(l, x0),
            AnonLocErr::SrcChecksumCountMismatch(x0, x1) => Error::SrcChecksumCountMismatch(l, x0, x1),
            AnonLocErr::BptConfInvalidLine(x0, x1, x2) => Error::BptConfInvalidLine(l, x0, x1, x2),
            AnonLocErr::GetTime(x0) => Error::GetTime(x0),
        }
    }
}

impl AnonFieldErr {
    /// Add the field a value was read for.
    pub fn field(self, f: &'static str) -> (r: AnonLocErr)
        ensures
            match self {
                AnonFieldErr::IllegalChar(e) => r == AnonLocErr::FieldIllegalChar(f, e),
            },
    {
        match self {
            AnonFieldErr::IllegalChar(e) => AnonLocErr::FieldIllegalChar(f, e),
        }
    }
}

} // verus!
