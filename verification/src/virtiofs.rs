//! Mounting virtiofs shares, with an optional overlay for a writable layer.
//!
//! The library decides and the caller acts. A [`MountRun`] says what to ask
//! of the kernel next (an [`Action`]); the caller does it and hands back the
//! kernel's [`Reply`]; [`MountRun::step`] then gives the run in its next
//! state. [`RunView`] is the same machine on plain values, and the laws at
//! the end of this file are stated of it.
//!
//! For each share, in the order given: the parents of the mount point are
//! probed, those that are missing are created from the root downward, the
//! mount point is created, and the share is mounted: either directly, or read
//! only below an overlay whose directories stand under
//! `/run/overlayfs/<tag>`. A directory that exists already counts as created.
//! The first failure ends the run.

use crate::cmdline::{mount_views, VirtiofsMount, VirtiofsMountView};
use crate::text::{fields, split_fields, text_of, texts, views, Separator};
use vstd::prelude::*;

verus! {

/// The errno with which `mkdir` reports that the path exists already.
pub const EEXIST: i32 = 17;

/// The mount flag that makes a mount read only.
pub const MS_RDONLY: u32 = 1;

/// The mode of every directory that is created: `rwxr-xr-x`.
pub const DIR_MODE: u32 = 0o755;

/// The raw number of `rustix::io::Errno::EXIST`, as `Errno::raw_os_error`
/// gives it. Not proved: that it is `EEXIST`, which rustix takes from the
/// Linux headers, where it is 17.
#[verifier::external_body]
fn exist_errno() -> (code: i32)
    ensures
        code == EEXIST,
{
    rustix::io::Errno::EXIST.raw_os_error()
}

/// The bits of `rustix::mount::MountFlags::empty()`. Not proved: that they
/// are 0, as a set of flags without a flag has none of its bits set.
#[verifier::external_body]
fn no_flags() -> (bits: u32)
    ensures
        bits == 0,
{
    rustix::mount::MountFlags::empty().bits()
}

/// The bits of `rustix::mount::MountFlags::RDONLY`. Not proved: that they
/// are `MS_RDONLY`, which rustix takes from the Linux headers, where it is 1.
#[verifier::external_body]
fn read_only_flags() -> (bits: u32)
    ensures
        bits == MS_RDONLY,
{
    rustix::mount::MountFlags::RDONLY.bits()
}

/// What `std::path::Path::parent` gives for `path`, as text: the path
/// without its final component, or `None` where the path ends in the root
/// or is empty. It depends on the characters of `path` alone.
pub uninterp spec fn parent_of(path: Seq<char>) -> Option<Seq<char>>;

/// Calls `std::path::Path::parent` on `path` and hands out the parent as a
/// string. Not proved: that the parent, as text, is `parent_of` the path;
/// nothing is said of what it is. The parent is a part of `path`, which is
/// a string, so the conversion loses nothing.
#[verifier::external_body]
fn path_parent(path: &str) -> (parent: Option<String>)
    ensures
        text_of(parent) == parent_of(path@),
{
    match std::path::Path::new(path).parent() {
        Some(parent) => Some(parent.to_string_lossy().into_owned()),
        None => None,
    }
}

/// Why the shares could not be mounted.
#[derive(Debug, PartialEq, Eq)]
pub enum MountError {
    /// The kernel's list of filesystem types could not be read.
    FilesystemsUnreadable,
    /// The kernel's list of filesystem types has no entry for `virtiofs`.
    Unsupported,
    /// A mount point, or a parent of one, could not be created.
    CreateDir { path: String, errno: i32 },
    /// A directory of an overlay could not be created.
    CreateOverlayDir { path: String, errno: i32 },
    /// The share `tag` could not be mounted at `target`.
    MountVirtiofs { tag: String, target: String, errno: i32 },
    /// The overlay could not be mounted at `path`.
    MountOverlay { path: String, errno: i32 },
}

/// A `MountError` as plain values.
pub enum MountErrorView {
    FilesystemsUnreadable,
    Unsupported,
    CreateDir { path: Seq<char>, errno: i32 },
    CreateOverlayDir { path: Seq<char>, errno: i32 },
    MountVirtiofs { tag: Seq<char>, target: Seq<char>, errno: i32 },
    MountOverlay { path: Seq<char>, errno: i32 },
}

impl View for MountError {
    type V = MountErrorView;

    open spec fn view(&self) -> MountErrorView {
        match self {
            MountError::FilesystemsUnreadable => MountErrorView::FilesystemsUnreadable,
            MountError::Unsupported => MountErrorView::Unsupported,
            MountError::CreateDir { path, errno } => MountErrorView::CreateDir {
                path: path@,
                errno: *errno,
            },
            MountError::CreateOverlayDir { path, errno } => MountErrorView::CreateOverlayDir {
                path: path@,
                errno: *errno,
            },
            MountError::MountVirtiofs { tag, target, errno } => MountErrorView::MountVirtiofs {
                tag: tag@,
                target: target@,
                errno: *errno,
            },
            MountError::MountOverlay { path, errno } => MountErrorView::MountOverlay {
                path: path@,
                errno: *errno,
            },
        }
    }
}

impl MountErrorView {
    /// The error as a sentence: the step that failed, and on what.
    pub open spec fn message(self) -> Seq<char> {
        match self {
            MountErrorView::FilesystemsUnreadable => "Failed to read /proc/filesystems"@,
            MountErrorView::Unsupported => "virtiofs filesystem not supported by kernel. Make sure CONFIG_VIRTIO_FS is enabled (either built-in or as a module) and that the module is loaded before mounting virtiofs shares."@,
            MountErrorView::CreateDir { path, errno } => "Failed to create directory "@ + path,
            MountErrorView::CreateOverlayDir { path, errno } => "Failed to create overlay directory "@
                + path,
            MountErrorView::MountVirtiofs { tag, target, errno } => "Failed to mount virtiofs "@
                + tag + " at "@ + target,
            MountErrorView::MountOverlay { path, errno } => "Failed to mount overlayfs at "@
                + path,
        }
    }
}

impl MountError {
    /// The error as a sentence: the step that failed, and on what.
    pub fn message(&self) -> (text: String)
        ensures
            text@ == self@.message(),
    {
        match self {
            MountError::FilesystemsUnreadable => "Failed to read /proc/filesystems".to_owned(),
            MountError::Unsupported => "virtiofs filesystem not supported by kernel. Make sure CONFIG_VIRTIO_FS is enabled (either built-in or as a module) and that the module is loaded before mounting virtiofs shares.".to_owned(),
            MountError::CreateDir { path, errno } => "Failed to create directory ".to_owned().concat(
                path.as_str(),
            ),
            MountError::CreateOverlayDir { path, errno } => {
                "Failed to create overlay directory ".to_owned().concat(path.as_str())
            },
            MountError::MountVirtiofs { tag, target, errno } => {
                "Failed to mount virtiofs ".to_owned().concat(tag.as_str()).concat(" at ").concat(
                    target.as_str(),
                )
            },
            MountError::MountOverlay { path, errno } => {
                "Failed to mount overlayfs at ".to_owned().concat(path.as_str())
            },
        }
    }

    /// The errno that the kernel gave, where the error comes from a call.
    pub fn errno(&self) -> (code: Option<i32>)
        ensures
            code == self@.errno(),
    {
        match self {
            MountError::FilesystemsUnreadable => None,
            MountError::Unsupported => None,
            MountError::CreateDir { path, errno } => Some(*errno),
            MountError::CreateOverlayDir { path, errno } => Some(*errno),
            MountError::MountVirtiofs { tag, target, errno } => Some(*errno),
            MountError::MountOverlay { path, errno } => Some(*errno),
        }
    }

    /// A copy of the error.
    pub fn duplicate(&self) -> (copy: MountError)
        ensures
            copy@ == self@,
    {
        match self {
            MountError::FilesystemsUnreadable => MountError::FilesystemsUnreadable,
            MountError::Unsupported => MountError::Unsupported,
            MountError::CreateDir { path, errno } => MountError::CreateDir {
                path: path.clone(),
                errno: *errno,
            },
            MountError::CreateOverlayDir { path, errno } => MountError::CreateOverlayDir {
                path: path.clone(),
                errno: *errno,
            },
            MountError::MountVirtiofs { tag, target, errno } => MountError::MountVirtiofs {
                tag: tag.clone(),
                target: target.clone(),
                errno: *errno,
            },
            MountError::MountOverlay { path, errno } => MountError::MountOverlay {
                path: path.clone(),
                errno: *errno,
            },
        }
    }
}

impl MountErrorView {
    /// The errno that the kernel gave, where the error comes from a call.
    pub open spec fn errno(self) -> Option<i32> {
        match self {
            MountErrorView::FilesystemsUnreadable => None,
            MountErrorView::Unsupported => None,
            MountErrorView::CreateDir { path, errno } => Some(errno),
            MountErrorView::CreateOverlayDir { path, errno } => Some(errno),
            MountErrorView::MountVirtiofs { tag, target, errno } => Some(errno),
            MountErrorView::MountOverlay { path, errno } => Some(errno),
        }
    }
}

/// One thing to ask of the kernel.
#[derive(Debug, PartialEq, Eq)]
pub enum Request {
    /// Read the list of filesystem types that the kernel supports.
    ReadFilesystems,
    /// Tell whether `path` exists.
    Exists { path: String },
    /// Create the directory `path` with the permissions `mode`.
    Mkdir { path: String, mode: u32 },
    /// Mount `source` at `target`.
    Mount { source: String, target: String, fstype: String, flags: u32, data: String },
}

/// A `Request` as plain values.
pub enum RequestView {
    ReadFilesystems,
    Exists { path: Seq<char> },
    Mkdir { path: Seq<char>, mode: u32 },
    Mount { source: Seq<char>, target: Seq<char>, fstype: Seq<char>, flags: u32, data: Seq<char> },
}

impl View for Request {
    type V = RequestView;

    open spec fn view(&self) -> RequestView {
        match self {
            Request::ReadFilesystems => RequestView::ReadFilesystems,
            Request::Exists { path } => RequestView::Exists { path: path@ },
            Request::Mkdir { path, mode } => RequestView::Mkdir { path: path@, mode: *mode },
            Request::Mount { source, target, fstype, flags, data } => RequestView::Mount {
                source: source@,
                target: target@,
                fstype: fstype@,
                flags: *flags,
                data: data@,
            },
        }
    }
}

/// What the kernel answered to a request.
#[derive(Debug, PartialEq, Eq)]
pub enum Reply {
    /// To `ReadFilesystems`: the list as text, or `None` where it could not
    /// be read.
    Filesystems(Option<String>),
    /// To `Exists`: whether the path exists.
    Exists(bool),
    /// To `Mkdir` and `Mount`: the call succeeded.
    Done,
    /// To `Mkdir` and `Mount`: the call failed with this errno.
    Failed(i32),
}

/// A `Reply` as plain values.
pub enum ReplyView {
    Filesystems(Option<Seq<char>>),
    Exists(bool),
    Done,
    Failed(i32),
}

impl View for Reply {
    type V = ReplyView;

    open spec fn view(&self) -> ReplyView {
        match self {
            Reply::Filesystems(Some(list)) => ReplyView::Filesystems(Some(list@)),
            Reply::Filesystems(None) => ReplyView::Filesystems(None),
            Reply::Exists(present) => ReplyView::Exists(*present),
            Reply::Done => ReplyView::Done,
            Reply::Failed(errno) => ReplyView::Failed(*errno),
        }
    }
}

/// What the caller is to do now.
#[derive(Debug, PartialEq, Eq)]
pub enum Action {
    /// Ask this of the kernel, and hand the reply to `MountRun::step`.
    Ask(Request),
    /// Stop: the run has ended, with this result.
    Finish(Result<(), MountError>),
}

/// An `Action` as plain values.
pub enum ActionView {
    Ask(RequestView),
    Finish(Result<(), MountErrorView>),
}

/// The result of a run as plain values.
pub open spec fn result_view(result: Result<(), MountError>) -> Result<(), MountErrorView> {
    match result {
        Ok(()) => Ok(()),
        Err(e) => Err(e@),
    }
}

impl View for Action {
    type V = ActionView;

    open spec fn view(&self) -> ActionView {
        match self {
            Action::Ask(request) => ActionView::Ask(request@),
            Action::Finish(result) => ActionView::Finish(result_view(*result)),
        }
    }
}

/// The directories of the overlay for one share.
#[derive(Debug, PartialEq, Eq)]
pub struct OverlayLayout {
    /// `/run/overlayfs/<tag>`
    pub base: String,
    /// The writable layer.
    pub upper: String,
    /// The overlay's work directory.
    pub work: String,
    /// Where the share itself is mounted, read only.
    pub lower: String,
}

/// An `OverlayLayout` as plain values.
pub struct OverlayLayoutView {
    pub base: Seq<char>,
    pub upper: Seq<char>,
    pub work: Seq<char>,
    pub lower: Seq<char>,
}

impl View for OverlayLayout {
    type V = OverlayLayoutView;

    open spec fn view(&self) -> OverlayLayoutView {
        OverlayLayoutView {
            base: self.base@,
            upper: self.upper@,
            work: self.work@,
            lower: self.lower@,
        }
    }
}

/// The overlay directories of the share `tag`: `/run/overlayfs/<tag>` and,
/// in it, `upper`, `work` and `lower`.
pub open spec fn layout_of(tag: Seq<char>) -> OverlayLayoutView {
    let base = "/run/overlayfs/"@ + tag;
    OverlayLayoutView {
        base,
        upper: base + "/upper"@,
        work: base + "/work"@,
        lower: base + "/lower"@,
    }
}

impl OverlayLayoutView {
    /// The options with which the overlay is mounted.
    pub open spec fn options(self) -> Seq<char> {
        "lowerdir="@ + self.lower + ",upperdir="@ + self.upper + ",workdir="@ + self.work
    }
}

impl OverlayLayout {
    /// The overlay directories of the share `tag`.
    pub fn for_tag(tag: &str) -> (layout: OverlayLayout)
        ensures
            layout@ == layout_of(tag@),
    {
        let base = "/run/overlayfs/".to_owned().concat(tag);
        let upper = base.clone().concat("/upper");
        let work = base.clone().concat("/work");
        let lower = base.clone().concat("/lower");
        OverlayLayout { base, upper, work, lower }
    }

    /// The options with which the overlay is mounted.
    pub fn options(&self) -> (data: String)
        ensures
            data@ == self@.options(),
    {
        "lowerdir=".to_owned().concat(self.lower.as_str()).concat(",upperdir=").concat(
            self.upper.as_str(),
        ).concat(",workdir=").concat(self.work.as_str())
    }
}

/// The lines of the kernel's list of filesystem types. Each line is one
/// entry: `nodev` or nothing, a tab, and the name of the type.
pub open spec fn entries_of(filesystems: Seq<char>) -> Seq<Seq<char>> {
    fields(filesystems, Separator::Char('\n'))
}

/// The filesystem type that one entry of the list names: what stands behind
/// its last tab, or the whole entry where it holds no tab.
pub open spec fn type_named(entry: Seq<char>) -> Seq<char> {
    fields(entry, Separator::Char('\t')).last()
}

/// Whether the list of filesystem types has an entry for `fstype`: whether
/// some entry names exactly that type.
pub open spec fn lists_type(filesystems: Seq<char>, fstype: Seq<char>) -> bool {
    exists|i: int|
        0 <= i < entries_of(filesystems).len() && type_named(
            #[trigger] entries_of(filesystems)[i],
        ) == fstype
}

/// Whether the kernel, by its list of filesystem types, supports virtiofs:
/// whether the list has an entry for the type `virtiofs`. A longer name that
/// holds the word does not count.
pub open spec fn lists_virtiofs(filesystems: Seq<char>) -> bool {
    lists_type(filesystems, "virtiofs"@)
}

/// Tells whether one entry of the list of filesystem types names `fstype`.
pub fn entry_names(entry: &str, fstype: &str) -> (named: bool)
    ensures
        named == (type_named(entry@) == fstype@),
{
    let parts = split_fields(entry, Separator::Char('\t'));
    assert(parts@.len() == views(parts@).len());
    let name: &str = parts[parts.len() - 1];
    assert(name@ == views(parts@).last());
    name.to_owned() == fstype.to_owned()
}

/// Tells whether the list of filesystem types has an entry for `fstype`.
pub fn lists(filesystems: &str, fstype: &str) -> (found: bool)
    ensures
        found == lists_type(filesystems@, fstype@),
{
    let entries = split_fields(filesystems, Separator::Char('\n'));
    let mut i: usize = 0;
    while i < entries.len()
        invariant
            views(entries@) == entries_of(filesystems@),
            i <= entries.len(),
            forall|j: int| 0 <= j < i ==> type_named(#[trigger] entries_of(filesystems@)[j]) != fstype@,
        decreases entries.len() - i,
    {
        assert(entries@[i as int]@ == entries_of(filesystems@)[i as int]);
        if entry_names(entries[i], fstype) {
            return true;
        }
        i += 1;
    }
    assert(entries@.len() == entries_of(filesystems@).len());
    false
}

/// Tells whether the kernel, by its list of filesystem types, supports
/// virtiofs.
pub fn supports_virtiofs(filesystems: &str) -> (supported: bool)
    ensures
        supported == lists_virtiofs(filesystems@),
{
    lists(filesystems, "virtiofs")
}

/// Whether `mkdir` that ended with `reply` left the directory in place: it
/// succeeded, or failed only because the path exists already.
pub open spec fn dir_in_place(reply: ReplyView) -> bool {
    reply == ReplyView::Done || reply == ReplyView::Failed(EEXIST)
}

/// Tells whether `mkdir` that ended with `reply` left the directory in
/// place.
pub fn created(reply: &Reply) -> (in_place: bool)
    ensures
        in_place == dir_in_place(reply@),
{
    match reply {
        Reply::Done => true,
        Reply::Failed(errno) => *errno == exist_errno(),
        _ => false,
    }
}

/// One step of mounting a share.
#[derive(Debug, PartialEq, Eq)]
pub enum Op {
    /// Create a mount point, or a parent of one.
    CreateDir { path: String },
    /// Create a directory of the overlay.
    CreateOverlayDir { path: String },
    /// Mount the share `tag` at `target`.
    MountShare { tag: String, target: String, read_only: bool },
    /// Mount the overlay at `target`, with `options`.
    MountOverlay { target: String, options: String },
}

/// An `Op` as plain values.
pub enum OpView {
    CreateDir { path: Seq<char> },
    CreateOverlayDir { path: Seq<char> },
    MountShare { tag: Seq<char>, target: Seq<char>, read_only: bool },
    MountOverlay { target: Seq<char>, options: Seq<char> },
}

impl View for Op {
    type V = OpView;

    open spec fn view(&self) -> OpView {
        match self {
            Op::CreateDir { path } => OpView::CreateDir { path: path@ },
            Op::CreateOverlayDir { path } => OpView::CreateOverlayDir { path: path@ },
            Op::MountShare { tag, target, read_only } => OpView::MountShare {
                tag: tag@,
                target: target@,
                read_only: *read_only,
            },
            Op::MountOverlay { target, options } => OpView::MountOverlay {
                target: target@,
                options: options@,
            },
        }
    }
}

/// The steps in `v` as plain values.
pub open spec fn op_views(v: Seq<Op>) -> Seq<OpView> {
    Seq::new(v.len(), |i: int| v[i]@)
}

impl OpView {
    /// Whether the step creates a directory.
    pub open spec fn creates_dir(self) -> bool {
        self is CreateDir || self is CreateOverlayDir
    }

    /// What the step asks of the kernel. A share is mounted as `virtiofs`
    /// from its tag, without data; an overlay as `overlay` from `overlay`,
    /// without flags.
    pub open spec fn request(self) -> RequestView {
        match self {
            OpView::CreateDir { path } => RequestView::Mkdir { path, mode: DIR_MODE },
            OpView::CreateOverlayDir { path } => RequestView::Mkdir { path, mode: DIR_MODE },
            OpView::MountShare { tag, target, read_only } => RequestView::Mount {
                source: tag,
                target,
                fstype: "virtiofs"@,
                flags: if read_only {
                    MS_RDONLY
                } else {
                    0
                },
                data: ""@,
            },
            OpView::MountOverlay { target, options } => RequestView::Mount {
                source: "overlay"@,
                target,
                fstype: "overlay"@,
                flags: 0,
                data: options,
            },
        }
    }

    /// How the kernel's reply ends the step: `Some(Ok(()))` where it is
    /// complete, `Some(Err(errno))` where it failed, `None` where the reply
    /// answers no step. A directory that exists already is complete.
    pub open spec fn outcome(self, reply: ReplyView) -> Option<Result<(), i32>> {
        match reply {
            ReplyView::Done => Some(Ok(())),
            ReplyView::Failed(errno) => if self.creates_dir() && errno == EEXIST {
                Some(Ok(()))
            } else {
                Some(Err(errno))
            },
            _ => None,
        }
    }

    /// The error of a run that ends at this step with `errno`.
    pub open spec fn failure(self, errno: i32) -> MountErrorView {
        match self {
            OpView::CreateDir { path } => MountErrorView::CreateDir { path, errno },
            OpView::CreateOverlayDir { path } => MountErrorView::CreateOverlayDir { path, errno },
            OpView::MountShare { tag, target, read_only } => MountErrorView::MountVirtiofs {
                tag,
                target,
                errno,
            },
            OpView::MountOverlay { target, options } => MountErrorView::MountOverlay {
                path: target,
                errno,
            },
        }
    }
}

impl Op {
    /// What the step asks of the kernel.
    pub fn request(&self) -> (request: Request)
        ensures
            request@ == self@.request(),
    {
        match self {
            Op::CreateDir { path } => Request::Mkdir { path: path.clone(), mode: DIR_MODE },
            Op::CreateOverlayDir { path } => Request::Mkdir { path: path.clone(), mode: DIR_MODE },
            Op::MountShare { tag, target, read_only } => Request::Mount {
                source: tag.clone(),
                target: target.clone(),
                fstype: "virtiofs".to_owned(),
                flags: if *read_only {
                    read_only_flags()
                } else {
                    no_flags()
                },
                data: "".to_owned(),
            },
            Op::MountOverlay { target, options } => Request::Mount {
                source: "overlay".to_owned(),
                target: target.clone(),
                fstype: "overlay".to_owned(),
                flags: no_flags(),
                data: options.clone(),
            },
        }
    }

    /// How the kernel's reply ends the step.
    pub fn outcome(&self, reply: &Reply) -> (outcome: Option<Result<(), i32>>)
        ensures
            outcome == self@.outcome(reply@),
    {
        match reply {
            Reply::Done => Some(Ok(())),
            Reply::Failed(errno) => {
                let creates_dir = match self {
                    Op::CreateDir { path } => true,
                    Op::CreateOverlayDir { path } => true,
                    _ => false,
                };
                if creates_dir && *errno == exist_errno() {
                    Some(Ok(()))
                } else {
                    Some(Err(*errno))
                }
            },
            _ => None,
        }
    }

    /// The error of a run that ends at this step with `errno`.
    pub fn failure(&self, errno: i32) -> (error: MountError)
        ensures
            error@ == self@.failure(errno),
    {
        match self {
            Op::CreateDir { path } => MountError::CreateDir { path: path.clone(), errno },
            Op::CreateOverlayDir { path } => MountError::CreateOverlayDir {
                path: path.clone(),
                errno,
            },
            Op::MountShare { tag, target, read_only } => MountError::MountVirtiofs {
                tag: tag.clone(),
                target: target.clone(),
                errno,
            },
            Op::MountOverlay { target, options } => MountError::MountOverlay {
                path: target.clone(),
                errno,
            },
        }
    }
}

/// Whether `path` names no directory to create: it is empty, or the root.
pub open spec fn names_no_dir(path: Seq<char>) -> bool {
    path.len() == 0 || path == "/"@
}

/// The parent to go on with from `path`, where `parent` is what
/// `Path::parent` gave for it: that parent, unless it names no directory.
/// A parent is shorter than its path; one that is not ends the walk too.
pub open spec fn climb(path: Seq<char>, parent: Option<Seq<char>>) -> Option<Seq<char>> {
    match parent {
        Some(p) => if names_no_dir(p) || p.len() >= path.len() {
            None
        } else {
            Some(p)
        },
        None => None,
    }
}

/// The parents to create for `path`, the nearest first: its parent, the
/// parent of that, and so on upward, up to the root or the empty path.
pub open spec fn parent_dirs(path: Seq<char>) -> Seq<Seq<char>>
    decreases path.len(),
{
    match climb(path, parent_of(path)) {
        Some(p) => seq![p] + parent_dirs(p),
        None => Seq::empty(),
    }
}

/// Tells the parent to go on with from `path`, where `parent` is what
/// `Path::parent` gave for it.
pub fn next_parent(path: &str, parent: Option<String>) -> (next: Option<String>)
    ensures
        text_of(next) == climb(path@, text_of(parent)),
{
    match parent {
        None => None,
        Some(p) => {
            let root = "/".to_owned();
            if p.as_str().is_empty() || p == root || p.as_str().unicode_len()
                >= path.unicode_len() {
                None
            } else {
                Some(p)
            }
        },
    }
}

/// Finds the parents to create for `path`, the nearest first.
pub fn find_parents(path: &str) -> (parents: Vec<String>)
    ensures
        texts(parents@) == parent_dirs(path@),
{
    let mut parents: Vec<String> = Vec::new();
    let mut current: String = path.to_owned();
    loop
        invariant_except_break
            texts(parents@) + parent_dirs(current@) == parent_dirs(path@),
        ensures
            texts(parents@) == parent_dirs(path@),
        decreases current@.len(),
    {
        let parent = path_parent(current.as_str());
        match next_parent(current.as_str(), parent) {
            None => {
                break ;
            },
            Some(p) => {
                assert(texts(parents@.push(p)) == texts(parents@) + seq![p@]);
                parents.push(p.clone());
                current = p;
            },
        }
    }
    parents
}

/// The steps that mount a share once its mount point stands: the share
/// itself at the mount point; or, with an overlay, the four directories of
/// the overlay, the share read only at `lower`, and the overlay at the mount
/// point.
pub open spec fn mount_ops(mount: VirtiofsMountView) -> Seq<OpView> {
    if mount.with_overlay {
        let layout = layout_of(mount.tag);
        seq![
            OpView::CreateOverlayDir { path: layout.base },
            OpView::CreateOverlayDir { path: layout.upper },
            OpView::CreateOverlayDir { path: layout.work },
            OpView::CreateOverlayDir { path: layout.lower },
            OpView::MountShare { tag: mount.tag, target: layout.lower, read_only: true },
            OpView::MountOverlay { target: mount.path, options: layout.options() },
        ]
    } else {
        seq![OpView::MountShare { tag: mount.tag, target: mount.path, read_only: false }]
    }
}

/// The steps that create `missing`, last item first.
pub open spec fn create_ops(missing: Seq<Seq<char>>) -> Seq<OpView> {
    Seq::new(missing.len(), |i: int| OpView::CreateDir { path: missing[missing.len() - 1 - i] })
}

/// All steps for one share, in order, once its parents are probed and
/// `missing` are those that do not exist, the nearest first: the missing
/// parents from the root downward, the mount point, and the mount.
pub open spec fn ops_for(mount: VirtiofsMountView, missing: Seq<Seq<char>>) -> Seq<OpView> {
    create_ops(missing) + seq![OpView::CreateDir { path: mount.path }] + mount_ops(mount)
}

/// Lists all steps for one share.
pub fn plan(mount: &VirtiofsMount, missing: &Vec<String>) -> (ops: Vec<Op>)
    ensures
        op_views(ops@) == ops_for(mount@, texts(missing@)),
{
    let mut ops: Vec<Op> = Vec::new();
    let n = missing.len();
    let mut i: usize = 0;
    while i < n
        invariant
            n == missing.len(),
            i <= n,
            ops.len() == i,
            forall|j: int| 0 <= j < i ==> (#[trigger] ops@[j])@ == create_ops(texts(missing@))[j],
        decreases n - i,
    {
        ops.push(Op::CreateDir { path: missing[n - 1 - i].clone() });
        i += 1;
    }
    ops.push(Op::CreateDir { path: mount.path.clone() });
    if mount.with_overlay {
        let layout = OverlayLayout::for_tag(mount.tag.as_str());
        let options = layout.options();
        ops.push(Op::CreateOverlayDir { path: layout.base });
        ops.push(Op::CreateOverlayDir { path: layout.upper });
        ops.push(Op::CreateOverlayDir { path: layout.work });
        ops.push(Op::CreateOverlayDir { path: layout.lower.clone() });
        ops.push(Op::MountShare { tag: mount.tag.clone(), target: layout.lower, read_only: true });
        ops.push(Op::MountOverlay { target: mount.path.clone(), options });
    } else {
        ops.push(
            Op::MountShare { tag: mount.tag.clone(), target: mount.path.clone(), read_only: false },
        );
    }
    ops
}

/// A run on plain values: where it stands among the shares and their steps.
pub enum RunView {
    /// The kernel's list of filesystem types is awaited.
    Checking { mounts: Seq<VirtiofsMountView> },
    /// The parents of the mount point of share `index` are probed, the
    /// nearest first; `at` is the one in hand, and `missing` are those found
    /// not to exist so far.
    Probing { mounts: Seq<VirtiofsMountView>, index: int, missing: Seq<Seq<char>>, at: int },
    /// The steps of share `index` are taken; `at` is the one in hand.
    Working { mounts: Seq<VirtiofsMountView>, index: int, missing: Seq<Seq<char>>, at: int },
    /// The run has ended.
    Finished { result: Result<(), MountErrorView> },
}

impl RunView {
    /// The run before anything is asked. Without shares there is nothing to
    /// do, and nothing is asked at all.
    pub open spec fn begin(mounts: Seq<VirtiofsMountView>) -> RunView {
        if mounts.len() == 0 {
            RunView::Finished { result: Ok(()) }
        } else {
            RunView::Checking { mounts }
        }
    }

    /// The run as it takes up share `index`: it probes the parents of the
    /// mount point, if there are any to create; after the last share it has
    /// ended well.
    pub open spec fn take_up(mounts: Seq<VirtiofsMountView>, index: int) -> RunView {
        if index >= mounts.len() {
            RunView::Finished { result: Ok(()) }
        } else if parent_dirs(mounts[index].path).len() > 0 {
            RunView::Probing { mounts, index, missing: Seq::empty(), at: 0 }
        } else {
            RunView::Working { mounts, index, missing: Seq::empty(), at: 0 }
        }
    }

    /// Whether the run stands at a share and a step that exist.
    pub open spec fn well_formed(self) -> bool {
        match self {
            RunView::Checking { mounts } => mounts.len() > 0,
            RunView::Probing { mounts, index, missing, at } => {
                &&& 0 <= index < mounts.len()
                &&& 0 <= at < parent_dirs(mounts[index].path).len()
            },
            RunView::Working { mounts, index, missing, at } => {
                &&& 0 <= index < mounts.len()
                &&& 0 <= at < ops_for(mounts[index], missing).len()
            },
            RunView::Finished { result } => true,
        }
    }

    /// What the caller is to do in this state.
    pub open spec fn action(self) -> ActionView {
        match self {
            RunView::Checking { mounts } => ActionView::Ask(RequestView::ReadFilesystems),
            RunView::Probing { mounts, index, missing, at } => ActionView::Ask(
                RequestView::Exists { path: parent_dirs(mounts[index].path)[at] },
            ),
            RunView::Working { mounts, index, missing, at } => ActionView::Ask(
                ops_for(mounts[index], missing)[at].request(),
            ),
            RunView::Finished { result } => ActionView::Finish(result),
        }
    }

    /// The state after `reply`. A reply that does not answer what was asked
    /// changes nothing.
    pub open spec fn step(self, reply: ReplyView) -> RunView {
        match self {
            RunView::Checking { mounts } => match reply {
                ReplyView::Filesystems(Some(list)) => if lists_virtiofs(list) {
                    RunView::take_up(mounts, 0)
                } else {
                    RunView::Finished { result: Err(MountErrorView::Unsupported) }
                },
                ReplyView::Filesystems(None) => RunView::Finished {
                    result: Err(MountErrorView::FilesystemsUnreadable),
                },
                _ => self,
            },
            RunView::Probing { mounts, index, missing, at } => match reply {
                ReplyView::Exists(present) => {
                    let parents = parent_dirs(mounts[index].path);
                    let missing = if present {
                        missing
                    } else {
                        missing.push(parents[at])
                    };
                    let probes = parents.len();
                    if at + 1 < probes {
                        RunView::Probing { mounts, index, missing, at: at + 1 }
                    } else {
                        RunView::Working { mounts, index, missing, at: 0 }
                    }
                },
                _ => self,
            },
            RunView::Working { mounts, index, missing, at } => {
                let ops = ops_for(mounts[index], missing);
                match ops[at].outcome(reply) {
                    Some(Ok(())) => if at + 1 < ops.len() {
                        RunView::Working { mounts, index, missing, at: at + 1 }
                    } else {
                        RunView::take_up(mounts, index + 1)
                    },
                    Some(Err(errno)) => RunView::Finished { result: Err(ops[at].failure(errno)) },
                    None => self,
                }
            },
            RunView::Finished { result } => self,
        }
    }

    /// The state after all of `replies`, in order.
    pub open spec fn after(self, replies: Seq<ReplyView>) -> RunView
        decreases replies.len(),
    {
        if replies.len() == 0 {
            self
        } else {
            self.step(replies[0]).after(replies.skip(1))
        }
    }
}

/// Where a run stands.
enum State {
    Checking,
    Probing { index: usize, parents: Vec<String>, missing: Vec<String>, at: usize },
    Working { index: usize, missing: Vec<String>, ops: Vec<Op>, at: usize },
    Finished { result: Result<(), MountError> },
}

/// The mounting of a list of shares, from the first question to the kernel
/// to the result.
pub struct MountRun {
    mounts: Vec<VirtiofsMount>,
    state: State,
}

impl View for MountRun {
    type V = RunView;

    closed spec fn view(&self) -> RunView {
        let mounts = mount_views(self.mounts@);
        match self.state {
            State::Checking => RunView::Checking { mounts },
            State::Probing { index, parents, missing, at } => RunView::Probing {
                mounts,
                index: index as int,
                missing: texts(missing@),
                at: at as int,
            },
            State::Working { index, missing, ops, at } => RunView::Working {
                mounts,
                index: index as int,
                missing: texts(missing@),
                at: at as int,
            },
            State::Finished { result } => RunView::Finished { result: result_view(result) },
        }
    }
}

impl MountRun {
    #[verifier::type_invariant]
    spec fn consistent(self) -> bool {
        match self.state {
            State::Checking => self.mounts@.len() > 0,
            State::Probing { index, parents, missing, at } => {
                &&& index < self.mounts@.len()
                &&& texts(parents@) == parent_dirs(self.mounts@[index as int]@.path)
                &&& at < parents@.len()
            },
            State::Working { index, missing, ops, at } => {
                &&& index < self.mounts@.len()
                &&& op_views(ops@) == ops_for(self.mounts@[index as int]@, texts(missing@))
                &&& at < ops@.len()
            },
            State::Finished { result } => true,
        }
    }

    /// The run as it takes up share `index`.
    fn take_up(mounts: Vec<VirtiofsMount>, index: usize) -> (run: MountRun)
        requires
            index <= mounts.len(),
        ensures
            run@ == RunView::take_up(mount_views(mounts@), index as int),
    {
        if index >= mounts.len() {
            return MountRun { mounts, state: State::Finished { result: Ok(()) } };
        }
        let parents = find_parents(mounts[index].path.as_str());
        let missing: Vec<String> = Vec::new();
        assert(texts(missing@) == Seq::<Seq<char>>::empty());
        if parents.len() > 0 {
            MountRun { mounts, state: State::Probing { index, parents, missing, at: 0 } }
        } else {
            let ops = plan(&mounts[index], &missing);
            assert(ops@.len() == op_views(ops@).len());
            MountRun { mounts, state: State::Working { index, missing, ops, at: 0 } }
        }
    }

    /// What the caller is to do now.
    pub fn action(&self) -> (action: Action)
        ensures
            self@.well_formed(),
            action@ == self@.action(),
    {
        proof {
            use_type_invariant(self);
        }
        match &self.state {
            State::Checking => Action::Ask(Request::ReadFilesystems),
            State::Probing { index, parents, missing, at } => {
                Action::Ask(Request::Exists { path: parents[*at].clone() })
            },
            State::Working { index, missing, ops, at } => {
                Action::Ask(ops[*at].request())
            },
            State::Finished { result } => match result {
                Ok(()) => Action::Finish(Ok(())),
                Err(e) => Action::Finish(Err(e.duplicate())),
            },
        }
    }

    /// Whether the run has ended.
    pub fn is_finished(&self) -> (finished: bool)
        ensures
            finished == (self@ is Finished),
    {
        match &self.state {
            State::Finished { result } => true,
            _ => false,
        }
    }

    /// The run after the kernel's `reply` to what `action` asked.
    pub fn step(self, reply: Reply) -> (next: MountRun)
        ensures
            next@ == self@.step(reply@),
            next@.well_formed(),
    {
        proof {
            use_type_invariant(&self);
        }
        let MountRun { mounts, state } = self;
        match state {
            State::Checking => match reply {
                Reply::Filesystems(Some(list)) => {
                    if supports_virtiofs(list.as_str()) {
                        MountRun::take_up(mounts, 0)
                    } else {
                        MountRun {
                            mounts,
                            state: State::Finished { result: Err(MountError::Unsupported) },
                        }
                    }
                },
                Reply::Filesystems(None) => MountRun {
                    mounts,
                    state: State::Finished { result: Err(MountError::FilesystemsUnreadable) },
                },
                _ => MountRun { mounts, state: State::Checking },
            },
            State::Probing { index, parents, missing, at } => match reply {
                Reply::Exists(present) => {
                    let mut missing = missing;
                    if !present {
                        assert(texts(missing@.push(parents@[at as int])) == texts(missing@).push(
                            parents@[at as int]@,
                        ));
                        missing.push(parents[at].clone());
                    }
                    let probes = parents.len();
                    if at + 1 < probes {
                        MountRun {
                            mounts,
                            state: State::Probing { index, parents, missing, at: at + 1 },
                        }
                    } else {
                        let ops = plan(&mounts[index], &missing);
                        assert(ops@.len() == op_views(ops@).len());
                        MountRun { mounts, state: State::Working { index, missing, ops, at: 0 } }
                    }
                },
                _ => MountRun { mounts, state: State::Probing { index, parents, missing, at } },
            },
            State::Working { index, missing, ops, at } => {
                let steps = ops.len();
                assert(index < mounts.len());
                match ops[at].outcome(&reply) {
                    Some(Ok(())) => {
                        if at + 1 < steps {
                            MountRun {
                                mounts,
                                state: State::Working { index, missing, ops, at: at + 1 },
                            }
                        } else {
                            MountRun::take_up(mounts, index + 1)
                        }
                    },
                    Some(Err(errno)) => {
                        let error = ops[at].failure(errno);
                        MountRun { mounts, state: State::Finished { result: Err(error) } }
                    },
                    None => MountRun { mounts, state: State::Working { index, missing, ops, at } },
                }
            },
            State::Finished { result } => MountRun { mounts, state: State::Finished { result } },
        }
    }
}

/// Begins to mount `mounts`, in order. What is returned is the run in its
/// first state: the caller takes its `action`, does it, and goes on with
/// `step` until the action is `Finish`.
pub fn mount_virtiofs_shares(mounts: &[VirtiofsMount]) -> (run: MountRun)
    ensures
        run@ == RunView::begin(mount_views(mounts@)),
        run@.well_formed(),
{
    let mut copy: Vec<VirtiofsMount> = Vec::new();
    let mut i: usize = 0;
    while i < mounts.len()
        invariant
            i <= mounts.len(),
            copy.len() == i,
            forall|j: int| 0 <= j < i ==> (#[trigger] copy@[j])@ == mounts@[j]@,
        decreases mounts.len() - i,
    {
        let mount = &mounts[i];
        copy.push(
            VirtiofsMount {
                tag: mount.tag.clone(),
                path: mount.path.clone(),
                with_overlay: mount.with_overlay,
            },
        );
        i += 1;
    }
    assert(mount_views(copy@) =~= mount_views(mounts@));
    if copy.len() == 0 {
        MountRun { mounts: copy, state: State::Finished { result: Ok(()) } }
    } else {
        MountRun { mounts: copy, state: State::Checking }
    }
}

impl RunView {
    /// The share that the run stands at, if it stands at one.
    pub open spec fn share(self) -> Option<int> {
        match self {
            RunView::Probing { mounts, index, missing, at } => Some(index),
            RunView::Working { mounts, index, missing, at } => Some(index),
            _ => None,
        }
    }

    /// The step that the run has in hand, where it is taking steps.
    pub open spec fn op(self) -> Option<OpView> {
        match self {
            RunView::Working { mounts, index, missing, at } => Some(
                ops_for(mounts[index], missing)[at],
            ),
            _ => None,
        }
    }

    /// How many steps of the share in hand are complete, where the run is
    /// taking steps.
    pub open spec fn taken(self) -> int {
        match self {
            RunView::Working { mounts, index, missing, at } => at,
            _ => 0,
        }
    }

    /// No more requests than this are made for `mount`: two for each parent
    /// of its mount point, one for the mount point, and those of the mount.
    pub open spec fn share_cost(mount: VirtiofsMountView) -> int {
        (2 * parent_dirs(mount.path).len() + 1 + mount_ops(mount).len()) as int
    }

    /// No more requests than this are made for the shares from `index` on.
    pub open spec fn cost_from(mounts: Seq<VirtiofsMountView>, index: int) -> int
        decreases mounts.len() - index,
    {
        if index < 0 || index >= mounts.len() {
            0
        } else {
            RunView::share_cost(mounts[index]) + RunView::cost_from(mounts, index + 1)
        }
    }

    /// No more requests than this are still to be answered before the run
    /// has ended.
    pub open spec fn remaining(self) -> int {
        match self {
            RunView::Checking { mounts } => 1 + RunView::cost_from(mounts, 0),
            RunView::Probing { mounts, index, missing, at } => 2 * (parent_dirs(
                mounts[index].path,
            ).len() - at) + missing.len() + 1 + mount_ops(mounts[index]).len() + RunView::cost_from(
                mounts,
                index + 1,
            ),
            RunView::Working { mounts, index, missing, at } => ops_for(mounts[index], missing).len()
                - at + RunView::cost_from(mounts, index + 1),
            RunView::Finished { result } => 0,
        }
    }

    /// Whether the run has failed.
    pub open spec fn failed(self) -> bool {
        self matches RunView::Finished { result } && result is Err
    }
}

/// A run begins well formed, and every reply leaves it so.
pub proof fn lemma_well_formed(mounts: Seq<VirtiofsMountView>, run: RunView, reply: ReplyView)
    requires
        run.well_formed(),
    ensures
        RunView::begin(mounts).well_formed(),
        run.step(reply).well_formed(),
{
    match run {
        RunView::Working { mounts, index, missing, at } => {
            lemma_take_up(mounts, index + 1);
        },
        RunView::Checking { mounts } => {
            lemma_take_up(mounts, 0);
        },
        _ => {},
    }
}

/// A run takes up a share well formed, at that share, and with no more to
/// come than that share and those behind it cost.
proof fn lemma_take_up(mounts: Seq<VirtiofsMountView>, index: int)
    requires
        0 <= index,
    ensures
        RunView::take_up(mounts, index).well_formed(),
        !RunView::take_up(mounts, index).failed(),
        RunView::take_up(mounts, index).share() matches Some(i) ==> i == index,
        0 <= RunView::take_up(mounts, index).remaining() <= RunView::cost_from(mounts, index),
{
    lemma_cost_from(mounts, index);
    lemma_cost_from(mounts, index + 1);
}

/// A cost is no negative number.
proof fn lemma_cost_from(mounts: Seq<VirtiofsMountView>, index: int)
    ensures
        0 <= RunView::cost_from(mounts, index),
    decreases mounts.len() - index,
{
    if 0 <= index < mounts.len() {
        lemma_cost_from(mounts, index + 1);
    }
}

/// A run comes to its end. A reply either leaves the run as it is, because
/// it does not answer what was asked, or brings it nearer to its end: the
/// number of requests that may still come, `remaining`, goes down. So a run
/// whose requests are answered has ended after `remaining` of them at most.
pub proof fn lemma_progress(run: RunView, reply: ReplyView)
    requires
        run.well_formed(),
    ensures
        run.remaining() >= 0,
        run is Finished <==> run.remaining() == 0,
        run.step(reply) == run || run.step(reply).remaining() < run.remaining(),
{
    match run {
        RunView::Checking { mounts } => {
            lemma_take_up(mounts, 0);
            lemma_cost_from(mounts, 0);
        },
        RunView::Probing { mounts, index, missing, at } => {
            lemma_cost_from(mounts, index + 1);
        },
        RunView::Working { mounts, index, missing, at } => {
            lemma_take_up(mounts, index + 1);
            lemma_cost_from(mounts, index + 1);
        },
        RunView::Finished { result } => {},
    }
}

/// A run that has ended stays as it is, whatever replies come, and asks
/// nothing more: its action is to finish with its result.
pub proof fn lemma_finished_is_final(run: RunView, replies: Seq<ReplyView>)
    requires
        run is Finished,
    ensures
        run.after(replies) == run,
        run.action() == ActionView::Finish(run->result),
    decreases replies.len(),
{
    if replies.len() > 0 {
        lemma_finished_is_final(run.step(replies[0]), replies.skip(1));
    }
}

/// The capability check comes before everything else. With shares to mount,
/// the first thing asked is the kernel's list of filesystem types. Where
/// that list has no entry for virtiofs, the run has failed with `Unsupported`
/// from then on, whatever replies follow: no directory is probed or created
/// and nothing is mounted, for any share.
pub proof fn lemma_capability_gate(
    mounts: Seq<VirtiofsMountView>,
    list: Seq<char>,
    later: Seq<ReplyView>,
)
    requires
        mounts.len() > 0,
        !lists_virtiofs(list),
    ensures
        RunView::begin(mounts).action() == ActionView::Ask(RequestView::ReadFilesystems),
        RunView::begin(mounts).after(seq![ReplyView::Filesystems(Some(list))] + later)
            == (RunView::Finished { result: Err(MountErrorView::Unsupported) }),
{
    let replies = seq![ReplyView::Filesystems(Some(list))] + later;
    assert(replies.skip(1) =~= later);
    lemma_finished_is_final(RunView::Finished { result: Err(MountErrorView::Unsupported) }, later);
}

/// Where the kernel's list of filesystem types cannot be read, the run has
/// failed from then on, and nothing more is asked.
pub proof fn lemma_unreadable_gate(mounts: Seq<VirtiofsMountView>, later: Seq<ReplyView>)
    requires
        mounts.len() > 0,
    ensures
        RunView::begin(mounts).after(seq![ReplyView::Filesystems(None)] + later) == (
        RunView::Finished { result: Err(MountErrorView::FilesystemsUnreadable) }),
{
    let replies = seq![ReplyView::Filesystems(None)] + later;
    assert(replies.skip(1) =~= later);
    lemma_finished_is_final(
        RunView::Finished { result: Err(MountErrorView::FilesystemsUnreadable) },
        later,
    );
}

/// The first failure ends the run. Where the step in hand fails, the run has
/// failed with that step's error from then on, whatever replies follow: the
/// rest of the share's steps and all later shares are skipped, and nothing
/// that was done before is undone.
pub proof fn lemma_failure_ends_run(run: RunView, errno: i32, later: Seq<ReplyView>)
    requires
        run is Working,
        !(run.op()->0.creates_dir() && errno == EEXIST),
    ensures
        run.after(seq![ReplyView::Failed(errno)] + later) == (RunView::Finished {
            result: Err(run.op()->0.failure(errno)),
        }),
{
    let replies = seq![ReplyView::Failed(errno)] + later;
    assert(replies.skip(1) =~= later);
    lemma_finished_is_final(
        RunView::Finished { result: Err(run.op()->0.failure(errno)) },
        later,
    );
}

/// Shares are mounted one at a time and in order. A reply moves the run to
/// another share only from the last step of a share, only where that step
/// is complete, and only to the share that follows. Within a share the steps
/// are taken one by one, each after the one before it is complete.
pub proof fn lemma_one_share_at_a_time(run: RunView, reply: ReplyView)
    requires
        run.well_formed(),
    ensures
        run is Checking ==> (run.step(reply).share() matches Some(j) ==> j == 0),
        run.share() matches Some(i) ==> (run.step(reply).share() matches Some(j) ==> j == i || j
            == i + 1),
        (run.share() matches Some(i) && run.step(reply).share() == Some(i + 1)) ==> {
            &&& run matches RunView::Working { mounts, index, missing, at }
            &&& at + 1 == ops_for(mounts[index], missing).len()
            &&& run.op()->0.outcome(reply) == Some(Ok::<(), i32>(()))
        },
        (run is Working && run.step(reply) is Working && run.share() == run.step(reply).share())
            ==> run.step(reply).taken() == run.taken() || (run.step(reply).taken() == run.taken()
            + 1 && run.op()->0.outcome(reply) == Some(Ok::<(), i32>(()))),
{
    match run {
        RunView::Working { mounts, index, missing, at } => {
            lemma_take_up(mounts, index + 1);
        },
        RunView::Checking { mounts } => {
            lemma_take_up(mounts, 0);
        },
        _ => {},
    }
}

/// `k` replies that a call succeeded.
pub open spec fn all_done(k: int) -> Seq<ReplyView> {
    Seq::new(k as nat, |i: int| ReplyView::Done)
}

/// The parents among `parents` that the answers in `present` report as
/// missing, in the order of the parents.
pub open spec fn missing_among(parents: Seq<Seq<char>>, present: Seq<bool>) -> Seq<Seq<char>>
    decreases parents.len(),
{
    if parents.len() == 0 || present.len() != parents.len() {
        Seq::empty()
    } else if present[0] {
        missing_among(parents.skip(1), present.skip(1))
    } else {
        seq![parents[0]] + missing_among(parents.skip(1), present.skip(1))
    }
}

/// The answers in `present` as replies.
pub open spec fn probe_replies(present: Seq<bool>) -> Seq<ReplyView> {
    Seq::new(present.len(), |i: int| ReplyView::Exists(present[i]))
}

/// The steps of a share are taken in the order of `ops_for`: from the step
/// in hand, `k` calls that succeed lead to the step `k` places further on.
pub proof fn lemma_steps_in_order(run: RunView, k: int)
    requires
        run.well_formed(),
        run matches RunView::Working { mounts, index, missing, at } && 0 <= k && at + k < ops_for(
            mounts[index],
            missing,
        ).len(),
    ensures
        run matches RunView::Working { mounts, index, missing, at } && run.after(all_done(k)) == (
        RunView::Working { mounts, index, missing, at: at + k }),
    decreases k,
{
    if k > 0 {
        assert(all_done(k)[0] == ReplyView::Done);
        assert(all_done(k).skip(1) =~= all_done(k - 1));
        lemma_steps_in_order(run.step(ReplyView::Done), k - 1);
    }
}

/// A share whose steps all succeed is followed by the next share: from the
/// step in hand, as many calls that succeed as there are steps left lead to
/// the run as it takes up the share that follows.
pub proof fn lemma_share_completes(run: RunView)
    requires
        run.well_formed(),
        run is Working,
    ensures
        run matches RunView::Working { mounts, index, missing, at } && run.after(
            all_done(ops_for(mounts[index], missing).len() - at),
        ) == RunView::take_up(mounts, index + 1),
{
    match run {
        RunView::Working { mounts, index, missing, at } => {
            let left = ops_for(mounts[index], missing).len() - at;
            lemma_steps_in_order(run, left - 1);
            lemma_after_then(run, all_done(left - 1), ReplyView::Done);
            assert(all_done(left - 1).push(ReplyView::Done) =~= all_done(left));
        },
        _ => {},
    }
}

/// Replies one after another: the state after `replies` and then `reply` is
/// the state after `replies`, stepped by `reply`.
pub proof fn lemma_after_then(run: RunView, replies: Seq<ReplyView>, reply: ReplyView)
    ensures
        run.after(replies.push(reply)) == run.after(replies).step(reply),
    decreases replies.len(),
{
    let all = replies.push(reply);
    if replies.len() == 0 {
        assert(all.skip(1) =~= replies);
        assert(all[0] == reply);
        assert(run.step(reply).after(all.skip(1)) == run.step(reply));
    } else {
        assert(all[0] == replies[0]);
        assert(all.skip(1) =~= replies.skip(1).push(reply));
        lemma_after_then(run.step(replies[0]), replies.skip(1), reply);
    }
}

/// The parents of a mount point are probed the nearest first, and those
/// that are missing are then created from the root downward. From the
/// parent in hand, the answers for it and for all parents behind it lead to
/// the first step of the share, with the parents that they report missing
/// added to those found missing before.
pub proof fn lemma_parents_probed(run: RunView, present: Seq<bool>)
    requires
        run.well_formed(),
        run matches RunView::Probing { mounts, index, missing, at } && present.len()
            == parent_dirs(mounts[index].path).len() - at,
    ensures
        run matches RunView::Probing { mounts, index, missing, at } && run.after(
            probe_replies(present),
        ) == (RunView::Working {
            mounts,
            index,
            missing: missing + missing_among(parent_dirs(mounts[index].path).skip(at), present),
            at: 0,
        }),
    decreases present.len(),
{
    match run {
        RunView::Probing { mounts, index, missing, at } => {
            let parents = parent_dirs(mounts[index].path);
            let left = parents.skip(at);
            let replies = probe_replies(present);
            let next = run.step(replies[0]);
            assert(replies[0] == ReplyView::Exists(present[0]));
            assert(replies.skip(1) =~= probe_replies(present.skip(1)));
            assert(left[0] == parents[at]);
            assert(left.skip(1) =~= parents.skip(at + 1));
            let found = if present[0] {
                missing
            } else {
                missing.push(parents[at])
            };
            if at + 1 < parents.len() {
                lemma_parents_probed(next, present.skip(1));
                assert(found + missing_among(left.skip(1), present.skip(1)) =~= missing
                    + missing_among(left, present));
            } else {
                assert(missing_among(left.skip(1), present.skip(1)) =~= Seq::<Seq<char>>::empty());
                assert(found =~= missing + missing_among(left, present));
                assert(next.after(replies.skip(1)) == next);
            }
        },
        _ => {},
    }
}

/// Creating a directory is idempotent: where the step in hand creates a
/// directory, the reply that the directory exists already counts as the
/// reply that it was created. The run goes on as it would have, and has not
/// failed.
pub proof fn lemma_existing_dir_counts(run: RunView)
    requires
        run.well_formed(),
        run is Working,
        run.op()->0.creates_dir(),
    ensures
        run.step(ReplyView::Failed(EEXIST)) == run.step(ReplyView::Done),
        !run.step(ReplyView::Failed(EEXIST)).failed(),
{
    match run {
        RunView::Working { mounts, index, missing, at } => {
            lemma_take_up(mounts, index + 1);
        },
        _ => {},
    }
}

} // verus!
