//! Watching the template directory: which directory, and what each change is reported as.
use vstd::prelude::*;
use std::path::PathBuf;
use crate::text::{extend_all, from_chars, to_chars};

verus! {

/// `std::path::PathBuf`, a file system path that the watcher stores and hands back unread.
#[verifier::external_type_specification]
#[verifier::external_body]
pub struct ExPathBuf(PathBuf);

/// Watches the files under a directory.
pub struct FileWatcher {
    root_path: PathBuf,
}

/// The kinds of file system change that a watcher tells apart.
pub enum WatchEventKind {
    Modify,
    Create,
    Other,
}

/// The line a change is reported with, given the change and its first path (as printed for
/// debugging): a modified or created file with a path is reported; anything else is not.
pub open spec fn watch_notice(kind: WatchEventKind, path: Option<Seq<char>>) -> Option<Seq<char>> {
    match (kind, path) {
        (WatchEventKind::Modify, Some(p)) => Some("📝 File modified: "@ + p),
        (WatchEventKind::Create, Some(p)) => Some("📄 File created: "@ + p),
        _ => None,
    }
}

impl FileWatcher {
    /// The watched directory.
    pub closed spec fn root(&self) -> PathBuf {
        self.root_path
    }

    /// A watcher for the files under `root_path`.
    pub fn new(root_path: PathBuf) -> (r: Self)
        ensures
            r.root() == root_path,
    {
        FileWatcher { root_path }
    }

    /// The watched directory.
    pub fn root_path(&self) -> (r: &PathBuf)
        ensures
            *r == self.root(),
    {
        &self.root_path
    }
}

/// The line a change is reported with, if any.
pub fn describe_watch_event(kind: WatchEventKind, first_path: Option<&str>) -> (r: Option<String>)
    ensures
        match first_path {
            Some(p) => match r {
                Some(s) => watch_notice(kind, Some(p@)) == Some(s@),
                None => watch_notice(kind, Some(p@)) is None,
            },
            None => match r {
                Some(s) => watch_notice(kind, None) == Some(s@),
                None => watch_notice(kind, None) is None,
            },
        },
{
    match (kind, first_path) {
        (WatchEventKind::Modify, Some(p)) => {
            let mut out = to_chars("📝 File modified: ");
            extend_all(&mut out, &to_chars(p));
            Some(from_chars(&out, 0, out.len()))
        },
        (WatchEventKind::Create, Some(p)) => {
            let mut out = to_chars("📄 File created: ");
            extend_all(&mut out, &to_chars(p));
            Some(from_chars(&out, 0, out.len()))
        },
        _ => None,
    }
}

/// The line a failure to receive changes is reported with, given the failure as printed for
/// debugging.
pub fn describe_watch_error(err: &str) -> (r: String)
    ensures
        r@ == "⚠️ Watch error: "@ + err@,
{
    let mut out = to_chars("⚠️ Watch error: ");
    extend_all(&mut out, &to_chars(err));
    from_chars(&out, 0, out.len())
}

} // verus!
