//! What is asked of the host, and what it replies.

use crate::strings;
use crate::text;
use vstd::prelude::*;

verus! {

/// What an index asks of the host.
pub enum Request {
    /// The text of the file at this path.
    ReadFile(String),
    /// The paths of the files below this directory, relative to it.
    ListFiles(String),
}

/// What the host replies.
pub enum Reply {
    /// The text of the file, if it could be read.
    File(Option<String>),
    /// The paths of the files.
    Files(Vec<String>),
}

/// What a `Request` asks.
pub enum RequestView {
    ReadFile(Seq<char>),
    ListFiles(Seq<char>),
}

/// What a `Reply` says.
pub enum ReplyView {
    File(Option<Seq<char>>),
    Files(Seq<Seq<char>>),
}

impl View for Request {
    type V = RequestView;

    open spec fn view(&self) -> RequestView {
        match *self {
            Request::ReadFile(path) => RequestView::ReadFile(path@),
            Request::ListFiles(root) => RequestView::ListFiles(root@),
        }
    }
}

impl View for Reply {
    type V = ReplyView;

    open spec fn view(&self) -> ReplyView {
        match *self {
            Reply::File(content) => ReplyView::File(text::opt_text(content)),
            Reply::Files(files) => ReplyView::Files(text::texts(files@)),
        }
    }
}

/// What `r` asks, if anything.
pub open spec fn opt_request(r: Option<Request>) -> Option<RequestView> {
    match r {
        Some(q) => Some(q@),
        None => None,
    }
}

/// The text that `r` brings, unless it is empty. A list of files brings none.
pub open spec fn reply_text(r: ReplyView) -> Option<Seq<char>> {
    match r {
        ReplyView::File(Some(content)) => if content.len() > 0 {
            Some(content)
        } else {
            None
        },
        _ => None,
    }
}

/// The files that `r` lists. A text lists none.
pub open spec fn reply_files(r: ReplyView) -> Seq<Seq<char>> {
    match r {
        ReplyView::Files(files) => files,
        ReplyView::File(_) => Seq::empty(),
    }
}

/// A host that does not change: what the readable files hold, and which files
/// lie below the directories.
pub struct HostView {
    pub files: Map<Seq<char>, Seq<char>>,
    pub listings: Map<Seq<char>, Seq<Seq<char>>>,
}

/// What `host` replies to `request`.
pub open spec fn answer(host: HostView, request: RequestView) -> ReplyView {
    match request {
        RequestView::ReadFile(path) => ReplyView::File(
            if host.files.contains_key(path) {
                Some(host.files[path])
            } else {
                None
            },
        ),
        RequestView::ListFiles(root) => ReplyView::Files(
            if host.listings.contains_key(root) {
                host.listings[root]
            } else {
                Seq::empty()
            },
        ),
    }
}

/// The text of the file at `path`, unless it is empty or cannot be read.
pub open spec fn read(host: HostView, path: Seq<char>) -> Option<Seq<char>> {
    reply_text(answer(host, RequestView::ReadFile(path)))
}

/// The files below `root`.
pub open spec fn list(host: HostView, root: Seq<char>) -> Seq<Seq<char>> {
    reply_files(answer(host, RequestView::ListFiles(root)))
}

/// The text that `reply` brings, unless it is empty.
pub(crate) fn text_of_reply(reply: Reply) -> (r: Option<String>)
    ensures
        text::opt_text(r) == reply_text(reply@),
{
    match reply {
        Reply::File(Some(content)) => if content.as_str().is_empty() {
            None
        } else {
            Some(content)
        },
        _ => None,
    }
}

/// The files that `reply` lists.
pub(crate) fn files_of_reply(reply: Reply) -> (r: Vec<String>)
    ensures
        text::texts(r@) == reply_files(reply@),
{
    match reply {
        Reply::Files(files) => files,
        Reply::File(_) => {
            let none: Vec<String> = Vec::new();
            assert(text::texts(none@) == Seq::<Seq<char>>::empty());
            none
        },
    }
}

/// The paths in a listing: its lines, trimmed, without the empty ones.
pub open spec fn listed_paths(listing: Seq<char>) -> Seq<Seq<char>> {
    text::nonempty(text::all_trimmed(text::lines_of(listing)))
}

/// The paths in a listing: its lines, trimmed, without the empty ones.
pub fn parse_file_list(listing: &str) -> (r: Vec<String>)
    ensures
        text::texts(r@) == listed_paths(listing@),
{
    let lines = strings::lines(listing);
    let lines = strings::trim_all(&lines);
    strings::drop_empty(&lines)
}

} // verus!
