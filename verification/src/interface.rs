//! How the bot answers the image commands (`入典` stores an image, `典` shows a
//! random one, `出典` removes one) and `!ghci`: a state machine whose actions the
//! caller performs, handing back what came of each.
use vstd::prelude::*;
use vstd::utf8::{decode_utf8, valid_utf8};

use crate::ghci::{
    clean_ghci_output, shown_lines, string_from_utf8, CommandOutput, LIMIT_BYTE,
};
use crate::image::{
    choose_image, compute_md5sum, get_all_md5, group_dir, image_check_defined, image_file_path,
    image_group_dir, image_names, image_path, is_image, looks_like_image, lower_hex, md5_digest,
    gif_signature, jpeg_signature, png_signature, cut_from_some_name, lemma_image_names_from,
};
use crate::number::decimal;
use crate::reply::Reply;
use crate::text::{
    chars_of, contains_chars, has_prefix, lines, occurs_at, occurs_in, push_range, range_equals,
    string_from_chars,
};

verus! {

/// Where the handling of a message stands.
pub enum ListenState {
    /// Nothing is left to do.
    Done,
    /// Storing: waiting for the image to download.
    AddFetching { group: i64 },
    /// Storing: waiting to learn whether the group's directory exists.
    AddCheckingDir { group: i64, image: Vec<u8> },
    /// Storing: waiting for the group's directory to be made.
    AddCreatingDir { group: i64, image: Vec<u8> },
    /// Storing: waiting to learn whether the image's file exists.
    AddCheckingFile { group: i64, image: Vec<u8>, path: String },
    /// Storing: waiting for the image's file to be written.
    AddWriting,
    /// Showing: waiting for the number of entries of the group's directory.
    DrawCounting { group: i64 },
    /// Showing: waiting for the file names in the group's directory.
    DrawListing { group: i64 },
    /// Removing: waiting to learn whether the sender is an admin of the group.
    RemoveCheckingAdmin { group: i64, url: String },
    /// Removing: waiting for the image to download.
    RemoveFetching { group: i64 },
    /// Removing: waiting for the image's file to be removed.
    RemoveDeleting,
    /// GHCi: waiting for the notice about the empty expression to go out.
    GhciNoticed { expr: String },
    /// GHCi: waiting for GHCi to finish.
    GhciRunning,
    /// GHCi: waiting for the notice about the long output to go out.
    GhciLong { message: String, stderr: Vec<u8> },
    /// GHCi: waiting for the shown output to go out.
    GhciShown { stderr: Vec<u8> },
    /// Waiting for the last reply to go out.
    Closing,
}

/// What the caller is to do next.
pub enum ListenAction {
    /// Stop: the message was handled (`true`) or is not for this handler.
    Finish(bool),
    /// Stop with an error.
    Fail,
    /// Download the file at the URL; hand back `Downloaded`.
    Download(String),
    /// Send the reply; hand back `Completed`.
    Reply(Reply),
    /// Upload the image and send it with the reply; hand back `Completed`.
    ReplyWithImage(Reply, Vec<u8>),
    /// Find out whether the directory can be read; hand back `Exists`.
    ProbeDirectory(String),
    /// Make the directory and its parents; hand back `Completed`.
    CreateDirectory(String),
    /// Find out whether the file can be opened; hand back `Exists`.
    ProbeFile(String),
    /// Create the file and write the bytes into it; hand back `Completed`.
    WriteFile(String, Vec<u8>),
    /// Count the entries of the directory; hand back `EntryCount`.
    CountEntries(String),
    /// List the names of the files in the directory; hand back `FileNames`.
    ListFileNames(String),
    /// Upload the image in the file and send it; hand back `Completed`.
    SendImageFile(String),
    /// Find out whether the sender is an admin of the group; hand back `IsAdmin`.
    CheckAdmin,
    /// Remove the file; hand back `Removed`.
    RemoveFile(String),
    /// Run GHCi on the expression; hand back `GhciFinished`.
    RunGhci(String),
}

/// What came of an action.
pub enum ListenEvent {
    /// The reply was sent, the directory made, the file written or sent.
    Completed,
    /// The downloaded bytes, or `None` where the download failed.
    Downloaded(Option<Vec<u8>>),
    /// Whether the directory or file exists.
    Exists(bool),
    /// The number of entries, or `None` where the directory cannot be read.
    EntryCount(Option<usize>),
    /// The file names (those that are valid Unicode).
    FileNames(Vec<String>),
    /// Whether the sender is an admin of the group.
    IsAdmin(bool),
    /// Whether the file was removed.
    Removed(bool),
    /// What GHCi left.
    GhciFinished(CommandOutput),
}

/// The URL of the first image of the message, if it has one and it is not empty.
pub open spec fn first_image_url(urls: Seq<Seq<char>>) -> Option<Seq<char>> {
    if urls.len() > 0 && urls[0].len() > 0 {
        Some(urls[0])
    } else {
        None
    }
}

/// The name under which an image is stored: its MD5 digest in hexadecimal.
pub open spec fn image_name(image: Seq<u8>) -> Seq<char> {
    lower_hex(md5_digest(image))
}

/// How handling begins, for a message with text `content` in `group` whose images
/// have the URLs `urls`: `入典` in the text stores the first image, the text `典`
/// shows a stored image, `出典` in the text removes the stored copy of the first
/// image, and a text that begins with `!ghci` runs GHCi on the rest.
pub open spec fn listen_opening(
    content: Seq<char>,
    group: i64,
    urls: Seq<Seq<char>>,
    next: ListenState,
    action: ListenAction,
) -> bool {
    if occurs_in(content, "入典"@) {
        match first_image_url(urls) {
            None => next is Done && action == ListenAction::Finish(true),
            Some(url) => next == ListenState::AddFetching { group } && (action matches ListenAction::Download(
                u,
            ) && u@ == url),
        }
    } else if content == "典"@ {
        next == ListenState::DrawCounting { group } && (action matches ListenAction::CountEntries(
            d,
        ) && d@ == group_dir(group))
    } else if occurs_in(content, "出典"@) {
        match first_image_url(urls) {
            None => next is Done && action == ListenAction::Finish(true),
            Some(url) => (next matches ListenState::RemoveCheckingAdmin { group: g, url: u }
                && g == group && u@ == url) && action is CheckAdmin,
        }
    } else if has_prefix(content, "!ghci"@) {
        let expr = content.skip(5);
        if expr.len() == 0 {
            (next matches ListenState::GhciNoticed { expr: e } && e@ == expr) && action
                == ListenAction::Reply(Reply::EmptyExpression)
        } else {
            next is GhciRunning && (action matches ListenAction::RunGhci(e) && e@ == expr)
        }
    } else {
        next is Done && action == ListenAction::Finish(false)
    }
}

/// The step that follows an unexpected event: stop with an error.
pub open spec fn failed(next: ListenState, action: ListenAction) -> bool {
    next is Done && action is Fail
}

/// Where the caller's step may be taken: downloaded bytes of an image to store
/// must be long enough for the image check, and a group's directory being drawn
/// from must hold at least one image name.
pub open spec fn listen_step_defined(state: ListenState, event: ListenEvent) -> bool {
    &&& state is AddFetching ==> (event matches ListenEvent::Downloaded(Some(buf))
        ==> image_check_defined(buf@))
    &&& state is DrawListing ==> (event matches ListenEvent::FileNames(names) ==> image_names(
        names.deep_view(),
    ).len() > 0)
}

/// One step of handling: from `state`, on `event`, to `next`, doing `action`.
pub open spec fn listen_transition(
    state: ListenState,
    event: ListenEvent,
    next: ListenState,
    action: ListenAction,
) -> bool {
    match state {
        ListenState::AddFetching { group } => match event {
            ListenEvent::Downloaded(None) => next is Closing && action == ListenAction::Reply(
                Reply::PullFailed,
            ),
            ListenEvent::Downloaded(Some(buf)) => if looks_like_image(buf@) {
                next == ListenState::AddCheckingDir { group, image: buf } && (action matches ListenAction::ProbeDirectory(
                    d,
                ) && d@ == group_dir(group))
            } else {
                next is Closing && action == ListenAction::Reply(Reply::UnsupportedFormat)
            },
            _ => failed(next, action),
        },
        ListenState::AddCheckingDir { group, image } => match event {
            ListenEvent::Exists(true) => (next matches ListenState::AddCheckingFile {
                group: g,
                image: i,
                path,
            } && g == group && i == image && path@ == image_path(group, image_name(image@)))
                && (action matches ListenAction::ProbeFile(p) && p@ == image_path(
                group,
                image_name(image@),
            )),
            ListenEvent::Exists(false) => next == ListenState::AddCreatingDir { group, image }
                && (action matches ListenAction::CreateDirectory(d) && d@ == group_dir(group)),
            _ => failed(next, action),
        },
        ListenState::AddCreatingDir { group, image } => match event {
            ListenEvent::Completed => (next matches ListenState::AddCheckingFile {
                group: g,
                image: i,
                path,
            } && g == group && i == image && path@ == image_path(group, image_name(image@)))
                && (action matches ListenAction::ProbeFile(p) && p@ == image_path(
                group,
                image_name(image@),
            )),
            _ => failed(next, action),
        },
        ListenState::AddCheckingFile { group, image, path } => match event {
            ListenEvent::Exists(true) => next is Closing && action == ListenAction::ReplyWithImage(
                Reply::DuplicateImage,
                image,
            ),
            ListenEvent::Exists(false) => next is AddWriting && action == ListenAction::WriteFile(
                path,
                image,
            ),
            _ => failed(next, action),
        },
        ListenState::AddWriting => match event {
            ListenEvent::Completed => next is Closing && action == ListenAction::Reply(
                Reply::AddSuccess,
            ),
            _ => failed(next, action),
        },
        ListenState::DrawCounting { group } => match event {
            ListenEvent::EntryCount(count) => if count is None || count == Some(0usize) {
                next is Closing && action == ListenAction::Reply(Reply::GalleryEmpty)
            } else {
                next == ListenState::DrawListing { group } && (action matches ListenAction::ListFileNames(
                    d,
                ) && d@ == group_dir(group))
            },
            _ => failed(next, action),
        },
        ListenState::DrawListing { group } => match event {
            ListenEvent::FileNames(names) => next is Closing && (action matches ListenAction::SendImageFile(
                p,
            ) && exists|i: int|
                0 <= i < image_names(names.deep_view()).len() && p@ == image_path(
                    group,
                    #[trigger] image_names(names.deep_view())[i],
                )),
            _ => failed(next, action),
        },
        ListenState::RemoveCheckingAdmin { group, url } => match event {
            ListenEvent::IsAdmin(false) => next is Closing && action == ListenAction::Reply(
                Reply::AdminOnlyRemove,
            ),
            ListenEvent::IsAdmin(true) => next == ListenState::RemoveFetching { group } && action
                == ListenAction::Download(url),
            _ => failed(next, action),
        },
        ListenState::RemoveFetching { group } => match event {
            ListenEvent::Downloaded(Some(buf)) => next is RemoveDeleting && (action matches ListenAction::RemoveFile(
                p,
            ) && p@ == image_path(group, image_name(buf@))),
            _ => failed(next, action),
        },
        ListenState::RemoveDeleting => match event {
            ListenEvent::Removed(true) => next is Closing && action == ListenAction::Reply(
                Reply::RemoveSuccess,
            ),
            ListenEvent::Removed(false) => next is Closing && action == ListenAction::Reply(
                Reply::RemoveFailed,
            ),
            _ => failed(next, action),
        },
        ListenState::GhciNoticed { expr } => match event {
            ListenEvent::Completed => next is GhciRunning && action == ListenAction::RunGhci(expr),
            _ => failed(next, action),
        },
        ListenState::GhciRunning => match event {
            ListenEvent::GhciFinished(out) => if !out.success {
                next is Closing && action == ListenAction::Reply(Reply::Timeout)
            } else if !valid_utf8(out.stdout@) {
                failed(next, action)
            } else if out.stdout@.len() >= LIMIT_BYTE {
                (next matches ListenState::GhciLong { message, stderr } && message@ == decode_utf8(
                    out.stdout@,
                ) && stderr == out.stderr) && action == ListenAction::Reply(Reply::OutputTooLong)
            } else {
                next == ListenState::GhciShown { stderr: out.stderr } && (action matches ListenAction::Reply(
                    Reply::Text(t),
                ) && t@ == shown_lines(lines(decode_utf8(out.stdout@))))
            },
            _ => failed(next, action),
        },
        ListenState::GhciLong { message, stderr } => match event {
            ListenEvent::Completed => next == ListenState::GhciShown { stderr } && (action matches ListenAction::Reply(
                Reply::Text(t),
            ) && t@ == shown_lines(lines(message@))),
            _ => failed(next, action),
        },
        ListenState::GhciShown { stderr } => match event {
            ListenEvent::Completed => if valid_utf8(stderr@) {
                next is Closing && (action matches ListenAction::Reply(Reply::Text(t)) && t@
                    == decode_utf8(stderr@))
            } else {
                failed(next, action)
            },
            _ => failed(next, action),
        },
        ListenState::Closing => match event {
            ListenEvent::Completed => next is Done && action == ListenAction::Finish(true),
            _ => failed(next, action),
        },
        _ => failed(next, action),
    }
}

/// What the states carry: an image on its way to being stored is an image, and
/// the file it will be stored in is named by its digest.
pub open spec fn listen_state_ok(state: ListenState) -> bool {
    match state {
        ListenState::AddCheckingDir { group, image } => looks_like_image(image@),
        ListenState::AddCreatingDir { group, image } => looks_like_image(image@),
        ListenState::AddCheckingFile { group, image, path } => looks_like_image(image@) && path@
            == image_path(group, image_name(image@)),
        _ => true,
    }
}

/// Every step keeps the states sound, and every file that handling writes holds
/// an image and is named by the image's digest.
pub proof fn lemma_stored_files_are_images(
    state: ListenState,
    event: ListenEvent,
    next: ListenState,
    action: ListenAction,
)
    requires
        listen_state_ok(state),
        listen_transition(state, event, next, action),
    ensures
        listen_state_ok(next),
        action matches ListenAction::WriteFile(path, bytes) ==> looks_like_image(bytes@) && exists|
            group: i64,
        | path@ == image_path(group, image_name(bytes@)),
{
    if let ListenAction::WriteFile(path, bytes) = action {
        if let ListenState::AddCheckingFile { group, image, path: p } = state {
            assert(path@ == image_path(group, image_name(bytes@)));
        }
    }
}

/// An image is written only to a file that was just found not to exist: a stored
/// image with the same digest is never written over.
pub proof fn lemma_no_duplicate_writes(
    state: ListenState,
    event: ListenEvent,
    next: ListenState,
    action: ListenAction,
)
    requires
        listen_transition(state, event, next, action),
        action is WriteFile,
    ensures
        state matches ListenState::AddCheckingFile { path, image, .. } && event
            == ListenEvent::Exists(false) && action == ListenAction::WriteFile(path, image),
{
}

/// Handling begins in a sound state, and never by removing a file or by
/// waiting for a download of an image to remove.
pub proof fn lemma_opening_is_sound(
    content: Seq<char>,
    group: i64,
    urls: Seq<Seq<char>>,
    next: ListenState,
    action: ListenAction,
)
    requires
        listen_opening(content, group, urls, next, action),
    ensures
        listen_state_ok(next),
        !(next is RemoveFetching),
        !(action is RemoveFile),
        !(action is WriteFile),
{
}

/// A stored image is removed only in the step right after the sender was found
/// to be an admin of the group.
pub proof fn lemma_removal_needs_admin(
    s0: ListenState,
    e0: ListenEvent,
    s1: ListenState,
    a0: ListenAction,
    e1: ListenEvent,
    s2: ListenState,
    a1: ListenAction,
)
    requires
        listen_transition(s0, e0, s1, a0),
        listen_transition(s1, e1, s2, a1),
        a1 is RemoveFile,
    ensures
        s0 is RemoveCheckingAdmin,
        e0 == ListenEvent::IsAdmin(true),
{
}


/// The path `images/<group>/<name>.image`, written out.
pub open spec fn store_path(group: i64, name: Seq<char>) -> Seq<char> {
    "images/"@ + decimal(group as int) + "/"@ + name + ".image"@
}

/// `store_path` is where the image store keeps a file.
proof fn lemma_store_path(group: i64, name: Seq<char>)
    ensures
        image_path(group, name) == store_path(group, name),
        group_dir(group) == "images/"@ + decimal(group as int),
{
    reveal_strlit("images");
    reveal_strlit("images/");
    reveal_strlit("/");
    assert(image_path(group, name) =~= store_path(group, name));
    assert(group_dir(group) =~= "images/"@ + decimal(group as int));
}

/// Storing: a downloaded buffer that begins with the GIF (`47 49 46`), JPEG
/// (`FF D8 FF`) or PNG (`89 50 4E 47 0D 0A 1A 0A`) signature goes on to the
/// group's directory `images/<group>`, carried unchanged; any other buffer is
/// answered as an unsupported format and nothing is stored.
pub proof fn lemma_store_accepts_exactly_images(
    group: i64,
    buf: Vec<u8>,
    next: ListenState,
    action: ListenAction,
)
    requires
        listen_transition(
            (ListenState::AddFetching { group }),
            ListenEvent::Downloaded(Some(buf)),
            next,
            action,
        ),
    ensures
        ({
            let b = buf@;
            let signed = (b.len() >= 3 && b[0] == 0x47u8 && b[1] == 0x49u8 && b[2] == 0x46u8) || (
            b.len() >= 3 && b[0] == 0xFFu8 && b[1] == 0xD8u8 && b[2] == 0xFFu8) || (b.len() >= 8
                && b[0] == 0x89u8 && b[1] == 0x50u8 && b[2] == 0x4Eu8 && b[3] == 0x47u8 && b[4]
                == 0x0Du8 && b[5] == 0x0Au8 && b[6] == 0x1Au8 && b[7] == 0x0Au8);
            &&& signed ==> next == (ListenState::AddCheckingDir { group, image: buf }) && (
            action matches ListenAction::ProbeDirectory(d) && d@ == "images/"@ + decimal(
                group as int,
            ))
            &&& !signed ==> next is Closing && action == ListenAction::Reply(
                Reply::UnsupportedFormat,
            )
        }),
{
    let b = buf@;
    lemma_store_path(group, seq![]);
    assert(b.len() >= 3 ==> (b.take(3) == gif_signature() <==> (b[0] == 0x47u8 && b[1] == 0x49u8
        && b[2] == 0x46u8))) by {
        if b.len() >= 3 && b[0] == 0x47u8 && b[1] == 0x49u8 && b[2] == 0x46u8 {
            assert(b.take(3) =~= gif_signature());
        }
        if b.len() >= 3 && b.take(3) == gif_signature() {
            assert(b.take(3)[0] == b[0] && b.take(3)[1] == b[1] && b.take(3)[2] == b[2]);
        }
    }
    assert(b.len() >= 3 ==> (b.take(3) == jpeg_signature() <==> (b[0] == 0xFFu8 && b[1]
        == 0xD8u8 && b[2] == 0xFFu8))) by {
        if b.len() >= 3 && b[0] == 0xFFu8 && b[1] == 0xD8u8 && b[2] == 0xFFu8 {
            assert(b.take(3) =~= jpeg_signature());
        }
        if b.len() >= 3 && b.take(3) == jpeg_signature() {
            assert(b.take(3)[0] == b[0] && b.take(3)[1] == b[1] && b.take(3)[2] == b[2]);
        }
    }
    assert(b.len() >= 8 ==> (b.take(8) == png_signature() <==> (b[0] == 0x89u8 && b[1]
        == 0x50u8 && b[2] == 0x4Eu8 && b[3] == 0x47u8 && b[4] == 0x0Du8 && b[5] == 0x0Au8 && b[6]
        == 0x1Au8 && b[7] == 0x0Au8))) by {
        if b.len() >= 8 && b[0] == 0x89u8 && b[1] == 0x50u8 && b[2] == 0x4Eu8 && b[3] == 0x47u8
            && b[4] == 0x0Du8 && b[5] == 0x0Au8 && b[6] == 0x1Au8 && b[7] == 0x0Au8 {
            assert(b.take(8) =~= png_signature());
        }
        if b.len() >= 8 && b.take(8) == png_signature() {
            assert(b.take(8)[0] == b[0] && b.take(8)[1] == b[1] && b.take(8)[2] == b[2]);
            assert(b.take(8)[3] == b[3] && b.take(8)[4] == b[4] && b.take(8)[5] == b[5]);
            assert(b.take(8)[6] == b[6] && b.take(8)[7] == b[7]);
        }
    }
}

/// Storing and removing agree on names: the file that storing downloaded bytes
/// `b` probes and writes, and the file that removing on the same bytes deletes,
/// are both `images/<group>/<md5 of all of b, in lowercase hex>.image`.
pub proof fn lemma_store_and_remove_same_file(
    group: i64,
    buf: Vec<u8>,
    stored: ListenState,
    probe: ListenAction,
    removal: ListenState,
    remove: ListenAction,
)
    requires
        listen_transition(
            (ListenState::AddCheckingDir { group, image: buf }),
            ListenEvent::Exists(true),
            stored,
            probe,
        ),
        listen_transition(
            (ListenState::RemoveFetching { group }),
            ListenEvent::Downloaded(Some(buf)),
            removal,
            remove,
        ),
    ensures
        stored matches (ListenState::AddCheckingFile { path, image, .. }) && image == buf && path@
            == store_path(group, lower_hex(md5_digest(buf@))),
        probe matches ListenAction::ProbeFile(p) && p@ == store_path(
            group,
            lower_hex(md5_digest(buf@)),
        ),
        remove matches ListenAction::RemoveFile(p) && p@ == store_path(
            group,
            lower_hex(md5_digest(buf@)),
        ),
        (removal is RemoveDeleting),
{
    lemma_store_path(group, lower_hex(md5_digest(buf@)));
}

/// Showing: the gallery is reported empty exactly when its directory cannot be
/// read or has no entries; any positive count goes on to list `images/<group>`.
pub proof fn lemma_draw_empty_exactly_when_no_entries(
    group: i64,
    count: Option<usize>,
    next: ListenState,
    action: ListenAction,
)
    requires
        listen_transition(
            (ListenState::DrawCounting { group }),
            ListenEvent::EntryCount(count),
            next,
            action,
        ),
    ensures
        (count matches Some(n) && n > 0) ==> (next == (ListenState::DrawListing { group }) && (
        action matches ListenAction::ListFileNames(d) && d@ == "images/"@ + decimal(group as int))),
        !(count matches Some(n) && n > 0) ==> (next is Closing && action == ListenAction::Reply(
            Reply::GalleryEmpty,
        )),
{
    lemma_store_path(group, seq![]);
}

/// How a message is routed: `入典` anywhere stores the first image (when the
/// message has one with a URL), the exact text `典` shows an image of the group,
/// `出典` anywhere removes the first image's stored copy after asking whether the
/// sender is an admin, and a text beginning `!ghci` runs GHCi on what follows
/// those five characters; a message with none of these is not handled.
pub proof fn lemma_opening_routes(
    content: Seq<char>,
    group: i64,
    urls: Seq<Seq<char>>,
    next: ListenState,
    action: ListenAction,
)
    requires
        listen_opening(content, group, urls, next, action),
    ensures
        ({
            let has_url = urls.len() > 0 && urls[0].len() > 0;
            let store = occurs_in(content, "入典"@);
            let draw = !store && content == "典"@;
            let remove = !store && !draw && occurs_in(content, "出典"@);
            let ghci = !store && !draw && !remove && has_prefix(content, "!ghci"@);
            &&& store && has_url ==> (next == (ListenState::AddFetching { group }) && (
            action matches ListenAction::Download(u) && u@ == urls[0]))
            &&& (store || remove) && !has_url ==> (next is Done && action == ListenAction::Finish(
                true,
            ))
            &&& draw ==> (next == (ListenState::DrawCounting { group }) && (
            action matches ListenAction::CountEntries(d) && d@ == "images/"@ + decimal(
                group as int,
            )))
            &&& remove && has_url ==> ((next matches ListenState::RemoveCheckingAdmin {
                group: g,
                url: u,
            } && g == group && u@ == urls[0]) && action is CheckAdmin)
            &&& ghci && content.len() > 5 ==> (next is GhciRunning && (
            action matches ListenAction::RunGhci(e) && e@ == content.skip(5)))
            &&& ghci && content.len() <= 5 ==> (action == ListenAction::Reply(
                Reply::EmptyExpression,
            ) && (next matches ListenState::GhciNoticed { expr } && expr@.len() == 0))
            &&& !store && !draw && !remove && !ghci ==> (next is Done && action
                == ListenAction::Finish(false))
        }),
{
    lemma_store_path(group, seq![]);
    reveal_strlit("!ghci");
}

/// Storing: when the image's file already exists, the image is sent back with
/// the duplicate notice and nothing is written; otherwise the image is written,
/// unchanged, to that file.
pub proof fn lemma_duplicate_refused(
    group: i64,
    image: Vec<u8>,
    path: String,
    exists: bool,
    next: ListenState,
    action: ListenAction,
)
    requires
        listen_transition(
            (ListenState::AddCheckingFile { group, image, path }),
            ListenEvent::Exists(exists),
            next,
            action,
        ),
    ensures
        exists ==> (next is Closing && action == ListenAction::ReplyWithImage(
            Reply::DuplicateImage,
            image,
        )),
        !exists ==> (next is AddWriting && action == ListenAction::WriteFile(path, image)),
{
}

/// Showing: the image sent is the file `images/<group>/<name>.image` for a
/// `name` that is one of the listed file names up to its first `.`.
pub proof fn lemma_draw_sends_stored_image(
    group: i64,
    names: Vec<String>,
    next: ListenState,
    action: ListenAction,
)
    requires
        listen_transition(
            (ListenState::DrawListing { group }),
            ListenEvent::FileNames(names),
            next,
            action,
        ),
    ensures
        (next is Closing),
        (action matches ListenAction::SendImageFile(p) && exists|name: Seq<char>|
            cut_from_some_name(names.deep_view(), name) && #[trigger] store_path(group, name)
                == p@),
{
    lemma_image_names_from(names.deep_view());
    if let ListenAction::SendImageFile(p) = action {
        let i = choose|i: int|
            0 <= i < image_names(names.deep_view()).len() && p@ == image_path(
                group,
                #[trigger] image_names(names.deep_view())[i],
            );
        let name = image_names(names.deep_view())[i];
        lemma_store_path(group, name);
        assert(cut_from_some_name(names.deep_view(), name));
        assert(store_path(group, name) == p@);
    }
}

/// Removing: a sender who is not an admin is told so and nothing is fetched;
/// for an admin the image at the message's URL is downloaded.
pub proof fn lemma_remove_asks_admin(
    group: i64,
    url: String,
    admin: bool,
    next: ListenState,
    action: ListenAction,
)
    requires
        listen_transition(
            (ListenState::RemoveCheckingAdmin { group, url }),
            ListenEvent::IsAdmin(admin),
            next,
            action,
        ),
    ensures
        !admin ==> (next is Closing && action == ListenAction::Reply(Reply::AdminOnlyRemove)),
        admin ==> (next == (ListenState::RemoveFetching { group }) && action
            == ListenAction::Download(url)),
{
}

/// Begins handling a message with text `content` in `group` whose images have
/// the URLs `image_urls`, in order.
pub fn listen_start(content: &str, group: i64, image_urls: &Vec<String>) -> (r: (
    ListenState,
    ListenAction,
))
    ensures
        listen_opening(content@, group, image_urls.deep_view(), r.0, r.1),
{
    let v = chars_of(content);
    let store_word = chars_of("入典");
    let draw_word = chars_of("典");
    let remove_word = chars_of("出典");
    let ghci_word = chars_of("!ghci");
    proof {
        reveal_strlit("!ghci");
    }
    if contains_chars(&v, &store_word) {
        match first_url(image_urls) {
            None => (ListenState::Done, ListenAction::Finish(true)),
            Some(url) => (ListenState::AddFetching { group }, ListenAction::Download(url)),
        }
    } else if range_equals(&v, 0, v.len(), &draw_word) {
        assert(v@.subrange(0, v@.len() as int) =~= v@);
        (ListenState::DrawCounting { group }, ListenAction::CountEntries(image_group_dir(group)))
    } else if contains_chars(&v, &remove_word) {
        assert(v@.subrange(0, v@.len() as int) =~= v@);
        match first_url(image_urls) {
            None => (ListenState::Done, ListenAction::Finish(true)),
            Some(url) => (ListenState::RemoveCheckingAdmin { group, url }, ListenAction::CheckAdmin),
        }
    } else if occurs_at(&v, 0, &ghci_word) {
        assert(v@.subrange(0, 5) =~= v@.take(5));
        let mut e: Vec<char> = Vec::new();
        push_range(&mut e, &v, 5, v.len());
        assert(e@ =~= v@.skip(5));
        let expr = string_from_chars(&e);
        if e.len() == 0 {
            (ListenState::GhciNoticed { expr }, ListenAction::Reply(Reply::EmptyExpression))
        } else {
            (ListenState::GhciRunning, ListenAction::RunGhci(expr))
        }
    } else {
        proof {
            assert(v@.subrange(0, v@.len() as int) =~= v@);
            if has_prefix(v@, "!ghci"@) {
                assert(v@.subrange(0, 5) =~= v@.take(5));
            }
        }
        (ListenState::Done, ListenAction::Finish(false))
    }
}

/// The URL of the first image, if there is one and it is not empty.
fn first_url(urls: &Vec<String>) -> (r: Option<String>)
    ensures
        match first_image_url(urls.deep_view()) {
            Some(u) => r matches Some(s) && s@ == u,
            None => r is None,
        },
{
    if urls.len() == 0 {
        return None;
    }
    let u = urls[0].clone();
    assert(urls.deep_view()[0] == urls@[0]@);
    if chars_of(u.as_str()).len() == 0 {
        None
    } else {
        Some(u)
    }
}

/// Takes one step of handling: from `state`, on `event`.
pub fn listen_step(state: ListenState, event: ListenEvent) -> (r: (ListenState, ListenAction))
    requires
        listen_step_defined(state, event),
    ensures
        listen_transition(state, event, r.0, r.1),
{
    match state {
        ListenState::AddFetching { group } => match event {
            ListenEvent::Downloaded(None) => (
                ListenState::Closing,
                ListenAction::Reply(Reply::PullFailed),
            ),
            ListenEvent::Downloaded(Some(buf)) => {
                if is_image(buf.as_slice()) {
                    let dir = image_group_dir(group);
                    (ListenState::AddCheckingDir { group, image: buf }, ListenAction::ProbeDirectory(dir))
                } else {
                    (ListenState::Closing, ListenAction::Reply(Reply::UnsupportedFormat))
                }
            },
            _ => (ListenState::Done, ListenAction::Fail),
        },
        ListenState::AddCheckingDir { group, image } => match event {
            ListenEvent::Exists(true) => {
                let name = compute_md5sum(image.as_slice());
                let path = image_file_path(group, name.as_str());
                let probe = path.clone();
                (
                    ListenState::AddCheckingFile { group, image, path },
                    ListenAction::ProbeFile(probe),
                )
            },
            ListenEvent::Exists(false) => {
                let dir = image_group_dir(group);
                (ListenState::AddCreatingDir { group, image }, ListenAction::CreateDirectory(dir))
            },
            _ => (ListenState::Done, ListenAction::Fail),
        },
        ListenState::AddCreatingDir { group, image } => match event {
            ListenEvent::Completed => {
                let name = compute_md5sum(image.as_slice());
                let path = image_file_path(group, name.as_str());
                let probe = path.clone();
                (
                    ListenState::AddCheckingFile { group, image, path },
                    ListenAction::ProbeFile(probe),
                )
            },
            _ => (ListenState::Done, ListenAction::Fail),
        },
        ListenState::AddCheckingFile { group, image, path } => match event {
            ListenEvent::Exists(true) => (
                ListenState::Closing,
                ListenAction::ReplyWithImage(Reply::DuplicateImage, image),
            ),
            ListenEvent::Exists(false) => (ListenState::AddWriting, ListenAction::WriteFile(path, image)),
            _ => (ListenState::Done, ListenAction::Fail),
        },
        ListenState::AddWriting => match event {
            ListenEvent::Completed => (ListenState::Closing, ListenAction::Reply(Reply::AddSuccess)),
            _ => (ListenState::Done, ListenAction::Fail),
        },
        ListenState::DrawCounting { group } => match event {
            ListenEvent::EntryCount(count) => match count {
                Some(n) if n > 0 => (
                    ListenState::DrawListing { group },
                    ListenAction::ListFileNames(image_group_dir(group)),
                ),
                _ => (ListenState::Closing, ListenAction::Reply(Reply::GalleryEmpty)),
            },
            _ => (ListenState::Done, ListenAction::Fail),
        },
        ListenState::DrawListing { group } => match event {
            ListenEvent::FileNames(names) => {
                let stems = get_all_md5(&names);
                let path = choose_image(group, &stems);
                proof {
                    let i = choose|i: int|
                        0 <= i < stems@.len() && path@ == image_path(group, #[trigger] stems@[i]@);
                    assert(stems.deep_view()[i] == stems@[i]@);
                }
                (ListenState::Closing, ListenAction::SendImageFile(path))
            },
            _ => (ListenState::Done, ListenAction::Fail),
        },
        ListenState::RemoveCheckingAdmin { group, url } => match event {
            ListenEvent::IsAdmin(false) => (
                ListenState::Closing,
                ListenAction::Reply(Reply::AdminOnlyRemove),
            ),
            ListenEvent::IsAdmin(true) => (ListenState::RemoveFetching { group }, ListenAction::Download(url)),
            _ => (ListenState::Done, ListenAction::Fail),
        },
        ListenState::RemoveFetching { group } => match event {
            ListenEvent::Downloaded(Some(buf)) => {
                let name = compute_md5sum(buf.as_slice());
                (ListenState::RemoveDeleting, ListenAction::RemoveFile(image_file_path(group, name.as_str())))
            },
            _ => (ListenState::Done, ListenAction::Fail),
        },
        ListenState::RemoveDeleting => match event {
            ListenEvent::Removed(true) => (ListenState::Closing, ListenAction::Reply(Reply::RemoveSuccess)),
            ListenEvent::Removed(false) => (ListenState::Closing, ListenAction::Reply(Reply::RemoveFailed)),
            _ => (ListenState::Done, ListenAction::Fail),
        },
        ListenState::GhciNoticed { expr } => match event {
            ListenEvent::Completed => (ListenState::GhciRunning, ListenAction::RunGhci(expr)),
            _ => (ListenState::Done, ListenAction::Fail),
        },
        ListenState::GhciRunning => match event {
            ListenEvent::GhciFinished(out) => {
                if !out.success {
                    (ListenState::Closing, ListenAction::Reply(Reply::Timeout))
                } else {
                    let len = out.stdout.len();
                    let stderr = out.stderr;
                    match string_from_utf8(out.stdout) {
                        None => (ListenState::Done, ListenAction::Fail),
                        Some(message) => {
                            if len >= LIMIT_BYTE {
                                (ListenState::GhciLong { message, stderr }, ListenAction::Reply(Reply::OutputTooLong))
                            } else {
                                let shown = clean_ghci_output(message.as_str());
                                (ListenState::GhciShown { stderr }, ListenAction::Reply(Reply::Text(shown)))
                            }
                        },
                    }
                }
            },
            _ => (ListenState::Done, ListenAction::Fail),
        },
        ListenState::GhciLong { message, stderr } => match event {
            ListenEvent::Completed => {
                let shown = clean_ghci_output(message.as_str());
                (ListenState::GhciShown { stderr }, ListenAction::Reply(Reply::Text(shown)))
            },
            _ => (ListenState::Done, ListenAction::Fail),
        },
        ListenState::GhciShown { stderr } => match event {
            ListenEvent::Completed => match string_from_utf8(stderr) {
                Some(text) => (ListenState::Closing, ListenAction::Reply(Reply::Text(text))),
                None => (ListenState::Done, ListenAction::Fail),
            },
            _ => (ListenState::Done, ListenAction::Fail),
        },
        ListenState::Closing => match event {
            ListenEvent::Completed => (ListenState::Done, ListenAction::Finish(true)),
            _ => (ListenState::Done, ListenAction::Fail),
        },
        ListenState::Done => (ListenState::Done, ListenAction::Fail),
    }
}

} // verus!
