//! How the bot handles `!blacklist add|remove <member>`: a state machine whose
//! actions the caller performs, handing back what came of each.
use vstd::prelude::*;

use crate::blacklist::{
    lemma_rewrite_reloads, load_outcome, pairs_of, renders, with_pair, without_pair, BlackList,
    BlackListError,
};
use crate::heartbeat::{last_mention, last_target};
use crate::number::{integer_parse, parse_i64, IntErrorKind};
use crate::reply::Reply;
use crate::text::{chars_of, has_prefix, occurs_at, range_equals, word_bounds, words};

verus! {

/// What a blacklist command asks for.
#[derive(Debug, Clone, Copy, PartialEq, Eq, Structural)]
pub enum CommandKind {
    Add,
    Remove,
    Unknown,
}

/// Where the handling of a blacklist command stands. The command concerns
/// `target` in `group`, was sent by `sender`, and `owner` may always give it.
pub enum BlacklistState {
    /// Nothing is left to do.
    Done,
    /// Waiting for the notice that no member was found to go out.
    Noticed {
        list: BlackList,
        group: i64,
        sender: i64,
        owner: i64,
        target: i64,
        kind: CommandKind,
    },
    /// Waiting to learn whether the sender is an admin of the group.
    CheckingAdmin {
        list: BlackList,
        group: i64,
        sender: i64,
        owner: i64,
        target: i64,
        kind: CommandKind,
    },
    /// Waiting for the blacklist file to be written.
    Saving,
    /// Waiting for the last reply to go out.
    Closing,
}

/// What the caller is to do next.
pub enum BlacklistAction {
    /// Stop: the message was handled (`true`) or is not a blacklist command.
    Finish(bool),
    /// Stop with an error.
    Fail,
    /// Send the reply; hand back `Completed`.
    Reply(Reply),
    /// Find out whether the sender is an admin of the group; hand back `IsAdmin`.
    CheckAdmin,
    /// Replace the blacklist file's text with this one; hand back `Completed`.
    Save(String),
}

/// What came of an action.
pub enum BlacklistEvent {
    /// The reply was sent or the file written.
    Completed,
    /// Whether the sender is an admin of the group.
    IsAdmin(bool),
}

/// What the second word of a command asks for.
pub open spec fn command_kind(ws: Seq<Seq<char>>) -> CommandKind {
    if ws.len() > 1 && ws[1] == "add"@ {
        CommandKind::Add
    } else if ws.len() > 1 && ws[1] == "remove"@ {
        CommandKind::Remove
    } else {
        CommandKind::Unknown
    }
}

/// The member a command concerns: the last one mentioned; where nobody is
/// mentioned, the third word read as a number, if there is a third word and it is
/// one; else `0`.
pub open spec fn command_target(ws: Seq<Seq<char>>, targets: Seq<i64>) -> i64 {
    if last_target(targets) == 0 && ws.len() > 2 {
        match integer_parse(ws[2]) {
            Ok(b) => b,
            Err(_) => 0,
        }
    } else {
        last_target(targets)
    }
}

/// Whether the sender is to be told that no member was found: nobody is
/// mentioned and the third word is not a number.
pub open spec fn target_notice(ws: Seq<Seq<char>>, targets: Seq<i64>) -> bool {
    last_target(targets) == 0 && ws.len() > 2 && integer_parse(ws[2]) is Err
}

/// How handling begins, for a message with text `content` and mentions
/// `targets`, sent by `sender` in `group`, given the blacklist as read from its
/// file (`loaded`): a text that begins with `!blacklist` is a command.
pub open spec fn blacklist_opening(
    loaded: Result<BlackList, BlackListError>,
    content: Seq<char>,
    targets: Seq<i64>,
    group: i64,
    sender: i64,
    owner: i64,
    next: BlacklistState,
    action: BlacklistAction,
) -> bool {
    match loaded {
        Err(_) => next is Done && action is Fail,
        Ok(list) => if !has_prefix(content, "!blacklist"@) {
            next is Done && action == BlacklistAction::Finish(false)
        } else {
            let ws = words(content);
            let target = command_target(ws, targets);
            let kind = command_kind(ws);
            if target_notice(ws, targets) {
                next == BlacklistState::Noticed { list, group, sender, owner, target, kind }
                    && action == BlacklistAction::Reply(Reply::TargetNotFound)
            } else {
                next == BlacklistState::CheckingAdmin { list, group, sender, owner, target, kind }
                    && action is CheckAdmin
            }
        },
    }
}

/// What the command does to the blacklist's map, once it is allowed.
pub open spec fn command_effect(
    m: Map<i64, Set<i64>>,
    group: i64,
    target: i64,
    kind: CommandKind,
) -> Map<i64, Set<i64>> {
    match kind {
        CommandKind::Add => with_pair(m, group, target),
        CommandKind::Remove => without_pair(m, group, target),
        CommandKind::Unknown => m,
    }
}

/// One step of handling: from `state`, on `event`, to `next`, doing `action`.
pub open spec fn blacklist_transition(
    state: BlacklistState,
    event: BlacklistEvent,
    next: BlacklistState,
    action: BlacklistAction,
) -> bool {
    match state {
        BlacklistState::Noticed { list, group, sender, owner, target, kind } => match event {
            BlacklistEvent::Completed => next == BlacklistState::CheckingAdmin {
                list,
                group,
                sender,
                owner,
                target,
                kind,
            } && action is CheckAdmin,
            _ => next is Done && action is Fail,
        },
        BlacklistState::CheckingAdmin { list, group, sender, owner, target, kind } => match event {
            BlacklistEvent::IsAdmin(admin) => if !admin && sender != owner {
                next is Closing && action == BlacklistAction::Reply(Reply::AdminOrOwnerOnly)
            } else if kind == CommandKind::Unknown {
                next is Closing && action == BlacklistAction::Reply(Reply::UnknownArgument)
            } else {
                next is Saving && (action matches BlacklistAction::Save(text) && renders(
                    command_effect(list@, group, target, kind),
                    text@,
                ))
            },
            _ => next is Done && action is Fail,
        },
        BlacklistState::Saving => match event {
            BlacklistEvent::Completed => next is Done && action == BlacklistAction::Finish(true),
            _ => next is Done && action is Fail,
        },
        BlacklistState::Closing => match event {
            BlacklistEvent::Completed => next is Done && action == BlacklistAction::Finish(true),
            _ => next is Done && action is Fail,
        },
        BlacklistState::Done => next is Done && action is Fail,
    }
}

/// The blacklist file is rewritten only in answer to an admin, or to the owner.
pub proof fn lemma_saving_needs_authority(
    state: BlacklistState,
    event: BlacklistEvent,
    next: BlacklistState,
    action: BlacklistAction,
)
    requires
        blacklist_transition(state, event, next, action),
        action is Save,
    ensures
        state matches BlacklistState::CheckingAdmin { sender, owner, .. } && (event
            == BlacklistEvent::IsAdmin(true) || sender == owner),
{
}

/// The text saved by an `add` or `remove` reads back as the blacklist with the
/// pair put on, or taken off.
pub proof fn lemma_saved_list_reloads(
    state: BlacklistState,
    event: BlacklistEvent,
    next: BlacklistState,
    action: BlacklistAction,
)
    requires
        blacklist_transition(state, event, next, action),
        action is Save,
    ensures
        state matches BlacklistState::CheckingAdmin { list, group, target, kind, .. } && (
        action matches BlacklistAction::Save(text) && load_outcome(Some(text@)) matches Some(
            Ok(m),
        ) && pairs_of(m) == (if kind == CommandKind::Add {
            list.pairs().insert((group, target))
        } else {
            list.pairs().remove((group, target))
        })),
{
    if let BlacklistState::CheckingAdmin { list, group, sender, owner, target, kind } = state {
        if let BlacklistAction::Save(text) = action {
            lemma_rewrite_reloads(command_effect(list@, group, target, kind), text@);
            if kind == CommandKind::Add {
                crate::blacklist::lemma_with_pair(list@, group, target);
            } else {
                crate::blacklist::lemma_without_pair(list@, group, target);
            }
        }
    }
}

/// An allowed `!blacklist add <member>` or `!blacklist remove <member>`: when the
/// second word is `add` (or `remove`) and the sender is an admin or the owner,
/// the text saved reads back as the blacklist with (group, member) put on (or
/// taken off). The member is the one mentioned last, or, where nobody is
/// mentioned, the number that the third word is.
pub proof fn lemma_allowed_command_saves(
    list: BlackList,
    content: Seq<char>,
    targets: Seq<i64>,
    group: i64,
    sender: i64,
    owner: i64,
    next: BlacklistState,
    action: BlacklistAction,
    admin: bool,
    after: BlacklistState,
    save: BlacklistAction,
    member: i64,
)
    requires
        blacklist_opening(
            Ok::<BlackList, BlackListError>(list),
            content,
            targets,
            group,
            sender,
            owner,
            next,
            action,
        ),
        has_prefix(content, "!blacklist"@),
        words(content).len() > 1,
        words(content)[1] == "add"@ || words(content)[1] == "remove"@,
        (targets.len() > 0 && targets.last() != 0 && member == targets.last()) || ((targets.len()
            == 0 || targets.last() == 0) && words(content).len() > 2 && integer_parse(
            words(content)[2],
        ) == Ok::<i64, IntErrorKind>(member)),
        blacklist_transition(next, BlacklistEvent::IsAdmin(admin), after, save),
        admin || sender == owner,
    ensures
        (action is CheckAdmin),
        (save matches BlacklistAction::Save(text) && load_outcome(Some(text@)) matches Some(
            Ok(m2),
        ) && pairs_of(m2) == (if words(content)[1] == "add"@ {
            list.pairs().insert((group, member))
        } else {
            list.pairs().remove((group, member))
        })),
{
    reveal_strlit("add");
    reveal_strlit("remove");
    assert("add"@.len() != "remove"@.len());
    lemma_saved_list_reloads(next, BlacklistEvent::IsAdmin(admin), after, save);
}

/// Which messages are commands and how they begin: a text that does not begin
/// with `!blacklist` is left to other handlers; a command where nobody is
/// mentioned and the third word is not a number first tells the sender that no
/// member was found; any other command goes straight to asking whether the
/// sender is an admin.
pub proof fn lemma_command_opening(
    list: BlackList,
    content: Seq<char>,
    targets: Seq<i64>,
    group: i64,
    sender: i64,
    owner: i64,
    next: BlacklistState,
    action: BlacklistAction,
)
    requires
        blacklist_opening(
            Ok::<BlackList, BlackListError>(list),
            content,
            targets,
            group,
            sender,
            owner,
            next,
            action,
        ),
    ensures
        !has_prefix(content, "!blacklist"@) ==> (next is Done && action
            == BlacklistAction::Finish(false)),
        has_prefix(content, "!blacklist"@) && (targets.len() == 0 || targets.last() == 0) && words(
            content,
        ).len() > 2 && integer_parse(words(content)[2]) is Err ==> action == BlacklistAction::Reply(
            Reply::TargetNotFound,
        ),
        has_prefix(content, "!blacklist"@) && !((targets.len() == 0 || targets.last() == 0) && words(
            content,
        ).len() > 2 && integer_parse(words(content)[2]) is Err) ==> (action is CheckAdmin),
{
}

/// Once the sender's standing is known: a sender who is neither an admin nor the
/// owner is refused, and an allowed command whose second word is neither `add`
/// nor `remove` is answered as an unknown argument; in both cases nothing is
/// saved.
pub proof fn lemma_command_refusals(
    list: BlackList,
    content: Seq<char>,
    targets: Seq<i64>,
    group: i64,
    sender: i64,
    owner: i64,
    next: BlacklistState,
    action: BlacklistAction,
    admin: bool,
    after: BlacklistState,
    reply: BlacklistAction,
)
    requires
        blacklist_opening(
            Ok::<BlackList, BlackListError>(list),
            content,
            targets,
            group,
            sender,
            owner,
            next,
            action,
        ),
        has_prefix(content, "!blacklist"@),
        (action is CheckAdmin),
        blacklist_transition(next, BlacklistEvent::IsAdmin(admin), after, reply),
    ensures
        !admin && sender != owner ==> reply == BlacklistAction::Reply(Reply::AdminOrOwnerOnly),
        (admin || sender == owner) && !(words(content).len() > 1 && (words(content)[1] == "add"@
            || words(content)[1] == "remove"@)) ==> reply == BlacklistAction::Reply(
            Reply::UnknownArgument,
        ),
{
}

/// Whether `v[lo..hi]` is the literal `word`.
fn word_is(v: &Vec<char>, lo: usize, hi: usize, word: &str) -> (b: bool)
    requires
        lo <= hi <= v@.len(),
    ensures
        b == (v@.subrange(lo as int, hi as int) == word@),
{
    range_equals(v, lo, hi, &chars_of(word))
}

/// Begins handling a message with text `content` and mentions `at_targets` (in
/// order), sent by `sender` in `group`, given the blacklist as read from its file;
/// `owner` may always change the blacklist.
pub fn blacklist_start(
    loaded: Result<BlackList, BlackListError>,
    content: &str,
    at_targets: &Vec<i64>,
    group: i64,
    sender: i64,
    owner: i64,
) -> (r: (BlacklistState, BlacklistAction))
    ensures
        blacklist_opening(loaded, content@, at_targets@, group, sender, owner, r.0, r.1),
{
    let list = match loaded {
        Err(_) => {
            return (BlacklistState::Done, BlacklistAction::Fail);
        },
        Ok(l) => l,
    };
    let v = chars_of(content);
    let prefix = chars_of("!blacklist");
    if !occurs_at(&v, 0, &prefix) {
        proof {
            reveal_strlit("!blacklist");
            if has_prefix(v@, "!blacklist"@) {
                assert(v@.subrange(0, 10) =~= v@.take(10));
            }
        }
        return (BlacklistState::Done, BlacklistAction::Finish(false));
    }
    proof {
        reveal_strlit("!blacklist");
        assert(v@.subrange(0, 10) =~= v@.take(10));
    }
    let ws = word_bounds(&v, 0, v.len());
    let ghost wsv = words(v@);
    assert(v@.subrange(0, v@.len() as int) =~= v@);
    let mentioned = last_mention(at_targets);
    let mut target = mentioned;
    let mut notice = false;
    if mentioned == 0 && ws.len() > 2 {
        let (a, b) = ws[2];
        match parse_i64(&v, a, b) {
            Ok(n) => {
                target = n;
            },
            Err(_) => {
                notice = true;
            },
        }
    }
    let kind = if ws.len() > 1 && word_is(&v, ws[1].0, ws[1].1, "add") {
        CommandKind::Add
    } else if ws.len() > 1 && word_is(&v, ws[1].0, ws[1].1, "remove") {
        CommandKind::Remove
    } else {
        CommandKind::Unknown
    };
    assert(target == command_target(wsv, at_targets@));
    assert(kind == command_kind(wsv));
    if notice {
        (
            BlacklistState::Noticed { list, group, sender, owner, target, kind },
            BlacklistAction::Reply(Reply::TargetNotFound),
        )
    } else {
        (
            BlacklistState::CheckingAdmin { list, group, sender, owner, target, kind },
            BlacklistAction::CheckAdmin,
        )
    }
}

/// Takes one step of handling: from `state`, on `event`.
pub fn blacklist_step(state: BlacklistState, event: BlacklistEvent) -> (r: (
    BlacklistState,
    BlacklistAction,
))
    ensures
        blacklist_transition(state, event, r.0, r.1),
{
    match state {
        BlacklistState::Noticed { list, group, sender, owner, target, kind } => match event {
            BlacklistEvent::Completed => (
                BlacklistState::CheckingAdmin { list, group, sender, owner, target, kind },
                BlacklistAction::CheckAdmin,
            ),
            _ => (BlacklistState::Done, BlacklistAction::Fail),
        },
        BlacklistState::CheckingAdmin { list, group, sender, owner, target, kind } => match event {
            BlacklistEvent::IsAdmin(admin) => {
                if !admin && sender != owner {
                    (BlacklistState::Closing, BlacklistAction::Reply(Reply::AdminOrOwnerOnly))
                } else {
                    let mut list = list;
                    match kind {
                        CommandKind::Add => {
                            let _ = list.add(group, target);
                            (BlacklistState::Saving, BlacklistAction::Save(list.rewrite()))
                        },
                        CommandKind::Remove => {
                            list.remove(group, target);
                            (BlacklistState::Saving, BlacklistAction::Save(list.rewrite()))
                        },
                        CommandKind::Unknown => (
                            BlacklistState::Closing,
                            BlacklistAction::Reply(Reply::UnknownArgument),
                        ),
                    }
                }
            },
            _ => (BlacklistState::Done, BlacklistAction::Fail),
        },
        BlacklistState::Saving => match event {
            BlacklistEvent::Completed => (BlacklistState::Done, BlacklistAction::Finish(true)),
            _ => (BlacklistState::Done, BlacklistAction::Fail),
        },
        BlacklistState::Closing => match event {
            BlacklistEvent::Completed => (BlacklistState::Done, BlacklistAction::Finish(true)),
            _ => (BlacklistState::Done, BlacklistAction::Fail),
        },
        BlacklistState::Done => (BlacklistState::Done, BlacklistAction::Fail),
    }
}

} // verus!
