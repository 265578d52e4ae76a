//! The bot's answer when it is asked, with a mention, whether it can still talk.
use vstd::prelude::*;

use crate::text::{chars_of, contains_chars, occurs_in};

verus! {

/// What the bot does with a message: whether it answers that it can talk, and
/// whether the message counts as handled.
pub struct HeartbeatOutcome {
    pub answer: bool,
    pub handled: bool,
}

/// The member mentioned last in a message whose mentions are `targets`, in
/// order; `0` where there is none.
pub open spec fn last_target(targets: Seq<i64>) -> i64 {
    if targets.len() == 0 {
        0
    } else {
        targets.last()
    }
}

/// The member mentioned last, `0` where there is none.
pub fn last_mention(targets: &Vec<i64>) -> (r: i64)
    ensures
        r == last_target(targets@),
{
    if targets.len() == 0 {
        0
    } else {
        targets[targets.len() - 1]
    }
}

/// How the bot treats a message with text `content` and mentions `at_targets`:
/// a message that mentions nobody counts as handled; one whose last mention is
/// the bot (`bot_uin`) and that asks "还能说话吗" is answered and handled; any
/// other is left to other handlers.
pub fn heartbeat(at_targets: &Vec<i64>, bot_uin: i64, content: &str) -> (r: HeartbeatOutcome)
    ensures
        last_target(at_targets@) == 0 ==> !r.answer && r.handled,
        last_target(at_targets@) != 0 ==> r.answer == (last_target(at_targets@) == bot_uin
            && occurs_in(content@, "还能说话吗"@)) && r.handled == r.answer,
{
    let at = last_mention(at_targets);
    if at == 0 {
        return HeartbeatOutcome { answer: false, handled: true };
    }
    let v = chars_of(content);
    let question = chars_of("还能说话吗");
    if at == bot_uin && contains_chars(&v, &question) {
        HeartbeatOutcome { answer: true, handled: true }
    } else {
        HeartbeatOutcome { answer: false, handled: false }
    }
}

} // verus!
