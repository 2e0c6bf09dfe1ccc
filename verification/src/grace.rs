//! The grace period: how long a runner may contradict its interpreted
//! state before the interpreted state gives way.
//!
//! The previous poll holds, for each runner, the interpreted state and the
//! number of polls in a row that have contradicted it. A poll that agrees
//! with the interpreted state ends the row. A poll that contradicts it
//! makes the row one longer, and when the row is longer than the grace
//! period the interpreted state follows the raw one and the row ends.

use crate::structs::RunnerView;
use vstd::prelude::*;

verus! {

/// For how many polls in a row the runner has now contradicted its
/// interpreted state.
pub open spec fn pending_polls(old_runner: RunnerView, new_runner: RunnerView) -> nat {
    if old_runner.interpret_online == Some(new_runner.online_for_github_api) {
        0
    } else {
        old_runner.online_state_change_since + 1
    }
}

/// True if the contradiction has outlasted the grace period, so that the
/// interpreted state follows the raw one.
pub open spec fn flips(grace_period: u32, old_runner: RunnerView, new_runner: RunnerView) -> bool {
    pending_polls(old_runner, new_runner) > grace_period
}

/// The runner of the new poll with its interpreted state filled in from
/// the previous poll.
pub open spec fn settled(
    grace_period: u32,
    old_runner: RunnerView,
    new_runner: RunnerView,
) -> RunnerView {
    if flips(grace_period, old_runner, new_runner) {
        RunnerView {
            interpret_online: Some(new_runner.online_for_github_api),
            online_state_change_since: 0,
            ..new_runner
        }
    } else {
        RunnerView {
            interpret_online: old_runner.interpret_online,
            online_state_change_since: pending_polls(old_runner, new_runner),
            ..new_runner
        }
    }
}

/// A runner that is seen for the first time: its raw state is taken for
/// its interpreted state.
pub open spec fn first_seen(new_runner: RunnerView) -> RunnerView {
    RunnerView { interpret_online: Some(new_runner.online_for_github_api), ..new_runner }
}

/// The runner after `polls` more polls that have all found it in the raw
/// state `online`.
pub open spec fn after_polls(
    grace_period: u32,
    runner: RunnerView,
    online: bool,
    polls: nat,
) -> RunnerView
    decreases polls,
{
    if polls == 0 {
        runner
    } else {
        settled(
            grace_period,
            after_polls(grace_period, runner, online, (polls - 1) as nat),
            RunnerView { online_for_github_api: online, ..runner },
        )
    }
}

/// With a grace period of 0 the interpreted state is the raw state of
/// the new poll, and it changes exactly when the raw state contradicts
/// what the runner was taken for.
pub proof fn lemma_no_grace_follows_raw_state(old_runner: RunnerView, new_runner: RunnerView)
    ensures
        settled(0, old_runner, new_runner).interpret_online == Some(
            new_runner.online_for_github_api,
        ),
        settled(0, old_runner, new_runner).online_state_change_since == 0,
        flips(0, old_runner, new_runner) <==> old_runner.interpret_online != Some(
            new_runner.online_for_github_api,
        ),
{
}

/// While the row of contradicting polls is not longer than the grace
/// period, the interpreted state stays what it was and the length of the
/// row is kept for the next poll.
pub proof fn lemma_grace_holds_back(
    grace_period: u32,
    old_runner: RunnerView,
    new_runner: RunnerView,
)
    requires
        0 < pending_polls(old_runner, new_runner) <= grace_period,
    ensures
        !flips(grace_period, old_runner, new_runner),
        settled(grace_period, old_runner, new_runner).interpret_online
            == old_runner.interpret_online,
        settled(grace_period, old_runner, new_runner).online_state_change_since == pending_polls(
            old_runner,
            new_runner,
        ),
{
}

/// As soon as the row of contradicting polls is longer than the grace
/// period, the interpreted state follows the raw one and the row starts
/// again at 0.
pub proof fn lemma_grace_runs_out(
    grace_period: u32,
    old_runner: RunnerView,
    new_runner: RunnerView,
)
    requires
        pending_polls(old_runner, new_runner) > grace_period,
    ensures
        flips(grace_period, old_runner, new_runner),
        settled(grace_period, old_runner, new_runner).interpret_online == Some(
            new_runner.online_for_github_api,
        ),
        settled(grace_period, old_runner, new_runner).online_state_change_since == 0,
{
}

/// A poll that agrees with the interpreted state ends the row, whatever
/// its length was, and changes nothing else.
pub proof fn lemma_agreement_ends_the_row(
    grace_period: u32,
    old_runner: RunnerView,
    new_runner: RunnerView,
)
    requires
        old_runner.interpret_online == Some(new_runner.online_for_github_api),
    ensures
        !flips(grace_period, old_runner, new_runner),
        settled(grace_period, old_runner, new_runner).interpret_online
            == old_runner.interpret_online,
        settled(grace_period, old_runner, new_runner).online_state_change_since == 0,
{
}

/// A settled runner has an interpreted state, and its row of contradicting
/// polls is not longer than the grace period.
pub proof fn lemma_settled_is_committed(
    grace_period: u32,
    old_runner: RunnerView,
    new_runner: RunnerView,
)
    requires
        old_runner.interpret_online is Some,
    ensures
        settled(grace_period, old_runner, new_runner).interpret_online is Some,
        settled(grace_period, old_runner, new_runner).online_state_change_since <= grace_period,
{
}

/// Settling fills in the interpreted state and the length of the row and
/// leaves the rest of the new runner as the poll gave it.
pub proof fn lemma_settled_keeps_description(
    grace_period: u32,
    old_runner: RunnerView,
    new_runner: RunnerView,
)
    ensures
        settled(grace_period, old_runner, new_runner) == (RunnerView {
            interpret_online: settled(grace_period, old_runner, new_runner).interpret_online,
            online_state_change_since: settled(
                grace_period,
                old_runner,
                new_runner,
            ).online_state_change_since,
            ..new_runner
        }),
{
}

/// Only the raw state of the new poll counts: two new runners with the
/// same raw state, whatever else tells them apart (name, system, labels),
/// are settled alike.
pub proof fn lemma_description_is_ignored(
    grace_period: u32,
    old_runner: RunnerView,
    new_runner: RunnerView,
    other_runner: RunnerView,
)
    requires
        new_runner.online_for_github_api == other_runner.online_for_github_api,
    ensures
        flips(grace_period, old_runner, new_runner) == flips(
            grace_period,
            old_runner,
            other_runner,
        ),
        settled(grace_period, old_runner, new_runner).interpret_online == settled(
            grace_period,
            old_runner,
            other_runner,
        ).interpret_online,
        settled(grace_period, old_runner, new_runner).online_state_change_since == settled(
            grace_period,
            old_runner,
            other_runner,
        ).online_state_change_since,
{
}

/// Of the previous runner, too, only the interpreted state and the length
/// of the row count.
pub proof fn lemma_old_description_is_ignored(
    grace_period: u32,
    old_runner: RunnerView,
    other_runner: RunnerView,
    new_runner: RunnerView,
)
    requires
        old_runner.interpret_online == other_runner.interpret_online,
        old_runner.online_state_change_since == other_runner.online_state_change_since,
    ensures
        flips(grace_period, old_runner, new_runner) == flips(
            grace_period,
            other_runner,
            new_runner,
        ),
        settled(grace_period, old_runner, new_runner) == settled(
            grace_period,
            other_runner,
            new_runner,
        ),
{
}

/// A runner whose raw state is the same as in the previous poll does not
/// flip, whatever else has changed about it, unless the previous poll
/// left it on the point of flipping: contradicting its interpreted state
/// for as many polls as the grace period allows.
pub proof fn lemma_same_raw_state_does_not_flip(
    grace_period: u32,
    old_runner: RunnerView,
    new_runner: RunnerView,
)
    requires
        new_runner.online_for_github_api == old_runner.online_for_github_api,
        old_runner.interpret_online == Some(old_runner.online_for_github_api)
            || old_runner.online_state_change_since < grace_period,
    ensures
        !flips(grace_period, old_runner, new_runner),
        settled(grace_period, old_runner, new_runner).interpret_online
            == old_runner.interpret_online,
{
}

/// A runner that is taken for the opposite of `online`, goes over to that
/// raw state and stays there keeps its interpreted state for as many polls
/// as the grace period allows, which are counted, and flips in the poll
/// after them. From then on it is at rest.
pub proof fn lemma_flip_comes_after_grace_period(
    grace_period: u32,
    runner: RunnerView,
    online: bool,
    polls: nat,
)
    requires
        runner.interpret_online == Some(!online),
        runner.online_state_change_since == 0,
    ensures
        polls <= grace_period ==> {
            &&& after_polls(grace_period, runner, online, polls).interpret_online == Some(!online)
            &&& after_polls(grace_period, runner, online, polls).online_state_change_since
                == polls
        },
        polls > grace_period ==> {
            &&& after_polls(grace_period, runner, online, polls).interpret_online == Some(online)
            &&& after_polls(grace_period, runner, online, polls).online_state_change_since == 0
        },
        polls > 0 ==> (flips(
            grace_period,
            after_polls(grace_period, runner, online, (polls - 1) as nat),
            RunnerView { online_for_github_api: online, ..runner },
        ) <==> polls == grace_period + 1),
    decreases polls,
{
    if polls > 0 {
        lemma_flip_comes_after_grace_period(grace_period, runner, online, (polls - 1) as nat);
    }
}

} // verus!
