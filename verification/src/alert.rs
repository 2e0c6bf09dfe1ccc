//! Compares the runners of two polls and tells which changes are worth an
//! alert. A runner that appears or disappears is reported at once. A runner
//! that goes online or offline is reported only when it has stayed so for
//! more polls than the grace period allows.

use crate::grace::{first_seen, flips, pending_polls, settled};
use crate::outbox::{all_delivered, answer_of, Answer, Outbox};
use crate::runner_map::RunnerMap;
use crate::structs::{ChangeView, Config, Runner, RunnerStateChange, RunnerView};
use vstd::prelude::*;
use vstd::string::StringExecFns;

verus! {

/// Why a comparison of two polls gave up.
#[derive(Debug, PartialEq, Eq)]
pub enum AlertError {
    /// A runner of the previous poll has no interpreted state, so there is
    /// nothing to compare the new state with.
    InvariantViolation,
    /// The alert handler could not deliver a change; it said why.
    NotificationError(String),
}

impl AlertError {
    /// The error in words.
    pub open spec fn message_text(self) -> Seq<char> {
        match self {
            AlertError::InvariantViolation => "the old runner needs to have interpret_online set"@,
            AlertError::NotificationError(reason) => reason@,
        }
    }

    /// The error in words: what is wrong with the previous poll, or the
    /// handler's reason.
    pub fn message(&self) -> (text: String)
        ensures
            text@ == self.message_text(),
    {
        match self {
            AlertError::InvariantViolation => String::from_str(
                "the old runner needs to have interpret_online set",
            ),
            AlertError::NotificationError(reason) => reason.clone(),
        }
    }
}

/// Where the changes go: a webhook, a log, a test's list of expectations.
pub trait AlertHandler {
    /// Delivers one change, or says why it could not.
    fn send_alert(&mut self, cfg: &Config, change: RunnerStateChange) -> Result<(), String>;
}

/// The change to report about the runner under `key`, if any.
pub open spec fn change_of(
    grace_period: u32,
    old_runners: Map<Seq<char>, RunnerView>,
    new_runners: Map<Seq<char>, RunnerView>,
    key: Seq<char>,
) -> Option<ChangeView> {
    if old_runners.contains_key(key) && new_runners.contains_key(key) {
        let old_runner = old_runners[key];
        let new_runner = settled(grace_period, old_runner, new_runners[key]);
        if !flips(grace_period, old_runner, new_runners[key]) {
            None
        } else if new_runner.online_for_github_api {
            Some(ChangeView::Online(old_runner, new_runner))
        } else {
            Some(ChangeView::Offline(old_runner, new_runner))
        }
    } else if old_runners.contains_key(key) {
        Some(ChangeView::Removed(old_runners[key]))
    } else if new_runners.contains_key(key) {
        Some(ChangeView::Created(first_seen(new_runners[key])))
    } else {
        None
    }
}

/// The new poll with every interpreted state filled in: what the next
/// comparison takes for its previous poll.
pub open spec fn reconciled(
    grace_period: u32,
    old_runners: Map<Seq<char>, RunnerView>,
    new_runners: Map<Seq<char>, RunnerView>,
) -> Map<Seq<char>, RunnerView> {
    Map::new(
        |key: Seq<char>| new_runners.contains_key(key),
        |key: Seq<char>|
            if old_runners.contains_key(key) {
                settled(grace_period, old_runners[key], new_runners[key])
            } else {
                first_seen(new_runners[key])
            },
    )
}

/// True if every runner that both polls have has an interpreted state in
/// the previous one.
pub open spec fn comparable(
    old_runners: Map<Seq<char>, RunnerView>,
    new_runners: Map<Seq<char>, RunnerView>,
) -> bool {
    forall|key: Seq<char>|
        old_runners.contains_key(key) && new_runners.contains_key(key)
            ==> (#[trigger] old_runners[key]).interpret_online is Some
}

/// The values of a list of changes.
pub open spec fn change_views(changes: Seq<RunnerStateChange>) -> Seq<ChangeView> {
    Seq::new(changes.len(), |i: int| changes[i]@)
}

/// True if `changes` holds, in the order of `keys`, the change of every
/// runner that has one, once each, and nothing else.
pub open spec fn reports(
    keys: Seq<Seq<char>>,
    changes: Seq<ChangeView>,
    grace_period: u32,
    old_runners: Map<Seq<char>, RunnerView>,
    new_runners: Map<Seq<char>, RunnerView>,
) -> bool {
    &&& keys.no_duplicates()
    &&& keys.len() == changes.len()
    &&& forall|i: int|
        0 <= i < keys.len() ==> change_of(grace_period, old_runners, new_runners, #[trigger] keys[i])
            == Some(changes[i])
    &&& forall|key: Seq<char>|
        (#[trigger] change_of(grace_period, old_runners, new_runners, key)) is Some
            ==> keys.contains(key)
}

/// Fills in the interpreted state of `new_runner`, a runner of the new
/// poll, from `old_runner`, the same runner in the previous poll. Returns
/// true if the interpreted state has changed.
///
/// Fails, and leaves `new_runner` as it is, if `old_runner` has no
/// interpreted state.
pub fn settle_runner(grace_period: u32, old_runner: &Runner, new_runner: &mut Runner) -> (outcome:
    Result<bool, AlertError>)
    ensures
        match outcome {
            Ok(flipped) => {
                &&& old_runner.interpret_online is Some
                &&& flipped == flips(grace_period, old_runner@, old(new_runner)@)
                &&& final(new_runner)@ == settled(grace_period, old_runner@, old(new_runner)@)
            },
            Err(error) => {
                &&& error == AlertError::InvariantViolation
                &&& old_runner.interpret_online is None
                &&& *final(new_runner) == *old(new_runner)
            },
        },
{
    let interpreted = match old_runner.interpret_online {
        Some(online) => online,
        None => { return Err(AlertError::InvariantViolation); },
    };
    if interpreted == new_runner.online_for_github_api {
        new_runner.interpret_online = old_runner.interpret_online;
        new_runner.online_state_change_since = 0;
        Ok(false)
    } else if old_runner.online_state_change_since >= grace_period {
        new_runner.interpret_online = Some(new_runner.online_for_github_api);
        new_runner.online_state_change_since = 0;
        Ok(true)
    } else {
        new_runner.interpret_online = old_runner.interpret_online;
        new_runner.online_state_change_since = old_runner.online_state_change_since + 1;
        Ok(false)
    }
}

/// True if some runner that both polls have lacks its interpreted state in
/// the previous one.
fn find_uncommitted(old_runners: &RunnerMap, new_runners: &RunnerMap) -> (found: bool)
    ensures
        found == !comparable(old_runners@, new_runners@),
{
    let count = old_runners.len();
    let mut index: usize = 0;
    while index < count
        invariant
            index <= count,
            count == old_runners.keys().len(),
            old_runners@.dom() == old_runners.keys().to_set(),
            forall|i: int|
                0 <= i < index && new_runners@.contains_key(#[trigger] old_runners.keys()[i])
                    ==> old_runners@[old_runners.keys()[i]].interpret_online is Some,
        decreases count - index,
    {
        let old_runner = old_runners.runner(index);
        if old_runner.interpret_online.is_none() && new_runners.contains_key(
            old_runners.key(index),
        ) {
            return true;
        }
        index += 1;
    }
    proof {
        assert forall|key: Seq<char>|
            old_runners@.contains_key(key) && new_runners@.contains_key(key) implies (
        #[trigger] old_runners@[key]).interpret_online is Some by {
            assert(old_runners.keys().to_set().contains(key));
            let i = old_runners.keys().index_of(key);
            assert(old_runners.keys()[i] == key);
        }
    }
    false
}

/// The new poll after the runners under the first `done` of `old_keys`
/// have been settled.
spec fn partly_settled(
    grace_period: u32,
    old_runners: Map<Seq<char>, RunnerView>,
    new_runners: Map<Seq<char>, RunnerView>,
    old_keys: Seq<Seq<char>>,
    done: int,
) -> Map<Seq<char>, RunnerView> {
    Map::new(
        |key: Seq<char>| new_runners.contains_key(key),
        |key: Seq<char>|
            if old_keys.subrange(0, done).contains(key) {
                settled(grace_period, old_runners[key], new_runners[key])
            } else {
                new_runners[key]
            },
    )
}

/// The new poll after every known runner has been settled and the runners
/// under the first `done` of `new_keys` have been looked at.
spec fn partly_reconciled(
    grace_period: u32,
    old_runners: Map<Seq<char>, RunnerView>,
    new_runners: Map<Seq<char>, RunnerView>,
    new_keys: Seq<Seq<char>>,
    done: int,
) -> Map<Seq<char>, RunnerView> {
    Map::new(
        |key: Seq<char>| new_runners.contains_key(key),
        |key: Seq<char>|
            if old_runners.contains_key(key) {
                settled(grace_period, old_runners[key], new_runners[key])
            } else if new_keys.subrange(0, done).contains(key) {
                first_seen(new_runners[key])
            } else {
                new_runners[key]
            },
    )
}

/// True if `changes` holds, in the order of `keys`, the change of every
/// runner under one of `seen` that has one, once each, and nothing else.
spec fn reports_of(
    seen: Seq<Seq<char>>,
    keys: Seq<Seq<char>>,
    changes: Seq<ChangeView>,
    grace_period: u32,
    old_runners: Map<Seq<char>, RunnerView>,
    new_runners: Map<Seq<char>, RunnerView>,
) -> bool {
    &&& keys.no_duplicates()
    &&& keys.len() == changes.len()
    &&& forall|i: int|
        0 <= i < keys.len() ==> seen.contains(#[trigger] keys[i]) && change_of(
            grace_period,
            old_runners,
            new_runners,
            keys[i],
        ) == Some(changes[i])
    &&& forall|key: Seq<char>|
        seen.contains(key) && (#[trigger] change_of(
            grace_period,
            old_runners,
            new_runners,
            key,
        )) is Some ==> keys.contains(key)
}

/// A prefix that is one longer holds one key more.
proof fn lemma_prefix_grows(keys: Seq<Seq<char>>, done: int)
    requires
        0 <= done < keys.len(),
        keys.no_duplicates(),
    ensures
        keys.subrange(0, done + 1) == keys.subrange(0, done).push(keys[done]),
        !keys.subrange(0, done).contains(keys[done]),
        forall|key: Seq<char>|
            #[trigger] keys.subrange(0, done + 1).contains(key) <==> keys.subrange(0, done).contains(
                key,
            ) || key == keys[done],
{
    let short = keys.subrange(0, done);
    let long = keys.subrange(0, done + 1);
    assert(long =~= short.push(keys[done]));
    if short.contains(keys[done]) {
        let i = short.index_of(keys[done]);
        assert(keys[i] == keys[done]);
    }
    assert forall|key: Seq<char>| #[trigger]
        long.contains(key) <==> short.contains(key) || key == keys[done] by {
        if long.contains(key) {
            let i = long.index_of(key);
            if i < done {
                assert(short[i] == key);
            }
        }
        if short.contains(key) {
            let i = short.index_of(key);
            assert(long[i] == key);
        }
        assert(long[done] == keys[done]);
    }
}

/// A list that is one longer holds one key more.
proof fn lemma_seen_grows(seen: Seq<Seq<char>>, key: Seq<char>)
    ensures
        forall|other: Seq<char>| #[trigger]
            seen.push(key).contains(other) <==> seen.contains(other) || other == key,
{
    assert forall|other: Seq<char>| #[trigger]
        seen.push(key).contains(other) <==> seen.contains(other) || other == key by {
        if seen.contains(other) {
            let i = seen.index_of(other);
            assert(seen.push(key)[i] == other);
        }
        if seen.push(key).contains(other) && other != key {
            let i = seen.push(key).index_of(other);
            assert(seen[i] == other);
        }
        assert(seen.push(key)[seen.len() as int] == key);
    }
}

/// One more key has been seen, and its change, if it has one, stands at
/// the end of the list.
proof fn lemma_reports_grow(
    seen: Seq<Seq<char>>,
    keys: Seq<Seq<char>>,
    changes: Seq<ChangeView>,
    grace_period: u32,
    old_runners: Map<Seq<char>, RunnerView>,
    new_runners: Map<Seq<char>, RunnerView>,
    key: Seq<char>,
)
    requires
        reports_of(seen, keys, changes, grace_period, old_runners, new_runners),
        !seen.contains(key),
    ensures
        match change_of(grace_period, old_runners, new_runners, key) {
            Some(change) => reports_of(
                seen.push(key),
                keys.push(key),
                changes.push(change),
                grace_period,
                old_runners,
                new_runners,
            ),
            None => reports_of(
                seen.push(key),
                keys,
                changes,
                grace_period,
                old_runners,
                new_runners,
            ),
        },
{
    lemma_seen_grows(seen, key);
    match change_of(grace_period, old_runners, new_runners, key) {
        Some(change) => {
            let more_keys = keys.push(key);
            let more_changes = changes.push(change);
            assert forall|i: int, j: int|
                0 <= i < more_keys.len() && 0 <= j < more_keys.len() && i != j implies more_keys[i]
                != more_keys[j] by {
                if i < keys.len() {
                    assert(seen.contains(keys[i]));
                }
                if j < keys.len() {
                    assert(seen.contains(keys[j]));
                }
            }
            assert forall|i: int| 0 <= i < more_keys.len() implies seen.push(key).contains(
                #[trigger] more_keys[i],
            ) && change_of(grace_period, old_runners, new_runners, more_keys[i]) == Some(
                more_changes[i],
            ) by {
                if i < keys.len() {
                    assert(more_keys[i] == keys[i]);
                }
            }
            assert forall|other: Seq<char>|
                seen.push(key).contains(other) && (#[trigger] change_of(
                    grace_period,
                    old_runners,
                    new_runners,
                    other,
                )) is Some implies more_keys.contains(other) by {
                if other == key {
                    assert(more_keys[keys.len() as int] == key);
                } else {
                    let i = keys.index_of(other);
                    assert(more_keys[i] == other);
                }
            }
        },
        None => {},
    }
}

/// Fills in the interpreted state of every runner of the new poll and
/// lists the changes to report.
///
/// Fails, and leaves the new poll as it is, if a runner that both polls
/// have lacks its interpreted state in the previous one.
pub fn plan_changes(grace_period: u32, old_runners: &RunnerMap, new_runners: &mut RunnerMap) -> (outcome:
    Result<Vec<RunnerStateChange>, AlertError>)
    ensures
        outcome is Ok <==> comparable(old_runners@, old(new_runners)@),
        outcome is Ok ==> final(new_runners)@ == reconciled(
            grace_period,
            old_runners@,
            old(new_runners)@,
        ),
        outcome matches Ok(changes) ==> exists|keys: Seq<Seq<char>>|
            reports(keys, change_views(changes@), grace_period, old_runners@, old(new_runners)@),
        outcome matches Err(error) ==> error == AlertError::InvariantViolation,
        outcome is Err ==> *final(new_runners) == *old(new_runners),
{
    if find_uncommitted(old_runners, new_runners) {
        return Err(AlertError::InvariantViolation);
    }
    let ghost olds = old_runners@;
    let ghost news = new_runners@;
    let ghost old_keys = old_runners.keys();
    let ghost new_keys = new_runners.keys();
    let mut changes: Vec<RunnerStateChange> = Vec::new();
    let ghost mut keys: Seq<Seq<char>> = Seq::empty();

    let old_count = old_runners.len();
    let new_count = new_runners.len();
    let mut index: usize = 0;
    proof {
        assert(new_runners@ =~= partly_settled(grace_period, olds, news, old_keys, 0));
        assert(change_views(changes@) =~= Seq::<ChangeView>::empty());
    }
    while index < old_count
        invariant
            index <= old_count,
            old_count == old_keys.len(),
            old_keys == old_runners.keys(),
            old_keys.no_duplicates(),
            olds == old_runners@,
            olds.dom() == old_keys.to_set(),
            comparable(olds, news),
            new_runners.keys() == new_keys,
            new_runners@ == partly_settled(grace_period, olds, news, old_keys, index as int),
            reports_of(
                old_keys.subrange(0, index as int),
                keys,
                change_views(changes@),
                grace_period,
                olds,
                news,
            ),
        decreases old_count - index,
    {
        let old_key = old_runners.key(index);
        let old_runner = old_runners.runner(index);
        let ghost key = old_keys[index as int];
        let ghost seen = old_keys.subrange(0, index as int);
        proof {
            lemma_prefix_grows(old_keys, index as int);
            lemma_reports_grow(
                seen,
                keys,
                change_views(changes@),
                grace_period,
                olds,
                news,
                key,
            );
        }
        match new_runners.position(old_key) {
            None => {
                let ghost before = change_views(changes@);
                changes.push(RunnerStateChange::Removed(old_runner.clone()));
                proof {
                    keys = keys.push(key);
                    assert(change_views(changes@) =~= before.push(
                        ChangeView::Removed(old_runner@),
                    ));
                    assert(new_runners@ =~= partly_settled(
                        grace_period,
                        olds,
                        news,
                        old_keys,
                        index as int + 1,
                    ));
                }
            },
            Some(place) => {
                let mut new_runner = new_runners.runner(place).clone();
                let ghost current = new_runners@;
                assert(current[key] == news[key]);
                assert(olds[key].interpret_online is Some);
                let flipped = match settle_runner(grace_period, old_runner, &mut new_runner) {
                    Ok(flipped) => flipped,
                    Err(error) => { return Err(error); },
                };
                if flipped {
                    let ghost before = change_views(changes@);
                    if new_runner.online_for_github_api {
                        changes.push(
                            RunnerStateChange::Online(old_runner.clone(), new_runner.clone()),
                        );
                    } else {
                        changes.push(
                            RunnerStateChange::Offline(old_runner.clone(), new_runner.clone()),
                        );
                    }
                    proof {
                        keys = keys.push(key);
                        assert(change_views(changes@) =~= before.push(
                            change_of(grace_period, olds, news, key).unwrap(),
                        ));
                    }
                }
                new_runners.set_runner(place, new_runner);
                proof {
                    assert(new_runners@ =~= partly_settled(
                        grace_period,
                        olds,
                        news,
                        old_keys,
                        index as int + 1,
                    ));
                }
            },
        }
        index += 1;
    }

    let ghost mut seen = old_keys;
    proof {
        assert(old_keys.subrange(0, old_count as int) =~= old_keys);
        assert(new_keys.subrange(0, 0) =~= Seq::<Seq<char>>::empty());
        assert(new_runners@ =~= partly_reconciled(grace_period, olds, news, new_keys, 0));
    }
    let mut index: usize = 0;
    while index < new_count
        invariant
            index <= new_count,
            new_count == new_keys.len(),
            new_keys.no_duplicates(),
            olds == old_runners@,
            comparable(olds, news),
            news.dom() == new_keys.to_set(),
            new_runners.keys() == new_keys,
            new_runners@ == partly_reconciled(grace_period, olds, news, new_keys, index as int),
            forall|key: Seq<char>|
                seen.contains(key) <==> olds.contains_key(key) || new_keys.subrange(
                    0,
                    index as int,
                ).contains(key),
            reports_of(seen, keys, change_views(changes@), grace_period, olds, news),
        decreases new_count - index,
    {
        let ghost key = new_keys[index as int];
        proof {
            lemma_prefix_grows(new_keys, index as int);
            assert(new_keys.to_set().contains(key));
        }
        if !old_runners.contains_key(new_runners.key(index)) {
            let mut new_runner = new_runners.runner(index).clone();
            new_runner.interpret_online = Some(new_runner.online_for_github_api);
            let ghost before = change_views(changes@);
            changes.push(RunnerStateChange::Created(new_runner.clone()));
            new_runners.set_runner(index, new_runner);
            proof {
                lemma_reports_grow(seen, keys, before, grace_period, olds, news, key);
                lemma_seen_grows(seen, key);
                keys = keys.push(key);
                seen = seen.push(key);
                assert(change_views(changes@) =~= before.push(
                    ChangeView::Created(first_seen(news[key])),
                ));
            }
        }
        proof {
            assert(new_runners@ =~= partly_reconciled(
                grace_period,
                olds,
                news,
                new_keys,
                index as int + 1,
            ));
        }
        index += 1;
    }
    let outcome = Ok(changes);
    proof {
        assert(new_keys.subrange(0, new_count as int) =~= new_keys);
        assert(new_runners@ =~= reconciled(grace_period, olds, news));
        assert(reports(keys, change_views(outcome->Ok_0@), grace_period, olds, news));
    }
    outcome
}

/// True if no runner has a change to report.
pub open spec fn quiet(
    grace_period: u32,
    old_runners: Map<Seq<char>, RunnerView>,
    new_runners: Map<Seq<char>, RunnerView>,
) -> bool {
    forall|key: Seq<char>|
        (#[trigger] change_of(grace_period, old_runners, new_runners, key)) is None
}

/// What a comparison makes of the handler's answer: a change that could
/// not be delivered ends it, with the handler's reason.
pub fn delivery_outcome(sent: Result<(), String>) -> (outcome: Result<(), AlertError>)
    ensures
        outcome == match sent {
            Ok(_) => Ok::<(), AlertError>(()),
            Err(reason) => Err::<(), AlertError>(AlertError::NotificationError(reason)),
        },
{
    match sent {
        Ok(_) => Ok(()),
        Err(reason) => Err(AlertError::NotificationError(reason)),
    }
}

/// Hands the changes to the handler one by one, in their order, and stops
/// at the first that it cannot deliver: that failure is the outcome, with
/// the handler's reason. Where the handler delivers every change, and
/// where there is none, the outcome is `Ok`.
pub fn send_changes<H: AlertHandler>(
    cfg: &Config,
    changes: Vec<RunnerStateChange>,
    outbox: &mut Outbox<H>,
) -> (outcome: Result<(), AlertError>)
    ensures
        final(outbox).took(*old(outbox), change_views(changes@), outcome),
{
    let ghost all = change_views(changes@);
    proof {
        assert(outbox.handed() =~= old(outbox).handed() + all.subrange(0, 0));
        assert(outbox.answers() =~= old(outbox).answers() + all_delivered(0));
    }
    for change in iter: changes
        invariant
            all == change_views(changes@),
            iter.seq() == changes@,
            outbox.handed() == old(outbox).handed() + all.subrange(0, iter.index() as int),
            outbox.answers() == old(outbox).answers() + all_delivered(iter.index() as int),
    {
        let ghost done = iter.index() as int;
        proof {
            assert(old(outbox).handed() + all.subrange(0, done + 1) =~= (old(outbox).handed()
                + all.subrange(0, done)).push(change@));
        }
        let sent = outbox.send(cfg, change);
        proof {
            assert(old(outbox).answers() + all_delivered(done).push(answer_of(sent)) =~= (old(
                outbox,
            ).answers() + all_delivered(done)).push(answer_of(sent)));
            assert(all_delivered(done + 1) =~= all_delivered(done).push(Answer::Delivered));
        }
        match sent {
            Ok(_) => {},
            Err(error) => {
                assert(0 < done + 1 <= all.len());
                return Err(error);
            },
        }
    }
    proof {
        assert(all.subrange(0, all.len() as int) =~= all);
    }
    Ok(())
}

/// Compares the new poll with the previous one: fills in the interpreted
/// state of every runner of the new poll, which the grace period holds
/// back, and hands each change to the handler in the outbox, once.
///
/// Fails before anything is changed or sent if a runner that both polls
/// have lacks its interpreted state in the previous one. Fails when the
/// handler cannot deliver a change, with the handler's reason; the changes
/// after that one are not handed over. Succeeds where the handler has
/// delivered every change, and where there is none. After a failure the
/// new poll is of no use: the next poll is to be compared with the same
/// previous one again.
pub fn alert_all_changes_and_update_grace_period<H: AlertHandler>(
    cfg: &Config,
    old_runners: &RunnerMap,
    new_runners: &mut RunnerMap,
    outbox: &mut Outbox<H>,
) -> (outcome: Result<(), AlertError>)
    ensures
        !comparable(old_runners@, old(new_runners)@) ==> {
            &&& outcome == Err::<(), AlertError>(AlertError::InvariantViolation)
            &&& *final(new_runners) == *old(new_runners)
            &&& final(outbox).handed() == old(outbox).handed()
            &&& final(outbox).answers() == old(outbox).answers()
        },
        comparable(old_runners@, old(new_runners)@) ==> {
            &&& final(new_runners)@ == reconciled(
                cfg.grace_period,
                old_runners@,
                old(new_runners)@,
            )
            &&& exists|keys: Seq<Seq<char>>, changes: Seq<ChangeView>|
                {
                    &&& #[trigger] reports(
                        keys,
                        changes,
                        cfg.grace_period,
                        old_runners@,
                        old(new_runners)@,
                    )
                    &&& final(outbox).took(*old(outbox), changes, outcome)
                }
            &&& quiet(cfg.grace_period, old_runners@, old(new_runners)@) ==> outcome is Ok
        },
{
    let changes = match plan_changes(cfg.grace_period, old_runners, new_runners) {
        Ok(changes) => changes,
        Err(error) => { return Err(error); },
    };
    proof {
        let keys = choose|keys: Seq<Seq<char>>|
            reports(
                keys,
                change_views(changes@),
                cfg.grace_period,
                old_runners@,
                old(new_runners)@,
            );
        if quiet(cfg.grace_period, old_runners@, old(new_runners)@) {
            lemma_quiet_polls_report_nothing(
                keys,
                change_views(changes@),
                cfg.grace_period,
                old_runners@,
                old(new_runners)@,
            );
        }
    }
    send_changes(cfg, changes, outbox)
}

/// Compares the new poll with the previous one, hands each change to the
/// handler in the outbox, and, if all went well, puts the new poll, with
/// every interpreted state filled in, in the place of the previous one.
///
/// After a failure the previous poll is as it was, so that the next poll
/// is compared with it again. The comparison fails, and the outbox is
/// handed the changes, as `alert_all_changes_and_update_grace_period`
/// says.
pub fn reconcile_and_commit<H: AlertHandler>(
    cfg: &Config,
    runners: &mut RunnerMap,
    new_runners: RunnerMap,
    outbox: &mut Outbox<H>,
) -> (outcome: Result<(), AlertError>)
    ensures
        outcome is Err ==> *final(runners) == *old(runners),
        outcome is Ok ==> final(runners)@ == reconciled(
            cfg.grace_period,
            old(runners)@,
            new_runners@,
        ),
        !comparable(old(runners)@, new_runners@) ==> {
            &&& outcome == Err::<(), AlertError>(AlertError::InvariantViolation)
            &&& final(outbox).handed() == old(outbox).handed()
            &&& final(outbox).answers() == old(outbox).answers()
        },
        comparable(old(runners)@, new_runners@) ==> {
            &&& exists|keys: Seq<Seq<char>>, changes: Seq<ChangeView>|
                {
                    &&& #[trigger] reports(
                        keys,
                        changes,
                        cfg.grace_period,
                        old(runners)@,
                        new_runners@,
                    )
                    &&& final(outbox).took(*old(outbox), changes, outcome)
                }
            &&& quiet(cfg.grace_period, old(runners)@, new_runners@) ==> outcome is Ok
        },
{
    let mut reconciled_runners = new_runners;
    match alert_all_changes_and_update_grace_period(cfg, runners, &mut reconciled_runners, outbox) {
        Ok(_) => {
            *runners = reconciled_runners;
            Ok(())
        },
        Err(error) => Err(error),
    }
}

/// Where no runner has a change, the list of changes is empty.
pub proof fn lemma_quiet_polls_report_nothing(
    keys: Seq<Seq<char>>,
    changes: Seq<ChangeView>,
    grace_period: u32,
    old_runners: Map<Seq<char>, RunnerView>,
    new_runners: Map<Seq<char>, RunnerView>,
)
    requires
        quiet(grace_period, old_runners, new_runners),
        reports(keys, changes, grace_period, old_runners, new_runners),
    ensures
        changes.len() == 0,
{
    if keys.len() > 0 {
        assert(change_of(grace_period, old_runners, new_runners, keys[0]) is Some);
    }
}

/// With a grace period of 0 a runner that both polls have is taken for
/// what the new poll says, and a change is reported exactly when that
/// contradicts what the runner was taken for before.
pub proof fn lemma_no_grace_passes_through(
    old_runners: Map<Seq<char>, RunnerView>,
    new_runners: Map<Seq<char>, RunnerView>,
    key: Seq<char>,
)
    requires
        old_runners.contains_key(key),
        new_runners.contains_key(key),
    ensures
        reconciled(0, old_runners, new_runners)[key].interpret_online == Some(
            new_runners[key].online_for_github_api,
        ),
        change_of(0, old_runners, new_runners, key) is Some <==> old_runners[key].interpret_online
            != Some(new_runners[key].online_for_github_api),
{
}

/// While a runner has contradicted its interpreted state for no more
/// polls than the grace period allows, nothing is reported about it and
/// its interpreted state stays what it was.
pub proof fn lemma_grace_period_holds_changes_back(
    grace_period: u32,
    old_runners: Map<Seq<char>, RunnerView>,
    new_runners: Map<Seq<char>, RunnerView>,
    key: Seq<char>,
)
    requires
        old_runners.contains_key(key),
        new_runners.contains_key(key),
        0 < pending_polls(old_runners[key], new_runners[key]) <= grace_period,
    ensures
        change_of(grace_period, old_runners, new_runners, key) is None,
        reconciled(grace_period, old_runners, new_runners)[key].interpret_online
            == old_runners[key].interpret_online,
        reconciled(grace_period, old_runners, new_runners)[key].online_state_change_since
            == pending_polls(old_runners[key], new_runners[key]),
{
}

/// In the poll in which a runner has contradicted its interpreted state
/// for more polls than the grace period allows, the change is reported:
/// online or offline, as the new poll says. The interpreted state follows
/// and the count of contradicting polls starts again at 0.
pub proof fn lemma_outlasted_grace_period_is_reported(
    grace_period: u32,
    old_runners: Map<Seq<char>, RunnerView>,
    new_runners: Map<Seq<char>, RunnerView>,
    key: Seq<char>,
)
    requires
        old_runners.contains_key(key),
        new_runners.contains_key(key),
        pending_polls(old_runners[key], new_runners[key]) > grace_period,
    ensures
        change_of(grace_period, old_runners, new_runners, key) == Some(
            if new_runners[key].online_for_github_api {
                ChangeView::Online(
                    old_runners[key],
                    reconciled(grace_period, old_runners, new_runners)[key],
                )
            } else {
                ChangeView::Offline(
                    old_runners[key],
                    reconciled(grace_period, old_runners, new_runners)[key],
                )
            },
        ),
        reconciled(grace_period, old_runners, new_runners)[key].interpret_online == Some(
            new_runners[key].online_for_github_api,
        ),
        reconciled(grace_period, old_runners, new_runners)[key].online_state_change_since == 0,
{
}

/// A runner that is gone is reported as removed in the very poll that
/// lacks it, whatever the grace period, and is not carried on.
pub proof fn lemma_removal_is_reported_at_once(
    grace_period: u32,
    old_runners: Map<Seq<char>, RunnerView>,
    new_runners: Map<Seq<char>, RunnerView>,
    key: Seq<char>,
)
    requires
        old_runners.contains_key(key),
        !new_runners.contains_key(key),
    ensures
        change_of(grace_period, old_runners, new_runners, key) == Some(
            ChangeView::Removed(old_runners[key]),
        ),
        !reconciled(grace_period, old_runners, new_runners).contains_key(key),
{
}

/// A runner that is new is reported as created in the very poll that
/// brings it, whatever the grace period, and is taken for what that poll
/// says.
pub proof fn lemma_creation_is_reported_at_once(
    grace_period: u32,
    old_runners: Map<Seq<char>, RunnerView>,
    new_runners: Map<Seq<char>, RunnerView>,
    key: Seq<char>,
)
    requires
        !old_runners.contains_key(key),
        new_runners.contains_key(key),
    ensures
        change_of(grace_period, old_runners, new_runners, key) == Some(
            ChangeView::Created(reconciled(grace_period, old_runners, new_runners)[key]),
        ),
        reconciled(grace_period, old_runners, new_runners)[key].interpret_online == Some(
            new_runners[key].online_for_github_api,
        ),
{
}

/// A list of changes that `reports` accepts holds exactly one change for
/// each runner that has one and none for any other.
pub proof fn lemma_each_change_is_reported_once(
    keys: Seq<Seq<char>>,
    changes: Seq<ChangeView>,
    grace_period: u32,
    old_runners: Map<Seq<char>, RunnerView>,
    new_runners: Map<Seq<char>, RunnerView>,
    key: Seq<char>,
)
    requires
        reports(keys, changes, grace_period, old_runners, new_runners),
    ensures
        match change_of(grace_period, old_runners, new_runners, key) {
            Some(change) => exists|i: int|
                {
                    &&& 0 <= i < keys.len()
                    &&& #[trigger] keys[i] == key
                    &&& changes[i] == change
                    &&& forall|j: int| 0 <= j < keys.len() && j != i ==> keys[j] != key
                },
            None => !keys.contains(key),
        },
{
    match change_of(grace_period, old_runners, new_runners, key) {
        Some(change) => {
            let i = keys.index_of(key);
            assert(keys[i] == key);
        },
        None => {
            if keys.contains(key) {
                let i = keys.index_of(key);
                assert(keys[i] == key);
            }
        },
    }
}

/// If the new poll has the same runners as the previous one, each with
/// the same raw state, then nothing is reported, whatever else has changed
/// about them (name, system, labels), unless the previous poll left a
/// runner on the point of flipping: contradicting its interpreted state for
/// as many polls as the grace period allows.
pub proof fn lemma_changed_descriptions_are_not_reported(
    grace_period: u32,
    old_runners: Map<Seq<char>, RunnerView>,
    new_runners: Map<Seq<char>, RunnerView>,
)
    requires
        old_runners.dom() == new_runners.dom(),
        forall|key: Seq<char>| #[trigger]
            old_runners.contains_key(key) ==> {
                &&& new_runners[key].online_for_github_api
                    == old_runners[key].online_for_github_api
                &&& (old_runners[key].interpret_online == Some(
                    old_runners[key].online_for_github_api,
                ) || old_runners[key].online_state_change_since < grace_period)
            },
    ensures
        quiet(grace_period, old_runners, new_runners),
        forall|keys: Seq<Seq<char>>, changes: Seq<ChangeView>| #[trigger]
            reports(keys, changes, grace_period, old_runners, new_runners) ==> changes.len() == 0,
{
    assert forall|key: Seq<char>|
        (#[trigger] change_of(grace_period, old_runners, new_runners, key)) is None by {
        assert(old_runners.contains_key(key) <==> new_runners.contains_key(key)) by {
            assert(old_runners.dom().contains(key) <==> new_runners.dom().contains(key));
        }
    }
    assert forall|keys: Seq<Seq<char>>, changes: Seq<ChangeView>| #[trigger]
        reports(keys, changes, grace_period, old_runners, new_runners) implies changes.len()
        == 0 by {
        lemma_quiet_polls_report_nothing(keys, changes, grace_period, old_runners, new_runners);
    }
}

/// What a comparison leaves behind can be the previous poll of the next
/// comparison: every runner in it has an interpreted state, and none has
/// contradicted it for more polls than the grace period allows, but for
/// what a new runner brought along.
pub proof fn lemma_reconciled_is_committed(
    grace_period: u32,
    old_runners: Map<Seq<char>, RunnerView>,
    new_runners: Map<Seq<char>, RunnerView>,
    key: Seq<char>,
)
    requires
        comparable(old_runners, new_runners),
        reconciled(grace_period, old_runners, new_runners).contains_key(key),
    ensures
        new_runners.contains_key(key),
        reconciled(grace_period, old_runners, new_runners)[key].interpret_online is Some,
        old_runners.contains_key(key) ==> reconciled(
            grace_period,
            old_runners,
            new_runners,
        )[key].online_state_change_since <= grace_period,
{
    if old_runners.contains_key(key) {
        assert(old_runners[key].interpret_online is Some);
    }
}

/// After a comparison that did not fail, the new poll can be the previous
/// poll of the next comparison, whatever the next poll brings.
pub proof fn lemma_next_comparison_can_follow(
    grace_period: u32,
    old_runners: Map<Seq<char>, RunnerView>,
    new_runners: Map<Seq<char>, RunnerView>,
    next_runners: Map<Seq<char>, RunnerView>,
)
    requires
        comparable(old_runners, new_runners),
    ensures
        comparable(reconciled(grace_period, old_runners, new_runners), next_runners),
{
    let now = reconciled(grace_period, old_runners, new_runners);
    assert forall|key: Seq<char>| now.contains_key(key) && next_runners.contains_key(key) implies (
    #[trigger] now[key]).interpret_online is Some by {
        lemma_reconciled_is_committed(grace_period, old_runners, new_runners, key);
    }
}

} // verus!
