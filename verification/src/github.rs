//! What GitHub says about runners, and how a runner is named and keyed.

use crate::runner_map::RunnerMap;
use crate::structs::{string_views, Runner, RunnerSetConfig, RunnerView};
use vstd::prelude::*;
use vstd::string::StringExecFns;

verus! {

/// The answer to a request for the runners of one runner set.
#[derive(Debug)]
pub struct JSONRunnerSetResponse {
    pub runners: Vec<JSONRunnerResponse>,
}

/// One runner in such an answer.
#[derive(Debug)]
pub struct JSONRunnerResponse {
    pub id: i64,
    pub name: String,
    pub os: String,
    pub status: String,
    pub busy: bool,
    pub labels: Vec<JSONLabelResponse>,
}

/// One label of a runner in such an answer.
#[derive(Debug)]
pub struct JSONLabelResponse {
    pub id: i64,
    pub name: String,
    pub type_field: String,
}

/// The names of a runner's labels.
pub open spec fn label_names(labels: Seq<JSONLabelResponse>) -> Seq<Seq<char>> {
    Seq::new(labels.len(), |i: int| labels[i].name@)
}

/// The runner that an answer of GitHub describes, seen at `utc_ping_time`
/// in the runner set with this name and webhook endpoint. GitHub calls a
/// runner that is up `online`; every other status counts as offline. With
/// `interpret_immediately` the raw state is taken for the interpreted one.
pub open spec fn runner_from(
    json_runner: JSONRunnerResponse,
    runner_set: Seq<char>,
    webhook_endpoint: Seq<char>,
    interpret_immediately: bool,
    utc_ping_time: Seq<char>,
) -> RunnerView {
    let online = json_runner.status@ == "online"@;
    RunnerView {
        utc_ping_time,
        interpret_online: if interpret_immediately {
            Some(online)
        } else {
            None
        },
        online_for_github_api: online,
        online_state_change_since: 0,
        runner_set,
        id: json_runner.id as int,
        name: json_runner.name@,
        os: json_runner.os@,
        labels: label_names(json_runner.labels@),
        webhook_endpoint,
    }
}

/// True if `runner` is what the last of the first `done` answers that
/// has this key describes, seen at whatever time the runner shows.
pub open spec fn last_parsed(
    answers: Seq<JSONRunnerResponse>,
    done: int,
    runner_set: Seq<char>,
    webhook_endpoint: Seq<char>,
    interpret_immediately: bool,
    key: Seq<char>,
    runner: RunnerView,
) -> bool {
    exists|i: int|
        {
            &&& 0 <= i < done
            &&& #[trigger] runner_key(runner_set, answers[i].id as int) == key
            &&& runner == runner_from(
                answers[i],
                runner_set,
                webhook_endpoint,
                interpret_immediately,
                runner.utc_ping_time,
            )
            &&& forall|j: int|
                i < j < done ==> #[trigger] runner_key(runner_set, answers[j].id as int) != key
        }
}

/// True if one of the first `done` answers has this key.
pub open spec fn has_key(
    answers: Seq<JSONRunnerResponse>,
    done: int,
    runner_set: Seq<char>,
    key: Seq<char>,
) -> bool {
    exists|i: int| 0 <= i < done && #[trigger] runner_key(runner_set, answers[i].id as int) == key
}

/// The character for a digit.
pub open spec fn digit_char(digit: int) -> char {
    if digit == 0 {
        '0'
    } else if digit == 1 {
        '1'
    } else if digit == 2 {
        '2'
    } else if digit == 3 {
        '3'
    } else if digit == 4 {
        '4'
    } else if digit == 5 {
        '5'
    } else if digit == 6 {
        '6'
    } else if digit == 7 {
        '7'
    } else if digit == 8 {
        '8'
    } else {
        '9'
    }
}

/// A natural number in decimal digits, without leading zeros.
pub open spec fn decimal(number: nat) -> Seq<char>
    decreases number,
{
    if number < 10 {
        seq![digit_char(number as int)]
    } else {
        decimal(number / 10).push(digit_char((number % 10) as int))
    }
}

/// An integer in decimal digits, with `-` before a negative one.
pub open spec fn signed_decimal(number: int) -> Seq<char> {
    if number < 0 {
        seq!['-'] + decimal((-number) as nat)
    } else {
        decimal(number as nat)
    }
}

/// The key of the runner with this id in this runner set.
pub open spec fn runner_key(runner_set: Seq<char>, id: int) -> Seq<char> {
    runner_set + "; runner id: "@ + signed_decimal(id)
}

/// The endpoint that lists the runners of a repository.
pub open spec fn repo_endpoint(base_uri: Seq<char>, repo_name: Seq<char>) -> Seq<char> {
    base_uri + "/repos/"@ + repo_name + "/actions/runners"@
}

/// The endpoint that lists the runners of an organisation.
pub open spec fn org_endpoint(base_uri: Seq<char>, org_name: Seq<char>) -> Seq<char> {
    base_uri + "/orgs/"@ + org_name + "/actions/runners"@
}

/// The endpoint that lists the runners of an enterprise.
pub open spec fn enterprise_endpoint(base_uri: Seq<char>, enterprise_name: Seq<char>) -> Seq<
    char,
> {
    base_uri + "/enterprises/"@ + enterprise_name + "/actions/runners"@
}

fn digit_text(digit: u64) -> (text: &'static str)
    requires
        digit < 10,
    ensures
        text@ == seq![digit_char(digit as int)],
{
    proof {
        reveal_strlit("0");
        reveal_strlit("1");
        reveal_strlit("2");
        reveal_strlit("3");
        reveal_strlit("4");
        reveal_strlit("5");
        reveal_strlit("6");
        reveal_strlit("7");
        reveal_strlit("8");
        reveal_strlit("9");
    }
    let text = if digit == 0 {
        "0"
    } else if digit == 1 {
        "1"
    } else if digit == 2 {
        "2"
    } else if digit == 3 {
        "3"
    } else if digit == 4 {
        "4"
    } else if digit == 5 {
        "5"
    } else if digit == 6 {
        "6"
    } else if digit == 7 {
        "7"
    } else if digit == 8 {
        "8"
    } else {
        "9"
    };
    assert(text@ =~= seq![digit_char(digit as int)]);
    text
}

/// Writes a number in decimal digits behind `text`.
fn append_decimal(text: &mut String, number: u64)
    ensures
        final(text)@ == old(text)@ + decimal(number as nat),
    decreases number,
{
    if number < 10 {
        text.append(digit_text(number));
    } else {
        append_decimal(text, number / 10);
        text.append(digit_text(number % 10));
        assert(text@ =~= old(text)@ + decimal(number as nat));
    }
}

/// Writes an integer in decimal digits behind `text`.
fn append_signed_decimal(text: &mut String, number: i64)
    ensures
        final(text)@ == old(text)@ + signed_decimal(number as int),
{
    if number < 0 {
        proof {
            reveal_strlit("-");
        }
        text.append("-");
        let magnitude: u64 = (-(number + 1)) as u64 + 1;
        append_decimal(text, magnitude);
        assert("-"@ =~= seq!['-']);
        assert(text@ =~= old(text)@ + signed_decimal(number as int));
    } else {
        append_decimal(text, number as u64);
    }
}

/// Gives a runner its key, under which it stands in a snapshot. The key
/// names the runner set and the id, so it stays the same from poll to poll.
pub fn key_runner(runner: Runner) -> (keyed: (String, Runner))
    ensures
        keyed.0@ == runner_key(runner@.runner_set, runner@.id),
        keyed.1 == runner,
{
    let mut key = runner.runner_set.clone();
    key.append("; runner id: ");
    append_signed_decimal(&mut key, runner.id);
    (key, runner)
}

/// The endpoint that lists the runners of a repository.
pub fn get_github_repo_endpoint(base_uri: &str, repo_name: &str) -> (endpoint: String)
    ensures
        endpoint@ == repo_endpoint(base_uri@, repo_name@),
{
    let mut endpoint = String::from_str(base_uri);
    endpoint.append("/repos/");
    endpoint.append(repo_name);
    endpoint.append("/actions/runners");
    endpoint
}

/// The endpoint that lists the runners of an organisation.
pub fn get_github_org_endpoint(base_uri: &str, org_name: &str) -> (endpoint: String)
    ensures
        endpoint@ == org_endpoint(base_uri@, org_name@),
{
    let mut endpoint = String::from_str(base_uri);
    endpoint.append("/orgs/");
    endpoint.append(org_name);
    endpoint.append("/actions/runners");
    endpoint
}

/// The endpoint that lists the runners of an enterprise.
pub fn get_github_enterprise_endpoint(base_uri: &str, enterprise_name: &str) -> (endpoint: String)
    ensures
        endpoint@ == enterprise_endpoint(base_uri@, enterprise_name@),
{
    let mut endpoint = String::from_str(base_uri);
    endpoint.append("/enterprises/");
    endpoint.append(enterprise_name);
    endpoint.append("/actions/runners");
    endpoint
}

/// True for the ten digits.
spec fn is_digit(character: char) -> bool {
    exists|digit: int| 0 <= digit < 10 && character == #[trigger] digit_char(digit)
}

/// A number in decimal has at least one character, at least two from 10
/// on, and digits only.
proof fn lemma_decimal_shape(number: nat)
    ensures
        decimal(number).len() >= 1,
        number >= 10 ==> decimal(number).len() >= 2,
        forall|i: int| 0 <= i < decimal(number).len() ==> is_digit(#[trigger] decimal(number)[i]),
    decreases number,
{
    if number < 10 {
        assert(decimal(number)[0] == digit_char(number as int));
    } else {
        lemma_decimal_shape(number / 10);
        let front = decimal(number / 10);
        assert forall|i: int| 0 <= i < decimal(number).len() implies is_digit(
            #[trigger] decimal(number)[i],
        ) by {
            if i < front.len() {
                assert(decimal(number)[i] == front[i]);
            } else {
                assert(decimal(number)[i] == digit_char((number % 10) as int));
            }
        }
    }
}

/// Two numbers with the same decimal digits are the same number.
proof fn lemma_decimal_is_injective(left: nat, right: nat)
    requires
        decimal(left) == decimal(right),
    ensures
        left == right,
    decreases left,
{
    lemma_decimal_shape(left);
    lemma_decimal_shape(right);
    if left < 10 {
        assert(decimal(left)[0] == digit_char(left as int));
        assert(decimal(right)[0] == digit_char(right as int));
    } else {
        let front_left = decimal(left / 10);
        let front_right = decimal(right / 10);
        assert(decimal(left).drop_last() =~= front_left);
        assert(decimal(right).drop_last() =~= front_right);
        assert(decimal(left).last() == digit_char((left % 10) as int));
        assert(decimal(right).last() == digit_char((right % 10) as int));
        lemma_decimal_is_injective(left / 10, right / 10);
    }
}

/// Two integers that are written alike are the same integer.
proof fn lemma_signed_decimal_is_injective(left: int, right: int)
    requires
        signed_decimal(left) == signed_decimal(right),
    ensures
        left == right,
{
    if left < 0 {
        lemma_decimal_shape((-left) as nat);
        assert(signed_decimal(left)[0] == '-');
    } else {
        lemma_decimal_shape(left as nat);
        assert(is_digit(signed_decimal(left)[0]));
    }
    if right < 0 {
        lemma_decimal_shape((-right) as nat);
        assert(signed_decimal(right)[0] == '-');
    } else {
        lemma_decimal_shape(right as nat);
        assert(is_digit(signed_decimal(right)[0]));
    }
    if left < 0 && right < 0 {
        assert(signed_decimal(left).subrange(1, signed_decimal(left).len() as int) =~= decimal(
            (-left) as nat,
        ));
        assert(signed_decimal(right).subrange(1, signed_decimal(right).len() as int) =~= decimal(
            (-right) as nat,
        ));
        lemma_decimal_is_injective((-left) as nat, (-right) as nat);
    } else if left >= 0 && right >= 0 {
        lemma_decimal_is_injective(left as nat, right as nat);
    }
}

/// An integer is written without a blank.
proof fn lemma_signed_decimal_has_no_blank(number: int)
    ensures
        signed_decimal(number).len() >= 1,
        forall|i: int|
            0 <= i < signed_decimal(number).len() ==> #[trigger] signed_decimal(number)[i] != ' ',
{
    if number < 0 {
        lemma_decimal_shape((-number) as nat);
        let digits = decimal((-number) as nat);
        assert forall|i: int| 0 <= i < signed_decimal(number).len() implies #[trigger] signed_decimal(
            number,
        )[i] != ' ' by {
            if i > 0 {
                assert(signed_decimal(number)[i] == digits[i - 1]);
                assert(is_digit(digits[i - 1]));
            }
        }
    } else {
        lemma_decimal_shape(number as nat);
        let digits = decimal(number as nat);
        assert forall|i: int| 0 <= i < signed_decimal(number).len() implies #[trigger] signed_decimal(
            number,
        )[i] != ' ' by {
            assert(is_digit(digits[i]));
        }
    }
}

/// Keys do not collide: two runners have the same key only if they have
/// the same id in the same runner set.
pub proof fn lemma_keys_do_not_collide(
    runner_set: Seq<char>,
    id: int,
    other_runner_set: Seq<char>,
    other_id: int,
)
    requires
        runner_key(runner_set, id) == runner_key(other_runner_set, other_id),
    ensures
        runner_set == other_runner_set,
        id == other_id,
{
    reveal_strlit("; runner id: ");
    let middle = "; runner id: "@;
    let key = runner_key(runner_set, id);
    let other_key = runner_key(other_runner_set, other_id);
    let digits = signed_decimal(id);
    let other_digits = signed_decimal(other_id);
    lemma_signed_decimal_has_no_blank(id);
    lemma_signed_decimal_has_no_blank(other_id);
    assert(middle.len() == 13);
    assert(middle[12] == ' ');
    assert(key.len() == runner_set.len() + 13 + digits.len());
    assert(other_key.len() == other_runner_set.len() + 13 + other_digits.len());
    if runner_set.len() < other_runner_set.len() {
        let blank = (other_runner_set.len() + 12) as int;
        assert(other_key[blank] == middle[12]);
        assert(key[blank] == digits[blank - runner_set.len() - 13]);
    }
    if other_runner_set.len() < runner_set.len() {
        let blank = (runner_set.len() + 12) as int;
        assert(key[blank] == middle[12]);
        assert(other_key[blank] == other_digits[blank - other_runner_set.len() - 13]);
    }
    assert(runner_set =~= other_runner_set) by {
        assert forall|i: int| 0 <= i < runner_set.len() implies runner_set[i]
            == other_runner_set[i] by {
            assert(key[i] == runner_set[i]);
            assert(other_key[i] == other_runner_set[i]);
        }
    }
    assert(digits =~= other_digits) by {
        assert forall|i: int| 0 <= i < digits.len() implies digits[i] == other_digits[i] by {
            assert(key[runner_set.len() + 13 + i] == digits[i]);
            assert(other_key[runner_set.len() + 13 + i] == other_digits[i]);
        }
    }
    lemma_signed_decimal_is_injective(id, other_id);
}

/// The time of the system clock, in UTC, written as RFC 3339 demands:
/// `std::time::SystemTime::now`, chrono's conversion of a `SystemTime`
/// into a `DateTime<Utc>`, and `DateTime::to_rfc3339`. Nothing is claimed
/// of the text. The conversion takes a clock that stands before 1970 as
/// well as one that stands after it.
#[verifier::external_body]
fn utc_now_rfc3339() -> String {
    chrono::DateTime::<chrono::Utc>::from(std::time::SystemTime::now()).to_rfc3339()
}

/// The names of a runner's labels.
fn names_of_labels(labels: Vec<JSONLabelResponse>) -> (names: Vec<String>)
    ensures
        string_views(names@) == label_names(labels@),
{
    let mut names: Vec<String> = Vec::new();
    let ghost all = labels@;
    for label in iter: labels
        invariant
            iter.seq() == all,
            names@.len() == iter.index(),
            forall|i: int| 0 <= i < names@.len() ==> names@[i]@ == all[i].name@,
    {
        names.push(label.name);
    }
    assert(string_views(names@) =~= label_names(all));
    names
}

/// Turns an answer of GitHub into a runner with its key, seen at
/// `utc_ping_time`.
pub fn runner_seen_at(
    json_runner: JSONRunnerResponse,
    runner_set: &RunnerSetConfig,
    interpret_immediately: bool,
    utc_ping_time: String,
) -> (keyed: (String, Runner))
    ensures
        keyed.0@ == runner_key(runner_set.name@, json_runner.id as int),
        keyed.1@ == runner_from(
            json_runner,
            runner_set.name@,
            runner_set.webhook_endpoint@,
            interpret_immediately,
            utc_ping_time@,
        ),
{
    let online_for_github_api = json_runner.status == String::from_str("online");
    let runner = Runner {
        utc_ping_time,
        interpret_online: if interpret_immediately {
            Some(online_for_github_api)
        } else {
            None
        },
        online_for_github_api,
        online_state_change_since: 0,
        runner_set: runner_set.name.clone(),
        id: json_runner.id,
        name: json_runner.name,
        os: json_runner.os,
        labels: names_of_labels(json_runner.labels),
        webhook_endpoint: runner_set.webhook_endpoint.clone(),
    };
    key_runner(runner)
}

/// Turns an answer of GitHub into a runner with its key, seen now.
pub fn parse_runner(
    json_runner: JSONRunnerResponse,
    runner_set: &RunnerSetConfig,
    interpret_immediately: bool,
) -> (keyed: (String, Runner))
    ensures
        keyed.0@ == runner_key(runner_set.name@, json_runner.id as int),
        keyed.1@ == runner_from(
            json_runner,
            runner_set.name@,
            runner_set.webhook_endpoint@,
            interpret_immediately,
            keyed.1@.utc_ping_time,
        ),
{
    runner_seen_at(json_runner, runner_set, interpret_immediately, utc_now_rfc3339())
}

/// Turns the answer for one runner set into a snapshot of its runners,
/// each seen now. Where GitHub names an id twice, the later runner stays.
pub fn parse_runners(
    response: JSONRunnerSetResponse,
    runner_set: &RunnerSetConfig,
    interpret_immediately: bool,
) -> (runners: RunnerMap)
    ensures
        forall|key: Seq<char>|
            #[trigger] runners@.contains_key(key) <==> has_key(
                response.runners@,
                response.runners@.len() as int,
                runner_set.name@,
                key,
            ),
        forall|key: Seq<char>|
            #[trigger] runners@.contains_key(key) ==> last_parsed(
                response.runners@,
                response.runners@.len() as int,
                runner_set.name@,
                runner_set.webhook_endpoint@,
                interpret_immediately,
                key,
                runners@[key],
            ),
{
    let mut runners = RunnerMap::new();
    let ghost all = response.runners@;
    let ghost set_name = runner_set.name@;
    let ghost endpoint = runner_set.webhook_endpoint@;
    for json_runner in iter: response.runners
        invariant
            iter.seq() == all,
            set_name == runner_set.name@,
            endpoint == runner_set.webhook_endpoint@,
            forall|key: Seq<char>|
                #[trigger] runners@.contains_key(key) <==> has_key(
                    all,
                    iter.index() as int,
                    set_name,
                    key,
                ),
            forall|key: Seq<char>|
                #[trigger] runners@.contains_key(key) ==> last_parsed(
                    all,
                    iter.index() as int,
                    set_name,
                    endpoint,
                    interpret_immediately,
                    key,
                    runners@[key],
                ),
    {
        let ghost done = iter.index() as int;
        let ghost before = runners@;
        let keyed = parse_runner(json_runner, runner_set, interpret_immediately);
        let ghost new_key = keyed.0@;
        let ghost new_runner = keyed.1@;
        runners.insert(keyed.0, keyed.1);
        proof {
            assert(runner_key(set_name, all[done].id as int) == new_key);
            assert forall|key: Seq<char>| #[trigger]
                runners@.contains_key(key) <==> has_key(all, done + 1, set_name, key) by {
                if has_key(all, done + 1, set_name, key) {
                    let i = choose|i: int|
                        0 <= i < done + 1 && #[trigger] runner_key(set_name, all[i].id as int)
                            == key;
                    if i < done {
                        assert(has_key(all, done, set_name, key));
                    }
                }
                if before.contains_key(key) {
                    assert(has_key(all, done, set_name, key));
                    let i = choose|i: int|
                        0 <= i < done && #[trigger] runner_key(set_name, all[i].id as int) == key;
                    assert(0 <= i < done + 1 && runner_key(set_name, all[i].id as int) == key);
                }
            }
            assert forall|key: Seq<char>| #[trigger] runners@.contains_key(key) implies last_parsed(
                all,
                done + 1,
                set_name,
                endpoint,
                interpret_immediately,
                key,
                runners@[key],
            ) by {
                if key == new_key {
                    assert(runner_key(set_name, all[done].id as int) == key);
                } else {
                    assert(last_parsed(
                        all,
                        done,
                        set_name,
                        endpoint,
                        interpret_immediately,
                        key,
                        before[key],
                    ));
                    let i = choose|i: int|
                        {
                            &&& 0 <= i < done
                            &&& #[trigger] runner_key(set_name, all[i].id as int) == key
                            &&& before[key] == runner_from(
                                all[i],
                                set_name,
                                endpoint,
                                interpret_immediately,
                                before[key].utc_ping_time,
                            )
                            &&& forall|j: int|
                                i < j < done ==> #[trigger] runner_key(
                                    set_name,
                                    all[j].id as int,
                                ) != key
                        };
                    assert(runner_key(set_name, all[i].id as int) == key);
                }
            }
        }
    }
    runners
}

} // verus!
