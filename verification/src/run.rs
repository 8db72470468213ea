//! Resolving addresses against a query function that the caller supplies.

use crate::address::{
    exhausted, lemma_retries_bounded, lemma_retry_count, lemma_rounds_reach_exhaustion,
    lemma_without_first_token, retry_candidates, rounds_until_exhausted, token_count, truncated,
    without_first_token,
};
use crate::query::{outcome_view, Answer, Outcome};
use crate::record::{tagged, GeoMatch, OutputRecord};
use crate::resolver::{
    accepted, actions_view, emissions, opening, reply_turn, Action, ActionView, Resolver,
    ResolverView, Turn,
};
use vstd::prelude::*;

verus! {

/// The answers that a list of outcomes stands for.
pub open spec fn answers_of(outcomes: Seq<Outcome>) -> Seq<Answer> {
    outcomes.map_values(|o: Outcome| outcome_view(o))
}

/// Where an address stands after the given answers, one for each query so far:
/// the state that waits for the next answer, or nothing once the address is
/// done.
pub open spec fn state_after(original: Seq<char>, answers: Seq<Answer>) -> Option<ResolverView>
    decreases answers.len(),
{
    if answers.len() == 0 {
        opening(original).next
    } else {
        match state_after(original, answers.drop_last()) {
            Some(state) => reply_turn(state, answers.last()).next,
            None => None,
        }
    }
}

/// Everything that is done for an address whose queries get the given
/// answers, in order.
pub open spec fn log_of(original: Seq<char>, answers: Seq<Answer>) -> Seq<ActionView>
    decreases answers.len(),
{
    if answers.len() == 0 {
        opening(original).actions
    } else {
        log_of(original, answers.drop_last()) + match state_after(original, answers.drop_last()) {
            Some(state) => reply_turn(state, answers.last()).actions,
            None => Seq::empty(),
        }
    }
}

/// The answers are those of one whole run: each answers a query that was
/// made, and the last of them ends the address.
pub open spec fn completes(original: Seq<char>, answers: Seq<Answer>) -> bool {
    &&& answers.len() > 0
    &&& state_after(original, answers.drop_last()) is Some
    &&& state_after(original, answers) is None
}

/// `outcome` is something that `query` can return for the candidate of `state`.
pub open spec fn asked<F: Fn(&str) -> Outcome>(
    query: &F,
    state: Option<ResolverView>,
    outcome: Outcome,
) -> bool {
    state matches Some(s) && exists|address: &str|
        address@ == s.candidate && call_ensures(*query, (address,), outcome)
}

/// The outcomes are what `query` returned in one whole run for `original`:
/// the first for the address as given, each later one for what the answers
/// before it had left of the address.
pub open spec fn is_run<F: Fn(&str) -> Outcome>(
    query: &F,
    original: Seq<char>,
    outcomes: Seq<Outcome>,
) -> bool {
    &&& completes(original, answers_of(outcomes))
    &&& forall|i: int|
        0 <= i < outcomes.len() ==> asked(
            query,
            state_after(original, answers_of(outcomes.take(i))),
            #[trigger] outcomes[i],
        )
}

/// Resolves one input line with the given query function: queries the line,
/// retries by truncation while no match is found, and returns everything that
/// is to be done for the line, in order.
pub fn resolve_with<F: Fn(&str) -> Outcome>(line: &str, query: &F) -> (log: Vec<Action>)
    requires
        forall|address: &str| call_requires(*query, (address,)),
    ensures
        exists|outcomes: Seq<Outcome>|
            is_run(query, line@, outcomes) && actions_view(log@) == log_of(
                line@,
                answers_of(outcomes),
            ),
{
    let mut log: Vec<Action> = Vec::new();
    let mut turn = Resolver::begin(line.to_owned());
    let ghost mut outcomes: Seq<Outcome> = Seq::empty();
    proof {
        assert(actions_view(log@) + turn@.actions =~= turn@.actions);
    }
    loop
        invariant_except_break
            forall|address: &str| call_requires(*query, (address,)),
            turn@.next == state_after(line@, answers_of(outcomes)),
            actions_view(log@) + turn@.actions == log_of(line@, answers_of(outcomes)),
            outcomes.len() > 0 ==> state_after(line@, answers_of(outcomes.drop_last())) is Some,
            forall|i: int|
                0 <= i < outcomes.len() ==> asked(
                    query,
                    state_after(line@, answers_of(outcomes.take(i))),
                    #[trigger] outcomes[i],
                ),
        ensures
            is_run(query, line@, outcomes),
            actions_view(log@) == log_of(line@, answers_of(outcomes)),
        decreases
            match turn@.next {
                Some(state) => state.candidate.len() + 1,
                None => 0,
            },
    {
        let Turn { actions, next } = turn;
        let mut actions = actions;
        let ghost before = log@;
        let ghost added = actions@;
        log.append(&mut actions);
        proof {
            assert(actions_view(log@) =~= actions_view(before) + actions_view(added));
        }
        match next {
            None => {
                proof {
                    if outcomes.len() == 0 {
                        assert(answers_of(outcomes).len() == 0);
                    }
                    assert(answers_of(outcomes).drop_last() =~= answers_of(outcomes.drop_last()));
                }
                break ;
            },
            Some(resolver) => {
                let ghost state = resolver@;
                let outcome = query(resolver.candidate());
                let ghost earlier = outcomes;
                proof {
                    outcomes = earlier.push(outcome);
                    let answers = answers_of(outcomes);
                    assert(outcomes.drop_last() =~= earlier);
                    assert(answers.drop_last() =~= answers_of(earlier));
                    assert(answers.last() == outcome_view(outcome));
                    assert(outcomes.take(earlier.len() as int) =~= earlier);
                    assert forall|i: int| 0 <= i < outcomes.len() implies asked(
                        query,
                        state_after(line@, answers_of(outcomes.take(i))),
                        #[trigger] outcomes[i],
                    ) by {
                        if i < earlier.len() {
                            assert(outcomes.take(i) =~= earlier.take(i));
                            assert(outcomes[i] == earlier[i]);
                        }
                    }
                    lemma_without_first_token(state.candidate);
                }
                turn = resolver.advance(outcome);
            },
        }
    }
    log
}

/// The rows that a log writes out, in the order in which it writes them.
pub open spec fn emitted(log: Seq<ActionView>) -> Seq<OutputRecord>
    decreases log.len(),
{
    if log.len() == 0 {
        Seq::empty()
    } else {
        emitted(log.drop_last()) + match log.last() {
            ActionView::Emit(row) => seq![row],
            _ => Seq::empty(),
        }
    }
}

/// The addresses that a log queries, in the order in which it queries them.
pub open spec fn queried(log: Seq<ActionView>) -> Seq<Seq<char>>
    decreases log.len(),
{
    if log.len() == 0 {
        Seq::empty()
    } else {
        queried(log.drop_last()) + match log.last() {
            ActionView::Query(address) => seq![address],
            _ => Seq::empty(),
        }
    }
}

/// Everything that is done for a batch of lines, in order: the whole log of
/// the first line, then that of the second, and so on. `runs` holds, for each
/// line, the answers that its queries got.
pub open spec fn session_log(lines: Seq<Seq<char>>, runs: Seq<Seq<Answer>>) -> Seq<ActionView>
    decreases lines.len(),
{
    if lines.len() == 0 {
        Seq::empty()
    } else {
        session_log(lines.drop_last(), runs.drop_last()) + log_of(lines.last(), runs.last())
    }
}

/// The characters of each line of a list.
pub open spec fn lines_view(lines: Seq<String>) -> Seq<Seq<char>> {
    lines.map_values(|line: String| line@)
}

/// The answers of each run of a list.
pub open spec fn runs_view(runs: Seq<Seq<Outcome>>) -> Seq<Seq<Answer>> {
    runs.map_values(|outcomes: Seq<Outcome>| answers_of(outcomes))
}

/// Resolves the lines one after the other with the given query function and
/// returns everything that is to be done for them, in order: nothing of a line
/// comes before anything of the line before it.
pub fn resolve_all_with<F: Fn(&str) -> Outcome>(lines: &Vec<String>, query: &F) -> (log: Vec<
    Action,
>)
    requires
        forall|address: &str| call_requires(*query, (address,)),
    ensures
        exists|runs: Seq<Seq<Outcome>>|
            {
                &&& runs.len() == lines@.len()
                &&& forall|i: int|
                    0 <= i < runs.len() ==> is_run(query, lines@[i]@, #[trigger] runs[i])
                &&& actions_view(log@) == session_log(lines_view(lines@), runs_view(runs))
            },
{
    let mut log: Vec<Action> = Vec::new();
    let ghost mut runs: Seq<Seq<Outcome>> = Seq::empty();
    let mut done: usize = 0;
    proof {
        assert(lines_view(lines@.take(0)) =~= Seq::<Seq<char>>::empty());
    }
    while done < lines.len()
        invariant
            forall|address: &str| call_requires(*query, (address,)),
            done <= lines@.len(),
            runs.len() == done,
            forall|i: int| 0 <= i < runs.len() ==> is_run(query, lines@[i]@, #[trigger] runs[i]),
            actions_view(log@) == session_log(
                lines_view(lines@.take(done as int)),
                runs_view(runs),
            ),
        decreases lines@.len() - done,
    {
        let mut line_log = resolve_with(lines[done].as_str(), query);
        let ghost before = log@;
        let ghost added = line_log@;
        let ghost earlier = runs;
        log.append(&mut line_log);
        proof {
            let outcomes = choose|outcomes: Seq<Outcome>|
                is_run(query, lines@[done as int]@, outcomes) && actions_view(added) == log_of(
                    lines@[done as int]@,
                    answers_of(outcomes),
                );
            runs = earlier.push(outcomes);
            let upto = lines_view(lines@.take(done as int + 1));
            assert(upto.drop_last() =~= lines_view(lines@.take(done as int)));
            assert(upto.last() == lines@[done as int]@);
            assert(runs_view(runs).drop_last() =~= runs_view(earlier));
            assert(runs_view(runs).last() == answers_of(outcomes));
            assert(actions_view(log@) =~= actions_view(before) + actions_view(added));
        }
        done += 1;
    }
    proof {
        assert(lines@.take(done as int) =~= lines@);
    }
    log
}

/// Concatenating logs concatenates what they write out and what they query.
pub proof fn lemma_log_concat(first: Seq<ActionView>, second: Seq<ActionView>)
    ensures
        emitted(first + second) == emitted(first) + emitted(second),
        queried(first + second) == queried(first) + queried(second),
    decreases second.len(),
{
    if second.len() == 0 {
        assert(first + second =~= first);
        assert(emitted(first) + emitted(second) =~= emitted(first));
        assert(queried(first) + queried(second) =~= queried(first));
    } else {
        let whole = first + second;
        assert(whole.drop_last() =~= first + second.drop_last());
        assert(whole.last() == second.last());
        lemma_log_concat(first, second.drop_last());
        let row = match second.last() {
            ActionView::Emit(row) => seq![row],
            _ => Seq::empty(),
        };
        assert(emitted(first) + emitted(second.drop_last()) + row =~= emitted(first) + (emitted(
            second.drop_last(),
        ) + row));
        let address = match second.last() {
            ActionView::Query(address) => seq![address],
            _ => Seq::empty(),
        };
        assert(queried(first) + queried(second.drop_last()) + address =~= queried(first) + (
        queried(second.drop_last()) + address));
    }
}

/// What one turn writes out and what it queries: the rows of an accepted
/// answer, each tagged with the original address, and the shortened address
/// where the turn asks for a retry.
pub proof fn lemma_turn_effects(state: ResolverView, answer: Answer)
    ensures
        emitted(reply_turn(state, answer).actions) == if accepted(answer) {
            tagged(state.original, answer->Ok_0)
        } else {
            Seq::<OutputRecord>::empty()
        },
        queried(reply_turn(state, answer).actions) == match reply_turn(state, answer).next {
            Some(next) => seq![next.candidate],
            None => Seq::<Seq<char>>::empty(),
        },
{
    let actions = reply_turn(state, answer).actions;
    if accepted(answer) {
        let rows = tagged(state.original, answer->Ok_0);
        lemma_emissions(state.original, answer->Ok_0);
        lemma_log_concat(emissions(state.original, answer->Ok_0), seq![ActionView::Pause]);
        reveal_with_fuel(emitted, 2);
        reveal_with_fuel(queried, 2);
        assert(emitted(actions) =~= rows);
        assert(queried(actions) =~= Seq::<Seq<char>>::empty());
    } else {
        reveal_with_fuel(emitted, 5);
        reveal_with_fuel(queried, 5);
        assert(emitted(actions) =~= Seq::<OutputRecord>::empty());
        match reply_turn(state, answer).next {
            Some(next) => {
                assert(queried(actions) =~= seq![next.candidate]);
            },
            None => {
                assert(queried(actions) =~= Seq::<Seq<char>>::empty());
            },
        }
    }
}

/// The emissions of an accepted answer write out exactly its tagged rows, and
/// query nothing.
proof fn lemma_emissions(original: Seq<char>, matches: Seq<GeoMatch>)
    ensures
        emitted(emissions(original, matches)) == tagged(original, matches),
        queried(emissions(original, matches)) == Seq::<Seq<char>>::empty(),
    decreases matches.len(),
{
    let actions = emissions(original, matches);
    if matches.len() > 0 {
        lemma_emissions(original, matches.drop_last());
        assert(actions.drop_last() =~= emissions(original, matches.drop_last()));
        assert(emitted(actions) =~= tagged(original, matches));
    } else {
        assert(emitted(actions) =~= tagged(original, matches));
    }
}

/// Dropping the first token once more is one more round of truncation.
pub proof fn lemma_truncated_step(s: Seq<char>, rounds: nat)
    ensures
        truncated(s, rounds + 1) == without_first_token(truncated(s, rounds)),
    decreases rounds,
{
    if rounds > 0 {
        lemma_truncated_step(without_first_token(s), (rounds - 1) as nat);
        assert(truncated(s, rounds) == truncated(without_first_token(s), (rounds - 1) as nat));
    } else {
        assert(truncated(without_first_token(s), 0) == without_first_token(s));
    }
    assert(truncated(s, rounds + 1) == truncated(without_first_token(s), rounds));
}

/// While an address is not done, its state keeps the original address and
/// holds as candidate the original after one round of truncation for each
/// answer so far; no state was there after an answer that was accepted, and
/// every candidate that is retried is not exhausted.
pub proof fn lemma_state_is_truncation(original: Seq<char>, answers: Seq<Answer>)
    ensures
        state_after(original, answers) matches Some(state) ==> {
            &&& state.original == original
            &&& state.candidate == truncated(original, answers.len())
            &&& answers.len() > 0 ==> !exhausted(state.candidate)
            &&& forall|i: int| 0 <= i < answers.len() ==> !accepted(#[trigger] answers[i])
            &&& state_after(original, answers.drop_last()) is Some || answers.len() == 0
        },
    decreases answers.len(),
{
    if answers.len() > 0 {
        let before = answers.drop_last();
        lemma_state_is_truncation(original, before);
        if state_after(original, answers) is Some {
            lemma_truncated_step(original, before.len());
            assert forall|i: int| 0 <= i < answers.len() implies !accepted(
                #[trigger] answers[i],
            ) by {
                if i < before.len() {
                    assert(answers[i] == before[i]);
                }
            }
        }
    }
}

/// One address costs at most one query more than it has tokens: in any run,
/// complete or not, there are at most `1 + token_count` answers, because the
/// retries are among `retry_candidates`.
pub proof fn lemma_queries_bounded(original: Seq<char>, answers: Seq<Answer>)
    requires
        answers.len() > 0,
        state_after(original, answers.drop_last()) is Some,
    ensures
        answers.len() <= 1 + retry_candidates(original).len(),
        answers.len() <= 1 + token_count(original),
{
    let retries = (answers.len() - 1) as nat;
    lemma_retries_bounded(original);
    lemma_retry_count(original);
    if retries > 0 {
        let shorter = without_first_token(original);
        let enough = rounds_until_exhausted(shorter);
        lemma_rounds_reach_exhaustion(shorter);
        lemma_state_is_truncation(original, answers.drop_last());
        assert(truncated(original, retries) == truncated(shorter, (retries - 1) as nat));
        if retries > enough {
            let reached: int = enough as int + 1;
            lemma_prefix_states(original, answers.drop_last(), reached);
            lemma_state_is_truncation(original, answers.drop_last().take(reached));
            assert(truncated(original, reached as nat) == truncated(shorter, enough));
        }
    }
}

/// An address that is not done after some answers was not done after fewer.
pub proof fn lemma_prefix_states(original: Seq<char>, answers: Seq<Answer>, count: int)
    requires
        0 <= count <= answers.len(),
        state_after(original, answers) is Some,
    ensures
        state_after(original, answers.take(count)) is Some,
    decreases answers.len(),
{
    if count < answers.len() {
        lemma_prefix_states(original, answers.drop_last(), count);
        assert(answers.drop_last().take(count) =~= answers.take(count));
    } else {
        assert(answers.take(count) =~= answers);
    }
}

/// Output tagging: every row that an address writes out carries the
/// original address, however often the address was truncated before a match
/// was found.
pub proof fn lemma_rows_carry_original(original: Seq<char>, answers: Seq<Answer>)
    ensures
        forall|i: int|
            0 <= i < emitted(log_of(original, answers)).len() ==> (#[trigger] emitted(
                log_of(original, answers),
            )[i]).address == original,
    decreases answers.len(),
{
    if answers.len() == 0 {
        reveal_with_fuel(emitted, 2);
        assert(emitted(log_of(original, answers)) =~= Seq::<OutputRecord>::empty());
    } else {
        let before = answers.drop_last();
        lemma_rows_carry_original(original, before);
        lemma_state_is_truncation(original, before);
        match state_after(original, before) {
            Some(state) => {
                lemma_log_concat(
                    log_of(original, before),
                    reply_turn(state, answers.last()).actions,
                );
                lemma_turn_effects(state, answers.last());
            },
            None => {
                assert(log_of(original, answers) =~= log_of(original, before));
            },
        }
    }
}

/// No output on failure: where no answer of an address was accepted, the
/// address writes out no row.
pub proof fn lemma_no_match_no_rows(original: Seq<char>, answers: Seq<Answer>)
    requires
        forall|i: int| 0 <= i < answers.len() ==> !accepted(#[trigger] answers[i]),
    ensures
        emitted(log_of(original, answers)) == Seq::<OutputRecord>::empty(),
    decreases answers.len(),
{
    if answers.len() == 0 {
        reveal_with_fuel(emitted, 2);
        assert(emitted(log_of(original, answers)) =~= Seq::<OutputRecord>::empty());
    } else {
        let before = answers.drop_last();
        assert forall|i: int| 0 <= i < before.len() implies !accepted(#[trigger] before[i]) by {
            assert(before[i] == answers[i]);
        }
        lemma_no_match_no_rows(original, before);
        match state_after(original, before) {
            Some(state) => {
                lemma_log_concat(
                    log_of(original, before),
                    reply_turn(state, answers.last()).actions,
                );
                lemma_turn_effects(state, answers.last());
                assert(!accepted(answers[answers.len() - 1]));
                assert(emitted(log_of(original, answers)) =~= Seq::<OutputRecord>::empty());
            },
            None => {
                assert(log_of(original, answers) =~= log_of(original, before));
            },
        }
    }
}

/// The rows of one address, where every answer answers a query that was made:
/// there are none unless the last answer was accepted, and then they are the
/// matches of that answer, in order, each tagged with the original address.
pub proof fn lemma_rows_of_address(original: Seq<char>, answers: Seq<Answer>)
    requires
        answers.len() > 0,
        state_after(original, answers.drop_last()) is Some,
    ensures
        emitted(log_of(original, answers)) == if accepted(answers.last()) {
            tagged(original, answers.last()->Ok_0)
        } else {
            Seq::<OutputRecord>::empty()
        },
{
    let before = answers.drop_last();
    let state = state_after(original, before)->Some_0;
    lemma_state_is_truncation(original, before);
    lemma_no_match_no_rows(original, before);
    lemma_log_concat(log_of(original, before), reply_turn(state, answers.last()).actions);
    lemma_turn_effects(state, answers.last());
    assert(emitted(log_of(original, answers)) =~= emitted(
        reply_turn(state, answers.last()).actions,
    ));
}

/// Ordering: a batch does for its lines what it does for the first of them,
/// followed by what it does for the rest. So every row and every query of a
/// line comes before every row and every query of a later line.
pub proof fn lemma_session_order(
    lines: Seq<Seq<char>>,
    runs: Seq<Seq<Answer>>,
    more_lines: Seq<Seq<char>>,
    more_runs: Seq<Seq<Answer>>,
)
    requires
        lines.len() == runs.len(),
        more_lines.len() == more_runs.len(),
    ensures
        session_log(lines + more_lines, runs + more_runs) == session_log(lines, runs)
            + session_log(more_lines, more_runs),
        emitted(session_log(lines + more_lines, runs + more_runs)) == emitted(
            session_log(lines, runs),
        ) + emitted(session_log(more_lines, more_runs)),
        queried(session_log(lines + more_lines, runs + more_runs)) == queried(
            session_log(lines, runs),
        ) + queried(session_log(more_lines, more_runs)),
    decreases more_lines.len(),
{
    if more_lines.len() == 0 {
        assert(lines + more_lines =~= lines);
        assert(runs + more_runs =~= runs);
        assert(session_log(lines, runs) + session_log(more_lines, more_runs) =~= session_log(
            lines,
            runs,
        ));
    } else {
        lemma_session_order(lines, runs, more_lines.drop_last(), more_runs.drop_last());
        assert((lines + more_lines).drop_last() =~= lines + more_lines.drop_last());
        assert((runs + more_runs).drop_last() =~= runs + more_runs.drop_last());
        assert((lines + more_lines).last() == more_lines.last());
        assert((runs + more_runs).last() == more_runs.last());
        assert(session_log(lines + more_lines, runs + more_runs) =~= session_log(lines, runs)
            + session_log(more_lines, more_runs));
    }
    lemma_log_concat(session_log(lines, runs), session_log(more_lines, more_runs));
}

/// The rows of a batch: those of its lines, line after line, each line's rows
/// tagged with that line.
pub proof fn lemma_session_rows(lines: Seq<Seq<char>>, runs: Seq<Seq<Answer>>)
    requires
        lines.len() == runs.len(),
        lines.len() > 0,
    ensures
        emitted(session_log(lines, runs)) == emitted(
            session_log(lines.drop_last(), runs.drop_last()),
        ) + emitted(log_of(lines.last(), runs.last())),
        forall|i: int|
            0 <= i < emitted(log_of(lines.last(), runs.last())).len() ==> (#[trigger] emitted(
                log_of(lines.last(), runs.last()),
            )[i]).address == lines.last(),
{
    lemma_log_concat(
        session_log(lines.drop_last(), runs.drop_last()),
        log_of(lines.last(), runs.last()),
    );
    lemma_rows_carry_original(lines.last(), runs.last());
}

} // verus!
