//! What resolving a requirement promises: everyone who can is asked, in order, and the
//! first to take a candidate has it.
use vstd::prelude::*;

use crate::lua::resolution::{
    answered, attempts_are, bound_at, next_of, question, requirement_is, settling_problem, Question,
    RequirementRequest, Resolution,
};
use crate::lua::state::Location;
use crate::model::manifest::{
    Provider, Requirement, RequirementCandidate, RequirementChoice, ResolutionOutcome,
};

verus! {

/// Whether a provider may be asked about a candidate: about a package that names a
/// provider only that one.
pub open spec fn may_be_asked(candidate: RequirementCandidate, provider: Provider) -> bool {
    match candidate {
        RequirementCandidate::Package { provider: Some(wanted), .. } => wanted@ == provider.name@,
        RequirementCandidate::Package { provider: None, .. } => true,
        RequirementCandidate::Command { .. } => true,
    }
}

/// Whether a pair of a candidate and a provider comes in front of another.
pub open spec fn in_front(c: int, p: int, candidate: int, provider: int) -> bool {
    c < candidate || (c == candidate && p < provider)
}

/// Whether a question is put to a provider about a candidate, among the first ones.
pub open spec fn put(
    candidates: Seq<RequirementCandidate>,
    providers: Seq<Provider>,
    candidate: int,
    provider: int,
    tried: int,
    c: int,
    p: int,
) -> bool {
    exists|t: int|
        0 <= t < tried && #[trigger] question(candidates, providers, candidate, provider, t)
            == (Question::Ask { candidate: c, provider: p })
}

proof fn lemma_put(
    candidates: Seq<RequirementCandidate>,
    providers: Seq<Provider>,
    candidate: int,
    provider: int,
    tried: int,
    c: int,
    p: int,
)
    requires
        0 <= candidate,
        0 <= provider,
        0 <= tried,
        0 <= c < candidates.len(),
        0 <= p < providers.len(),
        !in_front(c, p, candidate, provider),
        may_be_asked(candidates[c], providers[p]),
        match question(candidates, providers, candidate, provider, tried) {
            Question::Ask { candidate: last, provider: by } => in_front(c, p, last, by),
            Question::Missing { candidate: last } => c < last,
            Question::Done => true,
        },
    ensures
        put(candidates, providers, candidate, provider, tried, c, p),
    decreases candidates.len() - candidate, providers.len() - provider,
{
    if misses(candidates[candidate], providers) {
    } else if provider >= providers.len() {
        lemma_put(candidates, providers, candidate + 1, 0, tried, c, p);
        let t = choose|t: int|
            0 <= t < tried && #[trigger] question(candidates, providers, candidate + 1, 0, t)
                == (Question::Ask { candidate: c, provider: p });
        assert(question(candidates, providers, candidate, provider, t) == question(
            candidates,
            providers,
            candidate + 1,
            0,
            t,
        ));
    } else if !may_be_asked(candidates[candidate], providers[provider]) {
        lemma_put(candidates, providers, candidate, provider + 1, tried, c, p);
        let t = choose|t: int|
            0 <= t < tried && #[trigger] question(candidates, providers, candidate, provider + 1, t)
                == (Question::Ask { candidate: c, provider: p });
        assert(question(candidates, providers, candidate, provider, t) == question(
            candidates,
            providers,
            candidate,
            provider + 1,
            t,
        ));
    } else if tried <= 0 {
    } else if c == candidate && p == provider {
        assert(question(candidates, providers, candidate, provider, 0) == (Question::Ask {
            candidate: c,
            provider: p,
        }));
    } else {
        lemma_put(candidates, providers, candidate, provider + 1, tried - 1, c, p);
        let t = choose|t: int|
            0 <= t < tried - 1 && #[trigger] question(
                candidates,
                providers,
                candidate,
                provider + 1,
                t,
            ) == (Question::Ask { candidate: c, provider: p });
        assert(question(candidates, providers, candidate, provider, t + 1) == question(
            candidates,
            providers,
            candidate,
            provider + 1,
            t,
        ));
    }
}

/// Whether a candidate names a provider that is not among these.
pub open spec fn misses(candidate: RequirementCandidate, providers: Seq<Provider>) -> bool {
    candidate matches RequirementCandidate::Package { provider: Some(_), .. } && forall|i: int|
        0 <= i < providers.len() ==> !may_be_asked(candidate, #[trigger] providers[i])
}

proof fn lemma_asked(
    candidates: Seq<RequirementCandidate>,
    providers: Seq<Provider>,
    candidate: int,
    provider: int,
    tried: int,
)
    requires
        0 <= candidate,
        0 <= provider,
    ensures
        match question(candidates, providers, candidate, provider, tried) {
            Question::Ask { candidate: c, provider: p } => candidate <= c < candidates.len() && 0
                <= p < providers.len() && may_be_asked(candidates[c], providers[p]),
            Question::Missing { candidate: c } => candidate <= c < candidates.len() && misses(
                candidates[c],
                providers,
            ),
            Question::Done => forall|c: int|
                candidate <= c < candidates.len() ==> !misses(#[trigger] candidates[c], providers),
        },
    decreases candidates.len() - candidate, providers.len() - provider,
{
    if candidate >= candidates.len() {
    } else {
        let wanted = candidates[candidate];
        assert(misses(wanted, providers) <==> crate::lua::resolution::misses_provider(
            wanted,
            providers,
        )) by {
            if misses(wanted, providers) {
                assert forall|i: int| 0 <= i < providers.len() implies (
                #[trigger] providers[i]).name@ != wanted->Package_provider->0@ by {
                    assert(!may_be_asked(wanted, providers[i]));
                }
            }
        }
        if misses(wanted, providers) {
        } else if provider >= providers.len() {
            lemma_asked(candidates, providers, candidate + 1, 0, tried);
        } else if !may_be_asked(wanted, providers[provider]) {
            lemma_asked(candidates, providers, candidate, provider + 1, tried);
        } else if tried <= 0 {
        } else {
            lemma_asked(candidates, providers, candidate, provider + 1, tried - 1);
        }
    }
}

/// Nobody is left out: before a question is put, every question in front of it was, and
/// where nothing is left to ask, everyone was asked about everything that is for them. A
/// candidate is not asked about only where it names a provider that is not configured.
pub proof fn law_nobody_is_left_out(
    candidates: Seq<RequirementCandidate>,
    providers: Seq<Provider>,
    tried: int,
    c: int,
    p: int,
)
    requires
        0 <= tried,
        0 <= c < candidates.len(),
        0 <= p < providers.len(),
        may_be_asked(candidates[c], providers[p]),
    ensures
        match next_of(candidates, providers, tried) {
            Question::Ask { candidate, provider } => {
                &&& 0 <= candidate < candidates.len()
                &&& 0 <= provider < providers.len()
                &&& may_be_asked(candidates[candidate], providers[provider])
                &&& in_front(c, p, candidate, provider) ==> put(
                    candidates,
                    providers,
                    0,
                    0,
                    tried,
                    c,
                    p,
                )
            },
            Question::Missing { candidate } => {
                &&& 0 <= candidate < candidates.len()
                &&& misses(candidates[candidate], providers)
                &&& c < candidate ==> put(candidates, providers, 0, 0, tried, c, p)
            },
            Question::Done => put(candidates, providers, 0, 0, tried, c, p),
        },
{
    lemma_asked(candidates, providers, 0, 0, tried);
    match next_of(candidates, providers, tried) {
        Question::Ask { candidate, provider } => {
            if in_front(c, p, candidate, provider) {
                lemma_put(candidates, providers, 0, 0, tried, c, p);
            }
        },
        Question::Missing { candidate } => {
            if c < candidate {
                lemma_put(candidates, providers, 0, 0, tried, c, p);
            }
        },
        Question::Done => {
            lemma_put(candidates, providers, 0, 0, tried, c, p);
        },
    }
}

/// A requirement goes to the first that took it: what was bound is the only answer of its
/// kind, everyone who was asked before it refused, and all of that is on record.
pub proof fn law_the_first_to_take_a_candidate_has_it(
    requirement: Requirement,
    owner: Seq<char>,
    request: RequirementRequest,
    providers: Seq<Provider>,
    answers: Seq<Resolution>,
    location: Location,
    place: Seq<char>,
)
    requires
        answered(request, providers, answers),
        requirement_is(requirement, owner, request, providers, answers, location),
    ensures
        answers.len() > 0,
        answers.last() == Resolution::Bound(requirement.binding),
        forall|i: int| 0 <= i < answers.len() - 1 ==> (#[trigger] answers[i]) is Unsupported,
        settling_problem(request, providers, answers, place) is None,
        requirement.candidates@ == request.candidates@,
        requirement.selected < request.candidates@.len(),
        requirement.choice == RequirementChoice::Required <==> !request.preferred,
        requirement.choice == RequirementChoice::Preferred <==> request.preferred
            && requirement.selected == 0,
        requirement.owner@ == owner,
        requirement.attempts@.len() == answers.len(),
        requirement.attempts@.last().candidate == requirement.selected,
        requirement.attempts@.last().outcome is Selected,
        forall|i: int|
            0 <= i < answers.len() - 1 ==> ((
            #[trigger] requirement.attempts@[i]).outcome matches ResolutionOutcome::Unsupported {
                reason,
            } && reason@ == answers[i]->Unsupported_0@),
        forall|i: int|
            0 <= i < answers.len() ==> {
                let attempt = #[trigger] requirement.attempts@[i];
                next_of(request.candidates@, providers, i) matches Question::Ask {
                    candidate,
                    provider,
                } && attempt.candidate == candidate && attempt.provider@
                    == providers[provider].name@
            },
{
    let index = choose|index: int| #[trigger]
        bound_at(answers, index) && {
            let asked = next_of(request.candidates@, providers, index);
            &&& requirement.kind == request.kind
            &&& requirement.owner@ == owner
            &&& requirement.declared_at == location.trace
            &&& requirement.candidates@ == request.candidates@
            &&& attempts_are(requirement.attempts@, request, providers, answers, index + 1)
            &&& asked is Ask
            &&& requirement.selected == asked->Ask_candidate
            &&& requirement.choice == crate::lua::resolution::choice_of(
                request.preferred,
                asked->Ask_candidate,
            )
            &&& requirement.binding == answers[index]->Bound_0
            &&& requirement.when == request.when
        };
    if index < answers.len() - 1 {
        assert(answers[index] is Unsupported);
    }
    assert(index == answers.len() - 1);
    lemma_asked(request.candidates@, providers, 0, 0, index);
    assert forall|i: int| 0 <= i < answers.len() implies {
        let attempt = #[trigger] requirement.attempts@[i];
        next_of(request.candidates@, providers, i) matches Question::Ask { candidate, provider }
            && attempt.candidate == candidate && attempt.provider@ == providers[provider].name@
    } by {
        assert(crate::lua::resolution::attempt_is(
            requirement.attempts@[i],
            next_of(request.candidates@, providers, i),
            providers,
            answers[i],
        ));
    }
    assert(crate::lua::resolution::attempt_is(
        requirement.attempts@[index],
        next_of(request.candidates@, providers, index),
        providers,
        answers[index],
    ));
}

} // verus!
