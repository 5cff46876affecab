//! Which service's analysis is running right now.
//!
//! The name is present while a service's analysis runs and absent otherwise: a
//! scope is entered for the analysis and left when it ends, by whatever way.

use vstd::prelude::*;

verus! {

/// The service whose analysis is running, if any runs and if it has a name.
pub struct CurrentService {
    current: Option<String>,
}

impl View for CurrentService {
    type V = Option<Seq<char>>;

    closed spec fn view(&self) -> Option<Seq<char>> {
        self.current.deep_view()
    }
}

/// Holds one service's analysis open. Leaving it restores what was current.
#[must_use]
pub struct ServiceScope {
    previous: Option<String>,
}

impl View for ServiceScope {
    type V = Option<Seq<char>>;

    closed spec fn view(&self) -> Option<Seq<char>> {
        self.previous.deep_view()
    }
}

impl CurrentService {
    /// Nothing is in scope before a scan enters its first service.
    pub fn new() -> (r: Self)
        ensures
            r@ is None,
    {
        CurrentService { current: None }
    }
}

/// The name of the service being analysed, or nothing when no analysis is in
/// scope or the service in scope has no name.
pub fn name(slot: &CurrentService) -> (r: Option<String>)
    ensures
        r.deep_view() == slot@,
{
    match &slot.current {
        Some(name) => Some(name.clone()),
        None => None,
    }
}

/// Marks a service as the one being analysed until its scope is left.
pub fn enter(slot: &mut CurrentService, service: Option<&str>) -> (scope: ServiceScope)
    ensures
        (final(slot)@, scope@) == entered(old(slot)@, service.deep_view()),
{
    let mut entered: Option<String> = match service {
        Some(name) => Some(name.to_owned()),
        None => None,
    };
    std::mem::swap(&mut entered, &mut slot.current);
    ServiceScope { previous: entered }
}

/// Ends a scope: what was current before it is current again.
pub fn leave(slot: &mut CurrentService, scope: ServiceScope)
    ensures
        final(slot)@ == left(old(slot)@, scope@),
{
    slot.current = scope.previous;
}

/// What is current once a service is entered, and what its scope remembers.
pub open spec fn entered(current: Option<Seq<char>>, service: Option<Seq<char>>) -> (
    Option<Seq<char>>,
    Option<Seq<char>>,
) {
    (service, current)
}

/// What is current once a scope is left.
pub open spec fn left(current: Option<Seq<char>>, scope: Option<Seq<char>>) -> Option<Seq<char>> {
    scope
}

/// An analysis of a service, and the analyses that run within it.
pub struct Analysis {
    pub service: Option<Seq<char>>,
    pub within: Seq<Analysis>,
}

/// What is current after analyses that each enter their service, run what they
/// hold and leave.
pub open spec fn after_all(current: Option<Seq<char>>, analyses: Seq<Analysis>) -> Option<Seq<char>>
    decreases analyses,
{
    if analyses.len() == 0 {
        current
    } else {
        let before = after_all(current, analyses.drop_last());
        let (during, scope) = entered(before, analyses.last().service);
        left(after_all(during, analyses.last().within), scope)
    }
}

/// Analyses leave behind what they found, however they are nested: nothing is
/// current between two services and after the last, and an inner scope does not
/// end the one around it.
pub proof fn a_scope_restores_what_it_found(current: Option<Seq<char>>, analyses: Seq<Analysis>)
    ensures
        after_all(current, analyses) == current,
    decreases analyses,
{
    if analyses.len() > 0 {
        a_scope_restores_what_it_found(current, analyses.drop_last());
    }
}

} // verus!
