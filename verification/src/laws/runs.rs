//! What a run owes, and by whom it is made.

use crate::credentials::{
    config_base, env_credential, hex_digit, hexadecimal, is_valid, scope_of, CredentialModel, DEFAULT_SCOPE,
};
use crate::engine::durability::{
    delay_seconds, described, is_held_back, owed_parts, owes_nothing, pending_parts, summary_of, wait_reports, OwedWorkModel,
    DEFAULT_RETRY_DELAY, INTENTS_ONLY_RETRY_DELAY, MAX_RETRY_DELAY, WAIT_TICK,
};
use crate::laws::texts::{a_part_is_held, joined_holds_each};
use crate::paths::resolved;
use crate::text::{decimal, has_text, joined, number_in, occurs_at, trimmed, unicode_whitespace};
use vstd::prelude::*;

verus! {

/// A service whose retry failed is always held back. Where a partial index is
/// allowed, nothing else is. Otherwise a service whose analysis was deferred or
/// stopped is held back where it has an index to lose, and one that only lost
/// files where it has an index, or where the run is not on a laptop.
pub proof fn when_a_service_is_held_back(owed: OwedWorkModel, has_index: bool, laptop: bool, allow_partial: bool)
    ensures
        owed.retry_error is Some ==> is_held_back(owed, has_index, laptop, allow_partial),
        owed.retry_error is None && allow_partial ==> !is_held_back(owed, has_index, laptop, allow_partial),
        owed.retry_error is None && !allow_partial && (owed.deferred is Some || owed.quota_aborts > 0) ==> is_held_back(
            owed,
            has_index,
            laptop,
            allow_partial,
        ) == has_index,
        owed.retry_error is None && !allow_partial && owed.deferred is None && owed.quota_aborts == 0 && owed.losses.files > 0
            ==> is_held_back(owed, has_index, laptop, allow_partial) == (has_index || !laptop),
        owed.retry_error is None && owed.deferred is None && owed.quota_aborts == 0 && owed.losses.files == 0 ==> !is_held_back(
            owed,
            has_index,
            laptop,
            allow_partial,
        ),
{
}

proof fn parts_are_held(parts: Seq<Seq<char>>, k: int, p: Seq<char>)
    requires
        0 <= k < parts.len(),
        has_text(parts[k], p),
    ensures
        has_text(joined(parts, "; "@), p),
{
    let s = joined(parts, "; "@);
    joined_holds_each(parts, "; "@, k);
    let i = choose|i: int| occurs_at(s, parts[k], i);
    let j = choose|j: int| occurs_at(parts[k], p, j);
    assert(s.subrange(i + j, i + j + p.len()) =~= s.subrange(i, i + parts[k].len()).subrange(j, j + p.len()));
    assert(occurs_at(s, p, i + j));
}

proof fn a_text_holds_itself(s: Seq<char>, t: Seq<char>)
    ensures
        has_text(s, s),
        has_text(s + t, s),
        has_text(s + t, t),
{
    assert(s.subrange(0, s.len() as int) =~= s);
    assert(occurs_at(s, s, 0));
    assert((s + t).subrange(0, s.len() as int) =~= s);
    assert(occurs_at(s + t, s, 0));
    assert((s + t).subrange(s.len() as int, (s + t).len() as int) =~= t);
    assert(occurs_at(s + t, t, s.len() as int));
}

/// What is owed is said: the reason of a deferral, how many files and
/// descriptions are missing, how many calls were stopped, and the error of the
/// retry. Where nothing is owed, nothing is said.
pub proof fn what_is_owed_is_said(owed: OwedWorkModel)
    ensures
        owes_nothing(owed) ==> described(owed) == Seq::<char>::empty(),
        owed.deferred is Some ==> has_text(described(owed), owed.deferred->0),
        owed.losses.files > 0 ==> has_text(described(owed), decimal(owed.losses.files as nat) + " file(s) not analysed"@),
        owed.quota_aborts > 0 ==> has_text(described(owed), decimal(owed.quota_aborts as nat) + " call(s) stopped"@),
        owed.losses.intents > 0 ==> has_text(
            described(owed),
            decimal(owed.losses.intents as nat) + " function description(s) missing"@,
        ),
        owed.retry_error is Some ==> has_text(described(owed), owed.retry_error->0),
{
    let parts = owed_parts(owed);
    let a: int = if owed.deferred is Some {
        1
    } else {
        0
    };
    let b: int = if owed.losses.files > 0 {
        a + 1
    } else {
        a
    };
    let c: int = if owed.quota_aborts > 0 {
        b + 1
    } else {
        b
    };
    let d: int = if owed.losses.intents > 0 {
        c + 1
    } else {
        c
    };
    if owed.deferred is Some {
        let reason = owed.deferred->0;
        assert(parts[0] == reason);
        a_text_holds_itself(reason, Seq::empty());
        parts_are_held(parts, 0, reason);
    }
    if owed.losses.files > 0 {
        let said = decimal(owed.losses.files as nat) + " file(s) not analysed"@;
        assert(parts[a] == said);
        a_text_holds_itself(said, Seq::empty());
        parts_are_held(parts, a, said);
    }
    if owed.quota_aborts > 0 {
        reveal_strlit(" call(s) stopped");
        reveal_strlit(" call(s) stopped by the LLM quota");
        reveal_strlit(" by the LLM quota");
        let number = decimal(owed.quota_aborts as nat);
        let said = number + " call(s) stopped"@;
        assert(" call(s) stopped by the LLM quota"@ =~= " call(s) stopped"@ + " by the LLM quota"@);
        assert(parts[b] =~= said + " by the LLM quota"@);
        a_text_holds_itself(said, " by the LLM quota"@);
        parts_are_held(parts, b, said);
    }
    if owed.losses.intents > 0 {
        let said = decimal(owed.losses.intents as nat) + " function description(s) missing"@;
        assert(parts[c] == said);
        a_text_holds_itself(said, Seq::empty());
        parts_are_held(parts, c, said);
    }
    if owed.retry_error is Some {
        let error = owed.retry_error->0;
        assert(parts[d] == "retry failed: "@ + error);
        a_text_holds_itself("retry failed: "@, error);
        parts_are_held(parts, d, error);
    }
    if owes_nothing(owed) {
        assert(parts.len() == 0);
    }
}

/// The summary names every service that is complete, and every service that is
/// pending with what it owes.
pub proof fn a_summary_names_every_service(complete: Seq<Seq<char>>, pending: Seq<(Seq<char>, OwedWorkModel)>, laptop: bool)
    ensures
        forall|i: int| 0 <= i < complete.len() ==> has_text(summary_of(complete, pending, laptop), #[trigger] complete[i]),
        forall|i: int|
            0 <= i < pending.len() ==> has_text(
                summary_of(complete, pending, laptop),
                (#[trigger] pending[i]).0 + " ("@ + described(pending[i].1) + ")"@,
            ),
{
    let done = if complete.len() == 0 {
        "Complete: none."@
    } else {
        "Complete: "@ + joined(complete, ", "@) + "."@
    };
    let parts = pending_parts(pending);
    let middle = " Pending model analysis: "@;
    let tail = ". "@ + (if laptop {
        "Re-run `carrick index` to finish them: it asks the model only for the pending work and replays everything else from cache."@
    } else {
        "The next scan asks the model only for the pending work and replays everything else from cache."@
    });
    let whole = summary_of(complete, pending, laptop);
    assert(whole =~= done + middle + joined(parts, ", "@) + tail);
    assert forall|i: int| 0 <= i < complete.len() implies has_text(whole, #[trigger] complete[i]) by {
        joined_holds_each(complete, ", "@, i);
        a_part_is_held("Complete: "@, joined(complete, ", "@), "."@, complete[i]);
        let rest = middle + joined(parts, ", "@) + tail;
        a_part_is_held(Seq::empty(), done, rest, complete[i]);
        assert(Seq::<char>::empty() + done + rest =~= whole);
    }
    assert forall|i: int| 0 <= i < pending.len() implies has_text(
        whole,
        (#[trigger] pending[i]).0 + " ("@ + described(pending[i].1) + ")"@,
    ) by {
        joined_holds_each(parts, ", "@, i);
        a_part_is_held(done + middle, joined(parts, ", "@), tail, parts[i]);
    }
}

/// The wait is what the setting says, where it is a number, and else by what is
/// owed; it is never longer than the longest.
pub proof fn a_wait_is_what_is_set(value: Option<Seq<char>>, thinning: bool)
    ensures
        delay_seconds(value, thinning) <= MAX_RETRY_DELAY,
        value is Some ==> (number_in(trimmed(value->0)) matches Some(seconds) ==> (seconds <= MAX_RETRY_DELAY ==> delay_seconds(
            value,
            thinning,
        ) == seconds) && (seconds > MAX_RETRY_DELAY ==> delay_seconds(value, thinning) == MAX_RETRY_DELAY)),
        value is None || number_in(trimmed(value->0)) is None ==> delay_seconds(value, thinning) == (if thinning {
            DEFAULT_RETRY_DELAY
        } else {
            INTENTS_ONLY_RETRY_DELAY
        }),
{
}

/// A wait is reported at its start and after every tick, with what is left.
pub proof fn a_wait_is_reported_tick_by_tick(left: nat)
    requires
        left <= u128::MAX,
    ensures
        wait_reports(left).len() > 0,
        wait_reports(left)[0] == left,
        forall|i: int| 0 < i < wait_reports(left).len() ==> #[trigger] wait_reports(left)[i] == left - i * WAIT_TICK,
        wait_reports(left).last() <= WAIT_TICK,
    decreases left,
{
    if left > WAIT_TICK {
        let less = (left - WAIT_TICK) as nat;
        a_wait_is_reported_tick_by_tick(less);
        let all = wait_reports(left);
        let rest = wait_reports(less);
        assert(all =~= seq![left as u128] + rest);
        assert forall|i: int| 0 < i < all.len() implies #[trigger] all[i] == left - i * WAIT_TICK by {
            assert(all[i] == rest[i - 1]);
            if i > 1 {
                assert(rest[i - 1] == less - (i - 1) * WAIT_TICK);
            }
            assert(left - i * WAIT_TICK == less - (i - 1) * WAIT_TICK) by (nonlinear_arith)
                requires
                    less == left - WAIT_TICK,
            ;
        }
        assert(all.last() == rest.last());
    }
}

// ---------------------------------------------------------------------------
// Credentials
// ---------------------------------------------------------------------------

/// Bytes in hexadecimal are two digits for each, and different bytes read
/// differently.
pub proof fn bytes_are_told_apart_in_hexadecimal(a: Seq<u8>, b: Seq<u8>)
    ensures
        hexadecimal(a).len() == 2 * a.len(),
        forall|i: int|
            0 <= i < hexadecimal(a).len() ==> ('0' <= #[trigger] hexadecimal(a)[i] <= '9') || ('a' <= hexadecimal(a)[i] <= 'f'),
        hexadecimal(a) == hexadecimal(b) ==> a == b,
    decreases a.len() + b.len(),
{
    if a.len() > 0 {
        let init = a.drop_last();
        bytes_are_told_apart_in_hexadecimal(init, Seq::empty());
        let x = hexadecimal(a);
        let n = hexadecimal(init).len() as int;
        assert forall|i: int| 0 <= i < x.len() implies ('0' <= #[trigger] x[i] <= '9') || ('a' <= x[i] <= 'f') by {
            if i < n {
                assert(x[i] == hexadecimal(init)[i]);
            } else {
                let last = a.last() as int;
                assert(x[i] == hex_digit(last / 16) || x[i] == hex_digit(last % 16));
            }
        }
    }
    if b.len() > 0 && a.len() + b.len() > b.len() {
        bytes_are_told_apart_in_hexadecimal(b, Seq::empty());
    } else if b.len() > 0 {
        assert(a.len() == 0);
        assert(hexadecimal(b).len() >= 2);
    }
    if hexadecimal(a) == hexadecimal(b) {
        if a.len() > 0 && b.len() > 0 {
            let x = hexadecimal(a);
            let y = hexadecimal(b);
            let p = hexadecimal(a.drop_last());
            let q = hexadecimal(b.drop_last());
            assert(x.take(x.len() - 2) =~= p);
            assert(y.take(y.len() - 2) =~= q);
            bytes_are_told_apart_in_hexadecimal(a.drop_last(), b.drop_last());
            let m = a.last() as int;
            let k = b.last() as int;
            assert(x[x.len() - 2] == hex_digit(m / 16));
            assert(y[y.len() - 2] == hex_digit(k / 16));
            assert(x[x.len() - 1] == hex_digit(m % 16));
            assert(y[y.len() - 1] == hex_digit(k % 16));
            digits_differ(m / 16, k / 16);
            digits_differ(m % 16, k % 16);
            assert(a =~= a.drop_last().push(a.last()));
            assert(b =~= b.drop_last().push(b.last()));
        } else {
            assert(a =~= b);
        }
    }
}

proof fn digits_differ(m: int, n: int)
    requires
        0 <= m < 16,
        0 <= n < 16,
        hex_digit(m) == hex_digit(n),
    ensures
        m == n,
{
}

/// The configuration lies where it is set to lie; a setting that is empty is
/// none; without one it is the application's own place, and without that a
/// directory in the home.
pub proof fn where_the_configuration_lies(
    config_home: Option<Seq<char>>,
    app_data: Option<Seq<char>>,
    home: Option<Seq<char>>,
)
    ensures
        config_home is Some && config_home->0.len() > 0 ==> config_base(config_home, app_data, home) == config_home,
        (config_home is None || config_home->0.len() == 0) && app_data is Some ==> config_base(config_home, app_data, home)
            == app_data,
        (config_home is None || config_home->0.len() == 0) && app_data is None ==> (config_base(config_home, app_data, home) is Some
            <==> home is Some),
        (config_home is None || config_home->0.len() == 0) && app_data is None && home is Some ==> config_base(
            config_home,
            app_data,
            home,
        ) == Some(resolved(home->0, ".config"@)),
{
}

/// A credential has the scope that it was given, and one without has the default.
pub proof fn a_credential_has_its_scope(credential: CredentialModel)
    ensures
        credential.scope is Some ==> Some(scope_of(credential)) == credential.scope,
        credential.scope is None ==> scope_of(credential) == DEFAULT_SCOPE@,
{
}

/// A token of the environment makes a credential exactly where it is one word,
/// and a credential of another service is none.
pub proof fn a_token_is_one_word(token: Seq<char>, credential: CredentialModel)
    ensures
        is_valid(env_credential(token)) <==> token.len() > 0 && !exists|i: int|
            0 <= i < token.len() && unicode_whitespace(#[trigger] token[i]),
        env_credential(token).token == token,
        credential.api_base != env_credential(token).api_base ==> !is_valid(credential),
        credential.api_base == env_credential(token).api_base && credential.token == token ==> is_valid(credential) == is_valid(
            env_credential(token),
        ),
        scope_of(env_credential(token)) == "mcp"@,
{
    let made = env_credential(token);
    if made.token.len() > 0 && !exists|i: int| 0 <= i < token.len() && unicode_whitespace(#[trigger] token[i]) {
        assert(is_valid(made));
    }
    if is_valid(made) {
        assert forall|i: int| 0 <= i < token.len() implies !unicode_whitespace(#[trigger] token[i]) by {
            assert(made.token[i] == token[i]);
        }
    }
    if credential.api_base == made.api_base && credential.token == token {
        assert(is_valid(credential) == is_valid(made));
    }
}

} // verus!
