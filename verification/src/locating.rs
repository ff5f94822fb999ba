//! Where everything is, as the environment says.
use crate::config::{
    below, climb_run, configured, from_env_run, overlap, overlap_run, path_from, place, places,
    resolved_run, Config, Environment, Places,
};
use crate::effects::{Reply, RequestView, Run};
use crate::paths::{joined, parts_of, rooted, PathView};
use crate::text::parsed;
use vstd::prelude::*;

verus! {

/// Whether a variable of the environment is set to something.
pub open spec fn given(value: Option<String>) -> bool {
    value matches Some(text) && text@.len() > 0
}

/// A variable that is set to an absolute path decides, one that is empty counts as not set, and a
/// relative path is refused.
pub proof fn law_variables_have_to_be_absolute(name: Seq<char>, value: Option<String>)
    ensures
        !given(value) ==> path_from(name, value) == Ok::<
            Option<Seq<char>>,
            crate::error::ErrorView,
        >(None),
        given(value) && rooted(value->0@) ==> path_from(name, value) == Ok::<
            Option<Seq<char>>,
            crate::error::ErrorView,
        >(Some(value->0@)),
        given(value) && !rooted(value->0@) ==> path_from(name, value) is Err,
{
}

/// The Codex home and the account store are where the environment says, each by its own variable, and
/// otherwise under fixed names in the home directory; which program Codex is may be said, too.
pub proof fn law_where_things_are(environment: Environment, home: String)
    requires
        environment.home == Some(home),
        given(environment.codex_home) ==> rooted(environment.codex_home->0@),
        given(environment.account_store) ==> rooted(environment.account_store->0@),
        given(environment.codex_binary) ==> rooted(environment.codex_binary->0@),
    ensures
        places(environment) matches Ok(found) && {
            &&& found.codex_home == (if given(environment.codex_home) {
                environment.codex_home->0@
            } else {
                joined(home@, ".codex"@)
            })
            &&& found.account_store == (if given(environment.account_store) {
                environment.account_store->0@
            } else {
                joined(home@, ".codex-auth"@)
            })
            &&& found.codex_binary == (if given(environment.codex_binary) {
                Some(environment.codex_binary->0@)
            } else {
                None
            })
        },
{
}

/// A home directory is needed only where one of the two places is not said.
pub proof fn law_a_home_may_be_missing(environment: Environment)
    requires
        environment.home is None,
    ensures
        !given(environment.codex_home) || !given(environment.account_store) ==> places(environment)
            is Err,
        given(environment.codex_home) && rooted(environment.codex_home->0@) && given(
            environment.account_store,
        ) && rooted(environment.account_store->0@) && !given(environment.codex_binary) ==> places(
            environment,
        ) is Ok,
{
}

/// What Codex itself reads is in the Codex home; everything of this program is in the account store.
pub proof fn law_files_of_a_configuration(
    config: Config,
    found: Places,
    environment: Environment,
    slot: u32,
)
    requires
        configured(config, found, environment),
    ensures
        config.session_auth@ == joined(found.codex_home, "auth.json"@),
        config.account_store@ == found.account_store,
        config.active_profile@ == joined(found.account_store, "active-profile"@),
        config.switch_lock@ == joined(found.account_store, "switch.lock"@),
        config.active_auth@ == joined(found.account_store, "auth.json"@),
        config.server_start_marker@ == joined(found.account_store, "starting"@),
        config.app_server_socket@ == joined(found.account_store, "app-server.sock"@),
        config.codex_home@ == found.codex_home,
        config.profile_auth_path(slot) == joined(
            joined(found.account_store, "profile-"@ + crate::text::decimal_text(slot as nat)),
            "auth.json"@,
        ),
        config.skip_usage_refresh <==> (environment.skip_usage_refresh matches Some(text) && text@
            == "1"@),
        environment.usage_ttl is None ==> config.usage_ttl_seconds == 120,
        (environment.usage_ttl matches Some(text) && parsed(text@, u64::MAX as nat) is Some)
            ==> config.usage_ttl_seconds == parsed(environment.usage_ttl->0@, u64::MAX as nat)->0,
        (environment.usage_ttl matches Some(text) && parsed(text@, u64::MAX as nat) is None)
            ==> config.usage_ttl_seconds == 120,
{
}

/// Each account has a directory named for its number, with its credentials, its quota and when that was
/// last asked for in it; what is staged and kept of it lies beside.
pub proof fn law_files_of_an_account(config: Config, slot: u32)
    ensures
        ({
            let directory = joined(
                config.account_store@,
                "profile-"@ + crate::text::decimal_text(slot as nat),
            );
            &&& config.profile_dir_path(slot) == directory
            &&& config.profile_auth_path(slot) == joined(directory, "auth.json"@)
            &&& config.profile_usage_path(slot) == joined(directory, "usage.json"@)
            &&& config.usage_attempt_path(slot) == joined(directory, "usage-attempt"@)
        }),
        config.profile_pending_path(slot) == joined(
            config.account_store@,
            ".profile-"@ + crate::text::decimal_text(slot as nat) + ".pending"@,
        ),
        config.profile_backup_path(slot) == joined(
            config.account_store@,
            ".profile-"@ + crate::text::decimal_text(slot as nat) + ".backup"@,
        ),
{
}

/// What is set aside lies beside what it was, and the record of a change is in the account store.
pub proof fn law_files_set_aside(config: Config)
    ensures
        config.active_hold_path() == config.active_auth@ + ".cxa-hold"@,
        config.active_pending_path() == config.active_auth@ + ".cxa-pending"@,
        config.active_reappeared_path() == config.active_auth@ + ".cxa-reappeared"@,
        config.session_hold_path() == config.session_auth@ + ".cxa-hold"@,
        config.session_link_pending_path() == config.session_auth@ + ".cxa-link"@,
        config.transaction_path() == joined(config.account_store@, "transaction.json"@),
{
}

/// Two directories overlap exactly where the names of one begin with all the names of the other.
pub proof fn law_when_directories_overlap(first: Seq<char>, second: Seq<char>, ignore_case: bool)
    ensures
        overlap(first, second, ignore_case) <==> place(first, ignore_case).rooted == place(
            second,
            ignore_case,
        ).rooted && (place(first, ignore_case).names.is_prefix_of(place(second, ignore_case).names)
            || place(second, ignore_case).names.is_prefix_of(place(first, ignore_case).names)),
{
    let a = place(first, ignore_case).names;
    let b = place(second, ignore_case).names;
    if a.len() == b.len() && (a.is_prefix_of(b) || b.is_prefix_of(a)) {
        assert(a =~= b);
    }
}

/// The Codex home and the account store may not overlap, once it is known where they really are.
pub proof fn law_the_store_is_apart_from_codex(
    environment: Environment,
    ignore_case: bool,
    log: Seq<Reply>,
    at: nat,
)
    ensures
        from_env_run(log, at, environment, ignore_case) matches Run::Done(found, n) ==> places(
            environment,
        ) == Ok::<Places, crate::error::ErrorView>(found) && overlap_run(
            log,
            at,
            found,
            ignore_case,
        ) == Run::Done(false, n),
        (places(environment) matches Ok(found) && overlap_run(log, at, found, ignore_case) matches
            Run::Done(overlaps, _) && overlaps) ==> from_env_run(log, at, environment, ignore_case)
            is Fail,
{
}

/// A directory that is there is where it really is; one that is not is below the nearest directory above
/// it that is there, by the names that are missing, in their order.
pub proof fn law_where_a_directory_really_is(
    log: Seq<Reply>,
    at: nat,
    path: Seq<char>,
    actual: String,
    name: Seq<char>,
    parent: PathView,
    parent_name: Seq<char>,
    above: PathView,
)
    ensures
        log.len() == at ==> resolved_run(log, at, path) == Run::<Seq<char>>::Ask(
            RequestView::Canonical(path),
        ),
        log.len() > at && log[at as int] == Reply::Text(actual) ==> resolved_run(log, at, path)
            == Run::Done(actual@, at + 1),
        log.len() > at + 3 && log[at as int] is Missing && log[at as int + 1] == Reply::Flag(false)
            && log[at as int + 2] == Reply::Flag(true) && log[at as int + 3] == Reply::Text(actual)
            && parts_of(path).file_name() == Some(name) && parts_of(path).parent() == Some(parent)
            ==> resolved_run(log, at, path) == Run::Done(joined(actual@, name), at + 4)
            && resolved_run(log.take(at as int + 3), at, path) == Run::<Seq<char>>::Ask(
            RequestView::Canonical(parent.text()),
        ),
        log.len() > at + 4 && log[at as int] is Missing && log[at as int + 1] == Reply::Flag(false)
            && log[at as int + 2] == Reply::Flag(false) && log[at as int + 3] == Reply::Flag(true)
            && log[at as int + 4] == Reply::Text(actual) && parts_of(path).file_name() == Some(name)
            && parts_of(path).parent() == Some(parent) && parent.file_name() == Some(parent_name)
            && parent.parent() == Some(above) ==> resolved_run(log, at, path) == Run::Done(
            joined(joined(actual@, parent_name), name),
            at + 5,
        ),
{
    reveal_with_fuel(climb_run, 4);
    reveal_with_fuel(below, 4);
    let one = Seq::<Seq<char>>::empty().push(name);
    let two = one.push(parent_name);
    assert(one.last() == name);
    assert(one.drop_last() =~= Seq::<Seq<char>>::empty());
    assert(two.last() == parent_name);
    assert(two.drop_last() =~= one);
    if log.len() > at + 3 {
        let cut = log.take(at as int + 3);
        assert(cut[at as int] == log[at as int]);
        assert(cut[at as int + 1] == log[at as int + 1]);
        assert(cut[at as int + 2] == log[at as int + 2]);
    }
}

}
