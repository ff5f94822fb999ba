//! What the commands change, whatever course they take.
use crate::account_store::{
    resolve_run, selected_run, selection_line, slot_named, slot_with, Profile,
};
use crate::auth::{AuthDocument, AuthView};
use crate::choosing::{
    has_identity, law_a_new_account_comes_after_the_others,
    law_an_identity_is_found_wherever_it_is,
};
use crate::cli::{
    add_options, add_run, command_run, confirm_run, credential_text, first_foreign, foreign_option,
    import_current_run, import_run, init_run, locked_run, login_run, needs_run, notice_text,
    option_name, plan_list_run, print_run, profile_text, recorded, recorded_run, refresh_run,
    relogged_text, relogin_run, reselect_run, show_run, slots_of, spin_run, stale_run, status_run,
    switch_run, switched_text, warn_run, Cli, CliCommand,
};
use crate::config::Config;
use crate::effects::{done_run, time_run, Reply, RequestView, Run};
use crate::paths::joined;
use crate::steady::agree;
use crate::switching::{
    adopt_selection_run, credential_status_run, enroll_run, follow_session_run, replace_run,
    switch_to_run, sync_session_run,
};
use crate::text::{decimal_text, first_at, lowered, opt_texts, parsed, trimmed};
use crate::usage::{UsageRecord, UsageView};
use vstd::prelude::*;

verus! {

/// Whether a request changes something on the disk, and where.
pub open spec fn changes(request: RequestView, path: Seq<char>) -> bool {
    match request {
        RequestView::Write { path: to, .. } => to == path,
        RequestView::WriteState { path: to, .. } => to == path,
        RequestView::WriteBoost { path: to, .. } => to == path,
        RequestView::Copy { to, .. } => to == path,
        RequestView::CopyIfAbsent { to, .. } => to == path,
        RequestView::LinkIfAbsent { to, .. } => to == path,
        RequestView::HardLink { to, .. } => to == path,
        RequestView::Rename { from, to } => from == path || to == path,
        RequestView::Claim { from, to } => from == path || to == path,
        RequestView::Symlink { link, .. } => link == path,
        RequestView::Remove(at) => at == path,
        RequestView::RemoveTree(at) => at == path,
        RequestView::Unlink(at) => at == path,
        RequestView::PersistTemp(to) => to == path,
        RequestView::PersistTempIfAbsent(to) => to == path,
        _ => false,
    }
}

/// Whether a reply names an account as the selected one.
pub open spec fn names_selected(reply: Reply, slot: u32) -> bool {
    reply matches Reply::Text(text) && parsed(trimmed(text@), u32::MAX as nat) == Some(slot as nat)
}

/// Whether one of the last replies named an account as the selected one, and the next one said that
/// its directory is there.
pub open spec fn just_selected(log: Seq<Reply>, slot: u32) -> bool {
    exists|i: int|
        0 <= i < log.len() - 1 && log.len() <= i + 6 && names_selected(#[trigger] log[i], slot)
            && log[i + 1] == Reply::Flag(true)
}

/// Whether a path is that of the settings in a home that a reply named.
pub open spec fn settings_copy(log: Seq<Reply>, path: Seq<char>) -> bool {
    exists|i: int|
        0 <= i < log.len() && (#[trigger] log[i] matches Reply::Text(home) && path == joined(
            home@,
            "config.toml"@,
        ))
}

// ---------------------------------------------------------------- following the session

/// Before a command does its own work it follows the session: it may save the session's credentials
/// to the account that has their identity, and select that account. It changes nothing else, and
/// nothing at all where the session has no valid credentials or those of no enrolled account.
pub proof fn law_only_the_session_is_followed(
    c: Config,
    log: Seq<Reply>,
    at: nat,
    request: RequestView,
    path: Seq<char>,
)
    requires
        at <= log.len(),
        sync_session_run(c, log, at) == Run::<()>::Ask(request),
        changes(request, path),
    ensures
        log.len() >= at + 3,
        log[at as int] matches Reply::Auth(session) && log[at as int + 1] matches Reply::Profiles(
            accounts,
        ) && log[at as int + 2] matches Reply::Auth(saved) && exists|i: int|
            0 <= i < accounts@.len() && has_identity(
                #[trigger] accounts@[i],
                session@.identity,
            ) && {
                ||| request == RequestView::Write {
                    path: c.profile_auth_path(accounts@[i].slot),
                    bytes: session@.bytes,
                } && !saved@.newer(session@) && !session@.same_credentials(saved@)
                ||| request == RequestView::Write {
                    path: c.active_profile@,
                    bytes: selection_line(accounts@[i].slot),
                }
            },
{
    if let Reply::Auth(session) = log[at as int] {
        if let Reply::Profiles(accounts) = log[at as int + 1] {
            law_an_identity_is_found_wherever_it_is(accounts@, session@.identity);
        }
    }
}

/// The account that the session uses is the selected one: where its credentials are those that were
/// saved, and another account or none is recorded, it is recorded.
pub proof fn law_the_session_is_selected(
    c: Config,
    session: AuthDocument,
    accounts: Vec<Profile>,
    saved: AuthDocument,
    log: Seq<Reply>,
    at: nat,
    i: int,
)
    requires
        log.len() == at + 4,
        log[at as int] == Reply::Auth(session),
        log[at as int + 1] == Reply::Profiles(accounts),
        log[at as int + 2] == Reply::Auth(saved),
        log[at as int + 3] is Missing,
        0 <= i < accounts@.len(),
        has_identity(accounts@[i], session@.identity),
        forall|j: int|
            0 <= j < accounts@.len() && j != i ==> !has_identity(
                #[trigger] accounts@[j],
                session@.identity,
            ),
        session@.same_credentials(saved@),
    ensures
        sync_session_run(c, log, at) == Run::<()>::Ask(
            RequestView::Write {
                path: c.active_profile@,
                bytes: selection_line(accounts@[i].slot),
            },
        ),
{
    law_an_identity_is_found_wherever_it_is(accounts@, session@.identity);
}

// ---------------------------------------------------------------- switching

proof fn steady_locked(c: Config, log: Seq<Reply>, at: nat, k: nat)
    requires
        at <= log.len(),
        k <= log.len(),
    ensures
        agree(locked_run(c, log, at), locked_run(c, log.take(k as int), at), at, k, log.len()),
{
    if at < log.len() {
        steady_sync(c, log, at + 1, k);
    }
}

proof fn steady_sync(c: Config, log: Seq<Reply>, at: nat, k: nat)
    requires
        at <= log.len(),
        k <= log.len(),
    ensures
        agree(
            sync_session_run(c, log, at),
            sync_session_run(c, log.take(k as int), at),
            at,
            k,
            log.len(),
        ),
{
    if at + 1 < log.len() {
        if let Reply::Auth(session) = log[at as int] {
            if let Reply::Profiles(accounts) = log[at as int + 1] {
                if let Some(slot) = slot_with(accounts@, session@.identity) {
                    steady_follow(c, session@, slot, log, at + 2, k);
                    if let Run::Done(_, m) = follow_session_run(c, session@, slot, log, at + 2) {
                        steady_adopt(c, slot, log, m, k);
                    }
                }
            }
        }
    }
}

proof fn steady_follow(c: Config, session: AuthView, slot: u32, log: Seq<Reply>, at: nat, k: nat)
    requires
        at <= log.len(),
        k <= log.len(),
    ensures
        agree(
            follow_session_run(c, session, slot, log, at),
            follow_session_run(c, session, slot, log.take(k as int), at),
            at,
            k,
            log.len(),
        ),
{
}

proof fn steady_adopt(c: Config, slot: u32, log: Seq<Reply>, at: nat, k: nat)
    requires
        at <= log.len(),
        k <= log.len(),
    ensures
        agree(
            adopt_selection_run(c, slot, log, at),
            adopt_selection_run(c, slot, log.take(k as int), at),
            at,
            k,
            log.len(),
        ),
{
}

proof fn steady_resolve(c: Config, selector: Seq<char>, log: Seq<Reply>, at: nat, k: nat)
    requires
        at <= log.len(),
        k <= log.len(),
    ensures
        agree(
            resolve_run(c, selector, log, at),
            resolve_run(c, selector, log.take(k as int), at),
            at,
            k,
            log.len(),
        ),
{
}

proof fn steady_warn(target: Profile, log: Seq<Reply>, at: nat, k: nat)
    requires
        at <= log.len(),
        k <= log.len(),
    ensures
        agree(warn_run(target, log, at), warn_run(target, log.take(k as int), at), at, k, log.len()),
{
}

/// The part of a switch behind the warning.
spec fn switch_tail(c: Config, slot: u32, log: Seq<Reply>, at: nat) -> Run<()> {
    switch_to_run(c, slot, log, at).bind(
        |chosen: (u32, AuthDocument), p: nat|
            print_run(log, p, switched_text(chosen)).next(
                |q: nat| print_run(log, q, notice_text()),
            ),
    )
}

proof fn lemma_switch_cut(
    c: Config,
    selector: Seq<char>,
    target: Profile,
    log: Seq<Reply>,
    at: nat,
    n: nat,
    m: nat,
    w: nat,
    k: nat,
)
    requires
        at <= log.len(),
        locked_run(c, log, at) == Run::Done((), n),
        resolve_run(c, selector, log, n) == Run::Done(target, m),
        warn_run(target, log, m) == Run::Done((), w),
        w <= k <= log.len(),
    ensures
        switch_run(c, selector, log.take(k as int), at) == switch_tail(
            c,
            target.slot,
            log.take(k as int),
            w,
        ),
        at <= n <= m <= w,
{
    steady_locked(c, log, at, k);
    steady_resolve(c, selector, log, n, k);
    steady_warn(target, log, m, k);
}

proof fn lemma_switch_tail(c: Config, slot: u32, log: Seq<Reply>, w: nat, z: nat)
    requires
        w <= log.len(),
        switch_tail(c, slot, log, w) == Run::Done((), z),
    ensures
        z == w + 5 <= log.len(),
        log[w as int] matches Reply::Auth(saved) && {
            &&& switch_tail(c, slot, log.take(w as int), w) == Run::<()>::Ask(
                RequestView::ReadAuth(c.profile_auth_path(slot)),
            )
            &&& switch_tail(c, slot, log.take(w as int + 1), w) == Run::<()>::Ask(
                RequestView::Write { path: c.session_auth@, bytes: saved@.bytes },
            )
            &&& switch_tail(c, slot, log.take(w as int + 2), w) == Run::<()>::Ask(
                RequestView::Write { path: c.active_profile@, bytes: selection_line(slot) },
            )
        },
        log[w as int + 1] is Done,
        log[w as int + 2] is Done,
        switch_tail(c, slot, log.take(w as int + 4), w) == Run::<()>::Ask(
            RequestView::Print(notice_text()),
        ),
{
}

proof fn lemma_switch_parts(
    c: Config,
    selector: Seq<char>,
    target: Profile,
    log: Seq<Reply>,
    at: nat,
    n: nat,
    m: nat,
)
    requires
        locked_run(c, log, at) == Run::Done((), n),
        resolve_run(c, selector, log, n) == Run::Done(target, m),
        switch_run(c, selector, log, at) is Done,
    ensures
        warn_run(target, log, m) is Done,
{
}

/// After a switch the session has, byte for byte, the credentials that were saved for the account
/// that was named, and that account is recorded as the selected one; whoever asked for it is told to
/// restart what is running.
pub proof fn law_a_switch_reaches_the_session(
    c: Config,
    selector: Seq<char>,
    target: Profile,
    log: Seq<Reply>,
    at: nat,
    n: nat,
    m: nat,
    z: nat,
)
    requires
        at <= log.len(),
        locked_run(c, log, at) == Run::Done((), n),
        resolve_run(c, selector, log, n) == Run::Done(target, m),
        switch_run(c, selector, log, at) == Run::Done((), z),
    ensures
        m + 5 <= z <= log.len(),
        log[z - 5] matches Reply::Auth(saved) && {
            &&& switch_run(c, selector, log.take(z - 5), at) == Run::<()>::Ask(
                RequestView::ReadAuth(c.profile_auth_path(target.slot)),
            )
            &&& switch_run(c, selector, log.take(z - 4), at) == Run::<()>::Ask(
                RequestView::Write { path: c.session_auth@, bytes: saved@.bytes },
            )
            &&& switch_run(c, selector, log.take(z - 3), at) == Run::<()>::Ask(
                RequestView::Write {
                    path: c.active_profile@,
                    bytes: selection_line(target.slot),
                },
            )
        },
        log[z - 4] is Done,
        log[z - 3] is Done,
        switch_run(c, selector, log.take(z - 1), at) == Run::<()>::Ask(
            RequestView::Print(notice_text()),
        ),
{
    lemma_switch_parts(c, selector, target, log, at, n, m);
    let w = warn_run(target, log, m)->Done_1;
    lemma_switch_cut(c, selector, target, log, at, n, m, w, log.len());
    assert(log.take(log.len() as int) =~= log);
    lemma_switch_tail(c, target.slot, log, w, z);
    lemma_switch_cut(c, selector, target, log, at, n, m, w, w);
    lemma_switch_cut(c, selector, target, log, at, n, m, w, w + 1);
    lemma_switch_cut(c, selector, target, log, at, n, m, w, w + 2);
    lemma_switch_cut(c, selector, target, log, at, n, m, w, w + 4);
}

/// A switch changes the session's credentials and the record of the selected account, in that order,
/// and nothing else: an account that was last seen exhausted is warned about and selected all the
/// same.
pub proof fn law_a_switch_changes_two_files(
    c: Config,
    selector: Seq<char>,
    log: Seq<Reply>,
    at: nat,
    n: nat,
    request: RequestView,
    path: Seq<char>,
)
    requires
        at <= log.len(),
        locked_run(c, log, at) == Run::Done((), n),
        switch_run(c, selector, log, at) == Run::<()>::Ask(request),
        changes(request, path),
    ensures
        resolve_run(c, selector, log, n) matches Run::Done(target, _) && {
            ||| log.last() matches Reply::Auth(saved) && request == (RequestView::Write {
                path: c.session_auth@,
                bytes: saved@.bytes,
            })
            ||| log.last() is Done && log[log.len() - 2] is Auth && request == (RequestView::Write {
                path: c.active_profile@,
                bytes: selection_line(target.slot),
            })
        },
{
}

// ---------------------------------------------------------------- enrolling

/// A new account is enrolled by saving its credentials, byte for byte, under a number of its own, and
/// it is selected exactly where the session has its identity. Nobody who is enrolled already is
/// enrolled again.
pub proof fn law_enrolling_saves_the_credentials(
    c: Config,
    source: Seq<char>,
    slot: u32,
    fresh: AuthDocument,
    log: Seq<Reply>,
    at: nat,
    z: nat,
)
    requires
        at <= log.len(),
        enroll_run(c, source, log, at) == Run::Done((slot, fresh), z),
    ensures
        at + 6 <= z <= log.len(),
        enroll_run(c, source, log.take(at as int), at) == Run::<(u32, AuthDocument)>::Ask(
            RequestView::ReadAuth(source),
        ),
        log[at as int] == Reply::Auth(fresh),
        log[at as int + 1] matches Reply::Profiles(accounts) && forall|i: int|
            0 <= i < accounts@.len() ==> !has_identity(#[trigger] accounts@[i], fresh@.identity),
        log[at as int + 2] matches Reply::Names(names) ==> forall|i: int|
            0 <= i < names@.len() ==> slot_named((#[trigger] names@[i])@) != Some(slot),
        enroll_run(c, source, log.take(at as int + 4), at) == Run::<(u32, AuthDocument)>::Ask(
            RequestView::Write { path: c.profile_auth_path(slot), bytes: fresh@.bytes },
        ),
        log[at as int + 4] is Done,
        z == at + 7 <==> (log[at as int + 5] matches Reply::Auth(session)
            && session@.identity.user_id == fresh@.identity.user_id && session@.identity.account_id
            == fresh@.identity.account_id),
        z == at + 7 ==> enroll_run(c, source, log.take(at as int + 6), at) == Run::<
            (u32, AuthDocument),
        >::Ask(RequestView::Write { path: c.active_profile@, bytes: selection_line(slot) }),
{
    if let Reply::Profiles(accounts) = log[at as int + 1] {
        law_an_identity_is_found_wherever_it_is(accounts@, fresh@.identity);
    }
    if let Reply::Names(names) = log[at as int + 2] {
        law_a_new_account_comes_after_the_others(c, names, slot, log, at + 2);
    }
}

/// Enrolling changes the new account's saved credentials and the record of the selected account, and
/// nothing else: not the session, and not the saved credentials of another account.
pub proof fn law_enrolling_changes_its_own_files(
    c: Config,
    source: Seq<char>,
    log: Seq<Reply>,
    at: nat,
    request: RequestView,
    path: Seq<char>,
)
    requires
        at <= log.len(),
        enroll_run(c, source, log, at) == Run::<(u32, AuthDocument)>::Ask(request),
        changes(request, path),
    ensures
        log.len() == at + 4 || log.len() == at + 6,
        log[at as int] matches Reply::Auth(fresh) && if log.len() == at + 4 {
            exists|slot: u32|
                request == (RequestView::Write {
                    path: #[trigger] c.profile_auth_path(slot),
                    bytes: fresh@.bytes,
                })
        } else {
            &&& path == c.active_profile@
            &&& log[at as int + 5] matches Reply::Auth(session) && session@.identity.user_id
                == fresh@.identity.user_id && session@.identity.account_id
                == fresh@.identity.account_id
        },
{
}

/// A login that does not end well changes nothing; one that does leaves its credentials in a home of
/// its own, which Codex is told to keep them in as a file.
pub proof fn law_a_login_has_a_home_of_its_own(
    c: Config,
    options: Seq<Option<Seq<char>>>,
    log: Seq<Reply>,
    at: nat,
)
    requires
        at <= log.len(),
    ensures
        login_run(c, options, log, at) matches Run::Done(credentials, z) ==> {
            &&& at + 5 <= z <= log.len()
            &&& log[at as int + 1] matches Reply::Text(home) && credentials == joined(
                home@,
                "auth.json"@,
            ) && (login_run(c, options, log.take(z - 2), at) matches Run::Ask(
                RequestView::Login { arguments, home: there },
            ) && there == home@ && arguments.len() == options.len() + 3 && arguments[0] == Some(
                "login"@,
            ) && arguments.last() == Some("cli_auth_credentials_store=\"file\""@) && (forall|i: int|

                0 <= i < options.len() ==> arguments[i + 1] == #[trigger] options[i]))
            &&& log[z - 2] == Reply::Flag(true)
            &&& log[z - 1] == Reply::Flag(true)
        },
        login_run(c, options, log, at) matches Run::Ask(request) ==> forall|path: Seq<char>|
            #[trigger]
            changes(request, path) ==> settings_copy(log, path),
{
    if let Run::Ask(request) = login_run(c, options, log, at) {
        assert forall|path: Seq<char>| #[trigger] changes(request, path) implies settings_copy(
            log,
            path,
        ) by {
            assert(log[at as int + 1] is Text);
        }
    }
}

/// Adding an account enrolls the account of the login, and changes nothing but what enrolling does
/// and the settings in the login's own home.
pub proof fn law_adding_enrolls_the_login(
    c: Config,
    device_auth: bool,
    options: Seq<Option<String>>,
    log: Seq<Reply>,
    at: nat,
    n: nat,
)
    requires
        at <= log.len(),
        first_foreign(options) is None,
        locked_run(c, log, at) == Run::Done((), n),
    ensures
        add_run(c, device_auth, options, log, at) matches Run::Ask(request) ==> {
            ||| forall|path: Seq<char>| #[trigger]
                changes(request, path) ==> settings_copy(log, path)
            ||| exists|home: String, k: nat|
                n <= k <= log.len() && #[trigger] enroll_run(
                    c,
                    joined(home@, "auth.json"@),
                    log,
                    k,
                ) == Run::<(u32, AuthDocument)>::Ask(request) && k > n && log[n as int + 1]
                    == Reply::Text(home)
        },
        add_run(c, device_auth, options, log, at) is Done ==> exists|home: String, k: nat|
            n <= k <= log.len() && #[trigger] enroll_run(c, joined(home@, "auth.json"@), log, k)
                is Done && log[n as int + 1] == Reply::Text(home),
{
    steady_locked(c, log, at, log.len());
    let chosen = add_options(device_auth, options);
    law_a_login_has_a_home_of_its_own(c, chosen, log, n);
    if let Run::Done(credentials, k) = login_run(c, chosen, log, n) {
        let home = log[n as int + 1]->Text_0;
        assert(credentials == joined(home@, "auth.json"@));
        let e = enroll_run(c, joined(home@, "auth.json"@), log, k);
        if let Run::Ask(request) = add_run(c, device_auth, options, log, at) {
            if e !is Ask {
                assert(request is Print);
            }
        }
    }
}

/// Importing a credential file enrolls its account, and changes nothing but what enrolling does.
pub proof fn law_importing_enrolls_the_file(
    c: Config,
    file: Seq<char>,
    log: Seq<Reply>,
    at: nat,
    n: nat,
)
    requires
        at <= log.len(),
        locked_run(c, log, at) == Run::Done((), n),
    ensures
        import_run(c, file, log, at) matches Run::Ask(request) ==> request is Print || enroll_run(
            c,
            file,
            log,
            n,
        ) == Run::<(u32, AuthDocument)>::Ask(request),
        import_run(c, file, log, at) is Done ==> enroll_run(c, file, log, n) is Done,
        enroll_run(c, file, log, n) matches Run::Fail(error, k) ==> import_run(c, file, log, at)
            == Run::<()>::Fail(error, k),
{
}

/// Whether an answer is neither `n` nor `no`, with capital letters or without.
pub open spec fn no_refusal(reply: Reply) -> bool {
    reply matches Reply::Text(answer) && trimmed(answer@) != seq!['n'] && trimmed(answer@) != seq![
        'N',
    ] && trimmed(answer@) != seq!['n', 'o'] && trimmed(answer@) != seq!['N', 'o']
}

proof fn lemma_confirmed(label: Seq<char>, log: Seq<Reply>, at: nat)
    requires
        at <= log.len(),
    ensures
        confirm_run(label, log, at) matches Run::Done(_, k) ==> k == at + 2 <= log.len()
            && log[at as int] == Reply::Flag(true) && no_refusal(log[at as int + 1]),
        confirm_run(label, log, at) matches Run::Ask(request) ==> request is Interactive
            || request is Prompt,
{
    reveal_strlit("n");
    reveal_strlit("no");
    assert(lowered(seq!['n']) =~= "n"@);
    assert(lowered(seq!['N']) =~= "n"@);
    assert(lowered(seq!['n', 'o']) =~= "no"@);
    assert(lowered(seq!['N', 'o']) =~= "no"@);
}

proof fn lemma_import_current(
    c: Config,
    yes: bool,
    log: Seq<Reply>,
    at: nat,
    request: RequestView,
    path: Seq<char>,
)
    requires
        at <= log.len(),
        import_current_run(c, yes, log, at) == Run::<()>::Ask(request),
        changes(request, path),
    ensures
        at + 2 <= log.len(),
        log[at as int] == Reply::Flag(true),
        exists|k: nat|
            at + 2 <= k <= log.len() && #[trigger] enroll_run(c, c.session_auth@, log, k) == Run::<
                (u32, AuthDocument),
            >::Ask(request) && (yes || k == at + 4 && log[at as int + 2] == Reply::Flag(true)
                && no_refusal(log[at as int + 3])),
{
    if let Reply::Auth(current) = log[at as int + 1] {
        lemma_confirmed(current@.identity.label(), log, at + 2);
        let asked = confirm_run(current@.identity.label(), log, at + 2);
        let k = if yes {
            at + 2
        } else {
            asked->Done_1
        };
        let e = enroll_run(c, c.session_auth@, log, k);
        assert(e == Run::<(u32, AuthDocument)>::Ask(request));
    }
}

/// Where accounts are enrolled already, nothing is imported.
proof fn lemma_init_parts(
    c: Config,
    yes: bool,
    log: Seq<Reply>,
    at: nat,
    n: nat,
    request: RequestView,
    path: Seq<char>,
)
    requires
        n <= log.len(),
        locked_run(c, log, at) == Run::Done((), n),
        init_run(c, yes, log, at) == Run::<()>::Ask(request),
        changes(request, path),
    ensures
        n < log.len(),
        log[n as int] matches Reply::Profiles(accounts) && accounts@.len() == 0,
        import_current_run(c, yes, log, n + 1) == Run::<()>::Ask(request),
{
}

/// The first account is the one that the session uses already. It is imported only into a store
/// without accounts, and without an explicit consent only where somebody at a terminal was asked and
/// did not say no.
pub proof fn law_the_first_account_is_the_session(
    c: Config,
    yes: bool,
    log: Seq<Reply>,
    at: nat,
    n: nat,
    request: RequestView,
    path: Seq<char>,
)
    requires
        at <= log.len(),
        locked_run(c, log, at) == Run::Done((), n),
        init_run(c, yes, log, at) == Run::<()>::Ask(request),
        changes(request, path),
    ensures
        n + 3 <= log.len(),
        log[n as int] matches Reply::Profiles(accounts) && accounts@.len() == 0,
        log[n as int + 1] == Reply::Flag(true),
        exists|k: nat|
            n + 3 <= k <= log.len() && #[trigger] enroll_run(c, c.session_auth@, log, k) == Run::<
                (u32, AuthDocument),
            >::Ask(request) && (yes || k == n + 5 && log[n as int + 3] == Reply::Flag(true)
                && no_refusal(log[n as int + 4])),
{
    steady_locked(c, log, at, log.len());
    lemma_init_parts(c, yes, log, at, n, request, path);
    lemma_import_current(c, yes, log, n + 1, request, path);
    let k = choose|k: nat|
        n + 3 <= k <= log.len() && #[trigger] enroll_run(c, c.session_auth@, log, k) == Run::<
            (u32, AuthDocument),
        >::Ask(request) && (yes || k == n + 5 && log[n as int + 3] == Reply::Flag(true)
            && no_refusal(log[n as int + 4]));
    assert(enroll_run(c, c.session_auth@, log, k) == Run::<(u32, AuthDocument)>::Ask(request));
}

// ---------------------------------------------------------------- logging in anew

/// The part of a new login behind the login itself.
spec fn relogin_tail(
    c: Config,
    target: Profile,
    credentials: Seq<char>,
    log: Seq<Reply>,
    at: nat,
) -> Run<()> {
    replace_run(c, target.slot, credentials, log, at).bind(
        |account: (u32, AuthDocument), q: nat|
            done_run(log, q, RequestView::Remove(c.profile_usage_path(target.slot))).next(
                |y: nat|
                    reselect_run(c, target.slot, log, y).next(
                        |z: nat| print_run(log, z, relogged_text(account)),
                    ),
            ),
    )
}

proof fn lemma_relogin_tail(
    c: Config,
    selector: Seq<char>,
    options: Seq<Option<String>>,
    target: Profile,
    credentials: Seq<char>,
    log: Seq<Reply>,
    at: nat,
    n: nat,
    m: nat,
    p: nat,
)
    requires
        first_foreign(options) is None,
        locked_run(c, log, at) == Run::Done((), n),
        resolve_run(c, selector, log, n) == Run::Done(target, m),
        m < log.len(),
        log[m as int] is Done,
        login_run(c, opt_texts(options), log, m + 1) == Run::Done(credentials, p),
    ensures
        relogin_run(c, selector, options, log, at) == relogin_tail(c, target, credentials, log, p),
{
}

proof fn lemma_relogin_changes(
    c: Config,
    target: Profile,
    credentials: Seq<char>,
    log: Seq<Reply>,
    p: nat,
    request: RequestView,
    path: Seq<char>,
)
    requires
        p <= log.len(),
        relogin_tail(c, target, credentials, log, p) == Run::<()>::Ask(request),
        changes(request, path),
    ensures
        ({
            ||| path == c.profile_auth_path(target.slot) && request is Write
            ||| request == RequestView::Remove(c.profile_usage_path(target.slot))
            ||| just_selected(log, target.slot) && request is Write && (path == c.session_auth@
                || path == c.active_profile@)
        }),
{
    if log.len() > p + 5 {
        let y = p as int + 4;
        if names_selected(log[y], target.slot) && log[y + 1] == Reply::Flag(true) {
            assert(just_selected(log, target.slot));
        }
    }
}

/// Logging in to an account anew changes the saved credentials of that account and drops its
/// recorded quota. The session's credentials and the record of the selected account are changed only
/// where the record, read just before, names that very account.
pub proof fn law_logging_in_anew_keeps_the_selection(
    c: Config,
    selector: Seq<char>,
    options: Seq<Option<String>>,
    log: Seq<Reply>,
    at: nat,
    n: nat,
    request: RequestView,
    path: Seq<char>,
)
    requires
        at <= log.len(),
        locked_run(c, log, at) == Run::Done((), n),
        relogin_run(c, selector, options, log, at) == Run::<()>::Ask(request),
        changes(request, path),
    ensures
        resolve_run(c, selector, log, n) matches Run::Done(target, _) && {
            ||| path == c.profile_auth_path(target.slot) && request is Write
            ||| request == RequestView::Remove(c.profile_usage_path(target.slot))
            ||| settings_copy(log, path)
            ||| just_selected(log, target.slot) && request is Write && (path == c.session_auth@
                || path == c.active_profile@)
        },
{
    steady_locked(c, log, at, log.len());
    steady_resolve(c, selector, log, n, log.len());
    let target = resolve_run(c, selector, log, n)->Done_0;
    let m = resolve_run(c, selector, log, n)->Done_1;
    lemma_relogin_login(c, selector, options, log, at, n, request, path);
    law_a_login_has_a_home_of_its_own(c, opt_texts(options), log, m + 1);
    if let Run::Done(credentials, p) = login_run(c, opt_texts(options), log, m + 1) {
        lemma_relogin_tail(c, selector, options, target, credentials, log, at, n, m, p);
        lemma_relogin_changes(c, target, credentials, log, p, request, path);
    }
}

proof fn lemma_relogin_login(
    c: Config,
    selector: Seq<char>,
    options: Seq<Option<String>>,
    log: Seq<Reply>,
    at: nat,
    n: nat,
    request: RequestView,
    path: Seq<char>,
)
    requires
        n <= log.len(),
        locked_run(c, log, at) == Run::Done((), n),
        relogin_run(c, selector, options, log, at) == Run::<()>::Ask(request),
        changes(request, path),
    ensures
        first_foreign(options) is None,
        resolve_run(c, selector, log, n) matches Run::Done(_, m) && m < log.len()
            && log[m as int] is Done && (login_run(c, opt_texts(options), log, m + 1) is Done
            || login_run(c, opt_texts(options), log, m + 1) == Run::<Seq<char>>::Ask(request)),
{
}

/// The end of a new login. Where the record names another account, or none that is there, the
/// session is left alone and a single line is printed. Where it names the account itself, the
/// session is given what is saved for it now, before the account is recorded again and somebody is
/// told to restart what is running.
pub proof fn law_a_new_login_reaches_the_session_of_its_account(
    c: Config,
    selector: Seq<char>,
    options: Seq<Option<String>>,
    target: Profile,
    credentials: Seq<char>,
    account: (u32, AuthDocument),
    other: u32,
    log: Seq<Reply>,
    at: nat,
    n: nat,
    m: nat,
    p: nat,
    q: nat,
)
    requires
        first_foreign(options) is None,
        locked_run(c, log, at) == Run::Done((), n),
        resolve_run(c, selector, log, n) == Run::Done(target, m),
        m < log.len(),
        log[m as int] is Done,
        login_run(c, opt_texts(options), log, m + 1) == Run::Done(credentials, p),
        replace_run(c, target.slot, credentials, log, p) == Run::Done(account, q),
        q + 3 <= log.len(),
        log[q as int] is Done,
        log[q as int + 2] is Flag,
    ensures
        other != target.slot && names_selected(log[q as int + 1], other) ==> {
            &&& log.len() == q + 3 ==> relogin_run(c, selector, options, log, at) == Run::<
                (),
            >::Ask(RequestView::Print(relogged_text(account)))
            &&& log.len() > q + 3 && log[q as int + 3] is Done ==> relogin_run(
                c,
                selector,
                options,
                log,
                at,
            ) == Run::Done((), q + 4)
        },
        names_selected(log[q as int + 1], target.slot) && log[q as int + 2] == Reply::Flag(true)
            ==> {
            &&& log.len() == q + 3 ==> relogin_run(c, selector, options, log, at) == Run::<
                (),
            >::Ask(RequestView::ReadAuth(c.profile_auth_path(target.slot)))
            &&& log.len() == q + 4 && log[q as int + 3] is Auth ==> relogin_run(
                c,
                selector,
                options,
                log,
                at,
            ) == Run::<()>::Ask(
                RequestView::Write {
                    path: c.session_auth@,
                    bytes: log[q as int + 3]->Auth_0@.bytes,
                },
            )
            &&& log.len() == q + 5 && log[q as int + 3] is Auth && log[q as int + 4] is Done
                ==> relogin_run(c, selector, options, log, at) == Run::<()>::Ask(
                RequestView::Write {
                    path: c.active_profile@,
                    bytes: selection_line(target.slot),
                },
            )
            &&& log.len() == q + 6 && log[q as int + 3] is Auth && log[q as int + 4] is Done
                && log[q as int + 5] is Done ==> relogin_run(c, selector, options, log, at)
                == Run::<()>::Ask(RequestView::Print(notice_text()))
        },
{
    lemma_relogin_tail(c, selector, options, target, credentials, log, at, n, m, p);
}

/// New credentials replace the saved ones of an account only where both have the same user and the
/// same workspace, and they replace them byte for byte.
pub proof fn law_a_replacement_is_of_the_same_account(
    c: Config,
    slot: u32,
    source: Seq<char>,
    fresh: AuthDocument,
    saved: AuthDocument,
    log: Seq<Reply>,
    at: nat,
)
    requires
        log.len() == at + 2,
        log[at as int] == Reply::Auth(fresh),
        log[at as int + 1] == Reply::Auth(saved),
    ensures
        replace_run(c, slot, source, log.take(at as int), at) == Run::<(u32, AuthDocument)>::Ask(
            RequestView::ReadAuth(source),
        ),
        replace_run(c, slot, source, log.take(at as int + 1), at) == Run::<
            (u32, AuthDocument),
        >::Ask(RequestView::ReadAuth(c.profile_auth_path(slot))),
        if fresh@.identity.user_id == saved@.identity.user_id && fresh@.identity.account_id
            == saved@.identity.account_id {
            replace_run(c, slot, source, log, at) == Run::<(u32, AuthDocument)>::Ask(
                RequestView::Write { path: c.profile_auth_path(slot), bytes: fresh@.bytes },
            )
        } else {
            replace_run(c, slot, source, log, at) is Fail
        },
{
}

// ---------------------------------------------------------------- looking

/// Whether a request leaves every file alone, and concerns no quota but this account's.
spec fn looks_at(request: RequestView, slot: u32) -> bool {
    &&& forall|path: Seq<char>| !#[trigger] changes(request, path)
    &&& request matches RequestView::RecordUsage { slot: other, .. } ==> other == slot
    &&& request matches RequestView::QueryUsage(other) ==> other == slot
}

proof fn lemma_refresh_looks(c: Config, slot: u32, force: bool, log: Seq<Reply>, at: nat)
    ensures
        refresh_run(c, slot, force, log, at) matches Run::Ask(request) ==> looks_at(request, slot)
            && (c.skip_usage_refresh ==> request !is RecordUsage && request !is QueryUsage),
{
}

proof fn lemma_spin_looks(
    c: Config,
    refresh: bool,
    profile: Profile,
    slot: u32,
    log: Seq<Reply>,
    at: nat,
)
    ensures
        spin_run(c, refresh, profile, slot, log, at) matches Run::Ask(request) ==> looks_at(
            request,
            slot,
        ) && (c.skip_usage_refresh || !refresh ==> request !is RecordUsage && request
            !is QueryUsage),
{
    if let Run::Done(_, n) = needs_run(c, slot, false, log, at) {
        lemma_refresh_looks(c, slot, false, log, n + 1);
    }
}

proof fn lemma_shown_looks(
    c: Config,
    profile: Profile,
    slot: u32,
    changed: bool,
    log: Seq<Reply>,
    at: nat,
)
    ensures
        shown_run(c, profile, slot, changed, log, at) matches Run::Ask(request) ==> (forall|
            path: Seq<char>,
        |
            !#[trigger] changes(request, path)) && request !is RecordUsage && request !is QueryUsage,
{
}

/// The part of showing an account behind reading its quota.
spec fn shown_run(
    c: Config,
    profile: Profile,
    slot: u32,
    changed: bool,
    log: Seq<Reply>,
    at: nat,
) -> Run<()> {
    recorded_run(log, at, slot).bind(
        |usage: Option<UsageRecord>, k: nat|
            time_run(log, k, RequestView::Now).bind(
                |now: i64, p: nat|
                    done_run(
                        log,
                        p,
                        RequestView::Show(profile_text(profile, true, usage, now)),
                    ).next(
                        |q: nat|
                            credential_status_run(c, slot, log, q).bind(
                                |credential: Seq<char>, y: nat|
                                    print_run(log, y, credential_text(credential)).next(
                                        |z: nat|
                                            if changed {
                                                print_run(log, z, notice_text())
                                            } else {
                                                Run::Done((), z)
                                            },
                                    ),
                            ),
                    ),
            ),
    )
}

proof fn lemma_show_looks(c: Config, refresh: bool, slot: u32, log: Seq<Reply>, at: nat)
    ensures
        show_run(c, refresh, slot, log, at) matches Run::Ask(request) ==> looks_at(request, slot)
            && (c.skip_usage_refresh || !refresh ==> request !is RecordUsage && request
            !is QueryUsage),
{
    if let Run::Done(profile, n) = resolve_run(c, decimal_text(slot as nat), log, at) {
        lemma_spin_looks(c, refresh, profile, slot, log, n);
        if let Run::Done(changed, m) = spin_run(c, refresh, profile, slot, log, n) {
            lemma_shown_looks(c, profile, slot, changed, log, m);
            assert(show_run(c, refresh, slot, log, at) == shown_run(
                c,
                profile,
                slot,
                changed,
                log,
                m,
            ));
        }
    }
}

/// Showing the status changes no file: at most the selected account's quota is recorded.
pub proof fn law_status_only_records_a_quota(
    c: Config,
    refresh: bool,
    log: Seq<Reply>,
    at: nat,
    n: nat,
    request: RequestView,
)
    requires
        at <= log.len(),
        locked_run(c, log, at) == Run::Done((), n),
        status_run(c, refresh, log, at) == Run::<()>::Ask(request),
    ensures
        forall|path: Seq<char>| !#[trigger] changes(request, path),
        request matches RequestView::RecordUsage { slot, .. } ==> refresh && !c.skip_usage_refresh
            && n + 2 < log.len() && names_selected(log[n as int + 1], slot),
        request matches RequestView::QueryUsage(slot) ==> refresh && !c.skip_usage_refresh && n + 2
            < log.len() && names_selected(log[n as int + 1], slot),
{
    steady_locked(c, log, at, log.len());
    if n < log.len() {
        if let Run::Done(Some(slot), k) = selected_run(c, log, n + 1) {
            lemma_show_looks(c, refresh, slot, log, k);
        }
    }
}

/// Listing the accounts changes no file and selects none: it lists every account, with the one that
/// the record names as the selected one, and reads anew those whose quota is not fresh.
pub proof fn law_listing_changes_nothing(
    c: Config,
    force: bool,
    log: Seq<Reply>,
    at: nat,
    n: nat,
)
    requires
        at <= log.len(),
        locked_run(c, log, at) == Run::Done((), n),
    ensures
        plan_list_run(c, force, log, at) matches Run::Ask(request) ==> forall|path: Seq<char>|
            !#[trigger] changes(request, path),
        plan_list_run(c, force, log, at) matches Run::Done(plan, _) ==> n < log.len() && (
        log[n as int] matches Reply::Profiles(accounts) && plan.accounts == accounts@ && (
        plan.guidance is Some <==> accounts@.len() == 0) && (accounts@.len() > 0 ==> plan.stale.len()
            == accounts@.len()) && (plan.selected matches Some(slot) ==> n + 1 < log.len()
            && names_selected(log[n as int + 1], slot))),
        plan_list_run(c, force, log, at) matches Run::Done(plan, _) ==> (!c.skip_usage_refresh
            && force ==> forall|i: int| 0 <= i < plan.stale.len() ==> #[trigger] plan.stale[i]),
{
    steady_locked(c, log, at, log.len());
    if n < log.len() {
        if let Reply::Profiles(accounts) = log[n as int] {
            let k = selected_run(c, log, n + 1)->Done_1;
            lemma_stale(c, slots_of(accounts@), force, log, k);
        }
    }
}

proof fn lemma_stale(c: Config, slots: Seq<u32>, force: bool, log: Seq<Reply>, at: nat)
    ensures
        stale_run(c, slots, force, log, at) matches Run::Ask(request) ==> request is UsageFresh,
        stale_run(c, slots, force, log, at) matches Run::Done(stale, _) ==> stale.len()
            == slots.len() && (!c.skip_usage_refresh && force ==> forall|i: int|
            0 <= i < stale.len() ==> #[trigger] stale[i]),
    decreases slots.len(),
{
    if slots.len() > 0 {
        lemma_stale(c, slots.drop_last(), force, log, at);
    }
}

/// Which accounts a list reads anew, where that is not forced: exactly those of which it is said
/// that their quota is not fresh.
pub proof fn law_stale_quotas_are_read_anew(
    c: Config,
    slots: Seq<u32>,
    fresh: Seq<bool>,
    log: Seq<Reply>,
    at: nat,
)
    requires
        !c.skip_usage_refresh,
        fresh.len() == slots.len(),
        at + slots.len() <= log.len(),
        forall|i: int|
            0 <= i < slots.len() ==> #[trigger] log[at + i] == Reply::Flag(fresh[i]),
    ensures
        stale_run(c, slots, false, log, at) == Run::Done(
            Seq::new(slots.len(), |i: int| !fresh[i]),
            at + slots.len(),
        ),
        slots.len() > 0 ==> stale_run(c, slots, false, log.take(at as int), at) == Run::<
            Seq<bool>,
        >::Ask(RequestView::UsageFresh(slots[0])),
    decreases slots.len(),
{
    if slots.len() == 0 {
        assert(Seq::new(slots.len(), |i: int| !fresh[i]) =~= Seq::empty());
    } else {
        let before = slots.drop_last();
        let flags = fresh.drop_last();
        assert forall|i: int| 0 <= i < before.len() implies #[trigger] log[at + i] == Reply::Flag(
            flags[i],
        ) by {}
        law_stale_quotas_are_read_anew(c, before, flags, log, at);
        assert(log[at as int + before.len() as int] == Reply::Flag(fresh.last()));
        assert(Seq::new(slots.len(), |i: int| !fresh[i]) =~= Seq::new(
            before.len(),
            |i: int| !flags[i],
        ).push(!fresh.last()));
    }
}

// ---------------------------------------------------------------- recorded quotas

/// A reading that succeeded replaces whatever was recorded, in every field.
pub proof fn law_a_successful_reading_is_recorded(previous: Option<UsageView>, next: UsageView)
    requires
        next.error is None,
    ensures
        recorded(previous, next) == next,
{
}

/// A reading that failed is recorded where no success was: it never replaces one, of which all but
/// the time of the last attempt stays, and that is the later of the times that the failed reading
/// has.
pub proof fn law_a_failed_reading_keeps_a_success(previous: Option<UsageView>, next: UsageView)
    requires
        next.error is Some,
    ensures
        (previous matches Some(old) && old.error is None) ==> {
            let kept = recorded(previous, next);
            &&& kept == (UsageView {
                last_attempted_at: kept.last_attempted_at,
                ..previous->0
            })
            &&& kept.last_attempted_at >= next.last_attempted_at
            &&& kept.last_attempted_at >= next.observed_at
            &&& kept.last_attempted_at == next.last_attempted_at || kept.last_attempted_at
                == next.observed_at
        },
        (previous matches Some(old) ==> old.error is Some) ==> recorded(previous, next) == next,
{
}

/// Whatever came of reading a quota anew is recorded for the account that was read, and for no
/// other: a success as it is.
pub proof fn law_a_reading_is_recorded_for_its_account(
    c: Config,
    slot: u32,
    force: bool,
    usage: UsageRecord,
    changed: bool,
    log: Seq<Reply>,
    at: nat,
)
    requires
        !c.skip_usage_refresh,
        force,
        log.len() == at + 2,
        log[at as int] is Usage || log[at as int] is Missing,
        log[at as int + 1] == (Reply::Reading { usage, changed }),
        usage.error is None,
    ensures
        refresh_run(c, slot, force, log.take(at as int), at) == Run::<bool>::Ask(
            RequestView::Usage(slot),
        ),
        refresh_run(c, slot, force, log.take(at as int + 1), at) == Run::<bool>::Ask(
            RequestView::QueryUsage(slot),
        ),
        refresh_run(c, slot, force, log, at) == Run::<bool>::Ask(
            RequestView::RecordUsage { slot, usage: usage@ },
        ),
        refresh_run(c, slot, force, log.push(Reply::Done), at) == Run::Done(changed, at + 3),
{
}

// ---------------------------------------------------------------- the command line

/// Whether an option asks for an API key or an access token.
pub open spec fn asks_for_a_key(option: Option<String>) -> bool {
    option matches Some(text) && {
        ||| text@ == "--with-api-key"@
        ||| text@ == "--with-access-token"@
        ||| ("--with-api-key"@ + seq!['=']).is_prefix_of(text@)
        ||| ("--with-access-token"@ + seq!['=']).is_prefix_of(text@)
    }
}

proof fn lemma_first_at(s: Seq<char>, c: char)
    ensures
        0 <= first_at(s, c) <= s.len(),
        first_at(s, c) < s.len() ==> s[first_at(s, c)] == c,
        forall|i: int| 0 <= i < first_at(s, c) ==> s[i] != c,
    decreases s.len(),
{
    if s.len() > 0 && s[0] != c {
        lemma_first_at(s.skip(1), c);
        let k = first_at(s.skip(1), c);
        assert forall|i: int| 0 <= i < first_at(s, c) implies s[i] != c by {
            if i > 0 {
                assert(s.skip(1)[i - 1] == s[i]);
            }
        }
    }
}

proof fn lemma_option_name(option: Seq<char>, name: Seq<char>)
    requires
        forall|i: int| 0 <= i < name.len() ==> name[i] != '=',
    ensures
        option_name(option) == name <==> option == name || (name + seq!['=']).is_prefix_of(option),
{
    lemma_first_at(option, '=');
    let k = first_at(option, '=');
    if option_name(option) == name {
        assert(k == name.len());
        if k < option.len() {
            assert((name + seq!['=']) =~= option.subrange(0, k + 1));
        } else {
            assert(option.take(k) =~= option);
        }
    }
    if option == name {
        assert(k == option.len());
        assert(option.take(k) =~= name);
    } else if (name + seq!['=']).is_prefix_of(option) {
        let head = name + seq!['='];
        assert(forall|i: int| 0 <= i < head.len() ==> option[i] == head[i]) by {
            assert(option.subrange(0, head.len() as int) =~= head);
            assert forall|i: int| 0 <= i < head.len() implies option[i] == head[i] by {
                assert(option.subrange(0, head.len() as int)[i] == option[i]);
            }
        }
        assert(option[name.len() as int] == '=');
        assert(k == name.len());
        assert(option.take(k) =~= name);
    }
}

/// Options that ask for an API key or an access token are refused wherever they stand, with a value
/// behind an equals sign or without; all others are let through.
pub proof fn law_only_logins_of_chatgpt(options: Seq<Option<String>>)
    ensures
        first_foreign(options) is Some <==> exists|i: int|
            0 <= i < options.len() && asks_for_a_key(#[trigger] options[i]),
    decreases options.len(),
{
    if options.len() > 0 {
        let rest = options.skip(1);
        law_only_logins_of_chatgpt(rest);
        assert(forall|i: int| 0 <= i < rest.len() ==> rest[i] == #[trigger] options[i + 1]);
        if let Some(text) = options[0] {
            reveal_strlit("--with-api-key");
            reveal_strlit("--with-access-token");
            lemma_option_name(text@, "--with-api-key"@);
            lemma_option_name(text@, "--with-access-token"@);
        }
        assert(foreign_option(options[0]) <==> asks_for_a_key(options[0]));
        if exists|i: int| 0 <= i < options.len() && asks_for_a_key(#[trigger] options[i]) {
            let i = choose|i: int| 0 <= i < options.len() && asks_for_a_key(#[trigger] options[i]);
            if i > 0 {
                assert(asks_for_a_key(rest[i - 1]));
            }
        }
        if exists|i: int| 0 <= i < rest.len() && asks_for_a_key(#[trigger] rest[i]) {
            let i = choose|i: int| 0 <= i < rest.len() && asks_for_a_key(#[trigger] rest[i]);
            assert(asks_for_a_key(options[i + 1]));
        }
    }
}

/// An account that stands alone on the command line is switched to, as with `use`, and without a
/// command the status is shown.
pub proof fn law_commands_have_short_forms(
    c: Config,
    account: String,
    log: Seq<Reply>,
    at: nat,
)
    ensures
        command_run(Cli { command: None, account: Some(account) }, c, log, at) == command_run(
            Cli { command: Some(CliCommand::Use { account }), account: None },
            c,
            log,
            at,
        ),
        command_run(Cli { command: None, account: None }, c, log, at) == command_run(
            Cli { command: Some(CliCommand::Status), account: None },
            c,
            log,
            at,
        ),
        switch_run(c, account@, log, at) is Done <==> command_run(
            Cli { command: None, account: Some(account) },
            c,
            log,
            at,
        ) is Done,
{
}

}
