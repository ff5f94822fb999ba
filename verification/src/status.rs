//! What is said of the selected account and the state of the credentials.
use crate::account_store::{
    is_file, is_file_run, is_there, selected_run, slot_for_run, there_run, writers, writers_run,
    Store,
};
use crate::auth::{AuthDocument, AuthView, Identity, IdentityView};
use crate::config::Config;
use crate::effects::{
    ask, auth, auth_if_valid, auth_if_valid_run, auth_run, entry, entry_run, flag, flag_run,
    reply_run, told, told_lines, told_opt_text, told_text, EntryKind, Halt, Reply, Request,
    RequestView, Run,
};
use crate::error::{Error, ErrorView};
use crate::text::{decimal, decimal_text, texts};
use crate::usage::{Shown, UsageRecord};
use vstd::prelude::*;

verus! {

/// What is said where no quota is recorded.
pub open spec fn unknown_quota() -> Seq<char> {
    "usage unknown"@
}

/// A recorded quota in one line, as it is at the time of the reply.
pub open spec fn quota_line_run(
    usage: UsageRecord,
    shown: Seq<Shown>,
    log: Seq<Reply>,
    at: nat,
) -> Run<Seq<char>> {
    reply_run(log, at, RequestView::Now).bind(
        |reply: Reply, n: nat|
            Run::Done(
                match reply {
                    Reply::Time(now) => usage.line(shown, now),
                    _ => unknown_quota(),
                },
                n,
            ),
    )
}

/// The account's quota in one line: what is recorded of it, or that nothing is.
pub open spec fn quota_run(slot: u32, log: Seq<Reply>, at: nat) -> Run<Seq<char>> {
    reply_run(log, at, RequestView::Usage(slot)).bind(
        |reply: Reply, n: nat|
            match reply {
                Reply::Usage(usage) => reply_run(log, n, RequestView::Numbers(usage@)).bind(
                    |numbers: Reply, m: nat|
                        match numbers {
                            Reply::Numbers(shown) => if shown@.len() == usage.shown_count() {
                                quota_line_run(usage, shown@, log, m)
                            } else {
                                Run::Done(unknown_quota(), m)
                            },
                            _ => Run::Done(unknown_quota(), m),
                        },
                ),
                _ => Run::Done(unknown_quota(), n),
            },
    )
}

/// Whether Codex reads credentials of its own, and they belong to this account.
pub open spec fn detached_matches_run(
    c: Config,
    identity: IdentityView,
    log: Seq<Reply>,
    at: nat,
) -> Run<bool> {
    entry_run(log, at, c.session_auth@).rescue(
        |_error: ErrorView, n: nat| Run::Done(EntryKind::Missing, n),
    ).bind(
        |kind: EntryKind, n: nat|
            if kind != EntryKind::Other {
                Run::Done(false, n)
            } else {
                auth_if_valid_run(log, n, c.session_auth@).bind(
                    |session: Option<AuthDocument>, m: nat|
                        Run::Done(
                            session is Some && session->0@.identity.same_account(identity),
                            m,
                        ),
                )
            },
    )
}

/// Whether Codex is running on credentials of its own that belong to this account.
pub open spec fn live_match_run(c: Config, identity: IdentityView, log: Seq<Reply>, at: nat) -> Run<
    bool,
> {
    detached_matches_run(c, identity, log, at).bind(
        |matches: bool, n: nat|
            if matches {
                writers_run(log, n)
            } else {
                Run::Done(false, n)
            },
    )
}

/// Whether Codex reads the active credentials, and they are there.
pub open spec fn linked_run(c: Config, log: Seq<Reply>, at: nat) -> Run<bool> {
    flag_run(log, at, RequestView::SessionLinked).bind(
        |linked: bool, n: nat|
            if linked {
                is_file_run(log, n, c.active_auth@)
            } else {
                Run::Done(false, n)
            },
    )
}

/// The selected account, which has to be there.
pub open spec fn chosen_run(c: Config, log: Seq<Reply>, at: nat) -> Run<u32> {
    selected_run(c, log, at).bind(
        |selected: Option<u32>, n: nat|
            match selected {
                Some(slot) => Run::Done(slot, n),
                None => Run::Fail(
                    ErrorView::Message("No default Codex account is selected."@),
                    n,
                ),
            },
    )
}

/// What is said where the active credentials belong to another enrolled account.
pub open spec fn foreign_line_run(profile: AuthView, c: Config, log: Seq<Reply>, at: nat) -> Run<
    Seq<Seq<char>>,
> {
    auth_if_valid_run(log, at, c.active_auth@).bind(
        |active: Option<AuthDocument>, n: nat|
            match active {
                Some(active) => if active@.identity.same_account(profile.identity) {
                    Run::Done(Seq::empty(), n)
                } else {
                    slot_for_run(active@.identity, log, n).bind(
                        |known: Option<u32>, m: nat|
                            Run::Done(
                                match known {
                                    Some(slot) => seq![
                                        "Active credentials: account "@ + decimal_text(slot as nat)
                                            + " ("@ + active@.identity.label()
                                            + "; does not match the selected account)"@,
                                    ],
                                    None => Seq::empty(),
                                },
                                m,
                            ),
                    )
                },
                None => Run::Done(Seq::empty(), n),
            },
    )
}

/// What is said of the credentials that Codex reads.
pub open spec fn session_line_run(c: Config, profile: AuthView, log: Seq<Reply>, at: nat) -> Run<
    Seq<char>,
> {
    linked_run(c, log, at).bind(
        |linked: bool, n: nat|
            if linked {
                Run::Done("Session credentials: linked to "@ + c.active_auth@, n)
            } else {
                live_match_run(c, profile.identity, log, n).bind(
                    |live: bool, m: nat|
                        if live {
                            Run::Done(
                                "Session credentials: live account matches the selection; relink after Codex stops to enable switching."@,
                                m,
                            )
                        } else {
                            there_run(log, m, c.session_auth@).bind(
                                |there: bool, k: nat|
                                    Run::Done(
                                        if there {
                                            "Session credentials: DETACHED ("@ + c.session_auth@
                                                + " is a real file). Run cxa relink."@
                                        } else {
                                            "Session credentials: MISSING ("@ + c.session_auth@
                                                + "). Run cxa relink."@
                                        },
                                        k,
                                    ),
                            )
                        },
                )
            },
    )
}

/// Everything that is said of the selected account.
pub open spec fn status_lines_run(c: Config, log: Seq<Reply>, at: nat) -> Run<Seq<Seq<char>>> {
    chosen_run(c, log, at).bind(
        |slot: u32, n: nat|
            auth_run(log, n, c.profile_auth_path(slot)).bind(
                |profile: AuthDocument, m: nat|
                    quota_run(slot, log, m).bind(
                        |quota: Seq<char>, k: nat|
                            foreign_line_run(profile@, c, log, k).bind(
                                |foreign: Seq<Seq<char>>, j: nat|
                                    session_line_run(c, profile@, log, j).bind(
                                        |session: Seq<char>, i: nat|
                                            Run::Done(
                                                seq![
                                                    "Default Codex account: "@ + decimal_text(
                                                        slot as nat,
                                                    ) + "  "@ + profile@.identity.label(),
                                                    "Quota: "@ + quota,
                                                ] + foreign + seq![
                                                    "Shared session home: "@ + c.codex_home@,
                                                    session,
                                                ],
                                                i,
                                            ),
                                    ),
                            ),
                    ),
            ),
    )
}

/// What is wrong with the credentials of the selected account.
pub open spec fn status_issue_run(c: Config, log: Seq<Reply>, at: nat) -> Run<Option<Seq<char>>> {
    chosen_run(c, log, at).bind(
        |slot: u32, n: nat|
            auth_run(log, n, c.profile_auth_path(slot)).bind(
                |profile: AuthDocument, m: nat|
                    live_match_run(c, profile@.identity, log, m).bind(
                        |live: bool, k: nat|
                            if live {
                                Run::Done(None, k)
                            } else {
                                linked_run(c, log, k).bind(
                                    |linked: bool, j: nat|
                                        if !linked {
                                            Run::Done(
                                                Some(
                                                    "Shared session credentials are not linked; run cxa relink."@,
                                                ),
                                                j,
                                            )
                                        } else {
                                            auth_run(log, j, c.active_auth@).bind(
                                                |active: AuthDocument, i: nat|
                                                    Run::Done(
                                                        if active@.identity.same_account(
                                                            profile@.identity,
                                                        ) {
                                                            None
                                                        } else {
                                                            Some(
                                                                "Active credentials do not match the selected account."@,
                                                            )
                                                        },
                                                        i,
                                                    ),
                                            )
                                        },
                                )
                            },
                    ),
            ),
    )
}

impl Store {
    fn quota(&self, slot: u32, log: &Vec<Reply>, at: &mut usize) -> (r: Result<String, Halt>)
        requires
            *old(at) <= log.len(),
        ensures
            *final(at) <= log.len(),
            told_text(r, *final(at), quota_run(slot, log@, *old(at) as nat)),
    {
        let usage = match ask(log, at, Request::Usage(slot))? {
            Reply::Usage(usage) => usage,
            _ => {
                return Ok("usage unknown".to_owned());
            },
        };
        let shown = match ask(log, at, Request::Numbers(usage.copy()))? {
            Reply::Numbers(shown) => shown,
            _ => {
                return Ok("usage unknown".to_owned());
            },
        };
        if shown.len() != usage.windows().len() {
            return Ok("usage unknown".to_owned());
        }
        match ask(log, at, Request::Now)? {
            Reply::Time(now) => Ok(usage.label(*now, shown)),
            _ => Ok("usage unknown".to_owned()),
        }
    }

    fn detached_session_matches(&self, identity: &Identity, log: &Vec<Reply>, at: &mut usize) -> (r:
        Result<bool, Halt>)
        requires
            *old(at) <= log.len(),
        ensures
            *final(at) <= log.len(),
            told(
                r,
                *final(at),
                detached_matches_run(self.config, identity@, log@, *old(at) as nat),
            ),
    {
        let kind = match entry(log, at, &self.config.session_auth) {
            Ok(kind) => kind,
            Err(Halt::Fail(_)) => EntryKind::Missing,
            Err(Halt::Ask(request)) => {
                return Err(Halt::Ask(request));
            },
        };
        if kind != EntryKind::Other {
            return Ok(false);
        }
        match auth_if_valid(log, at, &self.config.session_auth)? {
            Some(session) => Ok(session.identity.same_account(identity)),
            None => Ok(false),
        }
    }

    fn live_match(&self, identity: &Identity, log: &Vec<Reply>, at: &mut usize) -> (r: Result<
        bool,
        Halt,
    >)
        requires
            *old(at) <= log.len(),
        ensures
            *final(at) <= log.len(),
            told(r, *final(at), live_match_run(self.config, identity@, log@, *old(at) as nat)),
    {
        if self.detached_session_matches(identity, log, at)? {
            writers(log, at)
        } else {
            Ok(false)
        }
    }

    fn linked(&self, log: &Vec<Reply>, at: &mut usize) -> (r: Result<bool, Halt>)
        requires
            *old(at) <= log.len(),
        ensures
            *final(at) <= log.len(),
            told(r, *final(at), linked_run(self.config, log@, *old(at) as nat)),
    {
        if flag(log, at, Request::SessionLinked)? {
            is_file(log, at, &self.config.active_auth)
        } else {
            Ok(false)
        }
    }

    fn chosen(&self, log: &Vec<Reply>, at: &mut usize) -> (r: Result<u32, Halt>)
        requires
            *old(at) <= log.len(),
        ensures
            *final(at) <= log.len(),
            told(r, *final(at), chosen_run(self.config, log@, *old(at) as nat)),
    {
        match self.selected(log, at)? {
            Some(slot) => Ok(slot),
            None => Err(Halt::Fail(Error::message("No default Codex account is selected."))),
        }
    }

    fn foreign_line(&self, profile: &AuthDocument, log: &Vec<Reply>, at: &mut usize) -> (r: Result<
        Vec<String>,
        Halt,
    >)
        requires
            *old(at) <= log.len(),
        ensures
            *final(at) <= log.len(),
            told_lines(
                r,
                *final(at),
                foreign_line_run(profile@, self.config, log@, *old(at) as nat),
            ),
    {
        let mut lines: Vec<String> = Vec::new();
        proof {
            assert(texts(lines@) =~= Seq::<Seq<char>>::empty());
        }
        let active = match auth_if_valid(log, at, &self.config.active_auth)? {
            Some(active) => active,
            None => {
                return Ok(lines);
            },
        };
        if active.identity.same_account(&profile.identity) {
            return Ok(lines);
        }
        if let Some(slot) = self.slot_for(&active.identity, log, at)? {
            let line = "Active credentials: account ".to_owned().concat(
                &decimal(slot as u64),
            ).concat(" (").concat(active.identity.label()).concat(
                "; does not match the selected account)",
            );
            lines.push(line);
            proof {
                assert(texts(lines@) =~= seq![line@]);
            }
        }
        Ok(lines)
    }

    fn session_line(&self, profile: &AuthDocument, log: &Vec<Reply>, at: &mut usize) -> (r: Result<
        String,
        Halt,
    >)
        requires
            *old(at) <= log.len(),
        ensures
            *final(at) <= log.len(),
            told_text(
                r,
                *final(at),
                session_line_run(self.config, profile@, log@, *old(at) as nat),
            ),
    {
        if self.linked(log, at)? {
            return Ok(
                "Session credentials: linked to ".to_owned().concat(&self.config.active_auth),
            );
        }
        if self.live_match(&profile.identity, log, at)? {
            return Ok(
                "Session credentials: live account matches the selection; relink after Codex stops to enable switching.".to_owned(),
            );
        }
        if is_there(log, at, &self.config.session_auth)? {
            Ok(
                "Session credentials: DETACHED (".to_owned().concat(
                    &self.config.session_auth,
                ).concat(" is a real file). Run cxa relink."),
            )
        } else {
            Ok(
                "Session credentials: MISSING (".to_owned().concat(
                    &self.config.session_auth,
                ).concat("). Run cxa relink."),
            )
        }
    }

    /// Everything that is said of the selected account.
    pub fn status_lines(&self, log: &Vec<Reply>, at: &mut usize) -> (r: Result<Vec<String>, Halt>)
        requires
            *old(at) <= log.len(),
        ensures
            *final(at) <= log.len(),
            told_lines(r, *final(at), status_lines_run(self.config, log@, *old(at) as nat)),
    {
        let slot: u32 = self.chosen(log, at)?;
        let profile = auth(log, at, &self.config.profile_auth(slot))?;
        let quota = self.quota(slot, log, at)?;
        let foreign = self.foreign_line(profile, log, at)?;
        let session = self.session_line(profile, log, at)?;
        let mut lines: Vec<String> = Vec::new();
        lines.push(
            "Default Codex account: ".to_owned().concat(&decimal(slot as u64)).concat("  ").concat(
                profile.identity.label(),
            ),
        );
        lines.push("Quota: ".to_owned().concat(&quota));
        let ghost head = texts(lines@);
        let mut i: usize = 0;
        proof {
            assert(head + texts(foreign@).take(0) =~= head);
        }
        while i < foreign.len()
            invariant
                i <= foreign.len(),
                texts(lines@) == head + texts(foreign@).take(i as int),
            decreases foreign.len() - i,
        {
            let ghost before = lines@;
            lines.push(foreign[i].clone());
            i += 1;
            proof {
                assert(texts(lines@) =~= texts(before).push(foreign@[i - 1]@));
                assert(texts(foreign@).take(i as int) =~= texts(foreign@).take(i - 1).push(
                    foreign@[i - 1]@,
                ));
                assert(texts(lines@) =~= head + texts(foreign@).take(i as int));
            }
        }
        let ghost middle = texts(lines@);
        lines.push("Shared session home: ".to_owned().concat(&self.config.codex_home));
        lines.push(session);
        proof {
            assert(texts(foreign@).take(i as int) =~= texts(foreign@));
            let home = "Shared session home: "@ + self.config.codex_home@;
            assert(texts(lines@) =~= head + texts(foreign@) + seq![home, session@]);
            assert(head =~= seq![
                "Default Codex account: "@ + decimal_text(slot as nat) + "  "@
                    + profile@.identity.label(),
                "Quota: "@ + quota@,
            ]);
        }
        Ok(lines)
    }

    /// What is wrong with the credentials of the selected account.
    pub fn status_issue(&self, log: &Vec<Reply>, at: &mut usize) -> (r: Result<
        Option<String>,
        Halt,
    >)
        requires
            *old(at) <= log.len(),
        ensures
            *final(at) <= log.len(),
            told_opt_text(r, *final(at), status_issue_run(self.config, log@, *old(at) as nat)),
    {
        let slot: u32 = self.chosen(log, at)?;
        let profile = auth(log, at, &self.config.profile_auth(slot))?;
        if self.live_match(&profile.identity, log, at)? {
            return Ok(None);
        }
        if !self.linked(log, at)? {
            return Ok(
                Some("Shared session credentials are not linked; run cxa relink.".to_owned()),
            );
        }
        let active = auth(log, at, &self.config.active_auth)?;
        if active.identity.same_account(&profile.identity) {
            Ok(None)
        } else {
            Ok(Some("Active credentials do not match the selected account.".to_owned()))
        }
    }
}

}
