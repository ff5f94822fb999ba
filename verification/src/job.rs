//! A commit as the laws about interrupted ones see it: how far it can have come, and what the disk
//! looks like then.
use crate::account_store::{selection_line, TransactionMode, TransactionView};
use crate::auth::AuthView;
use crate::config::{configured, Config, Environment, Places};
use crate::json::{alike, JsonView};
use crate::paths::{parts_of, PathView};
use crate::recovery::{
    inside, law_transactions_keep_files_apart, lemma_name_start, lemma_starts, name_start,
    well_apart, DiskView,
};
use crate::text::decimal_text;
use vstd::prelude::*;

verus! {

/// Whether an account's saved credentials are these, and no other account has their identity.
pub open spec fn holds_alone(c: Config, auth: AuthView, slot: u32, d: DiskView) -> bool {
    &&& d.has(c.profile_auth_path(slot))
    &&& d.auths[c.profile_auth_path(slot)] == auth
    &&& forall|other: u32|
        d.has(#[trigger] c.profile_auth_path(other))
            && d.auths[c.profile_auth_path(other)].identity.same_account(auth.identity) ==> other
            == slot
}

/// A commit that was recorded: its record, the credentials that it brings to an account, those that
/// are active in the end with the account that they belong to, those that a session of its own has
/// with theirs, the disk that it began with, and whether its staging files stay.
pub struct Job {
    pub config: Config,
    pub record: TransactionView,
    pub slot: u32,
    pub target: AuthView,
    pub owner: u32,
    pub shown: AuthView,
    pub guest: u32,
    pub session: AuthView,
    pub first: DiskView,
    pub leaves: bool,
}

impl Job {
    pub open spec fn saved_path(self) -> Seq<char> {
        self.config.profile_auth_path(self.slot)
    }

    pub open spec fn owned_path(self) -> Seq<char> {
        self.config.profile_auth_path(self.owner)
    }

    pub open spec fn staged_path(self) -> Seq<char> {
        self.config.profile_pending_path(self.slot)
    }

    pub open spec fn backup_path(self) -> Seq<char> {
        self.config.profile_backup_path(self.slot)
    }

    /// Whether a path is one of the files of a session.
    pub open spec fn of_session(self, path: Seq<char>) -> bool {
        ||| path == self.config.session_auth@
        ||| path == self.config.session_hold_path()
        ||| path == self.config.session_link_pending_path()
    }

    /// Whether a path is one of the store's files beside the saved credentials that the commit
    /// handles.
    pub open spec fn handles(self, path: Seq<char>) -> bool {
        ||| path == self.config.active_auth@ && (self.record.activate || self.record.hold_active)
        ||| self.record.hold_active && (path == self.config.active_hold_path() || path
            == self.config.active_pending_path() || path == self.config.active_reappeared_path())
        ||| self.record.profile_pending is Some && (path == self.staged_path() || path
            == self.backup_path())
    }

    /// Whether a path is one of the files beside the saved credentials that the commit handles.
    pub open spec fn own(self, path: Seq<char>) -> bool {
        self.handles(path) || (self.record.link_session && self.of_session(path))
    }

    /// The temporary directory that the credentials came from.
    pub open spec fn source_directory(self) -> Option<PathView> {
        match self.record.recovery_source {
            Some(source) => parts_of(source).parent(),
            None => None,
        }
    }

    /// Whether the files that the commit handles are all different ones.
    pub open spec fn files_apart(self) -> bool {
        let c = self.config;
        &&& well_apart(c)
        &&& forall|slot: u32| !self.handles(#[trigger] c.profile_auth_path(slot))
        &&& self.staged_path() != self.backup_path()
        &&& !(self.staged_path() == c.active_auth@ || self.staged_path() == c.active_hold_path()
            || self.staged_path() == c.active_pending_path() || self.staged_path()
            == c.active_reappeared_path() || self.staged_path() == c.transaction_path())
        &&& !(self.backup_path() == c.active_auth@ || self.backup_path() == c.active_hold_path()
            || self.backup_path() == c.active_pending_path() || self.backup_path()
            == c.active_reappeared_path() || self.backup_path() == c.transaction_path())
    }

    /// Whether the commit gives the held credentials back.
    pub open spec fn quiet(self) -> bool {
        self.record.hold_active && !self.record.activate
    }

    /// Whether this is a commit to an account. It makes the account's credentials the active ones,
    /// leaves the active ones out of it, or gives those of another account back, and what is to be
    /// linked and cleared away lies apart.
    pub open spec fn valid(self) -> bool {
        let c = self.config;
        &&& self.record.mode == TransactionMode::Commit
        &&& self.record.slot == Some(self.slot)
        &&& self.record.activate ==> self.owner == self.slot && self.shown == self.target
        &&& self.quiet() ==> self.owner != self.slot && !self.record.select
            && !self.shown.identity.same_account(self.target.identity)
        &&& self.record.profile_pending matches Some(path) ==> path == self.staged_path()
        &&& self.files_apart()
        &&& self.record.link_session ==> {
            &&& forall|slot: u32| !self.of_session(#[trigger] c.profile_auth_path(slot))
            &&& !(self.of_session(c.active_auth@) || self.of_session(c.active_hold_path())
                || self.of_session(c.active_pending_path()) || self.of_session(
                c.active_reappeared_path(),
            ) || self.of_session(c.transaction_path()) || self.of_session(self.staged_path())
                || self.of_session(self.backup_path()))
            &&& if self.guest == self.slot {
                self.record.profile_pending is None && self.session == self.target
            } else {
                !self.session.identity.same_account(self.target.identity)
            }
        }
        &&& self.source_directory() matches Some(directory) ==> !inside(
            directory.text(),
            self.saved_path(),
        ) && !inside(directory.text(), c.active_auth@) && !inside(
            directory.text(),
            self.owned_path(),
        ) && !inside(directory.text(), c.profile_auth_path(self.guest))
    }

    /// Whether the staged credentials are there.
    pub open spec fn staged(self, d: DiskView) -> bool {
        self.record.profile_pending is Some && d.has(self.staged_path())
    }

    /// Whether the account has its new credentials.
    pub open spec fn promoted(self, d: DiskView) -> bool {
        d.has(self.saved_path()) && d.auths[self.saved_path()] == self.target
    }

    /// Whether no other account has the identity of the new credentials.
    pub open spec fn alone(self, d: DiskView) -> bool {
        forall|other: u32|
            d.has(#[trigger] self.config.profile_auth_path(other))
                && d.auths[self.config.profile_auth_path(other)].identity.same_account(
                self.target.identity,
            ) ==> other == self.slot
    }

    /// Whether the credentials that are active in the end are saved.
    pub open spec fn owned(self, d: DiskView) -> bool {
        d.has(self.owned_path()) && d.auths[self.owned_path()] == self.shown
    }

    /// Whether no other account has the identity of the credentials that are active in the end.
    pub open spec fn sole(self, d: DiskView) -> bool {
        forall|other: u32|
            d.has(#[trigger] self.config.profile_auth_path(other))
                && d.auths[self.config.profile_auth_path(other)].identity.same_account(
                self.shown.identity,
            ) ==> other == self.owner
    }

    /// Whether credentials that are to be given back are on hold or in their place, and their
    /// account is the selected one.
    pub open spec fn waiting(self, d: DiskView) -> bool {
        let c = self.config;
        &&& self.owned(d)
        &&& self.sole(d)
        &&& d.choice == Some(selection_line(self.owner))
        &&& d.has(c.active_hold_path()) ==> d.auths[c.active_hold_path()] == self.shown
        &&& !d.has(c.active_pending_path())
        &&& d.has(c.active_hold_path()) || d.has(c.active_auth@)
        &&& d.has(c.active_reappeared_path()) ==> d.has(c.active_hold_path())
    }

    /// Whether the credentials of a session are saved, for no account but theirs.
    pub open spec fn known(self, d: DiskView) -> bool {
        holds_alone(self.config, self.session, self.guest, d)
    }

    /// Whether a session that is to be linked can be: it has saved credentials of its own, in their
    /// place or on hold, it has none, or it is linked already.
    pub open spec fn linkable(self, d: DiskView) -> bool {
        let c = self.config;
        self.record.link_session ==> {
            &&& d.has(c.session_hold_path()) ==> d.auths[c.session_hold_path()] == self.session
                && self.known(d) && !d.has(c.session_auth@)
            &&& d.has(c.session_auth@) ==> d.auths[c.session_auth@] == self.session && self.known(d)
                && !d.linked
        }
    }

    /// Whether a session that is to be linked is linked.
    pub open spec fn linked(self, d: DiskView) -> bool {
        self.record.link_session ==> d.linked && !d.has(self.config.session_hold_path())
    }

    /// Whether all credentials but those that the commit handles, and those in the directory that
    /// they came from, are as they were.
    pub open spec fn kept(self, d: DiskView) -> bool {
        forall|path: Seq<char>|
            !self.own(path) && path != self.saved_path() && !(self.source_directory() matches Some(
                directory,
            ) && inside(directory.text(), path)) ==> {
                &&& d.has(path) == #[trigger] self.first.has(path)
                &&& self.first.has(path) ==> d.auths[path] == self.first.auths[path]
            }
    }

    /// Whether the commit is under way. The new credentials are staged or the account has them
    /// already. Where the active ones were held, only those that are active in the end may be in
    /// their place, or have been moved aside again.
    pub open spec fn under_way(self, d: DiskView) -> bool {
        let c = self.config;
        &&& d.record == Some(self.record)
        &&& self.staged(d) ==> d.auths[self.staged_path()] == self.target
        &&& !self.staged(d) ==> self.promoted(d)
        &&& self.alone(d)
        &&& self.linkable(d)
        &&& self.record.hold_active ==> {
            &&& d.has(c.active_auth@) ==> d.auths[c.active_auth@] == self.shown
            &&& d.has(c.active_reappeared_path()) ==> d.auths[c.active_reappeared_path()]
                == self.shown && !d.has(c.active_auth@)
        }
        &&& self.quiet() ==> self.waiting(d)
    }

    /// Whether the commit is complete: the account has the new credentials, they are active and the
    /// account is selected where that was asked for, held ones are back in their place otherwise,
    /// and nothing of the transaction is left.
    pub open spec fn complete(self, d: DiskView) -> bool {
        let c = self.config;
        &&& d.record is None
        &&& self.promoted(d)
        &&& self.alone(d)
        &&& self.linked(d)
        &&& self.record.activate || self.quiet() ==> d.has(c.active_auth@)
            && d.auths[c.active_auth@] == self.shown
        &&& self.quiet() ==> self.owned(d)
        &&& self.record.select ==> d.choice == Some(selection_line(self.slot))
        &&& self.record.profile_pending is Some && !self.leaves ==> !d.has(self.staged_path())
            && !d.has(self.backup_path())
        &&& self.record.hold_active ==> !d.has(c.active_reappeared_path()) && !d.has(
            c.active_hold_path(),
        ) && !d.has(c.active_pending_path())
    }

    /// Whether the commit is under way or complete, and nothing else changed.
    pub open spec fn fine(self, d: DiskView) -> bool {
        (self.under_way(d) || self.complete(d)) && self.kept(d)
    }

    pub open spec fn begun(self, d: DiskView) -> bool {
        self.under_way(d) && self.kept(d)
    }

    /// Under way, with credentials that reappeared moved aside.
    pub open spec fn aside(self, d: DiskView) -> bool {
        self.begun(d) && d.has(self.config.active_reappeared_path())
    }

    /// Under way, with credentials on hold where they are to be given back.
    pub open spec fn held(self, d: DiskView) -> bool {
        self.begun(d) && (self.quiet() ==> d.has(self.config.active_hold_path()))
    }

    /// Under way, with nothing in place of held credentials, or those restored already.
    pub open spec fn free(self, restored: bool, d: DiskView) -> bool {
        let c = self.config;
        &&& self.begun(d)
        &&& self.record.hold_active ==> {
            &&& !d.has(c.active_reappeared_path())
            &&& d.has(c.active_auth@) == (self.quiet() && restored)
            &&& self.quiet() ==> d.has(c.active_hold_path()) == !restored
        }
    }
}

impl Job {
    /// Under way, where it was found out whether held credentials are back in their place already.
    pub open spec fn told(self, restored: bool, d: DiskView) -> bool {
        self.begun(d) && (if self.quiet() {
            d.has(self.config.active_hold_path()) == !restored
        } else {
            !restored
        })
    }

    /// Under way, with the new credentials in the account.
    pub open spec fn had(self, restored: bool, d: DiskView) -> bool {
        self.free(restored, d) && self.promoted(d)
    }

    /// Under way, with the new credentials in the account and in place where that was asked for.
    pub open spec fn active(self, d: DiskView) -> bool {
        let c = self.config;
        &&& self.begun(d)
        &&& self.promoted(d)
        &&& self.record.activate || self.quiet() ==> d.has(c.active_auth@)
            && d.auths[c.active_auth@] == self.shown
        &&& self.record.hold_active ==> !d.has(c.active_reappeared_path())
    }

    /// Under way, with everything done but the cleanup.
    pub open spec fn chosen(self, d: DiskView) -> bool {
        self.active(d) && self.linked(d) && (self.record.select ==> d.choice == Some(
            selection_line(self.slot),
        ))
    }

    /// Whether the cleanup after the commit goes by this record.
    pub open spec fn cleaned_by(self, t: TransactionView) -> bool {
        &&& t.slot == self.record.slot
        &&& t.hold_active == self.record.hold_active
        &&& t.recovery_source == self.record.recovery_source
        &&& t.profile_pending == if self.leaves {
            None
        } else {
            self.record.profile_pending
        }
    }

    /// Under way, with no staged credentials left, unless they stay.
    pub open spec fn unstaged(self, d: DiskView) -> bool {
        self.chosen(d) && (self.record.profile_pending is Some && !self.leaves ==> !d.has(
            self.staged_path(),
        ) && !d.has(self.backup_path()))
    }

    /// Under way, with nothing left but the record and the source.
    pub open spec fn released(self, d: DiskView) -> bool {
        self.unstaged(d) && (self.record.hold_active ==> !d.has(self.config.active_pending_path())
            && !d.has(self.config.active_hold_path()))
    }
}

impl Job {
    /// Active, with nothing where the link of a session goes.
    pub open spec fn cleared(self, d: DiskView) -> bool {
        self.active(d) && !d.linked && !d.has(self.config.session_auth@)
    }

    /// Active, with the session linked.
    pub open spec fn attached(self, d: DiskView) -> bool {
        self.active(d) && d.linked
    }

    /// Active, with the session linked where that is asked for, and nothing of it on hold.
    pub open spec fn bound(self, d: DiskView) -> bool {
        self.active(d) && self.linked(d)
    }
}

impl Job {
    /// Whether nothing has changed yet, and recording the commit is all that is missing for it to
    /// be under way.
    pub open spec fn ready(self, d: DiskView) -> bool {
        d == self.first && self.under_way(DiskView { record: Some(self.record), ..d })
    }
}

impl Job {
    /// Whether nothing but staging files changed so far, the new credentials are at their source,
    /// and apart from the staged credentials and the record nothing is missing for the commit to be
    /// under way.
    pub open spec fn staging(self, source: Seq<char>, d: DiskView) -> bool {
        let c = self.config;
        &&& d.record == self.first.record
        &&& self.kept(d)
        &&& d.has(source)
        &&& d.auths[source] == self.target
        &&& self.alone(d)
        &&& self.linkable(d)
        &&& self.record.hold_active ==> {
            &&& d.has(c.active_auth@) ==> d.auths[c.active_auth@] == self.shown
            &&& d.has(c.active_reappeared_path()) ==> d.auths[c.active_reappeared_path()]
                == self.shown && !d.has(c.active_auth@)
        }
        &&& self.quiet() ==> self.waiting(d)
    }

    /// Staging, with the new credentials staged.
    pub open spec fn prepared(self, source: Seq<char>, d: DiskView) -> bool {
        self.staging(source, d) && d.has(self.staged_path()) && d.auths[self.staged_path()]
            == self.target
    }

    /// Whether no more than staging files changed, or the commit is under way or complete.
    pub open spec fn staged_or_fine(self, d: DiskView) -> bool {
        (d.record == self.first.record && self.kept(d)) || self.fine(d)
    }

    /// Whether the commit stages credentials from a source that is no staging file itself.
    pub open spec fn stages(self, source: Seq<char>, expected: JsonView) -> bool {
        &&& self.record.profile_pending is Some
        &&& source != self.staged_path()
        &&& source != self.backup_path()
        &&& alike(self.target.raw, expected)
    }
}

/// Every configuration that the environment gives keeps the files of a commit apart.
pub proof fn law_commits_keep_files_apart(job: Job, places: Places, environment: Environment)
    requires
        configured(job.config, places, environment),
    ensures
        job.files_apart(),
{
    let c = job.config;
    let start = name_start(c.account_store@);
    let x = decimal_text(job.slot as nat);
    let pending = ".profile-"@ + x + ".pending"@;
    let backup = ".profile-"@ + x + ".backup"@;
    law_transactions_keep_files_apart(c, places, environment);
    lemma_starts(c, places, environment);
    reveal_strlit(".profile-");
    reveal_strlit(".pending");
    reveal_strlit(".backup");
    assert(pending[0] == '.' && pending.last() == 'g');
    assert(backup[0] == '.' && backup.last() == 'p');
    lemma_name_start(c.account_store@, pending);
    lemma_name_start(c.account_store@, backup);
    assert(job.staged_path().last() == 'g');
    assert(job.backup_path().last() == 'p');
}

}
