//! The account store: which accounts are enrolled, which one is selected, and the transactions
//! that change the credentials in use without ever losing any.
use crate::auth::{AuthDocument, AuthView, Identity, IdentityView};
use crate::config::Config;
use crate::effects::{
    auth, auth_if_valid, auth_if_valid_run, done, done_run, entry, entry_run, flag, flag_run, names,
    names_run, profiles, profiles_run, text, text_run, told, told_ref, EntryKind, Halt, Reply,
    Request, RequestView, Run,
};
use crate::error::{Error, ErrorView};
use crate::text::{
    contains, copy_opt, decimal, decimal_text, has_part, lemma_decimal_read, lowercase, opt_text,
    parse_u32, parsed, same, strip_prefix, texts, to_lowercase, trim, trim_back, trim_front,
    trimmed,
};
use vstd::prelude::*;

verus! {

/// An enrolled account.
pub struct Profile {
    pub slot: u32,
    pub auth: AuthDocument,
}

/// What an unfinished transaction does when it is taken up again.
#[derive(Clone, Copy, PartialEq, Eq, Structural, Debug)]
pub enum TransactionMode {
    /// Puts the active credentials back.
    Rollback,
    /// Saves credentials that may have been refreshed.
    Refreshing,
    /// Goes through with the change.
    Commit,
}

/// The record of an unfinished transaction.
pub struct TransactionState {
    pub mode: TransactionMode,
    pub slot: Option<u32>,
    pub activate: bool,
    pub select: bool,
    pub link_session: bool,
    pub hold_active: bool,
    pub profile_pending: Option<String>,
    pub recovery_source: Option<String>,
}

/// What the record of a transaction says.
pub struct TransactionView {
    pub mode: TransactionMode,
    pub slot: Option<u32>,
    pub activate: bool,
    pub select: bool,
    pub link_session: bool,
    pub hold_active: bool,
    pub profile_pending: Option<Seq<char>>,
    pub recovery_source: Option<Seq<char>>,
}

impl View for TransactionState {
    type V = TransactionView;

    open spec fn view(&self) -> TransactionView {
        TransactionView {
            mode: self.mode,
            slot: self.slot,
            activate: self.activate,
            select: self.select,
            link_session: self.link_session,
            hold_active: self.hold_active,
            profile_pending: opt_text(self.profile_pending),
            recovery_source: opt_text(self.recovery_source),
        }
    }
}

impl Clone for TransactionState {
    fn clone(&self) -> (r: TransactionState)
        ensures
            r == *self,
    {
        TransactionState {
            mode: self.mode,
            slot: self.slot,
            activate: self.activate,
            select: self.select,
            link_session: self.link_session,
            hold_active: self.hold_active,
            profile_pending: copy_opt(&self.profile_pending),
            recovery_source: copy_opt(&self.recovery_source),
        }
    }
}

// ---------------------------------------------------------------- slots

/// The account number that a directory name stands for.
pub open spec fn slot_named(name: Seq<char>) -> Option<u32> {
    if "profile-"@.is_prefix_of(name) {
        match parsed(name.skip("profile-"@.len() as int), u32::MAX as nat) {
            Some(n) => Some(n as u32),
            None => None,
        }
    } else {
        None
    }
}

/// The account number that a directory name stands for.
pub fn profile_slot(name: &str) -> (r: Option<u32>)
    ensures
        r == slot_named(name@),
{
    match strip_prefix(name, "profile-") {
        Some(rest) => parse_u32(&rest),
        None => None,
    }
}

/// The highest account number among directory names; zero where there is none.
pub open spec fn highest(names: Seq<Seq<char>>) -> u32
    decreases names.len(),
{
    if names.len() == 0 {
        0
    } else {
        let before = highest(names.drop_last());
        match slot_named(names.last()) {
            Some(slot) if slot > before => slot,
            _ => before,
        }
    }
}

fn highest_slot(names: &Vec<String>) -> (r: u32)
    ensures
        r == highest(texts(names@)),
{
    let mut best: u32 = 0;
    let mut i: usize = 0;
    while i < names.len()
        invariant
            i <= names.len(),
            best == highest(texts(names@).take(i as int)),
        decreases names.len() - i,
    {
        proof {
            assert(texts(names@).take(i + 1).drop_last() =~= texts(names@).take(i as int));
            assert(texts(names@).take(i + 1).last() == names@[i as int]@);
        }
        match profile_slot(&names[i]) {
            Some(slot) => {
                if slot > best {
                    best = slot;
                }
            },
            None => {},
        }
        i += 1;
    }
    proof {
        assert(texts(names@).take(i as int) =~= texts(names@));
    }
    best
}

/// The slot after `highest`; there is none after the last number.
pub open spec fn slot_after(highest: u32, at: nat) -> Run<u32> {
    if highest == u32::MAX {
        Run::Fail(ErrorView::Message("No free Codex account slots remain."@), at)
    } else {
        Run::Done((highest + 1) as u32, at)
    }
}

/// The first account that has this identity.
pub open spec fn slot_with(profiles: Seq<Profile>, identity: IdentityView) -> Option<u32>
    decreases profiles.len(),
{
    if profiles.len() == 0 {
        None
    } else if profiles[0].auth@.identity.same_account(identity) {
        Some(profiles[0].slot)
    } else {
        slot_with(profiles.skip(1), identity)
    }
}

/// The first account that has this identity.
pub fn slot_for_identity(profiles: &Vec<Profile>, identity: &Identity) -> (r: Option<u32>)
    ensures
        r == slot_with(profiles@, identity@),
{
    let mut i: usize = 0;
    proof {
        assert(profiles@.skip(0) =~= profiles@);
    }
    while i < profiles.len()
        invariant
            i <= profiles.len(),
            slot_with(profiles@, identity@) == slot_with(profiles@.skip(i as int), identity@),
        decreases profiles.len() - i,
    {
        proof {
            assert(profiles@.skip(i as int)[0] == profiles@[i as int]);
            assert(profiles@.skip(i as int).skip(1) =~= profiles@.skip(i + 1));
        }
        if profiles[i].auth.identity.same_account(identity) {
            return Some(profiles[i].slot);
        }
        i += 1;
    }
    None
}

// ---------------------------------------------------------------- single requests

pub open spec fn there_run(log: Seq<Reply>, at: nat, path: Seq<char>) -> Run<bool> {
    flag_run(log, at, RequestView::Exists(path))
}

pub open spec fn is_file_run(log: Seq<Reply>, at: nat, path: Seq<char>) -> Run<bool> {
    flag_run(log, at, RequestView::IsFile(path))
}

pub open spec fn writers_run(log: Seq<Reply>, at: nat) -> Run<bool> {
    flag_run(log, at, RequestView::WritersRunning)
}

pub open spec fn remove_run(log: Seq<Reply>, at: nat, path: Seq<char>) -> Run<()> {
    done_run(log, at, RequestView::Remove(path))
}

pub open spec fn sync_run(log: Seq<Reply>, at: nat, path: Seq<char>) -> Run<()> {
    done_run(log, at, RequestView::SyncParent(path))
}

pub open spec fn copy_run(log: Seq<Reply>, at: nat, from: Seq<char>, to: Seq<char>) -> Run<()> {
    done_run(log, at, RequestView::Copy { from, to })
}

pub(crate) fn is_there(log: &Vec<Reply>, at: &mut usize, path: &str) -> (r: Result<bool, Halt>)
    requires
        *old(at) <= log.len(),
    ensures
        *final(at) <= log.len(),
        told(r, *final(at), there_run(log@, *old(at) as nat, path@)),
{
    flag(log, at, Request::Exists(path.to_owned()))
}

pub(crate) fn is_file(log: &Vec<Reply>, at: &mut usize, path: &str) -> (r: Result<bool, Halt>)
    requires
        *old(at) <= log.len(),
    ensures
        *final(at) <= log.len(),
        told(r, *final(at), is_file_run(log@, *old(at) as nat, path@)),
{
    flag(log, at, Request::IsFile(path.to_owned()))
}

pub(crate) fn writers(log: &Vec<Reply>, at: &mut usize) -> (r: Result<bool, Halt>)
    requires
        *old(at) <= log.len(),
    ensures
        *final(at) <= log.len(),
        told(r, *final(at), writers_run(log@, *old(at) as nat)),
{
    flag(log, at, Request::WritersRunning)
}

pub(crate) fn remove(log: &Vec<Reply>, at: &mut usize, path: &str) -> (r: Result<(), Halt>)
    requires
        *old(at) <= log.len(),
    ensures
        *final(at) <= log.len(),
        told(r, *final(at), remove_run(log@, *old(at) as nat, path@)),
{
    done(log, at, Request::Remove(path.to_owned()))
}

pub(crate) fn sync(log: &Vec<Reply>, at: &mut usize, path: &str) -> (r: Result<(), Halt>)
    requires
        *old(at) <= log.len(),
    ensures
        *final(at) <= log.len(),
        told(r, *final(at), sync_run(log@, *old(at) as nat, path@)),
{
    done(log, at, Request::SyncParent(path.to_owned()))
}

pub(crate) fn copy(log: &Vec<Reply>, at: &mut usize, from: &str, to: &str) -> (r: Result<(), Halt>)
    requires
        *old(at) <= log.len(),
    ensures
        *final(at) <= log.len(),
        told(r, *final(at), copy_run(log@, *old(at) as nat, from@, to@)),
{
    done(log, at, Request::Copy { from: from.to_owned(), to: to.to_owned() })
}

/// Copies a file that must not replace another: where the target is there by now, someone else
/// wrote it, and the transaction has to wait.
pub open spec fn restore_copy_run(
    log: Seq<Reply>,
    at: nat,
    source: Seq<char>,
    target: Seq<char>,
) -> Run<()> {
    flag_run(log, at, RequestView::CopyIfAbsent { from: source, to: target }).bind(
        |copied: bool, n: nat|
            if copied {
                Run::Done((), n)
            } else {
                Run::Fail(ErrorView::RecoveryDeferred, n)
            },
    )
}

/// Copies a file unless the target is already there.
pub fn restore_copy_if_absent(log: &Vec<Reply>, at: &mut usize, source: &str, target: &str) -> (r:
    Result<(), Halt>)
    requires
        *old(at) <= log.len(),
    ensures
        *final(at) <= log.len(),
        told(r, *final(at), restore_copy_run(log@, *old(at) as nat, source@, target@)),
{
    if flag(log, at, Request::CopyIfAbsent { from: source.to_owned(), to: target.to_owned() })? {
        Ok(())
    } else {
        Err(Halt::Fail(Error::RecoveryDeferred))
    }
}

/// Brings a saved copy up to date: the newer of two files wins, and two different ones of the
/// same age are left alone.
pub open spec fn reconcile_run(
    log: Seq<Reply>,
    at: nat,
    source_path: Seq<char>,
    source: AuthView,
    target_path: Seq<char>,
    target: AuthView,
) -> Run<()> {
    if source.newer(target) {
        copy_run(log, at, source_path, target_path)
    } else if source.refresh_ns == target.refresh_ns && !source.same_credentials(target) {
        Run::Fail(ErrorView::Message(conflict_text(source_path, target_path)), at)
    } else {
        Run::Done((), at)
    }
}

pub open spec fn conflict_text(source: Seq<char>, target: Seq<char>) -> Seq<char> {
    "Credentials at "@ + source + " and "@ + target
        + " have the same refresh time but different contents; neither was overwritten."@
}

pub(crate) fn reconcile_credentials(
    log: &Vec<Reply>,
    at: &mut usize,
    source_path: &str,
    source: &AuthDocument,
    target_path: &str,
    target: &AuthDocument,
) -> (r: Result<(), Halt>)
    requires
        *old(at) <= log.len(),
    ensures
        *final(at) <= log.len(),
        told(
            r,
            *final(at),
            reconcile_run(log@, *old(at) as nat, source_path@, source@, target_path@, target@),
        ),
{
    if source.newer(target) {
        copy(log, at, source_path, target_path)
    } else if source.as_old_as(target) && !source.same_credentials(target) {
        Err(
            Halt::Fail(
                Error::Message(
                    "Credentials at ".to_owned().concat(source_path).concat(" and ").concat(
                        target_path,
                    ).concat(
                        " have the same refresh time but different contents; neither was overwritten.",
                    ),
                ),
            ),
        )
    } else {
        Ok(())
    }
}

// ---------------------------------------------------------------- reading the store

/// The store of one installation.
pub struct Store {
    pub config: Config,
}

/// The selected account: the recorded number, if there is a directory for it.
pub open spec fn selected_run(c: Config, log: Seq<Reply>, at: nat) -> Run<Option<u32>> {
    text_run(log, at, c.active_profile@).bind(
        |recorded: Option<String>, n: nat|
            match recorded {
                Some(value) => match parsed(trimmed(value@), u32::MAX as nat) {
                    Some(slot) => flag_run(
                        log,
                        n,
                        RequestView::IsDir(c.profile_dir_path(slot as u32)),
                    ).bind(
                        |there: bool, m: nat|
                            Run::Done(
                                if there {
                                    Some(slot as u32)
                                } else {
                                    None
                                },
                                m,
                            ),
                    ),
                    None => Run::Done(None, n),
                },
                None => Run::Done(None, n),
            },
    )
}

/// The account that has this identity.
pub open spec fn slot_for_run(identity: IdentityView, log: Seq<Reply>, at: nat) -> Run<Option<u32>> {
    profiles_run(log, at).bind(
        |profiles: Vec<Profile>, n: nat| Run::Done(slot_with(profiles@, identity), n),
    )
}

/// The number for a new account.
pub open spec fn next_slot_run(c: Config, log: Seq<Reply>, at: nat) -> Run<u32> {
    names_run(log, at, c.account_store@).bind(
        |names: Option<Vec<String>>, n: nat|
            match names {
                Some(names) => slot_after(highest(texts(names@)), n),
                None => Run::Done(1, n),
            },
    )
}

/// The line that records the selected account.
pub open spec fn selection_line(slot: u32) -> Seq<u8> {
    vstd::utf8::encode_utf8(decimal_text(slot as nat) + "\n"@)
}

/// Records the selected account.
pub open spec fn select_run(c: Config, slot: u32, log: Seq<Reply>, at: nat) -> Run<()> {
    done_run(log, at, RequestView::Write { path: c.active_profile@, bytes: selection_line(slot) })
}

impl Store {
    /// The store of an installation.
    pub fn new(config: Config) -> (r: Store)
        ensures
            r.config == config,
    {
        Store { config }
    }

    /// The selected account.
    pub fn selected(&self, log: &Vec<Reply>, at: &mut usize) -> (r: Result<Option<u32>, Halt>)
        requires
            *old(at) <= log.len(),
        ensures
            *final(at) <= log.len(),
            told(r, *final(at), selected_run(self.config, log@, *old(at) as nat)),
    {
        let value = match text(log, at, &self.config.active_profile)? {
            Some(value) => value,
            None => {
                return Ok(None);
            },
        };
        let slot: u32 = match parse_u32(&trim(value)) {
            Some(slot) => slot,
            None => {
                return Ok(None);
            },
        };
        if flag(log, at, Request::IsDir(self.config.profile_dir(slot)))? {
            Ok(Some(slot))
        } else {
            Ok(None)
        }
    }

    pub(crate) fn slot_for(&self, identity: &Identity, log: &Vec<Reply>, at: &mut usize) -> (r: Result<
        Option<u32>,
        Halt,
    >)
        requires
            *old(at) <= log.len(),
        ensures
            *final(at) <= log.len(),
            told(r, *final(at), slot_for_run(identity@, log@, *old(at) as nat)),
    {
        let found = profiles(log, at)?;
        Ok(slot_for_identity(found, identity))
    }

    /// The number for a new account: one more than the highest that is taken.
    pub fn next_slot(&self, log: &Vec<Reply>, at: &mut usize) -> (r: Result<u32, Halt>)
        requires
            *old(at) <= log.len(),
        ensures
            *final(at) <= log.len(),
            told(r, *final(at), next_slot_run(self.config, log@, *old(at) as nat)),
    {
        let taken = match names(log, at, &self.config.account_store)? {
            Some(taken) => taken,
            None => {
                return Ok(1);
            },
        };
        let best: u32 = highest_slot(taken);
        if best == u32::MAX {
            Err(Halt::Fail(Error::message("No free Codex account slots remain.")))
        } else {
            Ok(best + 1)
        }
    }

    pub(crate) fn record_selection(&self, slot: u32, log: &Vec<Reply>, at: &mut usize) -> (r: Result<(), Halt>)
        requires
            *old(at) <= log.len(),
        ensures
            *final(at) <= log.len(),
            told(r, *final(at), select_run(self.config, slot, log@, *old(at) as nat)),
    {
        let line = decimal(slot as u64).concat("\n");
        done(
            log,
            at,
            Request::Write {
                path: self.config.active_profile.clone(),
                bytes: line.as_str().as_bytes_vec(),
            },
        )
    }
}

// ---------------------------------------------------------------- enrolled accounts

/// What is in a credential file.
pub enum Credentials {
    /// There is no such file.
    Missing,
    Valid(AuthDocument),
    /// It could not be read as credentials.
    Broken(Error),
}

/// A name in the account store, with the credentials inside it.
pub struct StoreEntry {
    pub name: String,
    pub auth: Credentials,
}

/// The accounts with `profile` in its place: after every account whose number is not greater.
pub open spec fn placed(profiles: Seq<Profile>, profile: Profile) -> Seq<Profile>
    decreases profiles.len(),
{
    if profiles.len() == 0 || profiles.last().slot <= profile.slot {
        profiles.push(profile)
    } else {
        placed(profiles.drop_last(), profile).push(profiles.last())
    }
}

/// The enrolled accounts: the entries that are named for one and hold valid credentials, in the
/// order of their numbers, equal numbers in the order of the entries.
pub open spec fn enrolled(entries: Seq<StoreEntry>) -> Seq<Profile>
    decreases entries.len(),
{
    if entries.len() == 0 {
        Seq::empty()
    } else {
        let before = enrolled(entries.drop_last());
        match (slot_named(entries.last().name@), entries.last().auth) {
            (Some(slot), Credentials::Valid(auth)) => placed(before, Profile { slot, auth }),
            _ => before,
        }
    }
}

/// The trouble with the first entry that is named for an account and whose credentials are not
/// even JSON.
pub open spec fn first_broken(entries: Seq<StoreEntry>) -> Option<ErrorView>
    decreases entries.len(),
{
    if entries.len() == 0 {
        None
    } else {
        match (slot_named(entries[0].name@), entries[0].auth) {
            (Some(_), Credentials::Broken(error)) => if error@ is Json {
                Some(error@)
            } else {
                first_broken(entries.skip(1))
            },
            _ => first_broken(entries.skip(1)),
        }
    }
}

fn place(profiles: &mut Vec<Profile>, profile: Profile)
    ensures
        final(profiles)@ == placed(old(profiles)@, profile),
{
    let ghost all = profiles@;
    let mut n: usize = profiles.len();
    proof {
        assert(all.take(n as int) =~= all);
        assert(placed(all, profile) =~= placed(all, profile) + all.skip(n as int));
    }
    while n > 0 && profiles[n - 1].slot > profile.slot
        invariant
            n <= profiles.len(),
            profiles@ == all,
            placed(all, profile) == placed(all.take(n as int), profile) + all.skip(n as int),
        decreases n,
    {
        proof {
            assert(all.take(n as int).last() == all[n - 1]);
            assert(all.take(n as int).drop_last() =~= all.take(n - 1));
            assert(placed(all.take(n - 1), profile).push(all[n - 1]) + all.skip(n as int) =~= placed(
                all.take(n - 1),
                profile,
            ) + all.skip(n - 1));
        }
        n -= 1;
    }
    proof {
        if n > 0 {
            assert(all.take(n as int).last() == all[n - 1]);
        }
        assert(placed(all.take(n as int), profile) == all.take(n as int).push(profile));
        assert(all.take(n as int).push(profile) + all.skip(n as int) =~= all.insert(
            n as int,
            profile,
        ));
    }
    profiles.insert(n, profile);
}

/// Whether accounts stand in the order of their numbers.
pub open spec fn in_order(profiles: Seq<Profile>) -> bool {
    forall|i: int, j: int|
        0 <= i < j < profiles.len() ==> (#[trigger] profiles[i]).slot <= (#[trigger] profiles[j]).slot
}

proof fn lemma_placed_in_order(profiles: Seq<Profile>, profile: Profile)
    requires
        in_order(profiles),
    ensures
        in_order(placed(profiles, profile)),
        placed(profiles, profile).len() == profiles.len() + 1,
        forall|k: int|
            0 <= k < placed(profiles, profile).len() ==> (#[trigger] placed(
                profiles,
                profile,
            )[k]).slot <= (if profiles.len() > 0 && profiles.last().slot > profile.slot {
                profiles.last().slot
            } else {
                profile.slot
            }),
    decreases profiles.len(),
{
    if profiles.len() == 0 || profiles.last().slot <= profile.slot {
    } else {
        assert(in_order(profiles.drop_last()));
        lemma_placed_in_order(profiles.drop_last(), profile);
    }
}

/// The line that records a selected account names it.
pub proof fn lemma_selection_read(slot: u32)
    ensures
        parsed(trimmed(decimal_text(slot as nat) + "\n"@), u32::MAX as nat) == Some(slot as nat),
{
    reveal_strlit("\n");
    let digits = decimal_text(slot as nat);
    let line = digits + "\n"@;
    lemma_decimal_read(slot as nat);
    assert(line.last() == '\n');
    assert(line.drop_last() =~= digits);
    assert(line[0] == digits[0]);
    assert(trim_front(line) == line);
    assert(trim_back(line) == trim_back(digits));
    assert(trim_back(digits) == digits);
}

/// The account that was selected last is the selected one, as long as it is there.
pub proof fn law_selection_is_read_back(
    c: Config,
    slot: u32,
    text: String,
    log: Seq<Reply>,
    at: nat,
)
    requires
        at + 2 <= log.len(),
        log[at as int] == Reply::Text(text),
        vstd::utf8::encode_utf8(text@) == selection_line(slot),
    ensures
        selected_run(c, log.take(at as int + 1), at) == Run::<Option<u32>>::Ask(
            RequestView::IsDir(c.profile_dir_path(slot)),
        ),
        log[at as int + 1] == Reply::Flag(true) ==> selected_run(c, log, at) == Run::Done(
            Some(slot),
            at + 2,
        ),
{
    vstd::utf8::encode_utf8_decode_utf8(text@);
    vstd::utf8::encode_utf8_decode_utf8(decimal_text(slot as nat) + "\n"@);
    lemma_selection_read(slot);
}

/// The enrolled accounts stand in the order of their numbers.
pub proof fn law_profiles_in_order(entries: Seq<StoreEntry>)
    ensures
        in_order(enrolled(entries)),
    decreases entries.len(),
{
    if entries.len() > 0 {
        law_profiles_in_order(entries.drop_last());
        match (slot_named(entries.last().name@), entries.last().auth) {
            (Some(slot), Credentials::Valid(auth)) => {
                lemma_placed_in_order(enrolled(entries.drop_last()), Profile { slot, auth });
            },
            _ => {},
        }
    }
}

/// The number for a new account is free: no entry of the store is named for it.
pub proof fn law_next_slot_is_free(names: Seq<Seq<char>>, i: int)
    requires
        0 <= i < names.len(),
        highest(names) < u32::MAX,
    ensures
        slot_named(names[i]) != Some((highest(names) + 1) as u32),
    decreases names.len(),
{
    lemma_highest_bounds(names, i);
}

proof fn lemma_highest_bounds(names: Seq<Seq<char>>, i: int)
    requires
        0 <= i < names.len(),
    ensures
        slot_named(names[i]) is Some ==> slot_named(names[i])->0 <= highest(names),
    decreases names.len(),
{
    if i < names.len() - 1 {
        lemma_highest_bounds(names.drop_last(), i);
    }
}

/// The accounts whose email address contains a text, both in lower case.
pub open spec fn matching(profiles: Seq<Profile>, selector: Seq<char>) -> Seq<int>
    decreases profiles.len(),
{
    if profiles.len() == 0 {
        Seq::empty()
    } else {
        let before = matching(profiles.drop_last(), selector);
        if matches_email(profiles.last(), selector) {
            before.push(profiles.len() - 1)
        } else {
            before
        }
    }
}

pub open spec fn matches_email(profile: Profile, selector: Seq<char>) -> bool {
    match profile.auth@.identity.email {
        Some(email) => has_part(lowercase(email), selector),
        None => false,
    }
}

/// The first account with a number.
pub open spec fn numbered(profiles: Seq<Profile>, slot: u32) -> Option<int>
    decreases profiles.len(),
{
    if profiles.len() == 0 {
        None
    } else {
        match numbered(profiles.drop_last(), slot) {
            Some(i) => Some(i),
            None => if profiles.last().slot == slot {
                Some(profiles.len() - 1)
            } else {
                None
            },
        }
    }
}

/// The account that a selector names: a number, or a unique part of the email address.
pub open spec fn resolve_run(c: Config, selector: Seq<char>, log: Seq<Reply>, at: nat) -> Run<Profile> {
    profiles_run(log, at).bind(
        |profiles: Vec<Profile>, n: nat|
            match parsed(selector, u32::MAX as nat) {
                Some(slot) => match numbered(profiles@, slot as u32) {
                    Some(i) => Run::Done(profiles@[i], n),
                    None => flag_run(
                        log,
                        n,
                        RequestView::IsDir(c.profile_dir_path(slot as u32)),
                    ).bind(
                        |there: bool, m: nat|
                            Run::Fail(
                                ErrorView::Message(
                                    if there {
                                        "Codex account "@ + decimal_text(slot)
                                            + " exists, but its credentials are malformed."@
                                    } else {
                                        "No such Codex account: "@ + selector
                                    },
                                ),
                                m,
                            ),
                    ),
                },
                None => resolve_email(profiles@, lowercase(selector), n),
            },
    )
}

/// The account that a part of an email address names.
pub open spec fn resolve_email(profiles: Seq<Profile>, selector: Seq<char>, at: nat) -> Run<Profile> {
    let found = matching(profiles, selector);
    if found.len() == 0 {
        Run::Fail(ErrorView::Message("No Codex account matches: "@ + selector), at)
    } else if found.len() > 1 {
        Run::Fail(
            ErrorView::Message(
                "Ambiguous account \""@ + selector + "\"; use its slot number"@,
            ),
            at,
        )
    } else {
        Run::Done(profiles[found[0]], at)
    }
}

fn find_slot(profiles: &Vec<Profile>, slot: u32) -> (r: Option<usize>)
    ensures
        match r {
            Some(i) => numbered(profiles@, slot) == Some(i as int) && i < profiles.len(),
            None => numbered(profiles@, slot) is None,
        },
{
    let mut i: usize = 0;
    proof {
        assert(profiles@.take(0) =~= Seq::<Profile>::empty());
    }
    while i < profiles.len()
        invariant
            i <= profiles.len(),
            numbered(profiles@.take(i as int), slot) is None,
        decreases profiles.len() - i,
    {
        proof {
            assert(profiles@.take(i + 1).drop_last() =~= profiles@.take(i as int));
            assert(profiles@.take(i + 1).last() == profiles@[i as int]);
        }
        if profiles[i].slot == slot {
            proof {
                lemma_numbered_prefix(profiles@, i + 1, slot);
            }
            return Some(i);
        }
        i += 1;
    }
    proof {
        assert(profiles@.take(i as int) =~= profiles@);
    }
    None
}

proof fn lemma_numbered_prefix(profiles: Seq<Profile>, i: int, slot: u32)
    requires
        0 <= i <= profiles.len(),
        numbered(profiles.take(i), slot) is Some,
    ensures
        numbered(profiles, slot) == numbered(profiles.take(i), slot),
    decreases profiles.len() - i,
{
    if i == profiles.len() {
        assert(profiles.take(i) =~= profiles);
    } else {
        assert(profiles.take(i + 1).drop_last() =~= profiles.take(i));
        lemma_numbered_prefix(profiles, i + 1, slot);
    }
}

fn find_email(profiles: &Vec<Profile>, selector: &str) -> (r: Vec<usize>)
    ensures
        r@.map_values(|i: usize| i as int) == matching(profiles@, selector@),
        forall|k: int| 0 <= k < r.len() ==> (#[trigger] r@[k]) < profiles.len(),
{
    let mut found: Vec<usize> = Vec::new();
    let mut i: usize = 0;
    proof {
        assert(profiles@.take(0) =~= Seq::<Profile>::empty());
        assert(found@.map_values(|i: usize| i as int) =~= Seq::<int>::empty());
    }
    while i < profiles.len()
        invariant
            i <= profiles.len(),
            found@.map_values(|i: usize| i as int) == matching(
                profiles@.take(i as int),
                selector@,
            ),
            forall|k: int| 0 <= k < found.len() ==> (#[trigger] found@[k]) < profiles.len(),
        decreases profiles.len() - i,
    {
        proof {
            assert(profiles@.take(i + 1).drop_last() =~= profiles@.take(i as int));
            assert(profiles@.take(i + 1).last() == profiles@[i as int]);
        }
        let hit = match &profiles[i].auth.identity.email {
            Some(email) => contains(&to_lowercase(email), selector),
            None => false,
        };
        if hit {
            let ghost before = found@;
            found.push(i);
            proof {
                assert(found@.map_values(|i: usize| i as int) =~= before.map_values(
                    |i: usize| i as int,
                ).push(i as int));
            }
        }
        i += 1;
    }
    proof {
        assert(profiles@.take(i as int) =~= profiles@);
    }
    found
}

impl Store {
    /// The enrolled accounts among the entries of the store, in the order of their numbers. An
    /// account whose credentials are not even JSON is reported; one whose credentials cannot be
    /// read, or are JSON but no ChatGPT OAuth credentials, is passed over.
    pub fn profiles(entries: Vec<StoreEntry>) -> (r: Result<Vec<Profile>, Error>)
        ensures
            match r {
                Ok(profiles) => first_broken(entries@) is None && profiles@ == enrolled(entries@)
                    && in_order(profiles@),
                Err(error) => first_broken(entries@) == Some(error@),
            },
    {
        let ghost all = entries@;
        let mut rest = entries;
        let mut backwards: Vec<StoreEntry> = Vec::new();
        while rest.len() > 0
            invariant
                all == rest@ + backwards@.reverse(),
            decreases rest.len(),
        {
            let ghost before_rest = rest@;
            let ghost before_backwards = backwards@;
            match rest.pop() {
                Some(entry) => {
                    backwards.push(entry);
                    proof {
                        assert(backwards@.reverse() =~= seq![entry] + before_backwards.reverse());
                        assert(rest@ + backwards@.reverse() =~= before_rest
                            + before_backwards.reverse());
                    }
                },
                None => {},
            }
        }
        let mut profiles: Vec<Profile> = Vec::new();
        proof {
            assert(all =~= backwards@.reverse());
            assert(all.take(0) =~= Seq::<StoreEntry>::empty());
            assert(all.skip(0) =~= all);
        }
        let ghost mut done_count: int = 0;
        while backwards.len() > 0
            invariant
                0 <= done_count <= all.len(),
                backwards@.reverse() == all.skip(done_count),
                profiles@ == enrolled(all.take(done_count)),
                all == entries@,
                first_broken(entries@) == first_broken(all.skip(done_count)),
            decreases backwards.len(),
        {
            let ghost before = backwards@;
            match backwards.pop() {
                Some(entry) => {
                    proof {
                        assert(before.reverse().len() == before.len());
                        assert(all.skip(done_count).len() == all.len() - done_count);
                        assert(before.reverse()[0] == entry);
                        assert(all.skip(done_count)[0] == all[done_count]);
                        assert(all.take(done_count + 1).drop_last() =~= all.take(done_count));
                        assert(all.take(done_count + 1).last() == entry);
                        assert(backwards@.reverse() =~= before.reverse().skip(1));
                        assert(all.skip(done_count).skip(1) =~= all.skip(done_count + 1));
                    }
                    match (profile_slot(&entry.name), entry.auth) {
                        (Some(slot), Credentials::Valid(auth)) => {
                            place(&mut profiles, Profile { slot, auth });
                        },
                        (Some(_), Credentials::Broken(error)) => {
                            if matches!(error, Error::Json { .. }) {
                                return Err(error);
                            }
                        },
                        _ => {},
                    }
                    proof {
                        done_count = done_count + 1;
                    }
                },
                None => {},
            }
        }
        proof {
            assert(all.skip(done_count).len() == 0);
            assert(all.take(done_count) =~= all);
            law_profiles_in_order(all);
        }
        Ok(profiles)
    }

    /// The account that a selector names.
    pub fn resolve<'a>(&self, selector: &str, log: &'a Vec<Reply>, at: &mut usize) -> (r: Result<
        &'a Profile,
        Halt,
    >)
        requires
            *old(at) <= log.len(),
        ensures
            *final(at) <= log.len(),
            told_ref(r, *final(at), resolve_run(self.config, selector@, log@, *old(at) as nat)),
    {
        let found = profiles(log, at)?;
        if let Some(slot) = parse_u32(selector) {
            if let Some(i) = find_slot(found, slot) {
                return Ok(&found[i]);
            }
            if flag(log, at, Request::IsDir(self.config.profile_dir(slot)))? {
                return Err(
                    Halt::Fail(
                        Error::Message(
                            "Codex account ".to_owned().concat(&decimal(slot as u64)).concat(
                                " exists, but its credentials are malformed.",
                            ),
                        ),
                    ),
                );
            }
            return Err(
                Halt::Fail(Error::Message("No such Codex account: ".to_owned().concat(selector))),
            );
        }
        let needle = to_lowercase(selector);
        let hits = find_email(found, &needle);
        proof {
            assert(hits@.map_values(|i: usize| i as int).len() == hits.len());
            if hits.len() > 0 {
                assert(hits@.map_values(|i: usize| i as int)[0] == hits@[0] as int);
            }
        }
        if hits.len() == 0 {
            Err(Halt::Fail(Error::Message("No Codex account matches: ".to_owned().concat(&needle))))
        } else if hits.len() > 1 {
            Err(
                Halt::Fail(
                    Error::Message(
                        "Ambiguous account \"".to_owned().concat(&needle).concat(
                            "\"; use its slot number",
                        ),
                    ),
                ),
            )
        } else {
            Ok(&found[hits[0]])
        }
    }
}

// ---------------------------------------------------------------- selection and freshness

/// Selects the account whose credentials Codex reads, where none is selected yet.
pub open spec fn adopt_run(c: Config, log: Seq<Reply>, at: nat) -> Run<()> {
    selected_run(c, log, at).bind(
        |selected: Option<u32>, n: nat|
            match selected {
                Some(_) => Run::Done((), n),
                None => entry_run(log, n, c.session_auth@).rescue(
                    |_error: ErrorView, m: nat| Run::Done(EntryKind::Missing, m),
                ).bind(
                    |kind: EntryKind, m: nat|
                        if kind != EntryKind::Other {
                            Run::Done((), m)
                        } else {
                            auth_if_valid_run(log, m, c.session_auth@).bind(
                                |session: Option<AuthDocument>, k: nat|
                                    match session {
                                        Some(session) => slot_for_run(
                                            session@.identity,
                                            log,
                                            k,
                                        ).bind(
                                            |known: Option<u32>, j: nat|
                                                match known {
                                                    Some(slot) => select_run(c, slot, log, j),
                                                    None => Run::Done((), j),
                                                },
                                        ),
                                        None => Run::Done((), k),
                                    },
                            )
                        },
                ),
            },
    )
}

/// Whether the last of two moments lies within so many seconds before the present one.
pub open spec fn recent(
    recorded: Option<i128>,
    attempted: Option<i128>,
    now: i128,
    seconds: u64,
) -> bool {
    latest(recorded, attempted) matches Some(moment) && moment <= now && now - moment < seconds
        * 1_000_000_000
}

/// The later of two optional moments.
pub open spec fn latest(a: Option<i128>, b: Option<i128>) -> Option<i128> {
    match (a, b) {
        (Some(x), Some(y)) => if x >= y {
            Some(x)
        } else {
            Some(y)
        },
        (Some(_), None) => a,
        (None, _) => b,
    }
}

impl Store {
    /// Selects the account whose credentials Codex reads, where none is selected yet.
    pub fn adopt_detached_session_selection(&self, log: &Vec<Reply>, at: &mut usize) -> (r: Result<
        (),
        Halt,
    >)
        requires
            *old(at) <= log.len(),
        ensures
            *final(at) <= log.len(),
            told(r, *final(at), adopt_run(self.config, log@, *old(at) as nat)),
    {
        if self.selected(log, at)?.is_some() {
            return Ok(());
        }
        let kind = match entry(log, at, &self.config.session_auth) {
            Ok(kind) => kind,
            Err(Halt::Fail(_)) => EntryKind::Missing,
            Err(Halt::Ask(request)) => {
                return Err(Halt::Ask(request));
            },
        };
        if kind != EntryKind::Other {
            return Ok(());
        }
        let session = match auth_if_valid(log, at, &self.config.session_auth)? {
            Some(session) => session,
            None => {
                return Ok(());
            },
        };
        match self.slot_for(&session.identity, log, at)? {
            Some(slot) => self.record_selection(slot, log, at),
            None => Ok(()),
        }
    }

    /// Whether an account's quota was recorded or asked for within the configured time. Moments
    /// are nanoseconds since the Unix epoch; a record from the future is not fresh.
    pub fn usage_fresh(
        &self,
        recorded: Option<i128>,
        attempted: Option<i128>,
        now: i128,
    ) -> (r: bool)
        ensures
            r == (match latest(recorded, attempted) {
                Some(moment) => moment <= now && now - moment < self.config.usage_ttl_seconds
                    * 1_000_000_000,
                None => false,
            }),
            r == recent(recorded, attempted, now, self.config.usage_ttl_seconds),
    {
        let newest = match (recorded, attempted) {
            (Some(x), Some(y)) => if x >= y {
                Some(x)
            } else {
                Some(y)
            },
            (Some(x), None) => Some(x),
            (None, y) => y,
        };
        match newest {
            Some(moment) => if moment > now || (moment < 0 && now > i128::MAX + moment) {
                false
            } else {
                now - moment < self.config.usage_ttl_seconds as i128 * 1_000_000_000
            },
            None => false,
        }
    }
}

/// The seconds of a clock since the Unix epoch, as a signed number; zero for a clock that stands
/// before it.
pub open spec fn epoch_seconds(since_epoch: Option<u64>) -> int {
    match since_epoch {
        Some(seconds) => if seconds < 0x8000_0000_0000_0000 {
            seconds as int
        } else {
            seconds - 0x1_0000_0000_0000_0000
        },
        None => 0,
    }
}

/// The present moment in seconds, from the clock's time since the Unix epoch; zero for a clock
/// that stands before it.
pub fn now_epoch(since_epoch: Option<u64>) -> (r: i64)
    ensures
        r == (match since_epoch {
            Some(seconds) => if seconds <= i64::MAX {
                seconds as int
            } else {
                seconds - 0x1_0000_0000_0000_0000
            },
            None => 0,
        }),
        r == epoch_seconds(since_epoch),
{
    match since_epoch {
        Some(seconds) => if seconds <= i64::MAX as u64 {
            seconds as i64
        } else {
            (seconds as i128 - 0x1_0000_0000_0000_0000) as i64
        },
        None => 0,
    }
}

}
