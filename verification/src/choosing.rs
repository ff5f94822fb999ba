//! Which accounts are enrolled, and which of them a number, a part of an address or an identity
//! stands for.
use crate::account_store::{
    adopt_run, enrolled, highest, matches_email, matching, next_slot_run, numbered, placed,
    resolve_run, selected_run, selection_line, slot_named, slot_with, Credentials, Profile,
    StoreEntry,
};
use crate::auth::IdentityView;
use crate::config::Config;
use crate::effects::{EntryKind, Reply, RequestView, Run};
use crate::text::{
    decimal_text, digits_value, lemma_decimal_read, lemma_has_part, lowercase, parsed, stands_in,
    texts, trimmed,
};
use vstd::prelude::*;
use vstd::utf8::encode_utf8;

verus! {

// ---------------------------------------------------------------- numbers and names

proof fn lemma_all_digits(s: Seq<char>)
    ensures
        digits_value(s) is Some <==> forall|i: int| 0 <= i < s.len() ==> '0' <= #[trigger] s[i] <= '9',
    decreases s.len(),
{
    if s.len() > 0 {
        lemma_all_digits(s.drop_last());
        assert(forall|i: int| 0 <= i < s.len() - 1 ==> s.drop_last()[i] == s[i]);
        assert(s.last() == s[s.len() - 1]);
    }
}

/// A text with a letter in it, or any other character that is no digit behind its first one, is no
/// number; the decimal notation of a number is read as that number, where it is not too large.
pub proof fn law_numbers_are_digits(s: Seq<char>, n: nat, max: nat)
    ensures
        parsed(decimal_text(n), max) == (if n <= max {
            Some(n)
        } else {
            None
        }),
        s.len() == 0 ==> parsed(s, max) is None,
        parsed(s, max) is Some ==> forall|i: int|
            0 < i < s.len() ==> '0' <= #[trigger] s[i] <= '9',
        parsed(s, max) is Some ==> s[0] == '+' || '0' <= s[0] <= '9',
        s.len() > 0 && (forall|i: int| 0 <= i < s.len() ==> '0' <= #[trigger] s[i] <= '9')
            ==> parsed(s, max) == (match digits_value(s) {
            Some(value) if value <= max => Some(value),
            _ => None,
        }),
{
    lemma_decimal_read(n);
    lemma_all_digits(s);
    if s.len() > 0 {
        lemma_all_digits(s.skip(1));
        if s[0] == '+' && parsed(s, max) is Some {
            assert forall|i: int| 0 < i < s.len() implies '0' <= #[trigger] s[i] <= '9' by {
                assert(s.skip(1)[i - 1] == s[i]);
            }
        }
    }
}

/// The directory of an account is named for its number, and for no other account's.
pub proof fn law_directories_are_named_for_numbers(n: u32, name: Seq<char>)
    ensures
        slot_named("profile-"@ + decimal_text(n as nat)) == Some(n),
        slot_named(name) is Some ==> "profile-"@.is_prefix_of(name),
{
    let prefix = "profile-"@;
    let whole = prefix + decimal_text(n as nat);
    assert(prefix.is_prefix_of(whole)) by {
        assert(whole.subrange(0, prefix.len() as int) =~= prefix);
    }
    assert(whole.skip(prefix.len() as int) =~= decimal_text(n as nat));
    law_numbers_are_digits(decimal_text(n as nat), n as nat, u32::MAX as nat);
}

proof fn lemma_numbered(accounts: Seq<Profile>, slot: u32)
    ensures
        match numbered(accounts, slot) {
            Some(i) => 0 <= i < accounts.len() && accounts[i].slot == slot && forall|j: int|
                0 <= j < i ==> (#[trigger] accounts[j]).slot != slot,
            None => forall|j: int| 0 <= j < accounts.len() ==> (#[trigger] accounts[j]).slot != slot,
        },
    decreases accounts.len(),
{
    if accounts.len() > 0 {
        lemma_numbered(accounts.drop_last(), slot);
        assert(forall|j: int|
            0 <= j < accounts.len() - 1 ==> accounts.drop_last()[j] == #[trigger] accounts[j]);
    }
}

/// The number of an enrolled account, as it is written, names that account; where no account has
/// the number, there is a failure after a look for its directory.
pub proof fn law_a_number_names_its_account(
    c: Config,
    n: u32,
    accounts: Vec<Profile>,
    log: Seq<Reply>,
    at: nat,
)
    requires
        at < log.len(),
        log[at as int] == Reply::Profiles(accounts),
    ensures
        forall|i: int|
            0 <= i < accounts@.len() && (#[trigger] accounts@[i]).slot == n && (forall|j: int|
                0 <= j < i ==> (#[trigger] accounts@[j]).slot != n) ==> resolve_run(
                c,
                decimal_text(n as nat),
                log,
                at,
            ) == Run::Done(accounts@[i], at + 1),
        (forall|i: int| 0 <= i < accounts@.len() ==> (#[trigger] accounts@[i]).slot != n) ==> {
            &&& log.len() == at + 1 ==> resolve_run(c, decimal_text(n as nat), log, at) == Run::<
                Profile,
            >::Ask(RequestView::IsDir(c.profile_dir_path(n)))
            &&& log.len() > at + 1 ==> resolve_run(c, decimal_text(n as nat), log, at) is Fail
        },
{
    law_numbers_are_digits(decimal_text(n as nat), n as nat, u32::MAX as nat);
    lemma_numbered(accounts@, n);
    assert forall|i: int|
        0 <= i < accounts@.len() && (#[trigger] accounts@[i]).slot == n && (forall|j: int|
            0 <= j < i ==> (#[trigger] accounts@[j]).slot != n) implies resolve_run(
        c,
        decimal_text(n as nat),
        log,
        at,
    ) == Run::Done(accounts@[i], at + 1) by {
        let k = numbered(accounts@, n)->0;
        assert(accounts@[k].slot == n);
        assert(k == i);
    }
}

// ---------------------------------------------------------------- addresses

/// Whether the address of an account, in lower case, has a text in it.
pub open spec fn address_has(profile: Profile, part: Seq<char>) -> bool {
    profile.auth.identity.email matches Some(email) && stands_in(part, lowercase(email@))
}

/// Whether an account is the only one whose address has a text in it.
pub open spec fn only_address(accounts: Seq<Profile>, part: Seq<char>, i: int) -> bool {
    &&& 0 <= i < accounts.len()
    &&& address_has(accounts[i], part)
    &&& forall|j: int|
        0 <= j < accounts.len() && j != i ==> !address_has(#[trigger] accounts[j], part)
}

proof fn lemma_matching(accounts: Seq<Profile>, part: Seq<char>)
    ensures
        forall|k: int|
            0 <= k < matching(accounts, part).len() ==> {
                &&& 0 <= #[trigger] matching(accounts, part)[k] < accounts.len()
                &&& address_has(accounts[matching(accounts, part)[k]], part)
            },
        forall|k: int, l: int|
            0 <= k < l < matching(accounts, part).len() ==> matching(accounts, part)[k] < matching(
                accounts,
                part,
            )[l],
        forall|i: int|
            0 <= i < accounts.len() && address_has(#[trigger] accounts[i], part) ==> matching(
                accounts,
                part,
            ).contains(i),
    decreases accounts.len(),
{
    if accounts.len() > 0 {
        let before = matching(accounts.drop_last(), part);
        lemma_matching(accounts.drop_last(), part);
        let last = accounts.last();
        if let Some(email) = last.auth.identity.email {
            lemma_has_part(lowercase(email@), part);
        }
        assert(matches_email(last, part) <==> address_has(last, part));
        let whole = matching(accounts, part);
        assert forall|i: int|
            0 <= i < accounts.len() && address_has(
                #[trigger] accounts[i],
                part,
            ) implies whole.contains(i) by {
            if i < accounts.len() - 1 {
                assert(accounts.drop_last()[i] == accounts[i]);
                let k = choose|k: int| 0 <= k < before.len() && before[k] == i;
                assert(whole[k] == i);
            } else {
                assert(whole.last() == i);
            }
        }
    }
}

/// A text that is no number names the one account whose address has it in it, wherever it stands
/// there and however it is capitalized; where no address has it, or more than one, it names none.
pub proof fn law_a_part_of_an_address_names_its_account(
    c: Config,
    selector: Seq<char>,
    accounts: Vec<Profile>,
    log: Seq<Reply>,
    at: nat,
)
    requires
        at < log.len(),
        log[at as int] == Reply::Profiles(accounts),
        parsed(selector, u32::MAX as nat) is None,
    ensures
        forall|i: int| #[trigger]
            only_address(accounts@, lowercase(selector), i) ==> resolve_run(c, selector, log, at)
                == Run::Done(accounts@[i], at + 1),
        (forall|i: int| !#[trigger] only_address(accounts@, lowercase(selector), i))
            ==> resolve_run(c, selector, log, at) is Fail,
{
    let part = lowercase(selector);
    let found = matching(accounts@, part);
    lemma_matching(accounts@, part);
    if found.len() == 1 {
        let only = found[0];
        assert(only_address(accounts@, part, only)) by {
            assert forall|j: int| 0 <= j < accounts@.len() && j != only implies !address_has(
                #[trigger] accounts@[j],
                part,
            ) by {
                if address_has(accounts@[j], part) {
                    assert(found.contains(j));
                }
            }
        }
    } else {
        assert forall|i: int| !#[trigger] only_address(accounts@, part, i) by {
            if only_address(accounts@, part, i) {
                assert(found.contains(i));
                assert(found.len() > 1);
                assert(found[0] < found[1]);
                assert(address_has(accounts@[found[0]], part));
                assert(address_has(accounts@[found[1]], part));
            }
        }
    }
}

// ---------------------------------------------------------------- what is enrolled

/// Whether an entry of the store holds an account: it is named for the number, and has the
/// credentials.
pub open spec fn holds_account(entry: StoreEntry, profile: Profile) -> bool {
    &&& slot_named(entry.name@) == Some(profile.slot)
    &&& entry.auth == Credentials::Valid(profile.auth)
}

proof fn lemma_placed(accounts: Seq<Profile>, profile: Profile)
    ensures
        placed(accounts, profile).to_multiset() == accounts.to_multiset().insert(profile),
    decreases accounts.len(),
{
    broadcast use vstd::seq_lib::group_to_multiset_ensures;

    if accounts.len() == 0 || accounts.last().slot <= profile.slot {
    } else {
        lemma_placed(accounts.drop_last(), profile);
        assert(accounts =~= accounts.drop_last().push(accounts.last()));
        assert(accounts.to_multiset().insert(profile) =~= accounts.drop_last().to_multiset().insert(
            profile,
        ).insert(accounts.last()));
    }
}

proof fn lemma_enrolled(entries: Seq<StoreEntry>, profile: Profile)
    ensures
        enrolled(entries).contains(profile) <==> exists|i: int|
            0 <= i < entries.len() && holds_account(#[trigger] entries[i], profile),
        enrolled(entries).len() <= entries.len(),
    decreases entries.len(),
{
    broadcast use vstd::seq_lib::group_to_multiset_ensures;

    if entries.len() > 0 {
        let before = entries.drop_last();
        lemma_enrolled(before, profile);
        assert(forall|i: int| 0 <= i < before.len() ==> before[i] == #[trigger] entries[i]);
        let last = entries.last();
        assert(entries[entries.len() - 1] == last);
        if let (Some(slot), Credentials::Valid(auth)) = (slot_named(last.name@), last.auth) {
            lemma_placed(enrolled(before), Profile { slot, auth });
            assert(enrolled(entries).to_multiset().contains(profile) <==> enrolled(
                before,
            ).to_multiset().contains(profile) || profile == (Profile { slot, auth }));
            assert(enrolled(entries).len() == enrolled(entries).to_multiset().len());
            assert(enrolled(before).len() == enrolled(before).to_multiset().len());
        }
    }
}

/// The accounts are those of the entries that are named for one and hold valid credentials: none is
/// left out and none is made up.
pub proof fn law_every_valid_entry_is_an_account(entries: Seq<StoreEntry>, profile: Profile)
    ensures
        enrolled(entries).contains(profile) <==> exists|i: int|
            0 <= i < entries.len() && holds_account(#[trigger] entries[i], profile),
        enrolled(entries).len() <= entries.len(),
{
    lemma_enrolled(entries, profile);
}

proof fn lemma_highest_taken(names: Seq<Seq<char>>)
    ensures
        highest(names) == 0 || exists|i: int|
            0 <= i < names.len() && slot_named(#[trigger] names[i]) == Some(highest(names)),
        forall|i: int|
            0 <= i < names.len() && slot_named(#[trigger] names[i]) is Some ==> slot_named(
                names[i],
            )->0 <= highest(names),
    decreases names.len(),
{
    if names.len() > 0 {
        let before = names.drop_last();
        lemma_highest_taken(before);
        assert(forall|i: int| 0 <= i < before.len() ==> before[i] == #[trigger] names[i]);
        assert(names[names.len() - 1] == names.last());
        if highest(names) == highest(before) && highest(before) != 0 {
            let i = choose|i: int|
                0 <= i < before.len() && slot_named(#[trigger] before[i]) == Some(highest(before));
            assert(slot_named(names[i]) == Some(highest(names)));
        }
    }
}

/// A new account gets the number after the highest one in the store, and the first number in an
/// empty store: every entry that is named for an account has a lower number, and one of them the
/// number just below.
pub proof fn law_a_new_account_comes_after_the_others(
    c: Config,
    names: Vec<String>,
    slot: u32,
    log: Seq<Reply>,
    at: nat,
)
    requires
        at < log.len(),
        log[at as int] == Reply::Names(names),
        next_slot_run(c, log, at) == Run::Done(slot, at + 1),
    ensures
        slot > 0,
        forall|i: int|
            0 <= i < names@.len() && slot_named((#[trigger] names@[i])@) is Some ==> slot_named(
                names@[i]@,
            )->0 < slot,
        slot == 1 || exists|i: int|
            0 <= i < names@.len() && slot_named((#[trigger] names@[i])@) == Some((slot - 1) as u32),
{
    lemma_highest_taken(texts(names@));
    assert(forall|i: int| 0 <= i < names@.len() ==> texts(names@)[i] == (#[trigger] names@[i])@);
    if slot != 1 {
        let i = choose|i: int|
            0 <= i < texts(names@).len() && slot_named(#[trigger] texts(names@)[i]) == Some(
                highest(texts(names@)),
            );
        assert(slot_named(names@[i]@) == Some((slot - 1) as u32));
    }
}

/// A new account gets a number unless the highest possible one is taken.
pub proof fn law_a_new_account_finds_a_number(
    c: Config,
    names: Vec<String>,
    log: Seq<Reply>,
    at: nat,
)
    requires
        at < log.len(),
        log[at as int] == Reply::Names(names),
    ensures
        next_slot_run(c, log.take(at as int), at) == Run::<u32>::Ask(
            RequestView::Names(c.account_store@),
        ),
        next_slot_run(c, log, at) is Done || exists|i: int|
            0 <= i < names@.len() && slot_named((#[trigger] names@[i])@) == Some(u32::MAX),
{
    lemma_highest_taken(texts(names@));
    assert(forall|i: int| 0 <= i < names@.len() ==> texts(names@)[i] == (#[trigger] names@[i])@);
    if next_slot_run(c, log, at) !is Done {
        let i = choose|i: int|
            0 <= i < texts(names@).len() && slot_named(#[trigger] texts(names@)[i]) == Some(
                highest(texts(names@)),
            );
        assert(slot_named(names@[i]@) == Some(u32::MAX));
    }
}

/// Whether an account has an identity: the same user and the same workspace.
pub open spec fn has_identity(profile: Profile, identity: IdentityView) -> bool {
    &&& profile.auth@.identity.user_id == identity.user_id
    &&& profile.auth@.identity.account_id == identity.account_id
}

/// An identity is looked for among all accounts: it is found exactly where one of them has it, and
/// the account that is found has it.
pub proof fn law_an_identity_is_found_wherever_it_is(
    accounts: Seq<Profile>,
    identity: IdentityView,
)
    ensures
        slot_with(accounts, identity) is Some <==> exists|i: int|
            0 <= i < accounts.len() && has_identity(#[trigger] accounts[i], identity),
        slot_with(accounts, identity) matches Some(slot) ==> exists|i: int|
            0 <= i < accounts.len() && has_identity(#[trigger] accounts[i], identity)
                && accounts[i].slot == slot,
    decreases accounts.len(),
{
    if accounts.len() > 0 {
        let rest = accounts.skip(1);
        law_an_identity_is_found_wherever_it_is(rest, identity);
        assert(forall|i: int| 0 <= i < rest.len() ==> rest[i] == #[trigger] accounts[i + 1]);
        if !has_identity(accounts[0], identity) {
            if exists|i: int|
                0 <= i < accounts.len() && has_identity(#[trigger] accounts[i], identity) {
                let i = choose|i: int|
                    0 <= i < accounts.len() && has_identity(#[trigger] accounts[i], identity);
                assert(has_identity(rest[i - 1], identity));
            }
            if let Some(slot) = slot_with(rest, identity) {
                let i = choose|i: int|
                    0 <= i < rest.len() && has_identity(#[trigger] rest[i], identity)
                        && rest[i].slot == slot;
                assert(has_identity(accounts[i + 1], identity));
            }
        }
    }
}

// ---------------------------------------------------------------- what is selected

/// The selected account is the one that the record names, as long as its directory is there.
pub proof fn law_the_record_names_the_selected_account(
    c: Config,
    slot: u32,
    log: Seq<Reply>,
    at: nat,
)
    requires
        at < log.len(),
    ensures
        selected_run(c, log, at) matches Run::Done(Some(chosen), n) ==> {
            &&& n == at + 2 <= log.len()
            &&& log[at as int] matches Reply::Text(text) && parsed(
                trimmed(text@),
                u32::MAX as nat,
            ) == Some(chosen as nat)
            &&& log[at as int + 1] == Reply::Flag(true)
            &&& selected_run(c, log.take(at as int + 1), at) == Run::<Option<u32>>::Ask(
                RequestView::IsDir(c.profile_dir_path(chosen)),
            )
        },
        selected_run(c, log.take(at as int), at) == Run::<Option<u32>>::Ask(
            RequestView::ReadText(c.active_profile@),
        ),
        at + 1 < log.len() && log[at as int + 1] == Reply::Flag(true) && (log[at as int] matches
            Reply::Text(text) && parsed(trimmed(text@), u32::MAX as nat) == Some(slot as nat))
            ==> selected_run(c, log, at) == Run::Done(Some(slot), at + 2),
{
}

/// What is recorded for an account that becomes the selected one is its number on a line.
pub proof fn law_a_selection_is_a_number_on_a_line(slot: u32)
    ensures
        selection_line(slot) == encode_utf8(decimal_text(slot as nat) + seq!['\n']),
{
    reveal_strlit("\n");
    assert("\n"@ =~= seq!['\n']);
}

/// Credentials that Codex reads decide which account is selected only where none is: an account
/// that is selected stays so.
pub proof fn law_adopting_keeps_a_selection(c: Config, slot: u32, log: Seq<Reply>, at: nat)
    requires
        at + 1 < log.len(),
        log[at as int] matches Reply::Text(text) && parsed(trimmed(text@), u32::MAX as nat) == Some(
            slot as nat,
        ),
        log[at as int + 1] == Reply::Flag(true),
    ensures
        adopt_run(c, log, at) == Run::Done((), at + 2),
{
}

/// An account is adopted where none is selected: the one whose identity the session has.
pub proof fn law_the_session_is_adopted(
    c: Config,
    session: crate::auth::AuthDocument,
    accounts: Vec<Profile>,
    log: Seq<Reply>,
    at: nat,
)
    requires
        log.len() == at + 4,
        log[at as int] is Missing,
        log[at as int + 1] == Reply::Entry(EntryKind::Other),
        log[at as int + 2] == Reply::Auth(session),
        log[at as int + 3] == Reply::Profiles(accounts),
    ensures
        match adopt_run(c, log, at) {
            Run::Ask(RequestView::Write { path, bytes }) => {
                &&& path == c.active_profile@
                &&& exists|i: int|
                    0 <= i < accounts@.len() && has_identity(
                        #[trigger] accounts@[i],
                        session@.identity,
                    ) && bytes == selection_line(accounts@[i].slot)
            },
            Run::Done(_, n) => n == at + 4 && forall|i: int|
                0 <= i < accounts@.len() ==> !has_identity(
                    #[trigger] accounts@[i],
                    session@.identity,
                ),
            _ => false,
        },
{
    law_an_identity_is_found_wherever_it_is(accounts@, session@.identity);
}

}
