//! What texts, paths, values and files come to.
use crate::account_store::Profile;
use crate::auth::AuthDocument;
use crate::boost_state::{lock_path, log_path, preparing_state, state_path, stop_path, Phase};
use crate::config::Config;
use crate::effects::{
    answer_run, auth_if_valid_run, auth_run, clock_run, contents_run, done_run, entry_run,
    flag_run, names_run, profiles_run, text_run, time_run, EntryKind, FileKind, Reply, RequestView,
    Run,
};
use crate::error::{Error, ErrorView};
use crate::fs::{
    copy_if_absent_run, copy_run, holder, link_if_absent_run, private_dir_run, remove_run,
    write_run,
};
use crate::json::{alike, text_under, JsonView};
use crate::paths::{folded, joined, named, parts_of, PathView};
use crate::text::{
    decimal_text, digit_char, digits_value, is_digit, parsed, signed_text, text_before, two_digits,
};
use vstd::prelude::*;

verus! {

// ---------------------------------------------------------------- numbers and texts

/// A number below a hundred is written with two digits.
pub proof fn law_two_digits_are_written(n: nat)
    requires
        n < 100,
    ensures
        two_digits(n) == seq![digit_char(n / 10), digit_char(n % 10)],
{
    reveal_with_fuel(decimal_text, 3);
}

/// A number below zero is written with its sign.
pub proof fn law_signs_are_written(n: nat)
    requires
        n > 0,
    ensures
        signed_text(-(n as int)) == seq!['-'] + decimal_text(n),
        signed_text(n as int) == decimal_text(n),
{
}

proof fn lemma_digits(s: Seq<char>, i: int)
    requires
        0 <= i < s.len(),
        !is_digit(s[i]),
    ensures
        digits_value(s) is None,
    decreases s.len(),
{
    if i < s.len() - 1 {
        assert(s.drop_last()[i] == s[i]);
        lemma_digits(s.drop_last(), i);
    }
}

/// What is read as a number has digits only, but for a plus sign before them, and is not too large.
pub proof fn law_only_digits_are_numbers(s: Seq<char>, max: nat, i: int)
    ensures
        parsed(Seq::empty(), max) is None,
        parsed(seq!['+'], max) is None,
        0 <= i < s.len() && !is_digit(s[i]) && (i > 0 || s[i] != '+') ==> parsed(s, max) is None,
        parsed(s, max) matches Some(n) ==> n <= max,
{
    if 0 <= i < s.len() && !is_digit(s[i]) && (i > 0 || s[i] != '+') {
        if s[0] == '+' {
            assert(s.skip(1)[i - 1] == s[i]);
            lemma_digits(s.skip(1), i - 1);
        } else {
            lemma_digits(s, i);
        }
    }
}

/// Texts are ordered by the first character in which they differ, and a text comes after what it begins
/// with.
pub proof fn law_texts_are_ordered(
    begin: Seq<char>,
    x: char,
    y: char,
    a: Seq<char>,
    b: Seq<char>,
)
    ensures
        (x as u32) < (y as u32) ==> text_before(begin + seq![x] + a, begin + seq![y] + b),
        (x as u32) > (y as u32) ==> !text_before(begin + seq![x] + a, begin + seq![y] + b),
        text_before(begin, begin + seq![x] + a),
        !text_before(begin + seq![x] + a, begin),
        !text_before(begin, begin),
    decreases begin.len(),
{
    let s = begin + seq![x] + a;
    let t = begin + seq![y] + b;
    if begin.len() > 0 {
        let rest = begin.skip(1);
        law_texts_are_ordered(rest, x, y, a, b);
        assert(s.skip(1) =~= rest + seq![x] + a);
        assert(t.skip(1) =~= rest + seq![y] + b);
        assert(s[0] == begin[0]);
        assert(t[0] == begin[0]);
    } else {
        assert(s[0] == x);
        assert(t[0] == y);
    }
}

// ---------------------------------------------------------------- paths

/// Of the pieces of a path, empty ones and a single dot name nothing; every other one does.
pub proof fn law_which_pieces_name_something(pieces: Seq<Seq<char>>, piece: Seq<char>)
    ensures
        piece.len() == 0 ==> named(pieces.push(piece), true) == named(pieces, true),
        piece == "."@ ==> named(pieces.push(piece), true) == named(pieces, true),
        piece.len() > 0 && piece != "."@ ==> named(pieces.push(piece), true) == named(
            pieces,
            true,
        ).push(piece),
        named(Seq::empty(), true).len() == 0,
{
    assert(pieces.push(piece).drop_last() =~= pieces);
}

/// A path is followed name by name: a dot stays where it is, two dots go up, and not beyond the top.
pub proof fn law_how_a_path_is_followed(names: Seq<Seq<char>>, name: Seq<char>)
    ensures
        folded(Seq::empty()).len() == 0,
        folded(names.push("."@)) == folded(names),
        folded(names.push(".."@)) == (if folded(names).len() == 0 {
            folded(names)
        } else {
            folded(names).drop_last()
        }),
        name != "."@ && name != ".."@ ==> folded(names.push(name)) == folded(names).push(name),
{
    reveal_strlit(".");
    reveal_strlit("..");
    assert("."@.len() != ".."@.len());
    assert(names.push("."@).drop_last() =~= names);
    assert(names.push(".."@).drop_last() =~= names);
    assert(names.push(name).drop_last() =~= names);
}

/// A path has all its names but the last in its parent, and its last as its own.
pub proof fn law_a_path_has_a_parent(path: PathView)
    ensures
        path.names.len() == 0 ==> path.parent() is None && path.file_name() is None,
        path.names.len() > 0 ==> (path.parent() matches Some(parent) && parent.rooted == path.rooted
            && parent.names.push(path.names.last()) == path.names),
        path.names.len() > 0 && path.names.last() != "."@ && path.names.last() != ".."@
            ==> path.file_name() == Some(path.names.last()),
{
    if path.names.len() > 0 {
        assert(path.names.drop_last().push(path.names.last()) =~= path.names);
    }
}

/// A name is put in a directory with one separator between them; a name from the root stands for
/// itself.
pub proof fn law_names_are_put_in_directories(base: Seq<char>, name: Seq<char>)
    requires
        base.len() > 0,
    ensures
        "/"@.is_prefix_of(name) ==> joined(base, name) == name,
        !"/"@.is_prefix_of(name) && base.last() == '/' ==> joined(base, name) == base + name,
        !"/"@.is_prefix_of(name) && base.last() != '/' ==> joined(base, name) == base + "/"@ + name,
{
}

/// Where the files of a boost are.
pub proof fn law_where_a_boost_keeps_its_files(config: Config)
    ensures
        state_path(config) == joined(joined(config.account_store@, "boost"@), "state.json"@),
        lock_path(config) == joined(joined(config.account_store@, "boost"@), "controller.lock"@),
        stop_path(config) == joined(joined(config.account_store@, "boost"@), "stop"@),
        log_path(config) == joined(joined(config.account_store@, "boost"@), "controller.log"@),
{
}

/// A boost begins with nothing done, and with what it was asked for.
pub proof fn law_how_a_boost_is_recorded_first(
    run_id: Seq<char>,
    deadline: i64,
    sockets: Seq<Seq<char>>,
)
    ensures
        ({
            let state = preparing_state(run_id, deadline, sockets);
            &&& state.run_id == run_id
            &&& state.deadline == deadline
            &&& state.sockets == sockets
            &&& state.phase == Phase::Preparing
            &&& !state.activated
            &&& !state.defaults_pending
            &&& state.tasks.len() == 0
            &&& state.errors.len() == 0
            &&& state.reason is None
        }),
{
}

// ---------------------------------------------------------------- values

/// Every value is like itself.
pub proof fn law_values_are_like_themselves(value: JsonView)
    ensures
        alike(value, value),
    decreases value,
{
    match value {
        JsonView::List(items) => {
            assert forall|i: int| 0 <= i < items.len() implies alike(#[trigger] items[i], items[i]) by {
                law_values_are_like_themselves(items[i]);
            }
        },
        JsonView::Object(fields) => {
            assert forall|i: int| 0 <= i < fields.len() implies (#[trigger] fields[i]).0
                == fields[i].0 && alike(fields[i].1, fields[i].1) by {
                law_values_are_like_themselves(fields[i].1);
            }
        },
        _ => {},
    }
}

/// Values that differ anywhere are not alike: in a text, a number or a truth value, in how many items or
/// fields they have, in an item, in the name of a field or in what it holds.
pub proof fn law_values_that_differ_are_not_alike(
    a: Seq<JsonView>,
    b: Seq<JsonView>,
    f: Seq<(Seq<char>, JsonView)>,
    g: Seq<(Seq<char>, JsonView)>,
    i: int,
    s: Seq<char>,
    t: Seq<char>,
    m: int,
    n: int,
)
    ensures
        s != t ==> !alike(JsonView::Text(s), JsonView::Text(t)),
        m != n ==> !alike(JsonView::Integer(m), JsonView::Integer(n)),
        !alike(JsonView::Bool(true), JsonView::Bool(false)),
        !alike(JsonView::Null, JsonView::Text(s)),
        !alike(JsonView::Text(s), JsonView::Integer(n)),
        a.len() != b.len() ==> !alike(JsonView::List(a), JsonView::List(b)),
        a.len() == b.len() && 0 <= i < a.len() && !alike(a[i], b[i]) ==> !alike(
            JsonView::List(a),
            JsonView::List(b),
        ),
        f.len() != g.len() ==> !alike(JsonView::Object(f), JsonView::Object(g)),
        f.len() == g.len() && 0 <= i < f.len() && (f[i].0 != g[i].0 || !alike(f[i].1, g[i].1))
            ==> !alike(JsonView::Object(f), JsonView::Object(g)),
{
}

/// What a value holds is had only as what it is, and a number only where it fits.
pub proof fn law_values_are_had_as_what_they_are(object: JsonView, name: Seq<char>, n: int)
    ensures
        object.get(name) == Some(JsonView::Integer(n)) ==> object.text_at(name) is None
            && object.bool_at(name) is None && object.list_at(name) is None && object.object_at(name)
            is None && object.integer_at(name) == (if n <= 0x7fff_ffff_ffff_ffff {
            Some(n)
        } else {
            None
        }),
        object.get(name) is None ==> object.text_at(name) is None && object.integer_at(name) is None
            && object.number_at(name) is None && object.bool_at(name) is None && object.list_at(name)
            is None && object.object_at(name) is None,
        object.get(name) matches Some(JsonView::Text(text)) ==> object.text_at(name) == Some(text)
            && object.integer_at(name) is None && object.number_at(name) is None,
        object.get(name) matches Some(JsonView::Bool(value)) ==> object.bool_at(name) == Some(value),
{
}

/// A text under two names is under the second in what is under the first.
pub proof fn law_a_text_under_two_names(
    value: JsonView,
    first: Seq<char>,
    second: Seq<char>,
    inner: JsonView,
)
    ensures
        value.get(first) is None ==> text_under(value, first, second) is None,
        value.get(first) == Some(inner) ==> text_under(value, first, second) == inner.text_at(second),
{
}

// ---------------------------------------------------------------- failures

/// What is said of a failure has what is known of it.
pub proof fn law_what_is_said_of_a_failure(path: Seq<char>, detail: Seq<char>)
    ensures
        ErrorView::Message(detail).text() == detail,
        (ErrorView::Io { path, detail }).text() == path + ": "@ + detail,
        (ErrorView::Json { path, detail }).text() == path + ": invalid JSON: "@ + detail,
        ErrorView::InvalidAuth(path).text() == path + " does not hold ChatGPT OAuth credentials."@,
        ErrorView::Protocol(detail).text() == "app-server protocol error: "@ + detail,
        ErrorView::Timeout.kind() == "Timeout"@,
        ErrorView::Protocol(detail).kind() == "Protocol"@,
        (ErrorView::Io { path, detail }).kind() == "Io"@,
        ErrorView::Message(detail).kind() == "Error"@,
{
}

// ---------------------------------------------------------------- files

/// A directory that is not there is made for its user alone; what is there and no directory is refused.
pub proof fn law_directories_are_private(log: Seq<Reply>, path: Seq<char>)
    requires
        log == seq![
            Reply::Kind(FileKind::Missing),
            Reply::Done,
            Reply::Done,
            Reply::Done,
        ],
    ensures
        private_dir_run(log.take(0), 0, path) == Run::<()>::Ask(RequestView::Kind(path)),
        private_dir_run(log.take(1), 0, path) == Run::<()>::Ask(RequestView::CreateDirs(path)),
        private_dir_run(log.take(2), 0, path) == Run::<()>::Ask(
            RequestView::SetMode { path, mode: 0o700 },
        ),
        private_dir_run(log.take(3), 0, path) == Run::<()>::Ask(RequestView::SyncDir(holder(path))),
        private_dir_run(log, 0, path) == Run::Done((), 4),
        private_dir_run(seq![Reply::Kind(FileKind::Directory)], 0, path) == Run::Done((), 1),
        private_dir_run(seq![Reply::Kind(FileKind::Other)], 0, path) is Fail,
{
}

/// A file is written beside its place, in full, made durable and only then put there, with the mode and
/// the bytes that were asked for.
pub proof fn law_how_a_file_is_written(
    log: Seq<Reply>,
    path: Seq<char>,
    parent: PathView,
    bytes: Seq<u8>,
    mode: u32,
)
    requires
        parts_of(path).parent() == Some(parent),
        log == seq![
            Reply::Kind(FileKind::Directory),
            Reply::Done,
            Reply::Done,
            Reply::Done,
            Reply::Done,
            Reply::Done,
        ],
    ensures
        write_run(log.take(0), 0, path, bytes, mode) == Run::<()>::Ask(
            RequestView::Kind(parent.text()),
        ),
        write_run(log.take(1), 0, path, bytes, mode) == Run::<()>::Ask(
            RequestView::CreateTemp {
                directory: parent.text(),
                prefix: ".cxa-atomic-"@,
                mode,
            },
        ),
        write_run(log.take(2), 0, path, bytes, mode) == Run::<()>::Ask(
            RequestView::WriteTemp(bytes),
        ),
        write_run(log.take(3), 0, path, bytes, mode) == Run::<()>::Ask(RequestView::SyncTemp),
        write_run(log.take(4), 0, path, bytes, mode) == Run::<()>::Ask(
            RequestView::PersistTemp(path),
        ),
        write_run(log.take(5), 0, path, bytes, mode) == Run::<()>::Ask(
            RequestView::SyncDir(holder(path)),
        ),
        write_run(log, 0, path, bytes, mode) == Run::Done((), 6),
{
}

/// A copy has the bytes of what it was made from; one that may not replace anything is put in its place
/// only where nothing is, and tells whether it was.
pub proof fn law_a_copy_has_the_same_bytes(
    log: Seq<Reply>,
    source: Seq<char>,
    target: Seq<char>,
    parent: PathView,
    bytes: Vec<u8>,
    mode: u32,
    moved: bool,
)
    requires
        parts_of(target).parent() == Some(parent),
        log == seq![
            Reply::Bytes(bytes),
            Reply::Kind(FileKind::Directory),
            Reply::Done,
            Reply::Done,
            Reply::Done,
            Reply::Flag(moved),
            Reply::Done,
        ],
    ensures
        copy_run(log.take(0), 0, source, target, mode) == Run::<()>::Ask(
            RequestView::ReadBytes(source),
        ),
        copy_run(log.take(3), 0, source, target, mode) == Run::<()>::Ask(
            RequestView::WriteTemp(bytes@),
        ),
        copy_run(log.take(5), 0, source, target, mode) == Run::<()>::Ask(
            RequestView::PersistTemp(target),
        ),
        copy_if_absent_run(log.take(3), 0, source, target, mode) == Run::<bool>::Ask(
            RequestView::WriteTemp(bytes@),
        ),
        copy_if_absent_run(log.take(5), 0, source, target, mode) == Run::<bool>::Ask(
            RequestView::PersistTempIfAbsent(target),
        ),
        moved ==> copy_if_absent_run(log, 0, source, target, mode) == Run::Done(true, 7),
        !moved ==> copy_if_absent_run(log, 0, source, target, mode) == Run::Done(false, 6),
{
}

/// A link is made only where nothing is, and tells whether it was; removing what is not there is no
/// failure.
pub proof fn law_links_and_removals(
    log: Seq<Reply>,
    at: nat,
    source: Seq<char>,
    target: Seq<char>,
)
    ensures
        log.len() == at ==> link_if_absent_run(log, at, source, target) == Run::<bool>::Ask(
            RequestView::HardLink { from: source, to: target },
        ),
        log.len() > at && log[at as int] == Reply::Flag(false) ==> link_if_absent_run(
            log,
            at,
            source,
            target,
        ) == Run::Done(false, at + 1),
        log.len() == at + 1 && log[at as int] == Reply::Flag(true) ==> link_if_absent_run(
            log,
            at,
            source,
            target,
        ) == Run::<bool>::Ask(RequestView::SyncDir(holder(target))),
        log.len() == at ==> remove_run(log, at, source) == Run::<()>::Ask(
            RequestView::Unlink(source),
        ),
        log.len() > at && (log[at as int] is Done || log[at as int] is Missing) ==> remove_run(
            log,
            at,
            source,
        ) == Run::Done((), at + 1),
        log.len() > at && log[at as int] is Failed ==> remove_run(log, at, source) is Fail,
{
}

// ---------------------------------------------------------------- replies

/// What is asked for is what is replied: nothing is asked for twice, and a failure stands as it is.
pub proof fn law_what_replies_come_to(
    log: Seq<Reply>,
    at: nat,
    path: Seq<char>,
    request: RequestView,
    error: Error,
)
    requires
        log.len() > at,
        log[at as int] == Reply::Failed(error),
    ensures
        done_run(log, at, request) == Run::<()>::Fail(error@, at + 1),
        flag_run(log, at, request) == Run::<bool>::Fail(error@, at + 1),
        time_run(log, at, request) == Run::<i64>::Fail(error@, at + 1),
        answer_run(log, at, request) == Run::<Seq<char>>::Fail(error@, at + 1),
        clock_run(log, at) == Run::<u64>::Fail(error@, at + 1),
        auth_run(log, at, path) == Run::<AuthDocument>::Fail(error@, at + 1),
        auth_if_valid_run(log, at, path) == Run::Done(None::<AuthDocument>, at + 1),
        text_run(log, at, path) == Run::Done(None::<String>, at + 1),
        entry_run(log, at, path) == Run::<EntryKind>::Fail(error@, at + 1),
        contents_run(log, at, path) == Run::<Seq<char>>::Fail(error@, at + 1),
{
}

/// What is had of a reply is what it holds.
pub proof fn law_what_replies_hold(
    log: Seq<Reply>,
    at: nat,
    path: Seq<char>,
    request: RequestView,
    document: AuthDocument,
    text: String,
    flag: bool,
    time: i64,
    number: u64,
    kind: EntryKind,
)
    requires
        log.len() > at,
    ensures
        log[at as int] == Reply::Done ==> done_run(log, at, request) == Run::Done((), at + 1),
        log[at as int] == Reply::Flag(flag) ==> flag_run(log, at, request) == Run::Done(
            flag,
            at + 1,
        ),
        log[at as int] == Reply::Time(time) ==> time_run(log, at, request) == Run::Done(
            time,
            at + 1,
        ),
        log[at as int] == Reply::Number(number) ==> clock_run(log, at) == Run::Done(number, at + 1),
        log[at as int] == Reply::Auth(document) ==> auth_run(log, at, path) == Run::Done(
            document,
            at + 1,
        ) && auth_if_valid_run(log, at, path) == Run::Done(Some(document), at + 1),
        log[at as int] == Reply::Text(text) ==> text_run(log, at, path) == Run::Done(
            Some(text),
            at + 1,
        ) && contents_run(log, at, path) == Run::Done(text@, at + 1) && answer_run(log, at, request)
            == Run::Done(text@, at + 1),
        log[at as int] == Reply::Missing ==> text_run(log, at, path) == Run::Done(
            None::<String>,
            at + 1,
        ) && contents_run(log, at, path) is Fail,
        log[at as int] == Reply::Entry(kind) ==> entry_run(log, at, path) == Run::Done(kind, at + 1),
{
}

/// What has no reply yet is asked for: each under its own request.
pub proof fn law_what_is_asked_for(log: Seq<Reply>, at: nat, path: Seq<char>, request: RequestView)
    requires
        log.len() == at,
    ensures
        done_run(log, at, request) == Run::<()>::Ask(request),
        flag_run(log, at, request) == Run::<bool>::Ask(request),
        time_run(log, at, request) == Run::<i64>::Ask(request),
        answer_run(log, at, request) == Run::<Seq<char>>::Ask(request),
        clock_run(log, at) == Run::<u64>::Ask(RequestView::Instant),
        auth_run(log, at, path) == Run::<AuthDocument>::Ask(RequestView::ReadAuth(path)),
        text_run(log, at, path) == Run::<Option<String>>::Ask(RequestView::ReadText(path)),
        contents_run(log, at, path) == Run::<Seq<char>>::Ask(RequestView::ReadText(path)),
        entry_run(log, at, path) == Run::<EntryKind>::Ask(RequestView::Entry(path)),
        names_run(log, at, path) == Run::<Option<Vec<String>>>::Ask(RequestView::Names(path)),
        profiles_run(log, at) == Run::<Vec<Profile>>::Ask(RequestView::Profiles),
{
}

}
