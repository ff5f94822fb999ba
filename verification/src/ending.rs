//! Rules for what a procedure leaves on a disk where it comes to its end, whether or not it could
//! have failed on the way.
use crate::auth::AuthDocument;
use crate::config::Config;
use crate::course::{followed, steady};
use crate::effects::{auth_run, done_run, flag_run, mismatch, Reply, RequestView, Run};
use crate::recovery::{fits, DiskView};
use crate::steady::agree;
use vstd::prelude::*;

verus! {

/// Whether a procedure that begins on one of the disks `begin`, is answered as they are and comes to
/// its end, leaves the disk as it should be.
#[verifier::opaque]
pub open spec fn ends<T>(
    c: Config,
    p: spec_fn(Seq<Reply>, nat) -> Run<T>,
    begin: spec_fn(DiskView) -> bool,
    end: spec_fn(T, DiskView) -> bool,
) -> bool {
    forall|log: Seq<Reply>, disks: Seq<DiskView>, at: nat|
        #[trigger] followed(c, p, log, disks, at) && begin(disks[at as int]) ==> (p(log, at) matches
            Run::Done(value, n) ==> at <= n < disks.len() && end(value, disks[n as int]))
}

/// One procedure after another.
pub(crate) proof fn lemma_ends_bind<T, U>(
    c: Config,
    a: spec_fn(Seq<Reply>, nat) -> Run<T>,
    b: spec_fn(T) -> spec_fn(Seq<Reply>, nat) -> Run<U>,
    p: spec_fn(Seq<Reply>, nat) -> Run<U>,
    begin: spec_fn(DiskView) -> bool,
    between: spec_fn(T, DiskView) -> bool,
    end: spec_fn(U, DiskView) -> bool,
)
    requires
        steady(a),
        ends(c, a, begin, between),
        forall|v: T| ends(c, #[trigger] b(v), |d: DiskView| between(v, d), end),
        forall|l: Seq<Reply>, n: nat| #[trigger]
            p(l, n) == a(l, n).bind(|v: T, k: nat| b(v)(l, k)),
    ensures
        ends(c, p, begin, end),
{
    reveal(ends);
    reveal(steady);
    assert forall|log: Seq<Reply>, disks: Seq<DiskView>, at: nat| #[trigger]
        followed(c, p, log, disks, at) && begin(disks[at as int]) implies (p(log, at) matches
        Run::Done(value, n) ==> at <= n < disks.len() && end(value, disks[n as int])) by {
        assert forall|i: int| at <= i < log.len() implies (a(#[trigger] log.take(i), at) matches
            Run::Ask(request) ==> fits(c, disks[i], request, log[i], disks[i + 1])) by {
            let asked = p(log.take(i), at);
        }
        assert(followed(c, a, log, disks, at));
        if let Run::Done(v, m) = a(log, at) {
            assert forall|i: int| m <= i < log.len() implies (b(v)(
                #[trigger] log.take(i),
                m,
            ) matches Run::Ask(request) ==> fits(c, disks[i], request, log[i], disks[i + 1])) by {
                assert(agree(a(log, at), a(log.take(i), at), at, i as nat, log.len()));
                let asked = p(log.take(i), at);
            }
            assert(followed(c, b(v), log, disks, m));
            assert(ends(c, b(v), |d: DiskView| between(v, d), end));
        }
    }
}

/// One procedure after another whose result does not matter.
pub(crate) proof fn lemma_ends_next<T, U>(
    c: Config,
    a: spec_fn(Seq<Reply>, nat) -> Run<T>,
    b: spec_fn(Seq<Reply>, nat) -> Run<U>,
    p: spec_fn(Seq<Reply>, nat) -> Run<U>,
    begin: spec_fn(DiskView) -> bool,
    between: spec_fn(DiskView) -> bool,
    end: spec_fn(U, DiskView) -> bool,
)
    requires
        steady(a),
        ends(c, a, begin, |v: T, d: DiskView| between(d)),
        ends(c, b, between, end),
        forall|l: Seq<Reply>, n: nat| #[trigger] p(l, n) == a(l, n).next(|k: nat| b(l, k)),
    ensures
        ends(c, p, begin, end),
{
    let after = |v: T| b;
    let known = |v: T, d: DiskView| between(d);
    assert forall|v: T| ends(c, #[trigger] after(v), |d: DiskView| known(v, d), end) by {
        lemma_ends_as(c, b, after(v), between, |d: DiskView| known(v, d), end, end);
    }
    lemma_ends_bind(c, a, after, p, begin, known, end);
}

/// A procedure that asks for whatever another one asks for, and has its end where it has one.
pub(crate) proof fn lemma_ends_as<T>(
    c: Config,
    q: spec_fn(Seq<Reply>, nat) -> Run<T>,
    p: spec_fn(Seq<Reply>, nat) -> Run<T>,
    wide: spec_fn(DiskView) -> bool,
    begin: spec_fn(DiskView) -> bool,
    strong: spec_fn(T, DiskView) -> bool,
    end: spec_fn(T, DiskView) -> bool,
)
    requires
        ends(c, q, wide, strong),
        forall|l: Seq<Reply>, n: nat| #[trigger] p(l, n) == q(l, n) || (q(l, n) is Fail && !(p(l, n)
            is Done)),
        forall|d: DiskView| #[trigger] begin(d) ==> wide(d),
        forall|v: T, d: DiskView| #[trigger] strong(v, d) ==> end(v, d),
    ensures
        ends(c, p, begin, end),
{
    reveal(ends);
    assert forall|log: Seq<Reply>, disks: Seq<DiskView>, at: nat| #[trigger]
        followed(c, p, log, disks, at) && begin(disks[at as int]) implies (p(log, at) matches
        Run::Done(value, n) ==> at <= n < disks.len() && end(value, disks[n as int])) by {
        assert forall|i: int| at <= i < log.len() implies (q(#[trigger] log.take(i), at) matches
            Run::Ask(request) ==> fits(c, disks[i], request, log[i], disks[i + 1])) by {
            let asked = p(log.take(i), at);
        }
        assert(followed(c, q, log, disks, at));
        let value = p(log, at);
    }
}

/// A procedure without an end.
pub(crate) proof fn lemma_ends_never<T>(
    c: Config,
    p: spec_fn(Seq<Reply>, nat) -> Run<T>,
    begin: spec_fn(DiskView) -> bool,
    end: spec_fn(T, DiskView) -> bool,
)
    requires
        (forall|l: Seq<Reply>, n: nat| !(#[trigger] p(l, n) is Done)) || (forall|d: DiskView|
            !#[trigger] begin(d)),
    ensures
        ends(c, p, begin, end),
{
    reveal(ends);
}

/// A procedure that has its end at once.
pub(crate) proof fn lemma_ends_at_once<T>(
    c: Config,
    value: T,
    p: spec_fn(Seq<Reply>, nat) -> Run<T>,
    begin: spec_fn(DiskView) -> bool,
    end: spec_fn(T, DiskView) -> bool,
)
    requires
        forall|l: Seq<Reply>, n: nat| #[trigger] p(l, n) == Run::Done(value, n),
        forall|d: DiskView| #[trigger] begin(d) ==> end(value, d),
    ensures
        ends(c, p, begin, end),
        steady(p),
{
    reveal(ends);
    reveal(steady);
}

/// A procedure of one request.
pub(crate) proof fn lemma_ends_request<T>(
    c: Config,
    request: RequestView,
    after: spec_fn(Reply, nat) -> Run<T>,
    p: spec_fn(Seq<Reply>, nat) -> Run<T>,
    begin: spec_fn(DiskView) -> bool,
    end: spec_fn(T, DiskView) -> bool,
)
    requires
        forall|l: Seq<Reply>, n: nat| #[trigger]
            p(l, n) == if n < l.len() {
                after(l[n as int], n + 1)
            } else {
                Run::Ask(request)
            },
        forall|reply: Reply, n: nat|
            match #[trigger] after(reply, n) {
                Run::Done(_, m) => m == n,
                Run::Fail(_, m) => m == n,
                Run::Ask(_) => false,
            },
        forall|d: DiskView, reply: Reply, e: DiskView, n: nat|
            begin(d) && #[trigger] fits(c, d, request, reply, e) ==> (#[trigger] after(
                reply,
                n,
            ) matches Run::Done(value, m) ==> end(value, e)),
    ensures
        ends(c, p, begin, end),
        steady(p),
{
    reveal(ends);
    reveal(steady);
    assert forall|log: Seq<Reply>, disks: Seq<DiskView>, at: nat| #[trigger]
        followed(c, p, log, disks, at) && begin(disks[at as int]) implies (p(log, at) matches
        Run::Done(value, n) ==> at <= n < disks.len() && end(value, disks[n as int])) by {
        if at < log.len() {
            assert(p(log.take(at as int), at) == Run::<T>::Ask(request));
            assert(fits(c, disks[at as int], request, log[at as int], disks[at as int + 1]));
            let come = after(log[at as int], at + 1);
        }
    }
    assert forall|log: Seq<Reply>, at: nat, k: nat|
        at <= log.len() && k <= log.len() implies agree(
        #[trigger] p(log, at),
        #[trigger] p(log.take(k as int), at),
        at,
        k,
        log.len(),
    ) by {
        if at < log.len() {
            let come = after(log[at as int], at + 1);
        }
    }
}

/// A request that is answered with yes or no.
pub(crate) proof fn lemma_ends_flag(
    c: Config,
    request: RequestView,
    begin: spec_fn(DiskView) -> bool,
    end: spec_fn(bool, DiskView) -> bool,
)
    requires
        forall|d: DiskView, answer: bool, e: DiskView|
            begin(d) && #[trigger] fits(c, d, request, Reply::Flag(answer), e) ==> end(answer, e),
    ensures
        ends(c, |l: Seq<Reply>, n: nat| flag_run(l, n, request), begin, end),
        steady(|l: Seq<Reply>, n: nat| flag_run(l, n, request)),
{
    let after = |reply: Reply, n: nat|
        match reply {
            Reply::Flag(answer) => Run::Done(answer, n),
            Reply::Failed(error) => Run::Fail(error@, n),
            _ => Run::Fail(mismatch(), n),
        };
    lemma_ends_request(
        c,
        request,
        after,
        |l: Seq<Reply>, n: nat| flag_run(l, n, request),
        begin,
        end,
    );
}

/// A request that is carried out.
pub(crate) proof fn lemma_ends_done(
    c: Config,
    request: RequestView,
    begin: spec_fn(DiskView) -> bool,
    end: spec_fn(DiskView) -> bool,
)
    requires
        forall|d: DiskView, e: DiskView|
            begin(d) && #[trigger] fits(c, d, request, Reply::Done, e) ==> end(e),
    ensures
        ends(
            c,
            |l: Seq<Reply>, n: nat| done_run(l, n, request),
            begin,
            |v: (), d: DiskView| end(d),
        ),
        steady(|l: Seq<Reply>, n: nat| done_run(l, n, request)),
{
    let after = |reply: Reply, n: nat|
        match reply {
            Reply::Done => Run::Done((), n),
            Reply::Failed(error) => Run::Fail(error@, n),
            _ => Run::Fail(mismatch(), n),
        };
    lemma_ends_request(
        c,
        request,
        after,
        |l: Seq<Reply>, n: nat| done_run(l, n, request),
        begin,
        |v: (), d: DiskView| end(d),
    );
}

/// Reading credentials.
pub(crate) proof fn lemma_ends_auth(
    c: Config,
    path: Seq<char>,
    begin: spec_fn(DiskView) -> bool,
)
    ensures
        ends(
            c,
            |l: Seq<Reply>, n: nat| auth_run(l, n, path),
            begin,
            |found: AuthDocument, d: DiskView|
                begin(d) && d.has(path) && d.auths[path] == found@,
        ),
        steady(|l: Seq<Reply>, n: nat| auth_run(l, n, path)),
{
    let after = |reply: Reply, n: nat|
        match reply {
            Reply::Auth(document) => Run::Done(document, n),
            Reply::Failed(error) => Run::Fail(error@, n),
            _ => Run::Fail(mismatch(), n),
        };
    lemma_ends_request(
        c,
        RequestView::ReadAuth(path),
        after,
        |l: Seq<Reply>, n: nat| auth_run(l, n, path),
        begin,
        |found: AuthDocument, d: DiskView| begin(d) && d.has(path) && d.auths[path] == found@,
    );
}

/// A procedure none of whose requests changes what holds of the disk.
pub(crate) proof fn lemma_ends_kept<T>(
    c: Config,
    p: spec_fn(Seq<Reply>, nat) -> Run<T>,
    allowed: spec_fn(RequestView) -> bool,
    kept: spec_fn(DiskView) -> bool,
)
    requires
        steady(p),
        forall|l: Seq<Reply>, n: nat|
            (#[trigger] p(l, n) matches Run::Ask(request) ==> allowed(request)),
        forall|d: DiskView, request: RequestView, reply: Reply, e: DiskView|
            kept(d) && allowed(request) && #[trigger] fits(c, d, request, reply, e) ==> kept(e),
    ensures
        ends(c, p, kept, |v: T, d: DiskView| kept(d)),
{
    reveal(ends);
    assert forall|log: Seq<Reply>, disks: Seq<DiskView>, at: nat| #[trigger]
        followed(c, p, log, disks, at) && kept(disks[at as int]) implies (p(log, at) matches
        Run::Done(value, n) ==> at <= n < disks.len() && kept(disks[n as int])) by {
        if let Run::Done(value, n) = p(log, at) {
            reveal(steady);
            assert(agree(p(log, at), p(log.take(log.len() as int), at), at, log.len(), log.len()));
            lemma_kept_until(c, p, allowed, kept, log, disks, at, n, n);
        }
    }
}

proof fn lemma_kept_until<T>(
    c: Config,
    p: spec_fn(Seq<Reply>, nat) -> Run<T>,
    allowed: spec_fn(RequestView) -> bool,
    kept: spec_fn(DiskView) -> bool,
    log: Seq<Reply>,
    disks: Seq<DiskView>,
    at: nat,
    n: nat,
    i: nat,
)
    requires
        steady(p),
        forall|l: Seq<Reply>, n: nat|
            (#[trigger] p(l, n) matches Run::Ask(request) ==> allowed(request)),
        forall|d: DiskView, request: RequestView, reply: Reply, e: DiskView|
            kept(d) && allowed(request) && #[trigger] fits(c, d, request, reply, e) ==> kept(e),
        followed(c, p, log, disks, at),
        kept(disks[at as int]),
        p(log, at) matches Run::Done(_, m) && m == n,
        at <= i <= n <= log.len(),
    ensures
        kept(disks[i as int]),
    decreases i,
{
    if i > at {
        let k = (i - 1) as nat;
        lemma_kept_until(c, p, allowed, kept, log, disks, at, n, k);
        reveal(steady);
        assert(agree(p(log, at), p(log.take(k as int), at), at, k, log.len()));
        if let Run::Ask(request) = p(log.take(k as int), at) {
            assert(fits(c, disks[k as int], request, log[k as int], disks[k as int + 1]));
        }
    }
}

/// What a procedure that was followed to its end has left on the last disk.
pub(crate) proof fn lemma_ended<T>(
    c: Config,
    p: spec_fn(Seq<Reply>, nat) -> Run<T>,
    begin: spec_fn(DiskView) -> bool,
    end: spec_fn(T, DiskView) -> bool,
    log: Seq<Reply>,
    disks: Seq<DiskView>,
)
    requires
        ends(c, p, begin, end),
        steady(p),
        disks.len() == log.len() + 1,
        forall|i: int|
            0 <= i < log.len() ==> (p(#[trigger] log.take(i), 0) matches Run::Ask(request) && fits(
                c,
                disks[i],
                request,
                log[i],
                disks[i + 1],
            )),
        begin(disks[0]),
    ensures
        p(log, 0) matches Run::Done(value, _) ==> end(value, disks.last()),
{
    reveal(ends);
    reveal(steady);
    assert(followed(c, p, log, disks, 0));
    if let Run::Done(value, n) = p(log, 0) {
        if n < log.len() {
            assert(agree(p(log, 0), p(log.take(n as int), 0), 0, n, log.len()));
        }
    }
}

/// A question whose answer is known, and what follows that answer.
pub(crate) proof fn lemma_ends_expected<T>(
    c: Config,
    request: RequestView,
    answer: bool,
    q: spec_fn(Seq<Reply>, nat) -> Run<T>,
    b: spec_fn(bool) -> spec_fn(Seq<Reply>, nat) -> Run<T>,
    p: spec_fn(Seq<Reply>, nat) -> Run<T>,
    begin: spec_fn(DiskView) -> bool,
    between: spec_fn(DiskView) -> bool,
    end: spec_fn(T, DiskView) -> bool,
)
    requires
        forall|d: DiskView, v: bool, e: DiskView|
            begin(d) && #[trigger] fits(c, d, request, Reply::Flag(v), e) ==> v == answer
                && between(e),
        ends(c, q, between, end),
        forall|l: Seq<Reply>, n: nat| #[trigger] b(answer)(l, n) == q(l, n),
        forall|l: Seq<Reply>, n: nat| #[trigger]
            p(l, n) == flag_run(l, n, request).bind(|v: bool, k: nat| b(v)(l, k)),
    ensures
        ends(c, p, begin, end),
{
    let known = |v: bool, d: DiskView| v == answer && between(d);
    lemma_ends_flag(c, request, begin, known);
    assert forall|v: bool| ends(c, #[trigger] b(v), |d: DiskView| known(v, d), end) by {
        let start = |d: DiskView| known(v, d);
        if v == answer {
            lemma_ends_as(c, q, b(v), between, start, end, end);
        } else {
            lemma_ends_never(c, b(v), start, end);
        }
    }
    lemma_ends_bind(
        c,
        |l: Seq<Reply>, n: nat| flag_run(l, n, request),
        b,
        p,
        begin,
        known,
        end,
    );
}

}
