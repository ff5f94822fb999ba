//! Rules for following a procedure on a disk: what holds of every disk on its way, and of the one
//! that it ends with.
use crate::auth::{AuthDocument, AuthView};
use crate::config::Config;
use crate::effects::{auth_run, done_run, flag_run, mismatch, Reply, RequestView, Run};
use crate::recovery::{fits, DiskView};
use crate::steady::agree;
use vstd::prelude::*;

verus! {

/// Whether a procedure is settled by the replies that it was given.
#[verifier::opaque]
pub open spec fn steady<T>(p: spec_fn(Seq<Reply>, nat) -> Run<T>) -> bool {
    forall|log: Seq<Reply>, at: nat, k: nat|
        at <= log.len() && k <= log.len() ==> agree(
            #[trigger] p(log, at),
            #[trigger] p(log.take(k as int), at),
            at,
            k,
            log.len(),
        )
}

/// Whether a procedure does not fail, every disk on its way is fine, and the one that it ends with
/// is what it should be.
pub open spec fn comes_to<T>(
    run: Run<T>,
    disks: Seq<DiskView>,
    at: nat,
    fine: spec_fn(DiskView) -> bool,
    end: spec_fn(T, DiskView) -> bool,
) -> bool {
    match run {
        Run::Done(value, n) => {
            &&& at <= n < disks.len()
            &&& forall|i: int| at <= i <= n ==> fine(#[trigger] disks[i])
            &&& end(value, disks[n as int])
        },
        Run::Fail(_, _) => false,
        Run::Ask(_) => forall|i: int| at <= i < disks.len() ==> fine(#[trigger] disks[i]),
    }
}

/// Whether a procedure that begins on one of the disks `begin`, and is answered as they are, goes
/// over fine disks only, does not fail, and ends as it should.
#[verifier::opaque]
pub open spec fn works<T>(
    c: Config,
    p: spec_fn(Seq<Reply>, nat) -> Run<T>,
    begin: spec_fn(DiskView) -> bool,
    fine: spec_fn(DiskView) -> bool,
    end: spec_fn(T, DiskView) -> bool,
) -> bool {
    forall|log: Seq<Reply>, disks: Seq<DiskView>, at: nat|
        #[trigger] followed(c, p, log, disks, at) && begin(disks[at as int]) ==> comes_to(
            p(log, at),
            disks,
            at,
            fine,
            end,
        )
}

/// Whether a procedure is answered as the disks are.
pub open spec fn followed<T>(
    c: Config,
    p: spec_fn(Seq<Reply>, nat) -> Run<T>,
    log: Seq<Reply>,
    disks: Seq<DiskView>,
    at: nat,
) -> bool {
    &&& at <= log.len()
    &&& disks.len() == log.len() + 1
    &&& forall|i: int|
        at <= i < log.len() ==> (p(#[trigger] log.take(i), at) matches Run::Ask(request) ==> fits(
            c,
            disks[i],
            request,
            log[i],
            disks[i + 1],
        ))
}

/// One procedure after another.
pub proof fn lemma_bind<T, U>(
    c: Config,
    a: spec_fn(Seq<Reply>, nat) -> Run<T>,
    b: spec_fn(T) -> spec_fn(Seq<Reply>, nat) -> Run<U>,
    p: spec_fn(Seq<Reply>, nat) -> Run<U>,
    begin: spec_fn(DiskView) -> bool,
    fine: spec_fn(DiskView) -> bool,
    between: spec_fn(T, DiskView) -> bool,
    end: spec_fn(U, DiskView) -> bool,
)
    requires
        steady(a),
        works(c, a, begin, fine, between),
        forall|v: T| works(c, #[trigger] b(v), |d: DiskView| between(v, d), fine, end),
        forall|l: Seq<Reply>, n: nat| #[trigger]
            p(l, n) == a(l, n).bind(|v: T, k: nat| b(v)(l, k)),
    ensures
        works(c, p, begin, fine, end),
{
    reveal(works);
    reveal(steady);
    assert forall|log: Seq<Reply>, disks: Seq<DiskView>, at: nat| #[trigger]
        followed(c, p, log, disks, at) && begin(disks[at as int]) implies comes_to(
        p(log, at),
        disks,
        at,
        fine,
        end,
    ) by {
        assert forall|i: int| at <= i < log.len() implies (a(#[trigger] log.take(i), at) matches Run::Ask(
            request,
        ) ==> fits(c, disks[i], request, log[i], disks[i + 1])) by {
            let asked = p(log.take(i), at);
        }
        assert(followed(c, a, log, disks, at));
        if let Run::Done(v, m) = a(log, at) {
            assert forall|i: int| m <= i < log.len() implies (b(v)(#[trigger] log.take(i), m) matches Run::Ask(
                request,
            ) ==> fits(c, disks[i], request, log[i], disks[i + 1])) by {
                assert(agree(a(log, at), a(log.take(i), at), at, i as nat, log.len()));
                let asked = p(log.take(i), at);
            }
            assert(followed(c, b(v), log, disks, m));
            let start = |d: DiskView| between(v, d);
            assert(start(disks[m as int]));
        }
    }
}

/// One procedure after another that has no result.
pub proof fn lemma_next<T, U>(
    c: Config,
    a: spec_fn(Seq<Reply>, nat) -> Run<T>,
    b: spec_fn(Seq<Reply>, nat) -> Run<U>,
    p: spec_fn(Seq<Reply>, nat) -> Run<U>,
    begin: spec_fn(DiskView) -> bool,
    fine: spec_fn(DiskView) -> bool,
    between: spec_fn(DiskView) -> bool,
    end: spec_fn(U, DiskView) -> bool,
)
    requires
        steady(a),
        works(c, a, begin, fine, |v: T, d: DiskView| between(d)),
        works(c, b, between, fine, end),
        forall|l: Seq<Reply>, n: nat| #[trigger] p(l, n) == a(l, n).next(|k: nat| b(l, k)),
    ensures
        works(c, p, begin, fine, end),
{
    let then_b = |v: T| b;
    assert forall|v: T| works(
        c,
        #[trigger] then_b(v),
        |d: DiskView| (|v: T, d: DiskView| between(d))(v, d),
        fine,
        end,
    ) by {
        lemma_instead(
            c,
            b,
            b,
            between,
            |d: DiskView| (|v: T, d: DiskView| between(d))(v, d),
            fine,
            end,
            end,
        );
    }
    lemma_bind(c, a, then_b, p, begin, fine, |v: T, d: DiskView| between(d), end);
}

/// One settled procedure after another is settled.
pub proof fn lemma_steady_bind<T, U>(
    a: spec_fn(Seq<Reply>, nat) -> Run<T>,
    b: spec_fn(T) -> spec_fn(Seq<Reply>, nat) -> Run<U>,
    p: spec_fn(Seq<Reply>, nat) -> Run<U>,
)
    requires
        steady(a),
        forall|v: T| steady(#[trigger] b(v)),
        forall|l: Seq<Reply>, n: nat| #[trigger]
            p(l, n) == a(l, n).bind(|v: T, k: nat| b(v)(l, k)),
    ensures
        steady(p),
{
    reveal(steady);
    assert forall|log: Seq<Reply>, at: nat, k: nat|
        at <= log.len() && k <= log.len() implies agree(
        #[trigger] p(log, at),
        #[trigger] p(log.take(k as int), at),
        at,
        k,
        log.len(),
    ) by {
        assert(agree(a(log, at), a(log.take(k as int), at), at, k, log.len()));
        if let Run::Done(v, n) = a(log, at) {
            assert(steady(b(v)));
            assert(agree(b(v)(log, n), b(v)(log.take(k as int), n), n, k, log.len()));
        }
    }
}

/// One settled procedure after another that has no result is settled.
pub proof fn lemma_steady_next<T, U>(
    a: spec_fn(Seq<Reply>, nat) -> Run<T>,
    b: spec_fn(Seq<Reply>, nat) -> Run<U>,
    p: spec_fn(Seq<Reply>, nat) -> Run<U>,
)
    requires
        steady(a),
        steady(b),
        forall|l: Seq<Reply>, n: nat| #[trigger] p(l, n) == a(l, n).next(|k: nat| b(l, k)),
    ensures
        steady(p),
{
    let after = |v: T| b;
    lemma_steady_bind(a, after, p);
}

/// A procedure that comes to the same where that does not fail, on fewer disks and to a weaker end.
pub proof fn lemma_instead<T>(
    c: Config,
    q: spec_fn(Seq<Reply>, nat) -> Run<T>,
    p: spec_fn(Seq<Reply>, nat) -> Run<T>,
    wide: spec_fn(DiskView) -> bool,
    begin: spec_fn(DiskView) -> bool,
    fine: spec_fn(DiskView) -> bool,
    strong: spec_fn(T, DiskView) -> bool,
    end: spec_fn(T, DiskView) -> bool,
)
    requires
        works(c, q, wide, fine, strong),
        forall|l: Seq<Reply>, n: nat| (#[trigger] p(l, n)) == q(l, n) || q(l, n) is Fail,
        forall|d: DiskView| #[trigger] begin(d) ==> wide(d),
        forall|v: T, d: DiskView| #[trigger] strong(v, d) ==> end(v, d),
    ensures
        works(c, p, begin, fine, end),
{
    reveal(works);
    assert forall|log: Seq<Reply>, disks: Seq<DiskView>, at: nat| #[trigger]
        followed(c, p, log, disks, at) && begin(disks[at as int]) implies comes_to(
        p(log, at),
        disks,
        at,
        fine,
        end,
    ) by {
        assert forall|i: int| at <= i < log.len() implies (q(#[trigger] log.take(i), at) matches Run::Ask(
            request,
        ) ==> fits(c, disks[i], request, log[i], disks[i + 1])) by {
            let asked = p(log.take(i), at);
        }
        assert(followed(c, q, log, disks, at));
        let result = p(log, at);
    }
}

/// A procedure whose disks are fine in a wider sense.
pub proof fn lemma_wider<T>(
    c: Config,
    p: spec_fn(Seq<Reply>, nat) -> Run<T>,
    begin: spec_fn(DiskView) -> bool,
    narrow: spec_fn(DiskView) -> bool,
    fine: spec_fn(DiskView) -> bool,
    end: spec_fn(T, DiskView) -> bool,
)
    requires
        works(c, p, begin, narrow, end),
        forall|d: DiskView| #[trigger] narrow(d) ==> fine(d),
    ensures
        works(c, p, begin, fine, end),
{
    reveal(works);
    assert forall|log: Seq<Reply>, disks: Seq<DiskView>, at: nat| #[trigger]
        followed(c, p, log, disks, at) && begin(disks[at as int]) implies comes_to(
        p(log, at),
        disks,
        at,
        fine,
        end,
    ) by {
        assert(comes_to(p(log, at), disks, at, narrow, end));
        match p(log, at) {
            Run::Done(value, n) => {
                assert forall|i: int| at <= i <= n implies fine(#[trigger] disks[i]) by {
                    assert(narrow(disks[i]));
                }
            },
            _ => {
                assert forall|i: int| at <= i < disks.len() implies fine(#[trigger] disks[i]) by {
                    assert(narrow(disks[i]));
                }
            },
        }
    }
}

/// What a procedure that was followed to the last reply comes to.
pub proof fn lemma_comes_to<T>(
    c: Config,
    p: spec_fn(Seq<Reply>, nat) -> Run<T>,
    begin: spec_fn(DiskView) -> bool,
    fine: spec_fn(DiskView) -> bool,
    end: spec_fn(T, DiskView) -> bool,
    log: Seq<Reply>,
    disks: Seq<DiskView>,
)
    requires
        works(c, p, begin, fine, end),
        steady(p),
        disks.len() == log.len() + 1,
        forall|i: int|
            0 <= i < log.len() ==> (p(#[trigger] log.take(i), 0) matches Run::Ask(request) && fits(
                c,
                disks[i],
                request,
                log[i],
                disks[i + 1],
            )),
        begin(disks[0]),
    ensures
        forall|i: int| 0 <= i < disks.len() ==> fine(#[trigger] disks[i]),
        !(p(log, 0) is Fail),
        p(log, 0) matches Run::Done(value, _) ==> end(value, disks.last()),
{
    reveal(works);
    reveal(steady);
    assert(followed(c, p, log, disks, 0));
    if let Run::Done(value, n) = p(log, 0) {
        if n < log.len() {
            assert(agree(p(log, 0), p(log.take(n as int), 0), 0, n, log.len()));
        }
    }
}

/// A procedure that never begins.
pub proof fn lemma_never<T>(
    c: Config,
    p: spec_fn(Seq<Reply>, nat) -> Run<T>,
    begin: spec_fn(DiskView) -> bool,
    fine: spec_fn(DiskView) -> bool,
    end: spec_fn(T, DiskView) -> bool,
)
    requires
        forall|d: DiskView| !#[trigger] begin(d),
    ensures
        works(c, p, begin, fine, end),
{
    reveal(works);
}

/// A procedure that has its result at once.
pub proof fn lemma_at_once<T>(
    c: Config,
    value: T,
    p: spec_fn(Seq<Reply>, nat) -> Run<T>,
    begin: spec_fn(DiskView) -> bool,
    fine: spec_fn(DiskView) -> bool,
    end: spec_fn(T, DiskView) -> bool,
)
    requires
        forall|l: Seq<Reply>, n: nat| #[trigger] p(l, n) == Run::Done(value, n),
        forall|d: DiskView| #[trigger] begin(d) ==> fine(d) && end(value, d),
    ensures
        works(c, p, begin, fine, end),
        steady(p),
{
    reveal(works);
    reveal(steady);
    assert forall|log: Seq<Reply>, disks: Seq<DiskView>, at: nat| #[trigger]
        followed(c, p, log, disks, at) && begin(disks[at as int]) implies comes_to(
        p(log, at),
        disks,
        at,
        fine,
        end,
    ) by {
        assert(p(log, at) == Run::Done(value, at));
    }
}

/// A procedure of one request.
pub proof fn lemma_request<T>(
    c: Config,
    request: RequestView,
    after: spec_fn(Reply, nat) -> Run<T>,
    p: spec_fn(Seq<Reply>, nat) -> Run<T>,
    begin: spec_fn(DiskView) -> bool,
    fine: spec_fn(DiskView) -> bool,
    end: spec_fn(T, DiskView) -> bool,
)
    requires
        forall|l: Seq<Reply>, n: nat| #[trigger]
            p(l, n) == if n < l.len() {
                after(l[n as int], n + 1)
            } else {
                Run::Ask(request)
            },
        forall|d: DiskView| #[trigger] begin(d) ==> fine(d),
        forall|d: DiskView, reply: Reply, e: DiskView, n: nat|
            begin(d) && #[trigger] fits(c, d, request, reply, e) ==> (#[trigger] after(
                reply,
                n,
            ) matches Run::Done(value, m) && m == n && fine(e) && end(value, e)),
    ensures
        works(c, p, begin, fine, end),
{
    reveal(works);
    assert forall|log: Seq<Reply>, disks: Seq<DiskView>, at: nat| #[trigger]
        followed(c, p, log, disks, at) && begin(disks[at as int]) implies comes_to(
        p(log, at),
        disks,
        at,
        fine,
        end,
    ) by {
        let a = at as int;
        if at < log.len() {
            assert(p(log.take(a), at) == Run::<T>::Ask(request));
            assert(fits(c, disks[a], request, log[a], disks[a + 1]));
            let result = after(log[a], at + 1);
        }
    }
}

/// A request that is answered with yes or no.
pub proof fn lemma_flag(
    c: Config,
    request: RequestView,
    begin: spec_fn(DiskView) -> bool,
    fine: spec_fn(DiskView) -> bool,
    end: spec_fn(bool, DiskView) -> bool,
)
    requires
        forall|d: DiskView| #[trigger] begin(d) ==> fine(d),
        forall|d: DiskView, reply: Reply, e: DiskView|
            begin(d) && #[trigger] fits(c, d, request, reply, e) ==> (reply matches Reply::Flag(
                answer,
            ) && fine(e) && end(answer, e)),
    ensures
        works(c, |l: Seq<Reply>, n: nat| flag_run(l, n, request), begin, fine, end),
        steady(|l: Seq<Reply>, n: nat| flag_run(l, n, request)),
{
    reveal(steady);
    lemma_request(
        c,
        request,
        |reply: Reply, n: nat|
            match reply {
                Reply::Flag(answer) => Run::Done(answer, n),
                Reply::Failed(error) => Run::Fail(error@, n),
                _ => Run::Fail(mismatch(), n),
            },
        |l: Seq<Reply>, n: nat| flag_run(l, n, request),
        begin,
        fine,
        end,
    );
}

/// A request that is carried out.
pub proof fn lemma_done(
    c: Config,
    request: RequestView,
    begin: spec_fn(DiskView) -> bool,
    fine: spec_fn(DiskView) -> bool,
    end: spec_fn(DiskView) -> bool,
)
    requires
        forall|d: DiskView| #[trigger] begin(d) ==> fine(d),
        forall|d: DiskView, reply: Reply, e: DiskView|
            begin(d) && #[trigger] fits(c, d, request, reply, e) ==> reply == Reply::Done && fine(e)
                && end(e),
    ensures
        works(
            c,
            |l: Seq<Reply>, n: nat| done_run(l, n, request),
            begin,
            fine,
            |v: (), d: DiskView| end(d),
        ),
        steady(|l: Seq<Reply>, n: nat| done_run(l, n, request)),
{
    reveal(steady);
    lemma_request(
        c,
        request,
        |reply: Reply, n: nat|
            match reply {
                Reply::Done => Run::Done((), n),
                Reply::Failed(error) => Run::Fail(error@, n),
                _ => Run::Fail(mismatch(), n),
            },
        |l: Seq<Reply>, n: nat| done_run(l, n, request),
        begin,
        fine,
        |v: (), d: DiskView| end(d),
    );
}

/// A request for credentials that are there.
pub proof fn lemma_auth(
    c: Config,
    path: Seq<char>,
    auth: AuthView,
    begin: spec_fn(DiskView) -> bool,
    fine: spec_fn(DiskView) -> bool,
)
    requires
        forall|d: DiskView| #[trigger] begin(d) ==> fine(d) && d.has(path) && d.auths[path] == auth,
    ensures
        works(
            c,
            |l: Seq<Reply>, n: nat| auth_run(l, n, path),
            begin,
            fine,
            |v: AuthDocument, d: DiskView| v@ == auth && begin(d),
        ),
        steady(|l: Seq<Reply>, n: nat| auth_run(l, n, path)),
{
    reveal(steady);
    lemma_request(
        c,
        RequestView::ReadAuth(path),
        |reply: Reply, n: nat|
            match reply {
                Reply::Auth(document) => Run::Done(document, n),
                Reply::Failed(error) => Run::Fail(error@, n),
                _ => Run::Fail(mismatch(), n),
            },
        |l: Seq<Reply>, n: nat| auth_run(l, n, path),
        begin,
        fine,
        |v: AuthDocument, d: DiskView| v@ == auth && begin(d),
    );
}

/// A question whose answer is known, and what follows that answer.
pub proof fn lemma_expected<T>(
    c: Config,
    request: RequestView,
    answer: bool,
    q: spec_fn(Seq<Reply>, nat) -> Run<T>,
    b: spec_fn(bool) -> spec_fn(Seq<Reply>, nat) -> Run<T>,
    p: spec_fn(Seq<Reply>, nat) -> Run<T>,
    begin: spec_fn(DiskView) -> bool,
    fine: spec_fn(DiskView) -> bool,
    between: spec_fn(DiskView) -> bool,
    end: spec_fn(T, DiskView) -> bool,
)
    requires
        forall|d: DiskView| #[trigger] begin(d) ==> fine(d),
        forall|d: DiskView, reply: Reply, e: DiskView|
            begin(d) && #[trigger] fits(c, d, request, reply, e) ==> reply == Reply::Flag(answer)
                && fine(e) && between(e),
        works(c, q, between, fine, end),
        forall|l: Seq<Reply>, n: nat| #[trigger] b(answer)(l, n) == q(l, n),
        forall|l: Seq<Reply>, n: nat| #[trigger]
            p(l, n) == flag_run(l, n, request).bind(|v: bool, k: nat| b(v)(l, k)),
    ensures
        works(c, p, begin, fine, end),
{
    let known = |v: bool, d: DiskView| v == answer && between(d);
    lemma_flag(c, request, begin, fine, known);
    assert forall|v: bool| works(c, #[trigger] b(v), |d: DiskView| known(v, d), fine, end) by {
        let start = |d: DiskView| known(v, d);
        if v == answer {
            lemma_instead(c, q, b(v), between, start, fine, end, end);
        } else {
            lemma_never(c, b(v), start, fine, end);
        }
    }
    lemma_bind(
        c,
        |l: Seq<Reply>, n: nat| flag_run(l, n, request),
        b,
        p,
        begin,
        fine,
        known,
        end,
    );
}

}
