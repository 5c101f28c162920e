//! The database and the outbound requests of a compiled server, as far as they decide something: when
//! a transaction is kept, and what a call answers that failed.
use vstd::prelude::*;
use vstd::string::*;

use crate::resolve::opt_text;
use crate::text::cat2;

verus! {

/// The transaction of a request: whether one is open, and whether something in it failed.
#[derive(Debug, PartialEq, Eq, Structural)]
pub struct Transaction {
    pub open: bool,
    pub failed: bool,
}

/// The transaction after a call in it: a failure is kept.
pub open spec fn after_call(t: Transaction, ok: bool) -> Transaction {
    Transaction { open: t.open, failed: t.failed || (t.open && !ok) }
}

/// The transaction after the first `n` calls in it.
pub open spec fn after_calls(t: Transaction, oks: Seq<bool>, n: int) -> Transaction
    decreases n,
{
    if n <= 0 || n > oks.len() {
        t
    } else {
        after_call(after_calls(t, oks, n - 1), oks[n - 1])
    }
}

/// The statement that ends a transaction.
pub open spec fn ending(t: Transaction) -> Option<Seq<char>> {
    if t.open {
        Some(
            if t.failed {
                "ROLLBACK"@
            } else {
                "COMMIT"@
            },
        )
    } else {
        None
    }
}

impl Transaction {
    /// No transaction.
    pub fn new() -> (r: Transaction)
        ensures
            r == (Transaction { open: false, failed: false }),
    {
        Transaction { open: false, failed: false }
    }

    /// Opens a transaction; one that did not begin has failed.
    pub fn tx_begin(&mut self, begun: bool)
        ensures
            *final(self) == (Transaction { open: true, failed: !begun }),
    {
        self.open = true;
        self.failed = !begun;
    }

    /// Closes the transaction, with the statement that ends it.
    pub fn tx_end(&mut self) -> (r: Option<&'static str>)
        ensures
            match r {
                Some(s) => ending(*old(self)) == Some(s@),
                None => ending(*old(self)) is None,
            },
            *final(self) == (Transaction { open: false, failed: false }),
    {
        let open: bool = self.open;
        let failed: bool = self.failed;
        self.open = false;
        self.failed = false;
        if !open {
            None
        } else if failed {
            Some("ROLLBACK")
        } else {
            Some("COMMIT")
        }
    }

    /// What a statement answers: how many rows it touched, none where it failed.
    pub fn db_exec(&mut self, touched: Option<u64>) -> (r: i64)
        ensures
            r == (match touched {
                Some(n) => n as i64,
                None => 0i64,
            }),
            *final(self) == after_call(*old(self), touched is Some),
    {
        match touched {
            Some(n) => n as i64,
            None => {
                if self.open {
                    self.failed = true;
                }
                0
            },
        }
    }

    /// What a query answers: its rows; none where it failed in a transaction. Outside of one, a query
    /// that failed has no answer.
    pub fn db_query<T>(&mut self, rows: Option<Vec<T>>) -> (r: Option<Vec<T>>)
        ensures
            match rows {
                Some(x) => r == Some(x),
                None => if old(self).open {
                    r is Some && r->0@.len() == 0
                } else {
                    r is None
                },
            },
            *final(self) == after_call(*old(self), rows is Some),
    {
        match rows {
            Some(x) => Some(x),
            None => {
                if self.open {
                    self.failed = true;
                    Some(Vec::new())
                } else {
                    None
                }
            },
        }
    }
}

proof fn lemma_failure_stays(t: Transaction, oks: Seq<bool>, n: int, i: int)
    requires
        t.open,
        0 <= i < n <= oks.len(),
        !oks[i],
    ensures
        after_calls(t, oks, n).open,
        after_calls(t, oks, n).failed,
    decreases n,
{
    lemma_stays_open(t, oks, n - 1);
    if i < n - 1 {
        lemma_failure_stays(t, oks, n - 1, i);
    }
}

proof fn lemma_stays_open(t: Transaction, oks: Seq<bool>, n: int)
    ensures
        after_calls(t, oks, n).open == t.open,
    decreases n,
{
    if n > 0 && n <= oks.len() {
        lemma_stays_open(t, oks, n - 1);
    }
}

proof fn lemma_success_stays(t: Transaction, oks: Seq<bool>, n: int)
    requires
        n <= oks.len(),
        forall|i: int| 0 <= i < n ==> oks[i],
    ensures
        after_calls(t, oks, n) == t,
    decreases n,
{
    if n > 0 {
        lemma_success_stays(t, oks, n - 1);
    }
}

/// A transaction is all or nothing: it is kept where it began and every call in it succeeded, and
/// undone where one did not.
pub proof fn law_transaction_is_atomic(begun: bool, oks: Seq<bool>)
    ensures
        ({
            let t = Transaction { open: true, failed: !begun };
            ending(after_calls(t, oks, oks.len() as int)) == Some(
                if begun && (forall|i: int| 0 <= i < oks.len() ==> oks[i]) {
                    "COMMIT"@
                } else {
                    "ROLLBACK"@
                },
            )
        }),
{
    let t = Transaction { open: true, failed: !begun };
    let n = oks.len() as int;
    lemma_stays_open(t, oks, n);
    if forall|i: int| 0 <= i < oks.len() ==> oks[i] {
        lemma_success_stays(t, oks, n);
    } else {
        let i = choose|i: int| 0 <= i < oks.len() && !oks[i];
        lemma_failure_stays(t, oks, n, i);
    }
}

/// The URL of an outbound request: the endpoint's fixed base, then the path.
pub fn request_url(base: &str, path: &str) -> (r: String)
    ensures
        r@ == base@ + path@,
{
    cat2(base, path)
}

/// The `Authorization` header of an outbound request, where there is a token.
pub open spec fn authorization(bearer: Seq<char>) -> Option<Seq<char>> {
    if bearer.len() == 0 {
        None
    } else {
        Some("Bearer "@ + bearer)
    }
}

/// The `Authorization` header of an outbound request, where there is a token.
pub fn bearer_header(bearer: &str) -> (r: Option<String>)
    ensures
        opt_text(r) == authorization(bearer@),
{
    if bearer.unicode_len() == 0 {
        None
    } else {
        Some(cat2("Bearer ", bearer))
    }
}

/// What an outbound `get` answers: the body, or the empty text where there is none.
pub fn http_get(body: Option<String>) -> (r: String)
    ensures
        r@ == (match body {
            Some(s) => s@,
            None => ""@,
        }),
{
    match body {
        Some(s) => s,
        None => "".to_owned(),
    }
}

/// What an outbound `post` answers: the status, also one of an error, or zero where there is none.
pub fn http_post(status: Option<u16>) -> (r: i64)
    ensures
        r == (match status {
            Some(code) => code as int,
            None => 0,
        }),
{
    match status {
        Some(code) => code as i64,
        None => 0,
    }
}

} // verus!
