//! What the server answers to a request: the decisions between a request
//! that has been read and the response that is to be written.

use crate::batch::{
    action_views, all_read, batch_runs, execute_batch, execute_reads, reads_only, result_views,
    Action, ActionResult, BatchError,
};
use crate::errors::Error;
use crate::memory::MemoryDatastore;
use vstd::prelude::*;

verus! {

/// The request was carried out in full.
pub const STATUS_OK: u16 = 200;

/// The request could not be read, or one of its actions failed.
pub const STATUS_BAD_REQUEST: u16 = 400;

/// The account and the secret are not those of a known account.
pub const STATUS_UNAUTHORIZED: u16 = 401;

/// Nothing answers at the path of the request.
pub const STATUS_NOT_FOUND: u16 = 404;

/// The server failed.
pub const STATUS_INTERNAL_ERROR: u16 = 500;

/// An account and the secret that opens it.
#[derive(Debug)]
pub struct Credential {
    pub account_id: u128,
    pub secret: String,
}

/// The accounts that the server knows, each with its secret.
#[derive(Debug)]
pub struct CredentialStore {
    known: Vec<Credential>,
}

impl CredentialStore {
    /// Whether the store holds the pair of an account and a secret.
    pub closed spec fn holds(&self, account_id: u128, secret: Seq<char>) -> bool {
        exists|i: int|
            0 <= i < self.known@.len() && (#[trigger] self.known@[i]).account_id == account_id
                && self.known@[i].secret@ == secret
    }

    /// A store that knows no account.
    pub fn new() -> (store: CredentialStore)
        ensures
            forall|account_id: u128, secret: Seq<char>| !store.holds(account_id, secret),
    {
        CredentialStore { known: Vec::new() }
    }

    /// Makes an account known under a secret. What was known stays known.
    pub fn add(&mut self, account_id: u128, secret: String)
        ensures
            forall|a: u128, s: Seq<char>|
                final(self).holds(a, s) <==> old(self).holds(a, s) || (a == account_id && s
                    == secret@),
    {
        let ghost before = self.known@;
        let ghost text = secret@;
        self.known.push(Credential { account_id, secret });
        proof {
            let after = self.known@;
            assert forall|a: u128, s: Seq<char>|
                self.holds(a, s) <==> old(self).holds(a, s) || (a == account_id && s == text) by {
                if self.holds(a, s) {
                    let i = choose|i: int|
                        0 <= i < after.len() && (#[trigger] after[i]).account_id == a
                            && after[i].secret@ == s;
                    if i < before.len() {
                        assert(before[i] == after[i]);
                    }
                }
                if old(self).holds(a, s) {
                    let i = choose|i: int|
                        0 <= i < before.len() && (#[trigger] before[i]).account_id == a
                            && before[i].secret@ == s;
                    assert(after[i] == before[i]);
                }
                if a == account_id && s == text {
                    assert(after[before.len() as int].account_id == a);
                }
            }
        }
    }

    /// Tells whether an account and a secret are those of a known account.
    pub fn authorizes(&self, account_id: u128, secret: &String) -> (known: bool)
        ensures
            known == self.holds(account_id, secret@),
    {
        let mut i: usize = 0;
        while i < self.known.len()
            invariant
                i <= self.known@.len(),
                forall|j: int|
                    0 <= j < i ==> !((#[trigger] self.known@[j]).account_id == account_id
                        && self.known@[j].secret@ == secret@),
            decreases self.known@.len() - i,
        {
            if self.known[i].account_id == account_id && self.known[i].secret == *secret {
                return true;
            }
            i += 1;
        }
        false
    }
}

/// A request, read and decoded as far as it could be.
#[derive(Debug)]
pub struct Request {
    /// The method, as in `POST`.
    pub method: String,
    /// The path, as in `/transaction`.
    pub path: String,
    /// The account that asks.
    pub account_id: u128,
    /// The secret that it offers.
    pub secret: String,
    /// The batch in the body, or `None` where the body is not a batch.
    pub body: Option<Vec<Action>>,
}

/// What a response carries: the results of a batch, or the text of an
/// error.
#[derive(Debug)]
pub enum Body {
    Results(Vec<ActionResult>),
    Error(String),
}

/// A response: a status and what it carries.
#[derive(Debug)]
pub struct Response {
    pub status: u16,
    pub body: Body,
}

/// Whether a request is for the batch protocol: a `POST` to
/// `/transaction`.
pub open spec fn routed(method: Seq<char>, path: Seq<char>) -> bool {
    method == "POST"@ && path == "/transaction"@
}

/// The response for a failure of the server itself. Its text says nothing
/// of what failed.
pub fn internal_error() -> (response: Response)
    ensures
        response.status == 500,
        response.body matches Body::Error(text) && text@ == "internal error"@,
{
    Response { status: STATUS_INTERNAL_ERROR, body: Body::Error("internal error".to_owned()) }
}

/// The response to a request that never reaches the datastore, if the
/// request is one: 404 for an unknown route; 401 for an account and a
/// secret that are not known, with a text that holds nothing of the request;
/// 400 for a body that is no batch.
pub open spec fn refusal(credentials: CredentialStore, request: Request) -> Option<
    (u16, Seq<char>),
> {
    if !routed(request.method@, request.path@) {
        Some((404u16, "not found"@))
    } else if !credentials.holds(request.account_id, request.secret@) {
        Some((401u16, "unauthorized"@))
    } else if request.body is None {
        Some((400u16, "malformed request"@))
    } else {
        None
    }
}

/// What a request is owed. One that is refused gets its refusal, and the
/// datastore stays as it is. Any other has its batch run in a transaction
/// of its account: 200 with the results where every action succeeds, else
/// 400 with the text of the batch's error.
pub open spec fn answers(
    credentials: CredentialStore,
    before: MemoryDatastore,
    request: Request,
    after: MemoryDatastore,
    response: Response,
) -> bool {
    match refusal(credentials, request) {
        Some((status, text)) => {
            &&& after == before
            &&& response.status == status
            &&& response.body matches Body::Error(shown) && shown@ == text
        },
        None => match response.body {
            Body::Results(results) => {
                &&& response.status == 200
                &&& batch_runs(
                    before,
                    request.account_id,
                    action_views(request.body->Some_0@),
                    after,
                    Ok(result_views(results@)),
                )
            },
            Body::Error(text) => {
                &&& response.status == 400
                &&& exists|stopped: BatchError|
                    {
                        &&& text@ == #[trigger] stopped.message_spec()
                        &&& batch_runs(
                            before,
                            request.account_id,
                            action_views(request.body->Some_0@),
                            after,
                            Err((stopped.index as int, stopped.error)),
                        )
                    }
            },
        },
    }
}

/// Refuses a request that is not to reach the datastore.
fn refuse(credentials: &CredentialStore, request: &Request) -> (refused: Option<Response>)
    ensures
        match refused {
            Some(response) => {
                &&& refusal(*credentials, *request) matches Some((status, text))
                &&& response.status == status
                &&& response.body matches Body::Error(shown)
                &&& shown@ == text
            },
            None => refusal(*credentials, *request) is None,
        },
{
    if !(request.method == "POST".to_owned() && request.path == "/transaction".to_owned()) {
        return Some(
            Response { status: STATUS_NOT_FOUND, body: Body::Error("not found".to_owned()) },
        );
    }
    if !credentials.authorizes(request.account_id, &request.secret) {
        return Some(
            Response { status: STATUS_UNAUTHORIZED, body: Body::Error("unauthorized".to_owned()) },
        );
    }
    if request.body.is_none() {
        return Some(
            Response {
                status: STATUS_BAD_REQUEST,
                body: Body::Error("malformed request".to_owned()),
            },
        );
    }
    None
}

/// The response to a batch that has run.
fn respond(done: Result<Vec<ActionResult>, BatchError>) -> (response: Response)
    ensures
        match done {
            Ok(results) => response.status == 200 && response.body == Body::Results(results),
            Err(stopped) => {
                &&& response.status == 400
                &&& response.body matches Body::Error(text)
                &&& text@ == stopped.message_spec()
            },
        },
{
    match done {
        Ok(results) => Response { status: STATUS_OK, body: Body::Results(results) },
        Err(stopped) => Response {
            status: STATUS_BAD_REQUEST,
            body: Body::Error(stopped.message()),
        },
    }
}

impl Request {
    /// Whether the request cannot change the datastore: it has no batch, or
    /// every action of its batch only reads.
    pub open spec fn reads(self) -> bool {
        match self.body {
            Some(actions) => all_read(action_views(actions@)),
            None => true,
        }
    }

    /// Tells whether the request cannot change the datastore. Such requests
    /// can be answered side by side, through `handle_reads`.
    pub fn reads_only(&self) -> (reads: bool)
        ensures
            reads == self.reads(),
    {
        match &self.body {
            Some(actions) => reads_only(actions),
            None => true,
        }
    }
}

/// Answers a request.
pub fn handle(credentials: &CredentialStore, store: &mut MemoryDatastore, request: Request) -> (response:
    Response)
    requires
        old(store).wf(),
    ensures
        final(store).wf(),
        answers(*credentials, *old(store), request, *final(store), response),
{
    match refuse(credentials, &request) {
        Some(response) => response,
        None => {
            let txn = store.transaction(request.account_id);
            match request.body {
                Some(actions) => {
                    let done = execute_batch(&txn, store, actions);
                    let ghost stopped = done;
                    let response = respond(done);
                    proof {
                        if stopped is Err {
                            assert(response.body->Error_0@ == stopped->Err_0.message_spec());
                        }
                    }
                    response
                },
                None => internal_error(),
            }
        },
    }
}

/// Answers a request that cannot change the datastore. The datastore stays
/// as it is.
pub fn handle_reads(credentials: &CredentialStore, store: &MemoryDatastore, request: Request) -> (response:
    Response)
    requires
        store.wf(),
        request.reads(),
    ensures
        answers(*credentials, *store, request, *store, response),
{
    match refuse(credentials, &request) {
        Some(response) => response,
        None => {
            let txn = store.transaction(request.account_id);
            match request.body {
                Some(actions) => {
                    let done = execute_reads(&txn, store, actions);
                    let ghost stopped = done;
                    let response = respond(done);
                    proof {
                        if stopped is Err {
                            assert(response.body->Error_0@ == stopped->Err_0.message_spec());
                        }
                    }
                    response
                },
                None => internal_error(),
            }
        },
    }
}

} // verus!
