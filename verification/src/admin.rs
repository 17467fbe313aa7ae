//! The administrative calls that close a prefix and that delete objects of a closed one.

use vstd::prelude::*;
use vstd::string::StringExecFns;

use crate::records::{ClosedPrefixProofV1, ClosedPrefixV1};

verus! {

/// The start of the paths of administrative calls.
pub const ADMIN_PREFIX: &'static str = "/rustfs/admin";

/// Closes a prefix.
#[derive(Clone, Copy, Debug, PartialEq, Eq)]
pub struct ClosePrefixHandler;

/// Deletes objects of a closed prefix.
#[derive(Clone, Copy, Debug, PartialEq, Eq)]
pub struct DeleteClosedObjectsHandler;

/// What an administrator must be allowed to do.
#[derive(Clone, Copy, Debug, PartialEq, Eq)]
pub enum AdminAction {
    TokolosheClosePrefixAction,
    TokolosheDeleteClosedObjectsAction,
}

/// Who answers an administrative call.
#[derive(Clone, Copy, Debug, PartialEq, Eq)]
pub enum AdminOperation {
    ClosePrefix(ClosePrefixHandler),
    DeleteClosedObjects(DeleteClosedObjectsHandler),
}

/// The methods of administrative calls.
#[derive(Clone, Copy, Debug, PartialEq, Eq)]
pub enum Method {
    Post,
}

/// What an administrative call is answered by.
#[derive(Debug, PartialEq, Eq)]
pub struct AdminRoute {
    pub method: Method,
    pub path: String,
    pub operation: AdminOperation,
}

/// Whether a route answers posts to a path below [`ADMIN_PREFIX`] by an operation.
pub open spec fn posts_to(route: AdminRoute, path: Seq<char>, operation: AdminOperation) -> bool {
    &&& route.method == Method::Post
    &&& route.path@ == ADMIN_PREFIX@ + path
    &&& route.operation == operation
}

/// Whether a route is that of closing.
pub open spec fn closes(route: AdminRoute) -> bool {
    posts_to(
        route,
        "/v3/tokoloshe/closed-prefix"@,
        AdminOperation::ClosePrefix(ClosePrefixHandler),
    )
}

/// Whether a route is that of deleting.
pub open spec fn deletes(route: AdminRoute) -> bool {
    posts_to(
        route,
        "/v3/tokoloshe/closed-prefix/delete"@,
        AdminOperation::DeleteClosedObjects(DeleteClosedObjectsHandler),
    )
}

/// The registration of the routes of the two calls, at the step that it waits for. A router
/// can refuse a route, with a failure `E`.
#[derive(Debug, PartialEq, Eq)]
pub enum Registration<E> {
    /// The route of closing is to be inserted.
    InsertClose,
    /// The route of deleting is to be inserted.
    InsertDelete,
    /// The registration is over.
    Finished(Result<(), E>),
}

/// What a registration waits for.
#[derive(Debug, PartialEq, Eq)]
pub enum RegistrationAction {
    /// Insert this route into the router.
    Insert(AdminRoute),
    /// Nothing.
    Finish,
}

/// Begins to register the routes of the two calls, that of closing first.
pub fn register_closed_prefix_route<E>() -> (registration: Registration<E>)
    ensures
        registration == Registration::<E>::InsertClose,
{
    Registration::InsertClose
}

impl<E> Registration<E> {
    /// The registration after an insertion that came out as `inserted`. A route that was
    /// inserted stays, and behind a failure nothing more is inserted.
    pub open spec fn after(self, inserted: Result<(), E>) -> Registration<E> {
        match (self, inserted) {
            (Registration::InsertClose, Ok(_)) => Registration::InsertDelete,
            (Registration::InsertDelete, Ok(_)) => Registration::Finished(Ok(())),
            (Registration::Finished(outcome), _) => Registration::Finished(outcome),
            (_, Err(error)) => Registration::Finished(Err(error)),
        }
    }

    /// The registration after insertions that came out as `outcomes`.
    pub open spec fn run(self, outcomes: Seq<Result<(), E>>) -> Registration<E>
        decreases outcomes.len(),
    {
        if outcomes.len() == 0 {
            self
        } else {
            self.run(outcomes.drop_last()).after(outcomes.last())
        }
    }

    /// What the registration waits for.
    pub fn action(&self) -> (action: RegistrationAction)
        ensures
            match *self {
                Registration::InsertClose => action matches RegistrationAction::Insert(route)
                    && closes(route),
                Registration::InsertDelete => action matches RegistrationAction::Insert(route)
                    && deletes(route),
                Registration::Finished(_) => action is Finish,
            },
    {
        let mut path = ADMIN_PREFIX.to_owned();
        match self {
            Registration::InsertClose => {
                path.append("/v3/tokoloshe/closed-prefix");
                RegistrationAction::Insert(
                    AdminRoute {
                        method: Method::Post,
                        path,
                        operation: AdminOperation::ClosePrefix(ClosePrefixHandler),
                    },
                )
            },
            Registration::InsertDelete => {
                path.append("/v3/tokoloshe/closed-prefix/delete");
                RegistrationAction::Insert(
                    AdminRoute {
                        method: Method::Post,
                        path,
                        operation: AdminOperation::DeleteClosedObjects(DeleteClosedObjectsHandler),
                    },
                )
            },
            Registration::Finished(_) => RegistrationAction::Finish,
        }
    }

    /// Goes on with the registration, told how the insertion came out. One that is over
    /// stays as it is.
    pub fn step(self, inserted: Result<(), E>) -> (next: Registration<E>)
        ensures
            next == self.after(inserted),
    {
        match (self, inserted) {
            (Registration::InsertClose, Ok(_)) => Registration::InsertDelete,
            (Registration::InsertDelete, Ok(_)) => Registration::Finished(Ok(())),
            (Registration::Finished(outcome), _) => Registration::Finished(outcome),
            (_, Err(error)) => Registration::Finished(Err(error)),
        }
    }
}

/// A registration inserts the route of closing, then that of deleting, and ends with what
/// came of them: the first failure is handed on; after a failed first the second is not
/// tried; and where the second fails, the first was inserted. It succeeds exactly if both
/// were inserted.
pub proof fn law_registration_hands_on_the_first_failure<E>(outcomes: Seq<Result<(), E>>)
    ensures
        match Registration::<E>::InsertClose.run(outcomes) {
            Registration::InsertClose => outcomes.len() == 0,
            Registration::InsertDelete => outcomes.len() == 1 && outcomes[0] is Ok,
            Registration::Finished(Ok(_)) => outcomes.len() >= 2 && outcomes[0] is Ok
                && outcomes[1] is Ok,
            Registration::Finished(Err(error)) => {
                ||| outcomes.len() >= 1 && outcomes[0] == Err::<(), E>(error)
                ||| outcomes.len() >= 2 && outcomes[0] is Ok && outcomes[1] == Err::<(), E>(error)
            },
        },
    decreases outcomes.len(),
{
    if outcomes.len() > 0 {
        law_registration_hands_on_the_first_failure(outcomes.drop_last());
    }
}

/// A request to delete objects of a closed prefix.
#[derive(Debug, PartialEq, Eq)]
pub struct DeleteClosedObjectsRequest {
    pub proof: ClosedPrefixProofV1,
    pub keys: Vec<String>,
}

/// The answer to a request to delete objects of a closed prefix.
#[derive(Debug, PartialEq, Eq)]
pub struct DeleteClosedObjectsResponse {
    pub proof: ClosedPrefixProofV1,
    pub keys: Vec<String>,
}

/// Why a call failed. `Passed` carries a failure of an outside step, such as that the
/// caller is not allowed to make the call.
#[derive(Debug, PartialEq, Eq)]
pub enum CallFailure<E> {
    InternalError(&'static str),
    InvalidRequest(&'static str),
    Passed(E),
}

/// A call that was carried out: by whose key its answer is sealed, what was asked, and
/// what came of it.
#[derive(Debug, PartialEq, Eq)]
pub struct Performed<R, T> {
    pub secret_key: String,
    pub request: R,
    pub outcome: T,
}

/// The answer to a call that was carried out.
#[derive(Debug, PartialEq, Eq)]
pub struct Reply<B> {
    pub status: u16,
    pub secret_key: String,
    pub body: B,
}

/// A call with a request `R` and an outcome `T`, at the step that it waits for.
#[derive(Debug, PartialEq, Eq)]
pub enum AdminCall<R, T, E> {
    /// The caller is to be authorized.
    Authorize,
    /// The object store is to be found.
    FindStore { secret_key: String },
    /// The body is to be read.
    ReadBody { secret_key: String },
    /// The body is to be decoded.
    Decode { secret_key: String, body: Vec<u8> },
    /// The request is to be carried out.
    Mutate { secret_key: String, request: R },
    /// The call is over.
    Finished(Result<Performed<R, T>, CallFailure<E>>),
}

/// What a call waits for.
#[derive(Debug, PartialEq, Eq)]
pub enum CallAction<'a, R> {
    /// See that the caller may do this.
    Authorize(AdminAction),
    /// Find the object store.
    FindStore,
    /// Read the body, unless it is longer than `limit` bytes.
    ReadBody { limit: usize },
    /// Decode these bytes.
    Decode { body: &'a Vec<u8> },
    /// Carry out this request, to its end even if the caller goes away, as the change of
    /// this name.
    Mutate { name: &'static str, request: &'a R },
    /// Nothing.
    Finish,
}

/// What came of an outside step of a call.
pub enum CallEvent<R, T, E> {
    /// The secret key of the caller.
    Authorized(Result<String, E>),
    StoreFound(bool),
    /// The body, or none if it was too long or could not be read.
    Body(Option<Vec<u8>>),
    /// The decoded request, or none if the body does not hold one.
    Decoded(Option<R>),
    Mutated(Result<T, E>),
}

impl<R, T, E> AdminCall<R, T, E> {
    /// Whether `event` is what the call waits for.
    pub open spec fn awaits(self, event: CallEvent<R, T, E>) -> bool {
        match self {
            AdminCall::Authorize => event is Authorized,
            AdminCall::FindStore { .. } => event is StoreFound,
            AdminCall::ReadBody { .. } => event is Body,
            AdminCall::Decode { .. } => event is Decoded,
            AdminCall::Mutate { .. } => event is Mutated,
            AdminCall::Finished(_) => false,
        }
    }

    /// The call after `event`, if a body that holds no request is refused with `invalid`.
    pub open spec fn after(self, event: CallEvent<R, T, E>, invalid: &'static str) -> AdminCall<
        R,
        T,
        E,
    > {
        match (self, event) {
            (AdminCall::Authorize, CallEvent::Authorized(Ok(secret_key))) => AdminCall::FindStore {
                secret_key,
            },
            (AdminCall::Authorize, CallEvent::Authorized(Err(error))) => AdminCall::Finished(
                Err(CallFailure::Passed(error)),
            ),
            (AdminCall::FindStore { secret_key }, CallEvent::StoreFound(found)) => if found {
                AdminCall::ReadBody { secret_key }
            } else {
                AdminCall::Finished(
                    Err(CallFailure::InternalError("object store is not initialized")),
                )
            },
            (AdminCall::ReadBody { secret_key }, CallEvent::Body(Some(body))) => AdminCall::Decode {
                secret_key,
                body,
            },
            (AdminCall::ReadBody { .. }, CallEvent::Body(None)) => AdminCall::Finished(
                Err(CallFailure::InvalidRequest("invalid request body")),
            ),
            (AdminCall::Decode { secret_key, .. }, CallEvent::Decoded(Some(request))) => AdminCall::Mutate {
                secret_key,
                request,
            },
            (AdminCall::Decode { .. }, CallEvent::Decoded(None)) => AdminCall::Finished(
                Err(CallFailure::InvalidRequest(invalid)),
            ),
            (AdminCall::Mutate { secret_key, request }, CallEvent::Mutated(Ok(outcome))) => AdminCall::Finished(
                Ok(Performed { secret_key, request, outcome }),
            ),
            (AdminCall::Mutate { .. }, CallEvent::Mutated(Err(error))) => AdminCall::Finished(
                Err(CallFailure::Passed(error)),
            ),
            (waiting, _) => waiting,
        }
    }

    /// What a call of the given kind waits for.
    pub open spec fn waits_for(
        self,
        action: CallAction<'_, R>,
        allowed: AdminAction,
        limit: usize,
        name: &'static str,
    ) -> bool {
        match self {
            AdminCall::Authorize => action matches CallAction::Authorize(asked) && asked == allowed,
            AdminCall::FindStore { .. } => action is FindStore,
            AdminCall::ReadBody { .. } => action matches CallAction::ReadBody { limit: l } && l
                == limit,
            AdminCall::Decode { body: held, .. } => action matches CallAction::Decode { body }
                && *body == held,
            AdminCall::Mutate { request: held, .. } => action matches CallAction::Mutate {
                name: n,
                request,
            } && n == name && *request == held,
            AdminCall::Finished(_) => action is Finish,
        }
    }

    /// What the call waits for.
    fn action(&self, allowed: AdminAction, limit: usize, name: &'static str) -> (action: CallAction<
        '_,
        R,
    >)
        ensures
            self.waits_for(action, allowed, limit, name),
    {
        match self {
            AdminCall::Authorize => CallAction::Authorize(allowed),
            AdminCall::FindStore { .. } => CallAction::FindStore,
            AdminCall::ReadBody { .. } => CallAction::ReadBody { limit },
            AdminCall::Decode { body, .. } => CallAction::Decode { body },
            AdminCall::Mutate { request, .. } => CallAction::Mutate { name, request },
            AdminCall::Finished(_) => CallAction::Finish,
        }
    }

    /// Goes on with the call. An event that it does not wait for leaves it as it is.
    fn step(self, event: CallEvent<R, T, E>, invalid: &'static str) -> (next: AdminCall<R, T, E>)
        ensures
            next == self.after(event, invalid),
    {
        match (self, event) {
            (AdminCall::Authorize, CallEvent::Authorized(Ok(secret_key))) => AdminCall::FindStore {
                secret_key,
            },
            (AdminCall::Authorize, CallEvent::Authorized(Err(error))) => AdminCall::Finished(
                Err(CallFailure::Passed(error)),
            ),
            (AdminCall::FindStore { secret_key }, CallEvent::StoreFound(found)) => {
                if found {
                    AdminCall::ReadBody { secret_key }
                } else {
                    AdminCall::Finished(
                        Err(CallFailure::InternalError("object store is not initialized")),
                    )
                }
            },
            (AdminCall::ReadBody { secret_key }, CallEvent::Body(Some(body))) => AdminCall::Decode {
                secret_key,
                body,
            },
            (AdminCall::ReadBody { .. }, CallEvent::Body(None)) => AdminCall::Finished(
                Err(CallFailure::InvalidRequest("invalid request body")),
            ),
            (AdminCall::Decode { secret_key, .. }, CallEvent::Decoded(Some(request))) => AdminCall::Mutate {
                secret_key,
                request,
            },
            (AdminCall::Decode { .. }, CallEvent::Decoded(None)) => AdminCall::Finished(
                Err(CallFailure::InvalidRequest(invalid)),
            ),
            (AdminCall::Mutate { secret_key, request }, CallEvent::Mutated(Ok(outcome))) => AdminCall::Finished(
                Ok(Performed { secret_key, request, outcome }),
            ),
            (AdminCall::Mutate { .. }, CallEvent::Mutated(Err(error))) => AdminCall::Finished(
                Err(CallFailure::Passed(error)),
            ),
            (waiting, _) => waiting,
        }
    }
}

impl<R, T, E> AdminCall<R, T, E> {
    /// The call after all of `events`.
    pub open spec fn run(self, events: Seq<CallEvent<R, T, E>>, invalid: &'static str) -> AdminCall<
        R,
        T,
        E,
    >
        decreases events.len(),
    {
        if events.len() == 0 {
            self
        } else {
            self.run(events.drop_last(), invalid).after(events.last(), invalid)
        }
    }

    /// Whether each of `events` is what the call waits for when it comes.
    pub open spec fn answered(self, events: Seq<CallEvent<R, T, E>>, invalid: &'static str) -> bool {
        forall|i: int|
            0 <= i < events.len() ==> self.run(events.take(i), invalid).awaits(#[trigger] events[i])
    }
}

/// Whether the caller was authorized, the store was found, and the body was read and held
/// `request`.
pub open spec fn admitted<R, T, E>(events: Seq<CallEvent<R, T, E>>, request: R) -> bool {
    &&& events.len() >= 4
    &&& events[0] matches CallEvent::Authorized(Ok(_))
    &&& events[1] == CallEvent::<R, T, E>::StoreFound(true)
    &&& events[2] matches CallEvent::Body(Some(_))
    &&& events[3] == CallEvent::<R, T, E>::Decoded(Some(request))
}

proof fn lemma_call_run_step<R, T, E>(
    events: Seq<CallEvent<R, T, E>>,
    invalid: &'static str,
    n: int,
)
    requires
        0 <= n < events.len(),
    ensures
        AdminCall::<R, T, E>::Authorize.run(events.take(n + 1), invalid) == AdminCall::<
            R,
            T,
            E,
        >::Authorize.run(events.take(n), invalid).after(events[n], invalid),
{
    assert(events.take(n + 1).drop_last() == events.take(n));
}

/// A request is carried out only for a caller that was authorized first, and it is the one
/// that the body holds; a call succeeds exactly if its request was then carried out, and its
/// answer is sealed with the key of that caller.
pub proof fn law_calls_are_authorized_first<R, T, E>(
    events: Seq<CallEvent<R, T, E>>,
    invalid: &'static str,
)
    requires
        AdminCall::<R, T, E>::Authorize.answered(events, invalid),
    ensures
        match AdminCall::<R, T, E>::Authorize.run(events, invalid) {
            AdminCall::Mutate { request, .. } => events.len() == 4 && admitted(events, request),
            AdminCall::Finished(Ok(performed)) => {
                &&& events.len() == 5
                &&& admitted(events, performed.request)
                &&& events[0] == CallEvent::<R, T, E>::Authorized(Ok(performed.secret_key))
                &&& events[4] == CallEvent::<R, T, E>::Mutated(Ok(performed.outcome))
            },
            _ => events.len() < 5 || !(events[4] matches CallEvent::Mutated(Ok(_))),
        },
{
    let start = AdminCall::<R, T, E>::Authorize;
    assert(events.take(0) == Seq::<CallEvent<R, T, E>>::empty());
    assert(events.take(events.len() as int) == events);
    if events.len() > 0 {
        assert(start.run(events.take(0), invalid).awaits(events[0]));
        lemma_call_run_step(events, invalid, 0);
    }
    if events.len() > 1 {
        assert(start.run(events.take(1), invalid).awaits(events[1]));
        lemma_call_run_step(events, invalid, 1);
    }
    if events.len() > 2 {
        assert(start.run(events.take(2), invalid).awaits(events[2]));
        lemma_call_run_step(events, invalid, 2);
    }
    if events.len() > 3 {
        assert(start.run(events.take(3), invalid).awaits(events[3]));
        lemma_call_run_step(events, invalid, 3);
    }
    if events.len() > 4 {
        assert(start.run(events.take(4), invalid).awaits(events[4]));
        lemma_call_run_step(events, invalid, 4);
    }
    if events.len() > 5 {
        assert(start.run(events.take(5), invalid).awaits(events[5]));
    }
}

/// A call is owed success: a caller that was authorized, with a store that was found, a body
/// of whatever length that was read and holds a request, is answered with what came of the
/// request; each of these steps is waited for when it comes.
pub proof fn law_call_is_owed_success<R, T, E>(
    secret_key: String,
    body: Vec<u8>,
    request: R,
    outcome: T,
    invalid: &'static str,
)
    ensures
        ({
            let found = AdminCall::<R, T, E>::Authorize.after(
                CallEvent::Authorized(Ok(secret_key)),
                invalid,
            );
            let read = found.after(CallEvent::StoreFound(true), invalid);
            let decoded = read.after(CallEvent::Body(Some(body)), invalid);
            let carried_out = decoded.after(CallEvent::Decoded(Some(request)), invalid);
            &&& AdminCall::<R, T, E>::Authorize.awaits(CallEvent::Authorized(Ok(secret_key)))
            &&& found.awaits(CallEvent::StoreFound(true))
            &&& read.awaits(CallEvent::Body(Some(body)))
            &&& decoded == (AdminCall::<R, T, E>::Decode { secret_key, body })
            &&& decoded.awaits(CallEvent::Decoded(Some(request)))
            &&& carried_out == (AdminCall::<R, T, E>::Mutate { secret_key, request })
            &&& carried_out.awaits(CallEvent::Mutated(Ok(outcome)))
            &&& carried_out.after(CallEvent::Mutated(Ok(outcome)), invalid) == AdminCall::<
                R,
                T,
                E,
            >::Finished(Ok(Performed { secret_key, request, outcome }))
        }),
{
}

/// A call that fails does so at the step that failed: a failed authorization and a failed
/// change are handed on; no store is an internal error; and a body that could not be read, or
/// that holds no request, makes the request invalid. Each is waited for when it comes.
pub proof fn law_call_fails_at_the_step_that_failed<R, T, E>(
    secret_key: String,
    body: Vec<u8>,
    request: R,
    error: E,
    invalid: &'static str,
)
    ensures
        ({
            let start = AdminCall::<R, T, E>::Authorize;
            let found = start.after(CallEvent::Authorized(Ok(secret_key)), invalid);
            let read = found.after(CallEvent::StoreFound(true), invalid);
            let decoded = read.after(CallEvent::Body(Some(body)), invalid);
            let carried_out = decoded.after(CallEvent::Decoded(Some(request)), invalid);
            &&& start.awaits(CallEvent::Authorized(Err(error)))
            &&& start.after(CallEvent::Authorized(Err(error)), invalid) == AdminCall::<
                R,
                T,
                E,
            >::Finished(Err(CallFailure::Passed(error)))
            &&& found.awaits(CallEvent::StoreFound(false))
            &&& found.after(CallEvent::StoreFound(false), invalid) == AdminCall::<
                R,
                T,
                E,
            >::Finished(Err(CallFailure::InternalError("object store is not initialized")))
            &&& read.awaits(CallEvent::Body(None))
            &&& read.after(CallEvent::Body(None), invalid) == AdminCall::<R, T, E>::Finished(
                Err(CallFailure::InvalidRequest("invalid request body")),
            )
            &&& decoded.awaits(CallEvent::Decoded(None))
            &&& decoded.after(CallEvent::Decoded(None), invalid) == AdminCall::<R, T, E>::Finished(
                Err(CallFailure::InvalidRequest(invalid)),
            )
            &&& carried_out.awaits(CallEvent::Mutated(Err(error)))
            &&& carried_out.after(CallEvent::Mutated(Err(error)), invalid) == AdminCall::<
                R,
                T,
                E,
            >::Finished(Err(CallFailure::Passed(error)))
        }),
{
}

/// What a call asks for carries what it was given: the right that the caller needs, the
/// limit of the body, the body that was read, and the request under the name of its change.
pub proof fn law_call_asks_for_what_it_was_given<R, T, E>(
    call: AdminCall<R, T, E>,
    action: CallAction<'_, R>,
    allowed: AdminAction,
    limit: usize,
    name: &'static str,
)
    requires
        call.waits_for(action, allowed, limit, name),
    ensures
        action matches CallAction::Authorize(asked) ==> asked == allowed,
        action matches CallAction::ReadBody { limit: asked } ==> asked == limit,
        action matches CallAction::Decode { body } ==> call is Decode && *body == call->Decode_body,
        action matches CallAction::Mutate { name: asked, request } ==> asked == name && call is Mutate
            && *request == call->Mutate_request,
        call is Authorize <==> action is Authorize,
        call is FindStore <==> action is FindStore,
        call is ReadBody <==> action is ReadBody,
        call is Decode <==> action is Decode,
        call is Mutate <==> action is Mutate,
        call is Finished <==> action is Finish,
{
}

/// The two calls are posts, each to a path of its own below that of the administrative
/// calls, and each answered by its own operation.
pub proof fn law_calls_have_their_own_paths(route: AdminRoute)
    ensures
        closes(route) <==> {
            &&& route.method == Method::Post
            &&& route.path@ == "/rustfs/admin/v3/tokoloshe/closed-prefix"@
            &&& route.operation == AdminOperation::ClosePrefix(ClosePrefixHandler)
        },
        deletes(route) <==> {
            &&& route.method == Method::Post
            &&& route.path@ == "/rustfs/admin/v3/tokoloshe/closed-prefix/delete"@
            &&& route.operation == AdminOperation::DeleteClosedObjects(DeleteClosedObjectsHandler)
        },
{
    reveal_strlit("/rustfs/admin");
    reveal_strlit("/v3/tokoloshe/closed-prefix");
    reveal_strlit("/v3/tokoloshe/closed-prefix/delete");
    reveal_strlit("/rustfs/admin/v3/tokoloshe/closed-prefix");
    reveal_strlit("/rustfs/admin/v3/tokoloshe/closed-prefix/delete");
    assert(ADMIN_PREFIX@ + "/v3/tokoloshe/closed-prefix"@
        =~= "/rustfs/admin/v3/tokoloshe/closed-prefix"@);
    assert(ADMIN_PREFIX@ + "/v3/tokoloshe/closed-prefix/delete"@
        =~= "/rustfs/admin/v3/tokoloshe/closed-prefix/delete"@);
}

/// A registration is owed its end: whatever comes of the first insertion, and of the second
/// where the first succeeded, ends or carries on the registration.
pub proof fn law_registration_is_carried_on<E>(first: Result<(), E>, second: Result<(), E>)
    ensures
        first is Err ==> Registration::<E>::InsertClose.after(first) == Registration::<E>::Finished(
            first,
        ),
        first is Ok ==> Registration::<E>::InsertClose.after(first) == Registration::<
            E,
        >::InsertDelete,
        second is Err ==> Registration::<E>::InsertDelete.after(second) == Registration::<
            E,
        >::Finished(second),
        second is Ok ==> (Registration::<E>::InsertDelete.after(second) matches Registration::Finished(
            Ok(_),
        )),
        Registration::<E>::Finished(first).after(second) == Registration::<E>::Finished(first),
{
}

/// An event that a call does not wait for leaves it as it is.
pub proof fn law_call_ignores_unexpected_event<R, T, E>(
    s: AdminCall<R, T, E>,
    event: CallEvent<R, T, E>,
    invalid: &'static str,
)
    requires
        !s.awaits(event),
    ensures
        s.after(event, invalid) == s,
{
}

/// A call that closes a prefix.
pub type CloseCall<E> = AdminCall<ClosedPrefixV1, ClosedPrefixProofV1, E>;

/// A call that deletes objects of a closed prefix.
pub type DeleteCall<E> = AdminCall<DeleteClosedObjectsRequest, (), E>;

impl ClosePrefixHandler {
    /// What a call waits for. Bodies longer than `limit` bytes are not read.
    pub fn action<'a, E>(&self, call: &'a CloseCall<E>, limit: usize) -> (action: CallAction<
        'a,
        ClosedPrefixV1,
    >)
        ensures
            call.waits_for(action, AdminAction::TokolosheClosePrefixAction, limit, "close_prefix"),
    {
        call.action(AdminAction::TokolosheClosePrefixAction, limit, "close_prefix")
    }

    /// Goes on with a call.
    pub fn call<E>(
        &self,
        call: CloseCall<E>,
        event: CallEvent<ClosedPrefixV1, ClosedPrefixProofV1, E>,
    ) -> (next: CloseCall<E>)
        ensures
            next == call.after(event, "invalid closed-prefix request"),
    {
        call.step(event, "invalid closed-prefix request")
    }

    /// The answer to a call that was carried out: the proof.
    pub fn reply(&self, performed: Performed<ClosedPrefixV1, ClosedPrefixProofV1>) -> (reply: Reply<
        ClosedPrefixProofV1,
    >)
        ensures
            reply.status == 200,
            reply.secret_key == performed.secret_key,
            reply.body == performed.outcome,
    {
        Reply { status: 200, secret_key: performed.secret_key, body: performed.outcome }
    }
}

impl DeleteClosedObjectsHandler {
    /// What a call waits for. Bodies longer than `limit` bytes are not read.
    pub fn action<'a, E>(&self, call: &'a DeleteCall<E>, limit: usize) -> (action: CallAction<
        'a,
        DeleteClosedObjectsRequest,
    >)
        ensures
            call.waits_for(
                action,
                AdminAction::TokolosheDeleteClosedObjectsAction,
                limit,
                "delete_closed_prefix_objects",
            ),
    {
        call.action(
            AdminAction::TokolosheDeleteClosedObjectsAction,
            limit,
            "delete_closed_prefix_objects",
        )
    }

    /// Goes on with a call.
    pub fn call<E>(
        &self,
        call: DeleteCall<E>,
        event: CallEvent<DeleteClosedObjectsRequest, (), E>,
    ) -> (next: DeleteCall<E>)
        ensures
            next == call.after(event, "invalid closed-prefix delete"),
    {
        call.step(event, "invalid closed-prefix delete")
    }

    /// The answer to a call that was carried out: the proof and the keys as they were sent.
    pub fn reply(&self, performed: Performed<DeleteClosedObjectsRequest, ()>) -> (reply: Reply<
        DeleteClosedObjectsResponse,
    >)
        ensures
            reply.status == 200,
            reply.secret_key == performed.secret_key,
            reply.body.proof == performed.request.proof,
            reply.body.keys == performed.request.keys,
    {
        Reply {
            status: 200,
            secret_key: performed.secret_key,
            body: DeleteClosedObjectsResponse {
                proof: performed.request.proof,
                keys: performed.request.keys,
            },
        }
    }
}

} // verus!
