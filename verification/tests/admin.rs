use closed_prefix::admin::{
    register_closed_prefix_route, AdminAction, AdminCall, AdminOperation, AdminRoute, CallAction,
    CallEvent, CallFailure, CloseCall, ClosePrefixHandler, DeleteCall, DeleteClosedObjectsHandler,
    DeleteClosedObjectsRequest, Method, Registration, RegistrationAction,
};
use closed_prefix::ident::Uuid;
use closed_prefix::records::{ClosedPrefixProofV1, ClosedPrefixV1};

fn request() -> ClosedPrefixV1 {
    ClosedPrefixV1 {
        bucket: "bucket".to_string(),
        prefix: "prefix".to_string(),
        operation: Uuid { bytes: [1; 16] },
        context_sha256: [2; 32],
    }
}

fn kept_proof() -> ClosedPrefixProofV1 {
    ClosedPrefixProofV1 {
        closed: request(),
        provider_deployment: Uuid { bytes: [3; 16] },
        bucket_incarnation: Uuid { bytes: [4; 16] },
    }
}

fn close(call: CloseCall<u8>, event: CallEvent<ClosedPrefixV1, ClosedPrefixProofV1, u8>) -> CloseCall<u8> {
    ClosePrefixHandler.call(call, event)
}

fn authorized() -> CloseCall<u8> {
    close(AdminCall::Authorize, CallEvent::Authorized(Ok("secret".to_string())))
}

fn with_body() -> CloseCall<u8> {
    close(close(authorized(), CallEvent::StoreFound(true)), CallEvent::Body(Some(vec![1, 2])))
}

fn close_route() -> AdminRoute {
    AdminRoute {
        method: Method::Post,
        path: "/rustfs/admin/v3/tokoloshe/closed-prefix".to_string(),
        operation: AdminOperation::ClosePrefix(ClosePrefixHandler),
    }
}

fn delete_route() -> AdminRoute {
    AdminRoute {
        method: Method::Post,
        path: "/rustfs/admin/v3/tokoloshe/closed-prefix/delete".to_string(),
        operation: AdminOperation::DeleteClosedObjects(DeleteClosedObjectsHandler),
    }
}

/// Registers into a router that refuses the route of this path.
fn register(refused: Option<&str>) -> (Vec<AdminRoute>, Vec<String>, Result<(), &'static str>) {
    let mut router = vec![];
    let mut tried = vec![];
    let mut registration: Registration<&'static str> = register_closed_prefix_route();
    while let RegistrationAction::Insert(route) = registration.action() {
        tried.push(route.path.clone());
        let inserted = if refused == Some(route.path.as_str()) {
            Err("refused")
        } else {
            router.push(route);
            Ok(())
        };
        registration = registration.step(inserted);
    }
    match registration {
        Registration::Finished(outcome) => (router, tried, outcome),
        _ => panic!("the registration is not over"),
    }
}

#[test]
fn both_routes_are_registered() {
    let (router, _, outcome) = register(None);
    assert_eq!(router, vec![close_route(), delete_route()]);
    assert_eq!(outcome, Ok(()));
}

#[test]
fn refused_first_route_ends_the_registration() {
    let (router, tried, outcome) = register(Some("/rustfs/admin/v3/tokoloshe/closed-prefix"));
    assert!(router.is_empty());
    assert_eq!(tried, vec!["/rustfs/admin/v3/tokoloshe/closed-prefix".to_string()]);
    assert_eq!(outcome, Err("refused"));
}

#[test]
fn refused_second_route_leaves_the_first() {
    let (router, tried, outcome) = register(Some("/rustfs/admin/v3/tokoloshe/closed-prefix/delete"));
    assert_eq!(router, vec![close_route()]);
    assert_eq!(tried.len(), 2);
    assert_eq!(outcome, Err("refused"));
}

#[test]
fn finished_registration_stays_finished() {
    let failed: Registration<u8> = Registration::Finished(Err(1));
    assert_eq!(failed.step(Ok(())), Registration::Finished(Err(1)));
    let done: Registration<u8> = Registration::Finished(Ok(()));
    assert_eq!(done.step(Err(1)), Registration::Finished(Ok(())));
}

#[test]
fn close_call_takes_its_steps_in_turn() {
    let handler = ClosePrefixHandler;
    let call: CloseCall<u8> = AdminCall::Authorize;
    assert_eq!(
        handler.action(&call, 10),
        CallAction::Authorize(AdminAction::TokolosheClosePrefixAction)
    );
    let call = authorized();
    assert_eq!(handler.action(&call, 10), CallAction::FindStore);
    let call = close(call, CallEvent::StoreFound(true));
    assert_eq!(handler.action(&call, 10), CallAction::ReadBody { limit: 10 });
    let call = close(call, CallEvent::Body(Some(vec![1, 2])));
    assert_eq!(handler.action(&call, 10), CallAction::Decode { body: &vec![1, 2] });
    let call = close(call, CallEvent::Decoded(Some(request())));
    assert_eq!(
        handler.action(&call, 10),
        CallAction::Mutate { name: "close_prefix", request: &request() }
    );
    let call = close(call, CallEvent::Mutated(Ok(kept_proof())));
    assert_eq!(handler.action(&call, 10), CallAction::Finish);
    match call {
        AdminCall::Finished(Ok(performed)) => {
            let reply = handler.reply(performed);
            assert_eq!(reply.status, 200);
            assert_eq!(reply.secret_key, "secret");
            assert_eq!(reply.body, kept_proof());
        }
        _ => panic!("the call failed"),
    }
}

#[test]
fn close_call_fails_where_a_step_fails() {
    assert_eq!(
        close(AdminCall::Authorize, CallEvent::Authorized(Err(3))),
        AdminCall::Finished(Err(CallFailure::Passed(3)))
    );
    assert_eq!(
        close(authorized(), CallEvent::StoreFound(false)),
        AdminCall::Finished(Err(CallFailure::InternalError("object store is not initialized")))
    );
    assert_eq!(
        close(close(authorized(), CallEvent::StoreFound(true)), CallEvent::Body(None)),
        AdminCall::Finished(Err(CallFailure::InvalidRequest("invalid request body")))
    );
    assert_eq!(
        close(with_body(), CallEvent::Decoded(None)),
        AdminCall::Finished(Err(CallFailure::InvalidRequest("invalid closed-prefix request")))
    );
    assert_eq!(
        close(close(with_body(), CallEvent::Decoded(Some(request()))), CallEvent::Mutated(Err(4))),
        AdminCall::Finished(Err(CallFailure::Passed(4)))
    );
}

#[test]
fn nothing_is_carried_out_for_a_caller_that_was_not_authorized() {
    let call = close(AdminCall::Authorize, CallEvent::Decoded(Some(request())));
    assert_eq!(call, AdminCall::Authorize);
    let call = close(call, CallEvent::Mutated(Ok(kept_proof())));
    assert_eq!(call, AdminCall::Authorize);
}

#[test]
fn delete_call_echoes_what_was_asked() {
    let handler = DeleteClosedObjectsHandler;
    let ask = || DeleteClosedObjectsRequest { proof: kept_proof(), keys: vec!["a".to_string(), "b".to_string()] };
    let call: DeleteCall<u8> = AdminCall::Authorize;
    assert_eq!(
        handler.action(&call, 7),
        CallAction::Authorize(AdminAction::TokolosheDeleteClosedObjectsAction)
    );
    let call = handler.call(call, CallEvent::Authorized(Ok("key".to_string())));
    let call = handler.call(call, CallEvent::StoreFound(true));
    assert_eq!(handler.action(&call, 7), CallAction::ReadBody { limit: 7 });
    let call = handler.call(call, CallEvent::Body(Some(vec![])));
    let call = handler.call(call, CallEvent::Decoded(Some(ask())));
    assert_eq!(
        handler.action(&call, 7),
        CallAction::Mutate { name: "delete_closed_prefix_objects", request: &ask() }
    );
    match handler.call(call, CallEvent::Mutated(Ok(()))) {
        AdminCall::Finished(Ok(performed)) => {
            let reply = handler.reply(performed);
            assert_eq!(reply.status, 200);
            assert_eq!(reply.secret_key, "key");
            assert_eq!(reply.body.proof, kept_proof());
            assert_eq!(reply.body.keys, vec!["a".to_string(), "b".to_string()]);
        }
        _ => panic!("the call failed"),
    }
    let call: DeleteCall<u8> = AdminCall::Decode { secret_key: "key".to_string(), body: vec![] };
    assert_eq!(
        handler.call(call, CallEvent::Decoded(None)),
        AdminCall::Finished(Err(CallFailure::InvalidRequest("invalid closed-prefix delete")))
    );
}
