use http_server::{HttpError, HttpResponse, Method, Router, Server, StatusCode};

#[test]
fn registered_routes_are_found() {
    let mut router: Router<u32> = Router::new();
    router.get("/", 1);
    router.post("/", 2);
    router.put("/a", 3);
    router.delete("/a", 4);
    router.patch("/a", 5);
    assert_eq!(router.route(Method::Get, "/").ok(), Some(&1));
    assert_eq!(router.route(Method::Post, "/").ok(), Some(&2));
    assert_eq!(router.route(Method::Put, "/a").ok(), Some(&3));
    assert_eq!(router.route(Method::Delete, "/a").ok(), Some(&4));
    assert_eq!(router.route(Method::Patch, "/a").ok(), Some(&5));
}

#[test]
fn later_registration_replaces_earlier() {
    let mut router: Router<u32> = Router::new();
    router.get("/x", 1);
    router.get("/x", 2);
    assert_eq!(router.route(Method::Get, "/x").ok(), Some(&2));
}

#[test]
fn unregistered_route_is_not_found() {
    let mut router: Router<u32> = Router::new();
    router.get("/coffee", 1);
    let miss = router.route(Method::Post, "/coffee");
    let e = match miss {
        Err(e) => e,
        Ok(_) => panic!("expected no route"),
    };
    assert_eq!(HttpError::message(&e), "Cannot POST /coffee");
    assert_eq!(HttpError::status_code(&e), StatusCode::NotFound);
    assert_eq!(
        String::from_utf8(e.into_response()).unwrap(),
        "{\"error\":\"Cannot POST /coffee\",\"message\":\"Not Found\",\"status_code\":404}"
    );
    assert!(router.route(Method::Get, "/tea").is_err());
}

#[test]
fn server_keeps_address_and_routes() {
    let mut router: Router<u32> = Router::new();
    router.get("/", 9);
    let server = Server::new("127.0.0.1:8080", router);
    assert_eq!(server.addr(), "127.0.0.1:8080");
    assert_eq!(server.router().route(Method::Get, "/").ok(), Some(&9));
}
