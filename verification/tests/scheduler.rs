use web::arena::Allocator;
use web::err::Error;
use web::manager::{error, hello, root, Action, Context, Manager, Mapping, ReadEvent, RequestHandler};
use web::request::{HttpMethod, RequestHeader};

fn hello_route(arena: &mut Allocator) -> RequestHeader {
    RequestHeader::new(HttpMethod::Get, b"/hello", 1, arena).unwrap()
}

fn server() -> Manager {
    let mut arena = Allocator::new(81920);
    let mut mgr = Manager::new(&mut arena, b"hello", b"oops!").unwrap();
    let mut keys = Allocator::new(4096);
    mgr.register(hello_route(&mut keys), Mapping { file_index: 0 }).unwrap();
    mgr
}

#[test]
fn end_to_end_hit_gets_a_success_response() {
    let mut mgr = server();
    mgr.append(RequestHandler::new(7)).unwrap();
    mgr.swap();
    let action = mgr.next(ReadEvent::Data(b"GET /hello HTTP/1.1\r\n\r\n".to_vec()));
    match action {
        Action::Respond(token, response) => {
            assert_eq!(token, 7);
            assert!(response.body().starts_with(b"HTTP/1.1 200 OK"));
            // the content length matches the registered page exactly: the
            // five-byte body gives the decimal text "5"
            let mut wanted =
                b"HTTP/1.1 200 OK\r\nContent-Type: text/html\r\nContent-Length: ".to_vec();
            wanted.extend_from_slice(b"5");
            wanted.extend_from_slice(b"\r\n\r\nhello");
            assert_eq!(response.body(), wanted.as_slice());
        },
        _ => panic!("expected a response"),
    }
    assert!(!mgr.has_waiting());
    assert!(matches!(mgr.next(ReadEvent::WouldBlock), Action::Idle));
}

#[test]
fn end_to_end_miss_gets_the_fallback_response() {
    let mut mgr = server();
    mgr.append(RequestHandler::new(3)).unwrap();
    mgr.swap();
    let action = mgr.next(ReadEvent::Data(b"GET /missing HTTP/1.1\r\n\r\n".to_vec()));
    match action {
        Action::Respond(token, response) => {
            assert_eq!(token, 3);
            assert!(response.body().starts_with(b"HTTP/1.1 404 ERROR"));
        },
        _ => panic!("expected the fallback response"),
    }
}

#[test]
fn unsupported_method_is_rejected_before_routing() {
    let mut mgr = server();
    mgr.append(RequestHandler::new(9)).unwrap();
    mgr.swap();
    let action = mgr.next(ReadEvent::Data(b"DELETE /hello HTTP/1.1\r\n\r\n".to_vec()));
    assert!(matches!(action, Action::Abandoned(9)));
    assert!(!mgr.has_waiting());
}

#[test]
fn one_tick_drains_tasks_that_complete_on_first_poll() {
    let mut mgr = server();
    for token in 0..5usize {
        mgr.append(RequestHandler::new(token)).unwrap();
    }
    mgr.swap();
    let mut responded = 0usize;
    loop {
        match mgr.next(ReadEvent::Data(b"GET /hello HTTP/1.1\r\n\r\n".to_vec())) {
            Action::Respond(_, _) => responded += 1,
            Action::Idle => break,
            _ => panic!("every task completes on its first poll"),
        }
    }
    assert_eq!(responded, 5);
    assert!(!mgr.has_waiting());
    assert_eq!(mgr.current_token(), None);
}

#[test]
fn deferred_task_survives_k_ticks_then_leaves_on_completion() {
    let mut mgr = server();
    mgr.append(RequestHandler::new(1)).unwrap();
    let k = 3usize;
    for _ in 0..k {
        assert!(mgr.has_waiting());
        mgr.swap();
        assert!(matches!(mgr.next(ReadEvent::WouldBlock), Action::Deferred(1)));
        assert!(matches!(mgr.next(ReadEvent::WouldBlock), Action::Idle));
    }
    assert!(mgr.has_waiting());
    mgr.swap();
    let action = mgr.next(ReadEvent::Data(b"GET /hello HTTP/1.1\r\n\r\n".to_vec()));
    assert!(matches!(action, Action::Respond(1, _)));
    assert!(!mgr.has_waiting());
    assert!(matches!(mgr.next(ReadEvent::WouldBlock), Action::Idle));
}

#[test]
fn failed_socket_abandons_the_task() {
    let mut mgr = server();
    mgr.append(RequestHandler::new(2)).unwrap();
    mgr.swap();
    assert!(matches!(mgr.next(ReadEvent::Failed), Action::Abandoned(2)));
    assert!(!mgr.has_waiting());
}

#[test]
fn admission_stops_at_queue_capacity() {
    let mut mgr = server();
    for token in 0..20usize {
        mgr.append(RequestHandler::new(token)).unwrap();
    }
    assert_eq!(mgr.append(RequestHandler::new(20)), Err(Error::OutOfBounds));
}

#[test]
fn current_token_names_the_next_task_polled() {
    let mut mgr = server();
    assert_eq!(mgr.current_token(), None);
    mgr.append(RequestHandler::new(11)).unwrap();
    assert_eq!(mgr.current_token(), None);
    mgr.swap();
    assert_eq!(mgr.current_token(), Some(11));
}

#[test]
fn context_handlers_build_their_pages() {
    let mut arena = Allocator::new(81920);
    let mut ctx = Context::new(&mut arena, b"hello", b"oops!").unwrap();
    let ok = root(&mut ctx).unwrap();
    assert!(ok.body().starts_with(b"HTTP/1.1 200 OK"));
    assert!(ok.body().ends_with(b"hello"));
    let hi = hello(&mut ctx).unwrap();
    assert!(hi.body().starts_with(b"HTTP/1.1 200 OK"));
    let missing = error(&mut ctx).unwrap();
    assert!(missing.body().starts_with(b"HTTP/1.1 404 ERROR"));
    assert!(missing.body().ends_with(b"oops!"));
}

#[test]
fn register_and_dispatch_are_the_route_table_boundary() {
    let mut arena = Allocator::new(81920);
    let mut ctx = Context::new(&mut arena, b"hello", b"oops!").unwrap();
    let mut keys = Allocator::new(4096);
    let route = hello_route(&mut keys);
    assert_eq!(ctx.dispatch(&route), None);
    ctx.register(hello_route(&mut keys), Mapping { file_index: 0 }).unwrap();
    assert_eq!(ctx.dispatch(&route), Some(Mapping { file_index: 0 }));
}

#[test]
fn scratch_buffer_is_reclaimed_on_deferral() {
    // a context arena with room for exactly one scratch carve still serves
    // any number of deferring polls: the carve is reclaimed every time
    let mut mgr = server();
    mgr.append(RequestHandler::new(4)).unwrap();
    for _ in 0..100 {
        mgr.swap();
        assert!(matches!(mgr.next(ReadEvent::WouldBlock), Action::Deferred(4)));
    }
}
