// End-to-end tests of the dispatch pipeline, driven the way an
// application shell would drive it: the dispatcher decides, the driver
// runs the actual handler functions.

use std::cell::RefCell;
use std::rc::Rc;

use pencil::{Action, Outcome, Pencil};
use pencil::{HTTPError, Method, Module, PencilError, PencilResult, Request, Response, UserError};
use pencil::PencilError::PenUserError;

type View<'a> = Box<dyn Fn(&Request) -> PencilResult + 'a>;
type Before<'a> = Box<dyn Fn(&Request) -> Option<PencilResult> + 'a>;
type After<'a> = Box<dyn Fn(&Request, &mut Response) + 'a>;
type Teardown<'a> = Box<dyn Fn(Option<&PencilError>) + 'a>;
type ErrHandler<'a> = Box<dyn Fn(HTTPError) -> PencilResult + 'a>;
type UserHandler<'a> = Box<dyn Fn(UserError) -> PencilResult + 'a>;

#[derive(Default)]
struct Tables<'a> {
    views: Vec<View<'a>>,
    befores: Vec<Before<'a>>,
    afters: Vec<After<'a>>,
    teardowns: Vec<Teardown<'a>>,
    http_handlers: Vec<ErrHandler<'a>>,
    user_handlers: Vec<UserHandler<'a>>,
}

fn drive(app: &Pencil, request: Request, t: &Tables) -> Response {
    let (mut d, mut action) = app.handle_request(request);
    loop {
        match action {
            Action::RunBeforeHook { hook } => {
                let r = t.befores[hook](d.request());
                action = d.step(Outcome::BeforeHookDone(r));
            }
            Action::RunView { handler } => {
                let r = t.views[handler](d.request());
                action = d.step(Outcome::ViewDone(r));
            }
            Action::RunHttpErrorHandler { handler, error } => {
                let r = t.http_handlers[handler](error);
                action = d.step(Outcome::ErrorHandlerDone(r));
            }
            Action::RunUserErrorHandler { handler, error } => {
                let r = t.user_handlers[handler](error);
                action = d.step(Outcome::ErrorHandlerDone(r));
            }
            Action::RunAfterHooks { hooks, mut response } => {
                for h in &hooks {
                    t.afters[*h](d.request(), &mut response);
                }
                action = d.step(Outcome::AfterHooksDone(response));
            }
            Action::RunTeardownHooks { hooks, error } => {
                for h in &hooks {
                    t.teardowns[*h](error.as_ref());
                }
                action = d.step(Outcome::TeardownHooksDone);
            }
            Action::Done => break,
        }
    }
    assert!(d.finished());
    d.take_response()
}

fn get_request(path: &str) -> Request {
    Request::new("localhost".to_string(), path.to_string(), None, Method::Get)
}

#[test]
fn test_plain_dispatch() {
    let mut app = Pencil::new("/demo");
    app.get("/", "index", 0).unwrap();
    let mut t = Tables::default();
    t.views.push(Box::new(|_| Ok(Response::new("Hello World!".to_string()))));
    let resp = drive(&app, get_request("/"), &t);
    assert_eq!(resp.status_code, 200);
    assert_eq!(resp.body.unwrap(), "Hello World!");
}

#[test]
fn test_not_found_dispatch() {
    let mut app = Pencil::new("/demo");
    app.get("/", "index", 0).unwrap();
    let t = Tables::default();
    let resp = drive(&app, get_request("/missing"), &t);
    assert_eq!(resp.status_code, 404);
}

#[test]
fn test_redirect_dispatch() {
    let mut app = Pencil::new("/demo");
    app.get("/bar/", "bar", 0).unwrap();
    let t = Tables::default();
    let resp = drive(&app, get_request("/bar"), &t);
    assert_eq!(resp.status_code, 301);
    assert_eq!(resp.headers.get("Location").unwrap(), "http://localhost/bar/");
}

#[test]
fn test_method_not_allowed_dispatch() {
    let mut app = Pencil::new("/demo");
    app.get("/foo", "foo", 0).unwrap();
    let t = Tables::default();
    let req = Request::new("localhost".to_string(), "/foo".to_string(), None, Method::Post);
    let resp = drive(&app, req, &t);
    assert_eq!(resp.status_code, 405);
    assert_eq!(resp.headers.get("Allow").unwrap(), "GET, HEAD, OPTIONS");
}

#[test]
fn test_automatic_options_dispatch() {
    let mut app = Pencil::new("/demo");
    app.get("/foo", "foo", 0).unwrap();
    let t = Tables::default();
    let req = Request::new("localhost".to_string(), "/foo".to_string(), None, Method::Options);
    let resp = drive(&app, req, &t);
    assert_eq!(resp.status_code, 200);
    assert!(resp.body.is_none());
    assert_eq!(resp.headers.get("Allow").unwrap(), "GET, HEAD, OPTIONS");
}

#[test]
fn test_before_hook_short_circuits() {
    // a before-request hook that returns a value skips dispatching:
    // the view handler never runs
    let calls = Rc::new(RefCell::new(0));
    let mut app = Pencil::new("/demo");
    app.get("/", "index", 0).unwrap();
    app.before_request(0);
    let mut t = Tables::default();
    let c = calls.clone();
    t.views.push(Box::new(move |_| {
        *c.borrow_mut() += 1;
        Ok(Response::new("from the view".to_string()))
    }));
    t.befores.push(Box::new(|_| Some(Ok(Response::new("short-circuited".to_string())))));
    let resp = drive(&app, get_request("/"), &t);
    assert_eq!(resp.status_code, 200);
    assert_eq!(resp.body.unwrap(), "short-circuited");
    assert_eq!(*calls.borrow(), 0);
}

#[test]
fn test_user_error_recovered() {
    // a handler raises a user error with key "X"; the app-scoped
    // handler registered for "X" answers, and teardown sees a success
    let teardown_log = Rc::new(RefCell::new(Vec::new()));
    let mut app = Pencil::new("/demo");
    app.get("/", "index", 0).unwrap();
    app.register_user_error_handler("X", 0);
    app.teardown_request(0);
    let mut t = Tables::default();
    t.views.push(Box::new(|_| Err(PenUserError(UserError::new("X")))));
    t.user_handlers.push(Box::new(|e| {
        assert_eq!(e.desc, "X");
        Ok(Response::new("handled X".to_string()))
    }));
    let log = teardown_log.clone();
    t.teardowns.push(Box::new(move |err| {
        log.borrow_mut().push(err.is_none());
    }));
    let resp = drive(&app, get_request("/"), &t);
    assert_eq!(resp.status_code, 200);
    assert_eq!(resp.body.unwrap(), "handled X");
    // teardown ran exactly once and saw no error
    assert_eq!(*teardown_log.borrow(), vec![true]);
}

#[test]
fn test_unhandled_user_error_becomes_500() {
    let teardown_log = Rc::new(RefCell::new(Vec::new()));
    let mut app = Pencil::new("/demo");
    app.get("/", "index", 0).unwrap();
    app.teardown_request(0);
    let mut t = Tables::default();
    t.views.push(Box::new(|_| Err(PenUserError(UserError::new("unknown")))));
    let log = teardown_log.clone();
    t.teardowns.push(Box::new(move |err| {
        log.borrow_mut().push(err.is_some());
    }));
    let resp = drive(&app, get_request("/"), &t);
    assert_eq!(resp.status_code, 500);
    // teardown ran exactly once and saw the terminal error
    assert_eq!(*teardown_log.borrow(), vec![true]);
}

#[test]
fn test_http_error_handler_runs() {
    let mut app = Pencil::new("/demo");
    app.get("/", "index", 0).unwrap();
    app.httperrorhandler(404, 0);
    let mut t = Tables::default();
    t.http_handlers.push(Box::new(|e| {
        assert_eq!(e.code(), 404);
        Ok(Response::new("custom not found".to_string()))
    }));
    let resp = drive(&app, get_request("/missing"), &t);
    assert_eq!(resp.status_code, 200);
    assert_eq!(resp.body.unwrap(), "custom not found");
}

#[test]
fn test_after_hooks_modify_response() {
    let mut app = Pencil::new("/demo");
    app.get("/", "index", 0).unwrap();
    app.after_request(0);
    app.after_request(1);
    let mut t = Tables::default();
    t.views.push(Box::new(|_| Ok(Response::new("body".to_string()))));
    t.afters.push(Box::new(|_, resp| {
        resp.headers.add("X-First", "1");
    }));
    t.afters.push(Box::new(|_, resp| {
        resp.headers.add("X-Second", "2");
    }));
    let resp = drive(&app, get_request("/"), &t);
    assert_eq!(resp.headers.get("X-First").unwrap(), "1");
    assert_eq!(resp.headers.get("X-Second").unwrap(), "2");
}

#[test]
fn test_teardown_order_success_and_failure() {
    // teardown hooks run exactly once per request, in reverse
    // registration order, the module's before the application's —
    // on the success path and the failure path alike
    let log = Rc::new(RefCell::new(Vec::new()));
    let mut app = Pencil::new("/demo");
    app.get("/boom", "boom", 1).unwrap();
    let mut module = Module::new("m", "/demo/m");
    module.route("/hello", &vec![Method::Get], "hello", 0).unwrap();
    module.teardown_request(0);
    module.teardown_request(1);
    app.register_module(module);
    app.teardown_request(2);
    app.teardown_request(3);

    let mut t = Tables::default();
    t.views.push(Box::new(|_| Ok(Response::new("hi".to_string()))));
    t.views.push(Box::new(|_| Err(PenUserError(UserError::new("boom")))));
    for id in 0..4 {
        let log = log.clone();
        t.teardowns.push(Box::new(move |err| {
            log.borrow_mut().push((id, err.is_some()));
        }));
    }

    // success path, inside the module: module hooks (reversed), then
    // the application's (reversed)
    let resp = drive(&app, get_request("/hello"), &t);
    assert_eq!(resp.status_code, 200);
    assert_eq!(*log.borrow(), vec![(1, false), (0, false), (3, false), (2, false)]);

    // failure path, outside the module: only the application's hooks
    log.borrow_mut().clear();
    let resp = drive(&app, get_request("/boom"), &t);
    assert_eq!(resp.status_code, 500);
    assert_eq!(*log.borrow(), vec![(3, true), (2, true)]);
}

#[test]
fn test_module_scoped_hooks_and_handlers() {
    let before_log = Rc::new(RefCell::new(Vec::new()));
    let mut app = Pencil::new("/demo");
    app.get("/plain", "plain", 0).unwrap();
    let mut module = Module::new("m", "/demo/m");
    module.route("/x", &vec![Method::Get], "x", 1).unwrap();
    module.before_request(0);
    module.usererrorhandler("E", 0);
    app.register_module(module);

    let mut t = Tables::default();
    t.views.push(Box::new(|_| Ok(Response::new("plain".to_string()))));
    t.views.push(Box::new(|req| {
        assert_eq!(req.url_rule.as_ref().unwrap().endpoint, "m.x");
        Err(PenUserError(UserError::new("E")))
    }));
    let log = before_log.clone();
    t.befores.push(Box::new(move |_| {
        log.borrow_mut().push(());
        None
    }));
    t.user_handlers.push(Box::new(|_| Ok(Response::new("module handled".to_string()))));

    // the module's before hook and error handler answer its request
    let resp = drive(&app, get_request("/x"), &t);
    assert_eq!(resp.body.unwrap(), "module handled");
    assert_eq!(before_log.borrow().len(), 1);

    // a request outside the module sees neither
    let resp = drive(&app, get_request("/plain"), &t);
    assert_eq!(resp.body.unwrap(), "plain");
    assert_eq!(before_log.borrow().len(), 1);
}

#[test]
fn test_before_hooks_run_for_routing_errors() {
    // a routing error is carried as a pending error, so before-request
    // hooks still get their chance to short-circuit the response
    let calls = Rc::new(RefCell::new(0));
    let mut app = Pencil::new("/demo");
    app.get("/", "index", 0).unwrap();
    app.before_request(0);
    let mut t = Tables::default();
    t.views.push(Box::new(|_| Ok(Response::new("index".to_string()))));
    let c = calls.clone();
    t.befores.push(Box::new(move |_| {
        *c.borrow_mut() += 1;
        None
    }));
    let resp = drive(&app, get_request("/missing"), &t);
    assert_eq!(resp.status_code, 404);
    assert_eq!(*calls.borrow(), 1);
}

#[test]
fn test_redirect_bypasses_before_hooks() {
    // a pure redirect outcome goes straight to the redirect response;
    // before-request hooks do not run around it
    let calls = Rc::new(RefCell::new(0));
    let mut app = Pencil::new("/demo");
    app.get("/bar/", "bar", 0).unwrap();
    app.before_request(0);
    let mut t = Tables::default();
    t.views.push(Box::new(|_| Ok(Response::new("bar".to_string()))));
    let c = calls.clone();
    t.befores.push(Box::new(move |_| {
        *c.borrow_mut() += 1;
        None
    }));
    let resp = drive(&app, get_request("/bar"), &t);
    assert_eq!(resp.status_code, 301);
    assert_eq!(*calls.borrow(), 0);
}

#[test]
fn test_module_endpoint_separator_refused() {
    let mut module = Module::new("m", "/demo/m");
    let r = module.route("/x", &vec![Method::Get], "a.b", 0);
    assert!(r.is_err());
}
