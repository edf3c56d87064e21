//! The central application object: the rule map, the handler registry
//! and the scoped hook lists.
//!
//! Handler and hook functions themselves live outside the verified
//! core — Verus holds no function values — so the application refers to
//! each by a caller-chosen identifier.  The dispatcher asks the caller
//! to run a handler by returning its identifier and takes the handler's
//! result back; every decision in between is made, and verified, here.

use vstd::prelude::*;

verus! {

use crate::datastructures::{hhas, CodeDict, Dict};
use crate::errors::HTTPError;
use crate::method::{method_set, spec_allow_value, Method};
use crate::module::Module;
use crate::routing::{args_match, rule_like, spec_compile, Matcher, Rule, RuleError, RuleErrorV,
    SegV, UrlMap, spec_allowed_methods, spec_effective_methods, spec_redirect_location,
    spec_resolve_rules, SpecOutcome};
use crate::types::{PencilError, PencilResult, UserError};
use crate::wrappers::{spec_module_of, Request, Response};

/// The application object: a registry for view handlers, URL rules,
/// hooks and error handlers.
pub struct Pencil {
    /// The path where the application lives.
    pub root_path: String,
    /// The name of the application.
    pub name: String,
    /// The folder with static files.
    pub static_folder: String,
    /// The url path for the static files on the web.
    pub static_url_path: String,
    /// The folder that contains the templates.
    pub template_folder: String,
    /// The url map for this application.
    pub url_map: UrlMap,
    /// All the attached modules, by name.
    pub modules: Dict<Module>,
    /// View handler identifiers, by endpoint.
    pub view_functions: Dict<usize>,
    /// Identifiers of hooks run before each request, in registration
    /// order.
    pub before_request_hooks: Vec<usize>,
    /// Identifiers of hooks run after each request.
    pub after_request_hooks: Vec<usize>,
    /// Identifiers of hooks run when tearing each request down.
    pub teardown_request_hooks: Vec<usize>,
    /// HTTP error handler identifiers, by status code.
    pub http_error_handlers: CodeDict,
    /// User error handler identifiers, by error description.
    pub user_error_handlers: Dict<usize>,
}

impl Pencil {
    /// All the registries are well formed.
    pub open spec fn wf(&self) -> bool {
        &&& self.url_map.wf()
        &&& self.modules.wf()
        &&& self.view_functions.wf()
        &&& self.http_error_handlers.wf()
        &&& self.user_error_handlers.wf()
        &&& forall|k: Seq<char>|
            self.modules.contains_key(k) ==> (#[trigger] self.modules.spec_get(k)).scoped_wf()
    }

    /// Create a new application object rooted at `root_path`.
    pub fn new(root_path: &str) -> (r: Pencil)
        ensures
            r.wf(),
            r.root_path@ == root_path@,
            r.name@ == root_path@,
            r.static_folder@ == "static"@,
            r.static_url_path@ == "/static"@,
            r.template_folder@ == "templates"@,
            r.url_map.rules@ == Seq::<Rule>::empty(),
            forall|k: Seq<char>| !r.modules.contains_key(k),
            forall|k: Seq<char>| !r.view_functions.contains_key(k),
            r.before_request_hooks@ == Seq::<usize>::empty(),
            r.after_request_hooks@ == Seq::<usize>::empty(),
            r.teardown_request_hooks@ == Seq::<usize>::empty(),
            forall|c: u16| !r.http_error_handlers.contains_key(c),
            forall|k: Seq<char>| !r.user_error_handlers.contains_key(k),
    {
        let r = Pencil {
            root_path: root_path.to_owned(),
            name: root_path.to_owned(),
            static_folder: "static".to_owned(),
            static_url_path: "/static".to_owned(),
            template_folder: "templates".to_owned(),
            url_map: UrlMap::new(),
            modules: Dict::new(),
            view_functions: Dict::new(),
            before_request_hooks: Vec::new(),
            after_request_hooks: Vec::new(),
            teardown_request_hooks: Vec::new(),
            http_error_handlers: CodeDict::new(),
            user_error_handlers: Dict::new(),
        };
        proof {
            assert(r.before_request_hooks@ =~= Seq::<usize>::empty());
            assert(r.after_request_hooks@ =~= Seq::<usize>::empty());
            assert(r.teardown_request_hooks@ =~= Seq::<usize>::empty());
        }
        r
    }

    /// Everything other than the rule map and the view registry is
    /// unchanged.
    pub open spec fn same_but_rules(&self, other: &Pencil) -> bool {
        &&& self.root_path == other.root_path
        &&& self.name == other.name
        &&& self.static_folder == other.static_folder
        &&& self.static_url_path == other.static_url_path
        &&& self.template_folder == other.template_folder
        &&& self.modules == other.modules
        &&& self.before_request_hooks == other.before_request_hooks
        &&& self.after_request_hooks == other.after_request_hooks
        &&& self.teardown_request_hooks == other.teardown_request_hooks
        &&& self.http_error_handlers == other.http_error_handlers
        &&& self.user_error_handlers == other.user_error_handlers
    }

    /// What registering one route does: on success the rule string
    /// compiled, one rule was appended for it — answering the effective
    /// method set of `methods`, under `endpoint` — and the handler was
    /// registered under the endpoint, everything else unchanged; on
    /// failure the compile error is returned and nothing changed.
    pub open spec fn routed(
        pre: &Pencil,
        post: &Pencil,
        rule: Seq<char>,
        methods: Seq<Method>,
        endpoint: Seq<char>,
        view_func: usize,
        r: Result<(), RuleError>,
    ) -> bool {
        match r {
            Ok(_) => {
                &&& post.same_but_rules(pre)
                &&& post.url_map.rules@.len() == pre.url_map.rules@.len() + 1
                &&& (forall|i: int|
                    0 <= i < pre.url_map.rules@.len() ==> post.url_map.rules@[i]
                        == pre.url_map.rules@[i])
                &&& ({
                    let added = post.url_map.rules@.last();
                    &&& added.endpoint@ == endpoint
                    &&& spec_compile(rule) == Ok::<(Seq<SegV>, bool), RuleErrorV>(
                        (added.matcher.segs_view(), added.matcher.is_branch),
                    )
                    &&& method_set(added.methods@) == spec_effective_methods(method_set(methods))
                    &&& added.provide_automatic_options == !method_set(methods).contains(
                        Method::Options,
                    )
                })
                &&& post.view_functions.contains_key(endpoint)
                &&& post.view_functions.spec_get(endpoint) == view_func
                &&& (forall|k: Seq<char>|
                    k != endpoint ==> post.view_functions.contains_key(k)
                        == pre.view_functions.contains_key(k))
                &&& (forall|k: Seq<char>|
                    k != endpoint && pre.view_functions.contains_key(k)
                        ==> post.view_functions.spec_get(k) == pre.view_functions.spec_get(k))
            },
            Err(e) => spec_compile(rule) == Err::<(Seq<SegV>, bool), RuleErrorV>(e@) && *post
                == *pre,
        }
    }

    /// Connect a URL rule: append it to the rule map and register the
    /// view handler under the endpoint, replacing any earlier handler
    /// registered there.
    pub fn add_url_rule(
        &mut self,
        matcher: Matcher,
        methods: &Vec<Method>,
        endpoint: &str,
        view_func: usize,
    )
        requires
            old(self).wf(),
            matcher.wf(),
        ensures
            final(self).wf(),
            final(self).same_but_rules(old(self)),
            final(self).url_map.rules@.len() == old(self).url_map.rules@.len() + 1,
            forall|i: int|
                0 <= i < old(self).url_map.rules@.len() ==> final(self).url_map.rules@[i] == old(self).url_map.rules@[i],
            ({
                let rule = final(self).url_map.rules@.last();
                &&& rule.endpoint@ == endpoint@
                &&& rule.matcher.segs_view() == matcher.segs_view()
                &&& rule.matcher.is_branch == matcher.is_branch
                &&& method_set(rule.methods@) == spec_effective_methods(method_set(methods@))
                &&& rule.provide_automatic_options == !method_set(methods@).contains(
                    Method::Options,
                )
            }),
            final(self).view_functions.contains_key(endpoint@),
            final(self).view_functions.spec_get(endpoint@) == view_func,
            forall|k: Seq<char>|
                k != endpoint@ ==> final(self).view_functions.contains_key(k) == old(self).view_functions.contains_key(k),
            forall|k: Seq<char>|
                k != endpoint@ && old(self).view_functions.contains_key(k) ==> final(self).view_functions.spec_get(k) == old(self).view_functions.spec_get(k),
    {
        let url_rule = Rule::new(matcher, methods, endpoint);
        self.url_map.add(url_rule);
        self.view_functions.insert(endpoint.to_owned(), view_func);
    }

    /// Register a view handler for a URL rule given as a rule string.
    pub fn route(&mut self, rule: &str, methods: &Vec<Method>, endpoint: &str, view_func: usize)
        -> (r: Result<(), RuleError>)
        requires
            old(self).wf(),
        ensures
            final(self).wf(),
            Pencil::routed(old(self), final(self), rule@, methods@, endpoint@, view_func, r),
    {
        match Matcher::new(rule) {
            Ok(matcher) => {
                self.add_url_rule(matcher, methods, endpoint, view_func);
                Ok(())
            },
            Err(e) => Err(e),
        }
    }

    /// Register a view handler for a rule answering `GET` (and so also
    /// `HEAD`).
    pub fn get(&mut self, rule: &str, endpoint: &str, view_func: usize) -> (r: Result<
        (),
        RuleError,
    >)
        requires
            old(self).wf(),
        ensures
            final(self).wf(),
            Pencil::routed(
                old(self),
                final(self),
                rule@,
                seq![Method::Get],
                endpoint@,
                view_func,
                r,
            ),
    {
        let mut methods: Vec<Method> = Vec::new();
        methods.push(Method::Get);
        proof {
            assert(methods@ =~= seq![Method::Get]);
        }
        self.route(rule, &methods, endpoint, view_func)
    }

    /// Register a view handler for a rule answering `POST`.
    pub fn post(&mut self, rule: &str, endpoint: &str, view_func: usize) -> (r: Result<
        (),
        RuleError,
    >)
        requires
            old(self).wf(),
        ensures
            final(self).wf(),
            Pencil::routed(
                old(self),
                final(self),
                rule@,
                seq![Method::Post],
                endpoint@,
                view_func,
                r,
            ),
    {
        let mut methods: Vec<Method> = Vec::new();
        methods.push(Method::Post);
        proof {
            assert(methods@ =~= seq![Method::Post]);
        }
        self.route(rule, &methods, endpoint, view_func)
    }

    /// Register a view handler for a rule answering `DELETE`.
    pub fn delete(&mut self, rule: &str, endpoint: &str, view_func: usize) -> (r: Result<
        (),
        RuleError,
    >)
        requires
            old(self).wf(),
        ensures
            final(self).wf(),
            Pencil::routed(
                old(self),
                final(self),
                rule@,
                seq![Method::Delete],
                endpoint@,
                view_func,
                r,
            ),
    {
        let mut methods: Vec<Method> = Vec::new();
        methods.push(Method::Delete);
        proof {
            assert(methods@ =~= seq![Method::Delete]);
        }
        self.route(rule, &methods, endpoint, view_func)
    }

    /// Register a view handler for a rule answering `PATCH`.
    pub fn patch(&mut self, rule: &str, endpoint: &str, view_func: usize) -> (r: Result<
        (),
        RuleError,
    >)
        requires
            old(self).wf(),
        ensures
            final(self).wf(),
            Pencil::routed(
                old(self),
                final(self),
                rule@,
                seq![Method::Patch],
                endpoint@,
                view_func,
                r,
            ),
    {
        let mut methods: Vec<Method> = Vec::new();
        methods.push(Method::Patch);
        proof {
            assert(methods@ =~= seq![Method::Patch]);
        }
        self.route(rule, &methods, endpoint, view_func)
    }

    /// Register a view handler for a rule answering `PUT`.
    pub fn put(&mut self, rule: &str, endpoint: &str, view_func: usize) -> (r: Result<
        (),
        RuleError,
    >)
        requires
            old(self).wf(),
        ensures
            final(self).wf(),
            Pencil::routed(
                old(self),
                final(self),
                rule@,
                seq![Method::Put],
                endpoint@,
                view_func,
                r,
            ),
    {
        let mut methods: Vec<Method> = Vec::new();
        methods.push(Method::Put);
        proof {
            assert(methods@ =~= seq![Method::Put]);
        }
        self.route(rule, &methods, endpoint, view_func)
    }

    /// Enable static file handling: route `GET <static_url_path>/<path:filename>`
    /// to the given handler under the endpoint `static`.
    pub fn enable_static_file_handling(&mut self, view_func: usize) -> (r: Result<(), RuleError>)
        requires
            old(self).wf(),
        ensures
            final(self).wf(),
            Pencil::routed(
                old(self),
                final(self),
                old(self).static_url_path@ + "/<path:filename>"@,
                seq![Method::Get],
                "static"@,
                view_func,
                r,
            ),
    {
        let mut rule = self.static_url_path.clone();
        rule.append("/<path:filename>");
        self.get(rule.as_str(), "static", view_func)
    }

    /// Register a hook to run before each request.
    pub fn before_request(&mut self, f: usize)
        ensures
            final(self).before_request_hooks@ == old(self).before_request_hooks@.push(f),
            final(self).after_request_hooks == old(self).after_request_hooks,
            final(self).teardown_request_hooks == old(self).teardown_request_hooks,
            final(self).url_map == old(self).url_map,
            final(self).modules == old(self).modules,
            final(self).view_functions == old(self).view_functions,
            final(self).http_error_handlers == old(self).http_error_handlers,
            final(self).user_error_handlers == old(self).user_error_handlers,
            old(self).wf() ==> final(self).wf(),
    {
        self.before_request_hooks.push(f);
    }

    /// Register a hook to run after each request.
    pub fn after_request(&mut self, f: usize)
        ensures
            final(self).after_request_hooks@ == old(self).after_request_hooks@.push(f),
            final(self).before_request_hooks == old(self).before_request_hooks,
            final(self).teardown_request_hooks == old(self).teardown_request_hooks,
            final(self).url_map == old(self).url_map,
            final(self).modules == old(self).modules,
            final(self).view_functions == old(self).view_functions,
            final(self).http_error_handlers == old(self).http_error_handlers,
            final(self).user_error_handlers == old(self).user_error_handlers,
            old(self).wf() ==> final(self).wf(),
    {
        self.after_request_hooks.push(f);
    }

    /// Register a hook to run at the end of each request, whether or
    /// not there was an error.
    pub fn teardown_request(&mut self, f: usize)
        ensures
            final(self).teardown_request_hooks@ == old(self).teardown_request_hooks@.push(f),
            final(self).before_request_hooks == old(self).before_request_hooks,
            final(self).after_request_hooks == old(self).after_request_hooks,
            final(self).url_map == old(self).url_map,
            final(self).modules == old(self).modules,
            final(self).view_functions == old(self).view_functions,
            final(self).http_error_handlers == old(self).http_error_handlers,
            final(self).user_error_handlers == old(self).user_error_handlers,
            old(self).wf() ==> final(self).wf(),
    {
        self.teardown_request_hooks.push(f);
    }

    /// Register a handler for one HTTP error status code.
    pub fn register_http_error_handler(&mut self, status_code: u16, f: usize)
        requires
            old(self).wf(),
        ensures
            final(self).wf(),
            final(self).http_error_handlers.contains_key(status_code),
            final(self).http_error_handlers.spec_get(status_code) == f,
            forall|c: u16|
                c != status_code ==> final(self).http_error_handlers.contains_key(c) == old(self).http_error_handlers.contains_key(c),
            final(self).before_request_hooks == old(self).before_request_hooks,
            final(self).after_request_hooks == old(self).after_request_hooks,
            final(self).teardown_request_hooks == old(self).teardown_request_hooks,
            final(self).url_map == old(self).url_map,
            final(self).modules == old(self).modules,
            final(self).view_functions == old(self).view_functions,
            final(self).user_error_handlers == old(self).user_error_handlers,
    {
        self.http_error_handlers.insert(status_code, f);
    }

    /// Register a handler for one user error description key.
    pub fn register_user_error_handler(&mut self, error_desc: &str, f: usize)
        requires
            old(self).wf(),
        ensures
            final(self).wf(),
            final(self).user_error_handlers.contains_key(error_desc@),
            final(self).user_error_handlers.spec_get(error_desc@) == f,
            forall|k: Seq<char>|
                k != error_desc@ ==> final(self).user_error_handlers.contains_key(k) == old(self).user_error_handlers.contains_key(k),
            final(self).before_request_hooks == old(self).before_request_hooks,
            final(self).after_request_hooks == old(self).after_request_hooks,
            final(self).teardown_request_hooks == old(self).teardown_request_hooks,
            final(self).url_map == old(self).url_map,
            final(self).modules == old(self).modules,
            final(self).view_functions == old(self).view_functions,
            final(self).http_error_handlers == old(self).http_error_handlers,
    {
        self.user_error_handlers.insert(error_desc.to_owned(), f);
    }

    /// Register a handler for one HTTP error status code.
    pub fn httperrorhandler(&mut self, status_code: u16, f: usize)
        requires
            old(self).wf(),
        ensures
            final(self).wf(),
            final(self).http_error_handlers.contains_key(status_code),
            final(self).http_error_handlers.spec_get(status_code) == f,
            forall|c: u16|
                c != status_code ==> final(self).http_error_handlers.contains_key(c) == old(
                    self,
                ).http_error_handlers.contains_key(c),
            final(self).before_request_hooks == old(self).before_request_hooks,
            final(self).after_request_hooks == old(self).after_request_hooks,
            final(self).teardown_request_hooks == old(self).teardown_request_hooks,
            final(self).url_map == old(self).url_map,
            final(self).modules == old(self).modules,
            final(self).view_functions == old(self).view_functions,
            final(self).user_error_handlers == old(self).user_error_handlers,
    {
        self.register_http_error_handler(status_code, f);
    }

    /// Register a handler for one user error description key.
    pub fn usererrorhandler(&mut self, error_desc: &str, f: usize)
        requires
            old(self).wf(),
        ensures
            final(self).wf(),
            final(self).user_error_handlers.contains_key(error_desc@),
            final(self).user_error_handlers.spec_get(error_desc@) == f,
            forall|k: Seq<char>|
                k != error_desc@ ==> final(self).user_error_handlers.contains_key(k) == old(
                    self,
                ).user_error_handlers.contains_key(k),
            final(self).before_request_hooks == old(self).before_request_hooks,
            final(self).after_request_hooks == old(self).after_request_hooks,
            final(self).teardown_request_hooks == old(self).teardown_request_hooks,
            final(self).url_map == old(self).url_map,
            final(self).modules == old(self).modules,
            final(self).view_functions == old(self).view_functions,
            final(self).http_error_handlers == old(self).http_error_handlers,
    {
        self.register_user_error_handler(error_desc, f);
    }

    /// Register a module on the application: its deferred routes are
    /// added under their prefixed endpoints, its deferred
    /// application-level registrations are applied in order, and the
    /// module itself is stored under its name, so that its scoped hooks
    /// and error handlers take part in its requests.
    pub fn register_module(&mut self, module: Module)
        requires
            old(self).wf(),
            module.scoped_wf(),
            module.routes_wf(),
        ensures
            final(self).wf(),
            final(self).modules.contains_key(module.name@),
            ({
                let stored = final(self).modules.spec_get(module.name@);
                &&& stored.before_request_hooks == module.before_request_hooks
                &&& stored.after_request_hooks == module.after_request_hooks
                &&& stored.teardown_request_hooks == module.teardown_request_hooks
                &&& stored.http_error_handlers == module.http_error_handlers
                &&& stored.user_error_handlers == module.user_error_handlers
            }),
            forall|k: Seq<char>|
                k != module.name@ ==> final(self).modules.contains_key(k) == old(
                    self,
                ).modules.contains_key(k),
            final(self).url_map.rules@.len() == old(self).url_map.rules@.len()
                + module.deferred_routes@.len(),
            forall|i: int|
                0 <= i < old(self).url_map.rules@.len() ==> final(self).url_map.rules@[i] == old(
                    self,
                ).url_map.rules@[i],
            forall|k: int|
                0 <= k < module.deferred_routes@.len() ==> {
                    let rule = final(self).url_map.rules@[old(self).url_map.rules@.len() + k];
                    let route = #[trigger] module.deferred_routes@[k];
                    &&& rule.endpoint@ == route.2@
                    &&& rule.matcher.segs_view() == route.0.segs_view()
                    &&& rule.matcher.is_branch == route.0.is_branch
                    &&& method_set(rule.methods@) == spec_effective_methods(method_set(route.1@))
                },
            forall|k: int|
                0 <= k < module.deferred_routes@.len() ==> final(self).view_functions.contains_key(
                    (#[trigger] module.deferred_routes@[k]).2@,
                ),
            final(self).before_request_hooks@ == old(self).before_request_hooks@
                + crate::module::cmd_before(module.deferred_commands@),
            final(self).after_request_hooks@ == old(self).after_request_hooks@
                + crate::module::cmd_after(module.deferred_commands@),
            final(self).teardown_request_hooks@ == old(self).teardown_request_hooks@
                + crate::module::cmd_teardown(module.deferred_commands@),
    {
        module.register(self);
    }
}


/// What the dispatcher asks its driver to do next.  The driver runs the
/// named handler or hooks and feeds the outcome back with
/// [`Dispatcher::step`].
pub enum Action {
    /// Run one before-request hook; it may short-circuit the request.
    RunBeforeHook { hook: usize },
    /// Run the view handler of the matched endpoint.
    RunView { handler: usize },
    /// Run an HTTP error handler on the given error.
    RunHttpErrorHandler { handler: usize, error: HTTPError },
    /// Run a user error handler on the given error.
    RunUserErrorHandler { handler: usize, error: UserError },
    /// Run the after-request hooks, in the order given, each allowed to
    /// modify the response; hand the response back afterwards.
    RunAfterHooks { hooks: Vec<usize>, response: Response },
    /// Run the teardown hooks, in the order given, passing each the
    /// terminal error — or nothing on success.
    RunTeardownHooks { hooks: Vec<usize>, error: Option<PencilError> },
    /// The request is fully handled; take the response.
    Done,
}

/// What the driver reports back after performing an [`Action`].
pub enum Outcome {
    /// A before-request hook returned: `None` to continue the chain, or
    /// a result that becomes the request's result.
    BeforeHookDone(Option<PencilResult>),
    /// The view handler returned.
    ViewDone(PencilResult),
    /// An error handler returned.
    ErrorHandlerDone(PencilResult),
    /// The after-request hooks ran; here is the (possibly modified)
    /// response.
    AfterHooksDone(Response),
    /// The teardown hooks ran.
    TeardownHooksDone,
}

/// Where the dispatcher stands in the pipeline.
#[derive(Clone, Copy)]
pub enum Phase {
    /// Waiting for the before-request hook at this index of the plan.
    Before { next: usize },
    /// Waiting for the view handler.
    AwaitView,
    /// Waiting for the error handler of the request's error.
    AwaitErrorHandler,
    /// Waiting for the internal-server-error handler on the failure
    /// path.
    AwaitRecovery,
    /// Waiting for the after-request hooks.
    AwaitAfter,
    /// Waiting for the teardown hooks.
    AwaitTeardown,
    /// Finished.
    Done,
}

/// How far along the pipeline a phase stands.  Each step strictly
/// advances the rank — or stays within the before-hook chain while its
/// index advances — so no phase is ever revisited: in particular, the
/// teardown hooks are handed out exactly once per request.
pub open spec fn phase_rank(p: Phase) -> int {
    match p {
        Phase::Before { next } => 0,
        Phase::AwaitView => 1,
        Phase::AwaitErrorHandler => 2,
        Phase::AwaitRecovery => 3,
        Phase::AwaitAfter => 4,
        Phase::AwaitTeardown => 5,
        Phase::Done => 6,
    }
}

/// The dispatch pipeline for one request: a state machine holding every
/// decision, while its driver runs the actual handler functions.
pub struct Dispatcher {
    /// The matched request.
    pub request: Request,
    /// The current phase.
    pub phase: Phase,
    /// Before-request hooks: the module's, then the application's, in
    /// registration order.
    pub before_plan: Vec<usize>,
    /// After-request hooks: the application's in reverse registration
    /// order, then the module's in reverse order.
    pub after_plan: Vec<usize>,
    /// Teardown hooks: the module's in reverse registration order, then
    /// the application's in reverse order.
    pub teardown_plan: Vec<usize>,
    /// The routing error carried into dispatching, if matching failed.
    pub pending_error: Option<HTTPError>,
    /// The handler registered for the matched endpoint, if any.
    pub view_handler: Option<usize>,
    /// When the matched rule answers `OPTIONS` automatically and this
    /// request is an `OPTIONS` request: the methods for its `Allow`
    /// header.
    pub auto_allow: Option<Vec<Method>>,
    /// The matched module's HTTP error handlers, when the endpoint
    /// belongs to a module.
    pub module_http_handlers: Option<CodeDict>,
    /// The matched module's user error handlers.
    pub module_user_handlers: Option<Dict<usize>>,
    /// The application's HTTP error handlers.
    pub app_http_handlers: CodeDict,
    /// The application's user error handlers.
    pub app_user_handlers: Dict<usize>,
    /// The response, once determined.
    pub response: Option<Response>,
    /// The terminal error on the failure path.
    pub error: Option<PencilError>,
}

/// The handler answering an HTTP error of this status code: the
/// module's, then the application's.
pub open spec fn http_handler_for(d: &Dispatcher, code: u16) -> Option<usize> {
    let module_hit: Option<usize> = match d.module_http_handlers {
        Some(mh) => if mh.contains_key(code) {
            Some(mh.spec_get(code))
        } else {
            None
        },
        None => None,
    };
    match module_hit {
        Some(h) => Some(h),
        None => if d.app_http_handlers.contains_key(code) {
            Some(d.app_http_handlers.spec_get(code))
        } else {
            None
        },
    }
}

/// The handler answering a user error of this description key: the
/// module's, then the application's.
pub open spec fn user_handler_for(d: &Dispatcher, key: Seq<char>) -> Option<usize> {
    let module_hit: Option<usize> = match d.module_user_handlers {
        Some(mu) => if mu.contains_key(key) {
            Some(mu.spec_get(key))
        } else {
            None
        },
        None => None,
    };
    match module_hit {
        Some(h) => Some(h),
        None => if d.app_user_handlers.contains_key(key) {
            Some(d.app_user_handlers.spec_get(key))
        } else {
            None
        },
    }
}

/// A step changes nothing but the phase, the pending error, the
/// response and the terminal error.
pub open spec fn same_setup(pre: &Dispatcher, post: &Dispatcher) -> bool {
    &&& post.request == pre.request
    &&& post.before_plan == pre.before_plan
    &&& post.after_plan == pre.after_plan
    &&& post.teardown_plan == pre.teardown_plan
    &&& post.view_handler == pre.view_handler
    &&& post.auto_allow == pre.auto_allow
    &&& post.module_http_handlers == pre.module_http_handlers
    &&& post.module_user_handlers == pre.module_user_handlers
    &&& post.app_http_handlers == pre.app_http_handlers
    &&& post.app_user_handlers == pre.app_user_handlers
}

/// The dispatcher just handed the given response to the after-request
/// hooks.
pub open spec fn into_after(post: &Dispatcher, action: Action, resp: Response) -> bool {
    &&& post.phase is AwaitAfter
    &&& post.response is None
    &&& post.error is None
    &&& action matches Action::RunAfterHooks { hooks, response } && hooks@ == post.after_plan@
        && response == resp
}

/// The dispatcher just handed the teardown hooks their plan, with the
/// terminal error of the request.
pub open spec fn into_teardown(post: &Dispatcher, action: Action, err: Option<PencilError>)
    -> bool {
    &&& post.phase is AwaitTeardown
    &&& post.response is Some
    &&& action matches Action::RunTeardownHooks { hooks, error } && hooks@ == post.teardown_plan@
        && error == err
}

/// The request failed with `e` and no handler recovered it: ask the
/// handler registered for code 500, or fall back to the canonical
/// internal server error response and tear down.  The after-request
/// hooks do not run on this failure path; the teardown hooks do.
pub open spec fn fails_with(post: &Dispatcher, action: Action, e: PencilError) -> bool {
    match http_handler_for(post, 500) {
        Some(h) => {
            &&& post.phase is AwaitRecovery
            &&& post.error == Some(e)
            &&& post.response is None
            &&& action matches Action::RunHttpErrorHandler { handler, error } && handler == h
                && error is InternalServerError
        },
        None => {
            &&& (post.response matches Some(resp) && (post.response matches Some(resp)
                ==> resp.status_code == 500 && (match resp.body {
                Some(b) => b@ == HTTPError::InternalServerError.spec_body(),
                None => false,
            })))
            &&& into_teardown(post, action, Some(e))
        },
    }
}

/// How a handler result flows on: a response goes to the after-request
/// hooks; an error is offered to the module's and then the
/// application's matching error handler; an unhandled HTTP error is
/// rendered canonically; an unhandled user error fails the request.
pub open spec fn resolve_result(post: &Dispatcher, action: Action, rv: PencilResult) -> bool {
    match rv {
        Ok(resp) => into_after(post, action, resp),
        Err(e) => match e {
            PencilError::PenHTTPError(he) => match http_handler_for(post, he.spec_code()) {
                Some(h) => {
                    &&& post.phase is AwaitErrorHandler
                    &&& post.response is None
                    &&& post.error is None
                    &&& action matches Action::RunHttpErrorHandler { handler, error } && handler
                        == h && error == he
                },
                None => {
                    &&& post.phase is AwaitAfter
                    &&& post.response is None
                    &&& post.error is None
                    &&& action matches Action::RunAfterHooks { hooks, response } && hooks@
                        == post.after_plan@ && response.status_code == he.spec_code() && (
                    match response.body {
                        Some(b) => b@ == he.spec_body(),
                        None => false,
                    })
                },
            },
            PencilError::PenUserError(ue) => match user_handler_for(post, ue.desc@) {
                Some(h) => {
                    &&& post.phase is AwaitErrorHandler
                    &&& post.response is None
                    &&& post.error is None
                    &&& action matches Action::RunUserErrorHandler { handler, error } && handler
                        == h && error == ue
                },
                None => fails_with(post, action, e),
            },
        },
    }
}

/// Entering the dispatching stage: a pending routing error becomes the
/// result; an automatic `OPTIONS` answer is synthesized; otherwise the
/// view handler is asked for — or, with no handler registered for the
/// endpoint, the result is a not-found error.
pub open spec fn dispatch_rel(
    pending: Option<HTTPError>,
    post: &Dispatcher,
    action: Action,
) -> bool {
    &&& post.pending_error is None
    &&& match pending {
        Some(he) => resolve_result(post, action, Err(PencilError::PenHTTPError(he))),
        None => match post.auto_allow {
            Some(allow) => {
                &&& post.phase is AwaitAfter
                &&& post.response is None
                &&& post.error is None
                &&& action matches Action::RunAfterHooks { hooks, response } && hooks@
                    == post.after_plan@ && response.status_code == 200 && response.body is None
                    && hhas(response.headers@, "Allow"@, spec_allow_value(allow@))
            },
            None => match post.view_handler {
                Some(h) => {
                    &&& post.phase is AwaitView
                    &&& post.response is None
                    &&& post.error is None
                    &&& action matches Action::RunView { handler } && handler == h
                },
                None => resolve_result(
                    post,
                    action,
                    Err(PencilError::PenHTTPError(HTTPError::NotFound)),
                ),
            },
        },
    }
}

impl Dispatcher {
    /// The dispatcher's registries are well formed and its phase is
    /// consistent with its data.
    pub open spec fn wf(&self) -> bool {
        &&& self.app_http_handlers.wf()
        &&& self.app_user_handlers.wf()
        &&& (self.module_http_handlers matches Some(mh) ==> mh.wf())
        &&& (self.module_user_handlers matches Some(mu) ==> mu.wf())
        &&& (self.phase matches Phase::Before { next } ==> next < self.before_plan@.len())
        &&& (self.phase is AwaitRecovery ==> self.error is Some)
        &&& (self.phase is AwaitTeardown ==> self.response is Some)
        &&& (self.phase is Done ==> self.response is Some)
    }

    /// Whether the dispatcher is waiting for this kind of outcome.
    pub open spec fn expects(&self, outcome: &Outcome) -> bool {
        match self.phase {
            Phase::Before { next } => outcome matches Outcome::BeforeHookDone(_),
            Phase::AwaitView => outcome matches Outcome::ViewDone(_),
            Phase::AwaitErrorHandler => outcome matches Outcome::ErrorHandlerDone(_),
            Phase::AwaitRecovery => outcome matches Outcome::ErrorHandlerDone(_),
            Phase::AwaitAfter => outcome matches Outcome::AfterHooksDone(_),
            Phase::AwaitTeardown => outcome matches Outcome::TeardownHooksDone,
            Phase::Done => false,
        }
    }

    /// Whether the dispatcher accepts this outcome now; a driver can
    /// check before calling [`Dispatcher::step`].
    pub fn accepts(&self, outcome: &Outcome) -> (r: bool)
        ensures
            r == self.expects(outcome),
    {
        match &self.phase {
            Phase::Before { next } => matches!(outcome, Outcome::BeforeHookDone(_)),
            Phase::AwaitView => matches!(outcome, Outcome::ViewDone(_)),
            Phase::AwaitErrorHandler => matches!(outcome, Outcome::ErrorHandlerDone(_)),
            Phase::AwaitRecovery => matches!(outcome, Outcome::ErrorHandlerDone(_)),
            Phase::AwaitAfter => matches!(outcome, Outcome::AfterHooksDone(_)),
            Phase::AwaitTeardown => matches!(outcome, Outcome::TeardownHooksDone),
            Phase::Done => false,
        }
    }

    /// Whether the request is fully handled.
    pub fn finished(&self) -> (r: bool)
        ensures
            r == (self.phase is Done),
    {
        matches!(self.phase, Phase::Done)
    }

    /// The matched request, for hooks and handlers to look at.
    pub fn request(&self) -> (r: &Request)
        ensures
            r == &self.request,
    {
        &self.request
    }

    /// Take the final response of the request.
    pub fn take_response(self) -> (r: Response)
        requires
            self.phase is Done,
            self.wf(),
        ensures
            Some(r) == self.response,
    {
        match self.response {
            Some(resp) => resp,
            None => {
                proof {
                    assert(false);
                }
                Response::new_empty()
            },
        }
    }

    /// Look the HTTP error handler for a status code up.
    fn lookup_http(&self, code: u16) -> (r: Option<usize>)
        requires
            self.wf(),
        ensures
            r == http_handler_for(self, code),
    {
        match &self.module_http_handlers {
            Some(mh) => {
                match mh.get(code) {
                    Some(h) => {
                        return Some(h);
                    },
                    None => {},
                }
            },
            None => {},
        }
        self.app_http_handlers.get(code)
    }

    /// Look the user error handler for a description key up.
    fn lookup_user(&self, key: &str) -> (r: Option<usize>)
        requires
            self.wf(),
        ensures
            r == user_handler_for(self, key@),
    {
        match &self.module_user_handlers {
            Some(mu) => {
                match mu.get(key) {
                    Some(h) => {
                        return Some(*h);
                    },
                    None => {},
                }
            },
            None => {},
        }
        match self.app_user_handlers.get(key) {
            Some(h) => Some(*h),
            None => None,
        }
    }

    /// Enter the after-request stage with this response.
    fn go_after(&mut self, resp: Response) -> (action: Action)
        ensures
            same_setup(old(self), final(self)),
            final(self).pending_error == old(self).pending_error,
            into_after(final(self), action, resp),
            old(self).wf() ==> final(self).wf(),
    {
        self.phase = Phase::AwaitAfter;
        self.response = None;
        self.error = None;
        let hooks = copy_ids(&self.after_plan);
        Action::RunAfterHooks { hooks, response: resp }
    }

    /// Enter the teardown stage; the response must already stand.
    fn go_teardown(&mut self, err: Option<PencilError>) -> (action: Action)
        requires
            old(self).response is Some,
        ensures
            same_setup(old(self), final(self)),
            final(self).pending_error == old(self).pending_error,
            final(self).response == old(self).response,
            into_teardown(final(self), action, err),
            old(self).app_http_handlers.wf() && old(self).app_user_handlers.wf() && (old(
                self,
            ).module_http_handlers matches Some(mh) ==> mh.wf()) && (old(
                self,
            ).module_user_handlers matches Some(mu) ==> mu.wf()) ==> final(self).wf(),
    {
        self.phase = Phase::AwaitTeardown;
        self.error = None;
        let hooks = copy_ids(&self.teardown_plan);
        Action::RunTeardownHooks { hooks, error: err }
    }

    /// The request failed with `e`: offer it to the 500 handler, or
    /// render the canonical internal server error and tear down.
    fn fail(&mut self, e: PencilError) -> (action: Action)
        requires
            old(self).wf(),
        ensures
            same_setup(old(self), final(self)),
            final(self).pending_error == old(self).pending_error,
            fails_with(final(self), action, e),
            final(self).wf(),
    {
        match self.lookup_http(500) {
            Some(h) => {
                self.phase = Phase::AwaitRecovery;
                self.error = Some(e);
                self.response = None;
                Action::RunHttpErrorHandler { handler: h, error: HTTPError::InternalServerError }
            },
            None => {
                let ise = HTTPError::InternalServerError;
                let mut resp = ise.to_response();
                self.response = Some(resp);
                self.go_teardown(Some(e))
            },
        }
    }

    /// Route a handler result onward.
    fn handle_result(&mut self, rv: PencilResult) -> (action: Action)
        requires
            old(self).wf(),
        ensures
            same_setup(old(self), final(self)),
            final(self).pending_error == old(self).pending_error,
            resolve_result(final(self), action, rv),
            final(self).wf(),
    {
        match rv {
            Ok(resp) => self.go_after(resp),
            Err(e) => match e {
                PencilError::PenHTTPError(he) => {
                    let code = he.code();
                    match self.lookup_http(code) {
                        Some(h) => {
                            self.phase = Phase::AwaitErrorHandler;
                            self.response = None;
                            self.error = None;
                            Action::RunHttpErrorHandler { handler: h, error: he }
                        },
                        None => {
                            let resp = he.to_response();
                            self.go_after(resp)
                        },
                    }
                },
                PencilError::PenUserError(ue) => {
                    match self.lookup_user(ue.desc.as_str()) {
                        Some(h) => {
                            self.phase = Phase::AwaitErrorHandler;
                            self.response = None;
                            self.error = None;
                            Action::RunUserErrorHandler { handler: h, error: ue }
                        },
                        None => self.fail(PencilError::PenUserError(ue)),
                    }
                },
            },
        }
    }

    /// Enter the dispatching stage.
    fn dispatch(&mut self) -> (action: Action)
        requires
            old(self).wf(),
        ensures
            same_setup(old(self), final(self)),
            dispatch_rel(old(self).pending_error, final(self), action),
            final(self).wf(),
    {
        let pending = self.pending_error.take();
        match pending {
            Some(he) => self.handle_result(Err(PencilError::PenHTTPError(he))),
            None => {
                match &self.auto_allow {
                    Some(allow) => {
                        let mut resp = Response::new_empty();
                        let value = crate::method::allow_value(allow);
                        let ghost h0 = resp.headers@;
                        resp.headers.set("Allow", value.as_str());
                        proof {
                            crate::datastructures::lemma_hset_first(
                                h0,
                                "Allow"@,
                                spec_allow_value(self.auto_allow->0@),
                            );
                        }
                        self.go_after(resp)
                    },
                    None => {
                        match self.view_handler {
                            Some(h) => {
                                self.phase = Phase::AwaitView;
                                self.response = None;
                                self.error = None;
                                Action::RunView { handler: h }
                            },
                            None => self.handle_result(
                                Err(PencilError::PenHTTPError(HTTPError::NotFound)),
                            ),
                        }
                    },
                }
            },
        }
    }

    /// Feed the outcome of the last action back and get the next
    /// action.  The pipeline always flows to the teardown hooks and
    /// then to `Done`, whatever the handlers returned.
    pub fn step(&mut self, outcome: Outcome) -> (action: Action)
        requires
            old(self).wf(),
            old(self).expects(&outcome),
        ensures
            same_setup(old(self), final(self)),
            final(self).wf(),
            phase_rank(final(self).phase) > phase_rank(old(self).phase) || (old(self).phase
                matches Phase::Before { next } && final(self).phase == Phase::Before {
                next: (next + 1) as usize,
            }),
            (action is RunTeardownHooks) == (final(self).phase is AwaitTeardown),
            (action is Done) == (final(self).phase is Done),
            ({
                let pre = *old(self);
                let post = *final(self);
                match pre.phase {
                    Phase::Before { next } => match outcome {
                        Outcome::BeforeHookDone(None) => if next + 1 < pre.before_plan@.len() {
                            &&& post.phase == Phase::Before { next: (next + 1) as usize }
                            &&& post.pending_error == pre.pending_error
                            &&& action matches Action::RunBeforeHook { hook } && hook
                                == pre.before_plan@[next + 1]
                        } else {
                            dispatch_rel(pre.pending_error, &post, action)
                        },
                        Outcome::BeforeHookDone(Some(rv)) => resolve_result(&post, action, rv),
                        _ => false,
                    },
                    Phase::AwaitView => match outcome {
                        Outcome::ViewDone(rv) => resolve_result(&post, action, rv),
                        _ => false,
                    },
                    Phase::AwaitErrorHandler => match outcome {
                        Outcome::ErrorHandlerDone(rv) => match rv {
                            Ok(resp) => into_after(&post, action, resp),
                            Err(e2) => fails_with(&post, action, e2),
                        },
                        _ => false,
                    },
                    Phase::AwaitRecovery => match outcome {
                        Outcome::ErrorHandlerDone(rv) => {
                            &&& into_teardown(&post, action, pre.error)
                            &&& (match rv {
                                Ok(resp) => post.response == Some(resp),
                                Err(_) => post.response matches Some(r2) && (post.response
                                    matches Some(r2) ==> r2.status_code == 500),
                            })
                        },
                        _ => false,
                    },
                    Phase::AwaitAfter => match outcome {
                        Outcome::AfterHooksDone(resp) => {
                            &&& post.response == Some(resp)
                            &&& into_teardown(&post, action, None)
                        },
                        _ => false,
                    },
                    Phase::AwaitTeardown => match outcome {
                        Outcome::TeardownHooksDone => {
                            &&& post.phase is Done
                            &&& post.response == pre.response
                            &&& action is Done
                        },
                        _ => false,
                    },
                    Phase::Done => false,
                }
            }),
    {
        let phase = self.phase;
        match phase {
            Phase::Before { next } => {
                match outcome {
                    Outcome::BeforeHookDone(None) => {
                        let n = self.before_plan.len();
                        if next + 1 < n {
                            self.phase = Phase::Before { next: next + 1 };
                            Action::RunBeforeHook { hook: self.before_plan[next + 1] }
                        } else {
                            self.dispatch()
                        }
                    },
                    Outcome::BeforeHookDone(Some(rv)) => self.handle_result(rv),
                    _ => {
                        proof {
                            assert(false);
                        }
                        Action::Done
                    },
                }
            },
            Phase::AwaitView => {
                match outcome {
                    Outcome::ViewDone(rv) => self.handle_result(rv),
                    _ => {
                        proof {
                            assert(false);
                        }
                        Action::Done
                    },
                }
            },
            Phase::AwaitErrorHandler => {
                match outcome {
                    Outcome::ErrorHandlerDone(rv) => {
                        match rv {
                            Ok(resp) => self.go_after(resp),
                            Err(e2) => self.fail(e2),
                        }
                    },
                    _ => {
                        proof {
                            assert(false);
                        }
                        Action::Done
                    },
                }
            },
            Phase::AwaitRecovery => {
                match outcome {
                    Outcome::ErrorHandlerDone(rv) => {
                        let e = self.error.take();
                        match rv {
                            Ok(resp) => {
                                self.response = Some(resp);
                            },
                            Err(_) => {
                                let ise = HTTPError::InternalServerError;
                                self.response = Some(ise.to_response());
                            },
                        }
                        self.go_teardown(e)
                    },
                    _ => {
                        proof {
                            assert(false);
                        }
                        Action::Done
                    },
                }
            },
            Phase::AwaitAfter => {
                match outcome {
                    Outcome::AfterHooksDone(resp) => {
                        self.response = Some(resp);
                        self.go_teardown(None)
                    },
                    _ => {
                        proof {
                            assert(false);
                        }
                        Action::Done
                    },
                }
            },
            Phase::AwaitTeardown => {
                match outcome {
                    Outcome::TeardownHooksDone => {
                        self.phase = Phase::Done;
                        Action::Done
                    },
                    _ => {
                        proof {
                            assert(false);
                        }
                        Action::Done
                    },
                }
            },
            Phase::Done => {
                proof {
                    assert(false);
                }
                Action::Done
            },
        }
    }
}

/// An exact copy of a hook identifier list.
fn copy_ids(v: &Vec<usize>) -> (r: Vec<usize>)
    ensures
        r@ == v@,
{
    let mut out: Vec<usize> = Vec::new();
    let mut i: usize = 0;
    while i < v.len()
        invariant
            i <= v@.len(),
            out@ == v@.take(i as int),
        decreases v@.len() - i,
    {
        out.push(v[i]);
        proof {
            assert(out@ =~= v@.take(i + 1));
        }
        i += 1;
    }
    proof {
        assert(v@.take(v@.len() as int) =~= v@);
    }
    out
}

/// The identifiers of `v`, in reverse order.
fn rev_ids(v: &Vec<usize>) -> (r: Vec<usize>)
    ensures
        r@.len() == v@.len(),
        forall|i: int| 0 <= i < v@.len() ==> r@[i] == v@[v@.len() - 1 - i],
{
    let mut out: Vec<usize> = Vec::new();
    let mut i: usize = v.len();
    while i > 0
        invariant
            i <= v@.len(),
            out@.len() == v@.len() - i,
            forall|j: int| 0 <= j < out@.len() ==> out@[j] == v@[v@.len() - 1 - j],
        decreases i,
    {
        i -= 1;
        out.push(v[i]);
    }
    out
}

/// Concatenate two hook identifier lists.
fn concat_ids(a: Vec<usize>, b: &Vec<usize>) -> (r: Vec<usize>)
    ensures
        r@ == a@ + b@,
{
    let mut out = a;
    let ghost a0 = out@;
    let mut i: usize = 0;
    while i < b.len()
        invariant
            i <= b@.len(),
            out@ == a0 + b@.take(i as int),
        decreases b@.len() - i,
    {
        out.push(b[i]);
        proof {
            assert(a0 + b@.take(i as int) + seq![b@[i as int]] =~= a0 + b@.take(i + 1));
        }
        i += 1;
    }
    proof {
        assert(b@.take(b@.len() as int) =~= b@);
        assert(out@ =~= a@ + b@);
    }
    out
}


/// The module key of a matched request: the module part of the matched
/// endpoint.
pub open spec fn module_key(req: &Request) -> Option<Seq<char>> {
    match req.url_rule {
        Some(rule) => spec_module_of(rule.endpoint@),
        None => None,
    }
}

/// The module whose scoped hooks and handlers take part in the request,
/// if its endpoint names a registered one.
pub open spec fn scoped_module(app: &Pencil, mk: Option<Seq<char>>) -> Option<Module> {
    match mk {
        Some(n) => if app.modules.contains_key(n) {
            Some(app.modules.spec_get(n))
        } else {
            None
        },
        None => None,
    }
}

/// The dispatcher's hook plans, laid out from the application's and the
/// scoped module's hook lists:
/// - before-request hooks: the module's, then the application's, in
///   registration order;
/// - after-request hooks: the application's in reverse registration
///   order, then the module's in reverse order;
/// - teardown hooks: the module's in reverse registration order, then
///   the application's in reverse order — each registered hook exactly
///   once.
pub open spec fn plans_ok(app: &Pencil, d: &Dispatcher) -> bool {
    let m = scoped_module(app, module_key(&d.request));
    let mb = match m {
        Some(md) => md.before_request_hooks@,
        None => Seq::<usize>::empty(),
    };
    let ma = match m {
        Some(md) => md.after_request_hooks@,
        None => Seq::<usize>::empty(),
    };
    let mt = match m {
        Some(md) => md.teardown_request_hooks@,
        None => Seq::<usize>::empty(),
    };
    let ab = app.before_request_hooks@;
    let aa = app.after_request_hooks@;
    let at = app.teardown_request_hooks@;
    &&& d.before_plan@ == mb + ab
    &&& d.after_plan@.len() == aa.len() + ma.len()
    &&& (forall|i: int| 0 <= i < aa.len() ==> d.after_plan@[i] == aa[aa.len() - 1 - i])
    &&& (forall|i: int|
        aa.len() <= i < d.after_plan@.len() ==> d.after_plan@[i] == ma[ma.len() - 1 - (i
            - aa.len())])
    &&& d.teardown_plan@.len() == mt.len() + at.len()
    &&& (forall|i: int| 0 <= i < mt.len() ==> d.teardown_plan@[i] == mt[mt.len() - 1 - i])
    &&& (forall|i: int|
        mt.len() <= i < d.teardown_plan@.len() ==> d.teardown_plan@[i] == at[at.len() - 1 - (i
            - mt.len())])
}

/// The dispatcher's error handler registries mirror the application's
/// and the scoped module's.
pub open spec fn handlers_ok(app: &Pencil, d: &Dispatcher) -> bool {
    let m = scoped_module(app, module_key(&d.request));
    &&& d.app_http_handlers.entries() == app.http_error_handlers.entries()
    &&& d.app_user_handlers.wf()
    &&& (forall|k: Seq<char>|
        d.app_user_handlers.contains_key(k) == app.user_error_handlers.contains_key(k))
    &&& (forall|k: Seq<char>|
        app.user_error_handlers.contains_key(k) ==> d.app_user_handlers.spec_get(k)
            == app.user_error_handlers.spec_get(k))
    &&& match m {
        Some(md) => {
            &&& d.module_http_handlers matches Some(mh) && (d.module_http_handlers matches Some(
                mh,
            ) ==> mh.entries() == md.http_error_handlers.entries())
            &&& d.module_user_handlers matches Some(mu) && (d.module_user_handlers matches Some(
                mu,
            ) ==> mu.wf() && (forall|k: Seq<char>|
                mu.contains_key(k) == md.user_error_handlers.contains_key(k)) && (forall|
                k: Seq<char>,
            |
                md.user_error_handlers.contains_key(k) ==> mu.spec_get(k)
                    == md.user_error_handlers.spec_get(k)))
        },
        None => d.module_http_handlers is None && d.module_user_handlers is None,
    }
}

impl Pencil {
    /// Begin handling a request: match it, set the hook plans and
    /// handler registries up, and return the dispatcher together with
    /// the first action for the driver.
    ///
    /// A pure redirect outcome goes straight to building the redirect
    /// response and on to the after-request and teardown hooks: the
    /// before-request hooks do not run around it.
    pub fn handle_request(&self, request: Request) -> (r: (Dispatcher, Action))
        requires
            self.wf(),
        ensures
            ({
                let d = r.0;
                let action = r.1;
                let out = spec_resolve_rules(
                    self.url_map.rules@,
                    0,
                    Seq::empty(),
                    request.path@,
                    request.method,
                );
                &&& d.wf()
                &&& plans_ok(self, &d)
                &&& handlers_ok(self, &d)
                &&& d.request.host@ == request.host@
                &&& d.request.path@ == request.path@
                &&& d.request.method == request.method
                &&& d.request.routing_redirect is None
                &&& d.request.routing_error is None
                &&& match out {
                    SpecOutcome::Matched(i, caps) => {
                        &&& d.request.url_rule matches Some(rule) && (d.request.url_rule
                            matches Some(rule) ==> rule_like(rule, self.url_map.rules@[i])
                            && rule.wf())
                        &&& args_match(
                            d.request.view_args,
                            self.url_map.rules@[i].matcher.spec_names(),
                            caps,
                        )
                        &&& ({
                            let ep = self.url_map.rules@[i].endpoint@;
                            &&& (self.view_functions.contains_key(ep) ==> d.view_handler == Some(
                                self.view_functions.spec_get(ep),
                            ))
                            &&& (!self.view_functions.contains_key(ep) ==> d.view_handler is None)
                        })
                        &&& (if self.url_map.rules@[i].provide_automatic_options && request.method
                            == Method::Options {
                            d.auto_allow matches Some(al) && (d.auto_allow matches Some(al)
                                ==> al@ == spec_allowed_methods(
                                self.url_map.rules@,
                                0,
                                Seq::empty(),
                                request.path@,
                            ))
                        } else {
                            d.auto_allow is None
                        })
                        &&& (if d.before_plan@.len() > 0 {
                            &&& d.phase == Phase::Before { next: 0 }
                            &&& d.response is None
                            &&& d.error is None
                            &&& d.pending_error is None
                            &&& action matches Action::RunBeforeHook { hook } && hook
                                == d.before_plan@[0]
                        } else {
                            dispatch_rel(None, &d, action)
                        })
                    },
                    SpecOutcome::Redirect => {
                        &&& d.request.url_rule is None
                        &&& d.pending_error is None
                        &&& action matches Action::RunAfterHooks { hooks, response } && (action
                            matches Action::RunAfterHooks { hooks, response } ==> {
                            &&& hooks@ == d.after_plan@
                            &&& response.status_code == 301
                            &&& hhas(
                                response.headers@,
                                "Location"@,
                                spec_redirect_location(
                                    "http"@,
                                    request.host@,
                                    request.path@,
                                    request.spec_query(),
                                ),
                            )
                        })
                        &&& d.phase is AwaitAfter
                        &&& d.response is None
                        &&& d.error is None
                    },
                    SpecOutcome::NotAllowed(ms) => {
                        &&& d.request.url_rule is None
                        &&& d.view_handler is None
                        &&& d.auto_allow is None
                        &&& (if d.before_plan@.len() > 0 {
                            &&& d.phase == Phase::Before { next: 0 }
                            &&& d.response is None
                            &&& d.error is None
                            &&& d.pending_error matches Some(e) && (d.pending_error matches Some(
                                e,
                            ) ==> e matches HTTPError::MethodNotAllowed(Some(list)) && (e matches
                                HTTPError::MethodNotAllowed(Some(list)) ==> list@ == ms))
                            &&& action matches Action::RunBeforeHook { hook } && hook
                                == d.before_plan@[0]
                        } else {
                            exists|he: HTTPError|
                                {
                                    &&& he.spec_code() == 405
                                    &&& he.spec_allow() matches Some(Some(al)) && (he.spec_allow()
                                        matches Some(Some(al)) ==> al == ms)
                                    &&& #[trigger] resolve_result(
                                        &d,
                                        action,
                                        Err(PencilError::PenHTTPError(he)),
                                    )
                                }
                        })
                    },
                    SpecOutcome::NotFound => {
                        &&& d.request.url_rule is None
                        &&& d.view_handler is None
                        &&& d.auto_allow is None
                        &&& (if d.before_plan@.len() > 0 {
                            &&& d.phase == Phase::Before { next: 0 }
                            &&& d.response is None
                            &&& d.error is None
                            &&& d.pending_error matches Some(e) && (d.pending_error matches Some(
                                e,
                            ) ==> e is NotFound)
                            &&& action matches Action::RunBeforeHook { hook } && hook
                                == d.before_plan@[0]
                        } else {
                            resolve_result(
                                &d,
                                action,
                                Err(PencilError::PenHTTPError(HTTPError::NotFound)),
                            )
                        })
                    },
                }
            }),
    {
        let mut request = request;
        request.match_request(&self.url_map);
        let Request {
            host,
            path,
            query_string,
            method,
            url_rule,
            view_args,
            routing_redirect,
            routing_error,
        } = request;
        let mut view_handler: Option<usize> = None;
        let mut auto_allow: Option<Vec<Method>> = None;
        match &url_rule {
            Some(rule) => {
                match self.view_functions.get(rule.endpoint.as_str()) {
                    Some(h) => {
                        view_handler = Some(*h);
                    },
                    None => {},
                }
                if rule.provide_automatic_options && matches!(method, Method::Options) {
                    let adapter = self.url_map.bind(host.clone(), path.clone(), None, method);
                    auto_allow = Some(adapter.allowed_methods());
                }
            },
            None => {},
        }
        let stored = Request {
            host,
            path,
            query_string,
            method,
            url_rule,
            view_args,
            routing_redirect: None,
            routing_error: None,
        };
        let mname = stored.module_name();
        let mut before_plan: Vec<usize>;
        let after_plan: Vec<usize>;
        let teardown_plan: Vec<usize>;
        let module_http: Option<CodeDict>;
        let module_user: Option<Dict<usize>>;
        let mut scoped: Option<&Module> = None;
        match &mname {
            Some(n) => {
                scoped = self.modules.get(n.as_str());
            },
            None => {},
        }
        match scoped {
            Some(md) => {
                before_plan = concat_ids(
                    copy_ids(&md.before_request_hooks),
                    &self.before_request_hooks,
                );
                let ma_rev = rev_ids(&md.after_request_hooks);
                after_plan = concat_ids(rev_ids(&self.after_request_hooks), &ma_rev);
                let at_rev = rev_ids(&self.teardown_request_hooks);
                teardown_plan = concat_ids(rev_ids(&md.teardown_request_hooks), &at_rev);
                module_http = Some(md.http_error_handlers.copy_map());
                module_user = Some(md.user_error_handlers.copy_map());
            },
            None => {
                before_plan = copy_ids(&self.before_request_hooks);
                proof {
                    assert(before_plan@ =~= Seq::<usize>::empty() + self.before_request_hooks@);
                }
                let empty_ids: Vec<usize> = Vec::new();
                after_plan = concat_ids(rev_ids(&self.after_request_hooks), &empty_ids);
                teardown_plan = concat_ids(rev_ids(&self.teardown_request_hooks), &empty_ids);
                proof {
                    assert(after_plan@ =~= after_plan@ + Seq::<usize>::empty());
                    assert(teardown_plan@ =~= teardown_plan@ + Seq::<usize>::empty());
                }
                module_http = None;
                module_user = None;
            },
        }
        let mut d = Dispatcher {
            request: stored,
            phase: Phase::AwaitView,
            before_plan,
            after_plan,
            teardown_plan,
            pending_error: routing_error,
            view_handler,
            auto_allow,
            module_http_handlers: module_http,
            module_user_handlers: module_user,
            app_http_handlers: self.http_error_handlers.copy_map(),
            app_user_handlers: self.user_error_handlers.copy_map(),
            response: None,
            error: None,
        };
        let action: Action;
        match routing_redirect {
            Some((url, code)) => {
                let resp = match crate::helpers::redirect(url.as_str(), code) {
                    Ok(r0) => r0,
                    Err(_) => {
                        proof {
                            assert(false);
                        }
                        Response::new_empty()
                    },
                };
                action = d.go_after(resp);
            },
            None => {
                if d.before_plan.len() > 0 {
                    d.phase = Phase::Before { next: 0 };
                    action = Action::RunBeforeHook { hook: d.before_plan[0] };
                } else {
                    action = d.dispatch();
                }
            },
        }
        (d, action)
    }
}


/// Teardown hooks run once per request each, in reverse registration
/// order, the scoped module's before the application's.  The plan the
/// dispatcher hands to its driver lists them exactly so; that the plan
/// is handed out exactly once per request — on the success path and the
/// failure path alike — is the step contract: every path through
/// [`Dispatcher::step`] ends in one `RunTeardownHooks` action carrying
/// this plan, followed by `Done`.
pub proof fn lemma_teardown_order(app: &Pencil, d: &Dispatcher)
    requires
        plans_ok(app, d),
    ensures
        ({
            let m = scoped_module(app, module_key(&d.request));
            let mt = match m {
                Some(md) => md.teardown_request_hooks@,
                None => Seq::<usize>::empty(),
            };
            let at = app.teardown_request_hooks@;
            &&& d.teardown_plan@.len() == mt.len() + at.len()
            &&& (forall|i: int| 0 <= i < mt.len() ==> d.teardown_plan@[i] == mt[mt.len() - 1 - i])
            &&& (forall|i: int|
                mt.len() <= i < d.teardown_plan@.len() ==> d.teardown_plan@[i] == at[at.len() - 1
                    - (i - mt.len())])
        }),
{
}

/// After-request hooks run in reverse registration order, the
/// application's before the scoped module's, as the dispatcher's
/// after-hook plan lists them.
pub proof fn lemma_after_order(app: &Pencil, d: &Dispatcher)
    requires
        plans_ok(app, d),
    ensures
        ({
            let m = scoped_module(app, module_key(&d.request));
            let ma = match m {
                Some(md) => md.after_request_hooks@,
                None => Seq::<usize>::empty(),
            };
            let aa = app.after_request_hooks@;
            &&& d.after_plan@.len() == aa.len() + ma.len()
            &&& (forall|i: int| 0 <= i < aa.len() ==> d.after_plan@[i] == aa[aa.len() - 1 - i])
            &&& (forall|i: int|
                aa.len() <= i < d.after_plan@.len() ==> d.after_plan@[i] == ma[ma.len() - 1 - (i
                    - aa.len())])
        }),
{
}

} // verus!
