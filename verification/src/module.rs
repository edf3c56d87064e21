//! Modules: named, mergeable bundles of routes and scoped hooks.
//!
//! A module collects its routes and its application-level registrations
//! as deferred commands; registering the module on an application
//! applies them in order and stores the module, so that its scoped
//! hooks and error handlers take part in dispatching requests whose
//! endpoint belongs to it.

use vstd::prelude::*;

verus! {

use crate::app::Pencil;
use crate::datastructures::{CodeDict, Dict};
use crate::method::Method;
use crate::routing::{copy_methods, Matcher, RuleError};
use crate::utils::contains_char;

/// A deferred application-level registration of a module.
pub enum Command {
    /// Register a before-request hook on the application.
    AppBeforeHook(usize),
    /// Register an after-request hook on the application.
    AppAfterHook(usize),
    /// Register a teardown hook on the application.
    AppTeardownHook(usize),
    /// Register an application-level HTTP error handler.
    AppHttpErrorHandler(u16, usize),
    /// Register an application-level user error handler.
    AppUserErrorHandler(String, usize),
}

/// The before-request hooks a command list registers, in order.
pub open spec fn cmd_before(cmds: Seq<Command>) -> Seq<usize>
    decreases cmds.len(),
{
    if cmds.len() == 0 {
        Seq::empty()
    } else {
        cmd_before(cmds.drop_last()) + (match cmds.last() {
            Command::AppBeforeHook(h) => seq![h],
            _ => Seq::<usize>::empty(),
        })
    }
}

/// The after-request hooks a command list registers, in order.
pub open spec fn cmd_after(cmds: Seq<Command>) -> Seq<usize>
    decreases cmds.len(),
{
    if cmds.len() == 0 {
        Seq::empty()
    } else {
        cmd_after(cmds.drop_last()) + (match cmds.last() {
            Command::AppAfterHook(h) => seq![h],
            _ => Seq::<usize>::empty(),
        })
    }
}

/// The teardown hooks a command list registers, in order.
pub open spec fn cmd_teardown(cmds: Seq<Command>) -> Seq<usize>
    decreases cmds.len(),
{
    if cmds.len() == 0 {
        Seq::empty()
    } else {
        cmd_teardown(cmds.drop_last()) + (match cmds.last() {
            Command::AppTeardownHook(h) => seq![h],
            _ => Seq::<usize>::empty(),
        })
    }
}

/// Represents a module.
pub struct Module {
    /// The name of the module; endpoints of its routes are prefixed
    /// with it.
    pub name: String,
    /// The path where the module lives.
    pub root_path: String,
    /// The folder with static files served for the module, if any.
    pub static_folder: Option<String>,
    /// The url path for the module's static files on the web.
    pub static_url_path: Option<String>,
    /// The folder that contains the templates used for the module.
    pub template_folder: Option<String>,
    /// Hooks run before each request handled by this module.
    pub before_request_hooks: Vec<usize>,
    /// Hooks run after each request handled by this module.
    pub after_request_hooks: Vec<usize>,
    /// Hooks run when tearing down each request handled by this module.
    pub teardown_request_hooks: Vec<usize>,
    /// HTTP error handlers active for this module only.
    pub http_error_handlers: CodeDict,
    /// User error handlers active for this module only.
    pub user_error_handlers: Dict<usize>,
    /// Routes to add to the application at registration time.
    pub deferred_routes: Vec<(Matcher, Vec<Method>, String, usize)>,
    /// Application-level registrations applied at registration time.
    pub deferred_commands: Vec<Command>,
}

impl Module {
    /// The scoped handler registries are well formed.
    pub open spec fn scoped_wf(&self) -> bool {
        &&& self.http_error_handlers.wf()
        &&& self.user_error_handlers.wf()
    }

    /// Every deferred route carries a well-formed matcher.
    pub open spec fn routes_wf(&self) -> bool {
        forall|i: int|
            0 <= i < self.deferred_routes@.len() ==> (#[trigger] self.deferred_routes@[i]).0.wf()
    }

    /// Create a module.
    pub fn new(name: &str, root_path: &str) -> (r: Module)
        ensures
            r.scoped_wf(),
            r.routes_wf(),
            r.name@ == name@,
            r.root_path@ == root_path@,
            r.static_folder is None,
            r.static_url_path is None,
            r.template_folder is None,
            r.before_request_hooks@ == Seq::<usize>::empty(),
            r.after_request_hooks@ == Seq::<usize>::empty(),
            r.teardown_request_hooks@ == Seq::<usize>::empty(),
            forall|c: u16| !r.http_error_handlers.contains_key(c),
            forall|k: Seq<char>| !r.user_error_handlers.contains_key(k),
            r.deferred_routes@ == Seq::<(Matcher, Vec<Method>, String, usize)>::empty(),
            r.deferred_commands@ == Seq::<Command>::empty(),
    {
        let r = Module {
            name: name.to_owned(),
            root_path: root_path.to_owned(),
            static_folder: None,
            static_url_path: None,
            template_folder: None,
            before_request_hooks: Vec::new(),
            after_request_hooks: Vec::new(),
            teardown_request_hooks: Vec::new(),
            http_error_handlers: CodeDict::new(),
            user_error_handlers: Dict::new(),
            deferred_routes: Vec::new(),
            deferred_commands: Vec::new(),
        };
        proof {
            assert(r.before_request_hooks@ =~= Seq::<usize>::empty());
            assert(r.after_request_hooks@ =~= Seq::<usize>::empty());
            assert(r.teardown_request_hooks@ =~= Seq::<usize>::empty());
            assert(r.deferred_routes@ =~= Seq::<(Matcher, Vec<Method>, String, usize)>::empty());
            assert(r.deferred_commands@ =~= Seq::<Command>::empty());
        }
        r
    }

    /// Defer a route.  The endpoint is prefixed with the module's name
    /// and must not itself contain the separating dot.
    pub fn route(&mut self, rule: &str, methods: &Vec<Method>, endpoint: &str, view_func: usize)
        -> (r: Result<(), RuleError>)
        requires
            old(self).routes_wf(),
        ensures
            final(self).routes_wf(),
            final(self).scoped_wf() == old(self).scoped_wf(),
            final(self).name == old(self).name,
            final(self).deferred_commands == old(self).deferred_commands,
            final(self).before_request_hooks == old(self).before_request_hooks,
            final(self).after_request_hooks == old(self).after_request_hooks,
            final(self).teardown_request_hooks == old(self).teardown_request_hooks,
            final(self).http_error_handlers == old(self).http_error_handlers,
            final(self).user_error_handlers == old(self).user_error_handlers,
            match r {
                Ok(_) => {
                    &&& !endpoint@.contains('.')
                    &&& crate::routing::spec_compile(rule@) is Ok
                    &&& final(self).deferred_routes@.len() == old(self).deferred_routes@.len() + 1
                    &&& ({
                        let added = final(self).deferred_routes@.last();
                        &&& added.2@ == old(self).name@ + "."@ + endpoint@
                        &&& added.1@ == methods@
                        &&& added.3 == view_func
                        &&& crate::routing::spec_compile(rule@) == Ok::<
                            (Seq<crate::routing::SegV>, bool),
                            crate::routing::RuleErrorV,
                        >((added.0.segs_view(), added.0.is_branch))
                    })
                    &&& forall|i: int|
                        0 <= i < old(self).deferred_routes@.len() ==> final(self).deferred_routes@[i] == old(self).deferred_routes@[i]
                },
                Err(e) => final(self).deferred_routes == old(self).deferred_routes && (
                endpoint@.contains('.') ==> e@ is SeparatorInEndpoint) && (!endpoint@.contains('.')
                    ==> crate::routing::spec_compile(rule@) == Err::<
                    (Seq<crate::routing::SegV>, bool),
                    crate::routing::RuleErrorV,
                >(e@)),
            },
    {
        if contains_char(endpoint, '.') {
            return Err(RuleError::SeparatorInEndpoint);
        }
        let matcher = match Matcher::new(rule) {
            Ok(m) => m,
            Err(e) => {
                return Err(e);
            },
        };
        let mut full = self.name.clone();
        full.append(".");
        full.append(endpoint);
        let ghost r0 = self.deferred_routes@;
        self.deferred_routes.push((matcher, copy_methods(methods), full, view_func));
        proof {
            assert forall|i: int|
                0 <= i < self.deferred_routes@.len() implies (#[trigger] self.deferred_routes@[i]).0.wf() by {
                if i < r0.len() {
                    assert(self.deferred_routes@[i] == r0[i]);
                }
            }
        }
        Ok(())
    }

    /// Before-request hook for this module only.
    pub fn before_request(&mut self, f: usize)
        ensures
            final(self).before_request_hooks@ == old(self).before_request_hooks@.push(f),
            final(self).name == old(self).name,
            final(self).root_path == old(self).root_path,
            final(self).static_folder == old(self).static_folder,
            final(self).static_url_path == old(self).static_url_path,
            final(self).template_folder == old(self).template_folder,
            final(self).after_request_hooks == old(self).after_request_hooks,
            final(self).teardown_request_hooks == old(self).teardown_request_hooks,
            final(self).http_error_handlers == old(self).http_error_handlers,
            final(self).user_error_handlers == old(self).user_error_handlers,
            final(self).deferred_routes == old(self).deferred_routes,
            final(self).deferred_commands == old(self).deferred_commands,
    {
        self.before_request_hooks.push(f);
    }

    /// Before-request hook for the application this module is
    /// registered on.
    pub fn before_app_request(&mut self, f: usize)
        ensures
            final(self).deferred_commands@ == old(self).deferred_commands@.push(
                Command::AppBeforeHook(f),
            ),
            final(self).name == old(self).name,
            final(self).root_path == old(self).root_path,
            final(self).static_folder == old(self).static_folder,
            final(self).static_url_path == old(self).static_url_path,
            final(self).template_folder == old(self).template_folder,
            final(self).before_request_hooks == old(self).before_request_hooks,
            final(self).after_request_hooks == old(self).after_request_hooks,
            final(self).teardown_request_hooks == old(self).teardown_request_hooks,
            final(self).http_error_handlers == old(self).http_error_handlers,
            final(self).user_error_handlers == old(self).user_error_handlers,
            final(self).deferred_routes == old(self).deferred_routes,
    {
        self.deferred_commands.push(Command::AppBeforeHook(f));
    }

    /// After-request hook for this module only.
    pub fn after_request(&mut self, f: usize)
        ensures
            final(self).after_request_hooks@ == old(self).after_request_hooks@.push(f),
            final(self).name == old(self).name,
            final(self).root_path == old(self).root_path,
            final(self).static_folder == old(self).static_folder,
            final(self).static_url_path == old(self).static_url_path,
            final(self).template_folder == old(self).template_folder,
            final(self).before_request_hooks == old(self).before_request_hooks,
            final(self).teardown_request_hooks == old(self).teardown_request_hooks,
            final(self).http_error_handlers == old(self).http_error_handlers,
            final(self).user_error_handlers == old(self).user_error_handlers,
            final(self).deferred_routes == old(self).deferred_routes,
            final(self).deferred_commands == old(self).deferred_commands,
    {
        self.after_request_hooks.push(f);
    }

    /// After-request hook for the application this module is registered
    /// on.
    pub fn after_app_request(&mut self, f: usize)
        ensures
            final(self).deferred_commands@ == old(self).deferred_commands@.push(
                Command::AppAfterHook(f),
            ),
            final(self).name == old(self).name,
            final(self).root_path == old(self).root_path,
            final(self).static_folder == old(self).static_folder,
            final(self).static_url_path == old(self).static_url_path,
            final(self).template_folder == old(self).template_folder,
            final(self).before_request_hooks == old(self).before_request_hooks,
            final(self).after_request_hooks == old(self).after_request_hooks,
            final(self).teardown_request_hooks == old(self).teardown_request_hooks,
            final(self).http_error_handlers == old(self).http_error_handlers,
            final(self).user_error_handlers == old(self).user_error_handlers,
            final(self).deferred_routes == old(self).deferred_routes,
    {
        self.deferred_commands.push(Command::AppAfterHook(f));
    }

    /// Teardown hook for this module only.
    pub fn teardown_request(&mut self, f: usize)
        ensures
            final(self).teardown_request_hooks@ == old(self).teardown_request_hooks@.push(f),
            final(self).name == old(self).name,
            final(self).root_path == old(self).root_path,
            final(self).static_folder == old(self).static_folder,
            final(self).static_url_path == old(self).static_url_path,
            final(self).template_folder == old(self).template_folder,
            final(self).before_request_hooks == old(self).before_request_hooks,
            final(self).after_request_hooks == old(self).after_request_hooks,
            final(self).http_error_handlers == old(self).http_error_handlers,
            final(self).user_error_handlers == old(self).user_error_handlers,
            final(self).deferred_routes == old(self).deferred_routes,
            final(self).deferred_commands == old(self).deferred_commands,
    {
        self.teardown_request_hooks.push(f);
    }

    /// Teardown hook for the application this module is registered on.
    pub fn teardown_app_request(&mut self, f: usize)
        ensures
            final(self).deferred_commands@ == old(self).deferred_commands@.push(
                Command::AppTeardownHook(f),
            ),
            final(self).name == old(self).name,
            final(self).root_path == old(self).root_path,
            final(self).static_folder == old(self).static_folder,
            final(self).static_url_path == old(self).static_url_path,
            final(self).template_folder == old(self).template_folder,
            final(self).before_request_hooks == old(self).before_request_hooks,
            final(self).after_request_hooks == old(self).after_request_hooks,
            final(self).teardown_request_hooks == old(self).teardown_request_hooks,
            final(self).http_error_handlers == old(self).http_error_handlers,
            final(self).user_error_handlers == old(self).user_error_handlers,
            final(self).deferred_routes == old(self).deferred_routes,
    {
        self.deferred_commands.push(Command::AppTeardownHook(f));
    }

    /// HTTP error handler active for this module only.
    pub fn httperrorhandler(&mut self, status_code: u16, f: usize)
        requires
            old(self).scoped_wf(),
        ensures
            final(self).scoped_wf(),
            final(self).http_error_handlers.contains_key(status_code),
            final(self).http_error_handlers.spec_get(status_code) == f,
            final(self).name == old(self).name,
            final(self).root_path == old(self).root_path,
            final(self).static_folder == old(self).static_folder,
            final(self).static_url_path == old(self).static_url_path,
            final(self).template_folder == old(self).template_folder,
            final(self).before_request_hooks == old(self).before_request_hooks,
            final(self).after_request_hooks == old(self).after_request_hooks,
            final(self).teardown_request_hooks == old(self).teardown_request_hooks,
            final(self).user_error_handlers == old(self).user_error_handlers,
            final(self).deferred_routes == old(self).deferred_routes,
            final(self).deferred_commands == old(self).deferred_commands,
    {
        self.http_error_handlers.insert(status_code, f);
    }

    /// User error handler active for this module only.
    pub fn usererrorhandler(&mut self, error_desc: &str, f: usize)
        requires
            old(self).scoped_wf(),
        ensures
            final(self).scoped_wf(),
            final(self).user_error_handlers.contains_key(error_desc@),
            final(self).user_error_handlers.spec_get(error_desc@) == f,
            final(self).name == old(self).name,
            final(self).root_path == old(self).root_path,
            final(self).static_folder == old(self).static_folder,
            final(self).static_url_path == old(self).static_url_path,
            final(self).template_folder == old(self).template_folder,
            final(self).before_request_hooks == old(self).before_request_hooks,
            final(self).after_request_hooks == old(self).after_request_hooks,
            final(self).teardown_request_hooks == old(self).teardown_request_hooks,
            final(self).http_error_handlers == old(self).http_error_handlers,
            final(self).deferred_routes == old(self).deferred_routes,
            final(self).deferred_commands == old(self).deferred_commands,
    {
        self.user_error_handlers.insert(error_desc.to_owned(), f);
    }

    /// HTTP error handler for all requests of the application.
    pub fn app_httperrorhandler(&mut self, status_code: u16, f: usize)
        ensures
            final(self).deferred_commands@ == old(self).deferred_commands@.push(
                Command::AppHttpErrorHandler(status_code, f),
            ),
            final(self).name == old(self).name,
            final(self).root_path == old(self).root_path,
            final(self).static_folder == old(self).static_folder,
            final(self).static_url_path == old(self).static_url_path,
            final(self).template_folder == old(self).template_folder,
            final(self).before_request_hooks == old(self).before_request_hooks,
            final(self).after_request_hooks == old(self).after_request_hooks,
            final(self).teardown_request_hooks == old(self).teardown_request_hooks,
            final(self).http_error_handlers == old(self).http_error_handlers,
            final(self).user_error_handlers == old(self).user_error_handlers,
            final(self).deferred_routes == old(self).deferred_routes,
    {
        self.deferred_commands.push(Command::AppHttpErrorHandler(status_code, f));
    }

    /// User error handler for all requests of the application.
    pub fn app_usererrorhandler(&mut self, error_desc: &str, f: usize)
        ensures
            final(self).deferred_commands@.len() == old(self).deferred_commands@.len() + 1,
            final(self).deferred_commands@.last() matches Command::AppUserErrorHandler(d, h) && (
            final(self).deferred_commands@.last() matches Command::AppUserErrorHandler(d, h) ==> d@
                == error_desc@ && h == f),
            forall|i: int|
                0 <= i < old(self).deferred_commands@.len() ==> final(self).deferred_commands@[i]
                    == old(self).deferred_commands@[i],
            final(self).name == old(self).name,
            final(self).root_path == old(self).root_path,
            final(self).static_folder == old(self).static_folder,
            final(self).static_url_path == old(self).static_url_path,
            final(self).template_folder == old(self).template_folder,
            final(self).before_request_hooks == old(self).before_request_hooks,
            final(self).after_request_hooks == old(self).after_request_hooks,
            final(self).teardown_request_hooks == old(self).teardown_request_hooks,
            final(self).http_error_handlers == old(self).http_error_handlers,
            final(self).user_error_handlers == old(self).user_error_handlers,
            final(self).deferred_routes == old(self).deferred_routes,
    {
        self.deferred_commands.push(Command::AppUserErrorHandler(error_desc.to_owned(), f));
    }

    /// Register this module on an application: add the deferred routes
    /// (their endpoints already carry the module prefix), apply the
    /// deferred application-level registrations in order, and store the
    /// module under its name.
    pub fn register(self, app: &mut Pencil)
        requires
            old(app).wf(),
            self.scoped_wf(),
            self.routes_wf(),
        ensures
            final(app).wf(),
            final(app).modules.contains_key(self.name@),
            ({
                let stored = final(app).modules.spec_get(self.name@);
                &&& stored.before_request_hooks == self.before_request_hooks
                &&& stored.after_request_hooks == self.after_request_hooks
                &&& stored.teardown_request_hooks == self.teardown_request_hooks
                &&& stored.http_error_handlers == self.http_error_handlers
                &&& stored.user_error_handlers == self.user_error_handlers
            }),
            forall|k: Seq<char>|
                k != self.name@ ==> final(app).modules.contains_key(k) == old(app).modules.contains_key(k),
            final(app).url_map.rules@.len() == old(app).url_map.rules@.len()
                + self.deferred_routes@.len(),
            forall|i: int|
                0 <= i < old(app).url_map.rules@.len() ==> final(app).url_map.rules@[i] == old(app).url_map.rules@[i],
            forall|k: int|
                0 <= k < self.deferred_routes@.len() ==> {
                    let rule = final(app).url_map.rules@[old(app).url_map.rules@.len() + k];
                    let route = #[trigger] self.deferred_routes@[k];
                    &&& rule.endpoint@ == route.2@
                    &&& rule.matcher.segs_view() == route.0.segs_view()
                    &&& rule.matcher.is_branch == route.0.is_branch
                    &&& crate::method::method_set(rule.methods@)
                        == crate::routing::spec_effective_methods(
                        crate::method::method_set(route.1@),
                    )
                },
            forall|k: int|
                0 <= k < self.deferred_routes@.len() ==> final(app).view_functions.contains_key(
                    (#[trigger] self.deferred_routes@[k]).2@,
                ),
            final(app).before_request_hooks@ == old(app).before_request_hooks@ + cmd_before(
                self.deferred_commands@,
            ),
            final(app).after_request_hooks@ == old(app).after_request_hooks@ + cmd_after(
                self.deferred_commands@,
            ),
            final(app).teardown_request_hooks@ == old(app).teardown_request_hooks@ + cmd_teardown(
                self.deferred_commands@,
            ),
    {
        let Module {
            name,
            root_path,
            static_folder,
            static_url_path,
            template_folder,
            before_request_hooks,
            after_request_hooks,
            teardown_request_hooks,
            http_error_handlers,
            user_error_handlers,
            deferred_routes,
            deferred_commands,
        } = self;
        let ghost routes0 = deferred_routes@;
        let ghost cmds0 = deferred_commands@;
        let ghost rules0 = app.url_map.rules@;
        let mut routes = deferred_routes;
        let n_routes = routes.len();
        let mut k: usize = 0;
        proof {
            assert(n_routes == routes0.len());
            assert(routes0.skip(0) =~= routes0);
        }
        while routes.len() > 0
            invariant
                app.wf(),
                k <= routes0.len(),
                routes0.len() <= usize::MAX,
                routes@ == routes0.skip(k as int),
                app.url_map.rules@.len() == rules0.len() + k,
                forall|i: int| 0 <= i < rules0.len() ==> app.url_map.rules@[i] == rules0[i],
                forall|i: int|
                    0 <= i < routes0.len() ==> (#[trigger] routes0[i]).0.wf(),
                forall|l: int|
                    0 <= l < k ==> {
                        let rule = app.url_map.rules@[rules0.len() + l];
                        let route = #[trigger] routes0[l];
                        &&& rule.endpoint@ == route.2@
                        &&& rule.matcher.segs_view() == route.0.segs_view()
                        &&& rule.matcher.is_branch == route.0.is_branch
                        &&& crate::method::method_set(rule.methods@)
                            == crate::routing::spec_effective_methods(
                            crate::method::method_set(route.1@),
                        )
                    },
                forall|l: int|
                    0 <= l < k ==> app.view_functions.contains_key(
                        (#[trigger] routes0[l]).2@,
                    ),
                app.modules == old(app).modules,
                app.before_request_hooks == old(app).before_request_hooks,
                app.after_request_hooks == old(app).after_request_hooks,
                app.teardown_request_hooks == old(app).teardown_request_hooks,
                app.http_error_handlers == old(app).http_error_handlers,
                app.user_error_handlers == old(app).user_error_handlers,
            decreases routes@.len(),
        {
            proof {
                assert(routes0.skip(k as int)[0] == routes0[k as int]);
                assert(routes0.skip(k as int).drop_first() =~= routes0.skip(k + 1));
            }
            let (matcher, methods, endpoint, handler) = routes.remove(0);
            proof {
                assert(matcher.wf());
            }
            app.add_url_rule(matcher, &methods, endpoint.as_str(), handler);
            proof {
                assert forall|l: int|
                    0 <= l < k + 1 implies app.view_functions.contains_key(
                    (#[trigger] routes0[l]).2@,
                ) by {}
            }
            k += 1;
        }
        proof {
            assert(routes0.skip(routes0.len() as int) =~= Seq::<
                (Matcher, Vec<Method>, String, usize),
            >::empty());
            assert(k == routes0.len());
            assert(cmds0.take(0) =~= Seq::<Command>::empty());
            assert(cmd_before(cmds0.take(0)) =~= Seq::<usize>::empty());
            assert(cmd_after(cmds0.take(0)) =~= Seq::<usize>::empty());
            assert(cmd_teardown(cmds0.take(0)) =~= Seq::<usize>::empty());
            assert(app.before_request_hooks@ =~= old(app).before_request_hooks@ + cmd_before(
                cmds0.take(0),
            ));
            assert(app.after_request_hooks@ =~= old(app).after_request_hooks@ + cmd_after(
                cmds0.take(0),
            ));
            assert(app.teardown_request_hooks@ =~= old(app).teardown_request_hooks@ + cmd_teardown(
                cmds0.take(0),
            ));
        }
        let ghost rules1 = app.url_map.rules@;
        let mut cmds = deferred_commands;
        let n_cmds = cmds.len();
        proof {
            assert(n_cmds == cmds0.len());
        }
        let mut i: usize = 0;
        while cmds.len() > 0
            invariant
                app.wf(),
                i <= cmds0.len(),
                cmds0.len() <= usize::MAX,
                cmds@ == cmds0.skip(i as int),
                app.before_request_hooks@ == old(app).before_request_hooks@ + cmd_before(
                    cmds0.take(i as int),
                ),
                app.after_request_hooks@ == old(app).after_request_hooks@ + cmd_after(
                    cmds0.take(i as int),
                ),
                app.teardown_request_hooks@ == old(app).teardown_request_hooks@ + cmd_teardown(
                    cmds0.take(i as int),
                ),
                app.url_map.rules@ == rules1,
                app.modules == old(app).modules,
                forall|l: int|
                    0 <= l < routes0.len() ==> app.view_functions.contains_key(
                        (#[trigger] routes0[l]).2@,
                    ),
            decreases cmds@.len(),
        {
            proof {
                assert(cmds0.skip(i as int)[0] == cmds0[i as int]);
                assert(cmds0.skip(i as int).drop_first() =~= cmds0.skip(i + 1));
                assert(cmds0.take(i + 1).drop_last() =~= cmds0.take(i as int));
                assert(cmds0.take(i + 1).last() == cmds0[i as int]);
            }
            let cmd = cmds.remove(0);
            match cmd {
                Command::AppBeforeHook(h) => {
                    app.before_request(h);
                },
                Command::AppAfterHook(h) => {
                    app.after_request(h);
                },
                Command::AppTeardownHook(h) => {
                    app.teardown_request(h);
                },
                Command::AppHttpErrorHandler(code, h) => {
                    app.register_http_error_handler(code, h);
                },
                Command::AppUserErrorHandler(desc, h) => {
                    app.register_user_error_handler(desc.as_str(), h);
                },
            }
            i += 1;
        }
        proof {
            assert(cmds0.take(cmds0.len() as int) =~= cmds0);
        }
        let stored = Module {
            name: name.clone(),
            root_path,
            static_folder,
            static_url_path,
            template_folder,
            before_request_hooks,
            after_request_hooks,
            teardown_request_hooks,
            http_error_handlers,
            user_error_handlers,
            deferred_routes: Vec::new(),
            deferred_commands: Vec::new(),
        };
        app.modules.insert(name, stored);
    }
}

} // verus!
